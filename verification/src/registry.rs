//! The closed set of component kinds and the tags that name them in a
//! document.

use vstd::prelude::*;

verus! {

/// A kind of component. The set is fixed: a document is read with the same
/// kinds that it was written with.
#[derive(Clone, Copy, Debug, PartialEq, Eq, Structural)]
pub enum ComponentId {
    Transform,
    Model,
}

impl ComponentId {
    /// The tag of this kind: the key under which a component of this kind
    /// stands in an entity record.
    pub open spec fn tag_text(self) -> Seq<char> {
        match self {
            ComponentId::Transform => "Transform"@,
            ComponentId::Model => "Model"@,
        }
    }

    /// The kind that `tag` names, if it names one.
    pub open spec fn of_tag(tag: Seq<char>) -> Option<ComponentId> {
        if tag == "Transform"@ {
            Some(ComponentId::Transform)
        } else if tag == "Model"@ {
            Some(ComponentId::Model)
        } else {
            None
        }
    }

    /// The tag of this kind.
    pub fn tag(self) -> (r: &'static str)
        ensures
            r@ == self.tag_text(),
    {
        match self {
            ComponentId::Transform => "Transform",
            ComponentId::Model => "Model",
        }
    }

    /// The kind that `tag` names, if it names one.
    pub fn from_tag(tag: &str) -> (r: Option<ComponentId>)
        ensures
            r == ComponentId::of_tag(tag@),
    {
        let tag = tag.to_owned();
        if tag == "Transform".to_owned() {
            Some(ComponentId::Transform)
        } else if tag == "Model".to_owned() {
            Some(ComponentId::Model)
        } else {
            None
        }
    }
}

/// Two kinds never share a tag, and a tag names the kind it is the tag of.
pub proof fn lemma_tags(a: ComponentId, b: ComponentId)
    ensures
        ComponentId::of_tag(a.tag_text()) == Some(a),
        a.tag_text() == b.tag_text() ==> a == b,
{
    reveal_strlit("Transform");
    reveal_strlit("Model");
    assert("Transform"@[0] != "Model"@[0]);
}

/// The kinds that a codec reads and writes, in the order in which it writes
/// them.
#[derive(Debug)]
pub struct Registry {
    order: Vec<ComponentId>,
}

impl View for Registry {
    type V = Seq<ComponentId>;

    closed spec fn view(&self) -> Seq<ComponentId> {
        self.order@
    }
}

impl Registry {
    #[verifier::type_invariant]
    spec fn well_formed(self) -> bool {
        self.order@.no_duplicates()
    }

    /// A registry without kinds.
    pub fn new() -> (r: Registry)
        ensures
            r@ == Seq::<ComponentId>::empty(),
    {
        Registry { order: Vec::new() }
    }

    /// Adds a kind behind those already registered. Registering a kind a second
    /// time changes nothing.
    pub fn register(&mut self, id: ComponentId)
        ensures
            final(self)@ == if old(self)@.contains(id) {
                old(self)@
            } else {
                old(self)@.push(id)
            },
    {
        if !self.contains(id) {
            proof {
                use_type_invariant(&*self);
            }
            let mut order: Vec<ComponentId> = Vec::new();
            let mut i: usize = 0;
            while i < self.order.len()
                invariant
                    i <= self.order.len(),
                    order@ == self.order@.take(i as int),
                decreases self.order.len() - i,
            {
                order.push(self.order[i]);
                assert(self.order@.take(i + 1) =~= self.order@.take(i as int).push(
                    self.order@[i as int],
                ));
                i = i + 1;
            }
            assert(self.order@.take(i as int) =~= self.order@);
            order.push(id);
            *self = Registry { order };
        }
    }

    /// Whether a kind is registered.
    pub fn contains(&self, id: ComponentId) -> (r: bool)
        ensures
            r == self@.contains(id),
    {
        let mut i: usize = 0;
        while i < self.order.len()
            invariant
                i <= self.order.len(),
                forall|k: int| 0 <= k < i ==> self.order@[k] != id,
            decreases self.order.len() - i,
        {
            if self.order[i] == id {
                return true;
            }
            i = i + 1;
        }
        false
    }

    /// The number of registered kinds. No kind is registered twice.
    pub fn len(&self) -> (r: usize)
        ensures
            r == self@.len(),
            self@.no_duplicates(),
    {
        proof {
            use_type_invariant(self);
        }
        self.order.len()
    }

    /// The kind at position `i` of the writing order.
    pub fn get(&self, i: usize) -> (r: ComponentId)
        requires
            i < self@.len(),
        ensures
            r == self@[i as int],
            self@.no_duplicates(),
    {
        proof {
            use_type_invariant(self);
        }
        self.order[i]
    }

    /// The registered kind that `tag` names, if there is one.
    pub fn lookup(&self, tag: &str) -> (r: Option<ComponentId>)
        ensures
            r == lookup_tag(self@, tag@),
    {
        match ComponentId::from_tag(tag) {
            Some(id) => if self.contains(id) {
                Some(id)
            } else {
                None
            },
            None => None,
        }
    }
}

/// The kind among `order` that `tag` names, if there is one.
pub open spec fn lookup_tag(order: Seq<ComponentId>, tag: Seq<char>) -> Option<ComponentId> {
    match ComponentId::of_tag(tag) {
        Some(id) => if order.contains(id) {
            Some(id)
        } else {
            None
        },
        None => None,
    }
}

/// The kinds of the standard registry: transforms, then models.
pub open spec fn standard_order() -> Seq<ComponentId> {
    seq![ComponentId::Transform, ComponentId::Model]
}

/// The standard registry holds every kind once.
pub proof fn lemma_standard_order()
    ensures
        standard_order().no_duplicates(),
        forall|id: ComponentId| standard_order().contains(id),
{
    assert(standard_order()[0] == ComponentId::Transform);
    assert(standard_order()[1] == ComponentId::Model);
}

/// The standard registry: transforms, then models.
pub fn create_registry() -> (r: Registry)
    ensures
        r@ == standard_order(),
{
    let mut r = Registry::new();
    r.register(ComponentId::Transform);
    r.register(ComponentId::Model);
    assert(r@ =~= standard_order());
    r
}

} // verus!
