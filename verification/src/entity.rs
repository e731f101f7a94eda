//! The entity codec: between the components that one entity carries and the
//! record that stands for it in a document.
//!
//! A record is a list of entries, each a tag and a value. Writing emits one
//! entry for every registered kind that the entity carries, in registry order,
//! and nothing for a kind that it lacks. Reading takes the entries in their
//! order and stops at the first that it cannot accept: a tag that names no
//! registered kind, a tag met before in the same record, or a value that does
//! not have the shape of its kind.

use crate::codec::{
    decode_model,
    decode_transform,
    encode_model,
    encode_transform,
    json_model,
    json_transform,
    lemma_model_round_trip,
    lemma_read_model_wf,
    lemma_read_transform_wf,
    lemma_transform_round_trip,
    model_json,
    transform_json,
};
use crate::json::{distinct_keys, entry_views, json_view, Json};
use crate::math::{Transform, TransformView};
use crate::primitive::{Model, ModelView};
use crate::registry::{lemma_tags, lookup_tag, ComponentId, Registry};
use vstd::prelude::*;

verus! {

/// The components of one entity: at most one of each kind.
#[derive(Clone, Debug, PartialEq, Eq)]
pub struct ComponentSet {
    pub transform: Option<Transform>,
    pub model: Option<Model>,
}

/// What a [`ComponentSet`] holds.
pub struct ComponentSetView {
    pub transform: Option<TransformView>,
    pub model: Option<ModelView>,
}

impl ComponentSetView {
    /// The set without components.
    pub open spec fn empty() -> ComponentSetView {
        ComponentSetView { transform: None, model: None }
    }

    /// Whether the set holds a component of kind `id`.
    pub open spec fn has(self, id: ComponentId) -> bool {
        match id {
            ComponentId::Transform => self.transform is Some,
            ComponentId::Model => self.model is Some,
        }
    }

    /// Every component of the set is well formed.
    pub open spec fn wf(self) -> bool {
        &&& self.transform matches Some(t) ==> t.wf()
        &&& self.model matches Some(m) ==> m.wf()
    }

    /// Every component of the set is of a kind among `order`.
    pub open spec fn within(self, order: Seq<ComponentId>) -> bool {
        forall|id: ComponentId| self.has(id) ==> order.contains(id)
    }

    /// The components of the set whose kind is among `order`.
    pub open spec fn restrict(self, order: Seq<ComponentId>) -> ComponentSetView {
        ComponentSetView {
            transform: if order.contains(ComponentId::Transform) {
                self.transform
            } else {
                None
            },
            model: if order.contains(ComponentId::Model) {
                self.model
            } else {
                None
            },
        }
    }

    /// The set with the component of kind `id` that `j` is the shape of, if
    /// `j` has the shape of that kind.
    pub open spec fn with_json(self, id: ComponentId, j: Json) -> Option<ComponentSetView> {
        match id {
            ComponentId::Transform => match json_transform(j) {
                Some(t) => Some(ComponentSetView { transform: Some(t), ..self }),
                None => None,
            },
            ComponentId::Model => match json_model(j) {
                Some(m) => Some(ComponentSetView { model: Some(m), ..self }),
                None => None,
            },
        }
    }

    /// How the component of kind `id` is written, if the set holds one.
    pub open spec fn component_json(self, id: ComponentId) -> Option<Json> {
        match id {
            ComponentId::Transform => match self.transform {
                Some(t) => Some(transform_json(t)),
                None => None,
            },
            ComponentId::Model => match self.model {
                Some(m) => Some(model_json(m)),
                None => None,
            },
        }
    }
}

impl View for ComponentSet {
    type V = ComponentSetView;

    open spec fn view(&self) -> ComponentSetView {
        ComponentSetView {
            transform: match self.transform {
                Some(t) => Some(t@),
                None => None,
            },
            model: match self.model {
                Some(m) => Some(m@),
                None => None,
            },
        }
    }
}

impl ComponentSet {
    /// The set without components.
    pub fn new() -> (r: ComponentSet)
        ensures
            r@ == ComponentSetView::empty(),
    {
        ComponentSet { transform: None, model: None }
    }

    /// Whether the set holds a component of kind `id`.
    pub fn has(&self, id: ComponentId) -> (r: bool)
        ensures
            r == self@.has(id),
    {
        match id {
            ComponentId::Transform => self.transform.is_some(),
            ComponentId::Model => self.model.is_some(),
        }
    }
}

/// Why an entry of a record was not accepted.
#[derive(Clone, Copy, Debug, PartialEq, Eq, Structural)]
pub enum Fault {
    /// The tag names no registered kind.
    UnknownTag,
    /// The tag stood in the same record before.
    DuplicateTag,
    /// The value does not have the shape of the kind that the tag names.
    Decode,
}

/// The entry at which reading a record stopped, and why.
#[derive(Clone, Debug, PartialEq, Eq)]
pub struct EntityError {
    pub fault: Fault,
    pub tag: String,
}

impl View for EntityError {
    type V = (Fault, Seq<char>);

    open spec fn view(&self) -> (Fault, Seq<char>) {
        (self.fault, self.tag@)
    }
}

/// The record of an entity with the components `set`: one entry for each kind
/// among `order` that the set holds, in the order of `order`.
pub open spec fn record_of(order: Seq<ComponentId>, set: ComponentSetView) -> Seq<
    (Seq<char>, Json),
>
    decreases order.len(),
{
    if order.len() == 0 {
        Seq::empty()
    } else {
        let before = record_of(order.drop_last(), set);
        match set.component_json(order.last()) {
            Some(j) => before.push((order.last().tag_text(), j)),
            None => before,
        }
    }
}

/// The set `acc` with the component of one entry added, or the reason why
/// the entry is not accepted.
pub open spec fn accept_entry(
    order: Seq<ComponentId>,
    acc: ComponentSetView,
    entry: (Seq<char>, Json),
) -> Result<ComponentSetView, (Fault, Seq<char>)> {
    match lookup_tag(order, entry.0) {
        None => Err((Fault::UnknownTag, entry.0)),
        Some(id) => if acc.has(id) {
            Err((Fault::DuplicateTag, entry.0))
        } else {
            match acc.with_json(id, entry.1) {
                Some(next) => Ok(next),
                None => Err((Fault::Decode, entry.0)),
            }
        }
    }
}

/// The set `acc` with the components of all `entries` added in their order,
/// or the fault of the first entry that is not accepted.
pub open spec fn accept_entries(
    order: Seq<ComponentId>,
    acc: ComponentSetView,
    entries: Seq<(Seq<char>, Json)>,
) -> Result<ComponentSetView, (Fault, Seq<char>)>
    decreases entries.len(),
{
    if entries.len() == 0 {
        Ok(acc)
    } else {
        match accept_entry(order, acc, entries[0]) {
            Ok(next) => accept_entries(order, next, entries.drop_first()),
            Err(e) => Err(e),
        }
    }
}

/// The components that a record stands for, or the fault of its first entry
/// that is not accepted.
pub open spec fn components_of(order: Seq<ComponentId>, entries: Seq<(Seq<char>, Json)>) -> Result<
    ComponentSetView,
    (Fault, Seq<char>),
> {
    accept_entries(order, ComponentSetView::empty(), entries)
}

/// Whether an entry can be accepted on its own: its tag names a registered
/// kind and its value has the shape of that kind.
pub open spec fn entry_ok(order: Seq<ComponentId>, entry: (Seq<char>, Json)) -> bool {
    match lookup_tag(order, entry.0) {
        Some(id) => ComponentSetView::empty().with_json(id, entry.1) is Some,
        None => false,
    }
}

/// Whether a record can be read: every entry can be accepted on its own, and
/// no tag stands twice.
pub open spec fn record_ok(order: Seq<ComponentId>, entries: Seq<(Seq<char>, Json)>) -> bool {
    &&& distinct_keys(entries)
    &&& forall|i: int| 0 <= i < entries.len() ==> entry_ok(order, #[trigger] entries[i])
}

/// Writes the component of kind `id` of an entity in the shape of that kind;
/// `None` where the entity carries no such component.
pub fn serialize_for(id: ComponentId, set: &ComponentSet) -> (r: Option<serde_json::Value>)
    ensures
        match set@.component_json(id) {
            Some(j) => r is Some && json_view(r.unwrap()) == j,
            None => r is None,
        },
{
    match id {
        ComponentId::Transform => match &set.transform {
            Some(t) => Some(encode_transform(t)),
            None => None,
        },
        ComponentId::Model => match &set.model {
            Some(m) => Some(encode_model(m)),
            None => None,
        },
    }
}

/// Reads `value` as a component of kind `id` and gives it to the entity, in
/// place of an earlier component of that kind. Where `value` does not have
/// the shape of the kind, the answer is `false` and the entity is as before.
pub fn deserialize_for(id: ComponentId, value: &serde_json::Value, set: &mut ComponentSet) -> (ok:
    bool)
    ensures
        match old(set)@.with_json(id, json_view(*value)) {
            Some(next) => ok && final(set)@ == next,
            None => !ok && final(set)@ == old(set)@,
        },
{
    match id {
        ComponentId::Transform => match decode_transform(value) {
            Some(t) => {
                set.transform = Some(t);
                true
            },
            None => false,
        },
        ComponentId::Model => match decode_model(value) {
            Some(m) => {
                set.model = Some(m);
                true
            },
            None => false,
        },
    }
}

/// Writes the record of an entity.
pub fn serialize_entity(registry: &Registry, set: &ComponentSet) -> (record: Vec<
    (String, serde_json::Value),
>)
    ensures
        entry_views(record@) == record_of(registry@, set@),
        distinct_keys(entry_views(record@)),
{
    let mut record: Vec<(String, serde_json::Value)> = Vec::new();
    let n = registry.len();
    let mut i: usize = 0;
    assert(registry@.take(0) =~= Seq::<ComponentId>::empty());
    assert(entry_views(record@) =~= record_of(registry@.take(0), set@));
    while i < n
        invariant
            i <= n,
            n == registry@.len(),
            entry_views(record@) == record_of(registry@.take(i as int), set@),
        decreases n - i,
    {
        let id = registry.get(i);
        let ghost before = record@;
        proof {
            assert(registry@.take(i + 1).drop_last() =~= registry@.take(i as int));
            assert(registry@.take(i + 1).last() == id);
        }
        if let Some(value) = serialize_for(id, set) {
            record.push((id.tag().to_owned(), value));
        }
        proof {
            if set@.has(id) {
                assert(entry_views(record@) =~= entry_views(before).push(
                    (id.tag_text(), set@.component_json(id).unwrap()),
                ));
            }
        }
        i = i + 1;
    }
    proof {
        assert(registry@.take(n as int) =~= registry@);
        lemma_record_keys(registry@, set@);
    }
    record
}

/// Reads the components of an entity from its record.
pub fn deserialize_entity(registry: &Registry, record: &Vec<(String, serde_json::Value)>) -> (r:
    Result<ComponentSet, EntityError>)
    ensures
        match components_of(registry@, entry_views(record@)) {
            Ok(set) => r is Ok && r.unwrap()@ == set,
            Err(e) => r is Err && r.unwrap_err()@ == e,
        },
{
    let mut set = ComponentSet::new();
    let ghost entries = entry_views(record@);
    let mut i: usize = 0;
    assert(entries.skip(0) =~= entries);
    while i < record.len()
        invariant
            i <= record.len(),
            entries == entry_views(record@),
            components_of(registry@, entries) == accept_entries(
                registry@,
                set@,
                entries.skip(i as int),
            ),
        decreases record.len() - i,
    {
        let tag = &record[i].0;
        let value = &record[i].1;
        proof {
            assert(entries.skip(i as int)[0] == (tag@, json_view(*value)));
            assert(entries.skip(i as int).drop_first() =~= entries.skip(i + 1));
        }
        let id = match registry.lookup(tag.as_str()) {
            Some(id) => id,
            None => {
                return Err(EntityError { fault: Fault::UnknownTag, tag: tag.clone() });
            },
        };
        if set.has(id) {
            return Err(EntityError { fault: Fault::DuplicateTag, tag: tag.clone() });
        }
        if !deserialize_for(id, value, &mut set) {
            return Err(EntityError { fault: Fault::Decode, tag: tag.clone() });
        }
        i = i + 1;
    }
    Ok(set)
}

/// Every key of a written record is the tag of a kind among `order` that the
/// set holds.
pub proof fn lemma_record_tags(order: Seq<ComponentId>, set: ComponentSetView, i: int)
    requires
        0 <= i < record_of(order, set).len(),
    ensures
        exists|k: int|
            0 <= k < order.len() && set.has(order[k]) && record_of(order, set)[i] == (
                (#[trigger] order[k]).tag_text(),
                set.component_json(order[k]).unwrap(),
            ),
    decreases order.len(),
{
    if order.len() > 0 {
        let before = record_of(order.drop_last(), set);
        if i < before.len() {
            lemma_record_tags(order.drop_last(), set, i);
            let k = choose|k: int|
                0 <= k < order.drop_last().len() && set.has(order.drop_last()[k]) && before[i] == (
                    (#[trigger] order.drop_last()[k]).tag_text(),
                    set.component_json(order.drop_last()[k]).unwrap(),
                );
            assert(order[k] == order.drop_last()[k]);
        } else {
            assert(set.has(order[order.len() - 1]));
        }
    }
}

/// No tag stands twice in a written record.
pub proof fn lemma_record_keys(order: Seq<ComponentId>, set: ComponentSetView)
    requires
        order.no_duplicates(),
    ensures
        distinct_keys(record_of(order, set)),
    decreases order.len(),
{
    if order.len() > 0 {
        let before = record_of(order.drop_last(), set);
        lemma_record_keys(order.drop_last(), set);
        let record = record_of(order, set);
        assert forall|i: int, j: int| 0 <= i < j < record.len() implies (#[trigger] record[i]).0 != (
        #[trigger] record[j]).0 by {
            if j == before.len() {
                lemma_record_tags(order.drop_last(), set, i);
                let k = choose|k: int|
                    0 <= k < order.drop_last().len() && set.has(order.drop_last()[k]) && before[i]
                        == (
                        (#[trigger] order.drop_last()[k]).tag_text(),
                        set.component_json(order.drop_last()[k]).unwrap(),
                    );
                assert(order[k] == order.drop_last()[k]);
                lemma_tags(order[k], order.last());
            }
        }
    }
}

/// Reading a record that ends in `e` is reading the record without `e` and
/// then `e`.
pub proof fn lemma_accept_push(
    order: Seq<ComponentId>,
    acc: ComponentSetView,
    entries: Seq<(Seq<char>, Json)>,
    e: (Seq<char>, Json),
)
    ensures
        accept_entries(order, acc, entries.push(e)) == match accept_entries(order, acc, entries) {
            Ok(a) => accept_entry(order, a, e),
            Err(x) => Err(x),
        },
    decreases entries.len(),
{
    let longer = entries.push(e);
    if entries.len() == 0 {
        assert(longer.drop_first() =~= Seq::<(Seq<char>, Json)>::empty());
        match accept_entry(order, acc, e) {
            Ok(next) => {
                assert(accept_entries(order, next, longer.drop_first()) == Ok::<
                    ComponentSetView,
                    (Fault, Seq<char>),
                >(next));
            },
            Err(_) => {},
        }
    } else {
        assert(longer[0] == entries[0]);
        assert(longer.drop_first() =~= entries.drop_first().push(e));
        match accept_entry(order, acc, entries[0]) {
            Ok(next) => {
                lemma_accept_push(order, next, entries.drop_first(), e);
            },
            Err(_) => {},
        }
    }
}

/// Reading a record is reading its first `i` entries and then the rest.
pub proof fn lemma_accept_split(
    order: Seq<ComponentId>,
    acc: ComponentSetView,
    entries: Seq<(Seq<char>, Json)>,
    i: int,
)
    requires
        0 <= i <= entries.len(),
    ensures
        accept_entries(order, acc, entries) == match accept_entries(order, acc, entries.take(i)) {
            Ok(a) => accept_entries(order, a, entries.skip(i)),
            Err(x) => Err(x),
        },
    decreases i,
{
    if i == 0 {
        assert(entries.take(0) =~= Seq::<(Seq<char>, Json)>::empty());
        assert(entries.skip(0) =~= entries);
    } else {
        let head = entries.take(i);
        assert(head[0] == entries[0]);
        assert(head.drop_first() =~= entries.drop_first().take(i - 1));
        assert(entries.drop_first().skip(i - 1) =~= entries.skip(i));
        match accept_entry(order, acc, entries[0]) {
            Ok(next) => {
                lemma_accept_split(order, next, entries.drop_first(), i - 1);
            },
            Err(_) => {},
        }
    }
}

/// Once a kind is in the set, reading further entries keeps it there.
pub proof fn lemma_accept_keeps(
    order: Seq<ComponentId>,
    acc: ComponentSetView,
    entries: Seq<(Seq<char>, Json)>,
    id: ComponentId,
)
    requires
        acc.has(id),
        accept_entries(order, acc, entries) is Ok,
    ensures
        accept_entries(order, acc, entries)->Ok_0.has(id),
    decreases entries.len(),
{
    if entries.len() > 0 {
        lemma_accept_keeps(
            order,
            accept_entry(order, acc, entries[0])->Ok_0,
            entries.drop_first(),
            id,
        );
    }
}

/// What reading adds to a well-formed set of registered kinds is well formed
/// and of a registered kind.
pub proof fn lemma_accept_wf(
    order: Seq<ComponentId>,
    acc: ComponentSetView,
    entries: Seq<(Seq<char>, Json)>,
)
    requires
        acc.wf(),
        acc.within(order),
        accept_entries(order, acc, entries) is Ok,
    ensures
        accept_entries(order, acc, entries)->Ok_0.wf(),
        accept_entries(order, acc, entries)->Ok_0.within(order),
    decreases entries.len(),
{
    if entries.len() > 0 {
        let e = entries[0];
        let id = lookup_tag(order, e.0).unwrap();
        let next = accept_entry(order, acc, e)->Ok_0;
        match id {
            ComponentId::Transform => {
                lemma_read_transform_wf(e.1);
            },
            ComponentId::Model => {
                lemma_read_model_wf(e.1);
            },
        }
        assert forall|x: ComponentId| next.has(x) implies order.contains(x) by {
            if x != id {
                assert(acc.has(x));
            }
        }
        lemma_accept_wf(order, next, entries.drop_first());
    }
}

/// The components that are read from a record are well formed and of
/// registered kinds.
pub proof fn lemma_components_wf(order: Seq<ComponentId>, entries: Seq<(Seq<char>, Json)>)
    requires
        components_of(order, entries) is Ok,
    ensures
        components_of(order, entries)->Ok_0.wf(),
        components_of(order, entries)->Ok_0.within(order),
{
    lemma_accept_wf(order, ComponentSetView::empty(), entries);
}

/// Writing the first `k` kinds of the registry and reading the result gives
/// the components of those kinds.
proof fn lemma_round_trip_prefix(order: Seq<ComponentId>, set: ComponentSetView, k: int)
    requires
        order.no_duplicates(),
        set.wf(),
        0 <= k <= order.len(),
    ensures
        components_of(order, record_of(order.take(k), set)) == Ok::<
            ComponentSetView,
            (Fault, Seq<char>),
        >(set.restrict(order.take(k))),
    decreases k,
{
    let part = order.take(k);
    if k == 0 {
        assert(set.restrict(part) == ComponentSetView::empty());
    } else {
        let id = order[k - 1];
        let shorter = order.take(k - 1);
        assert(part.drop_last() =~= shorter);
        assert(part.last() == id);
        lemma_round_trip_prefix(order, set, k - 1);
        let before = record_of(shorter, set);
        let acc = set.restrict(shorter);
        assert(!shorter.contains(id));
        assert forall|x: ComponentId| part.contains(x) <==> (shorter.contains(x) || x == id) by {
            if shorter.contains(x) {
                let j = choose|j: int| 0 <= j < shorter.len() && shorter[j] == x;
                assert(part[j] == x);
            }
            if x == id {
                assert(part[k - 1] == x);
            }
        }
        match set.component_json(id) {
            Some(j) => {
                let e = (id.tag_text(), j);
                lemma_accept_push(order, ComponentSetView::empty(), before, e);
                lemma_tags(id, id);
                assert(order.contains(id));
                match id {
                    ComponentId::Transform => {
                        lemma_transform_round_trip(set.transform.unwrap());
                    },
                    ComponentId::Model => {
                        lemma_model_round_trip(set.model.unwrap());
                    },
                }
                assert(accept_entry(order, acc, e) == Ok::<ComponentSetView, (Fault, Seq<char>)>(
                    set.restrict(part),
                ));
            },
            None => {
                assert(set.restrict(part) == acc);
            },
        }
    }
}

/// Round trip of one entity: a well-formed set of components of registered
/// kinds, written as a record and read back, is the same set.
pub proof fn lemma_entity_round_trip(order: Seq<ComponentId>, set: ComponentSetView)
    requires
        order.no_duplicates(),
        set.wf(),
        set.within(order),
    ensures
        components_of(order, record_of(order, set)) == Ok::<ComponentSetView, (Fault, Seq<char>)>(
            set,
        ),
{
    lemma_round_trip_prefix(order, set, order.len() as int);
    assert(order.take(order.len() as int) =~= order);
    assert(set.has(ComponentId::Transform) ==> order.contains(ComponentId::Transform));
    assert(set.has(ComponentId::Model) ==> order.contains(ComponentId::Model));
}

/// Sparsity: an entity without components is written as the empty record,
/// and the empty record is read as an entity without components.
pub proof fn lemma_empty_entity(order: Seq<ComponentId>)
    ensures
        record_of(order, ComponentSetView::empty()) == Seq::<(Seq<char>, Json)>::empty(),
        components_of(order, Seq::empty()) == Ok::<ComponentSetView, (Fault, Seq<char>)>(
            ComponentSetView::empty(),
        ),
    decreases order.len(),
{
    if order.len() > 0 {
        lemma_empty_entity(order.drop_last());
    }
}

/// Unknown tag: a record with an entry whose tag names no registered kind is
/// not read. Where the entries before it are accepted, the fault is
/// `UnknownTag` with that tag.
pub proof fn lemma_unknown_tag_rejected(
    order: Seq<ComponentId>,
    entries: Seq<(Seq<char>, Json)>,
    i: int,
)
    requires
        0 <= i < entries.len(),
        lookup_tag(order, entries[i].0) is None,
    ensures
        components_of(order, entries) is Err,
        components_of(order, entries.take(i)) is Ok ==> components_of(order, entries) == Err::<
            ComponentSetView,
            (Fault, Seq<char>),
        >((Fault::UnknownTag, entries[i].0)),
{
    lemma_accept_split(order, ComponentSetView::empty(), entries, i);
    assert(entries.skip(i)[0] == entries[i]);
}

/// Duplicate tag: a record in which one tag stands twice is not read. Where
/// the entries before the second occurrence are accepted, the fault is
/// `DuplicateTag` with that tag.
pub proof fn lemma_duplicate_tag_rejected(
    order: Seq<ComponentId>,
    entries: Seq<(Seq<char>, Json)>,
    i: int,
    j: int,
)
    requires
        0 <= i < j < entries.len(),
        entries[i].0 == entries[j].0,
    ensures
        components_of(order, entries) is Err,
        components_of(order, entries.take(j)) is Ok ==> components_of(order, entries) == Err::<
            ComponentSetView,
            (Fault, Seq<char>),
        >((Fault::DuplicateTag, entries[j].0)),
{
    let empty = ComponentSetView::empty();
    let head = entries.take(j);
    lemma_accept_split(order, empty, entries, j);
    assert(entries.skip(j)[0] == entries[j]);
    if accept_entries(order, empty, head) is Ok {
        lemma_accept_split(order, empty, head, i);
        let first = accept_entries(order, empty, head.take(i))->Ok_0;
        let rest = head.skip(i);
        assert(rest[0] == entries[i]);
        let id = lookup_tag(order, entries[i].0).unwrap();
        let second = accept_entry(order, first, rest[0])->Ok_0;
        assert(second.has(id));
        lemma_accept_keeps(order, second, rest.drop_first(), id);
    }
}

/// Reading goes through from the set `acc` exactly if no tag stands twice,
/// every entry can be accepted on its own, and no entry is of a kind that
/// `acc` holds already.
proof fn lemma_accept_iff(
    order: Seq<ComponentId>,
    acc: ComponentSetView,
    entries: Seq<(Seq<char>, Json)>,
)
    ensures
        accept_entries(order, acc, entries) is Ok <==> record_ok(order, entries) && forall|i: int|
            0 <= i < entries.len() ==> !acc.has(
                lookup_tag(order, (#[trigger] entries[i]).0).unwrap(),
            ),
    decreases entries.len(),
{
    if entries.len() > 0 {
        let e = entries[0];
        let rest = entries.drop_first();
        assert forall|i: int| 0 <= i < rest.len() implies rest[i] == entries[i + 1] by {}
        match accept_entry(order, acc, e) {
            Ok(next) => {
                let id = lookup_tag(order, e.0).unwrap();
                lemma_accept_iff(order, next, rest);
                lemma_tags(id, id);
                if accept_entries(order, next, rest) is Ok {
                    assert forall|i: int| 0 <= i < entries.len() implies entry_ok(
                        order,
                        #[trigger] entries[i],
                    ) && !acc.has(lookup_tag(order, entries[i].0).unwrap()) by {
                        if i > 0 {
                            assert(rest[i - 1] == entries[i]);
                            let x = lookup_tag(order, rest[i - 1].0).unwrap();
                            assert(!next.has(x));
                        }
                    }
                    assert forall|i: int, j: int| 0 <= i < j < entries.len() implies (
                    #[trigger] entries[i]).0 != (#[trigger] entries[j]).0 by {
                        if i == 0 {
                            assert(rest[j - 1] == entries[j]);
                            let x = lookup_tag(order, rest[j - 1].0).unwrap();
                            assert(!next.has(x));
                        } else {
                            assert(rest[i - 1] == entries[i]);
                            assert(rest[j - 1] == entries[j]);
                        }
                    }
                }
                if record_ok(order, entries) && forall|i: int|
                    0 <= i < entries.len() ==> !acc.has(
                        lookup_tag(order, (#[trigger] entries[i]).0).unwrap(),
                    ) {
                    assert forall|i: int| 0 <= i < rest.len() implies entry_ok(
                        order,
                        #[trigger] rest[i],
                    ) && !next.has(lookup_tag(order, rest[i].0).unwrap()) by {
                        assert(rest[i] == entries[i + 1]);
                        assert(entry_ok(order, entries[i + 1]));
                        let x = lookup_tag(order, entries[i + 1].0).unwrap();
                        assert(!acc.has(x));
                        assert(entries[0].0 != entries[i + 1].0);
                        lemma_tags(x, id);
                    }
                    assert forall|i: int, j: int| 0 <= i < j < rest.len() implies (
                    #[trigger] rest[i]).0 != (#[trigger] rest[j]).0 by {
                        assert(rest[i] == entries[i + 1]);
                        assert(rest[j] == entries[j + 1]);
                    }
                }
            },
            Err(_) => {
                assert(entries[0] == e);
            },
        }
    }
}

/// When a record is read: exactly if every one of its tags names a
/// registered kind, every value has the shape of the kind that its tag names,
/// and no tag stands twice.
pub proof fn lemma_read_iff(order: Seq<ComponentId>, entries: Seq<(Seq<char>, Json)>)
    ensures
        components_of(order, entries) is Ok <==> record_ok(order, entries),
{
    lemma_accept_iff(order, ComponentSetView::empty(), entries);
}

} // verus!
