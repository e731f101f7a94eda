//! Scalars, vertices and spatial transforms.
//!
//! The codec moves these values between a world and a document without ever
//! computing with them, so a scalar is held as the decimal text of a JSON
//! number. Code that needs binary floating point parses that text.

use crate::number::{check_number, digits_end, is_number};
use vstd::prelude::*;

verus! {

/// One real number, held as the text of a JSON number in plain form. Two
/// scalars are equal when their texts are: `1.0` and `1` are not.
#[derive(Debug, PartialEq, Eq)]
pub struct Scalar {
    text: String,
}

impl Clone for Scalar {
    fn clone(&self) -> (r: Scalar)
        ensures
            r@ == self@,
    {
        proof {
            use_type_invariant(self);
        }
        Scalar { text: self.text.clone() }
    }
}

impl View for Scalar {
    type V = Seq<char>;

    closed spec fn view(&self) -> Seq<char> {
        self.text@
    }
}

impl Scalar {
    #[verifier::type_invariant]
    spec fn well_formed(self) -> bool {
        is_number(self.text@)
    }

    /// The scalar written as `text`, if `text` is a number in plain form.
    pub fn new(text: &str) -> (r: Option<Scalar>)
        ensures
            match r {
                Some(s) => s@ == text@ && is_number(text@),
                None => !is_number(text@),
            },
    {
        if check_number(text) {
            Some(Scalar { text: text.to_owned() })
        } else {
            None
        }
    }

    /// The text of the scalar.
    pub fn as_str(&self) -> (r: &str)
        ensures
            r@ == self@,
            is_number(self@),
    {
        proof {
            use_type_invariant(self);
        }
        self.text.as_str()
    }

    /// `0.0`
    pub fn zero() -> (r: Scalar)
        ensures
            r@ == "0.0"@,
    {
        proof {
            lemma_constants();
        }
        Scalar { text: "0.0".to_owned() }
    }

    /// `1.0`
    pub fn one() -> (r: Scalar)
        ensures
            r@ == "1.0"@,
    {
        proof {
            lemma_constants();
        }
        Scalar { text: "1.0".to_owned() }
    }

    /// `0.5`
    pub fn half() -> (r: Scalar)
        ensures
            r@ == "0.5"@,
    {
        proof {
            lemma_constants();
        }
        Scalar { text: "0.5".to_owned() }
    }

    /// `-0.5`
    pub fn minus_half() -> (r: Scalar)
        ensures
            r@ == "-0.5"@,
    {
        proof {
            lemma_constants();
        }
        Scalar { text: "-0.5".to_owned() }
    }
}

/// The four constants that the library writes itself are numbers.
pub proof fn lemma_constants()
    ensures
        is_number("0.0"@),
        is_number("1.0"@),
        is_number("0.5"@),
        is_number("-0.5"@),
{
    reveal_strlit("0.0");
    reveal_strlit("1.0");
    reveal_strlit("0.5");
    reveal_strlit("-0.5");
    reveal_with_fuel(digits_end, 4);
}

/// The texts of a sequence of scalars.
pub open spec fn scalar_views(s: Seq<Scalar>) -> Seq<Seq<char>> {
    s.map_values(|x: Scalar| x@)
}

/// Whether `s` holds exactly `n` numbers.
pub open spec fn are_numbers(s: Seq<Seq<char>>, n: nat) -> bool {
    s.len() == n && forall|i: int| 0 <= i < s.len() ==> is_number(#[trigger] s[i])
}

/// A corner of a mesh: a position in space and a texture coordinate.
#[derive(Clone, Debug, PartialEq, Eq)]
pub struct Vertex {
    pub pos: [Scalar; 3],
    pub uv: [Scalar; 2],
}

/// What a [`Vertex`] holds.
pub struct VertexView {
    pub pos: Seq<Seq<char>>,
    pub uv: Seq<Seq<char>>,
}

impl VertexView {
    /// Three numbers for the position, two for the texture coordinate.
    pub open spec fn wf(self) -> bool {
        are_numbers(self.pos, 3) && are_numbers(self.uv, 2)
    }
}

impl View for Vertex {
    type V = VertexView;

    open spec fn view(&self) -> VertexView {
        VertexView { pos: scalar_views(self.pos@), uv: scalar_views(self.uv@) }
    }
}

/// Where an entity stands: its position, its rotation as a unit quaternion
/// `[x, y, z, w]`, and its scale along each axis.
#[derive(Clone, Debug, PartialEq, Eq)]
pub struct Transform {
    pub position: [Scalar; 3],
    pub rotation: [Scalar; 4],
    pub scale: [Scalar; 3],
}

/// What a [`Transform`] holds.
pub struct TransformView {
    pub position: Seq<Seq<char>>,
    pub rotation: Seq<Seq<char>>,
    pub scale: Seq<Seq<char>>,
}

impl TransformView {
    /// Three numbers, four numbers, three numbers.
    pub open spec fn wf(self) -> bool {
        are_numbers(self.position, 3) && are_numbers(self.rotation, 4) && are_numbers(
            self.scale,
            3,
        )
    }

    /// At the origin, not rotated, of unit scale.
    pub open spec fn identity() -> TransformView {
        TransformView {
            position: seq!["0.0"@, "0.0"@, "0.0"@],
            rotation: seq!["0.0"@, "0.0"@, "0.0"@, "1.0"@],
            scale: seq!["1.0"@, "1.0"@, "1.0"@],
        }
    }
}

impl View for Transform {
    type V = TransformView;

    open spec fn view(&self) -> TransformView {
        TransformView {
            position: scalar_views(self.position@),
            rotation: scalar_views(self.rotation@),
            scale: scalar_views(self.scale@),
        }
    }
}

impl Default for Transform {
    fn default() -> (r: Transform)
        ensures
            r@ == TransformView::identity(),
    {
        let r = Transform {
            position: [Scalar::zero(), Scalar::zero(), Scalar::zero()],
            rotation: [Scalar::zero(), Scalar::zero(), Scalar::zero(), Scalar::one()],
            scale: [Scalar::one(), Scalar::one(), Scalar::one()],
        };
        assert(r@.position =~= TransformView::identity().position);
        assert(r@.rotation =~= TransformView::identity().rotation);
        assert(r@.scale =~= TransformView::identity().scale);
        r
    }
}

} // verus!
