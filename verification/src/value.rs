//! The value model: the recursive tree type [`Edn`], its leaf and extension
//! variants, and the unordered duplicate-preserving collection [`BasicSet`]
//! with its order-independent equality.

use vstd::prelude::*;

verus! {

/// An indivisible literal value: absence, boolean, text string, single
/// character, symbol, keyword, or 64-bit signed integer.
#[derive(Debug)]
pub enum BasicElement {
    Nil,
    Boolean(bool),
    EString(String),
    Character(char),
    Symbol(String),
    Keyword(String),
    Integer(i64),
}

/// Placeholder payload for the reserved extension kind.  Its field is
/// private and the crate offers no constructor, so no value of this type —
/// and hence no [`TaggedElement`] — can be made yet.
#[derive(Debug, PartialEq)]
pub struct ReservedTag {
    hidden: (),
}

/// Tagged extension values (timestamps, UUIDs, generic tag + payload pairs).
/// No instance is constructible yet, but the tree type keeps a slot for this
/// kind so that adding tagged literals later does not change every consumer.
#[derive(Debug, PartialEq)]
pub enum TaggedElement {
    Reserved(ReservedTag),
}

/// An unordered, duplicate-preserving collection backed by an ordered
/// sequence of elements.  Equality ignores the order of elements but not
/// their number: two collections are equal when their elements can be put in
/// one-to-one correspondence so that corresponding elements are equal.
#[derive(Debug)]
pub struct BasicSet<T> {
    pub elements: Vec<T>,
}

/// The recursive value tree produced by the reader.
#[derive(Debug)]
pub enum Edn {
    Basic(BasicElement),
    Tagged(TaggedElement),
    List(Vec<Edn>),
    Vector(Vec<Edn>),
    EMap(BasicSet<(Edn, Edn)>),
    ESet(BasicSet<Edn>),
}

impl<T> BasicSet<T> {
    /// Builds the collection from the sequence of its elements, kept in the
    /// order given.
    pub fn from_elements(elements: Vec<T>) -> (r: BasicSet<T>)
        ensures
            r.elems() == elements@,
    {
        BasicSet { elements }
    }

    /// The backing sequence of elements.
    pub open spec fn elems(&self) -> Seq<T> {
        self.elements@
    }
}

/// Structural equality of leaf values: same variant, same content.
pub open spec fn basic_eq(a: BasicElement, b: BasicElement) -> bool {
    match (a, b) {
        (BasicElement::Nil, BasicElement::Nil) => true,
        (BasicElement::Boolean(x), BasicElement::Boolean(y)) => x == y,
        (BasicElement::EString(x), BasicElement::EString(y)) => x@ == y@,
        (BasicElement::Character(x), BasicElement::Character(y)) => x == y,
        (BasicElement::Symbol(x), BasicElement::Symbol(y)) => x@ == y@,
        (BasicElement::Keyword(x), BasicElement::Keyword(y)) => x@ == y@,
        (BasicElement::Integer(x), BasicElement::Integer(y)) => x == y,
        _ => false,
    }
}

/// Equality of whole value trees.  Leaves compare by content; lists and
/// vectors compare element by element in order; maps and sets compare as
/// unordered, duplicate-preserving bags ([`bag_eq`] and [`bag_eq_pairs`]).
pub open spec fn edn_eq(a: Edn, b: Edn) -> bool
    decreases a,
{
    match (a, b) {
        (Edn::Basic(x), Edn::Basic(y)) => basic_eq(x, y),
        // No tagged value is constructible yet, so this arm is vacuous.
        (Edn::Tagged(x), Edn::Tagged(y)) => true,
        (Edn::List(x), Edn::List(y)) => {
            &&& x@.len() == y@.len()
            &&& forall|i: int| 0 <= i < x@.len() ==> edn_eq(x@[i], y@[i])
        },
        (Edn::Vector(x), Edn::Vector(y)) => {
            &&& x@.len() == y@.len()
            &&& forall|i: int| 0 <= i < x@.len() ==> edn_eq(x@[i], y@[i])
        },
        (Edn::EMap(x), Edn::EMap(y)) => bag_eq_pairs(x.elems(), y.elems()),
        (Edn::ESet(x), Edn::ESet(y)) => bag_eq(x.elems(), y.elems()),
        _ => false,
    }
}

/// Equality of map entries: keys equal and values equal.
pub open spec fn pair_eq(p: (Edn, Edn), q: (Edn, Edn)) -> bool
    decreases p,
{
    edn_eq(p.0, q.0) && edn_eq(p.1, q.1)
}

/// Order-independent, duplicate-preserving equality of element bags: each
/// element of `x` is paired off against one not-yet-consumed equal element
/// of `y` until both sides are exhausted.  [`lemma_bag_eq_matching`] shows
/// this equivalent to the existence of a one-to-one matching.
pub open spec fn bag_eq(x: Seq<Edn>, y: Seq<Edn>) -> bool
    decreases x,
{
    if x.len() == 0 {
        y.len() == 0
    } else {
        exists|j: int|
            0 <= j < y.len() && edn_eq(x[0], y[j]) && bag_eq(x.drop_first(), y.remove(j))
    }
}

/// As [`bag_eq`], for sequences of map entries.
pub open spec fn bag_eq_pairs(x: Seq<(Edn, Edn)>, y: Seq<(Edn, Edn)>) -> bool
    decreases x,
{
    if x.len() == 0 {
        y.len() == 0
    } else {
        exists|j: int|
            0 <= j < y.len() && pair_eq(x[0], y[j]) && bag_eq_pairs(x.drop_first(), y.remove(j))
    }
}

/// `m` matches every element of `x` to a distinct, equal element of `y`:
/// `m[k]` is the index in `y` that element `k` of `x` corresponds to.
pub open spec fn elems_match(x: Seq<Edn>, y: Seq<Edn>, m: Seq<int>) -> bool {
    &&& m.len() == x.len()
    &&& forall|k: int| 0 <= k < m.len() ==> 0 <= #[trigger] m[k] < y.len()
    &&& forall|k1: int, k2: int|
        0 <= k1 < m.len() && 0 <= k2 < m.len() && m[k1] == m[k2] ==> k1 == k2
    &&& forall|k: int| 0 <= k < x.len() ==> edn_eq(x[k], y[#[trigger] m[k]])
}

/// As [`elems_match`], for sequences of map entries.
pub open spec fn pairs_match(x: Seq<(Edn, Edn)>, y: Seq<(Edn, Edn)>, m: Seq<int>) -> bool {
    &&& m.len() == x.len()
    &&& forall|k: int| 0 <= k < m.len() ==> 0 <= #[trigger] m[k] < y.len()
    &&& forall|k1: int, k2: int|
        0 <= k1 < m.len() && 0 <= k2 < m.len() && m[k1] == m[k2] ==> k1 == k2
    &&& forall|k: int| 0 <= k < x.len() ==> pair_eq(x[k], y[#[trigger] m[k]])
}

} // verus!
