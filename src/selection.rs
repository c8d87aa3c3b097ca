//! Signed selection sets: a set of identifiers held either as the members
//! themselves or as the members left out of the whole identifier space.
use crate::bitmap::{
    bitmap_clone, bitmap_contains, bitmap_difference, bitmap_ids, bitmap_intersection, bitmap_new,
    bitmap_union,
};
use roaring::RoaringBitmap;
use vstd::prelude::*;

verus! {

/// The mathematical value of a signed selection set.
pub ghost enum SelectionModel {
    Include(Set<u32>),
    Exclude(Set<u32>),
}

/// Whether the selection holds identifier `x`.
pub open spec fn selects(m: SelectionModel, x: u32) -> bool {
    match m {
        SelectionModel::Include(s) => s.contains(x),
        SelectionModel::Exclude(s) => !s.contains(x),
    }
}

pub open spec fn full_model() -> SelectionModel {
    SelectionModel::Exclude(Set::empty())
}

pub open spec fn empty_model() -> SelectionModel {
    SelectionModel::Include(Set::empty())
}

/// Intersection, computed on the two representations.
pub open spec fn and_model(a: SelectionModel, b: SelectionModel) -> SelectionModel {
    match (a, b) {
        (SelectionModel::Include(x), SelectionModel::Include(y)) => SelectionModel::Include(
            x.intersect(y),
        ),
        (SelectionModel::Include(x), SelectionModel::Exclude(y)) => SelectionModel::Include(
            x.difference(y),
        ),
        (SelectionModel::Exclude(x), SelectionModel::Include(y)) => SelectionModel::Include(
            y.difference(x),
        ),
        (SelectionModel::Exclude(x), SelectionModel::Exclude(y)) => SelectionModel::Exclude(
            x.union(y),
        ),
    }
}

/// Union, computed on the two representations.
pub open spec fn or_model(a: SelectionModel, b: SelectionModel) -> SelectionModel {
    match (a, b) {
        (SelectionModel::Include(x), SelectionModel::Include(y)) => SelectionModel::Include(
            x.union(y),
        ),
        (SelectionModel::Include(x), SelectionModel::Exclude(y)) => SelectionModel::Exclude(
            y.difference(x),
        ),
        (SelectionModel::Exclude(x), SelectionModel::Include(y)) => SelectionModel::Exclude(
            x.difference(y),
        ),
        (SelectionModel::Exclude(x), SelectionModel::Exclude(y)) => SelectionModel::Exclude(
            x.intersect(y),
        ),
    }
}

/// A selected subset of identifiers, kept compact whether it is small or
/// nearly everything.
#[derive(Debug)]
pub enum SignedRoaringBitmap {
    Include(RoaringBitmap),
    Exclude(RoaringBitmap),
}

impl View for SignedRoaringBitmap {
    type V = SelectionModel;

    open spec fn view(&self) -> SelectionModel {
        match self {
            SignedRoaringBitmap::Include(b) => SelectionModel::Include(bitmap_ids(*b)),
            SignedRoaringBitmap::Exclude(b) => SelectionModel::Exclude(bitmap_ids(*b)),
        }
    }
}

impl SignedRoaringBitmap {
    /// Every identifier.
    pub fn full() -> (r: SignedRoaringBitmap)
        ensures
            r@ == full_model(),
    {
        SignedRoaringBitmap::Exclude(bitmap_new())
    }

    /// No identifier.
    pub fn empty() -> (r: SignedRoaringBitmap)
        ensures
            r@ == empty_model(),
    {
        SignedRoaringBitmap::Include(bitmap_new())
    }

    /// Whether `x` is selected.
    pub fn contains(&self, x: u32) -> (r: bool)
        ensures
            r == selects(self@, x),
    {
        match self {
            SignedRoaringBitmap::Include(b) => bitmap_contains(b, x),
            SignedRoaringBitmap::Exclude(b) => !bitmap_contains(b, x),
        }
    }

    /// The intersection of two selections.
    pub fn and(&self, other: &SignedRoaringBitmap) -> (r: SignedRoaringBitmap)
        ensures
            r@ == and_model(self@, other@),
    {
        match (self, other) {
            (SignedRoaringBitmap::Include(x), SignedRoaringBitmap::Include(y)) => {
                SignedRoaringBitmap::Include(bitmap_intersection(x, y))
            },
            (SignedRoaringBitmap::Include(x), SignedRoaringBitmap::Exclude(y)) => {
                SignedRoaringBitmap::Include(bitmap_difference(x, y))
            },
            (SignedRoaringBitmap::Exclude(x), SignedRoaringBitmap::Include(y)) => {
                SignedRoaringBitmap::Include(bitmap_difference(y, x))
            },
            (SignedRoaringBitmap::Exclude(x), SignedRoaringBitmap::Exclude(y)) => {
                SignedRoaringBitmap::Exclude(bitmap_union(x, y))
            },
        }
    }

    /// The union of two selections.
    pub fn or(&self, other: &SignedRoaringBitmap) -> (r: SignedRoaringBitmap)
        ensures
            r@ == or_model(self@, other@),
    {
        match (self, other) {
            (SignedRoaringBitmap::Include(x), SignedRoaringBitmap::Include(y)) => {
                SignedRoaringBitmap::Include(bitmap_union(x, y))
            },
            (SignedRoaringBitmap::Include(x), SignedRoaringBitmap::Exclude(y)) => {
                SignedRoaringBitmap::Exclude(bitmap_difference(y, x))
            },
            (SignedRoaringBitmap::Exclude(x), SignedRoaringBitmap::Include(y)) => {
                SignedRoaringBitmap::Exclude(bitmap_difference(x, y))
            },
            (SignedRoaringBitmap::Exclude(x), SignedRoaringBitmap::Exclude(y)) => {
                SignedRoaringBitmap::Exclude(bitmap_intersection(x, y))
            },
        }
    }

    /// A copy of this selection.
    pub fn duplicate(&self) -> (r: SignedRoaringBitmap)
        ensures
            r@ == self@,
    {
        match self {
            SignedRoaringBitmap::Include(b) => SignedRoaringBitmap::Include(bitmap_clone(b)),
            SignedRoaringBitmap::Exclude(b) => SignedRoaringBitmap::Exclude(bitmap_clone(b)),
        }
    }
}

/// The intersection selects exactly what both operands select.
pub proof fn lemma_and_selects(a: SelectionModel, b: SelectionModel, x: u32)
    ensures
        selects(and_model(a, b), x) == (selects(a, x) && selects(b, x)),
{
}

/// The union selects exactly what either operand selects.
pub proof fn lemma_or_selects(a: SelectionModel, b: SelectionModel, x: u32)
    ensures
        selects(or_model(a, b), x) == (selects(a, x) || selects(b, x)),
{
}

/// `Include(A) ∧ Exclude(B)` keeps only members of `A`, none of `B`, and
/// equals `Include(A) ∧ Exclude(B ∩ A)`.
pub proof fn lemma_include_and_exclude(a: Set<u32>, b: Set<u32>)
    ensures
        and_model(SelectionModel::Include(a), SelectionModel::Exclude(b)) == and_model(
            SelectionModel::Include(a),
            SelectionModel::Exclude(b.intersect(a)),
        ),
        and_model(SelectionModel::Include(a), SelectionModel::Exclude(b)) matches SelectionModel::Include(r)
            && r.subset_of(a) && r.disjoint(b),
{
    assert(a.difference(b) =~= a.difference(b.intersect(a)));
}

/// `full` is the identity of intersection.
pub proof fn lemma_full_and(x: SelectionModel)
    ensures
        and_model(full_model(), x) == x,
{
    match x {
        SelectionModel::Include(s) => assert(s.difference(Set::empty()) =~= s),
        SelectionModel::Exclude(s) => assert(Set::<u32>::empty().union(s) =~= s),
    }
}

/// `empty` is the identity of union.
pub proof fn lemma_empty_or(x: SelectionModel)
    ensures
        or_model(empty_model(), x) == x,
{
    match x {
        SelectionModel::Include(s) => assert(Set::<u32>::empty().union(s) =~= s),
        SelectionModel::Exclude(s) => assert(s.difference(Set::empty()) =~= s),
    }
}

/// Intersection and union do not depend on the order of their operands.
pub proof fn lemma_commutative(a: SelectionModel, b: SelectionModel)
    ensures
        and_model(a, b) == and_model(b, a),
        or_model(a, b) == or_model(b, a),
{
    match (a, b) {
        (SelectionModel::Include(x), SelectionModel::Include(y)) => {
            assert(x.intersect(y) =~= y.intersect(x));
            assert(x.union(y) =~= y.union(x));
        },
        (SelectionModel::Exclude(x), SelectionModel::Exclude(y)) => {
            assert(x.intersect(y) =~= y.intersect(x));
            assert(x.union(y) =~= y.union(x));
        },
        _ => {},
    }
}

/// Intersection and union do not depend on how three operands are grouped.
pub proof fn lemma_associative(a: SelectionModel, b: SelectionModel, c: SelectionModel)
    ensures
        and_model(and_model(a, b), c) == and_model(a, and_model(b, c)),
        or_model(or_model(a, b), c) == or_model(a, or_model(b, c)),
{
    let l = and_model(and_model(a, b), c);
    let r = and_model(a, and_model(b, c));
    match (l, r) {
        (SelectionModel::Include(p), SelectionModel::Include(q)) => {
            assert forall|x: u32| p.contains(x) == q.contains(x) by {
                lemma_and_selects(a, b, x);
                lemma_and_selects(and_model(a, b), c, x);
                lemma_and_selects(b, c, x);
                lemma_and_selects(a, and_model(b, c), x);
            }
            assert(p =~= q);
        },
        (SelectionModel::Exclude(p), SelectionModel::Exclude(q)) => {
            assert forall|x: u32| p.contains(x) == q.contains(x) by {
                lemma_and_selects(a, b, x);
                lemma_and_selects(and_model(a, b), c, x);
                lemma_and_selects(b, c, x);
                lemma_and_selects(a, and_model(b, c), x);
            }
            assert(p =~= q);
        },
        _ => {},
    }
    let l = or_model(or_model(a, b), c);
    let r = or_model(a, or_model(b, c));
    match (l, r) {
        (SelectionModel::Include(p), SelectionModel::Include(q)) => {
            assert forall|x: u32| p.contains(x) == q.contains(x) by {
                lemma_or_selects(a, b, x);
                lemma_or_selects(or_model(a, b), c, x);
                lemma_or_selects(b, c, x);
                lemma_or_selects(a, or_model(b, c), x);
            }
            assert(p =~= q);
        },
        (SelectionModel::Exclude(p), SelectionModel::Exclude(q)) => {
            assert forall|x: u32| p.contains(x) == q.contains(x) by {
                lemma_or_selects(a, b, x);
                lemma_or_selects(or_model(a, b), c, x);
                lemma_or_selects(b, c, x);
                lemma_or_selects(a, or_model(b, c), x);
            }
            assert(p =~= q);
        },
        _ => {},
    }
}

} // verus!
