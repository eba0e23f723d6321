//! Laws of tree equality: the bag equality used by maps and sets is the
//! existence of a one-to-one matching between their elements; [`edn_eq`] is
//! reflexive, symmetric and transitive; unordered containers compare
//! independently of element order; and equal unordered containers always
//! hold the same number of elements.

use vstd::prelude::*;
use vstd::relations::injective_on;
use vstd::set_lib::lemma_int_range;
use vstd::set_lib::lemma_map_size;
use vstd::set_lib::lemma_subset_equality;
use vstd::set_lib::set_int_range;

use crate::value::BasicSet;
use crate::value::Edn;
use crate::value::bag_eq;
use crate::value::bag_eq_pairs;
use crate::value::edn_eq;
use crate::value::elems_match;
use crate::value::pair_eq;
use crate::value::pairs_match;

verus! {

/// The consume-one-by-one bag equality of [`bag_eq`] holds exactly when some
/// one-to-one matching sends each element of `x` to an equal element of `y`.
pub proof fn lemma_bag_eq_matching(x: Seq<Edn>, y: Seq<Edn>)
    ensures
        bag_eq(x, y) == (x.len() == y.len() && exists|m: Seq<int>| elems_match(x, y, m)),
    decreases x.len(),
{
    if bag_eq(x, y) {
        if x.len() == 0 {
            assert(elems_match(x, y, Seq::<int>::empty()));
        } else {
            let j = choose|j: int|
                0 <= j < y.len() && edn_eq(x[0], y[j]) && bag_eq(x.drop_first(), y.remove(j));
            lemma_bag_eq_matching(x.drop_first(), y.remove(j));
            let m1 = choose|m: Seq<int>| elems_match(x.drop_first(), y.remove(j), m);
            let m = seq![j] + m1.map_values(|v: int| if v < j { v } else { v + 1 });
            assert forall|k: int| 0 <= k < m.len() implies 0 <= #[trigger] m[k] < y.len() && (k > 0
                ==> m[k] != j) by {
                if k > 0 {
                    assert(0 <= m1[k - 1] < y.remove(j).len());
                }
            }
            assert forall|k: int| 0 <= k < x.len() implies edn_eq(x[k], y[#[trigger] m[k]]) by {
                if k > 0 {
                    let v = m1[k - 1];
                    assert(edn_eq(x.drop_first()[k - 1], y.remove(j)[v]));
                    assert(x.drop_first()[k - 1] == x[k]);
                    if v < j {
                        assert(y.remove(j)[v] == y[v]);
                    } else {
                        assert(y.remove(j)[v] == y[v + 1]);
                    }
                }
            }
            assert forall|k1: int, k2: int|
                0 <= k1 < m.len() && 0 <= k2 < m.len() && m[k1] == m[k2] implies k1 == k2 by {
                if k1 > 0 && k2 > 0 && m[k1] == m[k2] {
                    assert(m1[k1 - 1] == m1[k2 - 1]);
                }
            }
            assert(elems_match(x, y, m));
        }
    }
    if x.len() == y.len() && exists|m: Seq<int>| elems_match(x, y, m) {
        if x.len() > 0 {
            let m = choose|m: Seq<int>| elems_match(x, y, m);
            let j = m[0];
            let m1 = m.drop_first().map_values(|v: int| if v < j { v } else { v - 1 });
            assert forall|k: int| 0 <= k < m1.len() implies 0 <= #[trigger] m1[k] < y.remove(
                j,
            ).len() by {
                assert(m.drop_first()[k] == m[k + 1]);
                assert(m[k + 1] != j);
            }
            assert forall|k: int| 0 <= k < x.drop_first().len() implies edn_eq(
                x.drop_first()[k],
                y.remove(j)[#[trigger] m1[k]],
            ) by {
                let v = m[k + 1];
                assert(edn_eq(x[k + 1], y[v]));
                assert(v != j);
                if v < j {
                    assert(y.remove(j)[v] == y[v]);
                } else {
                    assert(y.remove(j)[v - 1] == y[v]);
                }
            }
            assert forall|k1: int, k2: int|
                0 <= k1 < m1.len() && 0 <= k2 < m1.len() && m1[k1] == m1[k2] implies k1 == k2 by {
                let v1 = m[k1 + 1];
                let v2 = m[k2 + 1];
                assert(v1 != j && v2 != j);
                assert(v1 == v2);
            }
            assert(elems_match(x.drop_first(), y.remove(j), m1));
            lemma_bag_eq_matching(x.drop_first(), y.remove(j));
            assert(0 <= j < y.len() && edn_eq(x[0], y[j]) && bag_eq(x.drop_first(), y.remove(j)));
        }
    }
}

/// As [`lemma_bag_eq_matching`], for sequences of map entries.
pub proof fn lemma_bag_eq_pairs_matching(x: Seq<(Edn, Edn)>, y: Seq<(Edn, Edn)>)
    ensures
        bag_eq_pairs(x, y) == (x.len() == y.len() && exists|m: Seq<int>| pairs_match(x, y, m)),
    decreases x.len(),
{
    if bag_eq_pairs(x, y) {
        if x.len() == 0 {
            assert(pairs_match(x, y, Seq::<int>::empty()));
        } else {
            let j = choose|j: int|
                0 <= j < y.len() && pair_eq(x[0], y[j]) && bag_eq_pairs(
                    x.drop_first(),
                    y.remove(j),
                );
            lemma_bag_eq_pairs_matching(x.drop_first(), y.remove(j));
            let m1 = choose|m: Seq<int>| pairs_match(x.drop_first(), y.remove(j), m);
            let m = seq![j] + m1.map_values(|v: int| if v < j { v } else { v + 1 });
            assert forall|k: int| 0 <= k < m.len() implies 0 <= #[trigger] m[k] < y.len() && (k > 0
                ==> m[k] != j) by {
                if k > 0 {
                    assert(0 <= m1[k - 1] < y.remove(j).len());
                }
            }
            assert forall|k: int| 0 <= k < x.len() implies pair_eq(x[k], y[#[trigger] m[k]]) by {
                if k > 0 {
                    let v = m1[k - 1];
                    assert(pair_eq(x.drop_first()[k - 1], y.remove(j)[v]));
                    assert(x.drop_first()[k - 1] == x[k]);
                    if v < j {
                        assert(y.remove(j)[v] == y[v]);
                    } else {
                        assert(y.remove(j)[v] == y[v + 1]);
                    }
                }
            }
            assert forall|k1: int, k2: int|
                0 <= k1 < m.len() && 0 <= k2 < m.len() && m[k1] == m[k2] implies k1 == k2 by {
                if k1 > 0 && k2 > 0 && m[k1] == m[k2] {
                    assert(m1[k1 - 1] == m1[k2 - 1]);
                }
            }
            assert(pairs_match(x, y, m));
        }
    }
    if x.len() == y.len() && exists|m: Seq<int>| pairs_match(x, y, m) {
        if x.len() > 0 {
            let m = choose|m: Seq<int>| pairs_match(x, y, m);
            let j = m[0];
            let m1 = m.drop_first().map_values(|v: int| if v < j { v } else { v - 1 });
            assert forall|k: int| 0 <= k < m1.len() implies 0 <= #[trigger] m1[k] < y.remove(
                j,
            ).len() by {
                assert(m.drop_first()[k] == m[k + 1]);
                assert(m[k + 1] != j);
            }
            assert forall|k: int| 0 <= k < x.drop_first().len() implies pair_eq(
                x.drop_first()[k],
                y.remove(j)[#[trigger] m1[k]],
            ) by {
                let v = m[k + 1];
                assert(pair_eq(x[k + 1], y[v]));
                assert(v != j);
                if v < j {
                    assert(y.remove(j)[v] == y[v]);
                } else {
                    assert(y.remove(j)[v - 1] == y[v]);
                }
            }
            assert forall|k1: int, k2: int|
                0 <= k1 < m1.len() && 0 <= k2 < m1.len() && m1[k1] == m1[k2] implies k1 == k2 by {
                let v1 = m[k1 + 1];
                let v2 = m[k2 + 1];
                assert(v1 != j && v2 != j);
                assert(v1 == v2);
            }
            assert(pairs_match(x.drop_first(), y.remove(j), m1));
            lemma_bag_eq_pairs_matching(x.drop_first(), y.remove(j));
            assert(0 <= j < y.len() && pair_eq(x[0], y[j]) && bag_eq_pairs(
                x.drop_first(),
                y.remove(j),
            ));
        }
    }
}

/// An injective map from `[0, n)` into `[0, n)` is onto `[0, n)`.
proof fn lemma_injective_range_surjective(m: Seq<int>, n: int)
    requires
        n >= 0,
        m.len() == n,
        forall|k: int| 0 <= k < n ==> 0 <= #[trigger] m[k] < n,
        forall|k1: int, k2: int|
            0 <= k1 < n && 0 <= k2 < n && m[k1] == m[k2] ==> k1 == k2,
    ensures
        forall|j: int| 0 <= j < n ==> #[trigger] m.contains(j),
{
    let dom = set_int_range(0, n);
    lemma_int_range(0, n);
    let f = |k: int| m[k];
    let img = dom.map(f);
    assert(injective_on(f, dom));
    lemma_map_size(dom, img, f);
    assert(img.subset_of(dom)) by {
        assert forall|j: int| #[trigger] img.contains(j) implies dom.contains(j) by {
            let k = choose|k: int| dom.contains(k) && j == f(k);
            assert(0 <= m[k] < n);
        }
    }
    lemma_subset_equality(img, dom);
    assert forall|j: int| 0 <= j < n implies #[trigger] m.contains(j) by {
        assert(dom.contains(j));
        assert(img.contains(j));
        let k = choose|k: int| dom.contains(k) && j == f(k);
        assert(0 <= k < m.len() && m[k] == j);
    }
}

/// Leaves are equal exactly when their variant and content are equal:
/// strings, characters, symbols, keywords and integers of equal content are
/// equal, and of differing content unequal.
pub proof fn lemma_leaf_eq_is_content_eq(a: crate::value::BasicElement, b: crate::value::BasicElement)
    ensures
        edn_eq(Edn::Basic(a), Edn::Basic(b)) == crate::value::basic_eq(a, b),
{
}

/// Every value tree equals itself.
pub proof fn lemma_edn_eq_refl(a: Edn)
    ensures
        edn_eq(a, a),
    decreases a,
{
    match a {
        Edn::List(x) => {
            assert forall|i: int| 0 <= i < x@.len() implies edn_eq(x@[i], x@[i]) by {
                lemma_edn_eq_refl(x@[i]);
            }
        },
        Edn::Vector(x) => {
            assert forall|i: int| 0 <= i < x@.len() implies edn_eq(x@[i], x@[i]) by {
                lemma_edn_eq_refl(x@[i]);
            }
        },
        Edn::EMap(x) => {
            let es = x.elems();
            let idm = Seq::new(es.len(), |k: int| k);
            assert forall|k: int| 0 <= k < es.len() implies pair_eq(es[k], es[#[trigger] idm[k]]) by {
                lemma_edn_eq_refl(es[k].0);
                lemma_edn_eq_refl(es[k].1);
            }
            assert(pairs_match(es, es, idm));
            lemma_bag_eq_pairs_matching(es, es);
        },
        Edn::ESet(x) => {
            let es = x.elems();
            let idm = Seq::new(es.len(), |k: int| k);
            assert forall|k: int| 0 <= k < es.len() implies edn_eq(es[k], es[#[trigger] idm[k]]) by {
                lemma_edn_eq_refl(es[k]);
            }
            assert(elems_match(es, es, idm));
            lemma_bag_eq_matching(es, es);
        },
        _ => {},
    }
}

proof fn lemma_sym_impl(a: Edn, b: Edn)
    requires
        edn_eq(a, b),
    ensures
        edn_eq(b, a),
    decreases a,
{
    match (a, b) {
        (Edn::List(x), Edn::List(y)) => {
            assert forall|i: int| 0 <= i < y@.len() implies edn_eq(y@[i], x@[i]) by {
                lemma_sym_impl(x@[i], y@[i]);
            }
        },
        (Edn::Vector(x), Edn::Vector(y)) => {
            assert forall|i: int| 0 <= i < y@.len() implies edn_eq(y@[i], x@[i]) by {
                lemma_sym_impl(x@[i], y@[i]);
            }
        },
        (Edn::EMap(x), Edn::EMap(y)) => {
            let xs = x.elems();
            let ys = y.elems();
            lemma_bag_eq_pairs_matching(xs, ys);
            let m = choose|m: Seq<int>| pairs_match(xs, ys, m);
            let n = xs.len() as int;
            lemma_injective_range_surjective(m, n);
            let w = Seq::new(ys.len(), |j: int| choose|k: int| 0 <= k < m.len() && m[k] == j);
            assert forall|j: int| 0 <= j < ys.len() implies {
                &&& 0 <= #[trigger] w[j] < xs.len()
                &&& m[w[j]] == j
            } by {
                assert(m.contains(j));
                let k = choose|k: int| 0 <= k < m.len() && m[k] == j;
                assert(m[k] == j);
            }
            assert forall|j: int| 0 <= j < ys.len() implies pair_eq(ys[j], xs[#[trigger] w[j]]) by {
                assert(pair_eq(xs[w[j]], ys[j]));
                lemma_sym_impl(xs[w[j]].0, ys[j].0);
                lemma_sym_impl(xs[w[j]].1, ys[j].1);
            }
            assert(pairs_match(ys, xs, w));
            lemma_bag_eq_pairs_matching(ys, xs);
        },
        (Edn::ESet(x), Edn::ESet(y)) => {
            let xs = x.elems();
            let ys = y.elems();
            lemma_bag_eq_matching(xs, ys);
            let m = choose|m: Seq<int>| elems_match(xs, ys, m);
            let n = xs.len() as int;
            lemma_injective_range_surjective(m, n);
            let w = Seq::new(ys.len(), |j: int| choose|k: int| 0 <= k < m.len() && m[k] == j);
            assert forall|j: int| 0 <= j < ys.len() implies {
                &&& 0 <= #[trigger] w[j] < xs.len()
                &&& m[w[j]] == j
            } by {
                assert(m.contains(j));
                let k = choose|k: int| 0 <= k < m.len() && m[k] == j;
                assert(m[k] == j);
            }
            assert forall|j: int| 0 <= j < ys.len() implies edn_eq(ys[j], xs[#[trigger] w[j]]) by {
                assert(edn_eq(xs[w[j]], ys[j]));
                lemma_sym_impl(xs[w[j]], ys[j]);
            }
            assert(elems_match(ys, xs, w));
            lemma_bag_eq_matching(ys, xs);
        },
        _ => {},
    }
}

/// Tree equality is symmetric.
pub proof fn lemma_edn_eq_sym(a: Edn, b: Edn)
    ensures
        edn_eq(a, b) == edn_eq(b, a),
{
    if edn_eq(a, b) {
        lemma_sym_impl(a, b);
    }
    if edn_eq(b, a) {
        lemma_sym_impl(b, a);
    }
}

/// Tree equality is transitive.
pub proof fn lemma_edn_eq_trans(a: Edn, b: Edn, c: Edn)
    requires
        edn_eq(a, b),
        edn_eq(b, c),
    ensures
        edn_eq(a, c),
    decreases a,
{
    match (a, b, c) {
        (Edn::List(x), Edn::List(y), Edn::List(z)) => {
            assert forall|i: int| 0 <= i < x@.len() implies edn_eq(x@[i], z@[i]) by {
                lemma_edn_eq_trans(x@[i], y@[i], z@[i]);
            }
        },
        (Edn::Vector(x), Edn::Vector(y), Edn::Vector(z)) => {
            assert forall|i: int| 0 <= i < x@.len() implies edn_eq(x@[i], z@[i]) by {
                lemma_edn_eq_trans(x@[i], y@[i], z@[i]);
            }
        },
        (Edn::EMap(x), Edn::EMap(y), Edn::EMap(z)) => {
            let xs = x.elems();
            let ys = y.elems();
            let zs = z.elems();
            lemma_bag_eq_pairs_matching(xs, ys);
            lemma_bag_eq_pairs_matching(ys, zs);
            let m1 = choose|m: Seq<int>| pairs_match(xs, ys, m);
            let m2 = choose|m: Seq<int>| pairs_match(ys, zs, m);
            let m = Seq::new(xs.len(), |k: int| m2[m1[k]]);
            assert forall|k: int| 0 <= k < xs.len() implies pair_eq(xs[k], zs[#[trigger] m[k]]) by {
                assert(pair_eq(xs[k], ys[m1[k]]));
                assert(pair_eq(ys[m1[k]], zs[m2[m1[k]]]));
                lemma_edn_eq_trans(xs[k].0, ys[m1[k]].0, zs[m2[m1[k]]].0);
                lemma_edn_eq_trans(xs[k].1, ys[m1[k]].1, zs[m2[m1[k]]].1);
            }
            assert(pairs_match(xs, zs, m));
            lemma_bag_eq_pairs_matching(xs, zs);
        },
        (Edn::ESet(x), Edn::ESet(y), Edn::ESet(z)) => {
            let xs = x.elems();
            let ys = y.elems();
            let zs = z.elems();
            lemma_bag_eq_matching(xs, ys);
            lemma_bag_eq_matching(ys, zs);
            let m1 = choose|m: Seq<int>| elems_match(xs, ys, m);
            let m2 = choose|m: Seq<int>| elems_match(ys, zs, m);
            let m = Seq::new(xs.len(), |k: int| m2[m1[k]]);
            assert forall|k: int| 0 <= k < xs.len() implies edn_eq(xs[k], zs[#[trigger] m[k]]) by {
                assert(edn_eq(xs[k], ys[m1[k]]));
                assert(edn_eq(ys[m1[k]], zs[m2[m1[k]]]));
                lemma_edn_eq_trans(xs[k], ys[m1[k]], zs[m2[m1[k]]]);
            }
            assert(elems_match(xs, zs, m));
            lemma_bag_eq_matching(xs, zs);
        },
        _ => {},
    }
}

/// Reordering the elements of a set leaves it equal: if `p` sends each
/// element of `x` to its place in `y`, the two sets are equal.
pub proof fn lemma_set_order_independent(x: BasicSet<Edn>, y: BasicSet<Edn>, p: Seq<int>)
    requires
        p.len() == x.elems().len(),
        y.elems().len() == x.elems().len(),
        forall|k: int| 0 <= k < p.len() ==> 0 <= #[trigger] p[k] < y.elems().len(),
        forall|k1: int, k2: int|
            0 <= k1 < p.len() && 0 <= k2 < p.len() && p[k1] == p[k2] ==> k1 == k2,
        forall|k: int| 0 <= k < p.len() ==> y.elems()[#[trigger] p[k]] == x.elems()[k],
    ensures
        edn_eq(Edn::ESet(x), Edn::ESet(y)),
{
    let xs = x.elems();
    let ys = y.elems();
    assert forall|k: int| 0 <= k < xs.len() implies edn_eq(xs[k], ys[#[trigger] p[k]]) by {
        lemma_edn_eq_refl(xs[k]);
    }
    assert(elems_match(xs, ys, p));
    lemma_bag_eq_matching(xs, ys);
}

/// Reordering the entries of a map leaves it equal: if `p` sends each entry
/// of `x` to its place in `y`, the two maps are equal.
pub proof fn lemma_map_order_independent(
    x: BasicSet<(Edn, Edn)>,
    y: BasicSet<(Edn, Edn)>,
    p: Seq<int>,
)
    requires
        p.len() == x.elems().len(),
        y.elems().len() == x.elems().len(),
        forall|k: int| 0 <= k < p.len() ==> 0 <= #[trigger] p[k] < y.elems().len(),
        forall|k1: int, k2: int|
            0 <= k1 < p.len() && 0 <= k2 < p.len() && p[k1] == p[k2] ==> k1 == k2,
        forall|k: int| 0 <= k < p.len() ==> y.elems()[#[trigger] p[k]] == x.elems()[k],
    ensures
        edn_eq(Edn::EMap(x), Edn::EMap(y)),
{
    let xs = x.elems();
    let ys = y.elems();
    assert forall|k: int| 0 <= k < xs.len() implies pair_eq(xs[k], ys[#[trigger] p[k]]) by {
        lemma_edn_eq_refl(xs[k].0);
        lemma_edn_eq_refl(xs[k].1);
    }
    assert(pairs_match(xs, ys, p));
    lemma_bag_eq_pairs_matching(xs, ys);
}

/// Equal sets hold the same number of elements: equality never collapses
/// duplicates.
pub proof fn lemma_eq_preserves_multiplicity(x: BasicSet<Edn>, y: BasicSet<Edn>)
    requires
        edn_eq(Edn::ESet(x), Edn::ESet(y)),
    ensures
        x.elems().len() == y.elems().len(),
{
    lemma_bag_eq_matching(x.elems(), y.elems());
}

/// Equal maps hold the same number of entries: supplying an entry twice
/// does not collapse it to one.
pub proof fn lemma_map_eq_preserves_multiplicity(x: BasicSet<(Edn, Edn)>, y: BasicSet<(Edn, Edn)>)
    requires
        edn_eq(Edn::EMap(x), Edn::EMap(y)),
    ensures
        x.elems().len() == y.elems().len(),
{
    lemma_bag_eq_pairs_matching(x.elems(), y.elems());
}

} // verus!
