use vstd::prelude::*;
use vstd::set_lib::{lemma_int_range, lemma_len_subset, set_int_range};
use crate::find::{find_layer, lemma_find, lemma_find_same_ids};
use crate::time::sat;
use crate::ids::opt_view;
use crate::layer::Layer;
use crate::tree::{expand, walk};

verus! {

/// The next identifier up the parent chain of `x`: the parent of the first
/// layer identified by `x`.
pub open spec fn parent_step(s: Seq<Layer>, x: Seq<char>) -> Option<Seq<char>> {
    match find_layer(s, x) {
        Some(i) => opt_view(s[i].parent_id),
        None => None,
    }
}

/// The identifier `k` steps up the parent chain of `x`.
pub open spec fn chain(s: Seq<Layer>, x: Seq<char>, k: nat) -> Option<Seq<char>>
    decreases k,
{
    if k == 0 {
        Some(x)
    } else {
        match chain(s, x, (k - 1) as nat) {
            Some(y) => parent_step(s, y),
            None => None,
        }
    }
}

/// No identifier is reached again by going up its own parent chain.
pub open spec fn acyclic(s: Seq<Layer>) -> bool {
    forall|x: Seq<char>, m: nat| m >= 1 ==> #[trigger] chain(s, x, m) != Some(x)
}

pub proof fn lemma_walk_unfold(s: Seq<Layer>, x: Seq<char>, t: Seq<char>, f: nat)
    ensures
        walk(s, x, t, f) == (f > 0 && match parent_step(s, x) {
            Some(y) => y == t || walk(s, y, t, (f - 1) as nat),
            None => false,
        }),
{
    lemma_find(s, x);
}

/// Going up `m + 1` steps is one step and then `m` more.
pub proof fn lemma_chain_shift(s: Seq<Layer>, x: Seq<char>, m: nat)
    ensures
        chain(s, x, m + 1) == match parent_step(s, x) {
            Some(y) => chain(s, y, m),
            None => None,
        },
    decreases m,
{
    assert(chain(s, x, m + 1) == match chain(s, x, m) {
        Some(z) => parent_step(s, z),
        None => None,
    });
    if m > 0 {
        lemma_chain_shift(s, x, (m - 1) as nat);
        if let Some(y) = parent_step(s, x) {
            assert(chain(s, y, m) == match chain(s, y, (m - 1) as nat) {
                Some(z) => parent_step(s, z),
                None => None,
            });
        }
    } else {
        assert(chain(s, x, 0) == Some(x));
    }
}

/// Going up `a + k` steps is going up `a` steps and then `k` more.
pub proof fn lemma_chain_compose(s: Seq<Layer>, x: Seq<char>, a: nat, y: Seq<char>, k: nat)
    requires
        chain(s, x, a) == Some(y),
    ensures
        chain(s, x, a + k) == chain(s, y, k),
    decreases k,
{
    if k > 0 {
        lemma_chain_compose(s, x, a, y, (k - 1) as nat);
        assert(chain(s, x, a + k) == match chain(s, x, (a + k - 1) as nat) {
            Some(z) => parent_step(s, z),
            None => None,
        });
    }
}

/// Once the chain ends it stays ended.
pub proof fn lemma_chain_ends(s: Seq<Layer>, x: Seq<char>, k: nat, j: nat)
    requires
        chain(s, x, j) is Some,
        k <= j,
    ensures
        chain(s, x, k) is Some,
    decreases j - k,
{
    if k < j {
        lemma_chain_ends(s, x, k, (j - 1) as nat);
    }
}

/// A walk of at most `f` steps reaches `t` exactly when one of the first
/// `f` steps of the chain does.
pub proof fn lemma_walk_chain(s: Seq<Layer>, x: Seq<char>, t: Seq<char>, f: nat)
    ensures
        walk(s, x, t, f) == exists|m: nat| 1 <= m <= f && #[trigger] chain(s, x, m) == Some(t),
    decreases f,
{
    lemma_walk_unfold(s, x, t, f);
    lemma_chain_shift(s, x, 0);
    if f > 0 {
        match parent_step(s, x) {
            Some(y) => {
                lemma_walk_chain(s, y, t, (f - 1) as nat);
                if walk(s, x, t, f) {
                    if y == t {
                        assert(chain(s, x, 1) == Some(t));
                    } else {
                        let m = choose|m: nat| 1 <= m <= f - 1 && #[trigger] chain(s, y, m) == Some(t);
                        lemma_chain_shift(s, x, m);
                        assert(chain(s, x, m + 1) == Some(t));
                    }
                } else {
                    assert forall|m: nat| 1 <= m <= f implies #[trigger] chain(s, x, m) != Some(t) by {
                        lemma_chain_shift(s, x, (m - 1) as nat);
                        if m > 1 {
                            assert(chain(s, y, (m - 1) as nat) != Some(t));
                        }
                    }
                }
            },
            None => {
                assert forall|m: nat| 1 <= m <= f implies #[trigger] chain(s, x, m) != Some(t) by {
                    lemma_chain_shift(s, x, (m - 1) as nat);
                }
            },
        }
    }
}

/// Every step of a chain that goes on stands at an identifier some layer carries.
pub proof fn lemma_chain_found(s: Seq<Layer>, x: Seq<char>, k: nat, m: nat)
    requires
        k < m,
        chain(s, x, m) is Some,
    ensures
        chain(s, x, k) is Some,
        find_layer(s, chain(s, x, k).unwrap()) is Some,
{
    lemma_chain_ends(s, x, k, m);
    lemma_chain_ends(s, x, k + 1, m);
    assert(chain(s, x, k + 1) == parent_step(s, chain(s, x, k).unwrap()));
}

/// A sequence of `n + 1` integers below `n` repeats one.
proof fn lemma_pigeonhole(q: Seq<int>, n: int)
    requires
        q.len() == n + 1,
        n >= 0,
        forall|i: int| 0 <= i < q.len() ==> 0 <= #[trigger] q[i] < n,
    ensures
        exists|a: int, b: int| 0 <= a < b < q.len() && q[a] == q[b],
{
    if forall|a: int, b: int| 0 <= a < b < q.len() ==> q[a] != q[b] {
        assert(q.no_duplicates()) by {
            assert forall|a: int, b: int| 0 <= a < q.len() && 0 <= b < q.len() && a != b implies q[a] != q[b] by {
                if a > b {
                    assert(q[b] != q[a]);
                }
            }
        }
        q.unique_seq_to_set();
        lemma_int_range(0, n);
        assert(q.to_set().subset_of(set_int_range(0, n)));
        lemma_len_subset(q.to_set(), set_int_range(0, n));
    }
}

/// Whether the chain of `x` stands, after `m` steps, at an identifier some layer carries.
pub open spec fn found_at(s: Seq<Layer>, x: Seq<char>, m: nat) -> bool {
    chain(s, x, m) matches Some(z) && find_layer(s, z) is Some
}

/// In a tree without cycles, fewer steps than there are layers lead from an
/// identifier to any layer above it.
pub proof fn lemma_found_short(s: Seq<Layer>, x: Seq<char>, m: nat)
    requires
        acyclic(s),
        found_at(s, x, m),
    ensures
        m < s.len(),
{
    if m >= s.len() {
        let n = s.len() as int;
        assert forall|k: nat| k <= m implies #[trigger] found_at(s, x, k) by {
            if k < m {
                lemma_chain_found(s, x, k, m);
            }
        }
        let q = Seq::new((n + 1) as nat, |k: int| find_layer(s, chain(s, x, k as nat).unwrap()).unwrap());
        assert forall|k: int| 0 <= k < q.len() implies 0 <= #[trigger] q[k] < n by {
            assert(found_at(s, x, k as nat));
            lemma_find(s, chain(s, x, k as nat).unwrap());
        }
        lemma_pigeonhole(q, n);
        let (a, b) = choose|a: int, b: int| 0 <= a < b < q.len() && q[a] == q[b];
        assert(found_at(s, x, a as nat));
        assert(found_at(s, x, b as nat));
        let ya = chain(s, x, a as nat).unwrap();
        let yb = chain(s, x, b as nat).unwrap();
        lemma_find(s, ya);
        lemma_find(s, yb);
        assert(ya == yb);
        lemma_chain_compose(s, x, a as nat, ya, (b - a) as nat);
        assert(chain(s, ya, (b - a) as nat) == Some(ya));
    }
}

/// The first step, from step one on, at which the chain of `x` stands at
/// `t`, given that it does so at step `j`.
proof fn lemma_first_positive_hit(s: Seq<Layer>, x: Seq<char>, t: Seq<char>, j: nat) -> (j0: nat)
    requires
        j >= 1,
        chain(s, x, j) == Some(t),
    ensures
        1 <= j0 <= j,
        chain(s, x, j0) == Some(t),
        forall|k: nat| 1 <= k < j0 ==> #[trigger] chain(s, x, k) != Some(t),
    decreases j,
{
    if exists|k: nat| 1 <= k < j && #[trigger] chain(s, x, k) == Some(t) {
        let k = choose|k: nat| 1 <= k < j && #[trigger] chain(s, x, k) == Some(t);
        lemma_first_positive_hit(s, x, t, k)
    } else {
        j
    }
}

/// Following parent links as many times as there are layers decides
/// ancestry: a longer search finds nothing more, whatever cycles the tree has.
pub proof fn law_bounded_search_suffices(s: Seq<Layer>, x: Seq<char>, t: Seq<char>, f: nat)
    ensures
        walk(s, x, t, f) ==> walk(s, x, t, s.len()),
{
    lemma_walk_chain(s, x, t, f);
    lemma_walk_chain(s, x, t, s.len());
    if walk(s, x, t, f) {
        let m = choose|m: nat| 1 <= m <= f && #[trigger] chain(s, x, m) == Some(t);
        let m0 = lemma_first_positive_hit(s, x, t, m);
        if m0 > s.len() {
            let n = s.len() as int;
            let q = Seq::new((n + 1) as nat, |k: int| find_layer(s, chain(s, x, k as nat).unwrap()).unwrap());
            assert forall|k: int| 0 <= k < q.len() implies 0 <= #[trigger] q[k] < n by {
                lemma_chain_found(s, x, k as nat, m0);
                lemma_find(s, chain(s, x, k as nat).unwrap());
            }
            lemma_pigeonhole(q, n);
            let (a, b) = choose|a: int, b: int| 0 <= a < b < q.len() && q[a] == q[b];
            lemma_chain_found(s, x, a as nat, m0);
            lemma_chain_found(s, x, b as nat, m0);
            let ya = chain(s, x, a as nat).unwrap();
            let yb = chain(s, x, b as nat).unwrap();
            lemma_find(s, ya);
            lemma_find(s, yb);
            assert(ya == yb);
            lemma_chain_compose(s, x, b as nat, yb, (m0 - b) as nat);
            lemma_chain_compose(s, x, a as nat, ya, (m0 - b) as nat);
            let k = (a + (m0 - b)) as nat;
            assert(chain(s, x, k) == Some(t));
            assert(1 <= k < m0);
        }
        assert(chain(s, x, m0) == Some(t));
    }
}

/// The first step at which the chain of `x` stands at `t`, given that it
/// does so at step `j`.
pub proof fn lemma_first_hit(s: Seq<Layer>, x: Seq<char>, t: Seq<char>, j: nat) -> (j0: nat)
    requires
        chain(s, x, j) == Some(t),
    ensures
        j0 <= j,
        chain(s, x, j0) == Some(t),
        forall|k: nat| k < j0 ==> #[trigger] chain(s, x, k) != Some(t),
    decreases j,
{
    if exists|k: nat| k < j && #[trigger] chain(s, x, k) == Some(t) {
        let k = choose|k: nat| k < j && #[trigger] chain(s, x, k) == Some(t);
        lemma_first_hit(s, x, t, k)
    } else {
        j
    }
}

/// Two sequences whose parent steps agree everywhere but at `lid` give the
/// same chain from `x` up to the first time it stands at `lid`.
pub proof fn lemma_same_chain_until(a: Seq<Layer>, b: Seq<Layer>, lid: Seq<char>, x: Seq<char>, k: nat)
    requires
        forall|y: Seq<char>| y != lid ==> #[trigger] parent_step(b, y) == parent_step(a, y),
        forall|j: nat| j < k ==> #[trigger] chain(a, x, j) != Some(lid),
    ensures
        chain(a, x, k) == chain(b, x, k),
    decreases k,
{
    if k > 0 {
        let p = (k - 1) as nat;
        assert(chain(a, x, p) != Some(lid));
        lemma_same_chain_until(a, b, lid, x, p);
        assert(chain(a, x, k) == match chain(a, x, p) {
            Some(z) => parent_step(a, z),
            None => None,
        });
        assert(chain(b, x, k) == match chain(b, x, p) {
            Some(z) => parent_step(b, z),
            None => None,
        });
    }
}

/// Sequences with the same parent steps have the same chains.
pub proof fn lemma_same_chain(a: Seq<Layer>, b: Seq<Layer>, x: Seq<char>, k: nat)
    requires
        forall|y: Seq<char>| #[trigger] parent_step(b, y) == parent_step(a, y),
    ensures
        chain(a, x, k) == chain(b, x, k),
    decreases k,
{
    if k > 0 {
        lemma_same_chain(a, b, x, (k - 1) as nat);
        assert(chain(a, x, k) == match chain(a, x, (k - 1) as nat) {
            Some(z) => parent_step(a, z),
            None => None,
        });
        assert(chain(b, x, k) == match chain(b, x, (k - 1) as nat) {
            Some(z) => parent_step(b, z),
            None => None,
        });
    }
}

/// Lengthening groups from `y` upward gives the same result for any number
/// of steps beyond the point where the chain of `y` leaves the layers.
proof fn lemma_expand_fuel(s: Seq<Layer>, y: Seq<char>, t: int, f: nat, g: nat)
    requires
        !found_at(s, y, f),
        f <= g,
    ensures
        expand(s, y, t, f) == expand(s, y, t, g),
    decreases f,
{
    lemma_find(s, y);
    if f == 0 {
        assert(chain(s, y, 0) == Some(y));
    } else {
        match find_layer(s, y) {
            None => {},
            Some(i) => {
                let p = s[i];
                if t > sat(p.start_time + p.duration) {
                    let s2 = s.update(i, Layer { duration: sat(t - p.start_time) as i64, ..p });
                    if let Some(gp) = p.parent_id {
                        assert forall|z: Seq<char>| #[trigger] parent_step(s2, z) == parent_step(s, z) by {
                            assert forall|j: int| 0 <= j < s.len() implies #[trigger] s2[j].id@ == s[j].id@ by {}
                            lemma_find_same_ids(s, s2, z, 0);
                            lemma_find(s, z);
                        }
                        lemma_chain_shift(s, y, (f - 1) as nat);
                        lemma_same_chain(s, s2, gp@, (f - 1) as nat);
                        assert forall|j: int| 0 <= j < s.len() implies #[trigger] s2[j].id@ == s[j].id@ by {}
                        if let Some(z) = chain(s, gp@, (f - 1) as nat) {
                            lemma_find_same_ids(s, s2, z, 0);
                        }
                        lemma_expand_fuel(s2, gp@, t, (f - 1) as nat, (g - 1) as nat);
                    }
                }
            },
        }
    }
}

/// In a tree without cycles, climbing at most as many steps as there are
/// layers lengthens every ancestor that an unbounded climb would.
pub proof fn law_expand_climb_suffices(s: Seq<Layer>, pid: Seq<char>, t: int, f: nat)
    requires
        acyclic(s),
        f >= s.len(),
    ensures
        expand(s, pid, t, f) == expand(s, pid, t, s.len()),
{
    if found_at(s, pid, s.len()) {
        lemma_found_short(s, pid, s.len());
    }
    lemma_expand_fuel(s, pid, t, s.len(), f);
}

} // verus!
