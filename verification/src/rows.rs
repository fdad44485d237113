use vstd::prelude::*;
use crate::ids::opt_view;
use crate::kinds::LayerType;
use crate::layer::Layer;
use crate::query::desc;
use crate::state::{is_child_of, is_composition, targets, AppState};

verus! {

// ── the master track ──

/// Index of the first layer at or after `k` that starts later than `key`
/// (the length when none does).
pub open spec fn first_starting_after(s: Seq<Layer>, key: i64, k: int) -> int
    decreases s.len() - k,
{
    if k < 0 || k >= s.len() {
        s.len() as int
    } else if s[k].start_time > key {
        k
    } else {
        first_starting_after(s, key, k + 1)
    }
}

/// The layers ordered by start, layers with equal starts kept in the order
/// they came in.
pub open spec fn sort_by_start(s: Seq<Layer>) -> Seq<Layer>
    decreases s.len(),
{
    if s.len() == 0 {
        s
    } else {
        let r = sort_by_start(s.drop_last());
        r.insert(first_starting_after(r, s.last().start_time, 0), s.last())
    }
}

/// Whether the layers are in order of start.
pub open spec fn starts_ascending(s: Seq<Layer>) -> bool {
    forall|a: int, b: int| 0 <= a < b < s.len() ==> s[a].start_time <= s[b].start_time
}

proof fn lemma_first_starting_after(s: Seq<Layer>, key: i64, k: int)
    requires
        0 <= k <= s.len(),
    ensures
        k <= first_starting_after(s, key, k) <= s.len(),
        forall|j: int| k <= j < first_starting_after(s, key, k) ==> #[trigger] s[j].start_time <= key,
        first_starting_after(s, key, k) < s.len() ==> s[first_starting_after(s, key, k)].start_time > key,
    decreases s.len() - k,
{
    if k < s.len() && s[k].start_time <= key {
        lemma_first_starting_after(s, key, k + 1);
    }
}

/// The master track lists the compositions in order of start, each
/// exactly as many times as it occurs among the layers.
pub proof fn law_sort_by_start(s: Seq<Layer>)
    ensures
        starts_ascending(sort_by_start(s)),
        sort_by_start(s).to_multiset() == s.to_multiset(),
    decreases s.len(),
{
    if s.len() > 0 {
        let d = s.drop_last();
        let x = s.last();
        law_sort_by_start(d);
        let sd = sort_by_start(d);
        lemma_first_starting_after(sd, x.start_time, 0);
        let p = first_starting_after(sd, x.start_time, 0);
        let r = sd.insert(p, x);
        assert forall|a: int, b: int| 0 <= a < b < r.len() implies r[a].start_time <= r[b].start_time by {
            if b < p {
            } else if b == p {
            } else if a < p {
                assert(r[b] == sd[b - 1]);
                if p < sd.len() {
                    assert(sd[a].start_time <= sd[b - 1].start_time);
                }
            } else if a == p {
                assert(r[b] == sd[b - 1]);
                if b - 1 > p {
                    assert(sd[p].start_time <= sd[b - 1].start_time);
                }
            } else {
                assert(r[a] == sd[a - 1]);
                assert(r[b] == sd[b - 1]);
            }
        }
        d.to_multiset_ensures();
        assert(s =~= d.push(x));
        vstd::seq_lib::to_multiset_insert(sd, p, x);
    }
}

/// Whether a layer starts at `v`.
pub open spec fn starting_at(v: i64) -> spec_fn(Layer) -> bool {
    |l: Layer| l.start_time == v
}

proof fn lemma_none_starting_at(s: Seq<Layer>, v: i64)
    requires
        forall|j: int| 0 <= j < s.len() ==> #[trigger] s[j].start_time != v,
    ensures
        s.filter(starting_at(v)) =~= Seq::<Layer>::empty(),
    decreases s.len(),
{
    reveal_with_fuel(Seq::<_>::filter, 1);
    if s.len() > 0 {
        lemma_none_starting_at(s.drop_last(), v);
    }
}

/// The master track's order is stable: compositions that start together
/// keep their layer order.
pub proof fn law_sort_by_start_stable(s: Seq<Layer>, v: i64)
    ensures
        sort_by_start(s).filter(starting_at(v)) == s.filter(starting_at(v)),
    decreases s.len(),
{
    reveal_with_fuel(Seq::<_>::filter, 1);
    if s.len() > 0 {
        let d = s.drop_last();
        let x = s.last();
        law_sort_by_start_stable(d, v);
        law_sort_by_start(d);
        let sd = sort_by_start(d);
        lemma_first_starting_after(sd, x.start_time, 0);
        let p = first_starting_after(sd, x.start_time, 0);
        let pre = sd.subrange(0, p);
        let post = sd.subrange(p, sd.len() as int);
        let f = starting_at(v);
        assert(sd =~= pre + post);
        assert(sd.insert(p, x) =~= (pre + seq![x]) + post);
        Seq::filter_distributes_over_add(pre, post, f);
        Seq::filter_distributes_over_add(pre + seq![x], post, f);
        Seq::filter_distributes_over_add(pre, seq![x], f);
        assert(seq![x].drop_last() =~= Seq::<Layer>::empty());
        if x.start_time == v {
            assert forall|j: int| 0 <= j < post.len() implies #[trigger] post[j].start_time != v by {
                if p < sd.len() {
                    assert(post[j] == sd[p + j]);
                    if j > 0 {
                        assert(sd[p].start_time <= sd[p + j].start_time);
                    }
                }
            }
            lemma_none_starting_at(post, v);
            assert(s =~= d.push(x));
            assert(sort_by_start(s).filter(f) =~= s.filter(f));
        } else {
            lemma_none_starting_at(seq![x], v);
            assert(s =~= d.push(x));
            assert(s.filter(f) == d.filter(f));
            assert(sd.filter(f) == pre.filter(f) + post.filter(f));
            assert(sort_by_start(s).filter(f) =~= pre.filter(f) + post.filter(f));
        }
    }
}

// ── the rows under an open composition ──

/// Whether some layer of `s` carries the name `n`.
pub open spec fn has_name(s: Seq<Layer>, n: Seq<char>) -> bool {
    exists|j: int| 0 <= j < s.len() && #[trigger] s[j].name@ == n
}

/// `s` with every layer dropped whose name an earlier layer already carries.
pub open spec fn first_of_each_name(s: Seq<Layer>) -> Seq<Layer>
    decreases s.len(),
{
    if s.len() == 0 {
        s
    } else {
        let r = first_of_each_name(s.drop_last());
        if has_name(r, s.last().name@) {
            r
        } else {
            r.push(s.last())
        }
    }
}

/// Whether `l` is a composition directly under the layer identified by `ws`.
pub open spec fn is_composition_under(l: Layer, ws: Seq<char>) -> bool {
    is_composition(l) && is_child_of(l, ws)
}

/// Whether `l` is shown in the tree under `parent`, compositions left out
/// when `exclude_comps` holds.
pub open spec fn is_tree_child(l: Layer, parent: Option<Seq<char>>, exclude_comps: bool) -> bool {
    opt_view(l.parent_id) == parent && !(exclude_comps && is_composition(l))
}

impl AppState {
    /// Every composition, wherever it sits in the tree, in order of start,
    /// those starting together in layer order: the boxes of the master track.
    pub fn master_track(&self) -> (r: Vec<&Layer>)
        ensures
            targets(r@) == sort_by_start(self.layers@.filter(|l: Layer| is_composition(l))),
    {
        let comps = self.all_compositions();
        let ghost c = targets(comps@);
        let mut r: Vec<&Layer> = Vec::new();
        let n = comps.len();
        for i in 0..n
            invariant
                n == comps@.len(),
                c == targets(comps@),
                targets(r@) == sort_by_start(c.take(i as int)),
        {
            let x = comps[i];
            assert(c.take(i + 1).drop_last() =~= c.take(i as int));
            assert(c.take(i + 1).last() == *x);
            let m = r.len();
            let mut k: usize = 0;
            while k < m && r[k].start_time <= x.start_time
                invariant
                    m == r@.len(),
                    k <= m,
                    first_starting_after(targets(r@), x.start_time, 0) == first_starting_after(
                        targets(r@),
                        x.start_time,
                        k as int,
                    ),
                decreases m - k,
            {
                k = k + 1;
            }
            let ghost before = targets(r@);
            r.insert(k, x);
            assert(targets(r@) =~= before.insert(k as int, *x));
        }
        assert(c.take(n as int) =~= c);
        r
    }

    /// The rows drawn under the open composition identified by `comp_id`: its
    /// descendants (see `descendants_of`), a layer left out when an earlier
    /// one has the same name.
    pub fn open_rows(&self, comp_id: &str) -> (r: Vec<&Layer>)
        ensures
            targets(r@) == first_of_each_name(desc(self.layers@, comp_id@, self.layers@.len())),
    {
        let descs = self.descendants_of(comp_id);
        let ghost d = targets(descs@);
        let mut r: Vec<&Layer> = Vec::new();
        let n = descs.len();
        for i in 0..n
            invariant
                n == descs@.len(),
                d == targets(descs@),
                targets(r@) == first_of_each_name(d.take(i as int)),
        {
            let x = descs[i];
            assert(d.take(i + 1).drop_last() =~= d.take(i as int));
            assert(d.take(i + 1).last() == *x);
            let m = r.len();
            let mut seen = false;
            let mut k: usize = 0;
            while k < m
                invariant
                    m == r@.len(),
                    k <= m,
                    seen == exists|j: int| 0 <= j < k && #[trigger] targets(r@)[j].name@ == x.name@,
                decreases m - k,
            {
                if r[k].name == x.name {
                    seen = true;
                }
                assert(targets(r@)[k as int] == *r@[k as int]);
                k = k + 1;
            }
            let ghost before = targets(r@);
            if !seen {
                r.push(x);
                assert(targets(r@) =~= before.push(*x));
            }
        }
        assert(d.take(n as int) =~= d);
        r
    }

    /// The compositions directly under the workstream identified by
    /// `ws_id`, in layer order.
    pub fn workstream_compositions(&self, ws_id: &str) -> (r: Vec<&Layer>)
        ensures
            targets(r@) == self.layers@.filter(|l: Layer| is_composition_under(l, ws_id@)),
    {
        let ghost p = |l: Layer| is_composition_under(l, ws_id@);
        let mut r: Vec<&Layer> = Vec::new();
        let n = self.layers.len();
        for i in 0..n
            invariant
                n == self.layers@.len(),
                p == (|l: Layer| is_composition_under(l, ws_id@)),
                targets(r@) == self.layers@.take(i as int).filter(p),
        {
            reveal_with_fuel(Seq::<_>::filter, 1);
            assert(self.layers@.take(i + 1).drop_last() =~= self.layers@.take(i as int));
            let l = &self.layers[i];
            if l.layer_type == LayerType::Composition && crate::ids::opt_text_eq(&l.parent_id, ws_id) {
                r.push(l);
            }
            assert(targets(r@) =~= self.layers@.take(i + 1).filter(p));
        }
        assert(self.layers@.take(n as int) =~= self.layers@);
        r
    }

    /// The rows of the layer tree under `parent_id` (the root for `None`), in
    /// layer order, compositions left out when `exclude_comps` holds.
    pub fn tree_children(&self, parent_id: &Option<String>, exclude_comps: bool) -> (r: Vec<&Layer>)
        ensures
            targets(r@) == self.layers@.filter(|l: Layer| is_tree_child(l, opt_view(*parent_id), exclude_comps)),
    {
        let ghost p = |l: Layer| is_tree_child(l, opt_view(*parent_id), exclude_comps);
        let mut r: Vec<&Layer> = Vec::new();
        let n = self.layers.len();
        for i in 0..n
            invariant
                n == self.layers@.len(),
                p == (|l: Layer| is_tree_child(l, opt_view(*parent_id), exclude_comps)),
                targets(r@) == self.layers@.take(i as int).filter(p),
        {
            reveal_with_fuel(Seq::<_>::filter, 1);
            assert(self.layers@.take(i + 1).drop_last() =~= self.layers@.take(i as int));
            let l = &self.layers[i];
            if crate::ids::opt_eq(&l.parent_id, parent_id) && !(exclude_comps && l.layer_type
                == LayerType::Composition) {
                r.push(l);
            }
            assert(targets(r@) =~= self.layers@.take(i + 1).filter(p));
        }
        assert(self.layers@.take(n as int) =~= self.layers@);
        r
    }

    /// Whether some layer lies directly under the layer identified by `id`.
    pub fn has_children(&self, id: &str) -> (r: bool)
        ensures
            r == exists|j: int| 0 <= j < self.layers@.len() && is_child_of(#[trigger] self.layers@[j], id@),
    {
        let n = self.layers.len();
        for i in 0..n
            invariant
                n == self.layers@.len(),
                forall|j: int| 0 <= j < i ==> !is_child_of(#[trigger] self.layers@[j], id@),
        {
            if crate::ids::opt_text_eq(&self.layers[i].parent_id, id) {
                return true;
            }
        }
        false
    }
}

} // verus!
