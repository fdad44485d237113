use vstd::prelude::*;
use crate::find::{find_layer, lemma_find, lemma_find_same_ids, position_of};
use crate::ids::{opt_eq, opt_view};
use crate::kinds::LayerType;
use crate::layer::Layer;
use crate::state::{is_root_workstream, AppState};
use crate::time::{add_ms, sat};

verus! {

/// A composition to be laid out: its identifier and current start.
pub type Entry = (String, i64);

/// Whether `l` is a composition directly under the group `g` (the root for `None`).
pub open spec fn in_group(l: Layer, g: Option<Seq<char>>) -> bool {
    l.layer_type == LayerType::Composition && opt_view(l.parent_id) == g
}

/// The compositions of group `g`, in layer order.
pub open spec fn comp_entries(s: Seq<Layer>, g: Option<Seq<char>>) -> Seq<Entry> {
    s.filter(|l: Layer| in_group(l, g)).map_values(|l: Layer| (l.id, l.start_time))
}

/// Index of the first entry at or after `k` that starts later than `key`
/// (the length when none does).
pub open spec fn first_later(e: Seq<Entry>, key: i64, k: int) -> int
    decreases e.len() - k,
{
    if k < 0 || k >= e.len() {
        e.len() as int
    } else if e[k].1 > key {
        k
    } else {
        first_later(e, key, k + 1)
    }
}

/// `e` with `x` put before the first entry that starts later than it.
pub open spec fn insert_sorted(e: Seq<Entry>, x: Entry) -> Seq<Entry> {
    e.insert(first_later(e, x.1, 0), x)
}

/// The entries ordered by start, entries with equal starts kept in the
/// order they came in.
pub open spec fn sort_entries(e: Seq<Entry>) -> Seq<Entry>
    decreases e.len(),
{
    if e.len() == 0 {
        e
    } else {
        insert_sorted(sort_entries(e.drop_last()), e.last())
    }
}

/// Whether entries are in order of start.
pub open spec fn sorted_by_start(e: Seq<Entry>) -> bool {
    forall|a: int, b: int| 0 <= a < b < e.len() ==> e[a].1 <= e[b].1
}

proof fn lemma_first_later(e: Seq<Entry>, key: i64, k: int)
    requires
        0 <= k <= e.len(),
    ensures
        k <= first_later(e, key, k) <= e.len(),
        forall|j: int| k <= j < first_later(e, key, k) ==> #[trigger] e[j].1 <= key,
        first_later(e, key, k) < e.len() ==> e[first_later(e, key, k)].1 > key,
    decreases e.len() - k,
{
    if k < e.len() && e[k].1 <= key {
        lemma_first_later(e, key, k + 1);
    }
}

/// Sorting puts the entries in order of start and keeps every entry (as
/// many times as it occurs).
pub proof fn law_sort_entries(e: Seq<Entry>)
    ensures
        sorted_by_start(sort_entries(e)),
        sort_entries(e).to_multiset() == e.to_multiset(),
    decreases e.len(),
{
    if e.len() > 0 {
        let d = e.drop_last();
        let x = e.last();
        law_sort_entries(d);
        let sd = sort_entries(d);
        lemma_first_later(sd, x.1, 0);
        let p = first_later(sd, x.1, 0);
        let r = sd.insert(p, x);
        assert forall|a: int, b: int| 0 <= a < b < r.len() implies r[a].1 <= r[b].1 by {
            if b < p {
            } else if b == p {
            } else if a < p {
                assert(r[b] == sd[b - 1]);
                if p < sd.len() {
                    assert(sd[p].1 > x.1);
                    assert(sd[a].1 <= sd[b - 1].1);
                }
            } else if a == p {
                assert(r[b] == sd[b - 1]);
                assert(sd[p].1 > x.1);
                if b - 1 > p {
                    assert(sd[p].1 <= sd[b - 1].1);
                }
            } else {
                assert(r[a] == sd[a - 1]);
                assert(r[b] == sd[b - 1]);
            }
        }
        d.to_multiset_ensures();
        assert(e =~= d.push(x));
        vstd::seq_lib::to_multiset_insert(sd, p, x);
    }
}

/// Whether an entry starts at `v`.
pub open spec fn starts_at(v: i64) -> spec_fn(Entry) -> bool {
    |x: Entry| x.1 == v
}

/// Entries that no entry of `e` has the start `v` filter to nothing.
proof fn lemma_filter_none(e: Seq<Entry>, v: i64)
    requires
        forall|j: int| 0 <= j < e.len() ==> #[trigger] e[j].1 != v,
    ensures
        e.filter(starts_at(v)) =~= Seq::<Entry>::empty(),
    decreases e.len(),
{
    reveal_with_fuel(Seq::<_>::filter, 1);
    if e.len() > 0 {
        lemma_filter_none(e.drop_last(), v);
    }
}

/// Sorting is stable: the entries with any one start come out in the order
/// they went in.
pub proof fn law_sort_entries_stable(e: Seq<Entry>, v: i64)
    ensures
        sort_entries(e).filter(starts_at(v)) == e.filter(starts_at(v)),
    decreases e.len(),
{
    reveal_with_fuel(Seq::<_>::filter, 1);
    if e.len() > 0 {
        let d = e.drop_last();
        let x = e.last();
        law_sort_entries_stable(d, v);
        law_sort_entries(d);
        let sd = sort_entries(d);
        lemma_first_later(sd, x.1, 0);
        let p = first_later(sd, x.1, 0);
        let pre = sd.subrange(0, p);
        let post = sd.subrange(p, sd.len() as int);
        let f = starts_at(v);
        assert(sd =~= pre + post);
        assert(sd.insert(p, x) =~= (pre + seq![x]) + post);
        Seq::filter_distributes_over_add(pre, post, f);
        Seq::filter_distributes_over_add(pre + seq![x], post, f);
        Seq::filter_distributes_over_add(pre, seq![x], f);
        assert(seq![x].drop_last() =~= Seq::<Entry>::empty());
        if x.1 == v {
            assert forall|j: int| 0 <= j < post.len() implies #[trigger] post[j].1 != v by {
                if p < sd.len() {
                    assert(post[j] == sd[p + j]);
                    if j > 0 {
                        assert(sd[p].1 <= sd[p + j].1);
                    }
                }
            }
            lemma_filter_none(post, v);
            assert(e =~= d.push(x));
            assert(sort_entries(e).filter(f) =~= e.filter(f));
        } else {
            lemma_filter_none(seq![x], v);
            assert(e =~= d.push(x));
            assert(e.filter(f) == d.filter(f));
            assert(sd.filter(f) == pre.filter(f) + post.filter(f));
            assert(sort_entries(e).filter(f) =~= pre.filter(f) + post.filter(f));
        }
    }
}

/// `s` with the compositions named by `order` laid end to end from `cur`:
/// each (the first layer with the identifier) starts where the previous ends.
pub open spec fn pack(s: Seq<Layer>, order: Seq<Entry>, cur: int) -> Seq<Layer>
    decreases order.len(),
{
    if order.len() == 0 {
        s
    } else {
        match find_layer(s, order[0].0@) {
            Some(i) => pack(
                s.update(i, Layer { start_time: cur as i64, ..s[i] }),
                order.drop_first(),
                sat(cur + s[i].duration),
            ),
            None => pack(s, order.drop_first(), cur),
        }
    }
}

/// The length of the first layer identified by `id` (zero when there is none).
pub open spec fn dur_of(s: Seq<Layer>, id: Seq<char>) -> int {
    match find_layer(s, id) {
        Some(i) => s[i].duration as int,
        None => 0,
    }
}

/// Where the `k`-th entry of `order` starts when the entries are laid end
/// to end from `cur`: where the previous one starts, plus its length.
pub open spec fn pack_start(s: Seq<Layer>, order: Seq<Entry>, cur: int, k: nat) -> int
    decreases k,
{
    if k == 0 {
        cur
    } else {
        sat(pack_start(s, order, cur, (k - 1) as nat) + dur_of(s, order[k - 1].0@))
    }
}

/// `pack` moves layers in time and changes nothing else; layers not named
/// by `order` stay as they are.
proof fn lemma_pack_frame(s: Seq<Layer>, order: Seq<Entry>, cur: int)
    ensures
        pack(s, order, cur).len() == s.len(),
        forall|j: int| 0 <= j < s.len() ==> #[trigger] pack(s, order, cur)[j] == (Layer {
            start_time: pack(s, order, cur)[j].start_time,
            ..s[j]
        }),
        forall|j: int|
            0 <= j < s.len() && (forall|m: int| 0 <= m < order.len() ==> find_layer(s, #[trigger] order[m].0@) != Some(j))
                ==> #[trigger] pack(s, order, cur)[j] == s[j],
    decreases order.len(),
{
    if order.len() > 0 {
        let rest = order.drop_first();
        lemma_find(s, order[0].0@);
        match find_layer(s, order[0].0@) {
            Some(i) => {
                let s2 = s.update(i, Layer { start_time: cur as i64, ..s[i] });
                let c2 = sat(cur + s[i].duration);
                lemma_pack_frame(s2, rest, c2);
                assert forall|j: int| 0 <= j < s.len() implies #[trigger] s2[j].id@ == s[j].id@ by {}
                assert forall|j: int|
                    0 <= j < s.len() && (forall|m: int| 0 <= m < order.len() ==> find_layer(s, #[trigger] order[m].0@) != Some(j))
                    implies #[trigger] pack(s, order, cur)[j] == s[j] by {
                    assert(find_layer(s, order[0].0@) != Some(j));
                    assert forall|m: int| 0 <= m < rest.len() implies find_layer(s2, #[trigger] rest[m].0@) != Some(j) by {
                        lemma_find_same_ids(s, s2, rest[m].0@, 0);
                        assert(rest[m] == order[m + 1]);
                    }
                }
            },
            None => {
                lemma_pack_frame(s, rest, cur);
                assert forall|j: int|
                    0 <= j < s.len() && (forall|m: int| 0 <= m < order.len() ==> find_layer(s, #[trigger] order[m].0@) != Some(j))
                    implies #[trigger] pack(s, order, cur)[j] == s[j] by {
                    assert forall|m: int| 0 <= m < rest.len() implies find_layer(s, #[trigger] rest[m].0@) != Some(j) by {
                        assert(rest[m] == order[m + 1]);
                    }
                }
            },
        }
    }
}

proof fn lemma_pack_start_shift(s: Seq<Layer>, t: Seq<Layer>, order: Seq<Entry>, cur: int, k: nat)
    requires
        k < order.len(),
        forall|id: Seq<char>| #[trigger] dur_of(t, id) == dur_of(s, id),
    ensures
        pack_start(s, order, cur, k + 1) == pack_start(t, order.drop_first(), sat(cur + dur_of(s, order[0].0@)), k),
    decreases k,
{
    let rest = order.drop_first();
    let c2 = sat(cur + dur_of(s, order[0].0@));
    assert(pack_start(s, order, cur, k + 1) == sat(pack_start(s, order, cur, k) + dur_of(s, order[k as int].0@)));
    if k > 0 {
        lemma_pack_start_shift(s, t, order, cur, (k - 1) as nat);
        assert(rest[k - 1] == order[k as int]);
        assert(dur_of(t, rest[k - 1].0@) == dur_of(s, order[k as int].0@));
        assert(pack_start(t, rest, c2, k) == sat(pack_start(t, rest, c2, (k - 1) as nat) + dur_of(t, rest[k - 1].0@)));
    } else {
        assert(pack_start(s, order, cur, 0) == cur);
        assert(pack_start(t, rest, c2, 0) == c2);
    }
}

/// Laying out compositions end to end: when identifiers are unique and
/// `order` names each at most once, the `k`-th one named starts at
/// `pack_start` — the first at `cur`, each next where the previous ends.
pub proof fn law_pack_end_to_end(s: Seq<Layer>, order: Seq<Entry>, cur: int)
    requires
        i64::MIN <= cur <= i64::MAX,
        forall|a: int, b: int| 0 <= a < b < s.len() ==> s[a].id@ != s[b].id@,
        forall|a: int, b: int| 0 <= a < b < order.len() ==> order[a].0@ != order[b].0@,
    ensures
        forall|k: int|
            0 <= k < order.len() && #[trigger] find_layer(s, order[k].0@) is Some ==> pack(s, order, cur)[find_layer(
                s,
                order[k].0@,
            ).unwrap()].start_time == pack_start(s, order, cur, k as nat),
    decreases order.len(),
{
    if order.len() > 0 {
        let rest = order.drop_first();
        lemma_find(s, order[0].0@);
        assert forall|a: int, b: int| 0 <= a < b < rest.len() implies rest[a].0@ != rest[b].0@ by {
            assert(rest[a] == order[a + 1]);
            assert(rest[b] == order[b + 1]);
        }
        match find_layer(s, order[0].0@) {
            Some(i) => {
                let s2 = s.update(i, Layer { start_time: cur as i64, ..s[i] });
                let c2 = sat(cur + s[i].duration);
                assert forall|j: int| 0 <= j < s.len() implies #[trigger] s2[j].id@ == s[j].id@ by {}
                assert forall|id: Seq<char>| #[trigger] dur_of(s2, id) == dur_of(s, id) by {
                    lemma_find_same_ids(s, s2, id, 0);
                    lemma_find(s, id);
                }
                law_pack_end_to_end(s2, rest, c2);
                lemma_pack_frame(s2, rest, c2);
                assert(pack(s, order, cur) == pack(s2, rest, c2));
                assert(dur_of(s, order[0].0@) == s[i].duration);
                assert forall|k: int|
                    0 <= k < order.len() && #[trigger] find_layer(s, order[k].0@) is Some implies pack(s, order, cur)[find_layer(
                        s,
                        order[k].0@,
                    ).unwrap()].start_time == pack_start(s, order, cur, k as nat) by {
                    if k == 0 {
                        assert forall|m: int| 0 <= m < rest.len() implies find_layer(s2, #[trigger] rest[m].0@) != Some(i) by {
                            lemma_find_same_ids(s, s2, rest[m].0@, 0);
                            lemma_find(s, rest[m].0@);
                            assert(rest[m] == order[m + 1]);
                        }
                        assert(pack(s2, rest, c2)[i] == s2[i]);
                    } else {
                        assert(rest[k - 1] == order[k]);
                        lemma_find_same_ids(s, s2, order[k].0@, 0);
                        lemma_pack_start_shift(s, s2, order, cur, (k - 1) as nat);
                        assert(find_layer(s2, rest[k - 1].0@) is Some);
                    }
                }
            },
            None => {
                law_pack_end_to_end(s, rest, cur);
                assert(pack(s, order, cur) == pack(s, rest, cur));
                assert forall|k: int|
                    0 <= k < order.len() && #[trigger] find_layer(s, order[k].0@) is Some implies pack(s, order, cur)[find_layer(
                        s,
                        order[k].0@,
                    ).unwrap()].start_time == pack_start(s, order, cur, k as nat) by {
                    assert(k != 0);
                    assert(rest[k - 1] == order[k]);
                    assert(dur_of(s, order[0].0@) == 0);
                    lemma_pack_start_shift(s, s, order, cur, (k - 1) as nat);
                }
            },
        }
    }
}

/// `s` after each group of `groups` in turn has its compositions laid end
/// to end from time zero, in order of start.
pub open spec fn sequence_groups(s: Seq<Layer>, groups: Seq<Option<Seq<char>>>) -> Seq<Layer>
    decreases groups.len(),
{
    if groups.len() == 0 {
        s
    } else {
        sequence_groups(pack(s, sort_entries(comp_entries(s, groups[0])), 0), groups.drop_first())
    }
}

/// The groups whose compositions are sequenced: the root, then each root workstream.
pub open spec fn sequence_order(s: Seq<Layer>) -> Seq<Option<Seq<char>>> {
    seq![None].add(s.filter(|l: Layer| is_root_workstream(l)).map_values(|l: Layer| Some(l.id@)))
}

fn comp_entries_exec(layers: &Vec<Layer>, g: &Option<String>) -> (r: Vec<Entry>)
    ensures
        r@ == comp_entries(layers@, opt_view(*g)),
{
    let ghost s = layers@;
    let ghost p = |l: Layer| in_group(l, opt_view(*g));
    let mut r: Vec<Entry> = Vec::new();
    let n = layers.len();
    for i in 0..n
        invariant
            n == s.len(),
            s == layers@,
            p == (|l: Layer| in_group(l, opt_view(*g))),
            r@ == s.take(i as int).filter(p).map_values(|l: Layer| (l.id, l.start_time)),
    {
        reveal_with_fuel(Seq::<_>::filter, 1);
        assert(s.take(i + 1).drop_last() =~= s.take(i as int));
        let l = &layers[i];
        let ghost before = r@;
        if l.layer_type == LayerType::Composition && opt_eq(&l.parent_id, g) {
            r.push((l.id.clone(), l.start_time));
        }
        proof {
            let prev = s.take(i as int).filter(p);
            let next = s.take(i + 1).filter(p);
            if p(s[i as int]) {
                assert(next == prev.push(s[i as int]));
            } else {
                assert(next == prev);
            }
            assert(r@ =~= next.map_values(|l: Layer| (l.id, l.start_time)));
        }
    }
    assert(s.take(n as int) =~= s);
    r
}

fn first_later_exec(e: &Vec<Entry>, key: i64) -> (r: usize)
    ensures
        r as int == first_later(e@, key, 0),
        r <= e@.len(),
{
    let n = e.len();
    let mut k: usize = 0;
    while k < n && e[k].1 <= key
        invariant
            n == e@.len(),
            k <= n,
            first_later(e@, key, 0) == first_later(e@, key, k as int),
        decreases n - k,
    {
        k = k + 1;
    }
    k
}

fn sort_entries_exec(e: &Vec<Entry>) -> (r: Vec<Entry>)
    ensures
        r@ == sort_entries(e@),
{
    let mut r: Vec<Entry> = Vec::new();
    let n = e.len();
    for i in 0..n
        invariant
            n == e@.len(),
            r@ == sort_entries(e@.take(i as int)),
    {
        assert(e@.take(i + 1).drop_last() =~= e@.take(i as int));
        let pos = first_later_exec(&r, e[i].1);
        let x: Entry = (e[i].0.clone(), e[i].1);
        r.insert(pos, x);
    }
    assert(e@.take(n as int) =~= e@);
    r
}

fn pack_exec(layers: &mut Vec<Layer>, order: &Vec<Entry>)
    ensures
        final(layers)@ == pack(old(layers)@, order@, 0),
{
    let ghost target = pack(layers@, order@, 0);
    let mut cur: i64 = 0;
    let m = order.len();
    assert(order@.skip(0) =~= order@);
    for j in 0..m
        invariant
            m == order@.len(),
            pack(layers@, order@.skip(j as int), cur as int) == target,
    {
        let ghost rest = order@.skip(j as int);
        assert(rest[0] == order@[j as int]);
        assert(rest.drop_first() =~= order@.skip(j + 1));
        proof {
            lemma_find(layers@, order@[j as int].0@);
        }
        if let Some(i) = position_of(layers, &order[j].0) {
            let mut l = layers[i].clone();
            l.start_time = cur;
            let d = l.duration;
            layers.set(i, l);
            cur = add_ms(cur, d);
        }
    }
    assert(order@.skip(m as int) =~= Seq::<Entry>::empty());
}

impl AppState {
    /// Lays out the compositions of the root, then of each root workstream,
    /// end to end from time zero in order of their current starts (equal
    /// starts keeping layer order).
    pub fn enforce_composition_sequence(&mut self)
        ensures
            final(self).layers@ == sequence_groups(old(self).layers@, sequence_order(old(self).layers@)),
            *final(self) == (AppState { layers: final(self).layers, ..*old(self) }),
    {
        let ghost s0 = self.layers@;
        let ghost order = sequence_order(s0);
        let workstreams = self.root_workstreams();
        let mut groups: Vec<Option<String>> = Vec::new();
        groups.push(None);
        let nw = workstreams.len();
        for i in 0..nw
            invariant
                nw == workstreams@.len(),
                crate::state::targets(workstreams@) == s0.filter(|l: Layer| is_root_workstream(l)),
                groups@.len() == i + 1,
                groups@[0] is None,
                forall|k: int| 0 <= k < i ==> opt_view(#[trigger] groups@[k + 1]) == Some(workstreams@[k].id@),
        {
            groups.push(Some(workstreams[i].id.clone()));
        }
        let ghost gv = groups@.map_values(|g: Option<String>| opt_view(g));
        proof {
            let w = s0.filter(|l: Layer| is_root_workstream(l));
            assert forall|j: int| 0 <= j < gv.len() implies gv[j] == order[j] by {
                if j > 0 {
                    assert(crate::state::targets(workstreams@)[j - 1] == w[j - 1]);
                    assert(opt_view(groups@[(j - 1) + 1]) == Some(workstreams@[j - 1].id@));
                }
            }
            assert(gv =~= order);
            assert(gv.skip(0) =~= gv);
        }
        let ng = groups.len();
        for k in 0..ng
            invariant
                ng == groups@.len(),
                gv == groups@.map_values(|g: Option<String>| opt_view(g)),
                sequence_groups(self.layers@, gv.skip(k as int)) == sequence_groups(s0, order),
                *self == (AppState { layers: self.layers, ..*old(self) }),
        {
            let ghost rest = gv.skip(k as int);
            assert(rest[0] == opt_view(groups@[k as int]));
            assert(rest.drop_first() =~= gv.skip(k + 1));
            let entries = comp_entries_exec(&self.layers, &groups[k]);
            let sorted = sort_entries_exec(&entries);
            pack_exec(&mut self.layers, &sorted);
        }
        assert(gv.skip(ng as int) =~= Seq::<Option<Seq<char>>>::empty());
    }
}

} // verus!
