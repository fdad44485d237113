use vstd::prelude::*;
use crate::find::{find_layer, lemma_find, position_of};
use crate::kinds::LayerType;
use crate::layer::{is_group_type, Layer};
use crate::state::{is_child_of, is_root_workstream, targets, AppState};
use crate::time::{add_ms, sat};

verus! {

/// Whether `l` is drawn on its own timeline row: it is not a group, and it
/// is at the root or directly under a workstream.
pub open spec fn is_unbound(s: Seq<Layer>, l: Layer) -> bool {
    !is_group_type(l.layer_type) && match l.parent_id {
        None => true,
        Some(pid) => match find_layer(s, pid@) {
            Some(j) => s[j].layer_type == LayerType::Workstream,
            None => false,
        },
    }
}

/// The descendants of `pid` down to depth `fuel`, depth first: each child
/// (in layer order) followed by its own descendants.
pub open spec fn desc(s: Seq<Layer>, pid: Seq<char>, fuel: nat) -> Seq<Layer>
    decreases fuel, s.len() + 1,
{
    desc_prefix(s, pid, fuel, s.len())
}

/// `desc` restricted to children among the first `n` layers.
pub open spec fn desc_prefix(s: Seq<Layer>, pid: Seq<char>, fuel: nat, n: nat) -> Seq<Layer>
    decreases fuel, n,
{
    if n == 0 || n > s.len() {
        Seq::empty()
    } else {
        let l = s[n - 1];
        desc_prefix(s, pid, fuel, (n - 1) as nat) + if is_child_of(l, pid) && fuel > 0 {
            seq![l] + desc(s, l.id@, (fuel - 1) as nat)
        } else {
            Seq::empty()
        }
    }
}

/// Whether the playhead at `t` is within the span of `l`.
pub open spec fn covers(l: Layer, t: int) -> bool {
    l.start_time <= t && t <= sat(l.start_time + l.duration)
}

/// The earliest start after `t` among `w` (the largest time when none).
pub open spec fn nearest_start_after(w: Seq<Layer>, t: int) -> int
    decreases w.len(),
{
    if w.len() == 0 {
        i64::MAX as int
    } else {
        let m = nearest_start_after(w.drop_last(), t);
        if w.last().start_time > t && w.last().start_time < m {
            w.last().start_time as int
        } else {
            m
        }
    }
}

/// Where playback at `from` continues: `from` itself when a root workstream
/// covers it, else the start of the next root workstream (when there is one).
pub open spec fn next_active(s: Seq<Layer>, from: int) -> int {
    let w = s.filter(|l: Layer| is_root_workstream(l));
    if exists|k: int| 0 <= k < w.len() && covers(#[trigger] w[k], from) {
        from
    } else {
        let n = nearest_start_after(w, from);
        if n < i64::MAX { n } else { from }
    }
}

fn append_refs<'a>(r: &mut Vec<&'a Layer>, sub: Vec<&'a Layer>)
    ensures
        targets(final(r)@) == targets(old(r)@) + targets(sub@),
{
    let ghost s0 = sub@;
    let mut sub = sub;
    r.append(&mut sub);
    assert(targets(r@) =~= targets(old(r)@) + targets(s0));
}

fn desc_exec<'a>(layers: &'a Vec<Layer>, pid: &String, fuel: usize) -> (r: Vec<&'a Layer>)
    ensures
        targets(r@) == desc(layers@, pid@, fuel as nat),
    decreases fuel,
{
    let mut r: Vec<&'a Layer> = Vec::new();
    let n = layers.len();
    for i in 0..n
        invariant
            n == layers@.len(),
            targets(r@) == desc_prefix(layers@, pid@, fuel as nat, i as nat),
    {
        let l = &layers[i];
        let is_child = match &l.parent_id {
            Some(p) => *p == *pid,
            None => false,
        };
        let ghost before = targets(r@);
        if is_child && fuel > 0 {
            r.push(l);
            let sub = desc_exec(layers, &l.id, fuel - 1);
            append_refs(&mut r, sub);
            assert(targets(r@) =~= before + (seq![*l] + desc(layers@, l.id@, (fuel - 1) as nat)));
        } else {
            assert(targets(r@) =~= before + Seq::<Layer>::empty());
        }
    }
    r
}

impl AppState {
    /// The layers drawn on their own timeline rows (see `is_unbound`), in layer order.
    pub fn unbound_layers(&self) -> (r: Vec<&Layer>)
        ensures
            targets(r@) == self.layers@.filter(|l: Layer| is_unbound(self.layers@, l)),
    {
        let ghost s = self.layers@;
        let ghost p = |l: Layer| is_unbound(s, l);
        let mut r: Vec<&Layer> = Vec::new();
        let n = self.layers.len();
        for i in 0..n
            invariant
                n == s.len(),
                s == self.layers@,
                p == (|l: Layer| is_unbound(s, l)),
                targets(r@) == s.take(i as int).filter(p),
        {
            reveal_with_fuel(Seq::<_>::filter, 1);
            assert(s.take(i + 1).drop_last() =~= s.take(i as int));
            let l = &self.layers[i];
            let keep = if l.layer_type == LayerType::Composition || l.layer_type == LayerType::Workstream {
                false
            } else {
                match &l.parent_id {
                    None => true,
                    Some(pid) => {
                        proof {
                            lemma_find(s, pid@);
                        }
                        match position_of(&self.layers, pid) {
                            Some(j) => self.layers[j].layer_type == LayerType::Workstream,
                            None => false,
                        }
                    },
                }
            };
            if keep {
                r.push(l);
            }
            assert(targets(r@) =~= s.take(i + 1).filter(p));
        }
        assert(s.take(n as int) =~= s);
        r
    }

    /// Every descendant of the layer identified by `parent_id`, depth first
    /// (see `desc`), following at most as many levels as there are layers.
    pub fn descendants_of(&self, parent_id: &str) -> (r: Vec<&Layer>)
        ensures
            targets(r@) == desc(self.layers@, parent_id@, self.layers@.len()),
    {
        let pid = String::from_str(parent_id);
        desc_exec(&self.layers, &pid, self.layers.len())
    }

    /// Where playback at `from` continues (see `next_active`).
    pub fn next_active_time(&self, from: i64) -> (r: i64)
        ensures
            r == next_active(self.layers@, from as int),
    {
        let workstreams = self.root_workstreams();
        let ghost w = self.layers@.filter(|l: Layer| is_root_workstream(l));
        let n = workstreams.len();
        for i in 0..n
            invariant
                n == workstreams@.len(),
                targets(workstreams@) == w,
                w == self.layers@.filter(|l: Layer| is_root_workstream(l)),
                forall|k: int| 0 <= k < i ==> !covers(#[trigger] w[k], from as int),
        {
            let ws = workstreams[i];
            assert(w[i as int] == *ws);
            if from >= ws.start_time && from <= add_ms(ws.start_time, ws.duration) {
                return from;
            }
        }
        let mut nearest: i64 = i64::MAX;
        for i in 0..n
            invariant
                n == workstreams@.len(),
                targets(workstreams@) == w,
                nearest == nearest_start_after(w.take(i as int), from as int),
        {
            assert(w.take(i + 1).drop_last() =~= w.take(i as int));
            let ws = workstreams[i];
            assert(w[i as int] == *ws);
            if ws.start_time > from && ws.start_time < nearest {
                nearest = ws.start_time;
            }
        }
        assert(w.take(n as int) =~= w);
        if nearest < i64::MAX { nearest } else { from }
    }
}

} // verus!
