use vstd::prelude::*;
use crate::find::{find_layer, lemma_find, position_of};
use crate::ids::{decimal, layer_id_text, opt_eq, opt_view, push_decimal};
use crate::kinds::LayerType;
use crate::layer::{fresh_layer, Layer, GROUP_MS};
use crate::state::{is_child_of, is_root_workstream, texts, AppState};
use crate::time::{add_ms, max_i, max_ms, min_i, min_ms, round_tenth, sat, snap_tenth, sub_ms};

verus! {

/// Shortest length a layer staggered into a full workstream keeps: half a second.
pub const MIN_STAGGER_MS: i64 = 500;

/// The latest end among the layers of `s` whose parent is `pid`, and `init`
/// when that is later.
pub open spec fn children_end(s: Seq<Layer>, pid: Seq<char>, init: int) -> int
    decreases s.len(),
{
    if s.len() == 0 {
        init
    } else {
        let m = children_end(s.drop_last(), pid, init);
        if is_child_of(s.last(), pid) {
            max_i(m, sat(s.last().start_time + s.last().duration))
        } else {
            m
        }
    }
}

/// Where a layer added under an existing parent is placed: under a
/// composition it takes the composition's span; under a workstream it starts
/// where the workstream's last child ends, shortened (to no less than half a
/// second) so as not to run past the workstream; under any other layer it
/// starts with that layer and is cut to its length when it would run past it.
pub open spec fn placed(s: Seq<Layer>, layer: Layer) -> Layer {
    match layer.parent_id {
        None => layer,
        Some(pid) => match find_layer(s, pid@) {
            None => layer,
            Some(pi) => {
                let p = s[pi];
                let p_end = sat(p.start_time + p.duration);
                if p.layer_type == LayerType::Composition {
                    Layer { start_time: p.start_time, duration: p.duration, ..layer }
                } else if p.layer_type == LayerType::Workstream {
                    let start = children_end(s, p.id@, p.start_time as int);
                    let dur = if sat(start + layer.duration) > p_end {
                        max_i(sat(p_end - start), MIN_STAGGER_MS as int)
                    } else {
                        layer.duration as int
                    };
                    Layer { start_time: start as i64, duration: dur as i64, ..layer }
                } else {
                    let dur = if sat(p.start_time + layer.duration) > p_end {
                        min_i(p.duration as int, layer.duration as int)
                    } else {
                        layer.duration as int
                    };
                    Layer { start_time: p.start_time, duration: dur as i64, ..layer }
                }
            },
        },
    }
}

/// The layer that `add_layer` appends: placed, then its start snapped to the
/// grid when snapping is on.
pub open spec fn settled(s: Seq<Layer>, layer: Layer, snap: bool) -> Layer {
    let q = placed(s, layer);
    if snap {
        Layer { start_time: sat(round_tenth(q.start_time as int)) as i64, ..q }
    } else {
        q
    }
}

/// The latest end among the compositions of `s` whose parent is `target`, or zero.
pub open spec fn group_comps_end(s: Seq<Layer>, target: Option<Seq<char>>) -> int
    decreases s.len(),
{
    if s.len() == 0 {
        0
    } else {
        let m = group_comps_end(s.drop_last(), target);
        if s.last().layer_type == LayerType::Composition && opt_view(s.last().parent_id) == target {
            max_i(m, sat(s.last().start_time + s.last().duration))
        } else {
            m
        }
    }
}

/// The workstream a new composition goes to when none is named: the first
/// root workstream, if any.
pub open spec fn default_workstream(s: Seq<Layer>) -> Option<String> {
    let ws = s.filter(|l: Layer| is_root_workstream(l));
    if ws.len() > 0 {
        Some(ws[0].id)
    } else {
        None
    }
}

fn children_end_exec(layers: &Vec<Layer>, pid: &String, init: i64) -> (r: i64)
    ensures
        r == children_end(layers@, pid@, init as int),
{
    let mut m = init;
    let n = layers.len();
    for i in 0..n
        invariant
            n == layers@.len(),
            m == children_end(layers@.take(i as int), pid@, init as int),
    {
        assert(layers@.take(i + 1).drop_last() =~= layers@.take(i as int));
        let l = &layers[i];
        let is_child = match &l.parent_id {
            Some(p) => *p == *pid,
            None => false,
        };
        if is_child {
            m = max_ms(m, add_ms(l.start_time, l.duration));
        }
    }
    assert(layers@.take(n as int) =~= layers@);
    m
}

fn placed_exec(layers: &Vec<Layer>, layer: Layer) -> (r: Layer)
    ensures
        r == placed(layers@, layer),
{
    let mut layer = layer;
    let parent_index = match &layer.parent_id {
        Some(pid) => position_of(layers, pid),
        None => None,
    };
    proof {
        if layer.parent_id is Some {
            lemma_find(layers@, layer.parent_id.unwrap()@);
        }
    }
    if let Some(pi) = parent_index {
        let p = &layers[pi];
        let p_end = add_ms(p.start_time, p.duration);
        if p.layer_type == LayerType::Composition {
            layer.start_time = p.start_time;
            layer.duration = p.duration;
        } else if p.layer_type == LayerType::Workstream {
            let start = children_end_exec(layers, &p.id, p.start_time);
            layer.start_time = start;
            if add_ms(start, layer.duration) > p_end {
                layer.duration = max_ms(sub_ms(p_end, start), MIN_STAGGER_MS);
            }
        } else {
            layer.start_time = p.start_time;
            if add_ms(p.start_time, layer.duration) > p_end {
                layer.duration = min_ms(p.duration, layer.duration);
            }
        }
    }
    layer
}

impl AppState {
    /// Appends `layer`, placed under its parent (see `placed`) and snapped to
    /// the grid when snapping is on, and selects it.
    pub fn add_layer(&mut self, layer: Layer)
        ensures
            final(self).layers@ == old(self).layers@.push(settled(old(self).layers@, layer, old(self).snap_to_grid)),
            final(self).selected_id == Some(layer.id),
            *final(self) == (AppState {
                layers: final(self).layers,
                selected_id: final(self).selected_id,
                ..*old(self)
            }),
    {
        let mut l = placed_exec(&self.layers, layer);
        if self.snap_to_grid {
            l.start_time = snap_tenth(l.start_time);
        }
        let id = l.id.clone();
        self.layers.push(l);
        self.selected_id = Some(id);
    }

    /// Appends a root workstream lasting `duration`, named after the number
    /// of root workstreams it makes, and expands it.
    pub fn add_workstream_with_duration(&mut self, duration: i64)
        requires
            old(self).layers.len() < usize::MAX,
        ensures
            ({
                let ws = final(self).layers@.last();
                &&& final(self).layers@ == old(self).layers@.push(ws)
                &&& ws == fresh_layer(ws.id, ws.name, LayerType::Workstream, None, 0, duration as int)
                &&& ws.id@ == layer_id_text(old(self).next_layer_id as nat)
                &&& ws.name@ == "Workstream "@ + decimal(
                    (old(self).layers@.filter(|l: Layer| is_root_workstream(l)).len() + 1) as nat,
                )
                &&& final(self).open_comps@ == old(self).open_comps@.push(ws.id)
            }),
            final(self).next_layer_id == old(self).next_layer_id.wrapping_add(1),
            *final(self) == (AppState {
                layers: final(self).layers,
                open_comps: final(self).open_comps,
                next_layer_id: final(self).next_layer_id,
                ..*old(self)
            }),
    {
        let count = self.root_workstreams().len();
        proof {
            self.layers@.lemma_filter_len(|l: Layer| is_root_workstream(l));
        }
        let mut name = String::from_str("Workstream ");
        push_decimal(&mut name, (count + 1) as u64);
        let mut ws = Layer::new_workstream(name.as_str(), &mut self.next_layer_id);
        ws.duration = duration;
        let ws_id = ws.id.clone();
        self.layers.push(ws);
        self.open_comps.push(ws_id);
    }

    /// Appends a root workstream of thirty seconds (see `add_workstream_with_duration`).
    pub fn add_workstream(&mut self)
        requires
            old(self).layers.len() < usize::MAX,
        ensures
            ({
                let ws = final(self).layers@.last();
                &&& final(self).layers@ == old(self).layers@.push(ws)
                &&& ws == fresh_layer(ws.id, ws.name, LayerType::Workstream, None, 0, GROUP_MS as int)
                &&& ws.id@ == layer_id_text(old(self).next_layer_id as nat)
                &&& ws.name@ == "Workstream "@ + decimal(
                    (old(self).layers@.filter(|l: Layer| is_root_workstream(l)).len() + 1) as nat,
                )
                &&& final(self).open_comps@ == old(self).open_comps@.push(ws.id)
            }),
            final(self).next_layer_id == old(self).next_layer_id.wrapping_add(1),
            *final(self) == (AppState {
                layers: final(self).layers,
                open_comps: final(self).open_comps,
                next_layer_id: final(self).next_layer_id,
                ..*old(self)
            }),
    {
        self.add_workstream_with_duration(GROUP_MS);
    }

    /// Adds a thirty-second composition to the workstream `target_ws_id` (by
    /// default the first root workstream, if any), after the compositions
    /// already there, numbered by the composition counter; adds it as
    /// `add_layer` does and expands it.
    pub fn add_composition(&mut self, target_ws_id: Option<&String>)
        requires
            old(self).next_comp_index < usize::MAX,
        ensures
            ({
                let target = match target_ws_id {
                    Some(t) => Some(*t),
                    None => default_workstream(old(self).layers@),
                };
                let c = final(self).layers@.last();
                let comp = fresh_layer(
                    c.id,
                    c.name,
                    LayerType::Composition,
                    target,
                    group_comps_end(old(self).layers@, opt_view(target)),
                    GROUP_MS as int,
                );
                &&& final(self).layers@ == old(self).layers@.push(settled(old(self).layers@, comp, old(self).snap_to_grid))
                &&& c.id@ == layer_id_text(old(self).next_layer_id as nat)
                &&& c.name@ == "Composition "@ + decimal((old(self).next_comp_index + 1) as nat)
                &&& final(self).selected_id == Some(c.id)
                &&& final(self).open_comps@ == old(self).open_comps@.push(c.id)
            }),
            final(self).next_comp_index == old(self).next_comp_index + 1,
            final(self).next_layer_id == old(self).next_layer_id.wrapping_add(1),
            *final(self) == (AppState {
                layers: final(self).layers,
                selected_id: final(self).selected_id,
                open_comps: final(self).open_comps,
                next_comp_index: final(self).next_comp_index,
                next_layer_id: final(self).next_layer_id,
                ..*old(self)
            }),
    {
        let target_ws: Option<String> = match target_ws_id {
            Some(id) => Some(id.clone()),
            None => {
                let workstreams = self.root_workstreams();
                if workstreams.len() > 0 {
                    Some(workstreams[0].id.clone())
                } else {
                    None
                }
            },
        };
        let mut max_end: i64 = 0;
        let n = self.layers.len();
        for i in 0..n
            invariant
                n == self.layers@.len(),
                max_end == group_comps_end(self.layers@.take(i as int), opt_view(target_ws)),
        {
            assert(self.layers@.take(i + 1).drop_last() =~= self.layers@.take(i as int));
            let c = &self.layers[i];
            if c.layer_type == LayerType::Composition && opt_eq(&c.parent_id, &target_ws) {
                let end = add_ms(c.start_time, c.duration);
                if end > max_end {
                    max_end = end;
                }
            }
        }
        assert(self.layers@.take(n as int) =~= self.layers@);
        self.next_comp_index = self.next_comp_index + 1;
        let mut name = String::from_str("Composition ");
        push_decimal(&mut name, self.next_comp_index as u64);
        let mut comp = Layer::new_composition(name.as_str(), max_end, GROUP_MS, &mut self.next_layer_id);
        comp.parent_id = target_ws;
        let comp_id = comp.id.clone();
        self.add_layer(comp);
        self.open_comps.push(comp_id);
    }
}

} // verus!
