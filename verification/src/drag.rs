use vstd::prelude::*;
use crate::find::{find_layer, lemma_find, position_of};
use crate::ids::opt_view;
use crate::kinds::LayerType;
use crate::layer::Layer;
use crate::state::{AppState, ClipDragMode, ClipDragState};
use crate::time::{add_ms, max_i, max_ms, min_i, min_ms, round_tenth, sat, snap_tenth, sub_ms, GRID_MS};

verus! {

/// Shortest clip a trim leaves, and the gap a left trim keeps before the
/// clip's end: a tenth of a second.
pub const MIN_CLIP_MS: i64 = 100;

/// Distance, in pixels, within which a dragged time snaps to a neighbour's edge.
pub const EDGE_SNAP_PX: i64 = 5;

/// `a / b` rounded toward zero, for `b > 0`.
pub open spec fn div_trunc(a: int, b: int) -> int {
    if a >= 0 {
        a / b
    } else {
        -((-a) / b)
    }
}

/// The time, in milliseconds, that a pointer move of `delta_px` pixels
/// stands for at `pps` pixels per second.
pub open spec fn drag_delta(delta_px: int, pps: int) -> int {
    sat(div_trunc(delta_px * 1000, pps))
}

pub open spec fn abs_i(x: int) -> int {
    if x >= 0 { x } else { -x }
}

/// Whether `t` lies within five pixels of `edge` at `pps` pixels per second.
pub open spec fn near(t: int, edge: int, pps: int) -> bool {
    abs_i(t - edge) * pps < EDGE_SNAP_PX * 1000
}

/// The first edge of `edges`, from index `k` on, near `t`.
pub open spec fn first_near(edges: Seq<i64>, t: int, pps: int, k: int) -> Option<int>
    decreases edges.len() - k,
{
    if k < 0 || k >= edges.len() {
        None
    } else if near(t, edges[k] as int, pps) {
        Some(edges[k] as int)
    } else {
        first_near(edges, t, pps, k + 1)
    }
}

/// Where a dragged time lands: when snapping is on, at the first neighbour
/// edge near it, else on the grid; unchanged when snapping is off.
pub open spec fn snap_time(t: int, edges: Seq<i64>, pps: int, on: bool) -> int {
    if !on {
        t
    } else {
        match first_near(edges, t, pps, 0) {
            Some(e) => e,
            None => sat(round_tenth(t)),
        }
    }
}

/// The edges (starts and ends, in layer order) of the layers other than
/// `lid` that share the parent `dp` or are compositions.
pub open spec fn sibling_edges(s: Seq<Layer>, lid: Seq<char>, dp: Option<Seq<char>>) -> Seq<i64>
    decreases s.len(),
{
    if s.len() == 0 {
        Seq::empty()
    } else {
        let l = s.last();
        let rest = sibling_edges(s.drop_last(), lid, dp);
        if l.id@ != lid && (opt_view(l.parent_id) == dp || l.layer_type == LayerType::Composition) {
            rest + seq![l.start_time, sat(l.start_time + l.duration) as i64]
        } else {
            rest
        }
    }
}

/// The parent of the first layer identified by `lid`.
pub open spec fn dragged_parent(s: Seq<Layer>, lid: Seq<char>) -> Option<Seq<char>> {
    match find_layer(s, lid) {
        Some(i) => opt_view(s[i].parent_id),
        None => None,
    }
}

/// The span a layer is held within while dragged: its parent's, unless it
/// has none or its parent is a workstream.
pub open spec fn parent_bounds(s: Seq<Layer>, l: Layer) -> Option<(int, int)> {
    match l.parent_id {
        Some(pid) => match find_layer(s, pid@) {
            Some(j) => if s[j].layer_type != LayerType::Workstream {
                Some((s[j].start_time as int, sat(s[j].start_time + s[j].duration)))
            } else {
                None
            },
            None => None,
        },
        None => None,
    }
}

/// `x` held within `lo ..= hi` (for `lo <= hi`).
pub open spec fn clamp_i(x: int, lo: int, hi: int) -> int {
    if x < lo {
        lo
    } else if x > hi {
        hi
    } else {
        x
    }
}

/// The clip `l` after the drag `cd` in mode `mode` has moved by `delta`
/// milliseconds, within `bounds`, with `snap` placing the moved time.
pub open spec fn dragged(
    l: Layer,
    mode: ClipDragMode,
    cd: ClipDragState,
    delta: int,
    bounds: Option<(int, int)>,
    edges: Seq<i64>,
    pps: int,
    on: bool,
) -> Layer {
    match mode {
        ClipDragMode::Move => {
            let ns = max_i(sat(cd.original_start_time + delta), 0);
            let ns2 = match bounds {
                Some((ps, pe)) => clamp_i(ns, ps, max_i(sat(pe - l.duration), ps)),
                None => ns,
            };
            Layer { start_time: snap_time(ns2, edges, pps, on) as i64, ..l }
        },
        ClipDragMode::TrimLeft => {
            let ns = max_i(sat(cd.original_start_time + delta), 0);
            let ns2 = match bounds {
                Some((ps, pe)) => max_i(ns, ps),
                None => ns,
            };
            let end = sat(cd.original_start_time + cd.original_duration);
            let limit = sat(end - MIN_CLIP_MS);
            let st = snap_time(ns2, edges, pps, on);
            if ns2 < limit && st < limit {
                Layer { start_time: st as i64, duration: sat(end - st) as i64, ..l }
            } else {
                l
            }
        },
        ClipDragMode::TrimRight => {
            let nd = max_i(sat(cd.original_duration + delta), MIN_CLIP_MS as int);
            let nd2 = match bounds {
                Some((ps, pe)) => if sat(l.start_time + nd) > pe {
                    max_i(sat(pe - l.start_time), MIN_CLIP_MS as int)
                } else {
                    nd
                },
                None => nd,
            };
            Layer { duration: max_i(snap_time(nd2, edges, pps, on), MIN_CLIP_MS as int) as i64, ..l }
        },
        ClipDragMode::FadeIn => {
            let f = min_i(max_i(sat(cd.original_fade_in + delta), 0), sat(l.duration - l.fade_out));
            Layer { fade_in: snap_time(f, edges, pps, on) as i64, ..l }
        },
        ClipDragMode::FadeOut => {
            let f = min_i(max_i(sat(cd.original_fade_out - delta), 0), sat(l.duration - l.fade_in));
            Layer { fade_out: snap_time(f, edges, pps, on) as i64, ..l }
        },
    }
}

/// The layers after the drag in progress follows the pointer to `pointer_x`.
pub open spec fn after_drag(s: Seq<Layer>, cd: ClipDragState, snap_on: bool, pointer_x: int, pps: int) -> Seq<Layer> {
    match (cd.mode, cd.layer_id) {
        (Some(mode), Some(lid)) => match find_layer(s, lid@) {
            Some(i) => {
                let edges = if snap_on {
                    sibling_edges(s, lid@, dragged_parent(s, lid@))
                } else {
                    Seq::empty()
                };
                let delta = drag_delta(pointer_x - cd.start_pointer_x, pps);
                s.update(i, dragged(s[i], mode, cd, delta, parent_bounds(s, s[i]), edges, pps, snap_on))
            },
            None => s,
        },
        _ => s,
    }
}

fn delta_exec(pointer_x: i64, start: i64, pps: i64) -> (r: i64)
    requires
        pps > 0,
    ensures
        r == drag_delta(pointer_x - start, pps as int),
{
    let d: i128 = (pointer_x as i128 - start as i128) * 1000;
    let q: i128 = if d >= 0 {
        d / (pps as i128)
    } else {
        -((-d) / (pps as i128))
    };
    assert(-(1i128 << 76) < d < (1i128 << 76)) by (bit_vector)
        requires d == (pointer_x as i128 - start as i128) * 1000;
    if q > i64::MAX as i128 {
        i64::MAX
    } else if q < i64::MIN as i128 {
        i64::MIN
    } else {
        q as i64
    }
}

fn near_exec(t: i64, edge: i64, pps: i64) -> (r: bool)
    requires
        pps > 0,
    ensures
        r == near(t as int, edge as int, pps as int),
{
    let d: i128 = t as i128 - edge as i128;
    let a: u128 = if d >= 0 { d as u128 } else { (-d) as u128 };
    assert(a < 0x2_0000_0000_0000_0000);
    assert(a * (pps as u128) < 0x1_0000_0000_0000_0000_0000_0000_0000_0000) by (nonlinear_arith)
        requires a < 0x2_0000_0000_0000_0000, 0 < pps < 0x8000_0000_0000_0000;
    a * (pps as u128) < 5000
}

fn snap_exec(t: i64, edges: &Vec<i64>, pps: i64, on: bool) -> (r: i64)
    requires
        pps > 0,
    ensures
        r == snap_time(t as int, edges@, pps as int, on),
{
    if !on {
        return t;
    }
    let n = edges.len();
    let mut k: usize = 0;
    while k < n
        invariant
            n == edges@.len(),
            k <= n,
            pps > 0,
            on,
            first_near(edges@, t as int, pps as int, 0) == first_near(edges@, t as int, pps as int, k as int),
        decreases n - k,
    {
        if near_exec(t, edges[k], pps) {
            return edges[k];
        }
        k = k + 1;
    }
    snap_tenth(t)
}

fn sibling_edges_exec(layers: &Vec<Layer>, lid: &String, dp: &Option<String>) -> (r: Vec<i64>)
    ensures
        r@ == sibling_edges(layers@, lid@, opt_view(*dp)),
{
    let mut edges: Vec<i64> = Vec::new();
    let n = layers.len();
    for i in 0..n
        invariant
            n == layers@.len(),
            edges@ == sibling_edges(layers@.take(i as int), lid@, opt_view(*dp)),
    {
        assert(layers@.take(i + 1).drop_last() =~= layers@.take(i as int));
        let l = &layers[i];
        if l.id != *lid && (crate::ids::opt_eq(&l.parent_id, dp) || l.layer_type == LayerType::Composition) {
            edges.push(l.start_time);
            edges.push(add_ms(l.start_time, l.duration));
        }
        assert(edges@ =~= sibling_edges(layers@.take(i + 1), lid@, opt_view(*dp)));
    }
    assert(layers@.take(n as int) =~= layers@);
    edges
}

fn parent_bounds_exec(layers: &Vec<Layer>, i: usize) -> (r: Option<(i64, i64)>)
    requires
        i < layers@.len(),
    ensures
        match r {
            Some((a, b)) => parent_bounds(layers@, layers@[i as int]) == Some((a as int, b as int)),
            None => parent_bounds(layers@, layers@[i as int]) is None,
        },
{
    match &layers[i].parent_id {
        Some(pid) => {
            proof {
                lemma_find(layers@, pid@);
            }
            match position_of(layers, pid) {
                Some(j) => {
                    let p = &layers[j];
                    if p.layer_type != LayerType::Workstream {
                        Some((p.start_time, add_ms(p.start_time, p.duration)))
                    } else {
                        None
                    }
                },
                None => None,
            }
        },
        None => None,
    }
}

fn dragged_exec(
    l: Layer,
    mode: ClipDragMode,
    cd: &ClipDragState,
    delta: i64,
    bounds: Option<(i64, i64)>,
    edges: &Vec<i64>,
    pps: i64,
    on: bool,
) -> (r: Layer)
    requires
        pps > 0,
    ensures
        r == dragged(
            l,
            mode,
            *cd,
            delta as int,
            match bounds {
                Some((a, b)) => Some((a as int, b as int)),
                None => None,
            },
            edges@,
            pps as int,
            on,
        ),
{
    let mut l = l;
    match mode {
        ClipDragMode::Move => {
            let mut ns = max_ms(add_ms(cd.original_start_time, delta), 0);
            if let Some((ps, pe)) = bounds {
                let hi = max_ms(sub_ms(pe, l.duration), ps);
                ns = if ns < ps { ps } else if ns > hi { hi } else { ns };
            }
            l.start_time = snap_exec(ns, edges, pps, on);
        },
        ClipDragMode::TrimLeft => {
            let mut ns = max_ms(add_ms(cd.original_start_time, delta), 0);
            if let Some((ps, _pe)) = bounds {
                ns = max_ms(ns, ps);
            }
            let end = add_ms(cd.original_start_time, cd.original_duration);
            let limit = sub_ms(end, MIN_CLIP_MS);
            if ns < limit {
                let st = snap_exec(ns, edges, pps, on);
                if st < limit {
                    l.start_time = st;
                    l.duration = sub_ms(end, st);
                }
            }
        },
        ClipDragMode::TrimRight => {
            let mut nd = max_ms(add_ms(cd.original_duration, delta), MIN_CLIP_MS);
            if let Some((_ps, pe)) = bounds {
                if add_ms(l.start_time, nd) > pe {
                    nd = max_ms(sub_ms(pe, l.start_time), MIN_CLIP_MS);
                }
            }
            l.duration = max_ms(snap_exec(nd, edges, pps, on), MIN_CLIP_MS);
        },
        ClipDragMode::FadeIn => {
            let f = min_ms(max_ms(add_ms(cd.original_fade_in, delta), 0), sub_ms(l.duration, l.fade_out));
            l.fade_in = snap_exec(f, edges, pps, on);
        },
        ClipDragMode::FadeOut => {
            let f = min_ms(max_ms(sub_ms(cd.original_fade_out, delta), 0), sub_ms(l.duration, l.fade_in));
            l.fade_out = snap_exec(f, edges, pps, on);
        },
    }
    l
}

impl AppState {
    /// Starts a drag of the clip identified by `layer_id` in mode `mode` at
    /// pointer position `pointer_x`, remembering the clip's timing, and
    /// selects the clip; nothing happens when there is no such layer.
    pub fn begin_clip_drag(&mut self, layer_id: &str, mode: ClipDragMode, pointer_x: i64)
        ensures
            match find_layer(old(self).layers@, layer_id@) {
                Some(i) => {
                    let l = old(self).layers@[i];
                    let cd = final(self).clip_drag;
                    &&& cd.mode == Some(mode)
                    &&& opt_view(cd.layer_id) == Some(layer_id@)
                    &&& cd.start_pointer_x == pointer_x
                    &&& cd.original_start_time == l.start_time
                    &&& cd.original_duration == l.duration
                    &&& cd.original_fade_in == l.fade_in
                    &&& cd.original_fade_out == l.fade_out
                    &&& opt_view(final(self).selected_id) == Some(layer_id@)
                    &&& *final(self) == (AppState {
                        clip_drag: final(self).clip_drag,
                        selected_id: final(self).selected_id,
                        ..*old(self)
                    })
                },
                None => *final(self) == *old(self),
            },
    {
        let key = String::from_str(layer_id);
        proof {
            lemma_find(self.layers@, key@);
        }
        if let Some(i) = position_of(&self.layers, &key) {
            let l = &self.layers[i];
            let cd = ClipDragState {
                mode: Some(mode),
                layer_id: Some(key.clone()),
                start_pointer_x: pointer_x,
                original_start_time: l.start_time,
                original_duration: l.duration,
                original_fade_in: l.fade_in,
                original_fade_out: l.fade_out,
            };
            self.clip_drag = cd;
            self.selected_id = Some(key);
        }
    }

    /// Ends the clip drag in progress.
    pub fn end_clip_drag(&mut self)
        ensures
            final(self).clip_drag.mode is None,
            final(self).clip_drag.layer_id is None,
            final(self).clip_drag.start_pointer_x == 0,
            final(self).clip_drag.original_start_time == 0,
            final(self).clip_drag.original_duration == 0,
            final(self).clip_drag.original_fade_in == 0,
            final(self).clip_drag.original_fade_out == 0,
            *final(self) == (AppState { clip_drag: final(self).clip_drag, ..*old(self) }),
    {
        self.clip_drag = ClipDragState::default();
    }

    /// Follows the pointer, now at `pointer_x` (whole pixels), with the clip
    /// drag in progress at `pixels_per_second`: moves the clip, trims either
    /// end, or sets a fade, from the timing remembered when the drag began,
    /// held within the clip's parent span (unless the parent is a workstream)
    /// and snapped when snapping is on (see `dragged` and `snap_time`).
    pub fn update_clip_drag(&mut self, pointer_x: i64, pixels_per_second: i64)
        requires
            pixels_per_second > 0,
        ensures
            final(self).layers@ == after_drag(
                old(self).layers@,
                old(self).clip_drag,
                old(self).snap_to_grid,
                pointer_x as int,
                pixels_per_second as int,
            ),
            *final(self) == (AppState { layers: final(self).layers, ..*old(self) }),
    {
        if let Some((i, nl)) = self.drag_target(pointer_x, pixels_per_second) {
            self.layers.set(i, nl);
        }
    }

    /// The position and new value of the clip that `update_clip_drag` changes.
    fn drag_target(&self, pointer_x: i64, pixels_per_second: i64) -> (r: Option<(usize, Layer)>)
        requires
            pixels_per_second > 0,
        ensures
            match r {
                Some((i, nl)) => i < self.layers@.len() && after_drag(
                    self.layers@,
                    self.clip_drag,
                    self.snap_to_grid,
                    pointer_x as int,
                    pixels_per_second as int,
                ) == self.layers@.update(i as int, nl),
                None => after_drag(
                    self.layers@,
                    self.clip_drag,
                    self.snap_to_grid,
                    pointer_x as int,
                    pixels_per_second as int,
                ) == self.layers@,
            },
    {
        let mode = match self.clip_drag.mode {
            Some(m) => m,
            None => {
                return None;
            },
        };
        let lid = match &self.clip_drag.layer_id {
            Some(l) => l.clone(),
            None => {
                return None;
            },
        };
        let delta = delta_exec(pointer_x, self.clip_drag.start_pointer_x, pixels_per_second);
        proof {
            lemma_find(self.layers@, lid@);
        }
        let idx = position_of(&self.layers, &lid);
        let i = match idx {
            Some(i) => i,
            None => {
                return None;
            },
        };
        let edges = if self.snap_to_grid {
            let dp = crate::layer::clone_opt_text(&self.layers[i].parent_id);
            sibling_edges_exec(&self.layers, &lid, &dp)
        } else {
            Vec::new()
        };
        assert(edges@ =~= if self.snap_to_grid {
            sibling_edges(self.layers@, lid@, dragged_parent(self.layers@, lid@))
        } else {
            Seq::<i64>::empty()
        });
        let bounds = parent_bounds_exec(&self.layers, i);
        let l = self.layers[i].clone();
        let nl = dragged_exec(l, mode, &self.clip_drag, delta, bounds, &edges, pixels_per_second, self.snap_to_grid);
        Some((i, nl))
    }
}

} // verus!
