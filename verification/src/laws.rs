use vstd::prelude::*;
use crate::drag::{after_drag, drag_delta, dragged, dragged_parent, parent_bounds, sibling_edges, MIN_CLIP_MS};
use crate::edit::{children_end, default_workstream, group_comps_end, placed};
use crate::find::{find_layer, lemma_find, lemma_find_same_ids};
use crate::ids::{decimal, digit_char, layer_id_text, opt_view};
use crate::kinds::{label_text, LayerType};
use crate::layer::Layer;
use crate::playback::{after_sync, expand_all, sync_ends, synced, AUDIO_SYNC_MS};
use crate::query::{covers, desc, desc_prefix, nearest_start_after, next_active};
use crate::state::{
    find_text_from, is_child_of, is_root_workstream, lemma_find_text_from, max_end, texts, toggled, AppState,
    ClipDragMode, ClipDragState, ProjectAsset, MIN_TIMELINE_MS,
};
use crate::time::{max_i, min_i, sat};
use crate::tree::{
    asset_layer, child_ids, expand, find_asset_from, has_asset_prefix, lemma_expand_ids, makes_cycle, orphan_all,
    reparent_post, reparented, strip_asset_prefix, without_id,
};
use crate::chain::{
    acyclic, chain, law_bounded_search_suffices, lemma_chain_compose, lemma_chain_found, lemma_chain_shift,
    lemma_first_hit, lemma_found_short, lemma_same_chain, lemma_same_chain_until, lemma_walk_chain, parent_step,
};

verus! {

// ── identifiers ──

proof fn lemma_decimal_len(n: nat)
    ensures
        decimal(n).len() >= 1,
        n >= 10 ==> decimal(n).len() >= 2,
    decreases n,
{
    if n >= 10 {
        lemma_decimal_len(n / 10);
    }
}

proof fn lemma_decimal_injective(a: nat, b: nat)
    requires
        decimal(a) == decimal(b),
    ensures
        a == b,
    decreases a,
{
    lemma_decimal_len(a);
    lemma_decimal_len(b);
    if a < 10 && b < 10 {
        assert(decimal(a)[0] == digit_char(a));
        assert(decimal(b)[0] == digit_char(b));
    } else if a >= 10 && b >= 10 {
        let da = decimal(a);
        assert(da.last() == digit_char(a % 10));
        assert(decimal(b).last() == digit_char(b % 10));
        assert(da.drop_last() =~= decimal(a / 10));
        assert(decimal(b).drop_last() =~= decimal(b / 10));
        lemma_decimal_injective(a / 10, b / 10);
    }
}

/// Identifiers handed out for different counter values differ: the
/// generator never repeats an identifier before its counter wraps.
pub proof fn law_ids_distinct(a: u64, b: u64)
    requires
        a != b,
    ensures
        layer_id_text(a as nat) != layer_id_text(b as nat),
{
    if layer_id_text(a as nat) == layer_id_text(b as nat) {
        reveal_strlit("layer_");
        assert(layer_id_text(a as nat).skip(6) =~= decimal(a as nat));
        assert(layer_id_text(b as nat).skip(6) =~= decimal(b as nat));
        lemma_decimal_injective(a as nat, b as nat);
    }
}

// ── layer kinds ──

/// No two layer kinds share a display label.
pub proof fn law_labels_distinct(a: LayerType, b: LayerType)
    ensures
        label_text(a) == label_text(b) <==> a == b,
{
    reveal_strlit("Composition");
    reveal_strlit("Workstream");
    reveal_strlit("Spectrum Circle");
    reveal_strlit("Spectrum Mountain");
    reveal_strlit("Particles");
    reveal_strlit("Particle Rings");
    reveal_strlit("Starfield");
    reveal_strlit("Tunnel");
    reveal_strlit("Kaleidoscope");
    reveal_strlit("Laser");
    reveal_strlit("Glitch");
    reveal_strlit("Text");
    reveal_strlit("Image");
    reveal_strlit("Video");
    reveal_strlit("Audio");
    reveal_strlit("Waveform");
    reveal_strlit("Chromatic Aberration");
    reveal_strlit("Color Correction");
    reveal_strlit("Film Grain");
    reveal_strlit("VHS Effect");
    reveal_strlit("Glitch Post");
    reveal_strlit("Sharpening");
    reveal_strlit("Camera Shake");
    if label_text(a) == label_text(b) {
        assert(label_text(a).len() == label_text(b).len());
        assert(label_text(a)[0] == label_text(b)[0]);
    }
}

// ── visibility and expansion ──

/// Toggling a layer's visibility twice leaves the layers as they were.
pub proof fn law_toggle_visibility_twice(s: Seq<Layer>, id: Seq<char>)
    ensures
        toggled(toggled(s, id), id) == s,
{
    let t = toggled(s, id);
    lemma_find(s, id);
    if let Some(i) = find_layer(s, id) {
        assert(t.len() == s.len());
        assert forall|j: int| 0 <= j < s.len() implies #[trigger] s[j].id@ == t[j].id@ by {}
        lemma_find_same_ids(s, t, id, 0);
        assert(toggled(t, id) =~= s);
    }
}

/// Toggling a group flips whether it is expanded, when it is listed at most once.
pub proof fn law_toggle_comp_flips(open: Seq<String>, id: Seq<char>, after: Seq<String>)
    requires
        forall|a: int, b: int| 0 <= a < b < open.len() && open[a]@ == id ==> open[b]@ != id,
        match find_text_from(open, id, 0) {
            Some(p) => after == open.remove(p),
            None => after == open.push(after.last()) && after.last()@ == id,
        },
    ensures
        texts(after).contains(id) == !texts(open).contains(id),
{
    lemma_find_text_from(open, id, 0);
    match find_text_from(open, id, 0) {
        Some(p) => {
            assert(texts(open)[p] == id);
            if texts(after).contains(id) {
                let k = choose|k: int| 0 <= k < texts(after).len() && texts(after)[k] == id;
                if k < p {
                    assert(open[k]@ == id);
                } else {
                    assert(open[k + 1]@ == id);
                }
            }
        },
        None => {
            assert(texts(after)[after.len() - 1] == id);
            if texts(open).contains(id) {
                let k = choose|k: int| 0 <= k < texts(open).len() && texts(open)[k] == id;
                assert(open[k]@ == id);
            }
        },
    }
}

// ── timeline length and playhead ──

proof fn lemma_max_end_bounds(s: Seq<Layer>)
    ensures
        max_end(s) >= 0,
        forall|j: int| 0 <= j < s.len() ==> max_end(s) >= sat(#[trigger] s[j].start_time + s[j].duration),
    decreases s.len(),
{
    if s.len() > 0 {
        lemma_max_end_bounds(s.drop_last());
        assert forall|j: int| 0 <= j < s.len() implies max_end(s) >= sat(#[trigger] s[j].start_time + s[j].duration) by {
            if j < s.len() - 1 {
                assert(s.drop_last()[j] == s[j]);
            }
        }
    }
}

/// The timeline lasts at least five seconds and at least until every layer ends.
pub proof fn law_timeline_covers_layers(s: Seq<Layer>)
    ensures
        max_i(max_end(s), MIN_TIMELINE_MS as int) >= MIN_TIMELINE_MS,
        forall|j: int| 0 <= j < s.len() ==> max_i(max_end(s), MIN_TIMELINE_MS as int) >= sat(
            #[trigger] s[j].start_time + s[j].duration,
        ),
{
    lemma_max_end_bounds(s);
}

/// Seeking leaves the playhead on the timeline: between zero and its length.
pub proof fn law_seek_within_timeline(s: Seq<Layer>, time: int)
    ensures
        0 <= min_i(max_i(time, 0), max_i(max_end(s), MIN_TIMELINE_MS as int)) <= max_i(
            max_end(s),
            MIN_TIMELINE_MS as int,
        ),
{
    lemma_max_end_bounds(s);
}

// ── playback across gaps ──

proof fn lemma_nearest(w: Seq<Layer>, t: int)
    ensures
        nearest_start_after(w, t) < i64::MAX ==> t < nearest_start_after(w, t) && exists|k: int|
            0 <= k < w.len() && #[trigger] w[k].start_time == nearest_start_after(w, t),
        forall|k: int|
            0 <= k < w.len() && #[trigger] w[k].start_time > t ==> w[k].start_time >= nearest_start_after(w, t),
    decreases w.len(),
{
    if w.len() > 0 {
        let d = w.drop_last();
        lemma_nearest(d, t);
        assert forall|k: int| 0 <= k < w.len() && #[trigger] w[k].start_time > t implies w[k].start_time
            >= nearest_start_after(w, t) by {
            if k < w.len() - 1 {
                assert(d[k] == w[k]);
            }
        }
        if nearest_start_after(w, t) < i64::MAX {
            if nearest_start_after(w, t) == w.last().start_time {
                assert(w[w.len() - 1].start_time == nearest_start_after(w, t));
            } else {
                let k = choose|k: int| 0 <= k < d.len() && #[trigger] d[k].start_time == nearest_start_after(d, t);
                assert(w[k] == d[k]);
            }
        }
    }
}

/// Playback never moves backwards across a gap: the next active time is
/// `from` itself when a root workstream covers it, and otherwise either
/// `from` or the start of a root workstream after it with no root
/// workstream starting in between.
pub proof fn law_next_active_time(s: Seq<Layer>, from: int)
    ensures
        ({
            let w = s.filter(|l: Layer| is_root_workstream(l));
            let r = next_active(s, from);
            &&& (exists|k: int| 0 <= k < w.len() && covers(#[trigger] w[k], from)) ==> r == from
            &&& r >= from
            &&& r != from ==> exists|k: int| 0 <= k < w.len() && #[trigger] w[k].start_time == r
            &&& forall|k: int| 0 <= k < w.len() && from < #[trigger] w[k].start_time < r ==> false
        }),
{
    let w = s.filter(|l: Layer| is_root_workstream(l));
    lemma_nearest(w, from);
}

// ── adding layers ──

proof fn lemma_children_end(s: Seq<Layer>, pid: Seq<char>, init: int)
    ensures
        children_end(s, pid, init) >= init,
        forall|j: int| 0 <= j < s.len() && is_child_of(#[trigger] s[j], pid) ==> children_end(s, pid, init) >= sat(
            s[j].start_time + s[j].duration,
        ),
    decreases s.len(),
{
    if s.len() > 0 {
        let d = s.drop_last();
        lemma_children_end(d, pid, init);
        assert forall|j: int| 0 <= j < s.len() && is_child_of(#[trigger] s[j], pid) implies children_end(s, pid, init)
            >= sat(s[j].start_time + s[j].duration) by {
            if j < s.len() - 1 {
                assert(d[j] == s[j]);
            }
        }
    }
}

/// A layer added under a composition takes the composition's span; one
/// added under a workstream starts no earlier than the workstream and no
/// earlier than any of the workstream's children ends.
pub proof fn law_add_layer_placement(s: Seq<Layer>, layer: Layer, pi: int)
    requires
        layer.parent_id matches Some(pid) && find_layer(s, pid@) == Some(pi),
    ensures
        s[pi].layer_type == LayerType::Composition ==> placed(s, layer).start_time == s[pi].start_time
            && placed(s, layer).duration == s[pi].duration,
        s[pi].layer_type == LayerType::Workstream ==> placed(s, layer).start_time >= s[pi].start_time && forall|j: int|
            0 <= j < s.len() && is_child_of(#[trigger] s[j], s[pi].id@) ==> placed(s, layer).start_time >= sat(
                s[j].start_time + s[j].duration,
            ),
{
    lemma_find(s, layer.parent_id.unwrap()@);
    lemma_children_end(s, s[pi].id@, s[pi].start_time as int);
    lemma_children_end_bounded(s, s[pi].id@, s[pi].start_time as int);
}

/// A new composition is placed after every composition already in its
/// group: it starts no earlier than time zero and no earlier than any of
/// them ends.
pub proof fn law_new_composition_follows_group(s: Seq<Layer>, target: Option<Seq<char>>)
    ensures
        group_comps_end(s, target) >= 0,
        forall|j: int|
            0 <= j < s.len() && s[j].layer_type == LayerType::Composition && opt_view(s[j].parent_id) == target
                ==> group_comps_end(s, target) >= sat(#[trigger] s[j].start_time + s[j].duration),
    decreases s.len(),
{
    if s.len() > 0 {
        let d = s.drop_last();
        law_new_composition_follows_group(d, target);
        assert forall|j: int|
            0 <= j < s.len() && s[j].layer_type == LayerType::Composition && opt_view(s[j].parent_id) == target
            implies group_comps_end(s, target) >= sat(#[trigger] s[j].start_time + s[j].duration) by {
            if j < s.len() - 1 {
                assert(d[j] == s[j]);
            }
        }
    }
}

proof fn lemma_children_end_bounded(s: Seq<Layer>, pid: Seq<char>, init: int)
    requires
        i64::MIN <= init <= i64::MAX,
    ensures
        i64::MIN <= children_end(s, pid, init) <= i64::MAX,
    decreases s.len(),
{
    if s.len() > 0 {
        lemma_children_end_bounded(s.drop_last(), pid, init);
    }
}

// ── removing layers ──

pub open spec fn unique_ids(s: Seq<Layer>) -> bool {
    forall|a: int, b: int| 0 <= a < b < s.len() ==> s[a].id@ != s[b].id@
}

proof fn lemma_orphan_all_frame(s: Seq<Layer>, cs: Seq<Seq<char>>)
    ensures
        orphan_all(s, cs).len() == s.len(),
        forall|j: int| 0 <= j < s.len() ==> #[trigger] orphan_all(s, cs)[j].id == s[j].id,
        forall|j: int|
            0 <= j < s.len() ==> (#[trigger] orphan_all(s, cs)[j]).parent_id == s[j].parent_id
                || orphan_all(s, cs)[j].parent_id is None,
        forall|j: int|
            0 <= j < s.len() && cs.contains(s[j].id@) && unique_ids(s) ==> (#[trigger] orphan_all(s, cs)[j]).parent_id is None,
    decreases cs.len(),
{
    if cs.len() > 0 {
        let d = cs.drop_last();
        lemma_orphan_all_frame(s, d);
        let t = orphan_all(s, d);
        lemma_find(t, cs.last());
        assert forall|j: int|
            0 <= j < s.len() && cs.contains(s[j].id@) && unique_ids(s) implies (#[trigger] orphan_all(s, cs)[j]).parent_id is None by {
            let k = choose|k: int| 0 <= k < cs.len() && cs[k] == s[j].id@;
            if k < cs.len() - 1 {
                assert(d[k] == cs[k]);
                assert(d.contains(s[j].id@));
            } else {
                if let Some(i) = find_layer(t, cs.last()) {
                    if i != j {
                        assert(t[i].id@ == s[i].id@);
                        assert(s[i].id@ == s[j].id@);
                        if i < j {
                            assert(s[i].id@ != s[j].id@);
                        } else {
                            assert(s[j].id@ != s[i].id@);
                        }
                    }
                } else {
                    assert(t[j].id@ == cs.last());
                }
            }
        }
    }
}

/// After a layer is removed no layer carries its identifier, and (when
/// identifiers are unique) no layer is left pointing at it as its parent.
pub proof fn law_remove_leaves_no_trace(s: Seq<Layer>, id: Seq<char>)
    ensures
        ({
            let r = without_id(orphan_all(s, child_ids(s, id)), id);
            &&& forall|j: int| 0 <= j < r.len() ==> #[trigger] r[j].id@ != id
            &&& unique_ids(s) ==> forall|j: int| 0 <= j < r.len() ==> !is_child_of(#[trigger] r[j], id)
        }),
{
    let cs = child_ids(s, id);
    let o = orphan_all(s, cs);
    let pk = crate::tree::other_than(id);
    o.filter_lemma(pk);
    lemma_orphan_all_frame(s, cs);
    let r = without_id(o, id);
    assert forall|j: int| 0 <= j < r.len() implies #[trigger] r[j].id@ != id by {
        assert(pk(r[j]));
    }
    if unique_ids(s) {
        assert forall|j: int| 0 <= j < r.len() implies !is_child_of(#[trigger] r[j], id) by {
            assert(r == o.filter(pk));
            assert(r.contains(r[j]));
            o.lemma_filter_contains_rev(pk, r[j]);
            assert(o.contains(r[j]));
            let k = choose|k: int| 0 <= k < o.len() && o[k] == r[j];
            if is_child_of(r[j], id) {
                assert(o[k].parent_id is Some);
                assert(o[k].parent_id == s[k].parent_id);
                let pc = crate::tree::child_of(id);
                s.filter_lemma(pc);
                assert(s.filter(pc).contains(s[k]));
                let q = choose|q: int| 0 <= q < s.filter(pc).len() && s.filter(pc)[q] == s[k];
                assert(cs[q] == s[k].id@);
                assert(cs.contains(s[k].id@));
            }
        }
    }
}

// ── splitting ──

/// The two parts of a split tile the span that was cut: the first keeps its
/// start and ends at the cut, the second starts at the cut and ends where
/// the whole did (for spans that fit the time range).
pub proof fn law_split_tiles(o: Layer, time: i64)
    requires
        o.start_time < time,
        time < o.start_time + o.duration <= i64::MAX,
    ensures
        ({
            let first = sat(time - o.start_time);
            let second = sat(o.duration - first);
            &&& o.start_time + first == time
            &&& time + second == o.start_time + o.duration
        }),
{
}

// ── dragging clips ──


/// A left trim that takes effect keeps the clip's end where it was when
/// the drag began; a right trim never leaves a clip shorter than a tenth of
/// a second; a move with snapping off keeps the clip inside its parent's span.
pub proof fn law_drag_trims(
    l: Layer,
    cd: ClipDragState,
    delta: int,
    bounds: Option<(int, int)>,
    edges: Seq<i64>,
    pps: int,
    on: bool,
)
    requires
        i64::MIN <= cd.original_start_time + cd.original_duration <= i64::MAX,
        forall|k: int| 0 <= k < edges.len() ==> edges[k] >= 0,
        bounds matches Some((ps, pe)) ==> i64::MIN <= ps <= i64::MAX && i64::MIN <= pe <= i64::MAX,
    ensures
        ({
            let t = dragged(l, ClipDragMode::TrimLeft, cd, delta, bounds, edges, pps, on);
            t != l ==> t.start_time + t.duration == cd.original_start_time + cd.original_duration
        }),
        dragged(l, ClipDragMode::TrimRight, cd, delta, bounds, edges, pps, on).duration >= MIN_CLIP_MS,
        ({
            let m = dragged(l, ClipDragMode::Move, cd, delta, bounds, edges, pps, false);
            bounds matches Some((ps, pe)) ==> ps <= m.start_time <= max_i(sat(pe - l.duration), ps)
        }),
{
    let ns = max_i(sat(cd.original_start_time + delta), 0);
    let ns2 = match bounds {
        Some((ps, pe)) => max_i(ns, ps),
        None => ns,
    };
    lemma_first_near_in(edges, ns2, pps, 0);
    let nd = max_i(sat(cd.original_duration + delta), MIN_CLIP_MS as int);
    let nd2 = match bounds {
        Some((ps, pe)) => if sat(l.start_time + nd) > pe {
            max_i(sat(pe - l.start_time), MIN_CLIP_MS as int)
        } else {
            nd
        },
        None => nd,
    };
    lemma_first_near_in(edges, nd2, pps, 0);
}

/// Following the pointer changes only the dragged clip, and of it only what
/// the drag's mode moves: the start for a move, the start and length for a
/// left trim, the length for a right trim, a fade for a fade drag. With no
/// drag in progress, or when the dragged layer is gone, nothing changes.
pub proof fn law_drag_frame(s: Seq<Layer>, cd: ClipDragState, snap_on: bool, pointer_x: int, pps: int)
    ensures
        ({
            let r = after_drag(s, cd, snap_on, pointer_x, pps);
            &&& r.len() == s.len()
            &&& match (cd.mode, cd.layer_id) {
                (Some(mode), Some(lid)) => match find_layer(s, lid@) {
                    Some(i) => {
                        &&& forall|j: int| 0 <= j < s.len() && j != i ==> #[trigger] r[j] == s[j]
                        &&& r[i] == match mode {
                            ClipDragMode::Move => Layer { start_time: r[i].start_time, ..s[i] },
                            ClipDragMode::TrimLeft => Layer {
                                start_time: r[i].start_time,
                                duration: r[i].duration,
                                ..s[i]
                            },
                            ClipDragMode::TrimRight => Layer { duration: r[i].duration, ..s[i] },
                            ClipDragMode::FadeIn => Layer { fade_in: r[i].fade_in, ..s[i] },
                            ClipDragMode::FadeOut => Layer { fade_out: r[i].fade_out, ..s[i] },
                        }
                    },
                    None => r == s,
                },
                _ => r == s,
            }
        }),
{
    if let (Some(mode), Some(lid)) = (cd.mode, cd.layer_id) {
        lemma_find(s, lid@);
    }
}

/// Layers other than those identified by `lid` give the same neighbour edges.
proof fn lemma_sibling_edges_frame(s: Seq<Layer>, t: Seq<Layer>, lid: Seq<char>, dp: Option<Seq<char>>)
    requires
        s.len() == t.len(),
        forall|j: int| 0 <= j < s.len() ==> #[trigger] t[j] == s[j] || (s[j].id@ == lid && t[j].id@ == lid),
    ensures
        sibling_edges(t, lid, dp) == sibling_edges(s, lid, dp),
    decreases s.len(),
{
    if s.len() > 0 {
        let (sd, td) = (s.drop_last(), t.drop_last());
        assert forall|j: int| 0 <= j < sd.len() implies #[trigger] td[j] == sd[j] || (sd[j].id@ == lid && td[j].id@
            == lid) by {
            assert(td[j] == t[j] && sd[j] == s[j]);
        }
        lemma_sibling_edges_frame(sd, td, lid, dp);
        assert(t[t.len() - 1] == s[s.len() - 1] || (s[s.len() - 1].id@ == lid && t[t.len() - 1].id@ == lid));
    }
}

/// A dragged clip dragged again by the same amount stays as it is.
proof fn lemma_dragged_idempotent(
    l: Layer,
    mode: ClipDragMode,
    cd: ClipDragState,
    delta: int,
    b: Option<(int, int)>,
    edges: Seq<i64>,
    pps: int,
    on: bool,
)
    ensures
        dragged(dragged(l, mode, cd, delta, b, edges, pps, on), mode, cd, delta, b, edges, pps, on) == dragged(
            l,
            mode,
            cd,
            delta,
            b,
            edges,
            pps,
            on,
        ),
{
}

/// Following the pointer to the same place twice changes nothing the second
/// time: every value a drag writes is computed from the timing remembered
/// when the drag began and from values the drag does not write, when the
/// dragged layer is not its own parent.
pub proof fn law_drag_idempotent(s: Seq<Layer>, cd: ClipDragState, snap_on: bool, pointer_x: int, pps: int)
    requires
        forall|j: int| 0 <= j < s.len() ==> opt_view(#[trigger] s[j].parent_id) != Some(s[j].id@),
    ensures
        after_drag(after_drag(s, cd, snap_on, pointer_x, pps), cd, snap_on, pointer_x, pps) == after_drag(
            s,
            cd,
            snap_on,
            pointer_x,
            pps,
        ),
{
    if let (Some(mode), Some(lid)) = (cd.mode, cd.layer_id) {
        lemma_find(s, lid@);
        if let Some(i) = find_layer(s, lid@) {
            let edges = if snap_on {
                sibling_edges(s, lid@, dragged_parent(s, lid@))
            } else {
                Seq::empty()
            };
            let delta = drag_delta(pointer_x - cd.start_pointer_x, pps);
            let b = parent_bounds(s, s[i]);
            let d = dragged(s[i], mode, cd, delta, b, edges, pps, snap_on);
            let r = s.update(i, d);
            assert(after_drag(s, cd, snap_on, pointer_x, pps) == r);
            lemma_dragged_idempotent(s[i], mode, cd, delta, b, edges, pps, snap_on);
            assert(d.id == s[i].id && d.parent_id == s[i].parent_id);
            assert forall|j: int| 0 <= j < s.len() implies #[trigger] s[j].id@ == r[j].id@ by {}
            lemma_find_same_ids(s, r, lid@, 0);
            assert(dragged_parent(r, lid@) == dragged_parent(s, lid@));
            assert forall|j: int| 0 <= j < s.len() implies #[trigger] r[j] == s[j] || (s[j].id@ == lid@ && r[j].id@
                == lid@) by {}
            lemma_sibling_edges_frame(s, r, lid@, dragged_parent(s, lid@));
            match s[i].parent_id {
                Some(pid) => {
                    lemma_find_same_ids(s, r, pid@, 0);
                    lemma_find(s, pid@);
                    if let Some(j) = find_layer(s, pid@) {
                        assert(opt_view(s[i].parent_id) != Some(s[i].id@));
                        assert(r[j] == s[j]);
                    }
                },
                None => {},
            }
            assert(parent_bounds(r, r[i]) == b);
            assert(after_drag(r, cd, snap_on, pointer_x, pps) == r.update(i, dragged(r[i], mode, cd, delta, b, edges, pps, snap_on)));
            assert(r.update(i, d) =~= r);
        }
    }
}

proof fn lemma_first_near_in(edges: Seq<i64>, t: int, pps: int, k: int)
    requires
        0 <= k,
    ensures
        crate::drag::first_near(edges, t, pps, k) matches Some(e) ==> exists|j: int| 0 <= j < edges.len() && edges[j] == e,
    decreases edges.len() - k,
{
    if k < edges.len() && !crate::drag::near(t, edges[k] as int, pps) {
        lemma_first_near_in(edges, t, pps, k + 1);
    }
}

// ── moving layers between parents ──

/// Moving a layer between parents never creates a cycle: when no layer is
/// its own ancestor before a move that `reparent` carries out, none is after.
pub proof fn law_reparent_keeps_tree_acyclic(s: Seq<Layer>, layer_id: Seq<char>, new_parent: Option<String>)
    requires
        acyclic(s),
        !makes_cycle(s, layer_id, new_parent),
    ensures
        acyclic(reparented(s, layer_id, new_parent)),
{
    lemma_find(s, layer_id);
    match find_layer(s, layer_id) {
        None => {},
        Some(i) => {
            let s1 = s.update(i, Layer { parent_id: new_parent, ..s[i] });
            let r = reparented(s, layer_id, new_parent);
            assert forall|j: int| 0 <= j < s.len() implies #[trigger] s1[j].id@ == s[j].id@ by {}
            match new_parent {
                Some(p) => {
                    let t = sat(s[i].start_time + s[i].duration);
                    lemma_expand_ids(s1, p@, t, s.len());
                },
                None => {},
            }
            assert forall|j: int| 0 <= j < s1.len() implies #[trigger] r[j].id@ == s1[j].id@ && r[j].parent_id
                == s1[j].parent_id by {
                match new_parent {
                    Some(p) => {
                        let t = sat(s[i].start_time + s[i].duration);
                        assert(expand(s1, p@, t, s.len())[j].id == s1[j].id);
                    },
                    None => {},
                }
            }
            assert forall|y: Seq<char>| #[trigger] parent_step(r, y) == parent_step(s1, y) by {
                lemma_find_same_ids(s1, r, y, 0);
                lemma_find(s1, y);
                if let Some(k) = find_layer(s1, y) {
                    assert(r[k].parent_id == s1[k].parent_id);
                }
            }
            assert forall|y: Seq<char>| y != layer_id implies #[trigger] parent_step(r, y) == parent_step(s, y) by {
                lemma_find_same_ids(s, s1, y, 0);
                lemma_find(s, y);
                if let Some(k) = find_layer(s, y) {
                    assert(k != i);
                }
            }
            lemma_find_same_ids(s, s1, layer_id, 0);
            assert(parent_step(r, layer_id) == opt_view(new_parent));
            assert forall|x: Seq<char>, m: nat| m >= 1 implies #[trigger] chain(r, x, m) != Some(x) by {
                if chain(r, x, m) == Some(x) {
                    lemma_no_cycle_after_move(s, r, layer_id, new_parent, x, m);
                }
            }
        },
    }
}

/// A search after appending `l` finds what it found before, else the new layer.
proof fn lemma_find_push(s: Seq<Layer>, l: Layer, y: Seq<char>)
    ensures
        find_layer(s.push(l), y) == match find_layer(s, y) {
            Some(i) => Some(i),
            None => if l.id@ == y {
                Some(s.len() as int)
            } else {
                None
            },
        },
{
    let r = s.push(l);
    lemma_find(s, y);
    lemma_find(r, y);
    match find_layer(s, y) {
        Some(i) => {
            assert(r[i] == s[i]);
            let k = find_layer(r, y).unwrap();
            if k < i {
                assert(r[k] == s[k]);
            }
        },
        None => {
            if let Some(k) = find_layer(r, y) {
                if k < s.len() {
                    assert(r[k] == s[k]);
                }
            } else {
                assert(r[s.len() as int] == l);
            }
        },
    }
}

/// Dropping an asset onto the tree never creates a cycle: when no layer is
/// its own ancestor before, none is after the new layer is appended, given
/// that the new layer's identifier is not its own parent and that no
/// existing layer already names it as parent.
pub proof fn law_asset_drop_keeps_tree_acyclic(
    s: Seq<Layer>,
    asset: ProjectAsset,
    id: String,
    new_parent: Option<String>,
)
    requires
        acyclic(s),
        opt_view(new_parent) != Some(id@),
        forall|j: int| 0 <= j < s.len() ==> opt_view(#[trigger] s[j].parent_id) != Some(id@),
    ensures
        acyclic(s.push(asset_layer(asset, id, new_parent))),
{
    let l = asset_layer(asset, id, new_parent);
    let r = s.push(l);
    assert forall|y: Seq<char>| y != id@ implies #[trigger] parent_step(r, y) == parent_step(s, y) by {
        lemma_find_push(s, l, y);
        lemma_find(s, y);
        if let Some(i) = find_layer(s, y) {
            assert(r[i] == s[i]);
        }
    }
    assert forall|y: Seq<char>| #[trigger] parent_step(s, y) != Some(id@) by {
        lemma_find(s, y);
        if let Some(i) = find_layer(s, y) {
            assert(opt_view(s[i].parent_id) != Some(id@));
        }
    }
    lemma_find_push(s, l, id@);
    lemma_find(s, id@);
    if find_layer(s, id@) is Some {
        let i = find_layer(s, id@).unwrap();
        assert(r[i] == s[i]);
        assert forall|y: Seq<char>| #[trigger] parent_step(r, y) == parent_step(s, y) by {
            if y != id@ {
                assert(parent_step(r, y) == parent_step(s, y));
            }
        }
        assert forall|x: Seq<char>, m: nat| m >= 1 implies #[trigger] chain(r, x, m) != Some(x) by {
            lemma_same_chain(s, r, x, m);
        }
    } else {
        assert(r[s.len() as int] == l);
        assert(parent_step(r, id@) == opt_view(new_parent));
        assert forall|x: Seq<char>, m: nat| m >= 1 implies #[trigger] chain(r, x, m) != Some(x) by {
            if chain(r, x, m) == Some(x) {
                lemma_cycle_through_new(s, r, id@, opt_view(new_parent), x, m);
            }
        }
    }
}

/// `reparent` never creates a cycle: when no layer is its own ancestor
/// before, none is after, whether it moves a layer or drops an asset. For a
/// drop, the identifier the new layer receives must be fresh as a parent:
/// neither the drop target nor any existing layer's parent.
pub proof fn law_reparent_state_keeps_tree_acyclic(
    o: AppState,
    n: AppState,
    layer_id: Seq<char>,
    new_parent: Option<String>,
)
    requires
        acyclic(o.layers@),
        reparent_post(o, n, layer_id, new_parent),
        has_asset_prefix(layer_id) ==> opt_view(new_parent) != Some(layer_id_text(o.next_layer_id as nat)),
        has_asset_prefix(layer_id) ==> forall|j: int|
            0 <= j < o.layers@.len() ==> opt_view(#[trigger] o.layers@[j].parent_id) != Some(
                layer_id_text(o.next_layer_id as nat),
            ),
    ensures
        acyclic(n.layers@),
{
    if has_asset_prefix(layer_id) {
        if let Some(k) = find_asset_from(o.project_assets@, strip_asset_prefix(layer_id), 0) {
            let l = n.layers@.last();
            law_asset_drop_keeps_tree_acyclic(o.layers@, o.project_assets@[k], l.id, new_parent);
        }
    } else if !makes_cycle(o.layers@, layer_id, new_parent) {
        law_reparent_keeps_tree_acyclic(o.layers@, layer_id, new_parent);
    }
}

/// In `r`, which steps like `s` everywhere but at `nid`, whose step leads to
/// `np`, no chain returns to its start when `nid` is absent from `s`'s
/// chains of parents and `np` is not `nid`.
proof fn lemma_cycle_through_new(
    s: Seq<Layer>,
    r: Seq<Layer>,
    nid: Seq<char>,
    np: Option<Seq<char>>,
    x: Seq<char>,
    m: nat,
)
    requires
        acyclic(s),
        np != Some(nid),
        forall|y: Seq<char>| y != nid ==> #[trigger] parent_step(r, y) == parent_step(s, y),
        forall|y: Seq<char>| #[trigger] parent_step(s, y) != Some(nid),
        parent_step(r, nid) == np,
        m >= 1,
    ensures
        chain(r, x, m) != Some(x),
{
    if chain(r, x, m) == Some(x) {
        if exists|j: nat| j < m && #[trigger] chain(r, x, j) == Some(nid) {
            let j = choose|j: nat| j < m && #[trigger] chain(r, x, j) == Some(nid);
            lemma_chain_compose(r, x, j, nid, (m - j) as nat);
            lemma_chain_compose(r, nid, (m - j) as nat, x, j);
            assert(chain(r, nid, m) == Some(nid));
            lemma_chain_shift(r, nid, (m - 1) as nat);
            let p = np.unwrap();
            let j2 = lemma_first_hit(r, p, nid, (m - 1) as nat);
            lemma_same_chain_until(r, s, nid, p, j2);
            assert(chain(s, p, j2) == Some(nid));
            assert(j2 >= 1);
            let z = chain(s, p, (j2 - 1) as nat);
            assert(chain(s, p, j2) == match z {
                Some(w) => parent_step(s, w),
                None => None,
            });
        } else {
            lemma_same_chain_until(r, s, nid, x, m);
        }
    }
}

/// The step of `lemma_no_cycle_after_move` that starts at the moved layer.
proof fn lemma_moved_not_on_cycle(s: Seq<Layer>, r: Seq<Layer>, lid: Seq<char>, new_parent: Option<String>, m: nat)
    requires
        acyclic(s),
        !makes_cycle(s, lid, new_parent),
        forall|y: Seq<char>| y != lid ==> #[trigger] parent_step(r, y) == parent_step(s, y),
        parent_step(r, lid) == opt_view(new_parent),
        m >= 1,
    ensures
        chain(r, lid, m) != Some(lid),
{
    lemma_chain_shift(r, lid, (m - 1) as nat);
    if chain(r, lid, m) == Some(lid) {
        let p = new_parent.unwrap();
        assert(p@ != lid);
        let j2 = lemma_first_hit(r, p@, lid, (m - 1) as nat);
        lemma_same_chain_until(r, s, lid, p@, j2);
        assert(chain(s, p@, j2) == Some(lid));
        assert(j2 >= 1);
        lemma_walk_chain(s, p@, lid, j2);
        law_bounded_search_suffices(s, p@, lid, j2);
    }
}

/// No cycle passes through any identifier after a move that `reparent` carries out.
proof fn lemma_no_cycle_after_move(
    s: Seq<Layer>,
    r: Seq<Layer>,
    lid: Seq<char>,
    new_parent: Option<String>,
    x: Seq<char>,
    m: nat,
)
    requires
        acyclic(s),
        !makes_cycle(s, lid, new_parent),
        forall|y: Seq<char>| y != lid ==> #[trigger] parent_step(r, y) == parent_step(s, y),
        parent_step(r, lid) == opt_view(new_parent),
        m >= 1,
    ensures
        chain(r, x, m) != Some(x),
{
    if chain(r, x, m) == Some(x) {
        if exists|j: nat| j < m && #[trigger] chain(s, x, j) == Some(lid) {
            let j = choose|j: nat| j < m && #[trigger] chain(s, x, j) == Some(lid);
            let j0 = lemma_first_hit(s, x, lid, j);
            lemma_same_chain_until(s, r, lid, x, j0);
            assert(chain(r, x, j0) == Some(lid));
            lemma_chain_compose(r, x, j0, lid, (m - j0) as nat);
            lemma_chain_compose(r, lid, (m - j0) as nat, x, j0);
            assert(chain(r, lid, m) == Some(lid));
            lemma_moved_not_on_cycle(s, r, lid, new_parent, m);
        } else {
            lemma_same_chain_until(s, r, lid, x, m);
        }
    }
}

// ── descendants ──

proof fn lemma_find_unique(s: Seq<Layer>, j: int)
    requires
        unique_ids(s),
        0 <= j < s.len(),
    ensures
        find_layer(s, s[j].id@) == Some(j),
{
    lemma_find(s, s[j].id@);
    let i = find_layer(s, s[j].id@).unwrap();
    if i != j {
        assert(s[i].id@ == s[j].id@);
    }
}

proof fn lemma_desc_fuel(s: Seq<Layer>, y: Seq<char>, f: nat, g: nat)
    requires
        unique_ids(s),
        f <= g,
        forall|j: int| 0 <= j < s.len() ==> #[trigger] chain(s, s[j].id@, f + 1) != Some(y),
    ensures
        desc(s, y, f) == desc(s, y, g),
    decreases f, s.len() + 1,
{
    lemma_desc_prefix_fuel(s, y, f, g, s.len());
}

proof fn lemma_desc_prefix_fuel(s: Seq<Layer>, y: Seq<char>, f: nat, g: nat, k: nat)
    requires
        unique_ids(s),
        f <= g,
        k <= s.len(),
        forall|j: int| 0 <= j < s.len() ==> #[trigger] chain(s, s[j].id@, f + 1) != Some(y),
    ensures
        desc_prefix(s, y, f, k) == desc_prefix(s, y, g, k),
    decreases f, k,
{
    if k > 0 {
        lemma_desc_prefix_fuel(s, y, f, g, (k - 1) as nat);
        let l = s[k - 1];
        if is_child_of(l, y) {
            lemma_find_unique(s, k - 1);
            lemma_chain_shift(s, l.id@, 0);
            assert(chain(s, l.id@, 0) == Some(l.id@));
            assert(chain(s, l.id@, 1) == Some(y));
            assert(f > 0);
            assert forall|j: int| 0 <= j < s.len() implies #[trigger] chain(s, s[j].id@, (f - 1) as nat + 1) != Some(
                l.id@,
            ) by {
                if chain(s, s[j].id@, f) == Some(l.id@) {
                    lemma_chain_compose(s, s[j].id@, f, l.id@, 1);
                    assert(chain(s, s[j].id@, f + 1) == Some(y));
                }
            }
            lemma_desc_fuel(s, l.id@, (f - 1) as nat, (g - 1) as nat);
        }
    }
}

/// In a tree without cycles whose identifiers are unique, descending as many
/// levels as there are layers finds every descendant: a deeper search
/// returns the same layers in the same order.
pub proof fn law_descendants_depth_suffices(s: Seq<Layer>, pid: Seq<char>, f: nat)
    requires
        acyclic(s),
        unique_ids(s),
        f >= s.len(),
    ensures
        desc(s, pid, f) == desc(s, pid, s.len()),
{
    assert forall|j: int| 0 <= j < s.len() implies #[trigger] chain(s, s[j].id@, s.len() + 1) != Some(pid) by {
        if chain(s, s[j].id@, s.len() + 1) == Some(pid) {
            lemma_chain_found(s, s[j].id@, s.len(), s.len() + 1);
            lemma_found_short(s, s[j].id@, s.len());
        }
    }
    lemma_desc_fuel(s, pid, s.len(), f);
}

} // verus!

verus! {

// ── what each operation is for ──

/// A right trim of a clip with no parent span to stay within and snapping
/// off keeps the clip's start and makes it last what it lasted when the drag
/// began plus the pointer's time, but never less than a tenth of a second:
/// the clip's end follows the pointer.
pub proof fn law_trim_right_follows_pointer(
    s: Seq<Layer>,
    cd: ClipDragState,
    lid: String,
    pointer_x: int,
    pps: int,
)
    requires
        cd.mode == Some(ClipDragMode::TrimRight),
        cd.layer_id == Some(lid),
        find_layer(s, lid@) is Some,
        parent_bounds(s, s[find_layer(s, lid@).unwrap()]) is None,
    ensures
        ({
            let i = find_layer(s, lid@).unwrap();
            let r = after_drag(s, cd, false, pointer_x, pps);
            let delta = drag_delta(pointer_x - cd.start_pointer_x, pps);
            &&& r[i].start_time == s[i].start_time
            &&& r[i].duration == max_i(sat(cd.original_duration + delta), MIN_CLIP_MS as int)
            &&& (i64::MIN <= cd.original_duration + delta <= i64::MAX && cd.original_duration + delta
                >= MIN_CLIP_MS) ==> r[i].start_time + r[i].duration == s[i].start_time + cd.original_duration
                + delta
        }),
{
    lemma_find(s, lid@);
}

/// The index of the first element of `s` that `p` accepts is where the
/// filtered sequence begins.
proof fn lemma_filter_first(s: Seq<Layer>, p: spec_fn(Layer) -> bool)
    ensures
        (forall|j: int| 0 <= j < s.len() ==> !p(#[trigger] s[j])) ==> s.filter(p).len() == 0,
        (exists|j: int| 0 <= j < s.len() && p(#[trigger] s[j])) ==> exists|j: int|
            0 <= j < s.len() && p(#[trigger] s[j]) && s.filter(p).len() > 0 && s.filter(p)[0] == s[j] && (forall|k: int|
                0 <= k < j ==> !p(#[trigger] s[k])),
    decreases s.len(),
{
    reveal_with_fuel(Seq::<_>::filter, 1);
    if s.len() > 0 {
        let d = s.drop_last();
        lemma_filter_first(d, p);
        assert forall|j: int| 0 <= j < d.len() implies #[trigger] d[j] == s[j] by {}
        if exists|j: int| 0 <= j < d.len() && p(#[trigger] d[j]) {
            let j = choose|j: int|
                0 <= j < d.len() && p(#[trigger] d[j]) && d.filter(p).len() > 0 && d.filter(p)[0] == d[j] && (forall|
                    k: int,
                | 0 <= k < j ==> !p(#[trigger] d[k]));
            assert(s.filter(p)[0] == s[j]);
            assert forall|k: int| 0 <= k < j implies !p(#[trigger] s[k]) by {
                assert(d[k] == s[k]);
            }
        } else {
            assert forall|k: int| 0 <= k < d.len() implies !p(#[trigger] s[k]) by {
                assert(d[k] == s[k]);
            }
            if p(s.last()) {
                assert(s.filter(p)[0] == s[s.len() - 1]);
            }
        }
    }
}

/// A composition added with no workstream named goes under the first root
/// workstream in layer order: one that is a root workstream, with none
/// before it; with no root workstream it goes to the root.
pub proof fn law_default_workstream_is_first(s: Seq<Layer>)
    ensures
        (forall|j: int| 0 <= j < s.len() ==> !is_root_workstream(#[trigger] s[j])) ==> default_workstream(s) is None,
        (exists|j: int| 0 <= j < s.len() && is_root_workstream(#[trigger] s[j])) ==> exists|j: int|
            0 <= j < s.len() && is_root_workstream(#[trigger] s[j]) && default_workstream(s) == Some(s[j].id) && (
            forall|k: int| 0 <= k < j ==> !is_root_workstream(#[trigger] s[k])),
{
    let p = |l: Layer| is_root_workstream(l);
    lemma_filter_first(s, p);
    if exists|j: int| 0 <= j < s.len() && is_root_workstream(#[trigger] s[j]) {
        assert(exists|j: int| 0 <= j < s.len() && p(#[trigger] s[j]));
        let j = choose|j: int|
            0 <= j < s.len() && p(#[trigger] s[j]) && s.filter(p).len() > 0 && s.filter(p)[0] == s[j] && (forall|k: int|
                0 <= k < j ==> !p(#[trigger] s[k]));
        assert forall|k: int| 0 <= k < j implies !is_root_workstream(#[trigger] s[k]) by {
            assert(!p(s[k]));
        }
    } else {
        assert forall|j: int| 0 <= j < s.len() implies !p(#[trigger] s[j]) by {
            assert(!is_root_workstream(s[j]));
        }
    }
}

proof fn lemma_max_end_attained(s: Seq<Layer>)
    ensures
        max_end(s) == 0 || exists|j: int| 0 <= j < s.len() && max_end(s) == sat(#[trigger] s[j].start_time + s[j].duration),
    decreases s.len(),
{
    if s.len() > 0 {
        let d = s.drop_last();
        lemma_max_end_attained(d);
        if max_end(s) != 0 {
            if max_end(s) == sat(s.last().start_time + s.last().duration) {
                assert(max_end(s) == sat(s[s.len() - 1].start_time + s[s.len() - 1].duration));
            } else {
                let j = choose|j: int| 0 <= j < d.len() && max_end(d) == sat(#[trigger] d[j].start_time + d[j].duration);
                assert(d[j] == s[j]);
            }
        }
    }
}

/// The timeline lasts exactly as long as its longest-running layer, or five
/// seconds when every layer ends earlier: its length is at least five
/// seconds and at least every layer's end, and is five seconds or some
/// layer's end.
pub proof fn law_timeline_length_is_attained(s: Seq<Layer>)
    ensures
        ({
            let d = max_i(max_end(s), MIN_TIMELINE_MS as int);
            &&& d >= MIN_TIMELINE_MS
            &&& forall|j: int| 0 <= j < s.len() ==> d >= sat(#[trigger] s[j].start_time + s[j].duration)
            &&& d == MIN_TIMELINE_MS || exists|j: int| 0 <= j < s.len() && d == sat(#[trigger] s[j].start_time + s[j].duration)
        }),
{
    law_timeline_covers_layers(s);
    lemma_max_end_attained(s);
}

/// Dropping an asset onto the tree adds a layer of the asset's kind: an
/// "audio" asset gives an audio layer, a "video" asset a video layer, and
/// any other an image layer.
pub proof fn law_asset_drop_kind(o: AppState, n: AppState, layer_id: Seq<char>, new_parent: Option<String>)
    requires
        reparent_post(o, n, layer_id, new_parent),
        has_asset_prefix(layer_id),
        find_asset_from(o.project_assets@, strip_asset_prefix(layer_id), 0) is Some,
    ensures
        ({
            let asset = o.project_assets@[find_asset_from(o.project_assets@, strip_asset_prefix(layer_id), 0).unwrap()];
            let l = n.layers@.last();
            &&& n.layers@.len() == o.layers@.len() + 1
            &&& asset.asset_type@ == "audio"@ ==> l.layer_type == LayerType::Audio
            &&& asset.asset_type@ == "video"@ ==> l.layer_type == LayerType::Video
            &&& asset.asset_type@ != "audio"@ && asset.asset_type@ != "video"@ ==> l.layer_type == LayerType::Image
            &&& l.name == asset.name
            &&& l.media_url == Some(asset.media_url)
            &&& l.parent_id == new_parent
        }),
{
    reveal_strlit("audio");
    reveal_strlit("video");
    let k = find_asset_from(o.project_assets@, strip_asset_prefix(layer_id), 0).unwrap();
    let asset = o.project_assets@[k];
    let l = n.layers@.last();
    assert(n.layers@ == o.layers@.push(l));
    assert(l == asset_layer(asset, l.id, new_parent));
    assert(l.layer_type == crate::tree::asset_layer_type(asset.asset_type@));
    if asset.asset_type@ == "video"@ {
        assert("video"@ != "audio"@) by {
            assert("video"@[0] != "audio"@[0]);
        }
    }
}

// ── audio layers follow the loaded audio ──

/// No layer's parent is an audio layer.
pub open spec fn audio_childless(x: Seq<Layer>) -> bool {
    forall|j: int, k: int|
        0 <= j < x.len() && 0 <= k < x.len() && #[trigger] x[k].layer_type == LayerType::Audio ==> opt_view(
            #[trigger] x[j].parent_id,
        ) != Some(x[k].id@)
}

/// Whether `pid` is the parent of some layer of `x`.
pub open spec fn names_a_parent(x: Seq<Layer>, pid: Seq<char>) -> bool {
    exists|j: int| 0 <= j < x.len() && opt_view(#[trigger] x[j].parent_id) == Some(pid)
}

proof fn lemma_expand_spares_audio(x: Seq<Layer>, pid: Seq<char>, t: int, fuel: nat)
    requires
        audio_childless(x),
        names_a_parent(x, pid),
    ensures
        forall|k: int|
            0 <= k < x.len() && x[k].layer_type == LayerType::Audio ==> #[trigger] expand(x, pid, t, fuel)[k] == x[k],
    decreases fuel,
{
    lemma_expand_ids(x, pid, t, fuel);
    if fuel > 0 {
        lemma_find(x, pid);
        if let Some(i) = find_layer(x, pid) {
            let jp = choose|j: int| 0 <= j < x.len() && opt_view(#[trigger] x[j].parent_id) == Some(pid);
            if x[i].layer_type == LayerType::Audio {
                assert(opt_view(x[jp].parent_id) != Some(x[i].id@));
            }
            let p = x[i];
            if t > sat(p.start_time + p.duration) {
                let s2 = x.update(i, Layer { duration: sat(t - p.start_time) as i64, ..p });
                assert forall|k: int| 0 <= k < x.len() && x[k].layer_type == LayerType::Audio implies #[trigger] s2[k]
                    == x[k] by {
                    assert(k != i);
                }
                if let Some(g) = p.parent_id {
                    assert(opt_view(s2[i].parent_id) == Some(g@));
                    assert(names_a_parent(s2, g@));
                    assert forall|j: int, k: int|
                        0 <= j < s2.len() && 0 <= k < s2.len() && #[trigger] s2[k].layer_type == LayerType::Audio
                            implies opt_view(#[trigger] s2[j].parent_id) != Some(s2[k].id@) by {
                        assert(s2[k].layer_type == x[k].layer_type && s2[k].id == x[k].id);
                        assert(s2[j].parent_id == x[j].parent_id);
                    }
                    lemma_expand_spares_audio(s2, g@, t, (fuel - 1) as nat);
                    assert(expand(x, pid, t, fuel) == expand(s2, g@, t, (fuel - 1) as nat));
                    assert forall|k: int|
                        0 <= k < x.len() && x[k].layer_type == LayerType::Audio implies #[trigger] expand(
                            x,
                            pid,
                            t,
                            fuel,
                        )[k] == x[k] by {
                        assert(s2[k] == x[k]);
                        assert(s2[k].layer_type == LayerType::Audio);
                    }
                } else {
                    assert(expand(x, pid, t, fuel) == s2);
                }
            }
        }
    }
}

proof fn lemma_expand_all_spares_audio(x: Seq<Layer>, es: Seq<(Seq<char>, int)>)
    requires
        audio_childless(x),
        forall|e: int| 0 <= e < es.len() ==> names_a_parent(x, #[trigger] es[e].0),
    ensures
        expand_all(x, es).len() == x.len(),
        forall|k: int|
            #![trigger expand_all(x, es)[k]]
            0 <= k < x.len() ==> expand_all(x, es)[k].id == x[k].id && expand_all(x, es)[k].parent_id
                == x[k].parent_id && expand_all(x, es)[k].layer_type == x[k].layer_type,
        forall|k: int|
            0 <= k < x.len() && x[k].layer_type == LayerType::Audio ==> #[trigger] expand_all(x, es)[k] == x[k],
    decreases es.len(),
{
    if es.len() > 0 {
        let d = es.drop_last();
        assert forall|e: int| 0 <= e < d.len() implies names_a_parent(x, #[trigger] d[e].0) by {
            assert(d[e] == es[e]);
        }
        lemma_expand_all_spares_audio(x, d);
        let x1 = expand_all(x, d);
        let e = es.last();
        assert(names_a_parent(x, es[es.len() - 1].0));
        let jp = choose|j: int| 0 <= j < x.len() && opt_view(#[trigger] x[j].parent_id) == Some(e.0);
        assert(x1[jp].id == x[jp].id);
        assert(x1[jp].parent_id == x[jp].parent_id);
        assert(names_a_parent(x1, e.0));
        assert forall|j: int, k: int|
            0 <= j < x1.len() && 0 <= k < x1.len() && #[trigger] x1[k].layer_type == LayerType::Audio implies opt_view(
                #[trigger] x1[j].parent_id,
            ) != Some(x1[k].id@) by {
            assert(x1[k].layer_type == x[k].layer_type && x1[k].id == x[k].id);
            assert(x1[j].parent_id == x[j].parent_id);
        }
        lemma_expand_spares_audio(x1, e.0, e.1, x1.len());
        lemma_expand_ids(x1, e.0, e.1, x1.len());
        assert(expand_all(x, es) == expand(x1, e.0, e.1, x1.len()));
        assert forall|k: int| 0 <= k < x.len() implies #[trigger] expand_all(x, es)[k].id == x[k].id && expand_all(
            x,
            es,
        )[k].parent_id == x[k].parent_id && expand_all(x, es)[k].layer_type == x[k].layer_type by {
            assert(x1[k].id == x[k].id);
        }
        assert forall|k: int| 0 <= k < x.len() && x[k].layer_type == LayerType::Audio implies #[trigger] expand_all(
            x,
            es,
        )[k] == x[k] by {
            assert(x1[k] == x[k]);
            assert(x1[k].layer_type == LayerType::Audio);
        }
    }
}

proof fn lemma_sync_ends_name_parents(s: Seq<Layer>, d: i64)
    ensures
        forall|e: int| 0 <= e < sync_ends(s, d).len() ==> names_a_parent(s, #[trigger] sync_ends(s, d)[e].0),
    decreases s.len(),
{
    if s.len() > 0 {
        let dl = s.drop_last();
        lemma_sync_ends_name_parents(dl, d);
        let r = sync_ends(s, d);
        let rest = sync_ends(dl, d);
        assert forall|e: int| 0 <= e < r.len() implies names_a_parent(s, #[trigger] r[e].0) by {
            if e < rest.len() {
                assert(r[e] == rest[e]);
                let j = choose|j: int| 0 <= j < dl.len() && opt_view(#[trigger] dl[j].parent_id) == Some(rest[e].0);
                assert(dl[j] == s[j]);
            } else {
                let l = s.last();
                assert(opt_view(s[s.len() - 1].parent_id) == Some(r[e].0));
            }
        }
    }
}

/// After a playback frame with loaded audio of positive length `d`, every
/// audio layer lasts within a tenth of a second of `d`, longer and shorter
/// ones alike, and those already that close keep their length (audio layers
/// being no layer's parent, so that no stretch of a group lengthens one).
pub proof fn law_audio_layers_follow_audio_length(s: Seq<Layer>, d: i64)
    requires
        d > 0,
        audio_childless(s),
    ensures
        after_sync(s, Some(d)).len() == s.len(),
        forall|k: int|
            0 <= k < s.len() && s[k].layer_type == LayerType::Audio ==> {
                let r = #[trigger] after_sync(s, Some(d))[k];
                &&& r.layer_type == LayerType::Audio
                &&& -AUDIO_SYNC_MS <= r.duration - d <= AUDIO_SYNC_MS
                &&& (-AUDIO_SYNC_MS <= s[k].duration - d <= AUDIO_SYNC_MS ==> r.duration == s[k].duration)
            },
{
    let t = synced(s, d);
    assert forall|k: int| 0 <= k < s.len() implies #[trigger] t[k].id == s[k].id && t[k].parent_id == s[k].parent_id
        && t[k].layer_type == s[k].layer_type by {}
    assert forall|j: int, k: int|
        0 <= j < t.len() && 0 <= k < t.len() && #[trigger] t[k].layer_type == LayerType::Audio implies opt_view(
            #[trigger] t[j].parent_id,
        ) != Some(t[k].id@) by {
        assert(t[k].layer_type == s[k].layer_type && t[k].id == s[k].id);
        assert(t[j].parent_id == s[j].parent_id);
        assert(s[k].layer_type == LayerType::Audio);
        assert(opt_view(s[j].parent_id) != Some(s[k].id@));
    }
    lemma_sync_ends_name_parents(s, d);
    let es = sync_ends(s, d);
    assert forall|e: int| 0 <= e < es.len() implies names_a_parent(t, #[trigger] es[e].0) by {
        assert(names_a_parent(s, es[e].0));
        let j = choose|j: int| 0 <= j < s.len() && opt_view(#[trigger] s[j].parent_id) == Some(es[e].0);
        assert(t[j].parent_id == s[j].parent_id);
    }
    lemma_expand_all_spares_audio(t, es);
    assert forall|k: int| 0 <= k < s.len() && s[k].layer_type == LayerType::Audio implies {
        let r = #[trigger] after_sync(s, Some(d))[k];
        &&& r.layer_type == LayerType::Audio
        &&& -AUDIO_SYNC_MS <= r.duration - d <= AUDIO_SYNC_MS
        &&& (-AUDIO_SYNC_MS <= s[k].duration - d <= AUDIO_SYNC_MS ==> r.duration == s[k].duration)
    } by {
        assert(t[k].layer_type == LayerType::Audio);
        assert(expand_all(t, es)[k] == t[k]);
    }
}

} // verus!
