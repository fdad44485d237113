use vstd::prelude::*;
use crate::find::{find_layer, lemma_find, opt_index, position_of};
use crate::ids::{layer_id_text, opt_text_eq, opt_view};
use crate::kinds::LayerType;
use crate::layer::{fresh_layer, Layer, GROUP_MS};
use crate::time::{add_ms, max_i, max_ms, min_i, sat};

verus! {

/// An imported media file that can be dropped onto the layer tree.
#[derive(Clone, Debug, PartialEq)]
pub struct ProjectAsset {
    pub id: String,
    pub name: String,
    pub media_url: String,
    /// "image", "audio" or "video"
    pub asset_type: String,
}

/// What a pointer drag on a timeline clip changes.
#[derive(Clone, Copy, Debug, PartialEq, Eq, Structural)]
pub enum ClipDragMode {
    Move,
    TrimLeft,
    TrimRight,
    FadeIn,
    FadeOut,
}

/// The clip drag in progress, if any: the pointer position where it began
/// (in whole pixels) and the clip's timing at that moment.
#[derive(Clone, Debug)]
pub struct ClipDragState {
    pub mode: Option<ClipDragMode>,
    pub layer_id: Option<String>,
    pub start_pointer_x: i64,
    pub original_start_time: i64,
    pub original_duration: i64,
    pub original_fade_in: i64,
    pub original_fade_out: i64,
}

/// The editor's document and the parts of its interface state that the
/// document operations read or change. Times are in milliseconds.
#[derive(Clone, Debug)]
pub struct AppState {
    pub layers: Vec<Layer>,
    pub selected_id: Option<String>,
    /// Identifiers of the groups that are expanded.
    pub open_comps: Vec<String>,
    pub master_open: bool,
    pub current_time: i64,
    pub is_playing: bool,
    pub timeline_scroll_zoom: bool,
    pub is_scrubbing: bool,
    pub is_panning_timeline: bool,
    pub clip_drag: ClipDragState,
    pub show_add_modal: bool,
    pub is_cut_mode: bool,
    pub add_parent_id: Option<String>,
    pub audio_loaded: bool,
    pub audio_file_name: Option<String>,
    pub terminal_logs: Vec<String>,
    pub show_terminal: bool,
    pub loop_playback: bool,
    pub snap_to_grid: bool,
    pub show_settings: bool,
    pub project_name: String,
    pub project_width: u32,
    pub project_height: u32,
    pub project_assets: Vec<ProjectAsset>,
    pub resizing_panel: Option<String>,
    pub next_comp_index: usize,
    /// Number of the next layer identifier to hand out.
    pub next_layer_id: u64,
}

/// The layers that a sequence of references points to.
pub open spec fn targets(r: Seq<&Layer>) -> Seq<Layer> {
    r.map_values(|x: &Layer| *x)
}

pub open spec fn is_root_workstream(l: Layer) -> bool {
    l.layer_type == LayerType::Workstream && l.parent_id is None
}

pub open spec fn is_composition(l: Layer) -> bool {
    l.layer_type == LayerType::Composition
}

pub open spec fn is_root_composition(l: Layer) -> bool {
    l.layer_type == LayerType::Composition && l.parent_id is None
}

pub open spec fn is_child_of(l: Layer, parent: Seq<char>) -> bool {
    opt_view(l.parent_id) == Some(parent)
}

/// References to the layers of `layers` that `keep` accepts, in order.
fn collect_where<'a, F: Fn(&Layer) -> bool>(
    layers: &'a Vec<Layer>,
    keep: F,
    Ghost(p): Ghost<spec_fn(Layer) -> bool>,
) -> (r: Vec<&'a Layer>)
    requires
        forall|l: &Layer| #[trigger] keep.requires((l,)),
        forall|l: &Layer, b: bool| keep.ensures((l,), b) ==> b == p(*l),
    ensures
        targets(r@) == layers@.filter(p),
{
    let mut r: Vec<&'a Layer> = Vec::new();
    let n = layers.len();
    for i in 0..n
        invariant
            n == layers@.len(),
            forall|l: &Layer| #[trigger] keep.requires((l,)),
            forall|l: &Layer, b: bool| keep.ensures((l,), b) ==> b == p(*l),
            targets(r@) == layers@.take(i as int).filter(p),
    {
        reveal_with_fuel(Seq::<_>::filter, 1);
        assert(layers@.take(i + 1).drop_last() =~= layers@.take(i as int));
        let l = &layers[i];
        if keep(l) {
            r.push(l);
        }
        assert(targets(r@) =~= layers@.take(i + 1).filter(p));
    }
    assert(layers@.take(n as int) =~= layers@);
    r
}

fn keep_composition(l: &Layer) -> (b: bool)
    ensures
        b == is_composition(*l),
{
    l.layer_type == LayerType::Composition
}

fn keep_root_composition(l: &Layer) -> (b: bool)
    ensures
        b == is_root_composition(*l),
{
    l.layer_type == LayerType::Composition && l.parent_id.is_none()
}

/// The text contents of a sequence of texts.
pub open spec fn texts(v: Seq<String>) -> Seq<Seq<char>> {
    v.map_values(|x: String| x@)
}

/// Index of the first text at or after `k` whose content is `t`.
pub open spec fn find_text_from(v: Seq<String>, t: Seq<char>, k: int) -> Option<int>
    decreases v.len() - k,
{
    if k < 0 || k >= v.len() {
        None
    } else if v[k]@ == t {
        Some(k)
    } else {
        find_text_from(v, t, k + 1)
    }
}

pub proof fn lemma_find_text_from(v: Seq<String>, t: Seq<char>, k: int)
    requires
        0 <= k,
    ensures
        find_text_from(v, t, k) matches Some(i) ==> k <= i < v.len() && v[i]@ == t && (forall|j: int|
            k <= j < i ==> #[trigger] v[j]@ != t),
        find_text_from(v, t, k) is None ==> forall|j: int| k <= j < v.len() ==> #[trigger] v[j]@ != t,
    decreases v.len() - k,
{
    if k < v.len() && v[k]@ != t {
        lemma_find_text_from(v, t, k + 1);
    }
}

fn position_of_text(v: &Vec<String>, t: &String) -> (r: Option<usize>)
    ensures
        opt_index(r) == find_text_from(v@, t@, 0),
{
    let n = v.len();
    let mut i: usize = 0;
    while i < n
        invariant
            n == v@.len(),
            i <= n,
            find_text_from(v@, t@, 0) == find_text_from(v@, t@, i as int),
        decreases n - i,
    {
        if v[i] == *t {
            return Some(i);
        }
        i = i + 1;
    }
    None
}

/// The latest end among the layers of `s` (zero when there is none or all end earlier).
pub open spec fn max_end(s: Seq<Layer>) -> int
    decreases s.len(),
{
    if s.len() == 0 {
        0
    } else {
        max_i(max_end(s.drop_last()), sat(s.last().start_time + s.last().duration))
    }
}

/// `s` with the first layer identified by `id` (if any) shown when hidden
/// and hidden when shown.
pub open spec fn toggled(s: Seq<Layer>, id: Seq<char>) -> Seq<Layer> {
    match find_layer(s, id) {
        Some(i) => s.update(i, Layer { visible: !s[i].visible, ..s[i] }),
        None => s,
    }
}

/// Shortest length the timeline reports: five seconds.
pub const MIN_TIMELINE_MS: i64 = 5000;

impl Default for ClipDragState {
    fn default() -> (r: Self)
        ensures
            r.mode is None,
            r.layer_id is None,
            r.start_pointer_x == 0,
            r.original_start_time == 0,
            r.original_duration == 0,
            r.original_fade_in == 0,
            r.original_fade_out == 0,
    {
        ClipDragState {
            mode: None,
            layer_id: None,
            start_pointer_x: 0,
            original_start_time: 0,
            original_duration: 0,
            original_fade_in: 0,
            original_fade_out: 0,
        }
    }
}

/// The first line of the terminal.
pub open spec fn welcome_text() -> Seq<char> {
    "VibeVisualizer Terminal v2.0 — type `help` for commands."@
}

impl Default for AppState {
    /// A document with one workstream, "Workstream 1", expanded, whose
    /// identifier is the first the generator hands out.
    fn default() -> (r: Self)
        ensures
            r.layers@.len() == 1,
            r.layers@[0] == fresh_layer(
                r.layers@[0].id,
                r.layers@[0].name,
                LayerType::Workstream,
                None,
                0,
                GROUP_MS as int,
            ),
            r.layers@[0].id@ == layer_id_text(1),
            r.layers@[0].name@ == "Workstream 1"@,
            r.next_layer_id == 2,
            texts(r.open_comps@) == seq![layer_id_text(1)],
            r.selected_id is None,
            r.master_open,
            r.current_time == 0,
            !r.is_playing,
            r.timeline_scroll_zoom,
            !r.is_scrubbing,
            !r.is_panning_timeline,
            r.clip_drag.mode is None,
            r.clip_drag.layer_id is None,
            r.clip_drag.start_pointer_x == 0,
            r.clip_drag.original_start_time == 0,
            r.clip_drag.original_duration == 0,
            r.clip_drag.original_fade_in == 0,
            r.clip_drag.original_fade_out == 0,
            !r.show_add_modal,
            !r.is_cut_mode,
            r.add_parent_id is None,
            !r.audio_loaded,
            r.audio_file_name is None,
            texts(r.terminal_logs@) == seq![welcome_text()],
            r.show_terminal,
            !r.loop_playback,
            r.snap_to_grid,
            !r.show_settings,
            r.project_name@ == "My Project"@,
            r.project_width == 1920,
            r.project_height == 1080,
            r.project_assets@.len() == 0,
            r.resizing_panel is None,
            r.next_comp_index == 1,
    {
        let mut ids: u64 = 1;
        let workstream = Layer::new_workstream("Workstream 1", &mut ids);
        let ws_id = workstream.id.clone();
        let mut layers: Vec<Layer> = Vec::new();
        layers.push(workstream);
        let mut open_comps: Vec<String> = Vec::new();
        open_comps.push(ws_id);
        let mut terminal_logs: Vec<String> = Vec::new();
        terminal_logs.push(String::from_str("VibeVisualizer Terminal v2.0 — type `help` for commands."));
        proof {
            assert(texts(open_comps@) =~= seq![layer_id_text(1)]);
            assert(texts(terminal_logs@) =~= seq![welcome_text()]);
        }
        AppState {
            layers,
            selected_id: None,
            open_comps,
            master_open: true,
            current_time: 0,
            is_playing: false,
            timeline_scroll_zoom: true,
            is_scrubbing: false,
            is_panning_timeline: false,
            clip_drag: ClipDragState::default(),
            show_add_modal: false,
            is_cut_mode: false,
            add_parent_id: None,
            audio_loaded: false,
            audio_file_name: None,
            terminal_logs,
            show_terminal: true,
            loop_playback: false,
            snap_to_grid: true,
            show_settings: false,
            project_name: String::from_str("My Project"),
            project_width: 1920,
            project_height: 1080,
            project_assets: Vec::new(),
            resizing_panel: None,
            next_comp_index: 1,
            next_layer_id: ids,
        }
    }
}

fn keep_root_workstream(l: &Layer) -> (b: bool)
    ensures
        b == is_root_workstream(*l),
{
    l.layer_type == LayerType::Workstream && l.parent_id.is_none()
}

impl AppState {
    /// The workstreams at the root of the tree, in layer order.
    pub fn root_workstreams(&self) -> (r: Vec<&Layer>)
        ensures
            targets(r@) == self.layers@.filter(|l: Layer| is_root_workstream(l)),
    {
        collect_where(&self.layers, keep_root_workstream, Ghost(|l: Layer| is_root_workstream(l)))
    }

    /// Every composition, in layer order.
    pub fn all_compositions(&self) -> (r: Vec<&Layer>)
        ensures
            targets(r@) == self.layers@.filter(|l: Layer| is_composition(l)),
    {
        collect_where(&self.layers, keep_composition, Ghost(|l: Layer| is_composition(l)))
    }

    /// The compositions at the root of the tree, in layer order.
    pub fn root_compositions(&self) -> (r: Vec<&Layer>)
        ensures
            targets(r@) == self.layers@.filter(|l: Layer| is_root_composition(l)),
    {
        collect_where(&self.layers, keep_root_composition, Ghost(|l: Layer| is_root_composition(l)))
    }

    /// The direct children of the layer identified by `parent_id`, in layer order.
    pub fn children_of(&self, parent_id: &str) -> (r: Vec<&Layer>)
        ensures
            targets(r@) == self.layers@.filter(|l: Layer| is_child_of(l, parent_id@)),
    {
        let ghost p = |l: Layer| is_child_of(l, parent_id@);
        let mut r: Vec<&Layer> = Vec::new();
        let n = self.layers.len();
        for i in 0..n
            invariant
                n == self.layers@.len(),
                p == (|l: Layer| is_child_of(l, parent_id@)),
                targets(r@) == self.layers@.take(i as int).filter(p),
        {
            reveal_with_fuel(Seq::<_>::filter, 1);
            assert(self.layers@.take(i + 1).drop_last() =~= self.layers@.take(i as int));
            let l = &self.layers[i];
            if opt_text_eq(&l.parent_id, parent_id) {
                r.push(l);
            }
            assert(targets(r@) =~= self.layers@.take(i + 1).filter(p));
        }
        assert(self.layers@.take(n as int) =~= self.layers@);
        r
    }

    /// Whether the group identified by `id` is expanded.
    pub fn is_comp_open(&self, id: &str) -> (r: bool)
        ensures
            r == texts(self.open_comps@).contains(id@),
    {
        let key = String::from_str(id);
        let found = position_of_text(&self.open_comps, &key);
        proof {
            lemma_find_text_from(self.open_comps@, id@, 0);
            if found is None {
                assert forall|j: int| 0 <= j < texts(self.open_comps@).len() implies texts(self.open_comps@)[j] != id@ by {
                    assert(self.open_comps@[j]@ != id@);
                }
            } else {
                assert(texts(self.open_comps@)[found.unwrap() as int] == id@);
            }
        }
        found.is_some()
    }

    /// Length of the timeline: the latest end of any layer, but at least five seconds.
    pub fn timeline_duration(&self) -> (r: i64)
        ensures
            r == max_i(max_end(self.layers@), MIN_TIMELINE_MS as int),
    {
        let mut m: i64 = 0;
        let n = self.layers.len();
        for i in 0..n
            invariant
                n == self.layers@.len(),
                m == max_end(self.layers@.take(i as int)),
        {
            assert(self.layers@.take(i + 1).drop_last() =~= self.layers@.take(i as int));
            let e = add_ms(self.layers[i].start_time, self.layers[i].duration);
            if e > m {
                m = e;
            }
        }
        assert(self.layers@.take(n as int) =~= self.layers@);
        max_ms(m, MIN_TIMELINE_MS)
    }

    // ── simple edits ──

    /// Appends a line to the terminal.
    pub fn log_terminal(&mut self, msg: &str)
        ensures
            final(self).terminal_logs@ == old(self).terminal_logs@.push(final(self).terminal_logs@.last()),
            final(self).terminal_logs@.last()@ == msg@,
            *final(self) == (AppState { terminal_logs: final(self).terminal_logs, ..*old(self) }),
    {
        self.terminal_logs.push(String::from_str(msg));
    }

    /// Empties the terminal.
    pub fn clear_terminal(&mut self)
        ensures
            final(self).terminal_logs@.len() == 0,
            *final(self) == (AppState { terminal_logs: final(self).terminal_logs, ..*old(self) }),
    {
        self.terminal_logs.clear();
    }

    /// Shows or hides the layer identified by `id`; nothing happens when there is none.
    pub fn toggle_visibility(&mut self, id: &str)
        ensures
            final(self).layers@ == toggled(old(self).layers@, id@),
            *final(self) == (AppState { layers: final(self).layers, ..*old(self) }),
    {
        let key = String::from_str(id);
        proof {
            lemma_find(self.layers@, key@);
        }
        if let Some(i) = position_of(&self.layers, &key) {
            let mut l = self.layers[i].clone();
            l.visible = !l.visible;
            self.layers.set(i, l);
        }
    }

    /// Renames the layer identified by `id`; nothing happens when there is none.
    pub fn rename_layer(&mut self, id: &str, new_name: String)
        ensures
            match find_layer(old(self).layers@, id@) {
                Some(i) => final(self).layers@ == old(self).layers@.update(
                    i,
                    Layer { name: new_name, ..old(self).layers@[i] },
                ),
                None => final(self).layers@ == old(self).layers@,
            },
            *final(self) == (AppState { layers: final(self).layers, ..*old(self) }),
    {
        let key = String::from_str(id);
        proof {
            lemma_find(self.layers@, key@);
        }
        if let Some(i) = position_of(&self.layers, &key) {
            let mut l = self.layers[i].clone();
            l.name = new_name;
            self.layers.set(i, l);
        }
    }

    /// Sets the start and length of the layer identified by `id`; nothing
    /// happens when there is none.
    pub fn update_layer_timing(&mut self, id: &str, start_time: i64, duration: i64)
        ensures
            match find_layer(old(self).layers@, id@) {
                Some(i) => final(self).layers@ == old(self).layers@.update(
                    i,
                    Layer { start_time, duration, ..old(self).layers@[i] },
                ),
                None => final(self).layers@ == old(self).layers@,
            },
            *final(self) == (AppState { layers: final(self).layers, ..*old(self) }),
    {
        let key = String::from_str(id);
        proof {
            lemma_find(self.layers@, key@);
        }
        if let Some(i) = position_of(&self.layers, &key) {
            let mut l = self.layers[i].clone();
            l.start_time = start_time;
            l.duration = duration;
            self.layers.set(i, l);
        }
    }

    /// Moves the playhead to `time`, held within the timeline.
    pub fn seek_to(&mut self, time: i64)
        ensures
            final(self).current_time == min_i(max_i(time as int, 0), max_i(max_end(old(self).layers@), MIN_TIMELINE_MS as int)),
            *final(self) == (AppState { current_time: final(self).current_time, ..*old(self) }),
    {
        let d = self.timeline_duration();
        let t = if time > 0 { time } else { 0 };
        self.current_time = if t <= d { t } else { d };
    }

    /// Expands the group identified by `id` when it is collapsed (listing it
    /// last), and collapses it (dropping its first listing) when it is expanded.
    pub fn toggle_comp(&mut self, id: &str)
        ensures
            match find_text_from(old(self).open_comps@, id@, 0) {
                Some(p) => final(self).open_comps@ == old(self).open_comps@.remove(p),
                None => final(self).open_comps@ == old(self).open_comps@.push(final(self).open_comps@.last())
                    && final(self).open_comps@.last()@ == id@,
            },
            *final(self) == (AppState { open_comps: final(self).open_comps, ..*old(self) }),
    {
        let key = String::from_str(id);
        proof {
            lemma_find_text_from(self.open_comps@, key@, 0);
        }
        match position_of_text(&self.open_comps, &key) {
            Some(p) => {
                self.open_comps.remove(p);
            },
            None => {
                self.open_comps.push(key);
            },
        }
    }
}

} // verus!
