use vstd::prelude::*;
use crate::drag::MIN_CLIP_MS;
use crate::find::{find_layer, lemma_find, position_of};
use crate::ids::{decimal, opt_view, push_decimal};
use crate::kinds::AudioBand;
use crate::layer::Layer;
use crate::state::{is_root_workstream, AppState};
use crate::terminal::{trim_command, trimmed};
use crate::time::max_i;
use crate::tree::{reordered, reparent_post};

verus! {

// ── what the inspector shows ──

/// The selection that opens the project settings.
pub open spec fn project_key() -> Seq<char> {
    "__project__"@
}

/// The selection that opens the global effects.
pub open spec fn global_effects_key() -> Seq<char> {
    "__global_effects__"@
}

/// The panel the inspector shows.
#[derive(Clone, Copy, Debug, PartialEq, Eq, Structural)]
pub enum Panel {
    /// Project name and resolution.
    Project,
    /// The effects applied to the whole picture.
    GlobalEffects,
    /// The properties of the layer at this position.
    Layer(usize),
    /// Nothing is selected, or the selection names no layer.
    Blank,
}

/// The panel for the selection `sel` over the layers `s`.
pub open spec fn panel_for(s: Seq<Layer>, sel: Option<Seq<char>>) -> Panel {
    match sel {
        Some(x) => if x == project_key() {
            Panel::Project
        } else if x == global_effects_key() {
            Panel::GlobalEffects
        } else {
            match find_layer(s, x) {
                Some(i) => Panel::Layer(i as usize),
                None => Panel::Blank,
            }
        },
        None => Panel::Blank,
    }
}

/// A timing value the inspector edits.
#[derive(Clone, Copy, Debug, PartialEq, Eq, Structural)]
pub enum TimingField {
    Start,
    Duration,
    FadeIn,
    FadeOut,
}

/// `l` with the timing value `f` set from the input `v`: starts and fades
/// no earlier than zero, lengths no shorter than a tenth of a second.
pub open spec fn with_timing(l: Layer, f: TimingField, v: i64) -> Layer {
    match f {
        TimingField::Start => Layer { start_time: max_i(v as int, 0) as i64, ..l },
        TimingField::Duration => Layer { duration: max_i(v as int, MIN_CLIP_MS as int) as i64, ..l },
        TimingField::FadeIn => Layer { fade_in: max_i(v as int, 0) as i64, ..l },
        TimingField::FadeOut => Layer { fade_out: max_i(v as int, 0) as i64, ..l },
    }
}

/// The resolutions offered with one click, as width and height.
pub open spec fn resolution_presets_spec() -> Seq<(u32, u32)> {
    seq![(1920u32, 1080u32), (1280u32, 720u32), (3840u32, 2160u32), (1080u32, 1920u32), (1080u32, 1080u32)]
}

/// The label of a resolution: width, "×", height.
pub open spec fn resolution_label_text(w: u32, h: u32) -> Seq<char> {
    decimal(w as nat) + "×"@ + decimal(h as nat)
}

/// The resolutions offered with one click.
pub fn resolution_presets() -> (r: Vec<(u32, u32)>)
    ensures
        r@ == resolution_presets_spec(),
{
    let r: Vec<(u32, u32)> = vec![(1920, 1080), (1280, 720), (3840, 2160), (1080, 1920), (1080, 1080)];
    assert(r@ =~= resolution_presets_spec());
    r
}

/// The label shown on a resolution button, such as "1920×1080".
pub fn resolution_label(w: u32, h: u32) -> (r: String)
    ensures
        r@ == resolution_label_text(w, h),
{
    let mut s = String::new();
    push_decimal(&mut s, w as u64);
    s.append("×");
    push_decimal(&mut s, h as u64);
    proof {
        assert(s@ =~= resolution_label_text(w, h));
    }
    s
}

/// A change the inspector makes to one layer.
#[derive(Clone, Debug)]
pub enum LayerEdit {
    /// Mirror it horizontally, or undo that.
    ToggleFlipX,
    /// Mirror it vertically, or undo that.
    ToggleFlipY,
    /// React to this band of the audio.
    AudioReact(AudioBand),
    /// Draw it in this colour.
    CustomColor(String),
    /// Show or play the media at this address.
    MediaUrl(String),
}

/// `l` after the edit `e`.
pub open spec fn edited(l: Layer, e: LayerEdit) -> Layer {
    match e {
        LayerEdit::ToggleFlipX => Layer { flip_x: !l.flip_x, ..l },
        LayerEdit::ToggleFlipY => Layer { flip_y: !l.flip_y, ..l },
        LayerEdit::AudioReact(b) => Layer { audio_react: b, ..l },
        LayerEdit::CustomColor(c) => Layer { custom_color: Some(c), ..l },
        LayerEdit::MediaUrl(u) => Layer { media_url: Some(u), ..l },
    }
}

/// The band an option of the inspector's audio-reaction list names: "Bass",
/// "Mid" or "Treble", and no reaction for anything else.
pub open spec fn band_named(name: Seq<char>) -> AudioBand {
    if name == "Bass"@ {
        AudioBand::Bass
    } else if name == "Mid"@ {
        AudioBand::Mid
    } else if name == "Treble"@ {
        AudioBand::Treble
    } else {
        AudioBand::Off
    }
}

/// The band an option of the inspector's audio-reaction list names.
pub fn audio_band_named(name: &str) -> (b: AudioBand)
    ensures
        b == band_named(name@),
{
    let n = String::from_str(name);
    if crate::ids::text_eq(&n, "Bass") {
        AudioBand::Bass
    } else if crate::ids::text_eq(&n, "Mid") {
        AudioBand::Mid
    } else if crate::ids::text_eq(&n, "Treble") {
        AudioBand::Treble
    } else {
        AudioBand::Off
    }
}

// ── drag and drop in the layer tree ──

/// Where on a layer's row something is dropped.
#[derive(Clone, Copy, Debug, PartialEq, Eq, Structural)]
pub enum DropZone {
    /// The upper quarter: put it before that layer.
    Above,
    /// The middle: put it under that layer.
    Onto,
    /// The lower quarter: put it after that layer.
    Below,
}

impl AppState {
    /// The panel the inspector shows for the current selection.
    pub fn inspector_panel(&self) -> (p: Panel)
        ensures
            p == panel_for(self.layers@, opt_view(self.selected_id)),
    {
        proof {
            reveal_strlit("__project__");
            reveal_strlit("__global_effects__");
        }
        match &self.selected_id {
            None => Panel::Blank,
            Some(x) => {
                if crate::ids::text_eq(x, "__project__") {
                    Panel::Project
                } else if crate::ids::text_eq(x, "__global_effects__") {
                    Panel::GlobalEffects
                } else {
                    proof {
                        lemma_find(self.layers@, x@);
                    }
                    match position_of(&self.layers, x) {
                        Some(i) => Panel::Layer(i),
                        None => Panel::Blank,
                    }
                }
            },
        }
    }

    /// Sets a timing value of the layer identified by `id` from the
    /// inspector's input `value` (see `with_timing`); nothing happens when
    /// there is no such layer.
    pub fn set_timing(&mut self, id: &str, field: TimingField, value: i64)
        ensures
            match find_layer(old(self).layers@, id@) {
                Some(i) => final(self).layers@ == old(self).layers@.update(
                    i,
                    with_timing(old(self).layers@[i], field, value),
                ),
                None => final(self).layers@ == old(self).layers@,
            },
            *final(self) == (AppState { layers: final(self).layers, ..*old(self) }),
    {
        let key = String::from_str(id);
        proof {
            lemma_find(self.layers@, key@);
        }
        if let Some(i) = position_of(&self.layers, &key) {
            let mut l = self.layers[i].clone();
            match field {
                TimingField::Start => {
                    l.start_time = if value > 0 { value } else { 0 };
                },
                TimingField::Duration => {
                    l.duration = if value > MIN_CLIP_MS { value } else { MIN_CLIP_MS };
                },
                TimingField::FadeIn => {
                    l.fade_in = if value > 0 { value } else { 0 };
                },
                TimingField::FadeOut => {
                    l.fade_out = if value > 0 { value } else { 0 };
                },
            }
            self.layers.set(i, l);
        }
    }

    /// Applies the inspector's edit `edit` to the layer identified by `id`;
    /// nothing happens when there is no such layer.
    pub fn edit_layer(&mut self, id: &str, edit: LayerEdit)
        ensures
            match find_layer(old(self).layers@, id@) {
                Some(i) => final(self).layers@ == old(self).layers@.update(i, edited(old(self).layers@[i], edit)),
                None => final(self).layers@ == old(self).layers@,
            },
            *final(self) == (AppState { layers: final(self).layers, ..*old(self) }),
    {
        let key = String::from_str(id);
        proof {
            lemma_find(self.layers@, key@);
        }
        if let Some(i) = position_of(&self.layers, &key) {
            let mut l = self.layers[i].clone();
            match edit {
                LayerEdit::ToggleFlipX => {
                    l.flip_x = !l.flip_x;
                },
                LayerEdit::ToggleFlipY => {
                    l.flip_y = !l.flip_y;
                },
                LayerEdit::AudioReact(b) => {
                    l.audio_react = b;
                },
                LayerEdit::CustomColor(c) => {
                    l.custom_color = Some(c);
                },
                LayerEdit::MediaUrl(u) => {
                    l.media_url = Some(u);
                },
            }
            self.layers.set(i, l);
        }
    }

    /// Renames the project.
    pub fn set_project_name(&mut self, name: String)
        ensures
            *final(self) == (AppState { project_name: name, ..*old(self) }),
    {
        self.project_name = name;
    }

    /// Selects the layer (or panel) identified by `id`.
    pub fn select(&mut self, id: String)
        ensures
            *final(self) == (AppState { selected_id: Some(id), ..*old(self) }),
    {
        self.selected_id = Some(id);
    }

    /// Sets the project's width from the inspector's input, at least one pixel.
    pub fn set_project_width(&mut self, w: u32)
        ensures
            final(self).project_width == max_i(w as int, 1),
            *final(self) == (AppState { project_width: final(self).project_width, ..*old(self) }),
    {
        self.project_width = if w > 1 { w } else { 1 };
    }

    /// Sets the project's height from the inspector's input, at least one pixel.
    pub fn set_project_height(&mut self, h: u32)
        ensures
            final(self).project_height == max_i(h as int, 1),
            *final(self) == (AppState { project_height: final(self).project_height, ..*old(self) }),
    {
        self.project_height = if h > 1 { h } else { 1 };
    }

    /// Applies the resolution preset at position `k` of `resolution_presets`.
    pub fn apply_resolution_preset(&mut self, k: usize)
        requires
            k < resolution_presets_spec().len(),
        ensures
            (final(self).project_width, final(self).project_height) == resolution_presets_spec()[k as int],
            *final(self) == (AppState {
                project_width: final(self).project_width,
                project_height: final(self).project_height,
                ..*old(self)
            }),
    {
        let presets = resolution_presets();
        let (w, h) = presets[k];
        self.project_width = w;
        self.project_height = h;
    }

    /// Renames the layer identified by `id` to the typed text `input` without
    /// its surrounding white space; nothing happens when that leaves nothing,
    /// or when there is no such layer.
    pub fn rename_from_input(&mut self, id: &str, input: &str)
        ensures
            if trimmed(input@).len() == 0 {
                *final(self) == *old(self)
            } else {
                &&& match find_layer(old(self).layers@, id@) {
                    Some(i) => {
                        &&& final(self).layers@ == old(self).layers@.update(
                            i,
                            Layer { name: final(self).layers@[i].name, ..old(self).layers@[i] },
                        )
                        &&& final(self).layers@[i].name@ == trimmed(input@)
                    },
                    None => final(self).layers@ == old(self).layers@,
                }
                &&& *final(self) == (AppState { layers: final(self).layers, ..*old(self) })
            },
    {
        let name = trim_command(input);
        if name.unicode_len() == 0 {
            return;
        }
        proof {
            lemma_find(self.layers@, id@);
        }
        self.rename_layer(id, name);
    }

    /// Drops the layer identified by `source` (or an asset, see `reparent`) on
    /// the row of the layer identified by `target`: above or below it
    /// reorders next to it, onto it moves under it. Nothing happens when the
    /// two are the same or the pointer is in no zone.
    pub fn drop_on_layer(&mut self, source: &str, target: &str, zone: Option<DropZone>)
        ensures
            source@ == target@ || zone is None ==> *final(self) == *old(self),
            source@ != target@ ==> match zone {
                Some(DropZone::Above) => final(self).layers@ == reordered(old(self).layers@, source@, target@, true)
                    && *final(self) == (AppState { layers: final(self).layers, ..*old(self) }),
                Some(DropZone::Below) => final(self).layers@ == reordered(old(self).layers@, source@, target@, false)
                    && *final(self) == (AppState { layers: final(self).layers, ..*old(self) }),
                Some(DropZone::Onto) => exists|t: String|
                    t@ == target@ && reparent_post(*old(self), *final(self), source@, Some(t)),
                None => true,
            },
    {
        if crate::ids::text_eq(&String::from_str(source), target) {
            return;
        }
        match zone {
            None => {},
            Some(DropZone::Above) => {
                self.reorder_layer(source, target, true);
            },
            Some(DropZone::Below) => {
                self.reorder_layer(source, target, false);
            },
            Some(DropZone::Onto) => {
                let t = String::from_str(target);
                self.reparent(source, Some(t));
            },
        }
    }

    /// Drops the layer identified by `source` (or an asset) on the empty part
    /// of the sidebar: it goes under the first root workstream; nothing
    /// happens when there is none.
    pub fn drop_on_empty_area(&mut self, source: &str)
        ensures
            ({
                let w = old(self).layers@.filter(|l: Layer| is_root_workstream(l));
                if w.len() == 0 {
                    *final(self) == *old(self)
                } else {
                    reparent_post(*old(self), *final(self), source@, Some(w[0].id))
                }
            }),
    {
        let first = {
            let ws = self.root_workstreams();
            if ws.len() == 0 {
                None
            } else {
                Some(ws[0].id.clone())
            }
        };
        if let Some(id) = first {
            self.reparent(source, Some(id));
        }
    }
}

} // verus!
