use vstd::prelude::*;
use crate::ids::{gen_id, layer_id_text};
use crate::kinds::{label_text, AudioBand, LayerType};

verus! {

/// Default length of a composition or workstream: thirty seconds.
pub const GROUP_MS: i64 = 30000;
/// Default length of any other layer: five seconds.
pub const CLIP_MS: i64 = 5000;

/// A node of the layer tree. Times are in milliseconds.
#[derive(Debug)]
pub struct Layer {
    pub id: String,
    pub name: String,
    pub layer_type: LayerType,
    pub visible: bool,
    pub parent_id: Option<String>,
    pub start_time: i64,
    pub duration: i64,
    pub fade_in: i64,
    pub fade_out: i64,
    pub audio_react: AudioBand,
    pub flip_x: bool,
    pub flip_y: bool,
    pub media_url: Option<String>,
    pub custom_color: Option<String>,
}

pub fn clone_opt_text(o: &Option<String>) -> (r: Option<String>)
    ensures
        r == *o,
{
    match o {
        Some(s) => Some(s.clone()),
        None => None,
    }
}

impl Clone for Layer {
    fn clone(&self) -> (r: Self)
        ensures
            r == *self,
    {
        Layer {
            id: self.id.clone(),
            name: self.name.clone(),
            layer_type: self.layer_type,
            visible: self.visible,
            parent_id: clone_opt_text(&self.parent_id),
            start_time: self.start_time,
            duration: self.duration,
            fade_in: self.fade_in,
            fade_out: self.fade_out,
            audio_react: self.audio_react,
            flip_x: self.flip_x,
            flip_y: self.flip_y,
            media_url: clone_opt_text(&self.media_url),
            custom_color: clone_opt_text(&self.custom_color),
        }
    }
}

/// Whether `t` is one of the grouping kinds (composition or workstream).
pub open spec fn is_group_type(t: LayerType) -> bool {
    t == LayerType::Composition || t == LayerType::Workstream
}

/// The last three characters of a text (the whole text when shorter).
pub open spec fn tail3(s: Seq<char>) -> Seq<char> {
    if s.len() >= 3 {
        s.subrange(s.len() - 3, s.len() as int)
    } else {
        s
    }
}

/// The name a fresh layer of kind `t` with identifier `id` receives:
/// its kind's label, a space, and the last three characters of the identifier.
pub open spec fn default_name(t: LayerType, id: Seq<char>) -> Seq<char> {
    label_text(t) + " "@ + tail3(id)
}

/// A layer with the default settings.
pub open spec fn fresh_layer(
    id: String,
    name: String,
    t: LayerType,
    parent_id: Option<String>,
    start: int,
    duration: int,
) -> Layer {
    Layer {
        id,
        name,
        layer_type: t,
        visible: true,
        parent_id,
        start_time: start as i64,
        duration: duration as i64,
        fade_in: 0,
        fade_out: 0,
        audio_react: AudioBand::Off,
        flip_x: false,
        flip_y: false,
        media_url: None,
        custom_color: None,
    }
}

/// Text `a`, a space, then the last three characters of `s`.
fn label_with_tail(a: &str, s: &String) -> (r: String)
    ensures
        r@ == a@ + " "@ + tail3(s@),
{
    let mut out = String::from_str(a);
    out.append(" ");
    let n = s.as_str().unicode_len();
    let from = if n >= 3 { n - 3 } else { 0 };
    let tail = s.as_str().substring_char(from, n);
    out.append(tail);
    proof {
        if s@.len() < 3 {
            assert(s@.subrange(0, s@.len() as int) =~= s@);
        }
    }
    out
}

impl Layer {
    /// A new layer of kind `layer_type` under `parent_id`, with the next
    /// identifier from `ids`; groups last thirty seconds, other layers five.
    pub fn new(layer_type: LayerType, parent_id: Option<String>, ids: &mut u64) -> (l: Self)
        ensures
            l == fresh_layer(
                l.id,
                l.name,
                layer_type,
                parent_id,
                0,
                if is_group_type(layer_type) { GROUP_MS as int } else { CLIP_MS as int },
            ),
            l.id@ == layer_id_text(*old(ids) as nat),
            l.name@ == default_name(layer_type, l.id@),
            *final(ids) == (*old(ids)).wrapping_add(1),
    {
        let id = gen_id(ids);
        let name = label_with_tail(layer_type.label(), &id);
        let duration = if layer_type == LayerType::Composition || layer_type == LayerType::Workstream {
            GROUP_MS
        } else {
            CLIP_MS
        };
        Layer {
            id,
            name,
            layer_type,
            visible: true,
            parent_id,
            start_time: 0,
            duration,
            fade_in: 0,
            fade_out: 0,
            audio_react: AudioBand::Off,
            flip_x: false,
            flip_y: false,
            media_url: None,
            custom_color: None,
        }
    }

    /// A new root composition named `name` spanning `duration` from `start_time`.
    pub fn new_composition(name: &str, start_time: i64, duration: i64, ids: &mut u64) -> (l: Self)
        ensures
            l == fresh_layer(l.id, l.name, LayerType::Composition, None, start_time as int, duration as int),
            l.id@ == layer_id_text(*old(ids) as nat),
            l.name@ == name@,
            *final(ids) == (*old(ids)).wrapping_add(1),
    {
        Layer {
            id: gen_id(ids),
            name: String::from_str(name),
            layer_type: LayerType::Composition,
            visible: true,
            parent_id: None,
            start_time,
            duration,
            fade_in: 0,
            fade_out: 0,
            audio_react: AudioBand::Off,
            flip_x: false,
            flip_y: false,
            media_url: None,
            custom_color: None,
        }
    }

    /// A new root workstream named `name` lasting thirty seconds.
    pub fn new_workstream(name: &str, ids: &mut u64) -> (l: Self)
        ensures
            l == fresh_layer(l.id, l.name, LayerType::Workstream, None, 0, GROUP_MS as int),
            l.id@ == layer_id_text(*old(ids) as nat),
            l.name@ == name@,
            *final(ids) == (*old(ids)).wrapping_add(1),
    {
        let mut ws = Self::new(LayerType::Workstream, None, ids);
        ws.name = String::from_str(name);
        ws
    }
}

} // verus!
