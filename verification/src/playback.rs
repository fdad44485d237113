use vstd::prelude::*;
use crate::kinds::LayerType;
use crate::find::{find_layer, lemma_find, position_of};
use crate::layer::Layer;
use crate::query::next_active;
use crate::state::{max_end, AppState, MIN_TIMELINE_MS};
use crate::time::{add_ms, max_i, sat};
use crate::tree::expand;

verus! {

/// How far the playhead moves in one frame without audio: 16 milliseconds.
pub const FRAME_MS: i64 = 16;

/// How far an audio layer's length may differ from the loaded audio's
/// before it is set to it: a tenth of a second.
pub const AUDIO_SYNC_MS: i64 = 100;

/// What the audio element is to do after a playback frame.
#[derive(Clone, Copy, Debug, PartialEq, Eq, Structural)]
pub enum PlaybackAction {
    /// Keep playing.
    Continue,
    /// The end was passed with looping on: seek to the start and play.
    Restart,
    /// The end was passed with looping off: pause and seek to the start.
    PauseAndRewind,
}

/// Whether `l` is an audio layer whose length is more than a tenth of a
/// second away from `len`.
pub open spec fn needs_sync(l: Layer, len: int) -> bool {
    l.layer_type == LayerType::Audio && (l.duration - len > AUDIO_SYNC_MS || len - l.duration > AUDIO_SYNC_MS)
}

/// `s` with every audio layer that `needs_sync` set to length `len`.
pub open spec fn synced(s: Seq<Layer>, len: i64) -> Seq<Layer> {
    Seq::new(
        s.len(),
        |j: int|
            if needs_sync(s[j], len as int) {
                Layer { duration: len, ..s[j] }
            } else {
                s[j]
            },
    )
}

/// For each audio layer of `s` that `needs_sync` and has a parent, in layer
/// order: the parent and where the layer ends once its length is `len`.
pub open spec fn sync_ends(s: Seq<Layer>, len: i64) -> Seq<(Seq<char>, int)>
    decreases s.len(),
{
    if s.len() == 0 {
        Seq::empty()
    } else {
        let rest = sync_ends(s.drop_last(), len);
        let l = s.last();
        match l.parent_id {
            Some(p) => if needs_sync(l, len as int) {
                rest.push((p@, sat(l.start_time + len)))
            } else {
                rest
            },
            None => rest,
        }
    }
}

/// `s` after each group of `es`, in turn, is lengthened up the tree to cover
/// its end (see `expand`).
pub open spec fn expand_all(s: Seq<Layer>, es: Seq<(Seq<char>, int)>) -> Seq<Layer>
    decreases es.len(),
{
    if es.len() == 0 {
        s
    } else {
        let s1 = expand_all(s, es.drop_last());
        expand(s1, es.last().0, es.last().1, s1.len())
    }
}

/// The layers once audio layers take the length of the loaded audio, when
/// one with a positive length is loaded, and their parents are lengthened
/// to cover them.
pub open spec fn after_sync(s: Seq<Layer>, audio_len: Option<i64>) -> Seq<Layer> {
    match audio_len {
        Some(d) => if d > 0 {
            expand_all(synced(s, d), sync_ends(s, d))
        } else {
            s
        },
        None => s,
    }
}

/// Where the playhead goes next, before the end and gaps are looked at: the
/// audio's own time when audio plays, else one frame on.
pub open spec fn next_time(current: i64, audio_time: Option<i64>) -> int {
    match audio_time {
        Some(t) => t as int,
        None => sat(current + FRAME_MS),
    }
}

/// The layers once the uploaded audio at `url` is attached to the layer
/// identified by `id`: it plays that audio and, when the upload's length
/// `duration` is known, lasts that long, its parent lengthened to cover it.
pub open spec fn with_upload(s: Seq<Layer>, id: Seq<char>, url: String, duration: Option<i64>) -> Seq<Layer> {
    match find_layer(s, id) {
        None => s,
        Some(i) => {
            let l = s[i];
            match duration {
                Some(d) => {
                    let s1 = s.update(i, Layer { media_url: Some(url), duration: d, ..l });
                    match l.parent_id {
                        Some(p) => expand(s1, p@, sat(l.start_time + d), s1.len()),
                        None => s1,
                    }
                },
                None => s.update(i, Layer { media_url: Some(url), ..l }),
            }
        },
    }
}

pub open spec fn end_views(v: Seq<(String, i64)>) -> Seq<(Seq<char>, int)> {
    v.map_values(|e: (String, i64)| (e.0@, e.1 as int))
}

fn needs_sync_exec(l: &Layer, len: i64) -> (r: bool)
    ensures
        r == needs_sync(*l, len as int),
{
    let d: i128 = l.duration as i128 - len as i128;
    l.layer_type == LayerType::Audio && (d > 100 || -d > 100)
}

impl AppState {
    /// Sets every audio layer that `needs_sync` to length `len`, then lengthens
    /// their parents, in layer order, to cover them.
    fn sync_audio_lengths(&mut self, len: i64)
        ensures
            final(self).layers@ == expand_all(synced(old(self).layers@, len), sync_ends(old(self).layers@, len)),
            *final(self) == (AppState { layers: final(self).layers, ..*old(self) }),
    {
        let ghost s0 = self.layers@;
        let mut ends: Vec<(String, i64)> = Vec::new();
        let n = self.layers.len();
        for i in 0..n
            invariant
                n == s0.len(),
                self.layers@.len() == n,
                forall|j: int| 0 <= j < i ==> #[trigger] self.layers@[j] == synced(s0, len)[j],
                forall|j: int| i <= j < n ==> #[trigger] self.layers@[j] == s0[j],
                end_views(ends@) == sync_ends(s0.take(i as int), len),
                *self == (AppState { layers: self.layers, ..*old(self) }),
        {
            assert(s0.take(i + 1).drop_last() =~= s0.take(i as int));
            assert(s0.take(i + 1).last() == s0[i as int]);
            let l = self.layers[i].clone();
            if needs_sync_exec(&l, len) {
                if let Some(p) = &l.parent_id {
                    ends.push((p.clone(), add_ms(l.start_time, len)));
                }
                let mut nl = l;
                nl.duration = len;
                self.layers.set(i, nl);
            }
            assert(end_views(ends@) =~= sync_ends(s0.take(i + 1), len));
        }
        assert(s0.take(n as int) =~= s0);
        assert(self.layers@ =~= synced(s0, len));
        let ghost s1 = self.layers@;
        let m = ends.len();
        for k in 0..m
            invariant
                m == ends@.len(),
                end_views(ends@) == sync_ends(s0, len),
                self.layers@ == expand_all(s1, end_views(ends@).take(k as int)),
                *self == (AppState { layers: self.layers, ..*old(self) }),
        {
            let ghost es = end_views(ends@).take(k + 1);
            assert(es.drop_last() =~= end_views(ends@).take(k as int));
            assert(es.last() == (ends@[k as int].0@, ends@[k as int].1 as int));
            let t = ends[k].1;
            self.expand_parent_duration(ends[k].0.as_str(), t);
        }
        assert(end_views(ends@).take(m as int) =~= end_views(ends@));
    }

    /// Takes in an uploaded audio file for the layer identified by `id` (see
    /// `with_upload`), names the loaded audio after `file_name` when it is
    /// given, and marks audio as loaded.
    pub fn attach_uploaded_audio(
        &mut self,
        id: &str,
        url: String,
        duration_ms: Option<i64>,
        file_name: Option<String>,
    )
        ensures
            final(self).layers@ == with_upload(old(self).layers@, id@, url, duration_ms),
            final(self).audio_loaded,
            final(self).audio_file_name == match file_name {
                Some(n) => Some(n),
                None => old(self).audio_file_name,
            },
            *final(self) == (AppState {
                layers: final(self).layers,
                audio_loaded: final(self).audio_loaded,
                audio_file_name: final(self).audio_file_name,
                ..*old(self)
            }),
    {
        self.attach_upload_to_layer(id, url, duration_ms);
        if let Some(n) = file_name {
            self.audio_file_name = Some(n);
        }
        self.audio_loaded = true;
    }

    #[verifier::rlimit(40)]
    fn attach_upload_to_layer(&mut self, id: &str, url: String, duration_ms: Option<i64>)
        ensures
            final(self).layers@ == with_upload(old(self).layers@, id@, url, duration_ms),
            *final(self) == (AppState { layers: final(self).layers, ..*old(self) }),
    {
        let key = String::from_str(id);
        proof {
            lemma_find(self.layers@, key@);
        }
        if let Some(i) = position_of(&self.layers, &key) {
            let l = self.layers[i].clone();
            let ghost s0 = self.layers@;
            assert(l == s0[i as int]);
            match duration_ms {
                Some(d) => {
                    let nl = Layer { media_url: Some(url), duration: d, ..l.clone() };
                    self.layers.set(i, nl);
                    assert(self.layers@ == s0.update(i as int, Layer { media_url: Some(url), duration: d, ..s0[i as int] }));
                    match &l.parent_id {
                        Some(p) => {
                            let end = add_ms(l.start_time, d);
                            self.expand_parent_duration(p.as_str(), end);
                        },
                        None => {},
                    }
                },
                None => {
                    let nl = Layer { media_url: Some(url), ..l.clone() };
                    self.layers.set(i, nl);
                },
            }
        }
    }

    /// Starts playback when stopped and stops it when playing; the result
    /// tells whether it now plays.
    pub fn toggle_playing(&mut self) -> (playing: bool)
        ensures
            playing == !old(self).is_playing,
            *final(self) == (AppState { is_playing: playing, ..*old(self) }),
    {
        self.is_playing = !self.is_playing;
        self.is_playing
    }

    /// Stops playback and moves the playhead to the start.
    pub fn stop_playback(&mut self)
        ensures
            *final(self) == (AppState { is_playing: false, current_time: 0, ..*old(self) }),
    {
        self.seek_to(0);
        self.is_playing = false;
    }

    /// Turns looping at the end of the timeline on or off.
    pub fn toggle_loop(&mut self)
        ensures
            *final(self) == (AppState { loop_playback: !old(self).loop_playback, ..*old(self) }),
    {
        self.loop_playback = !self.loop_playback;
    }

    /// One frame of playback. When audio with a positive length
    /// `audio_len_ms` is loaded, audio layers whose length is more than a
    /// tenth of a second off take it, and their parents are lengthened to
    /// cover them. The playhead then moves to the audio's time
    /// `audio_time_ms`, or one frame on without audio. Past the end of the
    /// timeline it goes back to the start when looping (and the audio
    /// restarts), or stops at the end (and the audio pauses and rewinds);
    /// otherwise it skips any gap between root workstreams.
    pub fn playback_step(&mut self, audio_time_ms: Option<i64>, audio_len_ms: Option<i64>) -> (act: PlaybackAction)
        requires
            old(self).is_playing,
        ensures
            final(self).layers@ == after_sync(old(self).layers@, audio_len_ms),
            ({
                let next = next_time(old(self).current_time, audio_time_ms);
                let dur = max_i(max_end(final(self).layers@), MIN_TIMELINE_MS as int);
                if next > dur {
                    if old(self).loop_playback {
                        &&& final(self).current_time == 0
                        &&& final(self).is_playing
                        &&& act == PlaybackAction::Restart
                    } else {
                        &&& final(self).current_time == dur
                        &&& !final(self).is_playing
                        &&& act == PlaybackAction::PauseAndRewind
                    }
                } else {
                    &&& final(self).current_time == next_active(final(self).layers@, next)
                    &&& final(self).is_playing
                    &&& act == PlaybackAction::Continue
                }
            }),
            *final(self) == (AppState {
                layers: final(self).layers,
                current_time: final(self).current_time,
                is_playing: final(self).is_playing,
                ..*old(self)
            }),
    {
        if let Some(d) = audio_len_ms {
            if d > 0 {
                self.sync_audio_lengths(d);
            }
        }
        let next: i64 = match audio_time_ms {
            Some(t) => t,
            None => add_ms(self.current_time, FRAME_MS),
        };
        let dur = self.timeline_duration();
        if next > dur {
            if self.loop_playback {
                self.current_time = 0;
                PlaybackAction::Restart
            } else {
                self.current_time = dur;
                self.is_playing = false;
                PlaybackAction::PauseAndRewind
            }
        } else {
            self.current_time = self.next_active_time(next);
            PlaybackAction::Continue
        }
    }
}

} // verus!
