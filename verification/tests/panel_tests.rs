use vibe_studio::add_dialog::{label_matches, search_addable};
use vibe_studio::kinds::{AudioBand, LayerType};
use vibe_studio::layer::{Layer, CLIP_MS};
use vibe_studio::panels::{audio_band_named, resolution_label, resolution_presets, DropZone, LayerEdit, Panel, TimingField};
use vibe_studio::playback::PlaybackAction;
use vibe_studio::state::{AppState, ClipDragMode, ProjectAsset};

fn layer<'a>(state: &'a AppState, id: &str) -> &'a Layer {
    state.layers.iter().find(|l| l.id == id).unwrap()
}

fn child(state: &mut AppState, t: LayerType, parent: Option<&str>) -> String {
    let l = Layer::new(t, parent.map(|p| p.to_string()), &mut state.next_layer_id);
    let id = l.id.clone();
    state.layers.push(l);
    id
}

fn names(v: &[&Layer]) -> Vec<String> {
    v.iter().map(|l| l.name.clone()).collect()
}

fn ids_of(v: &[&Layer]) -> Vec<String> {
    v.iter().map(|l| l.id.clone()).collect()
}

// ── laws on concrete values ──

#[test]
fn every_layer_type_has_its_own_label() {
    let all = [
        LayerType::Composition,
        LayerType::Workstream,
        LayerType::SpectrumCircle,
        LayerType::SpectrumMountain,
        LayerType::Particles,
        LayerType::ParticleRings,
        LayerType::Starfield,
        LayerType::Tunnel,
        LayerType::Kaleidoscope,
        LayerType::Laser,
        LayerType::Glitch,
        LayerType::Text,
        LayerType::Image,
        LayerType::Video,
        LayerType::Audio,
        LayerType::Waveform,
        LayerType::ChromaticAberration,
        LayerType::ColorCorrection,
        LayerType::FilmGrain,
        LayerType::VhsEffect,
        LayerType::GlitchPost,
        LayerType::Sharpening,
        LayerType::CameraShake,
    ];
    for a in all.iter() {
        for b in all.iter() {
            assert_eq!(a.label() == b.label(), a == b);
        }
    }
}

#[test]
fn a_drag_changes_only_its_clip_and_mode_fields() {
    let mut s = AppState::default();
    s.snap_to_grid = false;
    let a = child(&mut s, LayerType::Text, None);
    let b = child(&mut s, LayerType::Image, None);
    s.update_layer_timing(&a, 1000, 3000);
    s.update_layer_timing(&b, 2000, 3000);
    let before_b = layer(&s, &b).clone();
    let before_a = layer(&s, &a).clone();
    s.begin_clip_drag(&a, ClipDragMode::FadeIn, 0);
    s.update_clip_drag(50, 100);
    let after_a = layer(&s, &a).clone();
    assert_eq!(after_a.fade_in, 500);
    assert_eq!((after_a.start_time, after_a.duration, after_a.fade_out), (before_a.start_time, before_a.duration, before_a.fade_out));
    assert_eq!(after_a.name, before_a.name);
    let after_b = layer(&s, &b);
    assert_eq!((after_b.start_time, after_b.duration, after_b.fade_in), (before_b.start_time, before_b.duration, before_b.fade_in));
    assert_eq!(s.layers.len(), 3);
}

#[test]
fn an_asset_drop_under_a_group_keeps_the_tree_acyclic() {
    let mut s = AppState::default();
    let ws = s.layers[0].id.clone();
    let comp = child(&mut s, LayerType::Composition, Some(&ws));
    s.project_assets.push(ProjectAsset {
        id: "pic".to_string(),
        name: "photo.png".to_string(),
        media_url: "blob:2".to_string(),
        asset_type: "image".to_string(),
    });
    s.reparent("asset:pic", Some(comp.clone()));
    let added = s.layers.last().unwrap().id.clone();
    assert!(s.is_descendant_of(&added, &ws));
    assert!(!s.is_descendant_of(&ws, &added));
    assert!(!s.is_descendant_of(&added, &added));
    assert_eq!(layer(&s, &added).layer_type, LayerType::Image);
}

// ── playback frames ──

#[test]
fn playback_advances_one_frame_without_audio() {
    let mut s = AppState::default();
    s.is_playing = true;
    s.current_time = 1000;
    assert_eq!(s.playback_step(None, None), PlaybackAction::Continue);
    assert_eq!(s.current_time, 1016);
    assert!(s.is_playing);
}

#[test]
fn playback_follows_the_audio_time() {
    let mut s = AppState::default();
    s.is_playing = true;
    assert_eq!(s.playback_step(Some(12345), None), PlaybackAction::Continue);
    assert_eq!(s.current_time, 12345);
}

#[test]
fn playback_past_the_end_stops_or_loops() {
    let mut s = AppState::default();
    s.is_playing = true;
    s.current_time = 29990;
    assert_eq!(s.playback_step(None, None), PlaybackAction::PauseAndRewind);
    assert_eq!(s.current_time, 30000);
    assert!(!s.is_playing);

    let mut l = AppState::default();
    l.is_playing = true;
    l.loop_playback = true;
    l.current_time = 29990;
    assert_eq!(l.playback_step(None, None), PlaybackAction::Restart);
    assert_eq!(l.current_time, 0);
    assert!(l.is_playing);
}

#[test]
fn playback_jumps_over_gaps_between_workstreams() {
    let mut s = AppState::default();
    s.add_workstream_with_duration(10000);
    let first = s.layers[0].id.clone();
    s.update_layer_timing(&first, 0, 5000);
    let second = s.layers[1].id.clone();
    s.update_layer_timing(&second, 8000, 2000);
    s.is_playing = true;
    s.current_time = 5000;
    assert_eq!(s.playback_step(None, None), PlaybackAction::Continue);
    assert_eq!(s.current_time, 8000);
}

#[test]
fn playback_stretches_audio_layers_and_their_groups() {
    let mut s = AppState::default();
    let ws = s.layers[0].id.clone();
    let comp = child(&mut s, LayerType::Composition, Some(&ws));
    s.update_layer_timing(&comp, 0, 10000);
    let song = child(&mut s, LayerType::Audio, Some(&comp));
    s.update_layer_timing(&song, 1000, 5000);
    let close = child(&mut s, LayerType::Audio, None);
    s.update_layer_timing(&close, 0, 39950);
    s.is_playing = true;
    assert_eq!(s.playback_step(Some(0), Some(40000)), PlaybackAction::Continue);
    assert_eq!(layer(&s, &song).duration, 40000);
    assert_eq!(layer(&s, &comp).duration, 41000);
    assert_eq!(layer(&s, &ws).duration, 41000);
    // within a tenth of a second: left as it was
    assert_eq!(layer(&s, &close).duration, 39950);
    // no positive length: nothing is stretched
    s.update_layer_timing(&song, 1000, 5000);
    s.playback_step(Some(0), Some(0));
    assert_eq!(layer(&s, &song).duration, 5000);
}

// ── timeline rows and tree rows ──

#[test]
fn master_track_orders_every_composition_by_start() {
    let mut s = AppState::default();
    let a = child(&mut s, LayerType::Composition, None);
    let b = child(&mut s, LayerType::Composition, None);
    let c = child(&mut s, LayerType::Composition, None);
    let ws = s.layers[0].id.clone();
    let nested = child(&mut s, LayerType::Composition, Some(&ws));
    let _text = child(&mut s, LayerType::Text, Some(&ws));
    s.update_layer_timing(&a, 5000, 1000);
    s.update_layer_timing(&b, 1000, 1000);
    s.update_layer_timing(&c, 5000, 1000);
    s.update_layer_timing(&nested, 0, 1000);
    assert_eq!(ids_of(&s.master_track()), vec![nested, b, a, c]);
}

#[test]
fn master_track_shows_compositions_added_to_a_workstream() {
    let mut s = AppState::default();
    s.add_composition(None);
    s.add_composition(None);
    let track = s.master_track();
    assert_eq!(track.len(), 2);
    assert!(track.iter().all(|l| l.layer_type == LayerType::Composition));
    assert!(track[0].start_time <= track[1].start_time);
}

#[test]
fn open_rows_keep_the_first_of_each_name() {
    let mut s = AppState::default();
    let comp = child(&mut s, LayerType::Composition, None);
    let t1 = child(&mut s, LayerType::Text, Some(&comp));
    let t2 = child(&mut s, LayerType::Image, Some(&comp));
    let t3 = child(&mut s, LayerType::Laser, Some(&t2));
    s.rename_layer(&t1, "Same".to_string());
    s.rename_layer(&t3, "Same".to_string());
    let rows = s.open_rows(&comp);
    assert_eq!(ids_of(&rows), vec![t1.clone(), t2.clone()]);
    assert_eq!(names(&rows)[0], "Same");
}

#[test]
fn workstream_lists_its_compositions() {
    let mut s = AppState::default();
    let ws = s.layers[0].id.clone();
    let c1 = child(&mut s, LayerType::Composition, Some(&ws));
    let _t = child(&mut s, LayerType::Text, Some(&ws));
    let c2 = child(&mut s, LayerType::Composition, Some(&ws));
    let _c3 = child(&mut s, LayerType::Composition, None);
    assert_eq!(ids_of(&s.workstream_compositions(&ws)), vec![c1, c2]);
}

#[test]
fn tree_rows_filter_by_parent() {
    let mut s = AppState::default();
    let ws = s.layers[0].id.clone();
    let comp = child(&mut s, LayerType::Composition, Some(&ws));
    let text = child(&mut s, LayerType::Text, Some(&ws));
    let loose = child(&mut s, LayerType::Laser, None);
    let under = Some(ws.clone());
    assert_eq!(ids_of(&s.tree_children(&under, false)), vec![comp.clone(), text.clone()]);
    assert_eq!(ids_of(&s.tree_children(&under, true)), vec![text.clone()]);
    assert_eq!(ids_of(&s.tree_children(&None, false)), vec![ws.clone(), loose.clone()]);
    assert!(s.has_children(&ws));
    assert!(!s.has_children(&text));
}

// ── the inspector ──

#[test]
fn inspector_panel_follows_the_selection() {
    let mut s = AppState::default();
    assert_eq!(s.inspector_panel(), Panel::Blank);
    s.selected_id = Some("__project__".to_string());
    assert_eq!(s.inspector_panel(), Panel::Project);
    s.selected_id = Some("__global_effects__".to_string());
    assert_eq!(s.inspector_panel(), Panel::GlobalEffects);
    let t = child(&mut s, LayerType::Text, None);
    s.selected_id = Some(t);
    assert_eq!(s.inspector_panel(), Panel::Layer(1));
    s.selected_id = Some("gone".to_string());
    assert_eq!(s.inspector_panel(), Panel::Blank);
}

#[test]
fn inspector_timing_inputs_are_clamped() {
    let mut s = AppState::default();
    let t = child(&mut s, LayerType::Text, None);
    s.set_timing(&t, TimingField::Start, -500);
    assert_eq!(layer(&s, &t).start_time, 0);
    s.set_timing(&t, TimingField::Start, 2500);
    assert_eq!(layer(&s, &t).start_time, 2500);
    s.set_timing(&t, TimingField::Duration, 20);
    assert_eq!(layer(&s, &t).duration, 100);
    s.set_timing(&t, TimingField::Duration, 4200);
    assert_eq!(layer(&s, &t).duration, 4200);
    s.set_timing(&t, TimingField::FadeIn, -1);
    assert_eq!(layer(&s, &t).fade_in, 0);
    s.set_timing(&t, TimingField::FadeOut, 300);
    assert_eq!(layer(&s, &t).fade_out, 300);
    s.set_timing("gone", TimingField::Start, 7);
    assert_eq!(layer(&s, &t).start_time, 2500);
    assert_eq!(layer(&s, &t).duration, 4200);
    assert_ne!(CLIP_MS, 4200);
}

#[test]
fn project_size_is_at_least_one_pixel() {
    let mut s = AppState::default();
    s.set_project_width(0);
    s.set_project_height(0);
    assert_eq!((s.project_width, s.project_height), (1, 1));
    s.set_project_width(640);
    s.set_project_height(480);
    assert_eq!((s.project_width, s.project_height), (640, 480));
}

#[test]
fn resolution_presets_and_labels() {
    let p = resolution_presets();
    assert_eq!(p, vec![(1920, 1080), (1280, 720), (3840, 2160), (1080, 1920), (1080, 1080)]);
    assert_eq!(resolution_label(1920, 1080), "1920×1080");
    assert_eq!(resolution_label(3840, 2160), "3840×2160");
    let mut s = AppState::default();
    s.apply_resolution_preset(3);
    assert_eq!((s.project_width, s.project_height), (1080, 1920));
}

// ── the sidebar ──

#[test]
fn rename_trims_and_skips_empty_names() {
    let mut s = AppState::default();
    let t = child(&mut s, LayerType::Text, None);
    s.rename_from_input(&t, "  Title \t");
    assert_eq!(layer(&s, &t).name, "Title");
    s.rename_from_input(&t, "   ");
    assert_eq!(layer(&s, &t).name, "Title");
}

#[test]
fn drops_on_rows_reorder_or_reparent() {
    let mut s = AppState::default();
    let ws = s.layers[0].id.clone();
    let a = child(&mut s, LayerType::Text, Some(&ws));
    let b = child(&mut s, LayerType::Image, None);
    s.drop_on_layer(&b, &a, Some(DropZone::Above));
    assert_eq!(s.layers[1].id, b);
    assert_eq!(layer(&s, &b).parent_id.as_deref(), Some(ws.as_str()));
    s.drop_on_layer(&b, &a, Some(DropZone::Below));
    assert_eq!(s.layers[2].id, b);
    s.drop_on_layer(&b, &a, Some(DropZone::Onto));
    assert_eq!(layer(&s, &b).parent_id.as_deref(), Some(a.as_str()));
    let before: Vec<String> = s.layers.iter().map(|l| l.id.clone()).collect();
    s.drop_on_layer(&b, &b, Some(DropZone::Onto));
    s.drop_on_layer(&a, &b, None);
    let after: Vec<String> = s.layers.iter().map(|l| l.id.clone()).collect();
    assert_eq!(before, after);
    assert_eq!(layer(&s, &b).parent_id.as_deref(), Some(a.as_str()));
}

#[test]
fn drop_on_empty_area_binds_to_first_workstream() {
    let mut s = AppState::default();
    let ws = s.layers[0].id.clone();
    let t = child(&mut s, LayerType::Text, None);
    s.drop_on_empty_area(&t);
    assert_eq!(layer(&s, &t).parent_id.as_deref(), Some(ws.as_str()));

    let mut bare = AppState::default();
    bare.layers.clear();
    let loose = child(&mut bare, LayerType::Text, None);
    bare.drop_on_empty_area(&loose);
    assert_eq!(layer(&bare, &loose).parent_id, None);
}

// ── the add dialog ──

#[test]
fn search_ignores_case() {
    let found = search_addable("GLITCH");
    assert_eq!(found, vec![LayerType::Glitch, LayerType::GlitchPost]);
    let spec = search_addable("spectrum");
    assert_eq!(spec, vec![LayerType::SpectrumCircle, LayerType::SpectrumMountain]);
    assert_eq!(search_addable("").len(), 21);
    assert!(search_addable("zzz").is_empty());
    assert_eq!(search_addable("vhs"), vec![LayerType::VhsEffect]);
}

#[test]
fn label_match_is_a_substring_test() {
    assert!(label_matches("particle rings", "e r"));
    assert!(label_matches("tunnel", ""));
    assert!(!label_matches("tunnel", "tunnels"));
    assert!(!label_matches("laser", "Laser"));
}

#[test]
fn add_dialog_names_its_parent() {
    let mut s = AppState::default();
    assert_eq!(s.add_parent_title(), "Root (Unbound)");
    s.add_parent_id = Some(s.layers[0].id.clone());
    assert_eq!(s.add_parent_title(), "Workstream 1");
    s.add_parent_id = Some("gone".to_string());
    assert_eq!(s.add_parent_title(), "Root (Unbound)");
}

#[test]
fn uploaded_audio_is_attached_and_stretches_its_group() {
    let mut s = AppState::default();
    let ws = s.layers[0].id.clone();
    let song = child(&mut s, LayerType::Audio, Some(&ws));
    s.update_layer_timing(&song, 2000, 5000);
    s.attach_uploaded_audio(&song, "blob:9".to_string(), Some(45000), Some("mix.wav".to_string()));
    assert_eq!(layer(&s, &song).media_url.as_deref(), Some("blob:9"));
    assert_eq!(layer(&s, &song).duration, 45000);
    assert_eq!(layer(&s, &ws).duration, 47000);
    assert!(s.audio_loaded);
    assert_eq!(s.audio_file_name.as_deref(), Some("mix.wav"));
    s.attach_uploaded_audio(&song, "blob:10".to_string(), None, None);
    assert_eq!(layer(&s, &song).media_url.as_deref(), Some("blob:10"));
    assert_eq!(layer(&s, &song).duration, 45000);
    assert_eq!(s.audio_file_name.as_deref(), Some("mix.wav"));
    let count = s.layers.len();
    s.attach_uploaded_audio("gone", "blob:11".to_string(), Some(1), None);
    assert_eq!(s.layers.len(), count);
}

#[test]
fn following_the_pointer_twice_changes_nothing_more() {
    let mut s = AppState::default();
    let ws = s.layers[0].id.clone();
    let comp = child(&mut s, LayerType::Composition, Some(&ws));
    s.update_layer_timing(&comp, 1000, 8000);
    let clip = child(&mut s, LayerType::Text, Some(&comp));
    let other = child(&mut s, LayerType::Image, Some(&comp));
    s.update_layer_timing(&clip, 2000, 3000);
    s.update_layer_timing(&other, 6100, 1000);
    for mode in [ClipDragMode::Move, ClipDragMode::TrimLeft, ClipDragMode::TrimRight, ClipDragMode::FadeIn, ClipDragMode::FadeOut] {
        s.begin_clip_drag(&clip, mode, 300);
        s.update_clip_drag(410, 100);
        let once: Vec<Layer> = s.layers.clone();
        s.update_clip_drag(410, 100);
        for (a, b) in once.iter().zip(s.layers.iter()) {
            assert_eq!((a.start_time, a.duration, a.fade_in, a.fade_out), (b.start_time, b.duration, b.fade_in, b.fade_out));
        }
        s.end_clip_drag();
    }
}

#[test]
fn inspector_edits_one_layer() {
    let mut s = AppState::default();
    let t = child(&mut s, LayerType::Image, None);
    s.edit_layer(&t, LayerEdit::ToggleFlipX);
    assert!(layer(&s, &t).flip_x);
    s.edit_layer(&t, LayerEdit::ToggleFlipX);
    assert!(!layer(&s, &t).flip_x);
    s.edit_layer(&t, LayerEdit::ToggleFlipY);
    assert!(layer(&s, &t).flip_y);
    s.edit_layer(&t, LayerEdit::AudioReact(audio_band_named("Treble")));
    assert_eq!(layer(&s, &t).audio_react, AudioBand::Treble);
    s.edit_layer(&t, LayerEdit::AudioReact(audio_band_named("None")));
    assert_eq!(layer(&s, &t).audio_react, AudioBand::Off);
    assert_eq!(audio_band_named("Bass"), AudioBand::Bass);
    assert_eq!(audio_band_named("Mid"), AudioBand::Mid);
    assert_eq!(audio_band_named("bass"), AudioBand::Off);
    s.edit_layer(&t, LayerEdit::CustomColor("#123456".to_string()));
    assert_eq!(layer(&s, &t).custom_color.as_deref(), Some("#123456"));
    s.edit_layer(&t, LayerEdit::MediaUrl("blob:img".to_string()));
    assert_eq!(layer(&s, &t).media_url.as_deref(), Some("blob:img"));
    s.edit_layer("gone", LayerEdit::ToggleFlipY);
    assert!(layer(&s, &t).flip_y);
    s.set_project_name("Clip".to_string());
    assert_eq!(s.project_name, "Clip");
    s.select(t.clone());
    assert_eq!(s.selected_id.as_deref(), Some(t.as_str()));
}

#[test]
fn play_stop_and_loop_buttons() {
    let mut s = AppState::default();
    s.current_time = 4000;
    assert!(s.toggle_playing());
    assert!(s.is_playing);
    assert!(!s.toggle_playing());
    assert!(s.toggle_playing());
    s.stop_playback();
    assert!(!s.is_playing);
    assert_eq!(s.current_time, 0);
    s.toggle_loop();
    assert!(s.loop_playback);
    s.toggle_loop();
    assert!(!s.loop_playback);
}

#[test]
fn empty_search_lists_everything_in_order() {
    assert_eq!(search_addable(""), LayerType::addable_types().to_vec());
}
