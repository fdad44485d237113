use vibe_studio::drag::MIN_CLIP_MS;
use vibe_studio::ids::gen_id;
use vibe_studio::kinds::{AudioBand, LayerType};
use vibe_studio::layer::{Layer, CLIP_MS, GROUP_MS};
use vibe_studio::state::{AppState, ClipDragMode, ProjectAsset};

fn ids(state: &AppState) -> Vec<String> {
    state.layers.iter().map(|l| l.id.clone()).collect()
}

fn layer<'a>(state: &'a AppState, id: &str) -> &'a Layer {
    state.layers.iter().find(|l| l.id == id).unwrap()
}

fn child(state: &mut AppState, t: LayerType, parent: Option<&str>) -> String {
    let l = Layer::new(t, parent.map(|p| p.to_string()), &mut state.next_layer_id);
    let id = l.id.clone();
    state.layers.push(l);
    id
}

#[test]
fn layer_type_texts() {
    assert_eq!(LayerType::Composition.label(), "Composition");
    assert_eq!(LayerType::ChromaticAberration.label(), "Chromatic Aberration");
    assert_eq!(LayerType::VhsEffect.label(), "VHS Effect");
    assert_eq!(LayerType::Workstream.color_hex(), "#3b82f6");
    assert_eq!(LayerType::CameraShake.color_hex(), "#ff6b6b");
    assert_eq!(LayerType::Text.icon(), "T");
    assert_eq!(LayerType::FilmGrain.icon(), "🪄");
    assert_eq!(LayerType::CameraShake.icon(), "📳");
    assert_eq!(LayerType::Laser.icon(), "✨");
    assert_eq!(LayerType::Starfield.description(), "Infinite zooming stars.");
}

#[test]
fn addable_types_exclude_groups() {
    let all = LayerType::addable_types();
    assert_eq!(all.len(), 21);
    assert_eq!(all[0], LayerType::Image);
    assert_eq!(all[20], LayerType::CameraShake);
    assert!(!all.contains(&LayerType::Composition));
    assert!(!all.contains(&LayerType::Workstream));
}

#[test]
fn ids_count_up_and_wrap() {
    let mut c: u64 = 1;
    assert_eq!(gen_id(&mut c), "layer_1");
    assert_eq!(gen_id(&mut c), "layer_2");
    assert_eq!(c, 3);
    let mut top = u64::MAX;
    assert_eq!(gen_id(&mut top), "layer_18446744073709551615");
    assert_eq!(top, 0);
    assert_eq!(gen_id(&mut top), "layer_0");
}

#[test]
fn new_layers_defaults() {
    let mut c: u64 = 7;
    let t = Layer::new(LayerType::Text, None, &mut c);
    assert_eq!(t.id, "layer_7");
    assert_eq!(t.name, "Text r_7");
    assert_eq!(t.duration, CLIP_MS);
    assert_eq!(t.start_time, 0);
    assert!(t.visible);
    assert_eq!(t.audio_react, AudioBand::Off);
    let g = Layer::new(LayerType::Composition, Some("p".to_string()), &mut c);
    assert_eq!(g.name, "Composition r_8");
    assert_eq!(g.duration, GROUP_MS);
    assert_eq!(g.parent_id.as_deref(), Some("p"));
    let mut c2: u64 = 123;
    assert_eq!(Layer::new(LayerType::Audio, None, &mut c2).name, "Audio 123");
    let comp = Layer::new_composition("Intro", 1500, 4000, &mut c2);
    assert_eq!((comp.name.as_str(), comp.start_time, comp.duration), ("Intro", 1500, 4000));
    assert_eq!(comp.layer_type, LayerType::Composition);
    let ws = Layer::new_workstream("Main", &mut c2);
    assert_eq!((ws.name.as_str(), ws.duration, ws.layer_type), ("Main", GROUP_MS, LayerType::Workstream));
    assert_eq!(c2, 126);
}

#[test]
fn default_state() {
    let s = AppState::default();
    assert_eq!(s.layers.len(), 1);
    assert_eq!(s.layers[0].id, "layer_1");
    assert_eq!(s.layers[0].name, "Workstream 1");
    assert_eq!(s.layers[0].layer_type, LayerType::Workstream);
    assert!(s.is_comp_open("layer_1"));
    assert_eq!(s.next_layer_id, 2);
    assert_eq!(s.terminal_logs.len(), 1);
    assert!(s.snap_to_grid);
    assert_eq!(s.project_name, "My Project");
    assert_eq!((s.project_width, s.project_height), (1920, 1080));
}

#[test]
fn add_layer_under_composition_takes_its_span() {
    let mut s = AppState::default();
    let mut c = s.next_layer_id;
    let mut comp = Layer::new_composition("C", 2000, 8000, &mut c);
    s.next_layer_id = c;
    comp.parent_id = None;
    let cid = comp.id.clone();
    s.layers.push(comp);
    let l = Layer::new(LayerType::Text, Some(cid.clone()), &mut s.next_layer_id);
    let lid = l.id.clone();
    s.add_layer(l);
    let added = layer(&s, &lid);
    assert_eq!((added.start_time, added.duration), (2000, 8000));
    assert_eq!(s.selected_id.as_deref(), Some(lid.as_str()));
}

#[test]
fn add_layer_under_workstream_staggers() {
    let mut s = AppState::default();
    let ws = s.layers[0].id.clone();
    let a = Layer::new(LayerType::Text, Some(ws.clone()), &mut s.next_layer_id);
    s.add_layer(a);
    let b = Layer::new(LayerType::Image, Some(ws.clone()), &mut s.next_layer_id);
    let bid = b.id.clone();
    s.add_layer(b);
    assert_eq!(layer(&s, &bid).start_time, 5000);
    // A layer that would run past the workstream is cut to fit, but keeps half a second.
    let mut c = Layer::new(LayerType::Image, Some(ws.clone()), &mut s.next_layer_id);
    c.duration = 25000;
    let cid = c.id.clone();
    s.add_layer(c);
    assert_eq!((layer(&s, &cid).start_time, layer(&s, &cid).duration), (10000, 20000));
    let d = Layer::new(LayerType::Image, Some(ws), &mut s.next_layer_id);
    let did = d.id.clone();
    s.add_layer(d);
    assert_eq!((layer(&s, &did).start_time, layer(&s, &did).duration), (30000, 500));
}

#[test]
fn add_layer_snaps_to_tenths() {
    let mut s = AppState::default();
    let mut l = Layer::new(LayerType::Text, None, &mut s.next_layer_id);
    l.start_time = 1249;
    let a = l.id.clone();
    s.add_layer(l);
    assert_eq!(layer(&s, &a).start_time, 1200);
    let mut l = Layer::new(LayerType::Text, None, &mut s.next_layer_id);
    l.start_time = 1250;
    let b = l.id.clone();
    s.add_layer(l);
    assert_eq!(layer(&s, &b).start_time, 1300);
    let mut l = Layer::new(LayerType::Text, None, &mut s.next_layer_id);
    l.start_time = -1250;
    let c = l.id.clone();
    s.add_layer(l);
    assert_eq!(layer(&s, &c).start_time, -1300);
    s.snap_to_grid = false;
    let mut l = Layer::new(LayerType::Text, None, &mut s.next_layer_id);
    l.start_time = 1249;
    let d = l.id.clone();
    s.add_layer(l);
    assert_eq!(layer(&s, &d).start_time, 1249);
}

#[test]
fn add_layer_under_plain_layer_is_cut_to_it() {
    let mut s = AppState::default();
    let host = child(&mut s, LayerType::Video, None);
    s.update_layer_timing(&host, 1000, 3000);
    let mut l = Layer::new(LayerType::Text, Some(host.clone()), &mut s.next_layer_id);
    l.duration = 4000;
    let id = l.id.clone();
    s.add_layer(l);
    assert_eq!((layer(&s, &id).start_time, layer(&s, &id).duration), (1000, 3000));
}

#[test]
fn timeline_lasts_at_least_five_seconds() {
    let mut s = AppState::default();
    s.layers.clear();
    assert_eq!(s.timeline_duration(), 5000);
    let a = child(&mut s, LayerType::Text, None);
    s.update_layer_timing(&a, 1000, 2000);
    assert_eq!(s.timeline_duration(), 5000);
    s.update_layer_timing(&a, 4000, 9000);
    assert_eq!(s.timeline_duration(), 13000);
}

#[test]
fn seek_clamps_to_timeline() {
    let mut s = AppState::default();
    s.seek_to(-10);
    assert_eq!(s.current_time, 0);
    s.seek_to(12345);
    assert_eq!(s.current_time, 12345);
    s.seek_to(99_000);
    assert_eq!(s.current_time, 30000);
}

#[test]
fn playback_skips_gaps() {
    let mut s = AppState::default();
    s.add_workstream_with_duration(10000);
    let second = s.layers[1].id.clone();
    s.update_layer_timing(&second, 40000, 10000);
    assert_eq!(s.layers[1].name, "Workstream 2");
    assert_eq!(s.next_active_time(1000), 1000);
    assert_eq!(s.next_active_time(30000), 30000);
    assert_eq!(s.next_active_time(35000), 40000);
    assert_eq!(s.next_active_time(60000), 60000);
}

#[test]
fn removing_orphans_children() {
    let mut s = AppState::default();
    let ws = s.layers[0].id.clone();
    let a = child(&mut s, LayerType::Text, Some(&ws));
    let b = child(&mut s, LayerType::Image, Some(&ws));
    s.selected_id = Some(ws.clone());
    s.remove_layer(&ws);
    assert_eq!(ids(&s), vec![a.clone(), b.clone()]);
    assert!(s.layers.iter().all(|l| l.parent_id.is_none()));
    assert_eq!(s.selected_id, None);
    s.selected_id = Some(a.clone());
    s.remove_layer("missing");
    assert_eq!(s.layers.len(), 2);
    assert_eq!(s.selected_id.as_deref(), Some(a.as_str()));
}

#[test]
fn toggling_visibility_twice_restores() {
    let mut s = AppState::default();
    let ws = s.layers[0].id.clone();
    s.toggle_visibility(&ws);
    assert!(!s.layers[0].visible);
    s.toggle_visibility(&ws);
    assert!(s.layers[0].visible);
    s.toggle_visibility("nothing");
    assert!(s.layers[0].visible);
}

#[test]
fn rename_and_retime() {
    let mut s = AppState::default();
    let ws = s.layers[0].id.clone();
    s.rename_layer(&ws, "Act I".to_string());
    s.update_layer_timing(&ws, 500, 700);
    assert_eq!(s.layers[0].name, "Act I");
    assert_eq!((s.layers[0].start_time, s.layers[0].duration), (500, 700));
}

#[test]
fn toggling_groups_open_and_closed() {
    let mut s = AppState::default();
    assert!(s.is_comp_open("layer_1"));
    s.toggle_comp("layer_1");
    assert!(!s.is_comp_open("layer_1"));
    s.toggle_comp("layer_1");
    assert!(s.is_comp_open("layer_1"));
}

#[test]
fn reparent_refuses_cycles() {
    let mut s = AppState::default();
    let ws = s.layers[0].id.clone();
    let a = child(&mut s, LayerType::Composition, Some(&ws));
    let b = child(&mut s, LayerType::Composition, Some(&a));
    s.reparent(&ws, Some(b.clone()));
    assert_eq!(layer(&s, &ws).parent_id, None);
    s.reparent(&a, Some(a.clone()));
    assert_eq!(layer(&s, &a).parent_id.as_deref(), Some(ws.as_str()));
    assert!(s.is_descendant_of(&b, &ws));
    assert!(!s.is_descendant_of(&ws, &b));
}

#[test]
fn reparent_expands_new_parents() {
    let mut s = AppState::default();
    let ws = s.layers[0].id.clone();
    let comp = child(&mut s, LayerType::Composition, Some(&ws));
    s.update_layer_timing(&comp, 0, 10000);
    let clip = child(&mut s, LayerType::Video, None);
    s.update_layer_timing(&clip, 8000, 30000);
    s.reparent(&clip, Some(comp.clone()));
    assert_eq!(layer(&s, &clip).parent_id.as_deref(), Some(comp.as_str()));
    assert_eq!(layer(&s, &comp).duration, 38000);
    assert_eq!(layer(&s, &ws).duration, 38000);
    s.reparent(&clip, None);
    assert_eq!(layer(&s, &clip).parent_id, None);
}

#[test]
fn dropping_an_asset_adds_a_layer() {
    let mut s = AppState::default();
    let ws = s.layers[0].id.clone();
    s.project_assets.push(ProjectAsset {
        id: "a1".to_string(),
        name: "song.mp3".to_string(),
        media_url: "blob:1".to_string(),
        asset_type: "audio".to_string(),
    });
    s.reparent("asset:a1", Some(ws.clone()));
    let l = s.layers.last().unwrap();
    assert_eq!(l.layer_type, LayerType::Audio);
    assert_eq!(l.name, "song.mp3");
    assert_eq!(l.media_url.as_deref(), Some("blob:1"));
    assert_eq!(l.parent_id.as_deref(), Some(ws.as_str()));
    s.reparent("asset:asset:a1", None);
    assert_eq!(s.layers.len(), 3);
    s.reparent("asset:zz", None);
    assert_eq!(s.layers.len(), 3);
}

#[test]
fn split_cuts_in_two() {
    let mut s = AppState::default();
    let a = child(&mut s, LayerType::Text, None);
    s.update_layer_timing(&a, 1000, 4000);
    s.split_layer(&a, 2500);
    assert_eq!(s.layers.len(), 3);
    let first = &s.layers[1];
    let second = &s.layers[2];
    assert_eq!((first.id.as_str(), first.start_time, first.duration), (a.as_str(), 1000, 1500));
    assert_eq!((second.start_time, second.duration), (2500, 2500));
    assert_eq!(first.name, format!("{} (A)", "Text r_2"));
    assert_eq!(second.name, format!("{} (B)", "Text r_2"));
    assert_ne!(second.id, a);
    s.split_layer(&a, 1000);
    assert_eq!(s.layers.len(), 3);
    s.split_layer(&a, 2500);
    assert_eq!(s.layers.len(), 3);
}

#[test]
fn reorder_moves_next_to_target() {
    let mut s = AppState::default();
    let ws = s.layers[0].id.clone();
    let a = child(&mut s, LayerType::Text, None);
    let b = child(&mut s, LayerType::Image, Some(&ws));
    s.reorder_layer(&a, &b, false);
    assert_eq!(ids(&s), vec![ws.clone(), b.clone(), a.clone()]);
    assert_eq!(layer(&s, &a).parent_id.as_deref(), Some(ws.as_str()));
    s.reorder_layer(&a, &ws, true);
    assert_eq!(ids(&s), vec![a.clone(), ws.clone(), b.clone()]);
    assert_eq!(layer(&s, &a).parent_id, None);
    s.reorder_layer(&b, "missing", true);
    assert_eq!(ids(&s), vec![a, ws, b]);
}

#[test]
fn tree_queries() {
    let mut s = AppState::default();
    let ws = s.layers[0].id.clone();
    let comp = child(&mut s, LayerType::Composition, Some(&ws));
    let inner = child(&mut s, LayerType::Text, Some(&comp));
    let loose = child(&mut s, LayerType::Image, Some(&ws));
    let root_comp = child(&mut s, LayerType::Composition, None);
    let free = child(&mut s, LayerType::Audio, None);
    let names = |v: Vec<&Layer>| v.into_iter().map(|l| l.id.clone()).collect::<Vec<_>>();
    assert_eq!(names(s.root_workstreams()), vec![ws.clone()]);
    assert_eq!(names(s.all_compositions()), vec![comp.clone(), root_comp.clone()]);
    assert_eq!(names(s.root_compositions()), vec![root_comp.clone()]);
    assert_eq!(names(s.children_of(&ws)), vec![comp.clone(), loose.clone()]);
    assert_eq!(names(s.descendants_of(&ws)), vec![comp.clone(), inner.clone(), loose.clone()]);
    assert_eq!(names(s.unbound_layers()), vec![loose.clone(), free.clone()]);
    assert!(s.is_descendant_of(&inner, &ws));
    assert!(!s.is_descendant_of(&free, &ws));
}

#[test]
fn clip_moves_within_parent() {
    let mut s = AppState::default();
    s.snap_to_grid = false;
    let comp = child(&mut s, LayerType::Composition, None);
    s.update_layer_timing(&comp, 1000, 10000);
    let clip = child(&mut s, LayerType::Text, Some(&comp));
    s.update_layer_timing(&clip, 2000, 3000);
    s.begin_clip_drag(&clip, ClipDragMode::Move, 100);
    assert_eq!(s.selected_id.as_deref(), Some(clip.as_str()));
    assert_eq!(s.clip_drag.original_start_time, 2000);
    s.update_clip_drag(150, 100); // half a second later
    assert_eq!(layer(&s, &clip).start_time, 2500);
    s.update_clip_drag(2000, 100);
    assert_eq!(layer(&s, &clip).start_time, 8000);
    s.update_clip_drag(-5000, 100);
    assert_eq!(layer(&s, &clip).start_time, 1000);
    s.end_clip_drag();
    assert_eq!(s.clip_drag.mode, None);
    s.update_clip_drag(900, 100);
    assert_eq!(layer(&s, &clip).start_time, 1000);
}

#[test]
fn clip_trims_and_fades() {
    let mut s = AppState::default();
    s.snap_to_grid = false;
    let clip = child(&mut s, LayerType::Text, None);
    s.update_layer_timing(&clip, 2000, 3000);
    s.begin_clip_drag(&clip, ClipDragMode::TrimLeft, 0);
    s.update_clip_drag(100, 100);
    assert_eq!((layer(&s, &clip).start_time, layer(&s, &clip).duration), (3000, 2000));
    s.update_clip_drag(290, 100); // would leave less than a tenth of a second
    assert_eq!((layer(&s, &clip).start_time, layer(&s, &clip).duration), (3000, 2000));
    s.begin_clip_drag(&clip, ClipDragMode::TrimRight, 0);
    s.update_clip_drag(-1000, 100);
    assert_eq!(layer(&s, &clip).duration, MIN_CLIP_MS);
    s.update_layer_timing(&clip, 0, 4000);
    s.begin_clip_drag(&clip, ClipDragMode::FadeIn, 0);
    s.update_clip_drag(100, 100);
    assert_eq!(layer(&s, &clip).fade_in, 1000);
    s.begin_clip_drag(&clip, ClipDragMode::FadeOut, 0);
    s.update_clip_drag(-800, 100);
    assert_eq!(layer(&s, &clip).fade_out, 3000);
}

#[test]
fn clip_snaps_to_neighbour_edges() {
    let mut s = AppState::default();
    let a = child(&mut s, LayerType::Text, None);
    s.update_layer_timing(&a, 0, 2030);
    let b = child(&mut s, LayerType::Text, None);
    s.update_layer_timing(&b, 5000, 1000);
    s.begin_clip_drag(&b, ClipDragMode::Move, 0);
    // At 100 px/s five pixels are 50 ms: 2.08 s is just outside that distance
    // of the edge at 2.03 s and goes to the grid; 2.07 s snaps to the edge.
    s.update_clip_drag(-292, 100);
    assert_eq!(layer(&s, &b).start_time, 2100);
    s.update_clip_drag(-293, 100);
    assert_eq!(layer(&s, &b).start_time, 2030);
}

#[test]
fn compositions_are_packed_in_order() {
    let mut s = AppState::default();
    let ws = s.layers[0].id.clone();
    let a = child(&mut s, LayerType::Composition, Some(&ws));
    let b = child(&mut s, LayerType::Composition, Some(&ws));
    let r = child(&mut s, LayerType::Composition, None);
    s.update_layer_timing(&a, 9000, 2000);
    s.update_layer_timing(&b, 3000, 4000);
    s.update_layer_timing(&r, 7000, 1000);
    s.enforce_composition_sequence();
    assert_eq!(layer(&s, &b).start_time, 0);
    assert_eq!(layer(&s, &a).start_time, 4000);
    assert_eq!(layer(&s, &r).start_time, 0);
}

#[test]
fn adding_compositions_and_workstreams() {
    let mut s = AppState::default();
    s.add_composition(None);
    let c1 = s.layers.last().unwrap().clone();
    assert_eq!(c1.name, "Composition 2");
    assert_eq!(c1.parent_id.as_deref(), Some("layer_1"));
    assert_eq!((c1.start_time, c1.duration), (0, GROUP_MS));
    assert!(s.is_comp_open(&c1.id));
    s.add_composition(None);
    let c2 = s.layers.last().unwrap().clone();
    assert_eq!(c2.name, "Composition 3");
    assert_eq!(c2.start_time, 30000);
    s.add_workstream();
    let w = s.layers.last().unwrap().clone();
    assert_eq!((w.name.as_str(), w.duration), ("Workstream 2", GROUP_MS));
    assert!(s.is_comp_open(&w.id));
    let target = w.id.clone();
    s.add_composition(Some(&target));
    let c3 = s.layers.last().unwrap().clone();
    assert_eq!(c3.parent_id.as_deref(), Some(target.as_str()));
    assert_eq!(c3.name, "Composition 4");
}

#[test]
fn terminal_log_appends() {
    let mut s = AppState::default();
    s.log_terminal("> help");
    assert_eq!(s.terminal_logs.len(), 2);
    assert_eq!(s.terminal_logs[1], "> help");
}

#[test]
fn expand_climbs_until_covered() {
    let mut s = AppState::default();
    let ws = s.layers[0].id.clone();
    let comp = child(&mut s, LayerType::Composition, Some(&ws));
    s.update_layer_timing(&comp, 1000, 2000);
    s.expand_parent_duration(&comp, 40000);
    assert_eq!(layer(&s, &comp).duration, 39000);
    assert_eq!(layer(&s, &ws).duration, 40000);
    s.expand_parent_duration(&comp, 20000);
    assert_eq!(layer(&s, &comp).duration, 39000);
}
