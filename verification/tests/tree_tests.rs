use vibe_studio::kinds::LayerType;
use vibe_studio::layer::Layer;
use vibe_studio::state::AppState;

fn chain_of(n: usize) -> (AppState, Vec<String>) {
    let mut s = AppState::default();
    s.layers.clear();
    let mut ids = Vec::new();
    let mut parent: Option<String> = None;
    for _ in 0..n {
        let l = Layer::new(LayerType::Composition, parent.clone(), &mut s.next_layer_id);
        parent = Some(l.id.clone());
        ids.push(l.id.clone());
        s.layers.push(l);
    }
    (s, ids)
}

#[test]
fn deepest_ancestor_is_found() {
    let (s, ids) = chain_of(6);
    assert!(s.is_descendant_of(&ids[5], &ids[0]));
    assert!(!s.is_descendant_of(&ids[0], &ids[5]));
    assert!(!s.is_descendant_of(&ids[3], &ids[3]));
    let d: Vec<String> = s.descendants_of(&ids[0]).into_iter().map(|l| l.id.clone()).collect();
    assert_eq!(d, ids[1..].to_vec());
}

#[test]
fn reparent_into_descendant_is_refused_at_depth() {
    let (mut s, ids) = chain_of(5);
    s.reparent(&ids[0], Some(ids[4].clone()));
    assert_eq!(s.layers[0].parent_id, None);
    s.reparent(&ids[4], Some(ids[0].clone()));
    assert_eq!(s.layers[4].parent_id.as_deref(), Some(ids[0].as_str()));
    assert!(!s.is_descendant_of(&ids[0], &ids[4]));
}

#[test]
fn reorder_can_attach_a_layer_to_itself() {
    // Moving a layer next to its own child gives it its own identifier as parent.
    let (mut s, ids) = chain_of(2);
    s.reorder_layer(&ids[0], &ids[1], true);
    assert_eq!(s.layers[0].id, ids[0]);
    assert_eq!(s.layers[0].parent_id.as_deref(), Some(ids[0].as_str()));
    // The searches still end.
    assert!(s.is_descendant_of(&ids[1], &ids[0]));
    assert!(!s.is_descendant_of(&ids[1], "elsewhere"));
    let d = s.descendants_of(&ids[0]);
    assert!(d.len() >= 2);
}

#[test]
fn equal_starts_keep_layer_order_when_packed() {
    let mut s = AppState::default();
    s.layers.clear();
    let mut ids = Vec::new();
    for (start, dur) in [(5000, 1000), (0, 2000), (5000, 3000)] {
        let mut l = Layer::new(LayerType::Composition, None, &mut s.next_layer_id);
        l.start_time = start;
        l.duration = dur;
        ids.push(l.id.clone());
        s.layers.push(l);
    }
    s.enforce_composition_sequence();
    let start = |id: &str| s.layers.iter().find(|l| l.id == id).unwrap().start_time;
    assert_eq!(start(&ids[1]), 0);
    assert_eq!(start(&ids[0]), 2000);
    assert_eq!(start(&ids[2]), 3000);
}
