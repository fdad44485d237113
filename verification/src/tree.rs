use vstd::prelude::*;
use crate::find::{find_layer, lemma_find, lemma_find_same_ids, position_of};
use crate::ids::{gen_id, layer_id_text, opt_view, text_eq};
use crate::kinds::LayerType;
use crate::layer::Layer;
use crate::state::{is_child_of, AppState};
use crate::time::{add_ms, sat, sub_ms};

verus! {

// ── following parent links ──

/// Whether the chain of parents from the layer identified by `cur` reaches
/// `target` within `fuel` steps; each step goes from a layer (the first
/// with the identifier at hand) to its parent's identifier.
pub open spec fn walk(s: Seq<Layer>, cur: Seq<char>, target: Seq<char>, fuel: nat) -> bool
    decreases fuel,
{
    if fuel == 0 {
        false
    } else {
        match find_layer(s, cur) {
            None => false,
            Some(i) => match s[i].parent_id {
                None => false,
                Some(p) => if p@ == target {
                    true
                } else {
                    walk(s, p@, target, (fuel - 1) as nat)
                },
            },
        }
    }
}

/// `s` after the group identified by `pid` and then its ancestors are
/// lengthened, for at most `fuel` steps, so that each ends no earlier than `t`;
/// the climb stops at the first that already does.
pub open spec fn expand(s: Seq<Layer>, pid: Seq<char>, t: int, fuel: nat) -> Seq<Layer>
    decreases fuel,
{
    if fuel == 0 {
        s
    } else {
        match find_layer(s, pid) {
            None => s,
            Some(i) => {
                let p = s[i];
                if t > sat(p.start_time + p.duration) {
                    let s2 = s.update(i, Layer { duration: sat(t - p.start_time) as i64, ..p });
                    match p.parent_id {
                        Some(g) => expand(s2, g@, t, (fuel - 1) as nat),
                        None => s2,
                    }
                } else {
                    s
                }
            },
        }
    }
}

/// Identifiers, parents and kinds are untouched by `expand`.
pub proof fn lemma_expand_ids(s: Seq<Layer>, pid: Seq<char>, t: int, fuel: nat)
    ensures
        expand(s, pid, t, fuel).len() == s.len(),
        forall|j: int| 0 <= j < s.len() ==> #[trigger] expand(s, pid, t, fuel)[j].id == s[j].id,
        forall|j: int| 0 <= j < s.len() ==> #[trigger] expand(s, pid, t, fuel)[j].parent_id == s[j].parent_id,
        forall|j: int| 0 <= j < s.len() ==> #[trigger] expand(s, pid, t, fuel)[j].layer_type == s[j].layer_type,
    decreases fuel,
{
    if fuel > 0 {
        lemma_find(s, pid);
        match find_layer(s, pid) {
            None => {},
            Some(i) => {
                let p = s[i];
                if t > sat(p.start_time + p.duration) {
                    let s2 = s.update(i, Layer { duration: sat(t - p.start_time) as i64, ..p });
                    if let Some(g) = p.parent_id {
                        lemma_expand_ids(s2, g@, t, (fuel - 1) as nat);
                    }
                }
            },
        }
    }
}

fn walk_exec(layers: &Vec<Layer>, cur: &String, target: &String) -> (r: bool)
    ensures
        r == walk(layers@, cur@, target@, layers@.len()),
{
    let mut current = cur.clone();
    let mut fuel: usize = layers.len();
    while fuel > 0
        invariant
            walk(layers@, current@, target@, fuel as nat) == walk(layers@, cur@, target@, layers@.len()),
        decreases fuel,
    {
        proof {
            lemma_find(layers@, current@);
        }
        match position_of(layers, &current) {
            None => {
                return false;
            },
            Some(i) => match &layers[i].parent_id {
                None => {
                    return false;
                },
                Some(p) => {
                    if *p == *target {
                        return true;
                    }
                    current = p.clone();
                },
            },
        }
        fuel = fuel - 1;
    }
    false
}

fn expand_exec(layers: &mut Vec<Layer>, pid: &String, t: i64, fuel: usize)
    ensures
        final(layers)@ == expand(old(layers)@, pid@, t as int, fuel as nat),
    decreases fuel,
{
    if fuel == 0 {
        return;
    }
    proof {
        lemma_find(layers@, pid@);
    }
    if let Some(i) = position_of(layers, pid) {
        let p = layers[i].clone();
        if t > add_ms(p.start_time, p.duration) {
            let mut q = p.clone();
            q.duration = sub_ms(t, p.start_time);
            layers.set(i, q);
            if let Some(g) = &p.parent_id {
                expand_exec(layers, g, t, fuel - 1);
            }
        }
    }
}

// ── removal ──

/// `s` with the first layer identified by `c` (if any) detached from its parent.
pub open spec fn orphan_one(s: Seq<Layer>, c: Seq<char>) -> Seq<Layer> {
    match find_layer(s, c) {
        Some(i) => s.update(i, Layer { parent_id: None, ..s[i] }),
        None => s,
    }
}

/// `s` after `orphan_one` for each identifier of `cs` in turn.
pub open spec fn orphan_all(s: Seq<Layer>, cs: Seq<Seq<char>>) -> Seq<Layer>
    decreases cs.len(),
{
    if cs.len() == 0 {
        s
    } else {
        orphan_one(orphan_all(s, cs.drop_last()), cs.last())
    }
}

/// Whether a layer is a direct child of `id`.
pub open spec fn child_of(id: Seq<char>) -> spec_fn(Layer) -> bool {
    |l: Layer| is_child_of(l, id)
}

/// Whether a layer is identified otherwise than by `id`.
pub open spec fn other_than(id: Seq<char>) -> spec_fn(Layer) -> bool {
    |l: Layer| l.id@ != id
}

/// The identifiers of the direct children of `id`, in layer order.
pub open spec fn child_ids(s: Seq<Layer>, id: Seq<char>) -> Seq<Seq<char>> {
    s.filter(child_of(id)).map_values(|l: Layer| l.id@)
}

/// The layers of `s` not identified by `id`.
pub open spec fn without_id(s: Seq<Layer>, id: Seq<char>) -> Seq<Layer> {
    s.filter(other_than(id))
}

fn orphan_exec(layers: &mut Vec<Layer>, c: &String)
    ensures
        final(layers)@ == orphan_one(old(layers)@, c@),
{
    proof {
        lemma_find(layers@, c@);
    }
    if let Some(i) = position_of(layers, c) {
        let mut l = layers[i].clone();
        l.parent_id = None;
        layers.set(i, l);
    }
}

// ── splitting and reordering ──

/// `s` with the layer identified by `layer_id` taken out and put back next to
/// the layer identified by `target_id` (before or after it), under that
/// layer's parent; at the end when there is no such target.
pub open spec fn reordered(s: Seq<Layer>, layer_id: Seq<char>, target_id: Seq<char>, before: bool) -> Seq<Layer> {
    if layer_id == target_id {
        s
    } else {
        match find_layer(s, layer_id) {
            None => s,
            Some(li) => {
                let rest = s.remove(li);
                let l = s[li];
                match find_layer(rest, target_id) {
                    Some(t) => rest.insert(
                        if before { t } else { t + 1 },
                        Layer { parent_id: rest[t].parent_id, ..l },
                    ),
                    None => rest.push(l),
                }
            },
        }
    }
}

/// `s` with the first layer identified by `layer_id` moved under `new_parent`,
/// and the new parent and its ancestors lengthened to cover it.
pub open spec fn reparented(s: Seq<Layer>, layer_id: Seq<char>, new_parent: Option<String>) -> Seq<Layer> {
    match find_layer(s, layer_id) {
        None => s,
        Some(i) => {
            let s1 = s.update(i, Layer { parent_id: new_parent, ..s[i] });
            match new_parent {
                Some(p) => expand(s1, p@, sat(s[i].start_time + s[i].duration), s.len()),
                None => s1,
            }
        },
    }
}

/// Whether moving `layer_id` under `new_parent` would make a layer its own ancestor.
pub open spec fn makes_cycle(s: Seq<Layer>, layer_id: Seq<char>, new_parent: Option<String>) -> bool {
    match new_parent {
        Some(p) => walk(s, p@, layer_id, s.len()) || p@ == layer_id,
        None => false,
    }
}

/// Asset identifiers are dragged in as "asset:" and the asset's identifier.
pub open spec fn asset_prefix() -> Seq<char> {
    "asset:"@
}

pub open spec fn has_asset_prefix(s: Seq<char>) -> bool {
    s.len() >= 6 && s.subrange(0, 6) == asset_prefix()
}

/// `s` with every leading "asset:" removed.
pub open spec fn strip_asset_prefix(s: Seq<char>) -> Seq<char>
    decreases s.len(),
{
    if has_asset_prefix(s) {
        strip_asset_prefix(s.subrange(6, s.len() as int))
    } else {
        s
    }
}

/// The kind of layer an asset becomes: audio and video assets become audio
/// and video layers, anything else an image layer.
pub open spec fn asset_layer_type(asset_type: Seq<char>) -> LayerType {
    if asset_type == "audio"@ {
        LayerType::Audio
    } else if asset_type == "video"@ {
        LayerType::Video
    } else {
        LayerType::Image
    }
}

/// The layer an asset becomes under `parent`, with identifier `id`: named
/// after the asset, showing its media, lasting five seconds.
pub open spec fn asset_layer(asset: crate::state::ProjectAsset, id: String, parent: Option<String>) -> Layer {
    Layer {
        id,
        name: asset.name,
        layer_type: asset_layer_type(asset.asset_type@),
        visible: true,
        parent_id: parent,
        start_time: 0,
        duration: crate::layer::CLIP_MS,
        fade_in: 0,
        fade_out: 0,
        audio_react: crate::kinds::AudioBand::Off,
        flip_x: false,
        flip_y: false,
        media_url: Some(asset.media_url),
        custom_color: None,
    }
}

fn starts_with_asset(s: &str) -> (r: bool)
    ensures
        r == has_asset_prefix(s@),
{
    let n = s.unicode_len();
    if n < 6 {
        return false;
    }
    let head = String::from_str(s.substring_char(0, 6));
    text_eq(&head, "asset:")
}

fn strip_asset_exec(s: &str) -> (r: String)
    ensures
        r@ == strip_asset_prefix(s@),
{
    let mut cur = String::from_str(s);
    loop
        invariant
            strip_asset_prefix(cur@) == strip_asset_prefix(s@),
        decreases cur@.len(),
    {
        if !starts_with_asset(cur.as_str()) {
            return cur;
        }
        let n = cur.as_str().unicode_len();
        let rest = String::from_str(cur.as_str().substring_char(6, n));
        cur = rest;
    }
}

/// What `reparent` of `layer_id` under `new_parent` makes of the state `o`:
/// `n` is the state after it.
pub open spec fn reparent_post(o: AppState, n: AppState, layer_id: Seq<char>, new_parent: Option<String>) -> bool {
    &&& if has_asset_prefix(layer_id) {
        match find_asset_from(o.project_assets@, strip_asset_prefix(layer_id), 0) {
            Some(k) => {
                let asset = o.project_assets@[k];
                let l = n.layers@.last();
                &&& n.layers@ == o.layers@.push(l)
                &&& l == asset_layer(asset, l.id, new_parent)
                &&& l.id@ == layer_id_text(o.next_layer_id as nat)
                &&& n.next_layer_id == o.next_layer_id.wrapping_add(1)
            },
            None => n.layers@ == o.layers@ && n.next_layer_id == o.next_layer_id,
        }
    } else {
        &&& n.next_layer_id == o.next_layer_id
        &&& n.layers@ == if makes_cycle(o.layers@, layer_id, new_parent) {
            o.layers@
        } else {
            reparented(o.layers@, layer_id, new_parent)
        }
    }
    &&& n == (AppState { layers: n.layers, next_layer_id: n.next_layer_id, ..o })
}

/// Index of the first asset at or after `k` whose identifier is `id`.
pub open spec fn find_asset_from(a: Seq<crate::state::ProjectAsset>, id: Seq<char>, k: int) -> Option<int>
    decreases a.len() - k,
{
    if k < 0 || k >= a.len() {
        None
    } else if a[k].id@ == id {
        Some(k)
    } else {
        find_asset_from(a, id, k + 1)
    }
}

pub proof fn lemma_find_asset_from(a: Seq<crate::state::ProjectAsset>, id: Seq<char>, k: int)
    requires
        0 <= k,
    ensures
        find_asset_from(a, id, k) matches Some(i) ==> k <= i < a.len() && a[i].id@ == id,
    decreases a.len() - k,
{
    if k < a.len() && a[k].id@ != id {
        lemma_find_asset_from(a, id, k + 1);
    }
}

fn child_ids_exec(layers: &Vec<Layer>, key: &String) -> (r: Vec<String>)
    ensures
        crate::state::texts(r@) == child_ids(layers@, key@),
{
    let ghost s0 = layers@;
    let ghost pred = child_of(key@);
    let mut children_ids: Vec<String> = Vec::new();
    let n = layers.len();
    for i in 0..n
        invariant
            n == s0.len(),
            layers@ == s0,
            pred == child_of(key@),
            children_ids@.len() == s0.take(i as int).filter(pred).len(),
            forall|j: int| 0 <= j < children_ids@.len() ==> #[trigger] children_ids@[j]@ == s0.take(i as int).filter(pred)[j].id@,
    {
        reveal_with_fuel(Seq::<_>::filter, 1);
        assert(s0.take(i + 1).drop_last() =~= s0.take(i as int));
        let l = &layers[i];
        let is_child = match &l.parent_id {
            Some(p) => *p == *key,
            None => false,
        };
        if is_child {
            children_ids.push(l.id.clone());
        }
    }
    assert(s0.take(n as int) =~= s0);
    assert(crate::state::texts(children_ids@) =~= child_ids(s0, key@));
    children_ids
}

fn orphan_all_exec(layers: &mut Vec<Layer>, cids: &Vec<String>)
    ensures
        final(layers)@ == orphan_all(old(layers)@, crate::state::texts(cids@)),
{
    let ghost s0 = layers@;
    let ghost cs = crate::state::texts(cids@);
    let m = cids.len();
    for k in 0..m
        invariant
            m == cids@.len(),
            cs == crate::state::texts(cids@),
            layers@ == orphan_all(s0, cs.take(k as int)),
    {
        assert(cs.take(k + 1).drop_last() =~= cs.take(k as int));
        assert(cs.take(k + 1).last() == cids@[k as int]@);
        orphan_exec(layers, &cids[k]);
    }
    assert(cs.take(m as int) =~= cs);
}

fn without_id_exec(layers: &Vec<Layer>, key: &String) -> (r: Vec<Layer>)
    ensures
        r@ == without_id(layers@, key@),
{
    let ghost s1 = layers@;
    let ghost keep = other_than(key@);
    let mut kept: Vec<Layer> = Vec::new();
    let n1 = layers.len();
    for i in 0..n1
        invariant
            n1 == s1.len(),
            layers@ == s1,
            keep == other_than(key@),
            kept@ == s1.take(i as int).filter(keep),
    {
        reveal_with_fuel(Seq::<_>::filter, 1);
        assert(s1.take(i + 1).drop_last() =~= s1.take(i as int));
        if layers[i].id != *key {
            kept.push(layers[i].clone());
        }
    }
    assert(s1.take(n1 as int) =~= s1);
    kept
}

impl AppState {
    /// Whether the parent chain of the layer identified by `potential_child`
    /// reaches `potential_parent` (following at most as many links as there
    /// are layers).
    pub fn is_descendant_of(&self, potential_child: &str, potential_parent: &str) -> (r: bool)
        ensures
            r == walk(self.layers@, potential_child@, potential_parent@, self.layers@.len()),
    {
        let c = String::from_str(potential_child);
        let p = String::from_str(potential_parent);
        walk_exec(&self.layers, &c, &p)
    }

    /// Lengthens the group identified by `parent_id` so that it ends at
    /// `child_end_time` when it ends earlier, then its parent likewise, and so
    /// on up the tree (at most as many steps as there are layers).
    pub fn expand_parent_duration(&mut self, parent_id: &str, child_end_time: i64)
        ensures
            final(self).layers@ == expand(old(self).layers@, parent_id@, child_end_time as int, old(self).layers@.len()),
            *final(self) == (AppState { layers: final(self).layers, ..*old(self) }),
    {
        let pid = String::from_str(parent_id);
        let fuel = self.layers.len();
        expand_exec(&mut self.layers, &pid, child_end_time, fuel);
    }

    /// Removes every layer identified by `id`, first detaching its children
    /// (each child's identifier detaches the first layer so identified), and
    /// clears the selection when it was that layer.
    pub fn remove_layer(&mut self, id: &str)
        ensures
            final(self).layers@ == without_id(orphan_all(old(self).layers@, child_ids(old(self).layers@, id@)), id@),
            final(self).selected_id == (if opt_view(old(self).selected_id) == Some(id@) {
                None
            } else {
                old(self).selected_id
            }),
            *final(self) == (AppState {
                layers: final(self).layers,
                selected_id: final(self).selected_id,
                ..*old(self)
            }),
    {
        let key = String::from_str(id);
        let children_ids = child_ids_exec(&self.layers, &key);
        orphan_all_exec(&mut self.layers, &children_ids);
        let kept = without_id_exec(&self.layers, &key);
        self.layers = kept;
        let clear = match &self.selected_id {
            Some(s) => *s == key,
            None => false,
        };
        if clear {
            self.selected_id = None;
        }
    }

    /// Cuts the layer identified by `layer_id` at `time` when `time` lies
    /// strictly inside it: the first part keeps the identifier and is named
    /// with " (A)", the second gets a fresh identifier, starts at `time`, is
    /// named with " (B)" and follows it in the list. Nothing happens otherwise.
    pub fn split_layer(&mut self, layer_id: &str, time: i64)
        ensures
            match find_layer(old(self).layers@, layer_id@) {
                Some(i) if time > old(self).layers@[i].start_time && time < sat(
                    old(self).layers@[i].start_time + old(self).layers@[i].duration,
                ) => {
                    let o = old(self).layers@[i];
                    let a = final(self).layers@[i];
                    let b = final(self).layers@[i + 1];
                    let first = sat(time - o.start_time);
                    &&& final(self).layers@ == old(self).layers@.update(i, a).insert(i + 1, b)
                    &&& a == Layer { duration: first as i64, name: a.name, ..o }
                    &&& a.name@ == o.name@ + " (A)"@
                    &&& b == Layer {
                        id: b.id,
                        name: b.name,
                        start_time: time,
                        duration: sat(o.duration - first) as i64,
                        ..o
                    }
                    &&& b.name@ == o.name@ + " (B)"@
                    &&& b.id@ == layer_id_text(old(self).next_layer_id as nat)
                    &&& final(self).next_layer_id == old(self).next_layer_id.wrapping_add(1)
                },
                _ => final(self).layers@ == old(self).layers@ && final(self).next_layer_id == old(
                    self,
                ).next_layer_id,
            },
            *final(self) == (AppState {
                layers: final(self).layers,
                next_layer_id: final(self).next_layer_id,
                ..*old(self)
            }),
    {
        let key = String::from_str(layer_id);
        proof {
            lemma_find(self.layers@, key@);
        }
        if let Some(i) = position_of(&self.layers, &key) {
            let mut whole = self.layers[i].clone();
            if time > whole.start_time && time < add_ms(whole.start_time, whole.duration) {
                let first_dur = sub_ms(time, whole.start_time);
                let second_dur = sub_ms(whole.duration, first_dur);
                let base_name = whole.name.clone();
                whole.duration = first_dur;
                let mut name_a = base_name.clone();
                name_a.append(" (A)");
                whole.name = name_a;
                self.layers.set(i, whole.clone());
                let mut second_half = whole.clone();
                second_half.id = gen_id(&mut self.next_layer_id);
                second_half.start_time = time;
                second_half.duration = second_dur;
                let mut name_b = base_name;
                name_b.append(" (B)");
                second_half.name = name_b;
                let len = self.layers.len();
                assert(i < len);
                self.layers.insert(i + 1, second_half);
            }
        }
    }

    /// Moves the layer identified by `layer_id` next to the layer identified
    /// by `target_id` (see `reordered`).
    pub fn reorder_layer(&mut self, layer_id: &str, target_id: &str, before: bool)
        ensures
            final(self).layers@ == reordered(old(self).layers@, layer_id@, target_id@, before),
            *final(self) == (AppState { layers: final(self).layers, ..*old(self) }),
    {
        let lkey = String::from_str(layer_id);
        let tkey = String::from_str(target_id);
        if lkey == tkey {
            return;
        }
        proof {
            lemma_find(self.layers@, lkey@);
        }
        let layer_idx = position_of(&self.layers, &lkey);
        if layer_idx.is_none() {
            return;
        }
        let layer_idx = layer_idx.unwrap();
        let ghost s0 = self.layers@;
        assert(layer_idx < s0.len());
        let layer = self.layers.remove(layer_idx);
        let ghost rest = self.layers@;
        assert(rest == s0.remove(layer_idx as int));
        assert(layer == s0[layer_idx as int]);
        proof {
            lemma_find(rest, tkey@);
        }
        let target_idx = position_of(&self.layers, &tkey);
        let len = self.layers.len();
        if let Some(tid) = target_idx {
            assert(tid < len);
            let parent_id = crate::layer::clone_opt_text(&self.layers[tid].parent_id);
            let pos = if before { tid } else { tid + 1 };
            let mut l = layer;
            l.parent_id = parent_id;
            assert(l == Layer { parent_id: rest[tid as int].parent_id, ..s0[layer_idx as int] });
            self.layers.insert(pos, l);
        } else {
            self.layers.push(layer);
        }
    }

    /// Moves the layer identified by `layer_id` under `new_parent` (to the
    /// root for `None`) and lengthens the new parent and its ancestors to
    /// cover it; nothing happens when that would make a layer its own
    /// ancestor. An identifier "asset:" + an asset's identifier instead adds
    /// a new layer for that asset under `new_parent` (when the asset exists).
    pub fn reparent(&mut self, layer_id: &str, new_parent: Option<String>)
        ensures
            reparent_post(*old(self), *final(self), layer_id@, new_parent),
    {
        if starts_with_asset(layer_id) {
            let asset_id = strip_asset_exec(layer_id);
            self.add_asset_layer(&asset_id, new_parent);
            return;
        }
        let key = String::from_str(layer_id);
        if let Some(p) = &new_parent {
            if walk_exec(&self.layers, p, &key) || *p == key {
                return;
            }
        }
        set_parent_and_expand(&mut self.layers, &key, new_parent);
    }

    /// Appends a layer for the first asset identified by `asset_id`, under
    /// `new_parent`; nothing happens when there is no such asset.
    fn add_asset_layer(&mut self, asset_id: &String, new_parent: Option<String>)
        ensures
            match find_asset_from(old(self).project_assets@, asset_id@, 0) {
                Some(k) => {
                    let asset = old(self).project_assets@[k];
                    let l = final(self).layers@.last();
                    &&& final(self).layers@ == old(self).layers@.push(l)
                    &&& l == asset_layer(asset, l.id, new_parent)
                    &&& l.id@ == layer_id_text(old(self).next_layer_id as nat)
                    &&& final(self).next_layer_id == old(self).next_layer_id.wrapping_add(1)
                },
                None => final(self).layers@ == old(self).layers@ && final(self).next_layer_id == old(
                    self,
                ).next_layer_id,
            },
            *final(self) == (AppState {
                layers: final(self).layers,
                next_layer_id: final(self).next_layer_id,
                ..*old(self)
            }),
    {
        let na = self.project_assets.len();
        let mut k: usize = 0;
        while k < na && self.project_assets[k].id != *asset_id
            invariant
                na == self.project_assets@.len(),
                k <= na,
                find_asset_from(self.project_assets@, asset_id@, 0) == find_asset_from(
                    self.project_assets@,
                    asset_id@,
                    k as int,
                ),
            decreases na - k,
        {
            k = k + 1;
        }
        proof {
            lemma_find_asset_from(self.project_assets@, asset_id@, 0);
        }
        if k < na {
            let asset_type = &self.project_assets[k].asset_type;
            proof {
                reveal_strlit("audio");
                reveal_strlit("video");
            }
            let layer_type = if text_eq(asset_type, "audio") {
                LayerType::Audio
            } else if text_eq(asset_type, "video") {
                LayerType::Video
            } else {
                LayerType::Image
            };
            let name = self.project_assets[k].name.clone();
            let url = self.project_assets[k].media_url.clone();
            let mut layer = Layer::new(layer_type, new_parent, &mut self.next_layer_id);
            layer.name = name;
            layer.media_url = Some(url);
            self.layers.push(layer);
        }
    }
}

fn set_parent_and_expand(layers: &mut Vec<Layer>, key: &String, new_parent: Option<String>)
    ensures
        final(layers)@ == reparented(old(layers)@, key@, new_parent),
{
    proof {
        lemma_find(layers@, key@);
    }
    if let Some(i) = position_of(layers, key) {
        let mut l = layers[i].clone();
        let child_end = add_ms(l.start_time, l.duration);
        l.parent_id = crate::layer::clone_opt_text(&new_parent);
        layers.set(i, l);
        if let Some(p) = &new_parent {
            let fuel = layers.len();
            expand_exec(layers, p, child_end, fuel);
        }
    }
}

} // verus!
