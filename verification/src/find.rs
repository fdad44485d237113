use vstd::prelude::*;
use crate::layer::Layer;

verus! {

/// Index of the first layer at or after `k` whose identifier is `id`.
pub open spec fn find_from(s: Seq<Layer>, id: Seq<char>, k: int) -> Option<int>
    decreases s.len() - k,
{
    if k < 0 || k >= s.len() {
        None
    } else if s[k].id@ == id {
        Some(k)
    } else {
        find_from(s, id, k + 1)
    }
}

/// Index of the first layer whose identifier is `id`.
pub open spec fn find_layer(s: Seq<Layer>, id: Seq<char>) -> Option<int> {
    find_from(s, id, 0)
}

pub open spec fn opt_index(o: Option<usize>) -> Option<int> {
    match o {
        Some(i) => Some(i as int),
        None => None,
    }
}

/// What the first match of a search from `k` is.
pub proof fn lemma_find_from(s: Seq<Layer>, id: Seq<char>, k: int)
    requires
        0 <= k,
    ensures
        find_from(s, id, k) matches Some(i) ==> k <= i < s.len() && s[i].id@ == id && (forall|j: int|
            k <= j < i ==> #[trigger] s[j].id@ != id),
        find_from(s, id, k) is None ==> forall|j: int| k <= j < s.len() ==> #[trigger] s[j].id@ != id,
    decreases s.len() - k,
{
    if k < s.len() && s[k].id@ != id {
        lemma_find_from(s, id, k + 1);
    }
}

/// What the first match of a search is.
pub proof fn lemma_find(s: Seq<Layer>, id: Seq<char>)
    ensures
        find_layer(s, id) matches Some(i) ==> 0 <= i < s.len() && s[i].id@ == id && (forall|j: int|
            0 <= j < i ==> #[trigger] s[j].id@ != id),
        find_layer(s, id) is None ==> forall|j: int| 0 <= j < s.len() ==> #[trigger] s[j].id@ != id,
{
    lemma_find_from(s, id, 0);
}

/// A search depends only on identifiers: it is the same in two sequences
/// of equal length whose layers carry the same identifiers.
pub proof fn lemma_find_same_ids(s: Seq<Layer>, t: Seq<Layer>, id: Seq<char>, k: int)
    requires
        s.len() == t.len(),
        forall|j: int| 0 <= j < s.len() ==> #[trigger] s[j].id@ == t[j].id@,
    ensures
        find_from(s, id, k) == find_from(t, id, k),
    decreases s.len() - k,
{
    if 0 <= k < s.len() {
        lemma_find_same_ids(s, t, id, k + 1);
    }
}

/// Position of the first layer whose identifier is `id`.
pub fn position_of(layers: &Vec<Layer>, id: &String) -> (r: Option<usize>)
    ensures
        opt_index(r) == find_layer(layers@, id@),
{
    let n = layers.len();
    let mut i: usize = 0;
    while i < n
        invariant
            n == layers@.len(),
            i <= n,
            find_layer(layers@, id@) == find_from(layers@, id@, i as int),
        decreases n - i,
    {
        if layers[i].id == *id {
            return Some(i);
        }
        i = i + 1;
    }
    None
}

} // verus!
