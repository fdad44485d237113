use vstd::prelude::*;
use crate::find::{find_layer, lemma_find, position_of};
use crate::ids::opt_view;
use crate::kinds::{addable_seq, label_text, LayerType};
use crate::state::AppState;

verus! {

/// The lower-case form of a text, as Unicode's default case mapping gives it.
pub uninterp spec fn lowercase(s: Seq<char>) -> Seq<char>;

/// Calls `str::to_lowercase`, which maps each character of the text by
/// Unicode's default lower-case mapping (with no regard to locale). The
/// contract claims only that the result is a function of the text, named
/// `lowercase`; the mapping itself is not stated.
#[verifier::external_body]
fn to_lower(s: &str) -> (r: String)
    ensures
        r@ == lowercase(s@),
{
    s.to_lowercase()
}

/// Whether `needle` occurs in `hay` as a run of consecutive characters.
pub open spec fn occurs_in(needle: Seq<char>, hay: Seq<char>) -> bool {
    exists|i: int| 0 <= i && i + needle.len() <= hay.len() && #[trigger] hay.subrange(i, i + needle.len()) == needle
}

/// Whether a label, already in lower case, is kept by a search for a query,
/// already in lower case: an empty query keeps every label.
pub open spec fn kept_by_search(label_lower: Seq<char>, query_lower: Seq<char>) -> bool {
    query_lower.len() == 0 || occurs_in(query_lower, label_lower)
}

/// Whether the search for `query` in the "add layer" dialog keeps the layer
/// type `t`: an empty query keeps every type, any other is compared with
/// the label in lower case.
pub open spec fn matches_query(t: LayerType, query: Seq<char>) -> bool {
    query.len() == 0 || kept_by_search(lowercase(label_text(t)), lowercase(query))
}

/// The name of the title the "add layer" dialog shows for the parent it adds under.
pub open spec fn root_title() -> Seq<char> {
    "Root (Unbound)"@
}

/// Whether `needle` occurs in `hay` at position `i`.
fn occurs_at(needle: &str, hay: &str, i: usize, nn: usize, hn: usize) -> (r: bool)
    requires
        nn == needle@.len(),
        hn == hay@.len(),
        i + nn <= hn,
    ensures
        r == (hay@.subrange(i as int, i + nn) == needle@),
{
    let mut j: usize = 0;
    while j < nn
        invariant
            nn == needle@.len(),
            hn == hay@.len(),
            i + nn <= hn,
            j <= nn,
            forall|k: int| 0 <= k < j ==> hay@[i + k] == needle@[k],
        decreases nn - j,
    {
        if hay.get_char(i + j) != needle.get_char(j) {
            assert(hay@.subrange(i as int, i + nn)[j as int] != needle@[j as int]);
            return false;
        }
        j = j + 1;
    }
    assert(hay@.subrange(i as int, i + nn) =~= needle@);
    true
}

/// Whether a label, already in lower case, is kept by a search for a query,
/// already in lower case (see `kept_by_search`).
pub fn label_matches(label_lower: &str, query_lower: &str) -> (r: bool)
    ensures
        r == kept_by_search(label_lower@, query_lower@),
{
    let nn = query_lower.unicode_len();
    if nn == 0 {
        return true;
    }
    let hn = label_lower.unicode_len();
    if nn > hn {
        assert forall|i: int| 0 <= i && i + nn <= hn implies #[trigger] label_lower@.subrange(i, i + nn)
            != query_lower@ by {}
        return false;
    }
    let mut i: usize = 0;
    while i <= hn - nn
        invariant
            nn == query_lower@.len(),
            hn == label_lower@.len(),
            1 <= nn <= hn,
            i <= hn - nn + 1,
            forall|k: int| 0 <= k < i ==> #[trigger] label_lower@.subrange(k, k + nn) != query_lower@,
        decreases hn - nn + 1 - i,
    {
        if occurs_at(query_lower, label_lower, i, nn, hn) {
            return true;
        }
        i = i + 1;
    }
    false
}

/// The layer types the "add layer" dialog lists while `query` is typed in
/// its search box: those whose label contains the query, both taken in
/// lower case; all of them for an empty query.
pub fn search_addable(query: &str) -> (r: Vec<LayerType>)
    ensures
        r@ == addable_seq().filter(|t: LayerType| matches_query(t, query@)),
        query@.len() == 0 ==> r@ == addable_seq(),
{
    let empty = query.unicode_len() == 0;
    let q = to_lower(query);
    let all = LayerType::addable_types();
    let ghost p = |t: LayerType| matches_query(t, query@);
    let mut r: Vec<LayerType> = Vec::new();
    let n = all.len();
    for i in 0..n
        invariant
            n == all@.len(),
            all@ == addable_seq(),
            q@ == lowercase(query@),
            empty == (query@.len() == 0),
            empty ==> r@ == all@.take(i as int),
            p == (|t: LayerType| matches_query(t, query@)),
            r@ == all@.take(i as int).filter(p),
    {
        reveal_with_fuel(Seq::<_>::filter, 1);
        assert(all@.take(i + 1).drop_last() =~= all@.take(i as int));
        let t = all[i];
        let lower = to_lower(t.label());
        if empty || label_matches(lower.as_str(), q.as_str()) {
            r.push(t);
        }
        assert(r@ =~= all@.take(i + 1).filter(p));
    }
    assert(all@.take(n as int) =~= all@);
    r
}

impl AppState {
    /// The title of the parent the "add layer" dialog adds under: the name of
    /// the layer identified by `add_parent_id`, or "Root (Unbound)" when there
    /// is none or no layer has that identifier.
    pub fn add_parent_title(&self) -> (r: String)
        ensures
            r@ == match opt_view(self.add_parent_id) {
                Some(pid) => match find_layer(self.layers@, pid) {
                    Some(i) => self.layers@[i].name@,
                    None => root_title(),
                },
                None => root_title(),
            },
    {
        if let Some(pid) = &self.add_parent_id {
            proof {
                lemma_find(self.layers@, pid@);
            }
            if let Some(i) = position_of(&self.layers, pid) {
                return self.layers[i].name.clone();
            }
        }
        String::from_str("Root (Unbound)")
    }
}

} // verus!
