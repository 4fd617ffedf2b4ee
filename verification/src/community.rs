//! Community presets: reviewed example programs from the community catalog,
//! and the identifiers under which the library lists them.
use vstd::prelude::*;
use vstd::string::StrSliceExecFns;
use vstd::string::StringExecFns;

verus! {

/// A preset of the community catalog.
#[derive(Debug)]
pub struct CommunityPreset {
    pub id: String,
    pub title: String,
    pub category: String,
    pub description: String,
    pub author: String,
    pub license: String,
    pub min_app_version: String,
    pub tags: Vec<String>,
    pub axioms: Vec<String>,
    pub constructed: Vec<String>,
    pub source: String,
    pub didactic: Option<String>,
}

/// The first community preset from `i` on with the given identifier.
pub open spec fn find_community(ps: Seq<CommunityPreset>, id: Seq<char>, i: int) -> Option<CommunityPreset>
    decreases ps.len() - i,
{
    if i < 0 || i >= ps.len() {
        None
    } else if ps[i].id@ == id {
        Some(ps[i])
    } else {
        find_community(ps, id, i + 1)
    }
}

/// The library identifier of a community preset: `community:` and its id.
pub open spec fn active(id: Seq<char>) -> Seq<char> {
    "community:"@ + id
}

/// The community preset id inside a library identifier, if it is one.
pub open spec fn strip_active(s: Seq<char>) -> Option<Seq<char>> {
    if "community:"@.is_prefix_of(s) {
        Some(s.subrange("community:"@.len() as int, s.len() as int))
    } else {
        None
    }
}

/// The community preset with the given identifier.
pub fn get<'a>(presets: &'a [CommunityPreset], id: &str) -> (r: Option<&'a CommunityPreset>)
    ensures
        match r {
            Some(p) => find_community(presets@, id@, 0) == Some(*p),
            None => find_community(presets@, id@, 0) is None,
        },
{
    let mut i: usize = 0;
    while i < presets.len()
        invariant
            i <= presets@.len(),
            find_community(presets@, id@, i as int) == find_community(presets@, id@, 0),
        decreases presets@.len() - i,
    {
        if crate::text::str_eq(presets[i].id.as_str(), id) {
            return Some(&presets[i]);
        }
        i = i + 1;
    }
    None
}

/// The library identifier of the community preset `id` (see `active`).
pub fn active_id(id: &str) -> (r: String)
    ensures
        r@ == active(id@),
{
    let s = String::from_str("community:");
    s.concat(id)
}

/// The community preset id inside a library identifier (see `strip_active`).
pub fn parse_active_id(id: &str) -> (r: Option<&str>)
    ensures
        match r {
            Some(s) => strip_active(id@) == Some(s@),
            None => strip_active(id@) is None,
        },
{
    let prefix = "community:";
    proof {
        reveal_strlit("community:");
    }
    let n = id.unicode_len();
    if n < 10 {
        return None;
    }
    let mut i: usize = 0;
    while i < 10
        invariant
            i <= 10 <= n,
            n == id@.len(),
            prefix@ == "community:"@,
            prefix@.len() == 10,
            forall|j: int| 0 <= j < i ==> id@[j] == prefix@[j],
        decreases 10 - i,
    {
        if id.get_char(i) != prefix.get_char(i) {
            assert(id@[i as int] != prefix@[i as int]);
            assert(!prefix@.is_prefix_of(id@)) by {
                if prefix@.is_prefix_of(id@) {
                    assert(prefix@[i as int] == id@.subrange(0, 10)[i as int]);
                }
            }
            return None;
        }
        i = i + 1;
    }
    assert(prefix@ =~= id@.subrange(0, 10));
    Some(id.substring_char(10, n))
}

/// A library identifier made from a community preset id gives that id back.
pub proof fn lemma_active_round_trip(id: Seq<char>)
    ensures
        strip_active(active(id)) == Some(id),
{
    reveal_strlit("community:");
    assert("community:"@ =~= active(id).subrange(0, 10));
    assert(active(id).subrange(10, active(id).len() as int) =~= id);
}

} // verus!
