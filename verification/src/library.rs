//! What the preset library shows: its categories, and the lesson note of the
//! active preset.
use vstd::prelude::*;
use vstd::string::StringExecFns;

use crate::community::{active, active_id, find_community, get, parse_active_id, strip_active, CommunityPreset};
use crate::presets::Preset;
use crate::text::{sort_dedup, str_eq, strictly_sorted, texts};

verus! {

/// The categories of the presets, each once, in text order.
pub fn categories(presets: &[Preset]) -> (r: Vec<String>)
    ensures
        strictly_sorted(texts(r@)),
        forall|c: Seq<char>| texts(r@).contains(c) <==> exists|i: int| 0 <= i < presets@.len() && presets@[i].category@ == c,
{
    let mut all: Vec<String> = Vec::new();
    let mut i: usize = 0;
    while i < presets.len()
        invariant
            i <= presets@.len(),
            texts(all@).len() == i,
            forall|j: int| 0 <= j < i ==> #[trigger] texts(all@)[j] == presets@[j].category@,
        decreases presets@.len() - i,
    {
        let ghost before = all@;
        all.push(String::from_str(presets[i].category));
        assert forall|j: int| 0 <= j < i + 1 implies #[trigger] texts(all@)[j] == presets@[j].category@ by {
            if j < i {
                assert(all@[j] == before[j]);
                assert(texts(before)[j] == presets@[j].category@);
            }
        }
        i = i + 1;
    }
    let r = sort_dedup(&all);
    assert forall|c: Seq<char>| texts(r@).contains(c) <==> exists|i: int| 0 <= i < presets@.len() && presets@[i].category@ == c by {
        if texts(all@).contains(c) {
            let j = choose|j: int| 0 <= j < texts(all@).len() && texts(all@)[j] == c;
            assert(presets@[j].category@ == c);
        }
        if exists|i: int| 0 <= i < presets@.len() && presets@[i].category@ == c {
            let j = choose|j: int| 0 <= j < presets@.len() && presets@[j].category@ == c;
            assert(texts(all@)[j] == c);
        }
    }
    r
}

/// The first built-in preset from `i` on with the given identifier.
pub open spec fn find_preset(ps: Seq<Preset>, id: Seq<char>, i: int) -> Option<Preset>
    decreases ps.len() - i,
{
    if i < 0 || i >= ps.len() {
        None
    } else if ps[i].id@ == id {
        Some(ps[i])
    } else {
        find_preset(ps, id, i + 1)
    }
}

pub open spec fn no_selection_note() -> Seq<char> {
    "Choose a preset to load its source and lesson note."@
}

pub open spec fn community_note() -> Seq<char> {
    "Community presets can include didactic notes after review."@
}

/// The lesson note for the active preset: a built-in preset's lesson, a
/// community preset's didactic note, or a general note.
pub open spec fn lesson_of(ps: Seq<Preset>, cs: Seq<CommunityPreset>, active: Option<Seq<char>>) -> Seq<char> {
    match active {
        None => no_selection_note(),
        Some(a) => match find_preset(ps, a, 0) {
            Some(p) => p.lesson@,
            None => match strip_active(a) {
                Some(id) => match find_community(cs, id, 0) {
                    Some(c) => match c.didactic {
                        Some(d) => d@,
                        None => community_note(),
                    },
                    None => community_note(),
                },
                None => community_note(),
            },
        },
    }
}

/// The lesson note of the active preset (see `lesson_of`).
#[verifier::loop_isolation(false)]
pub fn active_lesson(presets: &[Preset], community: &[CommunityPreset], active: Option<&str>) -> (r: String)
    ensures
        r@ == lesson_of(
            presets@,
            community@,
            match active {
                Some(a) => Some(a@),
                None => None,
            },
        ),
{
    let a = match active {
        None => {
            return String::from_str("Choose a preset to load its source and lesson note.");
        },
        Some(a) => a,
    };
    let mut i: usize = 0;
    while i < presets.len()
        invariant
            i <= presets@.len(),
            find_preset(presets@, a@, i as int) == find_preset(presets@, a@, 0),
        decreases presets@.len() - i,
    {
        if str_eq(presets[i].id, a) {
            return String::from_str(presets[i].lesson);
        }
        i = i + 1;
    }
    let fallback = "Community presets can include didactic notes after review.";
    match parse_active_id(a) {
        Some(id) => match get(community, id) {
            Some(c) => match &c.didactic {
                Some(d) => d.clone(),
                None => String::from_str(fallback),
            },
            None => String::from_str(fallback),
        },
        None => String::from_str(fallback),
    }
}


/// The presets of one category, in library order.
pub fn presets_in(presets: &[Preset], category: &str) -> (r: Vec<Preset>)
    ensures
        r@ == presets@.filter(|p: Preset| p.category@ == category@),
{
    let ghost pred = |p: Preset| p.category@ == category@;
    let mut out: Vec<Preset> = Vec::new();
    let mut i: usize = 0;
    while i < presets.len()
        invariant
            i <= presets@.len(),
            pred == (|p: Preset| p.category@ == category@),
            out@ == presets@.subrange(0, i as int).filter(pred),
        decreases presets@.len() - i,
    {
        proof {
            reveal_with_fuel(Seq::<Preset>::filter, 1);
            assert(presets@.subrange(0, i + 1).drop_last() =~= presets@.subrange(0, i as int));
        }
        if str_eq(presets[i].category, category) {
            out.push(presets[i]);
        }
        i = i + 1;
    }
    assert(presets@.subrange(0, i as int) =~= presets@);
    out
}

/// Whether the preset with identifier `id` is the active one.
pub fn is_active(active: Option<&str>, id: &str) -> (r: bool)
    ensures
        r == (active matches Some(a) && a@ == id@),
{
    match active {
        Some(a) => str_eq(a, id),
        None => false,
    }
}

/// Whether the community preset `id` is the active one: the active identifier
/// is its library identifier.
pub fn is_community_active(active_preset: Option<&str>, id: &str) -> (r: bool)
    ensures
        r == (active_preset matches Some(a) && a@ == active(id@)),
{
    match active_preset {
        Some(a) => {
            let full = active_id(id);
            str_eq(a, full.as_str())
        },
        None => false,
    }
}

/// The style classes of a preset row.
pub fn row_class(is_active: bool) -> (r: &'static str)
    ensures
        r@ == (if is_active {
            "preset-row preset-row--active"@
        } else {
            "preset-row"@
        }),
{
    if is_active {
        "preset-row preset-row--active"
    } else {
        "preset-row"
    }
}

/// Whether the library shows a community section: only when there are
/// community presets.
pub fn shows_community(community: &[CommunityPreset]) -> (r: bool)
    ensures
        r == (community@.len() > 0),
{
    community.len() > 0
}

/// Texts separated by ` / `.
pub open spec fn slash_joined(items: Seq<Seq<char>>) -> Seq<char>
    decreases items.len(),
{
    if items.len() == 0 {
        Seq::empty()
    } else if items.len() == 1 {
        items[0]
    } else {
        slash_joined(items.drop_last()) + " / "@ + items.last()
    }
}

/// The tags of a built-in preset as one line, separated by ` / `.
pub fn tags_text(tags: &[&str]) -> (r: String)
    ensures
        r@ == slash_joined(Seq::new(tags@.len(), |i: int| tags@[i]@)),
{
    let ghost items = Seq::new(tags@.len(), |i: int| tags@[i]@);
    let mut out = String::new();
    let mut i: usize = 0;
    while i < tags.len()
        invariant
            i <= tags@.len(),
            items == Seq::new(tags@.len(), |i: int| tags@[i]@),
            out@ == slash_joined(items.subrange(0, i as int)),
        decreases tags@.len() - i,
    {
        assert(items.subrange(0, i + 1).drop_last() =~= items.subrange(0, i as int));
        if i > 0 {
            out.append(" / ");
        }
        out.append(tags[i]);
        proof {
            if i == 0 {
                assert(items.subrange(0, 1).len() == 1);
                assert(out@ =~= items.subrange(0, 1)[0]);
            }
        }
        assert(out@ =~= slash_joined(items.subrange(0, i + 1)));
        i = i + 1;
    }
    assert(items.subrange(0, i as int) =~= items);
    out
}

/// The tags of a community preset as one line, separated by ` / `.
pub fn community_tags_text(tags: &Vec<String>) -> (r: String)
    ensures
        r@ == slash_joined(texts(tags@)),
{
    let mut out = String::new();
    let mut i: usize = 0;
    while i < tags.len()
        invariant
            i <= tags@.len(),
            out@ == slash_joined(texts(tags@).subrange(0, i as int)),
        decreases tags@.len() - i,
    {
        assert(texts(tags@).subrange(0, i + 1).drop_last() =~= texts(tags@).subrange(0, i as int));
        if i > 0 {
            out.append(" / ");
        }
        out.append(tags[i].as_str());
        proof {
            if i == 0 {
                assert(out@ =~= texts(tags@).subrange(0, 1)[0]);
            }
        }
        assert(out@ =~= slash_joined(texts(tags@).subrange(0, i + 1)));
        i = i + 1;
    }
    assert(texts(tags@).subrange(0, i as int) =~= texts(tags@));
    out
}

} // verus!
