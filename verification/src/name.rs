//! Names of shadows: which shadow a user means, and refusing to guess.
use crate::config::{in_dir, Config, EntryView};
use crate::path::{
    absolute, components, file_name, file_name_is_the_last_component, joined, lemma_joined,
    same_path, starts_with, FsPath,
};
use crate::sequences::{concat, join, occurs};
use crate::shadow::{meta_path, meta_place, named_after, shadow_leaf};
use crate::text::{
    contains_text, decimal, decimal_text, has_char, join_text, lemma_shown_text, same_text, shown,
};
use vstd::prelude::*;
use vstd::utf8::encode_utf8;

verus! {

/// Why a name was not resolved.
#[derive(Debug)]
pub enum NameError {
    /// No shadow has the name.
    NotFound,
    /// More than one shadow has the name: these.
    Ambiguous(Vec<FsPath>),
}

/// Whether `name` is a path relative to a shadow root, and not the name of a directory.
pub open spec fn is_relative_path(name: Seq<char>) -> bool {
    name.contains('/')
}

/// Whether `name`, taken as a path within the entry's shadow root, stays within it. An absolute path
/// stands for itself, and does so only where it begins with the root.
pub open spec fn stays_within(entry: EntryView, name: Seq<char>) -> bool {
    starts_with(in_dir(entry.shadow_root, name), entry.shadow_root)
}

/// The directories that `name` may mean as a path relative to a shadow root, at most one for each
/// root.
pub open spec fn candidates(name: Seq<char>, entries: Seq<EntryView>) -> Seq<Seq<u8>> {
    entries.filter(|entry: EntryView| stays_within(entry, name)).map_values(
        |entry: EntryView| in_dir(entry.shadow_root, name),
    )
}

/// Whether the last component of `place` is `name`.
pub open spec fn has_leaf(place: Seq<u8>, name: Seq<char>) -> bool {
    file_name(place) is Some && shown(file_name(place)->0) == name
}

/// Whether `name` stands in the last component of `place`.
pub open spec fn leaf_contains(place: Seq<u8>, name: Seq<char>) -> bool {
    file_name(place) is Some && occurs(name, shown(file_name(place)->0))
}

/// Where `name` is met, given the files that exist and the shadows under each shadow root: with a
/// slash in the name, the candidates that have the file of a shadow in them; without one, the shadows
/// with that last component. A shadow that lies under several roots is met several times.
pub open spec fn hits(
    name: Seq<char>,
    entries: Seq<EntryView>,
    existing: Seq<Seq<u8>>,
    listings: Seq<Seq<Seq<u8>>>,
) -> Seq<Seq<u8>> {
    if is_relative_path(name) {
        candidates(name, entries).filter(|place: Seq<u8>| existing.contains(meta_place(place)))
    } else {
        concat(listings).filter(|place: Seq<u8>| has_leaf(place, name))
    }
}

/// Whether one of `places` is the path `place`.
pub open spec fn holds_path(places: Seq<Seq<u8>>, place: Seq<u8>) -> bool {
    exists|i: int| 0 <= i < places.len() && same_path(#[trigger] places[i], place)
}

/// The places, with later occurrences of the same path left out.
pub open spec fn distinct(places: Seq<Seq<u8>>) -> Seq<Seq<u8>>
    decreases places.len(),
{
    if places.len() == 0 {
        seq![]
    } else {
        let before = distinct(places.drop_last());
        if holds_path(before, places.last()) {
            before
        } else {
            before.push(places.last())
        }
    }
}

/// The shadows that `name` means, each of them once.
pub open spec fn matches(
    name: Seq<char>,
    entries: Seq<EntryView>,
    existing: Seq<Seq<u8>>,
    listings: Seq<Seq<Seq<u8>>>,
) -> Seq<Seq<u8>> {
    distinct(hits(name, entries, existing, listings))
}

/// The names of shadows that `name` is part of.
pub open spec fn suggestions(name: Seq<char>, listings: Seq<Seq<Seq<u8>>>) -> Seq<Seq<char>> {
    concat(listings).filter(|place: Seq<u8>| leaf_contains(place, name)).map_values(
        |place: Seq<u8>| shown(file_name(place)->0),
    )
}

proof fn lemma_filter_next<T>(s: Seq<T>, keep: spec_fn(T) -> bool, i: int)
    requires
        0 <= i < s.len(),
    ensures
        s.take(i + 1).filter(keep) == (if keep(s[i]) {
            s.take(i).filter(keep).push(s[i])
        } else {
            s.take(i).filter(keep)
        }),
{
    reveal(Seq::filter);
    assert(s.take(i + 1).drop_last() =~= s.take(i));
}

proof fn lemma_filter_none<T>(s: Seq<T>, keep: spec_fn(T) -> bool)
    ensures
        s.take(0).filter(keep) == Seq::<T>::empty(),
{
    reveal(Seq::filter);
    assert(s.take(0) =~= seq![]);
    assert(s.take(0).filter(keep) =~= seq![]);
}

/// The shadows under all roots, in order.
fn flatten(listings: &Vec<Vec<FsPath>>) -> (res: Vec<FsPath>)
    ensures
        res.deep_view() == concat(listings.deep_view()),
{
    let ghost lists = listings.deep_view();
    let mut out: Vec<FsPath> = Vec::new();
    let mut i: usize = 0;
    assert(lists.len() == listings@.len());
    assert(lists.take(0) =~= seq![]);
    assert(out.deep_view() =~= concat(lists.take(0)));
    while i < listings.len()
        invariant
            lists == listings.deep_view(),
            lists.len() == listings@.len(),
            i <= listings@.len(),
            out.deep_view() == concat(lists.take(i as int)),
        decreases listings@.len() - i,
    {
        let ghost before = out.deep_view();
        let list = &listings[i];
        let ghost items = list.deep_view();
        let mut j: usize = 0;
        assert(items.len() == list@.len());
        assert(before + items.take(0) =~= before);
        while j < list.len()
            invariant
                items == list.deep_view(),
                items.len() == list@.len(),
                j <= list@.len(),
                out.deep_view() == before + items.take(j as int),
            decreases list@.len() - j,
        {
            let ghost sofar = out.deep_view();
            out.push(list[j].clone());
            assert(out.deep_view() =~= sofar.push(items[j as int]));
            assert(out.deep_view() =~= before + items.take(j + 1));
            j = j + 1;
        }
        proof {
            assert(items.take(j as int) =~= items);
            assert(lists[i as int] == items);
            assert(lists.take(i + 1).drop_last() =~= lists.take(i as int));
            assert(lists.take(i + 1).last() == items);
        }
        i = i + 1;
    }
    assert(lists.take(i as int) =~= lists);
    out
}

fn contains_path(places: &Vec<FsPath>, place: &FsPath) -> (res: bool)
    ensures
        res == places.deep_view().contains(place@),
{
    let ghost all = places.deep_view();
    assert(all.len() == places@.len());
    let mut i: usize = 0;
    while i < places.len()
        invariant
            all == places.deep_view(),
            all.len() == places@.len(),
            i <= places@.len(),
            forall|j: int| 0 <= j < i ==> all[j] != place@,
        decreases places@.len() - i,
    {
        assert(all[i as int] == places@[i as int]@);
        if places[i].same_name(place) {
            assert(all.contains(place@));
            return true;
        }
        i = i + 1;
    }
    false
}

/// The directories that `name` may mean as a path relative to a shadow root; none where it is no
/// such path.
pub fn name_candidates(name: &str, config: &Config) -> (res: Vec<FsPath>)
    ensures
        res.deep_view() == (if is_relative_path(name@) {
            candidates(name@, config.entries())
        } else {
            seq![]
        }),
{
    let mut out: Vec<FsPath> = Vec::new();
    assert(out.deep_view() =~= seq![]);
    if !has_char(name, '/') {
        return out;
    }
    let ghost entries = config.entries();
    assert(entries.len() == config.filesystem@.len());
    let ghost within = |entry: EntryView| stays_within(entry, name@);
    let mut i: usize = 0;
    proof {
        lemma_filter_none(entries, within);
        assert(out.deep_view() =~= candidates(name@, entries.take(0)));
    }
    while i < config.filesystem.len()
        invariant
            within == (|entry: EntryView| stays_within(entry, name@)),
            entries == config.entries(),
            entries.len() == config.filesystem@.len(),
            i <= entries.len(),
            out.deep_view() == candidates(name@, entries.take(i as int)),
        decreases entries.len() - i,
    {
        let ghost before = out.deep_view();
        let ghost kept = entries.take(i as int).filter(within);
        let root = &config.filesystem[i].shadow_root;
        let candidate = root.join_name(name);
        proof {
            assert(entries[i as int] == config.filesystem@[i as int]@);
            lemma_filter_next(entries, within, i as int);
        }
        if candidate.starts_with(root) {
            let ghost place = candidate@;
            out.push(candidate);
            assert(out.deep_view() =~= before.push(place));
            assert(out.deep_view() =~= kept.push(entries[i as int]).map_values(
                |entry: EntryView| in_dir(entry.shadow_root, name@),
            ));
        }
        i = i + 1;
    }
    assert(entries.take(i as int) =~= entries);
    out
}

fn find_hits(
    name: &str,
    config: &Config,
    existing: &Vec<FsPath>,
    listings: &Vec<Vec<FsPath>>,
) -> (res: Vec<FsPath>)
    ensures
        res.deep_view() == hits(
            name@,
            config.entries(),
            existing.deep_view(),
            listings.deep_view(),
        ),
{
    let relative = has_char(name, '/');
    let all = if relative {
        name_candidates(name, config)
    } else {
        flatten(listings)
    };
    let ghost places = all.deep_view();
    let ghost keep = if relative {
        |place: Seq<u8>| existing.deep_view().contains(meta_place(place))
    } else {
        |place: Seq<u8>| has_leaf(place, name@)
    };
    assert(places.len() == all@.len());
    let mut out: Vec<FsPath> = Vec::new();
    let mut i: usize = 0;
    proof {
        lemma_filter_none(places, keep);
        assert(out.deep_view() =~= places.take(0).filter(keep));
    }
    while i < all.len()
        invariant
            places == all.deep_view(),
            places.len() == all@.len(),
            relative ==> keep == (|place: Seq<u8>|
                existing.deep_view().contains(meta_place(place))),
            !relative ==> keep == (|place: Seq<u8>| has_leaf(place, name@)),
            i <= places.len(),
            out.deep_view() == places.take(i as int).filter(keep),
        decreases places.len() - i,
    {
        let place = &all[i];
        assert(places[i as int] == place@);
        let wanted = if relative {
            contains_path(existing, &meta_path(place))
        } else {
            match place.file_name() {
                None => false,
                Some(leaf) => same_text(leaf.display().as_str(), name),
            }
        };
        proof {
            lemma_filter_next(places, keep, i as int);
            assert(wanted == keep(places[i as int]));
        }
        if wanted {
            let ghost before = out.deep_view();
            out.push(place.clone());
            assert(out.deep_view() =~= before.push(places[i as int]));
        }
        i = i + 1;
    }
    assert(places.take(i as int) =~= places);
    out
}

fn has_same_path(places: &Vec<FsPath>, place: &FsPath) -> (res: bool)
    ensures
        res == holds_path(places.deep_view(), place@),
{
    let ghost all = places.deep_view();
    assert(all.len() == places@.len());
    let mut i: usize = 0;
    while i < places.len()
        invariant
            all == places.deep_view(),
            all.len() == places@.len(),
            i <= places@.len(),
            forall|j: int| 0 <= j < i ==> !same_path(#[trigger] all[j], place@),
        decreases places@.len() - i,
    {
        assert(all[i as int] == places@[i as int]@);
        if places[i].same(place) {
            return true;
        }
        i = i + 1;
    }
    false
}

fn leave_out_repeated(places: &Vec<FsPath>) -> (res: Vec<FsPath>)
    ensures
        res.deep_view() == distinct(places.deep_view()),
{
    let ghost all = places.deep_view();
    assert(all.len() == places@.len());
    let mut out: Vec<FsPath> = Vec::new();
    let mut i: usize = 0;
    assert(out.deep_view() =~= distinct(all.take(0)));
    while i < places.len()
        invariant
            all == places.deep_view(),
            all.len() == places@.len(),
            i <= places@.len(),
            out.deep_view() == distinct(all.take(i as int)),
        decreases places@.len() - i,
    {
        let ghost before = out.deep_view();
        proof {
            assert(all.take(i + 1).drop_last() =~= all.take(i as int));
            assert(all[i as int] == places@[i as int]@);
        }
        if !has_same_path(&out, &places[i]) {
            out.push(places[i].clone());
            assert(out.deep_view() =~= before.push(all[i as int]));
        }
        i = i + 1;
    }
    assert(all.take(i as int) =~= all);
    out
}

/// Resolve a user-supplied name to a shadow directory path, given the files that exist and the
/// shadows under each shadow root.
///
/// If the name contains `/`, it is a path relative to each shadow root, and leads to nothing outside
/// of them. Otherwise it is the last
/// component of a shadow.
///
/// If exactly one shadow matches, it is used, however often it was found. Zero matches and ambiguous
/// matches are errors.
pub fn resolve_name(
    name: &str,
    config: &Config,
    existing: &Vec<FsPath>,
    listings: &Vec<Vec<FsPath>>,
) -> (res: Result<FsPath, NameError>)
    ensures
        ({
            let found = matches(
                name@,
                config.entries(),
                existing.deep_view(),
                listings.deep_view(),
            );
            match res {
                Ok(place) => found == seq![place@],
                Err(NameError::NotFound) => found.len() == 0,
                Err(NameError::Ambiguous(places)) => found.len() >= 2 && places.deep_view() == found,
            }
        }),
{
    let found = leave_out_repeated(&find_hits(name, config, existing, listings));
    assert(found.deep_view().len() == found@.len());
    if found.len() == 0 {
        return Err(NameError::NotFound);
    }
    if found.len() == 1 {
        let place = found[0].clone();
        assert(found.deep_view() =~= seq![place@]);
        return Ok(place);
    }
    Err(NameError::Ambiguous(found))
}

/// The names of shadows that `name` is part of.
pub fn suggest_names(name: &str, listings: &Vec<Vec<FsPath>>) -> (res: Vec<String>)
    ensures
        res.deep_view() == suggestions(name@, listings.deep_view()),
{
    let all = flatten(listings);
    let ghost places = all.deep_view();
    let ghost keep = |place: Seq<u8>| leaf_contains(place, name@);
    let ghost leaf = |place: Seq<u8>| shown(file_name(place)->0);
    assert(places.len() == all@.len());
    let mut out: Vec<String> = Vec::new();
    let mut i: usize = 0;
    proof {
        lemma_filter_none(places, keep);
        assert(out.deep_view() =~= places.take(0).filter(keep).map_values(leaf));
    }
    while i < all.len()
        invariant
            places == all.deep_view(),
            places.len() == all@.len(),
            keep == (|place: Seq<u8>| leaf_contains(place, name@)),
            leaf == (|place: Seq<u8>| shown(file_name(place)->0)),
            i <= places.len(),
            out.deep_view() == places.take(i as int).filter(keep).map_values(leaf),
        decreases places.len() - i,
    {
        let place = &all[i];
        assert(places[i as int] == place@);
        let ghost before = out.deep_view();
        let ghost kept = places.take(i as int).filter(keep);
        proof {
            lemma_filter_next(places, keep, i as int);
        }
        if let Some(last) = place.file_name() {
            let text = last.display();
            if contains_text(text.as_str(), name) {
                let ghost text_view = text@;
                out.push(text);
                assert(out.deep_view() =~= before.push(text_view));
                assert(out.deep_view() =~= kept.push(places[i as int]).map_values(leaf));
            }
        }
        i = i + 1;
    }
    assert(places.take(i as int) =~= places);
    out
}

/// What is said of each of several matches.
pub open spec fn indented(places: Seq<Seq<u8>>) -> Seq<Seq<char>> {
    places.map_values(|place: Seq<u8>| "  "@ + shown(place))
}

fn indent(places: &Vec<FsPath>) -> (res: Vec<String>)
    ensures
        res.deep_view() == indented(places.deep_view()),
{
    let ghost all = places.deep_view();
    assert(all.len() == places@.len());
    let mut out: Vec<String> = Vec::new();
    let mut i: usize = 0;
    assert(out.deep_view() =~= indented(all.take(0)));
    while i < places.len()
        invariant
            all == places.deep_view(),
            all.len() == places@.len(),
            i <= all.len(),
            out.deep_view() == indented(all.take(i as int)),
        decreases all.len() - i,
    {
        let ghost before = out.deep_view();
        out.push("  ".to_owned().concat(places[i].display().as_str()));
        assert(out.deep_view() =~= before.push("  "@ + shown(all[i as int])));
        assert(out.deep_view() =~= indented(all.take(i + 1)));
        i = i + 1;
    }
    assert(all.take(i as int) =~= all);
    out
}

/// What is said where no shadow has the name, with the names that come close.
pub open spec fn not_found_words(name: Seq<char>, close: Seq<Seq<char>>) -> Seq<char> {
    if close.len() == 0 {
        "No shadow named '"@ + name + "' found. Run `cc-sandbox list` to see all shadows."@
    } else {
        "No shadow named '"@ + name + "' found. Did you mean one of these?\n  "@ + join(
            close,
            "\n  "@,
        )
    }
}

fn not_found_message(name: &str, close: &Vec<String>) -> (res: String)
    ensures
        res@ == not_found_words(name@, close.deep_view()),
{
    assert(close.deep_view().len() == close@.len());
    let mut out = "No shadow named '".to_owned();
    out.append(name);
    if close.len() == 0 {
        out.append("' found. Run `cc-sandbox list` to see all shadows.");
    } else {
        out.append("' found. Did you mean one of these?\n  ");
        out.append(join_text(close, "\n  ").as_str());
    }
    out
}

/// What is said where several shadows have the name.
pub open spec fn ambiguous_words(name: Seq<char>, places: Seq<Seq<u8>>) -> Seq<char> {
    "Ambiguous name '"@ + name + "' matches "@ + decimal(places.len()) + " shadows:\n"@ + join(
        indented(places),
        "\n"@,
    ) + "\nUse more of the path or the full name including the timestamp to disambiguate."@
}

fn ambiguous_message(name: &str, places: &Vec<FsPath>) -> (res: String)
    ensures
        res@ == ambiguous_words(name@, places.deep_view()),
{
    assert(places.deep_view().len() == places@.len());
    let mut out = "Ambiguous name '".to_owned();
    out.append(name);
    out.append("' matches ");
    out.append(decimal_text(places.len() as u64).as_str());
    out.append(" shadows:\n");
    out.append(join_text(&indent(places), "\n").as_str());
    out.append("\nUse more of the path or the full name including the timestamp to disambiguate.");
    out
}

/// What is said where a name was not resolved, given the shadows under each shadow root.
pub fn error_message(name: &str, error: &NameError, listings: &Vec<Vec<FsPath>>) -> (res: String)
    ensures
        res@ == match error {
            NameError::NotFound => not_found_words(
                name@,
                suggestions(name@, listings.deep_view()),
            ),
            NameError::Ambiguous(places) => ambiguous_words(name@, places.deep_view()),
        },
{
    match error {
        NameError::NotFound => not_found_message(name, &suggest_names(name, listings)),
        NameError::Ambiguous(places) => ambiguous_message(name, places),
    }
}

// ---------------------------------------------------------------------------------------------
// What names mean
// ---------------------------------------------------------------------------------------------

/// What [`distinct`] keeps: every path, and each of them once.
pub proof fn lemma_distinct(places: Seq<Seq<u8>>)
    ensures
        forall|i: int, j: int|
            0 <= i < j < distinct(places).len() ==> !same_path(
                #[trigger] distinct(places)[i],
                #[trigger] distinct(places)[j],
            ),
        forall|i: int|
            0 <= i < distinct(places).len() ==> places.contains(#[trigger] distinct(places)[i]),
        forall|i: int|
            0 <= i < places.len() ==> holds_path(distinct(places), #[trigger] places[i]),
    decreases places.len(),
{
    if places.len() > 0 {
        let front = places.drop_last();
        let before = distinct(front);
        let all = distinct(places);
        lemma_distinct(front);
        assert forall|i: int| 0 <= i < all.len() implies places.contains(#[trigger] all[i]) by {
            if i < before.len() {
                assert(front.contains(before[i]));
                let k = choose|k: int| 0 <= k < front.len() && front[k] == before[i];
                assert(places[k] == all[i]);
            } else {
                assert(places[places.len() - 1] == all[i]);
            }
        }
        assert forall|i: int| 0 <= i < places.len() implies holds_path(all, #[trigger] places[i]) by {
            if i < front.len() {
                assert(holds_path(before, front[i]));
                let k = choose|k: int|
                    0 <= k < before.len() && same_path(#[trigger] before[k], front[i]);
                assert(same_path(all[k], places[i]));
            } else if !holds_path(before, places.last()) {
                assert(same_path(all[before.len() as int], places[i]));
            }
        }
        assert forall|i: int, j: int| 0 <= i < j < all.len() implies !same_path(
            #[trigger] all[i],
            #[trigger] all[j],
        ) by {
            if j < before.len() {
                assert(!same_path(before[i], before[j]));
            } else {
                assert(before[i] == all[i]);
            }
        }
    }
}

/// Two places that are not the same path make two results.
proof fn lemma_distinct_two(places: Seq<Seq<u8>>, a: Seq<u8>, b: Seq<u8>)
    requires
        places.contains(a),
        places.contains(b),
        !same_path(a, b),
    ensures
        distinct(places).len() >= 2,
{
    lemma_distinct(places);
    let all = distinct(places);
    let i = places.index_of(a);
    let j = places.index_of(b);
    assert(holds_path(all, places[i]) && holds_path(all, places[j]));
}

/// Places that are all the same path make one result.
proof fn lemma_distinct_one(places: Seq<Seq<u8>>, a: Seq<u8>)
    requires
        places.len() > 0,
        forall|i: int| 0 <= i < places.len() ==> same_path(#[trigger] places[i], a),
    ensures
        distinct(places).len() == 1,
        same_path(distinct(places)[0], a),
{
    lemma_distinct(places);
    let all = distinct(places);
    assert(holds_path(all, places[0]));
    assert(places.contains(all[0]));
    if all.len() >= 2 {
        assert(places.contains(all[0]) && places.contains(all[1]));
        assert(!same_path(all[0], all[1]));
    }
}

/// Whether `place` is met by `name`.
pub open spec fn is_hit(
    place: Seq<u8>,
    name: Seq<char>,
    entries: Seq<EntryView>,
    existing: Seq<Seq<u8>>,
    listings: Seq<Seq<Seq<u8>>>,
) -> bool {
    if is_relative_path(name) {
        &&& existing.contains(meta_place(place))
        &&& exists|i: int|
            0 <= i < entries.len() && stays_within(#[trigger] entries[i], name) && place == in_dir(
                entries[i].shadow_root,
                name,
            )
    } else {
        has_leaf(place, name) && concat(listings).contains(place)
    }
}

/// What is met, in whatever order.
proof fn lemma_hits(
    place: Seq<u8>,
    name: Seq<char>,
    entries: Seq<EntryView>,
    existing: Seq<Seq<u8>>,
    listings: Seq<Seq<Seq<u8>>>,
)
    ensures
        hits(name, entries, existing, listings).contains(place) <==> is_hit(
            place,
            name,
            entries,
            existing,
            listings,
        ),
{
    let all = hits(name, entries, existing, listings);
    if is_relative_path(name) {
        let keep = |place: Seq<u8>| existing.contains(meta_place(place));
        let within = |entry: EntryView| stays_within(entry, name);
        let to_place = |entry: EntryView| in_dir(entry.shadow_root, name);
        let kept = entries.filter(within);
        let tried = candidates(name, entries);
        if all.contains(place) {
            let k = all.index_of(place);
            tried.lemma_filter_pred(keep, k);
            tried.lemma_filter_contains_rev(keep, place);
            let t = tried.index_of(place);
            entries.lemma_filter_pred(within, t);
            assert(kept.contains(kept[t]));
            entries.lemma_filter_contains_rev(within, kept[t]);
            let i = entries.index_of(kept[t]);
            assert(stays_within(entries[i], name));
        }
        if is_hit(place, name, entries, existing, listings) {
            let i = choose|i: int|
                0 <= i < entries.len() && stays_within(#[trigger] entries[i], name) && place
                    == in_dir(entries[i].shadow_root, name);
            entries.lemma_filter_contains(within, i);
            let t = kept.index_of(entries[i]);
            assert(tried[t] == place);
            tried.lemma_filter_contains(keep, t);
        }
    } else {
        let keep = |place: Seq<u8>| has_leaf(place, name);
        let listed = concat(listings);
        if all.contains(place) {
            let k = all.index_of(place);
            listed.lemma_filter_pred(keep, k);
            listed.lemma_filter_contains_rev(keep, place);
        }
        if has_leaf(place, name) && listed.contains(place) {
            listed.lemma_filter_contains(keep, listed.index_of(place));
        }
    }
}

/// A name that two shadows have means neither of them, in whatever order they were found: there is
/// no most recent one that would be preferred. A path that leads to a shadow from two roots means
/// neither of them.
pub proof fn ambiguity_is_refused(
    name: Seq<char>,
    entries: Seq<EntryView>,
    existing: Seq<Seq<u8>>,
    listings: Seq<Seq<Seq<u8>>>,
    a: Seq<u8>,
    b: Seq<u8>,
)
    requires
        is_hit(a, name, entries, existing, listings),
        is_hit(b, name, entries, existing, listings),
        !same_path(a, b),
    ensures
        matches(name, entries, existing, listings).len() >= 2,
{
    lemma_hits(a, name, entries, existing, listings);
    lemma_hits(b, name, entries, existing, listings);
    lemma_distinct_two(hits(name, entries, existing, listings), a, b);
}

/// A name that one shadow alone has means that shadow, under however many roots it was found.
pub proof fn unique_name_is_resolved(
    name: Seq<char>,
    entries: Seq<EntryView>,
    existing: Seq<Seq<u8>>,
    listings: Seq<Seq<Seq<u8>>>,
    a: Seq<u8>,
)
    requires
        is_hit(a, name, entries, existing, listings),
        forall|b: Seq<u8>| #[trigger]
            is_hit(b, name, entries, existing, listings) ==> same_path(b, a),
    ensures
        matches(name, entries, existing, listings).len() == 1,
        same_path(matches(name, entries, existing, listings)[0], a),
{
    let all = hits(name, entries, existing, listings);
    lemma_hits(a, name, entries, existing, listings);
    assert forall|i: int| 0 <= i < all.len() implies same_path(#[trigger] all[i], a) by {
        lemma_hits(all[i], name, entries, existing, listings);
        assert(is_hit(all[i], name, entries, existing, listings));
    }
    lemma_distinct_one(all, a);
}

/// What a name means is a place where it is met, and every place where it is met is among it.
pub proof fn meaning_is_what_is_met(
    name: Seq<char>,
    entries: Seq<EntryView>,
    existing: Seq<Seq<u8>>,
    listings: Seq<Seq<Seq<u8>>>,
    place: Seq<u8>,
)
    ensures
        matches(name, entries, existing, listings).contains(place) ==> is_hit(
            place,
            name,
            entries,
            existing,
            listings,
        ),
        is_hit(place, name, entries, existing, listings) ==> holds_path(
            matches(name, entries, existing, listings),
            place,
        ),
{
    let all = hits(name, entries, existing, listings);
    lemma_hits(place, name, entries, existing, listings);
    lemma_distinct(all);
    if distinct(all).contains(place) {
        let i = distinct(all).index_of(place);
        assert(all.contains(distinct(all)[i]));
    }
    if all.contains(place) {
        assert(holds_path(distinct(all), all[all.index_of(place)]));
    }
}

/// The order of the filesystems, and that of the shadows under them, does not decide what a name
/// means: it means nothing, one shadow or several in any order, and one shadow is the same one.
pub proof fn order_does_not_decide(
    name: Seq<char>,
    entries: Seq<EntryView>,
    existing: Seq<Seq<u8>>,
    listings: Seq<Seq<Seq<u8>>>,
    other_entries: Seq<EntryView>,
    other_existing: Seq<Seq<u8>>,
    other_listings: Seq<Seq<Seq<u8>>>,
)
    requires
        forall|entry: EntryView| entries.contains(entry) <==> other_entries.contains(entry),
        forall|p: Seq<u8>| existing.contains(p) <==> other_existing.contains(p),
        forall|p: Seq<u8>| concat(listings).contains(p) <==> concat(other_listings).contains(p),
    ensures
        ({
            let here = matches(name, entries, existing, listings);
            let there = matches(name, other_entries, other_existing, other_listings);
            &&& here.len() == 0 <==> there.len() == 0
            &&& here.len() == 1 <==> there.len() == 1
            &&& here.len() == 1 ==> same_path(here[0], there[0])
            &&& forall|i: int| 0 <= i < here.len() ==> holds_path(there, #[trigger] here[i])
        }),
{
    let here = matches(name, entries, existing, listings);
    let there = matches(name, other_entries, other_existing, other_listings);
    lemma_same_meaning(
        name,
        entries,
        existing,
        listings,
        other_entries,
        other_existing,
        other_listings,
    );
    lemma_same_meaning(
        name,
        other_entries,
        other_existing,
        other_listings,
        entries,
        existing,
        listings,
    );
    lemma_distinct(hits(name, entries, existing, listings));
    lemma_distinct(hits(name, other_entries, other_existing, other_listings));
    if here.len() > 0 {
        assert(holds_path(there, here[0]));
    }
    if there.len() > 0 {
        assert(holds_path(here, there[0]));
    }
    if here.len() >= 2 {
        assert(holds_path(there, here[0]) && holds_path(there, here[1]));
        assert(!same_path(here[0], here[1]));
    }
    if there.len() >= 2 {
        assert(holds_path(here, there[0]) && holds_path(here, there[1]));
        assert(!same_path(there[0], there[1]));
    }
}

proof fn lemma_same_meaning(
    name: Seq<char>,
    entries: Seq<EntryView>,
    existing: Seq<Seq<u8>>,
    listings: Seq<Seq<Seq<u8>>>,
    other_entries: Seq<EntryView>,
    other_existing: Seq<Seq<u8>>,
    other_listings: Seq<Seq<Seq<u8>>>,
)
    requires
        forall|entry: EntryView| entries.contains(entry) ==> other_entries.contains(entry),
        forall|p: Seq<u8>| existing.contains(p) ==> other_existing.contains(p),
        forall|p: Seq<u8>| concat(listings).contains(p) ==> concat(other_listings).contains(p),
    ensures
        ({
            let here = matches(name, entries, existing, listings);
            let there = matches(name, other_entries, other_existing, other_listings);
            forall|i: int| 0 <= i < here.len() ==> holds_path(there, #[trigger] here[i])
        }),
{
    let here = matches(name, entries, existing, listings);
    let there = matches(name, other_entries, other_existing, other_listings);
    assert forall|i: int| 0 <= i < here.len() implies holds_path(there, #[trigger] here[i]) by {
        let place = here[i];
        meaning_is_what_is_met(name, entries, existing, listings, place);
        assert(here.contains(place));
        if is_relative_path(name) {
            let k = choose|k: int|
                0 <= k < entries.len() && stays_within(#[trigger] entries[k], name) && place
                    == in_dir(entries[k].shadow_root, name);
            assert(entries.contains(entries[k]));
            let m = other_entries.index_of(entries[k]);
            assert(stays_within(other_entries[m], name));
        }
        assert(is_hit(place, name, other_entries, other_existing, other_listings));
        meaning_is_what_is_met(name, other_entries, other_existing, other_listings, place);
    }
}

/// A shadow that was placed with a suffix is found under the name of its source, a dash and the
/// suffix.
pub proof fn shadow_has_its_name(place: Seq<u8>, source: Seq<u8>, suffix: Seq<char>)
    requires
        named_after(place, source, suffix),
    ensures
        has_leaf(place, shadow_leaf(file_name(source)->0, suffix)),
{
    lemma_shown_text(shadow_leaf(file_name(source)->0, suffix));
}

/// What a name with a slash means has a path that begins with a shadow root, whatever the name.
pub proof fn relative_name_stays_under_a_root(
    name: Seq<char>,
    entries: Seq<EntryView>,
    existing: Seq<Seq<u8>>,
    listings: Seq<Seq<Seq<u8>>>,
    k: int,
)
    requires
        is_relative_path(name),
        0 <= k < matches(name, entries, existing, listings).len(),
    ensures
        exists|i: int|
            0 <= i < entries.len() && starts_with(
                matches(name, entries, existing, listings)[k],
                (#[trigger] entries[i]).shadow_root,
            ),
{
    let place = matches(name, entries, existing, listings)[k];
    meaning_is_what_is_met(name, entries, existing, listings, place);
    assert(matches(name, entries, existing, listings).contains(place));
    let i = choose|i: int|
        0 <= i < entries.len() && stays_within(#[trigger] entries[i], name) && place == in_dir(
            entries[i].shadow_root,
            name,
        );
    assert(starts_with(place, entries[i].shadow_root));
}

/// A plain name means nothing but shadows that were found.
pub proof fn plain_name_means_a_shadow(
    name: Seq<char>,
    entries: Seq<EntryView>,
    existing: Seq<Seq<u8>>,
    listings: Seq<Seq<Seq<u8>>>,
    k: int,
)
    requires
        !is_relative_path(name),
        0 <= k < matches(name, entries, existing, listings).len(),
    ensures
        concat(listings).contains(matches(name, entries, existing, listings)[k]),
        has_leaf(matches(name, entries, existing, listings)[k], name),
{
    let place = matches(name, entries, existing, listings)[k];
    meaning_is_what_is_met(name, entries, existing, listings, place);
    assert(matches(name, entries, existing, listings).contains(place));
}

/// A name that does not begin with a slash is tried under every shadow root that is not empty.
pub proof fn relative_path_is_tried(name: Seq<char>, entry: EntryView)
    requires
        entry.shadow_root.len() > 0,
        !absolute(encode_utf8(name)),
    ensures
        stays_within(entry, name),
{
    lemma_joined(entry.shadow_root, encode_utf8(name));
}

// ---------------------------------------------------------------------------------------------
// What a name is matched with
// ---------------------------------------------------------------------------------------------

/// A plain name means a shadow only where the last component of its path, shown as text, is that name
/// character for character; and every shadow that was found with that last component is among what it
/// means.
pub proof fn plain_name_is_the_whole_leaf(
    name: Seq<char>,
    entries: Seq<EntryView>,
    existing: Seq<Seq<u8>>,
    listings: Seq<Seq<Seq<u8>>>,
    place: Seq<u8>,
)
    requires
        !name.contains('/'),
    ensures
        ({
            let found = matches(name, entries, existing, listings);
            &&& found.contains(place) ==> concat(listings).contains(place) && components(place).len()
                > 0 && shown(components(place).last()) == name
            &&& concat(listings).contains(place) && (components(place).len() == 0 || shown(
                components(place).last(),
            ) != name) ==> !found.contains(place)
            &&& concat(listings).contains(place) && components(place).len() > 0 && components(
                place,
            ).last() != seq![47u8] && components(place).last() != seq![46u8] && components(
                place,
            ).last() != seq![46u8, 46u8] && shown(components(place).last()) == name ==> exists|i: int|
                0 <= i < found.len() && components(#[trigger] found[i]) == components(place)
        }),
{
    let found = matches(name, entries, existing, listings);
    meaning_is_what_is_met(name, entries, existing, listings, place);
    if holds_path(found, place) {
        let i = choose|i: int| 0 <= i < found.len() && same_path(#[trigger] found[i], place);
        assert(components(found[i]) == components(place));
    }
}

/// A name with a slash means a directory only where it is that name within a shadow root, begins with
/// the root, and has the file in it that marks a shadow; and every such directory is among what it
/// means.
pub proof fn path_name_is_looked_up_directly(
    name: Seq<char>,
    entries: Seq<EntryView>,
    existing: Seq<Seq<u8>>,
    listings: Seq<Seq<Seq<u8>>>,
    place: Seq<u8>,
    k: int,
)
    requires
        name.contains('/'),
    ensures
        ({
            let found = matches(name, entries, existing, listings);
            &&& found.contains(place) ==> existing.contains(
                joined(place, encode_utf8(".cc-sandbox-meta.json"@)),
            ) && exists|i: int|
                0 <= i < entries.len() && place == joined(
                    (#[trigger] entries[i]).shadow_root,
                    encode_utf8(name),
                ) && starts_with(place, entries[i].shadow_root)
            &&& 0 <= k < entries.len() && place == joined(
                entries[k].shadow_root,
                encode_utf8(name),
            ) && starts_with(place, entries[k].shadow_root) && existing.contains(
                joined(place, encode_utf8(".cc-sandbox-meta.json"@)),
            ) ==> exists|i: int|
                0 <= i < found.len() && components(#[trigger] found[i]) == components(place)
        }),
{
    let found = matches(name, entries, existing, listings);
    meaning_is_what_is_met(name, entries, existing, listings, place);
    if found.contains(place) {
        let i = choose|i: int|
            0 <= i < entries.len() && stays_within(#[trigger] entries[i], name) && place == in_dir(
                entries[i].shadow_root,
                name,
            );
        assert(place == joined(entries[i].shadow_root, encode_utf8(name)) && starts_with(
            place,
            entries[i].shadow_root,
        ));
    }
    if 0 <= k < entries.len() && place == joined(entries[k].shadow_root, encode_utf8(name))
        && starts_with(place, entries[k].shadow_root) && existing.contains(
        joined(place, encode_utf8(".cc-sandbox-meta.json"@)),
    ) {
        assert(stays_within(entries[k], name));
        assert(is_hit(place, name, entries, existing, listings));
        let i = choose|i: int| 0 <= i < found.len() && same_path(#[trigger] found[i], place);
        assert(components(found[i]) == components(place));
    }
}

/// No shadow is named twice among what a name means.
pub proof fn meanings_are_different_paths(
    name: Seq<char>,
    entries: Seq<EntryView>,
    existing: Seq<Seq<u8>>,
    listings: Seq<Seq<Seq<u8>>>,
    i: int,
    j: int,
)
    requires
        0 <= i < j < matches(name, entries, existing, listings).len(),
    ensures
        components(matches(name, entries, existing, listings)[i]) != components(
            matches(name, entries, existing, listings)[j],
        ),
{
    lemma_distinct(hits(name, entries, existing, listings));
    assert(!same_path(
        matches(name, entries, existing, listings)[i],
        matches(name, entries, existing, listings)[j],
    ));
}

/// What is suggested are last components of shadows that were found, each with the name somewhere in
/// it; and every one of these is suggested.
pub proof fn suggestions_contain_the_name(
    name: Seq<char>,
    listings: Seq<Seq<Seq<u8>>>,
    text: Seq<char>,
    place: Seq<u8>,
)
    ensures
        suggestions(name, listings).contains(text) ==> exists|k: int|
            0 <= k < concat(listings).len() && file_name(#[trigger] concat(listings)[k]) is Some
                && text == shown(file_name(concat(listings)[k])->0) && occurs(name, text),
        concat(listings).contains(place) && file_name(place) is Some && occurs(
            name,
            shown(file_name(place)->0),
        ) ==> suggestions(name, listings).contains(shown(file_name(place)->0)),
{
    let all = concat(listings);
    let keep = |place: Seq<u8>| leaf_contains(place, name);
    let kept = all.filter(keep);
    let told = suggestions(name, listings);
    if told.contains(text) {
        let i = told.index_of(text);
        all.lemma_filter_pred(keep, i);
        assert(kept.contains(kept[i]));
        all.lemma_filter_contains_rev(keep, kept[i]);
        let k = all.index_of(kept[i]);
        assert(file_name(all[k]) is Some && text == shown(file_name(all[k])->0));
    }
    if all.contains(place) && leaf_contains(place, name) {
        let k = all.index_of(place);
        all.lemma_filter_contains(keep, k);
        let i = kept.index_of(place);
        assert(told[i] == shown(file_name(place)->0));
    }
}

/// What is said of a name that means nothing or too much: the name, with the names that come close, or
/// with how many shadows it means and where they are, each on a line.
pub proof fn errors_are_told(
    name: Seq<char>,
    close: Seq<Seq<char>>,
    places: Seq<Seq<u8>>,
    place: Seq<u8>,
)
    ensures
        close.len() == 0 ==> not_found_words(name, close) == "No shadow named '"@ + name
            + "' found. Run `cc-sandbox list` to see all shadows."@,
        close.len() > 0 ==> not_found_words(name, close) == "No shadow named '"@ + name
            + "' found. Did you mean one of these?\n  "@ + join(close, "\n  "@),
        ambiguous_words(name, places) == "Ambiguous name '"@ + name + "' matches "@ + decimal(
            places.len(),
        ) + " shadows:\n"@ + join(indented(places), "\n"@)
            + "\nUse more of the path or the full name including the timestamp to disambiguate."@,
        indented(places.push(place)) == indented(places).push("  "@ + shown(place)),
        indented(Seq::<Seq<u8>>::empty()) == Seq::<Seq<char>>::empty(),
{
    assert(indented(places.push(place)) =~= indented(places).push("  "@ + shown(place)));
    assert(indented(Seq::<Seq<u8>>::empty()) =~= Seq::<Seq<char>>::empty());
}

/// Shadows come in the order in which they were found: one shadow more is put behind what a plain name
/// means where its last component is the name and it is not there already, and behind what is suggested
/// where the name stands in its last component; else it changes nothing.
pub proof fn shadows_keep_their_order(
    name: Seq<char>,
    entries: Seq<EntryView>,
    existing: Seq<Seq<u8>>,
    listings: Seq<Seq<Seq<u8>>>,
    more: Seq<Seq<Seq<u8>>>,
    place: Seq<u8>,
)
    requires
        !name.contains('/'),
        concat(more) == concat(listings).push(place),
    ensures
        ({
            let before = matches(name, entries, existing, listings);
            let after = matches(name, entries, existing, more);
            let named = file_name(place) is Some && shown(file_name(place)->0) == name;
            let there = exists|i: int|
                0 <= i < before.len() && components(#[trigger] before[i]) == components(place);
            &&& named && !there ==> after == before.push(place)
            &&& !named || there ==> after == before
        }),
        file_name(place) is Some && occurs(name, shown(file_name(place)->0)) ==> suggestions(
            name,
            more,
        ) == suggestions(name, listings).push(shown(file_name(place)->0)),
        file_name(place) is None || !occurs(name, shown(file_name(place)->0)) ==> suggestions(
            name,
            more,
        ) == suggestions(name, listings),
        concat(listings).len() == 0 ==> matches(name, entries, existing, listings).len() == 0
            && suggestions(name, listings).len() == 0,
{
    reveal(Seq::filter);
    let all = concat(listings);
    assert(all.push(place).drop_last() =~= all);
    let meets = |place: Seq<u8>| has_leaf(place, name);
    let keep = |place: Seq<u8>| leaf_contains(place, name);
    let before = matches(name, entries, existing, listings);
    if has_leaf(place, name) {
        assert(all.push(place).filter(meets) == all.filter(meets).push(place));
        assert(all.filter(meets).push(place).drop_last() =~= all.filter(meets));
        if exists|i: int|
            0 <= i < before.len() && components(#[trigger] before[i]) == components(place) {
            let i = choose|i: int|
                0 <= i < before.len() && components(#[trigger] before[i]) == components(place);
            assert(same_path(before[i], place));
        } else {
            if holds_path(before, place) {
                let i = choose|i: int| 0 <= i < before.len() && same_path(#[trigger] before[i], place);
                assert(components(before[i]) == components(place));
            }
        }
    } else {
        assert(all.push(place).filter(meets) == all.filter(meets));
    }
    let text = |place: Seq<u8>| shown(file_name(place)->0);
    if leaf_contains(place, name) {
        assert(all.push(place).filter(keep) == all.filter(keep).push(place));
        assert(all.filter(keep).push(place).map_values(text) =~= all.filter(keep).map_values(
            text,
        ).push(shown(file_name(place)->0)));
    } else {
        assert(all.push(place).filter(keep) == all.filter(keep));
    }
    assert(suggestions(name, more) =~= all.push(place).filter(keep).map_values(text));
    assert(suggestions(name, listings) =~= all.filter(keep).map_values(text));
}

/// Exactly one shadow answers to a name, or the name is refused: a plain name gives a shadow that was
/// found and whose last component is that name, only where no other such shadow was found; and where
/// one was found the name is not unknown.
pub proof fn name_gives_the_one_shadow(
    name: &str,
    config: &Config,
    existing: &Vec<FsPath>,
    listings: &Vec<Vec<FsPath>>,
    res: Result<FsPath, NameError>,
    other: Seq<u8>,
)
    requires
        call_ensures(resolve_name, (name, config, existing, listings), res),
        !name@.contains('/'),
        concat(listings.deep_view()).contains(other),
        file_name(other) is Some,
        shown(file_name(other)->0) == name@,
    ensures
        res != Err::<FsPath, NameError>(NameError::NotFound),
        res matches Ok(place) ==> concat(listings.deep_view()).contains(place@) && components(
            place@,
        ).len() > 0 && shown(components(place@).last()) == name@ && components(place@)
            == components(other),
{
    let found = matches(name@, config.entries(), existing.deep_view(), listings.deep_view());
    plain_name_is_the_whole_leaf(
        name@,
        config.entries(),
        existing.deep_view(),
        listings.deep_view(),
        other,
    );
    file_name_is_the_last_component(other);
    if res is Ok {
        let place = res->Ok_0;
        assert(found[0] == place@);
        assert(found.contains(place@));
        plain_name_is_the_whole_leaf(
            name@,
            config.entries(),
            existing.deep_view(),
            listings.deep_view(),
            place@,
        );
    }
}

/// A plain name that is no shadow's last component is refused as unknown.
pub proof fn other_names_are_unknown(
    name: &str,
    config: &Config,
    existing: &Vec<FsPath>,
    listings: &Vec<Vec<FsPath>>,
    res: Result<FsPath, NameError>,
)
    requires
        call_ensures(resolve_name, (name, config, existing, listings), res),
        !name@.contains('/'),
        forall|i: int|
            0 <= i < concat(listings.deep_view()).len() && components(
                #[trigger] concat(listings.deep_view())[i],
            ).len() > 0 ==> shown(components(concat(listings.deep_view())[i]).last()) != name@,
    ensures
        res == Err::<FsPath, NameError>(NameError::NotFound),
{
    let all = concat(listings.deep_view());
    let found = matches(name@, config.entries(), existing.deep_view(), listings.deep_view());
    if found.len() > 0 {
        let place = found[0];
        assert(found.contains(place));
        plain_name_is_the_whole_leaf(
            name@,
            config.entries(),
            existing.deep_view(),
            listings.deep_view(),
            place,
        );
        let i = all.index_of(place);
        assert(all[i] == place);
    }
}

} // verus!
