//! Removing a shadow: what may be removed, and what is asked before.
use crate::config::{Config, EntryView};
use crate::path::{
    body, components, lemma_body_pieces, lemma_parent, lemma_starts_with_transitive, parent,
    paths_go_by_components, same_path, starts_with, FsPath, SLASH,
};
use crate::step::{Action, ActionView};
use crate::text::{
    ascii_lowercase, lines, lines_of, lowercase, same_text, shown, text_lossy, text_lowercase, trim,
    trimmed,
};
use crate::tool::Invocation;
use vstd::prelude::*;
use vstd::utf8::is_ascii_chars;

verus! {

/// The first filesystem whose shadow root a path begins with, or the number of filesystems.
pub open spec fn owner(entries: Seq<EntryView>, shadow: Seq<u8>) -> int
    decreases entries.len(),
{
    if entries.len() == 0 || starts_with(shadow, entries[0].shadow_root) {
        0
    } else {
        1 + owner(entries.drop_first(), shadow)
    }
}

/// Whether a path begins with a shadow root.
pub open spec fn is_owned(entries: Seq<EntryView>, shadow: Seq<u8>) -> bool {
    exists|i: int|
        0 <= i < entries.len() && starts_with(shadow, (#[trigger] entries[i]).shadow_root)
}

/// The first shadow root that a path begins with.
pub open spec fn root_of(entries: Seq<EntryView>, shadow: Seq<u8>) -> Option<Seq<u8>> {
    if is_owned(entries, shadow) {
        Some(entries[owner(entries, shadow)].shadow_root)
    } else {
        None
    }
}

proof fn lemma_owner(entries: Seq<EntryView>, shadow: Seq<u8>, k: int)
    requires
        0 <= k <= entries.len(),
        k < entries.len() ==> starts_with(shadow, entries[k].shadow_root),
        forall|i: int|
            0 <= i < k ==> !starts_with(shadow, (#[trigger] entries[i]).shadow_root),
    ensures
        owner(entries, shadow) == k,
    decreases entries.len(),
{
    if k > 0 {
        assert(!starts_with(shadow, entries[0].shadow_root));
        let rest = entries.drop_first();
        assert forall|i: int| 0 <= i < k - 1 implies !starts_with(
            shadow,
            (#[trigger] rest[i]).shadow_root,
        ) by {
            assert(rest[i] == entries[i + 1]);
        }
        lemma_owner(rest, shadow, k - 1);
    }
}

/// The first shadow root that a path begins with; where there is none, the path must not be
/// removed.
pub fn owning_root(config: &Config, shadow: &FsPath) -> (res: Option<FsPath>)
    ensures
        match res {
            Some(root) => root_of(config.entries(), shadow@) == Some(root@),
            None => root_of(config.entries(), shadow@) is None,
        },
{
    let ghost entries = config.entries();
    assert(entries.len() == config.filesystem@.len());
    let mut i: usize = 0;
    while i < config.filesystem.len()
        invariant
            entries == config.entries(),
            entries.len() == config.filesystem@.len(),
            i <= entries.len(),
            forall|j: int|
                0 <= j < i ==> !starts_with(shadow@, (#[trigger] entries[j]).shadow_root),
        decreases entries.len() - i,
    {
        assert(entries[i as int] == config.filesystem@[i as int]@);
        if shadow.starts_with(&config.filesystem[i].shadow_root) {
            proof {
                lemma_owner(entries, shadow@, i as int);
                assert(starts_with(shadow@, entries[i as int].shadow_root));
            }
            return Some(config.filesystem[i].shadow_root.clone());
        }
        i = i + 1;
    }
    None
}

/// The directories above `p` that lie below `root`, the innermost first.
pub open spec fn between(p: Seq<u8>, root: Seq<u8>) -> Seq<Seq<u8>>
    decreases components(p).len(),
{
    match parent(p) {
        None => seq![],
        Some(dir) => {
            proof {
                lemma_parent(p);
            }
            if same_path(dir, root) || !starts_with(dir, root) {
                seq![]
            } else {
                seq![dir] + between(dir, root)
            }
        },
    }
}

/// The parent directories between `shadow` (exclusive) and `shadow_root` (exclusive), in the order
/// in which they are removed as far as they are empty.
pub fn cleanup_empty_parents(shadow: &FsPath, shadow_root: &FsPath) -> (res: Vec<FsPath>)
    ensures
        res.deep_view() == between(shadow@, shadow_root@),
{
    let mut out: Vec<FsPath> = Vec::new();
    let mut current = shadow.parent();
    let ghost mut below = shadow@;
    let ghost all = between(shadow@, shadow_root@);
    assert(out.deep_view() + all =~= all);
    loop
        invariant
            all == between(shadow@, shadow_root@),
            out.deep_view() + between(below, shadow_root@) == all,
            match current {
                Some(dir) => parent(below) == Some(dir@),
                None => parent(below) is None,
            },
        ensures
            out.deep_view() == all,
        decreases components(below).len(),
    {
        match current {
            None => {
                assert(out.deep_view() + seq![] =~= out.deep_view());
                break;
            },
            Some(dir) => {
                if dir.same(shadow_root) || !dir.starts_with(shadow_root) {
                    assert(out.deep_view() + seq![] =~= out.deep_view());
                    break;
                }
                let ghost before = out.deep_view();
                let ghost place = dir@;
                proof {
                    lemma_parent(below);
                    assert(between(below, shadow_root@) == seq![place] + between(
                        place,
                        shadow_root@,
                    ));
                }
                current = dir.parent();
                out.push(dir);
                proof {
                    assert(out.deep_view() =~= before.push(place));
                    assert(before.push(place) + between(place, shadow_root@) =~= before + (
                    seq![place] + between(place, shadow_root@)));
                    below = place;
                }
            },
        }
    }
    out
}

/// The end of a shadow: what is to be removed, and what is known of it before.
#[derive(Debug)]
pub struct Job {
    /// The confirmation is skipped.
    pub yes: bool,
    /// The shadow lies under a known shadow root.
    pub owned: bool,
    pub shadow: FsPath,
    pub source: FsPath,
    /// The directories between the shadow and its root, the innermost first.
    pub parents: Vec<FsPath>,
}

/// The contents of a [`Job`].
pub struct JobView {
    pub yes: bool,
    pub owned: bool,
    pub shadow: Seq<u8>,
    pub source: Seq<u8>,
    pub parents: Seq<Seq<u8>>,
}

impl View for Job {
    type V = JobView;

    open spec fn view(&self) -> JobView {
        JobView {
            yes: self.yes,
            owned: self.owned,
            shadow: self.shadow@,
            source: self.source@,
            parents: self.parents.deep_view(),
        }
    }
}

/// The end of the shadow of `source`, given the known shadow roots.
pub open spec fn planned(
    entries: Seq<EntryView>,
    shadow: Seq<u8>,
    source: Seq<u8>,
    yes: bool,
) -> JobView {
    JobView {
        yes,
        owned: is_owned(entries, shadow),
        shadow,
        source,
        parents: match root_of(entries, shadow) {
            Some(root) => between(shadow, root),
            None => seq![],
        },
    }
}

/// The end of the shadow of `source`, given the known shadow roots.
pub fn plan(config: &Config, shadow: &FsPath, source: &FsPath, yes: bool) -> (res: Job)
    ensures
        res@ == planned(config.entries(), shadow@, source@, yes),
{
    match owning_root(config, shadow) {
        Some(root) => Job {
            yes,
            owned: true,
            shadow: shadow.clone(),
            source: source.clone(),
            parents: cleanup_empty_parents(shadow, &root),
        },
        None => {
            let parents: Vec<FsPath> = Vec::new();
            assert(parents.deep_view() =~= seq![]);
            Job { yes, owned: false, shadow: shadow.clone(), source: source.clone(), parents }
        },
    }
}

/// The directory between a shadow and its root that is to be removed, if it is empty.
pub open spec fn prunes(job: JobView, k: usize) -> ActionView {
    if k < job.parents.len() {
        ActionView::RemoveEmpty(job.parents[k as int])
    } else {
        ActionView::Nothing
    }
}

/// The directory between a shadow and its root that is to be removed, if it is empty.
pub fn prune(job: &Job, k: usize) -> (res: Action)
    ensures
        res@ == prunes(job@, k),
{
    assert(job.parents.deep_view().len() == job.parents@.len());
    if k < job.parents.len() {
        assert(job.parents.deep_view()[k as int] == job.parents@[k as int]@);
        Action::RemoveEmpty(job.parents[k].clone())
    } else {
        Action::Nothing
    }
}

/// Whether an answer, trimmed and in lower case, is a yes.
pub open spec fn is_yes(answer: Seq<char>) -> bool {
    answer == "y"@ || answer == "yes"@
}

/// Whether an answer, trimmed and in lower case, is a yes.
pub fn affirms(answer: &str) -> (res: bool)
    ensures
        res == is_yes(answer@),
{
    same_text(answer, "y") || same_text(answer, "yes")
}

/// Whether an answer that was typed confirms.
pub fn confirmed(input: &str) -> (res: bool)
    ensures
        res == is_yes(lowercase(trimmed(input@))),
        is_ascii_chars(trimmed(input@)) ==> res == is_yes(
            trimmed(input@).map_values(|c: char| ascii_lowercase(c)),
        ),
{
    affirms(text_lowercase(trim(input).as_str()).as_str())
}

/// The search for the files in a shadow.
pub open spec fn files_in(dir: Seq<u8>) -> (Seq<char>, Seq<Seq<char>>) {
    ("find"@, seq![shown(dir), "-type"@, "f"@])
}

/// The search for the files in a shadow.
pub fn file_query(dir: &FsPath) -> (res: Invocation)
    ensures
        res@ == files_in(dir@),
{
    Invocation::new("find").arg(dir.display().as_str()).arg("-type").arg("f")
}

/// How many files were found, given what the search printed.
pub fn count_files(stdout: &[u8]) -> (res: usize)
    ensures
        res == lines(shown(stdout@)).len(),
{
    let table = lines_of(text_lossy(stdout).as_str());
    assert(table.deep_view().len() == table@.len());
    table.len()
}

/// What is said of a shadow that must not be removed.
pub open spec fn not_owned_words(shadow: Seq<u8>) -> Seq<char> {
    "BUG: shadow path "@ + shown(shadow)
        + " is not under any known shadow root. Refusing to rm -rf."@
}

/// What is said of a shadow that must not be removed.
pub fn not_owned_message(shadow: &FsPath) -> (res: String)
    ensures
        res@ == not_owned_words(shadow@),
{
    let mut out = "BUG: shadow path ".to_owned();
    out.append(shadow.display().as_str());
    out.append(" is not under any known shadow root. Refusing to rm -rf.");
    out
}

/// What is said of a shadow that could not be removed.
pub open spec fn not_removed_words(shadow: Seq<u8>) -> Seq<char> {
    "Failed to remove shadow directory "@ + shown(shadow)
}

/// What is said of a shadow that could not be removed.
pub fn not_removed_message(shadow: &FsPath) -> (res: String)
    ensures
        res@ == not_removed_words(shadow@),
{
    "Failed to remove shadow directory ".to_owned().concat(shadow.display().as_str())
}

/// What is removed besides a shadow lies above it, and strictly below its root.
pub proof fn pruned_lies_between(shadow: Seq<u8>, root: Seq<u8>, k: int)
    requires
        0 <= k < between(shadow, root).len(),
    ensures
        starts_with(shadow, between(shadow, root)[k]),
        starts_with(between(shadow, root)[k], root),
        components(root).len() < components(between(shadow, root)[k]).len() < components(
            shadow,
        ).len(),
    decreases components(shadow).len(),
{
    lemma_parent(shadow);
    let dir = parent(shadow)->0;
    assert(starts_with(shadow, dir));
    assert(components(dir).len() > components(root).len()) by {
        if components(dir).len() <= components(root).len() {
            assert(components(dir) =~= components(root));
        }
    }
    if k == 0 {
        assert(between(shadow, root)[0] == dir);
    } else {
        pruned_lies_between(dir, root, k - 1);
        let place = between(dir, root)[k - 1];
        assert(between(shadow, root)[k] == place);
        lemma_starts_with_transitive(shadow, dir, place);
    }
}

/// Whatever is to be removed lies under a known shadow root: the shadow itself, and what lies above
/// it but strictly below the root.
pub proof fn plan_stays_under_root(
    entries: Seq<EntryView>,
    shadow: Seq<u8>,
    source: Seq<u8>,
    yes: bool,
)
    ensures
        ({
            let job = planned(entries, shadow, source, yes);
            &&& job.owned ==> root_of(entries, shadow) is Some && starts_with(
                shadow,
                root_of(entries, shadow)->0,
            )
            &&& job.parents.len() > 0 ==> job.owned
            &&& forall|k: int|
                0 <= k < job.parents.len() ==> {
                    let dir = #[trigger] job.parents[k];
                    let root = root_of(entries, shadow)->0;
                    starts_with(dir, root) && starts_with(shadow, dir) && components(root).len()
                        < components(dir).len() < components(shadow).len()
                }
        }),
{
    let job = planned(entries, shadow, source, yes);
    if is_owned(entries, shadow) {
        lemma_owner_is_first(entries, shadow);
        let root = root_of(entries, shadow)->0;
        assert forall|k: int| 0 <= k < job.parents.len() implies {
            let dir = #[trigger] job.parents[k];
            starts_with(dir, root) && starts_with(shadow, dir) && components(root).len()
                < components(dir).len() < components(shadow).len()
        } by {
            pruned_lies_between(shadow, root, k);
        }
    }
}

proof fn lemma_owner_is_first(entries: Seq<EntryView>, shadow: Seq<u8>)
    requires
        is_owned(entries, shadow),
    ensures
        0 <= owner(entries, shadow) < entries.len(),
        starts_with(shadow, entries[owner(entries, shadow)].shadow_root),
    decreases entries.len(),
{
    if !starts_with(shadow, entries[0].shadow_root) {
        let i = choose|i: int|
            0 <= i < entries.len() && starts_with(shadow, (#[trigger] entries[i]).shadow_root);
        let rest = entries.drop_first();
        assert(rest[i - 1] == entries[i]);
        lemma_owner_is_first(rest, shadow);
    }
}

/// What the directories between a path and a root are, one step up.
proof fn lemma_between_step(p: Seq<u8>, root: Seq<u8>)
    requires
        starts_with(p, root),
        components(root).len() < components(p).len(),
    ensures
        components(p).len() == components(root).len() + 1 ==> between(p, root).len() == 0,
        components(p).len() > components(root).len() + 1 ==> {
            &&& parent(p) is Some
            &&& components(parent(p)->0) == components(p).drop_last()
            &&& starts_with(parent(p)->0, root)
            &&& between(p, root) == seq![parent(p)->0] + between(parent(p)->0, root)
        },
{
    lemma_parent(p);
    lemma_root_comes_first(p);
    if parent(p) is Some {
        let dir = parent(p)->0;
        if components(p).len() == components(root).len() + 1 {
            assert(components(dir) =~= components(root));
        } else {
            assert(components(root) =~= components(dir).take(components(root).len() as int));
        }
    }
}

proof fn lemma_take_of_front<T>(s: Seq<T>, k: int)
    requires
        0 <= k < s.len(),
    ensures
        s.drop_last().take(k) == s.take(k),
{
    assert(s.drop_last().take(k) =~= s.take(k));
}

/// Every directory between a shadow and its root is among those that are removed as far as they are
/// empty, and each of them comes before the one that it lies in.
pub proof fn pruned_is_all_between(shadow: Seq<u8>, root: Seq<u8>)
    requires
        starts_with(shadow, root),
        components(root).len() < components(shadow).len(),
    ensures
        between(shadow, root).len() == components(shadow).len() - components(root).len() - 1,
        forall|k: int|
            0 <= k < between(shadow, root).len() ==> components(#[trigger] between(shadow, root)[k])
                == components(shadow).take(components(shadow).len() - 1 - k),
    decreases components(shadow).len(),
{
    lemma_between_step(shadow, root);
    if components(shadow).len() > components(root).len() + 1 {
        let dir = parent(shadow)->0;
        pruned_is_all_between(dir, root);
        let n = components(shadow).len() as int;
        let all = between(shadow, root);
        let rest = between(dir, root);
        assert forall|k: int| 0 <= k < all.len() implies components(#[trigger] all[k])
            == components(shadow).take(n - 1 - k) by {
            if k > 0 {
                assert(all[k] == rest[k - 1]);
                lemma_take_of_front(components(shadow), n - 1 - k);
            }
        }
    }
}

/// The root is a component only where it is the first one.
proof fn lemma_root_comes_first(p: Seq<u8>)
    ensures
        components(p).len() > 1 ==> components(p).last() != seq![SLASH],
{
    lemma_body_pieces(p);
    if components(p).len() > 1 {
        let last = body(p).last();
        assert(components(p).last() == last);
        assert(seq![SLASH].contains(seq![SLASH][0]));
    }
}

/// A shadow belongs to the first shadow root that it begins with, component by component; it belongs
/// to none where it begins with none.
pub proof fn first_root_owns(entries: Seq<EntryView>, shadow: Seq<u8>, i: int)
    requires
        0 <= i <= entries.len(),
        i < entries.len() ==> components(entries[i].shadow_root).is_prefix_of(components(shadow)),
        forall|j: int|
            0 <= j < i ==> !components((#[trigger] entries[j]).shadow_root).is_prefix_of(
                components(shadow),
            ),
    ensures
        i < entries.len() ==> is_owned(entries, shadow) && root_of(entries, shadow) == Some(
            entries[i].shadow_root,
        ),
        i == entries.len() ==> !is_owned(entries, shadow) && root_of(entries, shadow) is None,
{
    assert forall|j: int| 0 <= j < entries.len() implies starts_with(
        shadow,
        (#[trigger] entries[j]).shadow_root,
    ) == components(entries[j].shadow_root).is_prefix_of(components(shadow)) by {
        let root = entries[j].shadow_root;
        paths_go_by_components(shadow, root);
        if starts_with(shadow, root) {
            assert(components(root) =~= components(shadow).subrange(
                0,
                components(root).len() as int,
            ));
        } else if components(root).is_prefix_of(components(shadow)) {
            assert forall|m: int| 0 <= m < components(root).len() implies components(shadow)[m]
                == #[trigger] components(root)[m] by {
                assert(components(shadow).subrange(0, components(root).len() as int)[m]
                    == components(shadow)[m]);
            }
        }
    }
    lemma_owner(entries, shadow, i);
    if i < entries.len() {
        assert(starts_with(shadow, entries[i].shadow_root));
    }
}

/// A plan holds what it was made from: the shadow, its source, the consent; it says whether the shadow
/// is owned, and without an owner prunes nothing.
pub proof fn plan_holds_what_was_asked(
    entries: Seq<EntryView>,
    shadow: Seq<u8>,
    source: Seq<u8>,
    yes: bool,
    k: usize,
)
    ensures
        planned(entries, shadow, source, yes).shadow == shadow,
        planned(entries, shadow, source, yes).source == source,
        planned(entries, shadow, source, yes).yes == yes,
        planned(entries, shadow, source, yes).owned <==> root_of(entries, shadow) is Some,
        root_of(entries, shadow) is None ==> planned(entries, shadow, source, yes).parents.len()
            == 0,
        root_of(entries, shadow) matches Some(root) ==> planned(
            entries,
            shadow,
            source,
            yes,
        ).parents == between(shadow, root),
        k < planned(entries, shadow, source, yes).parents.len() ==> prunes(
            planned(entries, shadow, source, yes),
            k,
        ) == ActionView::RemoveEmpty(planned(entries, shadow, source, yes).parents[k as int]),
        k >= planned(entries, shadow, source, yes).parents.len() ==> prunes(
            planned(entries, shadow, source, yes),
            k,
        ) == ActionView::Nothing,
{
}

/// Only a `y` or a `yes`, in capitals or not and with blanks around it or not, confirms.
pub proof fn only_a_yes_confirms(input: &str, res: bool)
    requires
        call_ensures(confirmed, (input,), res),
    ensures
        is_ascii_chars(trimmed(input@)) ==> (res <==> {
            let s = trimmed(input@);
            ||| s.len() == 1 && (s[0] == 'y' || s[0] == 'Y')
            ||| s.len() == 3 && (s[0] == 'y' || s[0] == 'Y') && (s[1] == 'e' || s[1] == 'E') && (
            s[2] == 's' || s[2] == 'S')
        }),
{
    reveal_strlit("y");
    reveal_strlit("yes");
    let s = trimmed(input@);
    let small = s.map_values(|c: char| ascii_lowercase(c));
    if is_ascii_chars(s) {
        if s.len() == 1 && (s[0] == 'y' || s[0] == 'Y') {
            assert(small =~= "y"@);
        }
        if s.len() == 3 && (s[0] == 'y' || s[0] == 'Y') && (s[1] == 'e' || s[1] == 'E') && (s[2]
            == 's' || s[2] == 'S') {
            assert(small =~= "yes"@);
        }
        if is_yes(small) {
            assert(small.len() == s.len());
            assert(small[0] == ascii_lowercase(s[0]));
            if s.len() == 3 {
                assert(small[1] == ascii_lowercase(s[1]));
                assert(small[2] == ascii_lowercase(s[2]));
            }
        }
    }
}

/// The files of a shadow are looked for in it, and what is said of a shadow that stays names it.
pub proof fn removal_is_told(shadow: Seq<u8>, stdout: &[u8], count: usize)
    requires
        call_ensures(count_files, (stdout,), count),
    ensures
        files_in(shadow) == ("find"@, seq![shown(shadow), "-type"@, "f"@]),
        count == lines(shown(stdout@)).len(),
        not_owned_words(shadow) == "BUG: shadow path "@ + shown(shadow)
            + " is not under any known shadow root. Refusing to rm -rf."@,
        not_removed_words(shadow) == "Failed to remove shadow directory "@ + shown(shadow),
{
}

} // verus!
