//! Which filesystem a directory is on, and where its shadows live.
use crate::config::{in_dir, Config, EntryView, FilesystemEntry};
use crate::path::{
    absolute, absolute_begins_with_a_slash, components, joined, paths_go_by_components, same_path,
    starts_with, FsPath,
};
use crate::text::{
    chars_of, decimal, decimal_text, is_blank, lemma_encoding_len, lines, lines_of, shown, text_of,
    trim, trimmed, trimming_takes_the_blanks, white_space, words, words_of,
    words_stand_between_blanks,
};
use vstd::prelude::*;
use vstd::utf8::encode_utf8;

verus! {

// ---------------------------------------------------------------------------------------------
// The mount table
// ---------------------------------------------------------------------------------------------

/// Whether `c` is an octal digit.
pub open spec fn is_octal(c: char) -> bool {
    '0' <= c <= '7'
}

/// Whether `s` begins with a backslash and the three octal digits of a byte.
pub open spec fn begins_escape(s: Seq<char>) -> bool {
    &&& s.len() >= 4
    &&& s[0] == '\\'
    &&& is_octal(s[1]) && is_octal(s[2]) && is_octal(s[3])
    &&& s[1] <= '3'
}

/// The character whose code the escape at the start of `s` gives.
pub open spec fn escaped(s: Seq<char>) -> char {
    ((s[1] as u32 - '0' as u32) * 64 + (s[2] as u32 - '0' as u32) * 8 + (s[3] as u32 - '0' as u32))
        as char
}

/// `s` with each octal escape replaced by the character that it stands for.
pub open spec fn unescaped(s: Seq<char>) -> Seq<char>
    decreases s.len(),
{
    if s.len() == 0 {
        seq![]
    } else if begins_escape(s) {
        seq![escaped(s)] + unescaped(s.skip(4))
    } else {
        seq![s[0]] + unescaped(s.skip(1))
    }
}

fn octal_digit(c: char) -> (res: bool)
    ensures
        res == is_octal(c),
{
    '0' <= c && c <= '7'
}

fn octal_value(a: char, b: char, c: char) -> (res: char)
    requires
        is_octal(a) && is_octal(b) && is_octal(c),
        a <= '3',
    ensures
        res == escaped(seq!['\\', a, b, c]),
{
    let high: u32 = a as u32 - '0' as u32;
    let middle: u32 = b as u32 - '0' as u32;
    let low: u32 = c as u32 - '0' as u32;
    let code: u8 = (high * 64 + middle * 8 + low) as u8;
    code as char
}

/// Unescape octal sequences in mount points of the mount table (`\040` is a space). A backslash
/// that three octal digits of a byte do not follow stays as it is.
pub fn unescape_mount_path(s: &str) -> (res: String)
    ensures
        res@ == unescaped(s@),
{
    let chars = chars_of(s);
    let mut out = String::new();
    let mut i: usize = 0;
    assert(chars@.skip(0) =~= chars@);
    assert(out@ + unescaped(chars@) =~= unescaped(chars@));
    while i < chars.len()
        invariant
            chars@ == s@,
            i <= chars@.len(),
            out@ + unescaped(chars@.skip(i as int)) == unescaped(s@),
        decreases chars@.len() - i,
    {
        let ghost rest = chars@.skip(i as int);
        let ghost before = out@;
        if chars.len() - i >= 4 && chars[i] == '\\' && octal_digit(chars[i + 1]) && octal_digit(
            chars[i + 2],
        ) && octal_digit(chars[i + 3]) && chars[i + 1] <= '3' {
            out.push(octal_value(chars[i + 1], chars[i + 2], chars[i + 3]));
            assert(begins_escape(rest));
            assert(rest.skip(4) =~= chars@.skip(i + 4));
            assert(before + unescaped(rest) =~= out@ + unescaped(chars@.skip(i + 4)));
            i = i + 4;
        } else {
            out.push(chars[i]);
            assert(!begins_escape(rest));
            assert(rest.skip(1) =~= chars@.skip(i + 1));
            assert(before + unescaped(rest) =~= out@ + unescaped(chars@.skip(i + 1)));
            i = i + 1;
        }
    }
    assert(chars@.skip(i as int) =~= seq![]);
    assert(out@ + unescaped(chars@.skip(i as int)) =~= out@);
    out
}

/// The mount point that a line of the mount table names: its second word, unescaped.
pub open spec fn mount_of(line: Seq<char>) -> Option<Seq<u8>> {
    if words(line).len() < 2 {
        None
    } else {
        Some(encode_utf8(unescaped(words(line)[1])))
    }
}

/// Whether line `i` of the table names a mount point that `path` lies under.
pub open spec fn covers(path: Seq<u8>, table: Seq<Seq<char>>, i: int) -> bool {
    &&& 0 <= i < table.len()
    &&& mount_of(table[i]) is Some
    &&& mount_of(table[i])->0.len() > 0
    &&& starts_with(path, mount_of(table[i])->0)
}

/// Whether some line of the table names a mount point that `path` lies under.
pub open spec fn is_covered(path: Seq<u8>, table: Seq<Seq<char>>) -> bool {
    exists|i: int| covers(path, table, i)
}

/// Whether line `i` names the longest of the mount points that `path` lies under, and is the first
/// to do so.
pub open spec fn covers_best(path: Seq<u8>, table: Seq<Seq<char>>, i: int) -> bool {
    &&& covers(path, table, i)
    &&& forall|j: int| #[trigger]
        covers(path, table, j) ==> {
            &&& mount_of(table[j])->0.len() <= mount_of(table[i])->0.len()
            &&& j < i ==> mount_of(table[j])->0.len() < mount_of(table[i])->0.len()
        }
}

/// The mount point named by one line of the mount table.
fn mount_on_line(line: &Vec<char>) -> (res: Option<FsPath>)
    ensures
        match res {
            Some(mount) => mount_of(line@) == Some(mount@),
            None => mount_of(line@) is None,
        },
{
    let fields = words_of(line);
    assert(fields.deep_view().len() == fields@.len());
    if fields.len() < 2 {
        return None;
    }
    let field = text_of(&fields[1], 0, fields[1].len());
    proof {
        assert(fields.deep_view()[1] =~= fields@[1]@);
        assert(field@ =~= fields@[1]@);
    }
    let name = unescape_mount_path(field.as_str());
    Some(FsPath::from_text(name.as_str()))
}

/// Find the mount point of a path, with links resolved, in the text of the mount table.
pub fn find_mount_point(path: &FsPath, mounts: &str) -> (res: Option<FsPath>)
    ensures
        match res {
            Some(mount) => exists|i: int| #[trigger]
                covers_best(path@, lines(mounts@), i) && mount_of(lines(mounts@)[i]) == Some(
                    mount@,
                ),
            None => forall|i: int| !covers(path@, lines(mounts@), i),
        },
        res is Some <==> is_covered(path@, lines(mounts@)),
{
    let table = lines_of(mounts);
    let ghost rows = lines(mounts@);
    assert(table.deep_view().len() == table@.len());
    let mut best: Option<FsPath> = None;
    let mut best_len: usize = 0;
    let ghost mut best_at: int = 0;
    let mut i: usize = 0;
    while i < table.len()
        invariant
            table.deep_view() == rows,
            table@.len() == rows.len(),
            i <= rows.len(),
            match best {
                Some(mount) => {
                    &&& 0 <= best_at < i
                    &&& covers(path@, rows, best_at)
                    &&& mount_of(rows[best_at]) == Some(mount@)
                    &&& best_len == mount@.len()
                    &&& forall|j: int| #[trigger]
                        covers(path@, rows, j) && j < i ==> {
                            &&& mount_of(rows[j])->0.len() <= best_len
                            &&& j < best_at ==> mount_of(rows[j])->0.len() < best_len
                        }
                },
                None => best_len == 0 && forall|j: int|
                    j < i ==> !(#[trigger] covers(path@, rows, j)),
            },
        decreases table@.len() - i,
    {
        assert(table.deep_view()[i as int] =~= table@[i as int]@);
        if let Some(mount) = mount_on_line(&table[i]) {
            if path.starts_with(&mount) {
                let len: usize = mount.bytes.len();
                if len > best_len {
                    assert(covers(path@, rows, i as int));
                    best_len = len;
                    best = Some(mount);
                    proof {
                        best_at = i as int;
                    }
                }
            }
        }
        i = i + 1;
    }
    proof {
        if best is Some {
            assert forall|j: int| #[trigger] covers(path@, rows, j) implies {
                &&& mount_of(rows[j])->0.len() <= mount_of(rows[best_at])->0.len()
                &&& j < best_at ==> mount_of(rows[j])->0.len() < mount_of(rows[best_at])->0.len()
            } by {
                assert(j < i);
            }
            assert(covers_best(path@, rows, best_at));
        } else {
            assert forall|j: int| !covers(path@, rows, j) by {
                if covers(path@, rows, j) {
                    assert(j < i);
                }
            }
        }
    }
    best
}

/// What is said where no mount point is found.
pub fn no_mount_message(path: &FsPath) -> (res: String)
    ensures
        res@ == "Could not determine mount point for "@ + shown(path@),
{
    "Could not determine mount point for ".to_owned().concat(path.display().as_str())
}

/// The mount point of a path is the only one that the table can give: no two lines are both the
/// best.
pub proof fn mount_point_is_unique(path: Seq<u8>, table: Seq<Seq<char>>, i: int, j: int)
    requires
        covers_best(path, table, i),
        covers_best(path, table, j),
    ensures
        i == j,
{
    assert(covers(path, table, i) && covers(path, table, j));
}

/// The octal digit of this value.
pub open spec fn octal_char(n: int) -> char {
    (48 + n) as char
}

/// A character as the mount table escapes it: a backslash and three octal digits.
pub open spec fn escape_of(c: char) -> Seq<char> {
    let n = c as u32 as int;
    seq!['\\', octal_char(n / 64), octal_char(n / 8 % 8), octal_char(n % 8)]
}

/// A name as a mount table writes it that escapes these characters.
pub open spec fn table_name(s: Seq<char>, escapes: spec_fn(char) -> bool) -> Seq<char>
    decreases s.len(),
{
    if s.len() == 0 {
        seq![]
    } else {
        (if escapes(s[0]) {
            escape_of(s[0])
        } else {
            seq![s[0]]
        }) + table_name(s.drop_first(), escapes)
    }
}

proof fn lemma_escape_of(c: char, rest: Seq<char>)
    requires
        (c as u32) < 256,
    ensures
        begins_escape(escape_of(c) + rest),
        escaped(escape_of(c) + rest) == c,
{
    let n = c as u32 as int;
    let whole = escape_of(c) + rest;
    assert(whole[0] == '\\' && whole[1] == octal_char(n / 64) && whole[2] == octal_char(
        n / 8 % 8,
    ) && whole[3] == octal_char(n % 8));
    assert(n == n / 64 * 64 + n / 8 % 8 * 8 + n % 8);
}

/// Unescaping undoes what the mount table did to a name, whichever characters it escapes: the
/// backslash is among them, and each of them is of one byte in Latin-1.
pub proof fn unescaping_undoes_escaping(s: Seq<char>, escapes: spec_fn(char) -> bool)
    requires
        escapes('\\'),
        forall|c: char| #[trigger] escapes(c) ==> (c as u32) < 256,
    ensures
        unescaped(table_name(s, escapes)) == s,
    decreases s.len(),
{
    if s.len() > 0 {
        let rest = table_name(s.drop_first(), escapes);
        let whole = table_name(s, escapes);
        unescaping_undoes_escaping(s.drop_first(), escapes);
        if escapes(s[0]) {
            lemma_escape_of(s[0], rest);
            assert(whole.skip(4) =~= rest);
        } else {
            assert(whole[0] == s[0]);
            assert(whole.skip(1) =~= rest);
        }
        assert(unescaped(whole) =~= seq![s[0]] + s.drop_first());
        assert(seq![s[0]] + s.drop_first() =~= s);
    }
}

/// A name without a backslash stands for itself.
pub proof fn plain_name_is_kept(s: Seq<char>)
    requires
        !s.contains('\\'),
    ensures
        unescaped(s) == s,
    decreases s.len(),
{
    if s.len() > 0 {
        assert(s.contains(s[0]));
        assert(!s.skip(1).contains('\\')) by {
            if s.skip(1).contains('\\') {
                let i = choose|i: int| 0 <= i < s.skip(1).len() && s.skip(1)[i] == '\\';
                assert(s[i + 1] == '\\');
            }
        }
        plain_name_is_kept(s.skip(1));
        assert(seq![s[0]] + s.skip(1) =~= s);
    } else {
        assert(s =~= seq![]);
    }
}

// ---------------------------------------------------------------------------------------------
// The shadow root of a filesystem
// ---------------------------------------------------------------------------------------------

/// What the configuration knows of a filesystem.
#[derive(Debug)]
pub enum RootLookup {
    /// Its shadows live here.
    Known(FsPath),
    /// Another device was mounted there before.
    DeviceChanged(u64),
    /// It is new.
    Unknown,
}

/// The contents of a [`RootLookup`].
pub enum RootLookupView {
    Known(Seq<u8>),
    DeviceChanged(u64),
    Unknown,
}

impl View for RootLookup {
    type V = RootLookupView;

    open spec fn view(&self) -> RootLookupView {
        match self {
            RootLookup::Known(root) => RootLookupView::Known(root@),
            RootLookup::DeviceChanged(was) => RootLookupView::DeviceChanged(*was),
            RootLookup::Unknown => RootLookupView::Unknown,
        }
    }
}

/// The place of the first entry for `mount`, or `entries.len()` where there is none.
pub open spec fn entry_for(entries: Seq<EntryView>, mount: Seq<u8>) -> int
    decreases entries.len(),
{
    if entries.len() == 0 || same_path(entries[0].mount_point, mount) {
        0
    } else {
        1 + entry_for(entries.drop_first(), mount)
    }
}

/// What the entries know of the filesystem with this mount point and device.
pub open spec fn lookup(entries: Seq<EntryView>, mount: Seq<u8>, device_id: u64) -> RootLookupView {
    let i = entry_for(entries, mount);
    if i >= entries.len() {
        RootLookupView::Unknown
    } else if entries[i].device_id != device_id {
        RootLookupView::DeviceChanged(entries[i].device_id)
    } else {
        RootLookupView::Known(entries[i].shadow_root)
    }
}

/// The entries once `root` is the shadow root of the filesystem with this mount point and device.
pub open spec fn adopted(
    entries: Seq<EntryView>,
    mount: Seq<u8>,
    device_id: u64,
    root: Seq<u8>,
) -> Seq<EntryView> {
    let i = entry_for(entries, mount);
    if i >= entries.len() {
        entries.push(EntryView { mount_point: mount, device_id, shadow_root: root })
    } else {
        entries.update(
            i,
            EntryView { mount_point: entries[i].mount_point, device_id, shadow_root: root },
        )
    }
}

/// `entry_for` gives the first entry.
pub proof fn lemma_entry_for(entries: Seq<EntryView>, mount: Seq<u8>)
    ensures
        0 <= entry_for(entries, mount) <= entries.len(),
        entry_for(entries, mount) < entries.len() ==> same_path(
            entries[entry_for(entries, mount)].mount_point,
            mount,
        ),
        forall|j: int|
            0 <= j < entry_for(entries, mount) ==> !same_path(
                #[trigger] entries[j].mount_point,
                mount,
            ),
    decreases entries.len(),
{
    if entries.len() > 0 && !same_path(entries[0].mount_point, mount) {
        lemma_entry_for(entries.drop_first(), mount);
        assert forall|j: int| 0 <= j < entry_for(entries, mount) implies !same_path(
            #[trigger] entries[j].mount_point,
            mount,
        ) by {
            if j > 0 {
                assert(entries[j] == entries.drop_first()[j - 1]);
            }
        }
    }
}

fn find_entry(config: &Config, mount_point: &FsPath) -> (res: usize)
    ensures
        res == entry_for(config.entries(), mount_point@),
{
    let ghost entries = config.entries();
    assert(entries.len() == config.filesystem@.len());
    let mut i: usize = 0;
    proof {
        lemma_entry_for(entries, mount_point@);
    }
    while i < config.filesystem.len()
        invariant
            entries == config.entries(),
            entries.len() == config.filesystem@.len(),
            i <= entries.len(),
            forall|j: int| 0 <= j < i ==> !same_path(#[trigger] entries[j].mount_point, mount_point@),
        decreases entries.len() - i,
    {
        assert(entries[i as int] == config.filesystem@[i as int]@);
        if config.filesystem[i].mount_point.same(mount_point) {
            proof {
                lemma_entry_for(entries, mount_point@);
                assert(same_path(entries[i as int].mount_point, mount_point@));
            }
            return i;
        }
        i = i + 1;
    }
    i
}

/// Look up the shadow root for the filesystem with this mount point and device.
pub fn resolve_shadow_root(config: &Config, mount_point: &FsPath, device_id: u64) -> (res:
    RootLookup)
    ensures
        res@ == lookup(config.entries(), mount_point@, device_id),
{
    let i = find_entry(config, mount_point);
    assert(config.entries().len() == config.filesystem@.len());
    if i >= config.filesystem.len() {
        return RootLookup::Unknown;
    }
    assert(config.entries()[i as int] == config.filesystem@[i as int]@);
    if config.filesystem[i].device_id != device_id {
        RootLookup::DeviceChanged(config.filesystem[i].device_id)
    } else {
        RootLookup::Known(config.filesystem[i].shadow_root.clone())
    }
}

/// Make `shadow_root` the shadow root of the filesystem with this mount point and device: its entry
/// is changed, or one is added at the end.
pub fn adopt_shadow_root(
    config: &mut Config,
    mount_point: &FsPath,
    device_id: u64,
    shadow_root: &FsPath,
)
    ensures
        final(config).entries() == adopted(
            old(config).entries(),
            mount_point@,
            device_id,
            shadow_root@,
        ),
        final(config).agent == old(config).agent,
        final(config).shell == old(config).shell,
{
    let i = find_entry(config, mount_point);
    let ghost before = config.entries();
    assert(before.len() == config.filesystem@.len());
    if i >= config.filesystem.len() {
        config.filesystem.push(
            FilesystemEntry {
                mount_point: mount_point.clone(),
                device_id,
                shadow_root: shadow_root.clone(),
            },
        );
        assert(config.entries() =~= adopted(before, mount_point@, device_id, shadow_root@));
    } else {
        assert(before[i as int] == config.filesystem@[i as int]@);
        let entry = FilesystemEntry {
            mount_point: config.filesystem[i].mount_point.clone(),
            device_id,
            shadow_root: shadow_root.clone(),
        };
        config.filesystem.set(i, entry);
        assert(config.entries() =~= adopted(before, mount_point@, device_id, shadow_root@));
    }
}

/// What is said where another device is mounted than before.
pub open spec fn warning_words(mount: Seq<u8>, was: u64, now: u64) -> Seq<char> {
    "Warning: The device behind "@ + shown(mount) + " has changed (was "@ + decimal(was as nat)
        + ", now "@ + decimal(now as nat) + "). The shadow root may need updating."@
}

/// What is said where another device is mounted than before.
pub fn device_warning(mount_point: &FsPath, was: u64, now: u64) -> (res: String)
    ensures
        res@ == warning_words(mount_point@, was, now),
{
    let mut out = "Warning: The device behind ".to_owned();
    out.append(mount_point.display().as_str());
    out.append(" has changed (was ");
    out.append(decimal_text(was).as_str());
    out.append(", now ");
    out.append(decimal_text(now).as_str());
    out.append("). The shadow root may need updating.");
    out
}

/// Where the shadows of a filesystem live unless the user says otherwise.
pub open spec fn default_root(mount: Seq<u8>) -> Seq<u8> {
    in_dir(mount, ".cc-sandbox"@)
}

/// The question where the shadows of a new filesystem should live.
pub open spec fn question_words(mount: Seq<u8>) -> Seq<char> {
    "Source is on filesystem mounted at "@ + shown(mount) + ". Where should shadows live? ["@
        + shown(default_root(mount)) + "]: "@
}

/// The question where the shadows of a new filesystem should live.
pub fn shadow_root_question(mount_point: &FsPath) -> (res: String)
    ensures
        res@ == question_words(mount_point@),
{
    let mut out = "Source is on filesystem mounted at ".to_owned();
    out.append(mount_point.display().as_str());
    out.append(". Where should shadows live? [");
    out.append(mount_point.join_name(".cc-sandbox").display().as_str());
    out.append("]: ");
    out
}

/// What an answer to that question means: the default where nothing was typed, else an absolute path.
/// A path that is not absolute is no answer.
pub open spec fn answered(mount: Seq<u8>, input: Seq<char>) -> Result<Seq<u8>, Seq<u8>> {
    let typed = encode_utf8(trimmed(input));
    if trimmed(input).len() == 0 {
        Ok(default_root(mount))
    } else if absolute(typed) {
        Ok(typed)
    } else {
        Err(typed)
    }
}

/// The answer to that question: an absolute path, the default where nothing was typed, and an
/// error, with what was said, where the path is not absolute.
pub fn prompt_shadow_root(mount_point: &FsPath, input: &str) -> (res: Result<FsPath, FsPath>)
    ensures
        match res {
            Ok(root) => answered(mount_point@, input@) == Ok::<Seq<u8>, Seq<u8>>(root@),
            Err(given) => answered(mount_point@, input@) == Err::<Seq<u8>, Seq<u8>>(given@),
        },
{
    let typed = trim(input);
    if typed.as_str().is_empty() {
        return Ok(mount_point.join_name(".cc-sandbox"));
    }
    let path = FsPath::from_text(typed.as_str());
    if path.is_absolute() {
        Ok(path)
    } else {
        Err(path)
    }
}

/// What is said where the shadow root is not an absolute path.
pub open spec fn relative_words(given: Seq<u8>) -> Seq<char> {
    "Shadow root must be an absolute path, got: "@ + shown(given)
}

/// What is said where the shadow root is not an absolute path.
pub fn relative_root_message(given: &FsPath) -> (res: String)
    ensures
        res@ == relative_words(given@),
{
    "Shadow root must be an absolute path, got: ".to_owned().concat(given.display().as_str())
}

/// The user is asked once: a root that was adopted is known from then on, as long as the device
/// stays the same.
pub proof fn adopted_root_is_known(
    entries: Seq<EntryView>,
    mount: Seq<u8>,
    device_id: u64,
    root: Seq<u8>,
)
    ensures
        lookup(adopted(entries, mount, device_id, root), mount, device_id)
            == RootLookupView::Known(root),
{
    let after = adopted(entries, mount, device_id, root);
    lemma_entry_for(entries, mount);
    lemma_entry_for(after, mount);
    let i = entry_for(entries, mount);
    let k = entry_for(after, mount);
    assert(same_path(after[i].mount_point, mount));
    if k < i {
        assert(after[k].mount_point == entries[k].mount_point);
    }
    assert(k == i);
}

/// Adopting a root leaves what is known of every other filesystem as it was.
pub proof fn adopting_leaves_others(
    entries: Seq<EntryView>,
    mount: Seq<u8>,
    device_id: u64,
    root: Seq<u8>,
    other: Seq<u8>,
    other_device: u64,
)
    requires
        !same_path(mount, other),
    ensures
        lookup(adopted(entries, mount, device_id, root), other, other_device) == lookup(
            entries,
            other,
            other_device,
        ),
{
    let after = adopted(entries, mount, device_id, root);
    lemma_entry_for(entries, mount);
    lemma_entry_for(entries, other);
    lemma_entry_for(after, other);
    let i = entry_for(entries, mount);
    let k = entry_for(entries, other);
    let m = entry_for(after, other);
    assert(forall|j: int|
        0 <= j < entries.len() ==> (#[trigger] after[j]).mount_point == entries[j].mount_point);
    if k < entries.len() {
        assert(same_path(after[k].mount_point, other));
        if m < k {
            assert(after[m].mount_point == entries[m].mount_point);
        }
        assert(m == k);
    } else if m < entries.len() {
        assert(after[m].mount_point == entries[m].mount_point);
    } else if m < after.len() {
        assert(after[m].mount_point == mount);
    }
}

// ---------------------------------------------------------------------------------------------
// What the mount table says
// ---------------------------------------------------------------------------------------------

/// A line names a mount point exactly where it has a second word; that word alone, with its escapes
/// undone, is the mount point, whatever else stands on the line.
pub proof fn second_word_is_the_mount(line: Seq<char>, other: Seq<char>)
    ensures
        mount_of(line) is Some <==> words(line).len() >= 2,
        words(line).len() >= 2 ==> mount_of(line)->0 == encode_utf8(unescaped(words(line)[1])),
        words(line).len() >= 2 && words(other).len() >= 2 && words(line)[1] == words(other)[1]
            ==> mount_of(line) == mount_of(other),
{
}

proof fn lemma_table_name(s: Seq<char>, escapes: spec_fn(char) -> bool)
    requires
        forall|c: char| #[trigger] escapes(c) ==> (c as u32) < 256,
        forall|i: int| 0 <= i < s.len() && white_space(#[trigger] s[i]) ==> escapes(s[i]),
    ensures
        table_name(s, escapes).len() >= s.len(),
        forall|i: int|
            0 <= i < table_name(s, escapes).len() ==> !white_space(
                #[trigger] table_name(s, escapes)[i],
            ),
    decreases s.len(),
{
    if s.len() > 0 {
        let rest = s.drop_first();
        assert forall|i: int| 0 <= i < rest.len() && white_space(#[trigger] rest[i]) implies escapes(
            rest[i],
        ) by {
            assert(rest[i] == s[i + 1]);
        }
        lemma_table_name(rest, escapes);
        let whole = table_name(s, escapes);
        let first = if escapes(s[0]) {
            escape_of(s[0])
        } else {
            seq![s[0]]
        };
        let n = s[0] as u32 as int;
        assert forall|i: int| 0 <= i < whole.len() implies !white_space(#[trigger] whole[i]) by {
            if i < first.len() {
                assert(whole[i] == first[i]);
            } else {
                assert(whole[i] == table_name(rest, escapes)[i - first.len()]);
            }
        }
    }
}

/// The mount point that is read from a line is the one that was written there: behind the device and
/// a blank stands the name with its whitespace and backslashes escaped, and whatever follows does not
/// change it.
pub proof fn mount_is_read_as_it_was_written(
    device: Seq<char>,
    name: Seq<char>,
    escapes: spec_fn(char) -> bool,
    rest: Seq<char>,
)
    requires
        device.len() > 0,
        forall|i: int| 0 <= i < device.len() ==> !white_space(#[trigger] device[i]),
        name.len() > 0,
        escapes('\\'),
        forall|c: char| #[trigger] escapes(c) ==> (c as u32) < 256,
        forall|i: int| 0 <= i < name.len() && white_space(#[trigger] name[i]) ==> escapes(name[i]),
    ensures
        mount_of(device + seq![' '] + (table_name(name, escapes) + seq![' '] + rest)) == Some(
            encode_utf8(name),
        ),
        mount_of(device + seq![' '] + table_name(name, escapes)) == Some(encode_utf8(name)),
{
    let word = table_name(name, escapes);
    lemma_table_name(name, escapes);
    unescaping_undoes_escaping(name, escapes);
    words_stand_between_blanks(word, ' ', rest);
    words_stand_between_blanks(device, ' ', word + seq![' '] + rest);
    words_stand_between_blanks(device, ' ', word);
    assert((seq![device] + words(word + seq![' '] + rest))[1] == word);
    assert((seq![device] + words(word))[1] == word);
}

/// Unescaping takes a text from its start: a character that is no backslash stands for itself; a
/// backslash and three octal digits of a byte stand for the character of that number; any other
/// backslash stands for itself.
pub proof fn escapes_are_octal(c: char, digits: Seq<char>, rest: Seq<char>)
    requires
        digits.len() == 3,
    ensures
        unescaped(Seq::<char>::empty()) == Seq::<char>::empty(),
        c != '\\' ==> unescaped(seq![c] + rest) == seq![c] + unescaped(rest),
        '0' <= digits[0] <= '3' && '0' <= digits[1] <= '7' && '0' <= digits[2] <= '7' ==> unescaped(
            seq!['\\'] + digits + rest,
        ) == seq![
            ((digits[0] as int - 48) * 64 + (digits[1] as int - 48) * 8 + (digits[2] as int - 48)) as char,
        ] + unescaped(rest),
        !('0' <= digits[0] <= '3' && '0' <= digits[1] <= '7' && '0' <= digits[2] <= '7')
            ==> unescaped(seq!['\\'] + digits + rest) == seq!['\\'] + unescaped(digits + rest),
        rest.len() < 3 ==> unescaped(seq!['\\'] + rest) == seq!['\\'] + unescaped(rest),
{
    assert((seq![c] + rest).skip(1) =~= rest);
    assert((seq!['\\'] + rest).skip(1) =~= rest);
    let whole = seq!['\\'] + digits + rest;
    assert(whole.skip(4) =~= rest);
    assert(whole.skip(1) =~= digits + rest);
    assert(whole[1] == digits[0] && whole[2] == digits[1] && whole[3] == digits[2]);
}

/// The mount point of a path is a start of it, component by component; no other line with such a mount
/// point has a longer one, nor an earlier line one as long.
pub proof fn mount_point_is_the_longest(path: Seq<u8>, table: Seq<Seq<char>>, i: int, j: int)
    requires
        covers_best(path, table, i),
        0 <= j < table.len(),
        words(table[j]).len() >= 2,
    ensures
        0 <= i < table.len(),
        words(table[i]).len() >= 2,
        ({
            let best = encode_utf8(unescaped(words(table[i])[1]));
            let other = encode_utf8(unescaped(words(table[j])[1]));
            &&& best.len() > 0
            &&& components(best).is_prefix_of(components(path))
            &&& other.len() > 0 && components(other).is_prefix_of(components(path)) ==> other.len()
                <= best.len() && (j < i ==> other.len() < best.len())
        }),
{
    let best = encode_utf8(unescaped(words(table[i])[1]));
    let other = encode_utf8(unescaped(words(table[j])[1]));
    paths_go_by_components(path, best);
    paths_go_by_components(path, other);
    if components(other).is_prefix_of(components(path)) {
        assert forall|m: int| 0 <= m < components(other).len() implies components(path)[m]
            == #[trigger] components(other)[m] by {
            assert(components(path).subrange(0, components(other).len() as int)[m]
                == components(path)[m]);
        }
        if other.len() > 0 {
            assert(covers(path, table, j));
        }
    }
    assert(components(best) =~= components(path).subrange(0, components(best).len() as int));
}

/// A path has no mount point only where no line names one that it begins with.
pub proof fn some_line_covers_or_none(path: Seq<u8>, table: Seq<Seq<char>>, j: int)
    requires
        forall|i: int| !covers(path, table, i),
        0 <= j < table.len(),
        words(table[j]).len() >= 2,
        encode_utf8(unescaped(words(table[j])[1])).len() > 0,
    ensures
        !components(encode_utf8(unescaped(words(table[j])[1]))).is_prefix_of(components(path)),
{
    let other = encode_utf8(unescaped(words(table[j])[1]));
    paths_go_by_components(path, other);
    assert(!covers(path, table, j));
    if components(other).is_prefix_of(components(path)) {
        assert forall|m: int| 0 <= m < components(other).len() implies components(path)[m]
            == #[trigger] components(other)[m] by {
            assert(components(path).subrange(0, components(other).len() as int)[m]
                == components(path)[m]);
        }
    }
}

// ---------------------------------------------------------------------------------------------
// What the entries say
// ---------------------------------------------------------------------------------------------

/// The first entry whose mount point is the same path tells: with the same device its shadow root,
/// with another device which one it was. Where no entry has that mount point nothing is known.
pub proof fn first_entry_tells(entries: Seq<EntryView>, mount: Seq<u8>, device_id: u64, i: int)
    requires
        0 <= i <= entries.len(),
        i < entries.len() ==> components(entries[i].mount_point) == components(mount),
        forall|j: int|
            0 <= j < i ==> components(#[trigger] entries[j].mount_point) != components(mount),
    ensures
        i < entries.len() && entries[i].device_id == device_id ==> lookup(entries, mount, device_id)
            == RootLookupView::Known(entries[i].shadow_root),
        i < entries.len() && entries[i].device_id != device_id ==> lookup(entries, mount, device_id)
            == RootLookupView::DeviceChanged(entries[i].device_id),
        i == entries.len() ==> lookup(entries, mount, device_id) == RootLookupView::Unknown,
{
    lemma_entry_for(entries, mount);
    let k = entry_for(entries, mount);
    if i < k {
        assert(!same_path(entries[i].mount_point, mount));
    }
    if k < i {
        assert(components(entries[k].mount_point) != components(mount));
    }
}

/// Adopting a root changes the first entry with that mount point in its device and its root, or adds
/// an entry at the end where there is none; every other entry stays as it is.
pub proof fn adopting_changes_one_entry(
    entries: Seq<EntryView>,
    mount: Seq<u8>,
    device_id: u64,
    root: Seq<u8>,
    i: int,
)
    requires
        0 <= i <= entries.len(),
        i < entries.len() ==> components(entries[i].mount_point) == components(mount),
        forall|j: int|
            0 <= j < i ==> components(#[trigger] entries[j].mount_point) != components(mount),
    ensures
        ({
            let after = adopted(entries, mount, device_id, root);
            &&& after.len() == if i < entries.len() {
                entries.len()
            } else {
                entries.len() + 1
            }
            &&& after[i].device_id == device_id
            &&& after[i].shadow_root == root
            &&& after[i].mount_point == if i < entries.len() {
                entries[i].mount_point
            } else {
                mount
            }
            &&& forall|j: int| 0 <= j < entries.len() && j != i ==> #[trigger] after[j] == entries[j]
        }),
{
    lemma_entry_for(entries, mount);
    let k = entry_for(entries, mount);
    if i < k {
        assert(!same_path(entries[i].mount_point, mount));
    }
    if k < i {
        assert(components(entries[k].mount_point) != components(mount));
    }
}

/// What was typed is the root, without the blanks around it, where it begins with a slash; where
/// nothing but blanks was typed the root is `.cc-sandbox` within the mount point; anything else is
/// refused, and told as it was typed.
pub proof fn answers_name_absolute_roots(
    mount: Seq<u8>,
    before: Seq<char>,
    typed: Seq<char>,
    behind: Seq<char>,
)
    requires
        is_blank(before),
        is_blank(behind),
        typed.len() > 0 ==> !white_space(typed[0]) && !white_space(typed.last()),
    ensures
        default_root(mount) == joined(mount, encode_utf8(".cc-sandbox"@)),
        typed.len() == 0 ==> answered(mount, before + typed + behind) == Ok::<Seq<u8>, Seq<u8>>(
            joined(mount, encode_utf8(".cc-sandbox"@)),
        ),
        typed.len() > 0 && encode_utf8(typed)[0] == 47u8 ==> answered(
            mount,
            before + typed + behind,
        ) == Ok::<Seq<u8>, Seq<u8>>(encode_utf8(typed)),
        typed.len() > 0 && encode_utf8(typed)[0] != 47u8 ==> answered(
            mount,
            before + typed + behind,
        ) == Err::<Seq<u8>, Seq<u8>>(encode_utf8(typed)),
{
    trimming_takes_the_blanks(before, typed, behind);
    lemma_encoding_len(typed);
    absolute_begins_with_a_slash(encode_utf8(typed));
}

/// What is said and asked of a filesystem names its mount point, and the devices or the default root.
pub proof fn filesystem_is_told(mount: Seq<u8>, was: u64, now: u64)
    ensures
        warning_words(mount, was, now) == "Warning: The device behind "@ + shown(mount)
            + " has changed (was "@ + decimal(was as nat) + ", now "@ + decimal(now as nat)
            + "). The shadow root may need updating."@,
        question_words(mount) == "Source is on filesystem mounted at "@ + shown(mount)
            + ". Where should shadows live? ["@ + shown(joined(mount, encode_utf8(".cc-sandbox"@)))
            + "]: "@,
        relative_words(mount) == "Shadow root must be an absolute path, got: "@ + shown(mount),
{
}

/// The mount point of a path is named by a line of the table, and is the longest that the path begins
/// with; a path has none only where no line names one that it begins with.
pub proof fn mount_point_is_found(
    path: &FsPath,
    mounts: &str,
    res: Option<FsPath>,
    line: Seq<char>,
    message: String,
)
    requires
        call_ensures(find_mount_point, (path, mounts), res),
        call_ensures(no_mount_message, (path,), message),
        lines(mounts@).contains(line),
        words(line).len() >= 2,
        encode_utf8(unescaped(words(line)[1])).len() > 0,
        components(encode_utf8(unescaped(words(line)[1]))).is_prefix_of(components(path@)),
    ensures
        res matches Some(mount) && mount@.len() >= encode_utf8(unescaped(words(line)[1])).len()
            && components(mount@).is_prefix_of(components(path@)) && exists|i: int|
            0 <= i < lines(mounts@).len() && words(#[trigger] lines(mounts@)[i]).len() >= 2 && mount@
                == encode_utf8(unescaped(words(lines(mounts@)[i])[1])),
        message@ == "Could not determine mount point for "@ + shown(path@),
{
    let table = lines(mounts@);
    let j = table.index_of(line);
    assert(table[j] == line);
    if res is None {
        assert(!is_covered(path@, table));
        some_line_covers_or_none(path@, table, j);
    } else {
        let i = choose|i: int| #[trigger]
            covers_best(path@, table, i) && mount_of(table[i]) == Some(res->0@);
        mount_point_is_the_longest(path@, table, i, j);
        assert(words(table[i]).len() >= 2);
    }
}

} // verus!
