//! Shadows: where they are put, how they are made, found, compared and cleaned up after.
use crate::config::{in_dir, meta_filename, meta_name};
use crate::moment::{is_reading, read_clock, rfc3339, stamp_at, stamp_is_one_name, stamp_shape, Moment};
use crate::path::{
    absolute, body, components, file_name, head, joined, lemma_body_concat, lemma_body_of_name,
    lemma_body_pieces, lemma_components_nonempty, lemma_components_small, lemma_joined,
    lemma_joined_name, lemma_no_head, lemma_parent, lemma_spans, lemma_stripped, parent,
    parent_or_empty, same_path, spans, starts_with, stripped, trivial, FsPath, DOT, SLASH,
};
use crate::sequences::{find, lemma_find, lemma_find_is};
use crate::text::{
    decimal, decimal_text, lemma_ascii_in_encoding, lemma_encoding_concat, lines, lines_of, shown,
    starts_with as text_starts_with, text_lossy,
};
use crate::tool::Invocation;
use vstd::prelude::*;
use vstd::utf8::{
    decode_utf8_encode_utf8, encode_utf8, encode_utf8_decode_utf8, is_ascii_chars,
    is_ascii_chars_encode_utf8, valid_utf8,
};

verus! {

// ---------------------------------------------------------------------------------------------
// The place of a shadow
// ---------------------------------------------------------------------------------------------

/// What a shadow records of itself.
#[derive(Debug)]
pub struct ShadowMeta {
    pub source: FsPath,
    pub created_at: Moment,
    pub name_suffix: String,
}

/// The contents of a [`ShadowMeta`].
pub struct MetaView {
    pub source: Seq<u8>,
    pub created_at: Moment,
    pub name_suffix: Seq<char>,
}

impl View for ShadowMeta {
    type V = MetaView;

    open spec fn view(&self) -> MetaView {
        MetaView {
            source: self.source@,
            created_at: self.created_at,
            name_suffix: self.name_suffix@,
        }
    }
}

impl Clone for ShadowMeta {
    fn clone(&self) -> (res: Self)
        ensures
            res@ == self@,
    {
        ShadowMeta {
            source: self.source.clone(),
            created_at: self.created_at,
            name_suffix: self.name_suffix.as_str().to_owned(),
        }
    }
}

/// Why a source has no place for a shadow.
#[derive(Clone, Copy, Debug, PartialEq, Eq, Structural)]
pub enum ShadowPathError {
    /// It does not lie under the mount point.
    NotUnderMount,
    /// It is the root of the filesystem.
    FilesystemRoot,
    /// Its last component is not a name.
    NoName,
    /// The clock shows a moment without a date.
    NoDate,
}

/// The name of the shadow of a directory called `leaf`.
pub open spec fn shadow_leaf(leaf: Seq<u8>, suffix: Seq<char>) -> Seq<char> {
    shown(leaf) + "-"@ + suffix
}

/// Where the shadow of `source` goes: under the shadow root as the source lies under the mount
/// point, with the suffix after its name.
pub open spec fn shadow_place(
    shadow_root: Seq<u8>,
    mount_point: Seq<u8>,
    source: Seq<u8>,
    suffix: Seq<char>,
) -> Result<Seq<u8>, ShadowPathError> {
    match stripped(source, mount_point) {
        None => Err(ShadowPathError::NotUnderMount),
        Some(relative) => {
            if relative.len() == 0 {
                Err(ShadowPathError::FilesystemRoot)
            } else {
                match file_name(relative) {
                    None => Err(ShadowPathError::NoName),
                    Some(leaf) => Ok(
                        in_dir(
                            joined(shadow_root, parent_or_empty(relative)),
                            shadow_leaf(leaf, suffix),
                        ),
                    ),
                }
            }
        },
    }
}

/// Whether the last component of `place` is the source's name and the suffix.
pub open spec fn named_after(place: Seq<u8>, source: Seq<u8>, suffix: Seq<char>) -> bool {
    &&& file_name(source) is Some
    &&& file_name(place) == Some(encode_utf8(shadow_leaf(file_name(source)->0, suffix)))
}

/// The place of the shadow has these bytes for its last name.
proof fn lemma_leaf_bytes(leaf: Seq<u8>, leaf_text: Seq<char>, suffix: Seq<char>)
    requires
        !leaf_text.contains('/'),
    ensures
        ({
            let bytes = encode_utf8(leaf_text + "-"@ + suffix);
            &&& !absolute(bytes)
            &&& !trivial(bytes)
            &&& bytes != seq![DOT, DOT]
            &&& !suffix.contains('/') ==> !bytes.contains(SLASH)
        }),
{
    reveal_strlit("-");
    let text = leaf_text + "-"@ + suffix;
    let bytes = encode_utf8(text);
    let at = leaf_text.len() as int;
    assert(text[at] == '-');
    assert(text.contains('-'));
    lemma_ascii_in_encoding(text, '-');
    lemma_ascii_in_encoding(text, '/');
    assert(text[0] != '/') by {
        if leaf_text.len() > 0 {
            assert(text[0] == leaf_text[0]);
            assert(leaf_text.contains(leaf_text[0]));
        }
    }
    let i = choose|i: int| 0 <= i < bytes.len() && bytes[i] == '-' as u8;
    if trivial(bytes) {
        assert(bytes == seq![DOT]);
        assert(bytes[0] == DOT);
    }
    if bytes == seq![DOT, DOT] {
        assert(bytes[0] == DOT && bytes[1] == DOT);
    }
    if !suffix.contains('/') && text.contains('/') {
        let k = choose|k: int| 0 <= k < text.len() && text[k] == '/';
        if k < at {
            assert(leaf_text[k] == '/');
        } else if k > at {
            assert(suffix[k - at - 1] == '/');
        }
    }
}

/// What stands first in a path under the mount point stands first in its parent too.
proof fn lemma_relative_parent(relative: Seq<u8>)
    requires
        !absolute(relative),
    ensures
        !absolute(parent_or_empty(relative)),
{
    lemma_spans(relative);
    if parent(relative) is Some && components(relative).len() > 1 {
        let dir = parent(relative)->0;
        let n = components(relative).len();
        assert(spans(relative)[n - 2].1 > 0);
        assert(dir[0] == relative[0]);
    }
}

/// The place of the shadow of `source`, given the suffix of its name. It lies under the shadow
/// root, and a suffix without a slash makes its last component the source's name and the suffix.
pub fn shadow_path_with(
    shadow_root: &FsPath,
    mount_point: &FsPath,
    source: &FsPath,
    suffix: &str,
) -> (res: Result<FsPath, ShadowPathError>)
    ensures
        match res {
            Ok(path) => shadow_place(shadow_root@, mount_point@, source@, suffix@) == Ok::<
                Seq<u8>,
                ShadowPathError,
            >(path@),
            Err(e) => shadow_place(shadow_root@, mount_point@, source@, suffix@) == Err::<
                Seq<u8>,
                ShadowPathError,
            >(e),
        },
        res matches Ok(place) ==> (shadow_root@.len() > 0 && mount_point@.len() > 0 ==> {
            &&& starts_with(place@, shadow_root@)
            &&& !suffix@.contains('/') ==> named_after(place@, source@, suffix@)
        }),
{
    let relative = match source.strip_prefix(mount_point) {
        None => {
            return Err(ShadowPathError::NotUnderMount);
        },
        Some(relative) => relative,
    };
    if relative.is_empty() {
        return Err(ShadowPathError::FilesystemRoot);
    }
    let leaf = match relative.file_name() {
        None => {
            return Err(ShadowPathError::NoName);
        },
        Some(leaf) => leaf,
    };
    let dir = relative.parent_or_empty();
    let leaf_text = leaf.display();
    let ghost shown_leaf = leaf_text@;
    let name = leaf_text.concat("-").concat(suffix);
    let base = shadow_root.join(&dir);
    let res = base.join_name(name.as_str());
    proof {
        if shadow_root@.len() > 0 && mount_point@.len() > 0 {
            lemma_components_nonempty(mount_point@);
            lemma_stripped(source@, mount_point@);
            let k = components(mount_point@).len() as int;
            lemma_body_pieces(relative@);
            assert(components(relative@).last() == components(source@).last());
            assert(!leaf@.contains(SLASH));
            assert(!shown_leaf.contains('/'));
            lemma_leaf_bytes(leaf@, shown_leaf, suffix@);
            lemma_relative_parent(relative@);
            lemma_joined(shadow_root@, dir@);
            assert(base@.len() > 0);
            let bytes = encode_utf8(name@);
            lemma_joined(base@, bytes);
            let whole = components(res@);
            let middle = components(base@);
            let root = components(shadow_root@);
            assert(whole.take(middle.len() as int).take(root.len() as int) =~= whole.take(
                root.len() as int,
            ));
            if !suffix@.contains('/') {
                lemma_joined_name(base@, bytes);
            }
        }
    }
    Ok(res)
}

/// Where the shadow of `source` goes that is made at `now`: the suffix is the name that was given, or
/// the time. A moment without a date gives a shadow without a name no place.
pub open spec fn place_at(
    shadow_root: Seq<u8>,
    mount_point: Seq<u8>,
    source: Seq<u8>,
    name: Option<Seq<char>>,
    now: Moment,
) -> Result<Seq<u8>, ShadowPathError> {
    match name {
        Some(suffix) => shadow_place(shadow_root, mount_point, source, suffix),
        None => if now.dated() {
            shadow_place(
                shadow_root,
                mount_point,
                source,
                rfc3339(now.secs, now.nanos, now.offset_secs),
            )
        } else {
            match shadow_place(shadow_root, mount_point, source, seq![]) {
                Ok(_) => Err(ShadowPathError::NoDate),
                Err(e) => Err(e),
            }
        },
    }
}

/// The name that was given, as text.
pub open spec fn name_of(name: Option<&str>) -> Option<Seq<char>> {
    match name {
        Some(text) => Some(text@),
        None => None,
    }
}

/// What stands in a result.
pub open spec fn result_of(res: Result<FsPath, ShadowPathError>) -> Result<
    Seq<u8>,
    ShadowPathError,
> {
    match res {
        Ok(place) => Ok(place@),
        Err(e) => Err(e),
    }
}

/// The place of the shadow of `source` that is made at `now`.
pub fn shadow_path_for(
    shadow_root: &FsPath,
    mount_point: &FsPath,
    source: &FsPath,
    name: Option<&str>,
    now: Moment,
) -> (res: Result<FsPath, ShadowPathError>)
    requires
        now.valid(),
    ensures
        result_of(res) == place_at(shadow_root@, mount_point@, source@, name_of(name), now),
{
    match name {
        Some(suffix) => shadow_path_with(shadow_root, mount_point, source, suffix),
        None => shadow_path_at(shadow_root, mount_point, source, now),
    }
}

/// The place of the shadow of `source` that is made at `now` without a name: its suffix is the time as
/// RFC 3339 writes it. A moment without a date gives it no place.
pub fn shadow_path_at(
    shadow_root: &FsPath,
    mount_point: &FsPath,
    source: &FsPath,
    now: Moment,
) -> (res: Result<FsPath, ShadowPathError>)
    requires
        now.valid(),
    ensures
        now.dated() ==> match res {
            Ok(path) => shadow_place(
                shadow_root@,
                mount_point@,
                source@,
                rfc3339(now.secs, now.nanos, now.offset_secs),
            ) == Ok::<Seq<u8>, ShadowPathError>(path@),
            Err(e) => shadow_place(
                shadow_root@,
                mount_point@,
                source@,
                rfc3339(now.secs, now.nanos, now.offset_secs),
            ) == Err::<Seq<u8>, ShadowPathError>(e),
        },
        !now.dated() ==> (res matches Err(e) && match shadow_place(
            shadow_root@,
            mount_point@,
            source@,
            seq![],
        ) {
            Ok(_) => e == ShadowPathError::NoDate,
            Err(other) => e == other,
        }),
        res matches Ok(place) ==> (shadow_root@.len() > 0 && mount_point@.len() > 0 ==> {
            &&& starts_with(place@, shadow_root@)
            &&& named_after(place@, source@, rfc3339(now.secs, now.nanos, now.offset_secs))
        }),
{
    match stamp_at(now) {
        Some(stamp) => {
            proof {
                stamp_is_one_name(stamp@);
            }
            shadow_path_with(shadow_root, mount_point, source, stamp.as_str())
        },
        None => {
            proof {
                reveal_strlit("");
                assert(""@ =~= seq![]);
            }
            match shadow_path_with(shadow_root, mount_point, source, "") {
                Ok(_) => Err(ShadowPathError::NoDate),
                Err(e) => Err(e),
            }
        },
    }
}

/// Compute the shadow directory path for a given source. Without a name the suffix is the time, as
/// RFC 3339 writes it, that the clock shows.
pub fn compute_shadow_path(
    shadow_root: &FsPath,
    mount_point: &FsPath,
    source: &FsPath,
    name: Option<&str>,
) -> (res: Result<FsPath, ShadowPathError>)
    ensures
        exists|now: Moment| #[trigger]
            now.valid() && result_of(res) == place_at(
                shadow_root@,
                mount_point@,
                source@,
                name_of(name),
                now,
            ),
        name is None ==> exists|now: Moment| #[trigger]
            is_reading(now) && result_of(res) == place_at(
                shadow_root@,
                mount_point@,
                source@,
                None,
                now,
            ),
        name matches Some(suffix) ==> match res {
            Ok(path) => shadow_place(shadow_root@, mount_point@, source@, suffix@) == Ok::<
                Seq<u8>,
                ShadowPathError,
            >(path@),
            Err(e) => shadow_place(shadow_root@, mount_point@, source@, suffix@) == Err::<
                Seq<u8>,
                ShadowPathError,
            >(e),
        },
        name is None ==> match res {
            Ok(path) => exists|now: Moment| #[trigger]
                now.valid() && now.dated() && shadow_place(
                    shadow_root@,
                    mount_point@,
                    source@,
                    rfc3339(now.secs, now.nanos, now.offset_secs),
                ) == Ok::<Seq<u8>, ShadowPathError>(path@) && (shadow_root@.len() > 0
                    && mount_point@.len() > 0 ==> named_after(
                    path@,
                    source@,
                    rfc3339(now.secs, now.nanos, now.offset_secs),
                )),
            Err(ShadowPathError::NoDate) => shadow_place(
                shadow_root@,
                mount_point@,
                source@,
                seq![],
            ) is Ok,
            Err(e) => shadow_place(shadow_root@, mount_point@, source@, seq![]) == Err::<
                Seq<u8>,
                ShadowPathError,
            >(e),
        },
        res matches Ok(place) ==> (shadow_root@.len() > 0 && mount_point@.len() > 0 ==> {
            &&& starts_with(place@, shadow_root@)
            &&& name matches Some(suffix) ==> (!suffix@.contains('/') ==> named_after(
                place@,
                source@,
                suffix@,
            ))
        }),
{
    match name {
        Some(suffix) => {
            assert((Moment { secs: 0, nanos: 0, offset_secs: 0 }).valid());
            shadow_path_with(shadow_root, mount_point, source, suffix)
        },
        None => {
            let now = read_clock();
            assert(now.valid() && is_reading(now));
            shadow_path_at(shadow_root, mount_point, source, now)
        },
    }
}

/// What the suffix adds to the source's name: all before the first slash.
spec fn suffix_name(suffix: Seq<char>) -> Seq<char> {
    suffix.take(find(suffix, '/') as int)
}

/// The components that the suffix adds after the name.
spec fn suffix_rest(suffix: Seq<char>) -> Seq<Seq<u8>> {
    let i = find(suffix, '/') as int;
    if i < suffix.len() {
        body(encode_utf8(suffix.skip(i + 1)))
    } else {
        seq![]
    }
}

/// The components of what the name and the suffix make.
proof fn lemma_leaf_components(leaf: Seq<u8>, leaf_text: Seq<char>, suffix: Seq<char>)
    requires
        !leaf_text.contains('/'),
    ensures
        ({
            let bytes = encode_utf8(leaf_text + "-"@ + suffix);
            let name = encode_utf8(leaf_text + "-"@ + suffix_name(suffix));
            &&& !absolute(bytes)
            &&& body(bytes) == seq![name] + suffix_rest(suffix)
            &&& components(bytes) == body(bytes)
        }),
{
    let i = find(suffix, '/') as int;
    let first = suffix_name(suffix);
    let bytes = encode_utf8(leaf_text + "-"@ + suffix);
    let name = encode_utf8(leaf_text + "-"@ + first);
    lemma_find(suffix, '/');
    assert(!first.contains('/')) by {
        if first.contains('/') {
            let j = first.index_of('/');
            assert(suffix[j] == '/');
        }
    }
    lemma_leaf_bytes(leaf, leaf_text, suffix);
    lemma_leaf_bytes(leaf, leaf_text, first);
    lemma_body_of_name(name);
    if i < suffix.len() {
        let rest = suffix.skip(i + 1);
        assert(leaf_text + "-"@ + suffix =~= (leaf_text + "-"@ + first) + (seq!['/'] + rest));
        lemma_encoding_concat(leaf_text + "-"@ + first, seq!['/'] + rest);
        lemma_encoding_concat(seq!['/'], rest);
        assert(is_ascii_chars(seq!['/']));
        is_ascii_chars_encode_utf8(seq!['/']);
        assert(seq!['/'][0] == '/');
        assert(encode_utf8(seq!['/']) =~= seq![SLASH]);
        assert(bytes =~= name + seq![SLASH] + encode_utf8(rest));
        lemma_body_concat(name, encode_utf8(rest));
    } else {
        assert(first =~= suffix);
        assert(seq![name] + suffix_rest(suffix) =~= seq![name]);
    }
    assert(bytes.take(name.len() as int) =~= name);
    lemma_no_head(bytes, name.len() as int);
}

/// The components of the parent of a path without a head are all pieces of its body.
proof fn lemma_parent_body(relative: Seq<u8>)
    requires
        components(relative) == body(relative),
        file_name(relative) is Some,
    ensures
        components(parent_or_empty(relative)) == components(relative).drop_last(),
        body(parent_or_empty(relative)) == components(parent_or_empty(relative)),
        !absolute(parent_or_empty(relative)),
{
    lemma_parent(relative);
    lemma_body_pieces(relative);
    let dir = parent_or_empty(relative);
    if head(dir).len() > 0 {
        assert(components(dir)[0] == head(dir)[0]);
        assert(components(relative)[0] == head(dir)[0]);
        assert(seq![SLASH].contains(seq![SLASH][0]));
    }
    assert(components(dir) =~= body(dir));
}

/// The components of a shadow's place: those of its root, those of the source under the mount point,
/// with the suffix after the last of them.
proof fn lemma_place_components(
    shadow_root: Seq<u8>,
    mount_point: Seq<u8>,
    source: Seq<u8>,
    suffix: Seq<char>,
)
    requires
        mount_point.len() > 0,
        shadow_place(shadow_root, mount_point, source, suffix) is Ok,
        valid_utf8(components(source).last()),
    ensures
        ({
            let place = shadow_place(shadow_root, mount_point, source, suffix)->Ok_0;
            let below = components(source).skip(components(mount_point).len() as int);
            let leaf = components(source).last();
            &&& starts_with(source, mount_point)
            &&& below.len() > 0
            &&& components(place) == components(shadow_root) + below.drop_last() + (seq![
                encode_utf8(shown(leaf) + "-"@ + suffix_name(suffix)),
            ] + suffix_rest(suffix))
        }),
{
    lemma_components_nonempty(mount_point);
    lemma_stripped(source, mount_point);
    let relative = stripped(source, mount_point)->0;
    let below = components(source).skip(components(mount_point).len() as int);
    let leaf = components(relative).last();
    let dir = parent_or_empty(relative);
    let base = joined(shadow_root, dir);
    let bytes = encode_utf8(shadow_leaf(leaf, suffix));
    assert(leaf == components(source).last());
    lemma_body_pieces(relative);
    assert(!leaf.contains(SLASH));
    decode_utf8_encode_utf8(leaf);
    lemma_ascii_in_encoding(shown(leaf), '/');
    lemma_leaf_components(leaf, shown(leaf), suffix);
    lemma_parent_body(relative);
    lemma_components_small();
    if shadow_root.len() > 0 {
        lemma_joined(shadow_root, dir);
    } else {
        assert(base =~= dir);
        assert(shadow_root =~= seq![]);
        assert(components(shadow_root) + components(dir) =~= components(dir));
    }
    if base.len() > 0 {
        lemma_joined(base, bytes);
    } else {
        assert(joined(base, bytes) =~= bytes);
        assert(base =~= seq![]);
        assert(components(base) + components(bytes) =~= components(bytes));
    }
}

/// Different sources have different shadows: two sources on one filesystem that are not the same path
/// have no place in common, where they get the same suffix and their names are text. Names that are
/// no text can be shown alike.
pub proof fn sources_do_not_share_a_place(
    shadow_root: Seq<u8>,
    mount_point: Seq<u8>,
    source: Seq<u8>,
    other: Seq<u8>,
    suffix: Seq<char>,
)
    requires
        mount_point.len() > 0,
        shadow_place(shadow_root, mount_point, source, suffix) is Ok,
        shadow_place(shadow_root, mount_point, other, suffix) is Ok,
        valid_utf8(components(source).last()),
        valid_utf8(components(other).last()),
        !same_path(source, other),
    ensures
        !same_path(
            shadow_place(shadow_root, mount_point, source, suffix)->Ok_0,
            shadow_place(shadow_root, mount_point, other, suffix)->Ok_0,
        ),
{
    let a = shadow_place(shadow_root, mount_point, source, suffix)->Ok_0;
    let b = shadow_place(shadow_root, mount_point, other, suffix)->Ok_0;
    lemma_place_components(shadow_root, mount_point, source, suffix);
    lemma_place_components(shadow_root, mount_point, other, suffix);
    if same_path(a, b) {
        let k = components(mount_point).len() as int;
        let r = components(shadow_root).len() as int;
        let front_a = components(source).skip(k).drop_last();
        let front_b = components(other).skip(k).drop_last();
        let leaf_a = components(source).last();
        let leaf_b = components(other).last();
        let whole = components(a);
        let n = front_a.len() as int;
        let tail = suffix_rest(suffix).len() as int;
        assert(components(a).len() == r + front_a.len() + 1 + tail);
        assert(components(b).len() == r + front_b.len() + 1 + tail);
        assert(whole.subrange(r, r + n) =~= front_a);
        assert(whole.subrange(r, r + n) =~= front_b);
        let end = "-"@ + suffix_name(suffix);
        assert(whole[r + n] == encode_utf8(shown(leaf_a) + "-"@ + suffix_name(suffix)));
        assert(whole[r + n] == encode_utf8(shown(leaf_b) + "-"@ + suffix_name(suffix)));
        assert(shown(leaf_a) + "-"@ + suffix_name(suffix) =~= shown(leaf_a) + end);
        assert(shown(leaf_b) + "-"@ + suffix_name(suffix) =~= shown(leaf_b) + end);
        lemma_encoding_concat(shown(leaf_a), end);
        lemma_encoding_concat(shown(leaf_b), end);
        decode_utf8_encode_utf8(leaf_a);
        decode_utf8_encode_utf8(leaf_b);
        assert(leaf_a.len() == leaf_b.len());
        assert((leaf_a + encode_utf8(end)).take(leaf_a.len() as int) =~= leaf_a);
        assert((leaf_b + encode_utf8(end)).take(leaf_a.len() as int) =~= leaf_b);
        assert(components(source).skip(k) =~= front_a.push(leaf_a));
        assert(components(other).skip(k) =~= front_b.push(leaf_b));
        assert(components(source) =~= components(mount_point) + components(source).skip(k));
        assert(components(other) =~= components(mount_point) + components(other).skip(k));
    }
}

/// What is said where a source has no place for a shadow.
pub fn shadow_path_message(error: ShadowPathError, source: &FsPath, mount_point: &FsPath) -> (res:
    String)
    ensures
        res@ == match error {
            ShadowPathError::NotUnderMount => "Source "@ + shown(source@)
                + " is not under mount point "@ + shown(mount_point@),
            ShadowPathError::FilesystemRoot => "Cannot shadow the filesystem root "@ + shown(
                mount_point@,
            ) + ". Use a subdirectory."@,
            ShadowPathError::NoName => "Source path has no final component"@,
            ShadowPathError::NoDate => "The clock shows a time without a date"@,
        },
{
    match error {
        ShadowPathError::NotUnderMount => {
            let mut out = "Source ".to_owned();
            out.append(source.display().as_str());
            out.append(" is not under mount point ");
            out.append(mount_point.display().as_str());
            out
        },
        ShadowPathError::FilesystemRoot => {
            let mut out = "Cannot shadow the filesystem root ".to_owned();
            out.append(mount_point.display().as_str());
            out.append(". Use a subdirectory.");
            out
        },
        ShadowPathError::NoName => "Source path has no final component".to_owned(),
        ShadowPathError::NoDate => "The clock shows a time without a date".to_owned(),
    }
}

/// What a shadow of `source` records that was made at `created_at`: the name that was given, or the
/// time `now`. Nothing where that time has no date.
pub open spec fn recorded_at(
    source: Seq<u8>,
    name: Option<Seq<char>>,
    created_at: Moment,
    now: Moment,
) -> Option<MetaView> {
    match name {
        Some(suffix) => Some(MetaView { source, created_at, name_suffix: suffix }),
        None => if now.dated() {
            Some(
                MetaView {
                    source,
                    created_at,
                    name_suffix: rfc3339(now.secs, now.nanos, now.offset_secs),
                },
            )
        } else {
            None
        },
    }
}

/// What stands in a record, where there is one.
pub open spec fn record_of(meta: Option<ShadowMeta>) -> Option<MetaView> {
    match meta {
        Some(meta) => Some(meta@),
        None => None,
    }
}

/// What a shadow of `source` records that was made at `created_at`: the name that was given, or the
/// time `now`. Nothing where that time has no date.
pub fn meta_at(source: &FsPath, name: Option<&str>, created_at: Moment, now: Moment) -> (res: Option<
    ShadowMeta,
>)
    requires
        created_at.valid(),
        now.valid(),
    ensures
        record_of(res) == recorded_at(source@, name_of(name), created_at, now),
        res is Some <==> name is Some || now.dated(),
        res matches Some(meta) ==> meta@ == (MetaView {
            source: source@,
            created_at,
            name_suffix: match name {
                Some(suffix) => suffix@,
                None => rfc3339(now.secs, now.nanos, now.offset_secs),
            },
        }),
        name is None ==> (res matches Some(meta) ==> stamp_shape(meta@.name_suffix)),
{
    let name_suffix = match name {
        Some(suffix) => suffix.to_owned(),
        None => match stamp_at(now) {
            Some(stamp) => stamp,
            None => {
                return None;
            },
        },
    };
    Some(ShadowMeta { source: source.clone(), created_at, name_suffix })
}

/// What a new shadow of `source` records: the name that was given, or the time that the clock
/// shows, and when it was made. Nothing where that time has no date.
pub fn new_meta(source: &FsPath, name: Option<&str>) -> (res: Option<ShadowMeta>)
    ensures
        exists|created_at: Moment, now: Moment| #[trigger]
            created_at.valid() && #[trigger] now.valid() && record_of(res) == recorded_at(
                source@,
                name_of(name),
                created_at,
                now,
            ),
        exists|created_at: Moment, now: Moment| #[trigger]
            is_reading(created_at) && #[trigger] is_reading(now) && record_of(res) == recorded_at(
                source@,
                name_of(name),
                created_at,
                now,
            ),
        name is Some ==> res is Some,
        res matches Some(meta) ==> {
            &&& meta@.source == source@
            &&& meta@.created_at.valid()
            &&& match name {
                Some(suffix) => meta@.name_suffix == suffix@,
                None => stamp_shape(meta@.name_suffix) && exists|now: Moment| #[trigger]
                    now.valid() && now.dated() && meta@.name_suffix == rfc3339(
                        now.secs,
                        now.nanos,
                        now.offset_secs,
                    ),
            }
        },
{
    let created_at = read_clock();
    let now = read_clock();
    assert(created_at.valid() && now.valid());
    assert(is_reading(created_at) && is_reading(now));
    meta_at(source, name, created_at, now)
}

/// The file in which a shadow records what it is.
pub open spec fn meta_place(shadow: Seq<u8>) -> Seq<u8> {
    in_dir(shadow, meta_name())
}

/// The file in which a shadow records what it is.
pub fn meta_path(shadow: &FsPath) -> (res: FsPath)
    ensures
        res@ == meta_place(shadow@),
{
    shadow.join_name(meta_filename())
}

// ---------------------------------------------------------------------------------------------
// What changed in a shadow
// ---------------------------------------------------------------------------------------------

/// How many files a shadow changes in its source.
#[derive(Clone, Copy, Debug, PartialEq, Eq, Structural)]
pub struct ChangeSummary {
    pub modified: usize,
    pub added: usize,
    pub deleted: usize,
}

impl ChangeSummary {
    /// The summary in words.
    pub open spec fn words(self) -> Seq<char> {
        decimal(self.modified as nat) + " modified, "@ + decimal(self.added as nat) + " added, "@
            + decimal(self.deleted as nat) + " deleted"@
    }

    /// The summary in words.
    pub fn to_text(&self) -> (res: String)
        ensures
            res@ == self.words(),
    {
        let mut out = decimal_text(self.modified as u64);
        out.append(" modified, ");
        out.append(decimal_text(self.added as u64).as_str());
        out.append(" added, ");
        out.append(decimal_text(self.deleted as u64).as_str());
        out.append(" deleted");
        out
    }
}

/// What a line of the comparison says of a file.
#[derive(Clone, Copy, Debug, PartialEq, Eq, Structural)]
pub enum Change {
    Modified,
    Added,
    Deleted,
    /// Nothing about a file: a directory, or a line of another kind.
    Other,
}

/// The flags of an itemized line: what stands between its first two characters and the first
/// space.
pub open spec fn flags(line: Seq<char>) -> Seq<char> {
    line.subrange(2, find(line, ' ') as int)
}

/// What an itemized line says: `*deleting` of a file that is deleted, and `>f` of a file that is
/// sent, which is new where all its flags are `+`.
pub open spec fn change_of(line: Seq<char>) -> Change {
    if "*deleting"@.is_prefix_of(line) {
        Change::Deleted
    } else if ">f"@.is_prefix_of(line) {
        if forall|i: int| 0 <= i < flags(line).len() ==> flags(line)[i] == '+' {
            Change::Added
        } else {
            Change::Modified
        }
    } else {
        Change::Other
    }
}

/// How many lines say `change`.
pub open spec fn count(table: Seq<Seq<char>>, change: Change) -> nat
    decreases table.len(),
{
    if table.len() == 0 {
        0
    } else {
        count(table.drop_last(), change) + (if change_of(table.last()) == change {
            1nat
        } else {
            0nat
        })
    }
}

proof fn lemma_count_bound(table: Seq<Seq<char>>, change: Change)
    ensures
        count(table, change) <= table.len(),
    decreases table.len(),
{
    if table.len() > 0 {
        lemma_count_bound(table.drop_last(), change);
    }
}

/// What one line says.
fn classify(line: &Vec<char>) -> (res: Change)
    ensures
        res == change_of(line@),
{
    if text_starts_with(line, "*deleting") {
        return Change::Deleted;
    }
    if !text_starts_with(line, ">f") {
        return Change::Other;
    }
    proof {
        reveal_strlit(">f");
    }
    let mut to: usize = 0;
    while to < line.len() && line[to] != ' '
        invariant
            to <= line@.len(),
            forall|j: int| 0 <= j < to ==> line@[j] != ' ',
        decreases line@.len() - to,
    {
        to = to + 1;
    }
    proof {
        lemma_find_is(line@, ' ', to as int);
        assert(line@[0] == ">f"@[0] && line@[1] == ">f"@[1]);
        assert(to >= 2);
    }
    let ghost marks = flags(line@);
    let mut i: usize = 2;
    while i < to
        invariant
            2 <= i <= to <= line@.len(),
            marks == line@.subrange(2, to as int),
            marks == flags(line@),
            ">f"@.is_prefix_of(line@),
            !"*deleting"@.is_prefix_of(line@),
            forall|j: int| 0 <= j < i - 2 ==> marks[j] == '+',
        decreases to - i,
    {
        if line[i] != '+' {
            assert(marks[i - 2] != '+');
            return Change::Modified;
        }
        i = i + 1;
    }
    Change::Added
}

/// The comparison of a shadow with its source: what merging would change, without changing it.
pub open spec fn measuring(shadow: Seq<u8>, source: Seq<u8>) -> (Seq<char>, Seq<Seq<char>>) {
    (
        "rsync"@,
        seq![
            "-ain"@,
            "--delete"@,
            "--exclude="@ + meta_name(),
            shown(shadow) + "/"@,
            shown(source) + "/"@,
        ],
    )
}

/// The merge of a shadow into its source: what the shadow deleted is deleted, and the shadow's own
/// record is left out.
pub open spec fn merging(shadow: Seq<u8>, source: Seq<u8>) -> (Seq<char>, Seq<Seq<char>>) {
    (
        "rsync"@,
        seq![
            "-a"@,
            "--delete"@,
            "--exclude="@ + meta_name(),
            shown(shadow) + "/"@,
            shown(source) + "/"@,
        ],
    )
}

/// The comparison of a shadow with its source.
pub fn measure_invocation(shadow: &FsPath, source: &FsPath) -> (res: Invocation)
    ensures
        res@ == measuring(shadow@, source@),
{
    Invocation::new("rsync").arg("-ain").arg("--delete").arg(
        "--exclude=".to_owned().concat(meta_filename()).as_str(),
    ).arg(shadow.display().concat("/").as_str()).arg(source.display().concat("/").as_str())
}

/// The merge of a shadow into its source.
pub fn merge_invocation(shadow: &FsPath, source: &FsPath) -> (res: Invocation)
    ensures
        res@ == merging(shadow@, source@),
{
    Invocation::new("rsync").arg("-a").arg("--delete").arg(
        "--exclude=".to_owned().concat(meta_filename()).as_str(),
    ).arg(shadow.display().concat("/").as_str()).arg(source.display().concat("/").as_str())
}

/// The summary of what an itemized comparison printed, or what is said where it failed.
pub fn change_summary(success: bool, stdout: &[u8], stderr: &[u8]) -> (res: Result<
    ChangeSummary,
    String,
>)
    ensures
        match res {
            Ok(summary) => {
                &&& success
                &&& summary.modified == count(lines(shown(stdout@)), Change::Modified)
                &&& summary.added == count(lines(shown(stdout@)), Change::Added)
                &&& summary.deleted == count(lines(shown(stdout@)), Change::Deleted)
            },
            Err(message) => !success && message@ == "rsync dry-run failed: "@ + shown(stderr@),
        },
{
    if !success {
        return Err(
            "rsync dry-run failed: ".to_owned().concat(text_lossy(stderr).as_str()),
        );
    }
    let table = lines_of(text_lossy(stdout).as_str());
    let ghost rows = lines(shown(stdout@));
    assert(table.deep_view().len() == table@.len());
    let mut modified: usize = 0;
    let mut added: usize = 0;
    let mut deleted: usize = 0;
    let mut i: usize = 0;
    assert(rows.take(0) =~= seq![]);
    while i < table.len()
        invariant
            table.deep_view() == rows,
            table.len() == rows.len(),
            i <= table.len(),
            modified == count(rows.take(i as int), Change::Modified),
            added == count(rows.take(i as int), Change::Added),
            deleted == count(rows.take(i as int), Change::Deleted),
        decreases table@.len() - i,
    {
        proof {
            let next = rows.take(i + 1);
            assert(next.drop_last() =~= rows.take(i as int));
            assert(next.last() == rows[i as int]);
            assert(table.deep_view()[i as int] =~= table@[i as int]@);
            lemma_count_bound(rows.take(i as int), Change::Modified);
            lemma_count_bound(rows.take(i as int), Change::Added);
            lemma_count_bound(rows.take(i as int), Change::Deleted);
        }
        match classify(&table[i]) {
            Change::Modified => {
                modified = modified + 1;
            },
            Change::Added => {
                added = added + 1;
            },
            Change::Deleted => {
                deleted = deleted + 1;
            },
            Change::Other => {},
        }
        i = i + 1;
    }
    assert(rows.take(i as int) =~= rows);
    Ok(ChangeSummary { modified, added, deleted })
}

/// Comparing is not merging: whatever is compared, the invocation is no merge of anything.
pub proof fn measuring_is_no_merge(
    shadow: Seq<u8>,
    source: Seq<u8>,
    other_shadow: Seq<u8>,
    other_source: Seq<u8>,
)
    ensures
        measuring(shadow, source) != merging(other_shadow, other_source),
{
    reveal_strlit("-ain");
    reveal_strlit("-a");
    assert(measuring(shadow, source).1[0] == "-ain"@);
    assert(merging(other_shadow, other_source).1[0] == "-a"@);
    assert("-ain"@.len() != "-a"@.len());
}

// ---------------------------------------------------------------------------------------------
// What is counted
// ---------------------------------------------------------------------------------------------

/// Whether a line tells of a file that is sent.
pub open spec fn tells_of_file(line: Seq<char>) -> bool {
    line.len() >= 2 && line[0] == '>' && line[1] == 'f'
}

/// Whether character `j` of a line is a flag: after the second character, and before the first space.
pub open spec fn is_flag(line: Seq<char>, j: int) -> bool {
    2 <= j < line.len() && forall|m: int| 2 <= m <= j ==> line[m] != ' '
}

/// Whether a line tells of a file that is there already: one of its flags is no `+`.
pub open spec fn tells_of_change(line: Seq<char>) -> bool {
    tells_of_file(line) && exists|j: int| #[trigger] is_flag(line, j) && line[j] != '+'
}

proof fn lemma_change_of(line: Seq<char>)
    ensures
        tells_of_file(line) <==> change_of(line) == Change::Modified || change_of(line)
            == Change::Added,
        tells_of_change(line) <==> change_of(line) == Change::Modified,
        "*deleting"@.is_prefix_of(line) <==> change_of(line) == Change::Deleted,
{
    reveal_strlit(">f");
    reveal_strlit("*deleting");
    let file = ">f"@;
    if "*deleting"@.is_prefix_of(line) {
        assert(line[0] == "*deleting"@[0]);
    }
    if tells_of_file(line) {
        assert(file =~= line.subrange(0, 2));
    }
    if file.is_prefix_of(line) {
        assert(line[0] == file[0] && line[1] == file[1]);
        lemma_find(line, ' ');
        let end = find(line, ' ') as int;
        assert(end >= 2);
        let marks = flags(line);
        if tells_of_change(line) {
            let j = choose|j: int| #[trigger] is_flag(line, j) && line[j] != '+';
            assert(j < end);
            assert(marks[j - 2] == line[j]);
        }
        if exists|i: int| 0 <= i < marks.len() && marks[i] != '+' {
            let i = choose|i: int| 0 <= i < marks.len() && marks[i] != '+';
            assert(line[i + 2] == marks[i]);
            assert(is_flag(line, i + 2));
        }
    }
}

/// Every line that begins with `>f` is counted once, as added or as modified; it is modified exactly
/// where some flag between its second character and its first space is not `+`. Every line that begins
/// with `*deleting` is counted as deleted, and no other line is counted.
pub proof fn every_change_is_counted(table: Seq<Seq<char>>)
    ensures
        count(table, Change::Modified) + count(table, Change::Added) == table.filter(
            |line: Seq<char>| line.len() >= 2 && line[0] == '>' && line[1] == 'f',
        ).len(),
        count(table, Change::Modified) == table.filter(
            |line: Seq<char>|
                line.len() >= 2 && line[0] == '>' && line[1] == 'f' && exists|j: int|
                    #[trigger] is_flag(line, j) && line[j] != '+',
        ).len(),
        count(table, Change::Deleted) == table.filter(
            |line: Seq<char>| "*deleting"@.is_prefix_of(line),
        ).len(),
    decreases table.len(),
{
    reveal(Seq::filter);
    if table.len() > 0 {
        every_change_is_counted(table.drop_last());
        lemma_change_of(table.last());
    }
}

/// A line more counts for itself: what was counted before stays counted.
pub proof fn lines_are_counted_one_by_one(table: Seq<Seq<char>>, line: Seq<char>)
    ensures
        count(Seq::<Seq<char>>::empty(), Change::Modified) == 0,
        count(table.push(line), Change::Modified) == count(table, Change::Modified) + (
        if tells_of_change(line) {
            1int
        } else {
            0
        }),
        count(table.push(line), Change::Added) == count(table, Change::Added) + (if tells_of_file(
            line,
        ) && !tells_of_change(line) {
            1int
        } else {
            0
        }),
        count(table.push(line), Change::Deleted) == count(table, Change::Deleted) + (
        if "*deleting"@.is_prefix_of(line) {
            1int
        } else {
            0
        }),
{
    assert(table.push(line).drop_last() =~= table);
    lemma_change_of(line);
}

/// The summary in words shows the three counts.
pub proof fn summary_shows_the_counts(summary: ChangeSummary)
    ensures
        summary.words() == decimal(summary.modified as nat) + " modified, "@ + decimal(
            summary.added as nat,
        ) + " added, "@ + decimal(summary.deleted as nat) + " deleted"@,
{
}

/// The dry run and the merge are of the shadow into the source, with deletions, and without the
/// shadow's record; they differ in that the one changes nothing.
pub proof fn merge_is_of_shadow_into_source(shadow: Seq<u8>, source: Seq<u8>)
    ensures
        merging(shadow, source).0 == "rsync"@,
        merging(shadow, source).1 == seq![
            "-a"@,
            "--delete"@,
            "--exclude="@ + ".cc-sandbox-meta.json"@,
            shown(shadow) + "/"@,
            shown(source) + "/"@,
        ],
        measuring(shadow, source).0 == "rsync"@,
        measuring(shadow, source).1 == merging(shadow, source).1.update(0, "-ain"@),
{
    assert(measuring(shadow, source).1 =~= merging(shadow, source).1.update(0, "-ain"@));
}

// ---------------------------------------------------------------------------------------------
// Where a shadow is, and what it records
// ---------------------------------------------------------------------------------------------

/// A source has a place for a shadow exactly where it lies below the mount point and ends in a name;
/// why it has none tells which of the two lacks.
pub proof fn places_are_below_the_mount(
    shadow_root: Seq<u8>,
    mount_point: Seq<u8>,
    source: Seq<u8>,
    suffix: Seq<char>,
)
    requires
        mount_point.len() > 0,
    ensures
        ({
            let place = shadow_place(shadow_root, mount_point, source, suffix);
            let below = starts_with(source, mount_point) && components(source).len() > components(
                mount_point,
            ).len();
            &&& place is Ok <==> below && components(source).last() != seq![46u8, 46u8]
            &&& place == Err::<Seq<u8>, ShadowPathError>(ShadowPathError::NotUnderMount)
                <==> !starts_with(source, mount_point)
            &&& place == Err::<Seq<u8>, ShadowPathError>(ShadowPathError::FilesystemRoot)
                <==> same_path(source, mount_point)
            &&& place == Err::<Seq<u8>, ShadowPathError>(ShadowPathError::NoName) <==> below
                && components(source).last() == seq![46u8, 46u8]
        }),
{
    lemma_components_nonempty(mount_point);
    lemma_stripped(source, mount_point);
    lemma_components_small();
    let n = components(source).len() as int;
    let k = components(mount_point).len() as int;
    if starts_with(source, mount_point) {
        let relative = stripped(source, mount_point)->0;
        if k == n {
            assert(components(source) =~= components(mount_point));
        } else {
            assert(components(relative).len() == n - k);
            if relative.len() == 0 {
                assert(relative =~= seq![]);
            }
            let last = components(relative).last();
            assert(last == components(source).last());
            lemma_body_pieces(relative);
            assert(!last.contains(SLASH) && !trivial(last));
            assert(seq![SLASH].contains(seq![SLASH][0]));
        }
    } else if same_path(source, mount_point) {
        assert(components(source) =~= components(source).subrange(0, n));
    }
}

/// A shadow lies under its root as its source under the mount point, with a dash and the suffix behind
/// its name.
pub proof fn place_mirrors_the_source(
    shadow_root: Seq<u8>,
    mount_point: Seq<u8>,
    source: Seq<u8>,
    suffix: Seq<char>,
)
    requires
        mount_point.len() > 0,
        shadow_place(shadow_root, mount_point, source, suffix) is Ok,
        valid_utf8(components(source).last()),
        !suffix.contains('/'),
    ensures
        components(shadow_place(shadow_root, mount_point, source, suffix)->Ok_0) == components(
            shadow_root,
        ) + components(source).subrange(
            components(mount_point).len() as int,
            components(source).len() - 1,
        ) + seq![components(source).last() + encode_utf8("-"@ + suffix)],
{
    lemma_place_components(shadow_root, mount_point, source, suffix);
    let leaf = components(source).last();
    let k = components(mount_point).len() as int;
    lemma_find(suffix, '/');
    assert(find(suffix, '/') == suffix.len()) by {
        if find(suffix, '/') < suffix.len() {
            assert(suffix.contains(suffix[find(suffix, '/') as int]));
        }
    }
    assert(suffix_name(suffix) =~= suffix);
    assert(shown(leaf) + "-"@ + suffix =~= shown(leaf) + ("-"@ + suffix));
    lemma_encoding_concat(shown(leaf), "-"@ + suffix);
    decode_utf8_encode_utf8(leaf);
    assert(components(source).skip(k).drop_last() =~= components(source).subrange(
        k,
        components(source).len() - 1,
    ));
    assert(seq![leaf + encode_utf8("-"@ + suffix)] + suffix_rest(suffix) =~= seq![
        leaf + encode_utf8("-"@ + suffix),
    ]);
}

/// Different suffixes give one source different shadows: starts at times that are written differently,
/// or under different names, have no place in common.
pub proof fn suffixes_do_not_share_a_place(
    shadow_root: Seq<u8>,
    mount_point: Seq<u8>,
    source: Seq<u8>,
    suffix: Seq<char>,
    other: Seq<char>,
)
    requires
        mount_point.len() > 0,
        shadow_place(shadow_root, mount_point, source, suffix) is Ok,
        shadow_place(shadow_root, mount_point, source, other) is Ok,
        valid_utf8(components(source).last()),
        !suffix.contains('/'),
        !other.contains('/'),
        suffix != other,
    ensures
        !same_path(
            shadow_place(shadow_root, mount_point, source, suffix)->Ok_0,
            shadow_place(shadow_root, mount_point, source, other)->Ok_0,
        ),
{
    place_mirrors_the_source(shadow_root, mount_point, source, suffix);
    place_mirrors_the_source(shadow_root, mount_point, source, other);
    let a = components(shadow_place(shadow_root, mount_point, source, suffix)->Ok_0);
    let b = components(shadow_place(shadow_root, mount_point, source, other)->Ok_0);
    let leaf = components(source).last();
    if a == b {
        let one = leaf + encode_utf8("-"@ + suffix);
        let two = leaf + encode_utf8("-"@ + other);
        assert(a.last() == one && b.last() == two);
        assert(one.skip(leaf.len() as int) =~= encode_utf8("-"@ + suffix));
        assert(two.skip(leaf.len() as int) =~= encode_utf8("-"@ + other));
        encode_utf8_decode_utf8("-"@ + suffix);
        encode_utf8_decode_utf8("-"@ + other);
        assert(("-"@ + suffix).skip("-"@.len() as int) =~= suffix);
        assert(("-"@ + other).skip("-"@.len() as int) =~= other);
    }
}

/// The suffix is the name where one is given, whatever the time; else it is the time as RFC 3339 writes
/// it.
pub proof fn suffix_is_the_name_or_the_time(
    shadow_root: Seq<u8>,
    mount_point: Seq<u8>,
    source: Seq<u8>,
    name: Seq<char>,
    created_at: Moment,
    now: Moment,
)
    ensures
        place_at(shadow_root, mount_point, source, Some(name), now) == shadow_place(
            shadow_root,
            mount_point,
            source,
            name,
        ),
        now.dated() ==> place_at(shadow_root, mount_point, source, None, now) == shadow_place(
            shadow_root,
            mount_point,
            source,
            rfc3339(now.secs, now.nanos, now.offset_secs),
        ),
        !now.dated() ==> place_at(shadow_root, mount_point, source, None, now) is Err,
        !now.dated() && shadow_place(shadow_root, mount_point, source, seq![]) is Ok ==> place_at(
            shadow_root,
            mount_point,
            source,
            None,
            now,
        ) == Err::<Seq<u8>, ShadowPathError>(ShadowPathError::NoDate),
        !now.dated() && shadow_place(shadow_root, mount_point, source, seq![]) is Err ==> place_at(
            shadow_root,
            mount_point,
            source,
            None,
            now,
        ) == shadow_place(shadow_root, mount_point, source, seq![]),
        recorded_at(source, Some(name), created_at, now) is Some,
        recorded_at(source, Some(name), created_at, now)->0.source == source,
        recorded_at(source, Some(name), created_at, now)->0.created_at == created_at,
        recorded_at(source, Some(name), created_at, now)->0.name_suffix == name,
        recorded_at(source, None, created_at, now) is Some <==> now.dated(),
        now.dated() ==> recorded_at(source, None, created_at, now)->0.source == source,
        now.dated() ==> recorded_at(source, None, created_at, now)->0.created_at == created_at,
        now.dated() ==> recorded_at(source, None, created_at, now)->0.name_suffix == rfc3339(
            now.secs,
            now.nanos,
            now.offset_secs,
        ),
{
}

/// The counts of a dry run are those of the lines that it printed, and only a dry run that failed has
/// none.
pub proof fn summary_counts_the_lines(
    success: bool,
    stdout: &[u8],
    stderr: &[u8],
    res: Result<ChangeSummary, String>,
)
    requires
        call_ensures(change_summary, (success, stdout, stderr), res),
    ensures
        res is Ok <==> success,
        res matches Ok(summary) ==> {
            &&& summary.modified + summary.added == lines(shown(stdout@)).filter(
                |line: Seq<char>| line.len() >= 2 && line[0] == '>' && line[1] == 'f',
            ).len()
            &&& summary.modified == lines(shown(stdout@)).filter(
                |line: Seq<char>|
                    line.len() >= 2 && line[0] == '>' && line[1] == 'f' && exists|j: int|
                        #[trigger] is_flag(line, j) && line[j] != '+',
            ).len()
            &&& summary.deleted == lines(shown(stdout@)).filter(
                |line: Seq<char>| "*deleting"@.is_prefix_of(line),
            ).len()
        },
        res matches Err(message) ==> message@ == "rsync dry-run failed: "@ + shown(stderr@),
{
    every_change_is_counted(lines(shown(stdout@)));
}

/// Why a source has no place is told in words that name it, and a shadow records itself in a file
/// within it.
pub proof fn missing_place_is_told(source: &FsPath, mount_point: &FsPath, error: ShadowPathError, res: String)
    requires
        call_ensures(shadow_path_message, (error, source, mount_point), res),
    ensures
        error == ShadowPathError::NotUnderMount ==> res@ == "Source "@ + shown(source@)
            + " is not under mount point "@ + shown(mount_point@),
        error == ShadowPathError::FilesystemRoot ==> res@ == "Cannot shadow the filesystem root "@
            + shown(mount_point@) + ". Use a subdirectory."@,
        error == ShadowPathError::NoName ==> res@ == "Source path has no final component"@,
        error == ShadowPathError::NoDate ==> res@ == "The clock shows a time without a date"@,
        meta_place(source@) == joined(source@, encode_utf8(".cc-sandbox-meta.json"@)),
{
}

/// A place is spelled as its parts are: the directories of the source below the mount point, within
/// the shadow root, and within them the name of the source as it is shown, a dash and the suffix.
pub proof fn place_is_spelled_from_its_parts(
    shadow_root: Seq<u8>,
    mount_point: Seq<u8>,
    source: Seq<u8>,
    suffix: Seq<char>,
    relative: Seq<u8>,
    leaf: Seq<u8>,
)
    requires
        stripped(source, mount_point) == Some(relative),
        relative.len() > 0,
        file_name(relative) == Some(leaf),
    ensures
        parent(relative) matches Some(dir) ==> shadow_place(shadow_root, mount_point, source, suffix)
            == Ok::<Seq<u8>, ShadowPathError>(
            joined(joined(shadow_root, dir), encode_utf8(shown(leaf) + "-"@ + suffix)),
        ),
        shadow_place(shadow_root, mount_point, source, suffix) is Ok,
{
}

} // verus!
