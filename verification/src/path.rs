//! File system paths as bytes, taken apart at the slashes.
//!
//! A path is compared and cut by its components. A doubled slash, a trailing slash and a `.` that
//! does not stand first make no component; a leading slash is the component `/`, and a `.` that
//! stands first is the component `.`. Nothing else is normalized: `a/b/../c` is not `a/c`.
use crate::sequences::{
    find, lemma_find, lemma_find_is, lemma_split_concat, lemma_split_whole, split,
};
use crate::text::{shown, text_lossy};
use vstd::prelude::*;
use vstd::utf8::encode_utf8;

verus! {

/// The byte between components.
pub const SLASH: u8 = 47;

/// The byte of the current directory's name.
pub const DOT: u8 = 46;

/// A path: the bytes of its name.
#[derive(Debug)]
pub struct FsPath {
    pub bytes: Vec<u8>,
}

impl View for FsPath {
    type V = Seq<u8>;

    open spec fn view(&self) -> Seq<u8> {
        self.bytes@
    }
}

impl DeepView for FsPath {
    type V = Seq<u8>;

    open spec fn deep_view(&self) -> Seq<u8> {
        self.bytes@
    }
}

/// Whether a piece between slashes makes no component of its own.
pub open spec fn trivial(piece: Seq<u8>) -> bool {
    piece.len() == 0 || piece == seq![DOT]
}

/// The pieces between slashes that make components.
pub open spec fn body(p: Seq<u8>) -> Seq<Seq<u8>> {
    split(p, SLASH).filter(|piece: Seq<u8>| !trivial(piece))
}

/// Whether the path begins at the root.
pub open spec fn absolute(p: Seq<u8>) -> bool {
    p.len() > 0 && p[0] == SLASH
}

/// The component for what a path begins with, where that is the root or the current directory.
pub open spec fn head(p: Seq<u8>) -> Seq<Seq<u8>> {
    if absolute(p) {
        seq![seq![SLASH]]
    } else if split(p, SLASH)[0] == seq![DOT] {
        seq![seq![DOT]]
    } else {
        seq![]
    }
}

/// The components of a path.
pub open spec fn components(p: Seq<u8>) -> Seq<Seq<u8>> {
    head(p) + body(p)
}

/// Whether two paths have the same components.
pub open spec fn same_path(a: Seq<u8>, b: Seq<u8>) -> bool {
    components(a) == components(b)
}

/// Whether the components of `p` begin with those of `base`.
pub open spec fn starts_with(p: Seq<u8>, base: Seq<u8>) -> bool {
    components(base).is_prefix_of(components(p))
}

/// `b` taken as a path within `a`: an absolute `b` stands for itself.
pub open spec fn joined(a: Seq<u8>, b: Seq<u8>) -> Seq<u8> {
    if absolute(b) {
        b
    } else if a.len() > 0 && a.last() != SLASH {
        a + seq![SLASH] + b
    } else {
        a + b
    }
}

/// Where the pieces that make components begin and end, from the piece at `at` on.
pub open spec fn body_spans(p: Seq<u8>, at: int) -> Seq<(int, int)>
    decreases p.len() - at,
{
    if at < 0 || at > p.len() {
        seq![]
    } else {
        let to = at + find(p.skip(at), SLASH);
        let rest = if to < p.len() {
            body_spans(p, to + 1)
        } else {
            seq![]
        };
        if trivial(p.subrange(at, to)) {
            rest
        } else {
            seq![(at, to)] + rest
        }
    }
}

/// Where the components of `p` begin and end.
pub open spec fn spans(p: Seq<u8>) -> Seq<(int, int)> {
    (if head(p).len() > 0 {
        seq![(0int, 1int)]
    } else {
        seq![]
    }) + body_spans(p, 0)
}

/// The path without its last component. The root and the empty path have no parent.
pub open spec fn parent(p: Seq<u8>) -> Option<Seq<u8>> {
    let n = components(p).len();
    if n == 0 || components(p).last() == seq![SLASH] {
        None
    } else if n == 1 {
        Some(seq![])
    } else {
        Some(p.take(spans(p)[n - 2].1))
    }
}

/// The parent of a path, or the empty path where it has none.
pub open spec fn parent_or_empty(p: Seq<u8>) -> Seq<u8> {
    match parent(p) {
        Some(dir) => dir,
        None => seq![],
    }
}

/// The last component, where it is a name.
pub open spec fn file_name(p: Seq<u8>) -> Option<Seq<u8>> {
    if components(p).len() > 0 && is_name(components(p).last()) {
        Some(components(p).last())
    } else {
        None
    }
}

/// Whether a component is a name: not the root, the current or the parent directory.
pub open spec fn is_name(component: Seq<u8>) -> bool {
    component != seq![SLASH] && component != seq![DOT] && component != seq![DOT, DOT]
}

/// What follows the components of `base` in `p`, where `p` begins with them.
pub open spec fn stripped(p: Seq<u8>, base: Seq<u8>) -> Option<Seq<u8>> {
    let n = components(p).len();
    let k = components(base).len();
    if !starts_with(p, base) {
        None
    } else if k == n {
        Some(seq![])
    } else {
        Some(p.subrange(spans(p)[k as int].0, spans(p)[n - 1].1))
    }
}

// ---------------------------------------------------------------------------------------------
// Spans and components
// ---------------------------------------------------------------------------------------------

proof fn lemma_filter_first(pieces: Seq<Seq<u8>>, rest: Seq<Seq<u8>>, piece: Seq<u8>)
    requires
        pieces == seq![piece] + rest,
    ensures
        pieces.filter(|q: Seq<u8>| !trivial(q)) == (if trivial(piece) {
            rest.filter(|q: Seq<u8>| !trivial(q))
        } else {
            seq![piece] + rest.filter(|q: Seq<u8>| !trivial(q))
        }),
{
    let named = |q: Seq<u8>| !trivial(q);
    Seq::filter_distributes_over_add(seq![piece], rest, named);
    reveal_with_fuel(Seq::<_>::filter, 2);
    assert(seq![piece].drop_last() =~= seq![]);
    if trivial(piece) {
        assert(seq![piece].filter(named) =~= seq![]);
        assert(seq![] + rest.filter(named) =~= rest.filter(named));
    } else {
        assert(seq![piece].filter(named) =~= seq![piece]);
    }
}

proof fn lemma_body_spans(p: Seq<u8>, at: int)
    requires
        0 <= at <= p.len(),
    ensures
        body_spans(p, at).len() == body(p.skip(at)).len(),
        forall|k: int|
            #![trigger body_spans(p, at)[k]]
            0 <= k < body_spans(p, at).len() ==> {
                let (from, to) = body_spans(p, at)[k];
                &&& at <= from < to <= p.len()
                &&& body(p.skip(at))[k] == p.subrange(from, to)
                &&& !trivial(p.subrange(from, to))
                &&& !p.subrange(from, to).contains(SLASH)
            },
        forall|j: int, k: int|
            0 <= j < k < body_spans(p, at).len() ==> (#[trigger] body_spans(p, at)[j]).1 < (
            #[trigger] body_spans(p, at)[k]).0,
    decreases p.len() - at,
{
    let rest = p.skip(at);
    lemma_find(rest, SLASH);
    let to = at + find(rest, SLASH);
    assert(rest.take(to - at) =~= p.subrange(at, to));
    assert(!p.subrange(at, to).contains(SLASH)) by {
        if p.subrange(at, to).contains(SLASH) {
            let i = choose|i: int|
                0 <= i < p.subrange(at, to).len() && p.subrange(at, to)[i] == SLASH;
            assert(rest[i] == SLASH);
        }
    }
    if to < p.len() {
        assert(rest.skip(to - at + 1) =~= p.skip(to + 1));
        lemma_body_spans(p, to + 1);
        lemma_filter_first(
            split(rest, SLASH),
            split(p.skip(to + 1), SLASH),
            p.subrange(at, to),
        );
    } else {
        assert(rest =~= p.subrange(at, to));
        assert(split(rest, SLASH) =~= seq![p.subrange(at, to)] + Seq::<Seq<u8>>::empty());
        lemma_filter_first(split(rest, SLASH), seq![], p.subrange(at, to));
        reveal_with_fuel(Seq::<_>::filter, 1);
        assert(seq![p.subrange(at, to)] + Seq::<Seq<u8>>::empty() =~= seq![p.subrange(at, to)]);
    }
}

/// The spans delimit the components, in order and apart from one another.
pub proof fn lemma_spans(p: Seq<u8>)
    ensures
        spans(p).len() == components(p).len(),
        forall|k: int|
            #![trigger spans(p)[k]]
            0 <= k < spans(p).len() ==> {
                let (from, to) = spans(p)[k];
                &&& 0 <= from < to <= p.len()
                &&& components(p)[k] == p.subrange(from, to)
            },
        forall|j: int, k: int|
            0 <= j < k < spans(p).len() ==> (#[trigger] spans(p)[j]).1 <= (
            #[trigger] spans(p)[k]).0,
{
    assert(p.skip(0) =~= p);
    lemma_body_spans(p, 0);
    lemma_find(p, SLASH);
    if head(p).len() > 0 {
        assert(p.subrange(0, 1) =~= seq![p[0]]);
        if !absolute(p) {
            assert(split(p, SLASH)[0] =~= p.take(find(p, SLASH) as int));
            assert(seq![DOT][0] == DOT);
            assert(p[0] == DOT);
        }
        assert(forall|k: int| 0 < k < spans(p).len() ==> spans(p)[k] == body_spans(p, 0)[k - 1]);
        assert forall|k: int| 0 < k < spans(p).len() implies (#[trigger] spans(p)[k]).0 >= 1 by {
            let (from, to) = body_spans(p, 0)[k - 1];
            if from == 0 {
                let piece = p.subrange(from, to);
                assert(piece[0] == p[0]);
                if absolute(p) {
                    assert(piece.contains(SLASH));
                } else {
                    let i = find(p, SLASH) as int;
                    assert(i == 1);
                    if to > 1 {
                        assert(piece[1] == p[1]);
                        assert(piece.contains(SLASH));
                    } else {
                        assert(piece =~= seq![DOT]);
                    }
                }
            }
        }
    }
}

/// A name without a slash, neither empty nor `.`, is its own only piece.
pub proof fn lemma_body_of_name(name: Seq<u8>)
    requires
        !name.contains(SLASH),
        !trivial(name),
    ensures
        body(name) == seq![name],
{
    lemma_split_whole(name, SLASH);
    assert(split(name, SLASH) =~= seq![name] + Seq::<Seq<u8>>::empty());
    lemma_filter_first(split(name, SLASH), seq![], name);
    reveal_with_fuel(Seq::<_>::filter, 1);
    assert(seq![name] + Seq::<Seq<u8>>::empty() =~= seq![name]);
}

proof fn lemma_body_empty()
    ensures
        body(seq![]) == Seq::<Seq<u8>>::empty(),
{
    let none = Seq::<u8>::empty();
    lemma_split_whole(none, SLASH);
    assert(split(none, SLASH) =~= seq![none] + Seq::<Seq<u8>>::empty());
    lemma_filter_first(split(none, SLASH), seq![], none);
    reveal_with_fuel(Seq::<_>::filter, 1);
}

/// The pieces on either side of a slash are the pieces of the whole.
pub proof fn lemma_body_concat(a: Seq<u8>, b: Seq<u8>)
    ensures
        body(a + seq![SLASH] + b) == body(a) + body(b),
{
    lemma_split_concat(a, b, SLASH);
    Seq::filter_distributes_over_add(
        split(a, SLASH),
        split(b, SLASH),
        |piece: Seq<u8>| !trivial(piece),
    );
}

/// What a path begins with shows in what stands before any of its slashes.
proof fn lemma_head_before_slash(p: Seq<u8>, e: int)
    requires
        0 < e <= p.len(),
        e < p.len() ==> p[e] == SLASH,
    ensures
        head(p.take(e)) == head(p),
{
    let d = p.take(e);
    lemma_find(p, SLASH);
    lemma_find(d, SLASH);
    let i = find(p, SLASH) as int;
    if i < e {
        lemma_find_is(d, SLASH, i);
        assert(d.take(i) =~= p.take(i));
    } else {
        lemma_find_is(d, SLASH, e);
        assert(i == e);
        if e < p.len() {
            assert(d =~= p.take(i));
        } else {
            assert(d =~= p);
        }
    }
}

proof fn lemma_body_spans_from(p: Seq<u8>, at: int, k: int)
    requires
        0 <= at <= p.len(),
        0 <= k < body_spans(p, at).len(),
    ensures
        body_spans(p, at) == body_spans(p, at).take(k) + body_spans(p, body_spans(p, at)[k].0),
        body_spans(p, at)[k].1 < p.len() ==> body_spans(p, at) == body_spans(p, at).take(k + 1)
            + body_spans(p, body_spans(p, at)[k].1 + 1),
        body_spans(p, at)[k].1 < p.len() ==> p[body_spans(p, at)[k].1] == SLASH,
        body_spans(p, at)[k].1 >= p.len() ==> k + 1 == body_spans(p, at).len(),
        body_spans(p, at)[k].0 == at || p[body_spans(p, at)[k].0 - 1] == SLASH,
    decreases p.len() - at,
{
    let all = body_spans(p, at);
    lemma_find(p.skip(at), SLASH);
    let to = at + find(p.skip(at), SLASH);
    if to < p.len() {
        assert(p[to] == p.skip(at)[to - at]);
        let rest = body_spans(p, to + 1);
        if trivial(p.subrange(at, to)) {
            lemma_body_spans_from(p, to + 1, k);
        } else if k == 0 {
            assert(all.take(0) + all =~= all);
            assert(all =~= all.take(1) + rest);
        } else {
            lemma_body_spans_from(p, to + 1, k - 1);
            assert(all[k] == rest[k - 1]);
            assert(all =~= all.take(k) + body_spans(p, rest[k - 1].0));
            if all[k].1 < p.len() {
                assert(all =~= all.take(k + 1) + body_spans(p, rest[k - 1].1 + 1));
            }
        }
    } else {
        assert(all =~= seq![(at, to)]);
        assert(all.take(0) + all =~= all);
    }
}

/// The pieces that make components are neither empty nor `.`, and hold no slash.
pub proof fn lemma_body_pieces(p: Seq<u8>)
    ensures
        forall|k: int|
            0 <= k < body(p).len() ==> !(#[trigger] body(p)[k]).contains(SLASH) && !trivial(
                body(p)[k],
            ),
{
    assert(p.skip(0) =~= p);
    lemma_body_spans(p, 0);
    assert forall|k: int| 0 <= k < body(p).len() implies !(#[trigger] body(p)[k]).contains(SLASH)
        && !trivial(body(p)[k]) by {
        let (from, to) = body_spans(p, 0)[k];
        assert(body(p)[k] == p.subrange(from, to));
    }
}

/// A path within another has the components of both.
pub proof fn lemma_joined(a: Seq<u8>, b: Seq<u8>)
    requires
        a.len() > 0,
        !absolute(b),
    ensures
        components(joined(a, b)) == components(a) + body(b),
        starts_with(joined(a, b), a),
{
    let whole = joined(a, b);
    if a.last() != SLASH {
        lemma_body_concat(a, b);
        lemma_head_before_slash(whole, a.len() as int);
        assert(whole.take(a.len() as int) =~= a);
    } else {
        let front = a.drop_last();
        let none = Seq::<u8>::empty();
        assert(a =~= front + seq![SLASH] + none);
        assert(whole =~= front + seq![SLASH] + b);
        lemma_body_concat(front, b);
        lemma_body_concat(front, none);
        lemma_body_empty();
        assert(body(front) + Seq::<Seq<u8>>::empty() =~= body(front));
        if front.len() > 0 {
            let e = front.len() as int;
            lemma_head_before_slash(whole, e);
            lemma_head_before_slash(a, e);
            assert(whole.take(e) =~= front);
            assert(a.take(e) =~= front);
        } else {
            assert(whole[0] == SLASH && a[0] == SLASH);
        }
    }
    assert(components(whole) =~= components(a) + body(b));
    assert(components(a) =~= components(whole).take(components(a).len() as int));
}

/// Only the empty path has no components.
pub proof fn lemma_components_nonempty(p: Seq<u8>)
    requires
        p.len() > 0,
    ensures
        components(p).len() > 0,
{
    lemma_find(p, SLASH);
    if head(p).len() == 0 {
        let i = find(p, SLASH) as int;
        let piece = p.take(i);
        assert(split(p, SLASH)[0] =~= piece);
        assert(!trivial(piece));
        if i < p.len() {
            lemma_filter_first(split(p, SLASH), split(p.skip(i + 1), SLASH), piece);
        } else {
            assert(piece =~= p);
            assert(split(p, SLASH) =~= seq![piece] + Seq::<Seq<u8>>::empty());
            lemma_filter_first(split(p, SLASH), seq![], piece);
        }
    }
}

/// A name within a path is the last component of what they make.
pub proof fn lemma_joined_name(a: Seq<u8>, name: Seq<u8>)
    requires
        a.len() > 0,
        !name.contains(SLASH),
        !trivial(name),
        name != seq![DOT, DOT],
    ensures
        components(joined(a, name)) == components(a).push(name),
        file_name(joined(a, name)) == Some(name),
{
    assert(!absolute(name)) by {
        if absolute(name) {
            assert(name.contains(name[0]));
        }
    }
    lemma_joined(a, name);
    lemma_body_of_name(name);
    assert(components(a) + seq![name] =~= components(a).push(name));
    if name == seq![SLASH] {
        assert(name[0] == SLASH);
        assert(name.contains(SLASH));
    }
}

/// The components of the shortest paths.
pub proof fn lemma_components_small()
    ensures
        components(seq![]) == Seq::<Seq<u8>>::empty(),
        components(seq![SLASH]) == seq![seq![SLASH]],
        components(seq![DOT]) == seq![seq![DOT]],
        body(seq![]) == Seq::<Seq<u8>>::empty(),
{
    let none = Seq::<u8>::empty();
    let nothing = Seq::<Seq<u8>>::empty();
    lemma_body_empty();
    lemma_split_whole(none, SLASH);
    assert(seq![DOT].len() == 1);
    assert(components(none) =~= nothing);
    lemma_body_concat(none, none);
    assert(none + seq![SLASH] + none =~= seq![SLASH]);
    assert(components(seq![SLASH]) =~= seq![seq![SLASH]]);
    let dot = seq![DOT];
    assert(!dot.contains(SLASH));
    lemma_split_whole(dot, SLASH);
    assert(split(dot, SLASH) =~= seq![dot] + nothing);
    lemma_filter_first(split(dot, SLASH), nothing, dot);
    reveal_with_fuel(Seq::<_>::filter, 1);
    assert(components(dot) =~= seq![seq![DOT]]);
}

/// A path cut at a slash.
proof fn lemma_cut(p: Seq<u8>, e: int)
    requires
        0 < e < p.len(),
        p[e] == SLASH,
    ensures
        components(p) == components(p.take(e)) + body(p.skip(e + 1)),
{
    assert(p =~= p.take(e) + seq![SLASH] + p.skip(e + 1));
    lemma_body_concat(p.take(e), p.skip(e + 1));
    lemma_head_before_slash(p, e);
    assert(components(p) =~= components(p.take(e)) + body(p.skip(e + 1)));
}

/// How the spans of a path stand to its pieces, for a span at or after the head.
proof fn lemma_span_in_body(p: Seq<u8>, k: int)
    requires
        head(p).len() <= k < components(p).len(),
    ensures
        spans(p).len() == components(p).len(),
        0 <= spans(p)[k].0 < spans(p)[k].1 <= p.len(),
        components(p)[k] == p.subrange(spans(p)[k].0, spans(p)[k].1),
        !trivial(p.subrange(spans(p)[k].0, spans(p)[k].1)),
        !p.subrange(spans(p)[k].0, spans(p)[k].1).contains(SLASH),
        spans(p)[k].1 < p.len() ==> p[spans(p)[k].1] == SLASH && body(
            p.skip(spans(p)[k].1 + 1),
        ).len() == components(p).len() - k - 1,
        spans(p)[k].1 == p.len() ==> k + 1 == components(p).len(),
        body(p.skip(spans(p)[k].0)) == components(p).skip(k),
{
    assert(p.skip(0) =~= p);
    let h = head(p).len() as int;
    let all = body_spans(p, 0);
    lemma_body_spans(p, 0);
    assert(spans(p)[k] == all[k - h]);
    lemma_body_spans_from(p, 0, k - h);
    let (from, to) = all[k - h];
    if to < p.len() {
        lemma_body_spans(p, to + 1);
    }
    lemma_body_spans(p, from);
    assert forall|j: int| 0 <= j < body(p.skip(from)).len() implies body(p.skip(from))[j]
        == components(p).skip(k)[j] by {
        assert(body_spans(p, from)[j] == all[k - h + j]);
    }
    assert(body(p.skip(from)) =~= components(p).skip(k));
}

/// Beginning with the components of another path carries over.
pub proof fn lemma_starts_with_transitive(a: Seq<u8>, b: Seq<u8>, c: Seq<u8>)
    requires
        starts_with(a, b),
        starts_with(b, c),
    ensures
        starts_with(a, c),
{
    let n = components(c).len() as int;
    assert(components(a).subrange(0, components(b).len() as int).subrange(0, n) =~= components(
        a,
    ).subrange(0, n));
}

/// The components of the parent are those of the path, without the last.
pub proof fn lemma_parent(p: Seq<u8>)
    ensures
        parent(p) matches Some(d) ==> components(d) == components(p).drop_last(),
{
    let n = components(p).len() as int;
    let h = head(p).len() as int;
    if parent(p) is Some {
        let d = parent(p)->0;
        lemma_components_small();
        if n == 1 {
            assert(components(d) =~= components(p).drop_last());
        } else if n == 2 && h == 1 {
            lemma_find(p, SLASH);
            assert(d =~= seq![p[0]]);
            if !absolute(p) {
                assert(split(p, SLASH)[0] =~= p.take(find(p, SLASH) as int));
                assert(seq![DOT][0] == DOT);
                assert(p[0] == DOT);
            }
            assert(components(p).drop_last() =~= head(p));
        } else {
            lemma_span_in_body(p, n - 2);
            let e = spans(p)[n - 2].1;
            lemma_cut(p, e);
            assert(components(d) =~= components(p).drop_last());
        }
    }
}

/// What begins with a piece that is neither empty nor `.` has no head.
pub proof fn lemma_no_head(r: Seq<u8>, width: int)
    requires
        0 < width <= r.len(),
        !trivial(r.take(width)),
        !r.take(width).contains(SLASH),
        width < r.len() ==> r[width] == SLASH,
    ensures
        head(r) == Seq::<Seq<u8>>::empty(),
        components(r) == body(r),
        !absolute(r),
{
    let piece = r.take(width);
    assert forall|j: int| 0 <= j < width implies r[j] != SLASH by {
        assert(piece[j] == r[j]);
        if r[j] == SLASH {
            assert(piece.contains(SLASH));
        }
    }
    lemma_find_is(r, SLASH, width);
    assert(split(r, SLASH)[0] =~= piece);
    assert(components(r) =~= body(r));
}

/// The components of what follows a base are those of the path, without the base's.
pub proof fn lemma_stripped(p: Seq<u8>, base: Seq<u8>)
    requires
        components(base).len() > 0,
    ensures
        stripped(p, base) matches Some(r) ==> {
            &&& components(r) == components(p).skip(components(base).len() as int)
            &&& body(r) == components(r)
            &&& !absolute(r)
        },
{
    let n = components(p).len() as int;
    let k = components(base).len() as int;
    if stripped(p, base) is Some {
        let r = stripped(p, base)->0;
        if k == n {
            lemma_components_small();
            assert(components(r) =~= components(p).skip(k));
        } else {
            lemma_span_in_body(p, k);
            lemma_span_in_body(p, n - 1);
            let (from, end) = spans(p)[k];
            let to = spans(p)[n - 1].1;
            assert(end <= to) by {
                lemma_spans(p);
            }
            let rest = p.skip(from);
            if to < p.len() {
                let junk = p.skip(to + 1);
                assert(rest =~= r + seq![SLASH] + junk);
                lemma_body_concat(r, junk);
                assert(body(junk) =~= seq![]);
                assert(body(r) + Seq::<Seq<u8>>::empty() =~= body(r));
            } else {
                assert(rest =~= r);
            }
            assert(r.take(end - from) =~= p.subrange(from, end));
            if end < to {
                assert(r[end - from] == p[end]);
            }
            lemma_no_head(r, end - from);
        }
    }
}

// ---------------------------------------------------------------------------------------------
// Operations
// ---------------------------------------------------------------------------------------------

/// The bytes of `bytes` from `from` up to `to`.
fn bytes_between(bytes: &Vec<u8>, from: usize, to: usize) -> (res: Vec<u8>)
    requires
        from <= to <= bytes@.len(),
    ensures
        res@ == bytes@.subrange(from as int, to as int),
{
    let mut out: Vec<u8> = Vec::new();
    let mut i: usize = from;
    while i < to
        invariant
            from <= i <= to <= bytes@.len(),
            out@ == bytes@.subrange(from as int, i as int),
        decreases to - i,
    {
        out.push(bytes[i]);
        assert(out@ =~= bytes@.subrange(from as int, i + 1));
        i = i + 1;
    }
    out
}

/// Whether two stretches of bytes are the same.
fn same_bytes(
    a: &Vec<u8>,
    a_from: usize,
    a_to: usize,
    b: &Vec<u8>,
    b_from: usize,
    b_to: usize,
) -> (res: bool)
    requires
        a_from <= a_to <= a@.len(),
        b_from <= b_to <= b@.len(),
    ensures
        res == (a@.subrange(a_from as int, a_to as int) == b@.subrange(b_from as int, b_to as int)),
{
    let ghost left = a@.subrange(a_from as int, a_to as int);
    let ghost right = b@.subrange(b_from as int, b_to as int);
    if a_to - a_from != b_to - b_from {
        assert(left.len() != right.len());
        return false;
    }
    let mut i: usize = 0;
    while i < a_to - a_from
        invariant
            a_from <= a_to <= a@.len(),
            b_from <= b_to <= b@.len(),
            a_to - a_from == b_to - b_from,
            i <= a_to - a_from,
            left == a@.subrange(a_from as int, a_to as int),
            right == b@.subrange(b_from as int, b_to as int),
            forall|j: int| 0 <= j < i ==> left[j] == right[j],
        decreases a_to - a_from - i,
    {
        if a[a_from + i] != b[b_from + i] {
            assert(left[i as int] != right[i as int]);
            return false;
        }
        i = i + 1;
    }
    assert(left =~= right);
    true
}

/// The spans as integers without bounds.
pub open spec fn as_ints(v: Seq<(usize, usize)>) -> Seq<(int, int)> {
    v.map_values(|s: (usize, usize)| (s.0 as int, s.1 as int))
}

impl Clone for FsPath {
    fn clone(&self) -> (res: Self)
        ensures
            res@ == self@,
    {
        FsPath { bytes: bytes_between(&self.bytes, 0, self.bytes.len()) }
    }
}

impl FsPath {
    /// The path with these bytes.
    pub fn from_bytes(bytes: Vec<u8>) -> (res: FsPath)
        ensures
            res@ == bytes@,
    {
        FsPath { bytes }
    }

    /// The path with this name.
    pub fn from_text(name: &str) -> (res: FsPath)
        ensures
            res@ == encode_utf8(name@),
    {
        FsPath { bytes: name.as_bytes_vec() }
    }

    /// The path as text for a reader, or for an argument of a tool.
    pub fn display(&self) -> (res: String)
        ensures
            res@ == shown(self@),
            forall|c: char|
                (c as u32) < 128 && #[trigger] res@.contains(c) ==> self@.contains(c as u8),
    {
        text_lossy(self.bytes.as_slice())
    }

    /// Whether the two paths have the same bytes.
    pub fn same_name(&self, other: &FsPath) -> (res: bool)
        ensures
            res == (self@ == other@),
    {
        assert(self@.subrange(0, self@.len() as int) =~= self@);
        assert(other@.subrange(0, other@.len() as int) =~= other@);
        same_bytes(&self.bytes, 0, self.bytes.len(), &other.bytes, 0, other.bytes.len())
    }

    /// Whether the path begins at the root.
    pub fn is_absolute(&self) -> (res: bool)
        ensures
            res == absolute(self@),
    {
        self.bytes.len() > 0 && self.bytes[0] == SLASH
    }

    /// Whether the path is empty.
    pub fn is_empty(&self) -> (res: bool)
        ensures
            res == (self@.len() == 0),
    {
        self.bytes.len() == 0
    }

    /// Where the path's components begin and end.
    fn spans(&self) -> (res: Vec<(usize, usize)>)
        ensures
            as_ints(res@) == spans(self@),
    {
        let ghost p = self@;
        let mut out: Vec<(usize, usize)> = Vec::new();
        let mut at: usize = 0;
        let n: usize = self.bytes.len();
        let mut to: usize = 0;
        while to < n && self.bytes[to] != SLASH
            invariant
                to <= n == self.bytes@.len(),
                p == self@,
                forall|j: int| 0 <= j < to ==> p[j] != SLASH,
            decreases n - to,
        {
            to = to + 1;
        }
        proof {
            lemma_find_is(p, SLASH, to as int);
            assert(split(p, SLASH)[0] =~= p.take(to as int));
        }
        let current: bool = to == 1 && self.bytes[0] == DOT;
        proof {
            if current {
                assert(p.take(1) =~= seq![DOT]);
            } else if p.take(to as int) == seq![DOT] {
                assert(p.take(to as int).len() == 1);
                assert(p.take(to as int)[0] == p[0]);
            }
        }
        if self.is_absolute() || current {
            out.push((0, 1));
        }
        let mut done: bool = false;
        proof {
            assert(as_ints(out@) + body_spans(p, 0) =~= spans(p));
        }
        while !done
            invariant
                p == self@,
                n == self.bytes@.len(),
                !done ==> at <= n && as_ints(out@) + body_spans(p, at as int) == spans(p),
                done ==> as_ints(out@) == spans(p),
            decreases (if done { 0int } else { n - at + 1 }),
        {
            let mut to: usize = at;
            while to < n && self.bytes[to] != SLASH
                invariant
                    at <= to <= n == self.bytes@.len(),
                    p == self@,
                    forall|j: int| at <= j < to ==> p[j] != SLASH,
                decreases n - to,
            {
                to = to + 1;
            }
            proof {
                lemma_find_is(p.skip(at as int), SLASH, to - at);
            }
            let ghost piece = p.subrange(at as int, to as int);
            let skip: bool = to == at || (to == at + 1 && self.bytes[at] == DOT);
            proof {
                if to == at + 1 {
                    assert(piece =~= seq![p[at as int]]);
                    assert(seq![DOT][0] == DOT);
                    assert(piece[0] == p[at as int]);
                }
                assert(skip == trivial(piece));
            }
            let ghost before = as_ints(out@);
            if !skip {
                out.push((at, to));
                assert(as_ints(out@) =~= before.push((at as int, to as int)));
            }
            let ghost rest = if to < n {
                body_spans(p, to + 1)
            } else {
                seq![]
            };
            assert(before + body_spans(p, at as int) =~= as_ints(out@) + rest);
            if to < n {
                at = to + 1;
            } else {
                assert(as_ints(out@) + rest =~= as_ints(out@));
                done = true;
            }
        }
        out
    }

    /// Whether the components of this path begin with those of `base`.
    pub fn starts_with(&self, base: &FsPath) -> (res: bool)
        ensures
            res == starts_with(self@, base@),
    {
        let mine = self.spans();
        let theirs = base.spans();
        proof {
            lemma_spans(self@);
            lemma_spans(base@);
        }
        if theirs.len() > mine.len() {
            return false;
        }
        let mut i: usize = 0;
        while i < theirs.len()
            invariant
                as_ints(mine@) == spans(self@),
                as_ints(theirs@) == spans(base@),
                spans(self@).len() == components(self@).len(),
                spans(base@).len() == components(base@).len(),
                forall|k: int|
                    #![trigger spans(self@)[k]]
                    0 <= k < spans(self@).len() ==> {
                        let (from, to) = spans(self@)[k];
                        &&& 0 <= from < to <= self@.len()
                        &&& components(self@)[k] == self@.subrange(from, to)
                    },
                forall|k: int|
                    #![trigger spans(base@)[k]]
                    0 <= k < spans(base@).len() ==> {
                        let (from, to) = spans(base@)[k];
                        &&& 0 <= from < to <= base@.len()
                        &&& components(base@)[k] == base@.subrange(from, to)
                    },
                theirs@.len() <= mine@.len(),
                i <= theirs@.len(),
                forall|j: int| 0 <= j < i ==> components(self@)[j] == components(base@)[j],
            decreases theirs@.len() - i,
        {
            let (from, to) = mine[i];
            let (base_from, base_to) = theirs[i];
            assert(as_ints(mine@)[i as int] == (from as int, to as int));
            assert(as_ints(theirs@)[i as int] == (base_from as int, base_to as int));
            if !same_bytes(&self.bytes, from, to, &base.bytes, base_from, base_to) {
                assert(components(self@)[i as int] != components(base@)[i as int]);
                return false;
            }
            i = i + 1;
        }
        assert(components(base@) =~= components(self@).take(components(base@).len() as int));
        true
    }

    /// Whether the two paths have the same components.
    pub fn same(&self, other: &FsPath) -> (res: bool)
        ensures
            res == same_path(self@, other@),
    {
        let forth = self.starts_with(other);
        let back = other.starts_with(self);
        proof {
            let a = components(self@);
            let b = components(other@);
            if forth && back {
                assert(a =~= b);
            }
            if a == b {
                assert(a.take(a.len() as int) =~= a);
            }
        }
        forth && back
    }

    /// `other` taken as a path within this one.
    pub fn join(&self, other: &FsPath) -> (res: FsPath)
        ensures
            res@ == joined(self@, other@),
    {
        if other.is_absolute() {
            return other.clone();
        }
        let mut bytes = bytes_between(&self.bytes, 0, self.bytes.len());
        if bytes.len() > 0 && bytes[bytes.len() - 1] != SLASH {
            bytes.push(SLASH);
        }
        let mut rest = bytes_between(&other.bytes, 0, other.bytes.len());
        bytes.append(&mut rest);
        assert(bytes@ =~= joined(self@, other@));
        FsPath { bytes }
    }

    /// `name` taken as a path within this one.
    pub fn join_name(&self, name: &str) -> (res: FsPath)
        ensures
            res@ == joined(self@, encode_utf8(name@)),
    {
        self.join(&FsPath::from_text(name))
    }

    /// The path without its last component.
    pub fn parent(&self) -> (res: Option<FsPath>)
        ensures
            match res {
                Some(dir) => parent(self@) == Some(dir@),
                None => parent(self@) is None,
            },
    {
        let marks = self.spans();
        proof {
            lemma_spans(self@);
        }
        let n: usize = marks.len();
        if n == 0 {
            return None;
        }
        let (from, to) = marks[n - 1];
        proof {
            assert(as_ints(marks@)[n - 1] == (from as int, to as int));
            let last = components(self@).last();
            assert(last == self@.subrange(from as int, to as int));
            if to == from + 1 && self@[from as int] == SLASH {
                assert(last =~= seq![SLASH]);
            } else if last == seq![SLASH] {
                assert(last.len() == 1);
                assert(last[0] == self@[from as int]);
            }
        }
        if to == from + 1 && self.bytes[from] == SLASH {
            return None;
        }
        if n == 1 {
            return Some(FsPath { bytes: Vec::new() });
        }
        let (before_from, before_to) = marks[n - 2];
        proof {
            assert(as_ints(marks@)[n - 2] == (before_from as int, before_to as int));
            assert(self@.subrange(0, before_to as int) =~= self@.take(before_to as int));
        }
        Some(FsPath { bytes: bytes_between(&self.bytes, 0, before_to) })
    }

    /// The parent of the path, or the empty path where it has none.
    pub fn parent_or_empty(&self) -> (res: FsPath)
        ensures
            res@ == parent_or_empty(self@),
    {
        match self.parent() {
            Some(dir) => dir,
            None => {
                let res = FsPath { bytes: Vec::new() };
                assert(res@ =~= seq![]);
                res
            },
        }
    }

    /// The last component, where it is a name.
    pub fn file_name(&self) -> (res: Option<FsPath>)
        ensures
            match res {
                Some(name) => file_name(self@) == Some(name@),
                None => file_name(self@) is None,
            },
    {
        let marks = self.spans();
        proof {
            lemma_spans(self@);
        }
        let n: usize = marks.len();
        if n == 0 {
            return None;
        }
        let (from, to) = marks[n - 1];
        assert(as_ints(marks@)[n - 1] == (from as int, to as int));
        let last = bytes_between(&self.bytes, from, to);
        let plain: bool = !(last.len() == 1 && (last[0] == SLASH || last[0] == DOT)) && !(last.len()
            == 2 && last[0] == DOT && last[1] == DOT);
        proof {
            assert(last@ == components(self@).last());
            if last@.len() == 1 {
                assert(last@ =~= seq![last@[0]]);
            }
            if last@.len() == 2 {
                assert(last@ =~= seq![last@[0], last@[1]]);
            }
            assert(seq![SLASH][0] == SLASH && seq![DOT][0] == DOT);
            assert(seq![DOT, DOT][0] == DOT && seq![DOT, DOT][1] == DOT);
            assert(plain == is_name(last@));
        }
        if plain {
            Some(FsPath { bytes: last })
        } else {
            None
        }
    }

    /// What follows the components of `base`, where this path begins with them.
    pub fn strip_prefix(&self, base: &FsPath) -> (res: Option<FsPath>)
        ensures
            match res {
                Some(rest) => stripped(self@, base@) == Some(rest@),
                None => stripped(self@, base@) is None,
            },
    {
        if !self.starts_with(base) {
            return None;
        }
        let mine = self.spans();
        let theirs = base.spans();
        proof {
            lemma_spans(self@);
            lemma_spans(base@);
        }
        if mine.len() == theirs.len() {
            return Some(FsPath { bytes: Vec::new() });
        }
        let (from, _) = mine[theirs.len()];
        let (last_from, to) = mine[mine.len() - 1];
        proof {
            assert(as_ints(mine@)[theirs@.len() as int].0 == from as int);
            assert(as_ints(mine@)[mine@.len() - 1] == (last_from as int, to as int));
        }
        Some(FsPath { bytes: bytes_between(&self.bytes, from, to) })
    }
}

// ---------------------------------------------------------------------------------------------
// What a path is made of
// ---------------------------------------------------------------------------------------------

/// The components of a path are what stands between its slashes, without what is empty or a single
/// dot; a slash at its start is a component of its own, and so is a single dot there.
pub proof fn components_stand_between_slashes(a: Seq<u8>, b: Seq<u8>, name: Seq<u8>)
    requires
        !name.contains(47u8),
        name.len() > 0,
        name != seq![46u8],
    ensures
        components(Seq::<u8>::empty()) == Seq::<Seq<u8>>::empty(),
        components(name) == seq![name],
        components(seq![47u8]) == seq![seq![47u8]],
        components(seq![46u8]) == seq![seq![46u8]],
        components(seq![47u8] + name) == seq![seq![47u8], name],
        a.len() > 0 ==> components(a + seq![47u8]) == components(a),
        a.len() > 0 ==> components(a + seq![47u8] + name) == components(a).push(name),
        a.len() > 0 ==> components(a + seq![47u8] + seq![46u8]) == components(a),
        a.len() > 0 ==> components(a + seq![47u8] + (seq![47u8] + b)) == components(
            a + seq![47u8] + b,
        ),
{
    lemma_components_small();
    lemma_body_of_name(name);
    assert(name.take(name.len() as int) =~= name);
    lemma_no_head(name, name.len() as int);
    let none = Seq::<u8>::empty();
    let dot = seq![DOT];
    lemma_body_empty();
    assert(!dot.contains(SLASH));
    lemma_split_whole(dot, SLASH);
    assert(split(dot, SLASH) =~= seq![dot]);
    assert(body(dot) =~= Seq::<Seq<u8>>::empty()) by {
        assert(components(dot) == head(dot) + body(dot));
        assert(split(dot, SLASH)[0] == dot);
    }
    // A slash, then a name.
    assert(seq![SLASH] + name =~= none + seq![SLASH] + name);
    lemma_body_concat(none, name);
    assert(components(seq![SLASH] + name) =~= seq![seq![SLASH], name]);
    if a.len() > 0 {
        let n = a.len() as int;
        let whole = a + seq![SLASH] + b;
        assert(a + seq![SLASH] =~= a + seq![SLASH] + none);
        lemma_body_concat(a, none);
        lemma_head_before_slash(a + seq![SLASH] + none, n);
        assert((a + seq![SLASH] + none).take(n) =~= a);
        assert(components(a + seq![SLASH]) =~= components(a));
        lemma_body_concat(a, name);
        lemma_head_before_slash(a + seq![SLASH] + name, n);
        assert((a + seq![SLASH] + name).take(n) =~= a);
        assert(components(a + seq![SLASH] + name) =~= components(a).push(name));
        lemma_body_concat(a, dot);
        lemma_head_before_slash(a + seq![SLASH] + dot, n);
        assert((a + seq![SLASH] + dot).take(n) =~= a);
        assert(components(a + seq![SLASH] + dot) =~= components(a));
        let double = a + seq![SLASH] + (seq![SLASH] + b);
        assert(seq![SLASH] + b =~= none + seq![SLASH] + b);
        lemma_body_concat(none, b);
        lemma_body_concat(a, seq![SLASH] + b);
        lemma_body_concat(a, b);
        lemma_head_before_slash(double, n);
        lemma_head_before_slash(whole, n);
        assert(double.take(n) =~= a);
        assert(whole.take(n) =~= a);
        assert(components(double) =~= components(whole));
    }
}

/// A path is absolute where it begins with a slash.
pub proof fn absolute_begins_with_a_slash(p: Seq<u8>)
    ensures
        absolute(p) <==> p.len() > 0 && p[0] == 47u8,
{
}

/// A path within another: the slash between them is put in where it lacks, and an absolute path
/// stands for itself.
pub proof fn joining_puts_a_slash_between(a: Seq<u8>, b: Seq<u8>)
    ensures
        b.len() > 0 && b[0] == 47u8 ==> joined(a, b) == b,
        !(b.len() > 0 && b[0] == 47u8) && a.len() > 0 && a.last() != 47u8 ==> joined(a, b) == a
            + seq![47u8] + b,
        !(b.len() > 0 && b[0] == 47u8) && (a.len() == 0 || a.last() == 47u8) ==> joined(a, b) == a
            + b,
{
}

/// The last component is a name unless it is the root, or one or two dots.
pub proof fn file_name_is_the_last_component(p: Seq<u8>)
    ensures
        file_name(p) matches Some(name) ==> components(p).len() > 0 && name == components(
            p,
        ).last() && name != seq![47u8] && name != seq![46u8] && name != seq![46u8, 46u8],
        file_name(p) is None ==> components(p).len() == 0 || components(p).last() == seq![47u8]
            || components(p).last() == seq![46u8] || components(p).last() == seq![46u8, 46u8],
{
}

/// The parent is the start of the path, up to the end of the component before the last; only the root
/// and the empty path have none.
pub proof fn parent_is_all_but_the_last(p: Seq<u8>)
    ensures
        parent(p) is None <==> components(p).len() == 0 || components(p).last() == seq![47u8],
        parent(p) matches Some(dir) ==> dir.is_prefix_of(p) && components(dir) == components(
            p,
        ).drop_last() && (dir.len() > 1 ==> dir.last() != 47u8),
{
    lemma_parent(p);
    lemma_spans(p);
    let n = components(p).len() as int;
    if parent(p) is Some && n >= 2 {
        let dir = parent(p)->0;
        let (from, to) = spans(p)[n - 2];
        assert(dir =~= p.take(to));
        assert(dir =~= p.subrange(0, dir.len() as int));
        if dir.len() > 1 && dir.last() == SLASH {
            let piece = components(p)[n - 2];
            assert(piece == p.subrange(from, to));
            assert(piece.last() == SLASH);
            assert(piece.contains(piece.last()));
            lemma_body_pieces(p);
            if head(p).len() > 0 && n == 2 {
                assert(spans(p)[0] == (0int, 1int));
            } else {
                let k = n - 2 - head(p).len();
                assert(body(p)[k] == piece);
            }
        }
    }
}

/// Beginning with a path and being the same path go by the components alone.
pub proof fn paths_go_by_components(p: Seq<u8>, base: Seq<u8>)
    ensures
        same_path(p, base) <==> components(p) == components(base),
        starts_with(p, base) <==> components(base).len() <= components(p).len() && forall|i: int|
            0 <= i < components(base).len() ==> components(p)[i] == #[trigger] components(base)[i],
{
    if components(base).len() <= components(p).len() && forall|i: int|
        0 <= i < components(base).len() ==> components(p)[i] == #[trigger] components(base)[i] {
        assert(components(base) =~= components(p).subrange(0, components(base).len() as int));
    }
}

/// What is stripped from a path is what it begins with: the rest has the other components, stands in
/// the path as it is, and there is a rest exactly where the path begins with what is stripped.
pub proof fn stripping_leaves_the_rest(p: Seq<u8>, base: Seq<u8>)
    requires
        base.len() > 0,
    ensures
        stripped(p, base) is Some <==> starts_with(p, base),
        stripped(p, base) matches Some(rest) ==> components(rest) == components(p).skip(
            components(base).len() as int,
        ) && (exists|i: int, j: int| 0 <= i <= j <= p.len() && rest == #[trigger] p.subrange(i, j)),
{
    lemma_components_nonempty(base);
    lemma_stripped(p, base);
    lemma_spans(p);
    let n = components(p).len() as int;
    let k = components(base).len() as int;
    if stripped(p, base) is Some {
        if k == n {
            assert(p.subrange(0, 0) =~= seq![]);
        } else {
            let i = spans(p)[k].0;
            let j = spans(p)[n - 1].1;
            assert(stripped(p, base)->0 == p.subrange(i, j));
            assert(0 <= i <= j <= p.len());
        }
    }
}

} // verus!
