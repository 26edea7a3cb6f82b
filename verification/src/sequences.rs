//! Splitting and joining of sequences.
use vstd::prelude::*;

verus! {

/// The index of the first `x` in `s`, or `s.len()` where there is none.
pub open spec fn find<T>(s: Seq<T>, x: T) -> nat
    decreases s.len(),
{
    if s.len() == 0 {
        0
    } else if s[0] == x {
        0
    } else {
        1 + find(s.drop_first(), x)
    }
}

/// The pieces of `s` between the separators, empty ones included.
pub open spec fn split<T>(s: Seq<T>, sep: T) -> Seq<Seq<T>>
    decreases s.len(),
{
    let i = find(s, sep) as int;
    if i >= s.len() {
        seq![s]
    } else {
        seq![s.take(i)] + split(s.skip(i + 1), sep)
    }
}

/// `parts` one after the other, with `sep` between neighbours.
pub open spec fn join<T>(parts: Seq<Seq<T>>, sep: Seq<T>) -> Seq<T>
    decreases parts.len(),
{
    if parts.len() == 0 {
        seq![]
    } else if parts.len() == 1 {
        parts[0]
    } else {
        join(parts.drop_last(), sep) + sep + parts.last()
    }
}

/// `parts` one after the other.
pub open spec fn concat<T>(parts: Seq<Seq<T>>) -> Seq<T>
    decreases parts.len(),
{
    if parts.len() == 0 {
        seq![]
    } else {
        concat(parts.drop_last()) + parts.last()
    }
}

/// Whether `part` stands somewhere in `whole`, in one piece.
pub open spec fn occurs<T>(part: Seq<T>, whole: Seq<T>) -> bool {
    exists|i: int|
        0 <= i <= whole.len() - part.len() && #[trigger] whole.subrange(i, i + part.len()) == part
}

/// `find` gives the first place where `x` stands.
pub proof fn lemma_find<T>(s: Seq<T>, x: T)
    ensures
        find(s, x) <= s.len(),
        find(s, x) < s.len() ==> s[find(s, x) as int] == x,
        forall|i: int| 0 <= i < find(s, x) ==> s[i] != x,
    decreases s.len(),
{
    if s.len() > 0 && s[0] != x {
        lemma_find(s.drop_first(), x);
        assert forall|i: int| 0 <= i < find(s, x) implies s[i] != x by {
            if i > 0 {
                assert(s[i] == s.drop_first()[i - 1]);
            }
        }
    }
}

/// A place with `x` in it, and none before it, is the one that `find` gives.
pub proof fn lemma_find_is<T>(s: Seq<T>, x: T, i: int)
    requires
        0 <= i <= s.len(),
        i < s.len() ==> s[i] == x,
        forall|j: int| 0 <= j < i ==> s[j] != x,
    ensures
        find(s, x) == i,
{
    lemma_find(s, x);
}

/// Splitting at a separator splits both sides.
pub proof fn lemma_split_concat<T>(a: Seq<T>, b: Seq<T>, sep: T)
    ensures
        split(a + seq![sep] + b, sep) == split(a, sep) + split(b, sep),
    decreases a.len(),
{
    let whole = a + seq![sep] + b;
    lemma_find(a, sep);
    let i = find(a, sep) as int;
    lemma_find_is(whole, sep, i);
    assert(whole.take(i) =~= a.take(i));
    if i >= a.len() {
        assert(whole.take(i) =~= a);
        assert(whole.skip(i + 1) =~= b);
    } else {
        assert(whole.skip(i + 1) =~= a.skip(i + 1) + seq![sep] + b);
        lemma_split_concat(a.skip(i + 1), b, sep);
        assert(split(whole, sep) =~= split(a, sep) + split(b, sep));
    }
}

/// What holds no separator is one piece.
pub proof fn lemma_split_whole<T>(s: Seq<T>, sep: T)
    requires
        !s.contains(sep),
    ensures
        split(s, sep) == seq![s],
{
    lemma_find(s, sep);
    if find(s, sep) < s.len() {
        assert(s.contains(s[find(s, sep) as int]));
    }
}

/// Joining puts the separator between the parts and nowhere else.
pub proof fn joining_separates<T>(parts: Seq<Seq<T>>, sep: Seq<T>, x: Seq<T>)
    ensures
        join(Seq::<Seq<T>>::empty(), sep) == Seq::<T>::empty(),
        join(seq![x], sep) == x,
        parts.len() > 0 ==> join(parts.push(x), sep) == join(parts, sep) + sep + x,
{
    reveal_with_fuel(join, 2);
    assert(parts.push(x).drop_last() =~= parts);
    assert(join(seq![x], sep) =~= x);
}

/// Putting sequences one after the other keeps each of them, in order.
pub proof fn concat_keeps_all<T>(parts: Seq<Seq<T>>, x: Seq<T>)
    ensures
        concat(Seq::<Seq<T>>::empty()) == Seq::<T>::empty(),
        concat(parts.push(x)) == concat(parts) + x,
{
    assert(parts.push(x).drop_last() =~= parts);
}

/// A part occurs in a whole exactly where the whole is something, the part, and something.
pub proof fn occurs_in_the_middle<T>(part: Seq<T>, whole: Seq<T>, before: Seq<T>, behind: Seq<T>)
    ensures
        occurs(part, before + part + behind),
        occurs(part, whole) ==> exists|i: int|
            0 <= i <= whole.len() - part.len() && whole == #[trigger] whole.take(i) + part
                + whole.skip(i + part.len()),
{
    let made = before + part + behind;
    let at = before.len() as int;
    assert(made.subrange(at, at + part.len()) =~= part);
    if occurs(part, whole) {
        let i = choose|i: int|
            0 <= i <= whole.len() - part.len() && #[trigger] whole.subrange(i, i + part.len())
                == part;
        assert(whole =~= whole.take(i) + part + whole.skip(i + part.len()));
    }
}

} // verus!
