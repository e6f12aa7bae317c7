//! Searching and splitting byte strings.

use vstd::prelude::*;

verus! {

/// `needle` occurs in `hay` at position `at`.
pub open spec fn occurs_at(hay: Seq<u8>, needle: Seq<u8>, at: int) -> bool {
    0 <= at && at + needle.len() <= hay.len() && hay.subrange(at, at + needle.len()) == needle
}

/// `needle` occurs somewhere in `hay`.
pub open spec fn contains_bytes(hay: Seq<u8>, needle: Seq<u8>) -> bool {
    exists|at: int| occurs_at(hay, needle, at)
}

/// `at` is the first position at which `needle` occurs in `hay`.
pub open spec fn first_occurrence(hay: Seq<u8>, needle: Seq<u8>, at: int) -> bool {
    occurs_at(hay, needle, at) && forall|earlier: int|
        0 <= earlier < at ==> !occurs_at(hay, needle, earlier)
}

/// Whether `needle` occurs in `hay` at position `at`.
pub fn matches_at(hay: &[u8], needle: &[u8], at: usize) -> (found: bool)
    ensures
        found == occurs_at(hay@, needle@, at as int),
{
    if needle.len() > hay.len() || at > hay.len() - needle.len() {
        return false;
    }
    let mut i: usize = 0;
    while i < needle.len()
        invariant
            i <= needle@.len(),
            at + needle@.len() <= hay@.len() <= usize::MAX,
            forall|k: int| 0 <= k < i ==> hay@[at + k] == needle@[k],
        decreases needle@.len() - i,
    {
        if hay[at + i] != needle[i] {
            assert(hay@.subrange(at as int, at + needle@.len())[i as int] == hay@[at + i]);
            return false;
        }
        i = i + 1;
    }
    assert(hay@.subrange(at as int, at + needle@.len()) =~= needle@);
    true
}

/// The first position at which `needle` occurs in `hay`, if there is one.
pub fn find_bytes(hay: &[u8], needle: &[u8]) -> (position: Option<usize>)
    ensures
        position is Some <==> contains_bytes(hay@, needle@),
        position matches Some(at) ==> first_occurrence(hay@, needle@, at as int),
{
    if needle.len() > hay.len() {
        assert(forall|at: int| !occurs_at(hay@, needle@, at));
        return None;
    }
    let last: usize = hay.len() - needle.len();
    let mut at: usize = 0;
    while at < last
        invariant
            at <= last,
            last == hay@.len() - needle@.len(),
            forall|earlier: int| 0 <= earlier < at ==> !occurs_at(hay@, needle@, earlier),
        decreases last - at,
    {
        if matches_at(hay, needle, at) {
            return Some(at);
        }
        at = at + 1;
    }
    if matches_at(hay, needle, at) {
        return Some(at);
    }
    assert(forall|p: int| !occurs_at(hay@, needle@, p));
    None
}

/// The part of `hay` from position `from` to its end.
pub fn tail_from(hay: &[u8], from: usize) -> (tail: Vec<u8>)
    requires
        from <= hay@.len(),
    ensures
        tail@ == hay@.subrange(from as int, hay@.len() as int),
{
    let mut tail: Vec<u8> = Vec::new();
    let mut i: usize = from;
    while i < hay.len()
        invariant
            from <= i <= hay@.len(),
            tail@ == hay@.subrange(from as int, i as int),
        decreases hay@.len() - i,
    {
        tail.push(hay[i]);
        i = i + 1;
    }
    tail
}

/// The fields of `text` that `separator` parts, in order: one more than the
/// separator occurs, each free of it, some possibly empty.
pub open spec fn split_spec(text: Seq<u8>, separator: u8) -> Seq<Seq<u8>>
    decreases text.len(),
{
    if text.len() == 0 {
        seq![Seq::<u8>::empty()]
    } else {
        let before = split_spec(text.drop_last(), separator);
        if text.last() == separator {
            before.push(Seq::<u8>::empty())
        } else {
            before.drop_last().push(before.last().push(text.last()))
        }
    }
}

/// The byte strings that a list of vectors holds, in order.
pub open spec fn field_views(fields: Seq<Vec<u8>>) -> Seq<Seq<u8>> {
    Seq::new(fields.len(), |i: int| fields[i]@)
}

/// Splits `text` at every occurrence of `separator`.
pub fn split_bytes(text: &[u8], separator: u8) -> (fields: Vec<Vec<u8>>)
    ensures
        field_views(fields@) == split_spec(text@, separator),
        fields@.len() >= 1,
{
    let mut done: Vec<Vec<u8>> = Vec::new();
    let mut current: Vec<u8> = Vec::new();
    let mut i: usize = 0;
    assert(text@.subrange(0, 0) =~= Seq::<u8>::empty());
    assert(field_views(done@).push(current@) =~= split_spec(text@.subrange(0, 0), separator));
    while i < text.len()
        invariant
            i <= text@.len(),
            field_views(done@).push(current@) == split_spec(text@.subrange(0, i as int), separator),
        decreases text@.len() - i,
    {
        let ghost prefix = text@.subrange(0, i as int);
        let ghost next = text@.subrange(0, i + 1);
        let ghost before = field_views(done@).push(current@);
        assert(next.drop_last() =~= prefix);
        assert(next.last() == text@[i as int]);
        if text[i] == separator {
            done.push(current);
            current = Vec::new();
            assert(field_views(done@) =~= before);
            assert(field_views(done@).push(current@) =~= before.push(Seq::<u8>::empty()));
        } else {
            current.push(text[i]);
            assert(before.drop_last() =~= field_views(done@));
            assert(field_views(done@).push(current@) =~= before.drop_last().push(
                before.last().push(text@[i as int]),
            ));
        }
        i = i + 1;
    }
    assert(text@.subrange(0, i as int) =~= text@);
    done.push(current);
    assert(field_views(done@) =~= split_spec(text@, separator));
    done
}

} // verus!
