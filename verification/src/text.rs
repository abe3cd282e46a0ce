//! Text as sequences of characters: reading a string's characters and cutting
//! a text at a separator.

use vstd::prelude::*;

verus! {

/// The index of the first `sep` in `s`, or the length of `s` where there is none.
pub open spec fn position(s: Seq<char>, sep: char) -> int
    decreases s.len(),
{
    if s.len() == 0 || s[0] == sep {
        0
    } else {
        1 + position(s.drop_first(), sep)
    }
}

/// The pieces of `s` between its separators: one more than there are separators,
/// empty pieces included.
pub open spec fn split(s: Seq<char>, sep: char) -> Seq<Seq<char>>
    decreases s.len(),
    via split_decreases
{
    let at = position(s, sep);
    if at >= s.len() {
        seq![s]
    } else {
        seq![s.take(at)] + split(s.skip(at + 1), sep)
    }
}

#[via_fn]
proof fn split_decreases(s: Seq<char>, sep: char) {
    lemma_position_bounds(s, sep);
}

/// `position` lies within the text, no separator stands before it, and one
/// stands at it unless it is the length.
pub proof fn lemma_position_bounds(s: Seq<char>, sep: char)
    ensures
        0 <= position(s, sep) <= s.len(),
        forall|k: int| 0 <= k < position(s, sep) ==> s[k] != sep,
        position(s, sep) < s.len() ==> s[position(s, sep)] == sep,
    decreases s.len(),
{
    if s.len() == 0 || s[0] == sep {
    } else {
        let rest = s.drop_first();
        lemma_position_bounds(rest, sep);
        assert forall|k: int| 0 <= k < position(s, sep) implies s[k] != sep by {
            if k > 0 {
                assert(s[k] == rest[k - 1]);
            }
        }
        if position(s, sep) < s.len() {
            assert(s[position(s, sep)] == rest[position(rest, sep)]);
        }
    }
}

/// An index with no separator before it, and one at it or the end of the text
/// there, is the `position`.
pub proof fn lemma_position_is(s: Seq<char>, sep: char, at: int)
    requires
        0 <= at <= s.len(),
        forall|k: int| 0 <= k < at ==> s[k] != sep,
        at < s.len() ==> s[at] == sep,
    ensures
        position(s, sep) == at,
{
    lemma_position_bounds(s, sep);
    let p = position(s, sep);
    if p < at {
        assert(s[p] != sep);
    } else if p > at {
        assert(s[at] != sep);
    }
}

/// Cutting a text that was joined with one separator gives the pieces of the
/// left part, then those of the right part.
pub proof fn lemma_split_joined(a: Seq<char>, b: Seq<char>, sep: char)
    ensures
        split(a + seq![sep] + b, sep) == split(a, sep) + split(b, sep),
    decreases a.len(),
{
    let joined = a + seq![sep] + b;
    lemma_position_bounds(a, sep);
    let at = position(a, sep);
    assert forall|k: int| 0 <= k < at implies joined[k] != sep by {
        assert(joined[k] == a[k]);
    }
    if at < a.len() {
        assert(joined[at] == a[at]);
        lemma_position_is(joined, sep, at);
        assert(joined.take(at) =~= a.take(at));
        assert(joined.skip(at + 1) =~= a.skip(at + 1) + seq![sep] + b);
        lemma_split_joined(a.skip(at + 1), b, sep);
        assert(split(joined, sep) == seq![a.take(at)] + (split(a.skip(at + 1), sep) + split(
            b,
            sep,
        )));
        assert(seq![a.take(at)] + (split(a.skip(at + 1), sep) + split(b, sep)) =~= (seq![
            a.take(at),
        ] + split(a.skip(at + 1), sep)) + split(b, sep));
    } else {
        assert(joined[at] == sep);
        lemma_position_is(joined, sep, at);
        assert(joined.take(at) =~= a);
        assert(joined.skip(at + 1) =~= b);
    }
}

/// A text is cut into at least one piece.
pub proof fn lemma_split_nonempty(s: Seq<char>, sep: char)
    ensures
        split(s, sep).len() >= 1,
{
    lemma_position_bounds(s, sep);
}

/// The characters of `s`, in order.
pub fn characters(s: &str) -> (out: Vec<char>)
    ensures
        out@ == s@,
{
    let mut out: Vec<char> = Vec::new();
    for c in it: s.chars()
        invariant
            out@ == it.seq().take(it.index() as int),
            it.seq() == s@,
    {
        out.push(c);
    }
    out
}

/// Whether `ranges` lie in a text of the length `length` one behind the
/// other, with one character between each and the next: the first begins
/// at the start of the text and the last ends at its end.
pub open spec fn chained(ranges: Seq<(usize, usize)>, length: nat) -> bool {
    &&& ranges.len() > 0
    &&& ranges[0].0 == 0
    &&& ranges.last().1 == length
    &&& forall|i: int|
        #![trigger ranges[i]]
        0 <= i < ranges.len() - 1 ==> ranges[i + 1].0 == ranges[i].1 + 1
}

/// Where each piece of `split` starts and ends in the text.
pub fn split_ranges(s: &Vec<char>, sep: char) -> (ranges: Vec<(usize, usize)>)
    ensures
        ranges@.len() == split(s@, sep).len(),
        chained(ranges@, s@.len()),
        forall|i: int|
            #![trigger ranges@[i]]
            0 <= i < ranges@.len() ==> {
                &&& ranges@[i].0 <= ranges@[i].1 <= s@.len()
                &&& split(s@, sep)[i] == s@.subrange(ranges@[i].0 as int, ranges@[i].1 as int)
            },
{
    let mut ranges: Vec<(usize, usize)> = Vec::new();
    let mut start: usize = 0;
    let ghost mut done: Seq<Seq<char>> = Seq::empty();
    proof {
        assert(s@.skip(0) =~= s@);
        assert(done + split(s@, sep) =~= split(s@, sep));
    }
    loop
        invariant_except_break
            split(s@, sep) == done + split(s@.skip(start as int), sep),
            ranges@.len() == 0 ==> start == 0,
            ranges@.len() > 0 ==> start == ranges@.last().1 + 1,
        invariant
            start <= s@.len(),
            done.len() == ranges@.len(),
            ranges@.len() > 0 ==> ranges@[0].0 == 0,
            forall|i: int|
                #![trigger ranges@[i]]
                0 <= i < ranges@.len() - 1 ==> ranges@[i + 1].0 == ranges@[i].1 + 1,
            forall|i: int|
                #![trigger ranges@[i]]
                0 <= i < ranges@.len() ==> {
                    &&& ranges@[i].0 <= ranges@[i].1 <= s@.len()
                    &&& done[i] == s@.subrange(ranges@[i].0 as int, ranges@[i].1 as int)
                },
        ensures
            ranges@.len() == split(s@, sep).len(),
            chained(ranges@, s@.len()),
            forall|i: int|
                #![trigger ranges@[i]]
                0 <= i < ranges@.len() ==> {
                    &&& ranges@[i].0 <= ranges@[i].1 <= s@.len()
                    &&& split(s@, sep)[i] == s@.subrange(ranges@[i].0 as int, ranges@[i].1 as int)
                },
        decreases s@.len() - start,
    {
        let mut end: usize = start;
        while end < s.len() && s[end] != sep
            invariant
                start <= end <= s@.len(),
                forall|k: int| start <= k < end ==> s@[k] != sep,
            decreases s@.len() - end,
        {
            end += 1;
        }
        let ghost rest = s@.skip(start as int);
        proof {
            assert forall|k: int| 0 <= k < end - start implies rest[k] != sep by {
                assert(rest[k] == s@[start + k]);
            }
            lemma_position_is(rest, sep, end - start);
            assert(rest.take(end - start) =~= s@.subrange(start as int, end as int));
        }
        ranges.push((start, end));
        if end == s.len() {
            proof {
                assert(rest.take(end - start) =~= rest);
                done = done.push(rest);
                assert(split(s@, sep) =~= done);
            }
            break ;
        }
        proof {
            assert(rest.skip(end - start + 1) =~= s@.skip(end + 1));
            assert(done + (seq![rest.take(end - start)] + split(s@.skip(end + 1), sep)) =~= done.push(
                rest.take(end - start),
            ) + split(s@.skip(end + 1), sep));
            done = done.push(rest.take(end - start));
        }
        start = end + 1;
    }
    ranges
}


/// The texts of a sequence of strings.
pub open spec fn texts(strings: Seq<String>) -> Seq<Seq<char>> {
    Seq::new(strings.len(), |i: int| strings[i]@)
}

/// Whether two strings hold the same text.
pub fn same_text(a: &str, b: &str) -> (same: bool)
    ensures
        same == (a@ == b@),
{
    let ca = characters(a);
    let cb = characters(b);
    if ca.len() != cb.len() {
        return false;
    }
    let mut k: usize = 0;
    while k < ca.len()
        invariant
            k <= ca@.len(),
            ca@.len() == cb@.len(),
            ca@ == a@,
            cb@ == b@,
            forall|j: int| 0 <= j < k ==> ca@[j] == cb@[j],
        decreases ca@.len() - k,
    {
        if ca[k] != cb[k] {
            assert(a@[k as int] != b@[k as int]);
            return false;
        }
        k += 1;
    }
    assert(ca@ =~= cb@);
    true
}


/// Whether `needle` stands in `haystack` at the index `at`.
pub open spec fn occurs_at(haystack: Seq<char>, needle: Seq<char>, at: int) -> bool {
    0 <= at && at + needle.len() <= haystack.len() && haystack.subrange(
        at,
        at + needle.len(),
    ) == needle
}

/// Whether `needle` stands somewhere in `haystack`.
pub open spec fn contains_text(haystack: Seq<char>, needle: Seq<char>) -> bool {
    exists|at: int| occurs_at(haystack, needle, at)
}

/// Whether `needle` stands in `haystack` at the index `at`.
fn stands_at(haystack: &Vec<char>, needle: &Vec<char>, at: usize) -> (found: bool)
    requires
        at + needle@.len() <= haystack@.len(),
    ensures
        found == occurs_at(haystack@, needle@, at as int),
{
    let ghost part = haystack@.subrange(at as int, at + needle@.len());
    let size = haystack.len();
    let mut k: usize = 0;
    while k < needle.len()
        invariant
            k <= needle@.len(),
            at + needle@.len() <= haystack@.len() == size,
            part == haystack@.subrange(at as int, at + needle@.len()),
            forall|j: int| 0 <= j < k ==> part[j] == needle@[j],
        decreases needle@.len() - k,
    {
        if haystack[at + k] != needle[k] {
            assert(part[k as int] != needle@[k as int]);
            return false;
        }
        k += 1;
    }
    assert(part =~= needle@);
    true
}

/// Whether `needle` stands somewhere in `haystack`.
pub fn contains(haystack: &str, needle: &str) -> (found: bool)
    ensures
        found == contains_text(haystack@, needle@),
{
    let h = characters(haystack);
    let n = characters(needle);
    if n.len() > h.len() {
        return false;
    }
    let last = h.len() - n.len();
    let mut at: usize = 0;
    loop
        invariant
            at <= last,
            last + n@.len() == h@.len(),
            h@ == haystack@,
            n@ == needle@,
            forall|k: int| 0 <= k < at ==> !occurs_at(haystack@, needle@, k),
        decreases last - at,
    {
        if stands_at(&h, &n, at) {
            return true;
        }
        if at == last {
            return false;
        }
        at += 1;
    }
}


/// What tells every character but `gone`.
pub open spec fn other_than(gone: char) -> spec_fn(char) -> bool {
    |c: char| c != gone
}

/// The text without the character `gone`.
pub open spec fn without(text: Seq<char>, gone: char) -> Seq<char> {
    text.filter(other_than(gone))
}

/// The text of `text` without the character `gone`.
pub fn remove(text: &str, gone: char) -> (out: String)
    ensures
        out@ == without(text@, gone),
{
    let chars = characters(text);
    let mut out = String::new();
    let mut start: usize = 0;
    let mut index: usize = 0;
    let ghost keep = other_than(gone);
    proof {
        reveal(Seq::filter);
        assert(text@.take(0) =~= Seq::<char>::empty());
        assert(out@ + text@.subrange(0, 0) =~= text@.take(0).filter(keep));
    }
    while index < chars.len()
        invariant
            start <= index <= chars@.len(),
            chars@ == text@,
            keep == other_than(gone),
            out@ + text@.subrange(start as int, index as int) == text@.take(index as int).filter(
                keep,
            ),
        decreases chars@.len() - index,
    {
        proof {
            assert(text@.take(index + 1) =~= text@.take(index as int).push(text@[index as int]));
            text@.take(index as int).lemma_filter_push(text@[index as int], keep);
        }
        if chars[index] == gone {
            out.append(text.substring_char(start, index));
            start = index + 1;
            assert(text@.subrange(start as int, index + 1) =~= Seq::<char>::empty());
            assert(out@ + text@.subrange(start as int, index + 1) =~= out@);
        } else {
            assert(text@.subrange(start as int, index + 1) =~= text@.subrange(
                start as int,
                index as int,
            ).push(text@[index as int]));
            assert(out@ + text@.subrange(start as int, index as int).push(text@[index as int])
                =~= (out@ + text@.subrange(start as int, index as int)).push(text@[index as int]));
        }
        index += 1;
    }
    out.append(text.substring_char(start, index));
    proof {
        assert(text@.take(index as int) =~= text@);
    }
    out
}

/// Whether the character `wanted` stands in `text`.
pub fn holds(text: &str, wanted: char) -> (found: bool)
    ensures
        found == text@.contains(wanted),
{
    let chars = characters(text);
    let mut index: usize = 0;
    while index < chars.len()
        invariant
            index <= chars@.len(),
            chars@ == text@,
            forall|i: int| 0 <= i < index ==> text@[i] != wanted,
        decreases chars@.len() - index,
    {
        if chars[index] == wanted {
            assert(text@[index as int] == wanted);
            return true;
        }
        index += 1;
    }
    false
}

} // verus!

