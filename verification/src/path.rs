//! Local paths as text: what two spellings of one path have in common.
//!
//! A path is cut at `/`. Empty pieces say nothing (a doubled or a trailing
//! separator), and neither does a piece `.` unless the path begins with it.
//! Two texts name the same path when both are rooted or neither is and the
//! pieces that are left agree; `..` is a piece like any other.

use vstd::prelude::*;
use crate::text::{characters, lemma_split_joined, lemma_split_nonempty, split, split_ranges};

verus! {

/// The character between the components of a path.
pub const SEPARATOR: char = '/';

/// Whether the path starts at the root of the file system.
pub open spec fn is_rooted(path: Seq<char>) -> bool {
    path.len() > 0 && path[0] == SEPARATOR
}

/// Whether the piece at `index` counts as a component.
pub open spec fn counts(piece: Seq<char>, index: int) -> bool {
    piece.len() > 0 && (piece != seq!['.'] || index == 0)
}

/// The pieces of `pieces` that count, each judged at its index.
pub open spec fn select(pieces: Seq<Seq<char>>) -> Seq<Seq<char>>
    decreases pieces.len(),
{
    if pieces.len() == 0 {
        Seq::empty()
    } else if counts(pieces.last(), pieces.len() - 1) {
        select(pieces.drop_last()).push(pieces.last())
    } else {
        select(pieces.drop_last())
    }
}

/// The components of a path.
pub open spec fn components(path: Seq<char>) -> Seq<Seq<char>> {
    select(split(path, SEPARATOR))
}

/// Whether two texts name the same path.
pub open spec fn same_path_spec(a: Seq<char>, b: Seq<char>) -> bool {
    is_rooted(a) == is_rooted(b) && components(a) == components(b)
}

/// Whether `path` is `directory` or lies somewhere below it.
pub open spec fn is_within(directory: Seq<char>, path: Seq<char>) -> bool {
    is_rooted(directory) == is_rooted(path) && components(directory).is_prefix_of(
        components(path),
    )
}

/// The text of `directory`, a separator, and `rest`.
pub open spec fn joined(directory: Seq<char>, rest: Seq<char>) -> Seq<char> {
    directory + seq![SEPARATOR] + rest
}

/// Pieces that follow at least one other piece add their components behind
/// those of the pieces before them.
pub proof fn lemma_select_extends(front: Seq<Seq<char>>, back: Seq<Seq<char>>)
    requires
        front.len() >= 1,
    ensures
        select(front).is_prefix_of(select(front + back)),
    decreases back.len(),
{
    if back.len() == 0 {
        assert(front + back =~= front);
    } else {
        let all = front + back;
        assert(all.drop_last() =~= front + back.drop_last());
        lemma_select_extends(front, back.drop_last());
    }
}

/// What is written below a directory stays within it: the directory's
/// components come first in the joined path.
pub proof fn lemma_joined_is_within(directory: Seq<char>, rest: Seq<char>)
    requires
        directory.len() > 0,
    ensures
        is_within(directory, joined(directory, rest)),
{
    lemma_split_joined(directory, rest, SEPARATOR);
    lemma_split_nonempty(directory, SEPARATOR);
    lemma_select_extends(split(directory, SEPARATOR), split(rest, SEPARATOR));
    assert(joined(directory, rest)[0] == directory[0]);
}

/// Whether the text of `a` between `ra.0` and `ra.1` is that of `b` between
/// `rb.0` and `rb.1`.
fn same_piece(a: &Vec<char>, ra: (usize, usize), b: &Vec<char>, rb: (usize, usize)) -> (same: bool)
    requires
        ra.0 <= ra.1 <= a@.len(),
        rb.0 <= rb.1 <= b@.len(),
    ensures
        same == (a@.subrange(ra.0 as int, ra.1 as int) == b@.subrange(rb.0 as int, rb.1 as int)),
{
    let ghost pa = a@.subrange(ra.0 as int, ra.1 as int);
    let ghost pb = b@.subrange(rb.0 as int, rb.1 as int);
    if ra.1 - ra.0 != rb.1 - rb.0 {
        assert(pa.len() != pb.len());
        return false;
    }
    let n: usize = ra.1 - ra.0;
    let mut k: usize = 0;
    while k < n
        invariant
            k <= n,
            n == ra.1 - ra.0,
            n == rb.1 - rb.0,
            ra.1 <= a@.len(),
            rb.1 <= b@.len(),
            pa == a@.subrange(ra.0 as int, ra.1 as int),
            pb == b@.subrange(rb.0 as int, rb.1 as int),
            forall|j: int| 0 <= j < k ==> pa[j] == pb[j],
        decreases n - k,
    {
        if a[ra.0 + k] != b[rb.0 + k] {
            assert(pa[k as int] != pb[k as int]);
            return false;
        }
        k += 1;
    }
    assert(pa =~= pb);
    true
}

/// Where each component of the path starts and ends in its text.
fn component_ranges(path: &Vec<char>) -> (ranges: Vec<(usize, usize)>)
    ensures
        ranges@.len() == components(path@).len(),
        forall|i: int|
            #![trigger ranges@[i]]
            0 <= i < ranges@.len() ==> {
                &&& ranges@[i].0 <= ranges@[i].1 <= path@.len()
                &&& components(path@)[i] == path@.subrange(ranges@[i].0 as int, ranges@[i].1 as int)
            },
{
    let pieces = split_ranges(path, SEPARATOR);
    let ghost all = split(path@, SEPARATOR);
    let mut ranges: Vec<(usize, usize)> = Vec::new();
    let mut index: usize = 0;
    while index < pieces.len()
        invariant
            index <= pieces@.len(),
            pieces@.len() == all.len(),
            all == split(path@, SEPARATOR),
            forall|i: int|
                #![trigger pieces@[i]]
                0 <= i < pieces@.len() ==> {
                    &&& pieces@[i].0 <= pieces@[i].1 <= path@.len()
                    &&& all[i] == path@.subrange(pieces@[i].0 as int, pieces@[i].1 as int)
                },
            ranges@.len() == select(all.take(index as int)).len(),
            forall|i: int|
                #![trigger ranges@[i]]
                0 <= i < ranges@.len() ==> {
                    &&& ranges@[i].0 <= ranges@[i].1 <= path@.len()
                    &&& select(all.take(index as int))[i] == path@.subrange(
                        ranges@[i].0 as int,
                        ranges@[i].1 as int,
                    )
                },
        decreases pieces@.len() - index,
    {
        let (from, to) = pieces[index];
        let ghost piece = all[index as int];
        proof {
            assert(all.take(index + 1).drop_last() =~= all.take(index as int));
            assert(all.take(index + 1).last() == piece);
            assert(piece == path@.subrange(from as int, to as int));
        }
        let is_dot = to - from == 1 && path[from] == '.';
        proof {
            if is_dot {
                assert(piece =~= seq!['.']);
            } else if piece == seq!['.'] {
                assert(piece.len() == 1);
                assert(piece[0] == '.');
            }
        }
        if to > from && (!is_dot || index == 0) {
            ranges.push((from, to));
        }
        index += 1;
    }
    proof {
        assert(all.take(index as int) =~= all);
    }
    ranges
}

/// Whether two texts name the same path.
pub fn same_path(a: &str, b: &str) -> (same: bool)
    ensures
        same == same_path_spec(a@, b@),
{
    let ca = characters(a);
    let cb = characters(b);
    same_characters(&ca, &cb)
}

/// `same_path` on texts whose characters were read already.
pub fn same_characters(a: &Vec<char>, b: &Vec<char>) -> (same: bool)
    ensures
        same == same_path_spec(a@, b@),
{
    let rooted_a = a.len() > 0 && a[0] == SEPARATOR;
    let rooted_b = b.len() > 0 && b[0] == SEPARATOR;
    if rooted_a != rooted_b {
        return false;
    }
    let ra = component_ranges(a);
    let rb = component_ranges(b);
    if ra.len() != rb.len() {
        return false;
    }
    let mut index: usize = 0;
    while index < ra.len()
        invariant
            index <= ra@.len(),
            ra@.len() == rb@.len(),
            ra@.len() == components(a@).len(),
            rb@.len() == components(b@).len(),
            forall|i: int|
                #![trigger ra@[i]]
                0 <= i < ra@.len() ==> {
                    &&& ra@[i].0 <= ra@[i].1 <= a@.len()
                    &&& components(a@)[i] == a@.subrange(ra@[i].0 as int, ra@[i].1 as int)
                },
            forall|i: int|
                #![trigger rb@[i]]
                0 <= i < rb@.len() ==> {
                    &&& rb@[i].0 <= rb@[i].1 <= b@.len()
                    &&& components(b@)[i] == b@.subrange(rb@[i].0 as int, rb@[i].1 as int)
                },
            forall|i: int| 0 <= i < index ==> components(a@)[i] == components(b@)[i],
        decreases ra@.len() - index,
    {
        if !same_piece(a, ra[index], b, rb[index]) {
            assert(components(a@)[index as int] != components(b@)[index as int]);
            return false;
        }
        index += 1;
    }
    assert(components(a@) =~= components(b@));
    true
}

/// The character that names the current directory.
pub const CURRENT: char = '.';

/// The absolute path that `path` names from the working directory `pwd`:
/// a path that starts at the root is kept; one that begins with a period
/// is put directly behind `pwd`; any other is put below `pwd`.
pub open spec fn normalized(path: Seq<char>, pwd: Seq<char>) -> Seq<char> {
    if path.len() > 0 && path[0] == CURRENT {
        pwd + path
    } else if !is_rooted(path) {
        joined(pwd, path)
    } else {
        path
    }
}

/// The absolute path that `i` names from the working directory `pwd`.
pub fn normalize_path(i: &str, pwd: &str) -> (out: String)
    ensures
        out@ == normalized(i@, pwd@),
{
    let first = if i.is_empty() {
        None
    } else {
        Some(i.get_char(0))
    };
    let mut out = String::from_str(pwd);
    match first {
        Some(CURRENT) => {
            out.append(i);
            out
        },
        Some(SEPARATOR) => String::from_str(i),
        _ => {
            out.append("/");
            out.append(i);
            proof {
                reveal_strlit("/");
                assert("/"@ =~= seq![SEPARATOR]);
            }
            out
        },
    }
}

} // verus!
