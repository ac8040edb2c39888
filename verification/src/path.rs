//! Dotted paths.

use crate::document::names;
use vstd::prelude::*;
use vstd::string::*;

verus! {

/// The segments of a dotted path: the pieces between its dots, in order.
///
/// A string without a dot is one segment, and so is the empty string; two
/// dots in a row have an empty segment between them.
pub open spec fn split(s: Seq<char>) -> Seq<Seq<char>>
    decreases s.len(),
{
    if s.len() == 0 {
        seq![Seq::empty()]
    } else {
        let before = split(s.drop_last());
        if s.last() == '.' {
            before.push(Seq::empty())
        } else {
            before.update(before.len() - 1, before.last().push(s.last()))
        }
    }
}

/// Whether two paths agree in their first `i` segments and differ in the
/// next, which both have.
pub open spec fn part_at(p: Seq<Seq<char>>, q: Seq<Seq<char>>, i: int) -> bool {
    0 <= i < p.len() && i < q.len() && p.subrange(0, i) == q.subrange(0, i) && p[i] != q[i]
}

/// Whether two paths part ways: neither leads through the other's end.
pub open spec fn part_ways(p: Seq<Seq<char>>, q: Seq<Seq<char>>) -> bool {
    exists|i: int| #[trigger] part_at(p, q, i)
}

/// A path has at least one segment, and one more than it has dots.
pub proof fn law_split_len(s: Seq<char>)
    ensures
        split(s).len() >= 1,
        split(s).len() == 1 + s.filter(|c: char| c == '.').len(),
    decreases s.len(),
{
    let dot = |c: char| c == '.';
    if s.len() == 0 {
        assert(s.filter(dot) =~= Seq::<char>::empty()) by {
            reveal_with_fuel(Seq::filter, 1);
        }
    } else {
        law_split_len(s.drop_last());
        assert(s.filter(dot) == if s.last() == '.' {
            s.drop_last().filter(dot).push(s.last())
        } else {
            s.drop_last().filter(dot)
        }) by {
            reveal_with_fuel(Seq::filter, 1);
        }
    }
}

/// No segment of a path holds a dot.
pub proof fn law_split_no_dots(s: Seq<char>, i: int, j: int)
    requires
        0 <= i < split(s).len(),
        0 <= j < split(s)[i].len(),
    ensures
        split(s)[i][j] != '.',
    decreases s.len(),
{
    if s.len() > 0 {
        law_split_len(s.drop_last());
        let before = split(s.drop_last());
        if s.last() == '.' {
            if i < before.len() {
                law_split_no_dots(s.drop_last(), i, j);
            }
        } else {
            if i < before.len() - 1 || j < before.last().len() {
                law_split_no_dots(s.drop_last(), i, j);
            }
        }
    }
}

/// Splits a dotted path into its segments.
pub fn split_path(key: &str) -> (path: Vec<String>)
    ensures
        names(path@) == split(key@),
        path.len() >= 1,
{
    let n = key.unicode_len();
    let mut path: Vec<String> = Vec::new();
    let mut start: usize = 0;
    let mut i: usize = 0;
    assert(key@.subrange(0, 0) =~= Seq::<char>::empty());
    assert(names(path@).push(key@.subrange(0, 0)) =~= seq![Seq::<char>::empty()]);
    while i < n
        invariant
            start <= i <= n,
            n == key@.len(),
            split(key@.subrange(0, i as int)) == names(path@).push(
                key@.subrange(start as int, i as int),
            ),
        decreases n - i,
    {
        let ghost upto = key@.subrange(0, i + 1);
        let ghost piece = key@.subrange(start as int, i as int);
        let ghost done = names(path@);
        assert(upto.drop_last() =~= key@.subrange(0, i as int));
        assert(upto.last() == key@[i as int]);
        if key.get_char(i) == '.' {
            path.push(String::from_str(key.substring_char(start, i)));
            start = i + 1;
            assert(names(path@) =~= done.push(piece));
            assert(key@.subrange(start as int, i + 1) =~= Seq::<char>::empty());
        } else {
            assert(piece.push(key@[i as int]) =~= key@.subrange(start as int, i + 1));
            assert(done.push(piece).update(done.len() as int, piece.push(key@[i as int]))
                =~= done.push(key@.subrange(start as int, i + 1)));
        }
        i += 1;
    }
    let ghost done = names(path@);
    path.push(String::from_str(key.substring_char(start, n)));
    assert(key@.subrange(0, n as int) =~= key@);
    assert(names(path@) =~= done.push(key@.subrange(start as int, n as int)));
    path
}

} // verus!
