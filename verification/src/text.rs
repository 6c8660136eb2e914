//! The text side of the algebra: repetition, splitting at a delimiter,
//! and chunking into fixed-width groups of characters.
//!
//! Every function here works on Unicode scalar values (characters), not
//! bytes, so multi-byte text repeats, splits and chunks correctly. The
//! specification functions define the three operations over `Seq<char>`,
//! the executable functions compute them on `&str` and `String`, and the
//! public lemmas state the algebraic laws the operations obey: a
//! repetition's length, that joining a split with its delimiter gives
//! the original text back, and that a chunking concatenates back to the
//! original with every chunk but the last exactly full.

use vstd::prelude::*;
use vstd::string::{StrSliceExecFns, StringExecFns};

verus! {

/// `s` repeated `n` times, in order.
pub open spec fn repeat_seq(s: Seq<char>, n: nat) -> Seq<char>
    decreases n,
{
    if n == 0 {
        Seq::empty()
    } else {
        repeat_seq(s, (n - 1) as nat) + s
    }
}

/// The delimiter `d` stands in `t` at position `i`.
pub open spec fn occurs_at(t: Seq<char>, d: Seq<char>, i: int) -> bool {
    0 <= i && i + d.len() <= t.len() && t.subrange(i, i + d.len() as int) == d
}

/// The leftmost position where `d` stands in `t`, or `-1` when it does
/// not occur.
pub open spec fn find_spec(t: Seq<char>, d: Seq<char>) -> int
    decreases t.len(),
{
    if t.len() < d.len() {
        -1
    } else if t.subrange(0, d.len() as int) == d {
        0
    } else if t.len() == 0 {
        -1
    } else {
        let r = find_spec(t.skip(1), d);
        if r < 0 {
            -1
        } else {
            r + 1
        }
    }
}

/// `t` cut at every occurrence of the non-empty delimiter `d`, leftmost
/// first, with the delimiter removed: the pieces in order. A text with
/// no occurrence is one piece, so the result is never empty.
pub open spec fn split_pieces(t: Seq<char>, d: Seq<char>) -> Seq<Seq<char>>
    decreases t.len(),
{
    let i = find_spec(t, d);
    if d.len() == 0 || i < 0 || i + d.len() as int > t.len() as int {
        seq![t]
    } else {
        seq![t.subrange(0, i)] + split_pieces(t.subrange(i + d.len() as int, t.len() as int), d)
    }
}

/// Splitting at the empty delimiter: a match at every character
/// boundary, so an empty piece first, one piece per character, and an
/// empty piece last.
pub open spec fn boundary_split(t: Seq<char>) -> Seq<Seq<char>> {
    seq![Seq::<char>::empty()] + Seq::new(t.len(), |i: int| seq![t[i]]) + seq![Seq::<char>::empty()]
}

/// `t` split at every occurrence of `d`, empty delimiter included.
pub open spec fn split_spec(t: Seq<char>, d: Seq<char>) -> Seq<Seq<char>> {
    if d.len() == 0 {
        boundary_split(t)
    } else {
        split_pieces(t, d)
    }
}

/// `s` cut into consecutive groups of `k` characters each, in order; the
/// last group keeps whatever remains, so it may be shorter. An empty
/// text has no groups.
pub open spec fn chunk_spec(s: Seq<char>, k: nat) -> Seq<Seq<char>>
    decreases s.len(),
{
    if k == 0 || s.len() == 0 {
        Seq::empty()
    } else if s.len() <= k {
        seq![s]
    } else {
        seq![s.take(k as int)] + chunk_spec(s.skip(k as int), k)
    }
}

/// The elements of `ss` concatenated in order with `d` between each
/// neighbouring pair.
pub open spec fn join_spec(ss: Seq<Seq<char>>, d: Seq<char>) -> Seq<char>
    decreases ss.len(),
{
    if ss.len() == 0 {
        Seq::empty()
    } else if ss.len() == 1 {
        ss[0]
    } else {
        ss[0] + d + join_spec(ss.skip(1), d)
    }
}

/// The views of a vector of strings, in order.
pub open spec fn views_of(v: Seq<String>) -> Seq<Seq<char>> {
    Seq::new(v.len(), |i: int| v[i]@)
}

/// A repetition's length: `s` repeated `n` times has `n` times the
/// length of `s`.
pub proof fn lemma_repeat_len(s: Seq<char>, n: nat)
    ensures
        repeat_seq(s, n).len() == n * s.len(),
    decreases n,
{
    if n == 0 {
        assert(repeat_seq(s, n).len() == 0);
    } else {
        let m = (n - 1) as nat;
        lemma_repeat_len(s, m);
        assert(m * s.len() + s.len() == (m + 1) * s.len()) by (nonlinear_arith);
    }
}

/// A found position is a real occurrence.
proof fn lemma_find_occurs(t: Seq<char>, d: Seq<char>)
    requires
        d.len() >= 1,
        find_spec(t, d) >= 0,
    ensures
        occurs_at(t, d, find_spec(t, d)),
    decreases t.len(),
{
    if t.len() < d.len() {
        // find_spec is -1 here, against the requires
    } else if t.subrange(0, d.len() as int) == d {
        assert(occurs_at(t, d, 0));
    } else {
        let r = find_spec(t.skip(1), d);
        lemma_find_occurs(t.skip(1), d);
        assert(t.skip(1).subrange(r, r + d.len() as int) =~= t.subrange(r + 1, r + 1 + d.len() as int));
        assert(occurs_at(t, d, r + 1));
    }
}

/// A split is never empty.
proof fn lemma_split_nonempty(t: Seq<char>, d: Seq<char>)
    ensures
        split_pieces(t, d).len() >= 1,
{
    let i = find_spec(t, d);
    if d.len() == 0 || i < 0 || i + d.len() as int > t.len() as int {
        assert(split_pieces(t, d) =~= seq![t]);
    }
}

/// Joining the pieces of a split with the delimiter that made it gives
/// the original text back, for every text and every non-empty
/// delimiter.
pub proof fn lemma_split_join(t: Seq<char>, d: Seq<char>)
    requires
        d.len() >= 1,
    ensures
        join_spec(split_spec(t, d), d) == t,
    decreases t.len(),
{
    let i = find_spec(t, d);
    if i < 0 {
        assert(split_pieces(t, d) =~= seq![t]);
        assert(join_spec(seq![t], d) == t);
    } else {
        lemma_find_occurs(t, d);
        let dl = d.len() as int;
        let pre = t.subrange(0, i);
        let suffix = t.subrange(i + dl, t.len() as int);
        lemma_split_join(suffix, d);
        lemma_split_nonempty(suffix, d);
        let rest = split_pieces(suffix, d);
        let ss = seq![pre] + rest;
        assert(split_pieces(t, d) == ss);
        assert(ss.len() >= 2);
        assert(ss.skip(1) =~= rest);
        assert(join_spec(ss, d) == pre + d + join_spec(rest, d));
        assert(t.subrange(i, i + dl) == d);
        assert(t =~= pre + t.subrange(i, i + dl) + suffix);
    }
}

/// A chunking concatenates back to the original text, every chunk but
/// the last holds exactly `k` characters, and the last holds between
/// one and `k`.
pub proof fn lemma_chunk_concat(s: Seq<char>, k: nat)
    requires
        k >= 1,
    ensures
        join_spec(chunk_spec(s, k), Seq::<char>::empty()) == s,
        forall|i: int|
            0 <= i < chunk_spec(s, k).len() - 1 ==> (#[trigger] chunk_spec(s, k)[i]).len() == k,
        s.len() > 0 ==> chunk_spec(s, k).len() >= 1 && 1 <= chunk_spec(s, k).last().len() <= k,
    decreases s.len(),
{
    if s.len() == 0 {
    } else if s.len() <= k {
        assert(chunk_spec(s, k) =~= seq![s]);
    } else {
        let head = s.take(k as int);
        let tail = s.skip(k as int);
        lemma_chunk_concat(tail, k);
        let rest = chunk_spec(tail, k);
        let ss = seq![head] + rest;
        assert(chunk_spec(s, k) == ss);
        assert(rest.len() >= 1);
        assert(ss.skip(1) =~= rest);
        assert(join_spec(ss, Seq::<char>::empty()) == head + Seq::<char>::empty() + join_spec(rest, Seq::<char>::empty()));
        assert(head + Seq::<char>::empty() + tail =~= s);
        assert forall|i: int| 0 <= i < ss.len() - 1 implies (#[trigger] ss[i]).len() == k by {
            if i == 0 {
                assert(ss[0] == head);
            } else {
                assert(ss[i] == rest[i - 1]);
            }
        }
        assert(ss.last() == rest.last());
    }
}

/// Whether the delimiter `d` stands in `t` at position `at`, by
/// character comparison.
fn starts_with_at(t: &str, d: &str, at: usize) -> (r: bool)
    requires
        t@.len() <= usize::MAX,
        at + d@.len() <= t@.len(),
    ensures
        r == occurs_at(t@, d@, at as int),
{
    let dl = d.unicode_len();
    let mut j: usize = 0;
    while j < dl
        invariant
            j <= dl,
            dl == d@.len(),
            t@.len() <= usize::MAX,
            at + dl <= t@.len(),
            forall|m: int| 0 <= m < j ==> t@[at + m] == d@[m],
        decreases dl - j,
    {
        if t.get_char(at + j) != d.get_char(j) {
            proof {
                let sub = t@.subrange(at as int, at as int + d@.len() as int);
                assert(sub[j as int] == t@[at + j]);
                assert(sub != d@);
            }
            return false;
        }
        j = j + 1;
    }
    proof {
        assert(t@.subrange(at as int, at as int + d@.len() as int) =~= d@);
    }
    true
}

/// The leftmost occurrence of the non-empty delimiter `d` in `t`, as
/// [`find_spec`] names it.
fn find_first(t: &str, d: &str) -> (r: Option<usize>)
    requires
        1 <= d@.len(),
    ensures
        match r {
            Option::Some(i) => i as int == find_spec(t@, d@) && occurs_at(t@, d@, i as int),
            Option::None => find_spec(t@, d@) == -1,
        },
    decreases t@.len(),
{
    let tl = t.unicode_len();
    let dl = d.unicode_len();
    if tl < dl {
        None
    } else if starts_with_at(t, d, 0) {
        Some(0)
    } else {
        let rest = t.substring_char(1, tl);
        proof {
            assert(rest@ =~= t@.skip(1));
        }
        match find_first(rest, d) {
            None => None,
            Some(i) => {
                proof {
                    assert(rest@.subrange(i as int, i as int + d@.len() as int) =~= t@.subrange(
                        i + 1,
                        i + 1 + d@.len() as int,
                    ));
                }
                Some(i + 1)
            },
        }
    }
}

/// `t` repeated `n` times as one string.
pub fn repeat_text(t: &str, n: usize) -> (r: String)
    ensures
        r@ == repeat_seq(t@, n as nat),
{
    let mut r = String::new();
    let mut i: usize = 0;
    while i < n
        invariant
            i <= n,
            r@ == repeat_seq(t@, i as nat),
        decreases n - i,
    {
        r.append(t);
        i = i + 1;
    }
    r
}

/// `t` split at every occurrence of the non-empty delimiter `d`.
fn split_pieces_text(t: &str, d: &str) -> (r: Vec<String>)
    requires
        1 <= d@.len(),
    ensures
        views_of(r@) == split_pieces(t@, d@),
    decreases t@.len(),
{
    let tl = t.unicode_len();
    let dl = d.unicode_len();
    match find_first(t, d) {
        None => {
            let mut r: Vec<String> = Vec::new();
            r.push(String::from_str(t));
            proof {
                assert(views_of(r@) =~= split_pieces(t@, d@));
            }
            r
        },
        Some(i) => {
            let piece = String::from_str(t.substring_char(0, i));
            let rest_str = t.substring_char(i + dl, tl);
            let mut r = split_pieces_text(rest_str, d);
            r.insert(0, piece);
            proof {
                assert(views_of(r@) =~= split_pieces(t@, d@));
            }
            r
        },
    }
}

/// `t` split at the empty delimiter: an empty piece, one piece per
/// character, and an empty piece.
fn split_boundaries_text(t: &str) -> (r: Vec<String>)
    ensures
        views_of(r@) == boundary_split(t@),
{
    let tl = t.unicode_len();
    let mut r: Vec<String> = Vec::new();
    r.push(String::new());
    let mut i: usize = 0;
    while i < tl
        invariant
            i <= tl,
            tl == t@.len(),
            r@.len() == i + 1,
            r@[0]@ == Seq::<char>::empty(),
            forall|j: int| 1 <= j <= i ==> (#[trigger] r@[j])@ == seq![t@[j - 1]],
        decreases tl - i,
    {
        let c = String::from_str(t.substring_char(i, i + 1));
        proof {
            assert(c@ =~= seq![t@[i as int]]);
        }
        r.push(c);
        i = i + 1;
    }
    r.push(String::new());
    proof {
        assert forall|j: int| 0 <= j < views_of(r@).len() implies views_of(r@)[j]
            == boundary_split(t@)[j] by {
            if j == 0 {
            } else if j <= tl {
                assert(r@[j]@ == seq![t@[j - 1]]);
                assert(boundary_split(t@)[j] == seq![t@[j - 1]]);
            } else {
                assert(boundary_split(t@)[j] == Seq::<char>::empty());
            }
        }
        assert(views_of(r@) =~= boundary_split(t@));
    }
    r
}

/// `t` split at every occurrence of `d`, empty delimiter included, as
/// [`split_spec`] names it.
pub fn split_text(t: &str, d: &str) -> (r: Vec<String>)
    ensures
        views_of(r@) == split_spec(t@, d@),
{
    let dl = d.unicode_len();
    if dl == 0 {
        split_boundaries_text(t)
    } else {
        split_pieces_text(t, d)
    }
}

/// `t` cut into consecutive groups of `k` characters, the last group
/// possibly shorter, as [`chunk_spec`] names it.
pub fn chunk_text(t: &str, k: usize) -> (r: Vec<String>)
    requires
        1 <= k,
    ensures
        views_of(r@) == chunk_spec(t@, k as nat),
    decreases t@.len(),
{
    let tl = t.unicode_len();
    if tl == 0 {
        let r: Vec<String> = Vec::new();
        proof {
            assert(views_of(r@) =~= chunk_spec(t@, k as nat));
        }
        r
    } else if tl <= k {
        let mut r: Vec<String> = Vec::new();
        r.push(String::from_str(t));
        proof {
            assert(views_of(r@) =~= chunk_spec(t@, k as nat));
        }
        r
    } else {
        let head = String::from_str(t.substring_char(0, k));
        let rest = t.substring_char(k, tl);
        let mut r = chunk_text(rest, k);
        r.insert(0, head);
        proof {
            assert(head@ == t@.take(k as int));
            assert(rest@ == t@.skip(k as int));
            assert(views_of(r@) =~= chunk_spec(t@, k as nat));
        }
        r
    }
}

} // verus!
