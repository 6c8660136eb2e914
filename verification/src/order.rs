//! The deterministic total order on values.
//!
//! Sorted sets and mappings need their elements and keys in one
//! deterministic order. Values are ordered first by variant tag (text,
//! number, list, set, mapping), then recursively by contained value:
//! texts lexicographically by character, numbers by bit pattern,
//! containers lexicographically element by element (and entries key
//! first, then value). The order is defined here as a three-way
//! comparison, computed by [`cmp`], and [`lemma_cmp_antisymmetric`]
//! proves that swapping the operands exactly flips every comparison.

use vstd::prelude::*;
use vstd::string::StrSliceExecFns;

use crate::value::{kind_of, Any, Kind};

verus! {

/// A three-way comparison result.
#[derive(Clone, Copy, Debug, PartialEq, Eq, Structural)]
pub enum Order {
    Less,
    Equal,
    Greater,
}

/// The same comparison seen from the other side.
pub open spec fn flip(o: Order) -> Order {
    match o {
        Order::Less => Order::Greater,
        Order::Equal => Order::Equal,
        Order::Greater => Order::Less,
    }
}

/// The rank of a variant tag: the first key of the order.
pub open spec fn rank(k: Kind) -> int {
    match k {
        Kind::Text => 0,
        Kind::Number => 1,
        Kind::List => 2,
        Kind::SetOf => 3,
        Kind::Mapping => 4,
    }
}

/// The elements a list or set value holds.
pub open spec fn elems_of(a: Any) -> Seq<Any> {
    match a {
        Any::List(v) => v@,
        Any::SetOf(v) => v@,
        _ => Seq::empty(),
    }
}

/// The entries a mapping value holds.
pub open spec fn entries_of(a: Any) -> Seq<(Any, Any)> {
    match a {
        Any::Mapping(v) => v@,
        _ => Seq::empty(),
    }
}

/// An upper bound on the element scans a comparison of `a` starts:
/// part of the termination measure.
pub open spec fn extent(a: Any) -> nat {
    match a {
        Any::List(v) => v@.len() + 1,
        Any::SetOf(v) => v@.len() + 1,
        Any::Mapping(v) => v@.len() + 1,
        _ => 1,
    }
}

/// Two numbers by bit pattern.
pub open spec fn cmp_bits(x: u64, y: u64) -> Order {
    if x < y {
        Order::Less
    } else if x > y {
        Order::Greater
    } else {
        Order::Equal
    }
}

/// Two texts, lexicographically by Unicode scalar value.
#[verifier::opaque]
pub open spec fn cmp_chars(x: Seq<char>, y: Seq<char>) -> Order
    decreases x.len(),
{
    if x.len() == 0 && y.len() == 0 {
        Order::Equal
    } else if x.len() == 0 {
        Order::Less
    } else if y.len() == 0 {
        Order::Greater
    } else if (x[0] as u32) < (y[0] as u32) {
        Order::Less
    } else if (x[0] as u32) > (y[0] as u32) {
        Order::Greater
    } else {
        cmp_chars(x.skip(1), y.skip(1))
    }
}

/// Two values: by variant tag, then by contained value.
#[verifier::opaque]
pub open spec fn cmp_spec(a: Any, b: Any) -> Order
    decreases a, b, extent(a),
{
    let ra = rank(kind_of(a));
    let rb = rank(kind_of(b));
    if ra < rb {
        Order::Less
    } else if ra > rb {
        Order::Greater
    } else {
        match (a, b) {
            (Any::Text(x), Any::Text(y)) => cmp_chars(x@, y@),
            (Any::Number(x), Any::Number(y)) => cmp_bits(x, y),
            (Any::Mapping(_), Any::Mapping(_)) => cmp_entries(a, b, 0),
            _ => cmp_elems(a, b, 0),
        }
    }
}

/// The elements of two lists or sets from position `i` on,
/// lexicographically; the shorter runs out first and orders lower.
#[verifier::opaque]
pub open spec fn cmp_elems(a: Any, b: Any, i: int) -> Order
    decreases a, b, elems_of(a).len() - i,
{
    let x = elems_of(a);
    let y = elems_of(b);
    if i < 0 || (i >= x.len() && i >= y.len()) {
        Order::Equal
    } else if i >= x.len() {
        Order::Less
    } else if i >= y.len() {
        Order::Greater
    } else {
        let o = cmp_spec(x[i], y[i]);
        if o != Order::Equal {
            o
        } else {
            cmp_elems(a, b, i + 1)
        }
    }
}

/// The entries of two mappings from position `i` on: key first, then
/// value, then the next entry.
#[verifier::opaque]
pub open spec fn cmp_entries(a: Any, b: Any, i: int) -> Order
    decreases a, b, entries_of(a).len() - i,
{
    let x = entries_of(a);
    let y = entries_of(b);
    if i < 0 || (i >= x.len() && i >= y.len()) {
        Order::Equal
    } else if i >= x.len() {
        Order::Less
    } else if i >= y.len() {
        Order::Greater
    } else {
        let ok = cmp_spec(x[i].0, y[i].0);
        if ok != Order::Equal {
            ok
        } else {
            let ov = cmp_spec(x[i].1, y[i].1);
            if ov != Order::Equal {
                ov
            } else {
                cmp_entries(a, b, i + 1)
            }
        }
    }
}

/// Scanning equal elements does not change an element comparison.
proof fn lemma_cmp_elems_prefix(a: Any, b: Any, i: int)
    requires
        0 <= i <= elems_of(a).len(),
        i <= elems_of(b).len(),
        forall|j: int| 0 <= j < i ==> cmp_spec(elems_of(a)[j], elems_of(b)[j]) == Order::Equal,
    ensures
        cmp_elems(a, b, 0) == cmp_elems(a, b, i),
    decreases i,
{
    reveal_with_fuel(cmp_spec, 2);
    reveal_with_fuel(cmp_elems, 2);
    reveal_with_fuel(cmp_entries, 2);
    if i > 0 {
        lemma_cmp_elems_prefix(a, b, i - 1);
    }
}

/// Scanning equal entries does not change an entry comparison.
proof fn lemma_cmp_entries_prefix(a: Any, b: Any, i: int)
    requires
        0 <= i <= entries_of(a).len(),
        i <= entries_of(b).len(),
        forall|j: int|
            0 <= j < i ==> cmp_spec(#[trigger] entries_of(a)[j].0, entries_of(b)[j].0)
                == Order::Equal && cmp_spec(entries_of(a)[j].1, entries_of(b)[j].1) == Order::Equal,
    ensures
        cmp_entries(a, b, 0) == cmp_entries(a, b, i),
    decreases i,
{
    reveal_with_fuel(cmp_spec, 2);
    reveal_with_fuel(cmp_elems, 2);
    reveal_with_fuel(cmp_entries, 2);
    if i > 0 {
        lemma_cmp_entries_prefix(a, b, i - 1);
    }
}

/// Swapping the operands of a text comparison flips it.
proof fn lemma_cmp_chars_anti(x: Seq<char>, y: Seq<char>)
    ensures
        cmp_chars(y, x) == flip(cmp_chars(x, y)),
    decreases x.len(),
{
    reveal_with_fuel(cmp_chars, 2);
    if x.len() > 0 && y.len() > 0 && (x[0] as u32) == (y[0] as u32) {
        lemma_cmp_chars_anti(x.skip(1), y.skip(1));
    }
}

/// Swapping the operands of an element comparison flips it.
proof fn lemma_cmp_elems_anti(a: Any, b: Any, i: int)
    ensures
        cmp_elems(b, a, i) == flip(cmp_elems(a, b, i)),
    decreases a, b, elems_of(a).len() - i,
{
    reveal_with_fuel(cmp_spec, 2);
    reveal_with_fuel(cmp_elems, 2);
    reveal_with_fuel(cmp_entries, 2);
    let x = elems_of(a);
    let y = elems_of(b);
    if i < 0 || (i >= x.len() && i >= y.len()) {
    } else if i >= x.len() {
    } else if i >= y.len() {
    } else {
        lemma_cmp_antisymmetric(x[i], y[i]);
        if cmp_spec(x[i], y[i]) == Order::Equal {
            lemma_cmp_elems_anti(a, b, i + 1);
        }
    }
}

/// Swapping the operands of an entry comparison flips it.
proof fn lemma_cmp_entries_anti(a: Any, b: Any, i: int)
    ensures
        cmp_entries(b, a, i) == flip(cmp_entries(a, b, i)),
    decreases a, b, entries_of(a).len() - i,
{
    reveal_with_fuel(cmp_spec, 2);
    reveal_with_fuel(cmp_elems, 2);
    reveal_with_fuel(cmp_entries, 2);
    let x = entries_of(a);
    let y = entries_of(b);
    if i < 0 || (i >= x.len() && i >= y.len()) {
    } else if i >= x.len() {
    } else if i >= y.len() {
    } else {
        lemma_cmp_antisymmetric(x[i].0, y[i].0);
        if cmp_spec(x[i].0, y[i].0) == Order::Equal {
            lemma_cmp_antisymmetric(x[i].1, y[i].1);
            if cmp_spec(x[i].1, y[i].1) == Order::Equal {
                lemma_cmp_entries_anti(a, b, i + 1);
            }
        }
    }
}

/// The order is antisymmetric: comparing `b` with `a` gives exactly
/// the flipped result of comparing `a` with `b`, for every pair of
/// values. With totality (a comparison always returns one of the three
/// results) this makes the order deterministic in both directions.
pub proof fn lemma_cmp_antisymmetric(a: Any, b: Any)
    ensures
        cmp_spec(b, a) == flip(cmp_spec(a, b)),
    decreases a, b, extent(a),
{
    reveal_with_fuel(cmp_spec, 2);
    reveal_with_fuel(cmp_elems, 2);
    reveal_with_fuel(cmp_entries, 2);
    if rank(kind_of(a)) == rank(kind_of(b)) {
        match (a, b) {
            (Any::Text(x), Any::Text(y)) => lemma_cmp_chars_anti(x@, y@),
            (Any::Number(_), Any::Number(_)) => {},
            (Any::List(_), Any::List(_)) => lemma_cmp_elems_anti(a, b, 0),
            (Any::SetOf(_), Any::SetOf(_)) => lemma_cmp_elems_anti(a, b, 0),
            (Any::Mapping(_), Any::Mapping(_)) => lemma_cmp_entries_anti(a, b, 0),
            _ => {},
        }
    }
}

/// The rank of a kind, computed.
fn rank_of(k: Kind) -> (r: u8)
    ensures
        r as int == rank(k),
{
    match k {
        Kind::Text => 0,
        Kind::Number => 1,
        Kind::List => 2,
        Kind::SetOf => 3,
        Kind::Mapping => 4,
    }
}

/// Two texts compared character by character, as [`cmp_chars`] names
/// it.
fn cmp_text(x: &str, y: &str) -> (o: Order)
    ensures
        o == cmp_chars(x@, y@),
    decreases x@.len(),
{
    proof {
        reveal_with_fuel(cmp_chars, 2);
    }
    let xl = x.unicode_len();
    let yl = y.unicode_len();
    if xl == 0 && yl == 0 {
        Order::Equal
    } else if xl == 0 {
        Order::Less
    } else if yl == 0 {
        Order::Greater
    } else {
        let cx = x.get_char(0);
        let cy = y.get_char(0);
        if (cx as u32) < (cy as u32) {
            Order::Less
        } else if (cx as u32) > (cy as u32) {
            Order::Greater
        } else {
            let xs = x.substring_char(1, xl);
            let ys = y.substring_char(1, yl);
            proof {
                assert(xs@ =~= x@.skip(1));
                assert(ys@ =~= y@.skip(1));
            }
            cmp_text(xs, ys)
        }
    }
}

/// The elements of two lists or sets compared lexicographically.
fn cmp_elems_exec(a: &Any, b: &Any, x: &Vec<Any>, y: &Vec<Any>) -> (o: Order)
    requires
        elems_of(*a) == x@,
        elems_of(*b) == y@,
    ensures
        o == cmp_elems(*a, *b, 0),
    decreases *a, *b, elems_of(*a).len(),
{
    proof {
        reveal_with_fuel(cmp_spec, 2);
    reveal_with_fuel(cmp_elems, 2);
    reveal_with_fuel(cmp_entries, 2);
    }
    let xl = x.len();
    let yl = y.len();
    let min = if xl < yl {
        xl
    } else {
        yl
    };
    let mut i: usize = 0;
    while i < min
        invariant
            i <= min,
            min == if xl < yl {
                xl
            } else {
                yl
            },
            xl == x@.len(),
            yl == y@.len(),
            elems_of(*a) == x@,
            elems_of(*b) == y@,
            forall|j: int| 0 <= j < i ==> cmp_spec(x@[j], y@[j]) == Order::Equal,
        decreases min - i,
    {
        let o = cmp(&x[i], &y[i]);
        if o != Order::Equal {
            proof {
                reveal_with_fuel(cmp_spec, 2);
    reveal_with_fuel(cmp_elems, 2);
    reveal_with_fuel(cmp_entries, 2);
                lemma_cmp_elems_prefix(*a, *b, i as int);
            }
            return o;
        }
        i = i + 1;
    }
    proof {
        reveal_with_fuel(cmp_spec, 2);
    reveal_with_fuel(cmp_elems, 2);
    reveal_with_fuel(cmp_entries, 2);
        lemma_cmp_elems_prefix(*a, *b, min as int);
    }
    if xl < yl {
        Order::Less
    } else if xl > yl {
        Order::Greater
    } else {
        Order::Equal
    }
}

/// The entries of two mappings compared lexicographically, key first.
fn cmp_entries_exec(a: &Any, b: &Any, x: &Vec<(Any, Any)>, y: &Vec<(Any, Any)>) -> (o: Order)
    requires
        entries_of(*a) == x@,
        entries_of(*b) == y@,
    ensures
        o == cmp_entries(*a, *b, 0),
    decreases *a, *b, entries_of(*a).len(),
{
    proof {
        reveal_with_fuel(cmp_spec, 2);
    reveal_with_fuel(cmp_elems, 2);
    reveal_with_fuel(cmp_entries, 2);
    }
    let xl = x.len();
    let yl = y.len();
    let min = if xl < yl {
        xl
    } else {
        yl
    };
    let mut i: usize = 0;
    while i < min
        invariant
            i <= min,
            min == if xl < yl {
                xl
            } else {
                yl
            },
            xl == x@.len(),
            yl == y@.len(),
            entries_of(*a) == x@,
            entries_of(*b) == y@,
            forall|j: int|
                0 <= j < i ==> cmp_spec(#[trigger] x@[j].0, y@[j].0) == Order::Equal && cmp_spec(
                    x@[j].1,
                    y@[j].1,
                ) == Order::Equal,
        decreases min - i,
    {
        let ok = cmp(&x[i].0, &y[i].0);
        if ok != Order::Equal {
            proof {
                reveal_with_fuel(cmp_spec, 2);
    reveal_with_fuel(cmp_elems, 2);
    reveal_with_fuel(cmp_entries, 2);
                lemma_cmp_entries_prefix(*a, *b, i as int);
            }
            return ok;
        }
        let ov = cmp(&x[i].1, &y[i].1);
        if ov != Order::Equal {
            proof {
                reveal_with_fuel(cmp_spec, 2);
    reveal_with_fuel(cmp_elems, 2);
    reveal_with_fuel(cmp_entries, 2);
                lemma_cmp_entries_prefix(*a, *b, i as int);
            }
            return ov;
        }
        i = i + 1;
    }
    proof {
        reveal_with_fuel(cmp_spec, 2);
    reveal_with_fuel(cmp_elems, 2);
    reveal_with_fuel(cmp_entries, 2);
        lemma_cmp_entries_prefix(*a, *b, min as int);
    }
    if xl < yl {
        Order::Less
    } else if xl > yl {
        Order::Greater
    } else {
        Order::Equal
    }
}

/// Compares two values in the deterministic total order, as
/// [`cmp_spec`] names it.
pub fn cmp(a: &Any, b: &Any) -> (o: Order)
    ensures
        o == cmp_spec(*a, *b),
    decreases *a, *b, extent(*a),
{
    proof {
        reveal_with_fuel(cmp_spec, 2);
    reveal_with_fuel(cmp_elems, 2);
    reveal_with_fuel(cmp_entries, 2);
    }
    let ra = rank_of(a.kind());
    let rb = rank_of(b.kind());
    if ra < rb {
        return Order::Less;
    }
    if ra > rb {
        return Order::Greater;
    }
    match (a, b) {
        (Any::Text(x), Any::Text(y)) => cmp_text(x.as_str(), y.as_str()),
        (Any::Number(x), Any::Number(y)) => {
            if *x < *y {
                Order::Less
            } else if *x > *y {
                Order::Greater
            } else {
                Order::Equal
            }
        },
        (Any::List(x), Any::List(y)) => cmp_elems_exec(a, b, x, y),
        (Any::SetOf(x), Any::SetOf(y)) => cmp_elems_exec(a, b, x, y),
        (Any::Mapping(x), Any::Mapping(y)) => cmp_entries_exec(a, b, x, y),
        _ => {
            proof {
                assert(false);
            }
            Order::Equal
        },
    }
}

} // verus!
