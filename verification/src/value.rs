//! The value type and its operator table.
//!
//! [`Any`] is a closed sum over five kinds: text, number, list, sorted
//! set and mapping. The four binary operators are defined per pair of
//! kinds by [`supported`]; [`apply`] carries the table out. Any pair
//! the table leaves out fails with [`OpError::Unsupported`], naming the
//! operator and the two operand kinds.
//!
//! A number is an IEEE-754 binary64 value held by its bit pattern, and
//! this module does no floating-point arithmetic of its own: where a
//! rule needs the sum, difference, product or quotient of two numbers,
//! or a number rendered as decimal text, [`apply`] returns an
//! [`Outcome`] task naming exactly that computation, and the embedding
//! host finishes it (for rendering, through [`Any::finish_render`]).
//! Every other rule - repetition, splitting, chunking, and the dispatch
//! itself - is computed and verified here.

use vstd::prelude::*;
use vstd::string::StringExecFns;

use crate::bits::{count_of, floor_count};
use crate::order::{cmp, cmp_spec, elems_of, entries_of, lemma_cmp_antisymmetric, Order};
use crate::text::{
    chunk_spec, chunk_text, repeat_seq, repeat_text, split_spec, split_text, views_of,
};

verus! {

/// The kind of a value: its variant tag.
#[derive(Clone, Copy, Debug, PartialEq, Eq, Structural)]
pub enum Kind {
    Text,
    Number,
    List,
    SetOf,
    Mapping,
}

/// One of the four binary operators.
#[derive(Clone, Copy, Debug, PartialEq, Eq, Structural)]
pub enum Op {
    Add,
    Sub,
    Mul,
    Div,
}

/// A dynamic value: one of five kinds, containers nesting freely.
///
/// `Number` holds the bit pattern of an IEEE-754 binary64 value.
/// `SetOf` holds its elements sorted and unique, `Mapping` its entries
/// sorted and unique by key; both are built empty here and kept in
/// order by whoever fills them. Every operator consumes its operands
/// and builds a new value: nothing is mutated in place.
#[derive(Debug, PartialEq)]
pub enum Any {
    Text(String),
    Number(u64),
    List(Vec<Any>),
    SetOf(Vec<Any>),
    Mapping(Vec<(Any, Any)>),
}

/// The one failure an operator can produce: the pair of kinds has no
/// rule, or a chunk width read as zero.
#[derive(Clone, Copy, Debug, PartialEq, Eq, Structural)]
pub enum OpError {
    /// The operator is not defined for this pair of operand kinds.
    Unsupported { op: Op, left: Kind, right: Kind },
    /// Text divided by a number whose whole part is zero: no chunk
    /// width exists.
    OutOfRange { op: Op },
}

/// What an operator application comes to: either the finished value, or
/// the one floating-point computation the rule still needs.
#[derive(Debug, PartialEq)]
pub enum Outcome {
    /// The rule needed no floating-point work: the result itself.
    Done(Any),
    /// Number with number: the host applies `op` to the two binary64
    /// values and wraps the resulting bits in [`Any::number_from_bits`].
    NeedsArith { op: Op, left: u64, right: u64 },
    /// Number with text under `+`: the host renders the binary64 value
    /// in `bits` as its shortest round-trip decimal text and hands it,
    /// with `text` and `number_first`, to [`Any::finish_render`].
    NeedsRender { bits: u64, text: String, number_first: bool },
}

/// The kind of a value.
pub open spec fn kind_of(v: Any) -> Kind {
    match v {
        Any::Text(_) => Kind::Text,
        Any::Number(_) => Kind::Number,
        Any::List(_) => Kind::List,
        Any::SetOf(_) => Kind::SetOf,
        Any::Mapping(_) => Kind::Mapping,
    }
}

/// The operator table: which pairs of kinds each operator is defined
/// on. Operand order matters: a number multiplies with a number, text
/// multiplies with a number, and nothing else multiplies.
pub open spec fn supported(op: Op, left: Kind, right: Kind) -> bool {
    match (op, left, right) {
        (_, Kind::Number, Kind::Number) => true,
        (Op::Add, Kind::Number, Kind::Text) => true,
        (Op::Add, Kind::Text, Kind::Number) => true,
        (Op::Mul, Kind::Text, Kind::Number) => true,
        (Op::Div, Kind::Text, Kind::Text) => true,
        (Op::Div, Kind::Text, Kind::Number) => true,
        _ => false,
    }
}

/// `v` is a text value holding exactly the characters `s`.
pub open spec fn is_text(v: Any, s: Seq<char>) -> bool {
    v matches Any::Text(t) && t@ == s
}

/// The elements of `l` are exactly the texts `ss`, in order.
pub open spec fn texts_match(l: Seq<Any>, ss: Seq<Seq<char>>) -> bool {
    &&& l.len() == ss.len()
    &&& forall|i: int| 0 <= i < l.len() ==> is_text(#[trigger] l[i], ss[i])
}

/// Set elements stand in strictly ascending order: sorted and unique.
pub open spec fn sorted_elems(s: Seq<Any>) -> bool {
    forall|i: int| 0 <= i < s.len() - 1 ==> cmp_spec(#[trigger] s[i], s[i + 1]) == Order::Less
}

/// Mapping entries stand in strictly ascending key order: sorted and
/// unique by key.
pub open spec fn sorted_entries(s: Seq<(Any, Any)>) -> bool {
    forall|i: int| 0 <= i < s.len() - 1 ==> cmp_spec(#[trigger] s[i].0, s[i + 1].0) == Order::Less
}

/// A well-formed set: the variant with its elements in order.
pub open spec fn set_wf(v: Any) -> bool {
    v is SetOf && sorted_elems(elems_of(v))
}

/// A well-formed mapping: the variant with its entries in key order.
pub open spec fn mapping_wf(v: Any) -> bool {
    v is Mapping && sorted_entries(entries_of(v))
}

/// Inserting at the scanned position keeps set elements sorted.
proof fn lemma_sorted_insert(s: Seq<Any>, v: Any, p: int)
    requires
        sorted_elems(s),
        0 <= p <= s.len(),
        forall|j: int| 0 <= j < p ==> cmp_spec(#[trigger] s[j], v) == Order::Less,
        p < s.len() ==> cmp_spec(v, s[p]) == Order::Less,
    ensures
        sorted_elems(s.insert(p, v)),
{
    let t = s.insert(p, v);
    assert forall|q: int| 0 <= q < t.len() - 1 implies cmp_spec(#[trigger] t[q], t[q + 1])
        == Order::Less by {
        if q + 1 < p {
            assert(t[q] == s[q] && t[q + 1] == s[q + 1]);
        } else if q + 1 == p {
            assert(t[q] == s[q] && t[q + 1] == v);
        } else if q == p {
            assert(t[q] == v && t[q + 1] == s[q]);
        } else {
            assert(t[q] == s[q - 1] && t[q + 1] == s[q]);
        }
    }
}

/// Inserting at the scanned position keeps mapping entries sorted by
/// key.
proof fn lemma_sorted_entry_insert(s: Seq<(Any, Any)>, e: (Any, Any), p: int)
    requires
        sorted_entries(s),
        0 <= p <= s.len(),
        forall|j: int| 0 <= j < p ==> cmp_spec(#[trigger] s[j].0, e.0) == Order::Less,
        p < s.len() ==> cmp_spec(e.0, s[p].0) == Order::Less,
    ensures
        sorted_entries(s.insert(p, e)),
{
    let t = s.insert(p, e);
    assert forall|q: int| 0 <= q < t.len() - 1 implies cmp_spec(#[trigger] t[q].0, t[q + 1].0)
        == Order::Less by {
        if q + 1 < p {
            assert(t[q] == s[q] && t[q + 1] == s[q + 1]);
        } else if q + 1 == p {
            assert(t[q] == s[q] && t[q + 1] == e);
        } else if q == p {
            assert(t[q] == e && t[q + 1] == s[q]);
        } else {
            assert(t[q] == s[q - 1] && t[q + 1] == s[q]);
        }
    }
}

/// Replacing an entry's value, its stored key kept, keeps mapping
/// entries sorted by key.
proof fn lemma_sorted_entry_update(s: Seq<(Any, Any)>, j: int, value: Any)
    requires
        sorted_entries(s),
        0 <= j < s.len(),
    ensures
        sorted_entries(s.update(j, (s[j].0, value))),
{
    let t = s.update(j, (s[j].0, value));
    assert forall|q: int| 0 <= q < t.len() - 1 implies cmp_spec(#[trigger] t[q].0, t[q + 1].0)
        == Order::Less by {
        assert(t[q].0 == s[q].0 && t[q + 1].0 == s[q + 1].0);
    }
}

/// The failure `apply` owes for this application, if any: the
/// unsupported pairing, or a chunk width of zero. `None` exactly when
/// the application succeeds.
pub open spec fn apply_err_spec(op: Op, a: Any, b: Any) -> Option<OpError> {
    if !supported(op, kind_of(a), kind_of(b)) {
        Some(OpError::Unsupported { op, left: kind_of(a), right: kind_of(b) })
    } else if op is Div && a is Text && b is Number && count_of(b->Number_0) == 0 {
        Some(OpError::OutOfRange { op })
    } else {
        None
    }
}

/// What a successful application returns, rule by rule.
pub open spec fn apply_ok_spec(op: Op, a: Any, b: Any, out: Outcome) -> bool {
    match (op, a, b) {
        (_, Any::Number(x), Any::Number(y)) => out == (Outcome::NeedsArith {
            op,
            left: x,
            right: y,
        }),
        (Op::Add, Any::Number(x), Any::Text(t)) => {
            &&& out matches Outcome::NeedsRender { bits, text, number_first }
            &&& bits == x
            &&& text@ == t@
            &&& number_first
        },
        (Op::Add, Any::Text(t), Any::Number(x)) => {
            &&& out matches Outcome::NeedsRender { bits, text, number_first }
            &&& bits == x
            &&& text@ == t@
            &&& !number_first
        },
        (Op::Mul, Any::Text(t), Any::Number(x)) => {
            &&& out matches Outcome::Done(v)
            &&& v matches Any::Text(s)
            &&& s@ == repeat_seq(t@, count_of(x))
        },
        (Op::Div, Any::Text(t), Any::Text(d)) => {
            &&& out matches Outcome::Done(v)
            &&& v matches Any::List(l)
            &&& texts_match(l@, split_spec(t@, d@))
        },
        (Op::Div, Any::Text(t), Any::Number(x)) => {
            &&& out matches Outcome::Done(v)
            &&& v matches Any::List(l)
            &&& texts_match(l@, chunk_spec(t@, count_of(x)))
        },
        _ => false,
    }
}

/// Each string of `v`, wrapped as a text value.
fn wrap_texts(v: Vec<String>) -> (r: Vec<Any>)
    ensures
        texts_match(r@, views_of(v@)),
{
    let n = v.len();
    let mut r: Vec<Any> = Vec::new();
    let mut i: usize = 0;
    while i < n
        invariant
            i <= n,
            n == v@.len(),
            r@.len() == i,
            forall|j: int| 0 <= j < i ==> is_text(#[trigger] r@[j], v@[j]@),
        decreases n - i,
    {
        r.push(Any::Text(v[i].clone()));
        i = i + 1;
    }
    r
}

/// Applies `op` to the pair `(a, b)` by the operator table.
///
/// Returns the failure [`apply_err_spec`] names exactly when that
/// names one; otherwise the outcome [`apply_ok_spec`] describes: the
/// finished value for the text rules, or the one floating-point task
/// the rule still needs.
pub fn apply(op: Op, a: Any, b: Any) -> (r: Result<Outcome, OpError>)
    ensures
        r is Ok <==> apply_err_spec(op, a, b) is None,
        r matches Ok(out) ==> apply_ok_spec(op, a, b, out),
        r matches Err(e) ==> Some(e) == apply_err_spec(op, a, b),
{
    match (op, a, b) {
        (o, Any::Number(x), Any::Number(y)) => Ok(Outcome::NeedsArith { op: o, left: x, right: y }),
        (Op::Add, Any::Number(x), Any::Text(t)) => Ok(Outcome::NeedsRender {
            bits: x,
            text: t,
            number_first: true,
        }),
        (Op::Add, Any::Text(t), Any::Number(x)) => Ok(Outcome::NeedsRender {
            bits: x,
            text: t,
            number_first: false,
        }),
        (Op::Mul, Any::Text(t), Any::Number(x)) => {
            let n = floor_count(x);
            let s = repeat_text(t.as_str(), n);
            Ok(Outcome::Done(Any::Text(s)))
        },
        (Op::Div, Any::Text(t), Any::Text(d)) => {
            let pieces = split_text(t.as_str(), d.as_str());
            Ok(Outcome::Done(Any::List(wrap_texts(pieces))))
        },
        (Op::Div, Any::Text(t), Any::Number(x)) => {
            let k = floor_count(x);
            if k == 0 {
                Err(OpError::OutOfRange { op: Op::Div })
            } else {
                let chunks = chunk_text(t.as_str(), k);
                Ok(Outcome::Done(Any::List(wrap_texts(chunks))))
            }
        },
        (o, l, rr) => {
            let lk = l.kind();
            let rk = rr.kind();
            Err(OpError::Unsupported { op: o, left: lk, right: rk })
        },
    }
}

/// Scans the sorted elements for `v`: the position of the first
/// element not below `v`, and whether that element compares equal.
fn scan_elems(s: &Vec<Any>, v: &Any) -> (r: (usize, bool))
    ensures
        r.0 <= s@.len(),
        r.1 ==> r.0 < s@.len() && cmp_spec(s@[r.0 as int], *v) == Order::Equal,
        forall|j: int| 0 <= j < r.0 ==> cmp_spec(#[trigger] s@[j], *v) == Order::Less,
        !r.1 && r.0 < s@.len() ==> cmp_spec(s@[r.0 as int], *v) == Order::Greater,
{
    let n = s.len();
    let mut i: usize = 0;
    let mut found = false;
    while i < n
        invariant_except_break
            !found,
        invariant
            i <= n,
            n == s@.len(),
            forall|j: int| 0 <= j < i ==> cmp_spec(#[trigger] s@[j], *v) == Order::Less,
            found ==> i < n && cmp_spec(s@[i as int], *v) == Order::Equal,
        ensures
            i <= n,
            n == s@.len(),
            forall|j: int| 0 <= j < i ==> cmp_spec(#[trigger] s@[j], *v) == Order::Less,
            found ==> i < n && cmp_spec(s@[i as int], *v) == Order::Equal,
            !found && i < n ==> cmp_spec(s@[i as int], *v) == Order::Greater,
        decreases n - i,
    {
        let o = cmp(&s[i], v);
        if o == Order::Equal {
            found = true;
            break;
        }
        if o == Order::Greater {
            break;
        }
        i = i + 1;
    }
    (i, found)
}

/// Scans the sorted entries for `key`: the position of the first key
/// not below `key`, and whether that key compares equal.
fn scan_entries(s: &Vec<(Any, Any)>, key: &Any) -> (r: (usize, bool))
    ensures
        r.0 <= s@.len(),
        r.1 ==> r.0 < s@.len() && cmp_spec(s@[r.0 as int].0, *key) == Order::Equal,
        forall|j: int| 0 <= j < r.0 ==> cmp_spec(#[trigger] s@[j].0, *key) == Order::Less,
        !r.1 && r.0 < s@.len() ==> cmp_spec(s@[r.0 as int].0, *key) == Order::Greater,
{
    let n = s.len();
    let mut i: usize = 0;
    let mut found = false;
    while i < n
        invariant_except_break
            !found,
        invariant
            i <= n,
            n == s@.len(),
            forall|j: int| 0 <= j < i ==> cmp_spec(#[trigger] s@[j].0, *key) == Order::Less,
            found ==> i < n && cmp_spec(s@[i as int].0, *key) == Order::Equal,
        ensures
            i <= n,
            n == s@.len(),
            forall|j: int| 0 <= j < i ==> cmp_spec(#[trigger] s@[j].0, *key) == Order::Less,
            found ==> i < n && cmp_spec(s@[i as int].0, *key) == Order::Equal,
            !found && i < n ==> cmp_spec(s@[i as int].0, *key) == Order::Greater,
        decreases n - i,
    {
        let o = cmp(&s[i].0, key);
        if o == Order::Equal {
            found = true;
            break;
        }
        if o == Order::Greater {
            break;
        }
        i = i + 1;
    }
    (i, found)
}

impl Any {
    /// The kind of this value.
    pub fn kind(&self) -> (k: Kind)
        ensures
            k == kind_of(*self),
    {
        match self {
            Any::Text(_) => Kind::Text,
            Any::Number(_) => Kind::Number,
            Any::List(_) => Kind::List,
            Any::SetOf(_) => Kind::SetOf,
            Any::Mapping(_) => Kind::Mapping,
        }
    }

    /// A text value holding the characters of `s`.
    pub fn from_text(s: &str) -> (r: Any)
        ensures
            r matches Any::Text(t) && t@ == s@,
    {
        Any::Text(String::from_str(s))
    }

    /// A number value holding the binary64 bit pattern `bits`.
    pub fn number_from_bits(bits: u64) -> (r: Any)
        ensures
            r == Any::Number(bits),
    {
        Any::Number(bits)
    }

    /// A list holding `items`, in order.
    pub fn list_from_vec(items: Vec<Any>) -> (r: Any)
        ensures
            r == Any::List(items),
    {
        Any::List(items)
    }

    /// The empty sorted set.
    pub fn empty_set() -> (r: Any)
        ensures
            r matches Any::SetOf(v) && v@.len() == 0,
            set_wf(r),
    {
        Any::SetOf(Vec::new())
    }

    /// The empty mapping.
    pub fn empty_mapping() -> (r: Any)
        ensures
            r matches Any::Mapping(v) && v@.len() == 0,
            mapping_wf(r),
    {
        Any::Mapping(Vec::new())
    }

    /// `self + other`, by the operator table.
    pub fn add(self, other: Any) -> (r: Result<Outcome, OpError>)
        ensures
            r is Ok <==> apply_err_spec(Op::Add, self, other) is None,
            r matches Ok(out) ==> apply_ok_spec(Op::Add, self, other, out),
            r matches Err(e) ==> Some(e) == apply_err_spec(Op::Add, self, other),
    {
        apply(Op::Add, self, other)
    }

    /// `self - other`, by the operator table.
    pub fn sub(self, other: Any) -> (r: Result<Outcome, OpError>)
        ensures
            r is Ok <==> apply_err_spec(Op::Sub, self, other) is None,
            r matches Ok(out) ==> apply_ok_spec(Op::Sub, self, other, out),
            r matches Err(e) ==> Some(e) == apply_err_spec(Op::Sub, self, other),
    {
        apply(Op::Sub, self, other)
    }

    /// `self * other`, by the operator table.
    pub fn mul(self, other: Any) -> (r: Result<Outcome, OpError>)
        ensures
            r is Ok <==> apply_err_spec(Op::Mul, self, other) is None,
            r matches Ok(out) ==> apply_ok_spec(Op::Mul, self, other, out),
            r matches Err(e) ==> Some(e) == apply_err_spec(Op::Mul, self, other),
    {
        apply(Op::Mul, self, other)
    }

    /// `self / other`, by the operator table.
    pub fn div(self, other: Any) -> (r: Result<Outcome, OpError>)
        ensures
            r is Ok <==> apply_err_spec(Op::Div, self, other) is None,
            r matches Ok(out) ==> apply_ok_spec(Op::Div, self, other, out),
            r matches Err(e) ==> Some(e) == apply_err_spec(Op::Div, self, other),
    {
        apply(Op::Div, self, other)
    }

    /// Inserts `v` into this well-formed set, keeping the elements in
    /// strictly ascending order: when an element comparing equal to
    /// `v` is already there the set comes back unchanged, otherwise
    /// `v` enters at the one position the order allows.
    #[verifier::rlimit(100)]
    #[verifier::spinoff_prover]
    pub fn set_insert(self, v: Any) -> (r: Any)
        requires
            set_wf(self),
        ensures
            set_wf(r),
            ({
                let s = elems_of(self);
                let rs = elems_of(r);
                ||| ((exists|j: int| 0 <= j < s.len() && cmp_spec(#[trigger] s[j], v) == Order::Equal)
                    && rs == s)
                ||| (exists|p: int|
                    0 <= p <= s.len() && rs == s.insert(p, v) && (forall|j: int|
                        0 <= j < p ==> cmp_spec(#[trigger] s[j], v) == Order::Less) && (p < s.len()
                        ==> cmp_spec(s[p], v) == Order::Greater))
            }),
    {
        let mut s = match self {
            Any::SetOf(items) => items,
            _ => {
                proof {
                    assert(false);
                }
                Vec::new()
            },
        };
        let ghost s0 = s@;
        let (i, found) = scan_elems(&s, &v);
        if found {
            proof {
                assert(elems_of(self) == s0);
                assert(cmp_spec(s0[i as int], v) == Order::Equal);
            }
            return Any::SetOf(s);
        }
        proof {
            assert(elems_of(self) == s0);
            if (i as int) < s0.len() {
                lemma_cmp_antisymmetric(s0[i as int], v);
            }
            lemma_sorted_insert(s0, v, i as int);
        }
        s.insert(i, v);
        proof {
            assert(s@ == s0.insert(i as int, v));
        }
        Any::SetOf(s)
    }

    /// Binds `value` under `key` in this well-formed mapping, keeping
    /// the entries in strictly ascending key order: when an entry
    /// whose key compares equal to `key` is already there, that entry
    /// keeps its stored key and takes the new value; otherwise the new
    /// entry enters at the one position the order allows.
    #[verifier::rlimit(100)]
    #[verifier::spinoff_prover]
    pub fn mapping_insert(self, key: Any, value: Any) -> (r: Any)
        requires
            mapping_wf(self),
        ensures
            mapping_wf(r),
            ({
                let s = entries_of(self);
                let rs = entries_of(r);
                ||| (exists|j: int|
                    0 <= j < s.len() && cmp_spec(#[trigger] s[j].0, key) == Order::Equal && rs == s.update(
                        j,
                        (s[j].0, value),
                    ))
                ||| (exists|p: int|
                    0 <= p <= s.len() && rs == s.insert(p, (key, value)) && (forall|j: int|
                        0 <= j < p ==> cmp_spec(#[trigger] s[j].0, key) == Order::Less) && (p
                        < s.len() ==> cmp_spec(s[p].0, key) == Order::Greater))
            }),
    {
        let mut s = match self {
            Any::Mapping(entries) => entries,
            _ => {
                proof {
                    assert(false);
                }
                Vec::new()
            },
        };
        let ghost s0 = s@;
        let (i, found) = scan_entries(&s, &key);
        if found {
            proof {
                assert(entries_of(self) == s0);
                assert(cmp_spec(s0[i as int].0, key) == Order::Equal);
                lemma_sorted_entry_update(s0, i as int, value);
            }
            let entry = s.remove(i);
            s.insert(i, (entry.0, value));
            proof {
                assert(s@ =~= s0.update(i as int, (s0[i as int].0, value)));
            }
            return Any::Mapping(s);
        }
        proof {
            assert(entries_of(self) == s0);
            if (i as int) < s0.len() {
                lemma_cmp_antisymmetric(s0[i as int].0, key);
            }
            lemma_sorted_entry_insert(s0, (key, value), i as int);
        }
        s.insert(i, (key, value));
        proof {
            assert(s@ == s0.insert(i as int, (key, value)));
        }
        Any::Mapping(s)
    }

    /// Finishes a [`Outcome::NeedsRender`] task: the rendered decimal
    /// text concatenated with the other operand, the number's side
    /// first when the number stood on the left.
    pub fn finish_render(rendered: String, text: String, number_first: bool) -> (r: Any)
        ensures
            r matches Any::Text(s) && s@ == (if number_first {
                rendered@ + text@
            } else {
                text@ + rendered@
            }),
    {
        if number_first {
            Any::Text(rendered.concat(text.as_str()))
        } else {
            Any::Text(text.concat(rendered.as_str()))
        }
    }
}

} // verus!
