//! The scalar values held in table cells and compared by lookup conditions,
//! together with the case-folding rules that normalize them.

use vstd::prelude::*;

verus! {

broadcast use vstd::std_specs::vec::group_vec_axioms;

/// String comparison policy for a lookup or an index: either byte strings are
/// compared as they are, or both sides are ASCII case-folded first.
#[derive(Clone, Copy, Debug, PartialEq, Eq, Structural)]
pub enum Case {
    Sensitive,
    Insensitive,
}

/// A typed value held in a table cell or carried by a condition: a scalar,
/// or a composite of named fields.
///
/// String data is kept as raw bytes, as the external loader produced it;
/// timestamps are seconds since an arbitrary fixed epoch.
#[derive(Debug, PartialEq)]
pub enum Value {
    Bytes(Vec<u8>),
    Integer(i64),
    Boolean(bool),
    Timestamp(i64),
    Composite(Vec<(String, Value)>),
}

/// The mathematical model of a [`Value`]: byte strings become sequences,
/// composites become sequences of named models.
pub enum ValueV {
    Bytes(Seq<u8>),
    Integer(i64),
    Boolean(bool),
    Timestamp(i64),
    Composite(Seq<(Seq<char>, ValueV)>),
}

/// The model of a value.
pub open spec fn value_view(v: Value) -> ValueV
    decreases v, 0int,
{
    match v {
        Value::Bytes(b) => ValueV::Bytes(b@),
        Value::Integer(i) => ValueV::Integer(i),
        Value::Boolean(b) => ValueV::Boolean(b),
        Value::Timestamp(t) => ValueV::Timestamp(t),
        Value::Composite(entries) => ValueV::Composite(
            entries_view_upto(entries, entries.len() as int),
        ),
    }
}

/// The models of the first `n` entries of a composite.
pub open spec fn entries_view_upto(entries: Vec<(String, Value)>, n: int) -> Seq<
    (Seq<char>, ValueV),
>
    decreases entries, n,
    via entries_view_upto_decreases
{
    if n <= 0 || n > entries.len() {
        Seq::empty()
    } else {
        entries_view_upto(entries, n - 1).push((entries[n - 1].0@, value_view(entries[n - 1].1)))
    }
}

#[via_fn]
proof fn entries_view_upto_decreases(entries: Vec<(String, Value)>, n: int) {
    if 0 < n <= entries.len() {
        assert(decreases_to!(entries => entries[n - 1]));
        assert(decreases_to!(entries[n - 1] => entries[n - 1].1));
        assert(decreases_to!(entries => entries[n - 1].1));
    }
}

/// The models of a composite's named entries.
pub open spec fn entries_view(entries: Vec<(String, Value)>) -> Seq<(Seq<char>, ValueV)> {
    entries_view_upto(entries, entries.len() as int)
}

/// What `entries_view` holds at each position.
pub proof fn lemma_entries_view(entries: Vec<(String, Value)>)
    ensures
        entries_view(entries).len() == entries@.len(),
        forall|j: int|
            0 <= j < entries@.len() ==> entries_view(entries)[j] == (
                entries[j].0@,
                value_view(entries[j].1),
            ),
{
    lemma_entries_view_upto(entries, entries.len() as int);
}

proof fn lemma_entries_view_upto(entries: Vec<(String, Value)>, n: int)
    requires
        0 <= n <= entries@.len(),
    ensures
        entries_view_upto(entries, n).len() == n,
        forall|j: int|
            0 <= j < n ==> entries_view_upto(entries, n)[j] == (
                entries[j].0@,
                value_view(entries[j].1),
            ),
    decreases n,
{
    if n > 0 {
        lemma_entries_view_upto(entries, n - 1);
    }
}

impl DeepView for Value {
    type V = ValueV;

    open spec fn deep_view(&self) -> ValueV {
        value_view(*self)
    }
}

/// ASCII case folding of one byte: the upper-case letters move to lower case,
/// every other byte is left alone.
pub open spec fn fold_byte_spec(c: u8) -> u8 {
    if 65 <= c && c <= 90 {
        (c + 32) as u8
    } else {
        c
    }
}

/// Byte-wise case folding of a whole byte string.
pub open spec fn fold_bytes_spec(s: Seq<u8>) -> Seq<u8> {
    Seq::new(s.len(), |i: int| fold_byte_spec(s[i]))
}

/// The normalized form a value takes under a case mode: byte strings are
/// folded when the mode is insensitive, everything else is untouched.
pub open spec fn fold_value_spec(v: ValueV, case: Case) -> ValueV {
    match v {
        ValueV::Bytes(b) => if case is Insensitive {
            ValueV::Bytes(fold_bytes_spec(b))
        } else {
            ValueV::Bytes(b)
        },
        _ => v,
    }
}

fn fold_byte(c: u8) -> (r: u8)
    ensures
        r == fold_byte_spec(c),
{
    if 65 <= c && c <= 90 {
        c + 32
    } else {
        c
    }
}

/// Builds the case-folded copy of a byte string.
pub fn fold_bytes(s: &Vec<u8>) -> (r: Vec<u8>)
    ensures
        r@ == fold_bytes_spec(s@),
{
    let mut out: Vec<u8> = Vec::new();
    let mut i: usize = 0;
    while i < s.len()
        invariant
            i <= s.len(),
            out@.len() == i,
            forall|j: int| 0 <= j < i ==> out@[j] == fold_byte_spec(s@[j]),
        decreases s.len() - i,
    {
        out.push(fold_byte(s[i]));
        i = i + 1;
    }
    assert(out@ =~= fold_bytes_spec(s@));
    out
}

/// Builds the normalized form of a value under the given case mode.
pub fn fold_value(v: &Value, case: Case) -> (r: Value)
    ensures
        r.deep_view() == fold_value_spec(v.deep_view(), case),
{
    match v {
        Value::Bytes(b) => if case == Case::Insensitive {
            Value::Bytes(fold_bytes(b))
        } else {
            Value::Bytes(clone_bytes(b))
        },
        Value::Integer(i) => Value::Integer(*i),
        Value::Boolean(b) => Value::Boolean(*b),
        Value::Timestamp(t) => Value::Timestamp(*t),
        Value::Composite(entries) => Value::Composite(clone_entries(entries)),
    }
}

/// Copies a byte string.
pub fn clone_bytes(b: &Vec<u8>) -> (r: Vec<u8>)
    ensures
        r@ == b@,
{
    let mut out: Vec<u8> = Vec::new();
    let mut i: usize = 0;
    while i < b.len()
        invariant
            i <= b.len(),
            out@.len() == i,
            forall|j: int| 0 <= j < i ==> out@[j] == b@[j],
        decreases b.len() - i,
    {
        out.push(b[i]);
        i = i + 1;
    }
    assert(out@ =~= b@);
    out
}

/// Copies a value.
pub fn clone_value(v: &Value) -> (r: Value)
    ensures
        r.deep_view() == v.deep_view(),
    decreases *v,
{
    match v {
        Value::Bytes(b) => Value::Bytes(clone_bytes(b)),
        Value::Integer(i) => Value::Integer(*i),
        Value::Boolean(b) => Value::Boolean(*b),
        Value::Timestamp(t) => Value::Timestamp(*t),
        Value::Composite(entries) => Value::Composite(clone_entries(entries)),
    }
}

/// Copies a composite's entries.
fn clone_entries(entries: &Vec<(String, Value)>) -> (r: Vec<(String, Value)>)
    ensures
        entries_view(r) == entries_view(*entries),
    decreases *entries,
{
    let mut out: Vec<(String, Value)> = Vec::new();
    let mut i: usize = 0;
    while i < entries.len()
        invariant
            i <= entries@.len(),
            out@.len() == i,
            forall|j: int|
                0 <= j < i ==> (#[trigger] out@[j]).0@ == entries@[j].0@ && value_view(out@[j].1)
                    == value_view(entries@[j].1),
        decreases entries@.len() - i,
    {
        let name = entries[i].0.clone();
        let cell = clone_value(&entries[i].1);
        let ghost pre = out@;
        let ghost entry = (name, cell);
        out.push((name, cell));
        proof {
            assert(out@ =~= pre.push(entry));
        }
        i = i + 1;
    }
    proof {
        lemma_entries_view(out);
        lemma_entries_view(*entries);
        assert(entries_view(out) =~= entries_view(*entries));
    }
    out
}

/// Decides deep equality of two values.
pub fn value_equal(a: &Value, b: &Value) -> (r: bool)
    ensures
        r == (a.deep_view() == b.deep_view()),
    decreases *a,
{
    match (a, b) {
        (Value::Bytes(x), Value::Bytes(y)) => bytes_equal(x, y),
        (Value::Integer(x), Value::Integer(y)) => x == y,
        (Value::Boolean(x), Value::Boolean(y)) => x == y,
        (Value::Timestamp(x), Value::Timestamp(y)) => x == y,
        (Value::Composite(x), Value::Composite(y)) => composite_equal(x, y),
        _ => false,
    }
}

fn composite_equal(x: &Vec<(String, Value)>, y: &Vec<(String, Value)>) -> (r: bool)
    ensures
        r == (entries_view(*x) == entries_view(*y)),
    decreases *x,
{
    proof {
        lemma_entries_view(*x);
        lemma_entries_view(*y);
    }
    if x.len() != y.len() {
        assert(entries_view(*x).len() != entries_view(*y).len());
        return false;
    }
    let mut i: usize = 0;
    while i < x.len()
        invariant
            i <= x@.len(),
            x@.len() == y@.len(),
            entries_view(*x).len() == x@.len(),
            entries_view(*y).len() == y@.len(),
            forall|j: int|
                0 <= j < x@.len() ==> #[trigger] entries_view(*x)[j] == (
                    x@[j].0@,
                    value_view(x@[j].1),
                ),
            forall|j: int|
                0 <= j < y@.len() ==> #[trigger] entries_view(*y)[j] == (
                    y@[j].0@,
                    value_view(y@[j].1),
                ),
            forall|j: int| 0 <= j < i ==> entries_view(*x)[j] == entries_view(*y)[j],
        decreases x@.len() - i,
    {
        let key_hit = x[i].0.eq(&y[i].0);
        let val_hit = value_equal(&x[i].1, &y[i].1);
        if !(key_hit && val_hit) {
            proof {
                assert(entries_view(*x)[i as int] != entries_view(*y)[i as int]);
                if entries_view(*x) == entries_view(*y) {
                    assert(false);
                }
            }
            return false;
        }
        assert(entries_view(*x)[i as int] == entries_view(*y)[i as int]);
        i = i + 1;
    }
    assert(entries_view(*x) =~= entries_view(*y));
    true
}

fn bytes_equal(a: &Vec<u8>, b: &Vec<u8>) -> (r: bool)
    ensures
        r == (a@ == b@),
{
    if a.len() != b.len() {
        assert(a@ != b@) by {
            assert(a@.len() != b@.len());
        }
        return false;
    }
    let mut i: usize = 0;
    while i < a.len()
        invariant
            i <= a.len(),
            a@.len() == b@.len(),
            forall|j: int| 0 <= j < i ==> a@[j] == b@[j],
        decreases a.len() - i,
    {
        if a[i] != b[i] {
            return false;
        }
        i = i + 1;
    }
    assert(a@ =~= b@);
    true
}

/// Decides whether two values are the same after normalization under the
/// given case mode: this is the equality an exact-match condition and an
/// index key both use.
pub fn values_match(a: &Value, b: &Value, case: Case) -> (r: bool)
    ensures
        r == (fold_value_spec(a.deep_view(), case) == fold_value_spec(b.deep_view(), case)),
{
    match (a, b) {
        (Value::Bytes(x), Value::Bytes(y)) => {
            if case == Case::Insensitive {
                let fx = fold_bytes(x);
                let fy = fold_bytes(y);
                bytes_equal(&fx, &fy)
            } else {
                bytes_equal(x, y)
            }
        },
        (Value::Integer(x), Value::Integer(y)) => x == y,
        (Value::Boolean(x), Value::Boolean(y)) => x == y,
        (Value::Timestamp(x), Value::Timestamp(y)) => x == y,
        // folding leaves a composite alone: its comparison is deep equality
        (Value::Composite(x), Value::Composite(y)) => composite_equal(x, y),
        _ => false,
    }
}

/// Whether `v` lies between `from` and `to`, with the stated inclusivity at
/// each end.  Only integers and timestamps are ordered; a range over any
/// other kind, or with mismatched kinds, holds of no value.
pub open spec fn in_range_spec(
    v: ValueV,
    from: ValueV,
    to: ValueV,
    from_inclusive: bool,
    to_inclusive: bool,
) -> bool {
    match (v, from, to) {
        (ValueV::Integer(x), ValueV::Integer(lo), ValueV::Integer(hi)) => int_between(
            x,
            lo,
            hi,
            from_inclusive,
            to_inclusive,
        ),
        (ValueV::Timestamp(x), ValueV::Timestamp(lo), ValueV::Timestamp(hi)) => int_between(
            x,
            lo,
            hi,
            from_inclusive,
            to_inclusive,
        ),
        _ => false,
    }
}

pub open spec fn int_between(
    x: i64,
    lo: i64,
    hi: i64,
    from_inclusive: bool,
    to_inclusive: bool,
) -> bool {
    &&& if from_inclusive {
        lo <= x
    } else {
        lo < x
    }
    &&& if to_inclusive {
        x <= hi
    } else {
        x < hi
    }
}

/// Decides whether `v` lies in the given range; see [`in_range_spec`].
pub fn value_in_range(
    v: &Value,
    from: &Value,
    to: &Value,
    from_inclusive: bool,
    to_inclusive: bool,
) -> (r: bool)
    ensures
        r == in_range_spec(
            v.deep_view(),
            from.deep_view(),
            to.deep_view(),
            from_inclusive,
            to_inclusive,
        ),
{
    match (v, from, to) {
        (Value::Integer(x), Value::Integer(lo), Value::Integer(hi)) => {
            let lo_ok = if from_inclusive { *lo <= *x } else { *lo < *x };
            let hi_ok = if to_inclusive { *x <= *hi } else { *x < *hi };
            lo_ok && hi_ok
        },
        (Value::Timestamp(x), Value::Timestamp(lo), Value::Timestamp(hi)) => {
            let lo_ok = if from_inclusive { *lo <= *x } else { *lo < *x };
            let hi_ok = if to_inclusive { *x <= *hi } else { *x < *hi };
            lo_ok && hi_ok
        },
        _ => false,
    }
}

} // verus!
