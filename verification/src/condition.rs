//! Runtime predicate terms, and the classification of resolved event values
//! into exact-match or range conditions.

use vstd::prelude::*;

use crate::error::Error;
use crate::value::Value;
use crate::value::ValueV;
use crate::value::clone_value;

verus! {

/// One predicate term of a lookup: a column name together with either an
/// exact value or a two-ended range.
#[derive(Debug, PartialEq)]
pub enum Condition {
    Exact { field: String, value: Value },
    Range {
        field: String,
        from: Value,
        to: Value,
        from_inclusive: bool,
        to_inclusive: bool,
    },
}

/// The mathematical model of a [`Condition`].
pub enum CondV {
    Exact { field: Seq<char>, value: ValueV },
    Range {
        field: Seq<char>,
        from: ValueV,
        to: ValueV,
        from_inclusive: bool,
        to_inclusive: bool,
    },
}

impl DeepView for Condition {
    type V = CondV;

    open spec fn deep_view(&self) -> CondV {
        match self {
            Condition::Exact { field, value } => CondV::Exact {
                field: field@,
                value: value.deep_view(),
            },
            Condition::Range { field, from, to, from_inclusive, to_inclusive } => CondV::Range {
                field: field@,
                from: from.deep_view(),
                to: to.deep_view(),
                from_inclusive: *from_inclusive,
                to_inclusive: *to_inclusive,
            },
        }
    }
}

/// What a predicate sub-expression resolved to for the current event: either
/// a plain scalar, or a keyed mapping (the only mapping shape the engine
/// accepts is a two-ended range, see [`evaluate_condition`]).
#[derive(Debug, PartialEq)]
pub enum ResolvedValue {
    Scalar(Value),
    Object(Vec<(String, Value)>),
}

/// The mathematical model of a [`ResolvedValue`].
pub enum ResolvedV {
    Scalar(ValueV),
    Object(Seq<(Seq<char>, ValueV)>),
}

impl DeepView for ResolvedValue {
    type V = ResolvedV;

    open spec fn deep_view(&self) -> ResolvedV {
        match self {
            ResolvedValue::Scalar(v) => ResolvedV::Scalar(v.deep_view()),
            ResolvedValue::Object(entries) => ResolvedV::Object(entries.deep_view()),
        }
    }
}

/// Whether a resolved mapping has the two-ended range shape: exactly the
/// keys `from` and `to`, in either order, both holding timestamps.
pub open spec fn range_shape(entries: Seq<(Seq<char>, ValueV)>) -> bool {
    &&& entries.len() == 2
    &&& {
        ||| (entries[0].0 == "from"@ && entries[1].0 == "to"@)
        ||| (entries[0].0 == "to"@ && entries[1].0 == "from"@)
    }
    &&& entries[0].1 is Timestamp
    &&& entries[1].1 is Timestamp
}

/// The lower bound of a range-shaped mapping.
pub open spec fn range_from(entries: Seq<(Seq<char>, ValueV)>) -> ValueV {
    if entries[0].0 == "from"@ {
        entries[0].1
    } else {
        entries[1].1
    }
}

/// The upper bound of a range-shaped mapping.
pub open spec fn range_to(entries: Seq<(Seq<char>, ValueV)>) -> ValueV {
    if entries[0].0 == "from"@ {
        entries[1].1
    } else {
        entries[0].1
    }
}

/// What [`evaluate_condition`] returns for a given field and resolved value.
pub open spec fn evaluate_condition_spec(field: Seq<char>, value: ResolvedV) -> Result<
    CondV,
    Error,
> {
    match value {
        ResolvedV::Scalar(v) => Ok(CondV::Exact { field, value: v }),
        ResolvedV::Object(entries) => if range_shape(entries) {
            Ok(
                CondV::Range {
                    field,
                    from: range_from(entries),
                    to: range_to(entries),
                    from_inclusive: true,
                    to_inclusive: true,
                },
            )
        } else {
            Err(Error::ConditionTypeError)
        },
    }
}

/// Classifies the value a predicate sub-expression resolved to: a scalar
/// becomes an exact-match condition, a mapping with exactly a `from` and a
/// `to` timestamp becomes an inclusive range, and every other shape is
/// rejected with [`Error::ConditionTypeError`].
pub fn evaluate_condition(field: &str, value: &ResolvedValue) -> (r: Result<Condition, Error>)
    ensures
        (match r {
            Ok(c) => Ok::<CondV, Error>(c.deep_view()),
            Err(e) => Err(e),
        }) == evaluate_condition_spec(field@, value.deep_view()),
{
    match value {
        ResolvedValue::Scalar(v) => Ok(
            Condition::Exact { field: field.to_owned(), value: clone_value(v) },
        ),
        ResolvedValue::Object(entries) => {
            let from_key: String = "from".to_owned();
            let to_key: String = "to".to_owned();
            if entries.len() != 2 {
                return Err(Error::ConditionTypeError);
            }
            let straight = entries[0].0 == from_key && entries[1].0 == to_key;
            let swapped = entries[0].0 == to_key && entries[1].0 == from_key;
            if !(straight || swapped) {
                return Err(Error::ConditionTypeError);
            }
            let first_ts = matches!(&entries[0].1, Value::Timestamp(_));
            let second_ts = matches!(&entries[1].1, Value::Timestamp(_));
            if !(first_ts && second_ts) {
                return Err(Error::ConditionTypeError);
            }
            let first_value = clone_value(&entries[0].1);
            let second_value = clone_value(&entries[1].1);
            if straight {
                Ok(
                    Condition::Range {
                        field: field.to_owned(),
                        from: first_value,
                        to: second_value,
                        from_inclusive: true,
                        to_inclusive: true,
                    },
                )
            } else {
                Ok(
                    Condition::Range {
                        field: field.to_owned(),
                        from: second_value,
                        to: first_value,
                        from_inclusive: true,
                        to_inclusive: true,
                    },
                )
            }
        },
    }
}

} // verus!
