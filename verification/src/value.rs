//! The value carried by one sensor reading.
//!
//! Numeric readings are fixed-point integers in a scale chosen by the
//! caller; the library only compares and subtracts them, so the scale never
//! matters to any check. `NotANumber` stands for a reading whose decoded
//! value was not a finite number; `Null` is the nulled value written by a
//! level whose `errorflag` is set.

use vstd::prelude::*;

verus! {

/// One reading's value.
#[derive(Debug)]
pub enum DataType {
    /// A decoded timestamp, as seconds since the epoch.
    Datetime(i64),
    /// An integer reading, in raw units.
    Integer(i64),
    /// A finite numeric reading, as a fixed-point integer.
    Numeric(i64),
    /// A numeric reading that was not a finite number.
    NotANumber,
    /// A text reading.
    Text(String),
    /// No value: never decoded, or nulled by a failing error level.
    Null,
}

/// Mathematical image of a `DataType`.
pub ghost enum DataValue {
    Datetime(int),
    Integer(int),
    Numeric(int),
    NotANumber,
    Text(Seq<char>),
    Null,
}

impl View for DataType {
    type V = DataValue;

    open spec fn view(&self) -> DataValue {
        match *self {
            DataType::Datetime(t) => DataValue::Datetime(t as int),
            DataType::Integer(v) => DataValue::Integer(v as int),
            DataType::Numeric(v) => DataValue::Numeric(v as int),
            DataType::NotANumber => DataValue::NotANumber,
            DataType::Text(ref s) => DataValue::Text(s@),
            DataType::Null => DataValue::Null,
        }
    }
}

/// The number a value stands for, if it stands for one.
pub open spec fn num64_of(v: DataValue) -> Option<i64> {
    match v {
        DataValue::Integer(n) => Some(n as i64),
        DataValue::Numeric(n) => Some(n as i64),
        _ => Option::None,
    }
}

impl DataType {
    /// The number this value stands for, if it stands for one.
    pub fn to_number(&self) -> (r: Option<i64>)
        ensures
            r == num64_of(self@),
    {
        match *self {
            DataType::Integer(n) => Some(n),
            DataType::Numeric(n) => Some(n),
            _ => None,
        }
    }
}

impl Clone for DataType {
    fn clone(&self) -> (res: Self)
        ensures
            res@ == self@,
    {
        match *self {
            DataType::Datetime(t) => DataType::Datetime(t),
            DataType::Integer(v) => DataType::Integer(v),
            DataType::Numeric(v) => DataType::Numeric(v),
            DataType::NotANumber => DataType::NotANumber,
            DataType::Text(ref s) => DataType::Text(s.clone()),
            DataType::Null => DataType::Null,
        }
    }
}

impl PartialEq for DataType {
    fn eq(&self, other: &DataType) -> (r: bool) {
        match (self, other) {
            (DataType::Datetime(a), DataType::Datetime(b)) => *a == *b,
            (DataType::Integer(a), DataType::Integer(b)) => *a == *b,
            (DataType::Numeric(a), DataType::Numeric(b)) => *a == *b,
            (DataType::NotANumber, DataType::NotANumber) => true,
            (DataType::Text(a), DataType::Text(b)) => *a == *b,
            (DataType::Null, DataType::Null) => true,
            _ => false,
        }
    }
}

impl vstd::std_specs::cmp::PartialEqSpecImpl for DataType {
    open spec fn obeys_eq_spec() -> bool {
        true
    }

    open spec fn eq_spec(&self, other: &DataType) -> bool {
        self@ == other@
    }
}

} // verus!
