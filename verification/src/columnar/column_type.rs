//! The types that a column can have.

use vstd::prelude::*;

verus! {

/// The type of a column. Several columns may share a name, if their types differ.
#[derive(Debug, Clone, Copy, PartialEq, Eq, Structural)]
pub enum ColumnType {
    I64,
    U64,
    F64,
    Bytes,
    Str,
    Bool,
    IpAddr,
    DateTime,
}

/// A code or a footer that stands for nothing.
#[derive(Debug, Clone, Copy, PartialEq, Eq, Structural)]
pub struct InvalidData;

impl ColumnType {
    /// The code that stands for this type in a column dictionary key.
    pub open spec fn code(self) -> u8 {
        match self {
            ColumnType::I64 => 0,
            ColumnType::U64 => 1,
            ColumnType::F64 => 2,
            ColumnType::Bytes => 3,
            ColumnType::Str => 4,
            ColumnType::Bool => 5,
            ColumnType::IpAddr => 6,
            ColumnType::DateTime => 7,
        }
    }

    /// The code that stands for this type.
    pub fn to_code(self) -> (code: u8)
        ensures
            code == self.code(),
    {
        match self {
            ColumnType::I64 => 0,
            ColumnType::U64 => 1,
            ColumnType::F64 => 2,
            ColumnType::Bytes => 3,
            ColumnType::Str => 4,
            ColumnType::Bool => 5,
            ColumnType::IpAddr => 6,
            ColumnType::DateTime => 7,
        }
    }

    /// The type that `code` stands for.
    pub fn try_from_code(code: u8) -> (column_type: Result<ColumnType, InvalidData>)
        ensures
            match column_type {
                Ok(column_type) => column_type.code() == code,
                Err(_) => forall|column_type: ColumnType| column_type.code() != code,
            },
    {
        match code {
            0 => Ok(ColumnType::I64),
            1 => Ok(ColumnType::U64),
            2 => Ok(ColumnType::F64),
            3 => Ok(ColumnType::Bytes),
            4 => Ok(ColumnType::Str),
            5 => Ok(ColumnType::Bool),
            6 => Ok(ColumnType::IpAddr),
            7 => Ok(ColumnType::DateTime),
            _ => Err(InvalidData),
        }
    }
}

/// The type that `code` stands for, if there is one.
pub open spec fn type_of_code(code: u8) -> Option<ColumnType> {
    if exists|column_type: ColumnType| column_type.code() == code {
        Some(choose|column_type: ColumnType| column_type.code() == code)
    } else {
        None
    }
}

/// Each type has a code of its own.
pub proof fn law_codes_are_distinct(a: ColumnType, b: ColumnType)
    requires
        a.code() == b.code(),
    ensures
        a == b,
{
}

/// The code of a type stands for that type.
pub proof fn law_code_roundtrip(column_type: ColumnType)
    ensures
        type_of_code(column_type.code()) == Some(column_type),
{
    let code = column_type.code();
    let found = choose|other: ColumnType| other.code() == code;
    assert(found.code() == code);
    law_codes_are_distinct(found, column_type);
}

} // verus!
