use vstd::prelude::*;

verus! {

/// What is wrong with the schema of an edge. Each index fault carries the
/// offending index.
#[derive(Clone, Copy, Debug, PartialEq, Eq, Structural)]
pub enum SchemaFault {
    /// The edge carries no schema at all.
    Missing,
    /// The field description is not a well-formed structured type.
    Malformed,
    /// The timestamp index is not a field position.
    TimestampIndex(usize),
    /// A key index is not a field position.
    KeyIndex(usize),
    /// A projected column is not a field position.
    ProjectionIndex(usize),
}

/// Why a name, an edge type or a wire program was rejected.
#[derive(Debug, PartialEq, Eq)]
pub enum ProgramError {
    /// The text is not the canonical name of any operator.
    UnknownOperator { name: String },
    /// An edge names a node index that no node of the program carries.
    DanglingEdgeReference { index: i32 },
    /// An edge's schema is absent, malformed or indexes past its fields.
    InvalidSchema { fault: SchemaFault },
    /// A type blob of the named function does not decode.
    InvalidUdfType { udf: String },
    /// An edge type is the reserved wire value that stands for no type.
    SentinelEdgeType,
    /// A number of the program is wider than the wire's field for it.
    ExceedsWire,
}

/// The mathematical content of a [`ProgramError`].
pub enum ProgramFault {
    UnknownOperator { name: Seq<char> },
    DanglingEdgeReference { index: int },
    InvalidSchema { fault: SchemaFault },
    InvalidUdfType { udf: Seq<char> },
    SentinelEdgeType,
    ExceedsWire,
}

impl View for ProgramError {
    type V = ProgramFault;

    open spec fn view(&self) -> ProgramFault {
        match *self {
            ProgramError::UnknownOperator { name } => ProgramFault::UnknownOperator { name: name@ },
            ProgramError::DanglingEdgeReference { index } => ProgramFault::DanglingEdgeReference {
                index: index as int,
            },
            ProgramError::InvalidSchema { fault } => ProgramFault::InvalidSchema { fault },
            ProgramError::InvalidUdfType { udf } => ProgramFault::InvalidUdfType { udf: udf@ },
            ProgramError::SentinelEdgeType => ProgramFault::SentinelEdgeType,
            ProgramError::ExceedsWire => ProgramFault::ExceedsWire,
        }
    }
}

impl Clone for ProgramError {
    fn clone(&self) -> (res: Self)
        ensures
            res@ == self@,
    {
        match self {
            ProgramError::UnknownOperator { name } => ProgramError::UnknownOperator {
                name: name.clone(),
            },
            ProgramError::DanglingEdgeReference { index } => ProgramError::DanglingEdgeReference {
                index: *index,
            },
            ProgramError::InvalidSchema { fault } => ProgramError::InvalidSchema { fault: *fault },
            ProgramError::InvalidUdfType { udf } => ProgramError::InvalidUdfType { udf: udf.clone() },
            ProgramError::SentinelEdgeType => ProgramError::SentinelEdgeType,
            ProgramError::ExceedsWire => ProgramError::ExceedsWire,
        }
    }
}

} // verus!
