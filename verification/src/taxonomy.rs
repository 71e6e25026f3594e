use crate::error::{ProgramError, ProgramFault};
use vstd::prelude::*;

verus! {

/// The kinds of operator a node can run.
#[derive(Clone, Copy, Debug, PartialEq, Eq, Hash, Structural)]
pub enum OperatorName {
    ExpressionWatermark,
    ArrowValue,
    ArrowKey,
    ArrowAggregate,
    Join,
    InstantJoin,
    TumblingWindowAggregate,
    SlidingWindowAggregate,
    SessionWindowAggregate,
    ConnectorSource,
    ConnectorSink,
}

/// How records travel along an edge.
#[derive(Clone, Copy, Debug, PartialEq, Eq, PartialOrd, Ord, Hash, Structural)]
pub enum LogicalEdgeType {
    Forward,
    Shuffle,
    LeftJoin,
    RightJoin,
}

/// The edge type as the wire carries it. `Unused` is the wire's zero value
/// and stands for no edge type.
#[derive(Clone, Copy, Debug, PartialEq, Eq, Hash, Structural)]
pub enum EdgeType {
    Unused,
    Forward,
    Shuffle,
    LeftJoin,
    RightJoin,
}

/// `std`'s equality of string slices: two slices are equal exactly when they
/// hold the same characters.
pub assume_specification[ <str as PartialEq>::eq ](a: &str, b: &str) -> (res: bool)
    ensures
        res == (a@ == b@),
;

/// The canonical text of an operator kind.
pub open spec fn operator_text(op: OperatorName) -> Seq<char> {
    match op {
        OperatorName::ExpressionWatermark => "ExpressionWatermark"@,
        OperatorName::ArrowValue => "ArrowValue"@,
        OperatorName::ArrowKey => "ArrowKey"@,
        OperatorName::ArrowAggregate => "ArrowAggregate"@,
        OperatorName::Join => "Join"@,
        OperatorName::InstantJoin => "InstantJoin"@,
        OperatorName::TumblingWindowAggregate => "TumblingWindowAggregate"@,
        OperatorName::SlidingWindowAggregate => "SlidingWindowAggregate"@,
        OperatorName::SessionWindowAggregate => "SessionWindowAggregate"@,
        OperatorName::ConnectorSource => "ConnectorSource"@,
        OperatorName::ConnectorSink => "ConnectorSink"@,
    }
}

/// The operator kind that a text names, if it names one.
pub open spec fn parse_operator(s: Seq<char>) -> Option<OperatorName> {
    if s == "ExpressionWatermark"@ {
        Some(OperatorName::ExpressionWatermark)
    } else if s == "ArrowValue"@ {
        Some(OperatorName::ArrowValue)
    } else if s == "ArrowKey"@ {
        Some(OperatorName::ArrowKey)
    } else if s == "ArrowAggregate"@ {
        Some(OperatorName::ArrowAggregate)
    } else if s == "Join"@ {
        Some(OperatorName::Join)
    } else if s == "InstantJoin"@ {
        Some(OperatorName::InstantJoin)
    } else if s == "TumblingWindowAggregate"@ {
        Some(OperatorName::TumblingWindowAggregate)
    } else if s == "SlidingWindowAggregate"@ {
        Some(OperatorName::SlidingWindowAggregate)
    } else if s == "SessionWindowAggregate"@ {
        Some(OperatorName::SessionWindowAggregate)
    } else if s == "ConnectorSource"@ {
        Some(OperatorName::ConnectorSource)
    } else if s == "ConnectorSink"@ {
        Some(OperatorName::ConnectorSink)
    } else {
        None
    }
}

proof fn lemma_operator_texts()
    ensures
        "ExpressionWatermark"@.len() == 19,
        "ArrowValue"@.len() == 10,
        "ArrowKey"@.len() == 8,
        "ArrowAggregate"@.len() == 14,
        "Join"@.len() == 4,
        "InstantJoin"@.len() == 11,
        "TumblingWindowAggregate"@.len() == 23,
        "SlidingWindowAggregate"@.len() == 22,
        "SessionWindowAggregate"@.len() == 22,
        "ConnectorSource"@.len() == 15,
        "ConnectorSink"@.len() == 13,
        "SlidingWindowAggregate"@[1] == 'l',
        "SessionWindowAggregate"@[1] == 'e',
{
    reveal_strlit("ExpressionWatermark");
    reveal_strlit("ArrowValue");
    reveal_strlit("ArrowKey");
    reveal_strlit("ArrowAggregate");
    reveal_strlit("Join");
    reveal_strlit("InstantJoin");
    reveal_strlit("TumblingWindowAggregate");
    reveal_strlit("SlidingWindowAggregate");
    reveal_strlit("SessionWindowAggregate");
    reveal_strlit("ConnectorSource");
    reveal_strlit("ConnectorSink");
}

/// Parsing the canonical text of an operator kind gives that kind back.
pub proof fn lemma_operator_round_trip(op: OperatorName)
    ensures
        parse_operator(operator_text(op)) == Some(op),
{
    lemma_operator_texts();
}

/// A text parses to an operator kind only if it is that kind's canonical
/// text, and fails to parse exactly when it is no kind's canonical text.
pub proof fn lemma_parse_operator_exact(s: Seq<char>)
    ensures
        match parse_operator(s) {
            Some(op) => s == operator_text(op),
            None => forall|op: OperatorName| s != #[trigger] operator_text(op),
        },
{
}

impl OperatorName {
    /// The canonical text of this operator kind.
    pub fn to_string(&self) -> (res: String)
        ensures
            res@ == operator_text(*self),
    {
        match self {
            OperatorName::ExpressionWatermark => "ExpressionWatermark".to_owned(),
            OperatorName::ArrowValue => "ArrowValue".to_owned(),
            OperatorName::ArrowKey => "ArrowKey".to_owned(),
            OperatorName::ArrowAggregate => "ArrowAggregate".to_owned(),
            OperatorName::Join => "Join".to_owned(),
            OperatorName::InstantJoin => "InstantJoin".to_owned(),
            OperatorName::TumblingWindowAggregate => "TumblingWindowAggregate".to_owned(),
            OperatorName::SlidingWindowAggregate => "SlidingWindowAggregate".to_owned(),
            OperatorName::SessionWindowAggregate => "SessionWindowAggregate".to_owned(),
            OperatorName::ConnectorSource => "ConnectorSource".to_owned(),
            OperatorName::ConnectorSink => "ConnectorSink".to_owned(),
        }
    }

    /// Reads an operator kind from its canonical text. Any other text is
    /// rejected with `UnknownOperator`, which carries the text.
    pub fn try_from(s: &str) -> (res: Result<OperatorName, ProgramError>)
        ensures
            match res {
                Ok(op) => parse_operator(s@) == Some(op),
                Err(e) => parse_operator(s@) is None && e@ == (ProgramFault::UnknownOperator {
                    name: s@,
                }),
            },
    {
        if s.eq("ExpressionWatermark") {
            Ok(OperatorName::ExpressionWatermark)
        } else if s.eq("ArrowValue") {
            Ok(OperatorName::ArrowValue)
        } else if s.eq("ArrowKey") {
            Ok(OperatorName::ArrowKey)
        } else if s.eq("ArrowAggregate") {
            Ok(OperatorName::ArrowAggregate)
        } else if s.eq("Join") {
            Ok(OperatorName::Join)
        } else if s.eq("InstantJoin") {
            Ok(OperatorName::InstantJoin)
        } else if s.eq("TumblingWindowAggregate") {
            Ok(OperatorName::TumblingWindowAggregate)
        } else if s.eq("SlidingWindowAggregate") {
            Ok(OperatorName::SlidingWindowAggregate)
        } else if s.eq("SessionWindowAggregate") {
            Ok(OperatorName::SessionWindowAggregate)
        } else if s.eq("ConnectorSource") {
            Ok(OperatorName::ConnectorSource)
        } else if s.eq("ConnectorSink") {
            Ok(OperatorName::ConnectorSink)
        } else {
            Err(ProgramError::UnknownOperator { name: s.to_owned() })
        }
    }
}

/// The wire value of an edge type.
pub open spec fn wire_edge_type(t: LogicalEdgeType) -> EdgeType {
    match t {
        LogicalEdgeType::Forward => EdgeType::Forward,
        LogicalEdgeType::Shuffle => EdgeType::Shuffle,
        LogicalEdgeType::LeftJoin => EdgeType::LeftJoin,
        LogicalEdgeType::RightJoin => EdgeType::RightJoin,
    }
}

/// The edge type that a wire value stands for; the sentinel stands for none.
pub open spec fn logical_edge_type(t: EdgeType) -> Option<LogicalEdgeType> {
    match t {
        EdgeType::Unused => None,
        EdgeType::Forward => Some(LogicalEdgeType::Forward),
        EdgeType::Shuffle => Some(LogicalEdgeType::Shuffle),
        EdgeType::LeftJoin => Some(LogicalEdgeType::LeftJoin),
        EdgeType::RightJoin => Some(LogicalEdgeType::RightJoin),
    }
}

/// The number that the wire writes for an edge type.
pub open spec fn edge_type_number(t: EdgeType) -> int {
    match t {
        EdgeType::Unused => 0,
        EdgeType::Forward => 1,
        EdgeType::Shuffle => 2,
        EdgeType::LeftJoin => 3,
        EdgeType::RightJoin => 4,
    }
}

/// The edge type that a number on the wire is read as. A number that no
/// edge type is written as reads as the sentinel.
pub open spec fn edge_type_of_number(n: int) -> EdgeType {
    if n == 1 {
        EdgeType::Forward
    } else if n == 2 {
        EdgeType::Shuffle
    } else if n == 3 {
        EdgeType::LeftJoin
    } else if n == 4 {
        EdgeType::RightJoin
    } else {
        EdgeType::Unused
    }
}

/// The glyph that diagnostics draw for an edge type.
pub open spec fn edge_glyph(t: LogicalEdgeType) -> Seq<char> {
    match t {
        LogicalEdgeType::Forward => "→"@,
        LogicalEdgeType::Shuffle => "⤨"@,
        LogicalEdgeType::LeftJoin => "-[left]⤨"@,
        LogicalEdgeType::RightJoin => "-[right]⤨"@,
    }
}

/// The name of an edge type's variant.
pub open spec fn edge_type_name(t: LogicalEdgeType) -> Seq<char> {
    match t {
        LogicalEdgeType::Forward => "Forward"@,
        LogicalEdgeType::Shuffle => "Shuffle"@,
        LogicalEdgeType::LeftJoin => "LeftJoin"@,
        LogicalEdgeType::RightJoin => "RightJoin"@,
    }
}

/// Every edge type survives the trip to the wire and back, through the
/// wire's enum and through its number, and never lands on the sentinel.
pub proof fn lemma_edge_type_round_trip(t: LogicalEdgeType)
    ensures
        wire_edge_type(t) != EdgeType::Unused,
        logical_edge_type(wire_edge_type(t)) == Some(t),
        edge_type_of_number(edge_type_number(wire_edge_type(t))) == wire_edge_type(t),
{
}

/// Two different edge types are drawn with different glyphs.
pub proof fn lemma_edge_glyphs_distinct(a: LogicalEdgeType, b: LogicalEdgeType)
    requires
        a != b,
    ensures
        edge_glyph(a) != edge_glyph(b),
{
    reveal_strlit("→");
    reveal_strlit("⤨");
    reveal_strlit("-[left]⤨");
    reveal_strlit("-[right]⤨");
    assert("→"@.len() == 1 && "→"@[0] == '→');
    assert("⤨"@.len() == 1 && "⤨"@[0] == '⤨');
    assert("-[left]⤨"@.len() == 8);
    assert("-[right]⤨"@.len() == 9);
    assert('→' != '⤨');
}

impl LogicalEdgeType {
    /// The glyph that diagnostics draw for this edge type.
    pub fn to_string(&self) -> (res: String)
        ensures
            res@ == edge_glyph(*self),
    {
        match self {
            LogicalEdgeType::Forward => "→".to_owned(),
            LogicalEdgeType::Shuffle => "⤨".to_owned(),
            LogicalEdgeType::LeftJoin => "-[left]⤨".to_owned(),
            LogicalEdgeType::RightJoin => "-[right]⤨".to_owned(),
        }
    }

    /// The name of this variant, as observers of a job see it.
    pub fn variant_name(&self) -> (res: String)
        ensures
            res@ == edge_type_name(*self),
    {
        match self {
            LogicalEdgeType::Forward => "Forward".to_owned(),
            LogicalEdgeType::Shuffle => "Shuffle".to_owned(),
            LogicalEdgeType::LeftJoin => "LeftJoin".to_owned(),
            LogicalEdgeType::RightJoin => "RightJoin".to_owned(),
        }
    }

    /// Reads an edge type from its wire value. The sentinel is rejected
    /// with `SentinelEdgeType`; every other value is accepted.
    pub fn try_from(value: EdgeType) -> (res: Result<LogicalEdgeType, ProgramError>)
        ensures
            match res {
                Ok(t) => logical_edge_type(value) == Some(t),
                Err(e) => value == EdgeType::Unused && e@ == ProgramFault::SentinelEdgeType,
            },
    {
        match value {
            EdgeType::Unused => Err(ProgramError::SentinelEdgeType),
            EdgeType::Forward => Ok(LogicalEdgeType::Forward),
            EdgeType::Shuffle => Ok(LogicalEdgeType::Shuffle),
            EdgeType::LeftJoin => Ok(LogicalEdgeType::LeftJoin),
            EdgeType::RightJoin => Ok(LogicalEdgeType::RightJoin),
        }
    }
}

impl From<LogicalEdgeType> for EdgeType {
    fn from(value: LogicalEdgeType) -> (res: EdgeType) {
        match value {
            LogicalEdgeType::Forward => EdgeType::Forward,
            LogicalEdgeType::Shuffle => EdgeType::Shuffle,
            LogicalEdgeType::LeftJoin => EdgeType::LeftJoin,
            LogicalEdgeType::RightJoin => EdgeType::RightJoin,
        }
    }
}

impl vstd::std_specs::convert::FromSpecImpl<LogicalEdgeType> for EdgeType {
    open spec fn obeys_from_spec() -> bool {
        true
    }

    open spec fn from_spec(v: LogicalEdgeType) -> EdgeType {
        wire_edge_type(v)
    }
}

impl EdgeType {
    /// The number that the wire writes for this edge type.
    pub fn to_i32(self) -> (n: i32)
        ensures
            n == edge_type_number(self),
    {
        match self {
            EdgeType::Unused => 0,
            EdgeType::Forward => 1,
            EdgeType::Shuffle => 2,
            EdgeType::LeftJoin => 3,
            EdgeType::RightJoin => 4,
        }
    }

    /// The edge type that a number on the wire is read as.
    pub fn from_i32(n: i32) -> (t: EdgeType)
        ensures
            t == edge_type_of_number(n as int),
    {
        if n == 1 {
            EdgeType::Forward
        } else if n == 2 {
            EdgeType::Shuffle
        } else if n == 3 {
            EdgeType::LeftJoin
        } else if n == 4 {
            EdgeType::RightJoin
        } else {
            EdgeType::Unused
        }
    }
}

} // verus!
