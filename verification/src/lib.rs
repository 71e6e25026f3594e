//! Logical dataflow graphs for a streaming engine: operators, typed edges,
//! graph queries, the wire form of a program and its content fingerprint.

pub mod bytes;
pub mod codec;
pub mod config;
pub mod elements;
pub mod error;
pub mod fingerprint;
pub mod graph;
pub mod job_graph;
pub mod names;
pub mod program;
pub mod public_ids;
pub mod round_trip;
pub mod taxonomy;
pub mod unique;
pub mod wire;

pub use config::{
    ArrowDylibUdfConfig, ArrowProgramConfig, ArrowUdfEntry, DylibUdfConfig, ProgramConfig, UdfEntry,
};
pub use elements::{ArroyoSchema, LogicalEdge, LogicalNode};
pub use error::{ProgramError, ProgramFault, SchemaFault};
pub use graph::LogicalGraph;
pub use job_graph::{JobEdge, JobGraph, JobNode};
pub use program::LogicalProgram;
pub use public_ids::{generate_id, IdTypes};
pub use taxonomy::{EdgeType, LogicalEdgeType, OperatorName};
pub use vstd::hash_map::StringHashMap;
pub use wire::{ArrowEdge, ArrowNode, ArrowProgram};
