use crate::error::{ProgramError, ProgramFault, SchemaFault};
use crate::taxonomy::{LogicalEdgeType, OperatorName};
use vstd::prelude::*;

verus! {

/// `arrow_schema::Schema`, carried as it is.
#[verifier::external_type_specification]
#[verifier::external_body]
pub struct ExArrowSchema(arrow_schema::Schema);

/// The number of top-level fields of the schema that a JSON text describes;
/// `None` where the text does not describe a schema.
pub uninterp spec fn schema_text_fields(text: Seq<char>) -> Option<usize>;

/// Reads `text` with `serde_json::from_str` as an `arrow_schema::Schema` and
/// counts the schema's fields with `Schema::fields`. The contract names the
/// outcome: the reading depends on the text alone. Nothing more is claimed
/// of which texts are accepted.
#[verifier::external_body]
fn count_schema_fields(text: &str) -> (res: Option<usize>)
    ensures
        res == schema_text_fields(text@),
{
    match serde_json::from_str::<arrow_schema::Schema>(text) {
        Ok(schema) => Some(schema.fields().len()),
        Err(_) => None,
    }
}

/// The JSON text that the writer gives for a schema; `None` where the
/// writer reports an error.
pub uninterp spec fn schema_json(schema: arrow_schema::Schema) -> Option<Seq<char>>;

/// Writes a schema as JSON with `serde_json::to_string`; `None` where the
/// writer reports an error. The contract names the outcome: the schema
/// holds its fields in a list and its metadata in an ordered map, so what
/// is written depends on the schema alone. Nothing more is claimed of the
/// text.
#[verifier::external_body]
fn schema_to_text(schema: &arrow_schema::Schema) -> (res: Option<String>)
    ensures
        match res {
            Some(text) => schema_json(*schema) == Some(text@),
            None => schema_json(*schema) is None,
        },
{
    serde_json::to_string(schema).ok()
}

/// The schema of the records on an edge: their fields, as a JSON text, the
/// position of the timestamp field and the positions of the key fields.
#[derive(Debug, PartialEq, Eq)]
pub struct ArroyoSchema {
    pub schema: String,
    pub timestamp_index: usize,
    pub key_indices: Vec<usize>,
}

pub struct SchemaView {
    pub schema: Seq<char>,
    pub timestamp_index: usize,
    pub key_indices: Seq<usize>,
}

/// The first entry of `indices`, from position `from` on, that is no
/// position among `fields` fields.
pub open spec fn first_index_outside(indices: Seq<usize>, fields: usize, from: int) -> Option<usize>
    decreases indices.len() - from,
{
    if from < 0 || from >= indices.len() {
        None
    } else if indices[from] >= fields {
        Some(indices[from])
    } else {
        first_index_outside(indices, fields, from + 1)
    }
}

/// No entry of `indices` is outside `fields` exactly when every entry is a
/// position among them.
pub proof fn lemma_first_index_outside(indices: Seq<usize>, fields: usize, from: int)
    requires
        0 <= from,
    ensures
        first_index_outside(indices, fields, from) is None <==> (forall|i: int|
            from <= i < indices.len() ==> indices[i] < fields),
        first_index_outside(indices, fields, from) matches Some(k) ==> k >= fields,
    decreases indices.len() - from,
{
    if from < indices.len() && indices[from] < fields {
        lemma_first_index_outside(indices, fields, from + 1);
    }
}

impl SchemaView {
    /// What is wrong with this schema, if anything: the first of a text that
    /// describes no fields, a timestamp index past them, a key index past
    /// them.
    pub open spec fn fault(self) -> Option<SchemaFault> {
        match schema_text_fields(self.schema) {
            None => Some(SchemaFault::Malformed),
            Some(n) => if self.timestamp_index >= n {
                Some(SchemaFault::TimestampIndex(self.timestamp_index))
            } else {
                match first_index_outside(self.key_indices, n, 0) {
                    Some(k) => Some(SchemaFault::KeyIndex(k)),
                    None => None,
                }
            },
        }
    }

    /// The text describes fields, and the timestamp index and every key
    /// index are positions among them.
    pub open spec fn wf(self) -> bool {
        &&& schema_text_fields(self.schema) matches Some(n)
        &&& self.timestamp_index < n
        &&& forall|i: int| 0 <= i < self.key_indices.len() ==> self.key_indices[i] < n
    }

    /// The number of fields; meaningful where the text describes any.
    pub open spec fn fields(self) -> usize {
        schema_text_fields(self.schema).unwrap()
    }

    /// A schema is well formed exactly when nothing is wrong with it.
    pub proof fn lemma_fault_wf(self)
        ensures
            self.fault() is None <==> self.wf(),
    {
        if let Some(n) = schema_text_fields(self.schema) {
            lemma_first_index_outside(self.key_indices, n, 0);
        }
    }
}

impl View for ArroyoSchema {
    type V = SchemaView;

    open spec fn view(&self) -> SchemaView {
        SchemaView {
            schema: self.schema@,
            timestamp_index: self.timestamp_index,
            key_indices: self.key_indices@,
        }
    }
}

impl Clone for ArroyoSchema {
    fn clone(&self) -> (res: Self)
        ensures
            res@ == self@,
    {
        ArroyoSchema {
            schema: self.schema.clone(),
            timestamp_index: self.timestamp_index,
            key_indices: self.key_indices.clone(),
        }
    }
}

/// The first of `indices`, from the start, that is no position among
/// `fields` fields.
pub fn find_index_outside(indices: &Vec<usize>, fields: usize) -> (res: Option<usize>)
    ensures
        res == first_index_outside(indices@, fields, 0),
{
    let mut i: usize = 0;
    while i < indices.len()
        invariant
            i <= indices.len(),
            first_index_outside(indices@, fields, 0) == first_index_outside(
                indices@,
                fields,
                i as int,
            ),
        decreases indices.len() - i,
    {
        if indices[i] >= fields {
            return Some(indices[i]);
        }
        i += 1;
    }
    None
}

impl ArroyoSchema {
    /// Puts a schema together from its parts, as they are.
    pub fn new(schema: String, timestamp_index: usize, key_indices: Vec<usize>) -> (res: Self)
        ensures
            res.schema@ == schema@,
            res.timestamp_index == timestamp_index,
            res.key_indices@ == key_indices@,
    {
        ArroyoSchema { schema, timestamp_index, key_indices }
    }

    /// Checks this schema. Gives the number of its fields where it is well
    /// formed, and otherwise what is wrong with it.
    pub fn check(&self) -> (res: Result<usize, SchemaFault>)
        ensures
            match res {
                Ok(n) => self@.wf() && n == self@.fields(),
                Err(fault) => self@.fault() == Some(fault),
            },
    {
        proof {
            self@.lemma_fault_wf();
        }
        match count_schema_fields(self.schema.as_str()) {
            None => Err(SchemaFault::Malformed),
            Some(n) => {
                if self.timestamp_index >= n {
                    Err(SchemaFault::TimestampIndex(self.timestamp_index))
                } else {
                    match find_index_outside(&self.key_indices, n) {
                        Some(k) => Err(SchemaFault::KeyIndex(k)),
                        None => Ok(n),
                    }
                }
            },
        }
    }

    /// A checked schema from its parts: the schema itself where it is well
    /// formed, and otherwise `InvalidSchema` with the first thing wrong
    /// with it.
    pub fn from_text(schema: String, timestamp_index: usize, key_indices: Vec<usize>) -> (res:
        Result<Self, ProgramError>)
        ensures
            match res {
                Ok(s) => s@.wf() && s@ == (SchemaView {
                    schema: schema@,
                    timestamp_index,
                    key_indices: key_indices@,
                }),
                Err(e) => (SchemaView {
                    schema: schema@,
                    timestamp_index,
                    key_indices: key_indices@,
                }).fault() matches Some(fault) && e@ == (ProgramFault::InvalidSchema { fault }),
            },
    {
        let res = ArroyoSchema::new(schema, timestamp_index, key_indices);
        match res.check() {
            Ok(_) => Ok(res),
            Err(fault) => Err(ProgramError::InvalidSchema { fault }),
        }
    }

    /// Takes the field description from an `arrow_schema::Schema`: the text
    /// is the one that the JSON writer gives for it, and the schema is then
    /// checked as `from_text` checks it. So the result is the schema with
    /// that text where it is well formed, and otherwise `InvalidSchema`
    /// with the first thing wrong with it; a writer that fails counts as a
    /// malformed schema.
    pub fn from_arrow(
        schema: &arrow_schema::Schema,
        timestamp_index: usize,
        key_indices: Vec<usize>,
    ) -> (res: Result<Self, ProgramError>)
        ensures
            match res {
                Ok(s) => schema_json(*schema) == Some(s@.schema) && s@.wf() && s.timestamp_index
                    == timestamp_index && s.key_indices@ == key_indices@,
                Err(e) => match schema_json(*schema) {
                    None => e@ == (ProgramFault::InvalidSchema { fault: SchemaFault::Malformed }),
                    Some(text) => (SchemaView {
                        schema: text,
                        timestamp_index,
                        key_indices: key_indices@,
                    }).fault() matches Some(fault) && e@ == (ProgramFault::InvalidSchema {
                        fault,
                    }),
                },
            },
    {
        match schema_to_text(schema) {
            Some(text) => ArroyoSchema::from_text(text, timestamp_index, key_indices),
            None => Err(ProgramError::InvalidSchema { fault: SchemaFault::Malformed }),
        }
    }
}

/// One operator of a program.
#[derive(Debug, PartialEq, Eq)]
pub struct LogicalNode {
    pub operator_id: String,
    pub description: String,
    pub operator_name: OperatorName,
    pub operator_config: Vec<u8>,
    pub parallelism: usize,
}

pub struct NodeView {
    pub operator_id: Seq<char>,
    pub description: Seq<char>,
    pub operator_name: OperatorName,
    pub operator_config: Seq<u8>,
    pub parallelism: usize,
}

impl View for LogicalNode {
    type V = NodeView;

    open spec fn view(&self) -> NodeView {
        NodeView {
            operator_id: self.operator_id@,
            description: self.description@,
            operator_name: self.operator_name,
            operator_config: self.operator_config@,
            parallelism: self.parallelism,
        }
    }
}

impl Clone for LogicalNode {
    fn clone(&self) -> (res: Self)
        ensures
            res@ == self@,
    {
        LogicalNode {
            operator_id: self.operator_id.clone(),
            description: self.description.clone(),
            operator_name: self.operator_name,
            operator_config: self.operator_config.clone(),
            parallelism: self.parallelism,
        }
    }
}

impl LogicalNode {
    /// The text that stands for this node where a program is shown to its
    /// users: the description.
    pub fn to_string(&self) -> (res: String)
        ensures
            res@ == self.description@,
    {
        self.description.clone()
    }

    /// The text that stands for this node in diagnostics: the operator id.
    pub fn debug_string(&self) -> (res: String)
        ensures
            res@ == self.operator_id@,
    {
        self.operator_id.clone()
    }
}

/// What flows between two operators.
#[derive(Debug, PartialEq, Eq)]
pub struct LogicalEdge {
    pub edge_type: LogicalEdgeType,
    pub schema: ArroyoSchema,
    pub projection: Option<Vec<usize>>,
}

pub struct EdgeView {
    pub edge_type: LogicalEdgeType,
    pub schema: SchemaView,
    pub projection: Option<Seq<usize>>,
}

/// The view of an optional list of columns.
pub open spec fn projection_view(p: Option<Vec<usize>>) -> Option<Seq<usize>> {
    match p {
        Some(v) => Some(v@),
        None => None,
    }
}

impl EdgeView {
    /// What is wrong with this edge's schema or projection, if anything: a
    /// fault of the schema first, then the first projected column that is
    /// no field position.
    pub open spec fn fault(self) -> Option<SchemaFault> {
        match self.schema.fault() {
            Some(f) => Some(f),
            None => match self.projection {
                None => None,
                Some(p) => match first_index_outside(p, self.schema.fields(), 0) {
                    Some(k) => Some(SchemaFault::ProjectionIndex(k)),
                    None => None,
                },
            },
        }
    }

    /// The schema is well formed and every projected column is a field
    /// position.
    pub open spec fn wf(self) -> bool {
        &&& self.schema.wf()
        &&& self.projection matches Some(p) ==> forall|i: int|
            0 <= i < p.len() ==> p[i] < self.schema.fields()
    }

    /// An edge is well formed exactly when nothing is wrong with it.
    pub proof fn lemma_fault_wf(self)
        ensures
            self.fault() is None <==> self.wf(),
    {
        self.schema.lemma_fault_wf();
        if let Some(p) = self.projection {
            lemma_first_index_outside(p, self.schema.fields(), 0);
        }
    }
}

impl View for LogicalEdge {
    type V = EdgeView;

    open spec fn view(&self) -> EdgeView {
        EdgeView {
            edge_type: self.edge_type,
            schema: self.schema@,
            projection: projection_view(self.projection),
        }
    }
}

impl Clone for LogicalEdge {
    fn clone(&self) -> (res: Self)
        ensures
            res@ == self@,
    {
        let projection = match &self.projection {
            Some(p) => Some(p.clone()),
            None => None,
        };
        LogicalEdge { edge_type: self.edge_type, schema: self.schema.clone(), projection }
    }
}

impl LogicalEdge {
    /// An edge that forwards the given columns; `None` forwards all.
    pub fn new(
        edge_type: LogicalEdgeType,
        schema: ArroyoSchema,
        projection: Option<Vec<usize>>,
    ) -> (res: Self)
        ensures
            res@ == (EdgeView {
                edge_type,
                schema: schema@,
                projection: projection_view(projection),
            }),
    {
        LogicalEdge { edge_type, schema, projection }
    }

    /// An edge that forwards every column.
    pub fn project_all(edge_type: LogicalEdgeType, schema: ArroyoSchema) -> (res: Self)
        ensures
            res@ == (EdgeView { edge_type, schema: schema@, projection: None }),
    {
        LogicalEdge { edge_type, schema, projection: None }
    }

    /// Checks this edge. Gives the number of its schema's fields where the
    /// edge is well formed, and otherwise what is wrong with it.
    pub fn check(&self) -> (res: Result<usize, SchemaFault>)
        ensures
            match res {
                Ok(n) => self@.wf() && n == self@.schema.fields(),
                Err(fault) => self@.fault() == Some(fault),
            },
    {
        proof {
            self@.lemma_fault_wf();
            self@.schema.lemma_fault_wf();
        }
        match self.schema.check() {
            Err(fault) => Err(fault),
            Ok(n) => match &self.projection {
                None => Ok(n),
                Some(p) => match find_index_outside(p, n) {
                    Some(k) => Err(SchemaFault::ProjectionIndex(k)),
                    None => Ok(n),
                },
            },
        }
    }
}

} // verus!
