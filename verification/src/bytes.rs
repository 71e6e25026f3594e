use crate::config::{ArrowDylibUdfConfig, ArrowProgramConfig, ArrowUdfEntry, UdfEntryView, UdfView};
use crate::wire::{
    ArrowEdge, ArrowNode, ArrowProgram, ArroyoSchema, WireEdgeView, WireNodeView, WireProgramView,
    WireSchemaView,
};
use vstd::prelude::*;
use vstd::utf8::encode_utf8;

verus! {

// Keys of the fields of the wire messages: eight times the field's number,
// plus two where the field is written with its length in front.
pub const FIELD_1: u8 = 0x08;

pub const FIELD_1_LEN: u8 = 0x0a;

pub const FIELD_2: u8 = 0x10;

pub const FIELD_2_LEN: u8 = 0x12;

pub const FIELD_3: u8 = 0x18;

pub const FIELD_3_LEN: u8 = 0x1a;

pub const FIELD_4_LEN: u8 = 0x22;

pub const FIELD_5: u8 = 0x28;

pub const FIELD_5_LEN: u8 = 0x2a;

pub const FIELD_6_LEN: u8 = 0x32;

/// A number in the variable-length format of the wire: seven bits to a
/// byte, the low ones first, and the top bit set on every byte but the
/// last.
pub open spec fn varint_bytes(v: nat) -> Seq<u8>
    decreases v,
{
    if v < 0x80 {
        seq![v as u8]
    } else {
        seq![(v % 0x80 + 0x80) as u8] + varint_bytes(v / 0x80)
    }
}

/// `prost::encoding::encode_varint`: the bytes of the number in the
/// variable-length format are written behind what the buffer holds.
#[verifier::external_body]
fn put_varint(value: u64, buf: &mut Vec<u8>)
    ensures
        final(buf)@ == old(buf)@ + varint_bytes(value as nat),
{
    prost::encoding::encode_varint(value, buf);
}

/// A 32-bit signed number as the wire writes it: extended to 64 bits with
/// its sign.
pub open spec fn int32_bits(v: i32) -> nat {
    if v >= 0 {
        v as nat
    } else {
        (v + 0x1_0000_0000_0000_0000) as nat
    }
}

/// A number field: nothing for zero, else the key and the number.
pub open spec fn varint_field(key: u8, v: nat) -> Seq<u8> {
    if v == 0 {
        Seq::empty()
    } else {
        seq![key] + varint_bytes(v)
    }
}

/// A field written with its length: the key, the length and the payload.
pub open spec fn delimited(key: u8, payload: Seq<u8>) -> Seq<u8> {
    seq![key] + varint_bytes(payload.len()) + payload
}

/// A field of bytes or text: nothing where it is empty.
pub open spec fn bytes_field(key: u8, payload: Seq<u8>) -> Seq<u8> {
    if payload.len() == 0 {
        Seq::empty()
    } else {
        delimited(key, payload)
    }
}

/// The first `count` of a list of byte strings, one after the other.
pub open spec fn concat(parts: Seq<Seq<u8>>, count: int) -> Seq<u8>
    decreases count,
{
    if count <= 0 {
        Seq::empty()
    } else {
        concat(parts, count - 1) + parts[count - 1]
    }
}

/// Each number of a list in the variable-length format.
pub open spec fn varints(values: Seq<u32>) -> Seq<Seq<u8>> {
    Seq::new(values.len(), |i: int| varint_bytes(values[i] as nat))
}

/// The numbers of a list, one after the other.
pub open spec fn packed(values: Seq<u32>) -> Seq<u8> {
    concat(varints(values), values.len() as int)
}

/// A field of numbers: nothing where there are none, else all of them as
/// one payload.
pub open spec fn packed_field(key: u8, values: Seq<u32>) -> Seq<u8> {
    if values.len() == 0 {
        Seq::empty()
    } else {
        delimited(key, packed(values))
    }
}

/// Each payload of a list as a field written with its length.
pub open spec fn framed(key: u8, payloads: Seq<Seq<u8>>) -> Seq<Seq<u8>> {
    Seq::new(payloads.len(), |i: int| delimited(key, payloads[i]))
}

/// A repeated field: each payload written with the key and its length, one
/// after the other.
pub open spec fn frames(key: u8, payloads: Seq<Seq<u8>>) -> Seq<u8> {
    concat(framed(key, payloads), payloads.len() as int)
}

/// The bytes of a wire node.
pub open spec fn node_bytes(n: WireNodeView) -> Seq<u8> {
    varint_field(FIELD_1, int32_bits(n.node_index)) + bytes_field(FIELD_2_LEN, encode_utf8(n.node_id))
        + varint_field(FIELD_3, n.parallelism as nat) + bytes_field(
        FIELD_4_LEN,
        encode_utf8(n.description),
    ) + bytes_field(FIELD_5_LEN, encode_utf8(n.operator_name)) + bytes_field(
        FIELD_6_LEN,
        n.operator_config,
    )
}

/// The bytes of a wire schema.
pub open spec fn schema_bytes(s: WireSchemaView) -> Seq<u8> {
    bytes_field(FIELD_1_LEN, encode_utf8(s.arrow_schema)) + varint_field(
        FIELD_2,
        s.timestamp_index as nat,
    ) + packed_field(FIELD_3_LEN, s.key_indices)
}

/// The schema field of a wire edge: nothing where the edge has no schema.
pub open spec fn schema_field(s: Option<WireSchemaView>) -> Seq<u8> {
    match s {
        Some(s) => delimited(FIELD_4_LEN, schema_bytes(s)),
        None => Seq::empty(),
    }
}

/// The bytes of a wire edge.
pub open spec fn edge_bytes(e: WireEdgeView) -> Seq<u8> {
    varint_field(FIELD_1, int32_bits(e.source)) + varint_field(FIELD_2, int32_bits(e.target))
        + schema_field(e.schema) + varint_field(FIELD_5, int32_bits(e.edge_type)) + packed_field(
        FIELD_6_LEN,
        e.projection,
    )
}

/// The bytes of a function.
pub open spec fn udf_bytes(u: UdfView) -> Seq<u8> {
    bytes_field(FIELD_1_LEN, encode_utf8(u.dylib_path)) + frames(FIELD_2_LEN, u.arg_types)
        + bytes_field(FIELD_3_LEN, u.return_type)
}

/// The bytes of a registry entry: the name and the function, each left out
/// where it is empty.
pub open spec fn entry_bytes(e: UdfEntryView) -> Seq<u8> {
    bytes_field(FIELD_1_LEN, encode_utf8(e.name)) + bytes_field(FIELD_2_LEN, udf_bytes(e.config))
}

/// The bytes of each entry of a registry.
pub open spec fn entry_payloads(entries: Seq<UdfEntryView>) -> Seq<Seq<u8>> {
    Seq::new(entries.len(), |i: int| entry_bytes(entries[i]))
}

/// The bytes of a registry: its entries in their order.
pub open spec fn registry_bytes(entries: Seq<UdfEntryView>) -> Seq<u8> {
    frames(FIELD_1_LEN, entry_payloads(entries))
}

/// The bytes of each of a list of nodes.
pub open spec fn node_payloads(nodes: Seq<WireNodeView>) -> Seq<Seq<u8>> {
    Seq::new(nodes.len(), |i: int| node_bytes(nodes[i]))
}

/// The bytes of each of a list of edges.
pub open spec fn edge_payloads(edges: Seq<WireEdgeView>) -> Seq<Seq<u8>> {
    Seq::new(edges.len(), |i: int| edge_bytes(edges[i]))
}

/// The registry field of a wire program: nothing where it has none.
pub open spec fn registry_field(c: Option<Seq<UdfEntryView>>) -> Seq<u8> {
    match c {
        Some(c) => delimited(FIELD_3_LEN, registry_bytes(c)),
        None => Seq::empty(),
    }
}

/// The bytes of a wire program: its nodes, its edges and its registry, each
/// list in its own order.
pub open spec fn program_bytes(w: WireProgramView) -> Seq<u8> {
    frames(FIELD_1_LEN, node_payloads(w.nodes)) + frames(FIELD_2_LEN, edge_payloads(w.edges))
        + registry_field(w.program_config)
}

/// Writes bytes behind what the buffer holds.
fn append(buf: &mut Vec<u8>, bytes: &[u8])
    ensures
        final(buf)@ == old(buf)@ + bytes@,
{
    let mut i: usize = 0;
    while i < bytes.len()
        invariant
            i <= bytes@.len(),
            buf@ == old(buf)@ + bytes@.take(i as int),
        decreases bytes.len() - i,
    {
        buf.push(bytes[i]);
        assert(bytes@.take(i + 1) =~= bytes@.take(i as int).push(bytes@[i as int]));
        assert(buf@ =~= old(buf)@ + bytes@.take(i + 1));
        i += 1;
    }
    assert(bytes@.take(i as int) =~= bytes@);
}

/// A 32-bit signed number, extended to 64 bits with its sign.
fn sign_extend(v: i32) -> (bits: u64)
    ensures
        bits == int32_bits(v),
{
    if v >= 0 {
        v as u64
    } else {
        let below: u64 = (-(v + 1)) as u64;
        u64::MAX - below
    }
}

fn put_varint_field(buf: &mut Vec<u8>, key: u8, v: u64)
    ensures
        final(buf)@ == old(buf)@ + varint_field(key, v as nat),
{
    if v != 0 {
        buf.push(key);
        put_varint(v, buf);
        assert(buf@ =~= old(buf)@ + varint_field(key, v as nat));
    } else {
        assert(buf@ =~= old(buf)@ + varint_field(key, v as nat));
    }
}

fn put_delimited(buf: &mut Vec<u8>, key: u8, payload: &[u8])
    ensures
        final(buf)@ == old(buf)@ + delimited(key, payload@),
{
    buf.push(key);
    put_varint(payload.len() as u64, buf);
    append(buf, payload);
    assert(buf@ =~= old(buf)@ + delimited(key, payload@));
}

fn put_bytes_field(buf: &mut Vec<u8>, key: u8, payload: &[u8])
    ensures
        final(buf)@ == old(buf)@ + bytes_field(key, payload@),
{
    if payload.len() != 0 {
        put_delimited(buf, key, payload);
    } else {
        assert(buf@ =~= old(buf)@ + bytes_field(key, payload@));
    }
}

fn put_text_field(buf: &mut Vec<u8>, key: u8, text: &str)
    ensures
        final(buf)@ == old(buf)@ + bytes_field(key, encode_utf8(text@)),
{
    put_bytes_field(buf, key, text.as_bytes());
}

fn put_packed_field(buf: &mut Vec<u8>, key: u8, values: &Vec<u32>)
    ensures
        final(buf)@ == old(buf)@ + packed_field(key, values@),
{
    if values.len() != 0 {
        let mut payload: Vec<u8> = Vec::new();
        let mut i: usize = 0;
        while i < values.len()
            invariant
                i <= values.len(),
                payload@ == concat(varints(values@), i as int),
            decreases values.len() - i,
        {
            put_varint(values[i] as u64, &mut payload);
            i += 1;
        }
        put_delimited(buf, key, payload.as_slice());
    } else {
        assert(buf@ =~= old(buf)@ + packed_field(key, values@));
    }
}

impl ArrowNode {
    /// The bytes of this node.
    pub fn encode_to_vec(&self) -> (res: Vec<u8>)
        ensures
            res@ == node_bytes(self@),
    {
        let mut buf: Vec<u8> = Vec::new();
        put_varint_field(&mut buf, FIELD_1, sign_extend(self.node_index));
        put_text_field(&mut buf, FIELD_2_LEN, self.node_id.as_str());
        put_varint_field(&mut buf, FIELD_3, self.parallelism as u64);
        put_text_field(&mut buf, FIELD_4_LEN, self.description.as_str());
        put_text_field(&mut buf, FIELD_5_LEN, self.operator_name.as_str());
        put_bytes_field(&mut buf, FIELD_6_LEN, self.operator_config.as_slice());
        assert(buf@ =~= node_bytes(self@));
        buf
    }
}

impl ArroyoSchema {
    /// The bytes of this schema.
    pub fn encode_to_vec(&self) -> (res: Vec<u8>)
        ensures
            res@ == schema_bytes(self@),
    {
        let mut buf: Vec<u8> = Vec::new();
        put_text_field(&mut buf, FIELD_1_LEN, self.arrow_schema.as_str());
        put_varint_field(&mut buf, FIELD_2, self.timestamp_index as u64);
        put_packed_field(&mut buf, FIELD_3_LEN, &self.key_indices);
        assert(buf@ =~= schema_bytes(self@));
        buf
    }
}

impl ArrowEdge {
    /// The bytes of this edge.
    pub fn encode_to_vec(&self) -> (res: Vec<u8>)
        ensures
            res@ == edge_bytes(self@),
    {
        let mut buf: Vec<u8> = Vec::new();
        put_varint_field(&mut buf, FIELD_1, sign_extend(self.source));
        put_varint_field(&mut buf, FIELD_2, sign_extend(self.target));
        match &self.schema {
            Some(schema) => {
                let payload = schema.encode_to_vec();
                put_delimited(&mut buf, FIELD_4_LEN, payload.as_slice());
            },
            None => {},
        }
        assert(buf@ =~= varint_field(FIELD_1, int32_bits(self.source)) + varint_field(
            FIELD_2,
            int32_bits(self.target),
        ) + schema_field(self@.schema));
        put_varint_field(&mut buf, FIELD_5, sign_extend(self.edge_type));
        put_packed_field(&mut buf, FIELD_6_LEN, &self.projection);
        assert(buf@ =~= edge_bytes(self@));
        buf
    }
}

impl ArrowDylibUdfConfig {
    /// The bytes of this function.
    pub fn encode_to_vec(&self) -> (res: Vec<u8>)
        ensures
            res@ == udf_bytes(self@),
    {
        let mut buf: Vec<u8> = Vec::new();
        put_text_field(&mut buf, FIELD_1_LEN, self.dylib_path.as_str());
        let ghost head = buf@;
        let ghost parts = framed(FIELD_2_LEN, self@.arg_types);
        let mut i: usize = 0;
        while i < self.arg_types.len()
            invariant
                i <= self.arg_types.len(),
                parts == framed(FIELD_2_LEN, self@.arg_types),
                buf@ == head + concat(parts, i as int),
            decreases self.arg_types.len() - i,
        {
            assert(self@.arg_types[i as int] == self.arg_types@[i as int]@);
            put_delimited(&mut buf, FIELD_2_LEN, self.arg_types[i].as_slice());
            assert(buf@ =~= head + concat(parts, i + 1));
            i += 1;
        }
        put_bytes_field(&mut buf, FIELD_3_LEN, self.return_type.as_slice());
        assert(buf@ =~= udf_bytes(self@));
        buf
    }
}

impl ArrowUdfEntry {
    /// The bytes of this entry.
    pub fn encode_to_vec(&self) -> (res: Vec<u8>)
        ensures
            res@ == entry_bytes(self@),
    {
        let mut buf: Vec<u8> = Vec::new();
        put_text_field(&mut buf, FIELD_1_LEN, self.name.as_str());
        let payload = self.config.encode_to_vec();
        put_bytes_field(&mut buf, FIELD_2_LEN, payload.as_slice());
        assert(buf@ =~= entry_bytes(self@));
        buf
    }
}

impl ArrowProgramConfig {
    /// The bytes of this registry, entry by entry in their order.
    pub fn encode_to_vec(&self) -> (res: Vec<u8>)
        ensures
            res@ == registry_bytes(self@),
    {
        let mut buf: Vec<u8> = Vec::new();
        let ghost parts = framed(FIELD_1_LEN, entry_payloads(self@));
        let mut i: usize = 0;
        while i < self.udf_dylibs.len()
            invariant
                i <= self.udf_dylibs.len(),
                parts == framed(FIELD_1_LEN, entry_payloads(self@)),
                buf@ == concat(parts, i as int),
            decreases self.udf_dylibs.len() - i,
        {
            assert(self@[i as int] == self.udf_dylibs@[i as int]@);
            let payload = self.udf_dylibs[i].encode_to_vec();
            put_delimited(&mut buf, FIELD_1_LEN, payload.as_slice());
            i += 1;
        }
        buf
    }
}

impl ArrowProgram {
    /// The bytes of this program: a pure function of what it holds, the
    /// nodes, edges and registry entries each in their own order.
    pub fn encode_to_vec(&self) -> (res: Vec<u8>)
        ensures
            res@ == program_bytes(self@),
    {
        let mut buf: Vec<u8> = Vec::new();
        let ghost node_parts = framed(FIELD_1_LEN, node_payloads(self@.nodes));
        let ghost edge_parts = framed(FIELD_2_LEN, edge_payloads(self@.edges));
        let mut i: usize = 0;
        while i < self.nodes.len()
            invariant
                i <= self.nodes.len(),
                node_parts == framed(FIELD_1_LEN, node_payloads(self@.nodes)),
                buf@ == concat(node_parts, i as int),
            decreases self.nodes.len() - i,
        {
            assert(self@.nodes[i as int] == self.nodes@[i as int]@);
            let payload = self.nodes[i].encode_to_vec();
            put_delimited(&mut buf, FIELD_1_LEN, payload.as_slice());
            i += 1;
        }
        let ghost head = buf@;
        let mut j: usize = 0;
        while j < self.edges.len()
            invariant
                j <= self.edges.len(),
                edge_parts == framed(FIELD_2_LEN, edge_payloads(self@.edges)),
                buf@ == head + concat(edge_parts, j as int),
            decreases self.edges.len() - j,
        {
            assert(self@.edges[j as int] == self.edges@[j as int]@);
            let payload = self.edges[j].encode_to_vec();
            put_delimited(&mut buf, FIELD_2_LEN, payload.as_slice());
            assert(buf@ =~= head + concat(edge_parts, j + 1));
            j += 1;
        }
        match &self.program_config {
            Some(config) => {
                let payload = config.encode_to_vec();
                put_delimited(&mut buf, FIELD_3_LEN, payload.as_slice());
            },
            None => {},
        }
        assert(buf@ =~= program_bytes(self@));
        buf
    }
}

} // verus!
