use crate::bytes::{
    bytes_field, concat, delimited, edge_bytes, edge_payloads, entry_bytes, entry_payloads, framed,
    frames, int32_bits, node_bytes, node_payloads, packed, packed_field, program_bytes,
    registry_bytes, registry_field, schema_bytes, schema_field, udf_bytes, varint_bytes,
    varint_field, varints, FIELD_1, FIELD_1_LEN, FIELD_2, FIELD_2_LEN, FIELD_3, FIELD_3_LEN,
    FIELD_4_LEN, FIELD_5, FIELD_5_LEN, FIELD_6_LEN,
};
use crate::config::{UdfEntryView, UdfView};
use crate::wire::{WireEdgeView, WireNodeView, WireProgramView, WireSchemaView};
use vstd::prelude::*;
use vstd::utf8::{encode_utf8, encode_utf8_decode_utf8};

verus! {

/// The bytes are none, or start with another byte than `key`.
pub open spec fn free_of(s: Seq<u8>, key: u8) -> bool {
    s.len() == 0 || s[0] != key
}

/// The bytes are none, or start with `key`.
pub open spec fn led_by(s: Seq<u8>, key: u8) -> bool {
    s.len() == 0 || s[0] == key
}

/// A number in the variable-length format tells where it ends: two byte
/// strings that begin with numbers and are equal begin with the same
/// number and go on in the same way.
pub proof fn lemma_varint_unique(a: nat, b: nat, x: Seq<u8>, y: Seq<u8>)
    requires
        varint_bytes(a) + x == varint_bytes(b) + y,
    ensures
        a == b,
        x == y,
    decreases a,
{
    let s = varint_bytes(a) + x;
    let t = varint_bytes(b) + y;
    assert(s[0] == varint_bytes(a)[0]);
    assert(t[0] == varint_bytes(b)[0]);
    if a < 0x80 {
        if b >= 0x80 {
            assert(varint_bytes(b)[0] == (b % 0x80 + 0x80) as u8);
            assert(false);
        }
        assert(s.skip(1) =~= x);
        assert(t.skip(1) =~= y);
    } else {
        assert(varint_bytes(a)[0] == (a % 0x80 + 0x80) as u8);
        if b < 0x80 {
            assert(false);
        }
        assert(varint_bytes(b)[0] == (b % 0x80 + 0x80) as u8);
        assert(s.skip(1) =~= varint_bytes(a / 0x80) + x);
        assert(t.skip(1) =~= varint_bytes(b / 0x80) + y);
        lemma_varint_unique(a / 0x80, b / 0x80, x, y);
    }
}

/// A number in the variable-length format takes at least one byte.
pub proof fn lemma_varint_nonempty(a: nat)
    ensures
        varint_bytes(a).len() >= 1,
{
}

/// A field written with its length tells where it ends.
pub proof fn lemma_delimited_unique(key: u8, p: Seq<u8>, q: Seq<u8>, x: Seq<u8>, y: Seq<u8>)
    requires
        delimited(key, p) + x == delimited(key, q) + y,
    ensures
        p == q,
        x == y,
{
    let s = delimited(key, p) + x;
    let t = delimited(key, q) + y;
    assert(s.skip(1) =~= varint_bytes(p.len()) + (p + x));
    assert(t.skip(1) =~= varint_bytes(q.len()) + (q + y));
    lemma_varint_unique(p.len(), q.len(), p + x, q + y);
    assert(p =~= (p + x).take(p.len() as int));
    assert(q =~= (q + y).take(q.len() as int));
    assert(x =~= (p + x).skip(p.len() as int));
    assert(y =~= (q + y).skip(q.len() as int));
}

/// A number field before bytes that are free of its key tells its number
/// and where it ends.
pub proof fn lemma_varint_field_unique(key: u8, a: nat, b: nat, x: Seq<u8>, y: Seq<u8>)
    requires
        free_of(x, key),
        free_of(y, key),
        varint_field(key, a) + x == varint_field(key, b) + y,
    ensures
        a == b,
        x == y,
{
    let s = varint_field(key, a) + x;
    let t = varint_field(key, b) + y;
    if a == 0 && b == 0 {
        assert(s =~= x);
        assert(t =~= y);
    } else if a == 0 {
        assert(s =~= x);
        assert(t[0] == key);
        assert(false);
    } else if b == 0 {
        assert(t =~= y);
        assert(s[0] == key);
        assert(false);
    } else {
        assert(s.skip(1) =~= varint_bytes(a) + x);
        assert(t.skip(1) =~= varint_bytes(b) + y);
        lemma_varint_unique(a, b, x, y);
    }
}

/// A field of bytes before bytes that are free of its key tells its
/// payload and where it ends.
pub proof fn lemma_bytes_field_unique(key: u8, p: Seq<u8>, q: Seq<u8>, x: Seq<u8>, y: Seq<u8>)
    requires
        free_of(x, key),
        free_of(y, key),
        bytes_field(key, p) + x == bytes_field(key, q) + y,
    ensures
        p == q,
        x == y,
{
    let s = bytes_field(key, p) + x;
    let t = bytes_field(key, q) + y;
    if p.len() == 0 && q.len() == 0 {
        assert(s =~= x);
        assert(t =~= y);
        assert(p =~= q);
    } else if p.len() == 0 {
        assert(s =~= x);
        assert(t[0] == key);
        assert(false);
    } else if q.len() == 0 {
        assert(t =~= y);
        assert(s[0] == key);
        assert(false);
    } else {
        lemma_delimited_unique(key, p, q, x, y);
    }
}

/// A concatenation begins with its first part.
pub proof fn lemma_concat_front(parts: Seq<Seq<u8>>, count: int)
    requires
        1 <= count <= parts.len(),
    ensures
        concat(parts, count) == parts[0] + concat(parts.skip(1), count - 1),
    decreases count,
{
    if count == 1 {
        assert(concat(parts, 0) =~= Seq::<u8>::empty());
        assert(concat(parts.skip(1), 0) =~= Seq::<u8>::empty());
        assert(concat(parts, 1) =~= parts[0] + concat(parts.skip(1), 0));
    } else {
        lemma_concat_front(parts, count - 1);
        assert(parts.skip(1)[count - 2] == parts[count - 1]);
        assert(concat(parts, count) =~= parts[0] + concat(parts.skip(1), count - 1));
    }
}

/// The numbers of a list, written one after the other, tell the list.
pub proof fn lemma_packed_unique(vs: Seq<u32>, ws: Seq<u32>)
    requires
        packed(vs) == packed(ws),
    ensures
        vs == ws,
    decreases vs.len(),
{
    if vs.len() == 0 && ws.len() == 0 {
        assert(vs =~= ws);
    } else if vs.len() == 0 {
        lemma_concat_front(varints(ws), ws.len() as int);
        lemma_varint_nonempty(ws[0] as nat);
        assert(false);
    } else if ws.len() == 0 {
        lemma_concat_front(varints(vs), vs.len() as int);
        lemma_varint_nonempty(vs[0] as nat);
        assert(false);
    } else {
        lemma_concat_front(varints(vs), vs.len() as int);
        lemma_concat_front(varints(ws), ws.len() as int);
        assert(varints(vs).skip(1) =~= varints(vs.skip(1)));
        assert(varints(ws).skip(1) =~= varints(ws.skip(1)));
        lemma_varint_unique(vs[0] as nat, ws[0] as nat, packed(vs.skip(1)), packed(ws.skip(1)));
        lemma_packed_unique(vs.skip(1), ws.skip(1));
        assert(vs =~= seq![vs[0]] + vs.skip(1));
        assert(ws =~= seq![ws[0]] + ws.skip(1));
    }
}

/// A field of numbers before bytes that are free of its key tells its
/// numbers and where it ends.
pub proof fn lemma_packed_field_unique(key: u8, vs: Seq<u32>, ws: Seq<u32>, x: Seq<u8>, y: Seq<u8>)
    requires
        free_of(x, key),
        free_of(y, key),
        packed_field(key, vs) + x == packed_field(key, ws) + y,
    ensures
        vs == ws,
        x == y,
{
    if vs.len() > 0 {
        lemma_concat_front(varints(vs), vs.len() as int);
        lemma_varint_nonempty(vs[0] as nat);
    }
    if ws.len() > 0 {
        lemma_concat_front(varints(ws), ws.len() as int);
        lemma_varint_nonempty(ws[0] as nat);
    }
    assert(packed_field(key, vs) == bytes_field(key, packed(vs)));
    assert(packed_field(key, ws) == bytes_field(key, packed(ws)));
    lemma_bytes_field_unique(key, packed(vs), packed(ws), x, y);
    lemma_packed_unique(vs, ws);
}

/// A repeated field starts with its key, or is empty.
pub proof fn lemma_frames_led(key: u8, ps: Seq<Seq<u8>>)
    ensures
        led_by(frames(key, ps), key),
        ps.len() > 0 ==> frames(key, ps).len() > 0,
{
    if ps.len() > 0 {
        lemma_concat_front(framed(key, ps), ps.len() as int);
        assert(frames(key, ps)[0] == key);
    }
}

/// A repeated field before bytes that are free of its key tells its
/// payloads and where it ends.
pub proof fn lemma_frames_unique(
    key: u8,
    ps: Seq<Seq<u8>>,
    qs: Seq<Seq<u8>>,
    x: Seq<u8>,
    y: Seq<u8>,
)
    requires
        free_of(x, key),
        free_of(y, key),
        frames(key, ps) + x == frames(key, qs) + y,
    ensures
        ps == qs,
        x == y,
    decreases ps.len(),
{
    let s = frames(key, ps) + x;
    let t = frames(key, qs) + y;
    lemma_frames_led(key, ps);
    lemma_frames_led(key, qs);
    if ps.len() == 0 && qs.len() == 0 {
        assert(s =~= x);
        assert(t =~= y);
        assert(ps =~= qs);
    } else if ps.len() == 0 {
        assert(s =~= x);
        assert(t[0] == key);
        assert(false);
    } else if qs.len() == 0 {
        assert(t =~= y);
        assert(s[0] == key);
        assert(false);
    } else {
        lemma_concat_front(framed(key, ps), ps.len() as int);
        lemma_concat_front(framed(key, qs), qs.len() as int);
        assert(framed(key, ps).skip(1) =~= framed(key, ps.skip(1)));
        assert(framed(key, qs).skip(1) =~= framed(key, qs.skip(1)));
        let rest_p = frames(key, ps.skip(1)) + x;
        let rest_q = frames(key, qs.skip(1)) + y;
        assert(s =~= delimited(key, ps[0]) + rest_p);
        assert(t =~= delimited(key, qs[0]) + rest_q);
        lemma_delimited_unique(key, ps[0], qs[0], rest_p, rest_q);
        lemma_frames_unique(key, ps.skip(1), qs.skip(1), x, y);
        assert(ps =~= seq![ps[0]] + ps.skip(1));
        assert(qs =~= seq![qs[0]] + qs.skip(1));
    }
}

/// The bytes are none, or start with a byte above `key`.
pub open spec fn above(s: Seq<u8>, key: u8) -> bool {
    s.len() == 0 || s[0] > key
}

/// Each field is empty or starts with its key, and the keys rise.
pub open spec fn well_keyed(fields: Seq<Seq<u8>>, keys: Seq<u8>) -> bool {
    &&& fields.len() == keys.len()
    &&& forall|i: int| 0 <= i < fields.len() ==> led_by(#[trigger] fields[i], keys[i])
    &&& forall|i: int, j: int| 0 <= i < j < keys.len() ==> keys[i] < keys[j]
}

/// The fields of a message from position `from` on start above every key
/// that lies below theirs.
pub proof fn lemma_tail_above(fields: Seq<Seq<u8>>, keys: Seq<u8>, from: int, key: u8)
    requires
        well_keyed(fields, keys),
        0 <= from <= fields.len(),
        forall|j: int| from <= j < keys.len() ==> keys[j] > key,
    ensures
        above(concat(fields.skip(from), fields.len() - from), key),
    decreases fields.len() - from,
{
    if from < fields.len() {
        let tail = fields.skip(from);
        lemma_concat_front(tail, fields.len() - from);
        assert(tail.skip(1) =~= fields.skip(from + 1));
        lemma_tail_above(fields, keys, from + 1, key);
        let rest = concat(fields.skip(from + 1), fields.len() - from - 1);
        assert(tail[0] == fields[from]);
        if fields[from].len() > 0 {
            assert((fields[from] + rest)[0] == fields[from][0]);
        } else {
            assert(fields[from] + rest =~= rest);
        }
    }
}

/// A message from its field at `at` on is that field and then the later
/// fields, which are free of that field's key.
pub proof fn lemma_split(fields: Seq<Seq<u8>>, keys: Seq<u8>, at: int)
    requires
        well_keyed(fields, keys),
        0 <= at < fields.len(),
    ensures
        concat(fields.skip(at), fields.len() - at) == fields[at] + concat(
            fields.skip(at + 1),
            fields.len() - at - 1,
        ),
        free_of(concat(fields.skip(at + 1), fields.len() - at - 1), keys[at]),
{
    let tail = fields.skip(at);
    lemma_concat_front(tail, fields.len() - at);
    assert(tail.skip(1) =~= fields.skip(at + 1));
    assert(tail[0] == fields[at]);
    lemma_tail_above(fields, keys, at + 1, keys[at]);
}

/// Text is told by its bytes.
pub proof fn lemma_text_unique(a: Seq<char>, b: Seq<char>)
    requires
        encode_utf8(a) == encode_utf8(b),
    ensures
        a == b,
{
    encode_utf8_decode_utf8(a);
    encode_utf8_decode_utf8(b);
}

/// The fields of a wire node.
pub open spec fn node_fields(n: WireNodeView) -> Seq<Seq<u8>> {
    seq![
        varint_field(FIELD_1, int32_bits(n.node_index)),
        bytes_field(FIELD_2_LEN, encode_utf8(n.node_id)),
        varint_field(FIELD_3, n.parallelism as nat),
        bytes_field(FIELD_4_LEN, encode_utf8(n.description)),
        bytes_field(FIELD_5_LEN, encode_utf8(n.operator_name)),
        bytes_field(FIELD_6_LEN, n.operator_config),
    ]
}

/// The keys of the fields of a wire node.
pub open spec fn node_keys() -> Seq<u8> {
    seq![FIELD_1, FIELD_2_LEN, FIELD_3, FIELD_4_LEN, FIELD_5_LEN, FIELD_6_LEN]
}

/// The bytes of a wire node are its fields under rising keys.
pub proof fn lemma_node_fields(n: WireNodeView)
    ensures
        well_keyed(node_fields(n), node_keys()),
        node_bytes(n) == concat(node_fields(n), 6),
        node_fields(n).skip(0) == node_fields(n),
{
    let f = node_fields(n);
    assert(concat(f, 0) =~= Seq::<u8>::empty());
    assert(concat(f, 1) =~= f[0]);
    assert(concat(f, 2) =~= f[0] + f[1]);
    assert(concat(f, 3) =~= f[0] + f[1] + f[2]);
    assert(concat(f, 4) =~= f[0] + f[1] + f[2] + f[3]);
    assert(concat(f, 5) =~= f[0] + f[1] + f[2] + f[3] + f[4]);
    assert(concat(f, 6) =~= f[0] + f[1] + f[2] + f[3] + f[4] + f[5]);
    assert(f.skip(0) =~= f);
}

/// A wire node is told by its bytes.
#[verifier::rlimit(40)]
pub proof fn lemma_node_unique(a: WireNodeView, b: WireNodeView)
    requires
        node_bytes(a) == node_bytes(b),
    ensures
        a == b,
{
    let fa = node_fields(a);
    let fb = node_fields(b);
    let keys = node_keys();
    lemma_node_fields(a);
    lemma_node_fields(b);
    lemma_split(fa, keys, 0);
    lemma_split(fb, keys, 0);
    lemma_varint_field_unique(
        FIELD_1,
        int32_bits(a.node_index),
        int32_bits(b.node_index),
        concat(fa.skip(1), 5),
        concat(fb.skip(1), 5),
    );
    lemma_split(fa, keys, 1);
    lemma_split(fb, keys, 1);
    lemma_bytes_field_unique(
        FIELD_2_LEN,
        encode_utf8(a.node_id),
        encode_utf8(b.node_id),
        concat(fa.skip(2), 4),
        concat(fb.skip(2), 4),
    );
    lemma_text_unique(a.node_id, b.node_id);
    lemma_split(fa, keys, 2);
    lemma_split(fb, keys, 2);
    lemma_varint_field_unique(
        FIELD_3,
        a.parallelism as nat,
        b.parallelism as nat,
        concat(fa.skip(3), 3),
        concat(fb.skip(3), 3),
    );
    lemma_split(fa, keys, 3);
    lemma_split(fb, keys, 3);
    lemma_bytes_field_unique(
        FIELD_4_LEN,
        encode_utf8(a.description),
        encode_utf8(b.description),
        concat(fa.skip(4), 2),
        concat(fb.skip(4), 2),
    );
    lemma_text_unique(a.description, b.description);
    lemma_split(fa, keys, 4);
    lemma_split(fb, keys, 4);
    lemma_bytes_field_unique(
        FIELD_5_LEN,
        encode_utf8(a.operator_name),
        encode_utf8(b.operator_name),
        concat(fa.skip(5), 1),
        concat(fb.skip(5), 1),
    );
    lemma_text_unique(a.operator_name, b.operator_name);
    lemma_split(fa, keys, 5);
    lemma_split(fb, keys, 5);
    lemma_bytes_field_unique(
        FIELD_6_LEN,
        a.operator_config,
        b.operator_config,
        concat(fa.skip(6), 0),
        concat(fb.skip(6), 0),
    );
}

/// The fields of a wire schema.
pub open spec fn schema_fields(s: WireSchemaView) -> Seq<Seq<u8>> {
    seq![
        bytes_field(FIELD_1_LEN, encode_utf8(s.arrow_schema)),
        varint_field(FIELD_2, s.timestamp_index as nat),
        packed_field(FIELD_3_LEN, s.key_indices),
    ]
}

/// The keys of the fields of a wire schema, and of a function.
pub open spec fn three_keys() -> Seq<u8> {
    seq![FIELD_1_LEN, FIELD_2, FIELD_3_LEN]
}

/// The bytes of a wire schema are its fields under rising keys.
pub proof fn lemma_schema_fields(s: WireSchemaView)
    ensures
        well_keyed(schema_fields(s), three_keys()),
        schema_bytes(s) == concat(schema_fields(s), 3),
        schema_fields(s).skip(0) == schema_fields(s),
{
    let f = schema_fields(s);
    assert(concat(f, 0) =~= Seq::<u8>::empty());
    assert(concat(f, 1) =~= f[0]);
    assert(concat(f, 2) =~= f[0] + f[1]);
    assert(concat(f, 3) =~= f[0] + f[1] + f[2]);
    assert(f.skip(0) =~= f);
}

/// A wire schema is told by its bytes.
#[verifier::rlimit(40)]
pub proof fn lemma_schema_unique(a: WireSchemaView, b: WireSchemaView)
    requires
        schema_bytes(a) == schema_bytes(b),
    ensures
        a == b,
{
    let fa = schema_fields(a);
    let fb = schema_fields(b);
    let keys = three_keys();
    lemma_schema_fields(a);
    lemma_schema_fields(b);
    lemma_split(fa, keys, 0);
    lemma_split(fb, keys, 0);
    lemma_bytes_field_unique(
        FIELD_1_LEN,
        encode_utf8(a.arrow_schema),
        encode_utf8(b.arrow_schema),
        concat(fa.skip(1), 2),
        concat(fb.skip(1), 2),
    );
    lemma_text_unique(a.arrow_schema, b.arrow_schema);
    lemma_split(fa, keys, 1);
    lemma_split(fb, keys, 1);
    lemma_varint_field_unique(
        FIELD_2,
        a.timestamp_index as nat,
        b.timestamp_index as nat,
        concat(fa.skip(2), 1),
        concat(fb.skip(2), 1),
    );
    lemma_split(fa, keys, 2);
    lemma_split(fb, keys, 2);
    lemma_packed_field_unique(
        FIELD_3_LEN,
        a.key_indices,
        b.key_indices,
        concat(fa.skip(3), 0),
        concat(fb.skip(3), 0),
    );
}

/// An optional schema before bytes that are free of its key is told by
/// its bytes, and so is where it ends.
pub proof fn lemma_schema_field_unique(
    a: Option<WireSchemaView>,
    b: Option<WireSchemaView>,
    x: Seq<u8>,
    y: Seq<u8>,
)
    requires
        free_of(x, FIELD_4_LEN),
        free_of(y, FIELD_4_LEN),
        schema_field(a) + x == schema_field(b) + y,
    ensures
        a == b,
        x == y,
{
    let s = schema_field(a) + x;
    let t = schema_field(b) + y;
    match (a, b) {
        (None, None) => {
            assert(s =~= x);
            assert(t =~= y);
        },
        (None, Some(_)) => {
            assert(s =~= x);
            assert(t[0] == FIELD_4_LEN);
            assert(false);
        },
        (Some(_), None) => {
            assert(t =~= y);
            assert(s[0] == FIELD_4_LEN);
            assert(false);
        },
        (Some(sa), Some(sb)) => {
            lemma_delimited_unique(FIELD_4_LEN, schema_bytes(sa), schema_bytes(sb), x, y);
            lemma_schema_unique(sa, sb);
        },
    }
}

/// The fields of a wire edge.
pub open spec fn edge_fields(e: WireEdgeView) -> Seq<Seq<u8>> {
    seq![
        varint_field(FIELD_1, int32_bits(e.source)),
        varint_field(FIELD_2, int32_bits(e.target)),
        schema_field(e.schema),
        varint_field(FIELD_5, int32_bits(e.edge_type)),
        packed_field(FIELD_6_LEN, e.projection),
    ]
}

/// The keys of the fields of a wire edge.
pub open spec fn edge_keys() -> Seq<u8> {
    seq![FIELD_1, FIELD_2, FIELD_4_LEN, FIELD_5, FIELD_6_LEN]
}

/// The bytes of a wire edge are its fields under rising keys.
pub proof fn lemma_edge_fields(e: WireEdgeView)
    ensures
        well_keyed(edge_fields(e), edge_keys()),
        edge_bytes(e) == concat(edge_fields(e), 5),
        edge_fields(e).skip(0) == edge_fields(e),
{
    let f = edge_fields(e);
    assert(concat(f, 0) =~= Seq::<u8>::empty());
    assert(concat(f, 1) =~= f[0]);
    assert(concat(f, 2) =~= f[0] + f[1]);
    assert(concat(f, 3) =~= f[0] + f[1] + f[2]);
    assert(concat(f, 4) =~= f[0] + f[1] + f[2] + f[3]);
    assert(concat(f, 5) =~= f[0] + f[1] + f[2] + f[3] + f[4]);
    assert(f.skip(0) =~= f);
}

/// A wire edge is told by its bytes.
#[verifier::rlimit(40)]
pub proof fn lemma_edge_unique(a: WireEdgeView, b: WireEdgeView)
    requires
        edge_bytes(a) == edge_bytes(b),
    ensures
        a == b,
{
    let fa = edge_fields(a);
    let fb = edge_fields(b);
    let keys = edge_keys();
    lemma_edge_fields(a);
    lemma_edge_fields(b);
    lemma_split(fa, keys, 0);
    lemma_split(fb, keys, 0);
    lemma_varint_field_unique(
        FIELD_1,
        int32_bits(a.source),
        int32_bits(b.source),
        concat(fa.skip(1), 4),
        concat(fb.skip(1), 4),
    );
    lemma_split(fa, keys, 1);
    lemma_split(fb, keys, 1);
    lemma_varint_field_unique(
        FIELD_2,
        int32_bits(a.target),
        int32_bits(b.target),
        concat(fa.skip(2), 3),
        concat(fb.skip(2), 3),
    );
    lemma_split(fa, keys, 2);
    lemma_split(fb, keys, 2);
    lemma_schema_field_unique(a.schema, b.schema, concat(fa.skip(3), 2), concat(fb.skip(3), 2));
    lemma_split(fa, keys, 3);
    lemma_split(fb, keys, 3);
    lemma_varint_field_unique(
        FIELD_5,
        int32_bits(a.edge_type),
        int32_bits(b.edge_type),
        concat(fa.skip(4), 1),
        concat(fb.skip(4), 1),
    );
    lemma_split(fa, keys, 4);
    lemma_split(fb, keys, 4);
    lemma_packed_field_unique(
        FIELD_6_LEN,
        a.projection,
        b.projection,
        concat(fa.skip(5), 0),
        concat(fb.skip(5), 0),
    );
}

/// The fields of a function.
pub open spec fn udf_fields(u: UdfView) -> Seq<Seq<u8>> {
    seq![
        bytes_field(FIELD_1_LEN, encode_utf8(u.dylib_path)),
        frames(FIELD_2_LEN, u.arg_types),
        bytes_field(FIELD_3_LEN, u.return_type),
    ]
}

/// The keys of the fields of a function.
pub open spec fn udf_keys() -> Seq<u8> {
    seq![FIELD_1_LEN, FIELD_2_LEN, FIELD_3_LEN]
}

/// The bytes of a function are its fields under rising keys.
pub proof fn lemma_udf_fields(u: UdfView)
    ensures
        well_keyed(udf_fields(u), udf_keys()),
        udf_bytes(u) == concat(udf_fields(u), 3),
        udf_fields(u).skip(0) == udf_fields(u),
{
    lemma_frames_led(FIELD_2_LEN, u.arg_types);
    let f = udf_fields(u);
    assert(concat(f, 0) =~= Seq::<u8>::empty());
    assert(concat(f, 1) =~= f[0]);
    assert(concat(f, 2) =~= f[0] + f[1]);
    assert(concat(f, 3) =~= f[0] + f[1] + f[2]);
    assert(f.skip(0) =~= f);
}

/// A function is told by its bytes.
#[verifier::rlimit(40)]
pub proof fn lemma_udf_unique(a: UdfView, b: UdfView)
    requires
        udf_bytes(a) == udf_bytes(b),
    ensures
        a == b,
{
    let fa = udf_fields(a);
    let fb = udf_fields(b);
    let keys = udf_keys();
    lemma_udf_fields(a);
    lemma_udf_fields(b);
    lemma_split(fa, keys, 0);
    lemma_split(fb, keys, 0);
    lemma_bytes_field_unique(
        FIELD_1_LEN,
        encode_utf8(a.dylib_path),
        encode_utf8(b.dylib_path),
        concat(fa.skip(1), 2),
        concat(fb.skip(1), 2),
    );
    lemma_text_unique(a.dylib_path, b.dylib_path);
    lemma_split(fa, keys, 1);
    lemma_split(fb, keys, 1);
    lemma_frames_unique(
        FIELD_2_LEN,
        a.arg_types,
        b.arg_types,
        concat(fa.skip(2), 1),
        concat(fb.skip(2), 1),
    );
    lemma_split(fa, keys, 2);
    lemma_split(fb, keys, 2);
    lemma_bytes_field_unique(
        FIELD_3_LEN,
        a.return_type,
        b.return_type,
        concat(fa.skip(3), 0),
        concat(fb.skip(3), 0),
    );
}

/// A registry entry is told by its bytes.
pub proof fn lemma_entry_unique(a: UdfEntryView, b: UdfEntryView)
    requires
        entry_bytes(a) == entry_bytes(b),
    ensures
        a == b,
{
    let tail_a = bytes_field(FIELD_2_LEN, udf_bytes(a.config));
    let tail_b = bytes_field(FIELD_2_LEN, udf_bytes(b.config));
    lemma_bytes_field_unique(
        FIELD_1_LEN,
        encode_utf8(a.name),
        encode_utf8(b.name),
        tail_a,
        tail_b,
    );
    lemma_text_unique(a.name, b.name);
    assert(tail_a + Seq::<u8>::empty() =~= tail_a);
    assert(tail_b + Seq::<u8>::empty() =~= tail_b);
    lemma_bytes_field_unique(
        FIELD_2_LEN,
        udf_bytes(a.config),
        udf_bytes(b.config),
        Seq::<u8>::empty(),
        Seq::<u8>::empty(),
    );
    lemma_udf_unique(a.config, b.config);
}

/// A registry is told by its bytes.
pub proof fn lemma_registry_unique(a: Seq<UdfEntryView>, b: Seq<UdfEntryView>)
    requires
        registry_bytes(a) == registry_bytes(b),
    ensures
        a == b,
{
    let pa = entry_payloads(a);
    let pb = entry_payloads(b);
    assert(frames(FIELD_1_LEN, pa) + Seq::<u8>::empty() =~= frames(FIELD_1_LEN, pa));
    assert(frames(FIELD_1_LEN, pb) + Seq::<u8>::empty() =~= frames(FIELD_1_LEN, pb));
    lemma_frames_unique(FIELD_1_LEN, pa, pb, Seq::<u8>::empty(), Seq::<u8>::empty());
    assert(a.len() == b.len());
    assert forall|i: int| 0 <= i < a.len() implies a[i] == b[i] by {
        assert(pa[i] == pb[i]);
        lemma_entry_unique(a[i], b[i]);
    }
    assert(a =~= b);
}

/// The fields of a wire program.
pub open spec fn program_fields(w: WireProgramView) -> Seq<Seq<u8>> {
    seq![
        frames(FIELD_1_LEN, node_payloads(w.nodes)),
        frames(FIELD_2_LEN, edge_payloads(w.edges)),
        registry_field(w.program_config),
    ]
}

/// An optional registry is told by its bytes.
pub proof fn lemma_registry_field_unique(a: Option<Seq<UdfEntryView>>, b: Option<Seq<UdfEntryView>>)
    requires
        registry_field(a) == registry_field(b),
    ensures
        a == b,
{
    match (a, b) {
        (None, None) => {},
        (None, Some(_)) => {
            assert(registry_field(b)[0] == FIELD_3_LEN);
            assert(false);
        },
        (Some(_), None) => {
            assert(registry_field(a)[0] == FIELD_3_LEN);
            assert(false);
        },
        (Some(ca), Some(cb)) => {
            let da = delimited(FIELD_3_LEN, registry_bytes(ca));
            let db = delimited(FIELD_3_LEN, registry_bytes(cb));
            assert(da + Seq::<u8>::empty() =~= da);
            assert(db + Seq::<u8>::empty() =~= db);
            lemma_delimited_unique(
                FIELD_3_LEN,
                registry_bytes(ca),
                registry_bytes(cb),
                Seq::<u8>::empty(),
                Seq::<u8>::empty(),
            );
            lemma_registry_unique(ca, cb);
        },
    }
}

/// The bytes of a wire program are its fields under rising keys.
pub proof fn lemma_program_fields(w: WireProgramView)
    ensures
        well_keyed(program_fields(w), udf_keys()),
        program_bytes(w) == concat(program_fields(w), 3),
        program_fields(w).skip(0) == program_fields(w),
        concat(program_fields(w).skip(3), 0) == Seq::<u8>::empty(),
{
    lemma_frames_led(FIELD_1_LEN, node_payloads(w.nodes));
    lemma_frames_led(FIELD_2_LEN, edge_payloads(w.edges));
    let f = program_fields(w);
    assert(concat(f, 0) =~= Seq::<u8>::empty());
    assert(concat(f, 1) =~= f[0]);
    assert(concat(f, 2) =~= f[0] + f[1]);
    assert(concat(f, 3) =~= f[0] + f[1] + f[2]);
    assert(f.skip(0) =~= f);
}

/// Nodes are told by their bytes.
pub proof fn lemma_nodes_unique(a: Seq<WireNodeView>, b: Seq<WireNodeView>)
    requires
        node_payloads(a) == node_payloads(b),
    ensures
        a == b,
{
    assert(a.len() == node_payloads(a).len());
    assert(b.len() == node_payloads(b).len());
    assert forall|i: int| 0 <= i < a.len() implies a[i] == b[i] by {
        assert(node_payloads(a)[i] == node_payloads(b)[i]);
        lemma_node_unique(a[i], b[i]);
    }
    assert(a =~= b);
}

/// Edges are told by their bytes.
pub proof fn lemma_edges_unique(a: Seq<WireEdgeView>, b: Seq<WireEdgeView>)
    requires
        edge_payloads(a) == edge_payloads(b),
    ensures
        a == b,
{
    assert(a.len() == edge_payloads(a).len());
    assert(b.len() == edge_payloads(b).len());
    assert forall|i: int| 0 <= i < a.len() implies a[i] == b[i] by {
        assert(edge_payloads(a)[i] == edge_payloads(b)[i]);
        lemma_edge_unique(a[i], b[i]);
    }
    assert(a =~= b);
}

/// A wire program is told by its bytes: two wire programs that are written
/// as the same bytes hold the same nodes, the same edges and the same
/// registry.
#[verifier::rlimit(40)]
pub proof fn lemma_program_unique(a: WireProgramView, b: WireProgramView)
    requires
        program_bytes(a) == program_bytes(b),
    ensures
        a == b,
{
    let fa = program_fields(a);
    let fb = program_fields(b);
    let keys = udf_keys();
    lemma_program_fields(a);
    lemma_program_fields(b);
    lemma_split(fa, keys, 0);
    lemma_split(fb, keys, 0);
    lemma_frames_unique(
        FIELD_1_LEN,
        node_payloads(a.nodes),
        node_payloads(b.nodes),
        concat(fa.skip(1), 2),
        concat(fb.skip(1), 2),
    );
    lemma_nodes_unique(a.nodes, b.nodes);
    lemma_split(fa, keys, 1);
    lemma_split(fb, keys, 1);
    lemma_frames_unique(
        FIELD_2_LEN,
        edge_payloads(a.edges),
        edge_payloads(b.edges),
        concat(fa.skip(2), 1),
        concat(fb.skip(2), 1),
    );
    lemma_edges_unique(a.edges, b.edges);
    lemma_split(fa, keys, 2);
    lemma_split(fb, keys, 2);
    assert(registry_field(a.program_config) + Seq::<u8>::empty() =~= registry_field(
        a.program_config,
    ));
    assert(registry_field(b.program_config) + Seq::<u8>::empty() =~= registry_field(
        b.program_config,
    ));
    lemma_registry_field_unique(a.program_config, b.program_config);
}

} // verus!
