use vstd::prelude::*;
use vstd::utf8::{encode_utf8, encode_utf8_decode_utf8};

verus! {

/// From position `from` on, `a` comes before `b` in the order of
/// dictionaries: at the first position where they differ `a` has the
/// smaller byte, or `a` ends there and `b` goes on.
pub open spec fn bytes_lt(a: Seq<u8>, b: Seq<u8>, from: int) -> bool
    decreases b.len() - from,
{
    if from < 0 || from >= b.len() {
        false
    } else if from >= a.len() {
        true
    } else if a[from] != b[from] {
        a[from] < b[from]
    } else {
        bytes_lt(a, b, from + 1)
    }
}

/// The order of names: that of their bytes.
pub open spec fn name_lt(a: Seq<char>, b: Seq<char>) -> bool {
    bytes_lt(encode_utf8(a), encode_utf8(b), 0)
}

/// Of two byte strings that agree before `from`, at most one comes before
/// the other, and if neither does they are equal.
pub proof fn lemma_bytes_order(a: Seq<u8>, b: Seq<u8>, from: int)
    requires
        0 <= from <= a.len(),
        from <= b.len(),
        a.take(from) == b.take(from),
    ensures
        !(bytes_lt(a, b, from) && bytes_lt(b, a, from)),
        !bytes_lt(a, b, from) && !bytes_lt(b, a, from) ==> a == b,
    decreases b.len() - from,
{
    if from < a.len() && from < b.len() {
        if a[from] == b[from] {
            assert(a.take(from + 1) =~= a.take(from).push(a[from]));
            assert(b.take(from + 1) =~= b.take(from).push(b[from]));
            lemma_bytes_order(a, b, from + 1);
        }
    } else if from == a.len() && from == b.len() {
        assert(a.take(from) =~= a);
        assert(b.take(from) =~= b);
    }
}

/// What comes before something that comes before a third thing comes
/// before that.
pub proof fn lemma_bytes_lt_transitive(a: Seq<u8>, b: Seq<u8>, c: Seq<u8>, from: int)
    requires
        0 <= from,
        bytes_lt(a, b, from),
        bytes_lt(b, c, from),
    ensures
        bytes_lt(a, c, from),
    decreases c.len() - from,
{
    if from < a.len() && a[from] == b[from] && b[from] == c[from] {
        lemma_bytes_lt_transitive(a, b, c, from + 1);
    }
}

/// No name comes before itself; of two names at most one comes before the
/// other; and two names of which neither comes before the other are one
/// name.
pub proof fn lemma_name_order(a: Seq<char>, b: Seq<char>)
    ensures
        !name_lt(a, a),
        !(name_lt(a, b) && name_lt(b, a)),
        !name_lt(a, b) && !name_lt(b, a) ==> a == b,
{
    let x = encode_utf8(a);
    let y = encode_utf8(b);
    assert(x.take(0) =~= y.take(0));
    lemma_bytes_order(x, y, 0);
    assert(x.take(0) =~= x.take(0));
    lemma_bytes_order(x, x, 0);
    if x == y {
        encode_utf8_decode_utf8(a);
        encode_utf8_decode_utf8(b);
    }
}

/// The order of names is transitive.
pub proof fn lemma_name_lt_transitive(a: Seq<char>, b: Seq<char>, c: Seq<char>)
    requires
        name_lt(a, b),
        name_lt(b, c),
    ensures
        name_lt(a, c),
{
    lemma_bytes_lt_transitive(encode_utf8(a), encode_utf8(b), encode_utf8(c), 0);
}

/// Whether `a` comes before `b` in the order of names.
pub fn name_less(a: &str, b: &str) -> (res: bool)
    ensures
        res == name_lt(a@, b@),
{
    let x = a.as_bytes();
    let y = b.as_bytes();
    let mut i: usize = 0;
    loop
        invariant
            i <= x@.len(),
            i <= y@.len(),
            x@ == encode_utf8(a@),
            y@ == encode_utf8(b@),
            bytes_lt(x@, y@, 0) == bytes_lt(x@, y@, i as int),
        decreases y@.len() - i,
    {
        if i >= y.len() {
            return false;
        }
        if i >= x.len() {
            return true;
        }
        if x[i] != y[i] {
            return x[i] < y[i];
        }
        i += 1;
    }
}

} // verus!
