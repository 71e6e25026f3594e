use crate::bytes::program_bytes;
use crate::config::{canonical, lemma_registry_order_irrelevant, names_distinct, same_entries};
use crate::program::LogicalProgram;
use crate::error::{ProgramError, ProgramFault};
use crate::round_trip::{lemma_wire_form_tells_apart, normalize_edge};
use crate::unique::lemma_program_unique;
use crate::wire::{encode_program, within_wire, ProgramView};
use rand::distributions::Alphanumeric;
use rand::rngs::SmallRng;
use rand::{Rng, SeedableRng};
use std::collections::hash_map::DefaultHasher;
use std::hash::Hasher;
use vstd::prelude::*;
use vstd::slice::slice_subrange;
use vstd::std_specs::hash::DefaultHasherAdditionalSpecFns;

verus! {

/// The number of characters of a fingerprint.
pub const FINGERPRINT_LENGTH: usize = 16;

/// The writes that feed a byte string to a hasher one byte at a time.
pub open spec fn byte_writes(bytes: Seq<u8>) -> Seq<Seq<u8>> {
    Seq::new(bytes.len(), |i: int| seq![bytes[i]])
}

/// The 64-bit digest of a byte string, fed to the default hasher byte by
/// byte.
pub open spec fn digest_of(bytes: Seq<u8>) -> u64 {
    DefaultHasher::spec_finish(byte_writes(bytes))
}

/// A digit or an ASCII letter.
pub open spec fn is_alphanumeric(b: u8) -> bool {
    ||| 0x30 <= b <= 0x39
    ||| 0x41 <= b <= 0x5a
    ||| 0x61 <= b <= 0x7a
}

/// A digit or a small ASCII letter.
pub open spec fn is_lower_alphanumeric(c: char) -> bool {
    ||| '0' <= c <= '9'
    ||| 'a' <= c <= 'z'
}

/// A byte with a capital ASCII letter made small.
pub open spec fn to_lower(b: u8) -> u8 {
    if 0x41 <= b <= 0x5a {
        (b + 0x20) as u8
    } else {
        b
    }
}

/// The first `count` alphanumeric bytes that the small generator draws
/// after it is seeded with `seed`, on a machine whose words have
/// `word_bits` bits.
pub uninterp spec fn alphanumeric_stream(seed: u64, count: usize, word_bits: u32) -> Seq<u8>;

/// Seeds a `rand::rngs::SmallRng` with `SeedableRng::seed_from_u64` and
/// draws `count` samples of `rand::distributions::Alphanumeric` from it
/// with `Rng::sample_iter`. The generator is deterministic: what it draws
/// depends on the seed and, through the algorithm that the crate picks, on
/// the width of the machine's words. Every sample is a digit or an ASCII
/// letter.
#[verifier::external_body]
fn sample_alphanumerics(seed: u64, count: usize) -> (res: Vec<u8>)
    ensures
        res@ == alphanumeric_stream(seed, count, usize::BITS),
        res@.len() == count,
        forall|i: int| 0 <= i < res@.len() ==> is_alphanumeric(#[trigger] res@[i]),
{
    SmallRng::seed_from_u64(seed).sample_iter(&Alphanumeric).take(count).collect()
}

/// `String::push`: the character is appended to the text.
#[verifier::external_body]
fn string_push(text: &mut String, c: char)
    ensures
        final(text)@ == old(text)@.push(c),
{
    text.push(c);
}

/// The text of a list of samples: each byte as a character, capital
/// letters made small.
pub open spec fn code_of(samples: Seq<u8>) -> Seq<char> {
    Seq::new(samples.len(), |i: int| to_lower(samples[i]) as char)
}

/// The fingerprint of a byte string: sixteen samples drawn from the
/// generator seeded with the digest of the bytes, as text.
pub open spec fn fingerprint_of(bytes: Seq<u8>) -> Seq<char> {
    code_of(alphanumeric_stream(digest_of(bytes), FINGERPRINT_LENGTH, usize::BITS))
}

/// The 64-bit digest of `bytes`, fed to the default hasher one byte at a
/// time.
pub fn digest(bytes: &[u8]) -> (d: u64)
    ensures
        d == digest_of(bytes@),
{
    let mut hasher = DefaultHasher::new();
    let mut i: usize = 0;
    while i < bytes.len()
        invariant
            i <= bytes@.len(),
            hasher@ == byte_writes(bytes@.take(i as int)),
        decreases bytes.len() - i,
    {
        let one = slice_subrange(bytes, i, i + 1);
        hasher.write(one);
        assert(one@ =~= seq![bytes@[i as int]]);
        assert(hasher@ =~= byte_writes(bytes@.take(i + 1)));
        i += 1;
    }
    assert(bytes@.take(i as int) =~= bytes@);
    hasher.finish()
}

/// The text of a list of samples: each byte as a character, capital
/// letters made small.
pub fn code_from_samples(samples: &[u8]) -> (res: String)
    ensures
        res@ == code_of(samples@),
        (forall|i: int| 0 <= i < samples@.len() ==> is_alphanumeric(#[trigger] samples@[i]))
            ==> forall|i: int| 0 <= i < res@.len() ==> is_lower_alphanumeric(#[trigger] res@[i]),
{
    let mut res = String::new();
    let mut i: usize = 0;
    while i < samples.len()
        invariant
            i <= samples@.len(),
            res@ == code_of(samples@.take(i as int)),
        decreases samples.len() - i,
    {
        let b = samples[i];
        let lowered: u8 = if 0x41 <= b && b <= 0x5a {
            b + 0x20
        } else {
            b
        };
        string_push(&mut res, lowered as char);
        assert(res@ =~= code_of(samples@.take(i + 1)));
        i += 1;
    }
    assert(samples@.take(i as int) =~= samples@);
    res
}

/// The fingerprint of a byte string: its digest seeds the generator, and
/// sixteen samples of it, capital letters made small, are the text.
pub fn fingerprint(bytes: &[u8]) -> (res: String)
    ensures
        res@ == fingerprint_of(bytes@),
        res@.len() == FINGERPRINT_LENGTH,
        forall|i: int| 0 <= i < res@.len() ==> is_lower_alphanumeric(#[trigger] res@[i]),
{
    let seed = digest(bytes);
    let samples = sample_alphanumerics(seed, FINGERPRINT_LENGTH);
    code_from_samples(samples.as_slice())
}

impl LogicalProgram {
    /// The fingerprint of this program: that of the bytes of its wire
    /// form. It is sixteen digits and small letters, and programs with the
    /// same bytes have the same fingerprint. The wire has 32 bits for a
    /// number, so a program with a wider one is left out; `try_get_hash`
    /// takes every program.
    pub fn get_hash(&self) -> (res: String)
        requires
            within_wire(self@),
        ensures
            res@ == fingerprint_of(program_bytes(encode_program(self@))),
            res@.len() == FINGERPRINT_LENGTH,
            forall|i: int| 0 <= i < res@.len() ==> is_lower_alphanumeric(#[trigger] res@[i]),
    {
        let bytes = self.to_wire().encode_to_vec();
        fingerprint(bytes.as_slice())
    }

    /// The fingerprint of this program, where the wire carries its numbers
    /// as they are; `ExceedsWire` where it does not.
    pub fn try_get_hash(&self) -> (res: Result<String, ProgramError>)
        ensures
            match res {
                Ok(code) => within_wire(self@) && code@ == fingerprint_of(
                    program_bytes(encode_program(self@)),
                ),
                Err(e) => !within_wire(self@) && e@ == ProgramFault::ExceedsWire,
            },
    {
        if self.is_within_wire() {
            Ok(self.get_hash())
        } else {
            Err(ProgramError::ExceedsWire)
        }
    }
}

/// Two programs with the same content have the same fingerprint, and so
/// have any two whose wire forms are written as the same bytes.
pub proof fn lemma_fingerprint_determined(p: ProgramView, q: ProgramView)
    requires
        p == q || program_bytes(encode_program(p)) == program_bytes(encode_program(q)),
    ensures
        fingerprint_of(program_bytes(encode_program(p))) == fingerprint_of(
            program_bytes(encode_program(q)),
        ),
{
}

/// What is hashed tells programs apart: two programs whose numbers the
/// wire carries as they are and whose wire forms are written as the same
/// bytes have the same nodes, the same registry in the order of its
/// names, and the same edges up to projections of no columns. So a change to a node's parallelism or
/// configuration, or to an edge's schema or projected columns, changes the
/// bytes whose digest seeds the fingerprint. The digest itself has 64 bits:
/// that different bytes give different fingerprints is likely, not
/// certain.
pub proof fn lemma_hashed_bytes_tell_apart(p: ProgramView, q: ProgramView)
    requires
        within_wire(p),
        within_wire(q),
        program_bytes(encode_program(p)) == program_bytes(encode_program(q)),
    ensures
        p.nodes == q.nodes,
        canonical(p.config) == canonical(q.config),
        p.edges.len() == q.edges.len(),
        forall|i: int|
            0 <= i < p.edges.len() ==> normalize_edge(#[trigger] p.edges[i]) == normalize_edge(
                q.edges[i],
            ),
{
    lemma_program_unique(encode_program(p), encode_program(q));
    lemma_wire_form_tells_apart(p, q);
}

/// The order in which the registry was filled does not show in the
/// fingerprint: two programs with the same nodes and edges, whose
/// registries bear each name once and hold the same entries, have the same
/// fingerprint.
pub proof fn lemma_registry_order_not_hashed(p: ProgramView, q: ProgramView)
    requires
        p.nodes == q.nodes,
        p.edges == q.edges,
        names_distinct(p.config),
        names_distinct(q.config),
        same_entries(p.config, q.config),
    ensures
        encode_program(p) == encode_program(q),
        fingerprint_of(program_bytes(encode_program(p))) == fingerprint_of(
            program_bytes(encode_program(q)),
        ),
{
    lemma_registry_order_irrelevant(p.config, q.config);
    assert(encode_program(p).nodes =~= encode_program(q).nodes);
    assert(encode_program(p).edges =~= encode_program(q).edges);
}

} // verus!
