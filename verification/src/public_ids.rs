use vstd::prelude::*;
use vstd::string::*;

verus! {

/// The number of characters of an identifier's code.
pub const ID_LENGTH: usize = 10;

/// The kinds of thing that get an identifier.
#[derive(Clone, Copy, Debug, PartialEq, Eq, Hash, Structural)]
pub enum IdTypes {
    ApiKey,
    Connection,
    Schema,
    Pipeline,
    PipelineDefinition,
    JobConfig,
    Checkpoint,
    JobStatus,
    ClusterInfo,
    JobLogMessage,
    ConnectionTable,
    ConnectionTablePipeline,
}

/// The prefix of the identifiers of a kind.
pub open spec fn id_prefix(id_type: IdTypes) -> Seq<char> {
    match id_type {
        IdTypes::ApiKey => "ak"@,
        IdTypes::Connection => "conn"@,
        IdTypes::Schema => "sch"@,
        IdTypes::Pipeline => "pl"@,
        IdTypes::PipelineDefinition => "pld"@,
        IdTypes::JobConfig => "jc"@,
        IdTypes::Checkpoint => "cp"@,
        IdTypes::JobStatus => "js"@,
        IdTypes::ClusterInfo => "ci"@,
        IdTypes::JobLogMessage => "jlm"@,
        IdTypes::ConnectionTable => "ct"@,
        IdTypes::ConnectionTablePipeline => "ctp"@,
    }
}

/// A character that a code can hold: a digit or an ASCII letter.
pub open spec fn is_id_char(c: char) -> bool {
    ||| '0' <= c <= '9'
    ||| 'A' <= c <= 'Z'
    ||| 'a' <= c <= 'z'
}

/// The 62 characters that codes are drawn from: the digits, the capital
/// letters and the small letters.
pub open spec fn id_alphabet() -> Seq<char> {
    "0123456789ABCDEFGHIJKLMNOPQRSTUVWXYZabcdefghijklmnopqrstuvwxyz"@
}

/// The alphabet holds 62 characters, each a digit or an ASCII letter.
pub proof fn lemma_id_alphabet()
    ensures
        id_alphabet().len() == 62,
        forall|i: int| 0 <= i < 62 ==> is_id_char(#[trigger] id_alphabet()[i]),
        forall|i: int| 0 <= i < 62 ==> (#[trigger] id_alphabet()[i]) as u32 <= 0x7f,
{
    reveal_strlit("0123456789ABCDEFGHIJKLMNOPQRSTUVWXYZabcdefghijklmnopqrstuvwxyz");
}

/// `nanoid::format` with the crate's default source of random bytes: a
/// text of `size` characters, each one of `alphabet`. Which ones is left
/// open. The call asks for an alphabet of at most 255 characters, and it
/// does not return for an empty alphabet or a size of zero; it counts the
/// text in bytes, so the alphabet is held to ASCII.
#[verifier::external_body]
fn random_code(alphabet: &Vec<char>, size: usize) -> (code: String)
    requires
        0 < alphabet@.len() <= 255,
        forall|i: int| 0 <= i < alphabet@.len() ==> (#[trigger] alphabet@[i]) as u32 <= 0x7f,
        0 < size <= 0xffff,
    ensures
        code@.len() == size,
        forall|i: int| 0 <= i < code@.len() ==> alphabet@.contains(#[trigger] code@[i]),
{
    nanoid::format(nanoid::rngs::default, alphabet.as_slice(), size)
}

/// The prefix of the identifiers of a kind.
pub fn prefix(id_type: IdTypes) -> (res: &'static str)
    ensures
        res@ == id_prefix(id_type),
{
    match id_type {
        IdTypes::ApiKey => "ak",
        IdTypes::Connection => "conn",
        IdTypes::Schema => "sch",
        IdTypes::Pipeline => "pl",
        IdTypes::PipelineDefinition => "pld",
        IdTypes::JobConfig => "jc",
        IdTypes::Checkpoint => "cp",
        IdTypes::JobStatus => "js",
        IdTypes::ClusterInfo => "ci",
        IdTypes::JobLogMessage => "jlm",
        IdTypes::ConnectionTable => "ct",
        IdTypes::ConnectionTablePipeline => "ctp",
    }
}

/// The identifier of a kind with a given code: the kind's prefix, an
/// underscore and the code.
pub fn format_id(id_type: IdTypes, code: &str) -> (id: String)
    ensures
        id@ == id_prefix(id_type) + seq!['_'] + code@,
{
    let mut id = prefix(id_type).to_owned();
    id.append("_");
    id.append(code);
    proof {
        reveal_strlit("_");
        assert("_"@ =~= seq!['_']);
    }
    id
}

/// The characters that codes are drawn from, as a list.
fn alphabet() -> (res: Vec<char>)
    ensures
        res@ == id_alphabet(),
{
    let text = "0123456789ABCDEFGHIJKLMNOPQRSTUVWXYZabcdefghijklmnopqrstuvwxyz";
    proof {
        lemma_id_alphabet();
    }
    let mut res: Vec<char> = Vec::new();
    let mut i: usize = 0;
    while i < 62
        invariant
            i <= 62,
            text@ == id_alphabet(),
            text@.len() == 62,
            res@ == text@.take(i as int),
        decreases 62 - i,
    {
        res.push(text.get_char(i));
        assert(res@ =~= text@.take(i + 1));
        i += 1;
    }
    assert(text@.take(62) =~= text@);
    res
}

/// A fresh identifier of a kind: the kind's prefix, an underscore and a
/// code of ten characters drawn at random from the digits and the ASCII
/// letters.
pub fn generate_id(id_type: IdTypes) -> (id: String)
    ensures
        id@.len() == id_prefix(id_type).len() + 1 + ID_LENGTH,
        id@.subrange(0, id_prefix(id_type).len() as int) == id_prefix(id_type),
        id@[id_prefix(id_type).len() as int] == '_',
        forall|i: int| id_prefix(id_type).len() < i < id@.len() ==> is_id_char(#[trigger] id@[i]),
{
    let letters = alphabet();
    proof {
        lemma_id_alphabet();
    }
    let code = random_code(&letters, ID_LENGTH);
    let id = format_id(id_type, code.as_str());
    proof {
        let p = id_prefix(id_type);
        assert(id@.subrange(0, p.len() as int) =~= p);
        assert forall|i: int| p.len() < i < id@.len() implies is_id_char(#[trigger] id@[i]) by {
            let c = code@[i - p.len() - 1];
            assert(id@[i] == c);
            assert(letters@.contains(c));
            let k = choose|k: int| 0 <= k < letters@.len() && letters@[k] == c;
            assert(is_id_char(id_alphabet()[k]));
        }
    }
    id
}

} // verus!
