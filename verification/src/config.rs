use crate::error::{ProgramError, ProgramFault};
use crate::names::{lemma_name_lt_transitive, lemma_name_order, name_less, name_lt};
use datafusion_proto::protobuf::ArrowType;
use prost::Message;
use vstd::prelude::*;

verus! {

/// Whether a byte string is the encoding of a data type.
pub uninterp spec fn is_arrow_type(bytes: Seq<u8>) -> bool;

/// Decodes `bytes` with `prost::Message::decode` as a
/// `datafusion_proto::protobuf::ArrowType` and says whether that succeeded.
/// The contract names the outcome: it depends on the bytes alone.
#[verifier::external_body]
fn arrow_type_decodes(bytes: &[u8]) -> (ok: bool)
    ensures
        ok == is_arrow_type(bytes@),
{
    ArrowType::decode(bytes).is_ok()
}

/// A function compiled outside the program: where its library lies, and the
/// encoded types of its arguments and of its result.
#[derive(Debug, PartialEq, Eq)]
pub struct DylibUdfConfig {
    pub dylib_path: String,
    pub arg_types: Vec<Vec<u8>>,
    pub return_type: Vec<u8>,
}

/// A [`DylibUdfConfig`] as the wire carries it. Its type blobs have not
/// been looked at.
#[derive(Debug, PartialEq, Eq)]
pub struct ArrowDylibUdfConfig {
    pub dylib_path: String,
    pub arg_types: Vec<Vec<u8>>,
    pub return_type: Vec<u8>,
}

pub struct UdfView {
    pub dylib_path: Seq<char>,
    pub arg_types: Seq<Seq<u8>>,
    pub return_type: Seq<u8>,
}

impl UdfView {
    /// Every argument type and the return type is the encoding of a type.
    pub open spec fn wf(self) -> bool {
        &&& forall|i: int| 0 <= i < self.arg_types.len() ==> is_arrow_type(#[trigger] self.arg_types[i])
        &&& is_arrow_type(self.return_type)
    }
}

impl View for DylibUdfConfig {
    type V = UdfView;

    open spec fn view(&self) -> UdfView {
        UdfView {
            dylib_path: self.dylib_path@,
            arg_types: self.arg_types.deep_view(),
            return_type: self.return_type@,
        }
    }
}

impl View for ArrowDylibUdfConfig {
    type V = UdfView;

    open spec fn view(&self) -> UdfView {
        UdfView {
            dylib_path: self.dylib_path@,
            arg_types: self.arg_types.deep_view(),
            return_type: self.return_type@,
        }
    }
}

/// A copy of a list of byte strings.
fn clone_blobs(blobs: &Vec<Vec<u8>>) -> (res: Vec<Vec<u8>>)
    ensures
        res.deep_view() == blobs.deep_view(),
{
    let mut res: Vec<Vec<u8>> = Vec::new();
    let mut i: usize = 0;
    while i < blobs.len()
        invariant
            i <= blobs.len(),
            res@.len() == i,
            forall|k: int| 0 <= k < i ==> res@[k]@ == blobs@[k]@,
        decreases blobs.len() - i,
    {
        res.push(blobs[i].clone());
        i += 1;
    }
    assert(res.deep_view() =~= blobs.deep_view());
    res
}

/// Whether every byte string of a list is the encoding of a type.
fn all_arrow_types(blobs: &Vec<Vec<u8>>) -> (ok: bool)
    ensures
        ok == (forall|i: int|
            0 <= i < blobs.deep_view().len() ==> is_arrow_type(#[trigger] blobs.deep_view()[i])),
{
    let mut i: usize = 0;
    while i < blobs.len()
        invariant
            i <= blobs.len(),
            forall|k: int| 0 <= k < i ==> is_arrow_type(#[trigger] blobs.deep_view()[k]),
        decreases blobs.len() - i,
    {
        assert(blobs.deep_view()[i as int] == blobs@[i as int]@);
        if !arrow_type_decodes(blobs[i].as_slice()) {
            return false;
        }
        i += 1;
    }
    true
}

impl Clone for DylibUdfConfig {
    fn clone(&self) -> (res: Self)
        ensures
            res@ == self@,
    {
        DylibUdfConfig {
            dylib_path: self.dylib_path.clone(),
            arg_types: clone_blobs(&self.arg_types),
            return_type: self.return_type.clone(),
        }
    }
}

impl Clone for ArrowDylibUdfConfig {
    fn clone(&self) -> (res: Self)
        ensures
            res@ == self@,
    {
        ArrowDylibUdfConfig {
            dylib_path: self.dylib_path.clone(),
            arg_types: clone_blobs(&self.arg_types),
            return_type: self.return_type.clone(),
        }
    }
}

impl ArrowDylibUdfConfig {
    /// The wire form of a function: the same path and the same blobs.
    pub fn from(from: DylibUdfConfig) -> (res: ArrowDylibUdfConfig)
        ensures
            res@ == from@,
    {
        ArrowDylibUdfConfig {
            dylib_path: from.dylib_path,
            arg_types: from.arg_types,
            return_type: from.return_type,
        }
    }
}

impl DylibUdfConfig {
    /// Whether every type blob of this function decodes.
    pub fn is_valid(&self) -> (ok: bool)
        ensures
            ok == self@.wf(),
    {
        let args_ok = all_arrow_types(&self.arg_types);
        let return_ok = arrow_type_decodes(self.return_type.as_slice());
        assert(self@.arg_types == self.arg_types.deep_view());
        args_ok && return_ok
    }

    /// Reads a function from its wire form: `Some`, with the same path and
    /// blobs, exactly when every type blob decodes.
    pub fn try_from(from: ArrowDylibUdfConfig) -> (res: Option<DylibUdfConfig>)
        ensures
            match res {
                Some(cfg) => from@.wf() && cfg@ == from@,
                None => !from@.wf(),
            },
    {
        let cfg = DylibUdfConfig {
            dylib_path: from.dylib_path,
            arg_types: from.arg_types,
            return_type: from.return_type,
        };
        if cfg.is_valid() {
            Some(cfg)
        } else {
            None
        }
    }
}

/// A named function of a program.
#[derive(Debug, PartialEq, Eq)]
pub struct UdfEntry {
    pub name: String,
    pub config: DylibUdfConfig,
}

/// A named function as the wire carries it.
#[derive(Debug, PartialEq, Eq)]
pub struct ArrowUdfEntry {
    pub name: String,
    pub config: ArrowDylibUdfConfig,
}

pub struct UdfEntryView {
    pub name: Seq<char>,
    pub config: UdfView,
}

impl View for UdfEntry {
    type V = UdfEntryView;

    open spec fn view(&self) -> UdfEntryView {
        UdfEntryView { name: self.name@, config: self.config@ }
    }
}

impl View for ArrowUdfEntry {
    type V = UdfEntryView;

    open spec fn view(&self) -> UdfEntryView {
        UdfEntryView { name: self.name@, config: self.config@ }
    }
}

impl Clone for UdfEntry {
    fn clone(&self) -> (res: Self)
        ensures
            res@ == self@,
    {
        UdfEntry { name: self.name.clone(), config: self.config.clone() }
    }
}

/// The position of the first entry from `from` on that bears `name`.
pub open spec fn find_udf(entries: Seq<UdfEntryView>, name: Seq<char>, from: int) -> Option<int>
    decreases entries.len() - from,
{
    if from < 0 || from >= entries.len() {
        None
    } else if entries[from].name == name {
        Some(from)
    } else {
        find_udf(entries, name, from + 1)
    }
}

/// `find_udf` finds the first entry of that name, and finds none exactly
/// when there is none.
pub proof fn lemma_find_udf(entries: Seq<UdfEntryView>, name: Seq<char>, from: int)
    requires
        0 <= from,
    ensures
        match find_udf(entries, name, from) {
            Some(i) => from <= i < entries.len() && entries[i].name == name && forall|k: int|
                from <= k < i ==> entries[k].name != name,
            None => forall|k: int| from <= k < entries.len() ==> entries[k].name != name,
        },
    decreases entries.len() - from,
{
    if from < entries.len() && entries[from].name != name {
        lemma_find_udf(entries, name, from + 1);
    }
}

/// The position at which an entry of that name belongs among entries in
/// the order of their names: that of the first entry, from `from` on,
/// whose name does not come before it, or the end.
pub open spec fn slot(entries: Seq<UdfEntryView>, name: Seq<char>, from: int) -> int
    decreases entries.len() - from,
{
    if from < 0 || from >= entries.len() {
        entries.len() as int
    } else if !name_lt(entries[from].name, name) {
        from
    } else {
        slot(entries, name, from + 1)
    }
}

/// Every entry before the slot has a name that comes before the name, and
/// the entry at the slot has not.
pub proof fn lemma_slot(entries: Seq<UdfEntryView>, name: Seq<char>, from: int)
    requires
        0 <= from <= entries.len(),
    ensures
        from <= slot(entries, name, from) <= entries.len(),
        forall|k: int|
            from <= k < slot(entries, name, from) ==> name_lt((#[trigger] entries[k]).name, name),
        slot(entries, name, from) < entries.len() ==> !name_lt(
            entries[slot(entries, name, from)].name,
            name,
        ),
    decreases entries.len() - from,
{
    if from < entries.len() && name_lt(entries[from].name, name) {
        lemma_slot(entries, name, from + 1);
    }
}

/// The entries after `entry` is put among them: in the place of the entry
/// at its slot where that bears its name, and else before it.
pub open spec fn put_udf(entries: Seq<UdfEntryView>, entry: UdfEntryView) -> Seq<UdfEntryView> {
    let at = slot(entries, entry.name, 0);
    if at < entries.len() && entries[at].name == entry.name {
        entries.update(at, entry)
    } else {
        entries.insert(at, entry)
    }
}

/// The entries stand in the order of their names, each name once.
pub open spec fn names_sorted(entries: Seq<UdfEntryView>) -> bool {
    forall|i: int, j: int|
        0 <= i < j < entries.len() ==> name_lt(
            (#[trigger] entries[i]).name,
            (#[trigger] entries[j]).name,
        )
}

/// No two entries bear the same name.
pub open spec fn names_distinct(entries: Seq<UdfEntryView>) -> bool {
    forall|i: int, j: int|
        0 <= i < j < entries.len() ==> (#[trigger] entries[i]).name != (#[trigger] entries[j]).name
}

/// Two lists hold the same entries, in whatever order.
pub open spec fn same_entries(a: Seq<UdfEntryView>, b: Seq<UdfEntryView>) -> bool {
    forall|x: UdfEntryView| a.contains(x) <==> b.contains(x)
}

/// The registry that the first `count` of `entries` build, put one after
/// the other.
pub open spec fn put_all(entries: Seq<UdfEntryView>, count: int) -> Seq<UdfEntryView>
    decreases count,
{
    if count <= 0 {
        Seq::empty()
    } else {
        put_udf(put_all(entries, count - 1), entries[count - 1])
    }
}

/// The registry in the order of its names: its entries put one after the
/// other, a later one taking the place of an earlier one of its name.
pub open spec fn canonical(entries: Seq<UdfEntryView>) -> Seq<UdfEntryView> {
    put_all(entries, entries.len() as int)
}

/// Entries in the order of their names bear distinct names.
pub proof fn lemma_sorted_distinct(entries: Seq<UdfEntryView>)
    requires
        names_sorted(entries),
    ensures
        names_distinct(entries),
{
    assert forall|i: int, j: int| 0 <= i < j < entries.len() implies (#[trigger] entries[i]).name
        != (#[trigger] entries[j]).name by {
        lemma_name_order(entries[i].name, entries[j].name);
    }
}

/// Putting an entry among entries in the order of their names leaves them
/// in that order.
pub proof fn lemma_put_sorted(entries: Seq<UdfEntryView>, entry: UdfEntryView)
    requires
        names_sorted(entries),
    ensures
        names_sorted(put_udf(entries, entry)),
{
    lemma_slot(entries, entry.name, 0);
    let at = slot(entries, entry.name, 0);
    let after = put_udf(entries, entry);
    if at < entries.len() && entries[at].name == entry.name {
        assert forall|i: int, j: int| 0 <= i < j < after.len() implies name_lt(
            (#[trigger] after[i]).name,
            (#[trigger] after[j]).name,
        ) by {
            assert(after[i].name == entries[i].name);
            assert(after[j].name == entries[j].name);
        }
    } else {
        if at < entries.len() {
            lemma_name_order(entries[at].name, entry.name);
        }
        assert forall|i: int, j: int| 0 <= i < j < after.len() implies name_lt(
            (#[trigger] after[i]).name,
            (#[trigger] after[j]).name,
        ) by {
            if j < at {
                assert(after[i] == entries[i] && after[j] == entries[j]);
            } else if j == at {
                assert(after[i] == entries[i]);
                assert(after[j] == entry);
            } else {
                assert(after[j] == entries[j - 1]);
                if i < at {
                    assert(after[i] == entries[i]);
                } else if i == at {
                    assert(after[i] == entry);
                    if j - 1 > at {
                        assert(name_lt(entries[at].name, entries[j - 1].name));
                        lemma_name_lt_transitive(entry.name, entries[at].name, entries[j - 1].name);
                    }
                } else {
                    assert(after[i] == entries[i - 1]);
                }
            }
        }
    }
}

/// Putting an entry whose types decode among such entries leaves every
/// entry with types that decode.
pub proof fn lemma_put_keeps_types(entries: Seq<UdfEntryView>, entry: UdfEntryView)
    requires
        forall|i: int| 0 <= i < entries.len() ==> (#[trigger] entries[i]).config.wf(),
        entry.config.wf(),
    ensures
        forall|i: int|
            0 <= i < put_udf(entries, entry).len() ==> (#[trigger] put_udf(
                entries,
                entry,
            )[i]).config.wf(),
{
    lemma_slot(entries, entry.name, 0);
    let at = slot(entries, entry.name, 0);
    let after = put_udf(entries, entry);
    assert forall|i: int| 0 <= i < after.len() implies (#[trigger] after[i]).config.wf() by {
        if at < entries.len() && entries[at].name == entry.name {
            if i != at {
                assert(after[i] == entries[i]);
            }
        } else {
            if i < at {
                assert(after[i] == entries[i]);
            } else if i > at {
                assert(after[i] == entries[i - 1]);
            }
        }
    }
}

/// What a registry holds after an entry is put among its entries, which
/// stand in the order of their names: the entry, and every entry of
/// another name that it held.
pub proof fn lemma_put_entries(entries: Seq<UdfEntryView>, entry: UdfEntryView, x: UdfEntryView)
    requires
        names_sorted(entries),
    ensures
        put_udf(entries, entry).contains(x) <==> (x == entry || (entries.contains(x) && x.name
            != entry.name)),
{
    lemma_slot(entries, entry.name, 0);
    lemma_sorted_distinct(entries);
    let at = slot(entries, entry.name, 0);
    let after = put_udf(entries, entry);
    let replaces = at < entries.len() && entries[at].name == entry.name;
    if !replaces && at < entries.len() {
        lemma_name_order(entries[at].name, entry.name);
    }
    // No entry but the one that is replaced bears the name.
    assert forall|k: int| 0 <= k < entries.len() && !(replaces && k == at) implies (
    #[trigger] entries[k]).name != entry.name by {
        lemma_name_order(entries[k].name, entry.name);
        if replaces {
            assert(entries[k].name != entries[at].name);
        } else if k > at {
            assert(name_lt(entries[at].name, entries[k].name));
            lemma_name_lt_transitive(entry.name, entries[at].name, entries[k].name);
        }
    }
    if after.contains(x) {
        let k = choose|k: int| 0 <= k < after.len() && after[k] == x;
        if replaces {
            if k != at {
                assert(entries[k] == x);
            }
        } else {
            if k < at {
                assert(entries[k] == x);
            } else if k > at {
                assert(entries[k - 1] == x);
            }
        }
    }
    if x == entry {
        assert(after[at] == x);
    }
    if entries.contains(x) && x.name != entry.name {
        let k = choose|k: int| 0 <= k < entries.len() && entries[k] == x;
        if replaces {
            assert(after[k] == x);
        } else if k < at {
            assert(after[k] == x);
        } else {
            assert(after[k + 1] == x);
        }
    }
}

/// Whatever is put one after the other stands in the order of its names.
pub proof fn lemma_put_all_sorted(entries: Seq<UdfEntryView>, count: int)
    ensures
        names_sorted(put_all(entries, count)),
    decreases count,
{
    if count > 0 {
        lemma_put_all_sorted(entries, count - 1);
        lemma_put_sorted(put_all(entries, count - 1), entries[count - 1]);
    }
}

/// Entries in the order of their names, put one after the other, give
/// themselves.
pub proof fn lemma_put_all_of_sorted(entries: Seq<UdfEntryView>, count: int)
    requires
        names_sorted(entries),
        0 <= count <= entries.len(),
    ensures
        put_all(entries, count) == entries.take(count),
    decreases count,
{
    if count > 0 {
        lemma_put_all_of_sorted(entries, count - 1);
        let before = entries.take(count - 1);
        let last = entries[count - 1];
        lemma_slot(before, last.name, 0);
        let at = slot(before, last.name, 0);
        if at < before.len() {
            assert(before[at] == entries[at]);
            assert(name_lt(entries[at].name, last.name));
        }
        assert(before.insert(at, last) =~= entries.take(count));
    } else {
        assert(put_all(entries, count) =~= entries.take(count));
    }
}

/// Entries of distinct names, put one after the other, are all there and
/// nothing else is.
pub proof fn lemma_put_all_entries(entries: Seq<UdfEntryView>, count: int, x: UdfEntryView)
    requires
        names_distinct(entries),
        0 <= count <= entries.len(),
    ensures
        put_all(entries, count).contains(x) <==> exists|k: int|
            0 <= k < count && #[trigger] entries[k] == x,
    decreases count,
{
    if count > 0 {
        let before = put_all(entries, count - 1);
        let last = entries[count - 1];
        lemma_put_all_entries(entries, count - 1, x);
        lemma_put_all_sorted(entries, count - 1);
        lemma_put_entries(before, last, x);
        if put_all(entries, count).contains(x) {
            if x == last {
                assert(entries[count - 1] == x);
            } else {
                let k = choose|k: int| 0 <= k < count - 1 && #[trigger] entries[k] == x;
                assert(0 <= k < count && entries[k] == x);
            }
        }
        if exists|k: int| 0 <= k < count && #[trigger] entries[k] == x {
            let k = choose|k: int| 0 <= k < count && #[trigger] entries[k] == x;
            if k < count - 1 {
                assert(entries[k].name != entries[count - 1].name);
                assert(0 <= k < count - 1 && entries[k] == x);
            }
        }
    } else {
        assert(put_all(entries, count) =~= Seq::<UdfEntryView>::empty());
    }
}

/// Entries in the order of their names are told by what they are: two
/// such lists that hold the same entries are one list.
pub proof fn lemma_sorted_told(a: Seq<UdfEntryView>, b: Seq<UdfEntryView>)
    requires
        names_sorted(a),
        names_sorted(b),
        same_entries(a, b),
    ensures
        a == b,
    decreases a.len(),
{
    if a.len() == 0 || b.len() == 0 {
        if b.len() > 0 {
            assert(b.contains(b[0]));
            assert(a.contains(b[0]));
        }
        if a.len() > 0 {
            assert(a.contains(a[0]));
            assert(b.contains(a[0]));
        }
        assert(a =~= b);
    } else {
        let m = a.last();
        let n = b.last();
        assert(a.contains(m));
        assert(b.contains(n));
        assert(b.contains(m));
        assert(a.contains(n));
        let j = choose|j: int| 0 <= j < b.len() && b[j] == m;
        let i = choose|i: int| 0 <= i < a.len() && a[i] == n;
        lemma_name_order(m.name, n.name);
        if j < b.len() - 1 {
            assert(name_lt(b[j].name, b[b.len() - 1].name));
            if i < a.len() - 1 {
                assert(name_lt(a[i].name, a[a.len() - 1].name));
            }
        }
        assert(m == n);
        let a0 = a.drop_last();
        let b0 = b.drop_last();
        assert forall|x: UdfEntryView| a0.contains(x) <==> b0.contains(x) by {
            lemma_name_order(x.name, m.name);
            if a0.contains(x) {
                let k = choose|k: int| 0 <= k < a0.len() && a0[k] == x;
                assert(a[k] == x);
                assert(name_lt(a[k].name, a[a.len() - 1].name));
                assert(a.contains(x));
                let l = choose|l: int| 0 <= l < b.len() && b[l] == x;
                assert(l < b.len() - 1);
                assert(b0[l] == x);
            }
            if b0.contains(x) {
                let k = choose|k: int| 0 <= k < b0.len() && b0[k] == x;
                assert(b[k] == x);
                assert(name_lt(b[k].name, b[b.len() - 1].name));
                assert(b.contains(x));
                let l = choose|l: int| 0 <= l < a.len() && a[l] == x;
                assert(l < a.len() - 1);
                assert(a0[l] == x);
            }
        }
        assert forall|i: int, j: int| 0 <= i < j < a0.len() implies name_lt(
            (#[trigger] a0[i]).name,
            (#[trigger] a0[j]).name,
        ) by {
            assert(a0[i] == a[i] && a0[j] == a[j]);
        }
        assert forall|i: int, j: int| 0 <= i < j < b0.len() implies name_lt(
            (#[trigger] b0[i]).name,
            (#[trigger] b0[j]).name,
        ) by {
            assert(b0[i] == b[i] && b0[j] == b[j]);
        }
        lemma_sorted_told(a0, b0);
        assert(a =~= a0.push(m));
        assert(b =~= b0.push(n));
    }
}

/// The order in which a registry was filled does not show in its order of
/// names: two registries that bear each name once and hold the same
/// entries have the same entries in the order of their names.
pub proof fn lemma_registry_order_irrelevant(a: Seq<UdfEntryView>, b: Seq<UdfEntryView>)
    requires
        names_distinct(a),
        names_distinct(b),
        same_entries(a, b),
    ensures
        canonical(a) == canonical(b),
{
    lemma_put_all_sorted(a, a.len() as int);
    lemma_put_all_sorted(b, b.len() as int);
    assert forall|x: UdfEntryView| canonical(a).contains(x) <==> canonical(b).contains(x) by {
        lemma_put_all_entries(a, a.len() as int, x);
        lemma_put_all_entries(b, b.len() as int, x);
        if canonical(a).contains(x) {
            let k = choose|k: int| 0 <= k < a.len() && #[trigger] a[k] == x;
            assert(a.contains(x));
            let l = choose|l: int| 0 <= l < b.len() && b[l] == x;
            assert(0 <= l < b.len() && b[l] == x);
        }
        if canonical(b).contains(x) {
            let k = choose|k: int| 0 <= k < b.len() && #[trigger] b[k] == x;
            assert(b.contains(x));
            let l = choose|l: int| 0 <= l < a.len() && a[l] == x;
            assert(0 <= l < a.len() && a[l] == x);
        }
    }
    lemma_sorted_told(canonical(a), canonical(b));
}

/// Two entries of different names can be put in either order.
pub proof fn lemma_put_order_irrelevant(
    entries: Seq<UdfEntryView>,
    first: UdfEntryView,
    second: UdfEntryView,
)
    requires
        names_sorted(entries),
        first.name != second.name,
    ensures
        put_udf(put_udf(entries, first), second) == put_udf(put_udf(entries, second), first),
{
    let one = put_udf(entries, first);
    let other = put_udf(entries, second);
    lemma_put_sorted(entries, first);
    lemma_put_sorted(entries, second);
    lemma_put_sorted(one, second);
    lemma_put_sorted(other, first);
    assert forall|x: UdfEntryView|
        put_udf(one, second).contains(x) <==> put_udf(other, first).contains(x) by {
        lemma_put_entries(entries, first, x);
        lemma_put_entries(entries, second, x);
        lemma_put_entries(one, second, x);
        lemma_put_entries(other, first, x);
    }
    lemma_sorted_told(put_udf(one, second), put_udf(other, first));
}


/// The functions that a program's operators refer to, by name. A registry
/// that is filled with `insert` holds each name once, in the order of the
/// names, whatever the order in which it was filled.
#[derive(Debug, PartialEq, Eq)]
pub struct ProgramConfig {
    pub udf_dylibs: Vec<UdfEntry>,
}

/// A [`ProgramConfig`] as the wire carries it.
#[derive(Debug, PartialEq, Eq)]
pub struct ArrowProgramConfig {
    pub udf_dylibs: Vec<ArrowUdfEntry>,
}

impl View for ProgramConfig {
    type V = Seq<UdfEntryView>;

    open spec fn view(&self) -> Seq<UdfEntryView> {
        self.udf_dylibs.deep_view()
    }
}

impl View for ArrowProgramConfig {
    type V = Seq<UdfEntryView>;

    open spec fn view(&self) -> Seq<UdfEntryView> {
        self.udf_dylibs.deep_view()
    }
}

impl DeepView for UdfEntry {
    type V = UdfEntryView;

    open spec fn deep_view(&self) -> UdfEntryView {
        self@
    }
}

impl DeepView for ArrowUdfEntry {
    type V = UdfEntryView;

    open spec fn deep_view(&self) -> UdfEntryView {
        self@
    }
}

/// The entries stand in the order of their names and every type blob
/// decodes.
pub open spec fn config_wf(entries: Seq<UdfEntryView>) -> bool {
    &&& names_sorted(entries)
    &&& forall|i: int| 0 <= i < entries.len() ==> (#[trigger] entries[i]).config.wf()
}

/// The position of the first entry from `from` on with a type blob that
/// does not decode.
pub open spec fn first_bad_udf(entries: Seq<UdfEntryView>, from: int) -> Option<int>
    decreases entries.len() - from,
{
    if from < 0 || from >= entries.len() {
        None
    } else if !entries[from].config.wf() {
        Some(from)
    } else {
        first_bad_udf(entries, from + 1)
    }
}

/// `first_bad_udf` finds none exactly when every entry's blobs decode.
pub proof fn lemma_first_bad_udf(entries: Seq<UdfEntryView>, from: int)
    requires
        0 <= from,
    ensures
        first_bad_udf(entries, from) is None <==> (forall|k: int|
            from <= k < entries.len() ==> (#[trigger] entries[k]).config.wf()),
        first_bad_udf(entries, from) matches Some(i) ==> from <= i < entries.len(),
    decreases entries.len() - from,
{
    if from < entries.len() && entries[from].config.wf() {
        lemma_first_bad_udf(entries, from + 1);
    }
}

/// What reading a registry from the wire gives: the name of the first
/// entry with a blob that does not decode, or the entries put one after the
/// other.
pub open spec fn decode_config(wire: Seq<UdfEntryView>) -> Result<Seq<UdfEntryView>, ProgramFault> {
    match first_bad_udf(wire, 0) {
        Some(i) => Err(ProgramFault::InvalidUdfType { udf: wire[i].name }),
        None => Ok(put_all(wire, wire.len() as int)),
    }
}

impl Clone for ProgramConfig {
    fn clone(&self) -> (res: Self)
        ensures
            res@ == self@,
    {
        let mut entries: Vec<UdfEntry> = Vec::new();
        let mut i: usize = 0;
        while i < self.udf_dylibs.len()
            invariant
                i <= self.udf_dylibs.len(),
                entries@.len() == i,
                forall|k: int| 0 <= k < i ==> entries@[k]@ == self.udf_dylibs@[k]@,
            decreases self.udf_dylibs.len() - i,
        {
            entries.push(self.udf_dylibs[i].clone());
            i += 1;
        }
        assert(entries.deep_view() =~= self.udf_dylibs.deep_view());
        ProgramConfig { udf_dylibs: entries }
    }
}

impl ProgramConfig {
    /// A registry without functions.
    pub fn new() -> (res: Self)
        ensures
            res@ == Seq::<UdfEntryView>::empty(),
    {
        let res = ProgramConfig { udf_dylibs: Vec::new() };
        assert(res.udf_dylibs.deep_view() =~= Seq::<UdfEntryView>::empty());
        res
    }

    /// The position of the entry of that name.
    pub fn position(&self, name: &str) -> (res: Option<usize>)
        ensures
            match res {
                Some(i) => find_udf(self@, name@, 0) == Some(i as int),
                None => find_udf(self@, name@, 0) is None,
            },
    {
        let mut i: usize = 0;
        while i < self.udf_dylibs.len()
            invariant
                i <= self.udf_dylibs.len(),
                find_udf(self@, name@, 0) == find_udf(self@, name@, i as int),
            decreases self.udf_dylibs.len() - i,
        {
            assert(self@[i as int].name == self.udf_dylibs@[i as int].name@);
            if self.udf_dylibs[i].name.as_str().eq(name) {
                return Some(i);
            }
            i += 1;
        }
        None
    }

    /// The function of that name, if the registry has one.
    pub fn get(&self, name: &str) -> (res: Option<&DylibUdfConfig>)
        ensures
            match res {
                Some(cfg) => find_udf(self@, name@, 0) matches Some(i) && cfg@ == self@[i].config,
                None => find_udf(self@, name@, 0) is None,
            },
    {
        proof {
            lemma_find_udf(self@, name@, 0);
        }
        match self.position(name) {
            Some(i) => {
                assert(self@[i as int].config == self.udf_dylibs@[i as int].config@);
                Some(&self.udf_dylibs[i].config)
            },
            None => None,
        }
    }

    /// The position at which an entry of that name belongs.
    pub fn slot_of(&self, name: &str) -> (at: usize)
        ensures
            at == slot(self@, name@, 0),
    {
        let mut at: usize = 0;
        while at < self.udf_dylibs.len()
            invariant
                at <= self.udf_dylibs.len(),
                slot(self@, name@, 0) == slot(self@, name@, at as int),
            decreases self.udf_dylibs.len() - at,
        {
            assert(self@[at as int].name == self.udf_dylibs@[at as int].name@);
            if !name_less(self.udf_dylibs[at].name.as_str(), name) {
                return at;
            }
            at += 1;
        }
        at
    }

    /// Puts a function under a name: in the place of the function that
    /// bore the name, or where the name belongs in the order of names. A
    /// registry that is only ever filled in this way stands in the order
    /// of its names, in whatever order it was filled.
    pub fn insert(&mut self, name: String, config: DylibUdfConfig)
        ensures
            final(self)@ == put_udf(old(self)@, UdfEntryView { name: name@, config: config@ }),
    {
        let ghost before = self@;
        let ghost entry = UdfEntryView { name: name@, config: config@ };
        proof {
            lemma_slot(before, name@, 0);
        }
        let at = self.slot_of(name.as_str());
        if at < self.udf_dylibs.len() && self.udf_dylibs[at].name.as_str().eq(name.as_str()) {
            assert(before[at as int].name == self.udf_dylibs@[at as int].name@);
            self.udf_dylibs.set(at, UdfEntry { name, config });
            assert(self.udf_dylibs.deep_view() =~= before.update(at as int, entry));
        } else {
            if at < self.udf_dylibs.len() {
                assert(before[at as int].name == self.udf_dylibs@[at as int].name@);
            }
            let ghost old_entries = self.udf_dylibs@;
            self.udf_dylibs.insert(at, UdfEntry { name, config });
            assert(self.udf_dylibs.deep_view() =~= before.insert(at as int, entry)) by {
                assert forall|k: int| 0 <= k < self.udf_dylibs@.len() implies self.udf_dylibs@[k]@
                    == #[trigger] before.insert(at as int, entry)[k] by {
                    if k < at {
                        assert(self.udf_dylibs@[k] == old_entries[k]);
                        assert(before[k] == old_entries[k]@);
                    } else if k > at {
                        assert(self.udf_dylibs@[k] == old_entries[k - 1]);
                        assert(before[k - 1] == old_entries[k - 1]@);
                    }
                }
            }
        }
    }

    /// Reads a registry from the wire, entry by entry. The first entry with
    /// a type blob that does not decode is rejected with `InvalidUdfType`,
    /// which carries its name. Otherwise the entries are put one after the
    /// other, each where its name belongs, a later one taking the place of
    /// an earlier one of its name.
    pub fn try_from(from: ArrowProgramConfig) -> (res: Result<ProgramConfig, ProgramError>)
        ensures
            match res {
                Ok(cfg) => decode_config(from@) == Ok::<Seq<UdfEntryView>, ProgramFault>(cfg@),
                Err(e) => decode_config(from@) == Err::<Seq<UdfEntryView>, ProgramFault>(e@),
            },
            res matches Ok(cfg) ==> config_wf(cfg@),
    {
        let ghost wire = from@;
        let mut cfg = ProgramConfig::new();
        let mut entries = from.udf_dylibs;
        let n = entries.len();
        let mut i: usize = n;
        // Entries can only be taken from the back of a list, so the list is
        // turned round first.
        let mut reversed: Vec<ArrowUdfEntry> = Vec::new();
        while i > 0
            invariant
                i == entries@.len(),
                i <= n,
                n == wire.len(),
                reversed@.len() == n - i,
                forall|k: int| 0 <= k < i ==> entries@[k]@ == wire[k],
                forall|k: int| 0 <= k < n - i ==> reversed@[k]@ == wire[n - 1 - k],
            decreases i,
        {
            assert(entries.deep_view()[i - 1] == entries@[i - 1]@);
            let entry = entries.pop().unwrap();
            reversed.push(entry);
            i -= 1;
        }
        let mut done: usize = 0;
        while done < n
            invariant
                done <= n,
                n == wire.len(),
                reversed@.len() == n - done,
                forall|k: int| 0 <= k < n - done ==> reversed@[k]@ == wire[n - 1 - k],
                wire == from@,
                first_bad_udf(wire, 0) == first_bad_udf(wire, done as int),
                cfg@ == put_all(wire, done as int),
                config_wf(cfg@),
            decreases n - done,
        {
            let entry = reversed.pop().unwrap();
            assert(entry@ == wire[done as int]);
            let name = entry.name;
            match DylibUdfConfig::try_from(entry.config) {
                None => {
                    assert(first_bad_udf(wire, done as int) == Some(done as int));
                    return Err(ProgramError::InvalidUdfType { udf: name });
                },
                Some(config) => {
                    proof {
                        lemma_put_sorted(cfg@, wire[done as int]);
                        lemma_put_keeps_types(cfg@, wire[done as int]);
                    }
                    cfg.insert(name, config);
                },
            }
            done += 1;
        }
        Ok(cfg)
    }
}

/// The registry in the order of its names.
fn in_name_order(from: ProgramConfig) -> (res: ProgramConfig)
    ensures
        res@ == canonical(from@),
{
    let ghost all = from@;
    let mut source = from.udf_dylibs;
    let n = source.len();
    let mut reversed: Vec<UdfEntry> = Vec::new();
    while source.len() > 0
        invariant
            source@.len() <= n,
            n == all.len(),
            reversed@.len() == n - source@.len(),
            forall|k: int| 0 <= k < source@.len() ==> source@[k]@ == all[k],
            forall|k: int| 0 <= k < reversed@.len() ==> reversed@[k]@ == all[n - 1 - k],
        decreases source@.len(),
    {
        let entry = source.pop().unwrap();
        reversed.push(entry);
    }
    let mut res = ProgramConfig::new();
    let mut done: usize = 0;
    while done < n
        invariant
            done <= n,
            n == all.len(),
            reversed@.len() == n - done,
            forall|k: int| 0 <= k < n - done ==> reversed@[k]@ == all[n - 1 - k],
            res@ == put_all(all, done as int),
        decreases n - done,
    {
        let entry = reversed.pop().unwrap();
        assert(entry@ == all[done as int]);
        res.insert(entry.name, entry.config);
        done += 1;
    }
    res
}

/// The same entries in the same order, as the wire carries them.
fn entries_to_wire(from: ProgramConfig) -> (res: ArrowProgramConfig)
    ensures
        res@ == from@,
{
    let ghost all = from@;
    let mut source = from.udf_dylibs;
    let n = source.len();
    let mut reversed: Vec<ArrowUdfEntry> = Vec::new();
    while source.len() > 0
        invariant
            source@.len() <= n,
            n == all.len(),
            reversed@.len() == n - source@.len(),
            forall|k: int| 0 <= k < source@.len() ==> source@[k]@ == all[k],
            forall|k: int| 0 <= k < reversed@.len() ==> reversed@[k]@ == all[n - 1 - k],
        decreases source@.len(),
    {
        let entry = source.pop().unwrap();
        reversed.push(
            ArrowUdfEntry { name: entry.name, config: ArrowDylibUdfConfig::from(entry.config) },
        );
    }
    let mut entries: Vec<ArrowUdfEntry> = Vec::new();
    while reversed.len() > 0
        invariant
            reversed@.len() <= n,
            n == all.len(),
            entries@.len() == n - reversed@.len(),
            forall|k: int| 0 <= k < reversed@.len() ==> reversed@[k]@ == all[n - 1 - k],
            forall|k: int| 0 <= k < entries@.len() ==> entries@[k]@ == all[k],
        decreases reversed@.len(),
    {
        let entry = reversed.pop().unwrap();
        entries.push(entry);
    }
    assert(entries.deep_view() =~= all);
    ArrowProgramConfig { udf_dylibs: entries }
}

impl ArrowProgramConfig {
    /// The wire form of a registry: its entries in the order of their
    /// names, whatever the order in which it was filled.
    pub fn from(from: ProgramConfig) -> (res: ArrowProgramConfig)
        ensures
            res@ == canonical(from@),
    {
        entries_to_wire(in_name_order(from))
    }
}

/// A well-formed registry survives the trip to the wire and back.
pub proof fn lemma_config_round_trip(entries: Seq<UdfEntryView>)
    requires
        config_wf(entries),
    ensures
        decode_config(entries) == Ok::<Seq<UdfEntryView>, ProgramFault>(entries),
{
    lemma_first_bad_udf(entries, 0);
    lemma_put_all_of_sorted(entries, entries.len() as int);
    assert(entries.take(entries.len() as int) =~= entries);
}

} // verus!
