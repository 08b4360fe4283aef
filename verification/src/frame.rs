//! The data model of the runtime: columnar frames as the core observes them.
//!
//! A frame is an immutable columnar table owned by the registry after
//! insertion. The core never inspects cell values: a column is its serialized
//! byte form (produced by the external columnar engine), and the schema is an
//! ordered list of (column-name, column-type) pairs.

use vstd::prelude::*;
use vstd::string::{StrSliceExecFns, StringExecFns};

verus! {

/// One (column-name, column-type) pair of a frame's schema.
#[derive(Debug)]
pub struct ColumnSpec {
    pub name: String,
    pub dtype: String,
}

/// The mathematical value of a `ColumnSpec`.
#[verifier::ext_equal]
pub ghost struct ColumnSpecView {
    pub name: Seq<char>,
    pub dtype: Seq<char>,
}

impl View for ColumnSpec {
    type V = ColumnSpecView;

    open spec fn view(&self) -> ColumnSpecView {
        ColumnSpecView { name: self.name@, dtype: self.dtype@ }
    }
}

/// A columnar frame: the serialized bytes of each column, in order, and the
/// schema describing them.
#[derive(Debug)]
pub struct DataFrame {
    pub columns: Vec<Vec<u8>>,
    pub schema: Vec<ColumnSpec>,
}

/// The mathematical value of a `DataFrame`.
#[verifier::ext_equal]
pub ghost struct DataFrameView {
    pub columns: Seq<Seq<u8>>,
    pub schema: Seq<ColumnSpecView>,
}

impl View for DataFrame {
    type V = DataFrameView;

    open spec fn view(&self) -> DataFrameView {
        DataFrameView {
            columns: self.columns@.map_values(|c: Vec<u8>| c@),
            schema: self.schema@.map_values(|c: ColumnSpec| c@),
        }
    }
}

/// The policy decision made before a fetch starts streaming.
#[derive(Debug)]
pub enum FetchStatus {
    /// Stream the data at once.
    Ready,
    /// The data is not available yet; the reason is streamed first.
    Pending(String),
    /// The data is released with a caveat; the reason is streamed first.
    Warning(String),
}

/// A stored frame together with its access-control policy, the set of column
/// names marked sensitive, and whether it may be persisted. Immutable after
/// upload.
#[derive(Debug)]
pub struct DataFrameArtifact {
    pub df: DataFrame,
    pub policy: String,
    pub blacklist: Vec<String>,
    pub savable: bool,
}

/// The mathematical value of a `DataFrameArtifact`.
#[verifier::ext_equal]
pub ghost struct DataFrameArtifactView {
    pub df: DataFrameView,
    pub policy: Seq<char>,
    pub blacklist: Seq<Seq<char>>,
    pub savable: bool,
}

impl View for DataFrameArtifact {
    type V = DataFrameArtifactView;

    open spec fn view(&self) -> DataFrameArtifactView {
        DataFrameArtifactView {
            df: self.df@,
            policy: self.policy@,
            blacklist: self.blacklist@.map_values(|s: String| s@),
            savable: self.savable,
        }
    }
}

impl DataFrameArtifact {
    /// Bundle a frame with its access-control attributes.
    pub fn new(df: DataFrame, policy: String, blacklist: Vec<String>, savable: bool) -> (r: Self)
        ensures
            r@.df == df@,
            r@.policy == policy@,
            r@.blacklist == blacklist@.map_values(|s: String| s@),
            r@.savable == savable,
    {
        DataFrameArtifact { df, policy, blacklist, savable }
    }
}

/// The JSON escape of one character: quote and backslash take a leading
/// backslash, any other character stands as itself.
pub open spec fn escape_char(c: char) -> Seq<char> {
    if c == '"' {
        seq!['\\', '"']
    } else if c == '\\' {
        seq!['\\', '\\']
    } else {
        seq![c]
    }
}

/// The JSON escape of a text, character by character.
pub open spec fn escape_json(s: Seq<char>) -> Seq<char>
    decreases s.len(),
{
    if s.len() == 0 {
        Seq::empty()
    } else {
        escape_char(s[0]) + escape_json(s.drop_first())
    }
}

/// Appending one more character extends the escape on the right.
pub proof fn lemma_escape_push(s: Seq<char>, c: char)
    ensures
        escape_json(s.push(c)) == escape_json(s) + escape_char(c),
    decreases s.len(),
{
    let p = s.push(c);
    if s.len() == 0 {
        assert(p.drop_first() =~= Seq::<char>::empty());
        assert(escape_json(p.drop_first()) == Seq::<char>::empty());
        assert(escape_json(p) == escape_char(p[0]) + escape_json(p.drop_first()));
        assert(p[0] == c);
        assert(escape_char(c) + Seq::<char>::empty() =~= escape_char(c));
        assert(escape_json(s) + escape_char(c) =~= escape_char(c));
    } else {
        assert(p.drop_first() =~= s.drop_first().push(c));
        lemma_escape_push(s.drop_first(), c);
        assert(escape_json(p) == escape_char(p[0]) + escape_json(p.drop_first()));
        assert(p[0] == s[0]);
        assert(escape_char(s[0]) + (escape_json(s.drop_first()) + escape_char(c)) =~= (
        escape_char(s[0]) + escape_json(s.drop_first())) + escape_char(c));
    }
}

/// The JSON form of one schema entry: `["<name>","<type>"]`, both texts
/// escaped.
pub open spec fn entry_json(c: ColumnSpecView) -> Seq<char> {
    seq!['[', '"'] + escape_json(c.name) + seq!['"', ',', '"'] + escape_json(c.dtype) + seq![
        '"',
        ']',
    ]
}

/// The JSON forms of the entries, comma-separated.
pub open spec fn entries_json(schema: Seq<ColumnSpecView>) -> Seq<char>
    decreases schema.len(),
{
    if schema.len() == 0 {
        Seq::empty()
    } else if schema.len() == 1 {
        entry_json(schema[0])
    } else {
        entry_json(schema[0]) + seq![','] + entries_json(schema.drop_first())
    }
}

/// The JSON form of a schema: the ordered array of (name, type) pairs.
pub open spec fn schema_json(schema: Seq<ColumnSpecView>) -> Seq<char> {
    seq!['['] + entries_json(schema) + seq![']']
}

/// The JSON escape of a text, written out.
fn escape_text(s: &str) -> (r: String)
    ensures
        r@ == escape_json(s@),
{
    let n = s.unicode_len();
    let mut out = String::new();
    let mut i: usize = 0;
    assert(s@.subrange(0, 0) =~= Seq::<char>::empty());
    while i < n
        invariant
            i <= n,
            n == s@.len(),
            out@ == escape_json(s@.subrange(0, i as int)),
        decreases n - i,
    {
        let ghost prefix = s@.subrange(0, i as int);
        let c = s.get_char(i);
        if c == '"' {
            proof {
                reveal_strlit("\\\"");
            }
            out.append("\\\"");
        } else if c == '\\' {
            proof {
                reveal_strlit("\\\\");
            }
            out.append("\\\\");
        } else {
            let piece = s.substring_char(i, i + 1);
            assert(piece@ =~= seq![s@[i as int]]);
            out.append(piece);
        }
        i = i + 1;
        proof {
            lemma_escape_push(prefix, s@[i - 1]);
            assert(s@.subrange(0, i as int) =~= prefix.push(s@[i - 1]));
            assert(out@ =~= escape_json(prefix) + escape_char(s@[i - 1]));
        }
    }
    assert(s@.subrange(0, n as int) =~= s@);
    out
}

/// The JSON form of one schema entry.
fn entry_header(c: &ColumnSpec) -> (r: String)
    ensures
        r@ == entry_json(c@),
{
    proof {
        reveal_strlit("[\"");
        reveal_strlit("\",\"");
        reveal_strlit("\"]");
    }
    let h = String::from_str("[\"").concat(escape_text(c.name.as_str()).as_str()).concat(
        "\",\"",
    ).concat(escape_text(c.dtype.as_str()).as_str()).concat("\"]");
    assert(h@ =~= entry_json(c@));
    h
}

/// The comma-separated JSON entries of the schema from index `k` on.
fn entries_header(schema: &Vec<ColumnSpec>, k: usize) -> (r: String)
    requires
        k <= schema@.len(),
    ensures
        r@ == entries_json(schema@.skip(k as int).map_values(|c: ColumnSpec| c@)),
    decreases schema@.len() - k,
{
    let ghost tail = schema@.skip(k as int).map_values(|c: ColumnSpec| c@);
    assert(tail.len() == schema@.len() - k) by {
        assert(schema@.skip(k as int).len() == schema@.len() - k);
    }
    if k == schema.len() {
        assert(tail =~= Seq::<ColumnSpecView>::empty());
        return String::new();
    }
    assert(tail[0] == schema@[k as int]@);
    let entry = entry_header(&schema[k]);
    if k + 1 == schema.len() {
        assert(tail.len() == 1);
        return entry;
    }
    proof {
        assert(tail.drop_first() =~= schema@.skip(k as int + 1).map_values(
            |c: ColumnSpec| c@,
        ));
    }
    let rest = entries_header(schema, k + 1);
    proof {
        reveal_strlit(",");
    }
    let h = entry.concat(",").concat(rest.as_str());
    assert(h@ =~= entries_json(tail));
    h
}

impl DataFrame {
    /// The JSON-encoded schema of the frame — the only part a reference
    /// response reveals.
    pub fn schema_header(&self) -> (r: String)
        ensures
            r@ == schema_json(self@.schema),
    {
        let ghost all = self.schema@.map_values(|c: ColumnSpec| c@);
        assert(self.schema@.skip(0) =~= self.schema@);
        let entries = entries_header(&self.schema, 0);
        proof {
            reveal_strlit("[");
            reveal_strlit("]");
        }
        let h = String::from_str("[").concat(entries.as_str()).concat("]");
        assert(h@ =~= schema_json(all));
        h
    }
}

/// An owned copy of a byte column.
pub fn clone_bytes(v: &Vec<u8>) -> (r: Vec<u8>)
    ensures
        r@ == v@,
{
    let mut r: Vec<u8> = Vec::new();
    let mut i: usize = 0;
    while i < v.len()
        invariant
            i <= v.len(),
            r@ == v@.subrange(0, i as int),
        decreases v.len() - i,
    {
        r.push(v[i]);
        i = i + 1;
        assert(r@ =~= v@.subrange(0, i as int));
    }
    assert(r@ =~= v@);
    r
}

/// An owned copy of a sequence of byte columns.
pub fn clone_columns(v: &Vec<Vec<u8>>) -> (r: Vec<Vec<u8>>)
    ensures
        r@.map_values(|c: Vec<u8>| c@) == v@.map_values(|c: Vec<u8>| c@),
{
    let mut r: Vec<Vec<u8>> = Vec::new();
    let mut i: usize = 0;
    while i < v.len()
        invariant
            i <= v.len(),
            r@.len() == i,
            forall|j: int| 0 <= j < i ==> #[trigger] r@[j]@ == v@[j]@,
        decreases v.len() - i,
    {
        r.push(clone_bytes(&v[i]));
        i = i + 1;
    }
    assert(r@.map_values(|c: Vec<u8>| c@) =~= v@.map_values(|c: Vec<u8>| c@));
    r
}

/// An owned copy of a list of texts.
pub fn clone_texts(v: &Vec<String>) -> (r: Vec<String>)
    ensures
        r@.map_values(|s: String| s@) == v@.map_values(|s: String| s@),
{
    let mut r: Vec<String> = Vec::new();
    let mut i: usize = 0;
    while i < v.len()
        invariant
            i <= v.len(),
            r@.len() == i,
            forall|j: int| 0 <= j < i ==> #[trigger] r@[j]@ == v@[j]@,
        decreases v.len() - i,
    {
        r.push(v[i].clone());
        i = i + 1;
    }
    assert(r@.map_values(|s: String| s@) =~= v@.map_values(|s: String| s@));
    r
}

impl DataFrameArtifact {
    /// An owned copy of this artifact, equal in value.
    pub fn duplicate(&self) -> (r: Self)
        ensures
            r@ == self@,
    {
        let r = DataFrameArtifact {
            df: self.df.duplicate(),
            policy: self.policy.clone(),
            blacklist: clone_texts(&self.blacklist),
            savable: self.savable,
        };
        assert(r@ =~= self@);
        r
    }
}

impl DataFrame {
    /// An owned copy of this frame, equal in value; suitable for streaming
    /// without holding the registry.
    pub fn duplicate(&self) -> (r: Self)
        ensures
            r@ == self@,
    {
        let columns = clone_columns(&self.columns);
        let mut schema: Vec<ColumnSpec> = Vec::new();
        let mut i: usize = 0;
        while i < self.schema.len()
            invariant
                i <= self.schema.len(),
                schema@.len() == i,
                forall|j: int| 0 <= j < i ==> #[trigger] schema@[j]@ == self.schema@[j]@,
            decreases self.schema.len() - i,
        {
            schema.push(
                ColumnSpec {
                    name: self.schema[i].name.clone(),
                    dtype: self.schema[i].dtype.clone(),
                },
            );
            i = i + 1;
        }
        assert(schema@.map_values(|c: ColumnSpec| c@) =~= self.schema@.map_values(
            |c: ColumnSpec| c@,
        ));
        let r = DataFrame { columns, schema };
        assert(r@ =~= self@);
        r
    }
}

} // verus!
