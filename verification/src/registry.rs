//! Frame registry: an identifier-keyed mapping of stored frame artifacts.
//!
//! Identifiers are fresh version-4 UUIDs in canonical text form. Once an
//! identifier is handed out, the entry exists until process end and is never
//! reassigned; frames are immutable after insertion and `get` returns an
//! independently owned snapshot.

use crate::error::Status;
use crate::frame::{DataFrameArtifact, DataFrameArtifactView};
use vstd::prelude::*;
use vstd::string::StringExecFns;

verus! {

/// No two entries share an identifier.
pub open spec fn keys_unique(s: Seq<(String, DataFrameArtifact)>) -> bool {
    forall|i: int, j: int| 0 <= i < j < s.len() ==> s[i].0@ != s[j].0@
}

/// The mapping the entry list stands for, later entries shadowing earlier
/// ones (with unique keys nothing shadows).
pub open spec fn map_of(s: Seq<(String, DataFrameArtifact)>) -> Map<
    Seq<char>,
    DataFrameArtifactView,
>
    decreases s.len(),
{
    if s.len() == 0 {
        Map::empty()
    } else {
        map_of(s.drop_last()).insert(s.last().0@, s.last().1@)
    }
}

/// A key is in the mapping exactly when some entry holds it.
pub proof fn lemma_map_of_contains(s: Seq<(String, DataFrameArtifact)>, k: Seq<char>)
    ensures
        map_of(s).contains_key(k) <==> exists|j: int| 0 <= j < s.len() && #[trigger] s[j].0@ == k,
    decreases s.len(),
{
    if s.len() == 0 {
    } else {
        lemma_map_of_contains(s.drop_last(), k);
        if s.last().0@ == k {
            assert(s[s.len() - 1].0@ == k);
        } else {
            if map_of(s).contains_key(k) {
                let j = choose|j: int| 0 <= j < s.drop_last().len() && #[trigger] s.drop_last()[j].0@
                    == k;
                assert(s[j].0@ == k);
            }
            if exists|j: int| 0 <= j < s.len() && #[trigger] s[j].0@ == k {
                let j = choose|j: int| 0 <= j < s.len() && #[trigger] s[j].0@ == k;
                assert(s.drop_last()[j].0@ == k);
            }
        }
    }
}

/// With unique keys, the entry holding a key gives the mapping's value at it.
pub proof fn lemma_map_of_get(s: Seq<(String, DataFrameArtifact)>, j: int)
    requires
        keys_unique(s),
        0 <= j < s.len(),
    ensures
        map_of(s).contains_key(s[j].0@),
        map_of(s)[s[j].0@] == s[j].1@,
    decreases s.len(),
{
    if j == s.len() - 1 {
    } else {
        assert(keys_unique(s.drop_last()));
        assert(s.drop_last()[j] == s[j]);
        lemma_map_of_get(s.drop_last(), j);
        assert(s[j].0@ != s.last().0@);
    }
}

/// The identifier-keyed registry of uploaded and derived frames.
pub struct Registry {
    entries: Vec<(String, DataFrameArtifact)>,
}

impl View for Registry {
    type V = Map<Seq<char>, DataFrameArtifactView>;

    closed spec fn view(&self) -> Map<Seq<char>, DataFrameArtifactView> {
        map_of(self.entries@)
    }
}

impl Registry {
    /// The registry never holds two entries under one identifier.
    pub closed spec fn wf(&self) -> bool {
        keys_unique(self.entries@)
    }

    /// An empty registry.
    pub fn new() -> (r: Self)
        ensures
            r.wf(),
            r@ == Map::<Seq<char>, DataFrameArtifactView>::empty(),
    {
        Registry { entries: Vec::new() }
    }

    /// Whether an identifier is present.
    pub fn contains_id(&self, identifier: &String) -> (r: bool)
        requires
            self.wf(),
        ensures
            r == self@.contains_key(identifier@),
    {
        let mut i: usize = 0;
        while i < self.entries.len()
            invariant
                self.wf(),
                i <= self.entries@.len(),
                forall|j: int| 0 <= j < i ==> #[trigger] self.entries@[j].0@ != identifier@,
            decreases self.entries.len() - i,
        {
            if self.entries[i].0 == *identifier {
                proof {
                    lemma_map_of_contains(self.entries@, identifier@);
                }
                return true;
            }
            i = i + 1;
        }
        proof {
            lemma_map_of_contains(self.entries@, identifier@);
        }
        false
    }

    /// Shared read: an owned snapshot of the artifact stored under
    /// `identifier`, or `NotFound` naming it when there is none.
    pub fn get(&self, identifier: &String) -> (r: Result<DataFrameArtifact, Status>)
        requires
            self.wf(),
        ensures
            match r {
                Ok(a) => self@.contains_key(identifier@) && a@ == self@[identifier@],
                Err(e) => !self@.contains_key(identifier@) && (e matches Status::NotFound(m)
                    && m@ == "Could not find dataframe: identifier="@ + identifier@),
            },
    {
        let mut i: usize = 0;
        while i < self.entries.len()
            invariant
                self.wf(),
                i <= self.entries@.len(),
                forall|j: int| 0 <= j < i ==> #[trigger] self.entries@[j].0@ != identifier@,
            decreases self.entries.len() - i,
        {
            if self.entries[i].0 == *identifier {
                proof {
                    lemma_map_of_get(self.entries@, i as int);
                }
                return Ok(self.entries[i].1.duplicate());
            }
            i = i + 1;
        }
        proof {
            lemma_map_of_contains(self.entries@, identifier@);
        }
        let msg = String::from_str("Could not find dataframe: identifier=").concat(
            identifier.as_str(),
        );
        Err(Status::NotFound(msg))
    }

    /// Exclusive insert: store `artifact` under a fresh identifier and hand
    /// the identifier out. Identifier collisions are retried a bounded number
    /// of times; exhausting the retries (practically impossible for v4
    /// entropy) reports an internal error and leaves the registry unchanged.
    pub fn insert_df(&mut self, artifact: DataFrameArtifact) -> (r: Result<String, Status>)
        requires
            old(self).wf(),
        ensures
            final(self).wf(),
            match r {
                Ok(id) => canonical_uuid(id@) && !old(self)@.contains_key(id@) && final(self)@
                    == old(self)@.insert(id@, artifact@),
                Err(e) => final(self)@ == old(self)@ && (e matches Status::Internal(m) && m@
                    == "Could not allocate a fresh dataframe identifier"@),
            },
    {
        let mut tries: usize = 16;
        while tries > 0
            invariant
                self == old(self),
                self.wf(),
            decreases tries,
        {
            let id = fresh_identifier();
            if !self.contains_id(&id) {
                let ghost entries0 = self.entries@;
                self.entries.push((id.clone(), artifact));
                proof {
                    assert(self.entries@.drop_last() =~= entries0);
                    lemma_map_of_contains(entries0, id@);
                    assert forall|i: int, j: int|
                        0 <= i < j < self.entries@.len() implies self.entries@[i].0@
                        != self.entries@[j].0@ by {
                        if j < self.entries@.len() - 1 {
                            assert(entries0[i].0@ != entries0[j].0@);
                        } else {
                            assert(self.entries@[i] == entries0[i]);
                        }
                    }
                }
                return Ok(id);
            }
            tries = tries - 1;
        }
        Err(
            Status::Internal(
                String::from_str("Could not allocate a fresh dataframe identifier"),
            ),
        )
    }
}

/// What an insert stores, a lookup finds: after the registry maps a fresh
/// identifier to an inserted artifact, reading that identifier yields
/// exactly the artifact that was inserted.
pub proof fn lemma_insert_get(
    m: Map<Seq<char>, DataFrameArtifactView>,
    id: Seq<char>,
    a: DataFrameArtifactView,
)
    ensures
        m.insert(id, a).contains_key(id),
        m.insert(id, a)[id] == a,
{
}

/// A character of the lowercase hexadecimal alphabet.
pub open spec fn is_lower_hex(c: char) -> bool {
    ('0' as u32 <= c as u32 && c as u32 <= '9' as u32) || ('a' as u32 <= c as u32 && c as u32
        <= 'f' as u32)
}

/// The canonical text form of a UUID: 36 characters, hyphens at offsets 8,
/// 13, 18 and 23, lowercase hexadecimal digits everywhere else.
pub open spec fn canonical_uuid(s: Seq<char>) -> bool {
    s.len() == 36 && forall|i: int|
        0 <= i < 36 ==> if i == 8 || i == 13 || i == 18 || i == 23 {
            #[trigger] s[i] == '-'
        } else {
            is_lower_hex(s[i])
        }
}

/// Entries already stored survive an insert unchanged: an identifier handed
/// out once keeps naming the same artifact, and is never reassigned.
pub proof fn lemma_insert_preserves(
    m: Map<Seq<char>, DataFrameArtifactView>,
    id: Seq<char>,
    a: DataFrameArtifactView,
    k: Seq<char>,
)
    requires
        m.contains_key(k),
        !m.contains_key(id),
    ensures
        m.insert(id, a).contains_key(k),
        m.insert(id, a)[k] == m[k],
{
}

/// Relies on `uuid::Uuid::new_v4` and its `Display` impl: a fresh random
/// version-4 UUID rendered in canonical hyphenated text form — 36 ASCII
/// characters, hyphens at offsets 8, 13, 18 and 23, lowercase hexadecimal
/// digits elsewhere. The draw is random, so nothing relates two calls.
#[verifier::external_body]
fn fresh_identifier() -> (r: String)
    ensures
        r.is_ascii(),
        canonical_uuid(r@),
{
    format!("{}", uuid::Uuid::new_v4())
}

} // verus!
