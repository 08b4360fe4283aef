//! The service state and its four operations: upload a frame, run a query
//! plan, fetch a frame's bytes, and mint a challenge.
//!
//! The state gathers the frame registry, the key ring, and the challenge
//! set — the only shared mutable pieces of the data path. The transport hands
//! these methods plain values (collected chunks, header names, documents as
//! text) and carries their results back onto the wire; locking and streaming
//! belong to that outer layer.
//!
//! The uploaded policy document is stored opaquely with its frame: its
//! interpretation belongs to the access-control collaborator, as does the
//! joining of policies during plan evaluation, so a derived frame here
//! carries an empty policy.

use crate::challenge::ChallengeSet;
use crate::codec::{
    concat_spec, datas_of, join_spec, metadatas_of, policies_of, split_spec, chunk_data,
    concat_texts, stream_data, unstream_data, FetchChunk, SendChunk,
};
use crate::error::Status;
use crate::frame::{
    schema_json, ColumnSpec, DataFrame, DataFrameArtifact, DataFrameArtifactView, DataFrameView,
    FetchStatus,
};
use crate::keys::{
    count_signing, ecdsa_p256_valid, header_key_id, header_ok, is_signing_header, key_lookup,
    KeyManagement,
};
use crate::plan::{
    eval_plan_spec, parse_plan, parse_plan_spec, parse_text_list, parse_texts_spec, plan_ids,
    run_plan, PlanOutcome, PlanSegment,
};
use crate::registry::{canonical_uuid, Registry};
use vstd::prelude::*;
use vstd::string::StringExecFns;

verus! {

/// The reference handed back for a stored frame: its identifier and the
/// JSON-encoded schema — the only part of the frame revealed on insert.
#[derive(Debug)]
pub struct ReferenceResponse {
    pub identifier: String,
    pub header: String,
}

/// How many bytes of a frame's wire form one fetch chunk carries.
pub const FETCH_CHUNK_SIZE: usize = 32;

/// The shared state of the service.
pub struct BastionLabState {
    pub dataframes: Registry,
    pub keys: KeyManagement,
    pub challenges: ChallengeSet,
}

impl BastionLabState {
    /// The registry and the challenge set keep their invariants.
    pub open spec fn wf(&self) -> bool {
        self.dataframes.wf() && self.challenges.wf()
    }

    /// A fresh state around a loaded key ring: no frames, no outstanding
    /// challenges.
    pub fn new(keys: KeyManagement) -> (r: Self)
        ensures
            r.wf(),
            r.dataframes@ == Map::<Seq<char>, DataFrameArtifactView>::empty(),
            r.challenges@ == Set::<Seq<u8>>::empty(),
            r.keys == keys,
    {
        BastionLabState { dataframes: Registry::new(), keys, challenges: ChallengeSet::new() }
    }

    /// Shared read of a stored artifact; `NotFound` names the identifier.
    pub fn get_df(&self, identifier: &String) -> (r: Result<DataFrameArtifact, Status>)
        requires
            self.wf(),
        ensures
            match r {
                Ok(a) => self.dataframes@.contains_key(identifier@) && a@
                    == self.dataframes@[identifier@],
                Err(e) => !self.dataframes@.contains_key(identifier@) && (e matches
                Status::NotFound(m) && m@ == "Could not find dataframe: identifier="@
                    + identifier@),
            },
    {
        self.dataframes.get(identifier)
    }

    /// Store an artifact under a fresh identifier.
    pub fn insert_df(&mut self, artifact: DataFrameArtifact) -> (r: Result<String, Status>)
        requires
            old(self).wf(),
        ensures
            final(self).wf(),
            final(self).challenges@ == old(self).challenges@,
            final(self).keys == old(self).keys,
            match r {
                Ok(id) => canonical_uuid(id@) && !old(self).dataframes@.contains_key(id@)
                    && final(self).dataframes@ == old(self).dataframes@.insert(id@, artifact@),
                Err(e) => final(self).dataframes@ == old(self).dataframes@ && (e matches
                Status::Internal(m) && m@ == "Could not allocate a fresh dataframe identifier"@),
            },
    {
        self.dataframes.insert_df(artifact)
    }

    /// Every signing header of the request must name a known key and carry
    /// a valid signature over the canonical request digest; how many signing
    /// headers there were is returned.
    pub fn verify_request(&self, binary_headers: &Vec<(String, Vec<u8>)>, digest: &Vec<u8>) -> (r:
        Result<usize, Status>)
        ensures
            match r {
                Ok(n) => n == count_signing(binary_headers@) && forall|k: int|
                    0 <= k < binary_headers@.len() && is_signing_header(
                        #[trigger] binary_headers@[k].0@,
                    ) ==> header_ok(self.keys.ring_of(), binary_headers@[k], digest@),
                Err(e) => e matches Status::PermissionDenied(m) && exists|k: int|
                    0 <= k < binary_headers@.len() && is_signing_header(
                        #[trigger] binary_headers@[k].0@,
                    ) && match key_lookup(
                        self.keys.ring_of(),
                        header_key_id(binary_headers@[k].0@),
                    ) {
                        None => m@ == "Unknown signing key: "@ + header_key_id(
                            binary_headers@[k].0@,
                        ),
                        Some(kb) => !ecdsa_p256_valid(kb, digest@, binary_headers@[k].1@) && m@
                            == "Invalid signature for key: "@ + header_key_id(
                            binary_headers@[k].0@,
                        ),
                    },
            },
    {
        self.keys.verify_request(binary_headers, digest)
    }

    /// Consume the request's challenge. A fetch without a challenge is
    /// denied, and so is a challenge never minted or already used.
    pub fn check_challenge(&mut self, challenge: Option<&Vec<u8>>) -> (r: Result<(), Status>)
        requires
            old(self).wf(),
        ensures
            final(self).wf(),
            final(self).dataframes@ == old(self).dataframes@,
            final(self).keys == old(self).keys,
            match challenge {
                None => final(self).challenges@ == old(self).challenges@ && (r matches Err(e) && (
                e matches Status::PermissionDenied(m) && m@ == "A challenge is required"@)),
                Some(c) => {
                    &&& old(self).challenges@.contains(c@) ==> r is Ok && final(self).challenges@
                        == old(self).challenges@.remove(c@)
                    &&& !old(self).challenges@.contains(c@) ==> final(self).challenges@ == old(self).challenges@ && (r matches Err(e) && (e matches Status::PermissionDenied(m)
                        && m@ == "Invalid or reused challenge"@))
                },
            },
    {
        match challenge {
            None => Err(
                Status::PermissionDenied(String::from_str("A challenge is required")),
            ),
            Some(c) => self.challenges.consume(c),
        }
    }

    /// Mint a fresh single-use challenge and remember it.
    pub fn new_challenge(&mut self) -> (r: Result<Vec<u8>, Status>)
        requires
            old(self).wf(),
        ensures
            final(self).wf(),
            final(self).dataframes@ == old(self).dataframes@,
            final(self).keys == old(self).keys,
            match r {
                Ok(c) => c@.len() == 32 && !old(self).challenges@.contains(c@) && final(self).challenges@ == old(self).challenges@.insert(c@),
                Err(e) => final(self).challenges@ == old(self).challenges@ && e is Internal,
            },
    {
        self.challenges.new_challenge()
    }

    /// The challenge operation of the facade: mint and hand out.
    pub fn get_challenge(&mut self) -> (r: Result<Vec<u8>, Status>)
        requires
            old(self).wf(),
        ensures
            final(self).wf(),
            final(self).dataframes@ == old(self).dataframes@,
            final(self).keys == old(self).keys,
            match r {
                Ok(c) => c@.len() == 32 && !old(self).challenges@.contains(c@) && final(self).challenges@ == old(self).challenges@.insert(c@),
                Err(e) => final(self).challenges@ == old(self).challenges@ && e is Internal,
            },
    {
        self.new_challenge()
    }

    /// Run a composite plan: decode it, evaluate its entry points against
    /// the registry, and store the resulting frame under a fresh identifier,
    /// answering with that identifier and the result's schema header. A
    /// derived frame carries an empty policy and blacklist and is not
    /// savable.
    pub fn run_query(&mut self, composite_plan: &str) -> (r: Result<ReferenceResponse, Status>)
        requires
            old(self).wf(),
        ensures
            final(self).wf(),
            final(self).challenges@ == old(self).challenges@,
            final(self).keys == old(self).keys,
            match r {
                Ok(resp) => {
                    &&& parse_plan_spec(composite_plan@) matches Some(ids)
                    &&& eval_plan_spec(ids, old(self).dataframes@) matches PlanOutcome::Frame(df)
                    &&& resp.header@ == schema_json(df.schema)
                    &&& canonical_uuid(resp.identifier@)
                    &&& !old(self).dataframes@.contains_key(resp.identifier@)
                    &&& final(self).dataframes@ == old(self).dataframes@.insert(
                        resp.identifier@,
                        DataFrameArtifactView {
                            df,
                            policy: Seq::empty(),
                            blacklist: Seq::empty(),
                            savable: false,
                        },
                    )
                },
                Err(e) => final(self).dataframes@ == old(self).dataframes@ && (match e {
                    Status::InvalidArgument(m) => parse_plan_spec(composite_plan@) is None && m@
                        == "Could not deserialize composite plan: "@ + composite_plan@,
                    Status::NotFound(m) => parse_plan_spec(composite_plan@) matches Some(ids)
                        && (eval_plan_spec(ids, old(self).dataframes@) matches
                    PlanOutcome::Missing(id) && m@ == "Could not find dataframe: identifier="@
                        + id),
                    Status::InvalidPlan(m) => parse_plan_spec(composite_plan@) matches Some(ids)
                        && eval_plan_spec(ids, old(self).dataframes@) is Invalid && m@
                        == "Plan did not leave exactly one dataframe on the stack"@,
                    Status::Internal(m) => parse_plan_spec(composite_plan@) matches Some(ids)
                        && eval_plan_spec(ids, old(self).dataframes@) is Frame && m@
                        == "Could not allocate a fresh dataframe identifier"@,
                    _ => false,
                }),
            },
    {
        let ids = match parse_plan(composite_plan) {
            Ok(ids) => ids,
            Err(e) => {
                return Err(e);
            },
        };
        let mut segments: Vec<PlanSegment> = Vec::new();
        let mut k: usize = 0;
        while k < ids.len()
            invariant
                k <= ids@.len(),
                segments@.len() == k,
                forall|j: int|
                    0 <= j < k ==> (#[trigger] segments@[j] matches PlanSegment::EntryPoint(id)
                        && id@ == ids@[j]@),
            decreases ids.len() - k,
        {
            segments.push(PlanSegment::EntryPoint(ids[k].clone()));
            k = k + 1;
        }
        assert(plan_ids(segments@) =~= ids@.map_values(|t: String| t@));
        let res = match run_plan(&segments, &self.dataframes) {
            Ok(df) => df,
            Err(e) => {
                return Err(e);
            },
        };
        let header = res.schema_header();
        let artifact = DataFrameArtifact::new(res, String::new(), Vec::new(), false);
        assert(artifact@.blacklist =~= Seq::<Seq<char>>::empty());
        let identifier = match self.insert_df(artifact) {
            Ok(id) => id,
            Err(e) => {
                return Err(e);
            },
        };
        Ok(ReferenceResponse { identifier, header })
    }

    /// Store a streamed upload: reassemble the chunks into columns and the
    /// accumulated policy, metadata and savable flag. The schema handed in
    /// by the caller (the columnar engine's reading of the columns) must
    /// describe the columns one for one, the policy must be a well-formed
    /// JSON document, and the metadata document must be an array of column
    /// names. Answers with the fresh identifier and the schema header.
    pub fn send_data_frame(&mut self, chunks: &Vec<SendChunk>, schema: Vec<ColumnSpec>) -> (r:
        Result<ReferenceResponse, Status>)
        requires
            old(self).wf(),
        ensures
            final(self).wf(),
            final(self).challenges@ == old(self).challenges@,
            final(self).keys == old(self).keys,
            ({
                let cols = split_spec(concat_spec(datas_of(chunks@)));
                let policy = concat_texts(policies_of(chunks@));
                let metadata = concat_texts(metadatas_of(chunks@));
                let sav = if chunks@.len() > 0 {
                    chunks@.last().savable
                } else {
                    false
                };
                let schema_v = schema@.map_values(|c: ColumnSpec| c@);
                match r {
                    Ok(resp) => {
                        &&& cols.len() == schema_v.len()
                        &&& json_valid(policy)
                        &&& parse_texts_spec(metadata) matches Some(bl)
                        &&& resp.header@ == schema_json(schema_v)
                        &&& canonical_uuid(resp.identifier@)
                        &&& !old(self).dataframes@.contains_key(resp.identifier@)
                        &&& final(self).dataframes@ == old(self).dataframes@.insert(
                            resp.identifier@,
                            DataFrameArtifactView {
                                df: DataFrameView { columns: cols, schema: schema_v },
                                policy,
                                blacklist: bl,
                                savable: sav,
                            },
                        )
                    },
                    Err(e) => final(self).dataframes@ == old(self).dataframes@ && (match e {
                        Status::InvalidPayload(m) => cols.len() != schema_v.len() && m@
                            == "Schema does not describe the decoded columns"@,
                        Status::InvalidPolicy(m) => cols.len() == schema_v.len() && !json_valid(
                            policy,
                        ) && m@ == "Failed to deserialize policy"@,
                        Status::InvalidMetadata(m) => cols.len() == schema_v.len() && json_valid(
                            policy,
                        ) && parse_texts_spec(metadata) is None && m@
                            == "Failed to deserialize metadata"@,
                        Status::Internal(m) => cols.len() == schema_v.len() && json_valid(policy)
                            && parse_texts_spec(metadata) is Some && m@
                            == "Could not allocate a fresh dataframe identifier"@,
                        _ => false,
                    }),
                }
            }),
    {
        let (columns, policy, metadata, savable) = unstream_data(chunks);
        if columns.len() != schema.len() {
            return Err(
                Status::InvalidPayload(
                    String::from_str("Schema does not describe the decoded columns"),
                ),
            );
        }
        if !policy_parses(policy.as_str()) {
            return Err(
                Status::InvalidPolicy(String::from_str("Failed to deserialize policy")),
            );
        }
        let blacklist = match parse_text_list(metadata.as_str()) {
            Some(bl) => bl,
            None => {
                return Err(
                    Status::InvalidMetadata(String::from_str("Failed to deserialize metadata")),
                );
            },
        };
        let df = DataFrame { columns, schema };
        let header = df.schema_header();
        let artifact = DataFrameArtifact::new(df, policy, blacklist, savable);
        let identifier = match self.insert_df(artifact) {
            Ok(id) => id,
            Err(e) => {
                return Err(e);
            },
        };
        Ok(ReferenceResponse { identifier, header })
    }

    /// Fetch a stored frame as a stream of chunks. The request must consume
    /// a minted challenge and carry at least one signing header, each naming
    /// a known key whose signature verifies over the canonical request
    /// digest; only then is the frame read and its wire form cut into
    /// chunks. The challenge is consumed even when a later step denies the
    /// request, and a denied signature wins over a missing frame.
    pub fn fetch_data_frame(
        &mut self,
        challenge: Option<&Vec<u8>>,
        binary_headers: &Vec<(String, Vec<u8>)>,
        digest: &Vec<u8>,
        identifier: &String,
    ) -> (r: Result<Vec<FetchChunk>, Status>)
        requires
            old(self).wf(),
        ensures
            final(self).wf(),
            final(self).dataframes@ == old(self).dataframes@,
            final(self).keys == old(self).keys,
            match challenge {
                None => final(self).challenges@ == old(self).challenges@ && (r matches Err(e)
                    && (e matches Status::PermissionDenied(m) && m@
                    == "A challenge is required"@)),
                Some(c) => {
                    &&& !old(self).challenges@.contains(c@) ==> final(self).challenges@ == old(self).challenges@ && (r matches Err(e) && (e matches Status::PermissionDenied(m)
                        && m@ == "Invalid or reused challenge"@))
                    &&& old(self).challenges@.contains(c@) ==> final(self).challenges@ == old(self).challenges@.remove(c@) && (match r {
                        Ok(chunks) => {
                            &&& (forall|k: int|
                                0 <= k < binary_headers@.len() && is_signing_header(
                                    #[trigger] binary_headers@[k].0@,
                                ) ==> header_ok(
                                    old(self).keys.ring_of(),
                                    binary_headers@[k],
                                    digest@,
                                ))
                            &&& count_signing(binary_headers@) > 0
                            &&& old(self).dataframes@.contains_key(identifier@)
                            &&& (forall|k: int|
                                0 <= k < chunks@.len() ==> #[trigger] chunks@[k].body is Data)
                            &&& concat_spec(
                                chunks@.map_values(|fc: FetchChunk| chunk_data(fc)),
                            ) == join_spec(old(self).dataframes@[identifier@].df.columns)
                            &&& (forall|k: int|
                                0 <= k < chunks@.len() ==> 1 <= #[trigger] chunk_data(
                                    chunks@[k],
                                ).len() <= FETCH_CHUNK_SIZE)
                        },
                        Err(e) => match e {
                            Status::PermissionDenied(m) => (exists|k: int|
                                0 <= k < binary_headers@.len() && is_signing_header(
                                    #[trigger] binary_headers@[k].0@,
                                ) && match key_lookup(
                                    old(self).keys.ring_of(),
                                    header_key_id(binary_headers@[k].0@),
                                ) {
                                    None => m@ == "Unknown signing key: "@ + header_key_id(
                                        binary_headers@[k].0@,
                                    ),
                                    Some(kb) => !ecdsa_p256_valid(
                                        kb,
                                        digest@,
                                        binary_headers@[k].1@,
                                    ) && m@ == "Invalid signature for key: "@ + header_key_id(
                                        binary_headers@[k].0@,
                                    ),
                                }) || (count_signing(binary_headers@) == 0 && m@
                                == "A signed request is required"@),
                            Status::NotFound(m) => (forall|k: int|
                                0 <= k < binary_headers@.len() && is_signing_header(
                                    #[trigger] binary_headers@[k].0@,
                                ) ==> header_ok(
                                    old(self).keys.ring_of(),
                                    binary_headers@[k],
                                    digest@,
                                )) && count_signing(binary_headers@) > 0 && !old(
                                self,
                            ).dataframes@.contains_key(identifier@) && m@
                                == "Could not find dataframe: identifier="@ + identifier@,
                            _ => false,
                        },
                    })
                },
            },
    {
        match self.check_challenge(challenge) {
            Ok(()) => {},
            Err(e) => {
                return Err(e);
            },
        }
        let signatures = match self.verify_request(binary_headers, digest) {
            Ok(n) => n,
            Err(e) => {
                return Err(e);
            },
        };
        if signatures == 0 {
            return Err(
                Status::PermissionDenied(String::from_str("A signed request is required")),
            );
        }
        let artifact = match self.get_df(identifier) {
            Ok(a) => a,
            Err(e) => {
                return Err(e);
            },
        };
        let chunks = stream_data(&artifact.df, FetchStatus::Ready, FETCH_CHUNK_SIZE);
        proof {
            assert(chunks@.subrange(0, chunks@.len() as int) =~= chunks@);
        }
        Ok(chunks)
    }
}

/// Whether a text is a well-formed JSON document — the shape an uploaded
/// access-control policy must have, its meaning being the access-control
/// collaborator's. Well-formedness is a function of the text alone.
pub uninterp spec fn json_valid(s: Seq<char>) -> bool;

/// Relies on `serde_json::from_str::<serde_json::Value>`: whether the text
/// parses as a JSON document; deterministic in the text.
#[verifier::external_body]
fn policy_parses(s: &str) -> (r: bool)
    ensures
        r == json_valid(s@),
{
    serde_json::from_str::<serde_json::Value>(s).is_ok()
}

} // verus!
