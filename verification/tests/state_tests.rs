use bastionlab::codec::{chunk_bytes, join_columns, split_columns, FetchBody, SendChunk};
use bastionlab::error::Status;
use bastionlab::frame::{ColumnSpec, DataFrame, DataFrameArtifact};
use bastionlab::keys::KeyManagement;
use bastionlab::state::BastionLabState;

use ring::rand::SystemRandom;
use ring::signature::{EcdsaKeyPair, KeyPair, ECDSA_P256_SHA256_ASN1_SIGNING};

/// A fresh ECDSA P-256 key pair for signing test requests.
fn keypair() -> EcdsaKeyPair {
    let rng = SystemRandom::new();
    let pkcs8 = EcdsaKeyPair::generate_pkcs8(&ECDSA_P256_SHA256_ASN1_SIGNING, &rng)
        .expect("key generation");
    EcdsaKeyPair::from_pkcs8(&ECDSA_P256_SHA256_ASN1_SIGNING, pkcs8.as_ref(), &rng)
        .expect("key parsing")
}

fn sign(pair: &EcdsaKeyPair, digest: &[u8]) -> Vec<u8> {
    let rng = SystemRandom::new();
    pair.sign(&rng, digest).expect("signing").as_ref().to_vec()
}

/// A state whose key ring holds the pair's public key under "TESTKEY".
fn state_with_key(pair: &EcdsaKeyPair) -> BastionLabState {
    BastionLabState::new(KeyManagement::new(vec![(
        "TESTKEY".to_string(),
        pair.public_key().as_ref().to_vec(),
    )]))
}

fn plain_state() -> BastionLabState {
    BastionLabState::new(KeyManagement::new(Vec::new()))
}

fn digest() -> Vec<u8> {
    b"/bastionlab/FetchDataFrame|challenge|body-digest".to_vec()
}

fn schema() -> Vec<ColumnSpec> {
    vec![
        ColumnSpec { name: "a".to_string(), dtype: "int64".to_string() },
        ColumnSpec { name: "b".to_string(), dtype: "utf8".to_string() },
        ColumnSpec { name: "c".to_string(), dtype: "float64".to_string() },
    ]
}

fn columns() -> Vec<Vec<u8>> {
    vec![
        vec![1u8, 0, 0, 0, 2, 0, 0, 0, 3, 0, 0, 0],
        b"x\x00y\x00z".to_vec(),
        vec![0x3f, 0xc0, 0x20, 0x40, 0x28, 0x40],
    ]
}

fn upload_chunks() -> Vec<SendChunk> {
    let wire = join_columns(&columns());
    let pieces = chunk_bytes(&wire, 7);
    let mut chunks = Vec::new();
    for (i, piece) in pieces.into_iter().enumerate() {
        chunks.push(SendChunk {
            data: piece,
            policy: if i == 0 { "{\"open\":true}".to_string() } else { String::new() },
            metadata: if i == 0 { "[\"b\"]".to_string() } else { String::new() },
            savable: true,
        });
    }
    chunks
}

#[test]
fn upload_round_trip_through_query_and_fetch() {
    let pair = keypair();
    let mut state = state_with_key(&pair);

    // Upload a three-column frame in chunks of seven bytes.
    let uploaded = state
        .send_data_frame(&upload_chunks(), schema())
        .expect("upload succeeds");
    assert_eq!(
        uploaded.header,
        "[[\"a\",\"int64\"],[\"b\",\"utf8\"],[\"c\",\"float64\"]]"
    );

    // Reference the uploaded frame from a single-entry-point plan.
    let plan = format!("[{{\"EntryPoint\":\"{}\"}}]", uploaded.identifier);
    let derived = state.run_query(&plan).expect("plan evaluates");
    assert_eq!(derived.header, uploaded.header);
    assert_ne!(derived.identifier, uploaded.identifier);

    // The derived frame is the same frame the registry returns.
    let direct = state.get_df(&uploaded.identifier).expect("entry exists");
    let evaluated = state.get_df(&derived.identifier).expect("result stored");
    assert_eq!(evaluated.df.columns, direct.df.columns);

    // Fetch it with a fresh challenge and a valid signature.
    let challenge = state.get_challenge().expect("challenge minted");
    assert_eq!(challenge.len(), 32);
    let d = digest();
    let headers = vec![("signing-key-TESTKEY-bin".to_string(), sign(&pair, &d))];
    let stream = state
        .fetch_data_frame(Some(&challenge), &headers, &d, &derived.identifier)
        .expect("fetch succeeds");
    let mut buf = Vec::new();
    for chunk in &stream {
        match &chunk.body {
            FetchBody::Data(bytes) => {
                assert!(bytes.len() <= 32);
                buf.extend_from_slice(bytes);
            }
            _ => panic!("expected data chunks only"),
        }
    }
    assert_eq!(split_columns(&buf), columns());
}

#[test]
fn missing_frame_is_not_found() {
    let mut state = plain_state();
    let err = state
        .run_query("[{\"EntryPoint\":\"00000000-0000-0000-0000-000000000000\"}]")
        .unwrap_err();
    match err {
        Status::NotFound(m) => assert_eq!(
            m,
            "Could not find dataframe: identifier=00000000-0000-0000-0000-000000000000"
        ),
        other => panic!("expected NotFound, got {:?}", other),
    }
}

#[test]
fn malformed_plan_is_invalid_argument_with_offending_text() {
    let mut state = plain_state();
    let err = state.run_query("not json").unwrap_err();
    match err {
        Status::InvalidArgument(m) => {
            assert!(m.contains("not json"));
            assert_eq!(m, "Could not deserialize composite plan: not json");
        }
        other => panic!("expected InvalidArgument, got {:?}", other),
    }
}

#[test]
fn empty_plan_is_invalid() {
    let mut state = plain_state();
    match state.run_query("[]").unwrap_err() {
        Status::InvalidPlan(_) => {}
        other => panic!("expected InvalidPlan, got {:?}", other),
    }
}

#[test]
fn plan_with_two_entry_points_is_invalid() {
    let mut state = plain_state();
    let first = state.send_data_frame(&upload_chunks(), schema()).unwrap();
    let plan = format!(
        "[{{\"EntryPoint\":\"{0}\"}},{{\"EntryPoint\":\"{0}\"}}]",
        first.identifier
    );
    match state.run_query(&plan).unwrap_err() {
        Status::InvalidPlan(_) => {}
        other => panic!("expected InvalidPlan, got {:?}", other),
    }
}

#[test]
fn plan_tolerates_whitespace() {
    let mut state = plain_state();
    let first = state.send_data_frame(&upload_chunks(), schema()).unwrap();
    let plan = format!("  [ {{ \"EntryPoint\" : \"{}\" }} ]  ", first.identifier);
    assert!(state.run_query(&plan).is_ok());
}

#[test]
fn plan_strings_unescape() {
    // An escaped backslash in a plan string denotes the backslash itself:
    // the (absent) identifier the error names is the unescaped text.
    let mut state = plain_state();
    match state.run_query("[{\"EntryPoint\":\"a\\\\b\"}]").unwrap_err() {
        Status::NotFound(m) => assert_eq!(m, "Could not find dataframe: identifier=a\\b"),
        other => panic!("expected NotFound, got {:?}", other),
    }
}

#[test]
fn plan_with_unsupported_escape_is_rejected() {
    // Only the escapes the schema serializer writes are read back; any other
    // escape sequence makes the document unparseable.
    let mut state = plain_state();
    match state.run_query("[{\"EntryPoint\":\"a\\nb\"}]").unwrap_err() {
        Status::InvalidArgument(_) => {}
        other => panic!("expected InvalidArgument, got {:?}", other),
    }
}

#[test]
fn blacklist_entries_unescape() {
    let mut state = plain_state();
    let chunks = vec![SendChunk {
        data: b"col[end]".to_vec(),
        policy: "{}".to_string(),
        metadata: "[\"a\\\"b\"]".to_string(),
        savable: false,
    }];
    let schema = vec![ColumnSpec { name: "a".to_string(), dtype: "int64".to_string() }];
    let stored = state.send_data_frame(&chunks, schema).unwrap();
    let artifact = state.get_df(&stored.identifier).unwrap();
    assert_eq!(artifact.blacklist, vec!["a\"b".to_string()]);
}

#[test]
fn challenge_reuse_is_denied() {
    let pair = keypair();
    let mut state = state_with_key(&pair);
    let stored = state.send_data_frame(&upload_chunks(), schema()).unwrap();
    let challenge = state.get_challenge().unwrap();
    let d = digest();
    let headers = vec![("signing-key-TESTKEY-bin".to_string(), sign(&pair, &d))];

    state
        .fetch_data_frame(Some(&challenge), &headers, &d, &stored.identifier)
        .expect("first use succeeds");
    match state
        .fetch_data_frame(Some(&challenge), &headers, &d, &stored.identifier)
        .unwrap_err()
    {
        Status::PermissionDenied(m) => assert_eq!(m, "Invalid or reused challenge"),
        other => panic!("expected PermissionDenied, got {:?}", other),
    }
}

#[test]
fn unknown_signing_key_is_denied() {
    let pair = keypair();
    let mut state = state_with_key(&pair);
    let stored = state.send_data_frame(&upload_chunks(), schema()).unwrap();
    let challenge = state.get_challenge().unwrap();
    let d = digest();
    let headers = vec![("signing-key-UNKNOWN-bin".to_string(), sign(&pair, &d))];
    match state
        .fetch_data_frame(Some(&challenge), &headers, &d, &stored.identifier)
        .unwrap_err()
    {
        Status::PermissionDenied(m) => assert_eq!(m, "Unknown signing key: UNKNOWN"),
        other => panic!("expected PermissionDenied, got {:?}", other),
    }
}

#[test]
fn invalid_signature_is_denied() {
    let pair = keypair();
    let mut state = state_with_key(&pair);
    let stored = state.send_data_frame(&upload_chunks(), schema()).unwrap();
    let challenge = state.get_challenge().unwrap();
    let d = digest();
    // A signature over different bytes must not verify over the digest.
    let headers = vec![("signing-key-TESTKEY-bin".to_string(), sign(&pair, b"other bytes"))];
    match state
        .fetch_data_frame(Some(&challenge), &headers, &d, &stored.identifier)
        .unwrap_err()
    {
        Status::PermissionDenied(m) => assert_eq!(m, "Invalid signature for key: TESTKEY"),
        other => panic!("expected PermissionDenied, got {:?}", other),
    }
}

#[test]
fn signature_denial_wins_over_missing_frame() {
    let pair = keypair();
    let mut state = state_with_key(&pair);
    let challenge = state.get_challenge().unwrap();
    let d = digest();
    let headers = vec![("signing-key-UNKNOWN-bin".to_string(), sign(&pair, &d))];
    let absent = "00000000-0000-0000-0000-000000000000".to_string();
    match state
        .fetch_data_frame(Some(&challenge), &headers, &d, &absent)
        .unwrap_err()
    {
        Status::PermissionDenied(m) => assert_eq!(m, "Unknown signing key: UNKNOWN"),
        other => panic!("expected PermissionDenied before NotFound, got {:?}", other),
    }
}

#[test]
fn fetch_without_challenge_is_denied() {
    let pair = keypair();
    let mut state = state_with_key(&pair);
    let stored = state.send_data_frame(&upload_chunks(), schema()).unwrap();
    let d = digest();
    let headers = vec![("signing-key-TESTKEY-bin".to_string(), sign(&pair, &d))];
    match state
        .fetch_data_frame(None, &headers, &d, &stored.identifier)
        .unwrap_err()
    {
        Status::PermissionDenied(m) => assert_eq!(m, "A challenge is required"),
        other => panic!("expected PermissionDenied, got {:?}", other),
    }
}

#[test]
fn fetch_without_signature_is_denied() {
    let pair = keypair();
    let mut state = state_with_key(&pair);
    let stored = state.send_data_frame(&upload_chunks(), schema()).unwrap();
    let challenge = state.get_challenge().unwrap();
    let d = digest();
    let headers = vec![("content-type".to_string(), b"application/grpc".to_vec())];
    match state
        .fetch_data_frame(Some(&challenge), &headers, &d, &stored.identifier)
        .unwrap_err()
    {
        Status::PermissionDenied(m) => assert_eq!(m, "A signed request is required"),
        other => panic!("expected PermissionDenied, got {:?}", other),
    }
}

#[test]
fn mismatched_schema_is_rejected() {
    let mut state = plain_state();
    let short_schema = vec![ColumnSpec { name: "a".to_string(), dtype: "int64".to_string() }];
    match state.send_data_frame(&upload_chunks(), short_schema).unwrap_err() {
        Status::InvalidPayload(m) => assert_eq!(m, "Schema does not describe the decoded columns"),
        other => panic!("expected InvalidPayload, got {:?}", other),
    }
}

#[test]
fn bad_policy_document_is_rejected() {
    let mut state = plain_state();
    let chunks = vec![SendChunk {
        data: b"col[end]".to_vec(),
        policy: "not a policy".to_string(),
        metadata: "[]".to_string(),
        savable: false,
    }];
    let schema = vec![ColumnSpec { name: "a".to_string(), dtype: "int64".to_string() }];
    match state.send_data_frame(&chunks, schema).unwrap_err() {
        Status::InvalidPolicy(m) => assert_eq!(m, "Failed to deserialize policy"),
        other => panic!("expected InvalidPolicy, got {:?}", other),
    }
}

#[test]
fn bad_metadata_document_is_rejected() {
    let mut state = plain_state();
    let chunks = vec![SendChunk {
        data: b"col[end]".to_vec(),
        policy: "{}".to_string(),
        metadata: "not a list".to_string(),
        savable: false,
    }];
    let schema = vec![ColumnSpec { name: "a".to_string(), dtype: "int64".to_string() }];
    match state.send_data_frame(&chunks, schema).unwrap_err() {
        Status::InvalidMetadata(m) => assert_eq!(m, "Failed to deserialize metadata"),
        other => panic!("expected InvalidMetadata, got {:?}", other),
    }
}

#[test]
fn upload_keeps_policy_blacklist_and_savable() {
    let mut state = plain_state();
    let stored = state.send_data_frame(&upload_chunks(), schema()).unwrap();
    let artifact = state.get_df(&stored.identifier).unwrap();
    assert_eq!(artifact.policy, "{\"open\":true}");
    assert_eq!(artifact.blacklist, vec!["b".to_string()]);
    assert!(artifact.savable);
}

fn is_canonical_uuid(id: &str) -> bool {
    id.len() == 36
        && id.chars().enumerate().all(|(i, c)| {
            if i == 8 || i == 13 || i == 18 || i == 23 {
                c == '-'
            } else {
                c.is_ascii_hexdigit() && !c.is_ascii_uppercase()
            }
        })
}

#[test]
fn insert_then_get_returns_the_inserted_frame() {
    let mut state = plain_state();
    let artifact = DataFrameArtifact::new(
        DataFrame { columns: columns(), schema: schema() },
        "{}".to_string(),
        Vec::new(),
        false,
    );
    let id = state.insert_df(artifact).expect("insert succeeds");
    assert!(is_canonical_uuid(&id));
    let back = state.get_df(&id).expect("stored entry is found");
    assert_eq!(back.df.columns, columns());
    assert_eq!(back.policy, "{}");

    // A second insert gets a distinct identifier and disturbs nothing.
    let other = state
        .insert_df(DataFrameArtifact::new(
            DataFrame { columns: vec![], schema: vec![] },
            "{}".to_string(),
            Vec::new(),
            false,
        ))
        .unwrap();
    assert!(is_canonical_uuid(&other));
    assert_ne!(other, id);
    assert_eq!(state.get_df(&id).unwrap().df.columns, columns());
}
