use bastionlab::codec::{chunk_bytes, join_columns, split_columns, stream_data, unstream_data,
    FetchBody, SendChunk};
use bastionlab::frame::{ColumnSpec, DataFrame, FetchStatus};

fn columns() -> Vec<Vec<u8>> {
    vec![
        vec![1u8, 2, 3, 4, 5, 6, 7, 8],
        b"xyz".to_vec(),
        vec![9u8, 10, 11, 12, 13, 14, 15, 16, 17, 18, 19, 20],
    ]
}

fn reassemble(chunks: &[Vec<u8>]) -> Vec<u8> {
    let mut buf = Vec::new();
    for c in chunks {
        buf.extend_from_slice(c);
    }
    buf
}

#[test]
fn round_trip_three_columns_chunk_size_seven() {
    let cols = columns();
    let wire = join_columns(&cols);
    let chunks = chunk_bytes(&wire, 7);
    for (i, c) in chunks.iter().enumerate() {
        assert!(c.len() <= 7);
        if i + 1 < chunks.len() {
            assert_eq!(c.len(), 7);
        }
    }
    let decoded = split_columns(&reassemble(&chunks));
    assert_eq!(decoded, cols);
}

#[test]
fn round_trip_every_chunk_size() {
    let cols = columns();
    let wire = join_columns(&cols);
    for k in 1..=wire.len() + 3 {
        let chunks = chunk_bytes(&wire, k);
        let decoded = split_columns(&reassemble(&chunks));
        assert_eq!(decoded, cols, "chunk size {}", k);
    }
}

#[test]
fn round_trip_empty_frame() {
    let cols: Vec<Vec<u8>> = Vec::new();
    let wire = join_columns(&cols);
    assert!(wire.is_empty());
    assert_eq!(split_columns(&wire), cols);
}

#[test]
fn round_trip_empty_column_first() {
    let cols = vec![Vec::new(), b"x".to_vec()];
    let wire = join_columns(&cols);
    assert_eq!(wire, b"[end]x[end]".to_vec());
    assert_eq!(split_columns(&wire), cols);
}

#[test]
fn split_discards_bytes_after_last_marker() {
    let decoded = split_columns(&b"ab[end]junk".to_vec());
    assert_eq!(decoded, vec![b"ab".to_vec()]);
}

#[test]
fn split_without_marker_yields_no_columns() {
    let decoded = split_columns(&b"plain bytes".to_vec());
    assert!(decoded.is_empty());
}

#[test]
fn marker_inside_column_breaks_round_trip() {
    // The in-band marker is a known soundness hazard: a column holding the
    // marker bytes is cut at the wrong place, which is why the round-trip
    // law is stated only for marker-free columns.
    let cols = vec![b"a[end]b".to_vec()];
    let wire = join_columns(&cols);
    let decoded = split_columns(&wire);
    assert_ne!(decoded, cols);
    assert_eq!(decoded, vec![b"a".to_vec(), b"b".to_vec()]);
}

#[test]
fn unstream_accumulates_fields_in_order() {
    let chunks = vec![
        SendChunk {
            data: b"ab".to_vec(),
            policy: "{\"po".to_string(),
            metadata: "[\"a\"".to_string(),
            savable: true,
        },
        SendChunk {
            data: b"c[end]".to_vec(),
            policy: "licy\"}".to_string(),
            metadata: ",\"b\"]".to_string(),
            savable: false,
        },
    ];
    let (cols, policy, metadata, savable) = unstream_data(&chunks);
    assert_eq!(cols, vec![b"abc".to_vec()]);
    assert_eq!(policy, "{\"policy\"}");
    assert_eq!(metadata, "[\"a\",\"b\"]");
    assert!(!savable);
}

#[test]
fn unstream_of_empty_stream() {
    let (cols, policy, metadata, savable) = unstream_data(&Vec::new());
    assert!(cols.is_empty());
    assert_eq!(policy, "");
    assert_eq!(metadata, "");
    assert!(!savable);
}

fn frame() -> DataFrame {
    DataFrame {
        columns: columns(),
        schema: vec![
            ColumnSpec { name: "a".to_string(), dtype: "int64".to_string() },
            ColumnSpec { name: "b".to_string(), dtype: "utf8".to_string() },
            ColumnSpec { name: "c".to_string(), dtype: "float64".to_string() },
        ],
    }
}

#[test]
fn stream_data_ready_is_all_data() {
    let df = frame();
    let out = stream_data(&df, FetchStatus::Ready, 32);
    let mut buf = Vec::new();
    for chunk in &out {
        match &chunk.body {
            FetchBody::Data(d) => {
                assert!(1 <= d.len() && d.len() <= 32);
                buf.extend_from_slice(d);
            }
            _ => panic!("expected only data chunks"),
        }
    }
    assert_eq!(buf, join_columns(&df.columns));
    assert_eq!(split_columns(&buf), df.columns);
}

#[test]
fn stream_data_pending_prefixes_reason() {
    let df = frame();
    let out = stream_data(&df, FetchStatus::Pending("queued".to_string()), 8);
    match &out[0].body {
        FetchBody::Pending(reason) => assert_eq!(reason, "queued"),
        _ => panic!("expected a pending status first"),
    }
    let mut buf = Vec::new();
    for chunk in &out[1..] {
        match &chunk.body {
            FetchBody::Data(d) => buf.extend_from_slice(d),
            _ => panic!("expected data after the status"),
        }
    }
    assert_eq!(buf, join_columns(&df.columns));
}

#[test]
fn schema_header_is_json_array_of_pairs() {
    let df = frame();
    let header = df.schema_header();
    assert_eq!(header, "[[\"a\",\"int64\"],[\"b\",\"utf8\"],[\"c\",\"float64\"]]");
}

#[test]
fn schema_header_escapes_names() {
    let df = DataFrame {
        columns: vec![],
        schema: vec![
            ColumnSpec { name: "a\"b".to_string(), dtype: "int\\64".to_string() },
        ],
    };
    assert_eq!(df.schema_header(), "[[\"a\\\"b\",\"int\\\\64\"]]");
}
