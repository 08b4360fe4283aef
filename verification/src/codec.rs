//! Chunk codec: framing and re-framing of columnar payloads over a chunked
//! stream.
//!
//! Wire form of a frame: `col0 MARKER col1 MARKER ... colN MARKER`, where
//! MARKER is the 5-byte literal `[end]` and each column is the external
//! engine's serialization of one column. The byte stream is cut into chunks of
//! bounded size; chunk boundaries are independent of column boundaries.
//!
//! The in-band marker makes the framing unambiguous only when no column's
//! serialization contains the marker bytes; `marker_free` names that
//! assumption and the round-trip law is stated under it.

use crate::frame::{DataFrame, FetchStatus};
use vstd::prelude::*;
use vstd::string::StringExecFns;

verus! {

/// The 5-byte in-band separator written after every column: `[end]` in ASCII.
pub open spec fn marker() -> Seq<u8> {
    seq![91u8, 101u8, 110u8, 100u8, 93u8]
}

/// The marker occurs in `s` at offset `i`.
pub open spec fn occurs_at(s: Seq<u8>, i: int) -> bool {
    0 <= i && i + 5 <= s.len() && s.subrange(i, i + 5) == marker()
}

/// No marker occurs anywhere in `c`.
pub open spec fn marker_free(c: Seq<u8>) -> bool {
    forall|i: int| !occurs_at(c, i)
}

/// Every column of `cols` is free of the marker.
pub open spec fn all_marker_free(cols: Seq<Seq<u8>>) -> bool {
    forall|k: int| 0 <= k < cols.len() ==> marker_free(#[trigger] cols[k])
}

/// The least marker offset at or after `from`, if any.
pub open spec fn first_marker(s: Seq<u8>, from: int) -> Option<int>
    decreases s.len() - from,
{
    if from + 5 > s.len() {
        None
    } else if s.subrange(from, from + 5) == marker() {
        Some(from)
    } else {
        first_marker(s, from + 1)
    }
}

/// The column slices encoded in `s` at or after `from`: the bytes between
/// consecutive markers, an implicit boundary standing at `from`. Bytes after
/// the last marker are discarded; without any marker there is no column.
pub open spec fn split_from(s: Seq<u8>, from: int) -> Seq<Seq<u8>>
    decreases s.len() - from,
{
    match first_marker(s, from) {
        None => Seq::empty(),
        Some(i) => if from <= i && i + 5 <= s.len() {
            seq![s.subrange(from, i)] + split_from(s, i + 5)
        } else {
            Seq::empty()
        },
    }
}

/// All column slices of the wire form `s`.
pub open spec fn split_spec(s: Seq<u8>) -> Seq<Seq<u8>> {
    split_from(s, 0)
}

/// The wire form of `cols`: each column followed by the marker.
pub open spec fn join_spec(cols: Seq<Seq<u8>>) -> Seq<u8>
    decreases cols.len(),
{
    if cols.len() == 0 {
        Seq::empty()
    } else {
        cols[0] + marker() + join_spec(cols.drop_first())
    }
}

/// The concatenation of a sequence of byte slices.
pub open spec fn concat_spec(parts: Seq<Seq<u8>>) -> Seq<u8>
    decreases parts.len(),
{
    if parts.len() == 0 {
        Seq::empty()
    } else {
        parts[0] + concat_spec(parts.drop_first())
    }
}

/// Appending one more part extends the concatenation on the right.
pub proof fn lemma_concat_push(parts: Seq<Seq<u8>>, c: Seq<u8>)
    ensures
        concat_spec(parts.push(c)) == concat_spec(parts) + c,
    decreases parts.len(),
{
    let p = parts.push(c);
    if parts.len() == 0 {
        assert(p.drop_first() =~= Seq::<Seq<u8>>::empty());
        assert(concat_spec(p.drop_first()) == Seq::<u8>::empty());
        assert(concat_spec(p) == p[0] + concat_spec(p.drop_first()));
        assert(p[0] == c);
        assert(c + Seq::<u8>::empty() =~= c);
        assert(concat_spec(parts) + c =~= c);
    } else {
        assert(p.drop_first() =~= parts.drop_first().push(c));
        lemma_concat_push(parts.drop_first(), c);
        assert(concat_spec(p) == p[0] + concat_spec(p.drop_first()));
        assert(p[0] == parts[0]);
        assert(parts[0] + (concat_spec(parts.drop_first()) + c) =~= (parts[0] + concat_spec(
            parts.drop_first(),
        )) + c);
    }
}

/// Appending one more column extends the wire form by that column and a
/// marker.
pub proof fn lemma_join_push(cols: Seq<Seq<u8>>, c: Seq<u8>)
    ensures
        join_spec(cols.push(c)) == join_spec(cols) + c + marker(),
    decreases cols.len(),
{
    let p = cols.push(c);
    if cols.len() == 0 {
        assert(p.drop_first() =~= Seq::<Seq<u8>>::empty());
        assert(join_spec(p.drop_first()) == Seq::<u8>::empty());
        assert(join_spec(p) == p[0] + marker() + join_spec(p.drop_first()));
        assert(p[0] == c);
        assert(c + marker() + Seq::<u8>::empty() =~= c + marker());
        assert(join_spec(cols) + c + marker() =~= c + marker());
    } else {
        assert(p.drop_first() =~= cols.drop_first().push(c));
        lemma_join_push(cols.drop_first(), c);
        assert(join_spec(p) == p[0] + marker() + join_spec(p.drop_first()));
        assert(p[0] == cols[0]);
        assert(cols[0] + marker() + (join_spec(cols.drop_first()) + c + marker()) =~= (cols[0]
            + marker() + join_spec(cols.drop_first())) + c + marker());
    }
}

/// What `first_marker` returns is the least marker offset at or after `from`.
pub proof fn lemma_first_marker(s: Seq<u8>, from: int)
    requires
        0 <= from,
    ensures
        match first_marker(s, from) {
            Some(i) => from <= i && occurs_at(s, i) && forall|j: int|
                from <= j < i ==> !occurs_at(s, j),
            None => forall|j: int| j >= from ==> !occurs_at(s, j),
        },
    decreases s.len() - from,
{
    if from + 5 > s.len() {
    } else if s.subrange(from, from + 5) == marker() {
    } else {
        lemma_first_marker(s, from + 1);
    }
}

/// If the marker occurs at `i` and nowhere earlier (from `from` on), the scan
/// from `from` finds exactly `i`.
proof fn lemma_first_marker_is(s: Seq<u8>, from: int, i: int)
    requires
        0 <= from <= i,
        occurs_at(s, i),
        forall|j: int| from <= j < i ==> !occurs_at(s, j),
    ensures
        first_marker(s, from) == Some(i),
    decreases i - from,
{
    if from == i {
    } else {
        assert(!occurs_at(s, from));
        assert(s.subrange(from, from + 5) != marker());
        lemma_first_marker_is(s, from + 1, i);
    }
}

/// Scanning a concatenation from inside the right part sees only the right
/// part.
proof fn lemma_first_marker_shift(a: Seq<u8>, b: Seq<u8>, q: int)
    requires
        0 <= q,
    ensures
        match first_marker(b, q) {
            Some(i) => first_marker(a + b, a.len() + q) == Some(a.len() + i),
            None => first_marker(a + b, a.len() + q) is None,
        },
    decreases b.len() - q,
{
    let s = a + b;
    assert(s.len() == a.len() + b.len());
    if q + 5 > b.len() {
    } else {
        assert(s.subrange(a.len() + q, a.len() + q + 5) =~= b.subrange(q, q + 5));
        if b.subrange(q, q + 5) == marker() {
        } else {
            lemma_first_marker_shift(a, b, q + 1);
        }
    }
}

/// Splitting a concatenation from inside the right part splits only the right
/// part.
proof fn lemma_split_from_shift(a: Seq<u8>, b: Seq<u8>, q: int)
    requires
        0 <= q,
    ensures
        split_from(a + b, a.len() + q) == split_from(b, q),
    decreases b.len() - q,
{
    let s = a + b;
    lemma_first_marker_shift(a, b, q);
    lemma_first_marker(b, q);
    match first_marker(b, q) {
        None => {
            assert(split_from(s, a.len() + q) =~= Seq::<Seq<u8>>::empty());
            assert(split_from(b, q) =~= Seq::<Seq<u8>>::empty());
        },
        Some(i) => {
            assert(q <= i && i + 5 <= b.len());
            assert(s.subrange(a.len() + q, a.len() + i) =~= b.subrange(q, i));
            lemma_split_from_shift(a, b, i + 5);
            assert(split_from(s, a.len() + q) == seq![s.subrange(a.len() + q, a.len() + i)]
                + split_from(s, a.len() + i + 5));
            assert(split_from(b, q) == seq![b.subrange(q, i)] + split_from(b, i + 5));
        },
    }
}

/// Round-trip identity of the column framing: as long as no column contains
/// the marker bytes, cutting the wire form back up yields exactly the columns
/// that were joined.
pub proof fn lemma_split_join(cols: Seq<Seq<u8>>)
    requires
        all_marker_free(cols),
    ensures
        split_spec(join_spec(cols)) == cols,
    decreases cols.len(),
{
    if cols.len() == 0 {
        assert(split_spec(join_spec(cols)) =~~= cols);
    } else {
        let c0 = cols[0];
        let rest = join_spec(cols.drop_first());
        let s = c0 + marker() + rest;
        assert(join_spec(cols) == s);

        // The marker stands at offset |c0|.
        assert(s.subrange(c0.len() as int, c0.len() as int + 5) =~= marker());
        assert(occurs_at(s, c0.len() as int));

        // No marker occurs before |c0|: a full occurrence inside c0 breaks
        // marker-freedom, and one straddling the boundary would force the
        // marker's first byte to equal one of its later bytes.
        assert forall|p: int| 0 <= p < c0.len() implies !occurs_at(s, p) by {
            if occurs_at(s, p) {
                if p + 5 <= c0.len() {
                    assert(c0.subrange(p, p + 5) =~= s.subrange(p, p + 5));
                    assert(occurs_at(c0, p));
                    assert(marker_free(cols[0]));
                } else {
                    let d = c0.len() - p;
                    assert(1 <= d < 5);
                    assert(s.subrange(p, p + 5)[d] == s[c0.len() as int]);
                    assert(s[c0.len() as int] == marker()[0]);
                    assert(marker()[d] == marker()[0]);
                }
            }
        }
        lemma_first_marker_is(s, 0, c0.len() as int);

        assert(split_spec(s) == seq![s.subrange(0, c0.len() as int)] + split_from(
            s,
            c0.len() as int + 5,
        ));
        assert(s.subrange(0, c0.len() as int) =~= c0);

        // The tail from |c0| + 5 on is exactly the wire form of the remaining
        // columns.
        assert(s =~= (c0 + marker()) + rest);
        assert((c0 + marker()).len() == c0.len() + 5);
        lemma_split_from_shift(c0 + marker(), rest, 0);
        assert(split_from(s, c0.len() as int + 5) == split_from(rest, 0));

        assert(all_marker_free(cols.drop_first()));
        lemma_split_join(cols.drop_first());
        assert(split_spec(join_spec(cols)) =~~= cols);
    }
}

/// Round-trip identity through the chunk layer as well: any cutting of the
/// wire form into chunks decodes back to the original columns, whatever the
/// chunk sizes, as long as no column contains the marker bytes.
pub proof fn lemma_codec_round_trip(cols: Seq<Seq<u8>>, chunks: Seq<Seq<u8>>)
    requires
        all_marker_free(cols),
        concat_spec(chunks) == join_spec(cols),
    ensures
        split_spec(concat_spec(chunks)) == cols,
{
    lemma_split_join(cols);
}

/// The marker bytes as an executable vector.
pub fn marker_bytes() -> (r: Vec<u8>)
    ensures
        r@ == marker(),
{
    let mut r: Vec<u8> = Vec::new();
    r.push(91u8);
    r.push(101u8);
    r.push(110u8);
    r.push(100u8);
    r.push(93u8);
    assert(r@ =~= marker());
    r
}

/// The least marker offset in `data` at or after `from`.
pub fn find_marker(data: &Vec<u8>, from: usize) -> (r: Option<usize>)
    ensures
        match r {
            Some(i) => first_marker(data@, from as int) == Some(i as int) && from <= i && i + 5
                <= data@.len(),
            None => first_marker(data@, from as int) is None,
        },
{
    let mut i: usize = from;
    loop
        invariant
            from <= i,
            first_marker(data@, from as int) == first_marker(data@, i as int),
        decreases data.len() - i,
    {
        if data.len() < 5 || i > data.len() - 5 {
            return None;
        }
        let hit = data[i] == 91 && data[i + 1] == 101 && data[i + 2] == 110 && data[i + 3] == 100
            && data[i + 4] == 93;
        if hit {
            assert(data@.subrange(i as int, i as int + 5) =~= marker());
            return Some(i);
        }
        assert(data@.subrange(i as int, i as int + 5)[0] == data@[i as int]);
        assert(data@.subrange(i as int, i as int + 5)[1] == data@[i as int + 1]);
        assert(data@.subrange(i as int, i as int + 5)[2] == data@[i as int + 2]);
        assert(data@.subrange(i as int, i as int + 5)[3] == data@[i as int + 3]);
        assert(data@.subrange(i as int, i as int + 5)[4] == data@[i as int + 4]);
        assert(data@.subrange(i as int, i as int + 5) != marker());
        i = i + 1;
    }
}

/// Cut the accumulated wire bytes into column slices: the substrings between
/// marker occurrences, the first slice starting at offset 0 and each later
/// slice at the end of the previous marker. Trailing bytes after the last
/// marker are discarded; a buffer without a marker yields no column.
pub fn split_columns(data: &Vec<u8>) -> (cols: Vec<Vec<u8>>)
    ensures
        cols@.map_values(|c: Vec<u8>| c@) == split_spec(data@),
{
    let mut cols: Vec<Vec<u8>> = Vec::new();
    let mut pos: usize = 0;
    assert(cols@.map_values(|c: Vec<u8>| c@) + split_from(data@, 0) =~= split_from(data@, 0));
    loop
        invariant
            pos <= data.len(),
            split_spec(data@) == cols@.map_values(|c: Vec<u8>| c@) + split_from(
                data@,
                pos as int,
            ),
        decreases data.len() - pos,
    {
        match find_marker(data, pos) {
            None => {
                assert(split_from(data@, pos as int) =~= Seq::<Seq<u8>>::empty());
                assert(cols@.map_values(|c: Vec<u8>| c@) =~= cols@.map_values(|c: Vec<u8>| c@)
                    + split_from(data@, pos as int));
                assert(cols@.map_values(|c: Vec<u8>| c@) == split_spec(data@));
                return cols;
            },
            Some(i) => {
                let ghost old_cols = cols@;
                let col = vstd::slice::slice_to_vec(
                    vstd::slice::slice_subrange(data.as_slice(), pos, i),
                );
                cols.push(col);
                assert(split_from(data@, pos as int) == seq![
                    data@.subrange(pos as int, i as int),
                ] + split_from(data@, i as int + 5));
                assert(cols@.map_values(|c: Vec<u8>| c@) =~= old_cols.map_values(
                    |c: Vec<u8>| c@,
                ).push(data@.subrange(pos as int, i as int)));
                assert(old_cols.map_values(|c: Vec<u8>| c@).push(
                    data@.subrange(pos as int, i as int),
                ) + split_from(data@, i as int + 5) =~= old_cols.map_values(|c: Vec<u8>| c@)
                    + split_from(data@, pos as int));
                pos = i + 5;
            },
        }
    }
}

/// Write the wire form of `cols`: each column's bytes followed by the marker.
pub fn join_columns(cols: &Vec<Vec<u8>>) -> (r: Vec<u8>)
    ensures
        r@ == join_spec(cols@.map_values(|c: Vec<u8>| c@)),
{
    let marker_v = marker_bytes();
    let mut r: Vec<u8> = Vec::new();
    let mut k: usize = 0;
    while k < cols.len()
        invariant
            k <= cols.len(),
            marker_v@ == marker(),
            r@ == join_spec(cols@.subrange(0, k as int).map_values(|c: Vec<u8>| c@)),
        decreases cols.len() - k,
    {
        let ghost prefix = cols@.subrange(0, k as int).map_values(|c: Vec<u8>| c@);
        let ghost colv = cols@[k as int]@;
        r.extend_from_slice(cols[k].as_slice());
        r.extend_from_slice(marker_v.as_slice());
        proof {
            lemma_join_push(prefix, colv);
            assert(cols@.subrange(0, k as int + 1).map_values(|c: Vec<u8>| c@) =~= prefix.push(
                colv,
            ));
            assert(r@ =~= join_spec(prefix) + colv + marker());
        }
        k = k + 1;
    }
    assert(cols@.subrange(0, cols@.len() as int) =~= cols@);
    r
}

/// Cut `data` into consecutive chunks of at most `chunk_size` bytes: every
/// chunk but the last is full, and their concatenation is `data` again.
pub fn chunk_bytes(data: &Vec<u8>, chunk_size: usize) -> (r: Vec<Vec<u8>>)
    requires
        chunk_size >= 1,
    ensures
        concat_spec(r@.map_values(|c: Vec<u8>| c@)) == data@,
        forall|k: int| 0 <= k < r@.len() ==> 1 <= #[trigger] r@[k]@.len() <= chunk_size,
        forall|k: int| 0 <= k < r@.len() - 1 ==> #[trigger] r@[k]@.len() == chunk_size,
{
    let mut r: Vec<Vec<u8>> = Vec::new();
    let mut pos: usize = 0;
    while pos < data.len()
        invariant
            chunk_size >= 1,
            pos <= data.len(),
            concat_spec(r@.map_values(|c: Vec<u8>| c@)) == data@.subrange(0, pos as int),
            forall|k: int| 0 <= k < r@.len() ==> 1 <= #[trigger] r@[k]@.len() <= chunk_size,
            forall|k: int| 0 <= k < r@.len() ==> (k < r@.len() - 1 ==> #[trigger] r@[k]@.len()
                == chunk_size),
            pos < data.len() ==> (r@.len() == 0 || r@[r@.len() - 1]@.len() == chunk_size),
        decreases data.len() - pos,
    {
        let end = if data.len() - pos < chunk_size {
            data.len()
        } else {
            pos + chunk_size
        };
        let ghost prefix = r@.map_values(|c: Vec<u8>| c@);
        let piece = vstd::slice::slice_to_vec(
            vstd::slice::slice_subrange(data.as_slice(), pos, end),
        );
        r.push(piece);
        proof {
            lemma_concat_push(prefix, data@.subrange(pos as int, end as int));
            assert(r@.map_values(|c: Vec<u8>| c@) =~= prefix.push(
                data@.subrange(pos as int, end as int),
            ));
            assert(data@.subrange(0, pos as int) + data@.subrange(pos as int, end as int)
                =~= data@.subrange(0, end as int));
        }
        pos = end;
    }
    assert(data@.subrange(0, data@.len() as int) =~= data@);
    r
}

/// One inbound message of a streaming upload: a slice of the frame's wire
/// bytes plus the accessory fields that accumulate across the stream.
#[derive(Debug)]
pub struct SendChunk {
    pub data: Vec<u8>,
    pub policy: String,
    pub metadata: String,
    pub savable: bool,
}

/// The concatenation of a sequence of texts.
pub open spec fn concat_texts(parts: Seq<Seq<char>>) -> Seq<char>
    decreases parts.len(),
{
    if parts.len() == 0 {
        Seq::empty()
    } else {
        parts[0] + concat_texts(parts.drop_first())
    }
}

/// Appending one more text extends the concatenation on the right.
pub proof fn lemma_concat_texts_push(parts: Seq<Seq<char>>, c: Seq<char>)
    ensures
        concat_texts(parts.push(c)) == concat_texts(parts) + c,
    decreases parts.len(),
{
    let p = parts.push(c);
    if parts.len() == 0 {
        assert(p.drop_first() =~= Seq::<Seq<char>>::empty());
        assert(concat_texts(p.drop_first()) == Seq::<char>::empty());
        assert(concat_texts(p) == p[0] + concat_texts(p.drop_first()));
        assert(p[0] == c);
        assert(c + Seq::<char>::empty() =~= c);
        assert(concat_texts(parts) + c =~= c);
    } else {
        assert(p.drop_first() =~= parts.drop_first().push(c));
        lemma_concat_texts_push(parts.drop_first(), c);
        assert(concat_texts(p) == p[0] + concat_texts(p.drop_first()));
        assert(p[0] == parts[0]);
        assert(parts[0] + (concat_texts(parts.drop_first()) + c) =~= (parts[0] + concat_texts(
            parts.drop_first(),
        )) + c);
    }
}

/// The wire bytes carried by a sequence of upload chunks, in order.
pub open spec fn datas_of(chunks: Seq<SendChunk>) -> Seq<Seq<u8>> {
    chunks.map_values(|c: SendChunk| c.data@)
}

/// The policy fields of a sequence of upload chunks, in order.
pub open spec fn policies_of(chunks: Seq<SendChunk>) -> Seq<Seq<char>> {
    chunks.map_values(|c: SendChunk| c.policy@)
}

/// The metadata fields of a sequence of upload chunks, in order.
pub open spec fn metadatas_of(chunks: Seq<SendChunk>) -> Seq<Seq<char>> {
    chunks.map_values(|c: SendChunk| c.metadata@)
}

/// Reassemble a streamed upload: the chunk bytes concatenate into the wire
/// form, which is cut at the markers into column slices; the `policy` and
/// `metadata` fields concatenate in order; `savable` is the last chunk's
/// value, or false for an empty stream.
pub fn unstream_data(chunks: &Vec<SendChunk>) -> (r: (Vec<Vec<u8>>, String, String, bool))
    ensures
        r.0@.map_values(|c: Vec<u8>| c@) == split_spec(concat_spec(datas_of(chunks@))),
        r.1@ == concat_texts(policies_of(chunks@)),
        r.2@ == concat_texts(metadatas_of(chunks@)),
        r.3 == if chunks@.len() > 0 {
            chunks@.last().savable
        } else {
            false
        },
{
    let mut buf: Vec<u8> = Vec::new();
    let mut policy = String::new();
    let mut metadata = String::new();
    let mut savable = false;
    let mut k: usize = 0;
    assert(datas_of(chunks@.subrange(0, 0)) =~= Seq::<Seq<u8>>::empty());
    assert(policies_of(chunks@.subrange(0, 0)) =~= Seq::<Seq<char>>::empty());
    assert(metadatas_of(chunks@.subrange(0, 0)) =~= Seq::<Seq<char>>::empty());
    while k < chunks.len()
        invariant
            k <= chunks.len(),
            buf@ == concat_spec(datas_of(chunks@.subrange(0, k as int))),
            policy@ == concat_texts(policies_of(chunks@.subrange(0, k as int))),
            metadata@ == concat_texts(metadatas_of(chunks@.subrange(0, k as int))),
            savable == if k > 0 {
                chunks@[k - 1].savable
            } else {
                false
            },
        decreases chunks.len() - k,
    {
        let ghost datas_prefix = datas_of(chunks@.subrange(0, k as int));
        let ghost policies_prefix = policies_of(chunks@.subrange(0, k as int));
        let ghost metadatas_prefix = metadatas_of(chunks@.subrange(0, k as int));
        buf.extend_from_slice(chunks[k].data.as_slice());
        policy.append(chunks[k].policy.as_str());
        metadata.append(chunks[k].metadata.as_str());
        savable = chunks[k].savable;
        proof {
            lemma_concat_push(datas_prefix, chunks@[k as int].data@);
            lemma_concat_texts_push(policies_prefix, chunks@[k as int].policy@);
            lemma_concat_texts_push(metadatas_prefix, chunks@[k as int].metadata@);
            assert(datas_of(chunks@.subrange(0, k as int + 1)) =~= datas_prefix.push(
                chunks@[k as int].data@,
            ));
            assert(policies_of(chunks@.subrange(0, k as int + 1)) =~= policies_prefix.push(
                chunks@[k as int].policy@,
            ));
            assert(metadatas_of(chunks@.subrange(0, k as int + 1)) =~= metadatas_prefix.push(
                chunks@[k as int].metadata@,
            ));
        }
        k = k + 1;
    }
    assert(chunks@.subrange(0, chunks@.len() as int) =~= chunks@);
    let columns = split_columns(&buf);
    (columns, policy, metadata, savable)
}

/// The body of one outbound message of a streaming fetch.
#[derive(Debug)]
pub enum FetchBody {
    /// A slice of the frame's wire bytes.
    Data(Vec<u8>),
    /// The policy decision deferred the data; the reason precedes it.
    Pending(String),
    /// The policy released the data with a caveat; the reason precedes it.
    Warning(String),
}

/// One outbound message of a streaming fetch.
#[derive(Debug)]
pub struct FetchChunk {
    pub body: FetchBody,
}

/// The wire bytes carried by a fetch message; a status message carries none.
pub open spec fn chunk_data(fc: FetchChunk) -> Seq<u8> {
    match fc.body {
        FetchBody::Data(d) => d@,
        _ => Seq::empty(),
    }
}

/// How many status messages `status` prefixes onto the stream.
pub open spec fn status_prefix_len(status: FetchStatus) -> int {
    match status {
        FetchStatus::Ready => 0,
        _ => 1,
    }
}

/// Turn a frame into the ordered fetch stream: a possible status message
/// first, then the wire form of the frame cut into chunks of at most
/// `chunk_size` bytes.
pub fn stream_data(df: &DataFrame, status: FetchStatus, chunk_size: usize) -> (r: Vec<FetchChunk>)
    requires
        chunk_size >= 1,
    ensures
        r@.len() >= status_prefix_len(status),
        match status {
            FetchStatus::Ready => true,
            FetchStatus::Pending(m) => r@[0].body matches FetchBody::Pending(p) && p@ == m@,
            FetchStatus::Warning(m) => r@[0].body matches FetchBody::Warning(p) && p@ == m@,
        },
        forall|k: int|
            status_prefix_len(status) <= k < r@.len() ==> #[trigger] r@[k].body is Data,
        concat_spec(
            r@.subrange(status_prefix_len(status), r@.len() as int).map_values(
                |fc: FetchChunk| chunk_data(fc),
            ),
        ) == join_spec(df@.columns),
        forall|k: int|
            status_prefix_len(status) <= k < r@.len() ==> 1 <= #[trigger] chunk_data(r@[k]).len()
                <= chunk_size,
        forall|k: int|
            status_prefix_len(status) <= k < r@.len() - 1 ==> #[trigger] chunk_data(r@[k]).len()
                == chunk_size,
{
    let mut r: Vec<FetchChunk> = Vec::new();
    match status {
        FetchStatus::Ready => {},
        FetchStatus::Pending(m) => r.push(FetchChunk { body: FetchBody::Pending(m) }),
        FetchStatus::Warning(m) => r.push(FetchChunk { body: FetchBody::Warning(m) }),
    }
    let ghost n = r@.len() as int;
    let wire = join_columns(&df.columns);
    let pieces = chunk_bytes(&wire, chunk_size);
    let mut k: usize = 0;
    while k < pieces.len()
        invariant
            k <= pieces.len(),
            r@.len() == n + k,
            n == status_prefix_len(status),
            match status {
                FetchStatus::Ready => true,
                FetchStatus::Pending(m) => r@[0].body matches FetchBody::Pending(p) && p@ == m@,
                FetchStatus::Warning(m) => r@[0].body matches FetchBody::Warning(p) && p@ == m@,
            },
            forall|j: int| n <= j < r@.len() ==> #[trigger] r@[j].body is Data,
            forall|j: int|
                n <= j < r@.len() ==> #[trigger] chunk_data(r@[j]) == pieces@[j - n]@,
        decreases pieces.len() - k,
    {
        r.push(FetchChunk { body: FetchBody::Data(crate::frame::clone_bytes(&pieces[k])) });
        k = k + 1;
    }
    assert(r@.subrange(n, r@.len() as int).map_values(|fc: FetchChunk| chunk_data(fc))
        =~= pieces@.map_values(|c: Vec<u8>| c@));
    r
}

} // verus!
