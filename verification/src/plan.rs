//! Composite-plan evaluator: decode a plan document and evaluate its
//! segments against the frame registry.
//!
//! A plan is a JSON array of segments; the segment this core recognizes is
//! `{"EntryPoint": "<identifier>"}`, which pushes the referenced frame onto
//! the evaluation stack (other segment kinds belong to the external columnar
//! engine). The final stack must hold exactly one frame — the result; a plan
//! that leaves zero or several frames is invalid.

use crate::error::Status;
use crate::frame::{DataFrame, DataFrameArtifactView, DataFrameView};
use crate::registry::Registry;
use vstd::prelude::*;
use vstd::string::{StrSliceExecFns, StringExecFns};

verus! {

/// One step of a composite plan.
#[derive(Debug)]
pub enum PlanSegment {
    /// Push the frame stored under this identifier.
    EntryPoint(String),
}

/// The identifiers a plan references, in order.
pub open spec fn plan_ids(segments: Seq<PlanSegment>) -> Seq<Seq<char>> {
    segments.map_values(
        |s: PlanSegment|
            match s {
                PlanSegment::EntryPoint(id) => id@,
            },
    )
}

/// JSON whitespace.
pub open spec fn is_ws(c: char) -> bool {
    c == ' ' || c == '\t' || c == '\n' || c == '\r'
}

/// The first offset at or after `pos` holding no whitespace.
pub open spec fn skip_ws_spec(v: Seq<char>, pos: int) -> int
    decreases v.len() - pos,
{
    if 0 <= pos < v.len() && is_ws(v[pos]) {
        skip_ws_spec(v, pos + 1)
    } else {
        pos
    }
}

/// The body of a JSON string from `i` up to its closing quote: the unescaped
/// text and the offset after the quote. The escapes accepted are the two the
/// schema serializer writes, a backslash before a quote or a backslash.
pub open spec fn scan_string(v: Seq<char>, i: int) -> Option<(Seq<char>, int)>
    decreases v.len() - i,
{
    if i < 0 || i >= v.len() {
        None
    } else if v[i] == '"' {
        Some((Seq::empty(), i + 1))
    } else if v[i] == '\\' {
        if i + 2 <= v.len() && (v[i + 1] == '"' || v[i + 1] == '\\') {
            match scan_string(v, i + 2) {
                Some((t, e)) => Some((seq![v[i + 1]] + t, e)),
                None => None,
            }
        } else {
            None
        }
    } else {
        match scan_string(v, i + 1) {
            Some((t, e)) => Some((seq![v[i]] + t, e)),
            None => None,
        }
    }
}

/// A scanned string ends between `i` and the end of the document.
pub proof fn lemma_scan_string(v: Seq<char>, i: int)
    ensures
        scan_string(v, i) matches Some(p) ==> i < p.1 <= v.len(),
    decreases v.len() - i,
{
    if i < 0 || i >= v.len() {
    } else if v[i] == '"' {
    } else if v[i] == '\\' {
        if i + 2 <= v.len() && (v[i + 1] == '"' || v[i + 1] == '\\') {
            lemma_scan_string(v, i + 2);
        }
    } else {
        lemma_scan_string(v, i + 1);
    }
}

/// A JSON string at `pos`: its unescaped text and the offset after the
/// closing quote.
pub open spec fn parse_string_at(v: Seq<char>, pos: int) -> Option<(Seq<char>, int)> {
    if 0 <= pos < v.len() && v[pos] == '"' {
        scan_string(v, pos + 1)
    } else {
        None
    }
}

/// A segment object at `pos`: `{"EntryPoint": "<id>"}` with any JSON
/// whitespace between the tokens. Yields the identifier and the offset after
/// the closing brace.
pub open spec fn parse_segment_at(v: Seq<char>, pos: int) -> Option<(Seq<char>, int)> {
    if !(0 <= pos < v.len() && v[pos] == '{') {
        None
    } else {
        let p1 = skip_ws_spec(v, pos + 1);
        match parse_string_at(v, p1) {
            None => None,
            Some((key, p2)) => if key != "EntryPoint"@ {
                None
            } else {
                let p3 = skip_ws_spec(v, p2);
                if !(p3 < v.len() && v[p3] == ':') {
                    None
                } else {
                    let p4 = skip_ws_spec(v, p3 + 1);
                    match parse_string_at(v, p4) {
                        None => None,
                        Some((id, p5)) => {
                            let p6 = skip_ws_spec(v, p5);
                            if p6 < v.len() && v[p6] == '}' {
                                Some((id, p6 + 1))
                            } else {
                                None
                            }
                        },
                    }
                }
            },
        }
    }
}

/// One or more comma-separated segments starting at `pos`, up to and
/// including the closing bracket of the plan array.
pub open spec fn parse_rest_at(v: Seq<char>, pos: int) -> Option<(Seq<Seq<char>>, int)>
    decreases v.len() - pos,
{
    let p = skip_ws_spec(v, pos);
    match parse_segment_at(v, p) {
        None => None,
        Some((id, q)) => {
            let q1 = skip_ws_spec(v, q);
            if q1 < v.len() && v[q1] == ',' {
                if q1 + 1 > pos {
                    match parse_rest_at(v, q1 + 1) {
                        Some((ids, e)) => Some((seq![id] + ids, e)),
                        None => None,
                    }
                } else {
                    None
                }
            } else if q1 < v.len() && v[q1] == ']' {
                Some((seq![id], q1 + 1))
            } else {
                None
            }
        },
    }
}

/// The whole plan document: a JSON array of segment objects, nothing but
/// whitespace around it. Yields the referenced identifiers in order.
pub open spec fn parse_plan_spec(v: Seq<char>) -> Option<Seq<Seq<char>>> {
    let p = skip_ws_spec(v, 0);
    if !(p < v.len() && v[p] == '[') {
        None
    } else {
        let p1 = skip_ws_spec(v, p + 1);
        if p1 < v.len() && v[p1] == ']' {
            let e = skip_ws_spec(v, p1 + 1);
            if e == v.len() {
                Some(Seq::empty())
            } else {
                None
            }
        } else {
            match parse_rest_at(v, p + 1) {
                Some((ids, e2)) => {
                    let e3 = skip_ws_spec(v, e2);
                    if e3 == v.len() {
                        Some(ids)
                    } else {
                        None
                    }
                },
                None => None,
            }
        }
    }
}

/// Advance past JSON whitespace.
fn skip_ws(s: &str, pos: usize) -> (r: usize)
    requires
        pos <= s@.len(),
    ensures
        r == skip_ws_spec(s@, pos as int),
        pos <= r <= s@.len(),
{
    let n = s.unicode_len();
    let mut i: usize = pos;
    while i < n
        invariant
            pos <= i <= n,
            n == s@.len(),
            skip_ws_spec(s@, pos as int) == skip_ws_spec(s@, i as int),
        decreases n - i,
    {
        let c = s.get_char(i);
        if !(c == ' ' || c == '\t' || c == '\n' || c == '\r') {
            return i;
        }
        i = i + 1;
    }
    i
}

/// Parse a JSON string at `pos`, unescaping its body.
fn parse_string(s: &str, pos: usize) -> (r: Option<(String, usize)>)
    requires
        pos <= s@.len(),
    ensures
        match r {
            Some((t, n)) => parse_string_at(s@, pos as int) == Some((t@, n as int)) && pos < n
                <= s@.len(),
            None => parse_string_at(s@, pos as int) is None,
        },
{
    let len = s.unicode_len();
    if pos >= len || s.get_char(pos) != '"' {
        return None;
    }
    let mut out = String::new();
    let mut j: usize = pos + 1;
    loop
        invariant
            pos + 1 <= j,
            j <= s@.len(),
            len == s@.len(),
            s@[pos as int] == '"',
            match scan_string(s@, j as int) {
                Some(p) => scan_string(s@, pos as int + 1) == Some((out@ + p.0, p.1)),
                None => scan_string(s@, pos as int + 1) is None,
            },
        decreases s@.len() - j,
    {
        if j >= len {
            return None;
        }
        let c = s.get_char(j);
        if c == '"' {
            assert(out@ + Seq::<char>::empty() =~= out@);
            proof {
                lemma_scan_string(s@, pos as int + 1);
            }
            return Some((out, j + 1));
        }
        if c == '\\' {
            if j + 1 >= len {
                assert(scan_string(s@, j as int) is None);
                return None;
            }
            let e = s.get_char(j + 1);
            if !(e == '"' || e == '\\') {
                assert(scan_string(s@, j as int) is None);
                return None;
            }
            let ghost out0 = out@;
            let piece = s.substring_char(j + 1, j + 2);
            assert(piece@ =~= seq![s@[j as int + 1]]);
            out.append(piece);
            proof {
                match scan_string(s@, j as int + 2) {
                    Some(p) => {
                        assert(out0 + (seq![s@[j as int + 1]] + p.0) =~= (out0 + seq![
                            s@[j as int + 1],
                        ]) + p.0);
                    },
                    None => {},
                }
            }
            j = j + 2;
        } else {
            let ghost out0 = out@;
            let piece = s.substring_char(j, j + 1);
            assert(piece@ =~= seq![s@[j as int]]);
            out.append(piece);
            proof {
                match scan_string(s@, j as int + 1) {
                    Some(p) => {
                        assert(out0 + (seq![s@[j as int]] + p.0) =~= (out0 + seq![
                            s@[j as int],
                        ]) + p.0);
                    },
                    None => {},
                }
            }
            j = j + 1;
        }
    }
}

/// Parse one `{"EntryPoint": "<id>"}` segment at `pos`.
fn parse_segment(s: &str, pos: usize) -> (r: Option<(String, usize)>)
    requires
        pos <= s@.len(),
    ensures
        match r {
            Some((id, n)) => parse_segment_at(s@, pos as int) == Some((id@, n as int)) && pos < n
                <= s@.len(),
            None => parse_segment_at(s@, pos as int) is None,
        },
{
    let len = s.unicode_len();
    if pos >= len || s.get_char(pos) != '{' {
        return None;
    }
    let p1 = skip_ws(s, pos + 1);
    let (key, p2) = match parse_string(s, p1) {
        Some(kp) => kp,
        None => {
            return None;
        },
    };
    let expected = String::from_str("EntryPoint");
    if !(key == expected) {
        return None;
    }
    let p3 = skip_ws(s, p2);
    if p3 >= len || s.get_char(p3) != ':' {
        return None;
    }
    let p4 = skip_ws(s, p3 + 1);
    let (id, p5) = match parse_string(s, p4) {
        Some(ip) => ip,
        None => {
            return None;
        },
    };
    let p6 = skip_ws(s, p5);
    if p6 < len && s.get_char(p6) == '}' {
        Some((id, p6 + 1))
    } else {
        None
    }
}

/// Parse the comma-separated segments from `pos` up to the closing bracket.
fn parse_rest(s: &str, pos: usize) -> (r: Option<(Vec<String>, usize)>)
    requires
        pos <= s@.len(),
    ensures
        match r {
            Some((ids, e)) => parse_rest_at(s@, pos as int) == Some(
                (ids@.map_values(|t: String| t@), e as int),
            ) && pos < e <= s@.len(),
            None => parse_rest_at(s@, pos as int) is None,
        },
    decreases s@.len() - pos,
{
    let len = s.unicode_len();
    let p = skip_ws(s, pos);
    let (id, q) = match parse_segment(s, p) {
        Some(iq) => iq,
        None => {
            return None;
        },
    };
    let q1 = skip_ws(s, q);
    if q1 < len && s.get_char(q1) == ',' {
        if !(q1 + 1 > pos) {
            return None;
        }
        match parse_rest(s, q1 + 1) {
            Some((rest, e)) => {
                let mut ids = rest;
                ids.insert(0, id);
                assert(ids@.map_values(|t: String| t@) =~= seq![ids@[0]@] + ids@.drop_first(
                ).map_values(|t: String| t@));
                Some((ids, e))
            },
            None => None,
        }
    } else if q1 < len && s.get_char(q1) == ']' {
        let mut ids: Vec<String> = Vec::new();
        ids.push(id);
        assert(ids@.map_values(|t: String| t@) =~= seq![ids@[0]@]);
        Some((ids, q1 + 1))
    } else {
        None
    }
}

/// Decode a plan document into the identifiers its entry points reference,
/// in order; a document that is not such a plan is rejected as an invalid
/// argument whose reason carries the offending text.
pub fn parse_plan(s: &str) -> (r: Result<Vec<String>, Status>)
    ensures
        match r {
            Ok(ids) => parse_plan_spec(s@) == Some(ids@.map_values(|t: String| t@)),
            Err(e) => parse_plan_spec(s@) is None && (e matches Status::InvalidArgument(m) && m@
                == "Could not deserialize composite plan: "@ + s@),
        },
{
    let len = s.unicode_len();
    let p = skip_ws(s, 0);
    if p < len && s.get_char(p) == '[' {
        let p1 = skip_ws(s, p + 1);
        if p1 < len && s.get_char(p1) == ']' {
            let e = skip_ws(s, p1 + 1);
            if e == len {
                let ids: Vec<String> = Vec::new();
                assert(ids@.map_values(|t: String| t@) =~= Seq::<Seq<char>>::empty());
                return Ok(ids);
            }
        } else {
            match parse_rest(s, p + 1) {
                Some((ids, e2)) => {
                    let e3 = skip_ws(s, e2);
                    if e3 == len {
                        return Ok(ids);
                    }
                },
                None => {},
            }
        }
    }
    let msg = String::from_str("Could not deserialize composite plan: ").concat(s);
    Err(Status::InvalidArgument(msg))
}

/// One or more comma-separated JSON strings starting at `pos`, up to and
/// including the closing bracket of the array.
pub open spec fn parse_texts_rest_at(v: Seq<char>, pos: int) -> Option<(Seq<Seq<char>>, int)>
    decreases v.len() - pos,
{
    let p = skip_ws_spec(v, pos);
    match parse_string_at(v, p) {
        None => None,
        Some((t, q)) => {
            let q1 = skip_ws_spec(v, q);
            if q1 < v.len() && v[q1] == ',' {
                if q1 + 1 > pos {
                    match parse_texts_rest_at(v, q1 + 1) {
                        Some((ts, e)) => Some((seq![t] + ts, e)),
                        None => None,
                    }
                } else {
                    None
                }
            } else if q1 < v.len() && v[q1] == ']' {
                Some((seq![t], q1 + 1))
            } else {
                None
            }
        },
    }
}

/// A whole document holding a JSON array of strings, nothing but whitespace
/// around it — the form of the accessory metadata naming sensitive columns.
pub open spec fn parse_texts_spec(v: Seq<char>) -> Option<Seq<Seq<char>>> {
    let p = skip_ws_spec(v, 0);
    if !(p < v.len() && v[p] == '[') {
        None
    } else {
        let p1 = skip_ws_spec(v, p + 1);
        if p1 < v.len() && v[p1] == ']' {
            let e = skip_ws_spec(v, p1 + 1);
            if e == v.len() {
                Some(Seq::empty())
            } else {
                None
            }
        } else {
            match parse_texts_rest_at(v, p + 1) {
                Some((ts, e2)) => {
                    let e3 = skip_ws_spec(v, e2);
                    if e3 == v.len() {
                        Some(ts)
                    } else {
                        None
                    }
                },
                None => None,
            }
        }
    }
}

/// Parse the comma-separated strings from `pos` up to the closing bracket.
fn parse_texts_rest(s: &str, pos: usize) -> (r: Option<(Vec<String>, usize)>)
    requires
        pos <= s@.len(),
    ensures
        match r {
            Some((ts, e)) => parse_texts_rest_at(s@, pos as int) == Some(
                (ts@.map_values(|t: String| t@), e as int),
            ) && pos < e <= s@.len(),
            None => parse_texts_rest_at(s@, pos as int) is None,
        },
    decreases s@.len() - pos,
{
    let len = s.unicode_len();
    let p = skip_ws(s, pos);
    let (t, q) = match parse_string(s, p) {
        Some(tq) => tq,
        None => {
            return None;
        },
    };
    let q1 = skip_ws(s, q);
    if q1 < len && s.get_char(q1) == ',' {
        if !(q1 + 1 > pos) {
            return None;
        }
        match parse_texts_rest(s, q1 + 1) {
            Some((rest, e)) => {
                let mut ts = rest;
                ts.insert(0, t);
                assert(ts@.map_values(|x: String| x@) =~= seq![ts@[0]@] + ts@.drop_first(
                ).map_values(|x: String| x@));
                Some((ts, e))
            },
            None => None,
        }
    } else if q1 < len && s.get_char(q1) == ']' {
        let mut ts: Vec<String> = Vec::new();
        ts.push(t);
        assert(ts@.map_values(|x: String| x@) =~= seq![ts@[0]@]);
        Some((ts, q1 + 1))
    } else {
        None
    }
}

/// Decode a JSON array of strings, such as the blacklist of sensitive column
/// names carried in an upload's metadata.
pub fn parse_text_list(s: &str) -> (r: Option<Vec<String>>)
    ensures
        match r {
            Some(ts) => parse_texts_spec(s@) == Some(ts@.map_values(|t: String| t@)),
            None => parse_texts_spec(s@) is None,
        },
{
    let len = s.unicode_len();
    let p = skip_ws(s, 0);
    if p < len && s.get_char(p) == '[' {
        let p1 = skip_ws(s, p + 1);
        if p1 < len && s.get_char(p1) == ']' {
            let e = skip_ws(s, p1 + 1);
            if e == len {
                let ts: Vec<String> = Vec::new();
                assert(ts@.map_values(|t: String| t@) =~= Seq::<Seq<char>>::empty());
                return Some(ts);
            }
        } else {
            match parse_texts_rest(s, p + 1) {
                Some((ts, e2)) => {
                    let e3 = skip_ws(s, e2);
                    if e3 == len {
                        return Some(ts);
                    }
                },
                None => {},
            }
        }
    }
    None
}

/// The first referenced identifier the registry does not hold, if any.
pub open spec fn first_missing(
    ids: Seq<Seq<char>>,
    reg: Map<Seq<char>, DataFrameArtifactView>,
) -> Option<Seq<char>>
    decreases ids.len(),
{
    if ids.len() == 0 {
        None
    } else if !reg.contains_key(ids[0]) {
        Some(ids[0])
    } else {
        first_missing(ids.drop_first(), reg)
    }
}

/// What evaluating a plan against a registry comes to.
pub ghost enum PlanOutcome {
    /// The plan left exactly one frame: the result.
    Frame(DataFrameView),
    /// An entry point referenced an identifier the registry does not hold.
    Missing(Seq<char>),
    /// The plan left zero or several frames on the stack.
    Invalid,
}

/// Evaluate a plan's entry points, in order, against a registry: the first
/// missing identifier fails the plan; otherwise the stack holds one frame
/// per entry point, and must hold exactly one.
pub open spec fn eval_plan_spec(
    ids: Seq<Seq<char>>,
    reg: Map<Seq<char>, DataFrameArtifactView>,
) -> PlanOutcome {
    match first_missing(ids, reg) {
        Some(id) => PlanOutcome::Missing(id),
        None => if ids.len() == 1 {
            PlanOutcome::Frame(reg[ids[0]].df)
        } else {
            PlanOutcome::Invalid
        },
    }
}

/// Run the segments of a plan against the registry on a LIFO stack of
/// frames; the single frame left is the result.
#[verifier::loop_isolation(false)]
pub fn run_plan(segments: &Vec<PlanSegment>, registry: &Registry) -> (r: Result<
    DataFrame,
    Status,
>)
    requires
        registry.wf(),
    ensures
        ({
            let out = eval_plan_spec(plan_ids(segments@), registry@);
            match r {
                Ok(df) => out == PlanOutcome::Frame(df@),
                Err(e) => match e {
                    Status::NotFound(m) => out matches PlanOutcome::Missing(id) && m@
                        == "Could not find dataframe: identifier="@ + id,
                    Status::InvalidPlan(m) => out is Invalid && m@
                        == "Plan did not leave exactly one dataframe on the stack"@,
                    _ => false,
                },
            }
        }),
{
    let ghost ids = plan_ids(segments@);
    let mut stack: Vec<DataFrame> = Vec::new();
    let mut k: usize = 0;
    assert(ids.skip(0) =~= ids);
    while k < segments.len()
        invariant
            registry.wf(),
            k <= segments@.len(),
            ids == plan_ids(segments@),
            stack@.len() == k,
            first_missing(ids, registry@) == first_missing(ids.skip(k as int), registry@),
            forall|j: int| 0 <= j < k ==> registry@.contains_key(#[trigger] ids[j]),
            forall|j: int|
                0 <= j < k ==> #[trigger] stack@[j]@ == registry@[ids[j]].df,
        decreases segments.len() - k,
    {
        let PlanSegment::EntryPoint(identifier) = &segments[k];
        assert(identifier@ == ids[k as int]);
        match registry.get(identifier) {
            Ok(artifact) => {
                proof {
                    assert(ids.skip(k as int)[0] == ids[k as int]);
                    assert(ids.skip(k as int).drop_first() =~= ids.skip(k as int + 1));
                }
                let ghost prev = stack@;
                stack.push(artifact.df);
                proof {
                    assert(stack@[k as int]@ == registry@[ids[k as int]].df);
                    assert forall|j: int|
                        0 <= j < k + 1 implies registry@.contains_key(#[trigger] ids[j]) by {
                        if j < k {
                        } else {
                            assert(identifier@ == ids[j]);
                            assert(registry@.contains_key(identifier@));
                        }
                    }
                    assert forall|j: int|
                        0 <= j < k + 1 implies #[trigger] stack@[j]@ == registry@[ids[j]].df by {
                        if j < k {
                            assert(stack@[j] == prev[j]);
                            assert(prev[j]@ == registry@[ids[j]].df);
                        } else {
                            assert(identifier@ == ids[j]);
                            assert(registry@.contains_key(identifier@));
                        }
                    }
                }
            },
            Err(e) => {
                proof {
                    assert(ids.skip(k as int)[0] == ids[k as int]);
                    assert(first_missing(ids.skip(k as int), registry@) == Some(ids[k as int]));
                }
                return Err(e);
            },
        }
        k = k + 1;
    }
    assert(ids.skip(segments@.len() as int) =~= Seq::<Seq<char>>::empty());
    if stack.len() == 1 {
        let df = match stack.pop() {
            Some(df) => df,
            None => {
                return Err(
                    Status::InvalidPlan(
                        String::from_str("Plan did not leave exactly one dataframe on the stack"),
                    ),
                );
            },
        };
        assert(df@ == registry@[ids[0]].df);
        Ok(df)
    } else {
        Err(
            Status::InvalidPlan(
                String::from_str("Plan did not leave exactly one dataframe on the stack"),
            ),
        )
    }
}

/// All identifiers a registry holds are never the first missing one.
pub proof fn lemma_first_missing_none(
    ids: Seq<Seq<char>>,
    reg: Map<Seq<char>, DataFrameArtifactView>,
)
    requires
        forall|k: int| 0 <= k < ids.len() ==> reg.contains_key(#[trigger] ids[k]),
    ensures
        first_missing(ids, reg) is None,
    decreases ids.len(),
{
    if ids.len() == 0 {
    } else {
        assert(forall|k: int|
            0 <= k < ids.drop_first().len() ==> reg.contains_key(
                #[trigger] ids.drop_first()[k],
            ));
        lemma_first_missing_none(ids.drop_first(), reg);
    }
}

/// A plan with a single entry point naming a stored frame evaluates to
/// exactly the frame the registry holds under that identifier — the same
/// frame a lookup returns.
pub proof fn lemma_single_entry_point(
    reg: Map<Seq<char>, DataFrameArtifactView>,
    id: Seq<char>,
)
    requires
        reg.contains_key(id),
    ensures
        eval_plan_spec(seq![id], reg) == PlanOutcome::Frame(reg[id].df),
{
    let e = Seq::<Seq<char>>::empty();
    assert(seq![id].drop_first() =~= e);
    assert(first_missing(e, reg) is None);
    assert(seq![id][0] == id);
    assert(first_missing(seq![id], reg) is None);
}

/// A plan whose entry points all resolve but whose count is not one leaves
/// zero or several frames on the stack, and is invalid.
pub proof fn lemma_plan_arity(ids: Seq<Seq<char>>, reg: Map<Seq<char>, DataFrameArtifactView>)
    requires
        ids.len() != 1,
        forall|k: int| 0 <= k < ids.len() ==> reg.contains_key(#[trigger] ids[k]),
    ensures
        eval_plan_spec(ids, reg) == PlanOutcome::Invalid,
{
    lemma_first_missing_none(ids, reg);
}

} // verus!
