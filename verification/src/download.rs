use vstd::prelude::*;

use vstd::arithmetic::div_mod::{lemma_div_pos_is_pos, lemma_fundamental_div_mod, lemma_mod_bound};
use vstd::arithmetic::mul::{
    lemma_mul_basics, lemma_mul_inequality, lemma_mul_is_commutative, lemma_mul_is_distributive_add,
    lemma_mul_is_distributive_sub_other_way, lemma_mul_nonnegative,
};

use crate::config::DownloadConfig;
use crate::error::RgetError;
use crate::util::{
    after_last_slash, file_component, str_eq, strip_prefix_all, strip_suffix_all,
    trim_prefix_matches, trim_suffix_matches,
};

verus! {

/// What the planner decides for one segment.
#[derive(Clone, Copy, Debug, PartialEq, Eq, Structural)]
pub enum RangePlan {
    /// The part file already holds the whole planned span: nothing to fetch.
    AlreadyComplete,
    /// Request exactly the bytes from `from` to `to`, both inclusive.
    Range { from: u64, to: u64 },
    /// The total length is unknown: request the whole resource, unranged.
    Unranged,
}

/// The even share of the resource that every segment but the last receives.
pub open spec fn seg_section(length: int, parallel: int) -> int {
    length / parallel
}

/// Where segment `part`'s planned span begins, counting a fresh download
/// from byte 0.
pub open spec fn seg_start(part: int, length: int, parallel: int) -> int {
    part * seg_section(length, parallel)
}

/// One past the last byte of segment `part`'s planned span; the last segment
/// absorbs the remainder of the integer division.
pub open spec fn seg_end(part: int, length: int, parallel: int) -> int {
    if part + 1 == parallel {
        length
    } else {
        (part + 1) * seg_section(length, parallel)
    }
}

/// How many bytes segment `part` is planned to hold in its part file.
pub open spec fn seg_span(part: int, length: int, parallel: int) -> int {
    seg_end(part, length, parallel) - seg_start(part, length, parallel)
}

/// The planned boundaries are ordered and stay within the resource.
pub proof fn lemma_seg_bounds(part: int, length: int, parallel: int)
    requires
        0 <= part < parallel,
        0 <= length,
    ensures
        0 <= seg_start(part, length, parallel),
        seg_start(part, length, parallel) <= seg_end(part, length, parallel),
        seg_end(part, length, parallel) <= length,
{
    let s = seg_section(length, parallel);
    lemma_fundamental_div_mod(length, parallel);
    lemma_mod_bound(length, parallel);
    lemma_mul_nonnegative(part, s);
    lemma_mul_inequality(part, part + 1, s);
    lemma_mul_inequality(part + 1, parallel, s);
}

/// The planned spans of a fresh download partition the resource exactly:
/// the first span begins at byte 0, each span begins where the one before it
/// ends, and the last span ends at the resource's last byte.
pub proof fn lemma_segments_partition(length: int, parallel: int)
    requires
        parallel >= 1,
        0 <= length,
    ensures
        seg_start(0, length, parallel) == 0,
        forall|i: int|
            0 <= i < parallel - 1 ==> seg_end(i, length, parallel) == seg_start(
                i + 1,
                length,
                parallel,
            ),
        seg_end(parallel - 1, length, parallel) == length,
{
}

/// Every byte of the resource falls inside some planned span.
pub proof fn lemma_byte_covered(b: int, length: int, parallel: int)
    requires
        parallel >= 1,
        0 <= b < length,
    ensures
        exists|i: int|
            0 <= i < parallel && #[trigger] seg_start(i, length, parallel) <= b < seg_end(
                i,
                length,
                parallel,
            ),
{
    let s = seg_section(length, parallel);
    lemma_div_pos_is_pos(length, parallel);
    if s == 0 {
        let w = parallel - 1;
        lemma_mul_basics(w);
        assert(seg_start(w, length, parallel) <= b < seg_end(w, length, parallel));
    } else {
        let j = b / s;
        lemma_div_pos_is_pos(b, s);
        lemma_fundamental_div_mod(b, s);
        lemma_mod_bound(b, s);
        lemma_mul_is_commutative(s, j);
        lemma_mul_is_distributive_add(s, j, 1);
        lemma_mul_basics(s);
        lemma_mul_is_commutative(s, j + 1);
        if j < parallel - 1 {
            assert(seg_start(j, length, parallel) <= b < seg_end(j, length, parallel));
        } else {
            let w = parallel - 1;
            lemma_mul_inequality(w, j, s);
            assert(seg_start(w, length, parallel) <= b < seg_end(w, length, parallel));
        }
    }
}

/// The planned spans of distinct segments never overlap: the whole span of
/// the lower-numbered segment lies before the higher-numbered one begins.
pub proof fn lemma_segments_disjoint(i: int, j: int, length: int, parallel: int)
    requires
        0 <= i < j < parallel,
        0 <= length,
    ensures
        seg_end(i, length, parallel) <= seg_start(j, length, parallel),
{
    let s = seg_section(length, parallel);
    lemma_div_pos_is_pos(length, parallel);
    lemma_mul_inequality(i + 1, j, s);
}

/// The last segment absorbs the remainder of the integer division: its span
/// is the even share plus whatever `length` leaves over modulo `parallel`.
pub proof fn lemma_last_absorbs_remainder(length: int, parallel: int)
    requires
        parallel >= 1,
        0 <= length,
    ensures
        seg_span(parallel - 1, length, parallel) == seg_section(length, parallel) + length
            % parallel,
{
    let s = seg_section(length, parallel);
    lemma_fundamental_div_mod(length, parallel);
    lemma_mul_is_distributive_sub_other_way(s, parallel, 1);
    lemma_mul_basics(s);
    lemma_mul_is_commutative(s, parallel);
}

/// If every part file already holds exactly its planned span, no segment
/// plans any request: every planner decision is the already-complete marker
/// and the run proceeds straight to merge.
pub proof fn lemma_resume_idempotent(parallel: u64, length: u64, filelens: Seq<u64>)
    requires
        parallel >= 1,
        filelens.len() == parallel,
        forall|i: int|
            0 <= i < parallel ==> filelens[i] == seg_span(i, length as int, parallel as int),
    ensures
        forall|i: int|
            0 <= i < parallel ==> spec_plan(i as u64, parallel, Some(length), filelens[i]) == Ok::<
                RangePlan,
                RgetError,
            >(RangePlan::AlreadyComplete),
{
}

/// The planner's decision for segment `part`: given the probed total length
/// and the bytes already present in the segment's part file, either nothing
/// is left to fetch, or one contiguous byte range is, or the whole resource
/// is requested unranged because its length is unknown.  A part file longer
/// than its planned span is a data-integrity condition, never truncated or
/// passed off as complete.
pub open spec fn spec_plan(
    part: u64,
    parallel: u64,
    length: Option<u64>,
    filelen: u64,
) -> Result<RangePlan, RgetError> {
    match length {
        None => Ok(RangePlan::Unranged),
        Some(len) => {
            let span = seg_span(part as int, len as int, parallel as int);
            if filelen == span {
                Ok(RangePlan::AlreadyComplete)
            } else if filelen > span {
                Err(RgetError::InconsistentResumeState {
                    part,
                    existing: filelen,
                    planned: span as u64,
                })
            } else {
                Ok(RangePlan::Range {
                    from: (seg_start(part as int, len as int, parallel as int) + filelen) as u64,
                    to: (seg_end(part as int, len as int, parallel as int) - 1) as u64,
                })
            }
        }
    }
}

/// A fresh segment's planned range is exactly its span of the partition:
/// with nothing downloaded yet, segment `part` requests the bytes from
/// `seg_start` through `seg_end - 1`, and a segment whose span is empty
/// requests nothing at all.
pub proof fn lemma_fresh_plan_is_span(part: u64, parallel: u64, length: u64)
    requires
        part < parallel,
    ensures
        seg_span(part as int, length as int, parallel as int) > 0 ==> spec_plan(
            part,
            parallel,
            Some(length),
            0,
        ) == Ok::<RangePlan, RgetError>(
            RangePlan::Range {
                from: seg_start(part as int, length as int, parallel as int) as u64,
                to: (seg_end(part as int, length as int, parallel as int) - 1) as u64,
            },
        ),
        seg_span(part as int, length as int, parallel as int) == 0 ==> spec_plan(
            part,
            parallel,
            Some(length),
            0,
        ) == Ok::<RangePlan, RgetError>(RangePlan::AlreadyComplete),
{
    lemma_seg_bounds(part as int, length as int, parallel as int);
}

/// Plan segment `part`'s request.  Resumed bytes shift the range's start
/// forward, so only the missing tail of the span is ever requested.
pub fn plan_range(part: u64, parallel: u64, length: Option<u64>, filelen: u64) -> (r: Result<
    RangePlan,
    RgetError,
>)
    requires
        part < parallel,
    ensures
        r == spec_plan(part, parallel, length, filelen),
{
    match length {
        None => Ok(RangePlan::Unranged),
        Some(len) => {
            proof {
                lemma_seg_bounds(part as int, len as int, parallel as int);
            }
            let section = len / parallel;
            let start = part * section;
            let end = if part + 1 == parallel {
                len
            } else {
                (part + 1) * section
            };
            let span = end - start;
            if filelen == span {
                Ok(RangePlan::AlreadyComplete)
            } else if filelen > span {
                Err(RgetError::InconsistentResumeState { part, existing: filelen, planned: span })
            } else {
                Ok(RangePlan::Range { from: start + filelen, to: end - 1 })
            }
        },
    }
}

/// The byte count a worker treats as its goal when watching the stream: the
/// span planned from the total length, clamped upward to the response's
/// declared content length (integer truncation can plan a span that is
/// slightly too short for the last segment); with no total length, the
/// declared length alone decides, and may itself be unknown.
pub open spec fn spec_effective_length(
    total: Option<u64>,
    parallel: u64,
    declared: Option<u64>,
) -> Option<u64> {
    match total {
        Some(t) => {
            let planned = t as int / parallel as int;
            match declared {
                Some(cl) => if cl < planned {
                    Some(planned as u64)
                } else {
                    Some(cl)
                },
                None => Some(planned as u64),
            }
        },
        None => declared,
    }
}

/// Decide the completion length for one segment's response.
pub fn effective_length(total: Option<u64>, parallel: u64, declared: Option<u64>) -> (r: Option<
    u64,
>)
    requires
        parallel >= 1,
    ensures
        r == spec_effective_length(total, parallel, declared),
{
    match total {
        Some(t) => {
            let planned = t / parallel;
            match declared {
                Some(cl) => if cl < planned {
                    Some(planned)
                } else {
                    Some(cl)
                },
                None => Some(planned),
            }
        },
        None => declared,
    }
}

/// The only statuses that let a segment proceed: OK for a whole resource,
/// Partial Content for a ranged request.
pub fn is_success_status(status: u16) -> (r: bool)
    ensures
        r == (status == 200 || status == 206),
{
    status == 200 || status == 206
}

/// What the length probe yields: a total length is believed only when the
/// probe answered OK and declared a content length.
pub fn length_from_response(status: u16, content_length: Option<u64>) -> (r: Option<u64>)
    ensures
        r == (if status == 200 {
            content_length
        } else {
            Option::<u64>::None
        }),
{
    if status == 200 {
        content_length
    } else {
        None
    }
}

/// The bytes a segment already holds when its worker starts: none on a
/// scratch run, else whatever the part file's metadata reports, and none
/// when the metadata cannot be read.
pub fn initial_part_len(scratch: bool, disk_len: Option<u64>) -> (r: u64)
    ensures
        r == (if scratch {
            0u64
        } else {
            match disk_len {
                Some(l) => l,
                None => 0u64,
            }
        }),
{
    if scratch {
        0
    } else {
        match disk_len {
            Some(l) => l,
            None => 0,
        }
    }
}

/// How the run degrades when the remote length cannot be determined: the
/// segment count is forced to 1 and the run becomes non-resumable scratch
/// mode.  A successful probe changes nothing.
pub fn apply_length_probe(parallel: u64, scratch: bool, probe: Option<u64>) -> (r: (
    u64,
    bool,
    Option<u64>,
))
    ensures
        probe is Some ==> r == (parallel, scratch, probe),
        probe is None ==> r == (1u64, true, Option::<u64>::None),
{
    match probe {
        Some(_) => (parallel, scratch, probe),
        None => (1, true, None),
    }
}

/// Whether a run writes a fresh descriptor before its workers start.
pub open spec fn spec_should_persist(fresh: bool, length_known: bool) -> bool {
    fresh && length_known
}

/// Only a fresh run with a known length persists a descriptor: a resumed run
/// already has one on disk, and a length-unknown scratch run never creates
/// one, because an unranged download cannot be resumed.
pub fn should_persist_descriptor(fresh: bool, length_known: bool) -> (r: bool)
    ensures
        r == spec_should_persist(fresh, length_known),
{
    fresh && length_known
}

/// When the remote length cannot be determined, the single remaining
/// segment requests the whole resource unranged, and no descriptor is ever
/// written, whether or not the run started fresh.
pub proof fn lemma_length_unknown_degrades(fresh: bool, filelen: u64)
    ensures
        spec_plan(0u64, 1u64, Option::<u64>::None, filelen) == Ok::<RangePlan, RgetError>(
            RangePlan::Unranged,
        ),
        !spec_should_persist(fresh, false),
{
}

/// The errors of the failed segments, in segment order.
pub open spec fn failed_of(results: Seq<Result<(), RgetError>>) -> Seq<RgetError>
    decreases results.len(),
{
    if results.len() == 0 {
        Seq::empty()
    } else {
        match results.last() {
            Ok(_) => failed_of(results.drop_last()),
            Err(e) => failed_of(results.drop_last()).push(e),
        }
    }
}

/// A sequence that holds an element still holds it after a push.
proof fn lemma_push_keeps_contains<A>(s: Seq<A>, elem: A, x: A)
    requires
        s.contains(x) || x == elem,
    ensures
        s.push(elem).contains(x),
{
    if s.contains(x) {
        let i = choose|i: int| 0 <= i < s.len() && s[i] == x;
        assert(s.push(elem)[i] == x);
    } else {
        assert(s.push(elem)[s.len() as int] == x);
    }
}

/// No failure is ever lost: the aggregated error list is empty exactly when
/// every segment succeeded, and each failed segment's error appears in it.
pub proof fn lemma_failed_of_complete(results: Seq<Result<(), RgetError>>)
    ensures
        (failed_of(results).len() == 0) <==> (forall|i: int|
            0 <= i < results.len() ==> results[i] is Ok),
        forall|i: int|
            0 <= i < results.len() && results[i] is Err ==> failed_of(results).contains(
                #[trigger] results[i]->Err_0,
            ),
    decreases results.len(),
{
    if results.len() > 0 {
        let prefix = results.drop_last();
        lemma_failed_of_complete(prefix);
        assert forall|i: int|
            0 <= i < results.len() && results[i] is Err implies failed_of(results).contains(
            #[trigger] results[i]->Err_0,
        ) by {
            if i < results.len() - 1 {
                assert(prefix[i] == results[i]);
                match results.last() {
                    Ok(_) => {},
                    Err(e) => {
                        lemma_push_keeps_contains(failed_of(prefix), e, results[i]->Err_0);
                    },
                }
            } else {
                match results.last() {
                    Ok(_) => {},
                    Err(e) => {
                        lemma_push_keeps_contains(failed_of(prefix), e, e);
                    },
                }
            }
        }
        if failed_of(results).len() == 0 {
            assert(forall|i: int| 0 <= i < prefix.len() ==> prefix[i] == results[i]);
        }
    }
}

/// Aggregate every worker's final result.  A run succeeds only when every
/// segment did; otherwise all failures are reported together, in segment
/// order, never just the first.
pub fn aggregate_results(results: Vec<Result<(), RgetError>>) -> (r: Result<(), RgetError>)
    ensures
        match r {
            Ok(_) => failed_of(results@).len() == 0,
            Err(e) => failed_of(results@).len() > 0 && (e matches RgetError::Multiple(v)
                && v@ == failed_of(results@)),
        },
{
    let ghost orig = results@;
    let mut rest = results;
    let mut errors: Vec<RgetError> = Vec::new();
    let ghost mut i: int = 0;
    while rest.len() > 0
        invariant
            0 <= i,
            i + rest.len() == orig.len(),
            rest@ == orig.skip(i),
            errors@ == failed_of(orig.take(i)),
        decreases rest.len(),
    {
        broadcast use vstd::prelude::Seq::lemma_take_succ_push;

        let item = rest.remove(0);
        proof {
            assert(orig[i] == item);
            assert(orig.take(i + 1).drop_last() =~= orig.take(i));
            assert(rest@ =~= orig.skip(i + 1));
        }
        match item {
            Ok(_) => {},
            Err(e) => {
                errors.push(e);
            },
        }
        proof {
            i = i + 1;
        }
    }
    proof {
        assert(orig.take(orig.len() as int) =~= orig);
    }
    if errors.len() == 0 {
        Ok(())
    } else {
        Err(RgetError::Multiple(errors))
    }
}

/// If any one segment fails, the aggregate outcome of the run is an error:
/// the merge is never invoked and the descriptor is never deleted, and the
/// failed segment's error is part of the aggregate that is reported.
pub proof fn lemma_failure_retains_state(results: Seq<Result<(), RgetError>>, i: int)
    requires
        0 <= i < results.len(),
        results[i] is Err,
    ensures
        failed_of(results).len() > 0,
        failed_of(results).contains(results[i]->Err_0),
{
    lemma_failed_of_complete(results);
}

/// What loading the persisted descriptor from disk yielded: the descriptor
/// itself, no descriptor file at all, or an unreadable one.
pub enum LoadOutcome {
    Loaded(DownloadConfig),
    NotFound,
    Corrupt(RgetError),
}

/// Resolve fresh against resumed.  A loaded descriptor wins: its segment
/// count is authoritative, and only an explicitly given URL overrides its
/// persisted one.  With no descriptor on disk, a given URL starts a fresh
/// run with the caller's segment count; no URL at all is fatal.  An
/// unreadable descriptor is reported, never silently discarded.
pub fn reload_state(
    outcome: LoadOutcome,
    path: String,
    given_url: Option<String>,
    default_parallel: u64,
) -> (r: Result<(DownloadConfig, bool), RgetError>)
    requires
        default_parallel >= 1,
        outcome matches LoadOutcome::Loaded(c) ==> c.wf(),
    ensures
        match outcome {
            LoadOutcome::Loaded(c) => r matches Ok(p) && p.1 == false && p.0.path@ == path@
                && p.0.parallel == c.parallel && p.0.url@ == (match given_url {
                Some(u) => u@,
                None => c.url@,
            }) && p.0.wf(),
            LoadOutcome::NotFound => match given_url {
                Some(u) => r matches Ok(p) && p.1 == true && p.0.path@ == path@ && p.0.parallel
                    == default_parallel && p.0.url@ == u@ && p.0.wf(),
                None => r == Err::<(DownloadConfig, bool), RgetError>(RgetError::MissingUrl),
            },
            LoadOutcome::Corrupt(e) => r == Err::<(DownloadConfig, bool), RgetError>(e),
        },
{
    match outcome {
        LoadOutcome::Loaded(c) => {
            let url = match given_url {
                Some(u) => u,
                None => c.url,
            };
            Ok((DownloadConfig { path, parallel: c.parallel, url }, false))
        },
        LoadOutcome::NotFound => match given_url {
            Some(u) => Ok((DownloadConfig { path, parallel: default_parallel, url: u }, true)),
            None => Err(RgetError::MissingUrl),
        },
        LoadOutcome::Corrupt(e) => Err(e),
    }
}

/// What `url::Url::parse` makes of a string: nothing when the string is not
/// an absolute URL, else the parsed URL's serialization and its scheme.
pub uninterp spec fn url_parse_of(s: Seq<char>) -> Option<(Seq<char>, Seq<char>)>;

/// Relies on `url::Url::parse` (the parser behind reqwest's `Url` type),
/// and on `Url::scheme` and the `Url`-to-`String` conversion to read the
/// result: whether a string parses as an absolute URL, and the parsed URL's
/// serialization and scheme, depend on the string alone.
#[verifier::external_body]
fn parse_url(input: &str) -> (r: Option<(String, String)>)
    ensures
        match r {
            Some(p) => url_parse_of(input@) == Some((p.0@, p.1@)),
            None => url_parse_of(input@) is None,
        },
{
    match url::Url::parse(input) {
        Ok(u) => {
            let scheme = u.scheme().to_string();
            Some((String::from(u), scheme))
        },
        Err(_) => None,
    }
}

/// The output path a local input names: the input with any `file://` prefix
/// and any `.toml` descriptor suffix removed.
pub open spec fn local_output_of(input: Seq<char>) -> Seq<char> {
    strip_suffix_all(strip_prefix_all(input, "file://"@), ".toml"@)
}

/// Resolve the run's one input string to an output path and, for a remote
/// download, the URL to fetch.  An input that parses as an absolute URL
/// with any scheme but `file` is remote: its last path segment names the
/// output unless the caller chose one.  Anything else is local: the input
/// itself, with any `file://` prefix and `.toml` suffix removed, names the
/// output, and there is nothing to fetch.
pub fn resolve_target(input: &str, output: Option<String>) -> (r: (String, Option<String>))
    ensures
        ({
            let parsed = url_parse_of(input@);
            match parsed {
                Some(p) => if p.1 != "file"@ {
                    &&& r.1 matches Some(u) && u@ == p.0
                    &&& r.0@ == match output {
                        Some(o) => o@,
                        None => after_last_slash(input@),
                    }
                } else {
                    &&& r.1 is None
                    &&& r.0@ == match output {
                        Some(o) => o@,
                        None => local_output_of(input@),
                    }
                },
                None => {
                    &&& r.1 is None
                    &&& r.0@ == match output {
                        Some(o) => o@,
                        None => local_output_of(input@),
                    }
                },
            }
        }),
{
    let parsed = parse_url(input);
    let is_remote = match &parsed {
        Some(p) => !str_eq(p.1.as_str(), "file"),
        None => false,
    };
    if is_remote {
        let p = parsed.unwrap();
        let name = match output {
            Some(o) => o,
            None => file_component(input),
        };
        (name, Some(p.0))
    } else {
        let name = match output {
            Some(o) => o,
            None => {
                let trimmed = trim_prefix_matches(input, "file://");
                trim_suffix_matches(trimmed.as_str(), ".toml")
            },
        };
        (name, None)
    }
}

/// The total number of bytes held by a sequence of part files.
pub open spec fn total_len(parts: Seq<Seq<u8>>) -> int
    decreases parts.len(),
{
    if parts.len() == 0 {
        0
    } else {
        total_len(parts.drop_last()) + parts.last().len()
    }
}

/// A flattened sequence of sequences holds exactly the total of their
/// lengths.
pub proof fn lemma_flatten_total_len(parts: Seq<Seq<u8>>)
    ensures
        parts.flatten().len() == total_len(parts),
    decreases parts.len(),
{
    broadcast use vstd::prelude::Seq::lemma_flatten_push;

    if parts.len() > 0 {
        lemma_flatten_total_len(parts.drop_last());
        assert(parts.drop_last().push(parts.last()) =~= parts);
    }
}

/// The first `k` planned spans sum, telescoping, to the end of span `k - 1`.
proof fn lemma_spans_sum(parts: Seq<Seq<u8>>, length: u64, parallel: u64, k: int)
    requires
        parallel >= 1,
        parts.len() == parallel,
        forall|i: int|
            0 <= i < parallel ==> #[trigger] parts[i].len() == seg_span(
                i,
                length as int,
                parallel as int,
            ),
        0 <= k <= parallel,
    ensures
        total_len(parts.take(k)) == if k == 0 {
            0int
        } else {
            seg_end(k - 1, length as int, parallel as int)
        },
    decreases k,
{
    if k > 0 {
        lemma_spans_sum(parts, length, parallel, k - 1);
        assert(parts.take(k).drop_last() =~= parts.take(k - 1));
        assert(parts.take(k).last() == parts[k - 1]);
    }
}

/// The exit contract of a fully downloaded run: part files that each hold
/// exactly their planned span merge into a file of exactly the resource's
/// length.
pub proof fn lemma_merged_length_is_total(parts: Seq<Seq<u8>>, length: u64, parallel: u64)
    requires
        parallel >= 1,
        parts.len() == parallel,
        forall|i: int|
            0 <= i < parallel ==> #[trigger] parts[i].len() == seg_span(
                i,
                length as int,
                parallel as int,
            ),
    ensures
        parts.flatten().len() == length,
{
    lemma_flatten_total_len(parts);
    lemma_spans_sum(parts, length, parallel, parallel as int);
    assert(parts.take(parallel as int) =~= parts);
}

/// Merge correctness: the merged bytes are exactly the ordered concatenation
/// of the part files' bytes, first part first, so the merged length is the
/// total of the parts' lengths.
pub fn merge_parts(parts: &Vec<Vec<u8>>) -> (r: Vec<u8>)
    ensures
        r@ == parts.deep_view().flatten(),
        r@.len() == total_len(parts.deep_view()),
{
    broadcast use vstd::prelude::Seq::lemma_take_succ_push;
    broadcast use vstd::prelude::Seq::lemma_flatten_push;

    let ghost all = parts.deep_view();
    let mut out: Vec<u8> = Vec::new();
    let mut i: usize = 0;
    proof {
        assert(all.take(0).flatten() =~= Seq::<u8>::empty());
    }
    while i < parts.len()
        invariant
            i <= parts.len(),
            all == parts.deep_view(),
            all.len() == parts.len(),
            out@ == all.take(i as int).flatten(),
        decreases parts.len() - i,
    {
        let part = &parts[i];
        let mut j: usize = 0;
        while j < part.len()
            invariant
                i < parts.len(),
                j <= part.len(),
                all == parts.deep_view(),
                all.len() == parts.len(),
                part == &parts[i as int],
                out@ == all.take(i as int).flatten() + part@.take(j as int),
            decreases part.len() - j,
        {
            out.push(part[j]);
            proof {
                assert(part@.take(j + 1) =~= part@.take(j as int).push(part@[j as int]));
                assert(out@ =~= all.take(i as int).flatten() + part@.take(j + 1));
            }
            j = j + 1;
        }
        proof {
            assert(part@.take(part@.len() as int) =~= part@);
            assert(all[i as int] == part@);
            all.take(i as int).lemma_flatten_push(all[i as int]);
            assert(all.take(i + 1) =~= all.take(i as int).push(all[i as int]));
            assert(out@ =~= all.take(i + 1).flatten());
        }
        i = i + 1;
    }
    proof {
        assert(all.take(all.len() as int) =~= all);
        lemma_flatten_total_len(all);
    }
    out
}

} // verus!
