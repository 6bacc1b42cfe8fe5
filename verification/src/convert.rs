//! What Prometheus answers, as messages of the wire contract.

use crate::double::Double;
use crate::labels;
use crate::labels::Labels;
use crate::pb;
use crate::pb::{
    DownsampleInfo, ErrorModel, LabelPair, QueryError, QueryErrorKind, QueryResult, ResultModel,
    ResultType, Sample, SeriesModel, TimeSeries,
};
use crate::prom;
use crate::text;
use crate::text::{same, trim};
use vstd::prelude::*;

verus! {

/// What every body of the Prometheus HTTP API is wrapped in. A body without
/// `warnings` has none.
#[derive(Debug, PartialEq, Eq)]
pub struct Envelope<D> {
    pub status: String,
    pub data: Option<D>,
    pub warnings: Vec<String>,
    pub error: Option<String>,
    pub error_type: Option<String>,
}

/// One series of a vector: its labels, and one pair of a time in seconds and a
/// value.
#[derive(Debug, PartialEq, Eq)]
pub struct VectorItem {
    pub metric: Labels,
    pub value: (Double, String),
}

/// One series of a matrix: its labels, and any number of such pairs.
#[derive(Debug, PartialEq, Eq)]
pub struct MatrixItem {
    pub metric: Labels,
    pub values: Vec<(Double, String)>,
}

/// The data of a query: the shape that its result claims to have, and what the
/// result reads as in each shape that it may have, or why it does not.
#[derive(Debug, PartialEq, Eq)]
pub struct QueryData {
    pub result_type: String,
    pub vector: Result<Vec<VectorItem>, String>,
    pub matrix: Result<Vec<MatrixItem>, String>,
    pub scalar: Result<(Double, String), String>,
}

/// A body, read twice: as an envelope whose data does not matter, if it is one,
/// and as the envelope that was asked for, or why it is not one.
#[derive(Debug, PartialEq, Eq)]
pub struct Reading<D> {
    pub complaint: Option<Envelope<()>>,
    pub envelope: Result<Envelope<D>, String>,
}

/// Seconds as whole milliseconds, as far as they fit. A NaN has none.
pub open spec fn ms_of(seconds: Double) -> int {
    if seconds.nan() {
        0
    } else if seconds.negative() {
        if seconds.finite() && seconds.thousandfold() <= 0x8000_0000_0000_0000 {
            -seconds.thousandfold()
        } else {
            i64::MIN as int
        }
    } else {
        if seconds.finite() && seconds.thousandfold() < 0x8000_0000_0000_0000 {
            seconds.thousandfold() as int
        } else {
            i64::MAX as int
        }
    }
}

/// Prometheus sends seconds; the wire contract is milliseconds.
pub fn to_ms(seconds: Double) -> (r: i64)
    ensures
        r == ms_of(seconds),
{
    let negative: bool = seconds.bits >= 0x8000_0000_0000_0000;
    let finite: bool = (seconds.bits / 0x10_0000_0000_0000) % 0x800 != 0x7ff;
    let fraction: u64 = seconds.bits % 0x10_0000_0000_0000;
    if !finite && fraction != 0 {
        return 0;
    }
    if finite {
        let size: u64 = seconds.times_thousand();
        if size < 0x8000_0000_0000_0000 {
            return if negative {
                -(size as i64)
            } else {
                size as i64
            };
        }
    }
    if negative {
        i64::MIN
    } else {
        i64::MAX
    }
}

/// The kind of a failure that came with an HTTP status and, where upstream gave
/// one, an `errorType`.
pub open spec fn kind_of(status: u16, error_type: Option<Seq<char>>) -> QueryErrorKind {
    let by_type: Option<QueryErrorKind> = match error_type {
        Some(t) => kind_of_type(t),
        None => None,
    };
    match by_type {
        Some(kind) => kind,
        None => kind_of_status(status),
    }
}

/// The kind of an `errorType`, where it is one of those that Prometheus has.
pub open spec fn kind_of_type(t: Seq<char>) -> Option<QueryErrorKind> {
    if t == "bad_data"@ || t == "not_acceptable"@ {
        Some(QueryErrorKind::QueryErrorBadQuery)
    } else if t == "timeout"@ || t == "canceled"@ {
        Some(QueryErrorKind::QueryErrorTimeout)
    } else if t == "unavailable"@ {
        Some(QueryErrorKind::QueryErrorUpstreamUnreachable)
    } else if t == "execution"@ || t == "internal"@ {
        Some(QueryErrorKind::QueryErrorUpstreamError)
    } else {
        None
    }
}

/// The kind of an HTTP status.
pub open spec fn kind_of_status(status: u16) -> QueryErrorKind {
    if status == 400 || status == 422 {
        QueryErrorKind::QueryErrorBadQuery
    } else if status == 401 || status == 403 {
        QueryErrorKind::QueryErrorUnauthorized
    } else if status == 503 {
        QueryErrorKind::QueryErrorTimeout
    } else if status >= 500 {
        QueryErrorKind::QueryErrorUpstreamError
    } else {
        QueryErrorKind::QueryErrorUnspecified
    }
}

/// `errorType` wins over the status code, which a proxy may have rewritten.
pub fn kind_for(status: u16, error_type: Option<&str>) -> (r: QueryErrorKind)
    ensures
        r == kind_of(
            status,
            match error_type {
                Some(t) => Some(t@),
                None => None,
            },
        ),
{
    if let Some(t) = error_type {
        if same(t, "bad_data") || same(t, "not_acceptable") {
            return QueryErrorKind::QueryErrorBadQuery;
        }
        if same(t, "timeout") || same(t, "canceled") {
            return QueryErrorKind::QueryErrorTimeout;
        }
        if same(t, "unavailable") {
            return QueryErrorKind::QueryErrorUpstreamUnreachable;
        }
        if same(t, "execution") || same(t, "internal") {
            return QueryErrorKind::QueryErrorUpstreamError;
        }
    }
    if status == 400 || status == 422 {
        QueryErrorKind::QueryErrorBadQuery
    } else if status == 401 || status == 403 {
        QueryErrorKind::QueryErrorUnauthorized
    } else if status == 503 {
        QueryErrorKind::QueryErrorTimeout
    } else if status >= 500 {
        QueryErrorKind::QueryErrorUpstreamError
    } else {
        QueryErrorKind::QueryErrorUnspecified
    }
}

/// What a result or an error says.
pub open spec fn said<T: View, E: View>(r: Result<T, E>) -> Result<T::V, E::V> {
    match r {
        Ok(t) => Ok(t@),
        Err(e) => Err(e@),
    }
}

/// A failure upstream, in these words.
pub open spec fn upstream_error(message: Seq<char>) -> ErrorModel {
    ErrorModel { kind: QueryErrorKind::QueryErrorUpstreamError, message }
}

/// The failure that a body reports under an HTTP status: in its own words where
/// it is an envelope with an error, else word for word, without white space
/// around it.
pub open spec fn complaint_error(
    status: u16,
    body: Seq<char>,
    complaint: Option<Envelope<()>>,
) -> ErrorModel {
    ErrorModel {
        kind: kind_of(
            status,
            match complaint {
                Some(e) => text::text_opt(e.error_type),
                None => None,
            },
        ),
        message: match complaint {
            Some(Envelope { error: Some(words), .. }) => words@,
            _ => text::trimmed(body),
        },
    }
}

/// A non-2xx or `status: error` body becomes the wire error type.
pub fn query_error(status: u16, body: &str, complaint: &Option<Envelope<()>>) -> (r: QueryError)
    ensures
        r@ == complaint_error(status, body@, *complaint),
{
    match complaint {
        Some(e) => {
            let message = match &e.error {
                Some(words) => words.clone(),
                None => trim(body),
            };
            let kind = match &e.error_type {
                Some(t) => kind_for(status, Some(t.as_str())),
                None => kind_for(status, None),
            };
            QueryError { kind, message }
        },
        None => QueryError { kind: kind_for(status, None), message: trim(body) },
    }
}

/// Upstream could not be reached at all.
pub fn unreachable(detail: &str) -> (r: QueryError)
    ensures
        r@ == (ErrorModel {
            kind: QueryErrorKind::QueryErrorUpstreamUnreachable,
            message: detail@,
        }),
{
    QueryError {
        kind: QueryErrorKind::QueryErrorUpstreamUnreachable,
        message: detail.to_owned(),
    }
}

/// A failure upstream, in `lead` and then `detail`.
fn upstream(lead: &str, detail: &str) -> (r: QueryError)
    ensures
        r@ == upstream_error(lead@ + detail@),
{
    QueryError {
        kind: QueryErrorKind::QueryErrorUpstreamError,
        message: text::join(lead, detail),
    }
}

/// A result that does not have the shape that was asked for.
pub fn unparsable(detail: &str) -> (r: QueryError)
    ensures
        r@ == upstream_error("unexpected result shape: "@ + detail@),
{
    upstream("unexpected result shape: ", detail)
}

/// Labels as pairs, in the order of their names.
pub fn pairs(set: Labels) -> (r: Vec<LabelPair>)
    ensures
        pb::pair_models(r@) == set@,
        labels::ordered(set@),
{
    let mut out: Vec<LabelPair> = Vec::new();
    let ghost all = set@;
    let entries = set.into_entries();
    assert(entries@.len() == all.len());
    for entry in it: entries
        invariant
            it.seq() == entries@,
            labels::entry_texts(entries@) == all,
            pb::pair_models(out@) == all.take(it.index()),
    {
        let ghost at = it.index();
        assert(all[at] == (entry.0@, entry.1@));
        let pair = LabelPair { name: entry.0, value: entry.1 };
        let ghost before = out@;
        assert(pb::pair_models(before.push(pair)) == pb::pair_models(before).push(pair@));
        out.push(pair);
        assert(all.take(at + 1) == all.take(at).push(all[at]));
    }
    assert(all.take(all.len() as int) == all);
    out
}

/// The sample of a time in seconds and a value: the value is kept as it is
/// written.
pub open spec fn sample_of(point: (Double, String)) -> (i64, Seq<char>) {
    (ms_of(point.0) as i64, point.1@)
}

/// The samples of some points, one for each, in their order.
pub open spec fn samples_of(points: Seq<(Double, String)>) -> Seq<(i64, Seq<char>)> {
    points.map_values(|p: (Double, String)| sample_of(p))
}

/// The series of a vector: one for each item, in their order, with the one
/// sample that the item has.
pub open spec fn vector_series(items: Seq<VectorItem>) -> Seq<SeriesModel> {
    items.map_values(
        |i: VectorItem| SeriesModel { labels: i.metric@, samples: seq![sample_of(i.value)] },
    )
}

/// The series of a matrix: one for each item, in their order, with every sample
/// that the item has.
pub open spec fn matrix_series(items: Seq<MatrixItem>) -> Seq<SeriesModel> {
    items.map_values(
        |i: MatrixItem| SeriesModel { labels: i.metric@, samples: samples_of(i.values@) },
    )
}

/// The series of a scalar: one, without labels.
pub open spec fn scalar_series(point: (Double, String)) -> Seq<SeriesModel> {
    seq![SeriesModel { labels: Seq::empty(), samples: seq![sample_of(point)] }]
}

/// The sample of a point.
fn to_sample(point: (Double, String)) -> (r: Sample)
    ensures
        r@ == sample_of(point),
{
    Sample { t_ms: to_ms(point.0), v: point.1 }
}

/// The samples of some points.
fn to_samples(points: Vec<(Double, String)>) -> (r: Vec<Sample>)
    ensures
        pb::sample_models(r@) == samples_of(points@),
{
    let mut out: Vec<Sample> = Vec::new();
    let ghost all = samples_of(points@);
    for point in it: points
        invariant
            it.seq() == points@,
            all == samples_of(points@),
            pb::sample_models(out@) == all.take(it.index()),
    {
        let ghost at = it.index();
        assert(all[at] == sample_of(point));
        let sample = to_sample(point);
        let ghost before = out@;
        assert(pb::sample_models(before.push(sample)) == pb::sample_models(before).push(sample@));
        out.push(sample);
        assert(all.take(at + 1) == all.take(at).push(all[at]));
    }
    assert(all.take(all.len() as int) == all);
    out
}

/// The one sample of a point, as the samples of a series.
fn one_sample(point: (Double, String)) -> (r: Vec<Sample>)
    ensures
        pb::sample_models(r@) == seq![sample_of(point)],
{
    let mut out: Vec<Sample> = Vec::new();
    out.push(to_sample(point));
    out
}

/// The series of a vector.
fn from_vector(items: Vec<VectorItem>) -> (r: Vec<TimeSeries>)
    ensures
        pb::series_models(r@) == vector_series(items@),
{
    let mut out: Vec<TimeSeries> = Vec::new();
    let ghost all = vector_series(items@);
    for item in it: items
        invariant
            it.seq() == items@,
            all == vector_series(items@),
            pb::series_models(out@) == all.take(it.index()),
    {
        let ghost at = it.index();
        assert(all[at] == (SeriesModel {
            labels: item.metric@,
            samples: seq![sample_of(item.value)],
        }));
        let series = TimeSeries { labels: pairs(item.metric), samples: one_sample(item.value) };
        let ghost before = out@;
        assert(pb::series_models(before.push(series)) == pb::series_models(before).push(series@));
        out.push(series);
        assert(all.take(at + 1) == all.take(at).push(all[at]));
    }
    assert(all.take(all.len() as int) == all);
    out
}

/// The series of a matrix.
fn from_matrix(items: Vec<MatrixItem>) -> (r: Vec<TimeSeries>)
    ensures
        pb::series_models(r@) == matrix_series(items@),
{
    let mut out: Vec<TimeSeries> = Vec::new();
    let ghost all = matrix_series(items@);
    for item in it: items
        invariant
            it.seq() == items@,
            all == matrix_series(items@),
            pb::series_models(out@) == all.take(it.index()),
    {
        let ghost at = it.index();
        assert(all[at] == (SeriesModel {
            labels: item.metric@,
            samples: samples_of(item.values@),
        }));
        let series = TimeSeries { labels: pairs(item.metric), samples: to_samples(item.values) };
        let ghost before = out@;
        assert(pb::series_models(before.push(series)) == pb::series_models(before).push(series@));
        out.push(series);
        assert(all.take(at + 1) == all.take(at).push(all[at]));
    }
    assert(all.take(all.len() as int) == all);
    out
}

/// The series of a scalar.
fn from_scalar(point: (Double, String)) -> (r: Vec<TimeSeries>)
    ensures
        pb::series_models(r@) == scalar_series(point),
{
    let mut out: Vec<TimeSeries> = Vec::new();
    let series = TimeSeries { labels: Vec::new(), samples: one_sample(point) };
    assert(series@.labels == Seq::<(Seq<char>, Seq<char>)>::empty());
    out.push(series);
    assert(pb::series_models(out@) == seq![series@]);
    out
}

/// How many samples some series have between them.
pub open spec fn total_samples(series: Seq<SeriesModel>) -> nat
    decreases series.len(),
{
    if series.len() == 0 {
        0
    } else {
        total_samples(series.drop_last()) + series.last().samples.len()
    }
}

/// The last 32 bits of a number, as a signed one.
pub open spec fn low_bits(n: nat) -> int {
    let m = n as int % 0x1_0000_0000;
    if m < 0x8000_0000 {
        m
    } else {
        m - 0x1_0000_0000
    }
}

/// How many samples some series have, as far as the wire type tells.
fn count_points(series: &Vec<TimeSeries>) -> (r: i32)
    ensures
        r == low_bits(total_samples(pb::series_models(series@))),
{
    let ghost all = pb::series_models(series@);
    let n: usize = series.len();
    let mut i: usize = 0;
    let mut sum: u64 = 0;
    while i < n
        invariant
            i <= n,
            n == series@.len(),
            all == pb::series_models(series@),
            sum < 0x1_0000_0000,
            sum == total_samples(all.take(i as int)) % 0x1_0000_0000,
        decreases n - i,
    {
        let here: u64 = series[i].samples.len() as u64;
        assert(here == all[i as int].samples.len());
        assert(all.take(i + 1).drop_last() == all.take(i as int));
        assert(all.take(i + 1).last() == all[i as int]);
        sum = (sum + here % 0x1_0000_0000) % 0x1_0000_0000;
        i = i + 1;
    }
    assert(all.take(n as int) == all);
    if sum < 0x8000_0000 {
        sum as i32
    } else {
        (sum as i64 - 0x1_0000_0000) as i32
    }
}

/// The series of a query's data, and the shape that they have.
pub open spec fn shaped(data: QueryData) -> Result<(ResultType, Seq<SeriesModel>), ErrorModel> {
    if data.result_type@ == "vector"@ {
        match data.vector {
            Ok(items) => Ok((ResultType::Vector, vector_series(items@))),
            Err(e) => Err(upstream_error("unexpected result shape: "@ + e@)),
        }
    } else if data.result_type@ == "matrix"@ {
        match data.matrix {
            Ok(items) => Ok((ResultType::Matrix, matrix_series(items@))),
            Err(e) => Err(upstream_error("unexpected result shape: "@ + e@)),
        }
    } else if data.result_type@ == "scalar"@ || data.result_type@ == "string"@ {
        match data.scalar {
            Ok(point) => Ok((ResultType::Scalar, scalar_series(point))),
            Err(e) => Err(upstream_error("unexpected result shape: "@ + e@)),
        }
    } else {
        Err(upstream_error("unsupported resultType "@ + data.result_type@))
    }
}

/// What a query is answered for a body that reads as `read`.
pub open spec fn query_answer(
    body: Seq<char>,
    read: Reading<QueryData>,
    upstream_duration_ms: i64,
    downsample: Option<DownsampleInfo>,
) -> Result<ResultModel, ErrorModel> {
    match read.envelope {
        Err(e) => Err(upstream_error("unparsable upstream response: "@ + e@)),
        Ok(env) => if env.status@ != "success"@ {
            Err(complaint_error(200, body, read.complaint))
        } else {
            match env.data {
                None => Err(upstream_error("upstream reported success with no data"@)),
                Some(data) => match shaped(data) {
                    Err(e) => Err(e),
                    Ok((result_type, series)) => Ok(
                        ResultModel {
                            result_type,
                            series,
                            warnings: text::texts(env.warnings@),
                            downsample: counted(downsample, series),
                            upstream_duration_ms,
                        },
                    ),
                },
            }
        },
    }
}

/// What is said of the thinning out, with the points that were returned.
pub open spec fn counted(
    downsample: Option<DownsampleInfo>,
    series: Seq<SeriesModel>,
) -> Option<DownsampleInfo> {
    match downsample {
        Some(d) => Some(
            DownsampleInfo { points_returned: low_bits(total_samples(series)) as i32, ..d },
        ),
        None => None,
    }
}

/// The series of a query's data, in the shape that it claims to have.
fn shape(data: QueryData) -> (r: Result<(ResultType, Vec<TimeSeries>), QueryError>)
    ensures
        match r {
            Ok((result_type, series)) => shaped(data) == Ok::<
                (ResultType, Seq<SeriesModel>),
                ErrorModel,
            >((result_type, pb::series_models(series@))),
            Err(e) => shaped(data) == Err::<(ResultType, Seq<SeriesModel>), ErrorModel>(e@),
        },
{
    let claimed = data.result_type.as_str();
    if same(claimed, "vector") {
        match data.vector {
            Ok(items) => Ok((ResultType::Vector, from_vector(items))),
            Err(e) => Err(unparsable(e.as_str())),
        }
    } else if same(claimed, "matrix") {
        match data.matrix {
            Ok(items) => Ok((ResultType::Matrix, from_matrix(items))),
            Err(e) => Err(unparsable(e.as_str())),
        }
    } else if same(claimed, "scalar") || same(claimed, "string") {
        match data.scalar {
            Ok(point) => Ok((ResultType::Scalar, from_scalar(point))),
            Err(e) => Err(unparsable(e.as_str())),
        }
    } else {
        Err(upstream("unsupported resultType ", claimed))
    }
}

/// Converts a successful `/api/v1/query` or `/query_range` body.
pub fn query_result(
    body: &str,
    read: Reading<QueryData>,
    upstream_duration_ms: i64,
    downsample: Option<DownsampleInfo>,
) -> (r: Result<QueryResult, QueryError>)
    ensures
        said(r) == query_answer(body@, read, upstream_duration_ms, downsample),
{
    let env = match read.envelope {
        Ok(env) => env,
        Err(e) => {
            return Err(upstream("unparsable upstream response: ", e.as_str()));
        },
    };
    if !same(env.status.as_str(), "success") {
        return Err(query_error(200, body, &read.complaint));
    }
    let data = match env.data {
        Some(data) => data,
        None => {
            let e = upstream("upstream reported success with no data", "");
            proof {
                reveal_strlit("");
                assert("upstream reported success with no data"@ + ""@
                    == "upstream reported success with no data"@);
            }
            return Err(e);
        },
    };
    let (result_type, series) = match shape(data) {
        Ok(shaped) => shaped,
        Err(e) => {
            return Err(e);
        },
    };
    let downsample = match downsample {
        Some(d) => Some(
            DownsampleInfo {
                step_ms: d.step_ms,
                points_returned: count_points(&series),
                decimated: d.decimated,
            },
        ),
        None => None,
    };
    Ok(
        QueryResult {
            result_type,
            series,
            warnings: env.warnings,
            downsample,
            upstream_duration_ms,
        },
    )
}

/// What a list of strings is answered for a body that reads as `read`: the
/// strings and the warnings.
pub open spec fn list_answer(body: Seq<char>, read: Reading<Vec<String>>) -> Result<
    (Seq<Seq<char>>, Seq<Seq<char>>),
    ErrorModel,
> {
    match read.envelope {
        Err(e) => Err(upstream_error("unexpected result shape: "@ + e@)),
        Ok(env) => if env.status@ != "success"@ {
            Err(complaint_error(200, body, read.complaint))
        } else {
            Ok(
                (
                    match env.data {
                        Some(list) => text::texts(list@),
                        None => Seq::empty(),
                    },
                    text::texts(env.warnings@),
                ),
            )
        },
    }
}

/// `/api/v1/labels` and `/api/v1/label/<name>/values` share this shape.
pub fn string_list(body: &str, read: Reading<Vec<String>>) -> (r: Result<
    (Vec<String>, Vec<String>),
    QueryError,
>)
    ensures
        match r {
            Ok((list, warnings)) => list_answer(body@, read) == Ok::<
                (Seq<Seq<char>>, Seq<Seq<char>>),
                ErrorModel,
            >((text::texts(list@), text::texts(warnings@))),
            Err(e) => list_answer(body@, read) == Err::<
                (Seq<Seq<char>>, Seq<Seq<char>>),
                ErrorModel,
            >(e@),
        },
{
    let env = match read.envelope {
        Ok(env) => env,
        Err(e) => {
            return Err(unparsable(e.as_str()));
        },
    };
    if !same(env.status.as_str(), "success") {
        return Err(query_error(200, body, &read.complaint));
    }
    let list = match env.data {
        Some(list) => list,
        None => {
            let none: Vec<String> = Vec::new();
            assert(text::texts(none@) == Seq::<Seq<char>>::empty());
            none
        },
    };
    Ok((list, env.warnings))
}

/// The series of some label sets: one for each, in their order, without samples.
pub open spec fn bare_series(sets: Seq<Labels>) -> Seq<SeriesModel> {
    sets.map_values(|l: Labels| SeriesModel { labels: l@, samples: Seq::empty() })
}

/// What a list of series is answered for a body that reads as `read`.
pub open spec fn series_answer(body: Seq<char>, read: Reading<Vec<Labels>>) -> Result<
    Seq<SeriesModel>,
    ErrorModel,
> {
    match read.envelope {
        Err(e) => Err(upstream_error("unexpected result shape: "@ + e@)),
        Ok(env) => if env.status@ != "success"@ {
            Err(complaint_error(200, body, read.complaint))
        } else {
            Ok(
                match env.data {
                    Some(sets) => bare_series(sets@),
                    None => Seq::empty(),
                },
            )
        },
    }
}

/// `/api/v1/series` returns label sets with no samples.
pub fn series_list(body: &str, read: Reading<Vec<Labels>>) -> (r: Result<
    Vec<TimeSeries>,
    QueryError,
>)
    ensures
        match r {
            Ok(series) => series_answer(body@, read) == Ok::<Seq<SeriesModel>, ErrorModel>(
                pb::series_models(series@),
            ),
            Err(e) => series_answer(body@, read) == Err::<Seq<SeriesModel>, ErrorModel>(e@),
        },
{
    let env = match read.envelope {
        Ok(env) => env,
        Err(e) => {
            return Err(unparsable(e.as_str()));
        },
    };
    if !same(env.status.as_str(), "success") {
        return Err(query_error(200, body, &read.complaint));
    }
    let mut out: Vec<TimeSeries> = Vec::new();
    assert(pb::series_models(out@) == Seq::<SeriesModel>::empty());
    if let Some(sets) = env.data {
        let ghost all = bare_series(sets@);
        for set in it: sets
            invariant
                it.seq() == sets@,
                all == bare_series(sets@),
                pb::series_models(out@) == all.take(it.index()),
        {
            let ghost at = it.index();
            assert(all[at] == (SeriesModel { labels: set@, samples: Seq::empty() }));
            let series = TimeSeries { labels: pairs(set), samples: Vec::new() };
            assert(series@.samples == Seq::<(i64, Seq<char>)>::empty());
            let ghost before = out@;
            assert(pb::series_models(before.push(series)) == pb::series_models(before).push(
                series@,
            ));
            out.push(series);
            assert(all.take(at + 1) == all.take(at).push(all[at]));
        }
        assert(all.take(all.len() as int) == all);
    }
    Ok(out)
}

/// The whole seconds from `start_ms` to `end_ms`, none where they are inverted.
pub open spec fn span_secs(start_ms: i64, end_ms: i64) -> int {
    if end_ms > start_ms {
        (end_ms - start_ms) / 1000
    } else {
        0
    }
}

/// A point budget, at least one point.
pub open spec fn budget(max_points: i32) -> int {
    if max_points > 1 {
        max_points as int
    } else {
        1
    }
}

/// The step in seconds by which a span is cut up for a point budget.
pub open spec fn step_of(start_ms: i64, end_ms: i64, max_points: i32) -> int {
    let step = span_secs(start_ms, end_ms) / budget(max_points);
    if step > 1 {
        step
    } else {
        1
    }
}

/// Whether the time from `start_ms` to `end_ms` is a number of milliseconds that
/// the machine can hold.
pub open spec fn span_fits(start_ms: i64, end_ms: i64) -> bool {
    i64::MIN <= end_ms - start_ms <= i64::MAX
}

/// Prometheus needs a `step`; the wire contract carries a point budget instead.
pub fn step_secs(start_ms: i64, end_ms: i64, max_points: i32) -> (r: i64)
    requires
        span_fits(start_ms, end_ms),
    ensures
        r == step_of(start_ms, end_ms, max_points),
        1 <= r <= i64::MAX / 1000,
{
    let millis: i64 = end_ms - start_ms;
    let span: i64 = if millis > 0 {
        millis / 1000
    } else {
        0
    };
    let points: i64 = if max_points > 1 {
        max_points as i64
    } else {
        1
    };
    assert(0 <= span / points <= span) by (nonlinear_arith)
        requires
            span >= 0,
            points >= 1,
    ;
    let step: i64 = span / points;
    if step > 1 {
        step
    } else {
        1
    }
}

/// An `errorType` that Prometheus has decides the kind, whatever the status.
pub proof fn law_error_type_wins(t: Seq<char>, status: u16, rewritten: u16)
    requires
        kind_of_type(t) is Some,
    ensures
        kind_of(status, Some(t)) == kind_of(rewritten, Some(t)),
        Some(kind_of(status, Some(t))) == kind_of_type(t),
{
}

/// The message that upstream gave reaches the caller word for word, and nothing
/// of the envelope or of the rest of the body does.
pub proof fn law_upstream_message_is_verbatim(
    status: u16,
    body: Seq<char>,
    other_body: Seq<char>,
    env: Envelope<()>,
    words: String,
)
    requires
        env.error == Some(words),
    ensures
        complaint_error(status, body, Some(env)).message == words@,
        complaint_error(status, body, Some(env)) == complaint_error(status, other_body, Some(env)),
{
}

/// A body that does not report success is never answered with a result, by none
/// of the conversions, and all of them give the failure that it reports.
pub proof fn law_a_reported_failure_is_an_error(
    body: Seq<char>,
    query: Reading<QueryData>,
    list: Reading<Vec<String>>,
    sets: Reading<Vec<Labels>>,
    upstream_duration_ms: i64,
    downsample: Option<DownsampleInfo>,
)
    ensures
        query.envelope matches Ok(env) && env.status@ != "success"@ ==> query_answer(
            body,
            query,
            upstream_duration_ms,
            downsample,
        ) == Err::<ResultModel, ErrorModel>(complaint_error(200, body, query.complaint)),
        list.envelope matches Ok(env) && env.status@ != "success"@ ==> list_answer(body, list)
            == Err::<(Seq<Seq<char>>, Seq<Seq<char>>), ErrorModel>(
            complaint_error(200, body, list.complaint),
        ),
        sets.envelope matches Ok(env) && env.status@ != "success"@ ==> series_answer(body, sets)
            == Err::<Seq<SeriesModel>, ErrorModel>(complaint_error(200, body, sets.complaint)),
{
}

/// A body that cannot be read is a failure upstream, for every conversion.
pub proof fn law_an_unreadable_body_is_an_upstream_error(
    body: Seq<char>,
    query: Reading<QueryData>,
    list: Reading<Vec<String>>,
    sets: Reading<Vec<Labels>>,
    upstream_duration_ms: i64,
    downsample: Option<DownsampleInfo>,
)
    ensures
        query.envelope is Err ==> (query_answer(
            body,
            query,
            upstream_duration_ms,
            downsample,
        ) matches Err(e) && e.kind == QueryErrorKind::QueryErrorUpstreamError),
        list.envelope is Err ==> (list_answer(body, list) matches Err(e) && e.kind
            == QueryErrorKind::QueryErrorUpstreamError),
        sets.envelope is Err ==> (series_answer(body, sets) matches Err(e) && e.kind
            == QueryErrorKind::QueryErrorUpstreamError),
{
}

/// How many points the items of a matrix have between them.
pub open spec fn total_points(items: Seq<MatrixItem>) -> nat
    decreases items.len(),
{
    if items.len() == 0 {
        0
    } else {
        total_points(items.drop_last()) + items.last().values@.len()
    }
}

/// A matrix keeps every series and every sample.
pub proof fn law_a_matrix_keeps_every_sample(items: Seq<MatrixItem>)
    ensures
        matrix_series(items).len() == items.len(),
        total_samples(matrix_series(items)) == total_points(items),
        forall|i: int, j: int|
            0 <= i < items.len() && 0 <= j < items[i].values@.len() ==> (
            #[trigger] matrix_series(items)[i].samples[j]) == sample_of(items[i].values@[j]),
    decreases items.len(),
{
    if items.len() > 0 {
        law_a_matrix_keeps_every_sample(items.drop_last());
        assert(matrix_series(items).drop_last() == matrix_series(items.drop_last()));
    }
}

/// A vector has one sample for each series.
pub proof fn law_a_vector_has_one_sample_per_series(items: Seq<VectorItem>)
    ensures
        vector_series(items).len() == items.len(),
        total_samples(vector_series(items)) == items.len(),
        forall|i: int|
            0 <= i < items.len() ==> (#[trigger] vector_series(items)[i]).samples == seq![
                sample_of(items[i].value),
            ],
    decreases items.len(),
{
    if items.len() > 0 {
        law_a_vector_has_one_sample_per_series(items.drop_last());
        assert(vector_series(items).drop_last() == vector_series(items.drop_last()));
    }
}

/// What an answer says of the thinning out is what was said before, with the
/// number of the points that the answer holds.
pub proof fn law_points_returned_are_those_returned(
    body: Seq<char>,
    read: Reading<QueryData>,
    upstream_duration_ms: i64,
    d: DownsampleInfo,
)
    ensures
        query_answer(body, read, upstream_duration_ms, Some(d)) matches Ok(answer) ==> {
            &&& answer.downsample matches Some(told)
            &&& told.step_ms == d.step_ms
            &&& told.decimated == d.decimated
            &&& total_samples(answer.series) <= i32::MAX ==> told.points_returned == total_samples(
                answer.series,
            )
        },
{
}

/// Whole seconds up to 2^53 milliseconds are their thousandfold in
/// milliseconds, of either sign.
pub proof fn law_whole_seconds_are_exact(seconds: Double, n: nat)
    requires
        seconds.finite(),
        seconds.is_whole(n),
        n * 1000 < crate::double::LIMIT,
    ensures
        ms_of(seconds) == (if seconds.negative() {
            -(n * 1000)
        } else {
            (n * 1000) as int
        }),
{
    crate::double::lemma_thousandfold_exact(seconds, n);
}

/// A time comes back as it was sent: below 2^42 seconds on either side of zero,
/// milliseconds are rendered as exactly that many thousandths of a second, and
/// the double nearest to those is the same milliseconds again.
pub proof fn law_a_time_comes_back_unchanged(ms: i64, seconds: Double)
    requires
        prom::size(ms) < crate::double::LIMIT / 2048 * 1000,
        seconds.finite(),
        seconds.negative() == (ms < 0),
        seconds.nears_thousandths(prom::size(ms)),
    ensures
        prom::seconds_text(ms) == prom::fixed_point(ms < 0, prom::size(ms)),
        ms_of(seconds) == ms,
{
    prom::law_milliseconds_render_exactly(ms);
    crate::double::lemma_thousandfold_near(seconds, prom::size(ms));
}

/// A step is at least a second, whatever the span and the budget, and it cuts
/// the span into fewer pieces than twice the budget; into as many as the budget
/// where the budget divides the span.
pub proof fn law_step_follows_the_budget(start_ms: i64, end_ms: i64, max_points: i32)
    ensures
        step_of(start_ms, end_ms, max_points) >= 1,
        span_secs(start_ms, end_ms) / step_of(start_ms, end_ms, max_points) < 2 * budget(max_points),
        span_secs(start_ms, end_ms) >= budget(max_points) && span_secs(start_ms, end_ms) % budget(
            max_points,
        ) == 0 ==> span_secs(start_ms, end_ms) / step_of(start_ms, end_ms, max_points) == budget(
            max_points,
        ),
{
    let span = span_secs(start_ms, end_ms);
    let points = budget(max_points);
    let step = step_of(start_ms, end_ms, max_points);
    let q = span / points;
    let r = span % points;
    assert(span == q * points + r && 0 <= r < points) by (nonlinear_arith)
        requires
            points >= 1,
            q == span / points,
            r == span % points,
    ;
    assert(q >= 0) by (nonlinear_arith)
        requires
            span >= 0,
            points >= 1,
            q == span / points,
    ;
    if q <= 1 {
        assert(span < 2 * points) by (nonlinear_arith)
            requires
                span == q * points + r,
                0 <= q <= 1,
                0 <= r < points,
        ;
        assert(span / 1 == span);
        if q == 1 && r == 0 {
            assert(1 * points == points);
        }
        if q == 0 {
            assert(0 * points == 0);
        }
    } else {
        assert(span / q < 2 * points) by (nonlinear_arith)
            requires
                span == q * points + r,
                q >= 2,
                0 <= r < points,
        ;
        if r == 0 {
            assert(span / q == points) by (nonlinear_arith)
                requires
                    span == q * points,
                    q >= 2,
            ;
        }
    }
}

} // verus!
