//! Laws of the conversion of bodies: what Prometheus wrote is what is told.

use crate::convert;
use crate::convert::{Envelope, MatrixItem, QueryData, Reading, VectorItem};
use crate::double::Double;
use crate::labels::Labels;
use crate::laws::times;
use crate::pb;
use crate::pb::{
    DownsampleInfo, LabelPair, QueryError, QueryErrorKind, QueryResult, ResultType, Sample,
    TimeSeries,
};
use crate::text;
use vstd::prelude::*;

verus! {

/// Whether samples tell points: one sample for each, in their order, at its time
/// and with the value as it is written.
pub open spec fn tell_points(samples: Seq<Sample>, points: Seq<(Double, String)>) -> bool {
    &&& samples.len() == points.len()
    &&& forall|j: int|
        0 <= j < points.len() ==> {
            &&& (#[trigger] samples[j]).v@ == points[j].1@
            &&& times::in_ms(points[j].0, samples[j].t_ms)
        }
}

/// Whether pairs tell a label set: one pair for each label, in their order, with
/// its name and its value.
pub open spec fn tell_labels(pairs: Seq<LabelPair>, set: Labels) -> bool {
    &&& pairs.len() == set@.len()
    &&& forall|k: int|
        0 <= k < set@.len() ==> {
            &&& (#[trigger] pairs[k]).name@ == set@[k].0
            &&& pairs[k].value@ == set@[k].1
        }
}

/// Whether strings tell strings: the same texts, in the same order.
pub open spec fn tell_texts(told: Seq<String>, written: Seq<String>) -> bool {
    &&& told.len() == written.len()
    &&& forall|k: int| 0 <= k < written.len() ==> (#[trigger] told[k])@ == written[k]@
}

/// Whether series tell the items of a vector.
pub open spec fn tell_vector(series: Seq<TimeSeries>, items: Seq<VectorItem>) -> bool {
    &&& series.len() == items.len()
    &&& forall|i: int|
        0 <= i < items.len() ==> {
            &&& tell_labels((#[trigger] series[i]).labels@, items[i].metric)
            &&& tell_points(series[i].samples@, seq![items[i].value])
        }
}

/// Whether series tell the items of a matrix.
pub open spec fn tell_matrix(series: Seq<TimeSeries>, items: Seq<MatrixItem>) -> bool {
    &&& series.len() == items.len()
    &&& forall|i: int|
        0 <= i < items.len() ==> {
            &&& tell_labels((#[trigger] series[i]).labels@, items[i].metric)
            &&& tell_points(series[i].samples@, items[i].values@)
        }
}

/// Whether series tell a scalar: there is one, without labels, with one sample.
pub open spec fn tell_scalar(series: Seq<TimeSeries>, point: (Double, String)) -> bool {
    &&& series.len() == 1
    &&& series[0].labels@.len() == 0
    &&& tell_points(series[0].samples@, seq![point])
}

/// Whether series tell label sets: one for each, in their order, without samples.
pub open spec fn tell_sets(series: Seq<TimeSeries>, sets: Seq<Labels>) -> bool {
    &&& series.len() == sets.len()
    &&& forall|i: int|
        0 <= i < sets.len() ==> {
            &&& tell_labels((#[trigger] series[i]).labels@, sets[i])
            &&& series[i].samples@.len() == 0
        }
}

/// How many samples some series have, counted from the first on.
pub open spec fn count(series: Seq<TimeSeries>) -> nat
    decreases series.len(),
{
    if series.len() == 0 {
        0
    } else {
        series[0].samples@.len() + count(series.drop_first())
    }
}

/// What the models of samples say is what the samples hold.
proof fn lemma_samples(samples: Seq<Sample>, points: Seq<(Double, String)>)
    requires
        pb::sample_models(samples) == convert::samples_of(points),
    ensures
        tell_points(samples, points),
{
    assert(pb::sample_models(samples).len() == samples.len());
    assert(convert::samples_of(points).len() == points.len());
    assert forall|j: int| 0 <= j < points.len() implies {
        &&& (#[trigger] samples[j]).v@ == points[j].1@
        &&& times::in_ms(points[j].0, samples[j].t_ms)
    } by {
        assert(pb::sample_models(samples)[j] == convert::samples_of(points)[j]);
        times::lemma_in_ms(points[j].0);
    }
}

/// What the models of pairs say is what the pairs hold.
proof fn lemma_pairs(pairs: Seq<LabelPair>, set: Labels)
    requires
        pb::pair_models(pairs) == set@,
    ensures
        tell_labels(pairs, set),
{
    assert(pb::pair_models(pairs).len() == set@.len());
    assert(pairs.len() == set@.len());
    assert forall|k: int| 0 <= k < set@.len() implies {
        &&& (#[trigger] pairs[k]).name@ == set@[k].0
        &&& pairs[k].value@ == set@[k].1
    } by {
        assert(pb::pair_models(pairs)[k] == set@[k]);
    }
}

/// What the texts of strings say is what the strings hold.
pub(crate) proof fn lemma_texts(told: Seq<String>, written: Seq<String>)
    requires
        text::texts(told) == text::texts(written),
    ensures
        tell_texts(told, written),
{
    assert(text::texts(told).len() == told.len());
    assert(text::texts(written).len() == written.len());
    assert forall|k: int| 0 <= k < written.len() implies (#[trigger] told[k])@ == written[k]@ by {
        assert(text::texts(told)[k] == text::texts(written)[k]);
    }
}

pub(crate) proof fn lemma_vector(series: Seq<TimeSeries>, items: Seq<VectorItem>)
    requires
        pb::series_models(series) == convert::vector_series(items),
    ensures
        tell_vector(series, items),
{
    assert(pb::series_models(series).len() == series.len());
    assert(convert::vector_series(items).len() == items.len());
    assert forall|i: int| 0 <= i < items.len() implies {
        &&& tell_labels((#[trigger] series[i]).labels@, items[i].metric)
        &&& tell_points(series[i].samples@, seq![items[i].value])
    } by {
        let model = series[i]@;
        assert(pb::series_models(series)[i] == model);
        assert(model == convert::vector_series(items)[i]);
        lemma_pairs(series[i].labels@, items[i].metric);
        assert(convert::samples_of(seq![items[i].value]) == seq![convert::sample_of(
            items[i].value,
        )]);
        lemma_samples(series[i].samples@, seq![items[i].value]);
    }
}

pub(crate) proof fn lemma_matrix(series: Seq<TimeSeries>, items: Seq<MatrixItem>)
    requires
        pb::series_models(series) == convert::matrix_series(items),
    ensures
        tell_matrix(series, items),
{
    assert(pb::series_models(series).len() == series.len());
    assert(convert::matrix_series(items).len() == items.len());
    assert forall|i: int| 0 <= i < items.len() implies {
        &&& tell_labels((#[trigger] series[i]).labels@, items[i].metric)
        &&& tell_points(series[i].samples@, items[i].values@)
    } by {
        let model = series[i]@;
        assert(pb::series_models(series)[i] == model);
        assert(model == convert::matrix_series(items)[i]);
        lemma_pairs(series[i].labels@, items[i].metric);
        lemma_samples(series[i].samples@, items[i].values@);
    }
}

pub(crate) proof fn lemma_scalar(series: Seq<TimeSeries>, point: (Double, String))
    requires
        pb::series_models(series) == convert::scalar_series(point),
    ensures
        tell_scalar(series, point),
{
    assert(pb::series_models(series).len() == 1);
    assert(pb::series_models(series)[0] == convert::scalar_series(point)[0]);
    assert(pb::pair_models(series[0].labels@).len() == 0);
    assert(convert::samples_of(seq![point]) == seq![convert::sample_of(point)]);
    lemma_samples(series[0].samples@, seq![point]);
}

pub(crate) proof fn lemma_sets(series: Seq<TimeSeries>, sets: Seq<Labels>)
    requires
        pb::series_models(series) == convert::bare_series(sets),
    ensures
        tell_sets(series, sets),
{
    assert(pb::series_models(series).len() == series.len());
    assert(convert::bare_series(sets).len() == sets.len());
    assert forall|i: int| 0 <= i < sets.len() implies {
        &&& tell_labels((#[trigger] series[i]).labels@, sets[i])
        &&& series[i].samples@.len() == 0
    } by {
        let model = series[i]@;
        assert(pb::series_models(series)[i] == model);
        assert(model == convert::bare_series(sets)[i]);
        assert(pb::sample_models(series[i].samples@).len() == 0);
        lemma_pairs(series[i].labels@, sets[i]);
    }
}

/// Counting from the first on and counting up to the last is the same.
pub(crate) proof fn lemma_count(series: Seq<TimeSeries>)
    ensures
        convert::total_samples(pb::series_models(series)) == count(series),
    decreases series.len(),
{
    let models = pb::series_models(series);
    if series.len() > 0 {
        lemma_count(series.drop_first());
        lemma_total_from_first(models);
        assert(models.drop_first() == pb::series_models(series.drop_first()));
        assert(models[0].samples.len() == series[0].samples@.len());
    }
}

proof fn lemma_total_from_first(models: Seq<pb::SeriesModel>)
    requires
        models.len() > 0,
    ensures
        convert::total_samples(models) == models[0].samples.len() + convert::total_samples(
            models.drop_first(),
        ),
    decreases models.len(),
{
    if models.len() > 1 {
        lemma_total_from_first(models.drop_last());
        assert(models.drop_last().drop_first() == models.drop_first().drop_last());
    } else {
        assert(convert::total_samples(models.drop_last()) == 0);
        assert(convert::total_samples(models.drop_first()) == 0);
    }
}

/// A vector is told in full: a series for each item, in their order, each with
/// the labels of its item and one sample, whose value is what upstream wrote.
pub proof fn law_a_vector_is_told_in_full(
    body: &str,
    read: Reading<QueryData>,
    took_ms: i64,
    downsample: Option<DownsampleInfo>,
    env: Envelope<QueryData>,
    data: QueryData,
    items: Vec<VectorItem>,
    r: Result<QueryResult, QueryError>,
)
    requires
        call_ensures(convert::query_result, (body, read, took_ms, downsample), r),
        read.envelope == Ok::<Envelope<QueryData>, String>(env),
        env.status@ == "success"@,
        env.data == Some(data),
        data.result_type@ == "vector"@,
        data.vector == Ok::<Vec<VectorItem>, String>(items),
    ensures
        r matches Ok(a) && a.result_type == ResultType::Vector && tell_vector(a.series@, items@)
            && tell_texts(a.warnings@, env.warnings@) && a.upstream_duration_ms == took_ms,
{
    let a = r->Ok_0;
    lemma_vector(a.series@, items@);
    lemma_texts(a.warnings@, env.warnings@);
}

/// A matrix is told in full: a series for each item, in their order, each with
/// the labels of its item and every sample, whose values are what upstream wrote.
pub proof fn law_a_matrix_is_told_in_full(
    body: &str,
    read: Reading<QueryData>,
    took_ms: i64,
    downsample: Option<DownsampleInfo>,
    env: Envelope<QueryData>,
    data: QueryData,
    items: Vec<MatrixItem>,
    r: Result<QueryResult, QueryError>,
)
    requires
        call_ensures(convert::query_result, (body, read, took_ms, downsample), r),
        read.envelope == Ok::<Envelope<QueryData>, String>(env),
        env.status@ == "success"@,
        env.data == Some(data),
        data.result_type@ == "matrix"@,
        data.matrix == Ok::<Vec<MatrixItem>, String>(items),
    ensures
        r matches Ok(a) && a.result_type == ResultType::Matrix && tell_matrix(a.series@, items@)
            && tell_texts(a.warnings@, env.warnings@) && a.upstream_duration_ms == took_ms,
{
    reveal_strlit("vector");
    reveal_strlit("matrix");
    let a = r->Ok_0;
    assert("vector"@[0] != "matrix"@[0]);
    lemma_matrix(a.series@, items@);
    lemma_texts(a.warnings@, env.warnings@);
}

/// A scalar, and a string, is told in full: one series without labels, with one
/// sample, whose value is what upstream wrote.
pub proof fn law_a_scalar_is_told_in_full(
    body: &str,
    read: Reading<QueryData>,
    took_ms: i64,
    downsample: Option<DownsampleInfo>,
    env: Envelope<QueryData>,
    data: QueryData,
    point: (Double, String),
    r: Result<QueryResult, QueryError>,
)
    requires
        call_ensures(convert::query_result, (body, read, took_ms, downsample), r),
        read.envelope == Ok::<Envelope<QueryData>, String>(env),
        env.status@ == "success"@,
        env.data == Some(data),
        data.result_type@ == "scalar"@ || data.result_type@ == "string"@,
        data.scalar == Ok::<(Double, String), String>(point),
    ensures
        r matches Ok(a) && a.result_type == ResultType::Scalar && tell_scalar(a.series@, point)
            && tell_texts(a.warnings@, env.warnings@) && a.upstream_duration_ms == took_ms,
{
    reveal_strlit("vector");
    reveal_strlit("matrix");
    reveal_strlit("scalar");
    reveal_strlit("string");
    let a = r->Ok_0;
    assert(data.result_type@[0] == 's');
    assert("vector"@[0] != 's' && "matrix"@[0] != 's');
    lemma_scalar(a.series@, point);
    lemma_texts(a.warnings@, env.warnings@);
}

/// What is said of the thinning out stays as it was said before, and the points
/// are the samples of the series that are told; as many as the wire type holds.
pub proof fn law_the_points_told_are_counted(
    body: &str,
    read: Reading<QueryData>,
    took_ms: i64,
    downsample: Option<DownsampleInfo>,
    r: Result<QueryResult, QueryError>,
)
    requires
        call_ensures(convert::query_result, (body, read, took_ms, downsample), r),
    ensures
        r matches Ok(a) ==> match downsample {
            None => a.downsample is None,
            Some(d) => {
                &&& a.downsample matches Some(told)
                &&& told.step_ms == d.step_ms
                &&& told.decimated == d.decimated
                &&& count(a.series@) <= i32::MAX ==> told.points_returned == count(a.series@)
                &&& (count(a.series@) - told.points_returned) % 0x1_0000_0000 == 0
            },
        },
{
    if let Ok(a) = r {
        lemma_count(a.series@);
        let n = count(a.series@) as int;
        let m = n % 0x1_0000_0000;
        assert(n == (n / 0x1_0000_0000) * 0x1_0000_0000 + m);
        assert((n - m) % 0x1_0000_0000 == 0);
        assert((n - (m - 0x1_0000_0000)) % 0x1_0000_0000 == 0);
    }
}

/// A query has a result where its body reads as a success whose data has the
/// shape that it claims, and nowhere else.
pub proof fn law_only_a_readable_success_has_a_result(
    body: &str,
    read: Reading<QueryData>,
    took_ms: i64,
    downsample: Option<DownsampleInfo>,
    r: Result<QueryResult, QueryError>,
)
    requires
        call_ensures(convert::query_result, (body, read, took_ms, downsample), r),
    ensures
        r is Ok <==> {
            &&& read.envelope matches Ok(env)
            &&& env.status@ == "success"@
            &&& env.data matches Some(data)
            &&& {
                ||| data.result_type@ == "vector"@ && data.vector is Ok
                ||| data.result_type@ == "matrix"@ && data.matrix is Ok
                ||| data.result_type@ == "scalar"@ && data.scalar is Ok
                ||| data.result_type@ == "string"@ && data.scalar is Ok
            }
        },
{
    reveal_strlit("vector");
    reveal_strlit("matrix");
    reveal_strlit("scalar");
    reveal_strlit("string");
    assert("vector"@[0] == 'v' && "matrix"@[0] == 'm' && "scalar"@[0] == 's' && "string"@[0]
        == 's');
}

/// A body that is not to be read as what was asked for is a failure upstream, in
/// words that end with the reason.
pub proof fn law_an_unreadable_query_says_why(
    body: &str,
    read: Reading<QueryData>,
    took_ms: i64,
    downsample: Option<DownsampleInfo>,
    r: Result<QueryResult, QueryError>,
)
    requires
        call_ensures(convert::query_result, (body, read, took_ms, downsample), r),
    ensures
        read.envelope matches Err(why) ==> (r matches Err(e) && e.kind
            == QueryErrorKind::QueryErrorUpstreamError && e.message@
            == "unparsable upstream response: "@ + why@),
        read.envelope matches Ok(env) && env.status@ == "success"@ && env.data is None ==> (
        r matches Err(e) && e.kind == QueryErrorKind::QueryErrorUpstreamError && e.message@
            == "upstream reported success with no data"@),
        read.envelope matches Ok(env) ==> (env.status@ == "success"@ ==> (env.data matches Some(
            data,
        ) ==> {
            &&& data.result_type@ == "vector"@ && data.vector is Err ==> (r matches Err(e)
                && e.kind == QueryErrorKind::QueryErrorUpstreamError && e.message@
                == "unexpected result shape: "@ + data.vector->Err_0@)
            &&& data.result_type@ == "matrix"@ && data.matrix is Err ==> (r matches Err(e)
                && e.kind == QueryErrorKind::QueryErrorUpstreamError && e.message@
                == "unexpected result shape: "@ + data.matrix->Err_0@)
            &&& data.result_type@ == "scalar"@ && data.scalar is Err ==> (r matches Err(e)
                && e.kind == QueryErrorKind::QueryErrorUpstreamError && e.message@
                == "unexpected result shape: "@ + data.scalar->Err_0@)
            &&& data.result_type@ == "string"@ && data.scalar is Err ==> (r matches Err(e)
                && e.kind == QueryErrorKind::QueryErrorUpstreamError && e.message@
                == "unexpected result shape: "@ + data.scalar->Err_0@)
            &&& data.result_type@ != "vector"@ && data.result_type@ != "matrix"@
                && data.result_type@ != "scalar"@ && data.result_type@ != "string"@ ==> (
            r matches Err(e) && e.kind == QueryErrorKind::QueryErrorUpstreamError && e.message@
                == "unsupported resultType "@ + data.result_type@)
        })),
{
    reveal_strlit("vector");
    reveal_strlit("matrix");
    reveal_strlit("scalar");
    reveal_strlit("string");
    assert("vector"@[0] == 'v' && "matrix"@[0] == 'm' && "scalar"@[0] == 's' && "string"@[0]
        == 's');
}

/// A list of strings is told in full, with its warnings, and a body without one
/// is an empty list. Nothing but a readable success is a list.
pub proof fn law_a_list_is_told_in_full(
    body: &str,
    read: Reading<Vec<String>>,
    r: Result<(Vec<String>, Vec<String>), QueryError>,
)
    requires
        call_ensures(convert::string_list, (body, read), r),
    ensures
        r is Ok <==> (read.envelope matches Ok(env) && env.status@ == "success"@),
        r matches Ok(told) ==> {
            &&& read.envelope matches Ok(env)
            &&& tell_texts(told.1@, env.warnings@)
            &&& match env.data {
                Some(list) => tell_texts(told.0@, list@),
                None => told.0@.len() == 0,
            }
        },
        read.envelope matches Err(why) ==> (r matches Err(e) && e.kind
            == QueryErrorKind::QueryErrorUpstreamError && e.message@
            == "unexpected result shape: "@ + why@),
{
    if let Ok(told) = r {
        let env = read.envelope->Ok_0;
        lemma_texts(told.1@, env.warnings@);
        match env.data {
            Some(list) => {
                lemma_texts(told.0@, list@);
            },
            None => {
                assert(text::texts(told.0@).len() == 0);
            },
        }
    }
}

/// A list of label sets is told in full: a series for each, in their order, with
/// its labels and without samples; none for a body without sets. Nothing but a
/// readable success is such a list.
pub proof fn law_label_sets_are_told_in_full(
    body: &str,
    read: Reading<Vec<Labels>>,
    r: Result<Vec<TimeSeries>, QueryError>,
)
    requires
        call_ensures(convert::series_list, (body, read), r),
    ensures
        r is Ok <==> (read.envelope matches Ok(env) && env.status@ == "success"@),
        r matches Ok(series) ==> match read.envelope->Ok_0.data {
            Some(sets) => tell_sets(series@, sets@),
            None => series@.len() == 0,
        },
        read.envelope matches Err(why) ==> (r matches Err(e) && e.kind
            == QueryErrorKind::QueryErrorUpstreamError && e.message@
            == "unexpected result shape: "@ + why@),
{
    if let Ok(series) = r {
        match read.envelope->Ok_0.data {
            Some(sets) => {
                lemma_sets(series@, sets@);
            },
            None => {
                assert(pb::series_models(series@).len() == 0);
            },
        }
    }
}

/// The pairs of a label set tell it.
pub proof fn law_pairs_tell_the_labels(set: Labels, r: Vec<LabelPair>)
    requires
        call_ensures(convert::pairs, (set,), r),
    ensures
        tell_labels(r@, set),
{
    lemma_pairs(r@, set);
}

/// A failure that a body reports is told in the body's own words where it is an
/// envelope with an error, and else in the words of the body; its kind is that of
/// the status and of the `errorType` in the envelope.
pub proof fn law_a_reported_failure_is_told(
    status: u16,
    body: &str,
    complaint: &Option<Envelope<()>>,
    r: QueryError,
    trimmed: String,
    kind: QueryErrorKind,
    error_type: Option<&str>,
)
    requires
        call_ensures(convert::query_error, (status, body, complaint), r),
        call_ensures(text::trim, (body,), trimmed),
        call_ensures(convert::kind_for, (status, error_type), kind),
        match *complaint {
            Some(Envelope { error_type: Some(t), .. }) => error_type matches Some(s) && s@ == t@,
            _ => error_type is None,
        },
    ensures
        r.kind == kind,
        *complaint matches Some(e) ==> (e.error matches Some(words) ==> r.message@ == words@),
        !(*complaint matches Some(e) && e.error is Some) ==> r.message@ == trimmed@,
{
}

/// Where a body reports a failure under a status of success, every conversion
/// tells it as it would be told under a status of 200.
pub proof fn law_a_failure_in_the_body_is_told(
    body: &str,
    query: Reading<QueryData>,
    took_ms: i64,
    downsample: Option<DownsampleInfo>,
    list: Reading<Vec<String>>,
    sets: Reading<Vec<Labels>>,
    of_query: Result<QueryResult, QueryError>,
    of_list: Result<(Vec<String>, Vec<String>), QueryError>,
    of_sets: Result<Vec<TimeSeries>, QueryError>,
    told: QueryError,
)
    requires
        call_ensures(convert::query_result, (body, query, took_ms, downsample), of_query),
        call_ensures(convert::string_list, (body, list), of_list),
        call_ensures(convert::series_list, (body, sets), of_sets),
        call_ensures(convert::query_error, (200u16, body, &query.complaint), told),
        query.complaint == list.complaint,
        query.complaint == sets.complaint,
    ensures
        query.envelope matches Ok(env) && env.status@ != "success"@ ==> (of_query matches Err(e)
            && e.kind == told.kind && e.message@ == told.message@),
        list.envelope matches Ok(env) && env.status@ != "success"@ ==> (of_list matches Err(e)
            && e.kind == told.kind && e.message@ == told.message@),
        sets.envelope matches Ok(env) && env.status@ != "success"@ ==> (of_sets matches Err(e)
            && e.kind == told.kind && e.message@ == told.message@),
{
}

/// Upstream that was not reached, and a result of another shape, are told with
/// the reason.
pub proof fn law_failures_keep_their_reason(detail: &str, away: QueryError, odd: QueryError)
    requires
        call_ensures(convert::unreachable, (detail,), away),
        call_ensures(convert::unparsable, (detail,), odd),
    ensures
        away.kind == QueryErrorKind::QueryErrorUpstreamUnreachable,
        away.message@ == detail@,
        odd.kind == QueryErrorKind::QueryErrorUpstreamError,
        odd.message@ == "unexpected result shape: "@ + detail@,
{
}

/// The first characters that tell the `errorType`s apart.
proof fn lemma_error_types()
    ensures
        "bad_data"@.len() == 8 && "bad_data"@[0] == 'b',
        "not_acceptable"@.len() == 14,
        "timeout"@.len() == 7,
        "canceled"@.len() == 8 && "canceled"@[0] == 'c',
        "unavailable"@.len() == 11,
        "execution"@.len() == 9,
        "internal"@.len() == 8 && "internal"@[0] == 'i',
{
    reveal_strlit("bad_data");
    reveal_strlit("not_acceptable");
    reveal_strlit("timeout");
    reveal_strlit("canceled");
    reveal_strlit("unavailable");
    reveal_strlit("execution");
    reveal_strlit("internal");
}

/// An `errorType` that Prometheus has fixes the kind, whatever the status is.
pub proof fn law_known_error_types_decide(status: u16, t: &str, r: QueryErrorKind)
    requires
        call_ensures(convert::kind_for, (status, Some(t)), r),
    ensures
        t@ == "bad_data"@ ==> r == QueryErrorKind::QueryErrorBadQuery,
        t@ == "not_acceptable"@ ==> r == QueryErrorKind::QueryErrorBadQuery,
        t@ == "timeout"@ ==> r == QueryErrorKind::QueryErrorTimeout,
        t@ == "canceled"@ ==> r == QueryErrorKind::QueryErrorTimeout,
        t@ == "unavailable"@ ==> r == QueryErrorKind::QueryErrorUpstreamUnreachable,
        t@ == "execution"@ ==> r == QueryErrorKind::QueryErrorUpstreamError,
        t@ == "internal"@ ==> r == QueryErrorKind::QueryErrorUpstreamError,
{
    lemma_error_types();
}

/// Without an `errorType`, or with one that Prometheus does not have, the status
/// fixes the kind, the same in both cases.
pub proof fn law_else_the_status_decides(
    status: u16,
    t: &str,
    with: QueryErrorKind,
    without: QueryErrorKind,
)
    requires
        call_ensures(convert::kind_for, (status, Some(t)), with),
        call_ensures(convert::kind_for, (status, None), without),
    ensures
        t@ != "bad_data"@ && t@ != "not_acceptable"@ && t@ != "timeout"@ && t@ != "canceled"@
            && t@ != "unavailable"@ && t@ != "execution"@ && t@ != "internal"@ ==> with == without,
        without == QueryErrorKind::QueryErrorBadQuery <==> status == 400 || status == 422,
        without == QueryErrorKind::QueryErrorUnauthorized <==> status == 401 || status == 403,
        without == QueryErrorKind::QueryErrorTimeout <==> status == 503,
        without == QueryErrorKind::QueryErrorUpstreamError <==> status >= 500 && status != 503,
        without != QueryErrorKind::QueryErrorUpstreamUnreachable,
        without != QueryErrorKind::QueryErrorLimitExceeded,
{
}

/// The step is the longest one, in whole seconds, at which the span still has as
/// many points as the budget allows, and never less than a second. A budget
/// below one counts as one.
pub proof fn law_the_step_is_the_longest_that_fills_the_budget(
    start_ms: i64,
    end_ms: i64,
    max_points: i32,
    r: i64,
)
    requires
        convert::span_fits(start_ms, end_ms),
        call_ensures(convert::step_secs, (start_ms, end_ms, max_points), r),
    ensures
        r >= 1,
        r > 1 ==> r * 1000 * max_points <= end_ms - start_ms,
        r > 1 ==> r * 1000 <= end_ms - start_ms,
        max_points >= 1 ==> end_ms - start_ms < (r + 1) * 1000 * max_points,
        max_points < 1 ==> end_ms - start_ms < (r + 1) * 1000,
{
    let points: int = if max_points > 1 {
        max_points as int
    } else {
        1
    };
    let millis = end_ms - start_ms;
    let span: int = if millis > 0 {
        millis / 1000
    } else {
        0
    };
    let q = span / points;
    assert(q * points <= span < (q + 1) * points && q >= 0) by (nonlinear_arith)
        requires
            q == span / points,
            points >= 1,
            span >= 0,
    ;
    assert(r == (if q > 1 {
        q
    } else {
        1
    }));
    assert((r + 1) * points > span) by (nonlinear_arith)
        requires
            span < (q + 1) * points,
            r >= q,
            points >= 1,
    ;
    assert((r + 1) * 1000 * points == 1000 * ((r + 1) * points)) by (nonlinear_arith);
    assert(millis < (r + 1) * 1000 * points);
    if r > 1 {
        assert(r * 1000 * points == 1000 * (r * points)) by (nonlinear_arith);
        assert(r * 1000 * points <= millis);
        assert(r * 1000 * points >= r * 1000) by (nonlinear_arith)
            requires
                points >= 1,
                r > 1,
        ;
        assert(r * 1000 * max_points <= r * 1000 * points) by (nonlinear_arith)
            requires
                max_points <= points,
                r > 1,
        ;
    }
}

} // verus!
