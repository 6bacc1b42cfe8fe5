//! Laws of the replies: what upstream answered is what the caller is told.

use crate::convert;
use crate::convert::QueryData;
use crate::labels::Labels;
use crate::laws::answers;
use crate::pb;
use crate::pb::{
    DownsampleInfo, LabelPair, LabelValuesResponse, LabelsResponse, QueryError, QueryErrorKind,
    QueryResult, Sample, SeriesResponse, TimeSeries,
};
use crate::prom::Unreachable;
use crate::service;
use crate::service::{Answer, Code, QueryService, Status};
use crate::text;
use vstd::prelude::*;

verus! {

/// Each kind of failure has its code, `Internal` is that of the rest, and the
/// message is that of the failure.
pub proof fn law_each_failure_has_its_code(e: QueryError, r: Status)
    requires
        call_ensures(service::status_for, (e,), r),
    ensures
        r.message@ == e.message@,
        r.code == Code::InvalidArgument <==> e.kind == QueryErrorKind::QueryErrorBadQuery,
        r.code == Code::PermissionDenied <==> e.kind == QueryErrorKind::QueryErrorUnauthorized,
        r.code == Code::DeadlineExceeded <==> e.kind == QueryErrorKind::QueryErrorTimeout,
        r.code == Code::Unavailable <==> e.kind == QueryErrorKind::QueryErrorUpstreamUnreachable,
        r.code == Code::Internal <==> e.kind == QueryErrorKind::QueryErrorUnspecified || e.kind
            == QueryErrorKind::QueryErrorUpstreamError || e.kind
            == QueryErrorKind::QueryErrorLimitExceeded,
{
}

/// Whether a status is the same as another.
pub open spec fn same_status(a: Status, b: Status) -> bool {
    a.code == b.code && a.message@ == b.message@
}

/// Whether labels are the same.
pub open spec fn same_labels(a: Seq<LabelPair>, b: Seq<LabelPair>) -> bool {
    &&& a.len() == b.len()
    &&& forall|k: int|
        0 <= k < b.len() ==> (#[trigger] a[k]).name@ == b[k].name@ && a[k].value@ == b[k].value@
}

/// Whether samples are the same.
pub open spec fn same_samples(a: Seq<Sample>, b: Seq<Sample>) -> bool {
    &&& a.len() == b.len()
    &&& forall|k: int|
        0 <= k < b.len() ==> (#[trigger] a[k]).t_ms == b[k].t_ms && a[k].v@ == b[k].v@
}

/// Whether series are the same.
pub open spec fn same_series(a: Seq<TimeSeries>, b: Seq<TimeSeries>) -> bool {
    &&& a.len() == b.len()
    &&& forall|i: int|
        0 <= i < b.len() ==> same_labels((#[trigger] a[i]).labels@, b[i].labels@) && same_samples(
            a[i].samples@,
            b[i].samples@,
        )
}

/// Whether results are the same.
pub open spec fn same_result(a: QueryResult, b: QueryResult) -> bool {
    &&& a.result_type == b.result_type
    &&& same_series(a.series@, b.series@)
    &&& answers::tell_texts(a.warnings@, b.warnings@)
    &&& a.downsample == b.downsample
    &&& a.upstream_duration_ms == b.upstream_duration_ms
}

proof fn lemma_same_series(a: Seq<TimeSeries>, b: Seq<TimeSeries>)
    requires
        pb::series_models(a) == pb::series_models(b),
    ensures
        same_series(a, b),
{
    assert(pb::series_models(a).len() == a.len());
    assert(pb::series_models(b).len() == b.len());
    assert forall|i: int| 0 <= i < b.len() implies same_labels(
        (#[trigger] a[i]).labels@,
        b[i].labels@,
    ) && same_samples(a[i].samples@, b[i].samples@) by {
        let (x, y) = (a[i], b[i]);
        assert(pb::series_models(a)[i] == x@);
        assert(pb::series_models(b)[i] == y@);
        let (p, q) = (x.labels@, y.labels@);
        assert(pb::pair_models(p) == pb::pair_models(q));
        assert(pb::pair_models(p).len() == p.len());
        assert(pb::pair_models(q).len() == q.len());
        assert forall|k: int| 0 <= k < q.len() implies (#[trigger] p[k]).name@ == q[k].name@
            && p[k].value@ == q[k].value@ by {
            assert(pb::pair_models(p)[k] == p[k]@);
            assert(pb::pair_models(q)[k] == q[k]@);
        }
        let (s, t) = (x.samples@, y.samples@);
        assert(pb::sample_models(s) == pb::sample_models(t));
        assert(pb::sample_models(s).len() == s.len());
        assert(pb::sample_models(t).len() == t.len());
        assert forall|k: int| 0 <= k < t.len() implies (#[trigger] s[k]).t_ms == t[k].t_ms
            && s[k].v@ == t[k].v@ by {
            assert(pb::sample_models(s)[k] == s[k]@);
            assert(pb::sample_models(t)[k] == t[k]@);
        }
    }
}

proof fn lemma_same_result(a: QueryResult, b: QueryResult)
    requires
        a@ == b@,
    ensures
        same_result(a, b),
{
    lemma_same_series(a.series@, b.series@);
    answers::lemma_texts(a.warnings@, b.warnings@);
}

/// Upstream that cannot be reached is `Unavailable`, with the reason, for every
/// call.
pub proof fn law_upstream_that_is_not_reached_is_unavailable(
    away: Unreachable,
    thinned: DownsampleInfo,
    instant: Result<QueryResult, Status>,
    range: Result<QueryResult, Status>,
    labels: Result<LabelsResponse, Status>,
    values: Result<LabelValuesResponse, Status>,
    series: Result<SeriesResponse, Status>,
)
    requires
        call_ensures(
            QueryService::instant_reply,
            (Err::<Answer<QueryData>, Unreachable>(away),),
            instant,
        ),
        call_ensures(
            QueryService::range_reply,
            (Err::<Answer<QueryData>, Unreachable>(away), thinned),
            range,
        ),
        call_ensures(
            QueryService::labels_reply,
            (Err::<Answer<Vec<String>>, Unreachable>(away),),
            labels,
        ),
        call_ensures(
            QueryService::label_values_reply,
            (Err::<Answer<Vec<String>>, Unreachable>(away),),
            values,
        ),
        call_ensures(
            QueryService::series_reply,
            (Err::<Answer<Vec<Labels>>, Unreachable>(away),),
            series,
        ),
    ensures
        instant matches Err(s) && s.code == Code::Unavailable && s.message@ == away.0@,
        range matches Err(s) && s.code == Code::Unavailable && s.message@ == away.0@,
        labels matches Err(s) && s.code == Code::Unavailable && s.message@ == away.0@,
        values matches Err(s) && s.code == Code::Unavailable && s.message@ == away.0@,
        series matches Err(s) && s.code == Code::Unavailable && s.message@ == away.0@,
{
}

/// An answer with a status other than one of success is told as the failure that
/// it is, by every query, whatever its body would read as.
pub proof fn law_a_query_that_is_refused_tells_the_refusal(
    a: Answer<QueryData>,
    thinned: DownsampleInfo,
    instant: Result<QueryResult, Status>,
    range: Result<QueryResult, Status>,
    body: &str,
    failure: QueryError,
    told: Status,
)
    requires
        call_ensures(
            QueryService::instant_reply,
            (Ok::<Answer<QueryData>, Unreachable>(a),),
            instant,
        ),
        call_ensures(
            QueryService::range_reply,
            (Ok::<Answer<QueryData>, Unreachable>(a), thinned),
            range,
        ),
        a.up.status < 200 || a.up.status >= 300,
        body@ == a.up.body@,
        call_ensures(convert::query_error, (a.up.status, body, &a.read.complaint), failure),
        call_ensures(service::status_for, (failure,), told),
    ensures
        instant matches Err(s) && same_status(s, told),
        range matches Err(s) && same_status(s, told),
{
}

/// The same of the lists of strings.
pub proof fn law_a_list_that_is_refused_tells_the_refusal(
    a: Answer<Vec<String>>,
    labels: Result<LabelsResponse, Status>,
    values: Result<LabelValuesResponse, Status>,
    body: &str,
    failure: QueryError,
    told: Status,
)
    requires
        call_ensures(
            QueryService::labels_reply,
            (Ok::<Answer<Vec<String>>, Unreachable>(a),),
            labels,
        ),
        call_ensures(
            QueryService::label_values_reply,
            (Ok::<Answer<Vec<String>>, Unreachable>(a),),
            values,
        ),
        a.up.status < 200 || a.up.status >= 300,
        body@ == a.up.body@,
        call_ensures(convert::query_error, (a.up.status, body, &a.read.complaint), failure),
        call_ensures(service::status_for, (failure,), told),
    ensures
        labels matches Err(s) && same_status(s, told),
        values matches Err(s) && same_status(s, told),
{
}

/// The same of the lists of series.
pub proof fn law_a_list_of_series_that_is_refused_tells_the_refusal(
    a: Answer<Vec<Labels>>,
    series: Result<SeriesResponse, Status>,
    body: &str,
    failure: QueryError,
    told: Status,
)
    requires
        call_ensures(
            QueryService::series_reply,
            (Ok::<Answer<Vec<Labels>>, Unreachable>(a),),
            series,
        ),
        a.up.status < 200 || a.up.status >= 300,
        body@ == a.up.body@,
        call_ensures(convert::query_error, (a.up.status, body, &a.read.complaint), failure),
        call_ensures(service::status_for, (failure,), told),
    ensures
        series matches Err(s) && same_status(s, told),
{
}

/// An instant query that succeeds upstream is told what its body converts to: the
/// result, with nothing said of a thinning out, or the failure.
pub proof fn law_an_instant_query_tells_its_body(
    a: Answer<QueryData>,
    r: Result<QueryResult, Status>,
    body: &str,
    converted: Result<QueryResult, QueryError>,
)
    requires
        call_ensures(QueryService::instant_reply, (Ok::<Answer<QueryData>, Unreachable>(a),), r),
        200 <= a.up.status < 300,
        body@ == a.up.body@,
        call_ensures(convert::query_result, (body, a.read, a.up.took_ms, None), converted),
    ensures
        converted matches Ok(x) ==> (r matches Ok(y) && same_result(y, x)),
        converted matches Err(e) ==> (r matches Err(s) && s.message@ == e.message@ && forall|
            told: Status,
        | #[trigger]
            call_ensures(service::status_for, (e,), told) ==> same_status(s, told)),
{
    if converted is Ok {
        lemma_same_result(r->Ok_0, converted->Ok_0);
    }
}

/// A range query that succeeds upstream is told what its body converts to: the
/// result, with what was said of the thinning out, or the failure.
pub proof fn law_a_range_query_tells_its_body(
    a: Answer<QueryData>,
    thinned: DownsampleInfo,
    r: Result<QueryResult, Status>,
    body: &str,
    converted: Result<QueryResult, QueryError>,
)
    requires
        call_ensures(
            QueryService::range_reply,
            (Ok::<Answer<QueryData>, Unreachable>(a), thinned),
            r,
        ),
        200 <= a.up.status < 300,
        body@ == a.up.body@,
        call_ensures(
            convert::query_result,
            (body, a.read, a.up.took_ms, Some(thinned)),
            converted,
        ),
    ensures
        converted matches Ok(x) ==> (r matches Ok(y) && same_result(y, x)),
        converted matches Err(e) ==> (r matches Err(s) && s.message@ == e.message@ && forall|
            told: Status,
        | #[trigger]
            call_ensures(service::status_for, (e,), told) ==> same_status(s, told)),
{
    if converted is Ok {
        lemma_same_result(r->Ok_0, converted->Ok_0);
    }
}

/// The names and the values of labels that upstream gives are told, every one and
/// in their order, with the warnings; or the failure is.
pub proof fn law_lists_tell_their_body(
    a: Answer<Vec<String>>,
    labels: Result<LabelsResponse, Status>,
    values: Result<LabelValuesResponse, Status>,
    body: &str,
    converted: Result<(Vec<String>, Vec<String>), QueryError>,
)
    requires
        call_ensures(
            QueryService::labels_reply,
            (Ok::<Answer<Vec<String>>, Unreachable>(a),),
            labels,
        ),
        call_ensures(
            QueryService::label_values_reply,
            (Ok::<Answer<Vec<String>>, Unreachable>(a),),
            values,
        ),
        200 <= a.up.status < 300,
        body@ == a.up.body@,
        call_ensures(convert::string_list, (body, a.read), converted),
    ensures
        converted matches Ok(x) ==> {
            &&& labels matches Ok(y)
            &&& answers::tell_texts(y.names@, x.0@)
            &&& answers::tell_texts(y.warnings@, x.1@)
        },
        converted matches Ok(x) ==> {
            &&& values matches Ok(y)
            &&& answers::tell_texts(y.values@, x.0@)
            &&& answers::tell_texts(y.warnings@, x.1@)
        },
        converted matches Err(e) ==> (labels matches Err(s) && s.message@ == e.message@ && forall|
            told: Status,
        | #[trigger]
            call_ensures(service::status_for, (e,), told) ==> same_status(s, told)),
        converted matches Err(e) ==> (values matches Err(s) && s.message@ == e.message@ && forall|
            told: Status,
        | #[trigger]
            call_ensures(service::status_for, (e,), told) ==> same_status(s, told)),
{
    if let Ok(x) = converted {
        let (y, z) = (labels->Ok_0, values->Ok_0);
        answers::lemma_texts(y.names@, x.0@);
        answers::lemma_texts(y.warnings@, x.1@);
        answers::lemma_texts(z.values@, x.0@);
        answers::lemma_texts(z.warnings@, x.1@);
    }
}

/// The series that upstream gives are told, every one and in their order; or the
/// failure is.
pub proof fn law_series_tell_their_body(
    a: Answer<Vec<Labels>>,
    r: Result<SeriesResponse, Status>,
    body: &str,
    converted: Result<Vec<TimeSeries>, QueryError>,
)
    requires
        call_ensures(QueryService::series_reply, (Ok::<Answer<Vec<Labels>>, Unreachable>(a),), r),
        200 <= a.up.status < 300,
        body@ == a.up.body@,
        call_ensures(convert::series_list, (body, a.read), converted),
    ensures
        converted matches Ok(x) ==> (r matches Ok(y) && same_series(y.series@, x@)),
        converted matches Err(e) ==> (r matches Err(s) && s.message@ == e.message@ && forall|
            told: Status,
        | #[trigger]
            call_ensures(service::status_for, (e,), told) ==> same_status(s, told)),
{
    if let Ok(x) = converted {
        lemma_same_series(r->Ok_0.series@, x@);
    }
}

/// The calls that the service does not have are `Unimplemented`, each under its
/// own name.
pub proof fn law_missing_calls_are_unimplemented(
    batch_query: Status,
    events: Status,
    install_certificate: Status,
    drain: Status,
)
    requires
        call_ensures(QueryService::batch_query, (), batch_query),
        call_ensures(QueryService::events, (), events),
        call_ensures(QueryService::install_certificate, (), install_certificate),
        call_ensures(QueryService::drain, (), drain),
    ensures
        batch_query.code == Code::Unimplemented && batch_query.message@ == "BatchQuery"@,
        events.code == Code::Unimplemented && events.message@ == "Events"@,
        install_certificate.code == Code::Unimplemented && install_certificate.message@
            == "InstallCertificate"@,
        drain.code == Code::Unimplemented && drain.message@ == "Drain"@,
{
}

} // verus!
