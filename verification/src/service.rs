//! The `Connector` service. Every RPC is a translation of one Prometheus call;
//! nothing here holds state.

use crate::convert;
use crate::convert::{QueryData, Reading};
use crate::labels::Labels;
use crate::pb::{
    DownsampleInfo, ErrorModel, InstantQueryRequest, LabelValuesRequest, LabelValuesResponse,
    LabelsRequest, LabelsResponse, QueryError, QueryErrorKind, QueryResult, RangeQueryRequest,
    ResultModel, SeriesModel, SeriesRequest, SeriesResponse,
};
use crate::prom;
use crate::prom::{Prometheus, Request, RequestModel, Unreachable, Upstream};
use crate::text;
use vstd::prelude::*;

verus! {

/// The gRPC codes that the service answers with.
#[derive(Clone, Copy, Debug, PartialEq, Eq, Structural)]
pub enum Code {
    InvalidArgument,
    DeadlineExceeded,
    PermissionDenied,
    Unimplemented,
    Internal,
    Unavailable,
}

/// A gRPC status other than OK.
#[derive(Debug, PartialEq, Eq)]
pub struct Status {
    pub code: Code,
    pub message: String,
}

/// What a `Status` says.
#[verifier::ext_equal]
pub struct StatusModel {
    pub code: Code,
    pub message: Seq<char>,
}

impl View for Status {
    type V = StatusModel;

    open spec fn view(&self) -> StatusModel {
        StatusModel { code: self.code, message: self.message@ }
    }
}

/// The gRPC code of a kind of failure.
pub open spec fn code_of(kind: QueryErrorKind) -> Code {
    match kind {
        QueryErrorKind::QueryErrorBadQuery => Code::InvalidArgument,
        QueryErrorKind::QueryErrorUnauthorized => Code::PermissionDenied,
        QueryErrorKind::QueryErrorTimeout => Code::DeadlineExceeded,
        QueryErrorKind::QueryErrorUpstreamUnreachable => Code::Unavailable,
        QueryErrorKind::QueryErrorLimitExceeded => Code::Internal,
        QueryErrorKind::QueryErrorUnspecified => Code::Internal,
        QueryErrorKind::QueryErrorUpstreamError => Code::Internal,
    }
}

/// The gRPC status of a failure.
pub open spec fn status_of(e: ErrorModel) -> StatusModel {
    StatusModel { code: code_of(e.kind), message: e.message }
}

/// A query failure becomes a gRPC code so callers need not parse text.
pub fn status_for(e: QueryError) -> (r: Status)
    ensures
        r@ == status_of(e@),
{
    let code = match e.kind {
        QueryErrorKind::QueryErrorBadQuery => Code::InvalidArgument,
        QueryErrorKind::QueryErrorUnauthorized => Code::PermissionDenied,
        QueryErrorKind::QueryErrorTimeout => Code::DeadlineExceeded,
        QueryErrorKind::QueryErrorUpstreamUnreachable => Code::Unavailable,
        QueryErrorKind::QueryErrorLimitExceeded => Code::Internal,
        QueryErrorKind::QueryErrorUnspecified => Code::Internal,
        QueryErrorKind::QueryErrorUpstreamError => Code::Internal,
    };
    Status { code, message: e.message }
}

/// What upstream answered, and what the body of the answer reads as.
#[derive(Debug, PartialEq, Eq)]
pub struct Answer<D> {
    pub up: Upstream,
    pub read: Reading<D>,
}

/// Whether an HTTP status is one of success.
pub open spec fn successful(status: u16) -> bool {
    200 <= status < 300
}

/// Why a call fails before its body is converted, where it does: upstream was
/// not reached, or it answered with a status other than one of success.
pub open spec fn refusal<D>(answer: Result<Answer<D>, Unreachable>) -> Option<ErrorModel> {
    match answer {
        Err(u) => Some(
            ErrorModel {
                kind: QueryErrorKind::QueryErrorUpstreamUnreachable,
                message: u.0@,
            },
        ),
        Ok(a) => if successful(a.up.status) {
            None
        } else {
            Some(convert::complaint_error(a.up.status, a.up.body@, a.read.complaint))
        },
    }
}

/// What a call is answered, where its body converts to `converted`.
pub open spec fn reply<D, T>(
    answer: Result<Answer<D>, Unreachable>,
    converted: Result<T, ErrorModel>,
) -> Result<T, StatusModel> {
    match refusal(answer) {
        Some(e) => Err(status_of(e)),
        None => match converted {
            Ok(t) => Ok(t),
            Err(e) => Err(status_of(e)),
        },
    }
}

/// The answer of a call that fails before its body is converted, or else what
/// is to be converted.
fn accepted<D>(answer: Result<Answer<D>, Unreachable>) -> (r: Result<Answer<D>, Status>)
    ensures
        match r {
            Ok(a) => refusal(answer) is None && answer == Ok::<Answer<D>, Unreachable>(a),
            Err(s) => refusal(answer) matches Some(e) && s@ == status_of(e),
        },
{
    match answer {
        Err(u) => Err(status_for(convert::unreachable(u.0.as_str()))),
        Ok(a) => if 200 <= a.up.status && a.up.status < 300 {
            Ok(a)
        } else {
            Err(
                status_for(
                    convert::query_error(a.up.status, a.up.body.as_str(), &a.read.complaint),
                ),
            )
        },
    }
}

/// What a query is answered.
pub open spec fn query_reply(
    answer: Result<Answer<QueryData>, Unreachable>,
    downsample: Option<DownsampleInfo>,
) -> Result<ResultModel, StatusModel> {
    reply(
        answer,
        convert::query_answer(
            answer->Ok_0.up.body@,
            answer->Ok_0.read,
            answer->Ok_0.up.took_ms,
            downsample,
        ),
    )
}

/// What a list of strings is answered.
pub open spec fn list_reply(answer: Result<Answer<Vec<String>>, Unreachable>) -> Result<
    (Seq<Seq<char>>, Seq<Seq<char>>),
    StatusModel,
> {
    reply(answer, convert::list_answer(answer->Ok_0.up.body@, answer->Ok_0.read))
}

/// What a list of series is answered.
pub open spec fn series_reply(answer: Result<Answer<Vec<Labels>>, Unreachable>) -> Result<
    Seq<SeriesModel>,
    StatusModel,
> {
    reply(answer, convert::series_answer(answer->Ok_0.up.body@, answer->Ok_0.read))
}

/// What a range query says of its thinning out, before it is known how many
/// points come back.
pub open spec fn thinning(r: RangeQueryRequest) -> DownsampleInfo {
    DownsampleInfo {
        step_ms: (convert::step_of(r.start_ms, r.end_ms, r.max_points) * 1000) as i64,
        points_returned: 0,
        decimated: false,
    }
}

/// An RPC that the service does not have.
fn missing(rpc: &str) -> (r: Status)
    ensures
        r@ == (StatusModel { code: Code::Unimplemented, message: rpc@ }),
{
    Status { code: Code::Unimplemented, message: rpc.to_owned() }
}

/// Answers queries from one Prometheus. For each RPC there is the request that
/// it sends upstream, and the reply that it gives for what upstream answers.
#[derive(Debug, PartialEq, Eq)]
pub struct QueryService {
    pub prom: Prometheus,
}

impl QueryService {
    pub fn new(prom: Prometheus) -> (r: QueryService)
        ensures
            r.prom == prom,
    {
        QueryService { prom }
    }

    /// The request of an instant query.
    pub fn instant_query(&self, r: &InstantQueryRequest) -> (q: Request)
        ensures
            q@ == (RequestModel {
                url: prom::endpoint(self.prom.base@, "query"@),
                params: seq![("query"@, r.query@)] + (if r.time_ms > 0 {
                    seq![("time"@, prom::seconds_text(r.time_ms))]
                } else {
                    Seq::empty()
                }),
                timeout_ms: prom::patience(r.timeout_ms),
            }),
    {
        self.prom.instant(r.query.as_str(), r.time_ms, r.timeout_ms)
    }

    /// The reply of an instant query.
    pub fn instant_reply(answer: Result<Answer<QueryData>, Unreachable>) -> (r: Result<
        QueryResult,
        Status,
    >)
        ensures
            convert::said(r) == query_reply(answer, None),
    {
        let a = match accepted(answer) {
            Ok(a) => a,
            Err(s) => {
                return Err(s);
            },
        };
        match convert::query_result(a.up.body.as_str(), a.read, a.up.took_ms, None) {
            Ok(result) => Ok(result),
            Err(e) => Err(status_for(e)),
        }
    }

    /// The request of a range query, at the step that its point budget asks for,
    /// and what is said of the step.
    pub fn range_query(&self, r: &RangeQueryRequest) -> (q: (Request, DownsampleInfo))
        requires
            convert::span_fits(r.start_ms, r.end_ms),
        ensures
            q.0@ == (RequestModel {
                url: prom::endpoint(self.prom.base@, "query_range"@),
                params: seq![
                    ("query"@, r.query@),
                    ("start"@, prom::seconds_text(r.start_ms)),
                    ("end"@, prom::seconds_text(r.end_ms)),
                    (
                        "step"@,
                        text::signed_decimal(
                            convert::step_of(r.start_ms, r.end_ms, r.max_points),
                        ),
                    ),
                ],
                timeout_ms: prom::patience(r.timeout_ms),
            }),
            q.1 == thinning(*r),
            q.1.step_ms == convert::step_of(r.start_ms, r.end_ms, r.max_points) * 1000,
    {
        let step: i64 = convert::step_secs(r.start_ms, r.end_ms, r.max_points);
        let request = self.prom.range(r.query.as_str(), r.start_ms, r.end_ms, step, r.timeout_ms);
        (request, DownsampleInfo { step_ms: step * 1000, points_returned: 0, decimated: false })
    }

    /// The reply of a range query.
    pub fn range_reply(
        answer: Result<Answer<QueryData>, Unreachable>,
        downsample: DownsampleInfo,
    ) -> (r: Result<QueryResult, Status>)
        ensures
            convert::said(r) == query_reply(answer, Some(downsample)),
    {
        let a = match accepted(answer) {
            Ok(a) => a,
            Err(s) => {
                return Err(s);
            },
        };
        match convert::query_result(a.up.body.as_str(), a.read, a.up.took_ms, Some(downsample)) {
            Ok(result) => Ok(result),
            Err(e) => Err(status_for(e)),
        }
    }

    /// The request for the names of labels.
    pub fn labels(&self, r: &LabelsRequest) -> (q: Request)
        ensures
            q@ == (RequestModel {
                url: prom::endpoint(self.prom.base@, "labels"@),
                params: prom::window_params(r.start_ms, r.end_ms, text::texts(r.matchers@)),
                timeout_ms: prom::DEFAULT_TIMEOUT_MS as u64,
            }),
    {
        self.prom.labels(r.start_ms, r.end_ms, r.matchers.as_slice())
    }

    /// The reply with the names of labels.
    pub fn labels_reply(answer: Result<Answer<Vec<String>>, Unreachable>) -> (r: Result<
        LabelsResponse,
        Status,
    >)
        ensures
            convert::said(r) == list_reply(answer),
    {
        let a = match accepted(answer) {
            Ok(a) => a,
            Err(s) => {
                return Err(s);
            },
        };
        match convert::string_list(a.up.body.as_str(), a.read) {
            Ok((names, warnings)) => Ok(LabelsResponse { names, warnings }),
            Err(e) => Err(status_for(e)),
        }
    }

    /// The request for the values of a label.
    pub fn label_values(&self, r: &LabelValuesRequest) -> (q: Request)
        ensures
            q@ == (RequestModel {
                url: prom::endpoint(
                    self.prom.base@,
                    "label/"@ + prom::segment(r.label@) + "/values"@,
                ),
                params: prom::window_params(r.start_ms, r.end_ms, text::texts(r.matchers@)),
                timeout_ms: prom::DEFAULT_TIMEOUT_MS as u64,
            }),
    {
        self.prom.label_values(r.label.as_str(), r.start_ms, r.end_ms, r.matchers.as_slice())
    }

    /// The reply with the values of a label.
    pub fn label_values_reply(answer: Result<Answer<Vec<String>>, Unreachable>) -> (r: Result<
        LabelValuesResponse,
        Status,
    >)
        ensures
            convert::said(r) == list_reply(answer),
    {
        let a = match accepted(answer) {
            Ok(a) => a,
            Err(s) => {
                return Err(s);
            },
        };
        match convert::string_list(a.up.body.as_str(), a.read) {
            Ok((values, warnings)) => Ok(LabelValuesResponse { values, warnings }),
            Err(e) => Err(status_for(e)),
        }
    }

    /// The request for series.
    pub fn series(&self, r: &SeriesRequest) -> (q: Request)
        ensures
            q@ == (RequestModel {
                url: prom::endpoint(self.prom.base@, "series"@),
                params: prom::window_params(r.start_ms, r.end_ms, text::texts(r.matchers@)),
                timeout_ms: prom::DEFAULT_TIMEOUT_MS as u64,
            }),
    {
        self.prom.series(r.matchers.as_slice(), r.start_ms, r.end_ms)
    }

    /// The reply with series.
    pub fn series_reply(answer: Result<Answer<Vec<Labels>>, Unreachable>) -> (r: Result<
        SeriesResponse,
        Status,
    >)
        ensures
            convert::said(r) == series_reply(answer),
    {
        let a = match accepted(answer) {
            Ok(a) => a,
            Err(s) => {
                return Err(s);
            },
        };
        match convert::series_list(a.up.body.as_str(), a.read) {
            Ok(series) => Ok(SeriesResponse { series }),
            Err(e) => Err(status_for(e)),
        }
    }

    pub fn batch_query() -> (r: Status)
        ensures
            r@ == (StatusModel { code: Code::Unimplemented, message: "BatchQuery"@ }),
    {
        missing("BatchQuery")
    }

    pub fn events() -> (r: Status)
        ensures
            r@ == (StatusModel { code: Code::Unimplemented, message: "Events"@ }),
    {
        missing("Events")
    }

    pub fn install_certificate() -> (r: Status)
        ensures
            r@ == (StatusModel { code: Code::Unimplemented, message: "InstallCertificate"@ }),
    {
        missing("InstallCertificate")
    }

    pub fn drain() -> (r: Status)
        ensures
            r@ == (StatusModel { code: Code::Unimplemented, message: "Drain"@ }),
    {
        missing("Drain")
    }
}

/// Where upstream is not reached, or answers with a status other than one of
/// success, no RPC gives a result, whatever the body would convert to.
pub proof fn law_a_refused_call_has_no_result<D, T>(
    answer: Result<Answer<D>, Unreachable>,
    converted: Result<T, ErrorModel>,
)
    requires
        answer matches Ok(a) ==> !successful(a.up.status),
    ensures
        reply(answer, converted) is Err,
        answer matches Err(u) ==> reply(answer, converted) == Err::<T, StatusModel>(
            StatusModel { code: Code::Unavailable, message: u.0@ },
        ),
        answer matches Ok(a) ==> reply(answer, converted) == Err::<T, StatusModel>(
            status_of(convert::complaint_error(a.up.status, a.up.body@, a.read.complaint)),
        ),
{
}

/// The message that upstream gave for a failure is the message of the gRPC
/// status, word for word, and the code follows from upstream's `errorType` alone
/// where it is one that Prometheus has.
pub proof fn law_upstream_message_reaches_the_caller(
    status: u16,
    body: Seq<char>,
    env: convert::Envelope<()>,
    words: String,
    t: String,
    kind: QueryErrorKind,
)
    requires
        env.error == Some(words),
        env.error_type == Some(t),
        convert::kind_of_type(t@) == Some(kind),
    ensures
        status_of(convert::complaint_error(status, body, Some(env))) == (StatusModel {
            code: code_of(kind),
            message: words@,
        }),
{
}

} // verus!
