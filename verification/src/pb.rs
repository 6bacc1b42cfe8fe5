//! The messages that the connector and the relay exchange, as plain values.

use crate::text;
use vstd::prelude::*;

verus! {

/// Why a query failed.
#[derive(Clone, Copy, Debug, PartialEq, Eq, Structural)]
pub enum QueryErrorKind {
    QueryErrorUnspecified,
    QueryErrorBadQuery,
    QueryErrorUnauthorized,
    QueryErrorTimeout,
    QueryErrorUpstreamUnreachable,
    QueryErrorUpstreamError,
    QueryErrorLimitExceeded,
}

/// A failed query: its kind, and what upstream said.
#[derive(Debug, PartialEq, Eq)]
pub struct QueryError {
    pub kind: QueryErrorKind,
    pub message: String,
}

/// What a `QueryError` says.
#[verifier::ext_equal]
pub struct ErrorModel {
    pub kind: QueryErrorKind,
    pub message: Seq<char>,
}

impl View for QueryError {
    type V = ErrorModel;

    open spec fn view(&self) -> ErrorModel {
        ErrorModel { kind: self.kind, message: self.message@ }
    }
}

/// The shape of a query's result.
#[derive(Clone, Copy, Debug, PartialEq, Eq, Structural)]
pub enum ResultType {
    Vector,
    Matrix,
    Scalar,
}

/// One label of a series.
#[derive(Debug, PartialEq, Eq)]
pub struct LabelPair {
    pub name: String,
    pub value: String,
}

impl View for LabelPair {
    type V = (Seq<char>, Seq<char>);

    open spec fn view(&self) -> (Seq<char>, Seq<char>) {
        (self.name@, self.value@)
    }
}

/// One sample of a series: a time in milliseconds, and the number that
/// Prometheus wrote there, in its own words. `NaN`, `+Inf` and `-Inf` are among
/// them.
#[derive(Debug, PartialEq, Eq)]
pub struct Sample {
    pub t_ms: i64,
    pub v: String,
}

impl View for Sample {
    type V = (i64, Seq<char>);

    open spec fn view(&self) -> (i64, Seq<char>) {
        (self.t_ms, self.v@)
    }
}

/// A labelled run of samples.
#[derive(Debug, PartialEq, Eq)]
pub struct TimeSeries {
    pub labels: Vec<LabelPair>,
    pub samples: Vec<Sample>,
}

/// What a `TimeSeries` says.
#[verifier::ext_equal]
pub struct SeriesModel {
    pub labels: Seq<(Seq<char>, Seq<char>)>,
    pub samples: Seq<(i64, Seq<char>)>,
}

impl View for TimeSeries {
    type V = SeriesModel;

    open spec fn view(&self) -> SeriesModel {
        SeriesModel {
            labels: pair_models(self.labels@),
            samples: sample_models(self.samples@),
        }
    }
}

/// What a sequence of labels says.
pub open spec fn pair_models(pairs: Seq<LabelPair>) -> Seq<(Seq<char>, Seq<char>)> {
    pairs.map_values(|p: LabelPair| p@)
}

/// What a sequence of samples says.
pub open spec fn sample_models(samples: Seq<Sample>) -> Seq<(i64, Seq<char>)> {
    samples.map_values(|s: Sample| s@)
}

/// What a sequence of series says.
pub open spec fn series_models(series: Seq<TimeSeries>) -> Seq<SeriesModel> {
    series.map_values(|s: TimeSeries| s@)
}

/// How a range query was thinned out.
#[derive(Clone, Copy, Debug, PartialEq, Eq, Structural)]
pub struct DownsampleInfo {
    pub step_ms: i64,
    pub points_returned: i32,
    pub decimated: bool,
}

/// A query's result.
#[derive(Debug, PartialEq, Eq)]
pub struct QueryResult {
    pub result_type: ResultType,
    pub series: Vec<TimeSeries>,
    pub warnings: Vec<String>,
    pub downsample: Option<DownsampleInfo>,
    pub upstream_duration_ms: i64,
}

/// What a `QueryResult` says.
#[verifier::ext_equal]
pub struct ResultModel {
    pub result_type: ResultType,
    pub series: Seq<SeriesModel>,
    pub warnings: Seq<Seq<char>>,
    pub downsample: Option<DownsampleInfo>,
    pub upstream_duration_ms: i64,
}

impl View for QueryResult {
    type V = ResultModel;

    open spec fn view(&self) -> ResultModel {
        ResultModel {
            result_type: self.result_type,
            series: series_models(self.series@),
            warnings: text::texts(self.warnings@),
            downsample: self.downsample,
            upstream_duration_ms: self.upstream_duration_ms,
        }
    }
}

/// Asks for a query at one time.
#[derive(Debug, PartialEq, Eq)]
pub struct InstantQueryRequest {
    pub query: String,
    pub time_ms: i64,
    pub timeout_ms: i64,
}

/// Asks for a query over a range of time, in at most so many points.
#[derive(Debug, PartialEq, Eq)]
pub struct RangeQueryRequest {
    pub query: String,
    pub start_ms: i64,
    pub end_ms: i64,
    pub max_points: i32,
    pub timeout_ms: i64,
}

/// Asks for the names of labels.
#[derive(Debug, PartialEq, Eq)]
pub struct LabelsRequest {
    pub start_ms: i64,
    pub end_ms: i64,
    pub matchers: Vec<String>,
}

/// The names of labels.
#[derive(Debug, PartialEq, Eq)]
pub struct LabelsResponse {
    pub names: Vec<String>,
    pub warnings: Vec<String>,
}

impl View for LabelsResponse {
    type V = (Seq<Seq<char>>, Seq<Seq<char>>);

    open spec fn view(&self) -> (Seq<Seq<char>>, Seq<Seq<char>>) {
        (text::texts(self.names@), text::texts(self.warnings@))
    }
}

/// Asks for the values of a label.
#[derive(Debug, PartialEq, Eq)]
pub struct LabelValuesRequest {
    pub label: String,
    pub start_ms: i64,
    pub end_ms: i64,
    pub matchers: Vec<String>,
}

/// The values of a label.
#[derive(Debug, PartialEq, Eq)]
pub struct LabelValuesResponse {
    pub values: Vec<String>,
    pub warnings: Vec<String>,
}

impl View for LabelValuesResponse {
    type V = (Seq<Seq<char>>, Seq<Seq<char>>);

    open spec fn view(&self) -> (Seq<Seq<char>>, Seq<Seq<char>>) {
        (text::texts(self.values@), text::texts(self.warnings@))
    }
}

/// Asks for series.
#[derive(Debug, PartialEq, Eq)]
pub struct SeriesRequest {
    pub matchers: Vec<String>,
    pub start_ms: i64,
    pub end_ms: i64,
}

/// Series, without samples.
#[derive(Debug, PartialEq, Eq)]
pub struct SeriesResponse {
    pub series: Vec<TimeSeries>,
}

impl View for SeriesResponse {
    type V = Seq<SeriesModel>;

    open spec fn view(&self) -> Seq<SeriesModel> {
        series_models(self.series@)
    }
}

/// What the connector is a build of.
#[derive(Debug, PartialEq, Eq)]
pub struct ConnectorBuild {
    pub version: String,
    pub git_sha: String,
    pub platform: String,
    pub k8s_version: String,
}

/// What a `ConnectorBuild` says.
#[verifier::ext_equal]
pub struct BuildModel {
    pub version: Seq<char>,
    pub git_sha: Seq<char>,
    pub platform: Seq<char>,
    pub k8s_version: Seq<char>,
}

impl View for ConnectorBuild {
    type V = BuildModel;

    open spec fn view(&self) -> BuildModel {
        BuildModel {
            version: self.version@,
            git_sha: self.git_sha@,
            platform: self.platform@,
            k8s_version: self.k8s_version@,
        }
    }
}

/// Asks the relay for a certificate.
pub struct EnrollRequest {
    pub enrollment_token: String,
    pub csr_der: Vec<u8>,
    pub build: Option<ConnectorBuild>,
}

/// What the relay issues.
pub struct EnrollResponse {
    pub cert_chain_der: Vec<Vec<u8>>,
    pub trust_bundle_der: Vec<Vec<u8>>,
    pub spiffe_id: String,
    pub relay_endpoints: Vec<String>,
}

} // verus!
