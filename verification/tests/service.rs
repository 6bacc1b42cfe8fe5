use vedavid_connector::convert::{Envelope, MatrixItem, QueryData, Reading};
use vedavid_connector::double::Double;
use vedavid_connector::labels::Labels;
use vedavid_connector::pb::{
    InstantQueryRequest, LabelValuesRequest, LabelsRequest, QueryError, QueryErrorKind,
    RangeQueryRequest, SeriesRequest,
};
use vedavid_connector::prom::{Prometheus, Unreachable, Upstream};
use vedavid_connector::service::{status_for, Answer, Code, QueryService};

fn service() -> QueryService {
    QueryService::new(Prometheus::new("http://p:9090/"))
}

fn envelope<D>(status: &str, data: Option<D>) -> Envelope<D> {
    Envelope {
        status: status.to_string(),
        data,
        warnings: vec!["careful".to_string()],
        error: None,
        error_type: None,
    }
}

fn answer<D>(status: u16, body: &str, read: Reading<D>) -> Result<Answer<D>, Unreachable> {
    Ok(Answer {
        up: Upstream { status, body: body.to_string(), took_ms: 12 },
        read,
    })
}

fn matrix(points: usize) -> QueryData {
    let values = (0..points)
        .map(|i| (Double { bits: (i as f64).to_bits() }, i.to_string()))
        .collect();
    QueryData {
        result_type: "matrix".to_string(),
        vector: Err("no vector".to_string()),
        matrix: Ok(vec![MatrixItem { metric: Labels::new(), values }]),
        scalar: Err("no scalar".to_string()),
    }
}

#[test]
fn every_kind_of_failure_has_its_code() {
    let code = |kind| status_for(QueryError { kind, message: "m".to_string() }).code;
    assert_eq!(code(QueryErrorKind::QueryErrorBadQuery), Code::InvalidArgument);
    assert_eq!(code(QueryErrorKind::QueryErrorUnauthorized), Code::PermissionDenied);
    assert_eq!(code(QueryErrorKind::QueryErrorTimeout), Code::DeadlineExceeded);
    assert_eq!(code(QueryErrorKind::QueryErrorUpstreamUnreachable), Code::Unavailable);
    assert_eq!(code(QueryErrorKind::QueryErrorLimitExceeded), Code::Internal);
    assert_eq!(code(QueryErrorKind::QueryErrorUpstreamError), Code::Internal);
    assert_eq!(code(QueryErrorKind::QueryErrorUnspecified), Code::Internal);
}

#[test]
fn a_range_query_reports_the_step_it_chose() {
    let r = RangeQueryRequest {
        query: "up".to_string(),
        start_ms: 1_000_000_000_000 - 60_000,
        end_ms: 1_000_000_000_000,
        max_points: 4,
        timeout_ms: 5000,
    };
    let (request, downsample) = service().range_query(&r);
    assert_eq!(request.url, "http://p:9090/api/v1/query_range");
    assert_eq!(request.params[3], ("step", "15".to_string()));
    assert_eq!(downsample.step_ms, 15_000, "60s over a 4-point budget is a 15s step");

    let read = Reading { complaint: None, envelope: Ok(envelope("success", Some(matrix(5)))) };
    let got = QueryService::range_reply(answer(200, "{}", read), downsample).unwrap();
    let d = got.downsample.unwrap();
    assert_eq!(d.step_ms, 15_000);
    assert_eq!(d.points_returned, 5);
    assert_eq!(
        d.points_returned,
        got.series.iter().map(|s| s.samples.len()).sum::<usize>() as i32
    );
    assert_eq!(got.upstream_duration_ms, 12);
    assert_eq!(got.warnings, vec!["careful"]);
}

#[test]
fn a_malformed_query_becomes_invalid_argument() {
    let complaint = Envelope {
        error: Some("parse error at 1:4".to_string()),
        error_type: Some("bad_data".to_string()),
        ..envelope("error", None)
    };
    let read = Reading { complaint: Some(complaint), envelope: Err("unused".to_string()) };
    let e = QueryService::instant_reply(answer(500, "{}", read)).unwrap_err();
    assert_eq!(e.code, Code::InvalidArgument);
    assert_eq!(e.message, "parse error at 1:4");
}

#[test]
fn an_unreachable_upstream_is_unavailable_for_every_call() {
    let away = || Unreachable("connection refused".to_string());
    let e = QueryService::instant_reply(Err(away())).unwrap_err();
    assert_eq!((e.code, e.message.as_str()), (Code::Unavailable, "connection refused"));
    assert_eq!(QueryService::labels_reply(Err(away())).unwrap_err().code, Code::Unavailable);
    assert_eq!(
        QueryService::label_values_reply(Err(away())).unwrap_err().code,
        Code::Unavailable
    );
    assert_eq!(QueryService::series_reply(Err(away())).unwrap_err().code, Code::Unavailable);
}

#[test]
fn a_refusal_is_not_converted_even_where_the_body_would_be() {
    let read = Reading { complaint: None, envelope: Ok(envelope("success", Some(matrix(1)))) };
    let e = QueryService::instant_reply(answer(403, " go away ", read)).unwrap_err();
    assert_eq!((e.code, e.message.as_str()), (Code::PermissionDenied, "go away"));
    for status in [199, 300, 302, 399] {
        let read = Reading { complaint: None, envelope: Ok(envelope("success", Some(matrix(1)))) };
        let e = QueryService::instant_reply(answer(status, "moved", read)).unwrap_err();
        assert_eq!((e.code, e.message.as_str()), (Code::Internal, "moved"));
    }
    for status in [200, 299] {
        let read = Reading { complaint: None, envelope: Ok(envelope("success", Some(matrix(1)))) };
        assert!(QueryService::instant_reply(answer(status, "", read)).is_ok());
    }
}

#[test]
fn labels_values_and_series_answer() {
    let names = || Reading {
        complaint: None,
        envelope: Ok(envelope("success", Some(vec!["job".to_string()]))),
    };
    let got = QueryService::labels_reply(answer(200, "", names())).unwrap();
    assert_eq!(got.names, vec!["job"]);
    let got = QueryService::label_values_reply(answer(200, "", names())).unwrap();
    assert_eq!(got.values, vec!["job"]);
    assert_eq!(got.warnings, vec!["careful"]);

    let mut set = Labels::new();
    set.insert("job".to_string(), "p".to_string());
    let read = Reading { complaint: None, envelope: Ok(envelope("success", Some(vec![set]))) };
    let got = QueryService::series_reply(answer(200, "", read)).unwrap();
    assert_eq!(got.series.len(), 1);
    assert!(got.series[0].samples.is_empty());
    assert_eq!(got.series[0].labels[0].name, "job");

    let read = Reading { complaint: None, envelope: Err("odd".to_string()) };
    let e = QueryService::series_reply(answer(200, "", read)).unwrap_err();
    assert_eq!((e.code, e.message.as_str()), (Code::Internal, "unexpected result shape: odd"));
}

#[test]
fn each_call_sends_its_request() {
    let s = service();
    let q = s.instant_query(&InstantQueryRequest {
        query: "up".to_string(),
        time_ms: 0,
        timeout_ms: 0,
    });
    assert_eq!((q.url.as_str(), q.timeout_ms), ("http://p:9090/api/v1/query", 30_000));
    let q = s.labels(&LabelsRequest { start_ms: 1, end_ms: 2, matchers: vec![] });
    assert_eq!(q.params.len(), 2);
    let q = s.label_values(&LabelValuesRequest {
        label: "a b".to_string(),
        start_ms: 0,
        end_ms: 0,
        matchers: vec![],
    });
    assert_eq!(q.url, "http://p:9090/api/v1/label/a%20b/values");
    let q = s.series(&SeriesRequest { matchers: vec!["up".to_string()], start_ms: 0, end_ms: 0 });
    assert_eq!(q.params, vec![("match[]", "up".to_string())]);
}

#[test]
fn the_other_calls_are_unimplemented() {
    for (status, name) in [
        (QueryService::batch_query(), "BatchQuery"),
        (QueryService::events(), "Events"),
        (QueryService::install_certificate(), "InstallCertificate"),
        (QueryService::drain(), "Drain"),
    ] {
        assert_eq!((status.code, status.message.as_str()), (Code::Unimplemented, name));
    }
}
