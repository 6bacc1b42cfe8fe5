use serde_json::Value;
use vedavid_connector::convert::{
    kind_for, query_error, query_result, series_list, step_secs, string_list, to_ms, unparsable,
    Envelope, MatrixItem, QueryData, Reading, VectorItem,
};
use vedavid_connector::double::Double;
use vedavid_connector::labels::Labels;
use vedavid_connector::pb::{DownsampleInfo, QueryErrorKind, QueryResult, ResultType, Sample};
use vedavid_connector::prom::secs;

/// Bodies below are captured verbatim from Prometheus 3.14.
const VECTOR: &str = r#"{"status":"success","data":{"resultType":"vector","result":[{"metric":{"__name__":"up","instance":"127.0.0.1:9099","job":"prometheus"},"value":[1788347462.466,"1"]}]}}"#;
const MATRIX: &str = r#"{"status":"success","data":{"resultType":"matrix","result":[{"metric":{"__name__":"up","instance":"127.0.0.1:9099","job":"prometheus"},"values":[[1788347458,"1"],[1788347473,"1"]]}]}}"#;
const SCALAR: &str =
    r#"{"status":"success","data":{"resultType":"scalar","result":[1788347473.866,"42"]}}"#;
const NAN: &str =
    r#"{"status":"success","data":{"resultType":"scalar","result":[1788347474.105,"NaN"]}}"#;
const INF: &str =
    r#"{"status":"success","data":{"resultType":"scalar","result":[1788347474.14,"+Inf"]}}"#;
const BAD_QUERY: &str = r#"{"status":"error","errorType":"bad_data","error":"invalid parameter \"query\": 1:4: parse error: unexpected end of input inside braces"}"#;
const LABELS: &str = r#"{"status":"success","data":["__name__","instance","job"]}"#;
const SERIES: &str = r#"{"status":"success","data":[{"__name__":"up","instance":"127.0.0.1:9099","job":"prometheus"}]}"#;

fn string(v: &Value) -> Result<String, String> {
    v.as_str().map(|s| s.to_string()).ok_or("not a string".to_string())
}

fn list<T>(v: &Value, item: fn(&Value) -> Result<T, String>) -> Result<Vec<T>, String> {
    v.as_array().ok_or("not a list".to_string())?.iter().map(item).collect()
}

fn strings(v: &Value) -> Result<Vec<String>, String> {
    list(v, string)
}

fn label_set(v: &Value) -> Result<Labels, String> {
    let mut labels = Labels::new();
    for (name, value) in v.as_object().ok_or("not an object".to_string())? {
        labels.insert(name.clone(), string(value)?);
    }
    Ok(labels)
}

fn label_sets(v: &Value) -> Result<Vec<Labels>, String> {
    list(v, label_set)
}

fn point(v: &Value) -> Result<(Double, String), String> {
    let seconds = v[0].as_f64().ok_or("not a number".to_string())?;
    Ok((Double { bits: seconds.to_bits() }, string(&v[1])?))
}

fn vector_item(v: &Value) -> Result<VectorItem, String> {
    Ok(VectorItem { metric: label_set(&v["metric"])?, value: point(&v["value"])? })
}

fn matrix_item(v: &Value) -> Result<MatrixItem, String> {
    Ok(MatrixItem { metric: label_set(&v["metric"])?, values: list(&v["values"], point)? })
}

fn query_data(v: &Value) -> Result<QueryData, String> {
    Ok(QueryData {
        result_type: string(&v["resultType"])?,
        vector: list(&v["result"], vector_item),
        matrix: list(&v["result"], matrix_item),
        scalar: point(&v["result"]),
    })
}

fn nothing(_: &Value) -> Result<(), String> {
    Ok(())
}

fn envelope<D>(body: &str, data: fn(&Value) -> Result<D, String>) -> Result<Envelope<D>, String> {
    let v: Value = serde_json::from_str(body).map_err(|e| e.to_string())?;
    Ok(Envelope {
        status: string(&v["status"])?,
        data: match v.get("data") {
            Some(d) => Some(data(d)?),
            None => None,
        },
        warnings: match v.get("warnings") {
            Some(w) => strings(w)?,
            None => Vec::new(),
        },
        error: v["error"].as_str().map(|s| s.to_string()),
        error_type: v["errorType"].as_str().map(|s| s.to_string()),
    })
}

fn reading<D>(body: &str, data: fn(&Value) -> Result<D, String>) -> Reading<D> {
    Reading { complaint: envelope(body, nothing).ok(), envelope: envelope(body, data) }
}

fn convert(
    body: &str,
    took_ms: i64,
    downsample: Option<DownsampleInfo>,
) -> Result<QueryResult, vedavid_connector::pb::QueryError> {
    query_result(body, reading(body, query_data), took_ms, downsample)
}

fn number(v: &str) -> f64 {
    v.parse().unwrap_or(f64::NAN)
}

#[test]
fn a_vector_becomes_one_sample_per_series() {
    let r = convert(VECTOR, 7, None).unwrap();
    assert_eq!(r.result_type, ResultType::Vector);
    assert_eq!(r.series.len(), 1);
    assert_eq!(
        r.series[0].samples,
        vec![Sample {
            t_ms: 1788347462466,
            v: "1".to_string()
        }]
    );
    assert_eq!(number(&r.series[0].samples[0].v), 1.0);
    assert_eq!(r.upstream_duration_ms, 7);
    assert!(
        r.warnings.is_empty(),
        "absent warnings must default to empty"
    );
}

#[test]
fn labels_are_carried_as_pairs_in_a_stable_order() {
    let r = convert(VECTOR, 0, None).unwrap();
    let names: Vec<&str> = r.series[0].labels.iter().map(|l| l.name.as_str()).collect();
    assert_eq!(names, vec!["__name__", "instance", "job"]);
}

/// Matrix timestamps arrive as JSON integers, unlike vector's floats.
#[test]
fn a_matrix_keeps_every_sample() {
    let r = convert(MATRIX, 0, None).unwrap();
    assert_eq!(r.result_type, ResultType::Matrix);
    let s = &r.series[0].samples;
    assert_eq!(s.len(), 2);
    assert_eq!(s[0].t_ms, 1788347458000);
    assert_eq!(s[1].t_ms, 1788347473000);
}

#[test]
fn a_scalar_becomes_a_labelless_series() {
    let r = convert(SCALAR, 0, None).unwrap();
    assert_eq!(r.result_type, ResultType::Scalar);
    assert!(r.series[0].labels.is_empty());
    assert_eq!(number(&r.series[0].samples[0].v), 42.0);
}

/// Prometheus sends these as strings; losing them would silently read as 0.
#[test]
fn nan_and_infinity_survive() {
    assert!(number(&convert(NAN, 0, None).unwrap().series[0].samples[0].v).is_nan());
    assert_eq!(
        number(&convert(INF, 0, None).unwrap().series[0].samples[0].v),
        f64::INFINITY
    );
    assert_eq!(convert(NAN, 0, None).unwrap().series[0].samples[0].v, "NaN");
    assert_eq!(convert(INF, 0, None).unwrap().series[0].samples[0].v, "+Inf");
}

#[test]
fn a_bad_query_keeps_the_upstream_message_verbatim() {
    let e = query_error(400, BAD_QUERY, &envelope(BAD_QUERY, nothing).ok());
    assert_eq!(e.kind, QueryErrorKind::QueryErrorBadQuery);
    assert!(e.message.contains("unexpected end of input inside braces"));
    assert!(
        !e.message.contains("status"),
        "the envelope must not leak in"
    );
}

#[test]
fn status_codes_map_to_kinds() {
    let k = |s, t| kind_for(s, t);
    assert_eq!(k(400, None), QueryErrorKind::QueryErrorBadQuery);
    assert_eq!(k(422, None), QueryErrorKind::QueryErrorBadQuery);
    assert_eq!(k(401, None), QueryErrorKind::QueryErrorUnauthorized);
    assert_eq!(k(403, None), QueryErrorKind::QueryErrorUnauthorized);
    assert_eq!(k(503, None), QueryErrorKind::QueryErrorTimeout);
    assert_eq!(k(500, None), QueryErrorKind::QueryErrorUpstreamError);
    assert_eq!(k(200, Some("timeout")), QueryErrorKind::QueryErrorTimeout);
    // errorType wins: a proxy may have rewritten the status code.
    assert_eq!(k(200, Some("bad_data")), QueryErrorKind::QueryErrorBadQuery);
    assert_eq!(k(500, Some("bad_data")), QueryErrorKind::QueryErrorBadQuery);
    assert_eq!(
        k(200, Some("unavailable")),
        QueryErrorKind::QueryErrorUpstreamUnreachable
    );
    assert_eq!(
        k(200, Some("execution")),
        QueryErrorKind::QueryErrorUpstreamError
    );
}

#[test]
fn the_other_error_types_and_statuses_have_their_kinds() {
    assert_eq!(kind_for(200, Some("not_acceptable")), QueryErrorKind::QueryErrorBadQuery);
    assert_eq!(kind_for(200, Some("canceled")), QueryErrorKind::QueryErrorTimeout);
    assert_eq!(kind_for(200, Some("internal")), QueryErrorKind::QueryErrorUpstreamError);
    assert_eq!(kind_for(502, None), QueryErrorKind::QueryErrorUpstreamError);
    assert_eq!(kind_for(404, None), QueryErrorKind::QueryErrorUnspecified);
    assert_eq!(kind_for(401, Some("not_found")), QueryErrorKind::QueryErrorUnauthorized);
}

#[test]
fn a_success_envelope_reporting_an_error_is_still_an_error() {
    let e = convert(BAD_QUERY, 0, None).unwrap_err();
    assert_eq!(e.kind, QueryErrorKind::QueryErrorBadQuery);
}

#[test]
fn an_unparsable_body_is_an_upstream_error_not_a_panic() {
    let e = convert("<html>502 Bad Gateway</html>", 0, None).unwrap_err();
    assert_eq!(e.kind, QueryErrorKind::QueryErrorUpstreamError);
    assert_eq!(
        e.message,
        "unparsable upstream response: expected value at line 1 column 1"
    );
}

#[test]
fn labels_and_series_bodies_convert() {
    let (names, warnings) = string_list(LABELS, reading(LABELS, strings)).unwrap();
    assert_eq!(names, vec!["__name__", "instance", "job"]);
    assert!(warnings.is_empty());

    let series = series_list(SERIES, reading(SERIES, label_sets)).unwrap();
    assert_eq!(series.len(), 1);
    assert!(series[0].samples.is_empty(), "series carries labels only");
    assert_eq!(series[0].labels.len(), 3);
}

#[test]
fn downsample_info_reports_the_points_actually_returned() {
    let d = DownsampleInfo {
        step_ms: 15000,
        points_returned: 0,
        decimated: false,
    };
    let r = convert(MATRIX, 0, Some(d)).unwrap();
    let got = r.downsample.unwrap();
    assert_eq!(got.step_ms, 15000);
    assert_eq!(got.points_returned, 2);
}

#[test]
fn step_honours_the_point_budget_and_never_reaches_zero() {
    assert_eq!(step_secs(0, 3_600_000, 240), 15);
    assert_eq!(
        step_secs(0, 60_000, 240),
        1,
        "a short span still steps by 1s"
    );
    assert_eq!(
        step_secs(0, 3_600_000, 0),
        3600,
        "a zero budget must not divide by zero"
    );
    assert_eq!(
        step_secs(5_000, 0, 100),
        1,
        "an inverted range must not go negative"
    );
}

#[test]
fn a_step_cuts_a_span_into_fewer_pieces_than_twice_the_budget() {
    for span in [0i64, 1, 59, 60, 61, 119, 120, 121, 3600, 86_399] {
        for budget in [1i32, 2, 7, 60] {
            let step = step_secs(0, span * 1000, budget);
            assert!(step >= 1);
            assert!(span / step < 2 * budget as i64);
        }
    }
}

#[test]
fn every_failure_of_a_query_body_has_its_words() {
    let no_data = r#"{"status":"success"}"#;
    let e = convert(no_data, 0, None).unwrap_err();
    assert_eq!(e.kind, QueryErrorKind::QueryErrorUpstreamError);
    assert_eq!(e.message, "upstream reported success with no data");

    let streams = r#"{"status":"success","data":{"resultType":"streams","result":[]}}"#;
    assert_eq!(
        convert(streams, 0, None).unwrap_err().message,
        "unsupported resultType streams"
    );

    let misshapen = r#"{"status":"success","data":{"resultType":"vector","result":7}}"#;
    let e = convert(misshapen, 0, None).unwrap_err();
    assert_eq!(e.kind, QueryErrorKind::QueryErrorUpstreamError);
    assert_eq!(e.message, "unexpected result shape: not a list");

    assert_eq!(unparsable("x").message, "unexpected result shape: x");
    let away = vedavid_connector::convert::unreachable("no route");
    assert_eq!(away.kind, QueryErrorKind::QueryErrorUpstreamUnreachable);
    assert_eq!(away.message, "no route");
}

#[test]
fn a_string_result_is_a_scalar() {
    let body = r#"{"status":"success","data":{"resultType":"string","result":[1,"a"]},"warnings":["w"]}"#;
    let r = convert(body, 3, None).unwrap();
    assert_eq!(r.result_type, ResultType::Scalar);
    assert_eq!(r.series[0].samples[0].t_ms, 1000);
    assert_eq!(r.warnings, vec!["w"]);
    assert!(r.downsample.is_none());
}

#[test]
fn a_body_that_is_no_envelope_is_quoted_without_white_space() {
    let body = " \n<html>502</html>\u{a0}\r\n";
    let e = query_error(502, body, &envelope(body, nothing).ok());
    assert_eq!(e.message, "<html>502</html>");
    assert_eq!(e.kind, QueryErrorKind::QueryErrorUpstreamError);

    let silent = r#" {"status":"error","errorType":"timeout"} "#;
    let e = query_error(200, silent, &envelope(silent, nothing).ok());
    assert_eq!(e.message, silent.trim());
    assert_eq!(e.kind, QueryErrorKind::QueryErrorTimeout);
}

#[test]
fn lists_without_data_are_empty_and_lists_that_report_errors_are_not_lists() {
    let empty = r#"{"status":"success"}"#;
    assert_eq!(string_list(empty, reading(empty, strings)).unwrap(), (vec![], vec![]));
    assert!(series_list(empty, reading(empty, label_sets)).unwrap().is_empty());
    let e = string_list(BAD_QUERY, reading(BAD_QUERY, strings)).unwrap_err();
    assert_eq!(e.kind, QueryErrorKind::QueryErrorBadQuery);
    let e = series_list(BAD_QUERY, reading(BAD_QUERY, label_sets)).unwrap_err();
    assert_eq!(e.kind, QueryErrorKind::QueryErrorBadQuery);
    let e = series_list("[", reading("[", label_sets)).unwrap_err();
    assert_eq!(e.kind, QueryErrorKind::QueryErrorUpstreamError);
    assert!(e.message.starts_with("unexpected result shape: "));
}

/// The times that Prometheus sends, and the corners of the number format.
#[test]
fn seconds_become_milliseconds_as_doubles_do() {
    let by_float = |x: f64| (x * 1000.0).round() as i64;
    let ours = |x: f64| to_ms(Double { bits: x.to_bits() });
    let corners = [
        0.0, -0.0, 1.0, -1.0, 0.0005, -0.0005, 0.0015, 1.0005, 2.5e-4, 4.9e-324, -4.9e-324,
        1788347462.466, 1788347474.14, 9007199254740.993, 9.2e15, 9223372036854775.0,
        9223372036854776.0, -9223372036854775.8, 1e16, 1e300, -1e300, f64::MAX, f64::MIN,
        f64::MIN_POSITIVE, f64::INFINITY, f64::NEG_INFINITY, f64::NAN, 4503599627370.4965,
    ];
    for x in corners {
        assert_eq!(ours(x), by_float(x), "{}", x);
    }
    let mut seed: u64 = 0x2545_f491_4f6c_dd1d;
    for _ in 0..200_000 {
        seed ^= seed << 13;
        seed ^= seed >> 7;
        seed ^= seed << 17;
        let x = f64::from_bits(seed);
        assert_eq!(ours(x), by_float(x), "{:x}", seed);
        let near = (seed % 4_000_000_000_000_000) as f64 / 1024.0;
        assert_eq!(ours(near), by_float(near), "{}", near);
        let half = (seed % 1_000_000_000) as f64 / 2000.0;
        assert_eq!(ours(half), by_float(half), "{}", half);
    }
}

#[test]
fn a_time_that_was_sent_comes_back_unchanged() {
    let limit: i64 = 1000 << 42;
    let times = [0, 1, 999, 1000, 1788347462466, 1 << 50, (1 << 50) + 1, limit - 1];
    for i in 0..2000 {
        for ms in [i * 7919, 1788347462466 + i, limit - 1 - i * 104_729].iter().chain(&times) {
            for ms in [*ms, -*ms] {
                let seconds: f64 = secs(ms).parse().unwrap();
                assert_eq!(to_ms(Double { bits: seconds.to_bits() }), ms);
            }
        }
    }
}
