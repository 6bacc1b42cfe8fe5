use vedavid_connector::prom::{secs, urlencode, window, Prometheus};

#[test]
fn milliseconds_render_as_prometheus_seconds() {
    assert_eq!(secs(1788347462466), "1788347462.466");
    assert_eq!(secs(1000), "1.000");
}

#[test]
fn an_absent_window_is_omitted_rather_than_sent_as_zero() {
    assert!(window(0, 0, &[]).is_empty());
    let p = window(1000, 2000, &["up".into()]);
    assert_eq!(p.len(), 3);
    assert_eq!(p[2], ("match[]", "up".to_string()));
}

#[test]
fn a_label_name_is_escaped_in_the_path() {
    assert_eq!(urlencode("job"), "job");
    assert_eq!(urlencode("a/b"), "a%2Fb");
    assert_eq!(urlencode("../secrets"), "..%2Fsecrets");
}

#[test]
fn a_trailing_slash_on_the_base_url_is_dropped() {
    assert_eq!(Prometheus::new("http://x:9090/").base, "http://x:9090");
}

#[test]
fn every_trailing_slash_is_dropped_and_no_other() {
    assert_eq!(Prometheus::new("http://x/prom//").base, "http://x/prom");
    assert_eq!(Prometheus::new("http://x").base, "http://x");
    assert_eq!(Prometheus::new("///").base, "");
}

/// Large numbers are rounded on their way through a double, and a tie at the
/// last place goes to the even digit.
#[test]
fn milliseconds_render_as_a_double_does() {
    let by_float = |ms: i64| format!("{:.3}", ms as f64 / 1000.0);
    let corners = [
        0, 1, -1, 9, 10, 99, 100, 999, 1000, 1001, -999, -1000, 999_999, i64::MAX, i64::MIN,
        i64::MAX - 1, i64::MIN + 1, 1 << 53, (1 << 53) + 1, 8_796_093_022_208_000,
        8_796_093_022_208_062, 8_796_093_022_208_063, 8_796_093_022_207_999,
        9_007_199_254_740_992_000, 9_007_199_254_740_993_000, 9_007_199_254_740_991_999,
    ];
    for ms in corners {
        assert_eq!(secs(ms), by_float(ms), "{}", ms);
    }
    for ms in 8_796_093_022_208_000i64..8_796_093_022_209_100 {
        assert_eq!(secs(ms), by_float(ms), "{}", ms);
    }
    let mut seed: u64 = 0x9e37_79b9_7f4a_7c15;
    for _ in 0..100_000 {
        seed ^= seed << 13;
        seed ^= seed >> 7;
        seed ^= seed << 17;
        let ms = seed as i64;
        assert_eq!(secs(ms), by_float(ms), "{}", ms);
        assert_eq!(secs(ms >> 20), by_float(ms >> 20), "{}", ms);
        assert_eq!(secs(ms >> 10), by_float(ms >> 10), "{}", ms);
    }
}

#[test]
fn a_window_keeps_its_bounds_and_the_order_of_its_matchers() {
    let p = window(1500, 0, &["a".into(), "b".into()]);
    assert_eq!(
        p,
        vec![
            ("start", "1.500".to_string()),
            ("match[]", "a".to_string()),
            ("match[]", "b".to_string()),
        ]
    );
    assert_eq!(window(-5, 7, &[]), vec![("end", "0.007".to_string())]);
}

#[test]
fn escaping_is_by_byte_and_leaves_no_slash() {
    assert_eq!(urlencode("~a.b_c-D9"), "~a.b_c-D9");
    assert_eq!(urlencode("\u{e9} %"), "%C3%A9%20%25");
    assert_eq!(urlencode("\u{0}\u{7f}"), "%00%7F");
    assert_ne!(urlencode("%2F"), urlencode("/"));
    assert!(!urlencode("a/b?c#d").contains(|c| c == '/' || c == '?' || c == '#'));
}

#[test]
fn requests_name_their_endpoints_and_parameters() {
    let p = Prometheus::new("http://x/");
    let q = p.instant("up", 0, 5000);
    assert_eq!(q.url, "http://x/api/v1/query");
    assert_eq!(q.params, vec![("query", "up".to_string())]);
    assert_eq!(q.timeout_ms, 5000);

    let q = p.instant("up", 1500, 0);
    assert_eq!(q.params[1], ("time", "1.500".to_string()));
    assert_eq!(q.timeout_ms, 30_000);

    let q = p.range("up", 1000, 2000, -3, -1);
    assert_eq!(q.url, "http://x/api/v1/query_range");
    assert_eq!(
        q.params,
        vec![
            ("query", "up".to_string()),
            ("start", "1.000".to_string()),
            ("end", "2.000".to_string()),
            ("step", "-3".to_string()),
        ]
    );
    assert_eq!(q.timeout_ms, 30_000);

    assert_eq!(p.labels(0, 0, &[]).url, "http://x/api/v1/labels");
    assert_eq!(
        p.label_values("a/b", 0, 0, &[]).url,
        "http://x/api/v1/label/a%2Fb/values"
    );
    let q = p.series(&["up".to_string()], 0, 0);
    assert_eq!(q.url, "http://x/api/v1/series");
    assert_eq!(q.params, vec![("match[]", "up".to_string())]);
}
