//! Laws of the requests to Prometheus: what is asked upstream is what the caller
//! asked for.

use crate::convert;
use crate::laws::texts;
use crate::laws::times;
use crate::pb::{
    DownsampleInfo, InstantQueryRequest, LabelValuesRequest, LabelsRequest, RangeQueryRequest,
    SeriesRequest,
};
use crate::prom;
use crate::prom::{Prometheus, Request};
use crate::service::QueryService;
use crate::text;
use vstd::prelude::*;

verus! {

/// Whether a parameter has a name and a value.
pub open spec fn is_param(p: (&'static str, String), name: Seq<char>, value: Seq<char>) -> bool {
    p.0@ == name && p.1@ == value
}

/// Whether a parameter has a name and tells a time.
pub open spec fn is_time(p: (&'static str, String), name: Seq<char>, ms: i64) -> bool {
    p.0@ == name && times::tells_time(p.1@, ms)
}

/// How many parameters a bound of a window takes: none, where it is not after
/// zero.
pub open spec fn bounds(ms: i64) -> int {
    if ms > 0 {
        1
    } else {
        0
    }
}

/// Whether parameters ask for a window of time and for some matchers: first the
/// start, where there is one, then the end, where there is one, and then every
/// matcher, in their order.
pub open spec fn ask_window(
    params: Seq<(&'static str, String)>,
    start_ms: i64,
    end_ms: i64,
    matchers: Seq<String>,
) -> bool {
    let rest = params.skip(bounds(start_ms) + bounds(end_ms));
    &&& params.len() == bounds(start_ms) + bounds(end_ms) + matchers.len()
    &&& start_ms > 0 ==> is_time(params[0], "start"@, start_ms)
    &&& end_ms > 0 ==> is_time(params[bounds(start_ms)], "end"@, end_ms)
    &&& forall|k: int|
        0 <= k < matchers.len() ==> is_param(#[trigger] rest[k], "match[]"@, matchers[k]@)
}

/// Whether parameters ask for a query at a time, or at no time where it is not
/// after zero.
pub open spec fn ask_instant(
    params: Seq<(&'static str, String)>,
    query: Seq<char>,
    time_ms: i64,
) -> bool {
    &&& params.len() == (if time_ms > 0 {
        2int
    } else {
        1
    })
    &&& is_param(params[0], "query"@, query)
    &&& time_ms > 0 ==> is_time(params[1], "time"@, time_ms)
}

/// Whether parameters ask for a query over a range of time, at a step in seconds.
pub open spec fn ask_range(
    params: Seq<(&'static str, String)>,
    query: Seq<char>,
    start_ms: i64,
    end_ms: i64,
    step: int,
) -> bool {
    &&& params.len() == 4
    &&& is_param(params[0], "query"@, query)
    &&& is_time(params[1], "start"@, start_ms)
    &&& is_time(params[2], "end"@, end_ms)
    &&& params[3].0@ == "step"@
    &&& step >= 0 ==> texts::plain_number(params[3].1@) && texts::reads(params[3].1@) == step
    &&& step < 0 ==> params[3].1@.len() > 1 && params[3].1@[0] == '-' && texts::plain_number(
        params[3].1@.drop_first(),
    ) && texts::reads(params[3].1@.drop_first()) == -step
}

/// Whether a request waits as long as the caller asks, and half a minute where
/// the caller does not say.
pub open spec fn waits(r: Request, timeout_ms: i64) -> bool {
    &&& timeout_ms > 0 ==> r.timeout_ms == timeout_ms
    &&& timeout_ms <= 0 ==> r.timeout_ms == 30_000
}

proof fn lemma_window(
    params: Seq<(&'static str, String)>,
    start_ms: i64,
    end_ms: i64,
    matchers: Seq<String>,
)
    requires
        prom::param_texts(params) == prom::window_params(start_ms, end_ms, text::texts(matchers)),
    ensures
        ask_window(params, start_ms, end_ms, matchers),
{
    let told = prom::param_texts(params);
    let names = text::texts(matchers);
    let starts = bounds(start_ms);
    let ends = bounds(end_ms);
    let rest = params.skip(starts + ends);
    assert(told.len() == params.len());
    assert(names.len() == matchers.len());
    assert(names.map_values(|m: Seq<char>| ("match[]"@, m)).len() == matchers.len());
    times::lemma_seconds_text(start_ms);
    times::lemma_seconds_text(end_ms);
    if start_ms > 0 {
        assert(told[0] == (params[0].0@, params[0].1@));
    }
    if end_ms > 0 {
        assert(told[starts] == (params[starts].0@, params[starts].1@));
    }
    assert forall|k: int| 0 <= k < matchers.len() implies is_param(
        #[trigger] rest[k],
        "match[]"@,
        matchers[k]@,
    ) by {
        let i = starts + ends + k;
        assert(rest[k] == params[i]);
        assert(told[i] == (params[i].0@, params[i].1@));
        assert(names[k] == matchers[k]@);
    }
}

proof fn lemma_instant(params: Seq<(&'static str, String)>, query: Seq<char>, time_ms: i64)
    requires
        prom::param_texts(params) == seq![("query"@, query)] + (if time_ms > 0 {
            seq![("time"@, prom::seconds_text(time_ms))]
        } else {
            Seq::empty()
        }),
    ensures
        ask_instant(params, query, time_ms),
{
    let told = prom::param_texts(params);
    assert(told.len() == params.len());
    times::lemma_seconds_text(time_ms);
    assert(told[0] == (params[0].0@, params[0].1@));
    if time_ms > 0 {
        assert(told[1] == (params[1].0@, params[1].1@));
    }
}

proof fn lemma_range(
    params: Seq<(&'static str, String)>,
    query: Seq<char>,
    start_ms: i64,
    end_ms: i64,
    step: int,
)
    requires
        prom::param_texts(params) == seq![
            ("query"@, query),
            ("start"@, prom::seconds_text(start_ms)),
            ("end"@, prom::seconds_text(end_ms)),
            ("step"@, text::signed_decimal(step)),
        ],
    ensures
        ask_range(params, query, start_ms, end_ms, step),
{
    let told = prom::param_texts(params);
    assert(told.len() == params.len());
    times::lemma_seconds_text(start_ms);
    times::lemma_seconds_text(end_ms);
    assert(told[0] == (params[0].0@, params[0].1@));
    assert(told[1] == (params[1].0@, params[1].1@));
    assert(told[2] == (params[2].0@, params[2].1@));
    assert(told[3] == (params[3].0@, params[3].1@));
    if step < 0 {
        texts::lemma_decimal((-step) as nat);
        assert(params[3].1@.drop_first() == text::decimal((-step) as nat));
    } else {
        texts::lemma_decimal(step as nat);
    }
}

proof fn lemma_endpoints(base: Seq<char>, name: Seq<char>)
    ensures
        prom::endpoint(base, "query"@) == base + "/api/v1/query"@,
        prom::endpoint(base, "query_range"@) == base + "/api/v1/query_range"@,
        prom::endpoint(base, "labels"@) == base + "/api/v1/labels"@,
        prom::endpoint(base, "series"@) == base + "/api/v1/series"@,
        prom::endpoint(base, "label/"@ + name + "/values"@) == base + "/api/v1/label/"@ + name
            + "/values"@,
{
    reveal_strlit("/api/v1/");
    reveal_strlit("query");
    reveal_strlit("/api/v1/query");
    reveal_strlit("query_range");
    reveal_strlit("/api/v1/query_range");
    reveal_strlit("labels");
    reveal_strlit("/api/v1/labels");
    reveal_strlit("series");
    reveal_strlit("/api/v1/series");
    reveal_strlit("label/");
    reveal_strlit("/api/v1/label/");
    assert("/api/v1/"@ + "query"@ == "/api/v1/query"@);
    assert("/api/v1/"@ + "query_range"@ == "/api/v1/query_range"@);
    assert("/api/v1/"@ + "labels"@ == "/api/v1/labels"@);
    assert("/api/v1/"@ + "series"@ == "/api/v1/series"@);
    assert("/api/v1/"@ + "label/"@ == "/api/v1/label/"@);
    assert(prom::endpoint(base, "query"@) == base + ("/api/v1/"@ + "query"@));
    assert(prom::endpoint(base, "query_range"@) == base + ("/api/v1/"@ + "query_range"@));
    assert(prom::endpoint(base, "labels"@) == base + ("/api/v1/"@ + "labels"@));
    assert(prom::endpoint(base, "series"@) == base + ("/api/v1/"@ + "series"@));
    assert(prom::endpoint(base, "label/"@ + name + "/values"@) == base + ("/api/v1/"@ + "label/"@)
        + name + "/values"@);
}

/// A window asks for its start and for its end, each whatever the other is, and
/// for every matcher. A bound that is not after zero is not asked for.
pub proof fn law_a_window_asks_for_both_its_ends(
    start_ms: i64,
    end_ms: i64,
    matchers: &[String],
    r: Vec<(&'static str, String)>,
)
    requires
        call_ensures(prom::window, (start_ms, end_ms, matchers), r),
    ensures
        ask_window(r@, start_ms, end_ms, matchers@),
{
    lemma_window(r@, start_ms, end_ms, matchers@);
}

/// Slashes at the end of the base URL are dropped, all of them, and nothing else.
pub proof fn law_only_trailing_slashes_are_dropped(base: &str, r: Prometheus)
    requires
        call_ensures(Prometheus::new, (base,), r),
    ensures
        r.base@.len() <= base@.len(),
        r.base@ == base@.take(r.base@.len() as int),
        forall|i: int| r.base@.len() <= i < base@.len() ==> (#[trigger] base@[i]) == '/',
        r.base@.len() > 0 ==> r.base@.last() != '/',
{
    let drop = |c: char| c == '/';
    texts::lemma_strip_end(base@, drop);
    assert forall|i: int| r.base@.len() <= i < base@.len() implies (#[trigger] base@[i]) == '/' by {
        assert(drop(base@[i]));
    }
    if r.base@.len() > 0 {
        assert(!drop(r.base@.last()));
    }
}

/// An instant query asks for the query, word for word, at the time that the
/// caller gives.
pub proof fn law_an_instant_query_asks_for_the_query(
    p: &Prometheus,
    query: &str,
    time_ms: i64,
    timeout_ms: i64,
    r: Request,
)
    requires
        call_ensures(Prometheus::instant, (p, query, time_ms, timeout_ms), r),
    ensures
        r.url@ == p.base@ + "/api/v1/query"@,
        ask_instant(r.params@, query@, time_ms),
        waits(r, timeout_ms),
{
    lemma_endpoints(p.base@, query@);
    lemma_instant(r.params@, query@, time_ms);
}

/// A range query asks for the query, word for word, from its start to its end,
/// at the step that is given.
pub proof fn law_a_range_query_asks_for_the_range(
    p: &Prometheus,
    query: &str,
    start_ms: i64,
    end_ms: i64,
    step_secs: i64,
    timeout_ms: i64,
    r: Request,
)
    requires
        call_ensures(
            Prometheus::range,
            (p, query, start_ms, end_ms, step_secs, timeout_ms),
            r,
        ),
    ensures
        r.url@ == p.base@ + "/api/v1/query_range"@,
        ask_range(r.params@, query@, start_ms, end_ms, step_secs as int),
        waits(r, timeout_ms),
{
    lemma_endpoints(p.base@, query@);
    lemma_range(r.params@, query@, start_ms, end_ms, step_secs as int);
}

/// The names of labels are asked for in their window.
pub proof fn law_labels_are_asked_for_in_their_window(
    p: &Prometheus,
    start_ms: i64,
    end_ms: i64,
    matchers: &[String],
    r: Request,
)
    requires
        call_ensures(Prometheus::labels, (p, start_ms, end_ms, matchers), r),
    ensures
        r.url@ == p.base@ + "/api/v1/labels"@,
        ask_window(r.params@, start_ms, end_ms, matchers@),
        waits(r, 0),
{
    lemma_endpoints(p.base@, Seq::empty());
    lemma_window(r.params@, start_ms, end_ms, matchers@);
}

/// The values of a label are asked for under its escaped name, in their window.
pub proof fn law_label_values_are_asked_for_under_the_label(
    p: &Prometheus,
    label: &str,
    start_ms: i64,
    end_ms: i64,
    matchers: &[String],
    escaped: String,
    r: Request,
)
    requires
        call_ensures(Prometheus::label_values, (p, label, start_ms, end_ms, matchers), r),
        call_ensures(prom::urlencode, (label,), escaped),
    ensures
        r.url@ == p.base@ + "/api/v1/label/"@ + escaped@ + "/values"@,
        ask_window(r.params@, start_ms, end_ms, matchers@),
        waits(r, 0),
{
    lemma_endpoints(p.base@, escaped@);
    lemma_window(r.params@, start_ms, end_ms, matchers@);
}

/// Series are asked for in their window.
pub proof fn law_series_are_asked_for_in_their_window(
    p: &Prometheus,
    matchers: &[String],
    start_ms: i64,
    end_ms: i64,
    r: Request,
)
    requires
        call_ensures(Prometheus::series, (p, matchers, start_ms, end_ms), r),
    ensures
        r.url@ == p.base@ + "/api/v1/series"@,
        ask_window(r.params@, start_ms, end_ms, matchers@),
        waits(r, 0),
{
    lemma_endpoints(p.base@, Seq::empty());
    lemma_window(r.params@, start_ms, end_ms, matchers@);
}

/// An instant query of the service asks its Prometheus for the query of its
/// message, at the time that the message gives.
pub proof fn law_the_service_asks_for_the_query(s: &QueryService, m: &InstantQueryRequest, r: Request)
    requires
        call_ensures(QueryService::instant_query, (s, m), r),
    ensures
        r.url@ == s.prom.base@ + "/api/v1/query"@,
        ask_instant(r.params@, m.query@, m.time_ms),
        waits(r, m.timeout_ms),
{
    lemma_endpoints(s.prom.base@, Seq::empty());
    lemma_instant(r.params@, m.query@, m.time_ms);
}

/// The service asks its Prometheus for the names of labels in the window of its
/// message.
pub proof fn law_the_service_asks_for_labels(s: &QueryService, m: &LabelsRequest, r: Request)
    requires
        call_ensures(QueryService::labels, (s, m), r),
    ensures
        r.url@ == s.prom.base@ + "/api/v1/labels"@,
        ask_window(r.params@, m.start_ms, m.end_ms, m.matchers@),
        waits(r, 0),
{
    lemma_endpoints(s.prom.base@, Seq::empty());
    lemma_window(r.params@, m.start_ms, m.end_ms, m.matchers@);
}

/// The service asks its Prometheus for the values of the label of its message, in
/// the window of the message.
pub proof fn law_the_service_asks_for_label_values(
    s: &QueryService,
    m: &LabelValuesRequest,
    label: &str,
    escaped: String,
    r: Request,
)
    requires
        call_ensures(QueryService::label_values, (s, m), r),
        call_ensures(prom::urlencode, (label,), escaped),
        label@ == m.label@,
    ensures
        r.url@ == s.prom.base@ + "/api/v1/label/"@ + escaped@ + "/values"@,
        ask_window(r.params@, m.start_ms, m.end_ms, m.matchers@),
        waits(r, 0),
{
    lemma_endpoints(s.prom.base@, escaped@);
    lemma_window(r.params@, m.start_ms, m.end_ms, m.matchers@);
}

/// The service asks its Prometheus for series in the window of its message.
pub proof fn law_the_service_asks_for_series(s: &QueryService, m: &SeriesRequest, r: Request)
    requires
        call_ensures(QueryService::series, (s, m), r),
    ensures
        r.url@ == s.prom.base@ + "/api/v1/series"@,
        ask_window(r.params@, m.start_ms, m.end_ms, m.matchers@),
        waits(r, 0),
{
    lemma_endpoints(s.prom.base@, Seq::empty());
    lemma_window(r.params@, m.start_ms, m.end_ms, m.matchers@);
}

/// A range query of the service asks for the range of its message, at the step
/// that its point budget gives, and says that step in milliseconds.
pub proof fn law_the_service_asks_for_ranges_at_the_step_of_the_budget(
    s: &QueryService,
    m: &RangeQueryRequest,
    step: i64,
    q: (Request, DownsampleInfo),
)
    requires
        convert::span_fits(m.start_ms, m.end_ms),
        call_ensures(QueryService::range_query, (s, m), q),
        call_ensures(convert::step_secs, (m.start_ms, m.end_ms, m.max_points), step),
    ensures
        q.0.url@ == s.prom.base@ + "/api/v1/query_range"@,
        ask_range(q.0.params@, m.query@, m.start_ms, m.end_ms, step as int),
        waits(q.0, m.timeout_ms),
        q.1.step_ms == step * 1000,
        q.1.points_returned == 0,
        !q.1.decimated,
{
    lemma_endpoints(s.prom.base@, m.query@);
    lemma_range(q.0.params@, m.query@, m.start_ms, m.end_ms, step as int);
}

/// A service answers from the Prometheus that it is given.
pub proof fn law_a_service_keeps_its_prometheus(p: Prometheus, r: QueryService)
    requires
        call_ensures(QueryService::new, (p,), r),
    ensures
        r.prom.base@ == p.base@,
{
}

/// Whether a character stands in a path segment as it is.
pub open spec fn plain(c: char) -> bool {
    ||| 'A' <= c <= 'Z'
    ||| 'a' <= c <= 'z'
    ||| '0' <= c <= '9'
    ||| c == '-' || c == '_' || c == '.' || c == '~'
}

proof fn lemma_escaped_concat(a: Seq<u8>, b: Seq<u8>)
    ensures
        prom::escaped(a + b) == prom::escaped(a) + prom::escaped(b),
    decreases a.len(),
{
    if a.len() == 0 {
        assert(a + b == b);
    } else {
        assert((a + b).drop_first() == a.drop_first() + b);
        lemma_escaped_concat(a.drop_first(), b);
        assert(prom::escaped(a + b) == prom::escaped_byte(a[0]) + (prom::escaped(a.drop_first())
            + prom::escaped(b)));
    }
}

proof fn lemma_utf8_concat(a: Seq<char>, b: Seq<char>)
    ensures
        vstd::utf8::encode_utf8(a + b) == vstd::utf8::encode_utf8(a) + vstd::utf8::encode_utf8(b),
    decreases a.len(),
{
    if a.len() == 0 {
        assert(a + b == b);
    } else {
        assert((a + b).drop_first() == a.drop_first() + b);
        lemma_utf8_concat(a.drop_first(), b);
    }
}

/// A label is escaped character by character: what a label of two parts is
/// escaped to is what its parts are escaped to.
pub proof fn law_labels_are_escaped_character_by_character(
    a: &str,
    b: &str,
    both: &str,
    of_a: String,
    of_b: String,
    of_both: String,
)
    requires
        call_ensures(prom::urlencode, (a,), of_a),
        call_ensures(prom::urlencode, (b,), of_b),
        call_ensures(prom::urlencode, (both,), of_both),
        both@ == a@ + b@,
    ensures
        of_both@ == of_a@ + of_b@,
{
    lemma_utf8_concat(a@, b@);
    lemma_escaped_concat(vstd::utf8::encode_utf8(a@), vstd::utf8::encode_utf8(b@));
}

proof fn lemma_plain_bytes(bytes: Seq<u8>)
    requires
        forall|i: int| 0 <= i < bytes.len() ==> prom::unreserved(#[trigger] bytes[i]),
    ensures
        prom::escaped(bytes).len() == bytes.len(),
        forall|i: int| 0 <= i < bytes.len() ==> (#[trigger] prom::escaped(bytes)[i]) == bytes[i] as char,
    decreases bytes.len(),
{
    if bytes.len() > 0 {
        let rest = bytes.drop_first();
        lemma_plain_bytes(rest);
        let all = prom::escaped(bytes);
        assert(all == seq![bytes[0] as char] + prom::escaped(rest));
        assert forall|i: int| 0 <= i < bytes.len() implies (#[trigger] all[i]) == bytes[i] as char by {
            if i > 0 {
                assert(all[i] == prom::escaped(rest)[i - 1]);
                assert(rest[i - 1] == bytes[i]);
            }
        }
    }
}

/// A label of letters, digits and `-_.~` is not changed by escaping.
pub proof fn law_a_plain_label_is_not_changed(label: &str, r: String)
    requires
        call_ensures(prom::urlencode, (label,), r),
        forall|i: int| 0 <= i < label@.len() ==> plain(#[trigger] label@[i]),
    ensures
        r@ == label@,
{
    let s = label@;
    let bytes = vstd::utf8::encode_utf8(s);
    assert(vstd::utf8::is_ascii_chars(s)) by {
        assert forall|i: int| 0 <= i < s.len() implies '\0' <= #[trigger] s[i] <= '\u{7f}' by {
            assert(plain(s[i]));
        }
    }
    vstd::utf8::is_ascii_chars_encode_utf8(s);
    assert forall|i: int| 0 <= i < bytes.len() implies prom::unreserved(#[trigger] bytes[i]) by {
        assert(plain(s[i]));
        assert(s[i] as u8 == bytes[i]);
    }
    lemma_plain_bytes(bytes);
    assert forall|i: int| 0 <= i < s.len() implies r@[i] == s[i] by {
        assert(prom::escaped(bytes)[i] == bytes[i] as char);
        assert(s[i] as u8 == bytes[i]);
        assert(plain(s[i]));
    }
    assert(r@ == s);
}

proof fn lemma_escaped_plain(bytes: Seq<u8>)
    ensures
        forall|i: int|
            0 <= i < prom::escaped(bytes).len() ==> (#[trigger] prom::escaped(bytes)[i]) == '%'
                || plain(prom::escaped(bytes)[i]),
    decreases bytes.len(),
{
    if bytes.len() > 0 {
        let rest = prom::escaped(bytes.drop_first());
        lemma_escaped_plain(bytes.drop_first());
        let head = prom::escaped_byte(bytes[0]);
        let all = prom::escaped(bytes);
        assert forall|i: int| 0 <= i < all.len() implies (#[trigger] all[i]) == '%' || plain(
            all[i],
        ) by {
            if i >= head.len() {
                assert(all[i] == rest[i - head.len()]);
            } else {
                assert(all[i] == head[i]);
            }
        }
    }
}

/// What a label is escaped to holds nothing but letters, digits, `-_.~` and `%`,
/// and stands for the bytes of the label.
pub proof fn law_an_escaped_label_stands_for_the_label(label: &str, r: String)
    requires
        call_ensures(prom::urlencode, (label,), r),
    ensures
        forall|i: int| 0 <= i < r@.len() ==> (#[trigger] r@[i]) == '%' || plain(r@[i]),
        prom::unescaped(r@) == vstd::utf8::encode_utf8(label@),
{
    lemma_escaped_plain(vstd::utf8::encode_utf8(label@));
    prom::law_escaping_keeps_labels_apart(label@, label@);
}

} // verus!
