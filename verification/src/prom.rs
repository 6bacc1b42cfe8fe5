//! The requests of the Prometheus HTTP API. One place that knows about
//! `/api/v1`.

use crate::double;
use crate::text;
use vstd::prelude::*;

verus! {

/// What upstream answered: an HTTP status, a body, and how long it took.
#[derive(Debug, PartialEq, Eq)]
pub struct Upstream {
    pub status: u16,
    pub body: String,
    pub took_ms: i64,
}

/// Why upstream could not be reached.
#[derive(Debug, PartialEq, Eq)]
pub struct Unreachable(pub String);

/// A GET request: where to, with which parameters, and how long to wait.
#[derive(Debug, PartialEq, Eq)]
pub struct Request {
    pub url: String,
    pub params: Vec<(&'static str, String)>,
    pub timeout_ms: u64,
}

/// What a `Request` says.
#[verifier::ext_equal]
pub struct RequestModel {
    pub url: Seq<char>,
    pub params: Seq<(Seq<char>, Seq<char>)>,
    pub timeout_ms: u64,
}

/// What some parameters say.
pub open spec fn param_texts(params: Seq<(&'static str, String)>) -> Seq<(Seq<char>, Seq<char>)> {
    params.map_values(|p: (&'static str, String)| (p.0@, p.1@))
}

impl View for Request {
    type V = RequestModel;

    open spec fn view(&self) -> RequestModel {
        RequestModel {
            url: self.url@,
            params: param_texts(self.params@),
            timeout_ms: self.timeout_ms,
        }
    }
}

/// How long to wait for upstream where the caller does not say.
pub const DEFAULT_TIMEOUT_MS: i64 = 30_000;

/// Three decimals.
pub open spec fn three_digits(n: nat) -> Seq<char> {
    seq![text::digit(n / 100 % 10), text::digit(n / 10 % 10), text::digit(n % 10)]
}

/// Thousandths as a decimal fraction with three places.
pub open spec fn fixed_point(negative: bool, thousandths: nat) -> Seq<char> {
    (if negative {
        seq!['-']
    } else {
        Seq::empty()
    }) + text::decimal(thousandths / 1000) + seq!['.'] + three_digits(thousandths % 1000)
}

/// The distance of a number from zero.
pub open spec fn size(n: i64) -> nat {
    if n < 0 {
        (-n) as nat
    } else {
        n as nat
    }
}

/// Milliseconds as seconds with three places: the double nearest to `ms`, over a
/// thousand as a double again, rounded to three places.
pub open spec fn seconds_text(ms: i64) -> Seq<char> {
    fixed_point(ms < 0, double::thousandths(double::nearest(size(ms))))
}

/// Milliseconds, as Prometheus takes seconds.
pub fn secs(ms: i64) -> (r: String)
    ensures
        r@ == seconds_text(ms),
{
    let thousandths: u64 = double::divide_to_thousandths(double::nearest_double(text::magnitude(ms)));
    let mut out = String::new();
    if ms < 0 {
        out.push('-');
    }
    let ghost sign = out@;
    let whole = text::render(thousandths / 1000);
    out.append(whole.as_str());
    out.push('.');
    let rest: u64 = thousandths % 1000;
    out.push(text::digit_char((rest / 100 % 10) as u8));
    out.push(text::digit_char((rest / 10 % 10) as u8));
    out.push(text::digit_char((rest % 10) as u8));
    assert(sign == (if ms < 0 {
        seq!['-']
    } else {
        Seq::<char>::empty()
    }));
    assert(out@ == sign + whole@ + seq!['.'] + three_digits(rest as nat));
    out
}

/// The parameters of a window of time and some matchers: a bound that is not
/// after zero is left out.
pub open spec fn window_params(start_ms: i64, end_ms: i64, matchers: Seq<Seq<char>>) -> Seq<
    (Seq<char>, Seq<char>),
> {
    (if start_ms > 0 {
        seq![("start"@, seconds_text(start_ms))]
    } else {
        Seq::empty()
    }) + (if end_ms > 0 {
        seq![("end"@, seconds_text(end_ms))]
    } else {
        Seq::empty()
    }) + matchers.map_values(|m: Seq<char>| ("match[]"@, m))
}

/// One more parameter at the end says one more thing.
proof fn lemma_param_push(params: Seq<(&'static str, String)>, p: (&'static str, String))
    ensures
        param_texts(params.push(p)) == param_texts(params).push((p.0@, p.1@)),
{
}

/// The parameters of a window of time and some matchers.
pub fn window(start_ms: i64, end_ms: i64, matchers: &[String]) -> (r: Vec<(&'static str, String)>)
    ensures
        param_texts(r@) == window_params(start_ms, end_ms, text::texts(matchers@)),
{
    let mut params: Vec<(&'static str, String)> = Vec::new();
    let ghost names = text::texts(matchers@);
    if start_ms > 0 {
        params.push(("start", secs(start_ms)));
    }
    if end_ms > 0 {
        params.push(("end", secs(end_ms)));
    }
    let ghost head = param_texts(params@);
    assert(head == window_params(start_ms, end_ms, Seq::empty()));
    let n: usize = matchers.len();
    let mut i: usize = 0;
    assert(names.take(0) == Seq::<Seq<char>>::empty());
    while i < n
        invariant
            i <= n,
            n == matchers@.len(),
            names == text::texts(matchers@),
            param_texts(params@) == window_params(start_ms, end_ms, names.take(i as int)),
        decreases n - i,
    {
        let m = matchers[i].clone();
        assert(m@ == names[i as int]);
        let ghost before = params@;
        params.push(("match[]", m));
        proof {
            lemma_param_push(before, ("match[]", m));
            assert(names.take(i + 1) == names.take(i as int).push(names[i as int]));
            assert(window_params(start_ms, end_ms, names.take(i + 1)) == window_params(
                start_ms,
                end_ms,
                names.take(i as int),
            ).push(("match[]"@, names[i as int])));
        }
        i = i + 1;
    }
    assert(names.take(n as int) == names);
    params
}

/// The bytes that may stand in a path segment as they are.
pub open spec fn unreserved(b: u8) -> bool {
    ||| 0x41 <= b <= 0x5a
    ||| 0x61 <= b <= 0x7a
    ||| 0x30 <= b <= 0x39
    ||| b == 0x2d
    ||| b == 0x5f
    ||| b == 0x2e
    ||| b == 0x7e
}

/// The hexadecimal digit of `n`, in upper case.
pub open spec fn hex_digit(n: u8) -> char {
    if n < 10 {
        (0x30 + n) as char
    } else {
        (0x41 + n - 10) as char
    }
}

/// A byte in a path segment: as it is, or as `%` and two hexadecimal digits.
pub open spec fn escaped_byte(b: u8) -> Seq<char> {
    if unreserved(b) {
        seq![b as char]
    } else {
        seq!['%', hex_digit((b / 16) as u8), hex_digit((b % 16) as u8)]
    }
}

/// Bytes in a path segment.
pub open spec fn escaped(bytes: Seq<u8>) -> Seq<char>
    decreases bytes.len(),
{
    if bytes.len() == 0 {
        Seq::empty()
    } else {
        escaped_byte(bytes[0]) + escaped(bytes.drop_first())
    }
}

/// A text in a path segment: its bytes, escaped.
pub open spec fn segment(s: Seq<char>) -> Seq<char> {
    escaped(vstd::utf8::encode_utf8(s))
}

/// `hex_digit`, computed.
fn hex_char(n: u8) -> (r: char)
    requires
        n < 16,
    ensures
        r == hex_digit(n),
{
    if n < 10 {
        (0x30 + n) as char
    } else {
        (0x41 + (n - 10)) as char
    }
}

/// Only the label-name path segment needs escaping; the parameters are escaped
/// where they are sent.
pub fn urlencode(s: &str) -> (r: String)
    ensures
        r@ == segment(s@),
{
    let bytes = s.as_bytes();
    let n: usize = bytes.len();
    let mut out = String::new();
    let mut i: usize = 0;
    assert(bytes@.skip(0) == bytes@);
    while i < n
        invariant
            n == bytes@.len(),
            i <= n,
            escaped(bytes@) == out@ + escaped(bytes@.skip(i as int)),
        decreases n - i,
    {
        let b: u8 = bytes[i];
        let ghost before = out@;
        if (0x41 <= b && b <= 0x5a) || (0x61 <= b && b <= 0x7a) || (0x30 <= b && b <= 0x39) || b
            == 0x2d || b == 0x5f || b == 0x2e || b == 0x7e {
            out.push(b as char);
        } else {
            out.push('%');
            out.push(hex_char(b / 16));
            out.push(hex_char(b % 16));
        }
        proof {
            let rest = bytes@.skip(i as int);
            assert(rest[0] == b);
            assert(rest.drop_first() == bytes@.skip(i + 1));
            assert(out@ == before + escaped_byte(b));
            assert(before + (escaped_byte(b) + escaped(rest.drop_first())) == (before
                + escaped_byte(b)) + escaped(rest.drop_first()));
        }
        i = i + 1;
    }
    assert(out@ + escaped(bytes@.skip(n as int)) == out@);
    out
}

/// The Prometheus at some base URL.
#[derive(Debug, PartialEq, Eq)]
pub struct Prometheus {
    pub base: String,
}

/// The URL of an endpoint.
pub open spec fn endpoint(base: Seq<char>, path: Seq<char>) -> Seq<char> {
    base + "/api/v1/"@ + path
}

/// How long to wait, where the caller gives `timeout_ms`: a time that is not
/// after zero stands for the default.
pub open spec fn patience(timeout_ms: i64) -> u64 {
    if timeout_ms > 0 {
        timeout_ms as u64
    } else {
        DEFAULT_TIMEOUT_MS as u64
    }
}

impl Prometheus {
    /// Slashes at the end of the base URL are dropped.
    pub fn new(base: &str) -> (r: Prometheus)
        ensures
            r.base@ == text::strip_end(base@, |c: char| c == '/'),
    {
        Prometheus { base: text::trim_end_of(base, '/') }
    }

    /// A request to an endpoint.
    fn get(&self, path: &str, params: Vec<(&'static str, String)>, timeout_ms: i64) -> (r: Request)
        ensures
            r@ == (RequestModel {
                url: endpoint(self.base@, path@),
                params: param_texts(params@),
                timeout_ms: patience(timeout_ms),
            }),
    {
        let mut url = self.base.clone();
        url.append("/api/v1/");
        url.append(path);
        let budget: i64 = if timeout_ms > 0 {
            timeout_ms
        } else {
            DEFAULT_TIMEOUT_MS
        };
        Request { url, params, timeout_ms: budget as u64 }
    }

    /// Prometheus takes unix seconds; an absent `time` means now.
    pub fn instant(&self, query: &str, time_ms: i64, timeout_ms: i64) -> (r: Request)
        ensures
            r@ == (RequestModel {
                url: endpoint(self.base@, "query"@),
                params: seq![("query"@, query@)] + (if time_ms > 0 {
                    seq![("time"@, seconds_text(time_ms))]
                } else {
                    Seq::empty()
                }),
                timeout_ms: patience(timeout_ms),
            }),
    {
        let mut params: Vec<(&'static str, String)> = Vec::new();
        params.push(("query", query.to_owned()));
        if time_ms > 0 {
            params.push(("time", secs(time_ms)));
        }
        assert(param_texts(params@) == seq![("query"@, query@)] + (if time_ms > 0 {
            seq![("time"@, seconds_text(time_ms))]
        } else {
            Seq::empty()
        }));
        self.get("query", params, timeout_ms)
    }

    /// A query over a range of time, at every `step_secs` seconds.
    pub fn range(
        &self,
        query: &str,
        start_ms: i64,
        end_ms: i64,
        step_secs: i64,
        timeout_ms: i64,
    ) -> (r: Request)
        ensures
            r@ == (RequestModel {
                url: endpoint(self.base@, "query_range"@),
                params: seq![
                    ("query"@, query@),
                    ("start"@, seconds_text(start_ms)),
                    ("end"@, seconds_text(end_ms)),
                    ("step"@, text::signed_decimal(step_secs as int)),
                ],
                timeout_ms: patience(timeout_ms),
            }),
    {
        let mut params: Vec<(&'static str, String)> = Vec::new();
        params.push(("query", query.to_owned()));
        params.push(("start", secs(start_ms)));
        params.push(("end", secs(end_ms)));
        params.push(("step", text::render_signed(step_secs)));
        assert(param_texts(params@) == seq![
            ("query"@, query@),
            ("start"@, seconds_text(start_ms)),
            ("end"@, seconds_text(end_ms)),
            ("step"@, text::signed_decimal(step_secs as int)),
        ]);
        self.get("query_range", params, timeout_ms)
    }

    /// The names of the labels in a window.
    pub fn labels(&self, start_ms: i64, end_ms: i64, matchers: &[String]) -> (r: Request)
        ensures
            r@ == (RequestModel {
                url: endpoint(self.base@, "labels"@),
                params: window_params(start_ms, end_ms, text::texts(matchers@)),
                timeout_ms: DEFAULT_TIMEOUT_MS as u64,
            }),
    {
        self.get("labels", window(start_ms, end_ms, matchers), 0)
    }

    /// The values of one label in a window.
    pub fn label_values(
        &self,
        label: &str,
        start_ms: i64,
        end_ms: i64,
        matchers: &[String],
    ) -> (r: Request)
        ensures
            r@ == (RequestModel {
                url: endpoint(self.base@, "label/"@ + segment(label@) + "/values"@),
                params: window_params(start_ms, end_ms, text::texts(matchers@)),
                timeout_ms: DEFAULT_TIMEOUT_MS as u64,
            }),
    {
        let mut path = "label/".to_owned();
        let name = urlencode(label);
        path.append(name.as_str());
        path.append("/values");
        self.get(path.as_str(), window(start_ms, end_ms, matchers), 0)
    }

    /// The series in a window.
    pub fn series(&self, matchers: &[String], start_ms: i64, end_ms: i64) -> (r: Request)
        ensures
            r@ == (RequestModel {
                url: endpoint(self.base@, "series"@),
                params: window_params(start_ms, end_ms, text::texts(matchers@)),
                timeout_ms: DEFAULT_TIMEOUT_MS as u64,
            }),
    {
        self.get("series", window(start_ms, end_ms, matchers), 0)
    }
}

/// What a hexadecimal digit in upper case stands for.
pub open spec fn hex_value(c: char) -> int {
    if c as u32 <= 0x39 {
        c as u32 - 0x30
    } else {
        c as u32 - 0x41 + 10
    }
}

/// The bytes that a path segment stands for.
pub open spec fn unescaped(s: Seq<char>) -> Seq<u8>
    decreases s.len(),
{
    if s.len() == 0 {
        Seq::empty()
    } else if s[0] == '%' && s.len() >= 3 {
        seq![(16 * hex_value(s[1]) + hex_value(s[2])) as u8] + unescaped(s.skip(3))
    } else {
        seq![s[0] as u8] + unescaped(s.drop_first())
    }
}

/// Whether a character can stand in an escaped path segment.
pub open spec fn segment_char(c: char) -> bool {
    c == '%' || (c as u32 <= 0x7f && unreserved(c as u8))
}

proof fn lemma_escaped_chars(bytes: Seq<u8>)
    ensures
        forall|i: int| 0 <= i < escaped(bytes).len() ==> segment_char(#[trigger] escaped(bytes)[i]),
    decreases bytes.len(),
{
    if bytes.len() > 0 {
        lemma_escaped_chars(bytes.drop_first());
        let head = escaped_byte(bytes[0]);
        let tail = escaped(bytes.drop_first());
        assert forall|i: int| 0 <= i < escaped(bytes).len() implies segment_char(
            #[trigger] escaped(bytes)[i],
        ) by {
            if i >= head.len() {
                assert(escaped(bytes)[i] == tail[i - head.len()]);
            }
        }
    }
}

proof fn lemma_unescaped(bytes: Seq<u8>)
    ensures
        unescaped(escaped(bytes)) == bytes,
    decreases bytes.len(),
{
    if bytes.len() > 0 {
        let b = bytes[0];
        let tail = escaped(bytes.drop_first());
        let all = escaped(bytes);
        lemma_unescaped(bytes.drop_first());
        if unreserved(b) {
            assert(all.drop_first() == tail);
        } else {
            assert(all.skip(3) == tail);
            assert(hex_value(all[1]) == b / 16 && hex_value(all[2]) == b % 16);
        }
        assert(bytes == seq![b] + bytes.drop_first());
    }
}

/// A label name adds no path segment, query or fragment: of what it is escaped
/// to, every character is a letter, a digit, one of `-_.~`, or `%`. No `/`, `?`
/// or `#` is among them. The labels `.` and `..` are escaped to themselves, and
/// whoever resolves the URL takes them for this segment and for its parent.
pub proof fn law_a_label_stays_in_its_segment(label: Seq<char>)
    ensures
        forall|i: int| 0 <= i < segment(label).len() ==> segment_char(#[trigger] segment(label)[i]),
        !segment(label).contains('/'),
        !segment(label).contains('?'),
        !segment(label).contains('#'),
{
    lemma_escaped_chars(vstd::utf8::encode_utf8(label));
}

/// Escaping loses nothing: the bytes of the label come back, and two labels that
/// differ are asked for at different paths.
pub proof fn law_escaping_keeps_labels_apart(a: Seq<char>, b: Seq<char>)
    ensures
        unescaped(segment(a)) == vstd::utf8::encode_utf8(a),
        segment(a) == segment(b) ==> a == b,
{
    lemma_unescaped(vstd::utf8::encode_utf8(a));
    lemma_unescaped(vstd::utf8::encode_utf8(b));
    vstd::utf8::encode_utf8_decode_utf8(a);
    vstd::utf8::encode_utf8_decode_utf8(b);
}

/// Milliseconds render as their seconds, to the millisecond, up to 2^43 seconds
/// on either side of zero.
pub proof fn law_milliseconds_render_exactly(ms: i64)
    requires
        size(ms) < double::LIMIT / 1024 * 1000,
    ensures
        seconds_text(ms) == fixed_point(ms < 0, size(ms)),
{
    double::lemma_nearest_exact(size(ms), 0);
    vstd::arithmetic::power2::lemma2_to64();
    assert(size(ms) * 1 == size(ms));
    double::lemma_thousandths_exact(size(ms));
}

/// An absent bound is left out rather than sent as zero, and what is left keeps
/// the order of the matchers.
pub proof fn law_an_absent_window_is_left_out(matchers: Seq<Seq<char>>, start_ms: i64, end_ms: i64)
    requires
        start_ms <= 0,
        end_ms <= 0,
    ensures
        window_params(start_ms, end_ms, matchers) == matchers.map_values(
            |m: Seq<char>| ("match[]"@, m),
        ),
{
}

/// The base URL that is kept does not end with a slash, and dropping slashes
/// again changes nothing.
pub proof fn law_base_has_no_trailing_slash(base: Seq<char>)
    ensures
        ({
            let kept = text::strip_end(base, |c: char| c == '/');
            &&& kept.len() > 0 ==> kept.last() != '/'
            &&& text::strip_end(kept, |c: char| c == '/') == kept
        }),
    decreases base.len(),
{
    if base.len() > 0 && base.last() == '/' {
        law_base_has_no_trailing_slash(base.drop_last());
    }
}

} // verus!
