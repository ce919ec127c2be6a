//! How the dashboard's HTTP requests are read and answered.
use vstd::prelude::*;
use vstd::string::StringSliceAdditionalSpecFns;
use crate::config::opt_string_view;
use crate::models::{window_minutes, Window};
use crate::text::{
    ascii_lower_seq, decimal_digits, decimal_value, digits_value, parse_usize, push_str, split_char, split_once,
    split_once_spec, split_spec, str_eq, to_ascii_lowercase, u64_to_decimal, views_of,
};

verus! {

// ---------------------------------------------------------------------------
// Status lines
// ---------------------------------------------------------------------------

/// The statuses the server answers with.
#[allow(non_camel_case_types)]
#[derive(Clone, Copy, Debug, PartialEq, Eq, Structural)]
pub enum StatusCode {
    OK,
    BAD_REQUEST,
    NOT_FOUND,
    NOT_MODIFIED,
}

pub open spec fn status_code_spec(s: StatusCode) -> Seq<char> {
    match s {
        StatusCode::OK => "200"@,
        StatusCode::NOT_MODIFIED => "304"@,
        StatusCode::BAD_REQUEST => "400"@,
        StatusCode::NOT_FOUND => "404"@,
    }
}

pub open spec fn status_reason_spec(s: StatusCode) -> Seq<char> {
    match s {
        StatusCode::OK => "Ok"@,
        StatusCode::NOT_MODIFIED => "Not Modified"@,
        StatusCode::BAD_REQUEST => "Bad Request"@,
        StatusCode::NOT_FOUND => "Not Found"@,
    }
}

impl StatusCode {
    /// The status's number.
    pub fn as_str(self) -> (res: &'static str)
        ensures
            res@ == status_code_spec(self),
    {
        match self {
            StatusCode::OK => "200",
            StatusCode::NOT_MODIFIED => "304",
            StatusCode::BAD_REQUEST => "400",
            StatusCode::NOT_FOUND => "404",
        }
    }

    /// The status's reason phrase.
    pub fn reason(self) -> (res: &'static str)
        ensures
            res@ == status_reason_spec(self),
    {
        match self {
            StatusCode::OK => "Ok",
            StatusCode::NOT_MODIFIED => "Not Modified",
            StatusCode::BAD_REQUEST => "Bad Request",
            StatusCode::NOT_FOUND => "Not Found",
        }
    }

    /// The number and the reason phrase, separated by a space.
    pub fn to_string(self) -> (res: String)
        ensures
            res@ == status_code_spec(self) + " "@ + status_reason_spec(self),
    {
        let mut s = String::from_str(self.as_str());
        push_str(&mut s, " ");
        push_str(&mut s, self.reason());
        s
    }
}

/// The characters of an optional string.
pub open spec fn opt_str_view(o: Option<&str>) -> Option<Seq<char>> {
    match o {
        Some(s) => Some(s@),
        None => None,
    }
}

/// `HTTP/1.1`, the status and its reason, ending the line.
pub open spec fn status_line(s: StatusCode) -> Seq<char> {
    "HTTP/1.1 "@ + status_code_spec(s) + " "@ + status_reason_spec(s) + "\r\n"@
}

fn status_line_exec(s: StatusCode) -> (res: String)
    ensures
        res@ == status_line(s),
{
    let mut r = String::from_str("HTTP/1.1 ");
    push_str(&mut r, s.as_str());
    push_str(&mut r, " ");
    push_str(&mut r, s.reason());
    push_str(&mut r, "\r\n");
    r
}

/// A response without a body, which closes the connection.
pub open spec fn empty_response_spec(s: StatusCode) -> Seq<char> {
    status_line(s) + "Connection: close\r\n\r\n"@
}

/// A response without a body, which closes the connection.
pub fn empty_response(s: StatusCode) -> (res: String)
    ensures
        res@ == empty_response_spec(s),
{
    let mut r = status_line_exec(s);
    push_str(&mut r, "Connection: close\r\n\r\n");
    r
}

/// The response with a file's contents: its length in bytes, its entity
/// tag, its content type where one is known, then the contents.
pub open spec fn file_response_spec(
    len: nat,
    etag: Seq<char>,
    content_type: Option<Seq<char>>,
    contents: Seq<char>,
) -> Seq<char> {
    status_line(StatusCode::OK) + "Content-Length: "@ + decimal_digits(len) + "\r\nEtag: "@ + etag
        + "\r\n"@ + match content_type {
        Some(t) => "Content-Type: "@ + t + "\r\n"@,
        None => Seq::empty(),
    } + "\r\n"@ + contents
}

/// The response with the dashboard's data, as JSON.
pub open spec fn json_response_spec(len: nat, json: Seq<char>) -> Seq<char> {
    status_line(StatusCode::OK) + "Content-Length: "@ + decimal_digits(len)
        + "\r\nContent-Type: application/json;charset=utf-8\r\n\r\n"@ + json
}

/// The response with the dashboard's data, as JSON; its length is
/// counted in bytes.
pub fn json_response(json: &str) -> (res: String)
    ensures
        res@ == json_response_spec(json.spec_bytes().len(), json@),
{
    let len = json.as_bytes().len();
    let mut r = status_line_exec(StatusCode::OK);
    push_str(&mut r, "Content-Length: ");
    let digits = u64_to_decimal(len as u64);
    push_str(&mut r, digits.as_str());
    push_str(&mut r, "\r\nContent-Type: application/json;charset=utf-8\r\n\r\n");
    push_str(&mut r, json);
    r
}

// ---------------------------------------------------------------------------
// Content types
// ---------------------------------------------------------------------------

/// What `Path::extension` gives for a path: the part of its file name after
/// the last dot, where there is one.
pub uninterp spec fn path_extension(path: Seq<char>) -> Option<Seq<char>>;

/// `std::path::Path::extension`, read as text. Its result is given the name
/// `path_extension`; how a path splits into components is not stated here.
#[verifier::external_body]
fn extension_of(path: &str) -> (res: Option<String>)
    ensures
        opt_string_view(res) == path_extension(path@),
{
    std::path::Path::new(path).extension().and_then(|e| e.to_str()).map(|e| e.to_string())
}

/// The content type of a file with extension `ext`.
pub open spec fn content_type_spec(ext: Option<Seq<char>>) -> Option<Seq<char>> {
    match ext {
        Some(e) => if e == "html"@ {
            Some("text/html;charset=utf-8"@)
        } else if e == "js"@ {
            Some("application/javascript;charset=utf-8"@)
        } else if e == "css"@ {
            Some("text/css;charset=utf-8"@)
        } else {
            None
        },
        None => None,
    }
}

/// The content type of a file with extension `ext`: HTML, JavaScript and
/// CSS are known.
pub fn content_type_for(ext: Option<&str>) -> (res: Option<&'static str>)
    ensures
        match res {
            Some(t) => content_type_spec(opt_str_view(ext)) == Some(t@),
            None => content_type_spec(opt_str_view(ext)) is None,
        },
{
    match ext {
        Some(e) => if str_eq(e, "html") {
            Some("text/html;charset=utf-8")
        } else if str_eq(e, "js") {
            Some("application/javascript;charset=utf-8")
        } else if str_eq(e, "css") {
            Some("text/css;charset=utf-8")
        } else {
            None
        },
        None => None,
    }
}

/// The content type of the file at `path`, by its extension.
pub fn content_type(path: &str) -> (res: Option<&'static str>)
    ensures
        match res {
            Some(t) => content_type_spec(path_extension(path@)) == Some(t@),
            None => content_type_spec(path_extension(path@)) is None,
        },
{
    let ext = extension_of(path);
    match ext {
        Some(e) => content_type_for(Some(e.as_str())),
        None => content_type_for(None),
    }
}

/// The response with a file's contents.
pub fn file_response(path: &str, contents: &str, etag: &str) -> (res: String)
    ensures
        res@ == file_response_spec(
            contents.spec_bytes().len(),
            etag@,
            content_type_spec(path_extension(path@)),
            contents@,
        ),
{
    let len = contents.as_bytes().len();
    let mut r = status_line_exec(StatusCode::OK);
    push_str(&mut r, "Content-Length: ");
    let digits = u64_to_decimal(len as u64);
    push_str(&mut r, digits.as_str());
    push_str(&mut r, "\r\nEtag: ");
    push_str(&mut r, etag);
    push_str(&mut r, "\r\n");
    match content_type(path) {
        Some(t) => {
            push_str(&mut r, "Content-Type: ");
            push_str(&mut r, t);
            push_str(&mut r, "\r\n");
        },
        None => {},
    }
    push_str(&mut r, "\r\n");
    push_str(&mut r, contents);
    r
}

// ---------------------------------------------------------------------------
// Query strings
// ---------------------------------------------------------------------------

/// A `key=value` pair; a piece without `=` is a key with an empty value.
pub open spec fn query_pair(p: Seq<char>) -> (Seq<char>, Seq<char>) {
    match split_once_spec(p, '=') {
        Some(kv) => kv,
        None => (p, Seq::empty()),
    }
}

/// The pairs of a query string, which `&` separates, in order.
pub open spec fn querystring_spec(q: Seq<char>) -> Seq<(Seq<char>, Seq<char>)> {
    split_spec(q, '&').map_values(|p: Seq<char>| query_pair(p))
}

pub open spec fn pair_views(v: Seq<(&str, &str)>) -> Seq<(Seq<char>, Seq<char>)> {
    v.map_values(|p: (&str, &str)| (p.0@, p.1@))
}

/// The `key=value` pairs of a query string, in order.
pub fn parse_querystring(querystring: &str) -> (res: Vec<(&str, &str)>)
    ensures
        pair_views(res@) == querystring_spec(querystring@),
{
    let pieces = split_char(querystring, '&');
    let ghost ps = views_of(pieces@);
    let mut out: Vec<(&str, &str)> = Vec::new();
    let mut i: usize = 0;
    while i < pieces.len()
        invariant
            ps == views_of(pieces@),
            ps == split_spec(querystring@, '&'),
            i <= pieces@.len(),
            pair_views(out@) == ps.take(i as int).map_values(|p: Seq<char>| query_pair(p)),
        decreases pieces@.len() - i,
    {
        let piece = pieces[i];
        let pair = match split_once(piece, '=') {
            Some(kv) => kv,
            None => (piece, ""),
        };
        proof {
            reveal_strlit("");
        }
        assert(ps[i as int] == piece@);
        assert((pair.0@, pair.1@) == query_pair(piece@));
        let ghost before = out@;
        out.push(pair);
        assert(pair_views(out@) =~= pair_views(before).push((pair.0@, pair.1@)));
        assert(ps.take(i + 1).map_values(|p: Seq<char>| query_pair(p)) =~= ps.take(
            i as int,
        ).map_values(|p: Seq<char>| query_pair(p)).push(query_pair(ps[i as int])));
        i = i + 1;
    }
    assert(ps.take(pieces@.len() as int) =~= ps);
    out
}

/// The value of the first pair whose key is `target`.
pub open spec fn first_param(pairs: Seq<(Seq<char>, Seq<char>)>, target: Seq<char>) -> Option<
    Seq<char>,
>
    decreases pairs.len(),
{
    if pairs.len() == 0 {
        None
    } else if pairs[0].0 == target {
        Some(pairs[0].1)
    } else {
        first_param(pairs.drop_first(), target)
    }
}

/// The value of the first parameter named `target`, where there are
/// parameters.
pub fn get_queryparam<'a, 'b>(params: Option<&[(&str, &'a str)]>, target: &'b str) -> (res: Option<
    &'a str,
>)
    ensures
        match params {
            Some(ps) => opt_str_view(res) == first_param(pair_views(ps@), target@),
            None => res is None,
        },
{
    match params {
        None => None,
        Some(ps) => {
            let ghost all = pair_views(ps@);
            let mut i: usize = 0;
            assert(all.skip(0) =~= all);
            while i < ps.len()
                invariant
                    params == Some(ps),
                    all == pair_views(ps@),
                    i <= ps@.len(),
                    first_param(all, target@) == first_param(all.skip(i as int), target@),
                decreases ps@.len() - i,
            {
                assert(all.skip(i as int)[0] == (ps@[i as int].0@, ps@[i as int].1@));
                assert(all.skip(i as int).drop_first() =~= all.skip(i + 1));
                let (key, value) = ps[i];
                assert(all.skip(i as int).len() > 0);
                assert(all.skip(i as int)[0] == (key@, value@));
                if str_eq(key, target) {
                    assert(first_param(all.skip(i as int), target@) == Some(value@));
                    return Some(value);
                }
                i = i + 1;
            }
            assert(all.skip(i as int) =~= Seq::<(Seq<char>, Seq<char>)>::empty());
            None
        },
    }
}

// ---------------------------------------------------------------------------
// Requests for the dashboard's data
// ---------------------------------------------------------------------------

/// The window a `range` parameter asks for: an hour where there is none;
/// nothing for a value that names no window.
pub open spec fn window_param(range: Option<Seq<char>>) -> Option<Window> {
    match range {
        None => Some(Window::Hour),
        Some(r) => if r == "15m"@ {
            Some(Window::QuarterHour)
        } else if r == "30m"@ {
            Some(Window::HalfHour)
        } else if r == "1h"@ {
            Some(Window::Hour)
        } else if r == "4h"@ {
            Some(Window::Hour4)
        } else if r == "12h"@ {
            Some(Window::Hour12)
        } else if r == "1d"@ {
            Some(Window::Day)
        } else if r == "1w"@ {
            Some(Window::Week)
        } else if r == "1m"@ {
            Some(Window::Month)
        } else {
            None
        },
    }
}

/// The number of samples a `num_samples` parameter asks for: 100 where
/// there is none; nothing for a value that is no decimal number that fits.
pub open spec fn samples_param(num_samples: Option<Seq<char>>) -> Option<usize> {
    match num_samples {
        None => Some(100),
        Some(p) => match decimal_value(p) {
            Some(v) => if v <= usize::MAX {
                Some(v as usize)
            } else {
                None
            },
            None => None,
        },
    }
}

/// What a request for the dashboard's data asks for, as its query string
/// says: the number of samples and the window; nothing where either
/// parameter is refused.
pub open spec fn metrics_query_spec(query: Option<Seq<char>>) -> Option<(usize, Window)> {
    let range = match query {
        Some(q) => first_param(querystring_spec(q), "range"@),
        None => None,
    };
    let num_samples = match query {
        Some(q) => first_param(querystring_spec(q), "num_samples"@),
        None => None,
    };
    match (window_param(range), samples_param(num_samples)) {
        (Some(w), Some(n)) => Some((n, w)),
        _ => None,
    }
}

/// The minutes a `range` value writes: the number before its last
/// character, times the minutes of the unit that character names (`m`
/// minutes, `h` hours, `d` days, `w` weeks).
pub open spec fn range_written_minutes(r: Seq<char>) -> nat {
    if r.len() == 0 {
        0
    } else {
        digits_value(r.drop_last()) * match r.last() {
            'm' => 1nat,
            'h' => 60nat,
            'd' => 1440nat,
            'w' => 10080nat,
            _ => 0nat,
        }
    }
}

/// The `range` values a request may give are `15m`, `30m`, `1h`, `4h`,
/// `12h`, `1d`, `1w` and `1m`, and none other; each asks for a window of
/// the time it writes, where `1m` is a month of 30 days. Without a `range`
/// the window is an hour.
pub proof fn lemma_window_spans_range(r: Seq<char>)
    ensures
        window_param(Some(r)) is Some <==> (r == "15m"@ || r == "30m"@ || r == "1h"@ || r == "4h"@
            || r == "12h"@ || r == "1d"@ || r == "1w"@ || r == "1m"@),
        window_param(Some(r)) is Some && r != "1m"@ ==> window_minutes(window_param(Some(r)).unwrap())
            == range_written_minutes(r),
        r == "1m"@ ==> window_minutes(window_param(Some(r)).unwrap()) == 30 * 24 * 60,
        window_param(None) == Some(Window::Hour),
{
    reveal_strlit("15m");
    reveal_strlit("30m");
    reveal_strlit("1h");
    reveal_strlit("4h");
    reveal_strlit("12h");
    reveal_strlit("1d");
    reveal_strlit("1w");
    reveal_strlit("1m");
    reveal_with_fuel(digits_value, 3);
    if r == "15m"@ {
        assert(r.drop_last() =~= seq!['1', '5']);
        assert(seq!['1', '5'].drop_last() =~= seq!['1']);
        assert(seq!['1'].drop_last() =~= Seq::<char>::empty());
    } else if r == "30m"@ {
        assert(r.drop_last() =~= seq!['3', '0']);
        assert(seq!['3', '0'].drop_last() =~= seq!['3']);
        assert(seq!['3'].drop_last() =~= Seq::<char>::empty());
    } else if r == "12h"@ {
        assert(r.drop_last() =~= seq!['1', '2']);
        assert(seq!['1', '2'].drop_last() =~= seq!['1']);
        assert(seq!['1'].drop_last() =~= Seq::<char>::empty());
    } else if r == "1h"@ || r == "1d"@ || r == "1w"@ {
        assert(r.drop_last() =~= seq!['1']);
        assert(seq!['1'].drop_last() =~= Seq::<char>::empty());
    } else if r == "4h"@ {
        assert(r.drop_last() =~= seq!['4']);
        assert(seq!['4'].drop_last() =~= Seq::<char>::empty());
    } else if r == "1m"@ {
        assert(r[1] != "1h"@[1] && r[1] != "4h"@[1] && r[1] != "1d"@[1] && r[1] != "1w"@[1]);
        assert(r.len() != "15m"@.len() && r.len() != "30m"@.len() && r.len() != "12h"@.len());
    }
}

fn window_param_exec(range: Option<&str>) -> (res: Option<Window>)
    ensures
        res == window_param(opt_str_view(range)),
{
    match range {
        None => Some(Window::Hour),
        Some(r) => if str_eq(r, "15m") {
            Some(Window::QuarterHour)
        } else if str_eq(r, "30m") {
            Some(Window::HalfHour)
        } else if str_eq(r, "1h") {
            Some(Window::Hour)
        } else if str_eq(r, "4h") {
            Some(Window::Hour4)
        } else if str_eq(r, "12h") {
            Some(Window::Hour12)
        } else if str_eq(r, "1d") {
            Some(Window::Day)
        } else if str_eq(r, "1w") {
            Some(Window::Week)
        } else if str_eq(r, "1m") {
            Some(Window::Month)
        } else {
            None
        },
    }
}

/// The number of samples and the window that a request for the dashboard's
/// data asks for; `None` where the request is refused.
pub fn metrics_query(query: Option<&str>) -> (res: Option<(usize, Window)>)
    ensures
        res == metrics_query_spec(opt_str_view(query)),
{
    let (range, num_samples) = match query {
        Some(q) => {
            let pairs = parse_querystring(q);
            let r = get_queryparam(Some(pairs.as_slice()), "range");
            let n = get_queryparam(Some(pairs.as_slice()), "num_samples");
            (r, n)
        },
        None => (None, None),
    };
    let window = window_param_exec(range);
    let samples = match num_samples {
        None => Some(100),
        Some(p) => parse_usize(p),
    };
    match (window, samples) {
        (Some(w), Some(n)) => Some((n, w)),
        _ => None,
    }
}

// ---------------------------------------------------------------------------
// Reading a request
// ---------------------------------------------------------------------------

/// A header of a request: its name and its raw value.
pub struct Header {
    pub name: String,
    pub value: Vec<u8>,
}

/// What the request line and the headers of a request say.
pub struct RequestHead {
    pub method: Option<String>,
    pub path: Option<String>,
    pub headers: Vec<Header>,
}

pub struct RequestHeadView {
    pub method: Option<Seq<char>>,
    pub path: Option<Seq<char>>,
    pub headers: Seq<(Seq<char>, Seq<u8>)>,
}

impl View for RequestHead {
    type V = RequestHeadView;

    open spec fn view(&self) -> RequestHeadView {
        RequestHeadView {
            method: opt_string_view(self.method),
            path: opt_string_view(self.path),
            headers: self.headers@.map_values(|h: Header| (h.name@, h.value@)),
        }
    }
}

#[verifier::external_type_specification]
#[verifier::external_body]
pub struct ExHttparseError(httparse::Error);

/// What `httparse` reads from the bytes of a request, with room for
/// `max_headers` headers: nothing where they are malformed; no head where
/// they end too soon; else the head.
pub uninterp spec fn http_head_parse(buf: Seq<u8>, max_headers: usize) -> Option<
    Option<RequestHeadView>,
>;

/// `httparse::Request::parse`, with room for `max_headers` headers. Its
/// result is given the name `http_head_parse`; which error a malformed
/// request gives is not stated.
#[verifier::external_body]
fn parse_http_head(buf: &[u8], max_headers: usize) -> (res: Result<
    Option<RequestHead>,
    httparse::Error,
>)
    ensures
        http_head_parse(buf@, max_headers) == match res {
            Ok(Some(h)) => Some(Some(h@)),
            Ok(None) => Some(None),
            Err(_) => None,
        },
{
    let mut headers = vec![httparse::EMPTY_HEADER; max_headers];
    let mut req = httparse::Request::new(&mut headers);
    match req.parse(buf)? {
        httparse::Status::Partial => Ok(None),
        httparse::Status::Complete(_) => Ok(Some(RequestHead {
            method: req.method.map(|m| m.to_string()),
            path: req.path.map(|p| p.to_string()),
            headers: req.headers.iter().map(|h| Header { name: h.name.to_string(), value: h.value.to_vec() }).collect(),
        })),
    }
}

/// `std::str::from_utf8`: the text that the bytes encode, where they are
/// valid UTF-8.
#[verifier::external_body]
fn utf8_text(bytes: &[u8]) -> (res: Option<String>)
    ensures
        match res {
            Some(s) => vstd::utf8::valid_utf8(bytes@) && s@ == vstd::utf8::decode_utf8(bytes@),
            None => !vstd::utf8::valid_utf8(bytes@),
        },
{
    std::str::from_utf8(bytes).ok().map(|s| s.to_string())
}

/// The value of the first `If-None-Match` header (its name in any case),
/// where that value is text.
pub open spec fn if_none_match_spec(headers: Seq<(Seq<char>, Seq<u8>)>) -> Option<Seq<char>>
    decreases headers.len(),
{
    if headers.len() == 0 {
        None
    } else if ascii_lower_seq(headers[0].0) == "if-none-match"@ {
        if vstd::utf8::valid_utf8(headers[0].1) {
            Some(vstd::utf8::decode_utf8(headers[0].1))
        } else {
            None
        }
    } else {
        if_none_match_spec(headers.drop_first())
    }
}

/// The value of the first `If-None-Match` header, where it is text.
pub fn if_none_match(headers: &Vec<Header>) -> (res: Option<String>)
    ensures
        opt_string_view(res) == if_none_match_spec(headers@.map_values(|h: Header| (h.name@, h.value@))),
{
    let ghost all = headers@.map_values(|h: Header| (h.name@, h.value@));
    let mut i: usize = 0;
    assert(all.skip(0) =~= all);
    while i < headers.len()
        invariant
            all == headers@.map_values(|h: Header| (h.name@, h.value@)),
            i <= headers@.len(),
            if_none_match_spec(all) == if_none_match_spec(all.skip(i as int)),
        decreases headers@.len() - i,
    {
        assert(all.skip(i as int).len() > 0);
        assert(all.skip(i as int)[0] == (headers@[i as int].name@, headers@[i as int].value@));
        assert(all.skip(i as int).drop_first() =~= all.skip(i + 1));
        let lower = to_ascii_lowercase(headers[i].name.as_str());
        if str_eq(lower.as_str(), "if-none-match") {
            return utf8_text(headers[i].value.as_slice());
        }
        i = i + 1;
    }
    assert(all.skip(i as int) =~= Seq::<(Seq<char>, Seq<u8>)>::empty());
    None
}

/// How a request is answered.
pub enum Reply {
    /// A status without a body.
    Empty(StatusCode),
    /// One of the dashboard's files, by its name in the frontend
    /// directory; unchanged where its entity tag is `if_none_match`.
    File { path: &'static str, if_none_match: Option<String> },
    /// The dashboard's data.
    Metrics { num_samples: usize, window: Window },
}

pub enum ReplyView {
    Empty(StatusCode),
    File { path: Seq<char>, if_none_match: Option<Seq<char>> },
    Metrics { num_samples: usize, window: Window },
}

impl View for Reply {
    type V = ReplyView;

    open spec fn view(&self) -> ReplyView {
        match self {
            Reply::Empty(s) => ReplyView::Empty(*s),
            Reply::File { path, if_none_match } => ReplyView::File {
                path: path@,
                if_none_match: opt_string_view(*if_none_match),
            },
            Reply::Metrics { num_samples, window } => ReplyView::Metrics {
                num_samples: *num_samples,
                window: *window,
            },
        }
    }
}

/// How a request with this method, path (with its query string) and
/// `If-None-Match` value is answered: a bad request without a method or a
/// path; the dashboard's files and data for `GET` at their paths; not found
/// for anything else.
pub open spec fn route_spec(
    method: Option<Seq<char>>,
    path: Option<Seq<char>>,
    if_none_match: Option<Seq<char>>,
) -> ReplyView {
    match (method, path) {
        (Some(m), Some(full)) => {
            let (p, q) = match split_once_spec(full, '?') {
                Some((a, b)) => (a, Some(b)),
                None => (full, None),
            };
            if m == "GET"@ && p == "/"@ {
                ReplyView::File { path: "dashboard.html"@, if_none_match }
            } else if m == "GET"@ && p == "/dashboard.js"@ {
                ReplyView::File { path: "dashboard.js"@, if_none_match }
            } else if m == "GET"@ && p == "/chart.umd.min.js"@ {
                ReplyView::File { path: "chart.umd.min.js"@, if_none_match }
            } else if m == "GET"@ && p == "/chart.umd.min.js.map"@ {
                ReplyView::File { path: "chart.umd.min.js.map"@, if_none_match }
            } else if m == "GET"@ && p == "/metrics"@ {
                match metrics_query_spec(q) {
                    Some((n, w)) => ReplyView::Metrics { num_samples: n, window: w },
                    None => ReplyView::Empty(StatusCode::BAD_REQUEST),
                }
            } else {
                ReplyView::Empty(StatusCode::NOT_FOUND)
            }
        },
        _ => ReplyView::Empty(StatusCode::BAD_REQUEST),
    }
}

/// The path of a request target, without its query string.
pub open spec fn target_path(full: Seq<char>) -> Seq<char> {
    match split_once_spec(full, '?') {
        Some((a, _)) => a,
        None => full,
    }
}

/// The dashboard's files are answered for `GET` only, each at the path that
/// is its name with a `/` in front (the page itself at `/`), and with the
/// request's `If-None-Match` value passed on; a request with another method
/// is not found.
pub proof fn lemma_file_routes(m: Seq<char>, full: Seq<char>, inm: Option<Seq<char>>)
    ensures
        route_spec(Some(m), Some(full), inm) is File ==> m == "GET"@,
        route_spec(Some(m), Some(full), inm) is File ==> route_spec(Some(m), Some(full), inm)->if_none_match
            == inm,
        route_spec(Some(m), Some(full), inm) is File ==> (target_path(full) == "/"@ && route_spec(
            Some(m),
            Some(full),
            inm,
        )->path == "dashboard.html"@) || (route_spec(Some(m), Some(full), inm)->path.len() > 0
            && target_path(full) == seq!['/'] + route_spec(Some(m), Some(full), inm)->path),
        m == "GET"@ && target_path(full) == "/"@ ==> route_spec(Some(m), Some(full), inm)
            == (ReplyView::File { path: "dashboard.html"@, if_none_match: inm }),
        m == "GET"@ && (target_path(full) == "/dashboard.js"@ || target_path(full)
            == "/chart.umd.min.js"@ || target_path(full) == "/chart.umd.min.js.map"@) ==> route_spec(
            Some(m),
            Some(full),
            inm,
        ) == (ReplyView::File { path: target_path(full).drop_first(), if_none_match: inm }),
        m != "GET"@ ==> route_spec(Some(m), Some(full), inm) == ReplyView::Empty(
            StatusCode::NOT_FOUND,
        ),
{
    reveal_strlit("/");
    reveal_strlit("dashboard.html");
    reveal_strlit("/dashboard.js");
    reveal_strlit("dashboard.js");
    reveal_strlit("/chart.umd.min.js");
    reveal_strlit("chart.umd.min.js");
    reveal_strlit("/chart.umd.min.js.map");
    reveal_strlit("chart.umd.min.js.map");
    reveal_strlit("/metrics");
    let p = target_path(full);
    assert("/dashboard.js"@ =~= seq!['/'] + "dashboard.js"@);
    assert("/chart.umd.min.js"@ =~= seq!['/'] + "chart.umd.min.js"@);
    assert("/chart.umd.min.js.map"@ =~= seq!['/'] + "chart.umd.min.js.map"@);
    assert(("/dashboard.js"@).drop_first() =~= "dashboard.js"@);
    assert(("/chart.umd.min.js"@).drop_first() =~= "chart.umd.min.js"@);
    assert(("/chart.umd.min.js.map"@).drop_first() =~= "chart.umd.min.js.map"@);
    assert(p == "/"@ ==> p != "/dashboard.js"@ && p != "/chart.umd.min.js"@ && p
        != "/chart.umd.min.js.map"@);
    assert(p == "/dashboard.js"@ ==> p != "/chart.umd.min.js"@ && p != "/chart.umd.min.js.map"@);
    assert(p == "/chart.umd.min.js"@ ==> p != "/chart.umd.min.js.map"@);
}

/// How a request whose head is `head` is answered.
pub fn decide(head: &RequestHead) -> (res: Reply)
    ensures
        res@ == route_spec(head@.method, head@.path, if_none_match_spec(head@.headers)),
{
    let inm = if_none_match(&head.headers);
    match (&head.method, &head.path) {
        (Some(m), Some(full)) => {
            let (p, q) = match split_once(full.as_str(), '?') {
                Some((a, b)) => (a, Some(b)),
                None => (full.as_str(), None),
            };
            let get = str_eq(m.as_str(), "GET");
            if get && str_eq(p, "/") {
                Reply::File { path: "dashboard.html", if_none_match: inm }
            } else if get && str_eq(p, "/dashboard.js") {
                Reply::File { path: "dashboard.js", if_none_match: inm }
            } else if get && str_eq(p, "/chart.umd.min.js") {
                Reply::File { path: "chart.umd.min.js", if_none_match: inm }
            } else if get && str_eq(p, "/chart.umd.min.js.map") {
                Reply::File { path: "chart.umd.min.js.map", if_none_match: inm }
            } else if get && str_eq(p, "/metrics") {
                match metrics_query(q) {
                    Some((n, w)) => Reply::Metrics { num_samples: n, window: w },
                    None => Reply::Empty(StatusCode::BAD_REQUEST),
                }
            } else {
                Reply::Empty(StatusCode::NOT_FOUND)
            }
        },
        _ => Reply::Empty(StatusCode::BAD_REQUEST),
    }
}

/// The most headers a request may have.
pub const MAX_HEADERS: usize = 24;

/// How the request in `buf` is answered: an error where its head is
/// malformed; a bad request where the head ends too soon; else as `decide`
/// says.
pub fn respond(buf: &[u8]) -> (res: Result<Reply, httparse::Error>)
    ensures
        match http_head_parse(buf@, MAX_HEADERS) {
            None => res is Err,
            Some(None) => res matches Ok(r) && r@ == ReplyView::Empty(StatusCode::BAD_REQUEST),
            Some(Some(h)) => res matches Ok(r) && r@ == route_spec(
                h.method,
                h.path,
                if_none_match_spec(h.headers),
            ),
        },
{
    match parse_http_head(buf, MAX_HEADERS) {
        Err(e) => Err(e),
        Ok(None) => Ok(Reply::Empty(StatusCode::BAD_REQUEST)),
        Ok(Some(head)) => Ok(decide(&head)),
    }
}

} // verus!
