//! Reading settings from the text of an `ini` configuration file.
use vstd::prelude::*;
use crate::config::{
    default_config, owned, BuildFeatures, Command, CommandModel, Config, ConfigModel, IpValue,
    ListenAddr, LogFormat, LogLevel, LogTarget, ParseError, ParseErrorModel, DEFAULT_PORT,
};
use crate::text::{
    all_digits, ascii_lower_seq, contains, decimal_value, digits_value, has_infix, has_prefix, is_digit, lines,
    lines_spec, parse_u64, push_str, split_ascii_whitespace, split_once, split_once_spec,
    starts_with, str_eq, to_ascii_lowercase, trim, trim_spec, unsigned_digits, views_of, words_spec,
};

verus! {

// ---------------------------------------------------------------------------
// Outside parsers
// ---------------------------------------------------------------------------

/// What `core::net::SocketAddr::from_str` makes of a string, as parts.
pub uninterp spec fn socket_addr_parse(s: Seq<char>) -> Option<ListenAddr>;

/// What `core::net::IpAddr::from_str` makes of a string, as parts.
pub uninterp spec fn ip_addr_parse(s: Seq<char>) -> Option<IpValue>;

/// What `http::Uri::from_str` makes of a string: `None` where it is no URI,
/// else the scheme (`Uri::scheme_str`) that the URI names, if any.
pub uninterp spec fn uri_scheme(s: Seq<char>) -> Option<Option<Seq<char>>>;

/// Calls `core::net::SocketAddr::from_str` and hands back the parts of the
/// address; the result is the one that `socket_addr_parse` names.
#[verifier::external_body]
fn parse_socket_addr(s: &str) -> (res: Option<ListenAddr>)
    ensures
        res == socket_addr_parse(s@),
{
    match s.parse::<core::net::SocketAddr>() {
        Ok(core::net::SocketAddr::V4(a)) => {
            let [p, q, r, t] = a.ip().octets();
            Some(ListenAddr { ip: IpValue::V4(p, q, r, t), port: a.port(), flowinfo: 0, scope_id: 0 })
        },
        Ok(core::net::SocketAddr::V6(a)) => {
            let [p, q, r, t, u, v, w, x] = a.ip().segments();
            let ip = IpValue::V6(p, q, r, t, u, v, w, x);
            Some(ListenAddr { ip, port: a.port(), flowinfo: a.flowinfo(), scope_id: a.scope_id() })
        },
        Err(_) => None,
    }
}

/// Calls `core::net::IpAddr::from_str` and hands back the parts of the
/// address; the result is the one that `ip_addr_parse` names.
#[verifier::external_body]
fn parse_ip_addr(s: &str) -> (res: Option<IpValue>)
    ensures
        res == ip_addr_parse(s@),
{
    match s.parse::<core::net::IpAddr>() {
        Ok(core::net::IpAddr::V4(a)) => {
            let [p, q, r, t] = a.octets();
            Some(IpValue::V4(p, q, r, t))
        },
        Ok(core::net::IpAddr::V6(a)) => {
            let [p, q, r, t, u, v, w, x] = a.segments();
            Some(IpValue::V6(p, q, r, t, u, v, w, x))
        },
        Err(_) => None,
    }
}

/// Calls `http::Uri::from_str` and, on success, `Uri::scheme_str`; the
/// result is the one that `uri_scheme` names.
#[verifier::external_body]
fn parse_uri_scheme(s: &str) -> (res: Option<Option<String>>)
    ensures
        match res {
            None => uri_scheme(s@) is None,
            Some(None) => uri_scheme(s@) == Some(None::<Seq<char>>),
            Some(Some(scheme)) => uri_scheme(s@) == Some(Some(scheme@)),
        },
{
    match s.parse::<http::Uri>() {
        Ok(uri) => Some(uri.scheme_str().map(|scheme| scheme.to_string())),
        Err(_) => None,
    }
}

/// Whether the path names a directory (`std::path::Path::is_dir`). The
/// answer depends on the file system at the time of the call, so nothing is
/// stated of it.
#[verifier::external_body]
fn is_directory(path: &str) -> bool {
    std::path::Path::new(path).is_dir()
}

// ---------------------------------------------------------------------------
// Values
// ---------------------------------------------------------------------------

/// One address of `listen_addrs`: a socket address, or an IP address that
/// listens on the default port.
pub open spec fn listen_addr_spec(tok: Seq<char>) -> Option<ListenAddr> {
    match socket_addr_parse(tok) {
        Some(a) => Some(a),
        None => match ip_addr_parse(tok) {
            Some(ip) => Some(ListenAddr { ip, port: DEFAULT_PORT, flowinfo: 0, scope_id: 0 }),
            None => None,
        },
    }
}

/// The addresses of `listen_addrs`, or the first one that is no address.
pub open spec fn listen_addrs_spec(toks: Seq<Seq<char>>) -> Result<
    Seq<ListenAddr>,
    ParseErrorModel,
>
    decreases toks.len(),
{
    if toks.len() == 0 {
        Ok(Seq::empty())
    } else {
        match listen_addrs_spec(toks.drop_last()) {
            Err(e) => Err(e),
            Ok(v) => match listen_addr_spec(toks.last()) {
                Some(a) => Ok(v.push(a)),
                None => Err(ParseErrorModel::Invalid { key: "listen_addrs"@, value: toks.last() }),
            },
        }
    }
}

/// One address of `listen_addrs`, given what reading it as a socket address
/// gave and, where that failed, what reading it as an IP address gave: the
/// socket address; else the IP address on the default port; else an error
/// naming the address.
pub fn listen_addr_from(addr: &str, socket: Option<ListenAddr>, ip: Option<IpValue>) -> (res: Result<
    ListenAddr,
    ParseError,
>)
    ensures
        match (socket, ip) {
            (Some(a), _) => res == Ok::<ListenAddr, ParseError>(a),
            (None, Some(i)) => res == Ok::<ListenAddr, ParseError>(
                ListenAddr { ip: i, port: DEFAULT_PORT, flowinfo: 0, scope_id: 0 },
            ),
            (None, None) => res matches Err(e) && e@ == (ParseErrorModel::Invalid {
                key: "listen_addrs"@,
                value: addr@,
            }),
        },
{
    match socket {
        Some(a) => Ok(a),
        None => match ip {
            Some(i) => Ok(ListenAddr { ip: i, port: DEFAULT_PORT, flowinfo: 0, scope_id: 0 }),
            None => Err(ParseError::Invalid { key: "listen_addrs", value: owned(addr) }),
        },
    }
}

fn parse_listen_addr(addr: &str) -> (res: Result<ListenAddr, ParseError>)
    ensures
        match res {
            Ok(a) => listen_addr_spec(addr@) == Some(a),
            Err(e) => listen_addr_spec(addr@) is None && e@ == (ParseErrorModel::Invalid {
                key: "listen_addrs"@,
                value: addr@,
            }),
        },
{
    let socket = parse_socket_addr(addr);
    let ip = match socket {
        Some(_) => None,
        None => parse_ip_addr(addr),
    };
    listen_addr_from(addr, socket, ip)
}

/// Reads the `listen_addrs` setting: addresses separated by ASCII
/// whitespace.
pub fn parse_listen_addrs(addrs: &str) -> (res: Result<Vec<ListenAddr>, ParseError>)
    ensures
        match res {
            Ok(v) => listen_addrs_spec(words_spec(addrs@)) == Ok::<_, ParseErrorModel>(v@),
            Err(e) => listen_addrs_spec(words_spec(addrs@)) == Err::<Seq<ListenAddr>, _>(e@),
        },
{
    let toks = split_ascii_whitespace(addrs);
    let ghost ws = views_of(toks@);
    let mut out: Vec<ListenAddr> = Vec::new();
    let mut i: usize = 0;
    assert(ws.take(0) =~= Seq::<Seq<char>>::empty());
    while i < toks.len()
        invariant
            ws == views_of(toks@),
            ws == words_spec(addrs@),
            i <= toks@.len(),
            listen_addrs_spec(ws.take(i as int)) == Ok::<_, ParseErrorModel>(out@),
        decreases toks@.len() - i,
    {
        assert(ws.take(i + 1).drop_last() =~= ws.take(i as int));
        assert(ws.take(i + 1).last() == toks@[i as int]@);
        match parse_listen_addr(toks[i]) {
            Ok(a) => {
                out.push(a);
            },
            Err(e) => {
                proof {
                    assert(listen_addrs_spec(ws.take(i + 1)) == Err::<Seq<ListenAddr>, ParseErrorModel>(e@));
                    lemma_listen_addrs_err_prefix(ws, i + 1);
                }
                return Err(e);
            },
        }
        i = i + 1;
    }
    assert(ws.take(toks@.len() as int) =~= ws);
    Ok(out)
}

/// Once a prefix of the addresses is refused, so are all of them.
proof fn lemma_listen_addrs_err_prefix(ws: Seq<Seq<char>>, k: int)
    requires
        0 <= k <= ws.len(),
        listen_addrs_spec(ws.take(k)) is Err,
    ensures
        listen_addrs_spec(ws) == listen_addrs_spec(ws.take(k)),
    decreases ws.len() - k,
{
    if k < ws.len() {
        assert(ws.take(k + 1).drop_last() =~= ws.take(k));
        lemma_listen_addrs_err_prefix(ws, k + 1);
    } else {
        assert(ws.take(k) =~= ws);
    }
}

/// The address of the Prometheus endpoint, with `http://` put in front of
/// an address that names no scheme.
pub open spec fn with_default_scheme(uri: Seq<char>) -> Seq<char> {
    if has_infix(uri, "://"@) || has_prefix(uri, "//"@) {
        uri
    } else {
        "http://"@ + uri
    }
}

/// The `prometheus_addr` setting: a URI whose scheme is `http`, or `https`
/// in a build with TLS.
pub open spec fn prometheus_addr_spec(v: Seq<char>, f: BuildFeatures) -> Result<
    Seq<char>,
    ParseErrorModel,
> {
    let u = with_default_scheme(v);
    let invalid = ParseErrorModel::Invalid { key: "prometheus_addr"@, value: u };
    match uri_scheme(u) {
        Some(Some(s)) => if s == "http"@ {
            Ok(u)
        } else if s == "https"@ {
            if f.tls {
                Ok(u)
            } else {
                Err(
                    ParseErrorModel::RequiresFeature {
                        key: "prometheus_addr"@,
                        value: u,
                        feature: "tls"@,
                    },
                )
            }
        } else {
            Err(invalid)
        },
        _ => Err(invalid),
    }
}

/// The scheme of the Prometheus endpoint's address `full` (with its scheme
/// filled in), given what reading it as a URI gave: `http`, or `https` in a
/// build with TLS, is accepted; `https` without TLS needs the feature; any
/// other scheme, no scheme, or no URI at all is refused.
pub fn prometheus_addr_from(full: String, scheme: Option<Option<String>>, f: &BuildFeatures) -> (res:
    Result<String, ParseError>)
    ensures
        match scheme {
            Some(Some(s)) => if s@ == "http"@ || (s@ == "https"@ && f.tls) {
                res matches Ok(u) && u@ == full@
            } else if s@ == "https"@ {
                res matches Err(e) && e@ == (ParseErrorModel::RequiresFeature {
                    key: "prometheus_addr"@,
                    value: full@,
                    feature: "tls"@,
                })
            } else {
                res matches Err(e) && e@ == (ParseErrorModel::Invalid {
                    key: "prometheus_addr"@,
                    value: full@,
                })
            },
            _ => res matches Err(e) && e@ == (ParseErrorModel::Invalid {
                key: "prometheus_addr"@,
                value: full@,
            }),
        },
{
    match scheme {
        Some(Some(scheme)) => {
            if str_eq(scheme.as_str(), "http") {
                Ok(full)
            } else if str_eq(scheme.as_str(), "https") {
                if f.tls {
                    Ok(full)
                } else {
                    Err(ParseError::RequiresFeature { key: "prometheus_addr", value: full, feature: "tls" })
                }
            } else {
                Err(ParseError::Invalid { key: "prometheus_addr", value: full })
            }
        },
        _ => Err(ParseError::Invalid { key: "prometheus_addr", value: full }),
    }
}

/// Reads the `prometheus_addr` setting.
pub fn parse_prometheus_addr(uri: &str, f: &BuildFeatures) -> (res: Result<String, ParseError>)
    ensures
        match res {
            Ok(u) => prometheus_addr_spec(uri@, *f) == Ok::<_, ParseErrorModel>(u@),
            Err(e) => prometheus_addr_spec(uri@, *f) == Err::<Seq<char>, _>(e@),
        },
{
    let full = if contains(uri, "://") || starts_with(uri, "//") {
        owned(uri)
    } else {
        let mut s = owned("http://");
        push_str(&mut s, uri);
        s
    };
    assert(full@ == with_default_scheme(uri@));
    let scheme = parse_uri_scheme(full.as_str());
    proof {
        reveal_strlit("http");
        reveal_strlit("https");
        assert("http"@ != "https"@) by {
            assert("http"@.len() != "https"@.len());
        }
    }
    prometheus_addr_from(full, scheme, f)
}

/// The `frontend_dir` setting, given whether the location names a
/// directory: accepted as it is where it does, refused where it does not.
pub fn frontend_dir_from(location: &str, is_dir: bool) -> (res: Result<String, ParseError>)
    ensures
        is_dir ==> (res matches Ok(d) && d@ == location@),
        !is_dir ==> (res matches Err(e) && e@ == (ParseErrorModel::NotValidDir {
            key: "frontend_dir"@,
            value: location@,
        })),
{
    if is_dir {
        Ok(owned(location))
    } else {
        Err(ParseError::NotValidDir { key: "frontend_dir", value: owned(location) })
    }
}

/// Reads the `frontend_dir` setting: accepted where it names a directory.
/// Whether it does is a question for the file system, asked once; the
/// answer decides as `frontend_dir_from` says.
pub fn parse_frontend_dir(location: &str) -> (res: Result<String, ParseError>)
    ensures
        match res {
            Ok(d) => d@ == location@,
            Err(e) => e@ == (ParseErrorModel::NotValidDir {
                key: "frontend_dir"@,
                value: location@,
            }),
        },
{
    let is_dir = is_directory(location);
    frontend_dir_from(location, is_dir)
}

/// Position `i` ends a run of digits: a digit followed by a non-digit.
pub open spec fn ends_digits(v: Seq<char>, i: int) -> bool {
    0 <= i && i + 1 < v.len() && is_digit(v[i]) && !is_digit(v[i + 1])
}

/// Where the number of a poll rate ends: just after the first digit that a
/// non-digit follows.
pub open spec fn digits_boundary(v: Seq<char>) -> Option<int> {
    if exists|i: int| ends_digits(v, i) {
        Some(
            (choose|i: int| ends_digits(v, i) && forall|j: int| 0 <= j < i ==> !ends_digits(v, j))
                + 1,
        )
    } else {
        None
    }
}

/// The number and unit of a poll rate: a positive number that fits in
/// `u64`, and what follows it.
pub open spec fn poll_rate_parts(v: Seq<char>) -> Option<(nat, Seq<char>)> {
    match digits_boundary(v) {
        Some(b) => match decimal_value(v.take(b)) {
            Some(n) => if n == 0 || n > u64::MAX {
                None
            } else {
                Some((n, v.skip(b)))
            },
            None => None,
        },
        None => None,
    }
}

/// The `poll_rate` setting in minutes: a number followed by `m` (minutes),
/// `h` (hours) or `d` (days).
pub open spec fn poll_rate_spec(v: Seq<char>) -> Option<u64> {
    match poll_rate_parts(v) {
        Some((n, unit)) => if unit == "m"@ {
            Some(n as u64)
        } else if unit == "h"@ {
            Some((n * 60) as u64)
        } else if unit == "d"@ {
            Some((n * 60 * 24) as u64)
        } else {
            None
        },
        None => None,
    }
}

/// A poll rate whose number of minutes does not fit in `u64`.
pub open spec fn poll_rate_overflows(v: Seq<char>) -> bool {
    match poll_rate_parts(v) {
        Some((n, unit)) => (unit == "h"@ && n * 60 > u64::MAX) || (unit == "d"@ && n * 60 * 24
            > u64::MAX),
        None => false,
    }
}

/// A run of digits followed by one non-digit splits into the number the
/// digits write and that character.
proof fn lemma_poll_rate_parts_of(s: Seq<char>, u: Seq<char>)
    requires
        s.len() > 0,
        all_digits(s),
        0 < digits_value(s) <= u64::MAX,
        u.len() == 1,
        !is_digit(u[0]),
    ensures
        poll_rate_parts(s + u) == Some((digits_value(s), u)),
{
    let v = s + u;
    let b = s.len() - 1;
    assert(v[b] == s[b]);
    assert(v[b + 1] == u[0]);
    assert(ends_digits(v, b));
    let k = choose|k: int| ends_digits(v, k) && forall|j: int| 0 <= j < k ==> !ends_digits(v, j);
    assert(k == b) by {
        if k < b {
            assert(v[k + 1] == s[k + 1]);
        } else if k > b {
            assert(!ends_digits(v, b));
        }
    }
    assert(digits_boundary(v) == Some(s.len() as int));
    assert(v.take(s.len() as int) =~= s);
    assert(v.skip(s.len() as int) =~= u);
    assert(unsigned_digits(s) == s) by {
        assert(is_digit(s[0]));
    }
}

/// A number of days is 24 times the same number of hours, and a number of
/// hours 60 times the same number of minutes, wherever the days fit in
/// `u64` as minutes.
pub proof fn lemma_poll_rate_units(s: Seq<char>)
    requires
        s.len() > 0,
        all_digits(s),
        digits_value(s) > 0,
        digits_value(s) * 1440 <= u64::MAX,
    ensures
        poll_rate_spec(s + "m"@) == Some(digits_value(s) as u64),
        poll_rate_spec(s + "h"@) == Some((digits_value(s) * 60) as u64),
        poll_rate_spec(s + "d"@) == Some((digits_value(s) * 60 * 24) as u64),
        digits_value(s) * 60 == 60 * digits_value(s),
        digits_value(s) * 60 * 24 == 24 * (digits_value(s) * 60),
{
    let n = digits_value(s);
    assert(n * 60 * 24 == 24 * (n * 60)) by (nonlinear_arith);
    assert(n <= u64::MAX) by (nonlinear_arith)
        requires
            n * 1440 <= u64::MAX,
            n > 0,
    ;
    assert("h"@ != "m"@) by {
        reveal_strlit("m");
        reveal_strlit("h");
        assert("h"@[0] != "m"@[0]);
    }
    assert("d"@ != "m"@) by {
        reveal_strlit("m");
        reveal_strlit("d");
        assert("d"@[0] != "m"@[0]);
    }
    assert("d"@ != "h"@) by {
        reveal_strlit("h");
        reveal_strlit("d");
        assert("d"@[0] != "h"@[0]);
    }
    assert(poll_rate_parts(s + "m"@) == Some((n, "m"@))) by {
        reveal_strlit("m");
        lemma_poll_rate_parts_of(s, "m"@);
    }
    assert(poll_rate_parts(s + "h"@) == Some((n, "h"@))) by {
        reveal_strlit("h");
        lemma_poll_rate_parts_of(s, "h"@);
    }
    assert(poll_rate_parts(s + "d"@) == Some((n, "d"@))) by {
        reveal_strlit("d");
        lemma_poll_rate_parts_of(s, "d"@);
    }
}

/// Finds where the number of a poll rate ends.
fn find_digits_boundary(value: &str) -> (res: Option<usize>)
    ensures
        match res {
            Some(b) => digits_boundary(value@) == Some(b as int) && b <= value@.len(),
            None => digits_boundary(value@) is None,
        },
{
    let n = value.unicode_len();
    if n == 0 {
        return None;
    }
    let mut i: usize = 0;
    while i < n - 1
        invariant
            n == value@.len(),
            n > 0,
            i <= n - 1,
            forall|j: int| 0 <= j < i ==> !ends_digits(value@, j),
        decreases n - i,
    {
        let a = value.get_char(i);
        let b = value.get_char(i + 1);
        if '0' <= a && a <= '9' && !('0' <= b && b <= '9') {
            assert(ends_digits(value@, i as int));
            proof {
                let k = choose|k: int|
                    ends_digits(value@, k) && forall|j: int| 0 <= j < k ==> !ends_digits(value@, j);
                assert(k == i) by {
                    if k < i {
                    } else if k > i {
                    }
                };
            }
            return Some(i + 1);
        }
        i = i + 1;
    }
    assert forall|j: int| !ends_digits(value@, j) by {
        if ends_digits(value@, j) {
            assert(j < i);
        }
    }
    None
}

/// Reads the `poll_rate` setting.
#[verifier::rlimit(40)]
pub fn parse_poll_rate(value: &str) -> (res: Result<u64, ParseError>)
    requires
        !poll_rate_overflows(value@),
    ensures
        match res {
            Ok(n) => poll_rate_spec(value@) == Some(n),
            Err(e) => poll_rate_spec(value@) is None && e@ == (ParseErrorModel::Invalid {
                key: "poll_rate"@,
                value: value@,
            }),
        },
{
    let boundary = match find_digits_boundary(value) {
        Some(b) => b,
        None => {
            return Err(ParseError::Invalid { key: "poll_rate", value: owned(value) });
        },
    };
    let n = value.unicode_len();
    let numeric = value.substring_char(0, boundary);
    let unit = value.substring_char(boundary, n);
    assert(numeric@ =~= value@.take(boundary as int));
    assert(unit@ =~= value@.skip(boundary as int));
    let number = match parse_u64(numeric) {
        Some(v) => v,
        None => {
            return Err(ParseError::Invalid { key: "poll_rate", value: owned(value) });
        },
    };
    if number == 0 {
        return Err(ParseError::Invalid { key: "poll_rate", value: owned(value) });
    }
    assert(poll_rate_parts(value@) == Some((number as nat, unit@)));
    match unit_minutes(number, unit) {
        Some(m) => Ok(m),
        None => Err(ParseError::Invalid { key: "poll_rate", value: owned(value) }),
    }
}

/// Whether a `poll_rate` value's number of minutes fits in `u64`.
pub fn poll_rate_fits(value: &str) -> (res: bool)
    ensures
        res == !poll_rate_overflows(value@),
{
    let boundary = match find_digits_boundary(value) {
        Some(b) => b,
        None => {
            return true;
        },
    };
    let n = value.unicode_len();
    let numeric = value.substring_char(0, boundary);
    let unit = value.substring_char(boundary, n);
    assert(numeric@ =~= value@.take(boundary as int));
    assert(unit@ =~= value@.skip(boundary as int));
    let number = match parse_u64(numeric) {
        Some(v) => v,
        None => {
            return true;
        },
    };
    if number == 0 {
        return true;
    }
    assert(poll_rate_parts(value@) == Some((number as nat, unit@)));
    proof {
        reveal_strlit("h");
        reveal_strlit("d");
        assert("h"@[0] != "d"@[0]);
        assert(number <= u64::MAX / 60 <==> number * 60 <= u64::MAX) by (nonlinear_arith);
        assert(number <= u64::MAX / 1440u64 <==> number * 60 * 24 <= u64::MAX) by (nonlinear_arith);
    }
    if str_eq(unit, "h") {
        number <= u64::MAX / 60
    } else if str_eq(unit, "d") {
        number <= u64::MAX / 1440
    } else {
        true
    }
}

/// A number of minutes, hours or days, in minutes.
fn unit_minutes(number: u64, unit: &str) -> (res: Option<u64>)
    requires
        !(unit@ == "h"@ && number * 60 > u64::MAX),
        !(unit@ == "d"@ && number * 60 * 24 > u64::MAX),
    ensures
        res == (if unit@ == "m"@ {
            Some(number)
        } else if unit@ == "h"@ {
            Some((number * 60) as u64)
        } else if unit@ == "d"@ {
            Some((number * 60 * 24) as u64)
        } else {
            None
        }),
{
    if str_eq(unit, "m") {
        Some(number)
    } else if str_eq(unit, "h") {
        Some(number * 60)
    } else if str_eq(unit, "d") {
        Some(number * 60 * 24)
    } else {
        None
    }
}

pub open spec fn log_level_spec(v: Seq<char>) -> Option<LogLevel> {
    let l = ascii_lower_seq(v);
    if l == "error"@ {
        Some(LogLevel::Error)
    } else if l == "warn"@ {
        Some(LogLevel::Warn)
    } else if l == "info"@ {
        Some(LogLevel::Info)
    } else if l == "debug"@ {
        Some(LogLevel::Debug)
    } else if l == "trace"@ {
        Some(LogLevel::Trace)
    } else {
        None
    }
}

/// Reads the `log_level` setting, in any ASCII case.
pub fn parse_log_level(level: &str) -> (res: Result<LogLevel, ParseError>)
    ensures
        match res {
            Ok(l) => log_level_spec(level@) == Some(l),
            Err(e) => log_level_spec(level@) is None && e@ == (ParseErrorModel::Invalid {
                key: "log_level"@,
                value: level@,
            }),
        },
{
    let lower = to_ascii_lowercase(level);
    let l = lower.as_str();
    if str_eq(l, "error") {
        Ok(LogLevel::Error)
    } else if str_eq(l, "warn") {
        Ok(LogLevel::Warn)
    } else if str_eq(l, "info") {
        Ok(LogLevel::Info)
    } else if str_eq(l, "debug") {
        Ok(LogLevel::Debug)
    } else if str_eq(l, "trace") {
        Ok(LogLevel::Trace)
    } else {
        Err(ParseError::Invalid { key: "log_level", value: owned(level) })
    }
}

pub open spec fn log_format_spec(v: Seq<char>) -> Option<LogFormat> {
    let l = ascii_lower_seq(v);
    if l == "plain"@ {
        Some(LogFormat::Plain)
    } else if l == "pretty"@ {
        Some(LogFormat::Pretty)
    } else {
        None
    }
}

/// Reads the `log_format` setting, in any ASCII case.
pub fn parse_log_format(format: &str) -> (res: Result<LogFormat, ParseError>)
    ensures
        match res {
            Ok(l) => log_format_spec(format@) == Some(l),
            Err(e) => log_format_spec(format@) is None && e@ == (ParseErrorModel::Invalid {
                key: "log_format"@,
                value: format@,
            }),
        },
{
    let lower = to_ascii_lowercase(format);
    let l = lower.as_str();
    if str_eq(l, "plain") {
        Ok(LogFormat::Plain)
    } else if str_eq(l, "pretty") {
        Ok(LogFormat::Pretty)
    } else {
        Err(ParseError::Invalid { key: "log_format", value: owned(format) })
    }
}

/// The `log_target` setting; `systemd-journal` exists only in a build
/// with that target.
pub open spec fn log_target_spec(v: Seq<char>, f: BuildFeatures) -> Option<LogTarget> {
    let l = ascii_lower_seq(v);
    if l == "none"@ {
        Some(LogTarget::Off)
    } else if l == "stdout"@ {
        Some(LogTarget::Stdout)
    } else if l == "stderr"@ {
        Some(LogTarget::Stderr)
    } else if f.systemd_journal && l == "systemd-journal"@ {
        Some(LogTarget::SystemdJournal)
    } else {
        None
    }
}

/// Reads the `log_target` setting, in any ASCII case.
pub fn parse_log_target(target: &str, f: &BuildFeatures) -> (res: Result<LogTarget, ParseError>)
    ensures
        match res {
            Ok(l) => log_target_spec(target@, *f) == Some(l),
            Err(e) => log_target_spec(target@, *f) is None && e@ == (ParseErrorModel::Invalid {
                key: "log_target"@,
                value: target@,
            }),
        },
{
    let lower = to_ascii_lowercase(target);
    let l = lower.as_str();
    if str_eq(l, "none") {
        Ok(LogTarget::Off)
    } else if str_eq(l, "stdout") {
        Ok(LogTarget::Stdout)
    } else if str_eq(l, "stderr") {
        Ok(LogTarget::Stderr)
    } else if f.systemd_journal && str_eq(l, "systemd-journal") {
        Ok(LogTarget::SystemdJournal)
    } else {
        Err(ParseError::Invalid { key: "log_target", value: owned(target) })
    }
}

// ---------------------------------------------------------------------------
// The file
// ---------------------------------------------------------------------------

/// Empty lines and comments (`#` or `;` first) set nothing.
pub open spec fn is_skipped_line(line: Seq<char>) -> bool {
    line.len() == 0 || line[0] == '#' || line[0] == ';'
}

/// The key and value of a `key = value` line, both trimmed and non-empty.
pub open spec fn line_key_value(line: Seq<char>) -> Option<(Seq<char>, Seq<char>)> {
    match split_once_spec(line, '=') {
        Some((k, v)) => if trim_spec(k).len() > 0 && trim_spec(v).len() > 0 {
            Some((trim_spec(k), trim_spec(v)))
        } else {
            None
        },
        None => None,
    }
}

/// `frontend_dir` is read in a development build, and for `serve live` in
/// a build that has that command; elsewhere the setting is ignored.
pub open spec fn honors_frontend_dir(f: BuildFeatures, command: CommandModel) -> bool {
    f.debug_assertions || (f.serve_live && command is ServeLive)
}

/// The settings after one `key = value` line. `dir_ok` is whether the value
/// of `frontend_dir` names a directory.
pub open spec fn apply_setting(
    c: ConfigModel,
    k: Seq<char>,
    v: Seq<char>,
    f: BuildFeatures,
    honor_dir: bool,
    dir_ok: bool,
) -> Result<ConfigModel, ParseErrorModel> {
    if k == "listen_addrs"@ {
        match listen_addrs_spec(words_spec(v)) {
            Ok(a) => Ok(ConfigModel { listen_addrs: a, ..c }),
            Err(e) => Err(e),
        }
    } else if k == "prometheus_addr"@ {
        match prometheus_addr_spec(v, f) {
            Ok(u) => Ok(ConfigModel { prometheus_addr: u, ..c }),
            Err(e) => Err(e),
        }
    } else if k == "frontend_dir"@ {
        if honor_dir {
            if dir_ok {
                Ok(ConfigModel { frontend_dir: Some(v), ..c })
            } else {
                Err(ParseErrorModel::NotValidDir { key: "frontend_dir"@, value: v })
            }
        } else {
            Ok(c)
        }
    } else if k == "poll_rate"@ {
        match poll_rate_spec(v) {
            Some(n) => Ok(ConfigModel { poll_rate_mins: n, ..c }),
            None => Err(ParseErrorModel::Invalid { key: "poll_rate"@, value: v }),
        }
    } else if k == "state_location"@ {
        Ok(ConfigModel { state_location: v, ..c })
    } else if k == "database_name"@ {
        Ok(ConfigModel { database_name: v, ..c })
    } else if k == "log_level"@ {
        match log_level_spec(v) {
            Some(l) => Ok(ConfigModel { log_level: l, ..c }),
            None => Err(ParseErrorModel::Invalid { key: "log_level"@, value: v }),
        }
    } else if k == "log_format"@ {
        match log_format_spec(v) {
            Some(l) => Ok(ConfigModel { log_format: l, ..c }),
            None => Err(ParseErrorModel::Invalid { key: "log_format"@, value: v }),
        }
    } else if k == "log_target"@ {
        match log_target_spec(v, f) {
            Some(l) => Ok(ConfigModel { log_target: l, ..c }),
            None => Err(ParseErrorModel::Invalid { key: "log_target"@, value: v }),
        }
    } else {
        Ok(c)
    }
}

/// Where every word of a `listen_addrs` value is an address, the
/// addresses are those words' addresses, one for each word, in order.
pub proof fn lemma_listen_addrs_in_order(toks: Seq<Seq<char>>)
    requires
        forall|i: int| 0 <= i < toks.len() ==> (#[trigger] listen_addr_spec(toks[i])) is Some,
    ensures
        listen_addrs_spec(toks) is Ok,
        listen_addrs_spec(toks)->Ok_0.len() == toks.len(),
        forall|i: int|
            0 <= i < toks.len() ==> (#[trigger] listen_addrs_spec(toks)->Ok_0[i]) == listen_addr_spec(
                toks[i],
            ).unwrap(),
    decreases toks.len(),
{
    if toks.len() > 0 {
        let pre = toks.drop_last();
        assert forall|i: int| 0 <= i < pre.len() implies (#[trigger] listen_addr_spec(pre[i])) is Some by {
            assert(pre[i] == toks[i]);
            assert(listen_addr_spec(toks[i]) is Some);
        }
        lemma_listen_addrs_in_order(pre);
        assert(listen_addr_spec(toks[toks.len() - 1]) is Some);
        assert(toks.last() == toks[toks.len() - 1]);
        let r = listen_addrs_spec(toks)->Ok_0;
        let q = listen_addrs_spec(pre)->Ok_0;
        assert forall|i: int| 0 <= i < toks.len() implies (#[trigger] listen_addrs_spec(toks)->Ok_0[i])
            == listen_addr_spec(toks[i]).unwrap() by {
            if i < pre.len() {
                assert(r[i] == q[i]);
                assert(pre[i] == toks[i]);
            }
        }
    }
}

/// What each setting does: a known key whose value is accepted sets its
/// own setting to that value, read as the key says, and leaves every other
/// setting as it was; `listen_addrs` sets the addresses of its words in
/// order; `frontend_dir` is set only where it is honoured and names a
/// directory, refused where it is honoured and does not, and ignored where
/// it is not honoured; an unknown key changes nothing.
pub proof fn lemma_setting_effects(
    c: ConfigModel,
    k: Seq<char>,
    v: Seq<char>,
    f: BuildFeatures,
    honor_dir: bool,
    dir_ok: bool,
)
    ensures
        k == "listen_addrs"@ && (forall|i: int|
            0 <= i < words_spec(v).len() ==> (#[trigger] listen_addr_spec(words_spec(v)[i])) is Some)
            ==> {
            let r = apply_setting(c, k, v, f, honor_dir, dir_ok);
            &&& r is Ok
            &&& r->Ok_0 == (ConfigModel { listen_addrs: r->Ok_0.listen_addrs, ..c })
            &&& r->Ok_0.listen_addrs.len() == words_spec(v).len()
            &&& forall|i: int|
                0 <= i < words_spec(v).len() ==> r->Ok_0.listen_addrs[i] == listen_addr_spec(
                    #[trigger] words_spec(v)[i],
                ).unwrap()
        },
        k == "prometheus_addr"@ && prometheus_addr_spec(v, f) is Ok ==> apply_setting(
            c,
            k,
            v,
            f,
            honor_dir,
            dir_ok,
        ) == Ok::<ConfigModel, ParseErrorModel>(
            (ConfigModel { prometheus_addr: prometheus_addr_spec(v, f)->Ok_0, ..c }),
        ),
        k == "frontend_dir"@ && honor_dir && dir_ok ==> apply_setting(c, k, v, f, honor_dir, dir_ok)
            == Ok::<ConfigModel, ParseErrorModel>((ConfigModel { frontend_dir: Some(v), ..c })),
        k == "frontend_dir"@ && honor_dir && !dir_ok ==> apply_setting(c, k, v, f, honor_dir, dir_ok)
            == Err::<ConfigModel, ParseErrorModel>(
            ParseErrorModel::NotValidDir { key: "frontend_dir"@, value: v },
        ),
        k == "frontend_dir"@ && !honor_dir ==> apply_setting(c, k, v, f, honor_dir, dir_ok) == Ok::<
            ConfigModel,
            ParseErrorModel,
        >(c),
        k == "poll_rate"@ && poll_rate_spec(v) is Some ==> apply_setting(c, k, v, f, honor_dir, dir_ok)
            == Ok::<ConfigModel, ParseErrorModel>(
            (ConfigModel { poll_rate_mins: poll_rate_spec(v).unwrap(), ..c }),
        ),
        k == "state_location"@ ==> apply_setting(c, k, v, f, honor_dir, dir_ok) == Ok::<
            ConfigModel,
            ParseErrorModel,
        >((ConfigModel { state_location: v, ..c })),
        k == "database_name"@ ==> apply_setting(c, k, v, f, honor_dir, dir_ok) == Ok::<
            ConfigModel,
            ParseErrorModel,
        >((ConfigModel { database_name: v, ..c })),
        k == "log_level"@ && log_level_spec(v) is Some ==> apply_setting(c, k, v, f, honor_dir, dir_ok)
            == Ok::<ConfigModel, ParseErrorModel>(
            (ConfigModel { log_level: log_level_spec(v).unwrap(), ..c }),
        ),
        k == "log_format"@ && log_format_spec(v) is Some ==> apply_setting(c, k, v, f, honor_dir, dir_ok)
            == Ok::<ConfigModel, ParseErrorModel>(
            (ConfigModel { log_format: log_format_spec(v).unwrap(), ..c }),
        ),
        k == "log_target"@ && log_target_spec(v, f) is Some ==> apply_setting(
            c,
            k,
            v,
            f,
            honor_dir,
            dir_ok,
        ) == Ok::<ConfigModel, ParseErrorModel>(
            (ConfigModel { log_target: log_target_spec(v, f).unwrap(), ..c }),
        ),
        !(k == "listen_addrs"@ || k == "prometheus_addr"@ || k == "frontend_dir"@ || k == "poll_rate"@
            || k == "state_location"@ || k == "database_name"@ || k == "log_level"@ || k
            == "log_format"@ || k == "log_target"@) ==> apply_setting(c, k, v, f, honor_dir, dir_ok)
            == Ok::<ConfigModel, ParseErrorModel>(c),
{
    reveal_strlit("listen_addrs");
    reveal_strlit("prometheus_addr");
    reveal_strlit("frontend_dir");
    reveal_strlit("poll_rate");
    reveal_strlit("state_location");
    reveal_strlit("database_name");
    reveal_strlit("log_level");
    reveal_strlit("log_format");
    reveal_strlit("log_target");
    assert("listen_addrs"@ != "prometheus_addr"@) by {
        assert("listen_addrs"@.len() != "prometheus_addr"@.len());
    }
    assert("listen_addrs"@ != "frontend_dir"@) by {
        assert("listen_addrs"@[0] != "frontend_dir"@[0]);
    }
    assert("listen_addrs"@ != "poll_rate"@) by {
        assert("listen_addrs"@.len() != "poll_rate"@.len());
    }
    assert("listen_addrs"@ != "state_location"@) by {
        assert("listen_addrs"@.len() != "state_location"@.len());
    }
    assert("listen_addrs"@ != "database_name"@) by {
        assert("listen_addrs"@.len() != "database_name"@.len());
    }
    assert("listen_addrs"@ != "log_level"@) by {
        assert("listen_addrs"@.len() != "log_level"@.len());
    }
    assert("listen_addrs"@ != "log_format"@) by {
        assert("listen_addrs"@.len() != "log_format"@.len());
    }
    assert("listen_addrs"@ != "log_target"@) by {
        assert("listen_addrs"@.len() != "log_target"@.len());
    }
    assert("prometheus_addr"@ != "frontend_dir"@) by {
        assert("prometheus_addr"@.len() != "frontend_dir"@.len());
    }
    assert("prometheus_addr"@ != "poll_rate"@) by {
        assert("prometheus_addr"@.len() != "poll_rate"@.len());
    }
    assert("prometheus_addr"@ != "state_location"@) by {
        assert("prometheus_addr"@.len() != "state_location"@.len());
    }
    assert("prometheus_addr"@ != "database_name"@) by {
        assert("prometheus_addr"@.len() != "database_name"@.len());
    }
    assert("prometheus_addr"@ != "log_level"@) by {
        assert("prometheus_addr"@.len() != "log_level"@.len());
    }
    assert("prometheus_addr"@ != "log_format"@) by {
        assert("prometheus_addr"@.len() != "log_format"@.len());
    }
    assert("prometheus_addr"@ != "log_target"@) by {
        assert("prometheus_addr"@.len() != "log_target"@.len());
    }
    assert("frontend_dir"@ != "poll_rate"@) by {
        assert("frontend_dir"@.len() != "poll_rate"@.len());
    }
    assert("frontend_dir"@ != "state_location"@) by {
        assert("frontend_dir"@.len() != "state_location"@.len());
    }
    assert("frontend_dir"@ != "database_name"@) by {
        assert("frontend_dir"@.len() != "database_name"@.len());
    }
    assert("frontend_dir"@ != "log_level"@) by {
        assert("frontend_dir"@.len() != "log_level"@.len());
    }
    assert("frontend_dir"@ != "log_format"@) by {
        assert("frontend_dir"@.len() != "log_format"@.len());
    }
    assert("frontend_dir"@ != "log_target"@) by {
        assert("frontend_dir"@.len() != "log_target"@.len());
    }
    assert("poll_rate"@ != "state_location"@) by {
        assert("poll_rate"@.len() != "state_location"@.len());
    }
    assert("poll_rate"@ != "database_name"@) by {
        assert("poll_rate"@.len() != "database_name"@.len());
    }
    assert("poll_rate"@ != "log_level"@) by {
        assert("poll_rate"@[0] != "log_level"@[0]);
    }
    assert("poll_rate"@ != "log_format"@) by {
        assert("poll_rate"@.len() != "log_format"@.len());
    }
    assert("poll_rate"@ != "log_target"@) by {
        assert("poll_rate"@.len() != "log_target"@.len());
    }
    assert("state_location"@ != "database_name"@) by {
        assert("state_location"@.len() != "database_name"@.len());
    }
    assert("state_location"@ != "log_level"@) by {
        assert("state_location"@.len() != "log_level"@.len());
    }
    assert("state_location"@ != "log_format"@) by {
        assert("state_location"@.len() != "log_format"@.len());
    }
    assert("state_location"@ != "log_target"@) by {
        assert("state_location"@.len() != "log_target"@.len());
    }
    assert("database_name"@ != "log_level"@) by {
        assert("database_name"@.len() != "log_level"@.len());
    }
    assert("database_name"@ != "log_format"@) by {
        assert("database_name"@.len() != "log_format"@.len());
    }
    assert("database_name"@ != "log_target"@) by {
        assert("database_name"@.len() != "log_target"@.len());
    }
    assert("log_level"@ != "log_format"@) by {
        assert("log_level"@.len() != "log_format"@.len());
    }
    assert("log_level"@ != "log_target"@) by {
        assert("log_level"@.len() != "log_target"@.len());
    }
    assert("log_format"@ != "log_target"@) by {
        assert("log_format"@[4] != "log_target"@[4]);
    }
    if k == "listen_addrs"@ && (forall|i: int|
        0 <= i < words_spec(v).len() ==> (#[trigger] listen_addr_spec(words_spec(v)[i])) is Some) {
        lemma_listen_addrs_in_order(words_spec(v));
    }
}

/// The settings after one line of the file.
pub open spec fn apply_line(
    c: ConfigModel,
    line: Seq<char>,
    f: BuildFeatures,
    honor_dir: bool,
    dir_ok: bool,
) -> Result<ConfigModel, ParseErrorModel> {
    if is_skipped_line(line) {
        Ok(c)
    } else {
        match line_key_value(line) {
            Some((k, v)) => apply_setting(c, k, v, f, honor_dir, dir_ok),
            None => Err(ParseErrorModel::Malformed(line)),
        }
    }
}

/// The settings that the lines of a file give, starting from the defaults:
/// the first refused line decides the error; nothing where the reading
/// reaches a `poll_rate` line whose number of minutes does not fit in `u64`.
/// `dir_answers[i]` is whether the value of `frontend_dir` on line `i`
/// named a directory when asked.
pub open spec fn ini_reach(
    ls: Seq<Seq<char>>,
    dir_answers: Seq<bool>,
    f: BuildFeatures,
    honor_dir: bool,
) -> Option<Result<ConfigModel, ParseErrorModel>>
    decreases ls.len(),
{
    if ls.len() == 0 {
        Some(Ok(default_config(f)))
    } else {
        match ini_reach(ls.drop_last(), dir_answers.drop_last(), f, honor_dir) {
            Some(Ok(c)) => if line_overflows(ls.last()) {
                None
            } else {
                Some(apply_line(c, ls.last(), f, honor_dir, dir_answers.last()))
            },
            other => other,
        }
    }
}

/// A `poll_rate` line whose value is too large a number of minutes.
pub open spec fn line_overflows(line: Seq<char>) -> bool {
    !is_skipped_line(line) && match line_key_value(line) {
        Some((k, v)) => k == "poll_rate"@ && poll_rate_overflows(v),
        None => false,
    }
}

pub open spec fn ini_result(r: Result<Config, ParseError>) -> Result<ConfigModel, ParseErrorModel> {
    match r {
        Ok(c) => Ok(c@),
        Err(e) => Err(e@),
    }
}

pub open spec fn ini_outcome(r: Option<Result<Config, ParseError>>) -> Option<
    Result<ConfigModel, ParseErrorModel>,
> {
    match r {
        Some(x) => Some(ini_result(x)),
        None => None,
    }
}

/// Once the reading of a prefix of the lines has stopped, the reading of
/// all of them stops the same way.
proof fn lemma_ini_reach_stop(
    ls: Seq<Seq<char>>,
    answers: Seq<bool>,
    f: BuildFeatures,
    honor_dir: bool,
    k: int,
)
    requires
        0 <= k <= ls.len(),
        answers.len() == ls.len(),
        !(ini_reach(ls.take(k), answers.take(k), f, honor_dir) matches Some(Ok(_))),
    ensures
        ini_reach(ls, answers, f, honor_dir) == ini_reach(ls.take(k), answers.take(k), f, honor_dir),
    decreases ls.len() - k,
{
    if k < ls.len() {
        assert(ls.take(k + 1).drop_last() =~= ls.take(k));
        assert(answers.take(k + 1).drop_last() =~= answers.take(k));
        lemma_ini_reach_stop(ls, answers, f, honor_dir, k + 1);
    } else {
        assert(ls.take(k) =~= ls);
        assert(answers.take(k) =~= answers);
    }
}

/// Whether a line starts with `c`.
fn first_char_is(line: &str, c: char) -> (res: bool)
    ensures
        res == (line@.len() > 0 && line@[0] == c),
{
    line.unicode_len() > 0 && line.get_char(0) == c
}

/// The settings after one `key = value` line, with whether `frontend_dir`
/// named a directory when asked.
fn apply_setting_exec(
    config: &mut Config,
    key: &str,
    value: &str,
    f: &BuildFeatures,
    honor_dir: bool,
) -> (res: (Result<(), ParseError>, Ghost<bool>))
    requires
        !(key@ == "poll_rate"@ && poll_rate_overflows(value@)),
    ensures
        match res.0 {
            Ok(()) => apply_setting(old(config)@, key@, value@, *f, honor_dir, res.1@)
                == Ok::<ConfigModel, ParseErrorModel>(final(config)@),
            Err(e) => apply_setting(old(config)@, key@, value@, *f, honor_dir, res.1@)
                == Err::<ConfigModel, ParseErrorModel>(e@),
        },
{
    let ghost c = config@;
    if str_eq(key, "listen_addrs") {
        match parse_listen_addrs(value) {
            Ok(a) => {
                config.listen_addrs = a;
            },
            Err(e) => {
                return (Err(e), Ghost(false));
            },
        }
    } else if str_eq(key, "prometheus_addr") {
        match parse_prometheus_addr(value, f) {
            Ok(u) => {
                config.prometheus_addr = u;
            },
            Err(e) => {
                return (Err(e), Ghost(false));
            },
        }
    } else if str_eq(key, "frontend_dir") {
        if honor_dir {
            let is_dir = is_directory(value);
            match frontend_dir_from(value, is_dir) {
                Ok(d) => {
                    config.frontend_dir = Some(d);
                    return (Ok(()), Ghost(is_dir));
                },
                Err(e) => {
                    return (Err(e), Ghost(is_dir));
                },
            }
        }
    } else if str_eq(key, "poll_rate") {
        match parse_poll_rate(value) {
            Ok(n) => {
                config.poll_rate_mins = n;
            },
            Err(e) => {
                return (Err(e), Ghost(false));
            },
        }
    } else if str_eq(key, "state_location") {
        config.state_location = owned(value);
    } else if str_eq(key, "database_name") {
        config.database_name = owned(value);
    } else if str_eq(key, "log_level") {
        match parse_log_level(value) {
            Ok(l) => {
                config.log_level = l;
            },
            Err(e) => {
                return (Err(e), Ghost(false));
            },
        }
    } else if str_eq(key, "log_format") {
        match parse_log_format(value) {
            Ok(l) => {
                config.log_format = l;
            },
            Err(e) => {
                return (Err(e), Ghost(false));
            },
        }
    } else if str_eq(key, "log_target") {
        match parse_log_target(value, f) {
            Ok(l) => {
                config.log_target = l;
            },
            Err(e) => {
                return (Err(e), Ghost(false));
            },
        }
    }
    (Ok(()), Ghost(false))
}

/// Reads the settings from the text of a configuration file. Lines are
/// `key = value`; empty lines and lines that start with `#` or `;` are
/// skipped, unknown keys are ignored, and the first line that cannot be read
/// decides the error. Whether `frontend_dir` names a directory is asked of
/// the file system; the result is the one for the answers it gave. `None`
/// where the reading reaches a `poll_rate` line whose number of minutes does
/// not fit in `u64`.
#[verifier::rlimit(50)]
#[verifier::spinoff_prover]
pub fn parse_ini(contents: &str, f: &BuildFeatures, command: &Command) -> (res: Option<
    Result<Config, ParseError>,
>)
    ensures
        exists|answers: Seq<bool>|
            answers.len() == lines_spec(contents@).len() && #[trigger] ini_reach(
                lines_spec(contents@),
                answers,
                *f,
                honors_frontend_dir(*f, command@),
            ) == ini_outcome(res),
{
    let honor_dir = f.debug_assertions || (f.serve_live && match command {
        Command::ServeLive => true,
        _ => false,
    });
    let ls = lines(contents);
    let ghost all = lines_spec(contents@);
    let mut config = Config::default_for(f);
    let ghost mut answers: Seq<bool> = Seq::empty();
    let mut i: usize = 0;
    assert(all.take(0) =~= Seq::<Seq<char>>::empty());
    while i < ls.len()
        invariant
            all == lines_spec(contents@),
            all == views_of(ls@),
            honor_dir == honors_frontend_dir(*f, command@),
            i <= ls@.len(),
            answers.len() == i,
            ini_reach(all.take(i as int), answers, *f, honor_dir) == Some(
                Ok::<ConfigModel, ParseErrorModel>(config@),
            ),
        decreases ls@.len() - i,
    {
        let line = ls[i];
        assert(all[i as int] == line@);
        assert(all.take(i + 1).drop_last() =~= all.take(i as int));
        assert(all.take(i + 1).last() == line@);
        let ghost before = config@;
        if !(line.is_empty() || first_char_is(line, '#') || first_char_is(line, ';')) {
            let (k, v) = match split_once(line, '=') {
                Some(pair) => pair,
                None => {
                    let e = ParseError::Malformed(owned(line));
                    proof {
                        let a2 = answers.push(false);
                        assert(a2.drop_last() =~= answers);
                        self::lemma_finish_err(all, a2, *f, honor_dir, i as int);
                    }
                    return Some(Err(e));
                },
            };
            let key = trim(k);
            let value = trim(v);
            if key.is_empty() || value.is_empty() {
                let e = ParseError::Malformed(owned(line));
                proof {
                    let a2 = answers.push(false);
                    assert(a2.drop_last() =~= answers);
                    self::lemma_finish_err(all, a2, *f, honor_dir, i as int);
                }
                return Some(Err(e));
            }
            assert(line_key_value(line@) == Some((key@, value@)));
            if str_eq(key, "poll_rate") && !poll_rate_fits(value) {
                proof {
                    assert(line_overflows(all[i as int]));
                    let a2 = answers.push(false);
                    assert(a2.drop_last() =~= answers);
                    self::lemma_finish_err(all, a2, *f, honor_dir, i as int);
                }
                return None;
            }
            assert(!line_overflows(all[i as int]));
            let (r, Ghost(ok)) = apply_setting_exec(&mut config, key, value, f, honor_dir);
            match r {
                Ok(()) => {
                    proof {
                        let a2 = answers.push(ok);
                        assert(a2.drop_last() =~= answers);
                        answers = a2;
                    }
                },
                Err(e) => {
                    proof {
                        let a2 = answers.push(ok);
                        assert(a2.drop_last() =~= answers);
                        self::lemma_finish_err(all, a2, *f, honor_dir, i as int);
                    }
                    return Some(Err(e));
                },
            }
        } else {
            proof {
                let a2 = answers.push(false);
                assert(a2.drop_last() =~= answers);
                answers = a2;
            }
        }
        i = i + 1;
    }
    assert(all.take(ls@.len() as int) =~= all);
    assert(answers.len() == all.len());
    let res = Some(Ok(config));
    assert(ini_reach(all, answers, *f, honor_dir) == ini_outcome(res));
    res
}

/// Where the reading stops at line `i` (with the answers up to it), the
/// whole file's reading stops there, whatever the answers after it.
proof fn lemma_finish_err(
    all: Seq<Seq<char>>,
    a: Seq<bool>,
    f: BuildFeatures,
    honor_dir: bool,
    i: int,
)
    requires
        0 <= i < all.len(),
        a.len() == i + 1,
        !(ini_reach(all.take(i + 1), a, f, honor_dir) matches Some(Ok(_))),
    ensures
        exists|answers: Seq<bool>|
            answers.len() == all.len() && #[trigger] ini_reach(all, answers, f, honor_dir)
                == ini_reach(all.take(i + 1), a, f, honor_dir),
{
    let answers = a + Seq::new((all.len() - i - 1) as nat, |j: int| false);
    assert(answers.take(i + 1) =~= a);
    lemma_ini_reach_stop(all, answers, f, honor_dir, i + 1);
    assert(ini_reach(all, answers, f, honor_dir) == ini_reach(all.take(i + 1), a, f, honor_dir));
}

} // verus!
