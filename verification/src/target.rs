//! From a request to the address of its upstream.
//!
//! `CONNECT` names the address itself. Any other method names a URL, whose
//! host and port give the address. The port is the one that the URL names,
//! be it the usual one of its scheme or not, and port 80 where it names none.
//! A URL without a host, and a relative reference such as the bare path that
//! a client of a transparent proxy sends, fall back on the first `Host`
//! header: its value is the address, with port 80 where it holds no colon,
//! and where there is no such header, or none with a value, the request
//! names no host. A target that the URL parser refuses for any other reason
//! is an error, whatever the headers say.
use vstd::prelude::*;
use vstd::utf8::{decode_utf8, valid_utf8};
use crate::error::ProxyError;
use crate::request::{optional_text, parse_head, request_of, Request, RequestView};
use crate::text::{lemma_next_of, lemma_next_of_is, lossy_text, next_of, CharClass, Text};

verus! {

/// What the proxy does between connecting the upstream and relaying.
#[derive(Clone, Copy, Debug, PartialEq, Eq, Structural)]
pub enum Mode {
    /// The client asked for a tunnel with `CONNECT`: it is told that the
    /// tunnel stands, and the upstream is sent nothing.
    Tunnel,
    /// The client sent an ordinary request: what was captured of it is
    /// passed on to the upstream.
    Forward,
}

/// The upstream of a connection.
#[derive(Debug, PartialEq, Eq)]
pub struct Target {
    /// The address to connect to, as `host:port`.
    pub address: String,
    /// The handshake that the method calls for.
    pub mode: Mode,
}

/// The mathematical value of a [`Target`].
pub struct TargetView {
    pub address: Seq<char>,
    pub mode: Mode,
}

impl View for Target {
    type V = TargetView;

    open spec fn view(&self) -> TargetView {
        TargetView { address: self.address@, mode: self.mode }
    }
}

/// What the URL parser makes of a request target.
#[derive(Debug, PartialEq, Eq)]
pub enum UrlTarget {
    /// An absolute URL with a host. The parser reports the port only where
    /// the URL names one that is not the default of its scheme.
    Host { host: String, port: Option<u16> },
    /// An absolute URL without a host.
    NoHost,
    /// A relative reference.
    Relative,
    /// No URL.
    Malformed,
}

/// The mathematical value of a [`UrlTarget`].
pub enum UrlParts {
    Host { host: Seq<char>, port: Option<u16> },
    NoHost,
    Relative,
    Malformed,
}

impl View for UrlTarget {
    type V = UrlParts;

    open spec fn view(&self) -> UrlParts {
        match self {
            UrlTarget::Host { host, port } => UrlParts::Host { host: host@, port: *port },
            UrlTarget::NoHost => UrlParts::NoHost,
            UrlTarget::Relative => UrlParts::Relative,
            UrlTarget::Malformed => UrlParts::Malformed,
        }
    }
}

/// What `url::Url::parse` makes of `text`: the host, as `url::Host` prints
/// it, and the port, as `Url::port` gives it, of the URL that it returns;
/// `NoHost` where that URL has no host; `Relative` where it reports a
/// relative URL without a base; `Malformed` where it reports any other error.
pub uninterp spec fn url_parts(text: Seq<char>) -> UrlParts;

/// Calls `url::Url::parse`, and on the URL that it returns `Url::host`, whose
/// result is printed with `to_string`, and `Url::port`. Of the parser's
/// errors only `RelativeUrlWithoutBase` is told apart from the others. The
/// outcome depends on the text alone; the contract gives it its name.
#[verifier::external_body]
fn parse_url(text: &str) -> (parsed: UrlTarget)
    ensures
        parsed@ == url_parts(text@),
{
    match url::Url::parse(text) {
        Ok(parsed) => match parsed.host() {
            Some(host) => UrlTarget::Host { host: host.to_string(), port: parsed.port() },
            None => UrlTarget::NoHost,
        },
        Err(url::ParseError::RelativeUrlWithoutBase) => UrlTarget::Relative,
        Err(_) => UrlTarget::Malformed,
    }
}

/// The port that a URL without a port, and a `Host` header without one, stand for.
pub const DEFAULT_PORT: u16 = 80;

/// The decimal digit for `d`.
pub open spec fn digit(d: int) -> char {
    seq!['0', '1', '2', '3', '4', '5', '6', '7', '8', '9'][d]
}

/// `n` in decimal digits, without leading zeros.
pub open spec fn decimal(n: nat) -> Seq<char>
    decreases n,
{
    if n < 10 {
        seq![digit(n as int)]
    } else {
        decimal(n / 10) + seq![digit((n % 10) as int)]
    }
}

/// `c` is a decimal digit.
pub open spec fn is_digit(c: char) -> bool {
    '0' <= c <= '9'
}

/// The number for which the decimal digit `c` stands.
pub open spec fn digit_value(c: char) -> int {
    c as int - '0' as int
}

/// The number that `digits` write in decimal.
pub open spec fn number_of(digits: Seq<char>) -> int
    decreases digits.len(),
{
    if digits.len() == 0 {
        0
    } else {
        number_of(digits.drop_last()) * 10 + digit_value(digits.last())
    }
}

/// Where the run of decimal digits that ends before `upto` starts; `upto`
/// itself where no digit stands before it.
pub open spec fn digits_start(text: Seq<char>, upto: int) -> int
    decreases upto,
{
    if upto <= 0 || upto > text.len() || !is_digit(text[upto - 1]) {
        upto
    } else {
        digits_start(text, upto - 1)
    }
}

/// The port that the text of a URL names.
///
/// The authority of the URL starts behind the colon that ends the scheme and
/// the slashes that follow it, and ends before the next slash, backslash,
/// question mark or number sign, or with the text. It names a port where it
/// ends with a colon and decimal digits that write a number of 16 bits.
pub open spec fn named_port(target: Seq<char>) -> Option<u16> {
    let scheme_end = next_of(target, CharClass::Colon, 0);
    let start = next_of(target, CharClass::NotSlash, scheme_end + 1);
    let end = next_of(target, CharClass::Delimiter, start);
    let digits = digits_start(target, end);
    let number = number_of(target.subrange(digits, end));
    let ends_with_port = start < digits < end && target[digits - 1] == ':';
    if scheme_end < target.len() && ends_with_port && number <= u16::MAX {
        Some(number as u16)
    } else {
        None
    }
}

/// The port of a URL with a host: the one that the parser reports, else the
/// one that the text names, else the default.
pub open spec fn port_of(reported: Option<u16>, named: Option<u16>) -> u16 {
    match (reported, named) {
        (Some(port), _) => port,
        (None, Some(port)) => port,
        (None, None) => DEFAULT_PORT,
    }
}

/// `host` and `port` joined by a colon.
pub open spec fn host_port(host: Seq<char>, port: u16) -> Seq<char> {
    host + seq![':'] + decimal(port as nat)
}

/// The address that the value of a `Host` header stands for: the value
/// itself where it holds a colon, the value with the default port otherwise.
pub open spec fn host_address(value: Seq<char>) -> Seq<char> {
    if value.contains(':') {
        value
    } else {
        host_port(value, DEFAULT_PORT)
    }
}

/// The method that asks for a tunnel.
pub open spec fn connect_method() -> Seq<char> {
    "CONNECT"@
}

/// The upstream of a request that is no `CONNECT`, from what the URL parser
/// made of its target, from the port that the target names and from the
/// `Host` header.
pub open spec fn forward_target(
    url: UrlParts,
    named: Option<u16>,
    host: Option<Seq<char>>,
) -> Result<TargetView, ProxyError> {
    match url {
        UrlParts::Host { host: name, port } => Ok(
            TargetView { address: host_port(name, port_of(port, named)), mode: Mode::Forward },
        ),
        UrlParts::Malformed => Err(ProxyError::MalformedTarget),
        UrlParts::NoHost | UrlParts::Relative => match host {
            Some(value) if value.len() > 0 => Ok(
                TargetView { address: host_address(value), mode: Mode::Forward },
            ),
            _ => Err(ProxyError::NoHost),
        },
    }
}

/// The upstream of a request.
pub open spec fn target_of(request: RequestView) -> Result<TargetView, ProxyError> {
    if request.method == connect_method() {
        Ok(TargetView { address: request.target, mode: Mode::Tunnel })
    } else {
        forward_target(url_parts(request.target), named_port(request.target), request.host)
    }
}

/// A `CONNECT` request names its upstream itself: the target is the
/// address as it stands, and no port is put in place of its own.
pub proof fn lemma_connect_is_verbatim(request: RequestView)
    requires
        request.method == connect_method(),
    ensures
        target_of(request) == Ok::<TargetView, ProxyError>(
            TargetView { address: request.target, mode: Mode::Tunnel },
        ),
{
}

/// A `Host` header without a colon stands for port 80 of the host it names.
pub proof fn lemma_host_without_port(url: UrlParts, named: Option<u16>, value: Seq<char>)
    requires
        url is NoHost || url is Relative,
        value.len() > 0,
        !value.contains(':'),
    ensures
        forward_target(url, named, Some(value)) == Ok::<TargetView, ProxyError>(
            TargetView { address: value + seq![':', '8', '0'], mode: Mode::Forward },
        ),
{
    lemma_decimal_of_default_port();
    assert(host_port(value, DEFAULT_PORT) =~= value + seq![':', '8', '0']);
}

/// A `Host` header with a colon is the address as it stands.
pub proof fn lemma_host_with_port(url: UrlParts, named: Option<u16>, value: Seq<char>)
    requires
        url is NoHost || url is Relative,
        value.contains(':'),
    ensures
        forward_target(url, named, Some(value)) == Ok::<TargetView, ProxyError>(
            TargetView { address: value, mode: Mode::Forward },
        ),
{
}

/// A URL with a host that names no port stands for port 80 of that host,
/// whatever the `Host` header says.
pub proof fn lemma_url_without_port(name: Seq<char>, host: Option<Seq<char>>)
    ensures
        forward_target(UrlParts::Host { host: name, port: None }, None, host) == Ok::<
            TargetView,
            ProxyError,
        >(TargetView { address: name + seq![':', '8', '0'], mode: Mode::Forward }),
{
    lemma_decimal_of_default_port();
    assert(host_port(name, DEFAULT_PORT) =~= name + seq![':', '8', '0']);
}

/// A URL with a host that names a port stands for that port, also where the
/// parser leaves it out as the default of the scheme, and whatever the `Host`
/// header says.
pub proof fn lemma_url_with_port(name: Seq<char>, port: u16, host: Option<Seq<char>>)
    ensures
        forward_target(UrlParts::Host { host: name, port: None }, Some(port), host) == Ok::<
            TargetView,
            ProxyError,
        >(TargetView { address: host_port(name, port), mode: Mode::Forward }),
        forward_target(UrlParts::Host { host: name, port: Some(port) }, Some(port), host) == Ok::<
            TargetView,
            ProxyError,
        >(TargetView { address: host_port(name, port), mode: Mode::Forward }),
{
}

/// Every decimal digit of a run of digits is one, and none stands before it.
pub proof fn lemma_digits_start(text: Seq<char>, upto: int)
    requires
        0 <= upto <= text.len(),
    ensures
        0 <= digits_start(text, upto) <= upto,
        forall|k: int| digits_start(text, upto) <= k < upto ==> is_digit(#[trigger] text[k]),
        digits_start(text, upto) > 0 ==> !is_digit(text[digits_start(text, upto) - 1]),
    decreases upto,
{
    if upto > 0 && is_digit(text[upto - 1]) {
        lemma_digits_start(text, upto - 1);
    }
}

/// A position before which no digit stands and from which on digits only
/// stand up to `upto` is `digits_start`.
pub proof fn lemma_digits_start_is(text: Seq<char>, upto: int, at: int)
    requires
        0 <= at <= upto <= text.len(),
        forall|k: int| at <= k < upto ==> is_digit(#[trigger] text[k]),
        at > 0 ==> !is_digit(text[at - 1]),
    ensures
        digits_start(text, upto) == at,
    decreases upto - at,
{
    if at < upto {
        lemma_digits_start_is(text, upto - 1, at);
    }
}

/// The decimal digits of a number are digits, at least one of them, and
/// write that number.
pub proof fn lemma_decimal(n: nat)
    ensures
        decimal(n).len() > 0,
        forall|i: int| 0 <= i < decimal(n).len() ==> is_digit(#[trigger] decimal(n)[i]),
        number_of(decimal(n)) == n,
    decreases n,
{
    let last = digit((n % 10) as int);
    assert(is_digit(last) && digit_value(last) == n % 10);
    assert(decimal(n).last() == last);
    if n < 10 {
        assert(decimal(n).drop_last() =~= Seq::<char>::empty());
        assert(number_of(decimal(n).drop_last()) == 0);
    } else {
        lemma_decimal(n / 10);
        assert(decimal(n).drop_last() =~= decimal(n / 10));
        assert(number_of(decimal(n).drop_last()) == n / 10);
    }
    assert(number_of(decimal(n)) == number_of(decimal(n).drop_last()) * 10 + digit_value(last));
}

/// A URL names the port that its text holds. The text is a scheme, a colon
/// and two slashes; then the authority, which is `before`, a colon and the
/// decimal digits of `port`; then `rest`, which is empty or starts with what
/// ends an authority.
pub proof fn lemma_named_port(scheme: Seq<char>, before: Seq<char>, port: u16, rest: Seq<char>)
    requires
        forall|i: int| 0 <= i < scheme.len() ==> #[trigger] scheme[i] != ':',
        forall|i: int| 0 <= i < before.len() ==> !CharClass::Delimiter.holds(#[trigger] before[i]),
        rest.len() > 0 ==> CharClass::Delimiter.holds(rest[0]),
    ensures
        named_port(
            scheme + seq![':', '/', '/'] + before + seq![':'] + decimal(port as nat) + rest,
        ) == Some(port),
{
    let digits = decimal(port as nat);
    let text = scheme + seq![':', '/', '/'] + before + seq![':'] + digits + rest;
    let scheme_end: int = scheme.len() as int;
    let start: int = scheme_end + 3;
    let colon: int = start + before.len();
    let end: int = colon + 1 + digits.len();
    lemma_decimal(port as nat);
    assert(text.len() == end + rest.len());
    assert forall|k: int| 0 <= k < scheme_end implies text[k] == scheme[k] by {}
    assert(text[scheme_end] == ':');
    assert(text[scheme_end + 1] == '/');
    assert(text[scheme_end + 2] == '/');
    assert forall|k: int| start <= k < colon implies text[k] == before[k - start] by {}
    assert(text[colon] == ':');
    assert forall|k: int| colon < k < end implies text[k] == digits[k - colon - 1] by {}
    assert(rest.len() > 0 ==> text[end] == rest[0]);
    lemma_next_of_is(text, CharClass::Colon, 0, scheme_end);
    lemma_next_of_is(text, CharClass::NotSlash, scheme_end + 1, start);
    assert forall|k: int| start <= k < end implies !CharClass::Delimiter.holds(
        #[trigger] text[k],
    ) by {
        if k < colon {
            assert(!CharClass::Delimiter.holds(before[k - start]));
        } else if k > colon {
            assert(is_digit(digits[k - colon - 1]));
        }
    }
    lemma_next_of_is(text, CharClass::Delimiter, start, end);
    assert forall|k: int| colon + 1 <= k < end implies is_digit(#[trigger] text[k]) by {
        assert(is_digit(digits[k - colon - 1]));
    }
    lemma_digits_start_is(text, end, colon + 1);
    assert(text.subrange(colon + 1, end) =~= digits);
}

/// The number that digits write is not negative and does not shrink as
/// digits are added behind them.
pub proof fn lemma_number_grows(digits: Seq<char>, k: int)
    requires
        0 <= k <= digits.len(),
        forall|i: int| 0 <= i < digits.len() ==> is_digit(#[trigger] digits[i]),
    ensures
        0 <= number_of(digits.take(k)) <= number_of(digits),
    decreases digits.len(),
{
    if k == digits.len() {
        assert(digits.take(k) =~= digits);
        if k > 0 {
            lemma_number_grows(digits.drop_last(), k - 1);
        }
    } else {
        lemma_number_grows(digits.drop_last(), k);
        assert(digits.drop_last().take(k) =~= digits.take(k));
        lemma_number_grows(digits.drop_last(), digits.len() - 1);
    }
}

/// The default port in decimal digits.
pub proof fn lemma_decimal_of_default_port()
    ensures
        decimal(DEFAULT_PORT as nat) == seq!['8', '0'],
{
    reveal_with_fuel(decimal, 2);
    assert(decimal(DEFAULT_PORT as nat) =~= seq!['8', '0']);
}

/// The text of one decimal digit.
fn digit_text(d: u16) -> (text: &'static str)
    requires
        d < 10,
    ensures
        text@ == seq![digit(d as int)],
{
    proof {
        reveal_strlit("0");
        reveal_strlit("1");
        reveal_strlit("2");
        reveal_strlit("3");
        reveal_strlit("4");
        reveal_strlit("5");
        reveal_strlit("6");
        reveal_strlit("7");
        reveal_strlit("8");
        reveal_strlit("9");
    }
    let text = match d {
        0 => "0",
        1 => "1",
        2 => "2",
        3 => "3",
        4 => "4",
        5 => "5",
        6 => "6",
        7 => "7",
        8 => "8",
        _ => "9",
    };
    assert(text@ =~= seq![digit(d as int)]);
    text
}

/// Appends `n` in decimal digits to `out`.
pub fn push_decimal(out: &mut String, n: u16)
    ensures
        final(out)@ == old(out)@ + decimal(n as nat),
    decreases n,
{
    if n >= 10 {
        push_decimal(out, n / 10);
    }
    out.append(digit_text(n % 10));
    assert(final(out)@ =~= old(out)@ + decimal(n as nat));
}

/// `host` and `port` joined by a colon.
pub fn join_host_port(host: &str, port: u16) -> (address: String)
    ensures
        address@ == host_port(host@, port),
{
    proof {
        reveal_strlit(":");
    }
    let mut address = host.to_owned();
    address.append(":");
    push_decimal(&mut address, port);
    assert(address@ =~= host_port(host@, port));
    address
}

/// The address that the value of a `Host` header stands for.
pub fn address_of_host(value: &str) -> (address: String)
    ensures
        address@ == host_address(value@),
{
    let text = Text::from_string(value.to_owned());
    let colon = text.find_next(CharClass::Colon, 0);
    proof {
        lemma_next_of(text@, CharClass::Colon, 0);
    }
    if colon < text.len() {
        assert(value@[colon as int] == ':');
        value.to_owned()
    } else {
        join_host_port(value, DEFAULT_PORT)
    }
}

/// Where the run of decimal digits that ends before `upto` starts.
fn find_digits_start(text: &Text, upto: usize) -> (start: usize)
    requires
        upto <= text@.len(),
    ensures
        start == digits_start(text@, upto as int),
{
    let mut start: usize = upto;
    while start > 0 && '0' <= text.char_at(start - 1) && text.char_at(start - 1) <= '9'
        invariant
            start <= upto <= text@.len(),
            digits_start(text@, start as int) == digits_start(text@, upto as int),
        decreases start,
    {
        start -= 1;
    }
    start
}

/// The number that the digits of `text` from `from` up to `to` write, where
/// it has 16 bits.
fn read_number(text: &Text, from: usize, to: usize) -> (number: Option<u16>)
    requires
        from <= to <= text@.len(),
        forall|k: int| from <= k < to ==> is_digit(#[trigger] text@[k]),
    ensures
        match number {
            Some(n) => number_of(text@.subrange(from as int, to as int)) == n,
            None => number_of(text@.subrange(from as int, to as int)) > u16::MAX,
        },
{
    let ghost digits = text@.subrange(from as int, to as int);
    let mut number: u32 = 0;
    let mut at: usize = from;
    while at < to
        invariant
            from <= at <= to <= text@.len(),
            digits == text@.subrange(from as int, to as int),
            forall|k: int| from <= k < to ==> is_digit(#[trigger] text@[k]),
            number == number_of(text@.subrange(from as int, at as int)),
            number <= u16::MAX,
        decreases to - at,
    {
        let c = text.char_at(at);
        assert(is_digit(text@[at as int]));
        let value: u32 = c as u32 - '0' as u32;
        proof {
            let longer = text@.subrange(from as int, at + 1);
            assert(longer.drop_last() =~= text@.subrange(from as int, at as int));
            assert(longer.last() == c);
            assert(digits.take(at + 1 - from) =~= longer);
            assert forall|i: int| 0 <= i < digits.len() implies is_digit(#[trigger] digits[i]) by {
                assert(digits[i] == text@[from + i]);
            }
            lemma_number_grows(digits, at + 1 - from);
        }
        number = number * 10 + value;
        if number > 65535 {
            return None;
        }
        at += 1;
    }
    assert(text@.subrange(from as int, at as int) == digits);
    Some(number as u16)
}

/// The port that the text of a URL names.
pub fn find_named_port(target: &str) -> (port: Option<u16>)
    ensures
        port == named_port(target@),
{
    let text = Text::from_string(target.to_owned());
    let len = text.len();
    let scheme_end = text.find_next(CharClass::Colon, 0);
    if scheme_end >= len {
        return None;
    }
    let start = text.find_next(CharClass::NotSlash, scheme_end + 1);
    let end = text.find_next(CharClass::Delimiter, start);
    proof {
        lemma_next_of(text@, CharClass::NotSlash, scheme_end + 1);
        lemma_next_of(text@, CharClass::Delimiter, start as int);
        lemma_digits_start(text@, end as int);
    }
    let digits = find_digits_start(&text, end);
    if start < digits && digits < end && text.char_at(digits - 1) == ':' {
        read_number(&text, digits, end)
    } else {
        None
    }
}

/// The upstream of a request that is no `CONNECT`, from what the URL parser
/// made of its target, from the port that the target names and from the
/// `Host` header.
pub fn resolve_forward(
    url: UrlTarget,
    named: Option<u16>,
    host: &Option<String>,
) -> (resolved: Result<Target, ProxyError>)
    ensures
        match resolved {
            Ok(target) => forward_target(url@, named, optional_text(*host)) == Ok::<
                TargetView,
                ProxyError,
            >(target@),
            Err(e) => forward_target(url@, named, optional_text(*host)) == Err::<
                TargetView,
                ProxyError,
            >(e),
        },
{
    match url {
        UrlTarget::Host { host: name, port } => {
            let port = match (port, named) {
                (Some(port), _) => port,
                (None, Some(port)) => port,
                (None, None) => DEFAULT_PORT,
            };
            Ok(Target { address: join_host_port(name.as_str(), port), mode: Mode::Forward })
        },
        UrlTarget::Malformed => Err(ProxyError::MalformedTarget),
        UrlTarget::NoHost | UrlTarget::Relative => match host {
            Some(value) => {
                if value.as_str().is_empty() {
                    Err(ProxyError::NoHost)
                } else {
                    Ok(Target { address: address_of_host(value.as_str()), mode: Mode::Forward })
                }
            },
            None => Err(ProxyError::NoHost),
        },
    }
}

/// Whether `method` asks for a tunnel.
pub fn is_connect(method: &str) -> (is: bool)
    ensures
        is == (method@ == connect_method()),
{
    let connect = "CONNECT".to_owned();
    let given = method.to_owned();
    given == connect
}

/// The upstream of a request.
pub fn resolve(request: &Request) -> (resolved: Result<Target, ProxyError>)
    ensures
        match resolved {
            Ok(target) => target_of(request@) == Ok::<TargetView, ProxyError>(target@),
            Err(e) => target_of(request@) == Err::<TargetView, ProxyError>(e),
        },
{
    if is_connect(request.method.as_str()) {
        Ok(Target { address: request.target.clone(), mode: Mode::Tunnel })
    } else {
        let target = request.target.as_str();
        resolve_forward(parse_url(target), find_named_port(target), &request.host)
    }
}

/// The request in a head and its upstream.
pub open spec fn classified(head: Seq<u8>) -> Result<(RequestView, TargetView), ProxyError> {
    match request_of(lossy_text(head)) {
        Err(e) => Err(e),
        Ok(request) => match target_of(request) {
            Err(e) => Err(e),
            Ok(target) => Ok((request, target)),
        },
    }
}

/// Reads the request out of a head and resolves its upstream.
pub fn classify(head: &[u8]) -> (found: Result<(Request, Target), ProxyError>)
    ensures
        match found {
            Ok(pair) => classified(head@) == Ok::<(RequestView, TargetView), ProxyError>(
                (pair.0@, pair.1@),
            ),
            Err(e) => classified(head@) == Err::<(RequestView, TargetView), ProxyError>(e),
        },
        valid_utf8(head@) ==> lossy_text(head@) == decode_utf8(head@),
{
    match parse_head(head) {
        Err(e) => Err(e),
        Ok(request) => match resolve(&request) {
            Err(e) => Err(e),
            Ok(target) => Ok((request, target)),
        },
    }
}

} // verus!
