//! Header lines: which are passed on, and which the relay adds.

use crate::proxy::{PoolProxy, ProxyView};
use crate::text::{ascii_lower, decimal, decimal_text, opt_text, same_chars, to_ascii_lower};
use axum::http::{HeaderMap, HeaderName, HeaderValue};
use vstd::prelude::*;
use vstd::string::*;
use vstd::utf8::*;

verus! {

/// `axum::http::HeaderMap`, the headers of a request or a response.
#[verifier::external_type_specification]
#[verifier::external_body]
#[verifier::reject_recursive_types(T)]
pub struct ExHeaderMap<T>(axum::http::HeaderMap<T>);

/// `axum::http::HeaderName`.
#[verifier::external_type_specification]
#[verifier::external_body]
pub struct ExHeaderName(axum::http::HeaderName);

/// `axum::http::HeaderValue`.
#[verifier::external_type_specification]
#[verifier::external_body]
pub struct ExHeaderValue(axum::http::HeaderValue);

/// With how many names a `HeaderMap` takes another, however they hash. Its table has at most 32768
/// slots, and where names collide it grows as soon as a fifth of the slots are taken: with more
/// names than these it may have to grow beyond that, and refuses.
pub const HEADER_NAME_LIMIT: usize = 6553;

/// How many names [`response_headers`] adds at most.
pub const PROXY_HEADER_COUNT: usize = 6;

/// What a `HeaderMap` holds: under each name its values, in the order in which they were added.
pub uninterp spec fn header_contents(m: HeaderMap) -> Map<Seq<char>, Seq<Seq<u8>>>;

/// The text of a `HeaderName`, which is in lower case.
pub uninterp spec fn name_view(name: HeaderName) -> Seq<char>;

/// The bytes of a `HeaderValue`.
pub uninterp spec fn value_view(value: HeaderValue) -> Seq<u8>;

/// A header line: a name and a value.
pub struct HeaderView {
    pub name: Seq<char>,
    pub value: Seq<u8>,
}

/// The views of header lines.
pub open spec fn line_views(s: Seq<(HeaderName, HeaderValue)>) -> Seq<HeaderView> {
    s.map_values(
        |l: (HeaderName, HeaderValue)| HeaderView { name: name_view(l.0), value: value_view(l.1) },
    )
}

/// The values that lines give to a name, in order.
pub open spec fn values_of(lines: Seq<HeaderView>, name: Seq<char>) -> Seq<Seq<u8>>
    decreases lines.len(),
{
    if lines.len() == 0 {
        Seq::empty()
    } else if lines.last().name == name {
        values_of(lines.drop_last(), name).push(lines.last().value)
    } else {
        values_of(lines.drop_last(), name)
    }
}

/// Whether one of the lines has the name.
pub open spec fn names_line(lines: Seq<HeaderView>, name: Seq<char>) -> bool {
    exists|i: int| 0 <= i < lines.len() && (#[trigger] lines[i]).name == name
}

/// The lines put together by their names.
pub open spec fn grouped(lines: Seq<HeaderView>) -> Map<Seq<char>, Seq<Seq<u8>>> {
    Map::new(|name: Seq<char>| names_line(lines, name), |name: Seq<char>| values_of(lines, name))
}

/// Calls `HeaderMap::new`, which makes an empty map.
#[verifier::external_body]
pub(crate) fn new_headers() -> (r: HeaderMap)
    ensures
        header_contents(r).dom() == Set::<Seq<char>>::empty(),
{
    HeaderMap::new()
}

/// Calls `HeaderMap::iter` and takes a copy of each name and value: a name comes once for each
/// of its values, which come in the order in which they were added. The order of the names is
/// left open.
#[verifier::external_body]
pub(crate) fn header_lines(m: &HeaderMap) -> (r: Vec<(HeaderName, HeaderValue)>)
    ensures
        header_contents(*m) == grouped(line_views(r@)),
{
    m.iter().map(|(name, value)| (name.clone(), value.clone())).collect()
}

/// Calls `HeaderMap::try_insert`: the name then has the one value, whatever it had before. A map
/// that is full refuses and stays as it is; when it is depends on how its names hash, and it never
/// is with up to [`HEADER_NAME_LIMIT`] names.
#[verifier::external_body]
pub(crate) fn headers_insert(m: &mut HeaderMap, name: HeaderName, value: HeaderValue) -> (r: bool)
    ensures
        r ==> header_contents(*final(m)) == header_contents(*old(m)).insert(
            name_view(name),
            seq![value_view(value)],
        ),
        !r ==> header_contents(*final(m)) == header_contents(*old(m)),
        header_contents(*old(m)).dom().len() <= HEADER_NAME_LIMIT ==> r,
{
    m.try_insert(name, value).is_ok()
}

/// Calls `HeaderMap::try_append`: the name then has the value behind those that it had before. A
/// map that is full refuses, as [`headers_insert`] says.
#[verifier::external_body]
pub(crate) fn headers_append(m: &mut HeaderMap, name: HeaderName, value: HeaderValue) -> (r: bool)
    ensures
        r ==> header_contents(*final(m)) == with_added(
            header_contents(*old(m)),
            (HeaderView { name: name_view(name), value: value_view(value) }),
        ),
        !r ==> header_contents(*final(m)) == header_contents(*old(m)),
        header_contents(*old(m)).dom().len() <= HEADER_NAME_LIMIT ==> r,
{
    m.try_append(name, value).is_ok()
}

/// Calls `HeaderName::as_str`: the text of the name.
#[verifier::external_body]
pub(crate) fn name_text(name: &HeaderName) -> (r: &str)
    ensures
        r@ == name_view(*name),
{
    name.as_str()
}

/// Whether a character may stand in a header name.
pub open spec fn name_char(c: char) -> bool {
    ||| 'a' <= c && c <= 'z'
    ||| 'A' <= c && c <= 'Z'
    ||| '0' <= c && c <= '9'
    ||| "!#$%&'*+-.^_`|~"@.contains(c)
}

/// Whether a text is a header name.
pub open spec fn is_header_name(text: Seq<char>) -> bool {
    &&& 0 < text.len() <= 65535
    &&& forall|i: int| 0 <= i < text.len() ==> name_char(#[trigger] text[i])
}

/// Calls `HeaderName::from_bytes` on the bytes of a text: the name, in lower case, if the text is
/// one.
#[verifier::external_body]
pub(crate) fn header_name(text: &str) -> (r: Option<HeaderName>)
    ensures
        match r {
            Some(name) => is_header_name(text@) && name_view(name) == ascii_lower(text@),
            None => !is_header_name(text@),
        },
{
    HeaderName::from_bytes(text.as_bytes()).ok()
}

/// Whether a byte may stand in a header value: a tab, or anything from the space on but the
/// delete character.
pub open spec fn value_byte(b: u8) -> bool {
    b == 9 || (b >= 32 && b != 127)
}

/// Whether bytes make a header value.
pub open spec fn is_header_value(bytes: Seq<u8>) -> bool {
    forall|i: int| 0 <= i < bytes.len() ==> value_byte(#[trigger] bytes[i])
}

/// Whether a text can be a header value.
pub open spec fn is_header_text(text: Seq<char>) -> bool {
    is_header_value(encode_utf8(text))
}

/// Calls `HeaderValue::from_str`: a value with the bytes of the text, if each of them may stand
/// in a header value.
#[verifier::external_body]
pub(crate) fn header_value(text: &str) -> (r: Option<HeaderValue>)
    ensures
        match r {
            Some(value) => is_header_text(text@) && value_view(value) == encode_utf8(text@),
            None => !is_header_text(text@),
        },
{
    HeaderValue::from_str(text).ok()
}

/// Whether a byte is an ASCII letter or digit.
pub open spec fn is_alphanumeric(b: u8) -> bool {
    ||| 48 <= b <= 57
    ||| 65 <= b <= 90
    ||| 97 <= b <= 122
}

/// The upper-case hexadecimal digit that stands for `d`.
pub open spec fn hex_char(d: int) -> char
    recommends
        0 <= d < 16,
{
    if d < 10 {
        ('0' as int + d) as char
    } else {
        ('A' as int + d - 10) as char
    }
}

/// A byte in percent encoding: itself if it is a letter or digit, else `%` and two hexadecimal
/// digits.
pub open spec fn percent_encoded_byte(b: u8) -> Seq<char> {
    if is_alphanumeric(b) {
        seq![b as char]
    } else {
        seq!['%', hex_char(b as int / 16), hex_char(b as int % 16)]
    }
}

/// Bytes in percent encoding.
pub open spec fn percent_encoded(bytes: Seq<u8>) -> Seq<char>
    decreases bytes.len(),
{
    if bytes.len() == 0 {
        Seq::empty()
    } else {
        percent_encoded_byte(bytes[0]) + percent_encoded(bytes.drop_first())
    }
}

/// Calls `percent_encoding::utf8_percent_encode` with `percent_encoding::NON_ALPHANUMERIC`: each
/// UTF-8 byte of the text that is no ASCII letter or digit is written as `%` and two upper-case
/// hexadecimal digits.
#[verifier::external_body]
pub(crate) fn percent_encode(text: &str) -> (r: String)
    ensures
        r@ == percent_encoded(encode_utf8(text@)),
{
    percent_encoding::utf8_percent_encode(text, percent_encoding::NON_ALPHANUMERIC).to_string()
}

/// Header lines of a request that are not passed on: those that concern the connection, and the
/// host.
pub open spec fn is_request_hop_header(name: Seq<char>) -> bool {
    let key = ascii_lower(name);
    key == "host"@ || key == "connection"@ || key == "transfer-encoding"@
}

/// Header lines of a response that are not passed on: those that concern the connection.
pub open spec fn is_response_hop_header(name: Seq<char>) -> bool {
    let key = ascii_lower(name);
    ||| key == "connection"@
    ||| key == "transfer-encoding"@
    ||| key == "keep-alive"@
    ||| key == "proxy-authenticate"@
    ||| key == "proxy-authorization"@
    ||| key == "te"@
    ||| key == "trailer"@
    ||| key == "upgrade"@
}

/// Decides [`is_request_hop_header`].
pub fn skips_request_header(name: &str) -> (r: bool)
    ensures
        r == is_request_hop_header(name@),
{
    let key: Vec<char> = to_ascii_lower(name);
    same_chars(&key, "host") || same_chars(&key, "connection") || same_chars(
        &key,
        "transfer-encoding",
    )
}

/// Decides [`is_response_hop_header`].
pub fn skips_response_header(name: &str) -> (r: bool)
    ensures
        r == is_response_hop_header(name@),
{
    let key: Vec<char> = to_ascii_lower(name);
    same_chars(&key, "connection") || same_chars(&key, "transfer-encoding") || same_chars(
        &key,
        "keep-alive",
    ) || same_chars(&key, "proxy-authenticate") || same_chars(&key, "proxy-authorization")
        || same_chars(&key, "te") || same_chars(&key, "trailer") || same_chars(&key, "upgrade")
}

/// The headers of a response that are passed on, each with all its values: all but those that
/// concern the connection.
pub open spec fn passed_on(m: Map<Seq<char>, Seq<Seq<u8>>>) -> Map<Seq<char>, Seq<Seq<u8>>> {
    Map::new(
        |name: Seq<char>| m.contains_key(name) && !is_response_hop_header(name),
        |name: Seq<char>| m[name],
    )
}

/// Headers with lines set one after the other, each in place of what its name had before.
pub open spec fn with_lines(
    m: Map<Seq<char>, Seq<Seq<u8>>>,
    lines: Seq<HeaderView>,
) -> Map<Seq<char>, Seq<Seq<u8>>>
    decreases lines.len(),
{
    if lines.len() == 0 {
        m
    } else {
        with_lines(m, lines.drop_last()).insert(
            ascii_lower(lines.last().name),
            seq![lines.last().value],
        )
    }
}

/// A line with a text as its value.
pub open spec fn text_line(name: Seq<char>, text: Seq<char>) -> HeaderView {
    HeaderView { name, value: encode_utf8(text) }
}

/// The line for a text that may be absent or no header value; then there is none.
pub open spec fn optional_line(name: Seq<char>, text: Option<Seq<char>>) -> Seq<HeaderView> {
    match text {
        Some(t) if is_header_text(t) => seq![text_line(name, t)],
        _ => Seq::empty(),
    }
}

/// The address of a proxy: its server and its port.
pub open spec fn server_address(p: ProxyView) -> Seq<char> {
    p.server + ":"@ + decimal(p.port as nat)
}

/// The lines that tell a client which proxy was used, and at which attempt where the proxy was
/// chosen at random.
pub open spec fn proxy_lines(p: ProxyView, attempt: Option<u32>) -> Seq<HeaderView> {
    seq![
        text_line("X-Proxy-Id"@, p.id),
        text_line("X-Proxy-Name"@, percent_encoded(encode_utf8(p.name))),
        text_line("X-Proxy-Server"@, server_address(p)),
    ] + optional_line(
        "X-Proxy-IP"@,
        match p.quality {
            Some(q) => q.ip_address,
            None => None,
        },
    ) + optional_line(
        "X-Proxy-Country"@,
        match p.quality {
            Some(q) => q.country,
            None => None,
        },
    ) + (match attempt {
        Some(n) => seq![text_line("X-Proxy-Attempt"@, decimal(n as nat))],
        None => Seq::empty(),
    })
}

/// Whether what a proxy must be told by can stand in header lines.
pub open spec fn has_header_texts(p: ProxyView) -> bool {
    is_header_text(p.id) && is_header_text(p.server)
}

/// Encoding texts one after the other is encoding them together.
proof fn lemma_encode_concat(a: Seq<char>, b: Seq<char>)
    ensures
        encode_utf8(a + b) == encode_utf8(a) + encode_utf8(b),
    decreases a.len(),
{
    if a.len() == 0 {
        assert(a + b =~= b);
        assert(encode_utf8(a) + encode_utf8(b) =~= encode_utf8(b));
    } else {
        assert((a + b).drop_first() =~= a.drop_first() + b);
        lemma_encode_concat(a.drop_first(), b);
        assert(encode_utf8(a + b) =~= encode_utf8(a) + encode_utf8(b));
    }
}

/// Whether each character is visible ASCII.
spec fn is_visible(text: Seq<char>) -> bool {
    forall|i: int| 0 <= i < text.len() ==> 33 <= #[trigger] text[i] as int <= 126
}

/// A text of visible ASCII characters can be a header value.
proof fn lemma_visible_text(text: Seq<char>)
    requires
        is_visible(text),
    ensures
        is_header_text(text),
{
    assert(is_ascii_chars(text));
    is_ascii_chars_encode_utf8(text);
    assert forall|i: int| 0 <= i < encode_utf8(text).len() implies value_byte(
        #[trigger] encode_utf8(text)[i],
    ) by {
        assert(text[i] as u8 == encode_utf8(text)[i]);
        assert(33 <= text[i] as int <= 126);
    }
}

/// A number in decimal is visible ASCII.
proof fn lemma_decimal_visible(n: nat)
    ensures
        is_visible(decimal(n)),
    decreases n,
{
    if n >= 10 {
        lemma_decimal_visible(n / 10);
    }
}

/// Percent encoding gives visible ASCII.
proof fn lemma_percent_encoded_visible(bytes: Seq<u8>)
    ensures
        is_visible(percent_encoded(bytes)),
    decreases bytes.len(),
{
    if bytes.len() > 0 {
        lemma_percent_encoded_visible(bytes.drop_first());
    }
}

/// The address of a proxy can be a header value if its server can.
proof fn lemma_server_address(p: ProxyView)
    requires
        is_header_text(p.server),
    ensures
        is_header_text(server_address(p)),
{
    reveal_strlit(":");
    let port = decimal(p.port as nat);
    lemma_decimal_visible(p.port as nat);
    lemma_visible_text(":"@);
    lemma_visible_text(port);
    lemma_encode_concat(p.server, ":"@);
    lemma_encode_concat(p.server + ":"@, port);
}

/// One more line, behind those that are put together already.
pub open spec fn with_added(
    m: Map<Seq<char>, Seq<Seq<u8>>>,
    line: HeaderView,
) -> Map<Seq<char>, Seq<Seq<u8>>> {
    if m.contains_key(line.name) {
        m.insert(line.name, m[line.name].push(line.value))
    } else {
        m.insert(line.name, seq![line.value])
    }
}

/// A name that no line has gets no values.
proof fn lemma_unnamed_values(lines: Seq<HeaderView>, name: Seq<char>)
    requires
        !names_line(lines, name),
    ensures
        values_of(lines, name) == Seq::<Seq<u8>>::empty(),
    decreases lines.len(),
{
    if lines.len() > 0 {
        let front = lines.drop_last();
        assert(lines[lines.len() - 1].name != name);
        assert(!names_line(front, name)) by {
            if names_line(front, name) {
                let i = choose|i: int| 0 <= i < front.len() && (#[trigger] front[i]).name == name;
                assert(lines[i].name == name);
            }
        }
        lemma_unnamed_values(front, name);
    }
}

/// What one more line does to lines that are put together.
pub(crate) proof fn lemma_grouped_push(lines: Seq<HeaderView>, line: HeaderView)
    ensures
        grouped(lines.push(line)) == with_added(grouped(lines), line),
{
    let longer = lines.push(line);
    assert(longer.drop_last() =~= lines);
    assert forall|name: Seq<char>| names_line(longer, name) == (names_line(lines, name) || name
        == line.name) by {
        if names_line(longer, name) {
            let i = choose|i: int| 0 <= i < longer.len() && (#[trigger] longer[i]).name == name;
            if i < lines.len() {
                assert(lines[i].name == name);
            }
        }
        if names_line(lines, name) {
            let i = choose|i: int| 0 <= i < lines.len() && (#[trigger] lines[i]).name == name;
            assert(longer[i].name == name);
        }
        if name == line.name {
            assert(longer[lines.len() as int].name == name);
        }
    }
    if !names_line(lines, line.name) {
        lemma_unnamed_values(lines, line.name);
        assert(values_of(longer, line.name) =~= seq![line.value]);
    }
    assert(grouped(longer) =~= with_added(grouped(lines), line));
}

/// Lines have finitely many names.
pub(crate) proof fn lemma_grouped_finite(lines: Seq<HeaderView>)
    ensures
        grouped(lines).dom().finite(),
    decreases lines.len(),
{
    if lines.len() == 0 {
        assert(grouped(lines).dom() =~= Set::<Seq<char>>::empty());
    } else {
        lemma_grouped_finite(lines.drop_last());
        lemma_grouped_push(lines.drop_last(), lines.last());
        assert(lines.drop_last().push(lines.last()) =~= lines);
    }
}

/// The first lines have no names but those of all lines.
pub(crate) proof fn lemma_fewer_names(lines: Seq<HeaderView>, k: int)
    requires
        0 <= k <= lines.len(),
    ensures
        grouped(lines.take(k)).dom().subset_of(grouped(lines).dom()),
{
    assert forall|name: Seq<char>| names_line(lines.take(k), name) implies names_line(
        lines,
        name,
    ) by {
        let i = choose|i: int|
            0 <= i < lines.take(k).len() && (#[trigger] lines.take(k)[i]).name == name;
        assert(lines[i].name == name);
    }
}

/// What one more line of a response does to those that are passed on.
proof fn lemma_passed_on_added(m: Map<Seq<char>, Seq<Seq<u8>>>, line: HeaderView)
    ensures
        passed_on(with_added(m, line)) == if is_response_hop_header(line.name) {
            passed_on(m)
        } else {
            with_added(passed_on(m), line)
        },
{
    let after = with_added(m, line);
    if is_response_hop_header(line.name) {
        assert(passed_on(after) =~= passed_on(m));
    } else {
        assert(passed_on(after) =~= with_added(passed_on(m), line));
    }
}

/// Setting lines adds at most one name for each.
proof fn lemma_with_lines_names(m: Map<Seq<char>, Seq<Seq<u8>>>, lines: Seq<HeaderView>)
    requires
        m.dom().finite(),
    ensures
        with_lines(m, lines).dom().finite(),
        with_lines(m, lines).dom().len() <= m.dom().len() + lines.len(),
    decreases lines.len(),
{
    if lines.len() > 0 {
        lemma_with_lines_names(m, lines.drop_last());
    }
}

/// The names of the lines that tell which proxy was used are header names.
proof fn lemma_proxy_header_names()
    ensures
        is_header_name("X-Proxy-Id"@),
        is_header_name("X-Proxy-Name"@),
        is_header_name("X-Proxy-Server"@),
        is_header_name("X-Proxy-IP"@),
        is_header_name("X-Proxy-Country"@),
        is_header_name("X-Proxy-Attempt"@),
{
    reveal_strlit("X-Proxy-Id");
    reveal_strlit("X-Proxy-Name");
    reveal_strlit("X-Proxy-Server");
    reveal_strlit("X-Proxy-IP");
    reveal_strlit("X-Proxy-Country");
    reveal_strlit("X-Proxy-Attempt");
    assert(name_char('-')) by {
        reveal_strlit("!#$%&'*+-.^_`|~");
        assert("!#$%&'*+-.^_`|~"@[8] == '-');
    }
}

/// Passes on the headers of a response, or nothing where the map that takes them is full.
fn forward_response_headers(upstream: &HeaderMap) -> (r: Option<HeaderMap>)
    ensures
        header_contents(*upstream).dom().finite(),
        match r {
            Some(m) => {
                &&& header_contents(m) == passed_on(header_contents(*upstream))
                &&& header_contents(m).dom().finite()
                &&& header_contents(m).dom().len() <= header_contents(*upstream).dom().len()
            },
            None => header_contents(*upstream).dom().len() > HEADER_NAME_LIMIT,
        },
{
    let lines: Vec<(HeaderName, HeaderValue)> = header_lines(upstream);
    let ghost s = line_views(lines@);
    proof {
        lemma_grouped_finite(s);
    }
    let mut out: HeaderMap = new_headers();
    assert(header_contents(out) =~= passed_on(grouped(s.take(0))));
    for line in it: lines
        invariant
            s == line_views(it.seq()),
            header_contents(*upstream) == grouped(s),
            grouped(s).dom().finite(),
            header_contents(out) == passed_on(grouped(s.take(it.index() as int))),
    {
        let ghost k = it.index() as int;
        let (name, value) = line;
        proof {
            assert(s.take(k + 1) =~= s.take(k).push(s[k]));
            lemma_grouped_push(s.take(k), s[k]);
            lemma_passed_on_added(grouped(s.take(k)), s[k]);
            lemma_fewer_names(s, k);
            vstd::set_lib::lemma_len_subset(
                passed_on(grouped(s.take(k))).dom(),
                grouped(s).dom(),
            );
        }
        if !skips_response_header(name_text(&name)) {
            if !headers_append(&mut out, name, value) {
                return None;
            }
        }
    }
    proof {
        assert(s.take(s.len() as int) =~= s);
        assert(passed_on(grouped(s)).dom().subset_of(grouped(s).dom()));
        vstd::set_lib::lemma_len_subset(passed_on(grouped(s)).dom(), grouped(s).dom());
    }
    Some(out)
}

/// Sets one more line, behind the lines `told`. A map that is full refuses.
fn set_line(
    m: &mut HeaderMap,
    name: &str,
    value: HeaderValue,
    Ghost(base): Ghost<Map<Seq<char>, Seq<Seq<u8>>>>,
    Ghost(told): Ghost<Seq<HeaderView>>,
) -> (r: bool)
    requires
        is_header_name(name@),
        header_contents(*old(m)) == with_lines(base, told),
        base.dom().finite(),
    ensures
        r ==> header_contents(*final(m)) == with_lines(
            base,
            told.push(HeaderView { name: name@, value: value_view(value) }),
        ),
        base.dom().len() + told.len() <= HEADER_NAME_LIMIT ==> r,
{
    proof {
        lemma_with_lines_names(base, told);
        let line = HeaderView { name: name@, value: value_view(value) };
        assert(told.push(line).drop_last() =~= told);
    }
    headers_insert(m, header_name(name).unwrap(), value)
}

/// Sets the line for a text that may be absent or no header value. A map that is full refuses.
fn set_optional_line(
    m: &mut HeaderMap,
    name: &str,
    text: &Option<String>,
    Ghost(base): Ghost<Map<Seq<char>, Seq<Seq<u8>>>>,
    Ghost(told): Ghost<Seq<HeaderView>>,
) -> (r: bool)
    requires
        is_header_name(name@),
        header_contents(*old(m)) == with_lines(base, told),
        base.dom().finite(),
    ensures
        r ==> header_contents(*final(m)) == with_lines(
            base,
            told + optional_line(name@, opt_text(*text)),
        ),
        base.dom().len() + told.len() <= HEADER_NAME_LIMIT ==> r,
{
    if let Some(t) = text {
        if let Some(value) = header_value(t.as_str()) {
            assert(told + optional_line(name@, Some(t@)) =~= told.push(text_line(name@, t@)));
            return set_line(m, name, value, Ghost(base), Ghost(told));
        }
    }
    assert(told + optional_line(name@, opt_text(*text)) =~= told);
    true
}

/// Decides [`has_header_texts`].
pub fn proxy_has_header_texts(proxy: &PoolProxy) -> (r: bool)
    ensures
        r == has_header_texts(proxy@),
{
    header_value(proxy.id.as_str()).is_some() && header_value(proxy.server.as_str()).is_some()
}

/// Whether the headers of a response are so few that those that tell which proxy was used fit in
/// beside them, however their names hash.
pub open spec fn has_room(upstream: Map<Seq<char>, Seq<Seq<u8>>>) -> bool {
    upstream.dom().len() + PROXY_HEADER_COUNT <= HEADER_NAME_LIMIT
}

/// The headers of a relayed response: those of the target that are passed on, and those that
/// tell which proxy was used, which take the place of any that the target has set. There are none
/// where the map that takes them is full, which it is not where [`has_room`] holds.
pub fn response_headers(upstream: &HeaderMap, proxy: &PoolProxy, attempt: Option<u32>) -> (r: Option<
    HeaderMap,
>)
    requires
        has_header_texts(proxy@),
    ensures
        match r {
            Some(headers) => header_contents(headers) == with_lines(
                passed_on(header_contents(*upstream)),
                proxy_lines(proxy@, attempt),
            ),
            None => !has_room(header_contents(*upstream)),
        },
{
    let ghost p = proxy@;
    proof {
        lemma_proxy_header_names();
        lemma_percent_encoded_visible(encode_utf8(p.name));
        lemma_visible_text(percent_encoded(encode_utf8(p.name)));
        lemma_server_address(p);
        if let Some(n) = attempt {
            lemma_decimal_visible(n as nat);
            lemma_visible_text(decimal(n as nat));
        }
    }
    let encoded_name: String = percent_encode(proxy.name.as_str());
    let mut address: String = proxy.server.clone();
    address.append(":");
    address.append(decimal_text(proxy.port as u64).as_str());
    let mut out: HeaderMap = match forward_response_headers(upstream) {
        Some(m) => m,
        None => return None,
    };
    let ghost base = header_contents(out);
    let ghost mut told: Seq<HeaderView> = Seq::empty();
    let id: HeaderValue = header_value(proxy.id.as_str()).unwrap();
    if !set_line(&mut out, "X-Proxy-Id", id, Ghost(base), Ghost(told)) {
        return None;
    }
    proof {
        told = told.push(text_line("X-Proxy-Id"@, p.id));
    }
    let name: HeaderValue = header_value(encoded_name.as_str()).unwrap();
    if !set_line(&mut out, "X-Proxy-Name", name, Ghost(base), Ghost(told)) {
        return None;
    }
    proof {
        told = told.push(text_line("X-Proxy-Name"@, percent_encoded(encode_utf8(p.name))));
    }
    let server: HeaderValue = header_value(address.as_str()).unwrap();
    if !set_line(&mut out, "X-Proxy-Server", server, Ghost(base), Ghost(told)) {
        return None;
    }
    proof {
        told = told.push(text_line("X-Proxy-Server"@, server_address(p)));
    }
    if let Some(q) = &proxy.quality {
        if !set_optional_line(&mut out, "X-Proxy-IP", &q.ip_address, Ghost(base), Ghost(told)) {
            return None;
        }
        proof {
            told = told + optional_line("X-Proxy-IP"@, opt_text(q.ip_address));
        }
        if !set_optional_line(&mut out, "X-Proxy-Country", &q.country, Ghost(base), Ghost(told)) {
            return None;
        }
        proof {
            told = told + optional_line("X-Proxy-Country"@, opt_text(q.country));
        }
    }
    if let Some(n) = attempt {
        let value: HeaderValue = header_value(decimal_text(n as u64).as_str()).unwrap();
        if !set_line(&mut out, "X-Proxy-Attempt", value, Ghost(base), Ghost(told)) {
            return None;
        }
        proof {
            told = told.push(text_line("X-Proxy-Attempt"@, decimal(n as nat)));
        }
    }
    assert(told =~= proxy_lines(p, attempt));
    Some(out)
}

/// The headers of a relayed response, or nothing where what tells the proxy is no header text or
/// the map that takes the headers is full.
pub fn checked_response_headers(
    upstream: &HeaderMap,
    proxy: &PoolProxy,
    attempt: Option<u32>,
) -> (r: Option<HeaderMap>)
    ensures
        match r {
            Some(headers) => {
                &&& has_header_texts(proxy@)
                &&& header_contents(headers) == with_lines(
                    passed_on(header_contents(*upstream)),
                    proxy_lines(proxy@, attempt),
                )
            },
            None => !has_header_texts(proxy@) || !has_room(header_contents(*upstream)),
        },
{
    if proxy_has_header_texts(proxy) {
        response_headers(upstream, proxy, attempt)
    } else {
        None
    }
}

/// What headers have under a name after lines are set is the value of the last line of that name,
/// or what they had before.
proof fn lemma_with_lines_at(
    m: Map<Seq<char>, Seq<Seq<u8>>>,
    lines: Seq<HeaderView>,
    name: Seq<char>,
    at: int,
)
    requires
        0 <= at < lines.len(),
        ascii_lower(lines[at].name) == name,
        forall|j: int| at < j < lines.len() ==> ascii_lower((#[trigger] lines[j]).name) != name,
    ensures
        with_lines(m, lines).contains_pair(name, seq![lines[at].value]),
    decreases lines.len(),
{
    if at < lines.len() - 1 {
        assert(ascii_lower(lines[lines.len() - 1].name) != name);
        assert forall|j: int| at < j < lines.drop_last().len() implies ascii_lower(
            (#[trigger] lines.drop_last()[j]).name,
        ) != name by {
            assert(lines.drop_last()[j] == lines[j]);
        }
        lemma_with_lines_at(m, lines.drop_last(), name, at);
    }
}

/// Headers keep what they have under a name that no line has.
proof fn lemma_with_lines_elsewhere(
    m: Map<Seq<char>, Seq<Seq<u8>>>,
    lines: Seq<HeaderView>,
    name: Seq<char>,
)
    requires
        forall|j: int| 0 <= j < lines.len() ==> ascii_lower((#[trigger] lines[j]).name) != name,
    ensures
        with_lines(m, lines).contains_key(name) == m.contains_key(name),
        m.contains_key(name) ==> with_lines(m, lines)[name] == m[name],
    decreases lines.len(),
{
    if lines.len() > 0 {
        assert(ascii_lower(lines[lines.len() - 1].name) != name);
        assert forall|j: int| 0 <= j < lines.drop_last().len() implies ascii_lower(
            (#[trigger] lines.drop_last()[j]).name,
        ) != name by {
            assert(lines.drop_last()[j] == lines[j]);
        }
        lemma_with_lines_elsewhere(m, lines.drop_last(), name);
    }
}

/// The lower case of the names of the lines that tell which proxy was used.
proof fn lemma_proxy_names_lower()
    ensures
        ascii_lower("X-Proxy-Id"@) == "x-proxy-id"@,
        ascii_lower("X-Proxy-Name"@) == "x-proxy-name"@,
        ascii_lower("X-Proxy-Server"@) == "x-proxy-server"@,
        ascii_lower("X-Proxy-IP"@) == "x-proxy-ip"@,
        ascii_lower("X-Proxy-Country"@) == "x-proxy-country"@,
        ascii_lower("X-Proxy-Attempt"@) == "x-proxy-attempt"@,
        "x-proxy-id"@.len() == 10,
        "x-proxy-name"@.len() == 12,
        "x-proxy-server"@.len() == 14,
        "x-proxy-ip"@.len() == 10,
        "x-proxy-country"@.len() == 15,
        "x-proxy-attempt"@.len() == 15,
        "x-proxy-id"@ != "x-proxy-ip"@,
        "x-proxy-country"@ != "x-proxy-attempt"@,
{
    reveal_strlit("X-Proxy-Id");
    reveal_strlit("X-Proxy-Name");
    reveal_strlit("X-Proxy-Server");
    reveal_strlit("X-Proxy-IP");
    reveal_strlit("X-Proxy-Country");
    reveal_strlit("X-Proxy-Attempt");
    reveal_strlit("x-proxy-id");
    reveal_strlit("x-proxy-name");
    reveal_strlit("x-proxy-server");
    reveal_strlit("x-proxy-ip");
    reveal_strlit("x-proxy-country");
    reveal_strlit("x-proxy-attempt");
    assert(ascii_lower("X-Proxy-Id"@) =~= "x-proxy-id"@);
    assert(ascii_lower("X-Proxy-Name"@) =~= "x-proxy-name"@);
    assert(ascii_lower("X-Proxy-Server"@) =~= "x-proxy-server"@);
    assert(ascii_lower("X-Proxy-IP"@) =~= "x-proxy-ip"@);
    assert(ascii_lower("X-Proxy-Country"@) =~= "x-proxy-country"@);
    assert(ascii_lower("X-Proxy-Attempt"@) =~= "x-proxy-attempt"@);
    assert("x-proxy-id"@[9] != "x-proxy-ip"@[9]);
    assert("x-proxy-country"@[8] != "x-proxy-attempt"@[8]);
}

/// A relayed response tells the id, the name and the server of the proxy that was used, whatever
/// the target has set, and the attempt where there is one.
pub proof fn law_response_tells_the_proxy(
    upstream: Map<Seq<char>, Seq<Seq<u8>>>,
    p: ProxyView,
    attempt: Option<u32>,
)
    ensures
        ({
            let told = with_lines(passed_on(upstream), proxy_lines(p, attempt));
            &&& told.contains_pair("x-proxy-id"@, seq![encode_utf8(p.id)])
            &&& told.contains_pair(
                "x-proxy-name"@,
                seq![encode_utf8(percent_encoded(encode_utf8(p.name)))],
            )
            &&& told.contains_pair("x-proxy-server"@, seq![encode_utf8(server_address(p))])
            &&& attempt matches Some(n) ==> told.contains_pair(
                "x-proxy-attempt"@,
                seq![encode_utf8(decimal(n as nat))],
            )
        }),
{
    lemma_proxy_names_lower();
    let lines = proxy_lines(p, attempt);
    let m = passed_on(upstream);
    lemma_with_lines_at(m, lines, "x-proxy-id"@, 0);
    lemma_with_lines_at(m, lines, "x-proxy-name"@, 1);
    lemma_with_lines_at(m, lines, "x-proxy-server"@, 2);
    if attempt is Some {
        lemma_with_lines_at(m, lines, "x-proxy-attempt"@, lines.len() - 1);
    }
}

/// A relayed response tells the outgoing address and the country of the proxy where quality
/// checks have found them and they are header texts.
pub proof fn law_response_tells_quality(
    upstream: Map<Seq<char>, Seq<Seq<u8>>>,
    p: ProxyView,
    attempt: Option<u32>,
)
    ensures
        ({
            let told = with_lines(passed_on(upstream), proxy_lines(p, attempt));
            &&& p.quality matches Some(q) ==> q.ip_address matches Some(ip) ==> is_header_text(ip)
                ==> told.contains_pair("x-proxy-ip"@, seq![encode_utf8(ip)])
            &&& p.quality matches Some(q) ==> q.country matches Some(c) ==> is_header_text(c)
                ==> told.contains_pair("x-proxy-country"@, seq![encode_utf8(c)])
        }),
{
    lemma_proxy_names_lower();
    let lines = proxy_lines(p, attempt);
    let m = passed_on(upstream);
    if let Some(q) = p.quality {
        let ip = optional_line("X-Proxy-IP"@, q.ip_address);
        if ip.len() > 0 {
            lemma_with_lines_at(m, lines, "x-proxy-ip"@, 3);
        }
        if optional_line("X-Proxy-Country"@, q.country).len() > 0 {
            lemma_with_lines_at(m, lines, "x-proxy-country"@, 3 + ip.len() as int);
        }
    }
}

/// The attempt is told only where the proxy was chosen at random: without one, the response has
/// an `x-proxy-attempt` only if the target has set it.
pub proof fn law_no_attempt_told_for_named_proxy(
    upstream: Map<Seq<char>, Seq<Seq<u8>>>,
    p: ProxyView,
)
    ensures
        with_lines(passed_on(upstream), proxy_lines(p, None)).contains_key("x-proxy-attempt"@)
            ==> upstream.contains_key("x-proxy-attempt"@),
{
    lemma_proxy_names_lower();
    lemma_with_lines_elsewhere(passed_on(upstream), proxy_lines(p, None), "x-proxy-attempt"@);
}

/// Whether a name is one of those that tell which proxy was used.
pub open spec fn is_proxy_header(name: Seq<char>) -> bool {
    ||| name == "x-proxy-id"@
    ||| name == "x-proxy-name"@
    ||| name == "x-proxy-server"@
    ||| name == "x-proxy-ip"@
    ||| name == "x-proxy-country"@
    ||| name == "x-proxy-attempt"@
}

/// What the target has set reaches the client, but for what concerns the connection: under any
/// name but those that tell the proxy, the response has every value that the target has set, in
/// the same order.
pub proof fn law_target_headers_reach_the_client(
    upstream: Map<Seq<char>, Seq<Seq<u8>>>,
    p: ProxyView,
    attempt: Option<u32>,
    name: Seq<char>,
)
    requires
        !is_proxy_header(name),
    ensures
        ({
            let told = with_lines(passed_on(upstream), proxy_lines(p, attempt));
            &&& told.contains_key(name) <==> upstream.contains_key(name) && !is_response_hop_header(
                name,
            )
            &&& told.contains_key(name) ==> told[name] == upstream[name]
        }),
{
    lemma_proxy_names_lower();
    lemma_with_lines_elsewhere(passed_on(upstream), proxy_lines(p, attempt), name);
}

/// The name of a proxy in percent encoding can be told apart from that of any other.
pub proof fn law_percent_encoding_is_injective(a: Seq<u8>, b: Seq<u8>)
    requires
        percent_encoded(a) == percent_encoded(b),
    ensures
        a == b,
    decreases a.len(),
{
    let s = percent_encoded(a);
    if a.len() == 0 {
        if b.len() > 0 {
            assert(percent_encoded_byte(b[0]).len() > 0);
        }
        assert(a =~= b);
    } else if b.len() == 0 {
        assert(percent_encoded_byte(a[0]).len() > 0);
    } else {
        let x = percent_encoded_byte(a[0]);
        let y = percent_encoded_byte(b[0]);
        let xs = percent_encoded(a.drop_first());
        let ys = percent_encoded(b.drop_first());
        assert(s == x + xs);
        assert(s == y + ys);
        assert(s[0] == x[0] && s[0] == y[0]);
        if is_alphanumeric(a[0]) {
            assert(x[0] == a[0] as char);
            assert(is_alphanumeric(b[0]));
            assert(y[0] == b[0] as char);
        } else {
            assert(x[0] == '%');
            assert(!is_alphanumeric(b[0]));
            assert(s[1] == x[1] && s[1] == y[1]);
            assert(s[2] == x[2] && s[2] == y[2]);
            lemma_hex_char(a[0] as int / 16, b[0] as int / 16);
            lemma_hex_char(a[0] as int % 16, b[0] as int % 16);
        }
        assert(a[0] == b[0]);
        assert(xs =~= s.skip(x.len() as int));
        assert(ys =~= s.skip(y.len() as int));
        law_percent_encoding_is_injective(a.drop_first(), b.drop_first());
        assert(a =~= seq![a[0]] + a.drop_first());
        assert(b =~= seq![b[0]] + b.drop_first());
    }
}

/// Hexadecimal digits tell numbers apart.
proof fn lemma_hex_char(a: int, b: int)
    requires
        0 <= a < 16,
        0 <= b < 16,
        hex_char(a) == hex_char(b),
    ensures
        a == b,
{
}

} // verus!
