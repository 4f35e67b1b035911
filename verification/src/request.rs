//! The request that is sent to the target.

use crate::clients::{error_text, error_view, share_client};
use crate::headers::{
    grouped, header_contents, header_lines, is_request_hop_header, lemma_fewer_names,
    lemma_grouped_finite, lemma_grouped_push, line_views, name_text, name_view, skips_request_header,
    value_view, with_added, HeaderView, HEADER_NAME_LIMIT,
};
use crate::text::{ascii_lower, same_text, to_upper, unicode_upper, upper_char};
use axum::http::{HeaderMap, HeaderName, HeaderValue};
use vstd::prelude::*;
use vstd::string::*;
use vstd::utf8::is_ascii_chars;

verus! {

/// `reqwest::Request`, a request that is not sent yet.
#[verifier::external_type_specification]
#[verifier::external_body]
pub struct ExRequest(reqwest::Request);

/// `reqwest::RequestBuilder`, a request and the client to send it with.
#[verifier::external_type_specification]
#[verifier::external_body]
pub struct ExRequestBuilder(reqwest::RequestBuilder);

/// The HTTP methods that a request can be relayed with.
#[derive(Debug, Clone, Copy, PartialEq, Eq, Structural)]
pub enum RelayMethod {
    Get,
    Post,
    Put,
    Delete,
    Patch,
    Head,
}

/// What a request is made of.
pub struct RequestView {
    pub method: RelayMethod,
    pub url: Seq<char>,
    /// The headers that were added: under each name its values, in order.
    pub headers: Map<Seq<char>, Seq<Seq<u8>>>,
    pub body: Option<Seq<u8>>,
}

/// What a `reqwest::Request` was given. Where the URL holds a user name or a password, `reqwest`
/// makes an `Authorization` line of them, which stands in front of those that are added and is
/// not among them.
pub uninterp spec fn request_view(req: reqwest::Request) -> RequestView;

/// The client and the request that a `reqwest::RequestBuilder` was put together from.
pub uninterp spec fn prepared_view(b: reqwest::RequestBuilder) -> (reqwest::Client, RequestView);

/// The text of the error with which `reqwest` refuses a URL, or nothing where it takes the URL.
pub uninterp spec fn url_refusal(url: Seq<char>) -> Option<Seq<char>>;

/// A request to which neither headers nor a body were added.
pub open spec fn bare_request(method: RelayMethod, url: Seq<char>) -> RequestView {
    RequestView { method, url, headers: Map::empty(), body: None }
}

/// Calls `reqwest::Client::get` and `reqwest::RequestBuilder::build`: a `GET` request. Whether the URL is refused, and with which
/// text, depends on the URL alone and is named [`url_refusal`].
#[verifier::external_body]
pub(crate) fn get_request(client: &reqwest::Client, url: &str) -> (r: Result<
    reqwest::Request,
    reqwest::Error,
>)
    ensures
        match r {
            Ok(req) => url_refusal(url@) is None && request_view(req) == bare_request(
                RelayMethod::Get,
                url@,
            ),
            Err(e) => url_refusal(url@) == Some(error_view(e)),
        },
{
    client.get(url).build()
}

/// Calls `reqwest::Client::post` and `reqwest::RequestBuilder::build`: a `POST` request.
#[verifier::external_body]
pub(crate) fn post_request(client: &reqwest::Client, url: &str) -> (r: Result<
    reqwest::Request,
    reqwest::Error,
>)
    ensures
        match r {
            Ok(req) => url_refusal(url@) is None && request_view(req) == bare_request(
                RelayMethod::Post,
                url@,
            ),
            Err(e) => url_refusal(url@) == Some(error_view(e)),
        },
{
    client.post(url).build()
}

/// Calls `reqwest::Client::put` and `reqwest::RequestBuilder::build`: a `PUT` request.
#[verifier::external_body]
pub(crate) fn put_request(client: &reqwest::Client, url: &str) -> (r: Result<
    reqwest::Request,
    reqwest::Error,
>)
    ensures
        match r {
            Ok(req) => url_refusal(url@) is None && request_view(req) == bare_request(
                RelayMethod::Put,
                url@,
            ),
            Err(e) => url_refusal(url@) == Some(error_view(e)),
        },
{
    client.put(url).build()
}

/// Calls `reqwest::Client::delete` and `reqwest::RequestBuilder::build`: a `DELETE` request.
#[verifier::external_body]
pub(crate) fn delete_request(client: &reqwest::Client, url: &str) -> (r: Result<
    reqwest::Request,
    reqwest::Error,
>)
    ensures
        match r {
            Ok(req) => url_refusal(url@) is None && request_view(req) == bare_request(
                RelayMethod::Delete,
                url@,
            ),
            Err(e) => url_refusal(url@) == Some(error_view(e)),
        },
{
    client.delete(url).build()
}

/// Calls `reqwest::Client::patch` and `reqwest::RequestBuilder::build`: a `PATCH` request.
#[verifier::external_body]
pub(crate) fn patch_request(client: &reqwest::Client, url: &str) -> (r: Result<
    reqwest::Request,
    reqwest::Error,
>)
    ensures
        match r {
            Ok(req) => url_refusal(url@) is None && request_view(req) == bare_request(
                RelayMethod::Patch,
                url@,
            ),
            Err(e) => url_refusal(url@) == Some(error_view(e)),
        },
{
    client.patch(url).build()
}

/// Calls `reqwest::Client::head` and `reqwest::RequestBuilder::build`: a `HEAD` request.
#[verifier::external_body]
pub(crate) fn head_request(client: &reqwest::Client, url: &str) -> (r: Result<
    reqwest::Request,
    reqwest::Error,
>)
    ensures
        match r {
            Ok(req) => url_refusal(url@) is None && request_view(req) == bare_request(
                RelayMethod::Head,
                url@,
            ),
            Err(e) => url_refusal(url@) == Some(error_view(e)),
        },
{
    client.head(url).build()
}

/// Calls `HeaderMap::try_append` on what `reqwest::Request::headers_mut` gives: one more header
/// line, behind those that the name has already. Headers that are full refuse, and the request
/// stays as it is; they never are where they, with the line that the URL may have given, have up
/// to [`HEADER_NAME_LIMIT`] names.
#[verifier::external_body]
pub(crate) fn add_header(req: &mut reqwest::Request, name: HeaderName, value: HeaderValue) -> (r:
    bool)
    ensures
        r ==> request_view(*final(req)) == (RequestView {
            headers: with_added(
                request_view(*old(req)).headers,
                (HeaderView { name: name_view(name), value: value_view(value) }),
            ),
            ..request_view(*old(req))
        }),
        !r ==> request_view(*final(req)) == request_view(*old(req)),
        request_view(*old(req)).headers.dom().len() < HEADER_NAME_LIMIT ==> r,
{
    req.headers_mut().try_append(name, value).is_ok()
}

/// Assigns to what `reqwest::Request::body_mut` gives: the request then has these bytes as its
/// body.
#[verifier::external_body]
pub(crate) fn set_body(req: &mut reqwest::Request, body: Vec<u8>)
    ensures
        request_view(*final(req)) == (RequestView { body: Some(body@), ..request_view(*old(req)) }),
{
    *req.body_mut() = Some(reqwest::Body::from(body));
}

/// Calls `reqwest::RequestBuilder::from_parts`: the request, to be sent with the client.
#[verifier::external_body]
pub(crate) fn prepare(client: reqwest::Client, req: reqwest::Request) -> (r:
    reqwest::RequestBuilder)
    ensures
        prepared_view(r) == (client, request_view(req)),
{
    reqwest::RequestBuilder::from_parts(client, req)
}

/// Why a request cannot be sent.
#[derive(Debug)]
pub enum RequestError {
    /// The URL is refused; this is what is said of it.
    Refused(String),
    /// The headers do not all fit into the request.
    TooManyHeaders,
}

/// The request that was started, or what is said of its URL.
pub fn request_or_error(started: Result<reqwest::Request, reqwest::Error>) -> (r: Result<
    reqwest::Request,
    RequestError,
>)
    ensures
        match started {
            Ok(req) => r == Ok::<reqwest::Request, RequestError>(req),
            Err(e) => r matches Err(RequestError::Refused(cause)) && cause@ == error_view(e),
        },
{
    match started {
        Ok(req) => Ok(req),
        Err(e) => Err(RequestError::Refused(error_text(&e))),
    }
}

/// The method with a name in upper case. Any other name stands for `GET`.
pub open spec fn method_named(upper: Seq<char>) -> RelayMethod {
    if upper == "POST"@ {
        RelayMethod::Post
    } else if upper == "PUT"@ {
        RelayMethod::Put
    } else if upper == "DELETE"@ {
        RelayMethod::Delete
    } else if upper == "PATCH"@ {
        RelayMethod::Patch
    } else if upper == "HEAD"@ {
        RelayMethod::Head
    } else {
        RelayMethod::Get
    }
}

/// Reads a method's name in upper case.
pub fn method_from_upper(upper: &str) -> (r: RelayMethod)
    ensures
        r == method_named(upper@),
{
    if same_text(upper, "POST") {
        RelayMethod::Post
    } else if same_text(upper, "PUT") {
        RelayMethod::Put
    } else if same_text(upper, "DELETE") {
        RelayMethod::Delete
    } else if same_text(upper, "PATCH") {
        RelayMethod::Patch
    } else if same_text(upper, "HEAD") {
        RelayMethod::Head
    } else {
        RelayMethod::Get
    }
}

/// Reads a method's name in any case.
pub fn parse_method(method: &str) -> (r: RelayMethod)
    ensures
        r == method_named(unicode_upper(method@)),
        is_ascii_chars(method@) ==> r == method_named(method@.map_values(|c: char| upper_char(c))),
{
    method_from_upper(to_upper(method).as_str())
}

/// Starts a request.
fn start_request(client: &reqwest::Client, method: RelayMethod, url: &str) -> (r: Result<
    reqwest::Request,
    reqwest::Error,
>)
    ensures
        match r {
            Ok(req) => url_refusal(url@) is None && request_view(req) == bare_request(method, url@),
            Err(e) => url_refusal(url@) == Some(error_view(e)),
        },
{
    match method {
        RelayMethod::Get => get_request(client, url),
        RelayMethod::Post => post_request(client, url),
        RelayMethod::Put => put_request(client, url),
        RelayMethod::Delete => delete_request(client, url),
        RelayMethod::Patch => patch_request(client, url),
        RelayMethod::Head => head_request(client, url),
    }
}

/// The headers of a request that are passed on, each with all its values: all but those that
/// concern the connection, and the host.
pub open spec fn sent_on(m: Map<Seq<char>, Seq<Seq<u8>>>) -> Map<Seq<char>, Seq<Seq<u8>>> {
    Map::new(
        |name: Seq<char>| m.contains_key(name) && !is_request_hop_header(name),
        |name: Seq<char>| m[name],
    )
}

/// The request to a target: the method that the client names, its headers but for those of the
/// connection, and its body if it is not empty.
pub open spec fn relayed_request(
    method: RelayMethod,
    url: Seq<char>,
    headers: Map<Seq<char>, Seq<Seq<u8>>>,
    body: Seq<u8>,
) -> RequestView {
    RequestView {
        method,
        url,
        headers: sent_on(headers),
        body: if body.len() == 0 {
            None
        } else {
            Some(body)
        },
    }
}

/// What one more line of a request does to those that are passed on.
proof fn lemma_sent_on_added(m: Map<Seq<char>, Seq<Seq<u8>>>, line: HeaderView)
    ensures
        sent_on(with_added(m, line)) == if is_request_hop_header(line.name) {
            sent_on(m)
        } else {
            with_added(sent_on(m), line)
        },
{
    let after = with_added(m, line);
    if is_request_hop_header(line.name) {
        assert(sent_on(after) =~= sent_on(m));
    } else {
        assert(sent_on(after) =~= with_added(sent_on(m), line));
    }
}

/// Whether `r` is the request to a target, to be sent with the client. There is none where the
/// URL is refused, or where the headers do not fit, which they do where they have fewer names than
/// [`HEADER_NAME_LIMIT`].
pub open spec fn is_relayed(
    r: Result<reqwest::RequestBuilder, RequestError>,
    client: reqwest::Client,
    method: RelayMethod,
    url: Seq<char>,
    headers: Map<Seq<char>, Seq<Seq<u8>>>,
    body: Seq<u8>,
) -> bool {
    match url_refusal(url) {
        Some(refusal) => r matches Err(RequestError::Refused(cause)) && cause@ == refusal,
        None => match r {
            Ok(b) => prepared_view(b) == (client, relayed_request(method, url, headers, body)),
            Err(e) => e is TooManyHeaders && headers.dom().len() >= HEADER_NAME_LIMIT,
        },
    }
}

/// Makes the request to a target, with the method read already.
pub fn relay_with_method(
    client: &reqwest::Client,
    target_url: &str,
    method: RelayMethod,
    user_headers: &HeaderMap,
    body: &[u8],
) -> (r: Result<reqwest::RequestBuilder, RequestError>)
    ensures
        is_relayed(
            r,
            *client,
            method,
            target_url@,
            header_contents(*user_headers),
            body@,
        ),
{
    let mut req: reqwest::Request = match request_or_error(
        start_request(client, method, target_url),
    ) {
        Ok(req) => req,
        Err(e) => return Err(e),
    };
    let lines: Vec<(HeaderName, HeaderValue)> = header_lines(user_headers);
    let ghost s = line_views(lines@);
    proof {
        lemma_grouped_finite(s);
    }
    let ghost start = request_view(req);
    assert(start.headers =~= sent_on(grouped(s.take(0))));
    for line in it: lines
        invariant
            s == line_views(it.seq()),
            header_contents(*user_headers) == grouped(s),
            grouped(s).dom().finite(),
            url_refusal(target_url@) is None,
            request_view(req) == (RequestView {
                headers: sent_on(grouped(s.take(it.index() as int))),
                ..start
            }),
    {
        let ghost k = it.index() as int;
        let (name, value) = line;
        proof {
            assert(s.take(k + 1) =~= s.take(k).push(s[k]));
            lemma_grouped_push(s.take(k), s[k]);
            lemma_sent_on_added(grouped(s.take(k)), s[k]);
            lemma_fewer_names(s, k);
            vstd::set_lib::lemma_len_subset(sent_on(grouped(s.take(k))).dom(), grouped(s).dom());
        }
        if !skips_request_header(name_text(&name)) {
            if !add_header(&mut req, name, value) {
                return Err(RequestError::TooManyHeaders);
            }
        }
    }
    assert(s.take(s.len() as int) =~= s);
    if body.len() > 0 {
        let bytes: Vec<u8> = vstd::slice::slice_to_vec(body);
        assert(bytes@ =~= body@);
        set_body(&mut req, bytes);
    }
    Ok(prepare(share_client(client), req))
}

/// Makes the request to a target.
pub fn do_relay(
    client: &reqwest::Client,
    target_url: &str,
    method: &str,
    user_headers: &HeaderMap,
    body: &[u8],
) -> (r: Result<reqwest::RequestBuilder, RequestError>)
    ensures
        is_relayed(
            r,
            *client,
            method_named(unicode_upper(method@)),
            target_url@,
            header_contents(*user_headers),
            body@,
        ),
        is_ascii_chars(method@) ==> is_relayed(
            r,
            *client,
            method_named(method@.map_values(|c: char| upper_char(c))),
            target_url@,
            header_contents(*user_headers),
            body@,
        ),
{
    relay_with_method(client, target_url, parse_method(method), user_headers, body)
}

/// The headers by which a client shows itself to the target are sent on as they are, each with
/// all its values.
pub proof fn law_credentials_are_sent_on(m: Map<Seq<char>, Seq<Seq<u8>>>)
    ensures
        sent_on(m).contains_key("authorization"@) == m.contains_key("authorization"@),
        m.contains_key("authorization"@) ==> sent_on(m)["authorization"@] == m["authorization"@],
        sent_on(m).contains_key("cookie"@) == m.contains_key("cookie"@),
        m.contains_key("cookie"@) ==> sent_on(m)["cookie"@] == m["cookie"@],
{
    reveal_strlit("authorization");
    reveal_strlit("cookie");
    reveal_strlit("host");
    reveal_strlit("connection");
    reveal_strlit("transfer-encoding");
    assert(ascii_lower("authorization"@).len() == 13);
    assert(ascii_lower("cookie"@).len() == 6);
    assert("host"@.len() == 4 && "connection"@.len() == 10 && "transfer-encoding"@.len() == 17);
}

/// Every header but the host and those of the connection is sent on as it is, and those are not.
pub proof fn law_headers_are_sent_on(m: Map<Seq<char>, Seq<Seq<u8>>>, name: Seq<char>)
    ensures
        is_request_hop_header(name) ==> !sent_on(m).contains_key(name),
        !is_request_hop_header(name) ==> sent_on(m).contains_key(name) == m.contains_key(name),
        !is_request_hop_header(name) && m.contains_key(name) ==> sent_on(m)[name] == m[name],
{
}

} // verus!
