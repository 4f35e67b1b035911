//! What reaches the target, and what comes back.

use crate::headers::{
    has_header_texts, has_room, is_header_text, optional_line, passed_on, percent_encoded, proxy_lines, with_lines,
    HeaderView,
};
use crate::laws::values::{law_small_letters_stay, law_upper_case_is_case_alone, same_but_for_case};
use crate::proxy::ProxyView;
use crate::request::{is_relayed, method_named, prepared_view, url_refusal, RelayMethod, RequestError};
use crate::text::{ascii_lower, decimal, upper_char};
use vstd::prelude::*;
use vstd::string::*;
use vstd::utf8::encode_utf8;

verus! {

/// Whether a name is in lower case, as all names of headers are that a request or a response has.
pub open spec fn in_lower_case(name: Seq<char>) -> bool {
    forall|i: int| 0 <= i < name.len() ==> !('A' <= #[trigger] name[i] && name[i] <= 'Z')
}

/// A relayed request has every header of the client, with all its values in order, but for `host`,
/// `connection` and `transfer-encoding`, and no other header is added.
pub proof fn law_request_holds_back_three_headers(
    b: reqwest::RequestBuilder,
    client: reqwest::Client,
    method: RelayMethod,
    url: Seq<char>,
    headers: Map<Seq<char>, Seq<Seq<u8>>>,
    body: Seq<u8>,
    name: Seq<char>,
)
    requires
        is_relayed(Ok(b), client, method, url, headers, body),
        in_lower_case(name),
    ensures
        ({
            let sent = prepared_view(b).1.headers;
            &&& name != "host"@ && name != "connection"@ && name != "transfer-encoding"@ ==> {
                &&& sent.contains_key(name) == headers.contains_key(name)
                &&& headers.contains_key(name) ==> sent[name] == headers[name]
            }
            &&& name == "host"@ || name == "connection"@ || name == "transfer-encoding"@
                ==> !sent.contains_key(name)
        }),
{
    law_small_letters_stay(name);
}

/// A relayed request goes to the URL that was asked for, with the method and the client that it was
/// made with, and with the client's body, if that has any bytes.
pub proof fn law_request_is_what_the_client_asks(
    b: reqwest::RequestBuilder,
    client: reqwest::Client,
    method: RelayMethod,
    url: Seq<char>,
    headers: Map<Seq<char>, Seq<Seq<u8>>>,
    body: Seq<u8>,
)
    requires
        is_relayed(Ok(b), client, method, url, headers, body),
    ensures
        prepared_view(b).0 == client,
        prepared_view(b).1.url == url,
        prepared_view(b).1.method == method,
        body.len() > 0 ==> prepared_view(b).1.body == Some(body),
        body.len() == 0 ==> prepared_view(b).1.body is None,
{
}

/// A URL that is not refused makes a request where the client has at most 6552 headers, and one
/// that is refused makes none and is told why.
pub proof fn law_request_is_made_where_it_can_be(
    r: Result<reqwest::RequestBuilder, RequestError>,
    client: reqwest::Client,
    method: RelayMethod,
    url: Seq<char>,
    headers: Map<Seq<char>, Seq<Seq<u8>>>,
    body: Seq<u8>,
)
    requires
        is_relayed(r, client, method, url, headers, body),
    ensures
        url_refusal(url) is None && headers.dom().len() <= 6552 ==> r is Ok,
        url_refusal(url) matches Some(why) ==> (r matches Err(RequestError::Refused(cause)) && cause@
            == why),
{
}

/// The methods of ASCII texts: each of `POST`, `PUT`, `DELETE`, `PATCH` and `HEAD` is meant by its
/// name in any case, and `GET` by everything else.
pub proof fn law_methods_are_meant_by_their_names(name: Seq<char>)
    ensures
        ({
            let method = method_named(name.map_values(|c: char| upper_char(c)));
            &&& method == RelayMethod::Post <==> same_but_for_case(name, "POST"@)
            &&& method == RelayMethod::Put <==> same_but_for_case(name, "PUT"@)
            &&& method == RelayMethod::Delete <==> same_but_for_case(name, "DELETE"@)
            &&& method == RelayMethod::Patch <==> same_but_for_case(name, "PATCH"@)
            &&& method == RelayMethod::Head <==> same_but_for_case(name, "HEAD"@)
        }),
{
    reveal_strlit("POST");
    reveal_strlit("PUT");
    reveal_strlit("DELETE");
    reveal_strlit("PATCH");
    reveal_strlit("HEAD");
    law_upper_case_is_case_alone(name, "POST"@);
    law_upper_case_is_case_alone(name, "PUT"@);
    law_upper_case_is_case_alone(name, "DELETE"@);
    law_upper_case_is_case_alone(name, "PATCH"@);
    law_upper_case_is_case_alone(name, "HEAD"@);
    assert("POST"@.len() == 4 && "PUT"@.len() == 3 && "DELETE"@.len() == 6 && "PATCH"@.len() == 5
        && "HEAD"@.len() == 4);
    assert("POST"@[0] != "HEAD"@[0]);
}

/// Names in upper case mean their methods, whatever they are the upper case of, and any other name
/// means `GET`.
pub proof fn law_other_methods_are_get(upper: Seq<char>)
    ensures
        method_named("POST"@) == RelayMethod::Post,
        method_named("PUT"@) == RelayMethod::Put,
        method_named("DELETE"@) == RelayMethod::Delete,
        method_named("PATCH"@) == RelayMethod::Patch,
        method_named("HEAD"@) == RelayMethod::Head,
        upper != "POST"@ && upper != "PUT"@ && upper != "DELETE"@ && upper != "PATCH"@ && upper
            != "HEAD"@ ==> method_named(upper) == RelayMethod::Get,
{
    reveal_strlit("POST");
    reveal_strlit("PUT");
    reveal_strlit("DELETE");
    reveal_strlit("PATCH");
    reveal_strlit("HEAD");
    assert("POST"@.len() == 4 && "PUT"@.len() == 3 && "DELETE"@.len() == 6 && "PATCH"@.len() == 5
        && "HEAD"@.len() == 4);
    assert("POST"@[0] != "HEAD"@[0]);
}

/// Whether a name is one of the eight that concern the connection to the target.
pub open spec fn concerns_the_connection(name: Seq<char>) -> bool {
    ||| name == "connection"@
    ||| name == "transfer-encoding"@
    ||| name == "keep-alive"@
    ||| name == "proxy-authenticate"@
    ||| name == "proxy-authorization"@
    ||| name == "te"@
    ||| name == "trailer"@
    ||| name == "upgrade"@
}

/// Whether a name is one of the six that tell of the proxy.
pub open spec fn tells_of_the_proxy(name: Seq<char>) -> bool {
    ||| name == "x-proxy-id"@
    ||| name == "x-proxy-name"@
    ||| name == "x-proxy-server"@
    ||| name == "x-proxy-ip"@
    ||| name == "x-proxy-country"@
    ||| name == "x-proxy-attempt"@
}

/// The lower case of the names that tell of the proxy.
proof fn lemma_names()
    ensures
        ascii_lower("X-Proxy-Id"@) == "x-proxy-id"@,
        ascii_lower("X-Proxy-Name"@) == "x-proxy-name"@,
        ascii_lower("X-Proxy-Server"@) == "x-proxy-server"@,
        ascii_lower("X-Proxy-IP"@) == "x-proxy-ip"@,
        ascii_lower("X-Proxy-Country"@) == "x-proxy-country"@,
        ascii_lower("X-Proxy-Attempt"@) == "x-proxy-attempt"@,
        "x-proxy-id"@ != "x-proxy-ip"@,
        "x-proxy-country"@ != "x-proxy-attempt"@,
        "x-proxy-id"@.len() == 10,
        "x-proxy-name"@.len() == 12,
        "x-proxy-server"@.len() == 14,
        "x-proxy-ip"@.len() == 10,
        "x-proxy-country"@.len() == 15,
        "x-proxy-attempt"@.len() == 15,
{
    reveal_strlit("X-Proxy-Id");
    reveal_strlit("X-Proxy-Name");
    reveal_strlit("X-Proxy-Server");
    reveal_strlit("X-Proxy-IP");
    reveal_strlit("X-Proxy-Country");
    reveal_strlit("X-Proxy-Attempt");
    reveal_strlit("x-proxy-id");
    reveal_strlit("x-proxy-name");
    reveal_strlit("x-proxy-server");
    reveal_strlit("x-proxy-ip");
    reveal_strlit("x-proxy-country");
    reveal_strlit("x-proxy-attempt");
    assert(ascii_lower("X-Proxy-Id"@) =~= "x-proxy-id"@);
    assert(ascii_lower("X-Proxy-Name"@) =~= "x-proxy-name"@);
    assert(ascii_lower("X-Proxy-Server"@) =~= "x-proxy-server"@);
    assert(ascii_lower("X-Proxy-IP"@) =~= "x-proxy-ip"@);
    assert(ascii_lower("X-Proxy-Country"@) =~= "x-proxy-country"@);
    assert(ascii_lower("X-Proxy-Attempt"@) =~= "x-proxy-attempt"@);
    assert("x-proxy-id"@[9] != "x-proxy-ip"@[9]);
    assert("x-proxy-country"@[8] != "x-proxy-attempt"@[8]);
}

proof fn lemma_elsewhere(
    m: Map<Seq<char>, Seq<Seq<u8>>>,
    lines: Seq<HeaderView>,
    name: Seq<char>,
)
    requires
        forall|j: int| 0 <= j < lines.len() ==> ascii_lower((#[trigger] lines[j]).name) != name,
    ensures
        with_lines(m, lines).contains_key(name) == m.contains_key(name),
        m.contains_key(name) ==> with_lines(m, lines)[name] == m[name],
    decreases lines.len(),
{
    if lines.len() > 0 {
        assert(ascii_lower(lines[lines.len() - 1].name) != name);
        assert forall|j: int| 0 <= j < lines.drop_last().len() implies ascii_lower(
            (#[trigger] lines.drop_last()[j]).name,
        ) != name by {
            assert(lines.drop_last()[j] == lines[j]);
        }
        lemma_elsewhere(m, lines.drop_last(), name);
    }
}

proof fn lemma_at(
    m: Map<Seq<char>, Seq<Seq<u8>>>,
    lines: Seq<HeaderView>,
    name: Seq<char>,
    at: int,
)
    requires
        0 <= at < lines.len(),
        ascii_lower(lines[at].name) == name,
        forall|j: int| at < j < lines.len() ==> ascii_lower((#[trigger] lines[j]).name) != name,
    ensures
        with_lines(m, lines).contains_pair(name, seq![lines[at].value]),
    decreases lines.len(),
{
    if at < lines.len() - 1 {
        assert(ascii_lower(lines[lines.len() - 1].name) != name);
        assert forall|j: int| at < j < lines.drop_last().len() implies ascii_lower(
            (#[trigger] lines.drop_last()[j]).name,
        ) != name by {
            assert(lines.drop_last()[j] == lines[j]);
        }
        lemma_at(m, lines.drop_last(), name, at);
    }
}

/// A relayed response has every header of the target's, with all its values in order, but for the
/// eight that concern the connection, and no header is added but those that tell of the proxy.
pub proof fn law_response_holds_back_eight_headers(
    upstream: Map<Seq<char>, Seq<Seq<u8>>>,
    p: ProxyView,
    attempt: Option<u32>,
    name: Seq<char>,
)
    requires
        in_lower_case(name),
        !tells_of_the_proxy(name),
    ensures
        ({
            let told = with_lines(passed_on(upstream), proxy_lines(p, attempt));
            &&& concerns_the_connection(name) ==> !told.contains_key(name)
            &&& !concerns_the_connection(name) ==> told.contains_key(name) == upstream.contains_key(
                name,
            )
            &&& !concerns_the_connection(name) && upstream.contains_key(name) ==> told[name]
                == upstream[name]
        }),
{
    lemma_names();
    law_small_letters_stay(name);
    lemma_elsewhere(passed_on(upstream), proxy_lines(p, attempt), name);
}

/// A relayed response tells the id, the percent-encoded name and the server with its port of the
/// proxy, each as the one value of its name; the attempt where there is one; and the outgoing
/// address and the country where a quality check has found them and they can stand in a header.
/// Where one of the last three is not told, the target's own header of that name is left.
pub proof fn law_response_tells_all_of_the_proxy(
    upstream: Map<Seq<char>, Seq<Seq<u8>>>,
    p: ProxyView,
    attempt: Option<u32>,
)
    ensures
        ({
            let told = with_lines(passed_on(upstream), proxy_lines(p, attempt));
            &&& told.contains_pair("x-proxy-id"@, seq![encode_utf8(p.id)])
            &&& told.contains_pair(
                "x-proxy-name"@,
                seq![encode_utf8(percent_encoded(encode_utf8(p.name)))],
            )
            &&& told.contains_pair(
                "x-proxy-server"@,
                seq![encode_utf8(p.server + ":"@ + decimal(p.port as nat))],
            )
            &&& attempt matches Some(n) ==> told.contains_pair(
                "x-proxy-attempt"@,
                seq![encode_utf8(decimal(n as nat))],
            )
            &&& attempt is None ==> told.contains_key("x-proxy-attempt"@) == upstream.contains_key(
                "x-proxy-attempt"@,
            )
            &&& p.quality is Some && p.quality->0.ip_address is Some && is_header_text(
                p.quality->0.ip_address->0,
            ) ==> told.contains_pair(
                "x-proxy-ip"@,
                seq![encode_utf8(p.quality->0.ip_address->0)],
            )
            &&& !(p.quality is Some && p.quality->0.ip_address is Some && is_header_text(
                p.quality->0.ip_address->0,
            )) ==> told.contains_key("x-proxy-ip"@) == upstream.contains_key("x-proxy-ip"@)
            &&& p.quality is Some && p.quality->0.country is Some && is_header_text(
                p.quality->0.country->0,
            ) ==> told.contains_pair(
                "x-proxy-country"@,
                seq![encode_utf8(p.quality->0.country->0)],
            )
            &&& !(p.quality is Some && p.quality->0.country is Some && is_header_text(
                p.quality->0.country->0,
            )) ==> told.contains_key("x-proxy-country"@) == upstream.contains_key(
                "x-proxy-country"@,
            )
        }),
{
    lemma_names();
    let m = passed_on(upstream);
    let lines = proxy_lines(p, attempt);
    let ip = optional_line(
        "X-Proxy-IP"@,
        if p.quality is Some {
            p.quality->0.ip_address
        } else {
            None
        },
    );
    let country = optional_line(
        "X-Proxy-Country"@,
        if p.quality is Some {
            p.quality->0.country
        } else {
            None
        },
    );
    lemma_at(m, lines, "x-proxy-id"@, 0);
    lemma_at(m, lines, "x-proxy-name"@, 1);
    lemma_at(m, lines, "x-proxy-server"@, 2);
    if attempt is Some {
        lemma_at(m, lines, "x-proxy-attempt"@, lines.len() - 1);
    } else {
        lemma_elsewhere(m, lines, "x-proxy-attempt"@);
    }
    if ip.len() > 0 {
        lemma_at(m, lines, "x-proxy-ip"@, 3);
    } else {
        lemma_elsewhere(m, lines, "x-proxy-ip"@);
    }
    if country.len() > 0 {
        lemma_at(m, lines, "x-proxy-country"@, 3 + ip.len() as int);
    } else {
        lemma_elsewhere(m, lines, "x-proxy-country"@);
    }
    lemma_proxy_names_pass();
}

/// The names that tell of the proxy do not concern the connection.
proof fn lemma_proxy_names_pass()
    ensures
        !crate::headers::is_response_hop_header("x-proxy-attempt"@),
        !crate::headers::is_response_hop_header("x-proxy-ip"@),
        !crate::headers::is_response_hop_header("x-proxy-country"@),
{
    reveal_strlit("x-proxy-attempt");
    reveal_strlit("x-proxy-ip");
    reveal_strlit("x-proxy-country");
    reveal_strlit("connection");
    reveal_strlit("transfer-encoding");
    reveal_strlit("keep-alive");
    reveal_strlit("proxy-authenticate");
    reveal_strlit("proxy-authorization");
    reveal_strlit("te");
    reveal_strlit("trailer");
    reveal_strlit("upgrade");
    assert(ascii_lower("x-proxy-attempt"@)[0] == 'x');
    assert(ascii_lower("x-proxy-ip"@)[0] == 'x');
    assert(ascii_lower("x-proxy-country"@)[0] == 'x');
    assert("connection"@[0] == 'c' && "transfer-encoding"@[0] == 't' && "keep-alive"@[0] == 'k'
        && "proxy-authenticate"@[0] == 'p' && "proxy-authorization"@[0] == 'p' && "te"@[0] == 't'
        && "trailer"@[0] == 't' && "upgrade"@[0] == 'u');
}

/// Headers of up to 6547 names leave room for those that tell of the proxy.
pub proof fn law_six_headers_fit_in(upstream: Map<Seq<char>, Seq<Seq<u8>>>)
    ensures
        has_room(upstream) <==> upstream.dom().len() <= 6547,
{
}

/// A proxy can be told of exactly where its id and its server can stand in a header.
pub proof fn law_proxy_is_told_by_id_and_server(p: ProxyView)
    ensures
        has_header_texts(p) <==> is_header_text(p.id) && is_header_text(p.server),
{
}

} // verus!
