//! The HTTP clients that requests are relayed with, one for each local port.

use crate::error::{AppError, ErrorView};
use crate::text::{decimal, decimal_text, law_decimal_is_injective};
use dashmap::DashMap;
use vstd::prelude::*;
use vstd::string::*;

verus! {

/// How long a relayed request may take, in seconds.
pub const CLIENT_TIMEOUT_SECS: u64 = 30;

/// How many idle connections a client keeps for each host.
pub const CLIENT_MAX_IDLE_PER_HOST: usize = 10;

/// `reqwest::Client`, an HTTP client.
#[verifier::external_type_specification]
#[verifier::external_body]
pub struct ExClient(reqwest::Client);

/// `reqwest::Proxy`, the proxy that a client sends through.
#[verifier::external_type_specification]
#[verifier::external_body]
pub struct ExProxy(reqwest::Proxy);

/// `reqwest::Error`.
#[verifier::external_type_specification]
#[verifier::external_body]
pub struct ExError(reqwest::Error);

/// What a client was made with.
pub struct ClientView {
    /// The URL of the only proxy that it sends through.
    pub proxy: Seq<char>,
    pub timeout_secs: u64,
    pub max_idle_per_host: usize,
    pub accepts_invalid_certs: bool,
}

/// The URL that a `reqwest::Proxy` was made with.
pub uninterp spec fn proxy_url(p: reqwest::Proxy) -> Seq<char>;

/// What a `reqwest::Client` was made with.
pub uninterp spec fn client_view(c: reqwest::Client) -> ClientView;

/// The text that a `reqwest::Error` displays.
pub uninterp spec fn error_view(e: reqwest::Error) -> Seq<char>;

/// What a map of clients holds: under each port a client.
pub uninterp spec fn client_contents(m: DashMap<u16, reqwest::Client>) -> Map<u16, reqwest::Client>;

/// The text of the error with which `reqwest::Proxy::all` refuses a URL, or nothing where it
/// takes the URL.
pub uninterp spec fn proxy_refusal(url: Seq<char>) -> Option<Seq<char>>;

/// Calls `reqwest::Proxy::all`: a proxy for all traffic, at the URL. Whether the URL is refused,
/// and with which text, depends on the URL alone and is named [`proxy_refusal`].
#[verifier::external_body]
pub(crate) fn proxy_at(url: &str) -> (r: Result<reqwest::Proxy, reqwest::Error>)
    ensures
        match r {
            Ok(p) => proxy_refusal(url@) is None && proxy_url(p) == url@,
            Err(e) => proxy_refusal(url@) == Some(error_view(e)),
        },
{
    reqwest::Proxy::all(url)
}

/// Calls `reqwest::ClientBuilder::build` on a builder that has been given the one proxy and these
/// settings. Whether a client can be built depends on the machine and is left open.
#[verifier::external_body]
pub(crate) fn build_client(
    proxy: reqwest::Proxy,
    timeout_secs: u64,
    max_idle_per_host: usize,
    accept_invalid_certs: bool,
) -> (r: Result<reqwest::Client, reqwest::Error>)
    ensures
        r matches Ok(c) ==> client_view(c) == (ClientView {
            proxy: proxy_url(proxy),
            timeout_secs,
            max_idle_per_host,
            accepts_invalid_certs: accept_invalid_certs,
        }),
{
    reqwest::Client::builder()
        .no_proxy()
        .proxy(proxy)
        .timeout(std::time::Duration::from_secs(timeout_secs))
        .danger_accept_invalid_certs(accept_invalid_certs)
        .pool_max_idle_per_host(max_idle_per_host)
        .build()
}

/// Calls `ToString::to_string` on a `reqwest::Error`: the text that it displays.
#[verifier::external_body]
pub(crate) fn error_text(e: &reqwest::Error) -> (r: String)
    ensures
        r@ == error_view(*e),
{
    e.to_string()
}

/// Calls `reqwest::Client::clone`, which hands out the same client once more.
#[verifier::external_body]
pub(crate) fn share_client(c: &reqwest::Client) -> (r: reqwest::Client)
    ensures
        r == *c,
{
    c.clone()
}

/// Calls `DashMap::new`, which makes an empty map.
#[verifier::external_body]
pub(crate) fn new_clients() -> (r: DashMap<u16, reqwest::Client>)
    ensures
        client_contents(r).dom() == Set::<u16>::empty(),
{
    DashMap::new()
}

/// Calls `DashMap::get` and hands out the client that the port holds.
#[verifier::external_body]
pub(crate) fn clients_get(m: &DashMap<u16, reqwest::Client>, port: u16) -> (r: Option<
    reqwest::Client,
>)
    ensures
        match r {
            Some(c) => client_contents(*m).contains_pair(port, c),
            None => !client_contents(*m).contains_key(port),
        },
{
    m.get(&port).map(|entry| entry.value().clone())
}

/// Calls `DashMap::insert`: the port then holds the client, whatever it held before.
#[verifier::external_body]
pub(crate) fn clients_insert(
    m: &mut DashMap<u16, reqwest::Client>,
    port: u16,
    client: reqwest::Client,
)
    ensures
        client_contents(*final(m)) == client_contents(*old(m)).insert(port, client),
{
    m.insert(port, client);
}

/// Calls `DashMap::remove`: the port then holds nothing.
#[verifier::external_body]
pub(crate) fn clients_remove(m: &mut DashMap<u16, reqwest::Client>, port: u16)
    ensures
        client_contents(*final(m)) == client_contents(*old(m)).remove(port),
{
    m.remove(&port);
}

/// Calls `DashMap::iter` and takes the ports that it walks over: each once, in an order that the
/// map's hasher decides.
#[verifier::external_body]
pub(crate) fn clients_ports(m: &DashMap<u16, reqwest::Client>) -> (r: Vec<u16>)
    ensures
        r@.no_duplicates(),
        r@.to_set() == client_contents(*m).dom(),
{
    m.iter().map(|entry| *entry.key()).collect()
}

/// The URL of the proxy that listens on a local port.
pub open spec fn local_proxy_url(port: u16) -> Seq<char> {
    "http://127.0.0.1:"@ + decimal(port as nat)
}

/// The client for a local port: it sends everything through the proxy that listens there.
pub open spec fn client_for(port: u16) -> ClientView {
    ClientView {
        proxy: local_proxy_url(port),
        timeout_secs: CLIENT_TIMEOUT_SECS,
        max_idle_per_host: CLIENT_MAX_IDLE_PER_HOST,
        accepts_invalid_certs: true,
    }
}

/// Whether every client is made for its port.
pub open spec fn clients_fit(m: Map<u16, reqwest::Client>) -> bool {
    forall|port: u16| #[trigger] m.contains_key(port) ==> client_view(m[port]) == client_for(port)
}

/// The clients in use, by local port.
#[derive(Debug)]
pub struct RelayClients {
    clients: DashMap<u16, reqwest::Client>,
}

impl View for RelayClients {
    type V = Map<u16, reqwest::Client>;

    closed spec fn view(&self) -> Map<u16, reqwest::Client> {
        client_contents(self.clients)
    }
}

/// Whether `e` reports why no client could be made for a local port: that its proxy is refused,
/// where it is, and else what has kept the client from being built.
pub open spec fn is_client_error(port: u16, e: ErrorView) -> bool {
    match proxy_refusal(local_proxy_url(port)) {
        Some(cause) => e == proxy_config_error(cause),
        None => exists|cause: Seq<char>| e == #[trigger] client_build_error(cause),
    }
}

/// The error for a proxy that `reqwest` does not take.
pub open spec fn proxy_config_error(cause: Seq<char>) -> ErrorView {
    ErrorView::Internal("Proxy config error: "@ + cause)
}

/// The error for a client that `reqwest` does not build.
pub open spec fn client_build_error(cause: Seq<char>) -> ErrorView {
    ErrorView::Internal("Client build error: "@ + cause)
}

/// An internal error with a cause behind a heading.
pub fn internal_error(heading: &str, cause: &str) -> (r: AppError)
    ensures
        r@ == ErrorView::Internal(heading@ + cause@),
{
    let mut message: String = heading.to_owned();
    message.append(cause);
    AppError::Internal(message)
}

/// The proxy that was made, or the error that tells why there is none.
pub fn proxy_or_error(made: Result<reqwest::Proxy, reqwest::Error>) -> (r: Result<
    reqwest::Proxy,
    AppError,
>)
    ensures
        match made {
            Ok(p) => r == Ok::<reqwest::Proxy, AppError>(p),
            Err(e) => r matches Err(error) && error@ == proxy_config_error(error_view(e)),
        },
{
    match made {
        Ok(p) => Ok(p),
        Err(e) => Err(internal_error("Proxy config error: ", error_text(&e).as_str())),
    }
}

/// The client that was built, or the error that tells why there is none.
pub fn client_or_error(built: Result<reqwest::Client, reqwest::Error>) -> (r: Result<
    reqwest::Client,
    AppError,
>)
    ensures
        match built {
            Ok(c) => r == Ok::<reqwest::Client, AppError>(c),
            Err(e) => r matches Err(error) && error@ == client_build_error(error_view(e)),
        },
{
    match built {
        Ok(c) => Ok(c),
        Err(e) => Err(internal_error("Client build error: ", error_text(&e).as_str())),
    }
}

/// Makes the client for a local port.
fn make_client(local_port: u16) -> (r: Result<reqwest::Client, AppError>)
    ensures
        match r {
            Ok(c) => {
                &&& proxy_refusal(local_proxy_url(local_port)) is None
                &&& client_view(c) == client_for(local_port)
            },
            Err(e) => is_client_error(local_port, e@),
        },
{
    let mut url: String = "http://127.0.0.1:".to_owned();
    url.append(decimal_text(local_port as u64).as_str());
    match proxy_or_error(proxy_at(url.as_str())) {
        Ok(proxy) => client_or_error(
            build_client(proxy, CLIENT_TIMEOUT_SECS, CLIENT_MAX_IDLE_PER_HOST, true),
        ),
        Err(e) => Err(e),
    }
}

impl RelayClients {
    /// Whether every client is made for its port.
    pub open spec fn wf(&self) -> bool {
        clients_fit(self@)
    }

    /// No clients.
    pub fn new() -> (r: Self)
        ensures
            r.wf(),
            r@ == Map::<u16, reqwest::Client>::empty(),
    {
        let clients = RelayClients { clients: new_clients() };
        assert(clients@ =~= Map::<u16, reqwest::Client>::empty());
        clients
    }

    /// Keeps what was made for a port, and hands it out. An error is handed on.
    pub fn keep(&mut self, local_port: u16, made: Result<reqwest::Client, AppError>) -> (r: Result<
        reqwest::Client,
        AppError,
    >)
        ensures
            r == made,
            final(self)@ == match made {
                Ok(c) => old(self)@.insert(local_port, c),
                Err(_) => old(self)@,
            },
    {
        match made {
            Ok(client) => {
                clients_insert(&mut self.clients, local_port, share_client(&client));
                Ok(client)
            },
            Err(e) => Err(e),
        }
    }
}

/// Hands out the client that is kept for a local port, or makes one and keeps it.
pub fn get_or_create_client(clients: &mut RelayClients, local_port: u16) -> (r: Result<
    reqwest::Client,
    AppError,
>)
    requires
        old(clients).wf(),
    ensures
        final(clients).wf(),
        old(clients)@.contains_key(local_port) ==> {
            &&& r == Ok::<reqwest::Client, AppError>(old(clients)@[local_port])
            &&& final(clients)@ == old(clients)@
        },
        match r {
            Ok(c) => {
                &&& client_view(c) == client_for(local_port)
                &&& final(clients)@ == old(clients)@.insert(local_port, c)
            },
            Err(e) => {
                &&& is_client_error(local_port, e@)
                &&& final(clients)@ == old(clients)@
            },
        },
        !old(clients)@.contains_key(local_port) && r is Ok ==> proxy_refusal(
            local_proxy_url(local_port),
        ) is None,
{
    if let Some(client) = clients_get(&clients.clients, local_port) {
        assert(clients@ =~= clients@.insert(local_port, client));
        return Ok(client);
    }
    clients.keep(local_port, make_client(local_port))
}

/// Drops the clients of ports that are no longer in use. The others stay the same.
pub fn invalidate_relay_clients(clients: &mut RelayClients, active_ports: &[u16])
    requires
        old(clients).wf(),
    ensures
        final(clients).wf(),
        final(clients)@ == old(clients)@.restrict(active_ports@.to_set()),
        forall|port: u16| #[trigger]
            final(clients)@.contains_key(port) <==> old(clients)@.contains_key(port)
                && active_ports@.contains(port),
        forall|port: u16| #[trigger]
            final(clients)@.contains_key(port) ==> final(clients)@[port] == old(clients)@[port],
{
    let ghost m = clients@;
    let ports: Vec<u16> = clients_ports(&clients.clients);
    let mut i: usize = 0;
    while i < ports.len()
        invariant
            i <= ports@.len(),
            ports@.to_set() == m.dom(),
            clients_fit(m),
            forall|p: u16| #[trigger] clients@.contains_key(p) ==> m.contains_key(p) && clients@[p] == m[p],
            forall|p: u16| #[trigger]
                m.contains_key(p) && active_ports@.contains(p) ==> clients@.contains_key(p),
            forall|j: int|
                0 <= j < i ==> (clients@.contains_key(#[trigger] ports@[j]) ==> active_ports@.contains(
                    ports@[j],
                )),
        decreases ports@.len() - i,
    {
        if !contains_port(active_ports, ports[i]) {
            let ghost before = clients@;
            clients_remove(&mut clients.clients, ports[i]);
            assert(clients@ == before.remove(ports@[i as int]));
            assert forall|p: u16| #[trigger] clients@.contains_key(p) implies before.contains_key(p)
                && clients@[p] == before[p] by {}
        }
        i = i + 1;
    }
    assert forall|p: u16| #[trigger] m.contains_key(p) implies (clients@.contains_key(p)
        <==> active_ports@.contains(p)) by {
        assert(ports@.to_set().contains(p));
        let j = choose|j: int| 0 <= j < ports@.len() && ports@[j] == p;
        assert(ports@[j] == p);
    }
    assert(clients@ =~= m.restrict(active_ports@.to_set()));
}

/// Whether a port is among others.
fn contains_port(ports: &[u16], port: u16) -> (r: bool)
    ensures
        r == ports@.contains(port),
{
    let mut i: usize = 0;
    while i < ports.len()
        invariant
            i <= ports@.len(),
            forall|j: int| 0 <= j < i ==> ports@[j] != port,
        decreases ports@.len() - i,
    {
        if ports[i] == port {
            return true;
        }
        i = i + 1;
    }
    false
}

/// The clients of different local ports send through different proxies.
pub proof fn law_ports_have_clients_of_their_own(a: u16, b: u16)
    requires
        client_for(a) == client_for(b),
    ensures
        a == b,
{
    let head = "http://127.0.0.1:"@;
    assert(local_proxy_url(a).skip(head.len() as int) =~= decimal(a as nat));
    assert(local_proxy_url(b).skip(head.len() as int) =~= decimal(b as nat));
    law_decimal_is_injective(a as nat, b as nat);
}

/// A client that was handed out for a local port is handed out again, as long as the port stays
/// in use.
pub proof fn law_kept_client_is_handed_out_again(
    clients: Map<u16, reqwest::Client>,
    port: u16,
    client: reqwest::Client,
    active: Set<u16>,
)
    requires
        active.contains(port),
    ensures
        clients.insert(port, client).restrict(active).contains_pair(port, client),
{
}

} // verus!
