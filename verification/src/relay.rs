//! The relay endpoint: what happens to a request from its arrival to its answer.
//!
//! The relay is a state machine. [`relay_request`] gives the first action; whoever performs it
//! reports what came of it to [`relay_advance`], which gives the next. An action that answers the
//! client is the last.

use crate::clients::{
    client_for, client_view, clients_fit, get_or_create_client, internal_error, is_client_error, RelayClients,
};
use crate::error::{AppError, ErrorView};
use crate::json::{copy_json, json_view, JsonView};
use crate::pool::{count_where, is_random_choice, keyed_by_id, one_more, replaced, ProxyPool};
use crate::proxy::{views, PoolProxy, ProxyView};
use crate::query::{matches_filter, FilterView, ProxyFilter};
use crate::risk::RiskScore;
use crate::text::{decimal, decimal_text, opt_text};
use vstd::prelude::*;
use vstd::string::*;

verus! {

/// How many proxies are tried where the client names none.
pub const MAX_ATTEMPTS: u32 = 5;

/// What a client asks of the relay endpoint.
#[derive(Debug)]
pub struct RelayParams {
    pub url: Option<String>,
    pub method: Option<String>,
    pub proxy_id: Option<String>,
    pub api_key: Option<String>,
    pub chatgpt: bool,
    pub google: bool,
    pub residential: bool,
    pub risk_max: Option<RiskScore>,
    pub country: Option<String>,
    pub proxy_type: Option<String>,
}

/// Where a request goes.
#[derive(Debug)]
pub struct RelayTarget {
    pub url: String,
    pub method: String,
}

/// [`RelayTarget`] as sequences of characters.
pub struct TargetView {
    pub url: Seq<char>,
    pub method: Seq<char>,
}

impl View for RelayTarget {
    type V = TargetView;

    open spec fn view(&self) -> TargetView {
        TargetView { url: self.url@, method: self.method@ }
    }
}

/// What a relay is waiting for.
#[derive(Debug)]
pub enum RelayState {
    /// Whether the client is let in.
    Authenticating { url: Option<String>, method: String, filter: ProxyFilter },
    /// The right to make bindings, for a proxy that has no local port.
    LockingBindings { proxy: PoolProxy, target: RelayTarget },
    /// A binding for the proxy.
    CreatingBinding { proxy: PoolProxy, target: RelayTarget },
    /// That the proxy's new local port is stored.
    SavingPort { proxy: PoolProxy, port: u16, target: RelayTarget },
    /// The answer of the target, through the proxy that the client named.
    SendingDirect { proxy: PoolProxy },
    /// The answer of the target, through a proxy that was chosen at random.
    SendingPooled { proxy: PoolProxy, attempt: u32, filter: ProxyFilter, target: RelayTarget },
    /// That the failure of the proxy that the client named is stored.
    RecordingDirectError { cause: String },
    /// That the failure of a proxy that was chosen at random is stored.
    RecordingError { attempt: u32, filter: ProxyFilter, target: RelayTarget },
    /// Nothing more.
    Finished,
}

/// [`RelayState`] over views.
pub enum StateView {
    Authenticating { url: Option<Seq<char>>, method: Seq<char>, filter: FilterView },
    LockingBindings { proxy: ProxyView, target: TargetView },
    CreatingBinding { proxy: ProxyView, target: TargetView },
    SavingPort { proxy: ProxyView, port: u16, target: TargetView },
    SendingDirect { proxy: ProxyView },
    SendingPooled { proxy: ProxyView, attempt: u32, filter: FilterView, target: TargetView },
    RecordingDirectError { cause: Seq<char> },
    RecordingError { attempt: u32, filter: FilterView, target: TargetView },
    Finished,
}

impl View for RelayState {
    type V = StateView;

    open spec fn view(&self) -> StateView {
        match *self {
            RelayState::Authenticating { url, method, filter } => StateView::Authenticating {
                url: opt_text(url),
                method: method@,
                filter: filter@,
            },
            RelayState::LockingBindings { proxy, target } => StateView::LockingBindings {
                proxy: proxy@,
                target: target@,
            },
            RelayState::CreatingBinding { proxy, target } => StateView::CreatingBinding {
                proxy: proxy@,
                target: target@,
            },
            RelayState::SavingPort { proxy, port, target } => StateView::SavingPort {
                proxy: proxy@,
                port,
                target: target@,
            },
            RelayState::SendingDirect { proxy } => StateView::SendingDirect { proxy: proxy@ },
            RelayState::SendingPooled { proxy, attempt, filter, target } => {
                StateView::SendingPooled { proxy: proxy@, attempt, filter: filter@, target: target@ }
            },
            RelayState::RecordingDirectError { cause } => StateView::RecordingDirectError {
                cause: cause@,
            },
            RelayState::RecordingError { attempt, filter, target } => StateView::RecordingError {
                attempt,
                filter: filter@,
                target: target@,
            },
            RelayState::Finished => StateView::Finished,
        }
    }
}

impl StateView {
    /// Whether attempts are counted below [`MAX_ATTEMPTS`].
    pub open spec fn wf(self) -> bool {
        match self {
            StateView::SendingPooled { attempt, .. } => attempt < MAX_ATTEMPTS,
            StateView::RecordingError { attempt, .. } => attempt < MAX_ATTEMPTS,
            _ => true,
        }
    }
}

/// What is to be done next.
#[derive(Debug)]
pub enum RelayAction {
    /// Find out who has the API key.
    Authenticate { api_key: String },
    /// Wait for the right to make bindings, and keep it for the next action alone.
    LockBindings,
    /// Make a binding for a proxy.
    CreateBinding { proxy_id: String, outbound: serde_json::Value },
    /// Store the local port of a proxy.
    SavePort { proxy_id: String, port: u16 },
    /// Send the request to the target with a client.
    Send { client: reqwest::Client, target: RelayTarget },
    /// Store that a proxy has failed once more.
    RecordError { proxy_id: String },
    /// Answer with what the target has answered, through a proxy and at an attempt.
    Respond { proxy: PoolProxy, attempt: Option<u32> },
    /// Answer with an error.
    Fail { error: AppError },
}

/// [`RelayAction`] over views.
pub enum ActionView {
    Authenticate { api_key: Seq<char> },
    LockBindings,
    CreateBinding { proxy_id: Seq<char>, outbound: JsonView },
    SavePort { proxy_id: Seq<char>, port: u16 },
    Send { client: reqwest::Client, target: TargetView },
    RecordError { proxy_id: Seq<char> },
    Respond { proxy: ProxyView, attempt: Option<u32> },
    Fail { error: ErrorView },
}

impl View for RelayAction {
    type V = ActionView;

    open spec fn view(&self) -> ActionView {
        match *self {
            RelayAction::Authenticate { api_key } => ActionView::Authenticate { api_key: api_key@ },
            RelayAction::LockBindings => ActionView::LockBindings,
            RelayAction::CreateBinding { proxy_id, outbound } => ActionView::CreateBinding {
                proxy_id: proxy_id@,
                outbound: json_view(outbound),
            },
            RelayAction::SavePort { proxy_id, port } => ActionView::SavePort {
                proxy_id: proxy_id@,
                port,
            },
            RelayAction::Send { client, target } => ActionView::Send { client, target: target@ },
            RelayAction::RecordError { proxy_id } => ActionView::RecordError { proxy_id: proxy_id@ },
            RelayAction::Respond { proxy, attempt } => ActionView::Respond {
                proxy: proxy@,
                attempt,
            },
            RelayAction::Fail { error } => ActionView::Fail { error: error@ },
        }
    }
}

/// What came of an action.
#[derive(Debug)]
pub enum RelayEvent {
    /// The API key belongs to a user.
    Authenticated { can_use_relay: bool },
    /// The client is not let in.
    AuthFailed { error: AppError },
    /// Bindings can be made.
    BindingsLocked,
    /// A binding listens on a local port.
    BindingCreated { port: u16 },
    /// No binding could be made.
    BindingFailed { cause: String },
    /// The storing of a local port is over, whether it worked or not.
    PortSaved,
    /// The target has answered.
    Delivered,
    /// The target could not be reached.
    SendFailed { cause: String },
    /// The storing of a failure is over, whether it worked or not.
    ErrorRecorded,
}

/// [`RelayEvent`] over views.
pub enum EventView {
    Authenticated { can_use_relay: bool },
    AuthFailed { error: ErrorView },
    BindingsLocked,
    BindingCreated { port: u16 },
    BindingFailed { cause: Seq<char> },
    PortSaved,
    Delivered,
    SendFailed { cause: Seq<char> },
    ErrorRecorded,
}

impl View for RelayEvent {
    type V = EventView;

    open spec fn view(&self) -> EventView {
        match *self {
            RelayEvent::Authenticated { can_use_relay } => EventView::Authenticated {
                can_use_relay,
            },
            RelayEvent::AuthFailed { error } => EventView::AuthFailed { error: error@ },
            RelayEvent::BindingsLocked => EventView::BindingsLocked,
            RelayEvent::BindingCreated { port } => EventView::BindingCreated { port },
            RelayEvent::BindingFailed { cause } => EventView::BindingFailed { cause: cause@ },
            RelayEvent::PortSaved => EventView::PortSaved,
            RelayEvent::Delivered => EventView::Delivered,
            RelayEvent::SendFailed { cause } => EventView::SendFailed { cause: cause@ },
            RelayEvent::ErrorRecorded => EventView::ErrorRecorded,
        }
    }
}

/// A state and the action that leads out of it.
#[derive(Debug)]
pub struct RelayStep {
    pub state: RelayState,
    pub action: RelayAction,
}

/// [`RelayStep`] over views.
pub struct StepView {
    pub state: StateView,
    pub action: ActionView,
}

impl View for RelayStep {
    type V = StepView;

    open spec fn view(&self) -> StepView {
        StepView { state: self.state@, action: self.action@ }
    }
}

/// Whether an event is one that a state waits for.
pub open spec fn awaits(state: StateView, event: EventView) -> bool {
    match state {
        StateView::Authenticating { .. } => event is Authenticated || event is AuthFailed,
        StateView::LockingBindings { .. } => event is BindingsLocked,
        StateView::CreatingBinding { .. } => event is BindingCreated || event is BindingFailed,
        StateView::SavingPort { .. } => event is PortSaved,
        StateView::SendingDirect { .. } => event is Delivered || event is SendFailed,
        StateView::SendingPooled { .. } => event is Delivered || event is SendFailed,
        StateView::RecordingDirectError { .. } => event is ErrorRecorded,
        StateView::RecordingError { .. } => event is ErrorRecorded,
        StateView::Finished => false,
    }
}

/// The end of a relay with an error.
pub open spec fn failed(error: ErrorView) -> StepView {
    StepView { state: StateView::Finished, action: ActionView::Fail { error } }
}

/// The end of a relay with the answer of the target.
pub open spec fn responded(proxy: ProxyView, attempt: Option<u32>) -> StepView {
    StepView { state: StateView::Finished, action: ActionView::Respond { proxy, attempt } }
}

/// The filter in what a client asks.
pub open spec fn relay_filter(params: RelayParams) -> FilterView {
    FilterView {
        chatgpt: params.chatgpt,
        google: params.google,
        residential: params.residential,
        risk_max: params.risk_max,
        country: opt_text(params.country),
        proxy_type: opt_text(params.proxy_type),
        count: None,
        proxy_id: opt_text(params.proxy_id),
    }
}

/// The method in what a client asks; `GET` where it does not say.
pub open spec fn relay_method(params: RelayParams) -> Seq<char> {
    match params.method {
        Some(m) => m@,
        None => "GET"@,
    }
}

/// The first step of a relay. A client shows who it is by the API key in the query, and by
/// nothing else.
pub open spec fn first_step(params: RelayParams) -> StepView {
    match params.api_key {
        None => failed(ErrorView::BadRequest("Relay requires 'api_key' query parameter"@)),
        Some(key) => StepView {
            state: StateView::Authenticating {
                url: opt_text(params.url),
                method: relay_method(params),
                filter: relay_filter(params),
            },
            action: ActionView::Authenticate { api_key: key@ },
        },
    }
}

/// Ends a relay with an error.
fn fail(error: AppError) -> (r: RelayStep)
    ensures
        r@ == failed(error@),
{
    RelayStep { state: RelayState::Finished, action: RelayAction::Fail { error } }
}

/// Starts a relay.
pub fn relay_request(params: RelayParams) -> (r: RelayStep)
    ensures
        r@ == first_step(params),
        r.state@.wf(),
{
    let api_key: String = match params.api_key {
        Some(key) => key,
        None => return fail(
            AppError::BadRequest("Relay requires 'api_key' query parameter".to_owned()),
        ),
    };
    let method: String = match params.method {
        Some(m) => m,
        None => "GET".to_owned(),
    };
    let filter = ProxyFilter {
        chatgpt: params.chatgpt,
        google: params.google,
        residential: params.residential,
        risk_max: params.risk_max,
        country: params.country,
        proxy_type: params.proxy_type,
        count: None,
        proxy_id: params.proxy_id,
    };
    RelayStep {
        state: RelayState::Authenticating { url: params.url, method, filter },
        action: RelayAction::Authenticate { api_key },
    }
}

/// Sending to a target through a local port, from a state that waits for the answer: with the
/// client that is kept for the port, or with one that is made and kept. Where none is kept and
/// none can be made, the relay ends.
pub open spec fn sends(
    port: u16,
    state: StateView,
    target: TargetView,
    before: Map<u16, reqwest::Client>,
    after: Map<u16, reqwest::Client>,
    r: StepView,
) -> bool {
    match r.action {
        ActionView::Send { client, .. } => {
            &&& before.contains_key(port) ==> client == before[port]
            &&& client_view(client) == client_for(port)
            &&& after == before.insert(port, client)
            &&& r == StepView { state, action: ActionView::Send { client, target } }
        },
        ActionView::Fail { error } => {
            &&& !before.contains_key(port)
            &&& after == before
            &&& is_client_error(port, error)
            &&& r == failed(error)
        },
        _ => false,
    }
}

/// An attempt to send through a proxy that is chosen at random among those of the pool `m` that
/// pass a filter. Where none does, the relay ends.
pub open spec fn tries(
    m: Map<Seq<char>, ProxyView>,
    attempt: u32,
    filter: FilterView,
    target: TargetView,
    before: Map<u16, reqwest::Client>,
    after: Map<u16, reqwest::Client>,
    r: StepView,
) -> bool {
    if count_where(m, |p: ProxyView| matches_filter(p, filter)) == 0 {
        after == before && r == failed(ErrorView::NotFound("No proxies match the given filters"@))
    } else {
        exists|p: ProxyView|
            {
                &&& #[trigger] m.contains_pair(p.id, p)
                &&& matches_filter(p, filter)
                &&& is_random_choice(seq![p], m, filter, 1)
                &&& sends(
                    p.local_port->0,
                    StateView::SendingPooled { proxy: p, attempt, filter, target },
                    target,
                    before,
                    after,
                    r,
                )
            }
    }
}

/// What a relay does once the client is let in and may use it.
pub open spec fn admitted(
    url: Option<Seq<char>>,
    method: Seq<char>,
    filter: FilterView,
    m: Map<Seq<char>, ProxyView>,
    before: Map<u16, reqwest::Client>,
    after: Map<u16, reqwest::Client>,
    r: StepView,
) -> bool {
    match url {
        None => after == before && r == failed(ErrorView::BadRequest("Missing 'url' parameter"@)),
        Some(url) => {
            let target = TargetView { url, method };
            match filter.proxy_id {
                None => tries(m, 0, filter, target, before, after, r),
                Some(id) => if !m.contains_key(id) {
                    after == before && r == failed(ErrorView::NotFound("Specified proxy not found"@))
                } else {
                    match m[id].local_port {
                        Some(port) => sends(
                            port,
                            StateView::SendingDirect { proxy: m[id] },
                            target,
                            before,
                            after,
                            r,
                        ),
                        None => after == before && r == StepView {
                            state: StateView::LockingBindings { proxy: m[id], target },
                            action: ActionView::LockBindings,
                        },
                    }
                },
            }
        },
    }
}

/// The pool with one more failure of a proxy, if the proxy is still there.
pub open spec fn blamed(m: Map<Seq<char>, ProxyView>, id: Seq<char>) -> Map<
    Seq<char>,
    ProxyView,
> {
    replaced(m, id, ProxyView { error_count: one_more(m[id].error_count), ..m[id] })
}

/// What an event does to a relay, to the pool `m` and to the clients.
pub open spec fn relay_next(
    state: StateView,
    event: EventView,
    m: Map<Seq<char>, ProxyView>,
    m_after: Map<Seq<char>, ProxyView>,
    before: Map<u16, reqwest::Client>,
    after: Map<u16, reqwest::Client>,
    r: StepView,
) -> bool {
    match (state, event) {
        (StateView::Authenticating { url, method, filter }, EventView::AuthFailed { error }) => {
            m_after == m && after == before && r == failed(error)
        },
        (
            StateView::Authenticating { url, method, filter },
            EventView::Authenticated { can_use_relay },
        ) => {
            &&& m_after == m
            &&& if can_use_relay {
                admitted(url, method, filter, m, before, after, r)
            } else {
                after == before && r == failed(
                    ErrorView::Unauthorized("Relay endpoint is disabled for this user"@),
                )
            }
        },
        (StateView::LockingBindings { proxy, target }, EventView::BindingsLocked) => {
            &&& m_after == m
            &&& if m.contains_key(proxy.id) && m[proxy.id].local_port is Some {
                sends(
                    m[proxy.id].local_port->0,
                    StateView::SendingDirect { proxy },
                    target,
                    before,
                    after,
                    r,
                )
            } else {
                after == before && r == StepView {
                    state: StateView::CreatingBinding { proxy, target },
                    action: ActionView::CreateBinding {
                        proxy_id: proxy.id,
                        outbound: proxy.singbox_outbound,
                    },
                }
            }
        },
        (StateView::CreatingBinding { proxy, target }, EventView::BindingFailed { cause }) => {
            m_after == m && after == before && r == failed(
                ErrorView::Internal("Failed to create binding: "@ + cause),
            )
        },
        (StateView::CreatingBinding { proxy, target }, EventView::BindingCreated { port }) => {
            &&& m_after == replaced(
                m,
                proxy.id,
                ProxyView { local_port: Some(port), ..m[proxy.id] },
            )
            &&& after == before
            &&& r == StepView {
                state: StateView::SavingPort { proxy, port, target },
                action: ActionView::SavePort { proxy_id: proxy.id, port },
            }
        },
        (StateView::SavingPort { proxy, port, target }, EventView::PortSaved) => {
            m_after == m && sends(
                port,
                StateView::SendingDirect { proxy },
                target,
                before,
                after,
                r,
            )
        },
        (StateView::SendingDirect { proxy }, EventView::Delivered) => {
            m_after == m && after == before && r == responded(proxy, None)
        },
        (StateView::SendingDirect { proxy }, EventView::SendFailed { cause }) => {
            &&& m_after == blamed(m, proxy.id)
            &&& after == before
            &&& r == StepView {
                state: StateView::RecordingDirectError { cause },
                action: ActionView::RecordError { proxy_id: proxy.id },
            }
        },
        (StateView::RecordingDirectError { cause }, EventView::ErrorRecorded) => {
            m_after == m && after == before && r == failed(
                ErrorView::Internal("Relay failed: "@ + cause),
            )
        },
        (StateView::SendingPooled { proxy, attempt, filter, target }, EventView::Delivered) => {
            m_after == m && after == before && r == responded(proxy, Some((attempt + 1) as u32))
        },
        (
            StateView::SendingPooled { proxy, attempt, filter, target },
            EventView::SendFailed { cause },
        ) => {
            &&& m_after == blamed(m, proxy.id)
            &&& after == before
            &&& r == StepView {
                state: StateView::RecordingError { attempt, filter, target },
                action: ActionView::RecordError { proxy_id: proxy.id },
            }
        },
        (StateView::RecordingError { attempt, filter, target }, EventView::ErrorRecorded) => {
            &&& m_after == m
            &&& if attempt + 1 < MAX_ATTEMPTS {
                tries(m, (attempt + 1) as u32, filter, target, before, after, r)
            } else {
                after == before && r == failed(
                    ErrorView::Internal(
                        "All "@ + decimal(MAX_ATTEMPTS as nat) + " relay attempts failed"@,
                    ),
                )
            }
        },
        _ => false,
    }
}

/// Decides [`awaits`].
pub fn relay_awaits(state: &RelayState, event: &RelayEvent) -> (r: bool)
    ensures
        r == awaits(state@, event@),
{
    match (state, event) {
        (RelayState::Authenticating { .. }, RelayEvent::Authenticated { .. }) => true,
        (RelayState::Authenticating { .. }, RelayEvent::AuthFailed { .. }) => true,
        (RelayState::LockingBindings { .. }, RelayEvent::BindingsLocked) => true,
        (RelayState::CreatingBinding { .. }, RelayEvent::BindingCreated { .. }) => true,
        (RelayState::CreatingBinding { .. }, RelayEvent::BindingFailed { .. }) => true,
        (RelayState::SavingPort { .. }, RelayEvent::PortSaved) => true,
        (RelayState::SendingDirect { .. }, RelayEvent::Delivered) => true,
        (RelayState::SendingDirect { .. }, RelayEvent::SendFailed { .. }) => true,
        (RelayState::SendingPooled { .. }, RelayEvent::Delivered) => true,
        (RelayState::SendingPooled { .. }, RelayEvent::SendFailed { .. }) => true,
        (RelayState::RecordingDirectError { .. }, RelayEvent::ErrorRecorded) => true,
        (RelayState::RecordingError { .. }, RelayEvent::ErrorRecorded) => true,
        _ => false,
    }
}

/// Copies a target.
fn copy_target(target: &RelayTarget) -> (r: RelayTarget)
    ensures
        r@ == target@,
{
    RelayTarget { url: target.url.clone(), method: target.method.clone() }
}

/// Sends with the client that was handed out, or ends with the error.
pub fn send_with(
    client: Result<reqwest::Client, AppError>,
    state: RelayState,
    target: RelayTarget,
) -> (r: RelayStep)
    ensures
        r@ == (match client {
            Ok(c) => StepView {
                state: state@,
                action: ActionView::Send { client: c, target: target@ },
            },
            Err(e) => failed(e@),
        }),
{
    match client {
        Ok(client) => RelayStep { state, action: RelayAction::Send { client, target } },
        Err(error) => fail(error),
    }
}

/// Sends through a local port.
fn send_through(
    clients: &mut RelayClients,
    port: u16,
    state: RelayState,
    target: RelayTarget,
) -> (r: RelayStep)
    requires
        old(clients).wf(),
    ensures
        final(clients).wf(),
        sends(port, state@, target@, old(clients)@, final(clients)@, r@),
{
    let client: Result<reqwest::Client, AppError> = get_or_create_client(clients, port);
    send_with(client, state, target)
}

/// Tries a proxy that is chosen at random.
fn try_proxy(
    pool: &ProxyPool,
    clients: &mut RelayClients,
    attempt: u32,
    filter: ProxyFilter,
    target: RelayTarget,
) -> (r: RelayStep)
    requires
        pool.wf(),
        old(clients).wf(),
        attempt < MAX_ATTEMPTS,
    ensures
        final(clients).wf(),
        r.state@.wf(),
        tries(pool@, attempt, filter@, target@, old(clients)@, final(clients)@, r@),
{
    let mut candidates: Vec<PoolProxy> = pool.pick_random(&filter, 1);
    let ghost chosen = views(candidates@);
    match candidates.pop() {
        None => fail(AppError::NotFound("No proxies match the given filters".to_owned())),
        Some(proxy) => {
            assert(chosen[0] == proxy@);
            assert(chosen =~= seq![proxy@]);
            assert(pool@.contains_pair(proxy@.id, proxy@));
            let port: u16 = proxy.local_port.unwrap();
            let sent: RelayTarget = copy_target(&target);
            send_through(
                clients,
                port,
                RelayState::SendingPooled { proxy, attempt, filter, target },
                sent,
            )
        },
    }
}

/// Goes on with a client that is let in and may use the relay.
fn let_in(
    url: Option<String>,
    method: String,
    filter: ProxyFilter,
    pool: &ProxyPool,
    clients: &mut RelayClients,
) -> (r: RelayStep)
    requires
        pool.wf(),
        old(clients).wf(),
    ensures
        final(clients).wf(),
        r.state@.wf(),
        admitted(opt_text(url), method@, filter@, pool@, old(clients)@, final(clients)@, r@),
{
    let url: String = match url {
        Some(u) => u,
        None => return fail(AppError::BadRequest("Missing 'url' parameter".to_owned())),
    };
    let target = RelayTarget { url, method };
    if let Some(id) = &filter.proxy_id {
        return match pool.get(id.as_str()) {
            Some(proxy) => match proxy.local_port {
                Some(port) => send_through(
                    clients,
                    port,
                    RelayState::SendingDirect { proxy },
                    target,
                ),
                None => RelayStep {
                    state: RelayState::LockingBindings { proxy, target },
                    action: RelayAction::LockBindings,
                },
            },
            None => fail(AppError::NotFound("Specified proxy not found".to_owned())),
        };
    }
    try_proxy(pool, clients, 0, filter, target)
}

/// Goes on with a relay after an event.
pub fn relay_advance(
    state: RelayState,
    event: RelayEvent,
    pool: &mut ProxyPool,
    clients: &mut RelayClients,
) -> (r: RelayStep)
    requires
        old(pool).wf(),
        old(clients).wf(),
        state@.wf(),
        awaits(state@, event@),
    ensures
        final(pool).wf(),
        final(clients).wf(),
        r.state@.wf(),
        relay_next(
            state@,
            event@,
            old(pool)@,
            final(pool)@,
            old(clients)@,
            final(clients)@,
            r@,
        ),
{
    match (state, event) {
        (RelayState::Authenticating { .. }, RelayEvent::AuthFailed { error }) => fail(error),
        (
            RelayState::Authenticating { url, method, filter },
            RelayEvent::Authenticated { can_use_relay },
        ) => {
            if can_use_relay {
                let_in(url, method, filter, pool, clients)
            } else {
                fail(AppError::Unauthorized("Relay endpoint is disabled for this user".to_owned()))
            }
        },
        (RelayState::LockingBindings { proxy, target }, RelayEvent::BindingsLocked) => {
            let bound: Option<u16> = match pool.get(proxy.id.as_str()) {
                Some(current) => current.local_port,
                None => None,
            };
            match bound {
                Some(port) => send_through(
                    clients,
                    port,
                    RelayState::SendingDirect { proxy },
                    target,
                ),
                None => {
                    let proxy_id: String = proxy.id.clone();
                    let outbound: serde_json::Value = copy_json(&proxy.singbox_outbound);
                    RelayStep {
                        state: RelayState::CreatingBinding { proxy, target },
                        action: RelayAction::CreateBinding { proxy_id, outbound },
                    }
                },
            }
        },
        (RelayState::CreatingBinding { .. }, RelayEvent::BindingFailed { cause }) => fail(
            internal_error("Failed to create binding: ", cause.as_str()),
        ),
        (RelayState::CreatingBinding { proxy, target }, RelayEvent::BindingCreated { port }) => {
            pool.set_local_port(proxy.id.as_str(), port);
            let proxy_id: String = proxy.id.clone();
            RelayStep {
                state: RelayState::SavingPort { proxy, port, target },
                action: RelayAction::SavePort { proxy_id, port },
            }
        },
        (RelayState::SavingPort { proxy, port, target }, RelayEvent::PortSaved) => send_through(
            clients,
            port,
            RelayState::SendingDirect { proxy },
            target,
        ),
        (RelayState::SendingDirect { proxy }, RelayEvent::Delivered) => RelayStep {
            state: RelayState::Finished,
            action: RelayAction::Respond { proxy, attempt: None },
        },
        (RelayState::SendingDirect { proxy }, RelayEvent::SendFailed { cause }) => {
            pool.increment_error(proxy.id.as_str());
            RelayStep {
                state: RelayState::RecordingDirectError { cause },
                action: RelayAction::RecordError { proxy_id: proxy.id },
            }
        },
        (RelayState::RecordingDirectError { cause }, RelayEvent::ErrorRecorded) => fail(
            internal_error("Relay failed: ", cause.as_str()),
        ),
        (RelayState::SendingPooled { proxy, attempt, .. }, RelayEvent::Delivered) => RelayStep {
            state: RelayState::Finished,
            action: RelayAction::Respond { proxy, attempt: Some(attempt + 1) },
        },
        (
            RelayState::SendingPooled { proxy, attempt, filter, target },
            RelayEvent::SendFailed { .. },
        ) => {
            pool.increment_error(proxy.id.as_str());
            RelayStep {
                state: RelayState::RecordingError { attempt, filter, target },
                action: RelayAction::RecordError { proxy_id: proxy.id },
            }
        },
        (RelayState::RecordingError { attempt, filter, target }, RelayEvent::ErrorRecorded) => {
            if attempt + 1 < MAX_ATTEMPTS {
                try_proxy(pool, clients, attempt + 1, filter, target)
            } else {
                let mut message: String = "All ".to_owned();
                message.append(decimal_text(MAX_ATTEMPTS as u64).as_str());
                message.append(" relay attempts failed");
                fail(AppError::Internal(message))
            }
        },
        _ => fail(AppError::Internal("Unexpected relay event".to_owned())),
    }
}

/// A relay starts by finding out who asks: nothing is sent before, and without an API key the
/// client is turned away.
pub proof fn law_relay_starts_with_authentication(params: RelayParams)
    ensures
        params.api_key matches Some(key) ==> first_step(params).action == (
        ActionView::Authenticate { api_key: key@ }),
        params.api_key is None ==> first_step(params) == failed(
            ErrorView::BadRequest("Relay requires 'api_key' query parameter"@),
        ),
{
}

/// A client that is not let in, or that may not use the relay, gets an error, and neither the
/// pool nor the clients change.
pub proof fn law_no_relay_without_permission(
    state: StateView,
    event: EventView,
    m: Map<Seq<char>, ProxyView>,
    m_after: Map<Seq<char>, ProxyView>,
    before: Map<u16, reqwest::Client>,
    after: Map<u16, reqwest::Client>,
    r: StepView,
)
    requires
        state is Authenticating,
        relay_next(state, event, m, m_after, before, after, r),
        event != (EventView::Authenticated { can_use_relay: true }),
    ensures
        r.state is Finished,
        r.action is Fail,
        m_after == m,
        after == before,
        event matches EventView::AuthFailed { error } ==> r == failed(error),
        event == (EventView::Authenticated { can_use_relay: false }) ==> r == failed(
            ErrorView::Unauthorized("Relay endpoint is disabled for this user"@),
        ),
{
}

/// How many steps a relay can still take.
pub open spec fn steps_left(state: StateView) -> int {
    match state {
        StateView::Authenticating { .. } => 2 * MAX_ATTEMPTS + 1,
        StateView::LockingBindings { .. } => 5,
        StateView::CreatingBinding { .. } => 4,
        StateView::SavingPort { .. } => 3,
        StateView::SendingDirect { .. } => 2,
        StateView::RecordingDirectError { .. } => 1,
        StateView::SendingPooled { attempt, .. } => 2 * (MAX_ATTEMPTS - attempt),
        StateView::RecordingError { attempt, .. } => 2 * (MAX_ATTEMPTS - attempt) - 1,
        StateView::Finished => 0,
    }
}

/// Every relay comes to an end: each event leaves fewer steps to take, and a relay is finished
/// exactly when the client is answered.
pub proof fn law_relay_comes_to_an_end(
    state: StateView,
    event: EventView,
    m: Map<Seq<char>, ProxyView>,
    m_after: Map<Seq<char>, ProxyView>,
    before: Map<u16, reqwest::Client>,
    after: Map<u16, reqwest::Client>,
    r: StepView,
)
    requires
        state.wf(),
        relay_next(state, event, m, m_after, before, after, r),
    ensures
        r.state.wf(),
        0 <= steps_left(r.state) < steps_left(state),
        steps_left(r.state) == 0 <==> r.state is Finished,
        r.state is Finished <==> r.action is Respond || r.action is Fail,
{
}

/// How many requests a relay can still send.
pub open spec fn sends_left(state: StateView) -> int {
    match state {
        StateView::Authenticating { filter, .. } => if filter.proxy_id is Some {
            1
        } else {
            MAX_ATTEMPTS as int
        },
        StateView::LockingBindings { .. } => 1,
        StateView::CreatingBinding { .. } => 1,
        StateView::SavingPort { .. } => 1,
        StateView::SendingDirect { .. } => 0,
        StateView::RecordingDirectError { .. } => 0,
        StateView::SendingPooled { attempt, .. } => MAX_ATTEMPTS - 1 - attempt,
        StateView::RecordingError { attempt, .. } => MAX_ATTEMPTS - 1 - attempt,
        StateView::Finished => 0,
    }
}

/// A relay sends at most [`MAX_ATTEMPTS`] requests, and at most one where the client names the
/// proxy: each one that is sent leaves one fewer.
pub proof fn law_relay_sends_are_bounded(
    state: StateView,
    event: EventView,
    m: Map<Seq<char>, ProxyView>,
    m_after: Map<Seq<char>, ProxyView>,
    before: Map<u16, reqwest::Client>,
    after: Map<u16, reqwest::Client>,
    r: StepView,
)
    requires
        state.wf(),
        relay_next(state, event, m, m_after, before, after, r),
    ensures
        0 <= sends_left(r.state),
        r.action is Send ==> sends_left(r.state) + 1 <= sends_left(state),
        sends_left(r.state) <= sends_left(state),
        sends_left(state) <= 5,
{
}

/// A relay changes nothing of the pool but the local port of a proxy that was bound and the error
/// count of a proxy that failed.
pub proof fn law_relay_keeps_the_pool(
    state: StateView,
    event: EventView,
    m: Map<Seq<char>, ProxyView>,
    m_after: Map<Seq<char>, ProxyView>,
    before: Map<u16, reqwest::Client>,
    after: Map<u16, reqwest::Client>,
    r: StepView,
)
    requires
        relay_next(state, event, m, m_after, before, after, r),
    ensures
        m_after.dom() == m.dom(),
        forall|k: Seq<char>| #[trigger]
            m.contains_key(k) ==> m_after[k] == (ProxyView {
                local_port: m_after[k].local_port,
                error_count: m_after[k].error_count,
                ..m[k]
            }),
        event !is BindingCreated && event !is SendFailed ==> m_after == m,
{
    assert(m_after.dom() =~= m.dom());
}

/// A proxy that fails in a relay has one more error in the pool, whether it was named or chosen
/// at random, the failure is stored under its id, and its status stays.
pub proof fn law_failed_proxy_is_blamed(
    state: StateView,
    cause: Seq<char>,
    proxy: ProxyView,
    m: Map<Seq<char>, ProxyView>,
    m_after: Map<Seq<char>, ProxyView>,
    before: Map<u16, reqwest::Client>,
    after: Map<u16, reqwest::Client>,
    r: StepView,
)
    requires
        state matches StateView::SendingDirect { proxy: p } ==> p == proxy,
        state matches StateView::SendingPooled { proxy: p, .. } ==> p == proxy,
        relay_next(state, EventView::SendFailed { cause }, m, m_after, before, after, r),
        m.contains_key(proxy.id),
        m[proxy.id].error_count < u32::MAX,
    ensures
        m_after[proxy.id].error_count == m[proxy.id].error_count + 1,
        m_after[proxy.id].status == m[proxy.id].status,
        r.action == (ActionView::RecordError { proxy_id: proxy.id }),
{
}

/// What is sent where the proxy is chosen at random goes to the target of the request, through
/// the local port of a proxy of the pool that passes the filter.
pub proof fn law_random_sends_use_passing_proxies(
    m: Map<Seq<char>, ProxyView>,
    attempt: u32,
    filter: FilterView,
    target: TargetView,
    before: Map<u16, reqwest::Client>,
    after: Map<u16, reqwest::Client>,
    r: StepView,
) -> (p: ProxyView)
    requires
        tries(m, attempt, filter, target, before, after, r),
        r.action is Send,
    ensures
        m.contains_pair(p.id, p),
        matches_filter(p, filter),
        is_random_choice(seq![p], m, filter, 1),
        sends(
            p.local_port->0,
            StateView::SendingPooled { proxy: p, attempt, filter, target },
            target,
            before,
            after,
            r,
        ),
        r.state == (StateView::SendingPooled { proxy: p, attempt, filter, target }),
        r.action matches ActionView::Send { client, target: t } && t == target && client_view(client)
            == client_for(p.local_port->0),
        p.local_port is Some,
{
    choose|p: ProxyView|
        {
            &&& #[trigger] m.contains_pair(p.id, p)
            &&& matches_filter(p, filter)
            &&& is_random_choice(seq![p], m, filter, 1)
            &&& sends(
                p.local_port->0,
                StateView::SendingPooled { proxy: p, attempt, filter, target },
                target,
                before,
                after,
                r,
            )
        }
}

/// Where the client names a proxy, every request goes through that proxy or none is sent.
pub open spec fn relays_through(state: StateView, id: Seq<char>) -> bool {
    match state {
        StateView::Authenticating { filter, .. } => filter.proxy_id == Some(id),
        StateView::LockingBindings { proxy, .. } => proxy.id == id,
        StateView::CreatingBinding { proxy, .. } => proxy.id == id,
        StateView::SavingPort { proxy, .. } => proxy.id == id,
        StateView::SendingDirect { proxy } => proxy.id == id,
        StateView::RecordingDirectError { .. } => true,
        StateView::SendingPooled { .. } => false,
        StateView::RecordingError { .. } => false,
        StateView::Finished => true,
    }
}

/// A relay whose client names a proxy uses that proxy and no other: it is the one that is bound,
/// sent through, blamed and told in the answer, and no attempt is told.
pub proof fn law_named_proxy_is_used(
    state: StateView,
    event: EventView,
    m: Map<Seq<char>, ProxyView>,
    m_after: Map<Seq<char>, ProxyView>,
    before: Map<u16, reqwest::Client>,
    after: Map<u16, reqwest::Client>,
    r: StepView,
    id: Seq<char>,
)
    requires
        keyed_by_id(m),
        relays_through(state, id),
        relay_next(state, event, m, m_after, before, after, r),
    ensures
        relays_through(r.state, id),
        r.action matches ActionView::CreateBinding { proxy_id, .. } ==> proxy_id == id,
        r.action matches ActionView::SavePort { proxy_id, .. } ==> proxy_id == id,
        r.action matches ActionView::RecordError { proxy_id } ==> proxy_id == id,
        r.action matches ActionView::Respond { proxy, attempt } ==> proxy.id == id && attempt is None,
        r.action matches ActionView::Send { client, .. } ==> {
            ||| state matches StateView::SavingPort { port, .. } && client_view(client) == client_for(
                port,
            )
            ||| m.contains_key(id) && (m[id].local_port matches Some(port) && client_view(client)
                == client_for(port))
        },
        forall|k: Seq<char>| #[trigger] m.contains_key(k) && k != id ==> m_after[k] == m[k],
{
}

/// Where the proxy was chosen at random, the answer tells the attempt that has succeeded, from
/// one up to [`MAX_ATTEMPTS`]; where it was named, the answer tells none.
pub proof fn law_answer_tells_the_attempt(
    state: StateView,
    event: EventView,
    m: Map<Seq<char>, ProxyView>,
    m_after: Map<Seq<char>, ProxyView>,
    before: Map<u16, reqwest::Client>,
    after: Map<u16, reqwest::Client>,
    r: StepView,
)
    requires
        state.wf(),
        relay_next(state, event, m, m_after, before, after, r),
        r.action is Respond,
    ensures
        event is Delivered,
        state matches StateView::SendingDirect { proxy } ==> r == responded(proxy, None),
        state matches StateView::SendingPooled { proxy, attempt, .. } ==> 1 <= attempt + 1 <= 5
            && r == responded(proxy, Some((attempt + 1) as u32)),
        state is SendingDirect || state is SendingPooled,
{
}

/// A proxy that has no local port is bound only when the right to make bindings is held and it
/// still has none, and then it has the new port in the pool before anything is sent through it.
pub proof fn law_binding_is_made_on_demand(
    state: StateView,
    event: EventView,
    m: Map<Seq<char>, ProxyView>,
    m_after: Map<Seq<char>, ProxyView>,
    before: Map<u16, reqwest::Client>,
    after: Map<u16, reqwest::Client>,
    r: StepView,
)
    requires
        relay_next(state, event, m, m_after, before, after, r),
    ensures
        r.action matches ActionView::CreateBinding { proxy_id, .. } ==> event is BindingsLocked
            && !(m.contains_key(proxy_id) && m[proxy_id].local_port is Some),
        r.action matches ActionView::SavePort { proxy_id, port } ==> event
            == (EventView::BindingCreated { port }) && (m.contains_key(proxy_id)
            ==> m_after[proxy_id].local_port == Some(port)),
{
}

/// Every client that a relay keeps is made for its local port, those that were kept stay the same,
/// and what is sent is sent with a client that is kept.
pub proof fn law_relay_keeps_clients_fitting(
    state: StateView,
    event: EventView,
    m: Map<Seq<char>, ProxyView>,
    m_after: Map<Seq<char>, ProxyView>,
    before: Map<u16, reqwest::Client>,
    after: Map<u16, reqwest::Client>,
    r: StepView,
)
    requires
        clients_fit(before),
        relay_next(state, event, m, m_after, before, after, r),
    ensures
        clients_fit(after),
        before.submap_of(after),
        r.action matches ActionView::Send { client, .. } ==> exists|port: u16| #[trigger]
            after.contains_pair(port, client),
{
    if r.action is Send {
        match state {
            StateView::Authenticating { url, method, filter } => {
                if let Some(id) = filter.proxy_id {
                    assert(after.contains_pair(m[id].local_port->0, r.action->client));
                } else {
                    let target = TargetView { url: url->0, method };
                    let p = law_random_sends_use_passing_proxies(
                        m,
                        0,
                        filter,
                        target,
                        before,
                        after,
                        r,
                    );
                    assert(after.contains_pair(p.local_port->0, r.action->client));
                }
            },
            StateView::LockingBindings { proxy, .. } => {
                assert(after.contains_pair(m[proxy.id].local_port->0, r.action->client));
            },
            StateView::SavingPort { port, .. } => {
                assert(after.contains_pair(port, r.action->client));
            },
            StateView::RecordingError { attempt, filter, target } => {
                let p = law_random_sends_use_passing_proxies(
                    m,
                    (attempt + 1) as u32,
                    filter,
                    target,
                    before,
                    after,
                    r,
                );
                assert(after.contains_pair(p.local_port->0, r.action->client));
            },
            _ => {},
        }
    }
}

/// An event in the course of a relay, with the pool and the clients before and after it. Between
/// events, other requests may change both.
pub struct Turn {
    pub event: EventView,
    pub pool: Map<Seq<char>, ProxyView>,
    pub pool_after: Map<Seq<char>, ProxyView>,
    pub clients: Map<u16, reqwest::Client>,
    pub clients_after: Map<u16, reqwest::Client>,
}

/// Whether a turn leads from one step to the next.
pub open spec fn leads(from: StepView, turn: Turn, to: StepView) -> bool {
    relay_next(
        from.state,
        turn.event,
        turn.pool,
        turn.pool_after,
        turn.clients,
        turn.clients_after,
        to,
    )
}

/// Whether `steps` are those of a relay, from its start on, with the turns between them.
pub open spec fn is_course(params: RelayParams, steps: Seq<StepView>, turns: Seq<Turn>) -> bool {
    &&& steps.len() == turns.len() + 1
    &&& steps[0] == first_step(params)
    &&& forall|i: int|
        0 <= i < turns.len() ==> leads(#[trigger] steps[i], turns[i], steps[i + 1])
}

/// How many requests are sent in the course of a relay.
pub open spec fn sends_in(steps: Seq<StepView>) -> nat
    decreases steps.len(),
{
    if steps.len() == 0 {
        0
    } else if steps.last().action is Send {
        sends_in(steps.drop_last()) + 1
    } else {
        sends_in(steps.drop_last())
    }
}

/// What is spent up to a step and what is left there make no more than what there was.
proof fn lemma_course(params: RelayParams, steps: Seq<StepView>, turns: Seq<Turn>, k: int)
    requires
        is_course(params, steps, turns),
        0 <= k < steps.len(),
    ensures
        steps[k].state.wf(),
        k + steps_left(steps[k].state) <= steps_left(steps[0].state),
        sends_in(steps.take(k + 1)) + sends_left(steps[k].state) <= sends_left(steps[0].state),
        sends_left(steps[k].state) >= 0,
        steps_left(steps[k].state) >= 0,
    decreases k,
{
    let upto = steps.take(k + 1);
    assert(upto.last() == steps[k]);
    assert(upto.drop_last() =~= steps.take(k));
    if k == 0 {
        assert(sends_in(steps.take(0)) == 0);
    } else {
        lemma_course(params, steps, turns, k - 1);
        let turn = turns[k - 1];
        assert(leads(steps[k - 1], turn, steps[k - 1 + 1]));
        law_relay_comes_to_an_end(
            steps[k - 1].state,
            turn.event,
            turn.pool,
            turn.pool_after,
            turn.clients,
            turn.clients_after,
            steps[k],
        );
        law_relay_sends_are_bounded(
            steps[k - 1].state,
            turn.event,
            turn.pool,
            turn.pool_after,
            turn.clients,
            turn.clients_after,
            steps[k],
        );
    }
}

/// Whatever happens, a relay is answered after at most eleven events, and no more than five
/// requests are sent on its behalf, or one where the client names the proxy.
pub proof fn law_whole_relay_is_bounded(
    params: RelayParams,
    steps: Seq<StepView>,
    turns: Seq<Turn>,
)
    requires
        is_course(params, steps, turns),
    ensures
        turns.len() <= 11,
        sends_in(steps) <= 5,
        params.proxy_id is Some ==> sends_in(steps) <= 1,
        params.api_key is None ==> turns.len() == 0 && sends_in(steps) == 0,
{
    let last = steps.len() - 1;
    lemma_course(params, steps, turns, last);
    assert(steps.take(last + 1) =~= steps);
}

} // verus!
