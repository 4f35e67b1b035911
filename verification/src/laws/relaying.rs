//! What a relay does in its whole course, in terms of what the client asks.

use crate::clients::{client_for, client_view, is_client_error};
use crate::error::ErrorView;
use crate::laws::values::{
    law_client_errors_tell_their_cause, law_clients_are_set_up_alike, law_lower_case_is_case_alone,
    same_but_for_case,
};
use crate::pool::{count_where, keyed_by_id};
use crate::proxy::{ProxyStatus, ProxyView};
use crate::query::matches_filter;
use crate::relay::{
    awaits, is_course, law_random_sends_use_passing_proxies, leads, relay_filter, sends_in, ActionView,
    EventView, RelayParams, StateView, StepView, TargetView, Turn,
};
use crate::text::{decimal, opt_text};
use vstd::prelude::*;
use vstd::string::*;

verus! {

/// Whether a target is the one that a client asks for: its URL, with its method or with `GET`.
pub open spec fn is_asked_target(target: TargetView, params: RelayParams) -> bool {
    &&& params.url is Some && target.url == params.url->0@
    &&& params.method is Some ==> target.method == params.method->0@
    &&& params.method is None ==> target.method == "GET"@
}

/// Whether a state is one of a relay for a client who asks with `params`.
spec fn serves(state: StateView, params: RelayParams) -> bool {
    match state {
        StateView::Authenticating { url, method, filter } => {
            &&& params.api_key is Some
            &&& url == opt_text(params.url)
            &&& params.method is Some ==> method == params.method->0@
            &&& params.method is None ==> method == "GET"@
            &&& filter == relay_filter(params)
        },
        StateView::LockingBindings { proxy, target } => {
            opt_text(params.proxy_id) == Some(proxy.id) && is_asked_target(target, params)
        },
        StateView::CreatingBinding { proxy, target } => {
            opt_text(params.proxy_id) == Some(proxy.id) && is_asked_target(target, params)
        },
        StateView::SavingPort { proxy, port, target } => {
            opt_text(params.proxy_id) == Some(proxy.id) && is_asked_target(target, params)
        },
        StateView::SendingDirect { proxy } => opt_text(params.proxy_id) == Some(proxy.id),
        StateView::RecordingDirectError { cause } => params.proxy_id is Some,
        StateView::SendingPooled { proxy, attempt, filter, target } => {
            &&& params.proxy_id is None
            &&& filter == relay_filter(params)
            &&& is_asked_target(target, params)
            &&& attempt < 5
        },
        StateView::RecordingError { attempt, filter, target } => {
            &&& params.proxy_id is None
            &&& filter == relay_filter(params)
            &&& is_asked_target(target, params)
            &&& attempt < 5
        },
        StateView::Finished => true,
    }
}

/// Whether an action is the one that leads out of a state.
spec fn fits_state(action: ActionView, state: StateView) -> bool {
    match state {
        StateView::Authenticating { .. } => action is Authenticate,
        StateView::LockingBindings { .. } => action is LockBindings,
        StateView::CreatingBinding { .. } => action is CreateBinding,
        StateView::SavingPort { .. } => action is SavePort,
        StateView::SendingDirect { .. } => action is Send,
        StateView::RecordingDirectError { .. } => action is RecordError,
        StateView::SendingPooled { .. } => action is Send,
        StateView::RecordingError { .. } => action is RecordError,
        StateView::Finished => action is Respond || action is Fail,
    }
}

/// How many requests were sent on the way to a state that is not the last.
spec fn sent_before(state: StateView) -> int {
    match state {
        StateView::Authenticating { .. } => 0,
        StateView::LockingBindings { .. } => 0,
        StateView::CreatingBinding { .. } => 0,
        StateView::SavingPort { .. } => 0,
        StateView::SendingDirect { .. } => 1,
        StateView::RecordingDirectError { .. } => 1,
        StateView::SendingPooled { attempt, .. } => attempt + 1,
        StateView::RecordingError { attempt, .. } => attempt + 1,
        StateView::Finished => 0,
    }
}

/// Whether the pools that a relay sees have every proxy under its id.
pub open spec fn pools_are_keyed(turns: Seq<Turn>) -> bool {
    forall|i: int| 0 <= i < turns.len() ==> keyed_by_id((#[trigger] turns[i]).pool)
}

/// A step of a relay leads to one that serves the same client.
proof fn lemma_step(params: RelayParams, from: StepView, turn: Turn, to: StepView)
    requires
        keyed_by_id(turn.pool),
        serves(from.state, params),
        leads(from, turn, to),
    ensures
        serves(to.state, params),
        fits_state(to.action, to.state),
        to.state !is Authenticating,
        to.state !is Finished ==> sent_before(to.state) == sent_before(from.state) + if to.action is Send {
            1int
        } else {
            0int
        },
{
}

/// What holds at every step of a relay.
proof fn lemma_course_serves(params: RelayParams, steps: Seq<StepView>, turns: Seq<Turn>, k: int)
    requires
        is_course(params, steps, turns),
        pools_are_keyed(turns),
        0 <= k < steps.len(),
    ensures
        serves(steps[k].state, params),
        fits_state(steps[k].action, steps[k].state),
        steps[k].state !is Finished ==> sends_in(steps.take(k + 1)) == sent_before(steps[k].state),
        k > 0 ==> steps[k].state !is Authenticating,
        k > 0 ==> leads(steps[k - 1], turns[k - 1], steps[k]) && keyed_by_id(turns[k - 1].pool)
            && serves(steps[k - 1].state, params) && steps[k - 1].state !is Finished
            && fits_state(steps[k - 1].action, steps[k - 1].state) && sends_in(steps.take(k))
            == sent_before(steps[k - 1].state),
    decreases k,
{
    let upto = steps.take(k + 1);
    assert(upto.last() == steps[k]);
    assert(upto.drop_last() =~= steps.take(k));
    if k == 0 {
        assert(sends_in(steps.take(0)) == 0);
    } else {
        lemma_course_serves(params, steps, turns, k - 1);
        assert(leads(steps[k - 1], turns[k - 1], steps[k - 1 + 1]));
        assert(keyed_by_id(turns[k - 1].pool));
        lemma_step(params, steps[k - 1], turns[k - 1], steps[k]);
    }
}

/// The proxy that an attempt of a relay is made with.
proof fn lemma_tried_proxy(from: StepView, turn: Turn, to: StepView) -> (p: ProxyView)
    requires
        to.state is SendingPooled,
        leads(from, turn, to),
    ensures
        from.state is Authenticating || from.state is RecordingError,
        to.state->SendingPooled_proxy == p,
        turn.pool.contains_pair(p.id, p),
        matches_filter(p, to.state->SendingPooled_filter),
        p.local_port is Some,
        to.action is Send,
        to.action->Send_target == to.state->SendingPooled_target,
        client_view(to.action->client) == client_for(p.local_port->0),
        turn.clients.contains_key(p.local_port->0) ==> to.action->client
            == turn.clients[p.local_port->0],
        turn.clients_after == turn.clients.insert(p.local_port->0, to.action->client),
{
    match from.state {
        StateView::Authenticating { url, method, filter } => law_random_sends_use_passing_proxies(
            turn.pool,
            0,
            filter,
            TargetView { url: url->0, method },
            turn.clients,
            turn.clients_after,
            to,
        ),
        StateView::RecordingError { attempt, filter, target } => law_random_sends_use_passing_proxies(
            turn.pool,
            (attempt + 1) as u32,
            filter,
            target,
            turn.clients,
            turn.clients_after,
            to,
        ),
        _ => to.state->SendingPooled_proxy,
    }
}

/// Where the client names no proxy, every request is sent through a valid proxy of the pool that
/// has a local port and is what the client asks for: reaches ChatGPT, reaches Google, is
/// residential, has at most the risk, is in the country up to ASCII case, is of the type. It goes
/// to the URL that the client gives, with its method or with `GET`, by way of the proxy's port.
pub proof fn law_relay_goes_through_what_was_asked_for(
    params: RelayParams,
    steps: Seq<StepView>,
    turns: Seq<Turn>,
    k: int,
)
    requires
        is_course(params, steps, turns),
        pools_are_keyed(turns),
        params.proxy_id is None,
        0 <= k < steps.len(),
        steps[k].action is Send,
    ensures
        k > 0,
        steps[k].state is SendingPooled,
        ({
            let p = steps[k].state->SendingPooled_proxy;
            &&& turns[k - 1].pool.contains_key(p.id) && turns[k - 1].pool[p.id] == p
            &&& p.status == ProxyStatus::Valid
            &&& p.local_port is Some
            &&& params.chatgpt ==> p.quality is Some && p.quality->0.chatgpt_accessible
            &&& params.google ==> p.quality is Some && p.quality->0.google_accessible
            &&& params.residential ==> p.quality is Some && p.quality->0.is_residential
            &&& params.risk_max matches Some(max) ==> p.quality is Some
                && p.quality->0.risk_score.at_most(max)
            &&& params.country matches Some(c) ==> p.quality is Some && p.quality->0.country is Some
                && same_but_for_case(p.quality->0.country->0, c@)
            &&& params.proxy_type matches Some(t) ==> p.proxy_type == t@
            &&& client_view(steps[k].action->client).proxy == "http://127.0.0.1:"@ + decimal(
                p.local_port->0 as nat,
            )
            &&& turns[k - 1].clients.contains_key(p.local_port->0) ==> steps[k].action->client
                == turns[k - 1].clients[p.local_port->0]
            &&& turns[k - 1].clients_after.contains_pair(p.local_port->0, steps[k].action->client)
        }),
        params.url is Some && steps[k].action->Send_target.url == params.url->0@,
        params.method is Some ==> steps[k].action->Send_target.method == params.method->0@,
        params.method is None ==> steps[k].action->Send_target.method == "GET"@,
{
    lemma_course_serves(params, steps, turns, k);
    assert(k > 0);
    let p = lemma_tried_proxy(steps[k - 1], turns[k - 1], steps[k]);
    law_clients_are_set_up_alike(p.local_port->0);
    if params.country is Some {
        law_lower_case_is_case_alone(p.quality->0.country->0, params.country->0@);
    }
}

/// Whether a relay ends because no client can be made for some local port.
pub open spec fn ends_for_want_of_a_client(step: StepView) -> bool {
    &&& step.state is Finished
    &&& step.action is Fail
    &&& exists|cause: Seq<char>|
        {
            ||| step.action->error == ErrorView::Internal("Proxy config error: "@ + cause)
            ||| step.action->error == ErrorView::Internal(#[trigger] ("Client build error: "@ + cause))
        }
}

proof fn lemma_client_error(port: u16, step: StepView)
    requires
        step.state is Finished,
        step.action is Fail,
        is_client_error(port, step.action->error),
    ensures
        ends_for_want_of_a_client(step),
{
    let e = step.action->error;
    let refusal = crate::clients::proxy_refusal(crate::clients::local_proxy_url(port));
    if let Some(cause) = refusal {
        law_client_errors_tell_their_cause(cause);
        let built = "Client build error: "@ + cause;
        assert(e == ErrorView::Internal("Proxy config error: "@ + cause));
    } else {
        let cause = choose|cause: Seq<char>| e == #[trigger] crate::clients::client_build_error(cause);
        law_client_errors_tell_their_cause(cause);
        let built = "Client build error: "@ + cause;
        assert(e == ErrorView::Internal(built));
    }
}

/// Whether a relay without a named proxy is about to make an attempt: the client was let in just
/// now, or an attempt has failed and there were fewer than five.
pub open spec fn is_about_to_try(steps: Seq<StepView>, turns: Seq<Turn>, k: int) -> bool {
    ||| k == 0 && turns[k].event == (EventView::Authenticated { can_use_relay: true })
    ||| steps[k].action is RecordError && sends_in(steps.take(k + 1)) < 5
}

/// An attempt sends a request, unless no client can be made. Where the pool has no proxy that is
/// what the client asks for, there is none to send through, and the client is told so.
pub proof fn law_attempt_sends_where_it_can(
    params: RelayParams,
    steps: Seq<StepView>,
    turns: Seq<Turn>,
    k: int,
)
    requires
        is_course(params, steps, turns),
        pools_are_keyed(turns),
        params.proxy_id is None,
        params.url is Some,
        0 <= k < turns.len(),
        is_about_to_try(steps, turns, k),
    ensures
        ({
            ||| steps[k + 1].action is Send
            ||| ends_for_want_of_a_client(steps[k + 1])
            ||| steps[k + 1].action == (ActionView::Fail {
                error: ErrorView::NotFound("No proxies match the given filters"@),
            })
        }),
        steps[k + 1].action is Send ==> sends_in(steps.take(k + 2)) == sends_in(steps.take(k + 1)) + 1,
{
    lemma_course_serves(params, steps, turns, k + 1);
    let to = steps[k + 1];
    let turn = turns[k];
    let pred = |p: ProxyView| matches_filter(p, relay_filter(params));
    if count_where(turn.pool, pred) != 0 && to.action !is Send {
        let p = choose|p: ProxyView|
            {
                &&& #[trigger] turn.pool.contains_pair(p.id, p)
                &&& matches_filter(p, relay_filter(params))
                &&& is_client_error(p.local_port->0, to.action->error)
            };
        lemma_client_error(p.local_port->0, to);
    }
    assert(steps.take(k + 2).drop_last() =~= steps.take(k + 1));
}

/// While the pool has a valid proxy with a local port that is all the client asks for, an attempt
/// sends a request, unless no client can be made.
pub proof fn law_attempt_finds_a_proxy_that_fits(
    params: RelayParams,
    steps: Seq<StepView>,
    turns: Seq<Turn>,
    k: int,
    id: Seq<char>,
)
    requires
        is_course(params, steps, turns),
        pools_are_keyed(turns),
        params.proxy_id is None,
        params.url is Some,
        0 <= k < turns.len(),
        is_about_to_try(steps, turns, k),
        turns[k].pool.contains_key(id),
        ({
            let p = turns[k].pool[id];
            &&& p.status == ProxyStatus::Valid
            &&& p.local_port is Some
            &&& params.chatgpt ==> p.quality is Some && p.quality->0.chatgpt_accessible
            &&& params.google ==> p.quality is Some && p.quality->0.google_accessible
            &&& params.residential ==> p.quality is Some && p.quality->0.is_residential
            &&& params.risk_max matches Some(max) ==> p.quality is Some
                && p.quality->0.risk_score.at_most(max)
            &&& params.country matches Some(c) ==> p.quality is Some && p.quality->0.country is Some
                && same_but_for_case(p.quality->0.country->0, c@)
            &&& params.proxy_type matches Some(t) ==> p.proxy_type == t@
        }),
    ensures
        steps[k + 1].action is Send || ends_for_want_of_a_client(steps[k + 1]),
{
    lemma_course_serves(params, steps, turns, k + 1);
    let p = turns[k].pool[id];
    if params.country is Some {
        law_lower_case_is_case_alone(p.quality->0.country->0, params.country->0@);
    }
    let m = turns[k].pool;
    let pred = |p: ProxyView| matches_filter(p, relay_filter(params));
    let fitting = m.dom().filter(|key: Seq<char>| pred(m[key]));
    assert(fitting.contains(id));
    assert(fitting.finite());
    assert(count_where(m, pred) != 0) by {
        if fitting.len() == 0 {
            vstd::set_lib::lemma_set_empty_equivalency_len(fitting);
        }
    }
    let to = steps[k + 1];
    if to.action !is Send {
        let q = choose|q: ProxyView|
            {
                &&& #[trigger] m.contains_pair(q.id, q)
                &&& matches_filter(q, relay_filter(params))
                &&& is_client_error(q.local_port->0, to.action->error)
            };
        lemma_client_error(q.local_port->0, to);
    }
}

/// A relay without a named proxy gives up when five requests have failed, and says so.
pub proof fn law_relay_gives_up_after_five_failures(
    params: RelayParams,
    steps: Seq<StepView>,
    turns: Seq<Turn>,
    k: int,
)
    requires
        is_course(params, steps, turns),
        pools_are_keyed(turns),
        params.proxy_id is None,
        0 <= k < turns.len(),
        steps[k].action is RecordError,
    ensures
        1 <= sends_in(steps.take(k + 1)) <= 5,
        sends_in(steps.take(k + 1)) == 5 ==> steps[k + 1].action == (ActionView::Fail {
            error: ErrorView::Internal("All 5 relay attempts failed"@),
        }),
{
    lemma_course_serves(params, steps, turns, k + 1);
    reveal_strlit("All 5 relay attempts failed");
    reveal_strlit("All ");
    reveal_strlit(" relay attempts failed");
    assert(decimal(5) =~= seq!['5']);
    assert("All "@ + decimal(5) + " relay attempts failed"@ =~= "All 5 relay attempts failed"@);
}

/// A request that fails is stored as a failure of the proxy that it was sent through, which has one
/// error more in the pool and is otherwise as it was, and no other proxy changes.
pub proof fn law_failure_is_stored_for_the_proxy_that_failed(
    params: RelayParams,
    steps: Seq<StepView>,
    turns: Seq<Turn>,
    k: int,
    id: Seq<char>,
)
    requires
        is_course(params, steps, turns),
        pools_are_keyed(turns),
        0 <= k < turns.len(),
        turns[k].event is SendFailed,
        steps[k].state matches StateView::SendingPooled { proxy, .. } ==> proxy.id == id,
        steps[k].state matches StateView::SendingDirect { proxy } ==> proxy.id == id,
    ensures
        steps[k].action is Send,
        steps[k + 1].action == (ActionView::RecordError { proxy_id: id }),
        turns[k].pool_after.dom() == turns[k].pool.dom(),
        turns[k].pool.contains_key(id) ==> {
            let p = turns[k].pool[id];
            let q = turns[k].pool_after[id];
            &&& p.error_count < u32::MAX ==> q.error_count == p.error_count + 1
            &&& q.id == p.id && q.subscription_id == p.subscription_id && q.name == p.name
            &&& q.proxy_type == p.proxy_type && q.server == p.server && q.port == p.port
            &&& q.singbox_outbound == p.singbox_outbound && q.local_port == p.local_port
            &&& q.status == p.status && q.quality == p.quality
        },
        forall|other: Seq<char>| #[trigger]
            turns[k].pool.contains_key(other) && other != id ==> turns[k].pool_after[other]
                == turns[k].pool[other],
{
    lemma_course_serves(params, steps, turns, k + 1);
    assert(turns[k].pool_after.dom() =~= turns[k].pool.dom());
}

/// A new local port is stored for the proxy that the client names, which has it in the pool and is
/// otherwise as it was, and no other proxy changes.
pub proof fn law_new_port_is_stored_for_the_named_proxy(
    params: RelayParams,
    steps: Seq<StepView>,
    turns: Seq<Turn>,
    k: int,
    port: u16,
)
    requires
        is_course(params, steps, turns),
        pools_are_keyed(turns),
        0 <= k < turns.len(),
        turns[k].event == (EventView::BindingCreated { port }),
    ensures
        params.proxy_id is Some,
        steps[k].action is CreateBinding,
        ({
            let id = params.proxy_id->0@;
            &&& steps[k].action->CreateBinding_proxy_id == id
            &&& steps[k + 1].action == (ActionView::SavePort { proxy_id: id, port })
            &&& turns[k].pool_after.dom() == turns[k].pool.dom()
            &&& turns[k].pool.contains_key(id) ==> {
                let p = turns[k].pool[id];
                let q = turns[k].pool_after[id];
                &&& q.local_port == Some(port)
                &&& q.id == p.id && q.subscription_id == p.subscription_id && q.name == p.name
                &&& q.proxy_type == p.proxy_type && q.server == p.server && q.port == p.port
                &&& q.singbox_outbound == p.singbox_outbound && q.error_count == p.error_count
                &&& q.status == p.status && q.quality == p.quality
            }
            &&& forall|other: Seq<char>| #[trigger]
                turns[k].pool.contains_key(other) && other != id ==> turns[k].pool_after[other]
                    == turns[k].pool[other]
        }),
{
    lemma_course_serves(params, steps, turns, k + 1);
    assert(turns[k].pool_after.dom() =~= turns[k].pool.dom());
    if k > 0 {
        lemma_course_serves(params, steps, turns, k);
    }
}

/// Nothing but a failed request and a new local port changes the pool.
pub proof fn law_other_events_leave_the_pool(
    params: RelayParams,
    steps: Seq<StepView>,
    turns: Seq<Turn>,
    k: int,
)
    requires
        is_course(params, steps, turns),
        0 <= k < turns.len(),
        turns[k].event !is SendFailed,
        turns[k].event !is BindingCreated,
    ensures
        turns[k].pool_after == turns[k].pool,
{
    assert(leads(steps[k], turns[k], steps[k + 1]));
}

/// The proxy of a state that waits for the named proxy.
spec fn named_proxy(state: StateView) -> ProxyView {
    match state {
        StateView::LockingBindings { proxy, .. } => proxy,
        StateView::CreatingBinding { proxy, .. } => proxy,
        StateView::SavingPort { proxy, .. } => proxy,
        StateView::SendingDirect { proxy } => proxy,
        _ => arbitrary(),
    }
}

/// The named proxy is the one of the pool when the client is let in.
proof fn lemma_named_proxy(params: RelayParams, steps: Seq<StepView>, turns: Seq<Turn>, k: int)
    requires
        is_course(params, steps, turns),
        pools_are_keyed(turns),
        0 <= k < steps.len(),
        steps[k].state is LockingBindings || steps[k].state is CreatingBinding || steps[k].state is SavingPort
            || steps[k].state is SendingDirect,
    ensures
        k > 0,
        params.proxy_id is Some,
        turns[0].pool.contains_key(params.proxy_id->0@),
        named_proxy(steps[k].state) == turns[0].pool[params.proxy_id->0@],
    decreases k,
{
    lemma_course_serves(params, steps, turns, k);
    assert(k > 0);
    if steps[k - 1].state is Authenticating {
        if k > 1 {
            lemma_course_serves(params, steps, turns, k - 1);
        }
        assert(k == 1);
    } else {
        lemma_named_proxy(params, steps, turns, k - 1);
    }
}

/// Where the client names a proxy, every request is sent through that proxy: by the local port that
/// the pool has for it, or by the one that was bound for it just before. It goes to the URL that
/// the client gives, with its method or with `GET`.
pub proof fn law_relay_goes_through_the_named_proxy(
    params: RelayParams,
    steps: Seq<StepView>,
    turns: Seq<Turn>,
    k: int,
)
    requires
        is_course(params, steps, turns),
        pools_are_keyed(turns),
        params.proxy_id is Some,
        0 <= k < steps.len(),
        steps[k].action is Send,
    ensures
        k > 0,
        steps[k].state is SendingDirect,
        ({
            let id = params.proxy_id->0@;
            let proxy = steps[k].state->SendingDirect_proxy;
            let through = client_view(steps[k].action->client).proxy;
            &&& turns[0].pool.contains_key(id)
            &&& proxy == turns[0].pool[id]
            &&& proxy.id == id
            &&& {
                ||| turns[k - 1].pool.contains_key(id) && turns[k - 1].pool[id].local_port is Some
                    && through == "http://127.0.0.1:"@ + decimal(
                    turns[k - 1].pool[id].local_port->0 as nat,
                )
                ||| k >= 2 && turns[k - 2].event is BindingCreated && through
                    == "http://127.0.0.1:"@ + decimal(turns[k - 2].event->port as nat)
            }
        }),
        params.url is Some && steps[k].action->Send_target.url == params.url->0@,
        params.method is Some ==> steps[k].action->Send_target.method == params.method->0@,
        params.method is None ==> steps[k].action->Send_target.method == "GET"@,
        sends_in(steps.take(k + 1)) == 1,
{
    lemma_course_serves(params, steps, turns, k);
    assert(k > 0);
    lemma_named_proxy(params, steps, turns, k);
    let id = params.proxy_id->0@;
    let m = turns[k - 1].pool;
    if m.contains_key(id) && m[id].local_port is Some {
        law_clients_are_set_up_alike(m[id].local_port->0);
    }
    if steps[k - 1].state is SavingPort {
        law_clients_are_set_up_alike(steps[k - 1].state->SavingPort_port);
        lemma_course_serves(params, steps, turns, k - 1);
        assert(k >= 2);
        assert(leads(steps[k - 2], turns[k - 2], steps[k - 1]));
        assert(turns[k - 2].event is BindingCreated);
    }
}

/// How a relay through a named proxy goes on: a proxy that has no local port is bound under the
/// lock, with its own outbound, unless it has a port by then; a binding that fails and a request
/// that fails are told with their causes.
pub proof fn law_named_proxy_is_bound_on_demand(
    params: RelayParams,
    steps: Seq<StepView>,
    turns: Seq<Turn>,
    k: int,
)
    requires
        is_course(params, steps, turns),
        pools_are_keyed(turns),
        params.proxy_id is Some,
        0 < k < turns.len(),
    ensures
        ({
            let id = params.proxy_id->0@;
            let m = turns[k].pool;
            let to = steps[k + 1];
            let is_bound = m.contains_key(id) && m[id].local_port is Some;
            &&& steps[k].action is LockBindings && is_bound ==> to.action is Send
                || ends_for_want_of_a_client(to)
            &&& steps[k].action is LockBindings && !is_bound ==> to.action == (
            ActionView::CreateBinding {
                proxy_id: id,
                outbound: turns[0].pool[id].singbox_outbound,
            })
            &&& steps[k].action is CreateBinding ==> (turns[k].event matches EventView::BindingFailed {
                cause,
            } ==> to.action == (ActionView::Fail {
                error: ErrorView::Internal("Failed to create binding: "@ + cause),
            }))
            &&& steps[k].action is SavePort ==> to.action is Send || ends_for_want_of_a_client(to)
            &&& steps[k].action is RecordError ==> turns[k - 1].event is SendFailed && to.action == (
            ActionView::Fail {
                error: ErrorView::Internal("Relay failed: "@ + turns[k - 1].event->SendFailed_cause),
            })
        }),
{
    let id = params.proxy_id->0@;
    let m = turns[k].pool;
    let to = steps[k + 1];
    lemma_course_serves(params, steps, turns, k);
    lemma_course_serves(params, steps, turns, k + 1);
    if steps[k].state is LockingBindings {
        lemma_named_proxy(params, steps, turns, k);
        if to.action is Fail {
            lemma_client_error(m[id].local_port->0, to);
        }
    }
    if steps[k].state is SavingPort && to.action is Fail {
        lemma_client_error(steps[k].state->SavingPort_port, to);
    }
}

/// What becomes of a client at the door: without an API key it is turned away at once; else the key
/// is looked up, and only with one whose user may relay, and with a URL, does anything else happen.
pub proof fn law_relay_begins_with_who_asks(
    params: RelayParams,
    steps: Seq<StepView>,
    turns: Seq<Turn>,
)
    requires
        is_course(params, steps, turns),
    ensures
        params.api_key is None ==> turns.len() == 0 && steps[0].action == (ActionView::Fail {
            error: ErrorView::BadRequest("Relay requires 'api_key' query parameter"@),
        }),
        params.api_key matches Some(key) ==> steps[0].action == (ActionView::Authenticate {
            api_key: key@,
        }),
        turns.len() > 0 ==> {
            let event = turns[0].event;
            let let_in = event == (EventView::Authenticated { can_use_relay: true });
            &&& event is Authenticated || event is AuthFailed
            &&& event matches EventView::AuthFailed { error } ==> steps[1].action == (
            ActionView::Fail { error })
            &&& event == (EventView::Authenticated { can_use_relay: false }) ==> steps[1].action == (
            ActionView::Fail {
                error: ErrorView::Unauthorized("Relay endpoint is disabled for this user"@),
            })
            &&& let_in && params.url is None ==> steps[1].action == (ActionView::Fail {
                error: ErrorView::BadRequest("Missing 'url' parameter"@),
            })
            &&& !let_in || params.url is None ==> turns.len() == 1
        },
{
    if turns.len() > 0 {
        assert(leads(steps[0], turns[0], steps[1]));
    }
    if turns.len() > 1 {
        assert(leads(steps[1], turns[1], steps[2]));
    }
}

/// What becomes of a client that is let in and names a proxy: where the pool does not have it, the
/// client is told so; where it has a local port, a request is sent, unless no client can be made;
/// where it has none, the relay waits for the right to bind it.
pub proof fn law_named_proxy_is_looked_up(
    params: RelayParams,
    steps: Seq<StepView>,
    turns: Seq<Turn>,
)
    requires
        is_course(params, steps, turns),
        pools_are_keyed(turns),
        params.proxy_id is Some,
        params.url is Some,
        turns.len() > 0,
        turns[0].event == (EventView::Authenticated { can_use_relay: true }),
    ensures
        ({
            let id = params.proxy_id->0@;
            let m = turns[0].pool;
            &&& !m.contains_key(id) ==> steps[1].action == (ActionView::Fail {
                error: ErrorView::NotFound("Specified proxy not found"@),
            })
            &&& m.contains_key(id) && m[id].local_port is Some ==> steps[1].action is Send
                || ends_for_want_of_a_client(steps[1])
            &&& m.contains_key(id) && m[id].local_port is None ==> steps[1].action is LockBindings
        }),
{
    lemma_course_serves(params, steps, turns, 1);
    let m = turns[0].pool;
    let id = params.proxy_id->0@;
    if m.contains_key(id) && m[id].local_port is Some && steps[1].action is Fail {
        lemma_client_error(m[id].local_port->0, steps[1]);
    }
}

/// A relay answers with what the target says exactly when the target has answered the last request,
/// and tells of the proxy that this request was sent through and, where the proxy was not named, of
/// how many requests were sent.
pub proof fn law_answer_tells_what_was_sent(
    params: RelayParams,
    steps: Seq<StepView>,
    turns: Seq<Turn>,
    k: int,
)
    requires
        is_course(params, steps, turns),
        pools_are_keyed(turns),
        0 < k < steps.len(),
    ensures
        steps[k].action is Respond <==> turns[k - 1].event is Delivered,
        steps[k].action is Respond ==> {
            let before = steps[k - 1];
            &&& before.action is Send
            &&& before.state is SendingPooled ==> steps[k].action->Respond_proxy
                == before.state->SendingPooled_proxy
            &&& before.state is SendingDirect ==> steps[k].action->Respond_proxy
                == before.state->SendingDirect_proxy
            &&& params.proxy_id is Some ==> before.state is SendingDirect && steps[k].action->attempt is None
            &&& params.proxy_id is None ==> before.state is SendingPooled && steps[k].action->attempt is Some
                && steps[k].action->attempt->0 == sends_in(steps.take(k))
        },
{
    lemma_course_serves(params, steps, turns, k);
}

/// Whatever comes of an action, the relay can go on with it, and with nothing else; once the client
/// is answered, nothing more is awaited.
pub proof fn law_every_outcome_is_awaited(
    params: RelayParams,
    steps: Seq<StepView>,
    turns: Seq<Turn>,
    k: int,
    event: EventView,
)
    requires
        is_course(params, steps, turns),
        pools_are_keyed(turns),
        0 <= k < steps.len(),
    ensures
        steps[k].action is Authenticate ==> (awaits(steps[k].state, event) <==> event is Authenticated
            || event is AuthFailed),
        steps[k].action is LockBindings ==> (awaits(steps[k].state, event) <==> event is BindingsLocked),
        steps[k].action is CreateBinding ==> (awaits(steps[k].state, event) <==> event is BindingCreated
            || event is BindingFailed),
        steps[k].action is SavePort ==> (awaits(steps[k].state, event) <==> event is PortSaved),
        steps[k].action is Send ==> (awaits(steps[k].state, event) <==> event is Delivered
            || event is SendFailed),
        steps[k].action is RecordError ==> (awaits(steps[k].state, event) <==> event is ErrorRecorded),
        steps[k].action is Respond || steps[k].action is Fail ==> !awaits(steps[k].state, event),
{
    lemma_course_serves(params, steps, turns, k);
}

} // verus!
