//! What is seen of values: each thing under its own name.

use crate::error::{AppError, ErrorView};
use crate::fetch::{ProxyEntry, QualityEntry};
use crate::json::json_view;
use crate::proxy::{PoolProxy, ProxyQualityInfo};
use crate::query::{ProxyFilter, ProxyListQuery};
use crate::relay::{ActionView, EventView, RelayAction, RelayEvent, RelayState, RelayStep, RelayTarget, StateView};
use crate::text::opt_text;
use vstd::prelude::*;

verus! {

/// A text that is there is seen as its characters, and one that is not is not seen.
pub proof fn law_optional_text_is_seen(s: Option<String>)
    ensures
        s is None <==> opt_text(s) is None,
        s matches Some(t) ==> opt_text(s) == Some(t@),
{
}

/// A proxy is seen with its own fields.
pub proof fn law_proxy_is_seen(p: PoolProxy)
    ensures
        p@.id == p.id@,
        p@.subscription_id == p.subscription_id@,
        p@.name == p.name@,
        p@.proxy_type == p.proxy_type@,
        p@.server == p.server@,
        p@.port == p.port,
        p@.singbox_outbound == json_view(p.singbox_outbound),
        p@.status == p.status,
        p@.local_port == p.local_port,
        p@.error_count == p.error_count,
        p.quality is None <==> p@.quality is None,
        p.quality matches Some(q) ==> p@.quality == Some(q@),
{
}

/// A quality check is seen with its own fields.
pub proof fn law_quality_is_seen(q: ProxyQualityInfo)
    ensures
        q@.ip_address == opt_text(q.ip_address),
        q@.country == opt_text(q.country),
        q@.ip_type == opt_text(q.ip_type),
        q@.is_residential == q.is_residential,
        q@.chatgpt_accessible == q.chatgpt_accessible,
        q@.google_accessible == q.google_accessible,
        q@.risk_score == q.risk_score,
        q@.risk_level == q.risk_level@,
        q@.checked_at == opt_text(q.checked_at),
        q@.incomplete_retry_count == q.incomplete_retry_count,
{
}

/// An entry of an answer is seen with its own fields.
pub proof fn law_entry_is_seen(e: ProxyEntry)
    ensures
        e@.id == e.id@,
        e@.name == e.name@,
        e@.proxy_type == e.proxy_type@,
        e@.server == e.server@,
        e@.port == e.port,
        e@.local_port == e.local_port,
        e@.status == e.status@,
        e@.error_count == e.error_count,
        e.quality is None <==> e@.quality is None,
        e.quality matches Some(q) ==> e@.quality == Some(q@),
{
}

/// The quality in an entry is seen with its own fields.
pub proof fn law_entry_quality_is_seen(q: QualityEntry)
    ensures
        q@.ip_address == opt_text(q.ip_address),
        q@.country == opt_text(q.country),
        q@.ip_type == opt_text(q.ip_type),
        q@.is_residential == q.is_residential,
        q@.chatgpt == q.chatgpt,
        q@.google == q.google,
        q@.risk_score == q.risk_score,
        q@.risk_level == q.risk_level@,
{
}

/// A filter is seen with its own fields.
pub proof fn law_filter_is_seen(f: ProxyFilter)
    ensures
        f@.chatgpt == f.chatgpt,
        f@.google == f.google,
        f@.residential == f.residential,
        f@.risk_max == f.risk_max,
        f@.country == opt_text(f.country),
        f@.proxy_type == opt_text(f.proxy_type),
        f@.count == f.count,
        f@.proxy_id == opt_text(f.proxy_id),
{
}

/// A list query is seen with its own fields.
pub proof fn law_list_query_is_seen(q: ProxyListQuery)
    ensures
        q@.page == q.page,
        q@.per_page == q.per_page,
        q@.search == opt_text(q.search),
        q@.status == opt_text(q.status),
        q@.proxy_type == opt_text(q.proxy_type),
        q@.quality == opt_text(q.quality),
        q@.sort == opt_text(q.sort),
        q@.dir == opt_text(q.dir),
{
}

/// An error is seen as what it is, with its message.
pub proof fn law_error_is_seen(message: String)
    ensures
        AppError::BadRequest(message)@ == ErrorView::BadRequest(message@),
        AppError::Unauthorized(message)@ == ErrorView::Unauthorized(message@),
        AppError::NotFound(message)@ == ErrorView::NotFound(message@),
        AppError::Internal(message)@ == ErrorView::Internal(message@),
{
}

/// What came of an action is seen as what it is.
pub proof fn law_relay_event_is_seen(event: RelayEvent)
    ensures
        event matches RelayEvent::Authenticated { can_use_relay } ==> event@ == (
        EventView::Authenticated { can_use_relay }),
        event matches RelayEvent::AuthFailed { error } ==> event@ == (EventView::AuthFailed {
            error: error@,
        }),
        event is BindingsLocked ==> event@ is BindingsLocked,
        event matches RelayEvent::BindingCreated { port } ==> event@ == (EventView::BindingCreated {
            port,
        }),
        event matches RelayEvent::BindingFailed { cause } ==> event@ == (EventView::BindingFailed {
            cause: cause@,
        }),
        event is PortSaved ==> event@ is PortSaved,
        event is Delivered ==> event@ is Delivered,
        event matches RelayEvent::SendFailed { cause } ==> event@ == (EventView::SendFailed {
            cause: cause@,
        }),
        event is ErrorRecorded ==> event@ is ErrorRecorded,
{
}

/// What is to be done is seen as what it is, with what it is done to.
pub proof fn law_relay_action_is_seen(action: RelayAction)
    ensures
        action matches RelayAction::Authenticate { api_key } ==> action@ == (
        ActionView::Authenticate { api_key: api_key@ }),
        action is LockBindings ==> action@ is LockBindings,
        action matches RelayAction::CreateBinding { proxy_id, outbound } ==> action@ == (
        ActionView::CreateBinding { proxy_id: proxy_id@, outbound: json_view(outbound) }),
        action matches RelayAction::SavePort { proxy_id, port } ==> action@ == (
        ActionView::SavePort { proxy_id: proxy_id@, port }),
        action matches RelayAction::Send { client, target } ==> action@ is Send
            && action@->client == client && action@->Send_target == target@,
        action matches RelayAction::RecordError { proxy_id } ==> action@ == (
        ActionView::RecordError { proxy_id: proxy_id@ }),
        action matches RelayAction::Respond { proxy, attempt } ==> action@ == (
        ActionView::Respond { proxy: proxy@, attempt }),
        action matches RelayAction::Fail { error } ==> action@ == (ActionView::Fail {
            error: error@,
        }),
{
}

/// What a relay waits for is seen as what it is, with what it waits with.
pub proof fn law_relay_state_is_seen(state: RelayState)
    ensures
        state matches RelayState::Authenticating { url, method, filter } ==> state@ == (
        StateView::Authenticating { url: opt_text(url), method: method@, filter: filter@ }),
        state matches RelayState::LockingBindings { proxy, target } ==> state@ == (
        StateView::LockingBindings { proxy: proxy@, target: target@ }),
        state matches RelayState::CreatingBinding { proxy, target } ==> state@ == (
        StateView::CreatingBinding { proxy: proxy@, target: target@ }),
        state matches RelayState::SavingPort { proxy, port, target } ==> state@ == (
        StateView::SavingPort { proxy: proxy@, port, target: target@ }),
        state matches RelayState::SendingDirect { proxy } ==> state@ == (StateView::SendingDirect {
            proxy: proxy@,
        }),
        state matches RelayState::SendingPooled { proxy, attempt, filter, target } ==> state@ == (
        StateView::SendingPooled { proxy: proxy@, attempt, filter: filter@, target: target@ }),
        state matches RelayState::RecordingDirectError { cause } ==> state@ == (
        StateView::RecordingDirectError { cause: cause@ }),
        state matches RelayState::RecordingError { attempt, filter, target } ==> state@ == (
        StateView::RecordingError { attempt, filter: filter@, target: target@ }),
        state is Finished <==> state@ is Finished,
{
}

/// A step is seen as its state and its action, and a target as its URL and its method.
pub proof fn law_step_and_target_are_seen(step: RelayStep, target: RelayTarget)
    ensures
        step@.state == step.state@,
        step@.action == step.action@,
        target@.url == target.url@,
        target@.method == target.method@,
{
}

} // verus!
