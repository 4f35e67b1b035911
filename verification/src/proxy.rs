//! Proxies of the pool and the rows that they are loaded from.

use crate::json::{copy_json, json_view, parse_retry_count, retry_count_in, JsonView};
use crate::risk::RiskScore;
use crate::text::opt_text;
use vstd::prelude::*;

verus! {

/// What validation has found of a proxy.
#[derive(Debug, Clone, Copy, PartialEq, Eq, Structural)]
pub enum ProxyStatus {
    Untested,
    Valid,
    Invalid,
}

impl ProxyStatus {
    /// Where the status stands when proxies are sorted by status.
    pub open spec fn weight(self) -> u8 {
        match self {
            ProxyStatus::Valid => 0,
            ProxyStatus::Untested => 1,
            ProxyStatus::Invalid => 2,
        }
    }

    /// The status as the API writes it.
    pub open spec fn name(self) -> Seq<char> {
        match self {
            ProxyStatus::Untested => "untested"@,
            ProxyStatus::Valid => "valid"@,
            ProxyStatus::Invalid => "invalid"@,
        }
    }

    /// Sort weight: Valid=0, Untested=1, Invalid=2 (lower = higher priority).
    pub fn sort_weight(self) -> (r: u8)
        ensures
            r == self.weight(),
    {
        match self {
            ProxyStatus::Valid => 0,
            ProxyStatus::Untested => 1,
            ProxyStatus::Invalid => 2,
        }
    }

    /// The status as the API writes it.
    pub fn as_str(self) -> (r: &'static str)
        ensures
            r@ == self.name(),
    {
        match self {
            ProxyStatus::Untested => "untested",
            ProxyStatus::Valid => "valid",
            ProxyStatus::Invalid => "invalid",
        }
    }
}

/// What a quality check has found of a proxy.
#[derive(Debug)]
pub struct ProxyQualityInfo {
    pub ip_address: Option<String>,
    pub country: Option<String>,
    pub ip_type: Option<String>,
    pub is_residential: bool,
    pub chatgpt_accessible: bool,
    pub google_accessible: bool,
    pub risk_score: RiskScore,
    pub risk_level: String,
    pub checked_at: Option<String>,
    pub incomplete_retry_count: u8,
}

/// [`ProxyQualityInfo`] with its texts as sequences of characters.
pub struct QualityView {
    pub ip_address: Option<Seq<char>>,
    pub country: Option<Seq<char>>,
    pub ip_type: Option<Seq<char>>,
    pub is_residential: bool,
    pub chatgpt_accessible: bool,
    pub google_accessible: bool,
    pub risk_score: RiskScore,
    pub risk_level: Seq<char>,
    pub checked_at: Option<Seq<char>>,
    pub incomplete_retry_count: u8,
}

impl View for ProxyQualityInfo {
    type V = QualityView;

    open spec fn view(&self) -> QualityView {
        QualityView {
            ip_address: opt_text(self.ip_address),
            country: opt_text(self.country),
            ip_type: opt_text(self.ip_type),
            is_residential: self.is_residential,
            chatgpt_accessible: self.chatgpt_accessible,
            google_accessible: self.google_accessible,
            risk_score: self.risk_score,
            risk_level: self.risk_level@,
            checked_at: opt_text(self.checked_at),
            incomplete_retry_count: self.incomplete_retry_count,
        }
    }
}

/// Copies an optional text.
pub fn copy_text(s: &Option<String>) -> (r: Option<String>)
    ensures
        r == *s,
{
    match s {
        Some(t) => Some(t.clone()),
        None => None,
    }
}

impl Clone for ProxyQualityInfo {
    fn clone(&self) -> (r: Self)
        ensures
            r == *self,
    {
        ProxyQualityInfo {
            ip_address: copy_text(&self.ip_address),
            country: copy_text(&self.country),
            ip_type: copy_text(&self.ip_type),
            is_residential: self.is_residential,
            chatgpt_accessible: self.chatgpt_accessible,
            google_accessible: self.google_accessible,
            risk_score: self.risk_score,
            risk_level: self.risk_level.clone(),
            checked_at: copy_text(&self.checked_at),
            incomplete_retry_count: self.incomplete_retry_count,
        }
    }
}

/// A stored quality check of a proxy.
#[derive(Debug)]
pub struct ProxyQuality {
    pub proxy_id: String,
    pub ip_address: Option<String>,
    pub country: Option<String>,
    pub ip_type: Option<String>,
    pub is_residential: bool,
    pub chatgpt_accessible: bool,
    pub google_accessible: bool,
    pub risk_score: RiskScore,
    pub risk_level: String,
    pub extra_json: Option<String>,
    pub checked_at: String,
}

impl Clone for ProxyQuality {
    fn clone(&self) -> (r: Self)
        ensures
            r == *self,
    {
        ProxyQuality {
            proxy_id: self.proxy_id.clone(),
            ip_address: copy_text(&self.ip_address),
            country: copy_text(&self.country),
            ip_type: copy_text(&self.ip_type),
            is_residential: self.is_residential,
            chatgpt_accessible: self.chatgpt_accessible,
            google_accessible: self.google_accessible,
            risk_score: self.risk_score,
            risk_level: self.risk_level.clone(),
            extra_json: copy_text(&self.extra_json),
            checked_at: self.checked_at.clone(),
        }
    }
}

impl From<ProxyQuality> for ProxyQualityInfo {
    fn from(q: ProxyQuality) -> (r: Self) {
        let incomplete_retry_count: u8 = parse_retry_count(&q.extra_json);
        ProxyQualityInfo {
            ip_address: q.ip_address,
            country: q.country,
            ip_type: q.ip_type,
            is_residential: q.is_residential,
            chatgpt_accessible: q.chatgpt_accessible,
            google_accessible: q.google_accessible,
            risk_score: q.risk_score,
            risk_level: q.risk_level,
            checked_at: Some(q.checked_at),
            incomplete_retry_count,
        }
    }
}

impl vstd::std_specs::convert::FromSpecImpl<ProxyQuality> for ProxyQualityInfo {
    open spec fn obeys_from_spec() -> bool {
        true
    }

    open spec fn from_spec(q: ProxyQuality) -> Self {
        ProxyQualityInfo {
            ip_address: q.ip_address,
            country: q.country,
            ip_type: q.ip_type,
            is_residential: q.is_residential,
            chatgpt_accessible: q.chatgpt_accessible,
            google_accessible: q.google_accessible,
            risk_score: q.risk_score,
            risk_level: q.risk_level,
            checked_at: Some(q.checked_at),
            incomplete_retry_count: retry_count_in(opt_text(q.extra_json)),
        }
    }
}

/// A proxy of the pool.
#[derive(Debug)]
pub struct PoolProxy {
    pub id: String,
    pub subscription_id: String,
    pub name: String,
    pub proxy_type: String,
    pub server: String,
    pub port: u16,
    pub singbox_outbound: serde_json::Value,
    pub status: ProxyStatus,
    pub local_port: Option<u16>,
    pub error_count: u32,
    pub quality: Option<ProxyQualityInfo>,
}

/// [`PoolProxy`] with its texts as sequences of characters and its outbound as what the document
/// holds.
pub struct ProxyView {
    pub id: Seq<char>,
    pub subscription_id: Seq<char>,
    pub name: Seq<char>,
    pub proxy_type: Seq<char>,
    pub server: Seq<char>,
    pub port: u16,
    pub singbox_outbound: JsonView,
    pub status: ProxyStatus,
    pub local_port: Option<u16>,
    pub error_count: u32,
    pub quality: Option<QualityView>,
}

/// The view of an optional quality check.
pub open spec fn opt_quality(q: Option<ProxyQualityInfo>) -> Option<QualityView> {
    match q {
        Some(q) => Some(q@),
        None => None,
    }
}

impl View for PoolProxy {
    type V = ProxyView;

    open spec fn view(&self) -> ProxyView {
        ProxyView {
            id: self.id@,
            subscription_id: self.subscription_id@,
            name: self.name@,
            proxy_type: self.proxy_type@,
            server: self.server@,
            port: self.port,
            singbox_outbound: json_view(self.singbox_outbound),
            status: self.status,
            local_port: self.local_port,
            error_count: self.error_count,
            quality: opt_quality(self.quality),
        }
    }
}

/// The views of a list of proxies.
pub open spec fn views(s: Seq<PoolProxy>) -> Seq<ProxyView> {
    s.map_values(|p: PoolProxy| p@)
}

impl Clone for PoolProxy {
    fn clone(&self) -> (r: Self)
        ensures
            r@ == self@,
    {
        PoolProxy {
            id: self.id.clone(),
            subscription_id: self.subscription_id.clone(),
            name: self.name.clone(),
            proxy_type: self.proxy_type.clone(),
            server: self.server.clone(),
            port: self.port,
            singbox_outbound: copy_json(&self.singbox_outbound),
            status: self.status,
            local_port: self.local_port,
            error_count: self.error_count,
            quality: match &self.quality {
                Some(q) => Some(q.clone()),
                None => None,
            },
        }
    }
}

/// A stored proxy.
#[derive(Debug)]
pub struct ProxyRow {
    pub id: String,
    pub subscription_id: String,
    pub name: String,
    pub proxy_type: String,
    pub server: String,
    pub port: i32,
    pub config_json: String,
    pub is_valid: bool,
    pub local_port: Option<i32>,
    pub error_count: i32,
    pub last_validated: Option<String>,
}

/// The status of a stored proxy: valid if it is marked so, else invalid if it was ever
/// validated, else untested.
pub open spec fn row_status(is_valid: bool, validated: bool) -> ProxyStatus {
    if is_valid {
        ProxyStatus::Valid
    } else if validated {
        ProxyStatus::Invalid
    } else {
        ProxyStatus::Untested
    }
}

/// The last quality check in `qualities` that is of the proxy `id`.
pub open spec fn latest_quality(qualities: Seq<ProxyQuality>, id: Seq<char>) -> Option<ProxyQuality>
    decreases qualities.len(),
{
    if qualities.len() == 0 {
        None
    } else if qualities.last().proxy_id@ == id {
        Some(qualities.last())
    } else {
        latest_quality(qualities.drop_last(), id)
    }
}

/// What is known of a stored quality check.
pub open spec fn quality_of(q: Option<ProxyQuality>) -> Option<QualityView> {
    match q {
        Some(q) => Some(
            QualityView {
                ip_address: opt_text(q.ip_address),
                country: opt_text(q.country),
                ip_type: opt_text(q.ip_type),
                is_residential: q.is_residential,
                chatgpt_accessible: q.chatgpt_accessible,
                google_accessible: q.google_accessible,
                risk_score: q.risk_score,
                risk_level: q.risk_level@,
                checked_at: Some(q.checked_at@),
                incomplete_retry_count: retry_count_in(opt_text(q.extra_json)),
            },
        ),
        None => None,
    }
}

/// The proxy that a row stands for. Ports and error counts keep the low bits of the stored
/// number.
pub open spec fn row_proxy(
    row: ProxyRow,
    outbound: JsonView,
    quality: Option<QualityView>,
) -> ProxyView {
    ProxyView {
        id: row.id@,
        subscription_id: row.subscription_id@,
        name: row.name@,
        proxy_type: row.proxy_type@,
        server: row.server@,
        port: row.port as u16,
        singbox_outbound: outbound,
        status: row_status(row.is_valid, row.last_validated is Some),
        local_port: match row.local_port {
            Some(p) => Some(p as u16),
            None => None,
        },
        error_count: row.error_count as u32,
        quality,
    }
}

/// Builds the proxy that a row stands for.
pub fn proxy_from_row(
    row: ProxyRow,
    outbound: serde_json::Value,
    quality: Option<ProxyQualityInfo>,
) -> (r: PoolProxy)
    ensures
        r@ == row_proxy(row, json_view(outbound), opt_quality(quality)),
{
    let status: ProxyStatus = if row.is_valid {
        ProxyStatus::Valid
    } else if row.last_validated.is_some() {
        ProxyStatus::Invalid
    } else {
        ProxyStatus::Untested
    };
    PoolProxy {
        id: row.id,
        subscription_id: row.subscription_id,
        name: row.name,
        proxy_type: row.proxy_type,
        server: row.server,
        port: #[verifier::truncate]
        (row.port as u16),
        singbox_outbound: outbound,
        status,
        local_port: match row.local_port {
            Some(p) => Some(
                #[verifier::truncate]
                (p as u16),
            ),
            None => None,
        },
        error_count: #[verifier::truncate]
        (row.error_count as u32),
        quality,
    }
}

} // verus!
