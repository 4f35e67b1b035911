//! What is stored and what the pool makes of it.

use crate::json::{json_document, retry_count, JsonView};
use crate::pool::{has_row, last_row, law_loading_takes_last_rows, loaded};
use crate::proxy::{latest_quality, ProxyQuality, ProxyQualityInfo, ProxyRow, ProxyStatus, ProxyView};
use crate::text::opt_text;
use vstd::prelude::*;

verus! {

proof fn lemma_last_row(rows: Seq<ProxyRow>, i: int)
    requires
        0 <= i < rows.len(),
        forall|j: int| i < j < rows.len() ==> (#[trigger] rows[j]).id@ != rows[i].id@,
    ensures
        last_row(rows, rows[i].id@) == rows[i],
        has_row(rows, rows[i].id@),
    decreases rows.len(),
{
    if i < rows.len() - 1 {
        let front = rows.drop_last();
        assert(rows[rows.len() - 1].id@ != rows[i].id@);
        assert forall|j: int| i < j < front.len() implies (#[trigger] front[j]).id@
            != front[i].id@ by {
            assert(front[j] == rows[j]);
        }
        lemma_last_row(front, i);
    }
    assert(rows[i].id@ == rows[i].id@);
}

proof fn lemma_latest(qualities: Seq<ProxyQuality>, k: int)
    requires
        0 <= k < qualities.len(),
        forall|j: int|
            k < j < qualities.len() ==> (#[trigger] qualities[j]).proxy_id@ != qualities[k].proxy_id@,
    ensures
        latest_quality(qualities, qualities[k].proxy_id@) == Some(qualities[k]),
    decreases qualities.len(),
{
    if k < qualities.len() - 1 {
        let front = qualities.drop_last();
        assert(qualities[qualities.len() - 1].proxy_id@ != qualities[k].proxy_id@);
        assert forall|j: int| k < j < front.len() implies (#[trigger] front[j]).proxy_id@
            != front[k].proxy_id@ by {
            assert(front[j] == qualities[j]);
        }
        lemma_latest(front, k);
    }
}

proof fn lemma_no_quality(qualities: Seq<ProxyQuality>, id: Seq<char>)
    requires
        forall|j: int| 0 <= j < qualities.len() ==> (#[trigger] qualities[j]).proxy_id@ != id,
    ensures
        latest_quality(qualities, id) is None,
    decreases qualities.len(),
{
    if qualities.len() > 0 {
        let front = qualities.drop_last();
        assert(qualities[qualities.len() - 1].proxy_id@ != id);
        assert forall|j: int| 0 <= j < front.len() implies (#[trigger] front[j]).proxy_id@ != id by {
            assert(front[j] == qualities[j]);
        }
        lemma_no_quality(front, id);
    }
}

/// The last row of an id is found under that id, field by field: its texts as they are stored, its
/// numbers as they are stored, modulo the size of their types, its status by whether it is marked valid and was ever
/// validated, and its outbound as the stored document, or null where there is none.
pub proof fn law_loaded_proxy_has_what_its_row_says(
    m: Map<Seq<char>, ProxyView>,
    rows: Seq<ProxyRow>,
    qualities: Seq<ProxyQuality>,
    i: int,
)
    requires
        0 <= i < rows.len(),
        forall|j: int| i < j < rows.len() ==> (#[trigger] rows[j]).id@ != rows[i].id@,
    ensures
        loaded(m, rows, qualities).contains_key(rows[i].id@),
        ({
            let row = rows[i];
            let p = loaded(m, rows, qualities)[row.id@];
            &&& p.id == row.id@
            &&& p.subscription_id == row.subscription_id@
            &&& p.name == row.name@
            &&& p.proxy_type == row.proxy_type@
            &&& p.server == row.server@
            &&& p.port as int == row.port as int % 65536
            &&& row.local_port is None ==> p.local_port is None
            &&& row.local_port matches Some(x) ==> p.local_port is Some && p.local_port->0 as int
                == x as int % 65536
            &&& p.error_count as int == row.error_count as int % 0x1_0000_0000
            &&& p.status == ProxyStatus::Valid <==> row.is_valid
            &&& p.status == ProxyStatus::Untested <==> !row.is_valid && row.last_validated is None
            &&& json_document(row.config_json@) matches Some(doc) ==> p.singbox_outbound == doc
            &&& json_document(row.config_json@) is None ==> p.singbox_outbound == JsonView::Null
        }),
{
    law_loading_takes_last_rows(m, rows, qualities);
    lemma_last_row(rows, i);
    assert(loaded(m, rows, qualities).contains_key(rows[i].id@));
    lemma_low_bits(rows[i].port);
    if let Some(x) = rows[i].local_port {
        lemma_low_bits(x);
    }
    lemma_low_bits(rows[i].error_count);
}

/// What is left of a number in a smaller type, or in one without a sign, is its remainder.
proof fn lemma_low_bits(x: i32)
    ensures
        x as u16 as int == x as int % 65536,
        x as u32 as int == x as int % 0x1_0000_0000,
{
    let low: u16 = x as u16;
    let whole: u32 = x as u32;
    assert(x >= 0 ==> x as u32 == x) by (bit_vector);
    assert(x < 0 ==> x as u32 == x + 0x1_0000_0000) by (bit_vector);
    assert(x as u16 == (x as u32) % 0x1_0000u32) by (bit_vector);
    assert(whole as int % 65536 == x as int % 65536);
}

/// A loaded proxy has the last quality check that is stored for it, field by field, and none where
/// none is stored.
pub proof fn law_loaded_proxy_has_its_last_quality_check(
    m: Map<Seq<char>, ProxyView>,
    rows: Seq<ProxyRow>,
    qualities: Seq<ProxyQuality>,
    i: int,
    k: int,
)
    requires
        0 <= i < rows.len(),
        forall|j: int| i < j < rows.len() ==> (#[trigger] rows[j]).id@ != rows[i].id@,
        0 <= k < qualities.len(),
        qualities[k].proxy_id@ == rows[i].id@,
        forall|j: int|
            k < j < qualities.len() ==> (#[trigger] qualities[j]).proxy_id@ != rows[i].id@,
    ensures
        ({
            let stored = qualities[k];
            let quality = loaded(m, rows, qualities)[rows[i].id@].quality;
            &&& quality is Some
            &&& quality->0.ip_address == opt_text(stored.ip_address)
            &&& quality->0.country == opt_text(stored.country)
            &&& quality->0.ip_type == opt_text(stored.ip_type)
            &&& quality->0.is_residential == stored.is_residential
            &&& quality->0.chatgpt_accessible == stored.chatgpt_accessible
            &&& quality->0.google_accessible == stored.google_accessible
            &&& quality->0.risk_score == stored.risk_score
            &&& quality->0.risk_level == stored.risk_level@
            &&& quality->0.checked_at == Some(stored.checked_at@)
            &&& stored.extra_json is None ==> quality->0.incomplete_retry_count == 0
            &&& stored.extra_json matches Some(text) ==> json_document(text@) matches Some(doc)
                ==> quality->0.incomplete_retry_count == retry_count(doc)
            &&& stored.extra_json matches Some(text) ==> json_document(text@) is None
                ==> quality->0.incomplete_retry_count == 0
        }),
{
    law_loading_takes_last_rows(m, rows, qualities);
    lemma_last_row(rows, i);
    lemma_latest(qualities, k);
    assert(loaded(m, rows, qualities).contains_key(rows[i].id@));
}

/// A loaded proxy for which no quality check is stored has none.
pub proof fn law_loaded_proxy_may_be_unchecked(
    m: Map<Seq<char>, ProxyView>,
    rows: Seq<ProxyRow>,
    qualities: Seq<ProxyQuality>,
    i: int,
)
    requires
        0 <= i < rows.len(),
        forall|j: int| i < j < rows.len() ==> (#[trigger] rows[j]).id@ != rows[i].id@,
        forall|j: int|
            0 <= j < qualities.len() ==> (#[trigger] qualities[j]).proxy_id@ != rows[i].id@,
    ensures
        loaded(m, rows, qualities)[rows[i].id@].quality is None,
{
    law_loading_takes_last_rows(m, rows, qualities);
    lemma_last_row(rows, i);
    lemma_no_quality(qualities, rows[i].id@);
    assert(loaded(m, rows, qualities).contains_key(rows[i].id@));
}

/// A proxy of the pool for which no row is stored stays as it is, and no other proxy comes in.
pub proof fn law_loading_leaves_other_proxies(
    m: Map<Seq<char>, ProxyView>,
    rows: Seq<ProxyRow>,
    qualities: Seq<ProxyQuality>,
    id: Seq<char>,
)
    requires
        forall|j: int| 0 <= j < rows.len() ==> (#[trigger] rows[j]).id@ != id,
    ensures
        loaded(m, rows, qualities).contains_key(id) == m.contains_key(id),
        m.contains_key(id) ==> loaded(m, rows, qualities)[id] == m[id],
    decreases rows.len(),
{
    if rows.len() > 0 {
        let front = rows.drop_last();
        assert(rows[rows.len() - 1].id@ != id);
        assert forall|j: int| 0 <= j < front.len() implies (#[trigger] front[j]).id@ != id by {
            assert(front[j] == rows[j]);
        }
        law_loading_leaves_other_proxies(m, front, qualities, id);
    }
}

/// A stored quality check is carried over field by field.
pub proof fn law_quality_check_is_carried_over(q: ProxyQuality)
    ensures
        ({
            let info = <ProxyQualityInfo as vstd::std_specs::convert::FromSpec<
                ProxyQuality,
            >>::from_spec(q);
            &&& info.ip_address == q.ip_address
            &&& info.country == q.country
            &&& info.ip_type == q.ip_type
            &&& info.is_residential == q.is_residential
            &&& info.chatgpt_accessible == q.chatgpt_accessible
            &&& info.google_accessible == q.google_accessible
            &&& info.risk_score == q.risk_score
            &&& info.risk_level == q.risk_level
            &&& info.checked_at == Some(q.checked_at)
            &&& q.extra_json is None ==> info.incomplete_retry_count == 0
            &&& q.extra_json matches Some(text) ==> json_document(text@) matches Some(doc)
                ==> info.incomplete_retry_count == retry_count(doc)
            &&& q.extra_json matches Some(text) ==> json_document(text@) is None
                ==> info.incomplete_retry_count == 0
        }),
{
}

} // verus!
