//! Texts, numbers and statuses.

use crate::clients::{client_build_error, client_for, proxy_config_error};
use crate::error::ErrorView;
use crate::json::{retry_count, JsonView};
use crate::pool::{
    chatgpt_accessible_pred, count_where, google_accessible_pred, invalid_pred, one_more,
    quality_checked_pred, residential_pred, untested_pred, valid_pred, with_status, without_port,
};
use crate::proxy::{ProxyStatus, ProxyView};
use crate::query::parameter_text;
use crate::risk::RiskScore;
use crate::text::{
    all_digits, ascii_lower, bytes_order, contains_text, decimal, digits_value, found_at, is_digit, is_space,
    law_decimal_reads_back, lemma_bytes_order_antisymmetric, lower_char, parsed_number, text_order, trim_back,
    trim_front, trimmed, unsigned_part, upper_char, NumberError,
};
use vstd::prelude::*;
use vstd::string::*;
use vstd::utf8::*;

verus! {

/// Whether two characters are the same, or one is an ASCII capital and the other its small letter.
pub open spec fn same_letter(c: char, d: char) -> bool {
    ||| c == d
    ||| 'A' <= c && c <= 'Z' && d as int == c as int + 32
    ||| 'A' <= d && d <= 'Z' && c as int == d as int + 32
}

/// Whether two texts are the same but for the case of ASCII letters.
pub open spec fn same_but_for_case(a: Seq<char>, b: Seq<char>) -> bool {
    a.len() == b.len() && forall|i: int| 0 <= i < a.len() ==> same_letter(#[trigger] a[i], b[i])
}

/// Whether `part` stands in `hay` from `at` on, but for the case of ASCII letters.
pub open spec fn stands_at(hay: Seq<char>, at: int, part: Seq<char>) -> bool {
    &&& 0 <= at
    &&& at + part.len() <= hay.len()
    &&& same_but_for_case(hay.subrange(at, at + part.len()), part)
}

/// Whether `part` stands somewhere in `hay`, but for the case of ASCII letters.
pub open spec fn stands_in(hay: Seq<char>, part: Seq<char>) -> bool {
    exists|at: int| #[trigger] stands_at(hay, at, part)
}

/// Lower case is the same for two texts exactly where they are the same but for case.
pub proof fn law_lower_case_is_case_alone(a: Seq<char>, b: Seq<char>)
    ensures
        ascii_lower(a) == ascii_lower(b) <==> same_but_for_case(a, b),
{
    if ascii_lower(a) == ascii_lower(b) {
        assert(ascii_lower(a).len() == a.len() && ascii_lower(b).len() == b.len());
        assert forall|i: int| 0 <= i < a.len() implies same_letter(#[trigger] a[i], b[i]) by {
            assert(ascii_lower(a)[i] == lower_char(a[i]));
            assert(ascii_lower(b)[i] == lower_char(b[i]));
        }
    }
    if same_but_for_case(a, b) {
        assert forall|i: int| 0 <= i < a.len() implies lower_char(a[i]) == lower_char(b[i]) by {
            assert(same_letter(a[i], b[i]));
        }
        assert(ascii_lower(a) =~= ascii_lower(b));
    }
}

/// A text without ASCII capitals is its own lower case.
pub proof fn law_small_letters_stay(s: Seq<char>)
    requires
        forall|i: int| 0 <= i < s.len() ==> !('A' <= #[trigger] s[i] && s[i] <= 'Z'),
    ensures
        ascii_lower(s) == s,
{
    assert(ascii_lower(s) =~= s);
}

/// Upper case is a text of capitals exactly where the text is the same but for case.
pub proof fn law_upper_case_is_case_alone(s: Seq<char>, capitals: Seq<char>)
    requires
        forall|i: int| 0 <= i < capitals.len() ==> 'A' <= #[trigger] capitals[i] && capitals[i] <= 'Z',
    ensures
        s.map_values(|c: char| upper_char(c)) == capitals <==> same_but_for_case(s, capitals),
{
    let upper = s.map_values(|c: char| upper_char(c));
    if upper == capitals {
        assert(upper.len() == s.len());
        assert forall|i: int| 0 <= i < s.len() implies same_letter(#[trigger] s[i], capitals[i]) by {
            assert(upper[i] == upper_char(s[i]));
            assert('A' <= capitals[i]);
        }
    }
    if same_but_for_case(s, capitals) {
        assert forall|i: int| 0 <= i < s.len() implies upper_char(s[i]) == capitals[i] by {
            assert(same_letter(s[i], capitals[i]));
            assert('A' <= capitals[i] && capitals[i] <= 'Z');
        }
        assert(upper =~= capitals);
    }
}

/// A text occurs in another exactly where the other is it with something before and behind.
pub proof fn law_occurring_is_standing_between(hay: Seq<char>, needle: Seq<char>)
    ensures
        contains_text(hay, needle) <==> exists|front: Seq<char>, back: Seq<char>|
            hay == #[trigger] (front + needle + back),
{
    if contains_text(hay, needle) {
        let at = choose|at: int| #[trigger] found_at(hay, at, needle);
        let front = hay.take(at);
        let back = hay.skip(at + needle.len());
        assert(hay =~= front + hay.subrange(at, at + needle.len()) + back);
        assert(hay == front + needle + back);
    }
    if exists|front: Seq<char>, back: Seq<char>| hay == #[trigger] (front + needle + back) {
        let (front, back) = choose|front: Seq<char>, back: Seq<char>|
            hay == #[trigger] (front + needle + back);
        assert(hay.subrange(front.len() as int, front.len() as int + needle.len()) =~= needle);
        assert(found_at(hay, front.len() as int, needle));
    }
}

/// In lower case, a text occurs in another exactly where it stands there but for case.
pub proof fn law_lower_case_search_ignores_case(hay: Seq<char>, part: Seq<char>)
    ensures
        contains_text(ascii_lower(hay), ascii_lower(part)) <==> stands_in(hay, part),
{
    let h = ascii_lower(hay);
    let p = ascii_lower(part);
    assert forall|at: int| #[trigger] found_at(h, at, p) == stands_at(hay, at, part) by {
        if 0 <= at && at + part.len() <= hay.len() {
            let piece = hay.subrange(at, at + part.len());
            assert(h.subrange(at, at + p.len()) =~= ascii_lower(piece));
            law_lower_case_is_case_alone(piece, part);
        }
    }
    if contains_text(h, p) {
        let at = choose|at: int| #[trigger] found_at(h, at, p);
        assert(stands_at(hay, at, part));
    }
    if stands_in(hay, part) {
        let at = choose|at: int| #[trigger] stands_at(hay, at, part);
        assert(found_at(h, at, p));
    }
}

/// Whether every character is white space.
pub open spec fn is_blank(s: Seq<char>) -> bool {
    forall|i: int| 0 <= i < s.len() ==> is_space(#[trigger] s[i])
}

/// White space around a text is taken off, and nothing else.
pub proof fn law_trimming_takes_outer_space(front: Seq<char>, core: Seq<char>, back: Seq<char>)
    requires
        is_blank(front),
        is_blank(back),
        core.len() > 0 ==> !is_space(core[0]) && !is_space(core.last()),
    ensures
        trimmed(front + core + back) == core,
{
    lemma_front_off(front, core + back);
    assert(front + core + back =~= front + (core + back));
    if core.len() == 0 {
        assert(core + back =~= back);
        lemma_front_off(back, core);
        assert(back + core =~= back);
        assert(trim_front(core) == core);
        assert(trim_back(core) == core);
        assert(core =~= Seq::empty());
    } else {
        assert((core + back)[0] == core[0]);
        assert(trim_front(core + back) == core + back);
        lemma_back_off(core, back);
        assert(trim_back(core) == core);
    }
}

proof fn lemma_front_off(front: Seq<char>, rest: Seq<char>)
    requires
        is_blank(front),
    ensures
        trim_front(front + rest) == trim_front(rest),
    decreases front.len(),
{
    if front.len() == 0 {
        assert(front + rest =~= rest);
    } else {
        let less = front.drop_first();
        assert(is_space(front[0]));
        assert forall|i: int| 0 <= i < less.len() implies is_space(#[trigger] less[i]) by {
            assert(less[i] == front[i + 1]);
        }
        assert((front + rest).drop_first() =~= less + rest);
        lemma_front_off(less, rest);
    }
}

proof fn lemma_back_off(rest: Seq<char>, back: Seq<char>)
    requires
        is_blank(back),
    ensures
        trim_back(rest + back) == trim_back(rest),
    decreases back.len(),
{
    if back.len() == 0 {
        assert(rest + back =~= rest);
    } else {
        let less = back.drop_last();
        assert(is_space(back[back.len() - 1]));
        assert((rest + back).last() == back[back.len() - 1]);
        assert forall|i: int| 0 <= i < less.len() implies is_space(#[trigger] less[i]) by {
            assert(less[i] == back[i]);
        }
        assert((rest + back).drop_last() =~= rest + less);
        lemma_back_off(rest, less);
    }
}

/// The space, the tab and the ends of lines are white space; no visible ASCII character is.
pub proof fn law_visible_characters_are_no_space(c: char)
    ensures
        is_space(' ') && is_space('\t') && is_space('\n') && is_space('\r'),
        33 <= c as int <= 126 ==> !is_space(c),
{
}

/// The characters that count as white space, by their code points: five control characters and the
/// space, the next line, and eighteen spaces and separators beyond it.
pub proof fn law_white_space_is_these_characters(c: char)
    ensures
        is_space(c) <==> {
            let n = c as int;
            ||| n == 9 || n == 10 || n == 11 || n == 12 || n == 13 || n == 32
            ||| n == 133 || n == 160 || n == 5760
            ||| 8192 <= n && n <= 8202
            ||| n == 8232 || n == 8233 || n == 8239 || n == 8287 || n == 12288
        },
{
}

/// Whether `a` comes before `b` byte for byte: at the first place where they part, `a` has ended
/// or has the smaller byte.
pub open spec fn precedes(a: Seq<u8>, b: Seq<u8>) -> bool {
    exists|k: int| #[trigger] parts_at(a, b, k)
}

/// Whether `a` and `b` are the same before `k`, and `a` has ended there or has the smaller byte.
pub open spec fn parts_at(a: Seq<u8>, b: Seq<u8>, k: int) -> bool {
    &&& 0 <= k <= a.len()
    &&& k < b.len()
    &&& forall|i: int| 0 <= i < k ==> #[trigger] a[i] == b[i]
    &&& k == a.len() || a[k] < b[k]
}

proof fn lemma_bytes_order(a: Seq<u8>, b: Seq<u8>)
    ensures
        bytes_order(a, b) < 0 <==> precedes(a, b),
    decreases a.len(),
{
    if a.len() == 0 {
        if b.len() > 0 {
            assert(parts_at(a, b, 0));
        }
    } else if b.len() == 0 {
    } else if a[0] != b[0] {
        if a[0] < b[0] {
            assert(parts_at(a, b, 0));
        } else if precedes(a, b) {
            let k = choose|k: int| #[trigger] parts_at(a, b, k);
            assert(k == 0);
        }
    } else {
        let x = a.drop_first();
        let y = b.drop_first();
        lemma_bytes_order(x, y);
        if precedes(x, y) {
            let k = choose|k: int| #[trigger] parts_at(x, y, k);
            assert forall|i: int| 0 <= i < k + 1 implies #[trigger] a[i] == b[i] by {
                if i > 0 {
                    assert(x[i - 1] == y[i - 1]);
                }
            }
            assert(parts_at(a, b, k + 1));
        }
        if precedes(a, b) {
            let k = choose|k: int| #[trigger] parts_at(a, b, k);
            assert(k > 0);
            assert forall|i: int| 0 <= i < k - 1 implies #[trigger] x[i] == y[i] by {
                assert(a[i + 1] == b[i + 1]);
            }
            assert(parts_at(x, y, k - 1));
        }
    }
}

/// Texts are ordered by their UTF-8 bytes, as in a dictionary.
pub proof fn law_texts_are_ordered_by_bytes(a: Seq<char>, b: Seq<char>)
    ensures
        text_order(a, b) < 0 <==> precedes(encode_utf8(a), encode_utf8(b)),
        text_order(a, b) > 0 <==> precedes(encode_utf8(b), encode_utf8(a)),
        text_order(a, b) == 0 <==> a == b,
{
    lemma_bytes_order(encode_utf8(a), encode_utf8(b));
    lemma_bytes_order(encode_utf8(b), encode_utf8(a));
    lemma_bytes_order_antisymmetric(encode_utf8(a), encode_utf8(b));
    encode_utf8_decode_utf8(a);
    encode_utf8_decode_utf8(b);
}

/// Of risk scores that are not negative, one is at most another exactly where its bits are, up to
/// infinity; a negative one is at most every other that is not; and of two negative ones, the one
/// with more bits is at most the other. Behind infinity nothing compares.
pub proof fn law_risk_scores_compare_by_bits(a: RiskScore, b: RiskScore)
    ensures
        a.bits <= 0x7ff0_0000_0000_0000 && b.bits <= 0x7ff0_0000_0000_0000 ==> (a.at_most(b)
            <==> a.bits <= b.bits),
        0x8000_0000_0000_0000 <= a.bits <= 0xfff0_0000_0000_0000 && b.bits
            <= 0x7ff0_0000_0000_0000 ==> a.at_most(b),
        0x8000_0000_0000_0000 < a.bits <= 0xfff0_0000_0000_0000 && b.bits
            <= 0x7ff0_0000_0000_0000 ==> !b.at_most(a),
        0x8000_0000_0000_0000 <= a.bits <= 0xfff0_0000_0000_0000 && 0x8000_0000_0000_0000 <= b.bits
            <= 0xfff0_0000_0000_0000 ==> (a.at_most(b) <==> b.bits <= a.bits),
        0x7ff0_0000_0000_0000 < a.bits < 0x8000_0000_0000_0000 || a.bits > 0xfff0_0000_0000_0000
            ==> !a.at_most(b) && !b.at_most(a),
        a.bits < 0x8000_0000_0000_0000 && b.bits < 0x8000_0000_0000_0000 ==> (a.total_rank()
            < b.total_rank() <==> a.bits < b.bits),
        a.bits >= 0x8000_0000_0000_0000 && b.bits < 0x8000_0000_0000_0000 ==> a.total_rank()
            < b.total_rank(),
        a.bits >= 0x8000_0000_0000_0000 && b.bits >= 0x8000_0000_0000_0000 ==> (a.total_rank()
            < b.total_rank() <==> a.bits > b.bits),
{
}

/// A document that is an object tells its retry count under `incomplete_retry_count`, as a number
/// that is not negative, up to 255. Any other document tells none.
pub proof fn law_retry_count_is_the_number_told(members: Map<Seq<char>, JsonView>, n: u64)
    ensures
        members.contains_pair("incomplete_retry_count"@, JsonView::Unsigned(n)) && n <= 255
            ==> retry_count(JsonView::Object(members)) == n,
        members.contains_pair("incomplete_retry_count"@, JsonView::Unsigned(n)) && n > 255
            ==> retry_count(JsonView::Object(members)) == 255,
        !members.contains_key("incomplete_retry_count"@) ==> retry_count(JsonView::Object(members))
            == 0,
        members.contains_key("incomplete_retry_count"@)
            && members["incomplete_retry_count"@] !is Unsigned ==> retry_count(
            JsonView::Object(members),
        ) == 0,
{
}

/// What is no object tells no retry count.
pub proof fn law_only_objects_tell_a_retry_count(doc: JsonView)
    requires
        doc !is Object,
    ensures
        retry_count(doc) == 0,
{
}

/// A number with white space around it reads as the number; white space alone reads as nothing.
pub proof fn law_number_parameters_read(front: Seq<char>, n: nat, back: Seq<char>, limit: nat)
    requires
        is_blank(front),
        is_blank(back),
    ensures
        parameter_text(Some(front + decimal(n) + back)) == Some(decimal(n)),
        n <= limit ==> parsed_number(decimal(n), limit) == Ok::<nat, NumberError>(n),
        n > limit ==> parsed_number(decimal(n), limit) == Err::<nat, NumberError>(
            NumberError::TooLarge,
        ),
        parameter_text(Some(front)) is None,
        parameter_text(None) is None,
{
    law_decimal_reads_back(n, limit);
    lemma_decimal_digits(n);
    let s = decimal(n);
    assert(48 <= s[0] as int <= 57 && 48 <= s[s.len() - 1] as int <= 57);
    law_trimming_takes_outer_space(front, s, back);
    let none = Seq::<char>::empty();
    assert(front + none + none =~= front);
    law_trimming_takes_outer_space(front, none, none);
}

proof fn lemma_decimal_digits(n: nat)
    ensures
        decimal(n).len() > 0,
        forall|i: int| 0 <= i < decimal(n).len() ==> 48 <= #[trigger] decimal(n)[i] as int <= 57,
    decreases n,
{
    if n >= 10 {
        lemma_decimal_digits(n / 10);
    }
}

/// A plus sign in front of a number, and zeros in front of it, do not matter.
pub proof fn law_plus_and_leading_zeros_do_not_matter(n: nat, limit: nat)
    ensures
        n <= limit ==> parsed_number(seq!['+'] + decimal(n), limit) == Ok::<nat, NumberError>(n),
        n <= limit ==> parsed_number(seq!['0'] + decimal(n), limit) == Ok::<nat, NumberError>(n),
        n > limit ==> parsed_number(seq!['+'] + decimal(n), limit) == Err::<nat, NumberError>(
            NumberError::TooLarge,
        ),
{
    law_decimal_reads_back(n, limit);
    lemma_decimal_digits(n);
    let s = decimal(n);
    let signed = seq!['+'] + s;
    assert(signed.drop_first() =~= s);
    assert(unsigned_part(signed) == s);
    assert(48 <= s[0] as int <= 57);
    assert(unsigned_part(s) == s);
    let padded = seq!['0'] + s;
    assert(unsigned_part(padded) == padded);
    if n <= limit {
        lemma_zero_in_front(s);
        assert forall|i: int| 0 <= i < padded.len() implies is_digit(#[trigger] padded[i]) by {
            if i > 0 {
                assert(padded[i] == s[i - 1]);
            }
        }
        assert forall|k: int| 0 <= k <= padded.len() implies digits_value(#[trigger] padded.take(k))
            <= limit by {
            if k == 0 {
                assert(padded.take(0) =~= Seq::empty());
            } else {
                assert(padded.take(k) =~= seq!['0'] + s.take(k - 1));
                lemma_zero_in_front(s.take(k - 1));
                assert(all_digits(s.take(k - 1))) by {
                    assert forall|i: int| 0 <= i < k - 1 implies is_digit(#[trigger] s.take(k - 1)[i]) by {
                        assert(s.take(k - 1)[i] == s[i]);
                    }
                }
            }
        }
    }
}

proof fn lemma_zero_in_front(s: Seq<char>)
    ensures
        digits_value(seq!['0'] + s) == digits_value(s),
    decreases s.len(),
{
    let padded = seq!['0'] + s;
    if s.len() == 0 {
        assert(padded.drop_last() =~= s);
    } else {
        assert(padded.drop_last() =~= seq!['0'] + s.drop_last());
        assert(padded.last() == s.last());
        lemma_zero_in_front(s.drop_last());
    }
}

/// What holds no digit at all, or holds something else than digits before the number is too large,
/// is no number, and says so.
pub proof fn law_other_texts_are_no_numbers(s: Seq<char>, at: int, limit: nat)
    requires
        0 <= at < s.len(),
        !('0' <= s[at] && s[at] <= '9'),
        at == 0 ==> s[0] != '+',
        forall|i: int| 0 <= i < at ==> '0' <= #[trigger] s[i] && s[i] <= '9',
        digits_value(s.take(at)) <= limit,
    ensures
        parsed_number(s, limit) == Err::<nat, NumberError>(NumberError::InvalidDigit),
        parsed_number(Seq::empty(), limit) == Err::<nat, NumberError>(NumberError::InvalidDigit),
        parsed_number(seq!['+'], limit) == Err::<nat, NumberError>(NumberError::InvalidDigit),
{
    assert(unsigned_part(s) == s) by {
        if at > 0 {
            assert('0' <= s[0]);
        }
    }
    assert(!all_digits(s)) by {
        assert(!is_digit(s[at]));
    }
    assert forall|k: int| 0 <= k <= s.len() && all_digits(#[trigger] s.take(k)) implies digits_value(
        s.take(k),
    ) <= limit by {
        if k > at {
            assert(!is_digit(s.take(k)[at]));
        } else {
            lemma_fewer_digits(s.take(at), k);
            assert(s.take(at).take(k) =~= s.take(k));
        }
    }
    let none = Seq::<char>::empty();
    let plus = seq!['+'];
    assert forall|k: int| 0 <= k <= none.len() implies digits_value(#[trigger] none.take(k)) <= limit by {
        assert(none.take(k) =~= none);
    }
    assert(!is_digit(plus[0]));
    assert forall|k: int| 0 <= k <= plus.len() && all_digits(#[trigger] plus.take(k)) implies digits_value(
        plus.take(k),
    ) <= limit by {
        if k == 1 {
            assert(!is_digit(plus.take(k)[0]));
        } else {
            assert(plus.take(k) =~= none);
        }
    }
}

proof fn lemma_fewer_digits(s: Seq<char>, k: int)
    requires
        forall|i: int| 0 <= i < s.len() ==> '0' <= #[trigger] s[i] && s[i] <= '9',
        0 <= k <= s.len(),
    ensures
        digits_value(s.take(k)) <= digits_value(s),
    decreases s.len(),
{
    if k == s.len() {
        assert(s.take(k) =~= s);
    } else {
        let front = s.drop_last();
        assert forall|i: int| 0 <= i < front.len() implies '0' <= #[trigger] front[i] && front[i] <= '9' by {
            assert(front[i] == s[i]);
        }
        lemma_fewer_digits(front, k);
        assert(front.take(k) =~= s.take(k));
    }
}

/// Each digit of a number stands for what is left of it modulo ten.
pub proof fn law_decimal_digits_are_remainders(n: nat)
    ensures
        decimal(n).last() as int == 48 + n % 10,
        n >= 10 ==> decimal(n).drop_last() == decimal(n / 10),
        n < 10 ==> decimal(n).len() == 1,
{
    if n >= 10 {
        assert(decimal(n).drop_last() =~= decimal(n / 10));
    }
}

/// The statuses are written `valid`, `untested` and `invalid`, and stand in that order.
pub proof fn law_statuses_are_named_and_ranked()
    ensures
        ProxyStatus::Valid.name() == "valid"@,
        ProxyStatus::Untested.name() == "untested"@,
        ProxyStatus::Invalid.name() == "invalid"@,
        ProxyStatus::Valid.weight() == 0,
        ProxyStatus::Untested.weight() == 1,
        ProxyStatus::Invalid.weight() == 2,
{
}

/// The client for a local port goes through the proxy on that port of this machine, gives a
/// request thirty seconds, keeps ten idle connections for a host, and takes any certificate.
pub proof fn law_clients_are_set_up_alike(port: u16)
    ensures
        client_for(port).proxy == "http://127.0.0.1:"@ + decimal(port as nat),
        client_for(port).timeout_secs == 30,
        client_for(port).max_idle_per_host == 10,
        client_for(port).accepts_invalid_certs,
{
}

/// What keeps a client from being made is told with its cause.
pub proof fn law_client_errors_tell_their_cause(cause: Seq<char>)
    ensures
        proxy_config_error(cause) == ErrorView::Internal("Proxy config error: "@ + cause),
        client_build_error(cause) == ErrorView::Internal("Client build error: "@ + cause),
{
}

/// The ids of the proxies of `m` that have a quality check of which `found` holds.
pub open spec fn checked_ids(
    m: Map<Seq<char>, ProxyView>,
    found: spec_fn(crate::proxy::QualityView) -> bool,
) -> Set<Seq<char>> {
    m.dom().filter(|k: Seq<char>| m[k].quality is Some && found(m[k].quality->0))
}

/// The ids of the proxies of `m` that have a status.
pub open spec fn ids_with_status(m: Map<Seq<char>, ProxyView>, status: ProxyStatus) -> Set<Seq<char>> {
    m.dom().filter(|k: Seq<char>| m[k].status == status)
}

/// Each count is the number of proxies that have what it counts.
pub proof fn law_counts_count_what_they_name(m: Map<Seq<char>, ProxyView>)
    ensures
        count_where(m, valid_pred()) == ids_with_status(m, ProxyStatus::Valid).len(),
        count_where(m, untested_pred()) == ids_with_status(m, ProxyStatus::Untested).len(),
        count_where(m, invalid_pred()) == ids_with_status(m, ProxyStatus::Invalid).len(),
        count_where(m, quality_checked_pred()) == checked_ids(
            m,
            |q: crate::proxy::QualityView| true,
        ).len(),
        count_where(m, chatgpt_accessible_pred()) == checked_ids(
            m,
            |q: crate::proxy::QualityView| q.chatgpt_accessible,
        ).len(),
        count_where(m, google_accessible_pred()) == checked_ids(
            m,
            |q: crate::proxy::QualityView| q.google_accessible,
        ).len(),
        count_where(m, residential_pred()) == checked_ids(
            m,
            |q: crate::proxy::QualityView| q.is_residential,
        ).len(),
{
    let v = valid_pred();
    let u = untested_pred();
    let i = invalid_pred();
    let c = quality_checked_pred();
    let g = chatgpt_accessible_pred();
    let o = google_accessible_pred();
    let h = residential_pred();
    assert(m.dom().filter(|k: Seq<char>| v(m[k])) =~= ids_with_status(m, ProxyStatus::Valid));
    assert(m.dom().filter(|k: Seq<char>| u(m[k])) =~= ids_with_status(m, ProxyStatus::Untested));
    assert(m.dom().filter(|k: Seq<char>| i(m[k])) =~= ids_with_status(m, ProxyStatus::Invalid));
    assert(m.dom().filter(|k: Seq<char>| c(m[k])) =~= checked_ids(
        m,
        |q: crate::proxy::QualityView| true,
    ));
    assert(m.dom().filter(|k: Seq<char>| g(m[k])) =~= checked_ids(
        m,
        |q: crate::proxy::QualityView| q.chatgpt_accessible,
    ));
    assert(m.dom().filter(|k: Seq<char>| o(m[k])) =~= checked_ids(
        m,
        |q: crate::proxy::QualityView| q.google_accessible,
    ));
    assert(m.dom().filter(|k: Seq<char>| h(m[k])) =~= checked_ids(
        m,
        |q: crate::proxy::QualityView| q.is_residential,
    ));
}

/// A change of status, an error more and a port less leave everything else of a proxy.
pub proof fn law_changes_leave_the_rest(p: ProxyView, status: ProxyStatus)
    ensures
        ({
            let q = with_status(p, status);
            &&& q.status == status
            &&& q.id == p.id && q.subscription_id == p.subscription_id && q.name == p.name
            &&& q.proxy_type == p.proxy_type && q.server == p.server && q.port == p.port
            &&& q.singbox_outbound == p.singbox_outbound && q.local_port == p.local_port
            &&& q.quality == p.quality
            &&& status == ProxyStatus::Valid ==> q.error_count == 0
            &&& status == ProxyStatus::Untested ==> q.error_count == p.error_count
            &&& status == ProxyStatus::Invalid && p.error_count < u32::MAX ==> q.error_count
                == p.error_count + 1
        }),
        p.error_count < u32::MAX ==> one_more(p.error_count) == p.error_count + 1,
        ({
            let q = without_port(p);
            &&& q.local_port is None
            &&& q.id == p.id && q.subscription_id == p.subscription_id && q.name == p.name
            &&& q.proxy_type == p.proxy_type && q.server == p.server && q.port == p.port
            &&& q.singbox_outbound == p.singbox_outbound && q.status == p.status
            &&& q.error_count == p.error_count && q.quality == p.quality
        }),
{
}

} // verus!
