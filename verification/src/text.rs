//! Text as sequences of characters: comparison, ASCII case, trimming, search and numerals.

use vstd::prelude::*;
use vstd::string::*;
use vstd::utf8::*;

verus! {

/// The characters of `s`, in order.
pub fn chars_of(s: &str) -> (r: Vec<char>)
    ensures
        r@ == s@,
{
    let mut out: Vec<char> = Vec::new();
    for c in it: s.chars()
        invariant
            out@ == it.seq().take(it.index() as int),
            it.seq() == s@,
    {
        out.push(c);
    }
    out
}

/// Whether two texts are the same.
pub fn same_text(a: &str, b: &str) -> (r: bool)
    ensures
        r == (a@ == b@),
{
    let left: &[u8] = a.as_bytes();
    let right: &[u8] = b.as_bytes();
    proof {
        encode_utf8_decode_utf8(a@);
        encode_utf8_decode_utf8(b@);
    }
    if left.len() != right.len() {
        return false;
    }
    let n: usize = left.len();
    let mut i: usize = 0;
    while i < n
        invariant
            i <= n,
            n == left@.len(),
            n == right@.len(),
            left@ == encode_utf8(a@),
            right@ == encode_utf8(b@),
            forall|j: int| 0 <= j < i ==> left@[j] == right@[j],
        decreases n - i,
    {
        if left[i] != right[i] {
            return false;
        }
        i = i + 1;
    }
    assert(left@ =~= right@);
    true
}

/// The text inside an optional string.
pub open spec fn opt_text(s: Option<String>) -> Option<Seq<char>> {
    match s {
        Some(t) => Some(t@),
        None => None,
    }
}

/// Lexicographic order of byte sequences: negative, zero or positive as `a` comes before, is
/// equal to or comes after `b`.
pub open spec fn bytes_order(a: Seq<u8>, b: Seq<u8>) -> int
    decreases a.len(),
{
    if a.len() == 0 {
        if b.len() == 0 {
            0
        } else {
            -1
        }
    } else if b.len() == 0 {
        1
    } else if a[0] < b[0] {
        -1
    } else if a[0] > b[0] {
        1
    } else {
        bytes_order(a.drop_first(), b.drop_first())
    }
}

/// The order of texts: that of their UTF-8 bytes, which is also that of their code points.
pub open spec fn text_order(a: Seq<char>, b: Seq<char>) -> int {
    bytes_order(encode_utf8(a), encode_utf8(b))
}

/// Swapping the operands of [`bytes_order`] turns the sign, and only equal sequences tie.
pub proof fn lemma_bytes_order_antisymmetric(a: Seq<u8>, b: Seq<u8>)
    ensures
        bytes_order(a, b) == -bytes_order(b, a),
        -1 <= bytes_order(a, b) <= 1,
        bytes_order(a, b) == 0 <==> a == b,
    decreases a.len(),
{
    if a.len() > 0 && b.len() > 0 {
        lemma_bytes_order_antisymmetric(a.drop_first(), b.drop_first());
        if a[0] == b[0] && a.drop_first() == b.drop_first() {
            assert(a =~= seq![a[0]] + a.drop_first());
            assert(b =~= seq![b[0]] + b.drop_first());
        }
    } else if a.len() == 0 && b.len() == 0 {
        assert(a =~= b);
    }
}

/// [`bytes_order`] is transitive.
pub proof fn lemma_bytes_order_transitive(a: Seq<u8>, b: Seq<u8>, c: Seq<u8>)
    requires
        bytes_order(a, b) <= 0,
        bytes_order(b, c) <= 0,
    ensures
        bytes_order(a, c) <= 0,
        bytes_order(a, b) < 0 || bytes_order(b, c) < 0 ==> bytes_order(a, c) < 0,
    decreases a.len(),
{
    if a.len() > 0 && b.len() > 0 && c.len() > 0 && a[0] == b[0] && b[0] == c[0] {
        lemma_bytes_order_transitive(a.drop_first(), b.drop_first(), c.drop_first());
    }
}

/// Compares two texts as [`text_order`] does.
pub fn compare_text(a: &str, b: &str) -> (r: i8)
    ensures
        r == text_order(a@, b@),
{
    let left: &[u8] = a.as_bytes();
    let right: &[u8] = b.as_bytes();
    let mut i: usize = 0;
    assert(left@.skip(0) =~= left@);
    assert(right@.skip(0) =~= right@);
    while i < left.len() && i < right.len()
        invariant
            i <= left@.len(),
            i <= right@.len(),
            left@ == encode_utf8(a@),
            right@ == encode_utf8(b@),
            bytes_order(left@.skip(i as int), right@.skip(i as int)) == text_order(a@, b@),
        decreases left@.len() - i,
    {
        assert(left@.skip(i as int).drop_first() =~= left@.skip(i + 1));
        assert(right@.skip(i as int).drop_first() =~= right@.skip(i + 1));
        if left[i] < right[i] {
            return -1;
        }
        if left[i] > right[i] {
            return 1;
        }
        i = i + 1;
    }
    if i < right.len() {
        -1
    } else if i < left.len() {
        1
    } else {
        0
    }
}

/// The ASCII lower case of a character; other characters stay.
pub open spec fn lower_char(c: char) -> char {
    if 'A' <= c && c <= 'Z' {
        (c as u8 + 32) as char
    } else {
        c
    }
}

/// The ASCII lower case of a text.
pub open spec fn ascii_lower(s: Seq<char>) -> Seq<char> {
    s.map_values(|c: char| lower_char(c))
}

/// The ASCII lower case of a character.
pub fn to_lower_char(c: char) -> (r: char)
    ensures
        r == lower_char(c),
{
    if 'A' <= c && c <= 'Z' {
        (c as u8 + 32) as char
    } else {
        c
    }
}

/// The ASCII lower case of a text, as characters.
pub fn to_ascii_lower(s: &str) -> (r: Vec<char>)
    ensures
        r@ == ascii_lower(s@),
{
    let chars: Vec<char> = chars_of(s);
    let mut out: Vec<char> = Vec::new();
    let mut i: usize = 0;
    while i < chars.len()
        invariant
            i <= chars@.len(),
            chars@ == s@,
            out@ == ascii_lower(s@).take(i as int),
        decreases chars@.len() - i,
    {
        out.push(to_lower_char(chars[i]));
        i = i + 1;
        assert(out@ =~= ascii_lower(s@).take(i as int));
    }
    assert(ascii_lower(s@).take(i as int) =~= ascii_lower(s@));
    out
}

/// Whether two texts agree when ASCII case is ignored.
pub fn same_ignoring_ascii_case(a: &str, b: &str) -> (r: bool)
    ensures
        r == (ascii_lower(a@) == ascii_lower(b@)),
{
    let left: Vec<char> = to_ascii_lower(a);
    let right: Vec<char> = to_ascii_lower(b);
    starts_at(&left, 0, &right) && left.len() == right.len()
}

/// Whether characters are those of a text.
pub fn same_chars(chars: &Vec<char>, text: &str) -> (r: bool)
    ensures
        r == (chars@ == text@),
{
    let other: Vec<char> = chars_of(text);
    starts_at(chars, 0, &other) && chars.len() == other.len()
}

/// Whether `needle` stands in `hay` from position `at` on.
pub open spec fn found_at(hay: Seq<char>, at: int, needle: Seq<char>) -> bool {
    0 <= at && at + needle.len() <= hay.len() && hay.subrange(at, at + needle.len()) == needle
}

/// Whether `needle` occurs in `hay`. The empty text occurs in every text.
pub open spec fn contains_text(hay: Seq<char>, needle: Seq<char>) -> bool {
    exists|at: int| #[trigger] found_at(hay, at, needle)
}

/// Whether `needle` stands in `hay` from position `at` on.
fn starts_at(hay: &Vec<char>, at: usize, needle: &Vec<char>) -> (r: bool)
    ensures
        r == found_at(hay@, at as int, needle@),
        r && at == 0 && hay@.len() == needle@.len() ==> hay@ == needle@,
        !r && at == 0 ==> hay@ != needle@,
{
    proof {
        if hay@.len() == needle@.len() {
            assert(hay@.subrange(0, needle@.len() as int) =~= hay@);
        }
        assert(needle@.subrange(0, needle@.len() as int) =~= needle@);
    }
    if at > hay.len() || needle.len() > hay.len() - at {
        return false;
    }
    let n: usize = hay.len();
    let mut i: usize = 0;
    while i < needle.len()
        invariant
            i <= needle@.len(),
            n == hay@.len(),
            at + needle@.len() <= n,
            forall|j: int| 0 <= j < i ==> hay@[at + j] == needle@[j],
        decreases needle@.len() - i,
    {
        if hay[at + i] != needle[i] {
            assert(hay@.subrange(at as int, at + needle@.len())[i as int] != needle@[i as int]);
            return false;
        }
        i = i + 1;
    }
    assert(hay@.subrange(at as int, at + needle@.len()) =~= needle@);
    true
}

/// Searches `hay` for `needle`.
pub fn has_text(hay: &Vec<char>, needle: &Vec<char>) -> (r: bool)
    ensures
        r == contains_text(hay@, needle@),
{
    let mut at: usize = 0;
    if needle.len() > hay.len() {
        return false;
    }
    let last: usize = hay.len() - needle.len();
    while at <= last
        invariant
            at <= last + 1,
            last + needle@.len() == hay@.len(),
            forall|j: int| 0 <= j < at ==> !#[trigger] found_at(hay@, j, needle@),
        decreases last + 1 - at,
    {
        if starts_at(hay, at, needle) {
            return true;
        }
        if at == last {
            assert forall|j: int| !#[trigger] found_at(hay@, j, needle@) by {
                if j < at {
                } else if j == at {
                } else {
                    assert(j + needle@.len() > hay@.len());
                }
            }
            return false;
        }
        at = at + 1;
    }
    false
}

/// Unicode's `White_Space` characters.
pub open spec fn is_space(c: char) -> bool {
    let n: int = c as int;
    ||| 0x9 <= n <= 0xd
    ||| n == 0x20
    ||| n == 0x85
    ||| n == 0xa0
    ||| n == 0x1680
    ||| 0x2000 <= n <= 0x200a
    ||| n == 0x2028
    ||| n == 0x2029
    ||| n == 0x202f
    ||| n == 0x205f
    ||| n == 0x3000
}

/// Whether `c` is one of Unicode's `White_Space` characters.
pub fn is_space_char(c: char) -> (r: bool)
    ensures
        r == is_space(c),
{
    let n: u32 = c as u32;
    (0x9 <= n && n <= 0xd) || n == 0x20 || n == 0x85 || n == 0xa0 || n == 0x1680
        || (0x2000 <= n && n <= 0x200a) || n == 0x2028 || n == 0x2029 || n == 0x202f
        || n == 0x205f || n == 0x3000
}

/// `s` without the white space it starts with.
pub open spec fn trim_front(s: Seq<char>) -> Seq<char>
    decreases s.len(),
{
    if s.len() > 0 && is_space(s[0]) {
        trim_front(s.drop_first())
    } else {
        s
    }
}

/// `s` without the white space it ends with.
pub open spec fn trim_back(s: Seq<char>) -> Seq<char>
    decreases s.len(),
{
    if s.len() > 0 && is_space(s.last()) {
        trim_back(s.drop_last())
    } else {
        s
    }
}

/// `s` without leading and trailing white space.
pub open spec fn trimmed(s: Seq<char>) -> Seq<char> {
    trim_back(trim_front(s))
}

/// `s` without leading and trailing white space.
pub fn trim_text<'a>(s: &'a str) -> (r: &'a str)
    ensures
        r@ == trimmed(s@),
{
    let chars: Vec<char> = chars_of(s);
    let mut from: usize = 0;
    assert(s@.skip(0) =~= s@);
    while from < chars.len() && is_space_char(chars[from])
        invariant
            from <= chars@.len(),
            chars@ == s@,
            trim_front(s@.skip(from as int)) == trim_front(s@),
        decreases chars@.len() - from,
    {
        assert(s@.skip(from as int).drop_first() =~= s@.skip(from + 1));
        from = from + 1;
    }
    assert(trim_front(s@) == s@.skip(from as int));
    let mut to: usize = chars.len();
    assert(s@.subrange(from as int, to as int) =~= s@.skip(from as int));
    while from < to && is_space_char(chars[to - 1])
        invariant
            from <= to <= chars@.len(),
            chars@ == s@,
            trim_back(s@.subrange(from as int, to as int)) == trimmed(s@),
        decreases to,
    {
        assert(s@.subrange(from as int, to as int).drop_last() =~= s@.subrange(
            from as int,
            to - 1,
        ));
        to = to - 1;
    }
    s.substring_char(from, to)
}

/// The decimal digit that stands for `d`.
pub open spec fn digit_char(d: int) -> char
    recommends
        0 <= d < 10,
{
    ('0' as int + d) as char
}

/// `n` in decimal, without leading zeros.
pub open spec fn decimal(n: nat) -> Seq<char>
    decreases n,
{
    if n < 10 {
        seq![digit_char(n as int)]
    } else {
        decimal(n / 10).push(digit_char((n % 10) as int))
    }
}

/// The decimal digit of a number below ten.
fn digit_text(d: u64) -> (r: &'static str)
    requires
        d < 10,
    ensures
        r@ == seq![digit_char(d as int)],
{
    proof {
        reveal_strlit("0");
        reveal_strlit("1");
        reveal_strlit("2");
        reveal_strlit("3");
        reveal_strlit("4");
        reveal_strlit("5");
        reveal_strlit("6");
        reveal_strlit("7");
        reveal_strlit("8");
        reveal_strlit("9");
    }
    if d == 0 {
        "0"
    } else if d == 1 {
        "1"
    } else if d == 2 {
        "2"
    } else if d == 3 {
        "3"
    } else if d == 4 {
        "4"
    } else if d == 5 {
        "5"
    } else if d == 6 {
        "6"
    } else if d == 7 {
        "7"
    } else if d == 8 {
        "8"
    } else {
        "9"
    }
}

/// Writes `n` in decimal.
pub fn decimal_text(n: u64) -> (r: String)
    ensures
        r@ == decimal(n as nat),
    decreases n,
{
    if n < 10 {
        digit_text(n).to_owned()
    } else {
        let mut out: String = decimal_text(n / 10);
        let ghost front = out@;
        out.append(digit_text(n % 10));
        assert(out@ =~= front.push(digit_char((n % 10) as int)));
        out
    }
}

/// Whether `c` is a decimal digit.
pub open spec fn is_digit(c: char) -> bool {
    '0' <= c && c <= '9'
}

/// Whether every character of `s` is a decimal digit.
pub open spec fn all_digits(s: Seq<char>) -> bool {
    forall|i: int| 0 <= i < s.len() ==> is_digit(#[trigger] s[i])
}

/// The number that a sequence of decimal digits writes.
pub open spec fn digits_value(s: Seq<char>) -> nat
    decreases s.len(),
{
    if s.len() == 0 {
        0
    } else {
        digits_value(s.drop_last()) * 10 + (s.last() as nat - '0' as nat) as nat
    }
}

/// Why a text is not a number of the wanted size.
#[derive(Debug, Clone, Copy, PartialEq, Eq, Structural)]
pub enum NumberError {
    /// A character that is no digit, or no digit at all.
    InvalidDigit,
    /// The digits write a number that is too large.
    TooLarge,
}

impl NumberError {
    /// The message that a client reads.
    pub fn message(self) -> (r: String)
        ensures
            r@ == (match self {
                NumberError::InvalidDigit => "invalid digit found in string"@,
                NumberError::TooLarge => "number too large to fit in target type"@,
            }),
    {
        match self {
            NumberError::InvalidDigit => "invalid digit found in string".to_owned(),
            NumberError::TooLarge => "number too large to fit in target type".to_owned(),
        }
    }
}

/// The characters behind an optional plus sign. A sign on its own is not taken off.
pub open spec fn unsigned_part(s: Seq<char>) -> Seq<char> {
    if s.len() > 1 && s[0] == '+' {
        s.drop_first()
    } else {
        s
    }
}

/// Whether some leading part of `s` is made of digits that write a number above `limit`.
pub open spec fn overflows(s: Seq<char>, limit: nat) -> bool {
    exists|k: int|
        0 <= k <= s.len() && all_digits(#[trigger] s.take(k)) && digits_value(s.take(k)) > limit
}

/// The number that `s` writes: digits behind an optional plus sign, at most `limit`. The text is
/// read from the left, and the first thing wrong with it is the error.
pub open spec fn parsed_number(s: Seq<char>, limit: nat) -> Result<nat, NumberError> {
    let body = unsigned_part(s);
    if overflows(body, limit) {
        Err(NumberError::TooLarge)
    } else if body.len() > 0 && all_digits(body) {
        Ok(digits_value(body))
    } else {
        Err(NumberError::InvalidDigit)
    }
}

/// What one more character does to the number that the leading digits of `s` write.
proof fn lemma_next_digit(s: Seq<char>, at: int)
    requires
        0 <= at < s.len(),
        all_digits(s.take(at)),
    ensures
        digits_value(s.take(at + 1)) == digits_value(s.take(at)) * 10 + (s[at] as nat - '0' as nat) as nat,
        is_digit(s[at]) ==> all_digits(s.take(at + 1)),
        !is_digit(s[at]) ==> forall|k: int| at < k <= s.len() ==> !all_digits(#[trigger] s.take(k)),
{
    let next = s.take(at + 1);
    assert(next.drop_last() =~= s.take(at));
    assert(next.last() == s[at]);
    if is_digit(s[at]) {
        assert forall|j: int| 0 <= j < next.len() implies is_digit(#[trigger] next[j]) by {
            if j < at {
                assert(is_digit(s.take(at)[j]));
            }
        }
    } else {
        assert forall|k: int| at < k <= s.len() implies !all_digits(#[trigger] s.take(k)) by {
            assert(!is_digit(s.take(k)[at]));
        }
    }
}

/// Reads a number off a row of digits.
fn parse_digits(body: &Vec<char>) -> (r: Result<usize, NumberError>)
    ensures
        match r {
            Ok(n) => body@.len() > 0 && all_digits(body@) && digits_value(body@) == n && !overflows(
                body@,
                usize::MAX as nat,
            ),
            Err(NumberError::TooLarge) => overflows(body@, usize::MAX as nat),
            Err(NumberError::InvalidDigit) => !overflows(body@, usize::MAX as nat) && !(body@.len()
                > 0 && all_digits(body@)),
        },
{
    let ghost s = body@;
    let mut total: usize = 0;
    let mut i: usize = 0;
    assert(s.take(0).len() == 0);
    while i < body.len()
        invariant
            i <= s.len(),
            s == body@,
            all_digits(s.take(i as int)),
            total == digits_value(s.take(i as int)),
            forall|k: int| 0 <= k <= i ==> digits_value(#[trigger] s.take(k)) <= usize::MAX,
        decreases s.len() - i,
    {
        let c: char = body[i];
        proof {
            lemma_next_digit(s, i as int);
        }
        if !('0' <= c && c <= '9') {
            assert(!is_digit(s[i as int]));
            assert(!all_digits(s));
            return Err(NumberError::InvalidDigit);
        }
        let d: usize = (c as u32 - '0' as u32) as usize;
        match total.checked_mul(10) {
            Some(shifted) => match shifted.checked_add(d) {
                Some(sum) => {
                    total = sum;
                },
                None => {
                    assert(digits_value(s.take(i + 1)) > usize::MAX);
                    return Err(NumberError::TooLarge);
                },
            },
            None => {
                assert(digits_value(s.take(i + 1)) > usize::MAX);
                return Err(NumberError::TooLarge);
            },
        }
        i = i + 1;
    }
    assert(s.take(i as int) =~= s);
    if body.len() == 0 {
        return Err(NumberError::InvalidDigit);
    }
    Ok(total)
}

/// Reads a `usize` off a text.
pub fn parse_usize(s: &str) -> (r: Result<usize, NumberError>)
    ensures
        match r {
            Ok(n) => parsed_number(s@, usize::MAX as nat) == Ok::<nat, NumberError>(n as nat),
            Err(e) => parsed_number(s@, usize::MAX as nat) == Err::<nat, NumberError>(e),
        },
{
    let mut chars: Vec<char> = chars_of(s);
    if chars.len() > 1 && chars[0] == '+' {
        chars.remove(0);
    }
    assert(chars@ =~= unsigned_part(s@));
    parse_digits(&chars)
}

/// The Unicode upper case of a text, as the standard library maps it.
pub uninterp spec fn unicode_upper(s: Seq<char>) -> Seq<char>;

/// The ASCII upper case of a character; other characters stay.
pub open spec fn upper_char(c: char) -> char {
    if 'a' <= c && c <= 'z' {
        (c as u8 - 32) as char
    } else {
        c
    }
}

/// Calls `str::to_uppercase`. What it gives is a function of the text, named
/// [`unicode_upper`]; of a text of ASCII characters it is the text with `a` to `z` turned into
/// `A` to `Z`.
#[verifier::external_body]
pub(crate) fn to_upper(s: &str) -> (r: String)
    ensures
        r@ == unicode_upper(s@),
        is_ascii_chars(s@) ==> r@ == s@.map_values(|c: char| upper_char(c)),
{
    s.to_uppercase()
}

/// What is left of a text whose leading white space is taken off.
proof fn lemma_trim_front(s: Seq<char>)
    ensures
        trim_front(s).len() == 0 || !is_space(trim_front(s)[0]),
    decreases s.len(),
{
    if s.len() > 0 && is_space(s[0]) {
        lemma_trim_front(s.drop_first());
    }
}

/// What is left of a text whose trailing white space is taken off.
proof fn lemma_trim_back(s: Seq<char>)
    ensures
        trim_back(s).len() == 0 || !is_space(trim_back(s).last()),
        trim_back(s).len() <= s.len(),
        trim_back(s) == s.take(trim_back(s).len() as int),
    decreases s.len(),
{
    if s.len() > 0 && is_space(s.last()) {
        lemma_trim_back(s.drop_last());
        assert(s.take(trim_back(s).len() as int) =~= s.drop_last().take(trim_back(s).len() as int));
    } else {
        assert(s.take(s.len() as int) =~= s);
    }
}

/// A trimmed text neither starts nor ends with white space, and trimming it again changes
/// nothing.
pub proof fn law_trimming_is_final(s: Seq<char>)
    ensures
        trimmed(s).len() > 0 ==> !is_space(trimmed(s)[0]) && !is_space(trimmed(s).last()),
        trimmed(trimmed(s)) == trimmed(s),
{
    lemma_trim_front(s);
    lemma_trim_back(trim_front(s));
}

/// The digits of a number write that number.
proof fn lemma_decimal_value(n: nat)
    ensures
        decimal(n).len() > 0,
        all_digits(decimal(n)),
        digits_value(decimal(n)) == n,
    decreases n,
{
    if n < 10 {
        let s = decimal(n);
        assert(s.drop_last() =~= Seq::empty());
        assert(digits_value(s.drop_last()) == 0);
    } else {
        lemma_decimal_value(n / 10);
        let front = decimal(n / 10);
        let s = decimal(n);
        assert(s.drop_last() =~= front);
        assert forall|i: int| 0 <= i < s.len() implies is_digit(#[trigger] s[i]) by {
            if i < front.len() {
                assert(s[i] == front[i]);
            }
        }
    }
}

/// Leading digits write no larger number than all digits.
proof fn lemma_leading_digits(s: Seq<char>, k: int)
    requires
        all_digits(s),
        0 <= k <= s.len(),
    ensures
        digits_value(s.take(k)) <= digits_value(s),
    decreases s.len(),
{
    if k == s.len() {
        assert(s.take(k) =~= s);
    } else {
        let front = s.drop_last();
        assert(all_digits(front)) by {
            assert forall|i: int| 0 <= i < front.len() implies is_digit(#[trigger] front[i]) by {
                assert(front[i] == s[i]);
            }
        }
        lemma_leading_digits(front, k);
        assert(front.take(k) =~= s.take(k));
        assert(is_digit(s[s.len() - 1]));
    }
}

/// A number written in decimal reads back as itself, if it is within the limit, and as too large
/// if it is not.
pub proof fn law_decimal_reads_back(n: nat, limit: nat)
    ensures
        n <= limit ==> parsed_number(decimal(n), limit) == Ok::<nat, NumberError>(n),
        n > limit ==> parsed_number(decimal(n), limit) == Err::<nat, NumberError>(
            NumberError::TooLarge,
        ),
{
    lemma_decimal_value(n);
    let s = decimal(n);
    assert(is_digit(s[0]));
    assert(unsigned_part(s) == s);
    assert(s.take(s.len() as int) =~= s);
    if n <= limit {
        assert forall|k: int| 0 <= k <= s.len() implies digits_value(#[trigger] s.take(k)) <= limit by {
            lemma_leading_digits(s, k);
        }
    } else {
        assert(all_digits(s.take(s.len() as int)));
    }
}

/// Different numbers are written differently.
pub proof fn law_decimal_is_injective(a: nat, b: nat)
    requires
        decimal(a) == decimal(b),
    ensures
        a == b,
{
    lemma_decimal_value(a);
    lemma_decimal_value(b);
}

} // verus!
