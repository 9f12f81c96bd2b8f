use vstd::prelude::*;
use vstd::string::StringExecFns;
use crate::error::{AppError, AppResult};
use crate::text::{push_char, chars_of};

verus! {

/// The digit character for `d < 16` (lower-case letters above nine).
pub open spec fn digit_char(d: nat) -> char {
    if d < 10 {
        (d + 48) as char
    } else {
        (d + 87) as char
    }
}

pub fn digit_char_of(d: u32) -> (c: char)
    requires
        d < 16,
    ensures
        c == digit_char(d as nat),
{
    if d < 10 {
        char_from_code(d + 48)
    } else {
        char_from_code(d + 87)
    }
}

/// The character with an ASCII code (`char::from`).
fn char_from_code(code: u32) -> (c: char)
    requires
        code < 128,
    ensures
        c == code as char,
{
    let b: u8 = code as u8;
    b as char
}

/// The decimal digits of `v`, most significant first.
pub open spec fn decimal(v: nat) -> Seq<char>
    decreases v,
{
    if v < 10 {
        seq![digit_char(v)]
    } else {
        decimal(v / 10).push(digit_char(v % 10))
    }
}

/// Appends the decimal digits of `v`.
pub fn push_decimal(s: &mut String, v: u64)
    ensures
        final(s)@ == old(s)@ + decimal(v as nat),
    decreases v,
{
    if v >= 10 {
        push_decimal(s, v / 10);
    }
    push_char(s, digit_char_of((v % 10) as u32));
    proof {
        if v < 10 {
            assert(old(s)@ + decimal(v as nat) == old(s)@.push(digit_char(v as nat)));
        } else {
            assert(old(s)@ + decimal(v as nat) == (old(s)@ + decimal((v / 10) as nat)).push(
                digit_char((v % 10) as nat),
            ));
        }
    }
}

/// The decimal text of an unsigned integer (`u64::to_string`).
pub fn u64_text(v: u64) -> (r: String)
    ensures
        r@ == decimal(v as nat),
{
    let mut s = String::new();
    push_decimal(&mut s, v);
    s
}

/// The decimal text of a signed integer, with a leading minus sign when negative.
pub open spec fn signed_decimal(v: int) -> Seq<char> {
    if v < 0 {
        seq!['-'] + decimal((-v) as nat)
    } else {
        decimal(v as nat)
    }
}

/// Appends the decimal text of a signed integer (`i64::to_string`).
pub fn push_signed_decimal(s: &mut String, v: i64)
    ensures
        final(s)@ == old(s)@ + signed_decimal(v as int),
{
    if v < 0 {
        push_char(s, '-');
        let magnitude: u64 = (0i128 - (v as i128)) as u64;
        push_decimal(s, magnitude);
        assert(final(s)@ == old(s)@ + signed_decimal(v as int));
    } else {
        push_decimal(s, v as u64);
    }
}

/// The lowest `n` hexadecimal digits of `v`, most significant first.
pub open spec fn hex_fixed(v: nat, n: nat) -> Seq<char>
    decreases n,
{
    if n == 0 {
        seq![]
    } else {
        hex_fixed(v / 16, (n - 1) as nat).push(digit_char(v % 16))
    }
}

/// Appends the lowest `n` hexadecimal digits of `v`, zero-padded.
pub fn push_hex_fixed(s: &mut String, v: u128, n: usize)
    ensures
        final(s)@ == old(s)@ + hex_fixed(v as nat, n as nat),
    decreases n,
{
    if n > 0 {
        push_hex_fixed(s, v / 16, n - 1);
        push_char(s, digit_char_of((v % 16) as u32));
        assert(old(s)@ + hex_fixed(v as nat, n as nat) == (old(s)@ + hex_fixed(
            (v / 16) as nat,
            (n - 1) as nat,
        )).push(digit_char((v % 16) as nat)));
    } else {
        assert(old(s)@ + hex_fixed(v as nat, 0) == old(s)@);
    }
}

/// Sixteen zero-padded lower-case hexadecimal digits of `v` (`{:016x}`).
pub fn hex16(v: u64) -> (r: String)
    ensures
        r@ == hex_fixed(v as nat, 16),
{
    let mut s = String::new();
    push_hex_fixed(&mut s, v as u128, 16);
    s
}

/// The hyphenated lower-case text of a UUID: 32 hexadecimal digits, most
/// significant first, grouped 8-4-4-4-12.
pub open spec fn uuid_text_of(id: u128) -> Seq<char> {
    let h = hex_fixed(id as nat, 32);
    h.subrange(0, 8) + seq!['-'] + h.subrange(8, 12) + seq!['-'] + h.subrange(12, 16) + seq!['-']
        + h.subrange(16, 20) + seq!['-'] + h.subrange(20, 32)
}

/// Sixteen to the power `n`.
pub open spec fn pow16(n: nat) -> nat
    decreases n,
{
    if n == 0 {
        1
    } else {
        16 * pow16((n - 1) as nat)
    }
}

proof fn lemma_hex_fixed_len(v: nat, n: nat)
    ensures
        hex_fixed(v, n).len() == n,
    decreases n,
{
    if n > 0 {
        lemma_hex_fixed_len(v / 16, (n - 1) as nat);
    }
}

proof fn lemma_digit_char_injective(d: nat, e: nat)
    requires
        d < 16,
        e < 16,
        digit_char(d) == digit_char(e),
    ensures
        d == e,
{
    assert(digit_char(d) as nat == if d < 10 { d + 48 } else { d + 87 });
    assert(digit_char(e) as nat == if e < 10 { e + 48 } else { e + 87 });
}

/// Equal digit strings of width `n` come from numbers equal modulo `16^n`.
pub proof fn lemma_hex_fixed_injective(a: nat, b: nat, n: nat)
    requires
        hex_fixed(a, n) == hex_fixed(b, n),
    ensures
        a % pow16(n) == b % pow16(n),
    decreases n,
{
    if n == 0 {
        assert(a % 1 == 0) by (nonlinear_arith);
        assert(b % 1 == 0) by (nonlinear_arith);
    } else {
        let m = (n - 1) as nat;
        assert(hex_fixed(a, n).drop_last() == hex_fixed(a / 16, m));
        assert(hex_fixed(b, n).drop_last() == hex_fixed(b / 16, m));
        assert(hex_fixed(a, n).last() == digit_char(a % 16));
        assert(hex_fixed(b, n).last() == digit_char(b % 16));
        lemma_digit_char_injective(a % 16, b % 16);
        lemma_hex_fixed_injective(a / 16, b / 16, m);
        assert(pow16(m) > 0) by {
            lemma_pow16_positive(m);
        }
        vstd::arithmetic::div_mod::lemma_mod_breakdown(a as int, 16, pow16(m) as int);
        vstd::arithmetic::div_mod::lemma_mod_breakdown(b as int, 16, pow16(m) as int);
    }
}

proof fn lemma_pow16_positive(n: nat)
    ensures
        pow16(n) > 0,
    decreases n,
{
    if n > 0 {
        lemma_pow16_positive((n - 1) as nat);
    }
}

/// Two UUIDs with the same text are the same UUID.
pub proof fn lemma_uuid_text_injective(a: u128, b: u128)
    requires
        uuid_text_of(a) == uuid_text_of(b),
    ensures
        a == b,
{
    let ha = hex_fixed(a as nat, 32);
    let hb = hex_fixed(b as nat, 32);
    lemma_hex_fixed_len(a as nat, 32);
    lemma_hex_fixed_len(b as nat, 32);
    let t = uuid_text_of(a);
    assert forall|i: int| 0 <= i < 32 implies ha[i] == hb[i] by {
        if i < 8 {
            assert(t[i] == ha[i] && uuid_text_of(b)[i] == hb[i]);
        } else if i < 12 {
            assert(t[i + 1] == ha[i] && uuid_text_of(b)[i + 1] == hb[i]);
        } else if i < 16 {
            assert(t[i + 2] == ha[i] && uuid_text_of(b)[i + 2] == hb[i]);
        } else if i < 20 {
            assert(t[i + 3] == ha[i] && uuid_text_of(b)[i + 3] == hb[i]);
        } else {
            assert(t[i + 4] == ha[i] && uuid_text_of(b)[i + 4] == hb[i]);
        }
    }
    assert(ha =~= hb);
    lemma_hex_fixed_injective(a as nat, b as nat, 32);
    assert(pow16(32) == 0x1_0000_0000_0000_0000_0000_0000_0000_0000) by {
        reveal_with_fuel(pow16, 33);
    }
}

/// What `uuid::Uuid::parse_str` makes of a text: the UUID it reads, or the
/// text of the error it reports.
pub uninterp spec fn uuid_parse_result(text: Seq<char>) -> Result<u128, Seq<char>>;

/// The UUID a text reads as, if it reads as one.
pub open spec fn uuid_parsed(text: Seq<char>) -> Option<u128> {
    match uuid_parse_result(text) {
        Ok(id) => Some(id),
        Err(_) => None,
    }
}

/// Formats a UUID with `uuid::Uuid::to_string` (hyphenated, lower-case).
#[verifier::external_body]
pub(crate) fn uuid_to_text(id: u128) -> (r: String)
    ensures
        r@ == uuid_text_of(id),
{
    uuid::Uuid::from_u128(id).to_string()
}

/// A parse result with its error text as characters.
pub open spec fn parse_text_of(r: Result<u128, String>) -> Result<u128, Seq<char>> {
    match r {
        Ok(id) => Ok(id),
        Err(e) => Err(e@),
    }
}

/// A successful parse of `id`.
pub open spec fn parsed_as(id: u128) -> Result<u128, Seq<char>> {
    Ok(id)
}

/// Reads a UUID with `uuid::Uuid::parse_str`, giving the error's text when
/// it refuses; the hyphenated text of a UUID reads back as that UUID.
#[verifier::external_body]
pub(crate) fn parse_uuid_text(text: &str) -> (r: Result<u128, String>)
    ensures
        parse_text_of(r) == uuid_parse_result(text@),
        forall|id: u128| text@ == uuid_text_of(id) ==> parse_text_of(r) == parsed_as(id),
{
    match uuid::Uuid::parse_str(text) {
        Ok(u) => Ok(u.as_u128()),
        Err(e) => Err(e.to_string()),
    }
}

/// Reads a UUID, if the text is one.
pub fn parse_uuid(text: &str) -> (r: Option<u128>)
    ensures
        r == uuid_parsed(text@),
        forall|id: u128| text@ == uuid_text_of(id) ==> r == Some(id),
{
    match parse_uuid_text(text) {
        Ok(id) => Some(id),
        Err(_) => None,
    }
}

/// Reads an account id, reporting `Invalid UUID: ` and the parser's message
/// when the text is not a UUID.
pub fn parse_account_id(text: &str) -> (r: AppResult<u128>)
    ensures
        match uuid_parse_result(text@) {
            Ok(id) => r == Ok::<u128, AppError>(id),
            Err(m) => r matches Err(AppError::Other(t)) && t@ == "Invalid UUID: "@ + m,
        },
{
    match parse_uuid_text(text) {
        Ok(id) => Ok(id),
        Err(m) => {
            let mut t = String::from_str("Invalid UUID: ");
            t.append(m.as_str());
            Err(AppError::Other(t))
        },
    }
}

/// Whether a character is an ASCII decimal digit.
pub open spec fn is_digit(c: char) -> bool {
    '0' <= c && c <= '9'
}

/// Every character of `s` is an ASCII decimal digit.
pub open spec fn all_digits(s: Seq<char>) -> bool {
    forall|i: int| 0 <= i < s.len() ==> is_digit(#[trigger] s[i])
}

/// The number that a sequence of decimal digits denotes.
pub open spec fn digits_value(s: Seq<char>) -> nat
    decreases s.len(),
{
    if s.len() == 0 {
        0
    } else {
        digits_value(s.drop_last()) * 10 + ((s.last() as nat) - 48) as nat
    }
}

/// The text after an optional leading `+`.
pub open spec fn unsigned_digits(s: Seq<char>) -> Seq<char> {
    if s.len() > 0 && s[0] == '+' {
        s.drop_first()
    } else {
        s
    }
}

/// What `str::parse::<u64>` yields: an optional `+` followed by at least one
/// decimal digit, whose value fits in 64 bits.
pub open spec fn parsed_u64(s: Seq<char>) -> Option<u64> {
    let d = unsigned_digits(s);
    if d.len() > 0 && all_digits(d) && digits_value(d) <= u64::MAX {
        Some(digits_value(d) as u64)
    } else {
        None
    }
}

proof fn lemma_digits_value_grows(s: Seq<char>, k: int)
    requires
        0 <= k <= s.len(),
        all_digits(s),
    ensures
        digits_value(s.subrange(0, k)) <= digits_value(s),
    decreases s.len() - k,
{
    if k < s.len() {
        lemma_digits_value_grows(s, k + 1);
        assert(s.subrange(0, k + 1).drop_last() == s.subrange(0, k));
        assert(is_digit(s[k]));
    } else {
        assert(s.subrange(0, k) == s);
    }
}

/// Parses an unsigned decimal integer (`str::parse::<u64>`).
pub fn parse_u64(text: &[char]) -> (r: Option<u64>)
    ensures
        r == parsed_u64(text@),
{
    let ghost s = text@;
    let start: usize = if text.len() > 0 && text[0] == '+' {
        1
    } else {
        0
    };
    let ghost d = unsigned_digits(s);
    assert(d == s.subrange(start as int, s.len() as int));
    if start == text.len() {
        return None;
    }
    let mut acc: u64 = 0;
    let mut i = start;
    while i < text.len()
        invariant
            start <= i <= text@.len(),
            s == text@,
            d == s.subrange(start as int, s.len() as int),
            d == unsigned_digits(s),
            all_digits(d.subrange(0, i - start)),
            acc == digits_value(d.subrange(0, i - start)),
        decreases text@.len() - i,
    {
        let c = text[i];
        if !('0' <= c && c <= '9') {
            assert(d[i - start] == c);
            assert(!is_digit(d[i - start]));
            return None;
        }
        let dv: u64 = (c as u32 - 48) as u64;
        assert(d.subrange(0, i + 1 - start).drop_last() == d.subrange(0, i - start));
        assert(d.subrange(0, i + 1 - start).last() == c);
        if acc > (u64::MAX - dv) / 10 {
            proof {
                assert(digits_value(d.subrange(0, i + 1 - start)) == acc * 10 + dv);
                assert(acc * 10 + dv > u64::MAX);
                assert(all_digits(d.subrange(0, i + 1 - start)));
                if all_digits(d) {
                    lemma_digits_value_grows(d, i + 1 - start);
                }
            }
            return None;
        }
        acc = acc * 10 + dv;
        i += 1;
    }
    assert(d.subrange(0, d.len() as int) == d);
    Some(acc)
}

/// Parses a decimal integer from a string slice (`str::parse::<u64>`).
pub fn parse_u64_str(text: &str) -> (r: Option<u64>)
    ensures
        r == parsed_u64(text@),
{
    let v = chars_of(text);
    parse_u64(v.as_slice())
}

} // verus!
