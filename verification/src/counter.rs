//! The counter value as it is kept in the key-value store: the decimal text
//! of an `i32`, read back with surrounding white space allowed, as
//! `String::from_utf8(bytes)?.trim().parse::<i32>()` reads it.

use vstd::prelude::*;
use vstd::utf8::*;
use crate::text::{
    Pattern, trim_spec, trim_start_spec, trim_end_spec, trim_bounds, chars_of, is_whitespace_spec,
    lemma_trim_surrounding,
};

verus! {

/// Why a stored counter value cannot be read or advanced.
#[derive(Clone, Copy, Debug, PartialEq, Eq, Structural)]
pub enum CounterError {
    /// The stored bytes are not UTF-8.
    NotUtf8,
    /// The stored text, trimmed of white space, is not a decimal `i32`.
    NotANumber,
    /// The new value does not fit in an `i32`.
    Overflow,
}

/// An ASCII decimal digit.
pub open spec fn is_digit_spec(c: char) -> bool {
    48 <= c as u32 <= 57
}

/// The value of the decimal digit `c`.
pub open spec fn digit_value(c: char) -> int {
    c as u32 - 48
}

/// Every character of `s` is a decimal digit.
pub open spec fn all_digits(s: Seq<char>) -> bool {
    forall|i: int| 0 <= i < s.len() ==> is_digit_spec(#[trigger] s[i])
}

/// The number that the digits `s` spell, most significant first.
pub open spec fn digits_value(s: Seq<char>) -> int
    decreases s.len(),
{
    if s.len() == 0 {
        0
    } else {
        digits_value(s.drop_last()) * 10 + digit_value(s.last())
    }
}

/// The integer that `s` writes: an optional `+` or `-` followed by at
/// least one decimal digit, and nothing else.
pub open spec fn decimal_value(s: Seq<char>) -> Option<int> {
    if s.len() > 0 && (s[0] == '+' || s[0] == '-') {
        let d = s.drop_first();
        if d.len() > 0 && all_digits(d) {
            Some(
                if s[0] == '-' {
                    -digits_value(d)
                } else {
                    digits_value(d)
                },
            )
        } else {
            None
        }
    } else if s.len() > 0 && all_digits(s) {
        Some(digits_value(s))
    } else {
        None
    }
}

/// What `s.parse::<i32>()` gives: the value `s` writes, where it fits.
pub open spec fn parse_i32_spec(s: Seq<char>) -> Option<i32> {
    match decimal_value(s) {
        Some(v) => if i32::MIN <= v <= i32::MAX {
            Some(v as i32)
        } else {
            None
        },
        None => None,
    }
}

proof fn lemma_digits_value_nonneg(s: Seq<char>)
    requires
        all_digits(s),
    ensures
        digits_value(s) >= 0,
    decreases s.len(),
{
    if s.len() > 0 {
        lemma_digits_value_nonneg(s.drop_last());
    }
}

/// A prefix of a digit string never spells more than the whole string.
proof fn lemma_digits_prefix(s: Seq<char>, k: int)
    requires
        all_digits(s),
        0 <= k <= s.len(),
    ensures
        digits_value(s.subrange(0, k)) <= digits_value(s),
    decreases s.len(),
{
    if k == s.len() {
        assert(s.subrange(0, k) =~= s);
    } else {
        let t = s.drop_last();
        assert(t.subrange(0, k) =~= s.subrange(0, k));
        lemma_digits_prefix(t, k);
        lemma_digits_value_nonneg(t);
    }
}

/// Whether `c` is a decimal digit.
pub fn is_digit(c: char) -> (b: bool)
    ensures
        b == is_digit_spec(c),
{
    let u = c as u32;
    48 <= u && u <= 57
}

/// `chars[from..to].parse::<i32>()`, as an `Option`.
pub fn parse_i32(chars: &Vec<char>, from: usize, to: usize) -> (r: Option<i32>)
    requires
        from <= to <= chars@.len(),
    ensures
        r == parse_i32_spec(chars@.subrange(from as int, to as int)),
{
    let ghost s = chars@.subrange(from as int, to as int);
    if from == to {
        return None;
    }
    let first = chars[from];
    let negative = first == '-';
    let signed = first == '+' || first == '-';
    let start: usize = if signed { from + 1 } else { from };
    if start == to {
        return None;
    }
    let ghost d = chars@.subrange(start as int, to as int);
    assert(s[0] == first);
    assert(signed ==> d =~= s.drop_first());
    assert(!signed ==> d =~= s);
    let limit: u64 = if negative { 2147483648 } else { 2147483647 };
    let mut acc: u64 = 0;
    let mut i: usize = start;
    while i < to
        invariant
            from <= start < to,
            start <= i <= to <= chars@.len(),
            d == chars@.subrange(start as int, to as int),
            s == chars@.subrange(from as int, to as int),
            s.len() > 0,
            negative == (s[0] == '-'),
            signed == (s[0] == '+' || s[0] == '-'),
            signed ==> d == s.drop_first(),
            !signed ==> d == s,
            limit == (if negative { 2147483648u64 } else { 2147483647u64 }),
            all_digits(chars@.subrange(start as int, i as int)),
            acc as int == digits_value(chars@.subrange(start as int, i as int)),
            acc <= limit,
            limit <= 2147483648,
        decreases to - i,
    {
        let c = chars[i];
        if !is_digit(c) {
            assert(!all_digits(d)) by {
                assert(d[i - start] == c);
            }
            return None;
        }
        let ghost prev = chars@.subrange(start as int, i as int);
        let ghost next = chars@.subrange(start as int, i + 1);
        assert(next.drop_last() =~= prev);
        assert(all_digits(next));
        acc = acc * 10 + (c as u32 - 48) as u64;
        i = i + 1;
        if acc > limit {
            proof {
                if all_digits(d) {
                    assert(next =~= d.subrange(0, i - start));
                    lemma_digits_prefix(d, i - start);
                }
            }
            return None;
        }
    }
    assert(chars@.subrange(start as int, to as int) =~= d);
    if negative {
        Some((0 - (acc as i64)) as i32)
    } else {
        Some(acc as i32)
    }
}

/// What reading a stored counter gives: the bytes must be UTF-8, and the
/// text, trimmed of white space, must be a decimal `i32`.
pub open spec fn parse_counter_spec(bytes: Seq<u8>) -> Result<i32, CounterError> {
    if !valid_utf8(bytes) {
        Err(CounterError::NotUtf8)
    } else {
        match parse_i32_spec(trim_spec(decode_utf8(bytes), Pattern::Whitespace)) {
            Some(v) => Ok(v),
            None => Err(CounterError::NotANumber),
        }
    }
}

/// `std::str::from_utf8`, with its error dropped.
/// The contract claims that it accepts exactly the valid UTF-8 byte strings
/// (vstd's `valid_utf8`) and that the text it gives back is their decoding.
#[verifier::external_body]
fn str_from_utf8<'a>(bytes: &'a [u8]) -> (res: Option<&'a str>)
    ensures
        res is Some <==> valid_utf8(bytes@),
        res matches Some(s) ==> s@ == decode_utf8(bytes@),
{
    match std::str::from_utf8(bytes) {
        Ok(s) => Some(s),
        Err(_) => None,
    }
}

/// Reads a counter value as the store holds it.
pub fn parse_counter(bytes: &[u8]) -> (r: Result<i32, CounterError>)
    ensures
        r == parse_counter_spec(bytes@),
{
    match str_from_utf8(bytes) {
        None => Err(CounterError::NotUtf8),
        Some(text) => {
            let chars = chars_of(text);
            let n = chars.len();
            let (a, b) = trim_bounds(&chars, 0, n, Pattern::Whitespace);
            assert(chars@.subrange(0, n as int) =~= chars@);
            match parse_i32(&chars, a, b) {
                Some(v) => Ok(v),
                None => Err(CounterError::NotANumber),
            }
        },
    }
}

/// The decimal digit character for `d`.
pub open spec fn digit_char(d: int) -> char {
    (d + 48) as char
}

/// The decimal digits of `n`, most significant first, without leading zeros.
pub open spec fn digits_text(n: nat) -> Seq<char>
    decreases n,
{
    if n < 10 {
        seq![digit_char(n as int)]
    } else {
        digits_text(n / 10).push(digit_char((n % 10) as int))
    }
}

/// The decimal text of `v`, as `v.to_string()` writes it.
pub open spec fn decimal_text(v: int) -> Seq<char> {
    if v < 0 {
        seq!['-'] + digits_text((-v) as nat)
    } else {
        digits_text(v as nat)
    }
}

/// The bytes under which the store keeps the counter value `v`.
pub open spec fn counter_bytes_spec(v: i32) -> Seq<u8> {
    encode_utf8(decimal_text(v as int))
}

/// The byte of each character of an ASCII text.
pub open spec fn ascii_bytes(s: Seq<char>) -> Seq<u8> {
    s.map_values(|c: char| c as u8)
}

proof fn lemma_digit_char(d: int)
    requires
        0 <= d <= 9,
    ensures
        digit_char(d) as u32 == d + 48,
        is_digit_spec(digit_char(d)),
        digit_value(digit_char(d)) == d,
        digit_char(d) as u8 == d + 48,
{
}

proof fn lemma_digits_text(n: nat)
    ensures
        digits_text(n).len() > 0,
        all_digits(digits_text(n)),
        digits_value(digits_text(n)) == n,
        is_ascii_chars(digits_text(n)),
    decreases n,
{
    if n < 10 {
        lemma_digit_char(n as int);
        assert(digits_text(n).drop_last() =~= Seq::<char>::empty());
        assert(digits_value(Seq::<char>::empty()) == 0);
        assert(digits_value(digits_text(n)) == n);
    } else {
        lemma_digits_text(n / 10);
        lemma_digit_char((n % 10) as int);
        assert(digits_text(n).drop_last() =~= digits_text(n / 10));
        assert(digits_text(n).last() == digit_char((n % 10) as int));
        assert(n == (n / 10) * 10 + n % 10) by (nonlinear_arith);
        assert(digits_value(digits_text(n)) == digits_value(digits_text(n / 10)) * 10 + (n % 10));
    }
}

/// Appends the decimal digits of `n` to `out`.
fn push_digits(out: &mut Vec<u8>, n: u64)
    ensures
        final(out)@ == old(out)@ + ascii_bytes(digits_text(n as nat)),
    decreases n,
{
    if n >= 10 {
        push_digits(out, n / 10);
    }
    let ghost before = out@;
    proof {
        lemma_digit_char((n % 10) as int);
    }
    out.push((48 + n % 10) as u8);
    proof {
        if n >= 10 {
            assert(ascii_bytes(digits_text(n as nat)) =~= ascii_bytes(digits_text((n / 10) as nat)).push(
                (48 + n % 10) as u8,
            ));
        } else {
            assert(ascii_bytes(digits_text(n as nat)) =~= seq![(48 + n % 10) as u8]);
        }
        assert(out@ =~= old(out)@ + ascii_bytes(digits_text(n as nat)));
    }
}

proof fn lemma_decimal_text(v: int)
    ensures
        is_ascii_chars(decimal_text(v)),
        decimal_text(v).len() > 0,
{
    if v < 0 {
        lemma_digits_text((-v) as nat);
        let t = decimal_text(v);
        assert forall|i: int| 0 <= i < t.len() implies '\0' <= #[trigger] t[i] <= '\u{7f}' by {
            if i > 0 {
                assert(t[i] == digits_text((-v) as nat)[i - 1]);
            }
        }
    } else {
        lemma_digits_text(v as nat);
    }
}

/// The bytes under which the store keeps the counter value `v`, as
/// `v.to_string().as_bytes()` gives them.
pub fn counter_bytes(v: i32) -> (b: Vec<u8>)
    ensures
        b@ == counter_bytes_spec(v),
{
    let mut out: Vec<u8> = Vec::new();
    let magnitude: u64;
    if v < 0 {
        out.push(45u8);
        magnitude = (0 - (v as i64)) as u64;
    } else {
        magnitude = v as u64;
    }
    push_digits(&mut out, magnitude);
    proof {
        let t = decimal_text(v as int);
        lemma_decimal_text(v as int);
        is_ascii_chars_encode_utf8(t);
        assert(out@ =~= ascii_bytes(t));
        assert(out@ =~= encode_utf8(t));
    }
    out
}

/// What advancing the stored counter by `amount` writes back: the bytes of
/// the stored value plus `amount`, or why there is nothing to write.
pub open spec fn increment_spec(stored: Seq<u8>, amount: i32) -> Result<Seq<u8>, CounterError> {
    match parse_counter_spec(stored) {
        Err(e) => Err(e),
        Ok(v) => if i32::MIN <= v + amount <= i32::MAX {
            Ok(counter_bytes_spec((v + amount) as i32))
        } else {
            Err(CounterError::Overflow)
        },
    }
}

/// A counter value reads back as the value that was written: the bytes that
/// the store is given for `v` parse to `v`.
pub proof fn lemma_counter_roundtrip(v: i32)
    ensures
        parse_counter_spec(counter_bytes_spec(v)) == Ok::<i32, CounterError>(v),
{
    broadcast use encode_utf8_valid_utf8, encode_utf8_decode_utf8;

    let t = decimal_text(v as int);
    lemma_decimal_text(v as int);
    let m: nat = if v < 0 { (-v) as nat } else { v as nat };
    lemma_digits_text(m);
    let d = digits_text(m);
    if v < 0 {
        assert(t.drop_first() =~= d);
        assert(t[0] == '-');
    } else {
        assert(t == d);
        assert(is_digit_spec(t[0]));
    }
    assert(t.last() == d.last());
    assert(is_digit_spec(d.last()));
    assert(!is_whitespace_spec(t[0]));
    assert(!is_whitespace_spec(t.last()));
    assert(trim_start_spec(t, Pattern::Whitespace) == t);
    assert(trim_end_spec(t, Pattern::Whitespace) == t);
    assert(decode_utf8(counter_bytes_spec(v)) == t);
}

/// White space around a stored value never changes what is read: for every
/// text `s` and white-space texts `w1` and `w2`, the UTF-8 bytes of
/// `w1 + s + w2` read as those of `s` do; in particular the text of any `v`
/// with white space around it reads as `v`.
pub proof fn lemma_counter_ignores_surrounding_whitespace(
    s: Seq<char>,
    w1: Seq<char>,
    w2: Seq<char>,
    v: i32,
)
    requires
        forall|i: int| 0 <= i < w1.len() ==> is_whitespace_spec(#[trigger] w1[i]),
        forall|i: int| 0 <= i < w2.len() ==> is_whitespace_spec(#[trigger] w2[i]),
    ensures
        parse_counter_spec(encode_utf8(w1 + s + w2)) == parse_counter_spec(encode_utf8(s)),
        parse_counter_spec(encode_utf8(w1 + decimal_text(v as int) + w2)) == Ok::<
            i32,
            CounterError,
        >(v),
{
    broadcast use encode_utf8_valid_utf8, encode_utf8_decode_utf8;

    lemma_trim_surrounding(s, w1, w2, Pattern::Whitespace);
    lemma_trim_surrounding(decimal_text(v as int), w1, w2, Pattern::Whitespace);
    lemma_counter_roundtrip(v);
}

proof fn lemma_digits_value_leading_zero(d: Seq<char>)
    ensures
        digits_value(seq!['0'] + d) == digits_value(d),
    decreases d.len(),
{
    if d.len() == 0 {
        let z = seq!['0'] + d;
        assert(z.drop_last() =~= Seq::<char>::empty());
        assert(digits_value(Seq::<char>::empty()) == 0);
    } else {
        lemma_digits_value_leading_zero(d.drop_last());
        assert((seq!['0'] + d).drop_last() =~= seq!['0'] + d.drop_last());
    }
}

/// Reading a digit string that a trim leaves alone.
proof fn lemma_parse_untrimmed(t: Seq<char>)
    requires
        t.len() > 0,
        !is_whitespace_spec(t[0]),
        !is_whitespace_spec(t.last()),
    ensures
        parse_counter_spec(encode_utf8(t)) == match parse_i32_spec(t) {
            Some(v) => Ok::<i32, CounterError>(v),
            None => Err(CounterError::NotANumber),
        },
{
    broadcast use encode_utf8_valid_utf8, encode_utf8_decode_utf8;

    assert(trim_start_spec(t, Pattern::Whitespace) == t);
    assert(trim_end_spec(t, Pattern::Whitespace) == t);
}

/// How a digit string `d` reads with a sign or a zero before it: a leading
/// `0` or `+` does not change the value, and a leading `-` negates it.
pub proof fn lemma_counter_sign_and_leading_zero(d: Seq<char>)
    requires
        d.len() > 0,
        all_digits(d),
    ensures
        parse_counter_spec(encode_utf8(seq!['0'] + d)) == parse_counter_spec(encode_utf8(d)),
        parse_counter_spec(encode_utf8(seq!['+'] + d)) == parse_counter_spec(encode_utf8(d)),
        parse_counter_spec(encode_utf8(d)) is Ok ==> parse_counter_spec(
            encode_utf8(seq!['-'] + d),
        ) == Ok::<i32, CounterError>(-(parse_counter_spec(encode_utf8(d))->Ok_0) as i32),
{
    assert(is_digit_spec(d[0]));
    assert(is_digit_spec(d.last()));
    lemma_parse_untrimmed(d);
    let z = seq!['0'] + d;
    let plus = seq!['+'] + d;
    let minus = seq!['-'] + d;
    assert(z.last() == d.last() && plus.last() == d.last() && minus.last() == d.last());
    lemma_parse_untrimmed(z);
    lemma_parse_untrimmed(plus);
    lemma_parse_untrimmed(minus);
    assert(all_digits(z)) by {
        assert forall|i: int| 0 <= i < z.len() implies is_digit_spec(#[trigger] z[i]) by {
            if i > 0 {
                assert(z[i] == d[i - 1]);
            }
        }
    }
    lemma_digits_value_leading_zero(d);
    assert(plus.drop_first() =~= d);
    assert(minus.drop_first() =~= d);
    assert(d[0] != '+' && d[0] != '-');
    assert(decimal_value(d) == Some(digits_value(d)));
    assert(minus[0] == '-');
    assert(decimal_value(minus) == Some(-digits_value(d)));
    lemma_digits_value_nonneg(d);
}

/// What reads as a number: once trimmed of white space, the text is one or
/// more decimal digits with at most a `+` or `-` before them.
pub proof fn lemma_counter_accepts_only_decimal(s: Seq<char>)
    requires
        parse_counter_spec(encode_utf8(s)) is Ok,
    ensures
        ({
            let t = trim_spec(s, Pattern::Whitespace);
            &&& t.len() > 0
            &&& is_digit_spec(t[0]) || ((t[0] == '+' || t[0] == '-') && t.len() > 1)
            &&& forall|i: int| 1 <= i < t.len() ==> is_digit_spec(#[trigger] t[i])
        }),
{
    broadcast use encode_utf8_valid_utf8, encode_utf8_decode_utf8;

    let t = trim_spec(s, Pattern::Whitespace);
    if t.len() > 0 && (t[0] == '+' || t[0] == '-') {
        let d = t.drop_first();
        assert forall|i: int| 1 <= i < t.len() implies is_digit_spec(#[trigger] t[i]) by {
            assert(t[i] == d[i - 1]);
        }
    }
}

/// Reading the counter after an increment gives the value read before it
/// plus the amount.
pub proof fn lemma_read_after_increment(stored: Seq<u8>, amount: i32)
    requires
        increment_spec(stored, amount) is Ok,
    ensures
        parse_counter_spec(stored) is Ok,
        parse_counter_spec(increment_spec(stored, amount)->Ok_0) == Ok::<i32, CounterError>(
            (parse_counter_spec(stored)->Ok_0 + amount) as i32,
        ),
{
    let v = parse_counter_spec(stored)->Ok_0;
    lemma_counter_roundtrip((v + amount) as i32);
}

/// Two increments in a row leave the same bytes as one increment by their
/// sum, where no step overflows.
pub proof fn lemma_increments_compose(stored: Seq<u8>, a: i32, b: i32)
    requires
        parse_counter_spec(stored) is Ok,
        i32::MIN <= parse_counter_spec(stored)->Ok_0 + a <= i32::MAX,
        i32::MIN <= parse_counter_spec(stored)->Ok_0 + a + b <= i32::MAX,
        i32::MIN <= a + b <= i32::MAX,
    ensures
        increment_spec(stored, a) is Ok,
        increment_spec(increment_spec(stored, a)->Ok_0, b) == increment_spec(stored, (a + b) as i32),
{
    let v = parse_counter_spec(stored)->Ok_0;
    lemma_counter_roundtrip((v + a) as i32);
}

} // verus!
