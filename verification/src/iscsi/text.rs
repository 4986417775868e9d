//! The text that login PDUs carry: `key=value` pairs, each ended by a NUL
//! character, and decimal numbers in them.

use vstd::prelude::*;
use vstd::utf8::{decode_utf8, encode_utf8, encode_utf8_decode_utf8, valid_utf8};

verus! {

// ---------------------------------------------------------------------------
// Strings
// ---------------------------------------------------------------------------

/// `std::str::from_utf8`: the string that the bytes encode, where they are
/// valid UTF-8.
#[verifier::external_body]
fn str_from_utf8(data: &[u8]) -> (r: Option<&str>)
    ensures
        match r {
            Some(s) => valid_utf8(data@) && s@ == decode_utf8(data@),
            None => !valid_utf8(data@),
        },
{
    std::str::from_utf8(data).ok()
}

/// The characters of `s`.
pub fn chars_of(s: &str) -> (r: Vec<char>)
    ensures
        r@ == s@,
{
    let mut r: Vec<char> = Vec::new();
    for c in it: s.chars()
        invariant
            it.seq() == s@,
            r@ == s@.take(it.index() as int),
    {
        assert(s@.take(it.index() as int).push(c) =~= s@.take(it.index() + 1));
        r.push(c);
    }
    assert(r@ =~= s@);
    r
}

/// Whether two strings hold the same characters.
pub fn str_eq(a: &str, b: &str) -> (r: bool)
    ensures
        r == (a@ == b@),
{
    let x: &[u8] = a.as_bytes();
    let y: &[u8] = b.as_bytes();
    proof {
        encode_utf8_decode_utf8(a@);
        encode_utf8_decode_utf8(b@);
    }
    if x.len() != y.len() {
        return false;
    }
    let mut i: usize = 0;
    while i < x.len()
        invariant
            i <= x.len() == y.len(),
            x@ == encode_utf8(a@),
            y@ == encode_utf8(b@),
            forall|j: int| 0 <= j < i ==> x[j] == y[j],
        decreases x.len() - i,
    {
        if x[i] != y[i] {
            return false;
        }
        i = i + 1;
    }
    assert(x@ =~= y@);
    true
}

// ---------------------------------------------------------------------------
// Key-value pairs
// ---------------------------------------------------------------------------

/// The index of the first `c` in `s`, or the length where there is none.
pub open spec fn first_of(s: Seq<char>, c: char) -> int
    decreases s.len(),
{
    if s.len() == 0 || s[0] == c {
        0
    } else {
        1 + first_of(s.drop_first(), c)
    }
}

proof fn lemma_first_of(s: Seq<char>, c: char, n: int)
    requires
        0 <= n <= s.len(),
        forall|i: int| 0 <= i < n ==> s[i] != c,
        n < s.len() ==> s[n] == c,
    ensures
        first_of(s, c) == n,
    decreases n,
{
    if n > 0 {
        assert forall|i: int| 0 <= i < n - 1 implies s.drop_first()[i] != c by {
            assert(s[i + 1] != c);
        }
        lemma_first_of(s.drop_first(), c, n - 1);
    }
}

proof fn lemma_first_of_is_first(s: Seq<char>, c: char)
    ensures
        0 <= first_of(s, c) <= s.len(),
        forall|i: int| 0 <= i < first_of(s, c) ==> s[i] != c,
        first_of(s, c) < s.len() ==> s[first_of(s, c)] == c,
    decreases s.len(),
{
    if s.len() > 0 && s[0] != c {
        let rest = s.drop_first();
        lemma_first_of_is_first(rest, c);
        assert forall|i: int| 0 <= i < first_of(s, c) implies s[i] != c by {
            if i > 0 {
                assert(rest[i - 1] == s[i]);
            }
        }
    }
}

/// A key and its value.
pub type Pair = (Seq<char>, Seq<char>);

/// The pair that one entry stands for: what stands before the first `=` and
/// what stands behind it. An entry without `=` stands for nothing.
pub open spec fn entry_pairs(entry: Seq<char>) -> Seq<Pair> {
    let n = first_of(entry, '=');
    if n < entry.len() {
        seq![(entry.take(n), entry.skip(n + 1))]
    } else {
        seq![]
    }
}

/// The pairs in a text whose entries are separated by NUL characters.
pub open spec fn text_pairs(text: Seq<char>) -> Seq<Pair>
    decreases text.len(),
{
    if text.len() == 0 {
        seq![]
    } else {
        let n = first_of(text, '\0');
        if 0 <= n < text.len() {
            entry_pairs(text.take(n)) + text_pairs(text.skip(n + 1))
        } else {
            entry_pairs(text)
        }
    }
}

/// The pairs in the data of a text or login PDU. Data that is no text holds
/// none.
pub open spec fn kv_pairs(data: Seq<u8>) -> Seq<Pair> {
    if valid_utf8(data) {
        text_pairs(decode_utf8(data))
    } else {
        seq![]
    }
}

/// The characters of borrowed pairs.
pub open spec fn pairs_view(v: Seq<(&str, &str)>) -> Seq<Pair> {
    v.map_values(|p: (&str, &str)| (p.0@, p.1@))
}

/// The index of the first `c` at or behind `from`, or the length.
fn find_char(s: &Vec<char>, from: usize, to: usize, c: char) -> (n: usize)
    requires
        from <= to <= s.len(),
    ensures
        from <= n <= to,
        n == from + first_of(s@.subrange(from as int, to as int), c),
        n < to ==> s[n as int] == c,
{
    let mut n: usize = from;
    while n < to && s[n] != c
        invariant
            from <= n <= to <= s.len(),
            forall|i: int| from <= i < n ==> s[i] != c,
        decreases to - n,
    {
        n = n + 1;
    }
    proof {
        lemma_first_of(s@.subrange(from as int, to as int), c, n - from);
    }
    n
}

/// Parse iSCSI text key=value pairs from NUL-separated data.
///
/// Each pair is terminated by a NUL byte. Returns references into the
/// input slice. Empty entries (e.g. from trailing NUL) are skipped.
pub fn parse_kv_pairs(data: &[u8]) -> (pairs: Vec<(&str, &str)>)
    ensures
        pairs_view(pairs@) == kv_pairs(data@),
{
    let text: &str = match str_from_utf8(data) {
        Some(t) => t,
        None => {
            let none: Vec<(&str, &str)> = Vec::new();
            assert(pairs_view(none@) =~= seq![]);
            return none;
        },
    };
    let chars: Vec<char> = chars_of(text);
    let mut pairs: Vec<(&str, &str)> = Vec::new();
    let mut from: usize = 0;
    assert(chars@.skip(0) =~= chars@);
    assert(pairs_view(pairs@) =~= seq![]);
    assert(pairs_view(pairs@) + text_pairs(chars@.skip(0)) =~= kv_pairs(data@));
    while from < chars.len()
        invariant
            from <= chars.len(),
            chars@ == text@,
            pairs_view(pairs@) + text_pairs(chars@.skip(from as int)) == kv_pairs(data@),
        decreases chars.len() - from,
    {
        let ghost before = pairs@;
        let ghost rest = chars@.skip(from as int);
        let end: usize = find_char(&chars, from, chars.len(), '\0');
        let eq: usize = find_char(&chars, from, end, '=');
        let ghost entry = chars@.subrange(from as int, end as int);
        assert(chars@.subrange(from as int, chars@.len() as int) =~= rest);
        assert(entry =~= rest.take(end - from));
        if eq < end {
            let key: &str = text.substring_char(from, eq);
            let value: &str = text.substring_char(eq + 1, end);
            assert(key@ =~= entry.take(eq - from));
            assert(value@ =~= entry.skip(eq - from + 1));
            pairs.push((key, value));
            assert(pairs_view(pairs@) =~= pairs_view(before) + seq![(key@, value@)]);
        }
        assert(pairs_view(pairs@) =~= pairs_view(before) + entry_pairs(entry));
        let ghost after = if end < chars.len() {
            chars@.skip(end + 1)
        } else {
            seq![]
        };
        proof {
            if end < chars.len() {
                assert(rest.skip(end - from + 1) =~= after);
                assert(text_pairs(rest) == entry_pairs(entry) + text_pairs(after));
            } else {
                assert(entry =~= rest);
                assert(text_pairs(rest) =~= entry_pairs(entry) + text_pairs(after));
            }
            assert((pairs_view(before) + entry_pairs(entry)) + text_pairs(after) =~= pairs_view(
                before,
            ) + (entry_pairs(entry) + text_pairs(after)));
        }
        if end < chars.len() {
            from = end + 1;
        } else {
            from = chars.len();
            assert(chars@.skip(from as int) =~= after);
        }
    }
    assert(pairs_view(pairs@) + text_pairs(chars@.skip(from as int)) =~= pairs_view(pairs@));
    pairs
}

/// One entry of a text: the key, `=`, the value, NUL.
pub open spec fn kv_entry(pair: Pair) -> Seq<char> {
    pair.0 + seq!['='] + pair.1 + seq!['\0']
}

/// The text that holds the pairs in their order.
pub open spec fn text_of_pairs(pairs: Seq<Pair>) -> Seq<char>
    decreases pairs.len(),
{
    if pairs.len() == 0 {
        seq![]
    } else {
        text_of_pairs(pairs.drop_last()) + kv_entry(pairs.last())
    }
}

/// A pair that an entry can carry: no NUL in it, no `=` in the key.
pub open spec fn clean_pair(pair: Pair) -> bool {
    &&& !pair.0.contains('=')
    &&& !pair.0.contains('\0')
    &&& !pair.1.contains('\0')
}

proof fn lemma_entry_then_text(pair: Pair, rest: Seq<char>)
    requires
        clean_pair(pair),
    ensures
        text_pairs(kv_entry(pair) + rest) == seq![pair] + text_pairs(rest),
{
    let body = pair.0 + seq!['='] + pair.1;
    let text = kv_entry(pair) + rest;
    let n = body.len() as int;
    assert forall|i: int| 0 <= i < n implies text[i] != '\0' by {
        if i < pair.0.len() {
            assert(text[i] == pair.0[i]);
        } else if i > pair.0.len() {
            assert(text[i] == pair.1[i - pair.0.len() - 1]);
        }
    }
    assert(text[n] == '\0');
    lemma_first_of(text, '\0', n);
    assert(text.take(n) =~= body);
    assert(text.skip(n + 1) =~= rest);
    assert forall|i: int| 0 <= i < pair.0.len() implies body[i] != '=' by {
        assert(body[i] == pair.0[i]);
    }
    lemma_first_of(body, '=', pair.0.len() as int);
    assert(body.take(pair.0.len() as int) =~= pair.0);
    assert(body.skip(pair.0.len() as int + 1) =~= pair.1);
    assert(entry_pairs(body) =~= seq![pair]);
}

proof fn lemma_text_pairs_append(pairs: Seq<Pair>, rest: Seq<char>)
    requires
        forall|i: int| 0 <= i < pairs.len() ==> clean_pair(#[trigger] pairs[i]),
    ensures
        text_pairs(text_of_pairs(pairs) + rest) == pairs + text_pairs(rest),
    decreases pairs.len(),
{
    if pairs.len() == 0 {
        assert(text_of_pairs(pairs) + rest =~= rest);
        assert(pairs + text_pairs(rest) =~= text_pairs(rest));
    } else {
        let last = pairs.last();
        let tail = kv_entry(last) + rest;
        assert(text_of_pairs(pairs) + rest =~= text_of_pairs(pairs.drop_last()) + tail);
        assert forall|i: int| 0 <= i < pairs.drop_last().len() implies clean_pair(
            #[trigger] pairs.drop_last()[i],
        ) by {
            assert(clean_pair(pairs[i]));
        }
        lemma_text_pairs_append(pairs.drop_last(), tail);
        assert(clean_pair(pairs[pairs.len() - 1]));
        lemma_entry_then_text(last, rest);
        assert(pairs.drop_last() + (seq![last] + text_pairs(rest)) =~= pairs + text_pairs(rest));
    }
}

/// Pairs survive the wire: the pairs that a text was put together from, as
/// long as no NUL stands in them and no `=` in a key, are those that are read
/// from its bytes.
pub proof fn pairs_round_trip(pairs: Seq<Pair>)
    requires
        forall|i: int| 0 <= i < pairs.len() ==> clean_pair(#[trigger] pairs[i]),
    ensures
        kv_pairs(encode_utf8(text_of_pairs(pairs))) == pairs,
{
    let text = text_of_pairs(pairs);
    vstd::utf8::encode_utf8_valid_utf8(text);
    encode_utf8_decode_utf8(text);
    lemma_text_pairs_append(pairs, seq![]);
    assert(text + seq![] =~= text);
    assert(pairs + text_pairs(seq![]) =~= pairs);
}

proof fn lemma_split_at_nul(a: Seq<char>, b: Seq<char>)
    ensures
        text_pairs(a + seq!['\0'] + b) == text_pairs(a) + text_pairs(b),
    decreases a.len(),
{
    let text = a + seq!['\0'] + b;
    let n = first_of(a, '\0');
    lemma_first_of_is_first(a, '\0');
    assert forall|i: int| 0 <= i < n implies text[i] != '\0' by {
        assert(text[i] == a[i]);
    }
    if n < a.len() {
        assert(text[n] == a[n]);
        lemma_first_of(text, '\0', n);
        assert(text.take(n) =~= a.take(n));
        assert(text.skip(n + 1) =~= a.skip(n + 1) + seq!['\0'] + b);
        lemma_split_at_nul(a.skip(n + 1), b);
        assert(text_pairs(text) =~= text_pairs(a) + text_pairs(b));
    } else {
        lemma_first_of(text, '\0', n);
        assert(text.take(n) =~= a);
        assert(text.skip(n + 1) =~= b);
        if a.len() == 0 {
            assert(entry_pairs(a) =~= text_pairs(a));
        }
        assert(text_pairs(text) =~= text_pairs(a) + text_pairs(b));
    }
}

/// Entries are read independently of each other: the pairs of two texts with a
/// NUL between them are the pairs of the first, then those of the second.
pub proof fn entries_are_independent(a: Seq<char>, b: Seq<char>)
    ensures
        kv_pairs(encode_utf8(a + seq!['\0'] + b)) == kv_pairs(encode_utf8(a)) + kv_pairs(
            encode_utf8(b),
        ),
{
    let text = a + seq!['\0'] + b;
    vstd::utf8::encode_utf8_valid_utf8(a);
    vstd::utf8::encode_utf8_valid_utf8(b);
    vstd::utf8::encode_utf8_valid_utf8(text);
    encode_utf8_decode_utf8(a);
    encode_utf8_decode_utf8(b);
    encode_utf8_decode_utf8(text);
    lemma_split_at_nul(a, b);
}

/// Append one entry to a text.
pub fn push_pair(text: &mut String, key: &str, value: &str)
    ensures
        final(text)@ == old(text)@ + kv_entry((key@, value@)),
{
    proof {
        reveal_strlit("=");
        reveal_strlit("\0");
    }
    text.append(key);
    text.append("=");
    text.append(value);
    text.append("\0");
    assert("="@ =~= seq!['=']);
    assert("\0"@ =~= seq!['\0']);
    assert(text@ =~= old(text)@ + kv_entry((key@, value@)));
}

// ---------------------------------------------------------------------------
// Decimal numbers
// ---------------------------------------------------------------------------

/// The character of the digit `d`.
pub open spec fn digit_char(d: int) -> char {
    ('0' as int + d) as char
}

pub open spec fn is_digit(c: char) -> bool {
    '0' <= c <= '9'
}

/// The decimal digits of `n`, without leading zeros.
pub open spec fn decimal(n: nat) -> Seq<char>
    decreases n,
{
    if n < 10 {
        seq![digit_char(n as int)]
    } else {
        decimal(n / 10).push(digit_char((n % 10) as int))
    }
}

/// The number that the digits stand for.
pub open spec fn digits_value(digits: Seq<char>) -> nat
    decreases digits.len(),
{
    if digits.len() == 0 {
        0
    } else {
        digits_value(digits.drop_last()) * 10 + (digits.last() as nat - '0' as nat) as nat
    }
}

/// The digits of a number in text: all of it, or what follows a plus sign.
pub open spec fn unsigned_digits(s: Seq<char>) -> Seq<char> {
    if s.len() > 0 && s[0] == '+' {
        s.drop_first()
    } else {
        s
    }
}

/// The number that `s` stands for: an optional plus sign and at least one
/// digit, with a value of at most `max`.
pub open spec fn parsed_number(s: Seq<char>, max: nat) -> Option<nat> {
    let digits = unsigned_digits(s);
    if digits.len() > 0 && (forall|i: int| 0 <= i < digits.len() ==> is_digit(#[trigger] digits[i]))
        && digits_value(digits) <= max {
        Some(digits_value(digits))
    } else {
        None
    }
}

proof fn lemma_digits_value_grows(digits: Seq<char>, n: int)
    requires
        0 <= n <= digits.len(),
        forall|i: int| 0 <= i < digits.len() ==> is_digit(#[trigger] digits[i]),
    ensures
        digits_value(digits.take(n)) <= digits_value(digits),
    decreases digits.len(),
{
    if n == digits.len() {
        assert(digits.take(n) =~= digits);
    } else {
        assert forall|i: int| 0 <= i < digits.drop_last().len() implies is_digit(
            #[trigger] digits.drop_last()[i],
        ) by {
            assert(is_digit(digits[i]));
        }
        lemma_digits_value_grows(digits.drop_last(), n);
        assert(digits.drop_last().take(n) =~= digits.take(n));
        assert(is_digit(digits[digits.len() - 1]));
    }
}

/// Read an unsigned decimal number of at most `max`.
pub fn parse_number(s: &str, max: u32) -> (r: Option<u32>)
    ensures
        match r {
            Some(v) => parsed_number(s@, max as nat) == Some(v as nat),
            None => parsed_number(s@, max as nat) is None,
        },
{
    let chars: Vec<char> = chars_of(s);
    let start: usize = if chars.len() > 0 && chars[0] == '+' {
        1
    } else {
        0
    };
    let ghost digits = unsigned_digits(s@);
    assert(digits =~= chars@.skip(start as int));
    if start == chars.len() {
        return None;
    }
    let mut value: u64 = 0;
    let mut i: usize = start;
    assert(digits.take(0) =~= seq![]);
    while i < chars.len()
        invariant
            start <= i <= chars.len(),
            digits == unsigned_digits(s@),
            digits == chars@.skip(start as int),
            value <= max,
            value == digits_value(digits.take(i - start)),
            forall|j: int| 0 <= j < i - start ==> is_digit(#[trigger] digits[j]),
        decreases chars.len() - i,
    {
        let c: char = chars[i];
        assert(digits[i - start] == c);
        if c < '0' || c > '9' {
            return None;
        }
        let d: u64 = (c as u32 - '0' as u32) as u64;
        let ghost upto = digits.take(i - start + 1);
        assert(upto.drop_last() =~= digits.take(i - start));
        assert(upto.last() == c);
        value = value * 10 + d;
        i = i + 1;
        if value > max as u64 {
            proof {
                if forall|j: int| 0 <= j < digits.len() ==> is_digit(#[trigger] digits[j]) {
                    lemma_digits_value_grows(digits, i - start);
                }
            }
            return None;
        }
    }
    assert(digits.take(i - start) =~= digits);
    Some(value as u32)
}

/// Append the decimal digits of `n` to a text.
pub fn push_number(text: &mut String, n: u32)
    ensures
        final(text)@ == old(text)@ + decimal(n as nat),
    decreases n,
{
    proof {
        reveal_strlit("0");
        reveal_strlit("1");
        reveal_strlit("2");
        reveal_strlit("3");
        reveal_strlit("4");
        reveal_strlit("5");
        reveal_strlit("6");
        reveal_strlit("7");
        reveal_strlit("8");
        reveal_strlit("9");
    }
    if n >= 10 {
        push_number(text, n / 10);
    }
    let ghost high = text@;
    let digit: &str = match n % 10 {
        0 => "0",
        1 => "1",
        2 => "2",
        3 => "3",
        4 => "4",
        5 => "5",
        6 => "6",
        7 => "7",
        8 => "8",
        _ => "9",
    };
    text.append(digit);
    assert(digit@ =~= seq![digit_char((n % 10) as int)]);
    assert(text@ =~= old(text)@ + decimal(n as nat));
}

/// The decimal digits of `n`.
pub fn number_text(n: u32) -> (r: String)
    ensures
        r@ == decimal(n as nat),
{
    let mut r: String = String::new();
    push_number(&mut r, n);
    assert(r@ =~= decimal(n as nat));
    r
}

/// A number that was written is read back, where it is allowed at all.
pub proof fn number_round_trip(n: nat, max: nat)
    requires
        n <= max,
    ensures
        parsed_number(decimal(n), max) == Some(n),
        !decimal(n).contains('\0'),
{
    lemma_decimal(n);
    let d = decimal(n);
    assert(is_digit(d[0]));
    assert(unsigned_digits(d) == d);
}

proof fn lemma_decimal(n: nat)
    ensures
        decimal(n).len() > 0,
        forall|i: int| 0 <= i < decimal(n).len() ==> is_digit(#[trigger] decimal(n)[i]),
        digits_value(decimal(n)) == n,
    decreases n,
{
    let d = decimal(n);
    if n < 10 {
        assert(d.drop_last() =~= seq![]);
        assert(digits_value(d.drop_last()) == 0);
    } else {
        lemma_decimal(n / 10);
        assert(d.drop_last() =~= decimal(n / 10));
        assert forall|i: int| 0 <= i < d.len() implies is_digit(#[trigger] d[i]) by {
            if i < d.len() - 1 {
                assert(d[i] == decimal(n / 10)[i]);
            }
        }
    }
}

/// An entry is a key, `=`, a value and a NUL: read in front of any other text,
/// it gives just that pair. Text without `=` gives none.
pub proof fn entry_is_key_equals_value(key: Seq<char>, value: Seq<char>, rest: Seq<char>)
    requires
        forall|i: int| 0 <= i < key.len() ==> #[trigger] key[i] != '=' && key[i] != '\0',
        forall|i: int| 0 <= i < value.len() ==> #[trigger] value[i] != '\0',
    ensures
        text_pairs(key + seq!['='] + value + seq!['\0'] + rest) == seq![(key, value)] + text_pairs(
            rest,
        ),
        text_pairs(key + seq!['\0'] + rest) == text_pairs(rest),
{
    lemma_entry_then_text((key, value), rest);
    lemma_split_at_nul(key, rest);
    lemma_first_of(key, '=', key.len() as int);
    lemma_first_of(key, '\0', key.len() as int);
    assert(text_pairs(key) =~= seq![]);
    assert(text_pairs(key) + text_pairs(rest) =~= text_pairs(rest));
}

/// The digits of a number count by tens, and a number is written without
/// leading zeros.
pub proof fn numbers_are_decimal(n: nat, k: nat)
    requires
        k < 10,
        n > 0,
    ensures
        decimal(k) == seq![('0' as int + k) as char],
        decimal(n * 10 + k) == decimal(n).push(('0' as int + k) as char),
        decimal(n)[0] != '0',
    decreases n,
{
    let m = n * 10 + k;
    assert(m / 10 == n && m % 10 == k);
    if n >= 10 {
        numbers_are_decimal(n / 10, n % 10);
    }
}

/// Text is read as a number just where it is digits, with or without a plus
/// sign, that stand for no more than the key can hold; each further digit
/// counts ten times what stands before it.
pub proof fn only_digits_are_a_number(s: Seq<char>, max: nat, k: nat)
    requires
        k < 10,
    ensures
        s.len() == 0 ==> parsed_number(s, max) is None,
        parsed_number(s, max) matches Some(v) ==> v <= max && s.len() > 0 && (s[0] == '+' || '0'
            <= s[0] <= '9') && forall|i: int| 0 < i < s.len() ==> '0' <= #[trigger] s[i] <= '9',
        forall|i: int|
            0 < i < s.len() && !('0' <= #[trigger] s[i] <= '9') ==> parsed_number(s, max) is None,
        s.len() > 0 && !(s[0] == '+' || '0' <= s[0] <= '9') ==> parsed_number(s, max) is None,
        parsed_number(s, max) matches Some(v) ==> parsed_number(
            s.push(('0' as int + k) as char),
            max,
        ) == (if v * 10 + k <= max {
            Some(v * 10 + k)
        } else {
            None
        }),
{
    let d = unsigned_digits(s);
    let c = ('0' as int + k) as char;
    if s.len() > 0 {
        if s[0] == '+' {
            assert forall|i: int| 0 < i < s.len() implies s[i] == #[trigger] d[i - 1] by {}
        }
        if parsed_number(s, max) is Some {
            assert forall|i: int| 0 < i < s.len() implies '0' <= #[trigger] s[i] <= '9' by {
                if s[0] == '+' {
                    assert(is_digit(d[i - 1]));
                } else {
                    assert(is_digit(d[i]));
                }
            }
            if s[0] != '+' {
                assert(is_digit(d[0]));
            }
            let t = s.push(c);
            let e = unsigned_digits(t);
            assert(e =~= d.push(c));
            assert(e.drop_last() =~= d);
            assert forall|i: int| 0 <= i < e.len() implies is_digit(#[trigger] e[i]) by {
                if i < d.len() {
                    assert(is_digit(d[i]));
                }
            }
        }
    }
}

} // verus!
