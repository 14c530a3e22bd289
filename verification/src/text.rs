//! Text primitives: decimal numbers in both directions, and the
//! whitespace test that decides whether a token was really given.
use vstd::prelude::*;
use vstd::utf8::{encode_scalar, encode_utf8};
use vstd::string::StringSliceAdditionalSpecFns;

verus! {

/// The character of a decimal digit `d` (`0 <= d < 10`).
pub open spec fn digit_char(d: nat) -> char {
    (48 + d) as char
}

/// Whether `c` is one of the ASCII digits `0` to `9`.
pub open spec fn is_digit(c: char) -> bool {
    48 <= (c as u32) <= 57
}

/// The value of an ASCII digit.
pub open spec fn digit_value(c: char) -> nat {
    ((c as u32) - 48) as nat
}

/// The decimal representation of `n`, most significant digit first, with no
/// leading zeros (the way `Display` writes an unsigned integer).
pub open spec fn decimal(n: nat) -> Seq<char>
    decreases n,
{
    if n < 10 {
        seq![digit_char(n)]
    } else {
        decimal(n / 10) + seq![digit_char(n % 10)]
    }
}

/// Whether every character of `s` is an ASCII digit.
pub open spec fn all_digits(s: Seq<char>) -> bool {
    forall|i: int| 0 <= i < s.len() ==> is_digit(#[trigger] s[i])
}

/// The number that a sequence of decimal digits denotes.
pub open spec fn digits_value(s: Seq<char>) -> nat
    decreases s.len(),
{
    if s.len() == 0 {
        0
    } else {
        digits_value(s.drop_last()) * 10 + digit_value(s.last())
    }
}

/// The digits that `str::parse` reads for an unsigned type: one leading
/// `+` is dropped, nothing else is.
pub open spec fn unsigned_digits(s: Seq<char>) -> Seq<char> {
    if s.len() > 0 && s[0] == '+' {
        s.drop_first()
    } else {
        s
    }
}

/// What `str::parse` gives for an unsigned integer type whose largest value is
/// `max`: the value when the text is an optional `+` followed by at least one
/// ASCII digit and nothing else, and the value is at most `max`; otherwise
/// nothing (empty text, a stray character, a sign alone, or an overflow).
pub open spec fn parse_unsigned(s: Seq<char>, max: nat) -> Option<nat> {
    let d = unsigned_digits(s);
    if d.len() > 0 && all_digits(d) && digits_value(d) <= max {
        Some(digits_value(d))
    } else {
        None
    }
}

/// Unicode's `White_Space` property, which `char::is_whitespace`, and with it
/// `str::trim`, goes by.
pub open spec fn is_white_space(c: char) -> bool {
    let u: u32 = c as u32;
    ||| 0x9 <= u <= 0xd
    ||| u == 0x20
    ||| u == 0x85
    ||| u == 0xa0
    ||| u == 0x1680
    ||| 0x2000 <= u <= 0x200a
    ||| u == 0x2028
    ||| u == 0x2029
    ||| u == 0x202f
    ||| u == 0x205f
    ||| u == 0x3000
}

/// Whether `s` trims to the empty string: every character is whitespace.
pub open spec fn is_blank_text(s: Seq<char>) -> bool {
    forall|i: int| 0 <= i < s.len() ==> is_white_space(#[trigger] s[i])
}

proof fn lemma_digit_char(d: nat)
    requires
        d < 10,
    ensures
        is_digit(digit_char(d)),
        digit_value(digit_char(d)) == d,
{
    assert((((48 + d) as char) as u32) == 48 + d);
}

/// The digits of a decimal representation are digits, and they denote the
/// number again.
pub proof fn lemma_decimal_digits(n: nat)
    ensures
        decimal(n).len() > 0,
        all_digits(decimal(n)),
        digits_value(decimal(n)) == n,
        is_digit(decimal(n)[0]),
    decreases n,
{
    lemma_digit_char(n % 10);
    if n < 10 {
        assert(decimal(n).drop_last() =~= Seq::<char>::empty());
        assert(digits_value(Seq::<char>::empty()) == 0);
        assert(digits_value(decimal(n)) == digits_value(decimal(n).drop_last()) * 10 + digit_value(decimal(n).last()));
    } else {
        lemma_decimal_digits(n / 10);
        let d = decimal(n);
        assert(d.drop_last() =~= decimal(n / 10));
        assert(d.last() == digit_char(n % 10));
        assert((n / 10) * 10 + n % 10 == n);
        assert(digits_value(d) == digits_value(d.drop_last()) * 10 + digit_value(d.last()));
        assert forall|i: int| 0 <= i < d.len() implies is_digit(#[trigger] d[i]) by {
            if i < d.len() - 1 {
                assert(d[i] == decimal(n / 10)[i]);
            }
        }
    }
}

/// Reading a number back from its decimal representation gives the number:
/// what `u64_to_decimal` writes, `parse_u64` and `parse_u32` read back.
pub proof fn lemma_parse_decimal_roundtrip(n: nat, max: nat)
    requires
        n <= max,
    ensures
        parse_unsigned(decimal(n), max) == Some(n),
{
    lemma_decimal_digits(n);
    assert(decimal(n)[0] != '+');
    assert(unsigned_digits(decimal(n)) == decimal(n));
}

/// The digits of a longer prefix never denote a smaller number.
proof fn lemma_digits_value_prefix_monotone(s: Seq<char>, i: int, j: int)
    requires
        0 <= i <= j <= s.len(),
    ensures
        digits_value(s.take(i)) <= digits_value(s.take(j)),
    decreases j - i,
{
    if i < j {
        lemma_digits_value_prefix_monotone(s, i, j - 1);
        assert(s.take(j).drop_last() =~= s.take(j - 1));
    }
}

fn digit_text(d: u128) -> (r: &'static str)
    requires
        d < 10,
    ensures
        r@ == seq![digit_char(d as nat)],
{
    proof {
        reveal_strlit("0");
        reveal_strlit("1");
        reveal_strlit("2");
        reveal_strlit("3");
        reveal_strlit("4");
        reveal_strlit("5");
        reveal_strlit("6");
        reveal_strlit("7");
        reveal_strlit("8");
        reveal_strlit("9");
    }
    if d == 0 {
        "0"
    } else if d == 1 {
        "1"
    } else if d == 2 {
        "2"
    } else if d == 3 {
        "3"
    } else if d == 4 {
        "4"
    } else if d == 5 {
        "5"
    } else if d == 6 {
        "6"
    } else if d == 7 {
        "7"
    } else if d == 8 {
        "8"
    } else {
        "9"
    }
}

/// Appends the decimal representation of `n` to `s`.
pub fn push_decimal(s: &mut String, n: u128)
    ensures
        final(s)@ == old(s)@ + decimal(n as nat),
    decreases n,
{
    if n >= 10 {
        push_decimal(s, n / 10);
    }
    let d = digit_text(n % 10);
    s.append(d);
    proof {
        if n >= 10 {
            assert(decimal(n as nat) == decimal((n / 10) as nat) + seq![digit_char((n % 10) as nat)]);
        }
    }
}

/// The decimal representation of `n`, as `n.to_string()` writes it.
pub fn u64_to_decimal(n: u64) -> (s: String)
    ensures
        s@ == decimal(n as nat),
{
    let mut s = String::new();
    push_decimal(&mut s, n as u128);
    assert(s@ =~= decimal(n as nat));
    s
}

/// The character of a hexadecimal digit `d` (`0 <= d < 16`), in upper case.
pub open spec fn hex_char(d: nat) -> char {
    if d < 10 {
        (48 + d) as char
    } else {
        (55 + d) as char
    }
}

/// The characters that a URL component keeps as they are: ASCII letters and
/// digits, and `-`, `.`, `_` and `~`.
pub open spec fn is_unreserved(c: char) -> bool {
    let u = c as u32;
    ||| 48 <= u <= 57
    ||| 65 <= u <= 90
    ||| 97 <= u <= 122
    ||| u == 45
    ||| u == 46
    ||| u == 95
    ||| u == 126
}

/// Each byte written as `%` and two upper-case hexadecimal digits.
pub open spec fn escaped_bytes(bytes: Seq<u8>) -> Seq<char>
    decreases bytes.len(),
{
    if bytes.len() == 0 {
        Seq::empty()
    } else {
        escaped_bytes(bytes.drop_last()) + seq![
            '%',
            hex_char((bytes.last() / 16) as nat),
            hex_char((bytes.last() % 16) as nat),
        ]
    }
}

/// The percent-encoding of a text for a URL component: an unreserved
/// character stands as it is, any other is replaced by its UTF-8 bytes, each
/// escaped.
pub open spec fn percent_encoded(s: Seq<char>) -> Seq<char>
    decreases s.len(),
{
    if s.len() == 0 {
        Seq::empty()
    } else {
        percent_encoded(s.drop_last()) + encoded_char(s.last())
    }
}

/// The percent-encoding of one character.
pub open spec fn encoded_char(c: char) -> Seq<char> {
    if is_unreserved(c) {
        seq![c]
    } else {
        escaped_bytes(encode_utf8(seq![c]))
    }
}

fn hex_text(d: u8) -> (r: &'static str)
    requires
        d < 16,
    ensures
        r@ == seq![hex_char(d as nat)],
{
    if d < 10 {
        return digit_text(d as u128);
    }
    proof {
        reveal_strlit("A");
        reveal_strlit("B");
        reveal_strlit("C");
        reveal_strlit("D");
        reveal_strlit("E");
        reveal_strlit("F");
        assert(((55 + 10) as char) == 'A');
        assert(((55 + 11) as char) == 'B');
        assert(((55 + 12) as char) == 'C');
        assert(((55 + 13) as char) == 'D');
        assert(((55 + 14) as char) == 'E');
        assert(((55 + 15) as char) == 'F');
    }
    if d == 10 {
        "A"
    } else if d == 11 {
        "B"
    } else if d == 12 {
        "C"
    } else if d == 13 {
        "D"
    } else if d == 14 {
        "E"
    } else {
        "F"
    }
}

fn is_unreserved_char(c: char) -> (b: bool)
    ensures
        b == is_unreserved(c),
{
    let u: u32 = c as u32;
    (48 <= u && u <= 57) || (65 <= u && u <= 90) || (97 <= u && u <= 122) || u == 45 || u == 46
        || u == 95 || u == 126
}

/// Appends the percent-encoding of `text` to `s`.
pub fn push_percent_encoded(s: &mut String, text: &str)
    ensures
        final(s)@ == old(s)@ + percent_encoded(text@),
{
    let n: usize = text.unicode_len();
    let mut i: usize = 0;
    assert(text@.take(0) =~= Seq::<char>::empty());
    assert(s@ =~= old(s)@ + percent_encoded(text@.take(0)));
    while i < n
        invariant
            n == text@.len(),
            i <= n,
            s@ == old(s)@ + percent_encoded(text@.take(i as int)),
        decreases n - i,
    {
        let c = text.get_char(i);
        let piece = text.substring_char(i, i + 1);
        assert(piece@ =~= seq![c]);
        let ghost before = s@;
        if is_unreserved_char(c) {
            s.append(piece);
        } else {
            let bytes = piece.as_bytes();
            let m: usize = bytes.len();
            let mut j: usize = 0;
            assert(bytes@.take(0) =~= Seq::<u8>::empty());
            while j < m
                invariant
                    m == bytes@.len(),
                    j <= m,
                    s@ == before + escaped_bytes(bytes@.take(j as int)),
                decreases m - j,
            {
                let b: u8 = bytes[j];
                s.append("%");
                s.append(hex_text(b / 16));
                s.append(hex_text(b % 16));
                proof {
                    reveal_strlit("%");
                    assert(bytes@.take(j + 1).drop_last() =~= bytes@.take(j as int));
                    assert(bytes@.take(j + 1).last() == b);
                }
                j = j + 1;
            }
            assert(bytes@.take(m as int) =~= bytes@);
            assert(bytes@ == encode_utf8(seq![c]));
        }
        proof {
            assert(text@.take(i + 1).drop_last() =~= text@.take(i as int));
            assert(text@.take(i + 1).last() == c);
        }
        i = i + 1;
    }
    assert(text@.take(n as int) =~= text@);
}

/// Whether `c` is whitespace in the sense of `char::is_whitespace`.
pub fn is_white_space_char(c: char) -> (b: bool)
    ensures
        b == is_white_space(c),
{
    let u: u32 = c as u32;
    (0x9 <= u && u <= 0xd) || u == 0x20 || u == 0x85 || u == 0xa0 || u == 0x1680 || (0x2000 <= u
        && u <= 0x200a) || u == 0x2028 || u == 0x2029 || u == 0x202f || u == 0x205f || u == 0x3000
}

/// Whether `s.trim()` is empty, that is whether `s` holds nothing but
/// whitespace.
pub fn is_blank(s: &str) -> (b: bool)
    ensures
        b == is_blank_text(s@),
{
    let n: usize = s.unicode_len();
    let mut i: usize = 0;
    while i < n
        invariant
            n == s@.len(),
            i <= n,
            forall|j: int| 0 <= j < i ==> is_white_space(#[trigger] s@[j]),
        decreases n - i,
    {
        let c = s.get_char(i);
        if !is_white_space_char(c) {
            return false;
        }
        i = i + 1;
    }
    true
}

/// Reads an unsigned decimal number no larger than `max`, as `str::parse`
/// does for an unsigned type whose largest value is `max`.
pub fn parse_unsigned_max(s: &str, max: u64) -> (r: Option<u64>)
    ensures
        match r {
            Some(v) => parse_unsigned(s@, max as nat) == Some(v as nat),
            None => parse_unsigned(s@, max as nat) is None,
        },
{
    let n: usize = s.unicode_len();
    let mut start: usize = 0;
    if n > 0 && s.get_char(0) == '+' {
        start = 1;
    }
    let ghost d = unsigned_digits(s@);
    assert(d =~= s@.subrange(start as int, n as int));
    if start >= n {
        assert(d.len() == 0);
        return None;
    }
    let mut i: usize = start;
    let mut acc: u64 = 0;
    let mut overflow = false;
    while i < n
        invariant
            n == s@.len(),
            start <= i <= n,
            d =~= s@.subrange(start as int, n as int),
            d == unsigned_digits(s@),
            forall|j: int| start <= j < i ==> is_digit(#[trigger] s@[j]),
            !overflow ==> acc as nat == digits_value(d.take(i - start)) && acc <= max,
            overflow ==> digits_value(d.take(i - start)) > max,
        decreases n - i,
    {
        let c = s.get_char(i);
        let u: u32 = c as u32;
        if u < 48 || u > 57 {
            assert(!is_digit(d[i - start]));
            return None;
        }
        let dv: u64 = (u - 48) as u64;
        let ghost k = i - start;
        assert(d.take(k + 1).drop_last() =~= d.take(k));
        assert(d.take(k + 1).last() == c);
        if !overflow {
            if dv > max || acc > (max - dv) / 10 {
                overflow = true;
                assert(acc * 10 + dv > max) by (nonlinear_arith)
                    requires
                        dv > max || acc > (max - dv) / 10,
                        dv <= max ==> (max - dv) / 10 * 10 <= max - dv,
                        dv <= max ==> max - dv < (max - dv) / 10 * 10 + 10,
                ;
            } else {
                assert(acc * 10 + dv <= max) by (nonlinear_arith)
                    requires
                        acc <= (max - dv) / 10,
                        dv <= max,
                        (max - dv) / 10 * 10 <= max - dv,
                ;
                acc = acc * 10 + dv;
            }
        } else {
            proof {
                lemma_digits_value_prefix_monotone(d, k, k + 1);
            }
        }
        i = i + 1;
    }
    assert(d.take(n - start) =~= d);
    assert(all_digits(d)) by {
        assert forall|j: int| 0 <= j < d.len() implies is_digit(#[trigger] d[j]) by {
            assert(d[j] == s@[j + start]);
        }
    }
    if overflow {
        None
    } else {
        Some(acc)
    }
}

/// `s.parse::<u32>().ok()`.
pub fn parse_u32(s: &str) -> (r: Option<u32>)
    ensures
        match r {
            Some(v) => parse_unsigned(s@, u32::MAX as nat) == Some(v as nat),
            None => parse_unsigned(s@, u32::MAX as nat) is None,
        },
{
    match parse_unsigned_max(s, u32::MAX as u64) {
        Some(v) => Some(v as u32),
        None => None,
    }
}

/// `s.parse::<u64>().ok()`.
pub fn parse_u64(s: &str) -> (r: Option<u64>)
    ensures
        match r {
            Some(v) => parse_unsigned(s@, u64::MAX as nat) == Some(v as nat),
            None => parse_unsigned(s@, u64::MAX as nat) is None,
        },
{
    parse_unsigned_max(s, u64::MAX)
}

/// The value of a hexadecimal digit, in either case, as a percent-decoder
/// reads it; zero for any other character.
pub open spec fn hex_value(c: char) -> nat {
    let u = c as u32;
    if 48 <= u <= 57 {
        (u - 48) as nat
    } else if 65 <= u <= 70 {
        (u - 55) as nat
    } else if 97 <= u <= 102 {
        (u - 87) as nat
    } else {
        0
    }
}

/// Percent-decoding, as a server reads a URL component: `%` and two
/// hexadecimal digits stand for one byte, any other character for its own
/// code.
pub open spec fn percent_decoded(cs: Seq<char>) -> Seq<u8>
    decreases cs.len(),
{
    if cs.len() == 0 {
        Seq::empty()
    } else if cs[0] == '%' && cs.len() >= 3 {
        seq![(hex_value(cs[1]) * 16 + hex_value(cs[2])) as u8] + percent_decoded(
            cs.subrange(3, cs.len() as int),
        )
    } else {
        seq![((cs[0] as u32) as u8)] + percent_decoded(cs.drop_first())
    }
}

/// Every hexadecimal digit that the encoder writes reads back as the value it
/// was written for, and none of them is `%`.
pub proof fn lemma_hex_digit_reads_back(d: nat)
    requires
        d < 16,
    ensures
        hex_value(hex_char(d)) == d,
        hex_char(d) != '%',
        is_unreserved(hex_char(d)),
{
    if d < 10 {
        assert((((48 + d) as char) as u32) == 48 + d);
    } else {
        assert((((55 + d) as char) as u32) == 55 + d);
    }
}

proof fn lemma_escaped_front(bs: Seq<u8>)
    requires
        bs.len() > 0,
    ensures
        escaped_bytes(bs) == seq!['%', hex_char((bs[0] / 16) as nat), hex_char((bs[0] % 16) as nat)]
            + escaped_bytes(bs.drop_first()),
    decreases bs.len(),
{
    if bs.len() == 1 {
        assert(bs.drop_last() =~= Seq::<u8>::empty());
        assert(bs.drop_first() =~= Seq::<u8>::empty());
        assert(escaped_bytes(Seq::<u8>::empty()) =~= Seq::<char>::empty());
        assert(escaped_bytes(bs) =~= seq!['%', hex_char((bs[0] / 16) as nat), hex_char((bs[0] % 16) as nat)]
            + escaped_bytes(bs.drop_first()));
    } else {
        let init = bs.drop_last();
        lemma_escaped_front(init);
        assert(init.drop_first() =~= bs.drop_first().drop_last());
        assert(bs.drop_first().last() == bs.last());
        assert(init[0] == bs[0]);
        assert(escaped_bytes(bs) =~= seq!['%', hex_char((bs[0] / 16) as nat), hex_char((bs[0] % 16) as nat)]
            + escaped_bytes(bs.drop_first()));
    }
}

/// Decoding escaped bytes, followed by anything, gives the bytes back first.
proof fn lemma_decode_escaped(bs: Seq<u8>, rest: Seq<char>)
    ensures
        percent_decoded(escaped_bytes(bs) + rest) == bs + percent_decoded(rest),
    decreases bs.len(),
{
    if bs.len() == 0 {
        assert(escaped_bytes(bs) =~= Seq::<char>::empty());
        assert(escaped_bytes(bs) + rest =~= rest);
        assert(bs + percent_decoded(rest) =~= percent_decoded(rest));
    } else {
        lemma_escaped_front(bs);
        let b = bs[0];
        let hi = hex_char((b / 16) as nat);
        let lo = hex_char((b % 16) as nat);
        lemma_hex_digit_reads_back((b / 16) as nat);
        lemma_hex_digit_reads_back((b % 16) as nat);
        let tail = escaped_bytes(bs.drop_first()) + rest;
        let all = escaped_bytes(bs) + rest;
        assert(all =~= seq!['%', hi, lo] + tail);
        assert(all[0] == '%');
        assert(all[1] == hi);
        assert(all[2] == lo);
        assert(all.subrange(3, all.len() as int) =~= tail);
        lemma_decode_escaped(bs.drop_first(), rest);
        assert((b / 16) * 16 + b % 16 == b);
        assert(((hex_value(hi) * 16 + hex_value(lo)) as u8) == b);
        assert(percent_decoded(all) =~= bs + percent_decoded(rest));
    }
}

proof fn lemma_encoded_front(s: Seq<char>)
    requires
        s.len() > 0,
    ensures
        percent_encoded(s) == encoded_char(s[0]) + percent_encoded(s.drop_first()),
    decreases s.len(),
{
    if s.len() == 1 {
        assert(s.drop_last() =~= Seq::<char>::empty());
        assert(s.drop_first() =~= Seq::<char>::empty());
        assert(percent_encoded(Seq::<char>::empty()) =~= Seq::<char>::empty());
        assert(percent_encoded(s) =~= encoded_char(s[0]) + percent_encoded(s.drop_first()));
    } else {
        let init = s.drop_last();
        lemma_encoded_front(init);
        assert(init.drop_first() =~= s.drop_first().drop_last());
        assert(s.drop_first().last() == s.last());
        assert(init[0] == s[0]);
        assert(percent_encoded(s) =~= encoded_char(s[0]) + percent_encoded(s.drop_first()));
    }
}

/// What the encoder writes is made of unreserved characters and `%` only, so
/// it never ends a URL component early (no `&`, `#`, `=`, `+` or space).
pub proof fn lemma_encoded_is_url_safe(s: Seq<char>)
    ensures
        forall|i: int|
            0 <= i < percent_encoded(s).len() ==> is_unreserved(#[trigger] percent_encoded(s)[i])
                || percent_encoded(s)[i] == '%',
    decreases s.len(),
{
    if s.len() > 0 {
        lemma_encoded_is_url_safe(s.drop_last());
        lemma_escaped_is_url_safe(encode_utf8(seq![s.last()]));
        let a = percent_encoded(s.drop_last());
        let b = encoded_char(s.last());
        assert forall|i: int| 0 <= i < percent_encoded(s).len() implies is_unreserved(
            #[trigger] percent_encoded(s)[i],
        ) || percent_encoded(s)[i] == '%' by {
            if i < a.len() {
                assert(percent_encoded(s)[i] == a[i]);
            } else {
                assert(percent_encoded(s)[i] == b[i - a.len()]);
            }
        }
    }
}

proof fn lemma_escaped_is_url_safe(bs: Seq<u8>)
    ensures
        forall|i: int|
            0 <= i < escaped_bytes(bs).len() ==> is_unreserved(#[trigger] escaped_bytes(bs)[i])
                || escaped_bytes(bs)[i] == '%',
    decreases bs.len(),
{
    if bs.len() > 0 {
        lemma_escaped_is_url_safe(bs.drop_last());
        lemma_hex_digit_reads_back((bs.last() / 16) as nat);
        lemma_hex_digit_reads_back((bs.last() % 16) as nat);
        let a = escaped_bytes(bs.drop_last());
        assert forall|i: int| 0 <= i < escaped_bytes(bs).len() implies is_unreserved(
            #[trigger] escaped_bytes(bs)[i],
        ) || escaped_bytes(bs)[i] == '%' by {
            if i < a.len() {
                assert(escaped_bytes(bs)[i] == a[i]);
            }
        }
    }
}

/// Percent-decoding what the encoder writes gives back the UTF-8 bytes of the
/// text: a server reading the query parameter reads exactly the search term.
pub proof fn lemma_percent_decoding_gives_back(s: Seq<char>)
    ensures
        percent_decoded(percent_encoded(s)) == encode_utf8(s),
    decreases s.len(),
{
    if s.len() == 0 {
        assert(percent_encoded(s) =~= Seq::<char>::empty());
    } else {
        let c = s[0];
        let rest = s.drop_first();
        lemma_encoded_front(s);
        lemma_percent_decoding_gives_back(rest);
        let tail = percent_encoded(rest);
        let u = c as u32;
        assert(seq![c][0] == c);
        assert(seq![c].drop_first() =~= Seq::<char>::empty());
        assert(encode_utf8(seq![c]) =~= encode_scalar(u) + encode_utf8(Seq::<char>::empty()));
        assert(encode_utf8(Seq::<char>::empty()) =~= Seq::<u8>::empty());
        assert(encode_utf8(seq![c]) =~= encode_scalar(u));
        if is_unreserved(c) {
            let all = seq![c] + tail;
            assert(all[0] == c);
            assert(c != '%');
            assert(all.drop_first() =~= tail);
            assert(u < 128);
            assert(u < 128 ==> (u & 0x7F) == u) by (bit_vector);
            assert(encode_scalar(u) =~= seq![(u as u8)]);
            assert(percent_decoded(all) =~= seq![(u as u8)] + percent_decoded(tail));
            assert(encode_utf8(s) =~= encode_scalar(u) + encode_utf8(rest));
        } else {
            lemma_decode_escaped(encode_utf8(seq![c]), tail);
            assert(encode_utf8(s) =~= encode_scalar(u) + encode_utf8(rest));
        }
    }
}

} // verus!
