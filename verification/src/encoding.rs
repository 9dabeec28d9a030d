//! Byte-to-text encodings used on the wire and in key files: standard Base64
//! (with padding), lowercase hex, and decimal numbers.

use vstd::prelude::*;

use base64::Engine;

use crate::text::string_push;

verus! {

/// The Base64 symbol for a 6-bit value (standard alphabet).
pub open spec fn b64_symbol(v: int) -> char {
    if v < 26 {
        (v + 65) as char
    } else if v < 52 {
        (v - 26 + 97) as char
    } else if v < 62 {
        (v - 52 + 48) as char
    } else if v == 62 {
        '+'
    } else {
        '/'
    }
}

/// Standard Base64 encoding of `b`, with `=` padding.
pub open spec fn base64_standard(b: Seq<u8>) -> Seq<char>
    decreases b.len(),
{
    if b.len() == 0 {
        Seq::empty()
    } else if b.len() == 1 {
        seq![b64_symbol((b[0] / 4) as int), b64_symbol((b[0] % 4) * 16), '=', '=']
    } else if b.len() == 2 {
        seq![
            b64_symbol((b[0] / 4) as int),
            b64_symbol((b[0] % 4) * 16 + b[1] / 16),
            b64_symbol((b[1] % 16) * 4),
            '=',
        ]
    } else {
        seq![
            b64_symbol((b[0] / 4) as int),
            b64_symbol((b[0] % 4) * 16 + b[1] / 16),
            b64_symbol((b[1] % 16) * 4 + b[2] / 64),
            b64_symbol((b[2] % 64) as int),
        ] + base64_standard(b.subrange(3, b.len() as int))
    }
}

/// The text of the error that `base64`'s standard engine reports when it
/// refuses `text` (the `Display` of its `DecodeError`).
pub uninterp spec fn base64_decode_error_text(text: Seq<char>) -> Seq<char>;

/// Encodes `bytes` with `base64::engine::general_purpose::STANDARD`.
/// The contract claims that the result is the standard, padded Base64 text of `bytes`.
#[verifier::external_body]
pub(crate) fn base64_encode(bytes: &[u8]) -> (text: String)
    ensures
        text@ == base64_standard(bytes@),
{
    base64::engine::general_purpose::STANDARD.encode(bytes)
}

/// Decodes `text` with `base64::engine::general_purpose::STANDARD`.
/// That engine requires canonical padding and refuses trailing bits, so the
/// contract claims: it succeeds exactly when `text` is the padded Base64
/// encoding of some bytes, and then returns those bytes; on failure it
/// returns the text of the crate's error, which is named, not stated.
#[verifier::external_body]
pub(crate) fn base64_decode(text: &str) -> (r: Result<Vec<u8>, String>)
    ensures
        r is Ok <==> exists|b: Seq<u8>| base64_standard(b) == text@,
        r matches Ok(b) ==> base64_standard(b@) == text@,
        r matches Err(m) ==> m@ == base64_decode_error_text(text@),
{
    base64::engine::general_purpose::STANDARD.decode(text).map_err(|e| e.to_string())
}

/// What decoding `text` as standard Base64 gives: the bytes it encodes, or
/// the text of the decoder's error.
pub open spec fn base64_decoded(text: Seq<char>) -> Result<Seq<u8>, Seq<char>> {
    if exists|b: Seq<u8>| base64_standard(b) == text {
        Ok(choose|b: Seq<u8>| base64_standard(b) == text)
    } else {
        Err(base64_decode_error_text(text))
    }
}

/// Base64 symbols are never the padding character, and distinct values have
/// distinct symbols.
pub proof fn lemma_b64_symbol(v: int, w: int)
    requires
        0 <= v < 64,
        0 <= w < 64,
    ensures
        b64_symbol(v) != '=',
        b64_symbol(v) == b64_symbol(w) ==> v == w,
{
    let cv = b64_symbol(v) as u32;
    let cw = b64_symbol(w) as u32;
    assert(b64_symbol(v) as u32 != 61);
    assert(b64_symbol(w) as u32 != 61);
}

/// The Base64 text of `b` has four characters per started group of three bytes.
pub proof fn lemma_base64_len(b: Seq<u8>)
    ensures
        base64_standard(b).len() == 4 * ((b.len() + 2) / 3),
    decreases b.len(),
{
    if b.len() >= 3 {
        lemma_base64_len(b.subrange(3, b.len() as int));
    }
}

/// The first four characters of the Base64 text of a non-empty `a`.
proof fn lemma_base64_head(a: Seq<u8>)
    requires
        a.len() > 0,
    ensures
        ({
            let e = base64_standard(a);
            &&& e.len() >= 4
            &&& e[0] == b64_symbol((a[0] / 4) as int)
            &&& a.len() == 1 ==> e[1] == b64_symbol((a[0] % 4) * 16) && e[2] == '=' && e[3]
                == '='
            &&& a.len() >= 2 ==> e[1] == b64_symbol((a[0] % 4) * 16 + a[1] / 16)
            &&& a.len() == 2 ==> e[2] == b64_symbol((a[1] % 16) * 4) && e[3] == '='
            &&& a.len() >= 3 ==> e[2] == b64_symbol((a[1] % 16) * 4 + a[2] / 64) && e[3]
                == b64_symbol((a[2] % 64) as int) && e.subrange(4, e.len() as int)
                == base64_standard(a.subrange(3, a.len() as int))
        }),
{
    let e = base64_standard(a);
    if a.len() >= 3 {
        let q = seq![
            b64_symbol((a[0] / 4) as int),
            b64_symbol((a[0] % 4) * 16 + a[1] / 16),
            b64_symbol((a[1] % 16) * 4 + a[2] / 64),
            b64_symbol((a[2] % 64) as int),
        ];
        assert(e == q + base64_standard(a.subrange(3, a.len() as int)));
        assert(e.subrange(4, e.len() as int) =~= base64_standard(a.subrange(3, a.len() as int)));
    }
}

/// Distinct byte strings have distinct Base64 texts.
pub proof fn lemma_base64_injective(a: Seq<u8>, b: Seq<u8>)
    requires
        base64_standard(a) == base64_standard(b),
    ensures
        a == b,
    decreases a.len(),
{
    let e = base64_standard(a);
    lemma_base64_len(a);
    lemma_base64_len(b);
    if a.len() == 0 {
        assert(b.len() == 0);
        assert(a =~= b);
        return;
    }
    assert(b.len() > 0);
    lemma_base64_head(a);
    lemma_base64_head(b);
    let a0 = a[0] as int;
    let b0 = b[0] as int;
    lemma_b64_symbol(a0 / 4, b0 / 4);
    if a.len() >= 2 {
        let a1 = a[1] as int;
        lemma_b64_symbol((a0 % 4) * 16 + a1 / 16, 0);
        if a.len() >= 3 {
            let a2 = a[2] as int;
            lemma_b64_symbol((a1 % 16) * 4 + a2 / 64, 0);
            lemma_b64_symbol(a2 % 64, 0);
        } else {
            lemma_b64_symbol((a1 % 16) * 4, 0);
        }
    }
    if b.len() >= 2 {
        let b1 = b[1] as int;
        lemma_b64_symbol((b0 % 4) * 16 + b1 / 16, 0);
        if b.len() >= 3 {
            let b2 = b[2] as int;
            lemma_b64_symbol((b1 % 16) * 4 + b2 / 64, 0);
            lemma_b64_symbol(b2 % 64, 0);
        } else {
            lemma_b64_symbol((b1 % 16) * 4, 0);
        }
    }
    if a.len() == 1 {
        assert(b.len() == 1);
        lemma_b64_symbol((a0 % 4) * 16, (b0 % 4) * 16);
        assert(a0 == b0) by (nonlinear_arith)
            requires
                a0 / 4 == b0 / 4,
                (a0 % 4) * 16 == (b0 % 4) * 16,
                0 <= a0 < 256,
                0 <= b0 < 256,
        ;
        assert(a =~= b);
    } else if a.len() == 2 {
        assert(b.len() == 2);
        let a1 = a[1] as int;
        let b1 = b[1] as int;
        lemma_b64_symbol((a0 % 4) * 16 + a1 / 16, (b0 % 4) * 16 + b1 / 16);
        lemma_b64_symbol((a1 % 16) * 4, (b1 % 16) * 4);
        assert(a0 == b0 && a1 == b1) by (nonlinear_arith)
            requires
                a0 / 4 == b0 / 4,
                (a0 % 4) * 16 + a1 / 16 == (b0 % 4) * 16 + b1 / 16,
                (a1 % 16) * 4 == (b1 % 16) * 4,
                0 <= a0 < 256,
                0 <= b0 < 256,
                0 <= a1 < 256,
                0 <= b1 < 256,
        ;
        assert(a =~= b);
    } else {
        assert(b.len() >= 3);
        let a1 = a[1] as int;
        let b1 = b[1] as int;
        let a2 = a[2] as int;
        let b2 = b[2] as int;
        lemma_b64_symbol((a0 % 4) * 16 + a1 / 16, (b0 % 4) * 16 + b1 / 16);
        lemma_b64_symbol((a1 % 16) * 4 + a2 / 64, (b1 % 16) * 4 + b2 / 64);
        lemma_b64_symbol(a2 % 64, b2 % 64);
        assert(a0 == b0 && a1 == b1 && a2 == b2) by (nonlinear_arith)
            requires
                a0 / 4 == b0 / 4,
                (a0 % 4) * 16 + a1 / 16 == (b0 % 4) * 16 + b1 / 16,
                (a1 % 16) * 4 + a2 / 64 == (b1 % 16) * 4 + b2 / 64,
                a2 % 64 == b2 % 64,
                0 <= a0 < 256,
                0 <= b0 < 256,
                0 <= a1 < 256,
                0 <= b1 < 256,
                0 <= a2 < 256,
                0 <= b2 < 256,
        ;
        let ra = a.subrange(3, a.len() as int);
        let rb = b.subrange(3, b.len() as int);
        lemma_base64_injective(ra, rb);
        assert(a =~= b) by {
            assert forall|i: int| 0 <= i < a.len() implies a[i] == b[i] by {
                if i >= 3 {
                    assert(a[i] == ra[i - 3]);
                    assert(b[i] == rb[i - 3]);
                }
            }
        }
    }
}

/// A character of standard Base64 text: a symbol of the alphabet or `=`.
pub open spec fn is_base64_char(c: char) -> bool {
    let u = c as u32;
    (65 <= u && u <= 90) || (97 <= u && u <= 122) || (48 <= u && u <= 57) || u == 43 || u == 47
        || u == 61
}

/// Base64 text is made of Base64 characters only.
pub proof fn lemma_base64_chars(b: Seq<u8>)
    ensures
        forall|i: int|
            0 <= i < base64_standard(b).len() ==> is_base64_char(#[trigger] base64_standard(b)[i]),
    decreases b.len(),
{
    let e = base64_standard(b);
    if b.len() > 0 {
        lemma_base64_head(b);
        let b0 = b[0] as int;
        assert(is_base64_char(e[0]));
        if b.len() >= 3 {
            let rest = b.subrange(3, b.len() as int);
            lemma_base64_chars(rest);
            let b1 = b[1] as int;
            let b2 = b[2] as int;
            assert(0 <= (b0 % 4) * 16 + b1 / 16 < 64);
            assert(0 <= (b1 % 16) * 4 + b2 / 64 < 64);
            assert forall|i: int| 0 <= i < e.len() implies is_base64_char(#[trigger] e[i]) by {
                if i >= 4 {
                    assert(e[i] == e.subrange(4, e.len() as int)[i - 4]);
                }
            }
        } else if b.len() == 2 {
            let b1 = b[1] as int;
            assert(0 <= (b0 % 4) * 16 + b1 / 16 < 64);
            lemma_base64_len(b);
        } else {
            lemma_base64_len(b);
        }
    }
}

/// Decodes standard Base64 text; the result is exactly [`base64_decoded`].
pub fn decode_base64(text: &str) -> (r: Result<Vec<u8>, String>)
    ensures
        match r {
            Ok(b) => base64_decoded(text@) == Ok::<Seq<u8>, Seq<char>>(b@),
            Err(m) => base64_decoded(text@) == Err::<Seq<u8>, Seq<char>>(m@),
        },
{
    let r = base64_decode(text);
    proof {
        if r is Ok {
            let b = r->Ok_0@;
            let c = choose|c: Seq<u8>| base64_standard(c) == text@;
            lemma_base64_injective(b, c);
        }
    }
    r
}

/// Decoding the Base64 text of `b` gives back `b`.
pub proof fn lemma_base64_decode_encode(b: Seq<u8>)
    ensures
        base64_decoded(base64_standard(b)) == Ok::<Seq<u8>, Seq<char>>(b),
{
    let t = base64_standard(b);
    assert(exists|c: Seq<u8>| base64_standard(c) == t);
    let c = choose|c: Seq<u8>| base64_standard(c) == t;
    lemma_base64_injective(b, c);
}

/// Lowercase hex digit for a value in `0..16`.
pub open spec fn hex_digit_lower(v: int) -> char {
    if v < 10 {
        (v + 48) as char
    } else {
        (v - 10 + 97) as char
    }
}

/// Lowercase hex text of `b`: two digits per byte, high nibble first.
pub open spec fn hex_lower(b: Seq<u8>) -> Seq<char>
    decreases b.len(),
{
    if b.len() == 0 {
        Seq::empty()
    } else {
        seq![hex_digit_lower((b[0] / 16) as int), hex_digit_lower((b[0] % 16) as int)] + hex_lower(b.drop_first())
    }
}

/// The hex text of `b` has two digits per byte, high nibble first.
pub proof fn lemma_hex_lower_index(b: Seq<u8>)
    ensures
        hex_lower(b).len() == 2 * b.len(),
        forall|i: int|
            0 <= i < b.len() ==> hex_lower(b)[2 * i] == hex_digit_lower((#[trigger] b[i] / 16) as int)
                && hex_lower(b)[2 * i + 1] == hex_digit_lower((b[i] % 16) as int),
    decreases b.len(),
{
    if b.len() > 0 {
        let t = b.drop_first();
        lemma_hex_lower_index(t);
        let h = hex_lower(b);
        let d = seq![hex_digit_lower((b[0] / 16) as int), hex_digit_lower((b[0] % 16) as int)];
        assert(h == d + hex_lower(t));
        assert forall|i: int| 0 <= i < b.len() implies h[2 * i] == hex_digit_lower(
            (#[trigger] b[i] / 16) as int,
        ) && h[2 * i + 1] == hex_digit_lower((b[i] % 16) as int) by {
            if i > 0 {
                assert(b[i] == t[i - 1]);
                assert(h[2 * i] == hex_lower(t)[2 * (i - 1)]);
                assert(h[2 * i + 1] == hex_lower(t)[2 * (i - 1) + 1]);
            }
        }
    }
}

/// Encodes `bytes` with `hex::encode`: lowercase hex, two digits per byte.
#[verifier::external_body]
pub(crate) fn hex_encode(bytes: &[u8]) -> (text: String)
    ensures
        text@ == hex_lower(bytes@),
{
    hex::encode(bytes)
}

/// Decimal text of `n` (no sign, no leading zeros).
pub open spec fn decimal_text(n: nat) -> Seq<char>
    decreases n,
{
    if n < 10 {
        seq![(n + 48) as char]
    } else {
        decimal_text(n / 10).push(((n % 10) + 48) as char)
    }
}

/// `s` is made of ASCII decimal digits only.
pub open spec fn all_digits(s: Seq<char>) -> bool {
    forall|i: int| 0 <= i < s.len() ==> 48 <= (#[trigger] s[i] as u32) && (s[i] as u32) <= 57
}

/// The number the decimal digits `s` denote.
pub open spec fn digits_value(s: Seq<char>) -> nat
    decreases s.len(),
{
    if s.len() == 0 {
        0
    } else {
        digits_value(s.drop_last()) * 10 + ((s.last() as u32) - 48) as nat
    }
}

/// `u16::from_str`: an optional `+`, then at least one decimal digit, denoting
/// a value that fits in 16 bits.
pub open spec fn parse_u16_text(s: Seq<char>) -> Option<u16> {
    if unsigned_digits(s).len() > 0 && all_digits(unsigned_digits(s)) && digits_value(
        unsigned_digits(s),
    ) <= 65535 {
        Some(digits_value(unsigned_digits(s)) as u16)
    } else {
        None
    }
}

/// The digits of a number text: `s` without one leading `+` (kept when it is all of `s`).
pub open spec fn unsigned_digits(s: Seq<char>) -> Seq<char> {
    if s.len() >= 2 && s[0] == '+' {
        s.drop_first()
    } else {
        s
    }
}

/// Parses a port number the way `str::parse::<u16>` does.
pub fn parse_u16(s: &[char]) -> (r: Option<u16>)
    ensures
        r == parse_u16_text(s@),
{
    let start: usize = if s.len() >= 2 && s[0] == '+' {
        1
    } else {
        0
    };
    let ghost d = unsigned_digits(s@);
    assert(d =~= s@.skip(start as int));
    if start >= s.len() {
        return None;
    }
    let mut v: u32 = 0;
    let mut i = start;
    while i < s.len()
        invariant
            start <= i <= s@.len(),
            d == s@.skip(start as int),
            d == unsigned_digits(s@),
            all_digits(s@.subrange(start as int, i as int)),
            v == digits_value(s@.subrange(start as int, i as int)),
            v <= 65535,
        decreases s@.len() - i,
    {
        let c = s[i];
        assert(s@.subrange(start as int, i + 1).drop_last() =~= s@.subrange(start as int, i as int));
        if (c as u32) < 48 || (c as u32) > 57 {
            assert(!all_digits(d)) by {
                assert(d[i - start] == c);
            }
            return None;
        }
        let nv = v * 10 + ((c as u32) - 48);
        if nv > 65535 {
            proof {
                if all_digits(d) {
                    lemma_digits_value_prefix(d, i + 1 - start);
                    assert(d.take(i + 1 - start) =~= s@.subrange(start as int, i + 1));
                }
            }
            return None;
        }
        v = nv;
        i = i + 1;
    }
    assert(s@.subrange(start as int, s@.len() as int) =~= d);
    Some(v as u16)
}

/// A prefix of digits denotes at most what the whole digits denote.
proof fn lemma_digits_value_prefix(d: Seq<char>, k: int)
    requires
        0 <= k <= d.len(),
        all_digits(d),
    ensures
        digits_value(d.take(k)) <= digits_value(d),
    decreases d.len(),
{
    if k < d.len() {
        assert(d.drop_last().take(k) =~= d.take(k));
        lemma_digits_value_prefix(d.drop_last(), k);
    } else {
        assert(d.take(k) =~= d);
    }
}

/// The decimal text of `n` is made of digits, does not begin with `+`, and denotes `n`.
pub proof fn lemma_decimal_digits(n: nat)
    ensures
        all_digits(decimal_text(n)),
        decimal_text(n).len() > 0,
        decimal_text(n)[0] != '+',
        digits_value(decimal_text(n)) == n,
    decreases n,
{
    let d = n % 10;
    let c = ((n % 10) + 48) as char;
    assert(c as u32 == d + 48);
    if n >= 10 {
        lemma_decimal_digits(n / 10);
        let t = decimal_text(n);
        assert(t.drop_last() =~= decimal_text(n / 10));
        assert(t.last() == c);
        assert(n == (n / 10) * 10 + d);
        assert(digits_value(t) == digits_value(t.drop_last()) * 10 + ((t.last() as u32) - 48) as nat);
        assert(digits_value(t.drop_last()) == n / 10);
    } else {
        assert(decimal_text(n).drop_last() =~= Seq::<char>::empty());
        assert(decimal_text(n).last() == c);
        assert(digits_value(Seq::<char>::empty()) == 0);
    }
}

/// Parsing the decimal text of a port gives back the port.
pub proof fn lemma_parse_u16_decimal(p: u16)
    ensures
        parse_u16_text(decimal_text(p as nat)) == Some(p),
{
    lemma_decimal_digits(p as nat);
}

/// Appends the decimal text of `n` to `s`.
pub fn push_decimal(s: &mut String, n: u64)
    ensures
        final(s)@ == old(s)@ + decimal_text(n as nat),
    decreases n,
{
    if n >= 10 {
        push_decimal(s, n / 10);
    }
    let d: u8 = (n % 10) as u8;
    string_push(s, (d + 48) as char);
    assert(final(s)@ =~= old(s)@ + decimal_text(n as nat));
}

/// Appends two lowercase hex digits for `b` to `s`.
pub fn push_hex_byte(s: &mut String, b: u8)
    ensures
        final(s)@ == old(s)@ + hex_lower(seq![b]),
{
    let hi: u8 = b / 16;
    let lo: u8 = b % 16;
    let c_hi = if hi < 10 { (hi + 48) as char } else { (hi - 10 + 97) as char };
    let c_lo = if lo < 10 { (lo + 48) as char } else { (lo - 10 + 97) as char };
    string_push(s, c_hi);
    string_push(s, c_lo);
    assert(seq![b].drop_first() =~= Seq::<u8>::empty());
    assert(hex_lower(seq![b]) =~= seq![c_hi, c_lo]) by {
        reveal_with_fuel(hex_lower, 2);
    }
    assert(final(s)@ =~= old(s)@ + hex_lower(seq![b]));
}

} // verus!
