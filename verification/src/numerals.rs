use crate::text::to_chars;
use vstd::prelude::*;

verus! {

/// The numeral of a digit below sixteen, in lower case.
pub open spec fn digit_char(d: int) -> char {
    if d < 10 {
        (48 + d) as char
    } else {
        (87 + d) as char
    }
}

/// The numeral of a digit.
pub(crate) fn numeral(d: u64) -> (result: char)
    requires
        d < 16,
    ensures
        result == digit_char(d as int),
{
    if d < 10 {
        (48 + d as u8) as char
    } else {
        (87 + d as u8) as char
    }
}

/// The decimal numerals of a number, without leading zeros.
pub open spec fn decimal(n: nat) -> Seq<char>
    decreases n,
{
    if n < 10 {
        seq![digit_char(n as int)]
    } else {
        decimal(n / 10).push(digit_char((n % 10) as int))
    }
}

fn push_decimal(out: &mut String, n: u64)
    ensures
        final(out)@ == old(out)@ + decimal(n as nat),
    decreases n,
{
    let ghost before = out@;
    if n >= 10 {
        push_decimal(out, n / 10);
    }
    out.push(numeral(n % 10));
    assert(out@ == before + decimal(n as nat));
}

/// The decimal numerals of a number.
pub fn decimal_text(n: u64) -> (result: String)
    ensures
        result@ == decimal(n as nat),
{
    let mut out: String = String::new();
    push_decimal(&mut out, n);
    assert(Seq::<char>::empty() + decimal(n as nat) == decimal(n as nat));
    out
}

/// The decimal numerals of a number, behind a minus sign where it is negative.
pub open spec fn signed_decimal(n: int) -> Seq<char> {
    if n < 0 {
        seq!['-'] + decimal((-n) as nat)
    } else {
        decimal(n as nat)
    }
}

/// The decimal numerals of a signed number.
pub fn signed_decimal_text(n: i64) -> (result: String)
    ensures
        result@ == signed_decimal(n as int),
{
    let mut out: String = String::new();
    if n < 0 {
        out.push('-');
        let size: i128 = -(n as i128);
        push_decimal(&mut out, size as u64);
        assert(out@ == seq!['-'] + decimal(size as nat));
    } else {
        push_decimal(&mut out, n as u64);
        assert(out@ == decimal(n as nat));
    }
    out
}

/// An optional number as it is printed for diagnosis: `None`, or `Some(..)`.
pub open spec fn option_decimal(n: Option<u64>) -> Seq<char> {
    match n {
        Some(n) => "Some("@ + decimal(n as nat) + ")"@,
        None => "None"@,
    }
}

/// An optional number as it is printed for diagnosis.
pub fn option_decimal_text(n: Option<u64>) -> (result: String)
    ensures
        result@ == option_decimal(n),
{
    match n {
        Some(n) => {
            let mut out: String = "Some(".to_owned();
            push_decimal(&mut out, n);
            out.append(")");
            out
        },
        None => "None".to_owned(),
    }
}

/// Whether a character is a decimal numeral.
pub open spec fn is_numeral(c: char) -> bool {
    '0' <= c && c <= '9'
}

/// Whether every character is a decimal numeral.
pub open spec fn all_numerals(s: Seq<char>) -> bool {
    forall|i: int| 0 <= i < s.len() ==> is_numeral(#[trigger] s[i])
}

/// The value of a row of decimal numerals.
pub open spec fn numeral_value(s: Seq<char>) -> nat
    decreases s.len(),
{
    if s.len() == 0 {
        0
    } else {
        (numeral_value(s.drop_last()) * 10 + (s.last() as int - 48)) as nat
    }
}

/// The number that a text spells: an optional plus sign, then decimal numerals, at least one, of
/// a value that `max` allows.
pub open spec fn spelled_number(s: Seq<char>, max: nat) -> Option<nat> {
    let body = if s.len() > 0 && s[0] == '+' {
        s.skip(1)
    } else {
        s
    };
    if body.len() > 0 && all_numerals(body) && numeral_value(body) <= max {
        Some(numeral_value(body))
    } else {
        None
    }
}

proof fn lemma_value_grows(s: Seq<char>, k: int)
    requires
        0 <= k <= s.len(),
        all_numerals(s),
    ensures
        numeral_value(s.take(k)) <= numeral_value(s),
    decreases s.len(),
{
    if k < s.len() {
        assert(is_numeral(s[s.len() - 1]));
        assert(all_numerals(s.drop_last())) by {
            assert forall|i: int| 0 <= i < s.drop_last().len() implies is_numeral(
                #[trigger] s.drop_last()[i],
            ) by {
                assert(is_numeral(s[i]));
            }
        }
        lemma_value_grows(s.drop_last(), k);
        assert(s.drop_last().take(k) == s.take(k));
    } else {
        assert(s.take(k) == s);
    }
}

/// The number that a text spells, where `max` allows its value.
pub fn parse_number(s: &str, max: u64) -> (result: Option<u64>)
    ensures
        match result {
            Some(n) => spelled_number(s@, max as nat) == Some(n as nat),
            None => spelled_number(s@, max as nat) is None,
        },
{
    let chars = to_chars(s);
    let start: usize = if chars.len() > 0 && chars[0] == '+' {
        1
    } else {
        0
    };
    let ghost body = chars@.skip(start as int);
    assert(start == 0 ==> body == chars@);
    if chars.len() == start {
        return None;
    }
    let mut value: u64 = 0;
    let mut at: usize = start;
    while at < chars.len()
        invariant
            start <= at <= chars@.len(),
            start < chars@.len(),
            chars@ == s@,
            body == chars@.skip(start as int),
            spelled_number(s@, max as nat) == (if body.len() > 0 && all_numerals(body)
                && numeral_value(body) <= max {
                Some(numeral_value(body))
            } else {
                None
            }),
            forall|i: int| 0 <= i < at - start ==> is_numeral(#[trigger] body[i]),
            value == numeral_value(body.take(at - start)),
            value <= max,
        decreases chars@.len() - at,
    {
        let c = chars[at];
        assert(body[at - start] == c);
        if !('0' <= c && c <= '9') {
            assert(!is_numeral(body[at - start]));
            return None;
        }
        let digit: u64 = (c as u8 - 48) as u64;
        proof {
            assert(body.take(at + 1 - start).drop_last() == body.take(at - start));
            assert(body.take(at + 1 - start).last() == c);
            if all_numerals(body) {
                lemma_value_grows(body, at + 1 - start);
            }
        }
        if value > max / 10 || digit > max - value * 10 {
            return None;
        }
        value = value * 10 + digit;
        at = at + 1;
    }
    assert(body.take(at - start) == body);
    Some(value)
}

proof fn lemma_decimal_value(n: nat)
    ensures
        decimal(n).len() > 0,
        all_numerals(decimal(n)),
        numeral_value(decimal(n)) == n,
    decreases n,
{
    if n >= 10 {
        lemma_decimal_value(n / 10);
        let head = decimal(n / 10);
        assert(decimal(n).drop_last() == head);
        assert(decimal(n).last() == digit_char((n % 10) as int));
        assert forall|i: int| 0 <= i < decimal(n).len() implies is_numeral(
            #[trigger] decimal(n)[i],
        ) by {
            if i < head.len() {
                assert(is_numeral(head[i]));
            }
        }
    } else {
        assert(decimal(n).drop_last() == Seq::<char>::empty());
        assert(numeral_value(Seq::<char>::empty()) == 0);
    }
}

/// Reading the numerals of a number gives the number back.
pub proof fn law_decimal_reads_back(n: nat, max: nat)
    requires
        n <= max,
    ensures
        spelled_number(decimal(n), max) == Some(n),
{
    lemma_decimal_value(n);
    assert(is_numeral(decimal(n)[0]));
}

/// Different numbers have different numerals.
pub proof fn law_decimal_is_injective(a: nat, b: nat)
    requires
        decimal(a) == decimal(b),
    ensures
        a == b,
{
    lemma_decimal_value(a);
    lemma_decimal_value(b);
}

/// The lowest `width` hexadecimal numerals of a number, in lower case.
pub open spec fn hex_fixed(n: nat, width: nat) -> Seq<char>
    decreases width,
{
    if width == 0 {
        Seq::empty()
    } else {
        hex_fixed(n / 16, (width - 1) as nat).push(digit_char((n % 16) as int))
    }
}

fn push_hex(out: &mut String, n: u64, width: usize)
    ensures
        final(out)@ == old(out)@ + hex_fixed(n as nat, width as nat),
    decreases width,
{
    let ghost before = out@;
    if width > 0 {
        push_hex(out, n / 16, width - 1);
        out.push(numeral(n % 16));
    }
    assert(out@ == before + hex_fixed(n as nat, width as nat));
}

/// The sixteen hexadecimal numerals of a number, in lower case.
pub fn hex16(n: u64) -> (result: String)
    ensures
        result@ == hex_fixed(n as nat, 16),
{
    let mut out: String = String::new();
    push_hex(&mut out, n, 16);
    assert(Seq::<char>::empty() + hex_fixed(n as nat, 16) == hex_fixed(n as nat, 16));
    out
}

/// Two hexadecimal numerals for each byte, in lower case.
pub open spec fn hex_bytes(bytes: Seq<u8>) -> Seq<char>
    decreases bytes.len(),
{
    if bytes.len() == 0 {
        Seq::empty()
    } else {
        hex_bytes(bytes.drop_last()) + hex_fixed(bytes.last() as nat, 2)
    }
}

/// Two hexadecimal numerals for each byte, in lower case.
pub fn hex_lower(bytes: &[u8]) -> (result: String)
    ensures
        result@ == hex_bytes(bytes@),
        result@.len() == 2 * bytes@.len(),
{
    let mut out: String = String::new();
    for i in 0..bytes.len()
        invariant
            out@ == hex_bytes(bytes@.take(i as int)),
            out@.len() == 2 * i,
    {
        proof {
            assert(bytes@.take(i + 1).drop_last() == bytes@.take(i as int));
            reveal_with_fuel(hex_fixed, 3);
        }
        push_hex(&mut out, bytes[i] as u64, 2);
    }
    assert(bytes@.take(bytes@.len() as int) == bytes@);
    out
}

/// Equal rows of hexadecimal numerals come from equal numbers, as far as the numerals reach.
proof fn lemma_hex_fixed_injective(a: nat, b: nat, width: nat)
    requires
        hex_fixed(a, width) == hex_fixed(b, width),
        a < pow16(width),
        b < pow16(width),
    ensures
        a == b,
    decreases width,
{
    if width > 0 {
        let w = (width - 1) as nat;
        let x = hex_fixed(a / 16, w).push(digit_char((a % 16) as int));
        let y = hex_fixed(b / 16, w).push(digit_char((b % 16) as int));
        assert(x == y);
        assert(x.drop_last() == hex_fixed(a / 16, w));
        assert(y.drop_last() == hex_fixed(b / 16, w));
        assert(x.last() == y.last());
        lemma_hex_fixed_injective(a / 16, b / 16, w);
    }
}

/// Sixteen to the power of `width`.
pub open spec fn pow16(width: nat) -> nat
    decreases width,
{
    if width == 0 {
        1
    } else {
        16 * pow16((width - 1) as nat)
    }
}

/// Different byte strings have different hexadecimal texts.
pub proof fn law_hex_bytes_is_injective(a: Seq<u8>, b: Seq<u8>)
    requires
        hex_bytes(a) == hex_bytes(b),
    ensures
        a == b,
    decreases a.len(),
{
    reveal_with_fuel(hex_fixed, 3);
    reveal_with_fuel(pow16, 3);
    if a.len() == 0 {
        if b.len() > 0 {
            assert(hex_bytes(b).len() >= 2);
        }
    } else if b.len() == 0 {
        assert(hex_bytes(a).len() >= 2);
    } else {
        let ha = hex_bytes(a.drop_last());
        let hb = hex_bytes(b.drop_last());
        let ta = hex_fixed(a.last() as nat, 2);
        let tb = hex_fixed(b.last() as nat, 2);
        assert(ta.len() == 2 && tb.len() == 2);
        assert(hex_bytes(a) == ha + ta && hex_bytes(b) == hb + tb);
        assert((ha + ta).len() == ha.len() + 2);
        assert((hb + tb).len() == hb.len() + 2);
        assert(ha.len() == hb.len());
        assert(ha == (ha + ta).take(ha.len() as int));
        assert(hb == (hb + tb).take(hb.len() as int));
        assert(ta == (ha + ta).skip(ha.len() as int));
        assert(tb == (hb + tb).skip(hb.len() as int));
        law_hex_bytes_is_injective(a.drop_last(), b.drop_last());
        lemma_hex_fixed_injective(a.last() as nat, b.last() as nat, 2);
        assert(a == a.drop_last().push(a.last()));
        assert(b == b.drop_last().push(b.last()));
    }
}

/// The 64-bit FNV-1a hash of a byte string.
pub open spec fn fnv1a64_of(bytes: Seq<u8>) -> u64
    decreases bytes.len(),
{
    if bytes.len() == 0 {
        0xcbf29ce484222325
    } else {
        (fnv1a64_of(bytes.drop_last()) ^ (bytes.last() as u64)).wrapping_mul(0x100000001b3)
    }
}

/// The 64-bit FNV-1a hash of a byte string.
pub fn fnv1a64(bytes: &[u8]) -> (result: u64)
    ensures
        result == fnv1a64_of(bytes@),
{
    let mut hash: u64 = 0xcbf29ce484222325;
    for i in 0..bytes.len()
        invariant
            hash == fnv1a64_of(bytes@.take(i as int)),
    {
        assert(bytes@.take(i + 1).drop_last() == bytes@.take(i as int));
        hash = (hash ^ (bytes[i] as u64)).wrapping_mul(0x100000001b3);
    }
    assert(bytes@.take(bytes@.len() as int) == bytes@);
    hash
}

/// The decimal form of a number is that of its tens, followed by its last numeral; it begins with a
/// zero only for zero.
pub proof fn law_decimal_ends_in_its_last_numeral(n: nat, d: nat)
    requires
        d < 10,
        n > 0,
    ensures
        decimal(10 * n + d) == decimal(n) + decimal(d),
        decimal(n)[0] != '0',
        decimal(0) == seq!['0'],
        decimal(1) == seq!['1'],
        decimal(d).len() == 1,
        decimal(d)[0] as int == '0' as int + d,
    decreases n,
{
    let m = 10 * n + d;
    assert(m / 10 == n && m % 10 == d);
    assert(decimal(m) =~= decimal(n) + decimal(d));
    if n >= 10 {
        law_decimal_ends_in_its_last_numeral(n / 10, n % 10);
        assert(decimal(n / 10).len() > 0) by {
            lemma_decimal_value(n / 10);
        }
    }
}

/// A text is read as a number where it is made of numerals, with a `+` before them or none, and the
/// number is not above the greatest.
pub proof fn law_only_numerals_are_read(s: Seq<char>, max: nat)
    ensures
        spelled_number(s, max) matches Some(n) ==> n <= max && s.len() > 0 && forall|i: int|
            0 < i < s.len() ==> '0' <= #[trigger] s[i] <= '9',
        s.len() == 0 ==> spelled_number(s, max) is None,
        s == seq!['+'] ==> spelled_number(s, max) is None,
        s.len() > 0 && s[0] != '+' && !('0' <= s[0] <= '9') ==> spelled_number(s, max) is None,
        s.len() > 0 && '0' <= s[0] <= '9' ==> spelled_number(seq!['+'] + s, max) == spelled_number(
            s,
            max,
        ),
{
    if spelled_number(s, max) is Some {
        let body = if s[0] == '+' {
            s.skip(1)
        } else {
            s
        };
        assert forall|i: int| 0 < i < s.len() implies '0' <= #[trigger] s[i] <= '9' by {
            assert(s[i] == if s[0] == '+' {
                body[i - 1]
            } else {
                body[i]
            });
        }
    }
    assert((seq!['+'] + s).skip(1) =~= s);
}

/// A number of a fixed number of hexadecimal numerals has that many characters, all of them numerals
/// or letters from `a` to `f`.
pub proof fn law_hex_has_its_width(n: nat, width: nat)
    ensures
        hex_fixed(n, width).len() == width,
        forall|i: int|
            0 <= i < width ==> '0' <= #[trigger] hex_fixed(n, width)[i] <= '9' || 'a' <= hex_fixed(
                n,
                width,
            )[i] <= 'f',
    decreases width,
{
    if width > 0 {
        law_hex_has_its_width(n / 16, (width - 1) as nat);
        let head = hex_fixed(n / 16, (width - 1) as nat);
        assert forall|i: int| 0 <= i < width implies '0' <= #[trigger] hex_fixed(n, width)[i] <= '9'
            || 'a' <= hex_fixed(n, width)[i] <= 'f' by {
            if i < width - 1 {
                assert(hex_fixed(n, width)[i] == head[i]);
            }
        }
    }
}

/// The hexadecimal form of bytes is that of each of them, in their order.
pub proof fn law_hex_bytes_split(a: Seq<u8>, b: Seq<u8>)
    ensures
        hex_bytes(a + b) == hex_bytes(a) + hex_bytes(b),
        hex_bytes(a).len() == 2 * a.len(),
    decreases b.len(), a.len(),
{
    if a.len() > 0 {
        law_hex_bytes_split(a.drop_last(), Seq::empty());
        law_hex_has_its_width(a.last() as nat, 2);
    }
    if b.len() == 0 {
        assert(a + b =~= a);
        assert(hex_bytes(a) + hex_bytes(b) =~= hex_bytes(a));
    } else {
        law_hex_bytes_split(a, b.drop_last());
        assert((a + b).drop_last() =~= a + b.drop_last());
        assert(hex_bytes(a + b) =~= hex_bytes(a) + hex_bytes(b));
    }
}

/// A signed number is written with a minus sign where it is negative, and an optional one as `None`
/// or inside `Some`.
pub proof fn law_signed_and_optional(n: nat, m: u64)
    requires
        n > 0,
    ensures
        signed_decimal(-(n as int)) == seq!['-'] + signed_decimal(n as int),
        signed_decimal(n as int) == decimal(n),
        signed_decimal(0) == seq!['0'],
        option_decimal(None) == "None"@,
        option_decimal(Some(m)) == "Some("@ + decimal(m as nat) + ")"@,
{
}

/// The hash of bytes starts from its offset, and each byte is mixed in and spread by its prime.
pub proof fn law_hash_goes_on(bytes: Seq<u8>, byte: u8)
    ensures
        fnv1a64_of(Seq::empty()) == 14695981039346656037u64,
        fnv1a64_of(bytes.push(byte)) == (fnv1a64_of(bytes) ^ (byte as u64)).wrapping_mul(
            1099511628211u64,
        ),
{
    assert(bytes.push(byte).drop_last() =~= bytes);
}

} // verus!
