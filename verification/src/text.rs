//! Text as the protocol carries it: UTF-16 code units on the wire.

use vstd::prelude::*;

verus! {

/// A code unit that is half of a surrogate pair (U+D800 to U+DFFF).
pub open spec fn is_surrogate(u: u16) -> bool {
    0xD800 <= u <= 0xDFFF
}

/// A code unit that opens a surrogate pair (U+D800 to U+DBFF).
pub open spec fn is_high_surrogate(u: u16) -> bool {
    0xD800 <= u <= 0xDBFF
}

/// A code unit that closes a surrogate pair (U+DC00 to U+DFFF).
pub open spec fn is_low_surrogate(u: u16) -> bool {
    0xDC00 <= u <= 0xDFFF
}

/// The character that a surrogate pair stands for.
pub open spec fn pair_char(high: u16, low: u16) -> char {
    ((0x10000 + (high - 0xD800) * 0x400 + (low - 0xDC00)) as u32) as char
}

/// UTF-16 decoding with each unpaired surrogate replaced by U+FFFD: a high
/// surrogate followed by a low one stands for one character, any other
/// surrogate for U+FFFD, and any other unit for the character of its value.
pub open spec fn utf16_lossy(units: Seq<u16>) -> Seq<char>
    decreases units.len(),
{
    if units.len() == 0 {
        Seq::empty()
    } else if units.len() >= 2 && is_high_surrogate(units[0]) && is_low_surrogate(units[1]) {
        seq![pair_char(units[0], units[1])] + utf16_lossy(units.subrange(2, units.len() as int))
    } else if is_surrogate(units[0]) {
        seq!['\u{FFFD}'] + utf16_lossy(units.drop_first())
    } else {
        seq![(units[0] as u32) as char] + utf16_lossy(units.drop_first())
    }
}

/// `String::from_utf16_lossy` decodes UTF-16 code units, replacing each
/// unpaired surrogate with U+FFFD (REPLACEMENT CHARACTER), as its
/// documentation says; stated here as `utf16_lossy`.
pub assume_specification[ String::from_utf16_lossy ](v: &[u16]) -> (s: String)
    ensures
        s@ == utf16_lossy(v@),
;

/// The UTF-16 code units of one character: itself below U+10000, a
/// surrogate pair above.
pub open spec fn char_utf16(c: char) -> Seq<u16> {
    let cp = c as u32;
    if cp < 0x10000 {
        seq![cp as u16]
    } else {
        let v = (cp - 0x10000) as int;
        seq![(0xD800 + v / 0x400) as u16, (0xDC00 + v % 0x400) as u16]
    }
}

/// The UTF-16 code units of a text.
pub open spec fn utf16_encode(s: Seq<char>) -> Seq<u16>
    decreases s.len(),
{
    if s.len() == 0 {
        Seq::empty()
    } else {
        utf16_encode(s.drop_last()) + char_utf16(s.last())
    }
}

/// The UTF-16 code units of a text.
pub fn encode_utf16(s: &str) -> (units: Vec<u16>)
    ensures
        units@ == utf16_encode(s@),
{
    let mut units: Vec<u16> = Vec::new();
    let ghost mut k: int = 0;
    for c in it: s.chars()
        invariant
            it.seq() == s@,
            k == it.index(),
            units@ == utf16_encode(it.seq().take(it.index() as int)),
    {
        let ghost before = it.seq().take(it.index() as int);
        let cp = c as u32;
        if cp < 0x10000 {
            units.push(cp as u16);
        } else {
            let v = cp - 0x10000;
            units.push((0xD800 + v / 0x400) as u16);
            units.push((0xDC00 + v % 0x400) as u16);
        }
        proof {
            let after = it.seq().take(it.index() + 1);
            assert(after.drop_last() =~= before);
            assert(after.last() == c);
            assert(units@ =~= utf16_encode(before) + char_utf16(c));
            k = k + 1;
        }
    }
    assert(k == s@.len());
    assert(s@.take(k) =~= s@);
    units
}

/// Encoding a text in two parts encodes each part in turn.
pub proof fn lemma_utf16_encode_append(a: Seq<char>, b: Seq<char>)
    ensures
        utf16_encode(a + b) == utf16_encode(a) + utf16_encode(b),
    decreases b.len(),
{
    if b.len() == 0 {
        assert(a + b =~= a);
        assert(utf16_encode(a) + utf16_encode(b) =~= utf16_encode(a));
    } else {
        assert((a + b).drop_last() =~= a + b.drop_last());
        assert((a + b).last() == b.last());
        lemma_utf16_encode_append(a, b.drop_last());
        assert(utf16_encode(a + b) =~= utf16_encode(a) + utf16_encode(b));
    }
}

/// Decoding the code units of one character, followed by any units, gives
/// the character followed by the decoding of those units.
pub proof fn lemma_utf16_char_roundtrip(c: char, rest: Seq<u16>)
    ensures
        utf16_lossy(char_utf16(c) + rest) == seq![c] + utf16_lossy(rest),
{
    let cp = c as u32;
    let u = char_utf16(c) + rest;
    if cp < 0x10000 {
        assert(!(0xD800 <= cp <= 0xDFFF));
        assert(u.drop_first() =~= rest);
        assert(u[0] == cp as u16);
        assert(((u[0] as u32) as char) == c);
    } else {
        let v = (cp - 0x10000) as int;
        assert(v < 0x10_0000);
        let hi = (0xD800 + v / 0x400) as u16;
        let lo = (0xDC00 + v % 0x400) as u16;
        assert(is_high_surrogate(hi) && is_low_surrogate(lo));
        assert(u.subrange(2, u.len() as int) =~= rest);
        assert(0x10000 + (hi - 0xD800) * 0x400 + (lo - 0xDC00) == cp) by {
            vstd::arithmetic::div_mod::lemma_fundamental_div_mod(v, 0x400);
        }
        assert(pair_char(hi, lo) == c);
    }
}

/// Decoding the UTF-16 code units of a text gives the text back.
pub proof fn lemma_utf16_roundtrip(s: Seq<char>)
    ensures
        utf16_lossy(utf16_encode(s)) == s,
    decreases s.len(),
{
    if s.len() > 0 {
        let first = s[0];
        let rest = s.drop_first();
        assert(s =~= seq![first] + rest);
        lemma_utf16_encode_append(seq![first], rest);
        assert(seq![first].drop_last() =~= Seq::<char>::empty());
        assert(utf16_encode(Seq::<char>::empty()) =~= Seq::<u16>::empty());
        assert(seq![first].last() == first);
        assert(utf16_encode(seq![first]) =~= char_utf16(first));
        lemma_utf16_char_roundtrip(first, utf16_encode(rest));
        lemma_utf16_roundtrip(rest);
    }
}

/// `String::push` appends the character at the end. It panics when the
/// length overflows; `requires` keeps the string far below that.
pub assume_specification[ String::push ](string: &mut String, ch: char)
    requires
        old(string)@.len() < 0x1000_0000,
    ensures
        final(string)@ == old(string)@.push(ch),
;

/// A character below U+10000 is one code unit, its own value; any other is
/// a high surrogate (U+D800 to U+DBFF) followed by a low one (U+DC00 to
/// U+DFFF), whose ten-bit halves, after 0x10000, make up the character. A
/// text's units are those of its characters, in order.
pub proof fn lemma_char_utf16_facts(c: char, s: Seq<char>)
    ensures
        (c as u32) < 0x10000 ==> char_utf16(c).len() == 1 && char_utf16(c)[0] as u32 == c as u32,
        (c as u32) >= 0x10000 ==> {
            let u = char_utf16(c);
            &&& u.len() == 2
            &&& 0xD800 <= u[0] <= 0xDBFF
            &&& 0xDC00 <= u[1] <= 0xDFFF
            &&& 0x10000 + (u[0] - 0xD800) * 0x400 + (u[1] - 0xDC00) == c as u32
        },
        utf16_encode(s.push(c)) == utf16_encode(s) + char_utf16(c),
        utf16_encode(Seq::<char>::empty()).len() == 0,
{
    let cp = c as u32;
    assert(cp <= 0x10FFFF);
    if cp >= 0x10000 {
        let v = (cp - 0x10000) as int;
        assert(0 <= v < 0x100000);
        assert(v == (v / 0x400) * 0x400 + v % 0x400);
        assert(0 <= v / 0x400 < 0x400);
    }
    assert(s.push(c).drop_last() =~= s);
}

/// The character of a decimal digit.
pub open spec fn digit_char(d: nat) -> char {
    ((d + 48) as u8) as char
}

/// The decimal digits of a natural number, most significant first, without leading zeros.
pub open spec fn nat_decimal(n: nat) -> Seq<char>
    decreases n,
{
    if n < 10 {
        seq![digit_char(n)]
    } else {
        nat_decimal(n / 10) + seq![digit_char(n % 10)]
    }
}

/// The decimal form of an integer: a minus sign before negative ones.
pub open spec fn int_decimal(v: int) -> Seq<char> {
    if v < 0 {
        seq!['-'] + nat_decimal((-v) as nat)
    } else {
        nat_decimal(v as nat)
    }
}

/// The number that a string of decimal digits denotes, most significant
/// first: each character counts as its distance from '0'.
pub open spec fn digits_value(s: Seq<char>) -> int
    decreases s.len(),
{
    if s.len() == 0 {
        0
    } else {
        digits_value(s.drop_last()) * 10 + (s.last() as int - '0' as int)
    }
}

proof fn lemma_digit_char_value(d: nat)
    requires
        d < 10,
    ensures
        digit_char(d) as int == d + '0' as int,
        '0' <= digit_char(d) <= '9',
{
    let b = (d + 48) as u8;
    assert(b == d + 48);
    assert((b as char) as int == b as int);
}

/// The decimal form of a natural number is made of the digits '0' to '9',
/// starts with '0' only when the number is zero, and denotes the number.
pub proof fn lemma_nat_decimal_reads_back(n: nat)
    ensures
        nat_decimal(n).len() >= 1,
        forall|i: int| 0 <= i < nat_decimal(n).len() ==> '0' <= #[trigger] nat_decimal(n)[i] <= '9',
        n > 0 ==> nat_decimal(n)[0] != '0',
        digits_value(nat_decimal(n)) == n,
    decreases n,
{
    if n >= 10 {
        lemma_nat_decimal_reads_back(n / 10);
        let d = nat_decimal(n);
        let front = nat_decimal(n / 10);
        assert(d.drop_last() =~= front);
        assert(d[0] == front[0]);
        assert forall|i: int| 0 <= i < d.len() implies '0' <= #[trigger] d[i] <= '9' by {
            if i < front.len() {
                assert(d[i] == front[i]);
            }
        }
        lemma_digit_char_value(n % 10);
        assert(d.last() == digit_char(n % 10));
        assert(n == (n / 10) * 10 + n % 10);
        assert(digits_value(d) == digits_value(d.drop_last()) * 10 + (d.last() as int - '0' as int));
        assert(digits_value(d) == digits_value(front) * 10 + (n % 10) as int);
    } else {
        lemma_digit_char_value(n);
        let d = nat_decimal(n);
        assert(d =~= seq![digit_char(n)]);
        assert(d.drop_last() =~= Seq::<char>::empty());
        assert(digits_value(d) == digits_value(d.drop_last()) * 10 + (d.last() as int - '0' as int));
    }
}

/// The decimal form of an integer is its magnitude's decimal form, after a
/// minus sign exactly when the integer is negative.
pub proof fn lemma_int_decimal_reads_back(v: int)
    ensures
        v < 0 ==> int_decimal(v)[0] == '-' && int_decimal(v).drop_first() == nat_decimal((-v) as nat)
            && digits_value(int_decimal(v).drop_first()) == -v,
        v >= 0 ==> int_decimal(v) == nat_decimal(v as nat) && digits_value(int_decimal(v)) == v,
{
    if v < 0 {
        lemma_nat_decimal_reads_back((-v) as nat);
        assert(int_decimal(v).drop_first() =~= nat_decimal((-v) as nat));
    } else {
        lemma_nat_decimal_reads_back(v as nat);
    }
}

/// Appends the decimal form of `v` to `out`.
pub fn push_decimal(out: &mut String, v: i32)
    requires
        old(out)@.len() < 0x1000_0000 - 13,
    ensures
        final(out)@ == old(out)@ + int_decimal(v as int),
        final(out)@.len() <= old(out)@.len() + 12,
{
    let ghost start = out@;
    let negative = v < 0;
    let magnitude: u32 = if negative {
        (0i64 - (v as i64)) as u32
    } else {
        v as u32
    };
    let ghost n = magnitude as nat;
    assert(n == if v < 0 { -v } else { v as int });
    let mut m: u32 = magnitude;
    let mut reversed: Vec<char> = Vec::new();
    let ghost mut acc: Seq<char> = Seq::empty();
    assert(pow10(0) == 1);
    while m >= 10
        invariant
            nat_decimal(n) == nat_decimal(m as nat) + acc,
            reversed@.len() == acc.len(),
            forall|i: int| 0 <= i < acc.len() ==> #[trigger] reversed@[i] == acc[acc.len() - 1 - i],
            acc.len() <= 10,
            m as nat * pow10(acc.len()) <= n,
            n <= u32::MAX,
        decreases m,
    {
        let d = m % 10;
        let c = ((d as u8) + 48) as char;
        assert(c == digit_char(d as nat));
        proof {
            let old_acc = acc;
            acc = seq![c] + acc;
            assert(nat_decimal(m as nat) == nat_decimal((m / 10) as nat) + seq![c]);
            assert(nat_decimal(n) =~= nat_decimal((m / 10) as nat) + acc);
            lemma_pow10_step(m as nat, old_acc.len(), n);
        }
        reversed.push(c);
        m = m / 10;
    }
    let c = ((m as u8) + 48) as char;
    assert(c == digit_char(m as nat));
    proof {
        acc = seq![c] + acc;
        assert(nat_decimal(n) =~= acc);
    }
    reversed.push(c);
    if negative {
        out.push('-');
    }
    let ghost prefix = out@;
    assert(prefix == if v < 0 { start + seq!['-'] } else { start });
    let total = reversed.len();
    let mut j: usize = total;
    while j > 0
        invariant
            j <= total,
            total == reversed@.len(),
            total == acc.len(),
            total <= 11,
            prefix.len() <= start.len() + 1,
            start.len() < 0x1000_0000 - 13,
            forall|i: int| 0 <= i < acc.len() ==> #[trigger] reversed@[i] == acc[acc.len() - 1 - i],
            out@ == prefix + acc.take(total - j),
        decreases j,
    {
        let c = reversed[j - 1];
        out.push(c);
        assert(acc.take(total - j + 1) =~= acc.take(total - j).push(c));
        j = j - 1;
    }
    assert(acc.take(total as int) =~= acc);
    assert(out@ =~= start + int_decimal(v as int));
}

/// Ten to the power `k`.
pub open spec fn pow10(k: nat) -> nat
    decreases k,
{
    if k == 0 {
        1
    } else {
        10 * pow10((k - 1) as nat)
    }
}

proof fn lemma_pow10_step(m: nat, k: nat, n: nat)
    requires
        m * pow10(k) <= n,
        n <= u32::MAX,
        m >= 1 || k == 0,
    ensures
        k <= 9,
        (m / 10) * pow10(k + 1) <= n,
{
    lemma_pow10_grows(k);
    if k >= 10 {
        lemma_pow10_mono(10, k);
        assert(m * pow10(k) >= pow10(k)) by (nonlinear_arith)
            requires
                m >= 1,
        ;
        reveal_with_fuel(pow10, 11);
        assert(pow10(10) == 10_000_000_000nat);
    }
    assert((m / 10) * (10 * pow10(k)) <= m * pow10(k)) by (nonlinear_arith)
        requires
            pow10(k) >= 1,
    ;
}

proof fn lemma_pow10_grows(k: nat)
    ensures
        pow10(k) >= 1,
    decreases k,
{
    if k > 0 {
        lemma_pow10_grows((k - 1) as nat);
    }
}

proof fn lemma_pow10_mono(a: nat, b: nat)
    requires
        a <= b,
    ensures
        pow10(a) <= pow10(b),
    decreases b,
{
    if b > a {
        lemma_pow10_mono(a, (b - 1) as nat);
        lemma_pow10_grows((b - 1) as nat);
    }
}

} // verus!
