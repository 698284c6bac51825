//! Text that the library renders: decimal and hexadecimal numbers.

use vstd::prelude::*;
use vstd::string::*;

verus! {

/// The character of a digit below 16, in lower case.
pub open spec fn digit_char(d: int) -> char {
    if d == 0 { '0' }
    else if d == 1 { '1' }
    else if d == 2 { '2' }
    else if d == 3 { '3' }
    else if d == 4 { '4' }
    else if d == 5 { '5' }
    else if d == 6 { '6' }
    else if d == 7 { '7' }
    else if d == 8 { '8' }
    else if d == 9 { '9' }
    else if d == 10 { 'a' }
    else if d == 11 { 'b' }
    else if d == 12 { 'c' }
    else if d == 13 { 'd' }
    else if d == 14 { 'e' }
    else { 'f' }
}

/// `n` in base ten, without leading zeros.
pub open spec fn decimal(n: nat) -> Seq<char>
    decreases n,
{
    if n < 10 {
        seq![digit_char(n as int)]
    } else {
        decimal(n / 10).push(digit_char((n % 10) as int))
    }
}

/// `n` in base ten, with a minus sign when negative.
pub open spec fn signed_decimal(n: int) -> Seq<char> {
    if n < 0 {
        seq!['-'] + decimal((-n) as nat)
    } else {
        decimal(n as nat)
    }
}

/// A byte as two lower-case hexadecimal digits.
pub open spec fn hex2(n: u8) -> Seq<char> {
    seq![digit_char(n as int / 16), digit_char(n as int % 16)]
}

/// A 32-bit value as eight lower-case hexadecimal digits.
pub open spec fn hex8(n: u32) -> Seq<char> {
    hex2((n / 16777216) as u8) + hex2((n / 65536 % 256) as u8) + hex2((n / 256 % 256) as u8) + hex2((n % 256) as u8)
}

/// `n` in base ten, padded on the left with zeros to at least `width` characters.
pub open spec fn padded_decimal(n: nat, width: nat) -> Seq<char> {
    let d = decimal(n);
    if d.len() < width {
        Seq::new((width - d.len()) as nat, |i: int| '0') + d
    } else {
        d
    }
}

/// The digit as a one-character string.
fn digit_str(d: u8) -> (r: &'static str)
    requires
        d < 16,
    ensures
        r@ == seq![digit_char(d as int)],
{
    proof {
        reveal_strlit("0"); reveal_strlit("1"); reveal_strlit("2"); reveal_strlit("3");
        reveal_strlit("4"); reveal_strlit("5"); reveal_strlit("6"); reveal_strlit("7");
        reveal_strlit("8"); reveal_strlit("9"); reveal_strlit("a"); reveal_strlit("b");
        reveal_strlit("c"); reveal_strlit("d"); reveal_strlit("e"); reveal_strlit("f");
    }
    match d {
        0 => "0",
        1 => "1",
        2 => "2",
        3 => "3",
        4 => "4",
        5 => "5",
        6 => "6",
        7 => "7",
        8 => "8",
        9 => "9",
        10 => "a",
        11 => "b",
        12 => "c",
        13 => "d",
        14 => "e",
        _ => "f",
    }
}

/// Appends `n` in base ten.
pub fn push_decimal(out: &mut String, n: u64)
    ensures
        final(out)@ == old(out)@ + decimal(n as nat),
    decreases n,
{
    if n >= 10 {
        push_decimal(out, n / 10);
    }
    let ghost before = out@;
    let d: u8 = (n % 10) as u8;
    out.append(digit_str(d));
    proof {
        assert(before + seq![digit_char(d as int)] =~= before.push(digit_char(d as int)));
        if n < 10 {
            assert(old(out)@ + decimal(n as nat) =~= before + seq![digit_char(d as int)]);
        } else {
            assert(old(out)@ + decimal(n as nat) =~= (old(out)@ + decimal((n / 10) as nat)).push(digit_char(d as int)));
        }
    }
}

/// Appends `n` in base ten, with a minus sign when negative.
pub fn push_signed(out: &mut String, n: i32)
    ensures
        final(out)@ == old(out)@ + signed_decimal(n as int),
{
    if n < 0 {
        proof {
            reveal_strlit("-");
        }
        out.append("-");
        let m: u64 = (-(n as i64)) as u64;
        push_decimal(out, m);
        assert(old(out)@ + signed_decimal(n as int) =~= (old(out)@ + seq!['-']) + decimal(m as nat));
        assert("-"@ =~= seq!['-']);
    } else {
        push_decimal(out, n as u64);
    }
}

/// Appends a byte as two hexadecimal digits.
pub fn push_hex2(out: &mut String, n: u8)
    ensures
        final(out)@ == old(out)@ + hex2(n),
{
    out.append(digit_str(n / 16));
    out.append(digit_str(n % 16));
    assert(final(out)@ =~= old(out)@ + hex2(n));
}

/// Appends a 32-bit value as eight hexadecimal digits.
pub fn push_hex8(out: &mut String, n: u32)
    ensures
        final(out)@ == old(out)@ + hex8(n),
{
    push_hex2(out, (n / 16777216) as u8);
    push_hex2(out, (n / 65536 % 256) as u8);
    push_hex2(out, (n / 256 % 256) as u8);
    push_hex2(out, (n % 256) as u8);
    assert(final(out)@ =~= old(out)@ + hex8(n));
}

/// Appends a number below 1000 as three decimal digits.
pub fn push_decimal3(out: &mut String, n: u8)
    ensures
        final(out)@ == old(out)@ + padded_decimal(n as nat, 3),
{
    let ghost start = out@;
    proof {
        reveal_strlit("0");
        reveal_with_fuel(decimal, 4);
        assert("0"@ =~= seq!['0']);
    }
    if n < 100 {
        out.append("0");
    }
    if n < 10 {
        out.append("0");
    }
    push_decimal(out, n as u64);
    assert(final(out)@ =~= start + padded_decimal(n as nat, 3));
}

// ----- white space ----------------------------------------------------------

/// Whether a character is white space, as Unicode's White_Space property has
/// it.
pub open spec fn is_white_space(c: char) -> bool {
    let v = c as u32;
    ||| 0x9 <= v <= 0xd
    ||| v == 0x20
    ||| v == 0x85
    ||| v == 0xa0
    ||| v == 0x1680
    ||| 0x2000 <= v <= 0x200a
    ||| v == 0x2028
    ||| v == 0x2029
    ||| v == 0x202f
    ||| v == 0x205f
    ||| v == 0x3000
}

/// Whether a character is white space (Unicode's White_Space property).
pub fn white_space(c: char) -> (r: bool)
    ensures
        r == is_white_space(c),
{
    let v: u32 = c as u32;
    (v >= 0x9 && v <= 0xd) || v == 0x20 || v == 0x85 || v == 0xa0 || v == 0x1680 || (v >= 0x2000 && v <= 0x200a) || v
        == 0x2028 || v == 0x2029 || v == 0x202f || v == 0x205f || v == 0x3000
}

/// Text without the white space before it.
pub open spec fn strip_start(s: Seq<char>) -> Seq<char>
    decreases s.len(),
{
    if s.len() > 0 && is_white_space(s[0]) {
        strip_start(s.skip(1))
    } else {
        s
    }
}

/// Text without the white space after it.
pub open spec fn strip_end(s: Seq<char>) -> Seq<char>
    decreases s.len(),
{
    if s.len() > 0 && is_white_space(s.last()) {
        strip_end(s.drop_last())
    } else {
        s
    }
}

/// Text without the white space around it.
pub open spec fn stripped(s: Seq<char>) -> Seq<char> {
    strip_end(strip_start(s))
}

/// Removes the white space around a text.
pub fn strip(s: &str) -> (r: String)
    ensures
        r@ == stripped(s@),
{
    let n: usize = s.unicode_len();
    let mut from: usize = 0;
    assert(s@.skip(0) =~= s@);
    while from < n && white_space(s.get_char(from))
        invariant
            from <= n,
            n == s@.len(),
            strip_start(s@) == strip_start(s@.skip(from as int)),
        decreases n - from,
    {
        assert(s@.skip(from as int)[0] == s@[from as int]);
        assert(s@.skip(from as int).skip(1) =~= s@.skip(from + 1));
        from += 1;
    }
    assert(strip_start(s@) =~= s@.skip(from as int)) by {
        if from < n {
            assert(s@.skip(from as int)[0] == s@[from as int]);
        }
    }
    let mut to: usize = n;
    assert(s@.subrange(from as int, n as int) =~= s@.skip(from as int));
    while to > from && white_space(s.get_char(to - 1))
        invariant
            from <= to <= n,
            n == s@.len(),
            strip_end(s@.skip(from as int)) == strip_end(s@.subrange(from as int, to as int)),
        decreases to,
    {
        let ghost t = s@.subrange(from as int, to as int);
        assert(t.last() == s@[to - 1]);
        assert(t.drop_last() =~= s@.subrange(from as int, to - 1));
        to -= 1;
    }
    proof {
        let t = s@.subrange(from as int, to as int);
        if to > from {
            assert(t.last() == s@[to - 1]);
        }
    }
    String::from_str(s.substring_char(from, to))
}

/// Whether two strings are the same, character for character.
pub fn same(a: &str, b: &str) -> (r: bool)
    ensures
        r == (a@ == b@),
{
    let n: usize = a.unicode_len();
    if n != b.unicode_len() {
        return false;
    }
    let mut i: usize = 0;
    while i < n
        invariant
            i <= n,
            n == a@.len(),
            n == b@.len(),
            forall|k: int| 0 <= k < i ==> a@[k] == b@[k],
        decreases n - i,
    {
        if a.get_char(i) != b.get_char(i) {
            return false;
        }
        i += 1;
    }
    assert(a@ =~= b@);
    true
}

/// A number in decimal digits: a digit stands for itself, and one more digit at
/// the end makes ten times the number plus the digit.
pub proof fn lemma_decimal_digits(n: nat, d: nat)
    requires
        d < 10,
    ensures
        decimal(d) == seq![('0' as u32 + d) as char],
        n > 0 ==> decimal(10 * n + d) == decimal(n).push(('0' as u32 + d) as char),
        signed_decimal(n as int) == decimal(n),
        n > 0 ==> signed_decimal(-(n as int)) == seq!['-'] + decimal(n),
{
    if n > 0 {
        assert((10 * n + d) / 10 == n);
        assert((10 * n + d) % 10 == d);
    }
}

/// A byte in two hexadecimal digits, the high one first, in lower case.
pub proof fn lemma_hex_digits(high: int, low: int)
    requires
        0 <= high < 16,
        0 <= low < 16,
    ensures
        ({
            let h = hex2((16 * high + low) as u8);
            &&& h.len() == 2
            &&& high < 10 ==> h[0] as u32 == '0' as u32 + high
            &&& high >= 10 ==> h[0] as u32 == 'a' as u32 + high - 10
            &&& low < 10 ==> h[1] as u32 == '0' as u32 + low
            &&& low >= 10 ==> h[1] as u32 == 'a' as u32 + low - 10
        }),
{
}

/// Shorter numbers are filled up with zeros in front.
pub proof fn lemma_padded(n: nat, width: nat)
    ensures
        decimal(n).len() >= width ==> padded_decimal(n, width) == decimal(n),
        decimal(n).len() < width ==> padded_decimal(n, width).len() == width && padded_decimal(n, width).skip(
            width - decimal(n).len(),
        ) == decimal(n) && forall|i: int|
            0 <= i < width - decimal(n).len() ==> #[trigger] padded_decimal(n, width)[i] == '0',
{
    if decimal(n).len() < width {
        assert(padded_decimal(n, width).skip(width - decimal(n).len()) =~= decimal(n));
    }
}

/// White space is taken off both ends of a text, and nothing else.
pub proof fn lemma_stripped(before: Seq<char>, s: Seq<char>, after: Seq<char>)
    requires
        forall|i: int| 0 <= i < before.len() ==> #[trigger] before[i] == ' ' || before[i] == '\n' || before[i] == '\t',
        forall|i: int| 0 <= i < after.len() ==> #[trigger] after[i] == ' ' || after[i] == '\n' || after[i] == '\t',
        s.len() > 0,
        '!' <= s[0] <= '~',
        '!' <= s.last() <= '~',
    ensures
        stripped(before + s + after) == s,
{
    lemma_strips_start(before, s + after);
    assert(before + s + after =~= before + (s + after));
    lemma_strips_end(s, after);
}

proof fn lemma_strips_start(before: Seq<char>, s: Seq<char>)
    requires
        forall|i: int| 0 <= i < before.len() ==> #[trigger] before[i] == ' ' || before[i] == '\n' || before[i] == '\t',
        s.len() > 0,
        '!' <= s[0] <= '~',
    ensures
        strip_start(before + s) == s,
    decreases before.len(),
{
    if before.len() == 0 {
        assert(before + s =~= s);
    } else {
        let w = before.skip(1);
        assert((before + s)[0] == before[0]);
        assert((before + s).skip(1) =~= w + s);
        assert forall|i: int| 0 <= i < w.len() implies #[trigger] w[i] == ' ' || w[i] == '\n' || w[i] == '\t' by {
            assert(w[i] == before[i + 1]);
        }
        lemma_strips_start(w, s);
    }
}

proof fn lemma_strips_end(s: Seq<char>, after: Seq<char>)
    requires
        forall|i: int| 0 <= i < after.len() ==> #[trigger] after[i] == ' ' || after[i] == '\n' || after[i] == '\t',
        s.len() > 0,
        '!' <= s.last() <= '~',
    ensures
        strip_end(s + after) == s,
    decreases after.len(),
{
    if after.len() == 0 {
        assert(s + after =~= s);
    } else {
        assert((s + after).last() == after[after.len() - 1]);
        assert((s + after).drop_last() =~= s + after.drop_last());
        lemma_strips_end(s, after.drop_last());
    }
}

proof fn lemma_number_parts(a: int, b: int, c: int, d: int)
    requires
        0 <= a < 256,
        0 <= b < 256,
        0 <= c < 256,
        0 <= d < 256,
    ensures
        ({
            let n = 0x100_0000 * a + 0x1_0000 * b + 0x100 * c + d;
            &&& 0 <= n <= 0xffff_ffff
            &&& n / 16777216 == a
            &&& n / 65536 % 256 == b
            &&& n / 256 % 256 == c
            &&& n % 256 == d
        }),
{
    let n = 0x100_0000 * a + 0x1_0000 * b + 0x100 * c + d;
    assert(n / 16777216 == a);
    assert(n / 65536 == 256 * a + b);
    assert((256 * a + b) % 256 == b);
    assert(n / 256 == 65536 * a + 256 * b + c);
    assert((65536 * a + 256 * b + c) % 256 == c);
    assert(n % 256 == d);
}

/// A number of 32 bits in eight hexadecimal digits, the highest byte first.
pub proof fn lemma_hex8(a: u8, b: u8, c: u8, d: u8)
    ensures
        hex8((0x100_0000 * a + 0x1_0000 * b + 0x100 * c + d) as u32) == hex2(a) + hex2(b) + hex2(c) + hex2(d),
{
    let n = (0x100_0000 * a + 0x1_0000 * b + 0x100 * c + d) as u32;
    lemma_number_parts(a as int, b as int, c as int, d as int);
    assert((n / 16777216) as u8 == a);
    assert((n / 65536 % 256) as u8 == b);
    assert((n / 256 % 256) as u8 == c);
    assert((n % 256) as u8 == d);
}

} // verus!
