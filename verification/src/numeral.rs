//! Numbers as text.

use vstd::prelude::*;

verus! {

/// The digit for a number below sixteen.
pub open spec fn digit(d: int) -> char {
    "0123456789abcdef"@[d]
}

/// A number in base ten, without leading zeros.
pub open spec fn decimal(n: nat) -> Seq<char>
    decreases n,
{
    if n < 10 {
        seq![digit(n as int)]
    } else {
        decimal(n / 10).push(digit(n as int % 10))
    }
}

/// The two lowest digits of a number in base ten.
pub open spec fn two_digits(n: nat) -> Seq<char> {
    seq![digit((n as int / 10) % 10), digit(n as int % 10)]
}

/// Bytes in base sixteen, two digits to the byte.
pub open spec fn hex(bytes: Seq<u8>) -> Seq<char>
    decreases bytes.len(),
{
    if bytes.len() == 0 {
        Seq::empty()
    } else {
        hex(bytes.drop_last()) + seq![
            digit(bytes.last() as int / 16),
            digit(bytes.last() as int % 16),
        ]
    }
}

fn push_digit(out: &mut String, d: usize)
    requires
        d < 16,
    ensures
        final(out)@ == old(out)@.push(digit(d as int)),
{
    proof {
        reveal_strlit("0123456789abcdef");
    }
    let digits = "0123456789abcdef";
    let ghost before = out@;
    out.append(digits.substring_ascii(d, d + 1));
    assert(out@ =~= before.push(digit(d as int)));
}

/// Appends a number in base ten.
pub fn push_decimal(out: &mut String, n: u64)
    ensures
        final(out)@ == old(out)@ + decimal(n as nat),
    decreases n,
{
    let ghost before = out@;
    if n >= 10 {
        push_decimal(out, n / 10);
    }
    push_digit(out, (n % 10) as usize);
    assert(out@ =~= before + decimal(n as nat));
}

/// Appends the two lowest digits of a number in base ten.
pub fn push_two_digits(out: &mut String, n: u64)
    ensures
        final(out)@ == old(out)@ + two_digits(n as nat),
{
    let ghost before = out@;
    push_digit(out, ((n / 10) % 10) as usize);
    push_digit(out, (n % 10) as usize);
    assert(out@ =~= before + two_digits(n as nat));
}

/// Writes a message id in base sixteen. The whole is what tells messages
/// apart; the first six digits are what users see.
pub fn hexid(bytes: &[u8]) -> (r: String)
    ensures
        r@ == hex(bytes@),
        r@.len() == 2 * bytes@.len(),
{
    let mut out = String::new();
    let mut i: usize = 0;
    assert(bytes@.take(0) =~= Seq::<u8>::empty());
    while i < bytes.len()
        invariant
            i <= bytes@.len(),
            out@ == hex(bytes@.take(i as int)),
        decreases bytes@.len() - i,
    {
        assert(bytes@.take(i + 1).drop_last() =~= bytes@.take(i as int));
        push_digit(&mut out, (bytes[i] / 16) as usize);
        push_digit(&mut out, (bytes[i] % 16) as usize);
        assert(out@ =~= hex(bytes@.take(i + 1)));
        i = i + 1;
    }
    assert(bytes@.take(i as int) =~= bytes@);
    proof {
        lemma_hex_len(bytes@);
    }
    out
}

pub proof fn lemma_hex_len(bytes: Seq<u8>)
    ensures
        hex(bytes).len() == 2 * bytes.len(),
    decreases bytes.len(),
{
    if bytes.len() > 0 {
        lemma_hex_len(bytes.drop_last());
    }
}

pub proof fn lemma_hex_ascii(bytes: Seq<u8>)
    ensures
        vstd::utf8::is_ascii_chars(hex(bytes)),
    decreases bytes.len(),
{
    if bytes.len() > 0 {
        lemma_hex_ascii(bytes.drop_last());
        reveal_strlit("0123456789abcdef");
    }
}

proof fn lemma_digit_injective(d: int, e: int)
    requires
        0 <= d < 16,
        0 <= e < 16,
        digit(d) == digit(e),
    ensures
        d == e,
{
    reveal_strlit("0123456789abcdef");
}

/// Two message ids that are written alike are the same id.
pub proof fn law_hex_injective(a: Seq<u8>, b: Seq<u8>)
    requires
        hex(a) == hex(b),
    ensures
        a == b,
    decreases a.len(),
{
    lemma_hex_len(a);
    lemma_hex_len(b);
    if a.len() > 0 {
        let ha = hex(a);
        let hb = hex(b);
        let n = ha.len() as int;
        assert(ha.take(n - 2) =~= hex(a.drop_last()));
        assert(hb.take(n - 2) =~= hex(b.drop_last()));
        law_hex_injective(a.drop_last(), b.drop_last());
        assert(ha[n - 2] == digit(a.last() as int / 16));
        assert(hb[n - 2] == digit(b.last() as int / 16));
        assert(ha[n - 1] == digit(a.last() as int % 16));
        assert(hb[n - 1] == digit(b.last() as int % 16));
        lemma_digit_injective(a.last() as int / 16, b.last() as int / 16);
        lemma_digit_injective(a.last() as int % 16, b.last() as int % 16);
        assert(a =~= a.drop_last().push(a.last()));
        assert(b =~= b.drop_last().push(b.last()));
    } else {
        assert(a =~= b);
    }
}

/// Whether every character is a digit of base ten.
pub open spec fn all_digits(s: Seq<char>) -> bool {
    forall|i: int| 0 <= i < s.len() ==> '0' <= #[trigger] s[i] <= '9'
}

/// Ten to the power of `n`.
pub open spec fn ten_to(n: nat) -> nat
    decreases n,
{
    if n == 0 {
        1
    } else {
        10 * ten_to((n - 1) as nat)
    }
}

/// The number that digits of base ten write: each digit counts for its place.
pub open spec fn numeral_value(s: Seq<char>) -> int
    decreases s.len(),
{
    if s.len() == 0 {
        0
    } else {
        (s.first() as int - '0' as int) * ten_to((s.len() - 1) as nat) + numeral_value(
            s.drop_first(),
        )
    }
}

/// One more digit multiplies what stands before it by ten.
pub proof fn lemma_numeral_value_push(s: Seq<char>, c: char)
    ensures
        numeral_value(s.push(c)) == 10 * numeral_value(s) + (c as int - '0' as int),
    decreases s.len(),
{
    let t = s.push(c);
    if s.len() == 0 {
        assert(t.drop_first() =~= Seq::empty());
        reveal_with_fuel(numeral_value, 2);
        reveal_with_fuel(ten_to, 2);
    } else {
        let rest = s.drop_first();
        let d = s.first() as int - '0' as int;
        let k = ten_to((s.len() - 1) as nat) as int;
        assert(t.drop_first() =~= rest.push(c));
        lemma_numeral_value_push(rest, c);
        assert(ten_to(s.len()) == 10 * k);
        assert(d * (10 * k) == 10 * (d * k)) by (nonlinear_arith);
    }
}

proof fn lemma_digit(d: int)
    requires
        0 <= d < 10,
    ensures
        digit(d) as int == '0' as int + d,
{
    reveal_strlit("0123456789abcdef");
}

/// A number in base ten reads back as the number: it is made of digits, and
/// does not begin with a zero unless it is zero.
pub proof fn law_decimal_reads_back(n: nat)
    ensures
        all_digits(decimal(n)),
        numeral_value(decimal(n)) == n,
        decimal(n).len() > 0,
        decimal(n).first() == '0' ==> n == 0 && decimal(n).len() == 1,
    decreases n,
{
    lemma_digit(n as int % 10);
    if n < 10 {
        lemma_numeral_value_push(Seq::empty(), digit(n as int));
        assert(decimal(n) =~= Seq::<char>::empty().push(digit(n as int)));
    } else {
        law_decimal_reads_back(n / 10);
        lemma_numeral_value_push(decimal(n / 10), digit(n as int % 10));
        assert(decimal(n).first() == decimal(n / 10).first());
    }
}

/// Two digits read back as what a number leaves over a hundred: as the number
/// itself, if it has no more than two.
pub proof fn law_two_digits_read_back(n: nat)
    ensures
        two_digits(n).len() == 2,
        all_digits(two_digits(n)),
        numeral_value(two_digits(n)) == n % 100,
{
    lemma_digit((n as int / 10) % 10);
    lemma_digit(n as int % 10);
    let a = digit((n as int / 10) % 10);
    let b = digit(n as int % 10);
    lemma_numeral_value_push(Seq::empty(), a);
    lemma_numeral_value_push(Seq::empty().push(a), b);
    assert(two_digits(n) =~= Seq::<char>::empty().push(a).push(b));
}

/// Numerals that differ in value differ.
pub proof fn law_decimal_injective(m: nat, n: nat)
    requires
        decimal(m) == decimal(n),
    ensures
        m == n,
{
    law_decimal_reads_back(m);
    law_decimal_reads_back(n);
}

/// The number that a digit of base sixteen writes, in lower case.
pub open spec fn hex_value(c: char) -> int {
    if '0' <= c <= '9' {
        c as int - '0' as int
    } else if 'a' <= c <= 'f' {
        c as int - 'a' as int + 10
    } else {
        -1
    }
}

proof fn lemma_hex_value(d: int)
    requires
        0 <= d < 16,
    ensures
        hex_value(digit(d)) == d,
{
    reveal_strlit("0123456789abcdef");
}

/// A message id in base sixteen reads back byte by byte: two digits to the
/// byte, the high one first, none left out.
pub proof fn law_hex_reads_back(bytes: Seq<u8>, i: int)
    requires
        0 <= i < bytes.len(),
    ensures
        hex(bytes).len() == 2 * bytes.len(),
        0 <= hex_value(hex(bytes)[2 * i]) < 16,
        0 <= hex_value(hex(bytes)[2 * i + 1]) < 16,
        bytes[i] == 16 * hex_value(hex(bytes)[2 * i]) + hex_value(hex(bytes)[2 * i + 1]),
    decreases bytes.len(),
{
    let front = bytes.drop_last();
    let last = bytes.last() as int;
    lemma_hex_len(bytes);
    lemma_hex_len(front);
    if i < front.len() {
        law_hex_reads_back(front, i);
        assert(hex(bytes)[2 * i] == hex(front)[2 * i]);
        assert(hex(bytes)[2 * i + 1] == hex(front)[2 * i + 1]);
    } else {
        lemma_hex_value(last / 16);
        lemma_hex_value(last % 16);
        assert(hex(bytes)[2 * i] == digit(last / 16));
        assert(hex(bytes)[2 * i + 1] == digit(last % 16));
    }
}

/// What `hexid` gives back reads back byte by byte.
pub proof fn law_hexid(bytes: &[u8], r: String, i: int)
    requires
        call_ensures(hexid, (bytes,), r),
        0 <= i < bytes@.len(),
    ensures
        r@.len() == 2 * bytes@.len(),
        0 <= hex_value(r@[2 * i]) < 16,
        0 <= hex_value(r@[2 * i + 1]) < 16,
        bytes@[i] == 16 * hex_value(r@[2 * i]) + hex_value(r@[2 * i + 1]),
{
    law_hex_reads_back(bytes@, i);
}

} // verus!
