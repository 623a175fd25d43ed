//! Numbers written as text.
use vstd::prelude::*;
use vstd::string::*;

verus! {

/// The digit for `d` in a base of up to sixteen.
pub open spec fn digit_char(d: int) -> char {
    if d < 10 {
        (48 + d) as char
    } else {
        (87 + d) as char
    }
}

/// `n` in the base `base`, without leading zeros.
pub open spec fn numeral(n: int, base: int) -> Seq<char>
    decreases n,
{
    if base < 2 || n < base {
        seq![digit_char(n)]
    } else {
        proof {
            vstd::arithmetic::div_mod::lemma_div_decreases(n, base);
        }
        numeral(n / base, base).push(digit_char(n % base))
    }
}

/// `n` as a decimal number.
pub open spec fn decimal(n: int) -> Seq<char> {
    numeral(n, 10)
}

/// `s` with zeros in front up to the length `width`.
pub open spec fn zero_padded(s: Seq<char>, width: int) -> Seq<char>
    decreases width - s.len(),
{
    if s.len() >= width {
        s
    } else {
        zero_padded(seq!['0'] + s, width)
    }
}

fn digit(d: u8) -> (r: char)
    requires
        d < 16,
    ensures
        r == digit_char(d as int),
{
    if d < 10 {
        (48 + d) as char
    } else {
        (87 + d) as char
    }
}

/// `n` in the base `base`.
fn write_numeral(n: u128, base: u128) -> (r: String)
    requires
        2 <= base <= 16,
    ensures
        r@ == numeral(n as int, base as int),
    decreases n,
{
    let mut out: String = if n < base {
        String::new()
    } else {
        proof {
            vstd::arithmetic::div_mod::lemma_div_decreases(n as int, base as int);
        }
        write_numeral(n / base, base)
    };
    out.push(digit((n % base) as u8));
    proof {
        if n < base {
            vstd::arithmetic::div_mod::lemma_small_mod(n as nat, base as nat);
            assert(out@ =~= numeral(n as int, base as int));
        }
    }
    out
}

/// `n` as a decimal number.
pub fn to_decimal(n: u128) -> (r: String)
    ensures
        r@ == decimal(n as int),
{
    write_numeral(n, 10)
}

/// `n` as a hexadecimal number.
pub fn to_hex(n: u128) -> (r: String)
    ensures
        r@ == numeral(n as int, 16),
{
    write_numeral(n, 16)
}

/// `s` with zeros in front up to the length `width`.
pub fn pad_zeros(s: String, width: usize) -> (r: String)
    ensures
        r@ == zero_padded(s@, width as int),
{
    let mut out: String = s;
    let mut size: usize = out.as_str().unicode_len();
    while size < width
        invariant
            size == out@.len(),
            zero_padded(s@, width as int) == zero_padded(out@, width as int),
        decreases width - size,
    {
        let mut longer: String = String::new();
        longer.push('0');
        longer.append(out.as_str());
        assert(longer@ =~= seq!['0'] + out@);
        out = longer;
        size += 1;
    }
    out
}

proof fn lemma_digit_differs(a: int, b: int)
    requires
        0 <= a < 16,
        0 <= b < 16,
        digit_char(a) == digit_char(b),
    ensures
        a == b,
{
}

proof fn lemma_numeral_size(n: int, base: int)
    requires
        2 <= base,
        0 <= n,
    ensures
        numeral(n, base).len() >= 1,
        n >= base ==> numeral(n, base).len() >= 2,
    decreases n,
{
    if n >= base {
        vstd::arithmetic::div_mod::lemma_div_decreases(n, base);
        vstd::arithmetic::div_mod::lemma_div_pos_is_pos(n, base);
        lemma_numeral_size(n / base, base);
    }
}

/// Different numbers are written differently.
pub proof fn law_numerals_differ(a: int, b: int, base: int)
    requires
        2 <= base <= 16,
        0 <= a,
        0 <= b,
        numeral(a, base) == numeral(b, base),
    ensures
        a == b,
    decreases a,
{
    lemma_numeral_size(a, base);
    lemma_numeral_size(b, base);
    let left = numeral(a, base);
    let right = numeral(b, base);
    if a < base {
        assert(left.len() == 1);
        assert(left[0] == right[0]);
        lemma_digit_differs(a, b);
    } else {
        assert(b >= base);
        vstd::arithmetic::div_mod::lemma_div_decreases(a, base);
        vstd::arithmetic::div_mod::lemma_div_pos_is_pos(a, base);
        vstd::arithmetic::div_mod::lemma_div_pos_is_pos(b, base);
        vstd::arithmetic::div_mod::lemma_mod_bound(a, base);
        vstd::arithmetic::div_mod::lemma_mod_bound(b, base);
        assert(left.last() == right.last());
        lemma_digit_differs(a % base, b % base);
        assert(left.drop_last() =~= numeral(a / base, base));
        assert(right.drop_last() =~= numeral(b / base, base));
        law_numerals_differ(a / base, b / base, base);
        vstd::arithmetic::div_mod::lemma_fundamental_div_mod(a, base);
        vstd::arithmetic::div_mod::lemma_fundamental_div_mod(b, base);
    }
}

/// The digits are 0 to 9 and then the letters from `a` on; a number below the base is its
/// digit, and any other is the number without its last digit, followed by that.
pub proof fn law_numeral(n: int, d: int, base: int)
    requires
        2 <= base <= 16,
        0 <= d < base,
        0 <= n,
    ensures
        numeral(d, base).len() == 1,
        d < 10 ==> numeral(d, base)[0] as int == '0' as int + d,
        10 <= d ==> numeral(d, base)[0] as int == 'a' as int + d - 10,
        n > 0 ==> numeral(n * base + d, base) == numeral(n, base) + numeral(d, base),
{
    if n > 0 {
        let all = n * base + d;
        assert(all >= base) by (nonlinear_arith)
            requires
                all == n * base + d,
                n > 0,
                d >= 0,
                base >= 2,
        ;
        vstd::arithmetic::div_mod::lemma_fundamental_div_mod_converse(all, base, n, d);
        assert(numeral(n, base).push(digit_char(d)) =~= numeral(n, base) + numeral(d, base));
    }
}

/// A text is padded with zeros in front, up to the width, and keeps what it is.
pub proof fn law_zero_padded(s: Seq<char>, width: int)
    ensures
        s.len() >= width ==> zero_padded(s, width) == s,
        s.len() < width ==> {
            &&& zero_padded(s, width).len() == width
            &&& zero_padded(s, width).skip(width - s.len()) == s
            &&& forall|i: int|
                0 <= i < width - s.len() ==> #[trigger] zero_padded(s, width)[i] == '0'
        },
    decreases width - s.len(),
{
    if s.len() < width {
        let more = seq!['0'] + s;
        law_zero_padded(more, width);
        let out = zero_padded(more, width);
        assert(more.len() == s.len() + 1);
        if more.len() < width {
            let from = width - more.len();
            assert(out.skip(from) == more);
            assert(out[from] == out.skip(from)[0]);
            assert(out.skip(from + 1) =~= more.skip(1));
        }
        assert(more.skip(1) =~= s);
    }
}

} // verus!
