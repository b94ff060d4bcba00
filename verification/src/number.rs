//! Numbers in the track text: unsigned decimal integers (the flag field),
//! fixed-point texts of binary64 values, and the equality of binary64 values
//! given by their bit patterns.

use vstd::prelude::*;

verus! {

/// Whether `c` is an ASCII decimal digit.
pub open spec fn is_digit(c: char) -> bool {
    '0' <= c && c <= '9'
}

/// Whether every character of `s` is an ASCII decimal digit.
pub open spec fn all_digits(s: Seq<char>) -> bool {
    forall|i: int| 0 <= i < s.len() ==> #[trigger] is_digit(s[i])
}

/// The value of the digit `c`.
pub open spec fn digit_value(c: char) -> nat {
    (c as int - '0' as int) as nat
}

/// The value of the decimal digit string `s` (0 for the empty string).
pub open spec fn digits_value(s: Seq<char>) -> nat
    decreases s.len(),
{
    if s.len() == 0 {
        0
    } else {
        digits_value(s.drop_last()) * 10 + digit_value(s.last())
    }
}

/// `s` without one leading `'+'`.
pub open spec fn unsigned_digits(s: Seq<char>) -> Seq<char> {
    if s.len() > 0 && s[0] == '+' {
        s.drop_first()
    } else {
        s
    }
}

/// How `u32` reads a decimal string: an optional `'+'`, then one or more
/// ASCII digits whose value fits in 32 bits; anything else is an error.
pub open spec fn spec_parse_u32(s: Seq<char>) -> Option<u32> {
    let d = unsigned_digits(s);
    if d.len() > 0 && all_digits(d) && digits_value(d) <= u32::MAX {
        Some(digits_value(d) as u32)
    } else {
        None
    }
}

/// The character of the digit `d` (for `d < 10`).
pub open spec fn digit_char(d: nat) -> char {
    ('0' as nat + d) as char
}

/// The decimal text of `n`, without leading zeros.
pub open spec fn decimal(n: nat) -> Seq<char>
    decreases n,
{
    if n < 10 {
        seq![digit_char(n)]
    } else {
        decimal(n / 10).push(digit_char(n % 10))
    }
}

proof fn lemma_digits_value_prefix(s: Seq<char>, k: int)
    requires
        all_digits(s),
        0 <= k <= s.len(),
    ensures
        digits_value(s.take(k)) <= digits_value(s),
    decreases s.len(),
{
    if k < s.len() {
        assert(all_digits(s.drop_last()));
        assert(s.drop_last().take(k) =~= s.take(k));
        lemma_digits_value_prefix(s.drop_last(), k);
    } else {
        assert(s.take(k) =~= s);
    }
}

proof fn lemma_digit_char(k: nat)
    requires
        k < 10,
    ensures
        is_digit(digit_char(k)),
        digit_value(digit_char(k)) == k,
{
}

/// The decimal text of `n` is a digit string of value `n`.
pub proof fn lemma_decimal_digits(n: nat)
    ensures
        decimal(n).len() >= 1,
        all_digits(decimal(n)),
        digits_value(decimal(n)) == n,
    decreases n,
{
    if n < 10 {
        lemma_digit_char(n);
        assert(decimal(n).drop_last() =~= Seq::<char>::empty());
        assert(digits_value(decimal(n).drop_last()) == 0);
    } else {
        lemma_decimal_digits(n / 10);
        lemma_digit_char(n % 10);
        let d = decimal(n / 10);
        assert(decimal(n).drop_last() =~= d);
        assert((n / 10) * 10 + n % 10 == n) by (nonlinear_arith);
        assert(decimal(n).last() == digit_char(n % 10));
        assert forall|i: int| 0 <= i < decimal(n).len() implies #[trigger] is_digit(decimal(n)[i]) by {
            if i < d.len() {
                assert(decimal(n)[i] == d[i]);
            }
        }
    }
}

/// Reading the decimal text of a `u32` gives it back.
pub proof fn lemma_parse_decimal(n: u32)
    ensures
        spec_parse_u32(decimal(n as nat)) == Some(n),
{
    lemma_decimal_digits(n as nat);
    let d = decimal(n as nat);
    assert(is_digit(d[0]));
    assert(unsigned_digits(d) == d);
}

/// Reads `s` as a `u32` in decimal, as `u32`'s `FromStr` does.
pub fn parse_u32(s: &str) -> (r: Option<u32>)
    ensures
        r == spec_parse_u32(s@),
{
    let n = s.unicode_len();
    let mut start: usize = 0;
    if n > 0 && s.get_char(0) == '+' {
        start = 1;
    }
    let ghost d = unsigned_digits(s@);
    proof {
        assert(d =~= s@.skip(start as int));
    }
    if start == n {
        return None;
    }
    let mut value: u64 = 0;
    let mut i: usize = start;
    proof {
        assert(d.take(0) =~= Seq::<char>::empty());
    }
    while i < n
        invariant
            n == s@.len(),
            start <= i <= n,
            d == s@.skip(start as int),
            d == unsigned_digits(s@),
            all_digits(d.take(i - start)),
            value == digits_value(d.take(i - start)),
            value <= u32::MAX,
        decreases n - i,
    {
        let c = s.get_char(i);
        let ghost k = i - start;
        proof {
            assert(d[k] == c);
            assert(d.take(k + 1).drop_last() =~= d.take(k));
            assert(d.take(k + 1).last() == c);
        }
        if !('0' <= c && c <= '9') {
            proof {
                assert(!is_digit(d[k]));
                assert(!all_digits(d));
            }
            return None;
        }
        let digit = (c as u32) - ('0' as u32);
        value = value * 10 + digit as u64;
        proof {
            assert(digit_value(c) == digit);
            assert(value == digits_value(d.take(k + 1)));
            assert forall|j: int| 0 <= j < k + 1 implies #[trigger] is_digit(d.take(k + 1)[j]) by {
                if j < k {
                    assert(d.take(k + 1)[j] == d.take(k)[j]);
                }
            }
        }
        if value > 0xffff_ffffu64 {
            proof {
                if all_digits(d) {
                    lemma_digits_value_prefix(d, k + 1);
                }
            }
            return None;
        }
        i += 1;
    }
    proof {
        assert(d.take(n - start) =~= d);
    }
    Some(value as u32)
}

fn digit_text(d: u32) -> (t: &'static str)
    requires
        d < 10,
    ensures
        t@ == seq![digit_char(d as nat)],
{
    if d == 0 {
        proof { reveal_strlit("0"); }
        "0"
    } else if d == 1 {
        proof { reveal_strlit("1"); }
        "1"
    } else if d == 2 {
        proof { reveal_strlit("2"); }
        "2"
    } else if d == 3 {
        proof { reveal_strlit("3"); }
        "3"
    } else if d == 4 {
        proof { reveal_strlit("4"); }
        "4"
    } else if d == 5 {
        proof { reveal_strlit("5"); }
        "5"
    } else if d == 6 {
        proof { reveal_strlit("6"); }
        "6"
    } else if d == 7 {
        proof { reveal_strlit("7"); }
        "7"
    } else if d == 8 {
        proof { reveal_strlit("8"); }
        "8"
    } else {
        proof { reveal_strlit("9"); }
        "9"
    }
}

/// Appends the decimal text of `n` to `out`, as `u32`'s `Display` writes it.
pub fn push_decimal(out: &mut String, n: u32)
    ensures
        final(out)@ == old(out)@ + decimal(n as nat),
    decreases n,
{
    if n >= 10 {
        push_decimal(out, n / 10);
    }
    out.append(digit_text(n % 10));
    proof {
        if n >= 10 {
            assert(old(out)@ + decimal(n as nat) =~= old(out)@ + decimal((n / 10) as nat) + seq![
                digit_char((n % 10) as nat),
            ]);
        }
    }
}

/// `s` without all its trailing occurrences of `c`.
pub open spec fn trim_end(s: Seq<char>, c: char) -> Seq<char>
    decreases s.len(),
{
    if s.len() > 0 && s.last() == c {
        trim_end(s.drop_last(), c)
    } else {
        s
    }
}

/// The shortest text of a fixed-point number: trailing zeros are dropped,
/// then a trailing point, and a negative zero that is left reads `0`.
pub open spec fn spec_trim_fixed_point(s: Seq<char>) -> Seq<char> {
    let t = trim_end(trim_end(s, '0'), '.');
    if t == seq!['-', '0'] {
        seq!['0']
    } else {
        t
    }
}

/// Drops the trailing occurrences of `c` from the first `end` characters of
/// `s`; returns the length that is left.
fn trim_end_len(s: &str, end: usize, c: char) -> (len: usize)
    requires
        end <= s@.len(),
    ensures
        len <= end,
        trim_end(s@.take(end as int), c) == s@.take(len as int),
{
    let mut j: usize = end;
    loop
        invariant_except_break
            j <= end,
            end <= s@.len(),
            trim_end(s@.take(end as int), c) == trim_end(s@.take(j as int), c),
        ensures
            j <= end,
            trim_end(s@.take(end as int), c) == s@.take(j as int),
        decreases j,
    {
        if j == 0 {
            proof {
                assert(s@.take(0) =~= Seq::<char>::empty());
            }
            break;
        }
        if s.get_char(j - 1) != c {
            break;
        }
        proof {
            assert(s@.take(j as int).drop_last() =~= s@.take(j - 1));
        }
        j -= 1;
    }
    j
}

/// The text that `{:.6}` gives of a number, in its shortest form (see
/// [`spec_trim_fixed_point`]).
pub fn trim_fixed_point(text: &str) -> (r: String)
    ensures
        r@ == spec_trim_fixed_point(text@),
{
    let n = text.unicode_len();
    proof {
        assert(text@.take(n as int) =~= text@);
    }
    let j = trim_end_len(text, n, '0');
    let k = trim_end_len(text, j, '.');
    if k == 2 && text.get_char(0) == '-' && text.get_char(1) == '0' {
        proof {
            assert(text@.take(2) =~= seq!['-', '0']);
            reveal_strlit("0");
        }
        String::from_str("0")
    } else {
        let t = text.substring_char(0, k);
        proof {
            assert(t@ =~= text@.take(k as int));
            if k == 2 {
                assert(t@[0] != '-' || t@[1] != '0');
                assert(t@ != seq!['-', '0']);
            }
        }
        String::from_str(t)
    }
}

/// The bits of the exponent of a binary64 value.
pub const EXPONENT_BITS: u64 = 0x7ff0_0000_0000_0000;

/// The bits of the fraction of a binary64 value.
pub const FRACTION_BITS: u64 = 0x000f_ffff_ffff_ffff;

/// All bits of a binary64 value but its sign.
pub const MAGNITUDE_BITS: u64 = 0x7fff_ffff_ffff_ffff;

/// Whether the binary64 value with these bits is a NaN.
pub open spec fn is_nan_bits(b: u64) -> bool {
    b & EXPONENT_BITS == EXPONENT_BITS && b & FRACTION_BITS != 0
}

/// IEEE 754 equality of two binary64 values given by their bits: no NaN is
/// equal to anything, the two zeros are equal, and otherwise equal values
/// have equal bits.
pub open spec fn binary64_eq(a: u64, b: u64) -> bool {
    !is_nan_bits(a) && !is_nan_bits(b) && (a == b || (a | b) & MAGNITUDE_BITS == 0)
}

/// `==` on the binary64 values with bits `a` and `b`.
pub fn bits_eq(a: u64, b: u64) -> (r: bool)
    ensures
        r == binary64_eq(a, b),
{
    let a_nan = a & EXPONENT_BITS == EXPONENT_BITS && a & FRACTION_BITS != 0;
    let b_nan = b & EXPONENT_BITS == EXPONENT_BITS && b & FRACTION_BITS != 0;
    !a_nan && !b_nan && (a == b || (a | b) & MAGNITUDE_BITS == 0)
}

/// The bits of the binary64 zero.
pub const ZERO_BITS: u64 = 0;

/// The bits of the binary64 one.
pub const ONE_BITS: u64 = 0x3ff0_0000_0000_0000;

/// The bits of the binary64 one quarter, the default handle offset.
pub const QUARTER_BITS: u64 = 0x3fd0_0000_0000_0000;

proof fn lemma_trim_end_stops(x: Seq<char>, c: char)
    requires
        x.len() == 0 || x.last() != c,
    ensures
        trim_end(x, c) == x,
{
}

proof fn lemma_trim_end_run(x: Seq<char>, z: Seq<char>, c: char)
    requires
        forall|i: int| 0 <= i < z.len() ==> z[i] == c,
    ensures
        trim_end(x + z, c) == trim_end(x, c),
    decreases z.len(),
{
    if z.len() == 0 {
        assert(x + z =~= x);
    } else {
        let z1 = z.drop_last();
        assert((x + z).drop_last() =~= x + z1);
        lemma_trim_end_run(x, z1, c);
    }
}

/// The shortest text of a fixed-point text `d.gz` (integer part `d`
/// without a point, fraction digits `g` not ending in `0` or `.`, then only
/// zeros `z`) is `d.g`; with no `g` it is `d`, except that `-0` reads `0`.
pub proof fn law_trim_fixed_point(d: Seq<char>, g: Seq<char>, z: Seq<char>)
    requires
        forall|i: int| 0 <= i < d.len() ==> d[i] != '.',
        g.len() == 0 || (g.last() != '0' && g.last() != '.'),
        forall|i: int| 0 <= i < z.len() ==> z[i] == '0',
    ensures
        spec_trim_fixed_point(d + seq!['.'] + g + z) == (if g.len() == 0 {
            if d == seq!['-', '0'] {
                seq!['0']
            } else {
                d
            }
        } else {
            d + seq!['.'] + g
        }),
{
    let x = d + seq!['.'] + g;
    lemma_trim_end_run(x, z, '0');
    if g.len() == 0 {
        assert(x.last() == '.');
        lemma_trim_end_stops(x, '0');
        assert(x.drop_last() =~= d);
        lemma_trim_end_stops(d, '.');
    } else {
        assert(x.last() == g.last());
        lemma_trim_end_stops(x, '0');
        lemma_trim_end_stops(x, '.');
        if x.len() == 2 {
            assert(d.len() == 0);
            assert(x[0] == '.');
        }
        assert(x != seq!['-', '0']);
    }
}

/// Binary64 equality on bit patterns is IEEE equality: a NaN (all exponent
/// bits set, some fraction bit set) equals nothing; two zeros of either
/// sign are equal; otherwise values are equal exactly when their bits are.
pub proof fn law_binary64_eq(a: u64, b: u64)
    ensures
        binary64_eq(a, b) ==> (a == b || (a & 0x7fff_ffff_ffff_ffffu64 == 0 && b
            & 0x7fff_ffff_ffff_ffffu64 == 0)),
        (a & 0x7ff0_0000_0000_0000u64 == 0x7ff0_0000_0000_0000u64 && a & 0x000f_ffff_ffff_ffffu64
            != 0) ==> !binary64_eq(a, b),
        (b & 0x7ff0_0000_0000_0000u64 == 0x7ff0_0000_0000_0000u64 && b & 0x000f_ffff_ffff_ffffu64
            != 0) ==> !binary64_eq(a, b),
        (a == b && !(a & 0x7ff0_0000_0000_0000u64 == 0x7ff0_0000_0000_0000u64 && a
            & 0x000f_ffff_ffff_ffffu64 != 0)) ==> binary64_eq(a, b),
        (a & 0x7fff_ffff_ffff_ffffu64 == 0 && b & 0x7fff_ffff_ffff_ffffu64 == 0) ==> binary64_eq(
            a,
            b,
        ),
{
    assert((a | b) & 0x7fff_ffff_ffff_ffffu64 == 0 <==> (a & 0x7fff_ffff_ffff_ffffu64 == 0 && b
        & 0x7fff_ffff_ffff_ffffu64 == 0)) by (bit_vector);
    assert(a & 0x7fff_ffff_ffff_ffffu64 == 0 ==> a & 0x000f_ffff_ffff_ffffu64 == 0)
        by (bit_vector);
    assert(b & 0x7fff_ffff_ffff_ffffu64 == 0 ==> b & 0x000f_ffff_ffff_ffffu64 == 0)
        by (bit_vector);
}

} // verus!
