//! Decimal formatting and parsing of small integers.
use vstd::prelude::*;

use crate::text::push_char;

verus! {

/// The decimal digit character of `d` (`0 <= d < 10`).
pub open spec fn digit_char(d: nat) -> char {
    ((d + 48) as u8) as char
}

/// The decimal digits of `n`, most significant first, without leading zeros.
pub open spec fn digits(n: nat) -> Seq<char>
    decreases n,
{
    if n < 10 {
        seq![digit_char(n)]
    } else {
        digits(n / 10) + seq![digit_char(n % 10)]
    }
}

/// `s` padded on the left with `'0'` to at least `w` characters.
pub open spec fn zero_pad(s: Seq<char>, w: nat) -> Seq<char> {
    if s.len() >= w {
        s
    } else {
        Seq::new((w - s.len()) as nat, |i: int| '0') + s
    }
}

/// `n` in decimal, zero-padded to width `w` (as `{:0w}` formats it).
pub open spec fn fmt_padded(n: int, w: nat) -> Seq<char> {
    if n < 0 {
        seq!['-'] + zero_pad(digits((-n) as nat), if w > 0 {
            (w - 1) as nat
        } else {
            0
        })
    } else {
        zero_pad(digits(n as nat), w)
    }
}

fn digit(d: u64) -> (c: char)
    requires
        d < 10,
    ensures
        c == digit_char(d as nat),
{
    ((d + 48) as u8) as char
}

/// Appends the decimal digits of `n`.
pub fn push_digits(out: &mut String, n: u64)
    ensures
        final(out)@ == old(out)@ + digits(n as nat),
    decreases n,
{
    if n >= 10 {
        push_digits(out, n / 10);
    }
    push_char(out, digit(n % 10));
    assert(old(out)@ + digits(n as nat) =~= out@);
}

/// Appends `n` zero-padded to width `w`.
pub fn push_padded_unsigned(out: &mut String, n: u64, w: usize)
    ensures
        final(out)@ == old(out)@ + zero_pad(digits(n as nat), w as nat),
{
    let mut tmp = String::new();
    push_digits(&mut tmp, n);
    assert(tmp@ =~= digits(n as nat));
    let k = crate::text::chars_of(tmp.as_str()).len();
    let ghost start = out@;
    if k < w {
        let mut i: usize = 0;
        while i < w - k
            invariant
                k < w,
                i <= w - k,
                out@ == start + Seq::new(i as nat, |j: int| '0'),
            decreases w - k - i,
        {
            push_char(out, '0');
            assert(start + Seq::new((i + 1) as nat, |j: int| '0') =~= start + Seq::new(
                i as nat,
                |j: int| '0',
            ).push('0'));
            i = i + 1;
        }
    }
    crate::text::push_str(out, tmp.as_str());
    assert(out@ =~= start + zero_pad(digits(n as nat), w as nat));
}

/// Appends `n` zero-padded to width `w`, a minus sign counting toward the width.
pub fn push_padded_signed(out: &mut String, n: i64, w: usize)
    requires
        w >= 1,
    ensures
        final(out)@ == old(out)@ + fmt_padded(n as int, w as nat),
{
    if n < 0 {
        push_char(out, '-');
        let m: u64 = if n == i64::MIN {
            9223372036854775808u64
        } else {
            (-n) as u64
        };
        push_padded_unsigned(out, m, w - 1);
        assert(out@ =~= old(out)@ + fmt_padded(n as int, w as nat));
    } else {
        push_padded_unsigned(out, n as u64, w);
    }
}

/// A decimal digit character.
pub open spec fn is_digit(c: char) -> bool {
    '0' <= c && c <= '9'
}

/// The value of a digit character.
pub open spec fn digit_value(c: char) -> int {
    c as int - '0' as int
}

/// The value of a string of decimal digits.
pub open spec fn digits_value(s: Seq<char>) -> int
    decreases s.len(),
{
    if s.len() == 0 {
        0
    } else {
        digits_value(s.drop_last()) * 10 + digit_value(s.last())
    }
}

/// Every character of `s` is a decimal digit.
pub open spec fn all_digits(s: Seq<char>) -> bool {
    forall|i: int| 0 <= i < s.len() ==> is_digit(#[trigger] s[i])
}

/// `s` read as an unsigned decimal integer: one or more ASCII digits, nothing else
/// (no sign).
pub open spec fn parse_unsigned(s: Seq<char>) -> Option<int> {
    if s.len() > 0 && all_digits(s) {
        Some(digits_value(s))
    } else {
        None
    }
}

/// `s` read as a signed decimal integer: an optional `-`, then one or more ASCII
/// digits, nothing else.
pub open spec fn parse_signed(s: Seq<char>) -> Option<int> {
    if s.len() > 0 && s[0] == '-' {
        if s.len() > 1 && all_digits(s.drop_first()) {
            Some(-digits_value(s.drop_first()))
        } else {
            None
        }
    } else {
        parse_unsigned(s)
    }
}

proof fn lemma_digits_value_bound(s: Seq<char>)
    requires
        all_digits(s),
    ensures
        0 <= digits_value(s) < pow10(s.len()),
    decreases s.len(),
{
    if s.len() > 0 {
        assert(all_digits(s.drop_last())) by {
            assert forall|i: int| 0 <= i < s.drop_last().len() implies is_digit(
                #[trigger] s.drop_last()[i],
            ) by {
                assert(s.drop_last()[i] == s[i]);
            }
        }
        lemma_digits_value_bound(s.drop_last());
        assert(is_digit(s[s.len() - 1]));
    }
}

/// A signed number read from `s` is less than `10^len` in magnitude.
pub proof fn lemma_parse_signed_bound(s: Seq<char>)
    ensures
        parse_signed(s) matches Some(x) ==> -pow10(s.len()) < x < pow10(s.len()),
{
    if s.len() > 0 && s[0] == '-' && s.len() > 1 && all_digits(s.drop_first()) {
        lemma_digits_value_bound(s.drop_first());
        lemma_pow10_step(s.drop_first().len());
    } else if s.len() > 0 && all_digits(s) {
        lemma_digits_value_bound(s);
    }
}

proof fn lemma_pow10_step(n: nat)
    ensures
        0 < pow10(n) <= pow10(n + 1),
    decreases n,
{
    if n > 0 {
        lemma_pow10_step((n - 1) as nat);
    }
}

/// `10` to the power `n`.
pub open spec fn pow10(n: nat) -> int
    decreases n,
{
    if n == 0 {
        1
    } else {
        10 * pow10((n - 1) as nat)
    }
}

/// The value of the digits `v[from..to]`, or `None` when one is not a digit.
fn digits_value_exec(v: &[char], from: usize, to: usize) -> (r: Option<u32>)
    requires
        from <= to <= v@.len(),
        to - from <= 9,
    ensures
        match r {
            Some(x) => all_digits(v@.subrange(from as int, to as int)) && x == digits_value(
                v@.subrange(from as int, to as int),
            ),
            None => !all_digits(v@.subrange(from as int, to as int)),
        },
{
    let mut acc: u32 = 0;
    let mut i = from;
    while i < to
        invariant
            from <= i <= to <= v@.len(),
            to - from <= 9,
            all_digits(v@.subrange(from as int, i as int)),
            acc == digits_value(v@.subrange(from as int, i as int)),
            acc < pow10((i - from) as nat),
        decreases to - i,
    {
        let c = v[i];
        let ghost pre = v@.subrange(from as int, i as int);
        let ghost next = v@.subrange(from as int, i + 1);
        assert(next.drop_last() =~= pre);
        assert(next.last() == c);
        if !('0' <= c && c <= '9') {
            assert(!is_digit(next[i - from]));
            assert(!all_digits(v@.subrange(from as int, to as int))) by {
                assert(v@.subrange(from as int, to as int)[i - from] == c);
            }
            return None;
        }
        assert(pow10((i + 1 - from) as nat) == 10 * pow10((i - from) as nat));
        assert(pow10((i - from) as nat) <= 100_000_000) by {
            lemma_pow10_mono((i - from) as nat, 8);
        }
        let d = (c as u32) - 48;
        acc = acc * 10 + d;
        assert(all_digits(next)) by {
            assert forall|k: int| 0 <= k < next.len() implies is_digit(#[trigger] next[k]) by {
                if k < pre.len() {
                    assert(next[k] == pre[k]);
                }
            }
        }
        i = i + 1;
    }
    Some(acc)
}

proof fn lemma_pow10_mono(a: nat, b: nat)
    requires
        a <= b,
    ensures
        pow10(a) <= pow10(b),
        pow10(8) == 100_000_000,
    decreases b,
{
    reveal_with_fuel(pow10, 9);
    if a < b {
        lemma_pow10_mono(a, (b - 1) as nat);
        lemma_pow10_pos((b - 1) as nat);
    }
}

proof fn lemma_pow10_pos(n: nat)
    ensures
        pow10(n) >= 1,
    decreases n,
{
    if n > 0 {
        lemma_pow10_pos((n - 1) as nat);
    }
}

/// `v[from..to]` read as an unsigned decimal integer.
pub fn parse_unsigned_exec(v: &[char], from: usize, to: usize) -> (r: Option<u32>)
    requires
        from <= to <= v@.len(),
        to - from <= 9,
    ensures
        match r {
            Some(x) => parse_unsigned(v@.subrange(from as int, to as int)) == Some(x as int),
            None => parse_unsigned(v@.subrange(from as int, to as int)) is None,
        },
{
    if from < to {
        digits_value_exec(v, from, to)
    } else {
        None
    }
}

/// `v[from..to]` read as a signed decimal integer.
pub fn parse_signed_exec(v: &[char], from: usize, to: usize) -> (r: Option<i64>)
    requires
        from <= to <= v@.len(),
        to - from <= 9,
    ensures
        match r {
            Some(x) => parse_signed(v@.subrange(from as int, to as int)) == Some(x as int),
            None => parse_signed(v@.subrange(from as int, to as int)) is None,
        },
{
    let ghost s = v@.subrange(from as int, to as int);
    if from < to && v[from] == '-' {
        assert(s.drop_first() =~= v@.subrange(from + 1, to as int));
        if to - from > 1 {
            match digits_value_exec(v, from + 1, to) {
                Some(x) => Some(-(x as i64)),
                None => None,
            }
        } else {
            None
        }
    } else {
        match parse_unsigned_exec(v, from, to) {
            Some(x) => Some(x as i64),
            None => None,
        }
    }
}

/// The digits of `n` are digits and read back as `n`.
proof fn lemma_digits_read_back(n: nat)
    ensures
        digits(n).len() >= 1,
        all_digits(digits(n)),
        digits_value(digits(n)) == n,
    decreases n,
{
    let d = (n % 10) as nat;
    assert(digit_value(digit_char(d)) == d);
    if n >= 10 {
        lemma_digits_read_back(n / 10);
        let s = digits(n);
        assert(s.drop_last() =~= digits(n / 10));
        assert(s.last() == digit_char(d));
        vstd::arithmetic::div_mod::lemma_fundamental_div_mod(n as int, 10);
        assert(digits_value(s) == digits_value(digits(n / 10)) * 10 + d);
        assert forall|i: int| 0 <= i < s.len() implies is_digit(#[trigger] s[i]) by {
            if i < s.len() - 1 {
                assert(s[i] == digits(n / 10)[i]);
            }
        }
    } else {
        assert(digits(n).drop_last() =~= Seq::<char>::empty());
        assert(digits_value(Seq::<char>::empty()) == 0);
        assert(n % 10 == n);
        assert(digits(n).last() == digit_char(d));
    }
}

/// A number below `10^k` has at most `k` digits.
proof fn lemma_digits_len(n: nat, k: nat)
    requires
        k >= 1,
        n < pow10(k),
    ensures
        digits(n).len() <= k,
    decreases n,
{
    if n >= 10 {
        if k == 1 {
            assert(pow10(1) == 10) by {
                reveal_with_fuel(pow10, 2);
            }
        } else {
            assert(pow10(k) == 10 * pow10((k - 1) as nat));
            lemma_digits_len(n / 10, (k - 1) as nat);
        }
    }
}

/// Zeros in front of digits do not change what they read as.
proof fn lemma_leading_zeros(z: nat, s: Seq<char>)
    ensures
        digits_value(Seq::new(z, |i: int| '0') + s) == digits_value(s),
        all_digits(s) ==> all_digits(Seq::new(z, |i: int| '0') + s),
    decreases s.len(), z,
{
    let zs = Seq::new(z, |i: int| '0');
    if s.len() > 0 {
        lemma_leading_zeros(z, s.drop_last());
        assert((zs + s).drop_last() =~= zs + s.drop_last());
    } else {
        assert(zs + s =~= zs);
        if z > 0 {
            lemma_leading_zeros((z - 1) as nat, s);
            assert(zs.drop_last() =~= Seq::new((z - 1) as nat, |i: int| '0'));
            assert(Seq::new((z - 1) as nat, |i: int| '0') + s =~= Seq::new((z - 1) as nat, |i: int| '0'));
        }
    }
}

/// `n` padded to width `w` has exactly `w` digits that read back as `n`.
proof fn lemma_padded_reads_back(n: nat, w: nat)
    requires
        w >= 1,
        n < pow10(w),
    ensures
        zero_pad(digits(n), w).len() == w,
        all_digits(zero_pad(digits(n), w)),
        digits_value(zero_pad(digits(n), w)) == n,
{
    lemma_digits_read_back(n);
    lemma_digits_len(n, w);
    if digits(n).len() < w {
        lemma_leading_zeros((w - digits(n).len()) as nat, digits(n));
    }
}

/// A number written zero-padded to width `w` (`w >= 2`), from `-(10^(w-1))`
/// exclusive to `10^w` exclusive, takes exactly `w` characters, starts with a digit
/// or `-`, ends with a digit, and reads back as itself.
pub proof fn lemma_fmt_padded_reads_back(n: int, w: nat)
    requires
        w >= 2,
        -pow10((w - 1) as nat) < n < pow10(w),
    ensures
        fmt_padded(n, w).len() == w,
        is_digit(fmt_padded(n, w)[0]) || fmt_padded(n, w)[0] == '-',
        is_digit(fmt_padded(n, w).last()),
        parse_signed(fmt_padded(n, w)) == Some(n),
        n >= 0 ==> parse_unsigned(fmt_padded(n, w)) == Some(n),
{
    let s = fmt_padded(n, w);
    if n < 0 {
        let m = (-n) as nat;
        lemma_padded_reads_back(m, (w - 1) as nat);
        let p = zero_pad(digits(m), (w - 1) as nat);
        assert(s.drop_first() =~= p);
        assert(s.last() == p.last());
        assert(is_digit(p[p.len() - 1]));
    } else {
        lemma_padded_reads_back(n as nat, w);
        assert(is_digit(s[0]));
        assert(is_digit(s[s.len() - 1]));
    }
}

} // verus!
