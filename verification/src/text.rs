//! Verified routines for the ASCII number formats shared by the wire
//! protocol and the file header: decimal integers and fixed-width hex ids.

use vstd::prelude::*;

verus! {

/// ASCII decimal digit.
pub open spec fn is_digit(b: u8) -> bool {
    0x30 <= b && b <= 0x39
}

/// The decimal digits of `n`, most significant first, as ASCII bytes.
pub open spec fn dec_digits(n: u64) -> Seq<u8>
    decreases n,
{
    if n < 10 {
        seq![(0x30 + n) as u8]
    } else {
        dec_digits(n / 10).push((0x30 + n % 10) as u8)
    }
}

/// Value of a sequence of ASCII decimal digits, most significant first.
pub open spec fn dec_value(s: Seq<u8>) -> int
    decreases s.len(),
{
    if s.len() == 0 {
        0
    } else {
        dec_value(s.drop_last()) * 10 + (s.last() - 0x30)
    }
}

/// Index of the first byte at or after `i` that is not a decimal digit.
pub open spec fn digit_run_end(s: Seq<u8>, i: int) -> int
    decreases s.len() - i,
{
    if i < 0 || i >= s.len() || !is_digit(s[i]) {
        i
    } else {
        digit_run_end(s, i + 1)
    }
}

/// Every byte of `s` is a decimal digit.
pub open spec fn all_digits(s: Seq<u8>) -> bool {
    forall|i: int| 0 <= i < s.len() ==> is_digit(#[trigger] s[i])
}

/// ASCII hex digit, either case.
pub open spec fn is_hex(b: u8) -> bool {
    (0x30 <= b && b <= 0x39) || (0x41 <= b && b <= 0x46) || (0x61 <= b && b <= 0x66)
}

/// Numeric value of one hex digit.
pub open spec fn hex_val(b: u8) -> int {
    if 0x30 <= b && b <= 0x39 {
        b - 0x30
    } else if 0x41 <= b && b <= 0x46 {
        b - 0x41 + 10
    } else if 0x61 <= b && b <= 0x66 {
        b - 0x61 + 10
    } else {
        0
    }
}

/// Value of a sequence of hex digits, most significant first.
pub open spec fn hex_value(s: Seq<u8>) -> int
    decreases s.len(),
{
    if s.len() == 0 {
        0
    } else {
        hex_value(s.drop_last()) * 16 + hex_val(s.last())
    }
}

/// Index of the first byte at or after `i` that is not a hex digit.
pub open spec fn hex_run_end(s: Seq<u8>, i: int) -> int
    decreases s.len() - i,
{
    if i < 0 || i >= s.len() || !is_hex(s[i]) {
        i
    } else {
        hex_run_end(s, i + 1)
    }
}

/// ASCII letter or decimal digit.
pub open spec fn is_alnum(b: u8) -> bool {
    (0x30 <= b && b <= 0x39) || (0x41 <= b && b <= 0x5a) || (0x61 <= b && b <= 0x7a)
}

/// Index of the first byte at or after `i` that is not alphanumeric.
pub open spec fn alnum_run_end(s: Seq<u8>, i: int) -> int
    decreases s.len() - i,
{
    if i < 0 || i >= s.len() || !is_alnum(s[i]) {
        i
    } else {
        alnum_run_end(s, i + 1)
    }
}

/// The run of alphanumeric bytes starting at `i` runs exactly to `j`.
pub proof fn lemma_alnum_run_is(s: Seq<u8>, i: int, j: int)
    requires
        0 <= i <= j <= s.len(),
        forall|k: int| i <= k < j ==> is_alnum(#[trigger] s[k]),
        j == s.len() || !is_alnum(s[j]),
    ensures
        alnum_run_end(s, i) == j,
    decreases j - i,
{
    if i < j {
        lemma_alnum_run_is(s, i + 1, j);
    }
}

pub proof fn lemma_alnum_run_end(s: Seq<u8>, i: int)
    requires
        0 <= i <= s.len(),
    ensures
        i <= alnum_run_end(s, i) <= s.len(),
        forall|k: int| i <= k < alnum_run_end(s, i) ==> is_alnum(#[trigger] s[k]),
        alnum_run_end(s, i) == s.len() || !is_alnum(s[alnum_run_end(s, i)]),
    decreases s.len() - i,
{
    if i < s.len() && is_alnum(s[i]) {
        lemma_alnum_run_end(s, i + 1);
    }
}

/// Returns the index just past the run of alphanumeric bytes at `start`.
pub fn scan_alnum_run(s: &[u8], start: usize) -> (end: usize)
    requires
        start <= s@.len(),
    ensures
        end == alnum_run_end(s@, start as int),
        start <= end <= s@.len(),
{
    proof {
        lemma_alnum_run_end(s@, start as int);
    }
    let ghost e = alnum_run_end(s@, start as int);
    let mut i: usize = start;
    while i < s.len() && ((0x30 <= s[i] && s[i] <= 0x39) || (0x41 <= s[i] && s[i] <= 0x5a) || (0x61
        <= s[i] && s[i] <= 0x7a))
        invariant
            start <= i <= s@.len(),
            i <= e <= s@.len(),
            e == alnum_run_end(s@, i as int),
        decreases s@.len() - i,
    {
        i = i + 1;
        proof {
            lemma_alnum_run_end(s@, i as int);
        }
    }
    i
}

/// 16 to the `k`.
pub open spec fn pow16(k: nat) -> int
    decreases k,
{
    if k == 0 {
        1
    } else {
        16 * pow16((k - 1) as nat)
    }
}

pub proof fn lemma_pow16_le(k: nat, m: nat)
    requires
        k <= m,
    ensures
        1 <= pow16(k) <= pow16(m),
    decreases m,
{
    if m == 0 {
    } else if k == m {
        lemma_pow16_le((m - 1) as nat, (m - 1) as nat);
    } else {
        lemma_pow16_le(k, (m - 1) as nat);
    }
}

/// The run of decimal digits starting at `i` runs exactly to `j`.
pub proof fn lemma_digit_run_is(s: Seq<u8>, i: int, j: int)
    requires
        0 <= i <= j <= s.len(),
        forall|k: int| i <= k < j ==> is_digit(#[trigger] s[k]),
        j == s.len() || !is_digit(s[j]),
    ensures
        digit_run_end(s, i) == j,
    decreases j - i,
{
    if i < j {
        lemma_digit_run_is(s, i + 1, j);
    }
}

/// Basic shape of a digit run: it lies within the sequence, consists of
/// digits, and stops at the first non-digit.
pub proof fn lemma_digit_run_end(s: Seq<u8>, i: int)
    requires
        0 <= i <= s.len(),
    ensures
        i <= digit_run_end(s, i) <= s.len(),
        forall|k: int| i <= k < digit_run_end(s, i) ==> is_digit(#[trigger] s[k]),
        digit_run_end(s, i) == s.len() || !is_digit(s[digit_run_end(s, i)]),
    decreases s.len() - i,
{
    if i < s.len() && is_digit(s[i]) {
        lemma_digit_run_end(s, i + 1);
    }
}

pub proof fn lemma_hex_run_end(s: Seq<u8>, i: int)
    requires
        0 <= i <= s.len(),
    ensures
        i <= hex_run_end(s, i) <= s.len(),
        forall|k: int| i <= k < hex_run_end(s, i) ==> is_hex(#[trigger] s[k]),
        hex_run_end(s, i) == s.len() || !is_hex(s[hex_run_end(s, i)]),
    decreases s.len() - i,
{
    if i < s.len() && is_hex(s[i]) {
        lemma_hex_run_end(s, i + 1);
    }
}

/// A sequence of digits has a non-negative value.
pub proof fn lemma_dec_value_nonneg(s: Seq<u8>)
    requires
        all_digits(s),
    ensures
        dec_value(s) >= 0,
    decreases s.len(),
{
    if s.len() > 0 {
        lemma_dec_value_nonneg(s.drop_last());
    }
}

/// Extending a digit sequence on the right never lowers its value.
pub proof fn lemma_dec_value_prefix(s: Seq<u8>, j: int)
    requires
        all_digits(s),
        0 <= j <= s.len(),
    ensures
        dec_value(s.subrange(0, j)) <= dec_value(s),
    decreases s.len() - j,
{
    if j == s.len() {
        assert(s.subrange(0, j) =~= s);
    } else {
        lemma_dec_value_prefix(s, j + 1);
        let t = s.subrange(0, j + 1);
        assert(t.drop_last() =~= s.subrange(0, j));
        assert(all_digits(t));
        lemma_dec_value_nonneg(t.drop_last());
        assert(dec_value(s.subrange(0, j)) <= dec_value(t));
    }
}

/// The decimal digits of `n` are digits, at least one of them, and they
/// evaluate back to `n`.
pub proof fn lemma_dec_digits(n: u64)
    ensures
        all_digits(dec_digits(n)),
        dec_digits(n).len() >= 1,
        dec_value(dec_digits(n)) == n,
    decreases n,
{
    if n < 10 {
        let s = dec_digits(n);
        assert(s.drop_last() =~= Seq::<u8>::empty());
        assert(dec_value(s) == dec_value(s.drop_last()) * 10 + (s.last() - 0x30));
    } else {
        lemma_dec_digits(n / 10);
        let s = dec_digits(n);
        assert(s.drop_last() =~= dec_digits(n / 10));
        assert(dec_value(s.drop_last()) == n / 10);
        assert(s.last() == (0x30 + n % 10) as u8);
        assert(dec_value(s) == (n / 10) * 10 + n % 10);
        assert forall|i: int| 0 <= i < s.len() implies is_digit(#[trigger] s[i]) by {
            if i < s.len() - 1 {
                assert(s[i] == dec_digits(n / 10)[i]);
            }
        }
    }
}

/// Formats `n` in decimal.
pub fn format_u64(n: u64) -> (v: Vec<u8>)
    ensures
        v@ == dec_digits(n),
{
    let mut out: Vec<u8> = Vec::new();
    let mut cur: u64 = n;
    while cur >= 10
        invariant
            dec_digits(n) == dec_digits(cur) + out@,
        decreases cur,
    {
        let d: u8 = (cur % 10) as u8 + 0x30;
        proof {
            assert(dec_digits(cur) == dec_digits(cur / 10).push(d));
            assert(dec_digits(cur / 10).push(d) + out@ == dec_digits(cur / 10) + (seq![d]
                + out@));
        }
        out.insert(0, d);
        cur = cur / 10;
    }
    let d: u8 = cur as u8 + 0x30;
    proof {
        assert(dec_digits(cur) == seq![d]);
        assert(seq![d] + out@ == dec_digits(cur) + out@);
    }
    out.insert(0, d);
    assert(out@ == dec_digits(n));
    out
}

/// Parses a maximal run of decimal digits starting at `start` as a `u64`.
/// Returns the value and the index just past the run; fails when the run is
/// empty or its value does not fit.
pub fn parse_u64_dec(s: &[u8], start: usize) -> (r: Option<(u64, usize)>)
    requires
        start <= s@.len(),
    ensures
        ({
            let e = digit_run_end(s@, start as int);
            match r {
                Some(p) => p.1 == e && start < e && p.1 <= s@.len() && p.0 == dec_value(
                    s@.subrange(start as int, e),
                ),
                None => e == start || dec_value(s@.subrange(start as int, e)) > u64::MAX,
            }
        }),
{
    proof {
        lemma_digit_run_end(s@, start as int);
    }
    let ghost e = digit_run_end(s@, start as int);
    let mut i: usize = start;
    let mut acc: u64 = 0;
    while i < s.len() && 0x30 <= s[i] && s[i] <= 0x39
        invariant
            start <= i <= s@.len(),
            i <= e <= s@.len(),
            e == digit_run_end(s@, i as int),
            e == digit_run_end(s@, start as int),
            forall|k: int| start <= k < i ==> is_digit(#[trigger] s@[k]),
            acc == dec_value(s@.subrange(start as int, i as int)),
            e == s@.len() || !is_digit(s@[e]),
            forall|k: int| i <= k < e ==> is_digit(#[trigger] s@[k]),
        decreases s@.len() - i,
    {
        let d: u64 = (s[i] - 0x30) as u64;
        if acc > (u64::MAX - d) / 10 {
            proof {
                let full = s@.subrange(start as int, e);
                let pre = s@.subrange(start as int, i + 1);
                assert(pre.drop_last() =~= s@.subrange(start as int, i as int));
                assert(dec_value(pre) == acc * 10 + d);
                assert(all_digits(full));
                assert(pre =~= full.subrange(0, i + 1 - start));
                lemma_dec_value_prefix(full, i + 1 - start);
                assert(dec_value(full) >= acc * 10 + d);
                assert(acc * 10 + d > u64::MAX);
            }
            return None;
        }
        proof {
            let pre = s@.subrange(start as int, i + 1);
            assert(pre.drop_last() =~= s@.subrange(start as int, i as int));
            assert(pre.last() == s@[i as int]);
        }
        acc = acc * 10 + d;
        i = i + 1;
        proof {
            lemma_digit_run_end(s@, i as int);
        }
    }
    if i == start {
        None
    } else {
        Some((acc, i))
    }
}

/// Parses a maximal run of decimal digits as a `u32`; fails when the run is
/// empty or its value exceeds `u32::MAX`.
pub fn parse_u32_dec(s: &[u8], start: usize) -> (r: Option<(u32, usize)>)
    requires
        start <= s@.len(),
    ensures
        ({
            let e = digit_run_end(s@, start as int);
            match r {
                Some(p) => p.1 == e && start < e && p.1 <= s@.len() && p.0 == dec_value(
                    s@.subrange(start as int, e),
                ),
                None => e == start || dec_value(s@.subrange(start as int, e)) > u32::MAX,
            }
        }),
{
    match parse_u64_dec(s, start) {
        None => None,
        Some((v, end)) => {
            if v <= 0xFFFF_FFFF {
                Some((v as u32, end))
            } else {
                None
            }
        },
    }
}

/// A signed 32-bit decimal literal: one optional sign, then a maximal digit
/// run, value within `i32` range. The result pairs the value with the index
/// just past the run.
pub open spec fn spec_parse_i32(s: Seq<u8>, i: int) -> Option<(int, int)> {
    let neg = i < s.len() && s[i] == 0x2d;
    let j = if i < s.len() && (s[i] == 0x2d || s[i] == 0x2b) {
        i + 1
    } else {
        i
    };
    let e = digit_run_end(s, j);
    if e == j {
        None
    } else {
        let m = dec_value(s.subrange(j, e));
        let v = if neg {
            -m
        } else {
            m
        };
        if -0x8000_0000 <= v <= 0x7fff_ffff {
            Some((v, e))
        } else {
            None
        }
    }
}

/// Parses a signed 32-bit decimal literal starting at `start`.
pub fn parse_i32_dec(s: &[u8], start: usize) -> (r: Option<(i32, usize)>)
    requires
        start <= s@.len(),
    ensures
        match r {
            Some(p) => spec_parse_i32(s@, start as int) == Some((p.0 as int, p.1 as int))
                && p.1 <= s@.len(),
            None => spec_parse_i32(s@, start as int) is None,
        },
{
    let neg = start < s.len() && s[start] == 0x2d;
    let j: usize = if start < s.len() && (s[start] == 0x2d || s[start] == 0x2b) {
        start + 1
    } else {
        start
    };
    match parse_u64_dec(s, j) {
        None => {
            proof {
                lemma_digit_run_end(s@, j as int);
                let e = digit_run_end(s@, j as int);
                if e != j {
                    let m = dec_value(s@.subrange(j as int, e));
                    assert(m > u64::MAX);
                }
            }
            None
        },
        Some((m, end)) => {
            if neg {
                if m <= 0x8000_0000 {
                    Some(((-(m as i64)) as i32, end))
                } else {
                    None
                }
            } else {
                if m <= 0x7fff_ffff {
                    Some((m as i32, end))
                } else {
                    None
                }
            }
        },
    }
}

/// Returns the index just past the run of hex digits starting at `start`.
pub fn scan_hex_run(s: &[u8], start: usize) -> (end: usize)
    requires
        start <= s@.len(),
    ensures
        end == hex_run_end(s@, start as int),
        start <= end <= s@.len(),
{
    proof {
        lemma_hex_run_end(s@, start as int);
    }
    let ghost e = hex_run_end(s@, start as int);
    let mut i: usize = start;
    while i < s.len() && ((0x30 <= s[i] && s[i] <= 0x39) || (0x41 <= s[i] && s[i] <= 0x46) || (0x61
        <= s[i] && s[i] <= 0x66))
        invariant
            start <= i <= s@.len(),
            i <= e <= s@.len(),
            e == hex_run_end(s@, i as int),
        decreases s@.len() - i,
    {
        i = i + 1;
        proof {
            lemma_hex_run_end(s@, i as int);
        }
    }
    i
}

/// Parses an id of exactly twelve hex digits (case-insensitive) starting at
/// `start`: the maximal hex run there must have length twelve. Returns the
/// 48-bit value and the index just past the run.
pub fn parse_hex12(s: &[u8], start: usize) -> (r: Option<(u64, usize)>)
    requires
        start <= s@.len(),
    ensures
        ({
            let e = hex_run_end(s@, start as int);
            match r {
                Some(p) => p.1 == e && e - start == 12 && p.1 <= s@.len() && p.0 == hex_value(
                    s@.subrange(start as int, e),
                ),
                None => e - start != 12,
            }
        }),
{
    proof {
        lemma_hex_run_end(s@, start as int);
    }
    let end = scan_hex_run(s, start);
    if end - start != 12 {
        return None;
    }
    proof {
        lemma_pow16_le(0, 12);
        assert(pow16(12) == 0x1000000000000int) by {
            reveal_with_fuel(pow16, 13);
        }
    }
    let mut acc: u64 = 0;
    let mut i: usize = start;
    while i < end
        invariant
            start <= i <= end <= s@.len(),
            end - start == 12,
            forall|k: int| start <= k < end ==> is_hex(#[trigger] s@[k]),
            acc == hex_value(s@.subrange(start as int, i as int)),
            acc < pow16((i - start) as nat),
            pow16(12) == 0x1000000000000,
        decreases end - i,
    {
        let b = s[i];
        let d: u64 = if b <= 0x39 {
            (b - 0x30) as u64
        } else if b <= 0x46 {
            (b - 0x41 + 10) as u64
        } else {
            (b - 0x61 + 10) as u64
        };
        proof {
            let pre = s@.subrange(start as int, i + 1);
            assert(pre.drop_last() =~= s@.subrange(start as int, i as int));
            assert(pre.last() == s@[i as int]);
            assert(d == hex_val(s@[i as int]));
            lemma_pow16_le(((i + 1) - start) as nat, 12);
        }
        acc = acc * 16 + d;
        i = i + 1;
    }
    Some((acc, end))
}

} // verus!
