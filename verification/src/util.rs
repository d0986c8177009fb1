//! Small verified helpers shared across the crate.

use vstd::prelude::*;

verus! {

/// An element-for-element copy of a vector of plain values.
pub fn copy_vec<T: Copy>(v: &Vec<T>) -> (r: Vec<T>)
    ensures
        r@ == v@,
{
    let mut r: Vec<T> = Vec::new();
    let n = v.len();
    let mut i: usize = 0;
    while i < n
        invariant
            n == v@.len(),
            i <= n,
            r@ == v@.subrange(0, i as int),
        decreases n - i,
    {
        r.push(v[i]);
        i = i + 1;
    }
    proof {
        assert(r@ =~= v@);
    }
    r
}

/// Clamps a mathematical integer into the `i32` range.
pub open spec fn clamp_i32(x: int) -> int {
    if x < i32::MIN {
        i32::MIN as int
    } else if x > i32::MAX {
        i32::MAX as int
    } else {
        x
    }
}

/// Sum of a sequence of 32-bit amounts, as a mathematical integer.
pub open spec fn sum_i32(s: Seq<i32>) -> int
    decreases s.len(),
{
    if s.len() == 0 {
        0
    } else {
        sum_i32(s.drop_last()) + s.last()
    }
}

/// Sums a damage list without overflow: every partial sum of `k` 32-bit
/// values fits comfortably in an `i128`.
pub fn sum_amounts(v: &Vec<i32>) -> (s: i128)
    ensures
        s == sum_i32(v@),
        -0x80000000000000000000000000 <= s <= 0x80000000000000000000000000,
{
    let n = v.len();
    let mut acc: i128 = 0;
    let mut i: usize = 0;
    while i < n
        invariant
            n == v@.len(),
            i <= n,
            acc == sum_i32(v@.subrange(0, i as int)),
            -0x80000000i128 * (i as i128) <= acc <= 0x80000000i128 * (i as i128),
        decreases n - i,
    {
        proof {
            assert(v@.subrange(0, i + 1).drop_last() =~= v@.subrange(0, i as int));
            assert(-0x80000000i128 * ((i + 1) as i128) <= acc + v@[i as int]
                <= 0x80000000i128 * ((i + 1) as i128)) by (nonlinear_arith)
                requires
                    -0x80000000i128 * (i as i128) <= acc <= 0x80000000i128 * (i as i128),
                    -0x80000000 <= v@[i as int] <= 0x7fffffff,
                    0 <= i,
            ;
            assert(0x80000000i128 * ((i + 1) as i128) < i128::MAX) by (nonlinear_arith)
                requires
                    i < 0x10000000000000000,
            ;
        }
        acc = acc + v[i] as i128;
        i = i + 1;
    }
    proof {
        assert(v@.subrange(0, n as int) =~= v@);
        assert(-0x80000000000000000000000000 <= acc <= 0x80000000000000000000000000)
            by (nonlinear_arith)
            requires
                -0x80000000i128 * (n as i128) <= acc <= 0x80000000i128 * (n as i128),
                0 <= n < 0x10000000000000000,
        ;
    }
    acc
}

/// Whether a point sequence contains `p`.
pub fn contains_point(v: &Vec<crate::components::Point>, p: crate::components::Point) -> (r: bool)
    ensures
        r == v@.contains(p),
{
    let n = v.len();
    let mut i: usize = 0;
    while i < n
        invariant
            n == v@.len(),
            i <= n,
            forall|j: int| 0 <= j < i ==> v@[j] != p,
        decreases n - i,
    {
        if v[i].x == p.x && v[i].y == p.y {
            return true;
        }
        i = i + 1;
    }
    false
}

/// The decimal digits of `n`, most significant first.
pub open spec fn dec_of(n: nat) -> Seq<char>
    decreases n,
{
    if n < 10 {
        seq![digit_char(n)]
    } else {
        dec_of(n / 10) + seq![digit_char(n % 10)]
    }
}

/// The character for one decimal digit.
pub open spec fn digit_char(d: nat) -> char {
    if d == 0 {
        '0'
    } else if d == 1 {
        '1'
    } else if d == 2 {
        '2'
    } else if d == 3 {
        '3'
    } else if d == 4 {
        '4'
    } else if d == 5 {
        '5'
    } else if d == 6 {
        '6'
    } else if d == 7 {
        '7'
    } else if d == 8 {
        '8'
    } else {
        '9'
    }
}

/// Renders a number in decimal, exactly `dec_of`.
pub fn format_u32(n: u32) -> (s: String)
    ensures
        s@ == dec_of(n as nat),
{
    let mut digits: Vec<u8> = Vec::new();
    let ghost mut suffix: Seq<char> = Seq::empty();
    let mut rest: u32 = n;
    loop
        invariant_except_break
            dec_of(n as nat) == (if rest < 10 {
                seq![digit_char(rest as nat)]
            } else {
                dec_of(rest as nat)
            }) + suffix,
        invariant
            suffix.len() == digits@.len(),
            forall|k: int|
                0 <= k < suffix.len() ==> #[trigger] suffix[k] == digit_char(
                    digits@[digits@.len() - 1 - k] as nat,
                ),
        ensures
            dec_of(n as nat) == suffix,
        decreases rest,
    {
        let d: u8 = (rest % 10) as u8;
        let ghost pre = digits@;
        let ghost presuf = suffix;
        digits.push(d);
        proof {
            suffix = seq![digit_char(d as nat)] + presuf;
            assert forall|k: int|
                0 <= k < suffix.len() implies #[trigger] suffix[k] == digit_char(
                digits@[digits@.len() - 1 - k] as nat,
            ) by {
                if k > 0 {
                    assert(suffix[k] == presuf[k - 1]);
                    assert(digits@[digits@.len() - 1 - k] == pre[pre.len() - 1 - (k - 1)]);
                }
            }
        }
        if rest < 10 {
            proof {
                assert(dec_of(n as nat) =~= seq![digit_char(rest as nat)] + presuf);
                assert(dec_of(n as nat) =~= suffix);
            }
            break ;
        }
        proof {
            assert(dec_of(rest as nat) == dec_of((rest / 10) as nat) + seq![
                digit_char((rest % 10) as nat),
            ]);
            assert((dec_of((rest / 10) as nat) + seq![digit_char((rest % 10) as nat)]) + presuf
                =~= dec_of((rest / 10) as nat) + suffix);
        }
        rest = rest / 10;
    }
    let mut s = String::new();
    let m = digits.len();
    let mut k: usize = 0;
    while k < m
        invariant
            m == digits@.len(),
            suffix.len() == m,
            forall|t: int|
                0 <= t < suffix.len() ==> #[trigger] suffix[t] == digit_char(
                    digits@[digits@.len() - 1 - t] as nat,
                ),
            k <= m,
            s@ == suffix.subrange(0, k as int),
        decreases m - k,
    {
        let d = digits[m - 1 - k];
        let lit: &str = if d == 0 {
            "0"
        } else if d == 1 {
            "1"
        } else if d == 2 {
            "2"
        } else if d == 3 {
            "3"
        } else if d == 4 {
            "4"
        } else if d == 5 {
            "5"
        } else if d == 6 {
            "6"
        } else if d == 7 {
            "7"
        } else if d == 8 {
            "8"
        } else {
            "9"
        };
        proof {
            reveal_strlit("0");
            reveal_strlit("1");
            reveal_strlit("2");
            reveal_strlit("3");
            reveal_strlit("4");
            reveal_strlit("5");
            reveal_strlit("6");
            reveal_strlit("7");
            reveal_strlit("8");
            reveal_strlit("9");
            assert(lit@ =~= seq![digit_char(d as nat)]);
        }
        let ghost pres = s@;
        s.append(lit);
        proof {
            assert(suffix[k as int] == digit_char(d as nat));
            assert(s@ =~= suffix.subrange(0, k + 1));
        }
        k = k + 1;
    }
    proof {
        assert(suffix.subrange(0, m as int) =~= suffix);
    }
    s
}

/// The decimal rendering of a signed number.
pub open spec fn dec_i32(v: int) -> Seq<char> {
    if v < 0 {
        seq!['-'] + dec_of((-v) as nat)
    } else {
        dec_of(v as nat)
    }
}

/// Renders a signed number in decimal, exactly `dec_i32`.
pub fn format_i32(n: i32) -> (s: String)
    ensures
        s@ == dec_i32(n as int),
{
    if n >= 0 {
        format_u32(n as u32)
    } else {
        let magnitude: u32 = (-(n as i64)) as u32;
        let mut s = String::new();
        s.append("-");
        let rest = format_u32(magnitude);
        s.append(rest.as_str());
        proof {
            reveal_strlit("-");
            assert(s@ =~= dec_i32(n as int));
        }
        s
    }
}

} // verus!
