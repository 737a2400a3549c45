//! Sizes, times and kinds as the user reads them.
use crate::num_text::{decimal, decimal_text, padded_decimal, padded_decimal_text};
use crate::text::opt_view;
use vstd::prelude::*;
use vstd::string::*;

verus! {

// ---------------------------------------------------------------------------
// Sizes
// ---------------------------------------------------------------------------

/// `1024` to the power `i`, for the units from bytes to petabytes.
pub open spec fn unit_bytes(i: int) -> int {
    if i <= 0 {
        1
    } else if i == 1 {
        1024
    } else if i == 2 {
        1_048_576
    } else if i == 3 {
        1_073_741_824
    } else if i == 4 {
        1_099_511_627_776
    } else {
        1_125_899_906_842_624
    }
}

/// The symbol of a unit.
pub open spec fn unit_symbol(i: int) -> Seq<char> {
    if i <= 0 {
        "B"@
    } else if i == 1 {
        "KB"@
    } else if i == 2 {
        "MB"@
    } else if i == 3 {
        "GB"@
    } else if i == 4 {
        "TB"@
    } else {
        "PB"@
    }
}

/// `a / b` rounded to the nearest integer, ties to the even one.
pub open spec fn round_half_even(a: int, b: int) -> int {
    let q = a / b;
    let r = a % b;
    if 2 * r > b || (2 * r == b && q % 2 == 1) {
        q + 1
    } else {
        q
    }
}

/// The distance between neighbouring numbers of 53 significant bits around `n`.
pub open spec fn grain(n: int) -> int {
    if n < 0x20_0000_0000_0000 {
        1
    } else if n < 0x40_0000_0000_0000 {
        2
    } else if n < 0x80_0000_0000_0000 {
        4
    } else if n < 0x100_0000_0000_0000 {
        8
    } else if n < 0x200_0000_0000_0000 {
        16
    } else if n < 0x400_0000_0000_0000 {
        32
    } else if n < 0x800_0000_0000_0000 {
        64
    } else if n < 0x1000_0000_0000_0000 {
        128
    } else if n < 0x2000_0000_0000_0000 {
        256
    } else if n < 0x4000_0000_0000_0000 {
        512
    } else if n < 0x8000_0000_0000_0000 {
        1024
    } else {
        2048
    }
}

/// The number of 53 significant bits nearest to `n`: a size is shown at the
/// precision of a double.
pub open spec fn nearest_double(n: int) -> int {
    round_half_even(n, grain(n)) * grain(n)
}

/// The largest unit of which `m` bytes hold at least one.
pub open spec fn unit_for(m: int) -> int {
    if m < 1024 {
        0
    } else if m < 1_048_576 {
        1
    } else if m < 1_073_741_824 {
        2
    } else if m < 1_099_511_627_776 {
        3
    } else if m < 1_125_899_906_842_624 {
        4
    } else {
        5
    }
}

/// `a / b` with `digits` decimals, rounded half to even.
pub open spec fn fixed_point(a: int, b: int, digits: int) -> Seq<char> {
    if digits == 0 {
        decimal(round_half_even(a, b) as nat)
    } else if digits == 1 {
        let n = round_half_even(a * 10, b);
        decimal((n / 10) as nat) + "."@ + padded_decimal((n % 10) as nat, 1)
    } else {
        let n = round_half_even(a * 100, b);
        decimal((n / 100) as nat) + "."@ + padded_decimal((n % 100) as nat, 2)
    }
}

/// A size as text: bytes below one kilobyte, else the largest unit that fits,
/// with three significant digits or the whole number from one hundred on.
pub open spec fn size_text(bytes: nat) -> Seq<char> {
    if bytes < 1024 {
        decimal(bytes) + " B"@
    } else {
        let m = nearest_double(bytes as int);
        let i = unit_for(m);
        let b = unit_bytes(i);
        let digits = if m >= 100 * b {
            0
        } else if m >= 10 * b {
            1int
        } else {
            2
        };
        fixed_point(m, b, digits) + " "@ + unit_symbol(i)
    }
}

fn half_even(a: u128, b: u128) -> (r: u128)
    requires
        1 <= b <= 0x8000_0000_0000_0000,
        a <= 0x1_0000_0000_0000_0000_0000,
    ensures
        r == round_half_even(a as int, b as int),
        r <= a + 1,
{
    let q: u128 = a / b;
    let rem: u128 = a % b;
    assert(q <= a) by (nonlinear_arith)
        requires
            q == a / b,
            b >= 1,
            a >= 0,
    ;
    assert(rem < b);
    if 2 * rem > b || (2 * rem == b && q % 2 == 1) {
        q + 1
    } else {
        q
    }
}

fn grain_of(n: u64) -> (r: u64)
    ensures
        r == grain(n as int),
        1 <= r <= 2048,
{
    if n < 0x20_0000_0000_0000 {
        1
    } else if n < 0x40_0000_0000_0000 {
        2
    } else if n < 0x80_0000_0000_0000 {
        4
    } else if n < 0x100_0000_0000_0000 {
        8
    } else if n < 0x200_0000_0000_0000 {
        16
    } else if n < 0x400_0000_0000_0000 {
        32
    } else if n < 0x800_0000_0000_0000 {
        64
    } else if n < 0x1000_0000_0000_0000 {
        128
    } else if n < 0x2000_0000_0000_0000 {
        256
    } else if n < 0x4000_0000_0000_0000 {
        512
    } else if n < 0x8000_0000_0000_0000 {
        1024
    } else {
        2048
    }
}

fn to_nearest_double(n: u64) -> (r: u128)
    ensures
        r == nearest_double(n as int),
        r <= 0x1_0000_0000_0000_0000,
        n >= 1024 ==> r >= 1024,
{
    let g: u64 = grain_of(n);
    let q: u128 = half_even(n as u128, g as u128);
    proof {
        lemma_nearest_bounds(n as int, g as int);
    }
    q * (g as u128)
}

proof fn lemma_nearest_bounds(n: int, g: int)
    requires
        0 <= n < 0x1_0000_0000_0000_0000,
        g == grain(n),
    ensures
        round_half_even(n, g) * g <= 0x1_0000_0000_0000_0000,
        n >= 1024 ==> round_half_even(n, g) * g >= 1024,
        0 <= round_half_even(n, g),
{
    let q = round_half_even(n, g);
    if g == 1 {
        assert(n / 1 == n);
    } else {
        let d = n / g;
        assert(g * d <= n < g * d + g) by (nonlinear_arith)
            requires
                d == n / g,
                g >= 1,
        ;
        assert(q == d || q == d + 1);
        // All values with this grain lie between two multiples of it.
        assert(d * g + g <= 0x1_0000_0000_0000_0000) by {
            if g == 2 {
            } else if g == 4 {
            } else if g == 8 {
            } else if g == 16 {
            } else if g == 32 {
            } else if g == 64 {
            } else if g == 128 {
            } else if g == 256 {
            } else if g == 512 {
            } else if g == 1024 {
            } else {
                assert(g == 2048);
            }
        }
        assert(q * g == d * g || q * g == d * g + g) by (nonlinear_arith)
            requires
                q == d || q == d + 1,
        ;
        assert(d * g == g * d) by (nonlinear_arith);
        assert(d * g > n - g);
    }
}

fn fixed_text(a: u128, b: u128, digits: u8) -> (r: String)
    requires
        1 <= b <= 0x4_0000_0000_0000,
        a <= 0x1_0000_0000_0000_0000,
        digits <= 2,
        a * 100 < b * 0xffff_ffff_ffff_0000,
    ensures
        r@ == fixed_point(a as int, b as int, digits as int),
{
    if digits == 0 {
        proof {
            lemma_round_bound(a as int, b as int);
        }
        return decimal_text(half_even(a, b) as u64);
    }
    let scale: u128 = if digits == 1 {
        10
    } else {
        100
    };
    proof {
        lemma_round_bound((a * scale) as int, b as int);
    }
    let n: u64 = half_even(a * scale, b) as u64;
    let mut r: String = decimal_text(n / (scale as u64));
    r.append(".");
    r.append(padded_decimal_text(n % (scale as u64), digits as usize).as_str());
    r
}

proof fn lemma_round_bound(a: int, b: int)
    requires
        b >= 1,
        0 <= a < b * 0xffff_ffff_ffff_0000,
    ensures
        0 <= round_half_even(a, b) <= 0xffff_ffff_ffff_0000,
{
    assert(0 <= a / b < 0xffff_ffff_ffff_0000) by (nonlinear_arith)
        requires
            b >= 1,
            0 <= a < b * 0xffff_ffff_ffff_0000,
    ;
}

/// Writes a size.
pub fn human_size(bytes: u64) -> (r: String)
    ensures
        r@ == size_text(bytes as nat),
{
    if bytes < 1024 {
        let mut s = decimal_text(bytes);
        s.append(" B");
        return s;
    }
    let m: u128 = to_nearest_double(bytes);
    let (b, symbol): (u128, &str) = if m < 1_048_576 {
        (1024, "KB")
    } else if m < 1_073_741_824 {
        (1_048_576, "MB")
    } else if m < 1_099_511_627_776 {
        (1_073_741_824, "GB")
    } else if m < 1_125_899_906_842_624 {
        (1_099_511_627_776, "TB")
    } else {
        (1_125_899_906_842_624, "PB")
    };
    let digits: u8 = if m >= 100 * b {
        0
    } else if m >= 10 * b {
        1
    } else {
        2
    };
    let mut s = fixed_text(m, b, digits);
    s.append(" ");
    s.append(symbol);
    s
}

/// The kind column: `Folder`, the MIME type, or `File`.
pub open spec fn kind_of(mime: Option<Seq<char>>, is_dir: bool) -> Seq<char> {
    if is_dir {
        "Folder"@
    } else {
        match mime {
            Some(m) => m,
            None => "File"@,
        }
    }
}

/// The kind column.
pub fn kind_text(mime: &Option<String>, is_dir: bool) -> (r: String)
    ensures
        r@ == kind_of(opt_view(*mime), is_dir),
{
    if is_dir {
        return "Folder".to_owned();
    }
    match mime {
        Some(m) => m.clone(),
        None => "File".to_owned(),
    }
}

} // verus!
