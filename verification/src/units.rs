//! Amounts of data in words.
//!
//! An amount is shown in binary units with one decimal. It is taken to 53 significant
//! bits first, which changes only amounts of more than eight pebibytes.

use crate::text::dec;
use vstd::prelude::*;

verus! {

/// `n / d` to the nearest whole number; of two that are equally near, the even one.
pub open spec fn nearest(n: int, d: int) -> int {
    let q = n / d;
    let r = n % d;
    if 2 * r < d || (2 * r == d && q % 2 == 0) {
        q
    } else {
        q + 1
    }
}

/// The distance between neighbouring numbers of 53 significant bits around `n`.
pub open spec fn grain(n: nat) -> nat
    decreases n,
{
    if n < 0x20_0000_0000_0000 {
        1
    } else {
        2 * grain(n / 2)
    }
}

/// `n` to 53 significant bits.
pub open spec fn to_53_bits(n: nat) -> int {
    nearest(n as int, grain(n) as int) * grain(n)
}

/// The unit that an amount is shown in: how many bytes it is, and its name. Nothing for
/// single bytes.
pub open spec fn unit_of(v: int) -> Option<(int, Seq<char>)> {
    if v < 1024 {
        None
    } else if v < 0x10_0000 {
        Some((1024, "KiB"@))
    } else if v < 0x4000_0000 {
        Some((0x10_0000, "MiB"@))
    } else if v < 0x100_0000_0000 {
        Some((0x4000_0000, "GiB"@))
    } else {
        Some((0x100_0000_0000, "TiB"@))
    }
}

/// An amount of data in words.
pub open spec fn bytes_text(n: nat) -> Seq<char> {
    let v = to_53_bits(n);
    match unit_of(v) {
        None => crate::text::decimal(n as int) + " B"@,
        Some((unit, name)) => {
            let tenths = nearest(v * 10, unit);
            crate::text::decimal(tenths / 10) + "."@ + crate::text::decimal(tenths % 10) + " "@
                + name
        },
    }
}

/// An amount of data per second in words.
pub open spec fn rate_text(n: nat) -> Seq<char> {
    if n == 0 {
        "idle"@
    } else {
        bytes_text(n) + "/s"@
    }
}

fn grain_of(n: u64) -> (r: u64)
    ensures
        r == grain(n as nat),
        r >= 1,
        n < 0x20_0000_0000_0000 ==> r == 1,
        n >= 0x20_0000_0000_0000 ==> r * 0x10_0000_0000_0000 <= n,
    decreases n,
{
    if n < 0x20_0000_0000_0000 {
        1
    } else {
        2 * grain_of(n / 2)
    }
}

fn nearest_of(n: u128, d: u128) -> (r: u128)
    requires
        0 < d <= 0x100_0000_0000,
        n <= 0x100_0000_0000_0000_0000_0000,
    ensures
        r == nearest(n as int, d as int),
{
    let q: u128 = n / d;
    let r: u128 = n % d;
    proof {
        assert(q <= n) by (nonlinear_arith)
            requires
                q == n / d,
                d > 0,
        ;
    }
    if 2 * r < d || (2 * r == d && q % 2 == 0) {
        q
    } else {
        q + 1
    }
}

/// An amount of data in words.
pub fn fmt_bytes(n: u64) -> (r: String)
    ensures
        r@ == bytes_text(n as nat),
{
    let g: u64 = grain_of(n);
    let m: u128 = nearest_of(n as u128, g as u128);
    proof {
        assert(m * g <= n + g) by (nonlinear_arith)
            requires
                g > 0,
                m <= n / g + 1,
        {
            assert(g * (n / g) <= n) by (nonlinear_arith)
                requires
                    g > 0,
            ;
        }
        assert(m * g >= 0) by (nonlinear_arith);
    }
    let v: u128 = m * (g as u128);
    if v < 1024 {
        return dec(n).concat(" B");
    }
    let (unit, name): (u128, &'static str) = if v < 0x10_0000 {
        (1024, "KiB")
    } else if v < 0x4000_0000 {
        (0x10_0000, "MiB")
    } else if v < 0x100_0000_0000 {
        (0x4000_0000, "GiB")
    } else {
        (0x100_0000_0000, "TiB")
    };
    let tenths: u128 = nearest_of(v * 10, unit);
    proof {
        assert(tenths <= 0x1000_0000_0000);
    }
    dec((tenths / 10) as u64).concat(".").concat(dec((tenths % 10) as u64).as_str()).concat(
        " ",
    ).concat(name)
}

/// A transfer rate in words, from whole bytes per second.
pub fn fmt_rate(bytes_per_sec: u64) -> (r: String)
    ensures
        r@ == rate_text(bytes_per_sec as nat),
{
    if bytes_per_sec == 0 {
        return "idle".to_owned();
    }
    fmt_bytes(bytes_per_sec).concat("/s")
}

/// Rounding gives a whole number that is not further away than half, and of two that are
/// equally near the even one.
pub proof fn law_nearest(n: int, d: int)
    requires
        0 <= n,
        0 < d,
    ensures
        -d <= 2 * (n - nearest(n, d) * d) <= d,
        2 * (n - nearest(n, d) * d) == d || 2 * (n - nearest(n, d) * d) == -d ==> nearest(n, d) % 2
            == 0,
{
    let q = n / d;
    let r = n % d;
    vstd::arithmetic::div_mod::lemma_fundamental_div_mod(n, d);
    assert(0 <= r < d) by (nonlinear_arith)
        requires
            r == n % d,
            0 < d,
    ;
    assert(q * d == d * q) by (nonlinear_arith);
    assert((q + 1) * d == d * q + d) by (nonlinear_arith);
}

/// Less than a kibibyte is counted in bytes. A whole number of kibibytes, mebibytes,
/// gibibytes or tebibytes is that number in its unit, with nothing behind the point.
pub proof fn law_amounts(n: nat, k: nat)
    requires
        1 <= k < 1024,
    ensures
        n < 1024 ==> bytes_text(n) == crate::text::decimal(n as int) + " B"@,
        bytes_text(k * 1024) == crate::text::decimal(k as int) + ".0 KiB"@,
        bytes_text(k * 1048576) == crate::text::decimal(k as int) + ".0 MiB"@,
        bytes_text(k * 1073741824) == crate::text::decimal(k as int) + ".0 GiB"@,
        bytes_text(k * 1099511627776) == crate::text::decimal(k as int) + ".0 TiB"@,
{
    lemma_whole(k, 1024, "KiB"@, ".0 KiB"@);
    lemma_whole(k, 0x10_0000, "MiB"@, ".0 MiB"@);
    lemma_whole(k, 0x4000_0000, "GiB"@, ".0 GiB"@);
    lemma_whole(k, 0x100_0000_0000, "TiB"@, ".0 TiB"@);
    assert(nearest(n as int, 1) == n) by {
        law_nearest(n as int, 1);
    }
}

proof fn lemma_whole(k: nat, unit: nat, name: Seq<char>, tail: Seq<char>)
    requires
        1 <= k < 1024,
        unit == 1024 && name == "KiB"@ && tail == ".0 KiB"@ || unit == 0x10_0000 && name == "MiB"@
            && tail == ".0 MiB"@ || unit == 0x4000_0000 && name == "GiB"@ && tail == ".0 GiB"@
            || unit == 0x100_0000_0000 && name == "TiB"@ && tail == ".0 TiB"@,
    ensures
        bytes_text(k * unit) == crate::text::decimal(k as int) + tail,
{
    let n = k * unit;
    assert(unit <= n < 1024 * unit) by (nonlinear_arith)
        requires
            n == k * unit,
            1 <= k < 1024,
            unit > 0,
    ;
    assert(grain(n) == 1);
    law_nearest(n as int, 1);
    assert(to_53_bits(n) == n);
    assert(unit_of(n as int) == Some((unit as int, name)));
    let tenths = nearest(n as int * 10, unit as int);
    law_nearest(n as int * 10, unit as int);
    assert(tenths == 10 * k) by (nonlinear_arith)
        requires
            -unit <= 2 * (n * 10 - tenths * unit) <= unit,
            n == k * unit,
            unit > 0,
    ;
    reveal_with_fuel(crate::text::decimal, 2);
    reveal_strlit(".");
    reveal_strlit(" ");
    reveal_strlit("KiB");
    reveal_strlit("MiB");
    reveal_strlit("GiB");
    reveal_strlit("TiB");
    reveal_strlit(".0 KiB");
    reveal_strlit(".0 MiB");
    reveal_strlit(".0 GiB");
    reveal_strlit(".0 TiB");
    assert(tenths / 10 == k);
    assert(tenths % 10 == 0);
    let zero = crate::text::decimal(0);
    assert(zero =~= seq!['0']);
    let d = crate::text::decimal(k as int);
    assert("."@ + zero + " "@ + name =~= tail);
    assert(d + "."@ + zero + " "@ + name =~= d + tail);
}

/// Where nothing is carried it is idle; else the rate is the amount of a second.
pub proof fn law_rates(n: nat)
    ensures
        rate_text(0) == "idle"@,
        n > 0 ==> rate_text(n) == bytes_text(n) + "/s"@,
{
}

} // verus!
