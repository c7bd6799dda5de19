use crate::text::{compose, number, path};
use vstd::prelude::*;

verus! {

/// The whole number nearest to a quotient; of two that are equally near, the even one.
pub open spec fn nearest(n: nat, step: nat) -> nat {
    let q = n / step;
    let r = n % step;
    if 2 * r < step || (2 * r == step && q % 2 == 0) {
        q
    } else {
        q + 1
    }
}

/// The distance between neighbouring numbers of a significand of fifty-three bits about `n`.
pub open spec fn spacing(n: nat) -> nat {
    if n < 0x20_0000_0000_0000 {
        1
    } else if n < 0x40_0000_0000_0000 {
        2
    } else if n < 0x80_0000_0000_0000 {
        4
    } else if n < 0x100_0000_0000_0000 {
        8
    } else if n < 0x200_0000_0000_0000 {
        16
    } else if n < 0x400_0000_0000_0000 {
        32
    } else if n < 0x800_0000_0000_0000 {
        64
    } else if n < 0x1000_0000_0000_0000 {
        128
    } else if n < 0x2000_0000_0000_0000 {
        256
    } else if n < 0x4000_0000_0000_0000 {
        512
    } else if n < 0x8000_0000_0000_0000 {
        1024
    } else {
        2048
    }
}

/// `n`, held in a significand of fifty-three bits.
pub open spec fn held(n: nat) -> nat {
    nearest(n, spacing(n)) * spacing(n)
}

/// A number of bytes in a unit, to one decimal place.
pub open spec fn in_unit(n: nat, unit: nat, name: Seq<char>) -> Seq<char> {
    let tenths = nearest(10 * held(n), unit);
    number::decimal(tenths / 10) + "."@ + number::decimal(tenths % 10) + name
}

/// A number of bytes for the user.
pub open spec fn size_text(n: nat) -> Seq<char> {
    if n >= 1_073_741_824 {
        in_unit(n, 1_073_741_824, " GiB"@)
    } else if n >= 1_048_576 {
        in_unit(n, 1_048_576, " MiB"@)
    } else if n >= 1_024 {
        in_unit(n, 1_024, " KB"@)
    } else {
        number::decimal(n) + " B"@
    }
}

fn nearest_of(n: u128, step: u128) -> (r: u128)
    requires
        0 < step < 0x1_0000_0000,
        n < 0x1_0000_0000_0000_0000_0000_0000_0000,
    ensures
        r == nearest(n as nat, step as nat),
        r <= n / step + 1,
{
    let q: u128 = n / step;
    let rest: u128 = n % step;
    assert(q <= n) by (nonlinear_arith)
        requires
            q == n / step,
            step > 0,
    ;
    if 2 * rest < step || (2 * rest == step && q % 2 == 0) {
        q
    } else {
        q + 1
    }
}

fn spacing_of(n: u64) -> (r: u128)
    ensures
        r == spacing(n as nat),
        0 < r <= 2048,
{
    if n < 0x20_0000_0000_0000 {
        1
    } else if n < 0x40_0000_0000_0000 {
        2
    } else if n < 0x80_0000_0000_0000 {
        4
    } else if n < 0x100_0000_0000_0000 {
        8
    } else if n < 0x200_0000_0000_0000 {
        16
    } else if n < 0x400_0000_0000_0000 {
        32
    } else if n < 0x800_0000_0000_0000 {
        64
    } else if n < 0x1000_0000_0000_0000 {
        128
    } else if n < 0x2000_0000_0000_0000 {
        256
    } else if n < 0x4000_0000_0000_0000 {
        512
    } else if n < 0x8000_0000_0000_0000 {
        1024
    } else {
        2048
    }
}

fn held_of(n: u64) -> (r: u128)
    ensures
        r == held(n as nat),
        r <= n + 2048,
{
    let step: u128 = spacing_of(n);
    let q: u128 = nearest_of(n as u128, step);
    assert(q * step <= n + 2048) by (nonlinear_arith)
        requires
            q <= (n as u128) / step + 1,
            0 < step <= 2048,
    ;
    q * step
}

fn text_in_unit(n: u64, unit: u128, name: &str) -> (r: String)
    requires
        1_024 <= unit <= 1_073_741_824,
    ensures
        r@ == in_unit(n as nat, unit as nat, name@),
{
    let h: u128 = held_of(n);
    let tenths: u128 = nearest_of(10 * h, unit);
    assert(tenths <= 10 * h / 1_024 + 1) by (nonlinear_arith)
        requires
            tenths <= (10 * h) / unit as int + 1,
            unit >= 1_024,
            h >= 0,
    ;
    let whole: u64 = (tenths / 10) as u64;
    let part: u64 = (tenths % 10) as u64;
    compose::concat4(
        number::to_decimal(whole).as_str(),
        ".",
        number::to_decimal(part).as_str(),
        name,
    )
}

/// A number of bytes for the user.
pub fn format_size(bytes: u64) -> (r: String)
    ensures
        r@ == size_text(bytes as nat),
{
    if bytes >= 1_073_741_824 {
        text_in_unit(bytes, 1_073_741_824, " GiB")
    } else if bytes >= 1_048_576 {
        text_in_unit(bytes, 1_048_576, " MiB")
    } else if bytes >= 1_024 {
        text_in_unit(bytes, 1_024, " KB")
    } else {
        compose::concat(number::to_decimal(bytes).as_str(), " B")
    }
}

/// The last part of a path in a repository.
pub fn format_file_name(p: &str) -> (r: String)
    ensures
        r@ == path::base_name(p@),
{
    path::file_name(p)
}

/// Sizes below eight pebibytes are held without loss, and shown to within a twentieth of their unit.
pub proof fn shown_sizes_are_near(n: nat, unit: nat)
    requires
        n < 0x20_0000_0000_0000,
        unit > 0,
    ensures
        ({
            let tenths = nearest(10 * held(n), unit);
            -(unit as int) <= 2 * (tenths * unit - 10 * n) <= unit
        }),
{
    assert(held(n) == n) by (nonlinear_arith)
        requires
            n < 0x20_0000_0000_0000,
            held(n) == nearest(n, 1) * 1,
            nearest(n, 1) == n,
    ;
    let m = 10 * n;
    let q = m / unit;
    let r = m % unit;
    assert(m == q * unit + r && 0 <= r < unit) by (nonlinear_arith)
        requires
            unit > 0,
            q == m / unit,
            r == m % unit,
    ;
    assert((q + 1) * unit == q * unit + unit) by (nonlinear_arith);
}

} // verus!
