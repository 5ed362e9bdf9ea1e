//! Human-readable byte sizes.
use vstd::prelude::*;

use crate::text::{decimal, decimal_string};

verus! {

/// 1024, the step between two binary size units.
pub const BYTE_STEP: u64 = 1024;

/// `1024` to the power `e`.
pub open spec fn step_pow(e: nat) -> nat
    decreases e,
{
    if e == 0 {
        1
    } else {
        1024 * step_pow((e - 1) as nat)
    }
}

/// The powers of 1024 up to the fifth, one by one.
proof fn lemma_step_pow_small(e: nat)
    requires
        e < 5,
    ensures
        1 <= step_pow(e) <= 0x100_0000_0000,
        step_pow(e + 1) == 1024 * step_pow(e),
{
    reveal_with_fuel(step_pow, 6);
}

/// The name of the binary unit `1024^e` bytes, for `e` below 5.
pub open spec fn unit_name(e: nat) -> Seq<char> {
    if e == 0 {
        seq!['B']
    } else if e == 1 {
        seq!['K', 'i', 'B']
    } else if e == 2 {
        seq!['M', 'i', 'B']
    } else if e == 3 {
        seq!['G', 'i', 'B']
    } else {
        seq!['T', 'i', 'B']
    }
}

/// The smallest unit exponent `e >= from`, below 5, in which `size` counts fewer than
/// 1024 whole units; 5 when there is none.
pub open spec fn size_exponent_from(size: nat, from: nat) -> nat
    decreases 5 - from,
{
    if from >= 5 {
        5
    } else if size / step_pow(from) < 1024 {
        from
    } else {
        size_exponent_from(size, from + 1)
    }
}

/// `size` bytes written as the whole number of the largest unit in which it stays
/// below 1024, a space and the unit's name (`B`, `KiB`, `MiB`, `GiB`, `TiB`); the
/// empty text from 1024 TiB on.
pub open spec fn pretty_size(size: nat) -> Seq<char> {
    let e = size_exponent_from(size, 0);
    if e < 5 {
        decimal(size / step_pow(e)) + seq![' '] + unit_name(e)
    } else {
        Seq::empty()
    }
}

/// The name of the unit `1024^e` bytes.
fn unit_text(e: u32) -> (s: &'static str)
    requires
        e < 5,
    ensures
        s@ == unit_name(e as nat),
{
    proof {
        reveal_strlit("B");
        reveal_strlit("KiB");
        reveal_strlit("MiB");
        reveal_strlit("GiB");
        reveal_strlit("TiB");
    }
    match e {
        0 => "B",
        1 => "KiB",
        2 => "MiB",
        3 => "GiB",
        _ => "TiB",
    }
}

/// Writes a byte count in the largest binary unit that keeps the number below 1024.
pub fn pretty_print(size: u64) -> (res: String)
    ensures
        res@ == pretty_size(size as nat),
{
    let mut n: u32 = 0;
    let mut unit: u64 = 1;

    while n < 5
        invariant
            n <= 5,
            unit == step_pow(n as nat),
            1 <= unit,
            size_exponent_from(size as nat, 0) == size_exponent_from(size as nat, n as nat),
        decreases 5 - n,
    {
        if size / unit < BYTE_STEP {
            let mut res = decimal_string(size / unit);
            res.append(" ");
            res.append(unit_text(n));
            proof {
                reveal_strlit(" ");
            }
            assert(res@ =~= pretty_size(size as nat));
            return res;
        }
        proof {
            lemma_step_pow_small(n as nat);
        }
        unit = unit * BYTE_STEP;
        n = n + 1;
    }
    String::new()
}

/// Fewer than 1024 bytes are written as the count of bytes.
pub proof fn pretty_size_of_bytes(size: nat)
    requires
        size < 1024,
    ensures
        pretty_size(size) == decimal(size) + seq![' ', 'B'],
{
    assert(step_pow(0) == 1);
    assert(seq![' '] + unit_name(0) =~= seq![' ', 'B']);
    assert(decimal(size) + seq![' '] + unit_name(0) =~= decimal(size) + seq![' ', 'B']);
}

/// The number that a readable size shows is below 1024, and the size lies
/// between that many units and one unit more.
pub proof fn pretty_size_shows_whole_units_below_1024(size: nat)
    requires
        size < step_pow(5),
    ensures
        size_exponent_from(size, 0) < 5,
        size / step_pow(size_exponent_from(size, 0)) < 1024,
        (size / step_pow(size_exponent_from(size, 0))) * step_pow(size_exponent_from(size, 0))
            <= size,
        size < (size / step_pow(size_exponent_from(size, 0)) + 1) * step_pow(
            size_exponent_from(size, 0),
        ),
{
    reveal_with_fuel(step_pow, 6);
    reveal_with_fuel(size_exponent_from, 6);
    let e = size_exponent_from(size, 0);
    assert(step_pow(4) == 1099511627776);
    assert(step_pow(5) == 1125899906842624);
    assert(size / 1099511627776 < 1024) by (nonlinear_arith)
        requires
            size < 1125899906842624,
    ;
    assert(e < 5);
    let u = step_pow(e);
    assert(u > 0);
    vstd::arithmetic::div_mod::lemma_fundamental_div_mod(size as int, u as int);
    let q = size / u;
    let r = size % u;
    assert(q * u <= size && size < (q + 1) * u) by (nonlinear_arith)
        requires
            size == u * q + r,
            0 <= r < u,
    ;
}

/// The unit exponent of a size below 1024 TiB, by the size's range.
proof fn lemma_size_exponent(size: nat)
    ensures
        size_exponent_from(size, 0) == if size < 0x400 {
            0nat
        } else if size < 0x10_0000 {
            1nat
        } else if size < 0x4000_0000 {
            2nat
        } else if size < 0x100_0000_0000 {
            3nat
        } else if size < 0x4_0000_0000_0000 {
            4nat
        } else {
            5nat
        },
{
    reveal_with_fuel(step_pow, 6);
    reveal_with_fuel(size_exponent_from, 6);
    assert(step_pow(1) == 0x400);
    assert(step_pow(2) == 0x10_0000);
    assert(step_pow(3) == 0x4000_0000);
    assert(step_pow(4) == 0x100_0000_0000);
    assert((size / 0x400 < 1024) == (size < 0x10_0000)) by (nonlinear_arith);
    assert((size / 0x10_0000 < 1024) == (size < 0x4000_0000)) by (nonlinear_arith);
    assert((size / 0x4000_0000 < 1024) == (size < 0x100_0000_0000)) by (nonlinear_arith);
    assert((size / 0x100_0000_0000 < 1024) == (size < 0x4_0000_0000_0000)) by (nonlinear_arith);
    assert(step_pow(0) == 1);
    assert(size / 1 == size);
    assert(size_exponent_from(size, 5) == 5);
    assert(size_exponent_from(size, 4) == if size / step_pow(4) < 1024 { 4nat } else { 5nat });
    assert(size_exponent_from(size, 3) == if size / step_pow(3) < 1024 {
        3nat
    } else {
        size_exponent_from(size, 4)
    });
    assert(size_exponent_from(size, 2) == if size / step_pow(2) < 1024 {
        2nat
    } else {
        size_exponent_from(size, 3)
    });
    assert(size_exponent_from(size, 1) == if size / step_pow(1) < 1024 {
        1nat
    } else {
        size_exponent_from(size, 2)
    });
    assert(size_exponent_from(size, 0) == if size / step_pow(0) < 1024 {
        0nat
    } else {
        size_exponent_from(size, 1)
    });
}

/// A larger size never shows a smaller unit, nor, in the same unit, a smaller number.
pub proof fn pretty_size_grows_with_size(a: nat, b: nat)
    requires
        a <= b,
    ensures
        size_exponent_from(a, 0) <= size_exponent_from(b, 0),
        size_exponent_from(a, 0) == size_exponent_from(b, 0) ==> a / step_pow(
            size_exponent_from(a, 0),
        ) <= b / step_pow(size_exponent_from(b, 0)),
{
    lemma_size_exponent(a);
    lemma_size_exponent(b);
    let e = size_exponent_from(a, 0);
    reveal_with_fuel(step_pow, 6);
    assert(step_pow(e) > 0);
    vstd::arithmetic::div_mod::lemma_div_is_ordered(a as int, b as int, step_pow(e) as int);
}

/// Each range of sizes shows its unit: below 1024 bytes in `B`, then in `KiB`,
/// `MiB`, `GiB` and `TiB`, each time the size divided by the unit, rounded down;
/// from 1024 TiB on nothing.
pub proof fn pretty_size_by_range(size: nat)
    ensures
        size < 0x400 ==> pretty_size(size) == decimal(size) + seq![' ', 'B'],
        0x400 <= size < 0x10_0000 ==> pretty_size(size) == decimal(size / 0x400) + seq![
            ' ',
            'K',
            'i',
            'B',
        ],
        0x10_0000 <= size < 0x4000_0000 ==> pretty_size(size) == decimal(size / 0x10_0000) + seq![
            ' ',
            'M',
            'i',
            'B',
        ],
        0x4000_0000 <= size < 0x100_0000_0000 ==> pretty_size(size) == decimal(size / 0x4000_0000)
            + seq![' ', 'G', 'i', 'B'],
        0x100_0000_0000 <= size < 0x4_0000_0000_0000 ==> pretty_size(size) == decimal(
            size / 0x100_0000_0000,
        ) + seq![' ', 'T', 'i', 'B'],
        0x4_0000_0000_0000 <= size ==> pretty_size(size) == Seq::<char>::empty(),
{
    lemma_size_exponent(size);
    reveal_with_fuel(step_pow, 6);
    let e = size_exponent_from(size, 0);
    if e < 5 {
        assert(decimal(size / step_pow(e)) + seq![' '] + unit_name(e) =~= decimal(size / step_pow(e))
            + (seq![' '] + unit_name(e)));
        assert(size / 1 == size);
    }
}

} // verus!
