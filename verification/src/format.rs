//! Rendering a raw byte count with the best-fitting binary unit.

use vstd::prelude::*;
use vstd::string::StringExecFns;

use crate::parser::{
    digit_run, digit_val, digits_value, is_digit, is_space, lemma_digit_run_exact,
    lemma_space_run_exact, space_run, tokens_of, unit_match, Symbol,
};

verus! {

/// The unit that is shown.
#[derive(Clone, Copy, Debug, PartialEq, Eq, Structural)]
pub enum Unit {
    Byte,
    KiB,
    MiB,
    GiB,
    TiB,
    PiB,
}

/// The number of bytes in one step of `unit`: a power of two from `2^0` for
/// a byte up to `2^50` for a pebibyte.
pub open spec fn unit_bytes(unit: Unit) -> u64 {
    match unit {
        Unit::Byte => 1,
        Unit::KiB => 1024,
        Unit::MiB => 0x100000,
        Unit::GiB => 0x40000000,
        Unit::TiB => 0x10000000000,
        Unit::PiB => 0x4000000000000,
    }
}

/// The name under which `unit` is shown.
pub open spec fn unit_name(unit: Unit) -> Seq<char> {
    match unit {
        Unit::Byte => seq!['b', 'y', 't', 'e', 's'],
        Unit::KiB => seq!['K', 'i', 'B'],
        Unit::MiB => seq!['M', 'i', 'B'],
        Unit::GiB => seq!['G', 'i', 'B'],
        Unit::TiB => seq!['T', 'i', 'B'],
        Unit::PiB => seq!['P', 'i', 'B'],
    }
}

/// The unit under which `quantity` keeps a whole part below 1024: the
/// largest whose byte count does not exceed `quantity`. A quantity of at
/// least `2^60` falls back to bytes.
pub open spec fn best_unit_for(quantity: u64) -> Unit {
    if quantity < 0x400 {
        Unit::Byte
    } else if quantity < 0x100000 {
        Unit::KiB
    } else if quantity < 0x40000000 {
        Unit::MiB
    } else if quantity < 0x10000000000 {
        Unit::GiB
    } else if quantity < 0x4000000000000 {
        Unit::TiB
    } else if quantity < 0x1000000000000000 {
        Unit::PiB
    } else {
        Unit::Byte
    }
}

impl Unit {
    /// Returns the number of bytes to the power of 2 in this [Unit].
    /// So a [`Byte`][Unit::Byte] will be `1`, and a Kibibyte will be `1024`,
    /// and so on.
    pub fn as_bytes(&self) -> (r: u64)
        ensures
            r == unit_bytes(*self),
    {
        match self {
            Unit::Byte => 1,
            Unit::KiB => 1024,
            Unit::MiB => 0x100000,
            Unit::GiB => 0x40000000,
            Unit::TiB => 0x10000000000,
            Unit::PiB => 0x4000000000000,
        }
    }

    /// The name under which this unit is shown.
    pub fn name(&self) -> (r: String)
        ensures
            r@ == unit_name(*self),
    {
        match self {
            Unit::Byte => {
                let s = "bytes".to_owned();
                proof {
                    reveal_strlit("bytes");
                    assert(s@ =~= unit_name(Unit::Byte));
                }
                s
            },
            Unit::KiB => {
                let s = "KiB".to_owned();
                proof {
                    reveal_strlit("KiB");
                    assert(s@ =~= unit_name(Unit::KiB));
                }
                s
            },
            Unit::MiB => {
                let s = "MiB".to_owned();
                proof {
                    reveal_strlit("MiB");
                    assert(s@ =~= unit_name(Unit::MiB));
                }
                s
            },
            Unit::GiB => {
                let s = "GiB".to_owned();
                proof {
                    reveal_strlit("GiB");
                    assert(s@ =~= unit_name(Unit::GiB));
                }
                s
            },
            Unit::TiB => {
                let s = "TiB".to_owned();
                proof {
                    reveal_strlit("TiB");
                    assert(s@ =~= unit_name(Unit::TiB));
                }
                s
            },
            Unit::PiB => {
                let s = "PiB".to_owned();
                proof {
                    reveal_strlit("PiB");
                    assert(s@ =~= unit_name(Unit::PiB));
                }
                s
            },
        }
    }
}

/// Determines the best unit to use for the given quantity.
pub fn best_unit(quantity: u64) -> (r: Unit)
    ensures
        r == best_unit_for(quantity),
{
    if quantity < 0x400 {
        return Unit::Byte;
    }
    if quantity < 0x100000 {
        return Unit::KiB;
    }
    if quantity < 0x40000000 {
        return Unit::MiB;
    }
    if quantity < 0x10000000000 {
        return Unit::GiB;
    }
    if quantity < 0x4000000000000 {
        return Unit::TiB;
    }
    if quantity < 0x1000000000000000 {
        return Unit::PiB;
    }
    Unit::Byte
}

/// The character of a single decimal digit.
pub open spec fn digit_char(d: int) -> char {
    if d == 0 {
        '0'
    } else if d == 1 {
        '1'
    } else if d == 2 {
        '2'
    } else if d == 3 {
        '3'
    } else if d == 4 {
        '4'
    } else if d == 5 {
        '5'
    } else if d == 6 {
        '6'
    } else if d == 7 {
        '7'
    } else if d == 8 {
        '8'
    } else {
        '9'
    }
}

/// The decimal digits of `n`, most significant first, with no leading zero
/// except for `n == 0` itself.
pub open spec fn dec_str(n: nat) -> Seq<char>
    decreases n,
{
    if n < 10 {
        seq![digit_char(n as int)]
    } else {
        dec_str(n / 10) + seq![digit_char((n % 10) as int)]
    }
}

/// The fractional remainder as printed: the literal leftover byte count,
/// zero-padded to at least two digits.
pub open spec fn padded_remainder(n: nat) -> Seq<char> {
    if n < 10 {
        seq!['0'] + dec_str(n)
    } else {
        dec_str(n)
    }
}

/// The rendering of a quantity: the whole part under its best unit, the
/// literal byte remainder after a point, and the unit's name.
pub open spec fn pretty(quantity: u64) -> Seq<char> {
    let unit = best_unit_for(quantity);
    let b = unit_bytes(unit);
    dec_str((quantity as int / b as int) as nat) + seq!['.'] + padded_remainder(
        (quantity as int % b as int) as nat,
    ) + seq![' '] + unit_name(unit)
}

/// Appends the character of the single decimal digit `d`.
fn push_digit(s: &mut String, d: u64)
    requires
        d < 10,
    ensures
        final(s)@ == old(s)@ + seq![digit_char(d as int)],
{
    if d == 0 {
        s.append("0");
        proof {
            reveal_strlit("0");
            assert(s@ =~= old(s)@ + seq![digit_char(d as int)]);
        }
    } else if d == 1 {
        s.append("1");
        proof {
            reveal_strlit("1");
            assert(s@ =~= old(s)@ + seq![digit_char(d as int)]);
        }
    } else if d == 2 {
        s.append("2");
        proof {
            reveal_strlit("2");
            assert(s@ =~= old(s)@ + seq![digit_char(d as int)]);
        }
    } else if d == 3 {
        s.append("3");
        proof {
            reveal_strlit("3");
            assert(s@ =~= old(s)@ + seq![digit_char(d as int)]);
        }
    } else if d == 4 {
        s.append("4");
        proof {
            reveal_strlit("4");
            assert(s@ =~= old(s)@ + seq![digit_char(d as int)]);
        }
    } else if d == 5 {
        s.append("5");
        proof {
            reveal_strlit("5");
            assert(s@ =~= old(s)@ + seq![digit_char(d as int)]);
        }
    } else if d == 6 {
        s.append("6");
        proof {
            reveal_strlit("6");
            assert(s@ =~= old(s)@ + seq![digit_char(d as int)]);
        }
    } else if d == 7 {
        s.append("7");
        proof {
            reveal_strlit("7");
            assert(s@ =~= old(s)@ + seq![digit_char(d as int)]);
        }
    } else if d == 8 {
        s.append("8");
        proof {
            reveal_strlit("8");
            assert(s@ =~= old(s)@ + seq![digit_char(d as int)]);
        }
    } else {
        s.append("9");
        proof {
            reveal_strlit("9");
            assert(s@ =~= old(s)@ + seq![digit_char(d as int)]);
        }
    }
}

/// The decimal rendering of `n`.
fn decimal_string(n: u64) -> (r: String)
    ensures
        r@ == dec_str(n as nat),
    decreases n,
{
    if n < 10 {
        let mut s = String::new();
        push_digit(&mut s, n);
        proof {
            assert(s@ =~= dec_str(n as nat));
        }
        s
    } else {
        proof {
            vstd::arithmetic::div_mod::lemma_div_is_strictly_smaller(n as int, 10);
        }
        let mut s = decimal_string(n / 10);
        push_digit(&mut s, n % 10);
        proof {
            assert(s@ =~= dec_str(n as nat));
        }
        s
    }
}

/// Renders `quantity` under its best unit: the whole part, a point, the
/// literal byte remainder zero-padded to at least two digits, and the
/// unit's name.
pub fn pretty_quantity(quantity: u64) -> (r: String)
    ensures
        r@ == pretty(quantity),
{
    let unit = best_unit(quantity);
    let b = unit.as_bytes();
    let whole = quantity / b;
    let frac = quantity % b;
    let mut s = decimal_string(whole);
    s.append(".");
    if frac < 10 {
        s.append("0");
    }
    let frac_str = decimal_string(frac);
    s.append(frac_str.as_str());
    s.append(" ");
    let name = unit.name();
    s.append(name.as_str());
    proof {
        reveal_strlit(".");
        reveal_strlit("0");
        reveal_strlit(" ");
        assert(s@ =~= pretty(quantity));
    }
    s
}

/// Every character of a decimal rendering is a digit, and there is at least
/// one.
proof fn lemma_dec_str_digits(n: nat)
    ensures
        dec_str(n).len() >= 1,
        forall|k: int| 0 <= k < dec_str(n).len() ==> is_digit(#[trigger] dec_str(n)[k]),
    decreases n,
{
    if n >= 10 {
        lemma_dec_str_digits(n / 10);
    }
}

/// Reading a decimal rendering back recovers the number.
proof fn lemma_dec_str_value(n: nat)
    ensures
        digits_value(dec_str(n)) == n,
    decreases n,
{
    if n < 10 {
        let s = dec_str(n);
        assert(s.drop_last() =~= Seq::<char>::empty());
        assert(digits_value(Seq::<char>::empty()) == 0);
        assert(digits_value(s) == digit_val(digit_char(n as int)));
        assert(digit_val(digit_char(n as int)) == n);
    } else {
        lemma_dec_str_value(n / 10);
        let s = dec_str(n);
        assert(s.drop_last() =~= dec_str(n / 10));
        assert(s.last() == digit_char((n % 10) as int));
        assert(digit_val(digit_char((n % 10) as int)) == n % 10);
        assert(digits_value(s) == (n / 10) * 10 + n % 10);
        vstd::arithmetic::div_mod::lemma_fundamental_div_mod(n as int, 10);
    }
}

/// Law: rendering a quantity keeps it to within one step of the chosen
/// unit. With `b` the byte count of the best unit and `w` the whole part of
/// the rendering, `w * b` neither exceeds the quantity nor falls more than
/// one unit step below it; and re-reading the whole-unit part of the
/// rendering — the whole part, a space, and the unit's name, the fractional
/// remainder left off — yields the single quantity `w * b`.
pub proof fn lemma_format_reparse(quantity: u64)
    ensures
        ({
            let unit = best_unit_for(quantity);
            let b = unit_bytes(unit);
            let w = quantity as int / b as int;
            &&& w * b <= quantity < w * b + b
            &&& tokens_of(dec_str(w as nat) + seq![' '] + unit_name(unit)) == seq![
                Symbol::Quantity((w * b) as u64),
            ]
        }),
{
    let unit = best_unit_for(quantity);
    let b = unit_bytes(unit);
    let w = quantity as int / b as int;
    vstd::arithmetic::div_mod::lemma_fundamental_div_mod(quantity as int, b as int);
    vstd::arithmetic::div_mod::lemma_mod_division_less_than_divisor(quantity as int, b as int);
    assert(w * b <= quantity < w * b + b);

    let ds = dec_str(w as nat);
    let s = ds + seq![' '] + unit_name(unit);
    lemma_dec_str_digits(w as nat);
    lemma_dec_str_value(w as nat);
    let dl = ds.len() as int;

    assert(forall|k: int| 0 <= k < dl ==> s[k] == ds[k]);
    assert(s[dl] == ' ');
    assert(is_digit(s[0]));
    lemma_digit_run_exact(s, dl);
    assert(digit_run(s) == dl);
    assert(s.take(dl) =~= ds);
    assert(digits_value(s.take(dl)) == w);

    let tail = s.skip(dl);
    assert(tail =~= seq![' '] + unit_name(unit));
    assert(tail[0] == ' ');
    assert(tail[1] == unit_name(unit)[0]);
    assert(!is_space(tail[1]));
    lemma_space_run_exact(tail, 1);
    assert(space_run(s.skip(digit_run(s))) == 1);

    let suffix = s.skip(dl + 1);
    assert(suffix =~= unit_name(unit));

    match unit {
        Unit::Byte => {
            assert(unit_match(suffix) == Some((1int, 1u64)));
            let r1 = suffix.skip(1);
            let e = Seq::<char>::empty();
            let t1 = seq!['s'];
            let t2 = seq!['e', 's'];
            let t3 = seq!['t', 'e', 's'];
            assert(tokens_of(e) =~= Seq::<Symbol>::empty());
            assert(t1.skip(1) =~= e);
            assert(tokens_of(t1) =~= Seq::<Symbol>::empty());
            assert(t2.skip(1) =~= t1);
            assert(tokens_of(t2) =~= Seq::<Symbol>::empty());
            assert(t3.skip(1) =~= t2);
            assert(tokens_of(t3) =~= Seq::<Symbol>::empty());
            assert(r1 =~= seq!['y', 't', 'e', 's']);
            assert(r1.skip(1) =~= t3);
            assert(tokens_of(r1) =~= Seq::<Symbol>::empty());
            assert(s.skip(dl + 1 + 1) =~= r1);
        },
        _ => {
            assert(unit_match(suffix) == Some((3int, b)));
            assert(s.skip(dl + 1 + 3) =~= Seq::<char>::empty());
            assert(tokens_of(s.skip(dl + 1 + 3)) =~= Seq::<Symbol>::empty());
        },
    }
    assert(w * b <= u64::MAX);
    assert(tokens_of(s) =~= seq![Symbol::Quantity((w * b) as u64)]);
}

} // verus!
