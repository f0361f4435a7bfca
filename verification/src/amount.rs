//! Quantities: a measurement unit paired with a fixed-point value.
//!
//! A value of `AMOUNT_SCALE` stands for exactly one unit, so quantities such
//! as half a cup are exact. Adding two quantities is defined only for
//! compatible units; the sum is expressed in the coarser of the two units,
//! converting the finer quantity with the exact rational conversion factor
//! (rounding the converted value down to the fixed-point grid).

use vstd::prelude::*;

use crate::units::{Factor, Units};

verus! {

/// Fixed-point scale of `Amount::value`: this many value steps make one unit.
pub const AMOUNT_SCALE: u64 = 100000;

/// A quantity: a fixed-point value counted in steps of `1 / AMOUNT_SCALE`
/// of the given unit.
#[derive(Clone, Copy, Debug, PartialEq, Eq, Structural)]
pub struct Amount {
    pub units: Units,
    pub value: u64,
}

/// The factor that converts a quantity in a compatible pair's finer unit to
/// the pair's coarser unit never exceeds one, and all table entries are
/// small.
pub proof fn lemma_factor_to_coarser_bounds(finer: Units, coarser: Units)
    requires
        finer.compatible(coarser),
        finer.coarseness() <= coarser.coarseness(),
    ensures
        finer.conversion_factor_spec(coarser) matches Some(f) && 1 <= f.num <= f.den <= 492892,
{
    if finer == coarser {
        assert(finer.conversion_factor_spec(coarser) == Some(Factor { num: 1u64, den: 1u64 }));
    } else {
        let s = Units::span(coarser, finer);
        assert(finer.conversion_factor_spec(coarser) == Some(Factor { num: s.den, den: s.num }));
        assert(1 <= s.den);
        assert(s.den <= s.num);
        assert(s.num <= 492892);
    }
}

impl Amount {
    /// The finer value converted into the coarser unit, rounded down to the
    /// fixed-point grid.
    pub open spec fn converted_value(value: u64, f: Factor) -> int {
        (value * f.num) / (f.den as int)
    }

    /// What `add` must return. For an incompatible pair of units the sum is
    /// undefined. Otherwise the result carries the coarser of the two units
    /// and the value is the coarser value plus the finer value converted
    /// into the coarser unit — unless that total exceeds the largest
    /// representable value, in which case the sum is undefined as well.
    pub open spec fn add_spec(self, other: Amount) -> Option<Amount> {
        if !self.units.compatible(other.units) {
            None
        } else {
            let (coarser, finer) = if self.units.is_bigger_spec(other.units)->0 {
                (self, other)
            } else {
                (other, self)
            };
            let factor = finer.units.conversion_factor_spec(coarser.units)->0;
            let total = coarser.value + Amount::converted_value(finer.value, factor);
            if total <= u64::MAX {
                Some(Amount { units: coarser.units, value: total as u64 })
            } else {
                None
            }
        }
    }

    pub fn new(value: u64, units: Units) -> (r: Amount)
        ensures
            r == (Amount { units, value }),
    {
        Amount { value, units }
    }

    /// The sum of two quantities, in the coarser of the two units.
    pub fn add(&self, other: &Amount) -> (r: Option<Amount>)
        ensures
            r == self.add_spec(*other),
            !self.units.compatible(other.units) ==> r is None,
    {
        if !self.units.is_compatible(&other.units) {
            return None;
        }

        let bigger = self.units.is_bigger(&other.units).unwrap();
        let (coarser, finer) = if bigger {
            (*self, *other)
        } else {
            (*other, *self)
        };

        proof {
            lemma_factor_to_coarser_bounds(finer.units, coarser.units);
        }
        let factor = finer.units.conversion_factor(&coarser.units).unwrap();

        assert((finer.value as int) * (factor.num as int) <= u64::MAX * 492892) by (nonlinear_arith)
            requires
                finer.value <= u64::MAX,
                factor.num <= 492892,
        ;
        let prod: u128 = (finer.value as u128) * (factor.num as u128);
        let wide: u128 = prod / (factor.den as u128);
        assert(wide as int <= finer.value as int) by (nonlinear_arith)
            requires
                wide as int == (prod as int) / (factor.den as int),
                prod as int == (finer.value as int) * (factor.num as int),
                0 <= finer.value as int,
                1 <= factor.num as int <= factor.den as int,
        ;
        let converted: u64 = wide as u64;

        let total: u128 = (coarser.value as u128) + (converted as u128);
        if total <= u64::MAX as u128 {
            Some(Amount { units: coarser.units, value: total as u64 })
        } else {
            None
        }
    }
}

impl Default for Amount {
    fn default() -> (r: Amount)
        ensures
            r == (Amount { units: Units::Count, value: 0 }),
    {
        Amount { units: Units::Count, value: 0 }
    }
}

/// Addition of quantities is commutative: swapping the two arguments changes
/// neither the resulting unit nor the resulting value, and preserves
/// undefinedness.
pub proof fn lemma_add_commutes(a: Amount, b: Amount)
    ensures
        a.add_spec(b) == b.add_spec(a),
{
    if a.units.compatible(b.units) {
        if a.units.coarseness() == b.units.coarseness() {
            crate::units::lemma_equal_coarseness(a.units, b.units);
            let one = Factor { num: 1u64, den: 1u64 };
            assert(a.units.conversion_factor_spec(b.units) == Some(one));
            assert((a.value as int) * 1int / 1int == a.value as int) by (nonlinear_arith);
            assert((b.value as int) * 1int / 1int == b.value as int) by (nonlinear_arith);
            assert(Amount::converted_value(a.value, one) == a.value as int);
            assert(Amount::converted_value(b.value, one) == b.value as int);
            assert(a.add_spec(b) == b.add_spec(a));
        } else if a.units.coarseness() > b.units.coarseness() {
            assert(a.add_spec(b) == b.add_spec(a));
        } else {
            assert(a.add_spec(b) == b.add_spec(a));
        }
    } else {
        assert(a.add_spec(b) is None && b.add_spec(a) is None);
    }
}

} // verus!
