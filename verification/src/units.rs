//! The closed set of measurement units and their compatibility, coarseness
//! and conversion algebra.
//!
//! Volume units (cup, tablespoon, teaspoon, milliliters) are mutually
//! convertible; count and ounce are singletons, convertible only to
//! themselves. Conversion factors are exact rationals, so the factor from a
//! unit to another is the exact reciprocal of the factor back.

use vstd::prelude::*;

verus! {

/// The closed set of measurement units.
#[derive(Clone, Copy, Debug, PartialEq, Eq, Structural)]
pub enum Units {
    Count,
    Cup,
    Ounce,
    Tablespoon,
    Teaspoon,
    Milliliters,
}

impl Default for Units {
    fn default() -> (r: Units)
        ensures
            r == Units::Count,
    {
        Units::Count
    }
}

/// An exact conversion factor `num / den` between two compatible units.
#[derive(Clone, Copy, Debug, PartialEq, Eq, Structural)]
pub struct Factor {
    pub num: u64,
    pub den: u64,
}

impl Units {
    /// Whether this unit measures volume.
    pub open spec fn is_volume_spec(self) -> bool {
        match self {
            Units::Cup | Units::Tablespoon | Units::Teaspoon | Units::Milliliters => true,
            Units::Count | Units::Ounce => false,
        }
    }

    /// Two units are compatible when they are equal or both measure volume.
    pub open spec fn compatible(self, other: Units) -> bool {
        self == other || (self.is_volume_spec() && other.is_volume_spec())
    }

    /// Coarseness of a volume unit: a cup is the coarsest volume unit and a
    /// milliliter the finest. Non-volume units are only ever compared with
    /// themselves, so their rank is immaterial.
    pub open spec fn coarseness(self) -> int {
        match self {
            Units::Cup => 3,
            Units::Tablespoon => 2,
            Units::Teaspoon => 1,
            Units::Milliliters => 0,
            Units::Count | Units::Ounce => 0,
        }
    }

    /// What `is_bigger` must return: `None` for incompatible pairs, otherwise
    /// whether `self` is the coarser unit of the pair.
    pub open spec fn is_bigger_spec(self, other: Units) -> Option<bool> {
        if !self.compatible(other) {
            None
        } else {
            Some(self.coarseness() > other.coarseness())
        }
    }

    pub fn is_volume(&self) -> (r: bool)
        ensures
            r == self.is_volume_spec(),
    {
        match self {
            Units::Count => false,
            Units::Cup => true,
            Units::Ounce => false,
            Units::Tablespoon => true,
            Units::Teaspoon => true,
            Units::Milliliters => true,
        }
    }

    pub fn is_compatible(&self, other: &Units) -> (r: bool)
        ensures
            r == self.compatible(*other),
    {
        if self == other {
            return true;
        }

        match self {
            Units::Count => false,
            Units::Cup => other.is_volume(),
            Units::Ounce => false,
            Units::Tablespoon => other.is_volume(),
            Units::Teaspoon => other.is_volume(),
            Units::Milliliters => other.is_volume(),
        }
    }

    /// How many of the finer unit make up one of the coarser unit, as an
    /// exact rational. Only meaningful when `coarser` is strictly coarser
    /// than `finer`.
    pub open spec fn span(coarser: Units, finer: Units) -> Factor {
        match (coarser, finer) {
            (Units::Cup, Units::Tablespoon) => Factor { num: 16, den: 1 },
            (Units::Cup, Units::Teaspoon) => Factor { num: 48, den: 1 },
            (Units::Cup, Units::Milliliters) => Factor { num: 236588, den: 1000 },
            (Units::Tablespoon, Units::Teaspoon) => Factor { num: 3, den: 1 },
            (Units::Tablespoon, Units::Milliliters) => Factor { num: 147868, den: 10000 },
            (Units::Teaspoon, Units::Milliliters) => Factor { num: 492892, den: 100000 },
            _ => Factor { num: 1, den: 1 },
        }
    }

    /// What `conversion_factor` must return: `None` for an incompatible
    /// pair, the identity for equal units, and otherwise the exact rational
    /// multiplier that converts a quantity in `self` into a quantity in
    /// `other` (16 from cup to tablespoon, 1/16 from tablespoon to cup).
    pub open spec fn conversion_factor_spec(self, other: Units) -> Option<Factor> {
        if !self.compatible(other) {
            None
        } else if self == other {
            Some(Factor { num: 1, den: 1 })
        } else if self.coarseness() > other.coarseness() {
            Some(Units::span(self, other))
        } else {
            Some(
                Factor {
                    num: Units::span(other, self).den,
                    den: Units::span(other, self).num,
                },
            )
        }
    }

    pub fn is_bigger(&self, other: &Units) -> (r: Option<bool>)
        ensures
            r == self.is_bigger_spec(*other),
    {
        if !self.is_compatible(other) {
            return None;
        }

        let result = match self {
            Units::Count => false,
            Units::Cup => match other {
                Units::Tablespoon | Units::Teaspoon | Units::Milliliters => true,
                _ => false,
            },
            Units::Ounce => false,
            Units::Tablespoon => match other {
                Units::Teaspoon | Units::Milliliters => true,
                _ => false,
            },
            Units::Teaspoon => match other {
                Units::Milliliters => true,
                _ => false,
            },
            Units::Milliliters => false,
        };

        Some(result)
    }

    pub fn conversion_factor(&self, other: &Units) -> (r: Option<Factor>)
        ensures
            r == self.conversion_factor_spec(*other),
    {
        if !self.is_compatible(other) {
            return None;
        }

        if self == other {
            return Some(Factor { num: 1, den: 1 });
        }

        let bigger = self.is_bigger(other).unwrap();
        let (coarser, finer) = if bigger {
            (*self, *other)
        } else {
            (*other, *self)
        };

        let conversion = match (coarser, finer) {
            (Units::Cup, Units::Tablespoon) => Factor { num: 16, den: 1 },
            (Units::Cup, Units::Teaspoon) => Factor { num: 48, den: 1 },
            (Units::Cup, Units::Milliliters) => Factor { num: 236588, den: 1000 },
            (Units::Tablespoon, Units::Teaspoon) => Factor { num: 3, den: 1 },
            (Units::Tablespoon, Units::Milliliters) => Factor { num: 147868, den: 10000 },
            (Units::Teaspoon, Units::Milliliters) => Factor { num: 492892, den: 100000 },
            _ => Factor { num: 1, den: 1 },
        };

        if bigger {
            Some(conversion)
        } else {
            Some(Factor { num: conversion.den, den: conversion.num })
        }
    }
}

/// The unit a lowercased name denotes, if any: the names the recipe
/// importer and the entry form accept.
pub open spec fn unit_of_name(s: Seq<char>) -> Option<Units> {
    if s == "unit"@ {
        Some(Units::Count)
    } else if s == "cup"@ {
        Some(Units::Cup)
    } else if s == "ounce"@ {
        Some(Units::Ounce)
    } else if s == "thumb"@ || s == "tablespoon"@ || s == "tablespoons"@ {
        Some(Units::Tablespoon)
    } else if s == "clove"@ || s == "teaspoon"@ || s == "teaspoons"@ {
        Some(Units::Teaspoon)
    } else if s == "milliliters"@ {
        Some(Units::Milliliters)
    } else {
        None
    }
}

impl Units {
    /// Decodes a unit name, case-insensitively. Any unknown name fails.
    pub fn parse(value: &str) -> (r: Result<Units, ()>)
        ensures
            r == match unit_of_name(crate::text::lower_of(value@)) {
                Some(u) => Ok::<Units, ()>(u),
                None => Err::<Units, ()>(()),
            },
    {
        let lowered = crate::text::lowercase(value);
        let l = lowered.as_str();
        if crate::text::str_eq(l, "unit") {
            Ok(Units::Count)
        } else if crate::text::str_eq(l, "cup") {
            Ok(Units::Cup)
        } else if crate::text::str_eq(l, "ounce") {
            Ok(Units::Ounce)
        } else if crate::text::str_eq(l, "thumb") || crate::text::str_eq(l, "tablespoon")
            || crate::text::str_eq(l, "tablespoons") {
            Ok(Units::Tablespoon)
        } else if crate::text::str_eq(l, "clove") || crate::text::str_eq(l, "teaspoon")
            || crate::text::str_eq(l, "teaspoons") {
            Ok(Units::Teaspoon)
        } else if crate::text::str_eq(l, "milliliters") {
            Ok(Units::Milliliters)
        } else {
            Err(())
        }
    }
}

/// Two compatible units of the same coarseness are the same unit.
pub proof fn lemma_equal_coarseness(a: Units, b: Units)
    requires
        a.compatible(b),
        a.coarseness() == b.coarseness(),
    ensures
        a == b,
{
    match (a, b) {
        (Units::Count, Units::Count) => {}
        (Units::Count, Units::Cup) => {}
        (Units::Count, Units::Ounce) => {}
        (Units::Count, Units::Tablespoon) => {}
        (Units::Count, Units::Teaspoon) => {}
        (Units::Count, Units::Milliliters) => {}
        (Units::Cup, Units::Count) => {}
        (Units::Cup, Units::Cup) => {}
        (Units::Cup, Units::Ounce) => {}
        (Units::Cup, Units::Tablespoon) => {}
        (Units::Cup, Units::Teaspoon) => {}
        (Units::Cup, Units::Milliliters) => {}
        (Units::Ounce, Units::Count) => {}
        (Units::Ounce, Units::Cup) => {}
        (Units::Ounce, Units::Ounce) => {}
        (Units::Ounce, Units::Tablespoon) => {}
        (Units::Ounce, Units::Teaspoon) => {}
        (Units::Ounce, Units::Milliliters) => {}
        (Units::Tablespoon, Units::Count) => {}
        (Units::Tablespoon, Units::Cup) => {}
        (Units::Tablespoon, Units::Ounce) => {}
        (Units::Tablespoon, Units::Tablespoon) => {}
        (Units::Tablespoon, Units::Teaspoon) => {}
        (Units::Tablespoon, Units::Milliliters) => {}
        (Units::Teaspoon, Units::Count) => {}
        (Units::Teaspoon, Units::Cup) => {}
        (Units::Teaspoon, Units::Ounce) => {}
        (Units::Teaspoon, Units::Tablespoon) => {}
        (Units::Teaspoon, Units::Teaspoon) => {}
        (Units::Teaspoon, Units::Milliliters) => {}
        (Units::Milliliters, Units::Count) => {}
        (Units::Milliliters, Units::Cup) => {}
        (Units::Milliliters, Units::Ounce) => {}
        (Units::Milliliters, Units::Tablespoon) => {}
        (Units::Milliliters, Units::Teaspoon) => {}
        (Units::Milliliters, Units::Milliliters) => {}
    }
}

/// Converting one way and then back multiplies by exactly one: for every
/// compatible pair of units, the conversion factor from the first to the
/// second and the factor from the second to the first are exact reciprocals,
/// so their product is the rational one.
pub proof fn lemma_conversion_factor_roundtrip(a: Units, b: Units)
    requires
        a.compatible(b),
    ensures
        a.conversion_factor_spec(b) is Some,
        b.conversion_factor_spec(a) is Some,
        a.conversion_factor_spec(b)->0.num * b.conversion_factor_spec(a)->0.num
            == a.conversion_factor_spec(b)->0.den * b.conversion_factor_spec(a)->0.den,
{
    let f = a.conversion_factor_spec(b)->0;
    let g = b.conversion_factor_spec(a)->0;
    if a == b {
        assert(f.num * g.num == f.den * g.den);
    } else if a.coarseness() > b.coarseness() {
        assert(f == Units::span(a, b));
        assert(g == Factor { num: Units::span(a, b).den, den: Units::span(a, b).num });
        assert(f.num * g.num == f.den * g.den);
    } else {
        assert(f == Factor { num: Units::span(b, a).den, den: Units::span(b, a).num });
        assert(g == Units::span(b, a));
        assert(f.num * g.num == f.den * g.den);
    }
}

} // verus!
