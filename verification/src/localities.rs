use vstd::prelude::*;

verus! {

/// The countries whose tax rules are known.
#[derive(Debug, Clone, Copy, PartialEq, Eq, Structural)]
pub enum Country {
    Russia,
}

/// Russia.
pub fn russia() -> (country: Country)
    ensures
        country == Country::Russia,
{
    Country::Russia
}

} // verus!
