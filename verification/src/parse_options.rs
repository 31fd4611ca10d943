//! Configuration read once at load time.

use vstd::prelude::*;

use crate::matcher::ColorKindDiscriminants;

verus! {

/// Which notations may match without a literal prefix.  Both default to
/// `false`: an unprefixed run of hexadecimal digits is not treated as a
/// color, which reduces false positives.
#[derive(Clone, Copy, PartialEq, Eq, Structural, Debug)]
pub struct ParseOptions {
    /// Accept six-digit matches with an empty prefix.
    pub prefixless6: bool,
    /// Accept three-digit matches with an empty prefix.
    pub prefixless3: bool,
}

impl Default for ParseOptions {
    fn default() -> (r: Self)
        ensures
            !r.prefixless6,
            !r.prefixless3,
    {
        ParseOptions { prefixless6: false, prefixless3: false }
    }
}

/// Whether a candidate of this notation may keep an empty prefix.
pub open spec fn prefix_allowed(d: ColorKindDiscriminants, opts: ParseOptions) -> bool {
    match d {
        ColorKindDiscriminants::Hex6 => opts.prefixless6,
        ColorKindDiscriminants::Hex3 => opts.prefixless3,
    }
}

pub fn prefix_allowed_exec(d: ColorKindDiscriminants, opts: &ParseOptions) -> (b: bool)
    ensures
        b == prefix_allowed(d, *opts),
{
    match d {
        ColorKindDiscriminants::Hex6 => opts.prefixless6,
        ColorKindDiscriminants::Hex3 => opts.prefixless3,
    }
}

} // verus!
