use vstd::prelude::*;

verus! {

/// A percentage given as the fraction `num / den` of one percent point:
/// `Percent { num: 1, den: 100 }` is 0.01%. A zero `den` stands for 0%.
#[derive(Debug, Clone, Copy, PartialEq, Eq, Structural)]
pub struct Percent {
    pub num: u32,
    pub den: u32,
}

/// The options that steer the analysis and the rendering.
#[derive(Debug, Clone, Copy, PartialEq, Eq, Structural)]
pub struct Arguments {
    /// Levels below the root that are shown.
    pub max_depth: usize,
    /// Entries whose share of their parent is not above this are not shown.
    pub min_percent: Percent,
    /// Count allocated blocks rather than logical lengths.
    pub apparent: bool,
    /// Decimal places of the percentages shown.
    pub decimal_num: usize,
}

impl Arguments {
    /// The defaults of the command line: two levels, 10%, logical sizes, two
    /// decimal places.
    pub fn new() -> (r: Arguments)
        ensures
            r.max_depth == 2,
            r.min_percent == (Percent { num: 10, den: 1 }),
            !r.apparent,
            r.decimal_num == 2,
    {
        Arguments {
            max_depth: 2,
            min_percent: Percent { num: 10, den: 1 },
            apparent: false,
            decimal_num: 2,
        }
    }
}

} // verus!
