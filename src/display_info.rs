use vstd::prelude::*;
use vstd::string::StringExecFns;

use crate::config::Percent;

verus! {

/// Glyph between the size and the name of a line.
pub const SPACING: &'static str = "──";

/// Continuation of a level whose node has later siblings.
pub const BRANCH: &'static str = "│";

/// Fork to a node that has later siblings.
pub const LEAF: &'static str = "├──";

/// Fork to the last node of its siblings.
pub const LAST_LEAF: &'static str = "└──";

/// Continuation of a level whose node was the last of its siblings.
pub const BLANK: &'static str = "  ";

/// A node's part of its parent: `part / whole`, taken as 0 where `whole` is 0.
#[derive(Debug, Clone, Copy, PartialEq, Eq, Structural)]
pub struct Share {
    pub part: u64,
    pub whole: u64,
}

/// An RGB colour.
#[derive(Debug, Clone, Copy, PartialEq, Eq, Structural)]
pub struct Rgb {
    pub r: u8,
    pub g: u8,
    pub b: u8,
}

/// The share `s`, as a percentage, is strictly above `min`. The percentage is
/// `100 * part / whole`, or 0 for an empty whole; `min` is `num / den`, or 0
/// for a zero `den`.
pub open spec fn share_exceeds(s: Share, min: Percent) -> bool {
    if s.whole == 0 {
        false
    } else if min.den == 0 {
        s.part > 0
    } else {
        100 * s.part * min.den > min.num * s.whole
    }
}

/// The share, as a percentage, is at least `pct` (a whole number).
pub open spec fn share_at_least(s: Share, pct: int) -> bool {
    s.whole > 0 && 100 * s.part >= pct * s.whole
}

/// The glyph drawn for a node: the fork before its own line (`is_fork`), or
/// the continuation drawn below it for its descendants.
pub open spec fn glyph(is_last: bool, is_fork: bool) -> Seq<char> {
    if is_last {
        if is_fork {
            seq!['└', '─', '─']
        } else {
            seq![' ', ' ']
        }
    } else {
        if is_fork {
            seq!['├', '─', '─']
        } else {
            seq!['│']
        }
    }
}

/// What a node adds to the indentation of its descendants.
pub open spec fn continuation(is_last: bool) -> Seq<char> {
    glyph(is_last, false) + seq![' ', ' ']
}

/// The indentation drawn from the last-sibling flags of a node's ancestors,
/// outermost first.
pub open spec fn indentation(flags: Seq<bool>) -> Seq<char>
    decreases flags.len(),
{
    if flags.len() == 0 {
        Seq::empty()
    } else {
        indentation(flags.drop_last()) + continuation(flags.last())
    }
}

/// The view of a `DisplayItemInfo`.
pub ghost struct InfoView {
    pub occupied: Share,
    pub level: nat,
    pub is_last: bool,
    pub prefix: Seq<char>,
}

/// The display state of the root: 100%, level 0, last, no indentation.
pub open spec fn root_info() -> InfoView {
    InfoView {
        occupied: Share { part: 1, whole: 1 },
        level: 0,
        is_last: true,
        prefix: Seq::empty(),
    }
}

impl InfoView {
    /// The state handed to a child of this node.
    pub open spec fn child(self, occupied: Share, is_last: bool) -> InfoView {
        InfoView {
            occupied,
            level: self.level + 1,
            is_last,
            prefix: self.prefix + continuation(self.is_last),
        }
    }

    /// The state reached by descending along `path`, each step a share and a
    /// last-sibling flag.
    pub open spec fn descend(self, path: Seq<(Share, bool)>) -> InfoView
        decreases path.len(),
    {
        if path.len() == 0 {
            self
        } else {
            self.descend(path.drop_last()).child(path.last().0, path.last().1)
        }
    }
}

/// The per-line state of the renderer: the node's share of its parent, its
/// depth, whether it is the last shown sibling, and its indentation.
#[derive(Debug, Clone)]
pub struct DisplayItemInfo {
    pub occupied_size: Share,
    pub dir_level: usize,
    pub is_last: bool,
    pub prefix: String,
}

impl View for DisplayItemInfo {
    type V = InfoView;

    open spec fn view(&self) -> InfoView {
        InfoView {
            occupied: self.occupied_size,
            level: self.dir_level as nat,
            is_last: self.is_last,
            prefix: self.prefix@,
        }
    }
}

/// Halves a colour channel, rounding halves up.
fn darken(x: u8) -> (r: u8)
    ensures
        r == (x as int + 1) / 2,
{
    ((x as u16 + 1) / 2) as u8
}

/// A 64-bit number times a 32-bit number, times 100, fits in 128 bits.
proof fn lemma_product_fits(a: int, b: int)
    requires
        0 <= a <= u64::MAX,
        0 <= b <= u32::MAX,
    ensures
        0 <= a * b <= u64::MAX * u32::MAX,
        100 * (a * b) <= u128::MAX,
{
    assert(0 <= a * b <= u64::MAX * u32::MAX) by (nonlinear_arith)
        requires
            0 <= a <= u64::MAX,
            0 <= b <= u32::MAX,
    ;
}

impl Share {
    /// Whether this share, as a percentage, is strictly above `min`.
    pub fn exceeds(&self, min: &Percent) -> (r: bool)
        ensures
            r == share_exceeds(*self, *min),
    {
        if self.whole == 0 {
            false
        } else if min.den == 0 {
            self.part > 0
        } else {
            let part = self.part as u128;
            let den = min.den as u128;
            let num = min.num as u128;
            let whole = self.whole as u128;
            proof {
                lemma_product_fits(part as int, den as int);
                lemma_product_fits(whole as int, num as int);
            }
            let lhs: u128 = 100u128 * (part * den);
            let rhs: u128 = num * whole;
            proof {
                assert(100 * (part * den) == 100 * part * den) by (nonlinear_arith);
            }
            lhs > rhs
        }
    }

    /// Whether this share, as a percentage, is at least `pct`.
    pub fn at_least(&self, pct: u8) -> (r: bool)
        ensures
            r == share_at_least(*self, pct as int),
    {
        let part = self.part as u128;
        let whole = self.whole as u128;
        let p = pct as u128;
        proof {
            lemma_product_fits(whole as int, p as int);
        }
        self.whole > 0 && 100u128 * part >= p * whole
    }
}

impl DisplayItemInfo {
    /// The state of the root line: 100%, level 0, last, no indentation.
    pub fn new() -> (r: DisplayItemInfo)
        ensures
            r@ == root_info(),
    {
        DisplayItemInfo {
            occupied_size: Share { part: 1, whole: 1 },
            dir_level: 0,
            is_last: true,
            prefix: String::new(),
        }
    }

    /// The state of a child line with the given share and last-sibling flag.
    pub fn add_item(&self, occupied_size: Share, is_last: bool) -> (r: DisplayItemInfo)
        requires
            self.dir_level < usize::MAX,
        ensures
            r@ == self@.child(occupied_size, is_last),
    {
        proof {
            reveal_strlit("  ");
        }
        let mut prefix = self.prefix.clone();
        prefix.append(self.display_prefix(false));
        prefix.append(BLANK);
        proof {
            assert(prefix@ =~= self.prefix@ + continuation(self.is_last));
        }
        DisplayItemInfo { occupied_size, dir_level: self.dir_level + 1, is_last, prefix }
    }

    /// The glyph of this node: its fork, or the continuation below it.
    pub fn display_prefix(&self, is_fork: bool) -> (r: &'static str)
        ensures
            r@ == glyph(self.is_last, is_fork),
    {
        proof {
            reveal_strlit("└──");
            reveal_strlit("  ");
            reveal_strlit("├──");
            reveal_strlit("│");
        }
        if self.is_last {
            if is_fork {
                LAST_LEAF
            } else {
                BLANK
            }
        } else {
            if is_fork {
                LEAF
            } else {
                BRANCH
            }
        }
    }

    /// The colour of the percentage (or, dimmed, of the size) on this line:
    /// light for the root, red from 50%, yellow from 10%, green below.
    pub fn display_color(&self, is_disk_size: bool) -> (r: Rgb)
        ensures
            ({
                let base = if self.dir_level == 0 {
                    Rgb { r: 250, g: 250, b: 250 }
                } else if share_at_least(self.occupied_size, 50) {
                    Rgb { r: 255, g: 100, b: 100 }
                } else if share_at_least(self.occupied_size, 10) {
                    Rgb { r: 255, g: 222, b: 72 }
                } else {
                    Rgb { r: 100, g: 255, b: 90 }
                };
                if is_disk_size {
                    r.r == (base.r as int + 1) / 2 && r.g == (base.g as int + 1) / 2 && r.b == base.b
                } else {
                    r == base
                }
            }),
    {
        let base = if self.dir_level == 0 {
            Rgb { r: 250, g: 250, b: 250 }
        } else if self.occupied_size.at_least(50) {
            Rgb { r: 255, g: 100, b: 100 }
        } else if self.occupied_size.at_least(10) {
            Rgb { r: 255, g: 222, b: 72 }
        } else {
            Rgb { r: 100, g: 255, b: 90 }
        };
        if is_disk_size {
            Rgb { r: darken(base.r), g: darken(base.g), b: base.b }
        } else {
            base
        }
    }
}

impl Default for DisplayItemInfo {
    /// The state of the root line.
    fn default() -> (r: DisplayItemInfo)
        ensures
            r@ == root_info(),
    {
        DisplayItemInfo::new()
    }
}

} // verus!
