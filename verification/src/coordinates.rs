//! Grid coordinates and the arithmetic on them.

use std::ops::{Add, Sub};
use crate::text::{decimal, push_decimal};
use vstd::prelude::*;
use vstd::std_specs::ops::{AddSpecImpl, SubSpecImpl};
use vstd::string::StringExecFns;

verus! {

/// A cell position: `x` is the column, `y` the row.
#[derive(Debug, Default, Copy, Clone, Ord, PartialOrd, Eq, PartialEq, Hash, Structural)]
pub struct Coordinates {
    pub x: u16,
    pub y: u16,
}

/// One component moved by a signed step. A result that leaves the `u16` range
/// becomes `u16::MAX`, which lies outside every grid, so it never wraps around
/// to a cell on the opposite edge.
pub open spec fn shifted(v: u16, d: i8) -> u16 {
    if 0 <= v + d <= u16::MAX {
        (v + d) as u16
    } else {
        u16::MAX
    }
}

fn shift(v: u16, d: i8) -> (r: u16)
    ensures
        r == shifted(v, d),
{
    let wide: i32 = v as i32 + d as i32;
    if 0 <= wide && wide <= 65535 {
        wide as u16
    } else {
        u16::MAX
    }
}

impl Coordinates {
    /// The position as text: `(x, y)`.
    pub open spec fn text(self) -> Seq<char> {
        "("@ + decimal(self.x as nat) + ", "@ + decimal(self.y as nat) + ")"@
    }

    /// Writes the position as `(x, y)`.
    pub fn to_text(&self) -> (text: String)
        ensures
            text@ == self.text(),
    {
        let mut text = String::new();
        text.append("(");
        push_decimal(&mut text, self.x);
        text.append(", ");
        push_decimal(&mut text, self.y);
        text.append(")");
        assert(text@ =~= self.text());
        text
    }

    /// This position moved by a signed step in each direction.
    pub open spec fn moved(self, step: (i8, i8)) -> Coordinates {
        Coordinates { x: shifted(self.x, step.0), y: shifted(self.y, step.1) }
    }
}

impl Add for Coordinates {
    type Output = Coordinates;

    fn add(self, rhs: Coordinates) -> (sum: Coordinates) {
        Coordinates { x: self.x + rhs.x, y: self.y + rhs.y }
    }
}

impl AddSpecImpl for Coordinates {
    open spec fn obeys_add_spec() -> bool {
        true
    }

    open spec fn add_req(self, rhs: Coordinates) -> bool {
        self.x + rhs.x <= u16::MAX && self.y + rhs.y <= u16::MAX
    }

    open spec fn add_spec(self, rhs: Coordinates) -> Coordinates {
        Coordinates { x: (self.x + rhs.x) as u16, y: (self.y + rhs.y) as u16 }
    }
}

impl Sub for Coordinates {
    type Output = Coordinates;

    fn sub(self, rhs: Coordinates) -> (diff: Coordinates) {
        Coordinates { x: self.x.saturating_sub(rhs.x), y: self.y.saturating_sub(rhs.y) }
    }
}

impl SubSpecImpl for Coordinates {
    open spec fn obeys_sub_spec() -> bool {
        true
    }

    open spec fn sub_req(self, rhs: Coordinates) -> bool {
        true
    }

    open spec fn sub_spec(self, rhs: Coordinates) -> Coordinates {
        Coordinates {
            x: if self.x >= rhs.x { (self.x - rhs.x) as u16 } else { 0 },
            y: if self.y >= rhs.y { (self.y - rhs.y) as u16 } else { 0 },
        }
    }
}

impl Add<(i8, i8)> for Coordinates {
    type Output = Coordinates;

    fn add(self, rhs: (i8, i8)) -> (moved: Coordinates) {
        Coordinates { x: shift(self.x, rhs.0), y: shift(self.y, rhs.1) }
    }
}

impl AddSpecImpl<(i8, i8)> for Coordinates {
    open spec fn obeys_add_spec() -> bool {
        true
    }

    open spec fn add_req(self, rhs: (i8, i8)) -> bool {
        true
    }

    open spec fn add_spec(self, rhs: (i8, i8)) -> Coordinates {
        self.moved(rhs)
    }
}

} // verus!
