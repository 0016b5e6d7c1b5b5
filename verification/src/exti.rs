//! External-interrupt lines: the fixed table that relates each line to
//! the interrupt number that it raises, and masks over lines.

use vstd::prelude::*;
use crate::bits::{has_bit, lemma_and_bit, lemma_nonzero_has_bit, lemma_or_bit};
use crate::bits::{lemma_zero_has_no_bit, lemma_differ_in_bit};

verus! {

/// Number of external-interrupt lines.
pub const LINE_COUNT: u32 = 23;

/// The mask in which the bit of every line is set.
pub const ALL_LINES: u32 = 0x7f_ffff;

/// One external-interrupt line.
#[derive(Clone, Copy, Debug, PartialEq, Eq)]
pub enum Line {
    Line0,
    Line1,
    Line2,
    Line3,
    Line4,
    Line5,
    Line6,
    Line7,
    Line8,
    Line9,
    Line10,
    Line11,
    Line12,
    Line13,
    Line14,
    Line15,
    Line16,
    Line17,
    Line18,
    Line19,
    Line20,
    Line21,
    Line22,
}

impl Line {
    /// The number of the line, which is also its bit in a mask.
    pub open spec fn spec_number(self) -> u32 {
        match self {
            Line::Line0 => 0,
            Line::Line1 => 1,
            Line::Line2 => 2,
            Line::Line3 => 3,
            Line::Line4 => 4,
            Line::Line5 => 5,
            Line::Line6 => 6,
            Line::Line7 => 7,
            Line::Line8 => 8,
            Line::Line9 => 9,
            Line::Line10 => 10,
            Line::Line11 => 11,
            Line::Line12 => 12,
            Line::Line13 => 13,
            Line::Line14 => 14,
            Line::Line15 => 15,
            Line::Line16 => 16,
            Line::Line17 => 17,
            Line::Line18 => 18,
            Line::Line19 => 19,
            Line::Line20 => 20,
            Line::Line21 => 21,
            Line::Line22 => 22,
        }
    }

    /// The number of the line, which is also its bit in a mask.
    #[verifier::when_used_as_spec(spec_number)]
    pub fn number(self) -> (n: u32)
        ensures
            n == self.number(),
            n < LINE_COUNT,
    {
        match self {
            Line::Line0 => 0,
            Line::Line1 => 1,
            Line::Line2 => 2,
            Line::Line3 => 3,
            Line::Line4 => 4,
            Line::Line5 => 5,
            Line::Line6 => 6,
            Line::Line7 => 7,
            Line::Line8 => 8,
            Line::Line9 => 9,
            Line::Line10 => 10,
            Line::Line11 => 11,
            Line::Line12 => 12,
            Line::Line13 => 13,
            Line::Line14 => 14,
            Line::Line15 => 15,
            Line::Line16 => 16,
            Line::Line17 => 17,
            Line::Line18 => 18,
            Line::Line19 => 19,
            Line::Line20 => 20,
            Line::Line21 => 21,
            Line::Line22 => 22,
        }
    }

    /// The line with number `n`.
    spec fn numbered(n: u32) -> Line {
        if n == 0 {
            Line::Line0
        } else if n == 1 {
            Line::Line1
        } else if n == 2 {
            Line::Line2
        } else if n == 3 {
            Line::Line3
        } else if n == 4 {
            Line::Line4
        } else if n == 5 {
            Line::Line5
        } else if n == 6 {
            Line::Line6
        } else if n == 7 {
            Line::Line7
        } else if n == 8 {
            Line::Line8
        } else if n == 9 {
            Line::Line9
        } else if n == 10 {
            Line::Line10
        } else if n == 11 {
            Line::Line11
        } else if n == 12 {
            Line::Line12
        } else if n == 13 {
            Line::Line13
        } else if n == 14 {
            Line::Line14
        } else if n == 15 {
            Line::Line15
        } else if n == 16 {
            Line::Line16
        } else if n == 17 {
            Line::Line17
        } else if n == 18 {
            Line::Line18
        } else if n == 19 {
            Line::Line19
        } else if n == 20 {
            Line::Line20
        } else if n == 21 {
            Line::Line21
        } else {
            Line::Line22
        }
    }

    /// The mask that holds this line alone.
    pub fn mask(self) -> (mask: LineMask)
        ensures
            mask@ == set![self],
            mask.bits() == 1u32 << self.number(),
    {
        let n = self.number();
        let bits = 1u32 << n;
        proof {
            assert(n < 23 ==> (1u32 << n) <= 0x7f_ffff) by (bit_vector);
            assert forall|j: u32| j < 32 implies (has_bit(bits, j) <==> j == n) by {
                assert(n < 23 && j < 32 ==> (((1u32 << n) & (1u32 << j) != 0) <==> j == n))
                    by (bit_vector);
            }
        }
        LineMask { bits }
    }
}

/// A set of external-interrupt lines, kept as a bitmask.
#[derive(Clone, Copy, Debug, PartialEq, Eq)]
pub struct LineMask {
    bits: u32,
}

impl View for LineMask {
    type V = Set<Line>;

    /// The lines in the mask.
    open spec fn view(&self) -> Set<Line> {
        Set::new(|line: Line| has_bit(self.bits(), line.number()))
    }
}

impl LineMask {
    #[verifier::type_invariant]
    spec fn only_lines(self) -> bool {
        self.bits <= ALL_LINES
    }

    /// The mask itself: bit `n` stands for the line with number `n`.
    pub closed spec fn spec_bits(self) -> u32 {
        self.bits
    }

    /// The mask itself: bit `n` stands for the line with number `n`. No
    /// other bit is set.
    #[verifier::when_used_as_spec(spec_bits)]
    pub fn bits(self) -> (bits: u32)
        ensures
            bits == self.bits(),
            bits <= ALL_LINES,
    {
        proof {
            use_type_invariant(&self);
        }
        self.bits
    }

    /// The lines whose bits are set in `raw`; bits that stand for no line
    /// are left out.
    pub fn from_bits(raw: u32) -> (mask: Self)
        ensures
            mask.bits() == raw & ALL_LINES,
            forall|line: Line| mask@.contains(line) == has_bit(raw, line.number()),
    {
        let bits = raw & ALL_LINES;
        proof {
            assert(raw & 0x7f_ffff <= 0x7f_ffff) by (bit_vector);
            assert forall|j: u32| j < 23 implies has_bit(bits, j) == has_bit(raw, j) by {
                assert(j < 23 ==> (((raw & 0x7f_ffff) & (1u32 << j) != 0) <==> (raw & (1u32 << j)
                    != 0))) by (bit_vector);
            }
        }
        LineMask { bits }
    }

    /// Whether `line` is in the mask.
    pub fn contains(self, line: Line) -> (found: bool)
        ensures
            found == self@.contains(line),
    {
        self.bits & (1u32 << line.number()) != 0
    }

    /// The mask with `line` added.
    pub fn with(self, line: Line) -> (mask: Self)
        ensures
            mask@ == self@.insert(line),
            mask.bits() == self.bits() | (1u32 << line.number()),
    {
        self.union(line.mask())
    }

    /// The lines of either mask.
    pub fn union(self, other: Self) -> (mask: Self)
        ensures
            mask@ == self@.union(other@),
            mask.bits() == self.bits() | other.bits(),
    {
        let a = self.bits;
        let b = other.bits;
        proof {
            use_type_invariant(&self);
            use_type_invariant(&other);
            assert(a <= 0x7f_ffff && b <= 0x7f_ffff ==> (a | b) <= 0x7f_ffff) by (bit_vector);
            assert forall|j: u32| has_bit(a | b, j) == (has_bit(a, j) || has_bit(b, j)) by {
                lemma_or_bit(a, b, j);
            }
        }
        LineMask { bits: a | b }
    }

    /// Whether some line is in both masks.
    pub fn intersects(self, other: Self) -> (found: bool)
        ensures
            found == exists|line: Line| self@.contains(line) && other@.contains(line),
    {
        let a = self.bits;
        let b = other.bits;
        proof {
            use_type_invariant(&self);
            if a & b != 0 {
                let j = lemma_nonzero_has_bit(a & b);
                lemma_and_bit(a, b, j);
                assert(a <= 0x7f_ffff && (a & (1u32 << j) != 0) && j < 32 ==> j < 23)
                    by (bit_vector);
                let line = Line::numbered(j);
                assert(self@.contains(line) && other@.contains(line));
            } else {
                assert forall|line: Line| !(self@.contains(line) && other@.contains(line)) by {
                    lemma_and_bit(a, b, line.number());
                    lemma_zero_has_no_bit(line.number());
                }
            }
        }
        a & b != 0
    }
}

/// Two masks with the same lines are the same mask.
pub proof fn lemma_mask_determined(a: LineMask, b: LineMask)
    requires
        a.bits() <= ALL_LINES,
        b.bits() <= ALL_LINES,
        a@ == b@,
    ensures
        a == b,
{
    let x = a.bits();
    let y = b.bits();
    if x != y {
        let j = lemma_differ_in_bit(x, y);
        assert((x <= 0x7f_ffff && y <= 0x7f_ffff && j < 32 && ((x & (1u32 << j) != 0) != (y & (1u32
            << j) != 0))) ==> j < 23) by (bit_vector);
        let line = Line::numbered(j);
        assert(a@.contains(line) == has_bit(x, j));
        assert(b@.contains(line) == has_bit(y, j));
    }
}

/// The interrupt number that `line` raises.
pub open spec fn line_irqn(line: Line) -> i16 {
    match line {
        Line::Line0 => 6,
        Line::Line1 => 7,
        Line::Line2 => 8,
        Line::Line3 => 9,
        Line::Line4 => 10,
        Line::Line5 => 23,
        Line::Line6 => 23,
        Line::Line7 => 23,
        Line::Line8 => 23,
        Line::Line9 => 23,
        Line::Line10 => 40,
        Line::Line11 => 40,
        Line::Line12 => 40,
        Line::Line13 => 40,
        Line::Line14 => 40,
        Line::Line15 => 40,
        Line::Line16 => 1,
        Line::Line17 => 41,
        Line::Line18 => 42,
        Line::Line19 => 62,
        Line::Line20 => 76,
        Line::Line21 => 2,
        Line::Line22 => 3,
    }
}

/// The lines that raise interrupt number `irqn`.
pub open spec fn lines_of(irqn: i16) -> Set<Line> {
    Set::new(|line: Line| line_irqn(line) == irqn)
}

/// The first of the lines that raise interrupt number `irqn`, if there is
/// one.
spec fn first_line_of(irqn: i16) -> Line {
    if irqn == 1 {
        Line::Line16
    } else if irqn == 2 {
        Line::Line21
    } else if irqn == 3 {
        Line::Line22
    } else if irqn == 6 {
        Line::Line0
    } else if irqn == 7 {
        Line::Line1
    } else if irqn == 8 {
        Line::Line2
    } else if irqn == 9 {
        Line::Line3
    } else if irqn == 10 {
        Line::Line4
    } else if irqn == 23 {
        Line::Line5
    } else if irqn == 40 {
        Line::Line10
    } else if irqn == 41 {
        Line::Line17
    } else if irqn == 42 {
        Line::Line18
    } else if irqn == 62 {
        Line::Line19
    } else {
        Line::Line20
    }
}

/// The interrupt number that `line` raises. Several lines may share one
/// number.
pub fn irqn_from_exti_line(line: Line) -> (irqn: i16)
    ensures
        irqn == line_irqn(line),
        lines_of(irqn).contains(line),
{
    match line {
        Line::Line0 => 6,
        Line::Line1 => 7,
        Line::Line2 => 8,
        Line::Line3 => 9,
        Line::Line4 => 10,
        Line::Line5 => 23,
        Line::Line6 => 23,
        Line::Line7 => 23,
        Line::Line8 => 23,
        Line::Line9 => 23,
        Line::Line10 => 40,
        Line::Line11 => 40,
        Line::Line12 => 40,
        Line::Line13 => 40,
        Line::Line14 => 40,
        Line::Line15 => 40,
        Line::Line16 => 1,
        Line::Line17 => 41,
        Line::Line18 => 42,
        Line::Line19 => 62,
        Line::Line20 => 76,
        Line::Line21 => 2,
        Line::Line22 => 3,
    }
}

/// The lines that raise interrupt number `irqn`, all of them and no
/// other; `None` if no line does.
pub fn irqn_to_exti_line(irqn: i16) -> (lines: Option<LineMask>)
    ensures
        lines is Some <==> exists|line: Line| line_irqn(line) == irqn,
        lines matches Some(mask) ==> mask@ == lines_of(irqn),
{
    let lines = match irqn {
        1 => Some(Line::Line16.mask()),
        2 => Some(Line::Line21.mask()),
        3 => Some(Line::Line22.mask()),
        6 => Some(Line::Line0.mask()),
        7 => Some(Line::Line1.mask()),
        8 => Some(Line::Line2.mask()),
        9 => Some(Line::Line3.mask()),
        10 => Some(Line::Line4.mask()),
        23 => Some(
            Line::Line5.mask().with(Line::Line6).with(Line::Line7).with(Line::Line8).with(
                Line::Line9,
            ),
        ),
        40 => Some(
            Line::Line10.mask().with(Line::Line11).with(Line::Line12).with(Line::Line13).with(
                Line::Line14,
            ).with(Line::Line15),
        ),
        41 => Some(Line::Line17.mask()),
        42 => Some(Line::Line18.mask()),
        62 => Some(Line::Line19.mask()),
        76 => Some(Line::Line20.mask()),
        _ => None,
    };
    proof {
        if let Some(mask) = lines {
            let first = first_line_of(irqn);
            assert(line_irqn(first) == irqn);
        }
    }
    lines
}

/// What the interrupt handler writes to the pending register of the
/// line controller to acknowledge an interrupt raised by `lines`, given
/// the lines that the register shows `pending`: if one of `lines` is
/// pending, every pending line together with `lines`; else nothing.
pub fn lines_to_clear(lines: LineMask, pending: LineMask) -> (clear: Option<LineMask>)
    ensures
        clear is Some <==> exists|line: Line| pending@.contains(line) && lines@.contains(line),
        clear matches Some(mask) ==> mask@ == pending@.union(lines@),
{
    if pending.intersects(lines) {
        Some(pending.union(lines))
    } else {
        None
    }
}

} // verus!
