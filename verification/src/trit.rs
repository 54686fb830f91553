//! The balanced ternary digit.

use vstd::prelude::*;

verus! {

/// A single balanced ternary value: -1, 0, or +1.
#[derive(Clone, Copy, Debug, PartialEq, Eq, Structural, Hash)]
pub enum Trit {
    Neg,
    Zero,
    Pos,
}

impl Trit {
    /// The integer that the trit stands for.
    pub open spec fn spec_value(self) -> i8 {
        match self {
            Trit::Neg => -1i8,
            Trit::Zero => 0i8,
            Trit::Pos => 1i8,
        }
    }

    /// The trit that stands for `v`, if `v` is -1, 0 or 1.
    pub open spec fn spec_from_i8(v: i8) -> Option<Trit> {
        if v == -1 {
            Some(Trit::Neg)
        } else if v == 0 {
            Some(Trit::Zero)
        } else if v == 1 {
            Some(Trit::Pos)
        } else {
            None
        }
    }

    /// The next value in the mutation cycle Neg -> Zero -> Pos -> Neg.
    pub open spec fn cycled(self) -> Trit {
        match self {
            Trit::Neg => Trit::Zero,
            Trit::Zero => Trit::Pos,
            Trit::Pos => Trit::Neg,
        }
    }

    /// Ternary majority of two votes: agreement keeps the value,
    /// anything else (a conflict or a zero) gives zero.
    pub open spec fn majority(a: Trit, b: Trit) -> Trit {
        if a == b { a } else { Trit::Zero }
    }

    pub fn value(self) -> (v: i8)
        ensures
            v == self.spec_value(),
    {
        match self {
            Trit::Neg => -1,
            Trit::Zero => 0,
            Trit::Pos => 1,
        }
    }

    pub fn from_i8(v: i8) -> (r: Option<Self>)
        ensures
            r == Trit::spec_from_i8(v),
    {
        match v {
            -1 => Some(Trit::Neg),
            0 => Some(Trit::Zero),
            1 => Some(Trit::Pos),
            _ => None,
        }
    }
}

/// Converting a trit to its integer and back gives the same trit.
pub proof fn law_from_i8_of_value(t: Trit)
    ensures
        Trit::spec_from_i8(t.spec_value()) == Some(t),
{
}

/// `from_i8` accepts exactly -1, 0 and 1, and the trit it gives stands for its argument.
pub proof fn law_value_of_from_i8(v: i8)
    ensures
        (Trit::spec_from_i8(v) is Some) <==> (-1 <= v <= 1),
        Trit::spec_from_i8(v) matches Some(t) ==> t.spec_value() == v,
{
}

/// Neg, Zero and Pos stand for -1, 0 and +1, and the mutation cycle runs
/// Neg -> Zero -> Pos -> Neg.
pub proof fn law_trit_values_and_cycle()
    ensures
        Trit::Neg.spec_value() == -1,
        Trit::Zero.spec_value() == 0,
        Trit::Pos.spec_value() == 1,
        Trit::Neg.cycled() == Trit::Zero,
        Trit::Zero.cycled() == Trit::Pos,
        Trit::Pos.cycled() == Trit::Neg,
{
}

/// The mutation cycle moves every trit, and three steps bring it back.
pub proof fn law_cycle_period_three(t: Trit)
    ensures
        t.cycled() != t,
        t.cycled().cycled() != t,
        t.cycled().cycled().cycled() == t,
{
}

/// The majority rule is symmetric and idempotent, a Pos/Neg conflict gives zero,
/// and zero on either side gives zero.
pub proof fn law_majority(a: Trit, b: Trit)
    ensures
        Trit::majority(a, b) == Trit::majority(b, a),
        Trit::majority(a, a) == a,
        Trit::majority(Trit::Pos, Trit::Neg) == Trit::Zero,
        Trit::majority(a, Trit::Zero) == Trit::Zero,
        Trit::majority(Trit::Zero, b) == Trit::Zero,
{
}

} // verus!
