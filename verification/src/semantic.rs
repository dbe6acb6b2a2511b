//! The three-valued result of matching an expression against a type.
use vstd::prelude::*;

verus! {

/// Whether an expression matches an expected type. `Unknown` means that the
/// type of the expression could not be determined; it is not a mismatch.
#[derive(Clone, Copy, Debug, PartialEq, Eq, Structural)]
pub enum TypeCheck {
    Okay,
    NotOk,
    Unknown,
}

impl TypeCheck {
    pub open spec fn spec_from_bool(check: bool) -> TypeCheck {
        if check {
            TypeCheck::Okay
        } else {
            TypeCheck::NotOk
        }
    }

    /// The check of two things together: a mismatch on either side is a
    /// mismatch, otherwise an unknown on either side is unknown.
    pub open spec fn spec_combine(&self, other: TypeCheck) -> TypeCheck {
        if *self == TypeCheck::NotOk || other == TypeCheck::NotOk {
            TypeCheck::NotOk
        } else if *self == TypeCheck::Unknown || other == TypeCheck::Unknown {
            TypeCheck::Unknown
        } else {
            TypeCheck::Okay
        }
    }

    #[verifier::when_used_as_spec(spec_from_bool)]
    pub fn from_bool(check: bool) -> (res: TypeCheck)
        ensures
            res == Self::spec_from_bool(check),
    {
        if check {
            TypeCheck::Okay
        } else {
            TypeCheck::NotOk
        }
    }

    #[verifier::when_used_as_spec(spec_combine)]
    pub fn combine(&self, other: TypeCheck) -> (res: TypeCheck)
        ensures
            res == self.spec_combine(other),
    {
        match other {
            TypeCheck::Okay => *self,
            TypeCheck::NotOk => TypeCheck::NotOk,
            TypeCheck::Unknown => {
                match *self {
                    TypeCheck::NotOk => TypeCheck::NotOk,
                    _ => TypeCheck::Unknown,
                }
            },
        }
    }

    pub fn add(&mut self, other: TypeCheck)
        ensures
            *final(self) == old(self).spec_combine(other),
    {
        *self = self.combine(other);
    }
}

/// Combination is commutative and associative, `Okay` is its unit, and the
/// result is `Okay` only where both sides are.
pub proof fn lemma_combine_laws(a: TypeCheck, b: TypeCheck, c: TypeCheck)
    ensures
        a.combine(b) == b.combine(a),
        a.combine(b).combine(c) == a.combine(b.combine(c)),
        a.combine(TypeCheck::Okay) == a,
        a.combine(b) == TypeCheck::Okay <==> a == TypeCheck::Okay && b == TypeCheck::Okay,
{
}

} // verus!
