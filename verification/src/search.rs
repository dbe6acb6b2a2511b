//! Walks over the syntax tree: those that tell whether a part of the tree
//! can be analyzed at all, and those that reset what an analysis has recorded.
use vstd::prelude::*;
use crate::ast::{
    ActualPart, AssociationElement, Choice, DiscreteRange, Expression, WaveformElement, WithPos,
    actual_slots, assoc_ok, assoc_size, assoc_slots, check_shape, choices_ok, drange_ok, elem_ok,
    expr_ok, expr_size, expr_slots, formal_slots, lemma_assoc_ok_prefix, opt_ok, waveform_ok,
};
use crate::references::References;

verus! {

/// Makes every name node of the expression unresolved.
#[verifier::loop_isolation(false)]
pub fn clear_references(expr: &Expression, refs: &mut References)
    ensures
        final(refs)@ == old(refs)@.remove_keys(expr_slots(*expr)),
    decreases expr_size(*expr),
{
    match expr {
        Expression::Literal(_) => {
            assert(refs@ =~= old(refs)@.remove_keys(expr_slots(*expr)));
        },
        Expression::Name(name) => {
            refs.clear_reference(name.reference);
            assert(refs@ =~= old(refs)@.remove_keys(expr_slots(*expr)));
        },
        Expression::Call(call) => {
            refs.clear_reference(call.name.reference);
            clear_assoc_references(&call.parameters, refs);
            assert(refs@ =~= old(refs)@.remove_keys(expr_slots(*expr)));
        },
        Expression::Binary(op, left, right) => {
            refs.clear_reference(op.reference);
            clear_references(&left.item, refs);
            clear_references(&right.item, refs);
            assert(refs@ =~= old(refs)@.remove_keys(expr_slots(*expr)));
        },
        Expression::Unary(op, operand) => {
            refs.clear_reference(op.reference);
            clear_references(&operand.item, refs);
            assert(refs@ =~= old(refs)@.remove_keys(expr_slots(*expr)));
        },
    }
}

/// Makes every name node of the association list unresolved.
#[verifier::loop_isolation(false)]
pub fn clear_assoc_references(elems: &Vec<AssociationElement>, refs: &mut References)
    ensures
        final(refs)@ == old(refs)@.remove_keys(assoc_slots(elems@, elems@.len())),
    decreases assoc_size(elems@, elems@.len()),
{
    let mut i: usize = 0;
    assert(refs@ =~= old(refs)@.remove_keys(assoc_slots(elems@, 0)));
    while i < elems.len()
        invariant
            i <= elems.len(),
            refs@ == old(refs)@.remove_keys(assoc_slots(elems@, i as nat)),
        decreases elems.len() - i,
    {
        let elem = &elems[i];
        proof {
            lemma_assoc_size_mono(elems@, (i + 1) as nat, elems@.len());
        }
        let ghost before = refs@;
        if let Some(name) = &elem.formal {
            refs.clear_reference(name.reference);
        }
        assert(refs@ =~= before.remove_keys(formal_slots(*elem)));
        let ghost middle = refs@;
        match &elem.actual {
            ActualPart::Expression(actual) => {
                clear_references(&actual.item, refs);
            },
            ActualPart::Open(_) => {},
        }
        assert(refs@ =~= middle.remove_keys(actual_slots(*elem)));
        assert(assoc_slots(elems@, (i + 1) as nat) == assoc_slots(elems@, i as nat) + formal_slots(
            elems@[i as int],
        ) + actual_slots(elems@[i as int]));
        assert(refs@ =~= old(refs)@.remove_keys(assoc_slots(elems@, (i + 1) as nat)));
        i = i + 1;
    }
}

/// The size of a prefix of an association list grows with the prefix.
pub proof fn lemma_assoc_size_mono(elems: Seq<AssociationElement>, k: nat, n: nat)
    requires
        k <= n <= elems.len(),
    ensures
        assoc_size(elems, k) <= assoc_size(elems, n),
    decreases n,
{
    if k < n {
        lemma_assoc_size_mono(elems, k, (n - 1) as nat);
    }
}

/// Whether every association list in the expression is well shaped.
pub fn expr_is_ok(expr: &Expression) -> (ok: bool)
    ensures
        ok == expr_ok(*expr),
    decreases expr_size(*expr),
{
    match expr {
        Expression::Literal(_) => true,
        Expression::Name(_) => true,
        Expression::Call(call) => assoc_is_ok(&call.parameters),
        Expression::Binary(_, left, right) => expr_is_ok(&left.item) && expr_is_ok(&right.item),
        Expression::Unary(_, operand) => expr_is_ok(&operand.item),
    }
}

/// Whether the association list and every list in its actuals is well
/// shaped.
#[verifier::loop_isolation(false)]
pub fn assoc_is_ok(elems: &Vec<AssociationElement>) -> (ok: bool)
    ensures
        ok == assoc_ok(elems@, elems@.len()),
    decreases assoc_size(elems@, elems@.len()),
{
    if !check_shape(elems) {
        proof {
            if assoc_ok(elems@, elems@.len()) {
                lemma_assoc_ok_prefix(elems@, 0, elems@.len());
            }
        }
        return false;
    }
    let mut i: usize = 0;
    while i < elems.len()
        invariant
            i <= elems.len(),
            assoc_ok(elems@, i as nat),
        decreases elems.len() - i,
    {
        proof {
            lemma_assoc_size_mono(elems@, (i + 1) as nat, elems@.len());
        }
        let fine = match &elems[i].actual {
            ActualPart::Expression(actual) => expr_is_ok(&actual.item),
            ActualPart::Open(_) => true,
        };
        assert(fine == elem_ok(elems@[i as int]));
        if !fine {
            proof {
                if assoc_ok(elems@, elems@.len()) {
                    lemma_assoc_ok_prefix(elems@, (i + 1) as nat, elems@.len());
                }
            }
            return false;
        }
        i = i + 1;
    }
    true
}

/// Whether every association list in an expression that may be absent is
/// well shaped.
pub fn opt_is_ok(expr: &Option<WithPos<Expression>>) -> (ok: bool)
    ensures
        ok == opt_ok(*expr),
{
    match expr {
        Some(expr) => expr_is_ok(&expr.item),
        None => true,
    }
}

/// Whether every association list in a discrete range is well shaped.
pub fn drange_is_ok(drange: &DiscreteRange) -> (ok: bool)
    ensures
        ok == drange_ok(*drange),
{
    match drange {
        DiscreteRange::Discrete(_) => true,
        DiscreteRange::Range(left, right) => expr_is_ok(&left.item) && expr_is_ok(&right.item),
    }
}

/// Whether every association list in the choices is well shaped.
pub fn choices_are_ok(choices: &Vec<Choice>) -> (ok: bool)
    ensures
        ok == choices_ok(choices@, choices@.len()),
{
    let mut i: usize = 0;
    while i < choices.len()
        invariant
            i <= choices.len(),
            choices_ok(choices@, i as nat),
        decreases choices.len() - i,
    {
        let fine = match &choices[i] {
            Choice::Expression(expr) => expr_is_ok(&expr.item),
            Choice::DiscreteRange(drange) => drange_is_ok(drange),
            Choice::Others => true,
        };
        if !fine {
            proof {
                if choices_ok(choices@, choices@.len()) {
                    lemma_choices_ok_prefix(choices@, (i + 1) as nat, choices@.len());
                }
            }
            return false;
        }
        i = i + 1;
    }
    true
}

/// Whether every association list in the waveform is well shaped.
pub fn waveform_is_ok(elems: &Vec<WaveformElement>) -> (ok: bool)
    ensures
        ok == waveform_ok(elems@, elems@.len()),
{
    let mut i: usize = 0;
    while i < elems.len()
        invariant
            i <= elems.len(),
            waveform_ok(elems@, i as nat),
        decreases elems.len() - i,
    {
        if !(expr_is_ok(&elems[i].value.item) && opt_is_ok(&elems[i].after)) {
            proof {
                if waveform_ok(elems@, elems@.len()) {
                    lemma_waveform_ok_prefix(elems@, (i + 1) as nat, elems@.len());
                }
            }
            return false;
        }
        i = i + 1;
    }
    true
}

/// Choices that are well formed up to one of them are well formed up to
/// every earlier one.
pub proof fn lemma_choices_ok_prefix(choices: Seq<Choice>, k: nat, n: nat)
    requires
        k <= n <= choices.len(),
        choices_ok(choices, n),
    ensures
        choices_ok(choices, k),
    decreases n,
{
    if k < n {
        lemma_choices_ok_prefix(choices, k, (n - 1) as nat);
    }
}

/// A waveform that is well formed up to an element is well formed up to
/// every earlier one.
pub proof fn lemma_waveform_ok_prefix(elems: Seq<WaveformElement>, k: nat, n: nat)
    requires
        k <= n <= elems.len(),
        waveform_ok(elems, n),
    ensures
        waveform_ok(elems, k),
    decreases n,
{
    if k < n {
        lemma_waveform_ok_prefix(elems, k, (n - 1) as nat);
    }
}

} // verus!
