//! Laws of the engine: properties that hold of every input, stated over
//! the specification functions the public contracts use.
use vstd::prelude::*;
use crate::token::SpecToken;
use crate::lexer::spec_tokenize;
use crate::parser::{
    SpecOp, SpecParse, spec_parse_b, spec_parse_u, spec_parse_u_prime, spec_parse_p,
    spec_parse_p_prime, spec_parse_e, spec_parse_e_prime, spec_compile, spec_clamp, spec_dec,
};
use crate::machine::{
    EvalMachine, MachineState, Pending, SpecEvalOutcome, spec_bind, spec_initial_state,
    spec_provide, spec_run,
};
use crate::token::SpecCalcError;
use crate::ieee::{spec_is_infinite, lemma_negate_fields};

verus! {

/// One whole evaluation, as a mathematical function of everything that
/// goes into it: the input text, the bit patterns the platform parses
/// the numerals to, the bit patterns it answers the arithmetic requests
/// with, and a step bound. `None` only when the bound or the answers run
/// short; a driver that answers every request never sees it.
pub open spec fn spec_evaluate(
    text: Seq<char>,
    vals: Seq<u64>,
    responses: Seq<u64>,
    fuel: nat,
) -> Option<SpecEvalOutcome> {
    match spec_tokenize(text, 0) {
        Err(e) => Some(SpecEvalOutcome::Failure(SpecCalcError::Token(e))),
        Ok(toks) => {
            let (ops, err) = spec_compile(toks);
            spec_run(spec_initial_state(spec_bind(ops, vals), err), responses, fuel)
        },
    }
}

/// Evaluation is deterministic: the token sequence, the compiled
/// program, and the whole machine run are each mathematical functions,
/// so two evaluations of identical text whose numerals parse to the same
/// values and whose arithmetic requests receive the same answers reach
/// the same outcome — the same value or the same error.
pub proof fn lemma_evaluation_deterministic(
    a: Seq<char>,
    b: Seq<char>,
    vals_a: Seq<u64>,
    vals_b: Seq<u64>,
    resp_a: Seq<u64>,
    resp_b: Seq<u64>,
    fuel: nat,
)
    requires
        a == b,
        vals_a == vals_b,
        resp_a == resp_b,
    ensures
        spec_tokenize(a, 0) == spec_tokenize(b, 0),
        (match (spec_tokenize(a, 0), spec_tokenize(b, 0)) {
            (Ok(t1), Ok(t2)) => spec_compile(t1) == spec_compile(t2),
            _ => true,
        }),
        spec_evaluate(a, vals_a, resp_a, fuel) == spec_evaluate(b, vals_b, resp_b, fuel),
{
}

/// A phrase that ends at a closing parenthesis takes the whole
/// expression level without change: every continuation above the factor
/// is empty there, so the expression emits exactly the factor's
/// operations.
pub proof fn lemma_collapse_at_rparen(toks: Seq<SpecToken>, j: int, budget: int)
    requires
        0 <= j <= toks.len(),
        (match spec_parse_b(toks, j, budget) {
            SpecParse::Done { ops, next } => j <= next < toks.len() && toks[next] is RightParen,
            SpecParse::Fail { .. } => false,
        }),
    ensures
        spec_parse_e(toks, j, budget) == spec_parse_b(toks, j, budget),
{
    let r = spec_parse_b(toks, j, budget);
    match r {
        SpecParse::Done { ops, next } => {
            // the factor is a unit: no exponent follows
            assert(spec_clamp(j, next, toks.len() as int) == next);
            assert(spec_parse_u_prime(toks, next, budget) == (SpecParse::Done {
                ops: Seq::<SpecOp>::empty(),
                next,
            }));
            assert(ops + Seq::<SpecOp>::empty() =~= ops);
            assert(spec_parse_u(toks, j, budget) == (SpecParse::Done { ops, next }));
            // the unit is a product: no multiplicative continuation
            assert(spec_parse_p_prime(toks, next, budget) == (SpecParse::Done {
                ops: Seq::<SpecOp>::empty(),
                next,
            }));
            assert(spec_parse_p(toks, j, budget) == (SpecParse::Done { ops, next }));
            // the product is an expression: no additive continuation
            assert(spec_parse_e_prime(toks, next, budget) == (SpecParse::Done {
                ops: Seq::<SpecOp>::empty(),
                next,
            }));
            assert(spec_parse_e(toks, j, budget) == (SpecParse::Done { ops, next }));
        },
        SpecParse::Fail { .. } => {},
    }
}

/// Wrapping a valid sub-expression in any number of parentheses does not
/// change what it compiles to, and with it not the evaluated value: `k`
/// opening parentheses at `i`, the expression itself, and `k` closing
/// parentheses emit exactly the operations of the bare expression.
pub proof fn lemma_parens_transparent(toks: Seq<SpecToken>, i: int, k: int, m: int, budget: int)
    requires
        1 <= k,
        k < budget,
        0 <= i,
        i + k <= toks.len(),
        forall|d: int| 0 <= d < k ==> toks[#[trigger] (i + d)] is LeftParen,
        (match spec_parse_e(toks, i + k, budget - k) {
            SpecParse::Done { ops, next } => next == m,
            SpecParse::Fail { .. } => false,
        }),
        m + k <= toks.len(),
        forall|d: int| 0 <= d < k ==> toks[#[trigger] (m + d)] is RightParen,
        i + k <= m,
        m < toks.len(),
    ensures
        spec_parse_b(toks, i, budget) == (match spec_parse_e(toks, i + k, budget - k) {
            SpecParse::Done { ops, next } => SpecParse::Done { ops, next: m + k },
            SpecParse::Fail { ops, err } => SpecParse::Fail { ops, err },
        }),
    decreases k,
{
    let inner = spec_parse_e(toks, i + k, budget - k);
    match inner {
        SpecParse::Done { ops, next } => {
            assert(toks[i + 0] is LeftParen);
            assert(toks[m + 0] is RightParen);
            assert(spec_dec(budget) == budget - 1);
            if k == 1 {
                // one pair: the factor rule itself
                assert(spec_parse_e(toks, i + 1, budget - 1) == (SpecParse::Done { ops, next }));
            } else {
                // peel the outermost pair and use the shorter wrap inside
                assert forall|d: int| 0 <= d < k - 1 implies toks[#[trigger] ((i + 1)
                    + d)] is LeftParen by {
                    assert(toks[i + (d + 1)] is LeftParen);
                }
                assert(spec_parse_e(toks, (i + 1) + (k - 1), (budget - 1) - (k - 1)) == inner);
                lemma_parens_transparent(toks, i + 1, k - 1, m, budget - 1);
                assert(spec_parse_b(toks, i + 1, budget - 1) == (SpecParse::Done {
                    ops,
                    next: m + (k - 1),
                }));
                assert(toks[m + (k - 1)] is RightParen);
                assert(m + (k - 1) < toks.len());
                lemma_collapse_at_rparen(toks, i + 1, budget - 1);
                assert(spec_parse_e(toks, i + 1, budget - 1) == (SpecParse::Done {
                    ops,
                    next: m + (k - 1),
                }));
                assert(toks[m + (k - 1)] is RightParen);
            }
        },
        SpecParse::Fail { .. } => {},
    }
}

/// An infinite arithmetic answer never reaches the stack: providing it
/// pushes nothing, and — except for a root's intermediate reciprocal,
/// which only parameterizes the next request — it fails the run on the
/// spot, with an overflow error for the four plain operations and for a
/// negative base's root, and with the operation's own invalid-result
/// error for a power or a nonnegative base's root.
pub proof fn lemma_infinite_answer_rejected(s: MachineState, result: u64)
    requires
        s.pending is Some,
        spec_is_infinite(result),
    ensures
        spec_provide(s, result).0.stack == s.stack,
        !(s.pending->0 is RootRecip) ==> spec_provide(s, result).0.failed is Some,
{
    match s.pending->0 {
        Pending::RootPow { negated, .. } => {
            if negated {
                lemma_negate_fields(result);
            }
        },
        _ => {},
    }
}

/// No infinity ever rests on a well-formed machine's stack, so no
/// infinite value is ever a usable operand of a further operation.
pub proof fn lemma_no_infinity_rests(m: EvalMachine, i: int)
    requires
        m.wf(),
        0 <= i < m.stack@.len(),
    ensures
        !spec_is_infinite(m.stack@[i]),
{
}

} // verus!
