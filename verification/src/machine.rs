//! The evaluation machine: runs a compiled program over a stack of
//! IEEE 754 binary64 bit patterns.
//!
//! The machine makes every decision of the evaluator — the division-by-
//! zero test, the root domain policy, and the range check that gates
//! every arithmetic result — but performs no floating-point arithmetic
//! itself. Whenever a raw IEEE operation is due, it hands the caller an
//! `ArithRequest`; the caller computes the one operation on its own
//! doubles and feeds the resulting bit pattern back through `provide`.
//! The machine's contracts state what happens for every possible answer,
//! so nothing depends on the caller beyond that one arithmetic step.
use vstd::prelude::*;
use crate::ieee::{
    ONE_BITS, spec_negate, spec_is_nan, spec_is_infinite, spec_is_zero, spec_is_subnormal,
    spec_is_negative, spec_fract_nonzero, spec_trunc_even, negate, is_nan, is_infinite, is_zero,
    is_subnormal, is_negative, fract_nonzero, trunc_even, lemma_negate_fields,
};
use crate::token::{CalcError, MathError, SpecCalcError};
use crate::parser::{Op, SpecOp, Program, spec_stack_safe, spec_stack_height};

verus! {

/// One instruction of a bound program: as `Op`, but with each numeral
/// replaced by the bit pattern of its parsed value.
#[derive(Debug, Clone, Copy, PartialEq, Eq, Structural)]
pub enum Instr {
    Push(u64),
    Neg,
    Add,
    Sub,
    Mul,
    Div,
    Pow,
    Root,
}

/// The raw IEEE operations the machine asks its caller to perform.
#[derive(Debug, Clone, Copy, PartialEq, Eq, Structural)]
pub enum ArithOp {
    Add,
    Sub,
    Mul,
    Div,
    Pow,
}

/// One requested arithmetic step: apply `op` to the values whose bit
/// patterns are `lhs` and `rhs`, and hand back the result's bit pattern.
#[derive(Debug, Clone, Copy, PartialEq, Eq, Structural)]
pub struct ArithRequest {
    pub op: ArithOp,
    pub lhs: u64,
    pub rhs: u64,
}

/// What the machine is waiting for while an arithmetic step is out.
#[derive(Debug, Clone, Copy, PartialEq, Eq, Structural)]
pub enum Pending {
    /// A result of `+ - * /` that still must pass the range check.
    Range { op: ArithOp, lhs: u64, rhs: u64 },
    /// A result of `^` that must pass the exponentiation check, then the
    /// range check.
    PowCheck { base: u64, exponent: u64 },
    /// The reciprocal of the root index is being computed.
    RootRecip { base: u64, root: u64, negated: bool },
    /// The root's power is being computed; `negated` says the base was
    /// negative, so the result is negated and range-checked only.
    RootPow { base: u64, root: u64, negated: bool, recip: u64 },
}

/// The request a pending state stands for.
pub open spec fn spec_request(p: Pending) -> ArithRequest {
    match p {
        Pending::Range { op, lhs, rhs } => ArithRequest { op, lhs, rhs },
        Pending::PowCheck { base, exponent } => ArithRequest { op: ArithOp::Pow, lhs: base, rhs: exponent },
        Pending::RootRecip { base, root, negated } => ArithRequest { op: ArithOp::Div, lhs: ONE_BITS, rhs: root },
        Pending::RootPow { base, root, negated, recip } => ArithRequest {
            op: ArithOp::Pow,
            lhs: if negated {
                spec_negate(base)
            } else {
                base
            },
            rhs: recip,
        },
    }
}

/// How one call into the machine left it.
#[derive(Debug, Clone, Copy, PartialEq, Eq, Structural)]
pub enum Status {
    /// An internal step was taken; call `step` again.
    Running,
    /// The caller must compute the requested operation and `provide` the
    /// result.
    NeedArith(ArithRequest),
    /// The evaluation is over; `finish` yields the outcome.
    Finished,
}

/// The final outcome of an evaluation: the result's bit pattern, or the
/// error that stopped it.
#[derive(Debug, Clone, PartialEq)]
pub enum EvalOutcome {
    Value(u64),
    Failure(CalcError),
}

/// Mathematical model of an outcome.
pub enum SpecEvalOutcome {
    Value(u64),
    Failure(SpecCalcError),
}

impl View for EvalOutcome {
    type V = SpecEvalOutcome;

    open spec fn view(&self) -> SpecEvalOutcome {
        match self {
            EvalOutcome::Value(v) => SpecEvalOutcome::Value(*v),
            EvalOutcome::Failure(e) => SpecEvalOutcome::Failure(e@),
        }
    }
}

impl DeepView for EvalOutcome {
    type V = SpecEvalOutcome;

    open spec fn deep_view(&self) -> SpecEvalOutcome {
        self.view()
    }
}

/// Mathematical model of the machine's state: every field abstracted to
/// its view. The machine's two methods are, at this level, functions
/// from state (and one provided bit pattern) to state and status.
pub struct MachineState {
    pub instrs: Seq<Instr>,
    pub error: Option<SpecCalcError>,
    pub pc: int,
    pub stack: Seq<u64>,
    pub pending: Option<Pending>,
    pub failed: Option<MathError>,
}

/// The run is over: an arithmetic error was recorded, or the whole
/// program has been executed.
pub open spec fn spec_state_finished(s: MachineState) -> bool {
    s.failed is Some || (s.pending is None && s.pc >= s.instrs.len())
}

/// The outcome a finished state yields.
pub open spec fn spec_state_outcome(s: MachineState) -> SpecEvalOutcome {
    match s.failed {
        Some(m) => SpecEvalOutcome::Failure(SpecCalcError::Math(m)),
        None => match s.error {
            Some(e) => SpecEvalOutcome::Failure(e),
            None => SpecEvalOutcome::Value(s.stack[0]),
        },
    }
}

/// The starting state over a bound program.
pub open spec fn spec_initial_state(instrs: Seq<Instr>, error: Option<SpecCalcError>) -> MachineState {
    MachineState { instrs, error, pc: 0, stack: Seq::empty(), pending: None, failed: None }
}

/// One step of the machine, as a function of its state.
pub open spec fn spec_step(s: MachineState) -> (MachineState, Status) {
    if spec_state_finished(s) {
        (s, Status::Finished)
    } else if s.pending is Some {
        (s, Status::NeedArith(spec_request(s.pending->0)))
    } else {
        let ins = s.instrs[s.pc];
        let len = s.stack.len() as int;
        match ins {
            Instr::Push(v) => (
                (MachineState { pc: s.pc + 1, stack: s.stack.push(v), ..s }),
                Status::Running,
            ),
            Instr::Neg => (
                (MachineState {
                    pc: s.pc + 1,
                    stack: s.stack.take(len - 1).push(spec_negate(s.stack[len - 1])),
                    ..s
                }),
                Status::Running,
            ),
            Instr::Add | Instr::Sub | Instr::Mul => {
                let op = if ins is Add {
                    ArithOp::Add
                } else if ins is Sub {
                    ArithOp::Sub
                } else {
                    ArithOp::Mul
                };
                let lhs = s.stack[len - 2];
                let rhs = s.stack[len - 1];
                (
                    (MachineState {
                        stack: s.stack.take(len - 2),
                        pending: Some(Pending::Range { op, lhs, rhs }),
                        ..s
                    }),
                    Status::NeedArith(ArithRequest { op, lhs, rhs }),
                )
            },
            Instr::Div => {
                let lhs = s.stack[len - 2];
                let rhs = s.stack[len - 1];
                if spec_is_zero(rhs) {
                    (
                        (MachineState {
                            stack: s.stack.take(len - 2),
                            failed: Some(MathError::DivisionByZero),
                            ..s
                        }),
                        Status::Finished,
                    )
                } else {
                    (
                        (MachineState {
                            stack: s.stack.take(len - 2),
                            pending: Some(Pending::Range { op: ArithOp::Div, lhs, rhs }),
                            ..s
                        }),
                        Status::NeedArith(ArithRequest { op: ArithOp::Div, lhs, rhs }),
                    )
                }
            },
            Instr::Pow => {
                let base = s.stack[len - 2];
                let exponent = s.stack[len - 1];
                (
                    (MachineState {
                        stack: s.stack.take(len - 2),
                        pending: Some(Pending::PowCheck { base, exponent }),
                        ..s
                    }),
                    Status::NeedArith(ArithRequest { op: ArithOp::Pow, lhs: base, rhs: exponent }),
                )
            },
            Instr::Root => {
                let base = s.stack[len - 2];
                let root = s.stack[len - 1];
                if spec_is_zero(root) {
                    (
                        (MachineState {
                            stack: s.stack.take(len - 2),
                            failed: Some(MathError::DivisionByZero),
                            ..s
                        }),
                        Status::Finished,
                    )
                } else if spec_is_negative(base) && spec_fract_nonzero(root) {
                    (
                        (MachineState {
                            stack: s.stack.take(len - 2),
                            failed: Some(MathError::NegativeRoot { base, root }),
                            ..s
                        }),
                        Status::Finished,
                    )
                } else if spec_is_negative(base) && spec_trunc_even(root) {
                    (
                        (MachineState {
                            stack: s.stack.take(len - 2),
                            failed: Some(MathError::EvenRootOfNegative { base, root }),
                            ..s
                        }),
                        Status::Finished,
                    )
                } else {
                    (
                        (MachineState {
                            stack: s.stack.take(len - 2),
                            pending: Some(
                                Pending::RootRecip { base, root, negated: spec_is_negative(base) },
                            ),
                            ..s
                        }),
                        Status::NeedArith(
                            ArithRequest { op: ArithOp::Div, lhs: ONE_BITS, rhs: root },
                        ),
                    )
                }
            },
        }
    }
}

/// Accepting one arithmetic result, as a function of the state and the
/// result's bit pattern.
pub open spec fn spec_provide(s: MachineState, result: u64) -> (MachineState, Status) {
    match s.pending {
        None => (s, Status::Running),
        Some(p) => match p {
            Pending::Range { op, lhs, rhs } => if spec_is_infinite(result) {
                (
                    (MachineState { pending: None, failed: Some(MathError::OverflowError), ..s }),
                    Status::Finished,
                )
            } else if spec_is_subnormal(result) {
                (
                    (MachineState { pending: None, failed: Some(MathError::UnderflowError), ..s }),
                    Status::Finished,
                )
            } else {
                (
                    (MachineState {
                        pending: None,
                        pc: s.pc + 1,
                        stack: s.stack.push(result),
                        ..s
                    }),
                    Status::Running,
                )
            },
            Pending::PowCheck { base, exponent } => if spec_is_nan(result) || spec_is_infinite(
                result,
            ) {
                (
                    (MachineState {
                        pending: None,
                        failed: Some(MathError::InvalidExponentiation { base, exponent }),
                        ..s
                    }),
                    Status::Finished,
                )
            } else if spec_is_subnormal(result) {
                (
                    (MachineState { pending: None, failed: Some(MathError::UnderflowError), ..s }),
                    Status::Finished,
                )
            } else {
                (
                    (MachineState {
                        pending: None,
                        pc: s.pc + 1,
                        stack: s.stack.push(result),
                        ..s
                    }),
                    Status::Running,
                )
            },
            Pending::RootRecip { base, root, negated } => {
                let p2 = Pending::RootPow { base, root, negated, recip: result };
                ((MachineState { pending: Some(p2), ..s }), Status::NeedArith(spec_request(p2)))
            },
            Pending::RootPow { base, root, negated, recip } => if negated {
                let v = spec_negate(result);
                if spec_is_infinite(v) {
                    (
                        (MachineState {
                            pending: None,
                            failed: Some(MathError::OverflowError),
                            ..s
                        }),
                        Status::Finished,
                    )
                } else if spec_is_subnormal(v) {
                    (
                        (MachineState {
                            pending: None,
                            failed: Some(MathError::UnderflowError),
                            ..s
                        }),
                        Status::Finished,
                    )
                } else {
                    (
                        (MachineState {
                            pending: None,
                            pc: s.pc + 1,
                            stack: s.stack.push(v),
                            ..s
                        }),
                        Status::Running,
                    )
                }
            } else {
                if spec_is_nan(result) || spec_is_infinite(result) {
                    (
                        (MachineState {
                            pending: None,
                            failed: Some(MathError::InvalidRoot { base, root }),
                            ..s
                        }),
                        Status::Finished,
                    )
                } else if spec_is_subnormal(result) {
                    (
                        (MachineState {
                            pending: None,
                            failed: Some(MathError::UnderflowError),
                            ..s
                        }),
                        Status::Finished,
                    )
                } else {
                    (
                        (MachineState {
                            pending: None,
                            pc: s.pc + 1,
                            stack: s.stack.push(result),
                            ..s
                        }),
                        Status::Running,
                    )
                }
            },
        },
    }
}

/// A whole run from state `s`: each requested arithmetic step is
/// answered with the next of `responses`. `None` when the fuel or the
/// responses run out first; a real run of the machine, which takes one
/// answer per request, never does.
pub open spec fn spec_run(s: MachineState, responses: Seq<u64>, fuel: nat) -> Option<SpecEvalOutcome>
    decreases fuel,
{
    if spec_state_finished(s) {
        Some(spec_state_outcome(s))
    } else if fuel == 0 {
        None
    } else {
        let (s2, st) = spec_step(s);
        match st {
            Status::NeedArith(_) => if responses.len() == 0 {
                None
            } else {
                spec_run(spec_provide(s2, responses[0]).0, responses.skip(1), (fuel - 1) as nat)
            },
            _ => spec_run(s2, responses, (fuel - 1) as nat),
        }
    }
}

/// Stack safety of a bound program, as for the unbound one.
pub open spec fn spec_instr_safe(instrs: Seq<Instr>, h: int) -> bool
    decreases instrs.len(),
{
    if instrs.len() == 0 {
        true
    } else {
        match instrs[0] {
            Instr::Push(_) => spec_instr_safe(instrs.skip(1), h + 1),
            Instr::Neg => h >= 1 && spec_instr_safe(instrs.skip(1), h),
            _ => h >= 2 && spec_instr_safe(instrs.skip(1), h - 1),
        }
    }
}

/// Stack height of a bound program, as for the unbound one.
pub open spec fn spec_instr_height(instrs: Seq<Instr>, h: int) -> int
    decreases instrs.len(),
{
    if instrs.len() == 0 {
        h
    } else {
        match instrs[0] {
            Instr::Push(_) => spec_instr_height(instrs.skip(1), h + 1),
            Instr::Neg => spec_instr_height(instrs.skip(1), h),
            _ => spec_instr_height(instrs.skip(1), h - 1),
        }
    }
}

/// Every pushed bit pattern encodes a finite value. The lexer only lets
/// finite numerals through, so every bound program has this.
pub open spec fn spec_pushes_finite(instrs: Seq<Instr>) -> bool {
    forall|j: int|
        0 <= j < instrs.len() ==> match #[trigger] instrs[j] {
            Instr::Push(v) => !spec_is_infinite(v),
            _ => true,
        }
}

/// The numeral texts of the program's push operations, in program order.
pub open spec fn spec_numerals(ops: Seq<SpecOp>) -> Seq<Seq<char>>
    decreases ops.len(),
{
    if ops.len() == 0 {
        Seq::empty()
    } else {
        match ops[0] {
            SpecOp::Push(t) => seq![t] + spec_numerals(ops.skip(1)),
            _ => spec_numerals(ops.skip(1)),
        }
    }
}

/// The program with each push's numeral replaced by a value from `vals`,
/// consumed in order.
pub open spec fn spec_bind(ops: Seq<SpecOp>, vals: Seq<u64>) -> Seq<Instr>
    decreases ops.len(),
{
    if ops.len() == 0 {
        Seq::empty()
    } else {
        match ops[0] {
            SpecOp::Push(_) => seq![Instr::Push(vals[0])] + spec_bind(ops.skip(1), vals.skip(1)),
            SpecOp::Neg => seq![Instr::Neg] + spec_bind(ops.skip(1), vals),
            SpecOp::Add => seq![Instr::Add] + spec_bind(ops.skip(1), vals),
            SpecOp::Sub => seq![Instr::Sub] + spec_bind(ops.skip(1), vals),
            SpecOp::Mul => seq![Instr::Mul] + spec_bind(ops.skip(1), vals),
            SpecOp::Div => seq![Instr::Div] + spec_bind(ops.skip(1), vals),
            SpecOp::Pow => seq![Instr::Pow] + spec_bind(ops.skip(1), vals),
            SpecOp::Root => seq![Instr::Root] + spec_bind(ops.skip(1), vals),
        }
    }
}

/// Binding values changes no instruction's stack behaviour: safety and
/// height carry over from the compiled program.
pub proof fn lemma_bind_stack(ops: Seq<SpecOp>, vals: Seq<u64>, h: int)
    ensures
        spec_instr_height(spec_bind(ops, vals), h) == spec_stack_height(ops, h),
        spec_stack_safe(ops, h) ==> spec_instr_safe(spec_bind(ops, vals), h),
    decreases ops.len(),
{
    if ops.len() == 0 {
    } else {
        let b = spec_bind(ops, vals);
        match ops[0] {
            SpecOp::Push(_) => {
                assert(b.skip(1) =~= spec_bind(ops.skip(1), vals.skip(1)));
                lemma_bind_stack(ops.skip(1), vals.skip(1), h + 1);
            },
            SpecOp::Neg => {
                assert(b.skip(1) =~= spec_bind(ops.skip(1), vals));
                lemma_bind_stack(ops.skip(1), vals, h);
            },
            _ => {
                assert(b.skip(1) =~= spec_bind(ops.skip(1), vals));
                lemma_bind_stack(ops.skip(1), vals, h - 1);
            },
        }
    }
}

/// Binding enough finite values yields a program whose pushes are all
/// finite.
pub proof fn lemma_bind_finite(ops: Seq<SpecOp>, vals: Seq<u64>)
    requires
        vals.len() == spec_numerals(ops).len(),
        forall|k: int| 0 <= k < vals.len() ==> !spec_is_infinite(#[trigger] vals[k]),
    ensures
        spec_pushes_finite(spec_bind(ops, vals)),
    decreases ops.len(),
{
    if ops.len() == 0 {
    } else {
        let b = spec_bind(ops, vals);
        match ops[0] {
            SpecOp::Push(t) => {
                assert(spec_numerals(ops) == seq![t] + spec_numerals(ops.skip(1)));
                assert(vals.len() >= 1);
                assert(forall|k: int|
                    0 <= k < vals.skip(1).len() ==> !spec_is_infinite(#[trigger] vals.skip(1)[k]));
                lemma_bind_finite(ops.skip(1), vals.skip(1));
                assert(b.skip(1) =~= spec_bind(ops.skip(1), vals.skip(1)));
                assert forall|j: int| 0 <= j < b.len() implies match #[trigger] b[j] {
                    Instr::Push(v) => !spec_is_infinite(v),
                    _ => true,
                } by {
                    if j > 0 {
                        assert(b[j] == b.skip(1)[j - 1]);
                    }
                }
            },
            _ => {
                lemma_bind_finite(ops.skip(1), vals);
                assert(b.skip(1) =~= spec_bind(ops.skip(1), vals));
                assert forall|j: int| 0 <= j < b.len() implies match #[trigger] b[j] {
                    Instr::Push(v) => !spec_is_infinite(v),
                    _ => true,
                } by {
                    if j > 0 {
                        assert(b[j] == b.skip(1)[j - 1]);
                    }
                }
            },
        }
    }
}

/// The numeral texts of the program's pushes, in order: the caller
/// parses each into a double and hands the bit patterns to
/// `bind_values`.
#[verifier::loop_isolation(false)]
pub fn push_numerals(ops: &Vec<Op>) -> (r: Vec<String>)
    ensures
        r.deep_view() == spec_numerals(ops.deep_view()),
{
    let ghost od = ops.deep_view();
    let mut r: Vec<String> = Vec::new();
    let mut j: usize = 0;
    proof {
        assert(r.deep_view() =~= Seq::<Seq<char>>::empty());
        assert(od.skip(0) =~= od);
    }
    while j < ops.len()
        invariant
            0 <= j <= ops.len(),
            spec_numerals(od) == r.deep_view() + spec_numerals(od.skip(j as int)),
        decreases ops.len() - j,
    {
        let ghost before = r.deep_view();
        match &ops[j] {
            Op::Push(s) => {
                r.push(s.clone());
                proof {
                    assert(r.deep_view() =~= before.push(od[j as int]->Push_0));
                }
            },
            _ => {},
        }
        proof {
            assert(od.skip(j as int).skip(1) =~= od.skip(j as int + 1));
            match od[j as int] {
                SpecOp::Push(t) => {
                    assert(before + (seq![t] + spec_numerals(od.skip(j as int + 1)))
                        =~= before.push(t) + spec_numerals(od.skip(j as int + 1)));
                },
                _ => {},
            }
        }
        j = j + 1;
    }
    proof {
        assert(od.skip(ops.len() as int) =~= Seq::<SpecOp>::empty());
        assert(r.deep_view() + Seq::<Seq<char>>::empty() =~= r.deep_view());
    }
    r
}

/// Replaces each push's numeral with the matching value from `vals`,
/// consumed in order.
#[verifier::loop_isolation(false)]
pub fn bind_values(ops: &Vec<Op>, vals: &Vec<u64>) -> (r: Vec<Instr>)
    requires
        vals@.len() == spec_numerals(ops.deep_view()).len(),
    ensures
        r@ == spec_bind(ops.deep_view(), vals@),
{
    let ghost od = ops.deep_view();
    let nv = vals.len();
    let mut r: Vec<Instr> = Vec::new();
    let mut j: usize = 0;
    let mut vi: usize = 0;
    proof {
        assert(r@ =~= Seq::<Instr>::empty());
        assert(od.skip(0) =~= od);
        assert(vals@.skip(0) =~= vals@);
    }
    while j < ops.len()
        invariant
            0 <= j <= ops.len(),
            0 <= vi <= vals@.len(),
            spec_numerals(od.skip(j as int)).len() == vals@.len() - vi,
            spec_bind(od, vals@) == r@ + spec_bind(od.skip(j as int), vals@.skip(vi as int)),
        decreases ops.len() - j,
    {
        let ghost before = r@;
        let ghost rest = od.skip(j as int);
        let ghost vrest = vals@.skip(vi as int);
        proof {
            assert(rest.skip(1) =~= od.skip(j as int + 1));
        }
        match &ops[j] {
            Op::Push(_) => {
                proof {
                    assert(spec_numerals(rest) == seq![rest[0]->Push_0] + spec_numerals(
                        rest.skip(1),
                    ));
                    assert(vals@.len() - vi >= 1);
                    assert(vrest.skip(1) =~= vals@.skip(vi as int + 1));
                    assert(vrest[0] == vals@[vi as int]);
                }
                let v = vals[vi];
                r.push(Instr::Push(v));
                vi = vi + 1;
                proof {
                    assert(before + (seq![Instr::Push(v)] + spec_bind(
                        od.skip(j as int + 1),
                        vals@.skip(vi as int),
                    )) =~= r@ + spec_bind(od.skip(j as int + 1), vals@.skip(vi as int)));
                }
            },
            Op::Neg => {
                r.push(Instr::Neg);
                proof {
                    assert(before + (seq![Instr::Neg] + spec_bind(od.skip(j as int + 1), vrest))
                        =~= r@ + spec_bind(od.skip(j as int + 1), vrest));
                }
            },
            Op::Add => {
                r.push(Instr::Add);
                proof {
                    assert(before + (seq![Instr::Add] + spec_bind(od.skip(j as int + 1), vrest))
                        =~= r@ + spec_bind(od.skip(j as int + 1), vrest));
                }
            },
            Op::Sub => {
                r.push(Instr::Sub);
                proof {
                    assert(before + (seq![Instr::Sub] + spec_bind(od.skip(j as int + 1), vrest))
                        =~= r@ + spec_bind(od.skip(j as int + 1), vrest));
                }
            },
            Op::Mul => {
                r.push(Instr::Mul);
                proof {
                    assert(before + (seq![Instr::Mul] + spec_bind(od.skip(j as int + 1), vrest))
                        =~= r@ + spec_bind(od.skip(j as int + 1), vrest));
                }
            },
            Op::Div => {
                r.push(Instr::Div);
                proof {
                    assert(before + (seq![Instr::Div] + spec_bind(od.skip(j as int + 1), vrest))
                        =~= r@ + spec_bind(od.skip(j as int + 1), vrest));
                }
            },
            Op::Pow => {
                r.push(Instr::Pow);
                proof {
                    assert(before + (seq![Instr::Pow] + spec_bind(od.skip(j as int + 1), vrest))
                        =~= r@ + spec_bind(od.skip(j as int + 1), vrest));
                }
            },
            Op::Root => {
                r.push(Instr::Root);
                proof {
                    assert(before + (seq![Instr::Root] + spec_bind(od.skip(j as int + 1), vrest))
                        =~= r@ + spec_bind(od.skip(j as int + 1), vrest));
                }
            },
        }
        j = j + 1;
    }
    proof {
        assert(od.skip(ops.len() as int) =~= Seq::<SpecOp>::empty());
        assert(r@ + Seq::<Instr>::empty() =~= r@);
    }
    r
}

/// The evaluation machine. `instrs` and `error` come from the compiled
/// program; the stack holds bit patterns of intermediate values; when an
/// arithmetic step is out, `pending` remembers what to do with its
/// result; `failed` records the arithmetic error that stopped the run.
pub struct EvalMachine {
    pub instrs: Vec<Instr>,
    pub error: Option<CalcError>,
    pub pc: usize,
    pub stack: Vec<u64>,
    pub pending: Option<Pending>,
    pub failed: Option<MathError>,
}

impl EvalMachine {
    /// The machine's state, abstracted to its mathematical model.
    pub open spec fn model(&self) -> MachineState {
        MachineState {
            instrs: self.instrs@,
            error: self.error.deep_view(),
            pc: self.pc as int,
            stack: self.stack@,
            pending: self.pending,
            failed: self.failed,
        }
    }

    /// The machine's internal invariant: the rest of the program runs
    /// safely on the current stack, a complete parse still nets exactly
    /// one value, and no infinity ever rests on the stack.
    pub open spec fn wf(&self) -> bool {
        &&& self.pc <= self.instrs@.len()
        &&& spec_pushes_finite(self.instrs@)
        &&& (forall|i: int|
            0 <= i < self.stack@.len() ==> !spec_is_infinite(#[trigger] self.stack@[i]))
        &&& (match self.failed {
            Some(_) => self.pending is None,
            None => match self.pending {
                None => {
                    &&& spec_instr_safe(self.instrs@.skip(self.pc as int), self.stack@.len() as int)
                    &&& (self.error is None ==> spec_instr_height(
                        self.instrs@.skip(self.pc as int),
                        self.stack@.len() as int,
                    ) == 1)
                },
                Some(_) => {
                    &&& self.pc < self.instrs@.len()
                    &&& spec_instr_safe(
                        self.instrs@.skip(self.pc as int + 1),
                        self.stack@.len() as int + 1,
                    )
                    &&& (self.error is None ==> spec_instr_height(
                        self.instrs@.skip(self.pc as int + 1),
                        self.stack@.len() as int + 1,
                    ) == 1)
                },
            },
        })
    }

    /// The run is over: an arithmetic error was recorded, or the whole
    /// program has been executed.
    pub open spec fn spec_finished(&self) -> bool {
        self.failed is Some || (self.pending is None && self.pc >= self.instrs@.len())
    }

    /// The outcome a finished machine yields: the recorded arithmetic
    /// error, else the parse error the program carried, else the single
    /// value left on the stack.
    pub open spec fn spec_outcome(&self) -> EvalOutcome {
        match self.failed {
            Some(m) => EvalOutcome::Failure(CalcError::Math(m)),
            None => match self.error {
                Some(e) => EvalOutcome::Failure(e),
                None => EvalOutcome::Value(self.stack@[0]),
            },
        }
    }

    /// A fresh machine over a bound program. The program must be stack-
    /// safe from the empty stack, net exactly one value when it carries
    /// no parse error, and push only finite values; a program compiled
    /// from lexed tokens and bound to their parsed values has all three.
    pub fn new(instrs: Vec<Instr>, error: Option<CalcError>) -> (r: Self)
        requires
            spec_instr_safe(instrs@, 0),
            error is None ==> spec_instr_height(instrs@, 0) == 1,
            spec_pushes_finite(instrs@),
        ensures
            r.wf(),
            r.instrs == instrs,
            r.error == error,
            r.pc == 0,
            r.stack@.len() == 0,
            r.pending is None,
            r.failed is None,
            r.model() == spec_initial_state(instrs@, error.deep_view()),
    {
        let r = EvalMachine {
            instrs,
            error,
            pc: 0,
            stack: Vec::new(),
            pending: None,
            failed: None,
        };
        proof {
            assert(r.instrs@.skip(0) =~= r.instrs@);
        }
        r
    }

    /// The machine for a compiled program and the parsed values of its
    /// numerals, one value per push in program order. A program that
    /// came out of the parser is stack-safe and nets one value, and
    /// values parsed from lexed numerals are finite, so the conditions
    /// hold along the intended path.
    pub fn for_program(program: Program, values: Vec<u64>) -> (r: Self)
        requires
            spec_stack_safe(program.ops.deep_view(), 0),
            program.error is None ==> spec_stack_height(program.ops.deep_view(), 0) == 1,
            values@.len() == spec_numerals(program.ops.deep_view()).len(),
            forall|k: int| 0 <= k < values@.len() ==> !spec_is_infinite(#[trigger] values@[k]),
        ensures
            r.wf(),
            r.model() == spec_initial_state(
                spec_bind(program.ops.deep_view(), values@),
                program.error.deep_view(),
            ),
    {
        proof {
            lemma_bind_stack(program.ops.deep_view(), values@, 0);
            lemma_bind_finite(program.ops.deep_view(), values@);
        }
        let instrs = bind_values(&program.ops, &values);
        EvalMachine::new(instrs, program.error)
    }

    /// Takes one step. On a finished machine nothing changes; while an
    /// arithmetic result is owed, the same request is repeated;
    /// otherwise the instruction under the program counter runs: a push
    /// or negation completes at once, a binary operation makes its
    /// domain checks and then asks the caller for the raw arithmetic.
    pub fn step(&mut self) -> (r: Status)
        requires
            old(self).wf(),
        ensures
            final(self).wf(),
            final(self).instrs == old(self).instrs,
            final(self).error == old(self).error,
            (final(self).model(), r) == spec_step(old(self).model()),
    {
        if self.failed.is_some() {
            return Status::Finished;
        }
        match self.pending {
            Some(p) => {
                let req = match p {
                    Pending::Range { op, lhs, rhs } => ArithRequest { op, lhs, rhs },
                    Pending::PowCheck { base, exponent } => ArithRequest {
                        op: ArithOp::Pow,
                        lhs: base,
                        rhs: exponent,
                    },
                    Pending::RootRecip { base, root, negated } => ArithRequest {
                        op: ArithOp::Div,
                        lhs: ONE_BITS,
                        rhs: root,
                    },
                    Pending::RootPow { base, root, negated, recip } => ArithRequest {
                        op: ArithOp::Pow,
                        lhs: if negated {
                            negate(base)
                        } else {
                            base
                        },
                        rhs: recip,
                    },
                };
                return Status::NeedArith(req);
            },
            None => {},
        }
        if self.pc >= self.instrs.len() {
            return Status::Finished;
        }
        let ghost m = *self;
        let ghost len = self.stack@.len() as int;
        proof {
            assert(self.instrs@.skip(self.pc as int)[0] == self.instrs@[self.pc as int]);
            assert(self.instrs@.skip(self.pc as int).skip(1) =~= self.instrs@.skip(
                self.pc as int + 1,
            ));
        }
        let ins = self.instrs[self.pc];
        match ins {
            Instr::Push(v) => {
                self.stack.push(v);
                self.pc = self.pc + 1;
                Status::Running
            },
            Instr::Neg => {
                let x = match self.stack.pop() {
                    Some(x) => x,
                    None => 0,  // never reached: the program is stack-safe
                };
                proof {
                    lemma_negate_fields(x);
                    assert(forall|i: int|
                        0 <= i < m.stack@.take(len - 1).len() ==> !spec_is_infinite(
                            #[trigger] m.stack@.take(len - 1)[i],
                        ));
                }
                self.stack.push(negate(x));
                self.pc = self.pc + 1;
                Status::Running
            },
            Instr::Add | Instr::Sub | Instr::Mul => {
                let rhs = match self.stack.pop() {
                    Some(x) => x,
                    None => 0,
                };
                let lhs = match self.stack.pop() {
                    Some(x) => x,
                    None => 0,
                };
                proof {
                    assert(m.stack@.take(len - 1).take(len - 2) =~= m.stack@.take(len - 2));
                    assert(forall|i: int|
                        0 <= i < m.stack@.take(len - 2).len() ==> !spec_is_infinite(
                            #[trigger] m.stack@.take(len - 2)[i],
                        ));
                }
                let op = match ins {
                    Instr::Add => ArithOp::Add,
                    Instr::Sub => ArithOp::Sub,
                    _ => ArithOp::Mul,
                };
                self.pending = Some(Pending::Range { op, lhs, rhs });
                Status::NeedArith(ArithRequest { op, lhs, rhs })
            },
            Instr::Div => {
                let rhs = match self.stack.pop() {
                    Some(x) => x,
                    None => 0,
                };
                let lhs = match self.stack.pop() {
                    Some(x) => x,
                    None => 0,
                };
                proof {
                    assert(m.stack@.take(len - 1).take(len - 2) =~= m.stack@.take(len - 2));
                    assert(forall|i: int|
                        0 <= i < m.stack@.take(len - 2).len() ==> !spec_is_infinite(
                            #[trigger] m.stack@.take(len - 2)[i],
                        ));
                }
                if is_zero(rhs) {
                    self.failed = Some(MathError::DivisionByZero);
                    Status::Finished
                } else {
                    self.pending = Some(Pending::Range { op: ArithOp::Div, lhs, rhs });
                    Status::NeedArith(ArithRequest { op: ArithOp::Div, lhs, rhs })
                }
            },
            Instr::Pow => {
                let rhs = match self.stack.pop() {
                    Some(x) => x,
                    None => 0,
                };
                let lhs = match self.stack.pop() {
                    Some(x) => x,
                    None => 0,
                };
                proof {
                    assert(m.stack@.take(len - 1).take(len - 2) =~= m.stack@.take(len - 2));
                    assert(forall|i: int|
                        0 <= i < m.stack@.take(len - 2).len() ==> !spec_is_infinite(
                            #[trigger] m.stack@.take(len - 2)[i],
                        ));
                }
                self.pending = Some(Pending::PowCheck { base: lhs, exponent: rhs });
                Status::NeedArith(ArithRequest { op: ArithOp::Pow, lhs, rhs })
            },
            Instr::Root => {
                let root = match self.stack.pop() {
                    Some(x) => x,
                    None => 0,
                };
                let base = match self.stack.pop() {
                    Some(x) => x,
                    None => 0,
                };
                proof {
                    assert(m.stack@.take(len - 1).take(len - 2) =~= m.stack@.take(len - 2));
                    assert(forall|i: int|
                        0 <= i < m.stack@.take(len - 2).len() ==> !spec_is_infinite(
                            #[trigger] m.stack@.take(len - 2)[i],
                        ));
                }
                if is_zero(root) {
                    self.failed = Some(MathError::DivisionByZero);
                    Status::Finished
                } else if is_negative(base) && fract_nonzero(root) {
                    self.failed = Some(MathError::NegativeRoot { base, root });
                    Status::Finished
                } else if is_negative(base) && trunc_even(root) {
                    self.failed = Some(MathError::EvenRootOfNegative { base, root });
                    Status::Finished
                } else {
                    let neg = is_negative(base);
                    self.pending = Some(Pending::RootRecip { base, root, negated: neg });
                    Status::NeedArith(ArithRequest { op: ArithOp::Div, lhs: ONE_BITS, rhs: root })
                }
            },
        }
    }

    /// Accepts the result of the requested arithmetic step, as a bit
    /// pattern. A plain operation's result passes the range check or
    /// fails the run; a power's result is first checked for a NaN or an
    /// infinity; a root's reciprocal triggers the power request; the
    /// root's power is negated for a negative base and range-checked.
    /// With no request out, nothing changes.
    pub fn provide(&mut self, result: u64) -> (r: Status)
        requires
            old(self).wf(),
        ensures
            final(self).wf(),
            final(self).instrs == old(self).instrs,
            final(self).error == old(self).error,
            (final(self).model(), r) == spec_provide(old(self).model(), result),
    {
        let p = match self.pending {
            None => {
                return Status::Running;
            },
            Some(p) => p,
        };
        let n_instrs = self.instrs.len();
        match p {
            Pending::Range { op, lhs, rhs } => {
                if is_infinite(result) {
                    self.pending = None;
                    self.failed = Some(MathError::OverflowError);
                    Status::Finished
                } else if is_subnormal(result) {
                    self.pending = None;
                    self.failed = Some(MathError::UnderflowError);
                    Status::Finished
                } else {
                    self.pending = None;
                    self.stack.push(result);
                    self.pc = self.pc + 1;
                    Status::Running
                }
            },
            Pending::PowCheck { base, exponent } => {
                if is_nan(result) || is_infinite(result) {
                    self.pending = None;
                    self.failed = Some(MathError::InvalidExponentiation { base, exponent });
                    Status::Finished
                } else if is_subnormal(result) {
                    self.pending = None;
                    self.failed = Some(MathError::UnderflowError);
                    Status::Finished
                } else {
                    self.pending = None;
                    self.stack.push(result);
                    self.pc = self.pc + 1;
                    Status::Running
                }
            },
            Pending::RootRecip { base, root, negated } => {
                let p2 = Pending::RootPow { base, root, negated, recip: result };
                self.pending = Some(p2);
                Status::NeedArith(
                    ArithRequest {
                        op: ArithOp::Pow,
                        lhs: if negated {
                            negate(base)
                        } else {
                            base
                        },
                        rhs: result,
                    },
                )
            },
            Pending::RootPow { base, root, negated, recip } => {
                if negated {
                    let v = negate(result);
                    if is_infinite(v) {
                        self.pending = None;
                        self.failed = Some(MathError::OverflowError);
                        Status::Finished
                    } else if is_subnormal(v) {
                        self.pending = None;
                        self.failed = Some(MathError::UnderflowError);
                        Status::Finished
                    } else {
                        self.pending = None;
                        self.stack.push(v);
                        self.pc = self.pc + 1;
                        Status::Running
                    }
                } else {
                    if is_nan(result) || is_infinite(result) {
                        self.pending = None;
                        self.failed = Some(MathError::InvalidRoot { base, root });
                        Status::Finished
                    } else if is_subnormal(result) {
                        self.pending = None;
                        self.failed = Some(MathError::UnderflowError);
                        Status::Finished
                    } else {
                        self.pending = None;
                        self.stack.push(result);
                        self.pc = self.pc + 1;
                        Status::Running
                    }
                }
            },
        }
    }

    /// Yields the outcome of a finished run: the arithmetic error that
    /// stopped it, else the parse error the program carried, else the
    /// one value left on the stack.
    pub fn finish(self) -> (r: EvalOutcome)
        requires
            self.wf(),
            self.spec_finished(),
        ensures
            r == self.spec_outcome(),
            r@ == spec_state_outcome(self.model()),
    {
        proof {
            if self.failed is None && self.error is None {
                assert(self.instrs@.skip(self.pc as int) =~= Seq::<Instr>::empty());
            }
        }
        match self.failed {
            Some(m) => EvalOutcome::Failure(CalcError::Math(m)),
            None => match self.error {
                Some(e) => EvalOutcome::Failure(e),
                None => {
                    let v = self.stack[0];
                    EvalOutcome::Value(v)
                },
            },
        }
    }
}

} // verus!
