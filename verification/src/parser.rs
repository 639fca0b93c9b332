//! The recursive-descent parser: token sequence to evaluation program.
//!
//! The grammar has five precedence levels, each calling the next-tighter
//! one first:
//!
//! ```text
//! F  -> E "="
//! E  -> P E'        E' -> "+" P E' | "-" P E' | e
//! P  -> U P'        P' -> "*" U P' | "/" U P' | <implicit> U P' | e
//! U  -> B U'        U' -> "^" U | "$" U | e
//! B  -> "-" B | number | "(" E ")"
//! ```
//!
//! The parser emits the arithmetic of the expression as a stack program,
//! one operation in exactly the order the fused evaluator would perform
//! it. When a syntax error cuts the parse short, the operations already
//! emitted stand: the evaluator runs them first, so an arithmetic failure
//! among them takes precedence over the later syntax error, just as an
//! inline evaluation would have aborted before ever seeing that error.
use vstd::prelude::*;
use crate::token::{
    Token, SpecToken, TokenError, SpecTokenError, MathError, CalcError, SpecCalcError,
};

verus! {

/// One instruction of the evaluation program, operating on a stack of
/// IEEE 754 binary64 bit patterns. `Push` carries the numeral text whose
/// parsed value is pushed; `Neg` flips the sign of the top of the stack;
/// the six binary operations pop the right operand, then the left, and
/// push their result.
#[derive(Debug, Clone, PartialEq)]
pub enum Op {
    Push(String),
    Neg,
    Add,
    Sub,
    Mul,
    Div,
    Pow,
    Root,
}

/// Mathematical model of an instruction.
pub enum SpecOp {
    Push(Seq<char>),
    Neg,
    Add,
    Sub,
    Mul,
    Div,
    Pow,
    Root,
}

impl View for Op {
    type V = SpecOp;

    open spec fn view(&self) -> SpecOp {
        match self {
            Op::Push(s) => SpecOp::Push(s@),
            Op::Neg => SpecOp::Neg,
            Op::Add => SpecOp::Add,
            Op::Sub => SpecOp::Sub,
            Op::Mul => SpecOp::Mul,
            Op::Div => SpecOp::Div,
            Op::Pow => SpecOp::Pow,
            Op::Root => SpecOp::Root,
        }
    }
}

impl DeepView for Op {
    type V = SpecOp;

    open spec fn deep_view(&self) -> SpecOp {
        self.view()
    }
}

/// The deepest nesting the parser accepts before it reports the
/// expression as too complex instead of exhausting the call stack.
pub const MAX_NESTING_DEPTH: usize = 256;

/// What one parse level produced: the operations it emitted and either
/// the position after the phrase it recognized, or the error that ended
/// the parse. On an error the operations already emitted are kept.
pub enum SpecParse {
    Done { ops: Seq<SpecOp>, next: int },
    Fail { ops: Seq<SpecOp>, err: SpecCalcError },
}

/// Emitted operations prefixed onto the outcome of the rest of a level.
pub open spec fn spec_seq_then(pre: Seq<SpecOp>, r: SpecParse) -> SpecParse {
    match r {
        SpecParse::Done { ops, next } => SpecParse::Done { ops: pre + ops, next },
        SpecParse::Fail { ops, err } => SpecParse::Fail { ops: pre + ops, err },
    }
}

/// Clamps an index into `[lo, hi]`. It guards the termination measure of
/// the mutually recursive parse functions below; a sub-parse never
/// actually leaves that range, so wherever the parser reaches, the clamp
/// is the identity.
pub open spec fn spec_clamp(lo: int, x: int, hi: int) -> int {
    if x > hi {
        hi
    } else if x < lo {
        lo
    } else {
        x
    }
}

/// One step down in nesting budget, never below zero: the zero budget
/// already fails, so stopping there loses nothing.
pub open spec fn spec_dec(b: int) -> int {
    if b <= 0 {
        0
    } else {
        b - 1
    }
}

/// The token before position `i` closes an operand: it is a number or a
/// closing parenthesis. Only then may an implicit multiplication fire.
pub open spec fn spec_prev_is_operand_end(toks: Seq<SpecToken>, i: int) -> bool {
    0 <= i - 1 < toks.len() && (toks[i - 1] is Number || toks[i - 1] is RightParen)
}

/// The token at position `i` opens an operand: a number or an opening
/// parenthesis.
pub open spec fn spec_next_opens_operand(toks: Seq<SpecToken>, i: int) -> bool {
    0 <= i < toks.len() && (toks[i] is Number || toks[i] is LeftParen)
}

/// The message carried by the error for a token that cannot open a
/// factor.
pub open spec fn spec_invalid_factor_text() -> Seq<char> {
    "expression is not valid"@
}

/// Parses a factor: a number, a negation, or a parenthesized expression.
pub open spec fn spec_parse_b(toks: Seq<SpecToken>, i: int, budget: int) -> SpecParse
    decreases toks.len() - i, 0int,
{
    if budget <= 0 {
        SpecParse::Fail { ops: Seq::empty(), err: SpecCalcError::Math(MathError::ExpressionTooComplex) }
    } else if !(0 <= i < toks.len()) {
        SpecParse::Fail {
            ops: Seq::empty(),
            err: SpecCalcError::Token(SpecTokenError::InvalidExpression(spec_invalid_factor_text())),
        }
    } else {
        match toks[i] {
            SpecToken::Number(text) => SpecParse::Done { ops: seq![SpecOp::Push(text)], next: i + 1 },
            SpecToken::Minus => match spec_parse_b(toks, i + 1, spec_dec(budget)) {
                SpecParse::Done { ops, next } => SpecParse::Done { ops: ops.push(SpecOp::Neg), next },
                SpecParse::Fail { ops, err } => SpecParse::Fail { ops, err },
            },
            SpecToken::LeftParen => match spec_parse_e(toks, i + 1, spec_dec(budget)) {
                SpecParse::Done { ops, next } => if 0 <= next < toks.len() && toks[next] is RightParen {
                    SpecParse::Done { ops, next: next + 1 }
                } else if 0 <= next < toks.len() {
                    SpecParse::Fail {
                        ops,
                        err: SpecCalcError::Token(
                            SpecTokenError::UnmatchedParenthesis { found: ')', position: next + 1 },
                        ),
                    }
                } else {
                    SpecParse::Fail {
                        ops,
                        err: SpecCalcError::Token(
                            SpecTokenError::UnmatchedParenthesis { found: '(', position: next },
                        ),
                    }
                },
                SpecParse::Fail { ops, err } => SpecParse::Fail { ops, err },
            },
            SpecToken::RightParen => SpecParse::Fail {
                ops: Seq::empty(),
                err: SpecCalcError::Token(
                    SpecTokenError::UnmatchedParenthesis { found: ')', position: i + 1 },
                ),
            },
            _ => SpecParse::Fail {
                ops: Seq::empty(),
                err: SpecCalcError::Token(
                    SpecTokenError::InvalidExpression(spec_invalid_factor_text()),
                ),
            },
        }
    }
}

/// Parses the exponent-or-root continuation of a factor: the operations
/// it emits expect the base already on the stack. Right-associative: the
/// right operand recurses into the whole unit level.
pub open spec fn spec_parse_u_prime(toks: Seq<SpecToken>, i: int, budget: int) -> SpecParse
    decreases toks.len() - i, 1int,
{
    if 0 <= i < toks.len() && toks[i] is Caret {
        match spec_parse_u(toks, i + 1, spec_dec(budget)) {
            SpecParse::Done { ops, next } => SpecParse::Done { ops: ops.push(SpecOp::Pow), next },
            SpecParse::Fail { ops, err } => SpecParse::Fail { ops, err },
        }
    } else if 0 <= i < toks.len() && toks[i] is Dollar {
        match spec_parse_u(toks, i + 1, spec_dec(budget)) {
            SpecParse::Done { ops, next } => SpecParse::Done { ops: ops.push(SpecOp::Root), next },
            SpecParse::Fail { ops, err } => SpecParse::Fail { ops, err },
        }
    } else {
        SpecParse::Done { ops: Seq::empty(), next: i }
    }
}

/// Parses a unit: a factor with an optional exponent or root.
pub open spec fn spec_parse_u(toks: Seq<SpecToken>, i: int, budget: int) -> SpecParse
    decreases toks.len() - i, 2int,
{
    if !(0 <= i <= toks.len()) {
        SpecParse::Fail {
            ops: Seq::empty(),
            err: SpecCalcError::Token(SpecTokenError::InvalidExpression(spec_invalid_factor_text())),
        }
    } else {
    match spec_parse_b(toks, i, budget) {
        SpecParse::Done { ops, next } => spec_seq_then(
            ops,
            spec_parse_u_prime(toks, spec_clamp(i, next, toks.len() as int), budget),
        ),
        SpecParse::Fail { ops, err } => SpecParse::Fail { ops, err },
    }
    }
}

/// Parses the multiplicative continuation of a product: explicit
/// multiplication and division, and the implicit multiplication of two
/// adjacent operands. The operations it emits expect the left operand
/// already on the stack.
pub open spec fn spec_parse_p_prime(toks: Seq<SpecToken>, i: int, budget: int) -> SpecParse
    decreases toks.len() - i, 3int,
{
    if !(0 <= i < toks.len()) {
        SpecParse::Done { ops: Seq::empty(), next: i }
    } else if toks[i] is Multiply {
        match spec_parse_u(toks, i + 1, budget) {
            SpecParse::Done { ops, next } => spec_seq_then(
                ops.push(SpecOp::Mul),
                spec_parse_p_prime(toks, spec_clamp(i + 1, next, toks.len() as int), budget),
            ),
            SpecParse::Fail { ops, err } => SpecParse::Fail { ops, err },
        }
    } else if toks[i] is Divide {
        match spec_parse_u(toks, i + 1, budget) {
            SpecParse::Done { ops, next } => spec_seq_then(
                ops.push(SpecOp::Div),
                spec_parse_p_prime(toks, spec_clamp(i + 1, next, toks.len() as int), budget),
            ),
            SpecParse::Fail { ops, err } => SpecParse::Fail { ops, err },
        }
    } else if (toks[i] is Number || toks[i] is LeftParen) && spec_prev_is_operand_end(toks, i)
        && spec_next_opens_operand(toks, i) {
        match spec_parse_u(toks, i, budget) {
            SpecParse::Done { ops, next } => spec_seq_then(
                ops.push(SpecOp::Mul),
                spec_parse_p_prime(toks, spec_clamp(i + 1, next, toks.len() as int), budget),
            ),
            SpecParse::Fail { ops, err } => SpecParse::Fail { ops, err },
        }
    } else {
        SpecParse::Done { ops: Seq::empty(), next: i }
    }
}

/// Parses a product: a unit followed by its multiplicative continuation.
pub open spec fn spec_parse_p(toks: Seq<SpecToken>, i: int, budget: int) -> SpecParse
    decreases toks.len() - i, 4int,
{
    if !(0 <= i <= toks.len()) {
        SpecParse::Fail {
            ops: Seq::empty(),
            err: SpecCalcError::Token(SpecTokenError::InvalidExpression(spec_invalid_factor_text())),
        }
    } else {
    match spec_parse_u(toks, i, budget) {
        SpecParse::Done { ops, next } => spec_seq_then(
            ops,
            spec_parse_p_prime(toks, spec_clamp(i, next, toks.len() as int), budget),
        ),
        SpecParse::Fail { ops, err } => SpecParse::Fail { ops, err },
    }
    }
}

/// Parses the additive continuation of an expression. The operations it
/// emits expect the left operand already on the stack.
pub open spec fn spec_parse_e_prime(toks: Seq<SpecToken>, i: int, budget: int) -> SpecParse
    decreases toks.len() - i, 5int,
{
    if !(0 <= i < toks.len()) {
        SpecParse::Done { ops: Seq::empty(), next: i }
    } else if toks[i] is Plus {
        match spec_parse_p(toks, i + 1, budget) {
            SpecParse::Done { ops, next } => spec_seq_then(
                ops.push(SpecOp::Add),
                spec_parse_e_prime(toks, spec_clamp(i + 1, next, toks.len() as int), budget),
            ),
            SpecParse::Fail { ops, err } => SpecParse::Fail { ops, err },
        }
    } else if toks[i] is Minus {
        match spec_parse_p(toks, i + 1, budget) {
            SpecParse::Done { ops, next } => spec_seq_then(
                ops.push(SpecOp::Sub),
                spec_parse_e_prime(toks, spec_clamp(i + 1, next, toks.len() as int), budget),
            ),
            SpecParse::Fail { ops, err } => SpecParse::Fail { ops, err },
        }
    } else {
        SpecParse::Done { ops: Seq::empty(), next: i }
    }
}

/// Parses an expression: a product followed by its additive
/// continuation.
pub open spec fn spec_parse_e(toks: Seq<SpecToken>, i: int, budget: int) -> SpecParse
    decreases toks.len() - i, 6int,
{
    if !(0 <= i <= toks.len()) {
        SpecParse::Fail {
            ops: Seq::empty(),
            err: SpecCalcError::Token(SpecTokenError::InvalidExpression(spec_invalid_factor_text())),
        }
    } else {
    match spec_parse_p(toks, i, budget) {
        SpecParse::Done { ops, next } => spec_seq_then(
            ops,
            spec_parse_e_prime(toks, spec_clamp(i, next, toks.len() as int), budget),
        ),
        SpecParse::Fail { ops, err } => SpecParse::Fail { ops, err },
    }
    }
}

/// Prefixing onto a parse outcome groups to the left: emitting `a`, then
/// `b`, then the rest is the same as emitting `a + b`, then the rest.
pub proof fn lemma_seq_then_assoc(a: Seq<SpecOp>, b: Seq<SpecOp>, r: SpecParse)
    ensures
        spec_seq_then(a, spec_seq_then(b, r)) == spec_seq_then(a + b, r),
{
    match r {
        SpecParse::Done { ops, next } => {
            assert(a + (b + ops) =~= (a + b) + ops);
        },
        SpecParse::Fail { ops, err } => {
            assert(a + (b + ops) =~= (a + b) + ops);
        },
    }
}

/// Prefixing nothing onto a parse outcome changes nothing.
pub proof fn lemma_seq_then_empty(r: SpecParse)
    ensures
        spec_seq_then(Seq::empty(), r) == r,
{
    match r {
        SpecParse::Done { ops, next } => {
            assert(Seq::empty() + ops =~= ops);
        },
        SpecParse::Fail { ops, err } => {
            assert(Seq::empty() + ops =~= ops);
        },
    }
}

/// The whole compilation: an expression, which must be followed by the
/// terminator. The result pairs the emitted program with the error that
/// ended the parse, if one did.
pub open spec fn spec_compile(toks: Seq<SpecToken>) -> (Seq<SpecOp>, Option<SpecCalcError>) {
    match spec_parse_e(toks, 0, MAX_NESTING_DEPTH as int) {
        SpecParse::Done { ops, next } => if 0 <= next < toks.len() && toks[next] is Equals {
            (ops, None)
        } else if 0 <= next < toks.len() {
            (ops, Some(SpecCalcError::Token(SpecTokenError::UnexpectedToken(toks[next]))))
        } else {
            (ops, Some(SpecCalcError::Token(SpecTokenError::UnexpectedEnd)))
        },
        SpecParse::Fail { ops, err } => (ops, Some(err)),
    }
}

/// Running the operations from a stack of height `h` never pops an
/// operand that is not there: a push needs nothing, a negation one
/// value, a binary operation two.
pub open spec fn spec_stack_safe(ops: Seq<SpecOp>, h: int) -> bool
    decreases ops.len(),
{
    if ops.len() == 0 {
        true
    } else {
        match ops[0] {
            SpecOp::Push(_) => spec_stack_safe(ops.skip(1), h + 1),
            SpecOp::Neg => h >= 1 && spec_stack_safe(ops.skip(1), h),
            _ => h >= 2 && spec_stack_safe(ops.skip(1), h - 1),
        }
    }
}

/// The stack height after running the operations from height `h`: each
/// push adds one, a negation changes nothing, each binary operation
/// removes one.
pub open spec fn spec_stack_height(ops: Seq<SpecOp>, h: int) -> int
    decreases ops.len(),
{
    if ops.len() == 0 {
        h
    } else {
        match ops[0] {
            SpecOp::Push(_) => spec_stack_height(ops.skip(1), h + 1),
            SpecOp::Neg => spec_stack_height(ops.skip(1), h),
            _ => spec_stack_height(ops.skip(1), h - 1),
        }
    }
}

/// Safety and height compose over concatenation.
pub proof fn lemma_stack_concat(a: Seq<SpecOp>, b: Seq<SpecOp>, h: int)
    ensures
        spec_stack_height(a + b, h) == spec_stack_height(b, spec_stack_height(a, h)),
        spec_stack_safe(a, h) && spec_stack_safe(b, spec_stack_height(a, h))
            ==> spec_stack_safe(a + b, h),
    decreases a.len(),
{
    if a.len() == 0 {
        assert(a + b =~= b);
    } else {
        assert((a + b).skip(1) =~= a.skip(1) + b);
        match a[0] {
            SpecOp::Push(_) => lemma_stack_concat(a.skip(1), b, h + 1),
            SpecOp::Neg => lemma_stack_concat(a.skip(1), b, h),
            _ => lemma_stack_concat(a.skip(1), b, h - 1),
        }
    }
}

/// Safety and height over appending a single operation.
pub proof fn lemma_stack_push(a: Seq<SpecOp>, x: SpecOp, h: int)
    ensures
        spec_stack_height(a.push(x), h) == spec_stack_height(seq![x], spec_stack_height(a, h)),
        spec_stack_safe(a, h) && spec_stack_safe(seq![x], spec_stack_height(a, h))
            ==> spec_stack_safe(a.push(x), h),
{
    assert(a.push(x) =~= a + seq![x]);
    lemma_stack_concat(a, seq![x], h);
}

/// One operation alone: unfolding helper.
pub proof fn lemma_stack_single(x: SpecOp, h: int)
    ensures
        spec_stack_height(seq![x], h) == (match x {
            SpecOp::Push(_) => h + 1,
            SpecOp::Neg => h,
            _ => h - 1,
        }),
        spec_stack_safe(seq![x], h) == (match x {
            SpecOp::Push(_) => true,
            SpecOp::Neg => h >= 1,
            _ => h >= 2,
        }),
{
    reveal_with_fuel(spec_stack_safe, 2);
    reveal_with_fuel(spec_stack_height, 2);
    assert(seq![x].skip(1) =~= Seq::<SpecOp>::empty());
}

/// A factor's operations are stack-safe from any height and leave one
/// more value; what a failing parse emitted is still safe.
pub proof fn lemma_parse_b_stack(toks: Seq<SpecToken>, i: int, budget: int, h: int)
    requires
        h >= 0,
    ensures
        match spec_parse_b(toks, i, budget) {
            SpecParse::Done { ops, next } => spec_stack_safe(ops, h) && spec_stack_height(ops, h)
                == h + 1,
            SpecParse::Fail { ops, err } => spec_stack_safe(ops, h),
        },
    decreases toks.len() - i, 0int,
{
    if budget <= 0 || !(0 <= i < toks.len()) {
    } else {
        match toks[i] {
            SpecToken::Number(text) => {
                lemma_stack_single(SpecOp::Push(text), h);
                assert(seq![SpecOp::Push(text)].skip(1) =~= Seq::<SpecOp>::empty());
            },
            SpecToken::Minus => {
                lemma_parse_b_stack(toks, i + 1, spec_dec(budget), h);
                match spec_parse_b(toks, i + 1, spec_dec(budget)) {
                    SpecParse::Done { ops, next } => {
                        lemma_stack_push(ops, SpecOp::Neg, h);
                        lemma_stack_single(SpecOp::Neg, h + 1);
                    },
                    SpecParse::Fail { .. } => {},
                }
            },
            SpecToken::LeftParen => {
                lemma_parse_e_stack(toks, i + 1, spec_dec(budget), h);
            },
            _ => {},
        }
    }
}

/// An exponent-or-root continuation is stack-safe from any positive
/// height and leaves the height unchanged.
pub proof fn lemma_parse_u_prime_stack(toks: Seq<SpecToken>, i: int, budget: int, h: int)
    requires
        h >= 1,
    ensures
        match spec_parse_u_prime(toks, i, budget) {
            SpecParse::Done { ops, next } => spec_stack_safe(ops, h) && spec_stack_height(ops, h)
                == h,
            SpecParse::Fail { ops, err } => spec_stack_safe(ops, h),
        },
    decreases toks.len() - i, 1int,
{
    if 0 <= i < toks.len() && (toks[i] is Caret || toks[i] is Dollar) {
        lemma_parse_u_stack(toks, i + 1, spec_dec(budget), h);
        let op = if toks[i] is Caret {
            SpecOp::Pow
        } else {
            SpecOp::Root
        };
        match spec_parse_u(toks, i + 1, spec_dec(budget)) {
            SpecParse::Done { ops, next } => {
                lemma_stack_push(ops, op, h);
                lemma_stack_single(op, h + 1);
            },
            SpecParse::Fail { .. } => {},
        }
    }
}

/// A unit's operations are stack-safe from any height and leave one more
/// value.
pub proof fn lemma_parse_u_stack(toks: Seq<SpecToken>, i: int, budget: int, h: int)
    requires
        h >= 0,
    ensures
        match spec_parse_u(toks, i, budget) {
            SpecParse::Done { ops, next } => spec_stack_safe(ops, h) && spec_stack_height(ops, h)
                == h + 1,
            SpecParse::Fail { ops, err } => spec_stack_safe(ops, h),
        },
    decreases toks.len() - i, 2int,
{
    if !(0 <= i <= toks.len()) {
    } else {
        lemma_parse_b_stack(toks, i, budget, h);
        match spec_parse_b(toks, i, budget) {
            SpecParse::Done { ops: bops, next } => {
                let j = spec_clamp(i, next, toks.len() as int);
                lemma_parse_u_prime_stack(toks, j, budget, h + 1);
                match spec_parse_u_prime(toks, j, budget) {
                    SpecParse::Done { ops: uops, next: n2 } => {
                        lemma_stack_concat(bops, uops, h);
                    },
                    SpecParse::Fail { ops: uops, err } => {
                        lemma_stack_concat(bops, uops, h);
                    },
                }
            },
            SpecParse::Fail { .. } => {},
        }
    }
}

/// A multiplicative continuation is stack-safe from any positive height
/// and leaves the height unchanged.
pub proof fn lemma_parse_p_prime_stack(toks: Seq<SpecToken>, i: int, budget: int, h: int)
    requires
        h >= 1,
    ensures
        match spec_parse_p_prime(toks, i, budget) {
            SpecParse::Done { ops, next } => spec_stack_safe(ops, h) && spec_stack_height(ops, h)
                == h,
            SpecParse::Fail { ops, err } => spec_stack_safe(ops, h),
        },
    decreases toks.len() - i, 3int,
{
    if !(0 <= i < toks.len()) {
    } else if toks[i] is Multiply || toks[i] is Divide || ((toks[i] is Number
        || toks[i] is LeftParen) && spec_prev_is_operand_end(toks, i) && spec_next_opens_operand(
        toks,
        i,
    )) {
        let at = if toks[i] is Multiply || toks[i] is Divide {
            i + 1
        } else {
            i
        };
        let op = if toks[i] is Divide {
            SpecOp::Div
        } else {
            SpecOp::Mul
        };
        lemma_parse_u_stack(toks, at, budget, h);
        match spec_parse_u(toks, at, budget) {
            SpecParse::Done { ops: uops, next } => {
                lemma_stack_push(uops, op, h);
                lemma_stack_single(op, h + 1);
                let j = spec_clamp(i + 1, next, toks.len() as int);
                lemma_parse_p_prime_stack(toks, j, budget, h);
                match spec_parse_p_prime(toks, j, budget) {
                    SpecParse::Done { ops: pops, next: n2 } => {
                        lemma_stack_concat(uops.push(op), pops, h);
                    },
                    SpecParse::Fail { ops: pops, err } => {
                        lemma_stack_concat(uops.push(op), pops, h);
                    },
                }
            },
            SpecParse::Fail { .. } => {},
        }
    }
}

/// A product's operations are stack-safe from any height and leave one
/// more value.
pub proof fn lemma_parse_p_stack(toks: Seq<SpecToken>, i: int, budget: int, h: int)
    requires
        h >= 0,
    ensures
        match spec_parse_p(toks, i, budget) {
            SpecParse::Done { ops, next } => spec_stack_safe(ops, h) && spec_stack_height(ops, h)
                == h + 1,
            SpecParse::Fail { ops, err } => spec_stack_safe(ops, h),
        },
    decreases toks.len() - i, 4int,
{
    if !(0 <= i <= toks.len()) {
    } else {
        lemma_parse_u_stack(toks, i, budget, h);
        match spec_parse_u(toks, i, budget) {
            SpecParse::Done { ops: uops, next } => {
                let j = spec_clamp(i, next, toks.len() as int);
                lemma_parse_p_prime_stack(toks, j, budget, h + 1);
                match spec_parse_p_prime(toks, j, budget) {
                    SpecParse::Done { ops: pops, next: n2 } => {
                        lemma_stack_concat(uops, pops, h);
                    },
                    SpecParse::Fail { ops: pops, err } => {
                        lemma_stack_concat(uops, pops, h);
                    },
                }
            },
            SpecParse::Fail { .. } => {},
        }
    }
}

/// An additive continuation is stack-safe from any positive height and
/// leaves the height unchanged.
pub proof fn lemma_parse_e_prime_stack(toks: Seq<SpecToken>, i: int, budget: int, h: int)
    requires
        h >= 1,
    ensures
        match spec_parse_e_prime(toks, i, budget) {
            SpecParse::Done { ops, next } => spec_stack_safe(ops, h) && spec_stack_height(ops, h)
                == h,
            SpecParse::Fail { ops, err } => spec_stack_safe(ops, h),
        },
    decreases toks.len() - i, 5int,
{
    if !(0 <= i < toks.len()) {
    } else if toks[i] is Plus || toks[i] is Minus {
        let op = if toks[i] is Plus {
            SpecOp::Add
        } else {
            SpecOp::Sub
        };
        lemma_parse_p_stack(toks, i + 1, budget, h);
        match spec_parse_p(toks, i + 1, budget) {
            SpecParse::Done { ops: pops, next } => {
                lemma_stack_push(pops, op, h);
                lemma_stack_single(op, h + 1);
                let j = spec_clamp(i + 1, next, toks.len() as int);
                lemma_parse_e_prime_stack(toks, j, budget, h);
                match spec_parse_e_prime(toks, j, budget) {
                    SpecParse::Done { ops: eops, next: n2 } => {
                        lemma_stack_concat(pops.push(op), eops, h);
                    },
                    SpecParse::Fail { ops: eops, err } => {
                        lemma_stack_concat(pops.push(op), eops, h);
                    },
                }
            },
            SpecParse::Fail { .. } => {},
        }
    }
}

/// An expression's operations are stack-safe from any height and leave
/// one more value.
pub proof fn lemma_parse_e_stack(toks: Seq<SpecToken>, i: int, budget: int, h: int)
    requires
        h >= 0,
    ensures
        match spec_parse_e(toks, i, budget) {
            SpecParse::Done { ops, next } => spec_stack_safe(ops, h) && spec_stack_height(ops, h)
                == h + 1,
            SpecParse::Fail { ops, err } => spec_stack_safe(ops, h),
        },
    decreases toks.len() - i, 6int,
{
    if !(0 <= i <= toks.len()) {
    } else {
        lemma_parse_p_stack(toks, i, budget, h);
        match spec_parse_p(toks, i, budget) {
            SpecParse::Done { ops: pops, next } => {
                let j = spec_clamp(i, next, toks.len() as int);
                lemma_parse_e_prime_stack(toks, j, budget, h + 1);
                match spec_parse_e_prime(toks, j, budget) {
                    SpecParse::Done { ops: eops, next: n2 } => {
                        lemma_stack_concat(pops, eops, h);
                    },
                    SpecParse::Fail { ops: eops, err } => {
                        lemma_stack_concat(pops, eops, h);
                    },
                }
            },
            SpecParse::Fail { .. } => {},
        }
    }
}

/// The whole compiled program is stack-safe from the empty stack, and a
/// complete parse nets exactly one value.
pub proof fn lemma_compile_stack(toks: Seq<SpecToken>)
    ensures
        spec_stack_safe(spec_compile(toks).0, 0),
        spec_compile(toks).1 is None ==> spec_stack_height(spec_compile(toks).0, 0) == 1,
{
    lemma_parse_e_stack(toks, 0, MAX_NESTING_DEPTH as int, 0);
}

/// The compiled form of one expression: the evaluation program, and the
/// error that ended the parse if one did. The program holds every
/// operation the evaluator reaches before that error, in evaluation
/// order, so an arithmetic failure among them still takes precedence.
pub struct Program {
    pub ops: Vec<Op>,
    pub error: Option<CalcError>,
}

/// The parser: an owned token sequence and a cursor into it that only
/// moves forward, with one token of lookahead.
pub struct MathExpressionParser {
    pub tokens: Vec<Token>,
    pub position: usize,
}

impl MathExpressionParser {
    /// A fresh parser over a token sequence, its cursor at the start.
    pub fn new(tokens: Vec<Token>) -> (r: Self)
        ensures
            r.tokens == tokens,
            r.position == 0,
    {
        MathExpressionParser { tokens, position: 0 }
    }

    /// The token under the cursor, if any, without moving the cursor.
    pub fn peek(&self) -> (r: Option<&Token>)
        ensures
            match r {
                Some(t) => self.position < self.tokens@.len() && *t == self.tokens@[self.position as int],
                None => self.position >= self.tokens@.len(),
            },
    {
        if self.position < self.tokens.len() {
            Some(&self.tokens[self.position])
        } else {
            None
        }
    }

    /// The token under the cursor, if any, moving the cursor past it.
    pub fn next(&mut self) -> (r: Option<Token>)
        ensures
            final(self).tokens == old(self).tokens,
            match r {
                Some(t) => old(self).position < old(self).tokens@.len() && t@ == old(self).tokens.deep_view()[old(self).position as int] && final(self).position == old(self).position + 1,
                None => old(self).position >= old(self).tokens@.len() && *final(self) == *old(self),
            },
    {
        if self.position < self.tokens.len() {
            let t = self.tokens[self.position].duplicate();
            self.position = self.position + 1;
            Some(t)
        } else {
            None
        }
    }

    /// Moves the cursor one token forward.
    pub fn advance(&mut self)
        requires
            old(self).position < old(self).tokens@.len(),
        ensures
            final(self).tokens == old(self).tokens,
            final(self).position == old(self).position + 1,
    {
        let n = self.tokens.len();
        proof {
            // the cursor sits below the token count, so it cannot wrap
            assert(self.position < n);
        }
        self.position = self.position + 1;
    }

    /// The token just consumed was a number or a closing parenthesis:
    /// the left-hand side of a possible implicit multiplication.
    pub fn previous_token_is_paren_or_number(&self) -> (r: bool)
        ensures
            r == spec_prev_is_operand_end(self.tokens.deep_view(), self.position as int),
    {
        if self.position == 0 {
            false
        } else {
            let i = self.position - 1;
            if i < self.tokens.len() {
                matches!(&self.tokens[i], Token::Number(_) | Token::RightParen)
            } else {
                false
            }
        }
    }

    /// The token under the cursor opens an operand: the right-hand side
    /// of a possible implicit multiplication.
    pub fn can_apply_implicit_multiplication(&self) -> (r: bool)
        ensures
            r == spec_next_opens_operand(self.tokens.deep_view(), self.position as int),
    {
        match self.peek() {
            Some(Token::Number(_)) | Some(Token::LeftParen) => true,
            _ => false,
        }
    }

    /// Parses a factor, appending its operations to `ops`.
    fn parse_b(&mut self, ops: &mut Vec<Op>, budget: usize) -> (r: Result<(), CalcError>)
        requires
            old(self).position <= old(self).tokens@.len(),
        ensures
            final(self).tokens == old(self).tokens,
            old(self).position <= final(self).position <= old(self).tokens@.len(),
            match spec_parse_b(
                old(self).tokens.deep_view(),
                old(self).position as int,
                budget as int,
            ) {
                SpecParse::Done { ops: sops, next } => r is Ok && final(ops).deep_view() == old(ops).deep_view() + sops && final(self).position == next && final(self).position > old(self).position,
                SpecParse::Fail { ops: sops, err } => (r matches Err(e) && e@ == err) && final(ops).deep_view() == old(ops).deep_view() + sops,
            },
        decreases old(self).tokens@.len() - old(self).position, 0int,
    {
        let ghost tv = self.tokens.deep_view();
        let ghost p0 = self.position as int;
        let ghost base = ops.deep_view();
        if budget == 0 {
            proof {
                assert(base + Seq::<SpecOp>::empty() =~= base);
            }
            return Err(CalcError::Math(MathError::ExpressionTooComplex));
        }
        match self.next() {
            Some(t) => match t {
                Token::Number(text) => {
                    let ghost txt = text@;
                    ops.push(Op::Push(text));
                    proof {
                        assert(ops.deep_view() =~= base.push(SpecOp::Push(txt)));
                        assert(base + seq![SpecOp::Push(txt)] =~= base.push(SpecOp::Push(txt)));
                    }
                    Ok(())
                },
                Token::Minus => match self.parse_b(ops, budget - 1) {
                    Ok(()) => {
                        let ghost mid = ops.deep_view();
                        ops.push(Op::Neg);
                        proof {
                            assert(ops.deep_view() =~= mid.push(SpecOp::Neg));
                            match spec_parse_b(tv, p0 + 1, budget - 1) {
                                SpecParse::Done { ops: sops, next } => {
                                    assert(base + sops.push(SpecOp::Neg) =~= (base + sops).push(
                                        SpecOp::Neg,
                                    ));
                                },
                                SpecParse::Fail { .. } => {},
                            }
                        }
                        Ok(())
                    },
                    Err(e) => Err(e),
                },
                Token::LeftParen => match self.parse_e(ops, budget - 1) {
                    Ok(()) => match self.next() {
                        Some(t2) => match t2 {
                            Token::RightParen => Ok(()),
                            _ => Err(
                                CalcError::Token(
                                    TokenError::UnmatchedParenthesis {
                                        found: ')',
                                        position: self.position,
                                    },
                                ),
                            ),
                        },
                        None => Err(
                            CalcError::Token(
                                TokenError::UnmatchedParenthesis {
                                    found: '(',
                                    position: self.position,
                                },
                            ),
                        ),
                    },
                    Err(e) => Err(e),
                },
                Token::RightParen => {
                    proof {
                        assert(base + Seq::<SpecOp>::empty() =~= base);
                    }
                    Err(
                        CalcError::Token(
                            TokenError::UnmatchedParenthesis {
                                found: ')',
                                position: self.position,
                            },
                        ),
                    )
                },
                _ => {
                    proof {
                        assert(base + Seq::<SpecOp>::empty() =~= base);
                    }
                    Err(
                        CalcError::Token(
                            TokenError::InvalidExpression(
                                String::from_str("expression is not valid"),
                            ),
                        ),
                    )
                },
            },
            None => {
                proof {
                    assert(base + Seq::<SpecOp>::empty() =~= base);
                }
                Err(
                    CalcError::Token(
                        TokenError::InvalidExpression(String::from_str("expression is not valid")),
                    ),
                )
            },
        }
    }

    /// Parses the exponent-or-root continuation, appending to `ops`.
    fn parse_u_prime(&mut self, ops: &mut Vec<Op>, budget: usize) -> (r: Result<(), CalcError>)
        requires
            old(self).position <= old(self).tokens@.len(),
        ensures
            final(self).tokens == old(self).tokens,
            old(self).position <= final(self).position <= old(self).tokens@.len(),
            match spec_parse_u_prime(
                old(self).tokens.deep_view(),
                old(self).position as int,
                budget as int,
            ) {
                SpecParse::Done { ops: sops, next } => r is Ok && final(ops).deep_view() == old(ops).deep_view() + sops && final(self).position == next,
                SpecParse::Fail { ops: sops, err } => (r matches Err(e) && e@ == err) && final(ops).deep_view() == old(ops).deep_view() + sops,
            },
        decreases old(self).tokens@.len() - old(self).position, 1int,
    {
        let ghost tv = self.tokens.deep_view();
        let ghost p0 = self.position as int;
        let ghost base = ops.deep_view();
        let is_caret = match self.peek() {
            Some(Token::Caret) => true,
            _ => false,
        };
        let is_dollar = match self.peek() {
            Some(Token::Dollar) => true,
            _ => false,
        };
        if is_caret || is_dollar {
            self.advance();
            let b2 = if budget == 0 {
                0
            } else {
                budget - 1
            };
            proof {
                assert(b2 as int == spec_dec(budget as int));
            }
            match self.parse_u(ops, b2) {
                Ok(()) => {
                    let ghost mid = ops.deep_view();
                    let op = if is_caret {
                        Op::Pow
                    } else {
                        Op::Root
                    };
                    let ghost opv = op@;
                    ops.push(op);
                    proof {
                        assert(ops.deep_view() =~= mid.push(opv));
                        match spec_parse_u(tv, p0 + 1, b2 as int) {
                            SpecParse::Done { ops: sops, next } => {
                                assert(base + sops.push(opv) =~= (base + sops).push(opv));
                            },
                            SpecParse::Fail { .. } => {},
                        }
                    }
                    Ok(())
                },
                Err(e) => Err(e),
            }
        } else {
            proof {
                assert(base + Seq::<SpecOp>::empty() =~= base);
            }
            Ok(())
        }
    }

    /// Parses a unit, appending to `ops`.
    fn parse_u(&mut self, ops: &mut Vec<Op>, budget: usize) -> (r: Result<(), CalcError>)
        requires
            old(self).position <= old(self).tokens@.len(),
        ensures
            final(self).tokens == old(self).tokens,
            old(self).position <= final(self).position <= old(self).tokens@.len(),
            match spec_parse_u(
                old(self).tokens.deep_view(),
                old(self).position as int,
                budget as int,
            ) {
                SpecParse::Done { ops: sops, next } => r is Ok && final(ops).deep_view() == old(ops).deep_view() + sops && final(self).position == next && final(self).position > old(self).position,
                SpecParse::Fail { ops: sops, err } => (r matches Err(e) && e@ == err) && final(ops).deep_view() == old(ops).deep_view() + sops,
            },
        decreases old(self).tokens@.len() - old(self).position, 2int,
    {
        let ghost tv = self.tokens.deep_view();
        let ghost p0 = self.position as int;
        let ghost base = ops.deep_view();
        match self.parse_b(ops, budget) {
            Err(e) => Err(e),
            Ok(()) => {
                let ghost bops = ops.deep_view().skip(base.len() as int);
                proof {
                    assert(base + bops =~= ops.deep_view());
                    assert(spec_clamp(p0, self.position as int, tv.len() as int)
                        == self.position as int);
                }
                let r = self.parse_u_prime(ops, budget);
                proof {
                    match spec_parse_u_prime(
                        tv,
                        spec_clamp(p0, spec_parse_b(tv, p0, budget as int)->Done_next, tv.len() as int),
                        budget as int,
                    ) {
                        SpecParse::Done { ops: sops, next } => {
                            assert((base + bops) + sops =~= base + (bops + sops));
                        },
                        SpecParse::Fail { ops: sops, err } => {
                            assert((base + bops) + sops =~= base + (bops + sops));
                        },
                    }
                }
                r
            },
        }
    }

    /// Parses the multiplicative continuation iteratively, appending to
    /// `ops`.
    #[verifier::loop_isolation(false)]
    fn parse_p_prime(&mut self, ops: &mut Vec<Op>, budget: usize) -> (r: Result<(), CalcError>)
        requires
            old(self).position <= old(self).tokens@.len(),
        ensures
            final(self).tokens == old(self).tokens,
            old(self).position <= final(self).position <= old(self).tokens@.len(),
            match spec_parse_p_prime(
                old(self).tokens.deep_view(),
                old(self).position as int,
                budget as int,
            ) {
                SpecParse::Done { ops: sops, next } => r is Ok && final(ops).deep_view() == old(ops).deep_view() + sops && final(self).position == next,
                SpecParse::Fail { ops: sops, err } => (r matches Err(e) && e@ == err) && final(ops).deep_view() == old(ops).deep_view() + sops,
            },
        decreases old(self).tokens@.len() - old(self).position, 3int,
    {
        let ghost tv = self.tokens.deep_view();
        let ghost p0 = self.position as int;
        let ghost base = ops.deep_view();
        let ghost mut emitted = Seq::<SpecOp>::empty();
        proof {
            lemma_seq_then_empty(spec_parse_p_prime(tv, p0, budget as int));
            assert(base + emitted =~= base);
        }
        loop
            invariant
                self.tokens == old(self).tokens,
                p0 <= self.position <= tv.len(),
                ops.deep_view() == base + emitted,
                spec_parse_p_prime(tv, p0, budget as int) == spec_seq_then(
                    emitted,
                    spec_parse_p_prime(tv, self.position as int, budget as int),
                ),
            decreases tv.len() - self.position,
        {
            let ghost pos = self.position as int;
            let is_mul = match self.peek() {
                Some(Token::Multiply) => true,
                _ => false,
            };
            let is_div = match self.peek() {
                Some(Token::Divide) => true,
                _ => false,
            };
            if is_mul || is_div {
                self.advance();
                let ghost before = ops.deep_view();
                match self.parse_u(ops, budget) {
                    Ok(()) => {
                        let ghost uops = ops.deep_view().skip(before.len() as int);
                        let op = if is_mul {
                            Op::Mul
                        } else {
                            Op::Div
                        };
                        let ghost opv = op@;
                        let ghost mid = ops.deep_view();
                        ops.push(op);
                        proof {
                            match spec_parse_u(tv, pos + 1, budget as int) {
                                SpecParse::Done { ops: sops, next } => {
                                    assert((before + sops).skip(before.len() as int) =~= sops);
                                },
                                SpecParse::Fail { .. } => {},
                            }
                            assert(before + uops =~= mid);
                            assert(ops.deep_view() =~= mid.push(opv));
                            assert(base + (emitted + uops.push(opv)) =~= ops.deep_view());
                            lemma_seq_then_assoc(
                                emitted,
                                uops.push(opv),
                                spec_parse_p_prime(tv, self.position as int, budget as int),
                            );
                            assert(spec_clamp(pos + 1, self.position as int, tv.len() as int)
                                == self.position as int);
                            emitted = emitted + uops.push(opv);
                        }
                    },
                    Err(e) => {
                        proof {
                            match spec_parse_u(tv, pos + 1, budget as int) {
                                SpecParse::Fail { ops: sops, err } => {
                                    assert(base + (emitted + sops) =~= ops.deep_view());
                                },
                                SpecParse::Done { .. } => {},
                            }
                        }
                        return Err(e);
                    },
                }
            } else {
                let fire = self.can_apply_implicit_multiplication()
                    && self.previous_token_is_paren_or_number();
                if fire {
                    let ghost before = ops.deep_view();
                    match self.parse_u(ops, budget) {
                        Ok(()) => {
                            let ghost uops = ops.deep_view().skip(before.len() as int);
                            let ghost mid = ops.deep_view();
                            ops.push(Op::Mul);
                            proof {
                                match spec_parse_u(tv, pos, budget as int) {
                                    SpecParse::Done { ops: sops, next } => {
                                        assert((before + sops).skip(before.len() as int) =~= sops);
                                    },
                                    SpecParse::Fail { .. } => {},
                                }
                                assert(before + uops =~= mid);
                                assert(ops.deep_view() =~= mid.push(SpecOp::Mul));
                                assert(base + (emitted + uops.push(SpecOp::Mul))
                                    =~= ops.deep_view());
                                lemma_seq_then_assoc(
                                    emitted,
                                    uops.push(SpecOp::Mul),
                                    spec_parse_p_prime(tv, self.position as int, budget as int),
                                );
                                assert(spec_clamp(pos + 1, self.position as int, tv.len() as int)
                                    == self.position as int);
                                emitted = emitted + uops.push(SpecOp::Mul);
                            }
                        },
                        Err(e) => {
                            proof {
                                match spec_parse_u(tv, pos, budget as int) {
                                    SpecParse::Fail { ops: sops, err } => {
                                        assert(base + (emitted + sops) =~= ops.deep_view());
                                    },
                                    SpecParse::Done { .. } => {},
                                }
                            }
                            return Err(e);
                        },
                    }
                } else {
                    proof {
                        assert(emitted + Seq::<SpecOp>::empty() =~= emitted);
                    }
                    return Ok(());
                }
            }
        }
    }

    /// Parses a product, appending to `ops`.
    fn parse_p(&mut self, ops: &mut Vec<Op>, budget: usize) -> (r: Result<(), CalcError>)
        requires
            old(self).position <= old(self).tokens@.len(),
        ensures
            final(self).tokens == old(self).tokens,
            old(self).position <= final(self).position <= old(self).tokens@.len(),
            match spec_parse_p(
                old(self).tokens.deep_view(),
                old(self).position as int,
                budget as int,
            ) {
                SpecParse::Done { ops: sops, next } => r is Ok && final(ops).deep_view() == old(ops).deep_view() + sops && final(self).position == next && final(self).position > old(self).position,
                SpecParse::Fail { ops: sops, err } => (r matches Err(e) && e@ == err) && final(ops).deep_view() == old(ops).deep_view() + sops,
            },
        decreases old(self).tokens@.len() - old(self).position, 4int,
    {
        let ghost tv = self.tokens.deep_view();
        let ghost p0 = self.position as int;
        let ghost base = ops.deep_view();
        match self.parse_u(ops, budget) {
            Err(e) => Err(e),
            Ok(()) => {
                let ghost uops = ops.deep_view().skip(base.len() as int);
                proof {
                    assert(base + uops =~= ops.deep_view());
                    assert(spec_clamp(p0, self.position as int, tv.len() as int)
                        == self.position as int);
                }
                let r = self.parse_p_prime(ops, budget);
                proof {
                    match spec_parse_p_prime(tv, self.position as int, budget as int) {
                        SpecParse::Done { ops: sops, next } => {
                            assert((base + uops) + sops =~= base + (uops + sops));
                        },
                        SpecParse::Fail { ops: sops, err } => {
                            assert((base + uops) + sops =~= base + (uops + sops));
                        },
                    }
                }
                r
            },
        }
    }

    /// Parses the additive continuation iteratively, appending to `ops`.
    #[verifier::loop_isolation(false)]
    fn parse_e_prime(&mut self, ops: &mut Vec<Op>, budget: usize) -> (r: Result<(), CalcError>)
        requires
            old(self).position <= old(self).tokens@.len(),
        ensures
            final(self).tokens == old(self).tokens,
            old(self).position <= final(self).position <= old(self).tokens@.len(),
            match spec_parse_e_prime(
                old(self).tokens.deep_view(),
                old(self).position as int,
                budget as int,
            ) {
                SpecParse::Done { ops: sops, next } => r is Ok && final(ops).deep_view() == old(ops).deep_view() + sops && final(self).position == next,
                SpecParse::Fail { ops: sops, err } => (r matches Err(e) && e@ == err) && final(ops).deep_view() == old(ops).deep_view() + sops,
            },
        decreases old(self).tokens@.len() - old(self).position, 5int,
    {
        let ghost tv = self.tokens.deep_view();
        let ghost p0 = self.position as int;
        let ghost base = ops.deep_view();
        let ghost mut emitted = Seq::<SpecOp>::empty();
        proof {
            lemma_seq_then_empty(spec_parse_e_prime(tv, p0, budget as int));
            assert(base + emitted =~= base);
        }
        loop
            invariant
                self.tokens == old(self).tokens,
                p0 <= self.position <= tv.len(),
                ops.deep_view() == base + emitted,
                spec_parse_e_prime(tv, p0, budget as int) == spec_seq_then(
                    emitted,
                    spec_parse_e_prime(tv, self.position as int, budget as int),
                ),
            decreases tv.len() - self.position,
        {
            let ghost pos = self.position as int;
            let is_plus = match self.peek() {
                Some(Token::Plus) => true,
                _ => false,
            };
            let is_minus = match self.peek() {
                Some(Token::Minus) => true,
                _ => false,
            };
            if is_plus || is_minus {
                self.advance();
                let ghost before = ops.deep_view();
                match self.parse_p(ops, budget) {
                    Ok(()) => {
                        let ghost pops = ops.deep_view().skip(before.len() as int);
                        let op = if is_plus {
                            Op::Add
                        } else {
                            Op::Sub
                        };
                        let ghost opv = op@;
                        let ghost mid = ops.deep_view();
                        ops.push(op);
                        proof {
                            match spec_parse_p(tv, pos + 1, budget as int) {
                                SpecParse::Done { ops: sops, next } => {
                                    assert((before + sops).skip(before.len() as int) =~= sops);
                                },
                                SpecParse::Fail { .. } => {},
                            }
                            assert(before + pops =~= mid);
                            assert(ops.deep_view() =~= mid.push(opv));
                            assert(base + (emitted + pops.push(opv)) =~= ops.deep_view());
                            lemma_seq_then_assoc(
                                emitted,
                                pops.push(opv),
                                spec_parse_e_prime(tv, self.position as int, budget as int),
                            );
                            assert(spec_clamp(pos + 1, self.position as int, tv.len() as int)
                                == self.position as int);
                            emitted = emitted + pops.push(opv);
                        }
                    },
                    Err(e) => {
                        proof {
                            match spec_parse_p(tv, pos + 1, budget as int) {
                                SpecParse::Fail { ops: sops, err } => {
                                    assert(base + (emitted + sops) =~= ops.deep_view());
                                },
                                SpecParse::Done { .. } => {},
                            }
                        }
                        return Err(e);
                    },
                }
            } else {
                proof {
                    assert(emitted + Seq::<SpecOp>::empty() =~= emitted);
                }
                return Ok(());
            }
        }
    }

    /// Parses an expression, appending to `ops`.
    fn parse_e(&mut self, ops: &mut Vec<Op>, budget: usize) -> (r: Result<(), CalcError>)
        requires
            old(self).position <= old(self).tokens@.len(),
        ensures
            final(self).tokens == old(self).tokens,
            old(self).position <= final(self).position <= old(self).tokens@.len(),
            match spec_parse_e(
                old(self).tokens.deep_view(),
                old(self).position as int,
                budget as int,
            ) {
                SpecParse::Done { ops: sops, next } => r is Ok && final(ops).deep_view() == old(ops).deep_view() + sops && final(self).position == next && final(self).position > old(self).position,
                SpecParse::Fail { ops: sops, err } => (r matches Err(e) && e@ == err) && final(ops).deep_view() == old(ops).deep_view() + sops,
            },
        decreases old(self).tokens@.len() - old(self).position, 6int,
    {
        let ghost tv = self.tokens.deep_view();
        let ghost p0 = self.position as int;
        let ghost base = ops.deep_view();
        match self.parse_p(ops, budget) {
            Err(e) => Err(e),
            Ok(()) => {
                let ghost pops = ops.deep_view().skip(base.len() as int);
                proof {
                    assert(base + pops =~= ops.deep_view());
                    assert(spec_clamp(p0, self.position as int, tv.len() as int)
                        == self.position as int);
                }
                let r = self.parse_e_prime(ops, budget);
                proof {
                    match spec_parse_e_prime(tv, self.position as int, budget as int) {
                        SpecParse::Done { ops: sops, next } => {
                            assert((base + pops) + sops =~= base + (pops + sops));
                        },
                        SpecParse::Fail { ops: sops, err } => {
                            assert((base + pops) + sops =~= base + (pops + sops));
                        },
                    }
                }
                r
            },
        }
    }

    /// Compiles the whole token sequence: an expression followed by the
    /// terminator. The returned program holds every operation reached, in
    /// evaluation order; the returned error, if any, is the one that
    /// ended the parse.
    pub fn compile(&mut self) -> (r: Program)
        requires
            old(self).position == 0,
        ensures
            final(self).tokens == old(self).tokens,
            r.ops.deep_view() == spec_compile(old(self).tokens.deep_view()).0,
            r.error.deep_view() == spec_compile(old(self).tokens.deep_view()).1,
            spec_stack_safe(r.ops.deep_view(), 0),
            r.error is None ==> spec_stack_height(r.ops.deep_view(), 0) == 1,
    {
        let ghost tv = self.tokens.deep_view();
        proof {
            lemma_compile_stack(tv);
        }
        let mut ops: Vec<Op> = Vec::new();
        proof {
            assert(Seq::<SpecOp>::empty() + spec_parse_e(tv, 0, MAX_NESTING_DEPTH as int)->Done_ops
                =~= spec_parse_e(tv, 0, MAX_NESTING_DEPTH as int)->Done_ops);
            assert(Seq::<SpecOp>::empty() + spec_parse_e(tv, 0, MAX_NESTING_DEPTH as int)->Fail_ops
                =~= spec_parse_e(tv, 0, MAX_NESTING_DEPTH as int)->Fail_ops);
        }
        match self.parse_e(&mut ops, MAX_NESTING_DEPTH) {
            Err(e) => Program { ops, error: Some(e) },
            Ok(()) => match self.peek() {
                Some(t) => {
                    if matches!(t, Token::Equals) {
                        Program { ops, error: None }
                    } else {
                        let t2 = t.duplicate();
                        Program {
                            ops,
                            error: Some(CalcError::Token(TokenError::UnexpectedToken(t2))),
                        }
                    }
                },
                None => Program { ops, error: Some(CalcError::Token(TokenError::UnexpectedEnd)) },
            },
        }
    }
}

} // verus!
