//! Expressions and their parser.

use crate::ast::expr::if_else_call::IfElseCall;
use crate::ast::expr::let_call::LetCall;
use crate::ast::expr::match_call::MatchCall;
use crate::ast::parser::advanced;
use crate::ast::parser::described;
use crate::ast::parser::located;
use crate::ast::raw_value::RawValue;
use crate::ast::raw_value::RawView;
use crate::ast::type_statement::spec_type;
use crate::ast::view::expression_view;
use crate::ast::view::span;
use crate::ast::view::BranchesView;
use crate::ast::view::ExpressionStatementView;
use crate::ast::view::ExpressionView;
use crate::ast::view::InputsView;
use crate::ast::view::ParseFault;
use crate::ast::view::Parsed;
use crate::ast::view::Toks;
use crate::lex::tokens::leveled_view;
use crate::ast::type_statement::TypeStatement;
use crate::error::CResult;
use crate::error::Span;
use crate::lex::token::Kw;
use crate::lex::token::Lit;
use crate::lex::token::Op;
use crate::lex::token::Token;
use crate::lex::token::TokenView;
use crate::lex::tokens::Tokens;
use vstd::prelude::*;

verus! {

#[derive(Debug)]
pub struct ExpressionStatement {
    pub expression: Expression,
    pub token_range: Span,
}

/// An expression within the abstract syntax tree.
#[derive(Debug)]
pub enum Expression {
    Binary(BinaryCall),
    Unary(UnaryCall),
    Let(LetCall),
    Def(DefCall),
    Literal(RawValue),
    Local(String),
    FriendlyField(FriendlyField),
    Match(MatchCall),
    IfElse(IfElseCall),
    Zelf,
    Void,
}

#[derive(Debug)]
pub struct BinaryCall {
    pub op: BinaryOp,
    pub lhs: Box<ExpressionStatement>,
    pub rhs: Box<ExpressionStatement>,
}

#[derive(Debug)]
pub struct UnaryCall {
    pub op: UnaryOp,
    pub subject: Box<ExpressionStatement>,
}

#[derive(Debug)]
pub struct DefCall {
    pub name: String,
    pub subject: Box<ExpressionStatement>,
    /// The named inputs, in the order in which they are written.
    pub inputs: Vec<(String, ExpressionStatement)>,
}

// A reference to the protected field of another instance of the self struct
#[derive(Clone, Debug)]
pub struct FriendlyField {
    pub local_name: String,
    pub field_name: String,
}

#[derive(Clone, Copy, Debug, PartialEq, Eq)]
pub enum BinaryOp {
    Add,
    Sub,
    Mul,
    Div,
    Eq,
    Lt,
    Gt,
    And,
    Or,
}

#[derive(Clone, Copy, Debug, PartialEq, Eq)]
pub enum UnaryOp {
    Neg,
    Not,
}

/// The binary operation that an operator token stands for, if any.
pub open spec fn binary_op(op: Op) -> Option<BinaryOp> {
    match op {
        Op::Add => Some(BinaryOp::Add),
        Op::Sub => Some(BinaryOp::Sub),
        Op::Mul => Some(BinaryOp::Mul),
        Op::Div => Some(BinaryOp::Div),
        Op::Eq => Some(BinaryOp::Eq),
        Op::Lt => Some(BinaryOp::Lt),
        Op::Gt => Some(BinaryOp::Gt),
        Op::And => Some(BinaryOp::And),
        Op::Or => Some(BinaryOp::Or),
        _ => None,
    }
}

/// The binary operation that an operator token stands for, if any.
pub fn binary_op_of(op: Op) -> (r: Option<BinaryOp>)
    ensures
        r == binary_op(op),
{
    match op {
        Op::Add => Some(BinaryOp::Add),
        Op::Sub => Some(BinaryOp::Sub),
        Op::Mul => Some(BinaryOp::Mul),
        Op::Div => Some(BinaryOp::Div),
        Op::Eq => Some(BinaryOp::Eq),
        Op::Lt => Some(BinaryOp::Lt),
        Op::Gt => Some(BinaryOp::Gt),
        Op::And => Some(BinaryOp::And),
        Op::Or => Some(BinaryOp::Or),
        _ => None,
    }
}

/// Whether the token at the position is deeper than the level.
pub open spec fn deeper(tokens: Toks, pos: int, level: nat) -> bool {
    0 <= pos < tokens.len() && tokens[pos].1 > level
}

/// The expression that stands at the position: one primary, then the
/// calls and operators that follow it at the level of its first token or
/// deeper. Operators chain from left to right: each takes what was read so
/// far as its left side and one operand as its right side.
pub open spec fn spec_expression(tokens: Toks, pos: int) -> Parsed<ExpressionStatementView>
    decreases tokens.len() - pos, 4nat,
{
    spec_chain(tokens, pos, true)
}

/// What stands at the position: one primary with the calls that follow it
/// at the level of its first token or deeper, and, where `chain` is set,
/// the binary operators with their right sides too. Without `chain` it is
/// one operand: what stands right of a binary operator or behind a leading
/// `-`.
pub open spec fn spec_chain(tokens: Toks, pos: int, chain: bool) -> Parsed<ExpressionStatementView>
    decreases tokens.len() - pos, 3nat,
{
    if !(0 <= pos < tokens.len()) {
        Err(ParseFault::Unexpected(pos))
    } else {
        let base = tokens[pos].1;
        match tokens[pos].0 {
            TokenView::Kw(Kw::Zelf) => spec_infix(tokens, pos, base, ExpressionView::Zelf, pos + 1, chain),
            TokenView::Global(_) => match spec_let_call(tokens, pos) {
                Err(fault) => Err(fault),
                Ok(((name, inputs), after)) => if !(pos < after <= tokens.len()) {
                    Err(ParseFault::Unexpected(pos))
                } else {
                    spec_infix(tokens, pos, base, ExpressionView::Let(name, inputs), after, chain)
                },
            },
            TokenView::Local(name) => spec_infix(
                tokens,
                pos,
                base,
                ExpressionView::Local(name),
                pos + 1,
                chain,
            ),
            TokenView::Text(value) => spec_infix(
                tokens,
                pos,
                base,
                ExpressionView::Literal(RawView::Text(value)),
                pos + 1,
                chain,
            ),
            TokenView::Number(value) => if value > i64::MAX {
                Err(ParseFault::Unexpected(pos))
            } else {
                spec_infix(
                    tokens,
                    pos,
                    base,
                    ExpressionView::Literal(RawView::Int(value as i64)),
                    pos + 1,
                    chain,
                )
            },
            TokenView::Boolean(value) => spec_infix(
                tokens,
                pos,
                base,
                ExpressionView::Literal(RawView::Bool(value)),
                pos + 1,
                chain,
            ),
            TokenView::Op(Op::Dot) => spec_infix(tokens, pos, base, ExpressionView::Zelf, pos, chain),
            TokenView::Op(Op::Sub) => match spec_chain(tokens, pos + 1, false) {
                Err(fault) => Err(fault),
                Ok((subject, after)) => if !(pos < after <= tokens.len()) {
                    Err(ParseFault::Unexpected(pos))
                } else {
                    spec_infix(
                        tokens,
                        pos,
                        base,
                        ExpressionView::Unary(UnaryOp::Neg, Box::new(subject)),
                        after,
                        chain,
                    )
                },
            },
            TokenView::Kw(Kw::Match) => match spec_match(tokens, pos) {
                Err(fault) => Err(fault),
                Ok((call, after)) => if !(pos < after <= tokens.len()) {
                    Err(ParseFault::Unexpected(pos))
                } else {
                    spec_infix(tokens, pos, base, call, after, chain)
                },
            },
            TokenView::Kw(Kw::If) => match spec_if_else(tokens, pos) {
                Err(fault) => Err(fault),
                Ok((call, after)) => if !(pos < after <= tokens.len()) {
                    Err(ParseFault::Unexpected(pos))
                } else {
                    spec_infix(tokens, pos, base, call, after, chain)
                },
            },
            TokenView::Op(Op::Question) => Ok(
                (
                    ExpressionStatementView {
                        expression: ExpressionView::Void,
                        token_range: span(pos, pos + 1),
                    },
                    pos + 1,
                ),
            ),
            _ => Err(ParseFault::Unexpected(pos)),
        }
    }
}

/// The range of what stands left of a dot at `pos`: the tokens from
/// `start` up to the dot; where there are none, the dot itself, which then
/// stands for `Self`.
pub open spec fn subject_span(start: int, pos: int) -> Span {
    if start < pos {
        span(start, pos)
    } else {
        span(start, pos + 1)
    }
}

/// The expression that starts at `start` with `expression` read up to
/// `pos`, with what follows at the level `base` or deeper. A dot and a name
/// call a trait on what was read so far; a dot and a local name behind a
/// local reach a field. Where `chain` is set, a binary operator takes what
/// was read so far as its left side and the one operand behind it as its
/// right side, so that operators nest to the left; without `chain` the
/// expression ends before a binary operator.
pub open spec fn spec_infix(
    tokens: Toks,
    start: int,
    base: nat,
    expression: ExpressionView,
    pos: int,
    chain: bool,
) -> Parsed<ExpressionStatementView>
    decreases tokens.len() - pos, 2nat,
{
    let done = Ok(
        (ExpressionStatementView { expression, token_range: span(start, pos) }, pos),
    );
    if !(0 <= pos < tokens.len() && tokens[pos].1 >= base) {
        done
    } else {
        match tokens[pos].0 {
            TokenView::Op(Op::Dot) => if pos + 1 >= tokens.len() {
                Err(ParseFault::Unexpected(pos))
            } else {
                match (expression, tokens[pos + 1].0) {
                    (ExpressionView::Local(local), TokenView::Local(field)) => spec_infix(
                        tokens,
                        start,
                        base,
                        ExpressionView::FriendlyField(local, field),
                        pos + 2,
                        chain,
                    ),
                    (_, TokenView::Global(_)) => match spec_let_call(tokens, pos + 1) {
                        Err(fault) => Err(fault),
                        Ok(((name, inputs), after)) => if !(pos < after <= tokens.len()) {
                            Err(ParseFault::Unexpected(pos))
                        } else {
                            spec_infix(
                                tokens,
                                start,
                                base,
                                ExpressionView::Def(
                                    name,
                                    Box::new(
                                        ExpressionStatementView {
                                            expression,
                                            token_range: subject_span(start, pos),
                                        },
                                    ),
                                    inputs,
                                ),
                                after,
                                chain,
                            )
                        },
                    },
                    _ => Err(ParseFault::Unexpected(pos + 1)),
                }
            },
            TokenView::Op(op) => match binary_op(op) {
                Some(binary) => if !chain {
                    done
                } else {
                    match spec_chain(tokens, pos + 1, false) {
                        Err(fault) => Err(fault),
                        Ok((rhs, after)) => if !(pos < after <= tokens.len()) {
                            Err(ParseFault::Unexpected(pos))
                        } else {
                            spec_infix(
                                tokens,
                                start,
                                base,
                                ExpressionView::Binary(
                                    binary,
                                    Box::new(
                                        ExpressionStatementView {
                                            expression,
                                            token_range: span(start, pos),
                                        },
                                    ),
                                    Box::new(rhs),
                                ),
                                after,
                                chain,
                            )
                        },
                    }
                },
                None => done,
            },
            _ => done,
        }
    }
}

/// The call that stands at the position: a name, and the named inputs
/// that follow it at a deeper level.
pub open spec fn spec_let_call(tokens: Toks, pos: int) -> Parsed<(Seq<char>, InputsView)>
    decreases tokens.len() - pos, 1nat,
{
    if !(0 <= pos < tokens.len()) {
        Err(ParseFault::Unexpected(pos))
    } else {
        match tokens[pos].0 {
            TokenView::Global(name) => match spec_inputs(
                tokens,
                pos + 1,
                tokens[pos].1,
                Seq::empty(),
            ) {
                Err(fault) => Err(fault),
                Ok((inputs, after)) => Ok(((name, inputs), after)),
            },
            _ => Err(ParseFault::Unexpected(pos)),
        }
    }
}

/// The call of the name with the inputs, if they are inputs.
pub open spec fn named_call(name: Seq<char>, inputs: Parsed<InputsView>) -> Parsed<
    (Seq<char>, InputsView),
> {
    match inputs {
        Err(fault) => Err(fault),
        Ok((inputs, after)) => Ok(((name, inputs), after)),
    }
}

/// The match of the subject, bound to the name, against the branches, if
/// they are branches.
pub open spec fn matched(
    name: Seq<char>,
    subject: ExpressionStatementView,
    branches: Parsed<BranchesView>,
) -> Parsed<ExpressionView> {
    match branches {
        Err(fault) => Err(fault),
        Ok((branches, end)) => Ok((ExpressionView::Match(name, Box::new(subject), branches), end)),
    }
}

/// `done`, then the named inputs that stand from the position on: each a
/// local name deeper than `base` and the expression behind it.
pub open spec fn spec_inputs(tokens: Toks, pos: int, base: nat, done: InputsView) -> Parsed<
    InputsView,
>
    decreases tokens.len() - pos, 0nat,
{
    if deeper(tokens, pos, base) && tokens[pos].0 is Local {
        match spec_expression(tokens, pos + 1) {
            Err(fault) => Err(fault),
            Ok((value, after)) => if !(pos < after <= tokens.len()) {
                Err(ParseFault::Unexpected(pos))
            } else {
                spec_inputs(tokens, after, base, done.push((tokens[pos].0->Local_0, value)))
            },
        }
    } else {
        Ok((done, pos))
    }
}

/// The match that stands at the position: `match`, the name that the
/// subject is bound to, the subject, and the branches that follow deeper
/// than `match`.
pub open spec fn spec_match(tokens: Toks, pos: int) -> Parsed<ExpressionView>
    decreases tokens.len() - pos, 1nat,
{
    if !(0 <= pos && pos + 1 < tokens.len()) {
        Err(ParseFault::Unexpected(pos))
    } else {
        match tokens[pos + 1].0 {
            TokenView::Local(name) => match spec_expression(tokens, pos + 2) {
                Err(fault) => Err(fault),
                Ok((subject, after)) => if !(pos < after <= tokens.len()) {
                    Err(ParseFault::Unexpected(pos))
                } else {
                    match spec_branches(tokens, after, tokens[pos].1, Seq::empty()) {
                        Err(fault) => Err(fault),
                        Ok((branches, end)) => Ok(
                            (ExpressionView::Match(name, Box::new(subject), branches), end),
                        ),
                    }
                },
            },
            _ => Err(ParseFault::Unexpected(pos + 1)),
        }
    }
}

/// `done`, then the branches that stand from the position on, deeper than
/// `base`: each a type and the expression behind it.
pub open spec fn spec_branches(tokens: Toks, pos: int, base: nat, done: BranchesView) -> Parsed<
    BranchesView,
>
    decreases tokens.len() - pos, 0nat,
{
    if deeper(tokens, pos, base) {
        match spec_type(tokens, pos) {
            Err(fault) => Err(fault),
            Ok((typ, behind)) => if !(pos < behind <= tokens.len()) {
                Err(ParseFault::Unexpected(pos))
            } else {
                match spec_expression(tokens, behind) {
                    Err(fault) => Err(fault),
                    Ok((value, after)) => if !(pos < after <= tokens.len()) {
                        Err(ParseFault::Unexpected(pos))
                    } else {
                        spec_branches(tokens, after, base, done.push((typ, value)))
                    },
                }
            },
        }
    } else {
        Ok((done, pos))
    }
}

/// The if-else that stands at the position: `if`, the condition, `then`,
/// an expression, `else`, an expression.
pub open spec fn spec_if_else(tokens: Toks, pos: int) -> Parsed<ExpressionView>
    decreases tokens.len() - pos, 1nat,
{
    if !(0 <= pos < tokens.len()) {
        Err(ParseFault::Unexpected(pos))
    } else {
        match spec_expression(tokens, pos + 1) {
            Err(fault) => Err(fault),
            Ok((condition, then)) => if then <= pos || then >= tokens.len() {
                Err(ParseFault::Unexpected(pos))
            } else if tokens[then].0 != TokenView::Kw(Kw::Then) {
                Err(ParseFault::Unexpected(then))
            } else {
                match spec_expression(tokens, then + 1) {
                    Err(fault) => Err(fault),
                    Ok((iff, otherwise)) => if otherwise <= then || otherwise >= tokens.len() {
                        Err(ParseFault::Unexpected(pos))
                    } else if tokens[otherwise].0 != TokenView::Kw(Kw::Else) {
                        Err(ParseFault::Unexpected(otherwise))
                    } else {
                        match spec_expression(tokens, otherwise + 1) {
                            Err(fault) => Err(fault),
                            Ok((els, end)) => Ok(
                                (
                                    ExpressionView::IfElse(
                                        Box::new(condition),
                                        Box::new(iff),
                                        Box::new(els),
                                    ),
                                    end,
                                ),
                            ),
                        }
                    },
                }
            },
        }
    }
}

/// Named inputs lie one after the other between `start` and `end`, each
/// after the token of its name.
pub open spec fn inputs_ranged(
    inputs: Seq<(String, ExpressionStatement)>,
    start: int,
    end: int,
) -> bool
    decreases inputs,
{
    if inputs.len() == 0 {
        start <= end
    } else {
        &&& inputs.last().1.well_ranged()
        &&& inputs.last().1.token_range.end <= end
        &&& inputs_ranged(inputs.drop_last(), start, inputs.last().1.token_range.start - 1)
    }
}

/// Branches lie one after the other between `start` and `end`, each a type
/// and then an expression.
pub open spec fn branches_ranged(
    branches: Seq<(TypeStatement, ExpressionStatement)>,
    start: int,
    end: int,
) -> bool
    decreases branches,
{
    if branches.len() == 0 {
        start <= end
    } else {
        &&& branches.last().0.well_ranged()
        &&& branches.last().1.well_ranged()
        &&& branches.last().0.token_range.end == branches.last().1.token_range.start
        &&& branches.last().1.token_range.end <= end
        &&& branches_ranged(
            branches.drop_last(),
            start,
            branches.last().0.token_range.start as int,
        )
    }
}

/// Inputs that lie behind `start` lie behind any earlier place.
pub proof fn lemma_inputs_begin(
    inputs: Seq<(String, ExpressionStatement)>,
    start: int,
    earlier: int,
    end: int,
)
    requires
        inputs_ranged(inputs, start, end),
        earlier <= start,
    ensures
        inputs_ranged(inputs, earlier, end),
    decreases inputs,
{
    if inputs.len() > 0 {
        lemma_inputs_begin(
            inputs.drop_last(),
            start,
            earlier,
            inputs.last().1.token_range.start - 1,
        );
    }
}

impl ExpressionStatement {
    /// The range is not empty, and the parts of the expression lie in it,
    /// one after the other.
    pub open spec fn well_ranged(&self) -> bool
        decreases self,
    {
        let range = self.token_range;
        &&& range.start < range.end
        &&& match self.expression {
            Expression::Binary(call) => {
                &&& call.lhs.token_range.start == range.start
                &&& call.lhs.token_range.end < call.rhs.token_range.start
                &&& call.rhs.token_range.end <= range.end
                &&& call.lhs.well_ranged()
                &&& call.rhs.well_ranged()
            },
            Expression::Unary(call) => {
                &&& range.start < call.subject.token_range.start
                &&& call.subject.token_range.end <= range.end
                &&& call.subject.well_ranged()
            },
            Expression::Let(call) => inputs_ranged(call.inputs@, range.start + 1, range.end as int),
            Expression::Def(call) => {
                &&& call.subject.token_range.start == range.start
                &&& call.subject.well_ranged()
                &&& inputs_ranged(
                    call.inputs@,
                    call.subject.token_range.end + 1,
                    range.end as int,
                )
            },
            Expression::Match(call) => {
                &&& range.start + 2 <= call.subject.token_range.start
                &&& call.subject.well_ranged()
                &&& branches_ranged(
                    call.branches@,
                    call.subject.token_range.end as int,
                    range.end as int,
                )
            },
            Expression::IfElse(call) => {
                &&& range.start < call.condition.token_range.start
                &&& call.condition.token_range.end < call.iff.token_range.start
                &&& call.iff.token_range.end < call.els.token_range.start
                &&& call.els.token_range.end <= range.end
                &&& call.condition.well_ranged()
                &&& call.iff.well_ranged()
                &&& call.els.well_ranged()
            },
            _ => true,
        }
    }

    /// Whether the upcoming tokens may start an expression: any may.
    pub fn matches(_tokens: &Tokens) -> (r: bool)
        ensures
            r,
    {
        true
    }

    /// Parses one primary expression, then the calls and operators that
    /// follow it at the same level or deeper. Operators chain from left to
    /// right.
    pub fn parse(tokens: &mut Tokens) -> (r: CResult<ExpressionStatement>)
        requires
            old(tokens).wf(),
        ensures
            advanced(*old(tokens), *final(tokens)),
            match r {
                Ok(statement) => statement.well_ranged() && statement.token_range == (Span {
                    start: old(tokens).position,
                    end: final(tokens).position,
                }),
                Err(e) => located(e, *old(tokens)) && described(e, *final(tokens)),
            },
            match spec_expression(leveled_view(old(tokens).tokens@), old(tokens).position as int) {
                Ok((statement, end)) => r matches Ok(found) && found@ == statement && final(tokens).position == end,
                Err(fault) => r matches Err(e) && fault.reported_by(
                    e,
                    leveled_view(old(tokens).tokens@),
                ),
            },
        decreases old(tokens).left(), 3nat,
    {
        Self::parse_chain(tokens, true)
    }

    /// Parses one primary expression and the calls that follow it at the
    /// same level or deeper; where `chain` is set, the binary operators and
    /// their right sides too, each right side one operand.
    pub fn parse_chain(tokens: &mut Tokens, chain: bool) -> (r: CResult<ExpressionStatement>)
        requires
            old(tokens).wf(),
        ensures
            advanced(*old(tokens), *final(tokens)),
            match r {
                Ok(statement) => statement.well_ranged() && statement.token_range == (Span {
                    start: old(tokens).position,
                    end: final(tokens).position,
                }),
                Err(e) => located(e, *old(tokens)) && described(e, *final(tokens)),
            },
            match spec_chain(
                leveled_view(old(tokens).tokens@),
                old(tokens).position as int,
                chain,
            ) {
                Ok((statement, end)) => r matches Ok(found) && found@ == statement && final(tokens).position == end,
                Err(fault) => r matches Err(e) && fault.reported_by(
                    e,
                    leveled_view(old(tokens).tokens@),
                ),
            },
        decreases old(tokens).left(), 2nat,
    {
        let ghost toks = leveled_view(old(tokens).tokens@);
        let base_level = tokens.level();
        let token_start = tokens.position();

        // Parse first token
        tokens.expect("an expression");
        let mut expr = match tokens.token() {
            Token::Kw(Kw::Zelf) => {
                tokens.step();
                Expression::Zelf
            },
            Token::Global(_) => {
                let call = LetCall::parse(tokens)?;
                Expression::Let(call)
            },
            Token::Local(name) => {
                let name = name.clone();
                tokens.step();
                Expression::Local(name)
            },
            Token::Lit(Lit::String(value)) => {
                let value = value.clone();
                tokens.step();
                Expression::Literal(RawValue::String(value))
            },
            Token::Lit(Lit::Number(value)) => {
                let value = *value;
                if value as u64 > 0x7fff_ffff_ffff_ffffu64 {
                    return tokens.unexpected_token_error();
                }
                tokens.step();
                Expression::Literal(RawValue::Int(value as i64))
            },
            Token::Lit(Lit::Boolean(value)) => {
                let value = *value;
                tokens.step();
                Expression::Literal(RawValue::Bool(value))
            },
            Token::Op(Op::Dot) => {
                // We don't step so we can reevaluate the same dot in the next step.
                Expression::Zelf
            },
            Token::Op(Op::Sub) => {
                tokens.step();
                let expr = ExpressionStatement::parse_chain(tokens, false)?;
                Expression::Unary(UnaryCall { op: UnaryOp::Neg, subject: Box::new(expr) })
            },
            Token::Kw(Kw::Match) => Expression::Match(MatchCall::parse(tokens)?),
            Token::Kw(Kw::If) => Expression::IfElse(IfElseCall::parse(tokens)?),
            Token::Op(Op::Question) => {
                tokens.step();
                let statement = ExpressionStatement {
                    expression: Expression::Void,
                    token_range: Span { start: token_start, end: tokens.position() },
                };
                return Ok(statement);
            },
            _ => {
                return tokens.unexpected_token_error();
            },
        };

        // Parse further operations
        while tokens.deeper_than_or_eq(base_level)
            invariant
                advanced(*old(tokens), *tokens),
                token_start == old(tokens).position,
                token_start < tokens.position ==> (ExpressionStatement {
                    expression: expr,
                    token_range: Span { start: token_start, end: tokens.position },
                }).well_ranged(),
                token_start == tokens.position ==> tokens.current() == TokenView::Op(Op::Dot)
                    && tokens.tokens@[tokens.position as int].1 == base_level && expr
                    is Zelf,
                toks == leveled_view(old(tokens).tokens@),
                spec_chain(toks, token_start as int, chain) == spec_infix(
                    toks,
                    token_start as int,
                    base_level as nat,
                    expression_view(expr),
                    tokens.position as int,
                    chain,
                ),
            ensures
                token_start < tokens.position,
                spec_chain(toks, token_start as int, chain) == Ok::<
                    (ExpressionStatementView, int),
                    ParseFault,
                >(
                    (
                        ExpressionStatementView {
                            expression: expression_view(expr),
                            token_range: span(token_start as int, tokens.position as int),
                        },
                        tokens.position as int,
                    ),
                ),
            decreases tokens.left(),
        {
            let op = match tokens.token() {
                Token::Op(op) => *op,
                _ => {
                    break ;
                },
            };
            let op_position = tokens.position();
            match op {
                Op::Dot => {
                    tokens.step();

                    tokens.expect("a trait name or a friendly field name");
                    expr = match (expr, tokens.token()) {
                        (Expression::Local(local_name), Token::Local(field_name)) => {
                            let field_name = field_name.clone();
                            tokens.step();
                            Expression::FriendlyField(FriendlyField { local_name, field_name })
                        },
                        (expr, Token::Global(_)) => {
                            // What stands left of the dot; a dot without
                            // anything left of it stands for `Self` itself.
                            let subject_end = if token_start < op_position {
                                op_position
                            } else {
                                tokens.position()
                            };
                            let subject = ExpressionStatement {
                                expression: expr,
                                token_range: Span { start: token_start, end: subject_end },
                            };
                            assert(subject.well_ranged());
                            let call = LetCall::parse(tokens)?;
                            proof {
                                lemma_inputs_begin(
                                    call.inputs@,
                                    op_position + 2,
                                    subject_end + 1,
                                    tokens.position as int,
                                );
                            }
                            Expression::Def(
                                DefCall {
                                    name: call.name,
                                    subject: Box::new(subject),
                                    inputs: call.inputs,
                                },
                            )
                        },
                        _ => {
                            return tokens.unexpected_token_error();
                        },
                    }
                },
                _ => {
                    match binary_op_of(op) {
                        Some(binary) => {
                            if !chain {
                                break ;
                            }
                            let lhs = ExpressionStatement {
                                expression: expr,
                                token_range: Span { start: token_start, end: op_position },
                            };
                            assert(lhs.well_ranged());
                            tokens.step();
                            let rhs = ExpressionStatement::parse_chain(tokens, false)?;
                            expr =
                            Expression::Binary(
                                BinaryCall { op: binary, lhs: Box::new(lhs), rhs: Box::new(rhs) },
                            );
                        },
                        None => {
                            break ;
                        },
                    }
                },
            }
        }

        let statement = ExpressionStatement {
            expression: expr,
            token_range: Span { start: token_start, end: tokens.position() },
        };
        Ok(statement)
    }
}

impl crate::ast::parser::Parse for ExpressionStatement {
    open spec fn starts(token: TokenView) -> bool {
        true
    }

    open spec fn grammar(tokens: crate::ast::view::Toks, pos: int) -> crate::ast::view::Parsed<
        Self::V,
    > {
        spec_expression(tokens, pos)
    }

    fn matches(tokens: &Tokens) -> (r: bool) {
        ExpressionStatement::matches(tokens)
    }

    fn parse(tokens: &mut Tokens) -> (r: CResult<Self>) {
        ExpressionStatement::parse(tokens)
    }
}

} // verus!
