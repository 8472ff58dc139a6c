//! The abstract syntax tree as mathematical values: names and string
//! literals are character sequences, lists are sequences.

use crate::ast::abstract_syntax_tree::AbstractSyntaxTree;
use crate::ast::class_statement::ClassStatement;
use crate::ast::def_statement::DefStatement;
use crate::ast::expression::BinaryOp;
use crate::ast::expression::Expression;
use crate::ast::expression::ExpressionStatement;
use crate::ast::expression::UnaryOp;
use crate::ast::let_statement::LetStatement;
use crate::ast::module_statement::ModuleStatement;
use crate::ast::raw_value::RawView;
use crate::ast::struct_statement::StructStatement;
use crate::ast::trait_statement::TraitStatement;
use crate::ast::type_statement::RawType;
use crate::ast::type_statement::TypeStatement;
use crate::ast::type_statement::TypeStatementType;
use crate::ast::using_statement::SingleUsingStatement;
use crate::error::CompilationError;
use crate::error::ErrorContext;
use crate::error::ErrorMessage;
use crate::error::Span;
use crate::lex::token::TokenView;
use vstd::prelude::*;

verus! {

/// Leveled tokens, as the grammar reads them.
pub type Toks = Seq<(TokenView, nat)>;

/// Why tokens are no program.
pub enum ParseFault {
    /// The token at the position was not expected.
    Unexpected(int),
    /// The token at the position names no raw type.
    UnknownRawType(int, Seq<char>),
    /// A module of the name has a second class, over the range.
    DuplicateClass(Span, Seq<char>),
    /// A module of the name has a second struct, over the range.
    DuplicateStruct(Span, Seq<char>),
    /// A module of the name has a class and a struct; the later of the
    /// two lies over the range.
    ClassAndStruct(Span, Seq<char>),
}

impl ParseFault {
    /// Whether `e` reports this fault.
    pub open spec fn reported_by(self, e: CompilationError, tokens: Toks) -> bool {
        match self {
            ParseFault::Unexpected(position) => e.context == Some(
                ErrorContext::Token(position as usize),
            ) && 0 <= position < tokens.len() && (
            e.message matches ErrorMessage::UnexpectedToken(token, _) && token@
                == tokens[position].0),
            ParseFault::UnknownRawType(position, name) => e.context == Some(
                ErrorContext::Token(position as usize),
            ) && 0 <= position < tokens.len() && (
            e.message matches ErrorMessage::UnknownRawType(n) && n@ == name),
            ParseFault::DuplicateClass(range, name) => e.context == Some(
                ErrorContext::TokenRange(range),
            ) && (e.message matches ErrorMessage::DuplicateClass(n) && n@ == name),
            ParseFault::DuplicateStruct(range, name) => e.context == Some(
                ErrorContext::TokenRange(range),
            ) && (e.message matches ErrorMessage::DuplicateStruct(n) && n@ == name),
            ParseFault::ClassAndStruct(range, name) => e.context == Some(
                ErrorContext::TokenRange(range),
            ) && (e.message matches ErrorMessage::ClassAndStruct(n) && n@ == name),
        }
    }
}

/// What a parser gives: a value and the position behind it, or a fault.
pub type Parsed<T> = Result<(T, int), ParseFault>;

/// A written type.
pub struct TypeStatementView {
    pub typ: TypeView,
    pub token_range: Span,
}

pub enum TypeView {
    Name(Seq<char>),
    AtName(Seq<char>),
    And(Box<TypeStatementView>, Box<TypeStatementView>),
    Or(Box<TypeStatementView>, Box<TypeStatementView>),
    Zelf,
    Void,
}

/// The kind of a written type as a mathematical value.
pub open spec fn typ_view(typ: TypeStatementType) -> TypeView
    decreases typ,
{
    match typ {
        TypeStatementType::Name(name) => TypeView::Name(name@),
        TypeStatementType::AtName(name) => TypeView::AtName(name@),
        TypeStatementType::And(a, b) => TypeView::And(
            Box::new(type_view(*a)),
            Box::new(type_view(*b)),
        ),
        TypeStatementType::Or(a, b) => TypeView::Or(
            Box::new(type_view(*a)),
            Box::new(type_view(*b)),
        ),
        TypeStatementType::Zelf => TypeView::Zelf,
        TypeStatementType::Void => TypeView::Void,
    }
}

/// A written type as a mathematical value.
pub open spec fn type_view(statement: TypeStatement) -> TypeStatementView
    decreases statement,
{
    TypeStatementView { typ: typ_view(statement.typ), token_range: statement.token_range }
}

impl View for TypeStatement {
    type V = TypeStatementView;

    open spec fn view(&self) -> TypeStatementView {
        type_view(*self)
    }
}

/// An expression with the range of tokens that it covers.
pub struct ExpressionStatementView {
    pub expression: ExpressionView,
    pub token_range: Span,
}

/// Named inputs, in the order in which they are written.
pub type InputsView = Seq<(Seq<char>, ExpressionStatementView)>;

/// Branches, each a type and an expression, in the order in which they are
/// written.
pub type BranchesView = Seq<(TypeStatementView, ExpressionStatementView)>;

pub enum ExpressionView {
    Binary(BinaryOp, Box<ExpressionStatementView>, Box<ExpressionStatementView>),
    Unary(UnaryOp, Box<ExpressionStatementView>),
    /// The name of the let and the inputs.
    Let(Seq<char>, InputsView),
    /// The name of the trait, the subject and the inputs.
    Def(Seq<char>, Box<ExpressionStatementView>, InputsView),
    Literal(RawView),
    Local(Seq<char>),
    /// The names of the local and of the field.
    FriendlyField(Seq<char>, Seq<char>),
    /// The name that the subject is bound to, the subject and the branches.
    Match(Seq<char>, Box<ExpressionStatementView>, BranchesView),
    /// The condition and the two arms.
    IfElse(
        Box<ExpressionStatementView>,
        Box<ExpressionStatementView>,
        Box<ExpressionStatementView>,
    ),
    Zelf,
    Void,
}

/// Named inputs as mathematical values.
pub open spec fn inputs_view(inputs: Seq<(String, ExpressionStatement)>) -> InputsView
    decreases inputs,
{
    if inputs.len() == 0 {
        Seq::empty()
    } else {
        inputs_view(inputs.drop_last()).push((inputs.last().0@, statement_view(inputs.last().1)))
    }
}

/// Branches as mathematical values.
pub open spec fn branches_view(branches: Seq<(TypeStatement, ExpressionStatement)>) -> BranchesView
    decreases branches,
{
    if branches.len() == 0 {
        Seq::empty()
    } else {
        branches_view(branches.drop_last()).push(
            (type_view(branches.last().0), statement_view(branches.last().1)),
        )
    }
}

/// An expression as a mathematical value.
pub open spec fn expression_view(expression: Expression) -> ExpressionView
    decreases expression,
{
    match expression {
        Expression::Binary(call) => ExpressionView::Binary(
            call.op,
            Box::new(statement_view(*call.lhs)),
            Box::new(statement_view(*call.rhs)),
        ),
        Expression::Unary(call) => ExpressionView::Unary(
            call.op,
            Box::new(statement_view(*call.subject)),
        ),
        Expression::Let(call) => ExpressionView::Let(call.name@, inputs_view(call.inputs@)),
        Expression::Def(call) => ExpressionView::Def(
            call.name@,
            Box::new(statement_view(*call.subject)),
            inputs_view(call.inputs@),
        ),
        Expression::Literal(value) => ExpressionView::Literal(value@),
        Expression::Local(name) => ExpressionView::Local(name@),
        Expression::FriendlyField(field) => ExpressionView::FriendlyField(
            field.local_name@,
            field.field_name@,
        ),
        Expression::Match(call) => ExpressionView::Match(
            call.local_name@,
            Box::new(statement_view(*call.subject)),
            branches_view(call.branches@),
        ),
        Expression::IfElse(call) => ExpressionView::IfElse(
            Box::new(statement_view(*call.condition)),
            Box::new(statement_view(*call.iff)),
            Box::new(statement_view(*call.els)),
        ),
        Expression::Zelf => ExpressionView::Zelf,
        Expression::Void => ExpressionView::Void,
    }
}

/// An expression with its range as a mathematical value.
pub open spec fn statement_view(statement: ExpressionStatement) -> ExpressionStatementView
    decreases statement,
{
    ExpressionStatementView {
        expression: expression_view(statement.expression),
        token_range: statement.token_range,
    }
}

impl View for ExpressionStatement {
    type V = ExpressionStatementView;

    open spec fn view(&self) -> ExpressionStatementView {
        statement_view(*self)
    }
}

/// Parameters, each a name and a written type, in the order in which they
/// are written.
pub type ParametersView = Seq<(Seq<char>, TypeStatementView)>;

/// Parameters as mathematical values.
pub open spec fn parameters_view(parameters: Seq<(String, TypeStatement)>) -> ParametersView {
    Seq::new(parameters.len(), |i: int| (parameters[i].0@, type_view(parameters[i].1)))
}

pub struct ClassView {
    pub dependencies: ParametersView,
    pub token_range: Span,
}

impl View for ClassStatement {
    type V = ClassView;

    open spec fn view(&self) -> ClassView {
        ClassView {
            dependencies: parameters_view(self.dependencies@),
            token_range: self.token_range,
        }
    }
}

/// Fields, each a name and a raw type, in the order in which they are
/// written.
pub type FieldsView = Seq<(Seq<char>, RawType)>;

/// Fields as mathematical values.
pub open spec fn fields_view(fields: Seq<(String, RawType)>) -> FieldsView {
    Seq::new(fields.len(), |i: int| (fields[i].0@, fields[i].1))
}

pub struct StructView {
    pub fields: FieldsView,
    pub token_range: Span,
}

impl View for StructStatement {
    type V = StructView;

    open spec fn view(&self) -> StructView {
        StructView { fields: fields_view(self.fields@), token_range: self.token_range }
    }
}

pub struct TraitView {
    pub name: Seq<char>,
    pub parameters: ParametersView,
    pub output: TypeStatementView,
    pub token_range: Span,
}

impl View for TraitStatement {
    type V = TraitView;

    open spec fn view(&self) -> TraitView {
        TraitView {
            name: self.name@,
            parameters: parameters_view(self.parameters@),
            output: type_view(self.output),
            token_range: self.token_range,
        }
    }
}

/// Traits as mathematical values.
pub open spec fn traits_view(traits: Seq<TraitStatement>) -> Seq<TraitView> {
    Seq::new(traits.len(), |i: int| traits[i]@)
}

pub struct DefView {
    pub name: Seq<char>,
    pub expr: ExpressionStatementView,
    pub token_range: Span,
}

impl View for DefStatement {
    type V = DefView;

    open spec fn view(&self) -> DefView {
        DefView {
            name: self.name@,
            expr: statement_view(self.expr),
            token_range: self.token_range,
        }
    }
}

/// Defs as mathematical values.
pub open spec fn defs_view(defs: Seq<DefStatement>) -> Seq<DefView> {
    Seq::new(defs.len(), |i: int| defs[i]@)
}

pub struct LetView {
    pub name: Seq<char>,
    pub parameters: ParametersView,
    pub output: TypeStatementView,
    pub expr: ExpressionStatementView,
    pub token_range: Span,
}

impl View for LetStatement {
    type V = LetView;

    open spec fn view(&self) -> LetView {
        LetView {
            name: self.name@,
            parameters: parameters_view(self.parameters@),
            output: type_view(self.output),
            expr: statement_view(self.expr),
            token_range: self.token_range,
        }
    }
}

/// Lets as mathematical values.
pub open spec fn lets_view(lets: Seq<LetStatement>) -> Seq<LetView> {
    Seq::new(lets.len(), |i: int| lets[i]@)
}

pub struct UsingView {
    pub name: Seq<char>,
    pub wildcard: bool,
}

impl View for SingleUsingStatement {
    type V = UsingView;

    open spec fn view(&self) -> UsingView {
        UsingView { name: self.name@, wildcard: self.wildcard }
    }
}

/// Imports as mathematical values.
pub open spec fn usings_view(lines: Seq<SingleUsingStatement>) -> Seq<UsingView> {
    Seq::new(lines.len(), |i: int| lines[i]@)
}

pub struct ModuleView {
    pub name: Seq<char>,
    pub class: Option<ClassView>,
    pub strukt: Option<StructView>,
    pub traits: Seq<TraitView>,
    pub defs: Seq<DefView>,
    pub lets: Seq<LetView>,
    pub using: Seq<UsingView>,
    pub token_range: Span,
}

impl View for ModuleStatement {
    type V = ModuleView;

    open spec fn view(&self) -> ModuleView {
        ModuleView {
            name: self.name@,
            class: match self.class {
                Some(class) => Some(class@),
                None => None,
            },
            strukt: match self.strukt {
                Some(strukt) => Some(strukt@),
                None => None,
            },
            traits: traits_view(self.traits@),
            defs: defs_view(self.defs@),
            lets: lets_view(self.lets@),
            using: usings_view(self.using@),
            token_range: self.token_range,
        }
    }
}

/// Modules as mathematical values.
pub open spec fn modules_view(mods: Seq<ModuleStatement>) -> Seq<ModuleView> {
    Seq::new(mods.len(), |i: int| mods[i]@)
}

pub struct ProgramView {
    pub mods: Seq<ModuleView>,
    pub lets: Seq<LetView>,
}

impl View for AbstractSyntaxTree {
    type V = ProgramView;

    open spec fn view(&self) -> ProgramView {
        ProgramView { mods: modules_view(self.mods@), lets: lets_view(self.lets@) }
    }
}

impl View for crate::ast::expr::let_call::LetCall {
    type V = (Seq<char>, InputsView);

    open spec fn view(&self) -> (Seq<char>, InputsView) {
        (self.name@, inputs_view(self.inputs@))
    }
}

impl View for crate::ast::expr::match_call::MatchCall {
    type V = ExpressionView;

    open spec fn view(&self) -> ExpressionView {
        ExpressionView::Match(
            self.local_name@,
            Box::new(statement_view(*self.subject)),
            branches_view(self.branches@),
        )
    }
}

impl View for crate::ast::expr::if_else_call::IfElseCall {
    type V = ExpressionView;

    open spec fn view(&self) -> ExpressionView {
        ExpressionView::IfElse(
            Box::new(statement_view(*self.condition)),
            Box::new(statement_view(*self.iff)),
            Box::new(statement_view(*self.els)),
        )
    }
}

impl View for crate::ast::trait_statement::TraitsStatement {
    type V = Seq<TraitView>;

    open spec fn view(&self) -> Seq<TraitView> {
        traits_view(self.traits@)
    }
}

impl View for crate::ast::def_statement::DefsStatement {
    type V = Seq<DefView>;

    open spec fn view(&self) -> Seq<DefView> {
        defs_view(self.defs@)
    }
}

impl View for crate::ast::let_statement::LetsStatement {
    type V = Seq<LetView>;

    open spec fn view(&self) -> Seq<LetView> {
        lets_view(self.lets@)
    }
}

impl View for crate::ast::using_statement::UsingStatement {
    type V = Seq<UsingView>;

    open spec fn view(&self) -> Seq<UsingView> {
        usings_view(self.lines@)
    }
}

/// The range from `start` to `end`.
pub open spec fn span(start: int, end: int) -> Span {
    Span { start: start as usize, end: end as usize }
}

} // verus!
