//! Types: trait references combined by `&` and `|`, raw types, `Self` and
//! `?`.

use crate::ast::type_statement::RawType;
use crate::ast::type_statement::TypeStatement;
use crate::ast::type_statement::TypeStatementType;
use crate::error::error_at;
use crate::error::CResult;
use crate::error::CompilationError;
use crate::error::ErrorContext;
use crate::error::ErrorMessage;
use crate::error::ErrorView;
use crate::error::MessageView;
use crate::error::Span;
use crate::sem::semantic_analyser::SemanticContext;
use crate::sem::semantic_analyser::Signatures;
use crate::sem::semantic_analyser::SemanticScope;
use crate::sem::table::Table;
use crate::sem::table::TableView;
use crate::sem::trayt::interface_type;
use crate::sem::trayt::trait_types;
use crate::sem::trayt::Trait;
use crate::sem::trayt::TraitView;
use crate::text::insert_text;
use crate::text::sorted_texts;
use crate::text::text_set;
use vstd::prelude::*;
use vstd::string::StringExecFns;

verus! {

/// A type. A trait is named by its place in the table of traits.
#[derive(PartialEq, Eq, Debug)]
pub enum Type {
    Trait(usize),
    Raw(RawType),
    And(Box<Type>, Box<Type>),
    Or(Box<Type>, Box<Type>),
    // Self, the class or struct the trait is defined on
    Zelf,
    // No traits, no interaction possible
    Void,
}

impl Clone for Type {
    fn clone(&self) -> (r: Self)
        ensures
            r == *self,
        decreases self,
    {
        match self {
            Type::Trait(id) => Type::Trait(*id),
            Type::Raw(raw) => Type::Raw(*raw),
            Type::And(a, b) => Type::And(Box::new((&**a).clone()), Box::new((&**b).clone())),
            Type::Or(a, b) => Type::Or(Box::new((&**a).clone()), Box::new((&**b).clone())),
            Type::Zelf => Type::Zelf,
            Type::Void => Type::Void,
        }
    }
}

impl Type {
    /// A trait, a raw type, `Self` or `?`: a type that is not combined from
    /// others.
    pub open spec fn is_atomic(self) -> bool {
        !(self is And || self is Or)
    }

    /// No `|` occurs in the type.
    pub open spec fn is_or_free(self) -> bool
        decreases self,
    {
        match self {
            Type::And(a, b) => a.is_or_free() && b.is_or_free(),
            Type::Or(_, _) => false,
            _ => true,
        }
    }

    /// Whether two types are the same.
    pub fn same(&self, other: &Type) -> (r: bool)
        ensures
            r == (*self == *other),
        decreases self,
    {
        match (self, other) {
            (Type::Trait(a), Type::Trait(b)) => *a == *b,
            (Type::Raw(RawType::Int), Type::Raw(RawType::Int)) => true,
            (Type::Raw(RawType::String), Type::Raw(RawType::String)) => true,
            (Type::Raw(RawType::Bool), Type::Raw(RawType::Bool)) => true,
            (Type::And(a, b), Type::And(c, d)) => a.same(c) && b.same(d),
            (Type::Or(a, b), Type::Or(c, d)) => a.same(c) && b.same(d),
            (Type::Zelf, Type::Zelf) => true,
            (Type::Void, Type::Void) => true,
            _ => false,
        }
    }
}

/// The types combined by `&`, from left to right; `?` for none.
pub open spec fn combined(types: Seq<Type>) -> Type
    decreases types.len(),
{
    if types.len() == 0 {
        Type::Void
    } else if types.len() == 1 {
        types[0]
    } else {
        Type::And(Box::new(combined(types.drop_last())), Box::new(types.last()))
    }
}

pub fn combine_types(types: Vec<Type>) -> (r: Type)
    ensures
        r == combined(types@),
{
    let mut combined_so_far: Option<Type> = None;
    let mut i: usize = 0;
    while i < types.len()
        invariant
            i <= types.len(),
            i == 0 ==> combined_so_far is None,
            i > 0 ==> combined_so_far == Some(combined(types@.subrange(0, i as int))),
        decreases types.len() - i,
    {
        let typ = types[i].clone();
        assert(types@.subrange(0, i + 1).drop_last() == types@.subrange(0, i as int));
        combined_so_far =
        match combined_so_far {
            None => Some(typ),
            Some(prev_type) => Some(Type::And(Box::new(prev_type), Box::new(typ))),
        };
        i += 1;
    }
    assert(types@.subrange(0, i as int) == types@);
    match combined_so_far {
        Some(typ) => typ,
        None => Type::Void,
    }
}

/// The types united by `|`, from left to right; `?` for none.
pub open spec fn united(types: Seq<Type>) -> Type
    decreases types.len(),
{
    if types.len() == 0 {
        Type::Void
    } else if types.len() == 1 {
        types[0]
    } else {
        Type::Or(Box::new(united(types.drop_last())), Box::new(types.last()))
    }
}

/// Unites the types by `|`.
pub fn unite_types(types: Vec<Type>) -> (r: Type)
    ensures
        r == united(types@),
{
    let mut united_so_far: Option<Type> = None;
    let mut i: usize = 0;
    while i < types.len()
        invariant
            i <= types.len(),
            i == 0 ==> united_so_far is None,
            i > 0 ==> united_so_far == Some(united(types@.subrange(0, i as int))),
        decreases types.len() - i,
    {
        let typ = types[i].clone();
        assert(types@.subrange(0, i + 1).drop_last() == types@.subrange(0, i as int));
        united_so_far =
        match united_so_far {
            None => Some(typ),
            Some(prev_type) => Some(Type::Or(Box::new(prev_type), Box::new(typ))),
        };
        i += 1;
    }
    assert(types@.subrange(0, i as int) == types@);
    match united_so_far {
        Some(typ) => typ,
        None => Type::Void,
    }
}

/// Why a written type stands for no type: the name, where it stands, and
/// whether it was written behind `@`.
pub struct TypeFault {
    pub name: Seq<char>,
    pub range: Span,
    pub at_name: bool,
}

impl TypeFault {
    /// The error that reports this fault: a name behind `@` is no trait,
    /// any other name is neither a module nor a trait.
    pub open spec fn error(self) -> ErrorView {
        ErrorView {
            message: if self.at_name {
                MessageView::NoTrait(self.name)
            } else {
                MessageView::NoModuleOrTrait(self.name)
            },
            context: Some(ErrorContext::TokenRange(self.range)),
        }
    }

    /// Whether `e` reports this fault.
    pub open spec fn reported_by(self, e: CompilationError) -> bool {
        e@ == self.error()
    }
}

/// The names of the declared traits, by their place in the table.
pub open spec fn names_of(traits: TableView<TraitView>) -> Seq<Seq<char>> {
    Seq::new(traits.items.len(), |i: int| traits.items[i].full_name)
}

/// The names of the traits of a table, by their place in the table.
pub open spec fn trait_names(traits: Table<Trait>) -> Seq<Seq<char>> {
    names_of(traits@)
}

/// The type that a written type stands for in the scope `path`: a name is
/// the interface of a module if it resolves to one, else the trait that it
/// resolves to; a name behind `@` is a trait.
pub open spec fn analysed_type(statement: TypeStatement, context: Signatures, path: Seq<char>)
    -> Result<Type, TypeFault>
    decreases statement,
{
    match statement.typ {
        TypeStatementType::Name(name) => match context.interfaces.resolved(name@, path) {
            Some(id) => Ok(combined(trait_types(context.interfaces.items[id]))),
            None => match context.traits.resolved(name@, path) {
                Some(id) => Ok(Type::Trait(id as usize)),
                None => Err(
                    TypeFault { name: name@, range: statement.token_range, at_name: false },
                ),
            },
        },
        TypeStatementType::AtName(name) => match context.traits.resolved(name@, path) {
            Some(id) => Ok(Type::Trait(id as usize)),
            None => Err(TypeFault { name: name@, range: statement.token_range, at_name: true }),
        },
        TypeStatementType::And(a, b) => match analysed_type(*a, context, path) {
            Ok(left) => match analysed_type(*b, context, path) {
                Ok(right) => Ok(Type::And(Box::new(left), Box::new(right))),
                Err(fault) => Err(fault),
            },
            Err(fault) => Err(fault),
        },
        TypeStatementType::Or(a, b) => match analysed_type(*a, context, path) {
            Ok(left) => match analysed_type(*b, context, path) {
                Ok(right) => Ok(Type::Or(Box::new(left), Box::new(right))),
                Err(fault) => Err(fault),
            },
            Err(fault) => Err(fault),
        },
        TypeStatementType::Zelf => Ok(Type::Zelf),
        TypeStatementType::Void => Ok(Type::Void),
    }
}

/// The names of the traits that every raw value of a kind has.
pub open spec fn raw_callable(raw: RawType) -> Set<Seq<char>> {
    match raw {
        RawType::Int => set![
            "Op\\Add"@,
            "Op\\Sub"@,
            "Op\\Mul"@,
            "Op\\Div"@,
            "Op\\Neg"@,
            "Op\\Eq"@,
            "Op\\Lt"@,
            "Op\\Gt"@,
            "String"@,
        ],
        RawType::String => set!["Op\\Add"@, "Op\\Eq"@, "String"@],
        RawType::Bool => set!["Op\\Eq"@, "Op\\And"@, "Op\\Or"@],
    }
}

/// The names of the traits that can be called on a value of the type: the
/// traits that the type names, on either side of `&` and `|`; the fixed set
/// of a raw type; for `Self`, the traits of the enclosing type `zelf`, where
/// `with_self` says that it is to be looked at.
pub open spec fn callable(typ: Type, names: Seq<Seq<char>>, zelf: Option<Type>, with_self: bool)
    -> Set<Seq<char>>
    decreases
            (if with_self {
                1nat
            } else {
                0nat
            }),
            typ,
{
    match typ {
        Type::Void => Set::empty(),
        Type::Trait(id) => if id < names.len() {
            set![names[id as int]]
        } else {
            Set::empty()
        },
        Type::And(a, b) | Type::Or(a, b) => callable(*a, names, zelf, with_self).union(
            callable(*b, names, zelf, with_self),
        ),
        Type::Zelf => match zelf {
            Some(enclosing) => if with_self {
                callable(enclosing, names, zelf, false)
            } else {
                Set::empty()
            },
            None => Set::empty(),
        },
        Type::Raw(raw) => raw_callable(raw),
    }
}

/// The names of the traits that can be called on a value of the type, in
/// the order of dictionaries.
pub open spec fn callable_list(typ: Type, context: Signatures, zelf: Option<Type>) -> Seq<
    Seq<char>,
> {
    crate::text::listing(callable(typ, names_of(context.traits), zelf, true))
}

/// The type with `self_type` in the place of every `Self`.
pub open spec fn with_self(typ: Type, self_type: Type) -> Type
    decreases typ,
{
    match typ {
        Type::Zelf => self_type,
        Type::Or(a, b) => Type::Or(
            Box::new(with_self(*a, self_type)),
            Box::new(with_self(*b, self_type)),
        ),
        Type::And(a, b) => Type::And(
            Box::new(with_self(*a, self_type)),
            Box::new(with_self(*b, self_type)),
        ),
        _ => typ,
    }
}

/// Replace self types with specific type.
pub fn resolve_self_types(typ: Type, self_type: &Type) -> (r: Type)
    ensures
        r == with_self(typ, *self_type),
    decreases typ,
{
    match typ {
        Type::Zelf => self_type.clone(),
        Type::Or(a, b) => Type::Or(
            Box::new(resolve_self_types(*a, self_type)),
            Box::new(resolve_self_types(*b, self_type)),
        ),
        Type::And(a, b) => Type::And(
            Box::new(resolve_self_types(*a, self_type)),
            Box::new(resolve_self_types(*b, self_type)),
        ),
        _ => typ,
    }
}

/// How a raw type is written.
pub open spec fn raw_type_text(raw: RawType) -> Seq<char> {
    match raw {
        RawType::Int => "int"@,
        RawType::String => "string"@,
        RawType::Bool => "bool"@,
    }
}

/// How a type is written: traits by their full names, `&` and `|` between
/// the sides of a combined type.
pub open spec fn type_text(typ: Type, names: Seq<Seq<char>>) -> Seq<char>
    decreases typ,
{
    match typ {
        Type::Trait(id) => if id < names.len() {
            names[id as int]
        } else {
            "@"@
        },
        Type::Raw(raw) => raw_type_text(raw),
        Type::And(a, b) => type_text(*a, names) + " & "@ + type_text(*b, names),
        Type::Or(a, b) => type_text(*a, names) + " | "@ + type_text(*b, names),
        Type::Zelf => "Self"@,
        Type::Void => "?"@,
    }
}

impl Type {
    pub fn analyse(statement: &TypeStatement, context: &SemanticContext, path: &str) -> (r:
        CResult<Self>)
        ensures
            match analysed_type(*statement, context.signatures(), path@) {
                Ok(typ) => r == Ok::<Type, CompilationError>(typ),
                Err(fault) => r matches Err(e) && fault.reported_by(e),
            },
        decreases statement,
    {
        let typ = match &statement.typ {
            TypeStatementType::Name(name) => {
                match context.interfaces.resolve(name.as_str(), path) {
                    Ok(id) => interface_type(context.interfaces.get(id)),
                    Err(_) => match context.traits.resolve(name.as_str(), path) {
                        Ok(id) => Type::Trait(id),
                        Err(_) => {
                            return error_at(
                                statement.token_range,
                                ErrorMessage::NoModuleOrTrait(name.clone()),
                            );
                        },
                    },
                }
            },
            TypeStatementType::AtName(name) => {
                match context.traits.resolve(name.as_str(), path) {
                    Ok(id) => Type::Trait(id),
                    Err(_) => {
                        return error_at(statement.token_range, ErrorMessage::NoTrait(name.clone()));
                    },
                }
            },
            TypeStatementType::And(a, b) => Type::And(
                Box::new(Type::analyse(a, context, path)?),
                Box::new(Type::analyse(b, context, path)?),
            ),
            TypeStatementType::Or(a, b) => Type::Or(
                Box::new(Type::analyse(a, context, path)?),
                Box::new(Type::analyse(b, context, path)?),
            ),
            TypeStatementType::Zelf => Type::Zelf,
            TypeStatementType::Void => Type::Void,
        };

        Ok(typ)
    }

    /// Adds to the sorted names those of the traits that can be called on a
    /// value of this type.
    fn collect_callable(&self, scope: &SemanticScope, with_self: bool, out: &mut Vec<String>)
        requires
            sorted_texts(old(out)@),
        ensures
            sorted_texts(final(out)@),
            text_set(final(out)@) == text_set(old(out)@).union(
                callable(*self, trait_names(scope.context.traits), scope.zelf, with_self),
            ),
        decreases
                (if with_self {
                    1nat
                } else {
                    0nat
                }),
                self,
    {
        let ghost names = trait_names(scope.context.traits);
        let ghost start = text_set(out@);
        match self {
            Type::Void => {
                assert(start.union(Set::empty()) =~= start);
            },
            Type::Trait(id) => {
                if *id < scope.context.traits.len() {
                    insert_text(out, scope.context.traits.get(*id).full_name.clone());
                    assert(start.insert(names[*id as int]) =~= start.union(set![names[*id as int]]));
                } else {
                    assert(start.union(Set::empty()) =~= start);
                }
            },
            Type::And(a, b) | Type::Or(a, b) => {
                a.collect_callable(scope, with_self, out);
                b.collect_callable(scope, with_self, out);
                assert(start.union(callable(**a, names, scope.zelf, with_self)).union(
                    callable(**b, names, scope.zelf, with_self),
                ) =~= start.union(
                    callable(**a, names, scope.zelf, with_self).union(
                        callable(**b, names, scope.zelf, with_self),
                    ),
                ));
            },
            Type::Zelf => match &scope.zelf {
                Some(enclosing) => {
                    if with_self {
                        enclosing.collect_callable(scope, false, out);
                    } else {
                        assert(start.union(Set::empty()) =~= start);
                    }
                },
                None => {
                    assert(start.union(Set::empty()) =~= start);
                },
            },
            Type::Raw(RawType::Int) => {
                insert_text(out, String::from_str("Op\\Add"));
                insert_text(out, String::from_str("Op\\Sub"));
                insert_text(out, String::from_str("Op\\Mul"));
                insert_text(out, String::from_str("Op\\Div"));
                insert_text(out, String::from_str("Op\\Neg"));
                insert_text(out, String::from_str("Op\\Eq"));
                insert_text(out, String::from_str("Op\\Lt"));
                insert_text(out, String::from_str("Op\\Gt"));
                insert_text(out, String::from_str("String"));
                assert(text_set(out@) =~= start.union(raw_callable(RawType::Int)));
            },
            Type::Raw(RawType::String) => {
                insert_text(out, String::from_str("Op\\Add"));
                insert_text(out, String::from_str("Op\\Eq"));
                insert_text(out, String::from_str("String"));
                assert(text_set(out@) =~= start.union(raw_callable(RawType::String)));
            },
            Type::Raw(RawType::Bool) => {
                insert_text(out, String::from_str("Op\\Eq"));
                insert_text(out, String::from_str("Op\\And"));
                insert_text(out, String::from_str("Op\\Or"));
                assert(text_set(out@) =~= start.union(raw_callable(RawType::Bool)));
            },
        }
    }

    /// Outputs a list of traits that can be called on an instance of this type.
    pub fn callable_traits(&self, scope: &SemanticScope) -> (r: Vec<String>)
        ensures
            sorted_texts(r@),
            text_set(r@) == callable(*self, trait_names(scope.context.traits), scope.zelf, true),
            crate::text::texts(r@) == callable_list(*self, scope.context.signatures(), scope.zelf),
    {
        let mut out: Vec<String> = Vec::new();
        assert(text_set(out@) =~= Set::<Seq<char>>::empty());
        self.collect_callable(scope, true, &mut out);
        assert(Set::<Seq<char>>::empty().union(
            callable(*self, trait_names(scope.context.traits), scope.zelf, true),
        ) =~= callable(*self, trait_names(scope.context.traits), scope.zelf, true));
        proof {
            crate::text::lemma_listing(out@);
        }
        out
    }

    /// The type as it is written in source.
    pub fn describe(&self, traits: &Table<Trait>) -> (r: String)
        ensures
            r@ == type_text(*self, trait_names(*traits)),
        decreases self,
    {
        match self {
            Type::Trait(id) => {
                if *id < traits.len() {
                    traits.get(*id).full_name.clone()
                } else {
                    String::from_str("@")
                }
            },
            Type::Raw(RawType::Int) => String::from_str("int"),
            Type::Raw(RawType::String) => String::from_str("string"),
            Type::Raw(RawType::Bool) => String::from_str("bool"),
            Type::And(a, b) => {
                let mut text = a.describe(traits);
                text.append(" & ");
                text.append(b.describe(traits).as_str());
                text
            },
            Type::Or(a, b) => {
                let mut text = a.describe(traits);
                text.append(" | ");
                text.append(b.describe(traits).as_str());
                text
            },
            Type::Zelf => String::from_str("Self"),
            Type::Void => String::from_str("?"),
        }
    }
}

/// The types that written parameters stand for, in order; the first
/// parameter whose type stands for none gives the fault.
pub open spec fn analysed_parameters(
    parameters: Seq<(String, TypeStatement)>,
    context: Signatures,
    path: Seq<char>,
) -> Result<Seq<Type>, TypeFault>
    decreases parameters.len(),
{
    if parameters.len() == 0 {
        Ok(Seq::empty())
    } else {
        match analysed_parameters(parameters.drop_last(), context, path) {
            Err(fault) => Err(fault),
            Ok(types) => match analysed_type(parameters.last().1, context, path) {
                Err(fault) => Err(fault),
                Ok(typ) => Ok(types.push(typ)),
            },
        }
    }
}

/// A fault among the first parameters is the fault of all parameters.
pub proof fn lemma_parameter_fault(
    parameters: Seq<(String, TypeStatement)>,
    context: Signatures,
    path: Seq<char>,
    upto: int,
)
    requires
        0 <= upto <= parameters.len(),
        analysed_parameters(parameters.subrange(0, upto), context, path) is Err,
    ensures
        analysed_parameters(parameters, context, path) == analysed_parameters(
            parameters.subrange(0, upto),
            context,
            path,
        ),
    decreases parameters.len() - upto,
{
    if upto < parameters.len() {
        assert(parameters.subrange(0, upto + 1).drop_last() == parameters.subrange(0, upto));
        lemma_parameter_fault(parameters, context, path, upto + 1);
    } else {
        assert(parameters.subrange(0, upto) == parameters);
    }
}

/// The names of the parameters with the given types.
pub open spec fn named_types(parameters: Seq<(String, TypeStatement)>, types: Seq<Type>) -> Seq<
    (Seq<char>, Type),
> {
    Seq::new(parameters.len(), |i: int| (parameters[i].0@, types[i]))
}

/// The signature that written parameters stand for: the names with the
/// types.
pub open spec fn analysed_signature(
    parameters: Seq<(String, TypeStatement)>,
    context: Signatures,
    path: Seq<char>,
) -> Result<Seq<(Seq<char>, Type)>, ErrorView> {
    match analysed_parameters(parameters, context, path) {
        Err(fault) => Err(fault.error()),
        Ok(types) => Ok(named_types(parameters, types)),
    }
}

/// The names of the parameters with the given types.
pub open spec fn typed_parameters(
    parameters: Seq<(String, TypeStatement)>,
    types: Seq<Type>,
    out: Seq<(String, Type)>,
) -> bool {
    &&& out.len() == parameters.len()
    &&& types.len() == parameters.len()
    &&& forall|i: int|
        0 <= i < out.len() ==> (#[trigger] out[i]).0 == parameters[i].0 && out[i].1 == types[i]
}

/// Resolves the types of written parameters.
pub fn analyse_parameters(
    parameters: &Vec<(String, TypeStatement)>,
    context: &SemanticContext,
    path: &str,
) -> (r: CResult<Vec<(String, Type)>>)
    ensures
        match analysed_parameters(parameters@, context.signatures(), path@) {
            Ok(types) => r matches Ok(out) && typed_parameters(parameters@, types, out@),
            Err(fault) => r matches Err(e) && fault.reported_by(e),
        },
        match analysed_signature(parameters@, context.signatures(), path@) {
            Ok(inputs) => r matches Ok(out) && crate::sem::semantic_analyser::locals_view(out@)
                == inputs,
            Err(error) => r matches Err(e) && e@ == error,
        },
{
    let mut out: Vec<(String, Type)> = Vec::new();
    let ghost mut types: Seq<Type> = Seq::empty();
    let mut i: usize = 0;
    assert(parameters@.subrange(0, 0) == Seq::<(String, TypeStatement)>::empty());
    while i < parameters.len()
        invariant
            i <= parameters.len(),
            analysed_parameters(parameters@.subrange(0, i as int), context.signatures(), path@) == Ok::<
                Seq<Type>,
                TypeFault,
            >(types),
            typed_parameters(parameters@.subrange(0, i as int), types, out@),
        decreases parameters.len() - i,
    {
        proof {
            assert(parameters@.subrange(0, i + 1).drop_last() == parameters@.subrange(
                0,
                i as int,
            ));
        }
        match Type::analyse(&parameters[i].1, context, path) {
            Ok(typ) => {
                proof {
                    types = types.push(typ);
                }
                out.push((parameters[i].0.clone(), typ));
            },
            Err(e) => {
                proof {
                    lemma_parameter_fault(parameters@, context.signatures(), path@, i + 1);
                }
                return Err(e);
            },
        }
        i += 1;
    }
    assert(parameters@.subrange(0, i as int) == parameters@);
    assert(crate::sem::semantic_analyser::locals_view(out@) =~= named_types(parameters@, types));
    Ok(out)
}

} // verus!
