//! Structs: values made of raw fields.

use crate::ast::type_statement::RawType;
use crate::ast::module_statement::ModuleStatement;
use crate::ast::struct_statement::StructStatement;
use crate::error::CResult;
use crate::ast::view::FieldsView;
use crate::error::ErrorView;
use crate::sem::class::all_defaults;
use crate::sem::class::analyse_definitions;
use crate::sem::class::definitions_view;
use crate::sem::class::module_definitions;
use crate::sem::class::module_type;
use crate::sem::evaluation::EvaluationView;
use crate::sem::semantic_analyser::locals_view;
use crate::sem::semantic_analyser::LocalsView;
use crate::sem::semantic_analyser::Signatures;
use crate::sem::class::definitions_within;
use crate::sem::lett::Let;
use crate::sem::semantic_analyser::SemanticContext;
use crate::sem::trayt::interface_type;
use crate::sem::evaluation::Evaluation;
use crate::sem::trayt::trait_types;
use crate::sem::typ::combined;
use crate::sem::typ::Type;
use vstd::prelude::*;

verus! {

/// A struct has a set of fields which are of raw types, and a set of trait definitions.
#[derive(Debug)]
pub struct Struct {
    pub fields: Vec<(String, RawType)>,
    /// The definitions that the module gives, each with its trait.
    pub definitions: Vec<(usize, Evaluation)>,
    /// The traits that the struct has by their default definition.
    pub defaults: Vec<usize>,
    /// The place of the struct among the structs of its context.
    pub id: usize,
    /// The type of the values of the struct: the interface of its module.
    pub interface: Type,
}

/// The fields as inputs: each name with the raw type as a type.
pub open spec fn field_inputs(fields: Seq<(String, RawType)>, out: Seq<(String, Type)>) -> bool {
    &&& out.len() == fields.len()
    &&& forall|i: int|
        0 <= i < out.len() ==> (#[trigger] out[i]).0 == fields[i].0 && out[i].1 == Type::Raw(
            fields[i].1,
        )
}

/// The fields as inputs.
pub fn inputs_of_fields(fields: &Vec<(String, RawType)>) -> (r: Vec<(String, Type)>)
    ensures
        field_inputs(fields@, r@),
        locals_view(r@) == raw_inputs(crate::ast::view::fields_view(fields@)),
{
    let mut out: Vec<(String, Type)> = Vec::new();
    let mut i: usize = 0;
    while i < fields.len()
        invariant
            i <= fields.len(),
            field_inputs(fields@.subrange(0, i as int), out@),
        decreases fields.len() - i,
    {
        out.push((fields[i].0.clone(), Type::Raw(fields[i].1)));
        i += 1;
    }
    assert(fields@.subrange(0, i as int) == fields@);
    assert(locals_view(out@) =~= raw_inputs(crate::ast::view::fields_view(fields@)));
    out
}

/// A copy of the fields.
pub fn copy_fields(fields: &Vec<(String, RawType)>) -> (r: Vec<(String, RawType)>)
    ensures
        r@ == fields@,
{
    let mut out: Vec<(String, RawType)> = Vec::new();
    let mut i: usize = 0;
    while i < fields.len()
        invariant
            i <= fields.len(),
            out@ == fields@.subrange(0, i as int),
        decreases fields.len() - i,
    {
        out.push((fields[i].0.clone(), fields[i].1));
        i += 1;
    }
    assert(fields@.subrange(0, i as int) == fields@);
    out
}

/// The fields as inputs, as mathematical values.
pub open spec fn raw_inputs(fields: FieldsView) -> LocalsView {
    Seq::new(fields.len(), |i: int| (fields[i].0, Type::Raw(fields[i].1)))
}

/// A struct as a mathematical value.
pub struct StructView {
    pub fields: FieldsView,
    pub definitions: Seq<(usize, EvaluationView)>,
    pub defaults: Seq<usize>,
    pub id: usize,
    pub interface: Type,
}

impl View for Struct {
    type V = StructView;

    open spec fn view(&self) -> StructView {
        StructView {
            fields: crate::ast::view::fields_view(self.fields@),
            definitions: definitions_view(self.definitions@),
            defaults: self.defaults@,
            id: self.id,
            interface: self.interface,
        }
    }
}

/// The struct that a module with a struct stands for: the fields, the
/// definitions that the module gives, the traits that the struct gets by
/// default, and the interface of the module as its type.
pub open spec fn analysed_struct(module: ModuleStatement, context: Signatures, id: usize)
    -> Result<StructView, ErrorView> {
    let fields = crate::ast::view::fields_view(module.strukt->0.fields@);
    match module_definitions(module, context, raw_inputs(fields), Some(fields)) {
        Err(error) => Err(error),
        Ok((definitions, defaults)) => Ok(
            StructView {
                fields,
                definitions,
                defaults,
                id,
                interface: module_type(context, context.interfaces.resolved(module.name@, ""@)->0),
            },
        ),
    }
}

impl Struct {
    /// The inputs of the constructor: the fields with their raw types.
    pub fn constructor_inputs(statement: &StructStatement) -> (r: Vec<(String, Type)>)
        ensures
            field_inputs(statement.fields@, r@),
            locals_view(r@) == raw_inputs(crate::ast::view::fields_view(statement.fields@)),
    {
        inputs_of_fields(&statement.fields)
    }

    /// Analyses the struct of a module: its fields, the definitions that
    /// the module gives and the traits that it gets by default. `id` is the
    /// place that the struct takes among the structs of the context.
    pub fn analyse(module_statement: &ModuleStatement, context: &SemanticContext, id: usize) -> (r:
        CResult<Self>)
        requires
            module_statement.strukt is Some,
        ensures
            r matches Ok(strukt) ==> {
                &&& strukt.id == id
                &&& context.interfaces.resolved(module_statement.name@, ""@) matches Some(iface)
                    && strukt.interface == combined(
                    trait_types(context.interfaces.items@[iface].1@),
                )
                &&& strukt.fields@ == module_statement.strukt->0.fields@
                &&& strukt.definitions@.len() == module_statement.defs@.len()
                &&& definitions_within(strukt.definitions@, context.bounds())
                &&& all_defaults(strukt.defaults@, *context, strukt.definitions@)
            },
            match analysed_struct(*module_statement, context.signatures(), id) {
                Ok(strukt) => r matches Ok(found) && found@ == strukt,
                Err(error) => r matches Err(e) && e@ == error,
            },
    {
        match &module_statement.strukt {
            Some(struct_statement) => {
                let constructor_inputs = Self::constructor_inputs(struct_statement);

                let (definitions, defaults) = analyse_definitions(
                    module_statement,
                    context,
                    &constructor_inputs,
                    Some(&struct_statement.fields),
                )?;

                let interface = context.interfaces.resolve(module_statement.name.as_str(), "")?;
                let strukt = Struct {
                    fields: copy_fields(&struct_statement.fields),
                    definitions,
                    defaults,
                    id,
                    interface: interface_type(context.interfaces.get(interface)),
                };

                Ok(strukt)
            },
            None => vstd::pervasive::unreached(),
        }
    }

    /// The let that makes a value of the struct from its fields; its output
    /// type is that of the given interface.
    pub fn constructor(&self) -> (r: Let)
        ensures
            field_inputs(self.fields@, r.inputs@),
            locals_view(r.inputs@) == raw_inputs(crate::ast::view::fields_view(self.fields@)),
            r.output == self.interface,
            r.evaluation == Evaluation::StructConstructor(self.id),
    {
        Let {
            inputs: inputs_of_fields(&self.fields),
            output: self.interface.clone(),
            evaluation: Evaluation::StructConstructor(self.id),
        }
    }

    /// The type of the values of the struct: the interface of its module.
    pub fn interface(&self) -> (r: Type)
        ensures
            r == self.interface,
    {
        self.interface.clone()
    }
}

} // verus!
