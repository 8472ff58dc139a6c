//! The operations that raw values have built in.

use crate::ast::raw_value::RawValue;
use crate::ast::raw_value::RawView;
use crate::ast::type_statement::RawType;
use crate::runtime::instance::lemma_members_view;
use crate::runtime::instance::members_view;
use crate::runtime::instance::Instance;
use crate::runtime::instance::InstanceView;
use crate::runtime::instance::RuntimeError;
use crate::sem::evaluation::raw_output;
use crate::text::byte_len;
use crate::text::concat_text;
use crate::text::int_text;
use crate::text::int_text_of;
use crate::text::same_text;
use vstd::prelude::*;
use vstd::string::StringExecFns;

verus! {

/// The kind of a raw value.
pub open spec fn raw_kind(value: RawView) -> RawType {
    match value {
        RawView::Int(_) => RawType::Int,
        RawView::Text(_) => RawType::String,
        RawView::Bool(_) => RawType::Bool,
    }
}

/// The value of the last member of the given name.
pub open spec fn member_named(members: Seq<(Seq<char>, InstanceView)>, name: Seq<char>) -> Option<
    InstanceView,
>
    decreases members.len(),
{
    if members.len() == 0 {
        None
    } else if members.last().0 == name {
        Some(members.last().1)
    } else {
        member_named(members.drop_last(), name)
    }
}

/// Looks a value up by its name; where a name occurs twice, the later
/// entry counts.
pub fn find_member<'a>(members: &'a Vec<(String, Instance)>, name: &str) -> (r: Option<
    &'a Instance,
>)
    ensures
        match r {
            Some(value) => member_named(members_view(members@), name@) == Some(value@),
            None => member_named(members_view(members@), name@) is None,
        },
{
    let ghost views = members_view(members@);
    proof {
        lemma_members_view(members@);
    }
    let mut i: usize = members.len();
    assert(views.subrange(0, i as int) == views);
    while i > 0
        invariant
            i <= members.len(),
            views == members_view(members@),
            views.len() == members@.len(),
            forall|k: int|
                0 <= k < members@.len() ==> (#[trigger] views[k]) == (
                    members@[k].0@,
                    members@[k].1@,
                ),
            member_named(views, name@) == member_named(views.subrange(0, i as int), name@),
        decreases i,
    {
        i -= 1;
        assert(views.subrange(0, i + 1).drop_last() == views.subrange(0, i as int));
        assert(views.subrange(0, i + 1).last() == views[i as int]);
        if same_text(members[i].0.as_str(), name) {
            return Some(&members[i].1);
        }
    }
    None
}

/// The right-hand side of a binary raw operation: the raw value of the
/// input `rhs`.
pub open spec fn rhs_of(inputs: Seq<(Seq<char>, InstanceView)>) -> Result<RawView, RuntimeError> {
    match member_named(inputs, "rhs"@) {
        Some(InstanceView::Raw(value)) => Ok(value),
        Some(_) => Err(RuntimeError::RawTypeMismatch),
        None => Err(RuntimeError::MissingInput),
    }
}

/// The right-hand side of a binary raw operation.
fn rhs(inputs: &Vec<(String, Instance)>) -> (r: Result<&RawValue, RuntimeError>)
    ensures
        match rhs_of(members_view(inputs@)) {
            Ok(value) => r matches Ok(found) && found@ == value,
            Err(e) => r == Err::<&RawValue, RuntimeError>(e),
        },
{
    match find_member(inputs, "rhs") {
        Some(Instance::Raw(value)) => Ok(value),
        Some(_) => Err(RuntimeError::RawTypeMismatch),
        None => Err(RuntimeError::MissingInput),
    }
}

/// The number, where it fits, else the overflow.
pub open spec fn int_or_overflow(n: Option<i64>) -> Result<RawView, RuntimeError> {
    match n {
        Some(n) => Ok(RawView::Int(n)),
        None => Err(RuntimeError::Overflow),
    }
}

/// The result of a binary raw operation on two raw values. Arithmetic is on
/// integers, and `+` also joins strings; a result that does not fit is an
/// overflow. Division rounds towards zero. Strings are compared for
/// equality by their characters and for order by their length in bytes.
pub open spec fn binary_result(value: RawView, trayt: Seq<char>, rhs: RawView) -> Result<
    RawView,
    RuntimeError,
> {
    if trayt == "Op\\Add"@ {
        match (value, rhs) {
            (RawView::Int(a), RawView::Int(b)) => int_or_overflow(a.checked_add(b)),
            (RawView::Text(a), RawView::Text(b)) => Ok(RawView::Text(a + b)),
            _ => Err(RuntimeError::RawTypeMismatch),
        }
    } else if trayt == "Op\\Sub"@ {
        match (value, rhs) {
            (RawView::Int(a), RawView::Int(b)) => int_or_overflow(a.checked_sub(b)),
            _ => Err(RuntimeError::RawTypeMismatch),
        }
    } else if trayt == "Op\\Mul"@ {
        match (value, rhs) {
            (RawView::Int(a), RawView::Int(b)) => int_or_overflow(a.checked_mul(b)),
            _ => Err(RuntimeError::RawTypeMismatch),
        }
    } else if trayt == "Op\\Div"@ {
        match (value, rhs) {
            (RawView::Int(a), RawView::Int(b)) => if b == 0 {
                Err(RuntimeError::DivisionByZero)
            } else {
                int_or_overflow(a.checked_div(b))
            },
            _ => Err(RuntimeError::RawTypeMismatch),
        }
    } else if trayt == "Op\\Eq"@ {
        match (value, rhs) {
            (RawView::Int(a), RawView::Int(b)) => Ok(RawView::Bool(a == b)),
            (RawView::Text(a), RawView::Text(b)) => Ok(RawView::Bool(a == b)),
            (RawView::Bool(a), RawView::Bool(b)) => Ok(RawView::Bool(a == b)),
            _ => Err(RuntimeError::RawTypeMismatch),
        }
    } else if trayt == "Op\\Lt"@ {
        match (value, rhs) {
            (RawView::Int(a), RawView::Int(b)) => Ok(RawView::Bool(a < b)),
            (RawView::Text(a), RawView::Text(b)) => Ok(RawView::Bool(byte_len(a) < byte_len(b))),
            _ => Err(RuntimeError::RawTypeMismatch),
        }
    } else if trayt == "Op\\Gt"@ {
        match (value, rhs) {
            (RawView::Int(a), RawView::Int(b)) => Ok(RawView::Bool(a > b)),
            (RawView::Text(a), RawView::Text(b)) => Ok(RawView::Bool(byte_len(a) > byte_len(b))),
            _ => Err(RuntimeError::RawTypeMismatch),
        }
    } else if trayt == "Op\\And"@ {
        match (value, rhs) {
            (RawView::Bool(a), RawView::Bool(b)) => Ok(RawView::Bool(a && b)),
            _ => Err(RuntimeError::RawTypeMismatch),
        }
    } else if trayt == "Op\\Or"@ {
        match (value, rhs) {
            (RawView::Bool(a), RawView::Bool(b)) => Ok(RawView::Bool(a || b)),
            _ => Err(RuntimeError::RawTypeMismatch),
        }
    } else {
        Err(RuntimeError::UndefinedTrait)
    }
}

/// A raw value as a string: a number in decimal digits, a string as it is,
/// a boolean as `true` or `false`.
pub open spec fn raw_text(value: RawView) -> Seq<char> {
    match value {
        RawView::Int(i) => int_text(i as int),
        RawView::Text(s) => s,
        RawView::Bool(true) => "true"@,
        RawView::Bool(false) => "false"@,
    }
}

/// Whether the trait of the name is a raw operation with a right-hand
/// side.
pub open spec fn is_binary(trayt: Seq<char>) -> bool {
    trayt == "Op\\Add"@ || trayt == "Op\\Sub"@ || trayt == "Op\\Mul"@ || trayt == "Op\\Div"@
        || trayt == "Op\\Eq"@ || trayt == "Op\\Lt"@ || trayt == "Op\\Gt"@ || trayt == "Op\\And"@
        || trayt == "Op\\Or"@
}

/// The result of the raw operation of the given name on a raw value with
/// the given inputs. The binary operations take the raw value of the input
/// `rhs`; `Op\Neg` negates an integer; `String` gives the value as a string.
/// No other trait is defined on raw values.
pub open spec fn raw_result(
    value: RawView,
    trayt: Seq<char>,
    inputs: Seq<(Seq<char>, InstanceView)>,
) -> Result<RawView, RuntimeError> {
    if is_binary(trayt) {
        match rhs_of(inputs) {
            Ok(rhs) => binary_result(value, trayt, rhs),
            Err(e) => Err(e),
        }
    } else if trayt == "Op\\Neg"@ {
        match value {
            RawView::Int(a) => int_or_overflow(0i64.checked_sub(a)),
            _ => Err(RuntimeError::RawTypeMismatch),
        }
    } else if trayt == "String"@ {
        Ok(RawView::Text(raw_text(value)))
    } else {
        Err(RuntimeError::UndefinedTrait)
    }
}

/// The integer in a raw value.
fn int_of(value: &RawValue) -> (r: Result<i64, RuntimeError>)
    ensures
        match value@ {
            RawView::Int(i) => r == Ok::<i64, RuntimeError>(i),
            _ => r == Err::<i64, RuntimeError>(RuntimeError::RawTypeMismatch),
        },
{
    match value {
        RawValue::Int(value) => Ok(*value),
        _ => Err(RuntimeError::RawTypeMismatch),
    }
}

/// The string in a raw value.
fn text_of(value: &RawValue) -> (r: Result<&str, RuntimeError>)
    ensures
        match value@ {
            RawView::Text(s) => r matches Ok(found) && found@ == s,
            _ => r == Err::<&str, RuntimeError>(RuntimeError::RawTypeMismatch),
        },
{
    match value {
        RawValue::String(value) => Ok(value.as_str()),
        _ => Err(RuntimeError::RawTypeMismatch),
    }
}

/// The boolean in a raw value.
fn bool_of(value: &RawValue) -> (r: Result<bool, RuntimeError>)
    ensures
        match value@ {
            RawView::Bool(b) => r == Ok::<bool, RuntimeError>(b),
            _ => r == Err::<bool, RuntimeError>(RuntimeError::RawTypeMismatch),
        },
{
    match value {
        RawValue::Bool(value) => Ok(*value),
        _ => Err(RuntimeError::RawTypeMismatch),
    }
}

/// The number as a raw value, where it fits.
fn fitting(n: Option<i64>) -> (r: Result<RawValue, RuntimeError>)
    ensures
        match int_or_overflow(n) {
            Ok(value) => r matches Ok(found) && found@ == value,
            Err(e) => r matches Err(found) && found == e,
        },
{
    match n {
        Some(n) => Ok(RawValue::Int(n)),
        None => Err(RuntimeError::Overflow),
    }
}

fn add(value: &RawValue, rhs: &RawValue) -> (r: Result<RawValue, RuntimeError>)
    ensures
        match binary_result(value@, "Op\\Add"@, rhs@) {
            Ok(result) => r matches Ok(found) && found@ == result,
            Err(e) => r matches Err(found) && found == e,
        },
{
    match value {
        RawValue::Int(value) => fitting(value.checked_add(int_of(rhs)?)),
        RawValue::String(value) => Ok(RawValue::String(concat_text(value.as_str(), text_of(rhs)?))),
        RawValue::Bool(_) => Err(RuntimeError::RawTypeMismatch),
    }
}

fn sub(value: &RawValue, rhs: &RawValue) -> (r: Result<RawValue, RuntimeError>)
    ensures
        match binary_result(value@, "Op\\Sub"@, rhs@) {
            Ok(result) => r matches Ok(found) && found@ == result,
            Err(e) => r matches Err(found) && found == e,
        },
{
    proof {
        different_names();
    }
    match value {
        RawValue::Int(value) => fitting(value.checked_sub(int_of(rhs)?)),
        _ => Err(RuntimeError::RawTypeMismatch),
    }
}

fn mul(value: &RawValue, rhs: &RawValue) -> (r: Result<RawValue, RuntimeError>)
    ensures
        match binary_result(value@, "Op\\Mul"@, rhs@) {
            Ok(result) => r matches Ok(found) && found@ == result,
            Err(e) => r matches Err(found) && found == e,
        },
{
    proof {
        different_names();
    }
    match value {
        RawValue::Int(value) => fitting(value.checked_mul(int_of(rhs)?)),
        _ => Err(RuntimeError::RawTypeMismatch),
    }
}

fn div(value: &RawValue, rhs: &RawValue) -> (r: Result<RawValue, RuntimeError>)
    ensures
        match binary_result(value@, "Op\\Div"@, rhs@) {
            Ok(result) => r matches Ok(found) && found@ == result,
            Err(e) => r matches Err(found) && found == e,
        },
{
    proof {
        different_names();
    }
    match value {
        RawValue::Int(value) => {
            let by = int_of(rhs)?;
            if by == 0 {
                Err(RuntimeError::DivisionByZero)
            } else {
                fitting(value.checked_div(by))
            }
        },
        _ => Err(RuntimeError::RawTypeMismatch),
    }
}

fn neg(value: &RawValue) -> (r: Result<RawValue, RuntimeError>)
    ensures
        match value@ {
            RawView::Int(a) => match int_or_overflow(0i64.checked_sub(a)) {
                Ok(result) => r matches Ok(found) && found@ == result,
                Err(e) => r matches Err(found) && found == e,
            },
            _ => r matches Err(found) && found == RuntimeError::RawTypeMismatch,
        },
{
    match value {
        RawValue::Int(value) => fitting(0i64.checked_sub(*value)),
        _ => Err(RuntimeError::RawTypeMismatch),
    }
}

fn eq(value: &RawValue, rhs: &RawValue) -> (r: Result<RawValue, RuntimeError>)
    ensures
        match binary_result(value@, "Op\\Eq"@, rhs@) {
            Ok(result) => r matches Ok(found) && found@ == result,
            Err(e) => r matches Err(found) && found == e,
        },
{
    proof {
        different_names();
    }
    let bool = match value {
        RawValue::Int(value) => *value == int_of(rhs)?,
        RawValue::String(value) => same_text(value.as_str(), text_of(rhs)?),
        RawValue::Bool(value) => *value == bool_of(rhs)?,
    };
    Ok(RawValue::Bool(bool))
}

fn lt(value: &RawValue, rhs: &RawValue) -> (r: Result<RawValue, RuntimeError>)
    ensures
        match binary_result(value@, "Op\\Lt"@, rhs@) {
            Ok(result) => r matches Ok(found) && found@ == result,
            Err(e) => r matches Err(found) && found == e,
        },
{
    proof {
        different_names();
    }
    let bool = match value {
        RawValue::Int(value) => *value < int_of(rhs)?,
        RawValue::String(value) => value.as_str().as_bytes().len() < text_of(rhs)?.as_bytes().len(),
        RawValue::Bool(_) => {
            return Err(RuntimeError::RawTypeMismatch);
        },
    };
    Ok(RawValue::Bool(bool))
}

fn gt(value: &RawValue, rhs: &RawValue) -> (r: Result<RawValue, RuntimeError>)
    ensures
        match binary_result(value@, "Op\\Gt"@, rhs@) {
            Ok(result) => r matches Ok(found) && found@ == result,
            Err(e) => r matches Err(found) && found == e,
        },
{
    proof {
        different_names();
    }
    let bool = match value {
        RawValue::Int(value) => *value > int_of(rhs)?,
        RawValue::String(value) => value.as_str().as_bytes().len() > text_of(rhs)?.as_bytes().len(),
        RawValue::Bool(_) => {
            return Err(RuntimeError::RawTypeMismatch);
        },
    };
    Ok(RawValue::Bool(bool))
}

fn and(value: &RawValue, rhs: &RawValue) -> (r: Result<RawValue, RuntimeError>)
    ensures
        match binary_result(value@, "Op\\And"@, rhs@) {
            Ok(result) => r matches Ok(found) && found@ == result,
            Err(e) => r matches Err(found) && found == e,
        },
{
    proof {
        different_names();
    }
    match value {
        RawValue::Bool(value) => {
            let other = bool_of(rhs)?;
            Ok(RawValue::Bool(*value && other))
        },
        _ => Err(RuntimeError::RawTypeMismatch),
    }
}

fn or(value: &RawValue, rhs: &RawValue) -> (r: Result<RawValue, RuntimeError>)
    ensures
        match binary_result(value@, "Op\\Or"@, rhs@) {
            Ok(result) => r matches Ok(found) && found@ == result,
            Err(e) => r matches Err(found) && found == e,
        },
{
    proof {
        different_names();
    }
    match value {
        RawValue::Bool(value) => {
            let other = bool_of(rhs)?;
            Ok(RawValue::Bool(*value || other))
        },
        _ => Err(RuntimeError::RawTypeMismatch),
    }
}

/// A raw value as a string.
pub fn raw_text_of(value: &RawValue) -> (r: String)
    ensures
        r@ == raw_text(value@),
{
    match value {
        RawValue::Int(value) => int_text_of(*value),
        RawValue::String(value) => value.clone(),
        RawValue::Bool(value) => String::from_str(
            if *value {
                "true"
            } else {
                "false"
            },
        ),
    }
}

fn to_string(value: &RawValue) -> (r: RawValue)
    ensures
        r@ == RawView::Text(raw_text(value@)),
{
    RawValue::String(raw_text_of(value))
}

/// What tells the names of the raw operations apart: the first character,
/// and the two behind the backslash.
pub proof fn different_names()
    ensures
        "Op\\Add"@[0] == 'O' && "Op\\Add"@[3] == 'A' && "Op\\Add"@[4] == 'd',
        "Op\\Sub"@[0] == 'O' && "Op\\Sub"@[3] == 'S',
        "Op\\Mul"@[0] == 'O' && "Op\\Mul"@[3] == 'M',
        "Op\\Div"@[0] == 'O' && "Op\\Div"@[3] == 'D',
        "Op\\Neg"@[0] == 'O' && "Op\\Neg"@[3] == 'N',
        "Op\\Eq"@[0] == 'O' && "Op\\Eq"@[3] == 'E',
        "Op\\Lt"@[0] == 'O' && "Op\\Lt"@[3] == 'L',
        "Op\\Gt"@[0] == 'O' && "Op\\Gt"@[3] == 'G',
        "Op\\And"@[0] == 'O' && "Op\\And"@[3] == 'A' && "Op\\And"@[4] == 'n',
        "Op\\Or"@[0] == 'O' && "Op\\Or"@[3] == 'O',
        "String"@[0] == 'S',
{
    reveal_strlit("Op\\Add");
    reveal_strlit("Op\\Sub");
    reveal_strlit("Op\\Mul");
    reveal_strlit("Op\\Div");
    reveal_strlit("Op\\Neg");
    reveal_strlit("Op\\Eq");
    reveal_strlit("Op\\Lt");
    reveal_strlit("Op\\Gt");
    reveal_strlit("Op\\And");
    reveal_strlit("Op\\Or");
    reveal_strlit("String");
}

/// Performs an operation on a raw value.
pub fn raw_operation(value: &RawValue, trayt: &str, inputs: &Vec<(String, Instance)>) -> (r: Result<
    RawValue,
    RuntimeError,
>)
    ensures
        match raw_result(value@, trayt@, members_view(inputs@)) {
            Ok(result) => r matches Ok(found) && found@ == result,
            Err(e) => r matches Err(found) && found == e,
        },
{
    proof {
        different_names();
    }
    if same_text(trayt, "Op\\Add") {
        self::add(value, rhs(inputs)?)
    } else if same_text(trayt, "Op\\Sub") {
        self::sub(value, rhs(inputs)?)
    } else if same_text(trayt, "Op\\Mul") {
        self::mul(value, rhs(inputs)?)
    } else if same_text(trayt, "Op\\Div") {
        div(value, rhs(inputs)?)
    } else if same_text(trayt, "Op\\Neg") {
        neg(value)
    } else if same_text(trayt, "Op\\Eq") {
        eq(value, rhs(inputs)?)
    } else if same_text(trayt, "Op\\Lt") {
        lt(value, rhs(inputs)?)
    } else if same_text(trayt, "Op\\Gt") {
        gt(value, rhs(inputs)?)
    } else if same_text(trayt, "Op\\And") {
        and(value, rhs(inputs)?)
    } else if same_text(trayt, "Op\\Or") {
        or(value, rhs(inputs)?)
    } else if same_text(trayt, "String") {
        Ok(to_string(value))
    } else {
        Err(RuntimeError::UndefinedTrait)
    }
}

/// The kind of the result of a raw operation is the kind that the analysis
/// gives to the call: arithmetic keeps the kind of its subject, comparisons
/// and the logical operations give a boolean, `String` gives a string.
pub proof fn lemma_raw_result_kind(
    value: RawView,
    trayt: Seq<char>,
    inputs: Seq<(Seq<char>, InstanceView)>,
)
    ensures
        raw_result(value, trayt, inputs) matches Ok(result) ==> raw_output(raw_kind(value), trayt)
            == Some(raw_kind(result)),
{
    different_names();
}

} // verus!
