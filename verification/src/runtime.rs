//! The checks a running program makes before a call and a property access:
//! which calls are allowed, where a property of an instance comes from, and
//! the error each refused access is answered with.
use crate::report::{decimal, decimal_text};
use crate::token::{Token, TokenV};
use vstd::prelude::*;
use vstd::string::to_string_from_display_ensures_for_str;

verus! {

broadcast use to_string_from_display_ensures_for_str;

/// The model of what the checks of this module return.
pub open spec fn check_view<A>(r: Result<A, (Token, String)>) -> Result<A, (TokenV, Seq<char>)> {
    match r {
        Ok(a) => Ok(a),
        Err(e) => Err((e.0@, e.1@)),
    }
}

/// Whether a call at `paren` may go ahead: the callee must be callable, and
/// it must take as many arguments as the call passes.
pub open spec fn spec_call_check(
    paren: TokenV,
    callable: bool,
    arity: nat,
    arguments: nat,
) -> Result<(), (TokenV, Seq<char>)> {
    if !callable {
        Err((paren, "Can only call function and classes."@))
    } else if arity != arguments {
        Err(
            (
                paren,
                "Expected "@ + decimal(arity) + " arguments but got "@ + decimal(arguments) + "."@,
            ),
        )
    } else {
        Ok(())
    }
}

/// A call goes ahead exactly when the callee is callable and is given as
/// many arguments as it takes; every refusal is reported at the call's
/// closing parenthesis, and a wrong count names both numbers.
pub proof fn lemma_call_check(paren: TokenV, callable: bool, arity: nat, arguments: nat)
    ensures
        spec_call_check(paren, callable, arity, arguments) is Ok <==> (callable && arity
            == arguments),
        spec_call_check(paren, callable, arity, arguments) matches Err(e) ==> e.0 == paren,
        callable && arity != arguments ==> spec_call_check(paren, callable, arity, arguments)
            == Err::<(), (TokenV, Seq<char>)>(
            (
                paren,
                "Expected "@ + decimal(arity) + " arguments but got "@ + decimal(arguments)
                    + "."@,
            ),
        ),
{
}

/// Where an instance property comes from: a field shadows a getter, which
/// shadows a method; the access fails only when the instance has none.
pub proof fn lemma_property_source(has_field: bool, has_getter: bool, has_method: bool, name: TokenV)
    ensures
        spec_property_source(has_field, has_getter, has_method, name) is Ok <==> (has_field
            || has_getter || has_method),
        has_field ==> spec_property_source(has_field, has_getter, has_method, name) == Ok::<
            PropertySource,
            (TokenV, Seq<char>),
        >(PropertySource::Field),
        !has_field && has_getter ==> spec_property_source(has_field, has_getter, has_method, name)
            == Ok::<PropertySource, (TokenV, Seq<char>)>(PropertySource::Getter),
        !has_field && !has_getter && has_method ==> spec_property_source(
            has_field,
            has_getter,
            has_method,
            name,
        ) == Ok::<PropertySource, (TokenV, Seq<char>)>(PropertySource::Method),
{
}

/// [`spec_call_check`] for a callee that is `callable`, takes `arity`
/// arguments, and is called with `arguments` of them.
pub fn call_check(paren: &Token, callable: bool, arity: usize, arguments: usize) -> (r: Result<
    (),
    (Token, String),
>)
    ensures
        check_view(r) == spec_call_check(paren@, callable, arity as nat, arguments as nat),
{
    if !callable {
        return Err((paren.clone(), "Can only call function and classes.".to_string()));
    }
    if arity != arguments {
        let mut message = String::from_str("Expected ");
        let a = decimal_text(arity);
        let n = decimal_text(arguments);
        message.append(a.as_str());
        message.append(" arguments but got ");
        message.append(n.as_str());
        message.append(".");
        return Err((paren.clone(), message));
    }
    Ok(())
}

/// Where the property of an instance is read from.
#[derive(Clone, Copy, Debug, PartialEq, Eq, Structural)]
pub enum PropertySource {
    /// A field the instance holds.
    Field,
    /// A getter of its class, called on the instance.
    Getter,
    /// A method found up the class chain, bound to the instance.
    Method,
}

/// Where the property `name` of an instance comes from: a field first, then
/// a getter of its class, then a method; an instance with none of them is an
/// error at the name.
pub open spec fn spec_property_source(
    has_field: bool,
    has_getter: bool,
    has_method: bool,
    name: TokenV,
) -> Result<PropertySource, (TokenV, Seq<char>)> {
    if has_field {
        Ok(PropertySource::Field)
    } else if has_getter {
        Ok(PropertySource::Getter)
    } else if has_method {
        Ok(PropertySource::Method)
    } else {
        Err((name, "Undefined property '"@ + name.lexeme + "'"@))
    }
}

/// [`spec_property_source`] for an instance that has a field, a getter and a
/// method of the name or not.
pub fn property_source(has_field: bool, has_getter: bool, has_method: bool, name: &Token) -> (r:
    Result<PropertySource, (Token, String)>)
    ensures
        check_view(r) == spec_property_source(has_field, has_getter, has_method, name@),
{
    if has_field {
        Ok(PropertySource::Field)
    } else if has_getter {
        Ok(PropertySource::Getter)
    } else if has_method {
        Ok(PropertySource::Method)
    } else {
        let message = String::from_str("Undefined property '").concat(name.lexeme.as_str()).concat(
            "'",
        );
        Err((name.clone(), message))
    }
}

/// What a property access reads from its object.
#[derive(Clone, Copy, Debug, PartialEq, Eq, Structural)]
pub enum PropertyTarget {
    /// A static method of a class.
    Static,
    /// A property of an instance.
    Instance,
}

/// What reading the property `name` of an object does: on a class, its
/// static method of that name, or an error when it has none; on an
/// instance, a property of the instance; on anything else, an error.
pub open spec fn spec_property_target(
    is_class: bool,
    has_static: bool,
    is_instance: bool,
    name: TokenV,
) -> Result<PropertyTarget, (TokenV, Seq<char>)> {
    if is_class {
        if has_static {
            Ok(PropertyTarget::Static)
        } else {
            Err((name, "Undefined static property."@))
        }
    } else if is_instance {
        Ok(PropertyTarget::Instance)
    } else {
        Err((name, "Only instances have properties."@))
    }
}

/// [`spec_property_target`] for an object that is a class (with a static
/// method of the name or not), an instance, or neither.
pub fn property_target(is_class: bool, has_static: bool, is_instance: bool, name: &Token) -> (r:
    Result<PropertyTarget, (Token, String)>)
    ensures
        check_view(r) == spec_property_target(is_class, has_static, is_instance, name@),
{
    if is_class {
        if has_static {
            Ok(PropertyTarget::Static)
        } else {
            Err((name.clone(), "Undefined static property.".to_string()))
        }
    } else if is_instance {
        Ok(PropertyTarget::Instance)
    } else {
        Err((name.clone(), "Only instances have properties.".to_string()))
    }
}

} // verus!
