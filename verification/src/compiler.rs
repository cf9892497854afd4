//! The update statement compiler: from a caller's fields to the statement
//! that the store is handed.

use vstd::prelude::*;
use aws_sdk_dynamodb::model::AttributeValue;
use serde_json::Value;
use crate::decimal::{decimal, render_decimal};
use crate::failure::Failure;
use crate::field_map::{FieldMap, has_name, lemma_lookup, position};
use crate::statement::{
    UpdateStatement, binds_names, caller_fields, clause_text, value_bindings,
};
use crate::store::{
    attribute_of, clock_nanos, conversion_error_text, make_number, number_attribute, to_attribute,
};

verus! {

/// Every value of `fields` has a store attribute.
pub open spec fn convertible(fields: Map<Seq<char>, Value>) -> bool {
    forall|name: Seq<char>| #[trigger]
        fields.contains_key(name) ==> attribute_of(fields[name]).is_some()
}

/// The fields of `fields`, each with the store attribute of its value.
pub open spec fn converted(fields: Map<Seq<char>, Value>) -> Map<Seq<char>, AttributeValue> {
    Map::new(
        |name: Seq<char>| fields.contains_key(name),
        |name: Seq<char>| attribute_of(fields[name]).unwrap(),
    )
}

/// `statement` is what the fields `names`, holding `fields`, compile to at
/// `nanos` nanoseconds since the epoch.
pub open spec fn compiles_to(
    statement: UpdateStatement<AttributeValue>,
    names: Seq<Seq<char>>,
    fields: Map<Seq<char>, Value>,
    nanos: nat,
) -> bool {
    &&& statement.clause@ == clause_text(caller_fields(names))
    &&& statement.names.wf()
    &&& statement.values.wf()
    &&& binds_names(statement.names@, fields.dom())
    &&& statement.values@ == value_bindings(converted(fields), number_attribute(decimal(nanos)))
}

/// Turns every value of `fields` into its store attribute, keeping names
/// and order. Fails exactly where some value has none.
pub fn convert_fields(fields: &FieldMap<Value>) -> (outcome: Result<
    FieldMap<AttributeValue>,
    Failure,
>)
    requires
        fields.wf(),
    ensures
        match outcome {
            Ok(attributes) => {
                &&& convertible(fields@)
                &&& attributes.wf()
                &&& attributes.names() == fields.names()
                &&& attributes@ == converted(fields@)
            },
            Err(failure) => failure is Conversion && !convertible(fields@),
        },
{
    let entries = fields.entries();
    let ghost items = fields.items();
    let mut attributes: FieldMap<AttributeValue> = FieldMap::new();
    let mut i: usize = 0;
    while i < entries.len()
        invariant
            entries@ == items,
            items == fields.items(),
            fields.wf(),
            i <= items.len(),
            attributes.wf(),
            attributes.items().len() == i,
            forall|j: int|
                0 <= j < i ==> (#[trigger] attributes.items()[j]).name@ == items[j].name@
                    && attribute_of(items[j].value) == Some(attributes.items()[j].value),
        decreases items.len() - i,
    {
        let entry = &entries[i];
        match to_attribute(&entry.value) {
            Ok(attribute) => {
                proof {
                    if has_name(attributes.items(), entry.name@) {
                        let j = position(attributes.items(), entry.name@);
                        assert(attributes.items()[j].name@ == items[j].name@);
                        assert(items[j].name@ != items[i as int].name@);
                    }
                }
                attributes.set(entry.name.clone(), attribute);
            },
            Err(error) => {
                proof {
                    lemma_lookup(items, i as int);
                }
                return Err(Failure::Conversion(conversion_error_text(&error)));
            },
        }
        i += 1;
    }
    proof {
        let made = attributes.items();
        assert(attributes.names() =~= fields.names());
        assert forall|name: Seq<char>| #[trigger]
            fields@.contains_key(name) implies attribute_of(fields@[name]).is_some()
            && attributes@.contains_key(name) && attributes@[name] == attribute_of(
            fields@[name],
        ).unwrap() by {
            let j = position(items, name);
            lemma_lookup(items, j);
            assert(made[j].name@ == name);
            lemma_lookup(made, j);
        }
        assert forall|name: Seq<char>| #[trigger]
            attributes@.contains_key(name) implies fields@.contains_key(name) by {
            let j = position(made, name);
            assert(made[j].name@ == items[j].name@);
        }
        assert(attributes@ =~= converted(fields@));
    }
    Ok(attributes)
}

/// Compiles `fields` into the statement that sets them and stamps the
/// record with `nanos`, written in base ten as a numeric attribute.
pub fn compile_at(fields: &FieldMap<Value>, nanos: u128) -> (outcome: Result<
    UpdateStatement<AttributeValue>,
    Failure,
>)
    requires
        fields.wf(),
    ensures
        match outcome {
            Ok(statement) => convertible(fields@) && compiles_to(
                statement,
                fields.names(),
                fields@,
                nanos as nat,
            ),
            Err(failure) => failure is Conversion && !convertible(fields@),
        },
{
    match convert_fields(fields) {
        Ok(attributes) => {
            let stamp = make_number(render_decimal(nanos));
            Ok(UpdateStatement::assemble(attributes, stamp))
        },
        Err(failure) => Err(failure),
    }
}

/// The nanoseconds since the epoch that a clock reading stands for: the
/// reading itself, and zero for a clock set before the epoch.
pub open spec fn nanos_of(reading: int) -> nat {
    if reading < 0 {
        0
    } else {
        reading as nat
    }
}

/// The nanoseconds since the epoch that a clock reading stands for.
pub fn stamp_nanos(reading: i128) -> (nanos: u128)
    ensures
        nanos == nanos_of(reading as int),
{
    if reading < 0 {
        0
    } else {
        reading as u128
    }
}

/// Compiles `fields` into the statement that sets them and stamps the
/// record with the time of the call.
pub fn compile(fields: &FieldMap<Value>) -> (outcome: Result<
    UpdateStatement<AttributeValue>,
    Failure,
>)
    requires
        fields.wf(),
    ensures
        match outcome {
            Ok(statement) => convertible(fields@) && exists|nanos: nat|
                compiles_to(statement, fields.names(), fields@, nanos),
            Err(failure) => failure is Conversion && !convertible(fields@),
        },
{
    let nanos = stamp_nanos(clock_nanos());
    compile_at(fields, nanos)
}

} // verus!
