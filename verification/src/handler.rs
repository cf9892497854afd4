//! The update handler: checks the filter, compiles the fields, and says
//! what the store is to be handed and what its answer means for the caller.

use vstd::prelude::*;
use vstd::string::StringExecFns;
use aws_sdk_dynamodb::model::AttributeValue;
use serde_json::Value;
use crate::compiler::{compile_at, compiles_to, convertible, stamp_nanos};
use crate::failure::Failure;
use crate::field_map::{FieldMap, has_name, lemma_lookup, position};
use crate::statement::UpdateStatement;
use crate::store::{clock_nanos, conversion_error_text, text_attribute_of, to_text_attribute};

verus! {

/// The filter of a request: the fields that single out one record.
pub type RecordFilter = FieldMap<String>;

/// The fields that a request sets, each with its new value.
pub type FieldUpdateSet = FieldMap<Value>;

/// Where the records live: the table and the name of its primary key.
#[derive(Debug, Clone)]
pub struct RecordLocation {
    pub table_name: String,
    pub primary_key: String,
}

/// The one write that the store is asked for.
#[derive(Debug, Clone)]
pub struct UpdateRequest {
    pub table_name: String,
    pub key: FieldMap<AttributeValue>,
    pub statement: UpdateStatement<AttributeValue>,
}

/// What a caller is told after an update that went through.
#[derive(Debug, Clone)]
pub struct SuccessPayload {
    pub message: String,
}

/// The words of every success payload.
pub open spec fn success_message() -> Seq<char> {
    "Successfully updated record"@
}

/// Every value of `filter` has a store attribute.
pub open spec fn key_convertible(filter: Map<Seq<char>, String>) -> bool {
    forall|name: Seq<char>| #[trigger]
        filter.contains_key(name) ==> text_attribute_of(filter[name]@).is_some()
}

/// The record key that a filter stands for: its fields, each with the store
/// attribute of its value.
pub open spec fn key_of(filter: Map<Seq<char>, String>) -> Map<Seq<char>, AttributeValue> {
    Map::new(
        |name: Seq<char>| filter.contains_key(name),
        |name: Seq<char>| text_attribute_of(filter[name]@).unwrap(),
    )
}

/// `request` is the write that `filter` and the fields `names`, holding
/// `fields`, ask for at `location` and at `nanos` nanoseconds since the
/// epoch: the whole filter is the key.
pub open spec fn requests(
    request: UpdateRequest,
    location: RecordLocation,
    filter: Map<Seq<char>, String>,
    names: Seq<Seq<char>>,
    fields: Map<Seq<char>, Value>,
    nanos: nat,
) -> bool {
    &&& request.table_name@ == location.table_name@
    &&& request.key.wf()
    &&& request.key@ == key_of(filter)
    &&& compiles_to(request.statement, names, fields, nanos)
}

/// The failure that stops a request before anything is sent, if any: first
/// a filter without the primary key, then a missing store configuration,
/// then a value without a store attribute.
pub open spec fn refusal(
    location: RecordLocation,
    backend_configured: bool,
    filter: Map<Seq<char>, String>,
    fields: Map<Seq<char>, Value>,
    failure: Failure,
) -> bool {
    if !filter.contains_key(location.primary_key@) {
        failure is InvalidFilter
    } else if !backend_configured {
        failure is MissingBackendConfig
    } else {
        failure is Conversion && !(convertible(fields) && key_convertible(filter))
    }
}

/// No failure stops the request before it is sent.
pub open spec fn admissible(
    location: RecordLocation,
    backend_configured: bool,
    filter: Map<Seq<char>, String>,
    fields: Map<Seq<char>, Value>,
) -> bool {
    &&& filter.contains_key(location.primary_key@)
    &&& backend_configured
    &&& convertible(fields)
    &&& key_convertible(filter)
}

/// Turns a filter into the record key that it stands for, keeping names and
/// order. Fails exactly where some value has no store attribute.
pub fn convert_key(filter: &RecordFilter) -> (outcome: Result<FieldMap<AttributeValue>, Failure>)
    requires
        filter.wf(),
    ensures
        match outcome {
            Ok(key) => {
                &&& key_convertible(filter@)
                &&& key.wf()
                &&& key.names() == filter.names()
                &&& key@ == key_of(filter@)
            },
            Err(failure) => failure is Conversion && !key_convertible(filter@),
        },
{
    let entries = filter.entries();
    let ghost items = filter.items();
    let mut key: FieldMap<AttributeValue> = FieldMap::new();
    let mut i: usize = 0;
    while i < entries.len()
        invariant
            entries@ == items,
            items == filter.items(),
            filter.wf(),
            i <= items.len(),
            key.wf(),
            key.items().len() == i,
            forall|j: int|
                0 <= j < i ==> (#[trigger] key.items()[j]).name@ == items[j].name@
                    && text_attribute_of(items[j].value@) == Some(key.items()[j].value),
        decreases items.len() - i,
    {
        let entry = &entries[i];
        match to_text_attribute(&entry.value) {
            Ok(attribute) => {
                proof {
                    if has_name(key.items(), entry.name@) {
                        let j = position(key.items(), entry.name@);
                        assert(key.items()[j].name@ == items[j].name@);
                        assert(items[j].name@ != items[i as int].name@);
                    }
                }
                key.set(entry.name.clone(), attribute);
            },
            Err(error) => {
                proof {
                    lemma_lookup(items, i as int);
                }
                return Err(Failure::Conversion(conversion_error_text(&error)));
            },
        }
        i += 1;
    }
    proof {
        let made = key.items();
        assert(key.names() =~= filter.names());
        assert forall|name: Seq<char>| #[trigger]
            filter@.contains_key(name) implies text_attribute_of(filter@[name]@).is_some()
            && key@.contains_key(name) && key@[name] == text_attribute_of(
            filter@[name]@,
        ).unwrap() by {
            let j = position(items, name);
            lemma_lookup(items, j);
            assert(made[j].name@ == name);
            lemma_lookup(made, j);
        }
        assert forall|name: Seq<char>| #[trigger] key@.contains_key(name) implies filter@.contains_key(
            name,
        ) by {
            let j = position(made, name);
            assert(made[j].name@ == items[j].name@);
        }
        assert(key@ =~= key_of(filter@));
    }
    Ok(key)
}

/// Decides an update request as of `nanos` nanoseconds since the epoch:
/// either the write to hand to the store, or the failure to hand back
/// without touching the store.
pub fn handler_at(
    location: &RecordLocation,
    backend_configured: bool,
    filter: &RecordFilter,
    fields: &FieldUpdateSet,
    nanos: u128,
) -> (outcome: Result<UpdateRequest, Failure>)
    requires
        filter.wf(),
        fields.wf(),
    ensures
        match outcome {
            Ok(request) => admissible(*location, backend_configured, filter@, fields@) && requests(
                request,
                *location,
                filter@,
                fields.names(),
                fields@,
                nanos as nat,
            ),
            Err(failure) => refusal(*location, backend_configured, filter@, fields@, failure),
        },
{
    if !filter.contains_key(&location.primary_key) {
        return Err(Failure::InvalidFilter);
    }
    if !backend_configured {
        return Err(Failure::MissingBackendConfig);
    }
    let statement = match compile_at(fields, nanos) {
        Ok(statement) => statement,
        Err(failure) => {
            return Err(failure);
        },
    };
    match convert_key(filter) {
        Ok(key) => Ok(UpdateRequest { table_name: location.table_name.clone(), key, statement }),
        Err(failure) => Err(failure),
    }
}

/// Decides an update request as of the time of the call.
pub fn handler(
    location: &RecordLocation,
    backend_configured: bool,
    filter: &RecordFilter,
    fields: &FieldUpdateSet,
) -> (outcome: Result<UpdateRequest, Failure>)
    requires
        filter.wf(),
        fields.wf(),
    ensures
        match outcome {
            Ok(request) => admissible(*location, backend_configured, filter@, fields@)
                && exists|nanos: nat|
                requests(request, *location, filter@, fields.names(), fields@, nanos),
            Err(failure) => refusal(*location, backend_configured, filter@, fields@, failure),
        },
{
    let nanos = stamp_nanos(clock_nanos());
    handler_at(location, backend_configured, filter, fields, nanos)
}

/// Turns the store's answer into the caller's: the fixed payload after a
/// write that went through, and otherwise the store's own words.
pub fn conclude(answer: Result<(), String>) -> (outcome: Result<SuccessPayload, Failure>)
    ensures
        match answer {
            Ok(_) => outcome matches Ok(payload) && payload.message@ == success_message(),
            Err(words) => outcome matches Err(failure) && failure == Failure::Store(words),
        },
{
    match answer {
        Ok(_) => Ok(SuccessPayload { message: String::from_str("Successfully updated record") }),
        Err(words) => Err(Failure::Store(words)),
    }
}

} // verus!
