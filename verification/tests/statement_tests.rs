use aws_sdk_dynamodb::model::AttributeValue;
use record_update::compiler::{compile, compile_at, convert_fields, stamp_nanos};
use record_update::decimal::render_decimal;
use record_update::field_map::{Entry, FieldMap};
use record_update::placeholder::{make_fragment, make_name_placeholder, make_value_placeholder};
use record_update::statement::UpdateStatement;
use serde_json::Value;
use std::collections::HashMap;

fn names_of(statement_names: &FieldMap<String>) -> HashMap<String, String> {
    let mut out = HashMap::new();
    for entry in statement_names.entries() {
        assert!(out.insert(entry.name.clone(), entry.value.clone()).is_none());
    }
    out
}

fn values_of<V: Clone>(statement_values: &FieldMap<V>) -> HashMap<String, V> {
    let mut out = HashMap::new();
    for entry in statement_values.entries() {
        assert!(out.insert(entry.name.clone(), entry.value.clone()).is_none());
    }
    out
}

fn text(s: &str) -> Value {
    Value::String(s.to_string())
}

#[test]
fn placeholders_wrap_the_field_name() {
    let field = "name".to_string();
    assert_eq!(make_name_placeholder(&field), "#name_key");
    assert_eq!(make_value_placeholder(&field), ":name_val");
    assert_eq!(make_fragment(&field), "#name_key = :name_val");
}

#[test]
fn placeholders_of_the_empty_name() {
    let field = String::new();
    assert_eq!(make_name_placeholder(&field), "#_key");
    assert_eq!(make_value_placeholder(&field), ":_val");
    assert_eq!(make_fragment(&field), "#_key = :_val");
}

#[test]
fn decimal_of_small_numbers() {
    assert_eq!(render_decimal(0), "0");
    assert_eq!(render_decimal(7), "7");
    assert_eq!(render_decimal(10), "10");
    assert_eq!(render_decimal(909), "909");
}

#[test]
fn decimal_of_large_numbers() {
    assert_eq!(render_decimal(1_666_000_000_123_456_789), "1666000000123456789");
    assert_eq!(render_decimal(u128::MAX), "340282366920938463463374607431768211455");
    assert_eq!(render_decimal(u128::MAX), u128::MAX.to_string());
}

#[test]
fn decimal_reads_back() {
    for n in [0u128, 1, 9, 10, 11, 99, 100, 12345, 1 << 64, u128::MAX - 1] {
        assert_eq!(render_decimal(n).parse::<u128>().unwrap(), n);
    }
}

#[test]
fn clock_before_the_epoch_counts_as_the_epoch() {
    assert_eq!(stamp_nanos(-1), 0);
    assert_eq!(stamp_nanos(i128::MIN), 0);
    assert_eq!(stamp_nanos(0), 0);
    assert_eq!(stamp_nanos(42), 42);
    assert_eq!(stamp_nanos(i128::MAX), i128::MAX as u128);
}

#[test]
fn field_map_starts_empty() {
    let map: FieldMap<u32> = FieldMap::new();
    assert_eq!(map.len(), 0);
    assert!(map.entries().is_empty());
    assert!(!map.contains_key(&"a".to_string()));
    assert!(map.get(&"a".to_string()).is_none());
    assert!(map.find(&"a".to_string()).is_none());
}

#[test]
fn field_map_set_adds_and_replaces() {
    let mut map: FieldMap<u32> = FieldMap::new();
    map.set("a".to_string(), 1);
    map.set("b".to_string(), 2);
    map.set("a".to_string(), 3);
    assert_eq!(map.len(), 2);
    assert_eq!(map.get(&"a".to_string()), Some(&3));
    assert_eq!(map.get(&"b".to_string()), Some(&2));
    assert_eq!(map.find(&"a".to_string()), Some(0));
    assert_eq!(map.find(&"b".to_string()), Some(1));
    assert!(map.contains_key(&"b".to_string()));
    assert!(!map.contains_key(&"c".to_string()));
    let list: Vec<Entry<u32>> = map.into_entries();
    assert_eq!(list.len(), 2);
    assert_eq!(list[0].name, "a");
    assert_eq!(list[0].value, 3);
    assert_eq!(list[1].name, "b");
    assert_eq!(list[1].value, 2);
}

#[test]
fn assemble_without_fields_sets_the_timestamp_only() {
    let fields: FieldMap<u64> = FieldMap::new();
    let statement = UpdateStatement::assemble(fields, 99);
    assert_eq!(statement.clause, "set #updated_at_key = :updated_at_val");
    let names = names_of(&statement.names);
    assert_eq!(names.len(), 1);
    assert_eq!(names["#updated_at_key"], "updated_at");
    let values = values_of(&statement.values);
    assert_eq!(values.len(), 1);
    assert_eq!(values[":updated_at_val"], 99);
}

#[test]
fn assemble_one_field() {
    let mut fields: FieldMap<u64> = FieldMap::new();
    fields.set("name".to_string(), 5);
    let statement = UpdateStatement::assemble(fields, 99);
    assert_eq!(statement.clause, "set #name_key = :name_val, #updated_at_key = :updated_at_val");
    let names = names_of(&statement.names);
    assert_eq!(names.len(), 2);
    assert_eq!(names["#name_key"], "name");
    assert_eq!(names["#updated_at_key"], "updated_at");
    let values = values_of(&statement.values);
    assert_eq!(values.len(), 2);
    assert_eq!(values[":name_val"], 5);
    assert_eq!(values[":updated_at_val"], 99);
}

#[test]
fn assemble_keeps_the_order_of_the_fields() {
    let mut fields: FieldMap<u64> = FieldMap::new();
    fields.set("b".to_string(), 2);
    fields.set("a".to_string(), 1);
    fields.set("c".to_string(), 3);
    let statement = UpdateStatement::assemble(fields, 0);
    assert_eq!(
        statement.clause,
        "set #b_key = :b_val, #a_key = :a_val, #c_key = :c_val, #updated_at_key = :updated_at_val"
    );
}

#[test]
fn every_field_adds_one_entry_to_each_mapping() {
    for count in 0usize..6 {
        let mut fields: FieldMap<u64> = FieldMap::new();
        for i in 0..count {
            fields.set(format!("f{}", i), i as u64);
        }
        let statement = UpdateStatement::assemble(fields, 1000);
        assert_eq!(statement.names.len(), count + 1);
        assert_eq!(statement.values.len(), count + 1);
        for entry in statement.names.entries() {
            assert!(entry.name.starts_with('#'));
            assert!(!statement.values.contains_key(&entry.name));
            assert!(statement.clause.contains(entry.name.as_str()));
        }
        for entry in statement.values.entries() {
            assert!(entry.name.starts_with(':'));
            assert!(!statement.names.contains_key(&entry.name));
            assert!(statement.clause.contains(entry.name.as_str()));
        }
        assert_eq!(statement.clause.matches('#').count(), count + 1);
        assert_eq!(statement.clause.matches(':').count(), count + 1);
    }
}

#[test]
fn the_callers_timestamp_is_passed_over() {
    let mut fields: FieldMap<u64> = FieldMap::new();
    fields.set("updated_at".to_string(), 1);
    fields.set("name".to_string(), 2);
    let statement = UpdateStatement::assemble(fields, 77);
    assert_eq!(statement.clause, "set #name_key = :name_val, #updated_at_key = :updated_at_val");
    let names = names_of(&statement.names);
    assert_eq!(names.len(), 2);
    assert_eq!(names["#updated_at_key"], "updated_at");
    let values = values_of(&statement.values);
    assert_eq!(values.len(), 2);
    assert_eq!(values[":updated_at_val"], 77);
    assert_eq!(values[":name_val"], 2);
}

#[test]
fn shape_is_the_same_at_another_time_and_in_another_order() {
    let mut first: FieldMap<u64> = FieldMap::new();
    first.set("a".to_string(), 1);
    first.set("b".to_string(), 2);
    let mut second: FieldMap<u64> = FieldMap::new();
    second.set("b".to_string(), 2);
    second.set("a".to_string(), 1);
    let one = UpdateStatement::assemble(first, 10);
    let two = UpdateStatement::assemble(second, 20);
    assert_eq!(names_of(&one.names), names_of(&two.names));
    let mut left = values_of(&one.values);
    let mut right = values_of(&two.values);
    assert_eq!(left.remove(":updated_at_val"), Some(10));
    assert_eq!(right.remove(":updated_at_val"), Some(20));
    assert_eq!(left, right);
    let fragments = |clause: &str| -> Vec<String> {
        let mut parts: Vec<String> =
            clause["set ".len()..].split(", ").map(|p| p.to_string()).collect();
        parts.sort();
        parts
    };
    assert_eq!(fragments(&one.clause), fragments(&two.clause));
    assert_eq!(one.clause, "set #a_key = :a_val, #b_key = :b_val, #updated_at_key = :updated_at_val");
    assert_eq!(two.clause, "set #b_key = :b_val, #a_key = :a_val, #updated_at_key = :updated_at_val");
}

#[test]
fn convert_fields_keeps_names_and_order() {
    let mut fields: FieldMap<Value> = FieldMap::new();
    fields.set("s".to_string(), text("x"));
    fields.set("n".to_string(), Value::Number(serde_json::Number::from(12u64)));
    fields.set("b".to_string(), Value::Bool(true));
    fields.set("z".to_string(), Value::Null);
    fields.set("l".to_string(), Value::Array(vec![text("y")]));
    let attributes = match convert_fields(&fields) {
        Ok(attributes) => attributes,
        Err(_) => panic!("every JSON value has an attribute"),
    };
    let list = attributes.entries();
    assert_eq!(list.len(), 5);
    assert_eq!(list[0].name, "s");
    assert_eq!(list[0].value, AttributeValue::S("x".to_string()));
    assert_eq!(list[1].name, "n");
    assert_eq!(list[1].value, AttributeValue::N("12".to_string()));
    assert_eq!(list[2].name, "b");
    assert_eq!(list[2].value, AttributeValue::Bool(true));
    assert_eq!(list[3].name, "z");
    assert_eq!(list[3].value, AttributeValue::Null(true));
    assert_eq!(list[4].name, "l");
    assert_eq!(list[4].value, AttributeValue::L(vec![AttributeValue::S("y".to_string())]));
}

#[test]
fn compile_at_binds_attributes_and_the_numeric_timestamp() {
    let mut fields: FieldMap<Value> = FieldMap::new();
    fields.set("name".to_string(), text("update_function"));
    let statement = match compile_at(&fields, 1_666_000_000_000_000_001) {
        Ok(statement) => statement,
        Err(_) => panic!("compiles"),
    };
    assert_eq!(statement.clause, "set #name_key = :name_val, #updated_at_key = :updated_at_val");
    let names = names_of(&statement.names);
    assert_eq!(names.len(), 2);
    assert_eq!(names["#name_key"], "name");
    assert_eq!(names["#updated_at_key"], "updated_at");
    let values = values_of(&statement.values);
    assert_eq!(values.len(), 2);
    assert_eq!(values[":name_val"], AttributeValue::S("update_function".to_string()));
    assert_eq!(values[":updated_at_val"], AttributeValue::N("1666000000000000001".to_string()));
}

#[test]
fn compile_at_without_fields() {
    let fields: FieldMap<Value> = FieldMap::new();
    let statement = match compile_at(&fields, 0) {
        Ok(statement) => statement,
        Err(_) => panic!("compiles"),
    };
    assert_eq!(statement.clause, "set #updated_at_key = :updated_at_val");
    let values = values_of(&statement.values);
    assert_eq!(values.len(), 1);
    assert_eq!(values[":updated_at_val"], AttributeValue::N("0".to_string()));
}

fn stamp_of(statement: &UpdateStatement<AttributeValue>) -> u128 {
    match statement.values.get(&":updated_at_val".to_string()) {
        Some(AttributeValue::N(digits)) => {
            assert!(!digits.is_empty());
            assert!(digits.chars().all(|c| c.is_ascii_digit()));
            digits.parse::<u128>().unwrap()
        }
        _ => panic!("the timestamp is a numeric attribute"),
    }
}

#[test]
fn compile_stamps_with_the_clock() {
    let before = std::time::SystemTime::now()
        .duration_since(std::time::UNIX_EPOCH)
        .unwrap()
        .as_nanos();
    let fields: FieldMap<Value> = FieldMap::new();
    let first = match compile(&fields) {
        Ok(statement) => statement,
        Err(_) => panic!("compiles"),
    };
    let second = match compile(&fields) {
        Ok(statement) => statement,
        Err(_) => panic!("compiles"),
    };
    let after = std::time::SystemTime::now()
        .duration_since(std::time::UNIX_EPOCH)
        .unwrap()
        .as_nanos();
    assert_eq!(first.clause, second.clause);
    let one = stamp_of(&first);
    let two = stamp_of(&second);
    assert!(before <= one);
    assert!(one <= two);
    assert!(two <= after);
}
