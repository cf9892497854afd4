//! What holds of every compiled statement, whatever the fields.

use vstd::prelude::*;
use vstd::relations::injective_on;
use vstd::set_lib::lemma_map_size;
use aws_sdk_dynamodb::model::AttributeValue;
use serde_json::Value;
use crate::compiler::compiles_to;
use crate::decimal::{decimal, decimal_value, is_digit, lemma_decimal_reads_back};
use crate::field_map::{Entry, FieldMap, distinct_names, has_name, mapping_of};
use crate::handler::{RecordLocation, admissible, key_convertible};
use crate::placeholder::{field_of, lemma_placeholders, name_placeholder, value_placeholder};
use crate::statement::{
    UpdateStatement, binds_names, caller_fields, clause_text, timestamp_field, value_bindings,
};

verus! {

/// The names of a list of entries without repeated names are themselves
/// without repetition, and are the keys of the map that the list stands for.
pub proof fn lemma_names<V>(items: Seq<Entry<V>>, names: Seq<Seq<char>>)
    requires
        distinct_names(items),
        names == Seq::new(items.len(), |i: int| items[i].name@),
    ensures
        names.no_duplicates(),
        names.to_set() == mapping_of(items).dom(),
{
    assert forall|i: int, j: int|
        0 <= i < names.len() && 0 <= j < names.len() && i != j implies names[i] != names[j] by {
        if i < j {
            assert(items[i].name@ != items[j].name@);
        } else {
            assert(items[j].name@ != items[i].name@);
        }
    }
    assert forall|name: Seq<char>| names.to_set().contains(name) <==> mapping_of(
        items,
    ).dom().contains(name) by {
        if names.contains(name) {
            let i = choose|i: int| 0 <= i < names.len() && names[i] == name;
            assert(items[i].name@ == name);
        }
        if has_name(items, name) {
            let i = choose|i: int| 0 <= i < items.len() && (#[trigger] items[i]).name@ == name;
            assert(names[i] == name);
        }
    }
    assert(names.to_set() =~= mapping_of(items).dom());
}

/// A clause sets on the caller's behalf exactly the named fields other than
/// the timestamp field, and none of them twice where none is named twice.
pub proof fn lemma_caller_fields(names: Seq<Seq<char>>)
    ensures
        forall|field: Seq<char>|
            caller_fields(names).contains(field) <==> names.contains(field) && field
                != timestamp_field(),
        names.no_duplicates() ==> caller_fields(names).no_duplicates(),
    decreases names.len(),
{
    if names.len() > 0 {
        let front = names.drop_last();
        let last = names.last();
        lemma_caller_fields(front);
        let kept = caller_fields(front);
        let all = caller_fields(names);
        assert forall|field: Seq<char>|
            all.contains(field) <==> names.contains(field) && field != timestamp_field() by {
            if names.contains(field) {
                let i = choose|i: int| 0 <= i < names.len() && names[i] == field;
                if i < front.len() {
                    assert(front[i] == field);
                }
            }
            if front.contains(field) {
                let i = choose|i: int| 0 <= i < front.len() && front[i] == field;
                assert(names[i] == field);
            }
            if kept.contains(field) {
                let i = choose|i: int| 0 <= i < kept.len() && kept[i] == field;
                assert(all[i] == field);
            }
            if all.contains(field) {
                let i = choose|i: int| 0 <= i < all.len() && all[i] == field;
                if i < kept.len() {
                    assert(kept[i] == field);
                }
            }
            if field == last {
                assert(names[names.len() - 1] == field);
                if last != timestamp_field() {
                    assert(all[all.len() - 1] == field);
                }
            }
        }
        if names.no_duplicates() {
            assert forall|i: int, j: int|
                0 <= i < front.len() && 0 <= j < front.len() && i != j implies front[i]
                != front[j] by {
                assert(names[i] != names[j]);
            }
            if last != timestamp_field() {
                if kept.contains(last) {
                    assert(front.contains(last));
                    let i = choose|i: int| 0 <= i < front.len() && front[i] == last;
                    assert(names[i] != names[names.len() - 1]);
                }
                assert(all == kept.push(last));
                assert forall|i: int, j: int|
                    0 <= i < all.len() && 0 <= j < all.len() && i != j implies all[i] != all[j] by {
                    if i < kept.len() && j < kept.len() {
                        assert(kept[i] != kept[j]);
                    } else if i < kept.len() {
                        assert(kept[i] == all[i]);
                        assert(all[j] == last);
                    } else {
                        assert(kept[j] == all[j]);
                        assert(all[i] == last);
                    }
                }
            }
        }
    }
}

/// Every placeholder is bound, and bound once. Where the caller sets no
/// timestamp of their own, the name mapping and the value mapping of a
/// statement each hold one entry per field and one more for the timestamp.
/// Both placeholders of every field, the timestamp field among them, are
/// bound, the name placeholder in the name mapping only and the value
/// placeholder in the value mapping only.
pub proof fn law_every_placeholder_bound<V>(
    names: Map<Seq<char>, String>,
    values: Map<Seq<char>, V>,
    fields: Map<Seq<char>, V>,
    stamp: V,
)
    requires
        fields.dom().finite(),
        !fields.contains_key(timestamp_field()),
        binds_names(names, fields.dom()),
        values == value_bindings(fields, stamp),
    ensures
        names.dom().finite(),
        values.dom().finite(),
        names.dom().len() == fields.dom().len() + 1,
        values.dom().len() == fields.dom().len() + 1,
        names.dom().disjoint(values.dom()),
        forall|field: Seq<char>|
            fields.contains_key(field) || field == timestamp_field() ==> {
                &&& names.contains_key(#[trigger] name_placeholder(field))
                &&& !values.contains_key(name_placeholder(field))
                &&& values.contains_key(value_placeholder(field))
                &&& !names.contains_key(value_placeholder(field))
            },
{
    let all = fields.dom().insert(timestamp_field());
    let to_name = |field: Seq<char>| name_placeholder(field);
    let to_value = |field: Seq<char>| value_placeholder(field);
    assert forall|field: Seq<char>|
        fields.contains_key(field) || field == timestamp_field() implies {
        &&& names.contains_key(#[trigger] name_placeholder(field))
        &&& !values.contains_key(name_placeholder(field))
        &&& values.contains_key(value_placeholder(field))
        &&& !names.contains_key(value_placeholder(field))
    } by {
        lemma_placeholders(field);
    }
    assert forall|a: Seq<char>, b: Seq<char>|
        all.contains(a) && all.contains(b) && #[trigger] to_name(a) == #[trigger] to_name(
            b,
        ) implies a == b by {
        lemma_placeholders(a);
        lemma_placeholders(b);
    }
    assert forall|a: Seq<char>, b: Seq<char>|
        all.contains(a) && all.contains(b) && #[trigger] to_value(a) == #[trigger] to_value(
            b,
        ) implies a == b by {
        lemma_placeholders(a);
        lemma_placeholders(b);
    }
    assert(injective_on(to_name, all));
    assert(injective_on(to_value, all));
    assert forall|token: Seq<char>| all.map(to_name).contains(token) <==> names.dom().contains(
        token,
    ) by {
        if names.contains_key(token) {
            assert(all.contains(field_of(token)) && token == to_name(field_of(token)));
        }
        if all.map(to_name).contains(token) {
            let field = choose|field: Seq<char>| all.contains(field) && token == to_name(field);
            lemma_placeholders(field);
        }
    }
    assert forall|token: Seq<char>| all.map(to_value).contains(token) <==> values.dom().contains(
        token,
    ) by {
        if values.contains_key(token) {
            if token == value_placeholder(timestamp_field()) {
                assert(all.contains(timestamp_field()) && token == to_value(timestamp_field()));
            } else {
                assert(all.contains(field_of(token)) && token == to_value(field_of(token)));
            }
        }
        if all.map(to_value).contains(token) {
            let field = choose|field: Seq<char>| all.contains(field) && token == to_value(field);
            lemma_placeholders(field);
        }
    }
    assert(all.map(to_name) =~= names.dom());
    assert(all.map(to_value) =~= values.dom());
    lemma_map_size(all, names.dom(), to_name);
    lemma_map_size(all, values.dom(), to_value);
    assert forall|token: Seq<char>| names.dom().contains(token) implies !values.dom().contains(
        token,
    ) by {
        lemma_placeholders(field_of(token));
        lemma_placeholders(timestamp_field());
    }
}

/// What a clause mentions is bound. A clause is made of the fragments of
/// the caller's fields and of the timestamp's. Whatever the fields, both
/// placeholders of each such fragment are bound, the name placeholder to the
/// field's name and the value placeholder to the field's value, and the
/// timestamp's value placeholder to the stamp.
pub proof fn law_clause_is_bound<V>(
    fields: FieldMap<V>,
    names: Map<Seq<char>, String>,
    values: Map<Seq<char>, V>,
    stamp: V,
)
    requires
        fields.wf(),
        binds_names(names, fields@.dom()),
        values == value_bindings(fields@, stamp),
    ensures
        forall|i: int|
            0 <= i < caller_fields(fields.names()).len() ==> {
                let field = #[trigger] caller_fields(fields.names())[i];
                &&& field != timestamp_field()
                &&& fields@.contains_key(field)
                &&& names.contains_key(name_placeholder(field))
                &&& names[name_placeholder(field)]@ == field
                &&& values.contains_key(value_placeholder(field))
                &&& values[value_placeholder(field)] == fields@[field]
                &&& !names.contains_key(value_placeholder(field))
                &&& !values.contains_key(name_placeholder(field))
            },
        names.contains_key(name_placeholder(timestamp_field())),
        names[name_placeholder(timestamp_field())]@ == timestamp_field(),
        values.contains_key(value_placeholder(timestamp_field())),
        values[value_placeholder(timestamp_field())] == stamp,
        !names.contains_key(value_placeholder(timestamp_field())),
        !values.contains_key(name_placeholder(timestamp_field())),
{
    let order = fields.names();
    lemma_names(fields.items(), order);
    lemma_caller_fields(order);
    lemma_placeholders(timestamp_field());
    assert forall|i: int| 0 <= i < caller_fields(order).len() implies {
        let field = #[trigger] caller_fields(order)[i];
        &&& field != timestamp_field()
        &&& fields@.contains_key(field)
        &&& names.contains_key(name_placeholder(field))
        &&& names[name_placeholder(field)]@ == field
        &&& values.contains_key(value_placeholder(field))
        &&& values[value_placeholder(field)] == fields@[field]
        &&& !names.contains_key(value_placeholder(field))
        &&& !values.contains_key(name_placeholder(field))
    } by {
        let field = caller_fields(order)[i];
        assert(caller_fields(order).contains(field));
        assert(order.contains(field));
        assert(order.to_set().contains(field));
        lemma_placeholders(field);
    }
}

/// Two fields never share a placeholder.
pub proof fn law_placeholders_distinct(a: Seq<char>, b: Seq<char>)
    requires
        a != b,
    ensures
        name_placeholder(a) != name_placeholder(b),
        value_placeholder(a) != value_placeholder(b),
        name_placeholder(a) != value_placeholder(b),
{
    lemma_placeholders(a);
    lemma_placeholders(b);
}

/// An update without fields is admissible wherever the filter holds the
/// primary key and stands for a record key, and the store can be reached. Its statement has the
/// timestamp's fragment as its whole clause, and binds the two placeholders
/// of the timestamp and nothing else.
pub proof fn law_bare_timestamp<V>(
    names: Map<Seq<char>, String>,
    values: Map<Seq<char>, V>,
    stamp: V,
    location: RecordLocation,
    filter: Map<Seq<char>, String>,
)
    requires
        binds_names(names, Set::<Seq<char>>::empty()),
        values == value_bindings(Map::<Seq<char>, V>::empty(), stamp),
    ensures
        filter.contains_key(location.primary_key@) && key_convertible(filter) ==> admissible(
            location,
            true,
            filter,
            Map::<Seq<char>, Value>::empty(),
        ),
        clause_text(caller_fields(Seq::<Seq<char>>::empty()))
            == "set #updated_at_key = :updated_at_val"@,
        names.dom() == set![name_placeholder(timestamp_field())],
        names[name_placeholder(timestamp_field())]@ == timestamp_field(),
        values == map![value_placeholder(timestamp_field()) => stamp],
{
    reveal_strlit("set #updated_at_key = :updated_at_val");
    reveal_strlit("updated_at");
    lemma_placeholders(timestamp_field());
    assert(names.contains_key(name_placeholder(timestamp_field())));
    assert(clause_text(caller_fields(Seq::<Seq<char>>::empty()))
        =~= "set #updated_at_key = :updated_at_val"@);
    assert(names.dom() =~= set![name_placeholder(timestamp_field())]);
    assert(values =~= map![value_placeholder(timestamp_field()) => stamp]);
}

/// The shape of a statement. Two compilations of the same fields, at any two
/// times and with the fields held in any two orders, bind the same names
/// and, but for the timestamp, the same values; their clauses set the same
/// fields, each once; and where the order is the same, the clauses are the
/// same text.
pub proof fn law_same_shape(
    first: UpdateStatement<AttributeValue>,
    second: UpdateStatement<AttributeValue>,
    first_fields: FieldMap<Value>,
    second_fields: FieldMap<Value>,
    first_nanos: nat,
    second_nanos: nat,
)
    requires
        first_fields.wf(),
        second_fields.wf(),
        first_fields@ == second_fields@,
        compiles_to(first, first_fields.names(), first_fields@, first_nanos),
        compiles_to(second, second_fields.names(), second_fields@, second_nanos),
    ensures
        first.names@.dom() == second.names@.dom(),
        forall|token: Seq<char>| #[trigger]
            first.names@.contains_key(token) ==> first.names@[token]@ == second.names@[token]@,
        first.values@.dom() == second.values@.dom(),
        forall|token: Seq<char>|
            #[trigger] first.values@.contains_key(token) && token != value_placeholder(
                timestamp_field(),
            ) ==> first.values@[token] == second.values@[token],
        caller_fields(first_fields.names()).to_set() == caller_fields(
            second_fields.names(),
        ).to_set(),
        caller_fields(first_fields.names()).len() == caller_fields(second_fields.names()).len(),
        caller_fields(first_fields.names()).no_duplicates(),
        caller_fields(second_fields.names()).no_duplicates(),
        first_fields.names() == second_fields.names() ==> first.clause@ == second.clause@,
{
    let first_order = first_fields.names();
    let second_order = second_fields.names();
    lemma_names(first_fields.items(), first_order);
    lemma_names(second_fields.items(), second_order);
    assert(first.names@.dom() =~= second.names@.dom());
    assert(first.values@.dom() =~= second.values@.dom());
    lemma_caller_fields(first_order);
    lemma_caller_fields(second_order);
    assert forall|field: Seq<char>|
        caller_fields(first_order).to_set().contains(field) <==> caller_fields(
            second_order,
        ).to_set().contains(field) by {
        assert(first_order.contains(field) <==> first_order.to_set().contains(field));
        assert(second_order.contains(field) <==> second_order.to_set().contains(field));
    }
    assert(caller_fields(first_order).to_set() =~= caller_fields(second_order).to_set());
    caller_fields(first_order).unique_seq_to_set();
    caller_fields(second_order).unique_seq_to_set();
}

/// The text of a timestamp. A later time is written as another text than an
/// earlier one; both texts consist of digits only and read back as the
/// times they were written for, the later as the larger number.
pub proof fn law_timestamp_text(earlier: nat, later: nat)
    requires
        earlier < later,
    ensures
        decimal(earlier) != decimal(later),
        forall|i: int| 0 <= i < decimal(earlier).len() ==> is_digit(#[trigger] decimal(earlier)[i]),
        forall|i: int| 0 <= i < decimal(later).len() ==> is_digit(#[trigger] decimal(later)[i]),
        decimal_value(decimal(earlier)) < decimal_value(decimal(later)),
{
    lemma_decimal_reads_back(earlier);
    lemma_decimal_reads_back(later);
}

} // verus!
