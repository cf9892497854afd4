//! The update statement of one partial update: the clause text and the two
//! placeholder mappings that go with it.

use vstd::prelude::*;
use vstd::string::StringExecFns;
use crate::field_map::{Entry, FieldMap, distinct_names, has_name, lemma_lookup, lemma_push, mapping_of};
use crate::placeholder::{
    field_of, fragment, is_name_placeholder, is_value_placeholder, lemma_placeholders,
    make_fragment, make_name_placeholder, make_value_placeholder, value_placeholder,
};

verus! {

/// The field that records when a record was last changed. Every statement
/// sets it, and a caller's own value for it is passed over.
pub open spec fn timestamp_field() -> Seq<char> {
    "updated_at"@
}

/// The fields that a clause sets on the caller's behalf, in the order of
/// `names`: all but the timestamp field.
pub open spec fn caller_fields(names: Seq<Seq<char>>) -> Seq<Seq<char>>
    decreases names.len(),
{
    if names.len() == 0 {
        Seq::empty()
    } else if names.last() == timestamp_field() {
        caller_fields(names.drop_last())
    } else {
        caller_fields(names.drop_last()).push(names.last())
    }
}

/// The fragments of `fields` in order, each followed by `, `.
pub open spec fn fragment_list(fields: Seq<Seq<char>>) -> Seq<char>
    decreases fields.len(),
{
    if fields.len() == 0 {
        Seq::empty()
    } else {
        fragment_list(fields.drop_last()) + fragment(fields.last()) + seq![',', ' ']
    }
}

/// The clause that sets `fields` and then the timestamp: `set `, one
/// fragment per field, and the timestamp's fragment last.
pub open spec fn clause_text(fields: Seq<Seq<char>>) -> Seq<char> {
    seq!['s', 'e', 't', ' '] + fragment_list(fields) + fragment(timestamp_field())
}

/// `names` maps the name placeholder of each field of `fields`, and that of
/// the timestamp field, to the field's name, and holds nothing else.
pub open spec fn binds_names(names: Map<Seq<char>, String>, fields: Set<Seq<char>>) -> bool {
    &&& forall|token: Seq<char>| #[trigger]
        names.contains_key(token) <==> is_name_placeholder(token) && (fields.contains(
            field_of(token),
        ) || field_of(token) == timestamp_field())
    &&& forall|token: Seq<char>|
        names.contains_key(token) ==> (#[trigger] names[token])@ == field_of(token)
}

/// The value placeholders of the caller's fields, each bound to the field's
/// value, without the timestamp field.
pub open spec fn caller_values<V>(fields: Map<Seq<char>, V>) -> Map<Seq<char>, V> {
    Map::new(
        |token: Seq<char>|
            is_value_placeholder(token) && fields.contains_key(field_of(token)) && field_of(token)
                != timestamp_field(),
        |token: Seq<char>| fields[field_of(token)],
    )
}

/// The value mapping of a statement: the caller's values, and `stamp` under
/// the timestamp's value placeholder.
pub open spec fn value_bindings<V>(fields: Map<Seq<char>, V>, stamp: V) -> Map<Seq<char>, V> {
    caller_values(fields).insert(value_placeholder(timestamp_field()), stamp)
}

/// An update statement: the clause, the names behind its name placeholders
/// and the values behind its value placeholders.
#[derive(Debug, Clone)]
pub struct UpdateStatement<V> {
    pub clause: String,
    pub names: FieldMap<String>,
    pub values: FieldMap<V>,
}

/// The first `i + 1` entries stand for the map of the first `i` with entry `i` put in.
proof fn lemma_take_step<V>(items: Seq<Entry<V>>, i: int)
    requires
        distinct_names(items),
        0 <= i < items.len(),
    ensures
        distinct_names(items.take(i)),
        items.take(i + 1).drop_last() == items.take(i),
        items.take(i + 1).last() == items[i],
        mapping_of(items.take(i + 1)) == mapping_of(items.take(i)).insert(
            items[i].name@,
            items[i].value,
        ),
{
    let front = items.take(i);
    assert forall|a: int, b: int| 0 <= a < b < front.len() implies (#[trigger] front[a]).name@ != (
    #[trigger] front[b]).name@ by {
        assert(items[a].name@ != items[b].name@);
    }
    if has_name(front, items[i].name@) {
        let a = choose|a: int| 0 <= a < front.len() && (#[trigger] front[a]).name@ == items[i].name@;
        assert(items[a].name@ != items[i].name@);
    }
    lemma_push(front, items[i]);
    assert(items.take(i + 1) =~= front.push(items[i]));
    assert(items.take(i + 1).drop_last() =~= front);
}

/// The entries from `n - 1` on stand for the map of those from `n` on with entry `n - 1` put in.
proof fn lemma_skip_step<V>(items: Seq<Entry<V>>, n: int)
    requires
        distinct_names(items),
        0 < n <= items.len(),
    ensures
        mapping_of(items.skip(n - 1)) == mapping_of(items.skip(n)).insert(
            items[n - 1].name@,
            items[n - 1].value,
        ),
{
    let wide = items.skip(n - 1);
    let tail = items.skip(n);
    let head = items[n - 1];
    assert forall|a: int, b: int| 0 <= a < b < wide.len() implies (#[trigger] wide[a]).name@ != (
    #[trigger] wide[b]).name@ by {
        assert(items[a + n - 1].name@ != items[b + n - 1].name@);
    }
    assert forall|a: int, b: int| 0 <= a < b < tail.len() implies (#[trigger] tail[a]).name@ != (
    #[trigger] tail[b]).name@ by {
        assert(items[a + n].name@ != items[b + n].name@);
    }
    let target = mapping_of(tail).insert(head.name@, head.value);
    assert forall|name: Seq<char>| mapping_of(wide).contains_key(name) <==> target.contains_key(
        name,
    ) by {
        if has_name(tail, name) {
            let a = choose|a: int| 0 <= a < tail.len() && (#[trigger] tail[a]).name@ == name;
            assert(wide[a + 1].name@ == name);
        }
        if name == head.name@ {
            assert(wide[0].name@ == name);
        }
        if has_name(wide, name) && name != head.name@ {
            let a = choose|a: int| 0 <= a < wide.len() && (#[trigger] wide[a]).name@ == name;
            assert(tail[a - 1].name@ == name);
        }
    }
    assert forall|name: Seq<char>| mapping_of(wide).contains_key(name) implies mapping_of(
        wide,
    )[name] == target[name] by {
        let a = choose|a: int| 0 <= a < wide.len() && (#[trigger] wide[a]).name@ == name;
        lemma_lookup(wide, a);
        if a > 0 {
            assert(tail[a - 1].name@ == name);
            lemma_lookup(tail, a - 1);
        }
    }
    assert(mapping_of(wide) =~= target);
}

impl<V> UpdateStatement<V> {
    /// Assembles the statement that sets `fields` and stamps the record with
    /// `stamp`: a fragment per field in the clause, the timestamp's fragment
    /// last and once, and both placeholders of every fragment bound.
    pub fn assemble(fields: FieldMap<V>, stamp: V) -> (statement: Self)
        requires
            fields.wf(),
        ensures
            statement.clause@ == clause_text(caller_fields(fields.names())),
            statement.names.wf(),
            statement.values.wf(),
            binds_names(statement.names@, fields@.dom()),
            statement.values@ == value_bindings(fields@, stamp),
    {
        let ghost items = fields.items();
        let ghost field_names = fields.names();
        let mut rest = fields.into_entries();
        let mut clause = String::from_str("set ");
        let mut names: FieldMap<String> = FieldMap::new();
        let stamp_field = String::from_str("updated_at");
        proof {
            reveal_strlit("set ");
            assert(clause@ =~= seq!['s', 'e', 't', ' '] + fragment_list(
                caller_fields(field_names.take(0)),
            ));
        }
        let mut i: usize = 0;
        while i < rest.len()
            invariant
                rest@ == items,
                distinct_names(items),
                i <= items.len(),
                stamp_field@ == timestamp_field(),
                field_names.len() == items.len(),
                forall|j: int| 0 <= j < items.len() ==> #[trigger] field_names[j] == items[j].name@,
                clause@ == seq!['s', 'e', 't', ' '] + fragment_list(
                    caller_fields(field_names.take(i as int)),
                ),
                names.wf(),
                forall|token: Seq<char>| #[trigger]
                    names@.contains_key(token) <==> is_name_placeholder(token) && mapping_of(
                        items.take(i as int),
                    ).contains_key(field_of(token)),
                forall|token: Seq<char>|
                    names@.contains_key(token) ==> (#[trigger] names@[token])@ == field_of(token),
            decreases items.len() - i,
        {
            let field = &rest[i].name;
            proof {
                lemma_take_step(items, i as int);
                assert(field_names.take(i + 1).drop_last() =~= field_names.take(i as int));
                assert(field_names.take(i + 1).last() == field_names[i as int]);
                lemma_placeholders(field@);
            }
            if *field != stamp_field {
                let piece = make_fragment(field);
                clause.append(piece.as_str());
                clause.append(", ");
                proof {
                    reveal_strlit(", ");
                    let before = caller_fields(field_names.take(i as int));
                    assert(caller_fields(field_names.take(i + 1)) == before.push(field@));
                    assert(before.push(field@).drop_last() =~= before);
                    assert(clause@ =~= seq!['s', 'e', 't', ' '] + fragment_list(
                        caller_fields(field_names.take(i + 1)),
                    ));
                }
            }
            names.set(make_name_placeholder(field), field.clone());
            i += 1;
        }
        assert(items.take(i as int) =~= items);
        assert(field_names.take(i as int) =~= field_names);
        assert(items.skip(i as int) =~= Seq::<Entry<V>>::empty());
        let stamp_piece = make_fragment(&stamp_field);
        clause.append(stamp_piece.as_str());
        proof {
            lemma_placeholders(timestamp_field());
        }
        names.set(make_name_placeholder(&stamp_field), stamp_field.clone());

        let mut values: FieldMap<V> = FieldMap::new();
        assert(values@ =~= caller_values(mapping_of(items.skip(i as int))));
        while rest.len() > 0
            invariant
                rest@ == items.take(rest.len() as int),
                rest.len() <= items.len(),
                distinct_names(items),
                stamp_field@ == timestamp_field(),
                values.wf(),
                values@ == caller_values(mapping_of(items.skip(rest.len() as int))),
            decreases rest.len(),
        {
            let ghost n = rest.len() as int;
            let entry = rest.pop().unwrap();
            proof {
                lemma_skip_step(items, n);
                lemma_placeholders(entry.name@);
                assert(rest@ =~= items.take(n - 1));
            }
            if entry.name != stamp_field {
                let token = make_value_placeholder(&entry.name);
                values.set(token, entry.value);
                assert(values@ =~= caller_values(mapping_of(items.skip(n - 1))));
            } else {
                assert(values@ =~= caller_values(mapping_of(items.skip(n - 1))));
            }
        }
        assert(items.skip(0) =~= items);
        values.set(make_value_placeholder(&stamp_field), stamp);
        UpdateStatement { clause, names, values }
    }
}

} // verus!
