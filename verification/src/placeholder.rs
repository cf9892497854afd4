//! Placeholders: the tokens that stand for a field's name and for its new
//! value inside an update clause.

use vstd::prelude::*;
use vstd::string::StringExecFns;

verus! {

/// The token that stands for the name of `field`: `#`, the field, `_key`.
pub open spec fn name_placeholder(field: Seq<char>) -> Seq<char> {
    seq!['#'] + field + seq!['_', 'k', 'e', 'y']
}

/// The token that stands for the new value of `field`: `:`, the field, `_val`.
pub open spec fn value_placeholder(field: Seq<char>) -> Seq<char> {
    seq![':'] + field + seq!['_', 'v', 'a', 'l']
}

/// What lies between a placeholder's first character and its last four.
pub open spec fn field_of(placeholder: Seq<char>) -> Seq<char> {
    placeholder.subrange(1, placeholder.len() - 4)
}

/// `token` is the name placeholder of some field.
pub open spec fn is_name_placeholder(token: Seq<char>) -> bool {
    token.len() >= 5 && token == name_placeholder(field_of(token))
}

/// `token` is the value placeholder of some field.
pub open spec fn is_value_placeholder(token: Seq<char>) -> bool {
    token.len() >= 5 && token == value_placeholder(field_of(token))
}

/// The part of a clause that sets one field: its two placeholders around ` = `.
pub open spec fn fragment(field: Seq<char>) -> Seq<char> {
    name_placeholder(field) + seq![' ', '=', ' '] + value_placeholder(field)
}

/// A field can be read back from either of its placeholders, and the two
/// kinds of placeholder never coincide.
pub proof fn lemma_placeholders(field: Seq<char>)
    ensures
        is_name_placeholder(name_placeholder(field)),
        is_value_placeholder(value_placeholder(field)),
        field_of(name_placeholder(field)) == field,
        field_of(value_placeholder(field)) == field,
        name_placeholder(field)[0] == '#',
        value_placeholder(field)[0] == ':',
        !is_value_placeholder(name_placeholder(field)),
        !is_name_placeholder(value_placeholder(field)),
{
    assert(field_of(name_placeholder(field)) =~= field);
    assert(field_of(value_placeholder(field)) =~= field);
    let n = name_placeholder(field);
    let v = value_placeholder(field);
    assert(value_placeholder(field_of(n))[0] == ':');
    assert(name_placeholder(field_of(v))[0] == '#');
}

/// Builds the name placeholder of `field`.
pub fn make_name_placeholder(field: &String) -> (token: String)
    ensures
        token@ == name_placeholder(field@),
{
    let mut token = String::from_str("#");
    token.append(field.as_str());
    token.append("_key");
    proof {
        reveal_strlit("#");
        reveal_strlit("_key");
        assert(token@ =~= name_placeholder(field@));
    }
    token
}

/// Builds the value placeholder of `field`.
pub fn make_value_placeholder(field: &String) -> (token: String)
    ensures
        token@ == value_placeholder(field@),
{
    let mut token = String::from_str(":");
    token.append(field.as_str());
    token.append("_val");
    proof {
        reveal_strlit(":");
        reveal_strlit("_val");
        assert(token@ =~= value_placeholder(field@));
    }
    token
}

/// Builds the clause fragment that sets `field`.
pub fn make_fragment(field: &String) -> (text: String)
    ensures
        text@ == fragment(field@),
{
    let mut text = make_name_placeholder(field);
    let value = make_value_placeholder(field);
    text.append(" = ");
    text.append(value.as_str());
    proof {
        reveal_strlit(" = ");
        assert(text@ =~= fragment(field@));
    }
    text
}

} // verus!
