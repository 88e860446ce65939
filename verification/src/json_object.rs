//! JSON objects: how they are written, and what their members are.

use vstd::prelude::*;

use crate::json::{json_escape, json_escapes, json_string, law_json_string_cancel};
use crate::text::lemma_prefix_cancel;

verus! {

/// A value of a member of an object.
pub enum JsonScalar {
    Text(Seq<char>),
    Flag(bool),
}

/// The JSON text of a value.
pub open spec fn scalar_text(value: JsonScalar) -> Seq<char> {
    match value {
        JsonScalar::Text(text) => json_string(text),
        JsonScalar::Flag(true) => seq!['t', 'r', 'u', 'e'],
        JsonScalar::Flag(false) => seq!['f', 'a', 'l', 's', 'e'],
    }
}

/// Members by their names and values, from the first to the closing brace: each
/// name with a colon and its value, and a comma between two members.
pub open spec fn members_text(members: Seq<(Seq<char>, JsonScalar)>) -> Seq<char>
    decreases members.len(),
{
    if members.len() == 0 {
        seq!['}']
    } else {
        json_string(members[0].0) + (seq![':'] + (scalar_text(members[0].1) + (
        if members.len() == 1 {
            seq!['}']
        } else {
            seq![','] + members_text(members.drop_first())
        })))
    }
}

/// The JSON object with some members, without any space.
pub open spec fn object_text(members: Seq<(Seq<char>, JsonScalar)>) -> Seq<char> {
    seq!['{'] + members_text(members)
}

/// The value of the first member with a name.
pub open spec fn member_of(
    members: Seq<(Seq<char>, JsonScalar)>,
    name: Seq<char>,
) -> Option<JsonScalar>
    decreases members.len(),
{
    if members.len() == 0 {
        None
    } else if members[0].0 == name {
        Some(members[0].1)
    } else {
        member_of(members.drop_first(), name)
    }
}

/// The value of the first member with a name in the object that a text is.
pub open spec fn json_member(text: Seq<char>, name: Seq<char>) -> Option<JsonScalar> {
    if exists|members: Seq<(Seq<char>, JsonScalar)>| #[trigger] object_text(members) == text {
        member_of(
            choose|members: Seq<(Seq<char>, JsonScalar)>| #[trigger] object_text(members) == text,
            name,
        )
    } else {
        None
    }
}

proof fn lemma_scalar_starts(value: JsonScalar)
    ensures
        scalar_text(value).len() > 0,
        match value {
            JsonScalar::Text(_) => scalar_text(value)[0] == '"',
            JsonScalar::Flag(true) => scalar_text(value)[0] == 't',
            JsonScalar::Flag(false) => scalar_text(value)[0] == 'f',
        },
{
}

proof fn lemma_scalar_cancel(a: JsonScalar, x: Seq<char>, b: JsonScalar, y: Seq<char>)
    requires
        scalar_text(a) + x == scalar_text(b) + y,
    ensures
        a == b,
        x == y,
{
    lemma_scalar_starts(a);
    lemma_scalar_starts(b);
    assert((scalar_text(a) + x)[0] == scalar_text(a)[0]);
    assert((scalar_text(b) + y)[0] == scalar_text(b)[0]);
    match (a, b) {
        (JsonScalar::Text(s), JsonScalar::Text(t)) => {
            law_json_string_cancel(s, x, t, y);
        },
        _ => {
            lemma_prefix_cancel(scalar_text(a), x, y);
        },
    }
}

proof fn lemma_members_text_injective(
    a: Seq<(Seq<char>, JsonScalar)>,
    b: Seq<(Seq<char>, JsonScalar)>,
)
    requires
        members_text(a) == members_text(b),
    ensures
        a == b,
    decreases a.len(),
{
    if a.len() == 0 || b.len() == 0 {
        if a.len() > 0 {
            assert(members_text(a)[0] == '"');
            assert(members_text(b)[0] == '}');
        }
        if b.len() > 0 {
            assert(members_text(b)[0] == '"');
            assert(members_text(a)[0] == '}');
        }
        assert(a =~= b);
    } else {
        let a2 = if a.len() == 1 {
            seq!['}']
        } else {
            seq![','] + members_text(a.drop_first())
        };
        let b2 = if b.len() == 1 {
            seq!['}']
        } else {
            seq![','] + members_text(b.drop_first())
        };
        let a1 = seq![':'] + (scalar_text(a[0].1) + a2);
        let b1 = seq![':'] + (scalar_text(b[0].1) + b2);
        law_json_string_cancel(a[0].0, a1, b[0].0, b1);
        lemma_prefix_cancel(seq![':'], scalar_text(a[0].1) + a2, scalar_text(b[0].1) + b2);
        lemma_scalar_cancel(a[0].1, a2, b[0].1, b2);
        assert(a2[0] == b2[0]);
        if a.len() > 1 {
            assert(a2[0] == ',');
            lemma_prefix_cancel(
                seq![','],
                members_text(a.drop_first()),
                members_text(b.drop_first()),
            );
            lemma_members_text_injective(a.drop_first(), b.drop_first());
        } else {
            assert(a.drop_first() =~= b.drop_first());
        }
        assert(a =~= seq![a[0]] + a.drop_first());
        assert(b =~= seq![b[0]] + b.drop_first());
    }
}

/// An object's text tells all its members: their names, their values and their
/// order.
pub proof fn law_object_text_injective(
    a: Seq<(Seq<char>, JsonScalar)>,
    b: Seq<(Seq<char>, JsonScalar)>,
)
    requires
        object_text(a) == object_text(b),
    ensures
        a == b,
{
    lemma_prefix_cancel(seq!['{'], members_text(a), members_text(b));
    lemma_members_text_injective(a, b);
}

/// The members of the object that was written are those that are read.
pub proof fn law_json_member_of_object(members: Seq<(Seq<char>, JsonScalar)>, name: Seq<char>)
    ensures
        json_member(object_text(members), name) == member_of(members, name),
{
    let text = object_text(members);
    let read = choose|read: Seq<(Seq<char>, JsonScalar)>| #[trigger] object_text(read) == text;
    law_object_text_injective(read, members);
}

/// Whether a text stands in a JSON string as it is.
pub open spec fn is_unescaped(text: Seq<char>) -> bool {
    forall|i: int|
        0 <= i < text.len() ==> (#[trigger] text[i]) as int >= 32 && text[i] != '"' && text[i]
            != '\\'
}

/// The JSON string of such a text is the text between quotes.
pub(crate) proof fn lemma_unescaped(text: Seq<char>)
    requires
        is_unescaped(text),
    ensures
        json_string(text) == seq!['"'] + text + seq!['"'],
    decreases text.len(),
{
    lemma_unescaped_inside(text);
}

proof fn lemma_unescaped_inside(text: Seq<char>)
    requires
        is_unescaped(text),
    ensures
        json_escapes(text) == text,
    decreases text.len(),
{
    if text.len() > 0 {
        let rest = text.drop_first();
        assert forall|i: int| 0 <= i < rest.len() implies (#[trigger] rest[i]) as int >= 32
            && rest[i] != '"' && rest[i] != '\\' by {
            assert(rest[i] == text[i + 1]);
        }
        lemma_unescaped_inside(rest);
        assert(json_escape(text[0]) == seq![text[0]]);
        assert(json_escapes(text) =~= text);
    } else {
        assert(json_escapes(text) =~= text);
    }
}

/// Two spaces for each level of depth.
pub open spec fn indent(depth: nat) -> Seq<char> {
    Seq::new(2 * depth, |i: int| ' ')
}

/// Texts on lines of their own at a depth, with commas between them.
pub open spec fn lines(depth: nat, items: Seq<Seq<char>>) -> Seq<char>
    decreases items.len(),
{
    if items.len() == 0 {
        Seq::empty()
    } else if items.len() == 1 {
        indent(depth) + items[0]
    } else {
        indent(depth) + items[0] + seq![',', '\n'] + lines(depth, items.drop_first())
    }
}

/// A member of an indented object, by its name and the text of its value.
pub open spec fn indented_member(name: Seq<char>, value: Seq<char>) -> Seq<char> {
    json_string(name) + seq![':', ' '] + value
}

/// An indented object at a depth, with its members on lines of their own.
pub open spec fn indented_object(depth: nat, members: Seq<Seq<char>>) -> Seq<char> {
    seq!['{', '\n'] + lines(depth + 1, members) + seq!['\n'] + indent(depth) + seq!['}']
}

/// An indented list at a depth, with its items on lines of their own.
pub open spec fn indented_list(depth: nat, items: Seq<Seq<char>>) -> Seq<char> {
    if items.len() == 0 {
        seq!['[', ']']
    } else {
        seq!['[', '\n'] + lines(depth + 1, items) + seq!['\n'] + indent(depth) + seq![']']
    }
}

}
