//! JSON texts of strings.

use vstd::prelude::*;
use vstd::string::*;

use crate::error::AppError;
use crate::text::hex_char;

verus! {

/// How a character stands inside a JSON string: quotes and backslashes behind
/// a backslash, control characters by their short or numeric escape, and
/// everything else as it is.
pub open spec fn json_escape(c: char) -> Seq<char> {
    if c == '"' {
        seq!['\\', '"']
    } else if c == '\\' {
        seq!['\\', '\\']
    } else if c == '\u{8}' {
        seq!['\\', 'b']
    } else if c == '\t' {
        seq!['\\', 't']
    } else if c == '\n' {
        seq!['\\', 'n']
    } else if c == '\u{c}' {
        seq!['\\', 'f']
    } else if c == '\r' {
        seq!['\\', 'r']
    } else if (c as int) < 32 {
        seq!['\\', 'u', '0', '0', hex_char(c as int / 16), hex_char(c as int % 16)]
    } else {
        seq![c]
    }
}

/// The characters between the quotes of a JSON string.
pub open spec fn json_escapes(text: Seq<char>) -> Seq<char>
    decreases text.len(),
{
    if text.len() == 0 {
        Seq::empty()
    } else {
        json_escape(text[0]) + json_escapes(text.drop_first())
    }
}

/// The JSON string that stands for a text.
pub open spec fn json_string(text: Seq<char>) -> Seq<char> {
    seq!['"'] + json_escapes(text) + seq!['"']
}

/// `serde_json::to_string` on a string slice. It always succeeds, for it
/// writes to memory and a string is always representable, and it gives the
/// quoted and escaped string.
#[verifier::external_body]
fn to_json_string(text: &str) -> (json: Result<String, serde_json::Error>)
    ensures
        json is Ok,
        json->Ok_0@ == json_string(text@),
{
    serde_json::to_string(text)
}

/// The text that a JSON string stands for, if it is one.
pub uninterp spec fn parsed_json_string(json: Seq<char>) -> Option<Seq<char>>;

/// `serde_json::from_str` to a string. Whether it succeeds, and with which
/// text, depends on the argument alone; and it reads back the text of which
/// `serde_json::to_string` wrote the string.
#[verifier::external_body]
pub(crate) fn from_json_string(json: &str) -> (text: Option<String>)
    ensures
        match text {
            Some(text) => parsed_json_string(json@) == Some(text@),
            None => parsed_json_string(json@) is None,
        },
        forall|written: Seq<char>| #[trigger]
            json_string(written) == json@ ==> text is Some && text->Some_0@ == written,
{
    serde_json::from_str::<String>(json).ok()
}

/// Appends the JSON string of a text.
pub(crate) fn append_json(out: &mut String, text: &str) -> (done: Result<(), AppError>)
    ensures
        done is Ok,
        final(out)@ == old(out)@ + json_string(text@),
{
    match to_json_string(text) {
        Ok(json) => {
            out.append(json.as_str());
            Ok(())
        },
        Err(e) => Err(AppError::from(e)),
    }
}

proof fn lemma_json_escape_starts(c: char)
    ensures
        json_escape(c).len() > 0,
        json_escape(c)[0] != '"',
{
}

/// A character can be told from the start of any text that begins with its
/// escape.
proof fn lemma_json_escape_cancel(a: char, x: Seq<char>, b: char, y: Seq<char>)
    requires
        json_escape(a) + x == json_escape(b) + y,
    ensures
        a == b,
        x == y,
{
    let left = json_escape(a) + x;
    let right = json_escape(b) + y;
    assert(left[0] == json_escape(a)[0]);
    assert(right[0] == json_escape(b)[0]);
    if left[0] == '\\' {
        assert(left[1] == json_escape(a)[1]);
        assert(right[1] == json_escape(b)[1]);
        if left[1] == 'u' {
            assert(left[4] == json_escape(a)[4] && left[5] == json_escape(a)[5]);
            assert(right[4] == json_escape(b)[4] && right[5] == json_escape(b)[5]);
            assert(hex_char(a as int / 16) as int == 48 + a as int / 16);
            assert(hex_char(b as int / 16) as int == 48 + b as int / 16);
            assert(hex_char(a as int % 16) as int == if a as int % 16 < 10 {
                48 + a as int % 16
            } else {
                87 + a as int % 16
            });
            assert(hex_char(b as int % 16) as int == if b as int % 16 < 10 {
                48 + b as int % 16
            } else {
                87 + b as int % 16
            });
        }
    }
    assert(a == b);
    assert(x =~= left.skip(json_escape(a).len() as int));
    assert(y =~= right.skip(json_escape(b).len() as int));
}

proof fn lemma_json_escapes_cancel(a: Seq<char>, x: Seq<char>, b: Seq<char>, y: Seq<char>)
    requires
        json_escapes(a) + (seq!['"'] + x) == json_escapes(b) + (seq!['"'] + y),
    ensures
        a == b,
        x == y,
    decreases a.len(),
{
    let left = json_escapes(a) + (seq!['"'] + x);
    let right = json_escapes(b) + (seq!['"'] + y);
    if a.len() == 0 && b.len() == 0 {
        assert(x =~= left.skip(1));
        assert(y =~= right.skip(1));
        assert(a =~= b);
    } else if a.len() == 0 {
        lemma_json_escape_starts(b[0]);
        assert(left[0] == '"');
        assert(right[0] == json_escape(b[0])[0]);
    } else if b.len() == 0 {
        lemma_json_escape_starts(a[0]);
        assert(right[0] == '"');
        assert(left[0] == json_escape(a[0])[0]);
    } else {
        let rest_a = json_escapes(a.drop_first()) + (seq!['"'] + x);
        let rest_b = json_escapes(b.drop_first()) + (seq!['"'] + y);
        assert(left =~= json_escape(a[0]) + rest_a);
        assert(right =~= json_escape(b[0]) + rest_b);
        lemma_json_escape_cancel(a[0], rest_a, b[0], rest_b);
        lemma_json_escapes_cancel(a.drop_first(), x, b.drop_first(), y);
        assert(a =~= seq![a[0]] + a.drop_first());
        assert(b =~= seq![b[0]] + b.drop_first());
    }
}

/// A JSON string tells where it ends and which text it stands for, whatever
/// follows it.
pub proof fn law_json_string_cancel(a: Seq<char>, x: Seq<char>, b: Seq<char>, y: Seq<char>)
    requires
        json_string(a) + x == json_string(b) + y,
    ensures
        a == b,
        x == y,
{
    let left = json_string(a) + x;
    let right = json_string(b) + y;
    assert(left.skip(1) =~= json_escapes(a) + (seq!['"'] + x));
    assert(right.skip(1) =~= json_escapes(b) + (seq!['"'] + y));
    lemma_json_escapes_cancel(a, x, b, y);
}

}
