//! Reading the keys file as a store writes it.

use vstd::prelude::*;
use vstd::string::*;

use crate::json::{from_json_string, json_escape, json_escapes, json_string};
use crate::key_laws::{is_digit, lemma_decimal_digits};
use crate::keys::{
    key_list_text, key_models, key_text, keys_file_text, more_keys_text, KeyPair, KeyPairModel,
    KeysFile, KeysModel,
};
use crate::text::{decimal, digit_char, hex_char};

verus! {

/// The characters of a text.
fn characters(text: &str) -> (chars: Vec<char>)
    ensures
        chars@ == text@,
{
    let mut chars: Vec<char> = Vec::new();
    for c in it: text.chars()
        invariant
            it.seq() == text@,
            chars@ == text@.take(it.index()),
    {
        chars.push(c);
        assert(chars@ =~= text@.take(it.index() + 1));
    }
    assert(text@.take(text@.len() as int) =~= text@);
    chars
}

/// Reads a literal. If it stands at the position, before some rest, the
/// position of the rest comes back.
fn expect(chars: &Vec<char>, pos: usize, literal: &str, Ghost(rest): Ghost<Seq<char>>) -> (end:
    Option<usize>)
    requires
        pos <= chars.len(),
    ensures
        end is Some ==> pos + literal@.len() == end->Some_0 <= chars.len(),
        chars@.skip(pos as int) == literal@ + rest ==> end is Some && chars@.skip(
            end->Some_0 as int,
        ) == rest,
{
    let mut i: usize = pos;
    let ghost found = chars@.skip(pos as int) == literal@ + rest;
    for c in it: literal.chars()
        invariant
            it.seq() == literal@,
            pos <= i <= chars.len(),
            i == pos + it.index(),
            found == (chars@.skip(pos as int) == literal@ + rest),
    {
        proof {
            if found {
                assert(chars@.skip(pos as int).len() == literal@.len() + rest.len());
                assert((literal@ + rest)[it.index()] == c);
                assert(chars@.skip(pos as int)[it.index()] == chars@[i as int]);
            }
        }
        if i >= chars.len() || chars[i] != c {
            return None;
        }
        i = i + 1;
    }
    proof {
        if found {
            assert(chars@.skip(i as int) =~= chars@.skip(pos as int).skip(literal@.len() as int));
            assert((literal@ + rest).skip(literal@.len() as int) =~= rest);
        }
    }
    Some(i)
}

/// The number of the first digits of a decimal number.
spec fn leading(n: nat, digits: nat) -> nat
    decreases n,
{
    if digits >= decimal(n).len() {
        n
    } else if n < 10 {
        0
    } else {
        leading(n / 10, digits)
    }
}

proof fn lemma_leading(n: nat, digits: nat)
    requires
        digits < decimal(n).len(),
    ensures
        leading(n, digits + 1) == leading(n, digits) * 10 + (decimal(n)[digits as int] as int - 48),
        leading(n, digits + 1) <= n,
    decreases n,
{
    lemma_decimal_digits(n);
    if n < 10 {
        assert(decimal(n)[0] as int == 48 + n);
    } else {
        assert(digit_char((n % 10) as int) as int == 48 + n % 10);
        if digits + 1 == decimal(n).len() {
            assert(leading(n, digits) == leading(n / 10, digits));
        } else {
            lemma_leading(n / 10, digits);
        }
    }
}

/// Reads a decimal number. If it stands at the position, before some rest that
/// starts with no digit, it comes back with the position of the rest.
fn read_number(
    chars: &Vec<char>,
    pos: usize,
    Ghost(n): Ghost<nat>,
    Ghost(rest): Ghost<Seq<char>>,
) -> (read: Option<(u32, usize)>)
    requires
        pos <= chars.len(),
        n <= u32::MAX,
        rest.len() > 0 && !is_digit(rest[0]),
    ensures
        read is Some ==> read->Some_0.1 <= chars.len(),
        chars@.skip(pos as int) == decimal(n) + rest ==> read is Some && read->Some_0.0 == n
            && chars@.skip(read->Some_0.1 as int) == rest,
{
    let mut i: usize = pos;
    let mut value: u64 = 0;
    let ghost found = chars@.skip(pos as int) == decimal(n) + rest;
    proof {
        lemma_decimal_digits(n);
        lemma_leading_none(n);
    }
    while i < chars.len() && '0' <= chars[i] && chars[i] <= '9'
        invariant
            pos <= i <= chars.len(),
            value <= u32::MAX,
            n <= u32::MAX,
            rest.len() > 0 && !is_digit(rest[0]),
            found == (chars@.skip(pos as int) == decimal(n) + rest),
            found ==> i - pos <= decimal(n).len() && value == leading(n, (i - pos) as nat),
        decreases chars.len() - i,
    {
        proof {
            if found {
                assert(chars@.skip(pos as int)[i - pos] == chars@[i as int]);
                if i - pos < decimal(n).len() {
                    assert((decimal(n) + rest)[i - pos] == decimal(n)[i - pos]);
                    lemma_leading(n, (i - pos) as nat);
                } else {
                    assert((decimal(n) + rest)[i - pos] == rest[0]);
                }
            }
        }
        value = value * 10 + (chars[i] as u64 - 48);
        if value > 4_294_967_295 {
            return None;
        }
        i = i + 1;
    }
    proof {
        if found {
            let k = i - pos;
            assert(chars@.skip(pos as int).len() == decimal(n).len() + rest.len());
            if k < decimal(n).len() {
                lemma_decimal_digits(n);
                assert(chars@.skip(pos as int)[k] == chars@[i as int]);
                assert((decimal(n) + rest)[k] == decimal(n)[k]);
                assert(is_digit(decimal(n)[k]));
            }
            assert(chars@.skip(i as int) =~= chars@.skip(pos as int).skip(k));
            assert((decimal(n) + rest).skip(k) =~= rest);
        }
    }
    Some((value as u32, i))
}

proof fn lemma_leading_none(n: nat)
    ensures
        leading(n, 0) == 0,
    decreases n,
{
    lemma_decimal_digits(n);
    if n >= 10 {
        lemma_leading_none(n / 10);
    }
}

/// Whether no quote and no backslash is among some characters.
spec fn is_plain(text: Seq<char>) -> bool {
    forall|i: int| 0 <= i < text.len() ==> #[trigger] text[i] != '"' && text[i] != '\\'
}

/// What is left of a JSON string to the end of its text and beyond: some plain
/// characters, the escapes of more characters, the quote and a rest.
spec fn string_tail(plain: Seq<char>, more: Seq<char>, rest: Seq<char>) -> Seq<char> {
    plain + (json_escapes(more) + (seq!['"'] + rest))
}

/// Behind its backslash and the character after it, an escape is plain.
proof fn lemma_escape_tail(c: char)
    ensures
        json_escape(c).len() >= 1,
        json_escape(c)[0] == '\\' ==> json_escape(c).len() >= 2 && is_plain(
            json_escape(c).skip(2),
        ),
        json_escape(c)[0] != '\\' ==> json_escape(c).len() == 1,
{
    let n = c as int;
    if n < 32 {
        assert(hex_char(n / 16) as int == 48 + n / 16);
        assert(hex_char(n % 16) as int == if n % 16 < 10 {
            48 + n % 16
        } else {
            87 + n % 16
        });
    }
}

/// How far to go over the next character of a JSON string: two characters at a
/// backslash, and one otherwise. What is then left has the same form.
proof fn lemma_string_tail_step(plain: Seq<char>, more: Seq<char>, rest: Seq<char>) -> (left: (
    Seq<char>,
    Seq<char>,
))
    requires
        is_plain(plain),
        string_tail(plain, more, rest)[0] != '"',
    ensures
        is_plain(left.0),
        string_tail(plain, more, rest).len() > if string_tail(plain, more, rest)[0] == '\\' {
            2int
        } else {
            1
        },
        string_tail(plain, more, rest).skip(
            if string_tail(plain, more, rest)[0] == '\\' {
                2
            } else {
                1
            },
        ) == string_tail(left.0, left.1, rest),
{
    let tail = string_tail(plain, more, rest);
    if plain.len() > 0 {
        assert(tail[0] == plain[0]);
        let left = (plain.drop_first(), more);
        assert(tail.skip(1) =~= string_tail(left.0, left.1, rest));
        left
    } else if more.len() == 0 {
        assert(tail[0] == '"');
        (plain, more)
    } else {
        let escape = json_escape(more[0]);
        assert(tail =~= escape + (json_escapes(more.drop_first()) + (seq!['"'] + rest)));
        assert(tail[0] == escape[0]);
        let step: int = if escape[0] == '\\' {
            2
        } else {
            1
        };
        let left = (escape.skip(step), more.drop_first());
        lemma_escape_tail(more[0]);
        assert(tail.skip(step) =~= string_tail(left.0, left.1, rest));
        left
    }
}

/// Reads a JSON string. If the string of a text stands at the position, before
/// some rest, the text comes back with the position of the rest.
fn read_string(
    text: &str,
    chars: &Vec<char>,
    pos: usize,
    Ghost(written): Ghost<Seq<char>>,
    Ghost(rest): Ghost<Seq<char>>,
) -> (read: Option<(String, usize)>)
    requires
        chars@ == text@,
        pos <= chars.len(),
    ensures
        read is Some ==> pos <= read->Some_0.1 <= chars.len(),
        chars@.skip(pos as int) == json_string(written) + rest ==> read is Some
            && read->Some_0.0@ == written && chars@.skip(read->Some_0.1 as int) == rest,
{
    let ghost found = chars@.skip(pos as int) == json_string(written) + rest;
    let ghost mut plain = Seq::<char>::empty();
    let ghost mut more = written;
    if pos >= chars.len() {
        assert(!found) by {
            assert(chars@.skip(pos as int).len() == 0);
        }
        return None;
    }
    let mut i: usize = pos + 1;
    proof {
        if found {
            assert(chars@.skip(i as int) =~= chars@.skip(pos as int).skip(1));
            assert((json_string(written) + rest).skip(1) =~= string_tail(plain, more, rest));
        }
    }
    while i < chars.len() && chars[i] != '"'
        invariant
            pos < i <= chars.len(),
            is_plain(plain),
            found == (chars@.skip(pos as int) == json_string(written) + rest),
            found ==> chars@.skip(i as int) == string_tail(plain, more, rest),
        decreases chars.len() - i,
    {
        let ghost tail = chars@.skip(i as int);
        let escaped: bool = chars[i] == '\\';
        proof {
            assert(tail[0] == chars@[i as int]);
            if found {
                let left = lemma_string_tail_step(plain, more, rest);
                plain = left.0;
                more = left.1;
                assert(chars@.skip(i + 1) =~= tail.skip(1));
                if escaped {
                    assert(chars@.skip(i + 2) =~= tail.skip(2));
                }
            }
        }
        if escaped {
            if i + 1 >= chars.len() {
                return None;
            }
            i = i + 2;
        } else {
            i = i + 1;
        }
    }
    proof {
        if found {
            let tail = chars@.skip(i as int);
            assert(tail.len() > 0);
            assert(tail[0] == chars@[i as int]);
            lemma_string_tail_end(plain, more, rest);
            assert(chars@.skip(i + 1) =~= tail.skip(1));
            assert(tail.skip(1) =~= rest);
            assert(chars@.skip(pos as int).len() == json_string(written).len() + rest.len());
            assert(chars@.subrange(pos as int, i + 1) =~= chars@.skip(pos as int).take(
                json_string(written).len() as int,
            ));
            assert((json_string(written) + rest).take(json_string(written).len() as int)
                =~= json_string(written));
        }
    }
    if i >= chars.len() {
        return None;
    }
    match from_json_string(text.substring_char(pos, i + 1)) {
        Some(string) => Some((string, i + 1)),
        None => None,
    }
}

/// Where a quote stands, the text is at its end.
proof fn lemma_string_tail_end(plain: Seq<char>, more: Seq<char>, rest: Seq<char>)
    requires
        is_plain(plain),
        string_tail(plain, more, rest)[0] == '"',
    ensures
        string_tail(plain, more, rest) == seq!['"'] + rest,
{
    let tail = string_tail(plain, more, rest);
    if plain.len() > 0 {
        assert(tail[0] == plain[0]);
    } else if more.len() > 0 {
        assert(tail =~= json_escape(more[0]) + (json_escapes(more.drop_first()) + (seq!['"']
            + rest)));
        assert(tail[0] == json_escape(more[0])[0]);
    }
    assert(tail =~= seq!['"'] + rest);
}

/// Reads a key pair. If its object stands at the position, before some rest, the
/// pair comes back with the position of the rest.
fn read_key(
    text: &str,
    chars: &Vec<char>,
    pos: usize,
    Ghost(key): Ghost<KeyPairModel>,
    Ghost(rest): Ghost<Seq<char>>,
) -> (read: Option<(KeyPair, usize)>)
    requires
        chars@ == text@,
        pos <= chars.len(),
    ensures
        read is Some ==> pos <= read->Some_0.1 <= chars.len(),
        chars@.skip(pos as int) == key_text(key) + rest ==> read is Some && read->Some_0.0@ == key
            && chars@.skip(read->Some_0.1 as int) == rest,
{
    let ghost r8 = "\n    }"@ + rest;
    let ghost r7 = json_string(key.created_at) + r8;
    let ghost r6 = ",\n      \"created_at\": "@ + r7;
    let ghost r5 = json_string(key.cwd) + r6;
    let ghost r4 = ",\n      \"cwd\": "@ + r5;
    let ghost r3 = json_string(key.nsec) + r4;
    let ghost r2 = ",\n      \"nsec\": "@ + r3;
    let ghost r1 = json_string(key.npub) + r2;
    proof {
        assert(key_text(key) + rest =~= "    {\n      \"npub\": "@ + r1);
    }
    let pos = expect(chars, pos, "    {\n      \"npub\": ", Ghost(r1))?;
    let (npub, pos) = read_string(text, chars, pos, Ghost(key.npub), Ghost(r2))?;
    let pos = expect(chars, pos, ",\n      \"nsec\": ", Ghost(r3))?;
    let (nsec, pos) = read_string(text, chars, pos, Ghost(key.nsec), Ghost(r4))?;
    let pos = expect(chars, pos, ",\n      \"cwd\": ", Ghost(r5))?;
    let (cwd, pos) = read_string(text, chars, pos, Ghost(key.cwd), Ghost(r6))?;
    let pos = expect(chars, pos, ",\n      \"created_at\": ", Ghost(r7))?;
    let (created_at, pos) = read_string(text, chars, pos, Ghost(key.created_at), Ghost(r8))?;
    let pos = expect(chars, pos, "\n    }", Ghost(rest))?;
    Some((KeyPair { npub, nsec, cwd, created_at }, pos))
}

/// Reads the list of key pairs. If it stands at the position, before some rest,
/// the pairs come back with the position of the rest.
fn read_keys(
    text: &str,
    chars: &Vec<char>,
    start: usize,
    Ghost(list): Ghost<Seq<KeyPairModel>>,
    Ghost(rest): Ghost<Seq<char>>,
) -> (read: Option<(Vec<KeyPair>, usize)>)
    requires
        chars@ == text@,
        start <= chars.len(),
    ensures
        read is Some ==> read->Some_0.1 <= chars.len(),
        chars@.skip(start as int) == key_list_text(list) + rest ==> read is Some && key_models(
            read->Some_0.0@,
        ) == list && chars@.skip(read->Some_0.1 as int) == rest,
{
    let ghost found = chars@.skip(start as int) == key_list_text(list) + rest;
    let ghost first = key_text(list[0]) + (more_keys_text(list.drop_first()) + rest);
    let mut keys: Vec<KeyPair> = Vec::new();
    proof {
        reveal_strlit("[]");
        reveal_strlit("[\n");
        if found {
            assert(chars@.skip(start as int).len() == key_list_text(list).len() + rest.len());
            assert(chars@.skip(start as int)[1] == chars@[start + 1]);
            assert((key_list_text(list) + rest)[1] == key_list_text(list)[1]);
            if list.len() > 0 {
                assert(key_list_text(list) + rest =~= "[\n"@ + first);
            }
        }
    }
    if chars.len() - start >= 2 && chars[start + 1] == ']' {
        let pos = expect(chars, start, "[]", Ghost(rest))?;
        assert(found ==> key_models(keys@) =~= list);
        return Some((keys, pos));
    }
    let pos = expect(chars, start, "[\n", Ghost(first))?;
    let (key, pos) = read_key(
        text,
        chars,
        pos,
        Ghost(list[0]),
        Ghost(more_keys_text(list.drop_first()) + rest),
    )?;
    keys.push(key);
    let mut at: usize = pos;
    let ghost mut todo = list.drop_first();
    proof {
        if found {
            assert(key_models(keys@) + todo =~= list);
        }
    }
    while at < chars.len() && chars[at] == ','
        invariant
            chars@ == text@,
            at <= chars.len(),
            found == (chars@.skip(start as int) == key_list_text(list) + rest),
            found ==> chars@.skip(at as int) == more_keys_text(todo) + rest,
            found ==> key_models(keys@) + todo == list,
        decreases chars.len() - at,
    {
        let ghost left = more_keys_text(todo.drop_first()) + rest;
        proof {
            reveal_strlit(",\n");
            reveal_strlit("\n  ]");
            if found {
                assert(chars@.skip(at as int)[0] == chars@[at as int]);
                assert((more_keys_text(todo) + rest)[0] == more_keys_text(todo)[0]);
                assert(todo.len() > 0);
                assert(more_keys_text(todo) + rest =~= ",\n"@ + (key_text(todo[0]) + left));
            }
        }
        let pos = expect(chars, at, ",\n", Ghost(key_text(todo[0]) + left))?;
        let (key, pos) = read_key(text, chars, pos, Ghost(todo[0]), Ghost(left))?;
        let ghost before = key_models(keys@);
        keys.push(key);
        at = pos;
        proof {
            if found {
                assert(key_models(keys@) =~= before.push(todo[0]));
                assert(key_models(keys@) + todo.drop_first() =~= before + todo);
                todo = todo.drop_first();
            }
        }
    }
    proof {
        reveal_strlit(",\n");
        if found {
            if todo.len() > 0 {
                assert(chars@.skip(at as int)[0] == chars@[at as int]);
                assert((more_keys_text(todo) + rest)[0] == ',');
            }
            assert(key_models(keys@) =~= list);
        }
    }
    let end = expect(chars, at, "\n  ]", Ghost(rest))?;
    Some((keys, end))
}

impl KeysFile {
    /// Reads a keys file as a store writes it. Any other text is not read, even
    /// if it stands for the same keys.
    pub fn from_text(text: &str) -> (file: Option<Self>)
        ensures
            match file {
                Some(file) => keys_file_text(file@) == text@,
                None => forall|file: KeysModel| #[trigger] keys_file_text(file) != text@,
            },
    {
        let chars = characters(text);
        let ghost model = choose|model: KeysModel| #[trigger] keys_file_text(model) == text@;
        let ghost end = "\n}"@;
        let ghost list = key_list_text(model.keys) + end;
        let ghost after = ",\n  \"keys\": "@ + list;
        proof {
            reveal_strlit(",\n  \"keys\": ");
            assert(chars@.skip(0) =~= chars@);
            assert(after[0] == ',');
            assert(keys_file_text(model) =~= "{\n  \"version\": "@ + (decimal(model.version as nat)
                + after));
            assert(end + Seq::<char>::empty() =~= end);
        }
        let pos = expect(
            &chars,
            0,
            "{\n  \"version\": ",
            Ghost(decimal(model.version as nat) + after),
        )?;
        let (version, pos) = read_number(&chars, pos, Ghost(model.version as nat), Ghost(after))?;
        let pos = expect(&chars, pos, ",\n  \"keys\": ", Ghost(list))?;
        let (keys, _) = read_keys(text, &chars, pos, Ghost(model.keys), Ghost(end))?;
        let file = KeysFile { version, keys };
        match file.to_text() {
            Ok(own) => if own == text.to_owned() {
                Some(file)
            } else {
                None
            },
            Err(_) => None,
        }
    }
}

}
