//! What holds of the key store over several requests, and of the keys file.

use vstd::prelude::*;

use crate::json::{json_string, law_json_string_cancel};
use crate::json_object::{
    indent, indented_list, indented_member, indented_object, lemma_unescaped, lines,
};
use crate::keys::{
    is_opened, key_for_cwd, key_for_npub, key_list_text, key_requested, key_text, keys_file_text,
    more_keys_text, KeyPairModel, KeysModel, StoredKeys,
};
use crate::nostr::public_keys_tell_apart;
use crate::text::{decimal, digit_char, lemma_prefix_cancel, lemma_suffix_cancel};

verus! {

proof fn lemma_key_for_cwd_push(keys: Seq<KeyPairModel>, pair: KeyPairModel, cwd: Seq<char>)
    ensures
        key_for_cwd(keys.push(pair), cwd) == match key_for_cwd(keys, cwd) {
            Some(earlier) => Some(earlier),
            None => if pair.cwd == cwd {
                Some(pair)
            } else {
                None
            },
        },
{
    assert(keys.push(pair).drop_last() =~= keys);
}

proof fn lemma_key_for_npub_push(keys: Seq<KeyPairModel>, pair: KeyPairModel, npub: Seq<char>)
    ensures
        key_for_npub(keys.push(pair), npub) == match key_for_npub(keys, npub) {
            Some(earlier) => Some(earlier),
            None => if pair.npub == npub {
                Some(pair)
            } else {
                None
            },
        },
{
    assert(keys.push(pair).drop_last() =~= keys);
}

proof fn lemma_key_for_cwd_none(keys: Seq<KeyPairModel>, cwd: Seq<char>, i: int)
    requires
        key_for_cwd(keys, cwd) is None,
        0 <= i < keys.len(),
    ensures
        keys[i].cwd != cwd,
    decreases keys.len(),
{
    if i < keys.len() - 1 {
        lemma_key_for_cwd_none(keys.drop_last(), cwd, i);
    }
}

proof fn lemma_key_for_cwd_some(keys: Seq<KeyPairModel>, cwd: Seq<char>)
    requires
        key_for_cwd(keys, cwd) is Some,
    ensures
        key_for_cwd(keys, cwd)->Some_0.cwd == cwd,
        keys.contains(key_for_cwd(keys, cwd)->Some_0),
    decreases keys.len(),
{
    if key_for_cwd(keys.drop_last(), cwd) is Some {
        lemma_key_for_cwd_some(keys.drop_last(), cwd);
        let found = key_for_cwd(keys, cwd)->Some_0;
        let i = choose|i: int| 0 <= i < keys.drop_last().len() && keys.drop_last()[i] == found;
        assert(keys[i] == found);
    } else {
        assert(keys[keys.len() - 1] == keys.last());
    }
}

/// The key of a directory is the first that belongs to it, and there is none
/// only if none belongs to it.
pub proof fn law_key_for_cwd_is_the_first(keys: Seq<KeyPairModel>, cwd: Seq<char>)
    ensures
        match key_for_cwd(keys, cwd) {
            Some(key) => exists|i: int|
                0 <= i < keys.len() && #[trigger] keys[i] == key && key.cwd == cwd && forall|j: int|
                    0 <= j < i ==> (#[trigger] keys[j]).cwd != cwd,
            None => forall|i: int| 0 <= i < keys.len() ==> (#[trigger] keys[i]).cwd != cwd,
        },
    decreases keys.len(),
{
    if keys.len() > 0 {
        let before = keys.drop_last();
        law_key_for_cwd_is_the_first(before, cwd);
        assert forall|j: int| 0 <= j < before.len() implies #[trigger] keys[j] == before[j] by {}
        match key_for_cwd(before, cwd) {
            Some(key) => {
                let i = choose|i: int|
                    0 <= i < before.len() && #[trigger] before[i] == key && key.cwd == cwd
                        && forall|j: int| 0 <= j < i ==> (#[trigger] before[j]).cwd != cwd;
                assert(keys[i] == key);
            },
            None => {
                assert(keys[keys.len() - 1] == keys.last());
            },
        }
    }
}

/// The pair of a public key text is the first that has it, and there is none
/// only if none has it.
pub proof fn law_key_for_npub_is_the_first(keys: Seq<KeyPairModel>, npub: Seq<char>)
    ensures
        match key_for_npub(keys, npub) {
            Some(key) => exists|i: int|
                0 <= i < keys.len() && #[trigger] keys[i] == key && key.npub == npub && forall|
                    j: int,
                |
                    0 <= j < i ==> (#[trigger] keys[j]).npub != npub,
            None => forall|i: int| 0 <= i < keys.len() ==> (#[trigger] keys[i]).npub != npub,
        },
    decreases keys.len(),
{
    if keys.len() > 0 {
        let before = keys.drop_last();
        law_key_for_npub_is_the_first(before, npub);
        assert forall|j: int| 0 <= j < before.len() implies #[trigger] keys[j] == before[j] by {}
        match key_for_npub(before, npub) {
            Some(key) => {
                let i = choose|i: int|
                    0 <= i < before.len() && #[trigger] before[i] == key && key.npub == npub
                        && forall|j: int| 0 <= j < i ==> (#[trigger] before[j]).npub != npub;
                assert(keys[i] == key);
            },
            None => {
                assert(keys[keys.len() - 1] == keys.last());
            },
        }
    }
}

/// A working directory keeps its key: asking again gives the same pair, leaves
/// the store as it is and gives no file to write.
pub proof fn law_same_cwd_same_key(
    first: KeysModel,
    cwd: Seq<char>,
    second: KeysModel,
    pair: KeyPairModel,
    file: Option<Seq<char>>,
    third: KeysModel,
    pair_again: KeyPairModel,
    file_again: Option<Seq<char>>,
)
    requires
        key_requested(first, cwd, second, pair, file),
        key_requested(second, cwd, third, pair_again, file_again),
    ensures
        pair_again == pair,
        third == second,
        file_again is None,
{
    lemma_key_for_cwd_push(first.keys, pair, cwd);
}

/// A pair that was handed out for a working directory is a pair of that
/// directory and one that the store holds.
pub proof fn law_requested_key_is_held(
    before: KeysModel,
    cwd: Seq<char>,
    after: KeysModel,
    pair: KeyPairModel,
    file: Option<Seq<char>>,
)
    requires
        key_requested(before, cwd, after, pair, file),
    ensures
        pair.cwd == cwd,
        key_for_cwd(after.keys, cwd) == Some(pair),
        after.keys.contains(pair),
{
    lemma_key_for_cwd_push(before.keys, pair, cwd);
    lemma_key_for_cwd_some(after.keys, cwd);
}

/// A request takes nothing away: the pairs that were there stay at their
/// places, other directories keep their keys or stay without one, and a public
/// key that was known still leads to the same pair.
pub proof fn law_keys_are_kept(
    before: KeysModel,
    cwd: Seq<char>,
    after: KeysModel,
    pair: KeyPairModel,
    file: Option<Seq<char>>,
)
    requires
        key_requested(before, cwd, after, pair, file),
    ensures
        before.keys.is_prefix_of(after.keys),
        after.keys.len() <= before.keys.len() + 1,
        after.version == before.version,
        forall|other: Seq<char>|
            other != cwd ==> #[trigger] key_for_cwd(after.keys, other) == key_for_cwd(
                before.keys,
                other,
            ),
        forall|npub: Seq<char>|
            key_for_npub(before.keys, npub) is Some ==> #[trigger] key_for_npub(after.keys, npub)
                == key_for_npub(before.keys, npub),
{
    if key_for_cwd(before.keys, cwd) is None {
        assert forall|other: Seq<char>| other != cwd implies #[trigger] key_for_cwd(
            after.keys,
            other,
        ) == key_for_cwd(before.keys, other) by {
            lemma_key_for_cwd_push(before.keys, pair, other);
        }
        assert forall|npub: Seq<char>|
            key_for_npub(before.keys, npub) is Some implies #[trigger] key_for_npub(
            after.keys,
            npub,
        ) == key_for_npub(before.keys, npub) by {
            lemma_key_for_npub_push(before.keys, pair, npub);
        }
    }
}

/// Whether no two pairs belong to the same working directory.
pub open spec fn one_key_per_cwd(keys: Seq<KeyPairModel>) -> bool {
    forall|i: int, j: int|
        0 <= i < j < keys.len() ==> (#[trigger] keys[i]).cwd != (#[trigger] keys[j]).cwd
}

/// A store with at most one key for each working directory stays such a store.
pub proof fn law_one_key_per_cwd(
    before: KeysModel,
    cwd: Seq<char>,
    after: KeysModel,
    pair: KeyPairModel,
    file: Option<Seq<char>>,
)
    requires
        one_key_per_cwd(before.keys),
        key_requested(before, cwd, after, pair, file),
    ensures
        one_key_per_cwd(after.keys),
{
    if key_for_cwd(before.keys, cwd) is None {
        assert forall|i: int| 0 <= i < before.keys.len() implies (
        #[trigger] before.keys[i]).cwd != cwd by {
            lemma_key_for_cwd_none(before.keys, cwd, i);
        }
    }
}

/// The secret key text of a newly made pair is found by its public key text,
/// unless the store already led from that public key text to another one.
pub proof fn law_nsec_of_new_key(
    before: KeysModel,
    cwd: Seq<char>,
    after: KeysModel,
    pair: KeyPairModel,
    file: Option<Seq<char>>,
)
    requires
        key_requested(before, cwd, after, pair, file),
        key_for_cwd(before.keys, cwd) is None,
        key_for_npub(before.keys, pair.npub) is Some ==> key_for_npub(
            before.keys,
            pair.npub,
        )->Some_0.nsec == pair.nsec,
    ensures
        key_for_npub(after.keys, pair.npub) is Some,
        key_for_npub(after.keys, pair.npub)->Some_0.nsec == pair.nsec,
{
    lemma_key_for_npub_push(before.keys, pair, pair.npub);
}

pub(crate) open spec fn is_digit(c: char) -> bool {
    48 <= c as int <= 57
}

pub(crate) proof fn lemma_decimal_digits(n: nat)
    ensures
        decimal(n).len() > 0,
        forall|i: int| 0 <= i < decimal(n).len() ==> is_digit(#[trigger] decimal(n)[i]),
    decreases n,
{
    if n >= 10 {
        lemma_decimal_digits(n / 10);
        assert(digit_char((n % 10) as int) as int == 48 + n % 10);
    } else {
        assert(digit_char(n as int) as int == 48 + n);
    }
}

proof fn lemma_decimal_injective(m: nat, n: nat)
    requires
        decimal(m) == decimal(n),
    ensures
        m == n,
    decreases m,
{
    lemma_decimal_digits(m / 10);
    lemma_decimal_digits(n / 10);
    assert(decimal(m).last() == digit_char((m % 10) as int));
    assert(decimal(n).last() == digit_char((n % 10) as int));
    assert(digit_char((m % 10) as int) as int == 48 + m % 10);
    assert(digit_char((n % 10) as int) as int == 48 + n % 10);
    if m >= 10 && n >= 10 {
        assert(decimal(m).drop_last() =~= decimal(m / 10));
        assert(decimal(n).drop_last() =~= decimal(n / 10));
        lemma_decimal_injective(m / 10, n / 10);
    }
}

/// A decimal number tells where it ends when no digit follows it.
proof fn lemma_decimal_cancel(m: nat, x: Seq<char>, n: nat, y: Seq<char>)
    requires
        decimal(m) + x == decimal(n) + y,
        x.len() > 0 && !is_digit(x[0]),
        y.len() > 0 && !is_digit(y[0]),
    ensures
        m == n,
        x == y,
{
    lemma_decimal_digits(m);
    lemma_decimal_digits(n);
    let left = decimal(m) + x;
    let right = decimal(n) + y;
    let m_len = decimal(m).len() as int;
    let n_len = decimal(n).len() as int;
    assert(left[m_len] == x[0]);
    assert(right[n_len] == y[0]);
    if m_len < n_len {
        assert(right[m_len] == decimal(n)[m_len]);
    }
    if n_len < m_len {
        assert(left[n_len] == decimal(m)[n_len]);
    }
    assert(decimal(m) =~= left.take(m_len));
    assert(decimal(n) =~= right.take(n_len));
    assert(x =~= left.skip(m_len));
    assert(y =~= right.skip(n_len));
    lemma_decimal_injective(m, n);
}

proof fn lemma_key_text_cancel(a: KeyPairModel, x: Seq<char>, b: KeyPairModel, y: Seq<char>)
    requires
        key_text(a) + x == key_text(b) + y,
    ensures
        a == b,
        x == y,
{
    let p1 = "    {\n      \"npub\": "@;
    let p2 = ",\n      \"nsec\": "@;
    let p3 = ",\n      \"cwd\": "@;
    let p4 = ",\n      \"created_at\": "@;
    let p5 = "\n    }"@;
    let (a4, b4) = (p5 + x, p5 + y);
    let (a3, b3) = (p4 + (json_string(a.created_at) + a4), p4 + (json_string(b.created_at) + b4));
    let (a2, b2) = (p3 + (json_string(a.cwd) + a3), p3 + (json_string(b.cwd) + b3));
    let (a1, b1) = (p2 + (json_string(a.nsec) + a2), p2 + (json_string(b.nsec) + b2));
    assert(key_text(a) + x =~= p1 + (json_string(a.npub) + a1));
    assert(key_text(b) + y =~= p1 + (json_string(b.npub) + b1));
    lemma_prefix_cancel(p1, json_string(a.npub) + a1, json_string(b.npub) + b1);
    law_json_string_cancel(a.npub, a1, b.npub, b1);
    lemma_prefix_cancel(p2, json_string(a.nsec) + a2, json_string(b.nsec) + b2);
    law_json_string_cancel(a.nsec, a2, b.nsec, b2);
    lemma_prefix_cancel(p3, json_string(a.cwd) + a3, json_string(b.cwd) + b3);
    law_json_string_cancel(a.cwd, a3, b.cwd, b3);
    lemma_prefix_cancel(p4, json_string(a.created_at) + a4, json_string(b.created_at) + b4);
    law_json_string_cancel(a.created_at, a4, b.created_at, b4);
    lemma_prefix_cancel(p5, x, y);
}

proof fn lemma_more_keys_injective(a: Seq<KeyPairModel>, b: Seq<KeyPairModel>)
    requires
        more_keys_text(a) == more_keys_text(b),
    ensures
        a == b,
    decreases a.len(),
{
    reveal_strlit("\n  ]");
    reveal_strlit(",\n");
    if a.len() == 0 || b.len() == 0 {
        if a.len() > 0 {
            assert(more_keys_text(a)[0] == ',');
            assert(more_keys_text(b)[0] == '\n');
        }
        if b.len() > 0 {
            assert(more_keys_text(b)[0] == ',');
            assert(more_keys_text(a)[0] == '\n');
        }
        assert(a =~= b);
    } else {
        let rest_a = more_keys_text(a.drop_first());
        let rest_b = more_keys_text(b.drop_first());
        lemma_prefix_cancel(",\n"@, key_text(a[0]) + rest_a, key_text(b[0]) + rest_b);
        lemma_key_text_cancel(a[0], rest_a, b[0], rest_b);
        lemma_more_keys_injective(a.drop_first(), b.drop_first());
        assert(a =~= seq![a[0]] + a.drop_first());
        assert(b =~= seq![b[0]] + b.drop_first());
    }
}

proof fn lemma_key_list_injective(a: Seq<KeyPairModel>, b: Seq<KeyPairModel>)
    requires
        key_list_text(a) == key_list_text(b),
    ensures
        a == b,
{
    reveal_strlit("[]");
    reveal_strlit("[\n");
    if a.len() == 0 || b.len() == 0 {
        if a.len() > 0 {
            assert(key_list_text(a)[1] == '\n');
            assert(key_list_text(b)[1] == ']');
        }
        if b.len() > 0 {
            assert(key_list_text(b)[1] == '\n');
            assert(key_list_text(a)[1] == ']');
        }
        assert(a =~= b);
    } else {
        let rest_a = more_keys_text(a.drop_first());
        let rest_b = more_keys_text(b.drop_first());
        lemma_prefix_cancel("[\n"@, key_text(a[0]) + rest_a, key_text(b[0]) + rest_b);
        lemma_key_text_cancel(a[0], rest_a, b[0], rest_b);
        lemma_more_keys_injective(a.drop_first(), b.drop_first());
        assert(a =~= seq![a[0]] + a.drop_first());
        assert(b =~= seq![b[0]] + b.drop_first());
    }
}

/// The keys file loses nothing: stores that write the same text hold the same
/// version and the same key pairs in the same order.
pub proof fn law_keys_file_text_injective(a: KeysModel, b: KeysModel)
    requires
        keys_file_text(a) == keys_file_text(b),
    ensures
        a == b,
{
    let p1 = "{\n  \"version\": "@;
    let p2 = ",\n  \"keys\": "@;
    let end = "\n}"@;
    reveal_strlit(",\n  \"keys\": ");
    let (a1, b1) = (p2 + (key_list_text(a.keys) + end), p2 + (key_list_text(b.keys) + end));
    lemma_prefix_cancel(p1, decimal(a.version as nat) + a1, decimal(b.version as nat) + b1);
    assert(a1[0] == ',' && b1[0] == ',');
    lemma_decimal_cancel(a.version as nat, a1, b.version as nat, b1);
    lemma_prefix_cancel(p2, key_list_text(a.keys) + end, key_list_text(b.keys) + end);
    lemma_suffix_cancel(key_list_text(a.keys), key_list_text(b.keys), end);
    lemma_key_list_injective(a.keys, b.keys);
}

/// What stands before the values of a key pair, and behind the last.
proof fn lemma_key_literals()
    ensures
        "    {\n      \"npub\": "@ == indent(2) + (seq!['{', '\n'] + (indent(3) + (json_string("npub"@)
            + seq![':', ' ']))),
        ",\n      \"nsec\": "@ == seq![',', '\n'] + (indent(3) + (json_string("nsec"@) + seq![
            ':',
            ' ',
        ])),
        ",\n      \"cwd\": "@ == seq![',', '\n'] + (indent(3) + (json_string("cwd"@) + seq![
            ':',
            ' ',
        ])),
        ",\n      \"created_at\": "@ == seq![',', '\n'] + (indent(3) + (json_string("created_at"@)
            + seq![':', ' '])),
        "\n    }"@ == seq!['\n'] + (indent(2) + seq!['}']),
{
    reveal_strlit("npub");
    reveal_strlit("nsec");
    reveal_strlit("cwd");
    reveal_strlit("created_at");
    reveal_strlit("    {\n      \"npub\": ");
    reveal_strlit(",\n      \"nsec\": ");
    reveal_strlit(",\n      \"cwd\": ");
    reveal_strlit(",\n      \"created_at\": ");
    reveal_strlit("\n    }");
    lemma_unescaped("npub"@);
    lemma_unescaped("nsec"@);
    lemma_unescaped("cwd"@);
    lemma_unescaped("created_at"@);
    assert("    {\n      \"npub\": "@ =~= indent(2) + (seq!['{', '\n'] + (indent(3) + (json_string(
        "npub"@,
    ) + seq![':', ' ']))));
    assert(",\n      \"nsec\": "@ =~= seq![',', '\n'] + (indent(3) + (json_string("nsec"@) + seq![
        ':',
        ' ',
    ])));
    assert(",\n      \"cwd\": "@ =~= seq![',', '\n'] + (indent(3) + (json_string("cwd"@) + seq![
        ':',
        ' ',
    ])));
    assert(",\n      \"created_at\": "@ =~= seq![',', '\n'] + (indent(3) + (json_string(
        "created_at"@,
    ) + seq![':', ' '])));
    assert("\n    }"@ =~= seq!['\n'] + (indent(2) + seq!['}']));
}

/// The first line of some, the others behind it.
proof fn lemma_first_line(depth: nat, item: Seq<char>, rest: Seq<Seq<char>>)
    requires
        rest.len() > 0,
    ensures
        lines(depth, seq![item] + rest) == indent(depth) + (item + (seq![',', '\n'] + lines(
            depth,
            rest,
        ))),
{
    assert((seq![item] + rest).drop_first() =~= rest);
    assert(lines(depth, seq![item] + rest) =~= indent(depth) + (item + (seq![',', '\n'] + lines(
        depth,
        rest,
    ))));
}

/// Lines at depth three of which the first is a member, between a start and an
/// end: what stands before the value, the value, and what follows it.
proof fn lemma_member_line(
    before: Seq<char>,
    start: Seq<char>,
    name: Seq<char>,
    value: Seq<char>,
    rest: Seq<Seq<char>>,
    end: Seq<char>,
)
    requires
        before == start + (indent(3) + (json_string(name) + seq![':', ' '])),
    ensures
        start + lines(3, seq![indented_member(name, value)] + rest) + end == before + (value + (
        if rest.len() == 0 {
            end
        } else {
            seq![',', '\n'] + lines(3, rest) + end
        })),
{
    let member = indented_member(name, value);
    let follows = if rest.len() == 0 {
        end
    } else {
        seq![',', '\n'] + lines(3, rest) + end
    };
    if rest.len() > 0 {
        lemma_first_line(3, member, rest);
    }
    assert(start + lines(3, seq![member] + rest) + end =~= start + (indent(3) + (member
        + follows)));
    assert(start + (indent(3) + (member + follows)) =~= before + (value + follows));
}

/// The JSON object of a key pair at depth two: its members are the public key,
/// the secret key, the directory and the time, each under its name.
proof fn lemma_key_text_is_object(key: KeyPairModel)
    ensures
        key_text(key) == indent(2) + indented_object(
            2,
            seq![
                indented_member("npub"@, json_string(key.npub)),
                indented_member("nsec"@, json_string(key.nsec)),
                indented_member("cwd"@, json_string(key.cwd)),
                indented_member("created_at"@, json_string(key.created_at)),
            ],
        ),
{
    lemma_key_literals();
    let m1 = indented_member("npub"@, json_string(key.npub));
    let m2 = indented_member("nsec"@, json_string(key.nsec));
    let m3 = indented_member("cwd"@, json_string(key.cwd));
    let m4 = indented_member("created_at"@, json_string(key.created_at));
    let none = Seq::<Seq<char>>::empty();
    let i4 = seq![m4] + none;
    let i3 = seq![m3] + i4;
    let i2 = seq![m2] + i3;
    let i1 = seq![m1] + i2;
    let comma = seq![',', '\n'];
    let end = "\n    }"@;
    let start = indent(2) + seq!['{', '\n'];
    assert("    {\n      \"npub\": "@ =~= start + (indent(3) + (json_string("npub"@) + seq![
        ':',
        ' ',
    ])));
    let (p1, p2) = ("    {\n      \"npub\": "@, ",\n      \"nsec\": "@);
    let (p3, p4) = (",\n      \"cwd\": "@, ",\n      \"created_at\": "@);
    lemma_member_line(p4, comma, "created_at"@, json_string(key.created_at), none, end);
    lemma_member_line(p3, comma, "cwd"@, json_string(key.cwd), i4, end);
    lemma_member_line(p2, comma, "nsec"@, json_string(key.nsec), i3, end);
    lemma_member_line(p1, start, "npub"@, json_string(key.npub), i2, end);
    assert(i1 =~= seq![m1, m2, m3, m4]);
    lemma_object_around(i1);
}

proof fn lemma_object_around(members: Seq<Seq<char>>)
    ensures
        indent(2) + indented_object(2, members) == indent(2) + seq!['{', '\n'] + lines(3, members) + (
        seq!['\n'] + (indent(2) + seq!['}'])),
{
    assert(indent(2) + indented_object(2, members) =~= indent(2) + seq!['{', '\n'] + lines(
        3,
        members,
    ) + (seq!['\n'] + (indent(2) + seq!['}'])));
}

proof fn lemma_key_lines(keys: Seq<KeyPairModel>, items: Seq<Seq<char>>)
    requires
        keys.len() > 0,
        items.len() == keys.len(),
        forall|i: int|
            0 <= i < keys.len() ==> key_text(keys[i]) == indent(2) + #[trigger] items[i],
    ensures
        key_text(keys[0]) + more_keys_text(keys.drop_first()) == lines(2, items) + "\n  ]"@,
    decreases keys.len(),
{
    reveal_strlit(",\n");
    assert(",\n"@ =~= seq![',', '\n']);
    assert(key_text(keys[0]) == indent(2) + items[0]);
    let rest = keys.drop_first();
    if keys.len() > 1 {
        assert forall|i: int| 0 <= i < rest.len() implies key_text(rest[i]) == indent(2)
            + #[trigger] items.drop_first()[i] by {
            assert(items.drop_first()[i] == items[i + 1]);
        }
        lemma_key_lines(rest, items.drop_first());
        assert(key_text(keys[0]) + more_keys_text(rest) =~= key_text(keys[0]) + (",\n"@ + (lines(
            2,
            items.drop_first(),
        ) + "\n  ]"@)));
        assert(lines(2, items) + "\n  ]"@ =~= key_text(keys[0]) + (",\n"@ + (lines(
            2,
            items.drop_first(),
        ) + "\n  ]"@)));
    }
}

/// What stands before the values of the keys file, and around the list.
proof fn lemma_file_literals()
    ensures
        "{\n  \"version\": "@ == seq!['{', '\n'] + (indent(1) + (json_string("version"@) + seq![
            ':',
            ' ',
        ])),
        ",\n  \"keys\": "@ == seq![',', '\n'] + (indent(1) + (json_string("keys"@) + seq![':', ' '])),
        "\n}"@ == seq!['\n'] + (indent(0) + seq!['}']),
        "[]"@ == seq!['[', ']'],
        "[\n"@ == seq!['[', '\n'],
        "\n  ]"@ == seq!['\n'] + (indent(1) + seq![']']),
{
    reveal_strlit("version");
    reveal_strlit("keys");
    reveal_strlit("{\n  \"version\": ");
    reveal_strlit(",\n  \"keys\": ");
    reveal_strlit("\n}");
    reveal_strlit("[]");
    reveal_strlit("[\n");
    reveal_strlit("\n  ]");
    lemma_unescaped("version"@);
    lemma_unescaped("keys"@);
    assert("{\n  \"version\": "@ =~= seq!['{', '\n'] + (indent(1) + (json_string("version"@) + seq![
        ':',
        ' ',
    ])));
    assert(",\n  \"keys\": "@ =~= seq![',', '\n'] + (indent(1) + (json_string("keys"@) + seq![
        ':',
        ' ',
    ])));
    assert("\n}"@ =~= seq!['\n'] + (indent(0) + seq!['}']));
    assert("[]"@ =~= seq!['[', ']']);
    assert("[\n"@ =~= seq!['[', '\n']);
    assert("\n  ]"@ =~= seq!['\n'] + (indent(1) + seq![']']));
}

proof fn lemma_key_list_is_list(keys: Seq<KeyPairModel>, items: Seq<Seq<char>>)
    requires
        items.len() == keys.len(),
        forall|i: int|
            0 <= i < keys.len() ==> key_text(keys[i]) == indent(2) + #[trigger] items[i],
    ensures
        key_list_text(keys) == indented_list(1, items),
{
    lemma_file_literals();
    if keys.len() > 0 {
        lemma_key_lines(keys, items);
        assert(key_list_text(keys) =~= indented_list(1, items));
    }
}

proof fn lemma_file_is_object(version: Seq<char>, list: Seq<char>)
    ensures
        "{\n  \"version\": "@ + (version + (",\n  \"keys\": "@ + (list + "\n}"@)))
            == indented_object(
            0,
            seq![indented_member("version"@, version), indented_member("keys"@, list)],
        ),
{
    lemma_file_literals();
    let (colon, comma, brace) = (seq![':', ' '], seq![',', '\n'], seq!['{', '\n']);
    let m1 = indented_member("version"@, version);
    let m2 = indented_member("keys"@, list);
    let (p1, p2, end) = ("{\n  \"version\": "@, ",\n  \"keys\": "@, "\n}"@);
    lemma_first_line(1, m1, seq![m2]);
    assert(seq![m1] + seq![m2] =~= seq![m1, m2]);
    assert(lines(1, seq![m2]) == indent(1) + m2);
    assert(comma + (indent(1) + m2) =~= p2 + list);
    assert(brace + (indent(1) + (m1 + (p2 + list))) =~= p1 + (version + (p2 + list)));
    assert(indented_object(0, seq![m1, m2]) =~= brace + lines(1, seq![m1, m2]) + end);
    assert(p1 + (version + (p2 + (list + end))) =~= p1 + (version + (p2 + list)) + end);
}

/// The keys file is an indented JSON object: its members are the version and
/// the list of the pairs in their order, and the members of each pair are its
/// public key, its secret key, its directory and its time, each under its name.
pub proof fn law_keys_file_members(file: KeysModel)
    ensures
        keys_file_text(file) == indented_object(
            0,
            seq![
                indented_member("version"@, decimal(file.version as nat)),
                indented_member(
                    "keys"@,
                    indented_list(
                        1,
                        file.keys.map_values(
                            |key: KeyPairModel|
                                indented_object(
                                    2,
                                    seq![
                                        indented_member("npub"@, json_string(key.npub)),
                                        indented_member("nsec"@, json_string(key.nsec)),
                                        indented_member("cwd"@, json_string(key.cwd)),
                                        indented_member("created_at"@, json_string(key.created_at)),
                                    ],
                                ),
                        ),
                    ),
                ),
            ],
        ),
{
    let items = file.keys.map_values(
        |key: KeyPairModel|
            indented_object(
                2,
                seq![
                    indented_member("npub"@, json_string(key.npub)),
                    indented_member("nsec"@, json_string(key.nsec)),
                    indented_member("cwd"@, json_string(key.cwd)),
                    indented_member("created_at"@, json_string(key.created_at)),
                ],
            ),
    );
    assert forall|i: int| 0 <= i < file.keys.len() implies key_text(file.keys[i]) == indent(2)
        + #[trigger] items[i] by {
        lemma_key_text_is_object(file.keys[i]);
    }
    lemma_key_list_is_list(file.keys, items);
    lemma_file_is_object(decimal(file.version as nat), indented_list(1, items));
}

/// Whether a store went through some states by requests for keys: each request
/// for a directory, with the pair that was handed out and the file to write, if
/// there was one, led from one state to the next.
pub open spec fn are_requests(
    states: Seq<KeysModel>,
    cwds: Seq<Seq<char>>,
    pairs: Seq<KeyPairModel>,
    files: Seq<Option<Seq<char>>>,
) -> bool {
    &&& states.len() == files.len() + 1
    &&& cwds.len() == files.len()
    &&& pairs.len() == files.len()
    &&& forall|i: int|
        0 <= i < files.len() ==> key_requested(
            states[i],
            cwds[i],
            states[i + 1],
            pairs[i],
            #[trigger] files[i],
        )
}

/// Over any series of requests on a store without keys, different directories
/// get different keys: no two pairs have the same directory, the same secret
/// key text or the same public key text.
pub proof fn law_directories_have_keys_of_their_own(
    states: Seq<KeysModel>,
    cwds: Seq<Seq<char>>,
    pairs: Seq<KeyPairModel>,
    files: Seq<Option<Seq<char>>>,
    i: int,
    j: int,
)
    requires
        are_requests(states, cwds, pairs, files),
        states[0].keys.len() == 0,
        0 <= i < j < states.last().keys.len(),
    ensures
        states.last().keys[i].cwd != states.last().keys[j].cwd,
        states.last().keys[i].nsec != states.last().keys[j].nsec,
        public_keys_tell_apart() ==> states.last().keys[i].npub != states.last().keys[j].npub,
{
    lemma_keys_differ(states, cwds, pairs, files, files.len() as int, i, j);
}

proof fn lemma_keys_differ(
    states: Seq<KeysModel>,
    cwds: Seq<Seq<char>>,
    pairs: Seq<KeyPairModel>,
    files: Seq<Option<Seq<char>>>,
    n: int,
    i: int,
    j: int,
)
    requires
        are_requests(states, cwds, pairs, files),
        states[0].keys.len() == 0,
        0 <= n < states.len(),
        0 <= i < j < states[n].keys.len(),
    ensures
        states[n].keys[i].cwd != states[n].keys[j].cwd,
        states[n].keys[i].nsec != states[n].keys[j].nsec,
        public_keys_tell_apart() ==> states[n].keys[i].npub != states[n].keys[j].npub,
    decreases n,
{
    let before = states[n - 1];
    assert(key_requested(before, cwds[n - 1], states[n], pairs[n - 1], files[n - 1]));
    if j < before.keys.len() {
        lemma_keys_differ(states, cwds, pairs, files, n - 1, i, j);
        assert(states[n].keys[i] == before.keys[i]);
        assert(states[n].keys[j] == before.keys[j]);
    } else {
        assert(key_for_cwd(before.keys, cwds[n - 1]) is None);
        lemma_key_for_cwd_none(before.keys, cwds[n - 1], i);
        assert(states[n].keys[i] == before.keys[i]);
        assert(states[n].keys[j] == pairs[n - 1]);
    }
}

/// The last file that was to be written holds the keys that the store has now:
/// requests after it made no key.
pub proof fn law_last_file_is_current(
    states: Seq<KeysModel>,
    cwds: Seq<Seq<char>>,
    pairs: Seq<KeyPairModel>,
    files: Seq<Option<Seq<char>>>,
    last: int,
)
    requires
        are_requests(states, cwds, pairs, files),
        0 <= last < files.len(),
        files[last] is Some,
        forall|i: int| last < i < files.len() ==> (#[trigger] files[i]) is None,
    ensures
        files[last] == Some(keys_file_text(states.last())),
{
    lemma_state_stays(states, cwds, pairs, files, last, files.len() as int);
}

proof fn lemma_state_stays(
    states: Seq<KeysModel>,
    cwds: Seq<Seq<char>>,
    pairs: Seq<KeyPairModel>,
    files: Seq<Option<Seq<char>>>,
    last: int,
    n: int,
)
    requires
        are_requests(states, cwds, pairs, files),
        0 <= last < n <= files.len(),
        files[last] is Some,
        forall|i: int| last < i < n ==> (#[trigger] files[i]) is None,
    ensures
        files[last] == Some(keys_file_text(states[n])),
    decreases n,
{
    if n > last + 1 {
        lemma_state_stays(states, cwds, pairs, files, last, n - 1);
        assert(files[n - 1] is None);
    }
}

/// What was written is read back: a store that is opened on the last file that
/// another store had to write holds the same version and the same pairs as that
/// store, with all their texts and in the same order, whatever a JSON parser
/// makes of the file.
pub proof fn law_reopened_store_holds_the_same_keys(
    states: Seq<KeysModel>,
    cwds: Seq<Seq<char>>,
    pairs: Seq<KeyPairModel>,
    files: Seq<Option<Seq<char>>>,
    last: int,
    stored: StoredKeys,
    reopened: KeysModel,
)
    requires
        are_requests(states, cwds, pairs, files),
        0 <= last < files.len(),
        files[last] is Some,
        forall|i: int| last < i < files.len() ==> (#[trigger] files[i]) is None,
        stored is Found,
        files[last] == Some(stored->text@),
        is_opened(reopened, stored),
    ensures
        reopened == states.last(),
{
    law_last_file_is_current(states, cwds, pairs, files, last);
    law_keys_file_text_injective(reopened, states.last());
}

/// A key outlives the store that made it: a store that is opened on the file
/// that was to be written with the key gives the same key for the directory,
/// and makes no new one.
pub proof fn law_key_survives_reopening(
    before: KeysModel,
    cwd: Seq<char>,
    after: KeysModel,
    pair: KeyPairModel,
    stored: StoredKeys,
    reopened: KeysModel,
    later: KeysModel,
    pair_again: KeyPairModel,
    file_again: Option<Seq<char>>,
)
    requires
        stored is Found,
        key_requested(before, cwd, after, pair, Some(stored->text@)),
        is_opened(reopened, stored),
        key_requested(reopened, cwd, later, pair_again, file_again),
    ensures
        reopened == after,
        pair_again == pair,
        later == reopened,
        file_again is None,
{
    law_keys_file_text_injective(reopened, after);
    law_same_cwd_same_key(
        before,
        cwd,
        after,
        pair,
        Some(stored->text@),
        later,
        pair_again,
        file_again,
    );
}

}
