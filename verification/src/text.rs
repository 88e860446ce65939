//! Plain text building blocks: decimal numbers, hexadecimal bytes and
//! comma-separated lists.

use vstd::prelude::*;
use vstd::string::*;

verus! {

/// The character of a decimal digit.
pub open spec fn digit_char(digit: int) -> char {
    (48 + digit) as char
}

/// The decimal text of a number, without leading zeros.
pub open spec fn decimal(n: nat) -> Seq<char>
    decreases n,
{
    if n < 10 {
        seq![digit_char(n as int)]
    } else {
        decimal(n / 10).push(digit_char((n % 10) as int))
    }
}

fn digit_text(digit: u64) -> (text: &'static str)
    requires
        digit < 10,
    ensures
        text@ == seq![digit_char(digit as int)],
{
    proof {
        reveal_strlit("0");
        reveal_strlit("1");
        reveal_strlit("2");
        reveal_strlit("3");
        reveal_strlit("4");
        reveal_strlit("5");
        reveal_strlit("6");
        reveal_strlit("7");
        reveal_strlit("8");
        reveal_strlit("9");
    }
    match digit {
        0 => "0",
        1 => "1",
        2 => "2",
        3 => "3",
        4 => "4",
        5 => "5",
        6 => "6",
        7 => "7",
        8 => "8",
        _ => "9",
    }
}

/// Writes a number in decimal.
pub fn decimal_text(n: u64) -> (text: String)
    ensures
        text@ == decimal(n as nat),
    decreases n,
{
    if n < 10 {
        digit_text(n).to_owned()
    } else {
        let mut text = decimal_text(n / 10);
        text.append(digit_text(n % 10));
        proof {
            assert(decimal((n / 10) as nat).push(digit_char((n % 10) as int)) =~= decimal(
                (n / 10) as nat,
            ) + seq![digit_char((n % 10) as int)]);
        }
        text
    }
}

/// The pieces of a text between its commas. A text without a comma is one
/// piece; two adjacent commas hold an empty piece.
pub open spec fn comma_pieces(text: Seq<char>) -> Seq<Seq<char>>
    decreases text.len(),
{
    if text.len() == 0 {
        seq![Seq::empty()]
    } else {
        let before = comma_pieces(text.drop_last());
        if text.last() == ',' {
            before.push(Seq::empty())
        } else {
            before.update(before.len() - 1, before.last().push(text.last()))
        }
    }
}

/// The texts of a list of strings.
pub open spec fn texts(list: Seq<String>) -> Seq<Seq<char>> {
    list.map_values(|s: String| s@)
}

/// Splits a text at its commas.
pub fn split_commas(text: &str) -> (pieces: Vec<String>)
    ensures
        texts(pieces@) == comma_pieces(text@),
{
    let mut pieces: Vec<String> = Vec::new();
    let mut start: usize = 0;
    let mut i: usize = 0;
    let total: usize = text.unicode_len();
    proof {
        assert(text@.take(0) =~= Seq::<char>::empty());
        assert(texts(pieces@).push(text@.subrange(0, 0)) =~= seq![Seq::<char>::empty()]);
    }
    for c in it: text.chars()
        invariant
            total == text@.len(),
            it.seq() == text@,
            i == it.index(),
            start <= i <= total,
            texts(pieces@).push(text@.subrange(start as int, i as int)) == comma_pieces(
                text@.take(i as int),
            ),
    {
        let ghost done = texts(pieces@);
        let ghost piece = text@.subrange(start as int, i as int);
        proof {
            assert(text@.take(i + 1).drop_last() =~= text@.take(i as int));
            assert(text@.take(i + 1).last() == c);
        }
        if c == ',' {
            pieces.push(text.substring_char(start, i).to_owned());
            start = i + 1;
            proof {
                assert(texts(pieces@) =~= done.push(piece));
                assert(text@.subrange(start as int, i + 1) =~= Seq::<char>::empty());
            }
        } else {
            proof {
                assert(text@.subrange(start as int, i + 1) =~= piece.push(c));
                assert(done.push(piece).update(done.len() as int, piece.push(c)) =~= done.push(
                    piece.push(c),
                ));
            }
        }
        i = i + 1;
    }
    let ghost done = texts(pieces@);
    pieces.push(text.substring_char(start, total).to_owned());
    proof {
        assert(text@.take(total as int) =~= text@);
        assert(texts(pieces@) =~= done.push(text@.subrange(start as int, total as int)));
    }
    pieces
}

/// Pieces written one after the other with a comma between them.
pub open spec fn comma_joined(pieces: Seq<Seq<char>>) -> Seq<char>
    decreases pieces.len(),
{
    if pieces.len() == 0 {
        Seq::empty()
    } else if pieces.len() == 1 {
        pieces[0]
    } else {
        comma_joined(pieces.drop_last()).push(',') + pieces.last()
    }
}

/// Splitting at commas loses nothing: there is at least one piece, no piece
/// holds a comma, and the pieces joined by commas are the text again.
pub proof fn law_comma_pieces(text: Seq<char>)
    ensures
        comma_pieces(text).len() > 0,
        forall|i: int, j: int|
            0 <= i < comma_pieces(text).len() && 0 <= j < comma_pieces(text)[i].len()
                ==> #[trigger] comma_pieces(text)[i][j] != ',',
        comma_joined(comma_pieces(text)) == text,
    decreases text.len(),
{
    if text.len() > 0 {
        let before = comma_pieces(text.drop_last());
        law_comma_pieces(text.drop_last());
        let pieces = comma_pieces(text);
        let last = before.len() - 1;
        if text.last() == ',' {
            assert(pieces.drop_last() =~= before);
            assert(comma_joined(pieces) =~= text.drop_last().push(','));
        } else {
            assert(pieces.drop_last() =~= before.drop_last());
            assert(pieces.last() == before[last].push(text.last()));
            if pieces.len() == 1 {
                assert(comma_joined(before) == before[0]);
                assert(pieces[0] =~= text);
            } else {
                assert(comma_joined(pieces) =~= comma_joined(before).push(text.last()));
            }
        }
        assert(text.drop_last().push(text.last()) =~= text);
    }
}

/// The character of a lowercase hexadecimal digit.
pub open spec fn hex_char(digit: int) -> char {
    if digit < 10 {
        (48 + digit) as char
    } else {
        (87 + digit) as char
    }
}

/// The lowercase hexadecimal text of some bytes, two characters for each.
pub open spec fn hex_text(bytes: Seq<u8>) -> Seq<char> {
    Seq::new(
        2 * bytes.len(),
        |i: int|
            if i % 2 == 0 {
                hex_char(bytes[i / 2] as int / 16)
            } else {
                hex_char(bytes[i / 2] as int % 16)
            },
    )
}

proof fn lemma_hex_char_injective(x: int, y: int)
    requires
        0 <= x < 16,
        0 <= y < 16,
        hex_char(x) == hex_char(y),
    ensures
        x == y,
{
    assert(hex_char(x) as int == if x < 10 { 48 + x } else { 87 + x });
    assert(hex_char(y) as int == if y < 10 { 48 + y } else { 87 + y });
}

/// Bytes that differ have hexadecimal texts that differ.
pub proof fn law_hex_text_injective(a: Seq<u8>, b: Seq<u8>)
    requires
        hex_text(a) == hex_text(b),
    ensures
        a == b,
{
    assert(hex_text(a).len() == 2 * a.len());
    assert(hex_text(b).len() == 2 * b.len());
    assert forall|i: int| 0 <= i < a.len() implies a[i] == b[i] by {
        assert(hex_text(a)[2 * i] == hex_text(b)[2 * i]);
        assert(hex_text(a)[2 * i + 1] == hex_text(b)[2 * i + 1]);
        assert((2 * i) / 2 == i && (2 * i + 1) / 2 == i);
        assert((2 * i) % 2 == 0 && (2 * i + 1) % 2 == 1);
        assert(hex_text(a)[2 * i] == hex_char(a[i] as int / 16));
        assert(hex_text(b)[2 * i] == hex_char(b[i] as int / 16));
        assert(hex_text(a)[2 * i + 1] == hex_char(a[i] as int % 16));
        assert(hex_text(b)[2 * i + 1] == hex_char(b[i] as int % 16));
        lemma_hex_char_injective(a[i] as int / 16, b[i] as int / 16);
        lemma_hex_char_injective(a[i] as int % 16, b[i] as int % 16);
    }
    assert(a =~= b);
}

/// What follows the same beginning in the same text is the same.
pub(crate) proof fn lemma_prefix_cancel(prefix: Seq<char>, x: Seq<char>, y: Seq<char>)
    requires
        prefix + x == prefix + y,
    ensures
        x == y,
{
    assert(x =~= (prefix + x).skip(prefix.len() as int));
    assert(y =~= (prefix + y).skip(prefix.len() as int));
}

/// What precedes the same end in the same text is the same.
pub(crate) proof fn lemma_suffix_cancel(x: Seq<char>, y: Seq<char>, suffix: Seq<char>)
    requires
        x + suffix == y + suffix,
    ensures
        x == y,
{
    assert((x + suffix).len() == (y + suffix).len());
    assert(x =~= (x + suffix).take(x.len() as int));
    assert(y =~= (y + suffix).take(y.len() as int));
}

}
