//! The column specifications of a request.
//!
//! A request names its columns in one text, an expression for each column
//! and a comma between two of them. White space around an expression does
//! not belong to it. A request that names no columns gets the five plain
//! ones.

use crate::lexer::{characters, piece};
use vstd::prelude::*;
use vstd::string::StringExecFns;

verus! {

/// The columns of a request that names none.
pub open spec fn default_columns() -> Seq<Seq<char>> {
    seq!["locationType"@, "id"@, "name"@, "latitude"@, "longitude"@]
}

/// Whether a character is white space, as Unicode defines it.
pub open spec fn is_blank(c: char) -> bool {
    ||| '\u{9}' <= c <= '\u{d}'
    ||| c == ' '
    ||| c == '\u{85}'
    ||| c == '\u{a0}'
    ||| c == '\u{1680}'
    ||| '\u{2000}' <= c <= '\u{200a}'
    ||| c == '\u{2028}'
    ||| c == '\u{2029}'
    ||| c == '\u{202f}'
    ||| c == '\u{205f}'
    ||| c == '\u{3000}'
}

/// Where the first comma at or after `from` stands, or the length of the
/// text if there is none.
pub open spec fn comma_at(s: Seq<char>, from: int) -> int
    decreases s.len() - from,
{
    if 0 <= from < s.len() && s[from] != ',' {
        comma_at(s, from + 1)
    } else {
        from
    }
}

/// Where what is kept of the piece from `from` up to `to` starts: after the
/// white space at its start.
pub open spec fn kept_from(s: Seq<char>, from: int, to: int) -> int
    decreases to - from,
{
    if 0 <= from < to <= s.len() && is_blank(s[from]) {
        kept_from(s, from + 1, to)
    } else {
        from
    }
}

/// Where what is kept of the piece from `from` up to `to` ends: before the
/// white space at its end.
pub open spec fn kept_to(s: Seq<char>, from: int, to: int) -> int
    decreases to - from,
{
    if 0 <= from < to <= s.len() && is_blank(s[to - 1]) {
        kept_to(s, from, to - 1)
    } else {
        to
    }
}

/// The piece from `from` up to `to` without the white space at its ends.
pub open spec fn trimmed(s: Seq<char>, from: int, to: int) -> Seq<char> {
    let start = kept_from(s, from, to);
    s.subrange(start, kept_to(s, start, to))
}

/// The pieces of the text from `from` on: what stands between two commas,
/// before the first and after the last, each without the white space at
/// its ends. A text without a comma is one piece.
pub open spec fn pieces_from(s: Seq<char>, from: int) -> Seq<Seq<char>>
    decreases s.len() - from,
{
    let comma = comma_at(s, from);
    if 0 <= from <= comma < s.len() {
        seq![trimmed(s, from, comma)] + pieces_from(s, comma + 1)
    } else {
        seq![trimmed(s, from, s.len() as int)]
    }
}

/// The pieces of a text.
pub open spec fn pieces(s: Seq<char>) -> Seq<Seq<char>> {
    pieces_from(s, 0)
}

fn blank(c: char) -> (b: bool)
    ensures
        b == is_blank(c),
{
    ('\u{9}' <= c && c <= '\u{d}') || c == ' ' || c == '\u{85}' || c == '\u{a0}' || c == '\u{1680}'
        || ('\u{2000}' <= c && c <= '\u{200a}') || c == '\u{2028}' || c == '\u{2029}' || c
        == '\u{202f}' || c == '\u{205f}' || c == '\u{3000}'
}

fn find_comma(chars: &Vec<char>, from: usize) -> (at: usize)
    requires
        from <= chars.len(),
    ensures
        at == comma_at(chars@, from as int),
        from <= at <= chars.len(),
{
    let mut at = from;
    while at < chars.len() && chars[at] != ','
        invariant
            from <= at <= chars.len(),
            comma_at(chars@, from as int) == comma_at(chars@, at as int),
        decreases chars.len() - at,
    {
        at = at + 1;
    }
    at
}

fn trim(text: &str, chars: &Vec<char>, from: usize, to: usize) -> (kept: String)
    requires
        chars@ == text@,
        from <= to <= chars.len(),
    ensures
        kept@ == trimmed(text@, from as int, to as int),
{
    let mut start = from;
    while start < to && blank(chars[start])
        invariant
            chars@ == text@,
            from <= start <= to <= chars.len(),
            kept_from(chars@, from as int, to as int) == kept_from(chars@, start as int, to as int),
        decreases to - start,
    {
        start = start + 1;
    }
    let mut end = to;
    while start < end && blank(chars[end - 1])
        invariant
            chars@ == text@,
            start <= end <= to <= chars.len(),
            kept_to(chars@, start as int, to as int) == kept_to(chars@, start as int, end as int),
        decreases end - start,
    {
        end = end - 1;
    }
    piece(text, start, end)
}

/// The pieces of a text: what stands between two commas, each without the
/// white space at its ends.
pub fn split_columns(text: &str) -> (specs: Vec<String>)
    ensures
        specs.deep_view() == pieces(text@),
{
    let chars = characters(text);
    let mut specs: Vec<String> = Vec::new();
    let mut from: usize = 0;
    assert(specs.deep_view() + pieces(text@) =~= pieces(text@));
    loop
        invariant_except_break
            pieces(text@) == specs.deep_view() + pieces_from(text@, from as int),
        invariant
            chars@ == text@,
            from <= chars.len(),
        ensures
            specs.deep_view() == pieces(text@),
        decreases chars.len() - from,
    {
        let comma = find_comma(&chars, from);
        let ghost before = specs.deep_view();
        let kept = trim(text, &chars, from, if comma < chars.len() {
            comma
        } else {
            chars.len()
        });
        specs.push(kept);
        assert(specs.deep_view() =~= before.push(specs@.last()@));
        if comma < chars.len() {
            assert(before + (seq![specs@.last()@] + pieces_from(text@, comma as int + 1))
                =~= specs.deep_view() + pieces_from(text@, comma as int + 1));
            from = comma + 1;
        } else {
            assert(before + seq![specs@.last()@] =~= specs.deep_view());
            break;
        }
    }
    specs
}

/// The column specifications of a request: the pieces of the text that
/// names them, or the five plain columns if there is no such text.
pub fn column_specs(query: &Option<String>) -> (specs: Vec<String>)
    ensures
        match query {
            Some(text) => specs.deep_view() == pieces(text@),
            None => specs.deep_view() == default_columns(),
        },
{
    match query {
        Some(text) => split_columns(text.as_str()),
        None => {
            let mut specs: Vec<String> = Vec::new();
            specs.push(String::from_str("locationType"));
            specs.push(String::from_str("id"));
            specs.push(String::from_str("name"));
            specs.push(String::from_str("latitude"));
            specs.push(String::from_str("longitude"));
            assert(specs.deep_view() =~= default_columns());
            specs
        },
    }
}

} // verus!
