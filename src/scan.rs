//! Scanners over the characters of a mount-table line, each proved against
//! the grammar model.

use vstd::prelude::*;
use crate::mount_grammar::{
    decimal_value, frequency_of, has_stray_space, is_blank, is_decimal_digit, is_stray_space,
    lemma_decimal_value_grows, lemma_piece_len_exact, lemma_word_len_exact, pass_number_of,
    escape, split_commas, unescape, with_prefix, words,
};

verus! {

pub open spec fn views_of_strs(v: Seq<&str>) -> Seq<Seq<char>> {
    v.map_values(|w: &str| w@)
}

pub open spec fn views_of_strings(v: Seq<String>) -> Seq<Seq<char>> {
    v.map_values(|w: String| w@)
}

pub fn is_blank_char(c: char) -> (r: bool)
    ensures
        r == is_blank(c),
{
    c == ' ' || c == '\t'
}

pub fn is_stray_space_char(c: char) -> (r: bool)
    ensures
        r == is_stray_space(c),
{
    let u = c as u32;
    (0x0A <= u && u <= 0x0D) || u == 0x85 || u == 0xA0 || u == 0x1680 || (0x2000 <= u && u
        <= 0x200A) || u == 0x2028 || u == 0x2029 || u == 0x202F || u == 0x205F || u == 0x3000
}

/// Whether `c` is an ASCII decimal digit.
pub fn is_digit(c: char) -> (r: bool)
    ensures
        r == is_decimal_digit(c),
{
    '0' <= c && c <= '9'
}

/// Whether the line holds a whitespace character other than a separator.
pub fn holds_stray_space(line: &str) -> (r: bool)
    ensures
        r == has_stray_space(line@),
{
    let n = line.unicode_len();
    let mut i: usize = 0;
    while i < n
        invariant
            n == line@.len(),
            i <= n,
            forall|j: int| 0 <= j < i ==> !is_stray_space(#[trigger] line@[j]),
        decreases n - i,
    {
        if is_stray_space_char(line.get_char(i)) {
            return true;
        }
        i = i + 1;
    }
    false
}

/// The blank-separated fields of a line.
pub fn split_words(line: &str) -> (r: Vec<&str>)
    ensures
        views_of_strs(r@) == words(line@),
{
    let n = line.unicode_len();
    let mut out: Vec<&str> = Vec::new();
    let mut i: usize = 0;
    assert(line@.skip(0) =~= line@);
    while i < n
        invariant
            n == line@.len(),
            i <= n,
            words(line@) == views_of_strs(out@) + words(line@.skip(i as int)),
        decreases n - i,
    {
        let ghost rest = line@.skip(i as int);
        if is_blank_char(line.get_char(i)) {
            assert(rest.drop_first() =~= line@.skip(i + 1));
            i = i + 1;
        } else {
            let start = i;
            while i < n && !is_blank_char(line.get_char(i))
                invariant
                    n == line@.len(),
                    start <= i <= n,
                    forall|j: int| start <= j < i ==> !is_blank(#[trigger] line@[j]),
                decreases n - i,
            {
                i = i + 1;
            }
            proof {
                assert forall|j: int| 0 <= j < i - start implies !is_blank(#[trigger] rest[j]) by {
                    assert(rest[j] == line@[start + j]);
                }
                lemma_word_len_exact(rest, i - start);
                assert(rest.take(i - start) =~= line@.subrange(start as int, i as int));
                assert(rest.skip(i - start) =~= line@.skip(i as int));
            }
            let w = line.substring_char(start, i);
            let ghost before = out@;
            out.push(w);
            assert(views_of_strs(out@) =~= views_of_strs(before) + seq![w@]);
        }
    }
    assert(line@.skip(n as int) =~= Seq::<char>::empty());
    assert(views_of_strs(out@) + Seq::<Seq<char>>::empty() =~= views_of_strs(out@));
    out
}

/// Decodes the escapes of a path field; `None` where a backslash ends it.
pub fn unescape_field(s: &str) -> (r: Option<String>)
    ensures
        match r {
            Some(v) => unescape(s@) == Some(v@),
            None => unescape(s@) is None,
        },
{
    let n = s.unicode_len();
    let mut acc = String::new();
    let mut i: usize = 0;
    assert(s@.skip(0) =~= s@);
    assert(acc@ + Seq::<char>::empty() =~= acc@);
    while i < n
        invariant
            n == s@.len(),
            i <= n,
            unescape(s@) == with_prefix(acc@, unescape(s@.skip(i as int))),
        decreases n - i,
    {
        let ghost rest = s@.skip(i as int);
        let ghost before = acc@;
        let c = s.get_char(i);
        if c != '\\' {
            assert(rest.drop_first() =~= s@.skip(i + 1));
            acc.append(s.substring_char(i, i + 1));
            assert(s@.subrange(i as int, i + 1) =~= seq![c]);
            i = i + 1;
            proof {
                match unescape(s@.skip(i as int)) {
                    Some(t) => assert(before + (seq![c] + t) =~= acc@ + t),
                    None => {},
                }
            }
        } else if n - i > 3 && s.get_char(i + 1) == '0' && s.get_char(i + 2) == '4' && s.get_char(
            i + 3,
        ) == '0' {
            assert(rest.skip(4) =~= s@.skip(i + 4));
            proof {
                reveal_strlit(" ");
            }
            acc.append(" ");
            i = i + 4;
            proof {
                match unescape(s@.skip(i as int)) {
                    Some(t) => assert(before + (seq![' '] + t) =~= acc@ + t),
                    None => {},
                }
            }
        } else if i + 1 < n {
            assert(rest.skip(2) =~= s@.skip(i + 2));
            let ghost d = s@[i + 1];
            acc.append(s.substring_char(i + 1, i + 2));
            assert(s@.subrange(i + 1, i + 2) =~= seq![d]);
            i = i + 2;
            proof {
                match unescape(s@.skip(i as int)) {
                    Some(t) => assert(before + (seq![d] + t) =~= acc@ + t),
                    None => {},
                }
            }
        } else {
            return None;
        }
    }
    assert(s@.skip(n as int) =~= Seq::<char>::empty());
    assert(acc@ + Seq::<char>::empty() =~= acc@);
    Some(acc)
}

/// Encodes a path for a mount-table field: a space becomes `\040` and a
/// backslash `\\`.
pub fn escape_field(s: &str) -> (r: String)
    ensures
        r@ == escape(s@),
{
    let n = s.unicode_len();
    let mut acc = String::new();
    let mut i: usize = 0;
    assert(s@.skip(0) =~= s@);
    while i < n
        invariant
            n == s@.len(),
            i <= n,
            escape(s@) == acc@ + escape(s@.skip(i as int)),
        decreases n - i,
    {
        let ghost rest = s@.skip(i as int);
        let ghost before = acc@;
        assert(rest.drop_first() =~= s@.skip(i + 1));
        let c = s.get_char(i);
        if c == ' ' {
            proof {
                reveal_strlit("\\040");
            }
            acc.append("\\040");
        } else if c == '\\' {
            proof {
                reveal_strlit("\\\\");
            }
            acc.append("\\\\");
        } else {
            acc.append(s.substring_char(i, i + 1));
            assert(s@.subrange(i as int, i + 1) =~= seq![c]);
        }
        i = i + 1;
        assert(escape(s@) =~= acc@ + escape(s@.skip(i as int)));
    }
    assert(s@.skip(n as int) =~= Seq::<char>::empty());
    assert(acc@ + Seq::<char>::empty() =~= acc@);
    acc
}

/// The comma-separated options of the options field, kept in order.
pub fn split_options(s: &str) -> (r: Vec<String>)
    ensures
        views_of_strings(r@) == split_commas(s@),
{
    let n = s.unicode_len();
    let mut out: Vec<String> = Vec::new();
    let mut start: usize = 0;
    let mut i: usize = 0;
    assert(s@.skip(0) =~= s@);
    assert(views_of_strings(out@) + split_commas(s@) =~= split_commas(s@));
    while i < n
        invariant
            n == s@.len(),
            start <= i <= n,
            forall|j: int| start <= j < i ==> #[trigger] s@[j] != ',',
            split_commas(s@) == views_of_strings(out@) + split_commas(s@.skip(start as int)),
        decreases n - i,
    {
        if s.get_char(i) == ',' {
            let ghost rest = s@.skip(start as int);
            proof {
                assert forall|j: int| 0 <= j < i - start implies #[trigger] rest[j] != ',' by {
                    assert(rest[j] == s@[start + j]);
                }
                lemma_piece_len_exact(rest, i - start);
                assert(rest.take(i - start) =~= s@.subrange(start as int, i as int));
                assert(rest.skip(i - start + 1) =~= s@.skip(i + 1));
            }
            let piece = s.substring_char(start, i).to_owned();
            let ghost before = out@;
            out.push(piece);
            assert(views_of_strings(out@) =~= views_of_strings(before) + seq![piece@]);
            start = i + 1;
        }
        i = i + 1;
    }
    let ghost rest = s@.skip(start as int);
    proof {
        assert forall|j: int| 0 <= j < n - start implies #[trigger] rest[j] != ',' by {
            assert(rest[j] == s@[start + j]);
        }
        lemma_piece_len_exact(rest, n - start);
    }
    let last = s.substring_char(start, n).to_owned();
    assert(last@ =~= rest);
    let ghost before = out@;
    out.push(last);
    assert(views_of_strings(out@) =~= views_of_strings(before) + seq![last@]);
    out
}

/// Reads a field of decimal digits whose value fits in a byte.
pub fn from_digit(input: &str) -> (r: Option<u8>)
    ensures
        r == frequency_of(input@),
{
    let n = input.unicode_len();
    if n == 0 {
        return None;
    }
    let mut v: u32 = 0;
    let mut i: usize = 0;
    while i < n
        invariant
            n == input@.len(),
            i <= n,
            v <= 255,
            v == decimal_value(input@.take(i as int)),
            forall|j: int| 0 <= j < i ==> is_decimal_digit(#[trigger] input@[j]),
        decreases n - i,
    {
        let c = input.get_char(i);
        if !is_digit(c) {
            return None;
        }
        assert(input@.take(i + 1).drop_last() =~= input@.take(i as int));
        let next = v * 10 + (c as u32 - '0' as u32);
        if next > 255 {
            proof {
                lemma_decimal_value_grows(input@, i + 1);
            }
            return None;
        }
        v = next;
        i = i + 1;
    }
    assert(input@.take(n as int) =~= input@);
    Some(v as u8)
}

/// Reads the pass number field: one of the digits `0`, `1`, `2`.
pub fn pass_number(input: &str) -> (r: Option<u8>)
    ensures
        r == pass_number_of(input@),
{
    if input.unicode_len() != 1 {
        return None;
    }
    let c = input.get_char(0);
    if c == '0' || c == '1' || c == '2' {
        Some((c as u32 - '0' as u32) as u8)
    } else {
        None
    }
}

} // verus!
