//! The mount-table line grammar as mathematics: fields separated by runs of
//! blanks, escape decoding of the path fields, comma-separated options and
//! decimal numbers, with the lemmas that tie the scanners to it.

use vstd::prelude::*;

verus! {

/// A field separator: a space or a tab.
pub open spec fn is_blank(c: char) -> bool {
    c == ' ' || c == '\t'
}

/// A whitespace character (Unicode `White_Space`) that is not a field
/// separator. No field may hold one, so a line that does is malformed.
pub open spec fn is_stray_space(c: char) -> bool {
    let u = c as u32;
    (0x0A <= u && u <= 0x0D) || u == 0x85 || u == 0xA0 || u == 0x1680 || (0x2000 <= u && u
        <= 0x200A) || u == 0x2028 || u == 0x2029 || u == 0x202F || u == 0x205F || u == 0x3000
}

pub open spec fn has_stray_space(s: Seq<char>) -> bool {
    exists|i: int| 0 <= i < s.len() && is_stray_space(#[trigger] s[i])
}

/// Length of the run of non-blank characters that starts `s`.
pub open spec fn word_len(s: Seq<char>) -> nat
    decreases s.len(),
{
    if s.len() == 0 || is_blank(s[0]) {
        0
    } else {
        1 + word_len(s.drop_first())
    }
}

/// The maximal runs of non-blank characters of `s`, in order.
pub open spec fn words(s: Seq<char>) -> Seq<Seq<char>>
    decreases s.len(),
    via words_decreases
{
    if s.len() == 0 {
        Seq::empty()
    } else if is_blank(s[0]) {
        words(s.drop_first())
    } else {
        seq![s.take(word_len(s) as int)] + words(s.skip(word_len(s) as int))
    }
}

#[via_fn]
proof fn words_decreases(s: Seq<char>) {
    if s.len() > 0 && !is_blank(s[0]) {
        lemma_word_len_bounds(s);
    }
}

pub proof fn lemma_word_len_bounds(s: Seq<char>)
    ensures
        word_len(s) <= s.len(),
        s.len() > 0 && !is_blank(s[0]) ==> word_len(s) >= 1,
    decreases s.len(),
{
    if s.len() > 0 && !is_blank(s[0]) {
        lemma_word_len_bounds(s.drop_first());
    }
}

/// A run of `k` non-blank characters that ends at a blank or at the end is
/// the whole first word.
pub proof fn lemma_word_len_exact(s: Seq<char>, k: int)
    requires
        0 <= k <= s.len(),
        forall|j: int| 0 <= j < k ==> !is_blank(#[trigger] s[j]),
        k == s.len() || is_blank(s[k]),
    ensures
        word_len(s) == k,
    decreases k,
{
    if k > 0 {
        assert forall|j: int| 0 <= j < k - 1 implies !is_blank(#[trigger] s.drop_first()[j]) by {
            assert(s.drop_first()[j] == s[j + 1]);
        }
        lemma_word_len_exact(s.drop_first(), k - 1);
    }
}

/// Decodes the escapes of a path field: `\040` is a space, and a backslash
/// before any other character stands for that character. A backslash with
/// nothing after it makes the field malformed.
pub open spec fn unescape(s: Seq<char>) -> Option<Seq<char>>
    decreases s.len(),
{
    if s.len() == 0 {
        Some(Seq::empty())
    } else if s[0] != '\\' {
        with_prefix(seq![s[0]], unescape(s.drop_first()))
    } else if s.len() >= 4 && s[1] == '0' && s[2] == '4' && s[3] == '0' {
        with_prefix(seq![' '], unescape(s.skip(4)))
    } else if s.len() >= 2 {
        with_prefix(seq![s[1]], unescape(s.skip(2)))
    } else {
        None
    }
}

pub open spec fn with_prefix(p: Seq<char>, o: Option<Seq<char>>) -> Option<Seq<char>> {
    match o {
        Some(r) => Some(p + r),
        None => None,
    }
}

/// Encodes a path for a mount-table field: a space becomes `\040` and a
/// backslash becomes `\\`.
pub open spec fn escape(s: Seq<char>) -> Seq<char>
    decreases s.len(),
{
    if s.len() == 0 {
        Seq::empty()
    } else if s[0] == ' ' {
        seq!['\\', '0', '4', '0'] + escape(s.drop_first())
    } else if s[0] == '\\' {
        seq!['\\', '\\'] + escape(s.drop_first())
    } else {
        seq![s[0]] + escape(s.drop_first())
    }
}

/// A field text in the form that `escape` writes: no raw space, and each
/// backslash starts `\040` or `\\`.
pub open spec fn is_canonical(t: Seq<char>) -> bool
    decreases t.len(),
{
    if t.len() == 0 {
        true
    } else if t[0] == ' ' {
        false
    } else if t[0] == '\\' {
        if t.len() >= 4 && t[1] == '0' && t[2] == '4' && t[3] == '0' {
            is_canonical(t.skip(4))
        } else if t.len() >= 2 && t[1] == '\\' {
            is_canonical(t.skip(2))
        } else {
            false
        }
    } else {
        is_canonical(t.drop_first())
    }
}

/// Length of the run of characters other than a comma that starts `s`.
pub open spec fn piece_len(s: Seq<char>) -> nat
    decreases s.len(),
{
    if s.len() == 0 || s[0] == ',' {
        0
    } else {
        1 + piece_len(s.drop_first())
    }
}

/// The pieces of `s` between commas; empty pieces included.
pub open spec fn split_commas(s: Seq<char>) -> Seq<Seq<char>>
    decreases s.len(),
{
    if piece_len(s) >= s.len() {
        seq![s]
    } else {
        seq![s.take(piece_len(s) as int)] + split_commas(s.skip(piece_len(s) + 1 as int))
    }
}

pub proof fn lemma_piece_len_exact(s: Seq<char>, k: int)
    requires
        0 <= k <= s.len(),
        forall|j: int| 0 <= j < k ==> #[trigger] s[j] != ',',
        k == s.len() || s[k] == ',',
    ensures
        piece_len(s) == k,
    decreases k,
{
    if k > 0 {
        assert forall|j: int| 0 <= j < k - 1 implies #[trigger] s.drop_first()[j] != ',' by {
            assert(s.drop_first()[j] == s[j + 1]);
        }
        lemma_piece_len_exact(s.drop_first(), k - 1);
    }
}

pub open spec fn is_decimal_digit(c: char) -> bool {
    '0' <= c && c <= '9'
}

pub open spec fn digit_value(c: char) -> nat {
    (c as u32 - '0' as u32) as nat
}

/// The number that a string of decimal digits writes.
pub open spec fn decimal_value(s: Seq<char>) -> nat
    decreases s.len(),
{
    if s.len() == 0 {
        0
    } else {
        decimal_value(s.drop_last()) * 10 + digit_value(s.last())
    }
}

/// The dump frequency field: one or more decimal digits whose value fits in
/// a byte.
pub open spec fn frequency_of(s: Seq<char>) -> Option<u8> {
    if s.len() > 0 && (forall|i: int| 0 <= i < s.len() ==> is_decimal_digit(#[trigger] s[i]))
        && decimal_value(s) <= 255 {
        Some(decimal_value(s) as u8)
    } else {
        None
    }
}

/// The pass number field: exactly one of the digits `0`, `1`, `2`.
pub open spec fn pass_number_of(s: Seq<char>) -> Option<u8> {
    if s.len() == 1 && (s[0] == '0' || s[0] == '1' || s[0] == '2') {
        Some(digit_value(s[0]) as u8)
    } else {
        None
    }
}

/// Decoding undoes encoding, for every string.
pub proof fn lemma_unescape_escape(s: Seq<char>)
    ensures
        unescape(escape(s)) == Some(s),
    decreases s.len(),
{
    if s.len() > 0 {
        let rest = s.drop_first();
        lemma_unescape_escape(rest);
        let e = escape(s);
        if s[0] == ' ' {
            assert(e.skip(4) =~= escape(rest));
            assert(seq![' '] + rest =~= s);
        } else if s[0] == '\\' {
            assert(e.skip(2) =~= escape(rest));
            assert(seq!['\\'] + rest =~= s);
        } else {
            assert(e.drop_first() =~= escape(rest));
            assert(seq![s[0]] + rest =~= s);
        }
    }
}

/// Encoding undoes decoding, for a field in the form that encoding writes.
pub proof fn lemma_escape_unescape(t: Seq<char>)
    requires
        is_canonical(t),
    ensures
        unescape(t) is Some,
        escape(unescape(t)->Some_0) == t,
    decreases t.len(),
{
    if t.len() > 0 {
        if t[0] == '\\' {
            if t.len() >= 4 && t[1] == '0' && t[2] == '4' && t[3] == '0' {
                lemma_escape_unescape(t.skip(4));
                let u = unescape(t.skip(4))->Some_0;
                let v = seq![' '] + u;
                assert(v.drop_first() =~= u);
                assert(escape(v) =~= t);
            } else {
                lemma_escape_unescape(t.skip(2));
                let u = unescape(t.skip(2))->Some_0;
                let v = seq!['\\'] + u;
                assert(v.drop_first() =~= u);
                assert(escape(v) =~= t);
            }
        } else {
            lemma_escape_unescape(t.drop_first());
            let u = unescape(t.drop_first())->Some_0;
            let v = seq![t[0]] + u;
            assert(v.drop_first() =~= u);
            assert(escape(v) =~= t);
        }
    }
}

pub proof fn lemma_decimal_value_grows(s: Seq<char>, i: int)
    requires
        0 <= i <= s.len(),
    ensures
        decimal_value(s.take(i)) <= decimal_value(s),
    decreases s.len() - i,
{
    if i < s.len() {
        lemma_decimal_value_grows(s, i + 1);
        assert(s.take(i + 1).drop_last() =~= s.take(i));
    } else {
        assert(s.take(i) =~= s);
    }
}

} // verus!
