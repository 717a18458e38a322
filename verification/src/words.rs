use vstd::prelude::*;

use crate::chars::{
    is_digit_char, is_letter_char, is_lower_char, is_upper_char, is_alnum_char, to_lower_char,
    to_upper_char,
};

verus! {

// Specification-level vocabulary for words and their (de)composition.
//
// A word is the atomic unit of every naming convention: one or more ASCII
// letters followed by an optional run of ASCII digits.

pub open spec fn is_word(w: Seq<char>) -> bool {
    &&& w.len() > 0
    &&& is_letter_char(w[0])
    &&& (forall|i: int| 0 <= i < w.len() ==> is_alnum_char(#[trigger] w[i]))
    &&& (forall|i: int|
        0 <= i && i + 1 < w.len() && is_digit_char(#[trigger] w[i]) ==> is_digit_char(w[i + 1]))
}

pub open spec fn to_upper_seq(s: Seq<char>) -> Seq<char> {
    s.map(|i: int, c: char| to_upper_char(c))
}

pub open spec fn to_lower_seq(s: Seq<char>) -> Seq<char> {
    s.map(|i: int, c: char| to_lower_char(c))
}

/// Title casing of one word: first character uppercased, the rest lowercased.
/// Digits are unaffected by either.
pub open spec fn to_title_seq(s: Seq<char>) -> Seq<char> {
    if s.len() == 0 {
        s
    } else {
        seq![to_upper_char(s[0])] + to_lower_seq(s.drop_first())
    }
}

/// Splitting at every occurrence of `sep`, the way `str::split` does it:
/// the result always holds one group more than there are separators, and
/// groups may be empty.
pub open spec fn spec_split(s: Seq<char>, sep: char) -> Seq<Seq<char>>
    decreases s.len(),
{
    if s.len() == 0 {
        seq![Seq::<char>::empty()]
    } else if s[0] == sep {
        seq![Seq::<char>::empty()] + spec_split(s.drop_first(), sep)
    } else {
        let rest = spec_split(s.drop_first(), sep);
        seq![seq![s[0]] + rest[0]] + rest.drop_first()
    }
}

/// Joining groups with a single separator character between them.
pub open spec fn spec_join(ws: Seq<Seq<char>>, sep: char) -> Seq<char>
    decreases ws.len(),
{
    if ws.len() == 0 {
        Seq::empty()
    } else if ws.len() == 1 {
        ws[0]
    } else {
        ws[0] + seq![sep] + spec_join(ws.drop_first(), sep)
    }
}

/// Joining groups with no separator at all.
pub open spec fn spec_concat(ws: Seq<Seq<char>>) -> Seq<char>
    decreases ws.len(),
{
    if ws.len() == 0 {
        Seq::empty()
    } else {
        ws[0] + spec_concat(ws.drop_first())
    }
}

/// The word decomposition of a string without separators: a new word starts
/// at every uppercase letter. On a camel- or pascal-shaped string this is
/// exactly the greedy left-to-right match of "uppercase letter, lowercase
/// letters, digits" (plus, for camel, the leading lowercase word).
pub open spec fn spec_hump_words(s: Seq<char>) -> Seq<Seq<char>>
    decreases s.len(),
{
    if s.len() == 0 {
        Seq::empty()
    } else if s.len() == 1 {
        seq![s]
    } else if is_upper_char(s[1]) {
        seq![seq![s[0]]] + spec_hump_words(s.drop_first())
    } else {
        let rest = spec_hump_words(s.drop_first());
        seq![seq![s[0]] + rest[0]] + rest.drop_first()
    }
}

pub open spec fn map_upper(ws: Seq<Seq<char>>) -> Seq<Seq<char>> {
    ws.map(|i: int, w: Seq<char>| to_upper_seq(w))
}

pub open spec fn map_lower(ws: Seq<Seq<char>>) -> Seq<Seq<char>> {
    ws.map(|i: int, w: Seq<char>| to_lower_seq(w))
}

pub open spec fn map_title(ws: Seq<Seq<char>>) -> Seq<Seq<char>> {
    ws.map(|i: int, w: Seq<char>| to_title_seq(w))
}

// The five composition rules. Each takes an ordered word list and renders it
// in one convention.

pub open spec fn spec_compose_screaming_snake(ws: Seq<Seq<char>>) -> Seq<char> {
    spec_join(map_upper(ws), '_')
}

pub open spec fn spec_compose_snake(ws: Seq<Seq<char>>) -> Seq<char> {
    spec_join(map_lower(ws), '_')
}

pub open spec fn spec_compose_kebab(ws: Seq<Seq<char>>) -> Seq<char> {
    spec_join(map_lower(ws), '-')
}

pub open spec fn spec_compose_pascal(ws: Seq<Seq<char>>) -> Seq<char> {
    spec_concat(map_title(ws))
}

pub open spec fn spec_compose_camel(ws: Seq<Seq<char>>) -> Seq<char> {
    if ws.len() == 0 {
        Seq::empty()
    } else {
        to_lower_seq(ws[0]) + spec_compose_pascal(ws.drop_first())
    }
}

// Basic shape facts.

pub proof fn lemma_split_len(s: Seq<char>, sep: char)
    ensures
        spec_split(s, sep).len() >= 1,
    decreases s.len(),
{
    if s.len() > 0 {
        lemma_split_len(s.drop_first(), sep);
    }
}

pub proof fn lemma_hump_words_len(s: Seq<char>)
    ensures
        s.len() > 0 ==> spec_hump_words(s).len() >= 1,
        s.len() == 0 ==> spec_hump_words(s).len() == 0,
    decreases s.len(),
{
    if s.len() > 1 {
        lemma_hump_words_len(s.drop_first());
    }
}

/// Rejoining what splitting produced gives back the original string,
/// whatever the string was.
pub proof fn lemma_join_split(s: Seq<char>, sep: char)
    ensures
        spec_join(spec_split(s, sep), sep) == s,
    decreases s.len(),
{
    if s.len() == 0 {
        assert(spec_join(spec_split(s, sep), sep) =~= s);
    } else if s[0] == sep {
        lemma_join_split(s.drop_first(), sep);
        lemma_split_len(s.drop_first(), sep);
        let parts = spec_split(s, sep);
        assert(parts.drop_first() =~= spec_split(s.drop_first(), sep));
        assert(spec_join(parts, sep) =~= s);
    } else {
        lemma_join_split(s.drop_first(), sep);
        lemma_split_len(s.drop_first(), sep);
        let rest = spec_split(s.drop_first(), sep);
        let parts = spec_split(s, sep);
        if rest.len() == 1 {
            assert(parts.len() == 1);
            assert(parts[0] =~= seq![s[0]] + rest[0]);
            assert(spec_join(parts, sep) =~= s);
        } else {
            assert(parts.drop_first() =~= rest.drop_first());
            assert(spec_join(rest, sep) == rest[0] + seq![sep] + spec_join(rest.drop_first(), sep));
            assert(spec_join(parts, sep) =~= seq![s[0]] + spec_join(rest, sep));
            assert(seq![s[0]] + spec_join(rest, sep) =~= s);
        }
    }
}

/// The words of a separator-free string concatenate back to the string.
pub proof fn lemma_concat_hump_words(s: Seq<char>)
    ensures
        spec_concat(spec_hump_words(s)) == s,
    decreases s.len(),
{
    if s.len() == 0 {
        assert(spec_concat(spec_hump_words(s)) =~= s);
    } else if s.len() == 1 {
        let parts = spec_hump_words(s);
        assert(parts == seq![s]);
        assert(parts.drop_first() =~= Seq::<Seq<char>>::empty());
        assert(spec_concat(parts.drop_first()) =~= Seq::<char>::empty());
        assert(spec_concat(parts) =~= s);
    } else if is_upper_char(s[1]) {
        lemma_concat_hump_words(s.drop_first());
        let parts = spec_hump_words(s);
        assert(parts.drop_first() =~= spec_hump_words(s.drop_first()));
        assert(spec_concat(parts) =~= s);
    } else {
        lemma_concat_hump_words(s.drop_first());
        lemma_hump_words_len(s.drop_first());
        let rest = spec_hump_words(s.drop_first());
        let parts = spec_hump_words(s);
        assert(parts.drop_first() =~= rest.drop_first());
        assert(spec_concat(rest) == rest[0] + spec_concat(rest.drop_first()));
        assert(spec_concat(parts) =~= seq![s[0]] + spec_concat(rest));
        assert(seq![s[0]] + spec_concat(rest) =~= s);
    }
}

/// How splitting consumes its first group: if no separator occurs before
/// position `j`, and `j` is the string's end or a separator, the first group
/// is the prefix up to `j` and the rest splits the remainder.
pub proof fn lemma_split_first_group(s: Seq<char>, sep: char, j: int)
    requires
        0 <= j <= s.len(),
        forall|i: int| 0 <= i < j ==> s[i] != sep,
        j == s.len() || s[j] == sep,
    ensures
        j == s.len() ==> spec_split(s, sep) == seq![s],
        j < s.len() ==> spec_split(s, sep) == seq![s.take(j)] + spec_split(s.skip(j + 1), sep),
    decreases j,
{
    if j == 0 {
        if j == s.len() {
            assert(s =~= Seq::<char>::empty());
            assert(spec_split(s, sep) =~= seq![s]);
        } else {
            assert(s[0] == sep);
            assert(s.take(0) =~= Seq::<char>::empty());
            assert(s.skip(1) =~= s.drop_first());
            assert(spec_split(s, sep) =~= seq![s.take(0)] + spec_split(s.skip(1), sep));
        }
    } else {
        let t = s.drop_first();
        assert(forall|i: int| 0 <= i < j - 1 ==> t[i] != sep);
        lemma_split_first_group(t, sep, j - 1);
        lemma_split_len(t, sep);
        let rest = spec_split(t, sep);
        if j == s.len() {
            assert(rest =~= seq![t]);
            assert(spec_split(s, sep) =~= seq![seq![s[0]] + t]);
            assert(seq![s[0]] + t =~= s);
        } else {
            assert(rest == seq![t.take(j - 1)] + spec_split(t.skip(j), sep));
            assert(rest[0] =~= t.take(j - 1));
            assert(seq![s[0]] + t.take(j - 1) =~= s.take(j));
            assert(rest.drop_first() =~= spec_split(t.skip(j), sep));
            assert(t.skip(j) =~= s.skip(j + 1));
            assert(spec_split(s, sep) =~= seq![s.take(j)] + spec_split(s.skip(j + 1), sep));
        }
    }
}

/// How the word decomposition consumes its first word: if no uppercase letter
/// occurs at positions 1..j, and `j` is the string's end or an uppercase
/// letter, the first word is the prefix up to `j`.
pub proof fn lemma_hump_first_word(s: Seq<char>, j: int)
    requires
        1 <= j <= s.len(),
        forall|i: int| 1 <= i < j ==> !is_upper_char(#[trigger] s[i]),
        j == s.len() || is_upper_char(s[j]),
    ensures
        j == s.len() ==> spec_hump_words(s) == seq![s],
        j < s.len() ==> spec_hump_words(s) == seq![s.take(j)] + spec_hump_words(s.skip(j)),
    decreases j,
{
    if j == 1 {
        if j == s.len() {
            assert(spec_hump_words(s) =~= seq![s]);
        } else {
            assert(is_upper_char(s[1]));
            assert(s.take(1) =~= seq![s[0]]);
            assert(s.skip(1) =~= s.drop_first());
            assert(spec_hump_words(s) =~= seq![s.take(1)] + spec_hump_words(s.skip(1)));
        }
    } else {
        let t = s.drop_first();
        assert(forall|i: int| 1 <= i < j - 1 ==> !is_upper_char(#[trigger] t[i]));
        assert(!is_upper_char(s[1]));
        lemma_hump_first_word(t, j - 1);
        lemma_hump_words_len(t);
        let rest = spec_hump_words(t);
        if j == s.len() {
            assert(rest =~= seq![t]);
            assert(spec_hump_words(s) =~= seq![seq![s[0]] + t]);
            assert(seq![s[0]] + t =~= s);
        } else {
            assert(is_upper_char(t[j - 1]));
            assert(rest == seq![t.take(j - 1)] + spec_hump_words(t.skip(j - 1)));
            assert(rest[0] =~= t.take(j - 1));
            assert(seq![s[0]] + t.take(j - 1) =~= s.take(j));
            assert(rest.drop_first() =~= spec_hump_words(t.skip(j - 1)));
            assert(t.skip(j - 1) =~= s.skip(j));
            assert(spec_hump_words(s) =~= seq![s.take(j)] + spec_hump_words(s.skip(j)));
        }
    }
}

// Identity facts about case mapping, used for the round-trip laws.

pub proof fn lemma_lower_seq_id(w: Seq<char>)
    requires
        forall|i: int| 0 <= i < w.len() ==> !is_upper_char(#[trigger] w[i]),
    ensures
        to_lower_seq(w) == w,
{
    assert(to_lower_seq(w) =~= w);
}

pub proof fn lemma_upper_seq_id(w: Seq<char>)
    requires
        forall|i: int| 0 <= i < w.len() ==> !is_lower_char(#[trigger] w[i]),
    ensures
        to_upper_seq(w) == w,
{
    assert(to_upper_seq(w) =~= w);
}

pub proof fn lemma_title_seq_id(w: Seq<char>)
    requires
        w.len() > 0,
        !is_lower_char(w[0]),
        forall|i: int| 1 <= i < w.len() ==> !is_upper_char(#[trigger] w[i]),
    ensures
        to_title_seq(w) == w,
{
    lemma_lower_seq_id(w.drop_first());
    assert(to_title_seq(w) =~= w);
}

/// Appending one more group to a join.
pub proof fn lemma_join_push(ws: Seq<Seq<char>>, w: Seq<char>, sep: char)
    requires
        ws.len() >= 1,
    ensures
        spec_join(ws.push(w), sep) == spec_join(ws, sep) + seq![sep] + w,
    decreases ws.len(),
{
    if ws.len() == 1 {
        let pushed = ws.push(w);
        assert(pushed.len() == 2);
        assert(pushed.drop_first() =~= seq![w]);
        assert(spec_join(seq![w], sep) == w);
        assert(pushed[0] == ws[0]);
        assert(spec_join(pushed, sep) == pushed[0] + seq![sep] + spec_join(pushed.drop_first(), sep));
        assert(spec_join(ws, sep) == ws[0]);
        assert(spec_join(ws.push(w), sep) =~= spec_join(ws, sep) + seq![sep] + w);
    } else {
        lemma_join_push(ws.drop_first(), w, sep);
        assert(ws.push(w).drop_first() =~= ws.drop_first().push(w));
        assert(spec_join(ws.push(w), sep) =~= ws[0] + seq![sep] + spec_join(
            ws.drop_first().push(w),
            sep,
        ));
        assert(spec_join(ws, sep) + seq![sep] + w =~= ws[0] + seq![sep] + (spec_join(
            ws.drop_first(),
            sep,
        ) + seq![sep] + w));
    }
}

/// Appending one more group to a concatenation.
pub proof fn lemma_concat_push(ws: Seq<Seq<char>>, w: Seq<char>)
    ensures
        spec_concat(ws.push(w)) == spec_concat(ws) + w,
    decreases ws.len(),
{
    if ws.len() == 0 {
        let pushed = ws.push(w);
        assert(pushed.drop_first() =~= Seq::<Seq<char>>::empty());
        assert(spec_concat(pushed.drop_first()) =~= Seq::<char>::empty());
        assert(pushed[0] == w);
        assert(spec_concat(pushed) == pushed[0] + spec_concat(pushed.drop_first()));
        assert(spec_concat(ws) + w =~= w);
        assert(spec_concat(ws.push(w)) =~= spec_concat(ws) + w);
    } else {
        lemma_concat_push(ws.drop_first(), w);
        assert(ws.push(w).drop_first() =~= ws.drop_first().push(w));
        assert(spec_concat(ws.push(w)) =~= ws[0] + (spec_concat(ws.drop_first()) + w));
        assert(spec_concat(ws) + w =~= ws[0] + (spec_concat(ws.drop_first()) + w));
    }
}

} // verus!
