use vstd::prelude::*;

use crate::chars::{
    is_alnum, is_alnum_char, is_digit, is_digit_char, is_letter, is_letter_char, is_lower,
    is_lower_char, is_upper, is_upper_char,
};
use crate::naming_case::NamingCase;
use crate::words::{is_word, spec_hump_words, spec_split};

verus! {

// The six total-match predicates, one per convention, each anchored over the
// whole string. They are given exact specifications over the character
// sequence; the executable functions are single scans proved against them.

/// One run of lowercase letters, or of uppercase letters, or one capital
/// followed by lowercase letters -- optionally followed by digits.
pub open spec fn spec_is_single_word(s: Seq<char>) -> bool {
    &&& is_word(s)
    &&& ((forall|i: int|
        1 <= i < s.len() ==> (is_letter_char(#[trigger] s[i]) ==> is_lower_char(s[i]))) || (
    forall|i: int|
        0 <= i < s.len() ==> (is_letter_char(#[trigger] s[i]) ==> is_upper_char(s[i]))))
}

/// What must hold of two adjacent characters in a separator-delimited
/// convention: a separator is followed by a letter of the convention's case,
/// and within a group digits only come last.
pub open spec fn sep_pair_ok(a: char, b: char, sep: char, upper: bool) -> bool {
    &&& a == sep ==> (if upper {
        is_upper_char(b)
    } else {
        is_lower_char(b)
    })
    &&& is_digit_char(a) ==> (is_digit_char(b) || b == sep)
}

/// One-or-more groups of `letters+digits?` in one case, joined by `sep`.
pub open spec fn spec_is_sep_format(s: Seq<char>, sep: char, upper: bool) -> bool {
    &&& s.len() > 0
    &&& (if upper {
        is_upper_char(s[0])
    } else {
        is_lower_char(s[0])
    })
    &&& s[s.len() - 1] != sep
    &&& (forall|i: int|
        0 <= i < s.len() ==> ((if upper {
            is_upper_char(#[trigger] s[i])
        } else {
            is_lower_char(s[i])
        }) || is_digit_char(s[i]) || s[i] == sep))
    &&& (forall|i: int|
        #![trigger s[i]]
        0 <= i && i + 1 < s.len() ==> sep_pair_ok(s[i], s[i + 1], sep, upper))
}

pub open spec fn spec_is_screaming_snake(s: Seq<char>) -> bool {
    spec_is_sep_format(s, '_', true)
}

pub open spec fn spec_is_snake(s: Seq<char>) -> bool {
    spec_is_sep_format(s, '_', false)
}

pub open spec fn spec_is_kebab(s: Seq<char>) -> bool {
    spec_is_sep_format(s, '-', false)
}

/// Alphanumeric only, a new word begins at each uppercase letter, and a digit
/// run ends its word: no lowercase letter may follow a digit.
pub open spec fn spec_is_caps_format(s: Seq<char>, upper_start: bool) -> bool {
    &&& s.len() > 0
    &&& (if upper_start {
        is_upper_char(s[0])
    } else {
        is_lower_char(s[0])
    })
    &&& (forall|i: int| 0 <= i < s.len() ==> is_alnum_char(#[trigger] s[i]))
    &&& (forall|i: int|
        #![trigger s[i]]
        0 <= i && i + 1 < s.len() ==> (is_digit_char(s[i]) ==> !is_lower_char(s[i + 1])))
}

pub open spec fn spec_is_camel(s: Seq<char>) -> bool {
    spec_is_caps_format(s, false)
}

pub open spec fn spec_is_pascal(s: Seq<char>) -> bool {
    spec_is_caps_format(s, true)
}

/// The fixed-priority classification: the first predicate that matches, in
/// this order, decides the variant; `Invalid` is the fall-through.
pub open spec fn classified_as(r: NamingCase, s: Seq<char>) -> bool {
    &&& r.text_view() == s
    &&& (r is SingleWord <==> spec_is_single_word(s))
    &&& (r is ScreamingSnake <==> !spec_is_single_word(s) && spec_is_screaming_snake(s))
    &&& (r is Snake <==> !spec_is_single_word(s) && !spec_is_screaming_snake(s) && spec_is_snake(
        s,
    ))
    &&& (r is Kebab <==> !spec_is_single_word(s) && !spec_is_screaming_snake(s) && !spec_is_snake(
        s,
    ) && spec_is_kebab(s))
    &&& (r is Camel <==> !spec_is_single_word(s) && !spec_is_screaming_snake(s) && !spec_is_snake(
        s,
    ) && !spec_is_kebab(s) && spec_is_camel(s))
    &&& (r is Pascal <==> !spec_is_single_word(s) && !spec_is_screaming_snake(s) && !spec_is_snake(
        s,
    ) && !spec_is_kebab(s) && !spec_is_camel(s) && spec_is_pascal(s))
    &&& (r is Invalid <==> !spec_is_single_word(s) && !spec_is_screaming_snake(s)
        && !spec_is_snake(s) && !spec_is_kebab(s) && !spec_is_camel(s) && !spec_is_pascal(s))
}

/// The first position in `s` that holds `c`; `s.len()` if none does.
pub open spec fn spec_find_char(s: Seq<char>, c: char) -> int
    decreases s.len(),
{
    if s.len() == 0 {
        0
    } else if s[0] == c {
        0
    } else {
        1 + spec_find_char(s.drop_first(), c)
    }
}

pub proof fn lemma_find_char(s: Seq<char>, c: char)
    ensures
        0 <= spec_find_char(s, c) <= s.len(),
        forall|k: int| 0 <= k < spec_find_char(s, c) ==> s[k] != c,
        spec_find_char(s, c) < s.len() ==> s[spec_find_char(s, c)] == c,
    decreases s.len(),
{
    if s.len() > 0 && s[0] != c {
        let t = s.drop_first();
        lemma_find_char(t, c);
        let f = spec_find_char(s, c);
        assert forall|k: int| 0 <= k < f implies s[k] != c by {
            if k >= 1 {
                assert(t[k - 1] == s[k]);
                assert(t[k - 1] != c);
            }
        }
        if f < s.len() {
            assert(t[f - 1] == s[f]);
        }
    }
}

/// The first position in `s` that holds an uppercase letter; `s.len()` if
/// none does.
pub open spec fn spec_find_upper(s: Seq<char>) -> int
    decreases s.len(),
{
    if s.len() == 0 {
        0
    } else if is_upper_char(s[0]) {
        0
    } else {
        1 + spec_find_upper(s.drop_first())
    }
}

pub proof fn lemma_find_upper(s: Seq<char>)
    ensures
        0 <= spec_find_upper(s) <= s.len(),
        forall|k: int| 0 <= k < spec_find_upper(s) ==> !is_upper_char(#[trigger] s[k]),
        spec_find_upper(s) < s.len() ==> is_upper_char(s[spec_find_upper(s)]),
    decreases s.len(),
{
    if s.len() > 0 && !is_upper_char(s[0]) {
        let t = s.drop_first();
        lemma_find_upper(t);
        let f = spec_find_upper(s);
        assert forall|k: int| 0 <= k < f implies !is_upper_char(#[trigger] s[k]) by {
            if k >= 1 {
                assert(t[k - 1] == s[k]);
                assert(!is_upper_char(t[k - 1]));
            }
        }
        if f < s.len() {
            assert(t[f - 1] == s[f]);
        }
    }
}

/// One group of a separator-delimited convention: letters of the right case,
/// then optional digits.
pub open spec fn is_cased_word(w: Seq<char>, upper: bool) -> bool {
    &&& w.len() > 0
    &&& (if upper {
        is_upper_char(w[0])
    } else {
        is_lower_char(w[0])
    })
    &&& (forall|i: int|
        0 <= i < w.len() ==> ((if upper {
            is_upper_char(#[trigger] w[i])
        } else {
            is_lower_char(w[i])
        }) || is_digit_char(w[i])))
    &&& (forall|i: int|
        #![trigger w[i]]
        0 <= i && i + 1 < w.len() ==> (is_digit_char(w[i]) ==> is_digit_char(w[i + 1])))
}

/// One word recovered from a camel- or pascal-shaped string: no uppercase
/// letter after the first character, digits only at the end.
pub open spec fn is_hump_word(w: Seq<char>) -> bool {
    &&& w.len() > 0
    &&& (forall|i: int| 0 <= i < w.len() ==> is_alnum_char(#[trigger] w[i]))
    &&& (forall|i: int| 1 <= i < w.len() ==> !is_upper_char(#[trigger] w[i]))
    &&& (forall|i: int|
        #![trigger w[i]]
        0 <= i && i + 1 < w.len() ==> (is_digit_char(w[i]) ==> is_digit_char(w[i + 1])))
}

/// Every group that splitting a separator-delimited string produces is a
/// proper group: non-empty, letters of the convention's case first, digits
/// last.
pub proof fn lemma_sep_format_groups(s: Seq<char>, sep: char, upper: bool)
    requires
        spec_is_sep_format(s, sep, upper),
        !is_alnum_char(sep),
    ensures
        forall|k: int|
            0 <= k < spec_split(s, sep).len() ==> is_cased_word(
                #[trigger] spec_split(s, sep)[k],
                upper,
            ),
    decreases s.len(),
{
    let j = spec_find_char(s, sep);
    lemma_find_char(s, sep);
    crate::words::lemma_split_first_group(s, sep, j);
    if j == s.len() {
        assert(is_cased_word(s, upper));
    } else {
        // The first character is a letter, so the first group is non-empty.
        assert(s[0] != sep);
        let g = s.take(j);
        assert(is_cased_word(g, upper));
        // The tail after the separator is itself a separator-delimited string.
        let t = s.skip(j + 1);
        assert(j + 1 < s.len());
        assert(t.len() > 0);
        assert(t[0] == s[j + 1]);
        assert(sep_pair_ok(s[j], s[j + 1], sep, upper));
        assert(t[t.len() - 1] == s[s.len() - 1]);
        assert(forall|i: int|
            0 <= i < t.len() ==> ((if upper {
                is_upper_char(#[trigger] t[i])
            } else {
                is_lower_char(t[i])
            }) || is_digit_char(t[i]) || t[i] == sep)) by {
            assert(forall|i: int| 0 <= i < t.len() ==> t[i] == s[i + j + 1]);
        }
        assert(forall|i: int|
            #![trigger t[i]]
            0 <= i && i + 1 < t.len() ==> sep_pair_ok(t[i], t[i + 1], sep, upper)) by {
            assert(forall|i: int| 0 <= i < t.len() ==> t[i] == s[i + j + 1]);
        }
        assert(spec_is_sep_format(t, sep, upper));
        lemma_sep_format_groups(t, sep, upper);
        assert(forall|k: int|
            1 <= k < spec_split(s, sep).len() ==> spec_split(s, sep)[k] == spec_split(t, sep)[k
                - 1]);
    }
}

/// Every word of a camel- or pascal-shaped string is a proper word; every
/// word but possibly the first begins with an uppercase letter, and the first
/// begins with the string's first character.
pub proof fn lemma_caps_format_words(s: Seq<char>, upper_start: bool)
    requires
        spec_is_caps_format(s, upper_start),
    ensures
        spec_hump_words(s).len() >= 1,
        forall|k: int|
            0 <= k < spec_hump_words(s).len() ==> is_hump_word(#[trigger] spec_hump_words(s)[k]),
        forall|k: int|
            1 <= k < spec_hump_words(s).len() ==> is_upper_char(
                #[trigger] spec_hump_words(s)[k][0],
            ),
        spec_hump_words(s)[0][0] == s[0],
    decreases s.len(),
{
    let u = s.skip(1);
    let j = 1 + spec_find_upper(u);
    lemma_find_upper(u);
    assert forall|i: int| 1 <= i < j implies !is_upper_char(#[trigger] s[i]) by {
        assert(u[i - 1] == s[i]);
        assert(!is_upper_char(u[i - 1]));
    }
    if j < s.len() {
        assert(u[j - 1] == s[j]);
    }
    assert(j == s.len() || is_upper_char(s[j]));
    crate::words::lemma_hump_first_word(s, j);
    if j == s.len() {
        assert(is_hump_word(s));
        assert(spec_hump_words(s) == seq![s]);
    } else {
        let g = s.take(j);
        assert(is_hump_word(g));
        let t = s.skip(j);
        assert(t.len() > 0);
        assert(t[0] == s[j]);
        assert(forall|i: int| 0 <= i < t.len() ==> t[i] == s[i + j]);
        assert(spec_is_caps_format(t, true));
        lemma_caps_format_words(t, true);
        assert(forall|k: int|
            1 <= k < spec_hump_words(s).len() ==> spec_hump_words(s)[k] == spec_hump_words(t)[k
                - 1]);
    }
}

/// A camel-shaped token that is not a single word satisfies none of the
/// predicates that the classifier tries before the camel one, so the
/// classifier tags it `Camel`.
pub proof fn lemma_camel_priority(s: Seq<char>)
    requires
        spec_is_camel(s),
        !spec_is_single_word(s),
    ensures
        !spec_is_screaming_snake(s),
        !spec_is_snake(s),
        !spec_is_kebab(s),
{
    assert(!is_upper_char(s[0]));
    if spec_is_snake(s) {
        assert(forall|i: int| 0 <= i < s.len() ==> s[i] != '_') by {
            assert(forall|i: int| 0 <= i < s.len() ==> is_alnum_char(#[trigger] s[i]));
        }
        assert(is_word(s));
        assert(forall|i: int|
            1 <= i < s.len() ==> (is_letter_char(#[trigger] s[i]) ==> is_lower_char(s[i])));
        assert(spec_is_single_word(s));
    }
    if spec_is_kebab(s) {
        assert(forall|i: int| 0 <= i < s.len() ==> s[i] != '-') by {
            assert(forall|i: int| 0 <= i < s.len() ==> is_alnum_char(#[trigger] s[i]));
        }
        assert(is_word(s));
        assert(forall|i: int|
            1 <= i < s.len() ==> (is_letter_char(#[trigger] s[i]) ==> is_lower_char(s[i])));
        assert(spec_is_single_word(s));
    }
}

/// matches `^(?:[a-z]+|[A-Z]+|[A-Z][a-z]+)\d*$`
pub fn is_single_word(word: &str) -> (b: bool)
    ensures
        b == spec_is_single_word(word@),
{
    let n = word.unicode_len();
    if n == 0 {
        return false;
    }
    let c0 = word.get_char(0);
    if !is_letter(c0) {
        return false;
    }
    let mut tail_lower = true;
    let mut all_upper = is_upper(c0);
    let mut prev = c0;
    let mut i: usize = 1;
    while i < n
        invariant
            1 <= i <= n,
            n == word@.len(),
            prev == word@[i - 1],
            is_letter_char(word@[0]),
            forall|k: int| 0 <= k < i ==> is_alnum_char(#[trigger] word@[k]),
            forall|k: int|
                #![trigger word@[k]]
                0 <= k && k + 1 < i ==> (is_digit_char(word@[k]) ==> is_digit_char(word@[k + 1])),
            tail_lower == (forall|k: int|
                1 <= k < i ==> (is_letter_char(#[trigger] word@[k]) ==> is_lower_char(word@[k]))),
            all_upper == (forall|k: int|
                0 <= k < i ==> (is_letter_char(#[trigger] word@[k]) ==> is_upper_char(word@[k]))),
        decreases n - i,
    {
        let c = word.get_char(i);
        if !is_alnum(c) {
            return false;
        }
        if is_digit(prev) && !is_digit(c) {
            return false;
        }
        if is_letter(c) && !is_lower(c) {
            tail_lower = false;
        }
        if is_letter(c) && !is_upper(c) {
            all_upper = false;
        }
        prev = c;
        i = i + 1;
    }
    tail_lower || all_upper
}

fn check_sep_format(s: &str, sep: char, upper: bool) -> (b: bool)
    ensures
        b == spec_is_sep_format(s@, sep, upper),
{
    let n = s.unicode_len();
    if n == 0 {
        return false;
    }
    let c0 = s.get_char(0);
    let first_ok = if upper {
        is_upper(c0)
    } else {
        is_lower(c0)
    };
    if !first_ok {
        return false;
    }
    let mut prev = c0;
    let mut i: usize = 1;
    while i < n
        invariant
            1 <= i <= n,
            n == s@.len(),
            prev == s@[i - 1],
            if upper {
                is_upper_char(s@[0])
            } else {
                is_lower_char(s@[0])
            },
            forall|k: int|
                0 <= k < i ==> ((if upper {
                    is_upper_char(#[trigger] s@[k])
                } else {
                    is_lower_char(s@[k])
                }) || is_digit_char(s@[k]) || s@[k] == sep),
            forall|k: int|
                #![trigger s@[k]]
                0 <= k && k + 1 < i ==> sep_pair_ok(s@[k], s@[k + 1], sep, upper),
        decreases n - i,
    {
        let c = s.get_char(i);
        let case_ok = if upper {
            is_upper(c)
        } else {
            is_lower(c)
        };
        if !(case_ok || is_digit(c) || c == sep) {
            return false;
        }
        if prev == sep && !case_ok {
            return false;
        }
        if is_digit(prev) && !(is_digit(c) || c == sep) {
            return false;
        }
        prev = c;
        i = i + 1;
    }
    prev != sep
}

fn check_caps_format(s: &str, upper_start: bool) -> (b: bool)
    ensures
        b == spec_is_caps_format(s@, upper_start),
{
    let n = s.unicode_len();
    if n == 0 {
        return false;
    }
    let c0 = s.get_char(0);
    let first_ok = if upper_start {
        is_upper(c0)
    } else {
        is_lower(c0)
    };
    if !first_ok {
        return false;
    }
    let mut prev = c0;
    let mut i: usize = 1;
    while i < n
        invariant
            1 <= i <= n,
            n == s@.len(),
            prev == s@[i - 1],
            if upper_start {
                is_upper_char(s@[0])
            } else {
                is_lower_char(s@[0])
            },
            forall|k: int| 0 <= k < i ==> is_alnum_char(#[trigger] s@[k]),
            forall|k: int|
                #![trigger s@[k]]
                0 <= k && k + 1 < i ==> (is_digit_char(s@[k]) ==> !is_lower_char(s@[k + 1])),
        decreases n - i,
    {
        let c = s.get_char(i);
        if !is_alnum(c) {
            return false;
        }
        if is_digit(prev) && is_lower(c) {
            return false;
        }
        prev = c;
        i = i + 1;
    }
    true
}

/// matches `^[A-Z]+\d*(_[A-Z]+\d*)*$`
pub fn is_screaming_snake(identifier: &str) -> (b: bool)
    ensures
        b == spec_is_screaming_snake(identifier@),
{
    check_sep_format(identifier, '_', true)
}

/// matches `^[a-z]+\d*(_[a-z]+\d*)*$`
pub fn is_snake(identifier: &str) -> (b: bool)
    ensures
        b == spec_is_snake(identifier@),
{
    check_sep_format(identifier, '_', false)
}

/// matches `^[a-z]+\d*(-[a-z]+\d*)*$`
pub fn is_kebab(identifier: &str) -> (b: bool)
    ensures
        b == spec_is_kebab(identifier@),
{
    check_sep_format(identifier, '-', false)
}

/// matches `^[a-z]+\d*([A-Z][a-z]*\d*)*$`
pub fn is_camel(identifier: &str) -> (b: bool)
    ensures
        b == spec_is_camel(identifier@),
{
    check_caps_format(identifier, false)
}

/// matches `^([A-Z][a-z]*\d*)+$`
pub fn is_pascal(identifier: &str) -> (b: bool)
    ensures
        b == spec_is_pascal(identifier@),
{
    check_caps_format(identifier, true)
}

/// Determine which format the identifier belongs to.
///
/// The predicates are tried in a fixed priority order -- single word,
/// screaming snake, snake, kebab, camel, pascal -- and the first match wins;
/// a bare word would trivially satisfy several of the later predicates, so
/// checking it first keeps the answer unambiguous. Everything else falls
/// through to [`NamingCase::Invalid`].
pub fn which_case(identifier: &str) -> (r: NamingCase)
    ensures
        classified_as(r, identifier@),
        r.well_formed(),
{
    if is_single_word(identifier) {
        NamingCase::SingleWord(identifier.to_owned())
    } else if is_screaming_snake(identifier) {
        NamingCase::ScreamingSnake(identifier.to_owned())
    } else if is_snake(identifier) {
        NamingCase::Snake(identifier.to_owned())
    } else if is_kebab(identifier) {
        NamingCase::Kebab(identifier.to_owned())
    } else if is_camel(identifier) {
        NamingCase::Camel(identifier.to_owned())
    } else if is_pascal(identifier) {
        NamingCase::Pascal(identifier.to_owned())
    } else {
        NamingCase::Invalid(identifier.to_owned())
    }
}

} // verus!
