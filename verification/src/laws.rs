use vstd::prelude::*;

use crate::chars::{is_alnum_char, is_digit_char, is_letter_char, is_lower_char, is_upper_char, lemma_case_char};
use crate::detector::{
    classified_as, is_cased_word, lemma_caps_format_words, lemma_sep_format_groups,
    spec_is_camel, spec_is_kebab, spec_is_pascal, spec_is_screaming_snake, spec_is_sep_format,
    spec_is_single_word, spec_is_snake,
};
use crate::naming_case::NamingCase;
use crate::words::{
    is_word, lemma_concat_hump_words, lemma_join_split, lemma_lower_seq_id, lemma_title_seq_id,
    lemma_upper_seq_id, map_lower, map_title, map_upper, spec_compose_camel, spec_compose_kebab,
    spec_compose_pascal, spec_compose_screaming_snake, spec_compose_snake, spec_concat,
    spec_hump_words, spec_join, spec_split, to_lower_seq, to_title_seq, to_upper_seq,
};

verus! {

// Laws of the classification and conversion engine, stated over the same
// specification functions that the executable functions' contracts use.

// --- how case-mapping moves whole words between the conventions' shapes ---

proof fn lemma_upper_word(w: Seq<char>)
    requires
        is_word(w),
    ensures
        is_cased_word(to_upper_seq(w), true),
        to_upper_seq(w).len() == w.len(),
        forall|i: int|
            0 <= i < w.len() ==> is_digit_char(#[trigger] to_upper_seq(w)[i]) == is_digit_char(
                w[i],
            ),
{
    let u = to_upper_seq(w);
    assert forall|i: int| 0 <= i < u.len() implies (is_upper_char(#[trigger] u[i])
        || is_digit_char(u[i])) && is_digit_char(u[i]) == is_digit_char(w[i]) by {
        lemma_case_char(w[i]);
    }
    lemma_case_char(w[0]);
}

proof fn lemma_lower_word(w: Seq<char>)
    requires
        is_word(w),
    ensures
        is_cased_word(to_lower_seq(w), false),
        to_lower_seq(w).len() == w.len(),
        forall|i: int|
            0 <= i < w.len() ==> is_digit_char(#[trigger] to_lower_seq(w)[i]) == is_digit_char(
                w[i],
            ),
{
    let u = to_lower_seq(w);
    assert forall|i: int| 0 <= i < u.len() implies (is_lower_char(#[trigger] u[i])
        || is_digit_char(u[i])) && is_digit_char(u[i]) == is_digit_char(w[i]) by {
        lemma_case_char(w[i]);
    }
    lemma_case_char(w[0]);
}

proof fn lemma_title_word(w: Seq<char>)
    requires
        is_word(w),
    ensures
        to_title_seq(w).len() == w.len(),
        is_upper_char(to_title_seq(w)[0]),
        forall|i: int| 0 <= i < w.len() ==> is_alnum_char(#[trigger] to_title_seq(w)[i]),
        forall|i: int| 1 <= i < w.len() ==> !is_upper_char(#[trigger] to_title_seq(w)[i]),
        forall|i: int|
            0 <= i < w.len() ==> is_digit_char(#[trigger] to_title_seq(w)[i]) == is_digit_char(
                w[i],
            ),
{
    let t = to_title_seq(w);
    lemma_case_char(w[0]);
    assert forall|i: int| 1 <= i < w.len() implies is_alnum_char(#[trigger] t[i])
        && !is_upper_char(t[i]) && is_digit_char(t[i]) == is_digit_char(w[i]) by {
        assert(t[i] == crate::chars::to_lower_char(w[i]));
        lemma_case_char(w[i]);
    }
}

/// Joining case-pure groups with a separator yields a string of the matching
/// separator-delimited convention.
#[verifier::rlimit(60)]
proof fn lemma_join_cased(ws: Seq<Seq<char>>, sep: char, upper: bool)
    requires
        ws.len() >= 1,
        forall|k: int| 0 <= k < ws.len() ==> is_cased_word(#[trigger] ws[k], upper),
        !is_alnum_char(sep),
    ensures
        spec_is_sep_format(spec_join(ws, sep), sep, upper),
        spec_join(ws, sep)[0] == ws[0][0],
        spec_join(ws, sep).len() >= ws[0].len(),
    decreases ws.len(),
{
    let r = spec_join(ws, sep);
    if ws.len() == 1 {
        assert(r == ws[0]);
        assert(spec_is_sep_format(r, sep, upper));
    } else {
        let rest = ws.drop_first();
        assert(forall|k: int| 0 <= k < rest.len() ==> is_cased_word(#[trigger] rest[k], upper));
        lemma_join_cased(rest, sep, upper);
        let q = spec_join(rest, sep);
        let w0 = ws[0];
        assert(r == w0 + seq![sep] + q);
        let b = w0.len() as int;
        assert(r.len() == b + 1 + q.len());
        assert forall|i: int|
            0 <= i < r.len() implies ((if upper {
            is_upper_char(#[trigger] r[i])
        } else {
            is_lower_char(r[i])
        }) || is_digit_char(r[i]) || r[i] == sep) by {
            if i < b {
                assert(r[i] == w0[i]);
            } else if i == b {
                assert(r[i] == sep);
            } else {
                assert(r[i] == q[i - b - 1]);
            }
        }
        assert forall|i: int|
            #![trigger r[i]]
            0 <= i && i + 1 < r.len() implies crate::detector::sep_pair_ok(
            r[i],
            r[i + 1],
            sep,
            upper,
        ) by {
            if i + 1 < b {
                assert(r[i] == w0[i] && r[i + 1] == w0[i + 1]);
            } else if i + 1 == b {
                // the group's last character, then the separator
                assert(r[i] == w0[i] && r[i + 1] == sep);
            } else if i == b {
                assert(r[i] == sep && r[i + 1] == q[0]);
                assert(q[0] == rest[0][0]);
            } else {
                assert(r[i] == q[i - b - 1] && r[i + 1] == q[i - b]);
            }
        }
        assert(r[r.len() - 1] == q[q.len() - 1]);
        assert(r[0] == w0[0]);
    }
}

/// Concatenating the title-cased forms of proper words yields a
/// pascal-shaped string.
proof fn lemma_concat_title_pascal(ws: Seq<Seq<char>>)
    requires
        ws.len() >= 1,
        forall|k: int| 0 <= k < ws.len() ==> is_word(#[trigger] ws[k]),
    ensures
        spec_is_pascal(spec_compose_pascal(ws)),
        spec_compose_pascal(ws)[0] == to_title_seq(ws[0])[0],
    decreases ws.len(),
{
    let m = map_title(ws);
    let r = spec_concat(m);
    lemma_title_word(ws[0]);
    if ws.len() == 1 {
        assert(m.drop_first() =~= Seq::<Seq<char>>::empty());
        assert(spec_concat(m.drop_first()) =~= Seq::<char>::empty());
        assert(r == m[0] + spec_concat(m.drop_first()));
        assert(m[0] == to_title_seq(ws[0]));
        assert(r =~= to_title_seq(ws[0]));
        assert(spec_is_pascal(r));
    } else {
        let rest = ws.drop_first();
        assert(forall|k: int| 0 <= k < rest.len() ==> is_word(#[trigger] rest[k]));
        lemma_concat_title_pascal(rest);
        let q = spec_compose_pascal(rest);
        let t0 = to_title_seq(ws[0]);
        assert(m.drop_first() =~= map_title(rest));
        assert(r == t0 + q);
        let b = t0.len() as int;
        assert(q.len() > 0);
        assert forall|i: int| 0 <= i < r.len() implies is_alnum_char(#[trigger] r[i]) by {
            if i < b {
                assert(r[i] == t0[i]);
            } else {
                assert(r[i] == q[i - b]);
            }
        }
        assert forall|i: int|
            #![trigger r[i]]
            0 <= i && i + 1 < r.len() implies (is_digit_char(r[i]) ==> !is_lower_char(
            r[i + 1],
        )) by {
            if i + 1 < b {
                assert(r[i] == t0[i] && r[i + 1] == t0[i + 1]);
                assert(is_digit_char(ws[0][i]) ==> is_digit_char(ws[0][i + 1]));
                lemma_case_char(ws[0][i + 1]);
            } else if i + 1 == b {
                assert(r[i] == t0[i] && r[i + 1] == q[0]);
                assert(is_upper_char(q[0]));
            } else {
                assert(r[i] == q[i - b] && r[i + 1] == q[i - b + 1]);
            }
        }
        assert(r[0] == t0[0]);
        assert(spec_is_pascal(r));
    }
}

// --- the round-trip law (composing one's own convention is the identity) ---

proof fn lemma_round_trip_sep(s: Seq<char>, sep: char, upper: bool)
    requires
        spec_is_sep_format(s, sep, upper),
        !is_alnum_char(sep),
    ensures
        upper ==> spec_join(map_upper(spec_split(s, sep)), sep) == s,
        !upper ==> spec_join(map_lower(spec_split(s, sep)), sep) == s,
{
    lemma_sep_format_groups(s, sep, upper);
    let gs = spec_split(s, sep);
    if upper {
        assert forall|k: int| 0 <= k < gs.len() implies #[trigger] map_upper(gs)[k] == gs[k] by {
            assert forall|i: int|
                0 <= i < gs[k].len() implies !is_lower_char(#[trigger] gs[k][i]) by {}
            lemma_upper_seq_id(gs[k]);
        }
        assert(map_upper(gs) =~= gs);
    } else {
        assert forall|k: int| 0 <= k < gs.len() implies #[trigger] map_lower(gs)[k] == gs[k] by {
            assert forall|i: int|
                0 <= i < gs[k].len() implies !is_upper_char(#[trigger] gs[k][i]) by {}
            lemma_lower_seq_id(gs[k]);
        }
        assert(map_lower(gs) =~= gs);
    }
    lemma_join_split(s, sep);
}

proof fn lemma_round_trip_pascal(s: Seq<char>)
    requires
        spec_is_pascal(s),
    ensures
        spec_compose_pascal(spec_hump_words(s)) == s,
{
    lemma_caps_format_words(s, true);
    let ws = spec_hump_words(s);
    assert forall|k: int| 0 <= k < ws.len() implies #[trigger] map_title(ws)[k] == ws[k] by {
        if k == 0 {
            assert(ws[0][0] == s[0]);
            assert(!is_lower_char(ws[k][0]));
        }
        lemma_title_seq_id(ws[k]);
    }
    assert(map_title(ws) =~= ws);
    lemma_concat_hump_words(s);
}

proof fn lemma_round_trip_camel(s: Seq<char>)
    requires
        spec_is_camel(s),
    ensures
        spec_compose_camel(spec_hump_words(s)) == s,
{
    lemma_caps_format_words(s, false);
    let ws = spec_hump_words(s);
    assert(ws[0][0] == s[0]);
    assert(!is_upper_char(ws[0][0]));
    assert forall|i: int| 0 <= i < ws[0].len() implies !is_upper_char(#[trigger] ws[0][i]) by {}
    lemma_lower_seq_id(ws[0]);
    let rest = ws.drop_first();
    assert forall|k: int| 0 <= k < rest.len() implies #[trigger] map_title(rest)[k] == rest[k] by {
        assert(rest[k] == ws[k + 1]);
        assert(is_upper_char(ws[k + 1][0]));
        lemma_title_seq_id(rest[k]);
    }
    assert(map_title(rest) =~= rest);
    lemma_concat_hump_words(s);
    assert(spec_concat(ws) == ws[0] + spec_concat(rest));
    assert(spec_compose_camel(ws) == to_lower_seq(ws[0]) + spec_concat(map_title(rest)));
    assert(spec_compose_camel(ws) == s);
}

/// Round-trip law: a classified token, rendered back into the convention its
/// variant names, reproduces the original text byte for byte. For the
/// `SingleWord` variant the token's own format is the text itself.
pub proof fn lemma_round_trip(r: NamingCase, s: Seq<char>)
    requires
        classified_as(r, s),
    ensures
        r is SingleWord ==> r.text_view() == s,
        r is ScreamingSnake ==> spec_compose_screaming_snake(r.words_view()) == s,
        r is Snake ==> spec_compose_snake(r.words_view()) == s,
        r is Kebab ==> spec_compose_kebab(r.words_view()) == s,
        r is Camel ==> spec_compose_camel(r.words_view()) == s,
        r is Pascal ==> spec_compose_pascal(r.words_view()) == s,
{
    if r is ScreamingSnake {
        lemma_round_trip_sep(s, '_', true);
    }
    if r is Snake {
        lemma_round_trip_sep(s, '_', false);
    }
    if r is Kebab {
        lemma_round_trip_sep(s, '-', false);
    }
    if r is Camel {
        lemma_round_trip_camel(s);
    }
    if r is Pascal {
        lemma_round_trip_pascal(s);
    }
}

// --- the mutual-exclusivity law for rendered word lists ---

/// The rendering of two or more words in SCREAMING_SNAKE_CASE matches exactly
/// that convention's predicate and no other, nor the single-word one.
pub proof fn lemma_exclusive_screaming_snake_render(ws: Seq<Seq<char>>)
    requires
        ws.len() >= 2,
        forall|k: int| 0 <= k < ws.len() ==> is_word(#[trigger] ws[k]),
    ensures
        spec_is_screaming_snake(spec_compose_screaming_snake(ws)),
        !spec_is_single_word(spec_compose_screaming_snake(ws)),
        !spec_is_snake(spec_compose_screaming_snake(ws)),
        !spec_is_kebab(spec_compose_screaming_snake(ws)),
        !spec_is_camel(spec_compose_screaming_snake(ws)),
        !spec_is_pascal(spec_compose_screaming_snake(ws)),
{
    let m = map_upper(ws);
    assert forall|k: int| 0 <= k < m.len() implies is_cased_word(#[trigger] m[k], true) by {
        lemma_upper_word(ws[k]);
    }
    lemma_join_cased(m, '_', true);
    let r = spec_compose_screaming_snake(ws);
    lemma_upper_word(ws[0]);
    let b = m[0].len() as int;
    assert(r == m[0] + seq!['_'] + spec_join(m.drop_first(), '_'));
    assert(r[b] == '_');
    assert(0 < b < r.len());
    assert(!is_alnum_char('_'));
    assert(is_upper_char(r[0]));
}

/// The rendering of two or more words in snake_case matches exactly that
/// convention's predicate and no other, nor the single-word one.
pub proof fn lemma_exclusive_snake_render(ws: Seq<Seq<char>>)
    requires
        ws.len() >= 2,
        forall|k: int| 0 <= k < ws.len() ==> is_word(#[trigger] ws[k]),
    ensures
        spec_is_snake(spec_compose_snake(ws)),
        !spec_is_single_word(spec_compose_snake(ws)),
        !spec_is_screaming_snake(spec_compose_snake(ws)),
        !spec_is_kebab(spec_compose_snake(ws)),
        !spec_is_camel(spec_compose_snake(ws)),
        !spec_is_pascal(spec_compose_snake(ws)),
{
    let m = map_lower(ws);
    assert forall|k: int| 0 <= k < m.len() implies is_cased_word(#[trigger] m[k], false) by {
        lemma_lower_word(ws[k]);
    }
    lemma_join_cased(m, '_', false);
    let r = spec_compose_snake(ws);
    lemma_lower_word(ws[0]);
    let b = m[0].len() as int;
    assert(r == m[0] + seq!['_'] + spec_join(m.drop_first(), '_'));
    assert(r[b] == '_');
    assert(0 < b < r.len());
    assert(!is_alnum_char('_'));
    assert(is_lower_char(r[0]));
}

/// The rendering of two or more words in kebab-case matches exactly that
/// convention's predicate and no other, nor the single-word one.
pub proof fn lemma_exclusive_kebab_render(ws: Seq<Seq<char>>)
    requires
        ws.len() >= 2,
        forall|k: int| 0 <= k < ws.len() ==> is_word(#[trigger] ws[k]),
    ensures
        spec_is_kebab(spec_compose_kebab(ws)),
        !spec_is_single_word(spec_compose_kebab(ws)),
        !spec_is_screaming_snake(spec_compose_kebab(ws)),
        !spec_is_snake(spec_compose_kebab(ws)),
        !spec_is_camel(spec_compose_kebab(ws)),
        !spec_is_pascal(spec_compose_kebab(ws)),
{
    let m = map_lower(ws);
    assert forall|k: int| 0 <= k < m.len() implies is_cased_word(#[trigger] m[k], false) by {
        lemma_lower_word(ws[k]);
    }
    lemma_join_cased(m, '-', false);
    let r = spec_compose_kebab(ws);
    lemma_lower_word(ws[0]);
    let b = m[0].len() as int;
    assert(r == m[0] + seq!['-'] + spec_join(m.drop_first(), '-'));
    assert(r[b] == '-');
    assert(0 < b < r.len());
    assert(!is_alnum_char('-'));
    assert(is_lower_char(r[0]));
}

/// The rendering of two or more words in camelCase matches exactly that
/// convention's predicate and no other, nor the single-word one.
pub proof fn lemma_exclusive_camel_render(ws: Seq<Seq<char>>)
    requires
        ws.len() >= 2,
        forall|k: int| 0 <= k < ws.len() ==> is_word(#[trigger] ws[k]),
    ensures
        spec_is_camel(spec_compose_camel(ws)),
        !spec_is_single_word(spec_compose_camel(ws)),
        !spec_is_screaming_snake(spec_compose_camel(ws)),
        !spec_is_snake(spec_compose_camel(ws)),
        !spec_is_kebab(spec_compose_camel(ws)),
        !spec_is_pascal(spec_compose_camel(ws)),
{
    let r = spec_compose_camel(ws);
    let w0 = to_lower_seq(ws[0]);
    lemma_lower_word(ws[0]);
    let rest = ws.drop_first();
    assert(forall|k: int| 0 <= k < rest.len() ==> is_word(#[trigger] rest[k]));
    lemma_concat_title_pascal(rest);
    let q = spec_compose_pascal(rest);
    assert(r == w0 + q);
    let b = w0.len() as int;
    assert(q.len() > 0);
    assert(is_upper_char(r[b]) && b >= 1) by {
        assert(r[b] == q[0]);
    }
    assert(is_lower_char(r[0])) by {
        assert(r[0] == w0[0]);
    }
    assert(is_letter_char(r[b]));
    // the rendering satisfies the camel predicate
    assert forall|i: int| 0 <= i < r.len() implies is_alnum_char(#[trigger] r[i]) by {
        if i < b {
            assert(r[i] == w0[i]);
            lemma_case_char(ws[0][i]);
        } else {
            assert(r[i] == q[i - b]);
        }
    }
    assert forall|i: int|
        #![trigger r[i]]
        0 <= i && i + 1 < r.len() implies (is_digit_char(r[i]) ==> !is_lower_char(r[i + 1])) by {
        if i + 1 < b {
            assert(r[i] == w0[i] && r[i + 1] == w0[i + 1]);
            if is_digit_char(r[i]) {
                assert(is_digit_char(ws[0][i])) by {
                    lemma_case_char(ws[0][i]);
                }
                assert(is_digit_char(ws[0][i + 1]));
                lemma_case_char(ws[0][i + 1]);
            }
        } else if i + 1 == b {
            assert(r[i] == w0[i] && r[i + 1] == q[0]);
        } else {
            assert(r[i] == q[i - b] && r[i + 1] == q[i - b + 1]);
        }
    }
    assert(spec_is_camel(r));
}

/// The rendering of two or more words in PascalCase matches that convention's
/// predicate and none of the separator-delimited or camel ones; it can also
/// match the screaming-snake predicate, but only when the whole rendering is
/// a single word -- the documented single-word exception.
pub proof fn lemma_exclusive_pascal_render(ws: Seq<Seq<char>>)
    requires
        ws.len() >= 2,
        forall|k: int| 0 <= k < ws.len() ==> is_word(#[trigger] ws[k]),
    ensures
        spec_is_pascal(spec_compose_pascal(ws)),
        !spec_is_snake(spec_compose_pascal(ws)),
        !spec_is_kebab(spec_compose_pascal(ws)),
        !spec_is_camel(spec_compose_pascal(ws)),
        !spec_is_single_word(spec_compose_pascal(ws)) ==> !spec_is_screaming_snake(
            spec_compose_pascal(ws),
        ),
{
    lemma_concat_title_pascal(ws);
    let r = spec_compose_pascal(ws);
    assert(is_upper_char(r[0]));
    if spec_is_screaming_snake(r) {
        // With no separator in sight, a screaming-snake match means every
        // character is an uppercase letter or digit: a single word.
        assert forall|i: int|
            #![trigger r[i]]
            0 <= i && i + 1 < r.len() implies (is_digit_char(r[i]) ==> is_digit_char(
            r[i + 1],
        )) by {
            assert(is_alnum_char(r[i + 1]));
            assert(r[i + 1] != '_');
        }
        assert(is_word(r));
        assert forall|i: int|
            0 <= i < r.len() implies (is_letter_char(#[trigger] r[i]) ==> is_upper_char(r[i])) by {
            assert(r[i] != '_');
        }
        assert(spec_is_single_word(r));
    }
}

// --- totality and unambiguity of classification ---

/// Classification is a function of the token alone: any two classification
/// outcomes for the same text carry the same text and the same variant, so
/// every token receives exactly one tagged variant.
pub proof fn lemma_classification_unambiguous(r1: NamingCase, r2: NamingCase, s: Seq<char>)
    requires
        classified_as(r1, s),
        classified_as(r2, s),
    ensures
        r1.text_view() == r2.text_view(),
        r1 is SingleWord <==> r2 is SingleWord,
        r1 is ScreamingSnake <==> r2 is ScreamingSnake,
        r1 is Snake <==> r2 is Snake,
        r1 is Kebab <==> r2 is Kebab,
        r1 is Camel <==> r2 is Camel,
        r1 is Pascal <==> r2 is Pascal,
        r1 is Invalid <==> r2 is Invalid,
{
}

// --- rejection of tokens outside the identifier alphabet ---

/// A token holding any character outside `[A-Za-z0-9_-]` -- a symbol, or any
/// non-ASCII character -- is classified `Invalid`.
pub proof fn lemma_invalid_rejection(r: NamingCase, s: Seq<char>)
    requires
        classified_as(r, s),
        exists|i: int| 0 <= i < s.len() && !crate::chars::is_ident_char(#[trigger] s[i]),
    ensures
        r is Invalid,
{
    let i = choose|i: int| 0 <= i < s.len() && !crate::chars::is_ident_char(#[trigger] s[i]);
    assert(!is_alnum_char(s[i]));
    assert(s[i] != '_' && s[i] != '-');
    if spec_is_single_word(s) {
        assert(is_alnum_char(s[i]));
    }
    if spec_is_screaming_snake(s) {
        assert(is_upper_char(s[i]) || is_digit_char(s[i]) || s[i] == '_');
    }
    if spec_is_snake(s) {
        assert(is_lower_char(s[i]) || is_digit_char(s[i]) || s[i] == '_');
    }
    if spec_is_kebab(s) {
        assert(is_lower_char(s[i]) || is_digit_char(s[i]) || s[i] == '-');
    }
    if spec_is_camel(s) || spec_is_pascal(s) {
        assert(is_alnum_char(s[i]));
    }
}

} // verus!
