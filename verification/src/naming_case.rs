use vstd::prelude::*;

use crate::chars::{
    downcase_char, is_upper, is_upper_char, push_char, to_lower_char, to_upper_char, upcase_char,
};
use crate::detector;
use crate::detector::{
    spec_is_camel, spec_is_kebab, spec_is_pascal, spec_is_screaming_snake, spec_is_single_word,
    spec_is_snake,
};
use crate::words::{
    map_lower, map_title, map_upper, spec_compose_camel, spec_compose_kebab, spec_compose_pascal,
    spec_compose_screaming_snake, spec_compose_snake, spec_concat, spec_hump_words, spec_join,
    spec_split, to_lower_seq, to_title_seq, to_upper_seq,
};

verus! {

/// Indicates which format the string belongs to.
///
/// It holds the given [`String`] value when created, which can be got back by
/// calling [`NamingCase::text()`]. It also can be converted to a [`String`] in
/// another format, as long as it's not the [`NamingCase::Invalid`] variant.
#[derive(Debug, PartialEq)]
pub enum NamingCase {
    /// A single word will be recognized as multiple formats,
    /// so it belongs to a separate category.
    SingleWord(String),
    ScreamingSnake(String),
    Snake(String),
    Kebab(String),
    Camel(String),
    Pascal(String),
    /// Can't be recognized as a known format.
    Invalid(String),
}

impl NamingCase {
    /// The characters of the held text, whatever the variant.
    pub open spec fn text_view(&self) -> Seq<char> {
        match self {
            NamingCase::SingleWord(s) => s@,
            NamingCase::ScreamingSnake(s) => s@,
            NamingCase::Snake(s) => s@,
            NamingCase::Kebab(s) => s@,
            NamingCase::Camel(s) => s@,
            NamingCase::Pascal(s) => s@,
            NamingCase::Invalid(s) => s@,
        }
    }

    /// The held text really is of the format the variant claims. Values made
    /// by [`crate::detector::which_case`] always satisfy this; hand-built
    /// values need not.
    pub open spec fn well_formed(&self) -> bool {
        match self {
            NamingCase::SingleWord(s) => spec_is_single_word(s@),
            NamingCase::ScreamingSnake(s) => spec_is_screaming_snake(s@),
            NamingCase::Snake(s) => spec_is_snake(s@),
            NamingCase::Kebab(s) => spec_is_kebab(s@),
            NamingCase::Camel(s) => spec_is_camel(s@),
            NamingCase::Pascal(s) => spec_is_pascal(s@),
            NamingCase::Invalid(_) => true,
        }
    }

    /// The ordered words the held text decomposes into, per variant.
    pub open spec fn words_view(&self) -> Seq<Seq<char>> {
        match self {
            NamingCase::SingleWord(s) => seq![s@],
            NamingCase::ScreamingSnake(s) => spec_split(s@, '_'),
            NamingCase::Snake(s) => spec_split(s@, '_'),
            NamingCase::Kebab(s) => spec_split(s@, '-'),
            NamingCase::Camel(s) => spec_hump_words(s@),
            NamingCase::Pascal(s) => spec_hump_words(s@),
            NamingCase::Invalid(_) => seq![],
        }
    }

    /// The original input text, unchanged.
    pub fn text(&self) -> (r: &str)
        ensures
            r@ == self.text_view(),
    {
        match self {
            NamingCase::SingleWord(s) => s.as_str(),
            NamingCase::ScreamingSnake(s) => s.as_str(),
            NamingCase::Snake(s) => s.as_str(),
            NamingCase::Kebab(s) => s.as_str(),
            NamingCase::Camel(s) => s.as_str(),
            NamingCase::Pascal(s) => s.as_str(),
            NamingCase::Invalid(s) => s.as_str(),
        }
    }
}

/// Split at every occurrence of `sep`, like `str::split` does.
fn split_at_separator(s: &str, sep: char) -> (r: Vec<String>)
    ensures
        r.deep_view() == spec_split(s@, sep),
{
    let n = s.unicode_len();
    let mut r: Vec<String> = Vec::new();
    let mut start: usize = 0;
    let mut i: usize = 0;
    proof {
        assert(r.deep_view() =~= Seq::<Seq<char>>::empty());
        assert(s@.skip(0) =~= s@);
        assert(spec_split(s@, sep) =~= r.deep_view() + spec_split(s@.skip(0), sep));
    }
    while i < n
        invariant
            start <= i <= n,
            n == s@.len(),
            forall|k: int| start <= k < i ==> s@[k] != sep,
            spec_split(s@, sep) == r.deep_view() + spec_split(s@.skip(start as int), sep),
        decreases n - i,
    {
        let c = s.get_char(i);
        if c == sep {
            let g = s.substring_char(start, i);
            let ghost pre = r.deep_view();
            r.push(g.to_owned());
            proof {
                let t = s@.skip(start as int);
                crate::words::lemma_split_first_group(t, sep, i - start as int);
                assert(t.take(i - start as int) =~= g@);
                assert(t.skip(i - start + 1 as int) =~= s@.skip(i + 1 as int));
                assert(r.deep_view() =~= pre.push(g@));
                assert(spec_split(s@, sep) =~= r.deep_view() + spec_split(
                    s@.skip(i + 1 as int),
                    sep,
                ));
            }
            start = i + 1;
        }
        i = i + 1;
    }
    let g = s.substring_char(start, n);
    let ghost pre = r.deep_view();
    r.push(g.to_owned());
    proof {
        let t = s@.skip(start as int);
        crate::words::lemma_split_first_group(t, sep, n - start as int);
        assert(t =~= g@);
        assert(r.deep_view() =~= pre.push(g@));
        assert(r.deep_view() =~= spec_split(s@, sep));
    }
    r
}

/// Split a camel- or pascal-shaped string into its words: a new word starts
/// at every uppercase letter.
fn split_at_uppercase(s: &str) -> (r: Vec<String>)
    ensures
        r.deep_view() == spec_hump_words(s@),
{
    let n = s.unicode_len();
    let mut r: Vec<String> = Vec::new();
    if n == 0 {
        proof {
            assert(r.deep_view() =~= spec_hump_words(s@));
        }
        return r;
    }
    let mut start: usize = 0;
    let mut i: usize = 1;
    proof {
        assert(r.deep_view() =~= Seq::<Seq<char>>::empty());
        assert(s@.skip(0) =~= s@);
        assert(spec_hump_words(s@) =~= r.deep_view() + spec_hump_words(s@.skip(0)));
    }
    while i < n
        invariant
            start < i <= n,
            n == s@.len(),
            forall|k: int| start < k < i ==> !is_upper_char(#[trigger] s@[k]),
            spec_hump_words(s@) == r.deep_view() + spec_hump_words(s@.skip(start as int)),
        decreases n - i,
    {
        let c = s.get_char(i);
        if is_upper(c) {
            let g = s.substring_char(start, i);
            let ghost pre = r.deep_view();
            r.push(g.to_owned());
            proof {
                let t = s@.skip(start as int);
                crate::words::lemma_hump_first_word(t, i - start as int);
                assert(t.take(i - start as int) =~= g@);
                assert(t.skip(i - start as int) =~= s@.skip(i as int));
                assert(r.deep_view() =~= pre.push(g@));
                assert(spec_hump_words(s@) =~= r.deep_view() + spec_hump_words(s@.skip(i as int)));
            }
            start = i;
        }
        i = i + 1;
    }
    let g = s.substring_char(start, n);
    let ghost pre = r.deep_view();
    r.push(g.to_owned());
    proof {
        let t = s@.skip(start as int);
        crate::words::lemma_hump_first_word(t, n - start as int);
        assert(t =~= g@);
        assert(r.deep_view() =~= pre.push(g@));
        assert(r.deep_view() =~= spec_hump_words(s@));
    }
    r
}

/// Recover the ordered list of constituent words of a classified token.
///
/// This fails exactly for the [`NamingCase::Invalid`] variant, which has no
/// word decomposition; the error must be handled by the caller.
pub fn extract_words_from(case: &NamingCase) -> (r: Result<Vec<String>, &'static str>)
    requires
        case.well_formed(),
    ensures
        r is Err <==> case is Invalid,
        r matches Ok(ws) ==> ws.deep_view() == case.words_view(),
        r matches Ok(ws) ==> ws@.len() >= 1,
        r matches Ok(ws) ==> forall|k: int|
            0 <= k < ws.deep_view().len() ==> #[trigger] ws.deep_view()[k].len() > 0,
        r matches Err(m) ==> m@ == "Can't extract words from this type."@,
{
    match case {
        NamingCase::SingleWord(ori) => {
            let mut ws: Vec<String> = Vec::new();
            ws.push(ori.clone());
            proof {
                assert(ws.deep_view() =~= seq![ori@]);
            }
            Ok(ws)
        },
        NamingCase::ScreamingSnake(ori) => {
            let ws = split_at_separator(ori.as_str(), '_');
            proof {
                crate::words::lemma_split_len(ori@, '_');
                crate::detector::lemma_sep_format_groups(ori@, '_', true);
            }
            Ok(ws)
        },
        NamingCase::Snake(ori) => {
            let ws = split_at_separator(ori.as_str(), '_');
            proof {
                crate::words::lemma_split_len(ori@, '_');
                crate::detector::lemma_sep_format_groups(ori@, '_', false);
            }
            Ok(ws)
        },
        NamingCase::Kebab(ori) => {
            let ws = split_at_separator(ori.as_str(), '-');
            proof {
                crate::words::lemma_split_len(ori@, '-');
                crate::detector::lemma_sep_format_groups(ori@, '-', false);
            }
            Ok(ws)
        },
        NamingCase::Camel(ori) => {
            let ws = split_at_uppercase(ori.as_str());
            proof {
                crate::detector::lemma_caps_format_words(ori@, false);
            }
            Ok(ws)
        },
        NamingCase::Pascal(ori) => {
            let ws = split_at_uppercase(ori.as_str());
            proof {
                crate::detector::lemma_caps_format_words(ori@, true);
            }
            Ok(ws)
        },
        NamingCase::Invalid(_) => Err("Can't extract words from this type."),
    }
}

/// The greedy word decomposition of a pascal-shaped string.
pub fn extract_words_from_pascal(s: &str) -> (r: Vec<String>)
    requires
        s@.len() == 0 || crate::detector::spec_is_pascal(s@),
    ensures
        r.deep_view() == spec_hump_words(s@),
{
    split_at_uppercase(s)
}

fn lower_string(w: &str) -> (r: String)
    ensures
        r@ == to_lower_seq(w@),
{
    let n = w.unicode_len();
    let mut r = String::new();
    let mut i: usize = 0;
    while i < n
        invariant
            i <= n,
            n == w@.len(),
            r@.len() == i,
            forall|k: int| 0 <= k < i ==> r@[k] == to_lower_char(#[trigger] w@[k]),
        decreases n - i,
    {
        push_char(&mut r, downcase_char(w.get_char(i)));
        i = i + 1;
    }
    proof {
        assert(r@ =~= to_lower_seq(w@));
    }
    r
}

fn upper_string(w: &str) -> (r: String)
    ensures
        r@ == to_upper_seq(w@),
{
    let n = w.unicode_len();
    let mut r = String::new();
    let mut i: usize = 0;
    while i < n
        invariant
            i <= n,
            n == w@.len(),
            r@.len() == i,
            forall|k: int| 0 <= k < i ==> r@[k] == to_upper_char(#[trigger] w@[k]),
        decreases n - i,
    {
        push_char(&mut r, upcase_char(w.get_char(i)));
        i = i + 1;
    }
    proof {
        assert(r@ =~= to_upper_seq(w@));
    }
    r
}

/// Title-case one word: uppercase its first character, lowercase the rest.
pub fn to_first_uppercase(s: String) -> (r: String)
    requires
        s@.len() > 0,
    ensures
        r@ == to_title_seq(s@),
{
    let mut r = String::new();
    push_char(&mut r, upcase_char(s.as_str().get_char(0)));
    let n = s.as_str().unicode_len();
    let mut i: usize = 1;
    while i < n
        invariant
            1 <= i <= n,
            n == s@.len(),
            r@.len() == i,
            r@[0] == to_upper_char(s@[0]),
            forall|k: int| 1 <= k < i ==> r@[k] == to_lower_char(#[trigger] s@[k]),
        decreases n - i,
    {
        push_char(&mut r, downcase_char(s.as_str().get_char(i)));
        i = i + 1;
    }
    proof {
        assert(r@ =~= to_title_seq(s@));
    }
    r
}

/// Title-case every word and concatenate them with no separator.
pub fn compose_words_to_pascal(words: Vec<String>) -> (r: String)
    requires
        forall|k: int| 0 <= k < words.deep_view().len() ==> #[trigger] words.deep_view()[k].len() > 0,
    ensures
        r@ == spec_compose_pascal(words.deep_view()),
{
    let ghost mapped = map_title(words.deep_view());
    let mut r = String::new();
    let mut i: usize = 0;
    proof {
        assert(mapped.take(0) =~= Seq::<Seq<char>>::empty());
        assert(r@ =~= spec_concat(mapped.take(0)));
    }
    while i < words.len()
        invariant
            i <= words@.len(),
            mapped == map_title(words.deep_view()),
            forall|k: int|
                0 <= k < words.deep_view().len() ==> #[trigger] words.deep_view()[k].len() > 0,
            r@ == spec_concat(mapped.take(i as int)),
        decreases words@.len() - i,
    {
        proof {
            assert(words@[i as int]@ == words.deep_view()[i as int]);
        }
        let t = to_first_uppercase(words[i].clone());
        r.append(t.as_str());
        proof {
            crate::words::lemma_concat_push(mapped.take(i as int), mapped[i as int]);
            assert(mapped.take(i + 1 as int) =~= mapped.take(i as int).push(mapped[i as int]));
            assert(t@ == mapped[i as int]);
        }
        i = i + 1;
    }
    proof {
        assert(mapped.take(words@.len() as int) =~= mapped);
    }
    r
}

/// Case every word to one case and join the results with `sep`.
fn join_cased(words: &Vec<String>, sep: char, upper: bool) -> (r: String)
    requires
        words@.len() >= 1,
    ensures
        upper ==> r@ == spec_join(map_upper(words.deep_view()), sep),
        !upper ==> r@ == spec_join(map_lower(words.deep_view()), sep),
{
    let ghost mapped = if upper {
        map_upper(words.deep_view())
    } else {
        map_lower(words.deep_view())
    };
    let mut r = if upper {
        upper_string(words[0].as_str())
    } else {
        lower_string(words[0].as_str())
    };
    let mut i: usize = 1;
    proof {
        assert(mapped.take(1) =~= seq![mapped[0]]);
        assert(spec_join(seq![mapped[0]], sep) == mapped[0]);
        assert(r@ == spec_join(mapped.take(1), sep));
    }
    while i < words.len()
        invariant
            1 <= i <= words@.len(),
            mapped == if upper {
                map_upper(words.deep_view())
            } else {
                map_lower(words.deep_view())
            },
            r@ == spec_join(mapped.take(i as int), sep),
        decreases words@.len() - i,
    {
        push_char(&mut r, sep);
        let t = if upper {
            upper_string(words[i].as_str())
        } else {
            lower_string(words[i].as_str())
        };
        r.append(t.as_str());
        proof {
            crate::words::lemma_join_push(mapped.take(i as int), mapped[i as int], sep);
            assert(mapped.take(i + 1 as int) =~= mapped.take(i as int).push(mapped[i as int]));
            assert(t@ == mapped[i as int]);
            assert(r@ =~= spec_join(mapped.take(i as int), sep) + seq![sep] + t@);
        }
        i = i + 1;
    }
    proof {
        assert(mapped.take(words@.len() as int) =~= mapped);
    }
    r
}

impl NamingCase {
    /// Create a [`NamingCase`] value from an identifier.
    ///
    /// Alias of [`crate::detector::which_case`].
    pub fn new(identifier: &str) -> (r: NamingCase)
        ensures
            crate::detector::classified_as(r, identifier@),
            r.well_formed(),
    {
        detector::which_case(identifier)
    }

    /// Render the token's words in SCREAMING_SNAKE_CASE.
    pub fn to_screaming_snake(&self) -> (r: Result<String, &'static str>)
        requires
            self.well_formed(),
        ensures
            r is Err <==> self is Invalid,
            r matches Ok(t) ==> t@ == spec_compose_screaming_snake(self.words_view()),
            r matches Err(m) ==> m@ == "Can't extract words from this type."@,
    {
        let words = match extract_words_from(self) {
            Ok(w) => w,
            Err(m) => {
                return Err(m);
            },
        };
        Ok(join_cased(&words, '_', true))
    }

    /// Render the token's words in snake_case.
    pub fn to_snake(&self) -> (r: Result<String, &'static str>)
        requires
            self.well_formed(),
        ensures
            r is Err <==> self is Invalid,
            r matches Ok(t) ==> t@ == spec_compose_snake(self.words_view()),
            r matches Err(m) ==> m@ == "Can't extract words from this type."@,
    {
        let words = match extract_words_from(self) {
            Ok(w) => w,
            Err(m) => {
                return Err(m);
            },
        };
        Ok(join_cased(&words, '_', false))
    }

    /// Render the token's words in kebab-case.
    pub fn to_kebab(&self) -> (r: Result<String, &'static str>)
        requires
            self.well_formed(),
        ensures
            r is Err <==> self is Invalid,
            r matches Ok(t) ==> t@ == spec_compose_kebab(self.words_view()),
            r matches Err(m) ==> m@ == "Can't extract words from this type."@,
    {
        let words = match extract_words_from(self) {
            Ok(w) => w,
            Err(m) => {
                return Err(m);
            },
        };
        Ok(join_cased(&words, '-', false))
    }

    /// Render the token's words in camelCase: the first word all lowercase,
    /// every following word title-cased, no separator.
    pub fn to_camel(&self) -> (r: Result<String, &'static str>)
        requires
            self.well_formed(),
        ensures
            r is Err <==> self is Invalid,
            r matches Ok(t) ==> t@ == spec_compose_camel(self.words_view()),
            r matches Err(m) ==> m@ == "Can't extract words from this type."@,
    {
        let words = match extract_words_from(self) {
            Ok(w) => w,
            Err(m) => {
                return Err(m);
            },
        };
        let ghost wsv = words.deep_view();
        let ghost mapped = map_title(wsv);
        let mut r = lower_string(words[0].as_str());
        let mut i: usize = 1;
        proof {
            assert(mapped.subrange(1, 1) =~= Seq::<Seq<char>>::empty());
            assert(r@ =~= to_lower_seq(wsv[0]) + spec_concat(mapped.subrange(1, 1)));
        }
        while i < words.len()
            invariant
                1 <= i <= wsv.len(),
                wsv == words.deep_view(),
                mapped == map_title(wsv),
                forall|k: int| 0 <= k < wsv.len() ==> #[trigger] wsv[k].len() > 0,
                r@ == to_lower_seq(wsv[0]) + spec_concat(mapped.subrange(1, i as int)),
            decreases wsv.len() - i,
        {
            proof {
                assert(words@[i as int]@ == wsv[i as int]);
            }
            let t = to_first_uppercase(words[i].clone());
            r.append(t.as_str());
            proof {
                crate::words::lemma_concat_push(mapped.subrange(1, i as int), mapped[i as int]);
                assert(mapped.subrange(1, i + 1 as int) =~= mapped.subrange(1, i as int).push(
                    mapped[i as int],
                ));
                assert(t@ == mapped[i as int]);
                assert(r@ =~= to_lower_seq(wsv[0]) + (spec_concat(mapped.subrange(1, i as int))
                    + t@));
            }
            i = i + 1;
        }
        proof {
            assert(mapped.subrange(1, wsv.len() as int) =~= map_title(wsv.drop_first()));
            assert(r@ == spec_compose_camel(self.words_view()));
        }
        Ok(r)
    }

    /// Render the token's words in PascalCase: every word title-cased, no
    /// separator.
    pub fn to_pascal(&self) -> (r: Result<String, &'static str>)
        requires
            self.well_formed(),
        ensures
            r is Err <==> self is Invalid,
            r matches Ok(t) ==> t@ == spec_compose_pascal(self.words_view()),
            r matches Err(m) ==> m@ == "Can't extract words from this type."@,
    {
        let words = match extract_words_from(self) {
            Ok(w) => w,
            Err(m) => {
                return Err(m);
            },
        };
        Ok(compose_words_to_pascal(words))
    }
}

/// Create a [`NamingCase`] value from an identifier.
///
/// Alias of [`crate::detector::which_case`] and [`NamingCase::new`].
pub fn from(identifier: &str) -> (r: NamingCase)
    ensures
        crate::detector::classified_as(r, identifier@),
        r.well_formed(),
{
    detector::which_case(identifier)
}

/// What reinterpreting a token as hungarian notation must return: for a
/// camel-classified token, the classification of the text left after its
/// first word; for anything else, `Invalid` holding the unchanged input.
pub open spec fn spec_hungarian_result(r: NamingCase, s: Seq<char>) -> bool {
    if spec_is_camel(s) && !spec_is_single_word(s) {
        let rest = spec_concat(spec_hump_words(s).drop_first());
        crate::detector::classified_as(r, rest) && r.well_formed()
    } else {
        r is Invalid && r.text_view() == s
    }
}

/// Return a [`NamingCase::Pascal`]-like value for a hungarian notation
/// identifier, removing the first word, which represents the variable type.
///
/// A token is only accepted as hungarian notation when the classifier tags it
/// `Camel`; anything else comes back as [`NamingCase::Invalid`] holding the
/// unchanged input. The remainder after the dropped prefix is classified
/// anew, so a single remaining word comes back as `SingleWord`.
#[verifier::rlimit(50)]
pub fn from_hungarian_notation(identifier: &str) -> (r: NamingCase)
    ensures
        spec_hungarian_result(r, identifier@),
{
    proof {
        if spec_is_camel(identifier@) && !spec_is_single_word(identifier@) {
            crate::detector::lemma_camel_priority(identifier@);
        }
    }
    let real_case = detector::which_case(identifier);
    let is_camel_case = match &real_case {
        NamingCase::Camel(_) => true,
        _ => false,
    };
    if !is_camel_case {
        return NamingCase::Invalid(identifier.to_owned());
    }
    let words = match extract_words_from(&real_case) {
        Ok(w) => w,
        Err(_) => {
            proof {
                assert(false);
            }
            return NamingCase::Invalid(identifier.to_owned());
        },
    };
    // discard the first word, re-join the rest with no separator,
    // and return the remainder as a freshly classified value
    let joined = join_all_but_first(&words);
    detector::which_case(joined.as_str())
}

/// Concatenate every word but the first, with no separator.
fn join_all_but_first(words: &Vec<String>) -> (r: String)
    requires
        words@.len() >= 1,
    ensures
        r@ == spec_concat(words.deep_view().drop_first()),
{
    let ghost wsv = words.deep_view();
    let mut joined = String::new();
    let mut i: usize = 1;
    proof {
        assert(wsv.drop_first().take(0) =~= Seq::<Seq<char>>::empty());
        assert(joined@ =~= spec_concat(wsv.drop_first().take(0)));
    }
    while i < words.len()
        invariant
            1 <= i <= wsv.len(),
            wsv == words.deep_view(),
            joined@ == spec_concat(wsv.drop_first().take(i - 1)),
        decreases wsv.len() - i,
    {
        joined.append(words[i].as_str());
        proof {
            crate::words::lemma_concat_push(wsv.drop_first().take(i - 1), wsv[i as int]);
            assert(wsv.drop_first().take(i as int) =~= wsv.drop_first().take(i - 1).push(
                wsv[i as int],
            ));
        }
        i = i + 1;
    }
    proof {
        assert(wsv.drop_first().take(wsv.len() - 1) =~= wsv.drop_first());
    }
    joined
}

} // verus!
