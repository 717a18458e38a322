use vstd::prelude::*;

use crate::conversion::{spec_case_for, spec_filter_words, spec_has_option, spec_keeps, spec_matches_option};
use crate::detector;
use crate::naming_case::NamingCase;

verus! {

// An earlier take on the `--filter` handling, kept alongside the current one:
// here the selector letters are borrowed for the filter's lifetime instead of
// owned.

/// Whether the borrowed selector is exactly the one-letter string of `c`.
fn str_opt_is(opt: &str, c: char) -> (b: bool)
    ensures
        b == (opt@ == seq![c]),
{
    if opt.unicode_len() == 1 {
        let b = opt.get_char(0) == c;
        proof {
            if b {
                assert(opt@ =~= seq![c]);
            } else {
                assert(opt@ != seq![c]);
            }
        }
        b
    } else {
        proof {
            assert(opt@ != seq![c]);
        }
        false
    }
}

fn contains_str_opt(options: &Vec<&str>, c: char) -> (b: bool)
    ensures
        b == spec_has_option(options.deep_view(), c),
{
    let mut i: usize = 0;
    while i < options.len()
        invariant
            i <= options@.len(),
            forall|k: int| 0 <= k < i ==> #[trigger] options.deep_view()[k] != seq![c],
        decreases options@.len() - i,
    {
        if str_opt_is(options[i], c) {
            proof {
                assert(options.deep_view()[i as int] == seq![c]);
            }
            return true;
        }
        i = i + 1;
    }
    false
}

/// Whether the word totally matches the convention one selector names.
fn str_matches_option(opt: &str, word: &String) -> (b: bool)
    ensures
        b == spec_matches_option(opt@, word@),
{
    if str_opt_is(opt, 'S') {
        detector::is_screaming_snake(word.as_str())
    } else if str_opt_is(opt, 's') {
        detector::is_snake(word.as_str())
    } else if str_opt_is(opt, 'k') {
        detector::is_kebab(word.as_str())
    } else if str_opt_is(opt, 'c') {
        detector::is_camel(word.as_str())
    } else if str_opt_is(opt, 'h') {
        detector::is_camel(word.as_str())
    } else if str_opt_is(opt, 'p') {
        detector::is_pascal(word.as_str())
    } else {
        false
    }
}

/// Answer user's `--filter` option: ignore captured words of conventions the
/// user did not ask for, and turn the kept words into [`NamingCase`] values.
pub struct Filter<'a> {
    options: Vec<&'a str>,
}

impl<'a> Filter<'a> {
    pub closed spec fn options_view(&self) -> Seq<Seq<char>> {
        self.options.deep_view()
    }

    /// Build a filter from the user's selector letters. Asking for hungarian
    /// notation and camel case together is a configuration error.
    pub fn new(options: &'a Vec<&str>) -> (r: Result<Filter<'a>, &'static str>)
        ensures
            (r is Err <==> spec_has_option(options.deep_view(), 'h') && spec_has_option(
                options.deep_view(),
                'c',
            )),
            r matches Ok(f) ==> f.options_view() == options.deep_view(),
            r matches Err(m) ==> m@
                == "In option \"--filter\", at most one of the two, hungarian notation (h) and camel case (c) can appear."@,
    {
        if Filter::has_hungarian_camel_conflict(options) {
            return Err(
                "In option \"--filter\", at most one of the two, hungarian notation (h) and camel case (c) can appear.",
            );
        }
        let mut copied: Vec<&str> = Vec::new();
        let mut i: usize = 0;
        while i < options.len()
            invariant
                i <= options@.len(),
                copied@.len() == i,
                forall|k: int| 0 <= k < i ==> copied@[k] == options@[k],
        decreases options@.len() - i,
        {
            copied.push(options[i]);
            i = i + 1;
        }
        proof {
            assert(copied.deep_view() =~~= options.deep_view());
        }
        Ok(Filter { options: copied })
    }

    /// Whether the selector list asks for hungarian notation and camel case
    /// at once.
    pub fn has_hungarian_camel_conflict(options: &Vec<&str>) -> (b: bool)
        ensures
            b == (spec_has_option(options.deep_view(), 'h') && spec_has_option(
                options.deep_view(),
                'c',
            )),
    {
        contains_str_opt(options, 'h') && contains_str_opt(options, 'c')
    }

    fn keeps_word(&self, word: &String) -> (b: bool)
        ensures
            b == spec_keeps(self.options_view(), word@),
    {
        let mut i: usize = 0;
        while i < self.options.len()
            invariant
                i <= self.options@.len(),
                forall|k: int|
                    0 <= k < i ==> !spec_matches_option(
                        #[trigger] self.options.deep_view()[k],
                        word@,
                    ),
            decreases self.options@.len() - i,
        {
            if str_matches_option(self.options[i], word) {
                proof {
                    assert(spec_matches_option(self.options.deep_view()[i as int], word@));
                }
                return true;
            }
            i = i + 1;
        }
        false
    }

    /// Keep exactly the words that totally match one of the selected
    /// conventions, in their original order.
    pub fn filter_words_with_options(&self, words: Vec<String>) -> (r: Vec<String>)
        ensures
            r.deep_view() == spec_filter_words(self.options_view(), words.deep_view()),
    {
        let ghost opts = self.options_view();
        let ghost wsv = words.deep_view();
        let mut r: Vec<String> = Vec::new();
        let mut i: usize = 0;
        proof {
            reveal(Seq::filter);
            assert(wsv.take(0) =~= Seq::<Seq<char>>::empty());
            assert(r.deep_view() =~= spec_filter_words(opts, wsv.take(0)));
        }
        while i < words.len()
            invariant
                i <= wsv.len(),
                wsv == words.deep_view(),
                opts == self.options_view(),
                r.deep_view() == spec_filter_words(opts, wsv.take(i as int)),
            decreases wsv.len() - i,
        {
            let ghost pre = r.deep_view();
            let keep = self.keeps_word(&words[i]);
            if keep {
                r.push(words[i].clone());
            }
            proof {
                reveal(Seq::filter);
                let prefix = wsv.take(i as int);
                let next = wsv.take(i + 1 as int);
                assert(next.drop_last() =~= prefix);
                assert(next.last() == wsv[i as int]);
                assert(words@[i as int]@ == wsv[i as int]);
                if keep {
                    assert(r.deep_view() =~= pre.push(wsv[i as int]));
                }
                assert(r.deep_view() =~= spec_filter_words(opts, next));
            }
            i = i + 1;
        }
        proof {
            assert(wsv.take(wsv.len() as int) =~= wsv);
        }
        r
    }

    /// Turn the words the filter keeps into classified values, reinterpreting
    /// camel-shaped words as hungarian notation when the `h` selector is
    /// active.
    pub fn to_naming_cases_from(&self, words: Vec<String>) -> (r: Vec<NamingCase>)
        ensures
            ({
                let kept = spec_filter_words(self.options_view(), words.deep_view());
                &&& r@.len() == kept.len()
                &&& (forall|i: int|
                    0 <= i < kept.len() ==> spec_case_for(
                        #[trigger] r@[i],
                        self.options_view(),
                        kept[i],
                    ))
                &&& (forall|i: int| 0 <= i < r@.len() ==> (#[trigger] r@[i]).well_formed())
            }),
    {
        let ghost opts = self.options_view();
        let words = self.filter_words_with_options(words);
        let required_hungarian = contains_str_opt(&self.options, 'h');
        let ghost kept = words.deep_view();
        let mut r: Vec<NamingCase> = Vec::new();
        let mut i: usize = 0;
        while i < words.len()
            invariant
                i <= kept.len(),
                kept == words.deep_view(),
                opts == self.options_view(),
                required_hungarian == spec_has_option(opts, 'h'),
                r@.len() == i,
                forall|k: int|
                    0 <= k < i ==> spec_case_for(#[trigger] r@[k], opts, kept[k])
                        && r@[k].well_formed(),
            decreases kept.len() - i,
        {
            let word = &words[i];
            proof {
                assert(word@ == kept[i as int]);
            }
            if required_hungarian && detector::is_camel(word.as_str()) {
                r.push(crate::naming_case::from_hungarian_notation(word.as_str()));
            } else {
                r.push(detector::which_case(word.as_str()));
            }
            i = i + 1;
        }
        r
    }
}

} // verus!
