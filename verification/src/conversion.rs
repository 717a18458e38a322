use vstd::prelude::*;

use crate::detector;
use crate::detector::{
    classified_as, spec_is_camel, spec_is_kebab, spec_is_pascal, spec_is_screaming_snake,
    spec_is_snake,
};
use crate::naming_case::{spec_hungarian_result, NamingCase};
use crate::words::{
    spec_compose_camel, spec_compose_kebab, spec_compose_pascal, spec_compose_screaming_snake,
    spec_compose_snake, spec_join,
};

verus! {

// The one-letter selectors a user hands to the `--filter` and `--output`
// options, and what each selects.

/// The default selector list: every convertible convention, in the fixed
/// order screaming-snake, snake, kebab, camel, pascal.
pub open spec fn spec_default_options() -> Seq<Seq<char>> {
    seq![seq!['S'], seq!['s'], seq!['k'], seq!['c'], seq!['p']]
}

/// Whether a word satisfies the convention that one selector letter names.
/// The hungarian selector accepts camel-shaped words, which are later
/// reinterpreted.
pub open spec fn spec_matches_option(opt: Seq<char>, w: Seq<char>) -> bool {
    if opt == seq!['S'] {
        spec_is_screaming_snake(w)
    } else if opt == seq!['s'] {
        spec_is_snake(w)
    } else if opt == seq!['k'] {
        spec_is_kebab(w)
    } else if opt == seq!['c'] {
        spec_is_camel(w)
    } else if opt == seq!['h'] {
        spec_is_camel(w)
    } else if opt == seq!['p'] {
        spec_is_pascal(w)
    } else {
        false
    }
}

pub open spec fn spec_keeps(opts: Seq<Seq<char>>, w: Seq<char>) -> bool {
    exists|i: int| 0 <= i < opts.len() && spec_matches_option(#[trigger] opts[i], w)
}

pub open spec fn spec_filter_words(opts: Seq<Seq<char>>, ws: Seq<Seq<char>>) -> Seq<Seq<char>> {
    ws.filter(|w: Seq<char>| spec_keeps(opts, w))
}

pub open spec fn spec_has_option(opts: Seq<Seq<char>>, c: char) -> bool {
    exists|i: int| 0 <= i < opts.len() && #[trigger] opts[i] == seq![c]
}

/// The selectors that may appear in an `--output` list: `h` has no rendered
/// form, so it is not among them.
pub open spec fn spec_output_option(opt: Seq<char>) -> bool {
    ||| opt == seq!['S']
    ||| opt == seq!['s']
    ||| opt == seq!['k']
    ||| opt == seq!['c']
    ||| opt == seq!['p']
}

/// What one token classifies to under a filter: reinterpreted as hungarian
/// notation when that was asked and the token is camel-shaped, plainly
/// classified otherwise.
pub open spec fn spec_case_for(c: NamingCase, opts: Seq<Seq<char>>, w: Seq<char>) -> bool {
    if spec_has_option(opts, 'h') && spec_is_camel(w) {
        spec_hungarian_result(c, w)
    } else {
        classified_as(c, w)
    }
}

/// The default selector list as owned strings.
pub fn default_options() -> (r: Vec<String>)
    ensures
        r.deep_view() == spec_default_options(),
{
    let mut r: Vec<String> = Vec::new();
    r.push("S".to_owned());
    r.push("s".to_owned());
    r.push("k".to_owned());
    r.push("c".to_owned());
    r.push("p".to_owned());
    proof {
        reveal_strlit("S");
        reveal_strlit("s");
        reveal_strlit("k");
        reveal_strlit("c");
        reveal_strlit("p");
        assert(r.deep_view() =~~= spec_default_options());
    }
    r
}

/// Whether the selector string is exactly the one-letter string of `c`.
fn opt_is(opt: &String, c: char) -> (b: bool)
    ensures
        b == (opt@ == seq![c]),
{
    let s = opt.as_str();
    if s.unicode_len() == 1 {
        let b = s.get_char(0) == c;
        proof {
            if b {
                assert(opt@ =~= seq![c]);
            } else {
                assert(opt@ != seq![c]);
            }
        }
        b
    } else {
        proof {
            assert(opt@ != seq![c]);
        }
        false
    }
}

fn contains_opt(options: &Vec<String>, c: char) -> (b: bool)
    ensures
        b == spec_has_option(options.deep_view(), c),
{
    let mut i: usize = 0;
    while i < options.len()
        invariant
            i <= options@.len(),
            forall|k: int| 0 <= k < i ==> #[trigger] options.deep_view()[k] != seq![c],
        decreases options@.len() - i,
    {
        if opt_is(&options[i], c) {
            proof {
                assert(options.deep_view()[i as int] == seq![c]);
            }
            return true;
        }
        i = i + 1;
    }
    false
}

/// Whether the word totally matches the convention one selector names.
fn matches_option(opt: &String, word: &String) -> (b: bool)
    ensures
        b == spec_matches_option(opt@, word@),
{
    if opt_is(opt, 'S') {
        detector::is_screaming_snake(word.as_str())
    } else if opt_is(opt, 's') {
        detector::is_snake(word.as_str())
    } else if opt_is(opt, 'k') {
        detector::is_kebab(word.as_str())
    } else if opt_is(opt, 'c') {
        detector::is_camel(word.as_str())
    } else if opt_is(opt, 'h') {
        detector::is_camel(word.as_str())
    } else if opt_is(opt, 'p') {
        detector::is_pascal(word.as_str())
    } else {
        false
    }
}

/// Answer user's `--filter` option: ignore captured words of conventions the
/// user did not ask for, and turn the kept words into [`NamingCase`] values.
pub struct Filter {
    options: Vec<String>,
}

impl Filter {
    pub closed spec fn options_view(&self) -> Seq<Seq<char>> {
        self.options.deep_view()
    }

    /// Build a filter from the user's selector letters, or from the default
    /// list when none were given. Asking for hungarian notation and camel
    /// case together is a configuration error, reported before any token is
    /// looked at.
    pub fn new(options: Option<Vec<String>>) -> (r: Result<Filter, &'static str>)
        ensures
            ({
                let opts = match options {
                    Some(v) => v.deep_view(),
                    None => spec_default_options(),
                };
                &&& (r is Err <==> spec_has_option(opts, 'h') && spec_has_option(opts, 'c'))
                &&& (r matches Ok(f) ==> f.options_view() == opts)
                &&& (r matches Err(m) ==> m@
                    == "naming: In option --filter, at most one of the two, hungarian notation (h) and camel case (c) can appear."@)
            }),
    {
        let options = match options {
            Some(v) => v,
            None => default_options(),
        };
        if Filter::has_hungarian_camel_conflict(&options) {
            return Err(
                "naming: In option --filter, at most one of the two, hungarian notation (h) and camel case (c) can appear.",
            );
        }
        Ok(Filter { options })
    }

    /// Whether the selector list asks for hungarian notation and camel case
    /// at once.
    pub fn has_hungarian_camel_conflict(options: &Vec<String>) -> (b: bool)
        ensures
            b == (spec_has_option(options.deep_view(), 'h') && spec_has_option(
                options.deep_view(),
                'c',
            )),
    {
        contains_opt(options, 'h') && contains_opt(options, 'c')
    }

    fn keeps_word(&self, word: &String) -> (b: bool)
        ensures
            b == spec_keeps(self.options_view(), word@),
    {
        let mut i: usize = 0;
        while i < self.options.len()
            invariant
                i <= self.options@.len(),
                forall|k: int|
                    0 <= k < i ==> !spec_matches_option(
                        #[trigger] self.options.deep_view()[k],
                        word@,
                    ),
            decreases self.options@.len() - i,
        {
            if matches_option(&self.options[i], word) {
                proof {
                    assert(spec_matches_option(self.options.deep_view()[i as int], word@));
                }
                return true;
            }
            i = i + 1;
        }
        false
    }

    /// Keep exactly the words that totally match one of the selected
    /// conventions, in their original order.
    pub fn filter_words_with_options(&self, words: Vec<String>) -> (r: Vec<String>)
        ensures
            r.deep_view() == spec_filter_words(self.options_view(), words.deep_view()),
    {
        let ghost opts = self.options_view();
        let ghost wsv = words.deep_view();
        let mut r: Vec<String> = Vec::new();
        let mut i: usize = 0;
        proof {
            reveal(Seq::filter);
            assert(wsv.take(0) =~= Seq::<Seq<char>>::empty());
            assert(r.deep_view() =~= spec_filter_words(opts, wsv.take(0)));
        }
        while i < words.len()
            invariant
                i <= wsv.len(),
                wsv == words.deep_view(),
                opts == self.options_view(),
                r.deep_view() == spec_filter_words(opts, wsv.take(i as int)),
            decreases wsv.len() - i,
        {
            let ghost pre = r.deep_view();
            let keep = self.keeps_word(&words[i]);
            if keep {
                r.push(words[i].clone());
            }
            proof {
                reveal(Seq::filter);
                let prefix = wsv.take(i as int);
                let next = wsv.take(i + 1 as int);
                assert(next.drop_last() =~= prefix);
                assert(next.last() == wsv[i as int]);
                assert(words@[i as int]@ == wsv[i as int]);
                if keep {
                    assert(r.deep_view() =~= pre.push(wsv[i as int]));
                }
                assert(r.deep_view() =~= spec_filter_words(opts, next));
            }
            i = i + 1;
        }
        proof {
            assert(wsv.take(wsv.len() as int) =~= wsv);
        }
        r
    }

    /// Turn the words the filter keeps into classified values, reinterpreting
    /// camel-shaped words as hungarian notation when the `h` selector is
    /// active.
    pub fn to_naming_cases_from(&self, words: Vec<String>) -> (r: Vec<NamingCase>)
        ensures
            ({
                let kept = spec_filter_words(self.options_view(), words.deep_view());
                &&& r@.len() == kept.len()
                &&& (forall|i: int|
                    0 <= i < kept.len() ==> spec_case_for(
                        #[trigger] r@[i],
                        self.options_view(),
                        kept[i],
                    ))
                &&& (forall|i: int| 0 <= i < r@.len() ==> (#[trigger] r@[i]).well_formed())
            }),
    {
        let ghost opts = self.options_view();
        let words = self.filter_words_with_options(words);
        let required_hungarian = contains_opt(&self.options, 'h');
        let ghost kept = words.deep_view();
        let mut r: Vec<NamingCase> = Vec::new();
        let mut i: usize = 0;
        while i < words.len()
            invariant
                i <= kept.len(),
                kept == words.deep_view(),
                opts == self.options_view(),
                required_hungarian == spec_has_option(opts, 'h'),
                r@.len() == i,
                forall|k: int|
                    0 <= k < i ==> spec_case_for(#[trigger] r@[k], opts, kept[k]) && r@[k].well_formed(),
            decreases kept.len() - i,
        {
            let word = &words[i];
            proof {
                assert(word@ == kept[i as int]);
            }
            if required_hungarian && detector::is_camel(word.as_str()) {
                r.push(crate::naming_case::from_hungarian_notation(word.as_str()));
            } else {
                r.push(detector::which_case(word.as_str()));
            }
            i = i + 1;
        }
        r
    }
}

/// The rendering of one classified token in the convention a selector names.
pub open spec fn spec_render(opt: Seq<char>, c: NamingCase) -> Seq<char> {
    if opt == seq!['S'] {
        spec_compose_screaming_snake(c.words_view())
    } else if opt == seq!['s'] {
        spec_compose_snake(c.words_view())
    } else if opt == seq!['k'] {
        spec_compose_kebab(c.words_view())
    } else if opt == seq!['c'] {
        spec_compose_camel(c.words_view())
    } else {
        spec_compose_pascal(c.words_view())
    }
}

/// The json field name that belongs to a selector.
pub open spec fn spec_option_key(opt: Seq<char>) -> Seq<char> {
    if opt == seq!['S'] {
        "screaming_snake"@
    } else if opt == seq!['s'] {
        "snake"@
    } else if opt == seq!['k'] {
        "kebab"@
    } else if opt == seq!['c'] {
        "camel"@
    } else {
        "pascal"@
    }
}

/// A value the convertor can render: well-formed and not `Invalid`.
pub open spec fn spec_convertible(c: NamingCase) -> bool {
    c.well_formed() && !(c is Invalid)
}

pub open spec fn spec_rendered_list(opts: Seq<Seq<char>>, c: NamingCase) -> Seq<Seq<char>> {
    opts.map(|i: int, o: Seq<char>| spec_render(o, c))
}

pub open spec fn spec_field_list(opts: Seq<Seq<char>>, c: NamingCase) -> Seq<Seq<char>> {
    opts.map(
        |i: int, o: Seq<char>|
            "\""@ + spec_option_key(o) + "\":\""@ + spec_render(o, c) + "\""@,
    )
}

/// One output line: the origin text, a space, then the renderings joined
/// with `sep`.
pub open spec fn spec_line(opts: Seq<Seq<char>>, c: NamingCase, sep: char) -> Seq<char> {
    c.text_view() + seq![' '] + spec_join(spec_rendered_list(opts, c), sep)
}

pub open spec fn spec_line_list(opts: Seq<Seq<char>>, cases: Seq<NamingCase>, sep: char) -> Seq<
    Seq<char>,
> {
    cases.map(|i: int, c: NamingCase| spec_line(opts, c, sep))
}

pub open spec fn spec_into_lines(opts: Seq<Seq<char>>, cases: Seq<NamingCase>) -> Seq<char> {
    spec_join(spec_line_list(opts, cases, ' '), '\n')
}

pub open spec fn spec_into_regex(opts: Seq<Seq<char>>, cases: Seq<NamingCase>) -> Seq<char> {
    spec_join(spec_line_list(opts, cases, '|'), '\n')
}

pub open spec fn spec_json_entry(opts: Seq<Seq<char>>, c: NamingCase) -> Seq<char> {
    "{\"origin\":\""@ + c.text_view() + "\","@ + spec_join(spec_field_list(opts, c), ',') + "}"@
}

pub open spec fn spec_json_entry_list(opts: Seq<Seq<char>>, cases: Seq<NamingCase>) -> Seq<
    Seq<char>,
> {
    cases.map(|i: int, c: NamingCase| spec_json_entry(opts, c))
}

pub open spec fn spec_into_json(opts: Seq<Seq<char>>, cases: Seq<NamingCase>) -> Seq<char> {
    "{\"result\":["@ + spec_join(spec_json_entry_list(opts, cases), ',') + "]}"@
}

pub open spec fn spec_regex_entry(opts: Seq<Seq<char>>, c: NamingCase) -> Seq<char> {
    "{\"origin\":\""@ + c.text_view() + "\",\"regex\":\""@ + spec_join(
        spec_rendered_list(opts, c),
        '|',
    ) + "\"}"@
}

pub open spec fn spec_regex_entry_list(opts: Seq<Seq<char>>, cases: Seq<NamingCase>) -> Seq<
    Seq<char>,
> {
    cases.map(|i: int, c: NamingCase| spec_regex_entry(opts, c))
}

pub open spec fn spec_into_regex_json(opts: Seq<Seq<char>>, cases: Seq<NamingCase>) -> Seq<char> {
    "{\"result\":["@ + spec_join(spec_regex_entry_list(opts, cases), ',') + "]}"@
}

/// Render one token in the convention a single output selector names.
fn render_with(opt: &String, case: &NamingCase) -> (r: String)
    requires
        spec_output_option(opt@),
        spec_convertible(*case),
    ensures
        r@ == spec_render(opt@, *case),
{
    if opt_is(opt, 'S') {
        match case.to_screaming_snake() {
            Ok(s) => s,
            Err(_) => {
                proof {
                    assert(false);
                }
                String::new()
            },
        }
    } else if opt_is(opt, 's') {
        match case.to_snake() {
            Ok(s) => s,
            Err(_) => {
                proof {
                    assert(false);
                }
                String::new()
            },
        }
    } else if opt_is(opt, 'k') {
        match case.to_kebab() {
            Ok(s) => s,
            Err(_) => {
                proof {
                    assert(false);
                }
                String::new()
            },
        }
    } else if opt_is(opt, 'c') {
        match case.to_camel() {
            Ok(s) => s,
            Err(_) => {
                proof {
                    assert(false);
                }
                String::new()
            },
        }
    } else {
        match case.to_pascal() {
            Ok(s) => s,
            Err(_) => {
                proof {
                    assert(false);
                }
                String::new()
            },
        }
    }
}

/// Render one token in every selected convention, in option order, joined
/// with `sep`.
fn render_all(options: &Vec<String>, case: &NamingCase, sep: char) -> (r: String)
    requires
        forall|i: int|
            0 <= i < options.deep_view().len() ==> spec_output_option(
                #[trigger] options.deep_view()[i],
            ),
        spec_convertible(*case),
    ensures
        r@ == spec_join(spec_rendered_list(options.deep_view(), *case), sep),
{
    let ghost rendered = spec_rendered_list(options.deep_view(), *case);
    if options.len() == 0 {
        let r = String::new();
        proof {
            assert(rendered =~= Seq::<Seq<char>>::empty());
        }
        return r;
    }
    proof {
        assert(options@[0]@ == options.deep_view()[0]);
    }
    let mut r = render_with(&options[0], case);
    let mut i: usize = 1;
    proof {
        assert(rendered.take(1) =~= seq![rendered[0]]);
        assert(spec_join(seq![rendered[0]], sep) == rendered[0]);
    }
    while i < options.len()
        invariant
            1 <= i <= options.deep_view().len(),
            rendered == spec_rendered_list(options.deep_view(), *case),
            forall|k: int|
                0 <= k < options.deep_view().len() ==> spec_output_option(
                    #[trigger] options.deep_view()[k],
                ),
            spec_convertible(*case),
            r@ == spec_join(rendered.take(i as int), sep),
        decreases options.deep_view().len() - i,
    {
        crate::chars::push_char(&mut r, sep);
        proof {
            assert(options@[i as int]@ == options.deep_view()[i as int]);
        }
        let t = render_with(&options[i], case);
        r.append(t.as_str());
        proof {
            crate::words::lemma_join_push(rendered.take(i as int), rendered[i as int], sep);
            assert(rendered.take(i + 1 as int) =~= rendered.take(i as int).push(
                rendered[i as int],
            ));
            assert(t@ == rendered[i as int]);
            assert(r@ =~= spec_join(rendered.take(i as int), sep) + seq![sep] + t@);
        }
        i = i + 1;
    }
    proof {
        assert(rendered.take(rendered.len() as int) =~= rendered);
    }
    r
}

/// The json field name for one output selector.
fn option_key(opt: &String) -> (r: &'static str)
    requires
        spec_output_option(opt@),
    ensures
        r@ == spec_option_key(opt@),
{
    if opt_is(opt, 'S') {
        "screaming_snake"
    } else if opt_is(opt, 's') {
        "snake"
    } else if opt_is(opt, 'k') {
        "kebab"
    } else if opt_is(opt, 'c') {
        "camel"
    } else {
        "pascal"
    }
}

/// Render one token as the comma-joined json fields of every selected
/// convention.
fn render_fields(options: &Vec<String>, case: &NamingCase) -> (r: String)
    requires
        forall|i: int|
            0 <= i < options.deep_view().len() ==> spec_output_option(
                #[trigger] options.deep_view()[i],
            ),
        spec_convertible(*case),
    ensures
        r@ == spec_join(spec_field_list(options.deep_view(), *case), ','),
{
    let ghost fields = spec_field_list(options.deep_view(), *case);
    if options.len() == 0 {
        let r = String::new();
        proof {
            assert(fields =~= Seq::<Seq<char>>::empty());
        }
        return r;
    }
    proof {
        assert(options@[0]@ == options.deep_view()[0]);
    }
    let mut r = build_field(&options[0], case);
    let mut i: usize = 1;
    proof {
        assert(fields.take(1) =~= seq![fields[0]]);
        assert(spec_join(seq![fields[0]], ',') == fields[0]);
    }
    while i < options.len()
        invariant
            1 <= i <= options.deep_view().len(),
            fields == spec_field_list(options.deep_view(), *case),
            forall|k: int|
                0 <= k < options.deep_view().len() ==> spec_output_option(
                    #[trigger] options.deep_view()[k],
                ),
            spec_convertible(*case),
            r@ == spec_join(fields.take(i as int), ','),
        decreases options.deep_view().len() - i,
    {
        crate::chars::push_char(&mut r, ',');
        proof {
            assert(options@[i as int]@ == options.deep_view()[i as int]);
        }
        let t = build_field(&options[i], case);
        r.append(t.as_str());
        proof {
            crate::words::lemma_join_push(fields.take(i as int), fields[i as int], ',');
            assert(fields.take(i + 1 as int) =~= fields.take(i as int).push(fields[i as int]));
            assert(t@ == fields[i as int]);
            assert(r@ =~= spec_join(fields.take(i as int), ',') + seq![','] + t@);
        }
        i = i + 1;
    }
    proof {
        assert(fields.take(fields.len() as int) =~= fields);
    }
    r
}

/// One json field: `"<key>":"<rendering>"`.
fn build_field(opt: &String, case: &NamingCase) -> (r: String)
    requires
        spec_output_option(opt@),
        spec_convertible(*case),
    ensures
        r@ == "\""@ + spec_option_key(opt@) + "\":\""@ + spec_render(opt@, *case) + "\""@,
{
    let mut r = "\"".to_owned();
    r.append(option_key(opt));
    r.append("\":\"");
    let v = render_with(opt, case);
    r.append(v.as_str());
    r.append("\"");
    proof {
        assert(r@ =~= "\""@ + spec_option_key(opt@) + "\":\""@ + spec_render(opt@, *case)
            + "\""@);
    }
    r
}

/// Holds classified tokens together with the user's `--output` selectors and
/// renders them in the output formats.
pub struct Convertor {
    options: Vec<String>,
    cases: Vec<NamingCase>,
}

impl Convertor {
    pub closed spec fn options_view(&self) -> Seq<Seq<char>> {
        self.options.deep_view()
    }

    pub closed spec fn cases_view(&self) -> Seq<NamingCase> {
        self.cases@
    }

    /// What rendering needs of a convertor's fields: every selector is an
    /// output selector, and every held value can be rendered. A value built
    /// from the classifier is always well-formed; an `Invalid` one has no
    /// renderings and must be kept away from the convertor.
    pub open spec fn ready(&self) -> bool {
        &&& (forall|i: int|
            0 <= i < self.options_view().len() ==> spec_output_option(
                #[trigger] self.options_view()[i],
            ))
        &&& (forall|j: int|
            0 <= j < self.cases_view().len() ==> spec_convertible(#[trigger] self.cases_view()[j]))
    }

    /// Bundle classified tokens with the `--output` selectors, or with the
    /// default list when none were given.
    pub fn new(options: Option<Vec<String>>, cases: Vec<NamingCase>) -> (r: Convertor)
        ensures
            r.options_view() == (match options {
                Some(v) => v.deep_view(),
                None => spec_default_options(),
            }),
            r.cases_view() == cases@,
    {
        let options = match options {
            Some(v) => v,
            None => default_options(),
        };
        Convertor { options, cases }
    }

    /// Normal output: one line per token, the origin text first, then each
    /// selected rendering, space-separated.
    pub fn into_lines(self) -> (r: String)
        requires
            self.ready(),
        ensures
            r@ == spec_into_lines(self.options_view(), self.cases_view()),
    {
        let ghost lines = spec_line_list(self.options_view(), self.cases_view(), ' ');
        let mut out = String::new();
        if self.cases.len() == 0 {
            proof {
                assert(lines =~= Seq::<Seq<char>>::empty());
            }
            return out;
        }
        let mut i: usize = 0;
        while i < self.cases.len()
            invariant
                i <= self.cases_view().len(),
                self.cases_view().len() > 0,
                lines == spec_line_list(self.options_view(), self.cases_view(), ' '),
                self.ready(),
                i == 0 ==> out@ == Seq::<char>::empty(),
                i > 0 ==> out@ == spec_join(lines.take(i as int), '\n'),
            decreases self.cases_view().len() - i,
        {
            if i > 0 {
                crate::chars::push_char(&mut out, '\n');
            }
            let case = &self.cases[i];
            let mut line = case.text().to_owned();
            crate::chars::push_char(&mut line, ' ');
            let rendered = render_all(&self.options, case, ' ');
            line.append(rendered.as_str());
            out.append(line.as_str());
            proof {
                assert(line@ =~= spec_line(self.options_view(), self.cases_view()[i as int], ' '));
                if i == 0 {
                    assert(lines.take(1) =~= seq![lines[0]]);
                    assert(out@ =~= spec_join(lines.take(1), '\n'));
                } else {
                    crate::words::lemma_join_push(lines.take(i as int), lines[i as int], '\n');
                    assert(lines.take(i + 1 as int) =~= lines.take(i as int).push(
                        lines[i as int],
                    ));
                    assert(out@ =~= spec_join(lines.take(i as int), '\n') + seq!['\n'] + line@);
                }
            }
            i = i + 1;
        }
        proof {
            assert(lines.take(lines.len() as int) =~= lines);
        }
        out
    }

    /// `--regex` output: one line per token, the origin text first, then the
    /// selected renderings joined into one OR-regex.
    pub fn into_regex(self) -> (r: String)
        requires
            self.ready(),
        ensures
            r@ == spec_into_regex(self.options_view(), self.cases_view()),
    {
        let ghost lines = spec_line_list(self.options_view(), self.cases_view(), '|');
        let mut out = String::new();
        if self.cases.len() == 0 {
            proof {
                assert(lines =~= Seq::<Seq<char>>::empty());
            }
            return out;
        }
        let mut i: usize = 0;
        while i < self.cases.len()
            invariant
                i <= self.cases_view().len(),
                self.cases_view().len() > 0,
                lines == spec_line_list(self.options_view(), self.cases_view(), '|'),
                self.ready(),
                i == 0 ==> out@ == Seq::<char>::empty(),
                i > 0 ==> out@ == spec_join(lines.take(i as int), '\n'),
            decreases self.cases_view().len() - i,
        {
            if i > 0 {
                crate::chars::push_char(&mut out, '\n');
            }
            let case = &self.cases[i];
            let mut line = case.text().to_owned();
            crate::chars::push_char(&mut line, ' ');
            let rendered = render_all(&self.options, case, '|');
            line.append(rendered.as_str());
            out.append(line.as_str());
            proof {
                assert(line@ =~= spec_line(self.options_view(), self.cases_view()[i as int], '|'));
                if i == 0 {
                    assert(lines.take(1) =~= seq![lines[0]]);
                    assert(out@ =~= spec_join(lines.take(1), '\n'));
                } else {
                    crate::words::lemma_join_push(lines.take(i as int), lines[i as int], '\n');
                    assert(lines.take(i + 1 as int) =~= lines.take(i as int).push(
                        lines[i as int],
                    ));
                    assert(out@ =~= spec_join(lines.take(i as int), '\n') + seq!['\n'] + line@);
                }
            }
            i = i + 1;
        }
        proof {
            assert(lines.take(lines.len() as int) =~= lines);
        }
        out
    }

    /// `--json` output: a `result` array with one object per token, holding
    /// the origin text and one field per selected rendering.
    pub fn into_json(self) -> (r: String)
        requires
            self.ready(),
        ensures
            r@ == spec_into_json(self.options_view(), self.cases_view()),
    {
        let ghost entries = spec_json_entry_list(self.options_view(), self.cases_view());
        let mut out = "{\"result\":[".to_owned();
        let mut i: usize = 0;
        while i < self.cases.len()
            invariant
                i <= self.cases_view().len(),
                entries == spec_json_entry_list(self.options_view(), self.cases_view()),
                self.ready(),
                out@ == "{\"result\":["@ + spec_join(entries.take(i as int), ','),
            decreases self.cases_view().len() - i,
        {
            if i > 0 {
                crate::chars::push_char(&mut out, ',');
            }
            let case = &self.cases[i];
            let mut entry = "{\"origin\":\"".to_owned();
            entry.append(case.text());
            entry.append("\",");
            let fields = render_fields(&self.options, case);
            entry.append(fields.as_str());
            entry.append("}");
            out.append(entry.as_str());
            proof {
                assert(entry@ =~= spec_json_entry(self.options_view(), self.cases_view()[i as int]));
                if i == 0 {
                    assert(entries.take(1) =~= seq![entries[0]]);
                    assert(out@ =~= "{\"result\":["@ + spec_join(entries.take(1), ','));
                } else {
                    crate::words::lemma_join_push(entries.take(i as int), entries[i as int], ',');
                    assert(entries.take(i + 1 as int) =~= entries.take(i as int).push(
                        entries[i as int],
                    ));
                    assert(out@ =~= "{\"result\":["@ + (spec_join(entries.take(i as int), ',')
                        + seq![','] + entry@));
                }
            }
            i = i + 1;
        }
        out.append("]}");
        proof {
            assert(entries.take(entries.len() as int) =~= entries);
            assert(out@ =~= spec_into_json(self.options_view(), self.cases_view()));
        }
        out
    }

    /// `--regex --json` output: a `result` array with one object per token,
    /// holding the origin text and the OR-regex of the selected renderings.
    pub fn into_regex_json(self) -> (r: String)
        requires
            self.ready(),
        ensures
            r@ == spec_into_regex_json(self.options_view(), self.cases_view()),
    {
        let ghost entries = spec_regex_entry_list(self.options_view(), self.cases_view());
        let mut out = "{\"result\":[".to_owned();
        let mut i: usize = 0;
        while i < self.cases.len()
            invariant
                i <= self.cases_view().len(),
                entries == spec_regex_entry_list(self.options_view(), self.cases_view()),
                self.ready(),
                out@ == "{\"result\":["@ + spec_join(entries.take(i as int), ','),
            decreases self.cases_view().len() - i,
        {
            if i > 0 {
                crate::chars::push_char(&mut out, ',');
            }
            let case = &self.cases[i];
            let mut entry = "{\"origin\":\"".to_owned();
            entry.append(case.text());
            entry.append("\",\"regex\":\"");
            let rendered = render_all(&self.options, case, '|');
            entry.append(rendered.as_str());
            entry.append("\"}");
            out.append(entry.as_str());
            proof {
                assert(entry@ =~= spec_regex_entry(
                    self.options_view(),
                    self.cases_view()[i as int],
                ));
                if i == 0 {
                    assert(entries.take(1) =~= seq![entries[0]]);
                    assert(out@ =~= "{\"result\":["@ + spec_join(entries.take(1), ','));
                } else {
                    crate::words::lemma_join_push(entries.take(i as int), entries[i as int], ',');
                    assert(entries.take(i + 1 as int) =~= entries.take(i as int).push(
                        entries[i as int],
                    ));
                    assert(out@ =~= "{\"result\":["@ + (spec_join(entries.take(i as int), ',')
                        + seq![','] + entry@));
                }
            }
            i = i + 1;
        }
        out.append("]}");
        proof {
            assert(entries.take(entries.len() as int) =~= entries);
            assert(out@ =~= spec_into_regex_json(self.options_view(), self.cases_view()));
        }
        out
    }
}

} // verus!
