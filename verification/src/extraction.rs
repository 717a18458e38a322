use vstd::prelude::*;


verus! {

// Answering the `--eof` and `--locator` options: trimming input at a logical
// end-of-input marker, and capturing identifier-like words from long text.
// The regular-expression machinery itself comes from the regex crate and is
// only declared here; everything around it is verified.

/// The pattern occurs in `t` starting at position `i`.
pub open spec fn is_match_at(t: Seq<char>, pat: Seq<char>, i: int) -> bool {
    0 <= i && i + pat.len() <= t.len() && t.subrange(i, i + pat.len()) == pat
}

/// The first position where the pattern occurs in `t`; -1 if it never does.
pub open spec fn spec_find_match(t: Seq<char>, pat: Seq<char>) -> int
    decreases t.len(),
{
    if pat.len() <= t.len() && t.subrange(0, pat.len() as int) == pat {
        0
    } else if t.len() == 0 {
        -1
    } else {
        let r = spec_find_match(t.drop_first(), pat);
        if r < 0 {
            -1
        } else {
            1 + r
        }
    }
}

pub proof fn lemma_find_match(t: Seq<char>, pat: Seq<char>)
    ensures
        spec_find_match(t, pat) >= 0 ==> is_match_at(t, pat, spec_find_match(t, pat)),
        forall|k: int|
            0 <= k < spec_find_match(t, pat) ==> !is_match_at(t, pat, k),
        spec_find_match(t, pat) == -1 ==> forall|k: int| !is_match_at(t, pat, k),
    decreases t.len(),
{
    let f = spec_find_match(t, pat);
    if pat.len() <= t.len() && t.subrange(0, pat.len() as int) == pat {
        assert(is_match_at(t, pat, 0));
    } else if t.len() == 0 {
        assert forall|k: int| !is_match_at(t, pat, k) by {
            if is_match_at(t, pat, k) {
                assert(t.subrange(k, k + pat.len()) == pat);
            }
        }
    } else {
        let u = t.drop_first();
        lemma_find_match(u, pat);
        let g = spec_find_match(u, pat);
        assert(!is_match_at(t, pat, 0));
        assert forall|k: int| 1 <= k && is_match_at(t, pat, k) implies is_match_at(
            u,
            pat,
            k - 1,
        ) by {
            assert(u.subrange(k - 1, k - 1 + pat.len()) =~= t.subrange(k, k + pat.len()));
        }
        assert forall|k: int| 0 <= k && is_match_at(u, pat, k) implies is_match_at(
            t,
            pat,
            k + 1,
        ) by {
            assert(t.subrange(k + 1, k + 1 + pat.len()) =~= u.subrange(k, k + pat.len()));
        }
        if g >= 0 {
            assert(f == g + 1);
            assert(is_match_at(t, pat, f));
        }
    }
}

/// Find the position of the first occurrence of `pat` in `t`, if there is
/// one.
fn find_substring(t: &str, pat: &str) -> (r: Option<usize>)
    ensures
        r matches Some(i) ==> i == spec_find_match(t@, pat@),
        r is None ==> spec_find_match(t@, pat@) == -1,
{
    let n = t.unicode_len();
    let m = pat.unicode_len();
    if m > n {
        proof {
            lemma_find_match(t@, pat@);
            if spec_find_match(t@, pat@) >= 0 {
                assert(is_match_at(t@, pat@, spec_find_match(t@, pat@)));
            }
        }
        return None;
    }
    let mut i: usize = 0;
    while i <= n - m
        invariant
            0 <= i <= n - m + 1,
            m <= n,
            n == t@.len(),
            m == pat@.len(),
            forall|k: int| 0 <= k < i ==> !is_match_at(t@, pat@, k),
        decreases n - i,
    {
        let mut j: usize = 0;
        let mut matched = true;
        while j < m
            invariant
                0 <= j <= m,
                i + m <= n,
                n == t@.len(),
                m == pat@.len(),
                matched == (forall|q: int| 0 <= q < j ==> t@[i + q] == pat@[q]),
            decreases m - j,
        {
            if t.get_char(i + j) != pat.get_char(j) {
                proof {
                    assert(!(t@[i + j as int] == pat@[j as int]));
                }
                matched = false;
                j = m;
            } else {
                proof {
                    if matched {
                        assert(forall|q: int| 0 <= q < j + 1 ==> t@[i + q] == pat@[q]);
                    }
                }
                j = j + 1;
            }
        }
        if matched {
            proof {
                assert(t@.subrange(i as int, i + m as int) =~= pat@);
                assert(is_match_at(t@, pat@, i as int));
                lemma_find_match(t@, pat@);
                let f = spec_find_match(t@, pat@);
                if f == -1 {
                    assert(!is_match_at(t@, pat@, i as int));
                }
                assert(f >= 0);
                assert(is_match_at(t@, pat@, f));
                assert(f == i as int);
            }
            return Some(i);
        }
        proof {
            if is_match_at(t@, pat@, i as int) {
                assert(t@.subrange(i as int, i + m as int) == pat@);
                let ghost q = choose|q: int| 0 <= q < m && t@[i + q] != pat@[q];
                assert(t@.subrange(i as int, i + m as int)[q] == pat@[q]);
            }
        }
        i = i + 1;
    }
    proof {
        lemma_find_match(t@, pat@);
        let f = spec_find_match(t@, pat@);
        if f >= 0 {
            assert(is_match_at(t@, pat@, f));
            assert(f + m <= n);
        }
    }
    None
}

/// What trimming at the logical end-of-input marker leaves: the text up to
/// (and not including) the marker's first occurrence, or the whole text if
/// the marker never occurs or none was given.
pub open spec fn spec_trimmed(eof: Option<&str>, t: Seq<char>) -> Seq<char> {
    match eof {
        None => t,
        Some(e) => {
            let f = spec_find_match(t, e@);
            if f >= 0 {
                t.take(f)
            } else {
                t
            }
        },
    }
}

/// Cut the text at the first occurrence of the logical end-of-input marker,
/// if one was given and occurs; the rest of the input is ignored.
pub fn apply_eof_on_text(eof: Option<&str>, text: String) -> (r: String)
    ensures
        r@ == spec_trimmed(eof, text@),
{
    match eof {
        None => text,
        Some(e) => {
            match find_substring(text.as_str(), e) {
                Some(pos) => {
                    proof {
                        lemma_find_match(text@, e@);
                    }
                    text.as_str().substring_char(0, pos).to_owned()
                },
                None => text,
            }
        },
    }
}

/// Cut the text at the first occurrence of the logical end-of-input marker,
/// if one was given and occurs; the rest of the input is ignored.
pub fn trim_text_with_logical_eof(eof: Option<&str>, text: String) -> (r: String)
    ensures
        r@ == spec_trimmed(eof, text@),
{
    apply_eof_on_text(eof, text)
}

/// The input words with every repetition of an earlier word removed: the
/// first occurrence of each word survives, in its original position.
pub open spec fn spec_dedup(ws: Seq<Seq<char>>) -> Seq<Seq<char>>
    decreases ws.len(),
{
    if ws.len() == 0 {
        Seq::empty()
    } else {
        let d = spec_dedup(ws.drop_last());
        if d.contains(ws.last()) {
            d
        } else {
            d.push(ws.last())
        }
    }
}

pub proof fn lemma_dedup_distinct(ws: Seq<Seq<char>>)
    ensures
        forall|i: int, j: int|
            0 <= i < j < spec_dedup(ws).len() ==> spec_dedup(ws)[i] != spec_dedup(ws)[j],
    decreases ws.len(),
{
    if ws.len() > 0 {
        lemma_dedup_distinct(ws.drop_last());
        let d = spec_dedup(ws.drop_last());
        if !d.contains(ws.last()) {
            assert forall|i: int, j: int|
                0 <= i < j < d.push(ws.last()).len() implies d.push(ws.last())[i] != d.push(
                ws.last(),
            )[j] by {
                if j == d.len() {
                    assert(d.push(ws.last())[i] == d[i]);
                    assert(d.contains(d[i]));
                }
            }
        }
    }
}

fn contains_string(ws: &Vec<String>, w: &String) -> (b: bool)
    ensures
        b == ws.deep_view().contains(w@),
{
    let mut i: usize = 0;
    while i < ws.len()
        invariant
            i <= ws@.len(),
            forall|k: int| 0 <= k < i ==> ws.deep_view()[k] != w@,
        decreases ws@.len() - i,
    {
        if ws[i] == *w {
            proof {
                assert(ws.deep_view()[i as int] == w@);
            }
            return true;
        }
        i = i + 1;
    }
    proof {
        if ws.deep_view().contains(w@) {
            let k = choose|k: int| 0 <= k < ws.deep_view().len() && ws.deep_view()[k] == w@;
            assert(ws.deep_view()[k] != w@);
        }
    }
    false
}

/// Remove every repetition of an earlier word while keeping the order.
fn dedup_words(words: Vec<String>) -> (r: Vec<String>)
    ensures
        r.deep_view() == spec_dedup(words.deep_view()),
{
    let ghost wsv = words.deep_view();
    let mut r: Vec<String> = Vec::new();
    let mut i: usize = 0;
    proof {
        assert(wsv.take(0) =~= Seq::<Seq<char>>::empty());
        assert(r.deep_view() =~= spec_dedup(wsv.take(0)));
    }
    while i < words.len()
        invariant
            i <= wsv.len(),
            wsv == words.deep_view(),
            r.deep_view() == spec_dedup(wsv.take(i as int)),
        decreases wsv.len() - i,
    {
        let ghost pre = r.deep_view();
        let seen = contains_string(&r, &words[i]);
        if !seen {
            r.push(words[i].clone());
        }
        proof {
            let prefix = wsv.take(i as int);
            let next = wsv.take(i + 1 as int);
            assert(next.drop_last() =~= prefix);
            assert(next.last() == wsv[i as int]);
            assert(words@[i as int]@ == wsv[i as int]);
            if !seen {
                assert(r.deep_view() =~= pre.push(wsv[i as int]));
            }
            assert(r.deep_view() =~= spec_dedup(next));
        }
        i = i + 1;
    }
    proof {
        assert(wsv.take(wsv.len() as int) =~= wsv);
    }
    r
}

#[verifier::external_type_specification]
#[verifier::external_body]
pub struct ExRegex(regex::Regex);

#[verifier::external_type_specification]
#[verifier::external_body]
pub struct ExRegexError(regex::Error);

/// Relies on `regex::Regex::new`: compiles the pattern, or reports why it is
/// not a valid regular expression.
#[verifier::external_body]
fn compile_pattern(pattern: &str) -> (r: Result<regex::Regex, regex::Error>) {
    regex::Regex::new(pattern)
}

/// Relies on `regex::Error`'s `Display`: the human-readable reason a pattern
/// was rejected.
#[verifier::external_body]
fn regex_error_text(e: &regex::Error) -> (r: String) {
    format!("{}", e)
}

/// Relies on `regex::Regex::captures_iter`: hands out the text of capture
/// group 1 of each non-overlapping match, in match order; matches where the
/// group did not participate are skipped.
#[verifier::external_body]
fn captured_group_texts(re: &regex::Regex, text: &str) -> (r: Vec<String>) {
    re.captures_iter(text).filter_map(|cap| cap.get(1)).map(|m| m.as_str().to_string()).collect()
}

/// Find the position of the first space in the locator, if there is one.
fn find_space(s: &str) -> (r: Option<usize>)
    ensures
        r matches Some(p) ==> p == crate::detector::spec_find_char(s@, ' ') && p < s@.len(),
        r is None ==> crate::detector::spec_find_char(s@, ' ') == s@.len(),
{
    let n = s.unicode_len();
    let mut i: usize = 0;
    while i < n
        invariant
            i <= n,
            n == s@.len(),
            forall|k: int| 0 <= k < i ==> s@[k] != ' ',
        decreases n - i,
    {
        if s.get_char(i) == ' ' {
            proof {
                crate::detector::lemma_find_char(s@, ' ');
                let f = crate::detector::spec_find_char(s@, ' ');
                if f < i {
                    assert(s@[f] == ' ');
                }
                if f > i {
                    assert(s@[i as int] != ' ');
                }
            }
            return Some(i);
        }
        i = i + 1;
    }
    proof {
        crate::detector::lemma_find_char(s@, ' ');
        let f = crate::detector::spec_find_char(s@, ' ');
        if f < n {
            assert(s@[f] == ' ');
        }
    }
    None
}

/// A locator string has a space between its prefix and suffix part.
pub open spec fn spec_locator_splits(loc: Seq<char>) -> bool {
    crate::detector::spec_find_char(loc, ' ') < loc.len()
}

/// Answer user's `--locator` options: capture words that stand between the
/// given prefix and suffix pairs in long text.
pub struct Captor {
    patterns: Vec<regex::Regex>,
}

impl Captor {
    /// Build a captor from locator pairs, each "prefix suffix" with one space
    /// between the parts, or from the default whitespace pair. Each part is
    /// inserted into the capture pattern as the user escaped it. A locator
    /// without a space, or one whose parts do not form a valid regular
    /// expression, is reported as an error.
    pub fn new(locators: Option<Vec<String>>) -> (r: Result<Captor, String>)
        ensures
            ({
                let locs = match locators {
                    Some(v) => v.deep_view(),
                    None => seq!["\\s \\s"@],
                };
                &&& ((exists|i: int|
                    0 <= i < locs.len() && !spec_locator_splits(#[trigger] locs[i])) ==> r is Err)
                &&& (r is Ok ==> forall|i: int|
                    0 <= i < locs.len() ==> spec_locator_splits(#[trigger] locs[i]))
            }),
    {
        let ghost given = locators;
        let locators = match locators {
            Some(v) => v,
            None => {
                let mut v: Vec<String> = Vec::new();
                v.push("\\s \\s".to_owned());
                v
            },
        };
        let ghost locs = locators.deep_view();
        proof {
            match given {
                Some(v) => {
                    assert(locs == v.deep_view());
                },
                None => {
                    assert(locs =~~= seq!["\\s \\s"@]);
                },
            }
        }
        let mut patterns: Vec<regex::Regex> = Vec::new();
        let mut i: usize = 0;
        while i < locators.len()
            invariant
                i <= locs.len(),
                locs == locators.deep_view(),
                forall|k: int| 0 <= k < i ==> spec_locator_splits(#[trigger] locs[k]),
            decreases locs.len() - i,
        {
            let locator = &locators[i];
            proof {
                assert(locator@ == locs[i as int]);
                crate::detector::lemma_find_char(locator@, ' ');
            }
            let n = locator.as_str().unicode_len();
            let space = match find_space(locator.as_str()) {
                Some(p) => p,
                None => {
                    let mut msg = "naming: locator `".to_owned();
                    msg.append(locator.as_str());
                    msg.append("`: can't build locator pair from this.");
                    return Err(msg);
                },
            };
            let prefix = locator.as_str().substring_char(0, space);
            let suffix = locator.as_str().substring_char(space + 1, n);
            // \A also matches the start of the text, \z its end, so a word at
            // the text's very edge is found too.
            let mut pattern = "(?:".to_owned();
            pattern.append(prefix);
            pattern.append("|\\A)([a-zA-Z0-9_-]+)(?:");
            pattern.append(suffix);
            pattern.append("|\\z)");
            match compile_pattern(pattern.as_str()) {
                Ok(re) => {
                    patterns.push(re);
                },
                Err(e) => {
                    let mut msg = "naming: locator `".to_owned();
                    msg.append(locator.as_str());
                    msg.append("`: ");
                    let reason = regex_error_text(&e);
                    msg.append(reason.as_str());
                    return Err(msg);
                },
            }
            i = i + 1;
        }
        Ok(Captor { patterns })
    }

    /// Extract words from the given text strings with the captor's locating
    /// prefix and suffix pairs. Every pattern is applied to every text, in
    /// order; of words that are captured more than once, only the first
    /// occurrence is kept, so the result holds no duplicates.
    pub fn capture_words(&self, text: Vec<String>) -> (r: Vec<String>)
        ensures
            forall|i: int, j: int| 0 <= i < j < r.deep_view().len() ==> r.deep_view()[i] != r.deep_view()[j],
    {
        let mut matches: Vec<String> = Vec::new();
        let mut i: usize = 0;
        while i < text.len()
            invariant
                i <= text@.len(),
            decreases text@.len() - i,
        {
            let mut p: usize = 0;
            while p < self.patterns.len()
                invariant
                    i < text@.len(),
                    p <= self.patterns@.len(),
                decreases self.patterns@.len() - p,
            {
                let mut found = captured_group_texts(&self.patterns[p], text[i].as_str());
                matches.append(&mut found);
                p = p + 1;
            }
            i = i + 1;
        }
        let r = dedup_words(matches);
        proof {
            lemma_dedup_distinct(matches.deep_view());
        }
        r
    }
}

} // verus!
