//! Regular expressions, through the `regex` crate.
use vstd::prelude::*;

verus! {

/// `regex::Regex`, a compiled regular expression.
#[verifier::external_type_specification]
#[verifier::external_body]
pub struct ExRegex(regex::Regex);

/// Whether `regex::Regex::new` accepts `pattern`.
pub uninterp spec fn regex_compiles(pattern: Seq<char>) -> bool;

/// What `regex::Regex::is_match` answers for the regex of `pattern` on
/// `haystack`: whether it matches anywhere in it.
pub uninterp spec fn regex_matches(pattern: Seq<char>, haystack: Seq<char>) -> bool;

/// What `regex::Regex::captures` gives for the regex of `pattern` on
/// `haystack`: `None` when it does not match, else the text of each capture
/// group of the leftmost-first match, by group number (group 0 being the whole
/// match), `None` for a group that took no part.
pub uninterp spec fn regex_captures(pattern: Seq<char>, haystack: Seq<char>) -> Option<Seq<Option<Seq<char>>>>;

/// The characters `regex::escape` puts a backslash before.
pub open spec fn is_meta_character(c: char) -> bool {
    c == '\\' || c == '.' || c == '+' || c == '*' || c == '?' || c == '(' || c == ')' || c == '|'
        || c == '[' || c == ']' || c == '{' || c == '}' || c == '^' || c == '$' || c == '#' || c
        == '&' || c == '-' || c == '~'
}

/// `text` with a backslash before each meta character, so that it matches
/// itself literally.
pub open spec fn escaped(text: Seq<char>) -> Seq<char>
    decreases text.len(),
{
    if text.len() == 0 {
        text
    } else {
        let prev = escaped(text.drop_last());
        if is_meta_character(text.last()) {
            prev.push('\\').push(text.last())
        } else {
            prev.push(text.last())
        }
    }
}

/// The texts of capture groups.
pub open spec fn group_texts(groups: Seq<Option<String>>) -> Seq<Option<Seq<char>>> {
    groups.map_values(
        |g: Option<String>|
            match g {
                Some(s) => Some(s@),
                None => None,
            },
    )
}

/// A compiled regular expression together with the pattern it was compiled
/// from.
pub struct Pattern {
    re: regex::Regex,
    source: String,
}

impl View for Pattern {
    type V = Seq<char>;

    closed spec fn view(&self) -> Seq<char> {
        self.source@
    }
}

/// `regex::Regex::new`: the compiled pattern, if the pattern is accepted.
#[verifier::external_body]
pub(crate) fn compile(pattern: &str) -> (r: Option<Pattern>)
    ensures
        r is Some <==> regex_compiles(pattern@),
        r matches Some(p) ==> p@ == pattern@,
{
    match regex::Regex::new(pattern) {
        Ok(re) => Some(Pattern { re, source: pattern.to_owned() }),
        Err(_) => None,
    }
}

/// `regex::Regex::is_match`: whether the pattern matches anywhere in the
/// haystack, that is, whether `Regex::captures` finds a match.
#[verifier::external_body]
pub(crate) fn is_match(p: &Pattern, haystack: &str) -> (r: bool)
    ensures
        r == regex_matches(p@, haystack@),
        r == regex_captures(p@, haystack@) is Some,
{
    p.re.is_match(haystack)
}

/// `regex::Captures`, the capture groups of one match.
#[verifier::external_type_specification]
#[verifier::external_body]
pub struct ExCaptures<'h>(regex::Captures<'h>);

/// The capture groups a `regex::Captures` holds, by group number: the text of
/// each group's match, `None` for a group that took no part.
pub uninterp spec fn capture_groups(caps: regex::Captures) -> Seq<Option<Seq<char>>>;

/// `regex::Regex::captures`: the groups of the leftmost-first match, if any.
#[verifier::external_body]
fn find_captures<'h>(p: &Pattern, haystack: &'h str) -> (r: Option<regex::Captures<'h>>)
    ensures
        match r {
            Some(c) => regex_captures(p@, haystack@) == Some(capture_groups(c)),
            None => regex_captures(p@, haystack@) is None,
        },
{
    p.re.captures(haystack)
}

/// `regex::Captures::len`: the number of capture groups, matching or not.
#[verifier::external_body]
fn group_count(caps: &regex::Captures) -> (r: usize)
    ensures
        r == capture_groups(*caps).len(),
{
    caps.len()
}

/// `regex::Captures::get`: the text of group `i`'s match, `None` when the
/// group took no part.
#[verifier::external_body]
fn group_text(caps: &regex::Captures, i: usize) -> (r: Option<String>)
    requires
        i < capture_groups(*caps).len(),
    ensures
        match r {
            Some(t) => capture_groups(*caps)[i as int] == Some(t@),
            None => capture_groups(*caps)[i as int] is None,
        },
{
    match caps.get(i) {
        Some(m) => Some(m.as_str().to_owned()),
        None => None,
    }
}

/// The capture groups of the leftmost-first match of `p` in `haystack`, each
/// group's match as its text; `None` when `p` does not match.
pub(crate) fn captures(p: &Pattern, haystack: &str) -> (r: Option<Vec<Option<String>>>)
    ensures
        match r {
            Some(groups) => regex_captures(p@, haystack@) == Some(group_texts(groups@)),
            None => regex_captures(p@, haystack@) is None,
        },
{
    let caps = match find_captures(p, haystack) {
        None => return None,
        Some(c) => c,
    };
    let n = group_count(&caps);
    let mut groups: Vec<Option<String>> = Vec::new();
    let mut i: usize = 0;
    while i < n
        invariant
            n == capture_groups(caps).len(),
            i <= n,
            groups@.len() == i,
            group_texts(groups@) == capture_groups(caps).take(i as int),
        decreases n - i,
    {
        let g = group_text(&caps, i);
        let ghost prev = groups@;
        groups.push(g);
        proof {
            assert(groups@ =~= prev.push(g));
            assert(group_texts(groups@)[i as int] == capture_groups(caps)[i as int]);
            assert(group_texts(groups@) =~= capture_groups(caps).take(i + 1));
        }
        i = i + 1;
    }
    assert(capture_groups(caps).take(n as int) =~= capture_groups(caps));
    Some(groups)
}

/// `regex::escape`: `text` with a backslash before each meta character.
#[verifier::external_body]
pub(crate) fn escape(text: &str) -> (r: String)
    ensures
        r@ == escaped(text@),
{
    regex::escape(text)
}

} // verus!
