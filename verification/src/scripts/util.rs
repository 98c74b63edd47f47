//! Cleaning game log lines down to the text a player sees.
use vstd::prelude::*;
use crate::text::{chars_of, string_from_chars};

verus! {

/// What is left of a line after its first `]`: the whole rest, or nothing
/// when the line has no `]`.
pub open spec fn after_bracket(s: Seq<char>) -> Seq<char>
    decreases s.len(),
{
    if s.len() == 0 {
        s
    } else if s[0] == ']' {
        s.drop_first()
    } else {
        after_bracket(s.drop_first())
    }
}

/// Whether the reader of `s`, left to right, ends inside a `<...>` markup tag.
pub open spec fn inside_tag(s: Seq<char>) -> bool
    decreases s.len(),
{
    if s.len() == 0 {
        false
    } else {
        let st = inside_tag(s.drop_last());
        let c = s.last();
        if c == '>' && st {
            false
        } else if c == '<' && !st {
            true
        } else {
            st
        }
    }
}

/// The characters of `s` outside of markup tags; `<` and `>` themselves are
/// never kept, paired or not.
pub open spec fn strip_tags(s: Seq<char>) -> Seq<char>
    decreases s.len(),
{
    if s.len() == 0 {
        s
    } else {
        let prev = strip_tags(s.drop_last());
        let c = s.last();
        if !inside_tag(s.drop_last()) && c != '<' && c != '>' {
            prev.push(c)
        } else {
            prev
        }
    }
}

/// The visible text of one game log line: the part after the timestamp's
/// closing `]`, without markup tags.
pub open spec fn raw_text(line: Seq<char>) -> Seq<char> {
    strip_tags(after_bracket(line))
}

proof fn lemma_after_bracket_skip(s: Seq<char>, i: int)
    requires
        0 <= i <= s.len(),
        forall|k: int| 0 <= k < i ==> #[trigger] s[k] != ']',
    ensures
        after_bracket(s) == after_bracket(s.subrange(i, s.len() as int)),
    decreases i,
{
    if i > 0 {
        lemma_after_bracket_skip(s.drop_first(), i - 1);
        assert(s.drop_first().subrange(i - 1, s.drop_first().len() as int) =~= s.subrange(
            i,
            s.len() as int,
        ));
    } else {
        assert(s.subrange(0, s.len() as int) =~= s);
    }
}

/// The visible text of one line (see `raw_text`).
pub fn raw_text_of(line: &str) -> (r: String)
    ensures
        r@ == raw_text(line@),
{
    let cs = chars_of(line);
    let n = cs.len();
    let mut i: usize = 0;
    while i < n && cs[i] != ']'
        invariant
            n == cs.len(),
            i <= n,
            forall|k: int| 0 <= k < i ==> #[trigger] cs@[k] != ']',
        decreases n - i,
    {
        i = i + 1;
    }
    proof {
        lemma_after_bracket_skip(cs@, i as int);
        if i < n {
            assert(cs@.subrange(i as int, n as int).drop_first() =~= cs@.subrange(
                i + 1,
                n as int,
            ));
        }
    }
    let start: usize = if i < n {
        i + 1
    } else {
        n
    };
    let ghost rest = cs@.subrange(start as int, n as int);
    assert(after_bracket(cs@) == rest);
    let mut out: Vec<char> = Vec::new();
    let mut in_tag = false;
    let mut k: usize = start;
    assert(rest.take(0) =~= Seq::<char>::empty());
    while k < n
        invariant
            n == cs.len(),
            start <= k <= n,
            rest == cs@.subrange(start as int, n as int),
            in_tag == inside_tag(rest.take(k - start)),
            out@ == strip_tags(rest.take(k - start)),
        decreases n - k,
    {
        let c = cs[k];
        let ghost before = rest.take(k - start);
        k = k + 1;
        assert(rest.take(k - start).drop_last() =~= before);
        assert(rest.take(k - start).last() == c);
        if c == '>' && in_tag {
            in_tag = false;
        } else if c == '<' && !in_tag {
            in_tag = true;
        } else if !in_tag && c != '<' && c != '>' {
            out.push(c);
        }
    }
    assert(rest.take(n - start) =~= rest);
    string_from_chars(out.as_slice())
}

/// Cleans every line: see `raw_text`.
pub fn to_raw_text(logs: &[String]) -> (r: Vec<String>)
    ensures
        r@.len() == logs@.len(),
        forall|i: int| 0 <= i < logs@.len() ==> (#[trigger] r@[i])@ == raw_text(logs@[i]@),
{
    let mut out: Vec<String> = Vec::new();
    let mut i: usize = 0;
    while i < logs.len()
        invariant
            i <= logs.len(),
            out@.len() == i,
            forall|k: int| 0 <= k < i ==> (#[trigger] out@[k])@ == raw_text(logs@[k]@),
        decreases logs.len() - i,
    {
        let cleaned = raw_text_of(logs[i].as_str());
        out.push(cleaned);
        i = i + 1;
    }
    out
}

/// Markup brackets never survive cleaning.
proof fn lemma_strip_tags_has_no_brackets(s: Seq<char>)
    ensures
        !strip_tags(s).contains('<'),
        !strip_tags(s).contains('>'),
        strip_tags(s).len() <= s.len(),
    decreases s.len(),
{
    if s.len() > 0 {
        lemma_strip_tags_has_no_brackets(s.drop_last());
        let prev = strip_tags(s.drop_last());
        let c = s.last();
        if !inside_tag(s.drop_last()) && c != '<' && c != '>' {
            assert forall|k: int| 0 <= k < prev.push(c).len() implies prev.push(c)[k] != '<'
                && prev.push(c)[k] != '>' by {
                if k < prev.len() {
                    assert(prev[k] != '<' && prev[k] != '>') by {
                        if prev[k] == '<' {
                            assert(prev.contains('<'));
                        }
                        if prev[k] == '>' {
                            assert(prev.contains('>'));
                        }
                    }
                }
            }
        }
    }
}

/// A cleaned line holds no markup brackets and is never longer than the line
/// it comes from.
pub proof fn law_raw_text_is_clean(line: Seq<char>)
    ensures
        !raw_text(line).contains('<'),
        !raw_text(line).contains('>'),
        raw_text(line).len() <= line.len(),
{
    lemma_strip_tags_has_no_brackets(after_bracket(line));
    lemma_after_bracket_shorter(line);
}

proof fn lemma_after_bracket_shorter(s: Seq<char>)
    ensures
        after_bracket(s).len() <= s.len(),
    decreases s.len(),
{
    if s.len() > 0 && s[0] != ']' {
        lemma_after_bracket_shorter(s.drop_first());
    }
}

/// Cleaning drops exactly the timestamp: of a line made of a prefix with no
/// `]`, a `]`, and a message, the message is kept whole (a later `]` in it
/// included) and only its markup tags are removed; a message without markup
/// is kept as it is.
pub proof fn law_cleaning_drops_only_the_timestamp(prefix: Seq<char>, message: Seq<char>)
    requires
        !prefix.contains(']'),
    ensures
        raw_text(prefix + seq![']'] + message) == strip_tags(message),
        !message.contains('<') && !message.contains('>') ==> raw_text(prefix + seq![']'] + message) == message,
{
    let line = prefix + seq![']'] + message;
    assert forall|k: int| 0 <= k < prefix.len() implies #[trigger] line[k] != ']' by {
        assert(line[k] == prefix[k]);
        if prefix[k] == ']' {
            assert(prefix.contains(']'));
        }
    }
    lemma_after_bracket_skip(line, prefix.len() as int);
    let t = line.subrange(prefix.len() as int, line.len() as int);
    assert(t[0] == ']');
    assert(t.drop_first() =~= message);
    if !message.contains('<') && !message.contains('>') {
        lemma_strip_tags_plain(message);
    }
}

/// Text without markup brackets is left as it is by tag stripping.
proof fn lemma_strip_tags_plain(s: Seq<char>)
    requires
        !s.contains('<'),
        !s.contains('>'),
    ensures
        strip_tags(s) == s,
        !inside_tag(s),
    decreases s.len(),
{
    if s.len() > 0 {
        let p = s.drop_last();
        assert(!p.contains('<')) by {
            if p.contains('<') {
                let k = choose|k: int| 0 <= k < p.len() && p[k] == '<';
                assert(s[k] == '<');
            }
        }
        assert(!p.contains('>')) by {
            if p.contains('>') {
                let k = choose|k: int| 0 <= k < p.len() && p[k] == '>';
                assert(s[k] == '>');
            }
        }
        lemma_strip_tags_plain(p);
        assert(s.last() != '<' && s.last() != '>') by {
            if s.last() == '<' {
                assert(s[s.len() - 1] == '<');
            }
            if s.last() == '>' {
                assert(s[s.len() - 1] == '>');
            }
        }
        assert(p.push(s.last()) =~= s);
    }
}

} // verus!
