//! Query tokenization and fuzzy matching helpers.
use vstd::prelude::*;
use crate::strings::{chars_of, string_from_chars};
use crate::unicode::{char_is_lower, char_is_space, char_is_upper, is_lower, is_space, is_upper, lowercase, to_lower};

verus! {

/// Characters that separate identifier segments.
pub open spec fn is_separator(c: char) -> bool {
    c == ':' || c == '.' || c == '-' || c == '_' || c == '/' || c == '\\'
}

/// Ends the current segment: a non-empty segment is kept, lowercased.
pub open spec fn flush(toks: Seq<Seq<char>>, cur: Seq<char>) -> Seq<Seq<char>> {
    if cur.len() > 0 {
        toks.push(lowercase(cur))
    } else {
        toks
    }
}

/// An uppercase letter starts a new segment when it follows or precedes a lowercase one.
pub open spec fn starts_camel_segment(chars: Seq<char>, i: int) -> bool {
    (i > 0 && char_is_lower(chars[i - 1])) || (i + 1 < chars.len() && char_is_lower(chars[i + 1]))
}

/// Segments found and segment in progress after reading the first `i` characters.
pub open spec fn scan(chars: Seq<char>, i: nat) -> (Seq<Seq<char>>, Seq<char>)
    decreases i,
{
    if i == 0 || i > chars.len() {
        (Seq::empty(), Seq::empty())
    } else {
        let (toks, cur) = scan(chars, (i - 1) as nat);
        let k = i - 1;
        let c = chars[k];
        if is_separator(c) {
            (flush(toks, cur), Seq::empty())
        } else if char_is_upper(c) {
            if starts_camel_segment(chars, k) {
                (flush(toks, cur), seq![c])
            } else {
                (toks, cur.push(c))
            }
        } else if char_is_space(c) {
            (flush(toks, cur), Seq::empty())
        } else {
            (toks, cur.push(c))
        }
    }
}

/// The tokens of a text: its lowercased segments split at separators, whitespace
/// and camel-case boundaries, followed by the whole text lowercased unless that is
/// already one of them.
pub open spec fn tokens_of(text: Seq<char>) -> Seq<Seq<char>> {
    let (toks, cur) = scan(text, text.len());
    let all = flush(toks, cur);
    let whole = lowercase(text);
    if all.contains(whole) {
        all
    } else {
        all.push(whole)
    }
}

pub open spec fn string_views(v: Seq<String>) -> Seq<Seq<char>> {
    v.map_values(|s: String| s@)
}

fn push_flushed(tokens: &mut Vec<String>, current: &mut Vec<char>)
    ensures
        string_views(final(tokens)@) == flush(string_views(old(tokens)@), old(current)@),
        final(current)@ == Seq::<char>::empty(),
{
    if current.len() > 0 {
        let s = string_from_chars(current);
        let low = to_lower(s.as_str());
        let ghost t0 = tokens@;
        tokens.push(low);
        assert(string_views(tokens@) =~= string_views(t0).push(low@));
    }
    *current = Vec::new();
}

fn contains_string(v: &Vec<String>, s: &String) -> (r: bool)
    ensures
        r == string_views(v@).contains(s@),
{
    let mut i: usize = 0;
    while i < v.len()
        invariant
            i <= v.len(),
            forall|j: int| 0 <= j < i ==> string_views(v@)[j] != s@,
        decreases v.len() - i,
    {
        if v[i] == *s {
            assert(string_views(v@)[i as int] == s@);
            return true;
        }
        i = i + 1;
    }
    false
}

/// Splits a text into lowercase search tokens (see `tokens_of`).
pub fn tokenize(text: &str) -> (tokens: Vec<String>)
    ensures
        string_views(tokens@) == tokens_of(text@),
{
    let chars = chars_of(text);
    let mut tokens: Vec<String> = Vec::new();
    let mut current: Vec<char> = Vec::new();
    let n = chars.len();
    let mut i: usize = 0;
    while i < n
        invariant
            n == chars.len(),
            chars@ == text@,
            i <= n,
            (string_views(tokens@), current@) == scan(chars@, i as nat),
        decreases n - i,
    {
        let c = chars[i];
        if c == ':' || c == '.' || c == '-' || c == '_' || c == '/' || c == '\\' {
            push_flushed(&mut tokens, &mut current);
        } else if is_upper(c) {
            let prev_is_lower = i > 0 && is_lower(chars[i - 1]);
            let next_is_lower = i + 1 < n && is_lower(chars[i + 1]);
            if prev_is_lower || next_is_lower {
                push_flushed(&mut tokens, &mut current);
            }
            current.push(c);
            proof {
                if prev_is_lower || next_is_lower {
                    assert(current@ =~= seq![c]);
                }
            }
        } else if is_space(c) {
            push_flushed(&mut tokens, &mut current);
        } else {
            current.push(c);
        }
        i = i + 1;
    }
    push_flushed(&mut tokens, &mut current);
    let lower = to_lower(text);
    if !contains_string(&tokens, &lower) {
        let ghost t0 = tokens@;
        tokens.push(lower);
        assert(string_views(tokens@) =~= string_views(t0).push(lower@));
    }
    tokens
}

/// `sub` can be obtained from `full` by deleting characters (greedy matching).
pub open spec fn is_subseq(sub: Seq<char>, full: Seq<char>) -> bool
    decreases full.len(),
{
    if sub.len() == 0 {
        true
    } else if full.len() == 0 {
        false
    } else if sub[0] == full[0] {
        is_subseq(sub.drop_first(), full.drop_first())
    } else {
        is_subseq(sub, full.drop_first())
    }
}

/// Every text is a subsequence of itself and of any text it starts.
pub proof fn law_subsequence_of_extension(s: Seq<char>, t: Seq<char>)
    ensures
        is_subseq(s, s + t),
        is_subseq(s, s),
    decreases s.len(),
{
    if s.len() > 0 {
        assert((s + t).drop_first() =~= s.drop_first() + t);
        law_subsequence_of_extension(s.drop_first(), t);
    }
    assert(s + Seq::<char>::empty() =~= s);
    if s.len() > 0 {
        law_subsequence_of_extension(s.drop_first(), Seq::<char>::empty());
        assert(s.drop_first() + Seq::<char>::empty() =~= s.drop_first());
    }
}

/// Whether the characters of `sub` occur in `full` in order.
pub fn is_subsequence(sub: &str, full: &str) -> (r: bool)
    ensures
        r == is_subseq(sub@, full@),
{
    let s = chars_of(sub);
    let f = chars_of(full);
    let mut j: usize = 0;
    if s.len() == 0 {
        return true;
    }
    let mut i: usize = 0;
    assert(s@.skip(0) =~= s@);
    assert(f@.skip(0) =~= f@);
    while i < f.len()
        invariant
            i <= f.len(),
            j < s.len(),
            s@ == sub@,
            f@ == full@,
            is_subseq(s@, f@) == is_subseq(s@.skip(j as int), f@.skip(i as int)),
        decreases f.len() - i,
    {
        let ghost ss = s@.skip(j as int);
        let ghost fs = f@.skip(i as int);
        assert(ss.drop_first() =~= s@.skip(j + 1));
        assert(fs.drop_first() =~= f@.skip(i + 1));
        assert(ss[0] == s@[j as int]);
        assert(fs[0] == f@[i as int]);
        if f[i] == s[j] {
            j = j + 1;
            assert(is_subseq(ss, fs) == is_subseq(s@.skip(j as int), f@.skip(i + 1)));
            if j == s.len() {
                assert(s@.skip(j as int).len() == 0);
                assert(is_subseq(s@.skip(j as int), f@.skip(i + 1)));
                return true;
            }
        }
        i = i + 1;
    }
    assert(f@.skip(i as int).len() == 0);
    false
}

} // verus!
