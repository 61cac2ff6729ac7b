//! Character-level helpers: whitespace tokenization of command lines,
//! `KEY=VALUE` splitting of environment entries, suffix stripping of
//! dependency names, and membership tests on name lists.

use vstd::prelude::*;
use vstd::string::*;

verus! {

/// The characters the tokenizer treats as blank.
pub open spec fn is_space_char(c: char) -> bool {
    c == ' ' || c == '\t' || c == '\n' || c == '\r'
}

/// Length of the maximal leading run of non-blank characters.
pub open spec fn leading_word_len(s: Seq<char>) -> nat
    decreases s.len(),
{
    if s.len() == 0 || is_space_char(s[0]) {
        0
    } else {
        1 + leading_word_len(s.drop_first())
    }
}

pub proof fn lemma_leading_word_len_bound(s: Seq<char>)
    ensures
        leading_word_len(s) <= s.len(),
    decreases s.len(),
{
    if s.len() > 0 && !is_space_char(s[0]) {
        lemma_leading_word_len_bound(s.drop_first());
    }
}

/// A scan that saw only non-blank characters before `i` and a blank (or the
/// end) at `i` has found the leading word length.
pub proof fn lemma_leading_word_len_at(s: Seq<char>, i: int)
    requires
        0 <= i <= s.len(),
        forall|j: int| 0 <= j < i ==> !is_space_char(#[trigger] s[j]),
        i == s.len() || is_space_char(s[i]),
    ensures
        leading_word_len(s) == i,
    decreases i,
{
    if i > 0 {
        lemma_leading_word_len_at(s.drop_first(), i - 1);
    }
}

/// The blank-separated words of `s`, in order.
pub open spec fn spec_tokens(s: Seq<char>) -> Seq<Seq<char>>
    decreases s.len(),
    via spec_tokens_decreases
{
    if s.len() == 0 {
        Seq::empty()
    } else if is_space_char(s[0]) {
        spec_tokens(s.drop_first())
    } else {
        seq![s.take(leading_word_len(s) as int)] + spec_tokens(
            s.skip(leading_word_len(s) as int),
        )
    }
}

#[via_fn]
proof fn spec_tokens_decreases(s: Seq<char>) {
    if s.len() > 0 && !is_space_char(s[0]) {
        lemma_leading_word_len_bound(s);
    }
}

/// Splits a command line into its blank-separated words.
pub fn tokenize(s: &str) -> (r: Vec<String>)
    ensures
        r.deep_view() == spec_tokens(s@),
{
    let n: usize = s.unicode_len();
    let mut out: Vec<String> = Vec::new();
    let mut i: usize = 0;
    proof {
        assert(s@.skip(0) =~= s@);
        assert(out.deep_view() + spec_tokens(s@) =~~= spec_tokens(s@));
    }
    while i < n
        invariant
            i <= n,
            n == s@.len(),
            out.deep_view() + spec_tokens(s@.skip(i as int)) == spec_tokens(s@),
        decreases n - i,
    {
        let c = s.get_char(i);
        if c == ' ' || c == '\t' || c == '\n' || c == '\r' {
            proof {
                assert(is_space_char(s@.skip(i as int)[0]));
                assert(s@.skip(i as int).drop_first() =~= s@.skip(i + 1));
                assert(spec_tokens(s@.skip(i as int)) == spec_tokens(s@.skip(i + 1)));
            }
            i = i + 1;
        } else {
            let start: usize = i;
            i = i + 1;
            loop
                invariant_except_break
                    start < i <= n,
                    n == s@.len(),
                    forall|j: int| start <= j < i ==> !is_space_char(#[trigger] s@[j]),
                ensures
                    start < i <= n,
                    n == s@.len(),
                    forall|j: int| start <= j < i ==> !is_space_char(#[trigger] s@[j]),
                    i == n || is_space_char(s@[i as int]),
                decreases n - i,
            {
                if i == n {
                    break;
                }
                let d = s.get_char(i);
                if d == ' ' || d == '\t' || d == '\n' || d == '\r' {
                    break;
                }
                i = i + 1;
            }
            let word = s.substring_char(start, i).to_owned();
            proof {
                let rest = s@.skip(start as int);
                assert(rest.len() > 0 && !is_space_char(rest[0]));
                lemma_leading_word_len_at(rest, i - start);
                let k = leading_word_len(rest) as int;
                assert(spec_tokens(rest) == seq![rest.take(k)] + spec_tokens(rest.skip(k)));
                assert(rest.take(k) =~= s@.subrange(start as int, i as int));
                assert(rest.skip(k) =~= s@.skip(i as int));
                assert((out.deep_view().push(word@)) + spec_tokens(s@.skip(i as int))
                    =~~= out.deep_view() + spec_tokens(s@.skip(start as int)));
            }
            out.push(word);
        }
    }
    proof {
        assert(out.deep_view() + spec_tokens(s@.skip(n as int)) =~~= out.deep_view());
    }
    out
}

/// Number of characters before the first `=` (the whole length if none occurs).
pub open spec fn first_eq_len(s: Seq<char>) -> nat
    decreases s.len(),
{
    if s.len() == 0 || s[0] == '=' {
        0
    } else {
        1 + first_eq_len(s.drop_first())
    }
}

pub proof fn lemma_first_eq_len_at(s: Seq<char>, i: int)
    requires
        0 <= i <= s.len(),
        forall|j: int| 0 <= j < i ==> #[trigger] s[j] != '=',
        i == s.len() || s[i] == '=',
    ensures
        first_eq_len(s) == i,
    decreases i,
{
    if i > 0 {
        lemma_first_eq_len_at(s.drop_first(), i - 1);
    }
}

/// An `Environment` entry split at its first `=`; `None` for a malformed
/// entry without one.
pub open spec fn spec_env_pair(s: Seq<char>) -> Option<(Seq<char>, Seq<char>)> {
    if first_eq_len(s) < s.len() {
        Some((s.take(first_eq_len(s) as int), s.skip(first_eq_len(s) as int + 1)))
    } else {
        None
    }
}

/// The well-formed `KEY=VALUE` pairs of a list of entries, in order; entries
/// without `=` are dropped.
pub open spec fn spec_env_pairs(l: Seq<Seq<char>>) -> Seq<(Seq<char>, Seq<char>)>
    decreases l.len(),
{
    if l.len() == 0 {
        Seq::empty()
    } else {
        spec_env_pairs(l.drop_last()) + match spec_env_pair(l.last()) {
            Some(p) => seq![p],
            None => Seq::empty(),
        }
    }
}

/// Splits one entry at its first `=`.
pub fn split_env_entry(s: &String) -> (r: Option<(String, String)>)
    ensures
        r.deep_view() == spec_env_pair(s@),
{
    let n: usize = s.as_str().unicode_len();
    let mut i: usize = 0;
    while i < n && s.as_str().get_char(i) != '='
        invariant
            i <= n,
            n == s@.len(),
            forall|j: int| 0 <= j < i ==> #[trigger] s@[j] != '=',
        decreases n - i,
    {
        i = i + 1;
    }
    proof {
        lemma_first_eq_len_at(s@, i as int);
    }
    if i < n {
        let key = s.as_str().substring_char(0, i).to_owned();
        let value = s.as_str().substring_char(i + 1, n).to_owned();
        proof {
            assert(s@.subrange(0, i as int) =~= s@.take(i as int));
            assert(s@.subrange(i + 1, n as int) =~= s@.skip(i + 1));
        }
        Some((key, value))
    } else {
        None
    }
}

/// Collects the well-formed `KEY=VALUE` pairs of an entry list.
pub fn parse_env_pairs(entries: &Vec<String>) -> (r: Vec<(String, String)>)
    ensures
        r.deep_view() == spec_env_pairs(entries.deep_view()),
{
    let mut out: Vec<(String, String)> = Vec::new();
    let mut i: usize = 0;
    while i < entries.len()
        invariant
            i <= entries.len(),
            out.deep_view() == spec_env_pairs(entries.deep_view().take(i as int)),
        decreases entries.len() - i,
    {
        let ghost pre = entries.deep_view().take(i as int);
        match split_env_entry(&entries[i]) {
            Some(pair) => {
                out.push(pair);
            },
            None => {},
        }
        proof {
            assert(entries.deep_view().take(i + 1).drop_last() =~= pre);
            assert(entries.deep_view().take(i + 1).last() == entries.deep_view()[i as int]);
            assert(out.deep_view() =~~= spec_env_pairs(entries.deep_view().take(i + 1)));
        }
        i = i + 1;
    }
    proof {
        assert(entries.deep_view().take(entries.deep_view().len() as int) =~= entries.deep_view());
    }
    out
}

/// The eight characters of the `.service` unit-file extension.
pub open spec fn service_suffix() -> Seq<char> {
    seq!['.', 's', 'e', 'r', 'v', 'i', 'c', 'e']
}

/// A dependency name with a trailing `.service` removed, as the resolver
/// looks names up.
pub open spec fn spec_stripped(s: Seq<char>) -> Seq<char> {
    if s.len() >= 8 && s.subrange(s.len() - 8, s.len() as int) == service_suffix() {
        s.take(s.len() - 8)
    } else {
        s
    }
}

/// Removes a trailing `.service` from a dependency name, if present.
pub fn strip_service_suffix(s: &String) -> (r: String)
    ensures
        r@ == spec_stripped(s@),
{
    let n: usize = s.as_str().unicode_len();
    if n >= 8 {
        let tail_matches = s.as_str().get_char(n - 8) == '.' && s.as_str().get_char(n - 7) == 's'
            && s.as_str().get_char(n - 6) == 'e' && s.as_str().get_char(n - 5) == 'r'
            && s.as_str().get_char(n - 4) == 'v' && s.as_str().get_char(n - 3) == 'i'
            && s.as_str().get_char(n - 2) == 'c' && s.as_str().get_char(n - 1) == 'e';
        proof {
            assert(s@.subrange(n - 8, n as int).len() == 8);
            if tail_matches {
                assert(s@.subrange(n - 8, n as int) =~= service_suffix());
            } else {
                assert(s@.subrange(n - 8, n as int) != service_suffix());
            }
        }
        if tail_matches {
            let r = s.as_str().substring_char(0, n - 8).to_owned();
            proof {
                assert(s@.subrange(0, n - 8) =~= s@.take(n - 8));
            }
            r
        } else {
            s.clone()
        }
    } else {
        s.clone()
    }
}

/// Whether `x` occurs in `v`, compared by contents.
pub fn vec_contains_string(v: &Vec<String>, x: &String) -> (r: bool)
    ensures
        r == v.deep_view().contains(x@),
{
    let mut i: usize = 0;
    while i < v.len()
        invariant
            i <= v.len(),
            forall|j: int| 0 <= j < i ==> v.deep_view()[j] != x@,
        decreases v.len() - i,
    {
        if v[i].eq(x) {
            proof {
                assert(v.deep_view()[i as int] == x@);
            }
            return true;
        }
        proof {
            assert(v.deep_view()[i as int] != x@);
        }
        i = i + 1;
    }
    proof {
        assert(forall|j: int| 0 <= j < v.deep_view().len() ==> v.deep_view()[j] != x@);
    }
    false
}

} // verus!
