//! The wire codec for the line-framed local-socket protocol.  A record is a
//! space-separated sequence of tokens; string payloads are escaped so that a
//! token never holds a blank or a newline, which keeps framing intact for
//! every payload.  Encoding and decoding are proved inverse.

use vstd::prelude::*;
use vstd::string::*;
use crate::ipc::{ReqView, RespView, Request, Response, pairs_view};
use crate::service::ServiceState;

verus! {

broadcast use vstd::string::group_string_axioms;

/// A character that may stand for itself inside a token.
pub open spec fn plain_char(c: char) -> bool {
    c != '\\' && c != ' ' && c != '\n'
}

/// The escape of one character.
pub open spec fn esc_char(c: char) -> Seq<char> {
    if c == '\\' {
        seq!['\\', '\\']
    } else if c == '\n' {
        seq!['\\', 'n']
    } else if c == ' ' {
        seq!['\\', 's']
    } else {
        seq![c]
    }
}

/// The escaped form of a payload string.
pub open spec fn spec_esc(s: Seq<char>) -> Seq<char>
    decreases s.len(),
{
    if s.len() == 0 {
        Seq::empty()
    } else {
        esc_char(s[0]) + spec_esc(s.drop_first())
    }
}

/// Escaping distributes over concatenation.
proof fn lemma_esc_concat(a: Seq<char>, b: Seq<char>)
    ensures
        spec_esc(a + b) == spec_esc(a) + spec_esc(b),
    decreases a.len(),
{
    if a.len() == 0 {
        assert(a + b =~= b);
        assert(spec_esc(a) + spec_esc(b) =~= spec_esc(b));
    } else {
        assert((a + b).drop_first() =~= a.drop_first() + b);
        lemma_esc_concat(a.drop_first(), b);
        assert(spec_esc(a + b) =~= spec_esc(a) + spec_esc(b));
    }
}

/// Escaped text never holds a blank or a newline.
proof fn lemma_esc_no_specials(s: Seq<char>)
    ensures
        forall|i: int| 0 <= i < spec_esc(s).len() ==> #[trigger] spec_esc(s)[i] != ' '
            && spec_esc(s)[i] != '\n',
    decreases s.len(),
{
    if s.len() > 0 {
        lemma_esc_no_specials(s.drop_first());
        let e0 = esc_char(s[0]);
        assert forall|i: int| 0 <= i < spec_esc(s).len() implies #[trigger] spec_esc(s)[i] != ' '
            && spec_esc(s)[i] != '\n' by {
            if i < e0.len() {
                assert(spec_esc(s)[i] == e0[i]);
            } else {
                assert(spec_esc(s)[i] == spec_esc(s.drop_first())[i - e0.len()]);
            }
        };
    }
}

/// The escape of a single character, spelled out.
proof fn lemma_esc_single(c: char)
    ensures
        spec_esc(seq![c]) == esc_char(c),
{
    assert(seq![c].drop_first() =~= Seq::<char>::empty());
    assert(esc_char(c) + spec_esc(Seq::<char>::empty()) =~= esc_char(c));
}

/// Prepends `a` inside an optional decode result.
pub open spec fn opt_prepend(a: Seq<char>, o: Option<Seq<char>>) -> Option<Seq<char>> {
    match o {
        Some(t) => Some(a + t),
        None => None,
    }
}

/// Decodes one escaped token back to its payload; `None` on malformed
/// input (a dangling or unknown escape, a raw blank or newline).
pub open spec fn spec_unesc(s: Seq<char>) -> Option<Seq<char>>
    decreases s.len(),
{
    if s.len() == 0 {
        Some(Seq::empty())
    } else if s[0] == '\\' {
        if s.len() < 2 {
            None
        } else if s[1] == '\\' {
            opt_prepend(seq!['\\'], spec_unesc(s.skip(2)))
        } else if s[1] == 'n' {
            opt_prepend(seq!['\n'], spec_unesc(s.skip(2)))
        } else if s[1] == 's' {
            opt_prepend(seq![' '], spec_unesc(s.skip(2)))
        } else {
            None
        }
    } else if s[0] == ' ' || s[0] == '\n' {
        None
    } else {
        opt_prepend(seq![s[0]], spec_unesc(s.drop_first()))
    }
}

/// Escape then unescape is the identity; moreover any following text is
/// decoded independently.
proof fn lemma_esc_unesc_prefix(s: Seq<char>, rest: Seq<char>)
    ensures
        spec_unesc(spec_esc(s) + rest) == opt_prepend(s, spec_unesc(rest)),
    decreases s.len(),
{
    if s.len() == 0 {
        assert(spec_esc(s) + rest =~= rest);
        match spec_unesc(rest) {
            Some(u) => {
                assert(s + u =~= u);
            },
            None => {},
        }
    } else {
        let c = s[0];
        let e = spec_esc(s) + rest;
        lemma_esc_unesc_prefix(s.drop_first(), rest);
        if c == '\\' || c == '\n' || c == ' ' {
            assert(e[0] == '\\');
            assert(e.skip(2) =~= spec_esc(s.drop_first()) + rest);
            match spec_unesc(rest) {
                Some(u) => {
                    assert(seq![c] + (s.drop_first() + u) =~= s + u);
                },
                None => {},
            }
        } else {
            assert(e[0] == c);
            assert(e.drop_first() =~= spec_esc(s.drop_first()) + rest);
            match spec_unesc(rest) {
                Some(u) => {
                    assert(seq![c] + (s.drop_first() + u) =~= s + u);
                },
                None => {},
            }
        }
    }
}

/// Escape then unescape is the identity.
pub proof fn lemma_esc_round_trip(s: Seq<char>)
    ensures
        spec_unesc(spec_esc(s)) == Some(s),
{
    lemma_esc_unesc_prefix(s, Seq::empty());
    assert(spec_esc(s) + Seq::<char>::empty() =~= spec_esc(s));
    assert(s + Seq::<char>::empty() =~= s);
}

/// Escapes a payload string into one wire token.
pub fn escape_token(s: &str) -> (r: String)
    ensures
        r@ == spec_esc(s@),
{
    let n: usize = s.unicode_len();
    let mut out = String::new();
    let mut i: usize = 0;
    proof {
        assert(s@.take(0) =~= Seq::<char>::empty());
    }
    while i < n
        invariant
            i <= n,
            n == s@.len(),
            out@ == spec_esc(s@.take(i as int)),
        decreases n - i,
    {
        let c = s.get_char(i);
        proof {
            lemma_esc_concat(s@.take(i as int), seq![s@[i as int]]);
            assert(s@.take(i + 1) =~= s@.take(i as int) + seq![s@[i as int]]);
        }
        proof {
            lemma_esc_single(s@[i as int]);
        }
        if c == '\\' {
            out.append("\\\\");
            proof {
                reveal_strlit("\\\\");
                assert(esc_char(s@[i as int]) =~= "\\\\"@);
            }
        } else if c == '\n' {
            out.append("\\n");
            proof {
                reveal_strlit("\\n");
                assert(esc_char(s@[i as int]) =~= "\\n"@);
            }
        } else if c == ' ' {
            out.append("\\s");
            proof {
                reveal_strlit("\\s");
                assert(esc_char(s@[i as int]) =~= "\\s"@);
            }
        } else {
            let piece = s.substring_char(i, i + 1).to_owned();
            proof {
                assert(piece@ =~= seq![s@[i as int]]);
                assert(esc_char(s@[i as int]) =~= seq![s@[i as int]]);
            }
            out.append(piece.as_str());
        }
        i = i + 1;
    }
    proof {
        assert(s@.take(n as int) =~= s@);
    }
    out
}

/// Decodes one wire token back to its payload string.
pub fn unescape_token(s: &str) -> (r: Option<String>)
    ensures
        match r {
            Some(t) => spec_unesc(s@) == Some(t@),
            None => spec_unesc(s@) is None,
        },
{
    let n: usize = s.unicode_len();
    let mut out = String::new();
    let mut i: usize = 0;
    proof {
        assert(s@.skip(0) =~= s@);
    }
    while i < n
        invariant
            i <= n,
            n == s@.len(),
            spec_unesc(s@) == opt_prepend(out@, spec_unesc(s@.skip(i as int))),
        decreases n - i,
    {
        let c = s.get_char(i);
        let ghost rest = s@.skip(i as int);
        if c == '\\' {
            if i + 1 >= n {
                proof {
                    assert(rest.len() == 1 && rest[0] == '\\');
                    assert(spec_unesc(rest) is None);
                }
                return None;
            }
            let d = s.get_char(i + 1);
            proof {
                assert(rest[0] == '\\' && rest[1] == s@[i + 1]);
                assert(rest.skip(2) =~= s@.skip(i + 2));
            }
            if d == '\\' {
                out.append("\\");
                proof {
                    reveal_strlit("\\");
                    assert("\\"@ =~= seq!['\\']);
                    lemma_opt_prepend_assoc(out@, seq!['\\'], spec_unesc(s@.skip(i + 2)));
                }
            } else if d == 'n' {
                out.append("\n");
                proof {
                    reveal_strlit("\n");
                    assert("\n"@ =~= seq!['\n']);
                    lemma_opt_prepend_assoc(out@, seq!['\n'], spec_unesc(s@.skip(i + 2)));
                }
            } else if d == 's' {
                out.append(" ");
                proof {
                    reveal_strlit(" ");
                    assert(" "@ =~= seq![' ']);
                    lemma_opt_prepend_assoc(out@, seq![' '], spec_unesc(s@.skip(i + 2)));
                }
            } else {
                proof {
                    assert(spec_unesc(rest) is None);
                }
                return None;
            }
            i = i + 2;
        } else if c == ' ' || c == '\n' {
            proof {
                assert(rest[0] == c);
                assert(spec_unesc(rest) is None);
            }
            return None;
        } else {
            let piece = s.substring_char(i, i + 1).to_owned();
            proof {
                assert(piece@ =~= seq![s@[i as int]]);
                assert(rest[0] == s@[i as int]);
                assert(rest.drop_first() =~= s@.skip(i + 1));
                lemma_opt_prepend_assoc(out@, seq![s@[i as int]], spec_unesc(s@.skip(i + 1)));
            }
            out.append(piece.as_str());
            i = i + 1;
        }
    }
    proof {
        assert(s@.skip(n as int) =~= Seq::<char>::empty());
        assert(out@ + Seq::<char>::empty() =~= out@);
    }
    Some(out)
}

/// Nesting of prepends flattens by concatenation.
proof fn lemma_opt_prepend_assoc(a: Seq<char>, b: Seq<char>, o: Option<Seq<char>>)
    ensures
        opt_prepend(a, opt_prepend(b, o)) == opt_prepend(a + b, o),
{
    match o {
        Some(t) => {
            assert(a + (b + t) =~= (a + b) + t);
        },
        None => {},
    }
}

/// Number of characters before the first blank (the whole length if none).
pub open spec fn first_space_len(s: Seq<char>) -> nat
    decreases s.len(),
{
    if s.len() == 0 || s[0] == ' ' {
        0
    } else {
        1 + first_space_len(s.drop_first())
    }
}

proof fn lemma_first_space_len_bound(s: Seq<char>)
    ensures
        first_space_len(s) <= s.len(),
    decreases s.len(),
{
    if s.len() > 0 && s[0] != ' ' {
        lemma_first_space_len_bound(s.drop_first());
    }
}

proof fn lemma_first_space_len_at(s: Seq<char>, i: int)
    requires
        0 <= i <= s.len(),
        forall|j: int| 0 <= j < i ==> #[trigger] s[j] != ' ',
        i == s.len() || s[i] == ' ',
    ensures
        first_space_len(s) == i,
    decreases i,
{
    if i > 0 {
        lemma_first_space_len_at(s.drop_first(), i - 1);
    }
}

/// The record split into tokens at single blanks; `n` blanks yield `n + 1`
/// tokens, so the result is never empty.
pub open spec fn spec_split_sp(s: Seq<char>) -> Seq<Seq<char>>
    decreases s.len(),
    via spec_split_sp_decreases
{
    if first_space_len(s) == s.len() {
        seq![s]
    } else {
        seq![s.take(first_space_len(s) as int)] + spec_split_sp(
            s.skip(first_space_len(s) as int + 1),
        )
    }
}

#[via_fn]
proof fn spec_split_sp_decreases(s: Seq<char>) {
    lemma_first_space_len_bound(s);
}

/// A token without blanks splits to itself alone.
proof fn lemma_split_single(a: Seq<char>)
    requires
        forall|i: int| 0 <= i < a.len() ==> #[trigger] a[i] != ' ',
    ensures
        spec_split_sp(a) == seq![a],
{
    lemma_first_space_len_at(a, a.len() as int);
}

/// Splitting peels a leading blank-free token at its following blank.
proof fn lemma_split_concat(a: Seq<char>, rest: Seq<char>)
    requires
        forall|i: int| 0 <= i < a.len() ==> #[trigger] a[i] != ' ',
    ensures
        spec_split_sp(a + seq![' '] + rest) == seq![a] + spec_split_sp(rest),
{
    let s = a + seq![' '] + rest;
    assert(s[a.len() as int] == ' ');
    lemma_first_space_len_at(s, a.len() as int);
    assert(s.take(a.len() as int) =~= a);
    assert(s.skip(a.len() as int + 1) =~= rest);
    assert(spec_split_sp(s) =~= seq![a] + spec_split_sp(rest));
}

/// Splits a record into its tokens.
pub fn split_record(s: &str) -> (r: Vec<String>)
    ensures
        r.deep_view() == spec_split_sp(s@),
{
    let n: usize = s.unicode_len();
    let mut out: Vec<String> = Vec::new();
    let mut i: usize = 0;
    proof {
        assert(s@.skip(0) =~= s@);
        assert(out.deep_view() + spec_split_sp(s@) =~~= spec_split_sp(s@));
    }
    loop
        invariant_except_break
            i <= n,
            n == s@.len(),
            out.deep_view() + spec_split_sp(s@.skip(i as int)) == spec_split_sp(s@),
        ensures
            out.deep_view() == spec_split_sp(s@),
        decreases n - i,
    {
        let start: usize = i;
        loop
            invariant_except_break
                start <= i <= n,
                n == s@.len(),
                forall|j: int| start <= j < i ==> #[trigger] s@[j] != ' ',
            ensures
                start <= i <= n,
                n == s@.len(),
                forall|j: int| start <= j < i ==> #[trigger] s@[j] != ' ',
                i == n || s@[i as int] == ' ',
            decreases n - i,
        {
            if i == n {
                break;
            }
            if s.get_char(i) == ' ' {
                break;
            }
            i = i + 1;
        }
        let token = s.substring_char(start, i).to_owned();
        let ghost pre = out.deep_view();
        out.push(token);
        proof {
            let rest = s@.skip(start as int);
            lemma_first_space_len_at(rest, i - start);
            assert(rest.take(i - start) =~= s@.subrange(start as int, i as int));
            assert(out.deep_view() =~= pre.push(s@.subrange(start as int, i as int)));
            if i < n {
                assert(rest.skip(i - start + 1) =~= s@.skip(i + 1));
                assert(spec_split_sp(rest) == seq![rest.take(i - start)] + spec_split_sp(
                    s@.skip(i + 1),
                ));
                assert(out.deep_view() + spec_split_sp(s@.skip(i + 1)) =~~= pre + spec_split_sp(
                    s@.skip(start as int),
                ));
            } else {
                assert(first_space_len(rest) == rest.len());
                assert(spec_split_sp(rest) == seq![rest]);
                assert(rest.take(i - start) =~= rest);
                assert(out.deep_view() =~~= pre + spec_split_sp(s@.skip(start as int)));
            }
        }
        if i == n {
            break;
        }
        i = i + 1;
    }
    out
}

/// The wire form of a request.
pub open spec fn spec_encode_request(v: ReqView) -> Seq<char> {
    match v {
        ReqView::Start(t) => "start "@ + spec_esc(t),
        ReqView::Stop(t) => "stop "@ + spec_esc(t),
        ReqView::Restart(t) => "restart "@ + spec_esc(t),
        ReqView::Status(t) => "status "@ + spec_esc(t),
        ReqView::List => "list"@,
        ReqView::Ping => "ping"@,
        ReqView::Shutdown => "shutdown"@,
    }
}

/// The request a record decodes to, if any.
pub open spec fn spec_decode_request(s: Seq<char>) -> Option<ReqView> {
    let toks = spec_split_sp(s);
    if toks.len() == 1 {
        if toks[0] == "list"@ {
            Some(ReqView::List)
        } else if toks[0] == "ping"@ {
            Some(ReqView::Ping)
        } else if toks[0] == "shutdown"@ {
            Some(ReqView::Shutdown)
        } else {
            None
        }
    } else if toks.len() == 2 {
        match spec_unesc(toks[1]) {
            Some(t) => {
                if toks[0] == "start"@ {
                    Some(ReqView::Start(t))
                } else if toks[0] == "stop"@ {
                    Some(ReqView::Stop(t))
                } else if toks[0] == "restart"@ {
                    Some(ReqView::Restart(t))
                } else if toks[0] == "status"@ {
                    Some(ReqView::Status(t))
                } else {
                    None
                }
            },
            None => None,
        }
    } else {
        None
    }
}

/// The state a token names, if any.
pub open spec fn spec_state_of_word(w: Seq<char>) -> Option<ServiceState> {
    if w == "Stopped"@ {
        Some(ServiceState::Stopped)
    } else if w == "Starting"@ {
        Some(ServiceState::Starting)
    } else if w == "Running"@ {
        Some(ServiceState::Running)
    } else if w == "Stopping"@ {
        Some(ServiceState::Stopping)
    } else if w == "Failed"@ {
        Some(ServiceState::Failed)
    } else {
        None
    }
}

/// The wire form of the name/state pairs of a `List` response.
pub open spec fn spec_encode_pairs(ps: Seq<(Seq<char>, ServiceState)>) -> Seq<char>
    decreases ps.len(),
{
    if ps.len() == 0 {
        Seq::empty()
    } else {
        seq![' '] + ps[0].1.spec_word() + seq![' '] + spec_esc(ps[0].0) + spec_encode_pairs(
            ps.drop_first(),
        )
    }
}

/// The wire form of a response.
pub open spec fn spec_encode_response(v: RespView) -> Seq<char> {
    match v {
        RespView::OkMsg(m) => "ok "@ + spec_esc(m),
        RespView::ErrMsg(m) => "error "@ + spec_esc(m),
        RespView::Status(t, st) => "status "@ + st.spec_word() + seq![' '] + spec_esc(t),
        RespView::List(ps) => "list"@ + spec_encode_pairs(ps),
        RespView::Pong => "pong"@,
    }
}

/// Parses alternating state-word/name tokens back into pairs.
pub open spec fn spec_parse_pairs(toks: Seq<Seq<char>>) -> Option<
    Seq<(Seq<char>, ServiceState)>,
>
    decreases toks.len(),
{
    if toks.len() == 0 {
        Some(Seq::empty())
    } else if toks.len() == 1 {
        None
    } else {
        match spec_state_of_word(toks[0]) {
            Some(st) => match spec_unesc(toks[1]) {
                Some(name) => match spec_parse_pairs(toks.skip(2)) {
                    Some(rest) => Some(seq![(name, st)] + rest),
                    None => None,
                },
                None => None,
            },
            None => None,
        }
    }
}

/// The response a record decodes to, if any.
pub open spec fn spec_decode_response(s: Seq<char>) -> Option<RespView> {
    let toks = spec_split_sp(s);
    if toks[0] == "ok"@ {
        if toks.len() == 2 {
            match spec_unesc(toks[1]) {
                Some(m) => Some(RespView::OkMsg(m)),
                None => None,
            }
        } else {
            None
        }
    } else if toks[0] == "error"@ {
        if toks.len() == 2 {
            match spec_unesc(toks[1]) {
                Some(m) => Some(RespView::ErrMsg(m)),
                None => None,
            }
        } else {
            None
        }
    } else if toks[0] == "status"@ {
        if toks.len() == 3 {
            match spec_state_of_word(toks[1]) {
                Some(st) => match spec_unesc(toks[2]) {
                    Some(t) => Some(RespView::Status(t, st)),
                    None => None,
                },
                None => None,
            }
        } else {
            None
        }
    } else if toks[0] == "pong"@ {
        if toks.len() == 1 {
            Some(RespView::Pong)
        } else {
            None
        }
    } else if toks[0] == "list"@ {
        match spec_parse_pairs(toks.drop_first()) {
            Some(ps) => Some(RespView::List(ps)),
            None => None,
        }
    } else {
        None
    }
}

/// State words are blank and newline free and name their state back.
proof fn lemma_state_word_round(st: ServiceState)
    ensures
        forall|i: int| 0 <= i < st.spec_word().len() ==> #[trigger] st.spec_word()[i] != ' '
            && st.spec_word()[i] != '\n',
        spec_state_of_word(st.spec_word()) == Some(st),
{
    reveal_strlit("Stopped");
    reveal_strlit("Starting");
    reveal_strlit("Running");
    reveal_strlit("Stopping");
    reveal_strlit("Failed");
    assert("Stopped"@.len() == 7);
    assert("Starting"@.len() == 8);
    assert("Running"@.len() == 7);
    assert("Stopping"@.len() == 8);
    assert("Failed"@.len() == 6);
    assert("Stopped"@[0] == 'S' && "Running"@[0] == 'R');
    assert("Starting"@[2] == 'a' && "Stopping"@[2] == 'o');
    match st {
        ServiceState::Stopped => {
            assert(spec_state_of_word("Stopped"@) == Some(ServiceState::Stopped));
        },
        ServiceState::Starting => {
            assert(spec_state_of_word("Starting"@) == Some(ServiceState::Starting));
        },
        ServiceState::Running => {
            assert(spec_state_of_word("Running"@) == Some(ServiceState::Running));
        },
        ServiceState::Stopping => {
            assert(spec_state_of_word("Stopping"@) == Some(ServiceState::Stopping));
        },
        ServiceState::Failed => {
            assert(spec_state_of_word("Failed"@) == Some(ServiceState::Failed));
        },
    }
}

/// The token lists of encoded pairs: a state word then an escaped name,
/// pair by pair.
pub open spec fn pair_tokens(ps: Seq<(Seq<char>, ServiceState)>) -> Seq<Seq<char>>
    decreases ps.len(),
{
    if ps.len() == 0 {
        Seq::empty()
    } else {
        seq![ps[0].1.spec_word(), spec_esc(ps[0].0)] + pair_tokens(ps.drop_first())
    }
}

/// Splitting a blank-free token followed by encoded pairs yields the token
/// and then the pair tokens.
proof fn lemma_split_pairs(a: Seq<char>, ps: Seq<(Seq<char>, ServiceState)>)
    requires
        forall|i: int| 0 <= i < a.len() ==> #[trigger] a[i] != ' ',
    ensures
        spec_split_sp(a + spec_encode_pairs(ps)) == seq![a] + pair_tokens(ps),
    decreases ps.len(),
{
    if ps.len() == 0 {
        assert(a + spec_encode_pairs(ps) =~= a);
        lemma_split_single(a);
        assert(seq![a] + pair_tokens(ps) =~= seq![a]);
    } else {
        let w = ps[0].1.spec_word();
        let e = spec_esc(ps[0].0);
        let tail = spec_encode_pairs(ps.drop_first());
        lemma_state_word_round(ps[0].1);
        lemma_esc_no_specials(ps[0].0);
        assert(a + spec_encode_pairs(ps) =~= a + seq![' '] + (w + seq![' '] + (e + tail)));
        lemma_split_concat(a, w + seq![' '] + (e + tail));
        assert(w + seq![' '] + (e + tail) =~= w + seq![' '] + (e + tail));
        lemma_split_concat(w, e + tail);
        lemma_split_pairs(e, ps.drop_first());
        assert(spec_split_sp(a + spec_encode_pairs(ps)) =~= seq![a] + pair_tokens(ps));
    }
}

/// Parsing the tokens of encoded pairs restores the pairs.
proof fn lemma_parse_pair_tokens(ps: Seq<(Seq<char>, ServiceState)>)
    ensures
        spec_parse_pairs(pair_tokens(ps)) == Some(ps),
    decreases ps.len(),
{
    if ps.len() == 0 {
        assert(pair_tokens(ps).len() == 0);
    } else {
        let toks = pair_tokens(ps);
        assert(toks.len() >= 2);
        assert(toks[0] == ps[0].1.spec_word());
        assert(toks[1] == spec_esc(ps[0].0));
        lemma_state_word_round(ps[0].1);
        lemma_esc_round_trip(ps[0].0);
        assert(toks.skip(2) =~= pair_tokens(ps.drop_first()));
        lemma_parse_pair_tokens(ps.drop_first());
        assert(seq![(ps[0].0, ps[0].1)] + ps.drop_first() =~= ps);
    }
}

/// Decoding an encoded request restores it: the codec loses nothing.
pub proof fn lemma_request_round_trip(v: ReqView)
    ensures
        spec_decode_request(spec_encode_request(v)) == Some(v),
{
    reveal_strlit("start ");
    reveal_strlit("stop ");
    reveal_strlit("restart ");
    reveal_strlit("status ");
    reveal_strlit("start");
    reveal_strlit("stop");
    reveal_strlit("restart");
    reveal_strlit("status");
    reveal_strlit("list");
    reveal_strlit("ping");
    reveal_strlit("shutdown");
    match v {
        ReqView::Start(t) => {
            lemma_esc_no_specials(t);
            assert("start "@ + spec_esc(t) =~= "start"@ + seq![' '] + spec_esc(t));
            lemma_split_concat("start"@, spec_esc(t));
            lemma_split_single(spec_esc(t));
            lemma_esc_round_trip(t);
        },
        ReqView::Stop(t) => {
            lemma_esc_no_specials(t);
            assert("stop "@ + spec_esc(t) =~= "stop"@ + seq![' '] + spec_esc(t));
            lemma_split_concat("stop"@, spec_esc(t));
            lemma_split_single(spec_esc(t));
            lemma_esc_round_trip(t);
        },
        ReqView::Restart(t) => {
            lemma_esc_no_specials(t);
            assert("restart "@ + spec_esc(t) =~= "restart"@ + seq![' '] + spec_esc(t));
            lemma_split_concat("restart"@, spec_esc(t));
            lemma_split_single(spec_esc(t));
            lemma_esc_round_trip(t);
        },
        ReqView::Status(t) => {
            lemma_esc_no_specials(t);
            assert("status "@ + spec_esc(t) =~= "status"@ + seq![' '] + spec_esc(t));
            lemma_split_concat("status"@, spec_esc(t));
            lemma_split_single(spec_esc(t));
            lemma_esc_round_trip(t);
        },
        ReqView::List => {
            lemma_split_single("list"@);
        },
        ReqView::Ping => {
            lemma_split_single("ping"@);
        },
        ReqView::Shutdown => {
            lemma_split_single("shutdown"@);
        },
    }
}

/// Decoding an encoded response restores it: the codec loses nothing.
pub proof fn lemma_response_round_trip(v: RespView)
    ensures
        spec_decode_response(spec_encode_response(v)) == Some(v),
{
    reveal_strlit("ok ");
    reveal_strlit("error ");
    reveal_strlit("status ");
    reveal_strlit("ok");
    reveal_strlit("error");
    reveal_strlit("status");
    reveal_strlit("pong");
    reveal_strlit("list");
    match v {
        RespView::OkMsg(m) => {
            lemma_esc_no_specials(m);
            assert("ok "@ + spec_esc(m) =~= "ok"@ + seq![' '] + spec_esc(m));
            lemma_split_concat("ok"@, spec_esc(m));
            lemma_split_single(spec_esc(m));
            lemma_esc_round_trip(m);
        },
        RespView::ErrMsg(m) => {
            lemma_esc_no_specials(m);
            assert("error "@ + spec_esc(m) =~= "error"@ + seq![' '] + spec_esc(m));
            lemma_split_concat("error"@, spec_esc(m));
            lemma_split_single(spec_esc(m));
            lemma_esc_round_trip(m);
        },
        RespView::Status(t, st) => {
            lemma_esc_no_specials(t);
            lemma_state_word_round(st);
            assert("status "@ + st.spec_word() + seq![' '] + spec_esc(t) =~= "status"@ + seq![' ']
                + (st.spec_word() + seq![' '] + spec_esc(t)));
            lemma_split_concat("status"@, st.spec_word() + seq![' '] + spec_esc(t));
            lemma_split_concat(st.spec_word(), spec_esc(t));
            lemma_split_single(spec_esc(t));
            lemma_esc_round_trip(t);
        },
        RespView::List(ps) => {
            lemma_split_pairs("list"@, ps);
            let toks = spec_split_sp("list"@ + spec_encode_pairs(ps));
            assert(toks.drop_first() =~= pair_tokens(ps));
            lemma_parse_pair_tokens(ps);
        },
        RespView::Pong => {
            lemma_split_single("pong"@);
        },
    }
}

/// Encoded pairs hold no newline.
proof fn lemma_pairs_line_safe(ps: Seq<(Seq<char>, ServiceState)>)
    ensures
        forall|i: int| 0 <= i < spec_encode_pairs(ps).len() ==> #[trigger] spec_encode_pairs(
            ps,
        )[i] != '\n',
    decreases ps.len(),
{
    if ps.len() > 0 {
        lemma_state_word_round(ps[0].1);
        lemma_esc_no_specials(ps[0].0);
        lemma_pairs_line_safe(ps.drop_first());
        let w = ps[0].1.spec_word();
        let e = spec_esc(ps[0].0);
        let rest = spec_encode_pairs(ps.drop_first());
        let head = seq![' '] + w + seq![' '] + e;
        assert forall|i: int| 0 <= i < spec_encode_pairs(ps).len() implies #[trigger] spec_encode_pairs(
            ps,
        )[i] != '\n' by {
            if i < head.len() {
                assert(spec_encode_pairs(ps)[i] == head[i]);
                if i == 0 {
                } else if i < 1 + w.len() {
                    assert(head[i] == w[i - 1]);
                } else if i == 1 + w.len() {
                    assert(head[i] == ' ');
                } else {
                    assert(head[i] == e[i - 2 - w.len()]);
                }
            } else {
                assert(spec_encode_pairs(ps)[i] == rest[i - head.len()]);
            }
        };
    }
}

/// Helper for the framing laws: a record made of a newline-free literal
/// head and an escaped payload holds no newline.
proof fn lemma_head_esc_line_safe(head: Seq<char>, t: Seq<char>)
    requires
        forall|i: int| 0 <= i < head.len() ==> #[trigger] head[i] != '\n',
    ensures
        forall|i: int| 0 <= i < (head + spec_esc(t)).len() ==> #[trigger] (head + spec_esc(t))[i]
            != '\n',
{
    lemma_esc_no_specials(t);
    assert forall|i: int| 0 <= i < (head + spec_esc(t)).len() implies #[trigger] (head + spec_esc(
        t,
    ))[i] != '\n' by {
        if i < head.len() {
            assert((head + spec_esc(t))[i] == head[i]);
        } else {
            assert((head + spec_esc(t))[i] == spec_esc(t)[i - head.len()]);
        }
    };
}

/// An encoded request holds no newline, whatever the payload: line framing
/// never breaks.
pub proof fn lemma_request_line_safe(v: ReqView)
    ensures
        forall|i: int| 0 <= i < spec_encode_request(v).len() ==> #[trigger] spec_encode_request(
            v,
        )[i] != '\n',
{
    reveal_strlit("start ");
    reveal_strlit("stop ");
    reveal_strlit("restart ");
    reveal_strlit("status ");
    reveal_strlit("list");
    reveal_strlit("ping");
    reveal_strlit("shutdown");
    match v {
        ReqView::Start(t) => {
            lemma_head_esc_line_safe("start "@, t);
        },
        ReqView::Stop(t) => {
            lemma_head_esc_line_safe("stop "@, t);
        },
        ReqView::Restart(t) => {
            lemma_head_esc_line_safe("restart "@, t);
        },
        ReqView::Status(t) => {
            lemma_head_esc_line_safe("status "@, t);
        },
        ReqView::List => {},
        ReqView::Ping => {},
        ReqView::Shutdown => {},
    }
}

/// An encoded response holds no newline, whatever the payload: line
/// framing never breaks.
pub proof fn lemma_response_line_safe(v: RespView)
    ensures
        forall|i: int| 0 <= i < spec_encode_response(v).len() ==> #[trigger] spec_encode_response(
            v,
        )[i] != '\n',
{
    reveal_strlit("ok ");
    reveal_strlit("error ");
    reveal_strlit("status ");
    reveal_strlit("list");
    reveal_strlit("pong");
    match v {
        RespView::OkMsg(m) => {
            lemma_head_esc_line_safe("ok "@, m);
        },
        RespView::ErrMsg(m) => {
            lemma_head_esc_line_safe("error "@, m);
        },
        RespView::Status(t, st) => {
            lemma_state_word_round(st);
            lemma_head_esc_line_safe("status "@ + st.spec_word() + seq![' '], t);
        },
        RespView::List(ps) => {
            lemma_pairs_line_safe(ps);
            assert forall|i: int|
                0 <= i < spec_encode_response(v).len() implies #[trigger] spec_encode_response(
                v,
            )[i] != '\n' by {
                if i < "list"@.len() {
                    assert(spec_encode_response(v)[i] == "list"@[i]);
                } else {
                    assert(spec_encode_response(v)[i] == spec_encode_pairs(ps)[i - "list"@.len()]);
                }
            };
        },
        RespView::Pong => {},
    }
}

/// Encodes a request into one line-safe record.
pub fn encode_request(q: &Request) -> (r: String)
    ensures
        r@ == spec_encode_request(q@),
{
    match q {
        Request::Start { service } => {
            let mut s = String::from_str("start ");
            let t = escape_token(service.as_str());
            s.append(t.as_str());
            s
        },
        Request::Stop { service } => {
            let mut s = String::from_str("stop ");
            let t = escape_token(service.as_str());
            s.append(t.as_str());
            s
        },
        Request::Restart { service } => {
            let mut s = String::from_str("restart ");
            let t = escape_token(service.as_str());
            s.append(t.as_str());
            s
        },
        Request::Status { service } => {
            let mut s = String::from_str("status ");
            let t = escape_token(service.as_str());
            s.append(t.as_str());
            s
        },
        Request::List => String::from_str("list"),
        Request::Ping => String::from_str("ping"),
        Request::Shutdown => String::from_str("shutdown"),
    }
}

/// Decodes one record into a request, `None` on a malformed record.
pub fn decode_request(line: &str) -> (r: Option<Request>)
    ensures
        match r {
            Some(q) => spec_decode_request(line@) == Some(q@),
            None => spec_decode_request(line@) is None,
        },
{
    let toks = split_record(line);
    proof {
        assert(toks.deep_view().len() == toks@.len());
    }
    if toks.len() == 1 {
        let t0 = &toks[0];
        proof {
            assert(t0@ == toks.deep_view()[0]);
        }
        if t0.eq(&String::from_str("list")) {
            Some(Request::List)
        } else if t0.eq(&String::from_str("ping")) {
            Some(Request::Ping)
        } else if t0.eq(&String::from_str("shutdown")) {
            Some(Request::Shutdown)
        } else {
            None
        }
    } else if toks.len() == 2 {
        proof {
            assert(toks@[0]@ == toks.deep_view()[0]);
            assert(toks@[1]@ == toks.deep_view()[1]);
        }
        match unescape_token(toks[1].as_str()) {
            Some(service) => {
                let t0 = &toks[0];
                if t0.eq(&String::from_str("start")) {
                    Some(Request::Start { service })
                } else if t0.eq(&String::from_str("stop")) {
                    Some(Request::Stop { service })
                } else if t0.eq(&String::from_str("restart")) {
                    Some(Request::Restart { service })
                } else if t0.eq(&String::from_str("status")) {
                    Some(Request::Status { service })
                } else {
                    None
                }
            },
            None => None,
        }
    } else {
        None
    }
}

/// Renders the state word of one token.
fn state_of_word(w: &String) -> (r: Option<ServiceState>)
    ensures
        r == spec_state_of_word(w@),
{
    if w.eq(&String::from_str("Stopped")) {
        Some(ServiceState::Stopped)
    } else if w.eq(&String::from_str("Starting")) {
        Some(ServiceState::Starting)
    } else if w.eq(&String::from_str("Running")) {
        Some(ServiceState::Running)
    } else if w.eq(&String::from_str("Stopping")) {
        Some(ServiceState::Stopping)
    } else if w.eq(&String::from_str("Failed")) {
        Some(ServiceState::Failed)
    } else {
        None
    }
}

/// Encodes a response into one line-safe record.
pub fn encode_response(resp: &Response) -> (r: String)
    ensures
        r@ == spec_encode_response(resp@),
{
    match resp {
        Response::Okay { message } => {
            let mut s = String::from_str("ok ");
            let t = escape_token(message.as_str());
            s.append(t.as_str());
            s
        },
        Response::Error { message } => {
            let mut s = String::from_str("error ");
            let t = escape_token(message.as_str());
            s.append(t.as_str());
            s
        },
        Response::Status { service, state } => {
            let mut s = String::from_str("status ");
            s.append(state.word().as_str());
            s.append(" ");
            let t = escape_token(service.as_str());
            s.append(t.as_str());
            proof {
                reveal_strlit(" ");
                assert(" "@ =~= seq![' ']);
            }
            s
        },
        Response::List { services } => {
            let mut s = String::from_str("list");
            let ghost pv = pairs_view(services@);
            let mut k: usize = 0;
            proof {
                assert(pv.skip(0) =~= pv);
            }
            while k < services.len()
                invariant
                    k <= services@.len(),
                    pv == pairs_view(services@),
                    s@ + spec_encode_pairs(pv.skip(k as int)) == "list"@ + spec_encode_pairs(pv),
                decreases services@.len() - k,
            {
                s.append(" ");
                let w = services[k].1.word();
                s.append(w.as_str());
                s.append(" ");
                let t = escape_token(services[k].0.as_str());
                s.append(t.as_str());
                proof {
                    reveal_strlit(" ");
                    assert(" "@ =~= seq![' ']);
                    let rest = pv.skip(k as int);
                    assert(rest[0] == (services@[k as int].0@, services@[k as int].1));
                    assert(rest.drop_first() =~= pv.skip(k + 1));
                    assert(s@ + spec_encode_pairs(pv.skip(k + 1)) =~= ("list"@
                        + spec_encode_pairs(pv)));
                }
                k = k + 1;
            }
            proof {
                assert(pv.skip(services@.len() as int) =~= Seq::<
                    (Seq<char>, ServiceState),
                >::empty());
                assert(s@ + Seq::<char>::empty() =~= s@);
            }
            s
        },
        Response::Pong => String::from_str("pong"),
    }
}

/// A record whose first token is `list` decodes by its pair tokens alone:
/// an unparseable tail means no response.
proof fn lemma_decode_response_list_none(s: Seq<char>)
    requires
        spec_split_sp(s)[0] == "list"@,
        spec_parse_pairs(spec_split_sp(s).drop_first()) is None,
    ensures
        spec_decode_response(s) is None,
{
    reveal_strlit("ok");
    reveal_strlit("error");
    reveal_strlit("status");
    reveal_strlit("pong");
    reveal_strlit("list");
    assert("ok"@.len() == 2);
    assert("error"@.len() == 5);
    assert("status"@.len() == 6);
    assert("pong"@.len() == 4);
    assert("list"@.len() == 4);
    assert("list"@[0] == 'l' && "pong"@[0] == 'p');
}

/// A record whose first token is `list` decodes to the list its pair
/// tokens parse to.
proof fn lemma_decode_response_list_some(s: Seq<char>, ps: Seq<(Seq<char>, ServiceState)>)
    requires
        spec_split_sp(s)[0] == "list"@,
        spec_parse_pairs(spec_split_sp(s).drop_first()) == Some(ps),
    ensures
        spec_decode_response(s) == Some(RespView::List(ps)),
{
    reveal_strlit("ok");
    reveal_strlit("error");
    reveal_strlit("status");
    reveal_strlit("pong");
    reveal_strlit("list");
    assert("ok"@.len() == 2);
    assert("error"@.len() == 5);
    assert("status"@.len() == 6);
    assert("pong"@.len() == 4);
    assert("list"@.len() == 4);
    assert("list"@[0] == 'l' && "pong"@[0] == 'p');
}

/// Decodes one record into a response, `None` on a malformed record.
pub fn decode_response(line: &str) -> (r: Option<Response>)
    ensures
        match r {
            Some(resp) => spec_decode_response(line@) == Some(resp@),
            None => spec_decode_response(line@) is None,
        },
{
    let toks = split_record(line);
    proof {
        assert(spec_split_sp(line@).len() > 0);
        assert(toks.deep_view().len() == toks@.len());
        assert(toks@[0]@ == toks.deep_view()[0]);
    }
    let t0 = &toks[0];
    if t0.eq(&String::from_str("ok")) {
        if toks.len() == 2 {
            proof {
                assert(toks@[1]@ == toks.deep_view()[1]);
            }
            match unescape_token(toks[1].as_str()) {
                Some(message) => Some(Response::Okay { message }),
                None => None,
            }
        } else {
            None
        }
    } else if t0.eq(&String::from_str("error")) {
        if toks.len() == 2 {
            proof {
                assert(toks@[1]@ == toks.deep_view()[1]);
            }
            match unescape_token(toks[1].as_str()) {
                Some(message) => Some(Response::Error { message }),
                None => None,
            }
        } else {
            None
        }
    } else if t0.eq(&String::from_str("status")) {
        if toks.len() == 3 {
            proof {
                assert(toks@[1]@ == toks.deep_view()[1]);
                assert(toks@[2]@ == toks.deep_view()[2]);
            }
            match state_of_word(&toks[1]) {
                Some(state) => match unescape_token(toks[2].as_str()) {
                    Some(service) => Some(Response::Status { service, state }),
                    None => None,
                },
                None => None,
            }
        } else {
            None
        }
    } else if t0.eq(&String::from_str("pong")) {
        if toks.len() == 1 {
            Some(Response::Pong)
        } else {
            None
        }
    } else if t0.eq(&String::from_str("list")) {
        let ghost rest_toks = toks.deep_view().drop_first();
        let mut services: Vec<(String, ServiceState)> = Vec::new();
        let mut k: usize = 1;
        proof {
            assert(toks.deep_view().skip(1) =~= rest_toks);
        }
        while k < toks.len()
            invariant
                1 <= k <= toks@.len(),
                rest_toks == toks.deep_view().drop_first(),
                toks.deep_view() == spec_split_sp(line@),
                toks.deep_view()[0] == "list"@,
                toks.deep_view().len() == toks@.len(),
                forall|j: int| 0 <= j < toks@.len() ==> toks.deep_view()[j] == toks@[j]@,
                match spec_parse_pairs(toks.deep_view().skip(k as int)) {
                    Some(t) => spec_parse_pairs(rest_toks) == Some(pairs_view(services@) + t),
                    None => spec_parse_pairs(rest_toks) is None,
                },
            decreases toks@.len() - k,
        {
            if k + 1 == toks.len() {
                proof {
                    assert(toks.deep_view().skip(k as int).len() == 1);
                    assert(spec_parse_pairs(toks.deep_view().skip(k as int)) is None);
                    lemma_decode_response_list_none(line@);
                }
                return None;
            }
            let ghost remain = toks.deep_view().skip(k as int);
            proof {
                assert(remain.len() >= 2);
                assert(remain[0] == toks@[k as int]@);
                assert(remain[1] == toks@[k + 1]@);
                assert(remain.skip(2) =~= toks.deep_view().skip(k + 2));
            }
            match state_of_word(&toks[k]) {
                Some(st) => {
                    match unescape_token(toks[k + 1].as_str()) {
                        Some(name) => {
                            let ghost pv_pre = pairs_view(services@);
                            let ghost nm = name@;
                            services.push((name, st));
                            proof {
                                assert(pairs_view(services@) =~= pv_pre.push((nm, st)));
                                match spec_parse_pairs(toks.deep_view().skip(k + 2)) {
                                    Some(rest) => {
                                        assert(spec_parse_pairs(remain) == Some(
                                            seq![(nm, st)] + rest,
                                        ));
                                        assert(pv_pre + (seq![(nm, st)] + rest) =~= pairs_view(
                                            services@,
                                        ) + rest);
                                    },
                                    None => {
                                        assert(spec_parse_pairs(remain) is None);
                                    },
                                }
                            }
                            k = k + 2;
                        },
                        None => {
                            proof {
                                assert(spec_parse_pairs(remain) is None);
                                lemma_decode_response_list_none(line@);
                            }
                            return None;
                        },
                    }
                },
                None => {
                    proof {
                        assert(spec_parse_pairs(remain) is None);
                        lemma_decode_response_list_none(line@);
                    }
                    return None;
                },
            }
        }
        proof {
            assert(toks.deep_view().skip(toks@.len() as int) =~= Seq::<Seq<char>>::empty());
            assert(pairs_view(services@) + Seq::<(Seq<char>, ServiceState)>::empty() =~= pairs_view(
                services@,
            ));
            lemma_decode_response_list_some(line@, pairs_view(services@));
        }
        Some(Response::List { services })
    } else {
        None
    }
}


} // verus!
