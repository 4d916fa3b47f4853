//! Splitting a Windows command line into tokens and joining tokens back.
//!
//! A double quote switches quoting on and off and is dropped; outside quotes,
//! whitespace separates tokens.

use vstd::prelude::*;
use crate::text::{lemma_trim_of_trimmed, is_ws, is_whitespace, trim, trim_chars, trim_end, trim_start, chars_of, string_of};

verus! {

/// The tokenizer's state: finished tokens, the token being read, and whether
/// a quote is open.
pub type ScanState = (Seq<Seq<char>>, Seq<char>, bool);

pub open spec fn scan_step(st: ScanState, c: char) -> ScanState {
    if c == '"' {
        (st.0, st.1, !st.2)
    } else if is_ws(c) && !st.2 {
        if st.1.len() > 0 {
            (st.0.push(st.1), Seq::empty(), st.2)
        } else {
            st
        }
    } else {
        (st.0, st.1.push(c), st.2)
    }
}

/// The state after reading `s` from `st`, one character at a time.
pub open spec fn scan_from(st: ScanState, s: Seq<char>) -> ScanState
    decreases s.len(),
{
    if s.len() == 0 {
        st
    } else {
        scan_step(scan_from(st, s.drop_last()), s.last())
    }
}

pub open spec fn scan_start() -> ScanState {
    (Seq::empty(), Seq::empty(), false)
}

pub open spec fn scan_finish(st: ScanState) -> Seq<Seq<char>> {
    if st.1.len() > 0 {
        st.0.push(st.1)
    } else {
        st.0
    }
}

/// The tokens of a command line.
pub open spec fn command_tokens(s: Seq<char>) -> Seq<Seq<char>> {
    scan_finish(scan_from(scan_start(), trim(s)))
}

pub open spec fn needs_quotes(t: Seq<char>) -> bool {
    exists|i: int| 0 <= i < t.len() && (is_ws(#[trigger] t[i]) || t[i] == '"')
}

/// Each double quote preceded by a backslash.
pub open spec fn escape_quotes(t: Seq<char>) -> Seq<char>
    decreases t.len(),
{
    if t.len() == 0 {
        Seq::empty()
    } else {
        escape_quotes(t.drop_last()) + if t.last() == '"' {
            seq!['\\', '"']
        } else {
            seq![t.last()]
        }
    }
}

/// A token as it is written into a command line.
pub open spec fn quote_token(t: Seq<char>) -> Seq<char> {
    if needs_quotes(t) {
        seq!['"'] + escape_quotes(t) + seq!['"']
    } else {
        t
    }
}

/// The pieces separated by single spaces.
pub open spec fn join_spaced(ts: Seq<Seq<char>>) -> Seq<char>
    decreases ts.len(),
{
    if ts.len() == 0 {
        Seq::empty()
    } else if ts.len() == 1 {
        ts[0]
    } else {
        join_spaced(ts.drop_last()) + seq![' '] + ts.last()
    }
}

/// The command line written from tokens.
pub open spec fn joined_command(ts: Seq<Seq<char>>) -> Seq<char> {
    join_spaced(ts.map_values(|t: Seq<char>| quote_token(t)))
}

/// The character sequences held by a list of character vectors.
pub open spec fn char_seqs(v: Seq<Vec<char>>) -> Seq<Seq<char>> {
    v.map_values(|x: Vec<char>| x@)
}

/// The character sequences held by a list of strings.
pub open spec fn string_seqs(v: Seq<String>) -> Seq<Seq<char>> {
    v.map_values(|x: String| x@)
}

/// A token that the tokenizer can give: not empty and without double quotes.
pub open spec fn plain_token(t: Seq<char>) -> bool {
    t.len() > 0 && forall|i: int| 0 <= i < t.len() ==> #[trigger] t[i] != '"'
}

pub fn split_chars(command: &[char]) -> (tokens: Vec<Vec<char>>)
    ensures
        char_seqs(tokens@) == command_tokens(command@),
{
    let trimmed = trim_chars(command);
    let ghost t = trimmed@;
    let mut tokens: Vec<Vec<char>> = Vec::new();
    let mut current: Vec<char> = Vec::new();
    let mut in_quotes = false;
    let mut i: usize = 0;
    while i < trimmed.len()
        invariant
            t == trimmed@,
            i <= t.len(),
            (char_seqs(tokens@), current@, in_quotes) == scan_from(scan_start(), t.take(i as int)),
        decreases t.len() - i,
    {
        let ch = trimmed[i];
        assert(t.take(i + 1).drop_last() =~= t.take(i as int));
        assert(t.take(i + 1).last() == ch);
        if ch == '"' {
            in_quotes = !in_quotes;
        } else if is_whitespace(ch) && !in_quotes {
            if current.len() > 0 {
                let ghost before = char_seqs(tokens@);
                let ghost cur = current@;
                tokens.push(current);
                current = Vec::new();
                assert(char_seqs(tokens@) =~= before.push(cur));
            }
        } else {
            current.push(ch);
        }
        i = i + 1;
    }
    assert(t.take(t.len() as int) =~= t);
    if current.len() > 0 {
        let ghost before = char_seqs(tokens@);
        let ghost cur = current@;
        tokens.push(current);
        assert(char_seqs(tokens@) =~= before.push(cur));
    }
    tokens
}

/// Splits a command line into its tokens.
pub fn split_command_line(command: &str) -> (tokens: Vec<String>)
    ensures
        string_seqs(tokens@) == command_tokens(command@),
{
    let chars = chars_of(command);
    let parts = split_chars(chars.as_slice());
    let mut tokens: Vec<String> = Vec::new();
    let mut i: usize = 0;
    while i < parts.len()
        invariant
            i <= parts@.len(),
            string_seqs(tokens@) == char_seqs(parts@).take(i as int),
        decreases parts@.len() - i,
    {
        let s = string_of(parts[i].as_slice());
        let ghost before = tokens@;
        tokens.push(s);
        assert(tokens@ == before.push(s));
        assert(string_seqs(tokens@) =~= string_seqs(before).push(parts@[i as int]@));
        i = i + 1;
        assert(string_seqs(tokens@) =~= char_seqs(parts@).take(i as int));
    }
    assert(char_seqs(parts@).take(parts@.len() as int) =~= char_seqs(parts@));
    tokens
}

fn token_needs_quotes(t: &[char]) -> (r: bool)
    ensures
        r == needs_quotes(t@),
{
    let mut i: usize = 0;
    while i < t.len()
        invariant
            i <= t@.len(),
            forall|j: int| 0 <= j < i ==> !(is_ws(#[trigger] t@[j]) || t@[j] == '"'),
        decreases t@.len() - i,
    {
        if is_whitespace(t[i]) || t[i] == '"' {
            return true;
        }
        i = i + 1;
    }
    false
}

fn quoted_token(t: &[char]) -> (r: Vec<char>)
    ensures
        r@ == quote_token(t@),
{
    if !token_needs_quotes(t) {
        let mut r: Vec<char> = Vec::new();
        let mut i: usize = 0;
        while i < t.len()
            invariant
                i <= t@.len(),
                r@ == t@.take(i as int),
            decreases t@.len() - i,
        {
            r.push(t[i]);
            i = i + 1;
            assert(r@ =~= t@.take(i as int));
        }
        assert(t@.take(t@.len() as int) =~= t@);
        return r;
    }
    let mut r: Vec<char> = Vec::new();
    r.push('"');
    let mut i: usize = 0;
    while i < t.len()
        invariant
            i <= t@.len(),
            r@ == seq!['"'] + escape_quotes(t@.take(i as int)),
        decreases t@.len() - i,
    {
        assert(t@.take(i + 1).drop_last() =~= t@.take(i as int));
        if t[i] == '"' {
            r.push('\\');
            r.push('"');
        } else {
            r.push(t[i]);
        }
        i = i + 1;
        assert(r@ =~= seq!['"'] + escape_quotes(t@.take(i as int)));
    }
    assert(t@.take(t@.len() as int) =~= t@);
    r.push('"');
    r
}

pub fn join_chars(tokens: &Vec<Vec<char>>) -> (r: Vec<char>)
    ensures
        r@ == joined_command(char_seqs(tokens@)),
{
    let ghost ts = char_seqs(tokens@);
    let ghost qs = ts.map_values(|t: Seq<char>| quote_token(t));
    let mut r: Vec<char> = Vec::new();
    let mut i: usize = 0;
    while i < tokens.len()
        invariant
            ts == char_seqs(tokens@),
            qs == ts.map_values(|t: Seq<char>| quote_token(t)),
            i <= tokens@.len(),
            r@ == join_spaced(qs.take(i as int)),
        decreases tokens@.len() - i,
    {
        let q = quoted_token(tokens[i].as_slice());
        assert(qs.take(i + 1).drop_last() =~= qs.take(i as int));
        if i > 0 {
            r.push(' ');
        }
        let mut k: usize = 0;
        let ghost base = r@;
        while k < q.len()
            invariant
                k <= q@.len(),
                r@ == base + q@.take(k as int),
            decreases q@.len() - k,
        {
            r.push(q[k]);
            k = k + 1;
            assert(r@ =~= base + q@.take(k as int));
        }
        assert(q@.take(q@.len() as int) =~= q@);
        assert(q@ == qs[i as int]);
        i = i + 1;
        if i == 1 {
            assert(qs.take(1) =~= seq![qs[0]]);
            assert(r@ =~= join_spaced(qs.take(i as int)));
        } else {
            assert(qs.take(i as int).last() == qs[i - 1]);
            assert(r@ =~= join_spaced(qs.take(i as int)));
        }
    }
    assert(qs.take(tokens@.len() as int) =~= qs);
    r
}

/// Writes tokens as one command line, quoting those that hold whitespace or
/// double quotes.
pub fn join_command_line(tokens: &[String]) -> (line: String)
    ensures
        line@ == joined_command(string_seqs(tokens@)),
{
    let mut parts: Vec<Vec<char>> = Vec::new();
    let mut i: usize = 0;
    while i < tokens.len()
        invariant
            i <= tokens@.len(),
            char_seqs(parts@) == string_seqs(tokens@).take(i as int),
        decreases tokens@.len() - i,
    {
        let v = chars_of(tokens[i].as_str());
        let ghost before = parts@;
        parts.push(v);
        assert(char_seqs(parts@) =~= char_seqs(before).push(tokens@[i as int]@));
        i = i + 1;
        assert(char_seqs(parts@) =~= string_seqs(tokens@).take(i as int));
    }
    assert(string_seqs(tokens@).take(tokens@.len() as int) =~= string_seqs(tokens@));
    let joined = join_chars(&parts);
    string_of(joined.as_slice())
}

proof fn lemma_scan_concat(st: ScanState, a: Seq<char>, b: Seq<char>)
    ensures
        scan_from(st, a + b) == scan_from(scan_from(st, a), b),
    decreases b.len(),
{
    if b.len() == 0 {
        assert(a + b =~= a);
    } else {
        assert((a + b).drop_last() =~= a + b.drop_last());
        assert((a + b).last() == b.last());
        lemma_scan_concat(st, a, b.drop_last());
    }
}

/// Reading characters that are neither quotes nor, outside quotes, whitespace
/// only extends the current token.
proof fn lemma_scan_extends(toks: Seq<Seq<char>>, cur: Seq<char>, q: bool, t: Seq<char>)
    requires
        forall|i: int| 0 <= i < t.len() ==> #[trigger] t[i] != '"',
        !q ==> forall|i: int| 0 <= i < t.len() ==> !is_ws(#[trigger] t[i]),
    ensures
        scan_from((toks, cur, q), t) == (toks, cur + t, q),
    decreases t.len(),
{
    if t.len() == 0 {
        assert(cur + t =~= cur);
    } else {
        lemma_scan_extends(toks, cur, q, t.drop_last());
        assert(t.last() == t[t.len() - 1]);
        assert((cur + t.drop_last()).push(t.last()) =~= cur + t);
    }
}

proof fn lemma_escape_plain(t: Seq<char>)
    requires
        forall|i: int| 0 <= i < t.len() ==> #[trigger] t[i] != '"',
    ensures
        escape_quotes(t) == t,
    decreases t.len(),
{
    if t.len() > 0 {
        assert(t.last() == t[t.len() - 1]);
        lemma_escape_plain(t.drop_last());
        assert(t.drop_last() + seq![t.last()] =~= t);
    }
}

/// Reading a written token from a token boundary gives the token back as the
/// current one.
proof fn lemma_scan_quoted(toks: Seq<Seq<char>>, t: Seq<char>)
    requires
        plain_token(t),
    ensures
        scan_from((toks, Seq::empty(), false), quote_token(t)) == (toks, t, false),
{
    let st: ScanState = (toks, Seq::empty(), false);
    if needs_quotes(t) {
        lemma_escape_plain(t);
        let open: Seq<char> = seq!['"'];
        assert(quote_token(t) == open + t + open);
        lemma_scan_concat(st, open + t, open);
        lemma_scan_concat(st, open, t);
        assert(open.drop_last() =~= Seq::<char>::empty());
        assert(open.last() == '"');
        assert(scan_from(st, open.drop_last()) == st);
        assert(scan_from(st, open) == (toks, Seq::<char>::empty(), true));
        lemma_scan_extends(toks, Seq::empty(), true, t);
        assert(Seq::<char>::empty() + t =~= t);
        let mid: ScanState = (toks, t, true);
        assert(scan_from(mid, open.drop_last()) == mid);
        assert(scan_from(mid, open) == (toks, t, false));
    } else {
        assert forall|i: int| 0 <= i < t.len() implies !is_ws(#[trigger] t[i]) by {
            if is_ws(t[i]) {
                assert(is_ws(t[i]) || t[i] == '"');
            }
        }
        lemma_scan_extends(toks, Seq::empty(), false, t);
        assert(Seq::<char>::empty() + t =~= t);
    }
}

proof fn lemma_quote_ends(t: Seq<char>)
    requires
        plain_token(t),
    ensures
        quote_token(t).len() > 0,
        !is_ws(quote_token(t)[0]),
        !is_ws(quote_token(t).last()),
{
    if needs_quotes(t) {
        lemma_escape_plain(t);
    } else {
        if is_ws(t[0]) {
            assert(is_ws(t[0]) || t[0] == '"');
        }
        if is_ws(t[t.len() - 1]) {
            assert(is_ws(t[t.len() - 1]) || t[t.len() - 1] == '"');
        }
    }
}

proof fn lemma_join_ends(qs: Seq<Seq<char>>)
    requires
        qs.len() > 0,
        forall|i: int| 0 <= i < qs.len() ==> (#[trigger] qs[i]).len() > 0,
    ensures
        join_spaced(qs).len() > 0,
        join_spaced(qs)[0] == qs[0][0],
        join_spaced(qs).last() == qs.last().last(),
    decreases qs.len(),
{
    if qs.len() > 1 {
        lemma_join_ends(qs.drop_last());
    }
}

proof fn lemma_trim_fixed(s: Seq<char>)
    requires
        s.len() > 0,
        !is_ws(s[0]),
        !is_ws(s.last()),
    ensures
        trim(s) == s,
{
    lemma_trim_of_trimmed(s);
}

proof fn lemma_scan_joined(ts: Seq<Seq<char>>)
    requires
        ts.len() > 0,
        forall|i: int| 0 <= i < ts.len() ==> plain_token(#[trigger] ts[i]),
    ensures
        scan_from(scan_start(), joined_command(ts)) == (ts.drop_last(), ts.last(), false),
    decreases ts.len(),
{
    let qs = ts.map_values(|t: Seq<char>| quote_token(t));
    if ts.len() == 1 {
        assert(joined_command(ts) == qs[0]);
        lemma_scan_quoted(Seq::empty(), ts[0]);
        assert(ts.drop_last() =~= Seq::<Seq<char>>::empty());
    } else {
        let prefix = ts.drop_last();
        assert(prefix.map_values(|t: Seq<char>| quote_token(t)) =~= qs.drop_last());
        lemma_scan_joined(prefix);
        let head = joined_command(prefix);
        let sep: Seq<char> = seq![' '];
        assert(joined_command(ts) == head + sep + qs.last());
        lemma_scan_concat(scan_start(), head + sep, qs.last());
        lemma_scan_concat(scan_start(), head, sep);
        assert(sep.drop_last() =~= Seq::<char>::empty());
        assert(sep.last() == ' ');
        let before_sep: ScanState = (prefix.drop_last(), prefix.last(), false);
        assert(scan_from(before_sep, sep.drop_last()) == before_sep);
        assert(prefix.last().len() > 0);
        assert(prefix.drop_last().push(prefix.last()) =~= prefix);
        assert(scan_from(scan_start(), head + sep) == (prefix, Seq::<char>::empty(), false));
        lemma_scan_quoted(prefix, ts.last());
    }
}

/// A command line written from tokens the tokenizer can give is already
/// trimmed.
pub proof fn lemma_joined_trimmed(ts: Seq<Seq<char>>)
    requires
        forall|i: int| 0 <= i < ts.len() ==> plain_token(#[trigger] ts[i]),
    ensures
        trim(joined_command(ts)) == joined_command(ts),
        ts.len() > 0 ==> joined_command(ts).len() > 0,
{
    if ts.len() == 0 {
        assert(joined_command(ts) =~= Seq::<char>::empty());
    } else {
        let qs = ts.map_values(|t: Seq<char>| quote_token(t));
        assert forall|i: int| 0 <= i < qs.len() implies (#[trigger] qs[i]).len() > 0 by {
            lemma_quote_ends(ts[i]);
        }
        lemma_join_ends(qs);
        lemma_quote_ends(ts[0]);
        lemma_quote_ends(ts.last());
        lemma_trim_fixed(joined_command(ts));
    }
}

pub open spec fn scan_invariant(st: ScanState) -> bool {
    &&& forall|i: int| 0 <= i < st.0.len() ==> plain_token(#[trigger] st.0[i])
    &&& forall|i: int| 0 <= i < st.1.len() ==> #[trigger] st.1[i] != '"'
}

proof fn lemma_scan_invariant(s: Seq<char>)
    ensures
        scan_invariant(scan_from(scan_start(), s)),
    decreases s.len(),
{
    if s.len() > 0 {
        lemma_scan_invariant(s.drop_last());
        let st = scan_from(scan_start(), s.drop_last());
        let c = s.last();
        if c == '"' {
        } else if is_ws(c) && !st.2 {
            if st.1.len() > 0 {
                assert(plain_token(st.1));
                let next = st.0.push(st.1);
                assert forall|i: int| 0 <= i < next.len() implies plain_token(#[trigger] next[i]) by {
                    if i < st.0.len() {
                        assert(next[i] == st.0[i]);
                    }
                }
            }
        } else {
            let cur = st.1.push(c);
            assert forall|i: int| 0 <= i < cur.len() implies #[trigger] cur[i] != '"' by {
                if i < st.1.len() {
                    assert(cur[i] == st.1[i]);
                }
            }
        }
    }
}

/// Every token of a command line is non-empty and free of double quotes.
pub proof fn lemma_tokens_plain(s: Seq<char>)
    ensures
        forall|i: int| 0 <= i < command_tokens(s).len() ==> plain_token(#[trigger] command_tokens(s)[i]),
{
    lemma_scan_invariant(trim(s));
    let st = scan_from(scan_start(), trim(s));
    if st.1.len() > 0 {
        assert(plain_token(st.1));
        let ts = st.0.push(st.1);
        assert forall|i: int| 0 <= i < ts.len() implies plain_token(#[trigger] ts[i]) by {
            if i < st.0.len() {
                assert(ts[i] == st.0[i]);
            }
        }
    }
}

/// Reading back a command line written from tokens gives those tokens, when
/// each is one the tokenizer can give.
pub proof fn lemma_tokens_of_joined(ts: Seq<Seq<char>>)
    requires
        forall|i: int| 0 <= i < ts.len() ==> plain_token(#[trigger] ts[i]),
    ensures
        command_tokens(joined_command(ts)) == ts,
{
    if ts.len() == 0 {
        assert(joined_command(ts) =~= Seq::<char>::empty());
        assert(scan_finish(scan_start()) =~= ts);
    } else {
        let qs = ts.map_values(|t: Seq<char>| quote_token(t));
        assert forall|i: int| 0 <= i < qs.len() implies (#[trigger] qs[i]).len() > 0 by {
            lemma_quote_ends(ts[i]);
        }
        lemma_join_ends(qs);
        lemma_quote_ends(ts[0]);
        lemma_quote_ends(ts.last());
        lemma_trim_fixed(joined_command(ts));
        lemma_scan_joined(ts);
        assert(ts.drop_last().push(ts.last()) =~= ts);
    }
}

} // verus!
