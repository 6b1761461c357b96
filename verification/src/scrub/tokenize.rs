use vstd::prelude::*;
use vstd::string::*;

use crate::text::{is_ws, char_is_whitespace, str_chars};

verus! {

/// A lexical token of a Gmail search query.
#[derive(Debug, Clone, PartialEq)]
pub enum Token {
    /// A plain word.
    Word(String),
    /// The content between double quotes, quotes stripped.
    Quoted(String),
    /// `key:value` (key, value, negated); a quoted value is unquoted.
    Operator(String, String, bool),
    /// The literal word `OR`.
    Or,
    OpenParen,
    CloseParen,
    OpenBrace,
    CloseBrace,
    /// A `-` that prefixes the next token.
    Negation,
}

/// A token together with the character index where it starts.
#[derive(Debug, Clone)]
pub struct PosToken {
    pub token: Token,
    pub pos: usize,
}

/// The mathematical content of a token.
pub enum Tok {
    Word(Seq<char>),
    Quoted(Seq<char>),
    Operator(Seq<char>, Seq<char>, bool),
    Or,
    OpenParen,
    CloseParen,
    OpenBrace,
    CloseBrace,
    Negation,
}

/// A token with its start position.
pub struct PosTok {
    pub tok: Tok,
    pub pos: int,
}

impl View for Token {
    type V = Tok;

    open spec fn view(&self) -> Tok {
        match self {
            Token::Word(w) => Tok::Word(w@),
            Token::Quoted(q) => Tok::Quoted(q@),
            Token::Operator(k, v, n) => Tok::Operator(k@, v@, *n),
            Token::Or => Tok::Or,
            Token::OpenParen => Tok::OpenParen,
            Token::CloseParen => Tok::CloseParen,
            Token::OpenBrace => Tok::OpenBrace,
            Token::CloseBrace => Tok::CloseBrace,
            Token::Negation => Tok::Negation,
        }
    }
}

impl View for PosToken {
    type V = PosTok;

    open spec fn view(&self) -> PosTok {
        PosTok { tok: self.token@, pos: self.pos as int }
    }
}

pub open spec fn toks_view(v: Seq<PosToken>) -> Seq<PosTok> {
    v.map_values(|p: PosToken| p@)
}

pub open spec fn pt(tok: Tok, pos: int) -> PosTok {
    PosTok { tok, pos }
}

/// Characters that end an unquoted word.
pub open spec fn is_stop(c: char) -> bool {
    is_ws(c) || c == '(' || c == ')' || c == '{' || c == '}' || c == '"'
}

/// The end of the unquoted word that starts at `i`.
pub open spec fn word_end(s: Seq<char>, i: int) -> int
    decreases s.len() - i,
{
    if i < 0 || i >= s.len() || is_stop(s[i]) {
        i
    } else {
        word_end(s, i + 1)
    }
}

/// The index of the first `"` at or after `i`, or the length of `s`.
pub open spec fn quote_end(s: Seq<char>, i: int) -> int
    decreases s.len() - i,
{
    if i < 0 || i >= s.len() || s[i] == '"' {
        i
    } else {
        quote_end(s, i + 1)
    }
}

/// Where scanning resumes after a quoted text whose content starts at `i`.
pub open spec fn after_quote(s: Seq<char>, i: int) -> int {
    let q = quote_end(s, i);
    if q < s.len() { q + 1 } else { q }
}

/// The index of the first `c` in `w` at or after `k`, or the length of `w`.
pub open spec fn index_of(w: Seq<char>, c: char, k: int) -> int
    decreases w.len() - k,
{
    if k < 0 || k >= w.len() || w[k] == c {
        k
    } else {
        index_of(w, c, k + 1)
    }
}

/// The tokens of an unquoted word starting at `i`; `start` is the position
/// reported for an operator (and for the negation when `negated`).
pub open spec fn scan_word(s: Seq<char>, i: int, start: int, negated: bool) -> (Seq<PosTok>, int) {
    let e = word_end(s, i);
    let w = s.subrange(i, e);
    let k = index_of(w, ':', 0);
    if k < w.len() {
        let key = w.subrange(0, k);
        let val = w.subrange(k + 1, w.len() as int);
        if val.len() == 0 {
            if e < s.len() && s[e] == '"' {
                (
                    seq![pt(Tok::Operator(key, s.subrange(e + 1, quote_end(s, e + 1)), negated), start)],
                    after_quote(s, e + 1),
                )
            } else {
                (seq![pt(Tok::Operator(key, Seq::empty(), negated), start)], e)
            }
        } else {
            (seq![pt(Tok::Operator(key, val, negated), start)], e)
        }
    } else if negated {
        (seq![pt(Tok::Negation, start), pt(Tok::Word(w), i)], e)
    } else if w == seq!['O', 'R'] {
        (seq![pt(Tok::Or, start)], e)
    } else {
        (seq![pt(Tok::Word(w), start)], e)
    }
}

/// Whether a `-` at `i` negates what follows it.
pub open spec fn negates_next(s: Seq<char>, i: int) -> bool {
    i + 1 < s.len() && !is_ws(s[i + 1]) && s[i + 1] != ')' && s[i + 1] != '}'
}

/// The tokens produced at a non-whitespace position `i`, and where scanning resumes.
pub open spec fn step(s: Seq<char>, i: int) -> (Seq<PosTok>, int) {
    let c = s[i];
    if c == '(' {
        (seq![pt(Tok::OpenParen, i)], i + 1)
    } else if c == ')' {
        (seq![pt(Tok::CloseParen, i)], i + 1)
    } else if c == '{' {
        (seq![pt(Tok::OpenBrace, i)], i + 1)
    } else if c == '}' {
        (seq![pt(Tok::CloseBrace, i)], i + 1)
    } else if c == '"' {
        (seq![pt(Tok::Quoted(s.subrange(i + 1, quote_end(s, i + 1))), i)], after_quote(s, i + 1))
    } else if c == '-' {
        if negates_next(s, i) {
            let j = i + 1;
            if s[j] == '"' {
                (
                    seq![pt(Tok::Negation, i), pt(Tok::Quoted(s.subrange(j + 1, quote_end(s, j + 1))), j)],
                    after_quote(s, j + 1),
                )
            } else if s[j] == '(' || s[j] == '{' {
                (seq![pt(Tok::Negation, i)], j)
            } else {
                scan_word(s, j, i, true)
            }
        } else {
            (seq![pt(Tok::Word(seq!['-']), i)], i + 1)
        }
    } else {
        scan_word(s, i, i, false)
    }
}

/// The tokens of `s` from index `i` on.
pub open spec fn tokens_from(s: Seq<char>, i: int) -> Seq<PosTok>
    decreases s.len() - i,
{
    if i < 0 || i >= s.len() {
        Seq::empty()
    } else if is_ws(s[i]) {
        tokens_from(s, i + 1)
    } else {
        proof {
            lemma_step_bounds(s, i);
        }
        step(s, i).0 + tokens_from(s, step(s, i).1)
    }
}

/// The tokens of a whole query.
pub open spec fn spec_tokenize(s: Seq<char>) -> Seq<PosTok> {
    tokens_from(s, 0)
}

pub proof fn lemma_word_end(s: Seq<char>, i: int)
    requires
        0 <= i <= s.len(),
    ensures
        i <= word_end(s, i) <= s.len(),
        forall|k: int| i <= k < word_end(s, i) ==> !is_stop(#[trigger] s[k]),
        word_end(s, i) < s.len() ==> is_stop(s[word_end(s, i)]),
    decreases s.len() - i,
{
    if i < s.len() && !is_stop(s[i]) {
        lemma_word_end(s, i + 1);
    }
}

pub proof fn lemma_quote_end(s: Seq<char>, i: int)
    requires
        0 <= i <= s.len(),
    ensures
        i <= quote_end(s, i) <= s.len(),
        i <= after_quote(s, i) <= s.len(),
        forall|k: int| i <= k < quote_end(s, i) ==> #[trigger] s[k] != '"',
        quote_end(s, i) < s.len() ==> s[quote_end(s, i)] == '"',
    decreases s.len() - i,
{
    if i < s.len() && s[i] != '"' {
        lemma_quote_end(s, i + 1);
    }
}

pub proof fn lemma_index_of(w: Seq<char>, c: char, k: int)
    requires
        0 <= k <= w.len(),
    ensures
        k <= index_of(w, c, k) <= w.len(),
        forall|m: int| k <= m < index_of(w, c, k) ==> #[trigger] w[m] != c,
        index_of(w, c, k) < w.len() ==> w[index_of(w, c, k)] == c,
    decreases w.len() - k,
{
    if k < w.len() && w[k] != c {
        lemma_index_of(w, c, k + 1);
    }
}

pub proof fn lemma_scan_word_bounds(s: Seq<char>, i: int, start: int, negated: bool)
    requires
        0 <= i < s.len(),
        !is_stop(s[i]),
    ensures
        i < scan_word(s, i, start, negated).1 <= s.len(),
{
    lemma_word_end(s, i);
    let e = word_end(s, i);
    if e < s.len() {
        lemma_quote_end(s, e + 1);
    }
}

pub proof fn lemma_step_bounds(s: Seq<char>, i: int)
    requires
        0 <= i < s.len(),
        !is_ws(s[i]),
    ensures
        i < step(s, i).1 <= s.len(),
{
    let c = s[i];
    lemma_quote_end(s, i + 1);
    if c == '-' && negates_next(s, i) {
        let j = i + 1;
        if s[j] == '"' {
            lemma_quote_end(s, j + 1);
        } else if s[j] == '(' || s[j] == '{' {
        } else {
            lemma_scan_word_bounds(s, j, i, true);
        }
    } else if c != '(' && c != ')' && c != '{' && c != '}' && c != '"' && c != '-' {
        lemma_scan_word_bounds(s, i, i, false);
    }
}


/// Whether `c` ends an unquoted word.
fn is_stop_char(c: char) -> (b: bool)
    ensures
        b == is_stop(c),
{
    char_is_whitespace(c) || c == '(' || c == ')' || c == '{' || c == '}' || c == '"'
}

fn word_end_exec(chars: &Vec<char>, i: usize) -> (e: usize)
    requires
        i <= chars@.len(),
    ensures
        e == word_end(chars@, i as int),
{
    let mut e = i;
    while e < chars.len() && !is_stop_char(chars[e])
        invariant
            i <= e <= chars@.len(),
            word_end(chars@, e as int) == word_end(chars@, i as int),
        decreases chars.len() - e,
    {
        e = e + 1;
    }
    e
}

fn quote_end_exec(chars: &Vec<char>, i: usize) -> (q: usize)
    requires
        i <= chars@.len(),
    ensures
        q == quote_end(chars@, i as int),
{
    let mut q = i;
    while q < chars.len() && chars[q] != '"'
        invariant
            i <= q <= chars@.len(),
            quote_end(chars@, q as int) == quote_end(chars@, i as int),
        decreases chars.len() - q,
    {
        q = q + 1;
    }
    q
}

/// The absolute index of the first `:` in `chars[i..e]`, or `e`.
fn colon_index(chars: &Vec<char>, i: usize, e: usize) -> (k: usize)
    requires
        i <= e <= chars@.len(),
    ensures
        k == i + index_of(chars@.subrange(i as int, e as int), ':', 0),
{
    let ghost w = chars@.subrange(i as int, e as int);
    let mut k = i;
    while k < e && chars[k] != ':'
        invariant
            i <= k <= e <= chars@.len(),
            w == chars@.subrange(i as int, e as int),
            index_of(w, ':', k - i) == index_of(w, ':', 0),
        decreases e - k,
    {
        assert(w[k - i] == chars@[k as int]);
        k = k + 1;
    }
    proof {
        if k < e {
            assert(w[k - i] == chars@[k as int]);
        }
    }
    k
}

fn substring(input: &str, from: usize, to: usize) -> (r: String)
    requires
        from <= to <= input@.len(),
    ensures
        r@ == input@.subrange(from as int, to as int),
{
    String::from_str(input.substring_char(from, to))
}

fn push_tok(tokens: &mut Vec<PosToken>, token: Token, pos: usize)
    ensures
        toks_view(final(tokens)@) == toks_view(old(tokens)@) + seq![pt(token@, pos as int)],
{
    tokens.push(PosToken { token, pos });
    assert(toks_view(tokens@) =~= toks_view(old(tokens)@) + seq![pt(token@, pos as int)]);
}

fn scan_word_exec(
    input: &str,
    chars: &Vec<char>,
    i: usize,
    start: usize,
    negated: bool,
    tokens: &mut Vec<PosToken>,
) -> (next: usize)
    requires
        chars@ == input@,
        i < chars@.len(),
        !is_stop(chars@[i as int]),
    ensures
        toks_view(final(tokens)@) == toks_view(old(tokens)@) + scan_word(chars@, i as int, start as int, negated).0,
        next == scan_word(chars@, i as int, start as int, negated).1,
{
    let ghost s = chars@;
    let len = chars.len();
    let e = word_end_exec(chars, i);
    proof {
        lemma_word_end(s, i as int);
    }
    let ghost w = s.subrange(i as int, e as int);
    let k = colon_index(chars, i, e);
    proof {
        lemma_index_of(w, ':', 0);
    }
    if k < e {
        let key = substring(input, i, k);
        assert(key@ =~= w.subrange(0, k - i));
        if k + 1 == e {
            assert(w.subrange(k - i + 1, w.len() as int).len() == 0);
            if e < len && chars[e] == '"' {
                let q = quote_end_exec(chars, e + 1);
                proof {
                    lemma_quote_end(s, e + 1);
                }
                let val = substring(input, e + 1, q);
                push_tok(tokens, Token::Operator(key, val, negated), start);
                if q < len {
                    q + 1
                } else {
                    q
                }
            } else {
                push_tok(tokens, Token::Operator(key, String::new(), negated), start);
                e
            }
        } else {
            let val = substring(input, k + 1, e);
            assert(val@ =~= w.subrange(k - i + 1, w.len() as int));
            push_tok(tokens, Token::Operator(key, val, negated), start);
            e
        }
    } else if negated {
        let word = substring(input, i, e);
        push_tok(tokens, Token::Negation, start);
        push_tok(tokens, Token::Word(word), i);
        assert(toks_view(tokens@) =~= toks_view(old(tokens)@) + scan_word(s, i as int, start as int, negated).0);
        e
    } else if e - i == 2 && chars[i] == 'O' && chars[i + 1] == 'R' {
        assert(w =~= seq!['O', 'R']);
        push_tok(tokens, Token::Or, start);
        e
    } else {
        let word = substring(input, i, e);
        proof {
            if w == seq!['O', 'R'] {
                assert(w[0] == s[i as int] && w[1] == s[i + 1]);
            }
        }
        push_tok(tokens, Token::Word(word), start);
        e
    }
}


fn step_exec(input: &str, chars: &Vec<char>, i: usize, tokens: &mut Vec<PosToken>) -> (next: usize)
    requires
        chars@ == input@,
        i < chars@.len(),
        !is_ws(chars@[i as int]),
    ensures
        toks_view(final(tokens)@) == toks_view(old(tokens)@) + step(chars@, i as int).0,
        next == step(chars@, i as int).1,
{
    let ghost s = chars@;
    let len = chars.len();
    let c = chars[i];
    if c == '(' {
        push_tok(tokens, Token::OpenParen, i);
        i + 1
    } else if c == ')' {
        push_tok(tokens, Token::CloseParen, i);
        i + 1
    } else if c == '{' {
        push_tok(tokens, Token::OpenBrace, i);
        i + 1
    } else if c == '}' {
        push_tok(tokens, Token::CloseBrace, i);
        i + 1
    } else if c == '"' {
        let q = quote_end_exec(chars, i + 1);
        proof {
            lemma_quote_end(s, i + 1);
        }
        let text = substring(input, i + 1, q);
        push_tok(tokens, Token::Quoted(text), i);
        if q < len {
            q + 1
        } else {
            q
        }
    } else if c == '-' {
        if i + 1 < len && !char_is_whitespace(chars[i + 1]) && chars[i + 1] != ')' && chars[i + 1] != '}' {
            let j = i + 1;
            if chars[j] == '"' {
                let q = quote_end_exec(chars, j + 1);
                proof {
                    lemma_quote_end(s, j + 1);
                }
                let text = substring(input, j + 1, q);
                push_tok(tokens, Token::Negation, i);
                push_tok(tokens, Token::Quoted(text), j);
                assert(toks_view(tokens@) =~= toks_view(old(tokens)@) + step(s, i as int).0);
                if q < len {
                    q + 1
                } else {
                    q
                }
            } else if chars[j] == '(' || chars[j] == '{' {
                push_tok(tokens, Token::Negation, i);
                j
            } else {
                scan_word_exec(input, chars, j, i, true, tokens)
            }
        } else {
            let dash = substring(input, i, i + 1);
            assert(dash@ =~= seq!['-']);
            push_tok(tokens, Token::Word(dash), i);
            i + 1
        }
    } else {
        scan_word_exec(input, chars, i, i, false, tokens)
    }
}

/// Splits a query into tokens. Scanning never fails: every input has a
/// token sequence, which `spec_tokenize` defines.
pub fn tokenize(input: &str) -> (res: Result<Vec<PosToken>, crate::scrub::query::QueryError>)
    ensures
        res is Ok,
        res matches Ok(v) ==> toks_view(v@) == spec_tokenize(input@),
        res matches Ok(v) ==> forall|k: int|
            0 <= k < v@.len() ==> 0 <= #[trigger] toks_view(v@)[k].pos < input@.len(),
        res matches Ok(v) ==> positions_ok(input@, toks_view(v@)),
{
    let chars = str_chars(input);
    let len = chars.len();
    let mut tokens: Vec<PosToken> = Vec::new();
    let mut i: usize = 0;
    proof {
        assert(toks_view(tokens@) =~= Seq::<PosTok>::empty());
    }
    while i < len
        invariant
            len == chars@.len(),
            chars@ == input@,
            i <= len,
            toks_view(tokens@) + tokens_from(input@, i as int) == tokens_from(input@, 0),
            forall|k: int| 0 <= k < tokens@.len() ==> 0 <= #[trigger] toks_view(tokens@)[k].pos < i,
        decreases len - i,
    {
        if char_is_whitespace(chars[i]) {
            i = i + 1;
        } else {
            let ghost before = tokens@;
            let next = step_exec(input, &chars, i, &mut tokens);
            proof {
                lemma_step_bounds(input@, i as int);
                lemma_step_positions(input@, i as int);
                assert(toks_view(tokens@) + tokens_from(input@, next as int) =~= toks_view(before)
                    + tokens_from(input@, i as int));
                assert forall|k: int| 0 <= k < tokens@.len() implies 0 <= #[trigger] toks_view(tokens@)[k].pos < next by {
                    if k >= before.len() {
                        assert(toks_view(tokens@)[k] == step(input@, i as int).0[k - before.len()]);
                    } else {
                        assert(toks_view(tokens@)[k] == toks_view(before)[k]);
                    }
                }
            }
            i = next;
        }
    }
    proof {
        law_token_positions(input@);
    }
    Ok(tokens)
}

/// The positions of the tokens of one step lie in `[i, next)`, increase,
/// and each points at a character that is not whitespace.
pub proof fn lemma_step_positions(s: Seq<char>, i: int)
    requires
        0 <= i < s.len(),
        !is_ws(s[i]),
    ensures
        forall|k: int| 0 <= k < step(s, i).0.len() ==> i <= #[trigger] step(s, i).0[k].pos < step(s, i).1,
        forall|k: int| 0 <= k < step(s, i).0.len() ==> !is_ws(s[#[trigger] step(s, i).0[k].pos]),
        forall|k: int, l: int| 0 <= k < l < step(s, i).0.len() ==> step(s, i).0[k].pos < step(s, i).0[l].pos,
{
    lemma_step_bounds(s, i);
    lemma_quote_end(s, i + 1);
    if s[i] == '-' && negates_next(s, i) {
        let j = i + 1;
        if s[j] == '"' {
            lemma_quote_end(s, j + 1);
        } else if s[j] != '(' && s[j] != '{' {
            lemma_word_end(s, j);
            lemma_scan_word_bounds(s, j, i, true);
        }
    } else if s[i] != '(' && s[i] != ')' && s[i] != '{' && s[i] != '}' && s[i] != '"' && s[i] != '-' {
        lemma_word_end(s, i);
        lemma_scan_word_bounds(s, i, i, false);
    }
}

/// Token positions strictly increase, and each is the index of a
/// character of the query that is not whitespace.
pub open spec fn positions_ok(s: Seq<char>, ts: Seq<PosTok>) -> bool {
    &&& forall|k: int, l: int| 0 <= k < l < ts.len() ==> ts[k].pos < ts[l].pos
    &&& forall|k: int| 0 <= k < ts.len() ==> 0 <= #[trigger] ts[k].pos < s.len() && !is_ws(s[ts[k].pos])
}

proof fn lemma_positions_from(s: Seq<char>, i: int)
    requires
        0 <= i,
    ensures
        positions_ok(s, tokens_from(s, i)),
        forall|k: int| 0 <= k < tokens_from(s, i).len() ==> i <= #[trigger] tokens_from(s, i)[k].pos,
    decreases s.len() - i,
{
    if i < s.len() {
        if is_ws(s[i]) {
            lemma_positions_from(s, i + 1);
        } else {
            lemma_step_bounds(s, i);
            lemma_step_positions(s, i);
            let a = step(s, i).0;
            let j = step(s, i).1;
            let b = tokens_from(s, j);
            lemma_positions_from(s, j);
            let ts = a + b;
            assert(tokens_from(s, i) == ts);
            assert forall|k: int| 0 <= k < ts.len() implies i <= #[trigger] ts[k].pos && ts[k].pos < s.len()
                && !is_ws(s[ts[k].pos]) && (k < a.len() ==> ts[k].pos < j) && (k >= a.len() ==> j <= ts[k].pos) by {
                if k < a.len() {
                    assert(ts[k] == a[k]);
                } else {
                    assert(ts[k] == b[k - a.len()]);
                }
            }
            assert forall|k: int, l: int| 0 <= k < l < ts.len() implies ts[k].pos < ts[l].pos by {
                assert(i <= ts[k].pos);
                assert(i <= ts[l].pos);
                if l < a.len() {
                    assert(ts[k] == a[k]);
                    assert(ts[l] == a[l]);
                } else if k >= a.len() {
                    assert(ts[k] == b[k - a.len()]);
                    assert(ts[l] == b[l - a.len()]);
                }
            }
        }
    }
}

/// The tokens of a query come in the order of the text: their positions
/// strictly increase, and each is the (character) index of a character
/// that is not whitespace.
pub proof fn law_token_positions(s: Seq<char>)
    ensures
        positions_ok(s, spec_tokenize(s)),
{
    lemma_positions_from(s, 0);
}

} // verus!
