use vstd::prelude::*;

use crate::scrub::query::{
    byte_len, finish_seq, is_close, is_or, p_or, p_or_chain, p_query, p_single, recon, recon_join, secure_text,
    spec_parse, QueryTree, MAX_QUERY_LENGTH,
};
use crate::scrub::tokenize::{
    after_quote, index_of, is_stop, lemma_index_of, lemma_quote_end, lemma_step_bounds, lemma_word_end,
    negates_next, quote_end, scan_word, spec_tokenize, step, tokens_from, word_end, PosTok, Tok,
};
use crate::text::is_ws;

verus! {

// ---------------------------------------------------------------------------
// Which trees read back as themselves
// ---------------------------------------------------------------------------

/// No character of `w` ends an unquoted word.
pub open spec fn plain(w: Seq<char>) -> bool {
    forall|k: int| 0 <= k < w.len() ==> !is_stop(#[trigger] w[k])
}

/// `c` does not occur in `w`.
pub open spec fn lacks(w: Seq<char>, c: char) -> bool {
    forall|k: int| 0 <= k < w.len() ==> #[trigger] w[k] != c
}

/// A word that the tokenizer reads back as a plain term: not empty, free of
/// delimiters and colons, not the keyword `OR`, and not a negation (a lone
/// `-` is a term).
pub open spec fn bare_word(w: Seq<char>) -> bool {
    &&& w.len() > 0
    &&& plain(w)
    &&& lacks(w, ':')
    &&& w != seq!['O', 'R']
    &&& (w[0] == '-' ==> w.len() == 1)
}

/// A word that the tokenizer reads back as the term of a negation.
pub open spec fn negated_word(w: Seq<char>) -> bool {
    &&& w.len() > 0
    &&& plain(w)
    &&& lacks(w, ':')
}

/// An operator value that reads back unchanged: one with a space is
/// written in quotes and must hold none; one without a space is written
/// bare and must hold no delimiter.
pub open spec fn faithful_value(v: Seq<char>) -> bool {
    if v.contains(' ') {
        lacks(v, '"')
    } else {
        plain(v)
    }
}

/// An operator key as the tokenizer reads it: free of delimiters and
/// colons, and (unless the operator is negated) not starting with `-`.
pub open spec fn key_ok(key: Seq<char>, negated: bool) -> bool {
    &&& plain(key)
    &&& lacks(key, ':')
    &&& (!negated && key.len() > 0 ==> key[0] != '-')
}

/// An operator that reads back unchanged.
pub open spec fn good_operator(key: Seq<char>, value: Seq<char>, negated: bool) -> bool {
    &&& key_ok(key, negated)
    &&& value.len() > 0
    &&& faithful_value(value)
}

/// A tree in the shape the parser builds, whose words, texts and values
/// all read back unchanged.
pub open spec fn wf(t: QueryTree) -> bool
    decreases t,
{
    match t {
        QueryTree::Term(w) => bare_word(w),
        QueryTree::Quoted(q) => lacks(q, '"'),
        QueryTree::Operator { key, value, negated } => good_operator(key, value, negated),
        QueryTree::Not(inner) => match *inner {
            QueryTree::Term(w) => negated_word(w),
            QueryTree::Quoted(q) => lacks(q, '"'),
            QueryTree::Group(g) => wf(*g),
            _ => false,
        },
        QueryTree::Group(g) => wf(*g),
        QueryTree::Or(cs) => cs.len() >= 2 && wf_all(cs, true),
        QueryTree::And(cs) => cs.len() >= 2 && wf_all(cs, false),
    }
}

/// Every element is well formed; the operands of a disjunction are single
/// expressions, those of a conjunction are not conjunctions.
pub open spec fn wf_all(cs: Seq<QueryTree>, in_or: bool) -> bool
    decreases cs,
{
    if cs.len() == 0 {
        true
    } else {
        &&& wf_all(cs.drop_last(), in_or)
        &&& wf(cs.last())
        &&& !(cs.last() is And)
        &&& (in_or ==> !(cs.last() is Or))
    }
}

// ---------------------------------------------------------------------------
// The tokens of a reconstructed tree
// ---------------------------------------------------------------------------

/// The token kinds of a token sequence.
pub open spec fn kinds(ts: Seq<PosTok>) -> Seq<Tok> {
    ts.map_values(|p: PosTok| p.tok)
}

/// The tokens the text of a tree reads as.
pub open spec fn tree_toks(t: QueryTree) -> Seq<Tok>
    decreases t,
{
    match t {
        QueryTree::Term(w) => seq![Tok::Word(w)],
        QueryTree::Quoted(q) => seq![Tok::Quoted(q)],
        QueryTree::Operator { key, value, negated } => seq![Tok::Operator(key, value, negated)],
        QueryTree::Not(inner) => seq![Tok::Negation] + tree_toks(*inner),
        QueryTree::Group(g) => seq![Tok::OpenParen] + tree_toks(*g) + seq![Tok::CloseParen],
        QueryTree::And(cs) => join_toks(cs, false),
        QueryTree::Or(cs) => join_toks(cs, true),
    }
}

pub open spec fn join_toks(cs: Seq<QueryTree>, in_or: bool) -> Seq<Tok>
    decreases cs,
{
    if cs.len() == 0 {
        Seq::empty()
    } else if cs.len() == 1 {
        tree_toks(cs[0])
    } else {
        join_toks(cs.drop_last(), in_or) + (if in_or {
            seq![Tok::Or]
        } else {
            Seq::empty()
        }) + tree_toks(cs.last())
    }
}

/// The separator text of a conjunction or disjunction.
pub open spec fn sep(in_or: bool) -> Seq<char> {
    if in_or {
        " OR "@
    } else {
        " "@
    }
}

/// `x` stands in `s` at index `i`.
pub open spec fn at(s: Seq<char>, x: Seq<char>, i: int) -> bool {
    &&& 0 <= i
    &&& i + x.len() <= s.len()
    &&& forall|k: int| 0 <= k < x.len() ==> s[i + k] == #[trigger] x[k]
}

/// Index `e` of `s` is its end, whitespace, or a closing parenthesis.
pub open spec fn ends_cleanly(s: Seq<char>, e: int) -> bool {
    e == s.len() || (0 <= e < s.len() && (is_ws(s[e]) || s[e] == ')'))
}

proof fn lemma_at_split(s: Seq<char>, a: Seq<char>, b: Seq<char>, i: int)
    requires
        at(s, a + b, i),
    ensures
        at(s, a, i),
        at(s, b, i + a.len()),
{
    assert forall|k: int| 0 <= k < a.len() implies s[i + k] == #[trigger] a[k] by {
        assert((a + b)[k] == a[k]);
    }
    assert forall|k: int| 0 <= k < b.len() implies s[i + a.len() + k] == #[trigger] b[k] by {
        assert((a + b)[a.len() + k] == b[k]);
    }
}

proof fn lemma_kinds_add(a: Seq<PosTok>, b: Seq<PosTok>)
    ensures
        kinds(a + b) == kinds(a) + kinds(b),
{
    assert(kinds(a + b) =~= kinds(a) + kinds(b));
}

proof fn lemma_word_end_at(s: Seq<char>, i: int, n: int)
    requires
        0 <= i,
        0 <= n,
        i + n <= s.len(),
        forall|k: int| i <= k < i + n ==> !is_stop(#[trigger] s[k]),
        i + n == s.len() || is_stop(s[i + n]),
    ensures
        word_end(s, i) == i + n,
    decreases n,
{
    if n > 0 {
        assert(!is_stop(s[i]));
        lemma_word_end_at(s, i + 1, n - 1);
    }
}

proof fn lemma_quote_end_at(s: Seq<char>, i: int, n: int)
    requires
        0 <= i,
        0 <= n,
        i + n < s.len(),
        forall|k: int| i <= k < i + n ==> #[trigger] s[k] != '"',
        s[i + n] == '"',
    ensures
        quote_end(s, i) == i + n,
        after_quote(s, i) == i + n + 1,
    decreases n,
{
    if n > 0 {
        assert(s[i] != '"');
        lemma_quote_end_at(s, i + 1, n - 1);
    }
}

proof fn lemma_index_of_at(w: Seq<char>, c: char, k: int, n: int)
    requires
        0 <= k <= n <= w.len(),
        forall|m: int| k <= m < n ==> #[trigger] w[m] != c,
        n == w.len() || w[n] == c,
    ensures
        index_of(w, c, k) == n,
    decreases n - k,
{
    if k < n {
        assert(w[k] != c);
        lemma_index_of_at(w, c, k + 1, n);
    }
}

/// The word `w` at `i`, ending cleanly, is scanned whole.
proof fn lemma_scan_plain(s: Seq<char>, i: int, w: Seq<char>)
    requires
        w.len() > 0,
        plain(w),
        at(s, w, i),
        ends_cleanly(s, i + w.len()),
    ensures
        word_end(s, i) == i + w.len(),
        s.subrange(i, i + w.len()) == w,
{
    assert forall|k: int| i <= k < i + w.len() implies !is_stop(#[trigger] s[k]) by {
        assert(s[i + (k - i)] == w[k - i]);
    }
    lemma_word_end_at(s, i, w.len() as int);
    assert(s.subrange(i, i + w.len()) =~= w);
}

/// The tokens of the text of a well-formed tree `t` standing at `i`.
proof fn lemma_tokens_of_tree(t: QueryTree, s: Seq<char>, i: int)
    requires
        wf(t),
        at(s, recon(t), i),
        ends_cleanly(s, i + recon(t).len()),
    ensures
        kinds(tokens_from(s, i)) == tree_toks(t) + kinds(tokens_from(s, i + recon(t).len())),
    decreases t,
{
    let e = i + recon(t).len();
    reveal_strlit("\"");
    reveal_strlit("-");
    reveal_strlit("");
    reveal_strlit(":");
    reveal_strlit(":\"");
    reveal_strlit("(");
    reveal_strlit(")");
    match t {
        QueryTree::Term(w) => {
            assert(w[0] == s[i + 0]);
            lemma_scan_plain(s, i, w);
            assert(!is_ws(s[i]));
            if w[0] == '-' {
                assert(!negates_next(s, i));
                assert(seq!['-'] =~= w);
            } else {
                lemma_index_of_at(s.subrange(i, e), ':', 0, w.len() as int);
            }
            lemma_kinds_add(step(s, i).0, tokens_from(s, step(s, i).1));
        },
        QueryTree::Quoted(q) => {
            let x = "\""@ + q + "\""@;
            assert(recon(t) == x);
            assert(s[i] == x[0]);
            lemma_at_split(s, "\""@ + q, "\""@, i);
            lemma_at_split(s, "\""@, q, i);
            assert forall|k: int| i + 1 <= k < i + 1 + q.len() implies #[trigger] s[k] != '"' by {
                assert(s[i + 1 + (k - i - 1)] == q[k - i - 1]);
            }
            assert(s[i + 1 + q.len() + 0] == "\""@[0]);
            lemma_quote_end_at(s, i + 1, q.len() as int);
            assert(s.subrange(i + 1, i + 1 + q.len()) =~= q);
            lemma_kinds_add(step(s, i).0, tokens_from(s, step(s, i).1));
        },
        QueryTree::Operator { key, value, negated } => {
            lemma_tokens_of_operator(key, value, negated, s, i);
        },
        QueryTree::Not(inner) => {
            let r = recon(*inner);
            assert(recon(t) == "-"@ + r);
            lemma_at_split(s, "-"@, r, i);
            assert(s[i + 0] == "-"@[0]);
            match *inner {
                QueryTree::Term(w) => {
                    assert(r == w);
                    assert(s[i + 1 + 0] == w[0]);
                    assert(negates_next(s, i));
                    lemma_scan_plain(s, i + 1, w);
                    lemma_index_of_at(s.subrange(i + 1, e), ':', 0, w.len() as int);
                    lemma_kinds_add(step(s, i).0, tokens_from(s, step(s, i).1));
                    assert(tree_toks(*inner) == seq![Tok::Word(w)]);
                    assert(tree_toks(t) == seq![Tok::Negation] + tree_toks(*inner));
                    assert(tree_toks(t) =~= seq![Tok::Negation, Tok::Word(w)]);
                },
                QueryTree::Quoted(q) => {
                    let x = "\""@ + q + "\""@;
                    assert(r == x);
                    assert(s[i + 1 + 0] == x[0]);
                    assert(negates_next(s, i));
                    lemma_at_split(s, "\""@ + q, "\""@, i + 1);
                    lemma_at_split(s, "\""@, q, i + 1);
                    assert forall|k: int| i + 2 <= k < i + 2 + q.len() implies #[trigger] s[k] != '"' by {
                        assert(s[i + 2 + (k - i - 2)] == q[k - i - 2]);
                    }
                    assert(s[i + 2 + q.len() + 0] == "\""@[0]);
                    lemma_quote_end_at(s, i + 2, q.len() as int);
                    assert(s.subrange(i + 2, i + 2 + q.len()) =~= q);
                    lemma_kinds_add(step(s, i).0, tokens_from(s, step(s, i).1));
                    assert(tree_toks(*inner) == seq![Tok::Quoted(q)]);
                    assert(tree_toks(t) == seq![Tok::Negation] + tree_toks(*inner));
                    assert(tree_toks(t) =~= seq![Tok::Negation, Tok::Quoted(q)]);
                },
                QueryTree::Group(g) => {
                    let gr = recon(*inner);
                    assert(gr == "("@ + recon(*g) + ")"@);
                    assert(s[i + 1 + 0] == gr[0]);
                    assert(negates_next(s, i));
                    lemma_tokens_of_tree(*inner, s, i + 1);
                    lemma_kinds_add(step(s, i).0, tokens_from(s, step(s, i).1));
                    assert(tree_toks(t) =~= seq![Tok::Negation] + tree_toks(*inner));
                },
                _ => {},
            }
        },
        QueryTree::Group(g) => {
            let r = recon(*g);
            assert(recon(t) == "("@ + r + ")"@);
            lemma_at_split(s, "("@ + r, ")"@, i);
            lemma_at_split(s, "("@, r, i);
            assert(s[i + 0] == "("@[0]);
            assert(s[i + 1 + r.len() + 0] == ")"@[0]);
            lemma_tokens_of_tree(*g, s, i + 1);
            lemma_kinds_add(step(s, i).0, tokens_from(s, step(s, i).1));
            let c = i + 1 + r.len();
            lemma_kinds_add(step(s, c).0, tokens_from(s, step(s, c).1));
            assert(tree_toks(t) =~= seq![Tok::OpenParen] + tree_toks(*g) + seq![Tok::CloseParen]);
        },
        QueryTree::And(cs) => {
            lemma_tokens_of_join(cs, false, s, i);
        },
        QueryTree::Or(cs) => {
            lemma_tokens_of_join(cs, true, s, i);
        },
    }
}

proof fn lemma_tokens_of_operator(key: Seq<char>, value: Seq<char>, negated: bool, s: Seq<char>, i: int)
    requires
        good_operator(key, value, negated),
        at(s, recon(QueryTree::Operator { key, value, negated }), i),
        ends_cleanly(s, i + recon(QueryTree::Operator { key, value, negated }).len()),
    ensures
        kinds(tokens_from(s, i)) == seq![Tok::Operator(key, value, negated)] + kinds(
            tokens_from(s, i + recon(QueryTree::Operator { key, value, negated }).len()),
        ),
{
    reveal_strlit("\"");
    reveal_strlit("-");
    reveal_strlit("");
    reveal_strlit(":");
    reveal_strlit(":\"");
    let t = QueryTree::Operator { key, value, negated };
    let e = i + recon(t).len();
    let prefix = if negated { "-"@ } else { ""@ };
    let j = i + prefix.len();
    let quoted = value.contains(' ');
    let body = if quoted {
        key + ":\""@ + value + "\""@
    } else {
        key + ":"@ + value
    };
    assert(recon(t) == prefix + body);
    lemma_at_split(s, prefix, body, i);
    // The word scanned from `j`: the key, the colon and (unquoted) the value.
    let wl = if quoted { key.len() + 1 } else { body.len() };
    let w = s.subrange(j, j + wl);
    if quoted {
        lemma_at_split(s, key + ":\""@ + value, "\""@, j);
        lemma_at_split(s, key + ":\""@, value, j);
        lemma_at_split(s, key, ":\""@, j);
        assert(s[j + key.len() + 0] == ":\""@[0]);
        assert(s[j + key.len() + 1] == ":\""@[1]);
        assert forall|k: int| j <= k < j + key.len() + 1 implies !is_stop(#[trigger] s[k]) by {
            if k < j + key.len() {
                assert(s[j + (k - j)] == key[k - j]);
            }
        }
        lemma_word_end_at(s, j, (key.len() + 1) as int);
        assert forall|k: int| j + key.len() + 2 <= k < j + key.len() + 2 + value.len() implies #[trigger] s[k]
            != '"' by {
            assert(s[j + key.len() + 2 + (k - j - key.len() - 2)] == value[k - j - key.len() - 2]);
        }
        assert(s[j + key.len() + 2 + value.len() + 0] == "\""@[0]);
        lemma_quote_end_at(s, j + key.len() + 2, value.len() as int);
        assert(s.subrange(j + key.len() + 2, j + key.len() + 2 + value.len()) =~= value);
    } else {
        lemma_at_split(s, key + ":"@, value, j);
        lemma_at_split(s, key, ":"@, j);
        assert(s[j + key.len() + 0] == ":"@[0]);
        assert forall|k: int| j <= k < j + body.len() implies !is_stop(#[trigger] s[k]) by {
            if k < j + key.len() {
                assert(s[j + (k - j)] == key[k - j]);
            } else if k > j + key.len() {
                assert(s[j + key.len() + 1 + (k - j - key.len() - 1)] == value[k - j - key.len() - 1]);
            }
        }
        lemma_word_end_at(s, j, body.len() as int);
    }
    assert forall|m: int| 0 <= m < key.len() implies #[trigger] w[m] != ':' by {
        assert(s[j + m] == key[m]);
    }
    assert(w[key.len() as int] == ':');
    lemma_index_of_at(w, ':', 0, key.len() as int);
    assert(w.subrange(0, key.len() as int) =~= key);
    if !quoted {
        assert(w.subrange(key.len() as int + 1, w.len() as int) =~= value);
    } else {
        assert(w.subrange(key.len() as int + 1, w.len() as int) =~= Seq::<char>::empty());
    }
    // The first character of the word is not a delimiter.
    if key.len() > 0 {
        assert(s[j + 0] == key[0]);
    }
    if negated {
        assert(s[i + 0] == "-"@[0]);
        assert(negates_next(s, i));
    } else {
        assert(prefix.len() == 0);
    }
    lemma_kinds_add(step(s, i).0, tokens_from(s, step(s, i).1));
}

/// The tokens of the text of a conjunction or disjunction standing at `i`.
proof fn lemma_tokens_of_join(cs: Seq<QueryTree>, in_or: bool, s: Seq<char>, i: int)
    requires
        cs.len() >= 1,
        wf_all(cs, in_or),
        at(s, recon_join(cs, sep(in_or)), i),
        ends_cleanly(s, i + recon_join(cs, sep(in_or)).len()),
    ensures
        kinds(tokens_from(s, i)) == join_toks(cs, in_or) + kinds(
            tokens_from(s, i + recon_join(cs, sep(in_or)).len()),
        ),
    decreases cs,
{
    reveal_strlit(" ");
    reveal_strlit(" OR ");
    if cs.len() == 1 {
        lemma_tokens_of_tree(cs[0], s, i);
    } else {
        let pre = cs.drop_last();
        let a = recon_join(pre, sep(in_or));
        let b = recon(cs.last());
        let sp = sep(in_or);
        assert(recon_join(cs, sp) == a + sp + b);
        lemma_at_split(s, a + sp, b, i);
        lemma_at_split(s, a, sp, i);
        assert(s[i + a.len() + 0] == sp[0]);
        lemma_tokens_of_join(pre, in_or, s, i);
        let m = i + a.len();
        let after = m + sp.len();
        lemma_tokens_of_tree(cs.last(), s, after);
        if in_or {
            assert(s[m + 1] == sp[1]);
            assert(s[m + 2] == sp[2]);
            assert(s[m + 3] == sp[3]);
            lemma_word_end_at(s, m + 1, 2);
            assert(s.subrange(m + 1, m + 3) =~= seq!['O', 'R']);
            lemma_index_of_at(s.subrange(m + 1, m + 3), ':', 0, 2);
            assert(is_ws(s[m]));
            assert(tokens_from(s, m) == tokens_from(s, m + 1));
            assert(step(s, m + 1) == (seq![crate::scrub::tokenize::pt(Tok::Or, m + 1)], m + 3));
            assert(is_ws(s[m + 3]));
            assert(tokens_from(s, m + 3) == tokens_from(s, m + 4));
            lemma_kinds_add(step(s, m + 1).0, tokens_from(s, step(s, m + 1).1));
            assert(kinds(seq![crate::scrub::tokenize::pt(Tok::Or, m + 1)]) =~= seq![Tok::Or]);
            assert(kinds(tokens_from(s, m)) == seq![Tok::Or] + kinds(tokens_from(s, after)));
        }
        assert(join_toks(cs, in_or) =~= join_toks(pre, in_or) + (if in_or {
            seq![Tok::Or]
        } else {
            Seq::empty()
        }) + tree_toks(cs.last()));
    }
}

// ---------------------------------------------------------------------------
// Parsing the tokens of a tree
// ---------------------------------------------------------------------------

/// The token kinds `x` stand in `t` from `pos` on.
pub open spec fn toks_at(t: Seq<PosTok>, x: Seq<Tok>, pos: int) -> bool {
    &&& 0 <= pos
    &&& pos + x.len() <= t.len()
    &&& forall|k: int| 0 <= k < x.len() ==> t[pos + k].tok == #[trigger] x[k]
}

/// A token that can begin an expression.
pub open spec fn starts_expr(k: Tok) -> bool {
    !(k is CloseParen) && !(k is CloseBrace) && !(k is Or)
}

proof fn lemma_toks_split(t: Seq<PosTok>, a: Seq<Tok>, b: Seq<Tok>, pos: int)
    requires
        toks_at(t, a + b, pos),
    ensures
        toks_at(t, a, pos),
        toks_at(t, b, pos + a.len()),
{
    assert forall|k: int| 0 <= k < a.len() implies t[pos + k].tok == #[trigger] a[k] by {
        assert((a + b)[k] == a[k]);
    }
    assert forall|k: int| 0 <= k < b.len() implies t[pos + a.len() + k].tok == #[trigger] b[k] by {
        assert((a + b)[a.len() + k] == b[k]);
    }
}

proof fn lemma_toks_prefix(t: Seq<PosTok>, x: Seq<Tok>, y: Seq<Tok>, pos: int)
    requires
        toks_at(t, x, pos),
        y.len() <= x.len(),
        forall|m: int| 0 <= m < y.len() ==> #[trigger] x[m] == y[m],
    ensures
        toks_at(t, y, pos),
{
    assert forall|k: int| 0 <= k < y.len() implies t[pos + k].tok == #[trigger] y[k] by {
        assert(x[k] == y[k]);
    }
}

proof fn lemma_wf_all_index(cs: Seq<QueryTree>, in_or: bool)
    requires
        wf_all(cs, in_or),
    ensures
        forall|i: int|
            0 <= i < cs.len() ==> wf(#[trigger] cs[i]) && !(cs[i] is And) && (in_or ==> !(cs[i] is Or)),
    decreases cs,
{
    if cs.len() > 0 {
        lemma_wf_all_index(cs.drop_last(), in_or);
        assert forall|i: int| 0 <= i < cs.len() implies wf(#[trigger] cs[i]) && !(cs[i] is And) && (in_or
            ==> !(cs[i] is Or)) by {
            if i < cs.len() - 1 {
                assert(cs[i] == cs.drop_last()[i]);
            }
        }
    }
}

/// Adding one more operand to a conjunction or disjunction.
proof fn lemma_join_step(cs: Seq<QueryTree>, in_or: bool, k: int)
    requires
        0 <= k < cs.len(),
    ensures
        join_toks(cs.take(k + 1), in_or) == join_toks(cs.take(k), in_or) + (if in_or && k > 0 {
            seq![Tok::Or]
        } else {
            Seq::empty()
        }) + tree_toks(cs[k]),
{
    let c = cs.take(k + 1);
    assert(c.drop_last() =~= cs.take(k));
    assert(c.last() == cs[k]);
    if k == 0 {
        assert(cs.take(0) =~= Seq::<QueryTree>::empty());
        assert(join_toks(cs.take(0), in_or) =~= Seq::<Tok>::empty());
        assert(join_toks(c, in_or) == tree_toks(c[0]));
        assert(join_toks(c, in_or) =~= join_toks(cs.take(k), in_or) + Seq::<Tok>::empty() + tree_toks(cs[k]));
    }
}

/// The tokens of the first operands are a prefix of the tokens of all.
proof fn lemma_join_prefix(cs: Seq<QueryTree>, in_or: bool, k: int)
    requires
        0 <= k <= cs.len(),
    ensures
        join_toks(cs.take(k), in_or).len() <= join_toks(cs, in_or).len(),
        forall|m: int|
            0 <= m < join_toks(cs.take(k), in_or).len() ==> #[trigger] join_toks(cs, in_or)[m] == join_toks(
                cs.take(k),
                in_or,
            )[m],
    decreases cs.len(),
{
    if k == cs.len() {
        assert(cs.take(k) =~= cs);
    } else {
        let pre = cs.drop_last();
        assert(pre.take(k) =~= cs.take(k));
        lemma_join_prefix(pre, in_or, k);
        if cs.len() == 1 {
            assert(cs.take(k) =~= Seq::<QueryTree>::empty());
        } else {
            let sepk: Seq<Tok> = if in_or {
                seq![Tok::Or]
            } else {
                Seq::empty()
            };
            assert(join_toks(cs, in_or) == join_toks(pre, in_or) + sepk + tree_toks(cs.last()));
            assert forall|m: int| 0 <= m < join_toks(cs.take(k), in_or).len() implies #[trigger] join_toks(
                cs,
                in_or,
            )[m] == join_toks(cs.take(k), in_or)[m] by {
                assert(join_toks(cs, in_or)[m] == join_toks(pre, in_or)[m]);
                assert(join_toks(pre, in_or)[m] == join_toks(pre.take(k), in_or)[m]);
            }
        }
    }
}

/// The tokens of a well-formed tree are not empty and begin an expression.
proof fn lemma_first_tok(x: QueryTree)
    requires
        wf(x),
    ensures
        tree_toks(x).len() >= 1,
        starts_expr(tree_toks(x)[0]),
    decreases x,
{
    match x {
        QueryTree::Not(inner) => {
            assert(tree_toks(x)[0] == Tok::Negation);
        },
        QueryTree::Group(g) => {
            assert(tree_toks(x)[0] == Tok::OpenParen);
        },
        QueryTree::And(cs) => {
            lemma_first_of_join(cs, false);
        },
        QueryTree::Or(cs) => {
            lemma_first_of_join(cs, true);
        },
        _ => {},
    }
}

proof fn lemma_first_of_join(cs: Seq<QueryTree>, in_or: bool)
    requires
        cs.len() >= 1,
        wf_all(cs, in_or),
    ensures
        join_toks(cs, in_or).len() >= 1,
        starts_expr(join_toks(cs, in_or)[0]),
    decreases cs,
{
    lemma_wf_all_index(cs, in_or);
    lemma_first_tok(cs[0]);
    lemma_join_prefix(cs, in_or, 1);
    lemma_join_step(cs, in_or, 0);
    assert(join_toks(cs.take(1), in_or) =~= tree_toks(cs[0]));
    assert(join_toks(cs, in_or)[0] == join_toks(cs.take(1), in_or)[0]);
}

/// A single expression is parsed from its tokens.
proof fn lemma_parse_single(x: QueryTree, t: Seq<PosTok>, pos: int)
    requires
        wf(x),
        !(x is And),
        !(x is Or),
        toks_at(t, tree_toks(x), pos),
    ensures
        p_single(t, pos) == Ok::<(QueryTree, int), crate::scrub::query::ParseFailure>(
            (x, pos + tree_toks(x).len()),
        ),
    decreases x, 0int, 0int,
{
    match x {
        QueryTree::Term(w) => {
            assert(t[pos + 0].tok == tree_toks(x)[0]);
        },
        QueryTree::Quoted(q) => {
            assert(t[pos + 0].tok == tree_toks(x)[0]);
        },
        QueryTree::Operator { key, value, negated } => {
            assert(t[pos + 0].tok == tree_toks(x)[0]);
        },
        QueryTree::Not(inner) => {
            lemma_toks_split(t, seq![Tok::Negation], tree_toks(*inner), pos);
            assert(t[pos + 0].tok == seq![Tok::Negation][0]);
            match *inner {
                QueryTree::Term(w) => {
                    assert(t[pos + 1 + 0].tok == tree_toks(*inner)[0]);
                    assert(p_single(t, pos + 1) == Ok::<(QueryTree, int), crate::scrub::query::ParseFailure>(
                        (*inner, pos + 2),
                    ));
                },
                QueryTree::Quoted(q) => {
                    assert(t[pos + 1 + 0].tok == tree_toks(*inner)[0]);
                    assert(p_single(t, pos + 1) == Ok::<(QueryTree, int), crate::scrub::query::ParseFailure>(
                        (*inner, pos + 2),
                    ));
                },
                QueryTree::Group(g) => {
                    lemma_parse_single(*inner, t, pos + 1);
                },
                _ => {},
            }
        },
        QueryTree::Group(g) => {
            let inner_toks = tree_toks(*g);
            lemma_toks_split(t, seq![Tok::OpenParen] + inner_toks, seq![Tok::CloseParen], pos);
            lemma_toks_split(t, seq![Tok::OpenParen], inner_toks, pos);
            assert(t[pos + 0].tok == seq![Tok::OpenParen][0]);
            lemma_first_tok(*g);
            assert(t[pos + 1 + 0].tok == inner_toks[0]);
            let c = pos + 1 + inner_toks.len();
            assert(t[c + 0].tok == seq![Tok::CloseParen][0]);
            lemma_parse_query(*g, t, pos + 1);
        },
        _ => {},
    }
}

/// An expression with its optional `OR` chain is parsed from its tokens,
/// when no `OR` follows them.
proof fn lemma_parse_or(x: QueryTree, t: Seq<PosTok>, pos: int)
    requires
        wf(x),
        !(x is And),
        toks_at(t, tree_toks(x), pos),
        pos + tree_toks(x).len() == t.len() || !(t[pos + tree_toks(x).len()].tok is Or),
    ensures
        p_or(t, pos) == Ok::<(QueryTree, int), crate::scrub::query::ParseFailure>((x, pos + tree_toks(x).len())),
    decreases x, 1int, 0int,
{
    match x {
        QueryTree::Or(cs) => {
            lemma_wf_all_index(cs, true);
            lemma_join_prefix(cs, true, 2);
            lemma_join_step(cs, true, 0);
            lemma_join_step(cs, true, 1);
            let j1 = join_toks(cs.take(1), true);
            let j2 = join_toks(cs.take(2), true);
            lemma_toks_prefix(t, tree_toks(x), j2, pos);
            lemma_toks_split(t, j1 + seq![Tok::Or], tree_toks(cs[1]), pos);
            lemma_toks_split(t, j1, seq![Tok::Or], pos);
            assert(j1 =~= Seq::<Tok>::empty() + Seq::<Tok>::empty() + tree_toks(cs[0]));
            lemma_parse_single(cs[0], t, pos);
            assert(t[pos + j1.len() + 0].tok == seq![Tok::Or][0]);
            lemma_first_tok(cs[0]);
            assert(seq![cs[0]] =~= cs.take(1));
            lemma_or_chain(x, cs, t, pos, 1);
        },
        _ => {
            lemma_parse_single(x, t, pos);
        },
    }
}

proof fn lemma_or_chain(x: QueryTree, cs: Seq<QueryTree>, t: Seq<PosTok>, pos: int, k: int)
    requires
        x == QueryTree::Or(cs),
        wf(x),
        toks_at(t, tree_toks(x), pos),
        pos + tree_toks(x).len() == t.len() || !(t[pos + tree_toks(x).len()].tok is Or),
        1 <= k <= cs.len(),
    ensures
        p_or_chain(t, pos + join_toks(cs.take(k), true).len(), cs.take(k)) == Ok::<
            (QueryTree, int),
            crate::scrub::query::ParseFailure,
        >((x, pos + tree_toks(x).len())),
    decreases x, 0int, cs.len() - k,
{
    let p = pos + join_toks(cs.take(k), true).len();
    lemma_wf_all_index(cs, true);
    if k == cs.len() {
        assert(cs.take(k) =~= cs);
    } else {
        lemma_join_prefix(cs, true, k + 1);
        lemma_join_step(cs, true, k);
        let jk = join_toks(cs.take(k), true);
        let j1 = join_toks(cs.take(k + 1), true);
        lemma_toks_prefix(t, tree_toks(x), j1, pos);
        lemma_toks_split(t, jk + seq![Tok::Or], tree_toks(cs[k]), pos);
        lemma_toks_split(t, jk, seq![Tok::Or], pos);
        assert(t[p + 0].tok == seq![Tok::Or][0]);
        lemma_first_tok(cs[k]);
        assert(t[p + 1 + 0].tok == tree_toks(cs[k])[0]);
        lemma_parse_single(cs[k], t, p + 1);
        assert(cs.take(k).push(cs[k]) =~= cs.take(k + 1));
        lemma_or_chain(x, cs, t, pos, k + 1);
    }
}

/// A whole query is parsed from its tokens when they are followed by the
/// end or a closing delimiter.
proof fn lemma_parse_query(x: QueryTree, t: Seq<PosTok>, pos: int)
    requires
        wf(x),
        toks_at(t, tree_toks(x), pos),
        pos + tree_toks(x).len() == t.len() || is_close(t, pos + tree_toks(x).len()),
    ensures
        p_query(t, pos, Seq::empty()) == Ok::<(QueryTree, int), crate::scrub::query::ParseFailure>(
            (x, pos + tree_toks(x).len()),
        ),
    decreases x, 2int, 0int,
{
    match x {
        QueryTree::And(cs) => {
            assert(cs.take(0) =~= Seq::<QueryTree>::empty());
            assert(join_toks(cs.take(0), false) =~= Seq::<Tok>::empty());
            lemma_and_chain(x, cs, t, pos, 0);
        },
        _ => {
            lemma_first_tok(x);
            assert(t[pos + 0].tok == tree_toks(x)[0]);
            lemma_parse_or(x, t, pos);
            let n = tree_toks(x).len();
            assert(Seq::<QueryTree>::empty().push(x) =~= seq![x]);
            assert(p_query(t, pos + n, seq![x]) == finish_seq(seq![x], pos + n));
        },
    }
}

proof fn lemma_and_chain(x: QueryTree, cs: Seq<QueryTree>, t: Seq<PosTok>, pos: int, k: int)
    requires
        x == QueryTree::And(cs),
        wf(x),
        toks_at(t, tree_toks(x), pos),
        pos + tree_toks(x).len() == t.len() || is_close(t, pos + tree_toks(x).len()),
        0 <= k <= cs.len(),
    ensures
        p_query(t, pos + join_toks(cs.take(k), false).len(), cs.take(k)) == Ok::<
            (QueryTree, int),
            crate::scrub::query::ParseFailure,
        >((x, pos + tree_toks(x).len())),
    decreases x, 1int, cs.len() - k,
{
    let p = pos + join_toks(cs.take(k), false).len();
    lemma_wf_all_index(cs, false);
    if k == cs.len() {
        assert(cs.take(k) =~= cs);
    } else {
        lemma_join_prefix(cs, false, k + 1);
        lemma_join_step(cs, false, k);
        let jk = join_toks(cs.take(k), false);
        let j1 = join_toks(cs.take(k + 1), false);
        assert(j1 =~= jk + tree_toks(cs[k]));
        lemma_toks_prefix(t, tree_toks(x), j1, pos);
        lemma_toks_split(t, jk, tree_toks(cs[k]), pos);
        lemma_first_tok(cs[k]);
        assert(t[p + 0].tok == tree_toks(cs[k])[0]);
        let q = pos + j1.len();
        if k + 1 < cs.len() {
            lemma_join_prefix(cs, false, k + 2);
            lemma_join_step(cs, false, k + 1);
            let j2 = join_toks(cs.take(k + 2), false);
            assert(j2 =~= j1 + tree_toks(cs[k + 1]));
            lemma_toks_prefix(t, tree_toks(x), j2, pos);
            lemma_toks_split(t, j1, tree_toks(cs[k + 1]), pos);
            lemma_first_tok(cs[k + 1]);
            assert(t[q + 0].tok == tree_toks(cs[k + 1])[0]);
        } else {
            assert(cs.take(k + 1) =~= cs);
        }
        lemma_parse_or(cs[k], t, p);
        assert(cs.take(k).push(cs[k]) =~= cs.take(k + 1));
        lemma_and_chain(x, cs, t, pos, k + 1);
    }
}

proof fn lemma_blank_has_no_tokens(s: Seq<char>, i: int)
    requires
        0 <= i,
        forall|k: int| 0 <= k < s.len() ==> is_ws(#[trigger] s[k]),
    ensures
        tokens_from(s, i) == Seq::<PosTok>::empty(),
    decreases s.len() - i,
{
    if i < s.len() {
        lemma_blank_has_no_tokens(s, i + 1);
    }
}

/// The tokens of `text`, read by the parser from the first to the last,
/// form the tree `t` (the parse without its length limit and blank check).
pub open spec fn tokens_read_as(text: Seq<char>, t: QueryTree) -> bool {
    p_query(spec_tokenize(text), 0, Seq::empty()) == Ok::<(QueryTree, int), crate::scrub::query::ParseFailure>(
        (t, spec_tokenize(text).len() as int),
    )
}

/// `text` reads as `t`: its tokens form `t` whatever its length, and the
/// whole parse gives `t` when it is within the length limit.
pub open spec fn reads_as(text: Seq<char>, t: QueryTree) -> bool {
    &&& tokens_read_as(text, t)
    &&& (byte_len(text) <= MAX_QUERY_LENGTH ==> spec_parse(text) == Ok::<
        QueryTree,
        crate::scrub::query::ParseFailure,
    >(t))
}

/// Reconstruction is undone by parsing: the text of a well-formed tree
/// (one in the shape the parser builds, whose words, quoted texts and
/// operator values read back unchanged) reads back as the same tree.
pub proof fn law_reconstruct_reparses(t: QueryTree)
    requires
        wf(t),
    ensures
        reads_as(recon(t), t),
{
    let s = recon(t);
    let ts = spec_tokenize(s);
    assert(at(s, s, 0));
    lemma_tokens_of_tree(t, s, 0);
    assert(tokens_from(s, s.len() as int) == Seq::<PosTok>::empty());
    assert(kinds(Seq::<PosTok>::empty()) =~= Seq::<Tok>::empty());
    assert(kinds(ts) == tree_toks(t));
    assert forall|k: int| 0 <= k < tree_toks(t).len() implies ts[0 + k].tok == #[trigger] tree_toks(t)[k] by {
        assert(kinds(ts)[k] == ts[k].tok);
    }
    lemma_first_tok(t);
    if crate::scrub::query::all_ws(s) {
        lemma_blank_has_no_tokens(s, 0);
        assert(false);
    }
    lemma_parse_query(t, ts, 0);
}

// ---------------------------------------------------------------------------
// The trees the parser builds
// ---------------------------------------------------------------------------

/// A tree in the shape the parser builds (as `wf`, but operator values
/// are only required to be non-empty).
pub open spec fn shaped(t: QueryTree) -> bool
    decreases t,
{
    match t {
        QueryTree::Term(w) => bare_word(w),
        QueryTree::Quoted(q) => lacks(q, '"'),
        QueryTree::Operator { key, value, negated } => key_ok(key, negated) && value.len() > 0 && lacks(
            value,
            '"',
        ),
        QueryTree::Not(inner) => match *inner {
            QueryTree::Term(w) => negated_word(w),
            QueryTree::Quoted(q) => lacks(q, '"'),
            QueryTree::Group(g) => shaped(*g),
            _ => false,
        },
        QueryTree::Group(g) => shaped(*g),
        QueryTree::Or(cs) => cs.len() >= 2 && shaped_all(cs, true),
        QueryTree::And(cs) => cs.len() >= 2 && shaped_all(cs, false),
    }
}

pub open spec fn shaped_all(cs: Seq<QueryTree>, in_or: bool) -> bool
    decreases cs,
{
    if cs.len() == 0 {
        true
    } else {
        &&& shaped_all(cs.drop_last(), in_or)
        &&& shaped(cs.last())
        &&& !(cs.last() is And)
        &&& (in_or ==> !(cs.last() is Or))
    }
}

/// No whitespace and no parenthesis or brace.
pub open spec fn free_of_delimiters(v: Seq<char>) -> bool {
    forall|k: int|
        0 <= k < v.len() ==> !is_ws(#[trigger] v[k]) && v[k] != '(' && v[k] != ')' && v[k] != '{' && v[k] != '}'
}

/// An operator value that the reconstruction writes so that it reads back:
/// one with a space (written in quotes), or one without whitespace,
/// parentheses or braces (written bare).
pub open spec fn readable_value(v: Seq<char>) -> bool {
    v.contains(' ') || free_of_delimiters(v)
}

/// Every operator value in the tree is a readable one.
pub open spec fn values_readable(t: QueryTree) -> bool
    decreases t,
{
    match t {
        QueryTree::Operator { value, .. } => readable_value(value),
        QueryTree::Not(inner) => values_readable(*inner),
        QueryTree::Group(g) => values_readable(*g),
        QueryTree::And(cs) => values_readable_all(cs),
        QueryTree::Or(cs) => values_readable_all(cs),
        _ => true,
    }
}

pub open spec fn values_readable_all(cs: Seq<QueryTree>) -> bool
    decreases cs,
{
    if cs.len() == 0 {
        true
    } else {
        values_readable_all(cs.drop_last()) && values_readable(cs.last())
    }
}

proof fn lemma_wf_of_shaped(t: QueryTree)
    requires
        shaped(t),
        values_readable(t),
    ensures
        wf(t),
    decreases t,
{
    match t {
        QueryTree::Not(inner) => match *inner {
            QueryTree::Group(g) => {
                assert(values_readable(*inner));
                lemma_wf_of_shaped(*g);
            },
            _ => {},
        },
        QueryTree::Group(g) => {
            lemma_wf_of_shaped(*g);
        },
        QueryTree::And(cs) => {
            lemma_wf_all_of_shaped(cs, false);
        },
        QueryTree::Or(cs) => {
            lemma_wf_all_of_shaped(cs, true);
        },
        QueryTree::Operator { key, value, negated } => {
            if !value.contains(' ') {
                assert forall|k: int| 0 <= k < value.len() implies !is_stop(#[trigger] value[k]) by {
                    assert(value[k] != '"');
                }
            }
        },
        _ => {},
    }
}

proof fn lemma_wf_all_of_shaped(cs: Seq<QueryTree>, in_or: bool)
    requires
        shaped_all(cs, in_or),
        values_readable_all(cs),
    ensures
        wf_all(cs, in_or),
    decreases cs,
{
    if cs.len() > 0 {
        lemma_wf_all_of_shaped(cs.drop_last(), in_or);
        lemma_wf_of_shaped(cs.last());
    }
}

/// The kind of the `k`-th token.
pub open spec fn nth(ts: Seq<PosTok>, k: int) -> Tok {
    ts[k].tok
}

/// A token as the tokenizer makes it: words without delimiters or colons,
/// quoted texts without quotes, operator keys as `key_ok` says.
pub open spec fn tok_ok(k: Tok) -> bool {
    match k {
        Tok::Word(w) => negated_word(w),
        Tok::Quoted(q) => lacks(q, '"'),
        Tok::Operator(key, value, negated) => key_ok(key, negated) && lacks(value, '"'),
        _ => true,
    }
}

/// A word token, if it is one, is a bare word.
pub open spec fn bare_if_word(k: Tok) -> bool {
    match k {
        Tok::Word(w) => bare_word(w),
        _ => true,
    }
}

/// What may follow a negation.
pub open spec fn follows_negation(k: Tok) -> bool {
    k is Quoted || k is OpenParen || k is OpenBrace || k is Word
}

/// The token sequences the tokenizer produces: every token well made, a
/// word not preceded by a negation is bare, and a negation is always
/// followed by a quoted text, a group or a word.
pub open spec fn toks_ok(ts: Seq<PosTok>) -> bool {
    &&& forall|k: int| 0 <= k < ts.len() ==> tok_ok(#[trigger] nth(ts, k))
    &&& (ts.len() > 0 ==> bare_if_word(ts[0].tok))
    &&& forall|k: int| 1 <= k < ts.len() && !(ts[k - 1].tok is Negation) ==> bare_if_word(#[trigger] nth(ts, k))
    &&& forall|k: int|
        0 <= k < ts.len() && (#[trigger] nth(ts, k)) is Negation ==> k + 1 < ts.len() && follows_negation(
            ts[k + 1].tok,
        )
}

/// The tokens of one scanning step.
proof fn lemma_step_toks(s: Seq<char>, i: int)
    requires
        0 <= i < s.len(),
        !is_ws(s[i]),
    ensures
        ({
            let a = step(s, i).0;
            &&& a.len() >= 1
            &&& forall|k: int| 0 <= k < a.len() ==> tok_ok(#[trigger] a[k].tok)
            &&& bare_if_word(a[0].tok)
            &&& forall|k: int|
                1 <= k < a.len() && !(a[k - 1].tok is Negation) ==> bare_if_word(#[trigger] a[k].tok)
            &&& forall|k: int|
                0 <= k < a.len() - 1 && (#[trigger] a[k].tok) is Negation ==> follows_negation(a[k + 1].tok)
            &&& (a.last().tok is Negation ==> step(s, i).1 < s.len() && (s[step(s, i).1] == '(' || s[step(
                s,
                i,
            ).1] == '{'))
        }),
{
    lemma_step_bounds(s, i);
    lemma_quote_end(s, i + 1);
    let c = s[i];
    if c == '(' || c == ')' || c == '{' || c == '}' {
    } else if c == '"' {
        let q = s.subrange(i + 1, quote_end(s, i + 1));
        assert forall|k: int| 0 <= k < q.len() implies #[trigger] q[k] != '"' by {
            assert(s[i + 1 + k] != '"');
        }
    } else if c == '-' {
        if negates_next(s, i) {
            let j = i + 1;
            lemma_quote_end(s, j + 1);
            if s[j] == '"' {
                let q = s.subrange(j + 1, quote_end(s, j + 1));
                assert forall|k: int| 0 <= k < q.len() implies #[trigger] q[k] != '"' by {
                    assert(s[j + 1 + k] != '"');
                }
            } else if s[j] == '(' || s[j] == '{' {
            } else {
                lemma_scan_word_toks(s, j, i, true);
            }
        } else {
            assert(seq!['-'][0] == '-');
        }
    } else {
        lemma_scan_word_toks(s, i, i, false);
    }
}

/// The tokens of a word scan.
proof fn lemma_scan_word_toks(s: Seq<char>, i: int, start: int, negated: bool)
    requires
        0 <= i < s.len(),
        !is_stop(s[i]),
        !negated ==> s[i] != '-',
    ensures
        ({
            let a = scan_word(s, i, start, negated).0;
            &&& a.len() >= 1
            &&& forall|k: int| 0 <= k < a.len() ==> tok_ok(#[trigger] a[k].tok)
            &&& (!negated ==> a.len() == 1 && bare_if_word(a[0].tok))
            &&& (negated ==> (a.len() == 1 && a[0].tok is Operator) || (a.len() == 2 && a[0].tok is Negation
                && a[1].tok is Word))
        }),
{
    lemma_word_end(s, i);
    let e = word_end(s, i);
    let w = s.subrange(i, e);
    assert(w.len() > 0);
    assert forall|k: int| 0 <= k < w.len() implies !is_stop(#[trigger] w[k]) by {
        assert(w[k] == s[i + k]);
    }
    lemma_index_of(w, ':', 0);
    let k = index_of(w, ':', 0);
    if k < w.len() {
        let key = w.subrange(0, k);
        assert forall|m: int| 0 <= m < key.len() implies !is_stop(#[trigger] key[m]) by {
            assert(key[m] == w[m]);
        }
        assert forall|m: int| 0 <= m < key.len() implies #[trigger] key[m] != ':' by {
            assert(key[m] == w[m]);
        }
        if !negated && key.len() > 0 {
            assert(key[0] == s[i]);
        }
        let val = w.subrange(k + 1, w.len() as int);
        assert forall|m: int| 0 <= m < val.len() implies #[trigger] val[m] != '"' by {
            assert(val[m] == w[k + 1 + m]);
        }
        if val.len() == 0 && e < s.len() && s[e] == '"' {
            lemma_quote_end(s, e + 1);
            let qv = s.subrange(e + 1, quote_end(s, e + 1));
            assert forall|m: int| 0 <= m < qv.len() implies #[trigger] qv[m] != '"' by {
                assert(qv[m] == s[e + 1 + m]);
            }
        }
        assert(Seq::<char>::empty().len() == 0);
    } else {
        assert forall|m: int| 0 <= m < w.len() implies #[trigger] w[m] != ':' by {}
        if !negated {
            assert(w[0] == s[i]);
        }
    }
}

/// Every token sequence the tokenizer produces satisfies `toks_ok`.
proof fn lemma_tokens_ok(s: Seq<char>, i: int)
    requires
        0 <= i,
    ensures
        toks_ok(tokens_from(s, i)),
    decreases s.len() - i,
{
    if i < s.len() {
        if is_ws(s[i]) {
            lemma_tokens_ok(s, i + 1);
        } else {
            lemma_step_bounds(s, i);
            lemma_step_toks(s, i);
            let a = step(s, i).0;
            let j = step(s, i).1;
            let b = tokens_from(s, j);
            lemma_tokens_ok(s, j);
            let ts = a + b;
            assert(tokens_from(s, i) == ts);
            if a.last().tok is Negation {
                lemma_step_bounds(s, j);
                assert(b[0].tok == step(s, j).0[0].tok);
            }
            assert forall|k: int| 0 <= k < ts.len() implies tok_ok(#[trigger] nth(ts, k)) by {
                if k < a.len() {
                    assert(ts[k] == a[k]);
                } else {
                    assert(ts[k] == b[k - a.len()]);
                    assert(tok_ok(nth(b, k - a.len())));
                }
            }
            assert(ts[0] == a[0]);
            assert forall|k: int| 1 <= k < ts.len() && !(ts[k - 1].tok is Negation) implies bare_if_word(
                #[trigger] nth(ts, k),
            ) by {
                if k < a.len() {
                    assert(ts[k] == a[k]);
                    assert(ts[k - 1] == a[k - 1]);
                } else if k == a.len() {
                    assert(ts[k] == b[0]);
                } else {
                    assert(ts[k] == b[k - a.len()]);
                    assert(ts[k - 1] == b[k - a.len() - 1]);
                    assert(bare_if_word(nth(b, k - a.len())));
                }
            }
            assert forall|k: int| 0 <= k < ts.len() && (#[trigger] nth(ts, k)) is Negation implies k + 1
                < ts.len() && follows_negation(ts[k + 1].tok) by {
                if k < a.len() - 1 {
                    assert(ts[k] == a[k]);
                    assert(ts[k + 1] == a[k + 1]);
                } else if k == a.len() - 1 {
                    assert(ts[k] == a[k]);
                    assert(ts[k + 1] == b[0]);
                } else {
                    assert(ts[k] == b[k - a.len()]);
                    assert(nth(b, k - a.len()) is Negation);
                    assert(ts[k + 1] == b[k - a.len() + 1]);
                }
            }
        }
    }
}

/// Whether the token at `pos` (if any) is not a word or is a bare one.
pub open spec fn word_ok(t: Seq<PosTok>, pos: int) -> bool {
    0 <= pos < t.len() ==> bare_if_word(t[pos].tok)
}

/// After a token that is not a negation, a word is bare.
proof fn lemma_word_ok_after(t: Seq<PosTok>, pos: int)
    requires
        toks_ok(t),
        0 <= pos,
        pos == 0 || (pos <= t.len() && !(t[pos - 1].tok is Negation)),
    ensures
        word_ok(t, pos),
{
    if 0 < pos < t.len() {
        assert(bare_if_word(nth(t, pos)));
    }
}

/// A single expression the parser reads is shaped, and does not end on a
/// negation.
proof fn lemma_single_shaped(t: Seq<PosTok>, pos: int)
    requires
        toks_ok(t),
        0 <= pos,
        word_ok(t, pos),
        p_single(t, pos) is Ok,
    ensures
        ({
            let (x, q) = p_single(t, pos)->Ok_0;
            &&& shaped(x)
            &&& !(x is And)
            &&& !(x is Or)
            &&& pos < q <= t.len()
            &&& !(t[q - 1].tok is Negation)
        }),
    decreases t.len() - pos, 0int,
{
    assert(tok_ok(nth(t, pos)));
    match t[pos].tok {
        Tok::OpenParen => {
            lemma_word_ok_after(t, pos + 1);
            lemma_query_shaped(t, pos + 1, Seq::empty());
        },
        Tok::OpenBrace => {
            lemma_word_ok_after(t, pos + 1);
            lemma_query_shaped(t, pos + 1, Seq::empty());
        },
        Tok::Negation => {
            assert(nth(t, pos) is Negation);
            assert(follows_negation(t[pos + 1].tok));
            assert(tok_ok(nth(t, pos + 1)));
            match t[pos + 1].tok {
                Tok::OpenParen => {
                    lemma_single_shaped(t, pos + 1);
                },
                Tok::OpenBrace => {
                    lemma_single_shaped(t, pos + 1);
                },
                _ => {},
            }
        },
        _ => {},
    }
}

/// An expression with its `OR` chain, as the parser reads it, is shaped
/// and not a conjunction.
proof fn lemma_or_shaped(t: Seq<PosTok>, pos: int)
    requires
        toks_ok(t),
        0 <= pos,
        word_ok(t, pos),
        p_or(t, pos) is Ok,
    ensures
        ({
            let (x, q) = p_or(t, pos)->Ok_0;
            &&& shaped(x)
            &&& !(x is And)
            &&& pos < q <= t.len()
            &&& !(t[q - 1].tok is Negation)
        }),
    decreases t.len() - pos, 2int,
{
    lemma_single_shaped(t, pos);
    let (left, p1) = p_single(t, pos)->Ok_0;
    if is_or(t, p1) {
        assert(seq![left].drop_last() =~= Seq::<QueryTree>::empty());
        assert(shaped_all(Seq::<QueryTree>::empty(), true));
        assert(seq![left].last() == left);
        assert(shaped_all(seq![left], true));
        lemma_chain_shaped(t, p1, seq![left]);
    }
}

proof fn lemma_chain_shaped(t: Seq<PosTok>, p: int, children: Seq<QueryTree>)
    requires
        toks_ok(t),
        1 <= p <= t.len(),
        !(t[p - 1].tok is Negation),
        children.len() >= 1,
        shaped_all(children, true),
        children.len() >= 2 || is_or(t, p),
        p_or_chain(t, p, children) is Ok,
    ensures
        ({
            let (x, q) = p_or_chain(t, p, children)->Ok_0;
            &&& shaped(x)
            &&& x is Or
            &&& p <= q <= t.len()
            &&& !(t[q - 1].tok is Negation)
        }),
    decreases t.len() - p, 1int,
{
    if is_or(t, p) {
        lemma_word_ok_after(t, p + 1);
        lemma_single_shaped(t, p + 1);
        let (right, q) = p_single(t, p + 1)->Ok_0;
        assert(children.push(right).drop_last() =~= children);
        lemma_chain_shaped(t, q, children.push(right));
    }
}

/// A query the parser reads (after the expressions `acc` already read) is
/// shaped.
proof fn lemma_query_shaped(t: Seq<PosTok>, pos: int, acc: Seq<QueryTree>)
    requires
        toks_ok(t),
        0 <= pos <= t.len(),
        word_ok(t, pos),
        pos == 0 || !(t[pos - 1].tok is Negation),
        shaped_all(acc, false),
        p_query(t, pos, acc) is Ok,
    ensures
        ({
            let (x, q) = p_query(t, pos, acc)->Ok_0;
            &&& shaped(x)
            &&& pos <= q <= t.len()
        }),
    decreases t.len() - pos, 3int,
{
    if pos < t.len() && !is_close(t, pos) {
        lemma_or_shaped(t, pos);
        let (node, p2) = p_or(t, pos)->Ok_0;
        assert(acc.push(node).drop_last() =~= acc);
        lemma_word_ok_after(t, p2);
        lemma_query_shaped(t, p2, acc.push(node));
    } else {
        if acc.len() == 1 {
            assert(acc.drop_last().len() == 0);
            assert(acc[0] == acc.last());
        }
    }
}

/// Parsing a reconstructed query gives back the parsed query: when `s`
/// parses to `t`, the text of `t` parses to `t` again, unless an operator
/// value holds whitespace, a parenthesis or a brace but no space (such a
/// value, given in quotes, is written without them and reads differently).
/// The tokens of the text read as `t` at any length; the whole parse gives
/// `t` when the text is within the length limit (which it can exceed, as
/// when an unterminated quote is closed). A parsed value never holds a
/// double quote, so nothing more is assumed of the values.
pub proof fn law_parse_reconstruct_roundtrip(s: Seq<char>, t: QueryTree)
    requires
        spec_parse(s) == Ok::<QueryTree, crate::scrub::query::ParseFailure>(t),
        values_readable(t),
    ensures
        reads_as(recon(t), t),
{
    let ts = spec_tokenize(s);
    lemma_tokens_ok(s, 0);
    lemma_word_ok_after(ts, 0);
    assert(shaped_all(Seq::<QueryTree>::empty(), false));
    lemma_query_shaped(ts, 0, Seq::empty());
    lemma_wf_of_shaped(t);
    law_reconstruct_reparses(t);
}

// ---------------------------------------------------------------------------
// The query sent to Gmail
// ---------------------------------------------------------------------------

/// The tree of the query sent to Gmail: the agent's query as a group,
/// and the negated `label:` operator of the blocked label.
pub open spec fn secured_tree(t: QueryTree, label: Seq<char>) -> QueryTree {
    QueryTree::And(
        seq![
            QueryTree::Group(Box::new(t)),
            QueryTree::Operator { key: "label"@, value: label, negated: true },
        ],
    )
}

proof fn lemma_secure_text_is_recon(t: QueryTree, label: Seq<char>)
    requires
        plain(label),
    ensures
        secure_text(t, label) == recon(secured_tree(t, label)),
{
    reveal_strlit("(");
    reveal_strlit(")");
    reveal_strlit(" ");
    reveal_strlit("-");
    reveal_strlit(":");
    reveal_strlit("label");
    reveal_strlit(") -label:");
    let g = QueryTree::Group(Box::new(t));
    let op = QueryTree::Operator { key: "label"@, value: label, negated: true };
    let cs = seq![g, op];
    if label.contains(' ') {
        let k = choose|k: int| 0 <= k < label.len() && label[k] == ' ';
        assert(!is_stop(label[k]));
    }
    assert(recon(op) == "-"@ + "label"@ + ":"@ + label);
    assert(cs.drop_last() =~= seq![g]);
    assert(recon_join(seq![g], " "@) == recon(g));
    assert(recon_join(cs, " "@) == recon_join(seq![g], " "@) + " "@ + recon(op));
    assert(secure_text(t, label) =~= recon(secured_tree(t, label)));
}

/// The label exclusion is structural: the query sent to Gmail for a
/// well-formed tree parses as the conjunction of the tree, grouped, and
/// the negated `label:` operator, whatever the tree holds (for a label
/// name without delimiters): its tokens read so at any length, and the
/// whole parse gives it within the length limit.
pub proof fn law_secure_query_structure(t: QueryTree, label: Seq<char>)
    requires
        wf(t),
        label.len() > 0,
        plain(label),
    ensures
        reads_as(secure_text(t, label), secured_tree(t, label)),
{
    reveal_strlit("label");
    lemma_secure_text_is_recon(t, label);
    let g = QueryTree::Group(Box::new(t));
    let op = QueryTree::Operator { key: "label"@, value: label, negated: true };
    let cs = seq![g, op];
    if label.contains(' ') {
        let k = choose|k: int| 0 <= k < label.len() && label[k] == ' ';
        assert(!is_stop(label[k]));
    }
    assert(cs.drop_last() =~= seq![g]);
    assert(seq![g].drop_last() =~= Seq::<QueryTree>::empty());
    assert(wf_all(Seq::<QueryTree>::empty(), false));
    assert(seq![g].last() == g);
    assert(wf(g));
    assert(wf_all(seq![g], false));
    let key = "label"@;
    assert(key =~= seq!['l', 'a', 'b', 'e', 'l']);
    assert(plain(key));
    assert(lacks(key, ':'));
    assert(faithful_value(label));
    assert(wf(op));
    assert(cs.last() == op);
    assert(wf_all(cs, false));
    law_reconstruct_reparses(secured_tree(t, label));
}

/// What a parsed agent query becomes on its way to Gmail keeps the label
/// exclusion outside of it: when `s` parses to `t`, the secured text of
/// `t` parses as the conjunction of `t`, grouped, and the negated
/// `label:` operator (for operator values as in the round trip and a
/// label name without delimiters; at any length for the tokens, within
/// the length limit for the whole parse).
pub proof fn law_parsed_query_stays_excluded(s: Seq<char>, t: QueryTree, label: Seq<char>)
    requires
        spec_parse(s) == Ok::<QueryTree, crate::scrub::query::ParseFailure>(t),
        values_readable(t),
        label.len() > 0,
        plain(label),
    ensures
        reads_as(secure_text(t, label), secured_tree(t, label)),
{
    let ts = spec_tokenize(s);
    lemma_tokens_ok(s, 0);
    lemma_word_ok_after(ts, 0);
    assert(shaped_all(Seq::<QueryTree>::empty(), false));
    lemma_query_shaped(ts, 0, Seq::empty());
    lemma_wf_of_shaped(t);
    law_secure_query_structure(t, label);
}

} // verus!
