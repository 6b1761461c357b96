use vstd::prelude::*;
use vstd::string::*;
use vstd::utf8::encode_utf8;

use crate::scrub::tokenize::{toks_view, PosTok, PosToken, Tok, Token};
use crate::text::{
    char_is_whitespace, decimal, decimal_string, is_ws, join, join_strs, lowercase, str_eq, strs_view,
    to_lowercase,
};

pub use crate::scrub::tokenize::tokenize;

verus! {

/// AST node representing a parsed Gmail search query.
#[derive(Debug, PartialEq)]
pub enum QueryNode {
    And(Vec<QueryNode>),
    Or(Vec<QueryNode>),
    Not(Box<QueryNode>),
    Group(Box<QueryNode>),
    Operator { key: String, value: String, negated: bool },
    Term(String),
    Quoted(String),
}

/// The mathematical value of a query AST.
pub enum QueryTree {
    And(Seq<QueryTree>),
    Or(Seq<QueryTree>),
    Not(Box<QueryTree>),
    Group(Box<QueryTree>),
    Operator { key: Seq<char>, value: Seq<char>, negated: bool },
    Term(Seq<char>),
    Quoted(Seq<char>),
}

pub open spec fn node_tree(n: QueryNode) -> QueryTree
    decreases n,
{
    match n {
        QueryNode::And(v) => QueryTree::And(nodes_trees(v@)),
        QueryNode::Or(v) => QueryTree::Or(nodes_trees(v@)),
        QueryNode::Not(b) => QueryTree::Not(Box::new(node_tree(*b))),
        QueryNode::Group(b) => QueryTree::Group(Box::new(node_tree(*b))),
        QueryNode::Operator { key, value, negated } => QueryTree::Operator {
            key: key@,
            value: value@,
            negated,
        },
        QueryNode::Term(s) => QueryTree::Term(s@),
        QueryNode::Quoted(s) => QueryTree::Quoted(s@),
    }
}

pub open spec fn nodes_trees(s: Seq<QueryNode>) -> Seq<QueryTree>
    decreases s,
{
    if s.len() == 0 {
        Seq::empty()
    } else {
        nodes_trees(s.drop_last()).push(node_tree(s.last()))
    }
}

impl View for QueryNode {
    type V = QueryTree;

    open spec fn view(&self) -> QueryTree {
        node_tree(*self)
    }
}


fn clone_nodes(v: &Vec<QueryNode>) -> (r: Vec<QueryNode>)
    ensures
        nodes_trees(r@) == nodes_trees(v@),
    decreases v,
{
    let mut r: Vec<QueryNode> = Vec::new();
    let mut i: usize = 0;
    proof {
        lemma_nodes_trees_len(v@);
    }
    while i < v.len()
        invariant
            i <= v@.len(),
            nodes_trees(v@).len() == v@.len(),
            forall|k: int| 0 <= k < v@.len() ==> #[trigger] nodes_trees(v@)[k] == v@[k]@,
            nodes_trees(r@) == nodes_trees(v@).take(i as int),
        decreases v@.len() - i,
    {
        let c = clone_node(&v[i]);
        proof {
            lemma_nodes_trees_push(r@, c);
            assert(nodes_trees(v@).take(i + 1) =~= nodes_trees(v@).take(i as int).push(v@[i as int]@));
        }
        r.push(c);
        i = i + 1;
    }
    assert(nodes_trees(v@).take(v@.len() as int) =~= nodes_trees(v@));
    r
}

/// A copy of a query tree.
fn clone_node(n: &QueryNode) -> (r: QueryNode)
    ensures
        r@ == n@,
    decreases n,
{
    match n {
        QueryNode::And(v) => QueryNode::And(clone_nodes(v)),
        QueryNode::Or(v) => QueryNode::Or(clone_nodes(v)),
        QueryNode::Not(b) => QueryNode::Not(Box::new(clone_node(b))),
        QueryNode::Group(b) => QueryNode::Group(Box::new(clone_node(b))),
        QueryNode::Operator { key, value, negated } => QueryNode::Operator {
            key: key.clone(),
            value: value.clone(),
            negated: *negated,
        },
        QueryNode::Term(s) => QueryNode::Term(s.clone()),
        QueryNode::Quoted(s) => QueryNode::Quoted(s.clone()),
    }
}

impl Clone for QueryNode {
    fn clone(&self) -> (r: Self)
        ensures
            r@ == self@,
    {
        clone_node(self)
    }
}

/// Error returned when a query fails to parse or validate.
#[derive(Debug)]
pub struct QueryError {
    pub error: String,
    pub message: String,
    pub hint: String,
    pub position: Option<usize>,
    pub query: String,
}

/// The mathematical value of a `QueryError`.
pub struct QueryErrorView {
    pub error: Seq<char>,
    pub message: Seq<char>,
    pub hint: Seq<char>,
    pub position: Option<usize>,
    pub query: Seq<char>,
}

impl View for QueryError {
    type V = QueryErrorView;

    open spec fn view(&self) -> QueryErrorView {
        QueryErrorView {
            error: self.error@,
            message: self.message@,
            hint: self.hint@,
            position: self.position,
            query: self.query@,
        }
    }
}

impl QueryError {
    /// The human-readable message of the error (what its display shows).
    pub fn to_string(&self) -> (s: String)
        ensures
            s@ == self.message@,
    {
        self.message.clone()
    }
}

/// Maximum accepted query length, in bytes.
pub const MAX_QUERY_LENGTH: usize = 1000;

/// Why a query failed to parse; positions are character indices.
pub enum ParseFailure {
    TooLong,
    Empty,
    UnexpectedEnd,
    OrMissingRight(int),
    OrMissingLeft(int),
    EmptyParenGroup(int),
    EmptyBraceGroup(int),
    UnmatchedOpenParen(int),
    UnmatchedOpenBrace(int),
    UnmatchedCloseParen(int),
    UnmatchedCloseBrace(int),
    MissingValue(Seq<char>, int),
    TrailingToken(int),
}

pub open spec fn failure_message(f: ParseFailure) -> Seq<char> {
    match f {
        ParseFailure::TooLong => "Query exceeds maximum length"@,
        ParseFailure::Empty => "Empty query"@,
        ParseFailure::UnexpectedEnd => "Unexpected end of query"@,
        ParseFailure::OrMissingRight(_) => "OR requires expression on both sides"@,
        ParseFailure::OrMissingLeft(_) => "OR requires expression on both sides"@,
        ParseFailure::EmptyParenGroup(_) => "Empty group"@,
        ParseFailure::EmptyBraceGroup(_) => "Empty group"@,
        ParseFailure::UnmatchedOpenParen(_) => "Unmatched opening parenthesis"@,
        ParseFailure::UnmatchedOpenBrace(_) => "Unmatched opening brace"@,
        ParseFailure::UnmatchedCloseParen(_) => "Unmatched closing parenthesis"@,
        ParseFailure::UnmatchedCloseBrace(_) => "Unmatched closing brace"@,
        ParseFailure::MissingValue(key, _) => "Operator '"@ + key + "' requires a value"@,
        ParseFailure::TrailingToken(_) => "Unexpected token after query"@,
    }
}

pub open spec fn failure_hint(f: ParseFailure) -> Seq<char> {
    match f {
        ParseFailure::TooLong => "Keep queries under 1000 characters"@,
        ParseFailure::Empty => "Provide a search query"@,
        ParseFailure::UnexpectedEnd => "Complete the query"@,
        ParseFailure::OrMissingRight(_) => "Add an expression after OR"@,
        ParseFailure::OrMissingLeft(_) => "Add an expression before OR"@,
        ParseFailure::EmptyParenGroup(_) => "Add expressions inside the parentheses"@,
        ParseFailure::EmptyBraceGroup(_) => "Add expressions inside the braces"@,
        ParseFailure::UnmatchedOpenParen(_) => "Add a closing ')'"@,
        ParseFailure::UnmatchedOpenBrace(_) => "Add a closing '}'"@,
        ParseFailure::UnmatchedCloseParen(_) => "Remove the extra ')' or add a matching '('"@,
        ParseFailure::UnmatchedCloseBrace(_) => "Remove the extra '}' or add a matching '{'"@,
        ParseFailure::MissingValue(key, _) => "Use "@ + key + ":value"@,
        ParseFailure::TrailingToken(_) => "Check query syntax"@,
    }
}

pub open spec fn failure_position(f: ParseFailure) -> Option<usize> {
    match f {
        ParseFailure::TooLong => None,
        ParseFailure::Empty => None,
        ParseFailure::UnexpectedEnd => None,
        ParseFailure::OrMissingRight(p) => Some(p as usize),
        ParseFailure::OrMissingLeft(p) => Some(p as usize),
        ParseFailure::EmptyParenGroup(p) => Some(p as usize),
        ParseFailure::EmptyBraceGroup(p) => Some(p as usize),
        ParseFailure::UnmatchedOpenParen(p) => Some(p as usize),
        ParseFailure::UnmatchedOpenBrace(p) => Some(p as usize),
        ParseFailure::UnmatchedCloseParen(p) => Some(p as usize),
        ParseFailure::UnmatchedCloseBrace(p) => Some(p as usize),
        ParseFailure::MissingValue(_, p) => Some(p as usize),
        ParseFailure::TrailingToken(p) => Some(p as usize),
    }
}

/// The error reported for a parse failure of `input`.
pub open spec fn parse_error(f: ParseFailure, input: Seq<char>) -> QueryErrorView {
    QueryErrorView {
        error: "query_parse_error"@,
        message: failure_message(f),
        hint: failure_hint(f),
        position: failure_position(f),
        query: input,
    }
}

pub open spec fn is_close(t: Seq<PosTok>, p: int) -> bool {
    0 <= p < t.len() && (t[p].tok is CloseParen || t[p].tok is CloseBrace)
}

pub open spec fn is_or(t: Seq<PosTok>, p: int) -> bool {
    0 <= p < t.len() && t[p].tok is Or
}

/// A sequence of expressions read so far, as one node.
pub open spec fn finish_seq(acc: Seq<QueryTree>, pos: int) -> Result<(QueryTree, int), ParseFailure> {
    if acc.len() == 0 {
        Err(ParseFailure::Empty)
    } else if acc.len() == 1 {
        Ok((acc[0], pos))
    } else {
        Ok((QueryTree::And(acc), pos))
    }
}

/// Reads expressions from `pos` until the end or a closing delimiter; `acc`
/// holds those already read. (The position checks before each recursive
/// call always hold: every expression consumes at least one token.)
pub open spec fn p_query(t: Seq<PosTok>, pos: int, acc: Seq<QueryTree>) -> Result<(QueryTree, int), ParseFailure>
    decreases t.len() - pos, 3int,
{
    if pos < 0 || pos >= t.len() || is_close(t, pos) {
        finish_seq(acc, pos)
    } else {
        match p_or(t, pos) {
            Err(f) => Err(f),
            Ok((node, p2)) => if pos < p2 <= t.len() {
                p_query(t, p2, acc.push(node))
            } else {
                Err(ParseFailure::UnexpectedEnd)
            },
        }
    }
}

/// One expression followed by an optional chain of `OR` expressions.
pub open spec fn p_or(t: Seq<PosTok>, pos: int) -> Result<(QueryTree, int), ParseFailure>
    decreases t.len() - pos, 2int,
{
    match p_single(t, pos) {
        Err(f) => Err(f),
        Ok((left, p1)) => if is_or(t, p1) {
            if pos < p1 {
                p_or_chain(t, p1, seq![left])
            } else {
                Err(ParseFailure::UnexpectedEnd)
            }
        } else {
            Ok((left, p1))
        },
    }
}

/// The rest of an `OR` chain whose operands so far are `children`.
pub open spec fn p_or_chain(t: Seq<PosTok>, p: int, children: Seq<QueryTree>) -> Result<(QueryTree, int), ParseFailure>
    decreases t.len() - p, 1int,
{
    if p >= 0 && is_or(t, p) {
        if p + 1 >= t.len() || is_close(t, p + 1) {
            Err(ParseFailure::OrMissingRight(t[p].pos))
        } else {
            match p_single(t, p + 1) {
                Err(f) => Err(f),
                Ok((right, q)) => if p + 1 < q <= t.len() {
                    p_or_chain(t, q, children.push(right))
                } else {
                    Err(ParseFailure::UnexpectedEnd)
                },
            }
        }
    } else {
        Ok((QueryTree::Or(children), p))
    }
}

/// A single expression: group, negation, operator, quoted text or word.
pub open spec fn p_single(t: Seq<PosTok>, pos: int) -> Result<(QueryTree, int), ParseFailure>
    decreases t.len() - pos, 0int,
{
    if pos < 0 || pos >= t.len() {
        Err(ParseFailure::UnexpectedEnd)
    } else {
        let at = t[pos].pos;
        match t[pos].tok {
            Tok::OpenParen => if pos + 1 < t.len() && t[pos + 1].tok is CloseParen {
                Err(ParseFailure::EmptyParenGroup(at))
            } else {
                match p_query(t, pos + 1, Seq::empty()) {
                    Err(f) => Err(f),
                    Ok((inner, p2)) => if 0 <= p2 < t.len() && t[p2].tok is CloseParen {
                        Ok((QueryTree::Group(Box::new(inner)), p2 + 1))
                    } else {
                        Err(ParseFailure::UnmatchedOpenParen(at))
                    },
                }
            },
            Tok::OpenBrace => if pos + 1 < t.len() && t[pos + 1].tok is CloseBrace {
                Err(ParseFailure::EmptyBraceGroup(at))
            } else {
                match p_query(t, pos + 1, Seq::empty()) {
                    Err(f) => Err(f),
                    Ok((inner, p2)) => if 0 <= p2 < t.len() && t[p2].tok is CloseBrace {
                        Ok((QueryTree::Group(Box::new(inner)), p2 + 1))
                    } else {
                        Err(ParseFailure::UnmatchedOpenBrace(at))
                    },
                }
            },
            Tok::CloseParen => Err(ParseFailure::UnmatchedCloseParen(at)),
            Tok::CloseBrace => Err(ParseFailure::UnmatchedCloseBrace(at)),
            Tok::Negation => match p_single(t, pos + 1) {
                Err(f) => Err(f),
                Ok((inner, p2)) => Ok((QueryTree::Not(Box::new(inner)), p2)),
            },
            Tok::Operator(key, value, negated) => if value.len() == 0 {
                Err(ParseFailure::MissingValue(key, at))
            } else {
                Ok((QueryTree::Operator { key, value, negated }, pos + 1))
            },
            Tok::Quoted(q) => Ok((QueryTree::Quoted(q), pos + 1)),
            Tok::Word(w) => Ok((QueryTree::Term(w), pos + 1)),
            Tok::Or => Err(ParseFailure::OrMissingLeft(at)),
        }
    }
}

/// The length of the UTF-8 encoding of `s`, as `str::len` reports it.
pub open spec fn byte_len(s: Seq<char>) -> usize {
    encode_utf8(s).len() as usize
}

/// Every character of `s` is whitespace.
pub open spec fn all_ws(s: Seq<char>) -> bool {
    forall|i: int| 0 <= i < s.len() ==> is_ws(#[trigger] s[i])
}

/// The result of parsing a whole query.
pub open spec fn spec_parse(input: Seq<char>) -> Result<QueryTree, ParseFailure> {
    if byte_len(input) > MAX_QUERY_LENGTH {
        Err(ParseFailure::TooLong)
    } else if all_ws(input) {
        Err(ParseFailure::Empty)
    } else {
        let t = crate::scrub::tokenize::spec_tokenize(input);
        match p_query(t, 0, Seq::empty()) {
            Err(f) => Err(f),
            Ok((node, p)) => if p < t.len() {
                Err(ParseFailure::TrailingToken(t[p].pos))
            } else {
                Ok(node)
            },
        }
    }
}

proof fn lemma_query_end(t: Seq<PosTok>, pos: int, acc: Seq<QueryTree>)
    ensures
        p_query(t, pos, acc) matches Ok((_, q)) ==> pos <= q,
    decreases t.len() - pos,
{
    if !(pos < 0 || pos >= t.len() || is_close(t, pos)) {
        match p_or(t, pos) {
            Ok((node, p2)) => {
                if pos < p2 <= t.len() {
                    lemma_query_end(t, p2, acc.push(node));
                }
            },
            Err(_) => {},
        }
    }
}

/// A single expression read from the tokens is a group, a negation, an
/// operator with a value, a quoted text or a term (never a conjunction or
/// disjunction), and it consumes at least one token; at the end of the
/// tokens there is none to read.
pub proof fn law_single_expression(t: Seq<PosTok>, pos: int)
    requires
        0 <= pos <= t.len(),
    ensures
        p_single(t, pos) matches Ok((n, q)) ==> {
            &&& pos < q <= t.len()
            &&& !(n is And)
            &&& !(n is Or)
            &&& (n matches QueryTree::Operator { value, .. } ==> value.len() > 0)
        },
        pos == t.len() ==> p_single(t, pos) == Err::<(QueryTree, int), ParseFailure>(ParseFailure::UnexpectedEnd),
    decreases t.len() - pos,
{
    if pos < t.len() {
        match t[pos].tok {
            Tok::OpenParen => {
                lemma_query_end(t, pos + 1, Seq::empty());
            },
            Tok::OpenBrace => {
                lemma_query_end(t, pos + 1, Seq::empty());
            },
            Tok::Negation => {
                law_single_expression(t, pos + 1);
            },
            _ => {},
        }
    }
}

/// An executable parse result agrees with a spec parse result.
pub open spec fn agrees(
    r: Result<(QueryNode, usize), QueryError>,
    s: Result<(QueryTree, int), ParseFailure>,
    input: Seq<char>,
) -> bool {
    match (r, s) {
        (Ok((n, p)), Ok((tn, tp))) => n@ == tn && p == tp,
        (Err(e), Err(f)) => e@ == parse_error(f, input),
        _ => false,
    }
}


pub proof fn lemma_nodes_trees_push(s: Seq<QueryNode>, x: QueryNode)
    ensures
        nodes_trees(s.push(x)) == nodes_trees(s).push(x@),
{
    assert(s.push(x).drop_last() =~= s);
}

pub proof fn lemma_nodes_trees_len(s: Seq<QueryNode>)
    ensures
        nodes_trees(s).len() == s.len(),
        forall|i: int| 0 <= i < s.len() ==> #[trigger] nodes_trees(s)[i] == s[i]@,
    decreases s.len(),
{
    if s.len() > 0 {
        lemma_nodes_trees_len(s.drop_last());
    }
}

fn lit(s: &str) -> (r: String)
    ensures
        r@ == s@,
{
    String::from_str(s)
}

/// Recursive-descent parser over a token sequence.
struct Parser {
    tokens: Vec<PosToken>,
    input: String,
}

impl Parser {
    spec fn tv(&self) -> Seq<PosTok> {
        toks_view(self.tokens@)
    }

    fn new(tokens: Vec<PosToken>, input: &str) -> (p: Self)
        ensures
            p.tokens@ == tokens@,
            p.input@ == input@,
    {
        Parser { tokens, input: String::from_str(input) }
    }

    fn error(&self, message: String, hint: String, position: Option<usize>) -> (e: QueryError)
        ensures
            e@ == (QueryErrorView {
                error: "query_parse_error"@,
                message: message@,
                hint: hint@,
                position,
                query: self.input@,
            }),
    {
        QueryError { error: lit("query_parse_error"), message, hint, position, query: self.input.clone() }
    }

    fn is_close_at(&self, p: usize) -> (b: bool)
        ensures
            b == is_close(self.tv(), p as int),
    {
        if p < self.tokens.len() {
            match &self.tokens[p].token {
                Token::CloseParen => true,
                Token::CloseBrace => true,
                _ => false,
            }
        } else {
            false
        }
    }

    fn is_or_at(&self, p: usize) -> (b: bool)
        ensures
            b == is_or(self.tv(), p as int),
    {
        if p < self.tokens.len() {
            match &self.tokens[p].token {
                Token::Or => true,
                _ => false,
            }
        } else {
            false
        }
    }

    fn is_close_paren_at(&self, p: usize) -> (b: bool)
        ensures
            b == (0 <= p < self.tv().len() && self.tv()[p as int].tok is CloseParen),
    {
        if p < self.tokens.len() {
            match &self.tokens[p].token {
                Token::CloseParen => true,
                _ => false,
            }
        } else {
            false
        }
    }

    fn is_close_brace_at(&self, p: usize) -> (b: bool)
        ensures
            b == (0 <= p < self.tv().len() && self.tv()[p as int].tok is CloseBrace),
    {
        if p < self.tokens.len() {
            match &self.tokens[p].token {
                Token::CloseBrace => true,
                _ => false,
            }
        } else {
            false
        }
    }

    /// Parse expressions up to the end or a closing delimiter.
    fn parse_query(&self, pos: usize) -> (r: Result<(QueryNode, usize), QueryError>)
        requires
            pos <= self.tokens@.len(),
        ensures
            agrees(r, p_query(self.tv(), pos as int, Seq::empty()), self.input@),
            r matches Ok((_, p2)) ==> pos <= p2 <= self.tokens@.len(),
        decreases self.tokens@.len() - pos, 3int,
    {
        let mut nodes: Vec<QueryNode> = Vec::new();
        let mut p = pos;
        assert(nodes_trees(nodes@) =~= Seq::<QueryTree>::empty());
        while p < self.tokens.len() && !self.is_close_at(p)
            invariant
                pos <= p <= self.tokens@.len(),
                p_query(self.tv(), pos as int, Seq::empty()) == p_query(self.tv(), p as int, nodes_trees(nodes@)),
            decreases self.tokens@.len() - p,
        {
            match self.parse_or_expr(p) {
                Err(e) => {
                    return Err(e);
                },
                Ok((node, p2)) => {
                    proof {
                        lemma_nodes_trees_push(nodes@, node);
                    }
                    nodes.push(node);
                    p = p2;
                },
            }
        }
        proof {
            lemma_nodes_trees_len(nodes@);
        }
        if nodes.len() == 0 {
            Err(self.error(lit("Empty query"), lit("Provide a search query"), None))
        } else if nodes.len() == 1 {
            let node = nodes.pop().unwrap();
            Ok((node, p))
        } else {
            Ok((QueryNode::And(nodes), p))
        }
    }

    /// Parse an expression, then an optional `OR` chain.
    fn parse_or_expr(&self, pos: usize) -> (r: Result<(QueryNode, usize), QueryError>)
        requires
            pos < self.tokens@.len(),
        ensures
            agrees(r, p_or(self.tv(), pos as int), self.input@),
            r matches Ok((_, p2)) ==> pos < p2 <= self.tokens@.len(),
        decreases self.tokens@.len() - pos, 2int,
    {
        let (left, p1) = match self.parse_single(pos) {
            Err(e) => {
                return Err(e);
            },
            Ok(x) => x,
        };
        if !self.is_or_at(p1) {
            return Ok((left, p1));
        }
        let mut children: Vec<QueryNode> = Vec::new();
        proof {
            lemma_nodes_trees_push(children@, left);
            assert(nodes_trees(children@) =~= Seq::<QueryTree>::empty());
        }
        children.push(left);
        let mut p = p1;
        assert(nodes_trees(children@) =~= seq![left@]);
        while self.is_or_at(p)
            invariant
                pos < p <= self.tokens@.len(),
                p_or(self.tv(), pos as int) == p_or_chain(self.tv(), p as int, nodes_trees(children@)),
            decreases self.tokens@.len() - p,
        {
            let or_pos = self.tokens[p].pos;
            let n = self.tokens.len();
            assert(p < n);
            let q = p + 1;
            if q >= self.tokens.len() || self.is_close_at(q) {
                return Err(self.error(
                    lit("OR requires expression on both sides"),
                    lit("Add an expression after OR"),
                    Some(or_pos),
                ));
            }
            match self.parse_single(q) {
                Err(e) => {
                    return Err(e);
                },
                Ok((right, q2)) => {
                    proof {
                        lemma_nodes_trees_push(children@, right);
                    }
                    children.push(right);
                    p = q2;
                },
            }
        }
        Ok((QueryNode::Or(children), p))
    }

    /// Parse a single expression: group, negation, operator, quoted, or word.
    fn parse_single(&self, pos: usize) -> (r: Result<(QueryNode, usize), QueryError>)
        requires
            pos <= self.tokens@.len(),
        ensures
            agrees(r, p_single(self.tv(), pos as int), self.input@),
            r matches Ok((_, p2)) ==> pos < p2 <= self.tokens@.len(),
            r matches Ok((n, _)) ==> {
                &&& !(n@ is And)
                &&& !(n@ is Or)
                &&& (n@ matches QueryTree::Operator { value, .. } ==> value.len() > 0)
            },
            pos == self.tokens@.len() ==> (r matches Err(e) && e.message@ == "Unexpected end of query"@
                && e.position is None),
        decreases self.tokens@.len() - pos, 0int,
    {
        proof {
            law_single_expression(self.tv(), pos as int);
        }
        if pos >= self.tokens.len() {
            return Err(self.error(lit("Unexpected end of query"), lit("Complete the query"), None));
        }
        let at = self.tokens[pos].pos;
        match &self.tokens[pos].token {
            Token::OpenParen => {
                if self.is_close_paren_at(pos + 1) {
                    return Err(self.error(
                        lit("Empty group"),
                        lit("Add expressions inside the parentheses"),
                        Some(at),
                    ));
                }
                match self.parse_query(pos + 1) {
                    Err(e) => Err(e),
                    Ok((inner, p2)) => {
                        if self.is_close_paren_at(p2) {
                            Ok((QueryNode::Group(Box::new(inner)), p2 + 1))
                        } else {
                            Err(self.error(
                                lit("Unmatched opening parenthesis"),
                                lit("Add a closing ')'"),
                                Some(at),
                            ))
                        }
                    },
                }
            },
            Token::OpenBrace => {
                if self.is_close_brace_at(pos + 1) {
                    return Err(self.error(
                        lit("Empty group"),
                        lit("Add expressions inside the braces"),
                        Some(at),
                    ));
                }
                match self.parse_query(pos + 1) {
                    Err(e) => Err(e),
                    Ok((inner, p2)) => {
                        if self.is_close_brace_at(p2) {
                            Ok((QueryNode::Group(Box::new(inner)), p2 + 1))
                        } else {
                            Err(self.error(
                                lit("Unmatched opening brace"),
                                lit("Add a closing '}'"),
                                Some(at),
                            ))
                        }
                    },
                }
            },
            Token::CloseParen => Err(self.error(
                lit("Unmatched closing parenthesis"),
                lit("Remove the extra ')' or add a matching '('"),
                Some(at),
            )),
            Token::CloseBrace => Err(self.error(
                lit("Unmatched closing brace"),
                lit("Remove the extra '}' or add a matching '{'"),
                Some(at),
            )),
            Token::Negation => {
                match self.parse_single(pos + 1) {
                    Err(e) => Err(e),
                    Ok((inner, p2)) => Ok((QueryNode::Not(Box::new(inner)), p2)),
                }
            },
            Token::Operator(key, value, negated) => {
                if value.as_str().is_empty() {
                    let mut message = lit("Operator '");
                    message.append(key.as_str());
                    message.append("' requires a value");
                    let mut hint = lit("Use ");
                    hint.append(key.as_str());
                    hint.append(":value");
                    Err(self.error(message, hint, Some(at)))
                } else {
                    Ok((QueryNode::Operator { key: key.clone(), value: value.clone(), negated: *negated }, pos + 1))
                }
            },
            Token::Quoted(q) => Ok((QueryNode::Quoted(q.clone()), pos + 1)),
            Token::Word(w) => Ok((QueryNode::Term(w.clone()), pos + 1)),
            Token::Or => Err(self.error(
                lit("OR requires expression on both sides"),
                lit("Add an expression before OR"),
                Some(at),
            )),
        }
    }
}

/// Whether every character of `s` is whitespace (`s.trim().is_empty()`).
pub fn is_blank(s: &str) -> (b: bool)
    ensures
        b == all_ws(s@),
{
    let chars = crate::text::str_chars(s);
    let mut i: usize = 0;
    while i < chars.len()
        invariant
            chars@ == s@,
            i <= chars@.len(),
            forall|k: int| 0 <= k < i ==> is_ws(#[trigger] s@[k]),
        decreases chars@.len() - i,
    {
        if !char_is_whitespace(chars[i]) {
            return false;
        }
        i = i + 1;
    }
    true
}

/// Parse a Gmail search query string into an AST.
///
/// Fails if the query is longer than `MAX_QUERY_LENGTH` bytes, blank, or
/// malformed. Every agent query must pass through this parser before
/// reaching Gmail.
pub fn parse_query(input: &str) -> (r: Result<QueryNode, QueryError>)
    ensures
        match spec_parse(input@) {
            Ok(tree) => r matches Ok(n) && n@ == tree,
            Err(f) => r matches Err(e) && e@ == parse_error(f, input@),
        },
{
    if input.len() > MAX_QUERY_LENGTH {
        return Err(QueryError {
            error: lit("query_parse_error"),
            message: lit("Query exceeds maximum length"),
            hint: lit("Keep queries under 1000 characters"),
            position: None,
            query: String::from_str(input),
        });
    }
    if is_blank(input) {
        return Err(QueryError {
            error: lit("query_parse_error"),
            message: lit("Empty query"),
            hint: lit("Provide a search query"),
            position: None,
            query: String::from_str(input),
        });
    }
    let tokens = match tokenize(input) {
        Ok(t) => t,
        Err(e) => {
            return Err(e);
        },
    };
    let parser = Parser::new(tokens, input);
    match parser.parse_query(0) {
        Err(e) => Err(e),
        Ok((node, p)) => {
            if p < parser.tokens.len() {
                Err(parser.error(
                    lit("Unexpected token after query"),
                    lit("Check query syntax"),
                    Some(parser.tokens[p].pos),
                ))
            } else {
                Ok(node)
            }
        },
    }
}


// ---------------------------------------------------------------------------
// Validation
// ---------------------------------------------------------------------------

/// A validation error with the given message and hint.
pub open spec fn validation_error(message: Seq<char>, hint: Seq<char>) -> QueryErrorView {
    QueryErrorView {
        error: "query_validation_error"@,
        message,
        hint,
        position: None,
        query: Seq::empty(),
    }
}

/// The error for a query nested deeper than `max_depth`.
pub open spec fn depth_error(max_depth: nat) -> QueryErrorView {
    validation_error(
        "Query nesting depth exceeds maximum of "@ + decimal(max_depth),
        "Simplify the query to reduce nesting"@,
    )
}

/// The verdict on one `key:value` operator.
pub open spec fn check_operator(
    key: Seq<char>,
    value: Seq<char>,
    allowed: Seq<Seq<char>>,
    blocked_label: Seq<char>,
) -> Result<(), QueryErrorView> {
    let kl = lowercase(key);
    let vl = lowercase(value);
    if kl == "label"@ {
        if vl == lowercase(blocked_label) {
            Err(validation_error(
                "Query references a label used for security filtering"@,
                "Remove the label: operator from your query"@,
            ))
        } else {
            Err(validation_error(
                "The label: operator is not allowed for agents"@,
                "Remove the label: operator from your query"@,
            ))
        }
    } else if kl == "is"@ && vl == "draft"@ {
        Err(validation_error("Drafts are not accessible"@, "Remove is:draft from your query"@))
    } else if kl == "in"@ && (vl == "anywhere"@ || vl == "trash"@ || vl == "spam"@) {
        Err(validation_error(
            "The location '"@ + value + "' is restricted"@,
            "Use a different location or remove the in: operator"@,
        ))
    } else if !allowed.contains(kl) {
        Err(validation_error(
            "Operator '"@ + key + "' is not supported. Supported operators: "@ + join(allowed, ", "@),
            "Use one of: "@ + join(allowed, ", "@),
        ))
    } else {
        Ok(())
    }
}

/// The verdict on a tree found at nesting level `depth`.
pub open spec fn spec_validate(
    t: QueryTree,
    allowed: Seq<Seq<char>>,
    blocked_label: Seq<char>,
    max_depth: nat,
    depth: nat,
) -> Result<(), QueryErrorView>
    decreases t,
{
    match t {
        QueryTree::Operator { key, value, .. } => check_operator(key, value, allowed, blocked_label),
        QueryTree::Group(inner) => if depth >= max_depth {
            Err(depth_error(max_depth))
        } else {
            spec_validate(*inner, allowed, blocked_label, max_depth, depth + 1)
        },
        QueryTree::Not(inner) => if depth >= max_depth {
            Err(depth_error(max_depth))
        } else {
            spec_validate(*inner, allowed, blocked_label, max_depth, depth + 1)
        },
        QueryTree::And(children) => if depth >= max_depth {
            Err(depth_error(max_depth))
        } else {
            spec_validate_all(children, allowed, blocked_label, max_depth, depth + 1)
        },
        QueryTree::Or(children) => if depth >= max_depth {
            Err(depth_error(max_depth))
        } else {
            spec_validate_all(children, allowed, blocked_label, max_depth, depth + 1)
        },
        QueryTree::Term(_) => Ok(()),
        QueryTree::Quoted(_) => Ok(()),
    }
}

/// The verdict on a list of siblings: the first child's error, in order.
pub open spec fn spec_validate_all(
    s: Seq<QueryTree>,
    allowed: Seq<Seq<char>>,
    blocked_label: Seq<char>,
    max_depth: nat,
    depth: nat,
) -> Result<(), QueryErrorView>
    decreases s,
{
    if s.len() == 0 {
        Ok(())
    } else {
        match spec_validate_all(s.drop_last(), allowed, blocked_label, max_depth, depth) {
            Err(e) => Err(e),
            Ok(()) => spec_validate(s.last(), allowed, blocked_label, max_depth, depth),
        }
    }
}

/// An executable verdict agrees with a spec verdict.
pub open spec fn verdict_agrees(r: Result<(), QueryError>, s: Result<(), QueryErrorView>) -> bool {
    match (r, s) {
        (Ok(()), Ok(())) => true,
        (Err(e), Err(v)) => e@ == v,
        _ => false,
    }
}

fn validation_error_exec(message: String, hint: String) -> (e: QueryError)
    ensures
        e@ == validation_error(message@, hint@),
{
    QueryError { error: lit("query_validation_error"), message, hint, position: None, query: String::new() }
}

fn contains_str(list: &[&str], s: &str) -> (b: bool)
    ensures
        b == strs_view(list@).contains(s@),
{
    let ghost v = strs_view(list@);
    let mut i: usize = 0;
    while i < list.len()
        invariant
            v == strs_view(list@),
            i <= list@.len(),
            forall|k: int| 0 <= k < i ==> v[k] != s@,
        decreases list@.len() - i,
    {
        if str_eq(list[i], s) {
            assert(v[i as int] == s@);
            return true;
        }
        i = i + 1;
    }
    false
}

fn check_operator_exec(key: &String, value: &String, allowed: &[&str], blocked_label: &str) -> (r: Result<
    (),
    QueryError,
>)
    ensures
        verdict_agrees(r, check_operator(key@, value@, strs_view(allowed@), blocked_label@)),
{
    let key_lower = to_lowercase(key.as_str());
    let value_lower = to_lowercase(value.as_str());
    if str_eq(key_lower.as_str(), "label") {
        let blocked_lower = to_lowercase(blocked_label);
        if str_eq(value_lower.as_str(), blocked_lower.as_str()) {
            return Err(validation_error_exec(
                lit("Query references a label used for security filtering"),
                lit("Remove the label: operator from your query"),
            ));
        }
        return Err(validation_error_exec(
            lit("The label: operator is not allowed for agents"),
            lit("Remove the label: operator from your query"),
        ));
    }
    if str_eq(key_lower.as_str(), "is") && str_eq(value_lower.as_str(), "draft") {
        return Err(validation_error_exec(lit("Drafts are not accessible"), lit("Remove is:draft from your query")));
    }
    if str_eq(key_lower.as_str(), "in") && (str_eq(value_lower.as_str(), "anywhere") || str_eq(
        value_lower.as_str(),
        "trash",
    ) || str_eq(value_lower.as_str(), "spam")) {
        let mut message = lit("The location '");
        message.append(value.as_str());
        message.append("' is restricted");
        return Err(validation_error_exec(message, lit("Use a different location or remove the in: operator")));
    }
    if !contains_str(allowed, key_lower.as_str()) {
        let list = join_strs(allowed, ", ");
        let mut message = lit("Operator '");
        message.append(key.as_str());
        message.append("' is not supported. Supported operators: ");
        message.append(list.as_str());
        let mut hint = lit("Use one of: ");
        hint.append(list.as_str());
        return Err(validation_error_exec(message, hint));
    }
    Ok(())
}

fn depth_error_exec(max_depth: usize) -> (e: QueryError)
    ensures
        e@ == depth_error(max_depth as nat),
{
    let mut message = lit("Query nesting depth exceeds maximum of ");
    let digits = decimal_string(max_depth);
    message.append(digits.as_str());
    validation_error_exec(message, lit("Simplify the query to reduce nesting"))
}

fn validate_recursive(
    node: &QueryNode,
    allowed_operators: &[&str],
    blocked_label: &str,
    max_depth: usize,
    depth: usize,
) -> (r: Result<(), QueryError>)
    ensures
        verdict_agrees(
            r,
            spec_validate(node@, strs_view(allowed_operators@), blocked_label@, max_depth as nat, depth as nat),
        ),
    decreases node,
{
    match node {
        QueryNode::Operator { key, value, .. } => check_operator_exec(key, value, allowed_operators, blocked_label),
        QueryNode::Group(inner) => {
            if depth >= max_depth {
                return Err(depth_error_exec(max_depth));
            }
            validate_recursive(inner, allowed_operators, blocked_label, max_depth, depth + 1)
        },
        QueryNode::Not(inner) => {
            if depth >= max_depth {
                return Err(depth_error_exec(max_depth));
            }
            validate_recursive(inner, allowed_operators, blocked_label, max_depth, depth + 1)
        },
        QueryNode::And(children) => {
            if depth >= max_depth {
                return Err(depth_error_exec(max_depth));
            }
            validate_children(children, allowed_operators, blocked_label, max_depth, depth + 1)
        },
        QueryNode::Or(children) => {
            if depth >= max_depth {
                return Err(depth_error_exec(max_depth));
            }
            validate_children(children, allowed_operators, blocked_label, max_depth, depth + 1)
        },
        QueryNode::Term(_) => Ok(()),
        QueryNode::Quoted(_) => Ok(()),
    }
}

fn validate_children(
    children: &Vec<QueryNode>,
    allowed_operators: &[&str],
    blocked_label: &str,
    max_depth: usize,
    depth: usize,
) -> (r: Result<(), QueryError>)
    ensures
        verdict_agrees(
            r,
            spec_validate_all(
                nodes_trees(children@),
                strs_view(allowed_operators@),
                blocked_label@,
                max_depth as nat,
                depth as nat,
            ),
        ),
    decreases children,
{
    let ghost allowed = strs_view(allowed_operators@);
    let mut i: usize = 0;
    proof {
        lemma_nodes_trees_len(children@);
        assert(nodes_trees(children@).take(0) =~= Seq::<QueryTree>::empty());
    }
    while i < children.len()
        invariant
            i <= children@.len(),
            nodes_trees(children@).len() == children@.len(),
            forall|k: int| 0 <= k < children@.len() ==> #[trigger] nodes_trees(children@)[k] == children@[k]@,
            allowed == strs_view(allowed_operators@),
            spec_validate_all(nodes_trees(children@).take(i as int), allowed, blocked_label@, max_depth as nat, depth as nat) is Ok,
        decreases children@.len() - i,
    {
        let ghost ts = nodes_trees(children@);
        assert(ts.take(i + 1).drop_last() =~= ts.take(i as int));
        match validate_recursive(&children[i], allowed_operators, blocked_label, max_depth, depth) {
            Err(e) => {
                proof {
                    lemma_validate_all_prefix_err(ts, allowed, blocked_label@, max_depth as nat, depth as nat, i + 1);
                }
                return Err(e);
            },
            Ok(()) => {},
        }
        i = i + 1;
    }
    proof {
        assert(nodes_trees(children@).take(children@.len() as int) =~= nodes_trees(children@));
    }
    Ok(())
}

/// Once a prefix of the siblings fails, the whole list fails with the same error.
pub proof fn lemma_validate_all_prefix_err(
    s: Seq<QueryTree>,
    allowed: Seq<Seq<char>>,
    blocked_label: Seq<char>,
    max_depth: nat,
    depth: nat,
    n: int,
)
    requires
        0 <= n <= s.len(),
        spec_validate_all(s.take(n), allowed, blocked_label, max_depth, depth) is Err,
    ensures
        spec_validate_all(s, allowed, blocked_label, max_depth, depth) == spec_validate_all(
            s.take(n),
            allowed,
            blocked_label,
            max_depth,
            depth,
        ),
    decreases s.len() - n,
{
    if n < s.len() {
        assert(s.take(n + 1).drop_last() =~= s.take(n));
        lemma_validate_all_prefix_err(s, allowed, blocked_label, max_depth, depth, n + 1);
    } else {
        assert(s.take(n) =~= s);
    }
}

/// An operator that the security rules let through: not `label:`, not
/// `is:draft`, not `in:anywhere`/`in:trash`/`in:spam`, and a key (compared
/// in lowercase) from the allowed list.
pub open spec fn operator_permitted(key: Seq<char>, value: Seq<char>, allowed: Seq<Seq<char>>) -> bool {
    let kl = lowercase(key);
    let vl = lowercase(value);
    &&& kl != "label"@
    &&& !(kl == "is"@ && vl == "draft"@)
    &&& !(kl == "in"@ && (vl == "anywhere"@ || vl == "trash"@ || vl == "spam"@))
    &&& allowed.contains(kl)
}

/// Every operator anywhere in the tree is permitted.
pub open spec fn all_permitted(t: QueryTree, allowed: Seq<Seq<char>>) -> bool
    decreases t,
{
    match t {
        QueryTree::Operator { key, value, .. } => operator_permitted(key, value, allowed),
        QueryTree::Group(inner) => all_permitted(*inner, allowed),
        QueryTree::Not(inner) => all_permitted(*inner, allowed),
        QueryTree::And(children) => all_permitted_seq(children, allowed),
        QueryTree::Or(children) => all_permitted_seq(children, allowed),
        QueryTree::Term(_) => true,
        QueryTree::Quoted(_) => true,
    }
}

pub open spec fn all_permitted_seq(s: Seq<QueryTree>, allowed: Seq<Seq<char>>) -> bool
    decreases s,
{
    if s.len() == 0 {
        true
    } else {
        all_permitted_seq(s.drop_last(), allowed) && all_permitted(s.last(), allowed)
    }
}

/// How many groups, negations, conjunctions and disjunctions are nested at
/// the deepest point of the tree.
pub open spec fn nesting(t: QueryTree) -> nat
    decreases t,
{
    match t {
        QueryTree::Group(inner) => 1 + nesting(*inner),
        QueryTree::Not(inner) => 1 + nesting(*inner),
        QueryTree::And(children) => 1 + max_nesting(children),
        QueryTree::Or(children) => 1 + max_nesting(children),
        _ => 0,
    }
}

pub open spec fn max_nesting(s: Seq<QueryTree>) -> nat
    decreases s,
{
    if s.len() == 0 {
        0
    } else {
        let a = max_nesting(s.drop_last());
        let b = nesting(s.last());
        if a >= b { a } else { b }
    }
}

proof fn lemma_check_operator(key: Seq<char>, value: Seq<char>, allowed: Seq<Seq<char>>, blocked_label: Seq<char>)
    ensures
        check_operator(key, value, allowed, blocked_label) is Ok <==> operator_permitted(key, value, allowed),
{
}

proof fn lemma_validate_depth(
    t: QueryTree,
    allowed: Seq<Seq<char>>,
    blocked_label: Seq<char>,
    max_depth: nat,
    depth: nat,
)
    requires
        depth <= max_depth,
    ensures
        spec_validate(t, allowed, blocked_label, max_depth, depth) is Ok <==> (all_permitted(t, allowed) && depth
            + nesting(t) <= max_depth),
    decreases t,
{
    match t {
        QueryTree::Operator { key, value, .. } => {
            lemma_check_operator(key, value, allowed, blocked_label);
        },
        QueryTree::Group(inner) => {
            if depth < max_depth {
                lemma_validate_depth(*inner, allowed, blocked_label, max_depth, depth + 1);
            }
        },
        QueryTree::Not(inner) => {
            if depth < max_depth {
                lemma_validate_depth(*inner, allowed, blocked_label, max_depth, depth + 1);
            }
        },
        QueryTree::And(children) => {
            if depth < max_depth {
                lemma_validate_all_depth(children, allowed, blocked_label, max_depth, depth + 1);
            }
        },
        QueryTree::Or(children) => {
            if depth < max_depth {
                lemma_validate_all_depth(children, allowed, blocked_label, max_depth, depth + 1);
            }
        },
        _ => {},
    }
}

proof fn lemma_validate_all_depth(
    s: Seq<QueryTree>,
    allowed: Seq<Seq<char>>,
    blocked_label: Seq<char>,
    max_depth: nat,
    depth: nat,
)
    requires
        depth <= max_depth,
    ensures
        spec_validate_all(s, allowed, blocked_label, max_depth, depth) is Ok <==> (all_permitted_seq(s, allowed)
            && depth + max_nesting(s) <= max_depth),
    decreases s,
{
    if s.len() > 0 {
        lemma_validate_all_depth(s.drop_last(), allowed, blocked_label, max_depth, depth);
        lemma_validate_depth(s.last(), allowed, blocked_label, max_depth, depth);
    }
}

/// Validation accepts a query exactly when every operator in it is
/// permitted and it is nested no deeper than `max_depth`; which label is
/// blocked only changes the wording of the rejection.
pub proof fn law_validation_accepts_exactly(
    t: QueryTree,
    allowed: Seq<Seq<char>>,
    blocked_label: Seq<char>,
    max_depth: nat,
)
    ensures
        spec_validate(t, allowed, blocked_label, max_depth, 0) is Ok <==> (all_permitted(t, allowed) && nesting(t)
            <= max_depth),
{
    lemma_validate_depth(t, allowed, blocked_label, max_depth, 0);
}

/// Validate a parsed query AST against security rules.
///
/// Rejects queries that reference blocked labels, use disallowed operators,
/// access drafts/trash/spam, or exceed maximum nesting depth.
pub fn validate_query(
    node: &QueryNode,
    allowed_operators: &[&str],
    blocked_label: &str,
    max_depth: usize,
) -> (r: Result<(), QueryError>)
    ensures
        verdict_agrees(r, spec_validate(node@, strs_view(allowed_operators@), blocked_label@, max_depth as nat, 0)),
        r is Ok <==> (all_permitted(node@, strs_view(allowed_operators@)) && nesting(node@) <= max_depth),
{
    proof {
        law_validation_accepts_exactly(node@, strs_view(allowed_operators@), blocked_label@, max_depth as nat);
    }
    validate_recursive(node, allowed_operators, blocked_label, max_depth, 0)
}


// ---------------------------------------------------------------------------
// Reconstruction
// ---------------------------------------------------------------------------

/// The Gmail query text of a tree.
pub open spec fn recon(t: QueryTree) -> Seq<char>
    decreases t,
{
    match t {
        QueryTree::Term(s) => s,
        QueryTree::Quoted(s) => "\""@ + s + "\""@,
        QueryTree::Operator { key, value, negated } => {
            let prefix = if negated { "-"@ } else { ""@ };
            if value.contains(' ') {
                prefix + key + ":\""@ + value + "\""@
            } else {
                prefix + key + ":"@ + value
            }
        },
        QueryTree::Not(inner) => "-"@ + recon(*inner),
        QueryTree::Group(inner) => "("@ + recon(*inner) + ")"@,
        QueryTree::And(children) => recon_join(children, " "@),
        QueryTree::Or(children) => recon_join(children, " OR "@),
    }
}

/// The texts of `s` separated by `sep`.
pub open spec fn recon_join(s: Seq<QueryTree>, sep: Seq<char>) -> Seq<char>
    decreases s,
{
    if s.len() == 0 {
        Seq::empty()
    } else if s.len() == 1 {
        recon(s[0])
    } else {
        recon_join(s.drop_last(), sep) + sep + recon(s.last())
    }
}

/// The query text with the label exclusion appended.
pub open spec fn secure_text(t: QueryTree, label: Seq<char>) -> Seq<char> {
    "("@ + recon(t) + ") -label:"@ + label
}

fn has_space(s: &String) -> (b: bool)
    ensures
        b == s@.contains(' '),
{
    let chars = crate::text::str_chars(s.as_str());
    let mut i: usize = 0;
    while i < chars.len()
        invariant
            chars@ == s@,
            i <= chars@.len(),
            forall|k: int| 0 <= k < i ==> chars@[k] != ' ',
        decreases chars@.len() - i,
    {
        if chars[i] == ' ' {
            return true;
        }
        i = i + 1;
    }
    false
}

fn reconstruct_join(children: &Vec<QueryNode>, sep: &str) -> (r: String)
    ensures
        r@ == recon_join(nodes_trees(children@), sep@),
    decreases children,
{
    let ghost ts = nodes_trees(children@);
    proof {
        lemma_nodes_trees_len(children@);
    }
    let mut r = String::new();
    let mut i: usize = 0;
    while i < children.len()
        invariant
            i <= children@.len(),
            ts == nodes_trees(children@),
            ts.len() == children@.len(),
            forall|k: int| 0 <= k < children@.len() ==> #[trigger] ts[k] == children@[k]@,
            r@ == recon_join(ts.take(i as int), sep@),
        decreases children@.len() - i,
    {
        assert(ts.take(i + 1).drop_last() =~= ts.take(i as int));
        let part = reconstruct_query(&children[i]);
        if i != 0 {
            r.append(sep);
        }
        r.append(part.as_str());
        proof {
            if i == 0 {
                assert(r@ =~= recon(ts.take(1)[0]));
            }
        }
        i = i + 1;
    }
    assert(ts.take(children@.len() as int) =~= ts);
    r
}

/// Serialize a query AST back into a Gmail query string.
pub fn reconstruct_query(node: &QueryNode) -> (r: String)
    ensures
        r@ == recon(node@),
    decreases node,
{
    match node {
        QueryNode::Term(s) => s.clone(),
        QueryNode::Quoted(s) => {
            let mut r = lit("\"");
            r.append(s.as_str());
            r.append("\"");
            r
        },
        QueryNode::Operator { key, value, negated } => {
            let mut r = if *negated {
                lit("-")
            } else {
                lit("")
            };
            r.append(key.as_str());
            if has_space(value) {
                r.append(":\"");
                r.append(value.as_str());
                r.append("\"");
            } else {
                r.append(":");
                r.append(value.as_str());
            }
            r
        },
        QueryNode::Not(inner) => {
            let mut r = lit("-");
            let s = reconstruct_query(inner);
            r.append(s.as_str());
            r
        },
        QueryNode::Group(inner) => {
            let mut r = lit("(");
            let s = reconstruct_query(inner);
            r.append(s.as_str());
            r.append(")");
            r
        },
        QueryNode::And(children) => reconstruct_join(children, " "),
        QueryNode::Or(children) => reconstruct_join(children, " OR "),
    }
}

/// Reconstruct a query with a label exclusion appended.
///
/// Wraps the user query in a group and adds `-label:{label}` to ensure
/// the blocked label is excluded from results.
pub fn reconstruct_with_label_exclusion(node: &QueryNode, label: &str) -> (r: String)
    ensures
        r@ == secure_text(node@, label@),
{
    let mut r = lit("(");
    let s = reconstruct_query(node);
    r.append(s.as_str());
    r.append(") -label:");
    r.append(label);
    r
}

} // verus!
