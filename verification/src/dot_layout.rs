use petgraph::graph::Graph;
use vstd::prelude::*;
use vstd::string::StringSliceAdditionalSpecFns;
use vstd::utf8::*;

use crate::petgraph_spec::{
    dot_graph_edges, dot_graph_nodes, graph_add_edge, graph_add_node, graph_edge_count,
    graph_is_cyclic, graph_new, graph_node_count,
};

verus! {

pub const SPACE: u8 = 0x20;
pub const TAB: u8 = 0x09;
pub const LINE_FEED: u8 = 0x0a;
pub const CARRIAGE_RETURN: u8 = 0x0d;
pub const DOUBLE_QUOTE: u8 = 0x22;
pub const BACKSLASH: u8 = 0x5c;
pub const OPEN_BRACE: u8 = 0x7b;
pub const CLOSE_BRACE: u8 = 0x7d;
pub const SEMICOLON: u8 = 0x3b;
pub const HYPHEN: u8 = 0x2d;
pub const GREATER_THAN: u8 = 0x3e;
pub const UNDERSCORE: u8 = 0x5f;
pub const PERIOD: u8 = 0x2e;

// ---------------------------------------------------------------------------------------
// Bytes
// ---------------------------------------------------------------------------------------

/// ASCII letters `A`-`Z` and `a`-`z`.
pub open spec fn ascii_letter(b: u8) -> bool {
    (0x41 <= b <= 0x5a) || (0x61 <= b <= 0x7a)
}

/// ASCII digits `0`-`9`.
pub open spec fn ascii_digit(b: u8) -> bool {
    0x30 <= b <= 0x39
}

/// Bytes that may start an unquoted node id: ASCII letters and `_`.
pub open spec fn id_start_byte(b: u8) -> bool {
    ascii_letter(b) || b == UNDERSCORE
}

/// Bytes that may continue an unquoted node id: ASCII letters, digits, `_`, `.` and `-`.
pub open spec fn id_continue_byte(b: u8) -> bool {
    ascii_letter(b) || ascii_digit(b) || b == UNDERSCORE || b == PERIOD || b == HYPHEN
}

/// The whitespace that separates DOT tokens: space, tab, line feed, carriage return.
pub open spec fn ws_byte(b: u8) -> bool {
    b == SPACE || b == TAB || b == LINE_FEED || b == CARRIAGE_RETURN
}

// ---------------------------------------------------------------------------------------
// The accepted language, as functions of the input bytes and a position
// ---------------------------------------------------------------------------------------

/// The first position at or after `i` that does not hold whitespace.
pub open spec fn skip_ws_from(s: Seq<u8>, i: int) -> int
    decreases s.len() - i,
{
    if 0 <= i < s.len() && ws_byte(s[i]) {
        skip_ws_from(s, i + 1)
    } else {
        i
    }
}

/// The end of the unquoted id whose bytes continue from `i`.
pub open spec fn unquoted_id_end(s: Seq<u8>, i: int) -> int
    decreases s.len() - i,
{
    if 0 <= i < s.len() && id_continue_byte(s[i]) {
        unquoted_id_end(s, i + 1)
    } else {
        i
    }
}

/// The first position at or after `i` that holds `"` or `\`, or the end of the input.
pub open spec fn quoted_id_end(s: Seq<u8>, i: int) -> int
    decreases s.len() - i,
{
    if 0 <= i < s.len() && s[i] != DOUBLE_QUOTE && s[i] != BACKSLASH {
        quoted_id_end(s, i + 1)
    } else {
        i
    }
}

/// Why no node id could be read.
#[derive(Debug, Clone, Copy, PartialEq, Eq, Structural)]
pub enum NodeIdError {
    /// Neither `"` nor a byte that starts an unquoted id stands at `offset`.
    NotAnId { offset: usize },
    /// A quoted id was asked for where no `"` stands.
    OpeningQuote(ExpectByteError),
    /// A quoted id holds a `\` at `offset`; escape sequences are not supported.
    EscapeSequence { offset: usize },
    /// The quoted id whose opening `"` stands at `start` is never closed.
    Unterminated { start: usize },
}

/// Why an expected byte was not found.
#[derive(Debug, Clone, Copy, PartialEq, Eq, Structural)]
pub enum ExpectByteError {
    /// `found` stands at `offset` where `expected` was required.
    Found { expected: u8, found: u8, offset: usize },
    /// The input ended where `expected` was required.
    EndOfInput { expected: u8 },
}

/// Why a DOT text was rejected.
#[derive(Debug, Clone, Copy, PartialEq, Eq, Structural)]
pub enum DotError {
    /// The text does not start with `digraph` (optionally preceded by `strict`).
    MissingDigraphKeyword,
    /// An id follows `digraph` but is not a valid node id.
    InvalidGraphId(NodeIdError),
    /// No `{` follows `digraph` and its optional id.
    MissingOpenBrace(ExpectByteError),
    /// Something other than whitespace follows the closing `}`.
    TrailingContent,
    /// The input ends before the closing `}`.
    Unclosed,
    /// A statement does not start with a node id.
    ExpectedStatement(NodeIdError),
    /// No node id follows `->`.
    ExpectedTarget(NodeIdError),
}

/// The result of requiring byte `expected` at the first non-whitespace position at or
/// after `i`: the position after it.
pub open spec fn spec_expect_byte(s: Seq<u8>, i: int, expected: u8) -> Result<
    int,
    ExpectByteError,
> {
    let q = skip_ws_from(s, i);
    if q < s.len() && s[q] == expected {
        Ok(q + 1)
    } else if q < s.len() {
        Err(ExpectByteError::Found { expected, found: s[q], offset: q as usize })
    } else {
        Err(ExpectByteError::EndOfInput { expected })
    }
}

/// Where the reader stands after requiring `expected` from `i`: after the byte when it is
/// there, otherwise at the first non-whitespace position.
pub open spec fn expect_byte_stop(s: Seq<u8>, i: int, expected: u8) -> int {
    match spec_expect_byte(s, i, expected) {
        Ok(q) => q,
        Err(_) => skip_ws_from(s, i),
    }
}

/// The `"`-quoted id (without escapes) that starts at the first non-whitespace position at
/// or after `i`, with the position just after its closing `"`.
pub open spec fn spec_quoted_id(s: Seq<u8>, i: int) -> Result<(Seq<char>, int), NodeIdError> {
    match spec_expect_byte(s, i, DOUBLE_QUOTE) {
        Err(e) => Err(NodeIdError::OpeningQuote(e)),
        Ok(q) => {
            let e = quoted_id_end(s, q);
            if e >= s.len() {
                Err(NodeIdError::Unterminated { start: (q - 1) as usize })
            } else if s[e] == BACKSLASH {
                Err(NodeIdError::EscapeSequence { offset: e as usize })
            } else {
                Ok((decode_utf8(s.subrange(q, e)), e + 1))
            }
        },
    }
}

/// Where the reader stands after reading a quoted id from `i`: after it, or at the byte
/// where reading stopped (the `\`, the end of the text, or the byte that is not `"`).
pub open spec fn quoted_id_stop(s: Seq<u8>, i: int) -> int {
    match spec_expect_byte(s, i, DOUBLE_QUOTE) {
        Err(_) => skip_ws_from(s, i),
        Ok(q) => {
            let e = quoted_id_end(s, q);
            if e < s.len() && s[e] != BACKSLASH {
                e + 1
            } else {
                e
            }
        },
    }
}

/// The node id that starts at the first non-whitespace position at or after `i`, with the
/// position just after it: a `"`-quoted id (without escapes), or an unquoted one.
pub open spec fn spec_node_id(s: Seq<u8>, i: int) -> Result<(Seq<char>, int), NodeIdError> {
    let p = skip_ws_from(s, i);
    if p < s.len() && s[p] == DOUBLE_QUOTE {
        spec_quoted_id(s, p)
    } else if p < s.len() && id_start_byte(s[p]) {
        let e = unquoted_id_end(s, p);
        Ok((decode_utf8(s.subrange(p, e)), e))
    } else {
        Err(NodeIdError::NotAnId { offset: p as usize })
    }
}

/// Where the reader stands after reading a node id from `i`, whether or not one was read.
pub open spec fn node_id_stop(s: Seq<u8>, i: int) -> int {
    let p = skip_ws_from(s, i);
    if p < s.len() && s[p] == DOUBLE_QUOTE {
        quoted_id_stop(s, p)
    } else if p < s.len() && id_start_byte(s[p]) {
        unquoted_id_end(s, p)
    } else {
        p
    }
}

/// The bytes of the keyword `strict`.
pub open spec fn strict_keyword() -> Seq<u8> {
    seq![0x73u8, 0x74u8, 0x72u8, 0x69u8, 0x63u8, 0x74u8]
}

/// The bytes of the keyword `digraph`.
pub open spec fn digraph_keyword() -> Seq<u8> {
    seq![0x64u8, 0x69u8, 0x67u8, 0x72u8, 0x61u8, 0x70u8, 0x68u8]
}

/// Keyword `w` stands at `p` and is not the start of a longer id.
pub open spec fn keyword_at(s: Seq<u8>, p: int, w: Seq<u8>) -> bool {
    &&& p + w.len() <= s.len()
    &&& s.subrange(p, p + w.len()) == w
    &&& (p + w.len() == s.len() || !id_continue_byte(s[p + w.len()]))
}

/// Where `digraph` is looked for: after leading whitespace and an optional `strict`.
pub open spec fn digraph_keyword_pos(s: Seq<u8>) -> int {
    let p0 = skip_ws_from(s, 0);
    if keyword_at(s, p0, strict_keyword()) {
        skip_ws_from(s, p0 + 6)
    } else {
        p0
    }
}

/// `digraph [id] {` with an optional leading `strict`: the position after the `{`.
pub open spec fn spec_header(s: Seq<u8>) -> Result<int, DotError> {
    let p1 = digraph_keyword_pos(s);
    if !keyword_at(s, p1, digraph_keyword()) {
        Err(DotError::MissingDigraphKeyword)
    } else {
        let p2 = skip_ws_from(s, p1 + 7);
        let after_id: Result<int, DotError> = if p2 < s.len() && s[p2] == OPEN_BRACE {
            Ok(p2)
        } else {
            match spec_node_id(s, p2) {
                Ok((_, n)) => Ok(n),
                Err(e) => Err(DotError::InvalidGraphId(e)),
            }
        };
        match after_id {
            Err(e) => Err(e),
            Ok(p3) => match spec_expect_byte(s, p3, OPEN_BRACE) {
                Ok(q) => Ok(q),
                Err(e) => Err(DotError::MissingOpenBrace(e)),
            },
        }
    }
}

/// One statement of the body: a node on its own, or an edge.
pub enum DotStatement {
    Node(Seq<char>),
    Edge(Seq<char>, Seq<char>),
}

/// After optional whitespace, an optional `;`.
pub open spec fn optional_semicolon_end(s: Seq<u8>, i: int) -> int {
    let k = skip_ws_from(s, i);
    if k < s.len() && s[k] == SEMICOLON {
        k + 1
    } else {
        k
    }
}

/// `->` stands at `q`.
pub open spec fn arrow_at(s: Seq<u8>, q: int) -> bool {
    q + 2 <= s.len() && s[q] == HYPHEN && s[q + 1] == GREATER_THAN
}

/// The statement at `p` (`id;` or `id -> id;`, the `;` optional) and the position after it.
pub open spec fn spec_statement(s: Seq<u8>, p: int) -> Result<(DotStatement, int), DotError> {
    match spec_node_id(s, p) {
        Err(e) => Err(DotError::ExpectedStatement(e)),
        Ok((a, n1)) => {
            let q = skip_ws_from(s, n1);
            if arrow_at(s, q) {
                match spec_node_id(s, q + 2) {
                    Err(e) => Err(DotError::ExpectedTarget(e)),
                    Ok((b, n2)) => Ok((DotStatement::Edge(a, b), optional_semicolon_end(s, n2))),
                }
            } else {
                Ok((DotStatement::Node(a), optional_semicolon_end(s, q)))
            }
        },
    }
}

/// Where the reader stands after reading the statement at `p`, whether or not one was read.
pub open spec fn statement_stop(s: Seq<u8>, p: int) -> int {
    match spec_node_id(s, p) {
        Err(_) => node_id_stop(s, p),
        Ok((_, n1)) => {
            let q = skip_ws_from(s, n1);
            if arrow_at(s, q) {
                match spec_node_id(s, q + 2) {
                    Err(_) => node_id_stop(s, q + 2),
                    Ok((_, n2)) => optional_semicolon_end(s, n2),
                }
            } else {
                optional_semicolon_end(s, q)
            }
        },
    }
}

/// The statements from `i` up to the closing `}`, which only whitespace may follow.
pub open spec fn spec_body(s: Seq<u8>, i: nat) -> Result<Seq<DotStatement>, DotError>
    decreases s.len() - i,
{
    let p = skip_ws_from(s, i as int);
    if p >= s.len() {
        Err(DotError::Unclosed)
    } else if s[p] == CLOSE_BRACE {
        if skip_ws_from(s, p + 1) >= s.len() {
            Ok(seq![])
        } else {
            Err(DotError::TrailingContent)
        }
    } else {
        match spec_statement(s, p) {
            Err(e) => Err(e),
            Ok((st, n)) => {
                proof {
                    lemma_skip_ws_from(s, i as int);
                    lemma_statement_advances(s, p);
                }
                match spec_body(s, n as nat) {
                    Err(e) => Err(e),
                    Ok(rest) => Ok(seq![st] + rest),
                }
            },
        }
    }
}

/// Where the reader stands after the body from `i`: after the whitespace that follows the
/// closing `}` on success; otherwise where reading stopped.
pub open spec fn body_stop(s: Seq<u8>, i: nat) -> int
    decreases s.len() - i,
{
    let p = skip_ws_from(s, i as int);
    if p >= s.len() {
        p
    } else if s[p] == CLOSE_BRACE {
        skip_ws_from(s, p + 1)
    } else {
        match spec_statement(s, p) {
            Err(_) => statement_stop(s, p),
            Ok((st, n)) => {
                proof {
                    lemma_skip_ws_from(s, i as int);
                    lemma_statement_advances(s, p);
                }
                body_stop(s, n as nat)
            },
        }
    }
}

/// The statements of the body from `i` that are read before reading stops, whether the body
/// is accepted or not.
pub open spec fn statements_read(s: Seq<u8>, i: nat) -> Seq<DotStatement>
    decreases s.len() - i,
{
    let p = skip_ws_from(s, i as int);
    if p >= s.len() || s[p] == CLOSE_BRACE {
        seq![]
    } else {
        match spec_statement(s, p) {
            Err(_) => seq![],
            Ok((st, n)) => {
                proof {
                    lemma_skip_ws_from(s, i as int);
                    lemma_statement_advances(s, p);
                }
                seq![st] + statements_read(s, n as nat)
            },
        }
    }
}

// ---------------------------------------------------------------------------------------
// The graph that the statements build
// ---------------------------------------------------------------------------------------

/// A directed graph as plain values: node ids in index order, edges as index pairs.
pub struct DotGraphModel {
    pub nodes: Seq<Seq<char>>,
    pub edges: Seq<(int, int)>,
}

/// The model of a petgraph graph built by the parser.
pub open spec fn graph_model(g: Graph<String, ()>) -> DotGraphModel {
    DotGraphModel { nodes: dot_graph_nodes(g), edges: dot_graph_edges(g) }
}

/// The graph with no node and no edge.
pub open spec fn empty_model() -> DotGraphModel {
    DotGraphModel { nodes: Seq::empty(), edges: Seq::empty() }
}

/// Adds a node for `id` unless one is already there.
pub open spec fn intern_model(m: DotGraphModel, id: Seq<char>) -> DotGraphModel {
    if m.nodes.contains(id) {
        m
    } else {
        DotGraphModel { nodes: m.nodes.push(id), edges: m.edges }
    }
}

/// The effect of one statement: its ids become nodes; an edge statement adds its edge.
pub open spec fn apply_statement(m: DotGraphModel, st: DotStatement) -> DotGraphModel {
    match st {
        DotStatement::Node(a) => intern_model(m, a),
        DotStatement::Edge(a, b) => {
            let m2 = intern_model(intern_model(m, a), b);
            DotGraphModel {
                nodes: m2.nodes,
                edges: m2.edges.push((m2.nodes.index_of(a), m2.nodes.index_of(b))),
            }
        },
    }
}

/// The effect of the statements, in order.
pub open spec fn apply_statements(m: DotGraphModel, sts: Seq<DotStatement>) -> DotGraphModel
    decreases sts.len(),
{
    if sts.len() == 0 {
        m
    } else {
        apply_statements(apply_statement(m, sts[0]), sts.drop_first())
    }
}

/// The graph's `u32` node and edge indices suffice for `m`.
pub open spec fn model_fits_indices(m: DotGraphModel) -> bool {
    m.nodes.len() <= u32::MAX && m.edges.len() <= u32::MAX
}

/// The graph's indices suffice for `m` with the statements read from `i` applied.
pub open spec fn fits_from(m: DotGraphModel, s: Seq<u8>, i: nat) -> bool {
    model_fits_indices(apply_statements(m, statements_read(s, i)))
}

/// The graph's indices suffice for everything that reading `s` adds to the graph; beyond
/// that, adding a node or an edge to the graph panics.
pub open spec fn dot_fits_graph_indices(s: Seq<u8>) -> bool {
    match spec_header(s) {
        Ok(p) => fits_from(empty_model(), s, p as nat),
        Err(_) => true,
    }
}

/// The graph that a DOT text describes, or why the text is rejected.
pub open spec fn spec_parse_dot(s: Seq<u8>) -> Result<DotGraphModel, DotError> {
    match spec_header(s) {
        Err(e) => Err(e),
        Ok(p) => match spec_body(s, p as nat) {
            Err(e) => Err(e),
            Ok(sts) => Ok(apply_statements(empty_model(), sts)),
        },
    }
}

/// There is a path of one or more edges from some node back to itself.
pub open spec fn has_directed_cycle(edges: Seq<(int, int)>) -> bool {
    exists|path: Seq<int>|
        {
            &&& path.len() >= 2
            &&& path[0] == path[path.len() - 1]
            &&& forall|k: int|
                0 <= k < path.len() - 1 ==> #[trigger] edges.contains((path[k], path[k + 1]))
        }
}

// ---------------------------------------------------------------------------------------
// Lemmas on positions
// ---------------------------------------------------------------------------------------

pub proof fn lemma_skip_ws_from(s: Seq<u8>, i: int)
    requires
        0 <= i <= s.len(),
    ensures
        i <= skip_ws_from(s, i) <= s.len(),
        skip_ws_from(s, i) < s.len() ==> !ws_byte(s[skip_ws_from(s, i)]),
        skip_ws_from(s, skip_ws_from(s, i)) == skip_ws_from(s, i),
        forall|j: int| i <= j < skip_ws_from(s, i) ==> ws_byte(#[trigger] s[j]),
    decreases s.len() - i,
{
    if i < s.len() && ws_byte(s[i]) {
        lemma_skip_ws_from(s, i + 1);
    }
}

pub proof fn lemma_unquoted_id_end(s: Seq<u8>, i: int)
    requires
        0 <= i <= s.len(),
    ensures
        i <= unquoted_id_end(s, i) <= s.len(),
        unquoted_id_end(s, i) < s.len() ==> !id_continue_byte(s[unquoted_id_end(s, i)]),
        forall|j: int| i <= j < unquoted_id_end(s, i) ==> id_continue_byte(#[trigger] s[j]),
    decreases s.len() - i,
{
    if i < s.len() && id_continue_byte(s[i]) {
        lemma_unquoted_id_end(s, i + 1);
    }
}

pub proof fn lemma_quoted_id_end(s: Seq<u8>, i: int)
    requires
        0 <= i <= s.len(),
    ensures
        i <= quoted_id_end(s, i) <= s.len(),
        quoted_id_end(s, i) < s.len() ==> (s[quoted_id_end(s, i)] == DOUBLE_QUOTE
            || s[quoted_id_end(s, i)] == BACKSLASH),
        forall|j: int|
            i <= j < quoted_id_end(s, i) ==> #[trigger] s[j] != DOUBLE_QUOTE && s[j] != BACKSLASH,
    decreases s.len() - i,
{
    if i < s.len() && s[i] != DOUBLE_QUOTE && s[i] != BACKSLASH {
        lemma_quoted_id_end(s, i + 1);
    }
}

pub proof fn lemma_node_id_advances(s: Seq<u8>, i: int)
    requires
        0 <= i <= s.len(),
    ensures
        spec_node_id(s, i) matches Ok((_, n)) ==> skip_ws_from(s, i) < n <= s.len(),
{
    lemma_skip_ws_from(s, i);
    let p = skip_ws_from(s, i);
    if p < s.len() && s[p] == DOUBLE_QUOTE {
        lemma_quoted_id_end(s, p + 1);
    } else if p < s.len() && id_start_byte(s[p]) {
        lemma_unquoted_id_end(s, p);
    }
}

pub proof fn lemma_node_id_stop(s: Seq<u8>, i: int)
    requires
        0 <= i <= s.len(),
    ensures
        skip_ws_from(s, i) <= node_id_stop(s, i) <= s.len(),
        skip_ws_from(s, i) <= quoted_id_stop(s, i) <= s.len(),
{
    lemma_skip_ws_from(s, i);
    let p = skip_ws_from(s, i);
    if p < s.len() {
        lemma_quoted_id_end(s, p + 1);
        lemma_unquoted_id_end(s, p);
        lemma_skip_ws_from(s, p);
    }
}

pub proof fn lemma_optional_semicolon_end(s: Seq<u8>, i: int)
    requires
        0 <= i <= s.len(),
    ensures
        i <= optional_semicolon_end(s, i) <= s.len(),
{
    lemma_skip_ws_from(s, i);
}

/// A statement consumes at least one byte; an edge statement at least four.
pub proof fn lemma_statement_advances(s: Seq<u8>, p: int)
    requires
        0 <= p <= s.len(),
    ensures
        spec_statement(s, p) matches Ok((st, n)) ==> {
            &&& p < n <= s.len()
            &&& (st matches DotStatement::Edge(_, _) ==> p + 4 <= n)
        },
{
    lemma_skip_ws_from(s, p);
    lemma_node_id_advances(s, p);
    if let Ok((a, n1)) = spec_node_id(s, p) {
        lemma_skip_ws_from(s, n1);
        let q = skip_ws_from(s, n1);
        if arrow_at(s, q) {
            lemma_node_id_advances(s, q + 2);
            lemma_skip_ws_from(s, q + 2);
            if let Ok((b, n2)) = spec_node_id(s, q + 2) {
                lemma_optional_semicolon_end(s, n2);
            }
        } else {
            lemma_optional_semicolon_end(s, q);
        }
    }
}

// ---------------------------------------------------------------------------------------
// Character boundaries
// ---------------------------------------------------------------------------------------

/// Position `i` touches an ASCII byte: the byte before it or the byte at it.
pub open spec fn touches_ascii(s: Seq<u8>, i: int) -> bool {
    ||| i == 0
    ||| i == s.len()
    ||| (0 < i <= s.len() && s[i - 1] < 0x80)
    ||| (0 <= i < s.len() && s[i] < 0x80)
}

/// In valid UTF-8 a position next to an ASCII byte lies between two characters.
pub proof fn lemma_ascii_neighbour_is_char_boundary(s: Seq<u8>, i: int)
    requires
        valid_utf8(s),
        0 <= i <= s.len(),
        touches_ascii(s, i),
    ensures
        is_char_boundary(s, i),
{
    if i == 0 || i == s.len() {
        is_char_boundary_start_end_of_seq(s);
    } else if s[i] < 0x80 {
        is_char_boundary_iff_not_is_continuation_byte(s, i);
    } else {
        is_char_boundary_iff_not_is_continuation_byte(s, i - 1);
        valid_utf8_split(s, i - 1);
        let t = s.subrange(i - 1, s.len() as int);
        assert(valid_utf8(t));
        assert(t[0] == s[i - 1]);
        assert(length_of_first_scalar(t) == 1);
        let u = s.subrange(i, s.len() as int);
        assert(pop_first_scalar(t) =~= u);
        assert(valid_utf8(u));
        assert(u[0] == s[i]);
        assert(valid_first_scalar(u));
        assert(!is_continuation_byte(s[i]));
        is_char_boundary_iff_not_is_continuation_byte(s, i);
    }
}

/// The text between byte positions `start` and `end`, both next to ASCII bytes.
fn text_between(input: &str, start: usize, end: usize) -> (r: String)
    requires
        start <= end <= input.spec_bytes().len(),
        touches_ascii(input.spec_bytes(), start as int),
        touches_ascii(input.spec_bytes(), end as int),
    ensures
        r@ == decode_utf8(input.spec_bytes().subrange(start as int, end as int)),
        encode_utf8(r@) == input.spec_bytes().subrange(start as int, end as int),
{
    let ghost s = input.spec_bytes();
    proof {
        encode_utf8_valid_utf8(input@);
        lemma_ascii_neighbour_is_char_boundary(s, start as int);
    }
    let (_, tail) = input.split_at(start);
    let ghost t = tail.spec_bytes();
    proof {
        encode_utf8_valid_utf8(tail@);
        assert(touches_ascii(t, (end - start) as int)) by {
            if end > start && end < s.len() {
                assert(t[end - start - 1] == s[end - 1]);
                assert(t[end - start] == s[end as int]);
            }
        }
        lemma_ascii_neighbour_is_char_boundary(t, (end - start) as int);
    }
    let (mid, _) = tail.split_at(end - start);
    proof {
        assert(mid.spec_bytes() =~= s.subrange(start as int, end as int));
        encode_utf8_decode_utf8(mid@);
    }
    mid.to_owned()
}

// ---------------------------------------------------------------------------------------
// Executable parser
// ---------------------------------------------------------------------------------------

/// Whether `b` may start an unquoted node id.
pub fn is_id_start(b: u8) -> (r: bool)
    ensures
        r == id_start_byte(b),
{
    (0x41 <= b && b <= 0x5a) || (0x61 <= b && b <= 0x7a) || b == UNDERSCORE
}

/// Whether `b` may continue an unquoted node id.
pub fn is_id_continue(b: u8) -> (r: bool)
    ensures
        r == id_continue_byte(b),
{
    (0x41 <= b && b <= 0x5a) || (0x61 <= b && b <= 0x7a) || (0x30 <= b && b <= 0x39)
        || b == UNDERSCORE || b == PERIOD || b == HYPHEN
}

fn is_ws(b: u8) -> (r: bool)
    ensures
        r == ws_byte(b),
{
    b == SPACE || b == TAB || b == LINE_FEED || b == CARRIAGE_RETURN
}

/// The first position at or after `i` that does not hold whitespace.
fn skip_ws_in(bytes: &[u8], i: usize) -> (r: usize)
    requires
        i <= bytes@.len(),
    ensures
        r == skip_ws_from(bytes@, i as int),
{
    let mut k = i;
    proof {
        lemma_skip_ws_from(bytes@, i as int);
    }
    while k < bytes.len() && is_ws(bytes[k])
        invariant
            i <= k <= bytes@.len(),
            skip_ws_from(bytes@, k as int) == skip_ws_from(bytes@, i as int),
        decreases bytes@.len() - k,
    {
        k = k + 1;
    }
    k
}

/// Whether keyword `word` stands at `p`, not followed by a byte that continues an id.
fn keyword_in(bytes: &[u8], p: usize, word: &[u8]) -> (r: bool)
    requires
        p <= bytes@.len(),
    ensures
        r == keyword_at(bytes@, p as int, word@),
{
    let ghost s = bytes@;
    let n = bytes.len();
    if n - p < word.len() {
        return false;
    }
    let mut k: usize = 0;
    while k < word.len()
        invariant
            bytes@ == s,
            s.len() == n,
            p + word@.len() <= s.len(),
            k <= word@.len(),
            forall|j: int| 0 <= j < k ==> s[p + j] == word@[j],
        decreases word@.len() - k,
    {
        if bytes[p + k] != word[k] {
            assert(s.subrange(p as int, p + word@.len())[k as int] != word@[k as int]);
            return false;
        }
        k = k + 1;
    }
    assert(s.subrange(p as int, p + word@.len()) =~= word@);
    let end = p + word.len();
    end >= bytes.len() || !is_id_continue(bytes[end])
}

fn strict_keyword_bytes() -> (r: [u8; 6])
    ensures
        r@ == strict_keyword(),
{
    let r: [u8; 6] = [0x73, 0x74, 0x72, 0x69, 0x63, 0x74];
    assert(r@ =~= strict_keyword());
    r
}

fn digraph_keyword_bytes() -> (r: [u8; 7])
    ensures
        r@ == digraph_keyword(),
{
    let r: [u8; 7] = [0x64, 0x69, 0x67, 0x72, 0x61, 0x70, 0x68];
    assert(r@ =~= digraph_keyword());
    r
}

/// The graph `m` with the statements from `i` applied, or why the body is rejected.
pub open spec fn body_outcome(m: DotGraphModel, s: Seq<u8>, i: nat) -> Result<
    DotGraphModel,
    DotError,
> {
    match spec_body(s, i) {
        Ok(sts) => Ok(apply_statements(m, sts)),
        Err(e) => Err(e),
    }
}

proof fn lemma_body_step(m: DotGraphModel, s: Seq<u8>, i: nat)
    requires
        i <= s.len(),
        skip_ws_from(s, i as int) < s.len(),
        s[skip_ws_from(s, i as int)] != CLOSE_BRACE,
        spec_statement(s, skip_ws_from(s, i as int)) is Ok,
    ensures
        ({
            let (st, n) = spec_statement(s, skip_ws_from(s, i as int))->Ok_0;
            &&& i < n <= s.len()
            &&& body_outcome(m, s, i) == body_outcome(apply_statement(m, st), s, n as nat)
            &&& fits_from(m, s, i) == fits_from(apply_statement(m, st), s, n as nat)
            &&& body_stop(s, i) == body_stop(s, n as nat)
        }),
{
    let p = skip_ws_from(s, i as int);
    lemma_skip_ws_from(s, i as int);
    lemma_statement_advances(s, p);
    let (st, n) = spec_statement(s, p)->Ok_0;
    if let Ok(rest) = spec_body(s, n as nat) {
        assert((seq![st] + rest)[0] == st);
        assert((seq![st] + rest).drop_first() =~= rest);
    }
    let rest = statements_read(s, n as nat);
    assert((seq![st] + rest)[0] == st);
    assert((seq![st] + rest).drop_first() =~= rest);
}

proof fn lemma_apply_statement_grows(m: DotGraphModel, st: DotStatement)
    ensures
        apply_statement(m, st).nodes.len() >= m.nodes.len(),
        apply_statement(m, st).edges.len() >= m.edges.len(),
{
}

proof fn lemma_apply_statements_grows(m: DotGraphModel, sts: Seq<DotStatement>)
    ensures
        apply_statements(m, sts).nodes.len() >= m.nodes.len(),
        apply_statements(m, sts).edges.len() >= m.edges.len(),
    decreases sts.len(),
{
    if sts.len() > 0 {
        lemma_apply_statement_grows(m, sts[0]);
        lemma_apply_statements_grows(apply_statement(m, sts[0]), sts.drop_first());
    }
}

proof fn lemma_intern_model_grows(m: DotGraphModel, id: Seq<char>)
    ensures
        intern_model(m, id).nodes.len() >= m.nodes.len(),
        intern_model(m, id).edges == m.edges,
{
}

proof fn lemma_index_of_distinct(nodes: Seq<Seq<char>>, k: int)
    requires
        nodes.no_duplicates(),
        0 <= k < nodes.len(),
    ensures
        nodes.index_of(nodes[k]) == k,
{
    assert(nodes.contains(nodes[k]));
}

/// The parsed graph.
pub struct ParsedDot {
    pub graph: Graph<String, ()>,
}

/// Why the parser stopped without a graph.
enum ParseStop {
    /// The text is not accepted.
    Invalid(DotError),
    /// Adding a node or an edge would exceed the graph's `u32` indices.
    IndexSpaceExhausted,
}

/// A recursive-descent reader of the DOT subset, building the graph as it goes.
struct Parser<'a> {
    input: &'a str,
    offset: usize,
    graph: Graph<String, ()>,
    /// The node ids in node-index order: the index of an id is its position here.
    names: Vec<String>,
}

impl<'a> Parser<'a> {
    spec fn bytes(&self) -> Seq<u8> {
        self.input.spec_bytes()
    }

    spec fn model(&self) -> DotGraphModel {
        graph_model(self.graph)
    }

    /// The reading position lies within the text.
    spec fn in_text(&self) -> bool {
        self.offset <= self.bytes().len() <= usize::MAX
    }

    /// `names` mirrors the graph's nodes, which are distinct; edges join nodes; the graph's
    /// indices suffice for it.
    spec fn well_formed(&self) -> bool {
        let nodes = dot_graph_nodes(self.graph);
        let edges = dot_graph_edges(self.graph);
        &&& self.names@.len() == nodes.len()
        &&& forall|k: int| 0 <= k < nodes.len() ==> #[trigger] self.names@[k]@ == nodes[k]
        &&& nodes.no_duplicates()
        &&& forall|k: int|
            0 <= k < edges.len() ==> 0 <= (#[trigger] edges[k]).0 < nodes.len() && 0 <= edges[
                k
            ].1 < nodes.len()
        &&& model_fits_indices(self.model())
        &&& self.in_text()
    }

    spec fn same_graph(&self, other: &Self) -> bool {
        &&& self.input == other.input
        &&& self.graph == other.graph
        &&& self.names == other.names
    }

    fn new(input: &'a str) -> (p: Self)
        ensures
            p.input == input,
            p.offset == 0,
            p.model() == empty_model(),
            p.well_formed(),
    {
        let graph = graph_new();
        let p = Parser { input, offset: 0, graph, names: Vec::new() };
        let len = input.as_bytes().len();
        assert(p.bytes().len() == len);
        assert(p.model() =~= empty_model());
        p
    }

    fn skip_ws(&mut self)
        requires
            old(self).in_text(),
        ensures
            final(self).same_graph(old(self)),
            final(self).offset == skip_ws_from(old(self).bytes(), old(self).offset as int),
    {
        let input = self.input;
        self.offset = skip_ws_in(input.as_bytes(), self.offset);
    }

    fn peek_byte(&self) -> (r: Option<u8>)
        requires
            self.in_text(),
        ensures
            r == (if self.offset < self.bytes().len() {
                Some(self.bytes()[self.offset as int])
            } else {
                None
            }),
    {
        let bytes = self.input.as_bytes();
        if self.offset < bytes.len() {
            Some(bytes[self.offset])
        } else {
            None
        }
    }

    fn is_eof(&self) -> (r: bool)
        ensures
            r == (self.offset >= self.bytes().len()),
    {
        self.offset >= self.input.as_bytes().len()
    }

    fn expect_byte(&mut self, expected: u8) -> (r: Result<(), ExpectByteError>)
        requires
            old(self).in_text(),
        ensures
            final(self).same_graph(old(self)),
            final(self).offset == expect_byte_stop(
                old(self).bytes(),
                old(self).offset as int,
                expected,
            ),
            match spec_expect_byte(old(self).bytes(), old(self).offset as int, expected) {
                Ok(q) => r is Ok,
                Err(e) => r == Err::<(), ExpectByteError>(e),
            },
    {
        proof {
            lemma_skip_ws_from(self.bytes(), self.offset as int);
        }
        self.skip_ws();
        match self.peek_byte() {
            Some(b) => {
                if b == expected {
                    self.offset = self.offset + 1;
                    Ok(())
                } else {
                    Err(ExpectByteError::Found { expected, found: b, offset: self.offset })
                }
            },
            None => Err(ExpectByteError::EndOfInput { expected }),
        }
    }

    fn try_keyword(&mut self, word: &[u8]) -> (r: bool)
        requires
            old(self).in_text(),
        ensures
            final(self).same_graph(old(self)),
            ({
                let p = skip_ws_from(old(self).bytes(), old(self).offset as int);
                &&& r == keyword_at(old(self).bytes(), p, word@)
                &&& final(self).offset == if r {
                    p + word@.len()
                } else {
                    p
                }
            }),
    {
        proof {
            lemma_skip_ws_from(self.bytes(), self.offset as int);
        }
        self.skip_ws();
        let input = self.input;
        if keyword_in(input.as_bytes(), self.offset, word) {
            self.offset = self.offset + word.len();
            true
        } else {
            false
        }
    }

    fn try_arrow(&mut self) -> (r: bool)
        requires
            old(self).in_text(),
        ensures
            final(self).same_graph(old(self)),
            r == arrow_at(old(self).bytes(), old(self).offset as int),
            final(self).offset == old(self).offset + if r {
                2int
            } else {
                0int
            },
    {
        let bytes = self.input.as_bytes();
        if bytes.len() - self.offset >= 2 && bytes[self.offset] == HYPHEN && bytes[self.offset
            + 1] == GREATER_THAN {
            self.offset = self.offset + 2;
            return true;
        }
        false
    }

    fn skip_optional_semicolon(&mut self)
        requires
            old(self).in_text(),
        ensures
            final(self).same_graph(old(self)),
            final(self).offset == optional_semicolon_end(old(self).bytes(), old(self).offset as int),
    {
        proof {
            lemma_skip_ws_from(self.bytes(), self.offset as int);
        }
        self.skip_ws();
        if self.peek_byte() == Some(SEMICOLON) {
            self.offset = self.offset + 1;
        }
    }

    fn parse_unquoted_id(&mut self) -> (r: String)
        requires
            old(self).in_text(),
            old(self).offset < old(self).bytes().len(),
            id_start_byte(old(self).bytes()[old(self).offset as int]),
        ensures
            final(self).same_graph(old(self)),
            final(self).offset == unquoted_id_end(old(self).bytes(), old(self).offset as int),
            r@ == decode_utf8(
                old(self).bytes().subrange(old(self).offset as int, final(self).offset as int),
            ),
    {
        let input = self.input;
        let bytes = input.as_bytes();
        let ghost s = bytes@;
        let start = self.offset;
        proof {
            lemma_unquoted_id_end(s, start as int);
        }
        while self.offset < bytes.len() && is_id_continue(bytes[self.offset])
            invariant
                bytes@ == s,
                s == old(self).bytes(),
                self.same_graph(old(self)),
                start <= self.offset <= bytes.len(),
                start == old(self).offset,
                id_start_byte(s[start as int]),
                forall|j: int| start <= j < self.offset ==> id_continue_byte(#[trigger] s[j]),
                unquoted_id_end(s, self.offset as int) == unquoted_id_end(s, start as int),
            decreases bytes.len() - self.offset,
        {
            self.offset = self.offset + 1;
        }
        assert(self.offset > start) by {
            assert(id_continue_byte(s[start as int]));
        }
        assert(s[self.offset - 1] < 0x80) by {
            assert(id_continue_byte(s[self.offset - 1]));
        }
        text_between(input, start, self.offset)
    }

    fn parse_quoted_id(&mut self) -> (r: Result<String, NodeIdError>)
        requires
            old(self).in_text(),
        ensures
            final(self).same_graph(old(self)),
            final(self).offset == quoted_id_stop(old(self).bytes(), old(self).offset as int),
            match spec_quoted_id(old(self).bytes(), old(self).offset as int) {
                Ok((id, n)) => r matches Ok(x) && x@ == id,
                Err(e) => r == Err::<String, NodeIdError>(e),
            },
    {
        let input = self.input;
        let bytes = input.as_bytes();
        let ghost s = bytes@;
        proof {
            lemma_skip_ws_from(s, self.offset as int);
        }
        match self.expect_byte(DOUBLE_QUOTE) {
            Ok(()) => {},
            Err(e) => {
                return Err(NodeIdError::OpeningQuote(e));
            },
        }
        let start = self.offset;
        proof {
            lemma_quoted_id_end(s, start as int);
        }
        while self.offset < bytes.len()
            invariant
                bytes@ == s,
                s == old(self).bytes(),
                input.spec_bytes() == s,
                self.same_graph(old(self)),
                start <= self.offset <= bytes.len(),
                spec_expect_byte(s, old(self).offset as int, DOUBLE_QUOTE) == Ok::<
                    int,
                    ExpectByteError,
                >(start as int),
                s[start - 1] == DOUBLE_QUOTE,
                quoted_id_end(s, self.offset as int) == quoted_id_end(s, start as int),
            decreases bytes.len() - self.offset,
        {
            let b = bytes[self.offset];
            if b == DOUBLE_QUOTE {
                let inner = text_between(input, start, self.offset);
                self.offset = self.offset + 1;
                return Ok(inner);
            }
            if b == BACKSLASH {
                return Err(NodeIdError::EscapeSequence { offset: self.offset });
            }
            self.offset = self.offset + 1;
        }
        Err(NodeIdError::Unterminated { start: start - 1 })
    }

    fn parse_node_id(&mut self) -> (r: Result<String, NodeIdError>)
        requires
            old(self).in_text(),
        ensures
            final(self).same_graph(old(self)),
            final(self).offset == node_id_stop(old(self).bytes(), old(self).offset as int),
            match spec_node_id(old(self).bytes(), old(self).offset as int) {
                Ok((id, n)) => r matches Ok(x) && x@ == id && final(self).offset == n,
                Err(e) => r == Err::<String, NodeIdError>(e),
            },
    {
        proof {
            lemma_skip_ws_from(self.bytes(), self.offset as int);
        }
        self.skip_ws();
        proof {
            lemma_skip_ws_from(self.bytes(), self.offset as int);
            lemma_node_id_advances(self.bytes(), self.offset as int);
        }
        match self.peek_byte() {
            Some(b) => {
                if b == DOUBLE_QUOTE {
                    self.parse_quoted_id()
                } else if is_id_start(b) {
                    proof {
                        lemma_unquoted_id_end(self.bytes(), self.offset as int);
                    }
                    Ok(self.parse_unquoted_id())
                } else {
                    Err(NodeIdError::NotAnId { offset: self.offset })
                }
            },
            None => Err(NodeIdError::NotAnId { offset: self.offset }),
        }
    }

    fn intern_node(&mut self, id: String) -> (r: Option<usize>)
        requires
            old(self).well_formed(),
        ensures
            final(self).input == old(self).input,
            final(self).offset == old(self).offset,
            match r {
                Some(idx) => {
                    &&& final(self).well_formed()
                    &&& final(self).model() == intern_model(old(self).model(), id@)
                    &&& idx < dot_graph_nodes(final(self).graph).len()
                    &&& dot_graph_nodes(final(self).graph)[idx as int] == id@
                },
                None => !model_fits_indices(intern_model(old(self).model(), id@)),
            },
    {
        let mut i: usize = 0;
        while i < self.names.len()
            invariant
                self.well_formed(),
                *self == *old(self),
                i <= self.names@.len(),
                forall|j: int| 0 <= j < i ==> dot_graph_nodes(self.graph)[j] != id@,
            decreases self.names@.len() - i,
        {
            if self.names[i] == id {
                assert(self.model().nodes.contains(id@));
                return Some(i);
            }
            i = i + 1;
        }
        let ghost before = self.model();
        assert(!before.nodes.contains(id@));
        if self.names.len() >= 0xffff_ffffusize {
            return None;
        }
        let idx = graph_add_node(&mut self.graph, id.clone());
        self.names.push(id);
        assert(self.model() =~= intern_model(before, id@));
        Some(idx)
    }

    fn ensure_node(&mut self, id: String) -> (r: Result<(), ParseStop>)
        requires
            old(self).well_formed(),
        ensures
            final(self).input == old(self).input,
            final(self).offset == old(self).offset,
            if model_fits_indices(apply_statement(old(self).model(), DotStatement::Node(id@))) {
                &&& r is Ok
                &&& final(self).well_formed()
                &&& final(self).model() == apply_statement(
                    old(self).model(),
                    DotStatement::Node(id@),
                )
            } else {
                r == Err::<(), ParseStop>(ParseStop::IndexSpaceExhausted)
            },
    {
        match self.intern_node(id) {
            Some(_) => Ok(()),
            None => Err(ParseStop::IndexSpaceExhausted),
        }
    }

    fn ensure_edge(&mut self, from: String, to: String) -> (r: Result<(), ParseStop>)
        requires
            old(self).well_formed(),
        ensures
            final(self).input == old(self).input,
            final(self).offset == old(self).offset,
            if model_fits_indices(
                apply_statement(old(self).model(), DotStatement::Edge(from@, to@)),
            ) {
                &&& r is Ok
                &&& final(self).well_formed()
                &&& final(self).model() == apply_statement(
                    old(self).model(),
                    DotStatement::Edge(from@, to@),
                )
            } else {
                r == Err::<(), ParseStop>(ParseStop::IndexSpaceExhausted)
            },
    {
        let ghost m0 = self.model();
        let ghost a = from@;
        let ghost b = to@;
        let ghost st = DotStatement::Edge(a, b);
        let from_idx = match self.intern_node(from) {
            Some(i) => i,
            None => {
                proof {
                    lemma_intern_model_grows(intern_model(m0, a), b);
                }
                return Err(ParseStop::IndexSpaceExhausted);
            },
        };
        let ghost m1 = self.model();
        let to_idx = match self.intern_node(to) {
            Some(i) => i,
            None => {
                return Err(ParseStop::IndexSpaceExhausted);
            },
        };
        let ghost m2 = self.model();
        assert(m2.nodes[from_idx as int] == a);
        proof {
            lemma_index_of_distinct(m2.nodes, from_idx as int);
            lemma_index_of_distinct(m2.nodes, to_idx as int);
        }
        if graph_edge_count(&self.graph) >= 0xffff_ffffusize {
            return Err(ParseStop::IndexSpaceExhausted);
        }
        graph_add_edge(&mut self.graph, from_idx, to_idx);
        assert(self.model() =~= apply_statement(m0, st));
        Ok(())
    }

    fn parse_statement(&mut self) -> (r: Result<(), ParseStop>)
        requires
            old(self).well_formed(),
        ensures
            final(self).input == old(self).input,
            ({
                let s = old(self).bytes();
                let p = skip_ws_from(s, old(self).offset as int);
                if p < s.len() && s[p] == CLOSE_BRACE {
                    &&& r is Ok
                    &&& final(self).offset == p
                    &&& final(self).model() == old(self).model()
                    &&& final(self).well_formed()
                } else {
                    match spec_statement(s, p) {
                        Ok((st, n)) => if model_fits_indices(
                            apply_statement(old(self).model(), st),
                        ) {
                            &&& r is Ok
                            &&& final(self).offset == n
                            &&& final(self).model() == apply_statement(old(self).model(), st)
                            &&& final(self).well_formed()
                        } else {
                            r == Err::<(), ParseStop>(ParseStop::IndexSpaceExhausted)
                        },
                        Err(e) => {
                            &&& r == Err::<(), ParseStop>(ParseStop::Invalid(e))
                            &&& final(self).offset == statement_stop(s, p)
                            &&& final(self).model() == old(self).model()
                            &&& final(self).well_formed()
                        },
                    }
                }
            }),
    {
        let ghost s = self.bytes();
        let ghost start = self.offset as int;
        proof {
            lemma_skip_ws_from(s, start);
        }
        self.skip_ws();
        let ghost p = self.offset as int;
        proof {
            lemma_statement_advances(s, p);
            lemma_node_id_advances(s, p);
            lemma_node_id_stop(s, p);
        }
        if self.peek_byte() == Some(CLOSE_BRACE) {
            return Ok(());
        }
        let first = match self.parse_node_id() {
            Ok(id) => id,
            Err(e) => {
                return Err(ParseStop::Invalid(DotError::ExpectedStatement(e)));
            },
        };
        let ghost n1 = self.offset as int;
        proof {
            lemma_skip_ws_from(s, n1);
        }
        self.skip_ws();
        let ghost q = self.offset as int;
        if self.try_arrow() {
            proof {
                lemma_node_id_advances(s, q + 2);
                lemma_node_id_stop(s, q + 2);
                lemma_skip_ws_from(s, q + 2);
            }
            let target = match self.parse_node_id() {
                Ok(id) => id,
                Err(e) => {
                    return Err(ParseStop::Invalid(DotError::ExpectedTarget(e)));
                },
            };
            let ghost n2 = self.offset as int;
            if let Err(e) = self.ensure_edge(first, target) {
                return Err(e);
            }
            proof {
                lemma_skip_ws_from(s, n2);
            }
            self.skip_ws();
            self.skip_optional_semicolon();
            return Ok(());
        }
        self.skip_optional_semicolon();
        self.ensure_node(first)
    }

    fn parse_body(&mut self) -> (r: Result<(), ParseStop>)
        requires
            old(self).well_formed(),
        ensures
            final(self).input == old(self).input,
            ({
                let s = old(self).bytes();
                let i = old(self).offset as nat;
                if fits_from(old(self).model(), s, i) {
                    &&& final(self).offset == body_stop(s, i)
                    &&& match body_outcome(old(self).model(), s, i) {
                        Ok(m) => r is Ok && final(self).model() == m && final(self).offset
                            == s.len(),
                        Err(e) => r == Err::<(), ParseStop>(ParseStop::Invalid(e)),
                    }
                } else {
                    r == Err::<(), ParseStop>(ParseStop::IndexSpaceExhausted)
                }
            }),
    {
        let ghost s = self.bytes();
        loop
            invariant
                self.well_formed(),
                self.input == old(self).input,
                s == self.bytes(),
                body_outcome(old(self).model(), s, old(self).offset as nat) == body_outcome(
                    self.model(),
                    s,
                    self.offset as nat,
                ),
                fits_from(old(self).model(), s, old(self).offset as nat) == fits_from(
                    self.model(),
                    s,
                    self.offset as nat,
                ),
                body_stop(s, old(self).offset as nat) == body_stop(s, self.offset as nat),
            decreases s.len() - self.offset,
        {
            let ghost i = self.offset;
            let ghost m = self.model();
            proof {
                lemma_skip_ws_from(s, i as int);
                assert(apply_statements(m, seq![]) == m);
            }
            self.skip_ws();
            match self.peek_byte() {
                Some(b) => {
                    if b == CLOSE_BRACE {
                        self.offset = self.offset + 1;
                        proof {
                            lemma_skip_ws_from(s, self.offset as int);
                        }
                        self.skip_ws();
                        if !self.is_eof() {
                            return Err(ParseStop::Invalid(DotError::TrailingContent));
                        }
                        return Ok(());
                    }
                    match self.parse_statement() {
                        Ok(()) => {
                            proof {
                                lemma_body_step(m, s, i as nat);
                            }
                        },
                        Err(e) => {
                            proof {
                                if let Ok((st, n)) = spec_statement(s, skip_ws_from(s, i as int)) {
                                    lemma_body_step(m, s, i as nat);
                                    lemma_apply_statements_grows(
                                        apply_statement(m, st),
                                        statements_read(s, n as nat),
                                    );
                                }
                            }
                            return Err(e);
                        },
                    }
                },
                None => {
                    return Err(ParseStop::Invalid(DotError::Unclosed));
                },
            }
        }
    }

    fn skip_optional_graph_id(&mut self) -> (r: Result<(), DotError>)
        requires
            old(self).in_text(),
        ensures
            final(self).same_graph(old(self)),
            final(self).offset <= old(self).bytes().len(),
            ({
                let s = old(self).bytes();
                let p = skip_ws_from(s, old(self).offset as int);
                if p < s.len() && s[p] == OPEN_BRACE {
                    r is Ok && final(self).offset == p
                } else {
                    &&& final(self).offset == node_id_stop(s, p)
                    &&& match spec_node_id(s, p) {
                        Ok((_, n)) => r is Ok,
                        Err(e) => r == Err::<(), DotError>(DotError::InvalidGraphId(e)),
                    }
                }
            }),
    {
        proof {
            lemma_skip_ws_from(self.bytes(), self.offset as int);
        }
        self.skip_ws();
        proof {
            lemma_node_id_stop(self.bytes(), self.offset as int);
        }
        if self.peek_byte() == Some(OPEN_BRACE) {
            return Ok(());
        }
        match self.parse_node_id() {
            Ok(_) => Ok(()),
            Err(e) => Err(DotError::InvalidGraphId(e)),
        }
    }

    fn parse(self) -> (r: Result<ParsedDot, ParseStop>)
        requires
            self.well_formed(),
            self.offset == 0,
            self.model() == empty_model(),
        ensures
            if dot_fits_graph_indices(self.bytes()) {
                match spec_parse_dot(self.bytes()) {
                    Ok(m) => r matches Ok(p) && graph_model(p.graph) == m,
                    Err(e) => r matches Err(ParseStop::Invalid(x)) && x == e,
                }
            } else {
                r matches Err(ParseStop::IndexSpaceExhausted)
            },
    {
        let mut parser = self;
        let ghost s = parser.bytes();
        proof {
            lemma_skip_ws_from(s, 0);
        }
        parser.skip_ws();
        let strict = strict_keyword_bytes();
        if parser.try_keyword(strict.as_slice()) {
            proof {
                lemma_skip_ws_from(s, parser.offset as int);
            }
            parser.skip_ws();
        }
        let digraph = digraph_keyword_bytes();
        if !parser.try_keyword(digraph.as_slice()) {
            return Err(ParseStop::Invalid(DotError::MissingDigraphKeyword));
        }
        proof {
            lemma_skip_ws_from(s, parser.offset as int);
        }
        parser.skip_ws();
        match parser.skip_optional_graph_id() {
            Ok(()) => {},
            Err(e) => {
                return Err(ParseStop::Invalid(e));
            },
        }
        match parser.expect_byte(OPEN_BRACE) {
            Ok(()) => {},
            Err(e) => {
                return Err(ParseStop::Invalid(DotError::MissingOpenBrace(e)));
            },
        }
        match parser.parse_body() {
            Ok(()) => {},
            Err(e) => {
                return Err(e);
            },
        }
        Ok(ParsedDot { graph: parser.graph })
    }
}

/// Parses the `digraph` subset of DOT that `terraform graph` prints into a directed graph
/// whose nodes are the ids in order of first appearance and whose edges are the `->`
/// statements in order; any other text gives the error that says where reading stopped.
///
/// `requires` leaves out only the texts whose graph would need more than `u32::MAX` nodes
/// or edges, on which adding to the graph panics; `try_parse_dot_to_digraph` takes any text.
pub fn parse_dot_to_digraph(dot: &str) -> (r: Result<ParsedDot, DotError>)
    requires
        dot_fits_graph_indices(dot.spec_bytes()),
    ensures
        match spec_parse_dot(dot.spec_bytes()) {
            Ok(m) => r matches Ok(p) && graph_model(p.graph) == m,
            Err(e) => r matches Err(x) && x == e,
        },
{
    match Parser::new(dot).parse() {
        Ok(parsed) => Ok(parsed),
        Err(ParseStop::Invalid(e)) => Err(e),
        Err(ParseStop::IndexSpaceExhausted) => vstd::pervasive::unreached(),
    }
}

/// `parse_dot_to_digraph` on any text: `None` exactly when the graph would need more than
/// `u32::MAX` nodes or edges.
pub fn try_parse_dot_to_digraph(dot: &str) -> (r: Option<Result<ParsedDot, DotError>>)
    ensures
        r is None <==> !dot_fits_graph_indices(dot.spec_bytes()),
        r matches Some(x) ==> match spec_parse_dot(dot.spec_bytes()) {
            Ok(m) => x matches Ok(p) && graph_model(p.graph) == m,
            Err(e) => x matches Err(y) && y == e,
        },
{
    match Parser::new(dot).parse() {
        Ok(parsed) => Some(Ok(parsed)),
        Err(ParseStop::Invalid(e)) => Some(Err(e)),
        Err(ParseStop::IndexSpaceExhausted) => None,
    }
}

/// Whether the graph has no directed cycle (a self-loop counts as a cycle).
pub fn is_dag(graph: &Graph<String, ()>) -> (r: bool)
    ensures
        r == !has_directed_cycle(dot_graph_edges(*graph)),
{
    !graph_is_cyclic(graph)
}

/// Why a parsed graph is not laid out.
#[derive(Debug, Clone, Copy, PartialEq, Eq, Structural)]
pub enum GraphShapeError {
    /// The graph has no node: there is nothing to show.
    Empty,
    /// The graph has a directed cycle, so it has no top-to-bottom layering.
    Cycle,
}

/// Whether a parsed graph can be laid out as layers: it must have a node and no directed
/// cycle. An empty graph is reported first.
pub fn check_graph_for_layout(graph: &Graph<String, ()>) -> (r: Result<(), GraphShapeError>)
    ensures
        dot_graph_nodes(*graph).len() == 0 ==> r == Err::<(), GraphShapeError>(
            GraphShapeError::Empty,
        ),
        dot_graph_nodes(*graph).len() > 0 && has_directed_cycle(dot_graph_edges(*graph)) ==> r
            == Err::<(), GraphShapeError>(GraphShapeError::Cycle),
        dot_graph_nodes(*graph).len() > 0 && !has_directed_cycle(dot_graph_edges(*graph)) ==> r
            is Ok,
{
    if graph_node_count(graph) == 0 {
        return Err(GraphShapeError::Empty);
    }
    if !is_dag(graph) {
        return Err(GraphShapeError::Cycle);
    }
    Ok(())
}

} // verus!
