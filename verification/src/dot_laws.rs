use vstd::prelude::*;

use crate::dot_layout::{
    lemma_skip_ws_from, skip_ws_from, apply_statement, apply_statements, empty_model, intern_model, spec_body, spec_header,
    spec_parse_dot, DotGraphModel, DotStatement,
};

verus! {

/// Nodes are distinct and every edge joins two nodes.
pub open spec fn model_well_formed(m: DotGraphModel) -> bool {
    &&& m.nodes.no_duplicates()
    &&& forall|k: int|
        0 <= k < m.edges.len() ==> 0 <= (#[trigger] m.edges[k]).0 < m.nodes.len() && 0
            <= m.edges[k].1 < m.nodes.len()
}

/// Each edge, as the ids of its two ends.
pub open spec fn named_edges(m: DotGraphModel) -> Seq<(Seq<char>, Seq<char>)> {
    m.edges.map_values(|e: (int, int)| (m.nodes[e.0], m.nodes[e.1]))
}

/// The ids that a statement names.
pub open spec fn statement_ids(st: DotStatement) -> Set<Seq<char>> {
    match st {
        DotStatement::Node(a) => set![a],
        DotStatement::Edge(a, b) => set![a, b],
    }
}

/// The ids that the statements name.
pub open spec fn statements_ids(sts: Seq<DotStatement>) -> Set<Seq<char>>
    decreases sts.len(),
{
    if sts.len() == 0 {
        Set::empty()
    } else {
        statement_ids(sts[0]).union(statements_ids(sts.drop_first()))
    }
}

/// The `->` statements, in order, as pairs of ids.
pub open spec fn edge_statements(sts: Seq<DotStatement>) -> Seq<(Seq<char>, Seq<char>)>
    decreases sts.len(),
{
    if sts.len() == 0 {
        Seq::empty()
    } else {
        match sts[0] {
            DotStatement::Node(_) => edge_statements(sts.drop_first()),
            DotStatement::Edge(a, b) => seq![(a, b)] + edge_statements(sts.drop_first()),
        }
    }
}

/// `a`'s nodes are the first nodes of `b`.
pub open spec fn nodes_extend(a: DotGraphModel, b: DotGraphModel) -> bool {
    &&& a.nodes.len() <= b.nodes.len()
    &&& forall|k: int| 0 <= k < a.nodes.len() ==> #[trigger] b.nodes[k] == a.nodes[k]
}

proof fn lemma_intern_model(m: DotGraphModel, id: Seq<char>)
    requires
        model_well_formed(m),
    ensures
        ({
            let m2 = intern_model(m, id);
            &&& model_well_formed(m2)
            &&& nodes_extend(m, m2)
            &&& m2.edges == m.edges
            &&& m2.nodes.to_set() == m.nodes.to_set().insert(id)
            &&& m2.nodes.contains(id)
            &&& named_edges(m2) == named_edges(m)
        }),
{
    let m2 = intern_model(m, id);
    if m.nodes.contains(id) {
        assert(m.nodes.to_set() =~= m.nodes.to_set().insert(id));
    } else {
        assert(m2.nodes[m.nodes.len() as int] == id);
        assert(m2.nodes.to_set() =~= m.nodes.to_set().insert(id)) by {
            assert forall|x: Seq<char>| m2.nodes.to_set().contains(x) implies m.nodes.to_set().insert(
                x,
            ).contains(x) by {}
            assert forall|x: Seq<char>| #[trigger] m.nodes.to_set().insert(id).contains(
                x,
            ) implies m2.nodes.to_set().contains(x) by {
                if x == id {
                    assert(m2.nodes[m.nodes.len() as int] == x);
                } else {
                    let k = choose|k: int| 0 <= k < m.nodes.len() && m.nodes[k] == x;
                    assert(m2.nodes[k] == x);
                }
            }
        }
        assert(named_edges(m2) =~= named_edges(m)) by {
            assert forall|k: int| 0 <= k < m.edges.len() implies #[trigger] named_edges(m2)[k]
                == named_edges(m)[k] by {
                assert(0 <= m.edges[k].0 < m.nodes.len());
                assert(0 <= m.edges[k].1 < m.nodes.len());
            }
        }
    }
}

proof fn lemma_apply_statement(m: DotGraphModel, st: DotStatement)
    requires
        model_well_formed(m),
    ensures
        ({
            let m2 = apply_statement(m, st);
            &&& model_well_formed(m2)
            &&& nodes_extend(m, m2)
            &&& m2.nodes.to_set() == m.nodes.to_set().union(statement_ids(st))
            &&& named_edges(m2) == named_edges(m) + edge_statements(seq![st])
        }),
{
    let sq = seq![st];
    assert(sq.drop_first() =~= Seq::<DotStatement>::empty());
    assert(edge_statements(Seq::<DotStatement>::empty()) =~= Seq::empty());
    match st {
        DotStatement::Node(a) => {
            lemma_intern_model(m, a);
            assert(m.nodes.to_set().insert(a) =~= m.nodes.to_set().union(set![a]));
            assert(named_edges(m) + Seq::<(Seq<char>, Seq<char>)>::empty() =~= named_edges(m));
        },
        DotStatement::Edge(a, b) => {
            let m1 = intern_model(m, a);
            lemma_intern_model(m, a);
            lemma_intern_model(m1, b);
            let m2 = intern_model(m1, b);
            let ia = m2.nodes.index_of(a);
            let ib = m2.nodes.index_of(b);
            let ka = choose|k: int| 0 <= k < m1.nodes.len() && m1.nodes[k] == a;
            assert(m2.nodes[ka] == a);
            assert(m2.nodes.contains(a) && m2.nodes.contains(b));
            assert(0 <= ia < m2.nodes.len() && m2.nodes[ia] == a);
            assert(0 <= ib < m2.nodes.len() && m2.nodes[ib] == b);
            let m3 = apply_statement(m, st);
            assert(m3.nodes.to_set() =~= m.nodes.to_set().union(set![a, b]));
            assert(named_edges(m3) =~= named_edges(m2).push((a, b)));
            assert(seq![(a, b)] + Seq::<(Seq<char>, Seq<char>)>::empty() =~= seq![(a, b)]);
        },
    }
}

proof fn lemma_apply_statements(m: DotGraphModel, sts: Seq<DotStatement>)
    requires
        model_well_formed(m),
    ensures
        ({
            let m2 = apply_statements(m, sts);
            &&& model_well_formed(m2)
            &&& nodes_extend(m, m2)
            &&& m2.nodes.to_set() == m.nodes.to_set().union(statements_ids(sts))
            &&& named_edges(m2) == named_edges(m) + edge_statements(sts)
        }),
    decreases sts.len(),
{
    if sts.len() == 0 {
        assert(m.nodes.to_set().union(Set::empty()) =~= m.nodes.to_set());
        assert(named_edges(m) + Seq::<(Seq<char>, Seq<char>)>::empty() =~= named_edges(m));
    } else {
        let st = sts[0];
        let rest = sts.drop_first();
        let m1 = apply_statement(m, st);
        lemma_apply_statement(m, st);
        lemma_apply_statements(m1, rest);
        assert(m.nodes.to_set().union(statement_ids(st)).union(statements_ids(rest))
            =~= m.nodes.to_set().union(statements_ids(sts)));
        let sq = seq![st];
        assert(sq.drop_first() =~= Seq::<DotStatement>::empty());
        assert(edge_statements(Seq::<DotStatement>::empty()) =~= Seq::empty());
        assert(edge_statements(sts) =~= edge_statements(sq) + edge_statements(rest));
        assert(named_edges(m) + edge_statements(sq) + edge_statements(rest) =~= named_edges(m)
            + edge_statements(sts));
    }
}

/// The statements of an accepted text.
pub open spec fn parsed_statements(s: Seq<u8>) -> Seq<DotStatement> {
    spec_body(s, spec_header(s)->Ok_0 as nat)->Ok_0
}

/// The graph of an accepted text has exactly one node for each distinct id that its
/// statements name, and one edge for each `->` statement, in the order of the text, joining
/// the nodes of that statement's two ids.
pub proof fn lemma_parsed_graph_matches_statements(s: Seq<u8>)
    requires
        spec_parse_dot(s) is Ok,
    ensures
        ({
            let m = spec_parse_dot(s)->Ok_0;
            let sts = parsed_statements(s);
            &&& model_well_formed(m)
            &&& m.nodes.to_set() == statements_ids(sts)
            &&& named_edges(m) == edge_statements(sts)
        }),
{
    let sts = parsed_statements(s);
    let e = empty_model();
    assert(e.nodes.to_set() =~= Set::<Seq<char>>::empty());
    assert(named_edges(e) =~= Seq::empty());
    lemma_apply_statements(e, sts);
    assert(Set::<Seq<char>>::empty().union(statements_ids(sts)) =~= statements_ids(sts));
    assert(Seq::<(Seq<char>, Seq<char>)>::empty() + edge_statements(sts) =~= edge_statements(
        sts,
    ));
}

/// The whitespace between tokens is exactly space, tab, line feed and carriage return: from
/// any position the reader passes over bytes of these four kinds only, and stops at the end
/// of the text or at a byte of another kind. So a CR LF line ending separates tokens as a
/// lone line feed does.
pub proof fn lemma_whitespace_is_space_tab_cr_lf(s: Seq<u8>, i: int)
    requires
        0 <= i <= s.len(),
    ensures
        ({
            let p = skip_ws_from(s, i);
            &&& i <= p <= s.len()
            &&& forall|j: int|
                i <= j < p ==> #[trigger] s[j] == 0x20u8 || s[j] == 0x09u8 || s[j] == 0x0au8
                    || s[j] == 0x0du8
            &&& (p == s.len() || !(s[p] == 0x20u8 || s[p] == 0x09u8 || s[p] == 0x0au8 || s[p]
                == 0x0du8))
        }),
{
    lemma_skip_ws_from(s, i);
}

proof fn lemma_skip_over_inserted_carriage_return(s: Seq<u8>, i: int, j: int, k: int)
    requires
        0 <= i <= j <= skip_ws_from(s, i),
        i <= s.len(),
        i <= k <= skip_ws_from(s, i) + 1,
    ensures
        skip_ws_from(s.insert(j, 0x0du8), k) == skip_ws_from(s, i) + 1,
    decreases skip_ws_from(s, i) + 1 - k,
{
    let p = skip_ws_from(s, i);
    let t = s.insert(j, 0x0du8);
    lemma_skip_ws_from(s, i);
    if k <= p {
        if k < j {
            assert(t[k] == s[k]);
        } else if k > j {
            assert(t[k] == s[k - 1]);
        }
        lemma_skip_over_inserted_carriage_return(s, i, j, k + 1);
    } else if p < s.len() {
        assert(t[p + 1] == s[p]);
    }
}

/// A carriage return is whitespace between tokens: put into a run of whitespace (as a
/// line ending written CR LF puts one before the line feed), it lengthens the run by one
/// byte and leaves everything after the run as it was.
pub proof fn lemma_carriage_return_in_whitespace(s: Seq<u8>, i: int, j: int)
    requires
        0 <= i <= j <= skip_ws_from(s, i),
        i <= s.len(),
    ensures
        skip_ws_from(s.insert(j, 0x0du8), i) == skip_ws_from(s, i) + 1,
        s.insert(j, 0x0du8).skip(skip_ws_from(s, i) + 1) == s.skip(skip_ws_from(s, i)),
{
    lemma_skip_ws_from(s, i);
    lemma_skip_over_inserted_carriage_return(s, i, j, i);
    let p = skip_ws_from(s, i);
    assert(s.insert(j, 0x0du8).skip(p + 1) =~= s.skip(p));
}

} // verus!
