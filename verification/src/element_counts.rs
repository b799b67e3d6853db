//! Element counts as the debug output shows them.
//!
//! The Workshop element-count report is a tree of rules, conditions, actions
//! and values. The debug output counts each of them the way the Workshop's
//! own editor does and writes the counts as comments into the emitted text.
use vstd::prelude::*;
use crate::declaration_sections::{inclusive_lines, line_list, line_views, trimmed, trimmed_chars};
use crate::diagnostics::IntegrationError;
use crate::hir::{ResolvedProgram, SourceFile};
use workshop_rs::catalog::Catalog;
use workshop_rs::element_count::{ElementCountError, ElementNodeKind};
use crate::strings::{chars_of, decimal, decimal_chars, push_chars, push_str, starts_with, str_eq, string_of};

verus! {

/// What a node of the element-count report stands for.
#[derive(Clone, Copy, Debug, PartialEq, Eq, Structural)]
pub enum NodeKind {
    Rule,
    Condition,
    Action,
    Value,
}

/// One node of the element-count report: what it is, its name, the index
/// of the source file it came from, and its nested nodes.
#[derive(Debug)]
pub struct CountNode {
    pub kind: NodeKind,
    pub name: String,
    pub file: Option<u32>,
    pub children: Vec<CountNode>,
}

/// `a - b`, or zero where `b` is larger.
pub open spec fn sat_sub(a: nat, b: nat) -> nat {
    if a >= b {
        (a - b) as nat
    } else {
        0
    }
}

/// The number of nodes of a tree.
pub open spec fn node_size(n: CountNode) -> nat
    decreases n, 0nat,
{
    1 + nodes_size(n.children@)
}

/// The number of nodes of the trees.
pub open spec fn nodes_size(s: Seq<CountNode>) -> nat
    decreases s, 1nat,
{
    if s.len() == 0 {
        0
    } else {
        nodes_size(s.subrange(0, s.len() - 1)) + node_size(s[s.len() - 1])
    }
}

/// The elements that a value named `name` with `len` children costs, where
/// the children cost `children`.
pub open spec fn value_cost(name: Seq<char>, len: nat, children: nat) -> nat {
    if name == "number"@ || name == "global variable"@ || name == "localized string"@ {
        2
    } else if name == "customString"@ {
        1 + sat_sub(4, len) + children
    } else if name == "Team"@ || name == "Color"@ {
        1 + if children >= 1 {
            children
        } else {
            1
        }
    } else if name == "array"@ || name == "evalOnce"@ {
        2 + children
    } else if len == 0 {
        1
    } else {
        1 + children
    }
}

/// The elements that a value costs.
pub open spec fn value_count(n: CountNode) -> nat
    decreases n, 0nat,
{
    value_cost(n.name@, n.children@.len(), value_sum(n.children@))
}

/// The elements that the values cost, added up.
pub open spec fn value_sum(s: Seq<CountNode>) -> nat
    decreases s, 1nat,
{
    if s.len() == 0 {
        0
    } else {
        value_sum(s.subrange(0, s.len() - 1)) + value_count(s[s.len() - 1])
    }
}

/// The elements that the value nodes among `s` cost, added up.
pub open spec fn kind_value_sum(s: Seq<CountNode>) -> nat
    decreases s.len(),
{
    if s.len() == 0 {
        0
    } else {
        kind_value_sum(s.subrange(0, s.len() - 1)) + if s[s.len() - 1].kind == NodeKind::Value {
            value_count(s[s.len() - 1])
        } else {
            0
        }
    }
}

/// How many of `s` are value nodes.
pub open spec fn value_arguments(s: Seq<CountNode>) -> nat
    decreases s.len(),
{
    if s.len() == 0 {
        0
    } else {
        value_arguments(s.subrange(0, s.len() - 1)) + if s[s.len() - 1].kind == NodeKind::Value {
            1nat
        } else {
            0
        }
    }
}

/// The elements of a condition: its values, one fewer where it compares two.
pub open spec fn condition_count(n: CountNode) -> nat {
    sat_sub(value_sum(n.children@), if n.children@.len() > 1 {
        1
    } else {
        0
    })
}

/// The elements of an action itself: one, and its value arguments less one
/// each.
pub open spec fn action_local_count(n: CountNode) -> nat {
    1 + sat_sub(kind_value_sum(n.children@), value_arguments(n.children@))
}

/// The elements of an action with the actions nested in it.
pub open spec fn action_count(n: CountNode) -> nat
    decreases n, 0nat,
{
    action_local_count(n) + nested_action_sum(n.children@)
}

/// The elements of the action nodes among `s`, added up.
pub open spec fn nested_action_sum(s: Seq<CountNode>) -> nat
    decreases s, 1nat,
{
    if s.len() == 0 {
        0
    } else {
        nested_action_sum(s.subrange(0, s.len() - 1)) + if s[s.len() - 1].kind
            == NodeKind::Action {
            action_count(s[s.len() - 1])
        } else {
            0
        }
    }
}

/// The elements of one child of a rule.
pub open spec fn rule_child_count(c: CountNode) -> nat {
    match c.kind {
        NodeKind::Condition => condition_count(c),
        NodeKind::Action => action_count(c),
        _ => 0,
    }
}

/// The elements of the children of a rule, added up.
pub open spec fn rule_children_sum(s: Seq<CountNode>) -> nat
    decreases s.len(),
{
    if s.len() == 0 {
        0
    } else {
        rule_children_sum(s.subrange(0, s.len() - 1)) + rule_child_count(s[s.len() - 1])
    }
}

/// The elements of a rule: one, and those of its conditions and actions.
pub open spec fn rule_count(n: CountNode) -> nat {
    1 + rule_children_sum(n.children@)
}

/// The nodes of kind `k` among the trees `s`, each before the nodes nested
/// in it, in order.
pub open spec fn collect_kind(s: Seq<CountNode>, k: NodeKind) -> Seq<CountNode>
    decreases s, 1nat,
{
    if s.len() == 0 {
        Seq::empty()
    } else {
        collect_kind(s.subrange(0, s.len() - 1), k) + collect_node(s[s.len() - 1], k)
    }
}

/// The nodes of kind `k` in the tree `n`, `n` first.
pub open spec fn collect_node(n: CountNode, k: NodeKind) -> Seq<CountNode>
    decreases n, 0nat,
{
    (if n.kind == k {
        seq![n]
    } else {
        Seq::empty()
    }) + collect_kind(n.children@, k)
}

/// A prefix of the trees has no more nodes than all of them, and each tree
/// no more than all of them.
pub proof fn lemma_sizes_prefix(s: Seq<CountNode>, i: int)
    requires
        0 <= i <= s.len(),
    ensures
        nodes_size(s.take(i)) <= nodes_size(s),
        i < s.len() ==> nodes_size(s.take(i + 1)) == nodes_size(s.take(i)) + node_size(s[i]),
    decreases s.len() - i,
{
    if i < s.len() {
        assert(s.take(i + 1).subrange(0, i) =~= s.take(i));
        lemma_sizes_prefix(s, i + 1);
    } else {
        assert(s.take(i) =~= s);
    }
}

/// A value costs at most five elements per node.
pub proof fn lemma_value_bound(n: CountNode)
    ensures
        value_count(n) <= 5 * node_size(n),
    decreases n, 0nat,
{
    lemma_value_sum_bound(n.children@);
}

/// Values cost at most five elements per node.
pub proof fn lemma_value_sum_bound(s: Seq<CountNode>)
    ensures
        value_sum(s) <= 5 * nodes_size(s),
    decreases s, 1nat,
{
    if s.len() > 0 {
        lemma_value_sum_bound(s.subrange(0, s.len() - 1));
        lemma_value_bound(s[s.len() - 1]);
    }
}

/// The value nodes among `s` cost no more than all of them counted as values.
pub proof fn lemma_kind_value_le(s: Seq<CountNode>)
    ensures
        kind_value_sum(s) <= value_sum(s),
        value_arguments(s) <= s.len(),
    decreases s.len(),
{
    if s.len() > 0 {
        lemma_kind_value_le(s.subrange(0, s.len() - 1));
    }
}

/// An action costs at most five elements per node.
pub proof fn lemma_action_bound(n: CountNode)
    ensures
        action_count(n) <= 5 * node_size(n),
    decreases n, 0nat,
{
    lemma_children_bound(n.children@);
}

/// The value and action children cost at most five elements per node.
pub proof fn lemma_children_bound(s: Seq<CountNode>)
    ensures
        kind_value_sum(s) + nested_action_sum(s) <= 5 * nodes_size(s),
    decreases s, 1nat,
{
    if s.len() > 0 {
        lemma_children_bound(s.subrange(0, s.len() - 1));
        let last = s[s.len() - 1];
        if last.kind == NodeKind::Value {
            lemma_value_bound(last);
        } else if last.kind == NodeKind::Action {
            lemma_action_bound(last);
        }
    }
}

/// The children of a rule cost at most five elements per node.
pub proof fn lemma_rule_children_bound(s: Seq<CountNode>)
    ensures
        rule_children_sum(s) <= 5 * nodes_size(s),
    decreases s.len(),
{
    if s.len() > 0 {
        lemma_rule_children_bound(s.subrange(0, s.len() - 1));
        let last = s[s.len() - 1];
        assert(node_size(last) == 1 + nodes_size(last.children@));
        if last.kind == NodeKind::Condition {
            lemma_value_sum_bound(last.children@);
        } else if last.kind == NodeKind::Action {
            lemma_action_bound(last);
        }
    }
}

/// The elements that a value costs.
pub fn debug_value_count(node: &CountNode) -> (r: usize)
    requires
        5 * node_size(*node) <= usize::MAX,
    ensures
        r == value_count(*node),
    decreases *node,
{
    let ghost ch = node.children@;
    let mut children: usize = 0;
    let mut i: usize = 0;
    while i < node.children.len()
        invariant
            ch == node.children@,
            i <= ch.len(),
            node_size(*node) == 1 + nodes_size(ch),
            5 * node_size(*node) <= usize::MAX,
            children == value_sum(ch.take(i as int)),
            forall|k: int| 0 <= k < ch.len() ==> decreases_to!(*node => #[trigger] ch[k]),
        decreases ch.len() - i,
    {
        proof {
            lemma_sizes_prefix(ch, i as int);
            lemma_sizes_prefix(ch, i + 1);
            lemma_value_sum_bound(ch.take(i + 1));
            assert(ch.take(i + 1).subrange(0, i as int) =~= ch.take(i as int));
        }
        let c = debug_value_count(&node.children[i]);
        children = children + c;
        i = i + 1;
    }
    proof {
        assert(ch.take(ch.len() as int) =~= ch);
        lemma_value_bound(*node);
    }
    value_cost_of(node.name.as_str(), node.children.len(), children)
}

/// The elements that a value named `name` with `len` children costs.
fn value_cost_of(name: &str, len: usize, children: usize) -> (r: usize)
    requires
        value_cost(name@, len as nat, children as nat) <= usize::MAX,
    ensures
        r == value_cost(name@, len as nat, children as nat),
{
    if str_eq(name, "number") || str_eq(name, "global variable") || str_eq(name, "localized string") {
        2
    } else if str_eq(name, "customString") {
        1 + (4usize).saturating_sub(len) + children
    } else if str_eq(name, "Team") || str_eq(name, "Color") {
        1 + if children >= 1 {
            children
        } else {
            1
        }
    } else if str_eq(name, "array") || str_eq(name, "evalOnce") {
        2 + children
    } else if len == 0 {
        1
    } else {
        1 + children
    }
}

/// The elements that the nodes cost, each counted as a value.
fn sum_value_counts(nodes: &Vec<CountNode>) -> (r: usize)
    requires
        5 * nodes_size(nodes@) <= usize::MAX,
    ensures
        r == value_sum(nodes@),
{
    let mut sum: usize = 0;
    let mut i: usize = 0;
    while i < nodes.len()
        invariant
            i <= nodes@.len(),
            5 * nodes_size(nodes@) <= usize::MAX,
            sum == value_sum(nodes@.take(i as int)),
        decreases nodes@.len() - i,
    {
        proof {
            lemma_sizes_prefix(nodes@, i as int);
            lemma_sizes_prefix(nodes@, i + 1);
            lemma_value_sum_bound(nodes@.take(i + 1));
            assert(nodes@.take(i + 1).subrange(0, i as int) =~= nodes@.take(i as int));
        }
        let c = debug_value_count(&nodes[i]);
        sum = sum + c;
        i = i + 1;
    }
    proof {
        assert(nodes@.take(nodes@.len() as int) =~= nodes@);
    }
    sum
}

/// The elements of a condition: its values, one fewer where it compares two.
pub fn debug_condition_count(node: &CountNode) -> (r: usize)
    requires
        5 * node_size(*node) <= usize::MAX,
    ensures
        r == condition_count(*node),
{
    let values = sum_value_counts(&node.children);
    values.saturating_sub(if node.children.len() > 1 {
        1
    } else {
        0
    })
}

/// The elements of an action itself: one, and its value arguments less one
/// each.
pub fn debug_action_local_count(node: &CountNode) -> (r: usize)
    requires
        5 * node_size(*node) <= usize::MAX,
    ensures
        r == action_local_count(*node),
{
    let ghost ch = node.children@;
    let mut values: usize = 0;
    let mut arguments: usize = 0;
    let mut i: usize = 0;
    while i < node.children.len()
        invariant
            ch == node.children@,
            i <= ch.len(),
            node_size(*node) == 1 + nodes_size(ch),
            5 * node_size(*node) <= usize::MAX,
            values == kind_value_sum(ch.take(i as int)),
            arguments == value_arguments(ch.take(i as int)),
        decreases ch.len() - i,
    {
        proof {
            lemma_sizes_prefix(ch, i as int);
            lemma_sizes_prefix(ch, i + 1);
            lemma_value_sum_bound(ch.take(i + 1));
            lemma_kind_value_le(ch.take(i + 1));
            assert(ch.take(i + 1).subrange(0, i as int) =~= ch.take(i as int));
            assert(ch.take(i + 1)[i as int] == ch[i as int]);
        }
        if node.children[i].kind == NodeKind::Value {
            let c = debug_value_count(&node.children[i]);
            values = values + c;
            arguments = arguments + 1;
        }
        i = i + 1;
    }
    proof {
        assert(ch.take(ch.len() as int) =~= ch);
        lemma_kind_value_le(ch);
        lemma_value_sum_bound(ch);
    }
    1 + values.saturating_sub(arguments)
}

/// The elements of an action with the actions nested in it.
pub fn debug_action_count(node: &CountNode) -> (r: usize)
    requires
        5 * node_size(*node) <= usize::MAX,
    ensures
        r == action_count(*node),
    decreases *node,
{
    let ghost ch = node.children@;
    let local = debug_action_local_count(node);
    let mut nested: usize = 0;
    let mut i: usize = 0;
    proof {
        lemma_action_bound(*node);
        lemma_kind_value_le(ch);
    }
    while i < node.children.len()
        invariant
            ch == node.children@,
            i <= ch.len(),
            node_size(*node) == 1 + nodes_size(ch),
            5 * node_size(*node) <= usize::MAX,
            local == action_local_count(*node),
            local + nested_action_sum(ch) <= usize::MAX,
            nested == nested_action_sum(ch.take(i as int)),
            forall|k: int| 0 <= k < ch.len() ==> decreases_to!(*node => #[trigger] ch[k]),
        decreases ch.len() - i,
    {
        proof {
            lemma_sizes_prefix(ch, i as int);
            lemma_sizes_prefix(ch, i + 1);
            lemma_nested_prefix(ch, i + 1);
            assert(ch.take(i + 1).subrange(0, i as int) =~= ch.take(i as int));
            assert(ch.take(i + 1)[i as int] == ch[i as int]);
        }
        if node.children[i].kind == NodeKind::Action {
            let c = debug_action_count(&node.children[i]);
            nested = nested + c;
        }
        i = i + 1;
    }
    proof {
        assert(ch.take(ch.len() as int) =~= ch);
    }
    local + nested
}

/// The nested actions of a prefix cost no more than those of all children.
proof fn lemma_nested_prefix(s: Seq<CountNode>, i: int)
    requires
        0 <= i <= s.len(),
    ensures
        nested_action_sum(s.take(i)) <= nested_action_sum(s),
    decreases s.len() - i,
{
    if i < s.len() {
        assert(s.take(i + 1).subrange(0, i) =~= s.take(i));
        lemma_nested_prefix(s, i + 1);
    } else {
        assert(s.take(i) =~= s);
    }
}

/// The children of a prefix cost no more than all children of the rule.
proof fn lemma_rule_prefix(s: Seq<CountNode>, i: int)
    requires
        0 <= i <= s.len(),
    ensures
        rule_children_sum(s.take(i)) <= rule_children_sum(s),
    decreases s.len() - i,
{
    if i < s.len() {
        assert(s.take(i + 1).subrange(0, i) =~= s.take(i));
        lemma_rule_prefix(s, i + 1);
    } else {
        assert(s.take(i) =~= s);
    }
}

/// The elements of a rule: one, and those of its conditions and actions.
pub fn debug_rule_count(node: &CountNode) -> (r: usize)
    requires
        5 * node_size(*node) <= usize::MAX,
    ensures
        r == rule_count(*node),
{
    let ghost ch = node.children@;
    let mut sum: usize = 0;
    let mut i: usize = 0;
    proof {
        lemma_rule_children_bound(ch);
    }
    while i < node.children.len()
        invariant
            ch == node.children@,
            i <= ch.len(),
            node_size(*node) == 1 + nodes_size(ch),
            5 * node_size(*node) <= usize::MAX,
            rule_children_sum(ch) <= 5 * nodes_size(ch),
            sum == rule_children_sum(ch.take(i as int)),
        decreases ch.len() - i,
    {
        proof {
            lemma_sizes_prefix(ch, i as int);
            lemma_sizes_prefix(ch, i + 1);
            lemma_rule_prefix(ch, i + 1);
            assert(ch.take(i + 1).subrange(0, i as int) =~= ch.take(i as int));
            assert(ch.take(i + 1)[i as int] == ch[i as int]);
        }
        let child = &node.children[i];
        let c = match child.kind {
            NodeKind::Condition => debug_condition_count(child),
            NodeKind::Action => debug_action_count(child),
            _ => 0,
        };
        sum = sum + c;
        i = i + 1;
    }
    proof {
        assert(ch.take(ch.len() as int) =~= ch);
    }
    1 + sum
}

/// The plain values behind a list of references.
pub open spec fn node_refs(v: Seq<&CountNode>) -> Seq<CountNode> {
    v.map_values(|x: &CountNode| *x)
}

/// Appends the nodes of kind `kind` among the trees `nodes`, each before the
/// nodes nested in it.
pub fn collect_element_nodes<'a>(
    nodes: &'a Vec<CountNode>,
    kind: NodeKind,
    collected: &mut Vec<&'a CountNode>,
)
    ensures
        node_refs(final(collected)@) == node_refs(old(collected)@) + collect_kind(nodes@, kind),
    decreases nodes@,
{
    let ghost start = node_refs(collected@);
    let mut i: usize = 0;
    while i < nodes.len()
        invariant
            i <= nodes@.len(),
            node_refs(collected@) == start + collect_kind(nodes@.take(i as int), kind),
            forall|k: int| 0 <= k < nodes@.len() ==> decreases_to!(nodes@ => (#[trigger] nodes@[k]).children@),
        decreases nodes@.len() - i,
    {
        let ghost before = node_refs(collected@);
        let node = &nodes[i];
        proof {
            assert(nodes@.take(i + 1).subrange(0, i as int) =~= nodes@.take(i as int));
            assert(nodes@.take(i + 1)[i as int] == nodes@[i as int]);
        }
        if node.kind == kind {
            collected.push(node);
            assert(node_refs(collected@) =~= before.push(*node));
        }
        let ghost mid = node_refs(collected@);
        assert(mid =~= before + (if node.kind == kind {
            seq![*node]
        } else {
            Seq::<CountNode>::empty()
        }));
        assert(collect_kind(nodes@.take(i + 1), kind) == collect_kind(nodes@.take(i as int), kind)
            + collect_node(nodes@[i as int], kind));
        assert(decreases_to!(nodes@ => node.children@));
        collect_element_nodes(&node.children, kind, collected);
        assert(node_refs(collected@) =~= start + collect_kind(nodes@.take(i + 1), kind));
        i = i + 1;
    }
    assert(nodes@.take(nodes@.len() as int) =~= nodes@);
}

/// Whether rule `a` comes before rule `b` in the summary: more elements
/// first, and in rule order where the counts are equal.
pub open spec fn ranks_before(counts: Seq<usize>, a: int, b: int) -> bool {
    counts[a] > counts[b] || (counts[a] == counts[b] && a < b)
}

/// Whether `o` lists the rules of more than one element, most elements
/// first and in rule order where the counts are equal.
pub open spec fn summary_order_ok(o: Seq<usize>, counts: Seq<usize>) -> bool {
    &&& forall|p: int| 0 <= p < o.len() ==> (#[trigger] o[p]) < counts.len() && counts[o[p] as int] > 1
    &&& forall|i: usize| i < counts.len() && counts[i as int] > 1 ==> #[trigger] o.contains(i)
    &&& forall|p: int, q: int|
        0 <= p < q < o.len() ==> ranks_before(counts, #[trigger] o[p] as int, #[trigger] o[q] as int)
}

/// There is only one such order.
pub proof fn lemma_summary_order_unique(o1: Seq<usize>, o2: Seq<usize>, counts: Seq<usize>)
    requires
        summary_order_ok(o1, counts),
        summary_order_ok(o2, counts),
    ensures
        o1 == o2,
{
    lemma_summary_prefix(o1, o2, counts, o1.len() as int);
    lemma_summary_prefix(o2, o1, counts, o2.len() as int);
    if o1.len() < o2.len() {
        let b = o2[o1.len() as int];
        assert(o1.contains(b));
        let q = choose|q: int| 0 <= q < o1.len() && o1[q] == b;
        assert(o2[q] == b);
        assert(ranks_before(counts, o2[q] as int, o2[o1.len() as int] as int));
    } else if o2.len() < o1.len() {
        let b = o1[o2.len() as int];
        assert(o2.contains(b));
        let q = choose|q: int| 0 <= q < o2.len() && o2[q] == b;
        assert(o1[q] == b);
        assert(ranks_before(counts, o1[q] as int, o1[o2.len() as int] as int));
    }
    assert(o1 =~= o2);
}

/// Two such orders agree on their first `p` entries, as far as both go.
proof fn lemma_summary_prefix(o1: Seq<usize>, o2: Seq<usize>, counts: Seq<usize>, p: int)
    requires
        summary_order_ok(o1, counts),
        summary_order_ok(o2, counts),
        0 <= p <= o1.len(),
    ensures
        forall|k: int| 0 <= k < p && k < o2.len() ==> o1[k] == o2[k],
    decreases p,
{
    if p > 0 {
        lemma_summary_prefix(o1, o2, counts, p - 1);
        let k = p - 1;
        if k < o2.len() && o1[k] != o2[k] {
            let a = o1[k];
            let b = o2[k];
            assert(o1.contains(b));
            let q = choose|q: int| 0 <= q < o1.len() && o1[q] == b;
            if q < k {
                assert(o2[q] == b);
                assert(ranks_before(counts, o2[q] as int, o2[k] as int));
            }
            assert(o2.contains(a));
            let r = choose|r: int| 0 <= r < o2.len() && o2[r] == a;
            if r < k {
                assert(o1[r] == a);
                assert(ranks_before(counts, o1[r] as int, o1[k] as int));
            }
            assert(q != k);
            assert(r != k);
            assert(ranks_before(counts, o1[k] as int, o1[q] as int));
            assert(ranks_before(counts, o2[k] as int, o2[r] as int));
        }
    }
}

/// The rules of more than one element, most elements first and in rule
/// order where the counts are equal.
pub fn summary_order(counts: &Vec<usize>) -> (o: Vec<usize>)
    ensures
        summary_order_ok(o@, counts@),
{
    let mut o: Vec<usize> = Vec::new();
    let mut i: usize = 0;
    while i < counts.len()
        invariant
            i <= counts@.len(),
            forall|p: int| 0 <= p < o@.len() ==> (#[trigger] o@[p]) < i && counts@[o@[p] as int] > 1,
            forall|j: usize| j < i && counts@[j as int] > 1 ==> #[trigger] o@.contains(j),
            forall|p: int, q: int|
                0 <= p < q < o@.len() ==> ranks_before(counts@, #[trigger] o@[p] as int, #[trigger] o@[q] as int),
        decreases counts@.len() - i,
    {
        if counts[i] > 1 {
            let mut p: usize = 0;
            while p < o.len() && counts[o[p]] >= counts[i]
                invariant
                    p <= o@.len(),
                    i < counts@.len(),
                    forall|k: int| 0 <= k < o@.len() ==> (#[trigger] o@[k]) < i,
                    forall|k: int| 0 <= k < p ==> counts@[(#[trigger] o@[k]) as int] >= counts@[i as int],
                decreases o@.len() - p,
            {
                p = p + 1;
            }
            let ghost old_o = o@;
            o.insert(p, i);
            proof {
                assert forall|k: int| 0 <= k < o@.len() implies #[trigger] o@[k] == (if k < p as int {
                    old_o[k]
                } else if k == p as int {
                    i
                } else {
                    old_o[k - 1]
                }) by {
                    assert(o@ == old_o.insert(p as int, i));
                }
                assert forall|a: int, b: int| 0 <= a < b < o@.len() implies ranks_before(
                    counts@,
                    #[trigger] o@[a] as int,
                    #[trigger] o@[b] as int,
                ) by {
                    if a < p as int && b == p as int {
                        assert(o@[a] == old_o[a]);
                    } else if a == p as int {
                        assert(o@[b] == old_o[b - 1]);
                        if b - 1 > p as int {
                            assert(ranks_before(counts@, old_o[p as int] as int, old_o[b - 1] as int));
                        }
                    } else if a < p as int {
                        assert(o@[a] == old_o[a]);
                        if b < p as int {
                            assert(o@[b] == old_o[b]);
                        } else {
                            assert(o@[b] == old_o[b - 1]);
                        }
                    } else {
                        assert(o@[a] == old_o[a - 1]);
                        assert(o@[b] == old_o[b - 1]);
                    }
                }
                assert forall|j: usize| j < i + 1 && counts@[j as int] > 1 implies #[trigger] o@.contains(
                    j,
                ) by {
                    if j < i {
                        assert(old_o.contains(j));
                        let k = choose|k: int| 0 <= k < old_o.len() && old_o[k] == j;
                        if k < p as int {
                            assert(o@[k] == old_o[k]);
                        } else {
                            assert(o@[k + 1] == old_o[k]);
                        }
                    } else {
                        assert(o@[p as int] == i);
                    }
                }
                assert forall|q: int| 0 <= q < o@.len() implies (#[trigger] o@[q]) < i + 1 && counts@[o@[q] as int] > 1 by {
                    if q < p as int {
                        assert(o@[q] == old_o[q]);
                    } else if q > p as int {
                        assert(o@[q] == old_o[q - 1]);
                    }
                }
            }
        }
        i = i + 1;
    }
    o
}

/// The count of each rule, in rule order.
pub open spec fn rule_count_seq(rules: Seq<CountNode>) -> Seq<usize> {
    Seq::new(rules.len(), |i: int| rule_count(rules[i]) as usize)
}

/// The counts of the rules, added up.
pub open spec fn rules_total(rules: Seq<CountNode>) -> nat
    decreases rules.len(),
{
    if rules.len() == 0 {
        0
    } else {
        rules_total(rules.subrange(0, rules.len() - 1)) + rule_count(rules[rules.len() - 1])
    }
}

/// A number right-aligned in `w` columns.
pub open spec fn right_aligned(d: Seq<char>, w: nat) -> Seq<char> {
    if d.len() < w {
        Seq::new((w - d.len()) as nat, |i: int| ' ') + d
    } else {
        d
    }
}

/// The path of the first file with this id.
pub open spec fn file_path(files: Seq<SourceFile>, id: u32) -> Option<Seq<char>>
    decreases files.len(),
{
    if files.len() == 0 {
        None
    } else if files[0].id == id {
        Some(files[0].path@)
    } else {
        file_path(files.subrange(1, files.len() as int), id)
    }
}

/// ` (path)` for the file a rule came from, where it is known.
pub open spec fn source_suffix(files: Seq<SourceFile>, file: Option<u32>) -> Seq<char> {
    match file {
        Some(id) => match file_path(files, id) {
            Some(path) => " ("@ + path + ")"@,
            None => Seq::empty(),
        },
        None => Seq::empty(),
    }
}

/// The summary line of a rule: its count right-aligned in five columns,
/// its name and its source file.
pub open spec fn summary_line(rule: CountNode, count: nat, files: Seq<SourceFile>) -> Seq<char> {
    right_aligned(decimal(count), 5) + ": rule \""@ + rule.name@ + "\""@ + source_suffix(
        files,
        rule.file,
    ) + "\n"@
}

/// The summary lines of the rules in the order `o`.
pub open spec fn summary_lines(rules: Seq<CountNode>, files: Seq<SourceFile>, o: Seq<usize>) -> Seq<char>
    decreases o.len(),
{
    if o.len() == 0 {
        Seq::empty()
    } else {
        summary_lines(rules, files, o.subrange(0, o.len() - 1)) + summary_line(
            rules[o[o.len() - 1] as int],
            rule_count(rules[o[o.len() - 1] as int]),
            files,
        )
    }
}

/// The comment block in front of the output: the total, then the rules of
/// more than one element in the order `o`.
pub open spec fn summary_text(rules: Seq<CountNode>, files: Seq<SourceFile>, o: Seq<usize>) -> Seq<char> {
    "/* Element count: (total "@ + decimal(rules_total(rules)) + ")\n\n"@ + summary_lines(
        rules,
        files,
        o,
    ) + "\n*/\n\n"@
}

/// Where the annotation of the output stands after some lines.
pub struct Annotation {
    pub rule_index: int,
    pub condition_index: int,
    pub action_index: int,
    pub in_conditions: bool,
    pub in_actions: bool,
    pub conditions: Seq<CountNode>,
    pub actions: Seq<CountNode>,
    pub text: Seq<char>,
}

/// The comment above a rule of more than one element.
pub open spec fn rule_comment(c: nat) -> Seq<char> {
    if c > 1 {
        "//"@ + decimal(c) + " elements\n"@
    } else {
        Seq::empty()
    }
}

/// The comment after a condition or action line.
pub open spec fn count_comment(c: nat) -> Seq<char> {
    " // "@ + decimal(c) + if c == 1 {
        " element\n"@
    } else {
        " elements\n"@
    }
}

/// The line without its trailing line breaks.
pub open spec fn strip_newlines(l: Seq<char>) -> Seq<char>
    decreases l.len(),
{
    if l.len() > 0 && l[l.len() - 1] == '\n' {
        strip_newlines(l.subrange(0, l.len() - 1))
    } else {
        l
    }
}

/// What a line tells of where the annotation stands: a new rule, the start
/// of its conditions or actions, or their end.
pub open spec fn header_step(st: Annotation, line: Seq<char>, rules: Seq<CountNode>) -> Annotation {
    let t = trimmed(line);
    if starts_with(line, "rule ("@) {
        let st0 = if 0 <= st.rule_index < rules.len() {
            let rule = rules[st.rule_index];
            Annotation {
                text: st.text + rule_comment(rule_count(rule)),
                conditions: collect_kind(rule.children@, NodeKind::Condition),
                actions: collect_kind(rule.children@, NodeKind::Action),
                ..st
            }
        } else {
            st
        };
        Annotation {
            rule_index: st.rule_index + 1,
            condition_index: 0,
            action_index: 0,
            in_conditions: false,
            in_actions: false,
            ..st0
        }
    } else if t == "conditions {"@ {
        Annotation { in_conditions: true, in_actions: false, ..st }
    } else if t == "actions {"@ {
        Annotation { in_conditions: false, in_actions: true, ..st }
    } else if st.in_actions && starts_with(line, "    }"@) {
        Annotation { in_actions: false, ..st }
    } else if st.in_conditions && starts_with(line, "    }"@) {
        Annotation { in_conditions: false, ..st }
    } else {
        st
    }
}

/// Whether the line is an indented condition or action, ending with `;`.
pub open spec fn is_element_line(line: Seq<char>) -> bool {
    let t = trimmed(line);
    starts_with(line, "        "@) && t.len() > 0 && t[t.len() - 1] == ';'
}

/// One line of the output, annotated.
pub open spec fn annotate_step(st: Annotation, line: Seq<char>, rules: Seq<CountNode>) -> Annotation {
    let s1 = header_step(st, line, rules);
    if s1.in_conditions && is_element_line(line) && 0 <= s1.condition_index < s1.conditions.len() {
        Annotation {
            text: s1.text + strip_newlines(line) + count_comment(
                condition_count(s1.conditions[s1.condition_index]),
            ),
            condition_index: s1.condition_index + 1,
            ..s1
        }
    } else if s1.in_actions && is_element_line(line) && 0 <= s1.action_index < s1.actions.len() {
        Annotation {
            text: s1.text + strip_newlines(line) + count_comment(
                action_local_count(s1.actions[s1.action_index]),
            ),
            action_index: s1.action_index + 1,
            ..s1
        }
    } else {
        Annotation { text: s1.text + line, ..s1 }
    }
}

/// Where the annotation stands after the first `k` lines.
pub open spec fn annotate_lines(ls: Seq<Seq<char>>, rules: Seq<CountNode>, k: int) -> Annotation
    decreases k,
{
    if k <= 0 {
        Annotation {
            rule_index: 0,
            condition_index: 0,
            action_index: 0,
            in_conditions: false,
            in_actions: false,
            conditions: Seq::empty(),
            actions: Seq::empty(),
            text: Seq::empty(),
        }
    } else {
        annotate_step(annotate_lines(ls, rules, k - 1), ls[k - 1], rules)
    }
}

/// The output with the element counts: the summary, then every line, with
/// the count above each rule of more than one element and after each
/// condition and action.
pub open spec fn annotated_text(
    output: Seq<char>,
    rules: Seq<CountNode>,
    files: Seq<SourceFile>,
    o: Seq<usize>,
) -> Seq<char> {
    let ls = inclusive_lines(output);
    summary_text(rules, files, o) + annotate_lines(ls, rules, ls.len() as int).text
}

/// A rule costs at most five elements per node.
pub proof fn lemma_rule_bound(n: CountNode)
    ensures
        rule_count(n) <= 5 * node_size(n),
{
    lemma_rule_children_bound(n.children@);
}

/// The rules cost at most five elements per node.
proof fn lemma_rules_total_bound(rules: Seq<CountNode>)
    ensures
        rules_total(rules) <= 5 * nodes_size(rules),
    decreases rules.len(),
{
    if rules.len() > 0 {
        lemma_rules_total_bound(rules.subrange(0, rules.len() - 1));
        lemma_rule_bound(rules[rules.len() - 1]);
    }
}

/// Every node collected from the trees is no larger than the trees.
proof fn lemma_collect_kind_bound(s: Seq<CountNode>, k: NodeKind)
    ensures
        forall|i: int|
            0 <= i < collect_kind(s, k).len() ==> node_size(#[trigger] collect_kind(s, k)[i])
                <= nodes_size(s),
    decreases s, 1nat,
{
    if s.len() > 0 {
        let init = s.subrange(0, s.len() - 1);
        let last = s[s.len() - 1];
        lemma_collect_kind_bound(init, k);
        lemma_collect_node_bound(last, k);
        let a = collect_kind(init, k);
        let b = collect_node(last, k);
        assert(collect_kind(s, k) == a + b);
        assert forall|i: int| 0 <= i < (a + b).len() implies node_size(#[trigger] (a + b)[i])
            <= nodes_size(s) by {
            if i < a.len() {
                assert((a + b)[i] == a[i]);
            } else {
                assert((a + b)[i] == b[i - a.len()]);
            }
        }
    }
}

/// Every node collected from a tree is no larger than the tree.
proof fn lemma_collect_node_bound(n: CountNode, k: NodeKind)
    ensures
        forall|i: int|
            0 <= i < collect_node(n, k).len() ==> node_size(#[trigger] collect_node(n, k)[i])
                <= node_size(n),
    decreases n, 0nat,
{
    lemma_collect_kind_bound(n.children@, k);
    let a: Seq<CountNode> = if n.kind == k {
        seq![n]
    } else {
        Seq::empty()
    };
    let b = collect_kind(n.children@, k);
    assert(collect_node(n, k) == a + b);
    assert forall|i: int| 0 <= i < (a + b).len() implies node_size(#[trigger] (a + b)[i])
        <= node_size(n) by {
        if i < a.len() {
            assert((a + b)[i] == n);
        } else {
            assert((a + b)[i] == b[i - a.len()]);
        }
    }
}

/// Whether `line` begins with `p`.
fn line_starts_with(line: &Vec<char>, p: &str) -> (r: bool)
    ensures
        r == starts_with(line@, p@),
{
    let pc = chars_of(p);
    let r = crate::strings::matches_at(line, 0, &pc);
    assert(line@.skip(0) =~= line@);
    r
}

/// The path of the first file with this id.
fn find_file_path<'a>(files: &'a Vec<SourceFile>, id: u32) -> (r: Option<&'a String>)
    ensures
        match r {
            Some(p) => file_path(files@, id) == Some(p@),
            None => file_path(files@, id) is None,
        },
{
    let mut i: usize = 0;
    assert(files@.subrange(0, files@.len() as int) =~= files@);
    while i < files.len()
        invariant
            i <= files@.len(),
            file_path(files@, id) == file_path(files@.subrange(i as int, files@.len() as int), id),
        decreases files@.len() - i,
    {
        let ghost rest = files@.subrange(i as int, files@.len() as int);
        assert(rest.subrange(1, rest.len() as int) =~= files@.subrange(i + 1, files@.len() as int));
        assert(rest[0] == files@[i as int]);
        if files[i].id == id {
            return Some(&files[i].path);
        }
        i = i + 1;
    }
    None
}

/// Appends the summary line of a rule.
fn push_summary_line(out: &mut Vec<char>, rule: &CountNode, count: usize, files: &Vec<SourceFile>)
    ensures
        final(out)@ == old(out)@ + summary_line(*rule, count as nat, files@),
{
    let digits = decimal_chars(count as u64);
    let ghost start = out@;
    let mut pad: usize = digits.len();
    while pad < 5
        invariant
            digits.len() <= pad <= 5 || (digits.len() > 5 && pad == digits.len()),
            out@ == start + Seq::new((pad - digits.len()) as nat, |i: int| ' '),
        decreases 5 - pad,
    {
        out.push(' ');
        pad = pad + 1;
        assert(out@ =~= start + Seq::new((pad - digits.len()) as nat, |i: int| ' '));
    }
    push_chars(out, &digits);
    assert(out@ =~= start + right_aligned(digits@, 5));
    push_str(out, ": rule \"");
    push_str(out, rule.name.as_str());
    push_str(out, "\"");
    match rule.file {
        Some(id) => match find_file_path(files, id) {
            Some(path) => {
                push_str(out, " (");
                push_str(out, path.as_str());
                push_str(out, ")");
            },
            None => {},
        },
        None => {},
    }
    push_str(out, "\n");
    assert(out@ =~= start + summary_line(*rule, count as nat, files@));
}

/// Appends the line without its trailing line breaks.
fn push_without_newlines(out: &mut Vec<char>, line: &Vec<char>)
    ensures
        final(out)@ == old(out)@ + strip_newlines(line@),
{
    let mut e: usize = line.len();
    assert(line@.take(e as int) =~= line@);
    while e > 0 && line[e - 1] == '\n'
        invariant
            e <= line@.len(),
            strip_newlines(line@) == strip_newlines(line@.take(e as int)),
        decreases e,
    {
        assert(line@.take(e as int).subrange(0, e - 1) =~= line@.take(e - 1));
        e = e - 1;
    }
    let ghost start = out@;
    let mut j: usize = 0;
    while j < e
        invariant
            j <= e <= line@.len(),
            out@ == start + line@.take(j as int),
        decreases e - j,
    {
        out.push(line[j]);
        j = j + 1;
        assert(out@ =~= start + line@.take(j as int));
    }
}

/// Appends the comment after a condition or action line.
fn push_count_comment(out: &mut Vec<char>, c: usize)
    ensures
        final(out)@ == old(out)@ + count_comment(c as nat),
{
    let ghost start = out@;
    push_str(out, " // ");
    push_chars(out, &decimal_chars(c as u64));
    if c == 1 {
        push_str(out, " element\n");
    } else {
        push_str(out, " elements\n");
    }
    assert(out@ =~= start + count_comment(c as nat));
}

/// The counts of the rules and their total.
fn rule_counts(rules: &Vec<CountNode>) -> (r: (Vec<usize>, usize))
    requires
        5 * nodes_size(rules@) <= usize::MAX,
    ensures
        r.0@ == rule_count_seq(rules@),
        r.0@.len() == rules@.len(),
        forall|k: int| 0 <= k < rules@.len() ==> r.0@[k] == rule_count(#[trigger] rules@[k]),
        r.1 == rules_total(rules@),
{
    let mut counts: Vec<usize> = Vec::new();
    let mut total: usize = 0;
    let mut i: usize = 0;
    while i < rules.len()
        invariant
            i <= rules@.len(),
            5 * nodes_size(rules@) <= usize::MAX,
            counts@.len() == i,
            forall|k: int| 0 <= k < i ==> counts@[k] == rule_count(#[trigger] rules@[k]),
            total == rules_total(rules@.take(i as int)),
        decreases rules@.len() - i,
    {
        proof {
            lemma_sizes_prefix(rules@, i as int);
            lemma_sizes_prefix(rules@, i + 1);
            lemma_rules_total_bound(rules@.take(i + 1));
            assert(rules@.take(i + 1).subrange(0, i as int) =~= rules@.take(i as int));
            assert(rules@.take(i + 1)[i as int] == rules@[i as int]);
        }
        let c = debug_rule_count(&rules[i]);
        counts.push(c);
        total = total + c;
        i = i + 1;
    }
    assert(rules@.take(rules@.len() as int) =~= rules@);
    assert(counts@ =~= rule_count_seq(rules@));
    (counts, total)
}

/// Where the annotation of the output stands, as the loop keeps it.
struct Annotator<'a> {
    rule_index: usize,
    condition_index: usize,
    action_index: usize,
    in_conditions: bool,
    in_actions: bool,
    conditions: Vec<&'a CountNode>,
    actions: Vec<&'a CountNode>,
}

impl<'a> Annotator<'a> {
    /// Whether the loop state is the state `st`, and every node it holds is
    /// small enough to count.
    spec fn holds(self, st: Annotation) -> bool {
        &&& st.rule_index == self.rule_index
        &&& st.condition_index == self.condition_index
        &&& st.action_index == self.action_index
        &&& st.in_conditions == self.in_conditions
        &&& st.in_actions == self.in_actions
        &&& st.conditions == node_refs(self.conditions@)
        &&& st.actions == node_refs(self.actions@)
        &&& forall|i: int|
            0 <= i < self.conditions@.len() ==> 5 * node_size(*(#[trigger] self.conditions@[i]))
                <= usize::MAX
        &&& forall|i: int|
            0 <= i < self.actions@.len() ==> 5 * node_size(*(#[trigger] self.actions@[i]))
                <= usize::MAX
    }

    /// Reads what a line tells of where the annotation stands.
    fn header(
        &mut self,
        line: &Vec<char>,
        t: &Vec<char>,
        rules: &'a Vec<CountNode>,
        counts: &Vec<usize>,
        out: &mut Vec<char>,
        Ghost(st): Ghost<Annotation>,
        Ghost(prefix): Ghost<Seq<char>>,
    )
        requires
            old(self).holds(st),
            old(self).rule_index < usize::MAX,
            t@ == trimmed(line@),
            5 * nodes_size(rules@) <= usize::MAX,
            counts@.len() == rules@.len(),
            forall|k: int| 0 <= k < rules@.len() ==> counts@[k] == rule_count(#[trigger] rules@[k]),
            old(out)@ == prefix + st.text,
        ensures
            final(self).holds(header_step(st, line@, rules@)),
            final(self).rule_index <= old(self).rule_index + 1,
            final(out)@ == prefix + header_step(st, line@, rules@).text,
    {
        if line_starts_with(line, "rule (") {
            if self.rule_index < rules.len() {
                let ri = self.rule_index;
                let rc = counts[ri];
                let ghost before = out@;
                if rc > 1 {
                    push_str(out, "//");
                    push_chars(out, &decimal_chars(rc as u64));
                    push_str(out, " elements\n");
                }
                assert(out@ =~= before + rule_comment(rule_count(rules@[ri as int])));
                let mut c: Vec<&CountNode> = Vec::new();
                collect_element_nodes(&rules[ri].children, NodeKind::Condition, &mut c);
                let mut a: Vec<&CountNode> = Vec::new();
                collect_element_nodes(&rules[ri].children, NodeKind::Action, &mut a);
                proof {
                    let rule = rules@[ri as int];
                    assert(node_refs(c@) =~= collect_kind(rule.children@, NodeKind::Condition));
                    assert(node_refs(a@) =~= collect_kind(rule.children@, NodeKind::Action));
                    lemma_sizes_prefix(rules@, ri as int);
                    lemma_sizes_prefix(rules@, ri + 1);
                    lemma_collect_kind_bound(rule.children@, NodeKind::Condition);
                    lemma_collect_kind_bound(rule.children@, NodeKind::Action);
                    assert(node_size(rule) == 1 + nodes_size(rule.children@));
                    assert forall|i: int| 0 <= i < c@.len() implies 5 * node_size(*(#[trigger] c@[i]))
                        <= usize::MAX by {
                        assert(*c@[i] == node_refs(c@)[i]);
                    }
                    assert forall|i: int| 0 <= i < a@.len() implies 5 * node_size(*(#[trigger] a@[i]))
                        <= usize::MAX by {
                        assert(*a@[i] == node_refs(a@)[i]);
                    }
                }
                self.conditions = c;
                self.actions = a;
            }
            self.rule_index = self.rule_index + 1;
            self.condition_index = 0;
            self.action_index = 0;
            self.in_conditions = false;
            self.in_actions = false;
        } else if crate::strings::chars_eq(t, &chars_of("conditions {")) {
            self.in_conditions = true;
            self.in_actions = false;
        } else if crate::strings::chars_eq(t, &chars_of("actions {")) {
            self.in_conditions = false;
            self.in_actions = true;
        } else if self.in_actions && line_starts_with(line, "    }") {
            self.in_actions = false;
        } else if self.in_conditions && line_starts_with(line, "    }") {
            self.in_conditions = false;
        }
    }

    /// Annotates one line of the output.
    fn step(
        &mut self,
        line: &Vec<char>,
        rules: &'a Vec<CountNode>,
        counts: &Vec<usize>,
        out: &mut Vec<char>,
        Ghost(st): Ghost<Annotation>,
        Ghost(prefix): Ghost<Seq<char>>,
    )
        requires
            old(self).holds(st),
            old(self).rule_index < usize::MAX,
            5 * nodes_size(rules@) <= usize::MAX,
            counts@.len() == rules@.len(),
            forall|k: int| 0 <= k < rules@.len() ==> counts@[k] == rule_count(#[trigger] rules@[k]),
            old(out)@ == prefix + st.text,
        ensures
            final(self).holds(annotate_step(st, line@, rules@)),
            final(self).rule_index <= old(self).rule_index + 1,
            final(out)@ == prefix + annotate_step(st, line@, rules@).text,
    {
        let t = trimmed_chars(line);
        self.header(line, &t, rules, counts, out, Ghost(st), Ghost(prefix));
        let ghost s1 = header_step(st, line@, rules@);
        let element = line_starts_with(line, "        ") && t.len() > 0 && t[t.len() - 1] == ';';
        if self.in_conditions && element && self.condition_index < self.conditions.len() {
            let ci = self.condition_index;
            assert(*self.conditions@[ci as int] == s1.conditions[ci as int]);
            let c = debug_condition_count(self.conditions[ci]);
            push_without_newlines(out, line);
            push_count_comment(out, c);
            assert(out@ =~= prefix + annotate_step(st, line@, rules@).text);
            self.condition_index = ci + 1;
        } else if self.in_actions && element && self.action_index < self.actions.len() {
            let ai = self.action_index;
            assert(*self.actions@[ai as int] == s1.actions[ai as int]);
            let c = debug_action_local_count(self.actions[ai]);
            push_without_newlines(out, line);
            push_count_comment(out, c);
            assert(out@ =~= prefix + annotate_step(st, line@, rules@).text);
            self.action_index = ai + 1;
        } else {
            push_chars(out, line);
            assert(out@ =~= prefix + annotate_step(st, line@, rules@).text);
        }
    }
}

/// The emitted Workshop text with its element counts: a summary of the
/// total and of the rules of more than one element, most elements first,
/// then the text with the count above each such rule and after each
/// condition and action.
pub fn annotate_element_counts(output: &str, rules: &Vec<CountNode>, files: &Vec<SourceFile>) -> (r:
    String)
    requires
        5 * nodes_size(rules@) <= usize::MAX,
    ensures
        exists|o: Seq<usize>|
            summary_order_ok(o, rule_count_seq(rules@)) && r@ == #[trigger] annotated_text(
                output@,
                rules@,
                files@,
                o,
            ),
{
    let (counts, total) = rule_counts(rules);
    let order = summary_order(&counts);
    let mut out: Vec<char> = Vec::new();
    push_str(&mut out, "/* Element count: (total ");
    push_chars(&mut out, &decimal_chars(total as u64));
    push_str(&mut out, ")\n\n");
    let ghost header = out@;
    let mut j: usize = 0;
    while j < order.len()
        invariant
            j <= order@.len(),
            counts@ == rule_count_seq(rules@),
            counts@.len() == rules@.len(),
            forall|k: int| 0 <= k < rules@.len() ==> counts@[k] == rule_count(#[trigger] rules@[k]),
            summary_order_ok(order@, counts@),
            out@ == header + summary_lines(rules@, files@, order@.take(j as int)),
        decreases order@.len() - j,
    {
        let idx = order[j];
        assert(order@.take(j + 1).subrange(0, j as int) =~= order@.take(j as int));
        assert(order@.take(j + 1)[j as int] == idx);
        assert(idx < rules@.len());
        push_summary_line(&mut out, &rules[idx], counts[idx], files);
        j = j + 1;
    }
    assert(order@.take(order@.len() as int) =~= order@);
    push_str(&mut out, "\n*/\n\n");
    let ghost summary = out@;
    assert(summary =~= summary_text(rules@, files@, order@));
    let chars = chars_of(output);
    let lines = line_list(&chars);
    let ghost ls = line_views(lines@);
    let mut state = Annotator {
        rule_index: 0,
        condition_index: 0,
        action_index: 0,
        in_conditions: false,
        in_actions: false,
        conditions: Vec::new(),
        actions: Vec::new(),
    };
    assert(node_refs(state.conditions@) =~= Seq::<CountNode>::empty());
    assert(node_refs(state.actions@) =~= Seq::<CountNode>::empty());
    assert(out@ =~= summary + annotate_lines(ls, rules@, 0).text);
    let mut k: usize = 0;
    while k < lines.len()
        invariant
            k <= lines@.len(),
            ls == line_views(lines@),
            5 * nodes_size(rules@) <= usize::MAX,
            counts@.len() == rules@.len(),
            forall|i: int| 0 <= i < rules@.len() ==> counts@[i] == rule_count(#[trigger] rules@[i]),
            state.rule_index <= k,
            state.holds(annotate_lines(ls, rules@, k as int)),
            out@ == summary + annotate_lines(ls, rules@, k as int).text,
        decreases lines@.len() - k,
    {
        assert(ls[k as int] == lines@[k as int]@);
        state.step(
            &lines[k],
            rules,
            &counts,
            &mut out,
            Ghost(annotate_lines(ls, rules@, k as int)),
            Ghost(summary),
        );
        k = k + 1;
    }
    let r = string_of(&out);
    assert(r@ == annotated_text(output@, rules@, files@, order@));
    r
}

/// One node of a tree written out in preorder: its kind, name, source
/// file and number of children.
pub type FlatNode = (NodeKind, Seq<char>, Option<u32>, nat);

/// The plain view of a preorder listing.
pub open spec fn flat_view(f: Seq<(NodeKind, String, Option<u32>, usize)>) -> Seq<FlatNode> {
    f.map_values(|e: (NodeKind, String, Option<u32>, usize)| (e.0, e.1@, e.2, e.3 as nat))
}

/// A tree in preorder: the node, then its children's trees in order.
pub open spec fn encode_node(n: CountNode) -> Seq<FlatNode>
    decreases n, 0nat,
{
    seq![(n.kind, n.name@, n.file, n.children@.len())] + encode_trees(n.children@)
}

/// Trees in preorder, one after the other.
pub open spec fn encode_trees(s: Seq<CountNode>) -> Seq<FlatNode>
    decreases s, 1nat,
{
    if s.len() == 0 {
        Seq::empty()
    } else {
        encode_trees(s.subrange(0, s.len() - 1)) + encode_node(s[s.len() - 1])
    }
}

/// A tree in preorder has one entry per node.
proof fn lemma_encode_node_len(n: CountNode)
    ensures
        encode_node(n).len() == node_size(n),
    decreases n, 0nat,
{
    lemma_encode_trees_len(n.children@);
}

/// Trees in preorder have one entry per node.
proof fn lemma_encode_trees_len(s: Seq<CountNode>)
    ensures
        encode_trees(s).len() == nodes_size(s),
    decreases s, 1nat,
{
    if s.len() > 0 {
        lemma_encode_trees_len(s.subrange(0, s.len() - 1));
        lemma_encode_node_len(s[s.len() - 1]);
    }
}

/// Whether `e` stands in `fv` from position `pos` on.
pub open spec fn listed_at(fv: Seq<FlatNode>, pos: int, e: Seq<FlatNode>) -> bool {
    0 <= pos && pos + e.len() <= fv.len() && fv.subrange(pos, pos + e.len()) == e
}

/// A prefix of trees lists as a prefix of their listing.
proof fn lemma_encode_trees_take(s: Seq<CountNode>, k: int)
    requires
        0 <= k < s.len(),
    ensures
        encode_trees(s.take(k + 1)) == encode_trees(s.take(k)) + encode_node(s[k]),
{
    assert(s.take(k + 1).subrange(0, k) =~= s.take(k));
}

/// The listing of a prefix of trees starts the listing of all of them.
proof fn lemma_encode_trees_prefix(s: Seq<CountNode>, k: int)
    requires
        0 <= k <= s.len(),
    ensures
        encode_trees(s.take(k)).len() <= encode_trees(s).len(),
        encode_trees(s).subrange(0, encode_trees(s.take(k)).len() as int) == encode_trees(s.take(k)),
    decreases s.len(),
{
    if k == s.len() {
        assert(s.take(k) =~= s);
    } else {
        let d = s.subrange(0, s.len() - 1);
        lemma_encode_trees_prefix(d, k);
        assert(d.take(k) =~= s.take(k));
        let e = encode_trees(s);
        assert(e == encode_trees(d) + encode_node(s[s.len() - 1]));
        assert(e.subrange(0, encode_trees(d).len() as int) =~= encode_trees(d));
        let m = encode_trees(s.take(k)).len() as int;
        assert(e.subrange(0, m) =~= encode_trees(d).subrange(0, m));
    }
}

/// A listing stands at a position only as itself: two nodes listed at the
/// same position have the same listing.
proof fn lemma_listed_node_unique(fv: Seq<FlatNode>, pos: int, a: CountNode, b: CountNode)
    requires
        listed_at(fv, pos, encode_node(a)),
        listed_at(fv, pos, encode_node(b)),
    ensures
        encode_node(a) == encode_node(b),
    decreases a, 0nat,
{
    let ea = encode_node(a);
    let eb = encode_node(b);
    assert(ea[0] == fv[pos]);
    assert(eb[0] == fv[pos]);
    assert(a.children@.len() == b.children@.len());
    let ta = encode_trees(a.children@);
    let tb = encode_trees(b.children@);
    assert(fv.subrange(pos + 1, pos + 1 + ta.len()) =~= ea.subrange(1, ea.len() as int));
    assert(ea.subrange(1, ea.len() as int) =~= ta);
    assert(fv.subrange(pos + 1, pos + 1 + tb.len()) =~= eb.subrange(1, eb.len() as int));
    assert(eb.subrange(1, eb.len() as int) =~= tb);
    lemma_listed_trees_unique(fv, pos + 1, a.children@, b.children@);
    assert(ea =~= eb);
}

/// As many trees listed at the same position have the same listing.
proof fn lemma_listed_trees_unique(fv: Seq<FlatNode>, pos: int, a: Seq<CountNode>, b: Seq<CountNode>)
    requires
        a.len() == b.len(),
        listed_at(fv, pos, encode_trees(a)),
        listed_at(fv, pos, encode_trees(b)),
    ensures
        encode_trees(a) == encode_trees(b),
    decreases a, 1nat,
{
    if a.len() > 0 {
        let a0 = a.subrange(0, a.len() - 1);
        let b0 = b.subrange(0, b.len() - 1);
        let ea = encode_trees(a);
        let eb = encode_trees(b);
        let ea0 = encode_trees(a0);
        let eb0 = encode_trees(b0);
        let na = encode_node(a[a.len() - 1]);
        let nb = encode_node(b[b.len() - 1]);
        assert(ea == ea0 + na);
        assert(eb == eb0 + nb);
        assert(ea.subrange(0, ea0.len() as int) =~= ea0);
        assert(eb.subrange(0, eb0.len() as int) =~= eb0);
        assert(ea.subrange(ea0.len() as int, ea.len() as int) =~= na);
        assert(eb.subrange(eb0.len() as int, eb.len() as int) =~= nb);
        assert(fv.subrange(pos, pos + ea0.len()) =~= ea.subrange(0, ea0.len() as int));
        assert(fv.subrange(pos, pos + eb0.len()) =~= eb.subrange(0, eb0.len() as int));
        lemma_listed_trees_unique(fv, pos, a0, b0);
        let q = pos + ea0.len();
        assert(fv.subrange(q, q + na.len()) =~= ea.subrange(ea0.len() as int, ea.len() as int));
        assert(fv.subrange(q, q + nb.len()) =~= eb.subrange(eb0.len() as int, eb.len() as int));
        lemma_listed_node_unique(fv, q, a[a.len() - 1], b[b.len() - 1]);
    }
}

/// The tree whose preorder starts at `pos`, and where its listing ends.
fn parse_node(flat: &Vec<(NodeKind, String, Option<u32>, usize)>, pos: usize) -> (r: Option<
    (CountNode, usize),
>)
    requires
        pos <= flat@.len(),
    ensures
        match r {
            Some((n, end)) => pos < end <= flat@.len() && flat_view(flat@).subrange(
                pos as int,
                end as int,
            ) == encode_node(n),
            None => forall|n: CountNode| !listed_at(flat_view(flat@), pos as int, #[trigger] encode_node(n)),
        },
    decreases flat@.len() - pos, 1nat,
{
    if pos >= flat.len() {
        assert forall|n: CountNode| !listed_at(flat_view(flat@), pos as int, #[trigger] encode_node(n)) by {
            assert(encode_node(n).len() >= 1);
        }
        return None;
    }
    let kind = flat[pos].0;
    let name = flat[pos].1.clone();
    let file = flat[pos].2;
    let count = flat[pos].3;
    match parse_trees(flat, pos + 1, count) {
        Some((children, end)) => {
            let n = CountNode { kind, name, file, children };
            proof {
                let fv = flat_view(flat@);
                assert(fv.subrange(pos as int, end as int) =~= seq![fv[pos as int]] + fv.subrange(
                    pos + 1,
                    end as int,
                ));
            }
            Some((n, end))
        },
        None => {
            proof {
                let fv = flat_view(flat@);
                assert forall|n: CountNode| !listed_at(fv, pos as int, #[trigger] encode_node(n)) by {
                    if listed_at(fv, pos as int, encode_node(n)) {
                        let e = encode_node(n);
                        let t = encode_trees(n.children@);
                        assert(e[0] == fv[pos as int]);
                        assert(n.children@.len() == count);
                        assert(e.subrange(1, e.len() as int) =~= t);
                        assert(fv.subrange(pos + 1, pos + 1 + t.len()) =~= e.subrange(1, e.len() as int));
                        assert(listed_at(fv, pos + 1, t));
                    }
                }
            }
            None
        },
    }
}

/// The `count` trees whose preorders follow one another from `pos`, and
/// where their listing ends.
fn parse_trees(flat: &Vec<(NodeKind, String, Option<u32>, usize)>, pos: usize, count: usize) -> (r:
    Option<(Vec<CountNode>, usize)>)
    requires
        pos <= flat@.len(),
    ensures
        match r {
            Some((v, end)) => pos <= end <= flat@.len() && v@.len() == count && flat_view(
                flat@,
            ).subrange(pos as int, end as int) == encode_trees(v@),
            None => forall|w: Seq<CountNode>|
                w.len() == count ==> !listed_at(flat_view(flat@), pos as int, #[trigger] encode_trees(w)),
        },
    decreases flat@.len() - pos, 2nat,
{
    let ghost fv = flat_view(flat@);
    let mut v: Vec<CountNode> = Vec::new();
    let mut p: usize = pos;
    let mut i: usize = 0;
    assert(fv.subrange(pos as int, pos as int) =~= encode_trees(v@));
    while i < count
        invariant
            fv == flat_view(flat@),
            pos <= p <= flat@.len(),
            i <= count,
            v@.len() == i,
            fv.subrange(pos as int, p as int) == encode_trees(v@),
        decreases count - i,
    {
        match parse_node(flat, p) {
            Some((n, end)) => {
                let ghost before = v@;
                v.push(n);
                assert(v@.subrange(0, v@.len() - 1) =~= before);
                assert(fv.subrange(pos as int, end as int) =~= fv.subrange(pos as int, p as int)
                    + fv.subrange(p as int, end as int));
                p = end;
            },
            None => {
                proof {
                    assert forall|w: Seq<CountNode>|
                        w.len() == count implies !listed_at(fv, pos as int, #[trigger] encode_trees(w)) by {
                        if listed_at(fv, pos as int, encode_trees(w)) {
                            let ew = encode_trees(w);
                            let wi = w.take(i as int);
                            lemma_encode_trees_prefix(w, i as int);
                            lemma_encode_trees_prefix(w, i + 1);
                            let ei = encode_trees(wi);
                            assert(fv.subrange(pos as int, pos + ei.len()) =~= ew.subrange(0, ei.len() as int));
                            assert(listed_at(fv, pos as int, ei));
                            assert(listed_at(fv, pos as int, encode_trees(v@)));
                            lemma_listed_trees_unique(fv, pos as int, v@, wi);
                            lemma_encode_trees_take(w, i as int);
                            let ej = encode_trees(w.take(i + 1));
                            let nd = encode_node(w[i as int]);
                            assert(fv.subrange(pos as int, pos + ej.len()) =~= ew.subrange(0, ej.len() as int));
                            assert(ej.subrange(ei.len() as int, ej.len() as int) =~= nd);
                            assert(fv.subrange(p as int, p + nd.len()) =~= ej.subrange(ei.len() as int, ej.len() as int));
                            assert(listed_at(fv, p as int, nd));
                        }
                    }
                }
                return None;
            },
        }
        i = i + 1;
    }
    Some((v, p))
}

/// The trees of a preorder listing that holds `count` trees and nothing
/// else.
pub fn rebuild_trees(flat: &Vec<(NodeKind, String, Option<u32>, usize)>, count: usize) -> (r: Option<
    Vec<CountNode>,
>)
    ensures
        match r {
            Some(v) => v@.len() == count && encode_trees(v@) == flat_view(flat@),
            None => forall|w: Seq<CountNode>|
                w.len() == count ==> #[trigger] encode_trees(w) != flat_view(flat@),
        },
{
    match parse_trees(flat, 0, count) {
        Some((v, end)) => {
            if end == flat.len() {
                assert(flat_view(flat@).subrange(0, end as int) =~= flat_view(flat@));
                Some(v)
            } else {
                proof {
                    let fv = flat_view(flat@);
                    assert forall|w: Seq<CountNode>|
                        w.len() == count implies #[trigger] encode_trees(w) != fv by {
                        if encode_trees(w) == fv {
                            assert(fv.subrange(0, fv.len() as int) =~= fv);
                            assert(listed_at(fv, 0, encode_trees(w)));
                            assert(listed_at(fv, 0, encode_trees(v@)));
                            lemma_listed_trees_unique(fv, 0, v@, w);
                        }
                    }
                }
                None
            }
        },
        None => {
            proof {
                let fv = flat_view(flat@);
                assert forall|w: Seq<CountNode>|
                    w.len() == count implies #[trigger] encode_trees(w) != fv by {
                    if encode_trees(w) == fv {
                        assert(fv.subrange(0, fv.len() as int) =~= fv);
                        assert(listed_at(fv, 0, encode_trees(w)));
                    }
                }
            }
            None
        },
    }
}

#[verifier::external_type_specification]
#[verifier::external_body]
pub struct ExElementCountError(ElementCountError);

/// What `Program::element_count` reports of a program against a catalog:
/// `None` where it fails, else its number of rule trees and the trees in
/// preorder, each node as its kind, name, source file index and number of
/// children.
pub uninterp spec fn workshop_element_count(program: workshop_rs::program::Program, catalog: Catalog) -> Option<(nat, Seq<FlatNode>)>;

/// `Program::element_count`, which counts the Workshop elements of the
/// program against the catalog, its report written out in preorder. The
/// contract says that it fails exactly where `workshop_element_count` is
/// `None`, and otherwise hands back what that name holds.
#[verifier::external_body]
fn program_element_count(program: &workshop_rs::program::Program, catalog: &Catalog) -> (r: Result<
    (usize, Vec<(NodeKind, String, Option<u32>, usize)>),
    ElementCountError,
>)
    ensures
        match r {
            Ok((n, flat)) => workshop_element_count(*program, *catalog) == Some((n as nat, flat_view(flat@))),
            Err(_) => workshop_element_count(*program, *catalog) is None,
        },
{
    let report = program.element_count(catalog)?;
    let mut flat = Vec::new();
    let mut stack: Vec<_> = report.rules.iter().rev().collect();
    while let Some(node) = stack.pop() {
        let kind = match node.kind {
            ElementNodeKind::Rule => NodeKind::Rule,
            ElementNodeKind::Condition => NodeKind::Condition,
            ElementNodeKind::Action => NodeKind::Action,
            ElementNodeKind::Value => NodeKind::Value,
        };
        flat.push((kind, node.name.clone(), node.span.map(|s| s.file.index() as u32), node.children.len()));
        stack.extend(node.children.iter().rev());
    }
    Ok((report.rules.len(), flat))
}

/// The text of an element-count error, as its `Display` writes it; nothing
/// is stated of it.
#[verifier::external_body]
fn element_count_error_text(error: &ElementCountError) -> String {
    error.to_string()
}

/// An element-count failure with its message.
fn element_count_error(detail: &str, reason: &str) -> (r: IntegrationError)
    ensures
        r.diagnostic.code@ == "element-count"@,
        r.diagnostic.span is None,
{
    let mut message: Vec<char> = Vec::new();
    push_str(&mut message, detail);
    push_str(&mut message, reason);
    IntegrationError::new("element-count", string_of(&message), None)
}

/// Whether `rules` are the trees that an element-count report lists.
pub open spec fn report_trees(report: Option<(nat, Seq<FlatNode>)>, rules: Seq<CountNode>) -> bool {
    report matches Some((n, fl)) && rules.len() == n && encode_trees(rules) == fl
}

/// Whether an element-count report can annotate the text: the count
/// succeeded, its listing is of trees, and it is small enough to count in
/// machine integers.
pub open spec fn report_usable(report: Option<(nat, Seq<FlatNode>)>) -> bool {
    &&& report matches Some((n, fl))
    &&& (exists|rules: Seq<CountNode>| #[trigger] report_trees(report, rules))
    &&& fl.len() <= usize::MAX / 5
}

/// The emitted Workshop text annotated with the element counts of the
/// program: where the program's report can be used, the text that
/// `annotate_element_counts` makes of the report's own trees; otherwise an
/// `element-count` error.
pub fn emit_debug_element_counts(
    output: &str,
    program: &workshop_rs::program::Program,
    catalog: &Catalog,
    hir: &ResolvedProgram,
) -> (r: Result<String, IntegrationError>)
    ensures
        report_usable(workshop_element_count(*program, *catalog)) <==> r is Ok,
        match r {
            Ok(text) => exists|rules: Seq<CountNode>, o: Seq<usize>|
                report_trees(workshop_element_count(*program, *catalog), rules) && summary_order_ok(
                    o,
                    rule_count_seq(rules),
                ) && text@ == #[trigger] annotated_text(output@, rules, hir.files@, o),
            Err(e) => e.diagnostic.code@ == "element-count"@ && e.diagnostic.span is None,
        },
{
    match program_element_count(program, catalog) {
        Err(error) => {
            let message = element_count_error_text(&error);
            Err(element_count_error("cannot compute Workshop element counts: ", message.as_str()))
        },
        Ok((count, flat)) => match rebuild_trees(&flat, count) {
            None => Err(
                element_count_error("cannot compute Workshop element counts: ", "malformed report"),
            ),
            Some(rules) => {
                if flat.len() > usize::MAX / 5 {
                    return Err(
                        element_count_error(
                            "cannot compute Workshop element counts: ",
                            "report too large",
                        ),
                    );
                }
                proof {
                    lemma_encode_trees_len(rules@);
                    assert(report_trees(workshop_element_count(*program, *catalog), rules@));
                }
                let text = annotate_element_counts(output, &rules, &hir.files);
                proof {
                    let o = choose|o: Seq<usize>|
                        summary_order_ok(o, rule_count_seq(rules@)) && text@ == #[trigger] annotated_text(
                            output@,
                            rules@,
                            hir.files@,
                            o,
                        );
                    assert(text@ == annotated_text(output@, rules@, hir.files@, o));
                }
                Ok(text)
            },
        },
    }
}

/// The elements that the value nodes among `s` cost, less one each.
pub open spec fn values_less_one(s: Seq<CountNode>) -> nat
    decreases s.len(),
{
    if s.len() == 0 {
        0
    } else {
        values_less_one(s.drop_last()) + if s.last().kind == NodeKind::Value {
            sat_sub(value_count(s.last()), 1)
        } else {
            0
        }
    }
}

/// Every value costs at least one element.
proof fn lemma_value_count_positive(n: CountNode)
    ensures
        value_count(n) >= 1,
{
}

/// The value arguments less one each, added up, are their cost less their
/// number.
proof fn lemma_values_less_one(s: Seq<CountNode>)
    ensures
        kind_value_sum(s) >= value_arguments(s),
        values_less_one(s) == sat_sub(kind_value_sum(s), value_arguments(s)),
    decreases s.len(),
{
    if s.len() > 0 {
        let p = s.subrange(0, s.len() - 1);
        assert(s.drop_last() =~= p);
        lemma_values_less_one(p);
        lemma_value_count_positive(s[s.len() - 1]);
    }
}

/// Action-line law: the count written after an action line is that
/// action's own elements, one and its value arguments less one each; the
/// actions nested in it are left to their own lines, so this count and
/// theirs make up the action's whole count.
pub proof fn lemma_action_line_counts_the_action_alone(st: Annotation, line: Seq<char>, rules: Seq<CountNode>)
    requires
        !header_step(st, line, rules).in_conditions,
        header_step(st, line, rules).in_actions,
        is_element_line(line),
        0 <= header_step(st, line, rules).action_index < header_step(st, line, rules).actions.len(),
    ensures
        ({
            let s1 = header_step(st, line, rules);
            let a = s1.actions[s1.action_index];
            &&& annotate_step(st, line, rules).text == s1.text + strip_newlines(line) + count_comment(
                1 + values_less_one(a.children@),
            )
            &&& 1 + values_less_one(a.children@) + nested_action_sum(a.children@) == action_count(a)
        }),
{
    let s1 = header_step(st, line, rules);
    let a = s1.actions[s1.action_index];
    lemma_values_less_one(a.children@);
    assert(action_count(a) == action_local_count(a) + nested_action_sum(a.children@));
}

/// Whether a tree holds only values.
pub open spec fn value_tree(n: CountNode) -> bool
    decreases n, 0nat,
{
    n.kind == NodeKind::Value && values_only(n.children@)
}

/// Whether the trees hold only values.
pub open spec fn values_only(s: Seq<CountNode>) -> bool
    decreases s, 1nat,
{
    forall|i: int| 0 <= i < s.len() ==> value_tree(#[trigger] s[i])
}

/// Whether a tree is an action whose children are values and actions.
pub open spec fn action_tree(n: CountNode) -> bool
    decreases n, 0nat,
{
    n.kind == NodeKind::Action && action_children(n.children@)
}

/// Whether each tree is a value or an action tree.
pub open spec fn action_children(s: Seq<CountNode>) -> bool
    decreases s, 1nat,
{
    forall|i: int| 0 <= i < s.len() ==> value_tree(#[trigger] s[i]) || action_tree(s[i])
}

/// Whether a rule's children are conditions over values, and actions.
pub open spec fn rule_tree(r: CountNode) -> bool {
    forall|i: int|
        0 <= i < r.children@.len() ==> ((#[trigger] r.children@[i]).kind == NodeKind::Condition && values_only(
            r.children@[i].children@,
        )) || action_tree(r.children@[i])
}

/// The counts written after the lines of these actions, added up.
pub open spec fn action_lines_sum(s: Seq<CountNode>) -> nat
    decreases s.len(),
{
    if s.len() == 0 {
        0
    } else {
        action_lines_sum(s.drop_last()) + 1 + values_less_one(s.last().children@)
    }
}

/// The counts written after the lines of these conditions, added up.
pub open spec fn condition_lines_sum(s: Seq<CountNode>) -> nat
    decreases s.len(),
{
    if s.len() == 0 {
        0
    } else {
        condition_lines_sum(s.drop_last()) + condition_count(s.last())
    }
}

proof fn lemma_action_lines_concat(a: Seq<CountNode>, b: Seq<CountNode>)
    ensures
        action_lines_sum(a + b) == action_lines_sum(a) + action_lines_sum(b),
    decreases b.len(),
{
    if b.len() == 0 {
        assert(a + b =~= a);
    } else {
        lemma_action_lines_concat(a, b.drop_last());
        assert((a + b).drop_last() =~= a + b.drop_last());
    }
}

proof fn lemma_condition_lines_concat(a: Seq<CountNode>, b: Seq<CountNode>)
    ensures
        condition_lines_sum(a + b) == condition_lines_sum(a) + condition_lines_sum(b),
    decreases b.len(),
{
    if b.len() == 0 {
        assert(a + b =~= a);
    } else {
        lemma_condition_lines_concat(a, b.drop_last());
        assert((a + b).drop_last() =~= a + b.drop_last());
    }
}

/// A value tree holds no conditions and no actions.
proof fn lemma_value_tree_collects_nothing(n: CountNode)
    requires
        value_tree(n),
    ensures
        collect_node(n, NodeKind::Action) == Seq::<CountNode>::empty(),
        collect_node(n, NodeKind::Condition) == Seq::<CountNode>::empty(),
    decreases n, 0nat,
{
    lemma_values_collect_nothing(n.children@);
    assert(collect_node(n, NodeKind::Action) =~= Seq::<CountNode>::empty());
    assert(collect_node(n, NodeKind::Condition) =~= Seq::<CountNode>::empty());
}

/// Value trees hold no conditions and no actions.
proof fn lemma_values_collect_nothing(s: Seq<CountNode>)
    requires
        values_only(s),
    ensures
        collect_kind(s, NodeKind::Action) == Seq::<CountNode>::empty(),
        collect_kind(s, NodeKind::Condition) == Seq::<CountNode>::empty(),
    decreases s, 1nat,
{
    if s.len() > 0 {
        let p = s.subrange(0, s.len() - 1);
        assert(values_only(p)) by {
            assert forall|i: int| 0 <= i < p.len() implies value_tree(#[trigger] p[i]) by {
                assert(p[i] == s[i]);
            }
        }
        lemma_values_collect_nothing(p);
        assert(value_tree(s[s.len() - 1]));
        lemma_value_tree_collects_nothing(s[s.len() - 1]);
        assert(collect_kind(s, NodeKind::Action) =~= Seq::<CountNode>::empty());
        assert(collect_kind(s, NodeKind::Condition) =~= Seq::<CountNode>::empty());
    }
}

/// The line counts of an action tree's actions make up its whole count, and
/// it holds no conditions.
proof fn lemma_action_tree_lines(n: CountNode)
    requires
        action_tree(n),
    ensures
        action_lines_sum(collect_node(n, NodeKind::Action)) == action_count(n),
        collect_node(n, NodeKind::Condition) == Seq::<CountNode>::empty(),
    decreases n, 0nat,
{
    lemma_action_children_lines(n.children@);
    lemma_values_less_one(n.children@);
    let rest = collect_kind(n.children@, NodeKind::Action);
    assert(collect_node(n, NodeKind::Action) == seq![n] + rest);
    lemma_action_lines_concat(seq![n], rest);
    assert(seq![n].drop_last() =~= Seq::<CountNode>::empty());
    assert(seq![n].last() == n);
    assert(action_lines_sum(Seq::<CountNode>::empty()) == 0);
    assert(action_lines_sum(seq![n]) == 1 + values_less_one(n.children@));
    assert(collect_node(n, NodeKind::Condition) =~= Seq::<CountNode>::empty());
}

/// The line counts of the actions in value and action trees make up the
/// count of the action trees among them.
proof fn lemma_action_children_lines(s: Seq<CountNode>)
    requires
        action_children(s),
    ensures
        action_lines_sum(collect_kind(s, NodeKind::Action)) == nested_action_sum(s),
        collect_kind(s, NodeKind::Condition) == Seq::<CountNode>::empty(),
    decreases s, 1nat,
{
    if s.len() > 0 {
        let p = s.subrange(0, s.len() - 1);
        let l = s[s.len() - 1];
        assert(action_children(p)) by {
            assert forall|i: int| 0 <= i < p.len() implies value_tree(#[trigger] p[i]) || action_tree(p[i]) by {
                assert(p[i] == s[i]);
            }
        }
        lemma_action_children_lines(p);
        assert(value_tree(l) || action_tree(l));
        if value_tree(l) {
            lemma_value_tree_collects_nothing(l);
        } else {
            lemma_action_tree_lines(l);
        }
        lemma_action_lines_concat(collect_kind(p, NodeKind::Action), collect_node(l, NodeKind::Action));
        assert(collect_kind(s, NodeKind::Condition) =~= Seq::<CountNode>::empty());
        assert(action_lines_sum(Seq::<CountNode>::empty()) == 0);
    }
}

/// The line counts of the conditions and actions of a rule's children make
/// up the count of those children.
proof fn lemma_rule_children_lines(s: Seq<CountNode>)
    requires
        forall|i: int|
            0 <= i < s.len() ==> ((#[trigger] s[i]).kind == NodeKind::Condition && values_only(s[i].children@))
                || action_tree(s[i]),
    ensures
        condition_lines_sum(collect_kind(s, NodeKind::Condition)) + action_lines_sum(
            collect_kind(s, NodeKind::Action),
        ) == rule_children_sum(s),
    decreases s.len(),
{
    if s.len() > 0 {
        let p = s.subrange(0, s.len() - 1);
        let l = s[s.len() - 1];
        assert forall|i: int| 0 <= i < p.len() implies ((#[trigger] p[i]).kind == NodeKind::Condition && values_only(
            p[i].children@,
        )) || action_tree(p[i]) by {
            assert(p[i] == s[i]);
        }
        lemma_rule_children_lines(p);
        lemma_condition_lines_concat(collect_kind(p, NodeKind::Condition), collect_node(l, NodeKind::Condition));
        lemma_action_lines_concat(collect_kind(p, NodeKind::Action), collect_node(l, NodeKind::Action));
        if l.kind == NodeKind::Condition && values_only(l.children@) {
            lemma_values_collect_nothing(l.children@);
            assert(collect_node(l, NodeKind::Condition) =~= seq![l]);
            assert(collect_node(l, NodeKind::Action) =~= Seq::<CountNode>::empty());
            assert(seq![l].drop_last() =~= Seq::<CountNode>::empty());
            assert(seq![l].last() == l);
            assert(condition_lines_sum(Seq::<CountNode>::empty()) == 0);
            assert(condition_lines_sum(seq![l]) == condition_count(l));
        } else {
            lemma_action_tree_lines(l);
        }
        assert(condition_lines_sum(Seq::<CountNode>::empty()) == 0);
        assert(action_lines_sum(Seq::<CountNode>::empty()) == 0);
    }
}

/// Rule-lines law: in a rule whose conditions hold values and whose actions
/// hold values and actions, the counts written after its condition lines
/// and after its action lines (each action counted alone) add up to the
/// rule's count less one, so no nested action is counted twice.
pub proof fn lemma_rule_lines_add_up(rule: CountNode)
    requires
        rule_tree(rule),
    ensures
        condition_lines_sum(collect_kind(rule.children@, NodeKind::Condition)) + action_lines_sum(
            collect_kind(rule.children@, NodeKind::Action),
        ) + 1 == rule_count(rule),
{
    lemma_rule_children_lines(rule.children@);
}

/// Condition-line law: the count written after a condition line is what
/// that condition adds to the sum of the rule's line counts.
pub proof fn lemma_condition_line_count(st: Annotation, line: Seq<char>, rules: Seq<CountNode>)
    requires
        header_step(st, line, rules).in_conditions,
        is_element_line(line),
        0 <= header_step(st, line, rules).condition_index < header_step(st, line, rules).conditions.len(),
    ensures
        ({
            let s1 = header_step(st, line, rules);
            let c = s1.conditions[s1.condition_index];
            annotate_step(st, line, rules).text == s1.text + strip_newlines(line) + count_comment(
                condition_lines_sum(seq![c]),
            )
        }),
{
    let s1 = header_step(st, line, rules);
    let c = s1.conditions[s1.condition_index];
    assert(seq![c].drop_last() =~= Seq::<CountNode>::empty());
    assert(seq![c].last() == c);
    assert(condition_lines_sum(Seq::<CountNode>::empty()) == 0);
}

} // verus!
