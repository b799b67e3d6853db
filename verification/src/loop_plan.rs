//! How the statements of a loop body are taken apart before they are
//! lowered: where a `continue` skips the rest of the body, where a `goto`
//! skips forward to a label of the same sequence, and where it leaves the
//! loop for a label of an enclosing one.
use vstd::prelude::*;
use crate::control::{contains_loop_continue, continue_conditions, goto_conditions, has_loop_continue, pure_continue_conditions, pure_goto_conditions};
use crate::hir::Stmt;
use crate::strings::{str_eq, views};

verus! {

/// One step of lowering a loop body, by the position of its statement.
#[derive(Clone, Copy, Debug, PartialEq, Eq)]
pub enum LoopStep {
    /// A `continue`, plain or under conditions: a skip over the rest of the
    /// body, which follows as a sequence of its own.
    Continue(usize),
    /// A statement with a `continue` nested in it, lowered with the rest of
    /// the body, a sequence of its own, as what follows it.
    ContinueWithin(usize),
    /// A `goto` to the label at `target`, later in the same sequence: a skip
    /// over the statements between, which form a sequence of their own, as
    /// do those after the label.
    Jump { at: usize, target: usize },
    /// A `goto` to a label of the enclosing sequence only: leaving the loop.
    Break(usize),
    /// Any other statement but a label, lowered by itself.
    Action(usize),
}

/// Whether a statement is the label `name`.
pub open spec fn label_named(s: Stmt, name: Seq<char>) -> bool {
    s matches Stmt::Label { name: n, .. } && n@ == name
}

/// The first label `name` among the statements `from` to `to` (exclusive).
pub open spec fn first_label(ss: Seq<Stmt>, from: int, to: int, name: Seq<char>) -> Option<int>
    decreases to - from,
{
    if from >= to {
        None
    } else if label_named(ss[from], name) {
        Some(from)
    } else {
        first_label(ss, from + 1, to, name)
    }
}

/// Whether one of the statements `from` to `to` (exclusive) is the label `name`.
pub open spec fn has_label(ss: Seq<Stmt>, from: int, to: int, name: Seq<char>) -> bool {
    exists|k: int| from <= k < to && label_named(#[trigger] ss[k], name)
}

/// The first label found lies in the range and bears the name; where none
/// is found, the range holds no such label.
pub proof fn lemma_first_label_range(ss: Seq<Stmt>, from: int, to: int, name: Seq<char>)
    ensures
        first_label(ss, from, to, name) matches Some(t) ==> from <= t < to && label_named(ss[t], name),
        first_label(ss, from, to, name) is None ==> !has_label(ss, from, to, name),
    decreases to - from,
{
    if from < to && !label_named(ss[from], name) {
        lemma_first_label_range(ss, from + 1, to, name);
    }
}

/// The steps of lowering the statements `i` to `hi` (exclusive) of the
/// sequence that starts at `seg`, given the labels of the enclosing
/// sequence. A `continue` or a `goto` to a later label of the sequence ends
/// it: what follows is planned as sequences of their own.
pub open spec fn loop_plan(ss: Seq<Stmt>, seg: int, i: int, hi: int, outer: Seq<Seq<char>>) -> Seq<LoopStep>
    decreases hi - i,
{
    if i >= hi || i < 0 {
        Seq::empty()
    } else {
        let s = ss[i];
        if continue_conditions(s) is Some {
            seq![LoopStep::Continue(i as usize)] + loop_plan(ss, i + 1, i + 1, hi, outer)
        } else if has_loop_continue(s) {
            seq![LoopStep::ContinueWithin(i as usize)] + loop_plan(ss, i + 1, i + 1, hi, outer)
        } else {
            match goto_conditions(s) {
                Some((_, label)) => match first_label(ss, i + 1, hi, label) {
                    Some(t) => {
                        proof {
                            lemma_first_label_range(ss, i + 1, hi, label);
                        }
                        seq![LoopStep::Jump { at: i as usize, target: t as usize }] + loop_plan(
                            ss,
                            i + 1,
                            i + 1,
                            t,
                            outer,
                        ) + loop_plan(ss, t + 1, t + 1, hi, outer)
                    },
                    None => if !has_label(ss, seg, hi, label) && outer.contains(label) {
                        seq![LoopStep::Break(i as usize)] + loop_plan(ss, seg, i + 1, hi, outer)
                    } else {
                        seq![LoopStep::Action(i as usize)] + loop_plan(ss, seg, i + 1, hi, outer)
                    },
                },
                None => if s is Label {
                    loop_plan(ss, seg, i + 1, hi, outer)
                } else {
                    seq![LoopStep::Action(i as usize)] + loop_plan(ss, seg, i + 1, hi, outer)
                },
            }
        }
    }
}

/// The first label `name` among the statements `from` to `to`.
fn find_label(ss: &[Stmt], from: usize, to: usize, name: &str) -> (r: Option<usize>)
    requires
        from <= to <= ss@.len(),
    ensures
        r matches Some(t) ==> first_label(ss@, from as int, to as int, name@) == Some(t as int),
        r is None ==> first_label(ss@, from as int, to as int, name@) is None,
        r matches Some(t) ==> from <= t < to,
    decreases to - from,
{
    if from >= to {
        return None;
    }
    let here = match &ss[from] {
        Stmt::Label { name: n, .. } => str_eq(n.as_str(), name),
        _ => false,
    };
    assert(here == label_named(ss@[from as int], name@));
    if here {
        Some(from)
    } else {
        find_label(ss, from + 1, to, name)
    }
}

/// Whether a label `name` is among the statements `from` to `to`.
fn any_label(ss: &[Stmt], from: usize, to: usize, name: &str) -> (r: bool)
    requires
        from <= to <= ss@.len(),
    ensures
        r == has_label(ss@, from as int, to as int, name@),
{
    let found = find_label(ss, from, to, name);
    proof {
        lemma_first_label_range(ss@, from as int, to as int, name@);
    }
    found.is_some()
}

/// Whether `name` is among `labels`.
fn names_label(labels: &Vec<String>, name: &str) -> (r: bool)
    ensures
        r == views(labels@).contains(name@),
{
    let mut k: usize = 0;
    while k < labels.len()
        invariant
            k <= labels@.len(),
            forall|q: int| 0 <= q < k ==> views(labels@)[q] != name@,
        decreases labels@.len() - k,
    {
        if str_eq(labels[k].as_str(), name) {
            assert(views(labels@)[k as int] == name@);
            return true;
        }
        k = k + 1;
    }
    false
}

/// Append the plan of the statements `i` to `hi` of the sequence that
/// starts at `seg`.
fn plan_into(ss: &[Stmt], seg: usize, i: usize, hi: usize, outer: &Vec<String>, out: &mut Vec<LoopStep>)
    requires
        seg <= i,
        hi <= ss@.len(),
    ensures
        final(out)@ == old(out)@ + loop_plan(ss@, seg as int, i as int, hi as int, views(outer@)),
    decreases hi - i,
{
    let ghost o = views(outer@);
    if i >= hi {
        assert(old(out)@ + loop_plan(ss@, seg as int, i as int, hi as int, o) =~= old(out)@);
        return;
    }
    let s = &ss[i];
    if pure_continue_conditions(s).is_some() {
        out.push(LoopStep::Continue(i));
        plan_into(ss, i + 1, i + 1, hi, outer, out);
        assert(final(out)@ =~= old(out)@ + loop_plan(ss@, seg as int, i as int, hi as int, o));
        return;
    }
    if contains_loop_continue(s) {
        out.push(LoopStep::ContinueWithin(i));
        plan_into(ss, i + 1, i + 1, hi, outer, out);
        assert(final(out)@ =~= old(out)@ + loop_plan(ss@, seg as int, i as int, hi as int, o));
        return;
    }
    match pure_goto_conditions(s) {
        Some((_, label)) => {
            match find_label(ss, i + 1, hi, label) {
                Some(t) => {
                    assert(first_label(ss@, i + 1, hi as int, label@) == Some(t as int));
                    assert(goto_conditions(ss@[i as int]) matches Some((_, l)) && l == label@);
                    assert(loop_plan(ss@, seg as int, i as int, hi as int, o) == seq![
                        LoopStep::Jump { at: i, target: t },
                    ] + loop_plan(ss@, i + 1, i + 1, t as int, o) + loop_plan(ss@, t + 1, t + 1, hi as int, o));
                    out.push(LoopStep::Jump { at: i, target: t });
                    plan_into(ss, i + 1, i + 1, t, outer, out);
                    plan_into(ss, t + 1, t + 1, hi, outer, out);
                    assert(final(out)@ =~= old(out)@ + loop_plan(ss@, seg as int, i as int, hi as int, o));
                },
                None => {
                    if !any_label(ss, seg, hi, label) && names_label(outer, label) {
                        out.push(LoopStep::Break(i));
                    } else {
                        out.push(LoopStep::Action(i));
                    }
                    plan_into(ss, seg, i + 1, hi, outer, out);
                    assert(final(out)@ =~= old(out)@ + loop_plan(ss@, seg as int, i as int, hi as int, o));
                },
            }
        },
        None => {
            let is_label = match s {
                Stmt::Label { .. } => true,
                _ => false,
            };
            if !is_label {
                out.push(LoopStep::Action(i));
            }
            plan_into(ss, seg, i + 1, hi, outer, out);
            assert(final(out)@ =~= old(out)@ + loop_plan(ss@, seg as int, i as int, hi as int, o));
        },
    }
}

/// The steps of lowering a loop body (or a sequence within one), given
/// the labels of the enclosing sequence: a `continue` skips what follows,
/// a `goto` skips forward to the first later label of its name, or, where
/// the sequence holds no such label and the enclosing one does, leaves the
/// loop; labels lower to nothing, and every other statement by itself.
pub fn loop_sequence_plan(statements: &[Stmt], outer_labels: &Vec<String>) -> (r: Vec<LoopStep>)
    ensures
        r@ == loop_plan(statements@, 0, 0, statements@.len() as int, views(outer_labels@)),
{
    let mut out: Vec<LoopStep> = Vec::new();
    plan_into(statements, 0, 0, statements.len(), outer_labels, &mut out);
    assert(out@ =~= loop_plan(statements@, 0, 0, statements@.len() as int, views(outer_labels@)));
    out
}

/// The position of the statement a step lowers.
pub open spec fn step_at(s: LoopStep) -> int {
    match s {
        LoopStep::Continue(i) => i as int,
        LoopStep::ContinueWithin(i) => i as int,
        LoopStep::Jump { at, .. } => at as int,
        LoopStep::Break(i) => i as int,
        LoopStep::Action(i) => i as int,
    }
}

/// Whether the steps lower statements from `lo` to `hi` (exclusive), in
/// source order, each at most once.
pub open spec fn in_order(p: Seq<LoopStep>, lo: int, hi: int) -> bool {
    &&& forall|a: int| 0 <= a < p.len() ==> lo <= #[trigger] step_at(p[a]) < hi
    &&& forall|a: int, b: int| 0 <= a < b < p.len() ==> step_at(#[trigger] p[a]) < step_at(#[trigger] p[b])
}

proof fn lemma_in_order_concat(p: Seq<LoopStep>, q: Seq<LoopStep>, lo: int, mid: int, hi: int)
    requires
        lo <= mid <= hi,
        in_order(p, lo, mid),
        in_order(q, mid, hi),
    ensures
        in_order(p + q, lo, hi),
{
    let r = p + q;
    assert forall|a: int| 0 <= a < r.len() implies lo <= #[trigger] step_at(r[a]) < hi by {
        if a < p.len() {
            assert(r[a] == p[a]);
        } else {
            assert(r[a] == q[a - p.len()]);
        }
    }
    assert forall|a: int, b: int| 0 <= a < b < r.len() implies step_at(#[trigger] r[a]) < step_at(#[trigger] r[b]) by {
        if b < p.len() {
            assert(r[a] == p[a] && r[b] == p[b]);
        } else if a >= p.len() {
            assert(r[a] == q[a - p.len()] && r[b] == q[b - p.len()]);
        } else {
            assert(r[a] == p[a] && r[b] == q[b - p.len()]);
            assert(lo <= step_at(p[a]) < mid);
            assert(mid <= step_at(q[b - p.len()]) < hi);
        }
    }
}

/// A loop body is lowered in source order: the plan takes each statement
/// at most once, in the order of the body, and none outside the range.
pub proof fn lemma_loop_plan_in_order(ss: Seq<Stmt>, seg: int, i: int, hi: int, outer: Seq<Seq<char>>)
    requires
        0 <= i,
        hi <= usize::MAX,
    ensures
        in_order(loop_plan(ss, seg, i, hi, outer), i, hi),
    decreases hi - i,
{
    let p = loop_plan(ss, seg, i, hi, outer);
    if i >= hi {
        assert(p.len() == 0);
    } else {
        let s = ss[i];
        if continue_conditions(s) is Some || has_loop_continue(s) {
            lemma_loop_plan_in_order(ss, i + 1, i + 1, hi, outer);
            let x = if continue_conditions(s) is Some { LoopStep::Continue(i as usize) } else { LoopStep::ContinueWithin(i as usize) };
            lemma_in_order_concat(seq![x], loop_plan(ss, i + 1, i + 1, hi, outer), i, i + 1, hi);
        } else {
            match goto_conditions(s) {
                Some((_, label)) => match first_label(ss, i + 1, hi, label) {
                    Some(t) => {
                        lemma_first_label_range(ss, i + 1, hi, label);
                        lemma_loop_plan_in_order(ss, i + 1, i + 1, t, outer);
                        lemma_loop_plan_in_order(ss, t + 1, t + 1, hi, outer);
                        let j = seq![LoopStep::Jump { at: i as usize, target: t as usize }];
                        let m = loop_plan(ss, i + 1, i + 1, t, outer);
                        let z = loop_plan(ss, t + 1, t + 1, hi, outer);
                        lemma_in_order_concat(j, m, i, i + 1, t);
                        lemma_in_order_concat(j + m, z, i, t + 1, hi);
                    },
                    None => {
                        lemma_loop_plan_in_order(ss, seg, i + 1, hi, outer);
                        let x = if !has_label(ss, seg, hi, label) && outer.contains(label) {
                            LoopStep::Break(i as usize)
                        } else {
                            LoopStep::Action(i as usize)
                        };
                        lemma_in_order_concat(seq![x], loop_plan(ss, seg, i + 1, hi, outer), i, i + 1, hi);
                    },
                },
                None => {
                    lemma_loop_plan_in_order(ss, seg, i + 1, hi, outer);
                    if s is Label {
                    } else {
                        lemma_in_order_concat(
                            seq![LoopStep::Action(i as usize)],
                            loop_plan(ss, seg, i + 1, hi, outer),
                            i,
                            i + 1,
                            hi,
                        );
                    }
                },
            }
        }
    }
}

} // verus!
