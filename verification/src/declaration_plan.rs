//! Two steps of laying out a program's declarations: refusing a name that
//! a declaration of the same kind already took, and ordering a table of
//! variables or subroutines by the slot each was given.
use vstd::prelude::*;
use crate::diagnostics::IntegrationError;
use crate::hir::{Declaration, ResolvedProgram, Span};
use crate::strings::{push_str, str_eq, string_of};

verus! {

/// The kind a declaration names something in (0 for global variables, 1
/// for player variables, 2 for subroutines, 3 for constants), its name and
/// its span; macros name nothing here.
pub open spec fn named(d: Declaration) -> Option<(nat, Seq<char>, Option<Span>)> {
    match d {
        Declaration::GlobalVariable { name, span, .. } => Some((0nat, name@, span)),
        Declaration::PlayerVariable { name, span, .. } => Some((1nat, name@, span)),
        Declaration::Subroutine { name, span, .. } => Some((2nat, name@, span)),
        Declaration::Constant { name, span, .. } => Some((3nat, name@, span)),
        Declaration::Macro { .. } => None,
    }
}

/// Whether a declaration names `n` in kind `k`.
pub open spec fn names_as(d: Declaration, k: nat, n: Seq<char>) -> bool {
    named(d) matches Some((k2, n2, _)) && k2 == k && n2 == n
}

/// Whether declaration `i` takes a name that an earlier declaration of the
/// same kind took.
pub open spec fn repeats_name(ds: Seq<Declaration>, i: int) -> bool {
    named(ds[i]) matches Some((k, n, _)) && exists|j: int| 0 <= j < i && #[trigger] names_as(ds[j], k, n)
}

/// The first of the first `k` declarations that repeats a name.
pub open spec fn first_repeat(ds: Seq<Declaration>, k: int) -> Option<int>
    decreases k,
{
    if k <= 0 {
        None
    } else {
        match first_repeat(ds, k - 1) {
            Some(i) => Some(i),
            None => if repeats_name(ds, k - 1) {
                Some(k - 1)
            } else {
                None
            },
        }
    }
}

/// A repeat found among the first declarations stays the first.
proof fn lemma_first_repeat_stays(ds: Seq<Declaration>, a: int, b: int)
    requires
        a <= b,
        first_repeat(ds, a) is Some,
    ensures
        first_repeat(ds, b) == first_repeat(ds, a),
    decreases b - a,
{
    if a < b {
        lemma_first_repeat_stays(ds, a, b - 1);
    }
}

/// The error for a declaration that repeats a name of its kind.
pub open spec fn collision_error(e: IntegrationError, d: Declaration) -> bool {
    match named(d) {
        Some((k, n, s)) => {
            &&& e.diagnostic.code@ == "symbol-collision"@
            &&& e.diagnostic.message@ == "duplicate "@ + kind_label(k) + " '"@ + n + "'"@
            &&& e.diagnostic.span == s
            &&& e.diagnostic.script is None
        },
        None => false,
    }
}

/// How a kind of declaration is called in messages.
pub open spec fn kind_label(k: nat) -> Seq<char> {
    if k == 0 {
        "global variable"@
    } else if k == 1 {
        "player variable"@
    } else if k == 2 {
        "subroutine"@
    } else {
        "constant"@
    }
}

fn name_of(d: &Declaration) -> (r: Option<(u8, &String, Option<Span>)>)
    ensures
        match r {
            Some((k, n, s)) => named(*d) == Some((k as nat, n@, s)),
            None => named(*d) is None,
        },
{
    match d {
        Declaration::GlobalVariable { name, span, .. } => Some((0, name, *span)),
        Declaration::PlayerVariable { name, span, .. } => Some((1, name, *span)),
        Declaration::Subroutine { name, span, .. } => Some((2, name, *span)),
        Declaration::Constant { name, span, .. } => Some((3, name, *span)),
        Declaration::Macro { .. } => None,
    }
}

/// Refuse the first declaration whose name a declaration of the same kind
/// already took: `symbol-collision`, at the repeating declaration.
pub fn check_declared_names(hir: &ResolvedProgram) -> (r: Result<(), IntegrationError>)
    ensures
        match first_repeat(hir.declarations@, hir.declarations@.len() as int) {
            None => r is Ok,
            Some(i) => r matches Err(e) && collision_error(e, hir.declarations@[i]),
        },
{
    let ds = &hir.declarations;
    let mut i: usize = 0;
    while i < ds.len()
        invariant
            i <= ds@.len(),
            ds@ == hir.declarations@,
            first_repeat(ds@, i as int) is None,
        decreases ds@.len() - i,
    {
        match name_of(&ds[i]) {
            Some((k, n, s)) => {
                let mut j: usize = 0;
                while j < i
                    invariant
                        j <= i < ds@.len(),
                        ds@ == hir.declarations@,
                        first_repeat(ds@, i as int) is None,
                        named(ds@[i as int]) == Some((k as nat, n@, s)),
                        forall|q: int| 0 <= q < j ==> !#[trigger] names_as(ds@[q], k as nat, n@),
                    decreases i - j,
                {
                    match name_of(&ds[j]) {
                        Some((k2, n2, _)) => {
                            if k2 == k && str_eq(n2.as_str(), n.as_str()) {
                                let mut m: Vec<char> = Vec::new();
                                push_str(&mut m, "duplicate ");
                                let label = if k == 0 {
                                    "global variable"
                                } else if k == 1 {
                                    "player variable"
                                } else if k == 2 {
                                    "subroutine"
                                } else {
                                    "constant"
                                };
                                push_str(&mut m, label);
                                push_str(&mut m, " '");
                                push_str(&mut m, n.as_str());
                                push_str(&mut m, "'");
                                assert(names_as(ds@[j as int], k as nat, n@));
                                assert(exists|q: int| 0 <= q < i && #[trigger] names_as(ds@[q], k as nat, n@));
                                assert(repeats_name(ds@, i as int));
                                assert(first_repeat(ds@, i + 1) == Some(i as int));
                                proof {
                                    lemma_first_repeat_stays(ds@, i + 1, ds@.len() as int);
                                }
                                return Err(IntegrationError::new("symbol-collision", string_of(&m), s));
                            }
                        },
                        None => {},
                    }
                    j = j + 1;
                }
                assert(!repeats_name(ds@, i as int));
            },
            None => {},
        }
        i = i + 1;
    }
    Ok(())
}

/// A planned table entry: name, slot, and the spans of the declaration and
/// of its name.
pub type Planned = (Seq<char>, u32, Option<Span>, Option<Span>);

pub open spec fn planned_view(e: (String, u32, Option<Span>, Option<Span>)) -> Planned {
    (e.0@, e.1, e.2, e.3)
}

pub open spec fn planned_views(s: Seq<(String, u32, Option<Span>, Option<Span>)>) -> Seq<Planned> {
    s.map_values(|e: (String, u32, Option<Span>, Option<Span>)| planned_view(e))
}

/// `x` placed in an ordered table after every entry whose slot is not
/// above its own.
pub open spec fn insert_by_slot(s: Seq<Planned>, x: Planned) -> Seq<Planned>
    decreases s.len(),
{
    if s.len() == 0 {
        seq![x]
    } else if x.1 < s.last().1 {
        insert_by_slot(s.drop_last(), x).push(s.last())
    } else {
        s.push(x)
    }
}

/// The entries ordered by slot, entries of one slot in their given order.
pub open spec fn ordered_by_slot(s: Seq<Planned>) -> Seq<Planned>
    decreases s.len(),
{
    if s.len() == 0 {
        Seq::empty()
    } else {
        insert_by_slot(ordered_by_slot(s.drop_last()), s.last())
    }
}

/// Whether the slots do not decrease.
pub open spec fn slots_ascend(s: Seq<Planned>) -> bool {
    forall|i: int, j: int| 0 <= i < j < s.len() ==> (#[trigger] s[i]).1 <= (#[trigger] s[j]).1
}

/// Inserting into an ordered table is inserting at the first entry whose
/// slot is above the new one.
proof fn lemma_insert_by_slot(s: Seq<Planned>, x: Planned, p: int)
    requires
        slots_ascend(s),
        0 <= p <= s.len(),
        forall|i: int| 0 <= i < p ==> (#[trigger] s[i]).1 <= x.1,
        forall|i: int| p <= i < s.len() ==> (#[trigger] s[i]).1 > x.1,
    ensures
        insert_by_slot(s, x) == s.insert(p, x),
        slots_ascend(s.insert(p, x)),
    decreases s.len(),
{
    if s.len() == 0 {
        assert(s.insert(p, x) =~= seq![x]);
    } else if x.1 < s.last().1 {
        let d = s.drop_last();
        assert(p < s.len());
        lemma_insert_by_slot(d, x, p);
        assert(d.insert(p, x).push(s.last()) =~= s.insert(p, x));
    } else {
        assert(p == s.len());
        assert(s.push(x) =~= s.insert(p, x));
    }
    let t = s.insert(p, x);
    assert forall|i: int, j: int| 0 <= i < j < t.len() implies (#[trigger] t[i]).1 <= (#[trigger] t[j]).1 by {
        if i < p {
            assert(t[i] == s[i]);
        } else if i == p {
            assert(t[i] == x);
        } else {
            assert(t[i] == s[i - 1]);
        }
        if j < p {
            assert(t[j] == s[j]);
        } else if j == p {
            assert(t[j] == x);
        } else {
            assert(t[j] == s[j - 1]);
        }
    }
}

/// Order a table of declared variables or subroutines by slot, keeping the
/// order of entries that share a slot.
pub fn planned_table(entries: Vec<(String, u32, Option<Span>, Option<Span>)>) -> (r: Vec<
    (String, u32, Option<Span>, Option<Span>),
>)
    ensures
        planned_views(r@) == ordered_by_slot(planned_views(entries@)),
        slots_ascend(planned_views(r@)),
{
    let ghost input = planned_views(entries@);
    let mut out: Vec<(String, u32, Option<Span>, Option<Span>)> = Vec::new();
    let mut rest = entries;
    let ghost n = input.len();
    // Take the entries from the back, then insert them in their given order.
    let mut stack: Vec<(String, u32, Option<Span>, Option<Span>)> = Vec::new();
    while rest.len() > 0
        invariant
            planned_views(rest@) + planned_views(stack@).reverse() == input,
        decreases rest@.len(),
    {
        let ghost before_rest = rest@;
        let ghost before_stack = stack@;
        let e = rest.pop().unwrap();
        stack.push(e);
        assert(planned_views(rest@) =~= planned_views(before_rest).drop_last());
        assert(planned_views(stack@).reverse() =~= seq![planned_view(e)] + planned_views(before_stack).reverse());
        assert(planned_views(before_rest) =~= planned_views(rest@).push(planned_view(e)));
    }
    assert(planned_views(rest@) =~= Seq::<Planned>::empty());
    assert(planned_views(stack@).reverse() =~= input);
    let total = stack.len();
    let ghost m = stack@.len();
    let mut k: usize = 0;
    assert(input.take(0) =~= Seq::<Planned>::empty());
    while stack.len() > 0
        invariant
            stack@.len() + k == m,
            m == input.len(),
            m == total,
            planned_views(stack@).reverse() == input.skip(k as int),
            planned_views(out@) == ordered_by_slot(input.take(k as int)),
            slots_ascend(planned_views(out@)),
        decreases stack@.len(),
    {
        let ghost before_stack = stack@;
        let e = stack.pop().unwrap();
        assert(planned_views(before_stack).reverse()[0] == planned_view(e));
        assert(input.skip(k as int)[0] == input[k as int]);
        assert(planned_view(e) == input[k as int]);
        assert(planned_views(stack@).reverse() =~= input.skip(k + 1)) by {
            assert(planned_views(stack@) =~= planned_views(before_stack).drop_last());
            assert(planned_views(before_stack).reverse().skip(1) =~= planned_views(stack@).reverse());
            assert(input.skip(k as int).skip(1) =~= input.skip(k + 1));
        }
        let ghost s = planned_views(out@);
        let mut p: usize = 0;
        while p < out.len() && out[p].1 <= e.1
            invariant
                p <= out@.len(),
                s == planned_views(out@),
                forall|i: int| 0 <= i < p ==> (#[trigger] s[i]).1 <= e.1,
            decreases out@.len() - p,
        {
            assert(s[p as int] == planned_view(out@[p as int]));
            p = p + 1;
        }
        assert forall|i: int| p <= i < s.len() implies (#[trigger] s[i]).1 > e.1 by {
            assert(s[p as int] == planned_view(out@[p as int]));
            assert(s[p as int].1 > e.1);
            if i > p {
                assert(s[p as int].1 <= s[i].1);
            }
        }
        proof {
            lemma_insert_by_slot(s, planned_view(e), p as int);
        }
        let ghost before_out = out@;
        out.insert(p, e);
        assert(planned_views(out@) =~= s.insert(p as int, planned_view(e))) by {
            assert(out@ =~= before_out.insert(p as int, e));
        }
        assert(input.take(k + 1).drop_last() =~= input.take(k as int));
        assert(input.take(k + 1).last() == input[k as int]);
        k = k + 1;
    }
    assert(input.take(k as int) =~= input);
    out
}

} // verus!
