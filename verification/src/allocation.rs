//! Deterministic slot allocation for variables and subroutines.
//!
//! Explicit indices are reserved first; every entry without one then takes
//! the smallest slot that is still free, in declaration order, regardless
//! of where the explicit indices sit.
use vstd::prelude::*;
use std::collections::HashSet;
use crate::diagnostics::IntegrationError;
use crate::hir::Span;
use crate::strings::{decimal, decimal_chars, push_str, string_of};

verus! {

/// One declaration to place: its explicit index, if any, and its span.
pub type Entry = (Option<u32>, Option<Span>);

/// The explicit indices of the entries.
pub open spec fn explicit_indices(entries: Seq<Entry>) -> Set<u32> {
    Set::new(|x: u32| exists|i: int| 0 <= i < entries.len() && (#[trigger] entries[i]).0 == Some(x))
}

/// Whether the explicit index of entry `i` is reserved already or repeats
/// an earlier explicit index.
pub open spec fn collides(entries: Seq<Entry>, reserved: Set<u32>, i: int) -> bool {
    &&& 0 <= i < entries.len()
    &&& entries[i].0 matches Some(x)
    &&& (reserved.contains(x) || exists|j: int| 0 <= j < i && (#[trigger] entries[j]).0 == Some(x))
}

/// The first entry whose explicit index collides.
pub open spec fn first_collision(entries: Seq<Entry>, reserved: Set<u32>) -> Option<int> {
    if exists|i: int| collides(entries, reserved, i) {
        Some(choose|i: int| collides(entries, reserved, i) && forall|j: int| 0 <= j < i ==> !collides(entries, reserved, j))
    } else {
        None
    }
}

/// The smallest slot not in `t`.
pub open spec fn least_free(t: Set<u32>) -> u32 {
    choose|n: u32| !t.contains(n) && forall|m: u32| m < n ==> t.contains(m)
}

/// Whether every slot below the largest one is taken.
pub open spec fn exhausted(t: Set<u32>) -> bool {
    forall|m: u32| m < u32::MAX ==> t.contains(m)
}

/// The slots taken before entry `i` is placed: the reserved ones, every
/// explicit index, and the slots given to the entries before `i` that had none.
pub open spec fn taken(entries: Seq<Entry>, reserved: Set<u32>, i: int) -> Set<u32>
    decreases i,
{
    if i <= 0 {
        reserved.union(explicit_indices(entries))
    } else {
        let t = taken(entries, reserved, i - 1);
        if entries[i - 1].0 is Some {
            t
        } else {
            t.insert(least_free(t))
        }
    }
}

/// The slot entry `i` receives.
pub open spec fn assigned(entries: Seq<Entry>, reserved: Set<u32>, i: int) -> u32 {
    match entries[i].0 {
        Some(x) => x,
        None => least_free(taken(entries, reserved, i)),
    }
}

/// Whether entry `i` has no explicit index and finds no slot below the largest one.
pub open spec fn runs_out(entries: Seq<Entry>, reserved: Set<u32>, i: int) -> bool {
    0 <= i < entries.len() && entries[i].0 is None && exhausted(taken(entries, reserved, i))
}

/// The first entry that runs out of slots.
pub open spec fn first_exhaustion(entries: Seq<Entry>, reserved: Set<u32>) -> Option<int> {
    if exists|i: int| runs_out(entries, reserved, i) {
        Some(choose|i: int| runs_out(entries, reserved, i) && forall|j: int| 0 <= j < i ==> !runs_out(entries, reserved, j))
    } else {
        None
    }
}

/// The message of a repeated explicit index.
pub open spec fn collision_message(kind: Seq<char>, index: u32) -> Seq<char> {
    "duplicate explicit "@ + kind + " index "@ + decimal(index as nat)
}

/// The message of an exhausted slot range.
pub open spec fn exhaustion_message(kind: Seq<char>) -> Seq<char> {
    "no available "@ + kind + " index remains"@
}

/// A free slot below which every slot is taken is the least free slot.
proof fn lemma_least_free(t: Set<u32>, n: u32)
    requires
        !t.contains(n),
        forall|m: u32| m < n ==> t.contains(m),
    ensures
        least_free(t) == n,
{
    let k = least_free(t);
    assert(!t.contains(k) && forall|m: u32| m < k ==> t.contains(m));
    if k < n {
        assert(t.contains(k));
    } else if n < k {
        assert(t.contains(n));
    }
}

/// The first collision is the one found at `i` when none came before.
proof fn lemma_first_collision(entries: Seq<Entry>, reserved: Set<u32>, i: int)
    requires
        collides(entries, reserved, i),
        forall|j: int| 0 <= j < i ==> !collides(entries, reserved, j),
    ensures
        first_collision(entries, reserved) == Some(i),
{
    let k = choose|k: int| collides(entries, reserved, k) && forall|j: int| 0 <= j < k ==> !collides(entries, reserved, j);
    assert(collides(entries, reserved, k));
    if k < i {
    } else if i < k {
        assert(!collides(entries, reserved, i));
    }
}

/// The first exhaustion is the one found at `i` when none came before.
proof fn lemma_first_exhaustion(entries: Seq<Entry>, reserved: Set<u32>, i: int)
    requires
        runs_out(entries, reserved, i),
        forall|j: int| 0 <= j < i ==> !runs_out(entries, reserved, j),
    ensures
        first_exhaustion(entries, reserved) == Some(i),
{
    let k = choose|k: int| runs_out(entries, reserved, k) && forall|j: int| 0 <= j < k ==> !runs_out(entries, reserved, j);
    assert(runs_out(entries, reserved, k));
    if k < i {
    } else if i < k {
        assert(!runs_out(entries, reserved, i));
    }
}

/// Whether `x` is in the pre-reserved set or in `reserved`.
fn is_reserved(pre: &HashSet<u32>, reserved: &HashSet<u32>, x: u32) -> (r: bool)
    ensures
        r == (pre@.contains(x) || reserved@.contains(x)),
{
    proof {
        broadcast use vstd::std_specs::hash::group_hash_axioms;
    }
    pre.contains(&x) || reserved.contains(&x)
}

/// The smallest slot from `start` on that is neither pre-reserved nor reserved.
fn next_free(pre: &HashSet<u32>, reserved: &HashSet<u32>, start: u32, Ghost(t): Ghost<Set<u32>>) -> (r: Option<u32>)
    requires
        pre@.union(reserved@) == t,
        forall|m: u32| m < start ==> t.contains(m),
    ensures
        r matches Some(n) ==> !t.contains(n) && forall|m: u32| m < n ==> t.contains(m),
        r is None ==> forall|m: u32| t.contains(m),
{
    let mut n = start;
    loop
        invariant
            pre@.union(reserved@) == t,
            forall|m: u32| m < n ==> t.contains(m),
        decreases u32::MAX - n,
    {
        if !is_reserved(pre, reserved, n) {
            return Some(n);
        }
        if n == u32::MAX {
            return None;
        }
        n = n + 1;
    }
}

/// The message `prefix kind suffix`.
fn kind_message(prefix: &str, kind: &str, suffix: &str) -> (r: String)
    ensures
        r@ == prefix@ + kind@ + suffix@,
{
    let mut v: Vec<char> = Vec::new();
    push_str(&mut v, prefix);
    push_str(&mut v, kind);
    push_str(&mut v, suffix);
    assert(v@ =~= prefix@ + kind@ + suffix@);
    string_of(&v)
}

/// Assign a slot to every entry: explicit indices are kept and reserved
/// together with `pre_reserved`; the other entries take the smallest free
/// slots in order. A repeated or pre-reserved explicit index fails with
/// `index-collision`; running out of slots fails with `index-exhausted`.
pub fn allocate_indices(entries: &[Entry], pre_reserved: &HashSet<u32>, kind: &str) -> (r: Result<
    Vec<u32>,
    IntegrationError,
>)
    ensures
        match first_collision(entries@, pre_reserved@) {
            Some(i) => r matches Err(e) && e.diagnostic.code@ == "index-collision"@
                && e.diagnostic.span == entries@[i].1 && e.diagnostic.message@ == collision_message(
                kind@,
                entries@[i].0.unwrap(),
            ) && e.diagnostic.script is None,
            None => match first_exhaustion(entries@, pre_reserved@) {
                Some(i) => r matches Err(e) && e.diagnostic.code@ == "index-exhausted"@
                    && e.diagnostic.span == entries@[i].1 && e.diagnostic.message@
                    == exhaustion_message(kind@) && e.diagnostic.script is None,
                None => r matches Ok(v) && v@.len() == entries@.len() && forall|i: int|
                    0 <= i < entries@.len() ==> #[trigger] v@[i] == assigned(entries@, pre_reserved@, i),
            },
        },
{
    proof {
        broadcast use vstd::std_specs::hash::group_hash_axioms;
    }
    let ghost e = entries@;
    let ghost pre = pre_reserved@;
    let mut reserved: HashSet<u32> = HashSet::new();
    let mut i: usize = 0;
    while i < entries.len()
        invariant
            e == entries@,
            pre == pre_reserved@,
            0 <= i <= e.len(),
            reserved@ == explicit_indices(e.take(i as int)),
            forall|j: int| 0 <= j < i ==> !collides(e, pre, j),
        decreases e.len() - i,
    {
        if let Some(index) = entries[i].0 {
            if is_reserved(pre_reserved, &reserved, index) {
                proof {
                    if reserved@.contains(index) {
                        let j = choose|j: int| 0 <= j < i && (#[trigger] e.take(i as int)[j]).0 == Some(index);
                        assert(e[j].0 == Some(index));
                    }
                    assert(collides(e, pre, i as int));
                    lemma_first_collision(e, pre, i as int);
                }
                let digits = decimal_chars(index as u64);
                let mut message: Vec<char> = Vec::new();
                push_str(&mut message, "duplicate explicit ");
                push_str(&mut message, kind);
                push_str(&mut message, " index ");
                crate::strings::push_chars(&mut message, &digits);
                return Err(
                    IntegrationError::new("index-collision", string_of(&message), entries[i].1),
                );
            }
            reserved.insert(index);
            proof {
                assert(!collides(e, pre, i as int)) by {
                    if exists|j: int| 0 <= j < i && (#[trigger] e[j]).0 == Some(index) {
                        let j = choose|j: int| 0 <= j < i && (#[trigger] e[j]).0 == Some(index);
                        assert(e.take(i as int)[j].0 == Some(index));
                        assert(explicit_indices(e.take(i as int)).contains(index));
                    }
                }
            }
        }
        proof {
            assert(reserved@ =~= explicit_indices(e.take(i + 1))) by {
                assert forall|x: u32| reserved@.contains(x) implies explicit_indices(e.take(i + 1)).contains(x) by {
                    if explicit_indices(e.take(i as int)).contains(x) {
                        let j = choose|j: int| 0 <= j < i && (#[trigger] e.take(i as int)[j]).0 == Some(x);
                        assert(e.take(i + 1)[j].0 == Some(x));
                    } else {
                        assert(e.take(i + 1)[i as int].0 == Some(x));
                    }
                }
                assert forall|x: u32| explicit_indices(e.take(i + 1)).contains(x) implies reserved@.contains(x) by {
                    let j = choose|j: int| 0 <= j < i + 1 && (#[trigger] e.take(i + 1)[j]).0 == Some(x);
                    if j < i {
                        assert(e.take(i as int)[j].0 == Some(x));
                    }
                }
            }
        }
        i = i + 1;
    }
    proof {
        assert(e.take(e.len() as int) =~= e);
        assert(first_collision(e, pre) is None);
        assert(taken(e, pre, 0) =~= pre.union(reserved@));
    }
    let mut next: u32 = 0;
    let mut allocated: Vec<u32> = Vec::new();
    let mut i: usize = 0;
    while i < entries.len()
        invariant
            e == entries@,
            pre == pre_reserved@,
            first_collision(e, pre) is None,
            0 <= i <= e.len(),
            pre.union(reserved@) == taken(e, pre, i as int),
            forall|m: u32| m < next ==> taken(e, pre, i as int).contains(m),
            allocated@.len() == i,
            forall|j: int| 0 <= j < i ==> #[trigger] allocated@[j] == assigned(e, pre, j),
            forall|j: int| 0 <= j < i ==> !runs_out(e, pre, j),
        decreases e.len() - i,
    {
        let ghost t = taken(e, pre, i as int);
        match entries[i].0 {
            Some(index) => {
                allocated.push(index);
            },
            None => {
                match next_free(pre_reserved, &reserved, next, Ghost(t)) {
                    Some(free) => {
                        next = free;
                    },
                    None => {
                        proof {
                            assert(exhausted(t));
                            assert(runs_out(e, pre, i as int));
                            lemma_first_exhaustion(e, pre, i as int);
                        }
                        return Err(
                            IntegrationError::new(
                                "index-exhausted",
                                kind_message("no available ", kind, " index remains"),
                                entries[i].1,
                            ),
                        );
                    },
                }
                proof {
                    lemma_least_free(t, next);
                }
                reserved.insert(next);
                let assigned_index = next;
                if next == u32::MAX {
                    proof {
                        assert(exhausted(t));
                        assert(runs_out(e, pre, i as int));
                        lemma_first_exhaustion(e, pre, i as int);
                    }
                    return Err(
                        IntegrationError::new(
                            "index-exhausted",
                            kind_message("no available ", kind, " index remains"),
                            entries[i].1,
                        ),
                    );
                }
                proof {
                    assert(next < u32::MAX && !t.contains(next));
                    assert(!exhausted(t));
                    assert(!runs_out(e, pre, i as int));
                }
                next = next + 1;
                allocated.push(assigned_index);
            },
        }
        proof {
            assert(pre.union(reserved@) =~= taken(e, pre, i + 1));
            if e[i as int].0 is Some {
                let x = e[i as int].0.unwrap();
                assert(explicit_indices(e).contains(x));
                assert(taken(e, pre, 0).contains(x));
            }
        }
        i = i + 1;
    }
    proof {
        assert(first_exhaustion(e, pre) is None);
    }
    Ok(allocated)
}

/// A set that misses some slot has a least free slot.
proof fn lemma_least_free_exists(t: Set<u32>, w: u32)
    requires
        !t.contains(w),
    ensures
        !t.contains(least_free(t)),
        forall|m: u32| m < least_free(t) ==> t.contains(m),
    decreases w,
{
    if forall|m: u32| m < w ==> t.contains(m) {
        lemma_least_free(t, w);
    } else {
        let m = choose|m: u32| m < w && !t.contains(m);
        lemma_least_free_exists(t, m);
    }
}

/// The taken slots only grow, and always hold the reserved and explicit ones.
proof fn lemma_taken_grows(entries: Seq<Entry>, reserved: Set<u32>, a: int, b: int)
    requires
        0 <= a <= b,
    ensures
        taken(entries, reserved, a).subset_of(taken(entries, reserved, b)),
        reserved.union(explicit_indices(entries)).subset_of(taken(entries, reserved, b)),
    decreases b,
{
    if b > 0 {
        if a < b {
            lemma_taken_grows(entries, reserved, a, b - 1);
        }
        lemma_taken_grows(entries, reserved, 0, b - 1);
    }
}

/// An entry without an explicit index, placed before running out, gets a
/// slot that was free, and that slot is taken from then on.
proof fn lemma_auto_slot(entries: Seq<Entry>, reserved: Set<u32>, i: int)
    requires
        0 <= i < entries.len(),
        entries[i].0 is None,
        !runs_out(entries, reserved, i),
    ensures
        !taken(entries, reserved, i).contains(assigned(entries, reserved, i)),
        taken(entries, reserved, i + 1).contains(assigned(entries, reserved, i)),
{
    let t = taken(entries, reserved, i);
    let w = choose|m: u32| m < u32::MAX && !t.contains(m);
    lemma_least_free_exists(t, w);
}

/// Allocation law: when no explicit index collides and no entry runs out
/// of slots, every entry receives a different slot, none of them
/// pre-reserved, and entries with an explicit index receive that index.
pub proof fn lemma_allocation_is_injective(entries: Seq<Entry>, reserved: Set<u32>, i: int, j: int)
    requires
        first_collision(entries, reserved) is None,
        first_exhaustion(entries, reserved) is None,
        0 <= i < entries.len(),
        0 <= j < entries.len(),
        i != j,
    ensures
        assigned(entries, reserved, i) != assigned(entries, reserved, j),
        !reserved.contains(assigned(entries, reserved, i)),
        entries[i].0 matches Some(x) ==> assigned(entries, reserved, i) == x,
{
    assert(!collides(entries, reserved, i));
    assert(!collides(entries, reserved, j));
    assert(!runs_out(entries, reserved, i));
    assert(!runs_out(entries, reserved, j));
    lemma_taken_grows(entries, reserved, 0, i);
    lemma_taken_grows(entries, reserved, 0, j);
    if entries[i].0 is None {
        lemma_auto_slot(entries, reserved, i);
    }
    if entries[j].0 is None {
        lemma_auto_slot(entries, reserved, j);
    }
    let (a, b) = if i < j { (i, j) } else { (j, i) };
    lemma_taken_grows(entries, reserved, a + 1, b);
    match (entries[a].0, entries[b].0) {
        (Some(x), Some(y)) => {
            if x == y {
                assert(collides(entries, reserved, b));
            }
        },
        (Some(x), None) => {
            assert(explicit_indices(entries).contains(x));
        },
        (None, Some(y)) => {
            assert(explicit_indices(entries).contains(y));
        },
        (None, None) => {},
    }
}

/// Where no explicit index collides and no entry runs out of slots, no
/// entry receives a pre-reserved slot.
pub proof fn lemma_assigned_is_free(entries: Seq<Entry>, reserved: Set<u32>, i: int)
    requires
        first_collision(entries, reserved) is None,
        first_exhaustion(entries, reserved) is None,
        0 <= i < entries.len(),
    ensures
        !reserved.contains(assigned(entries, reserved, i)),
{
    assert(!collides(entries, reserved, i));
    assert(!runs_out(entries, reserved, i));
    lemma_taken_grows(entries, reserved, 0, i);
    if entries[i].0 is None {
        lemma_auto_slot(entries, reserved, i);
    }
}

} // verus!
