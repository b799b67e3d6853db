//! The slots a program's declarations may not take: those of the default
//! variables it uses without declaring them, and those of the helper
//! variables its directives ask for.
use vstd::prelude::*;
use std::collections::HashSet;
use crate::allocation::{allocate_indices, assigned, lemma_allocation_is_injective, lemma_assigned_is_free, collision_message, exhaustion_message, first_collision, first_exhaustion, Entry};
use crate::diagnostics::IntegrationError;
use crate::hir::{default_var_index, default_var_index_spec, Declaration, Span};
use crate::implicit::{record_all, table_view, Use};
use crate::implicit_program::{implicit_default_variables, implicit_players, program_uses};
use crate::directives::directive_names;
use crate::hir::ResolvedProgram;
use crate::lowering_queries::{
    compression_alphabet_index, first_directive_span, helper_global_index, highest_free, or_span,
    translation_helper_index,
};
use crate::strings::{decimal, decimal_chars, push_chars, push_str, str_eq, string_of};

verus! {

/// The slot an implicit variable takes: a default name its own, and the
/// language index the last player slot.
pub open spec fn implicit_slot(name: Seq<char>, player: bool) -> Option<u32> {
    if player && name == "__languageIndex__"@ {
        Some(127u32)
    } else {
        default_var_index_spec(name)
    }
}

/// The explicit slot, name and span of a declared global variable (or, for
/// `player`, of a declared player variable).
pub open spec fn explicit_slot(d: Declaration, player: bool) -> Option<(u32, Seq<char>, Option<Span>)> {
    match d {
        Declaration::GlobalVariable { name, index: Some(i), span, .. } => if player {
            None
        } else {
            Some((i, name@, span))
        },
        Declaration::PlayerVariable { name, index: Some(i), span, .. } => if player {
            Some((i, name@, span))
        } else {
            None
        },
        _ => None,
    }
}

/// The first of the first `k` implicit variables of `t` that takes slot `index`.
pub open spec fn first_clash(t: Seq<Use>, index: u32, player: bool, k: int) -> Option<int>
    decreases k,
{
    if k <= 0 {
        None
    } else {
        match first_clash(t, index, player, k - 1) {
            Some(j) => Some(j),
            None => if implicit_slot(t[k - 1].0, player) == Some(index) {
                Some(k - 1)
            } else {
                None
            },
        }
    }
}

/// Whether a declaration is a variable of the player kind.
pub open spec fn declares_player(d: Declaration) -> bool {
    d is PlayerVariable
}

/// The implicit variable whose slot declaration `d` names explicitly, if any.
pub open spec fn clash_of(d: Declaration, globals: Seq<Use>, players: Seq<Use>) -> Option<int> {
    let player = declares_player(d);
    let t = if player { players } else { globals };
    match explicit_slot(d, player) {
        Some((i, _, _)) => first_clash(t, i, player, t.len() as int),
        None => None,
    }
}

/// The first of the first `k` declarations whose explicit slot an implicit
/// variable of its kind takes.
pub open spec fn first_slot_clash(ds: Seq<Declaration>, globals: Seq<Use>, players: Seq<Use>, k: int) -> Option<int>
    decreases k,
{
    if k <= 0 {
        None
    } else {
        match first_slot_clash(ds, globals, players, k - 1) {
            Some(i) => Some(i),
            None => if clash_of(ds[k - 1], globals, players) is Some {
                Some(k - 1)
            } else {
                None
            },
        }
    }
}

/// The error for declaration `d`, whose explicit slot the implicit variable
/// `u` of its kind takes.
pub open spec fn slot_clash_error(e: IntegrationError, d: Declaration, u: Use) -> bool {
    let player = declares_player(d);
    match explicit_slot(d, player) {
        Some((i, name, span)) => {
            &&& e.diagnostic.code@ == "index-collision"@
            &&& e.diagnostic.message@ == "duplicate use of index "@ + decimal(i as nat) + " for "@ + (if player {
                "player"@
            } else {
                "global"@
            }) + " variables '"@ + u.0 + "' and '"@ + name + "'"@
            &&& e.diagnostic.span == or_span(u.1, span)
            &&& e.diagnostic.script is None
        },
        None => false,
    }
}

proof fn lemma_first_clash_stays(t: Seq<Use>, index: u32, player: bool, a: int, b: int)
    requires
        a <= b,
        first_clash(t, index, player, a) is Some,
    ensures
        first_clash(t, index, player, b) == first_clash(t, index, player, a),
    decreases b - a,
{
    if a < b {
        lemma_first_clash_stays(t, index, player, a, b - 1);
    }
}

proof fn lemma_first_slot_clash_stays(ds: Seq<Declaration>, g: Seq<Use>, p: Seq<Use>, a: int, b: int)
    requires
        a <= b,
        first_slot_clash(ds, g, p, a) is Some,
    ensures
        first_slot_clash(ds, g, p, b) == first_slot_clash(ds, g, p, a),
    decreases b - a,
{
    if a < b {
        lemma_first_slot_clash_stays(ds, g, p, a, b - 1);
    }
}

/// The slot of an implicit variable.
fn slot_of_implicit(name: &str, player: bool) -> (r: Option<u32>)
    ensures
        r == implicit_slot(name@, player),
{
    if player && str_eq(name, "__languageIndex__") {
        Some(127)
    } else {
        default_var_index(name)
    }
}

/// The explicit slot, name and span of a declared variable of the kind.
fn explicit_slot_of(d: &Declaration, player: bool) -> (r: Option<(u32, &String, Option<Span>)>)
    ensures
        match r {
            Some((i, n, s)) => explicit_slot(*d, player) == Some((i, n@, s)),
            None => explicit_slot(*d, player) is None,
        },
{
    match d {
        Declaration::GlobalVariable { name, index: Some(i), span, .. } => if player {
            None
        } else {
            Some((*i, name, *span))
        },
        Declaration::PlayerVariable { name, index: Some(i), span, .. } => if player {
            Some((*i, name, *span))
        } else {
            None
        },
        _ => None,
    }
}

/// Refuse the first declared variable whose explicit slot a default
/// variable that the program uses without declaring it already takes:
/// `index-collision`, naming both, at the use of the default variable (or,
/// where it has no span, at the declaration). `globals` and `players` are
/// the implicit tables, in order of first use.
pub fn check_implicit_slot_collisions(
    declarations: &Vec<Declaration>,
    globals: &Vec<(String, Option<Span>)>,
    players: &Vec<(String, Option<Span>)>,
) -> (r: Result<(), IntegrationError>)
    ensures
        match first_slot_clash(
            declarations@,
            table_view(globals@),
            table_view(players@),
            declarations@.len() as int,
        ) {
            None => r is Ok,
            Some(i) => r matches Err(e) && slot_clash_error(
                e,
                declarations@[i],
                (if declares_player(declarations@[i]) {
                    table_view(players@)
                } else {
                    table_view(globals@)
                })[clash_of(declarations@[i], table_view(globals@), table_view(players@)).unwrap()],
            ),
        },
{
    let ghost ds = declarations@;
    let ghost g = table_view(globals@);
    let ghost p = table_view(players@);
    let mut i: usize = 0;
    while i < declarations.len()
        invariant
            i <= ds.len(),
            ds == declarations@,
            g == table_view(globals@),
            p == table_view(players@),
            first_slot_clash(ds, g, p, i as int) is None,
        decreases ds.len() - i,
    {
        let d = &declarations[i];
        let player = match d {
            Declaration::PlayerVariable { .. } => true,
            _ => false,
        };
        assert(player == declares_player(ds[i as int]));
        let table = if player { players } else { globals };
        let ghost t = table_view(table@);
        assert(t == (if player { p } else { g }));
        match explicit_slot_of(d, player) {
            Some((index, name, span)) => {
                let mut k: usize = 0;
                while k < table.len()
                    invariant
                        k <= table@.len(),
                        i < ds.len(),
                        ds == declarations@,
                        g == table_view(globals@),
                        p == table_view(players@),
                        first_slot_clash(ds, g, p, i as int) is None,
                        player == declares_player(ds[i as int]),
                        explicit_slot(ds[i as int], player) == Some((index, name@, span)),
                        t == (if player { p } else { g }),
                        t == table_view(table@),
                        t.len() == table@.len(),
                        first_clash(t, index, player, k as int) is None,
                    decreases table@.len() - k,
                {
                    let (implicit_name, implicit_span) = &table[k];
                    assert(t[k as int] == (implicit_name@, *implicit_span));
                    if slot_of_implicit(implicit_name.as_str(), player) == Some(index) {
                        assert(first_clash(t, index, player, k + 1) == Some(k as int));
                        proof {
                            lemma_first_clash_stays(t, index, player, k + 1, t.len() as int);
                        }
                        assert(clash_of(ds[i as int], g, p) == Some(k as int));
                        assert(first_slot_clash(ds, g, p, i + 1) == Some(i as int));
                        proof {
                            lemma_first_slot_clash_stays(ds, g, p, i + 1, ds.len() as int);
                        }
                        let mut m: Vec<char> = Vec::new();
                        push_str(&mut m, "duplicate use of index ");
                        let digits = decimal_chars(index as u64);
                        push_chars(&mut m, &digits);
                        push_str(&mut m, " for ");
                        push_str(&mut m, if player { "player" } else { "global" });
                        push_str(&mut m, " variables '");
                        push_str(&mut m, implicit_name.as_str());
                        push_str(&mut m, "' and '");
                        push_str(&mut m, name.as_str());
                        push_str(&mut m, "'");
                        let at = match implicit_span {
                            Some(s) => Some(*s),
                            None => span,
                        };
                        let e = IntegrationError::new("index-collision", string_of(&m), at);
                        proof {
                            assert(e.diagnostic.message@ =~= "duplicate use of index "@ + decimal(index as nat) + " for "@
                                + (if player { "player"@ } else { "global"@ }) + " variables '"@ + implicit_name@
                                + "' and '"@ + name@ + "'"@);
                        }
                        return Err(e);
                    }
                    k = k + 1;
                }
                assert(clash_of(ds[i as int], g, p) is None);
            },
            None => {
                assert(clash_of(ds[i as int], g, p) is None);
            },
        }
        i = i + 1;
    }
    Ok(())
}

/// The explicit slots of the declared global variables, in declaration order.
pub open spec fn explicit_global_slots(ds: Seq<Declaration>) -> Seq<u32>
    decreases ds.len(),
{
    if ds.len() == 0 {
        Seq::empty()
    } else {
        let rest = explicit_global_slots(ds.drop_last());
        match ds.last() {
            Declaration::GlobalVariable { index: Some(i), .. } => rest.push(i),
            _ => rest,
        }
    }
}

/// The slot of a helper variable: none where nothing asks for it, else the
/// highest slot not reserved; `None` where every slot is reserved.
pub open spec fn wanted_slot(asked: bool, reserved: Seq<u32>) -> Option<Option<u32>> {
    if !asked {
        Some(None)
    } else {
        match highest_free(reserved) {
            Some(i) => Some(Some(i)),
            None => None,
        }
    }
}

/// The reserved slots, with the slot a helper took, if it took one.
pub open spec fn with_slot(reserved: Seq<u32>, slot: Option<u32>) -> Seq<u32> {
    match slot {
        Some(i) => reserved.push(i),
        None => reserved,
    }
}

/// An `index-exhausted` error with this message and span.
pub open spec fn exhausted_error(e: IntegrationError, message: Seq<char>, span: Option<Span>) -> bool {
    &&& e.diagnostic.code@ == "index-exhausted"@
    &&& e.diagnostic.message@ == message
    &&& e.diagnostic.span == span
    &&& e.diagnostic.script is None
}

/// The global slots of the helper variables: the translation helper, the
/// compression alphabet and the replacement of the empty string.
#[derive(Clone, Copy, Debug, PartialEq, Eq)]
pub struct HelperSlots {
    pub translation: Option<u32>,
    pub compression_alphabet: Option<u32>,
    pub empty_string: Option<u32>,
}

/// The slots the helpers take, given the slots of the implicit globals;
/// `None` where one of them finds no slot left.
pub open spec fn helper_slots(hir: &ResolvedProgram, implicit_reserved: Seq<u32>) -> Option<HelperSlots> {
    let h0 = implicit_reserved + explicit_global_slots(hir.declarations@);
    let ds = hir.preprocessing.directives@;
    match wanted_slot(hir.preprocessing.translations is Some, h0) {
        None => None,
        Some(t) => {
            let h1 = with_slot(h0, t);
            match wanted_slot(directive_names(ds).contains("useVariableForCompressionAlphabet"@), h1) {
                None => None,
                Some(c) => {
                    let h2 = with_slot(h1, c);
                    match wanted_slot(directive_names(ds).contains("replaceEmptyStringByVariable"@), h2) {
                        None => None,
                        Some(x) => Some(HelperSlots { translation: t, compression_alphabet: c, empty_string: x }),
                    }
                },
            }
        },
    }
}

/// The error of the first helper that finds no slot left.
pub open spec fn helper_exhaustion(e: IntegrationError, hir: &ResolvedProgram, implicit_reserved: Seq<u32>) -> bool {
    let h0 = implicit_reserved + explicit_global_slots(hir.declarations@);
    let ds = hir.preprocessing.directives@;
    match wanted_slot(hir.preprocessing.translations is Some, h0) {
        None => exhausted_error(
            e,
            "no available global variable index remains for translations"@,
            hir.preprocessing.translations.unwrap().span,
        ),
        Some(t) => {
            let h1 = with_slot(h0, t);
            match wanted_slot(directive_names(ds).contains("useVariableForCompressionAlphabet"@), h1) {
                None => exhausted_error(
                    e,
                    "no available global variable index remains for the compression alphabet"@,
                    first_directive_span(ds, "useVariableForCompressionAlphabet"@),
                ),
                Some(c) => exhausted_error(
                    e,
                    "no available global variable index remains for the empty-string replacement"@,
                    first_directive_span(ds, "replaceEmptyStringByVariable"@),
                ),
            }
        },
    }
}

/// Keep a global slot for each helper variable that the program asks for,
/// in turn: the translation helper, the compression alphabet, then the
/// replacement of the empty string. Each takes the highest slot that
/// neither a default variable the program uses (`implicit_reserved`), nor
/// a declared global's explicit index, nor an earlier helper took; where
/// none is left, `index-exhausted` at what asked for it.
pub fn reserve_helper_slots(hir: &ResolvedProgram, implicit_reserved: &Vec<u32>) -> (r: Result<
    HelperSlots,
    IntegrationError,
>)
    ensures
        match helper_slots(hir, implicit_reserved@) {
            Some(h) => r == Ok::<HelperSlots, IntegrationError>(h),
            None => r matches Err(e) && helper_exhaustion(e, hir, implicit_reserved@),
        },
{
    let ghost ds = hir.declarations@;
    let mut reserved: Vec<u32> = Vec::new();
    let mut k: usize = 0;
    while k < implicit_reserved.len()
        invariant
            k <= implicit_reserved@.len(),
            reserved@ == implicit_reserved@.take(k as int),
        decreases implicit_reserved@.len() - k,
    {
        reserved.push(implicit_reserved[k]);
        assert(implicit_reserved@.take(k + 1) =~= implicit_reserved@.take(k as int).push(implicit_reserved@[k as int]));
        k = k + 1;
    }
    assert(implicit_reserved@.take(k as int) =~= implicit_reserved@);
    let mut i: usize = 0;
    assert(ds.take(0) =~= Seq::<Declaration>::empty());
    while i < hir.declarations.len()
        invariant
            i <= ds.len(),
            ds == hir.declarations@,
            reserved@ == implicit_reserved@ + explicit_global_slots(ds.take(i as int)),
        decreases ds.len() - i,
    {
        assert(ds.take(i + 1).drop_last() =~= ds.take(i as int));
        assert(ds.take(i + 1).last() == ds[i as int]);
        match &hir.declarations[i] {
            Declaration::GlobalVariable { index: Some(x), .. } => {
                reserved.push(*x);
                assert(reserved@ =~= implicit_reserved@ + explicit_global_slots(ds.take(i + 1)));
            },
            _ => {
                assert(reserved@ =~= implicit_reserved@ + explicit_global_slots(ds.take(i + 1)));
            },
        }
        i = i + 1;
    }
    assert(ds.take(i as int) =~= ds);
    let translation = match translation_helper_index(hir, &reserved) {
        Ok(t) => t,
        Err(e) => return Err(e),
    };
    if let Some(x) = translation {
        reserved.push(x);
    }
    let compression_alphabet = match compression_alphabet_index(hir, &reserved) {
        Ok(c) => c,
        Err(e) => return Err(e),
    };
    if let Some(x) = compression_alphabet {
        reserved.push(x);
    }
    let empty_string = match helper_global_index(
        hir,
        &reserved,
        "replaceEmptyStringByVariable",
        "no available global variable index remains for the empty-string replacement",
    ) {
        Ok(x) => x,
        Err(e) => return Err(e),
    };
    Ok(HelperSlots { translation, compression_alphabet, empty_string })
}

/// The entries to place for the declarations of one kind (0 for global
/// variables, 1 for player variables, 2 for subroutines): explicit index
/// and span, in declaration order.
pub open spec fn slot_entries(ds: Seq<Declaration>, kind: nat) -> Seq<Entry>
    decreases ds.len(),
{
    if ds.len() == 0 {
        Seq::empty()
    } else {
        let rest = slot_entries(ds.drop_last(), kind);
        match ds.last() {
            Declaration::GlobalVariable { index, span, .. } => if kind == 0 {
                rest.push((index, span))
            } else {
                rest
            },
            Declaration::PlayerVariable { index, span, .. } => if kind == 1 {
                rest.push((index, span))
            } else {
                rest
            },
            Declaration::Subroutine { index, span, .. } => if kind == 2 {
                rest.push((index, span))
            } else {
                rest
            },
            _ => rest,
        }
    }
}

/// The slots the implicit variables of a table take, in table order.
pub open spec fn implicit_slots(t: Seq<Use>, player: bool) -> Seq<u32>
    decreases t.len(),
{
    if t.len() == 0 {
        Seq::empty()
    } else {
        let rest = implicit_slots(t.drop_last(), player);
        match implicit_slot(t.last().0, player) {
            Some(i) => rest.push(i),
            None => rest,
        }
    }
}

/// The slots the helpers took.
pub open spec fn helper_picks(h: HelperSlots) -> Seq<u32> {
    with_slot(with_slot(with_slot(Seq::empty(), h.translation), h.compression_alphabet), h.empty_string)
}

/// The slots the entries receive, where none collides and none runs out.
pub open spec fn placement(entries: Seq<Entry>, reserved: Set<u32>) -> Option<Seq<u32>> {
    if first_collision(entries, reserved) is None && first_exhaustion(entries, reserved) is None {
        Some(Seq::new(entries.len(), |i: int| assigned(entries, reserved, i)))
    } else {
        None
    }
}

/// The error of placing entries of a kind where one collides or runs out.
pub open spec fn placement_error(e: IntegrationError, entries: Seq<Entry>, reserved: Set<u32>, kind: Seq<char>) -> bool {
    match first_collision(entries, reserved) {
        Some(i) => {
            &&& e.diagnostic.code@ == "index-collision"@
            &&& e.diagnostic.span == entries[i].1
            &&& e.diagnostic.message@ == collision_message(kind, entries[i].0.unwrap())
            &&& e.diagnostic.script is None
        },
        None => match first_exhaustion(entries, reserved) {
            Some(i) => {
                &&& e.diagnostic.code@ == "index-exhausted"@
                &&& e.diagnostic.span == entries[i].1
                &&& e.diagnostic.message@ == exhaustion_message(kind)
                &&& e.diagnostic.script is None
            },
            None => false,
        },
    }
}

/// The slots of a program's declarations: those of the helper variables,
/// then one per declared global variable, player variable and subroutine,
/// in declaration order.
#[derive(Clone, Debug, PartialEq, Eq)]
pub struct DeclarationSlots {
    pub helpers: HelperSlots,
    pub globals: Vec<u32>,
    pub players: Vec<u32>,
    pub subroutines: Vec<u32>,
}

/// Whether `r` is what placing the declarations of a program gives, once
/// no explicit slot clashes with an implicit variable and the helpers
/// found their slots: globals avoid the implicit globals and the helpers,
/// players the implicit players, subroutines nothing.
pub open spec fn placed(r: Result<DeclarationSlots, IntegrationError>, hir: &ResolvedProgram, h: HelperSlots) -> bool {
    let ds = hir.declarations@;
    let g = record_all(Seq::empty(), program_uses(*hir, false));
    let p = implicit_players(*hir);
    let gr = (implicit_slots(g, false) + helper_picks(h)).to_set();
    let pr = implicit_slots(p, true).to_set();
    let ge = slot_entries(ds, 0);
    let pe = slot_entries(ds, 1);
    let se = slot_entries(ds, 2);
    match placement(ge, gr) {
        None => r matches Err(e) && placement_error(e, ge, gr, "global variable"@),
        Some(gs) => match placement(pe, pr) {
            None => r matches Err(e) && placement_error(e, pe, pr, "player variable"@),
            Some(ps) => match placement(se, Set::empty()) {
                None => r matches Err(e) && placement_error(e, se, Set::empty(), "subroutine"@),
                Some(ss) => r matches Ok(x) && x.helpers == h && x.globals@ == gs && x.players@ == ps
                    && x.subroutines@ == ss,
            },
        },
    }
}

/// The entries of one kind of declaration.
fn entries_of(ds: &Vec<Declaration>, kind: u8) -> (r: Vec<Entry>)
    requires
        kind <= 2,
    ensures
        r@ == slot_entries(ds@, kind as nat),
{
    let mut r: Vec<Entry> = Vec::new();
    let mut i: usize = 0;
    assert(ds@.take(0) =~= Seq::<Declaration>::empty());
    while i < ds.len()
        invariant
            i <= ds@.len(),
            kind <= 2,
            r@ == slot_entries(ds@.take(i as int), kind as nat),
        decreases ds@.len() - i,
    {
        assert(ds@.take(i + 1).drop_last() =~= ds@.take(i as int));
        assert(ds@.take(i + 1).last() == ds@[i as int]);
        match &ds[i] {
            Declaration::GlobalVariable { index, span, .. } => if kind == 0 {
                r.push((*index, *span));
            },
            Declaration::PlayerVariable { index, span, .. } => if kind == 1 {
                r.push((*index, *span));
            },
            Declaration::Subroutine { index, span, .. } => if kind == 2 {
                r.push((*index, *span));
            },
            _ => {},
        }
        i = i + 1;
    }
    assert(ds@.take(i as int) =~= ds@);
    r
}

/// The slots of the implicit variables of a table.
fn slots_of_implicit(t: &Vec<(String, Option<Span>)>, player: bool) -> (r: Vec<u32>)
    ensures
        r@ == implicit_slots(table_view(t@), player),
{
    let ghost tv = table_view(t@);
    let mut r: Vec<u32> = Vec::new();
    let mut i: usize = 0;
    assert(tv.take(0) =~= Seq::<Use>::empty());
    while i < t.len()
        invariant
            i <= t@.len(),
            tv == table_view(t@),
            tv.len() == t@.len(),
            r@ == implicit_slots(tv.take(i as int), player),
        decreases t@.len() - i,
    {
        assert(tv.take(i + 1).drop_last() =~= tv.take(i as int));
        assert(tv.take(i + 1).last() == tv[i as int]);
        assert(tv[i as int].0 == t@[i as int].0@);
        match slot_of_implicit(t[i].0.as_str(), player) {
            Some(x) => r.push(x),
            None => {},
        }
        i = i + 1;
    }
    assert(tv.take(i as int) =~= tv);
    r
}

/// A set of the slots in `v`.
fn slot_set(v: &Vec<u32>) -> (r: HashSet<u32>)
    ensures
        r@ == v@.to_set(),
{
    proof {
        broadcast use vstd::std_specs::hash::group_hash_axioms;
    }
    let mut r: HashSet<u32> = HashSet::new();
    let mut i: usize = 0;
    while i < v.len()
        invariant
            i <= v@.len(),
            r@ == v@.take(i as int).to_set(),
        decreases v@.len() - i,
    {
        r.insert(v[i]);
        assert(v@.take(i + 1) =~= v@.take(i as int).push(v@[i as int]));
        proof {
            v@.take(i as int).lemma_push_to_set_commute(v@[i as int]);
        }
        i = i + 1;
    }
    assert(v@.take(i as int) =~= v@);
    r
}

/// Place a program's declarations: refuse a declared variable whose
/// explicit slot a default variable the program uses takes, keep the
/// helpers' slots, then give every declared global variable, player
/// variable and subroutine its slot.
pub fn plan_declaration_slots(hir: &ResolvedProgram) -> (r: Result<DeclarationSlots, IntegrationError>)
    ensures
        ({
            let ds = hir.declarations@;
            let g = record_all(Seq::empty(), program_uses(*hir, false));
            let p = implicit_players(*hir);
            match first_slot_clash(ds, g, p, ds.len() as int) {
                Some(i) => r matches Err(e) && slot_clash_error(
                    e,
                    ds[i],
                    (if declares_player(ds[i]) { p } else { g })[clash_of(ds[i], g, p).unwrap()],
                ),
                None => match helper_slots(hir, implicit_slots(g, false)) {
                    None => r matches Err(e) && helper_exhaustion(e, hir, implicit_slots(g, false)),
                    Some(h) => placed(r, hir, h),
                },
            }
        }),
{
    let (globals, players) = implicit_default_variables(hir);
    match check_implicit_slot_collisions(&hir.declarations, &globals, &players) {
        Ok(()) => {},
        Err(e) => return Err(e),
    }
    let implicit_reserved = slots_of_implicit(&globals, false);
    let helpers = match reserve_helper_slots(hir, &implicit_reserved) {
        Ok(h) => h,
        Err(e) => return Err(e),
    };
    let mut global_reserved = implicit_reserved;
    if let Some(x) = helpers.translation {
        global_reserved.push(x);
    }
    if let Some(x) = helpers.compression_alphabet {
        global_reserved.push(x);
    }
    if let Some(x) = helpers.empty_string {
        global_reserved.push(x);
    }
    assert(global_reserved@ =~= implicit_slots(table_view(globals@), false) + helper_picks(helpers));
    let global_set = slot_set(&global_reserved);
    let player_set = slot_set(&slots_of_implicit(&players, true));
    let no_slots = slot_set(&Vec::new());
    assert(no_slots@ =~= Set::<u32>::empty());
    let global_entries = entries_of(&hir.declarations, 0);
    let player_entries = entries_of(&hir.declarations, 1);
    let subroutine_entries = entries_of(&hir.declarations, 2);
    let gs = match allocate_indices(global_entries.as_slice(), &global_set, "global variable") {
        Ok(v) => v,
        Err(e) => return Err(e),
    };
    assert(gs@ =~= placement(global_entries@, global_set@).unwrap());
    let ps = match allocate_indices(player_entries.as_slice(), &player_set, "player variable") {
        Ok(v) => v,
        Err(e) => return Err(e),
    };
    assert(ps@ =~= placement(player_entries@, player_set@).unwrap());
    let ss = match allocate_indices(subroutine_entries.as_slice(), &no_slots, "subroutine") {
        Ok(v) => v,
        Err(e) => return Err(e),
    };
    assert(ss@ =~= placement(subroutine_entries@, no_slots@).unwrap());
    Ok(DeclarationSlots { helpers, globals: gs, players: ps, subroutines: ss })
}

/// Placement law: where a program's declarations are placed, no two
/// declared global variables share a slot, and none takes the slot of a
/// default variable the program uses without declaring it, nor that of a
/// helper; no two declared player variables share a slot, and none takes
/// the slot of an implicit player variable.
pub proof fn lemma_placed_slots_are_free(
    hir: &ResolvedProgram,
    h: HelperSlots,
    r: Result<DeclarationSlots, IntegrationError>,
)
    requires
        placed(r, hir, h),
        r is Ok,
    ensures
        ({
            let x = r->Ok_0;
            let g = record_all(Seq::empty(), program_uses(*hir, false));
            let p = implicit_players(*hir);
            &&& forall|i: int, j: int|
                0 <= i < j < x.globals@.len() ==> #[trigger] x.globals@[i] != #[trigger] x.globals@[j]
            &&& forall|i: int|
                0 <= i < x.globals@.len() ==> !implicit_slots(g, false).contains(#[trigger] x.globals@[i])
                    && !helper_picks(h).contains(x.globals@[i])
            &&& forall|i: int, j: int|
                0 <= i < j < x.players@.len() ==> #[trigger] x.players@[i] != #[trigger] x.players@[j]
            &&& forall|i: int| 0 <= i < x.players@.len() ==> !implicit_slots(p, true).contains(#[trigger] x.players@[i])
        }),
{
    let x = r->Ok_0;
    let ds = hir.declarations@;
    let g = record_all(Seq::empty(), program_uses(*hir, false));
    let p = implicit_players(*hir);
    let gs = implicit_slots(g, false) + helper_picks(h);
    let gr = gs.to_set();
    let pr = implicit_slots(p, true).to_set();
    let ge = slot_entries(ds, 0);
    let pe = slot_entries(ds, 1);
    assert(placement(ge, gr) is Some);
    assert(placement(pe, pr) is Some);
    assert forall|i: int, j: int| 0 <= i < j < x.globals@.len() implies #[trigger] x.globals@[i]
        != #[trigger] x.globals@[j] by {
        lemma_allocation_is_injective(ge, gr, i, j);
    }
    assert forall|i: int| 0 <= i < x.globals@.len() implies !implicit_slots(g, false).contains(
        #[trigger] x.globals@[i],
    ) && !helper_picks(h).contains(x.globals@[i]) by {
        lemma_assigned_is_free(ge, gr, i);
        let v = x.globals@[i];
        if implicit_slots(g, false).contains(v) {
            let k = choose|k: int| 0 <= k < implicit_slots(g, false).len() && implicit_slots(g, false)[k] == v;
            assert(gs[k] == v);
            assert(gr.contains(v));
        }
        if helper_picks(h).contains(v) {
            let k = choose|k: int| 0 <= k < helper_picks(h).len() && helper_picks(h)[k] == v;
            assert(gs[implicit_slots(g, false).len() + k] == v);
            assert(gr.contains(v));
        }
    }
    assert forall|i: int, j: int| 0 <= i < j < x.players@.len() implies #[trigger] x.players@[i]
        != #[trigger] x.players@[j] by {
        lemma_allocation_is_injective(pe, pr, i, j);
    }
    assert forall|i: int| 0 <= i < x.players@.len() implies !implicit_slots(p, true).contains(
        #[trigger] x.players@[i],
    ) by {
        lemma_assigned_is_free(pe, pr, i);
    }
}

} // verus!
