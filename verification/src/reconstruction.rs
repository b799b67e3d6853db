//! The checks that decide whether a Workshop program can be written back as
//! OPY source, and the layout of its rules when it can.
//!
//! Reconstruction never produces partial output: every construct outside
//! the OPY surface is reported as an issue, and one issue is enough to
//! refuse the program. The tables must hold valid, distinct, unreserved
//! names, global slots must not decrease and subroutine slots must equal
//! their table position. The rules must come as optional initializer rules,
//! then the subroutine bodies in table order, then the ordinary rules.
use vstd::prelude::*;
use crate::hir::{Position, Span};
use crate::strings::{decimal, decimal_chars, push_str, str_eq, string_of};
use crate::text::{is_opy_identifier, is_opy_identifier_spec};
use workshop_rs::program::{Action as WorkshopAction, Event as WorkshopEvent, Program};

verus! {

/// An entry of a Workshop declaration table: its name and the slot it was
/// declared with, if any.
pub struct TableEntry {
    pub name: String,
    pub index: Option<u32>,
}

/// A rule's event, as far as the layout tells events apart.
pub enum RuleEvent {
    Global,
    EachPlayer,
    Subroutine(String),
    Other,
}

/// An action, as far as initializer rules tell actions apart.
#[derive(Clone, Copy, Debug, PartialEq, Eq, Structural)]
pub enum ActionKind {
    SetGlobalVariable,
    SetPlayerVariable,
    Other,
}

/// What the layout reads of a rule: its name, whether it is disabled, its
/// event, its number of conditions, the kinds of its actions, and the
/// authored spans of the rule and of each action where they are known.
pub struct RuleShape {
    pub name: String,
    pub disabled: bool,
    pub event: RuleEvent,
    pub conditions: usize,
    pub actions: Vec<ActionKind>,
    pub span: Option<Span>,
    pub action_spans: Vec<Option<Span>>,
}

/// What the checks read of a Workshop program.
pub struct ProgramTables {
    pub has_settings: bool,
    pub global_variables: Vec<TableEntry>,
    pub player_variables: Vec<TableEntry>,
    pub subroutines: Vec<TableEntry>,
    pub rules: Vec<RuleShape>,
}

/// A construct that cannot be written as OPY, with its source span when it
/// is known.
pub struct ReconstructIssue {
    pub code: String,
    pub message: String,
    pub span: Option<Span>,
}

/// Every issue found in one program.
pub struct ReconstructError {
    pub issues: Vec<ReconstructIssue>,
}

/// An issue as plain values: code, message and span.
pub type IssueView = (Seq<char>, Seq<char>, Option<Span>);

pub open spec fn issue_view(i: ReconstructIssue) -> IssueView {
    (i.code@, i.message@, i.span)
}

pub open spec fn issues_view(s: Seq<ReconstructIssue>) -> Seq<IssueView> {
    s.map_values(|i: ReconstructIssue| issue_view(i))
}

/// The names that OPY reads as keywords or literals.
pub open spec fn is_reserved(n: Seq<char>) -> bool {
    ||| n == "true"@
    ||| n == "false"@
    ||| n == "None"@
    ||| n == "null"@
    ||| n == "eventPlayer"@
    ||| n == "rule"@
    ||| n == "def"@
    ||| n == "globalvar"@
    ||| n == "playervar"@
    ||| n == "subroutine"@
    ||| n == "enum"@
    ||| n == "macro"@
    ||| n == "if"@
    ||| n == "for"@
    ||| n == "while"@
    ||| n == "pass"@
    ||| n == "elif"@
    ||| n == "else"@
    ||| n == "in"@
    ||| n == "and"@
    ||| n == "or"@
    ||| n == "not"@
}

/// The words that OPY's parser reads as keywords or literals.
pub open spec fn opy_reserved_words() -> Seq<Seq<char>> {
    seq![
        "true"@, "false"@, "None"@, "null"@, "eventPlayer"@, "rule"@, "def"@, "globalvar"@,
        "playervar"@, "subroutine"@, "enum"@, "macro"@, "if"@, "for"@, "while"@, "pass"@,
        "elif"@, "else"@, "in"@, "and"@, "or"@, "not"@,
    ]
}

/// Reserved-name law: a table name counts as reserved exactly when it is one
/// of OPY's keywords and literals.
pub proof fn lemma_reserved_exactly_the_keywords(n: Seq<char>)
    ensures
        is_reserved(n) <==> opy_reserved_words().contains(n),
{
    let w = opy_reserved_words();
    if is_reserved(n) {
        let k: int = if n == "true"@ { 0 } else if n == "false"@ { 1 } else if n == "None"@ { 2 }
            else if n == "null"@ { 3 } else if n == "eventPlayer"@ { 4 } else if n == "rule"@ { 5 }
            else if n == "def"@ { 6 } else if n == "globalvar"@ { 7 } else if n == "playervar"@ { 8 }
            else if n == "subroutine"@ { 9 } else if n == "enum"@ { 10 } else if n == "macro"@ { 11 }
            else if n == "if"@ { 12 } else if n == "for"@ { 13 } else if n == "while"@ { 14 }
            else if n == "pass"@ { 15 } else if n == "elif"@ { 16 } else if n == "else"@ { 17 }
            else if n == "in"@ { 18 } else if n == "and"@ { 19 } else if n == "or"@ { 20 } else { 21 };
        assert(w[k] == n);
    }
    if w.contains(n) {
        let k = choose|k: int| 0 <= k < w.len() && w[k] == n;
        assert(0 <= k < 22);
        assert(is_reserved(w[k]));
    }
}

/// The issue a table name raises: one that is not an OPY identifier, or one
/// that OPY reserves.
pub open spec fn name_issue(kind: Seq<char>, name: Seq<char>) -> Seq<IssueView> {
    if !is_opy_identifier_spec(name) {
        seq![(
            "unsupported-name"@,
            kind + " name '"@ + name + "' is not a valid OPY identifier on the reconstruction surface"@,
            None,
        )]
    } else if is_reserved(name) {
        seq![(
            "unsupported-name"@,
            kind + " name '"@ + name
                + "' collides with an OPY keyword or literal and cannot be referenced on the reconstruction surface"@,
            None,
        )]
    } else {
        Seq::empty()
    }
}

/// Whether an entry before position `p` has the name of the entry at `p`.
pub open spec fn repeats_earlier(t: Seq<TableEntry>, p: int) -> bool {
    exists|q: int| 0 <= q < p && #[trigger] t[q].name@ == t[p].name@
}

/// The issue an entry raises when its name repeats an earlier one.
pub open spec fn duplicate_issue(kind: Seq<char>, t: Seq<TableEntry>, p: int) -> Seq<IssueView> {
    if repeats_earlier(t, p) {
        seq![("unsupported-duplicate-name"@, "duplicate "@ + kind + " name '"@ + t[p].name@ + "'"@, None)]
    } else {
        Seq::empty()
    }
}

/// The slot of the entry at position `p`: the declared one, else its
/// position.
pub open spec fn slot_of(t: Seq<TableEntry>, p: int) -> u32 {
    match t[p].index {
        Some(i) => i,
        None => p as u32,
    }
}

/// The issue a global variable raises when its slot is below the slot of
/// the variable before it.
pub open spec fn global_order_issue(t: Seq<TableEntry>, p: int) -> Seq<IssueView> {
    if p > 0 && slot_of(t, p) < slot_of(t, p - 1) {
        seq![(
            "unsupported-global-order"@,
            "global variables must be in ascending index order (slot "@ + decimal(slot_of(t, p - 1) as nat)
                + " precedes slot "@ + decimal(slot_of(t, p) as nat) + ")"@,
            None,
        )]
    } else {
        Seq::empty()
    }
}

/// The issue a subroutine raises when its slot is not its table position.
pub open spec fn subroutine_index_issue(t: Seq<TableEntry>, p: int) -> Seq<IssueView> {
    if slot_of(t, p) as int != p {
        seq![(
            "unsupported-subroutine-index"@,
            "subroutine '"@ + t[p].name@ + "' has index "@ + decimal(slot_of(t, p) as nat)
                + " but the OPY surface requires table position "@ + decimal(p as nat)
                + " (subroutine declarations cannot carry an index)"@,
            None,
        )]
    } else {
        Seq::empty()
    }
}

/// The issues of the first `n` global variables.
pub open spec fn global_issues(t: Seq<TableEntry>, n: nat) -> Seq<IssueView>
    decreases n,
{
    if n == 0 {
        Seq::empty()
    } else {
        let p = n - 1;
        global_issues(t, p as nat) + name_issue("global variable"@, t[p].name@) + duplicate_issue(
            "global variable"@,
            t,
            p,
        ) + global_order_issue(t, p)
    }
}

/// The issues of the first `n` player variables.
pub open spec fn player_issues(t: Seq<TableEntry>, n: nat) -> Seq<IssueView>
    decreases n,
{
    if n == 0 {
        Seq::empty()
    } else {
        let p = n - 1;
        player_issues(t, p as nat) + name_issue("player variable"@, t[p].name@) + duplicate_issue(
            "player variable"@,
            t,
            p,
        )
    }
}

/// The issues of the first `n` subroutines.
pub open spec fn subroutine_issues(t: Seq<TableEntry>, n: nat) -> Seq<IssueView>
    decreases n,
{
    if n == 0 {
        Seq::empty()
    } else {
        let p = n - 1;
        subroutine_issues(t, p as nat) + name_issue("subroutine"@, t[p].name@) + duplicate_issue(
            "subroutine"@,
            t,
            p,
        ) + subroutine_index_issue(t, p)
    }
}

/// The issue custom game settings raise.
pub open spec fn settings_issue(has_settings: bool) -> Seq<IssueView> {
    if has_settings {
        seq![("unsupported-settings"@, "custom-game-settings are outside the reconstruction surface"@, None)]
    } else {
        Seq::empty()
    }
}

/// Every issue of the declaration tables, in the order they are found.
pub open spec fn table_issues(t: ProgramTables) -> Seq<IssueView> {
    settings_issue(t.has_settings) + global_issues(t.global_variables@, t.global_variables@.len())
        + player_issues(t.player_variables@, t.player_variables@.len()) + subroutine_issues(
        t.subroutines@,
        t.subroutines@.len(),
    )
}

/// Append an issue.
fn push_issue(out: &mut Vec<ReconstructIssue>, code: &str, message: &Vec<char>, span: Option<Span>)
    ensures
        issues_view(final(out)@) == issues_view(old(out)@).push((code@, message@, span)),
{
    let issue = ReconstructIssue { code: code.to_owned(), message: string_of(message), span };
    let ghost before = out@;
    out.push(issue);
    assert(issues_view(out@) =~= issues_view(before).push((code@, message@, span)));
}

/// Whether OPY reserves the name.
pub fn is_reserved_name(name: &str) -> (r: bool)
    ensures
        r == is_reserved(name@),
{
    str_eq(name, "true") || str_eq(name, "false") || str_eq(name, "None") || str_eq(name, "null")
        || str_eq(name, "eventPlayer") || str_eq(name, "rule") || str_eq(name, "def") || str_eq(
        name,
        "globalvar",
    ) || str_eq(name, "playervar") || str_eq(name, "subroutine") || str_eq(name, "enum") || str_eq(
        name,
        "macro",
    ) || str_eq(name, "if") || str_eq(name, "for") || str_eq(name, "while") || str_eq(name, "pass")
        || str_eq(name, "elif") || str_eq(name, "else") || str_eq(name, "in") || str_eq(name, "and")
        || str_eq(name, "or") || str_eq(name, "not")
}

/// Report a table name that OPY cannot declare.
fn check_variable_name(out: &mut Vec<ReconstructIssue>, name: &str, kind: &str)
    ensures
        issues_view(final(out)@) == issues_view(old(out)@) + name_issue(kind@, name@),
{
    let ghost before = issues_view(out@);
    if !is_opy_identifier(name) {
        let mut m: Vec<char> = Vec::new();
        push_str(&mut m, kind);
        push_str(&mut m, " name '");
        push_str(&mut m, name);
        push_str(&mut m, "' is not a valid OPY identifier on the reconstruction surface");
        push_issue(out, "unsupported-name", &m, None);
    } else if is_reserved_name(name) {
        let mut m: Vec<char> = Vec::new();
        push_str(&mut m, kind);
        push_str(&mut m, " name '");
        push_str(&mut m, name);
        push_str(&mut m, "' collides with an OPY keyword or literal and cannot be referenced on the reconstruction surface");
        push_issue(out, "unsupported-name", &m, None);
    }
    assert(issues_view(out@) =~= before + name_issue(kind@, name@));
}

/// Whether an entry before position `p` has the name of the entry at `p`.
fn has_earlier_name(t: &Vec<TableEntry>, p: usize) -> (r: bool)
    requires
        p < t@.len(),
    ensures
        r == repeats_earlier(t@, p as int),
{
    let mut q: usize = 0;
    while q < p
        invariant
            q <= p < t@.len(),
            forall|k: int| 0 <= k < q ==> t@[k].name@ != t@[p as int].name@,
        decreases p - q,
    {
        if str_eq(t[q].name.as_str(), t[p].name.as_str()) {
            return true;
        }
        q = q + 1;
    }
    false
}

/// Report an entry whose name repeats an earlier one.
fn check_duplicate_name(out: &mut Vec<ReconstructIssue>, t: &Vec<TableEntry>, p: usize, kind: &str)
    requires
        p < t@.len(),
    ensures
        issues_view(final(out)@) == issues_view(old(out)@) + duplicate_issue(kind@, t@, p as int),
{
    let ghost before = issues_view(out@);
    if has_earlier_name(t, p) {
        let mut m: Vec<char> = Vec::new();
        push_str(&mut m, "duplicate ");
        push_str(&mut m, kind);
        push_str(&mut m, " name '");
        push_str(&mut m, t[p].name.as_str());
        push_str(&mut m, "'");
        push_issue(out, "unsupported-duplicate-name", &m, None);
    }
    assert(issues_view(out@) =~= before + duplicate_issue(kind@, t@, p as int));
}

/// The slot of the entry at position `p`.
fn slot_at(t: &Vec<TableEntry>, p: usize) -> (r: u32)
    requires
        p < t@.len(),
    ensures
        r == slot_of(t@, p as int),
{
    match t[p].index {
        Some(i) => i,
        None => p as u32,
    }
}

/// Every issue of the declaration tables: settings, then each global
/// variable, player variable and subroutine in table order.
pub fn validate_tables(tables: &ProgramTables) -> (r: Vec<ReconstructIssue>)
    ensures
        issues_view(r@) == table_issues(*tables),
{
    let mut out: Vec<ReconstructIssue> = Vec::new();
    if tables.has_settings {
        let mut m: Vec<char> = Vec::new();
        push_str(&mut m, "custom-game-settings are outside the reconstruction surface");
        push_issue(&mut out, "unsupported-settings", &m, None);
    }
    assert(issues_view(out@) =~= settings_issue(tables.has_settings));
    let globals = &tables.global_variables;
    let mut p: usize = 0;
    while p < globals.len()
        invariant
            p <= globals@.len(),
            issues_view(out@) == settings_issue(tables.has_settings) + global_issues(globals@, p as nat),
        decreases globals@.len() - p,
    {
        let ghost before = issues_view(out@);
        check_variable_name(&mut out, globals[p].name.as_str(), "global variable");
        check_duplicate_name(&mut out, globals, p, "global variable");
        let ghost mid = issues_view(out@);
        if p > 0 {
            let previous = slot_at(globals, p - 1);
            let index = slot_at(globals, p);
            if index < previous {
                let mut m: Vec<char> = Vec::new();
                push_str(&mut m, "global variables must be in ascending index order (slot ");
                let a = decimal_chars(previous as u64);
                crate::strings::push_chars(&mut m, &a);
                push_str(&mut m, " precedes slot ");
                let b = decimal_chars(index as u64);
                crate::strings::push_chars(&mut m, &b);
                push_str(&mut m, ")");
                push_issue(&mut out, "unsupported-global-order", &m, None);
            }
        }
        assert(issues_view(out@) =~= mid + global_order_issue(globals@, p as int));
        p = p + 1;
        assert(issues_view(out@) =~= settings_issue(tables.has_settings) + global_issues(globals@, p as nat));
    }
    let ghost after_globals = issues_view(out@);
    let players = &tables.player_variables;
    let mut p: usize = 0;
    while p < players.len()
        invariant
            p <= players@.len(),
            issues_view(out@) == after_globals + player_issues(players@, p as nat),
        decreases players@.len() - p,
    {
        check_variable_name(&mut out, players[p].name.as_str(), "player variable");
        check_duplicate_name(&mut out, players, p, "player variable");
        p = p + 1;
        assert(issues_view(out@) =~= after_globals + player_issues(players@, p as nat));
    }
    let ghost after_players = issues_view(out@);
    let subs = &tables.subroutines;
    let mut p: usize = 0;
    while p < subs.len()
        invariant
            p <= subs@.len(),
            issues_view(out@) == after_players + subroutine_issues(subs@, p as nat),
        decreases subs@.len() - p,
    {
        check_variable_name(&mut out, subs[p].name.as_str(), "subroutine");
        check_duplicate_name(&mut out, subs, p, "subroutine");
        let ghost mid = issues_view(out@);
        let index = slot_at(subs, p);
        if index as usize != p {
            let mut m: Vec<char> = Vec::new();
            push_str(&mut m, "subroutine '");
            push_str(&mut m, subs[p].name.as_str());
            push_str(&mut m, "' has index ");
            let a = decimal_chars(index as u64);
            crate::strings::push_chars(&mut m, &a);
            push_str(&mut m, " but the OPY surface requires table position ");
            let b = decimal_chars(p as u64);
            crate::strings::push_chars(&mut m, &b);
            push_str(&mut m, " (subroutine declarations cannot carry an index)");
            push_issue(&mut out, "unsupported-subroutine-index", &m, None);
        }
        assert(issues_view(out@) =~= mid + subroutine_index_issue(subs@, p as int));
        p = p + 1;
        assert(issues_view(out@) =~= after_players + subroutine_issues(subs@, p as nat));
    }
    assert(issues_view(out@) =~= table_issues(*tables));
    out
}

/// The rules' layout: the initializer rules' positions, if they lead the
/// program, then the positions of the subroutine bodies and of the ordinary
/// rules, in program order.
pub struct RuleLayout {
    pub global_init: Option<usize>,
    pub player_init: Option<usize>,
    pub sub_rules: Vec<usize>,
    pub normal_rules: Vec<usize>,
}

/// The name of the global or the player initializer rule.
pub open spec fn init_name(global: bool) -> Seq<char> {
    if global {
        "Initialize global variables"@
    } else {
        "Initialize player variables"@
    }
}

/// Whether an action sets a variable of the initializer's kind.
pub open spec fn sets_own_kind(a: ActionKind, global: bool) -> bool {
    if global {
        a == ActionKind::SetGlobalVariable
    } else {
        a == ActionKind::SetPlayerVariable
    }
}

/// The first position from `j` on of an action that does not set a variable
/// of the initializer's kind.
pub open spec fn first_non_set(acts: Seq<ActionKind>, global: bool, j: nat) -> Option<nat>
    decreases acts.len() - j,
{
    if j >= acts.len() {
        None
    } else if !sets_own_kind(acts[j as int], global) {
        Some(j)
    } else {
        first_non_set(acts, global, j + 1)
    }
}

/// The authored span of the `j`-th action of a rule, where it is known.
pub open spec fn action_span(r: RuleShape, j: int) -> Option<Span> {
    if 0 <= j < r.action_spans@.len() {
        r.action_spans@[j]
    } else {
        None
    }
}

/// Whether a rule's event is the one of the initializer's kind.
pub open spec fn init_event(e: RuleEvent, global: bool) -> bool {
    if global {
        e is Global
    } else {
        e is EachPlayer
    }
}

/// Whether a rule named as an initializer is one, and the issue it raises:
/// an enabled rule with the initializer's event is one when it has no
/// condition and only sets variables of its kind; otherwise it is reported.
pub open spec fn init_check(r: RuleShape, global: bool) -> (bool, Seq<IssueView>) {
    if r.disabled || !init_event(r.event, global) {
        (false, Seq::empty())
    } else if r.conditions > 0 {
        (
            false,
            seq![(
                "unsupported-init-rule"@,
                "initializer rule '"@ + init_name(global)
                    + "' carries conditions; the frontend synthesizes it from declarations with none"@,
                r.span,
            )],
        )
    } else {
        match first_non_set(r.actions@, global, 0) {
            Some(j) => (
                false,
                seq![(
                    "unsupported-init-rule"@,
                    "initializer rule '"@ + init_name(global)
                        + "' mixes non-Set actions; the frontend's synthesized initializer rule is all-Set"@,
                    action_span(r, j as int),
                )],
            ),
            None => (true, Seq::empty()),
        }
    }
}

/// The leading initializer rules: the global one's position, the player
/// one's position, the position where the other rules start, and the issues
/// raised on the way. A global initializer may lead, a player initializer
/// may lead or follow it.
pub open spec fn init_layout(rules: Seq<RuleShape>) -> (Option<usize>, Option<usize>, nat, Seq<IssueView>) {
    if rules.len() == 0 {
        (None, None, 0, Seq::empty())
    } else {
        let first = if rules[0].name@ == init_name(true) {
            let c = init_check(rules[0], true);
            if c.0 {
                (Some(0usize), None::<usize>, 1nat, c.1)
            } else {
                (None, None, 0, c.1)
            }
        } else if rules[0].name@ == init_name(false) {
            let c = init_check(rules[0], false);
            if c.0 {
                (None, Some(0usize), 1, c.1)
            } else {
                (None, None, 0, c.1)
            }
        } else {
            (None, None, 0, Seq::empty())
        };
        if first.2 == 1 && rules.len() > 1 && rules[1].name@ == init_name(false) && first.0 is Some {
            let c = init_check(rules[1], false);
            if c.0 {
                (first.0, Some(1usize), 2, first.3 + c.1)
            } else {
                (first.0, first.1, first.2, first.3 + c.1)
            }
        } else {
            first
        }
    }
}

/// Whether every rule in `[start, j)` is a subroutine body.
pub open spec fn bodies_only(rules: Seq<RuleShape>, start: int, j: int) -> bool {
    forall|k: int| start <= k < j ==> (#[trigger] rules[k]).event is Subroutine
}

/// The issues the rule at `j` raises as it is sorted: a subroutine body
/// after an ordinary rule, and a subroutine body with conditions.
pub open spec fn sort_issue(rules: Seq<RuleShape>, start: int, j: int) -> Seq<IssueView> {
    let r = rules[j];
    if r.event is Subroutine {
        (if !bodies_only(rules, start, j) {
            seq![(
                "unsupported-rule-order"@,
                "subroutine-body rule '"@ + r.name@
                    + "' appears after a normal rule; the frontend re-lowering emits subroutine rules first"@,
                r.span,
            )]
        } else {
            Seq::empty()
        }) + (if r.conditions > 0 {
            seq![(
                "unsupported-rule-order"@,
                "subroutine-body rule '"@ + r.name@ + "' carries conditions; `def` bodies cannot express them"@,
                r.span,
            )]
        } else {
            Seq::empty()
        })
    } else {
        Seq::empty()
    }
}

/// The issues of sorting the rules in `[start, end)`.
pub open spec fn sort_issues(rules: Seq<RuleShape>, start: nat, end: nat) -> Seq<IssueView>
    decreases end,
{
    if end <= start {
        Seq::empty()
    } else {
        sort_issues(rules, start, (end - 1) as nat) + sort_issue(rules, start as int, end - 1)
    }
}

/// The positions in `[start, end)` of the subroutine bodies (`bodies`) or of
/// the other rules.
pub open spec fn positions(rules: Seq<RuleShape>, start: nat, end: nat, bodies: bool) -> Seq<usize>
    decreases end,
{
    if end <= start {
        Seq::empty()
    } else {
        positions(rules, start, (end - 1) as nat, bodies) + if (rules[end - 1].event is Subroutine) == bodies {
            seq![(end - 1) as usize]
        } else {
            Seq::empty()
        }
    }
}

/// The name of the subroutine a body belongs to.
pub open spec fn body_of(e: RuleEvent) -> Seq<char> {
    match e {
        RuleEvent::Subroutine(name) => name@,
        _ => Seq::empty(),
    }
}

/// The first table position from `from` on of a subroutine named `name`.
pub open spec fn first_def(defs: Seq<TableEntry>, name: Seq<char>, from: nat) -> Option<nat>
    decreases defs.len() - from,
{
    if from >= defs.len() {
        None
    } else if defs[from as int].name@ == name {
        Some(from)
    } else {
        first_def(defs, name, from + 1)
    }
}

/// The issues of the `k`-th subroutine body: one out of table order, and
/// one not named as the `def` form names it.
pub open spec fn body_issue(rules: Seq<RuleShape>, defs: Seq<TableEntry>, bodies: Seq<usize>, k: int) -> Seq<IssueView> {
    let r = rules[bodies[k] as int];
    let name = body_of(r.event);
    (if first_def(defs, name, 0) != Some(k as nat) {
        seq![(
            "unsupported-rule-order"@,
            "subroutine-body rules must appear in subroutine table order; '"@ + r.name@ + "' is out of order"@,
            r.span,
        )]
    } else {
        Seq::empty()
    }) + (if first_def(defs, name, 0) is Some && r.name@ != "Subroutine "@ + name {
        seq![(
            "unsupported-rule-order"@,
            "subroutine-body rule name '"@ + r.name@ + "' does not match the def form '"@ + ("Subroutine "@
                + name) + "' the frontend synthesizes"@,
            r.span,
        )]
    } else {
        Seq::empty()
    })
}

/// The issues of the first `n` subroutine bodies.
pub open spec fn body_issues(rules: Seq<RuleShape>, defs: Seq<TableEntry>, bodies: Seq<usize>, n: nat) -> Seq<IssueView>
    decreases n,
{
    if n == 0 {
        Seq::empty()
    } else {
        body_issues(rules, defs, bodies, (n - 1) as nat) + body_issue(rules, defs, bodies, n - 1)
    }
}

/// The layout of the rules, as its four parts.
pub type LayoutView = (Option<usize>, Option<usize>, Seq<usize>, Seq<usize>);

pub open spec fn layout_view(l: RuleLayout) -> LayoutView {
    (l.global_init, l.player_init, l.sub_rules@, l.normal_rules@)
}

/// The layout of a program's rules and the issues found in laying them out.
pub open spec fn rule_layout(t: ProgramTables) -> (LayoutView, Seq<IssueView>) {
    let rules = t.rules@;
    let init = init_layout(rules);
    let bodies = positions(rules, init.2, rules.len(), true);
    let others = positions(rules, init.2, rules.len(), false);
    (
        (init.0, init.1, bodies, others),
        init.3 + sort_issues(rules, init.2, rules.len()) + body_issues(rules, t.subroutines@, bodies, bodies.len()),
    )
}

/// The position of the first action from `j` on that does not set a
/// variable of the initializer's kind.
fn find_non_set(acts: &Vec<ActionKind>, global: bool) -> (r: Option<usize>)
    ensures
        match r {
            Some(j) => first_non_set(acts@, global, 0) == Some(j as nat),
            None => first_non_set(acts@, global, 0) is None,
        },
{
    let mut j: usize = 0;
    while j < acts.len()
        invariant
            j <= acts@.len(),
            first_non_set(acts@, global, 0) == first_non_set(acts@, global, j as nat),
        decreases acts@.len() - j,
    {
        let own = if global {
            acts[j] == ActionKind::SetGlobalVariable
        } else {
            acts[j] == ActionKind::SetPlayerVariable
        };
        if !own {
            return Some(j);
        }
        j = j + 1;
    }
    None
}

/// The span of the `j`-th action of a rule.
fn action_span_at(r: &RuleShape, j: usize) -> (s: Option<Span>)
    ensures
        s == action_span(*r, j as int),
{
    if j < r.action_spans.len() {
        r.action_spans[j]
    } else {
        None
    }
}

/// Whether a rule named as an initializer is one; reports it when it has
/// conditions or other actions.
fn canonical_init(out: &mut Vec<ReconstructIssue>, r: &RuleShape, global: bool) -> (ok: bool)
    ensures
        ok == init_check(*r, global).0,
        issues_view(final(out)@) == issues_view(old(out)@) + init_check(*r, global).1,
{
    let ghost before = issues_view(out@);
    let own_event = match &r.event {
        RuleEvent::Global => global,
        RuleEvent::EachPlayer => !global,
        _ => false,
    };
    if r.disabled || !own_event {
        assert(issues_view(out@) =~= before + init_check(*r, global).1);
        return false;
    }
    let name = if global {
        "Initialize global variables"
    } else {
        "Initialize player variables"
    };
    if r.conditions > 0 {
        let mut m: Vec<char> = Vec::new();
        push_str(&mut m, "initializer rule '");
        push_str(&mut m, name);
        push_str(&mut m, "' carries conditions; the frontend synthesizes it from declarations with none");
        push_issue(out, "unsupported-init-rule", &m, r.span);
        assert(issues_view(out@) =~= before + init_check(*r, global).1);
        return false;
    }
    match find_non_set(&r.actions, global) {
        Some(j) => {
            let mut m: Vec<char> = Vec::new();
            push_str(&mut m, "initializer rule '");
            push_str(&mut m, name);
            push_str(
                &mut m,
                "' mixes non-Set actions; the frontend's synthesized initializer rule is all-Set",
            );
            push_issue(out, "unsupported-init-rule", &m, action_span_at(r, j));
            assert(issues_view(out@) =~= before + init_check(*r, global).1);
            false
        },
        None => {
            assert(issues_view(out@) =~= before + init_check(*r, global).1);
            true
        },
    }
}

/// The first table position of a subroutine named `name`.
fn find_def(defs: &Vec<TableEntry>, name: &str) -> (r: Option<usize>)
    ensures
        match r {
            Some(i) => first_def(defs@, name@, 0) == Some(i as nat),
            None => first_def(defs@, name@, 0) is None,
        },
{
    let mut i: usize = 0;
    while i < defs.len()
        invariant
            i <= defs@.len(),
            first_def(defs@, name@, 0) == first_def(defs@, name@, i as nat),
        decreases defs@.len() - i,
    {
        if str_eq(defs[i].name.as_str(), name) {
            return Some(i);
        }
        i = i + 1;
    }
    None
}

/// The leading initializer rules, reporting the rules named as
/// initializers that are not.
fn lay_out_inits(out: &mut Vec<ReconstructIssue>, rules: &Vec<RuleShape>) -> (r: (Option<usize>, Option<usize>, usize))
    ensures
        r.0 == init_layout(rules@).0,
        r.1 == init_layout(rules@).1,
        r.2 as nat == init_layout(rules@).2,
        issues_view(final(out)@) == issues_view(old(out)@) + init_layout(rules@).3,
{
    let ghost before = issues_view(out@);
    if rules.len() == 0 {
        assert(issues_view(out@) =~= before + init_layout(rules@).3);
        return (None, None, 0);
    }
    let mut global_init: Option<usize> = None;
    let mut player_init: Option<usize> = None;
    let mut start: usize = 0;
    if str_eq(rules[0].name.as_str(), "Initialize global variables") {
        if canonical_init(out, &rules[0], true) {
            global_init = Some(0);
            start = 1;
        }
    } else if str_eq(rules[0].name.as_str(), "Initialize player variables") {
        if canonical_init(out, &rules[0], false) {
            player_init = Some(0);
            start = 1;
        }
    }
    let ghost first = (global_init, player_init, start as nat, issues_view(out@).skip(before.len() as int));
    assert(issues_view(out@) =~= before + first.3);
    assert(first == if rules@[0].name@ == init_name(true) {
        let c = init_check(rules@[0], true);
        if c.0 { (Some(0usize), None::<usize>, 1nat, c.1) } else { (None, None, 0, c.1) }
    } else if rules@[0].name@ == init_name(false) {
        let c = init_check(rules@[0], false);
        if c.0 { (None, Some(0usize), 1, c.1) } else { (None, None, 0, c.1) }
    } else {
        (None, None, 0, Seq::empty())
    });
    if start == 1 && rules.len() > 1 && global_init.is_some() {
        if str_eq(rules[1].name.as_str(), "Initialize player variables") {
            if canonical_init(out, &rules[1], false) {
                player_init = Some(1);
                start = 2;
            }
        }
    }
    assert(issues_view(out@) =~= before + init_layout(rules@).3);
    (global_init, player_init, start)
}

/// The positions of the subroutine bodies and of the other rules from
/// `start` on, reporting bodies that follow an ordinary rule or carry
/// conditions.
fn sort_rules(out: &mut Vec<ReconstructIssue>, rules: &Vec<RuleShape>, start: usize) -> (r: (Vec<usize>, Vec<usize>))
    requires
        start <= rules@.len(),
    ensures
        r.0@ == positions(rules@, start as nat, rules@.len(), true),
        r.1@ == positions(rules@, start as nat, rules@.len(), false),
        forall|k: int| 0 <= k < r.0@.len() ==> r.0@[k] < rules@.len() && (#[trigger] rules@[r.0@[k] as int]).event is Subroutine,
        issues_view(final(out)@) == issues_view(old(out)@) + sort_issues(rules@, start as nat, rules@.len()),
{
    let ghost before = issues_view(out@);
    let mut bodies: Vec<usize> = Vec::new();
    let mut others: Vec<usize> = Vec::new();
    let mut in_bodies = true;
    let mut j: usize = start;
    assert(issues_view(out@) =~= before + sort_issues(rules@, start as nat, j as nat));
    while j < rules.len()
        invariant
            start <= j <= rules@.len(),
            in_bodies == bodies_only(rules@, start as int, j as int),
            bodies@ == positions(rules@, start as nat, j as nat, true),
            others@ == positions(rules@, start as nat, j as nat, false),
            forall|k: int| 0 <= k < bodies@.len() ==> bodies@[k] < j && (#[trigger] rules@[bodies@[k] as int]).event is Subroutine,
            issues_view(out@) == before + sort_issues(rules@, start as nat, j as nat),
        decreases rules@.len() - j,
    {
        let ghost mid = issues_view(out@);
        let r = &rules[j];
        let is_body = match &r.event {
            RuleEvent::Subroutine(_) => true,
            _ => false,
        };
        if is_body {
            if !in_bodies {
                let mut m: Vec<char> = Vec::new();
                push_str(&mut m, "subroutine-body rule '");
                push_str(&mut m, r.name.as_str());
                push_str(
                    &mut m,
                    "' appears after a normal rule; the frontend re-lowering emits subroutine rules first",
                );
                push_issue(out, "unsupported-rule-order", &m, r.span);
            }
            if r.conditions > 0 {
                let mut m: Vec<char> = Vec::new();
                push_str(&mut m, "subroutine-body rule '");
                push_str(&mut m, r.name.as_str());
                push_str(&mut m, "' carries conditions; `def` bodies cannot express them");
                push_issue(out, "unsupported-rule-order", &m, r.span);
            }
            bodies.push(j);
        } else {
            in_bodies = false;
            others.push(j);
        }
        assert(issues_view(out@) =~= mid + sort_issue(rules@, start as int, j as int));
        j = j + 1;
        assert(bodies@ =~= positions(rules@, start as nat, j as nat, true));
        assert(others@ =~= positions(rules@, start as nat, j as nat, false));
        assert(issues_view(out@) =~= before + sort_issues(rules@, start as nat, j as nat));
    }
    (bodies, others)
}

/// Report subroutine bodies out of table order or not named as their
/// `def` form names them.
fn check_bodies(out: &mut Vec<ReconstructIssue>, rules: &Vec<RuleShape>, defs: &Vec<TableEntry>, bodies: &Vec<usize>)
    requires
        forall|k: int| 0 <= k < bodies@.len() ==> bodies@[k] < rules@.len() && (#[trigger] rules@[bodies@[k] as int]).event is Subroutine,
    ensures
        issues_view(final(out)@) == issues_view(old(out)@) + body_issues(rules@, defs@, bodies@, bodies@.len()),
{
    let ghost before = issues_view(out@);
    let mut k: usize = 0;
    while k < bodies.len()
        invariant
            k <= bodies@.len(),
            forall|i: int| 0 <= i < bodies@.len() ==> bodies@[i] < rules@.len() && (#[trigger] rules@[bodies@[i] as int]).event is Subroutine,
            issues_view(out@) == before + body_issues(rules@, defs@, bodies@, k as nat),
        decreases bodies@.len() - k,
    {
        let ghost mid = issues_view(out@);
        let r = &rules[bodies[k]];
        assert(rules@[bodies@[k as int] as int].event is Subroutine);
        match &r.event {
            RuleEvent::Subroutine(name) => {
                let found = find_def(defs, name.as_str());
                let in_order = match found {
                    Some(i) => i == k,
                    None => false,
                };
                if !in_order {
                    let mut m: Vec<char> = Vec::new();
                    push_str(&mut m, "subroutine-body rules must appear in subroutine table order; '");
                    push_str(&mut m, r.name.as_str());
                    push_str(&mut m, "' is out of order");
                    push_issue(out, "unsupported-rule-order", &m, r.span);
                }
                if found.is_some() {
                    let mut expected: Vec<char> = Vec::new();
                    push_str(&mut expected, "Subroutine ");
                    push_str(&mut expected, name.as_str());
                    let actual = crate::strings::chars_of(r.name.as_str());
                    if !crate::strings::chars_eq(&actual, &expected) {
                        let mut m: Vec<char> = Vec::new();
                        push_str(&mut m, "subroutine-body rule name '");
                        push_str(&mut m, r.name.as_str());
                        push_str(&mut m, "' does not match the def form '");
                        crate::strings::push_chars(&mut m, &expected);
                        push_str(&mut m, "' the frontend synthesizes");
                        push_issue(out, "unsupported-rule-order", &m, r.span);
                    }
                }
                assert(issues_view(out@) =~= mid + body_issue(rules@, defs@, bodies@, k as int));
            },
            _ => {},
        }
        k = k + 1;
        assert(issues_view(out@) =~= before + body_issues(rules@, defs@, bodies@, k as nat));
    }
}

/// The layout of the rules: the leading initializer rules, the subroutine
/// bodies and the ordinary rules, with every issue found on the way.
pub fn classify_rules(tables: &ProgramTables) -> (r: (RuleLayout, Vec<ReconstructIssue>))
    ensures
        layout_view(r.0) == rule_layout(*tables).0,
        issues_view(r.1@) == rule_layout(*tables).1,
{
    let mut out: Vec<ReconstructIssue> = Vec::new();
    let rules = &tables.rules;
    let (global_init, player_init, start) = lay_out_inits(&mut out, rules);
    let ghost after_inits = issues_view(out@);
    assert(after_inits =~= init_layout(rules@).3);
    let (bodies, others) = sort_rules(&mut out, rules, start);
    let ghost after_sort = issues_view(out@);
    check_bodies(&mut out, rules, &tables.subroutines, &bodies);
    assert(issues_view(out@) =~= rule_layout(*tables).1);
    (RuleLayout { global_init, player_init, sub_rules: bodies, normal_rules: others }, out)
}

/// What the checks decide for a program: the layout of its rules, or every
/// issue of its tables, or, when the tables have none, every issue of its
/// rules.
pub open spec fn layout_result(t: ProgramTables) -> Result<LayoutView, Seq<IssueView>> {
    if table_issues(t).len() > 0 {
        Err(table_issues(t))
    } else if rule_layout(t).1.len() > 0 {
        Err(rule_layout(t).1)
    } else {
        Ok(rule_layout(t).0)
    }
}

/// The layout of a program that OPY can express; otherwise every issue
/// found, the tables' issues first and alone when there are any.
pub fn reconstruction_layout(tables: &ProgramTables) -> (r: Result<RuleLayout, ReconstructError>)
    ensures
        match r {
            Ok(l) => layout_result(*tables) == Ok::<LayoutView, Seq<IssueView>>(layout_view(l)),
            Err(e) => layout_result(*tables) == Err::<LayoutView, Seq<IssueView>>(issues_view(e.issues@)),
        },
{
    let issues = validate_tables(tables);
    if issues.len() > 0 {
        return Err(ReconstructError { issues });
    }
    let (layout, issues) = classify_rules(tables);
    if issues.len() > 0 {
        return Err(ReconstructError { issues });
    }
    Ok(layout)
}

/// One issue as a line of text: code, message, and where it starts.
pub open spec fn issue_line(i: IssueView) -> Seq<char> {
    i.0 + ": "@ + i.1 + match i.2 {
        Some(s) => " at "@ + decimal(s.start.line as nat) + ":"@ + decimal(s.start.col as nat),
        None => Seq::empty(),
    }
}

/// The issues as lines of text.
pub open spec fn issues_text(s: Seq<IssueView>) -> Seq<char>
    decreases s.len(),
{
    if s.len() == 0 {
        Seq::empty()
    } else if s.len() == 1 {
        issue_line(s[0])
    } else {
        issues_text(s.drop_last()) + "\n"@ + issue_line(s.last())
    }
}

impl ReconstructError {
    /// Every issue on a line of its own.
    pub fn to_string(&self) -> (r: String)
        ensures
            r@ == issues_text(issues_view(self.issues@)),
    {
        let mut v: Vec<char> = Vec::new();
        let mut i: usize = 0;
        while i < self.issues.len()
            invariant
                i <= self.issues@.len(),
                v@ == issues_text(issues_view(self.issues@).take(i as int)),
            decreases self.issues@.len() - i,
        {
            let issue = &self.issues[i];
            let ghost prev = v@;
            if i > 0 {
                push_str(&mut v, "\n");
            }
            push_str(&mut v, issue.code.as_str());
            push_str(&mut v, ": ");
            push_str(&mut v, issue.message.as_str());
            match issue.span {
                Some(span) => {
                    push_str(&mut v, " at ");
                    let a = decimal_chars(span.start.line as u64);
                    crate::strings::push_chars(&mut v, &a);
                    push_str(&mut v, ":");
                    let b = decimal_chars(span.start.col as u64);
                    crate::strings::push_chars(&mut v, &b);
                },
                None => {},
            }
            let ghost all = issues_view(self.issues@);
            assert(all.take(i + 1).drop_last() =~= all.take(i as int));
            assert(all.take(i + 1).last() == issue_view(self.issues@[i as int]));
            if i == 0 {
                assert(v@ =~= issue_line(issue_view(self.issues@[0])));
            } else {
                assert(v@ =~= prev + "\n"@ + issue_line(issue_view(self.issues@[i as int])));
            }
            i = i + 1;
        }
        assert(issues_view(self.issues@).take(i as int) =~= issues_view(self.issues@));
        string_of(&v)
    }
}

/// Whether a character is a control code (general category `Cc`), as
/// `char::is_control` documents it: U+0000 to U+001F and U+007F to U+009F.
pub open spec fn is_control_char(c: char) -> bool {
    (c as u32) <= 0x1F || (0x7F <= (c as u32) && (c as u32) <= 0x9F)
}

/// The upper-case hexadecimal digit `d`.
pub open spec fn hex_digit(d: nat) -> char {
    if d < 10 {
        (48 + d) as char
    } else {
        (55 + d) as char
    }
}

/// The four upper-case hexadecimal digits of `n`.
pub open spec fn hex4(n: nat) -> Seq<char> {
    seq![hex_digit((n / 4096) % 16), hex_digit((n / 256) % 16), hex_digit((n / 16) % 16), hex_digit(n % 16)]
}

/// A character as it is written inside an OPY string literal.
pub open spec fn escaped_char(c: char) -> Seq<char> {
    if c == '\\' {
        "\\\\"@
    } else if c == '"' {
        "\\\""@
    } else if c == '\n' {
        "\\n"@
    } else if c == '\t' {
        "\\t"@
    } else if c == '\r' {
        "\\r"@
    } else if is_control_char(c) {
        "\\u"@ + hex4((c as u32) as nat)
    } else {
        seq![c]
    }
}

/// The characters of a string as they are written inside an OPY string
/// literal.
pub open spec fn escaped_text(s: Seq<char>) -> Seq<char>
    decreases s.len(),
{
    if s.len() == 0 {
        Seq::empty()
    } else {
        escaped_text(s.drop_last()) + escaped_char(s.last())
    }
}

fn hex_digit_char(d: u32) -> (c: char)
    requires
        d < 16,
    ensures
        c == hex_digit(d as nat),
{
    if d == 0 { '0' }
    else if d == 1 { '1' }
    else if d == 2 { '2' }
    else if d == 3 { '3' }
    else if d == 4 { '4' }
    else if d == 5 { '5' }
    else if d == 6 { '6' }
    else if d == 7 { '7' }
    else if d == 8 { '8' }
    else if d == 9 { '9' }
    else if d == 10 { 'A' }
    else if d == 11 { 'B' }
    else if d == 12 { 'C' }
    else if d == 13 { 'D' }
    else if d == 14 { 'E' }
    else { 'F' }
}

/// An OPY string literal that reads back as `value`: quotes, backslashes
/// and line breaks, tabs and carriage returns are escaped by a backslash,
/// other control characters by `\u` and four hexadecimal digits.
pub fn opy_string_literal(value: &str) -> (r: String)
    ensures
        r@ == "\""@ + escaped_text(value@) + "\""@,
{
    let chars = crate::strings::chars_of(value);
    let mut out: Vec<char> = Vec::new();
    out.push('"');
    let mut i: usize = 0;
    while i < chars.len()
        invariant
            i <= chars@.len(),
            chars@ == value@,
            out@ == seq!['"'] + escaped_text(chars@.take(i as int)),
        decreases chars@.len() - i,
    {
        let c = chars[i];
        let ghost prev = out@;
        if c == '\\' {
            push_str(&mut out, "\\\\");
        } else if c == '"' {
            push_str(&mut out, "\\\"");
        } else if c == '\n' {
            push_str(&mut out, "\\n");
        } else if c == '\t' {
            push_str(&mut out, "\\t");
        } else if c == '\r' {
            push_str(&mut out, "\\r");
        } else if (c as u32) <= 0x1F || (0x7F <= (c as u32) && (c as u32) <= 0x9F) {
            let n = c as u32;
            push_str(&mut out, "\\u");
            out.push(hex_digit_char((n / 4096) % 16));
            out.push(hex_digit_char((n / 256) % 16));
            out.push(hex_digit_char((n / 16) % 16));
            out.push(hex_digit_char(n % 16));
        } else {
            out.push(c);
        }
        assert(out@ =~= prev + escaped_char(c));
        assert(chars@.take(i + 1).drop_last() =~= chars@.take(i as int));
        i = i + 1;
    }
    out.push('"');
    assert(chars@.take(i as int) =~= value@);
    assert(out@ =~= "\""@ + escaped_text(value@) + "\""@) by {
        reveal_strlit("\"");
    }
    string_of(&out)
}

/// An event as plain values.
pub enum EventView {
    Global,
    EachPlayer,
    Subroutine(Seq<char>),
    Other,
}

pub open spec fn event_view(e: RuleEvent) -> EventView {
    match e {
        RuleEvent::Global => EventView::Global,
        RuleEvent::EachPlayer => EventView::EachPlayer,
        RuleEvent::Subroutine(n) => EventView::Subroutine(n@),
        RuleEvent::Other => EventView::Other,
    }
}

/// What is read of a rule, as plain values.
pub type HeadView = (Seq<char>, bool, EventView, nat, Seq<ActionKind>);

pub open spec fn head_view(h: RuleHead) -> HeadView {
    (h.0@, h.1, event_view(h.2), h.3 as nat, h.4@)
}

/// A table as plain values: each entry's name and declared index.
pub open spec fn entry_views(t: Seq<TableEntry>) -> Seq<(Seq<char>, Option<u32>)> {
    t.map_values(|e: TableEntry| (e.name@, e.index))
}

/// Whether a Workshop program has custom game settings, and its global
/// variable, player variable and subroutine tables, each entry as its name
/// and declared index, in the order of its public fields.
pub uninterp spec fn workshop_tables(program: Program) -> (
    bool,
    Seq<(Seq<char>, Option<u32>)>,
    Seq<(Seq<char>, Option<u32>)>,
    Seq<(Seq<char>, Option<u32>)>,
);

/// The rules of a Workshop program in order, each as its name, whether it
/// is disabled, its event (a subroutine body by the subroutine's name; an
/// event with filters or a player event as another), its number of
/// conditions and the kinds of its actions (setting a global or a player
/// variable, or another).
pub uninterp spec fn workshop_rule_heads(program: Program) -> Seq<HeadView>;

/// `Program::rule_span` of every rule of a Workshop program, as plain spans
/// whose file is the index of the span's `FileId`.
pub uninterp spec fn workshop_rule_spans(program: Program) -> Seq<Option<Span>>;

/// `Program::action_span` of every action of every rule of a Workshop
/// program, as plain spans whose file is the index of the span's `FileId`.
pub uninterp spec fn workshop_action_spans(program: Program) -> Seq<Seq<Option<Span>>>;

/// Reads whether a Workshop program has custom game settings, and its
/// tables, from its public fields; the contract says that the result is
/// `workshop_tables` of the program.
#[verifier::external_body]
fn program_table_entries(program: &Program) -> (r: (bool, Vec<TableEntry>, Vec<TableEntry>, Vec<TableEntry>))
    ensures
        (r.0, entry_views(r.1@), entry_views(r.2@), entry_views(r.3@)) == workshop_tables(*program),
{
    (
        program.settings.is_some(),
        program.global_variables.iter().map(|v| TableEntry { name: v.name.clone(), index: v.index }).collect(),
        program.player_variables.iter().map(|v| TableEntry { name: v.name.clone(), index: v.index }).collect(),
        program.subroutines.iter().map(|s| TableEntry { name: s.name.clone(), index: s.index }).collect(),
    )
}

/// Reads the rules of a Workshop program from its public fields; the
/// contract says that the result is `workshop_rule_heads` of the program.
#[verifier::external_body]
fn program_rule_heads(program: &Program) -> (r: Vec<RuleHead>)
    ensures
        r@.map_values(|h: RuleHead| head_view(h)) == workshop_rule_heads(*program),
{
    program.rules.iter().map(|rule| (rule.name.clone(), rule.disabled, match &rule.event {
        WorkshopEvent::Global => RuleEvent::Global,
        WorkshopEvent::EachPlayer => RuleEvent::EachPlayer,
        WorkshopEvent::Subroutine(name) => RuleEvent::Subroutine(name.clone()),
        WorkshopEvent::EachPlayerWithFilters { .. } => RuleEvent::Other,
        WorkshopEvent::Player { .. } => RuleEvent::Other,
    }, rule.conditions.len(), rule.actions.iter().map(|action| match action {
        WorkshopAction::SetGlobalVariable { .. } => ActionKind::SetGlobalVariable,
        WorkshopAction::SetPlayerVariable { .. } => ActionKind::SetPlayerVariable,
        _ => ActionKind::Other,
    }).collect())).collect()
}

/// `Program::rule_span` of every rule; the contract says that the result
/// is `workshop_rule_spans` of the program.
#[verifier::external_body]
fn program_rule_spans(program: &Program) -> (r: Vec<Option<Span>>)
    ensures
        r@ == workshop_rule_spans(*program),
{
    (0..program.rules.len()).map(|i| program.rule_span(i).map(|s| Span {
        file: s.file.index() as u32,
        start: Position { line: s.start.line, col: s.start.col },
        end: Position { line: s.end.line, col: s.end.col },
    })).collect()
}

/// `Program::action_span` of every action of every rule; the contract says
/// that the result is `workshop_action_spans` of the program.
#[verifier::external_body]
fn program_action_spans(program: &Program) -> (r: Vec<Vec<Option<Span>>>)
    ensures
        r@.map_values(|v: Vec<Option<Span>>| v@) == workshop_action_spans(*program),
{
    program.rules.iter().enumerate().map(|(i, rule)| (0..rule.actions.len()).map(|j| program.action_span(i, j).map(|s| Span {
        file: s.file.index() as u32,
        start: Position { line: s.start.line, col: s.start.col },
        end: Position { line: s.end.line, col: s.end.col },
    })).collect()).collect()
}

/// Whether the tables are what was read of the program: the same settings
/// flag, tables and rules, each rule with the spans listed at its position
/// (none where none are listed).
pub open spec fn tables_read(t: ProgramTables, program: Program) -> bool {
    let w = workshop_tables(program);
    let heads = workshop_rule_heads(program);
    let spans = workshop_rule_spans(program);
    let aspans = workshop_action_spans(program);
    &&& t.has_settings == w.0
    &&& entry_views(t.global_variables@) == w.1
    &&& entry_views(t.player_variables@) == w.2
    &&& entry_views(t.subroutines@) == w.3
    &&& t.rules@.len() == heads.len()
    &&& forall|i: int|
        0 <= i < heads.len() ==> {
            let r = #[trigger] t.rules@[i];
            &&& (r.name@, r.disabled, event_view(r.event), r.conditions as nat, r.actions@) == heads[i]
            &&& r.span == (if i < spans.len() { spans[i] } else { None })
            &&& r.action_spans@ == (if i < aspans.len() { aspans[i] } else { Seq::empty() })
        }
}

/// What was read of a rule: its name, whether it is disabled, its event,
/// its number of conditions and the kinds of its actions.
pub type RuleHead = (String, bool, RuleEvent, usize, Vec<ActionKind>);

/// The rule at position `i` is the one read there, with the `i`-th listed
/// spans; a rule whose spans are not listed has none.
pub open spec fn rule_from_parts(
    r: RuleShape,
    head: RuleHead,
    spans: Seq<Option<Span>>,
    action_spans: Seq<Vec<Option<Span>>>,
    i: int,
) -> bool {
    &&& r.name == head.0
    &&& r.disabled == head.1
    &&& r.event == head.2
    &&& r.conditions == head.3
    &&& r.actions@ == head.4@
    &&& r.span == (if i < spans.len() { spans[i] } else { None })
    &&& r.action_spans@ == (if i < action_spans.len() { action_spans[i]@ } else { Seq::empty() })
}

/// The tables and rules read of a program, put together: one rule per head,
/// each with the spans listed at its position.
fn tables_from_parts(
    has_settings: bool,
    global_variables: Vec<TableEntry>,
    player_variables: Vec<TableEntry>,
    subroutines: Vec<TableEntry>,
    heads: &Vec<RuleHead>,
    spans: &Vec<Option<Span>>,
    action_spans: &Vec<Vec<Option<Span>>>,
) -> (t: ProgramTables)
    ensures
        t.has_settings == has_settings,
        t.global_variables == global_variables,
        t.player_variables == player_variables,
        t.subroutines == subroutines,
        t.rules@.len() == heads@.len(),
        forall|i: int|
            0 <= i < heads@.len() ==> rule_from_parts(#[trigger] t.rules@[i], heads@[i], spans@, action_spans@, i),
{
    let mut rules: Vec<RuleShape> = Vec::new();
    let mut i: usize = 0;
    while i < heads.len()
        invariant
            i <= heads@.len(),
            rules@.len() == i,
            forall|k: int| 0 <= k < i ==> rule_from_parts(#[trigger] rules@[k], heads@[k], spans@, action_spans@, k),
        decreases heads@.len() - i,
    {
        let head = &heads[i];
        let event = match &head.2 {
            RuleEvent::Global => RuleEvent::Global,
            RuleEvent::EachPlayer => RuleEvent::EachPlayer,
            RuleEvent::Subroutine(name) => RuleEvent::Subroutine(name.clone()),
            RuleEvent::Other => RuleEvent::Other,
        };
        let mut actions: Vec<ActionKind> = Vec::new();
        let mut j: usize = 0;
        while j < head.4.len()
            invariant
                j <= head.4@.len(),
                actions@ == head.4@.take(j as int),
            decreases head.4@.len() - j,
        {
            actions.push(head.4[j]);
            j = j + 1;
            assert(actions@ =~= head.4@.take(j as int));
        }
        assert(head.4@.take(j as int) =~= head.4@);
        let span = if i < spans.len() {
            spans[i]
        } else {
            None
        };
        let mut these: Vec<Option<Span>> = Vec::new();
        if i < action_spans.len() {
            let mut j: usize = 0;
            while j < action_spans[i].len()
                invariant
                    i < action_spans@.len(),
                    j <= action_spans@[i as int]@.len(),
                    these@ == action_spans@[i as int]@.take(j as int),
                decreases action_spans@[i as int]@.len() - j,
            {
                these.push(action_spans[i][j]);
                j = j + 1;
                assert(these@ =~= action_spans@[i as int]@.take(j as int));
            }
            assert(action_spans@[i as int]@.take(j as int) =~= action_spans@[i as int]@);
        } else {
            assert(these@ =~= Seq::<Option<Span>>::empty());
        }
        let ghost before = rules@;
        rules.push(RuleShape {
            name: head.0.clone(),
            disabled: head.1,
            event,
            conditions: head.3,
            actions,
            span,
            action_spans: these,
        });
        assert(rules@[i as int] == before.push(rules@[i as int])[i as int]);
        assert(forall|k: int| 0 <= k < i ==> rules@[k] == before[k]);
        i = i + 1;
    }
    ProgramTables { has_settings, global_variables, player_variables, subroutines, rules }
}

/// What the checks read of a Workshop program. A rule whose spans are not
/// listed has none.
fn program_tables(program: &Program) -> (t: ProgramTables)
    ensures
        tables_read(t, *program),
{
    let (has_settings, global_variables, player_variables, subroutines) = program_table_entries(program);
    let heads = program_rule_heads(program);
    let spans = program_rule_spans(program);
    let action_spans = program_action_spans(program);
    let t = tables_from_parts(has_settings, global_variables, player_variables, subroutines, &heads, &spans, &action_spans);
    proof {
        assert forall|i: int| 0 <= i < heads@.len() implies head_view(heads@[i]) == workshop_rule_heads(*program)[i] by {
            assert(heads@.map_values(|h: RuleHead| head_view(h))[i] == head_view(heads@[i]));
        }
        assert forall|i: int| 0 <= i < action_spans@.len() implies action_spans@[i]@ == workshop_action_spans(*program)[i] by {
            assert(action_spans@.map_values(|v: Vec<Option<Span>>| v@)[i] == action_spans@[i]@);
        }
    }
    t
}

/// The layout of a Workshop program's rules when OPY can express the
/// program, else every issue found: whatever the program holds, the
/// outcome is the one the checks decide for what was read of it.
pub fn reconstruction_layout_of(program: &Program) -> (r: Result<RuleLayout, ReconstructError>)
    ensures
        exists|t: ProgramTables|
            tables_read(t, *program) && match r {
                Ok(l) => #[trigger] layout_result(t) == Ok::<LayoutView, Seq<IssueView>>(layout_view(l)),
                Err(e) => #[trigger] layout_result(t) == Err::<LayoutView, Seq<IssueView>>(issues_view(e.issues@)),
            },
{
    let tables = program_tables(program);
    reconstruction_layout(&tables)
}

/// In how many parts of a layout the rule at position `i` is placed.
pub open spec fn places(l: LayoutView, i: int) -> int {
    (if l.0 == Some(i as usize) { 1int } else { 0 }) + (if l.1 == Some(i as usize) { 1int } else { 0 }) + (if l.2.contains(
        i as usize,
    ) {
        1int
    } else {
        0
    }) + (if l.3.contains(i as usize) { 1int } else { 0 })
}

/// The positions of one kind lie in `[start, end)`, rise strictly, and hold
/// every position of that kind.
proof fn lemma_positions(rules: Seq<RuleShape>, start: nat, end: nat, bodies: bool)
    requires
        end <= rules.len() <= usize::MAX,
    ensures
        forall|k: int|
            0 <= k < positions(rules, start, end, bodies).len() ==> {
                let x = #[trigger] positions(rules, start, end, bodies)[k];
                start <= x < end && ((rules[x as int].event is Subroutine) == bodies)
            },
        forall|k1: int, k2: int|
            0 <= k1 < k2 < positions(rules, start, end, bodies).len() ==> #[trigger] positions(
                rules,
                start,
                end,
                bodies,
            )[k1] < #[trigger] positions(rules, start, end, bodies)[k2],
        forall|x: int|
            start <= x < end && ((rules[x].event is Subroutine) == bodies) ==> #[trigger] positions(
                rules,
                start,
                end,
                bodies,
            ).contains(x as usize),
    decreases end,
{
    if end > start {
        let e = (end - 1) as nat;
        lemma_positions(rules, start, e, bodies);
        let prev = positions(rules, start, e, bodies);
        let cur = positions(rules, start, end, bodies);
        if (rules[e as int].event is Subroutine) == bodies {
            assert(cur == prev + seq![e as usize]);
            assert forall|x: int| start <= x < end && ((rules[x].event is Subroutine) == bodies) implies cur.contains(
                x as usize,
            ) by {
                if x < e {
                    assert(prev.contains(x as usize));
                    let k = choose|k: int| 0 <= k < prev.len() && prev[k] == x as usize;
                    assert(cur[k] == x as usize);
                } else {
                    assert(cur[prev.len() as int] == x as usize);
                }
            }
        } else {
            assert(cur == prev);
            assert forall|x: int| start <= x < end && ((rules[x].event is Subroutine) == bodies) implies cur.contains(
                x as usize,
            ) by {
                assert(prev.contains(x as usize));
            }
        }
    }
}

/// Every rule of a program has exactly one place in its layout: as the
/// global initializer, the player initializer, a subroutine body or an
/// ordinary rule. The initializers lead; the subroutine bodies and the
/// ordinary rules each keep program order, and a rule is a subroutine body
/// exactly when its event is a subroutine's.
pub proof fn lemma_layout_places_each_rule_once(t: ProgramTables)
    requires
        t.rules@.len() <= usize::MAX,
    ensures
        ({
            let (g, p, bodies, others) = rule_layout(t).0;
            let n = t.rules@.len();
            &&& forall|i: int| 0 <= i < n ==> #[trigger] places(rule_layout(t).0, i) == 1
            &&& forall|x: usize| #[trigger] bodies.contains(x) ==> x < n && t.rules@[x as int].event is Subroutine
            &&& forall|x: usize| #[trigger] others.contains(x) ==> x < n && !(t.rules@[x as int].event is Subroutine)
            &&& g matches Some(i) ==> i == 0
            &&& p matches Some(i) ==> forall|x: usize| #[trigger] bodies.contains(x) || #[trigger] others.contains(x) ==> i < x
            &&& forall|k1: int, k2: int| 0 <= k1 < k2 < bodies.len() ==> #[trigger] bodies[k1] < #[trigger] bodies[k2]
            &&& forall|k1: int, k2: int| 0 <= k1 < k2 < others.len() ==> #[trigger] others[k1] < #[trigger] others[k2]
        }),
{
    let rules = t.rules@;
    let init = init_layout(rules);
    lemma_positions(rules, init.2, rules.len(), true);
    lemma_positions(rules, init.2, rules.len(), false);
    let bodies = positions(rules, init.2, rules.len(), true);
    let others = positions(rules, init.2, rules.len(), false);
    assert(init.2 <= rules.len());
    assert(init.2 == 0 ==> init.0 is None && init.1 is None);
    assert(init.2 == 1 ==> (init.0 == Some(0usize) && init.1 is None) || (init.0 is None && init.1 == Some(0usize)));
    assert(init.2 == 2 ==> init.0 == Some(0usize) && init.1 == Some(1usize));
    assert forall|x: usize| #[trigger] bodies.contains(x) implies x < rules.len() && rules[x as int].event is Subroutine
        && init.2 <= x by {
        let k = choose|k: int| 0 <= k < bodies.len() && bodies[k] == x;
        assert(bodies[k] == x);
    }
    assert forall|x: usize| #[trigger] others.contains(x) implies x < rules.len() && !(rules[x as int].event is Subroutine)
        && init.2 <= x by {
        let k = choose|k: int| 0 <= k < others.len() && others[k] == x;
        assert(others[k] == x);
    }
    assert forall|i: int| 0 <= i < rules.len() implies #[trigger] places(rule_layout(t).0, i) == 1 by {
        if i < init.2 {
            assert(!bodies.contains(i as usize));
            assert(!others.contains(i as usize));
        } else {
            if rules[i].event is Subroutine {
                assert(bodies.contains(i as usize));
                assert(!others.contains(i as usize));
            } else {
                assert(others.contains(i as usize));
                assert(!bodies.contains(i as usize));
            }
        }
    }
}

} // verus!
