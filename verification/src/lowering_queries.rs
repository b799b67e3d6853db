//! Decisions the lowering takes from the program before it builds Workshop
//! rules: which global slot a helper variable takes, which translation
//! options are on, and how a rule condition splits into conditions.
use vstd::prelude::*;
use crate::diagnostics::IntegrationError;
use crate::directives::has_directive;
use crate::hir::{Directive, Expr, OptimizationState, Position, ResolvedProgram, Rule, RuleAnnotation, Span};
use crate::rule_names::{char_is_whitespace, is_white_space, skip_white_space, skip_ws};
use crate::strings::{chars_eq, chars_of, str_eq};

verus! {

/// The highest index below `n` that is not reserved.
pub open spec fn free_below(reserved: Seq<u32>, n: nat) -> Option<u32>
    decreases n,
{
    if n == 0 {
        None
    } else if !reserved.contains((n - 1) as u32) {
        Some((n - 1) as u32)
    } else {
        free_below(reserved, (n - 1) as nat)
    }
}

/// The highest of the global slots 0 to 127 that is not reserved.
pub open spec fn highest_free(reserved: Seq<u32>) -> Option<u32> {
    free_below(reserved, 128)
}

/// The span of the first directive with this name, where it has one.
pub open spec fn first_directive_span(ds: Seq<Directive>, name: Seq<char>) -> Option<Span>
    decreases ds.len(),
{
    if ds.len() == 0 {
        None
    } else if ds[0].name@ == name {
        ds[0].span
    } else {
        first_directive_span(ds.subrange(1, ds.len() as int), name)
    }
}

/// The highest of the global slots 0 to 127 that is not reserved.
pub fn highest_free_index(reserved: &Vec<u32>) -> (r: Option<u32>)
    ensures
        r == highest_free(reserved@),
{
    let mut n: u32 = 128;
    while n > 0
        invariant
            n <= 128,
            highest_free(reserved@) == free_below(reserved@, n as nat),
        decreases n,
    {
        let candidate = n - 1;
        let mut taken = false;
        let mut i: usize = 0;
        while i < reserved.len()
            invariant
                i <= reserved@.len(),
                taken == exists|k: int| 0 <= k < i && reserved@[k] == candidate,
            decreases reserved@.len() - i,
        {
            if reserved[i] == candidate {
                taken = true;
            }
            i = i + 1;
        }
        if !taken {
            return Some(candidate);
        }
        n = n - 1;
    }
    None
}

/// The span of the first directive with this name, where it has one.
fn directive_span(hir: &ResolvedProgram, name: &str) -> (r: Option<Span>)
    ensures
        r == first_directive_span(hir.preprocessing.directives@, name@),
{
    let ds = &hir.preprocessing.directives;
    let mut i: usize = 0;
    assert(ds@.subrange(0, ds@.len() as int) =~= ds@);
    while i < ds.len()
        invariant
            i <= ds@.len(),
            ds@ == hir.preprocessing.directives@,
            first_directive_span(ds@, name@) == first_directive_span(
                ds@.subrange(i as int, ds@.len() as int),
                name@,
            ),
        decreases ds@.len() - i,
    {
        let ghost rest = ds@.subrange(i as int, ds@.len() as int);
        assert(rest.subrange(1, rest.len() as int) =~= ds@.subrange(i + 1, ds@.len() as int));
        assert(rest[0] == ds@[i as int]);
        if str_eq(ds[i].name.as_str(), name) {
            return ds[i].span;
        }
        i = i + 1;
    }
    None
}

/// The global slot of a helper variable that a directive asks for: none
/// where the program has no such directive, else the highest slot that is
/// not reserved, or an `index-exhausted` error at the directive where every
/// slot is.
pub fn helper_global_index(hir: &ResolvedProgram, reserved: &Vec<u32>, directive: &str, message: &str) -> (r:
    Result<Option<u32>, IntegrationError>)
    ensures
        !crate::directives::directive_names(hir.preprocessing.directives@).contains(directive@)
            ==> r == Ok::<Option<u32>, IntegrationError>(None),
        crate::directives::directive_names(hir.preprocessing.directives@).contains(directive@)
            ==> match highest_free(reserved@) {
            Some(i) => r == Ok::<Option<u32>, IntegrationError>(Some(i)),
            None => r matches Err(e) && e.diagnostic.code@ == "index-exhausted"@
                && e.diagnostic.message@ == message@ && e.diagnostic.span == first_directive_span(
                hir.preprocessing.directives@,
                directive@,
            ) && e.diagnostic.script is None,
        },
{
    if !has_directive(hir, directive) {
        return Ok(None);
    }
    match highest_free_index(reserved) {
        Some(i) => Ok(Some(i)),
        None => {
            let span = directive_span(hir, directive);
            Err(IntegrationError::new("index-exhausted", string_from(message), span))
        },
    }
}

/// A string with the characters of `s`.
fn string_from(s: &str) -> (r: String)
    ensures
        r@ == s@,
{
    crate::strings::string_of(&chars_of(s))
}

/// The global slot of the compression alphabet: as for any helper variable,
/// asked for by `useVariableForCompressionAlphabet`.
pub fn compression_alphabet_index(hir: &ResolvedProgram, reserved: &Vec<u32>) -> (r: Result<
    Option<u32>,
    IntegrationError,
>)
    ensures
        !crate::directives::directive_names(hir.preprocessing.directives@).contains(
            "useVariableForCompressionAlphabet"@,
        ) ==> r == Ok::<Option<u32>, IntegrationError>(None),
        crate::directives::directive_names(hir.preprocessing.directives@).contains(
            "useVariableForCompressionAlphabet"@,
        ) ==> match highest_free(reserved@) {
            Some(i) => r == Ok::<Option<u32>, IntegrationError>(Some(i)),
            None => r matches Err(e) && e.diagnostic.code@ == "index-exhausted"@
                && e.diagnostic.message@
                == "no available global variable index remains for the compression alphabet"@
                && e.diagnostic.span == first_directive_span(
                hir.preprocessing.directives@,
                "useVariableForCompressionAlphabet"@,
            ) && e.diagnostic.script is None,
        },
{
    helper_global_index(
        hir,
        reserved,
        "useVariableForCompressionAlphabet",
        "no available global variable index remains for the compression alphabet",
    )
}

/// The end of the word that starts at `a`: the first whitespace from `a`
/// on, or the end of the text.
pub open spec fn word_end(s: Seq<char>, a: int) -> int
    decreases s.len() - a,
{
    if 0 <= a < s.len() && !is_white_space(s[a]) {
        word_end(s, a + 1)
    } else {
        a
    }
}

pub proof fn lemma_word_end(s: Seq<char>, a: int)
    requires
        0 <= a,
    ensures
        a <= word_end(s, a),
        a <= s.len() ==> word_end(s, a) <= s.len(),
        forall|i: int| a <= i < word_end(s, a) ==> !is_white_space(#[trigger] s[i]),
    decreases s.len() - a,
{
    if 0 <= a < s.len() && !is_white_space(s[a]) {
        lemma_word_end(s, a + 1);
    }
}

/// Skipping whitespace stops at a character that is not whitespace.
pub proof fn lemma_skip_stops(s: Seq<char>, p: int)
    requires
        0 <= p,
    ensures
        skip_white_space(s, p) < s.len() ==> !is_white_space(s[skip_white_space(s, p)]),
    decreases s.len() - p,
{
    if 0 <= p < s.len() && is_white_space(s[p]) {
        lemma_skip_stops(s, p + 1);
    }
}

/// The words of `s` from position `p` on: its maximal runs without
/// whitespace, in order.
pub open spec fn words_from(s: Seq<char>, p: int) -> Seq<Seq<char>>
    decreases s.len() - p,
{
    if p < 0 || p >= s.len() {
        Seq::empty()
    } else {
        let a = skip_white_space(s, p);
        if a >= s.len() {
            Seq::empty()
        } else {
            let b = word_end(s, a);
            proof {
                crate::rule_names::lemma_skip_white_space(s, p);
                lemma_skip_stops(s, p);
                lemma_word_end(s, a + 1);
                assert(word_end(s, a) == word_end(s, a + 1));
            }
            seq![s.subrange(a, b)] + words_from(s, b)
        }
    }
}

/// The words of `s`, as `split_whitespace` gives them.
pub open spec fn words(s: Seq<char>) -> Seq<Seq<char>> {
    words_from(s, 0)
}

/// The value of the first directive with this name, and whether there is
/// one.
pub open spec fn first_directive(ds: Seq<Directive>, name: Seq<char>) -> Option<Directive>
    decreases ds.len(),
{
    if ds.len() == 0 {
        None
    } else if ds[0].name@ == name {
        Some(ds[0])
    } else {
        first_directive(ds.subrange(1, ds.len() as int), name)
    }
}

/// The options of `translateWithPlayerVar`: whether the program translates
/// with a player variable, whether it skips the language detection rule
/// (`noDetectionRule`) and whether it leaves out the translation error
/// (`noTlErr`).
pub open spec fn translation_options(ds: Seq<Directive>) -> (bool, bool, bool) {
    match first_directive(ds, "translateWithPlayerVar"@) {
        None => (false, false, false),
        Some(d) => {
            let options = match d.value {
                Some(v) => v@,
                None => Seq::empty(),
            };
            (true, words(options).contains("noDetectionRule"@), words(options).contains("noTlErr"@))
        },
    }
}

/// The first directive with this name.
fn find_directive<'a>(hir: &'a ResolvedProgram, name: &str) -> (r: Option<&'a Directive>)
    ensures
        match r {
            Some(d) => first_directive(hir.preprocessing.directives@, name@) == Some(*d),
            None => first_directive(hir.preprocessing.directives@, name@) is None,
        },
{
    let ds = &hir.preprocessing.directives;
    let mut i: usize = 0;
    assert(ds@.subrange(0, ds@.len() as int) =~= ds@);
    while i < ds.len()
        invariant
            i <= ds@.len(),
            ds@ == hir.preprocessing.directives@,
            first_directive(ds@, name@) == first_directive(
                ds@.subrange(i as int, ds@.len() as int),
                name@,
            ),
        decreases ds@.len() - i,
    {
        let ghost rest = ds@.subrange(i as int, ds@.len() as int);
        assert(rest.subrange(1, rest.len() as int) =~= ds@.subrange(i + 1, ds@.len() as int));
        assert(rest[0] == ds@[i as int]);
        if str_eq(ds[i].name.as_str(), name) {
            return Some(&ds[i]);
        }
        i = i + 1;
    }
    None
}

/// Whether `w` is one of the words of `s`.
fn has_word(s: &Vec<char>, w: &Vec<char>) -> (r: bool)
    ensures
        r == words(s@).contains(w@),
{
    let mut p: usize = 0;
    let mut seen: bool = false;
    assert(words_from(s@, 0) == words(s@));
    while p < s.len()
        invariant
            p <= s@.len(),
            seen || words(s@).contains(w@) == words_from(s@, p as int).contains(w@),
            seen ==> words(s@).contains(w@),
        decreases s@.len() - p,
    {
        let a = skip_ws(s.as_slice(), p);
        if a >= s.len() {
            assert(words_from(s@, p as int) == Seq::<Seq<char>>::empty());
            p = s.len();
        } else {
            let mut b = a + 1;
            proof {
                lemma_skip_stops(s@, p as int);
                lemma_word_end(s@, a + 1);
                assert(word_end(s@, a as int) == word_end(s@, a + 1));
            }
            while b < s.len() && !char_is_whitespace(s[b])
                invariant
                    a < b <= s@.len(),
                    word_end(s@, a as int) == word_end(s@, b as int),
                decreases s@.len() - b,
            {
                b = b + 1;
            }
            let mut word: Vec<char> = Vec::new();
            let mut k: usize = a;
            while k < b
                invariant
                    a <= k <= b <= s@.len(),
                    word@ == s@.subrange(a as int, k as int),
                decreases b - k,
            {
                word.push(s[k]);
                k = k + 1;
                assert(word@ =~= s@.subrange(a as int, k as int));
            }
            let ghost rest = words_from(s@, b as int);
            assert(words_from(s@, p as int) == seq![s@.subrange(a as int, b as int)] + rest);
            if chars_eq(&word, w) {
                if !seen {
                    assert(words_from(s@, p as int)[0] == w@);
                    assert(words_from(s@, p as int).contains(w@));
                }
                seen = true;
            } else if !seen {
                assert(words_from(s@, p as int).contains(w@) == rest.contains(w@)) by {
                    if rest.contains(w@) {
                        let j = choose|j: int| 0 <= j < rest.len() && rest[j] == w@;
                        assert(words_from(s@, p as int)[j + 1] == w@);
                    }
                    if words_from(s@, p as int).contains(w@) {
                        let j = choose|j: int|
                            0 <= j < words_from(s@, p as int).len() && words_from(s@, p as int)[j]
                                == w@;
                        if j > 0 {
                            assert(rest[j - 1] == w@);
                        }
                    }
                }
            }
            p = b;
        }
    }
    if !seen {
        assert(words_from(s@, p as int) == Seq::<Seq<char>>::empty());
    }
    seen
}

/// The options of `translateWithPlayerVar`.
pub fn translation_player_options(hir: &ResolvedProgram) -> (r: (bool, bool, bool))
    ensures
        r == translation_options(hir.preprocessing.directives@),
{
    match find_directive(hir, "translateWithPlayerVar") {
        None => (false, false, false),
        Some(directive) => {
            let options = match &directive.value {
                Some(v) => chars_of(v.as_str()),
                None => Vec::new(),
            };
            assert(options@ == match directive.value {
                Some(v) => v@,
                None => Seq::<char>::empty(),
            });
            let no_detection = has_word(&options, &chars_of("noDetectionRule"));
            let no_error = has_word(&options, &chars_of("noTlErr"));
            (true, no_detection, no_error)
        },
    }
}

/// The conditions a rule condition splits into: the operands of `and`, and
/// of an `and` compared `== true`, taken apart.
pub open spec fn rule_conditions(e: Expr) -> Seq<Expr>
    decreases e,
{
    match e {
        Expr::Binary { op, left, right, .. } => if op@ == "and"@ {
            rule_conditions(*left) + rule_conditions(*right)
        } else if op@ == "=="@ && (*right matches Expr::Bool { value: true, .. }) && (
        *left matches Expr::Binary { op: inner, .. } && inner@ == "and"@) {
            rule_conditions(*left)
        } else {
            seq![e]
        },
        _ => seq![e],
    }
}

/// The plain values behind a list of references.
pub open spec fn expr_refs(v: Seq<&Expr>) -> Seq<Expr> {
    v.map_values(|x: &Expr| *x)
}

/// Appends the conditions that a rule condition splits into.
pub fn split_rule_condition<'e>(expr: &'e Expr, conditions: &mut Vec<&'e Expr>)
    ensures
        expr_refs(final(conditions)@) == expr_refs(old(conditions)@) + rule_conditions(*expr),
    decreases *expr,
{
    let ghost start = expr_refs(conditions@);
    match expr {
        Expr::Binary { op, left, right, .. } => {
            if str_eq(op.as_str(), "and") {
                split_rule_condition(left, conditions);
                split_rule_condition(right, conditions);
                assert(expr_refs(conditions@) =~= start + rule_conditions(*expr));
                return;
            }
            let right_true = match &**right {
                Expr::Bool { value, .. } => *value,
                _ => false,
            };
            let left_and = match &**left {
                Expr::Binary { op: inner, .. } => str_eq(inner.as_str(), "and"),
                _ => false,
            };
            if str_eq(op.as_str(), "==") && right_true && left_and {
                split_rule_condition(left, conditions);
                return;
            }
        },
        _ => {},
    }
    conditions.push(expr);
    assert(expr_refs(conditions@) =~= start + seq![*expr]);
}

/// The annotations that canonical Workshop rules can carry.
pub open spec fn is_representable_annotation(name: Seq<char>) -> bool {
    name == "Event"@ || name == "Condition"@ || name == "Team"@ || name == "Slot"@ || name
        == "Hero"@ || name == "Disabled"@ || name == "Delimiter"@ || name == "SuppressWarnings"@
}

/// The span of the first annotation with this name, where it has one.
pub open spec fn first_annotation_span(anns: Seq<RuleAnnotation>, name: Seq<char>) -> Option<Span>
    decreases anns.len(),
{
    if anns.len() == 0 {
        None
    } else if anns[0].name@ == name {
        anns[0].span
    } else {
        first_annotation_span(anns.subrange(1, anns.len() as int), name)
    }
}

/// The first span that is present.
pub open spec fn or_span(a: Option<Span>, b: Option<Span>) -> Option<Span> {
    match a {
        Some(s) => Some(s),
        None => b,
    }
}

/// Where the rule's first annotation that canonical rules cannot carry is.
pub open spec fn first_unrepresentable(anns: Seq<RuleAnnotation>) -> Option<int>
    decreases anns.len(),
{
    if anns.len() == 0 {
        None
    } else if !is_representable_annotation(anns[0].name@) {
        Some(0)
    } else {
        match first_unrepresentable(anns.subrange(1, anns.len() as int)) {
            Some(i) => Some(i + 1),
            None => None,
        }
    }
}

fn is_representable(name: &str) -> (r: bool)
    ensures
        r == is_representable_annotation(name@),
{
    str_eq(name, "Event") || str_eq(name, "Condition") || str_eq(name, "Team") || str_eq(name, "Slot")
        || str_eq(name, "Hero") || str_eq(name, "Disabled") || str_eq(name, "Delimiter") || str_eq(
        name,
        "SuppressWarnings",
    )
}

/// An `unsupported-integration-surface` error.
fn unsupported(message: String, span: Option<Span>) -> (r: IntegrationError)
    ensures
        r.diagnostic.code@ == "unsupported-integration-surface"@,
        r.diagnostic.message@ == message@,
        r.diagnostic.span == span,
        r.diagnostic.script is None,
{
    IntegrationError::new("unsupported-integration-surface", message, span)
}

/// Refuses rule metadata that canonical Workshop rules cannot carry: a new
/// page, anchored at its `NewPage` annotation or else at the rule, and then
/// the first annotation other than `Event`, `Condition`, `Team`, `Slot`,
/// `Hero`, `Disabled`, `Delimiter` and `SuppressWarnings`, anchored at
/// itself or else at the rule.
pub fn reject_rule_metadata(rule: &Rule) -> (r: Result<(), IntegrationError>)
    ensures
        rule.new_page ==> (r matches Err(e) && e.diagnostic.code@
            == "unsupported-integration-surface"@ && e.diagnostic.message@
            == "rule new-page metadata is not representable in canonical WIR"@ && e.diagnostic.span
            == or_span(first_annotation_span(rule.annotations@, "NewPage"@), rule.span)
            && e.diagnostic.script is None),
        !rule.new_page ==> match first_unrepresentable(rule.annotations@) {
            None => r is Ok,
            Some(i) => r matches Err(e) && e.diagnostic.code@ == "unsupported-integration-surface"@
                && e.diagnostic.message@ == "rule annotation '"@ + rule.annotations@[i].name@
                + "' is not representable in canonical WIR"@ && e.diagnostic.span == or_span(
                rule.annotations@[i].span,
                rule.span,
            ) && e.diagnostic.script is None,
        },
{
    let anns = &rule.annotations;
    if rule.new_page {
        let mut i: usize = 0;
        let mut found: Option<Span> = None;
        let mut done = false;
        assert(anns@.subrange(0, anns@.len() as int) =~= anns@);
        while i < anns.len() && !done
            invariant
                i <= anns@.len(),
                anns@ == rule.annotations@,
                !done ==> first_annotation_span(anns@, "NewPage"@) == first_annotation_span(
                    anns@.subrange(i as int, anns@.len() as int),
                    "NewPage"@,
                ),
                done ==> found == first_annotation_span(anns@, "NewPage"@),
                !done ==> found is None,
            decreases anns@.len() - i, if done { 0int } else { 1int },
        {
            let ghost rest = anns@.subrange(i as int, anns@.len() as int);
            assert(rest.subrange(1, rest.len() as int) =~= anns@.subrange(i + 1, anns@.len() as int));
            assert(rest[0] == anns@[i as int]);
            if str_eq(anns[i].name.as_str(), "NewPage") {
                found = anns[i].span;
                done = true;
            } else {
                i = i + 1;
            }
        }
        let span = match found {
            Some(s) => Some(s),
            None => rule.span,
        };
        return Err(
            unsupported(
                crate::strings::string_of(
                    &chars_of("rule new-page metadata is not representable in canonical WIR"),
                ),
                span,
            ),
        );
    }
    let mut i: usize = 0;
    assert(anns@.subrange(0, anns@.len() as int) =~= anns@);
    while i < anns.len()
        invariant
            i <= anns@.len(),
            !rule.new_page,
            anns@ == rule.annotations@,
            forall|k: int| 0 <= k < i ==> is_representable_annotation(#[trigger] anns@[k].name@),
            first_unrepresentable(anns@) == match first_unrepresentable(
                anns@.subrange(i as int, anns@.len() as int),
            ) {
                Some(j) => Some(j + i),
                None => None,
            },
        decreases anns@.len() - i,
    {
        let ghost rest = anns@.subrange(i as int, anns@.len() as int);
        assert(rest.subrange(1, rest.len() as int) =~= anns@.subrange(i + 1, anns@.len() as int));
        assert(rest[0] == anns@[i as int]);
        if !is_representable(anns[i].name.as_str()) {
            let mut message: Vec<char> = Vec::new();
            crate::strings::push_str(&mut message, "rule annotation '");
            crate::strings::push_str(&mut message, anns[i].name.as_str());
            crate::strings::push_str(&mut message, "' is not representable in canonical WIR");
            let span = match anns[i].span {
                Some(s) => Some(s),
                None => rule.span,
            };
            return Err(unsupported(crate::strings::string_of(&message), span));
        }
        i = i + 1;
    }
    assert(anns@.subrange(i as int, anns@.len() as int) =~= Seq::<RuleAnnotation>::empty());
    Ok(())
}

/// Whether position `a` comes no later than position `b`.
pub open spec fn at_or_before(a: Position, b: Position) -> bool {
    a.line < b.line || (a.line == b.line && a.col <= b.col)
}

/// The optimizations of the last directive, in order, that stands in the
/// same file at or before `span`: the scan stops at the first directive of
/// that file that stands after it.
pub open spec fn directive_state_before(ds: Seq<Directive>, span: Span, i: int, active: Option<
    OptimizationState,
>) -> Option<OptimizationState>
    decreases ds.len() - i,
{
    if i < 0 || i >= ds.len() {
        active
    } else {
        match ds[i].span {
            None => directive_state_before(ds, span, i + 1, active),
            Some(d) => if d.file != span.file {
                directive_state_before(ds, span, i + 1, active)
            } else if at_or_before(d.start, span.start) {
                directive_state_before(ds, span, i + 1, Some(ds[i].state.optimization))
            } else {
                active
            },
        }
    }
}

/// The optimizations a source file starts with, from the first entry for it.
pub open spec fn initial_state(entries: Seq<(u32, OptimizationState)>, file: u32) -> Option<
    OptimizationState,
>
    decreases entries.len(),
{
    if entries.len() == 0 {
        None
    } else if entries[0].0 == file {
        Some(entries[0].1)
    } else {
        initial_state(entries.subrange(1, entries.len() as int), file)
    }
}

/// The optimizations that hold at `span`: those of the last directive
/// before it in its file, else those its file starts with, else those of
/// the program; the program's where there is no span.
pub open spec fn optimization_state(p: ResolvedProgram, span: Option<Span>) -> OptimizationState {
    match span {
        None => p.preprocessing.optimization,
        Some(s) => match directive_state_before(p.preprocessing.directives@, s, 0, None) {
            Some(o) => o,
            None => match initial_state(p.preprocessing.source_file_initial_optimization@, s.file) {
                Some(o) => o,
                None => p.preprocessing.optimization,
            },
        },
    }
}

/// The optimizations that hold at `span`.
pub fn optimization_state_at(hir: &ResolvedProgram, span: Option<Span>) -> (r: OptimizationState)
    ensures
        r == optimization_state(*hir, span),
{
    let at = match span {
        None => return hir.preprocessing.optimization,
        Some(s) => s,
    };
    let ds = &hir.preprocessing.directives;
    let mut active: Option<OptimizationState> = None;
    let mut i: usize = 0;
    let mut stopped = false;
    while i < ds.len() && !stopped
        invariant
            i <= ds@.len(),
            ds@ == hir.preprocessing.directives@,
            !stopped ==> directive_state_before(ds@, at, 0, None) == directive_state_before(
                ds@,
                at,
                i as int,
                active,
            ),
            stopped ==> directive_state_before(ds@, at, 0, None) == active,
        decreases ds@.len() - i, if stopped { 0int } else { 1int },
    {
        match ds[i].span {
            None => {
                i = i + 1;
            },
            Some(d) => {
                if d.file != at.file {
                    i = i + 1;
                } else if d.start.line < at.start.line || (d.start.line == at.start.line
                    && d.start.col <= at.start.col) {
                    active = Some(ds[i].state.optimization);
                    i = i + 1;
                } else {
                    stopped = true;
                }
            },
        }
    }
    match active {
        Some(o) => o,
        None => {
            let entries = &hir.preprocessing.source_file_initial_optimization;
            let mut k: usize = 0;
            assert(entries@.subrange(0, entries@.len() as int) =~= entries@);
            while k < entries.len()
                invariant
                    k <= entries@.len(),
                    span == Some(at),
                    entries@ == hir.preprocessing.source_file_initial_optimization@,
                    directive_state_before(hir.preprocessing.directives@, at, 0, None) is None,
                    initial_state(entries@, at.file) == initial_state(
                        entries@.subrange(k as int, entries@.len() as int),
                        at.file,
                    ),
                decreases entries@.len() - k,
            {
                let ghost rest = entries@.subrange(k as int, entries@.len() as int);
                assert(rest.subrange(1, rest.len() as int) =~= entries@.subrange(
                    k + 1,
                    entries@.len() as int,
                ));
                assert(rest[0] == entries@[k as int]);
                if entries[k].0 == at.file {
                    return entries[k].1;
                }
                k = k + 1;
            }
            hir.preprocessing.optimization
        },
    }
}

/// The global slot of the translation helper: none where the program has
/// no translations, else the highest slot that is not reserved, or an
/// `index-exhausted` error at the translations where every slot is.
pub fn translation_helper_index(hir: &ResolvedProgram, reserved: &Vec<u32>) -> (r: Result<
    Option<u32>,
    IntegrationError,
>)
    ensures
        hir.preprocessing.translations is None ==> r == Ok::<Option<u32>, IntegrationError>(None),
        hir.preprocessing.translations matches Some(t) ==> match highest_free(reserved@) {
            Some(i) => r == Ok::<Option<u32>, IntegrationError>(Some(i)),
            None => r matches Err(e) && e.diagnostic.code@ == "index-exhausted"@
                && e.diagnostic.message@
                == "no available global variable index remains for translations"@
                && e.diagnostic.span == t.span && e.diagnostic.script is None,
        },
{
    let span = match &hir.preprocessing.translations {
        None => return Ok(None),
        Some(t) => t.span,
    };
    match highest_free_index(reserved) {
        Some(i) => Ok(Some(i)),
        None => Err(
            IntegrationError::new(
                "index-exhausted",
                string_from("no available global variable index remains for translations"),
                span,
            ),
        ),
    }
}

} // verus!
