//! Constants in the custom game settings.
//!
//! A settings value written as the name of a constant is replaced by the
//! setting that the constant's value spells: a dictionary becomes a group, a
//! number, boolean or string becomes a leaf. Constants may name other
//! constants. A `general` group inside a dictionary, or directly inside a
//! `team1`, `team2` or `allTeams` group, is spliced into its parent.
use vstd::prelude::*;
use crate::hir::{Declaration, Expr, DictEntry, Settings, SettingsListElement, SettingsNode, Span};
use crate::strings::str_eq;

verus! {

/// What a settings node holds, as plain values.
pub enum SettingView {
    Group { name: Seq<char>, children: Seq<SettingView>, span: Option<Span> },
    Number { name: Seq<char>, value: Seq<char>, span: Option<Span> },
    Bool { name: Seq<char>, value: bool, span: Option<Span> },
    String { name: Seq<char>, value: Seq<char>, span: Option<Span> },
    Raw { name: Seq<char>, value: Seq<char>, span: Option<Span> },
    List { name: Seq<char>, elements: Seq<(Seq<char>, Option<Span>)>, span: Option<Span> },
}

pub open spec fn view_element(e: SettingsListElement) -> (Seq<char>, Option<Span>) {
    (e.value@, e.span)
}

/// The plain view of a settings node.
pub open spec fn view_node(n: SettingsNode) -> SettingView
    decreases n,
{
    match n {
        SettingsNode::Group { name, children, span } => SettingView::Group {
            name: name@,
            children: Seq::new(
                children@.len(),
                |i: int|
                    if 0 <= i < children@.len() {
                        view_node(children@[i])
                    } else {
                        SettingView::Bool { name: Seq::empty(), value: false, span: None }
                    },
            ),
            span,
        },
        SettingsNode::Number { name, value, span } => SettingView::Number {
            name: name@,
            value: value@,
            span,
        },
        SettingsNode::Bool { name, value, span } => SettingView::Bool { name: name@, value, span },
        SettingsNode::String { name, value, span } => SettingView::String {
            name: name@,
            value: value@,
            span,
        },
        SettingsNode::Raw { name, value, span } => SettingView::Raw {
            name: name@,
            value: value@,
            span,
        },
        SettingsNode::List { name, elements, span } => SettingView::List {
            name: name@,
            elements: elements@.map_values(|e: SettingsListElement| view_element(e)),
            span,
        },
    }
}

/// The plain views of a sequence of settings nodes.
pub open spec fn view_nodes(s: Seq<SettingsNode>) -> Seq<SettingView> {
    s.map_values(|n: SettingsNode| view_node(n))
}

/// The constants as (name, value) pairs.
pub open spec fn constants_view(cs: Seq<(String, &Expr)>) -> Seq<(Seq<char>, Expr)> {
    cs.map_values(|p: (String, &Expr)| (p.0@, *p.1))
}

/// The value of the constant `name`: where a name is declared twice, the
/// later declaration counts.
pub open spec fn lookup_constant(cs: Seq<(Seq<char>, Expr)>, name: Seq<char>) -> Option<Expr>
    decreases cs.len(),
{
    if cs.len() == 0 {
        None
    } else if cs[cs.len() - 1].0 == name {
        Some(cs[cs.len() - 1].1)
    } else {
        lookup_constant(cs.subrange(0, cs.len() - 1), name)
    }
}

/// Whether following constants from `e` ends within `fuel` steps: every
/// constant chain reached, through dictionary values too, comes to a value.
pub open spec fn resolves(cs: Seq<(Seq<char>, Expr)>, e: Expr, fuel: nat) -> bool
    decreases fuel,
{
    if fuel == 0 {
        false
    } else {
        match e {
            Expr::Constant { name, .. } => match lookup_constant(cs, name@) {
                Some(v) => resolves(cs, v, (fuel - 1) as nat),
                None => true,
            },
            Expr::Dict { entries, .. } => forall|i: int|
                0 <= i < entries@.len() ==> ((*(#[trigger] entries@[i]).key is String) ==> resolves(
                    cs,
                    *entries@[i].value,
                    (fuel - 1) as nat,
                )),
            _ => true,
        }
    }
}

/// The children that a `general` group gives its parent: its own children;
/// any other node stays itself.
pub open spec fn flatten_general(v: SettingView) -> Seq<SettingView> {
    match v {
        SettingView::Group { name, children, .. } => if name == "general"@ {
            children
        } else {
            seq![v]
        },
        _ => seq![v],
    }
}

/// The nodes with every `general` group among them spliced in.
pub open spec fn flatten_all(s: Seq<SettingView>) -> Seq<SettingView>
    decreases s.len(),
{
    if s.len() == 0 {
        Seq::empty()
    } else {
        flatten_all(s.subrange(0, s.len() - 1)) + flatten_general(s[s.len() - 1])
    }
}

/// The setting named `name` that the value `e` spells, if it spells one.
pub open spec fn node_from_expr(
    cs: Seq<(Seq<char>, Expr)>,
    name: Seq<char>,
    e: Expr,
    span: Option<Span>,
    fuel: nat,
) -> Option<SettingView>
    decreases fuel, 0nat,
{
    if fuel == 0 {
        None
    } else {
        match e {
            Expr::Constant { name: c, .. } => match lookup_constant(cs, c@) {
                Some(v) => node_from_expr(cs, name, v, span, (fuel - 1) as nat),
                None => None,
            },
            Expr::Dict { entries, .. } => Some(
                SettingView::Group {
                    name,
                    children: dict_children(cs, entries@, (fuel - 1) as nat),
                    span,
                },
            ),
            Expr::Number { text, .. } => Some(SettingView::Number { name, value: text@, span }),
            Expr::Bool { value, .. } => Some(SettingView::Bool { name, value, span }),
            Expr::String { value, .. } => Some(SettingView::String { name, value: value@, span }),
            _ => None,
        }
    }
}

/// The settings that the entries of a dictionary spell, in order: an entry
/// whose key is not a string, or whose value spells no setting, is left out.
pub open spec fn dict_children(cs: Seq<(Seq<char>, Expr)>, es: Seq<DictEntry>, fuel: nat) -> Seq<
    SettingView,
>
    decreases fuel, es.len(),
{
    if es.len() == 0 {
        Seq::empty()
    } else {
        let prev = dict_children(cs, es.subrange(0, es.len() - 1), fuel);
        let last = es[es.len() - 1];
        match *last.key {
            Expr::String { value, .. } => match node_from_expr(
                cs,
                value@,
                *last.value,
                last.span,
                fuel,
            ) {
                Some(child) => prev + flatten_general(child),
                None => prev,
            },
            _ => prev,
        }
    }
}

/// Whether `name` is one of the groups whose `general` child is spliced.
pub open spec fn is_team_group(name: Seq<char>) -> bool {
    name == "team1"@ || name == "team2"@ || name == "allTeams"@
}

/// Whether every constant that a raw value in `n` names resolves within `fuel`.
pub open spec fn node_resolves(cs: Seq<(Seq<char>, Expr)>, n: SettingView, fuel: nat) -> bool
    decreases n,
{
    match n {
        SettingView::Group { children, .. } => forall|i: int|
            0 <= i < children.len() ==> node_resolves(cs, #[trigger] children[i], fuel),
        SettingView::Raw { value, .. } => match lookup_constant(cs, value) {
            Some(e) => resolves(cs, e, fuel),
            None => true,
        },
        _ => true,
    }
}

/// Whether every node of `s` resolves within `fuel`.
pub open spec fn nodes_resolve(cs: Seq<(Seq<char>, Expr)>, s: Seq<SettingView>, fuel: nat) -> bool {
    forall|i: int| 0 <= i < s.len() ==> node_resolves(cs, #[trigger] s[i], fuel)
}

/// A settings node with its constants expanded.
pub open spec fn expand_node(cs: Seq<(Seq<char>, Expr)>, n: SettingView, fuel: nat) -> SettingView
    decreases n,
{
    match n {
        SettingView::Group { name, children, span } => {
            let ch = expand_nodes(cs, children, fuel);
            SettingView::Group {
                name,
                children: if is_team_group(name) {
                    flatten_all(ch)
                } else {
                    ch
                },
                span,
            }
        },
        SettingView::Raw { name, value, span } => match lookup_constant(cs, value) {
            Some(e) => match node_from_expr(cs, name, e, span, fuel) {
                Some(x) => x,
                None => n,
            },
            None => n,
        },
        _ => n,
    }
}

/// Settings nodes with their constants expanded, one by one.
pub open spec fn expand_nodes(cs: Seq<(Seq<char>, Expr)>, s: Seq<SettingView>, fuel: nat) -> Seq<
    SettingView,
>
    decreases s,
{
    if s.len() == 0 {
        Seq::empty()
    } else {
        expand_nodes(cs, s.subrange(0, s.len() - 1), fuel).push(
            expand_node(cs, s[s.len() - 1], fuel),
        )
    }
}

/// A fuel with which every node of `s` resolves, where there is one.
pub open spec fn settings_fuel(cs: Seq<(Seq<char>, Expr)>, s: Seq<SettingView>) -> nat {
    choose|f: nat| nodes_resolve(cs, s, f)
}

/// The constants that the declarations define, in declaration order.
pub open spec fn declared_constants(ds: Seq<Declaration>) -> Seq<(Seq<char>, Expr)>
    decreases ds.len(),
{
    if ds.len() == 0 {
        Seq::empty()
    } else {
        let prev = declared_constants(ds.subrange(0, ds.len() - 1));
        match ds[ds.len() - 1] {
            Declaration::Constant { name, value, .. } => prev.push((name@, *value)),
            _ => prev,
        }
    }
}

/// The value of the constant `name`, searched from the last declaration back.
fn find_constant<'a>(cs: &Vec<(String, &'a Expr)>, name: &str) -> (r: Option<&'a Expr>)
    ensures
        match r {
            Some(e) => lookup_constant(constants_view(cs@), name@) == Some(*e),
            None => lookup_constant(constants_view(cs@), name@) is None,
        },
{
    let ghost all = constants_view(cs@);
    assert(all.subrange(0, all.len() as int) =~= all);
    let mut i: usize = cs.len();
    while i > 0
        invariant
            i <= cs@.len(),
            all == constants_view(cs@),
            lookup_constant(all.subrange(0, i as int), name@) == lookup_constant(all, name@),
        decreases i,
    {
        let ghost pre = all.subrange(0, i as int);
        assert(pre.subrange(0, pre.len() - 1) =~= all.subrange(0, i - 1));
        if str_eq(cs[i - 1].0.as_str(), name) {
            return Some(cs[i - 1].1);
        }
        i = i - 1;
    }
    assert(all.subrange(0, 0) =~= Seq::<(Seq<char>, Expr)>::empty());
    None
}

/// The constants that the declarations define, in declaration order.
pub fn settings_constants(declarations: &Vec<Declaration>) -> (r: Vec<(String, &Expr)>)
    ensures
        constants_view(r@) == declared_constants(declarations@),
{
    let mut r: Vec<(String, &Expr)> = Vec::new();
    let mut i: usize = 0;
    while i < declarations.len()
        invariant
            i <= declarations@.len(),
            constants_view(r@) == declared_constants(declarations@.subrange(0, i as int)),
        decreases declarations@.len() - i,
    {
        let ghost pre = declarations@.subrange(0, i + 1);
        assert(pre.subrange(0, pre.len() - 1) =~= declarations@.subrange(0, i as int));
        match &declarations[i] {
            Declaration::Constant { name, value, .. } => {
                let ghost before = r@;
                r.push((name.clone(), &**value));
                assert(constants_view(r@) =~= constants_view(before).push((name@, **value)));
            },
            _ => {},
        }
        i = i + 1;
    }
    assert(declarations@.subrange(0, declarations@.len() as int) =~= declarations@);
    r
}

/// Appends `c` to `out`, or the children of `c` where it is a `general` group.
fn push_flattened(out: &mut Vec<SettingsNode>, c: SettingsNode)
    ensures
        view_nodes(final(out)@) == view_nodes(old(out)@) + flatten_general(view_node(c)),
{
    let ghost vc = view_node(c);
    let ghost before = out@;
    match c {
        SettingsNode::Group { name, children, span } => {
            if str_eq(name.as_str(), "general") {
                let ghost ch = children@;
                let mut ch_mut = children;
                out.append(&mut ch_mut);
                assert(view_nodes(out@) =~= view_nodes(before) + view_nodes(ch));
                assert(flatten_general(vc) =~= view_nodes(ch));
            } else {
                out.push(SettingsNode::Group { name, children, span });
                assert(view_nodes(out@) =~= view_nodes(before) + flatten_general(vc));
            }
        },
        other => {
            out.push(other);
            assert(view_nodes(out@) =~= view_nodes(before) + flatten_general(vc));
        },
    }
}

/// The setting named `name` that the value `e` spells, if it spells one.
fn settings_node_from_expr<'a>(
    name: String,
    e: &Expr,
    cs: &Vec<(String, &'a Expr)>,
    span: Option<Span>,
    Ghost(fuel): Ghost<nat>,
) -> (r: Option<SettingsNode>)
    requires
        resolves(constants_view(cs@), *e, fuel),
    ensures
        match r {
            Some(n) => node_from_expr(constants_view(cs@), name@, *e, span, fuel) == Some(
                view_node(n),
            ),
            None => node_from_expr(constants_view(cs@), name@, *e, span, fuel) is None,
        },
    decreases fuel,
{
    let ghost cv = constants_view(cs@);
    match e {
        Expr::Constant { name: c, .. } => match find_constant(cs, c.as_str()) {
            Some(v) => settings_node_from_expr(name, v, cs, span, Ghost((fuel - 1) as nat)),
            None => None,
        },
        Expr::Dict { entries, .. } => {
            let ghost f1 = (fuel - 1) as nat;
            let mut children: Vec<SettingsNode> = Vec::new();
            let mut i: usize = 0;
            while i < entries.len()
                invariant
                    i <= entries@.len(),
                    fuel == f1 + 1,
                    cv == constants_view(cs@),
                    forall|k: int|
                        0 <= k < entries@.len() ==> ((*(#[trigger] entries@[k]).key is String)
                            ==> resolves(cv, *entries@[k].value, f1)),
                    view_nodes(children@) == dict_children(cv, entries@.subrange(0, i as int), f1),
                decreases entries@.len() - i,
            {
                let ghost pre = entries@.subrange(0, i + 1);
                assert(pre.subrange(0, pre.len() - 1) =~= entries@.subrange(0, i as int));
                let entry = &entries[i];
                match &*entry.key {
                    Expr::String { value, .. } => {
                        let child = settings_node_from_expr(
                            value.clone(),
                            &entry.value,
                            cs,
                            entry.span,
                            Ghost(f1),
                        );
                        match child {
                            Some(c) => push_flattened(&mut children, c),
                            None => {},
                        }
                    },
                    _ => {},
                }
                i = i + 1;
            }
            assert(entries@.subrange(0, entries@.len() as int) =~= entries@);
            let r = SettingsNode::Group { name, children, span };
            assert(view_node(r) matches SettingView::Group { children: ch, .. } && ch =~= view_nodes(children@));
            Some(r)
        },
        Expr::Number { text, .. } => Some(SettingsNode::Number { name, value: text.clone(), span }),
        Expr::Bool { value, .. } => Some(SettingsNode::Bool { name, value: *value, span }),
        Expr::String { value, .. } => Some(
            SettingsNode::String { name, value: value.clone(), span },
        ),
        _ => None,
    }
}

/// A copy of a list of settings elements.
fn copy_elements(v: &Vec<SettingsListElement>) -> (r: Vec<SettingsListElement>)
    ensures
        r@.map_values(|e: SettingsListElement| view_element(e)) == v@.map_values(
            |e: SettingsListElement| view_element(e),
        ),
{
    let mut r: Vec<SettingsListElement> = Vec::new();
    let mut i: usize = 0;
    while i < v.len()
        invariant
            i <= v@.len(),
            r@.len() == i,
            forall|k: int| 0 <= k < i ==> view_element(#[trigger] r@[k]) == view_element(v@[k]),
        decreases v@.len() - i,
    {
        r.push(SettingsListElement { value: v[i].value.clone(), span: v[i].span });
        i = i + 1;
    }
    assert(r@.map_values(|e: SettingsListElement| view_element(e)) =~= v@.map_values(
        |e: SettingsListElement| view_element(e),
    ));
    r
}

/// A settings node with its constants expanded.
fn expand_settings_node<'a>(
    node: &SettingsNode,
    cs: &Vec<(String, &'a Expr)>,
    Ghost(fuel): Ghost<nat>,
) -> (r: SettingsNode)
    requires
        node_resolves(constants_view(cs@), view_node(*node), fuel),
    ensures
        view_node(r) == expand_node(constants_view(cs@), view_node(*node), fuel),
    decreases *node,
{
    let ghost cv = constants_view(cs@);
    match node {
        SettingsNode::Group { name, children, span } => {
            let ghost src = view_nodes(children@);
            assert(view_node(*node) matches SettingView::Group { children: ch, .. } && ch =~= src);
            let team = str_eq(name.as_str(), "team1") || str_eq(name.as_str(), "team2") || str_eq(
                name.as_str(),
                "allTeams",
            );
            let mut out: Vec<SettingsNode> = Vec::new();
            let mut i: usize = 0;
            while i < children.len()
                invariant
                    i <= children@.len(),
                    cv == constants_view(cs@),
                    src == view_nodes(children@),
                    team == is_team_group(name@),
                    nodes_resolve(cv, src, fuel),
                    forall|k: int| 0 <= k < children@.len() ==> decreases_to!(*node => #[trigger] children@[k]),
                    view_nodes(out@) == if team {
                        flatten_all(expand_nodes(cv, src.subrange(0, i as int), fuel))
                    } else {
                        expand_nodes(cv, src.subrange(0, i as int), fuel)
                    },
                decreases children@.len() - i,
            {
                let ghost pre = src.subrange(0, i + 1);
                assert(pre.subrange(0, pre.len() - 1) =~= src.subrange(0, i as int));
                assert(node_resolves(cv, src[i as int], fuel));
                let c = expand_settings_node(&children[i], cs, Ghost(fuel));
                let ghost ex = expand_nodes(cv, pre, fuel);
                assert(ex.subrange(0, ex.len() - 1) =~= expand_nodes(cv, src.subrange(0, i as int), fuel));
                if team {
                    push_flattened(&mut out, c);
                } else {
                    let ghost before = out@;
                    out.push(c);
                    assert(view_nodes(out@) =~= view_nodes(before).push(view_node(c)));
                }
                i = i + 1;
            }
            assert(src.subrange(0, src.len() as int) =~= src);
            let r = SettingsNode::Group { name: name.clone(), children: out, span: *span };
            assert(view_node(r) matches SettingView::Group { children: ch, .. } && ch =~= view_nodes(out@));
            r
        },
        SettingsNode::Raw { name, value, span } => {
            match find_constant(cs, value.as_str()) {
                Some(e) => match settings_node_from_expr(name.clone(), e, cs, *span, Ghost(fuel)) {
                    Some(x) => x,
                    None => SettingsNode::Raw { name: name.clone(), value: value.clone(), span: *span },
                },
                None => SettingsNode::Raw { name: name.clone(), value: value.clone(), span: *span },
            }
        },
        SettingsNode::Number { name, value, span } => SettingsNode::Number {
            name: name.clone(),
            value: value.clone(),
            span: *span,
        },
        SettingsNode::Bool { name, value, span } => SettingsNode::Bool {
            name: name.clone(),
            value: *value,
            span: *span,
        },
        SettingsNode::String { name, value, span } => SettingsNode::String {
            name: name.clone(),
            value: value.clone(),
            span: *span,
        },
        SettingsNode::List { name, elements, span } => SettingsNode::List {
            name: name.clone(),
            elements: copy_elements(elements),
            span: *span,
        },
    }
}

/// The settings with every raw value that names a constant replaced by the
/// setting that the constant spells; a raw value whose constant spells no
/// setting stays as it is. The constants must not name one another in a
/// cycle that a settings value reaches.
pub fn expand_settings_constants<'a>(settings: Settings, constants: &Vec<(String, &'a Expr)>) -> (r:
    Settings)
    requires
        exists|f: nat| nodes_resolve(constants_view(constants@), view_nodes(settings.children@), f),
    ensures
        r.span == settings.span,
        view_nodes(r.children@) == expand_nodes(
            constants_view(constants@),
            view_nodes(settings.children@),
            settings_fuel(constants_view(constants@), view_nodes(settings.children@)),
        ),
{
    let ghost cv = constants_view(constants@);
    let ghost src = view_nodes(settings.children@);
    let ghost fuel = settings_fuel(cv, src);
    let mut out: Vec<SettingsNode> = Vec::new();
    let mut i: usize = 0;
    while i < settings.children.len()
        invariant
            i <= settings.children@.len(),
            cv == constants_view(constants@),
            src == view_nodes(settings.children@),
            nodes_resolve(cv, src, fuel),
            view_nodes(out@) == expand_nodes(cv, src.subrange(0, i as int), fuel),
        decreases settings.children@.len() - i,
    {
        let ghost pre = src.subrange(0, i + 1);
        assert(pre.subrange(0, pre.len() - 1) =~= src.subrange(0, i as int));
        assert(node_resolves(cv, src[i as int], fuel));
        let c = expand_settings_node(&settings.children[i], constants, Ghost(fuel));
        let ghost before = out@;
        out.push(c);
        assert(view_nodes(out@) =~= view_nodes(before).push(view_node(c)));
        i = i + 1;
    }
    assert(src.subrange(0, src.len() as int) =~= src);
    Settings { span: settings.span, children: out }
}

/// Two fuels with which a value resolves give the same setting.
proof fn lemma_node_from_expr_fuel(
    cs: Seq<(Seq<char>, Expr)>,
    name: Seq<char>,
    e: Expr,
    span: Option<Span>,
    f1: nat,
    f2: nat,
)
    requires
        resolves(cs, e, f1),
        resolves(cs, e, f2),
    ensures
        node_from_expr(cs, name, e, span, f1) == node_from_expr(cs, name, e, span, f2),
    decreases f1, 0nat,
{
    match e {
        Expr::Constant { name: c, .. } => match lookup_constant(cs, c@) {
            Some(v) => lemma_node_from_expr_fuel(cs, name, v, span, (f1 - 1) as nat, (f2 - 1) as nat),
            None => {},
        },
        Expr::Dict { entries, .. } => {
            lemma_dict_children_fuel(cs, entries@, (f1 - 1) as nat, (f2 - 1) as nat);
        },
        _ => {},
    }
}

/// Two fuels with which every string-keyed entry resolves give the same children.
proof fn lemma_dict_children_fuel(cs: Seq<(Seq<char>, Expr)>, es: Seq<DictEntry>, f1: nat, f2: nat)
    requires
        forall|k: int|
            0 <= k < es.len() ==> ((*(#[trigger] es[k]).key is String) ==> resolves(
                cs,
                *es[k].value,
                f1,
            ) && resolves(cs, *es[k].value, f2)),
    ensures
        dict_children(cs, es, f1) == dict_children(cs, es, f2),
    decreases f1, es.len(),
{
    if es.len() > 0 {
        let init = es.subrange(0, es.len() - 1);
        assert forall|k: int|
            0 <= k < init.len() implies ((*(#[trigger] init[k]).key is String) ==> resolves(
            cs,
            *init[k].value,
            f1,
        ) && resolves(cs, *init[k].value, f2)) by {
            assert(init[k] == es[k]);
        }
        lemma_dict_children_fuel(cs, init, f1, f2);
        let last = es[es.len() - 1];
        match *last.key {
            Expr::String { value, .. } => {
                lemma_node_from_expr_fuel(cs, value@, *last.value, last.span, f1, f2);
            },
            _ => {},
        }
    }
}

/// Two fuels with which a node resolves give the same expansion.
proof fn lemma_expand_node_fuel(cs: Seq<(Seq<char>, Expr)>, n: SettingView, f1: nat, f2: nat)
    requires
        node_resolves(cs, n, f1),
        node_resolves(cs, n, f2),
    ensures
        expand_node(cs, n, f1) == expand_node(cs, n, f2),
    decreases n, 0nat,
{
    match n {
        SettingView::Group { children, .. } => {
            lemma_expand_nodes_fuel(cs, children, f1, f2);
        },
        SettingView::Raw { name, value, span } => match lookup_constant(cs, value) {
            Some(e) => lemma_node_from_expr_fuel(cs, name, e, span, f1, f2),
            None => {},
        },
        _ => {},
    }
}

/// Two fuels with which every node resolves give the same expansion.
proof fn lemma_expand_nodes_fuel(cs: Seq<(Seq<char>, Expr)>, s: Seq<SettingView>, f1: nat, f2: nat)
    requires
        nodes_resolve(cs, s, f1),
        nodes_resolve(cs, s, f2),
    ensures
        expand_nodes(cs, s, f1) == expand_nodes(cs, s, f2),
    decreases s, 1nat,
{
    if s.len() > 0 {
        let init = s.subrange(0, s.len() - 1);
        assert forall|k: int| 0 <= k < init.len() implies node_resolves(cs, #[trigger] init[k], f1)
            && node_resolves(cs, init[k], f2) by {
            assert(init[k] == s[k]);
        }
        lemma_expand_nodes_fuel(cs, init, f1, f2);
        assert(node_resolves(cs, s[s.len() - 1], f1));
        lemma_expand_node_fuel(cs, s[s.len() - 1], f1, f2);
    }
}

/// Whatever fuel every node resolves with, the expansion is the one that
/// `expand_settings_constants` states: the fuel only bounds the depth of
/// the constant chains, it does not change the result.
pub proof fn lemma_expansion_is_fuel_independent(cs: Seq<(Seq<char>, Expr)>, s: Seq<SettingView>, f: nat)
    requires
        nodes_resolve(cs, s, f),
    ensures
        expand_nodes(cs, s, f) == expand_nodes(cs, s, settings_fuel(cs, s)),
{
    lemma_expand_nodes_fuel(cs, s, f, settings_fuel(cs, s));
}

/// Splicing law: expanding a group named `team1`, `team2` or `allTeams`
/// gives its expanded children with every `general` group among them
/// replaced by that group's own children; any other group keeps its
/// expanded children as they are.
pub proof fn lemma_team_groups_splice_general(
    cs: Seq<(Seq<char>, Expr)>,
    name: Seq<char>,
    children: Seq<SettingView>,
    span: Option<Span>,
    fuel: nat,
)
    ensures
        (name == "allTeams"@ || name == "team1"@ || name == "team2"@) ==> expand_node(
            cs,
            SettingView::Group { name, children, span },
            fuel,
        ) == (SettingView::Group { name, children: flatten_all(expand_nodes(cs, children, fuel)), span }),
        !(name == "allTeams"@ || name == "team1"@ || name == "team2"@) ==> expand_node(
            cs,
            SettingView::Group { name, children, span },
            fuel,
        ) == (SettingView::Group { name, children: expand_nodes(cs, children, fuel), span }),
{
}

/// Spliced `general` groups leave no trace: splicing keeps every node that
/// is not a `general` group, in order, and puts the children of each
/// `general` group in its place, so a list without `general` groups is
/// left as it is.
pub proof fn lemma_flatten_without_general(s: Seq<SettingView>)
    requires
        forall|i: int| 0 <= i < s.len() ==> !(#[trigger] s[i] matches SettingView::Group { name, .. } && name == "general"@),
    ensures
        flatten_all(s) == s,
    decreases s.len(),
{
    if s.len() > 0 {
        let p = s.subrange(0, s.len() - 1);
        assert forall|i: int| 0 <= i < p.len() implies !(#[trigger] p[i] matches SettingView::Group { name, .. } && name == "general"@) by {
            assert(p[i] == s[i]);
        }
        lemma_flatten_without_general(p);
        assert(!(s[s.len() - 1] matches SettingView::Group { name, .. } && name == "general"@));
        assert(flatten_general(s[s.len() - 1]) == seq![s[s.len() - 1]]);
        assert(p.push(s[s.len() - 1]) =~= s);
    }
}

} // verus!
