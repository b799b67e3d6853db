//! The resolved OPY program that the Workshop lowering consumes.
//!
//! Expressions and statements keep the source span they came from; a span
//! is absent where the frontend synthesized the node. Number literals keep
//! the spelling they were written with.
use vstd::prelude::*;

verus! {

/// A line and column in a source file.
#[derive(Clone, Copy, Debug, PartialEq, Eq)]
pub struct Position {
    pub line: u32,
    pub col: u32,
}

/// A source range inside one file of the program.
#[derive(Clone, Copy, Debug, PartialEq, Eq)]
pub struct Span {
    pub file: u32,
    pub start: Position,
    pub end: Position,
}

/// One `key: value` entry of a dictionary literal.
#[derive(Debug, PartialEq)]
pub struct DictEntry {
    pub key: Box<Expr>,
    pub value: Box<Expr>,
    pub span: Option<Span>,
}

/// An OPY expression.
#[allow(inconsistent_fields)]
#[derive(Debug, PartialEq)]
pub enum Expr {
    Number { text: String, span: Option<Span> },
    String { value: String, span: Option<Span> },
    Bool { value: bool, span: Option<Span> },
    Null { span: Option<Span> },
    StringModifier { modifier: String, value: String, span: Option<Span> },
    Local { name: String, span: Option<Span> },
    Enum { value_type: String, value: String, span: Option<Span> },
    GlobalVar { name: String, span: Option<Span> },
    HostPlayer { span: Option<Span> },
    EventPlayer { span: Option<Span> },
    Constant { name: String, span: Option<Span> },
    MacroParam { name: String, span: Option<Span> },
    Array { elements: Vec<Expr>, span: Option<Span> },
    Call { name: String, args: Vec<Expr>, debug_source: Option<String>, span: Option<Span> },
    MacroCall { name: String, args: Vec<Expr>, span: Option<Span> },
    Type { name: String, args: Vec<Expr>, span: Option<Span> },
    Format { text: String, args: Vec<Expr>, span: Option<Span> },
    Dict { entries: Vec<DictEntry>, span: Option<Span> },
    Comprehension {
        element: Box<Expr>,
        variable: String,
        variable_span: Option<Span>,
        index: Option<String>,
        index_span: Option<Span>,
        iterable: Box<Expr>,
        condition: Option<Box<Expr>>,
        span: Option<Span>,
    },
    Lambda { params: Vec<String>, param_spans: Vec<Option<Span>>, body: Box<Expr>, span: Option<Span> },
    Vector { x: Box<Expr>, y: Box<Expr>, z: Box<Expr>, span: Option<Span> },
    PlayerVar { player: Box<Expr>, name: String, member_span: Option<Span>, span: Option<Span> },
    Member { receiver: Box<Expr>, member: String, member_span: Option<Span>, span: Option<Span> },
    ReceiverCall { receiver: Box<Expr>, name: String, args: Vec<Expr>, span: Option<Span> },
    Binary { op: String, left: Box<Expr>, right: Box<Expr>, span: Option<Span> },
    Conditional {
        then_value: Box<Expr>,
        condition: Box<Expr>,
        else_value: Box<Expr>,
        span: Option<Span>,
    },
    Unary { op: String, operand: Box<Expr>, span: Option<Span> },
    Index { array: Box<Expr>, index: Box<Expr>, span: Option<Span> },
}

/// One `if`/`elif` branch.
#[derive(Debug, PartialEq)]
pub struct IfBranch {
    pub condition: Box<Expr>,
    pub body: Vec<Stmt>,
}

/// One arm of a `switch`.
#[derive(Debug, PartialEq)]
pub enum SwitchArm {
    Case { value: Box<Expr>, body: Vec<Stmt>, span: Option<Span> },
    Default { body: Vec<Stmt>, span: Option<Span> },
}

/// An OPY statement.
#[derive(Debug, PartialEq)]
pub enum Stmt {
    Expr { expr: Box<Expr>, span: Option<Span> },
    Assign { target: Box<Expr>, value: Box<Expr>, span: Option<Span> },
    If { branches: Vec<IfBranch>, else_body: Option<Vec<Stmt>>, span: Option<Span> },
    For { variable: Box<Expr>, iterable: Box<Expr>, body: Vec<Stmt>, span: Option<Span> },
    While { condition: Box<Expr>, body: Vec<Stmt>, span: Option<Span> },
    DoWhile { condition: Box<Expr>, body: Vec<Stmt>, span: Option<Span> },
    Switch { value: Box<Expr>, arms: Vec<SwitchArm>, span: Option<Span> },
    Delete { target: Box<Expr>, span: Option<Span> },
    Goto { label: Option<String>, offset: Option<Box<Expr>>, rule_start: bool, span: Option<Span> },
    Break { span: Option<Span> },
    Return { span: Option<Span> },
    Continue { span: Option<Span> },
    Label { name: String, span: Option<Span> },
    CallSubroutine { name: String, span: Option<Span> },
    Pass { span: Option<Span> },
}

/// Which optimizations are on.
#[derive(Clone, Copy, Debug, PartialEq, Eq, Structural)]
pub struct OptimizationState {
    pub enabled: bool,
    pub for_size: bool,
    pub for_size_aggressive: bool,
    pub strict: bool,
}

/// What holds from a directive on.
#[derive(Clone, Copy, Debug, PartialEq, Eq, Structural)]
pub struct DirectiveState {
    pub optimization: OptimizationState,
}

/// A `#!directive`, with its optional value and the state from it on.
#[derive(Clone, Debug, PartialEq)]
pub struct Directive {
    pub name: String,
    pub value: Option<String>,
    pub span: Option<Span>,
    pub state: DirectiveState,
}

/// One translatable text: its message id, its context, and its
/// translation into each language that has one.
#[derive(Clone, Debug, PartialEq)]
pub struct TranslationEntry {
    pub msgid: String,
    pub context: Option<String>,
    pub translations: Vec<(String, String)>,
}

/// The program's translations, where it declares any: the languages, the
/// first being the one the program is written in, and the known texts.
#[derive(Clone, Debug, PartialEq)]
pub struct Translations {
    pub span: Option<Span>,
    pub languages: Vec<String>,
    pub entries: Vec<TranslationEntry>,
}

/// What the preprocessor recorded about the program: its directives, the
/// optimizations that hold where no directive says otherwise, those that
/// each source file starts with, and its translations.
#[derive(Clone, Debug, PartialEq)]
pub struct Preprocessing {
    pub directives: Vec<Directive>,
    pub optimization: OptimizationState,
    pub source_file_initial_optimization: Vec<(u32, OptimizationState)>,
    pub translations: Option<Translations>,
}

/// One source file of the program.
#[derive(Clone, Debug, PartialEq)]
pub struct SourceFile {
    pub id: u32,
    pub path: String,
}

/// A top-level declaration.
#[derive(Debug, PartialEq)]
pub enum Declaration {
    GlobalVariable {
        name: String,
        index: Option<u32>,
        span: Option<Span>,
        name_span: Option<Span>,
        initializer: Option<Box<Expr>>,
    },
    PlayerVariable {
        name: String,
        index: Option<u32>,
        span: Option<Span>,
        name_span: Option<Span>,
        initializer: Option<Box<Expr>>,
    },
    Subroutine { name: String, index: Option<u32>, span: Option<Span>, name_span: Option<Span> },
    Constant { name: String, value: Box<Expr>, span: Option<Span> },
    Macro { name: String, args: Vec<String>, body: Vec<Stmt>, span: Option<Span> },
}

/// The event a rule runs on, with its arguments.
#[derive(Debug, PartialEq)]
pub struct Event {
    pub name: String,
    pub args: Vec<Expr>,
}

/// An `@Name` annotation of a rule.
#[derive(Clone, Debug, PartialEq)]
pub struct RuleAnnotation {
    pub name: String,
    pub span: Option<Span>,
}

/// A rule, with its annotations and whether it starts a new page of the
/// editor.
#[derive(Debug, PartialEq)]
pub struct Rule {
    pub name: String,
    pub event: Event,
    pub conditions: Vec<Expr>,
    pub actions: Vec<Stmt>,
    pub annotations: Vec<RuleAnnotation>,
    pub new_page: bool,
    pub span: Option<Span>,
}

/// A rule or the body of a subroutine definition.
#[derive(Debug, PartialEq)]
pub enum RuleEntry {
    Rule(Rule),
    SubroutineDef { name: String, body: Vec<Stmt>, span: Option<Span> },
}

/// One element of a settings list.
#[derive(Clone, Debug, PartialEq)]
pub struct SettingsListElement {
    pub value: String,
    pub span: Option<Span>,
}

/// A node of the custom game settings tree. Numbers keep their spelling.
#[allow(inconsistent_fields)]
#[derive(Debug, PartialEq)]
pub enum SettingsNode {
    Group { name: String, children: Vec<SettingsNode>, span: Option<Span> },
    Number { name: String, value: String, span: Option<Span> },
    Bool { name: String, value: bool, span: Option<Span> },
    String { name: String, value: String, span: Option<Span> },
    Raw { name: String, value: String, span: Option<Span> },
    List { name: String, elements: Vec<SettingsListElement>, span: Option<Span> },
}

/// The custom game settings of the program.
#[derive(Debug, PartialEq)]
pub struct Settings {
    pub span: Option<Span>,
    pub children: Vec<SettingsNode>,
}

/// A resolved OPY program.
#[derive(Debug, PartialEq)]
pub struct ResolvedProgram {
    pub files: Vec<SourceFile>,
    pub declarations: Vec<Declaration>,
    pub rules: Vec<RuleEntry>,
    pub preprocessing: Preprocessing,
    pub settings: Option<Settings>,
}

/// The position of a capital letter in the alphabet.
pub open spec fn letter_rank(c: char) -> int {
    c as int - 'A' as int
}

pub open spec fn is_capital(c: char) -> bool {
    'A' <= c && c <= 'Z'
}

/// The Workshop's default variable names are `A` to `Z`, then `AA` to `DX`,
/// which name the slots 0 to 127 in that order.
pub open spec fn default_var_index_spec(name: Seq<char>) -> Option<u32> {
    if name.len() == 1 && is_capital(name[0]) {
        Some(letter_rank(name[0]) as u32)
    } else if name.len() == 2 && is_capital(name[0]) && is_capital(name[1])
        && 26 + 26 * letter_rank(name[0]) + letter_rank(name[1]) <= 127 {
        Some((26 + 26 * letter_rank(name[0]) + letter_rank(name[1])) as u32)
    } else {
        None
    }
}

/// The slot of a default Workshop variable name, if `name` is one.
pub fn default_var_index(name: &str) -> (r: Option<u32>)
    ensures
        r == default_var_index_spec(name@),
{
    let chars = crate::strings::chars_of(name);
    if chars.len() == 1 && 'A' <= chars[0] && chars[0] <= 'Z' {
        Some(chars[0] as u32 - 'A' as u32)
    } else if chars.len() == 2 && 'A' <= chars[0] && chars[0] <= 'Z' && 'A' <= chars[1]
        && chars[1] <= 'Z' {
        let first = chars[0] as u32 - 'A' as u32;
        let second = chars[1] as u32 - 'A' as u32;
        if 26 + 26 * first + second <= 127 {
            Some(26 + 26 * first + second)
        } else {
            None
        }
    } else {
        None
    }
}

} // verus!
