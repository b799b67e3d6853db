//! The source-like text of an expression that debug output shows.
use vstd::prelude::*;
use crate::hir::{DictEntry, Expr};
use crate::strings::{push_str, string_of};

verus! {

/// A string literal's characters with `\` and `"` escaped by a backslash.
pub open spec fn escaped_quotes(s: Seq<char>) -> Seq<char>
    decreases s.len(),
{
    if s.len() == 0 {
        s
    } else {
        let c = s[0];
        (if c == '\\' {
            seq!['\\', '\\']
        } else if c == '"' {
            seq!['\\', '"']
        } else {
            seq![c]
        }) + escaped_quotes(s.skip(1))
    }
}

/// Names joined with `, `.
pub open spec fn joined_names(names: Seq<String>) -> Seq<char>
    decreases names.len(),
{
    if names.len() == 0 {
        Seq::empty()
    } else if names.len() == 1 {
        names[0]@
    } else {
        names[0]@ + ", "@ + joined_names(names.skip(1))
    }
}

/// The texts of the expressions joined with `sep`.
pub open spec fn joined_texts(es: Seq<Expr>, sep: Seq<char>) -> Seq<char>
    decreases es,
{
    if es.len() == 0 {
        Seq::empty()
    } else if es.len() == 1 {
        debug_text(es[0])
    } else {
        debug_text(es[0]) + sep + joined_texts(es.subrange(1, es.len() as int), sep)
    }
}

/// The texts of the dictionary entries, `key: value`, joined with `, `.
pub open spec fn joined_entries(es: Seq<DictEntry>) -> Seq<char>
    decreases es,
{
    if es.len() == 0 {
        Seq::empty()
    } else {
        let head = debug_text(*es[0].key) + ": "@ + debug_text(*es[0].value);
        if es.len() == 1 {
            head
        } else {
            head + ", "@ + joined_entries(es.subrange(1, es.len() as int))
        }
    }
}

/// The source-like text of an expression.
pub open spec fn debug_text(e: Expr) -> Seq<char>
    decreases e,
{
    match e {
        Expr::Number { text, .. } => text@,
        Expr::String { value, .. } => "\""@ + escaped_quotes(value@) + "\""@,
        Expr::Bool { value, .. } => if value {
            "true"@
        } else {
            "false"@
        },
        Expr::Null { .. } => "null"@,
        Expr::Array { elements, .. } => "["@ + joined_texts(elements@, ", "@) + "]"@,
        Expr::Dict { entries, .. } => "{"@ + joined_entries(entries@) + "}"@,
        Expr::Comprehension { element, variable, iterable, condition, .. } => "["@ + debug_text(
            *element,
        ) + " for "@ + variable@ + " in "@ + debug_text(*iterable) + match condition {
            Some(c) => " if "@ + debug_text(*c),
            None => Seq::empty(),
        } + "]"@,
        Expr::Lambda { params, body, .. } => "lambda "@ + joined_names(params@) + ": "@ + debug_text(
            *body,
        ),
        Expr::StringModifier { modifier, value, .. } => modifier@ + "\""@ + value@ + "\""@,
        Expr::Local { name, .. } => name@,
        Expr::GlobalVar { name, .. } => name@,
        Expr::Constant { name, .. } => name@,
        Expr::MacroParam { name, .. } => name@,
        Expr::Type { name, args, .. } => if args@.len() == 0 {
            name@
        } else {
            name@ + "["@ + joined_texts(args@, ": "@) + "]"@
        },
        Expr::Vector { x, y, z, .. } => "vect("@ + debug_text(*x) + ", "@ + debug_text(*y) + ", "@
            + debug_text(*z) + ")"@,
        Expr::Enum { value_type, value, .. } => value_type@ + "."@ + value@,
        Expr::PlayerVar { player, name, .. } => debug_text(*player) + "."@ + name@,
        Expr::Member { receiver, member, .. } => debug_text(*receiver) + "."@ + member@,
        Expr::EventPlayer { .. } => "eventPlayer"@,
        Expr::HostPlayer { .. } => "hostPlayer"@,
        Expr::Call { name, args, .. } => if name@ == "sorted"@ && args@.len() == 2 {
            "sorted("@ + debug_text(args@[0]) + ", key = "@ + debug_text(args@[1]) + ")"@
        } else {
            name@ + "("@ + joined_texts(args@, ", "@) + ")"@
        },
        Expr::MacroCall { name, args, .. } => name@ + "("@ + joined_texts(args@, ", "@) + ")"@,
        Expr::ReceiverCall { receiver, name, args, .. } => debug_text(*receiver) + "."@ + name@
            + "("@ + joined_texts(args@, ", "@) + ")"@,
        Expr::Binary { op, left, right, .. } => debug_text(*left) + " "@ + op@ + " "@ + debug_text(
            *right,
        ),
        Expr::Conditional { then_value, condition, else_value, .. } => debug_text(*then_value)
            + " if "@ + debug_text(*condition) + " else "@ + debug_text(*else_value),
        Expr::Unary { op, operand, .. } => op@ + " "@ + debug_text(*operand),
        Expr::Index { array, index, .. } => debug_text(*array) + "["@ + debug_text(*index) + "]"@,
        Expr::Format { text, args, .. } => "\""@ + text@ + "\".format("@ + joined_texts(
            args@,
            ", "@,
        ) + ")"@,
    }
}

fn write_escaped(s: &str, out: &mut Vec<char>)
    ensures
        final(out)@ == old(out)@ + escaped_quotes(s@),
{
    let chars = crate::strings::chars_of(s);
    let ghost start = out@;
    let mut i: usize = 0;
    assert(chars@.skip(0) =~= chars@);
    while i < chars.len()
        invariant
            i <= chars@.len(),
            start + escaped_quotes(chars@) == out@ + escaped_quotes(chars@.skip(i as int)),
        decreases chars@.len() - i,
    {
        let ghost before = out@;
        let c = chars[i];
        assert(chars@.skip(i as int).skip(1) =~= chars@.skip(i + 1));
        if c == '\\' {
            out.push('\\');
            out.push('\\');
        } else if c == '"' {
            out.push('\\');
            out.push('"');
        } else {
            out.push(c);
        }
        assert(before + ((if c == '\\' {
            seq!['\\', '\\']
        } else if c == '"' {
            seq!['\\', '"']
        } else {
            seq![c]
        }) + escaped_quotes(chars@.skip(i + 1))) =~= out@ + escaped_quotes(chars@.skip(i + 1)));
        i = i + 1;
    }
    assert(chars@.skip(chars@.len() as int) =~= Seq::<char>::empty());
    assert(out@ + Seq::<char>::empty() =~= out@);
}

fn write_names(names: &Vec<String>, out: &mut Vec<char>)
    ensures
        final(out)@ == old(out)@ + joined_names(names@),
{
    let ghost start = out@;
    let mut i: usize = 0;
    assert(names@.skip(0) =~= names@);
    while i < names.len()
        invariant
            i <= names@.len(),
            start + joined_names(names@) == out@ + (if i == 0 || i >= names@.len() {
                joined_names(names@.skip(i as int))
            } else {
                ", "@ + joined_names(names@.skip(i as int))
            }),
        decreases names@.len() - i,
    {
        let ghost before = out@;
        let ghost rest = names@.skip(i as int);
        if i > 0 {
            push_str(out, ", ");
        }
        push_str(out, names[i].as_str());
        assert(rest.skip(1) =~= names@.skip(i + 1));
        assert(rest[0] == names@[i as int]);
        if i + 1 < names.len() {
            assert(joined_names(rest) == names@[i as int]@ + ", "@ + joined_names(names@.skip(i + 1)));
        } else {
            assert(names@.skip(i + 1).len() == 0);
        }
        assert(out@ + (if i + 1 >= names@.len() {
            joined_names(names@.skip(i + 1))
        } else {
            ", "@ + joined_names(names@.skip(i + 1))
        }) =~= before + (if i == 0 {
            joined_names(rest)
        } else {
            ", "@ + joined_names(rest)
        }));
        i = i + 1;
    }
    assert(names@.skip(names@.len() as int).len() == 0);
    assert(out@ + joined_names(names@.skip(names@.len() as int)) =~= out@);
}

fn write_list(es: &Vec<Expr>, sep: &str, out: &mut Vec<char>)
    ensures
        final(out)@ == old(out)@ + joined_texts(es@, sep@),
    decreases es@, 0nat,
{
    let ghost start = out@;
    let mut i: usize = 0;
    assert(es@.subrange(0, es@.len() as int) =~= es@);
    while i < es.len()
        invariant
            i <= es@.len(),
            start + joined_texts(es@, sep@) == out@ + (if i == 0 || i >= es@.len() {
                joined_texts(es@.subrange(i as int, es@.len() as int), sep@)
            } else {
                sep@ + joined_texts(es@.subrange(i as int, es@.len() as int), sep@)
            }),
        decreases es@.len() - i,
    {
        let ghost before = out@;
        let ghost rest = es@.subrange(i as int, es@.len() as int);
        let ghost next = es@.subrange(i + 1, es@.len() as int);
        if i > 0 {
            push_str(out, sep);
        }
        write_debug(&es[i], out);
        assert(rest.subrange(1, rest.len() as int) =~= next);
        assert(rest[0] == es@[i as int]);
        if i + 1 < es.len() {
            assert(joined_texts(rest, sep@) == debug_text(es@[i as int]) + sep@ + joined_texts(
                next,
                sep@,
            ));
        } else {
            assert(next.len() == 0);
        }
        assert(out@ + (if i + 1 >= es@.len() {
            joined_texts(next, sep@)
        } else {
            sep@ + joined_texts(next, sep@)
        }) =~= before + (if i == 0 {
            joined_texts(rest, sep@)
        } else {
            sep@ + joined_texts(rest, sep@)
        }));
        i = i + 1;
    }
    assert(es@.subrange(es@.len() as int, es@.len() as int).len() == 0);
    assert(out@ + joined_texts(es@.subrange(es@.len() as int, es@.len() as int), sep@) =~= out@);
}

fn write_entries(es: &Vec<DictEntry>, out: &mut Vec<char>, Ghost(outer): Ghost<Expr>)
    requires
        forall|j: int|
            0 <= j < es@.len() ==> decreases_to!(outer => *es@[j].key) && decreases_to!(
                outer => *es@[j].value
            ),
    ensures
        final(out)@ == old(out)@ + joined_entries(es@),
    decreases outer, 0nat,
{
    let ghost start = out@;
    let mut i: usize = 0;
    assert(es@.subrange(0, es@.len() as int) =~= es@);
    while i < es.len()
        invariant
            i <= es@.len(),
            forall|j: int|
                0 <= j < es@.len() ==> decreases_to!(outer => *es@[j].key) && decreases_to!(
                    outer => *es@[j].value
                ),
            start + joined_entries(es@) == out@ + (if i == 0 || i >= es@.len() {
                joined_entries(es@.subrange(i as int, es@.len() as int))
            } else {
                ", "@ + joined_entries(es@.subrange(i as int, es@.len() as int))
            }),
        decreases es@.len() - i,
    {
        let ghost before = out@;
        let ghost rest = es@.subrange(i as int, es@.len() as int);
        let ghost next = es@.subrange(i + 1, es@.len() as int);
        if i > 0 {
            push_str(out, ", ");
        }
        write_debug(&es[i].key, out);
        push_str(out, ": ");
        write_debug(&es[i].value, out);
        assert(rest.subrange(1, rest.len() as int) =~= next);
        assert(rest[0] == es@[i as int]);
        let ghost head = debug_text(*es@[i as int].key) + ": "@ + debug_text(*es@[i as int].value);
        if i + 1 < es.len() {
            assert(joined_entries(rest) == head + ", "@ + joined_entries(next));
        } else {
            assert(next.len() == 0);
            assert(joined_entries(rest) == head);
        }
        assert(out@ + (if i + 1 >= es@.len() {
            joined_entries(next)
        } else {
            ", "@ + joined_entries(next)
        }) =~= before + (if i == 0 {
            joined_entries(rest)
        } else {
            ", "@ + joined_entries(rest)
        }));
        i = i + 1;
    }
    assert(es@.subrange(es@.len() as int, es@.len() as int).len() == 0);
    assert(out@ + joined_entries(es@.subrange(es@.len() as int, es@.len() as int)) =~= out@);
}

fn write_debug(e: &Expr, out: &mut Vec<char>)
    ensures
        final(out)@ == old(out)@ + debug_text(*e),
    decreases *e, 1nat,
{
    let ghost start = out@;
    match e {
        Expr::Number { text, .. } => push_str(out, text.as_str()),
        Expr::String { value, .. } => {
            push_str(out, "\"");
            write_escaped(value.as_str(), out);
            push_str(out, "\"");
        },
        Expr::Bool { value, .. } => {
            if *value {
                push_str(out, "true");
            } else {
                push_str(out, "false");
            }
        },
        Expr::Null { .. } => push_str(out, "null"),
        Expr::Array { elements, .. } => {
            push_str(out, "[");
            write_list(elements, ", ", out);
            push_str(out, "]");
        },
        Expr::Dict { entries, .. } => {
            push_str(out, "{");
            write_entries(entries, out, Ghost(*e));
            push_str(out, "}");
        },
        Expr::Comprehension { element, variable, iterable, condition, .. } => {
            push_str(out, "[");
            write_debug(element, out);
            push_str(out, " for ");
            push_str(out, variable.as_str());
            push_str(out, " in ");
            write_debug(iterable, out);
            match condition {
                Some(c) => {
                    push_str(out, " if ");
                    write_debug(c, out);
                },
                None => {},
            }
            push_str(out, "]");
        },
        Expr::Lambda { params, body, .. } => {
            push_str(out, "lambda ");
            write_names(params, out);
            push_str(out, ": ");
            write_debug(body, out);
        },
        Expr::StringModifier { modifier, value, .. } => {
            push_str(out, modifier.as_str());
            push_str(out, "\"");
            push_str(out, value.as_str());
            push_str(out, "\"");
        },
        Expr::Local { name, .. } => push_str(out, name.as_str()),
        Expr::GlobalVar { name, .. } => push_str(out, name.as_str()),
        Expr::Constant { name, .. } => push_str(out, name.as_str()),
        Expr::MacroParam { name, .. } => push_str(out, name.as_str()),
        Expr::Type { name, args, .. } => {
            push_str(out, name.as_str());
            if args.len() > 0 {
                push_str(out, "[");
                write_list(args, ": ", out);
                push_str(out, "]");
            }
        },
        Expr::Vector { x, y, z, .. } => {
            push_str(out, "vect(");
            write_debug(x, out);
            push_str(out, ", ");
            write_debug(y, out);
            push_str(out, ", ");
            write_debug(z, out);
            push_str(out, ")");
        },
        Expr::Enum { value_type, value, .. } => {
            push_str(out, value_type.as_str());
            push_str(out, ".");
            push_str(out, value.as_str());
        },
        Expr::PlayerVar { player, name, .. } => {
            write_debug(player, out);
            push_str(out, ".");
            push_str(out, name.as_str());
        },
        Expr::Member { receiver, member, .. } => {
            write_debug(receiver, out);
            push_str(out, ".");
            push_str(out, member.as_str());
        },
        Expr::EventPlayer { .. } => push_str(out, "eventPlayer"),
        Expr::HostPlayer { .. } => push_str(out, "hostPlayer"),
        Expr::Call { name, args, .. } => {
            if crate::strings::str_eq(name.as_str(), "sorted") && args.len() == 2 {
                push_str(out, "sorted(");
                write_debug(&args[0], out);
                push_str(out, ", key = ");
                write_debug(&args[1], out);
                push_str(out, ")");
            } else {
                push_str(out, name.as_str());
                push_str(out, "(");
                write_list(args, ", ", out);
                push_str(out, ")");
            }
        },
        Expr::MacroCall { name, args, .. } => {
            push_str(out, name.as_str());
            push_str(out, "(");
            write_list(args, ", ", out);
            push_str(out, ")");
        },
        Expr::ReceiverCall { receiver, name, args, .. } => {
            write_debug(receiver, out);
            push_str(out, ".");
            push_str(out, name.as_str());
            push_str(out, "(");
            write_list(args, ", ", out);
            push_str(out, ")");
        },
        Expr::Binary { op, left, right, .. } => {
            write_debug(left, out);
            push_str(out, " ");
            push_str(out, op.as_str());
            push_str(out, " ");
            write_debug(right, out);
        },
        Expr::Conditional { then_value, condition, else_value, .. } => {
            write_debug(then_value, out);
            push_str(out, " if ");
            write_debug(condition, out);
            push_str(out, " else ");
            write_debug(else_value, out);
        },
        Expr::Unary { op, operand, .. } => {
            push_str(out, op.as_str());
            push_str(out, " ");
            write_debug(operand, out);
        },
        Expr::Index { array, index, .. } => {
            write_debug(array, out);
            push_str(out, "[");
            write_debug(index, out);
            push_str(out, "]");
        },
        Expr::Format { text, args, .. } => {
            push_str(out, "\"");
            push_str(out, text.as_str());
            push_str(out, "\".format(");
            write_list(args, ", ", out);
            push_str(out, ")");
        },
    }
    assert(out@ =~= start + debug_text(*e));
}

/// The source-like text of an expression, as debug output shows it.
pub fn debug_expr_text(expr: &Expr) -> (r: String)
    ensures
        r@ == debug_text(*expr),
{
    let mut out: Vec<char> = Vec::new();
    write_debug(expr, &mut out);
    assert(out@ =~= debug_text(*expr));
    string_of(&out)
}

} // verus!
