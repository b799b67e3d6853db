use opy_rs::hir::{Expr, Position, Span};
use opy_rs::implicit::collect_implicit_expr;
use opy_rs::literal_slots::{is_boolean_slot, slot, Slot};
use opy_rs::relocate::relocate_expr;
use opy_rs::text::{canonical_debug_text, case_sensitive};
use opy_rs::workshop_text::normalize_workshop;

fn at(line: u32) -> Span {
    Span { file: 0, start: Position { line, col: 1 }, end: Position { line, col: 2 } }
}

fn sample() -> Expr {
    Expr::Binary {
        op: "+".to_string(),
        left: Box::new(Expr::GlobalVar { name: "A".to_string(), span: Some(at(1)) }),
        right: Box::new(Expr::Array {
            elements: vec![Expr::Number { text: "1".to_string(), span: None }],
            span: Some(at(2)),
        }),
        span: Some(at(3)),
    }
}

#[test]
fn relocating_twice_is_relocating_to_the_last_site() {
    let mut twice = sample();
    relocate_expr(&mut twice, at(10));
    relocate_expr(&mut twice, at(20));
    let mut once = sample();
    relocate_expr(&mut once, at(20));
    assert_eq!(twice, once);
}

#[test]
fn collection_keeps_first_spans_and_adds_undeclared_defaults() {
    let declared = vec!["B".to_string()];
    let mut globals = vec![("A".to_string(), Some(at(7)))];
    let mut players = Vec::new();
    let e = Expr::Binary {
        op: "+".to_string(),
        left: Box::new(Expr::GlobalVar { name: "A".to_string(), span: Some(at(1)) }),
        right: Box::new(Expr::Binary {
            op: "+".to_string(),
            left: Box::new(Expr::GlobalVar { name: "B".to_string(), span: Some(at(2)) }),
            right: Box::new(Expr::GlobalVar { name: "C".to_string(), span: Some(at(3)) }),
            span: None,
        }),
        span: None,
    };
    collect_implicit_expr(&e, &declared, &Vec::new(), &mut globals, &mut players);
    assert_eq!(globals, vec![("A".to_string(), Some(at(7))), ("C".to_string(), Some(at(3)))]);
    assert!(players.is_empty());
}

#[test]
fn boolean_positions_are_boolean_slots() {
    assert!(is_boolean_slot("startForcingThrottle", 6));
    assert!(!is_boolean_slot("startForcingThrottle", 7));
    assert_eq!(slot("startForcingThrottle", 6), Some(Slot::Boolean));
    assert_eq!(slot("subtract", 0), Some(Slot::Boolean));
    assert_eq!(slot("subtract", 1), Some(Slot::TrueOnly));
    assert_eq!(slot("createDummyBot", 2), Some(Slot::Boolean));
    assert_eq!(slot("createDummyBot", 3), Some(Slot::ZeroVectorAsNull));
}

#[test]
fn normalized_text_has_no_returns_or_trailing_blanks() {
    let r = normalize_workshop("a \r\nb\t\r\n\n");
    assert_eq!(r, "a\nb\n");
    assert_eq!(normalize_workshop(" \n\n"), "");
    assert!(!r.contains('\r'));
    assert!(!r.contains(" \n") && !r.contains("\t\n"));
    assert!(r.ends_with('\n') && !r.ends_with("\n\n"));
}

#[test]
fn debug_text_matches_case_sensitive_text_without_ligatures() {
    assert_eq!(canonical_debug_text("abc xyz"), case_sensitive("abc xyz"));
    assert_ne!(canonical_debug_text("x a y"), case_sensitive("x a y"));
}

fn write_back(chunk: &str, indices: &[usize]) -> String {
    let mut out = String::new();
    let mut rest = chunk;
    while let Some(open) = rest.find('{') {
        let Some(close_rel) = rest[open + 1..].find('}') else {
            break;
        };
        let close = open + 1 + close_rel;
        out.push_str(&rest[..open]);
        match rest[open + 1..close].parse::<usize>() {
            Ok(k) => out.push_str(&format!("{{{}}}", indices[k])),
            Err(_) => out.push_str(&rest[open..=close]),
        }
        rest = &rest[close + 1..];
    }
    out.push_str(rest);
    out
}

#[test]
fn format_chunks_written_back_give_the_text() {
    for text in ["a{0}b{1}c{2}d{3}e{0}{x}{", "{4}{3}{2}{1}{0}", "no placeholders {here", ""] {
        let chunks = opy_rs::format_chunks::split_format_chunks(text, 5).expect("every index is an argument");
        let joined: String = chunks.iter().map(|(chunk, indices)| write_back(chunk, indices)).collect();
        assert_eq!(joined, text);
    }
}
