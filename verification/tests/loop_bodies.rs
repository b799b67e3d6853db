use opy_rs::hir::Stmt;
use opy_rs::loop_plan::{loop_sequence_plan, LoopStep};

fn pass() -> Stmt {
    Stmt::Pass { span: None }
}

fn goto(label: &str) -> Stmt {
    Stmt::Goto { label: Some(label.to_string()), offset: None, rule_start: false, span: None }
}

fn label(name: &str) -> Stmt {
    Stmt::Label { name: name.to_string(), span: None }
}

#[test]
fn forward_gotos_skip_to_their_label_and_continues_end_the_sequence() {
    let body = vec![pass(), goto("end"), pass(), label("end"), Stmt::Continue { span: None }, pass()];
    assert_eq!(
        loop_sequence_plan(&body, &Vec::new()),
        vec![
            LoopStep::Action(0),
            LoopStep::Jump { at: 1, target: 3 },
            LoopStep::Action(2),
            LoopStep::Continue(4),
            LoopStep::Action(5),
        ]
    );
}

#[test]
fn gotos_to_enclosing_labels_leave_the_loop() {
    let outer = vec!["outer".to_string()];
    assert_eq!(loop_sequence_plan(&vec![goto("outer"), label("x")], &outer), vec![LoopStep::Break(0)]);
    assert_eq!(loop_sequence_plan(&vec![goto("outer"), label("x")], &Vec::new()), vec![LoopStep::Action(0)]);
    assert_eq!(
        loop_sequence_plan(&vec![label("outer"), goto("outer")], &outer),
        vec![LoopStep::Action(1)]
    );
}
