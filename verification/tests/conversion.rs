use aql_fsm::ast::ASTNode;
use aql_fsm::ast::BinVerb;
use aql_fsm::cfg::convert;
use aql_fsm::cfg::Inst;
use aql_fsm::cfg::Scope;
use aql_fsm::cfg::Structure;
use aql_fsm::error::CompileError;

fn ident(s: &str) -> ASTNode {
    ASTNode::Ident(String::from(s))
}

fn transition(target: &str) -> ASTNode {
    ASTNode::Transition { action: String::from("transition"), ident: Box::new(ident(target)) }
}

fn assignment(name: &str, expr: ASTNode) -> ASTNode {
    ASTNode::Assignment { name: String::from(name), expr: Box::new(expr) }
}

fn structure(kind: &str, name: &str, stmts: Vec<ASTNode>) -> ASTNode {
    ASTNode::Declaration(Box::new(ASTNode::StructureDeclaration {
        s_type: String::from(kind),
        name: String::from(name),
        statement: Box::new(ASTNode::Block(stmts)),
    }))
}

fn entry_structure() -> ASTNode {
    structure(
        "controller_entry",
        "ctl",
        vec![assignment(
            "init_entry",
            ASTNode::QualifiedName { names: vec![ident("X"), ident("y")] },
        )],
    )
}

fn cond(c: ASTNode, if_stmts: Vec<ASTNode>, else_stmts: Option<Vec<ASTNode>>) -> ASTNode {
    ASTNode::Conditional {
        expr: Box::new(c),
        if_blk: Box::new(ASTNode::Block(if_stmts)),
        else_blk: else_stmts.map(|v| Box::new(ASTNode::Block(v))),
    }
}

fn binop(verb: BinVerb, l: &str, r: &str) -> ASTNode {
    ASTNode::BinOp { verb, lhs: Box::new(ident(l)), rhs: Box::new(ident(r)) }
}

#[test]
fn entry_resolves_to_first_qualified_component() {
    let ast = ASTNode::Top(vec![entry_structure()]);
    let machine = convert(ast).expect("conversion succeeds");
    assert_eq!(machine.entry, String::from("X"));
    assert_eq!(machine.fsm_name, String::from("ctl"));
}

#[test]
fn if_else_yields_two_guarded_transitions() {
    let guard = binop(BinVerb::SmallerThan, "a", "b");
    let ast = ASTNode::Top(vec![
        entry_structure(),
        structure(
            "state",
            "s0",
            vec![cond(guard.clone(), vec![transition("A")], Some(vec![transition("B")]))],
        ),
    ]);
    let machine = convert(ast).expect("conversion succeeds");
    let state = &machine.cfgs[1];
    assert_eq!(state.next.trans.len(), 2);
    let first = &state.next.trans[0];
    assert_eq!(first.target, String::from("A"));
    assert_eq!(first.guards.as_ref().unwrap().len(), 1);
    assert_eq!(first.guards.as_ref().unwrap()[0], guard);
    assert!(first.actions.is_none());
    let second = &state.next.trans[1];
    assert_eq!(second.target, String::from("B"));
    let negated = ASTNode::BinOp {
        verb: BinVerb::Neg(Box::new(BinVerb::SmallerThan)),
        lhs: Box::new(ident("a")),
        rhs: Box::new(ident("b")),
    };
    assert_eq!(second.guards.as_ref().unwrap().len(), 1);
    assert_eq!(second.guards.as_ref().unwrap()[0], negated);
    assert!(second.actions.is_none());
}

#[test]
fn straight_line_yields_one_transition_with_actions() {
    let ast = ASTNode::Top(vec![
        entry_structure(),
        structure(
            "state",
            "s0",
            vec![assignment("x", ASTNode::Integer(1)), transition("A")],
        ),
    ]);
    let machine = convert(ast).expect("conversion succeeds");
    let state = &machine.cfgs[1];
    assert_eq!(state.next.trans.len(), 1);
    let only = &state.next.trans[0];
    assert_eq!(only.target, String::from("A"));
    assert!(only.guards.is_none());
    let actions = only.actions.as_ref().unwrap();
    assert_eq!(actions.len(), 1);
    assert_eq!(actions[0], assignment("x", ASTNode::Integer(1)));
}

#[test]
fn code_after_both_branches_transition_is_unreachable() {
    let guard = binop(BinVerb::Equal, "c", "d");
    let ast = ASTNode::Top(vec![
        entry_structure(),
        structure(
            "state",
            "s0",
            vec![
                cond(guard, vec![transition("A")], Some(vec![transition("B")])),
                assignment("y", ASTNode::Integer(2)),
                transition("C"),
            ],
        ),
    ]);
    let machine = convert(ast).expect("conversion succeeds");
    let state = &machine.cfgs[1];
    assert_eq!(state.next.trans.len(), 2);
    for t in &state.next.trans {
        assert_ne!(t.target, String::from("C"));
    }
}

#[test]
fn fall_through_after_plain_conditional_is_reachable() {
    let guard = binop(BinVerb::LargerThan, "a", "b");
    let ast = ASTNode::Top(vec![
        entry_structure(),
        structure(
            "state",
            "s0",
            vec![cond(guard.clone(), vec![transition("A")], None), transition("C")],
        ),
    ]);
    let machine = convert(ast).expect("conversion succeeds");
    let state = &machine.cfgs[1];
    assert_eq!(state.next.trans.len(), 2);
    assert_eq!(state.next.trans[0].target, String::from("A"));
    assert_eq!(state.next.trans[1].target, String::from("C"));
    let negated = ASTNode::BinOp {
        verb: BinVerb::Neg(Box::new(BinVerb::LargerThan)),
        lhs: Box::new(ident("a")),
        rhs: Box::new(ident("b")),
    };
    assert_eq!(state.next.trans[1].guards.as_ref().unwrap()[0], negated);
}

#[test]
fn nested_conditionals_conjoin_guards() {
    let outer = binop(BinVerb::SmallerThan, "a", "b");
    let inner = binop(BinVerb::Equal, "c", "d");
    let ast = ASTNode::Top(vec![
        entry_structure(),
        structure(
            "state",
            "s0",
            vec![cond(
                outer.clone(),
                vec![cond(inner.clone(), vec![transition("A")], Some(vec![transition("B")]))],
                Some(vec![transition("C")]),
            )],
        ),
    ]);
    let machine = convert(ast).expect("conversion succeeds");
    let state = &machine.cfgs[1];
    assert_eq!(state.next.trans.len(), 3);
    let to_a = state.next.trans.iter().find(|t| t.target == "A").unwrap();
    let gs = to_a.guards.as_ref().unwrap();
    assert_eq!(gs.len(), 2);
    assert_eq!(gs[0], outer);
    assert_eq!(gs[1], inner);
}

#[test]
fn converging_paths_to_one_target_stay_distinct() {
    let guard = binop(BinVerb::NotEqual, "a", "b");
    let ast = ASTNode::Top(vec![
        entry_structure(),
        structure(
            "state",
            "s0",
            vec![cond(guard.clone(), vec![transition("A")], Some(vec![transition("A")]))],
        ),
    ]);
    let machine = convert(ast).expect("conversion succeeds");
    let state = &machine.cfgs[1];
    assert_eq!(state.next.trans.len(), 2);
    assert_eq!(state.next.trans[0].target, String::from("A"));
    assert_eq!(state.next.trans[1].target, String::from("A"));
    assert_ne!(state.next.trans[0].guards, state.next.trans[1].guards);
}

#[test]
fn missing_entry_without_controller_entry() {
    let ast = ASTNode::Top(vec![structure("state", "s0", vec![transition("A")])]);
    assert!(matches!(convert(ast), Err(CompileError::MissingEntry)));
}

#[test]
fn missing_entry_on_empty_program() {
    let ast = ASTNode::Top(vec![]);
    assert!(matches!(convert(ast), Err(CompileError::MissingEntry)));
}

#[test]
fn missing_entry_when_init_entry_is_not_qualified() {
    let ast = ASTNode::Top(vec![structure(
        "controller_entry",
        "ctl",
        vec![assignment("init_entry", ident("X"))],
    )]);
    assert!(matches!(convert(ast), Err(CompileError::MissingEntry)));
}

#[test]
fn entry_name_is_trimmed_before_matching() {
    let ast = ASTNode::Top(vec![structure(
        "controller_entry",
        "ctl",
        vec![assignment(
            "  init_entry\t",
            ASTNode::QualifiedName { names: vec![ident("Start")] },
        )],
    )]);
    let machine = convert(ast).expect("conversion succeeds");
    assert_eq!(machine.entry, String::from("Start"));
}

#[test]
fn malformed_transition_on_non_identifier_target() {
    let ast = ASTNode::Top(vec![
        entry_structure(),
        structure(
            "state",
            "s0",
            vec![ASTNode::Transition {
                action: String::from("transition"),
                ident: Box::new(ASTNode::Integer(3)),
            }],
        ),
    ]);
    assert!(matches!(convert(ast), Err(CompileError::MalformedTransition)));
}

#[test]
fn malformed_transition_on_unknown_action() {
    let ast = ASTNode::Top(vec![
        entry_structure(),
        structure(
            "state",
            "s0",
            vec![ASTNode::Transition {
                action: String::from("jump"),
                ident: Box::new(ident("A")),
            }],
        ),
    ]);
    assert!(matches!(convert(ast), Err(CompileError::MalformedTransition)));
}

#[test]
fn complete_and_reset_emit_no_edge() {
    let ast = ASTNode::Top(vec![
        entry_structure(),
        structure(
            "state",
            "s0",
            vec![ASTNode::Transition {
                action: String::from("complete"),
                ident: Box::new(ident("A")),
            }],
        ),
        structure(
            "state",
            "s1",
            vec![ASTNode::Transition {
                action: String::from("reset"),
                ident: Box::new(ident("B")),
            }],
        ),
    ]);
    let machine = convert(ast).expect("conversion succeeds");
    assert!(machine.cfgs[1].next.trans.is_empty());
    assert!(machine.cfgs[2].next.trans.is_empty());
}

#[test]
fn unrecognized_structure_kind_is_retained_inert() {
    let ast = ASTNode::Top(vec![
        entry_structure(),
        structure("widget", "w0", vec![assignment("x", ASTNode::Integer(1))]),
    ]);
    let machine = convert(ast).expect("conversion succeeds");
    assert_eq!(machine.cfgs.len(), 2);
    assert_eq!(machine.cfgs[1].scope.label, Structure::Unrecognized);
    assert!(machine.cfgs[1].next.trans.is_empty());
    assert_eq!(machine.cfgs[1].insts.len(), 1);
}

#[test]
fn scope_helpers_describe_kind_and_name() {
    let scope = Scope::from(Structure::State, String::from("s0"));
    assert!(scope.is_structure(&Structure::State));
    assert!(!scope.is_structure(&Structure::Controller));
    let empty = Scope::new();
    assert!(empty.is_structure(&Structure::Unrecognized));
    assert_eq!(empty.name, String::new());
    assert_eq!(scope, Scope::from(Structure::State, String::from("s0")));
}

#[test]
fn machine_lookup_by_scope_and_kind() {
    let ast = ASTNode::Top(vec![
        entry_structure(),
        structure("state", "s0", vec![transition("A")]),
    ]);
    let machine = convert(ast).expect("conversion succeeds");
    let key = Scope::from(Structure::State, String::from("s0"));
    let state = machine.get_cfg(&key).expect("state found");
    assert_eq!(state.scope.name, String::from("s0"));
    assert!(machine.get_cfg(&Scope::from(Structure::State, String::from("zz"))).is_none());
    let by_kind = machine.get_cfg_structure(Structure::ControllerEntry).expect("entry found");
    assert_eq!(by_kind.scope.name, String::from("ctl"));
    assert_eq!(
        machine.get_cfg_name_by_structure(Structure::ControllerEntry),
        String::from("ctl")
    );
    assert_eq!(machine.get_cfg_name_by_structure(Structure::StateQueue), String::new());
}

#[test]
fn direct_declarations_are_recorded_in_order() {
    let decl = ASTNode::VariableDeclaration {
        typed_identifier: Box::new(ASTNode::TypedIdentifier {
            aql_type: String::from("i32"),
            variable: String::from("v"),
        }),
        expr: None,
    };
    let ast = ASTNode::Top(vec![
        entry_structure(),
        structure(
            "controller",
            "c0",
            vec![decl.clone(), assignment("v", ASTNode::Integer(7))],
        ),
    ]);
    let machine = convert(ast).expect("conversion succeeds");
    let ctl = &machine.cfgs[1];
    assert_eq!(ctl.insts.len(), 2);
    let Inst::Stmt(first) = &ctl.insts[0];
    assert_eq!(*first, decl);
    let Inst::Stmt(second) = &ctl.insts[1];
    assert_eq!(*second, assignment("v", ASTNode::Integer(7)));
}
