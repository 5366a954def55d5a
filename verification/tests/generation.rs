use aql_fsm::ast::ASTNode;
use aql_fsm::ast::BinVerb;
use aql_fsm::cfg::convert;
use aql_fsm::codegen::generate;
use aql_fsm::codegen::generate_actions;
use aql_fsm::codegen::generate_decl;
use aql_fsm::codegen::generate_stmt;
use aql_fsm::codegen::get_binverb;
use aql_fsm::codegen::parse_guards;
use aql_fsm::codegen::reduce_neg;
use aql_fsm::error::CompileError;
use aql_fsm::utils::AQLType;
use aql_fsm::utils::ConversionTable;

fn ident(s: &str) -> ASTNode {
    ASTNode::Ident(String::from(s))
}

fn transition(target: &str) -> ASTNode {
    ASTNode::Transition { action: String::from("transition"), ident: Box::new(ident(target)) }
}

fn assignment(name: &str, expr: ASTNode) -> ASTNode {
    ASTNode::Assignment { name: String::from(name), expr: Box::new(expr) }
}

fn structure(kind: &str, name: &str, stmts: Vec<ASTNode>) -> ASTNode {
    ASTNode::Declaration(Box::new(ASTNode::StructureDeclaration {
        s_type: String::from(kind),
        name: String::from(name),
        statement: Box::new(ASTNode::Block(stmts)),
    }))
}

fn var_decl(ty: &str, name: &str, init: Option<ASTNode>) -> ASTNode {
    ASTNode::VariableDeclaration {
        typed_identifier: Box::new(ASTNode::TypedIdentifier {
            aql_type: String::from(ty),
            variable: String::from(name),
        }),
        expr: init.map(Box::new),
    }
}

fn binop(verb: BinVerb, l: &str, r: &str) -> ASTNode {
    ASTNode::BinOp { verb, lhs: Box::new(ident(l)), rhs: Box::new(ident(r)) }
}

fn neg(v: BinVerb) -> BinVerb {
    BinVerb::Neg(Box::new(v))
}

#[test]
fn negation_is_involutive_for_comparisons() {
    let verbs = vec![
        BinVerb::SmallerThan,
        BinVerb::LargerThan,
        BinVerb::SmallerOrEqual,
        BinVerb::LargerOrEqual,
        BinVerb::Equal,
        BinVerb::NotEqual,
    ];
    for v in verbs {
        let doubly = neg(neg(v.clone()));
        assert_eq!(reduce_neg(&doubly), Ok(v.clone()));
        let once = reduce_neg(&neg(v.clone())).unwrap();
        assert_eq!(reduce_neg(&neg(once)), Ok(v));
    }
}

#[test]
fn negation_complements_each_comparison() {
    assert_eq!(reduce_neg(&neg(BinVerb::SmallerThan)), Ok(BinVerb::LargerOrEqual));
    assert_eq!(reduce_neg(&neg(BinVerb::LargerThan)), Ok(BinVerb::SmallerOrEqual));
    assert_eq!(reduce_neg(&neg(BinVerb::SmallerOrEqual)), Ok(BinVerb::LargerThan));
    assert_eq!(reduce_neg(&neg(BinVerb::LargerOrEqual)), Ok(BinVerb::SmallerThan));
    assert_eq!(reduce_neg(&neg(BinVerb::Equal)), Ok(BinVerb::NotEqual));
    assert_eq!(reduce_neg(&neg(BinVerb::NotEqual)), Ok(BinVerb::Equal));
}

#[test]
fn negating_an_arithmetic_verb_is_unsupported() {
    assert_eq!(reduce_neg(&neg(BinVerb::Plus)), Err(CompileError::UnsupportedVerb));
    assert_eq!(reduce_neg(&BinVerb::Times), Ok(BinVerb::Times));
}

#[test]
fn comparison_symbols_are_canonical() {
    assert_eq!(get_binverb(&BinVerb::SmallerThan).unwrap(), String::from("ult"));
    assert_eq!(get_binverb(&BinVerb::LargerThan).unwrap(), String::from("ugt"));
    assert_eq!(get_binverb(&BinVerb::SmallerOrEqual).unwrap(), String::from("ule"));
    assert_eq!(get_binverb(&BinVerb::LargerOrEqual).unwrap(), String::from("uge"));
    assert_eq!(get_binverb(&BinVerb::Equal).unwrap(), String::from("eq"));
    assert_eq!(get_binverb(&BinVerb::NotEqual).unwrap(), String::from("ne"));
    assert_eq!(get_binverb(&neg(BinVerb::SmallerThan)).unwrap(), String::from("uge"));
    assert_eq!(get_binverb(&BinVerb::Xor), Err(CompileError::UnsupportedVerb));
}

#[test]
fn conversion_table_maps_the_fixed_names() {
    let tbs = ConversionTable::new();
    assert!(matches!(tbs.convert(&String::from("bool")), Ok(AQLType::Base(t)) if t == "i1"));
    assert!(matches!(tbs.convert(&String::from("int")), Ok(AQLType::Base(t)) if t == "i32"));
    assert!(matches!(tbs.convert(&String::from("i32")), Ok(AQLType::Base(t)) if t == "i32"));
    assert!(matches!(tbs.convert(&String::from("i64")), Ok(AQLType::Base(t)) if t == "i64"));
    assert!(matches!(
        tbs.convert(&String::from("element_ordering")),
        Ok(AQLType::Ordering)
    ));
    assert!(matches!(
        tbs.convert(&String::from(" i64 ")),
        Ok(AQLType::Base(t)) if t == "i64"
    ));
    assert!(matches!(
        tbs.convert(&String::from("widget")),
        Err(CompileError::UnknownType)
    ));
}

#[test]
fn ordering_constant_fifo_renders_zero() {
    let tbs = ConversionTable::new();
    let decl = var_decl(
        "element_ordering",
        "order",
        Some(ASTNode::ConstVal(String::from("FIFO"))),
    );
    let line = generate_decl(&decl, &tbs).unwrap();
    assert_eq!(
        line,
        String::from("%order = fsm.variable \"order\" {initValue = 0 : i32 } : i32")
    );
}

#[test]
fn ordering_constant_hash_renders_one() {
    let tbs = ConversionTable::new();
    let decl = var_decl(
        "element_ordering",
        "order",
        Some(ASTNode::ConstVal(String::from("Hash"))),
    );
    let line = generate_decl(&decl, &tbs).unwrap();
    assert_eq!(
        line,
        String::from("%order = fsm.variable \"order\" {initValue = 1 : i32 } : i32")
    );
}

#[test]
fn ordering_constant_other_renders_two() {
    let tbs = ConversionTable::new();
    let decl = var_decl(
        "element_ordering",
        "order",
        Some(ASTNode::ConstVal(String::from("STACK"))),
    );
    let line = generate_decl(&decl, &tbs).unwrap();
    assert_eq!(
        line,
        String::from("%order = fsm.variable \"order\" {initValue = 2 : i32 } : i32")
    );
}

#[test]
fn declaration_without_initializer_renders_zero_default() {
    let tbs = ConversionTable::new();
    let line = generate_decl(&var_decl("bool", "flag", None), &tbs).unwrap();
    assert_eq!(
        line,
        String::from("%flag = fsm.variable \"flag\" {initValue = 0 : i1 } : i1")
    );
}

#[test]
fn declaration_of_unknown_type_fails() {
    let tbs = ConversionTable::new();
    let r = generate_decl(&var_decl("widget", "w", None), &tbs);
    assert_eq!(r, Err(CompileError::UnknownType));
}

#[test]
fn value_references_render_with_percent() {
    assert_eq!(generate_stmt(&ident("x")).unwrap(), String::from("%x"));
    let qn = ASTNode::QualifiedName { names: vec![ident("a"), ident("b"), ident("c")] };
    assert_eq!(generate_stmt(&qn).unwrap(), String::from("%a.b.c"));
    assert_eq!(
        generate_stmt(&ASTNode::Integer(1)),
        Err(CompileError::NotImplemented)
    );
}

#[test]
fn guard_block_conjoins_numbered_comparisons() {
    let guards = vec![
        binop(BinVerb::SmallerThan, "a", "b"),
        binop(BinVerb::Equal, "c", "d"),
    ];
    let text = parse_guards(&guards).unwrap();
    let expected = String::from(
        "guard {\n\
         \t\t\t%0 = comb.icmp ult %a, %b : i32\n\
         \t\t\t%1 = comb.icmp eq %c, %d : i32\n\
         \t\t\t%fsm_output = comb.and %0, %1 : i1\n\
         \t\t\tfsm.return %fsm_output\n\t\t}",
    );
    assert_eq!(text, expected);
}

#[test]
fn guard_numbering_reaches_two_decimal_digits() {
    let guards: Vec<ASTNode> =
        (0..11).map(|_| binop(BinVerb::SmallerThan, "a", "b")).collect();
    let text = parse_guards(&guards).unwrap();
    let mut expected = String::from("guard {\n");
    for i in 0..11 {
        expected += &format!("\t\t\t%{} = comb.icmp ult %a, %b : i32\n", i);
    }
    expected += "\t\t\t%fsm_output = comb.and";
    for i in 0..11 {
        expected += &format!(" %{}{}", i, if i != 10 { "," } else { "" });
    }
    expected += " : i1\n\t\t\tfsm.return %fsm_output\n\t\t}";
    assert_eq!(text, expected);
}

#[test]
fn action_block_emits_one_update_per_assignment() {
    let actions = vec![assignment("x", ident("y")), assignment("z", ident("w"))];
    let text = generate_actions(&actions).unwrap();
    let expected = String::from(
        " action {\n\
         \t\t\tfsm.update %x, %y : i32\n\
         \t\t\tfsm.update %z, %w : i32\n\
         \t\t}\n",
    );
    assert_eq!(text, expected);
}

#[test]
fn action_with_integer_right_side_is_not_implemented() {
    let actions = vec![assignment("x", ASTNode::Integer(1))];
    assert_eq!(generate_actions(&actions), Err(CompileError::NotImplemented));
}

#[test]
fn whole_machine_renders_exactly() {
    let ast = ASTNode::Top(vec![
        structure(
            "controller_entry",
            "ctl",
            vec![
                assignment(
                    "init_entry",
                    ASTNode::QualifiedName { names: vec![ident("Ready")] },
                ),
                var_decl("i32", "counter", None),
            ],
        ),
        structure(
            "state",
            "Ready",
            vec![ASTNode::Conditional {
                expr: Box::new(binop(BinVerb::SmallerThan, "a", "b")),
                if_blk: Box::new(ASTNode::Block(vec![transition("Done")])),
                else_blk: Some(Box::new(ASTNode::Block(vec![transition("Ready")]))),
            }],
        ),
    ]);
    let machine = convert(ast).expect("conversion succeeds");
    let text = generate(machine).expect("generation succeeds");
    let expected = String::from(
        "fsm.machine @ctl(%arg0: i1, %arg1: i1) attributes {initialState = \"Ready\"} {\n\
         \t%counter = fsm.variable \"counter\" {initValue = 0 : i32 } : i32\n\
         \tfsm.state @Ready transitions {\n\
         \t\tfsm.transition @Done guard {\n\
         \t\t\t%0 = comb.icmp ult %a, %b : i32\n\
         \t\t\t%fsm_output = comb.and %0 : i1\n\
         \t\t\tfsm.return %fsm_output\n\
         \t\t}\n\
         \t\tfsm.transition @Ready guard {\n\
         \t\t\t%0 = comb.icmp uge %a, %b : i32\n\
         \t\t\t%fsm_output = comb.and %0 : i1\n\
         \t\t\tfsm.return %fsm_output\n\
         \t\t}\n\
         \n\t}\n\n\
         }\n",
    );
    assert_eq!(text, expected);
}

#[test]
fn generation_aborts_on_unsupported_guard_verb() {
    let ast = ASTNode::Top(vec![
        structure(
            "controller_entry",
            "ctl",
            vec![assignment(
                "init_entry",
                ASTNode::QualifiedName { names: vec![ident("s0")] },
            )],
        ),
        structure(
            "state",
            "s0",
            vec![ASTNode::Conditional {
                expr: Box::new(binop(BinVerb::Plus, "a", "b")),
                if_blk: Box::new(ASTNode::Block(vec![transition("A")])),
                else_blk: Some(Box::new(ASTNode::Block(vec![transition("B")]))),
            }],
        ),
    ]);
    let machine = convert(ast).expect("conversion succeeds");
    assert!(matches!(generate(machine), Err(CompileError::UnsupportedVerb)));
}

#[test]
fn generation_aborts_on_unknown_declared_type() {
    let ast = ASTNode::Top(vec![structure(
        "controller_entry",
        "ctl",
        vec![
            assignment(
                "init_entry",
                ASTNode::QualifiedName { names: vec![ident("s0")] },
            ),
            var_decl("widget", "w", None),
        ],
    )]);
    let machine = convert(ast).expect("conversion succeeds");
    assert!(matches!(generate(machine), Err(CompileError::UnknownType)));
}

#[test]
fn base_type_constant_initializer_renders_verbatim() {
    let tbs = ConversionTable::new();
    let decl = var_decl("i32", "x", Some(ASTNode::ConstVal(String::from("5"))));
    let line = generate_decl(&decl, &tbs).unwrap();
    assert_eq!(
        line,
        String::from("%x = fsm.variable \"x\" {initValue = 5 : i32 } : i32")
    );
}
