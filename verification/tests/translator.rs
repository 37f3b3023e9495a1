use nlf::translator::{Context, ScopeKind, SymbolTable};
use nlf::ast::{Expression, Program, Statement, StatementKind};
use nlf::errors::{ErrorKind, LanguageError, TranslatorError};
use nlf::lexer::lex;
use nlf::parser::parse;
use nlf::translator::{translate, translate_expression, translate_statement, IRExpression, IRExpressionKind, IRStatement, IRStatementKind};

#[test]
fn a_name_gets_the_next_slot_of_its_scope() {
    let mut t = SymbolTable { map: vec![] };
    assert_eq!(t.set("a", (1, 2)), 0);
    assert_eq!(t.set("b", (3, 4)), 1);
    assert_eq!(t.get("a").unwrap().slot, 0);
    assert_eq!(t.set("a", (5, 6)), 2);
    let a = t.get("a").unwrap();
    assert_eq!((a.slot, a.start, a.end), (2, 5, 6));
    assert_eq!(t.map.len(), 2);
    assert!(t.get("c").is_none());
}

#[test]
fn names_resolve_to_the_innermost_scope_with_their_depth() {
    let mut c = Context::new();
    let x = c.set_with_position("x", (0, 1));
    assert_eq!((x.slot, x.depth, x.name.as_deref()), (0, 0, Some("x")));
    c.set("y");
    c.enter_scope(ScopeKind::Function);
    c.set("x");
    c.enter_scope(ScopeKind::Block);
    let inner_x = c.get("x").unwrap();
    assert_eq!((inner_x.slot, inner_x.depth), (0, 1));
    let y = c.get("y").unwrap();
    assert_eq!((y.slot, y.depth), (1, 2));
    assert!(y.name.is_none());
    assert!(c.get("z").is_none());
    c.exit_scope();
    c.exit_scope();
    let outer_x = c.get("x").unwrap();
    assert_eq!((outer_x.slot, outer_x.depth, outer_x.start, outer_x.end), (0, 0, 0, 1));
}

#[test]
fn a_call_scope_goes_on_from_the_scope_it_names() {
    let mut c = Context::new();
    c.set("g");
    c.enter_scope(ScopeKind::Function);
    c.set("hidden");
    c.enter_scope(ScopeKind::Call(0));
    assert!(c.get("hidden").is_none());
    let g = c.get("g").unwrap();
    assert_eq!((g.slot, g.depth), (0, 1));
}


fn program_of(text: &str) -> Program {
    parse(lex(text.to_string()).unwrap()).unwrap()
}

fn translated(text: &str) -> Vec<IRStatement> {
    translate(program_of(text)).unwrap()
}

fn translator_error(e: &LanguageError) -> &TranslatorError {
    match &e.kind {
        ErrorKind::Translator(t) => t,
        other => panic!("not a translator error: {:?}", other),
    }
}

fn slot_and_depth(e: &IRExpression) -> (usize, usize) {
    match &e.kind {
        IRExpressionKind::Variable(v) => (v.slot, v.depth),
        other => panic!("not a variable: {:?}", other),
    }
}

#[test]
fn definitions_take_consecutive_slots_and_names_resolve_to_them() {
    let ss = translated("let x = 1 let y = x");
    assert_eq!(ss.len(), 2);
    match &ss[0].kind {
        IRStatementKind::Definition(v, _) => assert_eq!((v.slot, v.depth, v.name.as_deref()), (0, 0, Some("x"))),
        other => panic!("{:?}", other),
    }
    match &ss[1].kind {
        IRStatementKind::Definition(v, e) => {
            assert_eq!(v.slot, 1);
            assert_eq!(slot_and_depth(e), (0, 0));
        },
        other => panic!("{:?}", other),
    }
}

#[test]
fn an_unknown_name_is_a_translator_error() {
    let e = translate(program_of("let y = z")).unwrap_err();
    assert!(matches!(translator_error(&e), TranslatorError::UnknownVariable(n) if n == "z"));
    assert!(e.source.is_none());
}

#[test]
fn a_name_used_in_a_branch_is_found_one_scope_out() {
    let ss = translated("let x = 1 if x { x }");
    match &ss[1].kind {
        IRStatementKind::If(cond, inner, _, _, None) => match &inner[0].kind {
            IRStatementKind::Expression(e) => {
                assert_eq!(slot_and_depth(e), (0, 1));
                assert_eq!(slot_and_depth(cond), (0, 0));
            },
            other => panic!("{:?}", other),
        },
        other => panic!("{:?}", other),
    }
}

#[test]
fn a_function_defines_its_name_twice_and_then_its_parameters() {
    let ss = translated("fn f(a) { return a }");
    match &ss[0].kind {
        IRStatementKind::Function(f) => {
            assert_eq!((f.var_ref.slot, f.var_ref.depth), (0, 0));
            assert_eq!(f.arguments.len(), 1);
            assert_eq!(f.arguments[0].slot, 1);
            match &f.statements[0].kind {
                IRStatementKind::Return(e) => assert_eq!(slot_and_depth(e), (1, 0)),
                other => panic!("{:?}", other),
            }
        },
        other => panic!("{:?}", other),
    }
}

#[test]
fn an_operation_on_two_literals_is_kept_as_a_constant_operation() {
    let ss = translated("1 + 2");
    match &ss[0].kind {
        IRStatementKind::Expression(e) => assert!(matches!(&e.kind, IRExpressionKind::Constant(_, _, _))),
        other => panic!("{:?}", other),
    }
    let ss = translated("let a = 1 a + 2");
    match &ss[1].kind {
        IRStatementKind::Expression(e) => assert!(matches!(&e.kind, IRExpressionKind::Binary(_, _, _))),
        other => panic!("{:?}", other),
    }
}

#[test]
fn a_callee_that_is_not_defined_is_kept_as_written() {
    let ss = translated("print(1)");
    match &ss[0].kind {
        IRStatementKind::Expression(e) => match &e.kind {
            IRExpressionKind::CallUntranslated(callee, args) => {
                assert_eq!(args.len(), 1);
                assert!(matches!(&callee.kind, nlf::ast::ExpressionKind::Literal { .. }));
            },
            other => panic!("{:?}", other),
        },
        other => panic!("{:?}", other),
    }
    let e = translate(program_of("print(q)")).unwrap_err();
    assert!(matches!(translator_error(&e), TranslatorError::UnknownVariable(n) if n == "q"));
}

#[test]
fn the_scope_of_a_loop_is_closed_after_it() {
    let mut c = Context::new();
    let st: Statement = program_of("while 1 { let i = 2 }").body.into_iter().next().unwrap();
    let r = translate_statement(st, &mut c).unwrap();
    assert!(matches!(r.kind, IRStatementKind::While(_, _)));
    assert_eq!(c.stack.len(), 1);
    assert!(c.get("i").is_none());
}

#[test]
fn an_expression_is_translated_in_the_context_given() {
    let mut c = Context::new();
    c.set("a");
    c.set("b");
    let e: Expression = match program_of("b").body.into_iter().next().unwrap().kind {
        StatementKind::Expression { expression } => expression,
        other => panic!("{:?}", other),
    };
    let r = translate_expression(e, &mut c).unwrap();
    assert_eq!(slot_and_depth(&r), (1, 0));
}

#[test]
fn imported_names_are_defined_in_order() {
    let ss = translated("import { a, b } from \"lib\" b");
    match &ss[0].kind {
        IRStatementKind::Import(refs, source) => {
            assert_eq!(refs.iter().map(|r| r.slot).collect::<Vec<_>>(), vec![0, 1]);
            assert_eq!(source.value, "lib");
        },
        other => panic!("{:?}", other),
    }
    match &ss[1].kind {
        IRStatementKind::Expression(e) => assert_eq!(slot_and_depth(e), (1, 0)),
        other => panic!("{:?}", other),
    }
}

#[test]
fn a_constructor_sees_its_class_and_self() {
    let ss = translated("class A { A(v) { self } fn m() { m } }");
    match &ss[0].kind {
        IRStatementKind::Class(v, methods, _) => {
            assert_eq!(v.slot, 0);
            assert_eq!(methods.len(), 2);
            assert_eq!(methods[0].arguments[0].slot, 2);
            match &methods[0].statements[0].kind {
                IRStatementKind::Expression(e) => assert_eq!(slot_and_depth(e), (1, 0)),
                other => panic!("{:?}", other),
            }
            match &methods[1].statements[0].kind {
                IRStatementKind::Expression(e) => assert_eq!(slot_and_depth(e), (0, 0)),
                other => panic!("{:?}", other),
            }
        },
        other => panic!("{:?}", other),
    }
}

#[test]
fn translating_statements_one_by_one_gives_what_translating_them_together_gives() {
    let text = "let a = 1 fn f(x) { return a } let b = f(a)";
    let together = translated(text);
    let mut c = Context::new();
    let mut one_by_one = vec![];
    for s in program_of(text).body {
        one_by_one.push(translate_statement(s, &mut c).unwrap());
    }
    assert_eq!(format!("{:?}", together), format!("{:?}", one_by_one));
    assert_eq!(c.stack.len(), 1);
}

#[test]
fn a_member_of_an_undefined_name_is_kept_as_a_callee() {
    let ss = translated("math.max(1, 2)");
    match &ss[0].kind {
        IRStatementKind::Expression(e) => match &e.kind {
            IRExpressionKind::CallUntranslated(callee, args) => {
                assert_eq!(args.len(), 2);
                assert!(matches!(&callee.kind, nlf::ast::ExpressionKind::Member { .. }));
            },
            other => panic!("{:?}", other),
        },
        other => panic!("{:?}", other),
    }
}

#[test]
fn an_assignment_to_a_name_translates_both_sides() {
    let ss = translated("let a = 1 a = a + 1");
    match &ss[1].kind {
        IRStatementKind::Expression(e) => match &e.kind {
            IRExpressionKind::Assignment(l, _, r) => {
                assert_eq!(slot_and_depth(l), (0, 0));
                assert!(matches!(&r.kind, IRExpressionKind::Binary(_, _, _)));
            },
            other => panic!("{:?}", other),
        },
        other => panic!("{:?}", other),
    }
}
