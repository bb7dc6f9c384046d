use pag::core_syntax::{Error, Symbol, Term};
use pag::syntax::{construct_parser, try_construct_parser, LexerDatabase};
use pag::tree::{Span, SurfaceSyntaxTree, WithSpan};

fn sp(start: usize, end: usize) -> Span {
    Span { start, end }
}

fn name(start: usize, end: usize) -> WithSpan<()> {
    WithSpan { span: sp(start, end), node: () }
}

fn tree(start: usize, end: usize, node: SurfaceSyntaxTree) -> WithSpan<SurfaceSyntaxTree> {
    WithSpan { span: sp(start, end), node }
}

fn rule_ref(start: usize, end: usize) -> WithSpan<SurfaceSyntaxTree> {
    tree(start, end, SurfaceSyntaxTree::ParserRuleRef { name: name(start, end) })
}

fn token_ref(start: usize, end: usize) -> WithSpan<SurfaceSyntaxTree> {
    tree(start, end, SurfaceSyntaxTree::LexicalRuleRef { name: name(start, end) })
}

fn def(start: usize, end: usize, n: WithSpan<()>, expr: WithSpan<SurfaceSyntaxTree>) -> WithSpan<SurfaceSyntaxTree> {
    tree(start, end, SurfaceSyntaxTree::ParserDefinition { active: true, name: n, expr: Box::new(expr) })
}

fn lexer(names: &[(&str, u64)]) -> LexerDatabase {
    let mut db = LexerDatabase::new();
    for (n, id) in names {
        db.insert(n.to_string(), Symbol { id: *id });
    }
    db
}

fn parser_tree(entry: WithSpan<()>, rules: Vec<WithSpan<SurfaceSyntaxTree>>) -> WithSpan<SurfaceSyntaxTree> {
    tree(0, 0, SurfaceSyntaxTree::Parser { entrypoint: entry, rules })
}

#[test]
fn resolves_rule_and_token_names() {
    let src = "s=t;t=U;";
    let sst = parser_tree(
        name(0, 1),
        vec![
            def(0, 4, name(0, 1), rule_ref(2, 3)),
            tree(4, 8, SurfaceSyntaxTree::ParserDefinition { active: false, name: name(4, 5), expr: Box::new(token_ref(6, 7)) }),
        ],
    );
    let p = construct_parser(lexer(&[("U", 40)]), &sst, src).unwrap();
    assert_eq!(p.entrypoint, Symbol { id: 0 });
    assert_eq!(p.symbol_table.len(), 2);
    assert_eq!(p.symbol_table[0].name, "s");
    assert_eq!(p.symbol_table[0].symbol.node, Symbol { id: 0 });
    assert_eq!(p.symbol_table[1].name, "t");
    assert_eq!(p.symbol_table[1].symbol.span, sp(4, 5));
    assert_eq!(p.bindings.len(), 2);
    let s = &p.bindings[&0];
    assert!(s.active);
    assert_eq!(s.term.span, sp(0, 4));
    assert!(matches!(s.term.node, Term::ParserRef(Symbol { id: 1 })));
    let t = &p.bindings[&1];
    assert!(!t.active);
    assert!(matches!(t.term.node, Term::LexerRef(Symbol { id: 40 })));
}

#[test]
fn fixpoints_optional_and_constants() {
    let src = "e=e?|_;";
    let body = tree(
        2,
        6,
        SurfaceSyntaxTree::ParserAlternative {
            lhs: Box::new(tree(2, 4, SurfaceSyntaxTree::ParserOptional { inner: Box::new(rule_ref(2, 3)) })),
            rhs: Box::new(tree(5, 6, SurfaceSyntaxTree::Bottom)),
        },
    );
    let sst = parser_tree(
        name(0, 1),
        vec![tree(0, 7, SurfaceSyntaxTree::ParserFixpoint { active: true, name: name(0, 1), expr: Box::new(body) })],
    );
    let p = construct_parser(lexer(&[]), &sst, src).unwrap();
    let e = &p.bindings[&0];
    assert_eq!(e.term.span, sp(0, 7));
    match &e.term.node {
        Term::Fix(Symbol { id: 0 }, inner) => match &inner.node {
            Term::Alternative(l, r) => {
                assert!(matches!(r.node, Term::Bottom));
                match &l.node {
                    Term::Alternative(a, eps) => {
                        assert!(matches!(a.node, Term::ParserRef(Symbol { id: 0 })));
                        assert!(matches!(eps.node, Term::Epsilon));
                        assert_eq!(eps.span, sp(2, 4));
                    }
                    other => panic!("unexpected {:?}", other),
                }
            }
            other => panic!("unexpected {:?}", other),
        },
        other => panic!("unexpected {:?}", other),
    }
}

#[test]
fn sequence_and_empty() {
    let src = "a=b c;b=();c=();";
    let seq = tree(2, 5, SurfaceSyntaxTree::ParserSequence { lhs: Box::new(rule_ref(2, 3)), rhs: Box::new(rule_ref(4, 5)) });
    let sst = parser_tree(
        name(0, 1),
        vec![
            def(0, 6, name(0, 1), seq),
            def(6, 11, name(6, 7), tree(8, 10, SurfaceSyntaxTree::Empty)),
            def(11, 16, name(11, 12), tree(13, 15, SurfaceSyntaxTree::Empty)),
        ],
    );
    let p = construct_parser(lexer(&[]), &sst, src).unwrap();
    assert!(matches!(&p.bindings[&0].term.node, Term::Sequence(l, r)
        if matches!(l.node, Term::ParserRef(Symbol { id: 1 })) && matches!(r.node, Term::ParserRef(Symbol { id: 2 }))));
    assert!(matches!(p.bindings[&1].term.node, Term::Epsilon));
}

#[test]
fn undefined_entry_point() {
    let src = "x a=();";
    let sst = parser_tree(name(0, 1), vec![def(2, 7, name(2, 3), tree(4, 6, SurfaceSyntaxTree::Empty))]);
    let errs = construct_parser(lexer(&[]), &sst, src).unwrap_err();
    assert_eq!(errs.len(), 1);
    assert_eq!(errs[0].span, sp(0, 1));
    assert_eq!(errs[0].node, Error::UndefinedParserRuleReference { name: sp(0, 1) });
}

#[test]
fn every_undefined_name_is_reported() {
    let src = "a=x|Y;";
    let alt = tree(2, 5, SurfaceSyntaxTree::ParserAlternative { lhs: Box::new(rule_ref(2, 3)), rhs: Box::new(token_ref(4, 5)) });
    let sst = parser_tree(name(0, 1), vec![def(0, 6, name(0, 1), alt)]);
    let errs = construct_parser(lexer(&[]), &sst, src).unwrap_err();
    assert_eq!(errs.len(), 2);
    assert_eq!(errs[0].node, Error::UndefinedParserRuleReference { name: sp(2, 3) });
    assert_eq!(errs[0].span, sp(2, 3));
    assert_eq!(errs[1].node, Error::UndefinedLexicalReference { name: sp(4, 5) });
}

#[test]
fn duplicate_definition_is_reported_first() {
    let src = "a=();a=();";
    let sst = parser_tree(
        name(0, 1),
        vec![
            def(0, 5, name(0, 1), tree(2, 4, SurfaceSyntaxTree::Empty)),
            def(5, 10, name(5, 6), tree(7, 9, SurfaceSyntaxTree::Bottom)),
        ],
    );
    let errs = construct_parser(lexer(&[]), &sst, src).unwrap_err();
    assert_eq!(errs.len(), 1);
    assert_eq!(errs[0].span, sp(5, 6));
    assert_eq!(errs[0].node, Error::MultipleDefinition { previous: sp(0, 1) });
}

#[test]
fn errors_of_all_rules_are_collected() {
    let src = "a=b;b=q;c=r;";
    let sst = parser_tree(
        name(0, 1),
        vec![
            def(0, 4, name(0, 1), rule_ref(2, 3)),
            def(4, 8, name(4, 5), rule_ref(6, 7)),
            def(8, 12, name(8, 9), token_ref(10, 11)),
        ],
    );
    let errs = construct_parser(lexer(&[]), &sst, src).unwrap_err();
    assert_eq!(errs.len(), 2);
    assert_eq!(errs[0].node, Error::UndefinedParserRuleReference { name: sp(6, 7) });
    assert_eq!(errs[1].node, Error::UndefinedLexicalReference { name: sp(10, 11) });
}

#[test]
fn lexer_database_keeps_one_symbol_per_name() {
    let mut db = LexerDatabase::new();
    assert_eq!(db.insert("A".to_string(), Symbol { id: 1 }), None);
    assert_eq!(db.insert("B".to_string(), Symbol { id: 2 }), None);
    assert_eq!(db.insert("A".to_string(), Symbol { id: 3 }), Some(Symbol { id: 1 }));
    assert_eq!(db.get(&"A".to_string()), Some(Symbol { id: 3 }));
    assert_eq!(db.get(&"B".to_string()), Some(Symbol { id: 2 }));
    assert_eq!(db.get(&"C".to_string()), None);
}

#[test]
fn unsupported_parser_constructs_give_up() {
    let src = "s=t*;t=_;";
    let star = tree(2, 4, SurfaceSyntaxTree::ParserStar { inner: Box::new(rule_ref(2, 3)) });
    let sst = parser_tree(name(0, 1), vec![def(0, 5, name(0, 1), star), def(5, 9, name(5, 6), tree(7, 8, SurfaceSyntaxTree::Bottom))]);
    assert!(try_construct_parser(lexer(&[]), &sst, src).is_none());
    let not_a_parser = tree(0, 1, SurfaceSyntaxTree::Bottom);
    assert!(try_construct_parser(lexer(&[]), &not_a_parser, src).is_none());
}

#[test]
fn a_new_name_after_a_repeated_one_gives_up() {
    // `s` is defined twice; `t`, after the repeat, is not in the table, yet its body translates
    let src = "s=_;s=_;t=_;";
    let sst = parser_tree(
        name(0, 1),
        vec![
            def(0, 4, name(0, 1), tree(2, 3, SurfaceSyntaxTree::Bottom)),
            def(4, 8, name(4, 5), tree(6, 7, SurfaceSyntaxTree::Bottom)),
            def(8, 12, name(8, 9), tree(10, 11, SurfaceSyntaxTree::Bottom)),
        ],
    );
    assert!(try_construct_parser(lexer(&[]), &sst, src).is_none());
}

#[test]
fn an_undefined_entry_point_is_reported_before_any_rule_body() {
    // the entry point `x` is undefined: the rule bodies are never translated
    let src = "s=t*;x";
    let star = tree(2, 4, SurfaceSyntaxTree::ParserStar { inner: Box::new(rule_ref(2, 3)) });
    let sst = parser_tree(name(5, 6), vec![def(0, 5, name(0, 1), star)]);
    match try_construct_parser(lexer(&[]), &sst, src) {
        Some(Err(errs)) => {
            assert_eq!(errs.len(), 1);
            assert!(matches!(errs[0].node, Error::UndefinedParserRuleReference { name } if name == sp(5, 6)));
        }
        _ => panic!("expected the undefined entry point"),
    }
}
