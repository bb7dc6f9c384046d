use pag::surface::{parse_surface_syntax, try_parse_surface_syntax, Expr, Pair, Rule, SurfaceError};
use pag::tree::{Span, SurfaceSyntaxTree};

fn leaf(rule: Rule, start: usize, end: usize) -> Pair {
    Pair { rule, span: Span { start, end }, inner: Vec::new(), grouped: None }
}

fn node(rule: Rule, start: usize, end: usize, inner: Vec<Pair>, grouped: Option<Expr>) -> Pair {
    Pair { rule, span: Span { start, end }, inner, grouped: grouped.map(Box::new) }
}

#[test]
fn character_literal() {
    let src = "'a'";
    let t = parse_surface_syntax(&Expr::Primary(leaf(Rule::character, 0, 3)), src).unwrap();
    assert_eq!(t.span, Span { start: 0, end: 3 });
    match t.node {
        SurfaceSyntaxTree::Char { value } => {
            assert_eq!(value.node, 'a');
            assert_eq!(value.span, Span { start: 0, end: 3 });
        }
        other => panic!("unexpected {:?}", other),
    }
}

#[test]
fn escaped_character_literal() {
    let src = r"'\u{e9}'";
    let t = parse_surface_syntax(&Expr::Primary(leaf(Rule::character, 0, src.len())), src).unwrap();
    assert!(matches!(t.node, SurfaceSyntaxTree::Char { value } if value.node == 'é'));
}

#[test]
fn character_literal_errors() {
    let src = "'ab' '' '\\q'";
    let two = parse_surface_syntax(&Expr::Primary(leaf(Rule::character, 0, 4)), src);
    assert!(matches!(
        two,
        Err(SurfaceError::CharLiteral { empty: false, span: Span { start: 0, end: 4 } })
    ));
    let none = parse_surface_syntax(&Expr::Primary(leaf(Rule::character, 5, 7)), src);
    assert!(matches!(none, Err(SurfaceError::CharLiteral { empty: true, .. })));
    let bad = parse_surface_syntax(&Expr::Primary(leaf(Rule::character, 8, 12)), src);
    assert!(matches!(bad, Err(SurfaceError::InvalidCharacter)));
}

#[test]
fn character_range() {
    let src = "'a'..'z'";
    let p = node(Rule::range, 0, 8, vec![leaf(Rule::character, 0, 3), leaf(Rule::character, 5, 8)], None);
    let t = parse_surface_syntax(&Expr::Primary(p), src).unwrap();
    assert!(matches!(t.node, SurfaceSyntaxTree::Range { start: 'a', end: 'z' }));
    assert_eq!(t.span, Span { start: 0, end: 8 });
}

#[test]
fn range_errors() {
    let src = "'a'..''";
    let missing = node(Rule::range, 0, 7, vec![leaf(Rule::character, 0, 3)], None);
    assert!(matches!(
        parse_surface_syntax(&Expr::Primary(missing), src),
        Err(SurfaceError::ExpectedRangeEnd)
    ));
    let empty = node(Rule::range, 0, 7, vec![leaf(Rule::character, 0, 3), leaf(Rule::character, 5, 7)], None);
    assert!(matches!(
        parse_surface_syntax(&Expr::Primary(empty), src),
        Err(SurfaceError::RangeBound { empty: true })
    ));
    let nothing = node(Rule::range, 0, 7, vec![], None);
    assert!(matches!(
        parse_surface_syntax(&Expr::Primary(nothing), src),
        Err(SurfaceError::ExpectedRangeStart)
    ));
}

#[test]
fn alternative_and_postfix() {
    // 'a' | 'b'+
    let src = "'a'|'b'+";
    let a = Expr::Primary(leaf(Rule::character, 0, 3));
    let b = Expr::Primary(leaf(Rule::character, 4, 7));
    let plus = Expr::Postfix(Box::new(b), leaf(Rule::lexical_plus, 7, 8));
    let e = Expr::Infix(Box::new(a), leaf(Rule::lexical_alternative, 3, 4), Box::new(plus));
    let t = parse_surface_syntax(&e, src).unwrap();
    assert_eq!(t.span, Span { start: 0, end: 8 });
    match t.node {
        SurfaceSyntaxTree::LexicalAlternative { lhs, rhs } => {
            assert!(matches!(lhs.node, SurfaceSyntaxTree::Char { value } if value.node == 'a'));
            assert_eq!(rhs.span, Span { start: 4, end: 8 });
            match rhs.node {
                SurfaceSyntaxTree::LexicalPlus { inner } => {
                    assert!(matches!(inner.node, SurfaceSyntaxTree::Char { value } if value.node == 'b'))
                }
                other => panic!("unexpected {:?}", other),
            }
        }
        other => panic!("unexpected {:?}", other),
    }
}

#[test]
fn sequence_and_star() {
    let src = "x y*";
    let x = Expr::Primary(leaf(Rule::token_id, 0, 1));
    let y = Expr::Primary(leaf(Rule::token_id, 2, 3));
    let star = Expr::Postfix(Box::new(y), leaf(Rule::lexical_star, 3, 4));
    let e = Expr::Infix(Box::new(x), leaf(Rule::lexical_sequence, 1, 2), Box::new(star));
    let t = parse_surface_syntax(&e, src).unwrap();
    match t.node {
        SurfaceSyntaxTree::LexicalSequence { lhs, rhs } => {
            assert!(matches!(lhs.node, SurfaceSyntaxTree::LexicalRuleRef { name } if name.span == Span { start: 0, end: 1 }));
            assert!(matches!(rhs.node, SurfaceSyntaxTree::LexicalStar { .. }));
        }
        other => panic!("unexpected {:?}", other),
    }
}

#[test]
fn operands_out_of_order_give_invalid_span() {
    // A multi-byte character: offset 1 is no character boundary.
    let wide = "é";
    let x = Expr::Primary(leaf(Rule::token_id, 0, 1));
    let y = Expr::Primary(leaf(Rule::token_id, 1, 1));
    let e = Expr::Infix(Box::new(x), leaf(Rule::lexical_sequence, 1, 1), Box::new(y));
    assert!(matches!(parse_surface_syntax(&e, wide), Err(SurfaceError::InvalidSpan)));

    let src = "ab";
    let x = Expr::Primary(leaf(Rule::token_id, 1, 2));
    let y = Expr::Primary(leaf(Rule::token_id, 0, 0));
    let e = Expr::Infix(Box::new(x), leaf(Rule::lexical_sequence, 1, 1), Box::new(y));
    assert!(matches!(parse_surface_syntax(&e, src), Err(SurfaceError::InvalidSpan)));
}

#[test]
fn left_error_comes_first() {
    let src = "'' ''";
    let x = Expr::Primary(leaf(Rule::character, 0, 2));
    let y = Expr::Primary(leaf(Rule::character, 3, 5));
    let e = Expr::Infix(Box::new(x), leaf(Rule::lexical_sequence, 2, 3), Box::new(y));
    assert!(matches!(
        parse_surface_syntax(&e, src),
        Err(SurfaceError::CharLiteral { span: Span { start: 0, end: 2 }, .. })
    ));
}

#[test]
fn definitions_tokens_and_lexer() {
    // DIGIT = '0'..'9'; NUM = DIGIT+;
    let src = "DIGIT='0'..'9';NUM=DIGIT+;";
    let range = node(Rule::range, 6, 14, vec![leaf(Rule::character, 6, 9), leaf(Rule::character, 11, 14)], None);
    let def_expr = node(Rule::lexical_expr, 6, 14, vec![], Some(Expr::Primary(range)));
    let def = node(Rule::lexical_definition, 0, 15, vec![leaf(Rule::token_id, 0, 5), def_expr], None);
    let digit = leaf(Rule::token_id, 19, 24);
    let plus = leaf(Rule::lexical_plus, 24, 25);
    let tok_expr = node(
        Rule::lexical_expr,
        19,
        25,
        vec![],
        Some(Expr::Postfix(Box::new(Expr::Primary(digit)), plus)),
    );
    let tok = node(Rule::active_token, 15, 26, vec![leaf(Rule::token_id, 15, 18), tok_expr], None);
    let rules = node(Rule::EOI, 0, 26, vec![def, tok], None);
    let lexer = node(Rule::lexer_def, 0, 26, vec![rules], None);
    let t = parse_surface_syntax(&Expr::Primary(lexer), src).unwrap();
    match t.node {
        SurfaceSyntaxTree::Lexer { rules } => {
            assert_eq!(rules.len(), 2);
            match &rules[0].node {
                SurfaceSyntaxTree::LexicalDefinition { name, expr } => {
                    assert_eq!(name.span, Span { start: 0, end: 5 });
                    assert!(matches!(expr.node, SurfaceSyntaxTree::Range { start: '0', end: '9' }));
                }
                other => panic!("unexpected {:?}", other),
            }
            match &rules[1].node {
                SurfaceSyntaxTree::LexicalToken { active, name, expr } => {
                    assert!(*active);
                    assert_eq!(name.span, Span { start: 15, end: 18 });
                    assert!(matches!(expr.node, SurfaceSyntaxTree::LexicalPlus { .. }));
                }
                other => panic!("unexpected {:?}", other),
            }
        }
        other => panic!("unexpected {:?}", other),
    }
}

#[test]
fn silent_token_and_missing_parts() {
    let src = "A=B;";
    let tok_expr = node(Rule::lexical_expr, 2, 3, vec![], Some(Expr::Primary(leaf(Rule::token_id, 2, 3))));
    let tok = node(Rule::silent_token, 0, 4, vec![leaf(Rule::token_id, 0, 1), tok_expr], None);
    let t = parse_surface_syntax(&Expr::Primary(tok), src).unwrap();
    assert!(matches!(t.node, SurfaceSyntaxTree::LexicalToken { active: false, .. }));

    let no_expr = node(Rule::silent_token, 0, 4, vec![leaf(Rule::token_id, 0, 1)], None);
    assert!(matches!(
        parse_surface_syntax(&Expr::Primary(no_expr), src),
        Err(SurfaceError::ExpectedTokenExpr)
    ));
    let no_name = node(Rule::lexical_definition, 0, 4, vec![], None);
    assert!(matches!(
        parse_surface_syntax(&Expr::Primary(no_name), src),
        Err(SurfaceError::ExpectedDefinitionName)
    ));
    let no_rules = node(Rule::lexer_def, 0, 4, vec![], None);
    assert!(matches!(
        parse_surface_syntax(&Expr::Primary(no_rules), src),
        Err(SurfaceError::ExpectedLexerRules)
    ));
    let no_parser = node(Rule::grammar, 0, 4, vec![leaf(Rule::token_id, 0, 1)], None);
    assert!(matches!(
        parse_surface_syntax(&Expr::Primary(no_parser), src),
        Err(SurfaceError::ExpectedParserPart)
    ));
    let no_lexer = node(Rule::grammar, 0, 4, vec![], None);
    assert!(matches!(
        parse_surface_syntax(&Expr::Primary(no_lexer), src),
        Err(SurfaceError::ExpectedLexerPart)
    ));
}

#[test]
fn grammar_of_two_parts() {
    let src = "a b";
    let g = node(Rule::grammar, 0, 3, vec![leaf(Rule::token_id, 0, 1), leaf(Rule::token_id, 2, 3)], None);
    let t = parse_surface_syntax(&Expr::Primary(g), src).unwrap();
    match t.node {
        SurfaceSyntaxTree::Grammar { lexer, parser } => {
            assert_eq!(lexer.span, Span { start: 0, end: 1 });
            assert_eq!(parser.span, Span { start: 2, end: 3 });
        }
        other => panic!("unexpected {:?}", other),
    }
}

#[test]
fn first_failing_lexer_rule_stops_the_list() {
    let src = "'' ''";
    let rules = node(Rule::EOI, 0, 5, vec![leaf(Rule::character, 0, 2), leaf(Rule::character, 3, 5)], None);
    let lexer = node(Rule::lexer_def, 0, 5, vec![rules], None);
    assert!(matches!(
        parse_surface_syntax(&Expr::Primary(lexer), src),
        Err(SurfaceError::CharLiteral { span: Span { start: 0, end: 2 }, .. })
    ));
}

#[test]
fn remaining_missing_parts() {
    let src = "A=B;'ab'";
    let no_expr = node(Rule::lexical_definition, 0, 4, vec![leaf(Rule::token_id, 0, 1)], None);
    assert!(matches!(
        parse_surface_syntax(&Expr::Primary(no_expr), src),
        Err(SurfaceError::ExpectedDefinitionExpr)
    ));
    let no_name = node(Rule::active_token, 0, 4, vec![], None);
    assert!(matches!(
        parse_surface_syntax(&Expr::Primary(no_name), src),
        Err(SurfaceError::ExpectedTokenName)
    ));
    let long = node(Rule::range, 4, 8, vec![leaf(Rule::character, 4, 8), leaf(Rule::character, 4, 8)], None);
    assert!(matches!(
        parse_surface_syntax(&Expr::Primary(long), src),
        Err(SurfaceError::RangeBound { empty: false })
    ));
}

#[test]
fn error_inside_a_definition_is_passed_on() {
    let src = "A='';";
    let expr = node(Rule::lexical_expr, 2, 4, vec![], Some(Expr::Primary(leaf(Rule::character, 2, 4))));
    let def = node(Rule::lexical_definition, 0, 5, vec![leaf(Rule::token_id, 0, 1), expr], None);
    assert!(matches!(
        parse_surface_syntax(&Expr::Primary(def), src),
        Err(SurfaceError::CharLiteral { empty: true, span: Span { start: 2, end: 4 } })
    ));
}

#[test]
fn unsupported_constructs_give_up() {
    let src = "'a'? !'a' a b";
    let a = || Expr::Primary(leaf(Rule::character, 0, 3));
    let optional = Expr::Postfix(Box::new(a()), leaf(Rule::lexical_optional, 3, 4));
    assert!(try_parse_surface_syntax(&optional, src).is_none());
    let not = Expr::Prefix(leaf(Rule::lexical_not, 5, 6), Box::new(Expr::Primary(leaf(Rule::character, 6, 9))));
    assert!(try_parse_surface_syntax(&not, src).is_none());
    let unquoted = Expr::Primary(leaf(Rule::character, 10, 11));
    assert!(try_parse_surface_syntax(&unquoted, src).is_none());
    let no_group = Expr::Primary(leaf(Rule::lexical_expr, 0, 3));
    assert!(try_parse_surface_syntax(&no_group, src).is_none());
    let operator_rule = Expr::Primary(leaf(Rule::parser_star, 0, 1));
    assert!(try_parse_surface_syntax(&operator_rule, src).is_none());
}

#[test]
fn an_error_before_an_unsupported_operand_is_no_error() {
    // the right operand gives up, so the whole expression does, whatever the left gives
    let src = "''|'b'?";
    let bad = Expr::Primary(leaf(Rule::character, 0, 2));
    let opt = Expr::Postfix(Box::new(Expr::Primary(leaf(Rule::character, 3, 6))), leaf(Rule::lexical_optional, 6, 7));
    let e = Expr::Infix(Box::new(bad), leaf(Rule::lexical_alternative, 2, 3), Box::new(opt));
    assert!(try_parse_surface_syntax(&e, src).is_none());
}

#[test]
fn supported_constructs_agree_with_the_guarded_entry() {
    let src = "'a'";
    let e = Expr::Primary(leaf(Rule::character, 0, 3));
    match try_parse_surface_syntax(&e, src) {
        Some(Ok(t)) => assert!(matches!(t.node, SurfaceSyntaxTree::Char { value } if value.node == 'a')),
        other => panic!("unexpected {:?}", other),
    }
    let src = "''";
    let e = Expr::Primary(leaf(Rule::character, 0, 2));
    assert!(matches!(
        try_parse_surface_syntax(&e, src),
        Some(Err(SurfaceError::CharLiteral { empty: true, .. }))
    ));
}
