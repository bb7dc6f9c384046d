//! Building the surface syntax tree of a grammar file from the parse tree that
//! the grammar's parser produces.
use vstd::prelude::*;
use vstd::string::StringSliceAdditionalSpecFns;

use crate::escape::{chars_of, is_quoted, spec_unescape, unescape_qouted, opt_view};
use crate::tree::{
    source_text, span_text, trees_view, tree_view, valid_span, Span, SurfaceSyntaxTree, SyntaxView,
    WithSpan,
};

verus! {

/// The rules of the grammar of grammar files that the surface syntax reads.
#[allow(non_camel_case_types)]
#[derive(Clone, Copy, Debug, PartialEq, Eq, Structural, Hash, PartialOrd, Ord)]
pub enum Rule {
    EOI,
    grammar,
    lexer_def,
    lexical_definition,
    range,
    lexical_expr,
    active_token,
    silent_token,
    character,
    token_id,
    lexical_alternative,
    lexical_sequence,
    lexical_star,
    lexical_plus,
    lexical_optional,
    lexical_repeat,
    lexical_repeat_range,
    lexical_not,
    parser_alternative,
    parser_sequence,
    parser_star,
    parser_plus,
    parser_optional,
    parser_repeat,
    parser_repeat_range,
    parser_not,
}

/// A node of the parse tree: the rule that matched, where, and the nodes it
/// holds. Where the inner nodes form an expression, `grouped` holds them as the
/// operator-precedence parser groups them (binary, postfix and prefix operators
/// applied to their operands).
#[derive(Debug)]
pub struct Pair {
    pub rule: Rule,
    pub span: Span,
    pub inner: Vec<Pair>,
    pub grouped: Option<Box<Expr>>,
}

/// A sequence of nodes as the operator-precedence parser groups it.
#[derive(Debug)]
pub enum Expr {
    Primary(Pair),
    Infix(Box<Expr>, Pair, Box<Expr>),
    Postfix(Box<Expr>, Pair),
    Prefix(Pair, Box<Expr>),
}

/// Why a parse tree has no surface syntax.
#[derive(Debug, Clone, Copy, PartialEq, Eq, Structural)]
pub enum SurfaceError {
    ExpectedLexerPart,
    ExpectedParserPart,
    ExpectedLexerRules,
    ExpectedDefinitionName,
    ExpectedDefinitionExpr,
    ExpectedRangeStart,
    ExpectedRangeEnd,
    ExpectedTokenName,
    ExpectedTokenExpr,
    /// A quoted character holds a malformed escape sequence.
    InvalidCharacter,
    /// A bound of a range is not exactly one character (`empty`: it is none).
    RangeBound { empty: bool },
    /// A character literal, at `span`, is not exactly one character.
    CharLiteral { empty: bool, span: Span },
    /// An operator application whose operands do not delimit a region of the source.
    InvalidSpan,
}

/// The outcome of building a tree: `None` where the construction gives up
/// (an unsupported rule or operator, or a malformed parse tree).
pub type Outcome = Option<Result<WithSpan<SyntaxView>, SurfaceError>>;

/// The rules that the operator-precedence parser treats as operators.
pub open spec fn is_operator(r: Rule) -> bool {
    match r {
        Rule::lexical_alternative | Rule::lexical_sequence | Rule::lexical_star
        | Rule::lexical_plus | Rule::lexical_optional | Rule::lexical_repeat
        | Rule::lexical_repeat_range | Rule::lexical_not | Rule::parser_alternative
        | Rule::parser_sequence | Rule::parser_star | Rule::parser_plus | Rule::parser_optional
        | Rule::parser_repeat | Rule::parser_repeat_range | Rule::parser_not => true,
        _ => false,
    }
}

/// The text of a node.
pub open spec fn pair_text(src: Seq<u8>, p: Pair) -> Option<Seq<char>> {
    if valid_span(src, p.span.start as int, p.span.end as int) {
        Some(span_text(src, p.span.start as int, p.span.end as int))
    } else {
        None
    }
}

/// What a quoted character decodes to.
pub enum QuotedChar {
    Char(char),
    /// A malformed escape sequence.
    Invalid,
    /// Not exactly one character (`true`: none).
    Count(bool),
}

/// The character that a node's quoted text stands for; `None` where its text
/// is not quoted.
pub open spec fn spec_quoted_char(src: Seq<u8>, p: Pair) -> Option<QuotedChar> {
    match pair_text(src, p) {
        None => None,
        Some(t) => if !is_quoted(t) {
            None
        } else {
            match spec_unescape(t.subrange(1, t.len() - 1)) {
                None => Some(QuotedChar::Invalid),
                Some(cs) => if cs.len() == 1 {
                    Some(QuotedChar::Char(cs[0]))
                } else {
                    Some(QuotedChar::Count(cs.len() == 0))
                },
            }
        },
    }
}

pub open spec fn spanned(span: Span, node: SyntaxView) -> WithSpan<SyntaxView> {
    WithSpan { span, node }
}

/// The tree of a sequence of nodes as grouped by the operator-precedence parser.
pub open spec fn spec_expr(src: Seq<u8>, e: Expr) -> Outcome
    decreases e, 0int,
{
    match e {
        Expr::Primary(p) => spec_primary(src, p),
        Expr::Infix(l, op, r) => {
            let lo = spec_expr(src, *l);
            let ro = spec_expr(src, *r);
            if lo is None || ro is None {
                None
            } else if lo->0 is Err {
                lo
            } else if ro->0 is Err {
                ro
            } else {
                let a = lo->0->Ok_0;
                let b = ro->0->Ok_0;
                if !valid_span(src, a.span.start as int, b.span.end as int) {
                    Some(Err(SurfaceError::InvalidSpan))
                } else {
                    let span = Span { start: a.span.start, end: b.span.end };
                    if op.rule == Rule::lexical_alternative {
                        Some(
                            Ok(
                                spanned(
                                    span,
                                    SyntaxView::LexicalAlternative { lhs: Box::new(a), rhs: Box::new(b) },
                                ),
                            ),
                        )
                    } else if op.rule == Rule::lexical_sequence {
                        Some(
                            Ok(
                                spanned(
                                    span,
                                    SyntaxView::LexicalSequence { lhs: Box::new(a), rhs: Box::new(b) },
                                ),
                            ),
                        )
                    } else {
                        None
                    }
                }
            }
        },
        Expr::Postfix(x, op) => {
            let xo = spec_expr(src, *x);
            if xo is None {
                None
            } else if xo->0 is Err {
                xo
            } else {
                let a = xo->0->Ok_0;
                if !valid_span(src, a.span.start as int, op.span.end as int) {
                    Some(Err(SurfaceError::InvalidSpan))
                } else {
                    let span = Span { start: a.span.start, end: op.span.end };
                    if op.rule == Rule::lexical_plus {
                        Some(Ok(spanned(span, SyntaxView::LexicalPlus { inner: Box::new(a) })))
                    } else if op.rule == Rule::lexical_star {
                        Some(Ok(spanned(span, SyntaxView::LexicalStar { inner: Box::new(a) })))
                    } else {
                        None
                    }
                }
            }
        },
        Expr::Prefix(_, _) => None,
    }
}

/// The tree of a single node handed to the operator-precedence parser alone.
pub open spec fn spec_single(src: Seq<u8>, p: Pair) -> Outcome
    decreases p, 2int,
{
    if is_operator(p.rule) {
        None
    } else {
        spec_primary(src, p)
    }
}

/// The tree of the inner nodes of `p`, grouped by the operator-precedence parser.
pub open spec fn spec_grouped(src: Seq<u8>, p: Pair) -> Outcome
    decreases p, 0int,
{
    match p.grouped {
        Some(e) => spec_expr(src, *e),
        None => None,
    }
}

/// The trees of a list of lexer rules, or the first error among them.
pub open spec fn spec_rules(src: Seq<u8>, s: Seq<Pair>) -> Option<
    Result<Seq<WithSpan<SyntaxView>>, SurfaceError>,
>
    decreases s, 0int,
{
    if s.len() == 0 {
        Some(Ok(Seq::empty()))
    } else {
        let first = spec_single(src, s[0]);
        if first is None {
            None
        } else if first->0 is Err {
            Some(Err(first->0->Err_0))
        } else {
            let rest = spec_rules(src, s.drop_first());
            match rest {
                None => None,
                Some(Err(x)) => Some(Err(x)),
                Some(Ok(ts)) => Some(Ok(seq![first->0->Ok_0] + ts)),
            }
        }
    }
}

/// The tree of a definition-like node: its name and grouped expression.
pub open spec fn spec_named(
    src: Seq<u8>,
    p: Pair,
    no_name: SurfaceError,
    no_expr: SurfaceError,
) -> Option<Result<(WithSpan<()>, WithSpan<SyntaxView>), SurfaceError>>
    decreases p, 0int,
{
    if p.inner@.len() < 1 {
        Some(Err(no_name))
    } else if p.inner@.len() < 2 {
        Some(Err(no_expr))
    } else {
        let name = WithSpan { span: p.inner@[0].span, node: () };
        match spec_grouped(src, p.inner@[1]) {
            None => None,
            Some(Err(x)) => Some(Err(x)),
            Some(Ok(t)) => Some(Ok((name, t))),
        }
    }
}

/// The tree of a node that the operator-precedence parser takes as an operand.
pub open spec fn spec_primary(src: Seq<u8>, p: Pair) -> Outcome
    decreases p, 1int,
{
    let span = p.span;
    match p.rule {
        Rule::grammar => {
            if p.inner@.len() < 1 {
                Some(Err(SurfaceError::ExpectedLexerPart))
            } else if p.inner@.len() < 2 {
                Some(Err(SurfaceError::ExpectedParserPart))
            } else {
                let lo = spec_single(src, p.inner@[0]);
                if lo is None || lo->0 is Err {
                    lo
                } else {
                    let po = spec_single(src, p.inner@[1]);
                    if po is None || po->0 is Err {
                        po
                    } else {
                        Some(
                            Ok(
                                spanned(
                                    span,
                                    SyntaxView::Grammar {
                                        lexer: Box::new(lo->0->Ok_0),
                                        parser: Box::new(po->0->Ok_0),
                                    },
                                ),
                            ),
                        )
                    }
                }
            }
        },
        Rule::lexer_def => {
            if p.inner@.len() < 1 {
                Some(Err(SurfaceError::ExpectedLexerRules))
            } else {
                match spec_rules(src, p.inner@[0].inner@) {
                    None => None,
                    Some(Err(x)) => Some(Err(x)),
                    Some(Ok(rules)) => Some(Ok(spanned(span, SyntaxView::Lexer { rules }))),
                }
            }
        },
        Rule::lexical_definition => {
            match spec_named(
                src,
                p,
                SurfaceError::ExpectedDefinitionName,
                SurfaceError::ExpectedDefinitionExpr,
            ) {
                None => None,
                Some(Err(x)) => Some(Err(x)),
                Some(Ok((name, t))) => Some(
                    Ok(spanned(span, SyntaxView::LexicalDefinition { name, expr: Box::new(t) })),
                ),
            }
        },
        Rule::range => {
            if p.inner@.len() < 1 {
                Some(Err(SurfaceError::ExpectedRangeStart))
            } else if p.inner@.len() < 2 {
                Some(Err(SurfaceError::ExpectedRangeEnd))
            } else {
                match (spec_quoted_char(src, p.inner@[0]), spec_quoted_char(src, p.inner@[1])) {
                    (None, _) => None,
                    (Some(QuotedChar::Invalid), _) => Some(Err(SurfaceError::InvalidCharacter)),
                    (Some(QuotedChar::Count(e)), _) => Some(
                        Err(SurfaceError::RangeBound { empty: e }),
                    ),
                    (Some(QuotedChar::Char(_)), None) => None,
                    (Some(QuotedChar::Char(_)), Some(QuotedChar::Invalid)) => Some(
                        Err(SurfaceError::InvalidCharacter),
                    ),
                    (Some(QuotedChar::Char(_)), Some(QuotedChar::Count(e))) => Some(
                        Err(SurfaceError::RangeBound { empty: e }),
                    ),
                    (Some(QuotedChar::Char(a)), Some(QuotedChar::Char(b))) => Some(
                        Ok(spanned(span, SyntaxView::Range { start: a, end: b })),
                    ),
                }
            }
        },
        Rule::lexical_expr => spec_grouped(src, p),
        Rule::active_token | Rule::silent_token => {
            match spec_named(
                src,
                p,
                SurfaceError::ExpectedTokenName,
                SurfaceError::ExpectedTokenExpr,
            ) {
                None => None,
                Some(Err(x)) => Some(Err(x)),
                Some(Ok((name, t))) => Some(
                    Ok(
                        spanned(
                            span,
                            SyntaxView::LexicalToken {
                                active: p.rule == Rule::active_token,
                                name,
                                expr: Box::new(t),
                            },
                        ),
                    ),
                ),
            }
        },
        Rule::character => match spec_quoted_char(src, p) {
            None => None,
            Some(QuotedChar::Invalid) => Some(Err(SurfaceError::InvalidCharacter)),
            Some(QuotedChar::Count(e)) => Some(
                Err(SurfaceError::CharLiteral { empty: e, span }),
            ),
            Some(QuotedChar::Char(c)) => Some(
                Ok(spanned(span, SyntaxView::Char { value: WithSpan { span, node: c } })),
            ),
        },
        Rule::token_id => Some(
            Ok(spanned(span, SyntaxView::LexicalRuleRef { name: WithSpan { span, node: () } })),
        ),
        _ => None,
    }
}

/// The outcome of a tree built without error.
pub open spec fn built(t: WithSpan<SyntaxView>) -> Outcome {
    Some(Ok(t))
}

/// A binary lexical operator application covers its operands: its tree spans
/// from the start of the left operand's tree to the end of the right one's, and
/// holds the two operand trees, as an alternative or as a sequence as the
/// operator says.
pub proof fn law_binary_tree_covers_operands(
    src: Seq<u8>,
    l: Expr,
    op: Pair,
    r: Expr,
    a: WithSpan<SyntaxView>,
    b: WithSpan<SyntaxView>,
    t: WithSpan<SyntaxView>,
)
    requires
        spec_expr(src, l) == built(a),
        spec_expr(src, r) == built(b),
        spec_expr(src, Expr::Infix(Box::new(l), op, Box::new(r))) == built(t),
    ensures
        t.span == (Span { start: a.span.start, end: b.span.end }),
        op.rule == Rule::lexical_alternative ==> t.node == (SyntaxView::LexicalAlternative { lhs: Box::new(a), rhs: Box::new(b) }),
        op.rule == Rule::lexical_sequence ==> t.node == (SyntaxView::LexicalSequence { lhs: Box::new(a), rhs: Box::new(b) }),
        op.rule == Rule::lexical_alternative || op.rule == Rule::lexical_sequence,
{
}

/// A postfix lexical operator application spans from the start of its operand's
/// tree to the end of the operator, and holds the operand tree.
pub proof fn law_postfix_tree_covers_operand(
    src: Seq<u8>,
    x: Expr,
    op: Pair,
    a: WithSpan<SyntaxView>,
    t: WithSpan<SyntaxView>,
)
    requires
        spec_expr(src, x) == built(a),
        spec_expr(src, Expr::Postfix(Box::new(x), op)) == built(t),
    ensures
        t.span == (Span { start: a.span.start, end: op.span.end }),
        op.rule == Rule::lexical_plus ==> t.node == (SyntaxView::LexicalPlus { inner: Box::new(a) }),
        op.rule == Rule::lexical_star ==> t.node == (SyntaxView::LexicalStar { inner: Box::new(a) }),
        op.rule == Rule::lexical_plus || op.rule == Rule::lexical_star,
{
}

/// The tree built from a single node spans that node, except for a grouped
/// expression, whose tree is that of the expression it holds; a character
/// literal's value carries the literal's span too.
pub proof fn law_primary_tree_spans_its_node(src: Seq<u8>, p: Pair, t: WithSpan<SyntaxView>)
    requires
        spec_primary(src, p) == built(t),
        p.rule != Rule::lexical_expr,
    ensures
        t.span == p.span,
        t.node matches SyntaxView::Char { value } ==> value.span == p.span,
{
}

/// The view of a result.
pub open spec fn result_view(r: Result<WithSpan<SurfaceSyntaxTree>, SurfaceError>) -> Result<
    WithSpan<SyntaxView>,
    SurfaceError,
> {
    match r {
        Ok(t) => Ok(tree_view(t)),
        Err(x) => Err(x),
    }
}

pub open spec fn prepend_results(
    pre: Seq<WithSpan<SyntaxView>>,
    r: Option<Result<Seq<WithSpan<SyntaxView>>, SurfaceError>>,
) -> Option<Result<Seq<WithSpan<SyntaxView>>, SurfaceError>> {
    match r {
        None => None,
        Some(Err(x)) => Some(Err(x)),
        Some(Ok(ts)) => Some(Ok(pre + ts)),
    }
}

proof fn lemma_trees_view_push(s: Seq<WithSpan<SurfaceSyntaxTree>>, t: WithSpan<SurfaceSyntaxTree>)
    ensures
        trees_view(s.push(t)) == trees_view(s) + seq![tree_view(t)],
    decreases s.len(),
{
    if s.len() == 0 {
        let x = s.push(t);
        assert(x.drop_first() =~= Seq::<WithSpan<SurfaceSyntaxTree>>::empty());
        assert(x[0] == t);
        assert(trees_view(x.drop_first()) =~= Seq::<WithSpan<SyntaxView>>::empty());
        assert(trees_view(s) =~= Seq::<WithSpan<SyntaxView>>::empty());
        assert(trees_view(x) =~= seq![tree_view(t)]);
    } else {
        lemma_trees_view_push(s.drop_first(), t);
        assert(s.push(t).drop_first() =~= s.drop_first().push(t));
        assert(trees_view(s.push(t)) =~= trees_view(s) + seq![tree_view(t)]);
    }
}

fn is_operator_exec(r: Rule) -> (b: bool)
    ensures
        b == is_operator(r),
{
    match r {
        Rule::lexical_alternative | Rule::lexical_sequence | Rule::lexical_star
        | Rule::lexical_plus | Rule::lexical_optional | Rule::lexical_repeat
        | Rule::lexical_repeat_range | Rule::lexical_not | Rule::parser_alternative
        | Rule::parser_sequence | Rule::parser_star | Rule::parser_plus | Rule::parser_optional
        | Rule::parser_repeat | Rule::parser_repeat_range | Rule::parser_not => true,
        _ => false,
    }
}

/// The view of an outcome.
pub open spec fn outcome_view(r: Option<Result<WithSpan<SurfaceSyntaxTree>, SurfaceError>>) -> Outcome {
    match r {
        None => None,
        Some(x) => Some(result_view(x)),
    }
}

/// The character that the quoted text of `p` stands for; `None` where that text
/// is not quoted.
fn quoted_char(src: &str, p: &Pair) -> (r: Option<QuotedChar>)
    ensures
        spec_quoted_char(src.spec_bytes(), *p) == r,
{
    let text = match source_text(src, p.span.start, p.span.end) {
        Some(t) => t,
        None => {
            return None;
        },
    };
    let all = chars_of(text);
    if all.len() < 2 || all[0] as u32 >= 128 || all[all.len() - 1] as u32 >= 128 {
        return None;
    }
    match unescape_qouted(text) {
        None => Some(QuotedChar::Invalid),
        Some(decoded) => {
            let cs = chars_of(decoded.as_str());
            assert(opt_view(Some(decoded)) == Some(cs@));
            if cs.len() == 1 {
                Some(QuotedChar::Char(cs[0]))
            } else {
                Some(QuotedChar::Count(cs.len() == 0))
            }
        },
    }
}

/// Builds the surface syntax tree of a sequence of parse-tree nodes, as the
/// operator-precedence parser groups them; `None` where the construction gives
/// up on an operator, a rule or a character text that it does not support.
pub fn try_parse_surface_syntax(e: &Expr, src: &str) -> (r: Option<
    Result<WithSpan<SurfaceSyntaxTree>, SurfaceError>,
>)
    ensures
        spec_expr(src.spec_bytes(), *e) == outcome_view(r),
    decreases e, 0int,
{
    match e {
        Expr::Primary(p) => try_parse_primary(p, src),
        Expr::Infix(l, op, r) => {
            let (lhs, rhs) = match (try_parse_surface_syntax(l, src), try_parse_surface_syntax(r, src)) {
                (Some(a), Some(b)) => (a, b),
                _ => {
                    return None;
                },
            };
            let lhs = match lhs {
                Ok(t) => t,
                Err(x) => {
                    return Some(Err(x));
                },
            };
            let rhs = match rhs {
                Ok(t) => t,
                Err(x) => {
                    return Some(Err(x));
                },
            };
            let start = lhs.span.start;
            let end = rhs.span.end;
            if source_text(src, start, end).is_none() {
                return Some(Err(SurfaceError::InvalidSpan));
            }
            let span = Span { start, end };
            if op.rule == Rule::lexical_alternative {
                Some(
                    Ok(
                        WithSpan {
                            span,
                            node: SurfaceSyntaxTree::LexicalAlternative {
                                lhs: Box::new(lhs),
                                rhs: Box::new(rhs),
                            },
                        },
                    ),
                )
            } else if op.rule == Rule::lexical_sequence {
                Some(
                    Ok(
                        WithSpan {
                            span,
                            node: SurfaceSyntaxTree::LexicalSequence {
                                lhs: Box::new(lhs),
                                rhs: Box::new(rhs),
                            },
                        },
                    ),
                )
            } else {
                None
            }
        },
        Expr::Postfix(x, op) => {
            let inner = match try_parse_surface_syntax(x, src) {
                None => {
                    return None;
                },
                Some(Ok(t)) => t,
                Some(Err(x)) => {
                    return Some(Err(x));
                },
            };
            let start = inner.span.start;
            let end = op.span.end;
            if source_text(src, start, end).is_none() {
                return Some(Err(SurfaceError::InvalidSpan));
            }
            let span = Span { start, end };
            if op.rule == Rule::lexical_plus {
                Some(
                    Ok(WithSpan { span, node: SurfaceSyntaxTree::LexicalPlus { inner: Box::new(inner) } }),
                )
            } else if op.rule == Rule::lexical_star {
                Some(
                    Ok(WithSpan { span, node: SurfaceSyntaxTree::LexicalStar { inner: Box::new(inner) } }),
                )
            } else {
                None
            }
        },
        Expr::Prefix(_, _) => None,
    }
}

/// Builds the surface syntax tree of a sequence of parse-tree nodes, as the
/// operator-precedence parser groups them. The construction must not give up
/// on them (see `try_parse_surface_syntax`).
pub fn parse_surface_syntax(e: &Expr, src: &str) -> (r: Result<
    WithSpan<SurfaceSyntaxTree>,
    SurfaceError,
>)
    requires
        spec_expr(src.spec_bytes(), *e) is Some,
    ensures
        spec_expr(src.spec_bytes(), *e) == Some(result_view(r)),
{
    match try_parse_surface_syntax(e, src) {
        Some(r) => r,
        None => {
            assert(false);
            Err(SurfaceError::InvalidSpan)
        },
    }
}

/// Builds the tree of a single node handed to the operator-precedence parser alone.
fn try_parse_single(p: &Pair, src: &str) -> (r: Option<
    Result<WithSpan<SurfaceSyntaxTree>, SurfaceError>,
>)
    ensures
        spec_single(src.spec_bytes(), *p) == outcome_view(r),
    decreases p, 2int,
{
    if is_operator_exec(p.rule) {
        return None;
    }
    try_parse_primary(p, src)
}

/// Builds the tree of the inner nodes of `p`, as the operator-precedence parser
/// groups them.
fn try_parse_grouped(p: &Pair, src: &str) -> (r: Option<
    Result<WithSpan<SurfaceSyntaxTree>, SurfaceError>,
>)
    ensures
        spec_grouped(src.spec_bytes(), *p) == outcome_view(r),
    decreases p, 0int,
{
    match &p.grouped {
        Some(e) => try_parse_surface_syntax(e, src),
        None => None,
    }
}

/// Builds the name and expression of a definition-like node.
fn try_parse_named(p: &Pair, src: &str, no_name: SurfaceError, no_expr: SurfaceError) -> (r: Option<
    Result<(WithSpan<()>, WithSpan<SurfaceSyntaxTree>), SurfaceError>,
>)
    ensures
        spec_named(src.spec_bytes(), *p, no_name, no_expr) == match r {
            None => None,
            Some(Ok((n, t))) => Some(Ok((n, tree_view(t)))),
            Some(Err(x)) => Some(Err(x)),
        },
    decreases p, 0int,
{
    if p.inner.len() < 1 {
        return Some(Err(no_name));
    }
    if p.inner.len() < 2 {
        return Some(Err(no_expr));
    }
    let name = WithSpan { span: p.inner[0].span, node: () };
    match try_parse_grouped(&p.inner[1], src) {
        None => None,
        Some(Ok(t)) => Some(Ok((name, t))),
        Some(Err(x)) => Some(Err(x)),
    }
}

/// Builds the trees of the lexer rules that `q` holds, stopping at the first
/// error or at the first rule that the construction gives up on.
fn try_parse_rules(q: &Pair, src: &str) -> (r: Option<
    Result<Vec<WithSpan<SurfaceSyntaxTree>>, SurfaceError>,
>)
    ensures
        spec_rules(src.spec_bytes(), q.inner@) == match r {
            None => None,
            Some(Ok(v)) => Some(Ok(trees_view(v@))),
            Some(Err(x)) => Some(Err(x)),
        },
    decreases q, 0int,
{
    let ghost s = q.inner@;
    let ghost bytes = src.spec_bytes();
    let mut out: Vec<WithSpan<SurfaceSyntaxTree>> = Vec::new();
    let mut i: usize = 0;
    proof {
        assert(s.skip(0) =~= s);
        assert(trees_view(out@) =~= Seq::<WithSpan<SyntaxView>>::empty());
        match spec_rules(bytes, s) {
            Some(Ok(ts)) => {
                assert(Seq::<WithSpan<SyntaxView>>::empty() + ts =~= ts);
            },
            _ => {},
        }
    }
    while i < q.inner.len()
        invariant
            s == q.inner@,
            bytes == src.spec_bytes(),
            0 <= i <= s.len(),
            spec_rules(bytes, s) == prepend_results(trees_view(out@), spec_rules(bytes, s.skip(i as int))),
        decreases s.len() - i,
    {
        proof {
            assert(s.skip(i as int)[0] == s[i as int]);
            assert(s.skip(i as int).drop_first() =~= s.skip(i + 1));
        }
        match try_parse_single(&q.inner[i], src) {
            None => {
                return None;
            },
            Some(Ok(t)) => {
                proof {
                    lemma_trees_view_push(out@, t);
                    match spec_rules(bytes, s.skip(i + 1)) {
                        Some(Ok(ts)) => {
                            assert(trees_view(out@) + (seq![tree_view(t)] + ts) =~= trees_view(out@)
                                + seq![tree_view(t)] + ts);
                        },
                        _ => {},
                    }
                }
                out.push(t);
                i = i + 1;
            },
            Some(Err(x)) => {
                return Some(Err(x));
            },
        }
    }
    proof {
        assert(s.skip(i as int) =~= Seq::<Pair>::empty());
        assert(trees_view(out@) + Seq::<WithSpan<SyntaxView>>::empty() =~= trees_view(out@));
    }
    Some(Ok(out))
}

/// The bound of a range that a quoted character gives, or the error it gives.
fn range_bound(q: QuotedChar) -> (r: Result<char, SurfaceError>)
    ensures
        match q {
            QuotedChar::Char(c) => r == Ok::<char, SurfaceError>(c),
            QuotedChar::Invalid => r == Err::<char, SurfaceError>(SurfaceError::InvalidCharacter),
            QuotedChar::Count(e) => r == Err::<char, SurfaceError>(SurfaceError::RangeBound { empty: e }),
        },
{
    match q {
        QuotedChar::Char(c) => Ok(c),
        QuotedChar::Invalid => Err(SurfaceError::InvalidCharacter),
        QuotedChar::Count(e) => Err(SurfaceError::RangeBound { empty: e }),
    }
}

/// Builds the tree of a node that the operator-precedence parser takes as an operand.
fn try_parse_primary(p: &Pair, src: &str) -> (r: Option<
    Result<WithSpan<SurfaceSyntaxTree>, SurfaceError>,
>)
    ensures
        spec_primary(src.spec_bytes(), *p) == outcome_view(r),
    decreases p, 1int,
{
    let span = p.span;
    match p.rule {
        Rule::grammar => {
            if p.inner.len() < 1 {
                return Some(Err(SurfaceError::ExpectedLexerPart));
            }
            if p.inner.len() < 2 {
                return Some(Err(SurfaceError::ExpectedParserPart));
            }
            let lexer = match try_parse_single(&p.inner[0], src) {
                None => {
                    return None;
                },
                Some(Ok(t)) => t,
                Some(Err(x)) => {
                    return Some(Err(x));
                },
            };
            let parser = match try_parse_single(&p.inner[1], src) {
                None => {
                    return None;
                },
                Some(Ok(t)) => t,
                Some(Err(x)) => {
                    return Some(Err(x));
                },
            };
            Some(
                Ok(
                    WithSpan {
                        span,
                        node: SurfaceSyntaxTree::Grammar {
                            lexer: Box::new(lexer),
                            parser: Box::new(parser),
                        },
                    },
                ),
            )
        },
        Rule::lexer_def => {
            if p.inner.len() < 1 {
                return Some(Err(SurfaceError::ExpectedLexerRules));
            }
            match try_parse_rules(&p.inner[0], src) {
                None => None,
                Some(Ok(rules)) => Some(Ok(WithSpan { span, node: SurfaceSyntaxTree::Lexer { rules } })),
                Some(Err(x)) => Some(Err(x)),
            }
        },
        Rule::lexical_definition => {
            match try_parse_named(
                p,
                src,
                SurfaceError::ExpectedDefinitionName,
                SurfaceError::ExpectedDefinitionExpr,
            ) {
                None => None,
                Some(Ok((name, t))) => Some(
                    Ok(
                        WithSpan {
                            span,
                            node: SurfaceSyntaxTree::LexicalDefinition { name, expr: Box::new(t) },
                        },
                    ),
                ),
                Some(Err(x)) => Some(Err(x)),
            }
        },
        Rule::range => {
            if p.inner.len() < 1 {
                return Some(Err(SurfaceError::ExpectedRangeStart));
            }
            if p.inner.len() < 2 {
                return Some(Err(SurfaceError::ExpectedRangeEnd));
            }
            let start = match quoted_char(src, &p.inner[0]) {
                None => {
                    return None;
                },
                Some(q) => match range_bound(q) {
                    Ok(c) => c,
                    Err(x) => {
                        return Some(Err(x));
                    },
                },
            };
            let end = match quoted_char(src, &p.inner[1]) {
                None => {
                    return None;
                },
                Some(q) => match range_bound(q) {
                    Ok(c) => c,
                    Err(x) => {
                        return Some(Err(x));
                    },
                },
            };
            Some(Ok(WithSpan { span, node: SurfaceSyntaxTree::Range { start, end } }))
        },
        Rule::lexical_expr => try_parse_grouped(p, src),
        Rule::active_token | Rule::silent_token => {
            let active = p.rule == Rule::active_token;
            match try_parse_named(
                p,
                src,
                SurfaceError::ExpectedTokenName,
                SurfaceError::ExpectedTokenExpr,
            ) {
                None => None,
                Some(Ok((name, t))) => Some(
                    Ok(
                        WithSpan {
                            span,
                            node: SurfaceSyntaxTree::LexicalToken { active, name, expr: Box::new(t) },
                        },
                    ),
                ),
                Some(Err(x)) => Some(Err(x)),
            }
        },
        Rule::character => {
            match quoted_char(src, p) {
                None => None,
                Some(QuotedChar::Char(c)) => Some(
                    Ok(
                        WithSpan {
                            span,
                            node: SurfaceSyntaxTree::Char { value: WithSpan { span, node: c } },
                        },
                    ),
                ),
                Some(QuotedChar::Invalid) => Some(Err(SurfaceError::InvalidCharacter)),
                Some(QuotedChar::Count(e)) => Some(Err(SurfaceError::CharLiteral { empty: e, span })),
            }
        },
        Rule::token_id => Some(
            Ok(
                WithSpan {
                    span,
                    node: SurfaceSyntaxTree::LexicalRuleRef { name: WithSpan { span, node: () } },
                },
            ),
        ),
        _ => None,
    }
}

} // verus!
