//! The surface syntax tree of a grammar file, and the parse tree that the
//! grammar's parser hands over, with the spans that tie both to the source text.
use vstd::prelude::*;
use vstd::string::StringSliceAdditionalSpecFns;
use vstd::utf8::{decode_utf8, is_char_boundary};

verus! {

/// A region of the source text, by byte offsets.
#[derive(Clone, Copy, Debug, PartialEq, Eq, Structural)]
pub struct Span {
    pub start: usize,
    pub end: usize,
}

/// A value together with the region of the source text it comes from.
#[derive(Debug)]
pub struct WithSpan<T> {
    pub span: Span,
    pub node: T,
}

pub type SpanBox<T> = Box<WithSpan<T>>;

/// Whether `start..end` cuts `src` (given by its bytes) at character boundaries.
pub open spec fn valid_span(src: Seq<u8>, start: int, end: int) -> bool {
    &&& 0 <= start <= end <= src.len()
    &&& is_char_boundary(src, start)
    &&& is_char_boundary(src, end)
}

/// The text between two byte offsets of `src`.
pub open spec fn span_text(src: Seq<u8>, start: int, end: int) -> Seq<char> {
    decode_utf8(src.subrange(start, end))
}

/// `pest::Span::new` followed by `as_str`: the text of `src[start..end]`, or `None`
/// where that range does not cut `src` at character boundaries.
#[verifier::external_body]
pub(crate) fn source_text<'a>(src: &'a str, start: usize, end: usize) -> (r: Option<&'a str>)
    ensures
        r is Some <==> valid_span(src.spec_bytes(), start as int, end as int),
        r matches Some(t) ==> t@ == span_text(src.spec_bytes(), start as int, end as int),
{
    match pest::Span::new(src, start, end) {
        Some(span) => Some(span.as_str()),
        None => None,
    }
}

/// The surface syntax of a grammar file: a lexer part and a parser part.
#[derive(Debug)]
pub enum SurfaceSyntaxTree {
    Grammar { lexer: SpanBox<SurfaceSyntaxTree>, parser: SpanBox<SurfaceSyntaxTree> },
    Parser { entrypoint: WithSpan<()>, rules: Vec<WithSpan<SurfaceSyntaxTree>> },
    Lexer { rules: Vec<WithSpan<SurfaceSyntaxTree>> },
    LexicalAlternative { lhs: SpanBox<SurfaceSyntaxTree>, rhs: SpanBox<SurfaceSyntaxTree> },
    LexicalSequence { lhs: SpanBox<SurfaceSyntaxTree>, rhs: SpanBox<SurfaceSyntaxTree> },
    LexicalStar { inner: SpanBox<SurfaceSyntaxTree> },
    LexicalPlus { inner: SpanBox<SurfaceSyntaxTree> },
    LexicalOptional { inner: SpanBox<SurfaceSyntaxTree> },
    LexicalRepeat { inner: SpanBox<SurfaceSyntaxTree> },
    LexicalRepeatRange { inner: SpanBox<SurfaceSyntaxTree>, min: usize, max: usize },
    LexicalNot { inner: SpanBox<SurfaceSyntaxTree> },
    ParserAlternative { lhs: SpanBox<SurfaceSyntaxTree>, rhs: SpanBox<SurfaceSyntaxTree> },
    ParserSequence { lhs: SpanBox<SurfaceSyntaxTree>, rhs: SpanBox<SurfaceSyntaxTree> },
    ParserStar { inner: SpanBox<SurfaceSyntaxTree> },
    ParserPlus { inner: SpanBox<SurfaceSyntaxTree> },
    ParserOptional { inner: SpanBox<SurfaceSyntaxTree> },
    ParserRepeat { inner: SpanBox<SurfaceSyntaxTree> },
    ParserRepeatRange { inner: SpanBox<SurfaceSyntaxTree>, min: usize, max: usize },
    ParserNot { inner: SpanBox<SurfaceSyntaxTree> },
    LexicalDefinition { name: WithSpan<()>, expr: SpanBox<SurfaceSyntaxTree> },
    LexicalToken { active: bool, name: WithSpan<()>, expr: SpanBox<SurfaceSyntaxTree> },
    Range { start: char, end: char },
    String { value: WithSpan<String> },
    Bottom,
    Empty,
    Char { value: WithSpan<char> },
    ParserDefinition { active: bool, name: WithSpan<()>, expr: SpanBox<SurfaceSyntaxTree> },
    ParserFixpoint { active: bool, name: WithSpan<()>, expr: SpanBox<SurfaceSyntaxTree> },
    ParserRuleRef { name: WithSpan<()> },
    LexicalRuleRef { name: WithSpan<()> },
}

/// The mathematical value of a surface syntax tree: lists become sequences and
/// strings their characters.
pub enum SyntaxView {
    Grammar { lexer: Box<WithSpan<SyntaxView>>, parser: Box<WithSpan<SyntaxView>> },
    Parser { entrypoint: WithSpan<()>, rules: Seq<WithSpan<SyntaxView>> },
    Lexer { rules: Seq<WithSpan<SyntaxView>> },
    LexicalAlternative { lhs: Box<WithSpan<SyntaxView>>, rhs: Box<WithSpan<SyntaxView>> },
    LexicalSequence { lhs: Box<WithSpan<SyntaxView>>, rhs: Box<WithSpan<SyntaxView>> },
    LexicalStar { inner: Box<WithSpan<SyntaxView>> },
    LexicalPlus { inner: Box<WithSpan<SyntaxView>> },
    LexicalOptional { inner: Box<WithSpan<SyntaxView>> },
    LexicalRepeat { inner: Box<WithSpan<SyntaxView>> },
    LexicalRepeatRange { inner: Box<WithSpan<SyntaxView>>, min: usize, max: usize },
    LexicalNot { inner: Box<WithSpan<SyntaxView>> },
    ParserAlternative { lhs: Box<WithSpan<SyntaxView>>, rhs: Box<WithSpan<SyntaxView>> },
    ParserSequence { lhs: Box<WithSpan<SyntaxView>>, rhs: Box<WithSpan<SyntaxView>> },
    ParserStar { inner: Box<WithSpan<SyntaxView>> },
    ParserPlus { inner: Box<WithSpan<SyntaxView>> },
    ParserOptional { inner: Box<WithSpan<SyntaxView>> },
    ParserRepeat { inner: Box<WithSpan<SyntaxView>> },
    ParserRepeatRange { inner: Box<WithSpan<SyntaxView>>, min: usize, max: usize },
    ParserNot { inner: Box<WithSpan<SyntaxView>> },
    LexicalDefinition { name: WithSpan<()>, expr: Box<WithSpan<SyntaxView>> },
    LexicalToken { active: bool, name: WithSpan<()>, expr: Box<WithSpan<SyntaxView>> },
    Range { start: char, end: char },
    String { value: WithSpan<Seq<char>> },
    Bottom,
    Empty,
    Char { value: WithSpan<char> },
    ParserDefinition { active: bool, name: WithSpan<()>, expr: Box<WithSpan<SyntaxView>> },
    ParserFixpoint { active: bool, name: WithSpan<()>, expr: Box<WithSpan<SyntaxView>> },
    ParserRuleRef { name: WithSpan<()> },
    LexicalRuleRef { name: WithSpan<()> },
}

/// The value of a spanned tree.
pub open spec fn tree_view(w: WithSpan<SurfaceSyntaxTree>) -> WithSpan<SyntaxView>
    decreases w,
{
    WithSpan { span: w.span, node: node_view(w.node) }
}

/// The values of a list of spanned trees.
pub open spec fn trees_view(s: Seq<WithSpan<SurfaceSyntaxTree>>) -> Seq<WithSpan<SyntaxView>>
    decreases s,
{
    if s.len() == 0 {
        Seq::empty()
    } else {
        seq![tree_view(s[0])] + trees_view(s.drop_first())
    }
}

pub open spec fn node_view(t: SurfaceSyntaxTree) -> SyntaxView
    decreases t,
{
    match t {
        SurfaceSyntaxTree::Grammar { lexer, parser } => SyntaxView::Grammar {
            lexer: Box::new(tree_view(*lexer)),
            parser: Box::new(tree_view(*parser)),
        },
        SurfaceSyntaxTree::Parser { entrypoint, rules } => SyntaxView::Parser {
            entrypoint,
            rules: trees_view(rules@),
        },
        SurfaceSyntaxTree::Lexer { rules } => SyntaxView::Lexer { rules: trees_view(rules@) },
        SurfaceSyntaxTree::LexicalAlternative { lhs, rhs } => SyntaxView::LexicalAlternative {
            lhs: Box::new(tree_view(*lhs)),
            rhs: Box::new(tree_view(*rhs)),
        },
        SurfaceSyntaxTree::LexicalSequence { lhs, rhs } => SyntaxView::LexicalSequence {
            lhs: Box::new(tree_view(*lhs)),
            rhs: Box::new(tree_view(*rhs)),
        },
        SurfaceSyntaxTree::LexicalStar { inner } => SyntaxView::LexicalStar {
            inner: Box::new(tree_view(*inner)),
        },
        SurfaceSyntaxTree::LexicalPlus { inner } => SyntaxView::LexicalPlus {
            inner: Box::new(tree_view(*inner)),
        },
        SurfaceSyntaxTree::LexicalOptional { inner } => SyntaxView::LexicalOptional {
            inner: Box::new(tree_view(*inner)),
        },
        SurfaceSyntaxTree::LexicalRepeat { inner } => SyntaxView::LexicalRepeat {
            inner: Box::new(tree_view(*inner)),
        },
        SurfaceSyntaxTree::LexicalRepeatRange { inner, min, max } =>
            SyntaxView::LexicalRepeatRange { inner: Box::new(tree_view(*inner)), min, max },
        SurfaceSyntaxTree::LexicalNot { inner } => SyntaxView::LexicalNot {
            inner: Box::new(tree_view(*inner)),
        },
        SurfaceSyntaxTree::ParserAlternative { lhs, rhs } => SyntaxView::ParserAlternative {
            lhs: Box::new(tree_view(*lhs)),
            rhs: Box::new(tree_view(*rhs)),
        },
        SurfaceSyntaxTree::ParserSequence { lhs, rhs } => SyntaxView::ParserSequence {
            lhs: Box::new(tree_view(*lhs)),
            rhs: Box::new(tree_view(*rhs)),
        },
        SurfaceSyntaxTree::ParserStar { inner } => SyntaxView::ParserStar {
            inner: Box::new(tree_view(*inner)),
        },
        SurfaceSyntaxTree::ParserPlus { inner } => SyntaxView::ParserPlus {
            inner: Box::new(tree_view(*inner)),
        },
        SurfaceSyntaxTree::ParserOptional { inner } => SyntaxView::ParserOptional {
            inner: Box::new(tree_view(*inner)),
        },
        SurfaceSyntaxTree::ParserRepeat { inner } => SyntaxView::ParserRepeat {
            inner: Box::new(tree_view(*inner)),
        },
        SurfaceSyntaxTree::ParserRepeatRange { inner, min, max } =>
            SyntaxView::ParserRepeatRange { inner: Box::new(tree_view(*inner)), min, max },
        SurfaceSyntaxTree::ParserNot { inner } => SyntaxView::ParserNot {
            inner: Box::new(tree_view(*inner)),
        },
        SurfaceSyntaxTree::LexicalDefinition { name, expr } => SyntaxView::LexicalDefinition {
            name,
            expr: Box::new(tree_view(*expr)),
        },
        SurfaceSyntaxTree::LexicalToken { active, name, expr } => SyntaxView::LexicalToken {
            active,
            name,
            expr: Box::new(tree_view(*expr)),
        },
        SurfaceSyntaxTree::Range { start, end } => SyntaxView::Range { start, end },
        SurfaceSyntaxTree::String { value } => SyntaxView::String {
            value: WithSpan { span: value.span, node: value.node@ },
        },
        SurfaceSyntaxTree::Bottom => SyntaxView::Bottom,
        SurfaceSyntaxTree::Empty => SyntaxView::Empty,
        SurfaceSyntaxTree::Char { value } => SyntaxView::Char { value },
        SurfaceSyntaxTree::ParserDefinition { active, name, expr } => SyntaxView::ParserDefinition {
            active,
            name,
            expr: Box::new(tree_view(*expr)),
        },
        SurfaceSyntaxTree::ParserFixpoint { active, name, expr } => SyntaxView::ParserFixpoint {
            active,
            name,
            expr: Box::new(tree_view(*expr)),
        },
        SurfaceSyntaxTree::ParserRuleRef { name } => SyntaxView::ParserRuleRef { name },
        SurfaceSyntaxTree::LexicalRuleRef { name } => SyntaxView::LexicalRuleRef { name },
    }
}

} // verus!
