//! Translation of the parser part of a grammar's surface syntax into core
//! parser rules: the symbol table of rule names, name resolution, and the
//! collection of every error found on the way.
use std::collections::HashMap;
use vstd::prelude::*;
use vstd::string::StringSliceAdditionalSpecFns;

use crate::core_syntax::{Error, ParserRule, Symbol, Term, TermPtr};
use crate::tree::{source_text, span_text, valid_span, Span, SurfaceSyntaxTree, WithSpan};

verus! {

broadcast use vstd::std_specs::hash::group_hash_axioms;

/// A parser rule name and the symbol it was given, at the place it is defined.
#[derive(Debug)]
pub struct SymbolEntry {
    pub name: String,
    pub symbol: WithSpan<Symbol>,
}

/// A token name and its symbol.
#[derive(Debug)]
struct LexerEntry {
    name: String,
    symbol: Symbol,
}

/// What the lexer part of a grammar makes known to the parser part: its token
/// names, each once, with their symbols.
#[derive(Debug)]
pub struct LexerDatabase {
    symbol_table: Vec<LexerEntry>,
}

/// The translated parser part of a grammar.
#[derive(Debug)]
pub struct Parser {
    pub entrypoint: Symbol,
    /// The rules, by the id of their symbol.
    pub bindings: HashMap<u64, ParserRule>,
    pub symbol_table: Vec<SymbolEntry>,
    pub lexer_database: LexerDatabase,
}

/// A symbol table: names with their symbols.
pub type Table = Seq<(Seq<char>, WithSpan<Symbol>)>;

/// The first value that `s` pairs with the name `n`.
pub open spec fn lookup<V>(s: Seq<(Seq<char>, V)>, n: Seq<char>) -> Option<V>
    decreases s.len(),
{
    if s.len() == 0 {
        None
    } else if s[0].0 == n {
        Some(s[0].1)
    } else {
        lookup(s.drop_first(), n)
    }
}

/// The names and symbols of a symbol table.
pub open spec fn table_view(t: Seq<SymbolEntry>) -> Seq<(Seq<char>, WithSpan<Symbol>)> {
    Seq::new(t.len(), |i: int| (t[i].name@, t[i].symbol))
}

/// The text at a span, where it cuts the source at character boundaries.
pub open spec fn name_text(src: Seq<u8>, span: Span) -> Option<Seq<char>> {
    if valid_span(src, span.start as int, span.end as int) {
        Some(span_text(src, span.start as int, span.end as int))
    } else {
        None
    }
}

/// The name of a parser rule definition.
pub open spec fn rule_name(r: WithSpan<SurfaceSyntaxTree>) -> Option<WithSpan<()>> {
    match r.node {
        SurfaceSyntaxTree::ParserDefinition { name, .. } => Some(name),
        SurfaceSyntaxTree::ParserFixpoint { name, .. } => Some(name),
        _ => None,
    }
}

/// A parser rule definition whose name delimits a region of the source.
pub open spec fn rule_ok(src: Seq<u8>, r: WithSpan<SurfaceSyntaxTree>) -> bool {
    rule_name(r) is Some && name_text(src, rule_name(r)->0.span) is Some
}

/// The name of a parser rule definition, as text.
pub open spec fn rule_text(src: Seq<u8>, r: WithSpan<SurfaceSyntaxTree>) -> Seq<char> {
    name_text(src, rule_name(r)->0.span)->0
}

/// Whether rule `j` has the name of an earlier rule, or a name that the table
/// `old` already holds.
pub open spec fn repeats_earlier(
    src: Seq<u8>,
    old: Table,
    rules: Seq<WithSpan<SurfaceSyntaxTree>>,
    j: int,
) -> bool {
    ||| exists|i: int| 0 <= i < j && #[trigger] rule_text(src, rules[i]) == rule_text(src, rules[j])
    ||| lookup(old, rule_text(src, rules[j])) is Some
}

/// The first rule at or after `j` that has the name of an earlier one, or the
/// number of rules.
pub open spec fn first_repeat_from(
    src: Seq<u8>,
    old: Table,
    rules: Seq<WithSpan<SurfaceSyntaxTree>>,
    j: int,
) -> int
    decreases rules.len() - j,
{
    if j >= rules.len() {
        rules.len() as int
    } else if repeats_earlier(src, old, rules, j) {
        j
    } else {
        first_repeat_from(src, old, rules, j + 1)
    }
}

pub open spec fn first_repeat(src: Seq<u8>, old: Table, rules: Seq<WithSpan<SurfaceSyntaxTree>>) -> int {
    first_repeat_from(src, old, rules, 0)
}

/// The symbol table `old` extended by the rules: each rule before the first
/// repeated name, under its name, with the symbol of its position in the table.
pub open spec fn table_of(src: Seq<u8>, old: Table, rules: Seq<WithSpan<SurfaceSyntaxTree>>) -> Table {
    old + Seq::new(
        first_repeat(src, old, rules) as nat,
        |i: int|
            (
                rule_text(src, rules[i]),
                WithSpan {
                    span: rule_name(rules[i])->0.span,
                    node: Symbol { id: (old.len() + i) as u64 },
                },
            ),
    )
}

/// The errors of building the symbol table: none, or the first repeated name.
pub open spec fn table_errors(src: Seq<u8>, old: Table, rules: Seq<WithSpan<SurfaceSyntaxTree>>) -> Seq<
    WithSpan<Error>,
> {
    let k = first_repeat(src, old, rules);
    if k < rules.len() {
        seq![
            WithSpan {
                span: rule_name(rules[k])->0.span,
                node: Error::MultipleDefinition {
                    previous: lookup(table_of(src, old, rules), rule_text(src, rules[k]))->0.span,
                },
            },
        ]
    } else {
        Seq::empty()
    }
}

/// Building the symbol table does not panic: every rule up to the first
/// repeated name is a rule definition.
pub open spec fn table_defined(src: Seq<u8>, old: Table, rules: Seq<WithSpan<SurfaceSyntaxTree>>) -> bool {
    forall|j: int|
        0 <= j < rules.len() && j <= first_repeat(src, old, rules) ==> #[trigger] rule_ok(src, rules[j])
}

pub open spec fn combine(
    l: Result<TermPtr, Seq<WithSpan<Error>>>,
    r: Result<TermPtr, Seq<WithSpan<Error>>>,
    span: Span,
    alternative: bool,
) -> Result<TermPtr, Seq<WithSpan<Error>>> {
    match (l, r) {
        (Ok(a), Ok(b)) => Ok(
            Box::new(
                WithSpan {
                    span,
                    node: if alternative {
                        Term::Alternative(a, b)
                    } else {
                        Term::Sequence(a, b)
                    },
                },
            ),
        ),
        (Ok(_), Err(y)) => Err(y),
        (Err(x), Ok(_)) => Err(x),
        (Err(x), Err(y)) => Err(x + y),
    }
}

/// The core term of a parser expression, or all the errors in it; `None` where
/// the translation gives up (an unsupported operator, a node that is no parser
/// expression, a name that does not delimit a region of the source).
pub open spec fn spec_core(
    src: Seq<u8>,
    table: Seq<(Seq<char>, WithSpan<Symbol>)>,
    lexer: Map<Seq<char>, Symbol>,
    t: WithSpan<SurfaceSyntaxTree>,
) -> Option<Result<TermPtr, Seq<WithSpan<Error>>>>
    decreases t,
{
    match t.node {
        SurfaceSyntaxTree::ParserAlternative { lhs, rhs } => {
            let l = spec_core(src, table, lexer, *lhs);
            let r = spec_core(src, table, lexer, *rhs);
            if l is None || r is None {
                None
            } else {
                Some(combine(l->0, r->0, t.span, true))
            }
        },
        SurfaceSyntaxTree::ParserSequence { lhs, rhs } => {
            let l = spec_core(src, table, lexer, *lhs);
            let r = spec_core(src, table, lexer, *rhs);
            if l is None || r is None {
                None
            } else {
                Some(combine(l->0, r->0, t.span, false))
            }
        },
        SurfaceSyntaxTree::ParserOptional { inner } => {
            match spec_core(src, table, lexer, *inner) {
                None => None,
                Some(Err(x)) => Some(Err(x)),
                Some(Ok(a)) => Some(
                    Ok(
                        Box::new(
                            WithSpan {
                                span: t.span,
                                node: Term::Alternative(
                                    a,
                                    Box::new(WithSpan { span: t.span, node: Term::Epsilon }),
                                ),
                            },
                        ),
                    ),
                ),
            }
        },
        SurfaceSyntaxTree::Bottom => Some(Ok(Box::new(WithSpan { span: t.span, node: Term::Bottom }))),
        SurfaceSyntaxTree::Empty => Some(Ok(Box::new(WithSpan { span: t.span, node: Term::Epsilon }))),
        SurfaceSyntaxTree::ParserRuleRef { name } => match name_text(src, name.span) {
            None => None,
            Some(n) => match lookup(table, n) {
                Some(target) => Some(
                    Ok(Box::new(WithSpan { span: t.span, node: Term::ParserRef(target.node) })),
                ),
                None => Some(
                    Err(
                        seq![
                            WithSpan {
                                span: t.span,
                                node: Error::UndefinedParserRuleReference { name: name.span },
                            },
                        ],
                    ),
                ),
            },
        },
        SurfaceSyntaxTree::LexicalRuleRef { name } => match name_text(src, name.span) {
            None => None,
            Some(n) => match (if lexer.contains_key(n) { Some(lexer[n]) } else { None }) {
                Some(target) => Some(
                    Ok(Box::new(WithSpan { span: t.span, node: Term::LexerRef(target) })),
                ),
                None => Some(
                    Err(
                        seq![
                            WithSpan {
                                span: t.span,
                                node: Error::UndefinedLexicalReference { name: name.span },
                            },
                        ],
                    ),
                ),
            },
        },
        _ => None,
    }
}

/// The expression of a parser rule definition.
pub open spec fn rule_expr(r: WithSpan<SurfaceSyntaxTree>) -> WithSpan<SurfaceSyntaxTree> {
    match r.node {
        SurfaceSyntaxTree::ParserDefinition { expr, .. } => *expr,
        SurfaceSyntaxTree::ParserFixpoint { expr, .. } => *expr,
        _ => r,
    }
}

/// The bindings and errors after translating the first `n` rules.
pub open spec fn fold_rules(
    src: Seq<u8>,
    table: Seq<(Seq<char>, WithSpan<Symbol>)>,
    lexer: Map<Seq<char>, Symbol>,
    rules: Seq<WithSpan<SurfaceSyntaxTree>>,
    n: int,
) -> (Map<u64, ParserRule>, Seq<WithSpan<Error>>)
    decreases n,
{
    if n <= 0 {
        (Map::empty(), Seq::empty())
    } else {
        let (m, e) = fold_rules(src, table, lexer, rules, n - 1);
        let r = rules[n - 1];
        match spec_core(src, table, lexer, rule_expr(r)) {
            Some(Ok(t)) => {
                let sym = lookup(table, rule_text(src, r))->0.node;
                let term = match r.node {
                    SurfaceSyntaxTree::ParserFixpoint { .. } => Box::new(
                        WithSpan { span: r.span, node: Term::Fix(sym, t) },
                    ),
                    _ => Box::new(WithSpan { span: r.span, node: t.node }),
                };
                let active = match r.node {
                    SurfaceSyntaxTree::ParserDefinition { active, .. } => active,
                    SurfaceSyntaxTree::ParserFixpoint { active, .. } => active,
                    _ => false,
                };
                (m.insert(sym.id, ParserRule { active, term }), e)
            },
            Some(Err(x)) => (m, e + x),
            None => (m, e),
        }
    }
}

/// Translating the rules is defined: each is a rule definition whose expression
/// translates, and each whose expression translates has its name in the symbol
/// table (where it has not, the symbol table lookup that follows has no result).
pub open spec fn rules_defined(
    src: Seq<u8>,
    table: Seq<(Seq<char>, WithSpan<Symbol>)>,
    lexer: Map<Seq<char>, Symbol>,
    rules: Seq<WithSpan<SurfaceSyntaxTree>>,
) -> bool {
    forall|j: int|
        0 <= j < rules.len() ==> {
            &&& #[trigger] rule_name(rules[j]) is Some
            &&& spec_core(src, table, lexer, rule_expr(rules[j])) is Some
            &&& spec_core(src, table, lexer, rule_expr(rules[j])) matches Some(Ok(_)) ==> {
                &&& rule_ok(src, rules[j])
                &&& lookup(table, rule_text(src, rules[j])) is Some
            }
        }
}

/// `construct_parser` is defined on `sst`: it panics on no step of it.
pub open spec fn parser_defined(
    src: Seq<u8>,
    lexer: Map<Seq<char>, Symbol>,
    sst: WithSpan<SurfaceSyntaxTree>,
) -> bool {
    match sst.node {
        SurfaceSyntaxTree::Parser { entrypoint, rules } => {
            let rs = rules@;
            let table = table_of(src, Seq::empty(), rs);
            &&& table_defined(src, Seq::empty(), rs)
            &&& name_text(src, entrypoint.span) is Some
            &&& lookup(table, name_text(src, entrypoint.span)->0) is Some ==> rules_defined(
                src,
                table,
                lexer,
                rs,
            )
        },
        _ => false,
    }
}

/// What `construct_parser` gives on `sst`: the entry symbol, the bindings and
/// the symbol table it builds, or all the errors it finds.
pub open spec fn spec_parser(
    src: Seq<u8>,
    lexer: Map<Seq<char>, Symbol>,
    sst: WithSpan<SurfaceSyntaxTree>,
) -> Result<(Symbol, Map<u64, ParserRule>, Seq<(Seq<char>, WithSpan<Symbol>)>), Seq<WithSpan<Error>>> {
    match sst.node {
        SurfaceSyntaxTree::Parser { entrypoint, rules } => {
            let rs = rules@;
            let table = table_of(src, Seq::empty(), rs);
            let errs = table_errors(src, Seq::empty(), rs);
            match lookup(table, name_text(src, entrypoint.span)->0) {
                None => Err(
                    errs.push(
                        WithSpan {
                            span: entrypoint.span,
                            node: Error::UndefinedParserRuleReference { name: entrypoint.span },
                        },
                    ),
                ),
                Some(entry) => {
                    let (m, e) = fold_rules(src, table, lexer, rs, rs.len() as int);
                    if errs.len() + e.len() > 0 {
                        Err(errs + e)
                    } else {
                        Ok((entry.node, m, table))
                    }
                },
            }
        },
        _ => Err(Seq::empty()),
    }
}

proof fn lemma_lookup_first<V>(s: Seq<(Seq<char>, V)>, n: Seq<char>, j: int)
    requires
        0 <= j < s.len(),
        s[j].0 == n,
        forall|m: int| 0 <= m < j ==> s[m].0 != n,
    ensures
        lookup(s, n) == Some(s[j].1),
    decreases j,
{
    if j > 0 {
        assert forall|m: int| 0 <= m < j - 1 implies s.drop_first()[m].0 != n by {
            assert(s.drop_first()[m] == s[m + 1]);
        }
        lemma_lookup_first(s.drop_first(), n, j - 1);
    }
}

proof fn lemma_lookup_none<V>(s: Seq<(Seq<char>, V)>, n: Seq<char>)
    requires
        forall|m: int| 0 <= m < s.len() ==> s[m].0 != n,
    ensures
        lookup(s, n) is None,
    decreases s.len(),
{
    if s.len() > 0 {
        assert forall|m: int| 0 <= m < s.len() - 1 implies s.drop_first()[m].0 != n by {
            assert(s.drop_first()[m] == s[m + 1]);
        }
        lemma_lookup_none(s.drop_first(), n);
    }
}

/// What `lookup` finds is paired with the name somewhere.
proof fn lemma_lookup_some<V>(s: Seq<(Seq<char>, V)>, n: Seq<char>)
    requires
        lookup(s, n) is Some,
    ensures
        exists|m: int| 0 <= m < s.len() && s[m].0 == n && s[m].1 == lookup(s, n)->0,
    decreases s.len(),
{
    if s[0].0 != n {
        lemma_lookup_some(s.drop_first(), n);
        let m = choose|m: int|
            0 <= m < s.drop_first().len() && s.drop_first()[m].0 == n && s.drop_first()[m].1
                == lookup(s.drop_first(), n)->0;
        assert(s[m + 1] == s.drop_first()[m]);
    }
}

/// The symbol of a rule name.
fn find_symbol(t: &Vec<SymbolEntry>, name: &String) -> (r: Option<WithSpan<Symbol>>)
    ensures
        r == lookup(table_view(t@), name@),
{
    let ghost v = table_view(t@);
    let mut i: usize = 0;
    while i < t.len()
        invariant
            v == table_view(t@),
            0 <= i <= t.len(),
            forall|m: int| 0 <= m < i ==> v[m].0 != name@,
        decreases t.len() - i,
    {
        if t[i].name == *name {
            proof {
                lemma_lookup_first(v, name@, i as int);
            }
            return Some(WithSpan { span: t[i].symbol.span, node: t[i].symbol.node });
        }
        i = i + 1;
    }
    proof {
        lemma_lookup_none(v, name@);
    }
    None
}

/// The text at a span.
fn text_of(src: &str, span: Span) -> (r: Option<String>)
    ensures
        match r {
            Some(s) => name_text(src.spec_bytes(), span) == Some(s@),
            None => name_text(src.spec_bytes(), span) is None,
        },
{
    match source_text(src, span.start, span.end) {
        Some(t) => Some(t.to_owned()),
        None => None,
    }
}

proof fn lemma_first_repeat_from_ge(
    src: Seq<u8>,
    old: Table,
    rules: Seq<WithSpan<SurfaceSyntaxTree>>,
    j: int,
)
    requires
        0 <= j <= rules.len(),
    ensures
        j <= first_repeat_from(src, old, rules, j) <= rules.len(),
    decreases rules.len() - j,
{
    if j < rules.len() && !repeats_earlier(src, old, rules, j) {
        lemma_first_repeat_from_ge(src, old, rules, j + 1);
    }
}

/// Enters the name of every rule definition of `sst` into the symbol table, up
/// to the first name that the table already holds; `None` where it meets, before
/// that name, a rule that is no rule definition or whose name does not delimit a
/// region of the source.
fn construct_symbol_table(context: &mut Parser, sst: &WithSpan<SurfaceSyntaxTree>, src: &str) -> (r: Option<
    Result<(), Vec<WithSpan<Error>>>,
>)
    ensures
        r is Some <==> sst.node is Parser && table_defined(
            src.spec_bytes(),
            table_view(old(context).symbol_table@),
            sst.node->Parser_rules@,
        ),
        r is Some ==> table_view(final(context).symbol_table@) == table_of(
            src.spec_bytes(),
            table_view(old(context).symbol_table@),
            sst.node->Parser_rules@,
        ),
        final(context).entrypoint == old(context).entrypoint,
        final(context).bindings == old(context).bindings,
        final(context).lexer_database == old(context).lexer_database,
        match r {
            None => true,
            Some(Ok(())) => table_errors(
                src.spec_bytes(),
                table_view(old(context).symbol_table@),
                sst.node->Parser_rules@,
            ).len() == 0,
            Some(Err(v)) => v@ == table_errors(
                src.spec_bytes(),
                table_view(old(context).symbol_table@),
                sst.node->Parser_rules@,
            ) && v@.len() > 0,
        },
{
    let rules = match &sst.node {
        SurfaceSyntaxTree::Parser { rules, .. } => rules,
        _ => {
            return None;
        },
    };
    let ghost bytes = src.spec_bytes();
    let ghost rs = rules@;
    let ghost old_table = table_view(context.symbol_table@);
    let ghost n0 = old_table.len();
    let mut i: usize = 0;
    proof {
        lemma_first_repeat_from_ge(bytes, old_table, rs, 0);
    }
    while i < rules.len()
        invariant
            bytes == src.spec_bytes(),
            rs == rules@,
            sst.node is Parser,
            rs == sst.node->Parser_rules@,
            old_table == table_view(old(context).symbol_table@),
            n0 == old_table.len(),
            forall|j: int| 0 <= j < i ==> #[trigger] rule_ok(bytes, rs[j]),
            0 <= i <= rs.len(),
            first_repeat(bytes, old_table, rs) == first_repeat_from(bytes, old_table, rs, i as int),
            i <= first_repeat(bytes, old_table, rs),
            context.symbol_table@.len() == n0 + i,
            forall|m: int|
                0 <= m < n0 + i ==> #[trigger] table_view(context.symbol_table@)[m] == table_of(
                    bytes,
                    old_table,
                    rs,
                )[m],
            context.entrypoint == old(context).entrypoint,
            context.bindings == old(context).bindings,
            context.lexer_database == old(context).lexer_database,
        decreases rs.len() - i,
    {
        let name_span = match &rules[i].node {
            SurfaceSyntaxTree::ParserDefinition { name, .. } => name.span,
            SurfaceSyntaxTree::ParserFixpoint { name, .. } => name.span,
            _ => {
                assert(!rule_ok(bytes, rs[i as int]));
                return None;
            },
        };
        let text = match text_of(src, name_span) {
            Some(t) => t,
            None => {
                assert(!rule_ok(bytes, rs[i as int]));
                return None;
            },
        };
        assert(rule_ok(bytes, rs[i as int]));
        let ghost tv = table_view(context.symbol_table@);
        let ghost full = table_of(bytes, old_table, rs);
        assert(text@ == rule_text(bytes, rs[i as int]));
        match find_symbol(&context.symbol_table, &text) {
            Some(previous) => {
                proof {
                    lemma_lookup_some(tv, text@);
                    let m = choose|m: int| 0 <= m < tv.len() && tv[m].0 == text@ && tv[m].1 == previous;
                    assert(tv[m] == full[m]);
                    if m < n0 {
                        assert(full[m] == old_table[m]);
                        lemma_lookup_first_exists(old_table, text@, m);
                    } else {
                        assert(full[m].0 == rule_text(bytes, rs[m - n0]));
                        assert(rule_text(bytes, rs[m - n0]) == rule_text(bytes, rs[i as int]));
                    }
                    assert(repeats_earlier(bytes, old_table, rs, i as int));
                    assert(tv =~= full);
                }
                let err = WithSpan {
                    span: name_span,
                    node: Error::MultipleDefinition { previous: previous.span },
                };
                let mut errs: Vec<WithSpan<Error>> = Vec::new();
                errs.push(err);
                proof {
                    assert(first_repeat(bytes, old_table, rs) == i);
                    assert(table_defined(bytes, old_table, rs));
                }
                return Some(Err(errs));
            },
            None => {
                proof {
                    assert(!repeats_earlier(bytes, old_table, rs, i as int)) by {
                        if exists|m: int|
                            0 <= m < i && #[trigger] rule_text(bytes, rs[m]) == rule_text(
                                bytes,
                                rs[i as int],
                            ) {
                            let m = choose|m: int|
                                0 <= m < i && #[trigger] rule_text(bytes, rs[m]) == rule_text(
                                    bytes,
                                    rs[i as int],
                                );
                            assert(tv[n0 + m] == full[n0 + m]);
                            lemma_lookup_first_exists(tv, text@, n0 + m);
                        }
                        if lookup(old_table, text@) is Some {
                            lemma_lookup_some(old_table, text@);
                            let m = choose|m: int|
                                0 <= m < old_table.len() && old_table[m].0 == text@ && old_table[m].1
                                    == lookup(old_table, text@)->0;
                            assert(tv[m] == full[m]);
                            lemma_lookup_first_exists(tv, text@, m);
                        }
                    }
                    lemma_first_repeat_from_ge(bytes, old_table, rs, i + 1);
                }
                let id = context.symbol_table.len() as u64;
                let entry = SymbolEntry {
                    name: text,
                    symbol: WithSpan { span: name_span, node: Symbol { id } },
                };
                context.symbol_table.push(entry);
                proof {
                    let nv = table_view(context.symbol_table@);
                    assert(i < first_repeat(bytes, old_table, rs));
                    assert(rule_name(rs[i as int])->0.span == name_span);
                    assert(nv[n0 + i] == full[n0 + i]);
                    assert forall|m: int| 0 <= m < n0 + i + 1 implies #[trigger] table_view(
                        context.symbol_table@,
                    )[m] == full[m] by {
                        if m < n0 + i {
                            assert(nv[m] == tv[m]);
                        }
                    }
                }
                i = i + 1;
            },
        }
    }
    proof {
        assert(table_view(context.symbol_table@) =~= table_of(bytes, old_table, rs));
        assert(table_defined(bytes, old_table, rs));
    }
    Some(Ok(()))
}

proof fn lemma_lookup_first_exists<V>(s: Seq<(Seq<char>, V)>, n: Seq<char>, j: int)
    requires
        0 <= j < s.len(),
        s[j].0 == n,
    ensures
        lookup(s, n) is Some,
    decreases j,
{
    if s[0].0 != n {
        assert(s.drop_first()[j - 1] == s[j]);
        lemma_lookup_first_exists(s.drop_first(), n, j - 1);
    }
}

/// The view of a translation result.
pub open spec fn core_result_view(r: Result<TermPtr, Vec<WithSpan<Error>>>) -> Result<
    TermPtr,
    Seq<WithSpan<Error>>,
> {
    match r {
        Ok(t) => Ok(t),
        Err(v) => Err(v@),
    }
}

/// The view of a translation outcome.
pub open spec fn core_outcome_view(r: Option<Result<TermPtr, Vec<WithSpan<Error>>>>) -> Option<
    Result<TermPtr, Seq<WithSpan<Error>>>,
> {
    match r {
        None => None,
        Some(x) => Some(core_result_view(x)),
    }
}

/// Translates a parser expression into a core term, resolving rule names in the
/// parser's symbol table and token names in its lexer's; collects the errors of
/// both operands of a binary operator. `None` where the translation gives up.
fn construct_core_syntax_tree(
    translation_context: &Parser,
    sst: &WithSpan<SurfaceSyntaxTree>,
    src: &str,
) -> (r: Option<Result<TermPtr, Vec<WithSpan<Error>>>>)
    ensures
        spec_core(
            src.spec_bytes(),
            table_view(translation_context.symbol_table@),
            translation_context.lexer_database@,
            *sst,
        ) == core_outcome_view(r),
    decreases sst,
{
    let span = sst.span;
    match &sst.node {
        SurfaceSyntaxTree::ParserAlternative { lhs, rhs } => {
            let lhs = construct_core_syntax_tree(translation_context, lhs, src);
            let rhs = construct_core_syntax_tree(translation_context, rhs, src);
            match (lhs, rhs) {
                (Some(l), Some(r)) => Some(join(l, r, span, true)),
                _ => None,
            }
        },
        SurfaceSyntaxTree::ParserSequence { lhs, rhs } => {
            let lhs = construct_core_syntax_tree(translation_context, lhs, src);
            let rhs = construct_core_syntax_tree(translation_context, rhs, src);
            match (lhs, rhs) {
                (Some(l), Some(r)) => Some(join(l, r, span, false)),
                _ => None,
            }
        },
        SurfaceSyntaxTree::ParserOptional { inner } => {
            let inner = match construct_core_syntax_tree(translation_context, inner, src) {
                None => {
                    return None;
                },
                Some(Ok(t)) => t,
                Some(Err(e)) => {
                    return Some(Err(e));
                },
            };
            Some(
                Ok(
                    Box::new(
                        WithSpan {
                            span,
                            node: Term::Alternative(
                                inner,
                                Box::new(WithSpan { span, node: Term::Epsilon }),
                            ),
                        },
                    ),
                ),
            )
        },
        SurfaceSyntaxTree::Bottom => Some(Ok(Box::new(WithSpan { span, node: Term::Bottom }))),
        SurfaceSyntaxTree::Empty => Some(Ok(Box::new(WithSpan { span, node: Term::Epsilon }))),
        SurfaceSyntaxTree::ParserRuleRef { name } => {
            let text = match text_of(src, name.span) {
                Some(t) => t,
                None => {
                    return None;
                },
            };
            match find_symbol(&translation_context.symbol_table, &text) {
                Some(target) => Some(
                    Ok(Box::new(WithSpan { span, node: Term::ParserRef(target.node) })),
                ),
                None => {
                    let mut errs = Vec::new();
                    errs.push(
                        WithSpan {
                            span,
                            node: Error::UndefinedParserRuleReference { name: name.span },
                        },
                    );
                    Some(Err(errs))
                },
            }
        },
        SurfaceSyntaxTree::LexicalRuleRef { name } => {
            let text = match text_of(src, name.span) {
                Some(t) => t,
                None => {
                    return None;
                },
            };
            match translation_context.lexer_database.get(&text) {
                Some(target) => Some(Ok(Box::new(WithSpan { span, node: Term::LexerRef(target) }))),
                None => {
                    let mut errs = Vec::new();
                    errs.push(
                        WithSpan {
                            span,
                            node: Error::UndefinedLexicalReference { name: name.span },
                        },
                    );
                    Some(Err(errs))
                },
            }
        },
        _ => None,
    }
}

/// Joins the translations of the operands of a binary operator.
fn join(
    lhs: Result<TermPtr, Vec<WithSpan<Error>>>,
    rhs: Result<TermPtr, Vec<WithSpan<Error>>>,
    span: Span,
    alternative: bool,
) -> (r: Result<TermPtr, Vec<WithSpan<Error>>>)
    ensures
        core_result_view(r) == combine(core_result_view(lhs), core_result_view(rhs), span, alternative),
{
    match (lhs, rhs) {
        (Ok(a), Ok(b)) => {
            let node = if alternative {
                Term::Alternative(a, b)
            } else {
                Term::Sequence(a, b)
            };
            Ok(Box::new(WithSpan { span, node }))
        },
        (Ok(_), Err(y)) => Err(y),
        (Err(x), Ok(_)) => Err(x),
        (Err(mut x), Err(mut y)) => {
            x.append(&mut y);
            Err(x)
        },
    }
}

/// What a parser built from `sst` holds, where `spec_parser` gives one.
pub open spec fn parser_matches(
    p: Parser,
    spec: Result<(Symbol, Map<u64, ParserRule>, Seq<(Seq<char>, WithSpan<Symbol>)>), Seq<WithSpan<Error>>>,
) -> bool {
    match spec {
        Ok((entrypoint, bindings, table)) => {
            &&& p.entrypoint == entrypoint
            &&& p.bindings@ == bindings
            &&& table_view(p.symbol_table@) == table
        },
        Err(_) => false,
    }
}

/// Translates the parser part of a grammar: builds the symbol table of its rule
/// names, resolves its entry point, and translates every rule; reports every
/// error found, or gives the parser. `None` where the translation gives up
/// (`parser_defined` does not hold).
pub fn try_construct_parser(
    lexer_database: LexerDatabase,
    sst: &WithSpan<SurfaceSyntaxTree>,
    src: &str,
) -> (r: Option<Result<Parser, Vec<WithSpan<Error>>>>)
    ensures
        r is Some <==> parser_defined(src.spec_bytes(), lexer_database@, *sst),
        match r {
            None => true,
            Some(Ok(p)) => parser_matches(
                p,
                spec_parser(src.spec_bytes(), lexer_database@, *sst),
            ) && p.lexer_database == lexer_database,
            Some(Err(v)) => spec_parser(
                src.spec_bytes(),
                lexer_database@,
                *sst,
            ) == Err::<(Symbol, Map<u64, ParserRule>, Seq<(Seq<char>, WithSpan<Symbol>)>), _>(v@),
        },
{
    let ghost bytes = src.spec_bytes();
    let ghost lex = lexer_database@;
    let ghost lexdb = lexer_database;
    let mut parser = Parser {
        entrypoint: Symbol { id: 0 },
        bindings: HashMap::new(),
        symbol_table: Vec::new(),
        lexer_database,
    };
    let (entrypoint, rules) = match &sst.node {
        SurfaceSyntaxTree::Parser { entrypoint, rules } => (entrypoint, rules),
        _ => {
            return None;
        },
    };
    let ghost rs = rules@;
    let ghost table = table_of(bytes, Seq::empty(), rs);
    assert(table_view(parser.symbol_table@) =~= Seq::empty());
    let mut errs = match construct_symbol_table(&mut parser, sst, src) {
        None => {
            return None;
        },
        Some(Ok(())) => Vec::new(),
        Some(Err(e)) => e,
    };
    assert(errs@ == table_errors(bytes, Seq::empty(), rs));
    let ep_text = match text_of(src, entrypoint.span) {
        Some(t) => t,
        None => {
            return None;
        },
    };
    let ep = match find_symbol(&parser.symbol_table, &ep_text) {
        Some(e) => e,
        None => {
            errs.push(
                WithSpan {
                    span: entrypoint.span,
                    node: Error::UndefinedParserRuleReference { name: entrypoint.span },
                },
            );
            return Some(Err(errs));
        },
    };
    let mut i: usize = 0;
    proof {
        assert(errs@ =~= table_errors(bytes, Seq::empty(), rs) + fold_rules(bytes, table, lex, rs, 0).1);
    }
    while i < rules.len()
        invariant
            bytes == src.spec_bytes(),
            rs == rules@,
            sst.node == (SurfaceSyntaxTree::Parser { entrypoint: *entrypoint, rules: *rules }),
            table == table_of(bytes, Seq::empty(), rs),
            table_defined(bytes, Seq::empty(), rs),
            name_text(bytes, entrypoint.span) == Some(ep_text@),
            lookup(table, ep_text@) is Some,
            lex == parser.lexer_database@,
            lex == lexer_database@,
            parser.lexer_database == lexdb,
            table_view(parser.symbol_table@) == table,
            forall|j: int|
                0 <= j < i ==> {
                    &&& #[trigger] rule_name(rs[j]) is Some
                    &&& spec_core(bytes, table, lex, rule_expr(rs[j])) is Some
                    &&& spec_core(bytes, table, lex, rule_expr(rs[j])) matches Some(Ok(_)) ==> {
                        &&& rule_ok(bytes, rs[j])
                        &&& lookup(table, rule_text(bytes, rs[j])) is Some
                    }
                },
            0 <= i <= rs.len(),
            parser.bindings@ == fold_rules(bytes, table, lex, rs, i as int).0,
            errs@ == table_errors(bytes, Seq::empty(), rs) + fold_rules(bytes, table, lex, rs, i as int).1,
        decreases rs.len() - i,
    {
        let rule = &rules[i];
        let (active, name_span, expr, fixpoint) = match &rule.node {
            SurfaceSyntaxTree::ParserDefinition { active, name, expr } => (*active, name.span, expr, false),
            SurfaceSyntaxTree::ParserFixpoint { active, name, expr } => (*active, name.span, expr, true),
            _ => {
                assert(rule_name(rs[i as int]) is None);
                return None;
            },
        };
        assert(**expr == rule_expr(rs[i as int]));
        match construct_core_syntax_tree(&parser, expr, src) {
            None => {
                assert(rule_name(rs[i as int]) is Some);
                assert(!rules_defined(bytes, table, lex, rs));
                return None;
            },
            Some(Ok(t)) => {
                let text = match text_of(src, name_span) {
                    Some(t) => t,
                    None => {
                        assert(!rule_ok(bytes, rs[i as int]));
                        assert(rule_name(rs[i as int]) is Some);
                        assert(!rules_defined(bytes, table, lex, rs));
                        return None;
                    },
                };
                assert(text@ == rule_text(bytes, rs[i as int]));
                let sym = match find_symbol(&parser.symbol_table, &text) {
                    Some(s) => s.node,
                    None => {
                        assert(rule_name(rs[i as int]) is Some);
                        assert(!rules_defined(bytes, table, lex, rs));
                        return None;
                    },
                };
                let term = if fixpoint {
                    Box::new(WithSpan { span: rule.span, node: Term::Fix(sym, t) })
                } else {
                    let inner = *t;
                    Box::new(WithSpan { span: rule.span, node: inner.node })
                };
                parser.bindings.insert(sym.id, ParserRule { active, term });
            },
            Some(Err(mut e)) => {
                errs.append(&mut e);
                proof {
                    assert(errs@ =~= table_errors(bytes, Seq::empty(), rs) + fold_rules(
                        bytes,
                        table,
                        lex,
                        rs,
                        i + 1,
                    ).1);
                }
            },
        }
        i = i + 1;
    }
    assert(rules_defined(bytes, table, lex, rs));
    parser.entrypoint = ep.node;
    if errs.len() > 0 {
        return Some(Err(errs));
    }
    Some(Ok(parser))
}

/// Translates the parser part of a grammar: builds the symbol table of its rule
/// names, resolves its entry point, and translates every rule; reports every
/// error found, or gives the parser. The translation must not give up on `sst`
/// (see `try_construct_parser`).
pub fn construct_parser(
    lexer_database: LexerDatabase,
    sst: &WithSpan<SurfaceSyntaxTree>,
    src: &str,
) -> (r: Result<Parser, Vec<WithSpan<Error>>>)
    requires
        parser_defined(src.spec_bytes(), lexer_database@, *sst),
    ensures
        match r {
            Ok(p) => parser_matches(
                p,
                spec_parser(src.spec_bytes(), lexer_database@, *sst),
            ) && p.lexer_database == lexer_database,
            Err(v) => spec_parser(
                src.spec_bytes(),
                lexer_database@,
                *sst,
            ) == Err::<(Symbol, Map<u64, ParserRule>, Seq<(Seq<char>, WithSpan<Symbol>)>), _>(v@),
        },
{
    match try_construct_parser(lexer_database, sst, src) {
        Some(r) => r,
        None => {
            assert(false);
            Err(Vec::new())
        },
    }
}

proof fn lemma_no_repeat_before(
    src: Seq<u8>,
    old: Table,
    rules: Seq<WithSpan<SurfaceSyntaxTree>>,
    j0: int,
    j: int,
)
    requires
        0 <= j0 <= j < first_repeat_from(src, old, rules, j0),
        j < rules.len(),
    ensures
        !repeats_earlier(src, old, rules, j),
    decreases j - j0,
{
    if j0 < j {
        if !repeats_earlier(src, old, rules, j0) {
            lemma_no_repeat_before(src, old, rules, j0 + 1, j);
        }
    }
}

/// A symbol table whose names are pairwise distinct stays so when the names of
/// a parser definition are entered into it: each entered rule has the symbol of
/// its position in the table, and every name is found with its own symbol.
pub proof fn law_symbol_table_names_distinct(
    src: Seq<u8>,
    old: Table,
    rules: Seq<WithSpan<SurfaceSyntaxTree>>,
)
    requires
        forall|i: int, j: int| 0 <= i < j < old.len() ==> #[trigger] old[i].0 != #[trigger] old[j].0,
        old.len() + rules.len() <= usize::MAX,
    ensures
        ({
            let table = table_of(src, old, rules);
            &&& old.len() <= table.len() <= old.len() + rules.len()
            &&& table.subrange(0, old.len() as int) == old
            &&& forall|i: int, j: int|
                0 <= i < j < table.len() ==> #[trigger] table[i].0 != #[trigger] table[j].0
            &&& forall|i: int|
                old.len() <= i < table.len() ==> (#[trigger] table[i]).1.node.id == i
            &&& forall|i: int|
                0 <= i < table.len() ==> lookup(table, #[trigger] table[i].0) == Some(table[i].1)
        }),
{
    let table = table_of(src, old, rules);
    let n0 = old.len();
    lemma_first_repeat_from_ge(src, old, rules, 0);
    assert(table.subrange(0, n0 as int) =~= old);
    assert forall|i: int, j: int| 0 <= i < j < table.len() implies #[trigger] table[i].0
        != #[trigger] table[j].0 by {
        if j >= n0 {
            lemma_no_repeat_before(src, old, rules, 0, j - n0);
            if table[i].0 == table[j].0 {
                if i >= n0 {
                    assert(rule_text(src, rules[i - n0]) == rule_text(src, rules[j - n0]));
                } else {
                    assert(table[i] == old[i]);
                    lemma_lookup_first_exists(old, old[i].0, i);
                }
                assert(repeats_earlier(src, old, rules, j - n0));
            }
        } else {
            assert(table[i] == old[i] && table[j] == old[j]);
        }
    }
    assert forall|i: int| 0 <= i < table.len() implies lookup(table, #[trigger] table[i].0) == Some(
        table[i].1,
    ) by {
        assert forall|m: int| 0 <= m < i implies table[m].0 != table[i].0 by {
            assert(table[m].0 != table[i].0);
        }
        lemma_lookup_first(table, table[i].0, i);
    }
}

proof fn lemma_core_errors_nonempty(
    src: Seq<u8>,
    table: Seq<(Seq<char>, WithSpan<Symbol>)>,
    lexer: Map<Seq<char>, Symbol>,
    t: WithSpan<SurfaceSyntaxTree>,
)
    ensures
        spec_core(src, table, lexer, t) matches Some(Err(x)) ==> x.len() > 0,
    decreases t,
{
    match t.node {
        SurfaceSyntaxTree::ParserAlternative { lhs, rhs } => {
            lemma_core_errors_nonempty(src, table, lexer, *lhs);
            lemma_core_errors_nonempty(src, table, lexer, *rhs);
        },
        SurfaceSyntaxTree::ParserSequence { lhs, rhs } => {
            lemma_core_errors_nonempty(src, table, lexer, *lhs);
            lemma_core_errors_nonempty(src, table, lexer, *rhs);
        },
        SurfaceSyntaxTree::ParserOptional { inner } => {
            lemma_core_errors_nonempty(src, table, lexer, *inner);
        },
        _ => {},
    }
}

proof fn lemma_fold_no_errors(
    src: Seq<u8>,
    table: Seq<(Seq<char>, WithSpan<Symbol>)>,
    lexer: Map<Seq<char>, Symbol>,
    rules: Seq<WithSpan<SurfaceSyntaxTree>>,
    n: int,
)
    requires
        0 <= n <= rules.len(),
        rules_defined(src, table, lexer, rules),
        fold_rules(src, table, lexer, rules, n).1.len() == 0,
    ensures
        forall|j: int|
            0 <= j < n ==> fold_rules(src, table, lexer, rules, n).0.contains_key(
                lookup(table, rule_text(src, #[trigger] rules[j]))->0.node.id,
            ),
        forall|j: int|
            0 <= j < n ==> spec_core(src, table, lexer, rule_expr(#[trigger] rules[j])) matches Some(
                Ok(_),
            ),
    decreases n,
{
    if n > 0 {
        let r = rules[n - 1];
        assert(rule_name(rules[n - 1]) is Some);
        lemma_core_errors_nonempty(src, table, lexer, rule_expr(r));
        let prev = fold_rules(src, table, lexer, rules, n - 1);
        assert(prev.1.len() == 0);
        lemma_fold_no_errors(src, table, lexer, rules, n - 1);
    }
}

/// A parser definition that translates without errors binds every one of its
/// rules, its entry point among them.
pub proof fn law_parser_binds_every_rule(
    src: Seq<u8>,
    lexer: Map<Seq<char>, Symbol>,
    sst: WithSpan<SurfaceSyntaxTree>,
)
    requires
        parser_defined(src, lexer, sst),
        spec_parser(src, lexer, sst) is Ok,
    ensures
        ({
            let (entrypoint, bindings, table) = spec_parser(src, lexer, sst)->Ok_0;
            &&& bindings.contains_key(entrypoint.id)
            &&& forall|i: int|
                0 <= i < table.len() ==> bindings.contains_key((#[trigger] table[i]).1.node.id)
            &&& table.len() == sst.node->Parser_rules@.len()
        }),
{
    let rs = sst.node->Parser_rules@;
    let table = table_of(src, Seq::empty(), rs);
    let entrypoint = sst.node->Parser_entrypoint;
    let ep = lookup(table, name_text(src, entrypoint.span)->0);
    assert(ep is Some);
    let (m, e) = fold_rules(src, table, lexer, rs, rs.len() as int);
    assert(rs.len() == sst.node->Parser_rules.len());
    law_symbol_table_names_distinct(src, Seq::empty(), rs);
    lemma_first_repeat_from_ge(src, Seq::empty(), rs, 0);
    assert(table.len() == rs.len());
    lemma_fold_no_errors(src, table, lexer, rs, rs.len() as int);
    assert forall|i: int| 0 <= i < table.len() implies m.contains_key(
        (#[trigger] table[i]).1.node.id,
    ) by {
        assert(table[i].0 == rule_text(src, rs[i]));
        assert(lookup(table, table[i].0) == Some(table[i].1));
        assert(m.contains_key(lookup(table, rule_text(src, rs[i]))->0.node.id));
    }
    lemma_lookup_some(table, name_text(src, entrypoint.span)->0);
    let j = choose|j: int|
        0 <= j < table.len() && table[j].0 == name_text(src, entrypoint.span)->0 && table[j].1
            == ep->0;
    assert(m.contains_key(table[j].1.node.id));
}

/// The references of a parser expression, left to right, that name no parser
/// rule of `table` or no token of `lexer`, each as the error that reports it.
pub open spec fn undefined_references(
    src: Seq<u8>,
    table: Table,
    lexer: Map<Seq<char>, Symbol>,
    t: WithSpan<SurfaceSyntaxTree>,
) -> Seq<WithSpan<Error>>
    decreases t,
{
    match t.node {
        SurfaceSyntaxTree::ParserAlternative { lhs, rhs } => undefined_references(src, table, lexer, *lhs)
            + undefined_references(src, table, lexer, *rhs),
        SurfaceSyntaxTree::ParserSequence { lhs, rhs } => undefined_references(src, table, lexer, *lhs)
            + undefined_references(src, table, lexer, *rhs),
        SurfaceSyntaxTree::ParserOptional { inner } => undefined_references(src, table, lexer, *inner),
        SurfaceSyntaxTree::ParserRuleRef { name } => {
            if name_text(src, name.span) matches Some(n) && lookup(table, n) is None {
                seq![WithSpan { span: t.span, node: Error::UndefinedParserRuleReference { name: name.span } }]
            } else {
                Seq::empty()
            }
        },
        SurfaceSyntaxTree::LexicalRuleRef { name } => {
            if name_text(src, name.span) matches Some(n) && !lexer.contains_key(n) {
                seq![WithSpan { span: t.span, node: Error::UndefinedLexicalReference { name: name.span } }]
            } else {
                Seq::empty()
            }
        },
        _ => Seq::empty(),
    }
}

/// Translating a parser expression reports every undefined reference in it, in
/// the order they occur, and nothing else; it succeeds exactly when there is
/// none (for both operands of a sequence or an alternative alike).
pub proof fn law_translation_reports_every_undefined_reference(
    src: Seq<u8>,
    table: Table,
    lexer: Map<Seq<char>, Symbol>,
    t: WithSpan<SurfaceSyntaxTree>,
)
    requires
        spec_core(src, table, lexer, t) is Some,
    ensures
        spec_core(src, table, lexer, t) is Some && (spec_core(src, table, lexer, t)->0 is Ok
            <==> undefined_references(src, table, lexer, t).len() == 0),
        spec_core(src, table, lexer, t) matches Some(Err(e)) ==> e == undefined_references(
            src,
            table,
            lexer,
            t,
        ),
    decreases t,
{
    match t.node {
        SurfaceSyntaxTree::ParserAlternative { lhs, rhs } => {
            law_translation_reports_every_undefined_reference(src, table, lexer, *lhs);
            law_translation_reports_every_undefined_reference(src, table, lexer, *rhs);
        },
        SurfaceSyntaxTree::ParserSequence { lhs, rhs } => {
            law_translation_reports_every_undefined_reference(src, table, lexer, *lhs);
            law_translation_reports_every_undefined_reference(src, table, lexer, *rhs);
        },
        SurfaceSyntaxTree::ParserOptional { inner } => {
            law_translation_reports_every_undefined_reference(src, table, lexer, *inner);
        },
        _ => {},
    }
}

/// A successful translation starts at the symbol that its symbol table gives the
/// name of the entry point.
pub proof fn law_parser_entry_point_is_named(
    src: Seq<u8>,
    lexer: Map<Seq<char>, Symbol>,
    sst: WithSpan<SurfaceSyntaxTree>,
)
    requires
        spec_parser(src, lexer, sst) is Ok,
    ensures
        ({
            let (entrypoint, _, table) = spec_parser(src, lexer, sst)->Ok_0;
            &&& sst.node is Parser
            &&& lookup(table, name_text(src, sst.node->Parser_entrypoint.span)->0) matches Some(s)
                && s.node == entrypoint
        }),
{
}

/// An entry point that names no rule is reported after the errors of the symbol
/// table, at the entry point's span, and the translation fails.
pub proof fn law_undefined_entry_point_reported(
    src: Seq<u8>,
    lexer: Map<Seq<char>, Symbol>,
    sst: WithSpan<SurfaceSyntaxTree>,
)
    requires
        sst.node is Parser,
        lookup(
            table_of(src, Seq::empty(), sst.node->Parser_rules@),
            name_text(src, sst.node->Parser_entrypoint.span)->0,
        ) is None,
    ensures
        ({
            let ep = sst.node->Parser_entrypoint;
            spec_parser(src, lexer, sst) == Err::<
                (Symbol, Map<u64, ParserRule>, Seq<(Seq<char>, WithSpan<Symbol>)>),
                Seq<WithSpan<Error>>,
            >(
                table_errors(src, Seq::empty(), sst.node->Parser_rules@).push(
                    WithSpan { span: ep.span, node: Error::UndefinedParserRuleReference { name: ep.span } },
                ),
            )
        }),
{
}

/// The activity that a rule definition declares.
pub open spec fn declared_active(r: WithSpan<SurfaceSyntaxTree>) -> bool {
    match r.node {
        SurfaceSyntaxTree::ParserDefinition { active, .. } => active,
        SurfaceSyntaxTree::ParserFixpoint { active, .. } => active,
        _ => false,
    }
}

proof fn lemma_fold_binds_each_rule(
    src: Seq<u8>,
    table: Table,
    lexer: Map<Seq<char>, Symbol>,
    rules: Seq<WithSpan<SurfaceSyntaxTree>>,
    n: int,
)
    requires
        0 <= n <= rules.len(),
        rules_defined(src, table, lexer, rules),
        fold_rules(src, table, lexer, rules, n).1.len() == 0,
        forall|j: int|
            0 <= j < rules.len() ==> lookup(table, rule_text(src, #[trigger] rules[j]))->0.node.id == j,
    ensures
        forall|j: int|
            0 <= j < n ==> {
                let m = fold_rules(src, table, lexer, rules, n).0;
                &&& m.contains_key(j as u64)
                &&& m[j as u64].active == declared_active(#[trigger] rules[j])
                &&& m[j as u64].term.span == rules[j].span
                &&& spec_core(src, table, lexer, rule_expr(rules[j])) matches Some(Ok(core))
                &&& (rules[j].node is ParserFixpoint ==> (m[j as u64].term.node matches Term::Fix(
                    sym,
                    body,
                ) && sym.id == j && body == core))
                &&& (!(rules[j].node is ParserFixpoint) ==> m[j as u64].term.node == core.node)
            },
    decreases n,
{
    if n > 0 {
        let r = rules[n - 1];
        assert(rule_name(rules[n - 1]) is Some);
        lemma_core_errors_nonempty(src, table, lexer, rule_expr(r));
        lemma_fold_binds_each_rule(src, table, lexer, rules, n - 1);
        assert(lookup(table, rule_text(src, rules[n - 1]))->0.node.id == n - 1);
    }
}

/// A successful translation binds the symbol of each rule to the translation of
/// its expression, with the rule's span and the activity its definition
/// declares; a fixpoint definition binds a fixpoint of its own symbol over that
/// translation.
pub proof fn law_parser_keeps_rule_activity(
    src: Seq<u8>,
    lexer: Map<Seq<char>, Symbol>,
    sst: WithSpan<SurfaceSyntaxTree>,
)
    requires
        parser_defined(src, lexer, sst),
        spec_parser(src, lexer, sst) is Ok,
    ensures
        ({
            let (_, bindings, table) = spec_parser(src, lexer, sst)->Ok_0;
            let rs = sst.node->Parser_rules@;
            forall|j: int|
                0 <= j < rs.len() ==> {
                    let sym = lookup(table, rule_text(src, #[trigger] rs[j]))->0.node;
                    &&& bindings.contains_key(sym.id)
                    &&& bindings[sym.id].active == declared_active(rs[j])
                    &&& bindings[sym.id].term.span == rs[j].span
                    &&& spec_core(src, table, lexer, rule_expr(rs[j])) matches Some(Ok(core))
                    &&& (rs[j].node is ParserFixpoint ==> (bindings[sym.id].term.node matches Term::Fix(
                        s,
                        body,
                    ) && s == sym && body == core))
                    &&& (!(rs[j].node is ParserFixpoint) ==> bindings[sym.id].term.node == core.node)
                }
        }),
{
    let rs = sst.node->Parser_rules@;
    let table = table_of(src, Seq::empty(), rs);
    law_parser_binds_every_rule(src, lexer, sst);
    assert(rs.len() == sst.node->Parser_rules.len());
    law_symbol_table_names_distinct(src, Seq::empty(), rs);
    lemma_first_repeat_from_ge(src, Seq::empty(), rs, 0);
    assert(table.len() == rs.len());
    assert forall|j: int| 0 <= j < rs.len() implies lookup(table, rule_text(src, #[trigger] rs[j]))->0.node.id
        == j by {
        assert(table[j].0 == rule_text(src, rs[j]));
        assert(lookup(table, table[j].0) == Some(table[j].1));
    }
    lemma_fold_binds_each_rule(src, table, lexer, rs, rs.len() as int);
    assert forall|j: int| 0 <= j < rs.len() implies ({
        let sym = lookup(table, rule_text(src, #[trigger] rs[j]))->0.node;
        lookup(table, rule_text(src, rs[j])) == Some(table[j].1) && sym.id == j && sym == table[j].1.node
    }) by {
        assert(table[j].0 == rule_text(src, rs[j]));
        assert(lookup(table, table[j].0) == Some(table[j].1));
    }
}

/// The map of the first symbol that `s` pairs with each name.
pub open spec fn first_values<V>(s: Seq<(Seq<char>, V)>) -> Map<Seq<char>, V> {
    Map::new(|k: Seq<char>| lookup(s, k) is Some, |k: Seq<char>| lookup(s, k)->0)
}

impl LexerDatabase {
    spec fn entries(&self) -> Seq<(Seq<char>, Symbol)> {
        Seq::new(self.symbol_table@.len(), |i: int| (self.symbol_table@[i].name@, self.symbol_table@[i].symbol))
    }

    /// Every token name occurs once.
    pub closed spec fn wf(&self) -> bool {
        forall|i: int, j: int|
            0 <= i < j < self.symbol_table@.len() ==> #[trigger] self.symbol_table@[i].name@
                != #[trigger] self.symbol_table@[j].name@
    }

    /// A database that knows no token.
    pub fn new() -> (r: Self)
        ensures
            r.wf(),
            r@ == Map::<Seq<char>, Symbol>::empty(),
    {
        let r = LexerDatabase { symbol_table: Vec::new() };
        proof {
            assert(r@ =~= Map::<Seq<char>, Symbol>::empty());
        }
        r
    }

    /// The symbol of a token name.
    pub fn get(&self, name: &String) -> (r: Option<Symbol>)
        ensures
            r == (if self@.contains_key(name@) {
                Some(self@[name@])
            } else {
                None::<Symbol>
            }),
    {
        let ghost v = self.entries();
        let mut i: usize = 0;
        while i < self.symbol_table.len()
            invariant
                v == self.entries(),
                0 <= i <= self.symbol_table.len(),
                forall|m: int| 0 <= m < i ==> v[m].0 != name@,
            decreases self.symbol_table.len() - i,
        {
            if self.symbol_table[i].name == *name {
                proof {
                    lemma_lookup_first(v, name@, i as int);
                }
                return Some(self.symbol_table[i].symbol);
            }
            i = i + 1;
        }
        proof {
            lemma_lookup_none(v, name@);
        }
        None
    }

    /// Makes `name` known with `symbol`; gives the symbol it had before, if any.
    pub fn insert(&mut self, name: String, symbol: Symbol) -> (r: Option<Symbol>)
        requires
            old(self).wf(),
        ensures
            final(self).wf(),
            final(self)@ == old(self)@.insert(name@, symbol),
            r == (if old(self)@.contains_key(name@) {
                Some(old(self)@[name@])
            } else {
                None::<Symbol>
            }),
    {
        let ghost v = self.entries();
        let mut i: usize = 0;
        while i < self.symbol_table.len()
            invariant
                v == self.entries(),
                v == old(self).entries(),
                *self == *old(self),
                old(self).wf(),
                0 <= i <= self.symbol_table.len(),
                forall|m: int| 0 <= m < i ==> v[m].0 != name@,
            decreases self.symbol_table.len() - i,
        {
            if self.symbol_table[i].name == name {
                proof {
                    lemma_lookup_first(v, name@, i as int);
                }
                let previous = self.symbol_table[i].symbol;
                let ghost before = self.symbol_table@;
                self.symbol_table.set(i, LexerEntry { name, symbol });
                proof {
                    let w = self.entries();
                    assert(w =~= v.update(i as int, (v[i as int].0, symbol)));
                    assert forall|k: Seq<char>| #[trigger] lookup(w, k) == (if k == v[i as int].0 {
                        Some(symbol)
                    } else {
                        lookup(v, k)
                    }) by {
                        lemma_lookup_update(v, i as int, symbol, k);
                    }
                    assert(self@ =~= old(self)@.insert(name@, symbol));
                    assert forall|a: int, b: int|
                        0 <= a < b < self.symbol_table@.len() implies #[trigger] self.symbol_table@[a].name@
                        != #[trigger] self.symbol_table@[b].name@ by {
                        assert(before == old(self).symbol_table@);
                        assert(before[a].name@ != before[b].name@);
                        assert(v[a].0 == w[a].0 && v[b].0 == w[b].0);
                        assert(self.symbol_table@[a].name@ == w[a].0);
                        assert(self.symbol_table@[b].name@ == w[b].0);
                    }
                }
                return Some(previous);
            }
            i = i + 1;
        }
        proof {
            lemma_lookup_none(v, name@);
        }
        let ghost nm = name@;
        self.symbol_table.push(LexerEntry { name, symbol });
        proof {
            let w = self.entries();
            assert(w =~= v.push((nm, symbol)));
            assert forall|k: Seq<char>| #[trigger] lookup(w, k) == (if k == nm {
                Some(symbol)
            } else {
                lookup(v, k)
            }) by {
                lemma_lookup_push(v, nm, symbol, k);
            }
            assert(self@ =~= old(self)@.insert(nm, symbol));
            assert forall|a: int, b: int|
                0 <= a < b < self.symbol_table@.len() implies #[trigger] self.symbol_table@[a].name@
                != #[trigger] self.symbol_table@[b].name@ by {
                assert(self.symbol_table@[a].name@ == w[a].0 && self.symbol_table@[b].name@ == w[b].0);
                if b == v.len() {
                    assert(v[a].0 != nm);
                }
            }
        }
        None
    }
}

impl View for LexerDatabase {
    type V = Map<Seq<char>, Symbol>;

    closed spec fn view(&self) -> Map<Seq<char>, Symbol> {
        first_values(self.entries())
    }
}

proof fn lemma_lookup_push<V>(s: Seq<(Seq<char>, V)>, n: Seq<char>, v: V, k: Seq<char>)
    requires
        lookup(s, n) is None,
    ensures
        lookup(s.push((n, v)), k) == (if k == n {
            Some(v)
        } else {
            lookup(s, k)
        }),
    decreases s.len(),
{
    if s.len() == 0 {
        assert(s.push((n, v)).drop_first() =~= Seq::<(Seq<char>, V)>::empty());
    } else {
        assert(s.push((n, v)).drop_first() =~= s.drop_first().push((n, v)));
        if s[0].0 != n {
            lemma_lookup_push(s.drop_first(), n, v, k);
        }
    }
}

proof fn lemma_lookup_update<V>(s: Seq<(Seq<char>, V)>, i: int, v: V, k: Seq<char>)
    requires
        0 <= i < s.len(),
        lookup(s, s[i].0) == Some(s[i].1),
        forall|m: int| 0 <= m < i ==> s[m].0 != s[i].0,
    ensures
        lookup(s.update(i, (s[i].0, v)), k) == (if k == s[i].0 {
            Some(v)
        } else {
            lookup(s, k)
        }),
    decreases i,
{
    let t = s.update(i, (s[i].0, v));
    if i == 0 {
        assert(t.drop_first() =~= s.drop_first());
    } else {
        assert(t.drop_first() =~= s.drop_first().update(i - 1, (s[i].0, v)));
        assert(s.drop_first()[i - 1] == s[i]);
        if s[0].0 != k {
            assert forall|m: int| 0 <= m < i - 1 implies (#[trigger] s.drop_first()[m]).0 != s.drop_first()[i - 1].0 by {
                assert(s.drop_first()[m] == s[m + 1]);
            }
            assert(s[0].0 != s[i].0);
            lemma_lookup_first(s.drop_first(), s[i].0, i - 1);
            lemma_lookup_update(s.drop_first(), i - 1, v, k);
        }
    }
}

} // verus!
