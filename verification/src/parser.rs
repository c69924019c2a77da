use vstd::prelude::*;

use crate::span::Span;
use crate::tokenizer::{Keyword, Token, TokenModel};
use crate::values::{Value, ValueModel};

verus! {

// ---------------------------------------------------------------------------
// The syntax tree
// ---------------------------------------------------------------------------
/// A node of the syntax tree, each carrying the source range it covers.
#[derive(Debug)]
pub enum AstNode {
    /// A literal value.
    Literal(Span, Value),
    /// A bare name, resolved at evaluation time.
    Symbol(Span, String),
    /// A parenthesized expression; no new scope.
    Group(Span, Vec<AstNode>),
    /// A brace-delimited statement run; a new scope.
    Block(Span, Vec<AstNode>),
    /// An operator or `print` applied to arguments.
    Application(Span, Box<AstNode>, Vec<AstNode>),
    /// `var name = initializer`: a fresh binding.
    Declaration(Span, String, Box<AstNode>),
    /// `name = value`: rebinding an existing name.
    Assignment(Span, String, Box<AstNode>),
    /// The root sequence.
    Program(Span, Vec<AstNode>),
}

/// The mathematical model of a syntax tree.
#[verifier::ext_equal]
pub enum AstModel {
    Literal(Span, ValueModel),
    Symbol(Span, Seq<char>),
    Group(Span, Seq<AstModel>),
    Block(Span, Seq<AstModel>),
    Application(Span, Box<AstModel>, Seq<AstModel>),
    Declaration(Span, Seq<char>, Box<AstModel>),
    Assignment(Span, Seq<char>, Box<AstModel>),
    Program(Span, Seq<AstModel>),
}

/// The model of one node.
pub open spec fn ast_model(n: AstNode) -> AstModel
    decreases n,
{
    match n {
        AstNode::Literal(sp, v) => AstModel::Literal(sp, v@),
        AstNode::Symbol(sp, s) => AstModel::Symbol(sp, s@),
        AstNode::Group(sp, ns) => AstModel::Group(sp, ast_models(ns@, 0)),
        AstNode::Block(sp, ns) => AstModel::Block(sp, ast_models(ns@, 0)),
        AstNode::Application(sp, f, args) => AstModel::Application(
            sp,
            Box::new(ast_model(*f)),
            ast_models(args@, 0),
        ),
        AstNode::Declaration(sp, name, body) => AstModel::Declaration(
            sp,
            name@,
            Box::new(ast_model(*body)),
        ),
        AstNode::Assignment(sp, name, body) => AstModel::Assignment(
            sp,
            name@,
            Box::new(ast_model(*body)),
        ),
        AstNode::Program(sp, ns) => AstModel::Program(sp, ast_models(ns@, 0)),
    }
}

/// The models of a run of nodes, from position `k` on.
pub open spec fn ast_models(ns: Seq<AstNode>, k: int) -> Seq<AstModel>
    decreases ns, ns.len() - k,
{
    if k < 0 || k >= ns.len() {
        Seq::empty()
    } else {
        seq![ast_model(ns[k])] + ast_models(ns, k + 1)
    }
}

impl View for AstNode {
    type V = AstModel;

    open spec fn view(&self) -> AstModel {
        ast_model(*self)
    }
}

pub proof fn lemma_ast_models_len(ns: Seq<AstNode>, k: int)
    requires
        0 <= k <= ns.len(),
    ensures
        ast_models(ns, k).len() == ns.len() - k,
        forall|j: int| k <= j < ns.len() ==> ast_models(ns, k)[j - k] == ast_model(#[trigger] ns[j]),
    decreases ns.len() - k,
{
    if k < ns.len() {
        lemma_ast_models_len(ns, k + 1);
    }
}

impl AstModel {
    /// The source range a node covers.
    pub open spec fn span(self) -> Span {
        match self {
            AstModel::Literal(sp, _) => sp,
            AstModel::Symbol(sp, _) => sp,
            AstModel::Group(sp, _) => sp,
            AstModel::Block(sp, _) => sp,
            AstModel::Application(sp, _, _) => sp,
            AstModel::Declaration(sp, _, _) => sp,
            AstModel::Assignment(sp, _, _) => sp,
            AstModel::Program(sp, _) => sp,
        }
    }

    /// Every literal value in the tree is well formed.
    pub open spec fn wf(self) -> bool
        decreases self,
    {
        match self {
            AstModel::Literal(_, v) => v.wf(),
            AstModel::Symbol(_, _) => true,
            AstModel::Group(_, ns) => ast_list_wf(ns, 0),
            AstModel::Block(_, ns) => ast_list_wf(ns, 0),
            AstModel::Application(_, f, args) => f.wf() && ast_list_wf(args, 0),
            AstModel::Declaration(_, _, body) => body.wf(),
            AstModel::Assignment(_, _, body) => body.wf(),
            AstModel::Program(_, ns) => ast_list_wf(ns, 0),
        }
    }
}

/// Well-formedness of a run of nodes, from position `k` on.
pub open spec fn ast_list_wf(ns: Seq<AstModel>, k: int) -> bool
    decreases ns, ns.len() - k,
{
    if k < 0 || k >= ns.len() {
        true
    } else {
        ns[k].wf() && ast_list_wf(ns, k + 1)
    }
}

pub proof fn lemma_ast_list_wf(ns: Seq<AstModel>, k: int)
    requires
        0 <= k <= ns.len(),
    ensures
        ast_list_wf(ns, k) <==> (forall|j: int| k <= j < ns.len() ==> (#[trigger] ns[j]).wf()),
    decreases ns.len() - k,
{
    if k < ns.len() {
        lemma_ast_list_wf(ns, k + 1);
    }
}

impl AstNode {
    /// The source range the node covers.
    pub fn span(&self) -> (s: Span)
        ensures
            s == self@.span(),
    {
        match self {
            AstNode::Literal(sp, _) => *sp,
            AstNode::Symbol(sp, _) => *sp,
            AstNode::Group(sp, _) => *sp,
            AstNode::Block(sp, _) => *sp,
            AstNode::Application(sp, _, _) => *sp,
            AstNode::Declaration(sp, _, _) => *sp,
            AstNode::Assignment(sp, _, _) => *sp,
            AstNode::Program(sp, _) => *sp,
        }
    }
}

// ---------------------------------------------------------------------------
// Parse errors
// ---------------------------------------------------------------------------
/// What the parser expected when it stopped.
#[derive(Debug, Clone, Copy, PartialEq, Eq, Structural)]
pub enum ParseErrorKind {
    /// `var` was not followed by a name.
    ExpectedIdentifier,
    /// A declaration's name was not followed by `=` or `;`.
    ExpectedEqualOrSemicolon,
    /// A position where an expression must begin held none.
    ExpectedExpression,
    /// A statement ended with neither `;` nor the end of input.
    ExpectedSemicolon,
    /// The left side of `=` was not a bare name.
    InvalidAssignmentTarget,
}

/// A fatal syntax fault: parsing stops at the first one.
#[derive(Debug, Clone, Copy, PartialEq, Eq, Structural)]
pub struct ParseError {
    /// The line of the offending token; zero at end of input.
    pub line: usize,
    pub kind: ParseErrorKind,
}

// ---------------------------------------------------------------------------
// The token stream as the parser sees it
// ---------------------------------------------------------------------------
/// The models of a run of tokens.
pub open spec fn token_models(ts: Seq<Token>) -> Seq<TokenModel> {
    Seq::new(ts.len(), |i: int| ts[i]@)
}

/// The token at a position; past the end stands end of input.
pub open spec fn tok_at(toks: Seq<TokenModel>, i: int) -> TokenModel {
    if 0 <= i < toks.len() {
        toks[i]
    } else {
        TokenModel::Eof
    }
}

/// The source range of a token; end of input carries the zero span.
pub open spec fn tok_span(t: TokenModel) -> Span {
    match t {
        TokenModel::Eof => Span { line: 0, start: 0, end: 0 },
        TokenModel::Keyword(sp, _) => sp,
        TokenModel::Literal(sp, _, _) => sp,
        TokenModel::Identifier(sp, _) => sp,
    }
}

/// Every number payload of the run is canonical.
pub open spec fn tokens_wf(toks: Seq<TokenModel>) -> bool {
    forall|i: int|
        0 <= i < toks.len() ==> match #[trigger] toks[i] {
            TokenModel::Literal(_, _, v) => v.wf(),
            _ => true,
        }
}

/// The remaining length of the stream, the parser's measure.
pub open spec fn rem(toks: Seq<TokenModel>, i: int) -> int {
    if i <= toks.len() {
        toks.len() - i
    } else {
        0
    }
}


// ---------------------------------------------------------------------------
// The grammar
// ---------------------------------------------------------------------------
/// An error for branches that progress bounds make unreachable.
pub open spec fn never_here() -> ParseError {
    ParseError { line: 0, kind: ParseErrorKind::ExpectedExpression }
}

/// The whole program: declarations up to end of input, spans folded
/// left to right from the zero span.
pub open spec fn spec_parse(toks: Seq<TokenModel>) -> Result<AstModel, ParseError> {
    match spec_program_items(toks, 0) {
        Ok((nodes, _)) => Ok(AstModel::Program(spans_fold(nodes), nodes)),
        Err(e) => Err(e),
    }
}

/// The left-to-right merge of the nodes' spans, from the zero span.
pub open spec fn spans_fold(ns: Seq<AstModel>) -> Span
    decreases ns.len(),
{
    if ns.len() == 0 {
        Span { line: 0, start: 0, end: 0 }
    } else {
        spans_fold(ns.drop_last()).spec_merge(ns.last().span())
    }
}

pub open spec fn spec_program_items(toks: Seq<TokenModel>, i: int) -> Result<
    (Seq<AstModel>, int),
    ParseError,
>
    decreases rem(toks, i), 13int,
{
    if tok_at(toks, i) is Eof {
        Ok((Seq::empty(), i))
    } else {
        match spec_declaration(toks, i) {
            Ok((node, j)) => if i < j && j <= toks.len() {
                match spec_program_items(toks, j) {
                    Ok((rest, k)) => Ok((seq![node] + rest, k)),
                    Err(e) => Err(e),
                }
            } else {
                Err(never_here())
            },
            Err(e) => Err(e),
        }
    }
}

/// `declaration := "var" ... | statement`.
pub open spec fn spec_declaration(toks: Seq<TokenModel>, i: int) -> Result<
    (AstModel, int),
    ParseError,
>
    decreases rem(toks, i), 12int,
{
    match tok_at(toks, i) {
        TokenModel::Keyword(_, Keyword::Var) => spec_var_statement(toks, i),
        _ => spec_statement(toks, i),
    }
}

/// `var IDENT ("=" expression)? (";"|EOF)`; without an initializer the
/// binding defaults to `nil`.
pub open spec fn spec_var_statement(toks: Seq<TokenModel>, i: int) -> Result<
    (AstModel, int),
    ParseError,
>
    decreases rem(toks, i), 11int,
{
    let vsp = tok_span(tok_at(toks, i));
    match tok_at(toks, i + 1) {
        TokenModel::Identifier(_, name) => match tok_at(toks, i + 2) {
            TokenModel::Keyword(ssp, Keyword::Semicolon) => {
                let sp = vsp.spec_merge(ssp);
                Ok(
                    (
                        AstModel::Declaration(
                            sp,
                            name,
                            Box::new(AstModel::Literal(sp, ValueModel::Nil)),
                        ),
                        i + 3,
                    ),
                )
            },
            TokenModel::Keyword(_, Keyword::Equal) => match spec_expression(toks, i + 3) {
                Ok((body, j)) => match spec_consume_semi(toks, j) {
                    Ok((ssp, k)) => Ok(
                        (
                            AstModel::Declaration(
                                vsp.spec_merge(body.span()).spec_merge(ssp),
                                name,
                                Box::new(body),
                            ),
                            k,
                        ),
                    ),
                    Err(e) => Err(e),
                },
                Err(e) => Err(e),
            },
            t => Err(
                ParseError { line: tok_span(t).line, kind: ParseErrorKind::ExpectedEqualOrSemicolon },
            ),
        },
        _ => Err(ParseError { line: vsp.line, kind: ParseErrorKind::ExpectedIdentifier }),
    }
}

/// `statement := block | "print" expression terminator | expression terminator`.
pub open spec fn spec_statement(toks: Seq<TokenModel>, i: int) -> Result<
    (AstModel, int),
    ParseError,
>
    decreases rem(toks, i), 11int,
{
    match tok_at(toks, i) {
        TokenModel::Keyword(_, Keyword::LeftBrace) => spec_block(toks, i),
        TokenModel::Keyword(_, Keyword::Print) => spec_print_statement(toks, i),
        _ => spec_expression_statement(toks, i),
    }
}

/// `block := "{" declaration* "}"`.
pub open spec fn spec_block(toks: Seq<TokenModel>, i: int) -> Result<(AstModel, int), ParseError>
    decreases rem(toks, i), 10int,
{
    let lsp = tok_span(tok_at(toks, i));
    if 0 <= i < toks.len() {
        match spec_block_items(toks, i + 1) {
            Ok((nodes, j)) => Ok(
                (AstModel::Block(lsp.spec_merge(tok_span(tok_at(toks, j))), nodes), j + 1),
            ),
            Err(e) => Err(e),
        }
    } else {
        Err(never_here())
    }
}

pub open spec fn spec_block_items(toks: Seq<TokenModel>, i: int) -> Result<
    (Seq<AstModel>, int),
    ParseError,
>
    decreases rem(toks, i), 13int,
{
    match tok_at(toks, i) {
        TokenModel::Keyword(_, Keyword::RightBrace) => Ok((Seq::empty(), i)),
        _ => match spec_declaration(toks, i) {
            Ok((node, j)) => if i < j && j <= toks.len() {
                match spec_block_items(toks, j) {
                    Ok((rest, k)) => Ok((seq![node] + rest, k)),
                    Err(e) => Err(e),
                }
            } else {
                Err(never_here())
            },
            Err(e) => Err(e),
        },
    }
}

/// `print expression terminator`, desugared to an application of the
/// symbol `print`.
pub open spec fn spec_print_statement(toks: Seq<TokenModel>, i: int) -> Result<
    (AstModel, int),
    ParseError,
>
    decreases rem(toks, i), 10int,
{
    let psp = tok_span(tok_at(toks, i));
    match spec_expression(toks, i + 1) {
        Ok((expr, j)) => match spec_consume_semi(toks, j) {
            Ok((ssp, k)) => {
                let sp = psp.spec_merge(expr.span()).spec_merge(ssp);
                Ok(
                    (
                        AstModel::Application(
                            sp,
                            Box::new(AstModel::Symbol(sp, "print"@)),
                            seq![expr],
                        ),
                        k,
                    ),
                )
            },
            Err(e) => Err(e),
        },
        Err(e) => Err(e),
    }
}

/// An expression followed by its terminator; the terminator's span is
/// not kept.
pub open spec fn spec_expression_statement(toks: Seq<TokenModel>, i: int) -> Result<
    (AstModel, int),
    ParseError,
>
    decreases rem(toks, i), 10int,
{
    match spec_expression(toks, i) {
        Ok((expr, j)) => match spec_consume_semi(toks, j) {
            Ok((_, k)) => Ok((expr, k)),
            Err(e) => Err(e),
        },
        Err(e) => Err(e),
    }
}

/// A statement terminator: `;` consumed, or end of input left in place.
pub open spec fn spec_consume_semi(toks: Seq<TokenModel>, i: int) -> Result<
    (Span, int),
    ParseError,
> {
    match tok_at(toks, i) {
        TokenModel::Keyword(ssp, Keyword::Semicolon) => Ok((ssp, i + 1)),
        TokenModel::Eof => Ok((Span { line: 0, start: 0, end: 0 }, i)),
        t => Err(ParseError { line: tok_span(t).line, kind: ParseErrorKind::ExpectedSemicolon }),
    }
}

pub open spec fn spec_expression(toks: Seq<TokenModel>, i: int) -> Result<
    (AstModel, int),
    ParseError,
>
    decreases rem(toks, i), 9int,
{
    spec_assignment(toks, i)
}

/// Right-associative assignment; the left side must be a bare name.
pub open spec fn spec_assignment(toks: Seq<TokenModel>, i: int) -> Result<
    (AstModel, int),
    ParseError,
>
    decreases rem(toks, i), 8int,
{
    match spec_equality(toks, i) {
        Ok((lhs, j)) => match tok_at(toks, j) {
            TokenModel::Keyword(_, Keyword::Equal) => match lhs {
                AstModel::Symbol(_, name) => if i < j + 1 && j + 1 <= toks.len() {
                    match spec_assignment(toks, j + 1) {
                        Ok((rhs, k)) => Ok(
                            (
                                AstModel::Assignment(
                                    lhs.span().spec_merge(rhs.span()),
                                    name,
                                    Box::new(rhs),
                                ),
                                k,
                            ),
                        ),
                        Err(e) => Err(e),
                    }
                } else {
                    Err(never_here())
                },
                _ => Err(
                    ParseError {
                        line: lhs.span().line,
                        kind: ParseErrorKind::InvalidAssignmentTarget,
                    },
                ),
            },
            _ => Ok((lhs, j)),
        },
        Err(e) => Err(e),
    }
}

/// The operators of the equality tier.
pub open spec fn equality_op(t: TokenModel) -> Option<(Span, Keyword)> {
    match t {
        TokenModel::Keyword(sp, k) => if k == Keyword::BangEqual || k == Keyword::EqualEqual {
            Some((sp, k))
        } else {
            None
        },
        _ => None,
    }
}

pub open spec fn spec_equality(toks: Seq<TokenModel>, i: int) -> Result<(AstModel, int), ParseError>
    decreases rem(toks, i), 7int,
{
    match spec_comparison(toks, i) {
        Ok((lhs, j)) => if i < j && j <= toks.len() {
            spec_equality_rest(toks, j, lhs)
        } else {
            Err(never_here())
        },
        Err(e) => Err(e),
    }
}

pub open spec fn spec_equality_rest(toks: Seq<TokenModel>, i: int, lhs: AstModel) -> Result<
    (AstModel, int),
    ParseError,
>
    decreases rem(toks, i), 7int,
{
    match equality_op(tok_at(toks, i)) {
        Some((osp, k)) => match spec_comparison(toks, i + 1) {
            Ok((rhs, j)) => {
                let node = AstModel::Application(
                    lhs.span().spec_merge(osp.spec_merge(rhs.span())),
                    Box::new(AstModel::Symbol(osp, k.text())),
                    seq![lhs, rhs],
                );
                if i < j && j <= toks.len() {
                    spec_equality_rest(toks, j, node)
                } else {
                    Err(never_here())
                }
            },
            Err(e) => Err(e),
        },
        None => Ok((lhs, i)),
    }
}

/// The operators of the comparison tier.
pub open spec fn comparison_op(t: TokenModel) -> Option<(Span, Keyword)> {
    match t {
        TokenModel::Keyword(sp, k) => if k == Keyword::Greater || k == Keyword::GreaterEqual || k == Keyword::Less || k == Keyword::LessEqual {
            Some((sp, k))
        } else {
            None
        },
        _ => None,
    }
}

pub open spec fn spec_comparison(toks: Seq<TokenModel>, i: int) -> Result<(AstModel, int), ParseError>
    decreases rem(toks, i), 6int,
{
    match spec_term(toks, i) {
        Ok((lhs, j)) => if i < j && j <= toks.len() {
            spec_comparison_rest(toks, j, lhs)
        } else {
            Err(never_here())
        },
        Err(e) => Err(e),
    }
}

pub open spec fn spec_comparison_rest(toks: Seq<TokenModel>, i: int, lhs: AstModel) -> Result<
    (AstModel, int),
    ParseError,
>
    decreases rem(toks, i), 6int,
{
    match comparison_op(tok_at(toks, i)) {
        Some((osp, k)) => match spec_term(toks, i + 1) {
            Ok((rhs, j)) => {
                let node = AstModel::Application(
                    lhs.span().spec_merge(osp.spec_merge(rhs.span())),
                    Box::new(AstModel::Symbol(osp, k.text())),
                    seq![lhs, rhs],
                );
                if i < j && j <= toks.len() {
                    spec_comparison_rest(toks, j, node)
                } else {
                    Err(never_here())
                }
            },
            Err(e) => Err(e),
        },
        None => Ok((lhs, i)),
    }
}

/// The operators of the term tier.
pub open spec fn term_op(t: TokenModel) -> Option<(Span, Keyword)> {
    match t {
        TokenModel::Keyword(sp, k) => if k == Keyword::Minus || k == Keyword::Plus {
            Some((sp, k))
        } else {
            None
        },
        _ => None,
    }
}

pub open spec fn spec_term(toks: Seq<TokenModel>, i: int) -> Result<(AstModel, int), ParseError>
    decreases rem(toks, i), 5int,
{
    match spec_factor(toks, i) {
        Ok((lhs, j)) => if i < j && j <= toks.len() {
            spec_term_rest(toks, j, lhs)
        } else {
            Err(never_here())
        },
        Err(e) => Err(e),
    }
}

pub open spec fn spec_term_rest(toks: Seq<TokenModel>, i: int, lhs: AstModel) -> Result<
    (AstModel, int),
    ParseError,
>
    decreases rem(toks, i), 5int,
{
    match term_op(tok_at(toks, i)) {
        Some((osp, k)) => match spec_factor(toks, i + 1) {
            Ok((rhs, j)) => {
                let node = AstModel::Application(
                    lhs.span().spec_merge(osp.spec_merge(rhs.span())),
                    Box::new(AstModel::Symbol(osp, k.text())),
                    seq![lhs, rhs],
                );
                if i < j && j <= toks.len() {
                    spec_term_rest(toks, j, node)
                } else {
                    Err(never_here())
                }
            },
            Err(e) => Err(e),
        },
        None => Ok((lhs, i)),
    }
}

/// The operators of the factor tier.
pub open spec fn factor_op(t: TokenModel) -> Option<(Span, Keyword)> {
    match t {
        TokenModel::Keyword(sp, k) => if k == Keyword::Slash || k == Keyword::Star {
            Some((sp, k))
        } else {
            None
        },
        _ => None,
    }
}

pub open spec fn spec_factor(toks: Seq<TokenModel>, i: int) -> Result<(AstModel, int), ParseError>
    decreases rem(toks, i), 4int,
{
    match spec_unary(toks, i) {
        Ok((lhs, j)) => if i < j && j <= toks.len() {
            spec_factor_rest(toks, j, lhs)
        } else {
            Err(never_here())
        },
        Err(e) => Err(e),
    }
}

pub open spec fn spec_factor_rest(toks: Seq<TokenModel>, i: int, lhs: AstModel) -> Result<
    (AstModel, int),
    ParseError,
>
    decreases rem(toks, i), 4int,
{
    match factor_op(tok_at(toks, i)) {
        Some((osp, k)) => match spec_unary(toks, i + 1) {
            Ok((rhs, j)) => {
                let node = AstModel::Application(
                    lhs.span().spec_merge(osp.spec_merge(rhs.span())),
                    Box::new(AstModel::Symbol(osp, k.text())),
                    seq![lhs, rhs],
                );
                if i < j && j <= toks.len() {
                    spec_factor_rest(toks, j, node)
                } else {
                    Err(never_here())
                }
            },
            Err(e) => Err(e),
        },
        None => Ok((lhs, i)),
    }
}

/// `unary := ("!"|"-") unary | primary`, desugared to applications.
pub open spec fn spec_unary(toks: Seq<TokenModel>, i: int) -> Result<(AstModel, int), ParseError>
    decreases rem(toks, i), 3int,
{
    match tok_at(toks, i) {
        TokenModel::Keyword(osp, k) => if k == Keyword::Bang || k == Keyword::Minus {
            match spec_unary(toks, i + 1) {
                Ok((rhs, j)) => Ok(
                    (
                        AstModel::Application(
                            osp.spec_merge(rhs.span()),
                            Box::new(AstModel::Symbol(osp, k.text())),
                            seq![rhs],
                        ),
                        j,
                    ),
                ),
                Err(e) => Err(e),
            }
        } else {
            spec_primary(toks, i)
        },
        _ => spec_primary(toks, i),
    }
}

/// `primary := literal | IDENT | "(" expression ")"`.
pub open spec fn spec_primary(toks: Seq<TokenModel>, i: int) -> Result<(AstModel, int), ParseError>
    decreases rem(toks, i), 2int,
{
    match tok_at(toks, i) {
        TokenModel::Literal(sp, _, v) => Ok((AstModel::Literal(sp, v), i + 1)),
        TokenModel::Identifier(sp, id) => Ok((AstModel::Symbol(sp, id), i + 1)),
        TokenModel::Eof => Err(ParseError { line: 0, kind: ParseErrorKind::ExpectedExpression }),
        TokenModel::Keyword(lsp, k) => if k == Keyword::LeftParen {
            match spec_expression(toks, i + 1) {
                Ok((inner, j)) => match tok_at(toks, j) {
                    TokenModel::Keyword(rsp, k2) => if k2 == Keyword::RightParen {
                        Ok((AstModel::Group(lsp.spec_merge(rsp), seq![inner]), j + 1))
                    } else {
                        Err(
                            ParseError {
                                line: lsp.line,
                                kind: ParseErrorKind::ExpectedExpression,
                            },
                        )
                    },
                    _ => Err(
                        ParseError { line: lsp.line, kind: ParseErrorKind::ExpectedExpression },
                    ),
                },
                Err(e) => Err(e),
            }
        } else {
            Err(ParseError { line: lsp.line, kind: ParseErrorKind::ExpectedExpression })
        },
    }
}


// ---------------------------------------------------------------------------
// The recursive-descent parser
// ---------------------------------------------------------------------------
/// Builds the application node one binary operator makes.
fn make_binary(lhs: AstNode, osp: Span, k: Keyword, rhs: AstNode) -> (node: AstNode)
    requires
        lhs@.wf(),
        rhs@.wf(),
    ensures
        node@ == AstModel::Application(
            lhs@.span().spec_merge(osp.spec_merge(rhs@.span())),
            Box::new(AstModel::Symbol(osp, k.text())),
            seq![lhs@, rhs@],
        ),
        node@.wf(),
{
    let sp = lhs.span().merge(&osp.merge(&rhs.span()));
    let name_text = <String as vstd::string::StringExecFns>::from_str(k.to_value());
    proof {
        assert(name_text@ == k.text());
    }
    let callee = AstNode::Symbol(osp, name_text);
    let ghost cm = callee@;
    proof {
        assert(cm == AstModel::Symbol(osp, k.text()));
    }
    let ghost lm = lhs@;
    let ghost rm = rhs@;
    let boxed = Box::new(callee);
    proof {
        assert(ast_model(*boxed) == cm);
    }
    let node = AstNode::Application(sp, boxed, vec![lhs, rhs]);
    proof {
        match node {
            AstNode::Application(_, _, ref args_vec) => {
                lemma_ast_models_len(args_vec@, 0);
                assert(ast_models(args_vec@, 0) =~= seq![lm, rm]);
                assert(seq![lm, rm][0] == lm);
                assert(seq![lm, rm][1] == rm);
                assert(ast_list_wf(seq![lm, rm], 0)) by {
                    lemma_ast_list_wf(seq![lm, rm], 0);
                }
            },
            _ => {},
        }
        assert(node@ matches AstModel::Application(nsp, nf, nargs));
        assert(node@->Application_0 == lm.span().spec_merge(osp.spec_merge(rm.span())));
        assert(*node@->Application_1 == AstModel::Symbol(osp, k.text()));
        assert(node@->Application_2 =~= seq![lm, rm]);
        assert(node@ =~= AstModel::Application(
            lm.span().spec_merge(osp.spec_merge(rm.span())),
            Box::new(AstModel::Symbol(osp, k.text())),
            seq![lm, rm],
        ));
        assert(node@->Application_2 == seq![lm, rm]);
        assert(ast_list_wf(node@->Application_2, 0));
        assert((*node@->Application_1).wf());
        assert(node@.wf());
    }
    node
}

/// Builds the application node a unary operator makes.
fn make_unary(osp: Span, k: Keyword, rhs: AstNode) -> (node: AstNode)
    requires
        rhs@.wf(),
    ensures
        node@ == AstModel::Application(
            osp.spec_merge(rhs@.span()),
            Box::new(AstModel::Symbol(osp, k.text())),
            seq![rhs@],
        ),
        node@.wf(),
{
    let sp = osp.merge(&rhs.span());
    let name_text = <String as vstd::string::StringExecFns>::from_str(k.to_value());
    proof {
        assert(name_text@ == k.text());
    }
    let callee = AstNode::Symbol(osp, name_text);
    let ghost cm = callee@;
    proof {
        assert(cm == AstModel::Symbol(osp, k.text()));
    }
    let ghost rm = rhs@;
    let boxed = Box::new(callee);
    proof {
        assert(ast_model(*boxed) == cm);
    }
    let node = AstNode::Application(sp, boxed, vec![rhs]);
    proof {
        match node {
            AstNode::Application(_, _, ref args_vec) => {
                lemma_ast_models_len(args_vec@, 0);
                assert(ast_models(args_vec@, 0) =~= seq![rm]);
                assert(seq![rm][0] == rm);
                assert(ast_list_wf(seq![rm], 0)) by {
                    lemma_ast_list_wf(seq![rm], 0);
                }
            },
            _ => {},
        }
        assert(node@ =~= AstModel::Application(
            osp.spec_merge(rm.span()),
            Box::new(AstModel::Symbol(osp, k.text())),
            seq![rm],
        ));
        assert(node@->Application_2 == seq![rm]);
        assert(ast_list_wf(node@->Application_2, 0));
        assert((*node@->Application_1).wf());
        assert(node@.wf());
    }
    node
}

/// A statement terminator: `;` consumed, end of input left in place.
fn parse_consume_semi(toks: &Vec<Token>, i: usize) -> (r: Result<(Span, usize), ParseError>)
    requires
        i <= toks@.len(),
    ensures
        ({
            let m = token_models(toks@);
            match r {
                Ok((sp, j)) => spec_consume_semi(m, i as int) == Ok::<(Span, int), ParseError>(
                    (sp, j as int),
                ) && i <= j <= toks@.len(),
                Err(e) => spec_consume_semi(m, i as int) == Err::<(Span, int), ParseError>(e),
            }
        }),
{
    let ghost m = token_models(toks@);
    if i >= toks.len() {
        proof {
            assert(tok_at(m, i as int) is Eof);
        }
        return Ok((Span::zero(), i));
    }
    proof {
        assert(tok_at(m, i as int) == toks@[i as int]@);
    }
    match &toks[i] {
        Token::Keyword(ssp, k) => {
            if *k == Keyword::Semicolon {
                Ok((*ssp, i + 1))
            } else {
                Err(ParseError { line: ssp.line, kind: ParseErrorKind::ExpectedSemicolon })
            }
        },
        Token::Eof => Ok((Span::zero(), i)),
        t => Err(ParseError { line: t.span().line, kind: ParseErrorKind::ExpectedSemicolon }),
    }
}

/// `primary := literal | IDENT | "(" expression ")"`.
#[verifier::rlimit(100)]
#[verifier::spinoff_prover]
fn parse_primary(toks: &Vec<Token>, i: usize) -> (r: Result<(AstNode, usize), ParseError>)
    requires
        i <= toks@.len(),
        tokens_wf(token_models(toks@)),
    ensures
        ({
            let m = token_models(toks@);
            match r {
                Ok((n, j)) => spec_primary(m, i as int) == Ok::<(AstModel, int), ParseError>(
                    (n@, j as int),
                ) && i < j <= toks@.len() && n@.wf(),
                Err(e) => spec_primary(m, i as int) == Err::<(AstModel, int), ParseError>(e),
            }
        }),
    decreases toks@.len() - i, 2int,
{
    let ghost m = token_models(toks@);
    if i >= toks.len() {
        proof {
            assert(tok_at(m, i as int) is Eof);
        }
        return Err(ParseError { line: 0, kind: ParseErrorKind::ExpectedExpression });
    }
    proof {
        assert(tok_at(m, i as int) == toks@[i as int]@);
        assert(match m[i as int] {
            TokenModel::Literal(_, _, v) => v.wf(),
            _ => true,
        });
    }
    match &toks[i] {
        Token::Literal(sp, _, v) => Ok((AstNode::Literal(*sp, v.duplicate()), i + 1)),
        Token::Identifier(sp, id) => Ok((AstNode::Symbol(*sp, id.clone()), i + 1)),
        Token::Eof => Err(ParseError { line: 0, kind: ParseErrorKind::ExpectedExpression }),
        Token::Keyword(lsp, k) => {
            if *k == Keyword::LeftParen {
                match parse_expression(toks, i + 1) {
                    Ok((inner, j)) => {
                        if j < toks.len() {
                            proof {
                                assert(tok_at(m, j as int) == toks@[j as int]@);
                            }
                            match &toks[j] {
                                Token::Keyword(rsp, k2) => {
                                    if *k2 == Keyword::RightParen {
                                        let sp = lsp.merge(rsp);
                                        let ghost im = inner@;
                                        let group = AstNode::Group(sp, vec![inner]);
                                        proof {
                                            match group {
                                                AstNode::Group(_, ref ns_vec) => {
                                                    lemma_ast_models_len(ns_vec@, 0);
                                                    assert(ast_models(ns_vec@, 0) =~= seq![im]);
                                                    assert(seq![im][0] == im);
                                                    assert(ast_list_wf(seq![im], 0)) by {
                                                        lemma_ast_list_wf(seq![im], 0);
                                                    }
                                                },
                                                _ => {},
                                            }
                                            assert(group@.wf());
                                        }
                                        Ok((group, j + 1))
                                    } else {
                                        Err(
                                            ParseError {
                                                line: lsp.line,
                                                kind: ParseErrorKind::ExpectedExpression,
                                            },
                                        )
                                    }
                                },
                                _ => Err(
                                    ParseError {
                                        line: lsp.line,
                                        kind: ParseErrorKind::ExpectedExpression,
                                    },
                                ),
                            }
                        } else {
                            proof {
                                assert(tok_at(m, j as int) is Eof);
                            }
                            Err(
                                ParseError {
                                    line: lsp.line,
                                    kind: ParseErrorKind::ExpectedExpression,
                                },
                            )
                        }
                    },
                    Err(e) => Err(e),
                }
            } else {
                Err(ParseError { line: lsp.line, kind: ParseErrorKind::ExpectedExpression })
            }
        },
    }
}

/// `unary := ("!"|"-") unary | primary`.
#[verifier::rlimit(100)]
#[verifier::spinoff_prover]
fn parse_unary(toks: &Vec<Token>, i: usize) -> (r: Result<(AstNode, usize), ParseError>)
    requires
        i <= toks@.len(),
        tokens_wf(token_models(toks@)),
    ensures
        ({
            let m = token_models(toks@);
            match r {
                Ok((n, j)) => spec_unary(m, i as int) == Ok::<(AstModel, int), ParseError>(
                    (n@, j as int),
                ) && i < j <= toks@.len() && n@.wf(),
                Err(e) => spec_unary(m, i as int) == Err::<(AstModel, int), ParseError>(e),
            }
        }),
    decreases toks@.len() - i, 3int,
{
    let ghost m = token_models(toks@);
    if i < toks.len() {
        proof {
            assert(tok_at(m, i as int) == toks@[i as int]@);
        }
        match &toks[i] {
            Token::Keyword(osp, k) => {
                if *k == Keyword::Bang || *k == Keyword::Minus {
                    match parse_unary(toks, i + 1) {
                        Ok((rhs, j)) => {
                            let node = make_unary(*osp, *k, rhs);
                            return Ok((node, j));
                        },
                        Err(e) => {
                            return Err(e);
                        },
                    }
                }
            },
            _ => {},
        }
    } else {
        proof {
            assert(tok_at(m, i as int) is Eof);
        }
    }
    parse_primary(toks, i)
}

/// One tier of left-associative binary operators.
fn parse_equality(toks: &Vec<Token>, i: usize) -> (r: Result<(AstNode, usize), ParseError>)
    requires
        i <= toks@.len(),
        tokens_wf(token_models(toks@)),
    ensures
        ({
            let m = token_models(toks@);
            match r {
                Ok((n, j)) => spec_equality(m, i as int) == Ok::<(AstModel, int), ParseError>(
                    (n@, j as int),
                ) && i < j <= toks@.len() && n@.wf(),
                Err(e) => spec_equality(m, i as int) == Err::<(AstModel, int), ParseError>(e),
            }
        }),
    decreases toks@.len() - i, 7int,
{
    match parse_comparison(toks, i) {
        Ok((lhs, j)) => parse_equality_rest(toks, j, lhs, Ghost(i as int)),
        Err(e) => Err(e),
    }
}

#[verifier::rlimit(100)]
#[verifier::spinoff_prover]
fn parse_equality_rest(toks: &Vec<Token>, i: usize, lhs: AstNode, start: Ghost<int>) -> (r: Result<
    (AstNode, usize),
    ParseError,
>)
    requires
        i <= toks@.len(),
        tokens_wf(token_models(toks@)),
        lhs@.wf(),
        start@ < i,
    ensures
        ({
            let m = token_models(toks@);
            match r {
                Ok((n, j)) => spec_equality_rest(m, i as int, lhs@) == Ok::<
                    (AstModel, int),
                    ParseError,
                >((n@, j as int)) && i <= j <= toks@.len() && start@ < j && n@.wf(),
                Err(e) => spec_equality_rest(m, i as int, lhs@) == Err::<(AstModel, int), ParseError>(
                    e,
                ),
            }
        }),
    decreases toks@.len() - i, 7int,
{
    let ghost m = token_models(toks@);
    if i < toks.len() {
        proof {
            assert(tok_at(m, i as int) == toks@[i as int]@);
        }
        match &toks[i] {
            Token::Keyword(osp, k) => {
                if *k == Keyword::BangEqual || *k == Keyword::EqualEqual {
                    proof {
                        assert(equality_op(tok_at(m, i as int)) == Some((*osp, *k)));
                    }
                    match parse_comparison(toks, i + 1) {
                        Ok((rhs, j)) => {
                            let node = make_binary(lhs, *osp, *k, rhs);
                            return parse_equality_rest(toks, j, node, Ghost(i as int));
                        },
                        Err(e) => {
                            return Err(e);
                        },
                    }
                }
            },
            _ => {},
        }
    } else {
        proof {
            assert(tok_at(m, i as int) is Eof);
        }
    }
    proof {
        assert(equality_op(tok_at(m, i as int)) is None);
    }
    Ok((lhs, i))
}

/// One tier of left-associative binary operators.
fn parse_comparison(toks: &Vec<Token>, i: usize) -> (r: Result<(AstNode, usize), ParseError>)
    requires
        i <= toks@.len(),
        tokens_wf(token_models(toks@)),
    ensures
        ({
            let m = token_models(toks@);
            match r {
                Ok((n, j)) => spec_comparison(m, i as int) == Ok::<(AstModel, int), ParseError>(
                    (n@, j as int),
                ) && i < j <= toks@.len() && n@.wf(),
                Err(e) => spec_comparison(m, i as int) == Err::<(AstModel, int), ParseError>(e),
            }
        }),
    decreases toks@.len() - i, 6int,
{
    match parse_term(toks, i) {
        Ok((lhs, j)) => parse_comparison_rest(toks, j, lhs, Ghost(i as int)),
        Err(e) => Err(e),
    }
}

#[verifier::rlimit(100)]
#[verifier::spinoff_prover]
fn parse_comparison_rest(toks: &Vec<Token>, i: usize, lhs: AstNode, start: Ghost<int>) -> (r: Result<
    (AstNode, usize),
    ParseError,
>)
    requires
        i <= toks@.len(),
        tokens_wf(token_models(toks@)),
        lhs@.wf(),
        start@ < i,
    ensures
        ({
            let m = token_models(toks@);
            match r {
                Ok((n, j)) => spec_comparison_rest(m, i as int, lhs@) == Ok::<
                    (AstModel, int),
                    ParseError,
                >((n@, j as int)) && i <= j <= toks@.len() && start@ < j && n@.wf(),
                Err(e) => spec_comparison_rest(m, i as int, lhs@) == Err::<(AstModel, int), ParseError>(
                    e,
                ),
            }
        }),
    decreases toks@.len() - i, 6int,
{
    let ghost m = token_models(toks@);
    if i < toks.len() {
        proof {
            assert(tok_at(m, i as int) == toks@[i as int]@);
        }
        match &toks[i] {
            Token::Keyword(osp, k) => {
                if *k == Keyword::Greater || *k == Keyword::GreaterEqual || *k == Keyword::Less || *k == Keyword::LessEqual {
                    proof {
                        assert(comparison_op(tok_at(m, i as int)) == Some((*osp, *k)));
                    }
                    match parse_term(toks, i + 1) {
                        Ok((rhs, j)) => {
                            let node = make_binary(lhs, *osp, *k, rhs);
                            return parse_comparison_rest(toks, j, node, Ghost(i as int));
                        },
                        Err(e) => {
                            return Err(e);
                        },
                    }
                }
            },
            _ => {},
        }
    } else {
        proof {
            assert(tok_at(m, i as int) is Eof);
        }
    }
    proof {
        assert(comparison_op(tok_at(m, i as int)) is None);
    }
    Ok((lhs, i))
}

/// One tier of left-associative binary operators.
fn parse_term(toks: &Vec<Token>, i: usize) -> (r: Result<(AstNode, usize), ParseError>)
    requires
        i <= toks@.len(),
        tokens_wf(token_models(toks@)),
    ensures
        ({
            let m = token_models(toks@);
            match r {
                Ok((n, j)) => spec_term(m, i as int) == Ok::<(AstModel, int), ParseError>(
                    (n@, j as int),
                ) && i < j <= toks@.len() && n@.wf(),
                Err(e) => spec_term(m, i as int) == Err::<(AstModel, int), ParseError>(e),
            }
        }),
    decreases toks@.len() - i, 5int,
{
    match parse_factor(toks, i) {
        Ok((lhs, j)) => parse_term_rest(toks, j, lhs, Ghost(i as int)),
        Err(e) => Err(e),
    }
}

#[verifier::rlimit(100)]
#[verifier::spinoff_prover]
fn parse_term_rest(toks: &Vec<Token>, i: usize, lhs: AstNode, start: Ghost<int>) -> (r: Result<
    (AstNode, usize),
    ParseError,
>)
    requires
        i <= toks@.len(),
        tokens_wf(token_models(toks@)),
        lhs@.wf(),
        start@ < i,
    ensures
        ({
            let m = token_models(toks@);
            match r {
                Ok((n, j)) => spec_term_rest(m, i as int, lhs@) == Ok::<
                    (AstModel, int),
                    ParseError,
                >((n@, j as int)) && i <= j <= toks@.len() && start@ < j && n@.wf(),
                Err(e) => spec_term_rest(m, i as int, lhs@) == Err::<(AstModel, int), ParseError>(
                    e,
                ),
            }
        }),
    decreases toks@.len() - i, 5int,
{
    let ghost m = token_models(toks@);
    if i < toks.len() {
        proof {
            assert(tok_at(m, i as int) == toks@[i as int]@);
        }
        match &toks[i] {
            Token::Keyword(osp, k) => {
                if *k == Keyword::Minus || *k == Keyword::Plus {
                    proof {
                        assert(term_op(tok_at(m, i as int)) == Some((*osp, *k)));
                    }
                    match parse_factor(toks, i + 1) {
                        Ok((rhs, j)) => {
                            let node = make_binary(lhs, *osp, *k, rhs);
                            return parse_term_rest(toks, j, node, Ghost(i as int));
                        },
                        Err(e) => {
                            return Err(e);
                        },
                    }
                }
            },
            _ => {},
        }
    } else {
        proof {
            assert(tok_at(m, i as int) is Eof);
        }
    }
    proof {
        assert(term_op(tok_at(m, i as int)) is None);
    }
    Ok((lhs, i))
}

/// One tier of left-associative binary operators.
fn parse_factor(toks: &Vec<Token>, i: usize) -> (r: Result<(AstNode, usize), ParseError>)
    requires
        i <= toks@.len(),
        tokens_wf(token_models(toks@)),
    ensures
        ({
            let m = token_models(toks@);
            match r {
                Ok((n, j)) => spec_factor(m, i as int) == Ok::<(AstModel, int), ParseError>(
                    (n@, j as int),
                ) && i < j <= toks@.len() && n@.wf(),
                Err(e) => spec_factor(m, i as int) == Err::<(AstModel, int), ParseError>(e),
            }
        }),
    decreases toks@.len() - i, 4int,
{
    match parse_unary(toks, i) {
        Ok((lhs, j)) => parse_factor_rest(toks, j, lhs, Ghost(i as int)),
        Err(e) => Err(e),
    }
}

#[verifier::rlimit(100)]
#[verifier::spinoff_prover]
fn parse_factor_rest(toks: &Vec<Token>, i: usize, lhs: AstNode, start: Ghost<int>) -> (r: Result<
    (AstNode, usize),
    ParseError,
>)
    requires
        i <= toks@.len(),
        tokens_wf(token_models(toks@)),
        lhs@.wf(),
        start@ < i,
    ensures
        ({
            let m = token_models(toks@);
            match r {
                Ok((n, j)) => spec_factor_rest(m, i as int, lhs@) == Ok::<
                    (AstModel, int),
                    ParseError,
                >((n@, j as int)) && i <= j <= toks@.len() && start@ < j && n@.wf(),
                Err(e) => spec_factor_rest(m, i as int, lhs@) == Err::<(AstModel, int), ParseError>(
                    e,
                ),
            }
        }),
    decreases toks@.len() - i, 4int,
{
    let ghost m = token_models(toks@);
    if i < toks.len() {
        proof {
            assert(tok_at(m, i as int) == toks@[i as int]@);
        }
        match &toks[i] {
            Token::Keyword(osp, k) => {
                if *k == Keyword::Slash || *k == Keyword::Star {
                    proof {
                        assert(factor_op(tok_at(m, i as int)) == Some((*osp, *k)));
                    }
                    match parse_unary(toks, i + 1) {
                        Ok((rhs, j)) => {
                            let node = make_binary(lhs, *osp, *k, rhs);
                            return parse_factor_rest(toks, j, node, Ghost(i as int));
                        },
                        Err(e) => {
                            return Err(e);
                        },
                    }
                }
            },
            _ => {},
        }
    } else {
        proof {
            assert(tok_at(m, i as int) is Eof);
        }
    }
    proof {
        assert(factor_op(tok_at(m, i as int)) is None);
    }
    Ok((lhs, i))
}

/// Right-associative assignment; the left side must be a bare name.
#[verifier::rlimit(100)]
#[verifier::spinoff_prover]
fn parse_assignment(toks: &Vec<Token>, i: usize) -> (r: Result<(AstNode, usize), ParseError>)
    requires
        i <= toks@.len(),
        tokens_wf(token_models(toks@)),
    ensures
        ({
            let m = token_models(toks@);
            match r {
                Ok((n, j)) => spec_assignment(m, i as int) == Ok::<(AstModel, int), ParseError>(
                    (n@, j as int),
                ) && i < j <= toks@.len() && n@.wf(),
                Err(e) => spec_assignment(m, i as int) == Err::<(AstModel, int), ParseError>(e),
            }
        }),
    decreases toks@.len() - i, 8int,
{
    let ghost m = token_models(toks@);
    match parse_equality(toks, i) {
        Ok((lhs, j)) => {
            let mut is_equal = false;
            if j < toks.len() {
                proof {
                    assert(tok_at(m, j as int) == toks@[j as int]@);
                }
                match &toks[j] {
                    Token::Keyword(_, k) => {
                        if *k == Keyword::Equal {
                            is_equal = true;
                        }
                    },
                    _ => {},
                }
            } else {
                proof {
                    assert(tok_at(m, j as int) is Eof);
                }
            }
            if is_equal {
                match lhs {
                    AstNode::Symbol(lsp, name) => {
                        match parse_assignment(toks, j + 1) {
                            Ok((rhs, k2)) => {
                                let sp = lsp.merge(&rhs.span());
                                let ghost rm = rhs@;
                                let node = AstNode::Assignment(sp, name, Box::new(rhs));
                                proof {
                                    assert(node@ =~= AstModel::Assignment(
                                        sp,
                                        node@->Assignment_1,
                                        Box::new(rm),
                                    ));
                                }
                                Ok((node, k2))
                            },
                            Err(e) => Err(e),
                        }
                    },
                    other => Err(
                        ParseError {
                            line: other.span().line,
                            kind: ParseErrorKind::InvalidAssignmentTarget,
                        },
                    ),
                }
            } else {
                Ok((lhs, j))
            }
        },
        Err(e) => Err(e),
    }
}

/// `expression := assignment`.
pub fn parse_expression(toks: &Vec<Token>, i: usize) -> (r: Result<(AstNode, usize), ParseError>)
    requires
        i <= toks@.len(),
        tokens_wf(token_models(toks@)),
    ensures
        ({
            let m = token_models(toks@);
            match r {
                Ok((n, j)) => spec_expression(m, i as int) == Ok::<(AstModel, int), ParseError>(
                    (n@, j as int),
                ) && i < j <= toks@.len() && n@.wf(),
                Err(e) => spec_expression(m, i as int) == Err::<(AstModel, int), ParseError>(e),
            }
        }),
    decreases toks@.len() - i, 9int,
{
    parse_assignment(toks, i)
}

} // verus!
