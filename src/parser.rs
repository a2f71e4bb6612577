use vstd::prelude::*;
use vstd::string::StringSliceAdditionalSpecFns;

use crate::offsets::byte_len;
use crate::lexer::{is_end_kind, lemma_token_spans, offset, spans_within, tokenize, tokens, well_formed, Token, TokenKind};
use crate::errors::{column_of, decimal, get_position_from_span, line_of, push_char, push_decimal, Error, ErrorType};
use crate::span::{chars_of, Span};

verus! {

#[derive(Clone, Copy, Debug, PartialEq, Eq, Structural)]
pub enum BinaryOperation {
    Add,
    Subtract,
    Multiply,
    Divide,
    Exponent,
    Modulo,
    LessThan,
    GreaterThan,
    LessThanOrEqual,
    GreaterThanOrEqual,
    Equal,
    And,
    Or,
}

#[derive(Clone, Copy, Debug, PartialEq, Eq, Structural)]
pub enum UnaryOperation {
    Negate,
    Not,
}

/// One node of an expression. Children are indices of earlier nodes of the
/// same expression; a number's digits and a variable's name are the text
/// under the node's span.
#[derive(Clone, Copy, Debug, PartialEq, Eq, Structural)]
pub enum Expr {
    Number,
    Variable,
    Group(usize),
    UnaryExpression(UnaryOperation, usize),
    BinaryExpression(usize, BinaryOperation, usize),
    /// The function's name, then the first of its arguments in the
    /// expression's argument list, then how many there are.
    Call(Span, usize, usize),
}

#[derive(Clone, Copy, Debug, PartialEq, Eq, Structural)]
pub struct Node {
    pub expr: Expr,
    pub span: Span,
}

/// What the parser looked for where it failed.
#[derive(Clone, Copy, Debug, PartialEq, Eq, Structural)]
pub enum Expected {
    Expression,
    Name,
    AssignSign,
    Semicolon,
    ClosingParenthesis,
    NewLine,
}

/// A failure at a token, given by its index.
#[derive(Clone, Copy, Debug, PartialEq, Eq, Structural)]
pub struct Failure {
    pub at: usize,
    pub expected: Expected,
}

/// A syntax error: where, the character found there (none at the end of
/// the text), and what was expected instead.
#[derive(Clone, Copy, Debug, PartialEq, Eq, Structural)]
pub struct RawParseError {
    pub span: Span,
    pub found: Option<char>,
    pub expected: Expected,
}

/// An expression as a list of nodes; `root` is the whole expression.
#[derive(Clone, Debug)]
pub struct Expression {
    pub nodes: Vec<Node>,
    pub arguments: Vec<usize>,
    pub root: usize,
}

/// One statement `name = expression;`.
#[derive(Clone, Debug)]
pub struct Assignment {
    pub name: Span,
    pub expression: Expression,
    pub span: Span,
}

pub struct AssignmentModel {
    pub name: Span,
    pub nodes: Seq<Node>,
    pub arguments: Seq<usize>,
    pub root: usize,
    pub span: Span,
}

impl View for Assignment {
    type V = AssignmentModel;

    open spec fn view(&self) -> AssignmentModel {
        AssignmentModel {
            name: self.name,
            nodes: self.expression.nodes@,
            arguments: self.expression.arguments@,
            root: self.expression.root,
            span: self.span,
        }
    }
}

/// Nodes, argument list, root, its span, and the index of the next token.
pub type ExprParse = Result<(Seq<Node>, Seq<usize>, usize, Span, int), Failure>;

/// Nodes, argument list, the roots of the arguments, and the index of `)`.
pub type ArgsParse = Result<(Seq<Node>, Seq<usize>, Seq<usize>, int), Failure>;

pub open spec fn kind_at(t: Seq<Token>, i: int) -> TokenKind {
    if 0 <= i < t.len() {
        t[i].kind
    } else {
        TokenKind::End
    }
}

pub open spec fn span_at(t: Seq<Token>, i: int) -> Span {
    if 0 <= i < t.len() {
        t[i].span
    } else {
        Span { start: 0, end: 0 }
    }
}

pub open spec fn fail(i: int, e: Expected) -> Failure {
    Failure { at: offset(i), expected: e }
}

pub open spec fn index_of_next(s: Seq<Node>) -> usize {
    offset(s.len() as int)
}

pub open spec fn join(a: Span, b: Span) -> Span {
    Span { start: a.start, end: b.end }
}

/// The binary operator of precedence `level` that a token stands for:
/// level 0 binds loosest (`&`, `|`), level 4 tightest (`^`).
pub open spec fn binary_op(level: int, k: TokenKind) -> Option<BinaryOperation> {
    if level == 0 && k == TokenKind::Ampersand {
        Some(BinaryOperation::And)
    } else if level == 0 && k == TokenKind::Pipe {
        Some(BinaryOperation::Or)
    } else if level == 1 && k == TokenKind::LessEqual {
        Some(BinaryOperation::LessThanOrEqual)
    } else if level == 1 && k == TokenKind::GreaterEqual {
        Some(BinaryOperation::GreaterThanOrEqual)
    } else if level == 1 && k == TokenKind::EqualEqual {
        Some(BinaryOperation::Equal)
    } else if level == 1 && k == TokenKind::Less {
        Some(BinaryOperation::LessThan)
    } else if level == 1 && k == TokenKind::Greater {
        Some(BinaryOperation::GreaterThan)
    } else if level == 2 && k == TokenKind::Plus {
        Some(BinaryOperation::Add)
    } else if level == 2 && k == TokenKind::Minus {
        Some(BinaryOperation::Subtract)
    } else if level == 3 && k == TokenKind::Star {
        Some(BinaryOperation::Multiply)
    } else if level == 3 && k == TokenKind::Slash {
        Some(BinaryOperation::Divide)
    } else if level == 3 && k == TokenKind::Percent {
        Some(BinaryOperation::Modulo)
    } else if level == 4 && k == TokenKind::Caret {
        Some(BinaryOperation::Exponent)
    } else {
        None
    }
}

pub open spec fn unary_op(k: TokenKind) -> Option<UnaryOperation> {
    if k == TokenKind::Minus {
        Some(UnaryOperation::Negate)
    } else if k == TokenKind::Bang {
        Some(UnaryOperation::Not)
    } else {
        None
    }
}

/// An expression whose operators bind at least as tightly as `level`
/// (0 to 4 for the binary levels, 5 for prefix operators), from token `pos`.
pub open spec fn parse_level(t: Seq<Token>, level: int, pos: int, n: Seq<Node>, a: Seq<usize>) -> ExprParse
    decreases t.len() - pos, 6 - level, 1int,
{
    if pos < 0 || pos >= t.len() || level < 0 || level > 5 {
        Err(fail(pos, Expected::Expression))
    } else if level == 5 {
        parse_unary(t, pos, n, a)
    } else {
        match parse_level(t, level + 1, pos, n, a) {
            Ok((n1, a1, left, ls, q)) => if pos < q < t.len() {
                parse_chain(t, level, q, n1, a1, left, ls)
            } else {
                Err(fail(pos, Expected::Expression))
            },
            Err(f) => Err(f),
        }
    }
}

/// Folds to the left the operators of `level` that follow the operand
/// `left` (spanning `ls`) from token `pos` on.
pub open spec fn parse_chain(
    t: Seq<Token>,
    level: int,
    pos: int,
    n: Seq<Node>,
    a: Seq<usize>,
    left: usize,
    ls: Span,
) -> ExprParse
    decreases t.len() - pos, 6 - level, 0int,
{
    if pos < 0 || pos >= t.len() || level < 0 || level > 4 {
        Err(fail(pos, Expected::Expression))
    } else {
        match binary_op(level, kind_at(t, pos)) {
            None => Ok((n, a, left, ls, pos)),
            Some(op) => match parse_level(t, level + 1, pos + 1, n, a) {
                Ok((n1, a1, right, rs, q)) => if pos < q < t.len() {
                    parse_chain(
                        t,
                        level,
                        q,
                        n1.push(Node { expr: Expr::BinaryExpression(left, op, right), span: join(ls, rs) }),
                        a1,
                        index_of_next(n1),
                        join(ls, rs),
                    )
                } else {
                    Err(fail(pos, Expected::Expression))
                },
                Err(f) => Err(f),
            },
        }
    }
}

/// Prefix operators, which nest to the right, then an atom.
pub open spec fn parse_unary(t: Seq<Token>, pos: int, n: Seq<Node>, a: Seq<usize>) -> ExprParse
    decreases t.len() - pos, 0int, 1int,
{
    if pos < 0 || pos >= t.len() {
        Err(fail(pos, Expected::Expression))
    } else {
        match unary_op(kind_at(t, pos)) {
            Some(op) => match parse_unary(t, pos + 1, n, a) {
                Ok((n1, a1, inner, is, q)) => Ok((
                    n1.push(Node { expr: Expr::UnaryExpression(op, inner), span: join(span_at(t, pos), is) }),
                    a1,
                    index_of_next(n1),
                    join(span_at(t, pos), is),
                    q,
                )),
                Err(f) => Err(f),
            },
            None => parse_atom(t, pos, n, a),
        }
    }
}

/// A number, a variable, a call `name(arg, ...)` or a group `(expr)`.
pub open spec fn parse_atom(t: Seq<Token>, pos: int, n: Seq<Node>, a: Seq<usize>) -> ExprParse
    decreases t.len() - pos, 0int, 0int,
{
    if pos < 0 || pos >= t.len() {
        Err(fail(pos, Expected::Expression))
    } else if kind_at(t, pos) == TokenKind::Number {
        Ok((n.push(Node { expr: Expr::Number, span: span_at(t, pos) }), a, index_of_next(n), span_at(t, pos), pos + 1))
    } else if kind_at(t, pos) == TokenKind::Identifier {
        if kind_at(t, pos + 1) != TokenKind::LeftParen {
            Ok((n.push(Node { expr: Expr::Variable, span: span_at(t, pos) }), a, index_of_next(n), span_at(t, pos), pos + 1))
        } else if kind_at(t, pos + 2) == TokenKind::RightParen {
            let cs = join(span_at(t, pos), span_at(t, pos + 2));
            Ok((n.push(Node { expr: Expr::Call(span_at(t, pos), offset(a.len() as int), 0), span: cs }), a, index_of_next(n), cs, pos + 3))
        } else {
            match parse_args(t, pos + 2, n, a, seq![]) {
                Ok((n1, a1, roots, q)) => {
                    let cs = join(span_at(t, pos), span_at(t, q));
                    Ok((
                        n1.push(Node { expr: Expr::Call(span_at(t, pos), offset(a1.len() as int), offset(roots.len() as int)), span: cs }),
                        a1 + roots,
                        index_of_next(n1),
                        cs,
                        q + 1,
                    ))
                },
                Err(f) => Err(f),
            }
        }
    } else if kind_at(t, pos) == TokenKind::LeftParen {
        match parse_level(t, 0, pos + 1, n, a) {
            Ok((n1, a1, inner, is, q)) => if kind_at(t, q) == TokenKind::RightParen {
                let gs = join(span_at(t, pos), span_at(t, q));
                Ok((n1.push(Node { expr: Expr::Group(inner), span: gs }), a1, index_of_next(n1), gs, q + 1))
            } else {
                Err(fail(q, Expected::ClosingParenthesis))
            },
            Err(f) => Err(f),
        }
    } else {
        Err(fail(pos, Expected::Expression))
    }
}

/// The arguments of a call from token `pos` up to the closing `)`, after
/// those whose roots are in `roots`.
pub open spec fn parse_args(t: Seq<Token>, pos: int, n: Seq<Node>, a: Seq<usize>, roots: Seq<usize>) -> ArgsParse
    decreases t.len() - pos, 7int, 0int,
{
    if pos < 0 || pos >= t.len() {
        Err(fail(pos, Expected::Expression))
    } else {
        match parse_level(t, 0, pos, n, a) {
            Ok((n1, a1, r, rs, q)) => if q <= pos {
                Err(fail(pos, Expected::Expression))
            } else if kind_at(t, q) == TokenKind::Comma {
                parse_args(t, q + 1, n1, a1, roots.push(r))
            } else if kind_at(t, q) == TokenKind::RightParen {
                Ok((n1, a1, roots.push(r), q))
            } else {
                Err(fail(q, Expected::ClosingParenthesis))
            },
            Err(f) => Err(f),
        }
    }
}

/// That an executable result is the parse `s`, with the next token in
/// `[lo, len)`.
pub open spec fn agrees(
    r: Result<(usize, Span, usize), Failure>,
    s: ExprParse,
    nodes: Seq<Node>,
    args: Seq<usize>,
    lo: int,
    len: int,
) -> bool {
    match s {
        Ok((n1, a1, root, sp, q)) => {
            &&& lo <= q < len
            &&& r == Ok::<(usize, Span, usize), Failure>((root, sp, offset(q)))
            &&& nodes == n1
            &&& args == a1
        },
        Err(f) => r == Err::<(usize, Span, usize), Failure>(f) && (f.at as int) < len,
    }
}

fn binary_op_exec(level: usize, k: TokenKind) -> (r: Option<BinaryOperation>)
    ensures
        r == binary_op(level as int, k),
{
    match (level, k) {
        (0, TokenKind::Ampersand) => Some(BinaryOperation::And),
        (0, TokenKind::Pipe) => Some(BinaryOperation::Or),
        (1, TokenKind::LessEqual) => Some(BinaryOperation::LessThanOrEqual),
        (1, TokenKind::GreaterEqual) => Some(BinaryOperation::GreaterThanOrEqual),
        (1, TokenKind::EqualEqual) => Some(BinaryOperation::Equal),
        (1, TokenKind::Less) => Some(BinaryOperation::LessThan),
        (1, TokenKind::Greater) => Some(BinaryOperation::GreaterThan),
        (2, TokenKind::Plus) => Some(BinaryOperation::Add),
        (2, TokenKind::Minus) => Some(BinaryOperation::Subtract),
        (3, TokenKind::Star) => Some(BinaryOperation::Multiply),
        (3, TokenKind::Slash) => Some(BinaryOperation::Divide),
        (3, TokenKind::Percent) => Some(BinaryOperation::Modulo),
        (4, TokenKind::Caret) => Some(BinaryOperation::Exponent),
        _ => None,
    }
}

fn unary_op_exec(k: TokenKind) -> (r: Option<UnaryOperation>)
    ensures
        r == unary_op(k),
{
    match k {
        TokenKind::Minus => Some(UnaryOperation::Negate),
        TokenKind::Bang => Some(UnaryOperation::Not),
        _ => None,
    }
}

fn parse_level_exec(t: &Vec<Token>, level: usize, pos: usize, nodes: &mut Vec<Node>, args: &mut Vec<usize>) -> (r: Result<
    (usize, Span, usize),
    Failure,
>)
    requires
        well_formed(t@),
        pos < t.len(),
        level <= 5,
    ensures
        agrees(r, parse_level(t@, level as int, pos as int, old(nodes)@, old(args)@), final(nodes)@, final(args)@, pos + 1, t.len() as int),
    decreases t.len() - pos, 6 - level, 1int,
{
    if level == 5 {
        return parse_unary_exec(t, pos, nodes, args);
    }
    match parse_level_exec(t, level + 1, pos, nodes, args) {
        Ok((left, ls, q)) => parse_chain_exec(t, level, q, nodes, args, left, ls),
        Err(f) => Err(f),
    }
}

fn parse_chain_exec(
    t: &Vec<Token>,
    level: usize,
    pos: usize,
    nodes: &mut Vec<Node>,
    args: &mut Vec<usize>,
    left: usize,
    ls: Span,
) -> (r: Result<(usize, Span, usize), Failure>)
    requires
        well_formed(t@),
        pos < t.len(),
        level <= 4,
    ensures
        agrees(r, parse_chain(t@, level as int, pos as int, old(nodes)@, old(args)@, left, ls), final(nodes)@, final(args)@, pos as int, t.len() as int),
    decreases t.len() - pos, 6 - level, 0int,
{
    match binary_op_exec(level, t[pos].kind) {
        None => Ok((left, ls, pos)),
        Some(op) => {
            proof {
                assert(!is_end_kind(t@[pos as int].kind));
            }
            match parse_level_exec(t, level + 1, pos + 1, nodes, args) {
                Ok((right, rs, q)) => {
                    let sp = Span { start: ls.start, end: rs.end };
                    let idx = nodes.len();
                    nodes.push(Node { expr: Expr::BinaryExpression(left, op, right), span: sp });
                    parse_chain_exec(t, level, q, nodes, args, idx, sp)
                },
                Err(f) => Err(f),
            }
        },
    }
}

fn parse_unary_exec(t: &Vec<Token>, pos: usize, nodes: &mut Vec<Node>, args: &mut Vec<usize>) -> (r: Result<
    (usize, Span, usize),
    Failure,
>)
    requires
        well_formed(t@),
        pos < t.len(),
    ensures
        agrees(r, parse_unary(t@, pos as int, old(nodes)@, old(args)@), final(nodes)@, final(args)@, pos + 1, t.len() as int),
    decreases t.len() - pos, 0int, 1int,
{
    match unary_op_exec(t[pos].kind) {
        Some(op) => {
            proof {
                assert(!is_end_kind(t@[pos as int].kind));
            }
            match parse_unary_exec(t, pos + 1, nodes, args) {
                Ok((inner, is, q)) => {
                    let sp = Span { start: t[pos].span.start, end: is.end };
                    let idx = nodes.len();
                    nodes.push(Node { expr: Expr::UnaryExpression(op, inner), span: sp });
                    Ok((idx, sp, q))
                },
                Err(f) => Err(f),
            }
        },
        None => parse_atom_exec(t, pos, nodes, args),
    }
}

fn parse_atom_exec(t: &Vec<Token>, pos: usize, nodes: &mut Vec<Node>, args: &mut Vec<usize>) -> (r: Result<
    (usize, Span, usize),
    Failure,
>)
    requires
        well_formed(t@),
        pos < t.len(),
    ensures
        agrees(r, parse_atom(t@, pos as int, old(nodes)@, old(args)@), final(nodes)@, final(args)@, pos + 1, t.len() as int),
    decreases t.len() - pos, 0int, 0int,
{
    let k = t[pos].kind;
    let sp = t[pos].span;
    if k == TokenKind::Number || (k == TokenKind::Identifier && t[pos + 1].kind != TokenKind::LeftParen) {
        let idx = nodes.len();
        let e = if k == TokenKind::Number {
            Expr::Number
        } else {
            Expr::Variable
        };
        nodes.push(Node { expr: e, span: sp });
        Ok((idx, sp, pos + 1))
    } else if k == TokenKind::Identifier {
        proof {
            assert(!is_end_kind(t@[pos + 1].kind));
        }
        if t[pos + 2].kind == TokenKind::RightParen {
            proof {
                assert(!is_end_kind(t@[pos + 2].kind));
            }
            let cs = Span { start: sp.start, end: t[pos + 2].span.end };
            let idx = nodes.len();
            nodes.push(Node { expr: Expr::Call(sp, args.len(), 0), span: cs });
            Ok((idx, cs, pos + 3))
        } else {
            let mut roots: Vec<usize> = Vec::new();
            match parse_args_exec(t, pos + 2, nodes, args, &mut roots) {
                Ok(q) => {
                    let cs = Span { start: sp.start, end: t[q].span.end };
                    let first = args.len();
                    let count = roots.len();
                    args.append(&mut roots);
                    let idx = nodes.len();
                    nodes.push(Node { expr: Expr::Call(sp, first, count), span: cs });
                    proof {
                        assert(!is_end_kind(t@[q as int].kind));
                    }
                    Ok((idx, cs, q + 1))
                },
                Err(f) => Err(f),
            }
        }
    } else if k == TokenKind::LeftParen {
        proof {
            assert(!is_end_kind(t@[pos as int].kind));
        }
        match parse_level_exec(t, 0, pos + 1, nodes, args) {
            Ok((inner, _is, q)) => {
                if t[q].kind == TokenKind::RightParen {
                    proof {
                        assert(!is_end_kind(t@[q as int].kind));
                    }
                    let gs = Span { start: sp.start, end: t[q].span.end };
                    let idx = nodes.len();
                    nodes.push(Node { expr: Expr::Group(inner), span: gs });
                    Ok((idx, gs, q + 1))
                } else {
                    Err(Failure { at: q, expected: Expected::ClosingParenthesis })
                }
            },
            Err(f) => Err(f),
        }
    } else {
        Err(Failure { at: pos, expected: Expected::Expression })
    }
}

fn parse_args_exec(
    t: &Vec<Token>,
    pos: usize,
    nodes: &mut Vec<Node>,
    args: &mut Vec<usize>,
    roots: &mut Vec<usize>,
) -> (r: Result<usize, Failure>)
    requires
        well_formed(t@),
        pos < t.len(),
    ensures
        match parse_args(t@, pos as int, old(nodes)@, old(args)@, old(roots)@) {
            Ok((n1, a1, rs, q)) => {
                &&& pos <= q < t.len()
                &&& kind_at(t@, q) == TokenKind::RightParen
                &&& r == Ok::<usize, Failure>(offset(q))
                &&& final(nodes)@ == n1
                &&& final(args)@ == a1
                &&& final(roots)@ == rs
            },
            Err(f) => r == Err::<usize, Failure>(f) && (f.at as int) < t.len(),
        },
    decreases t.len() - pos, 7int, 0int,
{
    match parse_level_exec(t, 0, pos, nodes, args) {
        Ok((root, _rs, q)) => {
            roots.push(root);
            if t[q].kind == TokenKind::Comma {
                proof {
                    assert(!is_end_kind(t@[q as int].kind));
                }
                parse_args_exec(t, q + 1, nodes, args, roots)
            } else if t[q].kind == TokenKind::RightParen {
                Ok(q)
            } else {
                Err(Failure { at: q, expected: Expected::ClosingParenthesis })
            }
        },
        Err(f) => Err(f),
    }
}

} // verus!

verus! {

/// One statement `name = expression;` from token `pos`, and the index of
/// the token after its `;`.
pub open spec fn parse_statement(t: Seq<Token>, pos: int) -> Result<(AssignmentModel, int), Failure> {
    if kind_at(t, pos) != TokenKind::Identifier {
        Err(fail(pos, Expected::Name))
    } else if kind_at(t, pos + 1) != TokenKind::Assign {
        Err(fail(pos + 1, Expected::AssignSign))
    } else {
        match parse_level(t, 0, pos + 2, seq![], seq![]) {
            Ok((n, a, root, _sp, q)) => if kind_at(t, q) == TokenKind::Semicolon {
                Ok((
                    AssignmentModel { name: span_at(t, pos), nodes: n, arguments: a, root, span: join(span_at(t, pos), span_at(t, q)) },
                    q + 1,
                ))
            } else {
                Err(fail(q, Expected::Semicolon))
            },
            Err(f) => Err(f),
        }
    }
}

/// The index after the first `;` at or after `i`, or the index of the end
/// token if none comes before it.
pub open spec fn skip_statement(t: Seq<Token>, i: int) -> int
    decreases t.len() - i,
{
    if i < 0 || i >= t.len() || is_end_kind(t[i].kind) {
        i
    } else if t[i].kind == TokenKind::Semicolon {
        i + 1
    } else {
        skip_statement(t, i + 1)
    }
}

/// Where parsing goes on after a statement from `pos` failed with `f`.
pub open spec fn resume_at(t: Seq<Token>, pos: int, f: Failure) -> int {
    skip_statement(t, if f.at as int > pos { f.at as int } else { pos })
}

/// The statements from token `pos` on, after `done`, and the failures met,
/// after `errs`. A failed statement is skipped up to its `;`.
pub open spec fn parse_program(t: Seq<Token>, pos: int, done: Seq<AssignmentModel>, errs: Seq<Failure>) -> (
    Seq<AssignmentModel>,
    Seq<Failure>,
)
    decreases t.len() - pos,
{
    if pos < 0 || pos >= t.len() || kind_at(t, pos) == TokenKind::End {
        (done, errs)
    } else if kind_at(t, pos) == TokenKind::EndInComment {
        (done, errs.push(fail(pos, Expected::NewLine)))
    } else {
        match parse_statement(t, pos) {
            Ok((m, q)) => if pos < q <= t.len() {
                parse_program(t, q, done.push(m), errs)
            } else {
                (done, errs)
            },
            Err(f) => if pos < resume_at(t, pos, f) <= t.len() {
                parse_program(t, resume_at(t, pos, f), done, errs.push(f))
            } else {
                (done, errs.push(f))
            },
        }
    }
}

/// The statements of a text and the failures met in it.
pub open spec fn program(text: Seq<char>) -> (Seq<AssignmentModel>, Seq<Failure>) {
    parse_program(tokens(text), 0, seq![], seq![])
}

/// The syntax error that a failure stands for.
pub open spec fn raw_error(t: Seq<Token>, f: Failure) -> RawParseError {
    RawParseError {
        span: span_at(t, f.at as int),
        found: if is_end_kind(kind_at(t, f.at as int)) {
            None
        } else {
            Some(t[f.at as int].first)
        },
        expected: f.expected,
    }
}

pub open spec fn view_all(v: Seq<Assignment>) -> Seq<AssignmentModel> {
    v.map_values(|a: Assignment| a@)
}

fn parse_statement_exec(t: &Vec<Token>, pos: usize) -> (r: Result<(Assignment, usize), Failure>)
    requires
        well_formed(t@),
        pos < t.len(),
        !is_end_kind(t@[pos as int].kind),
    ensures
        match parse_statement(t@, pos as int) {
            Ok((m, q)) => {
                &&& pos < q < t.len()
                &&& r is Ok
                &&& r->Ok_0.0@ == m
                &&& r->Ok_0.1 == q
            },
            Err(f) => r == Err::<(Assignment, usize), Failure>(f) && (f.at as int) < t.len(),
        },
{
    if t[pos].kind != TokenKind::Identifier {
        return Err(Failure { at: pos, expected: Expected::Name });
    }
    if t[pos + 1].kind != TokenKind::Assign {
        return Err(Failure { at: pos + 1, expected: Expected::AssignSign });
    }
    let mut nodes: Vec<Node> = Vec::new();
    let mut arguments: Vec<usize> = Vec::new();
    proof {
        assert(!is_end_kind(t@[pos + 1].kind));
        assert(nodes@ == Seq::<Node>::empty());
        assert(arguments@ == Seq::<usize>::empty());
    }
    match parse_level_exec(t, 0, pos + 2, &mut nodes, &mut arguments) {
        Ok((root, _sp, q)) => {
            if t[q].kind == TokenKind::Semicolon {
                proof {
                    assert(!is_end_kind(t@[q as int].kind));
                }
                let span = Span { start: t[pos].span.start, end: t[q].span.end };
                let a = Assignment { name: t[pos].span, expression: Expression { nodes, arguments, root }, span };
                Ok((a, q + 1))
            } else {
                Err(Failure { at: q, expected: Expected::Semicolon })
            }
        },
        Err(f) => Err(f),
    }
}

proof fn lemma_skip_statement(t: Seq<Token>, i: int)
    requires
        well_formed(t),
        0 <= i < t.len(),
    ensures
        i <= skip_statement(t, i) < t.len(),
        !is_end_kind(t[i].kind) ==> i < skip_statement(t, i),
    decreases t.len() - i,
{
    if !is_end_kind(t[i].kind) && t[i].kind != TokenKind::Semicolon {
        lemma_skip_statement(t, i + 1);
    }
}

fn skip_statement_exec(t: &Vec<Token>, i: usize) -> (r: usize)
    requires
        well_formed(t@),
        i < t.len(),
    ensures
        r == skip_statement(t@, i as int),
{
    let mut j = i;
    while !(t[j].kind == TokenKind::End || t[j].kind == TokenKind::EndInComment || t[j].kind == TokenKind::Semicolon)
        invariant
            well_formed(t@),
            i <= j < t.len(),
            skip_statement(t@, i as int) == skip_statement(t@, j as int),
        decreases t.len() - j,
    {
        j = j + 1;
    }
    if t[j].kind == TokenKind::Semicolon {
        j + 1
    } else {
        j
    }
}

fn raw_error_exec(t: &Vec<Token>, f: Failure) -> (r: RawParseError)
    requires
        (f.at as int) < t.len(),
    ensures
        r == raw_error(t@, f),
{
    let tok = t[f.at];
    let found = if tok.kind == TokenKind::End || tok.kind == TokenKind::EndInComment {
        None
    } else {
        Some(tok.first)
    };
    RawParseError { span: tok.span, found, expected: f.expected }
}

/// Parses a program: the statements in order if the text has no syntax
/// error, else every syntax error, in the order met.
pub fn parser(text: &str) -> (r: Result<Vec<Assignment>, Vec<RawParseError>>)
    ensures
        program(text@).1.len() == 0 ==> r is Ok && view_all(r->Ok_0@) == program(text@).0,
        program(text@).1.len() > 0 ==> r is Err && r->Err_0@ == program(text@).1.map_values(
            |f: Failure| raw_error(tokens(text@), f),
        ),
{
    let chars = chars_of(text);
    let bytes = text.as_bytes().len();
    proof {
        assert(byte_len(chars@) == bytes);
    }
    let t = tokenize(&chars);
    let ghost tv = t@;
    let mut pos: usize = 0;
    let mut done: Vec<Assignment> = Vec::new();
    let mut errs: Vec<Failure> = Vec::new();
    proof {
        assert(view_all(done@) =~= Seq::<AssignmentModel>::empty());
        assert(errs@ =~= Seq::<Failure>::empty());
    }
    loop
        invariant_except_break
            program(text@) == parse_program(t@, pos as int, view_all(done@), errs@),
        invariant
            tv == t@,
            tv == tokens(text@),
            well_formed(t@),
            pos < t.len(),
            forall|j: int| 0 <= j < errs@.len() ==> (#[trigger] errs@[j].at as int) < t.len(),
        ensures
            program(text@) == (view_all(done@), errs@),
        decreases t.len() - pos,
    {
        let k = t[pos].kind;
        if k == TokenKind::End {
            break;
        }
        if k == TokenKind::EndInComment {
            errs.push(Failure { at: pos, expected: Expected::NewLine });
            break;
        }
        match parse_statement_exec(&t, pos) {
            Ok((a, q)) => {
                proof {
                    assert(view_all(done@.push(a)) =~= view_all(done@).push(a@));
                }
                done.push(a);
                pos = q;
            },
            Err(f) => {
                proof {
                    let from = if f.at as int > pos as int { f.at as int } else { pos as int };
                    lemma_skip_statement(t@, from);
                }
                let from = if f.at > pos { f.at } else { pos };
                errs.push(f);
                pos = skip_statement_exec(&t, from);
            },
        }
    }
    if errs.len() == 0 {
        Ok(done)
    } else {
        let mut out: Vec<RawParseError> = Vec::new();
        let mut i: usize = 0;
        while i < errs.len()
            invariant
                tv == t@,
                tv == tokens(text@),
                i <= errs@.len(),
                forall|j: int| 0 <= j < errs@.len() ==> (#[trigger] errs@[j].at as int) < t.len(),
                out@ == errs@.subrange(0, i as int).map_values(|f: Failure| raw_error(tv, f)),
            decreases errs@.len() - i,
        {
            let e = raw_error_exec(&t, errs[i]);
            proof {
                assert(errs@.subrange(0, i + 1) =~= errs@.subrange(0, i as int).push(errs@[i as int]));
            }
            out.push(e);
            i = i + 1;
        }
        proof {
            assert(errs@.subrange(0, i as int) =~= errs@);
        }
        Err(out)
    }
}

} // verus!

verus! {

/// The character to quote for an error: the one found, or `_` at the end
/// of the text.
pub open spec fn quoted(e: RawParseError) -> char {
    match e.found {
        Some(c) => c,
        None => '_',
    }
}

/// The documentation code of a syntax error.
pub open spec fn diagnosis_id(e: RawParseError) -> u8 {
    if e.found is None && e.expected == Expected::NewLine {
        1
    } else if e.found is None {
        2
    } else if e.found == Some('.') && e.expected == Expected::Expression {
        3
    } else if e.expected == Expected::Semicolon {
        4
    } else if e.expected == Expected::ClosingParenthesis {
        5
    } else {
        0
    }
}

/// The message of a syntax error: `P`, its code and `: `, then what went
/// wrong.
pub open spec fn diagnosis_reason(e: RawParseError) -> Seq<char> {
    "P"@ + decimal(diagnosis_id(e) as nat) + ": "@ + diagnosis_text(e)
}

/// What went wrong, in words.
pub open spec fn diagnosis_text(e: RawParseError) -> Seq<char> {
    let id = diagnosis_id(e);
    if id == 1 {
        "Expressions cannot end in a comment."@
    } else if id == 2 {
        "Unexpected end of file."@
    } else if id == 3 {
        "Laser Studio doesn't support shorthand float literals (eg. .1). Please use full literals instead (eg. 0.1)."@
    } else if id == 4 {
        "Unexpected character '"@ + seq![quoted(e)] + "'. Perhaps you forgot a semi-colon?"@
    } else if id == 5 {
        "Unexpected character '"@ + seq![quoted(e)] + "'. Perhaps you forgot to close your parenthesis?"@
    } else {
        "Unexpected character '"@ + seq![quoted(e)] + "'."@
    }
}

/// Turns a syntax error into a diagnostic at its line and column in
/// `text`, with the message and code of its case.
pub fn process_parser_error(error: RawParseError, text: &str) -> (r: Error)
    requires
        error.span.start <= text.spec_bytes().len(),
        text.spec_bytes().len() < usize::MAX,
    ensures
        r.line_number as int == line_of(text.spec_bytes(), error.span.start as int),
        r.col_number as int == column_of(text.spec_bytes(), error.span.start as int),
        r.error_type == ErrorType::ParseError,
        r.id == diagnosis_id(error),
        r.reason@ == diagnosis_reason(error),
{
    let loc = get_position_from_span(error.span, text);
    let c = match error.found {
        Some(c) => c,
        None => '_',
    };
    let id: u8 = if error.found.is_none() && error.expected == Expected::NewLine {
        1
    } else if error.found.is_none() {
        2
    } else if error.found == Some('.') && error.expected == Expected::Expression {
        3
    } else if error.expected == Expected::Semicolon {
        4
    } else if error.expected == Expected::ClosingParenthesis {
        5
    } else {
        0
    };
    let mut reason = String::from_str("P");
    push_decimal(&mut reason, id as usize);
    reason.append(": ");
    if id == 1 {
        reason.append("Expressions cannot end in a comment.");
    } else if id == 2 {
        reason.append("Unexpected end of file.");
    } else if id == 3 {
        reason.append(
            "Laser Studio doesn't support shorthand float literals (eg. .1). Please use full literals instead (eg. 0.1).",
        );
    } else {
        reason.append("Unexpected character '");
        push_char(&mut reason, c);
        if id == 4 {
            reason.append("'. Perhaps you forgot a semi-colon?");
        } else if id == 5 {
            reason.append("'. Perhaps you forgot to close your parenthesis?");
        } else {
            reason.append("'.");
        }
    }
    proof {
        let e = error;
        let head = "P"@ + decimal(id as nat) + ": "@;
        if id == 4 {
            assert(reason@ =~= head + ("Unexpected character '"@ + seq![quoted(e)] + "'. Perhaps you forgot a semi-colon?"@));
        } else if id == 5 {
            assert(reason@ =~= head + ("Unexpected character '"@ + seq![quoted(e)]
                + "'. Perhaps you forgot to close your parenthesis?"@));
        } else if id == 0 {
            assert(reason@ =~= head + ("Unexpected character '"@ + seq![quoted(e)] + "'."@));
        }
    }
    Error { line_number: loc.0, col_number: loc.1, reason, error_type: ErrorType::ParseError, id }
}

} // verus!

verus! {

/// Parsing depends on the text alone: the same text always gives the same
/// statements, node for node, and the same failures.
pub proof fn lemma_parse_deterministic(a: Seq<char>, b: Seq<char>)
    requires
        a == b,
    ensures
        program(a) == program(b),
        tokens(a) == tokens(b),
{
}

} // verus!

verus! {

/// That `d` is the diagnostic of the syntax error `e` of `text`.
pub open spec fn diagnoses(d: Error, text: Seq<u8>, e: RawParseError) -> bool {
    &&& d.line_number as int == line_of(text, e.span.start as int)
    &&& d.col_number as int == column_of(text, e.span.start as int)
    &&& d.error_type == ErrorType::ParseError
    &&& d.id == diagnosis_id(e)
    &&& d.reason@ == diagnosis_reason(e)
}

/// Parses a program: the statements in order if the text has no syntax
/// error, else the diagnostic of every syntax error, in the order met.
pub fn parse_with_diagnostics(text: &str) -> (r: Result<Vec<Assignment>, Vec<Error>>)
    requires
        text.spec_bytes().len() < usize::MAX,
    ensures
        program(text@).1.len() == 0 ==> r is Ok && view_all(r->Ok_0@) == program(text@).0,
        program(text@).1.len() > 0 ==> {
            &&& r is Err
            &&& r->Err_0@.len() == program(text@).1.len()
            &&& forall|k: int|
                0 <= k < program(text@).1.len() ==> diagnoses(
                    #[trigger] r->Err_0@[k],
                    text.spec_bytes(),
                    raw_error(tokens(text@), program(text@).1[k]),
                )
        },
{
    match parser(text) {
        Ok(v) => Ok(v),
        Err(raw) => {
            let ghost t = tokens(text@);
            let ghost fails = program(text@).1;
            proof {
                lemma_token_spans(text@, 0);
            }
            let mut out: Vec<Error> = Vec::new();
            let mut i: usize = 0;
            while i < raw.len()
                invariant
                    spans_within(t, byte_len(text@)),
                    byte_len(text@) == text.spec_bytes().len(),
                    text.spec_bytes().len() < usize::MAX,
                    raw@ == fails.map_values(|f: Failure| raw_error(t, f)),
                    i <= raw@.len(),
                    out@.len() == i,
                    forall|k: int| 0 <= k < i ==> diagnoses(#[trigger] out@[k], text.spec_bytes(), raw_error(t, fails[k])),
                decreases raw@.len() - i,
            {
                let e = raw[i];
                proof {
                    assert(e == raw_error(t, fails[i as int]));
                    if 0 <= fails[i as int].at as int && (fails[i as int].at as int) < t.len() {
                        assert(t[fails[i as int].at as int].span.start <= t[fails[i as int].at as int].span.end);
                    }
                }
                let d = process_parser_error(e, text);
                out.push(d);
                i = i + 1;
            }
            Err(out)
        },
    }
}

} // verus!
