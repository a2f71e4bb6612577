use vstd::prelude::*;

use crate::lexer::{is_name, is_numeral, lemma_token_words, lemma_tokens_len, offset, tokens, word_ok, Token, TokenKind};
use crate::parser::{
    binary_op, index_of_next, join, kind_at, parse_args, parse_atom, parse_chain, parse_level, parse_program, parse_statement,
    parse_unary, program, resume_at, span_at, unary_op, AssignmentModel, BinaryOperation, Expr, Failure, Node,
};
use crate::offsets::{byte_len, text_in};
use crate::span::Span;

verus! {

/// Precedence of a binary operator: 0 binds loosest, 4 tightest.
pub open spec fn op_level(op: BinaryOperation) -> int {
    match op {
        BinaryOperation::And | BinaryOperation::Or => 0,
        BinaryOperation::LessThan | BinaryOperation::GreaterThan | BinaryOperation::LessThanOrEqual
        | BinaryOperation::GreaterThanOrEqual | BinaryOperation::Equal => 1,
        BinaryOperation::Add | BinaryOperation::Subtract => 2,
        BinaryOperation::Multiply | BinaryOperation::Divide | BinaryOperation::Modulo => 3,
        BinaryOperation::Exponent => 4,
    }
}

/// How tightly a node binds: its operator's precedence, or 5 for prefix
/// operators, groups, calls and single values.
pub open spec fn level_of(e: Expr) -> int {
    match e {
        Expr::BinaryExpression(_, op, _) => op_level(op),
        _ => 5,
    }
}

/// Node `i` refers only to earlier nodes, and its operands bind as the
/// precedence table says: the left operand of a binary operator binds at
/// least as tightly as the operator (so equal operators fold to the left),
/// the right one strictly more tightly; the operand of a prefix operator is
/// a prefix operator or an atom.
pub open spec fn node_ok(n: Seq<Node>, a: Seq<usize>, i: int) -> bool {
    match n[i].expr {
        Expr::BinaryExpression(l, op, r) => {
            &&& l < i
            &&& r < i
            &&& level_of(n[l as int].expr) >= op_level(op)
            &&& level_of(n[r as int].expr) > op_level(op)
        },
        Expr::UnaryExpression(_, c) => c < i && level_of(n[c as int].expr) == 5,
        Expr::Group(c) => c < i,
        Expr::Call(_, first, count) => {
            &&& first + count <= a.len()
            &&& forall|j: int| first <= j < first + count ==> (#[trigger] a[j] as int) < i
        },
        _ => true,
    }
}

pub open spec fn tree_ok(n: Seq<Node>, a: Seq<usize>) -> bool {
    forall|i: int| 0 <= i < n.len() ==> #[trigger] node_ok(n, a, i)
}

/// A number or variable node, or the name of a call, stands on a token of
/// the matching kind.
pub open spec fn leaf_ok(t: Seq<Token>, x: Node) -> bool {
    match x.expr {
        Expr::Number => exists|j: int| 0 <= j < t.len() && (#[trigger] t[j]).kind == TokenKind::Number && t[j].span == x.span,
        Expr::Variable => exists|j: int| 0 <= j < t.len() && (#[trigger] t[j]).kind == TokenKind::Identifier && t[j].span == x.span,
        Expr::Call(name, _, _) => exists|j: int| 0 <= j < t.len() && (#[trigger] t[j]).kind == TokenKind::Identifier && t[j].span == name,
        _ => true,
    }
}

pub open spec fn leaves_ok(t: Seq<Token>, n: Seq<Node>) -> bool {
    forall|i: int| 0 <= i < n.len() ==> leaf_ok(t, #[trigger] n[i])
}

proof fn lemma_push_leaf(t: Seq<Token>, n: Seq<Node>, x: Node)
    requires
        leaves_ok(t, n),
        leaf_ok(t, x),
    ensures
        leaves_ok(t, n.push(x)),
{
    assert forall|i: int| 0 <= i < n.push(x).len() implies leaf_ok(t, #[trigger] n.push(x)[i]) by {
        if i < n.len() {
            assert(n.push(x)[i] == n[i]);
        }
    }
}

/// `n1` and `a1` extend `n` and `a`.
pub open spec fn extends(n: Seq<Node>, a: Seq<usize>, n1: Seq<Node>, a1: Seq<usize>) -> bool {
    &&& n.len() <= n1.len()
    &&& a.len() <= a1.len()
    &&& forall|i: int| 0 <= i < n.len() ==> #[trigger] n1[i] == n[i]
    &&& forall|j: int| 0 <= j < a.len() ==> #[trigger] a1[j] == a[j]
}

/// The indices of the nodes and arguments that parsing from token `pos`
/// can add all fit in a `usize`.
pub open spec fn room(t: Seq<Token>, pos: int, n: Seq<Node>, a: Seq<usize>) -> bool {
    &&& n.len() + t.len() - pos <= usize::MAX
    &&& a.len() + t.len() - pos <= usize::MAX
}

/// A well-shaped result of parsing at precedence `level` from token `pos`:
/// no more nodes were added than tokens were read, and `slack` fewer
/// arguments than that.
pub open spec fn result_ok(
    r: Result<(Seq<Node>, Seq<usize>, usize, Span, int), Failure>,
    t: Seq<Token>,
    pos: int,
    n: Seq<Node>,
    a: Seq<usize>,
    level: int,
    slack: int,
) -> bool {
    match r {
        Ok((n1, a1, root, _sp, q)) => {
            &&& pos <= q <= t.len()
            &&& n1.len() + pos <= n.len() + q
            &&& a1.len() + pos + slack <= a.len() + q
            &&& extends(n, a, n1, a1)
            &&& tree_ok(n1, a1)
            &&& leaves_ok(t, n1)
            &&& root < n1.len()
            &&& level_of(n1[root as int].expr) >= level
        },
        Err(_) => true,
    }
}

proof fn lemma_extends_trans(n: Seq<Node>, a: Seq<usize>, n1: Seq<Node>, a1: Seq<usize>, n2: Seq<Node>, a2: Seq<usize>)
    requires
        extends(n, a, n1, a1),
        extends(n1, a1, n2, a2),
    ensures
        extends(n, a, n2, a2),
{
    assert forall|i: int| 0 <= i < n.len() implies #[trigger] n2[i] == n[i] by {
        assert(n2[i] == n1[i]);
    }
    assert forall|j: int| 0 <= j < a.len() implies #[trigger] a2[j] == a[j] by {
        assert(a2[j] == a1[j]);
    }
}

/// Adding a node that refers to earlier ones keeps the tree well shaped.
proof fn lemma_push_ok(n: Seq<Node>, a: Seq<usize>, x: Node)
    requires
        tree_ok(n, a),
        node_ok(n.push(x), a, n.len() as int),
    ensures
        tree_ok(n.push(x), a),
        extends(n, a, n.push(x), a),
{
    let m = n.push(x);
    assert forall|i: int| 0 <= i < m.len() implies #[trigger] node_ok(m, a, i) by {
        if i < n.len() {
            assert(node_ok(n, a, i));
            assert(m[i] == n[i]);
            match n[i].expr {
                Expr::BinaryExpression(l, op, r) => {
                    assert(m[l as int] == n[l as int]);
                    assert(m[r as int] == n[r as int]);
                },
                Expr::UnaryExpression(_, c) => {
                    assert(m[c as int] == n[c as int]);
                },
                _ => {},
            }
        }
    }
}

/// Appending to the argument list keeps the tree well shaped.
proof fn lemma_append_ok(n: Seq<Node>, a: Seq<usize>, extra: Seq<usize>)
    requires
        tree_ok(n, a),
    ensures
        tree_ok(n, a + extra),
        extends(n, a, n, a + extra),
{
    let b = a + extra;
    assert forall|i: int| 0 <= i < n.len() implies #[trigger] node_ok(n, b, i) by {
        assert(node_ok(n, a, i));
        match n[i].expr {
            Expr::Call(_, first, count) => {
                assert forall|j: int| first <= j < first + count implies (#[trigger] b[j] as int) < i by {
                    assert(b[j] == a[j]);
                }
            },
            _ => {},
        }
    }
}

proof fn lemma_level(t: Seq<Token>, level: int, pos: int, n: Seq<Node>, a: Seq<usize>)
    requires
        tree_ok(n, a),
        leaves_ok(t, n),
        room(t, pos, n, a),
    ensures
        result_ok(parse_level(t, level, pos, n, a), t, pos, n, a, level, 1),
    decreases t.len() - pos, 6 - level, 1int,
{
    if pos < 0 || pos >= t.len() || level < 0 || level > 5 {
    } else if level == 5 {
        lemma_unary(t, pos, n, a);
    } else {
        lemma_level(t, level + 1, pos, n, a);
        match parse_level(t, level + 1, pos, n, a) {
            Ok((n1, a1, left, ls, q)) => {
                if pos < q < t.len() {
                    lemma_chain(t, level, q, n1, a1, left, ls);
                    match parse_chain(t, level, q, n1, a1, left, ls) {
                        Ok((n2, a2, _r, _s, _q2)) => {
                            lemma_extends_trans(n, a, n1, a1, n2, a2);
                        },
                        Err(_) => {},
                    }
                }
            },
            Err(_) => {},
        }
    }
}

proof fn lemma_chain(
    t: Seq<Token>,
    level: int,
    pos: int,
    n: Seq<Node>,
    a: Seq<usize>,
    left: usize,
    ls: Span,
)
    requires
        tree_ok(n, a),
        leaves_ok(t, n),
        room(t, pos, n, a),
        left < n.len(),
        level_of(n[left as int].expr) >= level,
    ensures
        result_ok(parse_chain(t, level, pos, n, a, left, ls), t, pos, n, a, level, 0),
    decreases t.len() - pos, 6 - level, 0int,
{
    if pos < 0 || pos >= t.len() || level < 0 || level > 4 {
    } else {
        match binary_op(level, kind_at(t, pos)) {
            None => {},
            Some(op) => {
                lemma_level(t, level + 1, pos + 1, n, a);
                match parse_level(t, level + 1, pos + 1, n, a) {
                    Ok((n1, a1, right, rs, q)) => {
                        if pos < q < t.len() {
                            assert(op_level(op) == level);
                            let x = Node { expr: Expr::BinaryExpression(left, op, right), span: join(ls, rs) };
                            assert(n1[left as int] == n[left as int]);
                            assert(n1.push(x)[left as int] == n1[left as int]);
                            assert(n1.push(x)[right as int] == n1[right as int]);
                            lemma_push_ok(n1, a1, x);
                            lemma_push_leaf(t, n1, x);
                            lemma_extends_trans(n, a, n1, a1, n1.push(x), a1);
                            let m = n1.push(x);
                            assert(level_of(m[n1.len() as int].expr) == level);
                            lemma_chain(t, level, q, m, a1, index_of_next(n1), join(ls, rs));
                            match parse_chain(t, level, q, m, a1, index_of_next(n1), join(ls, rs)) {
                                Ok((n2, a2, _r, _s, _q2)) => {
                                    lemma_extends_trans(n, a, m, a1, n2, a2);
                                },
                                Err(_) => {},
                            }
                        }
                    },
                    Err(_) => {},
                }
            },
        }
    }
}

proof fn lemma_unary(t: Seq<Token>, pos: int, n: Seq<Node>, a: Seq<usize>)
    requires
        tree_ok(n, a),
        leaves_ok(t, n),
        room(t, pos, n, a),
    ensures
        result_ok(parse_unary(t, pos, n, a), t, pos, n, a, 5, 1),
    decreases t.len() - pos, 0int, 1int,
{
    if pos < 0 || pos >= t.len() {
    } else {
        match unary_op(kind_at(t, pos)) {
            Some(op) => {
                lemma_unary(t, pos + 1, n, a);
                match parse_unary(t, pos + 1, n, a) {
                    Ok((n1, a1, inner, is, q)) => {
                        let x = Node {
                            expr: Expr::UnaryExpression(op, inner),
                            span: join(span_at(t, pos), is),
                        };
                        assert(n1.push(x)[inner as int] == n1[inner as int]);
                        lemma_push_ok(n1, a1, x);
                        lemma_push_leaf(t, n1, x);
                        lemma_extends_trans(n, a, n1, a1, n1.push(x), a1);
                    },
                    Err(_) => {},
                }
            },
            None => {
                lemma_atom(t, pos, n, a);
            },
        }
    }
}

proof fn lemma_atom(t: Seq<Token>, pos: int, n: Seq<Node>, a: Seq<usize>)
    requires
        tree_ok(n, a),
        leaves_ok(t, n),
        room(t, pos, n, a),
    ensures
        result_ok(parse_atom(t, pos, n, a), t, pos, n, a, 5, 1),
    decreases t.len() - pos, 0int, 0int,
{
    let k = kind_at(t, pos);
    let sp = span_at(t, pos);
    if pos < 0 || pos >= t.len() {
    } else if k == TokenKind::Number {
        assert(t[pos].kind == TokenKind::Number && t[pos].span == sp);
        lemma_push_ok(n, a, Node { expr: Expr::Number, span: sp });
        lemma_push_leaf(t, n, Node { expr: Expr::Number, span: sp });
    } else if k == TokenKind::Identifier {
        assert(t[pos].kind == TokenKind::Identifier && t[pos].span == sp);
        if kind_at(t, pos + 1) != TokenKind::LeftParen {
            lemma_push_ok(n, a, Node { expr: Expr::Variable, span: sp });
            lemma_push_leaf(t, n, Node { expr: Expr::Variable, span: sp });
        } else if kind_at(t, pos + 2) == TokenKind::RightParen {
            let cs = join(sp, span_at(t, pos + 2));
            let x = Node { expr: Expr::Call(sp, offset(a.len() as int), 0), span: cs };
            lemma_push_ok(n, a, x);
            lemma_push_leaf(t, n, x);
        } else {
            lemma_args(t, pos + 2, n, a, seq![]);
            match parse_args(t, pos + 2, n, a, seq![]) {
                Ok((n1, a1, roots, q)) => {
                    let cs = join(sp, span_at(t, q));
                    let x = Node {
                        expr: Expr::Call(sp, offset(a1.len() as int), offset(roots.len() as int)),
                        span: cs,
                    };
                    lemma_append_ok(n1, a1, roots);
                    let b = a1 + roots;
                    assert forall|j: int| a1.len() <= j < a1.len() + roots.len() implies (#[trigger] b[j] as int) < n1.len() by {
                        assert(b[j] == roots[j - a1.len()]);
                    }
                    lemma_push_ok(n1, b, x);
                    lemma_push_leaf(t, n1, x);
                    lemma_extends_trans(n, a, n1, a1, n1, b);
                    lemma_extends_trans(n, a, n1, b, n1.push(x), b);
                },
                Err(_) => {},
            }
        }
    } else if k == TokenKind::LeftParen {
        lemma_level(t, 0, pos + 1, n, a);
        match parse_level(t, 0, pos + 1, n, a) {
            Ok((n1, a1, inner, is, q)) => {
                let gs = join(sp, span_at(t, q));
                let x = Node { expr: Expr::Group(inner), span: gs };
                lemma_push_ok(n1, a1, x);
                lemma_push_leaf(t, n1, x);
                lemma_extends_trans(n, a, n1, a1, n1.push(x), a1);
            },
            Err(_) => {},
        }
    }
}

proof fn lemma_args(t: Seq<Token>, pos: int, n: Seq<Node>, a: Seq<usize>, roots: Seq<usize>)
    requires
        tree_ok(n, a),
        leaves_ok(t, n),
        room(t, pos, n, a),
        roots.len() + t.len() - pos <= usize::MAX,
        forall|j: int| 0 <= j < roots.len() ==> (#[trigger] roots[j] as int) < n.len(),
    ensures
        match parse_args(t, pos, n, a, roots) {
            Ok((n1, a1, rs, q)) => {
                &&& pos <= q < t.len()
                &&& n1.len() + pos <= n.len() + q
                &&& a1.len() + pos <= a.len() + q
                &&& a1.len() + rs.len() + pos <= a.len() + roots.len() + q
                &&& extends(n, a, n1, a1)
                &&& tree_ok(n1, a1)
                &&& leaves_ok(t, n1)
                &&& forall|j: int| 0 <= j < rs.len() ==> (#[trigger] rs[j] as int) < n1.len()
            },
            Err(_) => true,
        },
    decreases t.len() - pos, 7int, 0int,
{
    if pos < 0 || pos >= t.len() {
    } else {
        lemma_level(t, 0, pos, n, a);
        match parse_level(t, 0, pos, n, a) {
            Ok((n1, a1, r, rs, q)) => {
                let more = roots.push(r);
                assert forall|j: int| 0 <= j < more.len() implies (#[trigger] more[j] as int) < n1.len() by {
                    if j < roots.len() {
                        assert(more[j] == roots[j]);
                    }
                }
                if q <= pos {
                } else if kind_at(t, q) == TokenKind::Comma {
                    lemma_args(t, q + 1, n1, a1, more);
                    match parse_args(t, q + 1, n1, a1, more) {
                        Ok((n2, a2, _rs2, _q2)) => {
                            lemma_extends_trans(n, a, n1, a1, n2, a2);
                        },
                        Err(_) => {},
                    }
                }
            },
            Err(_) => {},
        }
    }
}

/// A statement as the parser gives it is well shaped.
pub open spec fn statement_ok(m: AssignmentModel) -> bool {
    tree_ok(m.nodes, m.arguments) && m.root < m.nodes.len()
}

/// A well-shaped statement whose leaves stand on tokens of `t`.
pub open spec fn statement_in(t: Seq<Token>, m: AssignmentModel) -> bool {
    statement_ok(m) && leaves_ok(t, m.nodes)
}

proof fn lemma_program(t: Seq<Token>, pos: int, done: Seq<AssignmentModel>, errs: Seq<Failure>)
    requires
        t.len() <= usize::MAX,
        forall|k: int| 0 <= k < done.len() ==> statement_in(t, #[trigger] done[k]),
    ensures
        forall|k: int| 0 <= k < parse_program(t, pos, done, errs).0.len() ==> statement_in(
            t,
            #[trigger] parse_program(t, pos, done, errs).0[k],
        ),
    decreases t.len() - pos,
{
    if pos < 0 || pos >= t.len() || kind_at(t, pos) == TokenKind::End {
    } else if kind_at(t, pos) == TokenKind::EndInComment {
    } else {
        match parse_statement(t, pos) {
            Ok((m, q)) => {
                assert(tree_ok(Seq::<Node>::empty(), Seq::<usize>::empty()));
                assert(leaves_ok(t, Seq::<Node>::empty()));
                lemma_level(t, 0, pos + 2, seq![], seq![]);
                assert(statement_in(t, m));
                if pos < q <= t.len() {
                    let more = done.push(m);
                    assert forall|k: int| 0 <= k < more.len() implies statement_in(t, #[trigger] more[k]) by {
                        if k < done.len() {
                            assert(more[k] == done[k]);
                        }
                    }
                    lemma_program(t, q, more, errs);
                    assert(parse_program(t, pos, done, errs) == parse_program(t, q, more, errs));
                }
            },
            Err(f) => {
                let next = resume_at(t, pos, f);
                if pos < next <= t.len() {
                    lemma_program(t, next, done, errs.push(f));
                    assert(parse_program(t, pos, done, errs) == parse_program(t, next, done, errs.push(f)));
                }
            },
        }
    }
}

/// Every parsed statement is a well-shaped tree: each node refers only to
/// earlier nodes, operators of one precedence fold to the left (`2 ^ 3 ^ 2`
/// is `(2 ^ 3) ^ 2`), and tighter operators sit below looser ones
/// (`2 + 3 * 4` is `2 + (3 * 4)`).
pub proof fn lemma_statements_well_shaped(text: Seq<char>, k: int)
    requires
        text.len() < usize::MAX,
        0 <= k < program(text).0.len(),
    ensures
        statement_ok(program(text).0[k]),
{
    lemma_tokens_len(text, 0);
    lemma_program(tokens(text), 0, seq![], seq![]);
    assert(statement_in(tokens(text), program(text).0[k]));
}

/// The words under the leaves of parsed statements: every number node
/// covers a numeral of the text, and every variable node and every called
/// function's name covers a name (spans are byte offsets).
pub proof fn lemma_leaves_are_words(text: Seq<char>, k: int, i: int)
    requires
        text.len() < usize::MAX,
        byte_len(text) <= usize::MAX,
        0 <= k < program(text).0.len(),
        0 <= i < program(text).0[k].nodes.len(),
    ensures
        ({
            let x = program(text).0[k].nodes[i];
            &&& x.expr == Expr::Number ==> is_numeral(text_in(text, x.span.start as int, x.span.end as int))
            &&& x.expr == Expr::Variable ==> is_name(text_in(text, x.span.start as int, x.span.end as int))
            &&& forall|name: Span, first: usize, count: usize|
                x.expr == Expr::Call(name, first, count) ==> is_name(text_in(text, name.start as int, name.end as int))
        }),
{
    let t = tokens(text);
    lemma_tokens_len(text, 0);
    lemma_program(t, 0, seq![], seq![]);
    lemma_token_words(text, 0);
    let x = program(text).0[k].nodes[i];
    assert(statement_in(t, program(text).0[k]));
    assert(leaf_ok(t, x));
    match x.expr {
        Expr::Number => {
            let j = choose|j: int| 0 <= j < t.len() && (#[trigger] t[j]).kind == TokenKind::Number && t[j].span == x.span;
            assert(word_ok(text, t[j]));
        },
        Expr::Variable => {
            let j = choose|j: int| 0 <= j < t.len() && (#[trigger] t[j]).kind == TokenKind::Identifier && t[j].span == x.span;
            assert(word_ok(text, t[j]));
        },
        Expr::Call(name, _, _) => {
            let j = choose|j: int| 0 <= j < t.len() && (#[trigger] t[j]).kind == TokenKind::Identifier && t[j].span == name;
            assert(word_ok(text, t[j]));
        },
        _ => {},
    }
}

} // verus!
