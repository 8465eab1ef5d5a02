//! The grammar, as relations between token spans and syntax trees.
//!
//! For each parsing function there are two relations.  `parsed_x(t, tab,
//! p0, e, p1)` says that the tokens `t[p0..p1)` spell out exactly the tree
//! `e` under the precedence table `tab` — including precedence grouping and
//! left association for binary operators.  `fail_x(t, tab, p0)` says that
//! parsing from `p0` runs into an input the grammar refuses (directly, or
//! after some prefix has parsed).  The parser's contracts promise
//! `parsed_x` on success and `fail_x` on failure, so a parser that returned
//! a made-up tree, or an error on grammatical input, would not verify.

use vstd::prelude::*;
use crate::ast::Expr;
use crate::ast::Function;
use crate::ast::Prototype;
use crate::lexer::Token;
use crate::numeric::valid_number_text;
use crate::numeric::lit_usize;

verus! {

/// The precedence the table gives the token at `p`: the table's value for
/// a bound operator, 100 for any other operator token, -1 for everything
/// else (including the end of the input).
pub open spec fn tok_prec(t: Seq<Token>, tab: Map<char, i32>, p: int) -> i32 {
    if 0 <= p < t.len() {
        match t[p] {
            Token::Op(c) => if tab.contains_key(c) {
                tab[c]
            } else {
                100i32
            },
            _ => -1i32,
        }
    } else {
        -1i32
    }
}

/// A marker for quantifier instantiation over a position.
pub open spec fn at_pos(p: int) -> bool {
    true
}

/// A marker for quantifier instantiation over a witness value.
pub open spec fn witness<A>(x: A) -> bool {
    true
}

/// One level tighter than `x`, saturating at the top.
pub open spec fn bump(x: i32) -> i32 {
    if x < i32::MAX {
        (x + 1) as i32
    } else {
        i32::MAX
    }
}

/// Precedence climbing at level `min` stops at `p`: the input has ended,
/// or the next token does not bind at least as tightly as `min`.
pub open spec fn climb_stop(t: Seq<Token>, tab: Map<char, i32>, min: i32, p: int) -> bool {
    p >= t.len() || tok_prec(t, tab, p) < min
}

/// `t[p0..p1)` spells the unary expression `e`: a run of operator
/// characters, each becoming a call to `unary<op>`, applied to a primary.
pub open spec fn parsed_unary(
    t: Seq<Token>,
    tab: Map<char, i32>,
    p0: int,
    e: Expr,
    p1: int,
) -> bool
    decreases t.len() - p0, 3int, e,
{
    if p0 < 0 || p0 >= t.len() {
        false
    } else {
        match t[p0] {
            Token::Op(c) => e matches Expr::Call { fn_name, args } && fn_name@
                == "unary"@.push(c) && args@.len() == 1 && parsed_unary(t, tab, p0 + 1, args@[0], p1),
            _ => parsed_primary(t, tab, p0, e, p1),
        }
    }
}

/// Unary parsing from `p0` fails.
pub open spec fn fail_unary(t: Seq<Token>, tab: Map<char, i32>, p0: int) -> bool
    decreases t.len() - p0, 3int, 0int,
{
    if p0 < 0 || p0 >= t.len() {
        true
    } else {
        match t[p0] {
            Token::Op(c) => fail_unary(t, tab, p0 + 1),
            _ => fail_primary(t, tab, p0),
        }
    }
}

/// `t[p0..p1)` spells the primary expression `e`, dispatched on its first
/// token.
pub open spec fn parsed_primary(
    t: Seq<Token>,
    tab: Map<char, i32>,
    p0: int,
    e: Expr,
    p1: int,
) -> bool
    decreases t.len() - p0, 2int, e,
{
    if p0 < 0 || p0 >= t.len() {
        false
    } else {
        match t[p0] {
            Token::Ident(id) => parsed_id(t, tab, p0, e, p1),
            Token::Number(lit) => valid_number_text(lit.text@) && e == Expr::Number(lit) && p1 == p0
                + 1,
            Token::ParenLeft => parsed_paren(t, tab, p0, e, p1),
            Token::Var => parsed_var(t, tab, p0, e, p1),
            Token::TensorBegin => parsed_tensor(t, p0, e, p1),
            _ => false,
        }
    }
}

/// Primary parsing from `p0` fails.
pub open spec fn fail_primary(t: Seq<Token>, tab: Map<char, i32>, p0: int) -> bool
    decreases t.len() - p0, 2int, 0int,
{
    if p0 < 0 || p0 >= t.len() {
        true
    } else {
        match t[p0] {
            Token::Ident(id) => fail_id(t, tab, p0),
            Token::Number(lit) => !valid_number_text(lit.text@),
            Token::ParenLeft => fail_paren(t, tab, p0),
            Token::Var => fail_var(t, tab, p0),
            Token::TensorBegin => fail_tensor(t, p0),
            _ => true,
        }
    }
}

/// `t[p0..p1)` spells `e` wrapped in one pair of parentheses.
pub open spec fn parsed_paren(
    t: Seq<Token>,
    tab: Map<char, i32>,
    p0: int,
    e: Expr,
    p1: int,
) -> bool
    decreases t.len() - p0, 1int, e,
{
    &&& 0 <= p0 < t.len()
    &&& t[p0] is ParenLeft
    &&& p0 + 1 < p1 && p1 <= t.len()
    &&& t[p1 - 1] is ParenRight
    &&& parsed_expr(t, tab, p0 + 1, e, p1 - 1)
}

/// Parenthesized-expression parsing from `p0` fails.
pub open spec fn fail_paren(t: Seq<Token>, tab: Map<char, i32>, p0: int) -> bool
    decreases t.len() - p0, 1int, 0int,
{
    ||| p0 < 0 || p0 >= t.len()
    ||| !(t[p0] is ParenLeft)
    ||| fail_expr(t, tab, p0 + 1)
    ||| exists|e: Expr, pm: int|
        #![trigger witness(e), at_pos(pm)]
        p0 + 1 < pm <= t.len() && parsed_expr(t, tab, p0 + 1, e, pm) && (pm >= t.len() || !(t[pm]
            is ParenRight))
}

/// The call arguments `args` are spelled by `t[ps..p)`, separated by
/// commas.
pub open spec fn args_upto(t: Seq<Token>, tab: Map<char, i32>, args: Seq<Expr>, ps: int, p: int) -> bool
    decreases t.len() - ps, 7int + args.len(), args[0],
{
    if args.len() == 0 {
        false
    } else if args.len() == 1 {
        parsed_expr(t, tab, ps, args[0], p)
    } else {
        exists|q: int|
            #![trigger at_pos(q)]
            ps <= q && args_upto(t, tab, args.drop_last(), ps, q) && 0 <= q < t.len() && t[q]
                is Comma && parsed_expr(t, tab, q + 1, args.last(), p)
    }
}

/// `t[p0..p1)` spells the identifier expression `e`: a call if `(`
/// follows the name, a variable reference otherwise.
pub open spec fn parsed_id(t: Seq<Token>, tab: Map<char, i32>, p0: int, e: Expr, p1: int) -> bool
    decreases t.len() - p0, 1int, e,
{
    &&& 0 <= p0 < t.len()
    &&& t[p0] matches Token::Ident(id) && ({
        ||| (e matches Expr::Variable(name) && name@ == id@ && p1 == p0 + 1 && (p0 + 1 >= t.len()
            || !(t[p0 + 1] is ParenLeft)))
        ||| (e matches Expr::Call { fn_name, args } && p0 + 1 < t.len() && t[p0 + 1]
            is ParenLeft && fn_name@ == id@ && ({
            ||| (p0 + 2 < t.len() && t[p0 + 2] is ParenRight && args@.len() == 0 && p1 == p0 + 3)
            ||| (p0 + 2 < t.len() && !(t[p0 + 2] is ParenRight) && args@.len() > 0 && (exists|
                pm: int,
            |
                #![trigger at_pos(pm)]
                p0 + 2 < pm < t.len() && args_upto(t, tab, args@, p0 + 2, pm) && t[pm]
                    is ParenRight && p1 == pm + 1))
        }))
    })
}

/// From position `p`, parsing the rest of a call's argument list fails.
pub open spec fn fail_args(t: Seq<Token>, tab: Map<char, i32>, p: int) -> bool
    decreases t.len() - p, 7int, 0int,
{
    ||| fail_expr(t, tab, p)
    ||| exists|e: Expr, pm: int|
        #![trigger witness(e), at_pos(pm)]
        p < pm <= t.len() && parsed_expr(t, tab, p, e, pm) && (pm >= t.len() || (!(t[pm] is Comma)
            && !(t[pm] is ParenRight)) || (t[pm] is Comma && fail_args(t, tab, pm + 1)))
}

/// Identifier-expression parsing from `p0` fails: only a call with a
/// malformed argument list can fail here.
pub open spec fn fail_id(t: Seq<Token>, tab: Map<char, i32>, p0: int) -> bool
    decreases t.len() - p0, 1int, 0int,
{
    ||| p0 < 0 || p0 >= t.len()
    ||| !(t[p0] is Ident)
    ||| (p0 + 1 < t.len() && t[p0 + 1] is ParenLeft && p0 + 2 >= t.len())
    ||| (p0 + 1 < t.len() && t[p0 + 1] is ParenLeft && p0 + 2 < t.len() && !(t[p0 + 2]
        is ParenRight) && fail_args(t, tab, p0 + 2))
}

/// `e` results from precedence climbing at level `min` that started with
/// the already-accumulated left operand `left0` at `p0` and stopped at
/// `p1`: zero or more operators at least as tight as `min`, each followed
/// by its fully climbed right operand, folded left-associatively.
pub open spec fn climb(
    t: Seq<Token>,
    tab: Map<char, i32>,
    min: i32,
    left0: Expr,
    e: Expr,
    p0: int,
    p1: int,
) -> bool
    decreases t.len() - p0, 5int, e,
{
    ||| (e == left0 && p1 == p0)
    ||| (e matches Expr::Binary { op, left, right } && (exists|pl: int, pr: int|
        #![trigger at_pos(pl), at_pos(pr)]
        p0 <= pl < t.len() && climb(t, tab, min, left0, *left, p0, pl) && t[pl] == Token::Op(op)
            && tok_prec(t, tab, pl) >= min && pl < pr <= t.len() && right_part(
            t,
            tab,
            tok_prec(t, tab, pl),
            *right,
            pl + 1,
            pr,
        ) && p1 == pr))
}

/// `t[ps..pe)` spells `r`: a unary expression, then precedence climbing
/// one level tighter than `cur`, ending where the next token does not
/// bind more tightly than `cur`.
pub open spec fn right_part(
    t: Seq<Token>,
    tab: Map<char, i32>,
    cur: i32,
    r: Expr,
    ps: int,
    pe: int,
) -> bool
    decreases t.len() - ps, 4int, r,
{
    exists|u: Expr, pm: int|
        #![trigger witness(u), at_pos(pm)]
        ps < pm <= t.len() && parsed_unary(t, tab, ps, u, pm) && climb(
            t,
            tab,
            bump(cur),
            u,
            r,
            pm,
            pe,
        ) && (pe >= t.len() || tok_prec(t, tab, pe) <= cur)
}

/// `t[p0..p1)` spells the expression `e`: a unary expression followed by
/// precedence climbing from level 0.
pub open spec fn parsed_expr(t: Seq<Token>, tab: Map<char, i32>, p0: int, e: Expr, p1: int) -> bool
    decreases t.len() - p0, 6int, e,
{
    right_part(t, tab, -1i32, e, p0, p1)
}

/// Precedence climbing at level `min` from `p` fails (after zero or more
/// completed iterations).
pub open spec fn fail_climb(t: Seq<Token>, tab: Map<char, i32>, min: i32, p: int) -> bool
    decreases t.len() - p, 5int, 0int,
{
    &&& 0 <= p < t.len()
    &&& tok_prec(t, tab, p) >= min
    &&& ({
        ||| !(t[p] is Op)
        ||| fail_unary(t, tab, p + 1)
        ||| exists|u: Expr, pm: int|
            #![trigger witness(u), at_pos(pm)]
            p + 1 < pm <= t.len() && parsed_unary(t, tab, p + 1, u, pm) && ({
                ||| (tok_prec(t, tab, pm) > tok_prec(t, tab, p) && fail_climb(
                    t,
                    tab,
                    bump(tok_prec(t, tab, p)),
                    pm,
                ))
                ||| exists|r: Expr, pr: int|
                    #![trigger witness(r), at_pos(pr)]
                    pm <= pr <= t.len() && p < pr && climb(
                        t,
                        tab,
                        bump(tok_prec(t, tab, p)),
                        u,
                        r,
                        pm,
                        pr,
                    ) && (pr >= t.len() || tok_prec(t, tab, pr) <= tok_prec(t, tab, p))
                        && fail_climb(t, tab, min, pr)
            })
    })
}

/// Expression parsing from `p` fails: in the unary part, or in the
/// climbing that follows it.
pub open spec fn fail_expr(t: Seq<Token>, tab: Map<char, i32>, p: int) -> bool
    decreases t.len() - p, 6int, 0int,
{
    ||| fail_unary(t, tab, p)
    ||| exists|u: Expr, pm: int|
        #![trigger witness(u), at_pos(pm)]
        p < pm <= t.len() && parsed_unary(t, tab, p, u, pm) && fail_climb(t, tab, 0, pm)
}

/// `t[ps..p)` holds the dimension numbers of `shape`, with commas freely
/// between them.
pub open spec fn shape_upto(t: Seq<Token>, shape: Seq<usize>, ps: int, p: int) -> bool
    decreases p - ps,
{
    if p < ps {
        false
    } else if p == ps {
        shape.len() == 0
    } else if 0 <= p - 1 < t.len() {
        match t[p - 1] {
            Token::Comma => shape_upto(t, shape, ps, p - 1),
            Token::Number(lit) => valid_number_text(lit.text@) && shape.len() >= 1 && shape.last()
                == lit_usize(lit.text@) && shape_upto(t, shape.drop_last(), ps, p - 1),
            _ => false,
        }
    } else {
        false
    }
}

/// `t[ps..pend)` spells the whole shape annotation body: the dimension
/// numbers of `shape` and then the closing `>`.
pub open spec fn parsed_shape(t: Seq<Token>, shape: Seq<usize>, ps: int, pend: int) -> bool {
    &&& ps <= pend - 1 < t.len()
    &&& t[pend - 1] is AngleRight
    &&& shape_upto(t, shape, ps, pend - 1)
}

/// Shape-annotation parsing from `p` fails.
pub open spec fn fail_shape(t: Seq<Token>, p: int) -> bool
    decreases t.len() - p,
{
    if p < 0 || p >= t.len() {
        true
    } else {
        match t[p] {
            Token::AngleRight => false,
            Token::Number(lit) => !valid_number_text(lit.text@) || fail_shape(t, p + 1),
            Token::Comma => fail_shape(t, p + 1),
            _ => true,
        }
    }
}

/// `t[p0..p1)` spells the declaration `e`: `var name`, an optional
/// `<shape>`, and a required `= expr` initializer, ended by a comma
/// (consumed) or a semicolon (left in place).
pub open spec fn parsed_var(t: Seq<Token>, tab: Map<char, i32>, p0: int, e: Expr, p1: int) -> bool
    decreases t.len() - p0, 1int, e,
{
    &&& 0 <= p0 && p0 + 1 < t.len()
    &&& t[p0] is Var
    &&& t[p0 + 1] matches Token::Ident(name) && e matches Expr::VarDecl {
        name: n2,
        var_type,
        value,
    } && n2@ == name@ && (exists|pt: int, pe: int|
        #![trigger at_pos(pt), at_pos(pe)]
        p0 + 2 <= pt <= t.len() && (if p0 + 2 < t.len() && t[p0 + 2] is AngleLeft {
            parsed_shape(t, var_type.shape@, p0 + 3, pt)
        } else {
            var_type.shape@.len() == 0 && pt == p0 + 2
        }) && pt < t.len() && t[pt] == Token::Op('=') && pt + 1 < pe && #[trigger] parsed_expr(
            t,
            tab,
            pt + 1,
            *value,
            pe,
        ) && pe < t.len() && ((t[pe] is Comma && pe + 1 < t.len() && p1 == pe + 1) || (t[pe]
            is Semicolon && p1 == pe)))
}

/// After the (possibly absent) shape annotation ends at `pt`, the rest of
/// a declaration fails: a missing `=` (so the initializer is missing), a
/// bad initializer, or a bad terminator.
pub open spec fn fail_var_rest(t: Seq<Token>, tab: Map<char, i32>, pt: int) -> bool
    decreases t.len() - pt, 8int, 0int,
{
    ||| pt >= t.len()
    ||| !(t[pt] == Token::Op('='))
    ||| fail_expr(t, tab, pt + 1)
    ||| exists|e: Expr, pe: int|
        #![trigger witness(e), at_pos(pe)]
        pt + 1 < pe <= t.len() && parsed_expr(t, tab, pt + 1, e, pe) && (pe >= t.len() || (t[pe]
            is Comma && pe + 1 >= t.len()) || (!(t[pe] is Comma) && !(t[pe] is Semicolon)))
}

/// Declaration parsing from `p0` fails.
pub open spec fn fail_var(t: Seq<Token>, tab: Map<char, i32>, p0: int) -> bool
    decreases t.len() - p0, 1int, 0int,
{
    ||| p0 < 0 || p0 + 1 >= t.len()
    ||| !(t[p0] is Var)
    ||| !(t[p0 + 1] is Ident)
    ||| (p0 + 2 < t.len() && t[p0 + 2] is AngleLeft && fail_shape(t, p0 + 3))
    ||| (p0 + 2 < t.len() && t[p0 + 2] is AngleLeft && (exists|s: Seq<usize>, pt: int|
        #![trigger witness(s), at_pos(pt)]
        p0 + 3 <= pt <= t.len() && parsed_shape(t, s, p0 + 3, pt) && fail_var_rest(t, tab, pt)))
    ||| (!(p0 + 2 < t.len() && t[p0 + 2] is AngleLeft) && fail_var_rest(t, tab, p0 + 2))
}

/// `t[ps..p)` spells the tensor-literal elements `vs`: numbers and
/// nested literals, with commas freely between them.
pub open spec fn titems_upto(t: Seq<Token>, vs: Seq<Expr>, ps: int, p: int) -> bool
    decreases p - ps, 1int, 0int,
{
    if p < ps {
        false
    } else if p == ps {
        vs.len() == 0
    } else if 0 <= p - 1 < t.len() && t[p - 1] is Comma {
        titems_upto(t, vs, ps, p - 1)
    } else {
        vs.len() >= 1 && ({
            ||| (t[p - 1] matches Token::Number(lit) && 0 <= p - 1 < t.len()
                && valid_number_text(lit.text@) && vs.last() == Expr::Number(lit)
                && titems_upto(t, vs.drop_last(), ps, p - 1))
            ||| (exists|q: int|
                #![trigger at_pos(q)]
                ps <= q < p && parsed_tensor(t, q, vs.last(), p) && titems_upto(
                    t,
                    vs.drop_last(),
                    ps,
                    q,
                ))
        })
    }
}

/// `t[p0..p1)` spells the tensor literal `e`; `dims` records this level's
/// element count.
pub open spec fn parsed_tensor(t: Seq<Token>, p0: int, e: Expr, p1: int) -> bool
    decreases p1 - p0, 0int, 0int,
{
    &&& 0 <= p0 < t.len()
    &&& t[p0] is TensorBegin
    &&& e matches Expr::Tensor { location, values, dims } && dims@ == seq![
        values@.len() as usize,
    ] && (exists|pm: int|
        #[trigger] at_pos(pm) && p0 < pm < t.len() && pm < p1 && titems_upto(t, values@, p0 + 1, pm)
            && t[pm] is TensorEnd && p1 == pm + 1)
}

/// A parsed tensor literal ends just past its closing bracket.
pub proof fn lemma_parsed_tensor_end(t: Seq<Token>, p0: int, e: Expr, p1: int)
    requires
        parsed_tensor(t, p0, e, p1),
    ensures
        p0 < p1 - 1 < t.len(),
        t[p1 - 1] is TensorEnd,
{
    assert(0 <= p0 < t.len());
    assert(t[p0] is TensorBegin);
    let vs = e->Tensor_values;
    assert(exists|pm: int|
        #[trigger] at_pos(pm) && p0 < pm < t.len() && pm < p1 && titems_upto(t, vs@, p0 + 1, pm)
            && t[pm] is TensorEnd && p1 == pm + 1);
    let pm = choose|pm: int|
        #[trigger] at_pos(pm) && p0 < pm < t.len() && pm < p1 && titems_upto(t, vs@, p0 + 1, pm)
            && t[pm] is TensorEnd && p1 == pm + 1;
    assert(t[p1 - 1] is TensorEnd);
}

/// Tensor-literal element parsing from `p` fails.
pub open spec fn fail_titems(t: Seq<Token>, p: int) -> bool
    decreases t.len() - p, 10int,
{
    if p < 0 || p >= t.len() {
        true
    } else {
        match t[p] {
            Token::TensorBegin => fail_tensor(t, p) || (exists|e: Expr, pm: int|
                #![trigger witness(e), at_pos(pm)]
                p < pm <= t.len() && parsed_tensor(t, p, e, pm) && fail_titems(t, pm)),
            Token::Comma => fail_titems(t, p + 1),
            Token::Number(lit) => !valid_number_text(lit.text@) || fail_titems(t, p + 1),
            Token::TensorEnd => false,
            _ => true,
        }
    }
}

/// Tensor-literal parsing from `p0` fails.
pub open spec fn fail_tensor(t: Seq<Token>, p0: int) -> bool
    decreases t.len() - p0, 9int,
{
    ||| p0 < 0 || p0 >= t.len()
    ||| !(t[p0] is TensorBegin)
    ||| fail_titems(t, p0 + 1)
}


/// `p`, clamped into `i32` for storage in the precedence table.
pub open spec fn clamp_i32(p: usize) -> i32 {
    if p > i32::MAX as usize {
        i32::MAX
    } else {
        p as i32
    }
}

/// `t[p0..p1)` spells the return statement `e`; the terminating
/// semicolon of a bare `return;` is left in place.
pub open spec fn parsed_return(
    t: Seq<Token>,
    tab: Map<char, i32>,
    p0: int,
    e: Expr,
    p1: int,
) -> bool {
    &&& 0 <= p0 && p0 + 1 < t.len()
    &&& t[p0] is Return
    &&& ({
        ||| (t[p0 + 1] is Semicolon && (e matches Expr::Return { location, expression }
            && expression is None) && p1 == p0 + 1)
        ||| (!(t[p0 + 1] is Semicolon) && (e matches Expr::Return { location, expression }
            && expression matches Some(inner) && parsed_expr(t, tab, p0 + 1, *inner, p1)))
    })
}

/// Return-statement parsing from `p0` fails.
pub open spec fn fail_return(t: Seq<Token>, tab: Map<char, i32>, p0: int) -> bool {
    ||| p0 + 1 >= t.len()
    ||| (!(t[p0 + 1] is Semicolon) && fail_expr(t, tab, p0 + 1))
}

/// `t[ps..p)` spells the first `j` statements of a block, each statement
/// followed by one stepped-over token, with bare semicolons and comments
/// freely between them.
pub open spec fn stmts_upto(
    t: Seq<Token>,
    tab: Map<char, i32>,
    stmts: Seq<Expr>,
    ps: int,
    p: int,
) -> bool
    decreases p - ps,
{
    if p < ps {
        false
    } else if p == ps {
        stmts.len() == 0
    } else {
        ||| (0 <= p - 1 < t.len() && (t[p - 1] is Semicolon || t[p - 1] is Comment) && stmts_upto(
            t,
            tab,
            stmts,
            ps,
            p - 1,
        ))
        ||| (stmts.len() >= 1 && (exists|q: int|
            #![trigger at_pos(q)]
            ps <= q < p - 1 && stmts_upto(t, tab, stmts.drop_last(), ps, q) && ((0 <= q
                < t.len()
                && t[q] is Return && parsed_return(t, tab, q, stmts.last(), p - 1)) || (0 <= q
                < t.len() && !(t[q] is Return) && !(t[q] is Semicolon) && !(t[q] is Comment) && !(
            t[q] is BlockRight) && parsed_primary(t, tab, q, stmts.last(), p - 1)))))
    }
}

/// `t[p0..p1)` spells a function body block: the token at `p0` is stepped
/// over, the statements follow, and the closing brace ends it.
pub open spec fn parsed_block(
    t: Seq<Token>,
    tab: Map<char, i32>,
    p0: int,
    stmts: Seq<Expr>,
    p1: int,
) -> bool {
    &&& 0 <= p0 < t.len()
    &&& exists|pm: int|
        #![trigger at_pos(pm)]
        p0 < pm < t.len() && stmts_upto(t, tab, stmts, p0 + 1, pm) && t[pm] is BlockRight && p1
            == pm + 1
}

/// Statement parsing from `p` fails.
pub open spec fn fail_stmts(t: Seq<Token>, tab: Map<char, i32>, p: int) -> bool
    decreases t.len() - p,
{
    if p < 0 || p >= t.len() {
        true
    } else {
        match t[p] {
            Token::BlockRight => false,
            Token::Semicolon => fail_stmts(t, tab, p + 1),
            Token::Comment => fail_stmts(t, tab, p + 1),
            Token::Return => fail_return(t, tab, p) || (exists|e: Expr, pr: int|
                #![trigger witness(e), at_pos(pr)]
                p < pr <= t.len() && parsed_return(t, tab, p, e, pr) && (pr >= t.len()
                    || fail_stmts(t, tab, pr + 1))),
            _ => fail_primary(t, tab, p) || (exists|e: Expr, pq: int|
                #![trigger witness(e), at_pos(pq)]
                p < pq <= t.len() && parsed_primary(t, tab, p, e, pq) && (pq >= t.len()
                    || fail_stmts(t, tab, pq + 1))),
        }
    }
}

/// Block parsing from `p0` fails.
pub open spec fn fail_block(t: Seq<Token>, tab: Map<char, i32>, p0: int) -> bool {
    ||| p0 < 0 || p0 >= t.len()
    ||| fail_stmts(t, tab, p0 + 1)
}

/// `t[ps..p)` spells the first `j` prototype parameters: identifiers,
/// separated by a comma or by nothing.
pub open spec fn plist_upto(t: Seq<Token>, args: Seq<String>, ps: int, p: int) -> bool
    decreases p - ps,
{
    if p < ps + 1 || args.len() < 1 {
        false
    } else {
        t[p - 1] matches Token::Ident(a) && 0 <= p - 1 < t.len() && args.last()@ == a@ && ({
            ||| (args.len() == 1 && p - 1 == ps)
            ||| plist_upto(t, args.drop_last(), ps, p - 1)
            ||| (ps <= p - 2 && 0 <= p - 2 && t[p - 2] is Comma && plist_upto(
                t,
                args.drop_last(),
                ps,
                p - 2,
            ))
        })
    }
}

/// `t[pp..p1)` spells a parenthesized parameter list.
pub open spec fn param_part(t: Seq<Token>, pp: int, args: Seq<String>, p1: int) -> bool {
    &&& 0 <= pp && pp + 1 < t.len()
    &&& t[pp] is ParenLeft
    &&& ({
        ||| (t[pp + 1] is ParenRight && args.len() == 0 && p1 == pp + 2)
        ||| (!(t[pp + 1] is ParenRight) && args.len() >= 1 && (exists|pm: int|
            #![trigger at_pos(pm)]
            pp + 1 < pm < t.len() && plist_upto(t, args, pp + 1, pm) && t[pm] is ParenRight && p1
                == pm + 1))
    })
}

/// `t[p0..p1)` spells the prototype `proto`, turning the table `tab0`
/// into `tab1`: a `binary` operator prototype binds its operator.
pub open spec fn parsed_proto(
    t: Seq<Token>,
    tab0: Map<char, i32>,
    p0: int,
    proto: Prototype,
    tab1: Map<char, i32>,
    p1: int,
) -> bool {
    &&& 0 <= p0 < t.len()
    &&& match t[p0] {
        Token::Ident(id) => proto.name@ == id@ && !proto.is_op && proto.prec == 0 && tab1 == tab0
            && param_part(t, p0 + 1, proto.args@, p1),
        Token::Binary => t[p0 + 1] matches Token::Op(c) && p0 + 1 < t.len() && proto.name@
            == "binary"@.push(c) && proto.is_op && p0 + 2 < t.len() && tab1 == tab0.insert(
            c,
            clamp_i32(proto.prec),
        ) && ({
            ||| (t[p0 + 2] matches Token::Number(lit) && valid_number_text(lit.text@)
                && proto.prec == lit_usize(lit.text@) && param_part(t, p0 + 3, proto.args@, p1))
            ||| (!(t[p0 + 2] is Number) && proto.prec == 0 && param_part(
                t,
                p0 + 2,
                proto.args@,
                p1,
            ))
        }),
        Token::Unary => t[p0 + 1] matches Token::Op(c) && p0 + 1 < t.len() && proto.name@
            == "unary"@.push(c) && proto.is_op && proto.prec == 0 && tab1 == tab0 && param_part(
            t,
            p0 + 2,
            proto.args@,
            p1,
        ),
        _ => false,
    }
}

/// Parameter-list parsing from `p` fails.
pub open spec fn fail_plist(t: Seq<Token>, p: int) -> bool
    decreases t.len() - p,
{
    if p < 0 || p >= t.len() {
        true
    } else if !(t[p] is Ident) {
        true
    } else if p + 1 >= t.len() {
        true
    } else if t[p + 1] is ParenRight {
        false
    } else if t[p + 1] is Comma {
        fail_plist(t, p + 2)
    } else if t[p + 1] is Ident {
        fail_plist(t, p + 1)
    } else {
        true
    }
}

/// Parameter-part parsing from `pp` fails.
pub open spec fn fail_params(t: Seq<Token>, pp: int) -> bool {
    ||| pp < 0 || pp >= t.len()
    ||| !(t[pp] is ParenLeft)
    ||| pp + 1 >= t.len()
    ||| (!(t[pp + 1] is ParenRight) && fail_plist(t, pp + 1))
}

/// Prototype parsing from `p0` fails.
pub open spec fn fail_proto(t: Seq<Token>, p0: int) -> bool {
    if p0 < 0 || p0 >= t.len() {
        true
    } else {
        match t[p0] {
            Token::Ident(id) => fail_params(t, p0 + 1),
            Token::Binary => p0 + 1 >= t.len() || !(t[p0 + 1] is Op) || p0 + 2 >= t.len() || (
            t[p0 + 2] matches Token::Number(lit) && (!valid_number_text(lit.text@) || fail_params(
                t,
                p0 + 3,
            ))) || (!(t[p0 + 2] is Number) && fail_params(t, p0 + 2)),
            Token::Unary => p0 + 1 >= t.len() || !(t[p0 + 1] is Op) || fail_params(t, p0 + 2),
            _ => true,
        }
    }
}

/// `t[p0..p1)` spells the function definition `f`, turning `tab0` into
/// `tab1`.
pub open spec fn parsed_def(
    t: Seq<Token>,
    tab0: Map<char, i32>,
    p0: int,
    f: Function,
    tab1: Map<char, i32>,
    p1: int,
) -> bool {
    &&& 0 <= p0 < t.len()
    &&& t[p0] is Def
    &&& exists|pp: int|
        #![trigger at_pos(pp)]
        p0 + 1 <= pp <= t.len() && parsed_proto(t, tab0, p0 + 1, f.prototype, tab1, pp) && (
        f.body matches Some(b) && (b matches Expr::ExprList { expressions } && parsed_block(
            t,
            tab1,
            pp,
            expressions@,
            p1,
        )))
}

/// Definition parsing from `p0` fails.
pub open spec fn fail_def(t: Seq<Token>, tab0: Map<char, i32>, p0: int) -> bool {
    ||| fail_proto(t, p0 + 1)
    ||| exists|proto: Prototype, tab1: Map<char, i32>, pp: int|
        #![trigger witness(proto), witness(tab1), at_pos(pp)]
        p0 + 1 <= pp <= t.len() && parsed_proto(t, tab0, p0 + 1, proto, tab1, pp) && fail_block(
            t,
            tab1,
            pp,
        )
}

/// `t[ps..p)` spells the first `j` function definitions (with comments
/// freely between them), threading the precedence table through.
pub open spec fn defs_upto(
    t: Seq<Token>,
    tab0: Map<char, i32>,
    fs: Seq<Function>,
    tab_out: Map<char, i32>,
    ps: int,
    p: int,
) -> bool
    decreases p - ps,
{
    if p < ps {
        false
    } else if p == ps {
        fs.len() == 0 && tab_out == tab0
    } else {
        ||| (0 <= p - 1 < t.len() && t[p - 1] is Comment && defs_upto(
            t,
            tab0,
            fs,
            tab_out,
            ps,
            p - 1,
        ))
        ||| (fs.len() >= 1 && (exists|q: int, tab_mid: Map<char, i32>|
            #![trigger at_pos(q), witness(tab_mid)]
            ps <= q < p && defs_upto(t, tab0, fs.drop_last(), tab_mid, ps, q) && parsed_def(
                t,
                tab_mid,
                q,
                fs.last(),
                tab_out,
                p,
            )))
    }
}

/// Module parsing from `p` fails.
pub open spec fn fail_module(t: Seq<Token>, tab: Map<char, i32>, p: int) -> bool
    decreases t.len() - p,
{
    if p < 0 || p >= t.len() {
        false
    } else {
        match t[p] {
            Token::Comment => fail_module(t, tab, p + 1),
            Token::Def => fail_def(t, tab, p) || (exists|f: Function, tab2: Map<char, i32>, pd: int|
                #![trigger witness(f), witness(tab2), at_pos(pd)]
                p < pd <= t.len() && parsed_def(t, tab, p, f, tab2, pd) && fail_module(
                    t,
                    tab2,
                    pd,
                )),
            _ => true,
        }
    }
}


} // verus!
