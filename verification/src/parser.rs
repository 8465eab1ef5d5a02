//! The recursive-descent parser.
//!
//! [`Parser::new`] lexes the whole input eagerly into a token vector;
//! [`Parser::parse_module`] then parses it in one pass, failing fast: the
//! first error aborts the parse of the entire module, and no partial syntax
//! tree is returned.  Binary expressions are parsed by precedence climbing
//! against a [`PrecedenceTable`] that the caller supplies and that `binary`
//! operator prototypes mutate as a side effect of being parsed: the table
//! is compiler-session state, handed to each parser instance and recovered
//! from it, never global.

use vstd::prelude::*;
use crate::ast::Expr;
use crate::ast::Function;
use crate::ast::Location;
use crate::ast::Module;
use crate::ast::Prototype;
use crate::ast::VarType;
use crate::lexer::Lexer;
use crate::lexer::Token;
use crate::lexer::lex_post;
use crate::grammar::args_upto;
use crate::grammar::at_pos;
use crate::grammar::bump;
use crate::grammar::clamp_i32;
use crate::grammar::fail_args;
use crate::grammar::fail_id;
use crate::grammar::defs_upto;
use crate::grammar::fail_def;
use crate::grammar::fail_module;
use crate::grammar::fail_plist;
use crate::grammar::fail_proto;
use crate::grammar::parsed_def;
use crate::grammar::parsed_proto;
use crate::grammar::plist_upto;
use crate::grammar::fail_block;
use crate::grammar::fail_return;
use crate::grammar::fail_stmts;
use crate::grammar::parsed_block;
use crate::grammar::parsed_return;
use crate::grammar::stmts_upto;
use crate::grammar::fail_shape;
use crate::grammar::fail_var;
use crate::grammar::fail_var_rest;
use crate::grammar::fail_tensor;
use crate::grammar::fail_titems;
use crate::grammar::parsed_id;
use crate::grammar::parsed_tensor;
use crate::grammar::titems_upto;
use crate::grammar::parsed_shape;
use crate::grammar::shape_upto;
use crate::grammar::parsed_var;
use crate::grammar::climb;
use crate::grammar::climb_stop;
use crate::grammar::fail_climb;
use crate::grammar::fail_expr;
use crate::grammar::fail_paren;
use crate::grammar::fail_primary;
use crate::grammar::fail_unary;
use crate::grammar::parsed_expr;
use crate::grammar::parsed_paren;
use crate::grammar::parsed_primary;
use crate::grammar::parsed_unary;
use crate::grammar::right_part;
use crate::grammar::tok_prec;
use crate::grammar::witness;
use crate::numeric::NumLit;
use crate::numeric::valid_number_text;

verus! {

use crate::text::string_push;

/// What went wrong, as a simple taxonomy.
#[derive(Debug, Clone, Copy, PartialEq, Eq, Structural)]
pub enum ParseErrorKind {
    UnexpectedEndOfInput,
    UnexpectedToken,
    MalformedPrototype,
    MalformedVariableDeclaration,
    MalformedTensorLiteral,
}

/// A parse error: its kind, and a static diagnostic string.
#[derive(Debug, Clone)]
pub struct ParseError {
    pub kind: ParseErrorKind,
    pub message: &'static str,
}

impl ParseError {
    pub fn new(kind: ParseErrorKind, message: &'static str) -> (r: ParseError)
        ensures
            r.kind == kind,
            r.message@ == message@,
    {
        ParseError { kind, message }
    }

    /// The diagnostic string.
    pub fn message(&self) -> (r: &'static str)
        ensures
            r@ == self.message@,
    {
        self.message
    }
}

/// The binary-operator precedence table: the value of `map_of` over its
/// entries, where a later entry for the same operator wins.
pub open spec fn map_of(entries: Seq<(char, i32)>) -> Map<char, i32>
    decreases entries.len(),
{
    if entries.len() == 0 {
        Map::empty()
    } else {
        map_of(entries.drop_last()).insert(entries.last().0, entries.last().1)
    }
}

/// Maps a binary operator to its precedence.  Threaded by the compilation
/// driver through every parser instance of one session, so that operator
/// declarations seen by one parse apply to the next.
#[derive(Debug)]
pub struct PrecedenceTable {
    pub entries: Vec<(char, i32)>,
}

impl View for PrecedenceTable {
    type V = Map<char, i32>;

    open spec fn view(&self) -> Map<char, i32> {
        map_of(self.entries@)
    }
}

/// A later entry for `k` wins: `map_of` returns the value of the last one.
proof fn lemma_map_of_last_match(s: Seq<(char, i32)>, k: char, i: int)
    requires
        0 <= i < s.len(),
        s[i].0 == k,
        forall|j: int| i < j < s.len() ==> (#[trigger] s[j]).0 != k,
    ensures
        map_of(s).contains_key(k),
        map_of(s)[k] == s[i].1,
    decreases s.len(),
{
    if i == s.len() - 1 {
    } else {
        let s0 = s.drop_last();
        assert(forall|j: int| i < j < s0.len() ==> (#[trigger] s0[j]).0 != k);
        lemma_map_of_last_match(s0, k, i);
    }
}

/// An operator with no entry is absent from the map.
proof fn lemma_map_of_no_match(s: Seq<(char, i32)>, k: char)
    requires
        forall|j: int| 0 <= j < s.len() ==> (#[trigger] s[j]).0 != k,
    ensures
        !map_of(s).contains_key(k),
    decreases s.len(),
{
    if s.len() > 0 {
        lemma_map_of_no_match(s.drop_last(), k);
    }
}

impl PrecedenceTable {
    /// An empty table.
    pub fn new() -> (r: PrecedenceTable)
        ensures
            r@ == Map::<char, i32>::empty(),
    {
        PrecedenceTable { entries: Vec::new() }
    }

    /// Binds `op` to `prec`, overwriting any earlier binding.
    pub fn insert(&mut self, op: char, prec: i32)
        ensures
            final(self)@ == old(self)@.insert(op, prec),
    {
        self.entries.push((op, prec));
        proof {
            assert(self.entries@.drop_last() =~= old(self).entries@);
        }
    }

    /// The precedence bound to `op`, if any.
    pub fn get(&self, op: char) -> (r: Option<i32>)
        ensures
            match r {
                Some(p) => self@.contains_key(op) && self@[op] == p,
                None => !self@.contains_key(op),
            },
    {
        let n = self.entries.len();
        let mut i: usize = n;
        loop
            invariant
                0 <= i <= n == self.entries@.len(),
                forall|j: int| i <= j < n ==> (#[trigger] self.entries@[j]).0 != op,
            ensures
                i == 0,
                forall|j: int| 0 <= j < n ==> (#[trigger] self.entries@[j]).0 != op,
            decreases i,
        {
            if i == 0 {
                break ;
            }
            let e = self.entries[i - 1];
            if e.0 == op {
                proof {
                    lemma_map_of_last_match(self.entries@, op, i - 1);
                }
                return Some(e.1);
            }
            i = i - 1;
        }
        proof {
            lemma_map_of_no_match(self.entries@, op);
        }
        None
    }
}

/// `toks` is exactly the token stream the lexer yields from position `pos`
/// of `chars`, up to (and excluding) `EOF`.
pub open spec fn tokens_from(chars: Seq<char>, pos: int, toks: Seq<Token>) -> bool
    decreases toks.len(),
{
    if toks.len() == 0 {
        exists|p1: int| lex_post(chars, pos, Token::EOF, p1)
    } else {
        &&& !(toks[0] is EOF)
        &&& exists|p1: int|
            #[trigger] lex_post(chars, pos, toks[0], p1) && tokens_from(
                chars,
                p1,
                toks.drop_first(),
            )
    }
}

/// Chains single lexing steps into [`tokens_from`].
proof fn lemma_tokens_chain(chars: Seq<char>, toks: Seq<Token>, ps: Seq<int>, i: int)
    requires
        ps.len() == toks.len() + 1,
        0 <= i <= toks.len(),
        forall|j: int|
            0 <= j < toks.len() ==> #[trigger] lex_post(chars, ps[j], toks[j], ps[j + 1])
                && !(toks[j] is EOF),
        exists|p_end: int| lex_post(chars, ps[toks.len() as int], Token::EOF, p_end),
    ensures
        tokens_from(chars, ps[i], toks.skip(i)),
    decreases toks.len() - i,
{
    if i == toks.len() {
        assert(toks.skip(i).len() == 0);
    } else {
        lemma_tokens_chain(chars, toks, ps, i + 1);
        let rest = toks.skip(i);
        assert(rest[0] == toks[i]);
        assert(rest.drop_first() =~= toks.skip(i + 1));
        assert(lex_post(chars, ps[i], rest[0], ps[i + 1]));
    }
}

/// The parser: the token vector, the position of the next token, and the
/// session's operator-precedence table.
pub struct Parser {
    pub tokens: Vec<Token>,
    pub pos: usize,
    pub prec: PrecedenceTable,
}

impl Parser {
    /// The parser's basic well-formedness: the position never runs past the
    /// end of the token vector.
    pub open spec fn wf(&self) -> bool {
        self.pos <= self.tokens@.len()
    }

    /// How many tokens are left to consume.
    pub open spec fn remaining(&self) -> int {
        self.tokens@.len() - self.pos
    }

    /// Lexes `input` eagerly and readies a parser over the whole token
    /// stream, using (and later mutating) the given precedence table.
    pub fn new(input: String, op_precedence: PrecedenceTable) -> (r: Parser)
        ensures
            r.wf(),
            r.pos == 0,
            r.prec@ == op_precedence@,
            tokens_from(input@, 0, r.tokens@),
    {
        let mut lexer = Lexer::new(input.as_str());
        let mut tokens: Vec<Token> = Vec::new();
        let ghost chars = input@;
        let ghost mut ps: Seq<int> = seq![0int];
        loop
            invariant_except_break
                ps[ps.len() - 1] == lexer.pos as int,
            invariant
                lexer.chars@ == chars,
                lexer.pos <= chars.len(),
                ps.len() == tokens@.len() + 1,
                ps[0] == 0,
                forall|j: int|
                    0 <= j < tokens@.len() ==> #[trigger] lex_post(
                        chars,
                        ps[j],
                        tokens@[j],
                        ps[j + 1],
                    ) && !(tokens@[j] is EOF),
            ensures
                ps.len() == tokens@.len() + 1,
                ps[0] == 0,
                forall|j: int|
                    0 <= j < tokens@.len() ==> #[trigger] lex_post(
                        chars,
                        ps[j],
                        tokens@[j],
                        ps[j + 1],
                    ) && !(tokens@[j] is EOF),
                exists|p_end: int| lex_post(chars, ps[tokens@.len() as int], Token::EOF, p_end),
            decreases chars.len() - lexer.pos + 1,
        {
            let ghost p0 = lexer.pos as int;
            let t = match lexer.lex() {
                Ok(t) => t,
                Err(_) => {
                    // the lexer is total; no error can reach this arm
                    Token::EOF
                },
            };
            let is_eof = matches!(t, Token::EOF);
            if is_eof {
                proof {
                    assert(lex_post(chars, ps[tokens@.len() as int], Token::EOF, lexer.pos as int));
                }
                break ;
            }
            proof {
                // a non-EOF token advances the position
                crate::lexer::lemma_lex_progress(chars, p0, t, lexer.pos as int);
                ps = ps.push(lexer.pos as int);
            }
            tokens.push(t);
        }
        proof {
            lemma_tokens_chain(chars, tokens@, ps, 0);
            assert(tokens@.skip(0) =~= tokens@);
        }
        Parser { tokens, pos: 0, prec: op_precedence }
    }

    /// Hands the precedence table back to the session, with every operator
    /// this parser's input declared.
    pub fn into_precedence(self) -> (r: PrecedenceTable)
        ensures
            r@ == self.prec@,
    {
        self.prec
    }

    /// A placeholder position, as the lexer does not track rows yet.
    fn last_location(&self) -> (r: Location)
        ensures
            true,
    {
        Location::new("filename", 0, 0)
    }

    /// The current token, or the error that the end of the input was
    /// reached unexpectedly.
    fn current(&self) -> (r: Result<&Token, ParseError>)
        requires
            self.wf(),
        ensures
            match r {
                Ok(t) => self.pos < self.tokens@.len() && *t == self.tokens@[self.pos as int],
                Err(e) => self.pos == self.tokens@.len() && e.kind
                    == ParseErrorKind::UnexpectedEndOfInput,
            },
    {
        if self.pos < self.tokens.len() {
            Ok(&self.tokens[self.pos])
        } else {
            Err(ParseError::new(ParseErrorKind::UnexpectedEndOfInput, "Unexpected end of file."))
        }
    }

    /// Steps past the current token; the error says whether the end of the
    /// input was then reached, so `self.advance()?` propagates it.
    fn advance(&mut self) -> (r: Result<(), ParseError>)
        requires
            old(self).wf(),
            old(self).pos < old(self).tokens@.len(),
        ensures
            final(self).tokens@ == old(self).tokens@,
            final(self).prec@ == old(self).prec@,
            final(self).wf(),
            final(self).pos == old(self).pos + 1,
            r is Ok <==> final(self).pos < final(self).tokens@.len(),
            r matches Err(e) ==> e.kind == ParseErrorKind::UnexpectedEndOfInput,
    {
        let n = self.tokens.len();
        let npos = self.pos + 1;
        self.pos = npos;
        if npos < n {
            Ok(())
        } else {
            Err(ParseError::new(ParseErrorKind::UnexpectedEndOfInput, "Unexpected end of file."))
        }
    }

    /// Whether the whole token stream has been consumed.
    fn at_end(&self) -> (r: bool)
        ensures
            r == (self.pos >= self.tokens@.len()),
    {
        self.pos >= self.tokens.len()
    }

    /// The precedence the table gives the current token: the table's value
    /// for a bound operator, 100 for any other operator token, and -1 for
    /// everything else.
    pub open spec fn spec_tok_prec(&self) -> i32 {
        if self.pos < self.tokens@.len() {
            match self.tokens@[self.pos as int] {
                Token::Op(c) => if self.prec@.contains_key(c) {
                    self.prec@[c]
                } else {
                    100i32
                },
                _ => -1i32,
            }
        } else {
            -1i32
        }
    }

    /// Mirrors [`Parser::spec_tok_prec`].
    fn get_tok_precedence(&self) -> (r: i32)
        requires
            self.wf(),
        ensures
            r == self.spec_tok_prec(),
    {
        if self.pos < self.tokens.len() {
            match &self.tokens[self.pos] {
                Token::Op(c) => match self.prec.get(*c) {
                    Some(p) => p,
                    None => 100,
                },
                _ => -1,
            }
        } else {
            -1
        }
    }

    /// Parses a literal number: succeeds exactly on a well formed numeric
    /// literal token, which becomes an [`Expr::Number`].
    fn parse_nb_expr(&mut self) -> (r: Result<Expr, ParseError>)
        requires
            old(self).wf(),
        ensures
            final(self).tokens@ == old(self).tokens@,
            final(self).prec@ == old(self).prec@,
            final(self).wf(),
            old(self).pos <= final(self).pos,
            match r {
                Ok(e) => {
                    &&& final(self).pos == old(self).pos + 1
                    &&& old(self).pos < old(self).tokens@.len()
                    &&& (old(self).tokens@[old(self).pos as int] matches Token::Number(lit)
                        && e == Expr::Number(lit) && lit.wf())
                },
                Err(_) => final(self).pos == old(self).pos && (old(self).pos
                    >= old(self).tokens@.len() || !(old(self).tokens@[old(self).pos as int]
                    is Number) || (old(self).tokens@[old(self).pos as int] matches Token::Number(
                    lit,
                ) && !valid_number_text(lit.text@))),
            },
    {
        let lit = match self.current()? {
            Token::Number(lit) => NumLit { text: lit.text.clone() },
            _ => {
                return Err(
                    ParseError::new(ParseErrorKind::UnexpectedToken, "Expected number literal."),
                );
            },
        };
        if !lit.is_valid() {
            return Err(
                ParseError::new(ParseErrorKind::UnexpectedToken, "Malformed number literal."),
            );
        }
        let _ = self.advance();
        Ok(Expr::Number(lit))
    }
}

impl Parser {
    /// Parses any expression: a unary expression, then any binary operators
    /// by precedence climbing.
    fn parse_expr(&mut self) -> (r: Result<Expr, ParseError>)
        requires
            old(self).wf(),
        ensures
            final(self).tokens@ == old(self).tokens@,
            final(self).prec@ == old(self).prec@,
            final(self).wf(),
            old(self).pos <= final(self).pos,
            r is Ok ==> final(self).pos > old(self).pos,
            r matches Ok(e) ==> parsed_expr(
                old(self).tokens@,
                old(self).prec@,
                old(self).pos as int,
                e,
                final(self).pos as int,
            ),
            r is Err ==> fail_expr(old(self).tokens@, old(self).prec@, old(self).pos as int),
        decreases old(self).remaining(), 4int,
    {
        let ghost t = self.tokens@;
        let ghost tab = self.prec@;
        let ghost p0 = self.pos as int;
        let left = match self.parse_unary_expr() {
            Ok(l) => l,
            Err(e) => {
                return Err(e);
            },
        };
        let ghost lsnap = left;
        let ghost pm = self.pos as int;
        match self.parse_binary_expr(0, left) {
            Ok(e) => {
                proof {
                    assert(bump(-1i32) == 0i32);
                    assert(final(self).pos as int >= t.len() || tok_prec(
                        t,
                        tab,
                        final(self).pos as int,
                    ) <= -1i32) by {
                        assert(climb_stop(t, tab, 0i32, self.pos as int));
                    }
                    assert(right_part(t, tab, -1i32, e, p0, self.pos as int)) by {
                        assert(witness(lsnap) && at_pos(pm));
                        assert(parsed_unary(t, tab, p0, lsnap, pm));
                        assert(climb(t, tab, 0i32, lsnap, e, pm, self.pos as int));
                        assert(climb(t, tab, bump(-1i32), lsnap, e, pm, self.pos as int));
                    }
                }
                Ok(e)
            },
            Err(e) => {
                proof {
                    assert(fail_expr(t, tab, p0)) by {
                        assert(witness(lsnap) && at_pos(pm));
                        assert(parsed_unary(t, tab, p0, lsnap, pm) && fail_climb(
                            t,
                            tab,
                            0i32,
                            pm,
                        ));
                    }
                }
                Err(e)
            },
        }
    }

    /// Parses a unary expression: any run of operator characters applied to
    /// a primary expression, each becoming a call to `unary<op>`.
    fn parse_unary_expr(&mut self) -> (r: Result<Expr, ParseError>)
        requires
            old(self).wf(),
        ensures
            final(self).tokens@ == old(self).tokens@,
            final(self).prec@ == old(self).prec@,
            final(self).wf(),
            old(self).pos <= final(self).pos,
            r is Ok ==> final(self).pos > old(self).pos,
            r matches Ok(e) ==> parsed_unary(
                old(self).tokens@,
                old(self).prec@,
                old(self).pos as int,
                e,
                final(self).pos as int,
            ),
            r is Err ==> fail_unary(old(self).tokens@, old(self).prec@, old(self).pos as int),
        decreases old(self).remaining(), 3int,
    {
        proof {
            reveal_with_fuel(fail_unary, 3);
        }
        let ghost t = self.tokens@;
        let ghost tab = self.prec@;
        let ghost p0 = self.pos as int;
        let op = match self.current()? {
            Token::Op(ch) => *ch,
            _ => {
                return self.parse_primary();
            },
        };
        self.advance()?;
        let operand = self.parse_unary_expr()?;
        let ghost osnap = operand;
        let mut name = "unary".to_owned();
        string_push(&mut name, op);
        let mut args: Vec<Expr> = Vec::new();
        args.push(operand);
        let result = Expr::Call { fn_name: name, args };
        proof {
            assert(parsed_unary(t, tab, p0, result, self.pos as int)) by {
                assert(result matches Expr::Call { fn_name, args } && fn_name@ == "unary"@.push(op)
                    && args@.len() == 1 && args@[0] == osnap);
                assert(parsed_unary(t, tab, p0 + 1, osnap, self.pos as int));
            }
        }
        Ok(result)
    }

    /// Parses the right-hand side of a binary expression, given its
    /// left-hand side and the least operator precedence to absorb.
    fn parse_binary_expr(&mut self, prec: i32, left: Expr) -> (r: Result<Expr, ParseError>)
        requires
            old(self).wf(),
        ensures
            final(self).tokens@ == old(self).tokens@,
            final(self).prec@ == old(self).prec@,
            final(self).wf(),
            old(self).pos <= final(self).pos,
            r matches Ok(e) ==> (climb(
                old(self).tokens@,
                old(self).prec@,
                prec,
                left,
                e,
                old(self).pos as int,
                final(self).pos as int,
            ) && climb_stop(old(self).tokens@, old(self).prec@, prec, final(self).pos as int)),
            r is Err ==> fail_climb(old(self).tokens@, old(self).prec@, prec, old(self).pos as int),
        decreases old(self).remaining(), 1int,
    {
        let ghost t = self.tokens@;
        let ghost tab = self.prec@;
        let ghost p0 = self.pos as int;
        let ghost left0 = left;
        let mut accum = left;
        loop
            invariant
                self.wf(),
                self.tokens@ == t,
                self.prec@ == tab,
                t == old(self).tokens@,
                tab == old(self).prec@,
                p0 == old(self).pos as int,
                old(self).pos <= self.pos,
                left0 == left,
                climb(t, tab, prec, left0, accum, p0, self.pos as int),
                fail_climb(t, tab, prec, self.pos as int) ==> fail_climb(t, tab, prec, p0),
            decreases self.remaining(),
        {
            let ghost cur = self.pos as int;
            let ghost lsnap = accum;
            let curr_prec = self.get_tok_precedence();
            proof {
                assert(curr_prec == tok_prec(t, tab, cur));
            }
            if curr_prec < prec || self.at_end() {
                return Ok(accum);
            }
            let op = match self.current()? {
                Token::Op(op) => *op,
                _ => {
                    proof {
                        assert(fail_climb(t, tab, prec, cur));
                    }
                    return Err(ParseError::new(ParseErrorKind::UnexpectedToken,
                        "Invalid operator."));
                },
            };
            match self.advance() {
                Ok(()) => (),
                Err(e) => {
                    proof {
                        assert(fail_unary(t, tab, cur + 1));
                        assert(fail_climb(t, tab, prec, cur));
                    }
                    return Err(e);
                },
            }
            let right0 = match self.parse_unary_expr() {
                Ok(r0) => r0,
                Err(e) => {
                    proof {
                        assert(fail_climb(t, tab, prec, cur));
                    }
                    return Err(e);
                },
            };
            let ghost rsnap = right0;
            let ghost pm = self.pos as int;
            let next_prec = self.get_tok_precedence();
            proof {
                assert(next_prec == tok_prec(t, tab, pm));
            }
            let mut right = right0;
            let ghost climbed = curr_prec < next_prec;
            let ghost mut nm: i32 = 0;
            if curr_prec < next_prec {
                let next_min: i32 = if curr_prec < i32::MAX {
                    curr_prec + 1
                } else {
                    i32::MAX
                };
                proof {
                    nm = next_min;
                    assert(next_min == bump(tok_prec(t, tab, cur)));
                }
                right = match self.parse_binary_expr(next_min, right) {
                    Ok(r1) => r1,
                    Err(e) => {
                        proof {
                            assert(fail_climb(t, tab, prec, cur)) by {
                                assert(witness(rsnap) && at_pos(pm));
                                assert(parsed_unary(t, tab, cur + 1, rsnap, pm) && tok_prec(
                                    t,
                                    tab,
                                    pm,
                                ) > tok_prec(t, tab, cur) && fail_climb(
                                    t,
                                    tab,
                                    bump(tok_prec(t, tab, cur)),
                                    pm,
                                ));
                            }
                        }
                        return Err(e);
                    },
                };
            }
            let ghost pr = self.pos as int;
            let ghost rfin = right;
            proof {
                // the right side satisfies `right_part` at this operator's
                // precedence, in both the climbed and the unclimbed case
                if climbed {
                    assert(nm == bump(tok_prec(t, tab, cur)));
                    assert(climb(t, tab, nm, rsnap, rfin, pm, pr));
                    assert(climb_stop(t, tab, nm, pr));
                    assert(climb(t, tab, bump(tok_prec(t, tab, cur)), rsnap, rfin, pm, pr));
                    assert(pr >= t.len() || tok_prec(t, tab, pr) <= tok_prec(t, tab, cur));
                } else {
                    assert(pr == pm && rfin == rsnap);
                    assert(climb(t, tab, bump(tok_prec(t, tab, cur)), rsnap, rfin, pm, pr));
                    assert(pr >= t.len() || tok_prec(t, tab, pr) <= tok_prec(t, tab, cur));
                }
                assert(right_part(t, tab, tok_prec(t, tab, cur), rfin, cur + 1, pr)) by {
                    assert(witness(rsnap) && at_pos(pm));
                    assert(parsed_unary(t, tab, cur + 1, rsnap, pm));
                    assert(climb(t, tab, bump(tok_prec(t, tab, cur)), rsnap, rfin, pm, pr));
                    assert(pr >= t.len() || tok_prec(t, tab, pr) <= tok_prec(t, tab, cur));
                }
            }
            accum = Expr::Binary { op, left: Box::new(accum), right: Box::new(right) };
            proof {
                assert(climb(t, tab, prec, left0, accum, p0, pr)) by {
                    assert(at_pos(cur) && at_pos(pr));
                    assert(accum matches Expr::Binary { op: o2, left: l2, right: r2 } && *l2
                        == lsnap && *r2 == rfin && o2 == op);
                    assert(climb(t, tab, prec, left0, lsnap, p0, cur));
                    assert(t[cur] == Token::Op(op));
                    assert(right_part(t, tab, tok_prec(t, tab, cur), rfin, cur + 1, pr));
                }
                assert(fail_climb(t, tab, prec, pr) ==> fail_climb(t, tab, prec, p0)) by {
                    if fail_climb(t, tab, prec, pr) {
                        assert(fail_climb(t, tab, prec, cur)) by {
                            assert(witness(rsnap) && at_pos(pm) && witness(rfin) && at_pos(pr));
                            assert(parsed_unary(t, tab, cur + 1, rsnap, pm) && climb(
                                t,
                                tab,
                                bump(tok_prec(t, tab, cur)),
                                rsnap,
                                rfin,
                                pm,
                                pr,
                            ) && (pr >= t.len() || tok_prec(t, tab, pr) <= tok_prec(
                                t,
                                tab,
                                cur,
                            )));
                        }
                    }
                }
            }
        }
    }

    /// Parses a primary expression: an identifier or call, a number, a
    /// parenthesized expression, a variable declaration, or a tensor
    /// literal.
    fn parse_primary(&mut self) -> (r: Result<Expr, ParseError>)
        requires
            old(self).wf(),
        ensures
            final(self).tokens@ == old(self).tokens@,
            final(self).prec@ == old(self).prec@,
            final(self).wf(),
            old(self).pos <= final(self).pos,
            r is Ok ==> final(self).pos > old(self).pos,
            r matches Ok(e) ==> parsed_primary(
                old(self).tokens@,
                old(self).prec@,
                old(self).pos as int,
                e,
                final(self).pos as int,
            ),
            r is Err ==> fail_primary(old(self).tokens@, old(self).prec@, old(self).pos as int),
        decreases old(self).remaining(), 2int,
    {
        let kind: usize = match self.current()? {
            Token::Ident(_) => 0,
            Token::Number(_) => 1,
            Token::ParenLeft => 2,
            Token::Var => 3,
            Token::TensorBegin => 4,
            _ => {
                return Err(
                    ParseError::new(ParseErrorKind::UnexpectedToken, "Unknown expression."),
                );
            },
        };
        let ghost t = self.tokens@;
        let ghost tab = self.prec@;
        let ghost p0 = self.pos as int;
        let r = if kind == 0 {
            self.parse_id_expr()
        } else if kind == 1 {
            self.parse_nb_expr()
        } else if kind == 2 {
            self.parse_paren_expr()
        } else if kind == 3 {
            self.parse_var_expr()
        } else {
            self.parse_tensor_literal_expr()
        };
        proof {
            if r is Err {
                if kind == 0 {
                    assert(fail_id(t, tab, p0));
                } else if kind == 2 {
                    assert(fail_paren(t, tab, p0));
                } else if kind == 3 {
                    assert(fail_var(t, tab, p0));
                } else if kind == 4 {
                    assert(fail_tensor(t, p0));
                }
                assert(fail_primary(t, tab, p0));
            }
        }
        r
    }

    /// Parses an expression enclosed in parentheses.
    fn parse_paren_expr(&mut self) -> (r: Result<Expr, ParseError>)
        requires
            old(self).wf(),
        ensures
            final(self).tokens@ == old(self).tokens@,
            final(self).prec@ == old(self).prec@,
            final(self).wf(),
            old(self).pos <= final(self).pos,
            r is Ok ==> final(self).pos > old(self).pos,
            r matches Ok(e) ==> parsed_paren(
                old(self).tokens@,
                old(self).prec@,
                old(self).pos as int,
                e,
                final(self).pos as int,
            ),
            r is Err ==> fail_paren(old(self).tokens@, old(self).prec@, old(self).pos as int),
        decreases old(self).remaining(), 1int,
    {
        proof {
            reveal_with_fuel(fail_unary, 3);
        }
        let ghost t = self.tokens@;
        let ghost tab = self.prec@;
        let ghost p0 = self.pos as int;
        match self.current()? {
            Token::ParenLeft => (),
            _ => {
                return Err(ParseError::new(ParseErrorKind::UnexpectedToken,
                    "Expected '(' character at start of parenthesized expression."));
            },
        }
        match self.advance() {
            Ok(()) => (),
            Err(e) => {
                proof {
                    assert(fail_expr(t, tab, p0 + 1)) by {
                        assert(fail_unary(t, tab, p0 + 1));
                    }
                }
                return Err(e);
            },
        }
        let expr = match self.parse_expr() {
            Ok(e) => e,
            Err(e) => {
                return Err(e);
            },
        };
        let ghost esnap = expr;
        let ghost pm = self.pos as int;
        match self.current() {
            Ok(tk) => match tk {
                Token::ParenRight => (),
                _ => {
                    proof {
                        assert(fail_paren(t, tab, p0)) by {
                            assert(witness(esnap) && at_pos(pm));
                            assert(parsed_expr(t, tab, p0 + 1, esnap, pm));
                        }
                    }
                    return Err(ParseError::new(ParseErrorKind::UnexpectedToken,
                        "Expected ')' character at end of parenthesized expression."));
                },
            },
            Err(e) => {
                proof {
                    assert(fail_paren(t, tab, p0)) by {
                        assert(witness(esnap) && at_pos(pm));
                        assert(parsed_expr(t, tab, p0 + 1, esnap, pm));
                    }
                }
                return Err(e);
            },
        }
        let _ = self.advance();
        proof {
            assert(parsed_paren(t, tab, p0, esnap, self.pos as int));
        }
        Ok(expr)
    }

    /// Parses an expression that starts with an identifier: a call if a
    /// `(` follows, a variable reference otherwise.
    fn parse_id_expr(&mut self) -> (r: Result<Expr, ParseError>)
        requires
            old(self).wf(),
        ensures
            final(self).tokens@ == old(self).tokens@,
            final(self).prec@ == old(self).prec@,
            final(self).wf(),
            old(self).pos <= final(self).pos,
            r is Ok ==> final(self).pos > old(self).pos,
            r matches Ok(e) ==> parsed_id(
                old(self).tokens@,
                old(self).prec@,
                old(self).pos as int,
                e,
                final(self).pos as int,
            ),
            r is Err ==> fail_id(old(self).tokens@, old(self).prec@, old(self).pos as int),
        decreases old(self).remaining(), 1int,
    {
        let ghost t = self.tokens@;
        let ghost tab = self.prec@;
        let ghost p0 = self.pos as int;
        let id: String = match self.current()? {
            Token::Ident(id) => id.clone(),
            _ => {
                return Err(ParseError::new(ParseErrorKind::UnexpectedToken,
                    "Expected identifier."));
            },
        };
        if self.advance().is_err() {
            let result = Expr::Variable(id);
            proof {
                assert(parsed_id(t, tab, p0, result, self.pos as int));
            }
            return Ok(result);
        }
        let is_call = match self.current() {
            Ok(Token::ParenLeft) => true,
            _ => false,
        };
        if !is_call {
            let result = Expr::Variable(id);
            proof {
                assert(parsed_id(t, tab, p0, result, self.pos as int));
            }
            return Ok(result);
        }
        match self.advance() {
            Ok(()) => (),
            Err(e) => {
                proof {
                    assert(fail_id(t, tab, p0));
                }
                return Err(e);
            },
        }
        let empty = match self.current()? {
            Token::ParenRight => true,
            _ => false,
        };
        if empty {
            let _ = self.advance();
            let result = Expr::Call { fn_name: id, args: Vec::new() };
            proof {
                assert(parsed_id(t, tab, p0, result, self.pos as int));
            }
            return Ok(result);
        }
        let mut args: Vec<Expr> = Vec::new();
        let ghost mut last_sep: int = 0;
        loop
            invariant
                self.wf(),
                self.tokens@ == t,
                self.prec@ == tab,
                t == old(self).tokens@,
                tab == old(self).prec@,
                p0 == old(self).pos as int,
                0 <= p0 && p0 + 2 < t.len(),
                t[p0 + 1] is ParenLeft,
                !(t[p0 + 2] is ParenRight),
                (t[p0] matches Token::Ident(orig) && orig@ == id@),
                p0 + 2 <= self.pos,
                (args@.len() == 0 && self.pos == p0 + 2) || (args@.len() >= 1 && p0 + 2
                    <= last_sep && args_upto(t, tab, args@, p0 + 2, last_sep) && 0 <= last_sep
                    < t.len() && t[last_sep] is Comma && self.pos == last_sep + 1),
                fail_args(t, tab, self.pos as int) ==> fail_args(t, tab, p0 + 2),
            decreases self.remaining(),
        {
            let ghost head = self.pos as int;
            let e = match self.parse_expr() {
                Ok(e) => e,
                Err(er) => {
                    proof {
                        assert(fail_args(t, tab, head));
                        assert(fail_args(t, tab, p0 + 2));
                        assert(fail_id(t, tab, p0));
                    }
                    return Err(er);
                },
            };
            let ghost esnap = e;
            let ghost qe = self.pos as int;
            let ghost args_pre = args@;
            args.push(e);
            proof {
                assert(args@.drop_last() =~= args_pre);
                assert(args@.last() == esnap);
                assert(parsed_expr(t, tab, head, esnap, qe));
                if args_pre.len() == 0 {
                    assert(head == p0 + 2);
                    assert(args@.len() == 1);
                } else {
                    assert(at_pos(last_sep));
                    assert(args_upto(t, tab, args@.drop_last(), p0 + 2, last_sep));
                }
                assert(args_upto(t, tab, args@, p0 + 2, qe));
            }
            let sep = match self.current() {
                Ok(tk) => match tk {
                    Token::Comma => 0usize,
                    Token::ParenRight => 1usize,
                    _ => {
                        proof {
                            assert(fail_args(t, tab, head)) by {
                                assert(witness(esnap) && at_pos(qe));
                                assert(parsed_expr(t, tab, head, esnap, qe));
                            }
                        }
                        proof {
                            assert(fail_args(t, tab, p0 + 2));
                            assert(fail_id(t, tab, p0));
                        }
                        return Err(ParseError::new(ParseErrorKind::UnexpectedToken,
                            "Expected ',' character in function call."));
                    },
                },
                Err(er) => {
                    proof {
                        assert(fail_args(t, tab, head)) by {
                            assert(witness(esnap) && at_pos(qe));
                            assert(parsed_expr(t, tab, head, esnap, qe));
                        }
                        assert(fail_args(t, tab, p0 + 2));
                        assert(fail_id(t, tab, p0));
                    }
                    return Err(er);
                },
            };
            if sep == 1 {
                let _ = self.advance();
                let result = Expr::Call { fn_name: id, args };
                proof {
                    assert(parsed_id(t, tab, p0, result, self.pos as int)) by {
                        assert(at_pos(qe));
                        assert(result matches Expr::Call { fn_name, args: a2 } && fn_name@ == id@
                            && a2@.len() >= 1);
                        assert(args_upto(t, tab, result->Call_args@, p0 + 2, qe));
                        assert(t[qe] is ParenRight);
                    }
                }
                return Ok(result);
            }
            match self.advance() {
                Ok(()) => (),
                Err(er) => {
                    proof {
                        assert(fail_unary(t, tab, qe + 1));
                        assert(fail_expr(t, tab, qe + 1));
                        assert(fail_args(t, tab, qe + 1));
                        assert(fail_args(t, tab, head)) by {
                            assert(witness(esnap) && at_pos(qe));
                            assert(parsed_expr(t, tab, head, esnap, qe));
                        }
                        assert(fail_args(t, tab, p0 + 2));
                        assert(fail_id(t, tab, p0));
                    }
                    return Err(er);
                },
            }
            proof {
                last_sep = qe;
                assert(fail_args(t, tab, qe + 1) ==> fail_args(t, tab, p0 + 2)) by {
                    if fail_args(t, tab, qe + 1) {
                        assert(fail_args(t, tab, head)) by {
                            assert(witness(esnap) && at_pos(qe));
                            assert(parsed_expr(t, tab, head, esnap, qe));
                        }
                    }
                }
            }
        }
    }

    /// Parses a `var` declaration: a name, an optional `<...>` shape
    /// annotation, and a required `= expr` initializer, ended by a comma or
    /// semicolon (the semicolon is left for the caller).
    fn parse_var_expr(&mut self) -> (r: Result<Expr, ParseError>)
        requires
            old(self).wf(),
        ensures
            final(self).tokens@ == old(self).tokens@,
            final(self).prec@ == old(self).prec@,
            final(self).wf(),
            old(self).pos <= final(self).pos,
            r is Ok ==> final(self).pos > old(self).pos,
            r matches Ok(e) ==> parsed_var(
                old(self).tokens@,
                old(self).prec@,
                old(self).pos as int,
                e,
                final(self).pos as int,
            ),
            r is Err ==> fail_var(old(self).tokens@, old(self).prec@, old(self).pos as int),
        decreases old(self).remaining(), 1int,
    {
        let ghost t = self.tokens@;
        let ghost tab = self.prec@;
        let ghost p0 = self.pos as int;
        match self.current()? {
            Token::Var => (),
            _ => {
                return Err(ParseError::new(ParseErrorKind::MalformedVariableDeclaration,
                    "Expected 'var' keyword in variable declaration."));
            },
        }
        self.advance()?;
        let name: String = match self.current()? {
            Token::Ident(name) => name.clone(),
            _ => {
                return Err(ParseError::new(ParseErrorKind::MalformedVariableDeclaration,
                    "Expected identifier in 'var..in' declaration."));
            },
        };
        self.advance()?;
        let annotated = match self.current()? {
            Token::AngleLeft => true,
            _ => false,
        };
        let var_type = if annotated {
            match self.parse_var_type() {
                Ok(vt) => vt,
                Err(e) => {
                    proof {
                        assert(fail_var(t, tab, p0));
                    }
                    return Err(e);
                },
            }
        } else {
            VarType::new()
        };
        let ghost vtsnap = var_type;
        let ghost pt = self.pos as int;
        let has_init = match self.current() {
            Ok(tk) => match tk {
                Token::Op(c) => *c == '=',
                _ => false,
            },
            Err(e) => {
                proof {
                    assert(fail_var_rest(t, tab, pt));
                    if annotated {
                        assert(witness(vtsnap.shape@) && at_pos(pt));
                        assert(parsed_shape(t, vtsnap.shape@, p0 + 3, pt));
                    }
                    assert(fail_var(t, tab, p0));
                }
                return Err(e);
            },
        };
        if !has_init {
            // without an initializer the declaration is malformed, whatever
            // follows it
            proof {
                assert(fail_var_rest(t, tab, pt));
                if annotated {
                    assert(witness(vtsnap.shape@) && at_pos(pt));
                    assert(parsed_shape(t, vtsnap.shape@, p0 + 3, pt));
                }
                assert(fail_var(t, tab, p0));
            }
            return Err(ParseError::new(ParseErrorKind::MalformedVariableDeclaration,
                "Expected initializer in variable declaration."));
        }
        match self.advance() {
            Ok(()) => (),
            Err(e) => {
                proof {
                    assert(fail_var_rest(t, tab, pt)) by {
                        assert(fail_unary(t, tab, pt + 1));
                    }
                    if annotated {
                        assert(witness(vtsnap.shape@) && at_pos(pt));
                        assert(parsed_shape(t, vtsnap.shape@, p0 + 3, pt));
                    }
                    assert(fail_var(t, tab, p0));
                }
                return Err(e);
            },
        }
        let value = match self.parse_expr() {
            Ok(e) => e,
            Err(e) => {
                proof {
                    assert(fail_var_rest(t, tab, pt));
                    if annotated {
                        assert(witness(vtsnap.shape@) && at_pos(pt));
                        assert(parsed_shape(t, vtsnap.shape@, p0 + 3, pt));
                    }
                    assert(fail_var(t, tab, p0));
                }
                return Err(e);
            },
        };
        let ghost vsnap = value;
        let ghost pe = self.pos as int;
        let term = match self.current() {
            Ok(tk) => match tk {
                Token::Comma => 0usize,
                Token::Semicolon => 1usize,
                _ => {
                    proof {
                        assert(fail_var_rest(t, tab, pt)) by {
                            assert(witness(vsnap) && at_pos(pe));
                            assert(parsed_expr(t, tab, pt + 1, vsnap, pe));
                        }
                        if annotated {
                            assert(witness(vtsnap.shape@) && at_pos(pt));
                            assert(parsed_shape(t, vtsnap.shape@, p0 + 3, pt));
                        }
                        assert(fail_var(t, tab, p0));
                    }
                    return Err(ParseError::new(ParseErrorKind::MalformedVariableDeclaration,
                        "Expected comma or 'in' keyword in variable declaration."));
                },
            },
            Err(e) => {
                proof {
                    assert(fail_var_rest(t, tab, pt)) by {
                        assert(witness(vsnap) && at_pos(pe));
                        assert(parsed_expr(t, tab, pt + 1, vsnap, pe));
                    }
                    if annotated {
                        assert(witness(vtsnap.shape@) && at_pos(pt));
                        assert(parsed_shape(t, vtsnap.shape@, p0 + 3, pt));
                    }
                    assert(fail_var(t, tab, p0));
                }
                return Err(e);
            },
        };
        if term == 0 {
            match self.advance() {
                Ok(()) => (),
                Err(e) => {
                    proof {
                        assert(fail_var_rest(t, tab, pt)) by {
                            assert(witness(vsnap) && at_pos(pe));
                            assert(parsed_expr(t, tab, pt + 1, vsnap, pe));
                        }
                        if annotated {
                            assert(witness(vtsnap.shape@) && at_pos(pt));
                            assert(parsed_shape(t, vtsnap.shape@, p0 + 3, pt));
                        }
                        assert(fail_var(t, tab, p0));
                    }
                    return Err(e);
                },
            }
        }
        let result = Expr::VarDecl { name, var_type, value: Box::new(value) };
        proof {
            assert(parsed_var(t, tab, p0, result, self.pos as int)) by {
                assert(at_pos(pt) && at_pos(pe));
                assert(result matches Expr::VarDecl { name: n2, var_type: vt2, value: v2 } && vt2
                    == vtsnap && *v2 == vsnap);
                assert(parsed_expr(t, tab, pt + 1, vsnap, pe));
            }
        }
        Ok(result)
    }

    /// Parses a `<d1,d2,...>` shape annotation; each dimension must be a
    /// well formed numeric literal, read as an integer.
    fn parse_var_type(&mut self) -> (r: Result<VarType, ParseError>)
        requires
            old(self).wf(),
            old(self).pos < old(self).tokens@.len(),
        ensures
            final(self).tokens@ == old(self).tokens@,
            final(self).prec@ == old(self).prec@,
            final(self).wf(),
            old(self).pos <= final(self).pos,
            r is Ok ==> final(self).pos > old(self).pos,
            r matches Ok(vt) ==> parsed_shape(
                old(self).tokens@,
                vt.shape@,
                old(self).pos as int + 1,
                final(self).pos as int,
            ),
            r is Err ==> fail_shape(old(self).tokens@, old(self).pos as int + 1),
    {
        proof {
            reveal_with_fuel(fail_shape, 3);
        }
        let ghost t = self.tokens@;
        let ghost p0 = self.pos as int;
        // step past the '<'
        let _ = self.advance();
        let mut shape: Vec<usize> = Vec::new();
        loop
            invariant
                self.wf(),
                self.tokens@ == t,
                self.prec@ == old(self).prec@,
                t == old(self).tokens@,
                p0 == old(self).pos as int,
                0 <= p0,
                p0 + 1 <= self.pos,
                shape_upto(t, shape@, p0 + 1, self.pos as int),
                fail_shape(t, self.pos as int) ==> fail_shape(t, p0 + 1),
            decreases self.remaining(),
        {
            let ghost head = self.pos as int;
            let kind: usize = match self.current()? {
                Token::Number(lit) => {
                    let lit = NumLit { text: lit.text.clone() };
                    if !lit.is_valid() {
                        proof {
                            assert(fail_shape(t, head));
                        }
                        return Err(ParseError::new(ParseErrorKind::UnexpectedToken,
                            "Malformed number literal."));
                    }
                    let ghost shape_pre = shape@;
                    shape.push(lit.value_as_usize());
                    proof {
                        assert(shape@.drop_last() =~= shape_pre);
                    }
                    0
                },
                Token::Comma => 0,
                Token::AngleRight => 1,
                _ => {
                    proof {
                        assert(fail_shape(t, head));
                    }
                    return Err(ParseError::new(ParseErrorKind::MalformedVariableDeclaration,
                        "Cannot define variable type"));
                },
            };
            let _ = self.advance();
            if kind == 1 {
                let vt = VarType { shape };
                proof {
                    assert(parsed_shape(t, vt.shape@, p0 + 1, self.pos as int));
                }
                return Ok(vt);
            }
        }
    }

    /// Parses one level of a tensor literal: numbers and nested literals
    /// between `[` and `]`; `dims` records this level's element count.
    fn parse_tensor_literal_expr(&mut self) -> (r: Result<Expr, ParseError>)
        requires
            old(self).wf(),
        ensures
            final(self).tokens@ == old(self).tokens@,
            final(self).prec@ == old(self).prec@,
            final(self).wf(),
            old(self).pos <= final(self).pos,
            r is Ok ==> final(self).pos > old(self).pos,
            r matches Ok(e) ==> parsed_tensor(
                old(self).tokens@,
                old(self).pos as int,
                e,
                final(self).pos as int,
            ),
            r is Err ==> fail_tensor(old(self).tokens@, old(self).pos as int),
        decreases old(self).remaining(), 1int,
    {
        let ghost t = self.tokens@;
        let ghost p0 = self.pos as int;
        let location = self.last_location();
        match self.current()? {
            Token::TensorBegin => (),
            _ => {
                return Err(ParseError::new(ParseErrorKind::MalformedTensorLiteral,
                    "Cannot parse tensor expression"));
            },
        }
        // step past the '['
        let _ = self.advance();
        let mut values: Vec<Expr> = Vec::new();
        proof {
            assert(values@ =~= Seq::<Expr>::empty());
            assert(titems_upto(t, values@, p0 + 1, p0 + 1));
        }
        loop
            invariant
                self.wf(),
                self.tokens@ == t,
                self.prec@ == old(self).prec@,
                t == old(self).tokens@,
                p0 == old(self).pos as int,
                0 <= p0 < t.len(),
                t[p0] is TensorBegin,
                p0 + 1 <= self.pos,
                titems_upto(t, values@, p0 + 1, self.pos as int),
                fail_titems(t, self.pos as int) ==> fail_titems(t, p0 + 1),
            decreases self.remaining(),
        {
            let ghost head = self.pos as int;
            let kind: usize = match self.current()? {
                Token::TensorBegin => 0,
                Token::Comma => 1,
                Token::Number(_) => 2,
                Token::TensorEnd => 3,
                _ => {
                    proof {
                        assert(fail_titems(t, head));
                    }
                    return Err(ParseError::new(ParseErrorKind::MalformedTensorLiteral,
                        "Cannot parse tensor expression"));
                },
            };
            if kind == 0 {
                let e = match self.parse_tensor_literal_expr() {
                    Ok(e) => e,
                    Err(er) => {
                        proof {
                            assert(0 <= head < t.len() && t[head] is TensorBegin);
                            assert(fail_tensor(t, head));
                            assert(fail_titems(t, head));
                        }
                        return Err(er);
                    },
                };
                let ghost esnap = e;
                let ghost pend = self.pos as int;
                let ghost values_pre = values@;
                values.push(e);
                proof {
                    assert(values@.drop_last() =~= values_pre);
                    crate::grammar::lemma_parsed_tensor_end(t, head, esnap, pend);
                    assert(titems_upto(t, values@, p0 + 1, pend)) by {
                        assert(at_pos(head));
                        assert(values@.len() >= 1 && values@.last() == esnap);
                        assert(!(t[pend - 1] is Comma));
                        assert(titems_upto(t, values@.drop_last(), p0 + 1, head));
                        assert(parsed_tensor(t, head, esnap, pend));
                    }
                    assert(fail_titems(t, pend) ==> fail_titems(t, head)) by {
                        if fail_titems(t, pend) {
                            assert(witness(esnap) && at_pos(pend));
                            assert(parsed_tensor(t, head, esnap, pend));
                        }
                    }
                }
            } else if kind == 1 {
                let _ = self.advance();
                proof {
                    assert(0 <= head < t.len() && t[head] is Comma);
                    assert(fail_titems(t, head + 1) ==> fail_titems(t, head));
                }
            } else if kind == 2 {
                let e = match self.parse_nb_expr() {
                    Ok(e) => e,
                    Err(er) => {
                        proof {
                            assert(fail_titems(t, head));
                        }
                        return Err(er);
                    },
                };
                let ghost values_pre = values@;
                values.push(e);
                proof {
                    assert(values@.drop_last() =~= values_pre);
                    assert(titems_upto(t, values@, p0 + 1, self.pos as int));
                    assert(fail_titems(t, self.pos as int) ==> fail_titems(t, head));
                }
            } else {
                let _ = self.advance();
                let mut dims: Vec<usize> = Vec::new();
                dims.push(values.len());
                let result = Expr::Tensor { location, values, dims };
                proof {
                    assert(result matches Expr::Tensor { location: l2, values: v2, dims: d2 }
                        && d2@ =~= seq![v2@.len() as usize]);
                    assert(parsed_tensor(t, p0, result, self.pos as int)) by {
                        assert(at_pos(head));
                        assert(titems_upto(t, result->Tensor_values@, p0 + 1, head));
                        assert(t[head] is TensorEnd);
                        assert(self.pos == head + 1);
                    }
                }
                return Ok(result);
            }
        }
    }
}

impl Parser {
    /// Parses a `return` statement; a bare `return;` has no expression, and
    /// the terminating semicolon is left for the caller.
    fn parse_return(&mut self) -> (r: Result<Expr, ParseError>)
        requires
            old(self).wf(),
            old(self).pos < old(self).tokens@.len(),
            old(self).tokens@[old(self).pos as int] is Return,
        ensures
            final(self).tokens@ == old(self).tokens@,
            final(self).prec@ == old(self).prec@,
            final(self).wf(),
            old(self).pos <= final(self).pos,
            r is Ok ==> final(self).pos > old(self).pos,
            r matches Ok(e) ==> parsed_return(
                old(self).tokens@,
                old(self).prec@,
                old(self).pos as int,
                e,
                final(self).pos as int,
            ),
            r is Err ==> fail_return(old(self).tokens@, old(self).prec@, old(self).pos as int),
    {
        let ghost t = self.tokens@;
        let ghost tab = self.prec@;
        let ghost p0 = self.pos as int;
        let location = self.last_location();
        // step past the 'return'
        let _ = self.advance();
        let bare = match self.current()? {
            Token::Semicolon => true,
            _ => false,
        };
        if bare {
            let result = Expr::Return { location, expression: None };
            proof {
                assert(parsed_return(t, tab, p0, result, self.pos as int));
            }
            return Ok(result);
        }
        let inner = match self.parse_expr() {
            Ok(e) => e,
            Err(e) => {
                return Err(e);
            },
        };
        let ghost isnap = inner;
        let result = Expr::Return { location, expression: Some(Box::new(inner)) };
        proof {
            assert(parsed_return(t, tab, p0, result, self.pos as int)) by {
                assert(result matches Expr::Return { location: l2, expression } && expression
                    matches Some(b2) && *b2 == isnap);
                assert(parsed_expr(t, tab, p0 + 1, isnap, self.pos as int));
            }
        }
        Ok(result)
    }

    /// Parses a `{ ... }` function body into an [`Expr::ExprList`] of
    /// statements.
    fn parse_block(&mut self) -> (r: Result<Expr, ParseError>)
        requires
            old(self).wf(),
        ensures
            final(self).tokens@ == old(self).tokens@,
            final(self).prec@ == old(self).prec@,
            final(self).wf(),
            old(self).pos <= final(self).pos,
            r is Ok ==> final(self).pos > old(self).pos,
            r matches Ok(e) ==> (e matches Expr::ExprList { expressions } && parsed_block(
                old(self).tokens@,
                old(self).prec@,
                old(self).pos as int,
                expressions@,
                final(self).pos as int,
            )),
            r is Err ==> fail_block(old(self).tokens@, old(self).prec@, old(self).pos as int),
    {
        let ghost t = self.tokens@;
        let ghost tab = self.prec@;
        let ghost p0 = self.pos as int;
        // step past the '{'
        if self.at_end() {
            return Err(
                ParseError::new(ParseErrorKind::UnexpectedEndOfInput, "Unexpected end of file."),
            );
        }
        let _ = self.advance();
        let mut expressions: Vec<Expr> = Vec::new();
        loop
            invariant
                self.wf(),
                self.tokens@ == t,
                self.prec@ == tab,
                t == old(self).tokens@,
                tab == old(self).prec@,
                p0 == old(self).pos as int,
                0 <= p0 < t.len(),
                p0 + 1 <= self.pos,
                stmts_upto(t, tab, expressions@, p0 + 1, self.pos as int),
                fail_stmts(t, tab, self.pos as int) ==> fail_stmts(t, tab, p0 + 1),
            decreases self.remaining(),
        {
            let ghost head = self.pos as int;
            let kind: usize = match self.current()? {
                Token::BlockRight => 0,
                Token::Semicolon => 1,
                Token::Return => 2,
                Token::Comment => 3,
                _ => 4,
            };
            if kind == 0 {
                let _ = self.advance();
                let result = Expr::ExprList { expressions };
                proof {
                    assert(parsed_block(t, tab, p0, result->ExprList_expressions@, self.pos as int))
                        by {
                        assert(at_pos(head));
                        assert(stmts_upto(t, tab, result->ExprList_expressions@, p0 + 1, head));
                        assert(t[head] is BlockRight);
                    }
                }
                return Ok(result);
            } else if kind == 1 {
                let _ = self.advance();
                proof {
                    assert(stmts_upto(t, tab, expressions@, p0 + 1, head + 1));
                    assert(fail_stmts(t, tab, head + 1) ==> fail_stmts(t, tab, head));
                }
            } else if kind == 3 {
                let _ = self.advance();
                proof {
                    assert(stmts_upto(t, tab, expressions@, p0 + 1, head + 1));
                    assert(fail_stmts(t, tab, head + 1) ==> fail_stmts(t, tab, head));
                }
            } else if kind == 2 {
                let stmt = match self.parse_return() {
                    Ok(e) => e,
                    Err(er) => {
                        proof {
                            assert(fail_stmts(t, tab, head));
                        }
                        return Err(er);
                    },
                };
                let ghost ssnap = stmt;
                let ghost pr = self.pos as int;
                let ghost exprs_pre = expressions@;
                expressions.push(stmt);
                if self.at_end() {
                    proof {
                        assert(fail_stmts(t, tab, head)) by {
                            assert(witness(ssnap) && at_pos(pr));
                            assert(parsed_return(t, tab, head, ssnap, pr));
                        }
                    }
                    return Err(ParseError::new(ParseErrorKind::UnexpectedEndOfInput,
                        "Unexpected end of file."));
                }
                let _ = self.advance();
                proof {
                    assert(expressions@.drop_last() =~= exprs_pre);
                    assert(stmts_upto(t, tab, expressions@, p0 + 1, pr + 1)) by {
                        assert(at_pos(head));
                        assert(expressions@.last() == ssnap);
                        assert(stmts_upto(t, tab, expressions@.drop_last(), p0 + 1, head));
                        assert(parsed_return(t, tab, head, ssnap, pr));
                    }
                    assert(fail_stmts(t, tab, pr + 1) ==> fail_stmts(t, tab, head)) by {
                        if fail_stmts(t, tab, pr + 1) {
                            assert(witness(ssnap) && at_pos(pr));
                            assert(parsed_return(t, tab, head, ssnap, pr));
                        }
                    }
                }
            } else {
                let stmt = match self.parse_primary() {
                    Ok(e) => e,
                    Err(er) => {
                        proof {
                            assert(fail_stmts(t, tab, head));
                        }
                        return Err(er);
                    },
                };
                let ghost ssnap = stmt;
                let ghost pq = self.pos as int;
                let ghost exprs_pre = expressions@;
                expressions.push(stmt);
                if self.at_end() {
                    proof {
                        assert(fail_stmts(t, tab, head)) by {
                            assert(witness(ssnap) && at_pos(pq));
                            assert(parsed_primary(t, tab, head, ssnap, pq));
                        }
                    }
                    return Err(ParseError::new(ParseErrorKind::UnexpectedEndOfInput,
                        "Unexpected end of file."));
                }
                let _ = self.advance();
                proof {
                    assert(expressions@.drop_last() =~= exprs_pre);
                    assert(stmts_upto(t, tab, expressions@, p0 + 1, pq + 1)) by {
                        assert(at_pos(head));
                        assert(expressions@.last() == ssnap);
                        assert(stmts_upto(t, tab, expressions@.drop_last(), p0 + 1, head));
                        assert(parsed_primary(t, tab, head, ssnap, pq));
                        assert(!(t[head] is Return) && !(t[head] is Semicolon) && !(t[head]
                            is Comment) && !(t[head] is BlockRight));
                    }
                    assert(fail_stmts(t, tab, pq + 1) ==> fail_stmts(t, tab, head)) by {
                        if fail_stmts(t, tab, pq + 1) {
                            assert(witness(ssnap) && at_pos(pq));
                            assert(parsed_primary(t, tab, head, ssnap, pq));
                        }
                    }
                }
            }
        }
    }

    /// Parses a function prototype: a plain name, or a custom-operator
    /// `binary<op> [prec]` / `unary<op>` form, then the parameter list.
    ///
    /// Parsing a `binary` prototype binds the operator in the session's
    /// precedence table as a side effect, so later expressions of the same
    /// compilation unit parse it at its declared precedence.
    fn parse_prototype(&mut self) -> (r: Result<Prototype, ParseError>)
        requires
            old(self).wf(),
        ensures
            final(self).tokens@ == old(self).tokens@,
            final(self).wf(),
            old(self).pos <= final(self).pos,
            r is Ok ==> final(self).pos > old(self).pos,
            r matches Ok(p) ==> parsed_proto(
                old(self).tokens@,
                old(self).prec@,
                old(self).pos as int,
                p,
                final(self).prec@,
                final(self).pos as int,
            ),
            r is Err ==> fail_proto(old(self).tokens@, old(self).pos as int),
        decreases old(self).remaining(),
    {
        let ghost t = self.tokens@;
        let ghost tab0 = self.prec@;
        let ghost p0 = self.pos as int;
        let location = self.last_location();
        let form: usize = match self.current()? {
            Token::Ident(_) => 0,
            Token::Binary => 1,
            Token::Unary => 2,
            _ => {
                return Err(ParseError::new(ParseErrorKind::MalformedPrototype,
                    "Expected identifier in prototype declaration."));
            },
        };
        let id: String;
        let is_operator: bool;
        let precedence: usize;
        let ghost mut gc: char = ' ';
        if form == 0 {
            id = match self.current()? {
                Token::Ident(name) => name.clone(),
                _ => {
                    return Err(ParseError::new(ParseErrorKind::MalformedPrototype,
                        "Expected identifier in prototype declaration."));
                },
            };
            is_operator = false;
            precedence = 0;
            self.advance()?;
        } else if form == 1 {
            self.advance()?;
            let op = match self.current()? {
                Token::Op(ch) => *ch,
                _ => {
                    return Err(ParseError::new(ParseErrorKind::MalformedPrototype,
                        "Expected operator in custom operator declaration."));
                },
            };
            proof {
                gc = op;
            }
            self.advance()?;
            let mut name = "binary".to_owned();
            string_push(&mut name, op);
            let has_prec = match self.current()? {
                Token::Number(_) => true,
                _ => false,
            };
            let prec: usize = if has_prec {
                let lit = match self.current()? {
                    Token::Number(lit) => NumLit { text: lit.text.clone() },
                    _ => {
                        return Err(ParseError::new(ParseErrorKind::MalformedPrototype,
                            "Expected operator in custom operator declaration."));
                    },
                };
                if !lit.is_valid() {
                    return Err(ParseError::new(ParseErrorKind::UnexpectedToken,
                        "Malformed number literal."));
                }
                self.advance()?;
                lit.value_as_usize()
            } else {
                0
            };
            self.prec.insert(op, prec_to_i32(prec));
            id = name;
            is_operator = true;
            precedence = prec;
        } else {
            self.advance()?;
            let op = match self.current()? {
                Token::Op(ch) => *ch,
                _ => {
                    return Err(ParseError::new(ParseErrorKind::MalformedPrototype,
                        "Expected operator in custom operator declaration."));
                },
            };
            proof {
                gc = op;
            }
            self.advance()?;
            let mut name = "unary".to_owned();
            string_push(&mut name, op);
            id = name;
            is_operator = true;
            precedence = 0;
        }
        let ghost pp = self.pos as int;
        match self.current()? {
            Token::ParenLeft => (),
            _ => {
                return Err(ParseError::new(ParseErrorKind::MalformedPrototype,
                    "Expected '(' character in prototype declaration."));
            },
        }
        self.advance()?;
        let empty = match self.current()? {
            Token::ParenRight => true,
            _ => false,
        };
        if empty {
            let _ = self.advance();
            let result = Prototype {
                name: id,
                args: Vec::new(),
                is_op: is_operator,
                prec: precedence,
                location,
            };
            proof {
                assert(parsed_proto(t, tab0, p0, result, self.prec@, self.pos as int));
            }
            return Ok(result);
        }
        let mut args: Vec<String> = Vec::new();
        let ghost table_now = self.prec@;
        let ghost mut plend: int = 0;
        let ghost mut sep_comma: bool = false;
        loop
            invariant
                self.wf(),
                self.tokens@ == t,
                self.prec@ == table_now,
                t == old(self).tokens@,
                tab0 == old(self).prec@,
                p0 == old(self).pos as int,
                0 <= p0,
                0 <= pp && pp + 1 < t.len() && t[pp] is ParenLeft && !(t[pp + 1] is ParenRight),
                p0 < pp,
                pp + 1 <= self.pos,
                (args@.len() == 0 && self.pos == pp + 1) || (args@.len() >= 1 && pp + 1 <= plend
                    <= t.len() && plist_upto(t, args@, pp + 1, plend) && (if sep_comma {
                    plend < t.len() && t[plend] is Comma && self.pos == plend + 1
                } else {
                    self.pos == plend
                })),
                fail_plist(t, self.pos as int) ==> fail_plist(t, pp + 1),
                (form == 0 && pp == p0 + 1 && !is_operator && precedence == 0 && table_now == tab0
                    && (t[p0] matches Token::Ident(orig) && orig@ == id@)) || (form == 1 && t[p0]
                    is Binary && p0 + 1 < t.len() && t[p0 + 1] == Token::Op(gc) && id@
                    == "binary"@.push(gc) && is_operator && p0 + 2 < t.len() && table_now
                    == tab0.insert(gc, clamp_i32(precedence as usize)) && ((t[p0 + 2]
                    matches Token::Number(lit) && valid_number_text(lit.text@) && precedence
                    == crate::numeric::lit_usize(lit.text@) && pp == p0 + 3) || (!(t[p0 + 2]
                    is Number) && precedence == 0 && pp == p0 + 2))) || (form == 2 && t[p0]
                    is Unary && p0 + 1 < t.len() && t[p0 + 1] == Token::Op(gc) && id@
                    == "unary"@.push(gc) && is_operator && precedence == 0 && table_now == tab0
                    && pp == p0 + 2),
            decreases self.remaining(),
        {
            let ghost head = self.pos as int;
            let a: String = match self.current()? {
                Token::Ident(name) => name.clone(),
                _ => {
                    proof {
                        assert(fail_plist(t, head));
                    }
                    return Err(ParseError::new(ParseErrorKind::MalformedPrototype,
                        "Expected identifier in parameter declaration."));
                },
            };
            let ghost args_pre = args@;
            args.push(a);
            proof {
                assert(args@.drop_last() =~= args_pre);
                assert(plist_upto(t, args@, pp + 1, head + 1)) by {
                    if args_pre.len() == 0 {
                        assert(head == pp + 1);
                        assert(args@.len() == 1);
                    } else {
                        if sep_comma {
                            assert(t[head - 1] is Comma);
                            assert(plist_upto(t, args@.drop_last(), pp + 1, head - 1));
                        } else {
                            assert(plist_upto(t, args@.drop_last(), pp + 1, head));
                        }
                    }
                }
            }
            match self.advance() {
                Ok(()) => (),
                Err(er) => {
                    proof {
                        assert(fail_plist(t, head));
                    }
                    return Err(er);
                },
            }
            let next: usize = match self.current()? {
                Token::ParenRight => 0,
                Token::Comma => 1,
                // a bare identifier continues a space-separated list
                Token::Ident(_) => 2,
                _ => {
                    proof {
                        assert(fail_plist(t, head));
                    }
                    return Err(ParseError::new(ParseErrorKind::MalformedPrototype,
                        "Expected ',' or ')' character in prototype declaration."));
                },
            };
            if next == 0 {
                let _ = self.advance();
                let result = Prototype {
                    name: id,
                    args,
                    is_op: is_operator,
                    prec: precedence,
                    location,
                };
                proof {
                    assert(parsed_proto(t, tab0, p0, result, self.prec@, self.pos as int)) by {
                        assert(at_pos(head + 1));
                        assert(plist_upto(t, result.args@, pp + 1, head + 1));
                        assert(t[head + 1] is ParenRight);
                    }
                }
                return Ok(result);
            } else if next == 1 {
                match self.advance() {
                    Ok(()) => (),
                    Err(er) => {
                        proof {
                            assert(fail_plist(t, head + 2));
                            assert(fail_plist(t, head));
                        }
                        return Err(er);
                    },
                }
                proof {
                    plend = head + 1;
                    sep_comma = true;
                    assert(fail_plist(t, head + 2) ==> fail_plist(t, head));
                }
            } else {
                proof {
                    plend = head + 1;
                    sep_comma = false;
                    assert(fail_plist(t, head + 1) ==> fail_plist(t, head));
                }
            }
        }
    }

    /// Parses one `def` function definition: its prototype and its body.
    fn parse_def(&mut self) -> (r: Result<Function, ParseError>)
        requires
            old(self).wf(),
            old(self).pos < old(self).tokens@.len(),
            old(self).tokens@[old(self).pos as int] is Def,
        ensures
            final(self).tokens@ == old(self).tokens@,
            final(self).wf(),
            old(self).pos <= final(self).pos,
            r is Ok ==> final(self).pos > old(self).pos,
            r matches Ok(f) ==> parsed_def(
                old(self).tokens@,
                old(self).prec@,
                old(self).pos as int,
                f,
                final(self).prec@,
                final(self).pos as int,
            ),
            r is Err ==> fail_def(old(self).tokens@, old(self).prec@, old(self).pos as int),
    {
        let ghost t = self.tokens@;
        let ghost tab0 = self.prec@;
        let ghost p0 = self.pos as int;
        // step past the 'def'
        let _ = self.advance();
        let proto = match self.parse_prototype() {
            Ok(p) => p,
            Err(e) => {
                return Err(e);
            },
        };
        let ghost psnap = proto;
        let ghost pm = self.pos as int;
        let ghost tabmid = self.prec@;
        let body = match self.parse_block() {
            Ok(b) => b,
            Err(e) => {
                proof {
                    assert(fail_def(t, tab0, p0)) by {
                        assert(witness(psnap) && witness(tabmid) && at_pos(pm));
                        assert(parsed_proto(t, tab0, p0 + 1, psnap, tabmid, pm));
                        assert(fail_block(t, tabmid, pm));
                    }
                }
                return Err(e);
            },
        };
        let ghost bsnap = body;
        let result = Function { prototype: proto, body: Some(body) };
        proof {
            assert(parsed_def(t, tab0, p0, result, self.prec@, self.pos as int)) by {
                assert(at_pos(pm));
                assert(parsed_proto(t, tab0, p0 + 1, result.prototype, tabmid, pm));
                assert(result.body matches Some(b2) && b2 == bsnap);
                assert(bsnap matches Expr::ExprList { expressions } && parsed_block(
                    t,
                    tabmid,
                    pm,
                    expressions@,
                    self.pos as int,
                ));
            }
        }
        Ok(result)
    }

    /// Parses the whole compilation unit: a sequence of function
    /// definitions and comments.  Fail-fast: the first error aborts the
    /// parse and no partial module is returned; on success the whole token
    /// stream has been consumed, the returned module spells out exactly the
    /// `def` items the tokens held, in order, and the precedence table holds
    /// every operator the unit declared.
    pub fn parse_module(&mut self) -> (r: Result<Module, ParseError>)
        requires
            old(self).wf(),
        ensures
            final(self).tokens@ == old(self).tokens@,
            final(self).wf(),
            old(self).pos <= final(self).pos,
            r is Ok ==> final(self).pos == final(self).tokens@.len(),
            r matches Ok(m) ==> defs_upto(
                old(self).tokens@,
                old(self).prec@,
                m.functions@,
                final(self).prec@,
                old(self).pos as int,
                final(self).pos as int,
            ),
            r is Err ==> fail_module(old(self).tokens@, old(self).prec@, old(self).pos as int),
    {
        let ghost t = self.tokens@;
        let ghost tab0 = self.prec@;
        let ghost p0 = self.pos as int;
        let mut functions: Vec<Function> = Vec::new();
        loop
            invariant
                self.wf(),
                self.tokens@ == t,
                t == old(self).tokens@,
                tab0 == old(self).prec@,
                p0 == old(self).pos as int,
                old(self).pos <= self.pos,
                defs_upto(t, tab0, functions@, self.prec@, p0, self.pos as int),
                fail_module(t, self.prec@, self.pos as int) ==> fail_module(t, tab0, p0),
            decreases self.remaining(),
        {
            let ghost head = self.pos as int;
            let ghost tabcur = self.prec@;
            if self.at_end() {
                let result = Module { functions };
                proof {
                    assert(defs_upto(
                        t,
                        tab0,
                        result.functions@,
                        self.prec@,
                        p0,
                        self.pos as int,
                    ));
                }
                return Ok(result);
            }
            let kind: usize = match self.current()? {
                Token::Def => 0,
                Token::Comment => 1,
                _ => {
                    proof {
                        assert(fail_module(t, tabcur, head));
                    }
                    return Err(ParseError::new(ParseErrorKind::UnexpectedToken,
                        "Expected function definition."));
                },
            };
            if kind == 0 {
                let f = match self.parse_def() {
                    Ok(f) => f,
                    Err(e) => {
                        proof {
                            assert(fail_module(t, tabcur, head));
                        }
                        return Err(e);
                    },
                };
                let ghost fsnap = f;
                let ghost pd = self.pos as int;
                let ghost tabnew = self.prec@;
                let ghost fns_pre = functions@;
                functions.push(f);
                proof {
                    assert(functions@.drop_last() =~= fns_pre);
                    assert(defs_upto(t, tab0, functions@, tabnew, p0, pd)) by {
                        assert(at_pos(head) && witness(tabcur));
                        assert(functions@.last() == fsnap);
                        assert(defs_upto(t, tab0, functions@.drop_last(), tabcur, p0, head));
                        assert(parsed_def(t, tabcur, head, fsnap, tabnew, pd));
                    }
                    assert(fail_module(t, tabnew, pd) ==> fail_module(t, tab0, p0)) by {
                        if fail_module(t, tabnew, pd) {
                            assert(fail_module(t, tabcur, head)) by {
                                assert(witness(fsnap) && witness(tabnew) && at_pos(pd));
                                assert(parsed_def(t, tabcur, head, fsnap, tabnew, pd));
                            }
                        }
                    }
                }
            } else {
                let _ = self.advance();
                proof {
                    assert(defs_upto(t, tab0, functions@, tabcur, p0, head + 1));
                    assert(fail_module(t, tabcur, head + 1) ==> fail_module(t, tabcur, head));
                }
            }
        }
    }
}

/// Mirrors [`clamp_i32`].
fn prec_to_i32(p: usize) -> (r: i32)
    ensures
        r == clamp_i32(p),
{
    if p > i32::MAX as usize {
        i32::MAX
    } else {
        p as i32
    }
}

} // verus!
