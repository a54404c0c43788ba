//! Parses regular-expression text into an abstract syntax tree.

use vstd::prelude::*;

verus! {

/// Why a pattern was rejected.
#[derive(Clone, Copy, Debug, PartialEq, Eq, Structural)]
pub enum ParseError {
    /// An escape sequence names a character that needs none.
    InvalidEscape(usize, char),
    /// A closing parenthesis without an opening one.
    InvalidRightParen(usize),
    /// A postfix operator without an expression before it.
    NoPrev(usize),
    /// An opening parenthesis was never closed.
    NoRightParen,
    /// The pattern is empty.
    Empty,
}

/// The abstract syntax of a regular expression.
#[derive(Debug)]
pub enum AST {
    Char(char),
    Plus(Box<AST>),
    Star(Box<AST>),
    Question(Box<AST>),
    Or(Box<AST>, Box<AST>),
    Concat(Vec<AST>),
}

/// The three postfix quantifiers.
enum PSQ {
    Plus,
    Star,
    Question,
}

/// The node a postfix quantifier builds from the expression before it.
spec fn psq_wrap(ast_type: PSQ, prev: AST) -> AST {
    match ast_type {
        PSQ::Plus => AST::Plus(Box::new(prev)),
        PSQ::Star => AST::Star(Box::new(prev)),
        PSQ::Question => AST::Question(Box::new(prev)),
    }
}

/// Replaces the latest expression of the sequence context by that
/// expression under the quantifier; fails when there is none.
fn parse_plus_star_question(seq: &mut Vec<AST>, ast_type: PSQ, pos: usize) -> (r: Result<
    (),
    ParseError,
>)
    ensures
        r is Ok <==> old(seq)@.len() > 0,
        r is Ok ==> final(seq)@ == old(seq)@.drop_last().push(
            psq_wrap(ast_type, old(seq)@.last()),
        ),
        r is Err ==> final(seq)@ == old(seq)@ && r == Err::<(), ParseError>(ParseError::NoPrev(pos)),
{
    if let Some(prev) = seq.pop() {
        let ast = match ast_type {
            PSQ::Plus => AST::Plus(Box::new(prev)),
            PSQ::Star => AST::Star(Box::new(prev)),
            PSQ::Question => AST::Question(Box::new(prev)),
        };
        seq.push(ast);
        Ok(())
    } else {
        Err(ParseError::NoPrev(pos))
    }
}

/// The characters an escape sequence may name.
pub open spec fn is_escapable(c: char) -> bool {
    c == '\\' || c == '(' || c == ')' || c == '|' || c == '+' || c == '*' || c == '?'
}

/// Resolves an escape sequence to the literal character it names.
fn parse_escape(pos: usize, c: char) -> (r: Result<AST, ParseError>)
    ensures
        is_escapable(c) ==> r == Ok::<AST, ParseError>(AST::Char(c)),
        !is_escapable(c) ==> r == Err::<AST, ParseError>(ParseError::InvalidEscape(pos, c)),
{
    match c {
        '\\' | '(' | ')' | '|' | '+' | '*' | '?' => Ok(AST::Char(c)),
        _ => {
            let err = ParseError::InvalidEscape(pos, c);
            Err(err)
        },
    }
}

/// The right-leaning alternation a nonempty sequence of branches folds to.
pub open spec fn fold_or_spec(s: Seq<AST>) -> AST
    decreases s.len(),
{
    if s.len() <= 1 {
        s[0]
    } else {
        AST::Or(Box::new(s[0]), Box::new(fold_or_spec(s.drop_first())))
    }
}

/// Folds the collected alternation branches into one expression:
/// `a|b|c` becomes `Or(a, Or(b, c))`. An empty collection gives `None`.
fn fold_or(seq_or: Vec<AST>) -> (r: Option<AST>)
    ensures
        r is Some <==> seq_or@.len() > 0,
        seq_or@.len() > 0 ==> r == Some(fold_or_spec(seq_or@)),
{
    let ghost orig = seq_or@;
    let mut seq_or = seq_or;
    if let Some(last) = seq_or.pop() {
        let mut ast = last;
        proof {
            assert(orig.subrange(orig.len() - 1, orig.len() as int) =~= seq![orig.last()]);
            assert(fold_or_spec(orig.subrange(orig.len() - 1, orig.len() as int)) == orig.last());
        }
        while seq_or.len() > 0
            invariant
                seq_or@ == orig.subrange(0, seq_or@.len() as int),
                seq_or@.len() < orig.len(),
                ast == fold_or_spec(orig.subrange(seq_or@.len() as int, orig.len() as int)),
            decreases seq_or@.len(),
        {
            let ghost k = seq_or@.len() as int;
            let x = match seq_or.pop() {
                Some(x) => x,
                None => {
                    proof {
                        assert(false);
                    }
                    return None;
                },
            };
            proof {
                assert(x == orig[k - 1]);
            }
            ast = AST::Or(Box::new(x), Box::new(ast));
            proof {
                let sub = orig.subrange(k - 1, orig.len() as int);
                assert(sub[0] == orig[k - 1]);
                assert(sub.drop_first() =~= orig.subrange(k, orig.len() as int));
                assert(seq_or@ =~= orig.subrange(0, k - 1));
            }
        }
        proof {
            assert(orig.subrange(0, orig.len() as int) =~= orig);
        }
        Some(ast)
    } else {
        None
    }
}

/// Parses a regular expression into its syntax tree.
///
/// Alternation has the lowest precedence, concatenation comes next, and
/// the postfix quantifiers bind tightest; parentheses group. An empty
/// pattern, an empty group, a dangling quantifier, an unbalanced
/// parenthesis, or a bad escape is rejected.
pub fn parse(expr: &str) -> (r: Result<AST, ParseError>)
    ensures
        expr@.len() == 0 ==> r == Err::<AST, ParseError>(ParseError::Empty),
        expr@.len() > 0 && (expr@[0] == '+' || expr@[0] == '*' || expr@[0] == '?' || expr@[0]
            == '|') ==> r == Err::<AST, ParseError>(ParseError::NoPrev(0)),
{
    let chars = crate::text::to_chars(expr);
    let mut seq: Vec<AST> = Vec::new();
    let mut seq_or: Vec<AST> = Vec::new();
    let mut stack: Vec<(Vec<AST>, Vec<AST>)> = Vec::new();
    let mut in_escape: bool = false;
    let n = chars.len();
    let mut i: usize = 0;
    while i < n
        invariant
            n == chars@.len(),
            n == expr@.len(),
            chars@ == expr@,
            i <= n,
            n == 0 ==> seq@.len() == 0 && seq_or@.len() == 0 && stack@.len() == 0,
            i == 0 ==> seq@.len() == 0 && !in_escape,
            i > 0 ==> !(expr@[0] == '+' || expr@[0] == '*' || expr@[0] == '?' || expr@[0] == '|'),
        decreases n - i,
    {
        let c = chars[i];
        if in_escape {
            match parse_escape(i, c) {
                Ok(ast) => {
                    seq.push(ast);
                },
                Err(e) => {
                    return Err(e);
                },
            }
            in_escape = false;
        } else {
            match c {
                '+' => {
                    if let Err(e) = parse_plus_star_question(&mut seq, PSQ::Plus, i) {
                        return Err(e);
                    }
                },
                '*' => {
                    if let Err(e) = parse_plus_star_question(&mut seq, PSQ::Star, i) {
                        return Err(e);
                    }
                },
                '?' => {
                    if let Err(e) = parse_plus_star_question(&mut seq, PSQ::Question, i) {
                        return Err(e);
                    }
                },
                '(' => {
                    let prev = seq;
                    let prev_or = seq_or;
                    seq = Vec::new();
                    seq_or = Vec::new();
                    stack.push((prev, prev_or));
                },
                ')' => {
                    if let Some((mut prev, prev_or)) = stack.pop() {
                        if seq.len() > 0 {
                            seq_or.push(AST::Concat(seq));
                        }
                        if let Some(ast) = fold_or(seq_or) {
                            prev.push(ast);
                        }
                        seq = prev;
                        seq_or = prev_or;
                    } else {
                        return Err(ParseError::InvalidRightParen(i));
                    }
                },
                '|' => {
                    if seq.len() == 0 {
                        return Err(ParseError::NoPrev(i));
                    } else {
                        let prev = seq;
                        seq = Vec::new();
                        seq_or.push(AST::Concat(prev));
                    }
                },
                '\\' => {
                    in_escape = true;
                },
                _ => {
                    seq.push(AST::Char(c));
                },
            }
        }
        i = i + 1;
    }
    if stack.len() > 0 {
        return Err(ParseError::NoRightParen);
    }
    if seq.len() > 0 {
        seq_or.push(AST::Concat(seq));
    }
    if let Some(ast) = fold_or(seq_or) {
        Ok(ast)
    } else {
        Err(ParseError::Empty)
    }
}

} // verus!
