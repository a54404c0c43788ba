//! A calculator for prefix ("Polish") arithmetic: an expression is a
//! number, or an operator followed by its two operands, as in `+ 1 * 2 3`.

use vstd::prelude::*;
use crate::text;

verus! {

/// An arithmetic expression.
#[derive(Debug)]
pub enum Expr {
    /// A number literal.
    Num(u64),
    /// A sum.
    Add(Box<Expr>, Box<Expr>),
    /// A product.
    Mul(Box<Expr>, Box<Expr>),
}

/// Why parsing failed.
#[derive(Clone, Copy, Debug, PartialEq, Eq, Structural)]
pub enum CalcError {
    /// Neither a digit nor an operator comes next.
    Unexpected(usize),
    /// A number literal does not fit the value type.
    NumOverflow(usize),
}

/// The wrapped sum or product an expression evaluates to.
pub open spec fn eval_spec(e: Expr) -> u64
    decreases e,
{
    match e {
        Expr::Num(n) => n,
        Expr::Add(a, b) => ((eval_spec(*a) + eval_spec(*b)) % 0x10000000000000000) as u64,
        Expr::Mul(a, b) => ((eval_spec(*a) * eval_spec(*b)) % 0x10000000000000000) as u64,
    }
}

/// Evaluates an expression, wrapping on overflow.
pub fn eval(e: &Expr) -> (r: u64)
    ensures
        r == eval_spec(*e),
    decreases e,
{
    match e {
        Expr::Num(n) => *n,
        Expr::Add(e1, e2) => {
            let a = eval(e1);
            let b = eval(e2);
            proof {
                assert(a as int + b as int >= 0);
            }
            a.wrapping_add(b)
        },
        Expr::Mul(e1, e2) => {
            let a = eval(e1);
            let b = eval(e2);
            a.wrapping_mul(b)
        },
    }
}

/// Where the run of decimal digits starting at `pos` ends.
pub open spec fn digits_end(s: Seq<char>, pos: int) -> int
    decreases s.len() - pos,
{
    if pos < s.len() && crate::text::is_digit(s[pos]) {
        digits_end(s, pos + 1)
    } else {
        pos
    }
}

/// The digit run reaches from `pos` to its end and no further.
pub proof fn lemma_digits_end(s: Seq<char>, pos: int)
    requires
        0 <= pos <= s.len(),
    ensures
        pos <= digits_end(s, pos) <= s.len(),
        forall|j: int| pos <= j < digits_end(s, pos) ==> crate::text::is_digit(#[trigger] s[j]),
        digits_end(s, pos) < s.len() ==> !crate::text::is_digit(s[digits_end(s, pos)]),
    decreases s.len() - pos,
{
    if pos < s.len() && crate::text::is_digit(s[pos]) {
        lemma_digits_end(s, pos + 1);
    }
}

/// Where the run of spaces starting at `pos` ends.
pub open spec fn spaces_end(s: Seq<char>, pos: int) -> int
    decreases s.len() - pos,
{
    if pos < s.len() && s[pos] == ' ' {
        spaces_end(s, pos + 1)
    } else {
        pos
    }
}

/// Parses one expression from position `pos`: after any spaces, either a
/// number literal or an operator followed by two expressions. Returns the
/// expression and the position after it.
pub fn parse_expr(c: &Vec<char>, pos: usize) -> (r: Result<(usize, Expr), CalcError>)
    requires
        pos <= c@.len(),
    ensures
        r matches Ok((p, _)) ==> pos < p <= c@.len(),
        r matches Ok((p, e)) ==> ({
            let i = spaces_end(c@, pos as int);
            &&& i < c@.len()
            &&& (crate::text::is_digit(c@[i]) ==> e is Num)
            &&& (c@[i] == '+' ==> e is Add)
            &&& (c@[i] == '*' ==> e is Mul)
        }),
        spaces_end(c@, pos as int) == c@.len() ==> r == Err::<(usize, Expr), CalcError>(
            CalcError::Unexpected((c@.len() as usize)),
        ),
    decreases c@.len() - pos, 1int,
{
    let mut i = pos;
    while i < c.len() && c[i] == ' '
        invariant
            pos <= i <= c@.len(),
            spaces_end(c@, pos as int) == spaces_end(c@, i as int),
        decreases c@.len() - i,
    {
        i = i + 1;
    }
    proof {
        assert(spaces_end(c@, i as int) == i);
    }
    if i >= c.len() {
        return Err(CalcError::Unexpected(i));
    }
    let u = c[i] as u32;
    if 48 <= u && u <= 57 {
        parse_num(c, i)
    } else {
        parse_op(c, i)
    }
}

/// Parses a number literal: one or more decimal digits, whose value must
/// fit the value type.
pub fn parse_num(c: &Vec<char>, pos: usize) -> (r: Result<(usize, Expr), CalcError>)
    requires
        pos < c@.len(),
    ensures
        r matches Ok((p, _)) ==> pos < p <= c@.len(),
        ({
            let e_end = digits_end(c@, pos as int);
            let val = crate::text::digits_val(c@.subrange(pos as int, e_end));
            &&& (r is Ok <==> crate::text::is_digit(c@[pos as int]) && val <= u64::MAX)
            &&& (r matches Ok((p, e)) ==> p == e_end && (e matches Expr::Num(n) && n as int
                == val))
            &&& (!crate::text::is_digit(c@[pos as int]) ==> r == Err::<(usize, Expr), CalcError>(
                CalcError::Unexpected(pos),
            ))
            &&& (crate::text::is_digit(c@[pos as int]) && val > u64::MAX ==> r == Err::<
                (usize, Expr),
                CalcError,
            >(CalcError::NumOverflow(pos)))
        }),
{
    let ghost e_end = digits_end(c@, pos as int);
    let ghost run = c@.subrange(pos as int, e_end);
    proof {
        lemma_digits_end(c@, pos as int);
        assert(crate::text::all_digits(run));
    }
    let mut i = pos;
    let mut acc: u64 = 0;
    while i < c.len()
        invariant_except_break
            pos <= i <= c@.len(),
            i <= e_end,
            e_end == digits_end(c@, pos as int),
            run == c@.subrange(pos as int, e_end),
            crate::text::all_digits(run),
            pos <= e_end <= c@.len(),
            digits_end(c@, i as int) == e_end,
            forall|j: int| pos <= j < i ==> crate::text::is_digit(#[trigger] c@[j]),
            acc as int == crate::text::digits_val(c@.subrange(pos as int, i as int)),
        ensures
            pos <= i <= c@.len(),
            i == e_end,
            acc as int == crate::text::digits_val(c@.subrange(pos as int, i as int)),
            forall|j: int| pos <= j < i ==> crate::text::is_digit(#[trigger] c@[j]),
        decreases c@.len() - i,
    {
        let u = c[i] as u32;
        if !(48 <= u && u <= 57) {
            proof {
                assert(digits_end(c@, i as int) == i);
            }
            break ;
        }
        let d = (c[i] as u32 - 48) as u64;
        let ghost pre = c@.subrange(pos as int, i as int);
        let ghost cur = c@.subrange(pos as int, i + 1 as int);
        proof {
            assert(cur.drop_last() =~= pre);
            assert(cur.last() == c@[i as int]);
            assert(crate::text::is_digit(c@[i as int]));
            assert(crate::text::digits_val(cur) == crate::text::digits_val(pre) * 10
                + crate::text::digit_val(c@[i as int]));
            assert(i < e_end) by {
                lemma_digits_end(c@, i + 1 as int);
                assert(digits_end(c@, i as int) == digits_end(c@, i + 1 as int));
            }
            assert(run.subrange(0, i + 1 - pos) =~= cur);
        }
        let m = match acc.checked_mul(10) {
            Some(m) => m,
            None => {
                proof {
                    crate::text::lemma_digits_val_nonneg(pre);
                    crate::text::lemma_digits_val_prefix(run, i + 1 - pos);
                }
                return Err(CalcError::NumOverflow(pos));
            },
        };
        let a = match m.checked_add(d) {
            Some(a) => a,
            None => {
                proof {
                    crate::text::lemma_digits_val_prefix(run, i + 1 - pos);
                }
                return Err(CalcError::NumOverflow(pos));
            },
        };
        proof {
            if a as int > u64::MAX {
                assert(false);
            }
            assert(crate::text::digits_val(run) >= crate::text::digits_val(cur)) by {
                crate::text::lemma_digits_val_prefix(run, i + 1 - pos);
            }
        }
        acc = a;
        i = i + 1;
    }
    if i == pos {
        proof {
            assert(!crate::text::is_digit(c@[pos as int]));
        }
        return Err(CalcError::Unexpected(pos));
    }
    proof {
        assert(crate::text::is_digit(c@[pos as int]));
        assert(c@.subrange(pos as int, i as int) =~= run);
    }
    Ok((i, Expr::Num(acc)))
}

/// Parses an operator expression: `+` or `*`, then two expressions; the
/// operator picks between a sum and a product.
pub fn parse_op(c: &Vec<char>, pos: usize) -> (r: Result<(usize, Expr), CalcError>)
    requires
        pos < c@.len(),
    ensures
        r matches Ok((p, _)) ==> pos < p <= c@.len(),
        r is Ok ==> (c@[pos as int] == '+' || c@[pos as int] == '*'),
        r matches Ok((p, e)) ==> (c@[pos as int] == '+' ==> e is Add) && (c@[pos as int] == '*'
            ==> e is Mul),
        !(c@[pos as int] == '+' || c@[pos as int] == '*') ==> r == Err::<(usize, Expr), CalcError>(
            CalcError::Unexpected(pos),
        ),
    decreases c@.len() - pos, 0int,
{
    let op = c[pos];
    if !(op == '+' || op == '*') {
        return Err(CalcError::Unexpected(pos));
    }
    let n = c.len();
    proof {
        assert(pos < n);
    }
    let (p1, e1) = parse_expr(c, pos + 1)?;
    let (p2, e2) = parse_expr(c, p1)?;
    if op == '+' {
        Ok((p2, Expr::Add(Box::new(e1), Box::new(e2))))
    } else {
        Ok((p2, Expr::Mul(Box::new(e1), Box::new(e2))))
    }
}

} // verus!
