//! The abstract syntax of a small language with a linear type system:
//! lambda calculus with booleans and pairs, where every value is qualified
//! as linear (used exactly once) or unrestricted.

use vstd::prelude::*;

verus! {

/// An expression.
#[derive(Debug)]
pub enum Expr {
    Let(LetExpr),
    If(IfExpr),
    Split(SplitExpr),
    Free(FreeExpr),
    App(AppExpr),
    Var(String),
    QVal(QValExpr),
}

/// Function application: `(expr1 expr2)`.
#[derive(Debug)]
pub struct AppExpr {
    pub expr1: Box<Expr>,
    pub expr2: Box<Expr>,
}

/// Conditional: `if cond_expr { then_expr } else { else_expr }`.
#[derive(Debug)]
pub struct IfExpr {
    pub cond_expr: Box<Expr>,
    pub then_expr: Box<Expr>,
    pub else_expr: Box<Expr>,
}

/// Pair destructuring: `split expr as left, right { body }`.
#[derive(Debug)]
pub struct SplitExpr {
    pub expr: Box<Expr>,
    pub left: String,
    pub right: String,
    pub body: Box<Expr>,
}

/// Binding: `let var : ty = expr1; expr2`.
#[derive(Debug)]
pub struct LetExpr {
    pub var: String,
    pub ty: TypeExpr,
    pub expr1: Box<Expr>,
    pub expr2: Box<Expr>,
}

/// A plain value: a boolean, a pair, or a function.
#[derive(Debug)]
pub enum ValExpr {
    Bool(bool),
    Pair(Box<Expr>, Box<Expr>),
    Fun(FnExpr),
}

/// The qualifier of a value or type: linear or unrestricted.
#[derive(Debug, PartialEq, Eq, Structural, Clone, Copy)]
pub enum Qual {
    Lin,
    Un,
}

/// A qualified value: `lin <val>` or `un <val>`.
#[derive(Debug)]
pub struct QValExpr {
    pub qual: Qual,
    pub val: ValExpr,
}

/// A function value: `fn var : ty { expr }`.
#[derive(Debug)]
pub struct FnExpr {
    pub var: String,
    pub ty: TypeExpr,
    pub expr: Box<Expr>,
}

/// Deallocation: `free var; expr`.
#[derive(Debug)]
pub struct FreeExpr {
    pub var: String,
    pub expr: Box<Expr>,
}

/// A qualified type.
#[derive(Debug)]
pub struct TypeExpr {
    pub qual: Qual,
    pub prim: PrimType,
}

/// An unqualified type: booleans, pairs, and functions.
#[derive(Debug)]
pub enum PrimType {
    Bool,
    Pair(Box<TypeExpr>, Box<TypeExpr>),
    Arrow(Box<TypeExpr>, Box<TypeExpr>),
}

/// Where parsing gave up.
#[derive(Clone, Copy, Debug, PartialEq, Eq, Structural)]
pub struct SyntaxError {
    pub pos: usize,
}

/// A whitespace character.
pub open spec fn is_space(c: char) -> bool {
    c == ' ' || c == '\t' || c == '\n' || c == '\r'
}

/// An ASCII letter.
pub open spec fn is_alpha(c: char) -> bool {
    (97 <= c as u32 && c as u32 <= 122) || (65 <= c as u32 && c as u32 <= 90)
}

/// Skips any amount of whitespace.
fn skip_ws0(c: &Vec<char>, pos: usize) -> (r: usize)
    requires
        pos <= c@.len(),
    ensures
        pos <= r <= c@.len(),
        forall|j: int| pos <= j < r ==> is_space(#[trigger] c@[j]),
        r < c@.len() ==> !is_space(c@[r as int]),
{
    let mut i = pos;
    while i < c.len() && (c[i] == ' ' || c[i] == '\t' || c[i] == '\n' || c[i] == '\r')
        invariant
            pos <= i <= c@.len(),
            forall|j: int| pos <= j < i ==> is_space(#[trigger] c@[j]),
        decreases c@.len() - i,
    {
        i = i + 1;
    }
    i
}

/// Skips whitespace, of which there must be some.
fn skip_ws1(c: &Vec<char>, pos: usize) -> (r: Result<usize, SyntaxError>)
    requires
        pos <= c@.len(),
    ensures
        r matches Ok(p) ==> pos < p <= c@.len(),
{
    let i = skip_ws0(c, pos);
    if i == pos {
        Err(SyntaxError { pos })
    } else {
        Ok(i)
    }
}

/// Reads a maximal nonempty run of letters.
fn alpha1(c: &Vec<char>, pos: usize) -> (r: Result<(usize, Vec<char>), SyntaxError>)
    requires
        pos <= c@.len(),
    ensures
        r is Ok <==> pos < c@.len() && is_alpha(c@[pos as int]),
        r matches Ok((p, w)) ==> {
            &&& pos < p <= c@.len()
            &&& w@ == c@.subrange(pos as int, p as int)
            &&& (forall|j: int| pos <= j < p ==> is_alpha(#[trigger] c@[j]))
            &&& (p < c@.len() ==> !is_alpha(c@[p as int]))
        },
{
    let mut i = pos;
    let mut word: Vec<char> = Vec::new();
    while i < c.len()
        invariant_except_break
            pos <= i <= c@.len(),
            word@ == c@.subrange(pos as int, i as int),
            forall|j: int| pos <= j < i ==> is_alpha(#[trigger] c@[j]),
        ensures
            pos <= i <= c@.len(),
            word@ == c@.subrange(pos as int, i as int),
            forall|j: int| pos <= j < i ==> is_alpha(#[trigger] c@[j]),
            i < c@.len() ==> !is_alpha(c@[i as int]),
        decreases c@.len() - i,
    {
        let u = c[i] as u32;
        if !((97 <= u && u <= 122) || (65 <= u && u <= 90)) {
            break ;
        }
        word.push(c[i]);
        proof {
            assert(word@ =~= c@.subrange(pos as int, i + 1 as int));
        }
        i = i + 1;
    }
    if i == pos {
        Err(SyntaxError { pos })
    } else {
        Ok((i, word))
    }
}

/// Consumes exactly the given word.
fn tag(c: &Vec<char>, pos: usize, w: &str) -> (r: Result<usize, SyntaxError>)
    requires
        pos <= c@.len(),
    ensures
        r matches Ok(p) ==> pos <= p <= c@.len() && p == pos + w@.len() && c@.subrange(
            pos as int,
            p as int,
        ) == w@,
{
    let n = w.unicode_len();
    let clen = c.len();
    if n > clen - pos {
        return Err(SyntaxError { pos });
    }
    let mut j: usize = 0;
    while j < n
        invariant
            j <= n,
            n == w@.len(),
            clen == c@.len(),
            pos + n <= clen,
            forall|k: int| 0 <= k < j ==> c@[pos + k] == w@[k],
        decreases n - j,
    {
        if c[pos + j] != w.get_char(j) {
            return Err(SyntaxError { pos });
        }
        j = j + 1;
    }
    proof {
        assert(c@.subrange(pos as int, (pos + n) as int) =~= w@);
    }
    Ok(pos + n)
}

/// Consumes exactly the given character.
fn one_char(c: &Vec<char>, pos: usize, x: char) -> (r: Result<usize, SyntaxError>)
    requires
        pos <= c@.len(),
    ensures
        r is Ok <==> pos < c@.len() && c@[pos as int] == x,
        r matches Ok(p) ==> p == pos + 1 && c@[pos as int] == x,
{
    if pos < c.len() && c[pos] == x {
        Ok(pos + 1)
    } else {
        Err(SyntaxError { pos })
    }
}

/// Parses one expression from `pos`: a keyword form, an application, a
/// qualified value, or a variable. Returns the position after it.
pub fn parse_expr(c: &Vec<char>, pos: usize) -> (r: Result<(usize, Expr), SyntaxError>)
    requires
        pos <= c@.len(),
    ensures
        r matches Ok((p, _)) ==> pos < p <= c@.len(),
    decreases c@.len() - pos, 0int,
{
    let i = skip_ws0(c, pos);
    if i < c.len() && c[i] == '(' {
        return parse_app(c, i + 1);
    }
    let (j, word) = alpha1(c, i)?;
    if crate::text::token_is(&word, "let") {
        parse_let(c, j)
    } else if crate::text::token_is(&word, "if") {
        parse_if(c, j)
    } else if crate::text::token_is(&word, "split") {
        parse_split(c, j)
    } else if crate::text::token_is(&word, "free") {
        parse_free(c, j)
    } else if crate::text::token_is(&word, "lin") {
        parse_qval(Qual::Lin, c, j)
    } else if crate::text::token_is(&word, "un") {
        parse_qval(Qual::Un, c, j)
    } else {
        let name: String = chars_to_string(&word);
        Ok((j, Expr::Var(name)))
    }
}

/// The string spelling the given characters.
fn chars_to_string(v: &Vec<char>) -> (r: String)
    ensures
        r@ == v@,
{
    let mut s = String::new();
    let mut i: usize = 0;
    while i < v.len()
        invariant
            i <= v@.len(),
            s@ == v@.subrange(0, i as int),
        decreases v@.len() - i,
    {
        s = push_char(s, v[i]);
        proof {
            assert(s@ =~= v@.subrange(0, i + 1 as int));
        }
        i = i + 1;
    }
    proof {
        assert(s@ =~= v@);
    }
    s
}

/// Relies on String::push: appending one character to a string appends it
/// to the string's characters.
#[verifier::external_body]
fn push_char(s: String, c: char) -> (r: String)
    ensures
        r@ == s@.push(c),
{
    let mut s = s;
    s.push(c);
    s
}

/// Parses a function application `(e1 e2)` after its opening parenthesis.
fn parse_app(c: &Vec<char>, pos: usize) -> (r: Result<(usize, Expr), SyntaxError>)
    requires
        pos <= c@.len(),
    ensures
        r matches Ok((p, _)) ==> pos < p <= c@.len(),
    decreases c@.len() - pos, 1int,
{
    let i = skip_ws0(c, pos);
    let (i, e1) = parse_expr(c, i)?;
    let i = skip_ws1(c, i)?;
    let (i, e2) = parse_expr(c, i)?;
    let i = skip_ws0(c, i);
    let i = one_char(c, i, ')')?;
    Ok((i, Expr::App(AppExpr { expr1: Box::new(e1), expr2: Box::new(e2) })))
}

/// Parses `free <var>; <expr>` after its keyword.
fn parse_free(c: &Vec<char>, pos: usize) -> (r: Result<(usize, Expr), SyntaxError>)
    requires
        pos <= c@.len(),
    ensures
        r matches Ok((p, _)) ==> pos < p <= c@.len(),
    decreases c@.len() - pos, 1int,
{
    let i = skip_ws1(c, pos)?;
    let (i, var) = alpha1(c, i)?;
    let i = skip_ws0(c, i);
    let i = one_char(c, i, ';')?;
    let (i, e) = parse_expr(c, i)?;
    Ok((i, Expr::Free(FreeExpr { var: chars_to_string(&var), expr: Box::new(e) })))
}

/// Parses `{ <expr> }`, with whitespace around the expression.
fn parse_block(c: &Vec<char>, pos: usize) -> (r: Result<(usize, Expr), SyntaxError>)
    requires
        pos <= c@.len(),
    ensures
        r matches Ok((p, _)) ==> pos < p <= c@.len(),
    decreases c@.len() - pos, 1int,
{
    let i = one_char(c, pos, '{')?;
    let i = skip_ws0(c, i);
    let (i, e) = parse_expr(c, i)?;
    let i = skip_ws0(c, i);
    let i = one_char(c, i, '}')?;
    Ok((i, e))
}

/// Parses `split <e> as <v1>, <v2> { <body> }` after its keyword.
fn parse_split(c: &Vec<char>, pos: usize) -> (r: Result<(usize, Expr), SyntaxError>)
    requires
        pos <= c@.len(),
    ensures
        r matches Ok((p, _)) ==> pos < p <= c@.len(),
    decreases c@.len() - pos, 1int,
{
    let i = skip_ws1(c, pos)?;
    let (i, e1) = parse_expr(c, i)?;
    let i = skip_ws1(c, i)?;
    let i = tag(c, i, "as")?;
    let i = skip_ws1(c, i)?;
    let (i, v1) = alpha1(c, i)?;
    let i = skip_ws0(c, i);
    let i = one_char(c, i, ',')?;
    let i = skip_ws0(c, i);
    let (i, v2) = alpha1(c, i)?;
    let i = skip_ws0(c, i);
    let (i, e2) = parse_block(c, i)?;
    Ok((
        i,
        Expr::Split(
            SplitExpr {
                expr: Box::new(e1),
                left: chars_to_string(&v1),
                right: chars_to_string(&v2),
                body: Box::new(e2),
            },
        ),
    ))
}

/// Parses `if <cond> { <then> } else { <else> }` after its keyword.
fn parse_if(c: &Vec<char>, pos: usize) -> (r: Result<(usize, Expr), SyntaxError>)
    requires
        pos <= c@.len(),
    ensures
        r matches Ok((p, _)) ==> pos < p <= c@.len(),
    decreases c@.len() - pos, 1int,
{
    let i = skip_ws1(c, pos)?;
    let (i, e1) = parse_expr(c, i)?;
    let i = skip_ws0(c, i);
    let (i, e2) = parse_block(c, i)?;
    let i = skip_ws0(c, i);
    let i = tag(c, i, "else")?;
    let i = skip_ws0(c, i);
    let (i, e3) = parse_block(c, i)?;
    Ok((
        i,
        Expr::If(
            IfExpr { cond_expr: Box::new(e1), then_expr: Box::new(e2), else_expr: Box::new(e3) },
        ),
    ))
}

/// Parses `let <var> : <ty> = <e1>; <e2>` after its keyword.
fn parse_let(c: &Vec<char>, pos: usize) -> (r: Result<(usize, Expr), SyntaxError>)
    requires
        pos <= c@.len(),
    ensures
        r matches Ok((p, _)) ==> pos < p <= c@.len(),
    decreases c@.len() - pos, 1int,
{
    let i = skip_ws1(c, pos)?;
    let (i, var) = alpha1(c, i)?;
    let i = skip_ws0(c, i);
    let i = one_char(c, i, ':')?;
    let i = skip_ws0(c, i);
    let (i, ty) = parse_type(c, i)?;
    let i = skip_ws0(c, i);
    let i = one_char(c, i, '=')?;
    let i = skip_ws0(c, i);
    let (i, e1) = parse_expr(c, i)?;
    let i = skip_ws0(c, i);
    let i = one_char(c, i, ';')?;
    let (i, e2) = parse_expr(c, i)?;
    Ok((
        i,
        Expr::Let(
            LetExpr {
                var: chars_to_string(&var),
                ty,
                expr1: Box::new(e1),
                expr2: Box::new(e2),
            },
        ),
    ))
}

/// Parses `<e1> , <e2> >`, the tail of a pair value.
fn parse_pair(c: &Vec<char>, pos: usize) -> (r: Result<(usize, ValExpr), SyntaxError>)
    requires
        pos <= c@.len(),
    ensures
        r matches Ok((p, _)) ==> pos < p <= c@.len(),
    decreases c@.len() - pos, 1int,
{
    let i = skip_ws0(c, pos);
    let (i, v1) = parse_expr(c, i)?;
    let i = skip_ws0(c, i);
    let i = one_char(c, i, ',')?;
    let i = skip_ws0(c, i);
    let (i, v2) = parse_expr(c, i)?;
    let i = skip_ws0(c, i);
    let i = one_char(c, i, '>')?;
    Ok((i, ValExpr::Pair(Box::new(v1), Box::new(v2))))
}

/// Parses `fn <var> : <ty> { <body> }` after its keyword.
fn parse_fn(c: &Vec<char>, pos: usize) -> (r: Result<(usize, ValExpr), SyntaxError>)
    requires
        pos <= c@.len(),
    ensures
        r matches Ok((p, _)) ==> pos < p <= c@.len(),
    decreases c@.len() - pos, 1int,
{
    let i = skip_ws1(c, pos)?;
    let (i, var) = alpha1(c, i)?;
    let i = skip_ws0(c, i);
    let i = one_char(c, i, ':')?;
    let i = skip_ws0(c, i);
    let (i, ty) = parse_type(c, i)?;
    let i = skip_ws0(c, i);
    let (i, e) = parse_block(c, i)?;
    Ok((i, ValExpr::Fun(FnExpr { var: chars_to_string(&var), ty, expr: Box::new(e) })))
}

/// Parses a plain value: a boolean, a function, or a pair.
fn parse_val(c: &Vec<char>, pos: usize) -> (r: Result<(usize, ValExpr), SyntaxError>)
    requires
        pos <= c@.len(),
    ensures
        r matches Ok((p, _)) ==> pos < p <= c@.len(),
    decreases c@.len() - pos, 1int,
{
    proof {
        reveal_strlit("fn");
        reveal_strlit("true");
        reveal_strlit("false");
        reveal_strlit("<");
    }
    if let Ok(i) = tag(c, pos, "fn") {
        parse_fn(c, i)
    } else if let Ok(i) = tag(c, pos, "true") {
        Ok((i, ValExpr::Bool(true)))
    } else if let Ok(i) = tag(c, pos, "false") {
        Ok((i, ValExpr::Bool(false)))
    } else if let Ok(i) = tag(c, pos, "<") {
        parse_pair(c, i)
    } else {
        Err(SyntaxError { pos })
    }
}

/// Parses a qualified value after its qualifier keyword.
fn parse_qval(q: Qual, c: &Vec<char>, pos: usize) -> (r: Result<(usize, Expr), SyntaxError>)
    requires
        pos <= c@.len(),
    ensures
        r matches Ok((p, _)) ==> pos < p <= c@.len(),
    decreases c@.len() - pos, 1int,
{
    let i = skip_ws1(c, pos)?;
    let (i, v) = parse_val(c, i)?;
    Ok((i, Expr::QVal(QValExpr { qual: q, val: v })))
}

/// Parses a qualifier: `lin` or `un`, giving the matching value.
fn parse_qual(c: &Vec<char>, pos: usize) -> (r: Result<(usize, Qual), SyntaxError>)
    requires
        pos <= c@.len(),
    ensures
        r matches Ok((p, _)) ==> pos < p <= c@.len(),
        r matches Ok((p, q)) ==> (q == Qual::Lin ==> c@.subrange(pos as int, p as int) == "lin"@)
            && (q == Qual::Un ==> c@.subrange(pos as int, p as int) == "un"@),
{
    proof {
        reveal_strlit("lin");
        reveal_strlit("un");
    }
    if let Ok(i) = tag(c, pos, "lin") {
        Ok((i, Qual::Lin))
    } else if let Ok(i) = tag(c, pos, "un") {
        Ok((i, Qual::Un))
    } else {
        Err(SyntaxError { pos })
    }
}

/// Parses a qualified type: `bool`, a pair type `(<t> * <t>)`, or a
/// function type `(<t> -> <t>)`, each behind a qualifier.
pub fn parse_type(c: &Vec<char>, pos: usize) -> (r: Result<(usize, TypeExpr), SyntaxError>)
    requires
        pos <= c@.len(),
    ensures
        r matches Ok((p, _)) ==> pos < p <= c@.len(),
    decreases c@.len() - pos,
{
    let (i, q) = parse_qual(c, pos)?;
    let i = skip_ws1(c, i)?;
    if let Ok(i) = tag(c, i, "bool") {
        return Ok((i, TypeExpr { qual: q, prim: PrimType::Bool }));
    }
    let i = one_char(c, i, '(')?;
    let i = skip_ws0(c, i);
    let (i, t1) = parse_type(c, i)?;
    let i = skip_ws0(c, i);
    let (i, arrow) = if let Ok(i) = tag(c, i, "*") {
        (i, false)
    } else if let Ok(i) = tag(c, i, "->") {
        (i, true)
    } else {
        return Err(SyntaxError { pos: i });
    };
    let i = skip_ws0(c, i);
    let (i, t2) = parse_type(c, i)?;
    let i = skip_ws0(c, i);
    let i = one_char(c, i, ')')?;
    let prim = if arrow {
        PrimType::Arrow(Box::new(t1), Box::new(t2))
    } else {
        PrimType::Pair(Box::new(t1), Box::new(t2))
    };
    Ok((i, TypeExpr { qual: q, prim }))
}

/// Structural equality of qualified types; `==` of the values in
/// specifications.
pub fn type_eq(a: &TypeExpr, b: &TypeExpr) -> (r: bool)
    ensures
        r == (a == b),
    decreases a,
{
    let q = match (a.qual, b.qual) {
        (Qual::Lin, Qual::Lin) => true,
        (Qual::Un, Qual::Un) => true,
        _ => false,
    };
    q && prim_eq(&a.prim, &b.prim)
}

/// Structural equality of unqualified types.
pub fn prim_eq(a: &PrimType, b: &PrimType) -> (r: bool)
    ensures
        r == (a == b),
    decreases a,
{
    match (a, b) {
        (PrimType::Bool, PrimType::Bool) => true,
        (PrimType::Pair(a1, a2), PrimType::Pair(b1, b2)) => type_eq(a1, b1) && type_eq(a2, b2),
        (PrimType::Arrow(a1, a2), PrimType::Arrow(b1, b2)) => type_eq(a1, b1) && type_eq(a2, b2),
        _ => false,
    }
}

} // verus!
