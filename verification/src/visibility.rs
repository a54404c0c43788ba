//! A study of item visibility: types with public and private faces, kept
//! flat in this one file.

use vstd::prelude::*;

verus! {

/// A type whose only public face is `TypeA2` below.
struct TypeA {
    a2: Box<TypeA2>,
}

/// Public wrapper around the private `TypeA`.
pub struct TypeA2 {
    a: Option<Box<TypeA>>,
}

/// A public unit type.
pub struct TypeB;

/// A type with one public and one private field.
pub struct TypeB1 {
    pub n: usize,
    m: usize,
}

impl TypeB1 {
    /// The public field, as contracts outside this module see it.
    pub closed spec fn n_val(&self) -> usize {
        self.n
    }

    /// The private field, as contracts outside this module see it.
    pub closed spec fn m_val(&self) -> usize {
        self.m
    }

    /// The private field, readable only through this module's functions.
    fn g(&self) -> (r: usize)
        ensures
            r == self.m_val(),
    {
        self.m
    }

    /// The public field, readable from anywhere.
    pub fn h(&self) -> (r: usize)
        ensures
            r == self.n_val(),
    {
        self.n
    }
}

/// Another public unit type.
pub struct TypeB2;

/// Builds a `TypeB1` with both fields visible from inside the module.
fn f1(n: usize, m: usize) -> (r: TypeB1)
    ensures
        r.n_val() == n,
        r.m_val() == m,
{
    TypeB1 { n, m }
}

/// Reads both fields of a `TypeB1`, one directly and one through its
/// accessor.
fn f2(p: &TypeB1) -> (r: (usize, usize))
    ensures
        r.0 == p.n_val(),
        r.1 == p.m_val(),
{
    (p.h(), p.g())
}

/// A crate-visible unit type.
pub(crate) struct TypeC1;

/// A private unit type.
struct TypeC2;

/// Builds the module's own unit types.
fn f() -> (TypeC1, TypeC2) {
    (TypeC1, TypeC2)
}

/// Builds the crate-visible unit type alone.
fn g() -> TypeC1 {
    TypeC1
}

/// A public unit type, re-exportable under other paths.
pub struct TypeD;

} // verus!
