//! Character-level text utilities: conversion of `&str` to character
//! vectors, keyword tests, and decimal number parsing with exact
//! specifications of which strings are accepted and what value they denote.

use vstd::prelude::*;

verus! {

/// A decimal digit.
pub open spec fn is_digit(c: char) -> bool {
    48 <= c as u32 && c as u32 <= 57
}

/// The numeric value of a decimal digit.
pub open spec fn digit_val(c: char) -> int {
    c as u32 - 48
}

/// Every character of `s` is a decimal digit.
pub open spec fn all_digits(s: Seq<char>) -> bool {
    forall|i: int| 0 <= i < s.len() ==> is_digit(#[trigger] s[i])
}

/// The value of a digit string, most significant digit first.
pub open spec fn digits_val(s: Seq<char>) -> int
    decreases s.len(),
{
    if s.len() == 0 {
        0
    } else {
        digits_val(s.drop_last()) * 10 + digit_val(s.last())
    }
}

pub proof fn lemma_digits_val_nonneg(s: Seq<char>)
    requires
        all_digits(s),
    ensures
        digits_val(s) >= 0,
    decreases s.len(),
{
    if s.len() > 0 {
        assert(all_digits(s.drop_last()));
        lemma_digits_val_nonneg(s.drop_last());
    }
}

/// Extending a digit string on the right can only increase its value.
pub proof fn lemma_digits_val_prefix(s: Seq<char>, k: int)
    requires
        all_digits(s),
        0 <= k <= s.len(),
    ensures
        digits_val(s.subrange(0, k)) <= digits_val(s),
    decreases s.len() - k,
{
    if k < s.len() {
        let p = s.subrange(0, k);
        let q = s.subrange(0, k + 1);
        assert(q.drop_last() =~= p);
        assert(all_digits(p));
        lemma_digits_val_nonneg(p);
        assert(digits_val(q) == digits_val(p) * 10 + digit_val(q.last()));
        lemma_digits_val_prefix(s, k + 1);
    } else {
        assert(s.subrange(0, k) =~= s);
    }
}

/// The characters of `s`, in order.
pub fn to_chars(s: &str) -> (v: Vec<char>)
    ensures
        v@ == s@,
{
    let n = s.unicode_len();
    let mut v: Vec<char> = Vec::new();
    let mut i: usize = 0;
    while i < n
        invariant
            i <= n,
            n == s@.len(),
            v@ == s@.subrange(0, i as int),
        decreases n - i,
    {
        let c = s.get_char(i);
        v.push(c);
        proof {
            assert(v@ =~= s@.subrange(0, i + 1 as int));
        }
        i = i + 1;
    }
    proof {
        assert(v@ =~= s@);
    }
    v
}

/// A fresh copy of a character vector.
pub fn dup_chars(v: &Vec<char>) -> (r: Vec<char>)
    ensures
        r@ == v@,
{
    let mut r: Vec<char> = Vec::new();
    let mut i: usize = 0;
    while i < v.len()
        invariant
            i <= v@.len(),
            r@ == v@.subrange(0, i as int),
        decreases v@.len() - i,
    {
        r.push(v[i]);
        proof {
            assert(r@ =~= v@.subrange(0, i + 1 as int));
        }
        i = i + 1;
    }
    proof {
        assert(r@ =~= v@);
    }
    r
}

/// Whether the token `t` spells exactly the word `w`.
pub fn token_is(t: &Vec<char>, w: &str) -> (r: bool)
    ensures
        r == (t@ == w@),
{
    let n = w.unicode_len();
    if t.len() != n {
        proof {
            assert(t@ != w@) by {
                if t@ == w@ {
                    assert(t@.len() == w@.len());
                }
            }
        }
        return false;
    }
    let mut i: usize = 0;
    while i < n
        invariant
            i <= n,
            n == w@.len(),
            t@.len() == n,
            forall|j: int| 0 <= j < i ==> t@[j] == w@[j],
        decreases n - i,
    {
        if t[i] != w.get_char(i) {
            return false;
        }
        i = i + 1;
    }
    proof {
        assert(t@ =~= w@);
    }
    true
}

/// The digits of an unsigned decimal literal: everything after an optional
/// leading plus sign.
pub open spec fn unsigned_body(s: Seq<char>) -> Seq<char> {
    if s.len() > 0 && s[0] == '+' {
        s.subrange(1, s.len() as int)
    } else {
        s
    }
}

/// The strings accepted as `usize` literals: an optional plus sign, at
/// least one digit, and a value that fits the type.
pub open spec fn is_usize_literal(s: Seq<char>) -> bool {
    let b = unsigned_body(s);
    b.len() > 0 && all_digits(b) && digits_val(b) <= usize::MAX as int
}

/// Parses an unsigned decimal literal, accepting exactly the strings that
/// `is_usize_literal` describes.
pub fn parse_usize(s: &Vec<char>) -> (r: Option<usize>)
    ensures
        r is Some <==> is_usize_literal(s@),
        r is Some ==> r.unwrap() as int == digits_val(unsigned_body(s@)),
{
    let ghost body = unsigned_body(s@);
    let start: usize = if s.len() > 0 && s[0] == '+' {
        1
    } else {
        0
    };
    proof {
        assert(body =~= s@.subrange(start as int, s@.len() as int));
    }
    if s.len() == start {
        return None;
    }
    let mut acc: usize = 0;
    let mut i: usize = start;
    while i < s.len()
        invariant
            start <= i <= s@.len(),
            start < s@.len(),
            body == unsigned_body(s@),
            body == s@.subrange(start as int, s@.len() as int),
            all_digits(body.subrange(0, i - start)),
            acc as int == digits_val(body.subrange(0, i - start)),
        decreases s@.len() - i,
    {
        let c = s[i];
        let u = c as u32;
        if !(48 <= u && u <= 57) {
            proof {
                assert(body[i - start] == c);
                assert(!is_digit(c));
                assert(!all_digits(body)) by {
                    if all_digits(body) {
                        assert(is_digit(body[i - start]));
                    }
                }
            }
            return None;
        }
        let d = (u - 48) as usize;
        let ghost pre = body.subrange(0, i - start);
        let ghost cur = body.subrange(0, i + 1 - start);
        proof {
            assert(cur.drop_last() =~= pre);
            assert(cur.last() == c);
            assert(is_digit(c));
            assert(all_digits(cur)) by {
                assert(cur.len() == pre.len() + 1);
                assert(forall|j: int| 0 <= j < pre.len() ==> cur[j] == pre[j]);
                assert(forall|j: int|
                    0 <= j < cur.len() ==> is_digit(#[trigger] cur[j])) by {
                    assert(forall|j: int| 0 <= j < pre.len() ==> is_digit(#[trigger] pre[j]));
                    assert(is_digit(cur[cur.len() - 1]));
                }
            }
        }
        let m = match acc.checked_mul(10) {
            Some(m) => m,
            None => {
                proof {
                    lemma_digits_val_nonneg(pre);
                    assert(digits_val(cur) > usize::MAX as int);
                    if all_digits(body) {
                        lemma_digits_val_prefix(body, i + 1 - start);
                    }
                }
                return None;
            },
        };
        let a = match m.checked_add(d) {
            Some(a) => a,
            None => {
                proof {
                    assert(digits_val(cur) > usize::MAX as int);
                    if all_digits(body) {
                        lemma_digits_val_prefix(body, i + 1 - start);
                    }
                }
                return None;
            },
        };
        acc = a;
        i = i + 1;
    }
    proof {
        assert(body.subrange(0, s@.len() - start) =~= body);
    }
    Some(acc)
}

/// A hexadecimal digit, upper or lower case.
pub open spec fn is_hex_digit(c: char) -> bool {
    (48 <= c as u32 && c as u32 <= 57) || (97 <= c as u32 && c as u32 <= 102) || (65 <= c as u32
        && c as u32 <= 70)
}

/// The numeric value of a hexadecimal digit.
pub open spec fn hex_digit_val(c: char) -> int {
    if 48 <= c as u32 && c as u32 <= 57 {
        c as u32 - 48
    } else if 97 <= c as u32 && c as u32 <= 102 {
        c as u32 - 87
    } else {
        c as u32 - 55
    }
}

/// Every character of `s` is a hexadecimal digit.
pub open spec fn all_hex(s: Seq<char>) -> bool {
    forall|i: int| 0 <= i < s.len() ==> is_hex_digit(#[trigger] s[i])
}

/// The value of a hexadecimal digit string, most significant first.
pub open spec fn hex_val(s: Seq<char>) -> int
    decreases s.len(),
{
    if s.len() == 0 {
        0
    } else {
        hex_val(s.drop_last()) * 16 + hex_digit_val(s.last())
    }
}

pub proof fn lemma_hex_val_nonneg(s: Seq<char>)
    requires
        all_hex(s),
    ensures
        hex_val(s) >= 0,
    decreases s.len(),
{
    if s.len() > 0 {
        assert(all_hex(s.drop_last()));
        lemma_hex_val_nonneg(s.drop_last());
    }
}

/// Extending a hexadecimal string on the right can only increase its value.
pub proof fn lemma_hex_val_prefix(s: Seq<char>, k: int)
    requires
        all_hex(s),
        0 <= k <= s.len(),
    ensures
        hex_val(s.subrange(0, k)) <= hex_val(s),
    decreases s.len() - k,
{
    if k < s.len() {
        let p = s.subrange(0, k);
        let q = s.subrange(0, k + 1);
        assert(q.drop_last() =~= p);
        assert(all_hex(p));
        lemma_hex_val_nonneg(p);
        assert(hex_val(q) == hex_val(p) * 16 + hex_digit_val(q.last()));
        lemma_hex_val_prefix(s, k + 1);
    } else {
        assert(s.subrange(0, k) =~= s);
    }
}

/// The strings accepted as hexadecimal `usize` literals: an optional plus
/// sign, at least one hexadecimal digit, and a value that fits the type.
pub open spec fn is_hex_literal(s: Seq<char>) -> bool {
    let b = unsigned_body(s);
    b.len() > 0 && all_hex(b) && hex_val(b) <= usize::MAX as int
}

/// Parses the tail of `s` from position `from` as a hexadecimal literal,
/// accepting exactly the strings that `is_hex_literal` describes.
pub fn parse_hex_usize(s: &Vec<char>, from: usize) -> (r: Option<usize>)
    requires
        from <= s@.len(),
    ensures
        r is Some <==> is_hex_literal(s@.subrange(from as int, s@.len() as int)),
        r is Some ==> r.unwrap() as int == hex_val(
            unsigned_body(s@.subrange(from as int, s@.len() as int)),
        ),
{
    let ghost tail = s@.subrange(from as int, s@.len() as int);
    let ghost body = unsigned_body(tail);
    let start: usize = if s.len() > from && s[from] == '+' {
        from + 1
    } else {
        from
    };
    proof {
        assert(body =~= s@.subrange(start as int, s@.len() as int));
    }
    if s.len() == start {
        return None;
    }
    let mut acc: usize = 0;
    let mut i: usize = start;
    while i < s.len()
        invariant
            from <= start <= i <= s@.len(),
            start < s@.len(),
            tail == s@.subrange(from as int, s@.len() as int),
            body == unsigned_body(tail),
            body == s@.subrange(start as int, s@.len() as int),
            all_hex(body.subrange(0, i - start)),
            acc as int == hex_val(body.subrange(0, i - start)),
        decreases s@.len() - i,
    {
        let c = s[i];
        let u = c as u32;
        let d: usize = if 48 <= u && u <= 57 {
            (u - 48) as usize
        } else if 97 <= u && u <= 102 {
            (u - 87) as usize
        } else if 65 <= u && u <= 70 {
            (u - 55) as usize
        } else {
            proof {
                assert(body[i - start] == c);
                assert(!is_hex_digit(c));
                assert(!all_hex(body)) by {
                    if all_hex(body) {
                        assert(is_hex_digit(body[i - start]));
                    }
                }
            }
            return None;
        };
        let ghost pre = body.subrange(0, i - start);
        let ghost cur = body.subrange(0, i + 1 - start);
        proof {
            assert(cur.drop_last() =~= pre);
            assert(cur.last() == c);
            assert(is_hex_digit(c));
            assert(d as int == hex_digit_val(c));
            assert(all_hex(cur)) by {
                assert(cur.len() == pre.len() + 1);
                assert(forall|j: int| 0 <= j < pre.len() ==> cur[j] == pre[j]);
                assert(forall|j: int|
                    0 <= j < cur.len() ==> is_hex_digit(#[trigger] cur[j])) by {
                    assert(forall|j: int| 0 <= j < pre.len() ==> is_hex_digit(#[trigger] pre[j]));
                    assert(is_hex_digit(cur[cur.len() - 1]));
                }
            }
        }
        let m = match acc.checked_mul(16) {
            Some(m) => m,
            None => {
                proof {
                    lemma_hex_val_nonneg(pre);
                    assert(hex_val(cur) > usize::MAX as int);
                    if all_hex(body) {
                        lemma_hex_val_prefix(body, i + 1 - start);
                    }
                }
                return None;
            },
        };
        let a = match m.checked_add(d) {
            Some(a) => a,
            None => {
                proof {
                    assert(hex_val(cur) > usize::MAX as int);
                    if all_hex(body) {
                        lemma_hex_val_prefix(body, i + 1 - start);
                    }
                }
                return None;
            },
        };
        acc = a;
        i = i + 1;
    }
    proof {
        assert(body.subrange(0, s@.len() - start) =~= body);
    }
    Some(acc)
}

/// The digits of a signed decimal literal: everything after an optional
/// leading plus or minus sign.
pub open spec fn signed_body(s: Seq<char>) -> Seq<char> {
    if s.len() > 0 && (s[0] == '+' || s[0] == '-') {
        s.subrange(1, s.len() as int)
    } else {
        s
    }
}

/// The signed value a decimal literal denotes.
pub open spec fn signed_val(s: Seq<char>) -> int {
    if s.len() > 0 && s[0] == '-' {
        -digits_val(signed_body(s))
    } else {
        digits_val(signed_body(s))
    }
}

/// The strings accepted as `i32` literals: an optional sign, at least one
/// digit, and a value that fits the type.
pub open spec fn is_i32_literal(s: Seq<char>) -> bool {
    let b = signed_body(s);
    b.len() > 0 && all_digits(b) && i32::MIN as int <= signed_val(s) && signed_val(s)
        <= i32::MAX as int
}

/// Parses a signed decimal literal, accepting exactly the strings that
/// `is_i32_literal` describes.
pub fn parse_i32(s: &Vec<char>) -> (r: Option<i32>)
    ensures
        r is Some <==> is_i32_literal(s@),
        r is Some ==> r.unwrap() as int == signed_val(s@),
{
    let ghost body = signed_body(s@);
    let neg: bool = s.len() > 0 && s[0] == '-';
    let start: usize = if s.len() > 0 && (s[0] == '+' || s[0] == '-') {
        1
    } else {
        0
    };
    proof {
        assert(body =~= s@.subrange(start as int, s@.len() as int));
    }
    if s.len() == start {
        return None;
    }
    let limit: u64 = if neg {
        2147483648
    } else {
        2147483647
    };
    let mut acc: u64 = 0;
    let mut i: usize = start;
    while i < s.len()
        invariant
            start <= i <= s@.len(),
            start < s@.len(),
            body == signed_body(s@),
            body == s@.subrange(start as int, s@.len() as int),
            neg == (s@.len() > 0 && s@[0] == '-'),
            all_digits(body.subrange(0, i - start)),
            acc as int == digits_val(body.subrange(0, i - start)),
            acc <= limit,
            limit == if neg {
                2147483648u64
            } else {
                2147483647u64
            },
        decreases s@.len() - i,
    {
        let c = s[i];
        let u = c as u32;
        if !(48 <= u && u <= 57) {
            proof {
                assert(body[i - start] == c);
                assert(!is_digit(c));
                assert(!all_digits(body)) by {
                    if all_digits(body) {
                        assert(is_digit(body[i - start]));
                    }
                }
            }
            return None;
        }
        let d = (u - 48) as u64;
        let ghost pre = body.subrange(0, i - start);
        let ghost cur = body.subrange(0, i + 1 - start);
        proof {
            assert(cur.drop_last() =~= pre);
            assert(cur.last() == c);
            assert(is_digit(c));
            assert(all_digits(cur)) by {
                assert(cur.len() == pre.len() + 1);
                assert(forall|j: int| 0 <= j < pre.len() ==> cur[j] == pre[j]);
                assert(forall|j: int|
                    0 <= j < cur.len() ==> is_digit(#[trigger] cur[j])) by {
                    assert(forall|j: int| 0 <= j < pre.len() ==> is_digit(#[trigger] pre[j]));
                    assert(is_digit(cur[cur.len() - 1]));
                }
            }
        }
        let a = acc * 10 + d;
        if a > limit {
            proof {
                assert(digits_val(cur) > limit as int);
                if all_digits(body) {
                    lemma_digits_val_prefix(body, i + 1 - start);
                }
            }
            return None;
        }
        acc = a;
        i = i + 1;
    }
    proof {
        assert(body.subrange(0, s@.len() - start) =~= body);
    }
    if neg {
        let v = -(acc as i64);
        Some(v as i32)
    } else {
        Some(acc as i32)
    }
}

} // verus!
