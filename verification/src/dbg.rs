//! The verifiable pieces of the machine-level debugger: its two state
//! markers and the parsing of breakpoint addresses. Everything that drives
//! the traced child itself lives with the surrounding program.

use vstd::prelude::*;
use crate::text;

verus! {

/// Marker for a debugger with a live child process.
#[derive(Debug, Clone, Copy)]
pub struct Running;

/// Marker for a debugger without one.
#[derive(Debug, Clone, Copy)]
pub struct NotRunning;

/// The hexadecimal prefix every breakpoint address must carry.
pub open spec fn has_hex_prefix(s: Seq<char>) -> bool {
    s.len() >= 2 && s[0] == '0' && s[1] == 'x'
}

/// Reads the breakpoint address from a `break 0x...` command: the second
/// token, which must be a hexadecimal literal.
pub fn get_break_addr(cmd: &Vec<Vec<char>>) -> (r: Option<usize>)
    requires
        cmd@.len() >= 2 ==> cmd@[1]@.len() >= 2,
    ensures
        cmd@.len() < 2 ==> r is None,
        cmd@.len() >= 2 && !has_hex_prefix(cmd@[1]@) ==> r is None,
        cmd@.len() >= 2 && has_hex_prefix(cmd@[1]@) ==> {
            let digits = cmd@[1]@.subrange(2, cmd@[1]@.len() as int);
            &&& r is Some <==> text::is_hex_literal(digits)
            &&& r is Some ==> r.unwrap() as int == text::hex_val(text::unsigned_body(digits))
        },
{
    if cmd.len() < 2 {
        return None;
    }
    let addr_str = &cmd[1];
    if !(addr_str[0] == '0' && addr_str[1] == 'x') {
        return None;
    }
    text::parse_hex_usize(addr_str, 2)
}

/// The word written over a breakpoint location: the low byte replaced by
/// the breakpoint instruction, the rest untouched.
pub fn break_word(val: i64) -> (r: i64)
    ensures
        r == (val & !0xff) | 0xcc,
{
    (val & !0xff) | 0xcc
}

} // verus!
