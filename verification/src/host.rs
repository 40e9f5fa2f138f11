//! Thin shims over the host's standard library, for the few places where the
//! crate touches the console or needs a primitive vstd gives no
//! specification for.

use std::io::BufRead;
use std::io::Read;
use std::io::Write;

use vstd::prelude::*;

use crate::interpreter::value::StackValue;

verus! {

/// Relies on `std::io::Read::read` on standard input: fills at most one
/// byte. Yields the byte read, or 0 when the host had none to give; nothing
/// can be promised about which byte arrives.
#[verifier::external_body]
pub(crate) fn read_byte() -> u8 {
    let mut buf: [u8; 1] = [0];
    match std::io::stdin().read(&mut buf) {
        Ok(_) => buf[0],
        Err(_) => 0,
    }
}

/// Relies on `std::io::BufRead::lines` on standard input: yields the next
/// line without its line break, or an empty string when input is exhausted
/// or failing; nothing can be promised about the line's contents.
#[verifier::external_body]
pub(crate) fn read_line() -> String {
    match std::io::stdin().lock().lines().next() {
        Some(Ok(line)) => line,
        _ => String::new(),
    }
}

/// Relies on `std::io::Write::write_all` on standard output: writes the
/// text's bytes.
#[verifier::external_body]
pub(crate) fn print_text(s: &str) {
    let _ = std::io::stdout().write_all(s.as_bytes());
}

/// Relies on the `writeln` macro on standard output: prints the debugger's
/// trace, the stack and the position and character the pointer rests on.
#[verifier::external_body]
pub(crate) fn print_trace(stack: &[StackValue], pos: (usize, usize), next: char) {
    let stdout = std::io::stdout();
    let _ = writeln!(&mut stdout.lock(), "\nStack: {:?}\nNext: {:?}: {}", stack, pos, next);
}

/// Relies on `char::from_u32`: yields a character exactly for the values
/// that are neither surrogates nor above the greatest scalar value, and the
/// character's code is then the given value.
#[verifier::external_body]
pub(crate) fn char_from_u32(v: u32) -> (r: Option<char>)
    ensures
        r matches Some(c) ==> c as u32 == v,
        r is Some <==> (v < 0xD800 || (0xE000 <= v && v <= 0x10FFFF)),
{
    char::from_u32(v)
}

/// Relies on `String::push`: appends exactly the given character.
#[verifier::external_body]
pub(crate) fn push_char(s: &mut String, c: char)
    ensures
        final(s)@ == old(s)@.push(c),
{
    s.push(c);
}

} // verus!
