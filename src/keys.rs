//! Typing text as keyboard scan codes (USB HID usage codes) on a US layout.
use vstd::prelude::*;
use vstd::string::*;

verus! {

/// For a symbol typed with Shift held, the symbol of the same key without
/// Shift.
pub open spec fn unshifted_symbol(c: char) -> Option<char> {
    if c == '!' { Some('1') }
    else if c == '@' { Some('2') }
    else if c == '#' { Some('3') }
    else if c == '$' { Some('4') }
    else if c == '%' { Some('5') }
    else if c == '^' { Some('6') }
    else if c == '&' { Some('7') }
    else if c == '*' { Some('8') }
    else if c == '(' { Some('9') }
    else if c == ')' { Some('0') }
    else if c == '_' { Some('-') }
    else if c == '+' { Some('=') }
    else if c == '{' { Some('[') }
    else if c == '}' { Some(']') }
    else if c == '|' { Some('\\') }
    else if c == ':' { Some(';') }
    else if c == '"' { Some('\'') }
    else if c == '<' { Some(',') }
    else if c == '>' { Some('.') }
    else if c == '?' { Some('/') }
    else { None }
}

/// The scan code of the key that types `c` without Shift, if one does.
pub open spec fn plain_key_code(c: char) -> Option<u16> {
    if 'a' <= c && c <= 'z' { Some((c as int - 'a' as int + 0x04) as u16) }
    else if '1' <= c && c <= '9' { Some((c as int - '1' as int + 0x1E) as u16) }
    else if c == '0' { Some(0x27) }
    else if c == ' ' { Some(0x2C) }
    else if c == '-' { Some(0x2D) }
    else if c == '=' { Some(0x2E) }
    else if c == '[' { Some(0x2F) }
    else if c == ']' { Some(0x30) }
    else if c == '\\' { Some(0x31) }
    else if c == ';' { Some(0x33) }
    else if c == '\'' { Some(0x34) }
    else if c == ',' { Some(0x36) }
    else if c == '.' { Some(0x37) }
    else if c == '/' { Some(0x38) }
    else { None }
}

/// The scan code of the key that types `c`, with or without Shift: a
/// capital letter shares the key of its small letter, a shifted symbol the
/// key of its unshifted one.
pub open spec fn scan_code_of(c: char) -> Option<u16> {
    if 'A' <= c && c <= 'Z' {
        Some((c as int - 'A' as int + 0x04) as u16)
    } else {
        match unshifted_symbol(c) {
            Some(b) => plain_key_code(b),
            None => plain_key_code(c),
        }
    }
}

/// Whether typing `c` takes Shift: capital letters and shifted symbols.
pub open spec fn shift_for(c: char) -> bool {
    ('A' <= c && c <= 'Z') || unshifted_symbol(c) is Some
}

/// The scan code of the key that types `c`, if `c` can be typed.
pub fn char_to_scan_code(c: char) -> (r: Option<u16>)
    ensures
        r == scan_code_of(c),
{
    if 'a' <= c && c <= 'z' {
        Some((c as u32 - 'a' as u32 + 0x04) as u16)
    } else if 'A' <= c && c <= 'Z' {
        Some((c as u32 - 'A' as u32 + 0x04) as u16)
    } else if '1' <= c && c <= '9' {
        Some((c as u32 - '1' as u32 + 0x1E) as u16)
    } else if c == '0' || c == ')' {
        Some(0x27)
    } else if c == ' ' {
        Some(0x2C)
    } else if c == '!' {
        Some(0x1E)
    } else if c == '@' {
        Some(0x1F)
    } else if c == '#' {
        Some(0x20)
    } else if c == '$' {
        Some(0x21)
    } else if c == '%' {
        Some(0x22)
    } else if c == '^' {
        Some(0x23)
    } else if c == '&' {
        Some(0x24)
    } else if c == '*' {
        Some(0x25)
    } else if c == '(' {
        Some(0x26)
    } else if c == '-' || c == '_' {
        Some(0x2D)
    } else if c == '=' || c == '+' {
        Some(0x2E)
    } else if c == '[' || c == '{' {
        Some(0x2F)
    } else if c == ']' || c == '}' {
        Some(0x30)
    } else if c == '\\' || c == '|' {
        Some(0x31)
    } else if c == ';' || c == ':' {
        Some(0x33)
    } else if c == '\'' || c == '"' {
        Some(0x34)
    } else if c == ',' || c == '<' {
        Some(0x36)
    } else if c == '.' || c == '>' {
        Some(0x37)
    } else if c == '/' || c == '?' {
        Some(0x38)
    } else {
        None
    }
}

/// Whether typing `c` takes Shift.
pub fn needs_shift(c: char) -> (r: bool)
    ensures
        r == shift_for(c),
{
    ('A' <= c && c <= 'Z') || c == '!' || c == '@' || c == '#' || c == '$' || c == '%' || c == '^'
        || c == '&' || c == '*' || c == '(' || c == ')' || c == '_' || c == '+' || c == '{' || c
        == '}' || c == '|' || c == ':' || c == '"' || c == '<' || c == '>' || c == '?'
}

/// One key press: the key's scan code, and whether Shift is held for it.
#[derive(Debug, Clone, Copy, PartialEq, Eq, Structural)]
pub struct KeyStroke {
    pub code: u16,
    pub shift: bool,
}

/// The key presses that type `s`; characters that no key types are left out.
pub open spec fn strokes_of(s: Seq<char>) -> Seq<KeyStroke>
    decreases s.len(),
{
    if s.len() == 0 {
        seq![]
    } else {
        match scan_code_of(s.last()) {
            Some(code) => strokes_of(s.drop_last()).push(KeyStroke { code, shift: shift_for(s.last()) }),
            None => strokes_of(s.drop_last()),
        }
    }
}

/// The key presses that type `input`, in order.
pub fn key_strokes(input: &str) -> (r: Vec<KeyStroke>)
    ensures
        r@ == strokes_of(input@),
{
    let n = input.unicode_len();
    let mut r: Vec<KeyStroke> = Vec::new();
    let mut i: usize = 0;
    while i < n
        invariant
            i <= n,
            n == input@.len(),
            r@ == strokes_of(input@.take(i as int)),
        decreases n - i,
    {
        let c = input.get_char(i);
        assert(input@.take(i + 1).drop_last() =~= input@.take(i as int));
        if let Some(code) = char_to_scan_code(c) {
            r.push(KeyStroke { code, shift: needs_shift(c) });
        }
        i = i + 1;
    }
    assert(input@.take(n as int) =~= input@);
    r
}

} // verus!
