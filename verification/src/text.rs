//! Turning stored bytes into text: NUL-terminated names and lossy UTF-8.

use vstd::prelude::*;
use vstd::utf8::*;

verus! {

/// What `String::from_utf8_lossy` makes of the given bytes.
pub uninterp spec fn utf8_lossy(bytes: Seq<u8>) -> Seq<char>;

/// Text made of stored bytes the way `String::from_utf8_lossy` makes it:
/// the decoded characters of valid UTF-8.
pub open spec fn decoded_text(b: Seq<u8>) -> Seq<char> {
    if valid_utf8(b) {
        decode_utf8(b)
    } else {
        utf8_lossy(b)
    }
}

/// Calls `String::from_utf8_lossy` and takes the result as an owned `String`.
/// Trusted: the characters are `utf8_lossy(bytes)`; when the bytes are valid
/// UTF-8 they are exactly the decoded characters (std documents that valid
/// input comes back unchanged). What replaces invalid sequences is left unsaid.
#[verifier::external_body]
pub(crate) fn lossy_string(bytes: &[u8]) -> (s: String)
    ensures
        s@ == utf8_lossy(bytes@),
        valid_utf8(bytes@) ==> s@ == decode_utf8(bytes@),
{
    String::from_utf8_lossy(bytes).to_string()
}

/// Calls `String::push`. Trusted: the character is appended at the end.
#[verifier::external_body]
pub(crate) fn push_char(s: &mut String, c: char)
    ensures
        final(s)@ == old(s)@.push(c),
{
    s.push(c)
}

/// How a stored byte is shown when a NUL-terminated name is read.
#[derive(Clone, Copy, PartialEq, Eq, Debug)]
pub enum ByteDisplay {
    /// Printable ASCII (graphic characters and space) as itself, anything else as `.`.
    Printable,
    /// ASCII as itself, anything else as U+FFFD.
    AsciiOrReplacement,
    /// Every byte as the character with the same code point.
    Latin1,
}

/// The character shown for byte `b`.
pub open spec fn display_char(how: ByteDisplay, b: u8) -> char {
    match how {
        ByteDisplay::Printable => if (0x21 <= b && b <= 0x7e) || b == 0x20 {
            b as char
        } else {
            '.'
        },
        ByteDisplay::AsciiOrReplacement => if b < 0x80 {
            b as char
        } else {
            '\u{FFFD}'
        },
        ByteDisplay::Latin1 => b as char,
    }
}

/// The number of non-NUL bytes from `off` up to the first NUL or the end of `d`.
pub open spec fn cstr_len(d: Seq<u8>, off: int) -> nat
    decreases d.len() - off,
{
    if off < 0 || off >= d.len() || d[off] == 0 {
        0
    } else {
        1 + cstr_len(d, off + 1)
    }
}

/// The bytes of the NUL-terminated string that starts at `off`.
pub open spec fn cstr_bytes(d: Seq<u8>, off: int) -> Seq<u8> {
    d.subrange(off, off + cstr_len(d, off))
}

/// The name stored at `off`, each byte shown as `how` says.
pub open spec fn cstr_text(d: Seq<u8>, off: int, how: ByteDisplay) -> Seq<char> {
    Seq::new(cstr_len(d, off), |k: int| display_char(how, d[off + k]))
}

proof fn lemma_cstr_len_bound(d: Seq<u8>, off: int)
    requires
        0 <= off,
    ensures
        off + cstr_len(d, off) <= if off <= d.len() { d.len() as int } else { off },
    decreases d.len() - off,
{
    if off < d.len() && d[off] != 0 {
        lemma_cstr_len_bound(d, off + 1);
    }
}

fn display_byte(how: ByteDisplay, b: u8) -> (c: char)
    ensures
        c == display_char(how, b),
{
    match how {
        ByteDisplay::Printable => if (0x21 <= b && b <= 0x7e) || b == 0x20 {
            b as char
        } else {
            '.'
        },
        ByteDisplay::AsciiOrReplacement => if b < 0x80 {
            b as char
        } else {
            '\u{FFFD}'
        },
        ByteDisplay::Latin1 => b as char,
    }
}

/// Reads the NUL-terminated string at `offset`, showing each byte as `how` says.
pub fn read_cstr(data: &[u8], offset: usize, how: ByteDisplay) -> (s: String)
    ensures
        s@ == cstr_text(data@, offset as int, how),
{
    let mut s = String::new();
    let mut i = offset;
    proof {
        lemma_cstr_len_bound(data@, offset as int);
    }
    while i < data.len() && data[i] != 0
        invariant
            offset <= i,
            i <= offset + cstr_len(data@, offset as int),
            cstr_len(data@, offset as int) == (i - offset) + cstr_len(data@, i as int),
            s@ =~= Seq::new((i - offset) as nat, |k: int| display_char(how, data@[offset + k])),
        decreases data@.len() - i,
    {
        let c = display_byte(how, data[i]);
        push_char(&mut s, c);
        i = i + 1;
    }
    s
}

/// Reads the NUL-terminated name at `offset`, printable ASCII as itself and
/// every other byte as `.`.
pub fn get_cstr(data: &[u8], offset: usize) -> (s: String)
    ensures
        s@ == cstr_text(data@, offset as int, ByteDisplay::Printable),
{
    read_cstr(data, offset, ByteDisplay::Printable)
}

/// Reads the NUL-terminated path at `offset` of a string pool, ASCII as itself
/// and every other byte as U+FFFD.
pub fn get_str_at(pool: &[u8], offset: usize) -> (s: String)
    ensures
        s@ == cstr_text(pool@, offset as int, ByteDisplay::AsciiOrReplacement),
{
    read_cstr(pool, offset, ByteDisplay::AsciiOrReplacement)
}

} // verus!
