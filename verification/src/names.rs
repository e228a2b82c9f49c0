//! What the tools call the codes they find: file types, segment and section
//! types, segment permissions, metadata tags, subsystems and manifest flags.

use vstd::prelude::*;
use vstd::string::StringExecFns;
use crate::elf::{ET_DYN, ET_EXEC};
use crate::text::push_char;

verus! {

/// The kind of an ELF file, by its `e_type`.
#[derive(Clone, Copy, PartialEq, Eq, Debug)]
pub enum ElfKind {
    /// `ET_DYN`: position independent.
    Dyn,
    /// `ET_EXEC`: fixed address.
    Exec,
    /// Any other type.
    Other,
}

/// The kind of an ELF file with type `e_type`.
pub fn elf_kind(e_type: u16) -> (k: ElfKind)
    ensures
        k == (if e_type == ET_DYN {
            ElfKind::Dyn
        } else if e_type == ET_EXEC {
            ElfKind::Exec
        } else {
            ElfKind::Other
        }),
{
    if e_type == ET_DYN {
        ElfKind::Dyn
    } else if e_type == ET_EXEC {
        ElfKind::Exec
    } else {
        ElfKind::Other
    }
}

/// The name the inspector gives a program-header type, if it knows one.
pub open spec fn segment_type_label(t: u32) -> Option<Seq<char>> {
    if t == 1 {
        Some("LOAD"@)
    } else if t == 2 {
        Some("DYNAMIC"@)
    } else if t == 3 {
        Some("INTERP"@)
    } else if t == 4 {
        Some("NOTE"@)
    } else if t == 6 {
        Some("PHDR"@)
    } else if t == 0x6474e550 {
        Some("GNU_EH_FRAME"@)
    } else if t == 0x6474e551 {
        Some("GNU_STACK"@)
    } else if t == 0x6474e552 {
        Some("GNU_RELRO"@)
    } else {
        None
    }
}

/// The name of a program-header type, if it is a known one.
pub fn segment_type_name(t: u32) -> (r: Option<&'static str>)
    ensures
        match r {
            Some(s) => segment_type_label(t) == Some(s@),
            None => segment_type_label(t) is None,
        },
{
    if t == 1 {
        Some("LOAD")
    } else if t == 2 {
        Some("DYNAMIC")
    } else if t == 3 {
        Some("INTERP")
    } else if t == 4 {
        Some("NOTE")
    } else if t == 6 {
        Some("PHDR")
    } else if t == 0x6474e550 {
        Some("GNU_EH_FRAME")
    } else if t == 0x6474e551 {
        Some("GNU_STACK")
    } else if t == 0x6474e552 {
        Some("GNU_RELRO")
    } else {
        None
    }
}

/// The name the inspector gives a section type, if it knows one.
pub open spec fn section_type_label(t: u32) -> Option<Seq<char>> {
    if t == 0 {
        Some("NULL"@)
    } else if t == 1 {
        Some("PROGBITS"@)
    } else if t == 2 {
        Some("SYMTAB"@)
    } else if t == 3 {
        Some("STRTAB"@)
    } else if t == 4 {
        Some("RELA"@)
    } else if t == 7 {
        Some("NOTE"@)
    } else if t == 8 {
        Some("NOBITS"@)
    } else if t == 9 {
        Some("REL"@)
    } else if t == 11 {
        Some("DYNSYM"@)
    } else if t == 27 {
        Some("DYNAMIC"@)
    } else if t == 0x6ffffff6 {
        Some("GNU_HASH"@)
    } else {
        None
    }
}

/// The name of a section type, if it is a known one.
pub fn section_type_name(t: u32) -> (r: Option<&'static str>)
    ensures
        match r {
            Some(s) => section_type_label(t) == Some(s@),
            None => section_type_label(t) is None,
        },
{
    if t == 0 {
        Some("NULL")
    } else if t == 1 {
        Some("PROGBITS")
    } else if t == 2 {
        Some("SYMTAB")
    } else if t == 3 {
        Some("STRTAB")
    } else if t == 4 {
        Some("RELA")
    } else if t == 7 {
        Some("NOTE")
    } else if t == 8 {
        Some("NOBITS")
    } else if t == 9 {
        Some("REL")
    } else if t == 11 {
        Some("DYNSYM")
    } else if t == 27 {
        Some("DYNAMIC")
    } else if t == 0x6ffffff6 {
        Some("GNU_HASH")
    } else {
        None
    }
}

/// The name the dump tool gives a program-header type.
pub open spec fn dump_segment_label(t: u32) -> Seq<char> {
    if t == 1 {
        "LOAD"@
    } else if t == 2 {
        "DYNAMIC"@
    } else if t == 4 {
        "NOTE"@
    } else {
        "OTHER"@
    }
}

/// The dump tool's name for a program-header type: `LOAD`, `DYNAMIC`, `NOTE` or `OTHER`.
pub fn dump_segment_type_name(t: u32) -> (s: &'static str)
    ensures
        s@ == dump_segment_label(t),
{
    if t == 1 {
        "LOAD"
    } else if t == 2 {
        "DYNAMIC"
    } else if t == 4 {
        "NOTE"
    } else {
        "OTHER"
    }
}

/// The name the dump tool gives a section type.
pub open spec fn dump_section_label(t: u32) -> Seq<char> {
    if t == 1 {
        "PROGBITS"@
    } else if t == 2 {
        "SYMTAB"@
    } else if t == 3 {
        "STRTAB"@
    } else if t == 4 {
        "RELA"@
    } else if t == 7 {
        "NOTE"@
    } else if t == 8 {
        "NOBITS"@
    } else if t == 11 {
        "DYNSYM"@
    } else if t == 27 {
        "DYNAMIC"@
    } else {
        "OTHER"@
    }
}

/// The dump tool's name for a section type, `OTHER` for those it does not know.
pub fn dump_section_type_name(t: u32) -> (s: &'static str)
    ensures
        s@ == dump_section_label(t),
{
    if t == 1 {
        "PROGBITS"
    } else if t == 2 {
        "SYMTAB"
    } else if t == 3 {
        "STRTAB"
    } else if t == 4 {
        "RELA"
    } else if t == 7 {
        "NOTE"
    } else if t == 8 {
        "NOBITS"
    } else if t == 11 {
        "DYNSYM"
    } else if t == 27 {
        "DYNAMIC"
    } else {
        "OTHER"
    }
}

/// Segment permissions as three characters: `R`, `W`, `E` where bits 4, 2, 1 are set, else `-`.
pub open spec fn rwe_text(flags: u32) -> Seq<char> {
    seq![
        if flags & 4 != 0 { 'R' } else { '-' },
        if flags & 2 != 0 { 'W' } else { '-' },
        if flags & 1 != 0 { 'E' } else { '-' },
    ]
}

/// Shows segment permissions as `RWE`, with `-` for each one not granted.
pub fn rwe_flags(flags: u32) -> (s: String)
    ensures
        s@ == rwe_text(flags),
{
    let mut s = String::new();
    push_char(&mut s, if flags & 4 != 0 { 'R' } else { '-' });
    push_char(&mut s, if flags & 2 != 0 { 'W' } else { '-' });
    push_char(&mut s, if flags & 1 != 0 { 'E' } else { '-' });
    assert(s@ =~= rwe_text(flags));
    s
}

/// The label of a NeoDOS metadata tag, if it is a known one.
pub open spec fn meta_tag_label(tag: u16) -> Option<Seq<char>> {
    if tag == 0x0001 {
        Some("Product Name"@)
    } else if tag == 0x0002 {
        Some("Product Version"@)
    } else if tag == 0x0003 {
        Some("File Version"@)
    } else if tag == 0x0004 {
        Some("Description"@)
    } else if tag == 0x0005 {
        Some("Author"@)
    } else if tag == 0x0006 {
        Some("License"@)
    } else if tag == 0x0007 {
        Some("Architecture"@)
    } else if tag == 0x0008 {
        Some("Subsystem"@)
    } else if tag == 0x0009 {
        Some("Language"@)
    } else if tag == 0x000A {
        Some("Min Kernel"@)
    } else if tag == 0x000B {
        Some("Dependencies"@)
    } else if tag == 0x000C {
        Some("Resource Dir"@)
    } else if tag == 0x000D {
        Some("Manifest Flags"@)
    } else if tag == 0x000E {
        Some("Original Filename"@)
    } else if tag == 0x000F {
        Some("Build Timestamp"@)
    } else if tag == 0x0010 {
        Some("Git Hash"@)
    } else {
        None
    }
}

/// The label of a NeoDOS metadata tag, if it is a known one.
pub fn meta_tag_name(tag: u16) -> (r: Option<&'static str>)
    ensures
        match r {
            Some(s) => meta_tag_label(tag) == Some(s@),
            None => meta_tag_label(tag) is None,
        },
{
    if tag == 0x0001 {
        Some("Product Name")
    } else if tag == 0x0002 {
        Some("Product Version")
    } else if tag == 0x0003 {
        Some("File Version")
    } else if tag == 0x0004 {
        Some("Description")
    } else if tag == 0x0005 {
        Some("Author")
    } else if tag == 0x0006 {
        Some("License")
    } else if tag == 0x0007 {
        Some("Architecture")
    } else if tag == 0x0008 {
        Some("Subsystem")
    } else if tag == 0x0009 {
        Some("Language")
    } else if tag == 0x000A {
        Some("Min Kernel")
    } else if tag == 0x000B {
        Some("Dependencies")
    } else if tag == 0x000C {
        Some("Resource Dir")
    } else if tag == 0x000D {
        Some("Manifest Flags")
    } else if tag == 0x000E {
        Some("Original Filename")
    } else if tag == 0x000F {
        Some("Build Timestamp")
    } else if tag == 0x0010 {
        Some("Git Hash")
    } else {
        None
    }
}

/// The name of a subsystem value.
pub open spec fn subsystem_label(v: u32) -> Seq<char> {
    if v == 0 {
        "NATIVE"@
    } else if v == 1 {
        "CONSOLE"@
    } else if v == 2 {
        "GUI"@
    } else {
        "UNKNOWN"@
    }
}

/// The name of a subsystem value: `NATIVE`, `CONSOLE`, `GUI` or `UNKNOWN`.
pub fn subsystem_name(v: u32) -> (s: &'static str)
    ensures
        s@ == subsystem_label(v),
{
    if v == 0 {
        "NATIVE"
    } else if v == 1 {
        "CONSOLE"
    } else if v == 2 {
        "GUI"
    } else {
        "UNKNOWN"
    }
}

/// Manifest flags as words: `CORE `, `BOOT `, `NOASLR `, `SINGLETON ` for bits
/// 1, 2, 4, 8 in that order, or `(none)` when none of them is set.
pub open spec fn manifest_flags_label(v: u32) -> Seq<char> {
    let words = (if v & 1 != 0 { "CORE "@ } else { seq![] }) + (if v & 2 != 0 {
        "BOOT "@
    } else {
        seq![]
    }) + (if v & 4 != 0 { "NOASLR "@ } else { seq![] }) + (if v & 8 != 0 {
        "SINGLETON "@
    } else {
        seq![]
    });
    if words.len() == 0 {
        "(none)"@
    } else {
        words
    }
}

/// Shows manifest flags as words, `(none)` when no known flag is set.
pub fn manifest_flags_text(v: u32) -> (s: String)
    ensures
        s@ == manifest_flags_label(v),
{
    let mut s = String::new();
    if v & 1 != 0 {
        s.append("CORE ");
    }
    if v & 2 != 0 {
        s.append("BOOT ");
    }
    if v & 4 != 0 {
        s.append("NOASLR ");
    }
    if v & 8 != 0 {
        s.append("SINGLETON ");
    }
    proof {
        reveal_strlit("CORE ");
        reveal_strlit("BOOT ");
        reveal_strlit("NOASLR ");
        reveal_strlit("SINGLETON ");
        reveal_strlit("(none)");
    }
    if s.as_str().is_empty() {
        s = String::from_str("(none)");
    }
    assert(s@ =~= manifest_flags_label(v));
    s
}

} // verus!
