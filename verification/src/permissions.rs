//! Rendering of a file mode as the conventional fixed-width permission string:
//! one type glyph (`d`, `l` or `-`) followed by three `rwx` triplets for the
//! owner, group and other bits of the low nine bits of the mode.

use vstd::prelude::*;

verus! {

/// The character one slot of the permission string shows: `ch` when `bit` is
/// set in `mode`, `-` otherwise.
pub open spec fn slot_char(mode: u32, bit: u32, ch: char) -> char {
    if mode & bit != 0 {
        ch
    } else {
        '-'
    }
}

/// The leading type glyph: `d` for a directory, `l` for a symlink, `-` otherwise.
pub open spec fn type_char(is_dir: bool, is_symlink: bool) -> char {
    if is_dir && !is_symlink {
        'd'
    } else if !is_dir && is_symlink {
        'l'
    } else {
        '-'
    }
}

/// The full ten-character permission string: the type glyph, then `r`, `w`, `x`
/// slots for each of the owner (bits 8..6), group (bits 5..3) and other
/// (bits 2..0) triplets of the mode.
pub open spec fn spec_permission_string(mode: u32, is_dir: bool, is_symlink: bool) -> Seq<char> {
    seq![
        type_char(is_dir, is_symlink),
        slot_char(mode, 0o400, 'r'),
        slot_char(mode, 0o200, 'w'),
        slot_char(mode, 0o100, 'x'),
        slot_char(mode, 0o040, 'r'),
        slot_char(mode, 0o020, 'w'),
        slot_char(mode, 0o010, 'x'),
        slot_char(mode, 0o004, 'r'),
        slot_char(mode, 0o002, 'w'),
        slot_char(mode, 0o001, 'x'),
    ]
}

/// Appends one slot: the single character `ch` holds when `bit` is set in
/// `mode`, `-` otherwise.
fn push_slot(s: &mut String, mode: u32, bit: u32, ch: &str, Ghost(c): Ghost<char>)
    requires
        ch@ =~= seq![c],
    ensures
        final(s)@ == old(s)@.push(slot_char(mode, bit, c)),
{
    proof {
        reveal_strlit("-");
    }
    if mode & bit != 0 {
        s.append(ch);
    } else {
        s.append("-");
    }
    proof {
        assert(s@ =~= old(s)@.push(s@.last()));
    }
}

/// Renders the unix permission string for a mode value: a type glyph and nine
/// `rwx` slots, total over every mode (only the low nine bits are read).
pub fn unix_permissions(mode: u32, is_dir: bool, is_symlink: bool) -> (r: String)
    ensures
        r@ == spec_permission_string(mode, is_dir, is_symlink),
        r@.len() == 10,
{
    proof {
        reveal_strlit("d");
        reveal_strlit("l");
        reveal_strlit("-");
        reveal_strlit("r");
        reveal_strlit("w");
        reveal_strlit("x");
    }
    let mut s = String::new();
    if is_dir && !is_symlink {
        s.append("d");
    } else if !is_dir && is_symlink {
        s.append("l");
    } else {
        s.append("-");
    }
    proof {
        assert(s@ =~= seq![type_char(is_dir, is_symlink)]);
    }
    push_slot(&mut s, mode, 0o400, "r", Ghost('r'));
    push_slot(&mut s, mode, 0o200, "w", Ghost('w'));
    push_slot(&mut s, mode, 0o100, "x", Ghost('x'));
    push_slot(&mut s, mode, 0o040, "r", Ghost('r'));
    push_slot(&mut s, mode, 0o020, "w", Ghost('w'));
    push_slot(&mut s, mode, 0o010, "x", Ghost('x'));
    push_slot(&mut s, mode, 0o004, "r", Ghost('r'));
    push_slot(&mut s, mode, 0o002, "w", Ghost('w'));
    push_slot(&mut s, mode, 0o001, "x", Ghost('x'));
    proof {
        assert(s@ =~= spec_permission_string(mode, is_dir, is_symlink));
    }
    s
}

/// The attribute bit shown as `d`: the entry is a directory.
pub const ATTRIBUTE_DIRECTORY: u32 = 16;

/// The attribute bit shown as `a`: the entry is marked for archiving.
pub const ATTRIBUTE_ARCHIVE: u32 = 32;

/// The attribute bit shown as `r`: the entry is read-only.
pub const ATTRIBUTE_READONLY: u32 = 1;

/// The attribute bit shown as `h`: the entry is hidden.
pub const ATTRIBUTE_HIDDEN: u32 = 2;

/// The attribute bit shown as `s`: the entry belongs to the operating system.
pub const ATTRIBUTE_SYSTEM: u32 = 4;

/// The five-character rendering of a file-attribute word: one slot each for
/// the directory, archive, read-only, hidden and system bits, in that order.
pub open spec fn spec_windows_attributes(attrs: u32) -> Seq<char> {
    seq![
        slot_char(attrs, ATTRIBUTE_DIRECTORY, 'd'),
        slot_char(attrs, ATTRIBUTE_ARCHIVE, 'a'),
        slot_char(attrs, ATTRIBUTE_READONLY, 'r'),
        slot_char(attrs, ATTRIBUTE_HIDDEN, 'h'),
        slot_char(attrs, ATTRIBUTE_SYSTEM, 's'),
    ]
}

/// Renders a file-attribute word as the alternate, attribute-based permission
/// string: total over every attribute value, five characters always.
pub fn windows_attributes(attrs: u32) -> (r: String)
    ensures
        r@ == spec_windows_attributes(attrs),
        r@.len() == 5,
{
    proof {
        reveal_strlit("d");
        reveal_strlit("a");
        reveal_strlit("r");
        reveal_strlit("h");
        reveal_strlit("s");
    }
    let mut s = String::new();
    push_slot(&mut s, attrs, ATTRIBUTE_DIRECTORY, "d", Ghost('d'));
    push_slot(&mut s, attrs, ATTRIBUTE_ARCHIVE, "a", Ghost('a'));
    push_slot(&mut s, attrs, ATTRIBUTE_READONLY, "r", Ghost('r'));
    push_slot(&mut s, attrs, ATTRIBUTE_HIDDEN, "h", Ghost('h'));
    push_slot(&mut s, attrs, ATTRIBUTE_SYSTEM, "s", Ghost('s'));
    proof {
        assert(s@ =~= spec_windows_attributes(attrs));
    }
    s
}

/// Renders the permission string for one entry from its mode value and its
/// link-level type flags.
pub fn to_string(mode: u32, is_dir: bool, is_symlink: bool) -> (r: String)
    ensures
        r@ == spec_permission_string(mode, is_dir, is_symlink),
        r@.len() == 10,
{
    unix_permissions(mode, is_dir, is_symlink)
}

} // verus!
