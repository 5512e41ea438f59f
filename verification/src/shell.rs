//! Explorer integration: the text the registry entries hold and when to
//! (re)write them. Writing the registry is the application's part.

use vstd::prelude::*;

use crate::paths::text_eq;

verus! {

/// The UTF-16 code units of one character.
pub open spec fn spec_utf16_units(c: char) -> Seq<u16> {
    let cp = c as u32;
    if cp < 0x10000 {
        seq![cp as u16]
    } else {
        let v = (cp - 0x10000) as u32;
        seq![(0xD800 + v / 1024) as u16, (0xDC00 + v % 1024) as u16]
    }
}

/// A text in UTF-16.
pub open spec fn spec_utf16(s: Seq<char>) -> Seq<u16>
    decreases s.len(),
{
    if s.len() == 0 {
        Seq::empty()
    } else {
        spec_utf16(s.drop_last()) + spec_utf16_units(s.last())
    }
}

/// A high (leading) surrogate unit.
pub open spec fn is_high_surrogate(u: u16) -> bool {
    0xD800 <= u <= 0xDBFF
}

/// A low (trailing) surrogate unit.
pub open spec fn is_low_surrogate(u: u16) -> bool {
    0xDC00 <= u <= 0xDFFF
}

/// Reading UTF-16 back into characters: a high surrogate followed by a low
/// one is the supplementary character they encode; any other unit is the
/// character with that code point.
pub open spec fn spec_utf16_decode(u: Seq<u16>) -> Seq<char>
    decreases u.len(),
{
    if u.len() == 0 {
        Seq::empty()
    } else if u.len() >= 2 && is_high_surrogate(u[u.len() - 2]) && is_low_surrogate(u.last()) {
        let hi = u[u.len() - 2] as int;
        let lo = u.last() as int;
        spec_utf16_decode(u.subrange(0, u.len() - 2)).push(((0x10000 + (hi - 0xD800) * 1024 + (lo - 0xDC00)) as u32) as char)
    } else {
        spec_utf16_decode(u.drop_last()).push((u.last() as u32) as char)
    }
}

/// A character below U+10000 is the one UTF-16 unit equal to its code
/// point; any other is a high surrogate followed by a low one.
pub proof fn lemma_utf16_units_of_char(c: char)
    ensures
        (c as u32) < 0x10000 ==> spec_utf16_units(c).len() == 1 && spec_utf16_units(c)[0] as u32 == c as u32,
        (c as u32) < 0x10000 ==> !is_high_surrogate(spec_utf16_units(c)[0]) && !is_low_surrogate(spec_utf16_units(c)[0]),
        (c as u32) >= 0x10000 ==> spec_utf16_units(c).len() == 2 && is_high_surrogate(spec_utf16_units(c)[0])
            && is_low_surrogate(spec_utf16_units(c)[1]),
{
    let cp = c as u32;
    vstd::utf8::char_is_scalar(c);
    if cp >= 0x10000 {
        let v = (cp - 0x10000) as u32;
        assert(v < 0x100000);
        assert(v / 1024 < 1024) by (nonlinear_arith)
            requires v < 0x100000;
    }
}

/// Encoding a text in UTF-16 and reading it back gives the text again.
pub proof fn lemma_utf16_roundtrip(s: Seq<char>)
    ensures
        spec_utf16_decode(spec_utf16(s)) == s,
    decreases s.len(),
{
    if s.len() > 0 {
        lemma_utf16_roundtrip(s.drop_last());
        let prev = spec_utf16(s.drop_last());
        let c = s.last();
        let units = spec_utf16_units(c);
        let u = prev + units;
        assert(spec_utf16(s) == u);
        lemma_utf16_units_of_char(c);
        let cp = c as u32;
        vstd::utf8::char_is_scalar(c);
        vstd::utf8::char_u32_cast(c, cp);
        if cp < 0x10000 {
            assert(u.drop_last() =~= prev);
            assert(u.last() == units[0]);
            assert(((u.last() as u32) as char) == c);
        } else {
            let v = (cp - 0x10000) as u32;
            assert(u.subrange(0, u.len() - 2) =~= prev);
            assert(u[u.len() - 2] == units[0]);
            assert(u.last() == units[1]);
            let hi = units[0] as int;
            let lo = units[1] as int;
            assert(v / 1024 < 1024) by (nonlinear_arith)
                requires v < 0x100000;
            assert(hi - 0xD800 == v / 1024);
            assert(lo - 0xDC00 == v % 1024);
            assert((v / 1024) * 1024 + v % 1024 == v) by (nonlinear_arith);
            assert(0x10000 + (hi - 0xD800) * 1024 + (lo - 0xDC00) == cp);
            assert((((0x10000 + (hi - 0xD800) * 1024 + (lo - 0xDC00)) as u32) as char) == c);
        }
        assert(s.drop_last().push(c) =~= s);
    }
}

/// A text as a NUL-terminated UTF-16 string, as Win32 takes it.
pub fn wide(s: &str) -> (w: Vec<u16>)
    ensures
        w@ == spec_utf16(s@).push(0u16),
        w@.last() == 0u16,
        spec_utf16_decode(w@.drop_last()) == s@,
{
    proof {
        lemma_utf16_roundtrip(s@);
    }
    let ghost enc = spec_utf16(s@);
    let mut out: Vec<u16> = Vec::new();
    for c in iter: s.chars()
        invariant
            iter.seq() == s@,
            out@ == spec_utf16(s@.take(iter.index())),
    {
        assert(s@.take(iter.index() + 1).drop_last() =~= s@.take(iter.index()));
        assert(s@.take(iter.index() + 1).last() == c);
        let cp = c as u32;
        if cp < 0x10000 {
            out.push(cp as u16);
        } else {
            let v = cp - 0x10000;
            out.push((0xD800 + v / 1024) as u16);
            out.push((0xDC00 + v % 1024) as u16);
        }
        assert(out@ =~= spec_utf16(s@.take(iter.index() + 1)));
    }
    assert(s@.take(s@.len() as int) =~= s@);
    out.push(0u16);
    assert(out@.drop_last() =~= enc);
    out
}

/// Whether the Explorer integration must be (re)written at launch: nothing
/// is recorded yet, or it was recorded for another executable path (a
/// portable build the user moved).
pub fn register_if_needed(exe: &str, registered_exe: Option<&str>) -> (register: bool)
    ensures
        register == !(registered_exe matches Some(r) && r@ == exe@),
{
    match registered_exe {
        Some(r) => !text_eq(r, exe),
        None => true,
    }
}

/// The command lines and icon references the registry entries hold for the
/// executable at `exe`.
pub struct ShellCommands {
    /// `"<exe>" open "%1"` — double-click on a container.
    pub open_cmd: String,
    /// `"<exe>" lock "%1"` — the folder verb.
    pub lock_cmd: String,
    /// `"<exe>",-2` — the locked-folder icon.
    pub icon_locked: String,
    /// `"<exe>",-1` — the application icon.
    pub icon_app: String,
}

/// `"<exe>"` followed by `tail`.
fn quoted_then(exe: &str, tail: &str) -> (s: String)
    ensures
        s@ == "\""@ + exe@ + tail@,
{
    let mut s = String::from_str("\"");
    s.append(exe);
    s.append(tail);
    s
}

pub fn shell_commands(exe: &str) -> (c: ShellCommands)
    ensures
        c.open_cmd@ == "\""@ + exe@ + "\" open \"%1\""@,
        c.lock_cmd@ == "\""@ + exe@ + "\" lock \"%1\""@,
        c.icon_locked@ == "\""@ + exe@ + "\",-2"@,
        c.icon_app@ == "\""@ + exe@ + "\",-1"@,
{
    ShellCommands {
        open_cmd: quoted_then(exe, "\" open \"%1\""),
        lock_cmd: quoted_then(exe, "\" lock \"%1\""),
        icon_locked: quoted_then(exe, "\",-2"),
        icon_app: quoted_then(exe, "\",-1"),
    }
}

/// The Explorer command is offered only for a single selected folder.
pub fn lock_command_enabled(selected: u32) -> (enabled: bool)
    ensures
        enabled == (selected == 1),
{
    selected == 1
}

/// The parameters the Explorer command hands the executable for a folder:
/// `lock "<folder>"`.
pub fn lock_command_params(folder: &str) -> (s: String)
    ensures
        s@ == "lock \""@ + folder@ + "\""@,
{
    let mut s = String::from_str("lock \"");
    s.append(folder);
    s.append("\"");
    s
}

} // verus!
