//! Entry names and path forms.
//!
//! The archive stores entry names with a backslash as the path separator;
//! the scanner produces paths in the walked form with a forward slash. The
//! functions here translate between the two forms, recognize the container's
//! special metadata entries, decode the raw name buffer an archive search
//! yields, and rebuild a 64-bit fingerprint from its two stored halves.

use vstd::prelude::*;

verus! {

/// One character translated to the archive's separator convention.
pub open spec fn archive_char(c: char) -> char {
    if c == '/' {
        '\\'
    } else {
        c
    }
}

/// One character translated to the walked form's separator convention.
pub open spec fn native_char(c: char) -> char {
    if c == '\\' {
        '/'
    } else {
        c
    }
}

/// A whole path in the archive's separator convention.
pub open spec fn archive_form(s: Seq<char>) -> Seq<char> {
    s.map_values(|c: char| archive_char(c))
}

/// A whole path in the walked form's separator convention.
pub open spec fn native_form(s: Seq<char>) -> Seq<char> {
    s.map_values(|c: char| native_char(c))
}

/// The container's own metadata entries, never user content.
pub open spec fn is_special(name: Seq<char>) -> bool {
    ||| name == "(listfile)"@
    ||| name == "(attributes)"@
    ||| name == "(signature)"@
    ||| name == "(user data)"@
}

/// Relies on String::push: appends exactly one character at the end.
#[verifier::external_body]
fn push_char(s: &mut String, c: char)
    ensures
        final(s)@ == old(s)@.push(c),
{
    s.push(c);
}

/// The path as the archive names it: every forward slash becomes a backslash.
pub fn to_archive_name(path: &str) -> (r: String)
    ensures
        r@ == archive_form(path@),
{
    let len: usize = path.unicode_len();
    let mut r = String::new();
    let mut i: usize = 0;
    while i < len
        invariant
            i <= len,
            len == path@.len(),
            r@ == archive_form(path@.take(i as int)),
        decreases len - i,
    {
        let c = path.get_char(i);
        let t = if c == '/' {
            '\\'
        } else {
            c
        };
        push_char(&mut r, t);
        proof {
            assert(r@ =~= archive_form(path@.take(i + 1)));
        }
        i = i + 1;
    }
    proof {
        assert(path@.take(len as int) =~= path@);
    }
    r
}

/// The entry name as the filesystem spells it: every backslash becomes a
/// forward slash.
pub fn to_native_name(name: &str) -> (r: String)
    ensures
        r@ == native_form(name@),
{
    let len: usize = name.unicode_len();
    let mut r = String::new();
    let mut i: usize = 0;
    while i < len
        invariant
            i <= len,
            len == name@.len(),
            r@ == native_form(name@.take(i as int)),
        decreases len - i,
    {
        let c = name.get_char(i);
        let t = if c == '\\' {
            '/'
        } else {
            c
        };
        push_char(&mut r, t);
        proof {
            assert(r@ =~= native_form(name@.take(i + 1)));
        }
        i = i + 1;
    }
    proof {
        assert(name@.take(len as int) =~= name@);
    }
    r
}

/// A path that holds no backslash survives the round trip through the
/// archive's separator convention unchanged.
pub proof fn lemma_separator_round_trip(s: Seq<char>)
    requires
        forall|i: int| 0 <= i < s.len() ==> s[i] != '\\',
    ensures
        native_form(archive_form(s)) == s,
{
    assert(native_form(archive_form(s)) =~= s);
}

/// Character-for-character string equality.
pub fn str_eq(a: &str, b: &str) -> (r: bool)
    ensures
        r == (a@ == b@),
{
    let alen: usize = a.unicode_len();
    let blen: usize = b.unicode_len();
    if alen != blen {
        return false;
    }
    let mut i: usize = 0;
    while i < alen
        invariant
            i <= alen,
            alen == a@.len(),
            alen == b@.len(),
            forall|j: int| 0 <= j < i ==> a@[j] == b@[j],
        decreases alen - i,
    {
        if a.get_char(i) != b.get_char(i) {
            return false;
        }
        i = i + 1;
    }
    proof {
        assert(a@ =~= b@);
    }
    true
}

/// Whether the name is one of the container's special metadata entries.
pub fn is_special_name(name: &str) -> (r: bool)
    ensures
        r == is_special(name@),
{
    if str_eq(name, "(listfile)") {
        return true;
    }
    if str_eq(name, "(attributes)") {
        return true;
    }
    if str_eq(name, "(signature)") {
        return true;
    }
    str_eq(name, "(user data)")
}

/// Whether the path names an archive container, by its suffix.
pub open spec fn has_archive_suffix(s: Seq<char>) -> bool {
    s.len() >= 4 && (s.subrange(s.len() - 4, s.len() as int) == ".mpq"@ || s.subrange(
        s.len() - 4,
        s.len() as int,
    ) == ".MPQ"@)
}

/// Whether the path ends in the archive container suffix, either case.
pub fn is_archive_path(path: &str) -> (r: bool)
    ensures
        r == has_archive_suffix(path@),
{
    proof {
        reveal_strlit(".mpq");
        reveal_strlit(".MPQ");
    }
    let len: usize = path.unicode_len();
    if len < 4 {
        return false;
    }
    let dot = path.get_char(len - 4);
    let c1 = path.get_char(len - 3);
    let c2 = path.get_char(len - 2);
    let c3 = path.get_char(len - 1);
    proof {
        assert(path@.subrange(len - 4, len as int) =~= seq![dot, c1, c2, c3]);
    }
    if dot != '.' {
        return false;
    }
    let lower = c1 == 'm' && c2 == 'p' && c3 == 'q';
    let upper = c1 == 'M' && c2 == 'P' && c3 == 'Q';
    proof {
        if lower {
            assert(path@.subrange(len - 4, len as int) =~= ".mpq"@);
        }
        if upper {
            assert(path@.subrange(len - 4, len as int) =~= ".MPQ"@);
        }
    }
    lower || upper
}

/// The index of the first terminator byte, or the whole length when there is
/// none.
pub open spec fn terminator_pos(buf: Seq<u8>) -> int
    decreases buf.len(),
{
    if buf.len() == 0 || buf[0] == 0 {
        0
    } else {
        1 + terminator_pos(buf.skip(1))
    }
}

/// The raw bytes before the first terminator, decoded one byte to one
/// character, as an archive search reports an entry name.
pub open spec fn decoded_name(buf: Seq<u8>) -> Seq<char> {
    buf.take(terminator_pos(buf)).map_values(|b: u8| b as char)
}

/// The first terminator is at the only index with no terminator before it
/// that holds one or ends the buffer.
proof fn lemma_terminator_at(buf: Seq<u8>, i: int)
    requires
        0 <= i <= buf.len(),
        forall|j: int| 0 <= j < i ==> buf[j] != 0,
        i == buf.len() || buf[i] == 0,
    ensures
        terminator_pos(buf) == i,
    decreases i,
{
    if i == 0 {
    } else {
        assert(buf[0] != 0);
        let tail = buf.skip(1);
        assert(forall|j: int| 0 <= j < i - 1 ==> tail[j] == buf[j + 1] && tail[j] != 0);
        if i - 1 < tail.len() {
            assert(tail[i - 1] == buf[i]);
        }
        lemma_terminator_at(tail, i - 1);
    }
}

/// The entry name held in a search result's raw buffer: the bytes before the
/// first terminator, each read as one character.
pub fn name_from_buffer(buf: &Vec<u8>) -> (r: String)
    ensures
        r@ == decoded_name(buf@),
{
    let mut r = String::new();
    let mut i: usize = 0;
    let len: usize = buf.len();
    while i < len
        invariant
            i <= len,
            len == buf@.len(),
            forall|j: int| 0 <= j < i ==> buf@[j] != 0,
            r@ == buf@.take(i as int).map_values(|b: u8| b as char),
        decreases len - i,
    {
        let b = buf[i];
        if b == 0 {
            proof {
                lemma_terminator_at(buf@, i as int);
            }
            return r;
        }
        push_char(&mut r, b as char);
        proof {
            assert(buf@.take(i + 1).map_values(|x: u8| x as char) =~= buf@.take(
                i as int,
            ).map_values(|x: u8| x as char).push(b as char));
        }
        i = i + 1;
    }
    proof {
        lemma_terminator_at(buf@, len as int);
    }
    r
}

/// The 64-bit fingerprint rebuilt from the two 32-bit halves the store keeps.
pub fn fingerprint_from_parts(high: u32, low: u32) -> (r: u64)
    ensures
        r == (high as u64) * 0x1_0000_0000 + (low as u64),
{
    (high as u64) * 0x1_0000_0000 + (low as u64)
}

} // verus!
