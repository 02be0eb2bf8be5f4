//! Byte-level scanners shared by the block scanner and the item grammar.
use vstd::prelude::*;

verus! {

pub const NEWLINE: u8 = 10;

pub const SPACE: u8 = 32;

/// Classes of bytes that the grammar reads in runs.
#[derive(Clone, Copy, Debug)]
pub enum ByteClass {
    /// ASCII letters and the underscore.
    Ident,
    /// Identifier bytes and `=`, `{`, `}`, `[`, `]`.
    Param,
    /// The space alone.
    Space,
    /// Space and tab.
    Blank,
    /// Space, tab, carriage return and line feed.
    Multispace,
    /// The line feed alone.
    Newline,
    /// Anything but a line feed.
    NotNewline,
    /// Space and line feed.
    SpaceOrNewline,
    /// The full stop.
    Dot,
}

pub open spec fn is_ident_byte(b: u8) -> bool {
    (0x41 <= b <= 0x5a) || (0x61 <= b <= 0x7a) || b == 0x5f
}

pub open spec fn is_param_byte(b: u8) -> bool {
    is_ident_byte(b) || b == 0x3d || b == 0x7b || b == 0x7d || b == 0x5b || b == 0x5d
}

pub open spec fn in_class(c: ByteClass, b: u8) -> bool {
    match c {
        ByteClass::Ident => is_ident_byte(b),
        ByteClass::Param => is_param_byte(b),
        ByteClass::Space => b == SPACE,
        ByteClass::Blank => b == SPACE || b == 9,
        ByteClass::Multispace => b == SPACE || b == 9 || b == 13 || b == NEWLINE,
        ByteClass::Newline => b == NEWLINE,
        ByteClass::NotNewline => b != NEWLINE,
        ByteClass::SpaceOrNewline => b == SPACE || b == NEWLINE,
        ByteClass::Dot => b == 0x2e,
    }
}

/// Checks for an identifier byte: `[A-Za-z_]`.
pub fn is_ident(b: u8) -> (r: bool)
    ensures
        r == is_ident_byte(b),
{
    (0x41 <= b && b <= 0x5a) || (0x61 <= b && b <= 0x7a) || b == 0x5f
}

/// Checks for a parameter byte: an identifier byte or one of `=`, `{`, `}`, `[`, `]`.
pub fn is_func_param(b: u8) -> (r: bool)
    ensures
        r == is_param_byte(b),
{
    is_ident(b) || b == 0x3d || b == 0x7b || b == 0x7d || b == 0x5b || b == 0x5d
}

pub fn byte_in_class(c: ByteClass, b: u8) -> (r: bool)
    ensures
        r == in_class(c, b),
{
    match c {
        ByteClass::Ident => is_ident(b),
        ByteClass::Param => is_func_param(b),
        ByteClass::Space => b == SPACE,
        ByteClass::Blank => b == SPACE || b == 9,
        ByteClass::Multispace => b == SPACE || b == 9 || b == 13 || b == NEWLINE,
        ByteClass::Newline => b == NEWLINE,
        ByteClass::NotNewline => b != NEWLINE,
        ByteClass::SpaceOrNewline => b == SPACE || b == NEWLINE,
        ByteClass::Dot => b == 0x2e,
    }
}

/// The end of the maximal run of bytes of class `c` that starts at `i`.
pub open spec fn run_end(s: Seq<u8>, c: ByteClass, i: int) -> int
    decreases s.len() - i,
{
    if 0 <= i < s.len() && in_class(c, s[i]) {
        run_end(s, c, i + 1)
    } else {
        i
    }
}

pub proof fn lemma_run_end(s: Seq<u8>, c: ByteClass, i: int)
    requires
        0 <= i <= s.len(),
    ensures
        i <= run_end(s, c, i) <= s.len(),
        forall|k: int| i <= k < run_end(s, c, i) ==> in_class(c, #[trigger] s[k]),
        run_end(s, c, i) < s.len() ==> !in_class(c, s[run_end(s, c, i)]),
    decreases s.len() - i,
{
    if i < s.len() && in_class(c, s[i]) {
        lemma_run_end(s, c, i + 1);
    }
}

/// A run is determined by where its bytes stop belonging to the class.
pub proof fn lemma_run_end_at(s: Seq<u8>, c: ByteClass, i: int, e: int)
    requires
        0 <= i <= e <= s.len(),
        forall|k: int| i <= k < e ==> in_class(c, #[trigger] s[k]),
        e < s.len() ==> !in_class(c, s[e]),
    ensures
        run_end(s, c, i) == e,
    decreases e - i,
{
    if i < e {
        lemma_run_end_at(s, c, i + 1, e);
    }
}

/// Skips the run of bytes of class `c` that starts at `i`.
pub fn skip_run(s: &[u8], c: ByteClass, i: usize) -> (r: usize)
    requires
        i <= s@.len(),
    ensures
        r == run_end(s@, c, i as int),
        i <= r <= s@.len() <= usize::MAX,
{
    let mut j = i;
    while j < s.len() && byte_in_class(c, s[j])
        invariant
            i <= j <= s@.len(),
            run_end(s@, c, j as int) == run_end(s@, c, i as int),
        decreases s@.len() - j,
    {
        j = j + 1;
    }
    proof {
        lemma_run_end(s@, c, i as int);
    }
    j
}

/// An identifier at `i`: a non-empty run of identifier bytes. Gives where it ends.
pub fn ident(s: &[u8], i: usize) -> (r: Option<usize>)
    requires
        i <= s@.len(),
    ensures
        match r {
            Some(e) => e == run_end(s@, ByteClass::Ident, i as int) && i < e <= s@.len(),
            None => run_end(s@, ByteClass::Ident, i as int) == i,
        },
{
    let e = skip_run(s, ByteClass::Ident, i);
    if e > i {
        Some(e)
    } else {
        None
    }
}

/// The position of the first line feed at or after `i`, or the length.
pub open spec fn line_end(s: Seq<u8>, i: int) -> int {
    run_end(s, ByteClass::NotNewline, i)
}

/// Where the line that starts at `i` ends, past its line feed if it has one.
pub open spec fn after_line(s: Seq<u8>, i: int) -> int {
    if line_end(s, i) < s.len() {
        line_end(s, i) + 1
    } else {
        line_end(s, i)
    }
}

pub open spec fn tag_at(s: Seq<u8>, i: int, t: Seq<u8>) -> bool {
    0 <= i && i + t.len() <= s.len() && s.subrange(i, i + t.len()) == t
}

/// Whether the bytes of `t` stand in `s` at `i`.
pub fn has_tag(s: &[u8], i: usize, t: &[u8]) -> (r: bool)
    requires
        i <= s@.len(),
    ensures
        r == tag_at(s@, i as int, t@),
        r ==> i + t@.len() <= s@.len() <= usize::MAX,
{
    if t.len() > s.len() - i {
        return false;
    }
    let mut k: usize = 0;
    while k < t.len()
        invariant
            k <= t@.len(),
            i <= s@.len(),
            i + t@.len() <= s@.len(),
            s@.len() <= usize::MAX,
            forall|m: int| 0 <= m < k ==> s@[i + m] == t@[m],
        decreases t@.len() - k,
    {
        if s[i + k] != t[k] {
            assert(s@.subrange(i as int, i + t@.len())[k as int] != t@[k as int]);
            return false;
        }
        k = k + 1;
    }
    assert(s@.subrange(i as int, i + t@.len()) =~= t@);
    true
}

/// The first position at or after `i` where `t` stands, or -1.
pub open spec fn find_from(s: Seq<u8>, t: Seq<u8>, i: int) -> int
    decreases s.len() + 1 - i,
{
    if i < 0 || i + t.len() > s.len() {
        -1
    } else if tag_at(s, i, t) {
        i
    } else {
        find_from(s, t, i + 1)
    }
}

pub proof fn lemma_find_from(s: Seq<u8>, t: Seq<u8>, i: int)
    requires
        0 <= i,
    ensures
        find_from(s, t, i) == -1 || (i <= find_from(s, t, i) && find_from(s, t, i) + t.len()
            <= s.len() && tag_at(s, find_from(s, t, i), t)),
    decreases s.len() + 1 - i,
{
    if i + t.len() <= s.len() && !tag_at(s, i, t) {
        lemma_find_from(s, t, i + 1);
    }
}

/// Finds the first position at or after `i` where `t` stands.
pub fn find_tag(s: &[u8], t: &[u8], i: usize) -> (r: Option<usize>)
    requires
        i <= s@.len(),
    ensures
        match r {
            Some(j) => j as int == find_from(s@, t@, i as int) && i <= j && j + t@.len()
                <= s@.len() <= usize::MAX,
            None => find_from(s@, t@, i as int) == -1,
        },
{
    if t.len() == 0 && i <= s.len() {
        assert(s@.subrange(i as int, i as int) =~= t@);
        return Some(i);
    }
    let mut j = i;
    while t.len() <= s.len() - j
        invariant
            i <= j <= s@.len(),
            t@.len() > 0,
            find_from(s@, t@, j as int) == find_from(s@, t@, i as int),
        decreases s@.len() + 1 - j,
    {
        if has_tag(s, j, t) {
            return Some(j);
        }
        j = j + 1;
    }
    None
}

} // verus!
