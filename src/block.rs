//! The indentation block scanner and the blank-line helpers that bound bodies.
use vstd::prelude::*;
use crate::lexical::{
    ByteClass, NEWLINE, SPACE, find_from, find_tag, in_class, lemma_find_from, lemma_run_end,
    lemma_run_end_at, line_end, run_end, skip_run,
};

verus! {

/// Where the block that starts scanning at `i` ends, for reference indentation `indent`.
///
/// The text up to the first line feed belongs to the block. After that, each line
/// is looked at in turn: a line of spaces alone, or an empty one, never ends the
/// block; the first other line whose leading spaces number `indent` or fewer ends
/// it, just before those spaces. Without such a line the block runs to the end.
pub open spec fn block_end(s: Seq<u8>, i: int, indent: int) -> int
    decreases s.len() - i,
{
    let j = line_end(s, i);
    if i < 0 || j < i || j >= s.len() {
        s.len() as int
    } else {
        let ls = j + 1;
        let k = run_end(s, ByteClass::Space, ls);
        if k < s.len() && s[k] != NEWLINE && k - ls <= indent {
            ls
        } else {
            block_end(s, ls, indent)
        }
    }
}

pub proof fn lemma_block_end(s: Seq<u8>, i: int, indent: int)
    requires
        0 <= i <= s.len(),
    ensures
        i <= block_end(s, i, indent) <= s.len(),
        i < s.len() ==> i < block_end(s, i, indent),
    decreases s.len() - i,
{
    lemma_run_end(s, ByteClass::NotNewline, i);
    let j = line_end(s, i);
    if j < s.len() {
        lemma_run_end(s, ByteClass::Space, j + 1);
        lemma_block_end(s, j + 1, indent);
    }
}

/// Scans one indentation block: returns where it ends (see `block_end`).
pub fn scan_block(s: &[u8], i: usize, indent: usize) -> (r: usize)
    requires
        i <= s@.len(),
    ensures
        r == block_end(s@, i as int, indent as int),
        i <= r <= s@.len(),
        i < s@.len() ==> i < r,
{
    proof {
        lemma_block_end(s@, i as int, indent as int);
    }
    let mut p = i;
    loop
        invariant
            i <= p <= s@.len(),
            block_end(s@, p as int, indent as int) == block_end(s@, i as int, indent as int),
        decreases s@.len() - p,
    {
        let j = skip_run(s, ByteClass::NotNewline, p);
        if j >= s.len() {
            return s.len();
        }
        let ls = j + 1;
        let k = skip_run(s, ByteClass::Space, ls);
        if k < s.len() && s[k] != NEWLINE && k - ls <= indent {
            return ls;
        }
        p = ls;
    }
}

/// `n` spaces.
pub open spec fn spaces(n: nat) -> Seq<u8> {
    Seq::new(n, |k: int| SPACE)
}

/// Lines indented by `n` spaces, each holding one of `cs` and ending in a line feed.
pub open spec fn indented_lines(n: nat, cs: Seq<Seq<u8>>) -> Seq<u8>
    decreases cs.len(),
{
    if cs.len() == 0 {
        seq![]
    } else {
        spaces(n) + cs[0] + seq![NEWLINE] + indented_lines(n, cs.drop_first())
    }
}

/// Text that can follow an indentation: not empty, starting with neither a space
/// nor a line feed, and holding no line feed.
pub open spec fn line_text(c: Seq<u8>) -> bool {
    c.len() > 0 && c[0] != SPACE && c[0] != NEWLINE && forall|k: int|
        0 <= k < c.len() ==> #[trigger] c[k] != NEWLINE
}

pub proof fn lemma_block_over_lines(s: Seq<u8>, i: int, indent: nat, cs: Seq<Seq<u8>>, m: Seq<u8>)
    requires
        0 <= i < s.len(),
        s[i] == NEWLINE,
        forall|k: int| 0 <= k < cs.len() ==> line_text(#[trigger] cs[k]),
        m.len() > 0 && m[0] != SPACE && m[0] != NEWLINE,
        s.subrange(i + 1, s.len() as int) == indented_lines(indent + 1, cs) + spaces(indent)
            + m,
    ensures
        block_end(s, i, indent as int) == i + 1 + indented_lines(indent + 1, cs).len(),
    decreases cs.len(),
{
    let rest = s.subrange(i + 1, s.len() as int);
    assert(rest.len() == indented_lines(indent + 1, cs).len() + indent + m.len());
    lemma_run_end_at(s, ByteClass::NotNewline, i, i);
    let ls = i + 1;
    if cs.len() == 0 {
        assert(indented_lines(indent + 1, cs) =~= seq![]);
        assert forall|k: int| ls <= k < ls + indent implies in_class(
            ByteClass::Space,
            #[trigger] s[k],
        ) by {
            assert(s[k] == rest[k - ls]);
        }
        assert(s[ls + indent] == rest[indent as int]);
        assert(rest[indent as int] == m[0]);
        lemma_run_end_at(s, ByteClass::Space, ls, ls + indent);
    } else {
        let c = cs[0];
        let tail = indented_lines(indent + 1, cs.drop_first());
        let w = indent + 1;
        assert(indented_lines(indent + 1, cs) == spaces(w) + c + seq![NEWLINE] + tail);
        assert(indented_lines(indent + 1, cs).len() == w + c.len() + 1 + tail.len());
        assert forall|k: int| ls <= k < ls + w implies in_class(
            ByteClass::Space,
            #[trigger] s[k],
        ) by {
            assert(s[k] == rest[k - ls]);
        }
        assert(s[ls + w] == rest[w as int]);
        assert(rest[w as int] == c[0]);
        lemma_run_end_at(s, ByteClass::Space, ls, ls + w);
        let nl = ls + w + c.len();
        assert forall|k: int| ls <= k < nl implies in_class(
            ByteClass::NotNewline,
            #[trigger] s[k],
        ) by {
            assert(s[k] == rest[k - ls]);
            if k >= ls + w {
                assert(rest[k - ls] == c[k - ls - w]);
            }
        }
        assert(s[nl] == rest[nl - ls]);
        lemma_run_end_at(s, ByteClass::NotNewline, ls, nl);
        let pre = spaces(w) + c + seq![NEWLINE];
        let post = tail + spaces(indent) + m;
        assert(rest =~= pre + post);
        assert(s.subrange(nl + 1, s.len() as int) =~= rest.subrange(
            pre.len() as int,
            rest.len() as int,
        ));
        assert(rest.subrange(pre.len() as int, rest.len() as int) =~= post);
        lemma_run_end_at(s, ByteClass::NotNewline, nl, nl);
        assert(block_end(s, ls, indent as int) == block_end(s, nl, indent as int));
        lemma_block_over_lines(s, nl, indent, cs.drop_first(), m);
    }
}

/// Block boundary: after a header line, lines indented one space deeper than
/// the reference indentation all belong to the block, and the first line
/// indented exactly at the reference ends it and stays in the tail.
pub proof fn law_block_boundary(indent: nat, cs: Seq<Seq<u8>>, m: Seq<u8>)
    requires
        forall|k: int| 0 <= k < cs.len() ==> line_text(#[trigger] cs[k]),
        line_text(m),
    ensures
        ({
            let s = seq![NEWLINE] + indented_lines(indent + 1, cs) + spaces(indent) + m;
            let e = block_end(s, 0, indent as int);
            &&& s.subrange(0, e) == seq![NEWLINE] + indented_lines(indent + 1, cs)
            &&& s.subrange(e, s.len() as int) == spaces(indent) + m
        }),
{
    let s = seq![NEWLINE] + indented_lines(indent + 1, cs) + spaces(indent) + m;
    assert(s.subrange(1, s.len() as int) =~= indented_lines(indent + 1, cs) + spaces(indent)
        + m);
    lemma_block_over_lines(s, 0, indent, cs, m);
    let e = block_end(s, 0, indent as int);
    assert(s.subrange(0, e) =~= seq![NEWLINE] + indented_lines(indent + 1, cs));
    assert(s.subrange(e, s.len() as int) =~= spaces(indent) + m);
}

} // verus!

verus! {

/// The largest position in `[a, e)` that holds a line feed, or `a`.
pub open spec fn last_newline(s: Seq<u8>, a: int, e: int) -> int
    decreases e - a,
{
    if e <= a {
        a
    } else if s[e - 1] == NEWLINE {
        e - 1
    } else {
        last_newline(s, a, e - 1)
    }
}

/// Skips the blank lines that follow a line feed at `h`, stopping at the line feed
/// that ends the last of them; all of it when only blank text remains.
pub open spec fn skip_blank_lines(s: Seq<u8>, h: int) -> int {
    if 0 <= h < s.len() && s[h] == NEWLINE {
        let e = run_end(s, ByteClass::SpaceOrNewline, h);
        if e >= s.len() {
            s.len() as int
        } else {
            last_newline(s, h, e)
        }
    } else {
        h
    }
}

pub proof fn lemma_last_newline(s: Seq<u8>, a: int, e: int)
    requires
        0 <= a <= e <= s.len(),
    ensures
        a <= last_newline(s, a, e) <= e,
        last_newline(s, a, e) < e || a == e,
    decreases e - a,
{
    if e > a && s[e - 1] != NEWLINE {
        lemma_last_newline(s, a, e - 1);
    }
}

pub proof fn lemma_skip_blank_lines(s: Seq<u8>, h: int)
    requires
        0 <= h <= s.len(),
    ensures
        h <= skip_blank_lines(s, h) <= s.len(),
{
    if 0 <= h < s.len() && s[h] == NEWLINE {
        lemma_run_end(s, ByteClass::SpaceOrNewline, h);
        let e = run_end(s, ByteClass::SpaceOrNewline, h);
        if e < s.len() {
            lemma_last_newline(s, h, e);
        }
    }
}

/// Skips the blank lines after a header (see `skip_blank_lines`).
pub fn emptyline(s: &[u8], h: usize) -> (r: usize)
    requires
        h <= s@.len(),
    ensures
        r == skip_blank_lines(s@, h as int),
        h <= r <= s@.len(),
{
    proof {
        lemma_skip_blank_lines(s@, h as int);
    }
    if h < s.len() && s[h] == NEWLINE {
        let e = skip_run(s, ByteClass::SpaceOrNewline, h);
        if e >= s.len() {
            return s.len();
        }
        let mut k = e;
        while k > h && s[k - 1] != NEWLINE
            invariant
                h <= k <= e,
                e < s@.len(),
                last_newline(s@, h as int, k as int) == last_newline(s@, h as int, e as int),
            decreases k,
        {
            k = k - 1;
        }
        if k > h {
            k - 1
        } else {
            h
        }
    } else {
        h
    }
}

/// The start of the line that holds position `k`, looking no further back than `a`.
pub open spec fn back_to_line_start(s: Seq<u8>, a: int, k: int) -> int
    decreases k - a,
{
    if k <= a {
        a
    } else if s[k] == NEWLINE {
        k
    } else {
        back_to_line_start(s, a, k - 1)
    }
}

/// The keyword that opens a function header.
pub open spec fn kw_def() -> Seq<u8> {
    seq![100u8, 101, 102]
}

/// Skips forward to the line feed before the first line that mentions `def`;
/// stays at `a` where no such line follows.
pub open spec fn skip_to_def_line(s: Seq<u8>, a: int) -> int {
    let d = find_from(s, kw_def(), a);
    if d < 0 {
        a
    } else {
        back_to_line_start(s, a, d)
    }
}

pub proof fn lemma_back_to_line_start(s: Seq<u8>, a: int, k: int)
    requires
        0 <= a <= k,
    ensures
        a <= back_to_line_start(s, a, k) <= k,
    decreases k - a,
{
    if k > a && s[k] != NEWLINE {
        lemma_back_to_line_start(s, a, k - 1);
    }
}

pub proof fn lemma_skip_to_def_line(s: Seq<u8>, a: int)
    requires
        0 <= a <= s.len(),
    ensures
        a <= skip_to_def_line(s, a) <= s.len(),
{
    lemma_find_from(s, kw_def(), a);
    let d = find_from(s, kw_def(), a);
    if d >= 0 {
        lemma_back_to_line_start(s, a, d);
    }
}

/// Skips to the line before the first one that mentions `def` (see `skip_to_def_line`).
pub fn take_until_def_line(s: &[u8], a: usize) -> (r: usize)
    requires
        a <= s@.len(),
    ensures
        r == skip_to_def_line(s@, a as int),
        a <= r <= s@.len(),
{
    proof {
        lemma_skip_to_def_line(s@, a as int);
    }
    let kw: [u8; 3] = [100, 101, 102];
    assert(kw@ =~= kw_def());
    match find_tag(s, kw.as_slice(), a) {
        None => a,
        Some(d) => {
            let mut k = d;
            while k > a && s[k] != NEWLINE
                invariant
                    a <= k <= d,
                    d < s@.len(),
                    back_to_line_start(s@, a as int, k as int) == back_to_line_start(
                        s@,
                        a as int,
                        d as int,
                    ),
                decreases k,
            {
                k = k - 1;
            }
            k
        },
    }
}

/// The number of spaces in the run of spaces and line feeds that starts at `i`.
pub open spec fn lead_indent(s: Seq<u8>, i: int) -> int
    decreases s.len() - i,
{
    if 0 <= i < s.len() && (s[i] == SPACE || s[i] == NEWLINE) {
        (if s[i] == SPACE {
            1int
        } else {
            0int
        }) + lead_indent(s, i + 1)
    } else {
        0
    }
}

/// Counts the spaces before the next line's text (see `lead_indent`).
pub fn leading_indent(s: &[u8], i: usize) -> (r: usize)
    requires
        i <= s@.len(),
    ensures
        r == lead_indent(s@, i as int),
{
    let mut j = i;
    let mut count: usize = 0;
    while j < s.len() && (s[j] == SPACE || s[j] == NEWLINE)
        invariant
            i <= j <= s@.len(),
            count <= j - i,
            count + lead_indent(s@, j as int) == lead_indent(s@, i as int),
        decreases s@.len() - j,
    {
        if s[j] == SPACE {
            count = count + 1;
        }
        j = j + 1;
    }
    count
}

} // verus!
