//! The item grammar, stated over byte positions: each alternative says whether it
//! matches at a position, which spans of the text it reads, and where it stops.
use vstd::prelude::*;
use crate::block::{
    block_end, kw_def, lead_indent, lemma_block_end, lemma_skip_blank_lines,
    lemma_skip_to_def_line, skip_blank_lines, skip_to_def_line,
};
use crate::lexical::{
    ByteClass, after_line, find_from, lemma_find_from, lemma_run_end, line_end, run_end,
    tag_at,
};

verus! {

/// A span of the source: its start and end positions.
pub type Span = (int, int);

/// A function header as the grammar reads it.
pub struct RawFn {
    pub name: Span,
    pub description: Option<Span>,
    pub parameters: Seq<Span>,
}

/// One unit of source as the grammar reads it, before its spans become text.
pub enum RawItem {
    Import { path: Span },
    ImportFrom { module: Span, name: Span, level: nat },
    Shebang { path: Span },
    Module { description: Option<Span> },
    Class { name: Span, description: Option<Span>, parents: Seq<Span>, methods: Seq<RawFn> },
    Function { func: RawFn },
    Code { code: Span },
}

pub open spec fn kw_shebang() -> Seq<u8> {
    seq![35u8, 33]
}

pub open spec fn kw_import() -> Seq<u8> {
    seq![105u8, 109, 112, 111, 114, 116]
}

pub open spec fn kw_from() -> Seq<u8> {
    seq![102u8, 114, 111, 109]
}

/// ` import`, the marker that ends the module path of an import-from.
pub open spec fn kw_sp_import() -> Seq<u8> {
    seq![32u8, 105, 109, 112, 111, 114, 116]
}

pub open spec fn kw_class() -> Seq<u8> {
    seq![99u8, 108, 97, 115, 115]
}

pub open spec fn kw_close() -> Seq<u8> {
    seq![41u8, 58]
}

pub open spec fn triple_double() -> Seq<u8> {
    seq![34u8, 34, 34]
}

pub open spec fn triple_single() -> Seq<u8> {
    seq![39u8, 39, 39]
}

pub const LPAREN: u8 = 40;

pub const RPAREN: u8 = 41;

pub const COMMA: u8 = 44;

pub const COLON: u8 = 58;

pub const AT: u8 = 64;

pub open spec fn byte_at(s: Seq<u8>, i: int, b: u8) -> bool {
    0 <= i < s.len() && s[i] == b
}

pub open spec fn skip_newlines(s: Seq<u8>, i: int) -> int {
    run_end(s, ByteClass::Newline, i)
}

pub open spec fn skip_ws(s: Seq<u8>, i: int) -> int {
    run_end(s, ByteClass::Multispace, i)
}

/// A keyword at the start of a line (after blank lines), followed by spaces or
/// tabs and then the rest of the line: the span of that rest and where it ends.
pub open spec fn keyword_line(s: Seq<u8>, p: int, kw: Seq<u8>) -> Option<(Span, int)> {
    let a = skip_newlines(s, p);
    let b = a + kw.len();
    let c = run_end(s, ByteClass::Blank, b);
    if tag_at(s, a, kw) && c > b {
        Some(((c, line_end(s, c)), after_line(s, c)))
    } else {
        None
    }
}

pub open spec fn shebang_at(s: Seq<u8>, p: int) -> Option<(RawItem, int)> {
    match keyword_line(s, p, kw_shebang()) {
        Some((path, q)) => Some((RawItem::Shebang { path }, q)),
        None => None,
    }
}

pub open spec fn import_at(s: Seq<u8>, p: int) -> Option<(RawItem, int)> {
    match keyword_line(s, p, kw_import()) {
        Some((path, q)) => Some((RawItem::Import { path }, q)),
        None => None,
    }
}

/// `from <module> import <name>`: the leading dots of the module give the level
/// and are left out of its span.
pub open spec fn import_from_at(s: Seq<u8>, p: int) -> Option<(RawItem, int)> {
    let a = skip_newlines(s, p);
    let b = a + 4;
    let c = run_end(s, ByteClass::Blank, b);
    let m = find_from(s, kw_sp_import(), c);
    let d = m + 7;
    let e = run_end(s, ByteClass::Blank, d);
    let dots = run_end(s, ByteClass::Dot, c);
    if tag_at(s, a, kw_from()) && c > b && m >= 0 && e > d && dots <= m {
        Some(
            (
                RawItem::ImportFrom {
                    module: (dots, m),
                    name: (e, line_end(s, e)),
                    level: (dots - c) as nat,
                },
                after_line(s, e),
            ),
        )
    } else {
        None
    }
}

/// A doc-string: optional white space, then text between two triple quotes of
/// the same kind. Gives the span between the quotes and where the closing ones end.
pub open spec fn doc_string_at(s: Seq<u8>, i: int) -> Option<(Span, int)> {
    let a = skip_ws(s, i);
    let ed = find_from(s, triple_double(), a + 3);
    let es = find_from(s, triple_single(), a + 3);
    if tag_at(s, a, triple_double()) && ed >= 0 {
        Some(((a + 3, ed), ed + 3))
    } else if tag_at(s, a, triple_single()) && es >= 0 {
        Some(((a + 3, es), es + 3))
    } else {
        None
    }
}

/// The rest of a comma-separated list after an element that ends at `i`; white
/// space may stand around each comma. A comma not followed by an element is
/// left unread.
pub open spec fn list_rest(s: Seq<u8>, c: ByteClass, i: int, acc: Seq<Span>) -> (Seq<Span>, int)
    decreases s.len() - i,
{
    let j = skip_ws(s, i);
    let k = skip_ws(s, j + 1);
    let e = run_end(s, c, k);
    if byte_at(s, j, COMMA) && e > k && i < e <= s.len() {
        list_rest(s, c, e, acc.push((k, e)))
    } else {
        (acc, i)
    }
}

/// A comma-separated list of runs of class `c`, possibly empty.
pub open spec fn list_at(s: Seq<u8>, c: ByteClass, h: int) -> (Seq<Span>, int) {
    let e = run_end(s, c, h);
    if e > h {
        list_rest(s, c, e, seq![(h, e)])
    } else {
        (seq![], h)
    }
}

/// A parenthesised list of parent names.
pub open spec fn parents_at(s: Seq<u8>, e: int) -> Option<(Seq<Span>, int)> {
    let h = skip_ws(s, e + 1);
    let l = list_at(s, ByteClass::Ident, h);
    let j = skip_ws(s, l.1);
    if byte_at(s, e, LPAREN) && byte_at(s, j, RPAREN) {
        Some((l.0, j + 1))
    } else {
        None
    }
}

/// One decorator line, after optional spaces: where it ends.
pub open spec fn decorator_at(s: Seq<u8>, c: int) -> Option<int> {
    let d = run_end(s, ByteClass::Space, c);
    if byte_at(s, d, AT) {
        Some(after_line(s, d + 1))
    } else {
        None
    }
}

/// Where a run of decorator lines that starts at `c` ends.
pub open spec fn decorators_end(s: Seq<u8>, c: int) -> int
    decreases s.len() - c,
{
    match decorator_at(s, c) {
        Some(d) => if c < d <= s.len() {
            decorators_end(s, d)
        } else {
            c
        },
        None => c,
    }
}

/// A function: blank lines, the header's indentation, decorators, `def`, the
/// name, the parameter list (a trailing comma allowed), `):`, an optional
/// doc-string, then the body as far as the block scanner takes it, from the
/// end of the doc-string or, without one, from the end of the header.
pub open spec fn fn_at(s: Seq<u8>, p: int) -> Option<(RawFn, int)> {
    let a = skip_newlines(s, p);
    let b = run_end(s, ByteClass::Space, a);
    let c = run_end(s, ByteClass::Space, decorators_end(s, b));
    let d = c + 3;
    let e = run_end(s, ByteClass::Blank, d);
    let f = run_end(s, ByteClass::Ident, e);
    let g = skip_ws(s, f);
    let l = list_at(s, ByteClass::Param, skip_ws(s, g + 1));
    let j = skip_ws(s, l.1);
    let k = if byte_at(s, j, COMMA) {
        j + 1
    } else {
        j
    };
    let m = skip_ws(s, k);
    let o = m + 2;
    if tag_at(s, c, kw_def()) && e > d && f > e && byte_at(s, g, LPAREN) && tag_at(
        s,
        m,
        kw_close(),
    ) {
        let (description, r) = match doc_string_at(s, o) {
            Some((sp, r)) => (Some(sp), r),
            None => (None, o),
        };
        let q = if r < s.len() {
            block_end(s, r, b - a)
        } else {
            r
        };
        Some((RawFn { name: (e, f), description, parameters: l.0 }, q))
    } else {
        None
    }
}

/// Where an opaque line of a class body ends.
pub open spec fn class_code_end(s: Seq<u8>, i: int) -> int {
    after_line(s, skip_newlines(s, i))
}

/// The methods of a class body that starts at `i`, for the class header's
/// indentation `indent`, and where the body ends: it goes on while the next text
/// is indented deeper than the header, reading functions and opaque lines.
pub open spec fn class_body(s: Seq<u8>, i: int, indent: int) -> (Seq<RawFn>, int)
    decreases s.len() - i,
{
    if i < 0 || i >= s.len() || lead_indent(s, i) <= indent {
        (seq![], i)
    } else {
        match fn_at(s, i) {
            Some((f, j)) => if i < j <= s.len() {
                let rest = class_body(s, j, indent);
                (seq![f] + rest.0, rest.1)
            } else {
                (seq![], i)
            },
            None => {
                let j = class_code_end(s, i);
                if i < j <= s.len() {
                    class_body(s, j, indent)
                } else {
                    (seq![], i)
                }
            },
        }
    }
}

/// A class: blank lines, the header's indentation, `class`, the name, optional
/// parents, `:`, an optional doc-string, then the body, whose opaque lines before
/// the first `def` line are skipped.
pub open spec fn class_at(s: Seq<u8>, p: int) -> Option<(RawItem, int)> {
    let a = skip_newlines(s, p);
    let b = run_end(s, ByteClass::Space, a);
    let c = b + 5;
    let d = run_end(s, ByteClass::Blank, c);
    let e = run_end(s, ByteClass::Ident, d);
    let (parents, f) = match parents_at(s, e) {
        Some(x) => x,
        None => (seq![], e),
    };
    if tag_at(s, b, kw_class()) && d > c && e > d && byte_at(s, f, COLON) {
        let (description, h) = match doc_string_at(s, f + 1) {
            Some((sp, h)) => (Some(sp), h),
            None => (None, f + 1),
        };
        let body = class_body(s, skip_to_def_line(s, skip_blank_lines(s, h)), b - a);
        Some(
            (
                RawItem::Class { name: (d, e), description, parents, methods: body.0 },
                skip_newlines(s, body.1),
            ),
        )
    } else {
        None
    }
}

pub open spec fn function_at(s: Seq<u8>, p: int) -> Option<(RawItem, int)> {
    match fn_at(s, p) {
        Some((func, q)) => Some((RawItem::Function { func }, q)),
        None => None,
    }
}

/// One opaque line after blank lines, and the blank lines after it.
pub open spec fn code_at(s: Seq<u8>, p: int) -> (RawItem, int) {
    let a = skip_newlines(s, p);
    (RawItem::Code { code: (a, line_end(s, a)) }, skip_newlines(s, after_line(s, a)))
}

/// The alternatives in their order: shebang, import, import-from, class,
/// function, and the opaque line that always matches.
pub open spec fn item_at(s: Seq<u8>, p: int) -> (RawItem, int) {
    if shebang_at(s, p) is Some {
        shebang_at(s, p).unwrap()
    } else if import_at(s, p) is Some {
        import_at(s, p).unwrap()
    } else if import_from_at(s, p) is Some {
        import_from_at(s, p).unwrap()
    } else if class_at(s, p) is Some {
        class_at(s, p).unwrap()
    } else if function_at(s, p) is Some {
        function_at(s, p).unwrap()
    } else {
        code_at(s, p)
    }
}

/// The items from `p` to the end, each with the position where it ends.
pub open spec fn items_from(s: Seq<u8>, p: int) -> Seq<(RawItem, int)>
    decreases s.len() - p,
{
    if p < 0 || p >= s.len() {
        seq![]
    } else {
        let (it, q) = item_at(s, p);
        if p < q <= s.len() {
            seq![(it, q)] + items_from(s, q)
        } else {
            seq![]
        }
    }
}

/// The module doc-string: a doc-string at the very start.
pub open spec fn module_doc_at(s: Seq<u8>) -> (RawItem, int) {
    match doc_string_at(s, 0) {
        Some((sp, q)) => (RawItem::Module { description: Some(sp) }, q),
        None => (RawItem::Module { description: None }, 0),
    }
}

/// A whole module: its doc-string item, then the items that follow.
pub open spec fn module_items(s: Seq<u8>) -> Seq<RawItem> {
    let (doc, m) = module_doc_at(s);
    seq![doc] + items_from(s, m).map_values(|x: (RawItem, int)| x.0)
}

} // verus!

verus! {

proof fn lemma_after_line(s: Seq<u8>, i: int)
    requires
        0 <= i <= s.len(),
    ensures
        i <= line_end(s, i) <= after_line(s, i) <= s.len(),
        i < s.len() ==> i < after_line(s, i),
{
    lemma_run_end(s, ByteClass::NotNewline, i);
}

proof fn lemma_keyword_line(s: Seq<u8>, p: int, kw: Seq<u8>)
    requires
        0 <= p <= s.len(),
    ensures
        keyword_line(s, p, kw) matches Some((sp, q)) ==> p < q <= s.len(),
{
    let a = skip_newlines(s, p);
    lemma_run_end(s, ByteClass::Newline, p);
    let b = a + kw.len();
    if tag_at(s, a, kw) {
        lemma_run_end(s, ByteClass::Blank, b);
        let c = run_end(s, ByteClass::Blank, b);
        if c > b {
            lemma_after_line(s, c);
        }
    }
}

proof fn lemma_import_from_at(s: Seq<u8>, p: int)
    requires
        0 <= p <= s.len(),
    ensures
        import_from_at(s, p) matches Some((it, q)) ==> p < q <= s.len(),
{
    let a = skip_newlines(s, p);
    lemma_run_end(s, ByteClass::Newline, p);
    if tag_at(s, a, kw_from()) {
        let b = a + 4;
        lemma_run_end(s, ByteClass::Blank, b);
        let c = run_end(s, ByteClass::Blank, b);
        lemma_find_from(s, kw_sp_import(), c);
        let m = find_from(s, kw_sp_import(), c);
        if c > b && m >= 0 {
            lemma_run_end(s, ByteClass::Blank, m + 7);
            let e = run_end(s, ByteClass::Blank, m + 7);
            lemma_after_line(s, e);
        }
    }
}

proof fn lemma_doc_string_at(s: Seq<u8>, i: int)
    requires
        0 <= i <= s.len(),
    ensures
        doc_string_at(s, i) matches Some((sp, q)) ==> i < q <= s.len() && i <= sp.0 <= sp.1
            <= q,
{
    lemma_run_end(s, ByteClass::Multispace, i);
    let a = skip_ws(s, i);
    lemma_find_from(s, triple_double(), a + 3);
    lemma_find_from(s, triple_single(), a + 3);
}

proof fn lemma_list_rest(s: Seq<u8>, c: ByteClass, i: int, acc: Seq<Span>)
    requires
        0 <= i <= s.len(),
    ensures
        i <= list_rest(s, c, i, acc).1 <= s.len(),
    decreases s.len() - i,
{
    let j = skip_ws(s, i);
    lemma_run_end(s, ByteClass::Multispace, i);
    if 0 <= j < s.len() {
        lemma_run_end(s, ByteClass::Multispace, j + 1);
        let k = skip_ws(s, j + 1);
        lemma_run_end(s, c, k);
        let e = run_end(s, c, k);
        if byte_at(s, j, COMMA) && e > k && i < e <= s.len() {
            lemma_list_rest(s, c, e, acc.push((k, e)));
        }
    }
}

pub proof fn lemma_list_at_bounds(s: Seq<u8>, c: ByteClass, h: int)
    requires
        0 <= h <= s.len(),
    ensures
        h <= list_at(s, c, h).1 <= s.len(),
{
    lemma_run_end(s, c, h);
    let e = run_end(s, c, h);
    if e > h {
        lemma_list_rest(s, c, e, seq![(h, e)]);
    }
}

pub proof fn lemma_parents_at_bounds(s: Seq<u8>, e: int)
    requires
        0 <= e <= s.len(),
    ensures
        parents_at(s, e) matches Some((ps, q)) ==> e < q <= s.len(),
{
    if byte_at(s, e, LPAREN) {
        lemma_run_end(s, ByteClass::Multispace, e + 1);
        let h = skip_ws(s, e + 1);
        lemma_list_at_bounds(s, ByteClass::Ident, h);
        lemma_run_end(s, ByteClass::Multispace, list_at(s, ByteClass::Ident, h).1);
    }
}

pub proof fn lemma_decorators_end_bounds(s: Seq<u8>, c: int)
    requires
        0 <= c <= s.len(),
    ensures
        c <= decorators_end(s, c) <= s.len(),
    decreases s.len() - c,
{
    match decorator_at(s, c) {
        Some(d) => if c < d <= s.len() {
            lemma_decorators_end_bounds(s, d);
        },
        None => {},
    }
}

proof fn lemma_fn_at(s: Seq<u8>, p: int)
    requires
        0 <= p <= s.len(),
    ensures
        fn_at(s, p) matches Some((f, q)) ==> p < q <= s.len(),
{
    let a = skip_newlines(s, p);
    lemma_run_end(s, ByteClass::Newline, p);
    lemma_run_end(s, ByteClass::Space, a);
    let b = run_end(s, ByteClass::Space, a);
    lemma_decorators_end_bounds(s, b);
    lemma_run_end(s, ByteClass::Space, decorators_end(s, b));
    let c = run_end(s, ByteClass::Space, decorators_end(s, b));
    if tag_at(s, c, kw_def()) {
        let d = c + 3;
        lemma_run_end(s, ByteClass::Blank, d);
        let e = run_end(s, ByteClass::Blank, d);
        lemma_run_end(s, ByteClass::Ident, e);
        let f = run_end(s, ByteClass::Ident, e);
        lemma_run_end(s, ByteClass::Multispace, f);
        let g = skip_ws(s, f);
        if byte_at(s, g, LPAREN) {
            lemma_run_end(s, ByteClass::Multispace, g + 1);
            lemma_list_at_bounds(s, ByteClass::Param, skip_ws(s, g + 1));
            let l = list_at(s, ByteClass::Param, skip_ws(s, g + 1));
            lemma_run_end(s, ByteClass::Multispace, l.1);
            let j = skip_ws(s, l.1);
            let k = if byte_at(s, j, COMMA) {
                j + 1
            } else {
                j
            };
            lemma_run_end(s, ByteClass::Multispace, k);
            let m = skip_ws(s, k);
            if tag_at(s, m, kw_close()) {
                let o = m + 2;
                lemma_doc_string_at(s, o);
                let r = match doc_string_at(s, o) {
                    Some((sp, r)) => r,
                    None => o,
                };
                if r < s.len() {
                    lemma_block_end(s, r, b - a);
                }
            }
        }
    }
}

pub proof fn lemma_class_body_bounds(s: Seq<u8>, i: int, indent: int)
    requires
        0 <= i <= s.len(),
    ensures
        i <= class_body(s, i, indent).1 <= s.len(),
    decreases s.len() - i,
{
    if i < s.len() && lead_indent(s, i) > indent {
        match fn_at(s, i) {
            Some((f, j)) => if i < j <= s.len() {
                lemma_class_body_bounds(s, j, indent);
            },
            None => {
                let j = class_code_end(s, i);
                if i < j <= s.len() {
                    lemma_class_body_bounds(s, j, indent);
                }
            },
        }
    }
}

proof fn lemma_class_at(s: Seq<u8>, p: int)
    requires
        0 <= p <= s.len(),
    ensures
        class_at(s, p) matches Some((it, q)) ==> p < q <= s.len(),
{
    let a = skip_newlines(s, p);
    lemma_run_end(s, ByteClass::Newline, p);
    lemma_run_end(s, ByteClass::Space, a);
    let b = run_end(s, ByteClass::Space, a);
    if tag_at(s, b, kw_class()) {
        let c = b + 5;
        lemma_run_end(s, ByteClass::Blank, c);
        let d = run_end(s, ByteClass::Blank, c);
        lemma_run_end(s, ByteClass::Ident, d);
        let e = run_end(s, ByteClass::Ident, d);
        lemma_parents_at_bounds(s, e);
        let f = match parents_at(s, e) {
            Some(x) => x.1,
            None => e,
        };
        if byte_at(s, f, COLON) && d > c && e > d {
            lemma_doc_string_at(s, f + 1);
            let h = match doc_string_at(s, f + 1) {
                Some((sp, h)) => h,
                None => f + 1,
            };
            lemma_skip_blank_lines(s, h);
            lemma_skip_to_def_line(s, skip_blank_lines(s, h));
            let start = skip_to_def_line(s, skip_blank_lines(s, h));
            lemma_class_body_bounds(s, start, b - a);
            lemma_run_end(s, ByteClass::Newline, class_body(s, start, b - a).1);
        }
    }
}

/// Each alternative that the grammar tries at a position before the end takes
/// at least one byte and stays within the input.
pub proof fn lemma_item_at(s: Seq<u8>, p: int)
    requires
        0 <= p < s.len(),
    ensures
        p < item_at(s, p).1 <= s.len(),
{
    lemma_keyword_line(s, p, kw_shebang());
    lemma_keyword_line(s, p, kw_import());
    lemma_import_from_at(s, p);
    lemma_class_at(s, p);
    lemma_fn_at(s, p);
    lemma_run_end(s, ByteClass::Newline, p);
    let a = skip_newlines(s, p);
    lemma_after_line(s, a);
    lemma_run_end(s, ByteClass::Newline, after_line(s, a));
}

pub proof fn lemma_module_doc_at(s: Seq<u8>)
    ensures
        0 <= module_doc_at(s).1 <= s.len(),
{
    lemma_doc_string_at(s, 0);
}

} // verus!
