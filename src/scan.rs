//! Executable scanners for the item grammar: each finds the spans of one
//! alternative and is proved to agree with its statement in `grammar`.
use vstd::prelude::*;
use crate::block::{emptyline, leading_indent, scan_block, take_until_def_line};
use crate::grammar::{
    AT, COLON, COMMA, LPAREN, RPAREN, RawFn, RawItem, Span, class_at, class_body,
    class_code_end, code_at, decorator_at, decorators_end, doc_string_at, fn_at, function_at,
    import_at, import_from_at, item_at, keyword_line, kw_class, kw_close, kw_from, kw_import,
    kw_shebang, kw_sp_import, list_at, list_rest, parents_at, shebang_at, triple_double,
    triple_single,
};
use crate::lexical::{ByteClass, find_tag, has_tag, ident, skip_run};

verus! {

pub type ExecSpan = (usize, usize);

pub open spec fn span_view(sp: ExecSpan) -> Span {
    (sp.0 as int, sp.1 as int)
}

pub open spec fn opt_span_view(sp: Option<ExecSpan>) -> Option<Span> {
    match sp {
        Some(x) => Some(span_view(x)),
        None => None,
    }
}

pub open spec fn spans_view(v: Seq<ExecSpan>) -> Seq<Span> {
    v.map_values(|x: ExecSpan| span_view(x))
}

pub open spec fn span_wf(sp: ExecSpan, n: int) -> bool {
    sp.0 <= sp.1 <= n
}

pub open spec fn opt_span_wf(sp: Option<ExecSpan>, n: int) -> bool {
    sp matches Some(x) ==> span_wf(x, n)
}

pub open spec fn spans_wf(v: Seq<ExecSpan>, n: int) -> bool {
    forall|k: int| 0 <= k < v.len() ==> span_wf(#[trigger] v[k], n)
}

/// The spans of a function header.
pub struct FnSpans {
    pub name: ExecSpan,
    pub description: Option<ExecSpan>,
    pub parameters: Vec<ExecSpan>,
}

impl View for FnSpans {
    type V = RawFn;

    open spec fn view(&self) -> RawFn {
        RawFn {
            name: span_view(self.name),
            description: opt_span_view(self.description),
            parameters: spans_view(self.parameters@),
        }
    }
}

impl FnSpans {
    pub open spec fn wf(&self, n: int) -> bool {
        span_wf(self.name, n) && opt_span_wf(self.description, n) && spans_wf(
            self.parameters@,
            n,
        )
    }
}

pub open spec fn fns_view(v: Seq<FnSpans>) -> Seq<RawFn> {
    v.map_values(|f: FnSpans| f@)
}

/// The spans of one item.
pub enum ItemSpans {
    Import { path: ExecSpan },
    ImportFrom { module: ExecSpan, name: ExecSpan, level: usize },
    Shebang { path: ExecSpan },
    Class {
        name: ExecSpan,
        description: Option<ExecSpan>,
        parents: Vec<ExecSpan>,
        methods: Vec<FnSpans>,
    },
    Function { func: FnSpans },
    Code { code: ExecSpan },
}

impl View for ItemSpans {
    type V = RawItem;

    open spec fn view(&self) -> RawItem {
        match self {
            ItemSpans::Import { path } => RawItem::Import { path: span_view(*path) },
            ItemSpans::ImportFrom { module, name, level } => RawItem::ImportFrom {
                module: span_view(*module),
                name: span_view(*name),
                level: *level as nat,
            },
            ItemSpans::Shebang { path } => RawItem::Shebang { path: span_view(*path) },
            ItemSpans::Class { name, description, parents, methods } => RawItem::Class {
                name: span_view(*name),
                description: opt_span_view(*description),
                parents: spans_view(parents@),
                methods: fns_view(methods@),
            },
            ItemSpans::Function { func } => RawItem::Function { func: func@ },
            ItemSpans::Code { code } => RawItem::Code { code: span_view(*code) },
        }
    }
}

impl ItemSpans {
    pub open spec fn wf(&self, n: int) -> bool {
        match self {
            ItemSpans::Import { path } => span_wf(*path, n),
            ItemSpans::ImportFrom { module, name, .. } => span_wf(*module, n) && span_wf(*name, n),
            ItemSpans::Shebang { path } => span_wf(*path, n),
            ItemSpans::Class { name, description, parents, methods } => span_wf(*name, n)
                && opt_span_wf(*description, n) && spans_wf(parents@, n) && forall|k: int|
                0 <= k < methods@.len() ==> (#[trigger] methods@[k]).wf(n),
            ItemSpans::Function { func } => func.wf(n),
            ItemSpans::Code { code } => span_wf(*code, n),
        }
    }
}

pub open spec fn found_view(r: Option<(ExecSpan, usize)>) -> Option<(Span, int)> {
    match r {
        Some((sp, q)) => Some((span_view(sp), q as int)),
        None => None,
    }
}

pub open spec fn found_ok(r: Option<(ExecSpan, usize)>, p: int, n: int) -> bool {
    r matches Some((sp, q)) ==> p <= sp.0 <= sp.1 <= q <= n
}

/// A keyword line (see `keyword_line`).
pub fn scan_keyword_line(s: &[u8], p: usize, kw: &[u8]) -> (r: Option<(ExecSpan, usize)>)
    requires
        p <= s@.len(),
    ensures
        found_view(r) == keyword_line(s@, p as int, kw@),
        found_ok(r, p as int, s@.len() as int),
{
    let a = skip_run(s, ByteClass::Newline, p);
    if !has_tag(s, a, kw) {
        return None;
    }
    let b = a + kw.len();
    let c = skip_run(s, ByteClass::Blank, b);
    if c <= b {
        return None;
    }
    let e = skip_run(s, ByteClass::NotNewline, c);
    let q = if e < s.len() {
        e + 1
    } else {
        e
    };
    Some(((c, e), q))
}

pub open spec fn item_found_view(r: Option<(ItemSpans, usize)>) -> Option<(RawItem, int)> {
    match r {
        Some((it, q)) => Some((it@, q as int)),
        None => None,
    }
}

pub open spec fn item_found_ok(r: Option<(ItemSpans, usize)>, p: int, n: int) -> bool {
    r matches Some((it, q)) ==> p < q <= n && it.wf(n)
}

pub fn scan_shebang(s: &[u8], p: usize) -> (r: Option<(ItemSpans, usize)>)
    requires
        p <= s@.len(),
    ensures
        item_found_view(r) == shebang_at(s@, p as int),
        item_found_ok(r, p as int, s@.len() as int),
{
    let kw: [u8; 2] = [35, 33];
    assert(kw@ =~= kw_shebang());
    match scan_keyword_line(s, p, kw.as_slice()) {
        Some((path, q)) => Some((ItemSpans::Shebang { path }, q)),
        None => None,
    }
}

pub fn scan_import(s: &[u8], p: usize) -> (r: Option<(ItemSpans, usize)>)
    requires
        p <= s@.len(),
    ensures
        item_found_view(r) == import_at(s@, p as int),
        item_found_ok(r, p as int, s@.len() as int),
{
    let kw: [u8; 6] = [105, 109, 112, 111, 114, 116];
    assert(kw@ =~= kw_import());
    match scan_keyword_line(s, p, kw.as_slice()) {
        Some((path, q)) => Some((ItemSpans::Import { path }, q)),
        None => None,
    }
}

pub fn scan_import_from(s: &[u8], p: usize) -> (r: Option<(ItemSpans, usize)>)
    requires
        p <= s@.len(),
    ensures
        item_found_view(r) == import_from_at(s@, p as int),
        item_found_ok(r, p as int, s@.len() as int),
{
    let kw: [u8; 4] = [102, 114, 111, 109];
    assert(kw@ =~= kw_from());
    let marker: [u8; 7] = [32, 105, 109, 112, 111, 114, 116];
    assert(marker@ =~= kw_sp_import());
    let a = skip_run(s, ByteClass::Newline, p);
    if !has_tag(s, a, kw.as_slice()) {
        return None;
    }
    let b = a + 4;
    let c = skip_run(s, ByteClass::Blank, b);
    if c <= b {
        return None;
    }
    let m = match find_tag(s, marker.as_slice(), c) {
        Some(m) => m,
        None => {
            return None;
        },
    };
    let d = m + 7;
    let e = skip_run(s, ByteClass::Blank, d);
    if e <= d {
        return None;
    }
    let dots = skip_run(s, ByteClass::Dot, c);
    if dots > m {
        return None;
    }
    let end = skip_run(s, ByteClass::NotNewline, e);
    let q = if end < s.len() {
        end + 1
    } else {
        end
    };
    Some((ItemSpans::ImportFrom { module: (dots, m), name: (e, end), level: dots - c }, q))
}

/// A doc-string (see `doc_string_at`).
pub fn scan_doc_string(s: &[u8], i: usize) -> (r: Option<(ExecSpan, usize)>)
    requires
        i <= s@.len(),
    ensures
        found_view(r) == doc_string_at(s@, i as int),
        found_ok(r, i as int, s@.len() as int),
{
    let dq: [u8; 3] = [34, 34, 34];
    assert(dq@ =~= triple_double());
    let sq: [u8; 3] = [39, 39, 39];
    assert(sq@ =~= triple_single());
    let a = skip_run(s, ByteClass::Multispace, i);
    if has_tag(s, a, dq.as_slice()) {
        match find_tag(s, dq.as_slice(), a + 3) {
            Some(e) => {
                return Some(((a + 3, e), e + 3));
            },
            None => {},
        }
    }
    if has_tag(s, a, sq.as_slice()) {
        match find_tag(s, sq.as_slice(), a + 3) {
            Some(e) => {
                return Some(((a + 3, e), e + 3));
            },
            None => {},
        }
    }
    None
}

/// A comma-separated list of runs of class `c` (see `list_at`).
pub fn scan_list(s: &[u8], c: ByteClass, h: usize) -> (r: (Vec<ExecSpan>, usize))
    requires
        h <= s@.len(),
    ensures
        (spans_view(r.0@), r.1 as int) == list_at(s@, c, h as int),
        h <= r.1 <= s@.len(),
        forall|k: int| 0 <= k < r.0@.len() ==> h <= (#[trigger] r.0@[k]).0 <= r.0@[k].1 <= r.1,
{
    let e = skip_run(s, c, h);
    let mut out: Vec<ExecSpan> = Vec::new();
    if e <= h {
        assert(spans_view(out@) =~= seq![]);
        return (out, h);
    }
    out.push((h, e));
    assert(spans_view(out@) =~= seq![(h as int, e as int)]);
    let mut i = e;
    loop
        invariant
            h < i <= s@.len(),
            list_rest(s@, c, i as int, spans_view(out@)) == list_at(s@, c, h as int),
            forall|k: int| 0 <= k < out@.len() ==> h <= (#[trigger] out@[k]).0 <= out@[k].1 <= i,
        decreases s@.len() - i,
    {
        let j = skip_run(s, ByteClass::Multispace, i);
        if !(j < s.len() && s[j] == COMMA) {
            return (out, i);
        }
        let k = skip_run(s, ByteClass::Multispace, j + 1);
        let e2 = skip_run(s, c, k);
        if e2 <= k {
            return (out, i);
        }
        proof {
            assert(spans_view(out@.push((k, e2))) =~= spans_view(out@).push(
                (k as int, e2 as int),
            ));
        }
        out.push((k, e2));
        i = e2;
    }
}

/// A parenthesised list of parent names (see `parents_at`).
pub fn scan_parents(s: &[u8], e: usize) -> (r: Option<(Vec<ExecSpan>, usize)>)
    requires
        e <= s@.len(),
    ensures
        match r {
            Some((ps, q)) => parents_at(s@, e as int) == Some((spans_view(ps@), q as int)) && e
                < q <= s@.len() && spans_wf(ps@, s@.len() as int),
            None => parents_at(s@, e as int) is None,
        },
{
    if !(e < s.len() && s[e] == LPAREN) {
        return None;
    }
    let h = skip_run(s, ByteClass::Multispace, e + 1);
    let (ps, i) = scan_list(s, ByteClass::Ident, h);
    let j = skip_run(s, ByteClass::Multispace, i);
    if j < s.len() && s[j] == RPAREN {
        Some((ps, j + 1))
    } else {
        None
    }
}

/// Where a run of decorator lines ends (see `decorators_end`).
pub fn skip_decorators(s: &[u8], c: usize) -> (r: usize)
    requires
        c <= s@.len(),
    ensures
        r == decorators_end(s@, c as int),
        c <= r <= s@.len(),
{
    let mut i = c;
    loop
        invariant
            c <= i <= s@.len(),
            decorators_end(s@, i as int) == decorators_end(s@, c as int),
        decreases s@.len() - i,
    {
        let d = skip_run(s, ByteClass::Space, i);
        if !(d < s.len() && s[d] == AT) {
            return i;
        }
        let e = skip_run(s, ByteClass::NotNewline, d + 1);
        let next = if e < s.len() {
            e + 1
        } else {
            e
        };
        assert(decorator_at(s@, i as int) == Some(next as int));
        if next <= i {
            return i;
        }
        i = next;
    }
}

pub open spec fn fn_found_view(r: Option<(FnSpans, usize)>) -> Option<(RawFn, int)> {
    match r {
        Some((f, q)) => Some((f@, q as int)),
        None => None,
    }
}

/// A function (see `fn_at`).
pub fn scan_fn(s: &[u8], p: usize) -> (r: Option<(FnSpans, usize)>)
    requires
        p <= s@.len(),
    ensures
        fn_found_view(r) == fn_at(s@, p as int),
        r matches Some((f, q)) ==> p < q <= s@.len() && f.wf(s@.len() as int),
{
    let def: [u8; 3] = [100, 101, 102];
    assert(def@ =~= crate::block::kw_def());
    let close: [u8; 2] = [41, 58];
    assert(close@ =~= kw_close());
    let a = skip_run(s, ByteClass::Newline, p);
    let b = skip_run(s, ByteClass::Space, a);
    let c0 = skip_decorators(s, b);
    let c = skip_run(s, ByteClass::Space, c0);
    if !has_tag(s, c, def.as_slice()) {
        return None;
    }
    let d = c + 3;
    let e = skip_run(s, ByteClass::Blank, d);
    if e <= d {
        return None;
    }
    let f = match ident(s, e) {
        Some(f) => f,
        None => {
            return None;
        },
    };
    let g = skip_run(s, ByteClass::Multispace, f);
    if !(g < s.len() && s[g] == LPAREN) {
        return None;
    }
    let h = skip_run(s, ByteClass::Multispace, g + 1);
    let (params, i) = scan_list(s, ByteClass::Param, h);
    let j = skip_run(s, ByteClass::Multispace, i);
    let k = if j < s.len() && s[j] == COMMA {
        j + 1
    } else {
        j
    };
    let m = skip_run(s, ByteClass::Multispace, k);
    if !has_tag(s, m, close.as_slice()) {
        return None;
    }
    let o = m + 2;
    let (description, r) = match scan_doc_string(s, o) {
        Some((sp, r)) => (Some(sp), r),
        None => (None, o),
    };
    let q = if r < s.len() {
        scan_block(s, r, b - a)
    } else {
        r
    };
    let func = FnSpans { name: (e, f), description, parameters: params };
    assert(func@.parameters == list_at(s@, ByteClass::Param, h as int).0);
    Some((func, q))
}

/// The methods of a class body (see `class_body`).
pub fn scan_class_body(s: &[u8], i: usize, indent: usize) -> (r: (Vec<FnSpans>, usize))
    requires
        i <= s@.len(),
    ensures
        (fns_view(r.0@), r.1 as int) == class_body(s@, i as int, indent as int),
        i <= r.1 <= s@.len(),
        forall|k: int| 0 <= k < r.0@.len() ==> (#[trigger] r.0@[k]).wf(s@.len() as int),
{
    let mut out: Vec<FnSpans> = Vec::new();
    let mut j = i;
    loop
        invariant
            i <= j <= s@.len(),
            fns_view(out@) + class_body(s@, j as int, indent as int).0 == class_body(
                s@,
                i as int,
                indent as int,
            ).0,
            class_body(s@, j as int, indent as int).1 == class_body(s@, i as int, indent as int).1,
            forall|k: int| 0 <= k < out@.len() ==> (#[trigger] out@[k]).wf(s@.len() as int),
        decreases s@.len() - j,
    {
        if j >= s.len() || leading_indent(s, j) <= indent {
            assert(fns_view(out@) + seq![] =~= fns_view(out@));
            return (out, j);
        }
        match scan_fn(s, j) {
            Some((f, next)) => {
                let ghost rest = class_body(s@, next as int, indent as int);
                assert(fns_view(out@.push(f)) =~= fns_view(out@) + seq![f@]);
                assert(fns_view(out@.push(f)) + rest.0 =~= fns_view(out@) + (seq![f@]
                    + rest.0));
                out.push(f);
                j = next;
            },
            None => {
                let a = skip_run(s, ByteClass::Newline, j);
                let e = skip_run(s, ByteClass::NotNewline, a);
                let next = if e < s.len() {
                    e + 1
                } else {
                    e
                };
                assert(next as int == class_code_end(s@, j as int));
                if next <= j {
                    assert(fns_view(out@) + seq![] =~= fns_view(out@));
                    return (out, j);
                }
                j = next;
            },
        }
    }
}

/// A class (see `class_at`).
pub fn scan_class(s: &[u8], p: usize) -> (r: Option<(ItemSpans, usize)>)
    requires
        p <= s@.len(),
    ensures
        item_found_view(r) == class_at(s@, p as int),
        item_found_ok(r, p as int, s@.len() as int),
{
    let kw: [u8; 5] = [99, 108, 97, 115, 115];
    assert(kw@ =~= kw_class());
    let a = skip_run(s, ByteClass::Newline, p);
    let b = skip_run(s, ByteClass::Space, a);
    if !has_tag(s, b, kw.as_slice()) {
        return None;
    }
    let c = b + 5;
    let d = skip_run(s, ByteClass::Blank, c);
    if d <= c {
        return None;
    }
    let e = match ident(s, d) {
        Some(e) => e,
        None => {
            return None;
        },
    };
    let (parents, f) = match scan_parents(s, e) {
        Some(x) => x,
        None => (Vec::new(), e),
    };
    assert(spans_view(parents@) == (match parents_at(s@, e as int) {
        Some(x) => x,
        None => (seq![], e as int),
    }).0);
    if !(f < s.len() && s[f] == COLON) {
        return None;
    }
    let (description, h) = match scan_doc_string(s, f + 1) {
        Some((sp, h)) => (Some(sp), h),
        None => (None, f + 1),
    };
    let blank_end = emptyline(s, h);
    let start = take_until_def_line(s, blank_end);
    let (methods, k) = scan_class_body(s, start, b - a);
    let q = skip_run(s, ByteClass::Newline, k);
    Some((ItemSpans::Class { name: (d, e), description, parents, methods }, q))
}

pub fn scan_function(s: &[u8], p: usize) -> (r: Option<(ItemSpans, usize)>)
    requires
        p <= s@.len(),
    ensures
        item_found_view(r) == function_at(s@, p as int),
        item_found_ok(r, p as int, s@.len() as int),
{
    match scan_fn(s, p) {
        Some((func, q)) => Some((ItemSpans::Function { func }, q)),
        None => None,
    }
}

/// One opaque line (see `code_at`).
pub fn scan_code(s: &[u8], p: usize) -> (r: (ItemSpans, usize))
    requires
        p < s@.len(),
    ensures
        (r.0@, r.1 as int) == code_at(s@, p as int),
        p < r.1 <= s@.len(),
        r.0.wf(s@.len() as int),
{
    let a = skip_run(s, ByteClass::Newline, p);
    let e = skip_run(s, ByteClass::NotNewline, a);
    let next = if e < s.len() {
        e + 1
    } else {
        e
    };
    let q = skip_run(s, ByteClass::Newline, next);
    (ItemSpans::Code { code: (a, e) }, q)
}

/// The first alternative that matches at `p` (see `item_at`).
pub fn scan_item(s: &[u8], p: usize) -> (r: (ItemSpans, usize))
    requires
        p < s@.len(),
    ensures
        (r.0@, r.1 as int) == item_at(s@, p as int),
        p < r.1 <= s@.len(),
        r.0.wf(s@.len() as int),
{
    if let Some(x) = scan_shebang(s, p) {
        return x;
    }
    if let Some(x) = scan_import(s, p) {
        return x;
    }
    if let Some(x) = scan_import_from(s, p) {
        return x;
    }
    if let Some(x) = scan_class(s, p) {
        return x;
    }
    if let Some(x) = scan_function(s, p) {
        return x;
    }
    scan_code(s, p)
}

} // verus!
