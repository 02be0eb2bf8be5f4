//! Why valid UTF-8 always parses: every span the grammar cuts starts and ends
//! next to an ASCII byte, or at an end of the input, and such a position is a
//! character boundary.
use vstd::prelude::*;
use vstd::utf8::{
    is_char_boundary, is_char_boundary_iff_not_is_continuation_byte,
    is_char_boundary_start_end_of_seq, is_continuation_byte, length_of_first_scalar,
    pop_first_scalar, valid_utf8, valid_utf8_split,
};
use crate::block::{
    back_to_line_start, block_end, last_newline, lead_indent, lemma_block_end,
    lemma_skip_blank_lines, lemma_skip_to_def_line, skip_blank_lines, skip_to_def_line,
};
use crate::grammar::{
    RawItem, Span, class_at, class_body, class_code_end, doc_string_at, fn_at, import_from_at,
    item_at, items_from, keyword_line, kw_close, kw_import, kw_shebang, kw_sp_import,
    lemma_item_at, lemma_module_doc_at, list_at, list_rest, module_doc_at, module_items,
    parents_at, skip_newlines, skip_ws, triple_double, triple_single,
};
use crate::lexical::{
    ByteClass, NEWLINE, after_line, find_from, in_class, lemma_find_from, lemma_run_end,
    line_end, run_end, tag_at,
};
use crate::parser::{fn_ok, item_ok, span_ok, spans_ok};

verus! {

/// A position at an end of the input or next to an ASCII byte.
pub open spec fn at_ascii_edge(s: Seq<u8>, i: int) -> bool {
    0 <= i <= s.len() && (i == 0 || i == s.len() || s[i - 1] < 0x80 || s[i] < 0x80)
}

proof fn lemma_after_ascii(s: Seq<u8>, i: int)
    requires
        valid_utf8(s),
        0 < i < s.len(),
        s[i - 1] < 0x80,
    ensures
        !is_continuation_byte(s[i]),
{
    is_char_boundary_iff_not_is_continuation_byte(s, i - 1);
    valid_utf8_split(s, i - 1);
    let t = s.subrange(i - 1, s.len() as int);
    assert(t[0] == s[i - 1]);
    assert(length_of_first_scalar(t) == 1);
    let u = pop_first_scalar(t);
    assert(u =~= s.subrange(i, s.len() as int));
    assert(u[0] == s[i]);
    assert(valid_utf8(u));
}

proof fn lemma_edge_boundary(s: Seq<u8>, i: int)
    requires
        valid_utf8(s),
        at_ascii_edge(s, i),
    ensures
        is_char_boundary(s, i),
{
    is_char_boundary_start_end_of_seq(s);
    if 0 < i < s.len() {
        is_char_boundary_iff_not_is_continuation_byte(s, i);
        if s[i] >= 0x80 {
            lemma_after_ascii(s, i);
        }
    }
}

/// The bytes between two such positions are valid UTF-8.
proof fn lemma_span_valid(s: Seq<u8>, sp: Span)
    requires
        valid_utf8(s),
        sp.0 <= sp.1,
        at_ascii_edge(s, sp.0),
        at_ascii_edge(s, sp.1),
    ensures
        span_ok(s, sp),
{
    let (a, b) = sp;
    lemma_edge_boundary(s, b);
    valid_utf8_split(s, b);
    let u = s.subrange(0, b);
    if a == b {
        assert(s.subrange(a, b) =~= Seq::<u8>::empty());
    } else {
        lemma_edge_boundary(s, a);
        is_char_boundary_start_end_of_seq(u);
        if a > 0 {
            is_char_boundary_iff_not_is_continuation_byte(s, a);
            is_char_boundary_iff_not_is_continuation_byte(u, a);
        }
        valid_utf8_split(u, a);
        assert(u.subrange(a, b) =~= s.subrange(a, b));
    }
}

pub open spec fn ascii_class(c: ByteClass) -> bool {
    !(c is NotNewline)
}

proof fn lemma_run_edge(s: Seq<u8>, c: ByteClass, x: int)
    requires
        at_ascii_edge(s, x),
        ascii_class(c),
    ensures
        at_ascii_edge(s, run_end(s, c, x)),
        run_end(s, c, x) > x ==> in_class(c, s[run_end(s, c, x) - 1]) && s[run_end(s, c, x) - 1]
            < 0x80,
{
    lemma_run_end(s, c, x);
    let r = run_end(s, c, x);
    if r > x {
        assert(in_class(c, s[r - 1]));
    }
}

proof fn lemma_line_end_edge(s: Seq<u8>, x: int)
    requires
        0 <= x <= s.len(),
    ensures
        at_ascii_edge(s, line_end(s, x)),
        at_ascii_edge(s, after_line(s, x)),
        x <= line_end(s, x),
{
    lemma_run_end(s, ByteClass::NotNewline, x);
}

proof fn lemma_skip_newlines_edge(s: Seq<u8>, x: int)
    requires
        at_ascii_edge(s, x),
    ensures
        at_ascii_edge(s, skip_newlines(s, x)),
{
    lemma_run_edge(s, ByteClass::Newline, x);
}

proof fn lemma_tag_first(s: Seq<u8>, i: int, t: Seq<u8>, k: int)
    requires
        tag_at(s, i, t),
        0 <= k < t.len(),
    ensures
        s[i + k] == t[k],
{
    assert(s.subrange(i, i + t.len())[k] == s[i + k]);
}

proof fn lemma_keyword_line_ok(s: Seq<u8>, p: int, kw: Seq<u8>)
    requires
        valid_utf8(s),
        0 <= p <= s.len(),
    ensures
        keyword_line(s, p, kw) matches Some((sp, q)) ==> span_ok(s, sp) && at_ascii_edge(s, q),
{
    let a = skip_newlines(s, p);
    lemma_run_end(s, ByteClass::Newline, p);
    let b = a + kw.len();
    if tag_at(s, a, kw) {
        lemma_run_end(s, ByteClass::Blank, b);
        let c = run_end(s, ByteClass::Blank, b);
        if c > b {
            assert(in_class(ByteClass::Blank, s[c - 1]));
            lemma_line_end_edge(s, c);
            lemma_span_valid(s, (c, line_end(s, c)));
        }
    }
}

proof fn lemma_import_from_ok(s: Seq<u8>, p: int)
    requires
        valid_utf8(s),
        0 <= p <= s.len(),
    ensures
        import_from_at(s, p) matches Some((it, q)) ==> item_ok(s, it) && at_ascii_edge(s, q),
{
    let a = skip_newlines(s, p);
    lemma_run_end(s, ByteClass::Newline, p);
    if import_from_at(s, p) is Some {
        let b = a + 4;
        lemma_run_end(s, ByteClass::Blank, b);
        let c = run_end(s, ByteClass::Blank, b);
        assert(in_class(ByteClass::Blank, s[c - 1]));
        lemma_find_from(s, kw_sp_import(), c);
        let m = find_from(s, kw_sp_import(), c);
        lemma_tag_first(s, m, kw_sp_import(), 0);
        let d = m + 7;
        lemma_run_end(s, ByteClass::Blank, d);
        let e = run_end(s, ByteClass::Blank, d);
        assert(in_class(ByteClass::Blank, s[e - 1]));
        lemma_run_end(s, ByteClass::Dot, c);
        let dots = run_end(s, ByteClass::Dot, c);
        if dots > c {
            assert(in_class(ByteClass::Dot, s[dots - 1]));
        }
        lemma_span_valid(s, (dots, m));
        lemma_line_end_edge(s, e);
        lemma_span_valid(s, (e, line_end(s, e)));
    }
}

proof fn lemma_doc_string_ok(s: Seq<u8>, i: int)
    requires
        valid_utf8(s),
        0 <= i <= s.len(),
    ensures
        doc_string_at(s, i) matches Some((sp, q)) ==> span_ok(s, sp) && at_ascii_edge(s, q) && i
            <= q,
{
    lemma_run_end(s, ByteClass::Multispace, i);
    let a = skip_ws(s, i);
    lemma_find_from(s, triple_double(), a + 3);
    lemma_find_from(s, triple_single(), a + 3);
    let ed = find_from(s, triple_double(), a + 3);
    let es = find_from(s, triple_single(), a + 3);
    if tag_at(s, a, triple_double()) && ed >= 0 {
        lemma_tag_first(s, a, triple_double(), 2);
        lemma_tag_first(s, ed, triple_double(), 0);
        lemma_tag_first(s, ed, triple_double(), 2);
        lemma_span_valid(s, (a + 3, ed));
    } else if tag_at(s, a, triple_single()) && es >= 0 {
        lemma_tag_first(s, a, triple_single(), 2);
        lemma_tag_first(s, es, triple_single(), 0);
        lemma_tag_first(s, es, triple_single(), 2);
        lemma_span_valid(s, (a + 3, es));
    }
}

proof fn lemma_list_rest_ok(s: Seq<u8>, c: ByteClass, i: int, acc: Seq<Span>)
    requires
        valid_utf8(s),
        ascii_class(c),
        0 <= i <= s.len(),
        spans_ok(s, acc),
    ensures
        spans_ok(s, list_rest(s, c, i, acc).0),
    decreases s.len() - i,
{
    let j = skip_ws(s, i);
    lemma_run_end(s, ByteClass::Multispace, i);
    if 0 <= j < s.len() {
        lemma_run_end(s, ByteClass::Multispace, j + 1);
        let k = skip_ws(s, j + 1);
        lemma_run_end(s, c, k);
        let e = run_end(s, c, k);
        if crate::grammar::byte_at(s, j, crate::grammar::COMMA) && e > k && i < e <= s.len() {
            assert(in_class(c, s[k]));
            assert(in_class(c, s[e - 1]));
            lemma_run_edge(s, c, k);
            lemma_span_valid(s, (k, e));
            let acc2 = acc.push((k, e));
            assert forall|m: int| 0 <= m < acc2.len() implies span_ok(s, #[trigger] acc2[m]) by {
                if m < acc.len() {
                    assert(acc2[m] == acc[m]);
                }
            }
            lemma_list_rest_ok(s, c, e, acc2);
        }
    }
}

proof fn lemma_list_ok(s: Seq<u8>, c: ByteClass, h: int)
    requires
        valid_utf8(s),
        ascii_class(c),
        0 <= h <= s.len(),
    ensures
        spans_ok(s, list_at(s, c, h).0),
{
    lemma_run_end(s, c, h);
    let e = run_end(s, c, h);
    if e > h {
        assert(in_class(c, s[h]));
        assert(in_class(c, s[e - 1]));
        lemma_span_valid(s, (h, e));
        let acc = seq![(h, e)];
        assert forall|m: int| 0 <= m < acc.len() implies span_ok(s, #[trigger] acc[m]) by {}
        lemma_list_rest_ok(s, c, e, acc);
    } else {
        assert forall|m: int| 0 <= m < list_at(s, c, h).0.len() implies span_ok(
            s,
            #[trigger] list_at(s, c, h).0[m],
        ) by {}
    }
}

proof fn lemma_block_end_edge(s: Seq<u8>, i: int, indent: int)
    requires
        0 <= i <= s.len(),
    ensures
        at_ascii_edge(s, block_end(s, i, indent)),
    decreases s.len() - i,
{
    lemma_run_end(s, ByteClass::NotNewline, i);
    let j = line_end(s, i);
    if j < s.len() {
        lemma_block_end(s, j + 1, indent);
        lemma_block_end_edge(s, j + 1, indent);
    }
}

proof fn lemma_fn_ok(s: Seq<u8>, p: int)
    requires
        valid_utf8(s),
        0 <= p <= s.len(),
    ensures
        fn_at(s, p) matches Some((f, q)) ==> fn_ok(s, f) && at_ascii_edge(s, q),
{
    if fn_at(s, p) is Some {
        let a = skip_newlines(s, p);
        lemma_run_end(s, ByteClass::Newline, p);
        lemma_run_end(s, ByteClass::Space, a);
        let b = run_end(s, ByteClass::Space, a);
        crate::grammar::lemma_decorators_end_bounds(s, b);
        let c0 = crate::grammar::decorators_end(s, b);
        lemma_run_end(s, ByteClass::Space, c0);
        let c = run_end(s, ByteClass::Space, c0);
        let d = c + 3;
        lemma_run_end(s, ByteClass::Blank, d);
        let e = run_end(s, ByteClass::Blank, d);
        assert(in_class(ByteClass::Blank, s[e - 1]));
        lemma_run_end(s, ByteClass::Ident, e);
        let f = run_end(s, ByteClass::Ident, e);
        assert(in_class(ByteClass::Ident, s[f - 1]));
        lemma_span_valid(s, (e, f));
        lemma_run_end(s, ByteClass::Multispace, f);
        let g = skip_ws(s, f);
        lemma_run_end(s, ByteClass::Multispace, g + 1);
        let h = skip_ws(s, g + 1);
        lemma_list_ok(s, ByteClass::Param, h);
        crate::grammar::lemma_list_at_bounds(s, ByteClass::Param, h);
        let l = list_at(s, ByteClass::Param, h);
        lemma_run_end(s, ByteClass::Multispace, l.1);
        let j = skip_ws(s, l.1);
        let k = if crate::grammar::byte_at(s, j, crate::grammar::COMMA) {
            j + 1
        } else {
            j
        };
        lemma_run_end(s, ByteClass::Multispace, k);
        let m = skip_ws(s, k);
        lemma_tag_first(s, m, kw_close(), 1);
        let o = m + 2;
        lemma_doc_string_ok(s, o);
        let r = match doc_string_at(s, o) {
            Some((sp, r)) => r,
            None => o,
        };
        if r < s.len() {
            lemma_block_end_edge(s, r, b - a);
        }
    }
}

proof fn lemma_class_body_ok(s: Seq<u8>, i: int, indent: int)
    requires
        valid_utf8(s),
        at_ascii_edge(s, i),
    ensures
        at_ascii_edge(s, class_body(s, i, indent).1),
        forall|k: int|
            0 <= k < class_body(s, i, indent).0.len() ==> fn_ok(
                s,
                #[trigger] class_body(s, i, indent).0[k],
            ),
    decreases s.len() - i,
{
    if i < s.len() && lead_indent(s, i) > indent {
        lemma_fn_ok(s, i);
        match fn_at(s, i) {
            Some((f, j)) => if i < j <= s.len() {
                lemma_class_body_ok(s, j, indent);
                let rest = class_body(s, j, indent);
                assert forall|k: int| 0 <= k < class_body(s, i, indent).0.len() implies fn_ok(
                    s,
                    #[trigger] class_body(s, i, indent).0[k],
                ) by {
                    if k > 0 {
                        assert(class_body(s, i, indent).0[k] == rest.0[k - 1]);
                    }
                }
            },
            None => {
                let j = class_code_end(s, i);
                lemma_run_end(s, ByteClass::Newline, i);
                lemma_line_end_edge(s, skip_newlines(s, i));
                if i < j <= s.len() {
                    lemma_class_body_ok(s, j, indent);
                }
            },
        }
    }
}

proof fn lemma_class_ok(s: Seq<u8>, p: int)
    requires
        valid_utf8(s),
        0 <= p <= s.len(),
    ensures
        class_at(s, p) matches Some((it, q)) ==> item_ok(s, it) && at_ascii_edge(s, q),
{
    if class_at(s, p) is Some {
        let a = skip_newlines(s, p);
        lemma_run_end(s, ByteClass::Newline, p);
        lemma_run_end(s, ByteClass::Space, a);
        let b = run_end(s, ByteClass::Space, a);
        let c = b + 5;
        lemma_run_end(s, ByteClass::Blank, c);
        let d = run_end(s, ByteClass::Blank, c);
        assert(in_class(ByteClass::Blank, s[d - 1]));
        lemma_run_end(s, ByteClass::Ident, d);
        let e = run_end(s, ByteClass::Ident, d);
        assert(in_class(ByteClass::Ident, s[e - 1]));
        lemma_span_valid(s, (d, e));
        crate::grammar::lemma_parents_at_bounds(s, e);
        if crate::grammar::byte_at(s, e, crate::grammar::LPAREN) {
            lemma_run_end(s, ByteClass::Multispace, e + 1);
            lemma_list_ok(s, ByteClass::Ident, skip_ws(s, e + 1));
        }
        let f = match parents_at(s, e) {
            Some(x) => x.1,
            None => e,
        };
        lemma_doc_string_ok(s, f + 1);
        let h = match doc_string_at(s, f + 1) {
            Some((sp, h)) => h,
            None => f + 1,
        };
        lemma_skip_blank_lines(s, h);
        let bl = skip_blank_lines(s, h);
        if 0 <= h < s.len() && s[h] == NEWLINE {
            lemma_run_end(s, ByteClass::SpaceOrNewline, h);
            let x = run_end(s, ByteClass::SpaceOrNewline, h);
            if x < s.len() {
                lemma_last_newline_char(s, h, x);
            }
        }
        lemma_skip_to_def_line(s, bl);
        lemma_find_from(s, crate::block::kw_def(), bl);
        let dd = find_from(s, crate::block::kw_def(), bl);
        if dd >= 0 {
            lemma_back_char(s, bl, dd);
        }
        let start = skip_to_def_line(s, bl);
        lemma_class_body_ok(s, start, b - a);
        lemma_skip_newlines_edge(s, class_body(s, start, b - a).1);
        crate::grammar::lemma_class_body_bounds(s, start, b - a);
    }
}

proof fn lemma_last_newline_char(s: Seq<u8>, a: int, e: int)
    requires
        0 <= a <= e <= s.len(),
    ensures
        last_newline(s, a, e) == a || s[last_newline(s, a, e)] == NEWLINE,
    decreases e - a,
{
    if e > a && s[e - 1] != NEWLINE {
        lemma_last_newline_char(s, a, e - 1);
    }
}

proof fn lemma_back_char(s: Seq<u8>, a: int, k: int)
    requires
        0 <= a <= k,
    ensures
        back_to_line_start(s, a, k) == a || s[back_to_line_start(s, a, k)] == NEWLINE,
    decreases k - a,
{
    if k > a && s[k] != NEWLINE {
        lemma_back_char(s, a, k - 1);
    }
}

proof fn lemma_item_ok(s: Seq<u8>, p: int)
    requires
        valid_utf8(s),
        at_ascii_edge(s, p),
        p < s.len(),
    ensures
        item_ok(s, item_at(s, p).0),
        at_ascii_edge(s, item_at(s, p).1),
{
    lemma_keyword_line_ok(s, p, kw_shebang());
    lemma_keyword_line_ok(s, p, kw_import());
    lemma_import_from_ok(s, p);
    lemma_class_ok(s, p);
    lemma_fn_ok(s, p);
    lemma_skip_newlines_edge(s, p);
    let a = skip_newlines(s, p);
    lemma_line_end_edge(s, a);
    lemma_span_valid(s, (a, line_end(s, a)));
    lemma_skip_newlines_edge(s, after_line(s, a));
}

proof fn lemma_items_ok(s: Seq<u8>, p: int)
    requires
        valid_utf8(s),
        at_ascii_edge(s, p),
    ensures
        forall|k: int| 0 <= k < items_from(s, p).len() ==> item_ok(s, #[trigger] items_from(s, p)[k].0),
    decreases s.len() - p,
{
    if p < s.len() {
        lemma_item_ok(s, p);
        lemma_item_at(s, p);
        let q = item_at(s, p).1;
        lemma_items_ok(s, q);
        let rest = items_from(s, q);
        assert forall|k: int| 0 <= k < items_from(s, p).len() implies item_ok(
            s,
            #[trigger] items_from(s, p)[k].0,
        ) by {
            if k > 0 {
                assert(items_from(s, p)[k] == rest[k - 1]);
            }
        }
    }
}

/// Valid UTF-8 always parses: on such input every span that the grammar reads
/// is valid UTF-8, so every item of the module turns into text.
pub proof fn law_valid_text_parses(s: Seq<u8>)
    requires
        valid_utf8(s),
    ensures
        forall|k: int| 0 <= k < module_items(s).len() ==> item_ok(s, #[trigger] module_items(s)[k]),
{
    lemma_doc_string_ok(s, 0);
    lemma_module_doc_at(s);
    let m = module_doc_at(s).1;
    lemma_items_ok(s, m);
    let raws = items_from(s, m).map_values(|x: (RawItem, int)| x.0);
    assert forall|k: int| 0 <= k < module_items(s).len() implies item_ok(
        s,
        #[trigger] module_items(s)[k],
    ) by {
        if k == 0 {
            match doc_string_at(s, 0) {
                Some((sp, q)) => {},
                None => {},
            }
        } else {
            assert(module_items(s)[k] == items_from(s, m)[k - 1].0);
        }
    }
}

} // verus!
