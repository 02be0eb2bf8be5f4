//! Properties of the grammar as a whole.
use vstd::prelude::*;
use crate::block::{indented_lines, kw_def, lemma_block_over_lines, line_text, spaces};
use crate::grammar::{
    AT, COLON, COMMA, LPAREN, RPAREN, RawItem, class_at, decorator_at, decorators_end, fn_at,
    import_from_at, item_at, items_from, kw_class, kw_close, kw_from, kw_sp_import, lemma_item_at,
    lemma_module_doc_at, list_rest, module_doc_at, parents_at, skip_newlines, triple_double,
    triple_single,
};
use crate::lexical::{
    ByteClass, NEWLINE, SPACE, after_line, find_from, in_class, lemma_run_end_at, line_end,
    run_end, tag_at,
};

verus! {

/// The number of bytes that the items from `p` on take, added up.
pub open spec fn items_len(s: Seq<u8>, p: int) -> int
    decreases s.len() - p,
{
    if p < 0 || p >= s.len() {
        0
    } else {
        let q = item_at(s, p).1;
        if p < q <= s.len() {
            (q - p) + items_len(s, q)
        } else {
            0
        }
    }
}

proof fn lemma_items_len(s: Seq<u8>, p: int)
    requires
        0 <= p <= s.len(),
    ensures
        items_len(s, p) == s.len() - p,
        p < s.len() ==> items_from(s, p).len() > 0 && items_from(s, p).last().1 == s.len(),
    decreases s.len() - p,
{
    if p < s.len() {
        lemma_item_at(s, p);
        let q = item_at(s, p).1;
        lemma_items_len(s, q);
        let rest = items_from(s, q);
        assert(items_from(s, p) == seq![item_at(s, p)] + rest);
        if q == s.len() {
            assert(rest =~= seq![]);
        }
    }
}

/// Totality: the grammar reads any input to its end. The module doc-string and
/// the items that follow it, each of which takes at least one byte, account for
/// every byte of the input, and the last item ends where the input does.
pub proof fn law_totality(s: Seq<u8>)
    ensures
        module_doc_at(s).1 + items_len(s, module_doc_at(s).1) == s.len(),
        module_doc_at(s).1 < s.len() ==> items_from(s, module_doc_at(s).1).last().1 == s.len(),
{
    lemma_module_doc_at(s);
    lemma_items_len(s, module_doc_at(s).1);
}

proof fn lemma_find_from_at(s: Seq<u8>, t: Seq<u8>, i: int, e: int)
    requires
        0 <= i <= e,
        forall|j: int| i <= j < e ==> !tag_at(s, j, t),
        tag_at(s, e, t),
    ensures
        find_from(s, t, i) == e,
    decreases e - i,
{
    if i < e {
        lemma_find_from_at(s, t, i + 1, e);
    }
}

/// Module doc-string, first statement: a triple-double-quoted string, holding no
/// double quote, that opens the module after white space alone is the module's
/// doc-string, and its text is what stands between the quotes.
pub proof fn law_module_doc_first(w: Seq<u8>, inner: Seq<u8>, rest: Seq<u8>)
    requires
        forall|k: int| 0 <= k < w.len() ==> in_class(ByteClass::Multispace, #[trigger] w[k]),
        forall|k: int| 0 <= k < inner.len() ==> #[trigger] inner[k] != 34,
    ensures
        ({
            let s = w + triple_double() + inner + triple_double() + rest;
            let a = w.len() as int;
            &&& module_doc_at(s) == (
                RawItem::Module { description: Some((a + 3, a + 3 + inner.len())) },
                a + 6 + inner.len(),
            )
            &&& s.subrange(a + 3, a + 3 + inner.len()) == inner
        }),
{
    let s = w + triple_double() + inner + triple_double() + rest;
    let a = w.len() as int;
    let e = a + 3 + inner.len();
    assert forall|k: int| 0 <= k < a implies in_class(ByteClass::Multispace, #[trigger] s[k]) by {
        assert(s[k] == w[k]);
    }
    assert(s[a] == 34);
    lemma_run_end_at(s, ByteClass::Multispace, 0, a);
    assert(s.subrange(a, a + 3) =~= triple_double());
    assert(s.subrange(e, e + 3) =~= triple_double());
    assert forall|j: int| a + 3 <= j < e implies !tag_at(s, j, triple_double()) by {
        assert(s[j] == inner[j - a - 3]);
        if tag_at(s, j, triple_double()) {
            assert(s.subrange(j, j + 3)[0] == s[j]);
        }
    }
    lemma_find_from_at(s, triple_double(), a + 3, e);
    assert(s.subrange(a + 3, e) =~= inner);
}

/// Module doc-string, later statement: where the module opens with another
/// statement, it has no doc-string, whatever strings follow.
pub proof fn law_module_doc_not_later(first: Seq<u8>, rest: Seq<u8>)
    requires
        first.len() > 0,
        !in_class(ByteClass::Multispace, first[0]),
        first[0] != 34,
        first[0] != 39,
    ensures
        module_doc_at(first + rest).0 == (RawItem::Module { description: None }),
{
    let s = first + rest;
    assert(s[0] == first[0]);
    lemma_run_end_at(s, ByteClass::Multispace, 0, 0);
    if tag_at(s, 0, triple_double()) {
        assert(s.subrange(0, 3)[0] == s[0]);
    }
    if tag_at(s, 0, triple_single()) {
        assert(s.subrange(0, 3)[0] == s[0]);
    }
}

/// One decorator line: `@`, text without a line feed, and the line feed.
pub open spec fn decorator_line(d: Seq<u8>) -> bool {
    d.len() >= 2 && d[0] == AT && d.last() == NEWLINE && forall|k: int|
        0 <= k < d.len() - 1 ==> #[trigger] d[k] != NEWLINE
}

proof fn lemma_decorator_line(s: Seq<u8>, x: int, indent: nat, d: Seq<u8>)
    requires
        0 <= x,
        x + indent + d.len() <= s.len(),
        s.subrange(x, x + indent + d.len()) == spaces(indent) + d,
        decorator_line(d),
    ensures
        decorator_at(s, x) == Some(x + indent + d.len()),
{
    let y = x + indent;
    let z = y + d.len() - 1;
    let sub = s.subrange(x, x + indent + d.len());
    assert forall|k: int| x <= k < y implies in_class(ByteClass::Space, #[trigger] s[k]) by {
        assert(s[k] == sub[k - x]);
    }
    assert(s[y] == sub[indent as int]);
    lemma_run_end_at(s, ByteClass::Space, x, y);
    assert forall|k: int| y + 1 <= k < z implies in_class(ByteClass::NotNewline, #[trigger] s[k]) by {
        assert(s[k] == sub[k - x]);
        assert(sub[k - x] == d[k - y]);
    }
    assert(s[z] == sub[z - x]);
    assert(sub[z - x] == d[d.len() - 1]);
    lemma_run_end_at(s, ByteClass::NotNewline, y + 1, z);
    assert(line_end(s, y + 1) == z);
    assert(after_line(s, y + 1) == z + 1);
}

/// Decorators: a function header preceded by two decorator lines at its own
/// indentation reads as the same function, ending at the same place, as the
/// header alone.
pub proof fn law_decorators(s: Seq<u8>, p: int, indent: nat, d1: Seq<u8>, d2: Seq<u8>)
    requires
        0 <= p,
        decorator_line(d1),
        decorator_line(d2),
        p + 3 * indent + d1.len() + d2.len() < s.len(),
        s.subrange(p, p + 3 * indent + d1.len() + d2.len()) == spaces(indent) + d1 + spaces(
            indent,
        ) + d2 + spaces(indent),
        s[p + 3 * indent + d1.len() + d2.len()] != SPACE,
        s[p + 3 * indent + d1.len() + d2.len()] != AT,
        s[p + 3 * indent + d1.len() + d2.len()] != NEWLINE,
    ensures
        fn_at(s, p) == fn_at(s, p + 2 * indent + d1.len() + d2.len()),
{
    let q = p + 2 * indent + d1.len() + d2.len();
    let h = q + indent;
    let m1 = p + indent + d1.len();
    let all = s.subrange(p, h);
    assert(all =~= spaces(indent) + d1 + spaces(indent) + d2 + spaces(indent));
    assert forall|k: int| p <= k < p + indent implies #[trigger] s[k] == SPACE by {
        assert(s[k] == all[k - p]);
    }
    assert forall|k: int| q <= k < h implies #[trigger] s[k] == SPACE by {
        assert(s[k] == all[k - p]);
    }
    assert(s[p + indent] == all[indent as int]);
    assert(s[q] == SPACE || s[q] == s[h]);
    // Both parses start at their first byte: neither starts with a line feed.
    lemma_run_end_at(s, ByteClass::Newline, p, p);
    lemma_run_end_at(s, ByteClass::Newline, q, q);
    assert(skip_newlines(s, p) == p);
    assert(skip_newlines(s, q) == q);
    // Both headers are indented by `indent`.
    lemma_run_end_at(s, ByteClass::Space, p, p + indent);
    lemma_run_end_at(s, ByteClass::Space, q, h);
    // The decorated one reads its two decorator lines and stops at `q`.
    assert(s.subrange(p + indent, m1) =~= spaces(0) + d1) by {
        assert forall|k: int| 0 <= k < d1.len() implies s.subrange(p + indent, m1)[k] == d1[k] by {
            assert(s[p + indent + k] == all[indent + k]);
        }
    }
    lemma_decorator_line(s, p + indent, 0, d1);
    assert(s.subrange(m1, q) =~= spaces(indent) + d2) by {
        assert forall|k: int| 0 <= k < indent + d2.len() implies s.subrange(m1, q)[k] == (
        spaces(indent) + d2)[k] by {
            assert(s[m1 + k] == all[m1 - p + k]);
        }
    }
    lemma_decorator_line(s, m1, indent, d2);
    lemma_run_end_at(s, ByteClass::Space, h, h);
    assert(decorator_at(s, q) is None);
    assert(decorator_at(s, h) is None);
    assert(decorators_end(s, q) == q);
    assert(decorators_end(s, m1) == decorators_end(s, q));
    assert(decorators_end(s, p + indent) == decorators_end(s, m1));
    assert(decorators_end(s, h) == h);
    assert(run_end(s, ByteClass::Space, decorators_end(s, p + indent)) == h);
    assert(run_end(s, ByteClass::Space, decorators_end(s, h)) == h);
}

/// `n` full stops.
pub open spec fn dots(n: nat) -> Seq<u8> {
    Seq::new(n, |k: int| 0x2eu8)
}

/// Relative import levels: in `from <dots><module> import <name>`, the number
/// of leading dots is the level, and the module and the name are the text that
/// follows the dots and the text after `import`.
pub proof fn law_import_level(level: nat, module: Seq<u8>, name: Seq<u8>, rest: Seq<u8>)
    requires
        level + module.len() > 0,
        module.len() > 0 ==> module[0] != 0x2e,
        forall|k: int| 0 <= k < module.len() ==> #[trigger] module[k] != SPACE && module[k] != 9,
        name.len() > 0,
        name[0] != SPACE && name[0] != 9,
        forall|k: int| 0 <= k < name.len() ==> #[trigger] name[k] != NEWLINE,
    ensures
        ({
            let s = kw_from() + seq![SPACE] + dots(level) + module + kw_sp_import() + seq![SPACE]
                + name + seq![NEWLINE] + rest;
            let ms = 5 + level as int;
            let m = ms + module.len() as int;
            let e = m + 8;
            &&& import_from_at(s, 0) == Some(
                (
                    RawItem::ImportFrom {
                        module: (ms, m),
                        name: (e, e + name.len()),
                        level,
                    },
                    e + name.len() + 1,
                ),
            )
            &&& s.subrange(ms, m) == module
            &&& s.subrange(e, e + name.len()) == name
        }),
{
    let s = kw_from() + seq![SPACE] + dots(level) + module + kw_sp_import() + seq![SPACE] + name
        + seq![NEWLINE] + rest;
    let ms = 5 + level as int;
    let m = ms + module.len() as int;
    let e = m + 8;
    let ne = e + name.len() as int;
    assert(s[0] == 102u8);
    lemma_run_end_at(s, ByteClass::Newline, 0, 0);
    assert(s.subrange(0, 4) =~= kw_from());
    assert(s[4] == SPACE);
    assert forall|k: int| 5 <= k < ms implies #[trigger] s[k] == 0x2e by {}
    assert forall|k: int| ms <= k < m implies #[trigger] s[k] == module[k - ms] by {}
    assert(s[m] == SPACE);
    lemma_run_end_at(s, ByteClass::Blank, 4, 5);
    assert forall|k: int| 5 <= k < ms implies in_class(ByteClass::Dot, #[trigger] s[k]) by {}
    lemma_run_end_at(s, ByteClass::Dot, 5, ms);
    assert(s.subrange(m, m + 7) =~= kw_sp_import());
    assert forall|j: int| 5 <= j < m implies !tag_at(s, j, kw_sp_import()) by {
        if tag_at(s, j, kw_sp_import()) {
            assert(s.subrange(j, j + 7)[0] == s[j]);
        }
    }
    lemma_find_from_at(s, kw_sp_import(), 5, m);
    assert(s[m + 7] == SPACE);
    assert(s[e] == name[0]);
    lemma_run_end_at(s, ByteClass::Blank, m + 7, e);
    assert forall|k: int| e <= k < ne implies in_class(ByteClass::NotNewline, #[trigger] s[k]) by {
        assert(s[k] == name[k - e]);
    }
    assert(s[ne] == NEWLINE);
    lemma_run_end_at(s, ByteClass::NotNewline, e, ne);
    assert(s.subrange(ms, m) =~= module);
    assert(s.subrange(e, ne) =~= name);
}

pub open spec fn all_in(c: ByteClass, t: Seq<u8>) -> bool {
    t.len() > 0 && forall|k: int| 0 <= k < t.len() ==> in_class(c, #[trigger] t[k])
}

/// Trailing comma: in `def <name>(<arg>, ):`, the comma and the space after the
/// one parameter are left out: the function has exactly that parameter.
pub proof fn law_trailing_comma(name: Seq<u8>, arg: Seq<u8>, rest: Seq<u8>)
    requires
        all_in(ByteClass::Ident, name),
        all_in(ByteClass::Param, arg),
    ensures
        ({
            let s = kw_def() + seq![SPACE] + name + seq![LPAREN] + arg + seq![COMMA, SPACE]
                + kw_close() + rest;
            let h = 5 + name.len() as int;
            &&& fn_at(s, 0) matches Some((f, _)) && f.name == (4int, h - 1) && f.parameters == seq![
                (h, h + arg.len()),
            ]
            &&& s.subrange(4, h - 1) == name
            &&& s.subrange(h, h + arg.len()) == arg
        }),
{
    let s = kw_def() + seq![SPACE] + name + seq![LPAREN] + arg + seq![COMMA, SPACE] + kw_close()
        + rest;
    let f = 4 + name.len() as int;
    let h = f + 1;
    let ae = h + arg.len() as int;
    assert(s[0] == 100u8);
    lemma_run_end_at(s, ByteClass::Newline, 0, 0);
    lemma_run_end_at(s, ByteClass::Space, 0, 0);
    assert(decorator_at(s, 0) is None);
    assert(decorators_end(s, 0) == 0);
    assert(s.subrange(0, 3) =~= kw_def());
    assert(s[3] == SPACE);
    assert forall|k: int| 4 <= k < f implies #[trigger] s[k] == name[k - 4] by {}
    assert forall|k: int| h <= k < ae implies #[trigger] s[k] == arg[k - h] by {}
    assert(in_class(ByteClass::Ident, name[0]));
    assert(in_class(ByteClass::Param, arg[0]));
    lemma_run_end_at(s, ByteClass::Blank, 3, 4);
    assert forall|k: int| 4 <= k < f implies in_class(ByteClass::Ident, #[trigger] s[k]) by {
        assert(in_class(ByteClass::Ident, name[k - 4]));
    }
    assert(s[f] == LPAREN);
    lemma_run_end_at(s, ByteClass::Ident, 4, f);
    lemma_run_end_at(s, ByteClass::Multispace, f, f);
    lemma_run_end_at(s, ByteClass::Multispace, h, h);
    assert forall|k: int| h <= k < ae implies in_class(ByteClass::Param, #[trigger] s[k]) by {
        assert(in_class(ByteClass::Param, arg[k - h]));
    }
    assert(s[ae] == COMMA);
    assert(s[ae + 1] == SPACE);
    assert(s[ae + 2] == RPAREN);
    assert(s[ae + 3] == COLON);
    lemma_run_end_at(s, ByteClass::Param, h, ae);
    lemma_run_end_at(s, ByteClass::Multispace, ae, ae);
    lemma_run_end_at(s, ByteClass::Multispace, ae + 1, ae + 2);
    lemma_run_end_at(s, ByteClass::Param, ae + 2, ae + 2);
    assert(list_rest(s, ByteClass::Param, ae, seq![(h, ae)]) == (seq![(h, ae)], ae));
    assert(s.subrange(ae + 2, ae + 4) =~= kw_close());
    assert(s.subrange(4, f) =~= name);
    assert(s.subrange(h, ae) =~= arg);
}

proof fn lemma_class_prefix(s: Seq<u8>, name: Seq<u8>)
    requires
        all_in(ByteClass::Ident, name),
        s.len() > 6 + name.len(),
        s.subrange(0, 6 + name.len() as int) == kw_class() + seq![SPACE] + name,
        !in_class(ByteClass::Ident, s[6 + name.len() as int]),
    ensures
        skip_newlines(s, 0) == 0,
        run_end(s, ByteClass::Space, 0) == 0,
        tag_at(s, 0, kw_class()),
        run_end(s, ByteClass::Blank, 5) == 6,
        run_end(s, ByteClass::Ident, 6) == 6 + name.len(),
{
    let e = 6 + name.len() as int;
    let pre = s.subrange(0, e);
    assert(in_class(ByteClass::Ident, name[0]));
    assert(s[0] == pre[0]);
    assert(s[5] == pre[5]);
    assert(s[6] == pre[6]);
    lemma_run_end_at(s, ByteClass::Newline, 0, 0);
    lemma_run_end_at(s, ByteClass::Space, 0, 0);
    assert(s.subrange(0, 5) =~= pre.subrange(0, 5));
    assert(pre.subrange(0, 5) =~= kw_class());
    lemma_run_end_at(s, ByteClass::Blank, 5, 6);
    assert forall|k: int| 6 <= k < e implies in_class(ByteClass::Ident, #[trigger] s[k]) by {
        assert(s[k] == pre[k]);
        assert(pre[k] == name[k - 6]);
    }
    lemma_run_end_at(s, ByteClass::Ident, 6, e);
}

/// Class parents: `class <name>(<parent>):` has exactly that parent.
#[verifier::rlimit(50)]
pub proof fn law_class_parent(name: Seq<u8>, parent: Seq<u8>, rest: Seq<u8>)
    requires
        all_in(ByteClass::Ident, name),
        all_in(ByteClass::Ident, parent),
    ensures
        ({
            let s = kw_class() + seq![SPACE] + name + seq![LPAREN] + parent + seq![RPAREN, COLON]
                + rest;
            let h = 7 + name.len() as int;
            &&& class_at(s, 0) matches Some((RawItem::Class { parents, .. }, _)) && parents
                == seq![(h, h + parent.len())]
            &&& s.subrange(h, h + parent.len()) == parent
        }),
{
    let e = 6 + name.len() as int;
    let s = kw_class() + seq![SPACE] + name + seq![LPAREN] + parent + seq![RPAREN, COLON] + rest;
    let h = e + 1;
    let pe = h + parent.len() as int;
    assert(s.subrange(0, e) =~= kw_class() + seq![SPACE] + name);
    assert(s[e] == LPAREN);
    lemma_class_prefix(s, name);
    assert(in_class(ByteClass::Ident, parent[0]));
    assert(s[h] == parent[0]);
    lemma_run_end_at(s, ByteClass::Multispace, h, h);
    assert forall|k: int| h <= k < pe implies in_class(ByteClass::Ident, #[trigger] s[k]) by {
        assert(s[k] == parent[k - h]);
    }
    assert(s[pe] == RPAREN);
    assert(s[pe + 1] == COLON);
    lemma_run_end_at(s, ByteClass::Ident, h, pe);
    lemma_run_end_at(s, ByteClass::Multispace, pe, pe);
    assert(list_rest(s, ByteClass::Ident, pe, seq![(h, pe)]) == (seq![(h, pe)], pe));
    assert(parents_at(s, e) == Some((seq![(h, pe)], pe + 1)));
    assert(s.subrange(h, pe) =~= parent);
}

/// Class without parents: `class <name>:` has no parents.
#[verifier::rlimit(50)]
pub proof fn law_class_no_parents(name: Seq<u8>, rest: Seq<u8>)
    requires
        all_in(ByteClass::Ident, name),
    ensures
        ({
            let s = kw_class() + seq![SPACE] + name + seq![COLON] + rest;
            class_at(s, 0) matches Some((RawItem::Class { parents, .. }, _)) && parents.len() == 0
        }),
{
    let e = 6 + name.len() as int;
    let s = kw_class() + seq![SPACE] + name + seq![COLON] + rest;
    assert(s.subrange(0, e) =~= kw_class() + seq![SPACE] + name);
    assert(s[e] == COLON);
    lemma_class_prefix(s, name);
    assert(parents_at(s, e) is None);
}

/// A line that can open a body without being read as a doc-string: it starts
/// with neither white space nor a quote.
pub open spec fn plain_line(c: Seq<u8>) -> bool {
    line_text(c) && !in_class(ByteClass::Multispace, c[0]) && c[0] != 34 && c[0] != 39
}

/// Function body: after a header `def <name>():` indented by `indent` spaces,
/// the lines indented one space deeper are the function's body, and the next
/// line indented by `indent` is where the function ends.
#[verifier::rlimit(50)]
pub proof fn law_function_body(indent: nat, name: Seq<u8>, cs: Seq<Seq<u8>>, m: Seq<u8>)
    requires
        all_in(ByteClass::Ident, name),
        forall|k: int| 0 <= k < cs.len() ==> plain_line(#[trigger] cs[k]),
        plain_line(m),
    ensures
        ({
            let header = spaces(indent) + kw_def() + seq![SPACE] + name + seq![LPAREN] + kw_close();
            let body = seq![NEWLINE] + indented_lines(indent + 1, cs);
            let s = header + body + spaces(indent) + m;
            fn_at(s, 0) matches Some((f, q)) && f.name == (indent + 4int, indent + 4 + name.len() as int)
                && f.description is None && f.parameters.len() == 0 && q == header.len()
                + body.len()
        }),
{
    let header = spaces(indent) + kw_def() + seq![SPACE] + name + seq![LPAREN] + kw_close();
    let body = seq![NEWLINE] + indented_lines(indent + 1, cs);
    let s = header + body + spaces(indent) + m;
    let l = indent as int;
    let f = l + 4 + name.len() as int;
    let o = f + 3;
    assert(header.len() == o);
    assert forall|k: int| 0 <= k < l implies #[trigger] s[k] == SPACE by {
        assert(s[k] == header[k]);
    }
    assert(s[l] == 100u8);
    assert(s[0] == SPACE || s[0] == 100u8);
    lemma_run_end_at(s, ByteClass::Newline, 0, 0);
    lemma_run_end_at(s, ByteClass::Space, 0, l);
    lemma_run_end_at(s, ByteClass::Space, l, l);
    assert(decorator_at(s, l) is None);
    assert(decorators_end(s, l) == l);
    assert(s.subrange(l, l + 3) =~= kw_def());
    assert(s[l + 3] == SPACE);
    assert(in_class(ByteClass::Ident, name[0]));
    assert(s[l + 4] == name[0]);
    lemma_run_end_at(s, ByteClass::Blank, l + 3, l + 4);
    assert forall|k: int| l + 4 <= k < f implies in_class(ByteClass::Ident, #[trigger] s[k]) by {
        assert(s[k] == name[k - l - 4]);
    }
    assert(s[f] == LPAREN);
    lemma_run_end_at(s, ByteClass::Ident, l + 4, f);
    lemma_run_end_at(s, ByteClass::Multispace, f, f);
    assert(s[f + 1] == RPAREN);
    lemma_run_end_at(s, ByteClass::Multispace, f + 1, f + 1);
    lemma_run_end_at(s, ByteClass::Param, f + 1, f + 1);
    assert(s.subrange(f + 1, f + 3) =~= kw_close());
    // No doc-string: after the line feed and the next line's spaces comes plain text.
    assert(s[o] == NEWLINE);
    let rest = s.subrange(o + 1, s.len() as int);
    assert(rest =~= indented_lines(indent + 1, cs) + spaces(indent) + m);
    let w = if cs.len() > 0 {
        l + 1
    } else {
        l
    };
    let first = if cs.len() > 0 {
        cs[0]
    } else {
        m
    };
    if cs.len() > 0 {
        assert(indented_lines(indent + 1, cs) == spaces(indent + 1) + cs[0] + seq![NEWLINE]
            + indented_lines(indent + 1, cs.drop_first()));
    } else {
        assert(indented_lines(indent + 1, cs) =~= Seq::<u8>::empty());
    }
    assert forall|k: int| o <= k < o + 1 + w implies in_class(
        ByteClass::Multispace,
        #[trigger] s[k],
    ) by {
        if k > o {
            assert(s[k] == rest[k - o - 1]);
        }
    }
    assert(s[o + 1 + w] == rest[w]);
    assert(rest[w] == first[0]);
    lemma_run_end_at(s, ByteClass::Multispace, o, o + 1 + w);
    if tag_at(s, o + 1 + w, triple_double()) {
        assert(s.subrange(o + 1 + w, o + 4 + w)[0] == s[o + 1 + w]);
    }
    if tag_at(s, o + 1 + w, triple_single()) {
        assert(s.subrange(o + 1 + w, o + 4 + w)[0] == s[o + 1 + w]);
    }
    assert forall|k: int| 0 <= k < cs.len() implies line_text(#[trigger] cs[k]) by {}
    lemma_block_over_lines(s, o, indent, cs, m);
}

} // verus!
