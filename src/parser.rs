//! Items: what the grammar recognises, with their spans turned into text.
use vstd::prelude::*;
use vstd::utf8::{decode_utf8, valid_utf8};
use crate::grammar::{
    RawFn, RawItem, Span, class_at, doc_string_at, function_at, import_at, import_from_at,
    items_from, module_doc_at, module_items, shebang_at,
};
use crate::scan::{
    ExecSpan, FnSpans, ItemSpans, item_found_ok, item_found_view, scan_class, scan_doc_string,
    scan_function, scan_import, scan_import_from, scan_item, scan_shebang, span_view, spans_view,
};
use crate::structures::{Function, FunctionModel, functions_view, opt_text, texts};
use crate::text::{decode_text, trim_text, trimmed, valid_up_to};

verus! {

/// Why a parse gave no item.
#[derive(Clone, Copy, Debug, PartialEq, Eq)]
pub enum ParseError {
    /// The alternative does not match at the start of the input.
    Mismatch,
    /// The text of a recognised span is not UTF-8: it stops being UTF-8 at
    /// byte `offset` of the input.
    Malformed { offset: usize },
}

/// One recognised unit of source.
#[derive(Clone, Debug, PartialEq, Eq)]
pub struct Item {
    pub node: ItemKind,
}

#[derive(Clone, Debug, PartialEq, Eq)]
pub enum ItemKind {
    Import { path: String },
    ImportFrom { module: String, name: String, level: usize },
    Shebang { path: String },
    Module { description: Option<String> },
    Class {
        name: String,
        description: Option<String>,
        parents: Vec<String>,
        methods: Vec<Function>,
    },
    Function { name: String, description: Option<String>, parameters: Vec<String> },
    Code { code: String },
}

/// What a class body holds: a method, or a line of other code.
#[derive(Clone, Debug, PartialEq, Eq)]
pub enum ClassBlock {
    Method(Item),
    Code(String),
}

/// The model of an item: its text fields.
pub enum ItemModel {
    Import { path: Seq<char> },
    ImportFrom { module: Seq<char>, name: Seq<char>, level: nat },
    Shebang { path: Seq<char> },
    Module { description: Option<Seq<char>> },
    Class {
        name: Seq<char>,
        description: Option<Seq<char>>,
        parents: Seq<Seq<char>>,
        methods: Seq<FunctionModel>,
    },
    Function { func: FunctionModel },
    Code { code: Seq<char> },
}

impl View for Item {
    type V = ItemModel;

    open spec fn view(&self) -> ItemModel {
        match self.node {
            ItemKind::Import { path } => ItemModel::Import { path: path@ },
            ItemKind::ImportFrom { module, name, level } => ItemModel::ImportFrom {
                module: module@,
                name: name@,
                level: level as nat,
            },
            ItemKind::Shebang { path } => ItemModel::Shebang { path: path@ },
            ItemKind::Module { description } => ItemModel::Module {
                description: opt_text(description),
            },
            ItemKind::Class { name, description, parents, methods } => ItemModel::Class {
                name: name@,
                description: opt_text(description),
                parents: texts(parents@),
                methods: functions_view(methods@),
            },
            ItemKind::Function { name, description, parameters } => ItemModel::Function {
                func: FunctionModel {
                    name: name@,
                    description: opt_text(description),
                    parameters: texts(parameters@),
                },
            },
            ItemKind::Code { code } => ItemModel::Code { code: code@ },
        }
    }
}

pub open spec fn items_view(v: Seq<Item>) -> Seq<ItemModel> {
    v.map_values(|x: Item| x@)
}

pub open spec fn span_bytes(s: Seq<u8>, sp: Span) -> Seq<u8> {
    s.subrange(sp.0, sp.1)
}

pub open spec fn span_ok(s: Seq<u8>, sp: Span) -> bool {
    valid_utf8(span_bytes(s, sp))
}

pub open spec fn span_text(s: Seq<u8>, sp: Span) -> Seq<char> {
    decode_utf8(span_bytes(s, sp))
}

pub open spec fn doc_ok(s: Seq<u8>, d: Option<Span>) -> bool {
    d matches Some(sp) ==> span_ok(s, sp)
}

/// A doc-string's text: what stands between the quotes, trimmed.
pub open spec fn doc_text(s: Seq<u8>, d: Option<Span>) -> Option<Seq<char>> {
    match d {
        Some(sp) => Some(trimmed(span_text(s, sp))),
        None => None,
    }
}

pub open spec fn spans_ok(s: Seq<u8>, v: Seq<Span>) -> bool {
    forall|k: int| 0 <= k < v.len() ==> span_ok(s, #[trigger] v[k])
}

pub open spec fn spans_text(s: Seq<u8>, v: Seq<Span>) -> Seq<Seq<char>> {
    v.map_values(|sp: Span| span_text(s, sp))
}

pub open spec fn fn_ok(s: Seq<u8>, f: RawFn) -> bool {
    span_ok(s, f.name) && doc_ok(s, f.description) && spans_ok(s, f.parameters)
}

pub open spec fn fn_model(s: Seq<u8>, f: RawFn) -> FunctionModel {
    FunctionModel {
        name: span_text(s, f.name),
        description: doc_text(s, f.description),
        parameters: spans_text(s, f.parameters),
    }
}

pub open spec fn item_ok(s: Seq<u8>, it: RawItem) -> bool {
    match it {
        RawItem::Import { path } => span_ok(s, path),
        RawItem::ImportFrom { module, name, .. } => span_ok(s, module) && span_ok(s, name),
        RawItem::Shebang { path } => span_ok(s, path),
        RawItem::Module { description } => doc_ok(s, description),
        RawItem::Class { name, description, parents, methods } => span_ok(s, name) && doc_ok(
            s,
            description,
        ) && spans_ok(s, parents) && forall|k: int|
            0 <= k < methods.len() ==> fn_ok(s, #[trigger] methods[k]),
        RawItem::Function { func } => fn_ok(s, func),
        RawItem::Code { code } => span_ok(s, code),
    }
}

/// The item that a recognised unit of source stands for.
pub open spec fn item_model(s: Seq<u8>, it: RawItem) -> ItemModel {
    match it {
        RawItem::Import { path } => ItemModel::Import { path: span_text(s, path) },
        RawItem::ImportFrom { module, name, level } => ItemModel::ImportFrom {
            module: span_text(s, module),
            name: span_text(s, name),
            level,
        },
        RawItem::Shebang { path } => ItemModel::Shebang { path: span_text(s, path) },
        RawItem::Module { description } => ItemModel::Module {
            description: doc_text(s, description),
        },
        RawItem::Class { name, description, parents, methods } => ItemModel::Class {
            name: span_text(s, name),
            description: doc_text(s, description),
            parents: spans_text(s, parents),
            methods: methods.map_values(|f: RawFn| fn_model(s, f)),
        },
        RawItem::Function { func } => ItemModel::Function { func: fn_model(s, func) },
        RawItem::Code { code } => ItemModel::Code { code: span_text(s, code) },
    }
}

/// Where the span's bytes stop being UTF-8, if they do.
pub open spec fn span_bad(s: Seq<u8>, sp: Span) -> Option<int> {
    if span_ok(s, sp) {
        None
    } else {
        Some(sp.0 + valid_up_to(span_bytes(s, sp)))
    }
}

/// The first of two answers that is given.
pub open spec fn first_of(a: Option<int>, b: Option<int>) -> Option<int> {
    if a is Some {
        a
    } else {
        b
    }
}

pub open spec fn doc_bad(s: Seq<u8>, d: Option<Span>) -> Option<int> {
    match d {
        Some(sp) => span_bad(s, sp),
        None => None,
    }
}

/// The start of the first span of `v`, in order, whose bytes are not UTF-8.
pub open spec fn spans_bad(s: Seq<u8>, v: Seq<Span>) -> Option<int>
    decreases v.len(),
{
    if v.len() == 0 {
        None
    } else {
        first_of(span_bad(s, v[0]), spans_bad(s, v.drop_first()))
    }
}

pub open spec fn fn_bad(s: Seq<u8>, f: RawFn) -> Option<int> {
    first_of(span_bad(s, f.name), first_of(doc_bad(s, f.description), spans_bad(s, f.parameters)))
}

pub open spec fn fns_bad(s: Seq<u8>, v: Seq<RawFn>) -> Option<int>
    decreases v.len(),
{
    if v.len() == 0 {
        None
    } else {
        first_of(fn_bad(s, v[0]), fns_bad(s, v.drop_first()))
    }
}

/// The start of the item's first span, in the order of its fields, whose bytes
/// are not UTF-8.
pub open spec fn item_bad(s: Seq<u8>, it: RawItem) -> Option<int> {
    match it {
        RawItem::Import { path } => span_bad(s, path),
        RawItem::ImportFrom { module, name, .. } => first_of(span_bad(s, module), span_bad(s, name)),
        RawItem::Shebang { path } => span_bad(s, path),
        RawItem::Module { description } => doc_bad(s, description),
        RawItem::Class { name, description, parents, methods } => first_of(
            span_bad(s, name),
            first_of(doc_bad(s, description), first_of(spans_bad(s, parents), fns_bad(s, methods))),
        ),
        RawItem::Function { func } => fn_bad(s, func),
        RawItem::Code { code } => span_bad(s, code),
    }
}

/// What turning an item's spans into text gives: the item, or the offset of a
/// span that is not UTF-8.
pub open spec fn decoded(s: Seq<u8>, it: RawItem, r: Result<Item, ParseError>) -> bool {
    match r {
        Ok(x) => item_ok(s, it) && x@ == item_model(s, it),
        Err(ParseError::Malformed { offset }) => !item_ok(s, it) && item_bad(s, it) == Some(
            offset as int,
        ),
        Err(ParseError::Mismatch) => false,
    }
}

fn decode_span(s: &[u8], sp: ExecSpan) -> (r: Result<String, ParseError>)
    requires
        sp.0 <= sp.1 <= s@.len(),
    ensures
        match r {
            Ok(t) => span_ok(s@, span_view(sp)) && t@ == span_text(s@, span_view(sp)),
            Err(e) => !span_ok(s@, span_view(sp)) && span_bad(s@, span_view(sp)) == Some(
                e->offset as int,
            ) && e is Malformed,
        },
{
    match decode_text(&s[sp.0..sp.1]) {
        Ok(t) => Ok(t),
        Err(k) => Err(ParseError::Malformed { offset: sp.0 + k }),
    }
}

fn decode_doc(s: &[u8], d: Option<ExecSpan>) -> (r: Result<Option<String>, ParseError>)
    requires
        d matches Some(sp) ==> sp.0 <= sp.1 <= s@.len(),
    ensures
        match r {
            Ok(t) => doc_ok(s@, crate::scan::opt_span_view(d)) && opt_text(t) == doc_text(
                s@,
                crate::scan::opt_span_view(d),
            ),
            Err(ParseError::Malformed { offset }) => !doc_ok(s@, crate::scan::opt_span_view(d))
                && doc_bad(s@, crate::scan::opt_span_view(d)) == Some(offset as int),
            Err(ParseError::Mismatch) => false,
        },
{
    match d {
        None => Ok(None),
        Some(sp) => {
            let t = decode_span(s, sp)?;
            Ok(Some(trim_text(t.as_str())))
        },
    }
}

proof fn lemma_doc_bad(s: Seq<u8>, d: Option<Span>)
    ensures
        doc_bad(s, d) is None <==> doc_ok(s, d),
{
}

fn decode_spans(s: &[u8], v: &Vec<ExecSpan>) -> (r: Result<Vec<String>, ParseError>)
    requires
        crate::scan::spans_wf(v@, s@.len() as int),
    ensures
        match r {
            Ok(t) => spans_ok(s@, spans_view(v@)) && texts(t@) == spans_text(
                s@,
                spans_view(v@),
            ) && spans_bad(s@, spans_view(v@)) is None,
            Err(ParseError::Malformed { offset }) => !spans_ok(s@, spans_view(v@)) && spans_bad(
                s@,
                spans_view(v@),
            ) == Some(offset as int),
            Err(ParseError::Mismatch) => false,
        },
{
    let mut out: Vec<String> = Vec::new();
    let mut k: usize = 0;
    assert(spans_view(v@).skip(0) =~= spans_view(v@));
    while k < v.len()
        invariant
            k <= v@.len(),
            crate::scan::spans_wf(v@, s@.len() as int),
            out@.len() == k,
            forall|j: int| 0 <= j < k ==> span_ok(s@, #[trigger] spans_view(v@)[j]),
            texts(out@) == spans_text(s@, spans_view(v@).take(k as int)),
            spans_bad(s@, spans_view(v@)) == spans_bad(s@, spans_view(v@).skip(k as int)),
        decreases v@.len() - k,
    {
        let sp = v[k];
        match decode_span(s, sp) {
            Ok(t) => {
                proof {
                    let sv = spans_view(v@);
                    assert(sv[k as int] == span_view(sp));
                    assert(texts(out@.push(t)) =~= texts(out@).push(t@));
                    assert(sv.take(k + 1) =~= sv.take(k as int).push(sv[k as int]));
                    assert(spans_text(s@, sv.take(k + 1)) =~= spans_text(
                        s@,
                        sv.take(k as int),
                    ).push(span_text(s@, sv[k as int])));
                    assert(sv.skip(k as int).drop_first() =~= sv.skip(k + 1));
                }
                out.push(t);
                k = k + 1;
            },
            Err(e) => {
                assert(spans_view(v@)[k as int] == span_view(sp));
                assert(spans_view(v@).skip(k as int)[0] == span_view(sp));
                return Err(e);
            },
        }
    }
    assert(spans_view(v@).take(k as int) =~= spans_view(v@));
    assert(spans_view(v@).skip(k as int) =~= seq![]);
    Ok(out)
}

fn decode_fn(s: &[u8], f: &FnSpans) -> (r: Result<Function, ParseError>)
    requires
        f.wf(s@.len() as int),
    ensures
        match r {
            Ok(x) => fn_ok(s@, f@) && x@ == fn_model(s@, f@) && fn_bad(s@, f@) is None,
            Err(ParseError::Malformed { offset }) => !fn_ok(s@, f@) && fn_bad(s@, f@) == Some(
                offset as int,
            ),
            Err(ParseError::Mismatch) => false,
        },
{
    proof {
        lemma_doc_bad(s@, f@.description);
    }
    let name = decode_span(s, f.name)?;
    let description = decode_doc(s, f.description)?;
    let parameters = decode_spans(s, &f.parameters)?;
    Ok(Function { name, description, parameters })
}

fn decode_methods(s: &[u8], v: &Vec<FnSpans>) -> (r: Result<Vec<Function>, ParseError>)
    requires
        forall|k: int| 0 <= k < v@.len() ==> (#[trigger] v@[k]).wf(s@.len() as int),
    ensures
        match r {
            Ok(t) => (forall|k: int| 0 <= k < v@.len() ==> fn_ok(s@, #[trigger] v@[k]@))
                && functions_view(t@) == crate::scan::fns_view(v@).map_values(
                |f: RawFn| fn_model(s@, f),
            ),
            Err(ParseError::Malformed { offset }) => (exists|k: int|
                0 <= k < v@.len() && !fn_ok(s@, #[trigger] v@[k]@)) && fns_bad(
                s@,
                crate::scan::fns_view(v@),
            ) == Some(offset as int),
            Err(ParseError::Mismatch) => false,
        },
{
    let mut out: Vec<Function> = Vec::new();
    let mut k: usize = 0;
    assert(crate::scan::fns_view(v@).skip(0) =~= crate::scan::fns_view(v@));
    while k < v.len()
        invariant
            k <= v@.len(),
            forall|j: int| 0 <= j < v@.len() ==> (#[trigger] v@[j]).wf(s@.len() as int),
            out@.len() == k,
            forall|j: int| 0 <= j < k ==> fn_ok(s@, #[trigger] v@[j]@),
            functions_view(out@) == crate::scan::fns_view(v@).take(k as int).map_values(
                |f: RawFn| fn_model(s@, f),
            ),
            fns_bad(s@, crate::scan::fns_view(v@)) == fns_bad(
                s@,
                crate::scan::fns_view(v@).skip(k as int),
            ),
        decreases v@.len() - k,
    {
        let x = match decode_fn(s, &v[k]) {
            Ok(x) => x,
            Err(e) => {
                assert(crate::scan::fns_view(v@).skip(k as int)[0] == v@[k as int]@);
                return Err(e);
            },
        };
        proof {
            let fv = crate::scan::fns_view(v@);
            assert(fv[k as int] == v@[k as int]@);
            assert(functions_view(out@.push(x)) =~= functions_view(out@).push(x@));
            assert(fv.take(k + 1) =~= fv.take(k as int).push(fv[k as int]));
            assert(fv.take(k + 1).map_values(|f: RawFn| fn_model(s@, f)) =~= fv.take(
                k as int,
            ).map_values(|f: RawFn| fn_model(s@, f)).push(fn_model(s@, fv[k as int])));
            assert(fv.skip(k as int).drop_first() =~= fv.skip(k + 1));
            assert(fv.skip(k as int)[0] == fv[k as int]);
        }
        out.push(x);
        k = k + 1;
    }
    assert(crate::scan::fns_view(v@).take(k as int) =~= crate::scan::fns_view(v@));
    assert(crate::scan::fns_view(v@).skip(k as int) =~= seq![]);
    Ok(out)
}

fn decode_item(s: &[u8], it: &ItemSpans) -> (r: Result<Item, ParseError>)
    requires
        it.wf(s@.len() as int),
    ensures
        decoded(s@, it@, r),
{
    match it {
        ItemSpans::Import { path } => {
            let path = decode_span(s, *path)?;
            Ok(Item { node: ItemKind::Import { path } })
        },
        ItemSpans::ImportFrom { module, name, level } => {
            let module = decode_span(s, *module)?;
            let name = decode_span(s, *name)?;
            Ok(Item { node: ItemKind::ImportFrom { module, name, level: *level } })
        },
        ItemSpans::Shebang { path } => {
            let path = decode_span(s, *path)?;
            Ok(Item { node: ItemKind::Shebang { path } })
        },
        ItemSpans::Class { name, description, parents, methods } => {
            proof {
                lemma_doc_bad(s@, crate::scan::opt_span_view(*description));
            }
            let name = decode_span(s, *name)?;
            let description = decode_doc(s, *description)?;
            let parents = decode_spans(s, parents)?;
            let methods = match decode_methods(s, methods) {
                Ok(m) => m,
                Err(e) => {
                    proof {
                        let k = choose|k: int|
                            0 <= k < methods@.len() && !fn_ok(s@, #[trigger] methods@[k]@);
                        assert(crate::scan::fns_view(methods@)[k] == methods@[k]@);
                    }
                    return Err(e);
                },
            };
            proof {
                let raw = it@;
                if let RawItem::Class { methods: ms, .. } = raw {
                    assert forall|k: int| 0 <= k < ms.len() implies fn_ok(s@, #[trigger] ms[k]) by {
                        assert(ms[k] == it->methods@[k]@);
                    }
                }
            }
            Ok(Item { node: ItemKind::Class { name, description, parents, methods } })
        },
        ItemSpans::Function { func } => {
            let f = decode_fn(s, func)?;
            Ok(
                Item {
                    node: ItemKind::Function {
                        name: f.name,
                        description: f.description,
                        parameters: f.parameters,
                    },
                },
            )
        },
        ItemSpans::Code { code } => {
            let code = decode_span(s, *code)?;
            Ok(Item { node: ItemKind::Code { code } })
        },
    }
}

/// What a parse of one alternative at the start of the input gives: a mismatch
/// where the grammar finds none, else the item and where it ends, or the offset
/// of a span that is not UTF-8.
pub open spec fn alt_result(
    s: Seq<u8>,
    found: Option<(RawItem, int)>,
    r: Result<(usize, Item), ParseError>,
) -> bool {
    match found {
        None => r == Err::<(usize, Item), ParseError>(ParseError::Mismatch),
        Some((it, q)) => match r {
            Ok((e, x)) => e == q && item_ok(s, it) && x@ == item_model(s, it),
            Err(ParseError::Malformed { offset }) => !item_ok(s, it) && item_bad(s, it) == Some(
                offset as int,
            ),
            Err(ParseError::Mismatch) => false,
        },
    }
}

fn finish(s: &[u8], found: Option<(ItemSpans, usize)>) -> (r: Result<(usize, Item), ParseError>)
    requires
        item_found_ok(found, 0, s@.len() as int),
    ensures
        alt_result(s@, item_found_view(found), r),
{
    match found {
        None => Err(ParseError::Mismatch),
        Some((it, q)) => {
            let x = decode_item(s, &it)?;
            Ok((q, x))
        },
    }
}

/// A shebang line: `#!`, spaces, then the path to the end of the line.
pub fn shebang(input: &[u8]) -> (r: Result<(usize, Item), ParseError>)
    ensures
        alt_result(input@, shebang_at(input@, 0), r),
{
    finish(input, scan_shebang(input, 0))
}

/// An import line: `import`, spaces, then the path to the end of the line.
pub fn item_import(input: &[u8]) -> (r: Result<(usize, Item), ParseError>)
    ensures
        alt_result(input@, import_at(input@, 0), r),
{
    finish(input, scan_import(input, 0))
}

/// An import-from line: `from <module> import <name>`.
pub fn item_import_from(input: &[u8]) -> (r: Result<(usize, Item), ParseError>)
    ensures
        alt_result(input@, import_from_at(input@, 0), r),
{
    finish(input, scan_import_from(input, 0))
}

/// A class with its methods.
pub fn item_class(input: &[u8]) -> (r: Result<(usize, Item), ParseError>)
    ensures
        alt_result(input@, class_at(input@, 0), r),
{
    finish(input, scan_class(input, 0))
}

/// A function, its body skipped.
pub fn item_fn(input: &[u8]) -> (r: Result<(usize, Item), ParseError>)
    ensures
        alt_result(input@, function_at(input@, 0), r),
{
    finish(input, scan_function(input, 0))
}

/// The module doc-string item: always found, with no description where the input
/// does not start with a doc-string.
pub fn item_module_doc_string(input: &[u8]) -> (r: Result<(usize, Item), ParseError>)
    ensures
        alt_result(input@, Some(module_doc_at(input@)), r),
        r matches Ok((e, _)) ==> e <= input@.len(),
{
    let (description, m) = match scan_doc_string(input, 0) {
        Some((sp, m)) => (Some(sp), m),
        None => (None, 0),
    };
    let d = decode_doc(input, description)?;
    Ok((m, Item { node: ItemKind::Module { description: d } }))
}

/// A doc-string at the start of the input: its text, trimmed.
pub fn doc_string(input: &[u8]) -> (r: Result<(usize, String), ParseError>)
    ensures
        match doc_string_at(input@, 0) {
            None => r == Err::<(usize, String), ParseError>(ParseError::Mismatch),
            Some((sp, q)) => match r {
                Ok((e, t)) => e == q && span_ok(input@, sp) && t@ == trimmed(
                    span_text(input@, sp),
                ),
                Err(ParseError::Malformed { offset }) => span_bad(input@, sp) == Some(offset as int),
                Err(ParseError::Mismatch) => false,
            },
        },
{
    match scan_doc_string(input, 0) {
        None => Err(ParseError::Mismatch),
        Some((sp, q)) => {
            let t = decode_span(input, sp)?;
            Ok((q, trim_text(t.as_str())))
        },
    }
}

/// What turning a sequence of recognised units into items gives: all the items,
/// or the offset of a span, in one of them, that is not UTF-8.
pub open spec fn all_decoded(s: Seq<u8>, raws: Seq<RawItem>, r: Result<Vec<Item>, ParseError>) -> bool {
    match r {
        Ok(v) => (forall|k: int| 0 <= k < raws.len() ==> item_ok(s, #[trigger] raws[k]))
            && items_view(v@) == raws.map_values(|it: RawItem| item_model(s, it)),
        Err(ParseError::Malformed { offset }) => exists|k: int|
            0 <= k < raws.len() && (forall|j: int| 0 <= j < k ==> item_ok(s, #[trigger] raws[j]))
                && !item_ok(s, #[trigger] raws[k]) && item_bad(s, raws[k]) == Some(offset as int),
        Err(ParseError::Mismatch) => false,
    }
}

pub open spec fn raw_items(v: Seq<(RawItem, int)>) -> Seq<RawItem> {
    v.map_values(|x: (RawItem, int)| x.0)
}

/// The items from `p` to the end of the input.
fn items_at(s: &[u8], p: usize) -> (r: Result<Vec<Item>, ParseError>)
    requires
        p <= s@.len(),
    ensures
        all_decoded(s@, raw_items(items_from(s@, p as int)), r),
{
    let mut out: Vec<Item> = Vec::new();
    let mut i = p;
    let ghost done: Seq<(RawItem, int)> = seq![];
    while i < s.len()
        invariant
            p <= i <= s@.len(),
            done + items_from(s@, i as int) == items_from(s@, p as int),
            forall|k: int| 0 <= k < done.len() ==> item_ok(s@, #[trigger] done[k].0),
            items_view(out@) == raw_items(done).map_values(|it: RawItem| item_model(s@, it)),
        decreases s@.len() - i,
    {
        let (it, q) = scan_item(s, i);
        let ghost entry = (it@, q as int);
        assert(items_from(s@, i as int) == seq![entry] + items_from(s@, q as int));
        match decode_item(s, &it) {
            Ok(x) => {
                proof {
                    assert(done.push(entry) + items_from(s@, q as int) =~= done + items_from(
                        s@,
                        i as int,
                    ));
                    assert(raw_items(done.push(entry)) =~= raw_items(done).push(it@));
                    assert(items_view(out@.push(x)) =~= items_view(out@).push(x@));
                    assert(raw_items(done.push(entry)).map_values(
                        |it: RawItem| item_model(s@, it),
                    ) =~= raw_items(done).map_values(|it: RawItem| item_model(s@, it)).push(
                        item_model(s@, it@),
                    ));
                    done = done.push(entry);
                }
                out.push(x);
                i = q;
            },
            Err(e) => {
                proof {
                    let all = items_from(s@, p as int);
                    assert(all[done.len() as int] == entry);
                    assert(raw_items(all)[done.len() as int] == it@);
                }
                return Err(e);
            },
        }
    }
    proof {
        assert(items_from(s@, i as int) =~= seq![]);
        assert(done =~= items_from(s@, p as int));
    }
    Ok(out)
}

/// The items of the whole input, without the module doc-string item, and how
/// much of the input they take.
pub fn items(input: &[u8]) -> (r: Result<(usize, Vec<Item>), ParseError>)
    ensures
        all_decoded(
            input@,
            raw_items(items_from(input@, 0)),
            match r {
                Ok((_, v)) => Ok(v),
                Err(e) => Err(e),
            },
        ),
        r matches Ok((e, _)) ==> e == input@.len(),
{
    let v = items_at(input, 0);
    match v {
        Ok(v) => Ok((input.len(), v)),
        Err(e) => Err(e),
    }
}

/// Parses a whole module: the module doc-string item first, then every item
/// that follows, in source order.
pub fn parse(source: &[u8]) -> (r: Result<Vec<Item>, ParseError>)
    ensures
        all_decoded(source@, module_items(source@), r),
        valid_utf8(source@) ==> r is Ok,
{
    proof {
        if valid_utf8(source@) {
            crate::utf8_edges::law_valid_text_parses(source@);
        }
    }
    let (m, first) = match item_module_doc_string(source) {
        Ok(x) => x,
        Err(e) => {
            proof {
                assert(module_items(source@)[0] == module_doc_at(source@).0);
            }
            return Err(e);
        },
    };
    let rest = match items_at(source, m) {
        Ok(v) => v,
        Err(e) => {
            proof {
                let raws = raw_items(items_from(source@, m as int));
                let all = module_items(source@);
                assert(all =~= seq![module_doc_at(source@).0] + raws);
                if let ParseError::Malformed { offset } = e {
                    let k = choose|k: int|
                        0 <= k < raws.len() && (forall|j: int|
                            0 <= j < k ==> item_ok(source@, #[trigger] raws[j])) && !item_ok(
                            source@,
                            #[trigger] raws[k],
                        ) && item_bad(source@, raws[k]) == Some(offset as int);
                    assert(all[k + 1] == raws[k]);
                    assert forall|j: int| 0 <= j < k + 1 implies item_ok(source@, #[trigger] all[j]) by {
                        if j > 0 {
                            assert(all[j] == raws[j - 1]);
                        }
                    }
                }
            }
            return Err(e);
        },
    };
    let mut out: Vec<Item> = Vec::new();
    out.push(first);
    let mut rest = rest;
    let ghost rest_view = rest@;
    out.append(&mut rest);
    proof {
        let raws = module_items(source@);
        let tail = raw_items(items_from(source@, m as int));
        assert(raws =~= seq![module_doc_at(source@).0] + tail);
        assert(raws.map_values(|it: RawItem| item_model(source@, it)) =~= seq![
            item_model(source@, module_doc_at(source@).0),
        ] + tail.map_values(|it: RawItem| item_model(source@, it)));
        assert(items_view(out@) =~= seq![first@] + items_view(rest_view));
        assert forall|k: int| 0 <= k < raws.len() implies item_ok(source@, #[trigger] raws[k]) by {
            if k > 0 {
                assert(raws[k] == tail[k - 1]);
            }
        }
    }
    Ok(out)
}

} // verus!
