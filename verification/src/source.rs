//! Walking the items of one parsed source file: each item is recorded under its def
//! path with the spans that reach it, inline modules are followed with the spans they
//! hand down, and out-of-line modules become tasks for the files that hold them.
//!
//! A parsed file arrives as a [`SourceFile`]: its items one for one, an inline module
//! holding its own items.
use vstd::prelude::*;

use crate::assembly::ItemShape;
use crate::attribute::{DirectiveV, SpecdrsArgsV};
use crate::identity::{impl_owner_spec, item_path, item_path_spec, PathSyntax, PathV, TypeSyntax, TypeV};
use crate::scan::{
    append_declarations, declarations_fold, has_attribute, has_attribute_spec, memberships_fold, module_memberships,
    module_span_declarations, record_spec, scan_impl_spec, annotations_fold, impl_annotations_fold,
    impl_directives_fold, location, methods_fold, ImplStateV, ScannedEntryV, AttributeText, AttributeTextV, FileScan,
    FileScanV, ItemText, ItemTextV, MacroText, MacroTextV, MethodText, MethodTextV,
};
use crate::sets::{
    insert_all, insert_string, lemma_insert_all, lemma_insert_all_contents, lemma_set_of, ordered_set,
    strictly_sorted,
};
use crate::text::{append, clone_opt_string, clone_strings, concat, string_lit};

verus! {

/// What kind of Rust item a source item is.
#[derive(Debug, Clone, Copy, PartialEq, Eq, Structural)]
pub enum SourceKind {
    Function,
    Struct,
    Enum,
    Union,
    TypeAlias,
    Trait,
    Const,
    Static,
    Module,
    Impl,
    Macro,
    Other,
}

/// One item of a parsed source file, as plain text and positions. `text.signature`
/// holds the printed part its signature is built from: a function's signature, a
/// type's or trait's generics, a const's or static's type. A macro invocation names the
/// macro (its path's last segment) and holds its argument tokens as printed.
#[derive(Debug)]
pub struct SourceItem {
    pub kind: SourceKind,
    /// The item's identifier; empty for an implementation.
    pub name: String,
    pub text: ItemText,
    /// The functions of a trait or an implementation.
    pub methods: Vec<MethodText>,
    /// The implemented type of an implementation.
    pub impl_type: Option<TypeSyntax>,
    /// The implemented trait of a trait implementation.
    pub impl_trait: Option<PathSyntax>,
    /// The items of a module written inline.
    pub content: Option<Vec<SourceItem>>,
    /// The value of a `#[path = "..."]` attribute on a module.
    pub path_attr: Option<String>,
    /// The argument tokens of a macro invocation.
    pub tokens: String,
}

/// A parsed source file: its items.
#[derive(Debug)]
pub struct SourceFile {
    pub items: Vec<SourceItem>,
}

/// An out-of-line module whose file is still to be read: its name and `#[path]`
/// attribute, the inline module directories between the file's module directory and
/// it, its module path, the spans it inherits and its own def path.
#[derive(Debug)]
pub struct ModuleTask {
    pub name: String,
    pub path_attr: Option<String>,
    pub dir: Vec<String>,
    pub modules: Vec<String>,
    pub inherited_spans: Vec<String>,
    pub module_item: String,
}

/// What one source file contributes: its scan, the out-of-line modules it leads to,
/// and, for a module's own file, that module's def path with the spans the file
/// declares for it.
#[derive(Debug)]
pub struct SourceOutcome {
    pub scan: FileScan,
    pub children: Vec<ModuleTask>,
    pub module_membership: Option<(String, Vec<String>)>,
}

/// Mathematical value of a [`SourceItem`].
pub struct SourceItemV {
    pub kind: SourceKind,
    pub name: Seq<char>,
    pub text: ItemTextV,
    pub methods: Seq<MethodTextV>,
    pub impl_type: Option<TypeV>,
    pub impl_trait: Option<PathV>,
    pub content: Option<Seq<SourceItemV>>,
    pub path_attr: Option<Seq<char>>,
    pub tokens: Seq<char>,
}

/// Mathematical value of a [`ModuleTask`].
pub struct ModuleTaskV {
    pub name: Seq<char>,
    pub path_attr: Option<Seq<char>>,
    pub dir: Seq<Seq<char>>,
    pub modules: Seq<Seq<char>>,
    pub inherited_spans: Seq<Seq<char>>,
    pub module_item: Seq<char>,
}

/// Mathematical value of a [`SourceOutcome`].
pub struct SourceOutcomeV {
    pub scan: FileScanV,
    pub children: Seq<ModuleTaskV>,
    pub module_membership: Option<(Seq<char>, Seq<Seq<char>>)>,
}

/// Mathematical value of a [`SourceItem`].
pub open spec fn item_view(it: SourceItem) -> SourceItemV
    decreases it, 0nat,
{
    SourceItemV {
        kind: it.kind,
        name: it.name@,
        text: it.text.deep_view(),
        methods: it.methods.deep_view(),
        impl_type: it.impl_type.deep_view(),
        impl_trait: it.impl_trait.deep_view(),
        content: match it.content {
            Some(v) => Some(items_view(v@, v@.len())),
            None => None,
        },
        path_attr: it.path_attr.deep_view(),
        tokens: it.tokens@,
    }
}

/// Mathematical values of the first `k` items of `s`.
pub open spec fn items_view(s: Seq<SourceItem>, k: nat) -> Seq<SourceItemV>
    decreases s, k,
{
    if k == 0 || k > s.len() {
        Seq::empty()
    } else {
        proof {
            assert(decreases_to!(s => s[k - 1]));
        }
        items_view(s, (k - 1) as nat).push(item_view(s[k - 1]))
    }
}

/// Mathematical value of a list of items.
pub open spec fn items_of(v: Vec<SourceItem>) -> Seq<SourceItemV> {
    items_view(v@, v@.len())
}

proof fn lemma_items_view(s: Seq<SourceItem>, k: nat)
    requires
        k <= s.len(),
    ensures
        items_view(s, k).len() == k,
        forall|i: int| 0 <= i < k ==> #[trigger] items_view(s, k)[i] == item_view(s[i]),
    decreases k,
{
    if k > 0 {
        lemma_items_view(s, (k - 1) as nat);
    }
}

impl DeepView for ModuleTask {
    type V = ModuleTaskV;

    open spec fn deep_view(&self) -> ModuleTaskV {
        ModuleTaskV {
            name: self.name@,
            path_attr: self.path_attr.deep_view(),
            dir: self.dir.deep_view(),
            modules: self.modules.deep_view(),
            inherited_spans: self.inherited_spans.deep_view(),
            module_item: self.module_item@,
        }
    }
}

impl DeepView for SourceOutcome {
    type V = SourceOutcomeV;

    open spec fn deep_view(&self) -> SourceOutcomeV {
        SourceOutcomeV {
            scan: self.scan.deep_view(),
            children: self.children.deep_view(),
            module_membership: self.module_membership.deep_view(),
        }
    }
}

// ---------------------------------------------------------------------------
// The walk.

/// The signature recorded for an item: a function's own signature, and for other items
/// the keyword, the identifier and the printed generics or type.
pub open spec fn signature_of(it: SourceItemV) -> Seq<char> {
    match it.kind {
        SourceKind::Struct => "struct "@ + it.name + it.text.signature,
        SourceKind::Enum => "enum "@ + it.name + it.text.signature,
        SourceKind::Union => "union "@ + it.name + it.text.signature,
        SourceKind::TypeAlias => "type "@ + it.name + it.text.signature,
        SourceKind::Trait => "trait "@ + it.name + it.text.signature,
        SourceKind::Const => "const "@ + it.name + ": "@ + it.text.signature,
        SourceKind::Static => "static "@ + it.name + ": "@ + it.text.signature,
        SourceKind::Module => "mod "@ + it.name,
        _ => it.text.signature,
    }
}

/// The shape an item is recorded with.
pub open spec fn shape_of(it: SourceItemV) -> ItemShape {
    match it.kind {
        SourceKind::Function => ItemShape::Function { test: has_attribute_spec(it.text.attrs, "test"@) },
        SourceKind::Struct | SourceKind::Enum | SourceKind::Union | SourceKind::TypeAlias
        | SourceKind::Trait => ItemShape::Type,
        _ => ItemShape::Other,
    }
}

/// The scan after the first `n` functions of the trait whose def path is `trait_path`
/// are recorded, in the module `m` of `file` with the spans `spans`.
pub open spec fn trait_methods_fold(
    scan: FileScanV,
    ms: Seq<MethodTextV>,
    trait_path: Seq<Seq<char>>,
    file: Seq<char>,
    m: Seq<Seq<char>>,
    spans: Seq<Seq<char>>,
    n: nat,
) -> FileScanV
    decreases n,
{
    if n == 0 || n > ms.len() {
        scan
    } else {
        let prev = trait_methods_fold(scan, ms, trait_path, file, m, spans, (n - 1) as nat);
        let x = ms[n - 1];
        record_spec(
            prev,
            x.item,
            item_path_spec(trait_path, x.name),
            None,
            ItemShape::Function { test: has_attribute_spec(x.item.attrs, "test"@) },
            file,
            m,
            spans,
        ).0
    }
}

/// The macro invocations among `items`, in order.
pub open spec fn macros_of(items: Seq<SourceItemV>, n: nat) -> Seq<MacroTextV>
    decreases n,
{
    if n == 0 || n > items.len() {
        Seq::empty()
    } else {
        let prev = macros_of(items, (n - 1) as nat);
        let it = items[n - 1];
        if it.kind == SourceKind::Macro {
            prev.push(MacroTextV { name: it.name, line: it.text.start.line as nat, tokens: it.tokens })
        } else {
            prev
        }
    }
}

/// The scan and module tasks after item `it` is walked, in the module `m` of `file`,
/// holding the spans `spans`, `dir` being the inline module directories down to it:
/// - a function, type, trait, const or static is recorded under its def path, and a
///   trait's functions under the trait's path;
/// - a module is recorded with the spans it inherits and the ones its own
///   `specdrs_module!` invocations declare; an inline module's span declarations are
///   collected and its items walked with those spans and the ones the module's
///   attributes hand down, and an out-of-line module becomes a task with them;
/// - an implementation is scanned with its owner paths.
pub open spec fn item_step(
    st: (FileScanV, Seq<ModuleTaskV>),
    it: SourceItemV,
    file: Seq<char>,
    m: Seq<Seq<char>>,
    spans: Seq<Seq<char>>,
    dir: Seq<Seq<char>>,
) -> (FileScanV, Seq<ModuleTaskV>)
    decreases it, 0nat,
{
    let (scan, children) = st;
    let text = ItemTextV { signature: signature_of(it), ..it.text };
    let path = item_path_spec(m, it.name);
    match it.kind {
        SourceKind::Module => {
            let child_path = m.push(it.name);
            let (scan1, declared) = match it.content {
                Some(c) => {
                    let macros = macros_of(c, c.len());
                    let d = declarations_fold(file, child_path, macros, macros.len());
                    let f = memberships_fold(file, macros, macros.len());
                    (
                        FileScanV {
                            span_declarations: scan.span_declarations + d.0,
                            errors: scan.errors + d.1 + f.1,
                            ..scan
                        },
                        ordered_set(f.0),
                    )
                },
                None => (scan, Seq::empty()),
            };
            let module_spans = insert_all(spans, declared, declared.len());
            let rec = record_spec(scan1, text, path, None, ItemShape::Other, file, m, module_spans);
            let child_spans = insert_all(module_spans, rec.1, rec.1.len());
            match it.content {
                Some(c) => {
                    proof {
                        assert(decreases_to!(it => it.content));
                    }
                    walk_items((rec.0, children), c, c.len(), file, child_path, child_spans, dir.push(it.name))
                },
                None => (
                    rec.0,
                    children.push(
                        ModuleTaskV {
                            name: it.name,
                            path_attr: it.path_attr,
                            dir,
                            modules: child_path,
                            inherited_spans: child_spans,
                            module_item: path,
                        },
                    ),
                ),
            }
        },
        SourceKind::Impl => match it.impl_type {
            Some(t) => (
                scan_impl_spec(
                    scan,
                    it.text.attrs,
                    it.text.start.line as nat,
                    file,
                    m,
                    spans,
                    t,
                    it.impl_trait,
                    it.methods,
                ),
                children,
            ),
            None => (scan, children),
        },
        SourceKind::Other | SourceKind::Macro => (scan, children),
        SourceKind::Trait => {
            let s1 = record_spec(scan, text, path, None, shape_of(it), file, m, spans).0;
            (trait_methods_fold(s1, it.methods, m.push(it.name), file, m, spans, it.methods.len()), children)
        },
        _ => (record_spec(scan, text, path, None, shape_of(it), file, m, spans).0, children),
    }
}

/// The scan and module tasks after the first `n` of `items` are walked; see
/// [`item_step`].
pub open spec fn walk_items(
    st: (FileScanV, Seq<ModuleTaskV>),
    items: Seq<SourceItemV>,
    n: nat,
    file: Seq<char>,
    m: Seq<Seq<char>>,
    spans: Seq<Seq<char>>,
    dir: Seq<Seq<char>>,
) -> (FileScanV, Seq<ModuleTaskV>)
    decreases items, n,
{
    if n == 0 || n > items.len() {
        st
    } else {
        proof {
            assert(decreases_to!(items => items[n - 1]));
        }
        item_step(
            walk_items(st, items, (n - 1) as nat, file, m, spans, dir),
            items[n - 1],
            file,
            m,
            spans,
            dir,
        )
    }
}

/// What a parsed file of `items` contributes when read as the module `m` holding the
/// `inherited` spans: the spans its top-level `specdrs_module!` invocations declare are
/// added to what every item inherits and, for a module's own file, reported for that
/// module; its top-level span declarations are collected; and its items are walked.
pub open spec fn source_outcome(
    items: Seq<SourceItemV>,
    file: Seq<char>,
    m: Seq<Seq<char>>,
    inherited: Seq<Seq<char>>,
    module_item: Option<Seq<char>>,
) -> SourceOutcomeV {
    let macros = macros_of(items, items.len());
    let f = memberships_fold(file, macros, macros.len());
    let d = declarations_fold(file, m, macros, macros.len());
    let declared = ordered_set(f.0);
    let scan0 = FileScanV {
        items: Seq::empty(),
        errors: f.1 + d.1,
        span_declarations: d.0,
        container_members: Seq::empty(),
    };
    let spans = insert_all(inherited, declared, declared.len());
    let w = walk_items((scan0, Seq::empty()), items, items.len(), file, m, spans, Seq::empty());
    SourceOutcomeV {
        scan: w.0,
        children: w.1,
        module_membership: match module_item {
            Some(p) => Some((p, declared)),
            None => None,
        },
    }
}

fn copy_attrs(a: &Vec<AttributeText>) -> (r: Vec<AttributeText>)
    ensures
        r.deep_view() == a.deep_view(),
{
    let mut r: Vec<AttributeText> = Vec::new();
    let mut k: usize = 0;
    while k < a.len()
        invariant
            k <= a.len(),
            r.deep_view() == a.deep_view().take(k as int),
        decreases a.len() - k,
    {
        let x = AttributeText { name: a[k].name.clone(), arguments: clone_opt_string(&a[k].arguments) };
        let ghost before = r.deep_view();
        r.push(x);
        assert(r.deep_view() =~= before.push(x.deep_view()));
        assert(a.deep_view().take(k + 1) =~= a.deep_view().take(k as int).push(a.deep_view()[k as int]));
        k = k + 1;
    }
    assert(a.deep_view().take(k as int) =~= a.deep_view());
    r
}

fn with_signature(t: &ItemText, signature: String) -> (r: ItemText)
    ensures
        r.deep_view() == (ItemTextV { signature: signature@, ..t.deep_view() }),
{
    ItemText { attrs: copy_attrs(&t.attrs), start: t.start, end: t.end, signature }
}

fn signature_text(it: &SourceItem) -> (r: String)
    ensures
        r@ == signature_of(item_view(*it)),
{
    proof {
        reveal_strlit(": ");
    }
    let (keyword, typed) = match it.kind {
        SourceKind::Struct => ("struct ", false),
        SourceKind::Enum => ("enum ", false),
        SourceKind::Union => ("union ", false),
        SourceKind::TypeAlias => ("type ", false),
        SourceKind::Trait => ("trait ", false),
        SourceKind::Const => ("const ", true),
        SourceKind::Static => ("static ", true),
        SourceKind::Module => {
            return concat("mod ", it.name.as_str());
        },
        _ => {
            return it.text.signature.clone();
        },
    };
    let mut r = concat(keyword, it.name.as_str());
    if typed {
        append(&mut r, ": ");
    }
    append(&mut r, it.text.signature.as_str());
    r
}

fn shape_for(it: &SourceItem) -> (r: ItemShape)
    ensures
        r == shape_of(item_view(*it)),
{
    proof {
        reveal_strlit("test");
    }
    match it.kind {
        SourceKind::Function => ItemShape::Function { test: has_attribute(&it.text.attrs, "test") },
        SourceKind::Struct | SourceKind::Enum | SourceKind::Union | SourceKind::TypeAlias
        | SourceKind::Trait => ItemShape::Type,
        _ => ItemShape::Other,
    }
}

fn union_into(base: &Vec<String>, xs: &Vec<String>) -> (r: Vec<String>)
    ensures
        r.deep_view() == insert_all(base.deep_view(), xs.deep_view(), xs@.len()),
{
    let mut r = clone_strings(base);
    let ghost xv = xs.deep_view();
    let mut j: usize = 0;
    while j < xs.len()
        invariant
            j <= xs.len(),
            xv == xs.deep_view(),
            r.deep_view() == insert_all(base.deep_view(), xv, j as nat),
        decreases xs.len() - j,
    {
        insert_string(&mut r, &xs[j]);
        j = j + 1;
    }
    r
}

fn record_trait_methods(
    scan: &mut FileScan,
    ms: &Vec<MethodText>,
    trait_path: &Vec<String>,
    file: &String,
    m: &Vec<String>,
    spans: &Vec<String>,
)
    ensures
        final(scan).deep_view() == trait_methods_fold(
            old(scan).deep_view(),
            ms.deep_view(),
            trait_path.deep_view(),
            file@,
            m.deep_view(),
            spans.deep_view(),
            ms@.len(),
        ),
{
    proof {
        reveal_strlit("test");
    }
    let ghost s0 = scan.deep_view();
    let ghost mv = ms.deep_view();
    let mut k: usize = 0;
    while k < ms.len()
        invariant
            k <= ms.len(),
            mv == ms.deep_view(),
            scan.deep_view() == trait_methods_fold(
                s0,
                mv,
                trait_path.deep_view(),
                file@,
                m.deep_view(),
                spans.deep_view(),
                k as nat,
            ),
        decreases ms.len() - k,
    {
        let x = &ms[k];
        let path = item_path(trait_path, x.name.as_str());
        let test = has_attribute(&x.item.attrs, "test");
        let _ = scan.record(&x.item, path, None, ItemShape::Function { test }, file, m, spans);
        k = k + 1;
    }
}

/// The macro invocations among `items`; see [`macros_of`].
fn module_macros(items: &Vec<SourceItem>) -> (r: Vec<MacroText>)
    ensures
        r.deep_view() == macros_of(items_of(*items), items@.len()),
{
    let ghost iv = items_of(*items);
    proof {
        lemma_items_view(items@, items@.len());
    }
    let mut r: Vec<MacroText> = Vec::new();
    let mut k: usize = 0;
    while k < items.len()
        invariant
            k <= items@.len(),
            iv == items_of(*items),
            iv.len() == items@.len(),
            forall|i: int| 0 <= i < items@.len() ==> #[trigger] iv[i] == item_view(items@[i]),
            r.deep_view() == macros_of(iv, k as nat),
        decreases items@.len() - k,
    {
        let it = &items[k];
        assert(iv[k as int] == item_view(items@[k as int]));
        if it.kind == SourceKind::Macro {
            let x = MacroText { name: it.name.clone(), line: it.text.start.line, tokens: it.tokens.clone() };
            let ghost before = r.deep_view();
            r.push(x);
            assert(r.deep_view() =~= before.push(x.deep_view()));
        }
        k = k + 1;
    }
    r
}

fn walk_module_item(
    it: &SourceItem,
    file: &String,
    m: &Vec<String>,
    spans: &Vec<String>,
    dir: &Vec<String>,
    scan: &mut FileScan,
    children: &mut Vec<ModuleTask>,
)
    requires
        it.kind == SourceKind::Module,
    ensures
        (final(scan).deep_view(), final(children).deep_view()) == item_step(
            (old(scan).deep_view(), old(children).deep_view()),
            item_view(*it),
            file@,
            m.deep_view(),
            spans.deep_view(),
            dir.deep_view(),
        ),
    decreases *it, 0nat,
{
    let mut child_path = clone_strings(m);
    child_path.push(it.name.clone());
    assert(child_path.deep_view() =~= m.deep_view().push(it.name@));
    let declared = match &it.content {
        Some(c) => {
            proof {
                lemma_items_view(c@, c@.len());
            }
            let macros = module_macros(c);
            let d = module_span_declarations(&macros, file.as_str(), &child_path, &mut scan.errors);
            append_declarations(&mut scan.span_declarations, d);
            module_memberships(&macros, file.as_str(), &mut scan.errors)
        },
        None => Vec::new(),
    };
    assert(it.content is None ==> declared.deep_view() =~= Seq::<Seq<char>>::empty());
    let module_spans = union_into(spans, &declared);
    let text = with_signature(&it.text, signature_text(it));
    let path = item_path(m, it.name.as_str());
    let direct = scan.record(&text, path, None, ItemShape::Other, file, m, &module_spans);
    let child_spans = union_into(&module_spans, &direct);
    match &it.content {
        Some(c) => {
            let mut child_dir = clone_strings(dir);
            child_dir.push(it.name.clone());
            assert(child_dir.deep_view() =~= dir.deep_view().push(it.name@));
            proof {
                assert(decreases_to!(*it => it.content));
                lemma_items_view(c@, c@.len());
                assert(item_view(*it).content == Some(items_of(*c)));
            }
            walk_module(c, file, &child_path, &child_spans, &child_dir, scan, children);
        },
        None => {
            let task = ModuleTask {
                name: it.name.clone(),
                path_attr: clone_opt_string(&it.path_attr),
                dir: clone_strings(dir),
                modules: child_path,
                inherited_spans: child_spans,
                module_item: item_path(m, it.name.as_str()),
            };
            let ghost before = children.deep_view();
            children.push(task);
            assert(children.deep_view() =~= before.push(task.deep_view()));
        },
    }
}

fn walk_item(
    it: &SourceItem,
    file: &String,
    m: &Vec<String>,
    spans: &Vec<String>,
    dir: &Vec<String>,
    scan: &mut FileScan,
    children: &mut Vec<ModuleTask>,
)
    ensures
        (final(scan).deep_view(), final(children).deep_view()) == item_step(
            (old(scan).deep_view(), old(children).deep_view()),
            item_view(*it),
            file@,
            m.deep_view(),
            spans.deep_view(),
            dir.deep_view(),
        ),
    decreases *it, 1nat,
{
    match it.kind {
        SourceKind::Module => {
            walk_module_item(it, file, m, spans, dir, scan, children);
        },
        SourceKind::Impl => {
            match &it.impl_type {
                Some(t) => {
                    scan.scan_impl(&it.text.attrs, it.text.start.line, file, m, spans, t, &it.impl_trait, &it.methods);
                },
                None => {},
            }
        },
        SourceKind::Other | SourceKind::Macro => {},
        _ => {
            let text = with_signature(&it.text, signature_text(it));
            let path = item_path(m, it.name.as_str());
            let _ = scan.record(&text, path, None, shape_for(it), file, m, spans);
            if it.kind == SourceKind::Trait {
                let mut trait_path = clone_strings(m);
                trait_path.push(it.name.clone());
                assert(trait_path.deep_view() =~= m.deep_view().push(it.name@));
                record_trait_methods(scan, &it.methods, &trait_path, file, m, spans);
            }
        },
    }
}

/// Walks `items` in the module `m` of `file` holding the spans `spans`; see
/// [`walk_items`].
pub fn walk_module(
    items: &Vec<SourceItem>,
    file: &String,
    m: &Vec<String>,
    spans: &Vec<String>,
    dir: &Vec<String>,
    scan: &mut FileScan,
    children: &mut Vec<ModuleTask>,
)
    ensures
        (final(scan).deep_view(), final(children).deep_view()) == walk_items(
            (old(scan).deep_view(), old(children).deep_view()),
            items_of(*items),
            items@.len(),
            file@,
            m.deep_view(),
            spans.deep_view(),
            dir.deep_view(),
        ),
    decreases items@, 2nat,
{
    let ghost iv = items_of(*items);
    let ghost st0 = (scan.deep_view(), children.deep_view());
    proof {
        lemma_items_view(items@, items@.len());
    }
    let mut i: usize = 0;
    while i < items.len()
        invariant
            iv == items_of(*items),
            iv.len() == items@.len(),
            forall|x: int| 0 <= x < items@.len() ==> #[trigger] iv[x] == item_view(items@[x]),
            i <= items@.len(),
            (scan.deep_view(), children.deep_view()) == walk_items(
                st0,
                iv,
                i as nat,
                file@,
                m.deep_view(),
                spans.deep_view(),
                dir.deep_view(),
            ),
        decreases items@.len() - i,
    {
        assert(iv[i as int] == item_view(items@[i as int]));
        proof {
            assert(decreases_to!(items@ => items@[i as int]));
        }
        walk_item(&items[i], file, m, spans, dir, scan, children);
        i = i + 1;
    }
}

/// Scans one parsed source file read as the module `modules` of `file` holding the
/// `inherited` spans, `module_item` being the def path of the module whose own file it
/// is; see [`source_outcome`].
pub fn scan_source(
    src: &SourceFile,
    file: &String,
    modules: &Vec<String>,
    inherited: &Vec<String>,
    module_item: &Option<String>,
) -> (r: SourceOutcome)
    ensures
        r.deep_view() == source_outcome(
            items_of(src.items),
            file@,
            modules.deep_view(),
            inherited.deep_view(),
            module_item.deep_view(),
        ),
{
    let mut scan = FileScan::new();
    let macros = module_macros(&src.items);
    proof {
        lemma_items_view(src.items@, src.items@.len());
    }
    let declared = module_memberships(&macros, file.as_str(), &mut scan.errors);
    let d = module_span_declarations(&macros, file.as_str(), modules, &mut scan.errors);
    append_declarations(&mut scan.span_declarations, d);
    let spans = union_into(inherited, &declared);
    let mut children: Vec<ModuleTask> = Vec::new();
    assert(children.deep_view() =~= Seq::<ModuleTaskV>::empty());
    let dir: Vec<String> = Vec::new();
    assert(dir.deep_view() =~= Seq::<Seq<char>>::empty());
    assert(scan.span_declarations.deep_view() =~= Seq::<crate::assembly::ScannedSpanV>::empty() + scan.span_declarations.deep_view());
    walk_module(&src.items, file, modules, &spans, &dir, &mut scan, &mut children);
    let module_membership = match module_item {
        Some(p) => Some((p.clone(), declared)),
        None => None,
    };
    SourceOutcome { scan, children, module_membership }
}

/// The diagnostic for reading the file `file` again while one of the files that include
/// it, `ancestors`, is still open: a module inclusion cycle.
pub fn inclusion_cycle(ancestors: &Vec<String>, file: &String) -> (r: Option<String>)
    ensures
        match r {
            Some(m) => ancestors.deep_view().contains(file@) && m@ == "module inclusion cycle reaches "@ + file@,
            None => !ancestors.deep_view().contains(file@),
        },
{
    let ghost av = ancestors.deep_view();
    let mut k: usize = 0;
    while k < ancestors.len()
        invariant
            k <= ancestors.len(),
            av == ancestors.deep_view(),
            forall|x: int| 0 <= x < k ==> av[x] != file@,
        decreases ancestors.len() - k,
    {
        if ancestors[k] == *file {
            assert(av[k as int] == file@);
            return Some(concat("module inclusion cycle reaches ", file.as_str()));
        }
        k = k + 1;
    }
    None
}

// ---------------------------------------------------------------------------
// Memberships reach every descendant.

/// Entries from position `from` on each carry every span of `spans`.
pub open spec fn holds_spans(es: Seq<ScannedEntryV>, from: int, spans: Seq<Seq<char>>) -> bool {
    forall|i: int, x: Seq<char>|
        from <= i < es.len() && spans.contains(x) ==> #[trigger] es[i].item.inherited_spans.contains(x)
}

/// `b` keeps the entries of `a` and may add more after them.
pub open spec fn extends(a: Seq<ScannedEntryV>, b: Seq<ScannedEntryV>) -> bool {
    a.len() <= b.len() && forall|i: int| 0 <= i < a.len() ==> #[trigger] b[i] == a[i]
}

proof fn lemma_extends_trans(a: Seq<ScannedEntryV>, b: Seq<ScannedEntryV>, c: Seq<ScannedEntryV>)
    requires
        extends(a, b),
        extends(b, c),
    ensures
        extends(a, c),
{
    assert forall|i: int| 0 <= i < a.len() implies #[trigger] c[i] == a[i] by {
        assert(c[i] == b[i]);
    }
}

proof fn lemma_holds_join(
    a: Seq<ScannedEntryV>,
    b: Seq<ScannedEntryV>,
    c: Seq<ScannedEntryV>,
    spans: Seq<Seq<char>>,
)
    requires
        extends(a, b),
        extends(b, c),
        holds_spans(b, a.len() as int, spans),
        holds_spans(c, b.len() as int, spans),
    ensures
        holds_spans(c, a.len() as int, spans),
{
    assert forall|i: int, x: Seq<char>|
        a.len() <= i < c.len() && spans.contains(x) implies #[trigger] c[i].item.inherited_spans.contains(x) by {
        if i < b.len() {
            assert(c[i] == b[i]);
            assert(b[i].item.inherited_spans.contains(x));
        }
    }
}

proof fn lemma_record_holds(
    scan: FileScanV,
    t: ItemTextV,
    path: Seq<char>,
    alias: Option<Seq<char>>,
    shape: ItemShape,
    file: Seq<char>,
    m: Seq<Seq<char>>,
    inherited: Seq<Seq<char>>,
    spans: Seq<Seq<char>>,
)
    requires
        forall|x: Seq<char>| spans.contains(x) ==> inherited.contains(x),
    ensures
        extends(scan.items, record_spec(scan, t, path, alias, shape, file, m, inherited).0.items),
        holds_spans(record_spec(scan, t, path, alias, shape, file, m, inherited).0.items, scan.items.len() as int, spans),
{
    let r = record_spec(scan, t, path, alias, shape, file, m, inherited).0.items;
    assert(r.len() == scan.items.len() + 1);
    assert forall|i: int| 0 <= i < scan.items.len() implies #[trigger] r[i] == scan.items[i] by {}
}

proof fn lemma_trait_methods_holds(
    scan: FileScanV,
    ms: Seq<MethodTextV>,
    trait_path: Seq<Seq<char>>,
    file: Seq<char>,
    m: Seq<Seq<char>>,
    spans: Seq<Seq<char>>,
    n: nat,
)
    ensures
        extends(scan.items, trait_methods_fold(scan, ms, trait_path, file, m, spans, n).items),
        holds_spans(trait_methods_fold(scan, ms, trait_path, file, m, spans, n).items, scan.items.len() as int, spans),
    decreases n,
{
    if n > 0 && n <= ms.len() {
        lemma_trait_methods_holds(scan, ms, trait_path, file, m, spans, (n - 1) as nat);
        let prev = trait_methods_fold(scan, ms, trait_path, file, m, spans, (n - 1) as nat);
        let x = ms[n - 1];
        lemma_record_holds(
            prev,
            x.item,
            item_path_spec(trait_path, x.name),
            None,
            ItemShape::Function { test: has_attribute_spec(x.item.attrs, "test"@) },
            file,
            m,
            spans,
            spans,
        );
        let r = trait_methods_fold(scan, ms, trait_path, file, m, spans, n);
        lemma_extends_trans(scan.items, prev.items, r.items);
        lemma_holds_join(scan.items, prev.items, r.items, spans);
    } else {
        assert(extends(scan.items, scan.items));
    }
}

proof fn lemma_methods_holds(
    scan: FileScanV,
    methods: Seq<MethodTextV>,
    owner: Seq<char>,
    alias_owner: Option<Seq<char>>,
    file: Seq<char>,
    m: Seq<Seq<char>>,
    spans: Seq<Seq<char>>,
    n: nat,
)
    ensures
        extends(scan.items, methods_fold(scan, methods, owner, alias_owner, file, m, spans, n).0.items),
        holds_spans(methods_fold(scan, methods, owner, alias_owner, file, m, spans, n).0.items, scan.items.len() as int, spans),
    decreases n,
{
    if n > 0 && n <= methods.len() {
        lemma_methods_holds(scan, methods, owner, alias_owner, file, m, spans, (n - 1) as nat);
        let prev = methods_fold(scan, methods, owner, alias_owner, file, m, spans, (n - 1) as nat);
        let x = methods[n - 1];
        let path = owner + "::"@ + x.name;
        let alias = match alias_owner {
            Some(o) => Some(o + "::"@ + x.name),
            None => None,
        };
        let shape = ItemShape::Function { test: has_attribute_spec(x.item.attrs, "test"@) };
        lemma_record_holds(prev.0, x.item, path, alias, shape, file, m, spans, spans);
        let r = methods_fold(scan, methods, owner, alias_owner, file, m, spans, n).0;
        lemma_extends_trans(scan.items, prev.0.items, r.items);
        lemma_holds_join(scan.items, prev.0.items, r.items, spans);
    } else {
        assert(extends(scan.items, scan.items));
    }
}

proof fn lemma_impl_directives_grow(loc: Seq<char>, m: Seq<Seq<char>>, st: ImplStateV, ds: Seq<DirectiveV>, n: nat)
    ensures
        forall|x: Seq<char>| st.spans.contains(x) ==> #[trigger] impl_directives_fold(loc, m, st, ds, n).spans.contains(x),
    decreases n,
{
    broadcast use vstd::seq_lib::lemma_seq_contains_after_push;
    if n > 0 && n <= ds.len() {
        lemma_impl_directives_grow(loc, m, st, ds, (n - 1) as nat);
        let prev = impl_directives_fold(loc, m, st, ds, (n - 1) as nat);
        assert forall|x: Seq<char>| st.spans.contains(x) implies #[trigger] impl_directives_fold(loc, m, st, ds, n).spans.contains(x) by {
            assert(prev.spans.contains(x));
            let i = choose|i: int| 0 <= i < prev.spans.len() && prev.spans[i] == x;
            match ds[n - 1] {
                DirectiveV::InSpans(ids) => {
                    assert((prev.spans + ids)[i] == x);
                },
                _ => {},
            }
        }
    }
}

proof fn lemma_impl_annotations_grow(loc: Seq<char>, m: Seq<Seq<char>>, st: ImplStateV, anns: Seq<SpecdrsArgsV>, n: nat)
    ensures
        forall|x: Seq<char>| st.spans.contains(x) ==> #[trigger] impl_annotations_fold(loc, m, st, anns, n).spans.contains(x),
    decreases n,
{
    if n > 0 && n <= anns.len() {
        lemma_impl_annotations_grow(loc, m, st, anns, (n - 1) as nat);
        let prev = impl_annotations_fold(loc, m, st, anns, (n - 1) as nat);
        lemma_impl_directives_grow(loc, m, prev, anns[n - 1].directives, anns[n - 1].directives.len());
    }
}

proof fn lemma_impl_holds(
    scan: FileScanV,
    attrs: Seq<AttributeTextV>,
    line: nat,
    file: Seq<char>,
    m: Seq<Seq<char>>,
    spans: Seq<Seq<char>>,
    t: TypeV,
    tr: Option<PathV>,
    methods: Seq<MethodTextV>,
)
    ensures
        extends(scan.items, scan_impl_spec(scan, attrs, line, file, m, spans, t, tr, methods).items),
        holds_spans(scan_impl_spec(scan, attrs, line, file, m, spans, t, tr, methods).items, scan.items.len() as int, spans),
{
    let loc = location(file, line);
    let f = annotations_fold(file, line, attrs, attrs.len());
    let st0 = ImplStateV { spans, declared: Seq::empty(), decls: Seq::empty(), errors: scan.errors + f.1 };
    let st = impl_annotations_fold(loc, m, st0, f.0, f.0.len());
    let scan1 = FileScanV { errors: st.errors, span_declarations: scan.span_declarations + st.decls, ..scan };
    assert(extends(scan.items, scan.items));
    match impl_owner_spec(t, tr, m) {
        None => {},
        Some(owners) => {
            lemma_impl_annotations_grow(loc, m, st0, f.0, f.0.len());
            lemma_set_of(st.spans, st.spans.len());
            assert(st.spans.take(st.spans.len() as int) =~= st.spans);
            let os = ordered_set(st.spans);
            lemma_methods_holds(scan1, methods, owners.0, owners.1, file, m, os, methods.len());
            let mf = methods_fold(scan1, methods, owners.0, owners.1, file, m, os, methods.len());
            assert forall|i: int, x: Seq<char>|
                scan.items.len() <= i < mf.0.items.len() && spans.contains(x) implies #[trigger] mf.0.items[i].item.inherited_spans.contains(x) by {
                assert(st.spans.contains(x));
                assert(os.contains(x));
            }
        },
    }
}

proof fn lemma_item_step_holds(
    st: (FileScanV, Seq<ModuleTaskV>),
    it: SourceItemV,
    file: Seq<char>,
    m: Seq<Seq<char>>,
    spans: Seq<Seq<char>>,
    dir: Seq<Seq<char>>,
)
    requires
        strictly_sorted(spans),
    ensures
        extends(st.0.items, item_step(st, it, file, m, spans, dir).0.items),
        holds_spans(item_step(st, it, file, m, spans, dir).0.items, st.0.items.len() as int, spans),
    decreases it, 0nat,
{
    let (scan, children) = st;
    let text = ItemTextV { signature: signature_of(it), ..it.text };
    let path = item_path_spec(m, it.name);
    match it.kind {
        SourceKind::Module => {
            let child_path = m.push(it.name);
            let (scan1, declared) = match it.content {
                Some(c) => {
                    let macros = macros_of(c, c.len());
                    let d = declarations_fold(file, child_path, macros, macros.len());
                    let f = memberships_fold(file, macros, macros.len());
                    (
                        FileScanV {
                            span_declarations: scan.span_declarations + d.0,
                            errors: scan.errors + d.1 + f.1,
                            ..scan
                        },
                        ordered_set(f.0),
                    )
                },
                None => (scan, Seq::empty()),
            };
            let module_spans = insert_all(spans, declared, declared.len());
            lemma_insert_all_contents(spans, declared, declared.len());
            lemma_insert_all(spans, declared, declared.len());
            lemma_record_holds(scan1, text, path, None, ItemShape::Other, file, m, module_spans, spans);
            let rec = record_spec(scan1, text, path, None, ItemShape::Other, file, m, module_spans);
            let child_spans = insert_all(module_spans, rec.1, rec.1.len());
            match it.content {
                Some(c) => {
                    lemma_insert_all_contents(module_spans, rec.1, rec.1.len());
                    lemma_insert_all(module_spans, rec.1, rec.1.len());
                    assert(decreases_to!(it => it.content));
                    lemma_walk_holds((rec.0, children), c, c.len(), file, child_path, child_spans, dir.push(it.name));
                    let w = walk_items((rec.0, children), c, c.len(), file, child_path, child_spans, dir.push(it.name));
                    lemma_extends_trans(scan.items, rec.0.items, w.0.items);
                    assert forall|i: int, x: Seq<char>|
                        rec.0.items.len() <= i < w.0.items.len() && spans.contains(x) implies #[trigger] w.0.items[i].item.inherited_spans.contains(x) by {
                        assert(module_spans.contains(x));
                        assert(child_spans.contains(x));
                    }
                    lemma_holds_join(scan.items, rec.0.items, w.0.items, spans);
                },
                None => {},
            }
        },
        SourceKind::Impl => match it.impl_type {
            Some(t) => {
                lemma_impl_holds(scan, it.text.attrs, it.text.start.line as nat, file, m, spans, t, it.impl_trait, it.methods);
            },
            None => {
                assert(extends(scan.items, scan.items));
            },
        },
        SourceKind::Other | SourceKind::Macro => {
            assert(extends(scan.items, scan.items));
        },
        SourceKind::Trait => {
            lemma_record_holds(scan, text, path, None, shape_of(it), file, m, spans, spans);
            let s1 = record_spec(scan, text, path, None, shape_of(it), file, m, spans).0;
            lemma_trait_methods_holds(s1, it.methods, m.push(it.name), file, m, spans, it.methods.len());
            let s2 = trait_methods_fold(s1, it.methods, m.push(it.name), file, m, spans, it.methods.len());
            lemma_extends_trans(scan.items, s1.items, s2.items);
            lemma_holds_join(scan.items, s1.items, s2.items, spans);
        },
        _ => {
            lemma_record_holds(scan, text, path, None, shape_of(it), file, m, spans, spans);
        },
    }
}

proof fn lemma_walk_holds(
    st: (FileScanV, Seq<ModuleTaskV>),
    items: Seq<SourceItemV>,
    n: nat,
    file: Seq<char>,
    m: Seq<Seq<char>>,
    spans: Seq<Seq<char>>,
    dir: Seq<Seq<char>>,
)
    requires
        strictly_sorted(spans),
    ensures
        extends(st.0.items, walk_items(st, items, n, file, m, spans, dir).0.items),
        holds_spans(walk_items(st, items, n, file, m, spans, dir).0.items, st.0.items.len() as int, spans),
    decreases items, n,
{
    if n == 0 || n > items.len() {
        assert(extends(st.0.items, st.0.items));
    } else {
        lemma_walk_holds(st, items, (n - 1) as nat, file, m, spans, dir);
        let prev = walk_items(st, items, (n - 1) as nat, file, m, spans, dir);
        assert(decreases_to!(items => items[n - 1]));
        lemma_item_step_holds(prev, items[n - 1], file, m, spans, dir);
        let r = walk_items(st, items, n, file, m, spans, dir);
        lemma_extends_trans(st.0.items, prev.0.items, r.0.items);
        lemma_holds_join(st.0.items, prev.0.items, r.0.items, spans);
    }
}

/// Every item a file records carries the spans the file inherits and the ones its own
/// `specdrs_module!` invocations declare: memberships reach every item of the file,
/// inline descendants, trait functions and implementation methods included.
pub proof fn lemma_memberships_reach_descendants(
    items: Seq<SourceItemV>,
    file: Seq<char>,
    m: Seq<Seq<char>>,
    inherited: Seq<Seq<char>>,
    module_item: Option<Seq<char>>,
)
    requires
        strictly_sorted(inherited),
    ensures
        ({
            let r = source_outcome(items, file, m, inherited, module_item);
            let macros = macros_of(items, items.len());
            let declared = ordered_set(memberships_fold(file, macros, macros.len()).0);
            holds_spans(r.scan.items, 0, inherited) && holds_spans(r.scan.items, 0, declared)
        }),
{
    let macros = macros_of(items, items.len());
    let f = memberships_fold(file, macros, macros.len());
    let d = declarations_fold(file, m, macros, macros.len());
    let declared = ordered_set(f.0);
    let spans = insert_all(inherited, declared, declared.len());
    lemma_insert_all_contents(inherited, declared, declared.len());
    lemma_insert_all(inherited, declared, declared.len());
    assert(declared.take(declared.len() as int) =~= declared);
    let scan0 = FileScanV {
        items: Seq::empty(),
        errors: f.1 + d.1,
        span_declarations: d.0,
        container_members: Seq::empty(),
    };
    lemma_walk_holds((scan0, Seq::empty()), items, items.len(), file, m, spans, Seq::empty());
}

} // verus!
