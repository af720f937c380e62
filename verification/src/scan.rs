//! The decisions of a crate scan: reading the `specdrs` attributes and macros of each
//! parsed item, recording items with their memberships, and merging the scans of
//! files into one canonical index.
//!
//! Walking the syntax tree and reading files is the caller's part: it hands over each
//! attribute, macro and item as printed text and positions.
use vstd::prelude::*;

use crate::assembly::{
    aliases_resolve, directive_joins, index_wf, BuildError, ItemShape,
    ScanIndex, ScanIndexV, ScannedItem, ScannedItemV, ScannedSource, ScannedSourceV, ScannedSpan,
    ScannedSpanV,
};
use crate::attribute::{
    parse_span_args, parse_specdrs_args, span_args_of, specdrs_args_of, Directive, DirectiveV,
    SpecdrsArgs, SpecdrsArgsV,
};
use crate::docs::{clean_signature, tidy_tokens};
use crate::identity::{impl_owner_paths, impl_owner_spec, PathSyntax, PathV, TypeSyntax, TypeV};
use crate::model::SourcePosition;
use crate::sets::{
    values_sorted, set_map_add, add_to_set_map, lemma_set_map_add, lemma_set_map_add_contents, lemma_keyed_place_entries, lemma_find_key, insert_all, lemma_insert_all, find_key, key_position, insert_string, keyed_place, keys, lemma_keyed_place, lemma_set_insert,
    lemma_set_of, ordered_set, ordered_strings, place_keyed,
    strictly_sorted,
};
use crate::syntax::{
    arguments_message, error_message, impl_cannot_own_claims, impl_claims_message,
    module_message, span_entry_message, specdrs_module_requires_in_spans,
    specdrs_requires_arguments, specdrs_span_requires_entrypoint,
};
use crate::text::{append, clone_opt_string, clone_strings, decimal, decimal_string, string_lit};

verus! {

// ---------------------------------------------------------------------------
// Attributes and macros as text.

/// One attribute of a scanned item: the last segment of its path and, for a list
/// attribute, the text of its arguments.
#[derive(Debug)]
pub struct AttributeText {
    pub name: String,
    pub arguments: Option<String>,
}

/// Mathematical value of an [`AttributeText`].
pub struct AttributeTextV {
    pub name: Seq<char>,
    pub arguments: Option<Seq<char>>,
}

impl DeepView for AttributeText {
    type V = AttributeTextV;

    open spec fn deep_view(&self) -> AttributeTextV {
        AttributeTextV { name: self.name@, arguments: self.arguments.deep_view() }
    }
}

/// One macro invocation among a module's items: the last segment of its path, the
/// line it starts on, and the text of its tokens.
#[derive(Debug)]
pub struct MacroText {
    pub name: String,
    pub line: usize,
    pub tokens: String,
}

/// Mathematical value of a [`MacroText`].
pub struct MacroTextV {
    pub name: Seq<char>,
    pub line: nat,
    pub tokens: Seq<char>,
}

impl DeepView for MacroText {
    type V = MacroTextV;

    open spec fn deep_view(&self) -> MacroTextV {
        MacroTextV { name: self.name@, line: self.line as nat, tokens: self.tokens@ }
    }
}

/// `file:line`.
pub open spec fn location(file: Seq<char>, line: nat) -> Seq<char> {
    file + ":"@ + decimal(line)
}

fn location_text(file: &str, line: usize) -> (r: String)
    ensures
        r@ == location(file@, line as nat),
{
    proof {
        reveal_strlit(":");
    }
    let mut r = string_lit(file);
    append(&mut r, ":");
    let n = decimal_string(line);
    append(&mut r, n.as_str());
    r
}

/// Whether an attribute list holds an attribute whose last path segment is `name`.
pub open spec fn has_attribute_spec(attrs: Seq<AttributeTextV>, name: Seq<char>) -> bool {
    exists|k: int| 0 <= k < attrs.len() && #[trigger] attrs[k].name == name
}

/// Returns whether an attribute list contains the requested final path segment.
pub fn has_attribute(attrs: &Vec<AttributeText>, name: &str) -> (r: bool)
    ensures
        r == has_attribute_spec(attrs.deep_view(), name@),
{
    let ghost av = attrs.deep_view();
    let mut k: usize = 0;
    while k < attrs.len()
        invariant
            k <= attrs.len(),
            av == attrs.deep_view(),
            forall|j: int| 0 <= j < k ==> av[j].name != name@,
        decreases attrs.len() - k,
    {
        if crate::text::same_string(&attrs[k].name, name) {
            assert(av[k as int].name == name@);
            return true;
        }
        k = k + 1;
    }
    false
}

/// One attribute read: a `specdrs` attribute without arguments, or with arguments that
/// do not parse, adds a `file:line` diagnostic; other attributes are not ours.
pub open spec fn annotation_step(file: Seq<char>, line: nat, st: (Seq<SpecdrsArgsV>, Seq<Seq<char>>), a: AttributeTextV) -> (Seq<SpecdrsArgsV>, Seq<Seq<char>>) {
    if a.name != "specdrs"@ {
        st
    } else {
        match a.arguments {
            None => (st.0, st.1.push(location(file, line) + ": "@ + arguments_message())),
            Some(t) => match specdrs_args_of(t) {
                Ok(v) => (st.0.push(v), st.1),
                Err(e) => (
                    st.0,
                    st.1.push(
                        location(file, line) + ": invalid specdrs attribute: "@ + error_message(e),
                    ),
                ),
            },
        }
    }
}

/// The first `n` attributes read.
pub open spec fn annotations_fold(file: Seq<char>, line: nat, attrs: Seq<AttributeTextV>, n: nat) -> (Seq<SpecdrsArgsV>, Seq<Seq<char>>)
    decreases n,
{
    if n == 0 || n > attrs.len() {
        (Seq::empty(), Seq::empty())
    } else {
        annotation_step(file, line, annotations_fold(file, line, attrs, (n - 1) as nat), attrs[n - 1])
    }
}

/// Parses every `specdrs` attribute on one item or container, appending a diagnostic
/// for each malformed one.
pub fn parse_annotations(attrs: &Vec<AttributeText>, file: &str, line: usize, errors: &mut Vec<String>) -> (r: Vec<SpecdrsArgs>)
    ensures
        ({
            let f = annotations_fold(file@, line as nat, attrs.deep_view(), attrs@.len());
            r.deep_view() == f.0 && final(errors).deep_view() == old(errors).deep_view() + f.1
        }),
{
    proof {
        reveal_strlit("specdrs");
        reveal_strlit(": ");
        reveal_strlit(": invalid specdrs attribute: ");
    }
    let ghost av = attrs.deep_view();
    let ghost start = errors.deep_view();
    let mut out: Vec<SpecdrsArgs> = Vec::new();
    assert(out.deep_view() =~= Seq::<SpecdrsArgsV>::empty());
    assert(start + Seq::<Seq<char>>::empty() =~= start);
    let mut k: usize = 0;
    while k < attrs.len()
        invariant
            k <= attrs.len(),
            av == attrs.deep_view(),
            start == old(errors).deep_view(),
            ({
                let f = annotations_fold(file@, line as nat, av, k as nat);
                out.deep_view() == f.0 && errors.deep_view() == start + f.1
            }),
        decreases attrs.len() - k,
    {
        let a = &attrs[k];
        assert(av[k as int] == a.deep_view());
        if crate::text::same_string(&a.name, "specdrs") {
            match &a.arguments {
                None => {
                    let mut m = location_text(file, line);
                    append(&mut m, ": ");
                    append(&mut m, specdrs_requires_arguments());
                    let ghost before = errors.deep_view();
                    errors.push(m);
                    assert(errors.deep_view() =~= before.push(m@));
                },
                Some(t) => match parse_specdrs_args(t.as_str()) {
                    Ok(v) => {
                        let ghost before = out.deep_view();
                        let ghost vv = v.deep_view();
                        out.push(v);
                        assert(out.deep_view() =~= before.push(vv));
                    },
                    Err(e) => {
                        let mut m = location_text(file, line);
                        append(&mut m, ": invalid specdrs attribute: ");
                        let text = e.message();
                        append(&mut m, text.as_str());
                        let ghost before = errors.deep_view();
                        errors.push(m);
                        assert(errors.deep_view() =~= before.push(m@));
                    },
                },
            }
        }
        k = k + 1;
    }
    out
}

/// The span identifiers the first `n` directives of an annotation hand down to a
/// container's items: those joined and those declared.
pub open spec fn directive_spans(ds: Seq<DirectiveV>, n: nat) -> Seq<Seq<char>>
    decreases n,
{
    if n == 0 || n > ds.len() {
        Seq::empty()
    } else {
        let prev = directive_spans(ds, (n - 1) as nat);
        match ds[n - 1] {
            DirectiveV::InSpans(ids) => prev + ids,
            DirectiveV::Span(v) => prev.push(v.id),
            DirectiveV::Claims(_) => prev,
        }
    }
}

/// The span identifiers the first `n` annotations hand down.
pub open spec fn annotation_spans(anns: Seq<SpecdrsArgsV>, n: nat) -> Seq<Seq<char>>
    decreases n,
{
    if n == 0 || n > anns.len() {
        Seq::empty()
    } else {
        annotation_spans(anns, (n - 1) as nat) + directive_spans(
            anns[n - 1].directives,
            anns[n - 1].directives.len(),
        )
    }
}

fn push_strings(out: &mut Vec<String>, xs: &Vec<String>)
    ensures
        final(out).deep_view() == old(out).deep_view() + xs.deep_view(),
{
    let ghost before = out.deep_view();
    let mut j: usize = 0;
    assert(before + xs.deep_view().take(0) =~= before);
    while j < xs.len()
        invariant
            j <= xs.len(),
            before == old(out).deep_view(),
            out.deep_view() == before + xs.deep_view().take(j as int),
        decreases xs.len() - j,
    {
        let ghost prev = out.deep_view();
        out.push(xs[j].clone());
        assert(out.deep_view() =~= prev.push(xs.deep_view()[j as int]));
        assert(before + xs.deep_view().take(j + 1) =~= prev.push(xs.deep_view()[j as int]));
        j = j + 1;
    }
    assert(xs.deep_view().take(j as int) =~= xs.deep_view());
}

/// Collects the span identifiers one item's attributes pass down to a container's
/// items: both joined and declared ones, each once, ascending.
pub fn distributed_spans(anns: &Vec<SpecdrsArgs>) -> (r: Vec<String>)
    ensures
        r.deep_view() == ordered_set(annotation_spans(anns.deep_view(), anns@.len())),
{
    let ghost av = anns.deep_view();
    let mut list: Vec<String> = Vec::new();
    assert(list.deep_view() =~= Seq::<Seq<char>>::empty());
    let mut a: usize = 0;
    while a < anns.len()
        invariant
            a <= anns.len(),
            av == anns.deep_view(),
            list.deep_view() == annotation_spans(av, a as nat),
        decreases anns.len() - a,
    {
        let ds = &anns[a].directives;
        let ghost dv = ds.deep_view();
        let ghost head = annotation_spans(av, a as nat);
        let mut k: usize = 0;
        assert(head + directive_spans(dv, 0) =~= head);
        while k < ds.len()
            invariant
                k <= ds.len(),
                dv == ds.deep_view(),
                head == annotation_spans(av, a as nat),
                list.deep_view() == head + directive_spans(dv, k as nat),
            decreases ds.len() - k,
        {
            let ghost before = list.deep_view();
            match &ds[k] {
                Directive::InSpans(ids) => {
                    push_strings(&mut list, ids);
                },
                Directive::Span(v) => {
                    list.push(v.id.clone());
                    assert(list.deep_view() =~= before.push(v.id@));
                },
                Directive::Claims(_) => {},
            }
            assert(list.deep_view() =~= head + directive_spans(dv, (k + 1) as nat));
            k = k + 1;
        }
        assert(head + directive_spans(dv, dv.len()) =~= annotation_spans(av, (a + 1) as nat));
        a = a + 1;
    }
    ordered_strings(&list)
}

// ---------------------------------------------------------------------------
// Module-level macros.

/// Whether every directive is a membership.
pub open spec fn only_memberships(ds: Seq<DirectiveV>) -> bool {
    forall|k: int| 0 <= k < ds.len() ==> #[trigger] ds[k] is InSpans
}

/// One macro read for module-wide memberships: a `specdrs_module!` that does not parse,
/// or holds anything but memberships, adds a `file:line` diagnostic.
pub open spec fn membership_step(file: Seq<char>, st: (Seq<Seq<char>>, Seq<Seq<char>>), mac: MacroTextV) -> (Seq<Seq<char>>, Seq<Seq<char>>) {
    if mac.name != "specdrs_module"@ {
        st
    } else {
        match specdrs_args_of(mac.tokens) {
            Err(e) => (
                st.0,
                st.1.push(
                    location(file, mac.line) + ": invalid specdrs_module declaration: "@
                        + error_message(e),
                ),
            ),
            Ok(args) => if args.directives.len() == 0 || !only_memberships(args.directives) {
                (st.0, st.1.push(location(file, mac.line) + ": "@ + module_message()))
            } else {
                (st.0 + directive_joins(args.directives, args.directives.len()), st.1)
            },
        }
    }
}

/// The first `n` macros read for module-wide memberships.
pub open spec fn memberships_fold(file: Seq<char>, macs: Seq<MacroTextV>, n: nat) -> (Seq<Seq<char>>, Seq<Seq<char>>)
    decreases n,
{
    if n == 0 || n > macs.len() {
        (Seq::empty(), Seq::empty())
    } else {
        membership_step(file, memberships_fold(file, macs, (n - 1) as nat), macs[n - 1])
    }
}

fn push_joins_of(ds: &Vec<Directive>, out: &mut Vec<String>)
    ensures
        final(out).deep_view() == old(out).deep_view() + directive_joins(ds.deep_view(), ds@.len()),
{
    let ghost dv = ds.deep_view();
    let ghost start = out.deep_view();
    assert(start + Seq::<Seq<char>>::empty() =~= start);
    let mut k: usize = 0;
    while k < ds.len()
        invariant
            k <= ds.len(),
            dv == ds.deep_view(),
            start == old(out).deep_view(),
            out.deep_view() == start + directive_joins(dv, k as nat),
        decreases ds.len() - k,
    {
        match &ds[k] {
            Directive::InSpans(ids) => {
                push_strings(out, ids);
                assert(out.deep_view() =~= start + directive_joins(dv, (k + 1) as nat));
            },
            _ => {},
        }
        k = k + 1;
    }
}

fn all_memberships(ds: &Vec<Directive>) -> (r: bool)
    ensures
        r == only_memberships(ds.deep_view()),
{
    let ghost dv = ds.deep_view();
    let mut k: usize = 0;
    while k < ds.len()
        invariant
            k <= ds.len(),
            dv == ds.deep_view(),
            forall|j: int| 0 <= j < k ==> #[trigger] dv[j] is InSpans,
        decreases ds.len() - k,
    {
        match &ds[k] {
            Directive::InSpans(_) => {},
            _ => {
                assert(!(dv[k as int] is InSpans));
                return false;
            },
        }
        k = k + 1;
    }
    true
}

/// Parses module-wide memberships declared by `specdrs_module!` invocations among a
/// module's items, ascending and without repeats.
pub fn module_memberships(macros: &Vec<MacroText>, file: &str, errors: &mut Vec<String>) -> (r: Vec<String>)
    ensures
        ({
            let f = memberships_fold(file@, macros.deep_view(), macros@.len());
            r.deep_view() == ordered_set(f.0) && final(errors).deep_view() == old(errors).deep_view()
                + f.1
        }),
{
    proof {
        reveal_strlit("specdrs_module");
        reveal_strlit(": ");
        reveal_strlit(": invalid specdrs_module declaration: ");
    }
    let ghost mv = macros.deep_view();
    let ghost start = errors.deep_view();
    let mut list: Vec<String> = Vec::new();
    assert(list.deep_view() =~= Seq::<Seq<char>>::empty());
    assert(start + Seq::<Seq<char>>::empty() =~= start);
    let mut k: usize = 0;
    while k < macros.len()
        invariant
            k <= macros.len(),
            mv == macros.deep_view(),
            start == old(errors).deep_view(),
            ({
                let f = memberships_fold(file@, mv, k as nat);
                list.deep_view() == f.0 && errors.deep_view() == start + f.1
            }),
        decreases macros.len() - k,
    {
        let mac = &macros[k];
        assert(mv[k as int] == mac.deep_view());
        if crate::text::same_string(&mac.name, "specdrs_module") {
            match parse_specdrs_args(mac.tokens.as_str()) {
                Err(e) => {
                    let mut m = location_text(file, mac.line);
                    append(&mut m, ": invalid specdrs_module declaration: ");
                    let text = e.message();
                    append(&mut m, text.as_str());
                    let ghost before = errors.deep_view();
                    errors.push(m);
                    assert(errors.deep_view() =~= before.push(m@));
                },
                Ok(args) => {
                    if args.directives.len() == 0 || !all_memberships(&args.directives) {
                        let mut m = location_text(file, mac.line);
                        append(&mut m, ": ");
                        append(&mut m, specdrs_module_requires_in_spans());
                        let ghost before = errors.deep_view();
                        errors.push(m);
                        assert(errors.deep_view() =~= before.push(m@));
                    } else {
                        push_joins_of(&args.directives, &mut list);
                    }
                },
            }
        }
        k = k + 1;
    }
    ordered_strings(&list)
}

/// One macro read for host-free span declarations: a `specdrs_span!` that does not
/// parse, or has no entry, adds a `file:line` diagnostic and declares nothing.
pub open spec fn declaration_step(file: Seq<char>, modules: Seq<Seq<char>>, st: (Seq<ScannedSpanV>, Seq<Seq<char>>), mac: MacroTextV) -> (Seq<ScannedSpanV>, Seq<Seq<char>>) {
    if mac.name != "specdrs_span"@ {
        st
    } else {
        match span_args_of(mac.tokens) {
            Err(e) => (
                st.0,
                st.1.push(
                    location(file, mac.line) + ": invalid specdrs_span declaration: "@
                        + error_message(e),
                ),
            ),
            Ok(span) => match span.entry {
                None => (st.0, st.1.push(location(file, mac.line) + ": "@ + span_entry_message())),
                Some(entry) => (
                    st.0.push(
                        ScannedSpanV {
                            id: span.id,
                            parent: span.parent,
                            entry,
                            claims: span.claims,
                            modules,
                            container: None,
                        },
                    ),
                    st.1,
                ),
            },
        }
    }
}

/// The first `n` macros read for host-free span declarations.
pub open spec fn declarations_fold(file: Seq<char>, modules: Seq<Seq<char>>, macs: Seq<MacroTextV>, n: nat) -> (Seq<ScannedSpanV>, Seq<Seq<char>>)
    decreases n,
{
    if n == 0 || n > macs.len() {
        (Seq::empty(), Seq::empty())
    } else {
        declaration_step(file, modules, declarations_fold(file, modules, macs, (n - 1) as nat), macs[n - 1])
    }
}

/// Parses spans declared by `specdrs_span!` invocations among the items of the module
/// at `modules`.
pub fn module_span_declarations(macros: &Vec<MacroText>, file: &str, modules: &Vec<String>, errors: &mut Vec<String>) -> (r: Vec<ScannedSpan>)
    ensures
        ({
            let f = declarations_fold(file@, modules.deep_view(), macros.deep_view(), macros@.len());
            r.deep_view() == f.0 && final(errors).deep_view() == old(errors).deep_view() + f.1
        }),
{
    proof {
        reveal_strlit("specdrs_span");
        reveal_strlit(": ");
        reveal_strlit(": invalid specdrs_span declaration: ");
    }
    let ghost mv = macros.deep_view();
    let ghost start = errors.deep_view();
    let mut out: Vec<ScannedSpan> = Vec::new();
    assert(out.deep_view() =~= Seq::<ScannedSpanV>::empty());
    assert(start + Seq::<Seq<char>>::empty() =~= start);
    let mut k: usize = 0;
    while k < macros.len()
        invariant
            k <= macros.len(),
            mv == macros.deep_view(),
            start == old(errors).deep_view(),
            ({
                let f = declarations_fold(file@, modules.deep_view(), mv, k as nat);
                out.deep_view() == f.0 && errors.deep_view() == start + f.1
            }),
        decreases macros.len() - k,
    {
        let mac = &macros[k];
        assert(mv[k as int] == mac.deep_view());
        if crate::text::same_string(&mac.name, "specdrs_span") {
            match parse_span_args(mac.tokens.as_str()) {
                Err(e) => {
                    let mut m = location_text(file, mac.line);
                    append(&mut m, ": invalid specdrs_span declaration: ");
                    let text = e.message();
                    append(&mut m, text.as_str());
                    let ghost before = errors.deep_view();
                    errors.push(m);
                    assert(errors.deep_view() =~= before.push(m@));
                },
                Ok(span) => match span.entry {
                    None => {
                        let mut m = location_text(file, mac.line);
                        append(&mut m, ": ");
                        append(&mut m, specdrs_span_requires_entrypoint());
                        let ghost before = errors.deep_view();
                        errors.push(m);
                        assert(errors.deep_view() =~= before.push(m@));
                    },
                    Some(entry) => {
                        let d = ScannedSpan {
                            id: span.id,
                            parent: span.parent,
                            entry,
                            claims: span.claims,
                            modules: clone_strings(modules),
                            container: None,
                        };
                        let ghost before = out.deep_view();
                        let ghost dv = d.deep_view();
                        out.push(d);
                        assert(out.deep_view() =~= before.push(dv));
                    },
                },
            }
        }
        k = k + 1;
    }
    out
}

// ---------------------------------------------------------------------------
// Recording items.

/// One parsed item as the scan hands it over: its attributes, the source range of its
/// syntax and its printed signature.
#[derive(Debug)]
pub struct ItemText {
    pub attrs: Vec<AttributeText>,
    pub start: SourcePosition,
    pub end: SourcePosition,
    pub signature: String,
}

/// Mathematical value of an [`ItemText`].
pub struct ItemTextV {
    pub attrs: Seq<AttributeTextV>,
    pub start: SourcePosition,
    pub end: SourcePosition,
    pub signature: Seq<char>,
}

impl DeepView for ItemText {
    type V = ItemTextV;

    open spec fn deep_view(&self) -> ItemTextV {
        ItemTextV {
            attrs: self.attrs.deep_view(),
            start: self.start,
            end: self.end,
            signature: self.signature@,
        }
    }
}

/// One recorded item: its def path, the alternate owner path it can be named by, and
/// what was scanned.
#[derive(Debug)]
pub struct ScannedEntry {
    pub path: String,
    pub alias: Option<String>,
    pub item: ScannedItem,
}

/// Mathematical value of a [`ScannedEntry`].
pub struct ScannedEntryV {
    pub path: Seq<char>,
    pub alias: Option<Seq<char>>,
    pub item: ScannedItemV,
}

impl DeepView for ScannedEntry {
    type V = ScannedEntryV;

    open spec fn deep_view(&self) -> ScannedEntryV {
        ScannedEntryV { path: self.path@, alias: self.alias.deep_view(), item: self.item.deep_view() }
    }
}

/// The items, declarations and diagnostics one source file contributes.
#[derive(Debug)]
pub struct FileScan {
    pub items: Vec<ScannedEntry>,
    pub errors: Vec<String>,
    pub span_declarations: Vec<ScannedSpan>,
    /// For each span declared on a container in this file, the items it holds.
    pub container_members: Vec<(String, Vec<String>)>,
}

/// Mathematical value of a [`FileScan`].
pub struct FileScanV {
    pub items: Seq<ScannedEntryV>,
    pub errors: Seq<Seq<char>>,
    pub span_declarations: Seq<ScannedSpanV>,
    pub container_members: Seq<(Seq<char>, Seq<Seq<char>>)>,
}

impl DeepView for FileScan {
    type V = FileScanV;

    open spec fn deep_view(&self) -> FileScanV {
        FileScanV {
            items: self.items.deep_view(),
            errors: self.errors.deep_view(),
            span_declarations: self.span_declarations.deep_view(),
            container_members: self.container_members.deep_view(),
        }
    }
}

/// A scan with one more item recorded, declared in the module `modules` of `file` and
/// holding the `inherited` spans, with the spans its own attributes hand down to the
/// items it contains.
pub open spec fn record_spec(
    scan: FileScanV,
    t: ItemTextV,
    path: Seq<char>,
    alias: Option<Seq<char>>,
    shape: ItemShape,
    file: Seq<char>,
    modules: Seq<Seq<char>>,
    inherited: Seq<Seq<char>>,
) -> (FileScanV, Seq<Seq<char>>) {
    let f = annotations_fold(file, t.start.line as nat, t.attrs, t.attrs.len());
    let item = ScannedItemV {
        source: ScannedSourceV {
            file,
            start: t.start,
            end: t.end,
            signature: tidy_tokens(t.signature),
            modules,
        },
        shape,
        annotations: f.0,
        inherited_spans: inherited,
    };
    (
        FileScanV {
            items: scan.items.push(ScannedEntryV { path, alias, item }),
            errors: scan.errors + f.1,
            ..scan
        },
        ordered_set(annotation_spans(f.0, f.0.len())),
    )
}

impl FileScan {
    /// An empty file scan.
    pub fn new() -> (r: FileScan)
        ensures
            r.deep_view() == (FileScanV {
                items: Seq::empty(),
                errors: Seq::empty(),
                span_declarations: Seq::empty(),
                container_members: Seq::empty(),
            }),
    {
        let r = FileScan {
            items: Vec::new(),
            errors: Vec::new(),
            span_declarations: Vec::new(),
            container_members: Vec::new(),
        };
        assert(r.items.deep_view() =~= Seq::<ScannedEntryV>::empty());
        assert(r.errors.deep_view() =~= Seq::<Seq<char>>::empty());
        assert(r.span_declarations.deep_view() =~= Seq::<ScannedSpanV>::empty());
        assert(r.container_members.deep_view() =~= Seq::<(Seq<char>, Seq<Seq<char>>)>::empty());
        r
    }

    /// Adds one item's source metadata and engineering directives to this file scan,
    /// returning the spans its attributes hand down to the items it contains.
    /// Malformed attributes add diagnostics without aborting the file.
    pub fn record(
        &mut self,
        t: &ItemText,
        path: String,
        alias: Option<String>,
        shape: ItemShape,
        file: &String,
        modules: &Vec<String>,
        inherited: &Vec<String>,
    ) -> (r: Vec<String>)
        ensures
            ({
                let spec = record_spec(
                    old(self).deep_view(),
                    t.deep_view(),
                    path@,
                    alias.deep_view(),
                    shape,
                    file@,
                    modules.deep_view(),
                    inherited.deep_view(),
                );
                final(self).deep_view() == spec.0 && r.deep_view() == spec.1
            }),
    {
        let annotations = parse_annotations(&t.attrs, file.as_str(), t.start.line, &mut self.errors);
        let direct = distributed_spans(&annotations);
        let item = ScannedItem {
            source: ScannedSource {
                file: file.clone(),
                start: t.start,
                end: t.end,
                signature: clean_signature(t.signature.as_str()),
                modules: clone_strings(modules),
            },
            shape,
            annotations,
            inherited_spans: clone_strings(inherited),
        };
        let entry = ScannedEntry { path, alias, item };
        let ghost before = self.items.deep_view();
        let ghost ev = entry.deep_view();
        self.items.push(entry);
        assert(self.items.deep_view() =~= before.push(ev));
        direct
    }
}

// ---------------------------------------------------------------------------
// Implementation blocks.

/// One method of an implementation block.
#[derive(Debug)]
pub struct MethodText {
    pub name: String,
    pub item: ItemText,
}

/// Mathematical value of a [`MethodText`].
pub struct MethodTextV {
    pub name: Seq<char>,
    pub item: ItemTextV,
}

impl DeepView for MethodText {
    type V = MethodTextV;

    open spec fn deep_view(&self) -> MethodTextV {
        MethodTextV { name: self.name@, item: self.item.deep_view() }
    }
}

/// Diagnostic for a span declared on an implementation block without an entry.
pub open spec fn impl_entry_msg(loc: Seq<char>, id: Seq<char>) -> Seq<char> {
    loc + ": span `"@ + id
        + "` declared on an impl block requires `entry`; an impl block has no def path to default to. Write span(id = \""@
        + id + "\", entry = self::Type::method)"@
}

/// What the directives of an implementation block's attributes have given so far: the
/// spans its methods join, the spans it declares, their declarations, and diagnostics.
pub struct ImplStateV {
    pub spans: Seq<Seq<char>>,
    pub declared: Seq<Seq<char>>,
    pub decls: Seq<ScannedSpanV>,
    pub errors: Seq<Seq<char>>,
}

/// One directive of an implementation block's attributes applied: a membership passes
/// to the methods, a span with an entry is declared on the block and passes to the
/// methods, and a span without an entry or a claims block is refused.
pub open spec fn impl_directive_step(loc: Seq<char>, modules: Seq<Seq<char>>, st: ImplStateV, d: DirectiveV) -> ImplStateV {
    match d {
        DirectiveV::InSpans(ids) => ImplStateV { spans: st.spans + ids, ..st },
        DirectiveV::Span(v) => match v.entry {
            None => ImplStateV { errors: st.errors.push(impl_entry_msg(loc, v.id)), ..st },
            Some(e) => ImplStateV {
                spans: st.spans.push(v.id),
                declared: st.declared.push(v.id),
                decls: st.decls.push(
                    ScannedSpanV {
                        id: v.id,
                        parent: v.parent,
                        entry: e,
                        claims: v.claims,
                        modules,
                        container: Some(loc),
                    },
                ),
                errors: st.errors,
            },
        },
        DirectiveV::Claims(_) => ImplStateV {
            errors: st.errors.push(loc + ": "@ + impl_claims_message()),
            ..st
        },
    }
}

/// The first `n` directives of one annotation applied.
pub open spec fn impl_directives_fold(loc: Seq<char>, modules: Seq<Seq<char>>, st: ImplStateV, ds: Seq<DirectiveV>, n: nat) -> ImplStateV
    decreases n,
{
    if n == 0 || n > ds.len() {
        st
    } else {
        impl_directive_step(loc, modules, impl_directives_fold(loc, modules, st, ds, (n - 1) as nat), ds[n - 1])
    }
}

/// The directives of the first `n` annotations applied.
pub open spec fn impl_annotations_fold(loc: Seq<char>, modules: Seq<Seq<char>>, st: ImplStateV, anns: Seq<SpecdrsArgsV>, n: nat) -> ImplStateV
    decreases n,
{
    if n == 0 || n > anns.len() {
        st
    } else {
        let prev = impl_annotations_fold(loc, modules, st, anns, (n - 1) as nat);
        impl_directives_fold(loc, modules, prev, anns[n - 1].directives, anns[n - 1].directives.len())
    }
}

/// The first `n` methods recorded under `owner`, with their def paths.
pub open spec fn methods_fold(
    scan: FileScanV,
    methods: Seq<MethodTextV>,
    owner: Seq<char>,
    alias_owner: Option<Seq<char>>,
    file: Seq<char>,
    modules: Seq<Seq<char>>,
    spans: Seq<Seq<char>>,
    n: nat,
) -> (FileScanV, Seq<Seq<char>>)
    decreases n,
{
    if n == 0 || n > methods.len() {
        (scan, Seq::empty())
    } else {
        let prev = methods_fold(scan, methods, owner, alias_owner, file, modules, spans, (n - 1) as nat);
        let m = methods[n - 1];
        let path = owner + "::"@ + m.name;
        let alias = match alias_owner {
            Some(o) => Some(o + "::"@ + m.name),
            None => None,
        };
        let shape = ItemShape::Function { test: has_attribute_spec(m.item.attrs, "test"@) };
        let r = record_spec(prev.0, m.item, path, alias, shape, file, modules, spans);
        (r.0, prev.1.push(path))
    }
}

/// The first `n` declared spans given the seeded members.
pub open spec fn declared_fold(cm: Seq<(Seq<char>, Seq<Seq<char>>)>, declared: Seq<Seq<char>>, seeded: Seq<Seq<char>>, n: nat) -> Seq<(Seq<char>, Seq<Seq<char>>)>
    decreases n,
{
    if n == 0 || n > declared.len() {
        cm
    } else {
        set_map_add(declared_fold(cm, declared, seeded, (n - 1) as nat), declared[n - 1], seeded)
    }
}

/// A scan after an implementation block at `line` of `file`, in the module `modules`
/// and holding the `inherited` spans: its attributes are read, the spans it declares
/// recorded, and, where the implemented type gives an owner path, each method recorded
/// under it with the spans of the block; each span the block declares is seeded with
/// every method.
pub open spec fn scan_impl_spec(
    scan: FileScanV,
    attrs: Seq<AttributeTextV>,
    line: nat,
    file: Seq<char>,
    modules: Seq<Seq<char>>,
    inherited: Seq<Seq<char>>,
    self_ty: TypeV,
    trait_path: Option<PathV>,
    methods: Seq<MethodTextV>,
) -> FileScanV {
    let loc = location(file, line);
    let f = annotations_fold(file, line, attrs, attrs.len());
    let st = impl_annotations_fold(
        loc,
        modules,
        ImplStateV {
            spans: inherited,
            declared: Seq::empty(),
            decls: Seq::empty(),
            errors: scan.errors + f.1,
        },
        f.0,
        f.0.len(),
    );
    let scan1 = FileScanV { errors: st.errors, span_declarations: scan.span_declarations + st.decls, ..scan };
    match impl_owner_spec(self_ty, trait_path, modules) {
        None => scan1,
        Some(owners) => {
            let mf = methods_fold(scan1, methods, owners.0, owners.1, file, modules, ordered_set(st.spans), methods.len());
            FileScanV {
                container_members: declared_fold(
                    mf.0.container_members,
                    st.declared,
                    ordered_set(mf.1),
                    st.declared.len(),
                ),
                ..mf.0
            }
        },
    }
}

fn impl_directives(loc: &String, modules: &Vec<String>, ds: &Vec<Directive>, spans: &mut Vec<String>, declared: &mut Vec<String>, decls: &mut Vec<ScannedSpan>, errors: &mut Vec<String>)
    ensures
        ({
            let st = impl_directives_fold(
                loc@,
                modules.deep_view(),
                ImplStateV {
                    spans: old(spans).deep_view(),
                    declared: old(declared).deep_view(),
                    decls: old(decls).deep_view(),
                    errors: old(errors).deep_view(),
                },
                ds.deep_view(),
                ds@.len(),
            );
            final(spans).deep_view() == st.spans && final(declared).deep_view() == st.declared
                && final(decls).deep_view() == st.decls && final(errors).deep_view() == st.errors
        }),
{
    proof {
        reveal_strlit(": span `");
        reveal_strlit(
            "` declared on an impl block requires `entry`; an impl block has no def path to default to. Write span(id = \"",
        );
        reveal_strlit("\", entry = self::Type::method)");
        reveal_strlit(": ");
    }
    let ghost st0 = ImplStateV {
        spans: spans.deep_view(),
        declared: declared.deep_view(),
        decls: decls.deep_view(),
        errors: errors.deep_view(),
    };
    let ghost dv = ds.deep_view();
    let mut k: usize = 0;
    while k < ds.len()
        invariant
            k <= ds.len(),
            dv == ds.deep_view(),
            st0 == (ImplStateV {
                spans: old(spans).deep_view(),
                declared: old(declared).deep_view(),
                decls: old(decls).deep_view(),
                errors: old(errors).deep_view(),
            }),
            ({
                let st = impl_directives_fold(loc@, modules.deep_view(), st0, dv, k as nat);
                spans.deep_view() == st.spans && declared.deep_view() == st.declared
                    && decls.deep_view() == st.decls && errors.deep_view() == st.errors
            }),
        decreases ds.len() - k,
    {
        match &ds[k] {
            Directive::InSpans(ids) => {
                push_strings(spans, ids);
            },
            Directive::Span(v) => {
                match &v.entry {
                    None => {
                        let mut m = loc.clone();
                        append(&mut m, ": span `");
                        append(&mut m, v.id.as_str());
                        append(
                            &mut m,
                            "` declared on an impl block requires `entry`; an impl block has no def path to default to. Write span(id = \"",
                        );
                        append(&mut m, v.id.as_str());
                        append(&mut m, "\", entry = self::Type::method)");
                        let ghost before = errors.deep_view();
                        errors.push(m);
                        assert(errors.deep_view() =~= before.push(m@));
                    },
                    Some(e) => {
                        let ghost sb = spans.deep_view();
                        spans.push(v.id.clone());
                        assert(spans.deep_view() =~= sb.push(v.id@));
                        let ghost db = declared.deep_view();
                        declared.push(v.id.clone());
                        assert(declared.deep_view() =~= db.push(v.id@));
                        let d = ScannedSpan {
                            id: v.id.clone(),
                            parent: clone_opt_string(&v.parent),
                            entry: e.clone(),
                            claims: match &v.claims {
                                Some(c) => Some(crate::assembly::copy_claims(c)),
                                None => None,
                            },
                            modules: clone_strings(modules),
                            container: Some(loc.clone()),
                        };
                        let ghost before = decls.deep_view();
                        let ghost d_v = d.deep_view();
                        decls.push(d);
                        assert(decls.deep_view() =~= before.push(d_v));
                    },
                }
            },
            Directive::Claims(_) => {
                let mut m = loc.clone();
                append(&mut m, ": ");
                append(&mut m, impl_cannot_own_claims());
                let ghost before = errors.deep_view();
                errors.push(m);
                assert(errors.deep_view() =~= before.push(m@));
            },
        }
        k = k + 1;
    }
}

pub(crate) fn append_declarations(dst: &mut Vec<ScannedSpan>, src: Vec<ScannedSpan>)
    ensures
        final(dst).deep_view() == old(dst).deep_view() + src.deep_view(),
{
    let ghost sv = src.deep_view();
    let ghost head = dst.deep_view();
    let mut src = src;
    let n0: usize = src.len();
    let mut j: usize = 0;
    assert(sv.skip(0) =~= sv);
    assert(head + sv.take(0) =~= head);
    while src.len() > 0
        invariant
            j <= sv.len(),
            sv.len() == n0,
            j + src@.len() == sv.len(),
            head == old(dst).deep_view(),
            src.deep_view() == sv.skip(j as int),
            dst.deep_view() == head + sv.take(j as int),
        decreases src.len(),
    {
        let ghost rest = src.deep_view();
        let d = src.remove(0);
        let ghost d_v = d.deep_view();
        assert(rest[0] == d_v);
        assert(src.deep_view() =~= rest.drop_first());
        let ghost before = dst.deep_view();
        dst.push(d);
        assert(dst.deep_view() =~= before.push(d_v));
        assert(sv.skip(j as int)[0] == sv[j as int]);
        assert(head + sv.take(j + 1) =~= before.push(d_v));
        assert(sv.skip(j + 1) =~= sv.skip(j as int).drop_first());
        j = j + 1;
    }
    assert(sv.take(j as int) =~= sv);
}

fn impl_state(
    loc: &String,
    modules: &Vec<String>,
    annotations: &Vec<SpecdrsArgs>,
    inherited: &Vec<String>,
    errors: &mut Vec<String>,
) -> (r: (Vec<String>, Vec<String>, Vec<ScannedSpan>))
    ensures
        ({
            let st = impl_annotations_fold(
                loc@,
                modules.deep_view(),
                ImplStateV {
                    spans: inherited.deep_view(),
                    declared: Seq::empty(),
                    decls: Seq::empty(),
                    errors: old(errors).deep_view(),
                },
                annotations.deep_view(),
                annotations@.len(),
            );
            r.0.deep_view() == st.spans && r.1.deep_view() == st.declared && r.2.deep_view()
                == st.decls && final(errors).deep_view() == st.errors
        }),
{
    let ghost av = annotations.deep_view();
    let mut spans = clone_strings(inherited);
    let mut declared: Vec<String> = Vec::new();
    let mut decls: Vec<ScannedSpan> = Vec::new();
    assert(declared.deep_view() =~= Seq::<Seq<char>>::empty());
    assert(decls.deep_view() =~= Seq::<ScannedSpanV>::empty());
    let ghost st0 = ImplStateV {
        spans: inherited.deep_view(),
        declared: Seq::empty(),
        decls: Seq::empty(),
        errors: errors.deep_view(),
    };
    let mut a: usize = 0;
    while a < annotations.len()
        invariant
            a <= annotations.len(),
            av == annotations.deep_view(),
            st0 == (ImplStateV {
                spans: inherited.deep_view(),
                declared: Seq::empty(),
                decls: Seq::empty(),
                errors: old(errors).deep_view(),
            }),
            ({
                let st = impl_annotations_fold(loc@, modules.deep_view(), st0, av, a as nat);
                spans.deep_view() == st.spans && declared.deep_view() == st.declared
                    && decls.deep_view() == st.decls && errors.deep_view() == st.errors
            }),
        decreases annotations.len() - a,
    {
        impl_directives(loc, modules, &annotations[a].directives, &mut spans, &mut declared, &mut decls, errors);
        a = a + 1;
    }
    (spans, declared, decls)
}

impl FileScan {
    fn record_methods(
        &mut self,
        methods: &Vec<MethodText>,
        owner: &String,
        alias_owner: &Option<String>,
        file: &String,
        modules: &Vec<String>,
        spans: &Vec<String>,
    ) -> (r: Vec<String>)
        ensures
            ({
                let mf = methods_fold(
                    old(self).deep_view(),
                    methods.deep_view(),
                    owner@,
                    alias_owner.deep_view(),
                    file@,
                    modules.deep_view(),
                    spans.deep_view(),
                    methods@.len(),
                );
                final(self).deep_view() == mf.0 && r.deep_view() == mf.1
            }),
    {
        proof {
            reveal_strlit("::");
            reveal_strlit("test");
        }
        let ghost mv = methods.deep_view();
        let ghost s1 = self.deep_view();
        let mut seeded: Vec<String> = Vec::new();
        assert(seeded.deep_view() =~= Seq::<Seq<char>>::empty());
        let mut k: usize = 0;
        while k < methods.len()
            invariant
                k <= methods.len(),
                mv == methods.deep_view(),
                s1 == old(self).deep_view(),
                ({
                    let mf = methods_fold(
                        s1,
                        mv,
                        owner@,
                        alias_owner.deep_view(),
                        file@,
                        modules.deep_view(),
                        spans.deep_view(),
                        k as nat,
                    );
                    self.deep_view() == mf.0 && seeded.deep_view() == mf.1
                }),
            decreases methods.len() - k,
        {
            let m = &methods[k];
            assert(mv[k as int] == m.deep_view());
            let mut path = owner.clone();
            append(&mut path, "::");
            append(&mut path, m.name.as_str());
            let alias = match alias_owner {
                Some(o) => {
                    let mut a = o.clone();
                    append(&mut a, "::");
                    append(&mut a, m.name.as_str());
                    Some(a)
                },
                None => None,
            };
            let test = has_attribute(&m.item.attrs, "test");
            let ghost sb = seeded.deep_view();
            seeded.push(path.clone());
            assert(seeded.deep_view() =~= sb.push(path@));
            let _ = self.record(&m.item, path, alias, ItemShape::Function { test }, file, modules, spans);
            k = k + 1;
        }
        seeded
    }

    fn seed_declared(&mut self, declared: &Vec<String>, seeded: &Vec<String>)
        ensures
            final(self).deep_view() == (FileScanV {
                container_members: declared_fold(
                    old(self).deep_view().container_members,
                    declared.deep_view(),
                    seeded.deep_view(),
                    declared@.len(),
                ),
                ..old(self).deep_view()
            }),
    {
        let ghost dl = declared.deep_view();
        let ghost s0 = self.deep_view();
        let mut n: usize = 0;
        while n < declared.len()
            invariant
                n <= declared.len(),
                dl == declared.deep_view(),
                s0 == old(self).deep_view(),
                self.deep_view() == (FileScanV {
                    container_members: declared_fold(s0.container_members, dl, seeded.deep_view(), n as nat),
                    ..s0
                }),
            decreases declared.len() - n,
        {
            add_to_set_map(&mut self.container_members, &declared[n], seeded);
            n = n + 1;
        }
    }

    /// Records an implementation block at `line` of `file`: the spans its attributes
    /// declare, and each method under the block's owner path with the spans the block
    /// passes down. A span declared without an entry, and a claims block, each add a
    /// `file:line` diagnostic.
    pub fn scan_impl(
        &mut self,
        attrs: &Vec<AttributeText>,
        line: usize,
        file: &String,
        modules: &Vec<String>,
        inherited: &Vec<String>,
        self_ty: &TypeSyntax,
        trait_path: &Option<PathSyntax>,
        methods: &Vec<MethodText>,
    )
        ensures
            final(self).deep_view() == scan_impl_spec(
                old(self).deep_view(),
                attrs.deep_view(),
                line as nat,
                file@,
                modules.deep_view(),
                inherited.deep_view(),
                self_ty.deep_view(),
                trait_path.deep_view(),
                methods.deep_view(),
            ),
    {
        let ghost s0 = self.deep_view();
        let loc = location_text(file.as_str(), line);
        let annotations = parse_annotations(attrs, file.as_str(), line, &mut self.errors);
        let (spans, declared, decls) = impl_state(&loc, modules, &annotations, inherited, &mut self.errors);
        append_declarations(&mut self.span_declarations, decls);
        let ghost s1 = self.deep_view();
        let owners = impl_owner_paths(self_ty, trait_path, modules);
        let (owner, alias_owner) = match owners {
            Some(o) => o,
            None => return,
        };
        let impl_spans = ordered_strings(&spans);
        let seeded = self.record_methods(methods, &owner, &alias_owner, file, modules, &impl_spans);
        let seeded_set = ordered_strings(&seeded);
        self.seed_declared(&declared, &seeded_set);
    }
}

// ---------------------------------------------------------------------------
// Merging file scans.

/// Crate traversal state: the canonical index so far and the diagnostics collected.
#[derive(Debug)]
pub struct Scanner {
    pub index: ScanIndex,
    pub errors: Vec<String>,
}

/// Mathematical value of a [`Scanner`].
pub struct ScannerV {
    pub index: ScanIndexV,
    pub errors: Seq<Seq<char>>,
}

impl DeepView for Scanner {
    type V = ScannerV;

    open spec fn deep_view(&self) -> ScannerV {
        ScannerV { index: self.index.deep_view(), errors: self.errors.deep_view() }
    }
}

/// An item as the index keeps it: its inherited spans as an ordered set.
pub open spec fn canonical_item(it: ScannedItemV) -> ScannedItemV {
    ScannedItemV { inherited_spans: ordered_set(it.inherited_spans), ..it }
}

/// Whether an item carries neither annotations nor inherited spans.
pub open spec fn is_bare(it: ScannedItemV) -> bool {
    it.annotations.len() == 0 && it.inherited_spans.len() == 0
}

/// Diagnostic for two annotated items with the same def path.
pub open spec fn duplicate_item_msg(p: Seq<char>) -> Seq<char> {
    "duplicate item path `"@ + p
        + "`. Two annotated items resolved to the same definition path. Give one a distinct identity, or drop the extra annotation"@
}

/// Items keyed by def path after one more is recorded under `p`: a new path is added;
/// for a path already present, a bare newcomer is dropped, a newcomer replaces a bare
/// item, and two items that both carry annotations or memberships are a diagnostic.
pub open spec fn merge_item(items: Seq<(Seq<char>, ScannedItemV)>, p: Seq<char>, it: ScannedItemV) -> (Seq<(Seq<char>, ScannedItemV)>, Option<Seq<char>>) {
    match find_key(items, p, 0) {
        None => (keyed_place(items, p, canonical_item(it)), None),
        Some(k) => if is_bare(it) {
            (items, None)
        } else if is_bare(items[k].1) {
            (keyed_place(items, p, canonical_item(it)), None)
        } else {
            (items, Some(duplicate_item_msg(p)))
        },
    }
}

/// The first `n` container-member entries of a file added to a set map.
pub open spec fn absorb_members(cm: Seq<(Seq<char>, Seq<Seq<char>>)>, es: Seq<(Seq<char>, Seq<Seq<char>>)>, n: nat) -> Seq<(Seq<char>, Seq<Seq<char>>)>
    decreases n,
{
    if n == 0 || n > es.len() {
        cm
    } else {
        set_map_add(absorb_members(cm, es, (n - 1) as nat), es[n - 1].0, es[n - 1].1)
    }
}

/// One recorded item merged: its alternate owner learns the def path, and the item is
/// merged by def path.
pub open spec fn absorb_entry(st: ScannerV, e: ScannedEntryV) -> ScannerV {
    let aliases = match e.alias {
        Some(a) => set_map_add(st.index.aliases, a, seq![e.path]),
        None => st.index.aliases,
    };
    let merged = merge_item(st.index.items, e.path, e.item);
    ScannerV {
        index: ScanIndexV { items: merged.0, aliases, ..st.index },
        errors: match merged.1 {
            Some(m) => st.errors.push(m),
            None => st.errors,
        },
    }
}

/// The first `n` recorded items merged.
pub open spec fn absorb_entries(st: ScannerV, es: Seq<ScannedEntryV>, n: nat) -> ScannerV
    decreases n,
{
    if n == 0 || n > es.len() {
        st
    } else {
        absorb_entry(absorb_entries(st, es, (n - 1) as nat), es[n - 1])
    }
}

/// The traversal state after one file scan: its diagnostics, declarations and container
/// members are added, then its items merged in order.
pub open spec fn absorbed(st: ScannerV, scan: FileScanV) -> ScannerV {
    let st1 = ScannerV {
        index: ScanIndexV {
            span_declarations: st.index.span_declarations + scan.span_declarations,
            container_members: absorb_members(
                st.index.container_members,
                scan.container_members,
                scan.container_members.len(),
            ),
            ..st.index
        },
        errors: st.errors + scan.errors,
    };
    absorb_entries(st1, scan.items, scan.items.len())
}

fn canonicalize(it: ScannedItem) -> (r: ScannedItem)
    ensures
        r.deep_view() == canonical_item(it.deep_view()),
        strictly_sorted(r.inherited_spans.deep_view()),
{
    let ScannedItem { source, shape, annotations, inherited_spans } = it;
    let ordered = ordered_strings(&inherited_spans);
    proof {
        lemma_set_of(inherited_spans.deep_view(), inherited_spans.deep_view().len());
    }
    ScannedItem { source, shape, annotations, inherited_spans: ordered }
}

proof fn lemma_place_item(items: Seq<(Seq<char>, ScannedItemV)>, p: Seq<char>, it: ScannedItemV)
    requires
        strictly_sorted(keys(items)),
        forall|k: int| 0 <= k < items.len() ==> strictly_sorted(#[trigger] items[k].1.inherited_spans),
        strictly_sorted(it.inherited_spans),
    ensures
        strictly_sorted(keys(keyed_place(items, p, it))),
        forall|k: int|
            0 <= k < keyed_place(items, p, it).len() ==> strictly_sorted(
                #[trigger] keyed_place(items, p, it)[k].1.inherited_spans,
            ),
{
    lemma_keyed_place(items, p, it);
    lemma_set_insert(keys(items), p);
    lemma_keyed_place_entries(items, p, it);
    let r = keyed_place(items, p, it);
    assert forall|k: int| 0 <= k < r.len() implies strictly_sorted(#[trigger] r[k].1.inherited_spans) by {
        if r[k] != (p, it) {
            assert(items.contains(r[k]));
            let j = choose|j: int| 0 <= j < items.len() && items[j] == r[k];
            assert(strictly_sorted(items[j].1.inherited_spans));
        }
    }
}

/// Merging an entry keeps every alias pointing at an item: the entry's path is an item
/// afterwards, and no item key is dropped.
proof fn lemma_entry_keeps_aliases(st: ScannerV, e: ScannedEntryV)
    requires
        index_wf(st.index),
    ensures
        aliases_resolve(absorb_entry(st, e).index),
{
    let items = st.index.items;
    let merged = merge_item(items, e.path, e.item);
    let new_keys = keys(merged.0);
    assert(forall|y: Seq<char>| keys(items).contains(y) || y == e.path ==> new_keys.contains(y)) by {
        lemma_find_key(items, e.path, 0);
        lemma_keyed_place(items, e.path, canonical_item(e.item));
        lemma_set_insert(keys(items), e.path);
        match find_key(items, e.path, 0) {
            Some(k) => {
                assert(keys(items)[k] == e.path);
            },
            None => {},
        }
    }
    let r = absorb_entry(st, e).index;
    match e.alias {
        Some(a) => {
            lemma_set_map_add_contents(st.index.aliases, a, seq![e.path]);
            assert forall|i: int, y: Seq<char>|
                0 <= i < r.aliases.len() && #[trigger] r.aliases[i].1.contains(y) implies keys(r.items).contains(y) by {
                if seq![e.path].contains(y) {
                    assert(y == e.path);
                } else {
                    let k = choose|k: int| 0 <= k < st.index.aliases.len() && #[trigger] st.index.aliases[k].1.contains(y);
                    assert(keys(items).contains(y));
                }
            }
        },
        None => {
            assert forall|i: int, y: Seq<char>|
                0 <= i < r.aliases.len() && #[trigger] r.aliases[i].1.contains(y) implies keys(r.items).contains(y) by {
                assert(keys(items).contains(y));
            }
        },
    }
}

impl Scanner {
    /// An empty traversal state for crate `crate_name`.
    pub fn new(crate_name: String) -> (r: Scanner)
        ensures
            r.deep_view().index == (ScanIndexV {
                crate_name: crate_name@,
                items: Seq::empty(),
                aliases: Seq::empty(),
                span_declarations: Seq::empty(),
                container_members: Seq::empty(),
            }),
            r.deep_view().errors == Seq::<Seq<char>>::empty(),
            index_wf(r.deep_view().index),
    {
        let r = Scanner {
            index: ScanIndex {
                crate_name,
                items: Vec::new(),
                aliases: Vec::new(),
                span_declarations: Vec::new(),
                container_members: Vec::new(),
            },
            errors: Vec::new(),
        };
        assert(r.index.items.deep_view() =~= Seq::<(Seq<char>, ScannedItemV)>::empty());
        assert(r.index.aliases.deep_view() =~= Seq::<(Seq<char>, Seq<Seq<char>>)>::empty());
        assert(r.index.span_declarations.deep_view() =~= Seq::<ScannedSpanV>::empty());
        assert(r.index.container_members.deep_view() =~= Seq::<(Seq<char>, Seq<Seq<char>>)>::empty());
        assert(r.errors.deep_view() =~= Seq::<Seq<char>>::empty());
        assert(keys(Seq::<(Seq<char>, ScannedItemV)>::empty()) =~= Seq::<Seq<char>>::empty());
        assert(keys(Seq::<(Seq<char>, Seq<Seq<char>>)>::empty()) =~= Seq::<Seq<char>>::empty());
        r
    }

    fn merge_entry(&mut self, e: ScannedEntry)
        requires
            index_wf(old(self).deep_view().index),
        ensures
            final(self).deep_view() == absorb_entry(old(self).deep_view(), e.deep_view()),
            index_wf(final(self).deep_view().index),
    {
        proof {
            reveal_strlit("duplicate item path `");
            reveal_strlit(
                "`. Two annotated items resolved to the same definition path. Give one a distinct identity, or drop the extra annotation",
            );
        }
        let ghost ev = e.deep_view();
        let ghost s0 = self.deep_view();
        let ScannedEntry { path, alias, item } = e;
        match &alias {
            Some(a) => {
                let mut one: Vec<String> = Vec::new();
                one.push(path.clone());
                assert(one.deep_view() =~= seq![path@]);
                proof {
                    lemma_set_map_add(s0.index.aliases, a@, seq![path@]);
                }
                add_to_set_map(&mut self.index.aliases, a, &one);
            },
            None => {},
        }
        let ghost s1 = self.deep_view();
        let ghost iv = item.deep_view();
        match key_position(&self.index.items, path.as_str()) {
            None => {
                let it = canonicalize(item);
                proof {
                    lemma_place_item(s1.index.items, path@, it.deep_view());
                }
                place_keyed(&mut self.index.items, path, it);
            },
            Some(k) => {
                let item_bare = item.annotations.len() == 0 && item.inherited_spans.len() == 0;
                let existing_bare = self.index.items[k].1.annotations.len() == 0
                    && self.index.items[k].1.inherited_spans.len() == 0;
                assert(s1.index.items[k as int].1 == self.index.items@[k as int].1.deep_view());
                if item_bare {
                } else if existing_bare {
                    let it = canonicalize(item);
                    proof {
                        lemma_place_item(s1.index.items, path@, it.deep_view());
                    }
                    place_keyed(&mut self.index.items, path, it);
                } else {
                    let mut m = string_lit("duplicate item path `");
                    append(&mut m, path.as_str());
                    append(
                        &mut m,
                        "`. Two annotated items resolved to the same definition path. Give one a distinct identity, or drop the extra annotation",
                    );
                    let ghost before = self.errors.deep_view();
                    self.errors.push(m);
                    assert(self.errors.deep_view() =~= before.push(m@));
                }
            },
        }
        proof {
            lemma_entry_keeps_aliases(s0, ev);
        }
    }

    /// Merges one file scan: its diagnostics, host-free declarations and container
    /// members are added, and its items merged by def path.
    pub fn absorb(&mut self, scan: FileScan)
        requires
            index_wf(old(self).deep_view().index),
        ensures
            final(self).deep_view() == absorbed(old(self).deep_view(), scan.deep_view()),
            index_wf(final(self).deep_view().index),
    {
        let ghost sv = scan.deep_view();
        let ghost s0 = self.deep_view();
        let FileScan { items, errors, span_declarations, container_members } = scan;
        push_strings(&mut self.errors, &errors);
        append_declarations(&mut self.index.span_declarations, span_declarations);
        let ghost cm0 = self.index.container_members.deep_view();
        let mut n: usize = 0;
        while n < container_members.len()
            invariant
                n <= container_members.len(),
                sv.container_members == container_members.deep_view(),
                strictly_sorted(keys(self.index.container_members.deep_view())),
                values_sorted(self.index.container_members.deep_view()),
                self.index.container_members.deep_view() == absorb_members(cm0, sv.container_members, n as nat),
                self.errors.deep_view() == s0.errors + sv.errors,
                self.index.span_declarations.deep_view() == s0.index.span_declarations + sv.span_declarations,
                self.index.items.deep_view() == s0.index.items,
                self.index.aliases.deep_view() == s0.index.aliases,
                self.index.crate_name@ == s0.index.crate_name,
                index_wf(s0.index),
                cm0 == s0.index.container_members,
            decreases container_members.len() - n,
        {
            proof {
                lemma_set_map_add(
                    self.index.container_members.deep_view(),
                    sv.container_members[n as int].0,
                    sv.container_members[n as int].1,
                );
            }
            add_to_set_map(&mut self.index.container_members, &container_members[n].0, &container_members[n].1);
            n = n + 1;
        }
        let ghost st1 = self.deep_view();
        assert(index_wf(st1.index));
        let mut items = items;
        let ghost ie = sv.items;
        let n0: usize = items.len();
        let mut j: usize = 0;
        assert(ie.skip(0) =~= ie);
        while items.len() > 0
            invariant
                j <= ie.len(),
                ie.len() == n0,
                j + items@.len() == ie.len(),
                items.deep_view() == ie.skip(j as int),
                index_wf(self.deep_view().index),
                self.deep_view() == absorb_entries(st1, ie, j as nat),
            decreases items.len(),
        {
            let ghost rest = items.deep_view();
            let e = items.remove(0);
            assert(rest[0] == e.deep_view());
            assert(items.deep_view() =~= rest.drop_first());
            assert(ie.skip(j as int)[0] == ie[j as int]);
            assert(ie.skip(j + 1) =~= ie.skip(j as int).drop_first());
            self.merge_entry(e);
            j = j + 1;
        }
        assert(j == ie.len());
    }

    /// Adds the spans a file-backed module declares for itself to the module's item.
    pub fn extend_membership(&mut self, path: &String, spans: &Vec<String>)
        requires
            index_wf(old(self).deep_view().index),
            find_key(old(self).deep_view().index.items, path@, 0) is Some,
        ensures
            ({
                let items = old(self).deep_view().index.items;
                let k = find_key(items, path@, 0)->Some_0;
                final(self).deep_view() == (ScannerV {
                    index: ScanIndexV {
                        items: items.update(
                            k,
                            (
                                items[k].0,
                                ScannedItemV {
                                    inherited_spans: insert_all(
                                        items[k].1.inherited_spans,
                                        spans.deep_view(),
                                        spans@.len(),
                                    ),
                                    ..items[k].1
                                },
                            ),
                        ),
                        ..old(self).deep_view().index
                    },
                    ..old(self).deep_view()
                })
            }),
            index_wf(final(self).deep_view().index),
    {
        let ghost s0 = self.deep_view();
        let k = match key_position(&self.index.items, path.as_str()) {
            Some(k) => k,
            None => return,
        };
        proof {
            lemma_find_key(s0.index.items, path@, 0);
        }
        let (p, item) = self.index.items.remove(k);
        let ScannedItem { source, shape, annotations, inherited_spans } = item;
        let ghost base = inherited_spans.deep_view();
        let mut set = inherited_spans;
        let ghost xv = spans.deep_view();
        let mut j: usize = 0;
        while j < spans.len()
            invariant
                j <= spans.len(),
                xv == spans.deep_view(),
                set.deep_view() == insert_all(base, xv, j as nat),
            decreases spans.len() - j,
        {
            insert_string(&mut set, &spans[j]);
            j = j + 1;
        }
        proof {
            assert(strictly_sorted(base));
            lemma_insert_all(base, xv, xv.len());
        }
        let updated = ScannedItem { source, shape, annotations, inherited_spans: set };
        let ghost before = self.index.items.deep_view();
        let ghost entry = (p@, updated.deep_view());
        self.index.items.insert(k, (p, updated));
        proof {
            assert(self.index.items.deep_view() =~= before.insert(k as int, entry));
            assert(self.index.items.deep_view() =~= s0.index.items.update(k as int, entry));
            let items = self.index.items.deep_view();
            assert(keys(items) =~= keys(s0.index.items));
            assert forall|x: int| 0 <= x < items.len() implies strictly_sorted(#[trigger] items[x].1.inherited_spans) by {
                if x != k {
                    assert(items[x] == s0.index.items[x]);
                }
            }
        }
    }

    /// Ends the traversal: the index, or every diagnostic collected, ascending and
    /// without repeats.
    pub fn finish(self) -> (r: Result<ScanIndex, BuildError>)
        requires
            index_wf(self.deep_view().index),
        ensures
            match r {
                Ok(ix) => self.deep_view().errors.len() == 0 && ix.deep_view() == self.deep_view().index
                    && index_wf(ix.deep_view()),
                Err(e) => self.deep_view().errors.len() > 0 && e.messages.deep_view() == ordered_set(
                    self.deep_view().errors,
                ),
            },
    {
        if self.errors.len() == 0 {
            Ok(self.index)
        } else {
            let messages = ordered_strings(&self.errors);
            Err(BuildError { messages })
        }
    }
}

} // verus!
