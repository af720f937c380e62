//! Assembles scanned directives into a validated knowledge map.
//!
//! The scan of a crate yields, for every reachable Rust item, its def path, source
//! range, signature, shape and `#[specdrs(...)]` annotations, together with the spans
//! declared by `specdrs_span!` and the members that span-declaring containers seeded.
//! This module resolves span entries and evidence binders against that index,
//! validates the span graph, the claims of every owner and the axis statuses, and
//! either emits the map or returns every diagnostic, ordered and without repeats.
use vstd::prelude::*;

use crate::analysis::{blank, is_blank};
use crate::attribute::{
    copy_links, ClaimArgs, ClaimArgsV, ClaimsArgs, ClaimsArgsV, Directive, DirectiveV,
    EvidenceArgs, EvidenceArgsV, NotApplicableArgs, NotApplicableArgsV, SpanArgs, SpanArgsV,
    SpecdrsArgs, SpecdrsArgsV,
};
use crate::identity::{join, join_strings, normalize_binder, normalized_binder};
use crate::model::{
    axis_index, axis_name, clone_claims, unspecified_entry, Axis, AxisEntry, AxisEntryV, AxisStatus, Claim,
    ClaimV, Evidence, EvidenceKind, EvidenceResult, EvidenceV, Item, ItemV, KnowledgeMap,
    KnowledgeMapV, SourcePosition, SourceRange, SourceRangeV, Span, SpanV,
};
use crate::sets::{
    values_sorted, find_key, key_position, keys, has_string, insert_string, lemma_find_key, lemma_set_of, ordered_set, ordered_strings, set_insert,
    strictly_sorted,
};
use crate::projection::{
    applicable_spec, find_span, is_first_span, lemma_applicable_spans_order, lemma_str_order_antisym,
    parent_earlier, reaches_root, str_order,
};
use crate::text::{append, clone_opt_string, clone_strings, decimal, decimal_string, string_lit};

verus! {

// ---------------------------------------------------------------------------
// Scanned input.

/// Classifies a scanned Rust item for evidence compatibility.
#[derive(Debug, Clone, Copy, PartialEq, Eq, Structural)]
pub enum ItemShape {
    /// A function or method; `test` marks a `#[test]` function.
    Function { test: bool },
    /// A struct, enum, union, type alias or trait.
    Type,
    /// A module, const or static.
    Other,
}

/// Whether an item of this shape can satisfy an evidence kind.
pub open spec fn shape_supports(shape: ItemShape, kind: EvidenceKind) -> bool {
    match kind {
        EvidenceKind::Type => shape == ItemShape::Type,
        EvidenceKind::Test => shape == ItemShape::Function { test: true },
        EvidenceKind::Fuzz | EvidenceKind::Proof => shape is Function,
        EvidenceKind::Lint => true,
    }
}

impl ItemShape {
    /// Returns whether this item shape can satisfy an evidence kind.
    pub fn supports(self, kind: EvidenceKind) -> (r: bool)
        ensures
            r == shape_supports(self, kind),
    {
        match kind {
            EvidenceKind::Type => match self {
                ItemShape::Type => true,
                _ => false,
            },
            EvidenceKind::Test => match self {
                ItemShape::Function { test } => test,
                _ => false,
            },
            EvidenceKind::Fuzz | EvidenceKind::Proof => match self {
                ItemShape::Function { .. } => true,
                _ => false,
            },
            EvidenceKind::Lint => true,
        }
    }
}

/// Source metadata retained for one scanned item.
#[derive(Debug)]
pub struct ScannedSource {
    /// The source file, relative to the package root.
    pub file: String,
    /// Where the item's syntax starts.
    pub start: SourcePosition,
    /// Where the item's syntax ends.
    pub end: SourcePosition,
    /// The item's signature with tidied token spacing.
    pub signature: String,
    /// The module the item is declared in, starting with the crate's name.
    pub modules: Vec<String>,
}

/// Mathematical value of a [`ScannedSource`].
pub struct ScannedSourceV {
    pub file: Seq<char>,
    pub start: SourcePosition,
    pub end: SourcePosition,
    pub signature: Seq<char>,
    pub modules: Seq<Seq<char>>,
}

impl DeepView for ScannedSource {
    type V = ScannedSourceV;

    open spec fn deep_view(&self) -> ScannedSourceV {
        ScannedSourceV {
            file: self.file@,
            start: self.start,
            end: self.end,
            signature: self.signature@,
            modules: self.modules.deep_view(),
        }
    }
}

/// One scanned item before assembly.
#[derive(Debug)]
pub struct ScannedItem {
    pub source: ScannedSource,
    pub shape: ItemShape,
    /// The item's own `#[specdrs(...)]` annotations, in written order.
    pub annotations: Vec<SpecdrsArgs>,
    /// The spans the item holds through its containers and modules, ascending.
    pub inherited_spans: Vec<String>,
}

/// Mathematical value of a [`ScannedItem`].
pub struct ScannedItemV {
    pub source: ScannedSourceV,
    pub shape: ItemShape,
    pub annotations: Seq<SpecdrsArgsV>,
    pub inherited_spans: Seq<Seq<char>>,
}

impl DeepView for ScannedItem {
    type V = ScannedItemV;

    open spec fn deep_view(&self) -> ScannedItemV {
        ScannedItemV {
            source: self.source.deep_view(),
            shape: self.shape,
            annotations: self.annotations.deep_view(),
            inherited_spans: self.inherited_spans.deep_view(),
        }
    }
}

/// One span declared without a host item (by `specdrs_span!`) or on an
/// implementation block.
#[derive(Debug)]
pub struct ScannedSpan {
    pub id: String,
    pub parent: Option<String>,
    /// The entry as written.
    pub entry: String,
    pub claims: Option<ClaimsArgs>,
    /// The module the declaration is written in.
    pub modules: Vec<String>,
    /// The `file:line` of the container that declared the span, when one did.
    pub container: Option<String>,
}

/// Mathematical value of a [`ScannedSpan`].
pub struct ScannedSpanV {
    pub id: Seq<char>,
    pub parent: Option<Seq<char>>,
    pub entry: Seq<char>,
    pub claims: Option<ClaimsArgsV>,
    pub modules: Seq<Seq<char>>,
    pub container: Option<Seq<char>>,
}

impl DeepView for ScannedSpan {
    type V = ScannedSpanV;

    open spec fn deep_view(&self) -> ScannedSpanV {
        ScannedSpanV {
            id: self.id@,
            parent: self.parent.deep_view(),
            entry: self.entry@,
            claims: self.claims.deep_view(),
            modules: self.modules.deep_view(),
            container: self.container.deep_view(),
        }
    }
}

/// The canonical output of a crate scan.
#[derive(Debug)]
pub struct ScanIndex {
    /// The crate's name, with `_` for `-`.
    pub crate_name: String,
    /// Every scanned item, keyed by def path, ascending.
    pub items: Vec<(String, ScannedItem)>,
    /// Alternate owner paths of trait-implementation methods, with the def paths each
    /// stands for, ascending.
    pub aliases: Vec<(String, Vec<String>)>,
    /// Spans declared without a host item, in scan order.
    pub span_declarations: Vec<ScannedSpan>,
    /// For each span declared on a container, the items the container holds.
    pub container_members: Vec<(String, Vec<String>)>,
}

/// Mathematical value of a [`ScanIndex`].
pub struct ScanIndexV {
    pub crate_name: Seq<char>,
    pub items: Seq<(Seq<char>, ScannedItemV)>,
    pub aliases: Seq<(Seq<char>, Seq<Seq<char>>)>,
    pub span_declarations: Seq<ScannedSpanV>,
    pub container_members: Seq<(Seq<char>, Seq<Seq<char>>)>,
}

impl DeepView for ScanIndex {
    type V = ScanIndexV;

    open spec fn deep_view(&self) -> ScanIndexV {
        ScanIndexV {
            crate_name: self.crate_name@,
            items: self.items.deep_view(),
            aliases: self.aliases.deep_view(),
            span_declarations: self.span_declarations.deep_view(),
            container_members: self.container_members.deep_view(),
        }
    }
}

/// The index is canonical: items, aliases and container members are keyed in ascending
/// order without repeats, every list of paths or span identifiers is an ordered set, and
/// every path an alternate owner stands for is an item.
pub open spec fn index_wf(ix: ScanIndexV) -> bool {
    &&& strictly_sorted(keys(ix.items))
    &&& strictly_sorted(keys(ix.aliases))
    &&& strictly_sorted(keys(ix.container_members))
    &&& values_sorted(ix.aliases)
    &&& values_sorted(ix.container_members)
    &&& forall|k: int|
        0 <= k < ix.items.len() ==> strictly_sorted(#[trigger] ix.items[k].1.inherited_spans)
    &&& aliases_resolve(ix)
}

/// Every def path an alternate owner stands for is an item of the index.
pub open spec fn aliases_resolve(ix: ScanIndexV) -> bool {
    forall|i: int, y: Seq<char>|
        0 <= i < ix.aliases.len() && #[trigger] ix.aliases[i].1.contains(y) ==> keys(ix.items).contains(y)
}

/// A map keyed as its fields promise: items in strictly ascending path order and spans
/// in strictly ascending identifier order.
pub open spec fn map_ordered(m: KnowledgeMapV) -> bool {
    &&& strictly_sorted(keys(m.items))
    &&& forall|i: int, j: int|
        0 <= i < j < m.spans.len() ==> str_order(#[trigger] m.spans[i].id, #[trigger] m.spans[j].id) < 0
}

/// Reports metadata, source parsing, annotation, and map validation failures.
#[derive(Debug)]
pub struct BuildError {
    /// Every collected diagnostic, in ascending order without repeats.
    pub messages: Vec<String>,
}

impl BuildError {
    /// Returns each collected diagnostic in deterministic order.
    pub fn messages(&self) -> (r: &Vec<String>)
        ensures
            r == &self.messages,
    {
        &self.messages
    }
}

// ---------------------------------------------------------------------------
// Lookup.

/// Whether the scan recorded an item with def path `p`.
pub open spec fn has_item(ix: ScanIndexV, p: Seq<char>) -> bool {
    find_key(ix.items, p, 0) is Some
}

/// The def paths an alternate owner path stands for.
pub open spec fn alias_list(ix: ScanIndexV, p: Seq<char>) -> Option<Seq<Seq<char>>> {
    match find_key(ix.aliases, p, 0) {
        Some(k) => Some(ix.aliases[k].1),
        None => None,
    }
}

/// The items a span-declaring container seeded for span `id`.
pub open spec fn seeded(ix: ScanIndexV, id: Seq<char>) -> Option<Seq<Seq<char>>> {
    match find_key(ix.container_members, id, 0) {
        Some(k) => Some(ix.container_members[k].1),
        None => None,
    }
}

// ---------------------------------------------------------------------------
// Span entries.

/// Diagnostic for an entry that names several items through an alternate owner.
pub open spec fn ambiguous_entry_msg(id: Seq<char>, path: Seq<char>, cands: Seq<Seq<char>>) -> Seq<char> {
    "span `"@ + id + "` entry `"@ + path + "` is ambiguous; candidates: "@ + join(cands, ", "@)
        + ". Point entry at one fully qualified item path"@
}

/// Diagnostic for an entry that names no scanned item.
pub open spec fn missing_entry_msg(id: Seq<char>, path: Seq<char>) -> Seq<char> {
    "span `"@ + id + "` has missing entry `"@ + path
        + "`. entry must name a scanned Rust item: a function, type, trait, module, const, static, or impl method. Point it at an existing item, or add that item"@
}

/// A span entry resolved against def paths and alternate owners, with the diagnostic
/// it raises, if any. An unresolved entry is kept as written.
pub open spec fn resolve_entry(ix: ScanIndexV, path: Seq<char>, id: Seq<char>) -> (Seq<char>, Option<Seq<char>>) {
    if has_item(ix, path) {
        (path, None)
    } else {
        match alias_list(ix, path) {
            Some(c) => if c.len() == 1 {
                (c[0], None)
            } else {
                (path, Some(ambiguous_entry_msg(id, path, c)))
            },
            None => (path, Some(missing_entry_msg(id, path))),
        }
    }
}

/// Resolves a span entry against canonical item paths and aliases.
pub fn resolve_item_reference(path: &String, ix: &ScanIndex, span_id: &String) -> (r: (String, Option<String>))
    ensures
        (r.0@, r.1.deep_view()) == resolve_entry(ix.deep_view(), path@, span_id@),
{
    proof {
        reveal_strlit("span `");
        reveal_strlit("` entry `");
        reveal_strlit("` is ambiguous; candidates: ");
        reveal_strlit(", ");
        reveal_strlit(". Point entry at one fully qualified item path");
        reveal_strlit("` has missing entry `");
        reveal_strlit(
            "`. entry must name a scanned Rust item: a function, type, trait, module, const, static, or impl method. Point it at an existing item, or add that item",
        );
    }
    if key_position(&ix.items, path.as_str()).is_some() {
        return (path.clone(), None);
    }
    match key_position(&ix.aliases, path.as_str()) {
        Some(k) => {
            let cands = &ix.aliases[k].1;
            if cands.len() == 1 {
                (cands[0].clone(), None)
            } else {
                let mut m = string_lit("span `");
                append(&mut m, span_id.as_str());
                append(&mut m, "` entry `");
                append(&mut m, path.as_str());
                append(&mut m, "` is ambiguous; candidates: ");
                let listed = join_strings(cands, ", ");
                append(&mut m, listed.as_str());
                append(&mut m, ". Point entry at one fully qualified item path");
                (path.clone(), Some(m))
            }
        },
        None => {
            let mut m = string_lit("span `");
            append(&mut m, span_id.as_str());
            append(&mut m, "` has missing entry `");
            append(&mut m, path.as_str());
            append(
                &mut m,
                "`. entry must name a scanned Rust item: a function, type, trait, module, const, static, or impl method. Point it at an existing item, or add that item",
            );
            (path.clone(), Some(m))
        },
    }
}

// ---------------------------------------------------------------------------
// Span declarations.

/// One span declaration with its entry resolved.
#[derive(Debug)]
pub struct Declaration {
    pub id: String,
    pub parent: Option<String>,
    /// The resolved entry.
    pub entry: String,
    pub claims: Option<ClaimsArgs>,
    /// The module the declaration's claims resolve their binders against.
    pub modules: Vec<String>,
    /// The `file:line` of the declaring container, when one declared the span.
    pub container: Option<String>,
    /// The diagnostic raised by resolving the entry, if any.
    pub problem: Option<String>,
}

/// Mathematical value of a [`Declaration`].
pub struct DeclV {
    pub id: Seq<char>,
    pub parent: Option<Seq<char>>,
    pub entry: Seq<char>,
    pub claims: Option<ClaimsArgsV>,
    pub modules: Seq<Seq<char>>,
    pub container: Option<Seq<char>>,
    pub problem: Option<Seq<char>>,
}

impl DeepView for Declaration {
    type V = DeclV;

    open spec fn deep_view(&self) -> DeclV {
        DeclV {
            id: self.id@,
            parent: self.parent.deep_view(),
            entry: self.entry@,
            claims: self.claims.deep_view(),
            modules: self.modules.deep_view(),
            container: self.container.deep_view(),
            problem: self.problem.deep_view(),
        }
    }
}

/// A span declared in an annotation of the item `host` in the module `m`: its entry
/// defaults to the host and is otherwise resolved against the module.
pub open spec fn declared(ix: ScanIndexV, host: Seq<char>, m: Seq<Seq<char>>, v: SpanArgsV) -> DeclV {
    let normalized = match v.entry {
        Some(e) => normalized_binder(e, m, ix.crate_name),
        None => host,
    };
    let resolved = resolve_entry(ix, normalized, v.id);
    DeclV {
        id: v.id,
        parent: v.parent,
        entry: resolved.0,
        claims: v.claims,
        modules: m,
        container: None,
        problem: resolved.1,
    }
}

/// The spans declared by the first `n` directives of one annotation.
pub open spec fn directive_decls(ix: ScanIndexV, host: Seq<char>, m: Seq<Seq<char>>, ds: Seq<DirectiveV>, n: nat) -> Seq<DeclV>
    decreases n,
{
    if n == 0 || n > ds.len() {
        Seq::empty()
    } else {
        let prev = directive_decls(ix, host, m, ds, (n - 1) as nat);
        match ds[n - 1] {
            DirectiveV::Span(v) => prev.push(declared(ix, host, m, v)),
            _ => prev,
        }
    }
}

/// The spans declared by the first `n` annotations of one item.
pub open spec fn annotation_decls(ix: ScanIndexV, host: Seq<char>, m: Seq<Seq<char>>, anns: Seq<SpecdrsArgsV>, n: nat) -> Seq<DeclV>
    decreases n,
{
    if n == 0 || n > anns.len() {
        Seq::empty()
    } else {
        annotation_decls(ix, host, m, anns, (n - 1) as nat) + directive_decls(
            ix,
            host,
            m,
            anns[n - 1].directives,
            anns[n - 1].directives.len(),
        )
    }
}

/// The spans declared by annotations of the first `n` items.
pub open spec fn items_decls(ix: ScanIndexV, n: nat) -> Seq<DeclV>
    decreases n,
{
    if n == 0 || n > ix.items.len() {
        Seq::empty()
    } else {
        let it = ix.items[n - 1];
        items_decls(ix, (n - 1) as nat) + annotation_decls(
            ix,
            it.0,
            it.1.source.modules,
            it.1.annotations,
            it.1.annotations.len(),
        )
    }
}

/// A span declared without a host item, resolved against its own module.
pub open spec fn free_declared(ix: ScanIndexV, d: ScannedSpanV) -> DeclV {
    let resolved = resolve_entry(ix, normalized_binder(d.entry, d.modules, ix.crate_name), d.id);
    DeclV {
        id: d.id,
        parent: d.parent,
        entry: resolved.0,
        claims: d.claims,
        modules: d.modules,
        container: d.container,
        problem: resolved.1,
    }
}

/// The first `n` host-free declarations, resolved.
pub open spec fn free_decls(ix: ScanIndexV, n: nat) -> Seq<DeclV>
    decreases n,
{
    if n == 0 || n > ix.span_declarations.len() {
        Seq::empty()
    } else {
        free_decls(ix, (n - 1) as nat).push(free_declared(ix, ix.span_declarations[n - 1]))
    }
}

/// Every span declaration of the crate: those in item annotations, in item order,
/// then the host-free ones, each with its entry resolved.
pub open spec fn all_decls(ix: ScanIndexV) -> Seq<DeclV> {
    items_decls(ix, ix.items.len()) + free_decls(ix, ix.span_declarations.len())
}

fn copy_claim(c: &ClaimArgs) -> (r: ClaimArgs)
    ensures
        r.deep_view() == c.deep_view(),
{
    ClaimArgs {
        id: c.id.clone(),
        axis: c.axis,
        kind: c.kind,
        text: c.text.clone(),
        evidence: copy_links(&c.evidence),
    }
}

/// Copies a claims block.
pub fn copy_claims(c: &ClaimsArgs) -> (r: ClaimsArgs)
    ensures
        r.deep_view() == c.deep_view(),
{
    let mut claims: Vec<ClaimArgs> = Vec::new();
    let mut k: usize = 0;
    while k < c.claims.len()
        invariant
            k <= c.claims.len(),
            claims@.len() == k,
            forall|x: int| 0 <= x < k ==> #[trigger] claims@[x].deep_view() == c.claims@[x].deep_view(),
        decreases c.claims.len() - k,
    {
        claims.push(copy_claim(&c.claims[k]));
        k = k + 1;
    }
    let mut na: Vec<NotApplicableArgs> = Vec::new();
    let mut j: usize = 0;
    while j < c.not_applicable.len()
        invariant
            j <= c.not_applicable.len(),
            na@.len() == j,
            forall|x: int|
                0 <= x < j ==> #[trigger] na@[x].deep_view() == c.not_applicable@[x].deep_view(),
        decreases c.not_applicable.len() - j,
    {
        na.push(
            NotApplicableArgs {
                axis: c.not_applicable[j].axis,
                reason: c.not_applicable[j].reason.clone(),
            },
        );
        j = j + 1;
    }
    let r = ClaimsArgs { claims, not_applicable: na };
    assert(r.claims.deep_view() =~= c.claims.deep_view());
    assert(r.not_applicable.deep_view() =~= c.not_applicable.deep_view());
    r
}

fn copy_claims_opt(c: &Option<ClaimsArgs>) -> (r: Option<ClaimsArgs>)
    ensures
        r.deep_view() == c.deep_view(),
{
    match c {
        Some(c) => Some(copy_claims(c)),
        None => None,
    }
}

fn declare(ix: &ScanIndex, host: &String, m: &Vec<String>, v: &SpanArgs) -> (r: Declaration)
    ensures
        r.deep_view() == declared(ix.deep_view(), host@, m.deep_view(), v.deep_view()),
{
    let normalized = match &v.entry {
        Some(e) => normalize_binder(e.as_str(), m, ix.crate_name.as_str()),
        None => host.clone(),
    };
    let (entry, problem) = resolve_item_reference(&normalized, ix, &v.id);
    Declaration {
        id: v.id.clone(),
        parent: clone_opt_string(&v.parent),
        entry,
        claims: copy_claims_opt(&v.claims),
        modules: clone_strings(m),
        container: None,
        problem,
    }
}

fn push_directive_decls(ix: &ScanIndex, host: &String, m: &Vec<String>, ds: &Vec<Directive>, out: &mut Vec<Declaration>)
    ensures
        final(out).deep_view() == old(out).deep_view() + directive_decls(
            ix.deep_view(),
            host@,
            m.deep_view(),
            ds.deep_view(),
            ds@.len(),
        ),
{
    let ghost start = out.deep_view();
    let ghost dv = ds.deep_view();
    let mut k: usize = 0;
    assert(start + Seq::<DeclV>::empty() =~= start);
    while k < ds.len()
        invariant
            k <= ds.len(),
            dv == ds.deep_view(),
            start == old(out).deep_view(),
            out.deep_view() == start + directive_decls(ix.deep_view(), host@, m.deep_view(), dv, k as nat),
        decreases ds.len() - k,
    {
        match &ds[k] {
            Directive::Span(v) => {
                let d = declare(ix, host, m, v);
                let ghost before = out.deep_view();
                out.push(d);
                assert(out.deep_view() =~= before.push(d.deep_view()));
            },
            _ => {},
        }
        k = k + 1;
    }
}

fn push_item_decls(ix: &ScanIndex, k: usize, out: &mut Vec<Declaration>)
    requires
        k < ix.items@.len(),
    ensures
        final(out).deep_view() == old(out).deep_view() + annotation_decls(
            ix.deep_view(),
            ix.deep_view().items[k as int].0,
            ix.deep_view().items[k as int].1.source.modules,
            ix.deep_view().items[k as int].1.annotations,
            ix.deep_view().items[k as int].1.annotations.len(),
        ),
{
    let host = &ix.items[k].0;
    let item = &ix.items[k].1;
    let ghost iv = ix.deep_view();
    assert(iv.items[k as int].0 == host@);
    assert(iv.items[k as int].1 == item.deep_view());
    let ghost av = item.annotations.deep_view();
    let ghost start = out.deep_view();
    let mut a: usize = 0;
    assert(start + Seq::<DeclV>::empty() =~= start);
    while a < item.annotations.len()
        invariant
            a <= item.annotations.len(),
            av == item.annotations.deep_view(),
            iv == ix.deep_view(),
            start == old(out).deep_view(),
            out.deep_view() == start + annotation_decls(iv, host@, item.source.modules.deep_view(), av, a as nat),
        decreases item.annotations.len() - a,
    {
        let ghost before = out.deep_view();
        push_directive_decls(ix, host, &item.source.modules, &item.annotations[a].directives, out);
        assert(out.deep_view() =~= start + annotation_decls(
            iv,
            host@,
            item.source.modules.deep_view(),
            av,
            (a + 1) as nat,
        ));
        a = a + 1;
    }
}

/// Collects every span declaration of the crate with its entry resolved.
pub fn collect_declarations(ix: &ScanIndex) -> (r: Vec<Declaration>)
    ensures
        r.deep_view() == all_decls(ix.deep_view()),
{
    let ghost iv = ix.deep_view();
    let mut out: Vec<Declaration> = Vec::new();
    assert(out.deep_view() =~= Seq::<DeclV>::empty());
    let mut k: usize = 0;
    while k < ix.items.len()
        invariant
            k <= ix.items.len(),
            iv == ix.deep_view(),
            out.deep_view() == items_decls(iv, k as nat),
        decreases ix.items.len() - k,
    {
        push_item_decls(ix, k, &mut out);
        k = k + 1;
    }
    let ghost head = out.deep_view();
    let mut j: usize = 0;
    assert(head + Seq::<DeclV>::empty() =~= head);
    while j < ix.span_declarations.len()
        invariant
            j <= ix.span_declarations.len(),
            iv == ix.deep_view(),
            head == items_decls(iv, iv.items.len()),
            out.deep_view() == head + free_decls(iv, j as nat),
        decreases ix.span_declarations.len() - j,
    {
        let d = &ix.span_declarations[j];
        let normalized = normalize_binder(d.entry.as_str(), &d.modules, ix.crate_name.as_str());
        let (entry, problem) = resolve_item_reference(&normalized, ix, &d.id);
        let decl = Declaration {
            id: d.id.clone(),
            parent: clone_opt_string(&d.parent),
            entry,
            claims: copy_claims_opt(&d.claims),
            modules: clone_strings(&d.modules),
            container: clone_opt_string(&d.container),
            problem,
        };
        let ghost before = out.deep_view();
        out.push(decl);
        assert(out.deep_view() =~= before.push(decl.deep_view()));
        assert(iv.span_declarations[j as int] == d.deep_view());
        assert(out.deep_view() =~= head + free_decls(iv, (j + 1) as nat));
        j = j + 1;
    }
    out
}

// ---------------------------------------------------------------------------
// Memberships.

/// The span identifiers the first `n` directives of an annotation join.
pub open spec fn directive_joins(ds: Seq<DirectiveV>, n: nat) -> Seq<Seq<char>>
    decreases n,
{
    if n == 0 || n > ds.len() {
        Seq::empty()
    } else {
        let prev = directive_joins(ds, (n - 1) as nat);
        match ds[n - 1] {
            DirectiveV::InSpans(ids) => prev + ids,
            _ => prev,
        }
    }
}

/// The span identifiers the first `n` annotations of an item join.
pub open spec fn annotation_joins(anns: Seq<SpecdrsArgsV>, n: nat) -> Seq<Seq<char>>
    decreases n,
{
    if n == 0 || n > anns.len() {
        Seq::empty()
    } else {
        annotation_joins(anns, (n - 1) as nat) + directive_joins(
            anns[n - 1].directives,
            anns[n - 1].directives.len(),
        )
    }
}

/// The identifiers of the first `n` declarations whose resolved entry is `p`.
pub open spec fn entry_ids(decls: Seq<DeclV>, p: Seq<char>, n: nat) -> Seq<Seq<char>>
    decreases n,
{
    if n == 0 || n > decls.len() {
        Seq::empty()
    } else {
        let prev = entry_ids(decls, p, (n - 1) as nat);
        if decls[n - 1].entry == p {
            prev.push(decls[n - 1].id)
        } else {
            prev
        }
    }
}

/// The spans item `k` is a member of: those inherited from its containers and modules,
/// those its annotations join, and those whose entry it is.
pub open spec fn item_spans(ix: ScanIndexV, decls: Seq<DeclV>, k: int) -> Seq<Seq<char>> {
    let it = ix.items[k];
    ordered_set(
        it.1.inherited_spans + annotation_joins(it.1.annotations, it.1.annotations.len())
            + entry_ids(decls, it.0, decls.len()),
    )
}

/// The span identifiers the first `n` items hold by inheritance or joining.
pub open spec fn joined_span_list(ix: ScanIndexV, n: nat) -> Seq<Seq<char>>
    decreases n,
{
    if n == 0 || n > ix.items.len() {
        Seq::empty()
    } else {
        let it = ix.items[n - 1].1;
        joined_span_list(ix, (n - 1) as nat) + it.inherited_spans + annotation_joins(
            it.annotations,
            it.annotations.len(),
        )
    }
}

/// The identifiers of the first `n` declarations.
pub open spec fn decl_ids(decls: Seq<DeclV>, n: nat) -> Seq<Seq<char>>
    decreases n,
{
    if n == 0 || n > decls.len() {
        Seq::empty()
    } else {
        decl_ids(decls, (n - 1) as nat).push(decls[n - 1].id)
    }
}

/// Every span identifier the crate names, declared or only joined, ascending.
pub open spec fn span_ids(ix: ScanIndexV, decls: Seq<DeclV>) -> Seq<Seq<char>> {
    ordered_set(joined_span_list(ix, ix.items.len()) + decl_ids(decls, decls.len()))
}

/// Positions of the first `n` declarations of span `id`.
pub open spec fn decl_positions(decls: Seq<DeclV>, id: Seq<char>, n: nat) -> Seq<int>
    decreases n,
{
    if n == 0 || n > decls.len() {
        Seq::empty()
    } else {
        let prev = decl_positions(decls, id, (n - 1) as nat);
        if decls[n - 1].id == id {
            prev.push(n - 1)
        } else {
            prev
        }
    }
}

/// The declarations of span `id`, in order.
pub open spec fn decls_of(decls: Seq<DeclV>, id: Seq<char>) -> Seq<DeclV> {
    decl_positions(decls, id, decls.len()).map_values(|p: int| decls[p])
}

/// Def paths of the first `n` items that are members of span `id`.
pub open spec fn members_of(ix: ScanIndexV, decls: Seq<DeclV>, id: Seq<char>, n: nat) -> Seq<Seq<char>>
    decreases n,
{
    if n == 0 || n > ix.items.len() {
        Seq::empty()
    } else {
        let prev = members_of(ix, decls, id, (n - 1) as nat);
        if item_spans(ix, decls, n - 1).contains(id) {
            prev.push(ix.items[n - 1].0)
        } else {
            prev
        }
    }
}

fn push_joins(anns: &Vec<SpecdrsArgs>, out: &mut Vec<String>)
    ensures
        final(out).deep_view() == old(out).deep_view() + annotation_joins(anns.deep_view(), anns@.len()),
{
    let ghost start = out.deep_view();
    let ghost av = anns.deep_view();
    assert(start + Seq::<Seq<char>>::empty() =~= start);
    let mut a: usize = 0;
    while a < anns.len()
        invariant
            a <= anns.len(),
            av == anns.deep_view(),
            start == old(out).deep_view(),
            out.deep_view() == start + annotation_joins(av, a as nat),
        decreases anns.len() - a,
    {
        let ds = &anns[a].directives;
        let ghost dv = ds.deep_view();
        let ghost mid = out.deep_view();
        let mut k: usize = 0;
        assert(mid + Seq::<Seq<char>>::empty() =~= mid);
        while k < ds.len()
            invariant
                k <= ds.len(),
                dv == ds.deep_view(),
                mid == start + annotation_joins(av, a as nat),
                out.deep_view() == mid + directive_joins(dv, k as nat),
            decreases ds.len() - k,
        {
            match &ds[k] {
                Directive::InSpans(ids) => {
                    let mut j: usize = 0;
                    let ghost before = out.deep_view();
                    while j < ids.len()
                        invariant
                            j <= ids.len(),
                            out.deep_view() == before + ids.deep_view().take(j as int),
                        decreases ids.len() - j,
                    {
                        let ghost prev = out.deep_view();
                        out.push(ids[j].clone());
                        assert(out.deep_view() =~= prev.push(ids.deep_view()[j as int]));
                        assert(before + ids.deep_view().take(j + 1) =~= prev.push(
                            ids.deep_view()[j as int],
                        ));
                        j = j + 1;
                    }
                    assert(ids.deep_view().take(j as int) =~= ids.deep_view());
                    assert(out.deep_view() =~= mid + directive_joins(dv, (k + 1) as nat));
                },
                _ => {},
            }
            k = k + 1;
        }
        assert(out.deep_view() =~= start + annotation_joins(av, (a + 1) as nat));
        a = a + 1;
    }
}

fn push_entry_ids(decls: &Vec<Declaration>, p: &String, out: &mut Vec<String>)
    ensures
        final(out).deep_view() == old(out).deep_view() + entry_ids(decls.deep_view(), p@, decls@.len()),
{
    let ghost start = out.deep_view();
    let ghost dv = decls.deep_view();
    assert(start + Seq::<Seq<char>>::empty() =~= start);
    let mut k: usize = 0;
    while k < decls.len()
        invariant
            k <= decls.len(),
            dv == decls.deep_view(),
            start == old(out).deep_view(),
            out.deep_view() == start + entry_ids(dv, p@, k as nat),
        decreases decls.len() - k,
    {
        if crate::text::strings_equal(&decls[k].entry, p) {
            let ghost before = out.deep_view();
            out.push(decls[k].id.clone());
            assert(out.deep_view() =~= before.push(dv[k as int].id));
        }
        k = k + 1;
    }
}

/// The ordered span memberships of every scanned item, in item order.
pub fn item_span_sets(ix: &ScanIndex, decls: &Vec<Declaration>) -> (r: Vec<Vec<String>>)
    ensures
        r@.len() == ix.items@.len(),
        forall|k: int|
            0 <= k < r@.len() ==> #[trigger] r@[k].deep_view() == item_spans(
                ix.deep_view(),
                decls.deep_view(),
                k,
            ),
{
    let ghost iv = ix.deep_view();
    let mut r: Vec<Vec<String>> = Vec::new();
    let mut k: usize = 0;
    while k < ix.items.len()
        invariant
            k <= ix.items.len(),
            iv == ix.deep_view(),
            r@.len() == k,
            forall|x: int| 0 <= x < k ==> #[trigger] r@[x].deep_view() == item_spans(iv, decls.deep_view(), x),
        decreases ix.items.len() - k,
    {
        let item = &ix.items[k].1;
        assert(iv.items[k as int].1 == item.deep_view());
        assert(iv.items[k as int].0 == ix.items[k as int].0@);
        let mut list = clone_strings(&item.inherited_spans);
        push_joins(&item.annotations, &mut list);
        push_entry_ids(decls, &ix.items[k].0, &mut list);
        r.push(ordered_strings(&list));
        k = k + 1;
    }
    r
}

/// Every span identifier the crate names, ascending.
pub fn collect_span_ids(ix: &ScanIndex, decls: &Vec<Declaration>) -> (r: Vec<String>)
    ensures
        r.deep_view() == span_ids(ix.deep_view(), decls.deep_view()),
{
    let ghost iv = ix.deep_view();
    let mut list: Vec<String> = Vec::new();
    assert(list.deep_view() =~= Seq::<Seq<char>>::empty());
    let mut k: usize = 0;
    while k < ix.items.len()
        invariant
            k <= ix.items.len(),
            iv == ix.deep_view(),
            list.deep_view() == joined_span_list(iv, k as nat),
        decreases ix.items.len() - k,
    {
        let item = &ix.items[k].1;
        assert(iv.items[k as int].1 == item.deep_view());
        let ghost before = list.deep_view();
        let mut j: usize = 0;
        while j < item.inherited_spans.len()
            invariant
                j <= item.inherited_spans.len(),
                list.deep_view() == before + item.inherited_spans.deep_view().take(j as int),
            decreases item.inherited_spans.len() - j,
        {
            let ghost prev = list.deep_view();
            list.push(item.inherited_spans[j].clone());
            assert(list.deep_view() =~= prev.push(item.inherited_spans.deep_view()[j as int]));
            assert(before + item.inherited_spans.deep_view().take(j + 1) =~= prev.push(
                item.inherited_spans.deep_view()[j as int],
            ));
            j = j + 1;
        }
        assert(item.inherited_spans.deep_view().take(j as int) =~= item.inherited_spans.deep_view());
        push_joins(&item.annotations, &mut list);
        k = k + 1;
    }
    let ghost head = list.deep_view();
    let ghost dv = decls.deep_view();
    let mut j: usize = 0;
    assert(head + Seq::<Seq<char>>::empty() =~= head);
    while j < decls.len()
        invariant
            j <= decls.len(),
            dv == decls.deep_view(),
            head == joined_span_list(iv, iv.items.len()),
            list.deep_view() == head + decl_ids(dv, j as nat),
        decreases decls.len() - j,
    {
        let ghost before = list.deep_view();
        list.push(decls[j].id.clone());
        assert(list.deep_view() =~= before.push(dv[j as int].id));
        assert(list.deep_view() =~= head + decl_ids(dv, (j + 1) as nat));
        j = j + 1;
    }
    ordered_strings(&list)
}

/// Positions of the declarations of span `id`.
pub fn declarations_of(decls: &Vec<Declaration>, id: &String) -> (r: Vec<usize>)
    ensures
        r@.map_values(|p: usize| p as int) == decl_positions(decls.deep_view(), id@, decls@.len()),
        forall|j: int| 0 <= j < r@.len() ==> #[trigger] r@[j] < decls@.len(),
{
    let ghost dv = decls.deep_view();
    let mut r: Vec<usize> = Vec::new();
    let mut k: usize = 0;
    assert(r@.map_values(|p: usize| p as int) =~= Seq::<int>::empty());
    while k < decls.len()
        invariant
            k <= decls.len(),
            dv == decls.deep_view(),
            r@.map_values(|p: usize| p as int) == decl_positions(dv, id@, k as nat),
            forall|j: int| 0 <= j < r@.len() ==> #[trigger] r@[j] < decls@.len(),
        decreases decls.len() - k,
    {
        if crate::text::strings_equal(&decls[k].id, id) {
            let ghost before = r@;
            r.push(k);
            assert(r@.map_values(|p: usize| p as int) =~= before.map_values(|p: usize| p as int).push(
                k as int,
            ));
        }
        k = k + 1;
    }
    r
}

/// Def paths of the members of span `id`, ascending.
pub fn members_for(ix: &ScanIndex, decls: &Vec<Declaration>, sets: &Vec<Vec<String>>, id: &String) -> (r: Vec<String>)
    requires
        sets@.len() == ix.items@.len(),
        forall|k: int|
            0 <= k < sets@.len() ==> #[trigger] sets@[k].deep_view() == item_spans(
                ix.deep_view(),
                decls.deep_view(),
                k,
            ),
    ensures
        r.deep_view() == members_of(ix.deep_view(), decls.deep_view(), id@, ix.items@.len() as nat),
{
    let ghost iv = ix.deep_view();
    let mut r: Vec<String> = Vec::new();
    assert(r.deep_view() =~= Seq::<Seq<char>>::empty());
    let mut k: usize = 0;
    while k < ix.items.len()
        invariant
            k <= ix.items.len(),
            iv == ix.deep_view(),
            sets@.len() == ix.items@.len(),
            forall|x: int|
                0 <= x < sets@.len() ==> #[trigger] sets@[x].deep_view() == item_spans(
                    iv,
                    decls.deep_view(),
                    x,
                ),
            r.deep_view() == members_of(iv, decls.deep_view(), id@, k as nat),
        decreases ix.items.len() - k,
    {
        assert(sets@[k as int].deep_view() == item_spans(iv, decls.deep_view(), k as int));
        if has_string(&sets[k], id.as_str()) {
            let ghost before = r.deep_view();
            r.push(ix.items[k].0.clone());
            assert(r.deep_view() =~= before.push(iv.items[k as int].0));
        }
        k = k + 1;
    }
    r
}

// ---------------------------------------------------------------------------
// The span graph.

/// Diagnostic for a blank span identifier.
pub open spec fn empty_span_id_msg() -> Seq<char> {
    "span id must not be empty. Write span(id = \"checkout\", ...) or specdrs_span!(id = \"checkout\", entry = ...)"@
}

/// Diagnostic for a span declared `n` times, `n` other than one.
pub open spec fn declaration_count_msg(id: Seq<char>, n: nat) -> Seq<char> {
    "span `"@ + id + "` requires exactly one declaration; found "@ + decimal(n)
        + ". Declare a span once with span(...) or specdrs_span!. Other items join it with in_spans(...) or specdrs_module!(in_spans(...))"@
}

/// Diagnostic for a blank parent.
pub open spec fn empty_parent_msg(id: Seq<char>) -> Seq<char> {
    "span `"@ + id + "` has an empty parent id. Write parent = \"payments\" or omit parent"@
}

/// Diagnostic for a span that names itself as parent.
pub open spec fn own_parent_msg(id: Seq<char>) -> Seq<char> {
    "span `"@ + id
        + "` cannot be its own parent. Point parent at an enclosing span, or omit parent for a root span"@
}

/// Diagnostic for a parent that no span is.
pub open spec fn missing_parent_msg(id: Seq<char>, parent: Seq<char>) -> Seq<char> {
    "span `"@ + id + "` has missing parent `"@ + parent + "`. Declare `"@ + parent
        + "` with span(...) or specdrs_span! before referencing it, or drop the parent field"@
}

/// The diagnostics of span `id`: a blank identifier, a declaration count other than
/// one, or a blank, self-referencing or missing parent.
pub open spec fn span_problems(ids: Seq<Seq<char>>, decls: Seq<DeclV>, id: Seq<char>) -> Seq<Seq<char>> {
    let e0 = if is_blank(id) {
        seq![empty_span_id_msg()]
    } else {
        Seq::empty()
    };
    let ds = decls_of(decls, id);
    if ds.len() != 1 {
        e0.push(declaration_count_msg(id, ds.len()))
    } else {
        match ds[0].parent {
            Some(pa) => if is_blank(pa) {
                e0.push(empty_parent_msg(id))
            } else if pa == id {
                e0.push(own_parent_msg(id))
            } else if !ids.contains(pa) {
                e0.push(missing_parent_msg(id, pa))
            } else {
                e0
            },
            None => e0,
        }
    }
}

/// The diagnostics of the first `n` spans.
pub open spec fn span_checks(ids: Seq<Seq<char>>, decls: Seq<DeclV>, n: nat) -> Seq<Seq<char>>
    decreases n,
{
    if n == 0 || n > ids.len() {
        Seq::empty()
    } else {
        span_checks(ids, decls, (n - 1) as nat) + span_problems(ids, decls, ids[n - 1])
    }
}

fn span_count_message(id: &String, n: usize) -> (r: String)
    ensures
        r@ == declaration_count_msg(id@, n as nat),
{
    proof {
        reveal_strlit("span `");
        reveal_strlit("` requires exactly one declaration; found ");
        reveal_strlit(
            ". Declare a span once with span(...) or specdrs_span!. Other items join it with in_spans(...) or specdrs_module!(in_spans(...))",
        );
    }
    let mut m = string_lit("span `");
    append(&mut m, id.as_str());
    append(&mut m, "` requires exactly one declaration; found ");
    let count = decimal_string(n);
    append(&mut m, count.as_str());
    append(
        &mut m,
        ". Declare a span once with span(...) or specdrs_span!. Other items join it with in_spans(...) or specdrs_module!(in_spans(...))",
    );
    m
}

fn parent_message(id: &String, parent: &String, ids: &Vec<String>) -> (r: Option<String>)
    ensures
        r.deep_view() == (if is_blank(parent@) {
            Some(empty_parent_msg(id@))
        } else if parent@ == id@ {
            Some(own_parent_msg(id@))
        } else if !ids.deep_view().contains(parent@) {
            Some(missing_parent_msg(id@, parent@))
        } else {
            None::<Seq<char>>
        }),
{
    proof {
        reveal_strlit("span `");
        reveal_strlit("` has an empty parent id. Write parent = \"payments\" or omit parent");
        reveal_strlit(
            "` cannot be its own parent. Point parent at an enclosing span, or omit parent for a root span",
        );
        reveal_strlit("` has missing parent `");
        reveal_strlit("`. Declare `");
        reveal_strlit(
            "` with span(...) or specdrs_span! before referencing it, or drop the parent field",
        );
    }
    if blank(parent) {
        let mut m = string_lit("span `");
        append(&mut m, id.as_str());
        append(&mut m, "` has an empty parent id. Write parent = \"payments\" or omit parent");
        Some(m)
    } else if crate::text::strings_equal(parent, id) {
        let mut m = string_lit("span `");
        append(&mut m, id.as_str());
        append(
            &mut m,
            "` cannot be its own parent. Point parent at an enclosing span, or omit parent for a root span",
        );
        Some(m)
    } else if !has_string(ids, parent.as_str()) {
        let mut m = string_lit("span `");
        append(&mut m, id.as_str());
        append(&mut m, "` has missing parent `");
        append(&mut m, parent.as_str());
        append(&mut m, "`. Declare `");
        append(&mut m, parent.as_str());
        append(
            &mut m,
            "` with span(...) or specdrs_span! before referencing it, or drop the parent field",
        );
        Some(m)
    } else {
        None
    }
}

proof fn lemma_decls_of(decls: Seq<DeclV>, id: Seq<char>, pos: Seq<usize>)
    requires
        pos.map_values(|p: usize| p as int) == decl_positions(decls, id, decls.len()),
        forall|j: int| 0 <= j < pos.len() ==> #[trigger] pos[j] < decls.len(),
    ensures
        decls_of(decls, id).len() == pos.len(),
        forall|j: int| 0 <= j < pos.len() ==> #[trigger] decls_of(decls, id)[j] == decls[pos[j] as int],
{
    assert forall|j: int| 0 <= j < pos.len() implies #[trigger] decls_of(decls, id)[j] == decls[pos[j] as int] by {
        assert(pos.map_values(|p: usize| p as int)[j] == pos[j] as int);
    }
}

/// Validates span identifiers, declaration counts, and parent references.
pub fn validate_spans(ids: &Vec<String>, decls: &Vec<Declaration>, errors: &mut Vec<String>)
    ensures
        final(errors).deep_view() == old(errors).deep_view() + span_checks(
            ids.deep_view(),
            decls.deep_view(),
            ids@.len() as nat,
        ),
{
    proof {
        reveal_strlit(
            "span id must not be empty. Write span(id = \"checkout\", ...) or specdrs_span!(id = \"checkout\", entry = ...)",
        );
    }
    let ghost start = errors.deep_view();
    let ghost iv = ids.deep_view();
    let ghost dv = decls.deep_view();
    assert(start + Seq::<Seq<char>>::empty() =~= start);
    let mut n: usize = 0;
    while n < ids.len()
        invariant
            n <= ids.len(),
            iv == ids.deep_view(),
            dv == decls.deep_view(),
            start == old(errors).deep_view(),
            errors.deep_view() == start + span_checks(iv, dv, n as nat),
        decreases ids.len() - n,
    {
        let id = &ids[n];
        assert(iv[n as int] == id@);
        let ghost before = errors.deep_view();
        let mut found: Vec<String> = Vec::new();
        if blank(id) {
            found.push(
                string_lit(
                    "span id must not be empty. Write span(id = \"checkout\", ...) or specdrs_span!(id = \"checkout\", entry = ...)",
                ),
            );
        }
        let pos = declarations_of(decls, id);
        proof {
            lemma_decls_of(dv, id@, pos@);
        }
        if pos.len() != 1 {
            found.push(span_count_message(id, pos.len()));
        } else {
            match &decls[pos[0]].parent {
                Some(pa) => {
                    match parent_message(id, pa, ids) {
                        Some(m) => found.push(m),
                        None => {},
                    }
                },
                None => {},
            }
        }
        assert(found.deep_view() =~= span_problems(iv, dv, id@));
        let mut j: usize = 0;
        while j < found.len()
            invariant
                j <= found.len(),
                errors.deep_view() == before + found.deep_view().take(j as int),
            decreases found.len() - j,
        {
            let ghost prev = errors.deep_view();
            errors.push(found[j].clone());
            assert(errors.deep_view() =~= prev.push(found.deep_view()[j as int]));
            assert(before + found.deep_view().take(j + 1) =~= prev.push(found.deep_view()[j as int]));
            j = j + 1;
        }
        assert(found.deep_view().take(j as int) =~= found.deep_view());
        assert(errors.deep_view() =~= start + span_checks(iv, dv, (n + 1) as nat));
        n = n + 1;
    }
}

/// Diagnostic for a parent chain that returns to `id`.
pub open spec fn cycle_msg(id: Seq<char>) -> Seq<char> {
    "span parent cycle includes `"@ + id
        + "`. parent must name an ancestor, not a descendant or sibling that points back. Break the cycle by pointing one span at a true parent or dropping the parent field"@
}

/// The parent of span `id`, where the span is declared exactly once.
pub open spec fn parent_of(ids: Seq<Seq<char>>, decls: Seq<DeclV>, id: Seq<char>) -> Option<Seq<char>> {
    if ids.contains(id) && decls_of(decls, id).len() == 1 {
        decls_of(decls, id)[0].parent
    } else {
        None
    }
}

/// Following parents from `cur` after visiting `seen`: the diagnostic for the first
/// span visited twice, if the chain returns to one within `fuel` steps.
pub open spec fn cycle_from(ids: Seq<Seq<char>>, decls: Seq<DeclV>, cur: Seq<char>, seen: Seq<Seq<char>>, fuel: nat) -> Option<Seq<char>>
    decreases fuel,
{
    if seen.contains(cur) {
        Some(cycle_msg(cur))
    } else if fuel == 0 {
        None
    } else {
        match parent_of(ids, decls, cur) {
            Some(p) => cycle_from(ids, decls, p, seen.push(cur), (fuel - 1) as nat),
            None => None,
        }
    }
}

/// The cycle diagnostics found from the first `n` spans. A chain of distinct spans is
/// no longer than the span list, so that many steps always reach an end or a repeat.
pub open spec fn cycle_checks(ids: Seq<Seq<char>>, decls: Seq<DeclV>, n: nat) -> Seq<Seq<char>>
    decreases n,
{
    if n == 0 || n > ids.len() {
        Seq::empty()
    } else {
        let prev = cycle_checks(ids, decls, (n - 1) as nat);
        match cycle_from(ids, decls, ids[n - 1], Seq::empty(), ids.len()) {
            Some(m) => prev.push(m),
            None => prev,
        }
    }
}

fn parent_at(ids: &Vec<String>, decls: &Vec<Declaration>, id: &String) -> (r: Option<String>)
    ensures
        r.deep_view() == parent_of(ids.deep_view(), decls.deep_view(), id@),
{
    if !has_string(ids, id.as_str()) {
        return None;
    }
    let pos = declarations_of(decls, id);
    proof {
        lemma_decls_of(decls.deep_view(), id@, pos@);
    }
    if pos.len() != 1 {
        return None;
    }
    clone_opt_string(&decls[pos[0]].parent)
}

/// Detects cycles in the span parent graph.
pub fn validate_parent_cycles(ids: &Vec<String>, decls: &Vec<Declaration>, errors: &mut Vec<String>)
    ensures
        final(errors).deep_view() == old(errors).deep_view() + cycle_checks(
            ids.deep_view(),
            decls.deep_view(),
            ids@.len() as nat,
        ),
{
    proof {
        reveal_strlit("span parent cycle includes `");
        reveal_strlit(
            "`. parent must name an ancestor, not a descendant or sibling that points back. Break the cycle by pointing one span at a true parent or dropping the parent field",
        );
    }
    let ghost start = errors.deep_view();
    let ghost iv = ids.deep_view();
    let ghost dv = decls.deep_view();
    assert(start + Seq::<Seq<char>>::empty() =~= start);
    let mut n: usize = 0;
    while n < ids.len()
        invariant
            n <= ids.len(),
            iv == ids.deep_view(),
            dv == decls.deep_view(),
            start == old(errors).deep_view(),
            errors.deep_view() == start + cycle_checks(iv, dv, n as nat),
        decreases ids.len() - n,
    {
        let mut seen: Vec<String> = Vec::new();
        let mut cur = ids[n].clone();
        let mut fuel: usize = ids.len();
        let mut found: Option<String> = None;
        let mut done = false;
        assert(seen.deep_view() =~= Seq::<Seq<char>>::empty());
        while !done
            invariant
                iv == ids.deep_view(),
                dv == decls.deep_view(),
                n < iv.len(),
                done || found is None,
                cycle_from(iv, dv, iv[n as int], Seq::empty(), iv.len() as nat) == (if done {
                    found.deep_view()
                } else {
                    cycle_from(iv, dv, cur@, seen.deep_view(), fuel as nat)
                }),
            decreases fuel, (if done {
                0int
            } else {
                1int
            }),
        {
            if has_string(&seen, cur.as_str()) {
                let mut m = string_lit("span parent cycle includes `");
                append(&mut m, cur.as_str());
                append(
                    &mut m,
                    "`. parent must name an ancestor, not a descendant or sibling that points back. Break the cycle by pointing one span at a true parent or dropping the parent field",
                );
                found = Some(m);
                done = true;
            } else if fuel == 0 {
                done = true;
            } else {
                match parent_at(ids, decls, &cur) {
                    Some(p) => {
                        let ghost before = seen.deep_view();
                        seen.push(cur);
                        assert(seen.deep_view() =~= before.push(cur@));
                        cur = p;
                        fuel = fuel - 1;
                    },
                    None => {
                        done = true;
                    },
                }
            }
        }
        let ghost before = errors.deep_view();
        match found {
            Some(m) => {
                errors.push(m);
                assert(errors.deep_view() =~= before.push(m@));
            },
            None => {},
        }
        n = n + 1;
    }
}

/// Diagnostic for a member that joins a container-declared span from outside.
pub open spec fn outside_member_msg(id: Seq<char>, container: Seq<char>, member: Seq<char>) -> Seq<char> {
    "span `"@ + id + "` is declared on the container at "@ + container + ", but `"@ + member
        + "` joins it from outside. A container-declared span only covers items inside that container. For a cross-boundary grouping, declare the span with specdrs_span! and join it from both sides with in_spans, or give this span a parent and join the parent instead"@
}

/// The outside-member diagnostics among the first `n` members: each member other than
/// the entry that the container did not seed.
pub open spec fn outside_members(members: Seq<Seq<char>>, entry: Option<Seq<char>>, seeded_list: Seq<Seq<char>>, id: Seq<char>, container: Seq<char>, n: nat) -> Seq<Seq<char>>
    decreases n,
{
    if n == 0 || n > members.len() {
        Seq::empty()
    } else {
        let prev = outside_members(members, entry, seeded_list, id, container, (n - 1) as nat);
        let member = members[n - 1];
        if entry != Some(member) && !seeded_list.contains(member) {
            prev.push(outside_member_msg(id, container, member))
        } else {
            prev
        }
    }
}

/// The diagnostics of span `id` when a container that seeded members declared it; a
/// container that seeded nothing leaves its span open.
pub open spec fn container_problems(ix: ScanIndexV, decls: Seq<DeclV>, id: Seq<char>) -> Seq<Seq<char>> {
    match seeded(ix, id) {
        Some(list) => if list.len() > 0 {
            let ds = decls_of(decls, id);
            let container = if ds.len() > 0 && ds[0].container is Some {
                ds[0].container->Some_0
            } else {
                "its declaring container"@
            };
            let entry = if ds.len() > 0 {
                Some(ds[0].entry)
            } else {
                None
            };
            let members = members_of(ix, decls, id, ix.items.len() as nat);
            outside_members(members, entry, list, id, container, members.len())
        } else {
            Seq::empty()
        },
        None => Seq::empty(),
    }
}

/// The container diagnostics of the first `n` spans.
pub open spec fn container_checks(ix: ScanIndexV, ids: Seq<Seq<char>>, decls: Seq<DeclV>, n: nat) -> Seq<Seq<char>>
    decreases n,
{
    if n == 0 || n > ids.len() {
        Seq::empty()
    } else {
        container_checks(ix, ids, decls, (n - 1) as nat) + container_problems(ix, decls, ids[n - 1])
    }
}

fn push_all(errors: &mut Vec<String>, found: Vec<String>)
    ensures
        final(errors).deep_view() == old(errors).deep_view() + found.deep_view(),
{
    let ghost before = errors.deep_view();
    let mut j: usize = 0;
    assert(found.deep_view().take(0) =~= Seq::<Seq<char>>::empty());
    assert(before + Seq::<Seq<char>>::empty() =~= before);
    while j < found.len()
        invariant
            j <= found.len(),
            before == old(errors).deep_view(),
            errors.deep_view() == before + found.deep_view().take(j as int),
        decreases found.len() - j,
    {
        let ghost prev = errors.deep_view();
        errors.push(found[j].clone());
        assert(errors.deep_view() =~= prev.push(found.deep_view()[j as int]));
        assert(before + found.deep_view().take(j + 1) =~= prev.push(found.deep_view()[j as int]));
        j = j + 1;
    }
    assert(found.deep_view().take(j as int) =~= found.deep_view());
}

fn container_problems_at(ix: &ScanIndex, decls: &Vec<Declaration>, sets: &Vec<Vec<String>>, id: &String) -> (r: Vec<String>)
    requires
        sets@.len() == ix.items@.len(),
        forall|k: int|
            0 <= k < sets@.len() ==> #[trigger] sets@[k].deep_view() == item_spans(
                ix.deep_view(),
                decls.deep_view(),
                k,
            ),
    ensures
        r.deep_view() == container_problems(ix.deep_view(), decls.deep_view(), id@),
{
    proof {
        reveal_strlit("its declaring container");
        reveal_strlit("span `");
        reveal_strlit("` is declared on the container at ");
        reveal_strlit(", but `");
        reveal_strlit(
            "` joins it from outside. A container-declared span only covers items inside that container. For a cross-boundary grouping, declare the span with specdrs_span! and join it from both sides with in_spans, or give this span a parent and join the parent instead",
        );
    }
    let ghost iv = ix.deep_view();
    let ghost dv = decls.deep_view();
    let mut r: Vec<String> = Vec::new();
    assert(r.deep_view() =~= Seq::<Seq<char>>::empty());
    let k = match key_position(&ix.container_members, id.as_str()) {
        Some(k) => k,
        None => return r,
    };
    let list = &ix.container_members[k].1;
    assert(iv.container_members[k as int].1 == list.deep_view());
    if list.len() == 0 {
        return r;
    }
    let pos = declarations_of(decls, id);
    proof {
        lemma_decls_of(dv, id@, pos@);
    }
    let container = if pos.len() > 0 {
        match &decls[pos[0]].container {
            Some(c) => c.clone(),
            None => string_lit("its declaring container"),
        }
    } else {
        string_lit("its declaring container")
    };
    let entry: Option<&String> = if pos.len() > 0 {
        Some(&decls[pos[0]].entry)
    } else {
        None
    };
    let ghost entry_v: Option<Seq<char>> = match entry {
        Some(e) => Some(e@),
        None => None,
    };
    let members = members_for(ix, decls, sets, id);
    let ghost mv = members.deep_view();
    let mut n: usize = 0;
    while n < members.len()
        invariant
            n <= members.len(),
            mv == members.deep_view(),
            entry_v == (match entry {
                Some(e) => Some(e@),
                None => None::<Seq<char>>,
            }),
            r.deep_view() == outside_members(mv, entry_v, list.deep_view(), id@, container@, n as nat),
        decreases members.len() - n,
    {
        let member = &members[n];
        assert(mv[n as int] == member@);
        let is_entry = match entry {
            Some(e) => crate::text::strings_equal(e, member),
            None => false,
        };
        if !is_entry && !has_string(list, member.as_str()) {
            let mut m = string_lit("span `");
            append(&mut m, id.as_str());
            append(&mut m, "` is declared on the container at ");
            append(&mut m, container.as_str());
            append(&mut m, ", but `");
            append(&mut m, member.as_str());
            append(
                &mut m,
                "` joins it from outside. A container-declared span only covers items inside that container. For a cross-boundary grouping, declare the span with specdrs_span! and join it from both sides with in_spans, or give this span a parent and join the parent instead",
            );
            let ghost before = r.deep_view();
            r.push(m);
            assert(r.deep_view() =~= before.push(m@));
        }
        n = n + 1;
    }
    r
}

/// Rejects members that a container-declared span's container did not contribute.
pub fn validate_container_spans(ix: &ScanIndex, ids: &Vec<String>, decls: &Vec<Declaration>, sets: &Vec<Vec<String>>, errors: &mut Vec<String>)
    requires
        sets@.len() == ix.items@.len(),
        forall|k: int|
            0 <= k < sets@.len() ==> #[trigger] sets@[k].deep_view() == item_spans(
                ix.deep_view(),
                decls.deep_view(),
                k,
            ),
    ensures
        final(errors).deep_view() == old(errors).deep_view() + container_checks(
            ix.deep_view(),
            ids.deep_view(),
            decls.deep_view(),
            ids@.len() as nat,
        ),
{
    let ghost start = errors.deep_view();
    let ghost idv = ids.deep_view();
    assert(start + Seq::<Seq<char>>::empty() =~= start);
    let mut n: usize = 0;
    while n < ids.len()
        invariant
            n <= ids.len(),
            idv == ids.deep_view(),
            start == old(errors).deep_view(),
            sets@.len() == ix.items@.len(),
            forall|k: int|
                0 <= k < sets@.len() ==> #[trigger] sets@[k].deep_view() == item_spans(
                    ix.deep_view(),
                    decls.deep_view(),
                    k,
                ),
            errors.deep_view() == start + container_checks(ix.deep_view(), idv, decls.deep_view(), n as nat),
        decreases ids.len() - n,
    {
        assert(idv[n as int] == ids@[n as int]@);
        let found = container_problems_at(ix, decls, sets, &ids[n]);
        let ghost fv = found.deep_view();
        push_all(errors, found);
        assert(errors.deep_view() =~= start + container_checks(
            ix.deep_view(),
            idv,
            decls.deep_view(),
            (n + 1) as nat,
        ));
        n = n + 1;
    }
}

// ---------------------------------------------------------------------------
// Claims blocks.

/// The claims blocks among the first `n` directives of an annotation.
pub open spec fn directive_blocks(ds: Seq<DirectiveV>, n: nat) -> Seq<ClaimsArgsV>
    decreases n,
{
    if n == 0 || n > ds.len() {
        Seq::empty()
    } else {
        let prev = directive_blocks(ds, (n - 1) as nat);
        match ds[n - 1] {
            DirectiveV::Claims(c) => prev.push(c),
            _ => prev,
        }
    }
}

/// The claims blocks among the first `n` annotations of an item.
pub open spec fn annotation_blocks(anns: Seq<SpecdrsArgsV>, n: nat) -> Seq<ClaimsArgsV>
    decreases n,
{
    if n == 0 || n > anns.len() {
        Seq::empty()
    } else {
        annotation_blocks(anns, (n - 1) as nat) + directive_blocks(
            anns[n - 1].directives,
            anns[n - 1].directives.len(),
        )
    }
}

/// The claims blocks of item `k`.
pub open spec fn item_blocks(ix: ScanIndexV, k: int) -> Seq<ClaimsArgsV> {
    annotation_blocks(ix.items[k].1.annotations, ix.items[k].1.annotations.len())
}

/// Diagnostic for an item with more than one claims block.
pub open spec fn blocks_msg(p: Seq<char>) -> Seq<char> {
    "item:"@ + p
        + " has more than one claims block. Put every claim for this item in a single claims(...) directive. Stacked #[specdrs] attributes may add span(...) and in_spans(...), but only one claims(...) block"@
}

/// The claims-block diagnostics of the first `n` items.
pub open spec fn block_checks(ix: ScanIndexV, n: nat) -> Seq<Seq<char>>
    decreases n,
{
    if n == 0 || n > ix.items.len() {
        Seq::empty()
    } else {
        let prev = block_checks(ix, (n - 1) as nat);
        if item_blocks(ix, n - 1).len() > 1 {
            prev.push(blocks_msg(ix.items[n - 1].0))
        } else {
            prev
        }
    }
}

/// The claims blocks of an item's annotations, in order.
fn blocks_of(anns: &Vec<SpecdrsArgs>) -> (r: Vec<&ClaimsArgs>)
    ensures
        r@.len() == annotation_blocks(anns.deep_view(), anns@.len()).len(),
        forall|j: int|
            0 <= j < r@.len() ==> #[trigger] r@[j].deep_view() == annotation_blocks(
                anns.deep_view(),
                anns@.len(),
            )[j],
{
    let ghost av = anns.deep_view();
    let mut blocks: Vec<&ClaimsArgs> = Vec::new();
    let mut a: usize = 0;
    while a < anns.len()
        invariant
            a <= anns.len(),
            av == anns.deep_view(),
            blocks@.len() == annotation_blocks(av, a as nat).len(),
            forall|j: int|
                0 <= j < blocks@.len() ==> #[trigger] blocks@[j].deep_view() == annotation_blocks(
                    av,
                    a as nat,
                )[j],
        decreases anns.len() - a,
    {
        let ds = &anns[a].directives;
        let ghost dv = ds.deep_view();
        let ghost head = annotation_blocks(av, a as nat);
        let mut k: usize = 0;
        assert(head + directive_blocks(dv, 0) =~= head);
        while k < ds.len()
            invariant
                k <= ds.len(),
                dv == ds.deep_view(),
                head == annotation_blocks(av, a as nat),
                blocks@.len() == (head + directive_blocks(dv, k as nat)).len(),
                forall|j: int|
                    0 <= j < blocks@.len() ==> #[trigger] blocks@[j].deep_view() == (head
                        + directive_blocks(dv, k as nat))[j],
            decreases ds.len() - k,
        {
            match &ds[k] {
                Directive::Claims(c) => {
                    let ghost prev = head + directive_blocks(dv, k as nat);
                    blocks.push(c);
                    assert(head + directive_blocks(dv, (k + 1) as nat) =~= prev.push(c.deep_view()));
                },
                _ => {},
            }
            k = k + 1;
        }
        assert(head + directive_blocks(dv, dv.len()) =~= annotation_blocks(av, (a + 1) as nat));
        a = a + 1;
    }
    blocks
}

/// Reports every item that holds more than one claims block.
pub fn validate_claim_blocks(ix: &ScanIndex, errors: &mut Vec<String>)
    ensures
        final(errors).deep_view() == old(errors).deep_view() + block_checks(
            ix.deep_view(),
            ix.items@.len() as nat,
        ),
{
    proof {
        reveal_strlit("item:");
        reveal_strlit(
            " has more than one claims block. Put every claim for this item in a single claims(...) directive. Stacked #[specdrs] attributes may add span(...) and in_spans(...), but only one claims(...) block",
        );
    }
    let ghost iv = ix.deep_view();
    let ghost start = errors.deep_view();
    assert(start + Seq::<Seq<char>>::empty() =~= start);
    let mut n: usize = 0;
    while n < ix.items.len()
        invariant
            n <= ix.items.len(),
            iv == ix.deep_view(),
            start == old(errors).deep_view(),
            errors.deep_view() == start + block_checks(iv, n as nat),
        decreases ix.items.len() - n,
    {
        let item = &ix.items[n];
        assert(iv.items[n as int].1 == item.1.deep_view());
        assert(iv.items[n as int].0 == item.0@);
        let blocks = blocks_of(&item.1.annotations);
        if blocks.len() > 1 {
            let mut m = string_lit("item:");
            append(&mut m, item.0.as_str());
            append(
                &mut m,
                " has more than one claims block. Put every claim for this item in a single claims(...) directive. Stacked #[specdrs] attributes may add span(...) and in_spans(...), but only one claims(...) block",
            );
            let ghost before = errors.deep_view();
            errors.push(m);
            assert(errors.deep_view() =~= before.push(m@));
        }
        n = n + 1;
    }
}

// ---------------------------------------------------------------------------
// Evidence.

/// The def paths a normalized binder may name: those its alternate owner stands for,
/// and the binder itself where it is a def path, ascending without repeats.
pub open spec fn binder_candidates(ix: ScanIndexV, binder: Seq<char>) -> Seq<Seq<char>> {
    let base = match alias_list(ix, binder) {
        Some(l) => l,
        None => Seq::empty(),
    };
    if has_item(ix, binder) {
        set_insert(base, binder)
    } else {
        base
    }
}

/// The shape of the item with def path `p`.
pub open spec fn item_shape(ix: ScanIndexV, p: Seq<char>) -> Option<ItemShape> {
    match find_key(ix.items, p, 0) {
        Some(k) => Some(ix.items[k].1.shape),
        None => None,
    }
}

/// Diagnostic for a binder that names several items.
pub open spec fn ambiguous_binder_msg(scope: Seq<char>, claim_id: Seq<char>, binder: Seq<char>, cands: Seq<Seq<char>>) -> Seq<char> {
    scope + " claim `"@ + claim_id + "` evidence binder `"@ + binder + "` is ambiguous; candidates: "@
        + join(cands, ", "@) + ". Point the binder at one fully qualified item"@
}

/// One evidence link resolved against the index: a binder that names one item is
/// replaced by its def path and is linked when the item's shape can satisfy the
/// evidence kind; a binder that names nothing is unavailable; a binder that names
/// several items is unavailable and raises a diagnostic.
pub open spec fn resolved_evidence(ix: ScanIndexV, scope: Seq<char>, claim_id: Seq<char>, m: Seq<Seq<char>>, raw: EvidenceArgsV) -> (EvidenceV, Option<Seq<char>>) {
    let binder = normalized_binder(raw.binder, m, ix.crate_name);
    let c = binder_candidates(ix, binder);
    if c.len() == 0 {
        (EvidenceV { kind: raw.kind, binder, result: EvidenceResult::Unavailable }, None)
    } else if c.len() == 1 {
        let result = match item_shape(ix, c[0]) {
            Some(sh) => if shape_supports(sh, raw.kind) {
                EvidenceResult::Linked
            } else {
                EvidenceResult::Unavailable
            },
            None => EvidenceResult::Unavailable,
        };
        (EvidenceV { kind: raw.kind, binder: c[0], result }, None)
    } else {
        (
            EvidenceV { kind: raw.kind, binder, result: EvidenceResult::Unavailable },
            Some(ambiguous_binder_msg(scope, claim_id, binder, c)),
        )
    }
}

/// The first `n` evidence links of a claim resolved, with their diagnostics.
pub open spec fn evidence_fold(ix: ScanIndexV, scope: Seq<char>, claim_id: Seq<char>, m: Seq<Seq<char>>, evs: Seq<EvidenceArgsV>, n: nat) -> (Seq<EvidenceV>, Seq<Seq<char>>)
    decreases n,
{
    if n == 0 || n > evs.len() {
        (Seq::empty(), Seq::empty())
    } else {
        let prev = evidence_fold(ix, scope, claim_id, m, evs, (n - 1) as nat);
        let step = resolved_evidence(ix, scope, claim_id, m, evs[n - 1]);
        (
            prev.0.push(step.0),
            match step.1 {
                Some(x) => prev.1.push(x),
                None => prev.1,
            },
        )
    }
}

/// Resolves one evidence link of claim `claim_id` of the owner `scope`, written in the
/// module `m`, to a canonical artifact and status, with the diagnostic it raises.
pub fn resolve_evidence(ix: &ScanIndex, scope: &String, claim_id: &String, m: &Vec<String>, raw: &EvidenceArgs) -> (r: (Evidence, Option<String>))
    requires
        index_wf(ix.deep_view()),
    ensures
        (r.0.deep_view(), r.1.deep_view()) == resolved_evidence(
            ix.deep_view(),
            scope@,
            claim_id@,
            m.deep_view(),
            raw.deep_view(),
        ),
{
    proof {
        reveal_strlit(" claim `");
        reveal_strlit("` evidence binder `");
        reveal_strlit("` is ambiguous; candidates: ");
        reveal_strlit(", ");
        reveal_strlit(". Point the binder at one fully qualified item");
    }
    let ghost iv = ix.deep_view();
    let binder = normalize_binder(raw.binder.as_str(), m, ix.crate_name.as_str());
    let mut cands: Vec<String> = match key_position(&ix.aliases, binder.as_str()) {
        Some(k) => {
            assert(iv.aliases[k as int].1 == ix.aliases@[k as int].1.deep_view());
            clone_strings(&ix.aliases[k].1)
        },
        None => Vec::new(),
    };
    assert(cands.deep_view() =~= match alias_list(iv, binder@) {
        Some(l) => l,
        None => Seq::<Seq<char>>::empty(),
    });
    if key_position(&ix.items, binder.as_str()).is_some() {
        insert_string(&mut cands, &binder);
    }
    assert(cands.deep_view() == binder_candidates(iv, binder@));
    if cands.len() == 0 {
        (Evidence { kind: raw.kind, binder, result: EvidenceResult::Unavailable }, None)
    } else if cands.len() == 1 {
        let result = match key_position(&ix.items, cands[0].as_str()) {
            Some(k) => {
                assert(iv.items[k as int].1.shape == ix.items@[k as int].1.shape);
                if ix.items[k].1.shape.supports(raw.kind) {
                    EvidenceResult::Linked
                } else {
                    EvidenceResult::Unavailable
                }
            },
            None => EvidenceResult::Unavailable,
        };
        (Evidence { kind: raw.kind, binder: cands[0].clone(), result }, None)
    } else {
        let mut msg = scope.clone();
        append(&mut msg, " claim `");
        append(&mut msg, claim_id.as_str());
        append(&mut msg, "` evidence binder `");
        append(&mut msg, binder.as_str());
        append(&mut msg, "` is ambiguous; candidates: ");
        let listed = join_strings(&cands, ", ");
        append(&mut msg, listed.as_str());
        append(&mut msg, ". Point the binder at one fully qualified item");
        (Evidence { kind: raw.kind, binder, result: EvidenceResult::Unavailable }, Some(msg))
    }
}

// ---------------------------------------------------------------------------
// Axes.

/// The axes of an owner while its claims are read, with the claim identifiers seen so
/// far and the diagnostics raised.
pub struct AxesV {
    pub axes: Seq<AxisEntryV>,
    pub ids: Seq<Seq<char>>,
    pub errors: Seq<Seq<char>>,
}

/// Every axis unspecified, nothing seen, nothing raised.
pub open spec fn initial_axes() -> AxesV {
    AxesV { axes: Seq::new(12, |i: int| unspecified_entry()), ids: Seq::empty(), errors: Seq::empty() }
}

/// Diagnostic for an axis marked not applicable without a reason.
pub open spec fn na_reason_msg(scope: Seq<char>, axis: Axis) -> Seq<char> {
    scope + " marks "@ + axis_name(axis) + " not applicable without a reason. Write NotApplicable("@
        + axis_name(axis) + " = \"why this axis does not apply\")"@
}

/// Diagnostic for an axis marked not applicable twice.
pub open spec fn na_twice_msg(scope: Seq<char>, axis: Axis) -> Seq<char> {
    scope + " marks "@ + axis_name(axis) + " not applicable more than once. Keep a single NotApplicable("@
        + axis_name(axis) + " = \"reason\") entry"@
}

/// Diagnostic for a blank claim identifier.
pub open spec fn empty_claim_id_msg(scope: Seq<char>) -> Seq<char> {
    scope + " has an empty claim id. Write \"A proposition.\" as alias"@
}

/// Diagnostic for a claim with blank text.
pub open spec fn empty_text_msg(scope: Seq<char>, id: Seq<char>) -> Seq<char> {
    scope + " claim `"@ + id + "` has empty text. Write a falsifiable sentence before `as "@ + id + "`"@
}

/// Diagnostic for a claim identifier used twice by one owner.
pub open spec fn duplicate_claim_msg(scope: Seq<char>, id: Seq<char>) -> Seq<char> {
    scope + " has duplicate claim id `"@ + id + "`. Give each claim its own alias inside this owner"@
}

/// Diagnostic for a claim on an axis marked not applicable.
pub open spec fn na_conflict_msg(scope: Seq<char>, axis: Axis) -> Seq<char> {
    scope + " has a "@ + axis_name(axis)
        + " claim but marks that axis not applicable. Either keep the claim and drop NotApplicable("@
        + axis_name(axis) + "), or keep NotApplicable and move the claim off that axis"@
}

/// One not-applicable declaration applied.
pub open spec fn na_step(scope: Seq<char>, st: AxesV, na: NotApplicableArgsV) -> AxesV {
    let i = axis_index(na.axis) as int;
    if is_blank(na.reason) {
        AxesV { errors: st.errors.push(na_reason_msg(scope, na.axis)), ..st }
    } else if st.axes[i].status != AxisStatus::Unspecified {
        AxesV { errors: st.errors.push(na_twice_msg(scope, na.axis)), ..st }
    } else {
        AxesV {
            axes: st.axes.update(
                i,
                AxisEntryV {
                    status: AxisStatus::NotApplicable,
                    reason: Some(na.reason),
                    claims: st.axes[i].claims,
                },
            ),
            ..st
        }
    }
}

/// The first `n` not-applicable declarations applied.
pub open spec fn na_fold(scope: Seq<char>, st: AxesV, nas: Seq<NotApplicableArgsV>, n: nat) -> AxesV
    decreases n,
{
    if n == 0 || n > nas.len() {
        st
    } else {
        na_step(scope, na_fold(scope, st, nas, (n - 1) as nat), nas[n - 1])
    }
}

/// One claim applied: a claim with a blank identifier or text, or an identifier seen
/// before, raises a diagnostic; otherwise its identifier is recorded, and the claim
/// joins its axis unless the axis is marked not applicable.
pub open spec fn claim_step(ix: ScanIndexV, scope: Seq<char>, m: Seq<Seq<char>>, st: AxesV, c: ClaimArgsV) -> AxesV {
    if is_blank(c.id) {
        AxesV { errors: st.errors.push(empty_claim_id_msg(scope)), ..st }
    } else if is_blank(c.text) {
        AxesV { errors: st.errors.push(empty_text_msg(scope, c.id)), ..st }
    } else if st.ids.contains(c.id) {
        AxesV { errors: st.errors.push(duplicate_claim_msg(scope, c.id)), ..st }
    } else {
        let i = axis_index(c.axis) as int;
        let ids = st.ids.push(c.id);
        if st.axes[i].status == AxisStatus::NotApplicable {
            AxesV { axes: st.axes, ids, errors: st.errors.push(na_conflict_msg(scope, c.axis)) }
        } else {
            let ev = evidence_fold(ix, scope, c.id, m, c.evidence, c.evidence.len());
            AxesV {
                axes: st.axes.update(
                    i,
                    AxisEntryV {
                        status: AxisStatus::Specified,
                        reason: st.axes[i].reason,
                        claims: st.axes[i].claims.push(
                            ClaimV { id: c.id, kind: c.kind, text: c.text, evidence: ev.0 },
                        ),
                    },
                ),
                ids,
                errors: st.errors + ev.1,
            }
        }
    }
}

/// The first `n` claims applied.
pub open spec fn claim_fold(ix: ScanIndexV, scope: Seq<char>, m: Seq<Seq<char>>, st: AxesV, cs: Seq<ClaimArgsV>, n: nat) -> AxesV
    decreases n,
{
    if n == 0 || n > cs.len() {
        st
    } else {
        claim_step(ix, scope, m, claim_fold(ix, scope, m, st, cs, (n - 1) as nat), cs[n - 1])
    }
}

/// The complete axis map of an owner named `scope` whose claims block, if any, was
/// written in the module `m`: not-applicable declarations first, then claims.
pub open spec fn built_axes(ix: ScanIndexV, scope: Seq<char>, block: Option<ClaimsArgsV>, m: Seq<Seq<char>>) -> AxesV {
    match block {
        Some(c) => {
            let s1 = na_fold(scope, initial_axes(), c.not_applicable, c.not_applicable.len());
            claim_fold(ix, scope, m, s1, c.claims, c.claims.len())
        },
        None => initial_axes(),
    }
}

fn scoped(scope: &String, middle: &str, name: &String, tail: &str) -> (r: String)
    ensures
        r@ == scope@ + middle@ + name@ + tail@,
{
    let mut m = scope.clone();
    append(&mut m, middle);
    append(&mut m, name.as_str());
    append(&mut m, tail);
    m
}

fn apply_not_applicable(scope: &String, nas: &Vec<NotApplicableArgs>, axes: &mut Vec<AxisEntry>, errors: &mut Vec<String>)
    requires
        old(axes)@.len() == 12,
    ensures
        final(axes)@.len() == 12,
        ({
            let st = na_fold(
                scope@,
                AxesV { axes: old(axes).deep_view(), ids: Seq::empty(), errors: old(errors).deep_view() },
                nas.deep_view(),
                nas@.len(),
            );
            final(axes).deep_view() == st.axes && final(errors).deep_view() == st.errors && st.ids
                == Seq::<Seq<char>>::empty()
        }),
{
    proof {
        reveal_strlit(" marks ");
        reveal_strlit(" not applicable without a reason. Write NotApplicable(");
        reveal_strlit(" = \"why this axis does not apply\")");
        reveal_strlit(" not applicable more than once. Keep a single NotApplicable(");
        reveal_strlit(" = \"reason\") entry");
    }
    let ghost st0 = AxesV { axes: axes.deep_view(), ids: Seq::empty(), errors: errors.deep_view() };
    let ghost nv = nas.deep_view();
    let mut n: usize = 0;
    while n < nas.len()
        invariant
            n <= nas.len(),
            nv == nas.deep_view(),
            axes@.len() == 12,
            st0 == (AxesV { axes: old(axes).deep_view(), ids: Seq::empty(), errors: old(errors).deep_view() }),
            ({
                let st = na_fold(scope@, st0, nv, n as nat);
                axes.deep_view() == st.axes && errors.deep_view() == st.errors && st.ids == Seq::<Seq<char>>::empty()
            }),
        decreases nas.len() - n,
    {
        let na = &nas[n];
        assert(nv[n as int] == na.deep_view());
        let i = na.axis.index();
        let name = na.axis.name();
        if blank(&na.reason) {
            let mut m = scoped(scope, " marks ", &name, " not applicable without a reason. Write NotApplicable(");
            append(&mut m, name.as_str());
            append(&mut m, " = \"why this axis does not apply\")");
            let ghost before = errors.deep_view();
            errors.push(m);
            assert(errors.deep_view() =~= before.push(m@));
        } else if axes[i].status != AxisStatus::Unspecified {
            let mut m = scoped(scope, " marks ", &name, " not applicable more than once. Keep a single NotApplicable(");
            append(&mut m, name.as_str());
            append(&mut m, " = \"reason\") entry");
            let ghost before = errors.deep_view();
            errors.push(m);
            assert(errors.deep_view() =~= before.push(m@));
        } else {
            let entry = AxisEntry {
                status: AxisStatus::NotApplicable,
                reason: Some(na.reason.clone()),
                claims: clone_claims(&axes[i].claims),
            };
            let ghost before = axes.deep_view();
            axes.set(i, entry);
            assert(axes.deep_view() =~= before.update(i as int, entry.deep_view()));
        }
        n = n + 1;
    }
}

fn resolve_links(ix: &ScanIndex, scope: &String, claim_id: &String, m: &Vec<String>, evs: &Vec<EvidenceArgs>, errors: &mut Vec<String>) -> (r: Vec<Evidence>)
    requires
        index_wf(ix.deep_view()),
    ensures
        ({
            let f = evidence_fold(ix.deep_view(), scope@, claim_id@, m.deep_view(), evs.deep_view(), evs@.len());
            r.deep_view() == f.0 && final(errors).deep_view() == old(errors).deep_view() + f.1
        }),
{
    let ghost ev = evs.deep_view();
    let ghost start = errors.deep_view();
    let mut out: Vec<Evidence> = Vec::new();
    assert(out.deep_view() =~= Seq::<EvidenceV>::empty());
    assert(start + Seq::<Seq<char>>::empty() =~= start);
    let mut n: usize = 0;
    while n < evs.len()
        invariant
            n <= evs.len(),
            ev == evs.deep_view(),
            index_wf(ix.deep_view()),
            start == old(errors).deep_view(),
            ({
                let f = evidence_fold(ix.deep_view(), scope@, claim_id@, m.deep_view(), ev, n as nat);
                out.deep_view() == f.0 && errors.deep_view() == start + f.1
            }),
        decreases evs.len() - n,
    {
        assert(ev[n as int] == evs@[n as int].deep_view());
        let (e, problem) = resolve_evidence(ix, scope, claim_id, m, &evs[n]);
        let ghost before = out.deep_view();
        out.push(e);
        assert(out.deep_view() =~= before.push(e.deep_view()));
        match problem {
            Some(p) => {
                let ghost eb = errors.deep_view();
                errors.push(p);
                assert(errors.deep_view() =~= eb.push(p@));
            },
            None => {},
        }
        n = n + 1;
    }
    out
}

fn apply_claims(ix: &ScanIndex, scope: &String, m: &Vec<String>, cs: &Vec<ClaimArgs>, axes: &mut Vec<AxisEntry>, ids: &mut Vec<String>, errors: &mut Vec<String>)
    requires
        index_wf(ix.deep_view()),
        old(axes)@.len() == 12,
    ensures
        final(axes)@.len() == 12,
        ({
            let st = claim_fold(
                ix.deep_view(),
                scope@,
                m.deep_view(),
                AxesV { axes: old(axes).deep_view(), ids: old(ids).deep_view(), errors: old(errors).deep_view() },
                cs.deep_view(),
                cs@.len(),
            );
            final(axes).deep_view() == st.axes && final(ids).deep_view() == st.ids && final(errors).deep_view()
                == st.errors
        }),
{
    proof {
        reveal_strlit(" has an empty claim id. Write \"A proposition.\" as alias");
        reveal_strlit(" claim `");
        reveal_strlit("` has empty text. Write a falsifiable sentence before `as ");
        reveal_strlit("`");
        reveal_strlit(" has duplicate claim id `");
        reveal_strlit("`. Give each claim its own alias inside this owner");
        reveal_strlit(" has a ");
        reveal_strlit(" claim but marks that axis not applicable. Either keep the claim and drop NotApplicable(");
        reveal_strlit("), or keep NotApplicable and move the claim off that axis");
    }
    let ghost st0 = AxesV { axes: axes.deep_view(), ids: ids.deep_view(), errors: errors.deep_view() };
    let ghost cv = cs.deep_view();
    let ghost iv = ix.deep_view();
    let mut n: usize = 0;
    while n < cs.len()
        invariant
            n <= cs.len(),
            cv == cs.deep_view(),
            iv == ix.deep_view(),
            index_wf(iv),
            axes@.len() == 12,
            st0 == (AxesV { axes: old(axes).deep_view(), ids: old(ids).deep_view(), errors: old(errors).deep_view() }),
            ({
                let st = claim_fold(iv, scope@, m.deep_view(), st0, cv, n as nat);
                axes.deep_view() == st.axes && ids.deep_view() == st.ids && errors.deep_view() == st.errors
            }),
        decreases cs.len() - n,
    {
        let c = &cs[n];
        assert(cv[n as int] == c.deep_view());
        if blank(&c.id) {
            let mut msg = scope.clone();
            append(&mut msg, " has an empty claim id. Write \"A proposition.\" as alias");
            let ghost before = errors.deep_view();
            errors.push(msg);
            assert(errors.deep_view() =~= before.push(msg@));
        } else if blank(&c.text) {
            let mut msg = scoped(scope, " claim `", &c.id, "` has empty text. Write a falsifiable sentence before `as ");
            append(&mut msg, c.id.as_str());
            append(&mut msg, "`");
            let ghost before = errors.deep_view();
            errors.push(msg);
            assert(errors.deep_view() =~= before.push(msg@));
        } else if has_string(ids, c.id.as_str()) {
            let msg = scoped(scope, " has duplicate claim id `", &c.id, "`. Give each claim its own alias inside this owner");
            let ghost before = errors.deep_view();
            errors.push(msg);
            assert(errors.deep_view() =~= before.push(msg@));
        } else {
            let ghost ib = ids.deep_view();
            ids.push(c.id.clone());
            assert(ids.deep_view() =~= ib.push(c.id@));
            let i = c.axis.index();
            if axes[i].status == AxisStatus::NotApplicable {
                let name = c.axis.name();
                let mut msg = scoped(scope, " has a ", &name, " claim but marks that axis not applicable. Either keep the claim and drop NotApplicable(");
                append(&mut msg, name.as_str());
                append(&mut msg, "), or keep NotApplicable and move the claim off that axis");
                let ghost before = errors.deep_view();
                errors.push(msg);
                assert(errors.deep_view() =~= before.push(msg@));
            } else {
                let evidence = resolve_links(ix, scope, &c.id, m, &c.evidence, errors);
                let mut claims = clone_claims(&axes[i].claims);
                let ghost cb = claims.deep_view();
                let claim = Claim { id: c.id.clone(), kind: c.kind, text: c.text.clone(), evidence };
                let ghost claim_v = claim.deep_view();
                claims.push(claim);
                assert(claims.deep_view() =~= cb.push(claim_v));
                let entry = AxisEntry {
                    status: AxisStatus::Specified,
                    reason: clone_opt_string(&axes[i].reason),
                    claims,
                };
                let ghost before = axes.deep_view();
                axes.set(i, entry);
                assert(axes.deep_view() =~= before.update(i as int, entry.deep_view()));
            }
        }
        n = n + 1;
    }
}

/// Builds an owner's complete axis map from its claims block, appending the
/// diagnostics it raises.
pub fn build_axes(ix: &ScanIndex, scope: &String, block: Option<&ClaimsArgs>, m: &Vec<String>, errors: &mut Vec<String>) -> (r: Vec<AxisEntry>)
    requires
        index_wf(ix.deep_view()),
    ensures
        ({
            let st = built_axes(
                ix.deep_view(),
                scope@,
                match block {
                    Some(c) => Some(c.deep_view()),
                    None => None,
                },
                m.deep_view(),
            );
            r.deep_view() == st.axes && final(errors).deep_view() == old(errors).deep_view() + st.errors
        }),
{
    let mut axes = Axis::empty_map();
    assert(axes.deep_view() =~= initial_axes().axes);
    let ghost start = errors.deep_view();
    match block {
        None => {
            assert(start + Seq::<Seq<char>>::empty() =~= start);
            axes
        },
        Some(c) => {
            let ghost cv = c.deep_view();
            let mut local: Vec<String> = Vec::new();
            assert(local.deep_view() =~= Seq::<Seq<char>>::empty());
            proof {
                assert(initial_axes() == (AxesV {
                    axes: axes.deep_view(),
                    ids: Seq::<Seq<char>>::empty(),
                    errors: local.deep_view(),
                }));
            }
            apply_not_applicable(scope, &c.not_applicable, &mut axes, &mut local);
            let ghost s1 = na_fold(scope@, initial_axes(), cv.not_applicable, cv.not_applicable.len());
            let mut ids: Vec<String> = Vec::new();
            assert(ids.deep_view() =~= Seq::<Seq<char>>::empty());
            assert(s1 == (AxesV { axes: axes.deep_view(), ids: ids.deep_view(), errors: local.deep_view() }));
            apply_claims(ix, scope, m, &c.claims, &mut axes, &mut ids, &mut local);
            let ghost s2 = claim_fold(ix.deep_view(), scope@, m.deep_view(), s1, cv.claims, cv.claims.len());
            assert(local.deep_view() == s2.errors);
            assert(axes.deep_view() == s2.axes);
            push_all(errors, local);
            axes
        },
    }
}

// ---------------------------------------------------------------------------
// The map.

/// The entry-resolution diagnostics of the first `n` declarations.
pub open spec fn decl_problems(decls: Seq<DeclV>, n: nat) -> Seq<Seq<char>>
    decreases n,
{
    if n == 0 || n > decls.len() {
        Seq::empty()
    } else {
        let prev = decl_problems(decls, (n - 1) as nat);
        match decls[n - 1].problem {
            Some(p) => prev.push(p),
            None => prev,
        }
    }
}

/// The model of span `id`, declared exactly once, with the diagnostics its claims raise.
pub open spec fn span_model(ix: ScanIndexV, decls: Seq<DeclV>, id: Seq<char>) -> (SpanV, Seq<Seq<char>>) {
    let d = decls_of(decls, id)[0];
    let st = built_axes(ix, "span:"@ + id, d.claims, d.modules);
    (
        SpanV {
            id,
            parent: d.parent,
            entry: d.entry,
            members: members_of(ix, decls, id, ix.items.len() as nat),
            axes: st.axes,
        },
        st.errors,
    )
}

/// The models of the first `n` spans that are declared exactly once, with the
/// diagnostics their claims raise.
pub open spec fn span_pass(ix: ScanIndexV, ids: Seq<Seq<char>>, decls: Seq<DeclV>, n: nat) -> (Seq<SpanV>, Seq<Seq<char>>)
    decreases n,
{
    if n == 0 || n > ids.len() {
        (Seq::empty(), Seq::empty())
    } else {
        let prev = span_pass(ix, ids, decls, (n - 1) as nat);
        if decls_of(decls, ids[n - 1]).len() == 1 {
            let m = span_model(ix, decls, ids[n - 1]);
            (prev.0.push(m.0), prev.1 + m.1)
        } else {
            prev
        }
    }
}

/// The model of item `k`, with the diagnostics its claims raise: its last claims block
/// gives its axes.
#[verifier::opaque]
pub open spec fn item_model(ix: ScanIndexV, decls: Seq<DeclV>, k: int) -> ((Seq<char>, ItemV), Seq<Seq<char>>) {
    let it = ix.items[k];
    let blocks = item_blocks(ix, k);
    let block = if blocks.len() > 0 {
        Some(blocks.last())
    } else {
        None
    };
    let st = built_axes(ix, "item:"@ + it.0, block, it.1.source.modules);
    (
        (
            it.0,
            ItemV {
                source: SourceRangeV {
                    file: it.1.source.file,
                    start: it.1.source.start,
                    end: it.1.source.end,
                },
                signature: it.1.source.signature,
                spans: item_spans(ix, decls, k),
                axes: st.axes,
            },
        ),
        st.errors,
    )
}

/// The models of the first `n` items, with the diagnostics their claims raise.
pub open spec fn item_pass(ix: ScanIndexV, decls: Seq<DeclV>, n: nat) -> (Seq<(Seq<char>, ItemV)>, Seq<Seq<char>>)
    decreases n,
{
    if n == 0 || n > ix.items.len() {
        (Seq::empty(), Seq::empty())
    } else {
        let prev = item_pass(ix, decls, (n - 1) as nat);
        let m = item_model(ix, decls, n - 1);
        (prev.0.push(m.0), prev.1 + m.1)
    }
}

/// Every diagnostic of an assembly: entry resolution, the span graph, container
/// closure, claims blocks, then the claims of spans and of items.
pub open spec fn assembly_errors(ix: ScanIndexV) -> Seq<Seq<char>> {
    let decls = all_decls(ix);
    let ids = span_ids(ix, decls);
    decl_problems(decls, decls.len()) + span_checks(ids, decls, ids.len()) + cycle_checks(
        ids,
        decls,
        ids.len(),
    ) + container_checks(ix, ids, decls, ids.len()) + block_checks(ix, ix.items.len())
        + span_pass(ix, ids, decls, ids.len()).1 + item_pass(ix, decls, ix.items.len()).1
}

/// The knowledge map a scan assembles into: every span declared exactly once, in
/// ascending identifier order, and every scanned item, in ascending path order.
pub open spec fn assembled_map(ix: ScanIndexV) -> KnowledgeMapV {
    let decls = all_decls(ix);
    let ids = span_ids(ix, decls);
    KnowledgeMapV {
        schema: 2,
        crate_name: ix.crate_name,
        spans: span_pass(ix, ids, decls, ids.len()).0,
        items: item_pass(ix, decls, ix.items.len()).0,
    }
}

fn push_problems(decls: &Vec<Declaration>, errors: &mut Vec<String>)
    ensures
        final(errors).deep_view() == old(errors).deep_view() + decl_problems(decls.deep_view(), decls@.len()),
{
    let ghost dv = decls.deep_view();
    let ghost start = errors.deep_view();
    assert(start + Seq::<Seq<char>>::empty() =~= start);
    let mut n: usize = 0;
    while n < decls.len()
        invariant
            n <= decls.len(),
            dv == decls.deep_view(),
            start == old(errors).deep_view(),
            errors.deep_view() == start + decl_problems(dv, n as nat),
        decreases decls.len() - n,
    {
        match &decls[n].problem {
            Some(p) => {
                let ghost before = errors.deep_view();
                errors.push(p.clone());
                assert(errors.deep_view() =~= before.push(p@));
            },
            None => {},
        }
        n = n + 1;
    }
}

#[verifier::rlimit(40)]
fn span_models(ix: &ScanIndex, ids: &Vec<String>, decls: &Vec<Declaration>, sets: &Vec<Vec<String>>, errors: &mut Vec<String>) -> (r: Vec<Span>)
    requires
        index_wf(ix.deep_view()),
        sets@.len() == ix.items@.len(),
        forall|k: int|
            0 <= k < sets@.len() ==> #[trigger] sets@[k].deep_view() == item_spans(
                ix.deep_view(),
                decls.deep_view(),
                k,
            ),
    ensures
        ({
            let p = span_pass(ix.deep_view(), ids.deep_view(), decls.deep_view(), ids@.len() as nat);
            r.deep_view() == p.0 && final(errors).deep_view() == old(errors).deep_view() + p.1
        }),
{
    proof {
        reveal_strlit("span:");
    }
    let ghost iv = ix.deep_view();
    let ghost idv = ids.deep_view();
    let ghost dv = decls.deep_view();
    let ghost start = errors.deep_view();
    let mut out: Vec<Span> = Vec::new();
    assert(out.deep_view() =~= Seq::<SpanV>::empty());
    assert(start + Seq::<Seq<char>>::empty() =~= start);
    let mut n: usize = 0;
    while n < ids.len()
        invariant
            n <= ids.len(),
            iv == ix.deep_view(),
            idv == ids.deep_view(),
            dv == decls.deep_view(),
            index_wf(iv),
            start == old(errors).deep_view(),
            sets@.len() == ix.items@.len(),
            forall|k: int| 0 <= k < sets@.len() ==> #[trigger] sets@[k].deep_view() == item_spans(iv, dv, k),
            ({
                let p = span_pass(iv, idv, dv, n as nat);
                out.deep_view() == p.0 && errors.deep_view() == start + p.1
            }),
        decreases ids.len() - n,
    {
        let id = &ids[n];
        assert(idv[n as int] == id@);
        let pos = declarations_of(decls, id);
        proof {
            lemma_decls_of(dv, id@, pos@);
        }
        if pos.len() == 1 {
            let d = &decls[pos[0]];
            let scope = crate::text::concat("span:", id.as_str());
            let block: Option<&ClaimsArgs> = match &d.claims {
                Some(c) => Some(c),
                None => None,
            };
            let ghost eb = errors.deep_view();
            let axes = build_axes(ix, &scope, block, &d.modules, errors);
            let members = members_for(ix, decls, sets, id);
            let span = Span {
                id: id.clone(),
                parent: clone_opt_string(&d.parent),
                entry: d.entry.clone(),
                members,
                axes,
            };
            let ghost before = out.deep_view();
            out.push(span);
            proof {
                assert(out.deep_view() =~= before.push(span.deep_view()));
                let m = span_model(iv, dv, id@);
                assert(span.deep_view() == m.0);
                assert(errors.deep_view() =~= start + (span_pass(iv, idv, dv, n as nat).1 + m.1));
            }
        }
        n = n + 1;
    }
    out
}

fn item_entry(ix: &ScanIndex, decls: &Vec<Declaration>, sets: &Vec<Vec<String>>, n: usize, errors: &mut Vec<String>) -> (r: (String, Item))
    requires
        index_wf(ix.deep_view()),
        n < ix.items@.len(),
        sets@.len() == ix.items@.len(),
        sets@[n as int].deep_view() == item_spans(ix.deep_view(), decls.deep_view(), n as int),
    ensures
        ({
            let m = item_model(ix.deep_view(), decls.deep_view(), n as int);
            r.deep_view() == m.0 && final(errors).deep_view() == old(errors).deep_view() + m.1
        }),
{
    proof {
        reveal_strlit("item:");
        reveal(item_model);
    }
    let ghost iv = ix.deep_view();
    let path = &ix.items[n].0;
    let item = &ix.items[n].1;
    assert(iv.items[n as int].0 == path@);
    assert(iv.items[n as int].1 == item.deep_view());
    let blocks = blocks_of(&item.annotations);
    let block: Option<&ClaimsArgs> = if blocks.len() > 0 {
        Some(blocks[blocks.len() - 1])
    } else {
        None
    };
    let scope = crate::text::concat("item:", path.as_str());
    let axes = build_axes(ix, &scope, block, &item.source.modules, errors);
    let spans = clone_strings(&sets[n]);
    let model = Item {
        source: SourceRange { file: item.source.file.clone(), start: item.source.start, end: item.source.end },
        signature: item.source.signature.clone(),
        spans,
        axes,
    };
    (path.clone(), model)
}

#[verifier::rlimit(40)]
fn item_models(ix: &ScanIndex, decls: &Vec<Declaration>, sets: &Vec<Vec<String>>, errors: &mut Vec<String>) -> (r: Vec<(String, Item)>)
    requires
        index_wf(ix.deep_view()),
        sets@.len() == ix.items@.len(),
        forall|k: int|
            0 <= k < sets@.len() ==> #[trigger] sets@[k].deep_view() == item_spans(
                ix.deep_view(),
                decls.deep_view(),
                k,
            ),
    ensures
        ({
            let p = item_pass(ix.deep_view(), decls.deep_view(), ix.items@.len() as nat);
            r.deep_view() == p.0 && final(errors).deep_view() == old(errors).deep_view() + p.1
        }),
{
    let ghost iv = ix.deep_view();
    let ghost dv = decls.deep_view();
    let ghost start = errors.deep_view();
    let mut out: Vec<(String, Item)> = Vec::new();
    assert(out.deep_view() =~= Seq::<(Seq<char>, ItemV)>::empty());
    assert(start + Seq::<Seq<char>>::empty() =~= start);
    let mut n: usize = 0;
    while n < ix.items.len()
        invariant
            n <= ix.items.len(),
            iv == ix.deep_view(),
            dv == decls.deep_view(),
            index_wf(iv),
            start == old(errors).deep_view(),
            sets@.len() == ix.items@.len(),
            forall|k: int| 0 <= k < sets@.len() ==> #[trigger] sets@[k].deep_view() == item_spans(iv, dv, k),
            ({
                let p = item_pass(iv, dv, n as nat);
                out.deep_view() == p.0 && errors.deep_view() == start + p.1
            }),
        decreases ix.items.len() - n,
    {
        let ghost eb = errors.deep_view();
        let entry = item_entry(ix, decls, sets, n, errors);
        let ghost before = out.deep_view();
        out.push(entry);
        proof {
            assert(out.deep_view() =~= before.push(entry.deep_view()));
            let m = item_model(iv, dv, n as int);
            assert(errors.deep_view() =~= start + (item_pass(iv, dv, n as nat).1 + m.1));
        }
        n = n + 1;
    }
    out
}

/// Validates scanned directives and assembles a complete knowledge map, or returns
/// every diagnostic, ascending and without repeats. No map is returned while any
/// diagnostic remains.
pub fn assemble(ix: &ScanIndex) -> (r: Result<KnowledgeMap, BuildError>)
    requires
        index_wf(ix.deep_view()),
    ensures
        match r {
            Ok(map) => assembly_errors(ix.deep_view()).len() == 0 && map.deep_view() == assembled_map(
                ix.deep_view(),
            ) && crate::projection::axes_complete(map.deep_view()) && map_ordered(map.deep_view()),
            Err(e) => {
                &&& assembly_errors(ix.deep_view()).len() > 0
                &&& e.messages.deep_view() == ordered_set(assembly_errors(ix.deep_view()))
                &&& strictly_sorted(e.messages.deep_view())
                &&& forall|m: Seq<char>|
                    #[trigger] e.messages.deep_view().contains(m) <==> assembly_errors(
                        ix.deep_view(),
                    ).contains(m)
            },
        },
{
    let ghost iv = ix.deep_view();
    let decls = collect_declarations(ix);
    let ids = collect_span_ids(ix, &decls);
    let sets = item_span_sets(ix, &decls);
    let mut errors: Vec<String> = Vec::new();
    assert(errors.deep_view() =~= Seq::<Seq<char>>::empty());
    push_problems(&decls, &mut errors);
    validate_spans(&ids, &decls, &mut errors);
    validate_parent_cycles(&ids, &decls, &mut errors);
    validate_container_spans(ix, &ids, &decls, &sets, &mut errors);
    validate_claim_blocks(ix, &mut errors);
    let spans = span_models(ix, &ids, &decls, &sets, &mut errors);
    let items = item_models(ix, &decls, &sets, &mut errors);
    proof {
        let dv = all_decls(iv);
        let idv = span_ids(iv, dv);
        assert(errors.deep_view() =~= assembly_errors(iv));
    }
    if errors.len() == 0 {
        proof {
            lemma_assembled_axes_complete(iv);
            lemma_every_item_emitted(iv);
            lemma_assembled_span_order(iv);
        }
        Ok(KnowledgeMap { schema: 2, crate_name: ix.crate_name.clone(), spans, items })
    } else {
        let messages = ordered_strings(&errors);
        proof {
            lemma_set_of(errors.deep_view(), errors.deep_view().len());
            assert(errors.deep_view().take(errors.deep_view().len() as int) =~= errors.deep_view());
        }
        Err(BuildError { messages })
    }
}

// ---------------------------------------------------------------------------
// Laws.

proof fn lemma_na_fold_len(scope: Seq<char>, st: AxesV, nas: Seq<NotApplicableArgsV>, n: nat)
    requires
        st.axes.len() == 12,
    ensures
        na_fold(scope, st, nas, n).axes.len() == 12,
    decreases n,
{
    if n > 0 && n <= nas.len() {
        lemma_na_fold_len(scope, st, nas, (n - 1) as nat);
    }
}

proof fn lemma_claim_fold_len(ix: ScanIndexV, scope: Seq<char>, m: Seq<Seq<char>>, st: AxesV, cs: Seq<ClaimArgsV>, n: nat)
    requires
        st.axes.len() == 12,
    ensures
        claim_fold(ix, scope, m, st, cs, n).axes.len() == 12,
    decreases n,
{
    if n > 0 && n <= cs.len() {
        lemma_claim_fold_len(ix, scope, m, st, cs, (n - 1) as nat);
    }
}

/// Every owner's axis map has exactly the twelve axes.
pub proof fn lemma_built_axes_complete(ix: ScanIndexV, scope: Seq<char>, block: Option<ClaimsArgsV>, m: Seq<Seq<char>>)
    ensures
        built_axes(ix, scope, block, m).axes.len() == 12,
{
    match block {
        Some(c) => {
            lemma_na_fold_len(scope, initial_axes(), c.not_applicable, c.not_applicable.len());
            let s1 = na_fold(scope, initial_axes(), c.not_applicable, c.not_applicable.len());
            lemma_claim_fold_len(ix, scope, m, s1, c.claims, c.claims.len());
        },
        None => {},
    }
}

proof fn lemma_span_pass_axes(ix: ScanIndexV, ids: Seq<Seq<char>>, decls: Seq<DeclV>, n: nat)
    ensures
        forall|k: int|
            0 <= k < span_pass(ix, ids, decls, n).0.len() ==> #[trigger] span_pass(ix, ids, decls, n).0[k].axes.len()
                == 12,
    decreases n,
{
    if n > 0 && n <= ids.len() {
        lemma_span_pass_axes(ix, ids, decls, (n - 1) as nat);
        let d = decls_of(decls, ids[n - 1])[0];
        lemma_built_axes_complete(ix, "span:"@ + ids[n - 1], d.claims, d.modules);
    }
}

proof fn lemma_item_pass_shape(ix: ScanIndexV, decls: Seq<DeclV>, n: nat)
    requires
        n <= ix.items.len(),
    ensures
        item_pass(ix, decls, n).0.len() == n,
        forall|k: int|
            0 <= k < n ==> (#[trigger] item_pass(ix, decls, n).0[k]).0 == ix.items[k].0
                && item_pass(ix, decls, n).0[k].1.axes.len() == 12,
    decreases n,
{
    reveal(item_model);
    if n > 0 {
        lemma_item_pass_shape(ix, decls, (n - 1) as nat);
        let it = ix.items[n - 1];
        let blocks = item_blocks(ix, n - 1);
        let block = if blocks.len() > 0 {
            Some(blocks.last())
        } else {
            None
        };
        lemma_built_axes_complete(ix, "item:"@ + it.0, block, it.1.source.modules);
    }
}

/// Every span and every item of an assembled map carries exactly the twelve axes.
pub proof fn lemma_assembled_axes_complete(ix: ScanIndexV)
    ensures
        crate::projection::axes_complete(assembled_map(ix)),
{
    let decls = all_decls(ix);
    let ids = span_ids(ix, decls);
    lemma_span_pass_axes(ix, ids, decls, ids.len());
    lemma_item_pass_shape(ix, decls, ix.items.len());
}

/// Every scanned item is emitted, in the scan's order, under its def path.
pub proof fn lemma_every_item_emitted(ix: ScanIndexV)
    ensures
        keys(assembled_map(ix).items) == keys(ix.items),
{
    let decls = all_decls(ix);
    lemma_item_pass_shape(ix, decls, ix.items.len());
    assert(keys(assembled_map(ix).items) =~= keys(ix.items));
}

/// Linked evidence names a scanned item.
pub proof fn lemma_linked_evidence_names_item(ix: ScanIndexV, scope: Seq<char>, claim_id: Seq<char>, m: Seq<Seq<char>>, raw: EvidenceArgsV)
    ensures
        resolved_evidence(ix, scope, claim_id, m, raw).0.result == EvidenceResult::Linked ==> has_item(
            ix,
            resolved_evidence(ix, scope, claim_id, m, raw).0.binder,
        ),
{
}

/// Evidence resolves to `Linked` only when its binder names a scanned item whose shape
/// can carry the kind: a `Test` must be a function marked as a test, a `Type` a type, a
/// `Fuzz` or `Proof` a function; and a binder that names exactly one item of such a shape
/// is linked.
pub proof fn lemma_linked_evidence_shape(ix: ScanIndexV, scope: Seq<char>, claim_id: Seq<char>, m: Seq<Seq<char>>, raw: EvidenceArgsV)
    ensures
        ({
            let e = resolved_evidence(ix, scope, claim_id, m, raw).0;
            e.result == EvidenceResult::Linked ==> match item_shape(ix, e.binder) {
                Some(sh) => {
                    &&& raw.kind == EvidenceKind::Test ==> sh == ItemShape::Function { test: true }
                    &&& raw.kind == EvidenceKind::Type ==> sh == ItemShape::Type
                    &&& (raw.kind == EvidenceKind::Fuzz || raw.kind == EvidenceKind::Proof) ==> sh is Function
                },
                None => false,
            }
        }),
        ({
            let c = binder_candidates(ix, normalized_binder(raw.binder, m, ix.crate_name));
            c.len() == 1 && raw.kind == EvidenceKind::Test && item_shape(ix, c[0]) == Some(ItemShape::Function { test: true })
                ==> resolved_evidence(ix, scope, claim_id, m, raw).0.result == EvidenceResult::Linked
        }),
        ({
            let c = binder_candidates(ix, normalized_binder(raw.binder, m, ix.crate_name));
            c.len() == 1 && raw.kind == EvidenceKind::Test && item_shape(ix, c[0]) is Some && item_shape(ix, c[0])
                != Some(ItemShape::Function { test: true })
                ==> resolved_evidence(ix, scope, claim_id, m, raw).0.result == EvidenceResult::Unavailable
        }),
{
}

proof fn lemma_span_checks_clean(ids: Seq<Seq<char>>, decls: Seq<DeclV>, n: nat)
    requires
        n <= ids.len(),
        span_checks(ids, decls, n).len() == 0,
    ensures
        forall|i: int| 0 <= i < n ==> (#[trigger] span_problems(ids, decls, ids[i])).len() == 0,
    decreases n,
{
    if n > 0 {
        lemma_span_checks_clean(ids, decls, (n - 1) as nat);
    }
}

proof fn lemma_span_pass_full(ix: ScanIndexV, ids: Seq<Seq<char>>, decls: Seq<DeclV>, n: nat)
    requires
        n <= ids.len(),
        forall|i: int| 0 <= i < n ==> (#[trigger] decls_of(decls, ids[i])).len() == 1,
    ensures
        span_pass(ix, ids, decls, n).0.len() == n,
        forall|i: int|
            0 <= i < n ==> #[trigger] span_pass(ix, ids, decls, n).0[i] == span_model(ix, decls, ids[i]).0,
    decreases n,
{
    if n > 0 {
        lemma_span_pass_full(ix, ids, decls, (n - 1) as nat);
        assert(decls_of(decls, ids[n - 1]).len() == 1);
    }
}

/// In a map assembled without diagnostics, every span is declared once, no span is
/// its own parent, and every parent names a span of the map.
pub proof fn lemma_assembled_parents(ix: ScanIndexV)
    requires
        assembly_errors(ix).len() == 0,
    ensures
        ({
            let spans = assembled_map(ix).spans;
            forall|k: int|
                0 <= k < spans.len() && (#[trigger] spans[k]).parent is Some ==> {
                    let p = spans[k].parent->Some_0;
                    p != spans[k].id && exists|j: int| 0 <= j < spans.len() && spans[j].id == p
                }
        }),
{
    let decls = all_decls(ix);
    let ids = span_ids(ix, decls);
    assert(span_checks(ids, decls, ids.len()).len() == 0);
    lemma_span_checks_clean(ids, decls, ids.len());
    assert forall|i: int| 0 <= i < ids.len() implies (#[trigger] decls_of(decls, ids[i])).len() == 1 by {
        assert(span_problems(ids, decls, ids[i]).len() == 0);
    }
    lemma_span_pass_full(ix, ids, decls, ids.len());
    let spans = assembled_map(ix).spans;
    assert forall|k: int| 0 <= k < spans.len() && (#[trigger] spans[k]).parent is Some implies {
        let p = spans[k].parent->Some_0;
        p != spans[k].id && exists|j: int| 0 <= j < spans.len() && spans[j].id == p
    } by {
        let id = ids[k];
        assert(span_problems(ids, decls, id).len() == 0);
        assert(spans[k] == span_model(ix, decls, id).0);
        let p = spans[k].parent->Some_0;
        assert(ids.contains(p));
        let j = choose|j: int| 0 <= j < ids.len() && ids[j] == p;
        assert(spans[j] == span_model(ix, decls, ids[j]).0);
    }
}

proof fn lemma_cycle_checks_clean(ids: Seq<Seq<char>>, decls: Seq<DeclV>, n: nat)
    requires
        n <= ids.len(),
        cycle_checks(ids, decls, n).len() == 0,
    ensures
        forall|i: int|
            0 <= i < n ==> (#[trigger] cycle_from(ids, decls, ids[i], Seq::empty(), ids.len())) is None,
    decreases n,
{
    if n > 0 {
        let prev = cycle_checks(ids, decls, (n - 1) as nat);
        assert(prev.len() <= cycle_checks(ids, decls, n).len());
        lemma_cycle_checks_clean(ids, decls, (n - 1) as nat);
    }
}

/// A parent chain that `cycle_from` walks without finding a repeat, through spans that
/// all exist, ends at a root: a longer chain of distinct spans would hold more spans
/// than there are.
proof fn lemma_chain_reaches_root(
    spans: Seq<SpanV>,
    ids: Seq<Seq<char>>,
    decls: Seq<DeclV>,
    cur: Seq<char>,
    seen: Seq<Seq<char>>,
    fuel: nat,
)
    requires
        cycle_from(ids, decls, cur, seen, fuel) is None,
        ids.contains(cur),
        seen.no_duplicates(),
        forall|x: Seq<char>| seen.contains(x) ==> ids.contains(x),
        seen.len() + fuel == ids.len(),
        forall|x: Seq<char>|
            #[trigger] ids.contains(x) ==> find_span(spans, x) is Some && spans[find_span(
                spans,
                x,
            )->Some_0].parent == parent_of(ids, decls, x),
        forall|x: Seq<char>|
            ids.contains(x) && (#[trigger] parent_of(ids, decls, x)) is Some ==> ids.contains(
                parent_of(ids, decls, x)->Some_0,
            ),
    ensures
        reaches_root(spans, cur, fuel),
    decreases fuel,
{
    broadcast use vstd::seq_lib::lemma_seq_contains_after_push;
    assert(!seen.contains(cur));
    let next = seen.push(cur);
    assert(next.no_duplicates()) by {
        assert forall|i: int, j: int| 0 <= i < j < next.len() implies next[i] != next[j] by {
            if j == seen.len() {
                assert(seen.contains(seen[i]));
            }
        }
    }
    if fuel == 0 {
        next.unique_seq_to_set();
        ids.lemma_cardinality_of_set();
        assert(next.to_set().subset_of(ids.to_set()));
        vstd::set_lib::lemma_len_subset(next.to_set(), ids.to_set());
        assert(false);
    } else {
        match parent_of(ids, decls, cur) {
            None => {},
            Some(p) => {
                lemma_chain_reaches_root(spans, ids, decls, p, next, (fuel - 1) as nat);
            },
        }
    }
}

/// In a map assembled without diagnostics, parent links contain no cycles: from every
/// span, following parents reaches a root span within as many links as there are
/// spans.
pub proof fn lemma_assembled_parents_acyclic(ix: ScanIndexV)
    requires
        assembly_errors(ix).len() == 0,
    ensures
        forall|id: Seq<char>|
            #[trigger] reaches_root(assembled_map(ix).spans, id, assembled_map(ix).spans.len()),
{
    let decls = all_decls(ix);
    let ids = span_ids(ix, decls);
    assert(span_checks(ids, decls, ids.len()).len() == 0);
    assert(cycle_checks(ids, decls, ids.len()).len() == 0);
    lemma_span_checks_clean(ids, decls, ids.len());
    lemma_cycle_checks_clean(ids, decls, ids.len());
    assert forall|i: int| 0 <= i < ids.len() implies (#[trigger] decls_of(decls, ids[i])).len() == 1 by {
        assert(span_problems(ids, decls, ids[i]).len() == 0);
    }
    lemma_span_pass_full(ix, ids, decls, ids.len());
    let spans = assembled_map(ix).spans;
    lemma_set_of(joined_span_list(ix, ix.items.len()) + decl_ids(decls, decls.len()), (joined_span_list(ix, ix.items.len()) + decl_ids(decls, decls.len())).len());
    assert(strictly_sorted(ids));
    assert forall|i: int, j: int| 0 <= i < ids.len() && 0 <= j < ids.len() && ids[i] == ids[j] implies i == j by {
        if i < j {
            lemma_str_order_antisym(ids[i], ids[j]);
        } else if j < i {
            lemma_str_order_antisym(ids[j], ids[i]);
        }
    }
    assert forall|k: int| 0 <= k < spans.len() implies #[trigger] spans[k] == span_model(ix, decls, ids[k]).0 by {}
    assert forall|x: Seq<char>| #[trigger] ids.contains(x) implies find_span(spans, x) is Some && spans[find_span(
        spans,
        x,
    )->Some_0].parent == parent_of(ids, decls, x) by {
        let i = choose|i: int| 0 <= i < ids.len() && ids[i] == x;
        assert(spans[i] == span_model(ix, decls, ids[i]).0);
        assert(is_first_span(spans, x, i));
        let k = choose|k: int| is_first_span(spans, x, k);
        assert(spans[k] == span_model(ix, decls, ids[k]).0);
        assert(k == i);
    }
    assert forall|x: Seq<char>|
        ids.contains(x) && (#[trigger] parent_of(ids, decls, x)) is Some implies ids.contains(
            parent_of(ids, decls, x)->Some_0,
        ) by {
        let i = choose|i: int| 0 <= i < ids.len() && ids[i] == x;
        assert(span_problems(ids, decls, ids[i]).len() == 0);
    }
    assert forall|x: Seq<char>| #[trigger] reaches_root(spans, x, spans.len()) by {
        if ids.contains(x) {
            let i = choose|i: int| 0 <= i < ids.len() && ids[i] == x;
            assert(cycle_from(ids, decls, ids[i], Seq::empty(), ids.len()) is None);
            lemma_chain_reaches_root(spans, ids, decls, x, Seq::empty(), ids.len());
        } else {
            if exists|k: int| is_first_span(spans, x, k) {
                let k = choose|k: int| is_first_span(spans, x, k);
                assert(spans[k] == span_model(ix, decls, ids[k]).0);
                assert(ids.contains(ids[k]));
            }
        }
    }
}

/// In a map assembled without diagnostics, the spans that apply to an item holding the
/// memberships `ids` come ancestors first: each applicable span's parent precedes it.
pub proof fn lemma_assembled_applicable_order(ix: ScanIndexV, ids: Seq<Seq<char>>)
    requires
        assembly_errors(ix).len() == 0,
    ensures
        parent_earlier(assembled_map(ix).spans, applicable_spec(assembled_map(ix).spans, ids)),
{
    lemma_assembled_parents_acyclic(ix);
    let spans = assembled_map(ix).spans;
    assert(forall|j: int| 0 <= j < ids.len() ==> reaches_root(spans, #[trigger] ids[j], spans.len()));
    lemma_applicable_spans_order(spans, ids);
}

/// A declaration whose entry resolved without a diagnostic names an item of the index.
pub open spec fn entry_resolved(ix: ScanIndexV, d: DeclV) -> bool {
    d.problem is None ==> keys(ix.items).contains(d.entry)
}

proof fn lemma_resolve_entry_item(ix: ScanIndexV, path: Seq<char>, id: Seq<char>)
    requires
        index_wf(ix),
    ensures
        resolve_entry(ix, path, id).1 is None ==> keys(ix.items).contains(resolve_entry(ix, path, id).0),
{
    lemma_find_key(ix.items, path, 0);
    lemma_find_key(ix.aliases, path, 0);
    if has_item(ix, path) {
        let k = find_key(ix.items, path, 0)->Some_0;
        assert(keys(ix.items)[k] == path);
    } else {
        match find_key(ix.aliases, path, 0) {
            Some(k) => {
                let c = ix.aliases[k].1;
                if c.len() == 1 {
                    assert(c.contains(c[0]));
                    assert(ix.aliases[k].1.contains(c[0]));
                }
            },
            None => {},
        }
    }
}

proof fn lemma_directive_decls_resolved(ix: ScanIndexV, host: Seq<char>, m: Seq<Seq<char>>, ds: Seq<DirectiveV>, n: nat)
    requires
        index_wf(ix),
    ensures
        forall|i: int|
            0 <= i < directive_decls(ix, host, m, ds, n).len() ==> entry_resolved(
                ix,
                #[trigger] directive_decls(ix, host, m, ds, n)[i],
            ),
    decreases n,
{
    if n > 0 && n <= ds.len() {
        lemma_directive_decls_resolved(ix, host, m, ds, (n - 1) as nat);
        let prev = directive_decls(ix, host, m, ds, (n - 1) as nat);
        let r = directive_decls(ix, host, m, ds, n);
        match ds[n - 1] {
            DirectiveV::Span(v) => {
                let normalized = match v.entry {
                    Some(e) => normalized_binder(e, m, ix.crate_name),
                    None => host,
                };
                lemma_resolve_entry_item(ix, normalized, v.id);
                assert(r == prev.push(declared(ix, host, m, v)));
                assert forall|i: int| 0 <= i < r.len() implies entry_resolved(ix, #[trigger] r[i]) by {
                    if i < prev.len() {
                        assert(r[i] == prev[i]);
                    } else {
                        assert(r[i] == declared(ix, host, m, v));
                    }
                }
            },
            _ => {
                assert(r == prev);
            },
        }
    }
}

proof fn lemma_annotation_decls_resolved(ix: ScanIndexV, host: Seq<char>, m: Seq<Seq<char>>, anns: Seq<SpecdrsArgsV>, n: nat)
    requires
        index_wf(ix),
    ensures
        forall|i: int|
            0 <= i < annotation_decls(ix, host, m, anns, n).len() ==> entry_resolved(
                ix,
                #[trigger] annotation_decls(ix, host, m, anns, n)[i],
            ),
    decreases n,
{
    if n > 0 && n <= anns.len() {
        lemma_annotation_decls_resolved(ix, host, m, anns, (n - 1) as nat);
        let ds = anns[n - 1].directives;
        lemma_directive_decls_resolved(ix, host, m, ds, ds.len());
        let a = annotation_decls(ix, host, m, anns, (n - 1) as nat);
        let b = directive_decls(ix, host, m, ds, ds.len());
        assert forall|i: int| 0 <= i < (a + b).len() implies entry_resolved(ix, #[trigger] (a + b)[i]) by {
            if i < a.len() {
                assert((a + b)[i] == a[i]);
            } else {
                assert((a + b)[i] == b[i - a.len()]);
            }
        }
    }
}

proof fn lemma_items_decls_resolved(ix: ScanIndexV, n: nat)
    requires
        index_wf(ix),
    ensures
        forall|i: int| 0 <= i < items_decls(ix, n).len() ==> entry_resolved(ix, #[trigger] items_decls(ix, n)[i]),
    decreases n,
{
    if n > 0 && n <= ix.items.len() {
        lemma_items_decls_resolved(ix, (n - 1) as nat);
        let it = ix.items[n - 1];
        lemma_annotation_decls_resolved(ix, it.0, it.1.source.modules, it.1.annotations, it.1.annotations.len());
        let a = items_decls(ix, (n - 1) as nat);
        let b = annotation_decls(ix, it.0, it.1.source.modules, it.1.annotations, it.1.annotations.len());
        assert forall|i: int| 0 <= i < (a + b).len() implies entry_resolved(ix, #[trigger] (a + b)[i]) by {
            if i < a.len() {
                assert((a + b)[i] == a[i]);
            } else {
                assert((a + b)[i] == b[i - a.len()]);
            }
        }
    }
}

proof fn lemma_free_decls_resolved(ix: ScanIndexV, n: nat)
    requires
        index_wf(ix),
    ensures
        forall|i: int| 0 <= i < free_decls(ix, n).len() ==> entry_resolved(ix, #[trigger] free_decls(ix, n)[i]),
    decreases n,
{
    if n > 0 && n <= ix.span_declarations.len() {
        lemma_free_decls_resolved(ix, (n - 1) as nat);
        let d = ix.span_declarations[n - 1];
        lemma_resolve_entry_item(ix, normalized_binder(d.entry, d.modules, ix.crate_name), d.id);
        let prev = free_decls(ix, (n - 1) as nat);
        let r = free_decls(ix, n);
        assert forall|i: int| 0 <= i < r.len() implies entry_resolved(ix, #[trigger] r[i]) by {
            if i < prev.len() {
                assert(r[i] == prev[i]);
            }
        }
    }
}

proof fn lemma_decl_problems_clean(decls: Seq<DeclV>, n: nat)
    requires
        n <= decls.len(),
        decl_problems(decls, n).len() == 0,
    ensures
        forall|i: int| 0 <= i < n ==> (#[trigger] decls[i]).problem is None,
    decreases n,
{
    if n > 0 {
        let prev = decl_problems(decls, (n - 1) as nat);
        assert(prev.len() <= decl_problems(decls, n).len());
        lemma_decl_problems_clean(decls, (n - 1) as nat);
    }
}

proof fn lemma_decl_positions_bounds(decls: Seq<DeclV>, id: Seq<char>, n: nat)
    requires
        n <= decls.len(),
    ensures
        forall|j: int|
            0 <= j < decl_positions(decls, id, n).len() ==> 0 <= #[trigger] decl_positions(decls, id, n)[j] < n
                && decls[decl_positions(decls, id, n)[j]].id == id,
    decreases n,
{
    if n > 0 {
        lemma_decl_positions_bounds(decls, id, (n - 1) as nat);
        let prev = decl_positions(decls, id, (n - 1) as nat);
        let r = decl_positions(decls, id, n);
        assert forall|j: int| 0 <= j < r.len() implies 0 <= #[trigger] r[j] < n && decls[r[j]].id == id by {
            if j < prev.len() {
                assert(r[j] == prev[j]);
            }
        }
    }
}

/// In a map assembled without diagnostics, every span's entrypoint is an item of the
/// map.
pub proof fn lemma_assembled_entries(ix: ScanIndexV)
    requires
        index_wf(ix),
        assembly_errors(ix).len() == 0,
    ensures
        forall|k: int|
            0 <= k < assembled_map(ix).spans.len() ==> keys(assembled_map(ix).items).contains(
                #[trigger] assembled_map(ix).spans[k].entry,
            ),
{
    let decls = all_decls(ix);
    let ids = span_ids(ix, decls);
    assert(decl_problems(decls, decls.len()).len() == 0);
    assert(span_checks(ids, decls, ids.len()).len() == 0);
    lemma_decl_problems_clean(decls, decls.len());
    lemma_span_checks_clean(ids, decls, ids.len());
    assert forall|i: int| 0 <= i < ids.len() implies (#[trigger] decls_of(decls, ids[i])).len() == 1 by {
        assert(span_problems(ids, decls, ids[i]).len() == 0);
    }
    lemma_span_pass_full(ix, ids, decls, ids.len());
    lemma_items_decls_resolved(ix, ix.items.len());
    lemma_free_decls_resolved(ix, ix.span_declarations.len());
    let a = items_decls(ix, ix.items.len());
    let b = free_decls(ix, ix.span_declarations.len());
    assert forall|i: int| 0 <= i < decls.len() implies entry_resolved(ix, #[trigger] decls[i]) by {
        if i < a.len() {
            assert(decls[i] == a[i]);
        } else {
            assert(decls[i] == b[i - a.len()]);
        }
    }
    lemma_every_item_emitted(ix);
    let spans = assembled_map(ix).spans;
    assert forall|k: int| 0 <= k < spans.len() implies keys(assembled_map(ix).items).contains(
        #[trigger] spans[k].entry,
    ) by {
        assert(spans[k] == span_model(ix, decls, ids[k]).0);
        let pos = decl_positions(decls, ids[k], decls.len());
        lemma_decl_positions_bounds(decls, ids[k], decls.len());
        assert(decls_of(decls, ids[k])[0] == decls[pos[0]]);
        assert(entry_resolved(ix, decls[pos[0]]));
    }
}

proof fn lemma_entry_ids_contains(decls: Seq<DeclV>, p: Seq<char>, n: nat, q: int)
    requires
        0 <= q < n <= decls.len(),
        decls[q].entry == p,
    ensures
        entry_ids(decls, p, n).contains(decls[q].id),
    decreases n,
{
    let prev = entry_ids(decls, p, (n - 1) as nat);
    if q < n - 1 {
        lemma_entry_ids_contains(decls, p, (n - 1) as nat, q);
        let i = choose|i: int| 0 <= i < prev.len() && prev[i] == decls[q].id;
        if decls[n - 1].entry == p {
            assert(entry_ids(decls, p, n)[i] == prev[i]);
        }
    } else {
        assert(entry_ids(decls, p, n)[prev.len() as int] == decls[q].id);
    }
}

proof fn lemma_members_of_contains(ix: ScanIndexV, decls: Seq<DeclV>, id: Seq<char>, n: nat, j: int)
    requires
        0 <= j < n <= ix.items.len(),
        item_spans(ix, decls, j).contains(id),
    ensures
        members_of(ix, decls, id, n).contains(ix.items[j].0),
    decreases n,
{
    let prev = members_of(ix, decls, id, (n - 1) as nat);
    if j < n - 1 {
        lemma_members_of_contains(ix, decls, id, (n - 1) as nat, j);
        let i = choose|i: int| 0 <= i < prev.len() && prev[i] == ix.items[j].0;
        if item_spans(ix, decls, n - 1).contains(id) {
            assert(members_of(ix, decls, id, n)[i] == prev[i]);
        }
    } else {
        assert(members_of(ix, decls, id, n)[prev.len() as int] == ix.items[j].0);
    }
}

/// In a map assembled without diagnostics, every span's entrypoint is one of its
/// members.
pub proof fn lemma_assembled_entry_members(ix: ScanIndexV)
    requires
        index_wf(ix),
        assembly_errors(ix).len() == 0,
    ensures
        forall|k: int|
            0 <= k < assembled_map(ix).spans.len() ==> (#[trigger] assembled_map(ix).spans[k]).members.contains(
                assembled_map(ix).spans[k].entry,
            ),
{
    lemma_assembled_entries(ix);
    lemma_every_item_emitted(ix);
    let decls = all_decls(ix);
    let ids = span_ids(ix, decls);
    assert(span_checks(ids, decls, ids.len()).len() == 0);
    lemma_span_checks_clean(ids, decls, ids.len());
    assert forall|i: int| 0 <= i < ids.len() implies (#[trigger] decls_of(decls, ids[i])).len() == 1 by {
        assert(span_problems(ids, decls, ids[i]).len() == 0);
    }
    lemma_span_pass_full(ix, ids, decls, ids.len());
    let spans = assembled_map(ix).spans;
    assert forall|k: int| 0 <= k < spans.len() implies (#[trigger] spans[k]).members.contains(spans[k].entry) by {
        let id = ids[k];
        assert(spans[k] == span_model(ix, decls, id).0);
        let pos = decl_positions(decls, id, decls.len());
        lemma_decl_positions_bounds(decls, id, decls.len());
        let q = pos[0];
        assert(decls_of(decls, id)[0] == decls[q]);
        let e = spans[k].entry;
        assert(e == decls[q].entry);
        assert(keys(assembled_map(ix).items).contains(e));
        assert(keys(ix.items).contains(e));
        let j = choose|j: int| 0 <= j < keys(ix.items).len() && keys(ix.items)[j] == e;
        assert(ix.items[j].0 == e);
        lemma_entry_ids_contains(decls, e, decls.len(), q);
        let it = ix.items[j];
        let all = it.1.inherited_spans + annotation_joins(it.1.annotations, it.1.annotations.len())
            + entry_ids(decls, it.0, decls.len());
        lemma_set_of(all, all.len());
        assert(all.take(all.len() as int) =~= all);
        let w = choose|w: int| 0 <= w < entry_ids(decls, e, decls.len()).len() && entry_ids(decls, e, decls.len())[w] == id;
        let pre = it.1.inherited_spans + annotation_joins(it.1.annotations, it.1.annotations.len());
        assert(all[pre.len() + w] == id);
        assert(item_spans(ix, decls, j).contains(id));
        lemma_members_of_contains(ix, decls, id, ix.items.len(), j);
    }
}

proof fn lemma_container_checks_clean(ix: ScanIndexV, ids: Seq<Seq<char>>, decls: Seq<DeclV>, n: nat)
    requires
        n <= ids.len(),
        container_checks(ix, ids, decls, n).len() == 0,
    ensures
        forall|i: int| 0 <= i < n ==> (#[trigger] container_problems(ix, decls, ids[i])).len() == 0,
    decreases n,
{
    if n > 0 {
        lemma_container_checks_clean(ix, ids, decls, (n - 1) as nat);
    }
}

proof fn lemma_outside_members_clean(
    members: Seq<Seq<char>>,
    entry: Option<Seq<char>>,
    list: Seq<Seq<char>>,
    id: Seq<char>,
    container: Seq<char>,
    n: nat,
)
    requires
        n <= members.len(),
        outside_members(members, entry, list, id, container, n).len() == 0,
    ensures
        forall|x: int| 0 <= x < n ==> entry == Some(#[trigger] members[x]) || list.contains(members[x]),
    decreases n,
{
    if n > 0 {
        let prev = outside_members(members, entry, list, id, container, (n - 1) as nat);
        assert(prev.len() <= outside_members(members, entry, list, id, container, n).len());
        lemma_outside_members_clean(members, entry, list, id, container, (n - 1) as nat);
    }
}

/// In a map assembled without diagnostics, a span declared by a container that seeded
/// members has no member from outside that container: each member is one the container
/// seeded, or the span's entrypoint.
pub proof fn lemma_assembled_container_closure(ix: ScanIndexV)
    requires
        assembly_errors(ix).len() == 0,
    ensures
        forall|k: int, x: int|
            0 <= k < assembled_map(ix).spans.len() && 0 <= x < assembled_map(ix).spans[k].members.len()
                && seeded(ix, assembled_map(ix).spans[k].id) is Some && seeded(
                ix,
                assembled_map(ix).spans[k].id,
            )->Some_0.len() > 0 ==> {
                let member = #[trigger] assembled_map(ix).spans[k].members[x];
                member == assembled_map(ix).spans[k].entry || seeded(
                    ix,
                    assembled_map(ix).spans[k].id,
                )->Some_0.contains(member)
            },
{
    let decls = all_decls(ix);
    let ids = span_ids(ix, decls);
    assert(span_checks(ids, decls, ids.len()).len() == 0);
    assert(container_checks(ix, ids, decls, ids.len()).len() == 0);
    lemma_span_checks_clean(ids, decls, ids.len());
    lemma_container_checks_clean(ix, ids, decls, ids.len());
    assert forall|i: int| 0 <= i < ids.len() implies (#[trigger] decls_of(decls, ids[i])).len() == 1 by {
        assert(span_problems(ids, decls, ids[i]).len() == 0);
    }
    lemma_span_pass_full(ix, ids, decls, ids.len());
    let spans = assembled_map(ix).spans;
    assert forall|k: int, x: int|
        0 <= k < spans.len() && 0 <= x < spans[k].members.len() && seeded(ix, spans[k].id) is Some
            && seeded(ix, spans[k].id)->Some_0.len() > 0 implies {
            let member = #[trigger] spans[k].members[x];
            member == spans[k].entry || seeded(ix, spans[k].id)->Some_0.contains(member)
        } by {
        let id = ids[k];
        assert(spans[k] == span_model(ix, decls, id).0);
        assert(container_problems(ix, decls, id).len() == 0);
        let list = seeded(ix, id)->Some_0;
        let ds = decls_of(decls, id);
        let container = if ds.len() > 0 && ds[0].container is Some {
            ds[0].container->Some_0
        } else {
            "its declaring container"@
        };
        let members = members_of(ix, decls, id, ix.items.len() as nat);
        lemma_outside_members_clean(members, Some(ds[0].entry), list, id, container, members.len());
    }
}

/// In a map assembled without diagnostics, spans come in strictly ascending identifier
/// order, so each identifier names exactly one span.
pub proof fn lemma_assembled_span_order(ix: ScanIndexV)
    requires
        assembly_errors(ix).len() == 0,
    ensures
        forall|i: int, j: int|
            0 <= i < j < assembled_map(ix).spans.len() ==> str_order(
                #[trigger] assembled_map(ix).spans[i].id,
                #[trigger] assembled_map(ix).spans[j].id,
            ) < 0,
{
    let decls = all_decls(ix);
    let ids = span_ids(ix, decls);
    assert(span_checks(ids, decls, ids.len()).len() == 0);
    lemma_span_checks_clean(ids, decls, ids.len());
    assert forall|i: int| 0 <= i < ids.len() implies (#[trigger] decls_of(decls, ids[i])).len() == 1 by {
        assert(span_problems(ids, decls, ids[i]).len() == 0);
    }
    lemma_span_pass_full(ix, ids, decls, ids.len());
    let all = joined_span_list(ix, ix.items.len()) + decl_ids(decls, decls.len());
    lemma_set_of(all, all.len());
    let spans = assembled_map(ix).spans;
    assert forall|i: int, j: int| 0 <= i < j < spans.len() implies str_order(
        #[trigger] spans[i].id,
        #[trigger] spans[j].id,
    ) < 0 by {
        assert(spans[i] == span_model(ix, decls, ids[i]).0);
        assert(spans[j] == span_model(ix, decls, ids[j]).0);
    }
}

proof fn lemma_block_checks_clean(ix: ScanIndexV, n: nat)
    requires
        n <= ix.items.len(),
        block_checks(ix, n).len() == 0,
    ensures
        forall|k: int| 0 <= k < n ==> (#[trigger] item_blocks(ix, k)).len() <= 1,
    decreases n,
{
    if n > 0 {
        lemma_block_checks_clean(ix, (n - 1) as nat);
    }
}

/// In a map assembled without diagnostics, every item owned at most one claims block.
pub proof fn lemma_single_claims_block(ix: ScanIndexV)
    requires
        assembly_errors(ix).len() == 0,
    ensures
        forall|k: int| 0 <= k < ix.items.len() ==> (#[trigger] item_blocks(ix, k)).len() <= 1,
{
    lemma_block_checks_clean(ix, ix.items.len());
}

} // verus!
