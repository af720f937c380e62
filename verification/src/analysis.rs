//! Prepares semantic audits of declared claims and checks what the analyzer model returns.
//!
//! The model call itself is made by the command-line program; this module selects the
//! audit jobs, splits obligations from inherited context, validates and repairs
//! verdicts, locates source text, and resolves the analyzer configuration.
use vstd::prelude::*;

use crate::docs::{is_whitespace, starts_at};
use crate::model::{
    find_item, position_le, Axis, ClaimKind, KnowledgeMap, KnowledgeMapV, SourcePosition,
    SourceRange, SourceRangeV,
};
use crate::projection::{
    axes_complete, item_claims_spec, span_claims_spec, str_order, compare_strings, ProjectedClaim,
    ProjectedClaimV,
};
use crate::sets::{lemma_set_of, ordered_set, ordered_strings, strictly_sorted};
use crate::text::{
    append, chars_of, concat, decimal, decimal_string, same_string, string_from_chars,
    string_lit, strings_equal,
};

verus! {

// ---------------------------------------------------------------------------
// Targets and reports.

/// Selects which analysis targets one run audits.
#[derive(Debug)]
pub enum TargetFilter {
    /// Audits every span and item that owns or inherits a claim.
    All,
    /// Audits only the named spans and items.
    Named { spans: Vec<String>, items: Vec<String> },
}

/// Mathematical value of a [`TargetFilter`].
pub enum TargetFilterV {
    All,
    Named { spans: Seq<Seq<char>>, items: Seq<Seq<char>> },
}

impl DeepView for TargetFilter {
    type V = TargetFilterV;

    open spec fn deep_view(&self) -> TargetFilterV {
        match self {
            TargetFilter::All => TargetFilterV::All,
            TargetFilter::Named { spans, items } => TargetFilterV::Named {
                spans: spans.deep_view(),
                items: items.deep_view(),
            },
        }
    }
}

/// Identifies the span or Rust item audited by one analysis job.
#[derive(Debug)]
pub enum AnalysisTarget {
    Span { id: String },
    Item { path: String },
}

/// Mathematical value of an [`AnalysisTarget`].
pub enum AnalysisTargetV {
    Span { id: Seq<char> },
    Item { path: Seq<char> },
}

impl DeepView for AnalysisTarget {
    type V = AnalysisTargetV;

    open spec fn deep_view(&self) -> AnalysisTargetV {
        match self {
            AnalysisTarget::Span { id } => AnalysisTargetV::Span { id: id@ },
            AnalysisTarget::Item { path } => AnalysisTargetV::Item { path: path@ },
        }
    }
}

/// The stable label of a target: `span:<id>` or `item:<path>`.
pub open spec fn target_label(t: AnalysisTargetV) -> Seq<char> {
    match t {
        AnalysisTargetV::Span { id } => "span:"@ + id,
        AnalysisTargetV::Item { path } => "item:"@ + path,
    }
}

impl AnalysisTarget {
    /// Returns the stable label used to sort and display the target.
    pub fn label(&self) -> (r: String)
        ensures
            r@ == target_label(self.deep_view()),
    {
        match self {
            AnalysisTarget::Span { id } => concat("span:", id.as_str()),
            AnalysisTarget::Item { path } => concat("item:", path.as_str()),
        }
    }
}

/// Classifies why semantic analysis failed.
#[derive(Debug, Clone, Copy, PartialEq, Eq, Structural)]
pub enum FindingKind {
    /// Two or more declared claims cannot hold together.
    ClaimConflict,
    /// A concrete input, branch, effect, or return value contradicts a claim.
    ImplementationViolation,
}

/// Describes one concrete claim conflict or implementation violation.
#[derive(Debug)]
pub struct AnalysisFinding {
    pub kind: FindingKind,
    /// Fully qualified claim identifiers involved in the failure.
    pub claims: Vec<String>,
    /// Exact source ranges that demonstrate the failure.
    pub ranges: Vec<SourceRange>,
    pub reason: String,
}

/// Mathematical value of an [`AnalysisFinding`].
pub struct AnalysisFindingV {
    pub kind: FindingKind,
    pub claims: Seq<Seq<char>>,
    pub ranges: Seq<SourceRangeV>,
    pub reason: Seq<char>,
}

impl DeepView for AnalysisFinding {
    type V = AnalysisFindingV;

    open spec fn deep_view(&self) -> AnalysisFindingV {
        AnalysisFindingV {
            kind: self.kind,
            claims: self.claims.deep_view(),
            ranges: self.ranges.deep_view(),
            reason: self.reason@,
        }
    }
}

/// Reports whether an implementation satisfies its supplied claims.
#[derive(Debug)]
pub enum AnalysisVerdict {
    Pass,
    Fail { findings: Vec<AnalysisFinding> },
    Indeterminate { reason: String },
}

/// Mathematical value of an [`AnalysisVerdict`].
pub enum AnalysisVerdictV {
    Pass,
    Fail { findings: Seq<AnalysisFindingV> },
    Indeterminate { reason: Seq<char> },
}

impl DeepView for AnalysisVerdict {
    type V = AnalysisVerdictV;

    open spec fn deep_view(&self) -> AnalysisVerdictV {
        match self {
            AnalysisVerdict::Pass => AnalysisVerdictV::Pass,
            AnalysisVerdict::Fail { findings } => AnalysisVerdictV::Fail { findings: findings.deep_view() },
            AnalysisVerdict::Indeterminate { reason } => AnalysisVerdictV::Indeterminate { reason: reason@ },
        }
    }
}

/// Contains a completed verdict or an analysis execution error.
#[derive(Debug)]
pub enum AnalysisExecution {
    Completed { verdict: AnalysisVerdict },
    Error { message: String },
}

/// Contains the sources and result for one analysis target.
#[derive(Debug)]
pub struct AnalyzedTarget {
    pub target: AnalysisTarget,
    pub sources: Vec<SourceRange>,
    pub result: AnalysisExecution,
}

/// Contains the versioned semantic analysis report for one crate.
#[derive(Debug)]
pub struct AnalysisReport {
    pub schema: u32,
    pub crate_name: String,
    pub provider: String,
    pub model: String,
    pub results: Vec<AnalyzedTarget>,
}

/// Whether a result is a completed pass.
pub open spec fn is_pass(r: AnalysisExecution) -> bool {
    r matches AnalysisExecution::Completed { verdict: AnalysisVerdict::Pass }
}

impl AnalysisReport {
    /// Returns whether every analysis job completed with a pass.
    pub fn passed(&self) -> (r: bool)
        ensures
            r == forall|k: int| 0 <= k < self.results@.len() ==> #[trigger] is_pass(self.results@[k].result),
    {
        let mut k: usize = 0;
        while k < self.results.len()
            invariant
                k <= self.results@.len(),
                forall|x: int| 0 <= x < k ==> #[trigger] is_pass(self.results@[x].result),
            decreases self.results@.len() - k,
        {
            match &self.results[k].result {
                AnalysisExecution::Completed { verdict: AnalysisVerdict::Pass } => {},
                _ => {
                    assert(!is_pass(self.results@[k as int].result));
                    return false;
                },
            }
            k = k + 1;
        }
        true
    }
}

/// Reports a failure to configure, prepare, or execute semantic analysis.
#[derive(Debug)]
pub struct AnalyzeError {
    pub message: String,
}

/// The identifier of a projected claim qualified by its owner: `<owner>/<id>`.
pub open spec fn full_id(c: ProjectedClaimV) -> Seq<char> {
    c.owner + "/"@ + c.claim.id
}

/// Returns the claim identifier qualified by its owner.
pub fn full_claim_id(claim: &ProjectedClaim) -> (r: String)
    ensures
        r@ == full_id(claim.deep_view()),
{
    let mut r = concat(claim.owner.as_str(), "/");
    append(&mut r, claim.claim.id.as_str());
    r
}

/// The qualified identifiers of `claims`, as an ascending list without repeats.
pub open spec fn claim_id_set(claims: Seq<ProjectedClaimV>) -> Seq<Seq<char>> {
    ordered_set(claims.map_values(|c: ProjectedClaimV| full_id(c)))
}

/// The qualified identifiers of a job's claims, ascending and without repeats: the
/// identifiers a verdict may name.
pub fn claim_ids(claims: &Vec<ProjectedClaim>) -> (r: Vec<String>)
    ensures
        r.deep_view() == claim_id_set(claims.deep_view()),
        strictly_sorted(r.deep_view()),
{
    let mut ids: Vec<String> = Vec::new();
    let mut k: usize = 0;
    while k < claims.len()
        invariant
            k <= claims.len(),
            ids.deep_view() == claims.deep_view().take(k as int).map_values(|c: ProjectedClaimV| full_id(c)),
        decreases claims.len() - k,
    {
        let id = full_claim_id(&claims[k]);
        let ghost before = ids.deep_view();
        ids.push(id);
        assert(ids.deep_view() =~= before.push(id@));
        assert(claims.deep_view().take(k + 1).map_values(|c: ProjectedClaimV| full_id(c))
            =~= claims.deep_view().take(k as int).map_values(|c: ProjectedClaimV| full_id(c)).push(full_id(claims.deep_view()[k as int])));
        k = k + 1;
    }
    assert(claims.deep_view().take(k as int) =~= claims.deep_view());
    let r = ordered_strings(&ids);
    proof {
        lemma_set_of(ids.deep_view(), ids.deep_view().len());
    }
    r
}

// ---------------------------------------------------------------------------
// Target selection.

/// Whether the filter selects the span `id`.
pub open spec fn selects_span(f: TargetFilterV, id: Seq<char>) -> bool {
    match f {
        TargetFilterV::All => true,
        TargetFilterV::Named { spans, items } => spans.contains(id),
    }
}

/// Whether the filter selects the item `path`.
pub open spec fn selects_item(f: TargetFilterV, path: Seq<char>) -> bool {
    match f {
        TargetFilterV::All => true,
        TargetFilterV::Named { spans, items } => items.contains(path),
    }
}

fn contains_string(v: &Vec<String>, s: &String) -> (r: bool)
    ensures
        r == v.deep_view().contains(s@),
{
    let ghost vv = v.deep_view();
    let mut k: usize = 0;
    while k < v.len()
        invariant
            k <= v.len(),
            vv == v.deep_view(),
            forall|x: int| 0 <= x < k ==> vv[x] != s@,
        decreases v.len() - k,
    {
        if strings_equal(&v[k], s) {
            assert(vv[k as int] == s@);
            return true;
        }
        k = k + 1;
    }
    false
}

impl TargetFilter {
    /// Reports whether one span identifier is selected.
    pub fn selects_span(&self, id: &String) -> (r: bool)
        ensures
            r == selects_span(self.deep_view(), id@),
    {
        match self {
            TargetFilter::All => true,
            TargetFilter::Named { spans, .. } => contains_string(spans, id),
        }
    }

    /// Reports whether one Rust item path is selected.
    pub fn selects_item(&self, path: &String) -> (r: bool)
        ensures
            r == selects_item(self.deep_view(), path@),
    {
        match self {
            TargetFilter::All => true,
            TargetFilter::Named { items, .. } => contains_string(items, path),
        }
    }
}

/// Why a selected target cannot be audited: absent from the map, or without any claim.
pub open spec fn rejection(claims: Option<Seq<ProjectedClaimV>>, label: Seq<char>) -> Option<Seq<char>> {
    match claims {
        None => Some("unknown analysis target: "@ + label),
        Some(c) => if c.len() == 0 {
            Some(label + " declares no claim to audit"@)
        } else {
            None
        },
    }
}

/// Describes why one selected target cannot be audited, if it cannot.
pub fn reject(claims: &Option<Vec<ProjectedClaim>>, label: &String) -> (r: Option<String>)
    ensures
        r.deep_view() == rejection(claims.deep_view(), label@),
{
    match claims {
        None => Some(concat("unknown analysis target: ", label.as_str())),
        Some(c) => {
            if c.len() == 0 {
                Some(concat(label.as_str(), " declares no claim to audit"))
            } else {
                None
            }
        },
    }
}

/// `s` with `x` placed before the first element that sorts after it.
pub open spec fn insert_sorted(s: Seq<Seq<char>>, x: Seq<char>, k: int) -> Seq<Seq<char>>
    decreases s.len() - k,
{
    if k < 0 || k >= s.len() {
        s.push(x)
    } else if str_order(s[k], x) > 0 {
        s.insert(k, x)
    } else {
        insert_sorted(s, x, k + 1)
    }
}

/// The first `n` strings in ascending order (a stable insertion sort).
pub open spec fn sorted_strings(s: Seq<Seq<char>>, n: nat) -> Seq<Seq<char>>
    decreases n,
{
    if n == 0 || n > s.len() {
        Seq::empty()
    } else {
        insert_sorted(sorted_strings(s, (n - 1) as nat), s[n - 1], 0)
    }
}

fn insert_position(out: &Vec<String>, x: &String) -> (k: usize)
    ensures
        k <= out.len(),
        insert_sorted(out.deep_view(), x@, 0) == (if k < out.len() {
            out.deep_view().insert(k as int, x@)
        } else {
            out.deep_view().push(x@)
        }),
{
    let ghost ov = out.deep_view();
    let mut k: usize = 0;
    while k < out.len()
        invariant
            k <= out.len(),
            ov == out.deep_view(),
            insert_sorted(ov, x@, 0) == insert_sorted(ov, x@, k as int),
        decreases out.len() - k,
    {
        if compare_strings(out[k].as_str(), x.as_str()) > 0 {
            return k;
        }
        k = k + 1;
    }
    k
}

/// Sorts strings in ascending order.
pub fn sort_strings(v: Vec<String>) -> (r: Vec<String>)
    ensures
        r.deep_view() == sorted_strings(v.deep_view(), v.deep_view().len()),
{
    let ghost vv = v.deep_view();
    let mut out: Vec<String> = Vec::new();
    assert(out.deep_view() =~= Seq::<Seq<char>>::empty());
    let mut n: usize = 0;
    while n < v.len()
        invariant
            n <= v.len(),
            vv == v.deep_view(),
            out.deep_view() == sorted_strings(vv, n as nat),
        decreases v.len() - n,
    {
        let x = &v[n];
        let k = insert_position(&out, x);
        let ghost before = out.deep_view();
        out.insert(k, x.clone());
        proof {
            if k < before.len() {
                assert(out.deep_view() =~= before.insert(k as int, x@));
            } else {
                assert(out.deep_view() =~= before.push(x@));
            }
        }
        n = n + 1;
    }
    out
}

/// Joins strings with a newline between each two.
pub open spec fn join_lines(s: Seq<Seq<char>>) -> Seq<char>
    decreases s.len(),
{
    if s.len() == 0 {
        Seq::empty()
    } else if s.len() == 1 {
        s[0]
    } else {
        join_lines(s.drop_last()) + "\n"@ + s.last()
    }
}

/// Joins strings with a newline between each two.
pub fn join_with_newlines(v: &Vec<String>) -> (r: String)
    ensures
        r@ == join_lines(v.deep_view()),
{
    let ghost vv = v.deep_view();
    let mut out = String::new();
    let mut k: usize = 0;
    while k < v.len()
        invariant
            k <= v.len(),
            vv == v.deep_view(),
            out@ == join_lines(vv.take(k as int)),
        decreases v.len() - k,
    {
        if k > 0 {
            append(&mut out, "\n");
        }
        append(&mut out, v[k].as_str());
        proof {
            let next = vv.take(k + 1);
            assert(next.drop_last() =~= vv.take(k as int));
            if k == 0 {
                assert(out@ =~= next[0]);
            } else {
                assert(out@ =~= join_lines(next.drop_last()) + "\n"@ + next.last());
            }
        }
        k = k + 1;
    }
    assert(vv.take(k as int) =~= vv);
    out
}

/// The rejections of the first `n` named spans.
pub open spec fn span_rejections(m: KnowledgeMapV, spans: Seq<Seq<char>>, n: nat) -> Seq<Seq<char>>
    decreases n,
{
    if n == 0 || n > spans.len() {
        Seq::empty()
    } else {
        let prev = span_rejections(m, spans, (n - 1) as nat);
        match rejection(span_claims_spec(m.spans, spans[n - 1]), "span `"@ + spans[n - 1] + "`"@) {
            Some(r) => prev.push(r),
            None => prev,
        }
    }
}

/// The rejections of the first `n` named items.
pub open spec fn item_rejections(m: KnowledgeMapV, items: Seq<Seq<char>>, n: nat) -> Seq<Seq<char>>
    decreases n,
{
    if n == 0 || n > items.len() {
        Seq::empty()
    } else {
        let prev = item_rejections(m, items, (n - 1) as nat);
        match rejection(item_claims_spec(m.spans, m.items, items[n - 1]), "item `"@ + items[n - 1] + "`"@) {
            Some(r) => prev.push(r),
            None => prev,
        }
    }
}

/// Why a target selection cannot be audited: every rejected target, sorted, one per line.
pub open spec fn selection_error(f: TargetFilterV, m: KnowledgeMapV) -> Option<Seq<char>> {
    match f {
        TargetFilterV::All => None,
        TargetFilterV::Named { spans, items } => {
            let rejected = span_rejections(m, spans, spans.len()) + item_rejections(m, items, items.len());
            if rejected.len() == 0 {
                None
            } else {
                Some(join_lines(sorted_strings(rejected, rejected.len())))
            }
        },
    }
}

fn quoted(prefix: &str, name: &String) -> (r: String)
    ensures
        r@ == prefix@ + "`"@ + name@ + "`"@,
{
    let mut r = concat(prefix, "`");
    append(&mut r, name.as_str());
    append(&mut r, "`");
    r
}

impl TargetFilter {
    /// Verifies that every named span and item exists in the map and has claims to audit.
    pub fn validate(&self, map: &KnowledgeMap) -> (r: Result<(), AnalyzeError>)
        requires
            axes_complete(map.deep_view()),
        ensures
            match r {
                Ok(()) => selection_error(self.deep_view(), map.deep_view()) is None,
                Err(e) => selection_error(self.deep_view(), map.deep_view()) == Some(e.message@),
            },
    {
        let (spans, items) = match self {
            TargetFilter::All => {
                return Ok(());
            },
            TargetFilter::Named { spans, items } => (spans, items),
        };
        let ghost m = map.deep_view();
        let mut rejected: Vec<String> = Vec::new();
        assert(rejected.deep_view() =~= Seq::<Seq<char>>::empty());
        let mut k: usize = 0;
        while k < spans.len()
            invariant
                k <= spans.len(),
                m == map.deep_view(),
                axes_complete(m),
                rejected.deep_view() == span_rejections(m, spans.deep_view(), k as nat),
            decreases spans.len() - k,
        {
            let label = quoted("span ", &spans[k]);
            proof {
                reveal_strlit("span ");
                reveal_strlit("span `");
                reveal_strlit("`");
                assert(label@ =~= "span `"@ + spans.deep_view()[k as int] + "`"@);
            }
            let claims = map.span_claims(spans[k].as_str());
            match reject(&claims, &label) {
                Some(r) => {
                    let ghost before = rejected.deep_view();
                    rejected.push(r);
                    assert(rejected.deep_view() =~= before.push(r@));
                },
                None => {},
            }
            k = k + 1;
        }
        let ghost from_spans = rejected.deep_view();
        let mut k: usize = 0;
        while k < items.len()
            invariant
                k <= items.len(),
                m == map.deep_view(),
                axes_complete(m),
                from_spans == span_rejections(m, spans.deep_view(), spans.len() as nat),
                rejected.deep_view() == from_spans + item_rejections(m, items.deep_view(), k as nat),
            decreases items.len() - k,
        {
            let label = quoted("item ", &items[k]);
            proof {
                reveal_strlit("item ");
                reveal_strlit("item `");
                reveal_strlit("`");
                assert(label@ =~= "item `"@ + items.deep_view()[k as int] + "`"@);
            }
            let claims = map.item_claims(items[k].as_str());
            match reject(&claims, &label) {
                Some(r) => {
                    let ghost before = rejected.deep_view();
                    rejected.push(r);
                    assert(rejected.deep_view() =~= before.push(r@));
                    assert(from_spans + item_rejections(m, items.deep_view(), (k + 1) as nat)
                        =~= before.push(r@));
                },
                None => {},
            }
            k = k + 1;
        }
        if rejected.len() == 0 {
            return Ok(());
        }
        let sorted = sort_strings(rejected);
        Err(AnalyzeError { message: join_with_newlines(&sorted) })
    }
}


// ---------------------------------------------------------------------------
// Source ranges.

/// Whether `outer` completely contains `inner` in the same file.
pub open spec fn range_contains(outer: SourceRangeV, inner: SourceRangeV) -> bool {
    &&& inner.file == outer.file
    &&& position_le(outer.start, inner.start)
    &&& position_le(inner.end, outer.end)
    &&& position_le(inner.start, inner.end)
}

impl SourceRange {
    /// Returns whether this range completely contains another range in the same file.
    pub fn contains(&self, range: &SourceRange) -> (r: bool)
        ensures
            r == range_contains(self.deep_view(), range.deep_view()),
    {
        strings_equal(&range.file, &self.file) && self.start.le(&range.start) && range.end.le(
            &self.end,
        ) && range.start.le(&range.end)
    }
}

/// The number of UTF-8 bytes that encode a character.
pub open spec fn utf8_len(c: char) -> int {
    if (c as u32) < 0x80 {
        1
    } else if (c as u32) < 0x800 {
        2
    } else if (c as u32) < 0x10000 {
        3
    } else {
        4
    }
}

/// The number of UTF-8 bytes that encode a text.
pub open spec fn byte_len(s: Seq<char>) -> int
    decreases s.len(),
{
    if s.len() == 0 {
        0
    } else {
        byte_len(s.drop_last()) + utf8_len(s.last())
    }
}

/// Character position of the `n`-th newline at or after `i`, or -1.
pub open spec fn newline_pos(s: Seq<char>, i: int, n: nat) -> int
    decreases s.len() - i,
{
    if i < 0 || i >= s.len() {
        -1
    } else if s[i] == '\n' {
        if n == 0 {
            i
        } else {
            newline_pos(s, i + 1, (n - 1) as nat)
        }
    } else {
        newline_pos(s, i + 1, n)
    }
}

/// Character position where a one-based line starts, or -1 when the text has fewer lines.
pub open spec fn line_start(s: Seq<char>, line: nat) -> int {
    if line <= 1 {
        0
    } else {
        let p = newline_pos(s, 0, (line - 2) as nat);
        if p < 0 {
            -1
        } else {
            p + 1
        }
    }
}

/// Character position of the newline ending the line that starts at `i`, or the text length.
pub open spec fn line_end(s: Seq<char>, i: int) -> int {
    let p = newline_pos(s, i, 0);
    if p < 0 {
        s.len() as int
    } else {
        p
    }
}

/// The UTF-8 byte offset of a line and byte column, or why it lies outside the text.
pub open spec fn byte_offset(pos: SourcePosition, s: Seq<char>) -> Result<int, Seq<char>> {
    if pos.line == 0 {
        Err("line numbers are one-based"@)
    } else {
        let ls = line_start(s, pos.line as nat);
        if ls < 0 {
            Err("line "@ + decimal(pos.line as nat) + " does not exist"@)
        } else {
            let start = byte_len(s.take(ls));
            let end = byte_len(s.take(line_end(s, ls)));
            if start + pos.column > end {
                Err("column "@ + decimal(pos.column as nat) + " is outside line "@ + decimal(pos.line as nat))
            } else {
                Ok(start + pos.column)
            }
        }
    }
}

/// Whether a byte offset falls between two characters, at character position `k`.
pub open spec fn boundary_at(s: Seq<char>, b: int, k: int) -> bool {
    0 <= k <= s.len() && byte_len(s.take(k)) == b
}

/// The text a source range covers, or why it cannot be selected.
pub open spec fn range_text(r: SourceRangeV, s: Seq<char>) -> Result<Seq<char>, Seq<char>> {
    match byte_offset(r.start, s) {
        Err(e) => Err(e),
        Ok(a) => match byte_offset(r.end, s) {
            Err(e) => Err(e),
            Ok(b) => if a > b {
                Err("start is after end"@)
            } else if exists|i: int, j: int| boundary_at(s, a, i) && boundary_at(s, b, j) {
                let (i, j) = choose|i: int, j: int| boundary_at(s, a, i) && boundary_at(s, b, j);
                Ok(s.subrange(i, j))
            } else {
                Err("range does not end on UTF-8 boundaries"@)
            },
        },
    }
}

fn char_width(c: char) -> (r: usize)
    ensures
        r == utf8_len(c),
{
    if (c as u32) < 0x80 {
        1
    } else if (c as u32) < 0x800 {
        2
    } else if (c as u32) < 0x10000 {
        3
    } else {
        4
    }
}

proof fn lemma_byte_len_mono(s: Seq<char>, i: int, j: int)
    requires
        0 <= i <= j <= s.len(),
    ensures
        byte_len(s.take(i)) <= byte_len(s.take(j)),
        i < j ==> byte_len(s.take(i)) < byte_len(s.take(j)),
    decreases j - i,
{
    if i < j {
        lemma_byte_len_mono(s, i, j - 1);
        assert(s.take(j).drop_last() =~= s.take(j - 1));
    }
}

/// Byte widths of every prefix: `r[k]` is the byte length of the first `k` characters.
fn prefix_bytes(s: &Vec<char>) -> (r: Vec<usize>)
    requires
        byte_len(s@) <= usize::MAX,
    ensures
        r@.len() == s@.len() + 1,
        forall|k: int| 0 <= k <= s@.len() ==> #[trigger] r@[k] == byte_len(s@.take(k)),
{
    let mut r: Vec<usize> = Vec::new();
    r.push(0);
    assert(s@.take(0) =~= Seq::<char>::empty());
    let mut k: usize = 0;
    while k < s.len()
        invariant
            k <= s@.len(),
            byte_len(s@) <= usize::MAX,
            r@.len() == k + 1,
            forall|x: int| 0 <= x <= k ==> #[trigger] r@[x] == byte_len(s@.take(x)),
        decreases s@.len() - k,
    {
        proof {
            assert(s@.take(k + 1).drop_last() =~= s@.take(k as int));
            lemma_byte_len_mono(s@, k + 1, s@.len() as int);
            assert(s@.take(s@.len() as int) =~= s@);
        }
        let w = char_width(s[k]);
        let next = r[k] + w;
        r.push(next);
        k = k + 1;
    }
    r
}

fn newline_from(s: &Vec<char>, i: usize, n: usize) -> (r: Option<usize>)
    requires
        i <= s@.len(),
    ensures
        match r {
            Some(p) => newline_pos(s@, i as int, n as nat) == p && i <= p < s.len(),
            None => newline_pos(s@, i as int, n as nat) == -1,
        },
{
    let mut j = i;
    let mut left = n;
    while j < s.len()
        invariant
            i <= j <= s@.len(),
            newline_pos(s@, i as int, n as nat) == newline_pos(s@, j as int, left as nat),
        decreases s@.len() - j,
    {
        if s[j] == '\n' {
            if left == 0 {
                return Some(j);
            }
            left = left - 1;
        }
        j = j + 1;
    }
    None
}

fn position_offset(pos: SourcePosition, s: &Vec<char>, bytes: &Vec<usize>) -> (r: Result<usize, String>)
    requires
        bytes@.len() == s@.len() + 1,
        forall|k: int| 0 <= k <= s@.len() ==> #[trigger] bytes@[k] == byte_len(s@.take(k)),
    ensures
        match r {
            Ok(b) => byte_offset(pos, s@) == Ok::<int, Seq<char>>(b as int),
            Err(e) => byte_offset(pos, s@) == Err::<int, Seq<char>>(e@),
        },
{
    if pos.line == 0 {
        return Err(string_lit("line numbers are one-based"));
    }
    let ls: usize = if pos.line == 1 {
        0
    } else {
        match newline_from(s, 0, pos.line - 2) {
            Some(p) => p + 1,
            None => {
                let mut e = string_lit("line ");
                let n = decimal_string(pos.line);
                append(&mut e, n.as_str());
                append(&mut e, " does not exist");
                return Err(e);
            },
        }
    };
    let le: usize = match newline_from(s, ls, 0) {
        Some(p) => p,
        None => s.len(),
    };
    proof {
        lemma_byte_len_mono(s@, ls as int, le as int);
    }
    let start = bytes[ls];
    let end = bytes[le];
    if pos.column > end - start {
        let mut e = string_lit("column ");
        let c = decimal_string(pos.column);
        append(&mut e, c.as_str());
        append(&mut e, " is outside line ");
        let l = decimal_string(pos.line);
        append(&mut e, l.as_str());
        return Err(e);
    }
    Ok(start + pos.column)
}

fn boundary_index(bytes: &Vec<usize>, b: usize) -> (r: Option<usize>)
    ensures
        match r {
            Some(k) => k < bytes@.len() && bytes@[k as int] == b,
            None => forall|k: int| 0 <= k < bytes@.len() ==> bytes@[k] != b,
        },
{
    let mut k: usize = 0;
    while k < bytes.len()
        invariant
            k <= bytes@.len(),
            forall|x: int| 0 <= x < k ==> bytes@[x] != b,
        decreases bytes@.len() - k,
    {
        if bytes[k] == b {
            return Some(k);
        }
        k = k + 1;
    }
    None
}

impl SourceRange {
    /// Selects this range from an in-memory source file: the text between the byte
    /// offsets its start and end positions name.
    pub fn slice(&self, source: &str) -> (r: Result<String, String>)
        requires
            byte_len(source@) <= usize::MAX,
        ensures
            match r {
                Ok(text) => range_text(self.deep_view(), source@) == Ok::<Seq<char>, Seq<char>>(text@),
                Err(e) => range_text(self.deep_view(), source@) == Err::<Seq<char>, Seq<char>>(e@),
            },
    {
        let s = chars_of(source);
        let bytes = prefix_bytes(&s);
        let a = match position_offset(self.start, &s, &bytes) {
            Ok(a) => a,
            Err(e) => {
                return Err(e);
            },
        };
        let b = match position_offset(self.end, &s, &bytes) {
            Ok(b) => b,
            Err(e) => {
                return Err(e);
            },
        };
        if a > b {
            return Err(string_lit("start is after end"));
        }
        let ghost sv = source@;
        match (boundary_index(&bytes, a), boundary_index(&bytes, b)) {
            (Some(i), Some(j)) => {
                proof {
                    assert(boundary_at(sv, a as int, i as int));
                    assert(boundary_at(sv, b as int, j as int));
                    let (ci, cj) = choose|ci: int, cj: int| boundary_at(sv, a as int, ci) && boundary_at(sv, b as int, cj);
                    if ci < i {
                        lemma_byte_len_mono(sv, ci, i as int);
                    } else if ci > i {
                        lemma_byte_len_mono(sv, i as int, ci);
                    }
                    if cj < j {
                        lemma_byte_len_mono(sv, cj, j as int);
                    } else if cj > j {
                        lemma_byte_len_mono(sv, j as int, cj);
                    }
                    if j < i {
                        lemma_byte_len_mono(sv, j as int, i as int);
                    }
                }
                let mut out: Vec<char> = Vec::new();
                let mut k = i;
                while k < j
                    invariant
                        i <= k <= j <= s@.len(),
                        out@ == s@.subrange(i as int, k as int),
                    decreases j - k,
                {
                    out.push(s[k]);
                    k = k + 1;
                    assert(out@ =~= s@.subrange(i as int, k as int));
                }
                Ok(string_from_chars(out.as_slice()))
            },
            _ => {
                proof {
                    assert(!exists|ci: int, cj: int| boundary_at(sv, a as int, ci) && boundary_at(sv, b as int, cj)) by {
                        if exists|ci: int, cj: int| boundary_at(sv, a as int, ci) && boundary_at(sv, b as int, cj) {
                            let (ci, cj) = choose|ci: int, cj: int| boundary_at(sv, a as int, ci) && boundary_at(sv, b as int, cj);
                            assert(bytes@[ci] == a);
                            assert(bytes@[cj] == b);
                        }
                    }
                }
                Err(string_lit("range does not end on UTF-8 boundaries"))
            },
        }
    }
}

// ---------------------------------------------------------------------------
// Verdicts.

/// ASCII lower case of a character.
pub open spec fn lower(c: char) -> char {
    if 'A' <= c && c <= 'Z' {
        ((c as u32) + 32) as char
    } else {
        c
    }
}

/// Whether `p` occurs in `s`.
pub open spec fn contains_text(s: Seq<char>, p: Seq<char>) -> bool {
    exists|i: int| starts_at(s, i, p)
}

/// Whether an explanation states that a claim is violated.
pub open spec fn states_violation(reason: Seq<char>) -> bool {
    let n = reason.map_values(|c: char| lower(c));
    contains_text(n, " violates "@) || contains_text(n, " violate "@) || contains_text(n, " violated "@)
        || contains_text(n, "contradicts"@) || contains_text(n, "fails to enforce"@)
        || contains_text(n, "failure to enforce"@)
}

/// The first `n` claim ids that the explanation names, in order.
pub open spec fn named_claims(ids: Seq<Seq<char>>, reason: Seq<char>, n: nat) -> Seq<Seq<char>>
    decreases n,
{
    if n == 0 || n > ids.len() {
        Seq::empty()
    } else {
        let prev = named_claims(ids, reason, (n - 1) as nat);
        if contains_text(reason, ids[n - 1]) {
            prev.push(ids[n - 1])
        } else {
            prev
        }
    }
}

/// A verdict after repair: an indeterminate explanation that states a violation of a
/// supplied claim becomes an implementation violation over every audited range.
pub open spec fn normalized(v: AnalysisVerdictV, ids: Seq<Seq<char>>, ranges: Seq<SourceRangeV>) -> AnalysisVerdictV {
    match v {
        AnalysisVerdictV::Indeterminate { reason } => {
            let claims = named_claims(ids, reason, ids.len());
            if states_violation(reason) && claims.len() > 0 {
                AnalysisVerdictV::Fail {
                    findings: seq![AnalysisFindingV {
                        kind: FindingKind::ImplementationViolation,
                        claims,
                        ranges,
                        reason,
                    }],
                }
            } else {
                v
            }
        },
        _ => v,
    }
}

fn lower_char(c: char) -> (r: char)
    ensures
        r == lower(c),
{
    if 'A' <= c && c <= 'Z' {
        ((c as u8) + 32) as char
    } else {
        c
    }
}

fn text_contains(s: &Vec<char>, p: &str) -> (r: bool)
    ensures
        r == contains_text(s@, p@),
{
    let pv = chars_of(p);
    let mut i: usize = 0;
    while i < s.len()
        invariant
            i <= s@.len(),
            pv@ == p@,
            forall|x: int| 0 <= x < i ==> !starts_at(s@, x, p@),
        decreases s@.len() - i,
    {
        if crate::docs::occurs_at(s, i, &pv) {
            return true;
        }
        i = i + 1;
    }
    if crate::docs::occurs_at(s, i, &pv) {
        return true;
    }
    proof {
        assert forall|x: int| !starts_at(s@, x, p@) by {
            if x > s@.len() as int || x < 0 {
            } else if x < i {
            } else {
                assert(x == i);
            }
        }
    }
    false
}

fn clone_ranges(v: &Vec<SourceRange>) -> (r: Vec<SourceRange>)
    ensures
        r.deep_view() == v.deep_view(),
{
    let mut r: Vec<SourceRange> = Vec::new();
    let mut k: usize = 0;
    while k < v.len()
        invariant
            k <= v.len(),
            r@.len() == k,
            forall|x: int| 0 <= x < k ==> #[trigger] r@[x].deep_view() == v@[x].deep_view(),
        decreases v.len() - k,
    {
        r.push(v[k].duplicate());
        k = k + 1;
    }
    assert(r.deep_view() =~= v.deep_view());
    r
}

impl AnalysisVerdict {
    /// Converts a contradictory indeterminate verdict into a concrete failure.
    ///
    /// `claim_ids` lists the supplied claim identifiers in ascending order.
    pub fn normalize(self, claim_ids: &Vec<String>, source_ranges: &Vec<SourceRange>) -> (r: AnalysisVerdict)
        requires
            strictly_sorted(claim_ids.deep_view()),
        ensures
            r.deep_view() == normalized(self.deep_view(), claim_ids.deep_view(), source_ranges.deep_view()),
    {
        let reason = match self {
            AnalysisVerdict::Indeterminate { reason } => reason,
            other => {
                return other;
            },
        };
        let rv = chars_of(reason.as_str());
        let mut lowered: Vec<char> = Vec::new();
        let mut k: usize = 0;
        while k < rv.len()
            invariant
                k <= rv@.len(),
                lowered@ == rv@.take(k as int).map_values(|c: char| lower(c)),
            decreases rv@.len() - k,
        {
            lowered.push(lower_char(rv[k]));
            k = k + 1;
            assert(lowered@ =~= rv@.take(k as int).map_values(|c: char| lower(c)));
        }
        assert(rv@.take(rv@.len() as int) =~= rv@);
        proof {
            reveal_strlit(" violates ");
        }
        let states = text_contains(&lowered, " violates ") || text_contains(&lowered, " violate ")
            || text_contains(&lowered, " violated ") || text_contains(&lowered, "contradicts")
            || text_contains(&lowered, "fails to enforce") || text_contains(
            &lowered,
            "failure to enforce",
        );
        let ghost iv = claim_ids.deep_view();
        let mut claims: Vec<String> = Vec::new();
        assert(claims.deep_view() =~= Seq::<Seq<char>>::empty());
        let mut k: usize = 0;
        while k < claim_ids.len()
            invariant
                k <= claim_ids.len(),
                iv == claim_ids.deep_view(),
                rv@ == reason@,
                claims.deep_view() == named_claims(iv, reason@, k as nat),
            decreases claim_ids.len() - k,
        {
            if text_contains(&rv, claim_ids[k].as_str()) {
                let ghost before = claims.deep_view();
                claims.push(claim_ids[k].clone());
                assert(claims.deep_view() =~= before.push(iv[k as int]));
            }
            k = k + 1;
        }
        if !states || claims.len() == 0 {
            return AnalysisVerdict::Indeterminate { reason };
        }
        let finding = AnalysisFinding {
            kind: FindingKind::ImplementationViolation,
            claims,
            ranges: clone_ranges(source_ranges),
            reason,
        };
        let mut findings: Vec<AnalysisFinding> = Vec::new();
        findings.push(finding);
        let r = AnalysisVerdict::Fail { findings };
        proof {
            assert(r.deep_view() == normalized(self.deep_view(), iv, source_ranges.deep_view())) by {
                assert(findings@.len() == 1);
                assert(findings.deep_view() =~= seq![finding.deep_view()]);
            }
        }
        r
    }
}

/// The first of the claims from position `k` on that is not a supplied id.
pub open spec fn unknown_claim_from(claims: Seq<Seq<char>>, ids: Seq<Seq<char>>, k: int) -> Option<Seq<char>>
    decreases claims.len() - k,
{
    if k < 0 || k >= claims.len() {
        None
    } else if !ids.contains(claims[k]) {
        Some(claims[k])
    } else {
        unknown_claim_from(claims, ids, k + 1)
    }
}

/// Whether a text is empty or only whitespace.
pub open spec fn is_blank(s: Seq<char>) -> bool {
    forall|i: int| 0 <= i < s.len() ==> is_whitespace(#[trigger] s[i])
}

/// Whether a range lies inside some audited range.
pub open spec fn range_allowed(r: SourceRangeV, allowed: Seq<SourceRangeV>) -> bool {
    exists|k: int| 0 <= k < allowed.len() && range_contains(#[trigger] allowed[k], r)
}

/// Why one finding is invalid, if it is.
pub open spec fn finding_error(f: AnalysisFindingV, ids: Seq<Seq<char>>, allowed: Seq<SourceRangeV>) -> Option<Seq<char>> {
    if f.claims.len() == 0 {
        Some("Ollama returned a finding without claim IDs"@)
    } else {
        match unknown_claim_from(f.claims, ids, 0) {
            Some(c) => Some("Ollama returned unknown claim ID `"@ + c + "`"@),
            None => if f.ranges.len() == 0 {
                Some("Ollama returned a finding without source ranges"@)
            } else if exists|k: int| 0 <= k < f.ranges.len() && !range_allowed(#[trigger] f.ranges[k], allowed) {
                Some("Ollama returned a source range outside the audited sources"@)
            } else if is_blank(f.reason) {
                Some("Ollama returned a finding without a reason"@)
            } else {
                None
            },
        }
    }
}

/// The error of the first invalid finding from position `k` on.
pub open spec fn findings_error_from(fs: Seq<AnalysisFindingV>, ids: Seq<Seq<char>>, allowed: Seq<SourceRangeV>, k: int) -> Option<Seq<char>>
    decreases fs.len() - k,
{
    if k < 0 || k >= fs.len() {
        None
    } else {
        match finding_error(fs[k], ids, allowed) {
            Some(e) => Some(e),
            None => findings_error_from(fs, ids, allowed, k + 1),
        }
    }
}

/// Why a verdict is invalid: a failure needs findings, each with supplied claim ids,
/// ranges inside the audited sources, and a reason.
pub open spec fn verdict_error(v: AnalysisVerdictV, ids: Seq<Seq<char>>, allowed: Seq<SourceRangeV>) -> Option<Seq<char>> {
    match v {
        AnalysisVerdictV::Fail { findings } => if findings.len() == 0 {
            Some("Ollama returned Fail without findings"@)
        } else {
            findings_error_from(findings, ids, allowed, 0)
        },
        _ => None,
    }
}

pub(crate) fn blank(s: &String) -> (r: bool)
    ensures
        r == is_blank(s@),
{
    let v = chars_of(s.as_str());
    let mut k: usize = 0;
    while k < v.len()
        invariant
            k <= v@.len(),
            v@ == s@,
            forall|x: int| 0 <= x < k ==> is_whitespace(#[trigger] v@[x]),
        decreases v@.len() - k,
    {
        if !crate::docs::whitespace_char(v[k]) {
            assert(!is_whitespace(v@[k as int]));
            return false;
        }
        k = k + 1;
    }
    true
}

fn allowed_range(r: &SourceRange, allowed: &Vec<SourceRange>) -> (b: bool)
    ensures
        b == range_allowed(r.deep_view(), allowed.deep_view()),
{
    let ghost av = allowed.deep_view();
    let mut k: usize = 0;
    while k < allowed.len()
        invariant
            k <= allowed.len(),
            av == allowed.deep_view(),
            forall|x: int| 0 <= x < k ==> !range_contains(#[trigger] av[x], r.deep_view()),
        decreases allowed.len() - k,
    {
        if allowed[k].contains(r) {
            assert(range_contains(av[k as int], r.deep_view()));
            return true;
        }
        k = k + 1;
    }
    false
}

fn check_finding(f: &AnalysisFinding, ids: &Vec<String>, allowed: &Vec<SourceRange>) -> (r: Option<String>)
    ensures
        r.deep_view() == finding_error(f.deep_view(), ids.deep_view(), allowed.deep_view()),
{
    let ghost fv = f.deep_view();
    if f.claims.len() == 0 {
        return Some(string_lit("Ollama returned a finding without claim IDs"));
    }
    let mut k: usize = 0;
    while k < f.claims.len()
        invariant
            k <= f.claims.len(),
            fv == f.deep_view(),
            unknown_claim_from(fv.claims, ids.deep_view(), 0) == unknown_claim_from(fv.claims, ids.deep_view(), k as int),
        decreases f.claims.len() - k,
    {
        if !contains_string(ids, &f.claims[k]) {
            let mut e = string_lit("Ollama returned unknown claim ID `");
            append(&mut e, f.claims[k].as_str());
            append(&mut e, "`");
            return Some(e);
        }
        k = k + 1;
    }
    if f.ranges.len() == 0 {
        return Some(string_lit("Ollama returned a finding without source ranges"));
    }
    let mut k: usize = 0;
    while k < f.ranges.len()
        invariant
            k <= f.ranges.len(),
            fv == f.deep_view(),
            fv.claims.len() > 0,
            fv.ranges.len() > 0,
            unknown_claim_from(fv.claims, ids.deep_view(), 0) is None,
            forall|x: int| 0 <= x < k ==> range_allowed(#[trigger] fv.ranges[x], allowed.deep_view()),
        decreases f.ranges.len() - k,
    {
        if !allowed_range(&f.ranges[k], allowed) {
            assert(!range_allowed(fv.ranges[k as int], allowed.deep_view()));
            return Some(string_lit("Ollama returned a source range outside the audited sources"));
        }
        k = k + 1;
    }
    if blank(&f.reason) {
        return Some(string_lit("Ollama returned a finding without a reason"));
    }
    None
}

impl AnalysisVerdict {
    /// Validates claim identifiers, source ranges, and reasons in a failure verdict.
    ///
    /// `claim_ids` lists the supplied claim identifiers in ascending order.
    pub fn validate(&self, claim_ids: &Vec<String>, source_ranges: &Vec<SourceRange>) -> (r: Result<(), String>)
        requires
            strictly_sorted(claim_ids.deep_view()),
        ensures
            match r {
                Ok(()) => verdict_error(self.deep_view(), claim_ids.deep_view(), source_ranges.deep_view()) is None,
                Err(e) => verdict_error(self.deep_view(), claim_ids.deep_view(), source_ranges.deep_view()) == Some(e@),
            },
    {
        if let AnalysisVerdict::Fail { findings } = self {
            let ghost fs = findings.deep_view();
            if findings.len() == 0 {
                return Err(string_lit("Ollama returned Fail without findings"));
            }
            let mut k: usize = 0;
            while k < findings.len()
                invariant
                    k <= findings.len(),
                    fs == findings.deep_view(),
                    fs.len() > 0,
                    self.deep_view() == (AnalysisVerdictV::Fail { findings: fs }),
                    findings_error_from(fs, claim_ids.deep_view(), source_ranges.deep_view(), 0)
                        == findings_error_from(fs, claim_ids.deep_view(), source_ranges.deep_view(), k as int),
                decreases findings.len() - k,
            {
                match check_finding(&findings[k], claim_ids, source_ranges) {
                    Some(e) => {
                        return Err(e);
                    },
                    None => {},
                }
                k = k + 1;
            }
        }
        Ok(())
    }
}


// ---------------------------------------------------------------------------
// Jobs.

/// One Rust item's source range supplied to the model (its text is read separately).
#[derive(Debug)]
pub struct AnalysisSource {
    pub item: String,
    pub source: SourceRange,
}

/// Mathematical value of an [`AnalysisSource`].
pub struct AnalysisSourceV {
    pub item: Seq<char>,
    pub source: SourceRangeV,
}

impl DeepView for AnalysisSource {
    type V = AnalysisSourceV;

    open spec fn deep_view(&self) -> AnalysisSourceV {
        AnalysisSourceV { item: self.item@, source: self.source.deep_view() }
    }
}

/// One independent semantic analysis unit of work.
#[derive(Debug)]
pub struct AnalysisJob {
    pub target: AnalysisTarget,
    pub sources: Vec<AnalysisSource>,
    pub claims: Vec<ProjectedClaim>,
}

/// Mathematical value of an [`AnalysisJob`].
pub struct AnalysisJobV {
    pub target: AnalysisTargetV,
    pub sources: Seq<AnalysisSourceV>,
    pub claims: Seq<ProjectedClaimV>,
}

impl DeepView for AnalysisJob {
    type V = AnalysisJobV;

    open spec fn deep_view(&self) -> AnalysisJobV {
        AnalysisJobV {
            target: self.target.deep_view(),
            sources: self.sources.deep_view(),
            claims: self.claims.deep_view(),
        }
    }
}

/// The sources of the first `n` members of a span, or the first member without an item.
pub open spec fn member_sources(m: KnowledgeMapV, members: Seq<Seq<char>>, n: nat) -> Result<Seq<AnalysisSourceV>, Seq<char>>
    decreases n,
{
    if n == 0 || n > members.len() {
        Ok(Seq::empty())
    } else {
        match member_sources(m, members, (n - 1) as nat) {
            Err(e) => Err(e),
            Ok(prev) => match find_item(m.items, members[n - 1]) {
                Some(k) => Ok(prev.push(AnalysisSourceV { item: members[n - 1], source: m.items[k].1.source })),
                None => Err("span member `"@ + members[n - 1] + "` has no emitted source item"@),
            },
        }
    }
}

/// The jobs of the first `n` spans: each selected span that owns a claim, audited against
/// its direct members.
pub open spec fn span_jobs(m: KnowledgeMapV, f: TargetFilterV, n: nat) -> Result<Seq<AnalysisJobV>, Seq<char>>
    decreases n,
{
    if n == 0 || n > m.spans.len() {
        Ok(Seq::empty())
    } else {
        match span_jobs(m, f, (n - 1) as nat) {
            Err(e) => Err(e),
            Ok(prev) => {
                let sp = m.spans[n - 1];
                let claims = match span_claims_spec(m.spans, sp.id) {
                    Some(c) => c,
                    None => Seq::empty(),
                };
                if !selects_span(f, sp.id) || claims.len() == 0 {
                    Ok(prev)
                } else {
                    match member_sources(m, sp.members, sp.members.len()) {
                        Ok(sources) => Ok(prev.push(AnalysisJobV { target: AnalysisTargetV::Span { id: sp.id }, sources, claims })),
                        Err(e) => Err(e),
                    }
                }
            },
        }
    }
}

/// The jobs of the first `n` items: each selected item that owns or inherits a claim.
pub open spec fn item_jobs(m: KnowledgeMapV, f: TargetFilterV, n: nat) -> Seq<AnalysisJobV>
    decreases n,
{
    if n == 0 || n > m.items.len() {
        Seq::empty()
    } else {
        let prev = item_jobs(m, f, (n - 1) as nat);
        let path = m.items[n - 1].0;
        let claims = match item_claims_spec(m.spans, m.items, path) {
            Some(c) => c,
            None => Seq::empty(),
        };
        if !selects_item(f, path) || claims.len() == 0 {
            prev
        } else {
            prev.push(AnalysisJobV {
                target: AnalysisTargetV::Item { path },
                sources: seq![AnalysisSourceV { item: path, source: m.items[n - 1].1.source }],
                claims,
            })
        }
    }
}

/// Every analysis job of a selection: span jobs in span order, then item jobs in item order.
pub open spec fn analysis_jobs(m: KnowledgeMapV, f: TargetFilterV) -> Result<Seq<AnalysisJobV>, Seq<char>> {
    match selection_error(f, m) {
        Some(e) => Err(e),
        None => match span_jobs(m, f, m.spans.len()) {
            Err(e) => Err(e),
            Ok(a) => Ok(a + item_jobs(m, f, m.items.len())),
        },
    }
}

proof fn lemma_member_sources_err(m: KnowledgeMapV, members: Seq<Seq<char>>, n: nat, n2: nat)
    requires
        n <= n2 <= members.len(),
        member_sources(m, members, n) is Err,
    ensures
        member_sources(m, members, n2) == member_sources(m, members, n),
    decreases n2 - n,
{
    if n < n2 {
        lemma_member_sources_err(m, members, n, (n2 - 1) as nat);
    }
}

proof fn lemma_span_jobs_err(m: KnowledgeMapV, f: TargetFilterV, n: nat, n2: nat)
    requires
        n <= n2 <= m.spans.len(),
        span_jobs(m, f, n) is Err,
    ensures
        span_jobs(m, f, n2) == span_jobs(m, f, n),
    decreases n2 - n,
{
    if n < n2 {
        lemma_span_jobs_err(m, f, n, (n2 - 1) as nat);
    }
}

fn sources_of_members(map: &KnowledgeMap, members: &Vec<String>) -> (r: Result<Vec<AnalysisSource>, String>)
    ensures
        match r {
            Ok(v) => member_sources(map.deep_view(), members.deep_view(), members.len() as nat) == Ok::<Seq<AnalysisSourceV>, Seq<char>>(v.deep_view()),
            Err(e) => member_sources(map.deep_view(), members.deep_view(), members.len() as nat) == Err::<Seq<AnalysisSourceV>, Seq<char>>(e@),
        },
{
    let ghost m = map.deep_view();
    let ghost mv = members.deep_view();
    let mut out: Vec<AnalysisSource> = Vec::new();
    assert(out.deep_view() =~= Seq::<AnalysisSourceV>::empty());
    let mut k: usize = 0;
    while k < members.len()
        invariant
            k <= members.len(),
            m == map.deep_view(),
            mv == members.deep_view(),
            member_sources(m, mv, k as nat) == Ok::<Seq<AnalysisSourceV>, Seq<char>>(out.deep_view()),
        decreases members.len() - k,
    {
        match map.item_index(members[k].as_str()) {
            Some(j) => {
                let src = AnalysisSource { item: members[k].clone(), source: map.items[j].1.source.duplicate() };
                let ghost before = out.deep_view();
                out.push(src);
                assert(out.deep_view() =~= before.push(AnalysisSourceV { item: mv[k as int], source: m.items[j as int].1.source }));
            },
            None => {
                let e = quoted("span member ", &members[k]);
                let mut e = e;
                append(&mut e, " has no emitted source item");
                proof {
                    reveal_strlit("span member ");
                    reveal_strlit("span member `");
                    reveal_strlit("`");
                    reveal_strlit("` has no emitted source item");
                    reveal_strlit(" has no emitted source item");
                    assert(e@ =~= "span member `"@ + mv[k as int] + "` has no emitted source item"@);
                    assert(member_sources(m, mv, (k + 1) as nat) == Err::<Seq<AnalysisSourceV>, Seq<char>>(e@));
                    lemma_member_sources_err(m, mv, (k + 1) as nat, mv.len());
                }
                return Err(e);
            },
        }
        k = k + 1;
    }
    Ok(out)
}

impl AnalysisJob {
    /// Prepares separate analysis jobs for span-owned and item-owned claims.
    pub fn prepare_all(map: &KnowledgeMap, targets: &TargetFilter) -> (r: Result<Vec<AnalysisJob>, AnalyzeError>)
        requires
            axes_complete(map.deep_view()),
        ensures
            match r {
                Ok(jobs) => analysis_jobs(map.deep_view(), targets.deep_view()) == Ok::<Seq<AnalysisJobV>, Seq<char>>(jobs.deep_view()),
                Err(e) => analysis_jobs(map.deep_view(), targets.deep_view()) == Err::<Seq<AnalysisJobV>, Seq<char>>(e.message@),
            },
    {
        match targets.validate(map) {
            Ok(()) => {},
            Err(e) => {
                return Err(e);
            },
        }
        let ghost m = map.deep_view();
        let ghost f = targets.deep_view();
        let mut jobs: Vec<AnalysisJob> = Vec::new();
        assert(jobs.deep_view() =~= Seq::<AnalysisJobV>::empty());
        let mut k: usize = 0;
        while k < map.spans.len()
            invariant
                k <= map.spans.len(),
                m == map.deep_view(),
                f == targets.deep_view(),
                axes_complete(m),
                selection_error(f, m) is None,
                span_jobs(m, f, k as nat) == Ok::<Seq<AnalysisJobV>, Seq<char>>(jobs.deep_view()),
            decreases map.spans.len() - k,
        {
            let span = &map.spans[k];
            let claims = match map.span_claims(span.id.as_str()) {
                Some(c) => c,
                None => {
                    let none: Vec<ProjectedClaim> = Vec::new();
                    assert(none.deep_view() =~= Seq::<ProjectedClaimV>::empty());
                    none
                },
            };
            if targets.selects_span(&span.id) && claims.len() > 0 {
                match sources_of_members(map, &span.members) {
                    Ok(sources) => {
                        let job = AnalysisJob { target: AnalysisTarget::Span { id: span.id.clone() }, sources, claims };
                        let ghost before = jobs.deep_view();
                        let ghost jv = job.deep_view();
                        jobs.push(job);
                        assert(jobs.deep_view() =~= before.push(jv));
                    },
                    Err(e) => {
                        proof {
                            assert(span_jobs(m, f, (k + 1) as nat) == Err::<Seq<AnalysisJobV>, Seq<char>>(e@));
                            lemma_span_jobs_err(m, f, (k + 1) as nat, m.spans.len());
                        }
                        return Err(AnalyzeError { message: e });
                    },
                }
            }
            k = k + 1;
        }
        let ghost from_spans = jobs.deep_view();
        let mut k: usize = 0;
        while k < map.items.len()
            invariant
                k <= map.items.len(),
                m == map.deep_view(),
                f == targets.deep_view(),
                axes_complete(m),
                span_jobs(m, f, m.spans.len()) == Ok::<Seq<AnalysisJobV>, Seq<char>>(from_spans),
                jobs.deep_view() == from_spans + item_jobs(m, f, k as nat),
            decreases map.items.len() - k,
        {
            let path = &map.items[k].0;
            let claims = match map.item_claims(path.as_str()) {
                Some(c) => c,
                None => {
                    let none: Vec<ProjectedClaim> = Vec::new();
                    assert(none.deep_view() =~= Seq::<ProjectedClaimV>::empty());
                    none
                },
            };
            if targets.selects_item(path) && claims.len() > 0 {
                let mut sources: Vec<AnalysisSource> = Vec::new();
                sources.push(AnalysisSource { item: path.clone(), source: map.items[k].1.source.duplicate() });
                let job = AnalysisJob { target: AnalysisTarget::Item { path: path.clone() }, sources, claims };
                let ghost before = jobs.deep_view();
                let ghost jv = job.deep_view();
                jobs.push(job);
                proof {
                    assert(job.sources.deep_view() =~= seq![AnalysisSourceV { item: m.items[k as int].0, source: m.items[k as int].1.source }]);
                    assert(jobs.deep_view() =~= before.push(jv));
                }
            }
            k = k + 1;
        }
        Ok(jobs)
    }
}

// ---------------------------------------------------------------------------
// Requests.

/// One claim as sent to the model.
#[derive(Debug)]
pub struct RequestClaim {
    pub id: String,
    pub owner: String,
    pub kind: ClaimKind,
    pub axis: Axis,
    pub proposition: String,
}

/// Mathematical value of a [`RequestClaim`].
pub struct RequestClaimV {
    pub id: Seq<char>,
    pub owner: Seq<char>,
    pub kind: ClaimKind,
    pub axis: Axis,
    pub proposition: Seq<char>,
}

impl DeepView for RequestClaim {
    type V = RequestClaimV;

    open spec fn deep_view(&self) -> RequestClaimV {
        RequestClaimV { id: self.id@, owner: self.owner@, kind: self.kind, axis: self.axis, proposition: self.proposition@ }
    }
}

/// A projected claim as sent to the model.
pub open spec fn request_claim(c: ProjectedClaimV) -> RequestClaimV {
    RequestClaimV { id: full_id(c), owner: c.owner, kind: c.claim.kind, axis: c.axis, proposition: c.claim.text }
}

/// The first `n` claims split into those the target owns (its obligations) and those it
/// inherits (its context), each in projection order.
pub open spec fn split_claims(claims: Seq<ProjectedClaimV>, label: Seq<char>, n: nat) -> (Seq<RequestClaimV>, Seq<RequestClaimV>)
    decreases n,
{
    if n == 0 || n > claims.len() {
        (Seq::empty(), Seq::empty())
    } else {
        let (own, context) = split_claims(claims, label, (n - 1) as nat);
        let c = claims[n - 1];
        if c.owner == label {
            (own.push(request_claim(c)), context)
        } else {
            (own, context.push(request_claim(c)))
        }
    }
}

/// Splits a job's claims into the target's own obligations and its inherited context.
pub fn split_request_claims(target: &AnalysisTarget, claims: &Vec<ProjectedClaim>) -> (r: (Vec<RequestClaim>, Vec<RequestClaim>))
    ensures
        (r.0.deep_view(), r.1.deep_view()) == split_claims(claims.deep_view(), target_label(target.deep_view()), claims.len() as nat),
{
    let label = target.label();
    let ghost cv = claims.deep_view();
    let mut own: Vec<RequestClaim> = Vec::new();
    let mut context: Vec<RequestClaim> = Vec::new();
    assert(own.deep_view() =~= Seq::<RequestClaimV>::empty());
    assert(context.deep_view() =~= Seq::<RequestClaimV>::empty());
    let mut k: usize = 0;
    while k < claims.len()
        invariant
            k <= claims.len(),
            cv == claims.deep_view(),
            label@ == target_label(target.deep_view()),
            (own.deep_view(), context.deep_view()) == split_claims(cv, label@, k as nat),
        decreases claims.len() - k,
    {
        let c = &claims[k];
        let rc = RequestClaim {
            id: full_claim_id(c),
            owner: c.owner.clone(),
            kind: c.claim.kind,
            axis: c.axis,
            proposition: c.claim.text.clone(),
        };
        let ghost rv = rc.deep_view();
        assert(rv == request_claim(cv[k as int]));
        if strings_equal(&c.owner, &label) {
            let ghost before = own.deep_view();
            own.push(rc);
            assert(own.deep_view() =~= before.push(rv));
        } else {
            let ghost before = context.deep_view();
            context.push(rc);
            assert(context.deep_view() =~= before.push(rv));
        }
        k = k + 1;
    }
    (own, context)
}

// ---------------------------------------------------------------------------
// Configuration.

/// The effective analyzer configuration for one package.
#[derive(Debug)]
pub struct AnalyzerConfig {
    pub provider: String,
    pub model: String,
    pub base_url: String,
    pub max_concurrency: usize,
    pub timeout_seconds: u64,
    pub max_output_tokens: u64,
}

/// Package-level analyzer overrides, field by field.
#[derive(Debug)]
pub struct AnalyzerConfigOverride {
    pub provider: Option<String>,
    pub model: Option<String>,
    pub base_url: Option<String>,
    pub max_concurrency: Option<usize>,
    pub timeout_seconds: Option<u64>,
    pub max_output_tokens: Option<u64>,
}

/// The default local Ollama endpoint.
pub fn default_base_url() -> (r: String)
    ensures
        r@ == "http://localhost:11434"@,
{
    string_lit("http://localhost:11434")
}

/// The default maximum number of concurrent model requests.
pub fn default_concurrency() -> (r: usize)
    ensures
        r == 1,
{
    1
}

/// The default model request timeout in seconds.
pub fn default_timeout() -> (r: u64)
    ensures
        r == 300,
{
    300
}

/// The default model output-token limit.
pub fn default_output_tokens() -> (r: u64)
    ensures
        r == 2048,
{
    2048
}

/// Why a configuration cannot run: the first failed rule, in the order they are checked.
pub open spec fn config_error(provider: Seq<char>, model: Seq<char>, concurrency: usize, timeout: u64, tokens: u64) -> Option<Seq<char>> {
    if provider != "ollama"@ {
        Some("unsupported analyzer provider `"@ + provider + "`; this build supports `ollama`"@)
    } else if is_blank(model) {
        Some("analyze.model must be a local Ollama model tag"@)
    } else if concurrency == 0 {
        Some("analyze.max_concurrency must be greater than zero"@)
    } else if timeout == 0 {
        Some("analyze.timeout_seconds must be greater than zero"@)
    } else if tokens == 0 {
        Some("analyze.max_output_tokens must be greater than zero"@)
    } else {
        None
    }
}

/// An optional override applied over a value.
pub open spec fn over<T>(value: T, o: Option<T>) -> T {
    match o {
        Some(v) => v,
        None => value,
    }
}

fn override_string(value: &mut String, o: &Option<String>)
    ensures
        final(value)@ == over(old(value)@, o.deep_view()),
{
    match o {
        Some(v) => {
            *value = v.clone();
        },
        None => {},
    }
}

impl AnalyzerConfig {
    /// Validates the configured provider and resource limits.
    pub fn validate(&self) -> (r: Result<(), AnalyzeError>)
        ensures
            match r {
                Ok(()) => config_error(self.provider@, self.model@, self.max_concurrency, self.timeout_seconds, self.max_output_tokens) is None,
                Err(e) => config_error(self.provider@, self.model@, self.max_concurrency, self.timeout_seconds, self.max_output_tokens) == Some(e.message@),
            },
    {
        if !same_string(&self.provider, "ollama") {
            let mut e = string_lit("unsupported analyzer provider `");
            append(&mut e, self.provider.as_str());
            append(&mut e, "`; this build supports `ollama`");
            return Err(AnalyzeError { message: e });
        }
        if blank(&self.model) {
            return Err(AnalyzeError { message: string_lit("analyze.model must be a local Ollama model tag") });
        }
        if self.max_concurrency == 0 {
            return Err(AnalyzeError { message: string_lit("analyze.max_concurrency must be greater than zero") });
        }
        if self.timeout_seconds == 0 {
            return Err(AnalyzeError { message: string_lit("analyze.timeout_seconds must be greater than zero") });
        }
        if self.max_output_tokens == 0 {
            return Err(AnalyzeError { message: string_lit("analyze.max_output_tokens must be greater than zero") });
        }
        Ok(())
    }

    /// Applies a package's overrides over the workspace table, field by field.
    pub fn apply_overrides(&mut self, o: &AnalyzerConfigOverride)
        ensures
            final(self).provider@ == over(old(self).provider@, o.provider.deep_view()),
            final(self).model@ == over(old(self).model@, o.model.deep_view()),
            final(self).base_url@ == over(old(self).base_url@, o.base_url.deep_view()),
            final(self).max_concurrency == over(old(self).max_concurrency, o.max_concurrency),
            final(self).timeout_seconds == over(old(self).timeout_seconds, o.timeout_seconds),
            final(self).max_output_tokens == over(old(self).max_output_tokens, o.max_output_tokens),
    {
        override_string(&mut self.provider, &o.provider);
        override_string(&mut self.model, &o.model);
        override_string(&mut self.base_url, &o.base_url);
        match o.max_concurrency {
            Some(v) => {
                self.max_concurrency = v;
            },
            None => {},
        }
        match o.timeout_seconds {
            Some(v) => {
                self.timeout_seconds = v;
            },
            None => {},
        }
        match o.max_output_tokens {
            Some(v) => {
                self.max_output_tokens = v;
            },
            None => {},
        }
    }
}

/// Resolves the configuration of one run from the parsed configuration file at `path`:
/// the workspace `[analyze]` table, the package's overrides, then a `--jobs` count, checked.
pub fn resolve_config(
    analyze: Option<AnalyzerConfig>,
    package: Option<AnalyzerConfigOverride>,
    jobs: Option<usize>,
    path: &str,
) -> (r: Result<AnalyzerConfig, AnalyzeError>)
    ensures
        analyze is None ==> r is Err && r->Err_0.message@ == path@ + " has no [analyze] table"@,
        analyze is Some ==> {
            let a = analyze->Some_0;
            let provider = match package { Some(o) => over(a.provider@, o.provider.deep_view()), None => a.provider@ };
            let model = match package { Some(o) => over(a.model@, o.model.deep_view()), None => a.model@ };
            let base_url = match package { Some(o) => over(a.base_url@, o.base_url.deep_view()), None => a.base_url@ };
            let concurrency = over(match package { Some(o) => over(a.max_concurrency, o.max_concurrency), None => a.max_concurrency }, jobs);
            let timeout = match package { Some(o) => over(a.timeout_seconds, o.timeout_seconds), None => a.timeout_seconds };
            let tokens = match package { Some(o) => over(a.max_output_tokens, o.max_output_tokens), None => a.max_output_tokens };
            match r {
                Ok(c) => c.provider@ == provider && c.model@ == model && c.base_url@ == base_url
                    && c.max_concurrency == concurrency && c.timeout_seconds == timeout
                    && c.max_output_tokens == tokens
                    && config_error(provider, model, concurrency, timeout, tokens) is None,
                Err(e) => config_error(provider, model, concurrency, timeout, tokens) == Some(e.message@),
            }
        },
{
    let mut config = match analyze {
        Some(c) => c,
        None => {
            return Err(AnalyzeError { message: concat(path, " has no [analyze] table") });
        },
    };
    match &package {
        Some(o) => config.apply_overrides(o),
        None => {},
    }
    match jobs {
        Some(n) => {
            config.max_concurrency = n;
        },
        None => {},
    }
    match config.validate() {
        Ok(()) => Ok(config),
        Err(e) => Err(e),
    }
}

// ---------------------------------------------------------------------------
// Report order.

/// The labels of analyzed targets.
pub open spec fn result_labels(rs: Seq<AnalyzedTarget>) -> Seq<Seq<char>> {
    rs.map_values(|r: AnalyzedTarget| target_label(r.target.deep_view()))
}

/// `p` shows that `out` holds exactly the elements of `inp`, rearranged.
pub open spec fn is_permutation<T>(out: Seq<T>, inp: Seq<T>, p: Seq<int>) -> bool {
    &&& p.len() == out.len()
    &&& out.len() == inp.len()
    &&& forall|k: int| 0 <= k < p.len() ==> 0 <= #[trigger] p[k] < inp.len() && out[k] == inp[p[k]]
    &&& forall|k: int, l: int| 0 <= k < l < p.len() ==> p[k] != p[l]
}

/// Orders analysis results by target label.
pub fn sort_by_label(results: Vec<AnalyzedTarget>) -> (r: Vec<AnalyzedTarget>)
    ensures
        result_labels(r@) == sorted_strings(result_labels(results@), results@.len() as nat),
        exists|p: Seq<int>| is_permutation(r@, results@, p),
{
    let ghost orig = results@;
    let ghost labels = result_labels(orig);
    let total = results.len();
    let mut rest = results;
    let mut out: Vec<AnalyzedTarget> = Vec::new();
    let mut out_labels: Vec<String> = Vec::new();
    let ghost mut p: Seq<int> = Seq::empty();
    let mut n: usize = 0;
    assert(orig.skip(0) =~= orig);
    assert(out_labels.deep_view() =~= Seq::<Seq<char>>::empty());
    assert(result_labels(out@) =~= Seq::<Seq<char>>::empty());
    while rest.len() > 0
        invariant
            n <= orig.len(),
            total == orig.len(),
            rest@ == orig.skip(n as int),
            labels == result_labels(orig),
            out_labels.deep_view() == result_labels(out@),
            result_labels(out@) == sorted_strings(labels, n as nat),
            is_permutation(out@, orig.take(n as int), p),
        decreases rest@.len(),
    {
        let x = rest.remove(0);
        assert(x == orig[n as int]);
        let l = x.target.label();
        let k = insert_position(&out_labels, &l);
        let ghost before = out@;
        let ghost before_labels = out_labels.deep_view();
        out_labels.insert(k, l);
        out.insert(k, x);
        proof {
            assert(rest@ =~= orig.skip(n + 1));
            let np = p.insert(k as int, n as int);
            assert(out@ =~= before.insert(k as int, x));
            if k < before_labels.len() {
                assert(out_labels.deep_view() =~= before_labels.insert(k as int, l@));
            } else {
                assert(out_labels.deep_view() =~= before_labels.push(l@));
            }
            assert(result_labels(out@) =~= out_labels.deep_view());
            assert forall|q: int| 0 <= q < np.len() implies 0 <= #[trigger] np[q] < orig.take(n + 1).len() && out@[q] == orig.take(n + 1)[np[q]] by {
                if q < k {
                    assert(np[q] == p[q]);
                } else if q > k {
                    assert(np[q] == p[q - 1]);
                }
            }
            assert forall|a: int, b: int| 0 <= a < b < np.len() implies np[a] != np[b] by {
                if a < k && b > k {
                    assert(np[b] == p[b - 1]);
                } else if a > k {
                    assert(np[b] == p[b - 1]);
                    assert(np[a] == p[a - 1]);
                }
            }
            p = np;
        }
        n = n + 1;
    }
    assert(orig.take(n as int) =~= orig);
    out
}


// ---------------------------------------------------------------------------
// Laws.

/// A finding that names supplied claims, lies inside audited ranges, and gives a reason.
pub open spec fn finding_valid(f: AnalysisFindingV, ids: Seq<Seq<char>>, allowed: Seq<SourceRangeV>) -> bool {
    &&& f.claims.len() > 0
    &&& forall|c: int| 0 <= c < f.claims.len() ==> ids.contains(#[trigger] f.claims[c])
    &&& f.ranges.len() > 0
    &&& forall|r: int| 0 <= r < f.ranges.len() ==> range_allowed(#[trigger] f.ranges[r], allowed)
    &&& !is_blank(f.reason)
}

proof fn lemma_unknown_claim_none(claims: Seq<Seq<char>>, ids: Seq<Seq<char>>, k: int)
    requires
        0 <= k,
        unknown_claim_from(claims, ids, k) is None,
    ensures
        forall|c: int| k <= c < claims.len() ==> ids.contains(#[trigger] claims[c]),
    decreases claims.len() - k,
{
    if k < claims.len() {
        lemma_unknown_claim_none(claims, ids, k + 1);
    }
}

proof fn lemma_findings_none(fs: Seq<AnalysisFindingV>, ids: Seq<Seq<char>>, allowed: Seq<SourceRangeV>, k: int)
    requires
        0 <= k,
        findings_error_from(fs, ids, allowed, k) is None,
    ensures
        forall|x: int| k <= x < fs.len() ==> finding_valid(#[trigger] fs[x], ids, allowed),
    decreases fs.len() - k,
{
    if k < fs.len() {
        lemma_findings_none(fs, ids, allowed, k + 1);
        let f = fs[k];
        lemma_unknown_claim_none(f.claims, ids, 0);
    }
}

proof fn lemma_letter_not_blank(reason: Seq<char>, p: Seq<char>, j: int)
    requires
        contains_text(reason.map_values(|c: char| lower(c)), p),
        0 <= j < p.len(),
        'a' <= p[j] <= 'z',
    ensures
        !is_blank(reason),
{
    let n = reason.map_values(|c: char| lower(c));
    let i = choose|i: int| starts_at(n, i, p);
    assert(n.subrange(i, i + p.len())[j] == p[j]);
    assert(n[i + j] == lower(reason[i + j]));
    assert(!is_whitespace(reason[i + j]));
}

proof fn lemma_violation_not_blank(reason: Seq<char>)
    requires
        states_violation(reason),
    ensures
        !is_blank(reason),
{
    reveal_strlit(" violates ");
    reveal_strlit(" violate ");
    reveal_strlit(" violated ");
    reveal_strlit("contradicts");
    reveal_strlit("fails to enforce");
    reveal_strlit("failure to enforce");
    let n = reason.map_values(|c: char| lower(c));
    if contains_text(n, " violates "@) {
        lemma_letter_not_blank(reason, " violates "@, 1);
    } else if contains_text(n, " violate "@) {
        lemma_letter_not_blank(reason, " violate "@, 1);
    } else if contains_text(n, " violated "@) {
        lemma_letter_not_blank(reason, " violated "@, 1);
    } else if contains_text(n, "contradicts"@) {
        lemma_letter_not_blank(reason, "contradicts"@, 0);
    } else if contains_text(n, "fails to enforce"@) {
        lemma_letter_not_blank(reason, "fails to enforce"@, 0);
    } else {
        lemma_letter_not_blank(reason, "failure to enforce"@, 0);
    }
}

proof fn lemma_named_claims_supplied(ids: Seq<Seq<char>>, reason: Seq<char>, n: nat)
    ensures
        forall|x: Seq<char>| named_claims(ids, reason, n).contains(x) ==> ids.contains(x),
    decreases n,
{
    if n > 0 && n <= ids.len() {
        lemma_named_claims_supplied(ids, reason, (n - 1) as nat);
        let prev = named_claims(ids, reason, (n - 1) as nat);
        let r = named_claims(ids, reason, n);
        assert forall|x: Seq<char>| r.contains(x) implies ids.contains(x) by {
            let i = choose|i: int| 0 <= i < r.len() && r[i] == x;
            if i < prev.len() {
                assert(prev[i] == x);
            } else {
                assert(ids[n - 1] == x);
            }
        }
    }
}

proof fn lemma_known_claims(claims: Seq<Seq<char>>, ids: Seq<Seq<char>>, k: int)
    requires
        0 <= k,
        forall|x: Seq<char>| claims.contains(x) ==> ids.contains(x),
    ensures
        unknown_claim_from(claims, ids, k) is None,
    decreases claims.len() - k,
{
    if k < claims.len() {
        assert(claims.contains(claims[k]));
        lemma_known_claims(claims, ids, k + 1);
    }
}

/// Repair changes only an indeterminate verdict, repairing twice changes nothing more,
/// and a failure that repair produces passes validation whenever the audited ranges are
/// non-empty and each starts no later than it ends.
pub proof fn lemma_repaired_failure_valid(v: AnalysisVerdictV, ids: Seq<Seq<char>>, ranges: Seq<SourceRangeV>)
    requires
        ranges.len() > 0,
        forall|k: int| 0 <= k < ranges.len() ==> position_le(#[trigger] ranges[k].start, ranges[k].end),
    ensures
        !(v is Indeterminate) ==> normalized(v, ids, ranges) == v,
        normalized(normalized(v, ids, ranges), ids, ranges) == normalized(v, ids, ranges),
        normalized(v, ids, ranges) == v || (normalized(v, ids, ranges) is Fail && verdict_error(
            normalized(v, ids, ranges),
            ids,
            ranges,
        ) is None),
{
    match v {
        AnalysisVerdictV::Indeterminate { reason } => {
            let claims = named_claims(ids, reason, ids.len());
            if states_violation(reason) && claims.len() > 0 {
                lemma_violation_not_blank(reason);
                lemma_named_claims_supplied(ids, reason, ids.len());
                lemma_known_claims(claims, ids, 0);
                let w = normalized(v, ids, ranges);
                let f = AnalysisFindingV {
                    kind: FindingKind::ImplementationViolation,
                    claims,
                    ranges,
                    reason,
                };
                assert(w == AnalysisVerdictV::Fail { findings: seq![f] });
                assert forall|k: int| 0 <= k < ranges.len() implies range_allowed(#[trigger] ranges[k], ranges) by {
                    assert(range_contains(ranges[k], ranges[k]));
                }
                assert(finding_error(f, ids, ranges) is None);
                assert(findings_error_from(seq![f], ids, ranges, 1) is None);
            }
        },
        _ => {},
    }
}

/// A failure verdict that passes validation has at least one finding, and every finding
/// names only supplied claim ids, has ranges all inside the audited sources, and a reason.
pub proof fn lemma_accepted_failure(v: AnalysisVerdictV, ids: Seq<Seq<char>>, allowed: Seq<SourceRangeV>)
    requires
        verdict_error(v, ids, allowed) is None,
        v is Fail,
    ensures
        v->Fail_findings.len() > 0,
        forall|x: int| 0 <= x < v->Fail_findings.len() ==> finding_valid(#[trigger] v->Fail_findings[x], ids, allowed),
{
    lemma_findings_none(v->Fail_findings, ids, allowed, 0);
}

/// A source range lies inside another only when both name the same file and the inner
/// range starts no earlier and ends no later than the outer one.
pub proof fn lemma_range_contains_same_file(outer: SourceRangeV, inner: SourceRangeV)
    ensures
        range_contains(outer, inner) ==> inner.file == outer.file && position_le(outer.start, inner.start)
            && position_le(inner.end, outer.end),
{
}

/// Whether some audited range names the file of `range` and spans its positions.
pub open spec fn within_audited(range: SourceRangeV, allowed: Seq<SourceRangeV>) -> bool {
    exists|a: int|
        0 <= a < allowed.len() && #[trigger] allowed[a].file == range.file && position_le(allowed[a].start, range.start)
            && position_le(range.end, allowed[a].end)
}

/// Every range of a failure that passes validation lies, file and positions, inside one of
/// the audited ranges: a finding in a file that was never audited is rejected.
pub proof fn lemma_accepted_ranges_audited(v: AnalysisVerdictV, ids: Seq<Seq<char>>, allowed: Seq<SourceRangeV>)
    requires
        verdict_error(v, ids, allowed) is None,
        v is Fail,
    ensures
        forall|x: int, r: int|
            0 <= x < v->Fail_findings.len() && 0 <= r < v->Fail_findings[x].ranges.len() ==> within_audited(
                #[trigger] v->Fail_findings[x].ranges[r],
                allowed,
            ),
{
    lemma_accepted_failure(v, ids, allowed);
    assert forall|x: int, r: int|
        0 <= x < v->Fail_findings.len() && 0 <= r < v->Fail_findings[x].ranges.len() implies within_audited(
            #[trigger] v->Fail_findings[x].ranges[r],
            allowed,
        ) by {
        let f = v->Fail_findings[x];
        let g = f.ranges[r];
        assert(finding_valid(f, ids, allowed));
        assert(range_allowed(g, allowed));
        let a = choose|a: int| 0 <= a < allowed.len() && range_contains(#[trigger] allowed[a], g);
        lemma_range_contains_same_file(allowed[a], g);
        assert(allowed[a].file == g.file);
    }
}

/// A repaired verdict that is still indeterminate names no supplied claim as violated.
pub proof fn lemma_no_explicit_violation_left(v: AnalysisVerdictV, ids: Seq<Seq<char>>, ranges: Seq<SourceRangeV>)
    requires
        normalized(v, ids, ranges) is Indeterminate,
    ensures
        !(states_violation(normalized(v, ids, ranges)->Indeterminate_reason)
            && named_claims(ids, normalized(v, ids, ranges)->Indeterminate_reason, ids.len()).len() > 0),
{
}

/// Whether a job audits something the filter selects and carries claims.
pub open spec fn job_selected(j: AnalysisJobV, f: TargetFilterV) -> bool {
    &&& j.claims.len() > 0
    &&& match j.target {
        AnalysisTargetV::Span { id } => selects_span(f, id),
        AnalysisTargetV::Item { path } => selects_item(f, path),
    }
}

proof fn lemma_span_jobs_selected(m: KnowledgeMapV, f: TargetFilterV, n: nat)
    requires
        span_jobs(m, f, n) is Ok,
    ensures
        forall|x: int| 0 <= x < span_jobs(m, f, n)->Ok_0.len() ==> job_selected(#[trigger] span_jobs(m, f, n)->Ok_0[x], f),
    decreases n,
{
    if n > 0 && n <= m.spans.len() {
        lemma_span_jobs_selected(m, f, (n - 1) as nat);
    }
}

proof fn lemma_item_jobs_selected(m: KnowledgeMapV, f: TargetFilterV, n: nat)
    ensures
        forall|x: int| 0 <= x < item_jobs(m, f, n).len() ==> job_selected(#[trigger] item_jobs(m, f, n)[x], f),
    decreases n,
{
    if n > 0 && n <= m.items.len() {
        lemma_item_jobs_selected(m, f, (n - 1) as nat);
        let prev = item_jobs(m, f, (n - 1) as nat);
        let r = item_jobs(m, f, n);
        assert forall|x: int| 0 <= x < r.len() implies job_selected(#[trigger] r[x], f) by {
            if x < prev.len() {
                assert(r[x] == prev[x]);
            }
        }
    }
}

/// Every prepared job audits a span or item the selection names (every one, when nothing
/// is named) and carries at least one claim.
pub proof fn lemma_jobs_selected(m: KnowledgeMapV, f: TargetFilterV)
    requires
        analysis_jobs(m, f) is Ok,
    ensures
        forall|x: int| 0 <= x < analysis_jobs(m, f)->Ok_0.len() ==> job_selected(#[trigger] analysis_jobs(m, f)->Ok_0[x], f),
{
    lemma_span_jobs_selected(m, f, m.spans.len());
    lemma_item_jobs_selected(m, f, m.items.len());
    let a = span_jobs(m, f, m.spans.len())->Ok_0;
    let b = item_jobs(m, f, m.items.len());
    assert forall|x: int| 0 <= x < (a + b).len() implies job_selected(#[trigger] (a + b)[x], f) by {
        if x < a.len() {
            assert((a + b)[x] == a[x]);
        } else {
            assert((a + b)[x] == b[x - a.len()]);
        }
    }
}

/// Splitting a job's claims loses none: the target's own claims become obligations, every
/// other claim becomes context, and each keeps its order.
pub proof fn lemma_split_partitions(claims: Seq<ProjectedClaimV>, label: Seq<char>, n: nat)
    requires
        n <= claims.len(),
    ensures
        split_claims(claims, label, n).0.len() + split_claims(claims, label, n).1.len() == n,
        forall|x: int| 0 <= x < split_claims(claims, label, n).0.len() ==> (#[trigger] split_claims(claims, label, n).0[x]).owner == label,
        forall|x: int| 0 <= x < split_claims(claims, label, n).1.len() ==> (#[trigger] split_claims(claims, label, n).1[x]).owner != label,
    decreases n,
{
    if n > 0 {
        lemma_split_partitions(claims, label, (n - 1) as nat);
        let (own, context) = split_claims(claims, label, (n - 1) as nat);
        let c = claims[n - 1];
        if c.owner == label {
            assert forall|x: int| 0 <= x < own.push(request_claim(c)).len() implies (#[trigger] own.push(request_claim(c))[x]).owner == label by {
                if x < own.len() {
                    assert(own.push(request_claim(c))[x] == own[x]);
                }
            }
        } else {
            assert forall|x: int| 0 <= x < context.push(request_claim(c)).len() implies (#[trigger] context.push(request_claim(c))[x]).owner != label by {
                if x < context.len() {
                    assert(context.push(request_claim(c))[x] == context[x]);
                }
            }
        }
    }
}

} // verus!
