//! The text that `check`, `show` and `analyze` print, computed from the map or report.
use vstd::prelude::*;

use crate::analysis::{
    join_lines, join_with_newlines, target_label, AnalysisExecution, AnalysisFinding,
    AnalysisReport, AnalysisVerdict, AnalyzedTarget, FindingKind,
};
use crate::model::{
    axis_at, axis_name, evidence_kind_name, find_item, kind_name, AxisEntry, AxisEntryV,
    AxisStatus, Axis, ClaimKind, ClaimV, EvidenceResult, EvidenceV, ItemV, KnowledgeMap,
    KnowledgeMapV, SourceRange, SourceRangeV, SpanV,
};
use crate::projection::{
    axes_complete, find_span, group_key_name, span_claims_spec, item_claims_spec,
    ClaimProjection, GroupKey, ProjectedClaim, ProjectedClaimV,
};
use crate::text::{append, concat, decimal, decimal_string, string_lit, strings_equal};

verus! {

// ---------------------------------------------------------------------------
// check

/// The lines `check` collects: unavailable evidence links and claims without evidence.
pub struct Gaps {
    pub unavailable: Seq<Seq<char>>,
    pub unsupported: Seq<Seq<char>>,
}

/// The unavailable-evidence lines of a claim's first `n` links.
pub open spec fn unavailable_lines(scope: Seq<char>, id: Seq<char>, ev: Seq<EvidenceV>, n: nat) -> Seq<Seq<char>>
    decreases n,
{
    if n == 0 || n > ev.len() {
        Seq::empty()
    } else {
        let prev = unavailable_lines(scope, id, ev, (n - 1) as nat);
        let e = ev[n - 1];
        if e.result == EvidenceResult::Unavailable {
            prev.push(scope + "/"@ + id + ": "@ + evidence_kind_name(e.kind) + " "@ + e.binder)
        } else {
            prev
        }
    }
}

/// The gaps after one more claim.
pub open spec fn claim_gaps(g: Gaps, scope: Seq<char>, axis: Axis, c: ClaimV) -> Gaps {
    Gaps {
        unavailable: g.unavailable + unavailable_lines(scope, c.id, c.evidence, c.evidence.len()),
        unsupported: if c.evidence.len() == 0 {
            g.unsupported.push(scope + "/"@ + c.id + " ["@ + axis_name(axis) + ", "@ + kind_name(c.kind) + "]"@)
        } else {
            g.unsupported
        },
    }
}

/// The gaps after the first `n` claims on one axis.
pub open spec fn claims_gaps(g: Gaps, scope: Seq<char>, axis: Axis, cs: Seq<ClaimV>, n: nat) -> Gaps
    decreases n,
{
    if n == 0 || n > cs.len() {
        g
    } else {
        claim_gaps(claims_gaps(g, scope, axis, cs, (n - 1) as nat), scope, axis, cs[n - 1])
    }
}

/// The gaps after the first `n` axes of one owner.
pub open spec fn axes_gaps(g: Gaps, scope: Seq<char>, axes: Seq<AxisEntryV>, n: nat) -> Gaps
    decreases n,
{
    if n == 0 || n > axes.len() {
        g
    } else {
        let prev = axes_gaps(g, scope, axes, (n - 1) as nat);
        claims_gaps(prev, scope, axis_at(n - 1), axes[n - 1].claims, axes[n - 1].claims.len())
    }
}

/// Whether an owner accounts for at least one axis.
pub open spec fn engaged(axes: Seq<AxisEntryV>) -> bool {
    exists|k: int| 0 <= k < axes.len() && #[trigger] axes[k].status != AxisStatus::Unspecified
}

/// The number of unspecified axes among the first `n`.
pub open spec fn unspecified_count(axes: Seq<AxisEntryV>, n: nat) -> nat
    decreases n,
{
    if n == 0 || n > axes.len() {
        0
    } else {
        unspecified_count(axes, (n - 1) as nat) + (if axes[n - 1].status == AxisStatus::Unspecified {
            1nat
        } else {
            0nat
        })
    }
}

/// Unspecified axes counted for an owner: none for an owner that accounts for no axis.
pub open spec fn owner_unspecified(axes: Seq<AxisEntryV>) -> nat {
    if engaged(axes) {
        unspecified_count(axes, axes.len())
    } else {
        0
    }
}

/// Every owner of the map with its scope label: spans, then items.
pub open spec fn owners(m: KnowledgeMapV) -> Seq<(Seq<char>, Seq<AxisEntryV>)> {
    m.spans.map_values(|s: SpanV| ("span:"@ + s.id, s.axes)) + m.items.map_values(
        |it: (Seq<char>, ItemV)| ("item:"@ + it.0, it.1.axes),
    )
}

/// The gaps and unspecified count of the first `n` owners.
pub open spec fn owners_state(os: Seq<(Seq<char>, Seq<AxisEntryV>)>, n: nat) -> (Gaps, nat)
    decreases n,
{
    if n == 0 || n > os.len() {
        (Gaps { unavailable: Seq::empty(), unsupported: Seq::empty() }, 0)
    } else {
        let (g, u) = owners_state(os, (n - 1) as nat);
        (axes_gaps(g, os[n - 1].0, os[n - 1].1, os[n - 1].1.len()), u + owner_unspecified(os[n - 1].1))
    }
}

/// The lines `check` prints: a summary, then one line per claim without evidence.
pub open spec fn check_lines(m: KnowledgeMapV) -> Seq<Seq<char>> {
    let (g, u) = owners_state(owners(m), owners(m).len());
    seq![
        "checked "@ + decimal(m.spans.len()) + " spans and "@ + decimal(m.items.len()) + " items; "@
            + decimal(u) + " unspecified axes; "@ + decimal(g.unsupported.len())
            + " claims without evidence"@,
    ] + g.unsupported.map_values(|l: Seq<char>| "unsupported: "@ + l)
}

/// The failure `check` reports: every unavailable evidence link.
pub open spec fn check_failure(m: KnowledgeMapV) -> Option<Seq<char>> {
    let (g, u) = owners_state(owners(m), owners(m).len());
    if g.unavailable.len() == 0 {
        None
    } else {
        Some(decimal(g.unavailable.len()) + " evidence link(s) are unavailable:\n"@ + join_lines(g.unavailable))
    }
}

/// The printed name of an evidence result.
pub open spec fn result_name(r: EvidenceResult) -> Seq<char> {
    match r {
        EvidenceResult::Linked => "Linked"@,
        EvidenceResult::Passed => "Passed"@,
        EvidenceResult::Failed => "Failed"@,
        EvidenceResult::Unavailable => "Unavailable"@,
    }
}

fn result_text(r: EvidenceResult) -> (s: String)
    ensures
        s@ == result_name(r),
{
    match r {
        EvidenceResult::Linked => string_lit("Linked"),
        EvidenceResult::Passed => string_lit("Passed"),
        EvidenceResult::Failed => string_lit("Failed"),
        EvidenceResult::Unavailable => string_lit("Unavailable"),
    }
}

fn push_line(lines: &mut Vec<String>, line: String)
    ensures
        final(lines).deep_view() == old(lines).deep_view().push(line@),
{
    let ghost before = lines.deep_view();
    let ghost l = line@;
    lines.push(line);
    assert(lines.deep_view() =~= before.push(l));
}

/// At most `n` of the first `n` axes are unspecified.
pub proof fn lemma_unspecified_bound(axes: Seq<AxisEntryV>, n: nat)
    ensures
        unspecified_count(axes, n) <= n,
        owner_unspecified(axes) <= axes.len(),
{
    lemma_unspecified_count_le(axes, n);
    lemma_unspecified_count_le(axes, axes.len());
}

proof fn lemma_unspecified_count_le(axes: Seq<AxisEntryV>, n: nat)
    ensures
        unspecified_count(axes, n) <= n,
    decreases n,
{
    if n > 0 && n <= axes.len() {
        lemma_unspecified_count_le(axes, (n - 1) as nat);
    }
}

/// Accumulates static-check findings from one owner's axis map.
pub fn inspect_axes(
    scope: &String,
    axes: &Vec<AxisEntry>,
    unavailable: &mut Vec<String>,
    unsupported: &mut Vec<String>,
    unspecified: &mut usize,
)
    requires
        axes@.len() <= 12,
        *old(unspecified) + owner_unspecified(axes.deep_view()) <= usize::MAX,
    ensures
        (Gaps { unavailable: final(unavailable).deep_view(), unsupported: final(unsupported).deep_view() })
            == axes_gaps(
            Gaps { unavailable: old(unavailable).deep_view(), unsupported: old(unsupported).deep_view() },
            scope@,
            axes.deep_view(),
            axes.len() as nat,
        ),
        *final(unspecified) == *old(unspecified) + owner_unspecified(axes.deep_view()),
        *final(unspecified) <= *old(unspecified) + axes@.len(),
{
    let ghost av = axes.deep_view();
    let ghost g0 = Gaps { unavailable: unavailable.deep_view(), unsupported: unsupported.deep_view() };
    let mut engaged_any = false;
    let mut count: usize = 0;
    let mut a: usize = 0;
    while a < axes.len()
        invariant
            a <= axes@.len() <= 12,
            av == axes.deep_view(),
            count == unspecified_count(av, a as nat),
            count <= a,
            engaged_any == exists|k: int| 0 <= k < a && #[trigger] av[k].status != AxisStatus::Unspecified,
            (Gaps { unavailable: unavailable.deep_view(), unsupported: unsupported.deep_view() })
                == axes_gaps(g0, scope@, av, a as nat),
        decreases axes@.len() - a,
    {
        let entry = &axes[a];
        let axis = Axis::at(a);
        if entry.status != AxisStatus::Unspecified {
            assert(av[a as int].status != AxisStatus::Unspecified);
            engaged_any = true;
        } else {
            count = count + 1;
        }
        let ghost gstart = Gaps { unavailable: unavailable.deep_view(), unsupported: unsupported.deep_view() };
        let ghost cs = av[a as int].claims;
        let mut c: usize = 0;
        while c < entry.claims.len()
            invariant
                a < axes@.len() <= 12,
                av == axes.deep_view(),
                entry == axes@[a as int],
                cs == av[a as int].claims,
                axis == axis_at(a as int),
                c <= entry.claims.len(),
                (Gaps { unavailable: unavailable.deep_view(), unsupported: unsupported.deep_view() })
                    == claims_gaps(gstart, scope@, axis, cs, c as nat),
            decreases entry.claims.len() - c,
        {
            let claim = &entry.claims[c];
            let ghost cv = claim.deep_view();
            assert(cs[c as int] == cv);
            let ghost before_unsupported = unsupported.deep_view();
            if claim.evidence.len() == 0 {
                let mut line = concat(scope.as_str(), "/");
                append(&mut line, claim.id.as_str());
                append(&mut line, " [");
                let an = axis.name();
                append(&mut line, an.as_str());
                append(&mut line, ", ");
                let kn = claim.kind.name();
                append(&mut line, kn.as_str());
                append(&mut line, "]");
                push_line(unsupported, line);
            }
            let ghost base_unavailable = unavailable.deep_view();
            let mut e: usize = 0;
            while e < claim.evidence.len()
                invariant
                    e <= claim.evidence.len(),
                    cv == claim.deep_view(),
                    unavailable.deep_view() == base_unavailable + unavailable_lines(scope@, cv.id, cv.evidence, e as nat),
                decreases claim.evidence.len() - e,
            {
                let ev = &claim.evidence[e];
                assert(cv.evidence[e as int] == ev.deep_view());
                if ev.result == EvidenceResult::Unavailable {
                    let mut line = concat(scope.as_str(), "/");
                    append(&mut line, claim.id.as_str());
                    append(&mut line, ": ");
                    let kn = ev.kind.name();
                    append(&mut line, kn.as_str());
                    append(&mut line, " ");
                    append(&mut line, ev.binder.as_str());
                    push_line(unavailable, line);
                    assert(unavailable.deep_view() =~= base_unavailable + unavailable_lines(scope@, cv.id, cv.evidence, (e + 1) as nat));
                }
                e = e + 1;
            }
            c = c + 1;
        }
        a = a + 1;
    }
    proof {
        if engaged(av) {
            let k = choose|k: int| 0 <= k < av.len() && #[trigger] av[k].status != AxisStatus::Unspecified;
            assert(engaged_any);
        }
        lemma_unspecified_bound(av, av.len());
    }
    if engaged_any {
        *unspecified = *unspecified + count;
    }
}

/// The result of `check`: its printed lines, and its failure when evidence is unavailable.
#[derive(Debug)]
pub struct CheckOutcome {
    pub lines: Vec<String>,
    pub failure: Option<String>,
}

/// Checks a map for unavailable evidence and claims without evidence.
pub fn check_map(map: &KnowledgeMap) -> (r: CheckOutcome)
    requires
        axes_complete(map.deep_view()),
        12 * (map.spans.len() + map.items.len()) <= usize::MAX,
    ensures
        r.lines.deep_view() == check_lines(map.deep_view()),
        r.failure.deep_view() == check_failure(map.deep_view()),
{
    let ghost m = map.deep_view();
    let ghost os = owners(m);
    let mut unavailable: Vec<String> = Vec::new();
    let mut unsupported: Vec<String> = Vec::new();
    let mut unspecified: usize = 0;
    proof {
        assert(unavailable.deep_view() =~= Seq::<Seq<char>>::empty());
        assert(unsupported.deep_view() =~= Seq::<Seq<char>>::empty());
        assert(os.len() == m.spans.len() + m.items.len());
    }
    let mut k: usize = 0;
    while k < map.spans.len()
        invariant
            k <= map.spans.len(),
            m == map.deep_view(),
            os == owners(m),
            axes_complete(m),
            12 * (map.spans.len() + map.items.len()) <= usize::MAX,
            unspecified <= 12 * k,
            owners_state(os, k as nat) == (Gaps { unavailable: unavailable.deep_view(), unsupported: unsupported.deep_view() }, unspecified as nat),
        decreases map.spans.len() - k,
    {
        let scope = concat("span:", map.spans[k].id.as_str());
        assert(os[k as int] == (scope@, m.spans[k as int].axes));
        assert(m.spans[k as int].axes.len() == 12);
        proof {
            lemma_unspecified_bound(map.spans@[k as int].axes.deep_view(), 0);
        }
        inspect_axes(&scope, &map.spans[k].axes, &mut unavailable, &mut unsupported, &mut unspecified);
        k = k + 1;
    }
    let mut k: usize = 0;
    while k < map.items.len()
        invariant
            k <= map.items.len(),
            m == map.deep_view(),
            os == owners(m),
            axes_complete(m),
            12 * (map.spans.len() + map.items.len()) <= usize::MAX,
            unspecified <= 12 * (map.spans.len() + k),
            owners_state(os, (map.spans.len() + k) as nat) == (Gaps { unavailable: unavailable.deep_view(), unsupported: unsupported.deep_view() }, unspecified as nat),
        decreases map.items.len() - k,
    {
        let scope = concat("item:", map.items[k].0.as_str());
        assert(os[map.spans.len() + k] == (scope@, m.items[k as int].1.axes));
        assert(m.items[k as int].1.axes.len() == 12);
        proof {
            lemma_unspecified_bound(map.items@[k as int].1.axes.deep_view(), 0);
        }
        inspect_axes(&scope, &map.items[k].1.axes, &mut unavailable, &mut unsupported, &mut unspecified);
        k = k + 1;
    }
    let mut lines: Vec<String> = Vec::new();
    let mut summary = string_lit("checked ");
    let n = decimal_string(map.spans.len());
    append(&mut summary, n.as_str());
    append(&mut summary, " spans and ");
    let n = decimal_string(map.items.len());
    append(&mut summary, n.as_str());
    append(&mut summary, " items; ");
    let n = decimal_string(unspecified);
    append(&mut summary, n.as_str());
    append(&mut summary, " unspecified axes; ");
    let n = decimal_string(unsupported.len());
    append(&mut summary, n.as_str());
    append(&mut summary, " claims without evidence");
    lines.push(summary);
    let ghost uv = unsupported.deep_view();
    let mut k: usize = 0;
    while k < unsupported.len()
        invariant
            k <= unsupported.len(),
            uv == unsupported.deep_view(),
            lines@.len() == k + 1,
            lines@[0]@ == "checked "@ + decimal(m.spans.len()) + " spans and "@ + decimal(m.items.len())
                + " items; "@ + decimal(unspecified as nat) + " unspecified axes; "@ + decimal(uv.len())
                + " claims without evidence"@,
            forall|x: int| 0 <= x < k ==> #[trigger] lines@[x + 1]@ == "unsupported: "@ + uv[x],
        decreases unsupported.len() - k,
    {
        lines.push(concat("unsupported: ", unsupported[k].as_str()));
        k = k + 1;
    }
    proof {
        assert(os.len() == m.spans.len() + m.items.len());
        let st = owners_state(os, os.len());
        assert(st.0.unsupported == uv);
        assert(st.1 == unspecified as nat);
        let want = check_lines(m);
        assert(want.len() == uv.len() + 1);
        assert forall|x: int| 0 <= x < want.len() implies lines.deep_view()[x] == want[x] by {
            if x > 0 {
                assert(lines@[(x - 1) + 1]@ == "unsupported: "@ + uv[x - 1]);
            }
        }
        assert(lines.deep_view() =~= want);
    }
    let failure = if unavailable.len() == 0 {
        None
    } else {
        let mut f = decimal_string(unavailable.len());
        append(&mut f, " evidence link(s) are unavailable:\n");
        let joined = join_with_newlines(&unavailable);
        append(&mut f, joined.as_str());
        Some(f)
    };
    CheckOutcome { lines, failure }
}


// ---------------------------------------------------------------------------
// show

/// The names of every unspecified axis among the first `n`, in axis order.
pub open spec fn unspecified_names(axes: Seq<AxisEntryV>, n: nat) -> Seq<Seq<char>>
    decreases n,
{
    if n == 0 || n > axes.len() {
        Seq::empty()
    } else {
        let prev = unspecified_names(axes, (n - 1) as nat);
        if axes[n - 1].status == AxisStatus::Unspecified {
            prev.push(axis_name(axis_at(n - 1)))
        } else {
            prev
        }
    }
}

/// Returns the names of every unspecified axis.
pub fn unspecified_axes(axes: &Vec<AxisEntry>) -> (r: Vec<String>)
    requires
        axes@.len() <= 12,
    ensures
        r.deep_view() == unspecified_names(axes.deep_view(), axes.len() as nat),
{
    let ghost av = axes.deep_view();
    let mut r: Vec<String> = Vec::new();
    assert(r.deep_view() =~= Seq::<Seq<char>>::empty());
    let mut k: usize = 0;
    while k < axes.len()
        invariant
            k <= axes@.len() <= 12,
            av == axes.deep_view(),
            r.deep_view() == unspecified_names(av, k as nat),
        decreases axes@.len() - k,
    {
        if axes[k].status == AxisStatus::Unspecified {
            push_line(&mut r, Axis::at(k).name());
        }
        k = k + 1;
    }
    r
}

/// Strings joined with `, `.
pub open spec fn join_comma(s: Seq<Seq<char>>) -> Seq<char>
    decreases s.len(),
{
    if s.len() == 0 {
        Seq::empty()
    } else if s.len() == 1 {
        s[0]
    } else {
        join_comma(s.drop_last()) + ", "@ + s.last()
    }
}

fn join_commas(v: &Vec<String>) -> (r: String)
    ensures
        r@ == join_comma(v.deep_view()),
{
    let ghost vv = v.deep_view();
    let mut out = String::new();
    let mut k: usize = 0;
    while k < v.len()
        invariant
            k <= v.len(),
            vv == v.deep_view(),
            out@ == join_comma(vv.take(k as int)),
        decreases v.len() - k,
    {
        if k > 0 {
            append(&mut out, ", ");
        }
        append(&mut out, v[k].as_str());
        proof {
            let next = vv.take(k + 1);
            assert(next.drop_last() =~= vv.take(k as int));
            if k == 0 {
                assert(out@ =~= next[0]);
            } else {
                assert(out@ =~= join_comma(next.drop_last()) + ", "@ + next.last());
            }
        }
        k = k + 1;
    }
    assert(vv.take(k as int) =~= vv);
    out
}

/// A source range printed as `file:line:column-line:column`.
pub open spec fn range_text_line(r: SourceRangeV) -> Seq<char> {
    r.file + ":"@ + decimal(r.start.line as nat) + ":"@ + decimal(r.start.column as nat) + "-"@
        + decimal(r.end.line as nat) + ":"@ + decimal(r.end.column as nat)
}

fn format_range(r: &SourceRange) -> (s: String)
    ensures
        s@ == range_text_line(r.deep_view()),
{
    let mut s = concat(r.file.as_str(), ":");
    let n = decimal_string(r.start.line);
    append(&mut s, n.as_str());
    append(&mut s, ":");
    let n = decimal_string(r.start.column);
    append(&mut s, n.as_str());
    append(&mut s, "-");
    let n = decimal_string(r.end.line);
    append(&mut s, n.as_str());
    append(&mut s, ":");
    let n = decimal_string(r.end.column);
    append(&mut s, n.as_str());
    s
}

/// The header `show` prints for a span.
pub open spec fn span_header(sp: SpanV, q: Seq<char>) -> Seq<Seq<char>> {
    seq!["span:"@ + q] + (match sp.parent {
        Some(p) => seq!["parent: "@ + p],
        None => Seq::empty(),
    }) + seq!["entry: "@ + sp.entry, "members:"@] + sp.members.map_values(|m: Seq<char>| "  "@ + m)
}

/// The header `show` prints for an item.
pub open spec fn item_header(it: ItemV, q: Seq<char>) -> Seq<Seq<char>> {
    seq!["item:"@ + q, "source: "@ + range_text_line(it.source), "signature: "@ + it.signature] + (if it.spans.len() > 0 {
        seq!["spans: "@ + join_comma(it.spans)]
    } else {
        Seq::empty()
    })
}

/// What `show` displays for one span or item.
#[derive(Debug)]
pub struct ShowView {
    /// `span:<id>` or `item:<path>`.
    pub target: String,
    /// The lines describing the owner itself.
    pub header: Vec<String>,
    /// The owner's claims: a span's own, or an item's inherited then its own.
    pub claims: Vec<ProjectedClaim>,
    /// The names of the owner's unspecified axes.
    pub unspecified: Vec<String>,
}

/// Mathematical value of a [`ShowView`].
pub struct ShowViewV {
    pub target: Seq<char>,
    pub header: Seq<Seq<char>>,
    pub claims: Seq<ProjectedClaimV>,
    pub unspecified: Seq<Seq<char>>,
}

impl DeepView for ShowView {
    type V = ShowViewV;

    open spec fn deep_view(&self) -> ShowViewV {
        ShowViewV {
            target: self.target@,
            header: self.header.deep_view(),
            claims: self.claims.deep_view(),
            unspecified: self.unspecified.deep_view(),
        }
    }
}

/// What `show` displays for a query: the span with that id, else the item with that path.
pub open spec fn show_of(m: KnowledgeMapV, q: Seq<char>) -> Result<ShowViewV, Seq<char>> {
    match find_span(m.spans, q) {
        Some(k) => Ok(ShowViewV {
            target: "span:"@ + q,
            header: span_header(m.spans[k], q),
            claims: span_claims_spec(m.spans, q)->Some_0,
            unspecified: unspecified_names(m.spans[k].axes, m.spans[k].axes.len()),
        }),
        None => match find_item(m.items, q) {
            Some(k) => Ok(ShowViewV {
                target: "item:"@ + q,
                header: item_header(m.items[k].1, q),
                claims: item_claims_spec(m.spans, m.items, q)->Some_0,
                unspecified: unspecified_names(m.items[k].1.axes, m.items[k].1.axes.len()),
            }),
            None => Err("no span or item named `"@ + q + "`"@),
        },
    }
}

/// Finds what `show` displays for one span id or item path.
pub fn show_view(map: &KnowledgeMap, query: &String) -> (r: Result<ShowView, String>)
    requires
        axes_complete(map.deep_view()),
    ensures
        match r {
            Ok(v) => show_of(map.deep_view(), query@) == Ok::<ShowViewV, Seq<char>>(v.deep_view()),
            Err(e) => show_of(map.deep_view(), query@) == Err::<ShowViewV, Seq<char>>(e@),
        },
{
    let ghost m = map.deep_view();
    match map.span_index(query.as_str()) {
        Some(k) => {
            let span = &map.spans[k];
            let mut header: Vec<String> = Vec::new();
            push_line(&mut header, concat("span:", query.as_str()));
            let ghost h1 = header.deep_view();
            match &span.parent {
                Some(p) => push_line(&mut header, concat("parent: ", p.as_str())),
                None => {},
            }
            let ghost h2 = header.deep_view();
            push_line(&mut header, concat("entry: ", span.entry.as_str()));
            push_line(&mut header, string_lit("members:"));
            let ghost h3 = header.deep_view();
            let mut j: usize = 0;
            while j < span.members.len()
                invariant
                    j <= span.members.len(),
                    header.deep_view() == h3 + span.members.deep_view().take(j as int).map_values(|x: Seq<char>| "  "@ + x),
                decreases span.members.len() - j,
            {
                let ghost before = header.deep_view();
                push_line(&mut header, concat("  ", span.members[j].as_str()));
                assert(span.members.deep_view().take(j + 1) =~= span.members.deep_view().take(j as int).push(span.members.deep_view()[j as int]));
                assert(header.deep_view() =~= h3 + span.members.deep_view().take(j + 1).map_values(|x: Seq<char>| "  "@ + x));
                j = j + 1;
            }
            assert(span.members.deep_view().take(j as int) =~= span.members.deep_view());
            assert(m.spans[k as int].axes.len() == 12);
            let claims = match map.span_claims(query.as_str()) {
                Some(c) => c,
                None => Vec::new(),
            };
            let unspecified = unspecified_axes(&span.axes);
            proof {
                assert(header.deep_view() =~= span_header(m.spans[k as int], query@));
            }
            Ok(ShowView { target: concat("span:", query.as_str()), header, claims, unspecified })
        },
        None => match map.item_index(query.as_str()) {
            Some(k) => {
                let item = &map.items[k].1;
                let mut header: Vec<String> = Vec::new();
                push_line(&mut header, concat("item:", query.as_str()));
                let range = format_range(&item.source);
                push_line(&mut header, concat("source: ", range.as_str()));
                push_line(&mut header, concat("signature: ", item.signature.as_str()));
                let ghost h = header.deep_view();
                if item.spans.len() > 0 {
                    let joined = join_commas(&item.spans);
                    push_line(&mut header, concat("spans: ", joined.as_str()));
                    assert(header.deep_view() =~= h + seq!["spans: "@ + join_comma(item.spans.deep_view())]);
                } else {
                    assert(header.deep_view() =~= h + Seq::<Seq<char>>::empty());
                }
                assert(m.items[k as int].1.axes.len() == 12);
                let claims = match map.item_claims(query.as_str()) {
                    Some(c) => c,
                    None => Vec::new(),
                };
                let unspecified = unspecified_axes(&item.axes);
                proof {
                    assert(header.deep_view() =~= item_header(m.items[k as int].1, query@));
                }
                Ok(ShowView { target: concat("item:", query.as_str()), header, claims, unspecified })
            },
            None => {
                let mut e = concat("no span or item named `", query.as_str());
                append(&mut e, "`");
                Err(e)
            },
        },
    }
}

/// The display value of one grouping key for a projected claim.
pub open spec fn group_value(key: GroupKey, c: ProjectedClaimV) -> Seq<char> {
    match key {
        GroupKey::Owner => c.owner,
        GroupKey::Kind => match c.claim.kind {
            ClaimKind::Objective => "objectives"@,
            ClaimKind::Constraint => "constraints"@,
            ClaimKind::Assumption => "assumptions"@,
        },
        GroupKey::Axis => axis_name(c.axis),
    }
}

/// Returns the display value for one projected claim grouping key.
pub fn group_value_text(key: GroupKey, projected: &ProjectedClaim) -> (r: String)
    ensures
        r@ == group_value(key, projected.deep_view()),
{
    match key {
        GroupKey::Owner => projected.owner.clone(),
        GroupKey::Kind => match projected.claim.kind {
            ClaimKind::Objective => string_lit("objectives"),
            ClaimKind::Constraint => string_lit("constraints"),
            ClaimKind::Assumption => string_lit("assumptions"),
        },
        GroupKey::Axis => projected.axis.name(),
    }
}

/// The group values of a claim under each key.
pub open spec fn values_of(keys: Seq<GroupKey>, c: ProjectedClaimV) -> Seq<Seq<char>> {
    keys.map_values(|k: GroupKey| group_value(k, c))
}

/// The first depth from `i` on where two value lists differ, or the shorter length.
pub open spec fn change_at(values: Seq<Seq<char>>, prev: Seq<Seq<char>>, i: int) -> int
    decreases values.len() - i,
{
    if i < 0 || i >= values.len() || i >= prev.len() {
        i
    } else if values[i] != prev[i] {
        i
    } else {
        change_at(values, prev, i + 1)
    }
}

/// Two spaces per depth.
pub open spec fn indent(d: nat) -> Seq<char>
    decreases d,
{
    if d == 0 {
        Seq::empty()
    } else {
        indent((d - 1) as nat) + "  "@
    }
}

/// The group headings at the depths `[from, to)`.
pub open spec fn heading_lines(keys: Seq<GroupKey>, values: Seq<Seq<char>>, from: int, to: nat) -> Seq<Seq<char>>
    decreases to,
{
    if to <= from || to == 0 {
        Seq::empty()
    } else {
        heading_lines(keys, values, from, (to - 1) as nat).push(
            indent((to - 1) as nat) + group_key_name(keys[to - 1]) + ": "@ + values[to - 1],
        )
    }
}

/// The evidence lines of a projected claim's first `n` links.
pub open spec fn evidence_show_lines(d: nat, ev: Seq<EvidenceV>, n: nat) -> Seq<Seq<char>>
    decreases n,
{
    if n == 0 || n > ev.len() {
        Seq::empty()
    } else {
        let e = ev[n - 1];
        evidence_show_lines(d, ev, (n - 1) as nat).push(
            indent(d) + "evidence "@ + evidence_kind_name(e.kind) + ": "@ + e.binder + " ["@ + result_name(e.result) + "]"@,
        )
    }
}

/// The lines of one projected claim under `depth` headings.
pub open spec fn claim_show_lines(depth: nat, c: ProjectedClaimV) -> Seq<Seq<char>> {
    seq![indent(depth) + "- "@ + c.owner + "/"@ + c.claim.id + ": "@ + c.claim.text]
        + evidence_show_lines(depth + 1, c.claim.evidence, c.claim.evidence.len())
}

/// The lines of the first `n` projected claims: a heading wherever a group value changes.
pub open spec fn projection_lines_upto(keys: Seq<GroupKey>, cs: Seq<ProjectedClaimV>, n: nat) -> Seq<Seq<char>>
    decreases n,
{
    if n == 0 || n > cs.len() {
        Seq::empty()
    } else {
        let prev = if n >= 2 {
            values_of(keys, cs[n - 2])
        } else {
            Seq::empty()
        };
        let values = values_of(keys, cs[n - 1]);
        projection_lines_upto(keys, cs, (n - 1) as nat) + heading_lines(keys, values, change_at(values, prev, 0), keys.len())
            + claim_show_lines(keys.len(), cs[n - 1])
    }
}

fn indent_text(d: usize) -> (r: String)
    ensures
        r@ == indent(d as nat),
{
    let mut r = String::new();
    let mut k: usize = 0;
    while k < d
        invariant
            k <= d,
            r@ == indent(k as nat),
        decreases d - k,
    {
        append(&mut r, "  ");
        k = k + 1;
    }
    r
}

fn claim_values(keys: &Vec<GroupKey>, c: &ProjectedClaim) -> (r: Vec<String>)
    ensures
        r.deep_view() == values_of(keys@, c.deep_view()),
{
    let mut r: Vec<String> = Vec::new();
    let mut k: usize = 0;
    while k < keys.len()
        invariant
            k <= keys.len(),
            r@.len() == k,
            forall|x: int| 0 <= x < k ==> #[trigger] r@[x]@ == group_value(keys@[x], c.deep_view()),
        decreases keys.len() - k,
    {
        r.push(group_value_text(keys[k], c));
        k = k + 1;
    }
    assert(r.deep_view() =~= values_of(keys@, c.deep_view()));
    r
}

fn first_change(values: &Vec<String>, prev: &Vec<String>) -> (r: usize)
    ensures
        r as int == change_at(values.deep_view(), prev.deep_view(), 0),
        r <= values.len(),
{
    let ghost vv = values.deep_view();
    let ghost pv = prev.deep_view();
    let mut i: usize = 0;
    while i < values.len() && i < prev.len()
        invariant
            i <= values.len(),
            vv == values.deep_view(),
            pv == prev.deep_view(),
            change_at(vv, pv, 0) == change_at(vv, pv, i as int),
        decreases values.len() - i,
    {
        if !strings_equal(&values[i], &prev[i]) {
            return i;
        }
        i = i + 1;
    }
    i
}

/// Returns the lines of a grouped claim projection for human readers.
pub fn projection_lines(projection: &ClaimProjection) -> (r: Vec<String>)
    requires
        projection.group_by.len() < usize::MAX,
    ensures
        r.deep_view() == projection_lines_upto(projection.group_by@, projection.claims.deep_view(), projection.claims.len() as nat),
{
    let ghost keys = projection.group_by@;
    let ghost cs = projection.claims.deep_view();
    let depth = projection.group_by.len();
    let mut lines: Vec<String> = Vec::new();
    let mut previous: Vec<String> = Vec::new();
    assert(lines.deep_view() =~= Seq::<Seq<char>>::empty());
    assert(previous.deep_view() =~= Seq::<Seq<char>>::empty());
    let mut n: usize = 0;
    while n < projection.claims.len()
        invariant
            n <= projection.claims.len(),
            keys == projection.group_by@,
            cs == projection.claims.deep_view(),
            depth == keys.len(),
            depth < usize::MAX,
            lines.deep_view() == projection_lines_upto(keys, cs, n as nat),
            previous.deep_view() == (if n >= 1 {
                values_of(keys, cs[n - 1])
            } else {
                Seq::empty()
            }),
        decreases projection.claims.len() - n,
    {
        let projected = &projection.claims[n];
        assert(cs[n as int] == projected.deep_view());
        let values = claim_values(&projection.group_by, projected);
        let changed = first_change(&values, &previous);
        let ghost base = lines.deep_view();
        let ghost vv = values.deep_view();
        let mut d = changed;
        while d < depth
            invariant
                changed <= d <= depth,
                depth == keys.len(),
                keys == projection.group_by@,
                vv == values.deep_view(),
                vv.len() == keys.len(),
                lines.deep_view() == base + heading_lines(keys, vv, changed as int, d as nat),
            decreases depth - d,
        {
            let mut line = indent_text(d);
            let name = projection.group_by[d].name();
            append(&mut line, name.as_str());
            append(&mut line, ": ");
            append(&mut line, values[d].as_str());
            let ghost before = lines.deep_view();
            push_line(&mut lines, line);
            assert(lines.deep_view() =~= base + heading_lines(keys, vv, changed as int, (d + 1) as nat));
            d = d + 1;
        }
        let ghost mid = lines.deep_view();
        let mut line = indent_text(depth);
        append(&mut line, "- ");
        append(&mut line, projected.owner.as_str());
        append(&mut line, "/");
        append(&mut line, projected.claim.id.as_str());
        append(&mut line, ": ");
        append(&mut line, projected.claim.text.as_str());
        push_line(&mut lines, line);
        let ghost cv = projected.deep_view();
        let ghost head = lines.deep_view();
        let mut e: usize = 0;
        while e < projected.claim.evidence.len()
            invariant
                e <= projected.claim.evidence.len(),
                cv == projected.deep_view(),
                depth == keys.len(),
                depth < usize::MAX,
                lines.deep_view() == head + evidence_show_lines((depth + 1) as nat, cv.claim.evidence, e as nat),
            decreases projected.claim.evidence.len() - e,
        {
            let ev = &projected.claim.evidence[e];
            assert(cv.claim.evidence[e as int] == ev.deep_view());
            let mut line = indent_text(depth + 1);
            append(&mut line, "evidence ");
            let kn = ev.kind.name();
            append(&mut line, kn.as_str());
            append(&mut line, ": ");
            append(&mut line, ev.binder.as_str());
            append(&mut line, " [");
            let rn = result_text(ev.result);
            append(&mut line, rn.as_str());
            append(&mut line, "]");
            push_line(&mut lines, line);
            assert(lines.deep_view() =~= head + evidence_show_lines((depth + 1) as nat, cv.claim.evidence, (e + 1) as nat));
            e = e + 1;
        }
        proof {
            assert(lines.deep_view() =~= projection_lines_upto(keys, cs, (n + 1) as nat));
        }
        previous = values;
        n = n + 1;
    }
    lines
}

// ---------------------------------------------------------------------------
// analyze

/// The printed name of a finding kind.
pub open spec fn finding_kind_name(k: FindingKind) -> Seq<char> {
    match k {
        FindingKind::ClaimConflict => "ClaimConflict"@,
        FindingKind::ImplementationViolation => "ImplementationViolation"@,
    }
}

/// The lines of the first `n` findings.
pub open spec fn finding_lines(fs: Seq<AnalysisFinding>, n: nat) -> Seq<Seq<char>>
    decreases n,
{
    if n == 0 || n > fs.len() {
        Seq::empty()
    } else {
        let f = fs[n - 1];
        finding_lines(fs, (n - 1) as nat) + seq![
            "  "@ + finding_kind_name(f.kind) + ": "@ + f.reason@ + " ["@ + join_comma(f.claims.deep_view()) + "]"@,
        ] + f.ranges.deep_view().map_values(|r: SourceRangeV| "    "@ + range_text_line(r))
    }
}

/// The lines of one analyzed target.
pub open spec fn target_lines(t: AnalyzedTarget) -> Seq<Seq<char>> {
    let label = target_label(t.target.deep_view());
    match t.result {
        AnalysisExecution::Completed { verdict } => match verdict {
            AnalysisVerdict::Pass => seq!["pass: "@ + label],
            AnalysisVerdict::Indeterminate { reason } => seq!["indeterminate: "@ + label + ": "@ + reason@],
            AnalysisVerdict::Fail { findings } => seq!["fail: "@ + label] + finding_lines(findings@, findings@.len()),
        },
        AnalysisExecution::Error { message } => seq!["error: "@ + label + ": "@ + message@],
    }
}

/// The lines of the first `n` results.
pub open spec fn results_lines(rs: Seq<AnalyzedTarget>, n: nat) -> Seq<Seq<char>>
    decreases n,
{
    if n == 0 || n > rs.len() {
        Seq::empty()
    } else {
        results_lines(rs, (n - 1) as nat) + target_lines(rs[n - 1])
    }
}

/// The lines `analyze` prints for human readers.
pub open spec fn report_lines(r: AnalysisReport) -> Seq<Seq<char>> {
    seq!["analyzed "@ + r.crate_name@ + " with "@ + r.provider@ + "/"@ + r.model@] + results_lines(r.results@, r.results@.len())
}

fn finding_kind_text(k: FindingKind) -> (r: String)
    ensures
        r@ == finding_kind_name(k),
{
    match k {
        FindingKind::ClaimConflict => string_lit("ClaimConflict"),
        FindingKind::ImplementationViolation => string_lit("ImplementationViolation"),
    }
}

fn push_finding_lines(lines: &mut Vec<String>, f: &AnalysisFinding)
    ensures
        final(lines).deep_view() == old(lines).deep_view() + seq![
            "  "@ + finding_kind_name(f.kind) + ": "@ + f.reason@ + " ["@ + join_comma(f.claims.deep_view()) + "]"@,
        ] + f.ranges.deep_view().map_values(|r: SourceRangeV| "    "@ + range_text_line(r)),
{
    let ghost start = lines.deep_view();
    let mut line = string_lit("  ");
    let kn = finding_kind_text(f.kind);
    append(&mut line, kn.as_str());
    append(&mut line, ": ");
    append(&mut line, f.reason.as_str());
    append(&mut line, " [");
    let joined = join_commas(&f.claims);
    append(&mut line, joined.as_str());
    append(&mut line, "]");
    push_line(lines, line);
    let ghost head = lines.deep_view();
    let ghost rv = f.ranges.deep_view();
    let mut k: usize = 0;
    while k < f.ranges.len()
        invariant
            k <= f.ranges.len(),
            rv == f.ranges.deep_view(),
            lines.deep_view() == head + rv.take(k as int).map_values(|r: SourceRangeV| "    "@ + range_text_line(r)),
        decreases f.ranges.len() - k,
    {
        let t = format_range(&f.ranges[k]);
        push_line(lines, concat("    ", t.as_str()));
        assert(rv.take(k + 1) =~= rv.take(k as int).push(rv[k as int]));
        assert(lines.deep_view() =~= head + rv.take(k + 1).map_values(|r: SourceRangeV| "    "@ + range_text_line(r)));
        k = k + 1;
    }
    assert(rv.take(k as int) =~= rv);
    assert(lines.deep_view() =~= start + seq![
        "  "@ + finding_kind_name(f.kind) + ": "@ + f.reason@ + " ["@ + join_comma(f.claims.deep_view()) + "]"@,
    ] + rv.map_values(|r: SourceRangeV| "    "@ + range_text_line(r)));
}

fn push_target_lines(lines: &mut Vec<String>, t: &AnalyzedTarget)
    ensures
        final(lines).deep_view() == old(lines).deep_view() + target_lines(*t),
{
    let ghost start = lines.deep_view();
    let label = t.target.label();
    match &t.result {
        AnalysisExecution::Completed { verdict } => match verdict {
            AnalysisVerdict::Pass => {
                push_line(lines, concat("pass: ", label.as_str()));
                assert(lines.deep_view() =~= start + target_lines(*t));
            },
            AnalysisVerdict::Indeterminate { reason } => {
                let mut line = concat("indeterminate: ", label.as_str());
                append(&mut line, ": ");
                append(&mut line, reason.as_str());
                push_line(lines, line);
                assert(lines.deep_view() =~= start + target_lines(*t));
            },
            AnalysisVerdict::Fail { findings } => {
                push_line(lines, concat("fail: ", label.as_str()));
                let ghost head = lines.deep_view();
                let mut k: usize = 0;
                while k < findings.len()
                    invariant
                        k <= findings.len(),
                        lines.deep_view() == head + finding_lines(findings@, k as nat),
                    decreases findings.len() - k,
                {
                    push_finding_lines(lines, &findings[k]);
                    assert(lines.deep_view() =~= head + finding_lines(findings@, (k + 1) as nat));
                    k = k + 1;
                }
                assert(lines.deep_view() =~= start + target_lines(*t));
            },
        },
        AnalysisExecution::Error { message } => {
            let mut line = concat("error: ", label.as_str());
            append(&mut line, ": ");
            append(&mut line, message.as_str());
            push_line(lines, line);
            assert(lines.deep_view() =~= start + target_lines(*t));
        },
    }
}

/// Returns the lines of a semantic analysis report for human readers.
pub fn analysis_lines(report: &AnalysisReport) -> (r: Vec<String>)
    ensures
        r.deep_view() == report_lines(*report),
{
    let mut lines: Vec<String> = Vec::new();
    let mut line = concat("analyzed ", report.crate_name.as_str());
    append(&mut line, " with ");
    append(&mut line, report.provider.as_str());
    append(&mut line, "/");
    append(&mut line, report.model.as_str());
    push_line(&mut lines, line);
    let ghost head = lines.deep_view();
    let mut k: usize = 0;
    while k < report.results.len()
        invariant
            k <= report.results.len(),
            lines.deep_view() == head + results_lines(report.results@, k as nat),
        decreases report.results.len() - k,
    {
        push_target_lines(&mut lines, &report.results[k]);
        assert(lines.deep_view() =~= head + results_lines(report.results@, (k + 1) as nat));
        k = k + 1;
    }
    assert(lines.deep_view() =~= report_lines(*report));
    lines
}

} // verus!
