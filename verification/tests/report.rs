use specdrs::analysis::{
    AnalysisExecution, AnalysisFinding, AnalysisReport, AnalysisTarget, AnalysisVerdict,
    AnalyzedTarget, FindingKind,
};
use specdrs::model::{
    Axis, AxisEntry, AxisStatus, Claim, ClaimKind, Evidence, EvidenceKind, EvidenceResult, Item,
    KnowledgeMap, SourcePosition, SourceRange, Span,
};
use specdrs::projection::{ClaimProjection, GroupKey};
use specdrs::report::{analysis_lines, check_map, projection_lines, show_view, unspecified_axes};

fn sample_map() -> KnowledgeMap {
    let mut span_axes = Axis::empty_map();
    span_axes[Axis::Job.index()] = AxisEntry {
        status: AxisStatus::Specified,
        reason: None,
        claims: vec![Claim {
            id: "purpose".into(),
            kind: ClaimKind::Objective,
            text: "Charge.".into(),
            evidence: vec![Evidence {
                kind: EvidenceKind::Test,
                binder: "sample::tests::charge".into(),
                result: EvidenceResult::Unavailable,
            }],
        }],
    };
    span_axes[Axis::State.index()].status = AxisStatus::NotApplicable;
    let mut item_axes = Axis::empty_map();
    item_axes[Axis::Time.index()] = AxisEntry {
        status: AxisStatus::Specified,
        reason: None,
        claims: vec![Claim {
            id: "fast".into(),
            kind: ClaimKind::Constraint,
            text: "Fast.".into(),
            evidence: Vec::new(),
        }],
    };
    KnowledgeMap {
        schema: 2,
        crate_name: "sample".into(),
        spans: vec![Span {
            id: "checkout".into(),
            parent: None,
            entry: "sample::charge".into(),
            members: vec!["sample::charge".into()],
            axes: span_axes,
        }],
        items: vec![
            (
                "sample::charge".into(),
                Item {
                    source: SourceRange {
                        file: "src/lib.rs".into(),
                        start: SourcePosition { line: 3, column: 0 },
                        end: SourcePosition { line: 5, column: 1 },
                    },
                    signature: "pub fn charge()".into(),
                    spans: vec!["checkout".into()],
                    axes: item_axes,
                },
            ),
            (
                "sample::idle".into(),
                Item {
                    source: SourceRange {
                        file: "src/lib.rs".into(),
                        start: SourcePosition { line: 7, column: 0 },
                        end: SourcePosition { line: 7, column: 12 },
                    },
                    signature: "fn idle()".into(),
                    spans: Vec::new(),
                    axes: Axis::empty_map(),
                },
            ),
        ],
    }
}

#[test]
fn check_counts_gaps_of_engaged_owners_only() {
    let outcome = check_map(&sample_map());
    assert_eq!(
        outcome.lines,
        [
            "checked 1 spans and 2 items; 21 unspecified axes; 1 claims without evidence",
            "unsupported: item:sample::charge/fast [Time, Constraint]",
        ]
    );
    assert_eq!(
        outcome.failure.as_deref(),
        Some("1 evidence link(s) are unavailable:\nspan:checkout/purpose: Test sample::tests::charge")
    );
}

#[test]
fn show_describes_spans_and_items() {
    let map = sample_map();
    let span = show_view(&map, &"checkout".to_string()).unwrap();
    assert_eq!(span.target, "span:checkout");
    assert_eq!(span.header, ["span:checkout", "entry: sample::charge", "members:", "  sample::charge"]);
    assert_eq!(span.claims.len(), 1);
    assert_eq!(span.unspecified.len(), 10);
    let item = show_view(&map, &"sample::charge".to_string()).unwrap();
    assert_eq!(
        item.header,
        [
            "item:sample::charge",
            "source: src/lib.rs:3:0-5:1",
            "signature: pub fn charge()",
            "spans: checkout",
        ]
    );
    assert_eq!(
        item.claims.iter().map(|c| c.owner.as_str()).collect::<Vec<_>>(),
        ["span:checkout", "item:sample::charge"]
    );
    assert_eq!(
        show_view(&map, &"nothing".to_string()).unwrap_err(),
        "no span or item named `nothing`"
    );
    assert_eq!(unspecified_axes(&Axis::empty_map()).len(), 12);
}

#[test]
fn projections_print_headings_only_where_groups_change() {
    let map = sample_map();
    let item = show_view(&map, &"sample::charge".to_string()).unwrap();
    let projection = ClaimProjection::new(item.claims, vec![GroupKey::Kind, GroupKey::Owner]).unwrap();
    assert_eq!(
        projection_lines(&projection),
        [
            "kind: objectives",
            "  owner: span:checkout",
            "    - span:checkout/purpose: Charge.",
            "      evidence Test: sample::tests::charge [Unavailable]",
            "kind: constraints",
            "  owner: item:sample::charge",
            "    - item:sample::charge/fast: Fast.",
        ]
    );
}

#[test]
fn analysis_reports_print_each_result() {
    let report = AnalysisReport {
        schema: 2,
        crate_name: "sample".into(),
        provider: "ollama".into(),
        model: "gemma4:26b".into(),
        results: vec![
            AnalyzedTarget {
                target: AnalysisTarget::Item { path: "sample::charge".into() },
                sources: Vec::new(),
                result: AnalysisExecution::Completed {
                    verdict: AnalysisVerdict::Fail {
                        findings: vec![AnalysisFinding {
                            kind: FindingKind::ClaimConflict,
                            claims: vec!["a/x".into(), "a/y".into()],
                            ranges: vec![SourceRange {
                                file: "src/lib.rs".into(),
                                start: SourcePosition { line: 1, column: 0 },
                                end: SourcePosition { line: 2, column: 3 },
                            }],
                            reason: "They conflict.".into(),
                        }],
                    },
                },
            },
            AnalyzedTarget {
                target: AnalysisTarget::Span { id: "checkout".into() },
                sources: Vec::new(),
                result: AnalysisExecution::Error { message: "timed out".into() },
            },
        ],
    };
    assert_eq!(
        analysis_lines(&report),
        [
            "analyzed sample with ollama/gemma4:26b",
            "fail: item:sample::charge",
            "  ClaimConflict: They conflict. [a/x, a/y]",
            "    src/lib.rs:1:0-2:3",
            "error: span:checkout: timed out",
        ]
    );
}
