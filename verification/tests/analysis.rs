use specdrs::analysis::{
    resolve_config, sort_by_label, split_request_claims, AnalysisExecution, AnalysisFinding,
    AnalysisJob, AnalysisReport, AnalysisTarget, AnalysisVerdict, AnalyzedTarget, AnalyzerConfig,
    AnalyzerConfigOverride, FindingKind, TargetFilter,
};
use specdrs::model::{
    Axis, AxisEntry, AxisStatus, Claim, ClaimKind, Item, KnowledgeMap, SourcePosition,
    SourceRange, Span,
};

fn axes_with_claim(id: &str) -> Vec<AxisEntry> {
    let mut axes = Axis::empty_map();
    let entry = &mut axes[Axis::Job.index()];
    entry.status = AxisStatus::Specified;
    entry.claims.push(Claim {
        id: id.into(),
        kind: ClaimKind::Constraint,
        text: id.into(),
        evidence: Vec::new(),
    });
    axes
}

fn range(sl: usize, sc: usize, el: usize, ec: usize) -> SourceRange {
    SourceRange {
        file: "src/lib.rs".into(),
        start: SourcePosition { line: sl, column: sc },
        end: SourcePosition { line: el, column: ec },
    }
}

fn test_range() -> SourceRange {
    range(1, 0, 1, 12)
}

fn scope_map() -> KnowledgeMap {
    KnowledgeMap {
        schema: 2,
        crate_name: "sample".into(),
        spans: vec![
            Span {
                id: "operation".into(),
                parent: None,
                entry: "sample::work".into(),
                members: vec!["sample::work".into()],
                axes: axes_with_claim("span_claim"),
            },
            Span {
                id: "operation.child".into(),
                parent: Some("operation".into()),
                entry: "sample::child".into(),
                members: vec!["sample::child".into()],
                axes: Axis::empty_map(),
            },
        ],
        items: vec![
            (
                "sample::child".into(),
                Item {
                    source: range(2, 0, 2, 13),
                    signature: "fn child()".into(),
                    spans: vec!["operation.child".into()],
                    axes: Axis::empty_map(),
                },
            ),
            (
                "sample::work".into(),
                Item {
                    source: test_range(),
                    signature: "fn work()".into(),
                    spans: vec!["operation".into()],
                    axes: axes_with_claim("item_claim"),
                },
            ),
        ],
    }
}

fn claim_owners(job: &AnalysisJob) -> Vec<&str> {
    job.claims.iter().map(|claim| claim.owner.as_str()).collect()
}

#[test]
fn source_range_extracts_exact_text() {
    assert_eq!(range(2, 1, 3, 2).slice("zero\nabc\ndef\n").unwrap(), "bc\nde");
}

#[test]
fn source_ranges_count_columns_in_bytes() {
    assert_eq!(range(1, 2, 1, 6).slice("é→x\n").unwrap(), "→x");
    assert_eq!(
        range(1, 1, 1, 2).slice("é\n").unwrap_err(),
        "range does not end on UTF-8 boundaries"
    );
    assert_eq!(range(0, 0, 1, 0).slice("a").unwrap_err(), "line numbers are one-based");
    assert_eq!(range(3, 0, 3, 0).slice("a\n").unwrap_err(), "line 3 does not exist");
    assert_eq!(range(1, 5, 1, 5).slice("ab\n").unwrap_err(), "column 5 is outside line 1");
    assert_eq!(range(1, 2, 1, 1).slice("ab\n").unwrap_err(), "start is after end");
}

#[test]
fn fail_requires_a_concrete_finding() {
    let error = AnalysisVerdict::Fail { findings: vec![] }
        .validate(&Vec::new(), &vec![range(1, 0, 1, 1)])
        .unwrap_err();
    assert!(error.contains("without findings"));
}

#[test]
fn explicit_violation_cannot_be_indeterminate() {
    let item_range = range(4, 0, 8, 1);
    let claim_ids = vec!["item:payments::capture/positive".to_string()];
    let verdict = AnalysisVerdict::Indeterminate {
        reason: "The implementation violates item:payments::capture/positive.".into(),
    }
    .normalize(&claim_ids, &vec![item_range.duplicate()]);
    let AnalysisVerdict::Fail { findings } = verdict else {
        panic!("explicit violation was not converted to a failure");
    };
    assert_eq!(findings[0].kind, FindingKind::ImplementationViolation);
    assert_eq!(findings[0].ranges.len(), 1);
    assert_eq!(findings[0].ranges[0].end.line, 8);
}

#[test]
fn indeterminate_without_a_named_claim_stays_indeterminate() {
    let claim_ids = vec!["item:a/x".to_string()];
    let verdict = AnalysisVerdict::Indeterminate { reason: "It CONTRADICTS nothing named.".into() }
        .normalize(&claim_ids, &Vec::new());
    assert!(matches!(verdict, AnalysisVerdict::Indeterminate { .. }));
    let verdict = AnalysisVerdict::Indeterminate { reason: "item:a/x is fine.".into() }
        .normalize(&claim_ids, &Vec::new());
    assert!(matches!(verdict, AnalysisVerdict::Indeterminate { .. }));
    let verdict = AnalysisVerdict::Indeterminate { reason: "Code CONTRADICTS item:a/x.".into() }
        .normalize(&claim_ids, &Vec::new());
    assert!(matches!(verdict, AnalysisVerdict::Fail { .. }));
}

#[test]
fn package_config_overrides_workspace_config() {
    let workspace = AnalyzerConfig {
        provider: "ollama".into(),
        model: "gemma3:4b".into(),
        base_url: specdrs::analysis::default_base_url(),
        max_concurrency: specdrs::analysis::default_concurrency(),
        timeout_seconds: specdrs::analysis::default_timeout(),
        max_output_tokens: specdrs::analysis::default_output_tokens(),
    };
    let package = AnalyzerConfigOverride {
        provider: None,
        model: Some("gemma3:12b".into()),
        base_url: None,
        max_concurrency: Some(2),
        timeout_seconds: None,
        max_output_tokens: None,
    };
    let analyze = resolve_config(Some(workspace), Some(package), None, "specdrs.toml").unwrap();
    assert_eq!(analyze.model, "gemma3:12b");
    assert_eq!(analyze.max_concurrency, 2);
    assert_eq!(analyze.base_url, "http://localhost:11434");
}

#[test]
fn configuration_rules_are_checked() {
    let config = |provider: &str, model: &str, jobs: usize| AnalyzerConfig {
        provider: provider.into(),
        model: model.into(),
        base_url: "http://localhost:11434".into(),
        max_concurrency: jobs,
        timeout_seconds: 300,
        max_output_tokens: 2048,
    };
    assert_eq!(
        resolve_config(None, None, None, "specdrs.toml").unwrap_err().message,
        "specdrs.toml has no [analyze] table"
    );
    assert_eq!(
        config("openai", "m", 1).validate().unwrap_err().message,
        "unsupported analyzer provider `openai`; this build supports `ollama`"
    );
    assert_eq!(
        config("ollama", "  ", 1).validate().unwrap_err().message,
        "analyze.model must be a local Ollama model tag"
    );
    assert_eq!(
        resolve_config(Some(config("ollama", "m", 1)), None, Some(0), "x").unwrap_err().message,
        "analyze.max_concurrency must be greater than zero"
    );
    assert_eq!(
        resolve_config(Some(config("ollama", "m", 1)), None, Some(4), "x").unwrap().max_concurrency,
        4
    );
}

#[test]
fn jobs_separate_span_and_item_scope() {
    let jobs = AnalysisJob::prepare_all(&scope_map(), &TargetFilter::All).unwrap();
    assert_eq!(
        jobs.iter().map(|job| job.target.label()).collect::<Vec<_>>(),
        ["span:operation", "item:sample::child", "item:sample::work"],
        "`sample::child` owns no claim but inherits one, so it is audited too"
    );
    assert_eq!(claim_owners(&jobs[0]), ["span:operation"], "a span job carries only its own claims");
    assert_eq!(
        claim_owners(&jobs[2]),
        ["span:operation", "item:sample::work"],
        "an item job carries its span chain ancestor-first, then its own claims"
    );
    assert_eq!(
        claim_owners(&jobs[1]),
        ["span:operation"],
        "an item that owns nothing carries only inherited claims"
    );
}

#[test]
fn item_requests_split_owned_claims_from_inherited_context() {
    let jobs = AnalysisJob::prepare_all(&scope_map(), &TargetFilter::All).unwrap();
    let owners = |claims: &Vec<specdrs::analysis::RequestClaim>| {
        claims.iter().map(|c| c.owner.clone()).collect::<Vec<_>>()
    };
    let (own, context) = split_request_claims(&jobs[2].target, &jobs[2].claims);
    assert_eq!(owners(&own), ["item:sample::work"]);
    assert_eq!(owners(&context), ["span:operation"]);
    assert_eq!(own[0].id, "item:sample::work/item_claim");

    let (own, context) = split_request_claims(&jobs[1].target, &jobs[1].claims);
    assert!(own.is_empty(), "an item owning no claim has no obligations of its own");
    assert_eq!(owners(&context), ["span:operation"]);

    let (own, context) = split_request_claims(&jobs[0].target, &jobs[0].claims);
    assert_eq!(owners(&own), ["span:operation"]);
    assert!(context.is_empty(), "an empty context must stay out of the request entirely");
}

#[test]
fn span_jobs_exclude_descendant_members() {
    let jobs = AnalysisJob::prepare_all(&scope_map(), &TargetFilter::All).unwrap();
    let span_job = jobs
        .iter()
        .find(|job| matches!(job.target, AnalysisTarget::Span { .. }))
        .expect("the claimed parent span should produce a job");
    assert_eq!(
        span_job.sources.iter().map(|source| source.item.as_str()).collect::<Vec<_>>(),
        ["sample::work"],
        "`sample::child` belongs to the child span and must not widen the parent span job"
    );
}

#[test]
fn named_targets_select_exactly_what_is_named() {
    let map = scope_map();
    let only_span = AnalysisJob::prepare_all(
        &map,
        &TargetFilter::Named { spans: vec!["operation".into()], items: Vec::new() },
    )
    .unwrap();
    let only_item = AnalysisJob::prepare_all(
        &map,
        &TargetFilter::Named { spans: Vec::new(), items: vec!["sample::work".into()] },
    )
    .unwrap();
    assert_eq!(only_span.len(), 1);
    assert!(matches!(only_span[0].target, AnalysisTarget::Span { .. }));
    assert_eq!(only_item.len(), 1);
    assert!(matches!(only_item[0].target, AnalysisTarget::Item { .. }));
}

#[test]
fn unauditable_named_targets_are_reported() {
    let error = TargetFilter::Named {
        spans: vec!["operation".into(), "operation.child".into(), "missing-span".into()],
        items: vec!["sample::absent".into()],
    }
    .validate(&scope_map())
    .expect_err("absent and claim-less targets should be reported");
    assert_eq!(
        error.message,
        "span `operation.child` declares no claim to audit\n\
         unknown analysis target: item `sample::absent`\n\
         unknown analysis target: span `missing-span`"
    );
}

#[test]
fn out_of_bounds_findings_are_rejected() {
    let allowed = test_range();
    let verdict = AnalysisVerdict::Fail {
        findings: vec![AnalysisFinding {
            kind: FindingKind::ImplementationViolation,
            claims: vec!["item:sample::work/claim".into()],
            ranges: vec![range(1, 0, 2, 0)],
            reason: "Concrete violation.".into(),
        }],
    };
    let error = verdict
        .validate(&vec!["item:sample::work/claim".to_string()], &vec![allowed])
        .unwrap_err();
    assert!(error.contains("outside the audited sources"));
}

#[test]
fn findings_need_known_claims_and_reasons() {
    let finding = |claims: Vec<&str>, reason: &str| AnalysisVerdict::Fail {
        findings: vec![AnalysisFinding {
            kind: FindingKind::ClaimConflict,
            claims: claims.into_iter().map(String::from).collect(),
            ranges: vec![test_range()],
            reason: reason.into(),
        }],
    };
    let ids = vec!["span:a/x".to_string()];
    let allowed = vec![test_range()];
    assert_eq!(
        finding(vec!["span:a/y"], "r").validate(&ids, &allowed).unwrap_err(),
        "Ollama returned unknown claim ID `span:a/y`"
    );
    assert_eq!(
        finding(vec![], "r").validate(&ids, &allowed).unwrap_err(),
        "Ollama returned a finding without claim IDs"
    );
    assert_eq!(
        finding(vec!["span:a/x"], " \n").validate(&ids, &allowed).unwrap_err(),
        "Ollama returned a finding without a reason"
    );
    assert!(finding(vec!["span:a/x"], "Real.").validate(&ids, &allowed).is_ok());
}

#[test]
fn report_passes_only_when_every_job_passes() {
    let passing = AnalyzedTarget {
        target: AnalysisTarget::Span { id: "work".into() },
        sources: vec![test_range()],
        result: AnalysisExecution::Completed { verdict: AnalysisVerdict::Pass },
    };
    let mut report = AnalysisReport {
        schema: 2,
        crate_name: "sample".into(),
        provider: "ollama".into(),
        model: "gemma4:26b".into(),
        results: vec![passing],
    };
    assert!(report.passed());
    report.results[0].result = AnalysisExecution::Completed {
        verdict: AnalysisVerdict::Indeterminate { reason: "Missing context.".into() },
    };
    assert!(!report.passed());
}

#[test]
fn results_are_ordered_by_label() {
    let target = |t: AnalysisTarget| AnalyzedTarget {
        target: t,
        sources: Vec::new(),
        result: AnalysisExecution::Error { message: "x".into() },
    };
    let sorted = sort_by_label(vec![
        target(AnalysisTarget::Span { id: "b".into() }),
        target(AnalysisTarget::Item { path: "z".into() }),
        target(AnalysisTarget::Span { id: "a".into() }),
    ]);
    let labels: Vec<String> = sorted.iter().map(|r| r.target.label()).collect();
    assert_eq!(labels, ["item:z", "span:a", "span:b"]);
}
