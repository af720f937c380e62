use specdrs::assembly::{
    assemble, collect_declarations, collect_span_ids, item_span_sets, resolve_evidence,
    validate_container_spans, Declaration, ItemShape, ScanIndex, ScannedItem, ScannedSource,
    ScannedSpan,
};
use specdrs::attribute::{parse_specdrs_args, EvidenceArgs, SpecdrsArgs};
use specdrs::identity::{
    binder_path, impl_owner_paths, item_path, normalize_binder, PathSyntax, QualifiedSelf,
    SegmentSyntax, TypePathSyntax, TypeSyntax,
};
use specdrs::metadata::{crate_name_of, select_package, select_target, PackageInfo, TargetInfo};
use specdrs::model::{Axis, EvidenceKind, EvidenceResult, SourcePosition};
use specdrs::scan::{
    distributed_spans, has_attribute, module_memberships, module_span_declarations,
    parse_annotations, AttributeText, FileScan, ItemText, MacroText, MethodText, ScannedEntry,
    Scanner,
};

fn strings(values: &[&str]) -> Vec<String> {
    values.iter().map(|value| value.to_string()).collect()
}

/// A path written as `syn` reads it: segment identifiers with their printed text.
fn path(segments: &[(&str, &str)]) -> PathSyntax {
    PathSyntax {
        leading_colon: false,
        segments: segments
            .iter()
            .map(|(ident, printed)| SegmentSyntax(ident.to_string(), printed.to_string()))
            .collect(),
    }
}

/// A plain path type with its printed text.
fn path_type(segments: &[(&str, &str)], printed: &str) -> TypeSyntax {
    TypeSyntax {
        path: Some(path(segments)),
        qualified: false,
        printed: printed.into(),
    }
}

fn position(line: usize) -> SourcePosition {
    SourcePosition { line, column: 0 }
}

fn item(shape: ItemShape, annotations: Vec<SpecdrsArgs>, inherited: &[&str]) -> ScannedItem {
    ScannedItem {
        source: ScannedSource {
            file: "src/lib.rs".into(),
            start: position(1),
            end: position(2),
            signature: "fn sample()".into(),
            modules: strings(&["sample"]),
        },
        shape,
        annotations,
        inherited_spans: strings(inherited),
    }
}

fn args(text: &str) -> SpecdrsArgs {
    parse_specdrs_args(text).expect("the annotation parses")
}

fn index(items: Vec<(&str, ScannedItem)>) -> ScanIndex {
    ScanIndex {
        crate_name: "sample".into(),
        items: items
            .into_iter()
            .map(|(path, item)| (path.to_string(), item))
            .collect(),
        aliases: Vec::new(),
        span_declarations: Vec::new(),
        container_members: Vec::new(),
    }
}

fn specdrs_attr(text: &str) -> AttributeText {
    AttributeText {
        name: "specdrs".into(),
        arguments: Some(text.into()),
    }
}

fn method(name: &str, line: usize) -> MethodText {
    MethodText {
        name: name.into(),
        item: ItemText {
            attrs: Vec::new(),
            start: position(line),
            end: position(line),
            signature: format!("fn {name} (& self)"),
        },
    }
}

#[test]
fn normalizes_relative_binders() {
    let module = strings(&["payments", "charge"]);

    assert_eq!(
        normalize_binder("crate::tests::order", &module, "payments"),
        "payments::tests::order"
    );
    assert_eq!(
        normalize_binder("self::local_test", &module, "payments"),
        "payments::charge::local_test"
    );
    assert_eq!(
        normalize_binder("super::tests::order", &module, "payments"),
        "payments::tests::order"
    );
}

#[test]
fn bare_and_crate_qualified_binders_resolve_against_the_module() {
    let module = strings(&["payments", "charge"]);
    assert_eq!(
        normalize_binder("helper", &module, "payments"),
        "payments::charge::helper"
    );
    assert_eq!(
        normalize_binder("payments :: tests :: order", &module, "payments"),
        "payments::tests::order"
    );
    assert_eq!(
        normalize_binder("::std::fmt::Display", &module, "payments"),
        "std::fmt::Display"
    );
    assert_eq!(
        normalize_binder("<Receipt>::from", &module, "payments"),
        "<payments::charge::Receipt>::from"
    );
}

#[test]
fn inherent_impl_paths_follow_the_implemented_type() {
    let module = strings(&["payments", "adapters"]);

    assert_eq!(
        impl_owner_paths(
            &path_type(
                &[("crate", "crate"), ("checkout", "checkout"), ("Charge", "Charge")],
                "crate :: checkout :: Charge"
            ),
            &None,
            &module
        ).unwrap(),
        ("payments::checkout::Charge".to_string(), None)
    );
}

#[test]
fn trait_impl_paths_include_the_trait_and_its_arguments() {
    let module = strings(&["payments", "adapters"]);

    assert_eq!(
        impl_owner_paths(
            &path_type(&[("Receipt", "Receipt")], "Receipt"),
            &Some(path(&[("From", "From < Request >")])),
            &module
        ).unwrap(),
        (
            "<payments::adapters::Receipt as From<Request>>".to_string(),
            Some("payments::adapters::Receipt".to_string())
        )
    );
    assert_eq!(
        normalize_binder("<Receipt as From<Request>>::from", &module, "payments"),
        "<payments::adapters::Receipt as From<Request>>::from"
    );
}

#[test]
fn item_paths_join_modules_and_names() {
    assert_eq!(item_path(&strings(&["payments", "charge"]), "run"), "payments::charge::run");
    assert_eq!(item_path(&Vec::new(), "run"), "run");
}

#[test]
fn ambiguous_short_evidence_binders_report_qualified_candidates() {
    let first = "<payments::Subject as First>::shared".to_owned();
    let second = "<payments::Subject as Second>::shared".to_owned();
    let mut ix = index(vec![
        (first.as_str(), item(ItemShape::Function { test: true }, Vec::new(), &[])),
        (second.as_str(), item(ItemShape::Function { test: true }, Vec::new(), &[])),
    ]);
    ix.crate_name = "payments".into();
    ix.aliases = vec![("payments::Subject::shared".to_owned(), vec![first, second])];

    let (evidence, problem) = resolve_evidence(
        &ix,
        &"item:payments::charge".to_string(),
        &"evidence".to_string(),
        &strings(&["payments"]),
        &EvidenceArgs {
            kind: EvidenceKind::Test,
            binder: "Subject::shared".into(),
        },
    );

    assert_eq!(evidence.result, EvidenceResult::Unavailable);
    let problem = problem.expect("an ambiguous binder is reported");
    assert!(problem.contains("is ambiguous"));
    assert!(problem.contains("<payments::Subject as First>::shared"));
    assert!(problem.contains("<payments::Subject as Second>::shared"));
}

#[test]
fn malformed_attributes_report_file_and_line() {
    let attrs = vec![AttributeText {
        name: "specdrs".into(),
        arguments: None,
    }];
    let mut errors = Vec::new();
    let annotations = parse_annotations(&attrs, "src/lib.rs", 2, &mut errors);

    assert!(annotations.is_empty());
    assert_eq!(errors.len(), 1, "{errors:?}");
    assert!(
        errors[0].starts_with("src/lib.rs:2: specdrs requires arguments"),
        "{}",
        errors[0]
    );
}

#[test]
fn unparsable_attributes_report_file_and_line_and_others_are_ignored() {
    let attrs = vec![
        AttributeText {
            name: "doc".into(),
            arguments: None,
        },
        specdrs_attr("nonsense(1)"),
        specdrs_attr("in_spans(\"audit\")"),
    ];
    let mut errors = Vec::new();
    let annotations = parse_annotations(&attrs, "src/lib.rs", 9, &mut errors);
    assert_eq!(annotations.len(), 1);
    assert_eq!(errors.len(), 1, "{errors:?}");
    assert!(errors[0].starts_with("src/lib.rs:9: invalid specdrs attribute: "));
    assert!(has_attribute(&attrs, "doc"));
    assert!(!has_attribute(&attrs, "test"));
}

#[test]
fn declared_and_joined_spans_are_handed_down_once() {
    let annotations = vec![
        args("in_spans(\"audit\", \"gateway\")"),
        args("span(id = \"gateway\")"),
    ];
    assert_eq!(distributed_spans(&annotations), ["audit", "gateway"]);
}

#[test]
fn containers_distribute_declared_and_joined_spans() {
    let attrs = vec![specdrs_attr(
        "in_spans(\"audit\"), span(id = \"gateway\", entry = self::Gateway::send)",
    )];
    let mut scan = FileScan::new();
    scan.scan_impl(
        &attrs,
        2,
        &"src/lib.rs".to_string(),
        &strings(&["payments"]),
        &Vec::new(),
        &path_type(&[("Gateway", "Gateway")], "Gateway"),
        &None,
        &vec![method("send", 3), method("retry", 4)],
    );

    assert!(scan.errors.is_empty(), "{:?}", scan.errors);
    assert_eq!(scan.items.len(), 2);
    for entry in &scan.items {
        assert_eq!(
            entry.item.inherited_spans,
            ["audit", "gateway"],
            "`{}` should carry both the joined and the declared span",
            entry.path
        );
    }
    assert_eq!(scan.span_declarations.len(), 1);
    let declaration = &scan.span_declarations[0];
    assert_eq!(declaration.id, "gateway");
    assert_eq!(declaration.entry, "self :: Gateway :: send");
    assert_eq!(declaration.modules, ["payments"]);
    assert!(
        declaration.container.is_some(),
        "an impl-declared span records its container"
    );
    assert_eq!(scan.container_members.len(), 1);
    assert_eq!(scan.container_members[0].0, "gateway");
    assert_eq!(
        scan.container_members[0].1,
        ["payments::Gateway::retry", "payments::Gateway::send"],
        "the block seeds every method it declares"
    );
}

#[test]
fn impl_declarations_reject_missing_entry_and_claims() {
    let mut scan = FileScan::new();
    scan.scan_impl(
        &vec![specdrs_attr("span(id = \"no-entry\")")],
        2,
        &"src/lib.rs".to_string(),
        &strings(&["payments"]),
        &Vec::new(),
        &path_type(&[("First", "First")], "First"),
        &None,
        &vec![method("a", 3)],
    );
    scan.scan_impl(
        &vec![specdrs_attr(
            "claims(Constraints(Job(\"No owner.\" as no_owner)))",
        )],
        6,
        &"src/lib.rs".to_string(),
        &strings(&["payments"]),
        &Vec::new(),
        &path_type(&[("Second", "Second")], "Second"),
        &None,
        &vec![method("b", 7)],
    );

    assert!(
        scan.span_declarations.is_empty(),
        "a declaration without `entry` contributes no span"
    );
    assert_eq!(scan.errors.len(), 2, "{:?}", scan.errors);
    assert!(
        scan.errors[0]
            .starts_with("src/lib.rs:2: span `no-entry` declared on an impl block requires `entry`"),
        "{}",
        scan.errors[0]
    );
    assert!(
        scan.errors[1].starts_with("src/lib.rs:6: an impl block cannot own claims"),
        "{}",
        scan.errors[1]
    );
}

#[test]
fn trait_impl_methods_are_recorded_with_their_inherent_alias() {
    let mut scan = FileScan::new();
    scan.scan_impl(
        &Vec::new(),
        1,
        &"src/lib.rs".to_string(),
        &strings(&["payments"]),
        &strings(&["billing"]),
        &path_type(&[("Receipt", "Receipt")], "Receipt"),
        &Some(path(&[("From", "From < Request >")])),
        &vec![method("from", 2)],
    );
    assert_eq!(scan.items.len(), 1);
    assert_eq!(
        scan.items[0].path,
        "<payments::Receipt as From<Request>>::from"
    );
    assert_eq!(
        scan.items[0].alias.as_deref(),
        Some("payments::Receipt::from")
    );
    assert_eq!(scan.items[0].item.inherited_spans, ["billing"]);
    assert_eq!(scan.items[0].item.source.signature, "fn from(&self)");
}

#[test]
fn container_spans_reject_outside_members() {
    let mut ix = index(vec![
        ("payments::Gateway", item(ItemShape::Type, Vec::new(), &["gateway"])),
        ("payments::Gateway::send", item(ItemShape::Function { test: false }, Vec::new(), &["gateway"])),
        ("payments::elsewhere", item(ItemShape::Function { test: false }, Vec::new(), &["gateway"])),
    ]);
    ix.container_members = vec![(
        "gateway".to_owned(),
        strings(&["payments::Gateway::send"]),
    )];
    let decls = vec![Declaration {
        id: "gateway".into(),
        parent: None,
        entry: "payments::Gateway".into(),
        claims: None,
        modules: strings(&["payments"]),
        container: Some("src/lib.rs:2".into()),
        problem: None,
    }];
    let ids = collect_span_ids(&ix, &decls);
    let sets = item_span_sets(&ix, &decls);
    let mut errors = Vec::new();
    validate_container_spans(&ix, &ids, &decls, &sets, &mut errors);

    assert_eq!(errors.len(), 1, "{errors:?}");
    assert!(errors[0].contains("span `gateway`"));
    assert!(errors[0].contains("src/lib.rs:2"));
    assert!(
        errors[0].contains("`payments::elsewhere` joins it from outside"),
        "{}",
        errors[0]
    );

    ix.container_members = Vec::new();
    let mut open = Vec::new();
    validate_container_spans(&ix, &ids, &decls, &sets, &mut open);
    assert!(
        open.is_empty(),
        "a span no container seeded stays open: {open:?}"
    );
}

#[test]
fn span_macro_carries_its_module_path() {
    let top = vec![MacroText {
        name: "specdrs_span".into(),
        line: 2,
        tokens: "id = \"ledger\", parent = \"checkout\", entry = self::capture, claims(Constraints(Invariants(\"Recorded once.\" as recorded)))".into(),
    }];
    let mut errors = Vec::new();
    let declarations = module_span_declarations(&top, "src/lib.rs", &strings(&["sample"]), &mut errors);
    assert!(errors.is_empty(), "{errors:?}");
    assert_eq!(declarations.len(), 1);
    assert_eq!(declarations[0].id, "ledger");
    assert_eq!(declarations[0].parent.as_deref(), Some("checkout"));
    assert_eq!(declarations[0].entry, "self :: capture");
    assert_eq!(declarations[0].modules, ["sample"]);

    let inner = vec![MacroText {
        name: "specdrs_span".into(),
        line: 9,
        tokens: "id = \"inner\", entry = self::work".into(),
    }];
    let nested = module_span_declarations(&inner, "src/lib.rs", &strings(&["sample", "inner"]), &mut errors);
    assert_eq!(
        nested[0].modules,
        ["sample", "inner"],
        "an inline module declaration resolves against the child module path"
    );
}

#[test]
fn span_macro_requires_an_entry() {
    let macros = vec![
        MacroText {
            name: "specdrs_span".into(),
            line: 2,
            tokens: "id = \"no-entry\"".into(),
        },
        MacroText {
            name: "specdrs_span".into(),
            line: 3,
            tokens: "id = \"bad-syntax\", entry = self::work, nonsense = 1".into(),
        },
    ];
    let mut errors = Vec::new();
    let declarations = module_span_declarations(&macros, "src/lib.rs", &strings(&["sample"]), &mut errors);

    assert!(
        declarations.is_empty(),
        "neither declaration should contribute a span"
    );
    assert_eq!(errors.len(), 2);
    assert!(
        errors[0].contains("src/lib.rs:2: specdrs_span! requires `entry`"),
        "{}",
        errors[0]
    );
    assert!(
        errors[1].contains("src/lib.rs:3: invalid specdrs_span declaration"),
        "{}",
        errors[1]
    );
}

#[test]
fn module_memberships_accept_only_memberships() {
    let macros = vec![
        MacroText {
            name: "specdrs_module".into(),
            line: 1,
            tokens: "in_spans(\"checkout\", \"audit\")".into(),
        },
        MacroText {
            name: "specdrs_module".into(),
            line: 4,
            tokens: "span(id = \"x\")".into(),
        },
        MacroText {
            name: "println".into(),
            line: 5,
            tokens: "\"ignored\"".into(),
        },
    ];
    let mut errors = Vec::new();
    let spans = module_memberships(&macros, "src/lib.rs", &mut errors);
    assert_eq!(spans, ["audit", "checkout"]);
    assert_eq!(errors.len(), 1);
    assert!(errors[0].starts_with("src/lib.rs:4: specdrs_module! requires one or more in_spans"));
}

fn sample_index() -> ScanIndex {
    index(vec![
        (
            "sample::capture",
            item(
                ItemShape::Function { test: false },
                vec![args(
                    "span(id = \"checkout\", claims(Constraints(Invariants(\"Captured once.\" as once)), evidence(once(Test = crate::tests::capture_works))))",
                )],
                &[],
            ),
        ),
        (
            "sample::helper",
            item(
                ItemShape::Function { test: false },
                vec![args("in_spans(\"checkout\")")],
                &[],
            ),
        ),
        (
            "sample::tests::capture_works",
            item(ItemShape::Function { test: true }, Vec::new(), &[]),
        ),
    ])
}

#[test]
fn assembles_spans_members_and_linked_evidence() {
    let ix = sample_index();
    let decls = collect_declarations(&ix);
    assert_eq!(decls.len(), 1);
    assert_eq!(decls[0].entry, "sample::capture");
    let map = assemble(&ix).expect("the sample assembles");
    assert_eq!(map.schema, 2);
    assert_eq!(map.crate_name, "sample");
    assert_eq!(map.spans.len(), 1);
    let span = &map.spans[0];
    assert_eq!(span.id, "checkout");
    assert_eq!(span.entry, "sample::capture");
    assert_eq!(span.members, ["sample::capture", "sample::helper"]);
    let invariants = &span.axes[Axis::Invariants.index()];
    assert_eq!(invariants.claims.len(), 1);
    assert_eq!(invariants.claims[0].evidence[0].binder, "sample::tests::capture_works");
    assert_eq!(invariants.claims[0].evidence[0].result, EvidenceResult::Linked);
    assert_eq!(map.items.len(), 3);
    assert_eq!(map.items[0].0, "sample::capture");
    assert_eq!(map.items[0].1.spans, ["checkout"]);
    assert_eq!(map.items[2].1.spans.len(), 0);
    assert!(map.items.iter().all(|(_, item)| item.axes.len() == 12));
}

#[test]
fn undeclared_spans_missing_entries_and_cycles_are_all_reported() {
    let ix = index(vec![
        (
            "sample::a",
            item(
                ItemShape::Function { test: false },
                vec![args("span(id = \"a\", parent = \"b\"), in_spans(\"ghost\")")],
                &[],
            ),
        ),
        (
            "sample::b",
            item(
                ItemShape::Function { test: false },
                vec![args("span(id = \"b\", parent = \"a\", entry = self::missing)")],
                &[],
            ),
        ),
    ]);
    let error = assemble(&ix).expect_err("the sample is invalid");
    let messages = error.messages();
    let mut sorted = messages.clone();
    sorted.sort();
    sorted.dedup();
    assert_eq!(messages, &sorted, "diagnostics are ordered without repeats");
    assert!(messages.iter().any(|m| m.starts_with(
        "span `ghost` requires exactly one declaration; found 0."
    )));
    assert!(messages
        .iter()
        .any(|m| m.starts_with("span `b` has missing entry `sample::missing`")));
    assert!(messages
        .iter()
        .any(|m| m.starts_with("span parent cycle includes `a`")));
    assert!(messages
        .iter()
        .any(|m| m.starts_with("span parent cycle includes `b`")));
}

#[test]
fn claims_are_validated_per_owner() {
    let ix = index(vec![(
        "sample::a",
        item(
            ItemShape::Function { test: false },
            vec![
                args("claims(Constraints(Invariants(\"One.\" as one)))"),
                args("claims(Objectives(Job(\"Job.\" as job)))"),
            ],
            &[],
        ),
    )]);
    let error = assemble(&ix).expect_err("the sample is invalid");
    let messages = error.messages();
    assert!(messages
        .iter()
        .any(|m| m.starts_with("item:sample::a has more than one claims block.")));
}

#[test]
fn not_applicable_axes_reject_claims() {
    let ix = index(vec![(
        "sample::a",
        item(
            ItemShape::Function { test: false },
            vec![args(
                "claims(Constraints(Invariants(\"One.\" as one)), NotApplicable(Invariants = \"none\"))",
            )],
            &[],
        ),
    )]);
    let error = assemble(&ix).expect_err("the sample is invalid");
    assert_eq!(error.messages().len(), 1);
    assert!(error.messages()[0].starts_with(
        "item:sample::a has a Invariants claim but marks that axis not applicable."
    ));
}

#[test]
fn merging_file_scans_keeps_annotated_items_and_reports_duplicates() {
    let mut scanner = Scanner::new("sample".into());
    let mut first = FileScan::new();
    first.items.push(ScannedEntry {
        path: "sample::run".into(),
        alias: None,
        item: item(ItemShape::Function { test: false }, Vec::new(), &[]),
    });
    first.items.push(ScannedEntry {
        path: "sample::Gateway::send".into(),
        alias: Some("sample::Gateway::alias".into()),
        item: item(ItemShape::Function { test: false }, vec![args("in_spans(\"x\")")], &[]),
    });
    scanner.absorb(first);
    let mut second = FileScan::new();
    second.items.push(ScannedEntry {
        path: "sample::run".into(),
        alias: None,
        item: item(ItemShape::Function { test: false }, vec![args("in_spans(\"x\")")], &[]),
    });
    second.items.push(ScannedEntry {
        path: "sample::Gateway::send".into(),
        alias: None,
        item: item(ItemShape::Function { test: false }, vec![args("in_spans(\"y\")")], &[]),
    });
    second.errors.push("src/other.rs:1: problem".into());
    scanner.absorb(second);
    scanner.extend_membership(&"sample::run".to_string(), &strings(&["m", "a"]));

    let keys: Vec<&str> = scanner.index.items.iter().map(|(path, _)| path.as_str()).collect();
    assert_eq!(keys, ["sample::Gateway::send", "sample::run"]);
    assert_eq!(scanner.index.items[1].1.annotations.len(), 1, "an annotated item replaces a bare one");
    assert_eq!(scanner.index.items[1].1.inherited_spans, ["a", "m"]);
    assert_eq!(scanner.index.aliases.len(), 1);
    assert_eq!(scanner.index.aliases[0].1, ["sample::Gateway::send"]);
    let error = scanner.finish().expect_err("the scan collected diagnostics");
    assert_eq!(error.messages().len(), 2);
    assert!(error.messages()[0].starts_with("duplicate item path `sample::Gateway::send`"));
    assert_eq!(error.messages()[1], "src/other.rs:1: problem");
}

#[test]
fn free_declarations_resolve_against_their_module() {
    let mut ix = sample_index();
    ix.span_declarations.push(ScannedSpan {
        id: "ledger".into(),
        parent: Some("checkout".into()),
        entry: "self :: helper".into(),
        claims: None,
        modules: strings(&["sample"]),
        container: None,
    });
    let map = assemble(&ix).expect("the sample assembles");
    assert_eq!(map.spans.len(), 2);
    assert_eq!(map.spans[1].id, "ledger");
    assert_eq!(map.spans[1].entry, "sample::helper");
    assert_eq!(map.spans[1].parent.as_deref(), Some("checkout"));
    assert_eq!(map.spans[1].members, ["sample::helper"]);
}

#[test]
fn packages_and_targets_are_selected_like_cargo() {
    let packages = vec![
        PackageInfo {
            name: "alpha".into(),
            manifest_path: "/w/alpha/Cargo.toml".into(),
            targets: vec![TargetInfo {
                name: "alpha-cli".into(),
                kind: strings(&["bin"]),
                src_path: "/w/alpha/src/main.rs".into(),
            }],
        },
        PackageInfo {
            name: "beta".into(),
            manifest_path: "/w/beta/Cargo.toml".into(),
            targets: vec![
                TargetInfo {
                    name: "beta-cli".into(),
                    kind: strings(&["bin"]),
                    src_path: "/w/beta/src/main.rs".into(),
                },
                TargetInfo {
                    name: "beta".into(),
                    kind: strings(&["lib"]),
                    src_path: "/w/beta/src/lib.rs".into(),
                },
            ],
        },
    ];
    assert_eq!(select_package(&packages, &Some("beta".into()), &vec![false, false]), Ok(1));
    assert_eq!(
        select_package(&packages, &Some("gamma".into()), &vec![false, false]),
        Err("package `gamma` was not found".to_string())
    );
    assert_eq!(select_package(&packages, &None, &vec![false, true]), Ok(1));
    assert_eq!(
        select_package(&packages, &None, &vec![false, false]),
        Err("the manifest is a workspace; select one crate with `--package <name>`".to_string())
    );
    assert_eq!(select_target(&packages[1]), Ok(1));
    assert_eq!(select_target(&packages[0]), Ok(0));
    let empty = PackageInfo {
        name: "empty".into(),
        manifest_path: "/w/empty/Cargo.toml".into(),
        targets: Vec::new(),
    };
    assert_eq!(
        select_target(&empty),
        Err("package `empty` has no library or binary target".to_string())
    );
    assert_eq!(crate_name_of("alpha-cli"), "alpha_cli");
}

#[test]
fn qualified_binders_resolve_both_the_type_and_the_trait() {
    let module = strings(&["payments", "adapters"]);
    assert_eq!(
        normalize_binder("<crate::Receipt as crate::Convert>::from", &module, "payments"),
        "<payments::Receipt as payments::Convert>::from"
    );
    assert_eq!(
        normalize_binder("<&Receipt>::clone", &module, "payments"),
        "<&Receipt>::clone"
    );
}

#[test]
fn binder_text_that_is_no_type_path_is_kept() {
    let module = strings(&["payments"]);
    assert_eq!(normalize_binder("not a path!", &module, "payments"), "not a path!");
}

#[test]
fn impl_of_a_reference_type_is_owned_by_its_printed_type() {
    let module = strings(&["payments"]);
    let reference = TypeSyntax {
        path: None,
        qualified: false,
        printed: "& Receipt".into(),
    };
    assert_eq!(
        impl_owner_paths(&reference, &Some(path(&[("Display", "Display")])), &module).unwrap(),
        (
            "<&Receipt as Display>".to_string(),
            Some("&Receipt".to_string())
        )
    );
}

#[test]
fn a_remaining_crate_prefix_in_a_binder_trait_names_the_crate() {
    let module = strings(&["payments", "adapters"]);
    let mut trait_path = path(&[("crate", "crate"), ("Export", "Export"), ("write", "write")]);
    trait_path.leading_colon = true;
    let binder = TypePathSyntax {
        qself: Some(QualifiedSelf {
            ty: path_type(&[("Receipt", "Receipt")], "Receipt"),
            position: 2,
            has_as: true,
        }),
        path: trait_path,
    };
    assert_eq!(
        binder_path(&binder, &module, "payments"),
        "<payments::adapters::Receipt as payments::Export>::write"
    );
}

#[test]
fn nested_spans_assemble_with_parents_first_and_entries_as_members() {
    let ix = index(vec![
        (
            "sample::a",
            item(ItemShape::Function { test: false }, vec![args("span(id = \"outer\")")], &[]),
        ),
        (
            "sample::b",
            item(
                ItemShape::Function { test: false },
                vec![args("span(id = \"middle\", parent = \"outer\")")],
                &[],
            ),
        ),
        (
            "sample::c",
            item(
                ItemShape::Function { test: false },
                vec![args("span(id = \"inner\", parent = \"middle\")")],
                &[],
            ),
        ),
        (
            "sample::d",
            item(ItemShape::Function { test: false }, vec![args("in_spans(\"inner\")")], &[]),
        ),
    ]);
    let map = assemble(&ix).expect("the nested spans assemble");
    let ids: Vec<&str> = map.spans.iter().map(|span| span.id.as_str()).collect();
    assert_eq!(ids, ["inner", "middle", "outer"]);
    for span in &map.spans {
        assert!(span.members.contains(&span.entry), "`{}` has its entry as a member", span.id);
    }
    let mut current = Some("inner".to_string());
    let mut steps = 0;
    while let Some(id) = current {
        let span = map.spans.iter().find(|span| span.id == id).expect("the parent is a span");
        current = span.parent.clone();
        steps += 1;
    }
    assert_eq!(steps, 3, "inner reaches the root through middle and outer");
    let leaf = &map.items.iter().find(|(path, _)| path == "sample::d").unwrap().1;
    let order: Vec<&str> = map
        .applicable_spans(leaf)
        .iter()
        .map(|span| span.id.as_str())
        .collect();
    assert_eq!(order, ["outer", "middle", "inner"]);
}

#[test]
fn a_qualified_path_type_is_owned_by_its_printed_text() {
    let module = strings(&["payments"]);
    let projected = TypeSyntax {
        path: Some(path(&[("Tr", "Tr"), ("Out", "Out")])),
        qualified: true,
        printed: "< Receipt as Tr > :: Out".into(),
    };
    assert_eq!(
        impl_owner_paths(&projected, &None, &module).unwrap().0,
        "< Receipt as Tr>::Out"
    );
    assert_eq!(
        normalize_binder("<<Receipt as Tr>::Out>::f", &module, "payments"),
        "<< Receipt as Tr>::Out>::f"
    );
}
