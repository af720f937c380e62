use specdrs::model::SourcePosition;
use specdrs::scan::{AttributeText, ItemText, MethodText};
use specdrs::source::{scan_source, SourceFile, SourceItem, SourceKind};

fn text(line: usize, attrs: Vec<AttributeText>, printed: &str) -> ItemText {
    ItemText {
        attrs,
        start: SourcePosition { line, column: 0 },
        end: SourcePosition { line, column: 1 },
        signature: printed.into(),
    }
}

fn specdrs(arguments: &str) -> AttributeText {
    AttributeText {
        name: "specdrs".into(),
        arguments: Some(arguments.into()),
    }
}

fn item(kind: SourceKind, name: &str, text: ItemText) -> SourceItem {
    SourceItem {
        kind,
        name: name.into(),
        text,
        methods: Vec::new(),
        impl_type: None,
        impl_trait: None,
        content: None,
        path_attr: None,
        tokens: String::new(),
    }
}

fn module_macro(line: usize, tokens: &str) -> SourceItem {
    SourceItem {
        tokens: tokens.into(),
        ..item(SourceKind::Macro, "specdrs_module", text(line, Vec::new(), ""))
    }
}

fn strings(values: &[&str]) -> Vec<String> {
    values.iter().map(|value| value.to_string()).collect()
}

#[test]
fn memberships_reach_every_inline_descendant() {
    let mut billing = item(
        SourceKind::Module,
        "billing",
        text(2, vec![specdrs("in_spans(\"audit\")")], ""),
    );
    billing.content = Some(vec![
        module_macro(3, "in_spans(\"billing\")"),
        item(SourceKind::Function, "charge", text(4, Vec::new(), "fn charge ()")),
    ]);
    let source = SourceFile { items: vec![billing] };
    let outcome = scan_source(&source, &"src/lib.rs".into(), &strings(&["sample"]), &strings(&["crate-wide"]), &None);
    assert!(outcome.scan.errors.is_empty(), "{:?}", outcome.scan.errors);
    assert!(outcome.children.is_empty());
    assert!(outcome.module_membership.is_none());
    let paths: Vec<&str> = outcome.scan.items.iter().map(|e| e.path.as_str()).collect();
    assert_eq!(paths, ["sample::billing", "sample::billing::charge"]);
    assert_eq!(outcome.scan.items[0].item.inherited_spans, ["billing", "crate-wide"]);
    assert_eq!(outcome.scan.items[0].item.source.signature, "mod billing");
    assert_eq!(
        outcome.scan.items[1].item.inherited_spans,
        ["audit", "billing", "crate-wide"]
    );
    assert_eq!(outcome.scan.items[1].item.source.modules, ["sample", "billing"]);
}

#[test]
fn out_of_line_modules_become_tasks_with_their_spans() {
    let mut outer = item(SourceKind::Module, "outer", text(1, Vec::new(), ""));
    let mut inner = item(SourceKind::Module, "inner", text(2, vec![specdrs("in_spans(\"deep\")")], ""));
    inner.path_attr = Some("custom.rs".into());
    outer.content = Some(vec![inner]);
    let source = SourceFile {
        items: vec![module_macro(1, "in_spans(\"top\")"), outer],
    };
    let outcome = scan_source(
        &source,
        &"src/lib.rs".into(),
        &strings(&["sample"]),
        &Vec::new(),
        &Some("sample".into()),
    );
    assert_eq!(
        outcome.module_membership,
        Some(("sample".to_string(), strings(&["top"])))
    );
    assert_eq!(outcome.children.len(), 1);
    let task = &outcome.children[0];
    assert_eq!(task.name, "inner");
    assert_eq!(task.path_attr.as_deref(), Some("custom.rs"));
    assert_eq!(task.dir, ["outer"]);
    assert_eq!(task.modules, ["sample", "outer", "inner"]);
    assert_eq!(task.inherited_spans, ["deep", "top"]);
    assert_eq!(task.module_item, "sample::outer::inner");
}

#[test]
fn items_get_keyword_signatures_and_trait_functions_their_trait_path() {
    let mut gateway = item(SourceKind::Trait, "Gateway", text(1, Vec::new(), ""));
    gateway.methods = vec![MethodText {
        name: "send".into(),
        item: text(2, vec![AttributeText { name: "test".into(), arguments: None }], "fn send (& self)"),
    }];
    let source = SourceFile {
        items: vec![
            item(SourceKind::Struct, "Receipt", text(3, Vec::new(), "")),
            item(SourceKind::Const, "LIMIT", text(4, Vec::new(), "u32")),
            gateway,
            item(SourceKind::Other, "", text(5, Vec::new(), "")),
        ],
    };
    let outcome = scan_source(&source, &"src/lib.rs".into(), &strings(&["sample"]), &Vec::new(), &None);
    let found: Vec<(&str, &str)> = outcome
        .scan
        .items
        .iter()
        .map(|e| (e.path.as_str(), e.item.source.signature.as_str()))
        .collect();
    assert_eq!(
        found,
        [
            ("sample::Receipt", "struct Receipt"),
            ("sample::LIMIT", "const LIMIT: u32"),
            ("sample::Gateway", "trait Gateway"),
            ("sample::Gateway::send", "fn send(&self)"),
        ]
    );
}

#[test]
fn reading_an_open_file_again_is_an_inclusion_cycle() {
    let open = strings(&["/p/src/lib.rs", "/p/src/a.rs"]);
    assert_eq!(
        specdrs::source::inclusion_cycle(&open, &"/p/src/lib.rs".to_string()),
        Some("module inclusion cycle reaches /p/src/lib.rs".to_string())
    );
    assert_eq!(specdrs::source::inclusion_cycle(&open, &"/p/src/b.rs".to_string()), None);
}
