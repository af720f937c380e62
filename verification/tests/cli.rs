use specdrs::analysis::TargetFilter;
use specdrs::cli::{authoring_guide, default_output, default_output_from, parse_grouping, parse_usize, select_command, Args, Command};
use specdrs::projection::GroupKey;

fn strings(args: &[&str]) -> Vec<String> {
    args.iter().map(|a| a.to_string()).collect()
}

#[test]
fn cargo_forwarded_subcommand_name_is_accepted() {
    let (command, at) = select_command(&strings(&["specdrs", "--version"])).unwrap();
    assert_eq!(command, Command::Version);
    assert_eq!(at, 2);
}

#[test]
fn conflicting_emit_destinations_fail() {
    let args = strings(&["emit", "--stdout", "--output", "map.json"]);
    let (command, at) = select_command(&args).unwrap();
    assert_eq!(command, Command::Emit);
    let parsed = Args::parse(&args[at..].to_vec()).unwrap();
    let error = parsed.check_emit_options().unwrap_err();
    assert!(error.contains("either"));
}

#[test]
fn grouping_order_is_parsed() {
    let parsed = Args::parse(&strings(&["target", "--group-by", "owner,kind,axis"])).unwrap();
    assert_eq!(parsed.group_by, vec![GroupKey::Owner, GroupKey::Kind, GroupKey::Axis]);
}

#[test]
fn target_selection_defaults_to_all() {
    assert!(matches!(Args::parse(&Vec::new()).unwrap().target_filter(), TargetFilter::All));
    let parsed = Args::parse(&strings(&[
        "--span",
        "checkout",
        "--item",
        "payments::charge",
        "--span",
        "payments",
    ]))
    .unwrap();
    match parsed.target_filter() {
        TargetFilter::Named { spans, items } => {
            assert_eq!(spans, ["checkout", "payments"]);
            assert_eq!(items, ["payments::charge"]);
        }
        TargetFilter::All => panic!("named targets were given"),
    }
}

#[test]
fn unknown_commands_are_rejected() {
    let error = select_command(&strings(&["not-a-command"])).unwrap_err();
    assert_eq!(error, "unknown command `not-a-command`\n\nRun `cargo specdrs help`.");
    assert_eq!(select_command(&strings(&["emit", "--help"])).unwrap().0, Command::Help);
    assert_eq!(select_command(&strings(&["help"])).unwrap().0, Command::Help);
}

#[test]
fn argument_errors_name_the_argument() {
    assert_eq!(
        Args::parse(&strings(&["--jobs"])).unwrap_err(),
        "--jobs requires a value"
    );
    assert_eq!(
        Args::parse(&strings(&["--jobs", "two"])).unwrap_err(),
        "invalid --jobs value `two`"
    );
    assert_eq!(Args::parse(&strings(&["--fast"])).unwrap_err(), "unknown option `--fast`");
    assert_eq!(
        Args::parse(&strings(&["one", "two"])).unwrap_err(),
        "unexpected argument `two`"
    );
    assert_eq!(
        Args::parse(&strings(&["--group-by", "owner,rank"])).unwrap_err(),
        "unknown grouping key `rank`"
    );
    let parsed = Args::parse(&strings(&["-p", "payments", "--jobs", "+3", "--json"])).unwrap();
    assert_eq!(parsed.build.package.as_deref(), Some("payments"));
    assert_eq!(parsed.jobs, Some(3));
    assert!(parsed.json);
    assert!(parsed.check_analyze_options().is_ok());
    assert!(parsed.check_check_options().is_err());
}

#[test]
fn numbers_parse_as_usize_does() {
    assert_eq!(parse_usize("42"), Some(42));
    assert_eq!(parse_usize("+7"), Some(7));
    assert_eq!(parse_usize("+"), None);
    assert_eq!(parse_usize(""), None);
    assert_eq!(parse_usize("-1"), None);
    assert_eq!(parse_usize("99999999999999999999999"), None);
    assert_eq!(parse_usize(&usize::MAX.to_string()), Some(usize::MAX));
}

#[test]
fn grouping_splits_at_every_comma() {
    assert_eq!(parse_grouping("axis"), Ok(vec![GroupKey::Axis]));
    assert_eq!(parse_grouping("kind,"), Err("unknown grouping key ``".to_string()));
}

#[test]
fn show_requires_a_query_and_rejects_emit_options() {
    let parsed = Args::parse(&Vec::new()).unwrap();
    assert_eq!(
        parsed.check_show_options().unwrap_err(),
        "show requires a span id or item def path"
    );
    let parsed = Args::parse(&strings(&["x", "--stdout"])).unwrap();
    assert_eq!(
        parsed.check_show_options().unwrap_err(),
        "show does not accept --stdout, --output, --jobs, --span, or --item"
    );
}

#[test]
fn how_prints_the_authoring_guide() {
    let (command, at) = select_command(&strings(&["specdrs", "how"])).unwrap();
    assert_eq!(command, Command::How);
    assert_eq!(at, 2);
    let text = authoring_guide(&Vec::new()).expect("how takes no arguments");
    assert!(text.starts_with("specdrs authoring guide"));
    assert!(text.contains("#[specdrs]"));
    assert!(text.contains("specdrs_span!"));
    assert!(text.contains("specdrs_module!"));
    assert!(text.contains("Objectives"));
    assert!(text.contains("in_spans"));
    assert!(!text.starts_with('{'));
}

#[test]
fn how_accepts_no_arguments() {
    assert_eq!(
        authoring_guide(&strings(&["extra"])).unwrap_err(),
        "how accepts no arguments"
    );
}

#[test]
fn emitted_maps_default_to_the_package_target_directory() {
    assert_eq!(
        default_output_from(&Some("Cargo.toml".into()), &Some("/work/pay".into()), &"pay".into()),
        ["/work/pay", "target", "specdrs", "pay.json"]
    );
    assert_eq!(
        default_output(&"/work/pay/Cargo.toml".into(), &"pay".into()),
        ["/work/pay", "target", "specdrs", "pay.json"]
    );
    assert_eq!(
        default_output(&"Cargo.toml".into(), &"pay".into()),
        ["", "target", "specdrs", "pay.json"]
    );
    assert_eq!(
        default_output(&"manifests/other.toml".into(), &"pay".into()),
        [".", "target", "specdrs", "pay.json"]
    );
}
