use apexdaemon::plugins::validation::ci_plan;
use apexdaemon::plugins::validation::{manifest_files, ManifestSource};
use apexdaemon::config::ValidationConfig;
use apexdaemon::plugins::validation::{
    can_compact, check_ci_configured, ci_finding, ci_query_args, compact, file_checks, invalid_repository_issue,
    is_local_link, is_safe_repository, missing_file_issue, readme_link_targets, report_change,
    svg_fallback, syntax_command, toml_issue, toml_issue_for, CiFinding, CiResponse, Report, SyntaxTool,
    WorkflowRun,
};

#[test]
fn repository_names_are_constrained() {
    assert!(is_safe_repository("darkstardevx/apexdaemon"));
    assert!(!is_safe_repository("darkstardevx"));
    assert!(!is_safe_repository("darkstardevx/apexdaemon/extra"));
    assert!(!is_safe_repository("darkstardevx/../../secret"));
}

#[test]
fn external_and_anchor_links_are_not_local() {
    assert!(!is_local_link("https://example.com"));
    assert!(!is_local_link("#config"));
    assert!(is_local_link("assets/header.svg"));
}

#[test]
fn compact_removes_newlines() {
    assert_eq!(compact("one\n two\tthree"), "one two three");
}

#[test]
fn compact_cuts_long_text_at_180_bytes() {
    let long = "x".repeat(200);
    assert!(can_compact(&long));
    let c = compact(&long);
    assert_eq!(c, format!("{}…", "x".repeat(180)));
    // 179 ASCII bytes and then a two-byte character straddles byte 180.
    let straddling = format!("{}é{}", "a".repeat(179), "b".repeat(10));
    assert!(!can_compact(&straddling));
    assert!(can_compact("short"));
}

#[test]
fn report_renders_issues_then_sorted_notes() {
    let mut r = Report::new();
    assert_eq!(r.render(), "validation: healthy");
    assert!(!r.has_issues());
    r.note("zeta".to_string());
    r.note("alpha".to_string());
    r.note("zeta".to_string());
    assert_eq!(r.render(), "validation: note: alpha; note: zeta");
    r.issue("broken".to_string());
    assert!(r.has_issues());
    assert_eq!(r.issues(), &vec!["broken".to_string()]);
    assert_eq!(r.render(), "validation: broken; note: alpha; note: zeta");
}

#[test]
fn validation_notifies_on_change_only() {
    let same = report_change(Some("x"), "x", true, true, false);
    assert!(same.notify.is_none() && !same.store);
    let bad = report_change(Some("y"), "x", true, false, false);
    assert_eq!(bad.notify.as_deref(), Some("ApexDaemon: validation needs attention"));
    assert!(bad.store);
    let restored = report_change(Some("y"), "validation: healthy", false, true, true);
    assert_eq!(restored.notify.as_deref(), Some("ApexDaemon: validation restored"));
    assert!(!restored.store);
    let first_clean = report_change(None, "validation: healthy", false, true, false);
    assert!(first_clean.notify.is_none());
}

#[test]
fn ci_watch_without_repositories_is_an_issue() {
    let mut cfg = ValidationConfig::default();
    cfg.watch_ci = true;
    let mut r = Report::new();
    assert!(!check_ci_configured(&cfg, &mut r));
    assert_eq!(
        r.issues(),
        &vec!["CI watch is enabled but no repositories are configured".to_string()]
    );
    cfg.repositories = vec!["a/b".to_string()];
    let mut r2 = Report::new();
    assert!(check_ci_configured(&cfg, &mut r2));
    assert!(r2.issues().is_empty());
}

#[test]
fn readme_links_keep_local_file_parts() {
    let raw = "see [a](docs/a.md#x) and [b]( https://x.y ) [c](<my img.svg>) [d](#top) [e](e.png \"t\")";
    assert_eq!(
        readme_link_targets(raw),
        vec!["docs/a.md".to_string(), "my img.svg".to_string(), "e.png".to_string()]
    );
    assert!(readme_link_targets("[open](never closed").is_empty());
}

#[test]
fn checks_follow_extension_and_switches() {
    let cfg = ValidationConfig::default();
    let sh = file_checks(".bashrc", "", &cfg);
    assert!(sh.shell && !sh.toml && !sh.lua && !sh.svg && !sh.readme_links);
    let toml = file_checks("a.toml", "toml", &cfg);
    assert!(toml.toml && !toml.shell);
    let md = file_checks("README.md", "md", &cfg);
    assert!(md.readme_links);
    let mut off = ValidationConfig::default();
    off.check_lua = false;
    assert!(!file_checks("x.lua", "lua", &off).lua);
    assert_eq!(syntax_command(SyntaxTool::Bash), ("bash", "-n"));
    assert_eq!(syntax_command(SyntaxTool::Xmllint), ("xmllint", "--noout"));
    assert_eq!(missing_file_issue("~/x"), "missing file (~/x)");
}

#[test]
fn svg_fallback_needs_both_root_tags() {
    let (issue, note) = svg_fallback("a.svg", Some("<svg></svg>"));
    assert!(issue.is_none());
    assert_eq!(
        note.as_deref(),
        Some("xmllint not installed; SVG checks used a root-element fallback")
    );
    let (issue, _) = svg_fallback("a.svg", Some("<svg>"));
    assert_eq!(issue.as_deref(), Some("a.svg does not contain a complete SVG root"));
    let (issue, note) = svg_fallback("a.svg", None);
    assert_eq!(issue.as_deref(), Some("cannot read SVG (a.svg)"));
    assert!(note.is_none());
}

#[test]
fn toml_documents_are_checked_by_the_parser() {
    assert_eq!(toml_issue("c.toml", Ok("a = 1\n")).unwrap(), None);
    let bad = toml_issue("c.toml", Ok("a = \n")).unwrap().unwrap();
    assert!(bad.starts_with("c.toml TOML: "));
    assert!(!bad.contains('\n'));
    assert_eq!(
        toml_issue("c.toml", Err("denied")).unwrap(),
        Some("c.toml TOML: denied".to_string())
    );
}

#[test]
fn ci_query_and_findings() {
    assert_eq!(
        ci_query_args("o/r", Some("ci")),
        vec![
            "run", "list", "--repo", "o/r", "--limit", "1", "--json",
            "status,conclusion,workflowName,headBranch,url", "--workflow", "ci",
        ]
        .into_iter()
        .map(String::from)
        .collect::<Vec<_>>()
    );
    assert_eq!(ci_query_args("o/r", Some("")).len(), 8);
    let run = |status: &str, conclusion: Option<&str>| WorkflowRun {
        status: status.to_string(),
        conclusion: conclusion.map(String::from),
        workflow_name: "CI".to_string(),
        head_branch: "main".to_string(),
        url: "https://u".to_string(),
    };
    assert!(matches!(
        ci_finding("o/r", &CiResponse::Runs(vec![run("completed", Some("success"))])),
        CiFinding::Nothing
    ));
    match ci_finding("o/r", &CiResponse::Runs(vec![run("completed", Some("failure"))])) {
        CiFinding::Issue(m) => assert_eq!(m, "o/r latest CI run is failure (main) — https://u"),
        _ => panic!("expected an issue"),
    }
    match ci_finding("o/r", &CiResponse::Runs(vec![run("in_progress", None)])) {
        CiFinding::Note(m) => assert_eq!(m, "o/r latest CI run is in_progress (main) — https://u"),
        _ => panic!("expected a note"),
    }
    match ci_finding("o/r", &CiResponse::Runs(Vec::new())) {
        CiFinding::Issue(m) => assert_eq!(m, "o/r has no GitHub Actions runs"),
        _ => panic!("expected an issue"),
    }
    assert_eq!(invalid_repository_issue("bad"), "invalid GitHub repository name: bad");
    match ci_finding("o/r", &CiResponse::Failed("boom\nagain".to_string())) {
        CiFinding::Issue(m) => assert_eq!(m, "o/r CI check failed: boom again"),
        _ => panic!("expected an issue"),
    }
}

#[test]
fn manifest_files_are_ordered_paths_each_once() {
    let sources = vec![
        ManifestSource::Text("# c\n.zshrc\n.config/b\n../up\n.config//b\n".to_string()),
        ManifestSource::Missing("/h/.config/apexdaemon/private-files.list".to_string()),
        ManifestSource::Text(".config/a-b\n.config/a/x\n/etc/passwd\n.zshrc\n".to_string()),
    ];
    let mut report = Report::new();
    let files = manifest_files(&sources, "/h", &mut report).unwrap();
    // Component order: ".config" < ".zshrc"; inside .config, "a" < "a-b" < "b".
    assert_eq!(
        files,
        vec![
            "/h/.config/a/x".to_string(),
            "/h/.config/a-b".to_string(),
            "/h/.config/b".to_string(),
            "/h/.zshrc".to_string(),
        ]
    );
    assert_eq!(
        report.issues(),
        &vec![
            "unsafe manifest path: ../up".to_string(),
            "manifest missing (/h/.config/apexdaemon/private-files.list)".to_string(),
            "unsafe manifest path: /etc/passwd".to_string(),
        ]
    );
    let broken = vec![
        ManifestSource::Text("../x\n".to_string()),
        ManifestSource::Unreadable { display: "/h/m".to_string(), error: "denied".to_string() },
        ManifestSource::Missing("/never".to_string()),
    ];
    let mut report = Report::new();
    assert_eq!(
        manifest_files(&broken, "/h", &mut report).unwrap_err(),
        "failed to read /h/m: denied"
    );
    assert_eq!(report.issues(), &vec!["unsafe manifest path: ../x".to_string()]);
}

#[test]
fn ci_plan_refuses_names_that_are_not_owner_slash_name() {
    assert_eq!(
        ci_plan("bad", None).unwrap_err(),
        "invalid GitHub repository name: bad"
    );
    assert_eq!(ci_plan("o/r", Some("ci")).unwrap(), ci_query_args("o/r", Some("ci")));
    assert_eq!(ci_plan("o/r", None).unwrap().len(), 8);
}

#[test]
fn toml_issues_from_a_given_parser_verdict() {
    assert_eq!(toml_issue_for("c.toml", None).unwrap(), None);
    assert_eq!(
        toml_issue_for("c.toml", Some("expected a value\n  at line 1")).unwrap(),
        Some("c.toml TOML: expected a value at line 1".to_string())
    );
    let long = format!("{}é tail", "a".repeat(179));
    assert_eq!(toml_issue_for("c.toml", Some(&long)), Err(long.clone()));
    let cut = format!("{}xyz", "b".repeat(180));
    assert_eq!(
        toml_issue_for("c.toml", Some(&cut)).unwrap(),
        Some(format!("c.toml TOML: {}…", "b".repeat(180)))
    );
}
