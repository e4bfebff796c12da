use igniscope::analytics::{
    build_analytics_bundle, AnalyticsBundle, AnalyticsInput, AnalyticsSummary, CoverageMetrics,
    ProjectAnalytics, ProjectCounts, Ratio,
};
use igniscope::archive::{ArchiveInspection, ArchiveKind, ProjectMetadata, ProjectSelection};
use igniscope::error::AppError;
use igniscope::report::{
    display_project_root, ratio_to_text, render_report_markdown, render_summary_text,
    write_count_map_section, write_project_count_subsection,
};
use igniscope::resource::{ProjectResourceInventory, Resource, ResourceFile};

fn synthetic_analytics() -> AnalyticsBundle {
    AnalyticsBundle {
        schema_version: "0.1.0".to_string(),
        generated_at: "1970-01-01T00:00:00Z".to_string(),
        input: AnalyticsInput {
            archive_path: "/tmp/synthetic.zip".to_string(),
            archive_kind: "project_export".to_string(),
            detected_project_roots: vec!["".to_string()],
            selected_project_roots: vec!["".to_string()],
        },
        summary: AnalyticsSummary {
            projects_total: 1,
            resources_total: 3,
            files_total: 5,
            binary_only_resources: 1,
            resources_by_section: vec![("Perspective".to_string(), 3usize)],
            resources_by_type: vec![("perspective.view".to_string(), 3usize)],
            files_by_kind: vec![
                ("resource.json".to_string(), 3usize),
                ("view.json".to_string(), 2usize),
            ],
            unknown_resources: 0,
            unknown_ratio: Ratio { numerator: 0, denominator: 3 },
        },
        projects: vec![ProjectAnalytics {
            project_root: "".to_string(),
            project: ProjectMetadata {
                project_root: "".to_string(),
                title: "Synthetic".to_string(),
                description: None,
                parent: None,
                enabled: true,
                inheritable: false,
            },
            counts: ProjectCounts {
                resources_total: 3,
                files_total: 5,
                binary_only_resources: 1,
                resources_by_section: vec![("Perspective".to_string(), 3usize)],
                resources_by_type: vec![("perspective.view".to_string(), 3usize)],
                files_by_kind: vec![
                    ("resource.json".to_string(), 3usize),
                    ("view.json".to_string(), 2usize),
                ],
            },
            coverage: CoverageMetrics {
                unknown_resources: 0,
                unknown_ratio: Ratio { numerator: 0, denominator: 3 },
            },
            issues: vec![],
        }],
        issues: vec![],
        gateway_meta: None,
    }
}

#[test]
fn summarize_output_includes_core_fields() {
    let analytics = synthetic_analytics();
    let output = render_summary_text("/tmp/synthetic.zip", &analytics, 0);
    assert!(output.contains("archive_kind: project_export"));
    assert!(output.contains("projects_total: 1"));
    assert!(output.contains("selected_project_roots: [\"\"]"));
}

#[test]
fn summarize_output_includes_project_lines_in_verbose_mode() {
    let analytics = synthetic_analytics();
    let output = render_summary_text("/tmp/synthetic.zip", &analytics, 1);
    assert!(output.contains("project: root=(root) title=Synthetic resources=3"));
}

#[test]
fn report_markdown_contains_required_sections() {
    let analytics = synthetic_analytics();
    let report = render_report_markdown(&analytics);
    assert!(report.contains("# igniscope report"));
    assert!(report.contains("## Input Summary"));
    assert!(report.contains("## Overall Aggregate Summary"));
    assert!(report.contains("## Counts By Section"));
    assert!(report.contains("## Counts By Type Key"));
    assert!(report.contains("## File Kind Breakdown"));
    assert!(report.contains("## Coverage Summary"));
    assert!(report.contains("## Per-Project Details"));
    assert!(report.contains("## Issues"));
}

#[test]
fn root_display_is_human_readable() {
    assert_eq!(display_project_root(""), "(root)");
    assert_eq!(display_project_root("projects/alpha/"), "projects/alpha/");
}

#[test]
fn summary_text_is_exact() {
    let analytics = synthetic_analytics();
    let quiet = render_summary_text("/tmp/synthetic.zip", &analytics, 0);
    assert_eq!(
        quiet,
        "archive_path: /tmp/synthetic.zip\n\
         archive_kind: project_export\n\
         projects_total: 1\n\
         selected_project_roots: [\"\"]\n\
         resources_total: 3\n\
         files_total: 5\n\
         unknown_ratio: 0.000000\n"
    );
    let verbose = render_summary_text("/tmp/synthetic.zip", &analytics, 2);
    assert_eq!(
        verbose,
        format!("{quiet}project: root=(root) title=Synthetic resources=3 unknown_ratio=0.000000\n")
    );
}

#[test]
fn summary_debug_lists_escape_roots() {
    let mut analytics = synthetic_analytics();
    analytics.input.selected_project_roots =
        vec!["projects/a/".to_string(), "projects/\"q\"/".to_string()];
    let output = render_summary_text("x.gwbk", &analytics, 0);
    let expected = format!("selected_project_roots: {:?}\n", analytics.input.selected_project_roots);
    assert!(output.contains(&expected));
    assert!(output.contains("[\"projects/a/\", \"projects/\\\"q\\\"/\"]"));
}

#[test]
fn report_markdown_is_exact() {
    let mut analytics = synthetic_analytics();
    analytics.projects[0].project.description = Some("A \"demo\"".to_string());
    analytics.projects[0].issues = vec!["first".to_string()];
    analytics.issues = vec!["global".to_string()];
    let report = render_report_markdown(&analytics);
    let lines = [
        "# igniscope report",
        "",
        "## Input Summary",
        "",
        "- archive_kind: `project_export`",
        "- projects_total: 1",
        "- selected_project_roots:",
        "  - `(root)`",
        "",
        "## Overall Aggregate Summary",
        "",
        "- resources_total: 3",
        "- files_total: 5",
        "- binary_only_resources: 1",
        "",
        "## Counts By Section",
        "",
        "- `Perspective`: 3",
        "",
        "## Counts By Type Key",
        "",
        "- `perspective.view`: 3",
        "",
        "## File Kind Breakdown",
        "",
        "- `resource.json`: 3",
        "- `view.json`: 2",
        "",
        "## Coverage Summary",
        "",
        "- unknown_resources: 0",
        "- unknown_ratio: 0.000000",
        "",
        "## Per-Project Details",
        "",
        "### Project `(root)`",
        "",
        "- title: Synthetic",
        "- description: Some(\"A \\\"demo\\\"\")",
        "- parent: None",
        "- enabled: true",
        "- inheritable: false",
        "- resources_total: 3",
        "- files_total: 5",
        "- binary_only_resources: 1",
        "- unknown_resources: 0",
        "- unknown_ratio: 0.000000",
        "",
        "#### Counts By Section",
        "",
        "- `Perspective`: 3",
        "",
        "#### Counts By Type Key",
        "",
        "- `perspective.view`: 3",
        "",
        "#### File Kind Breakdown",
        "",
        "- `resource.json`: 3",
        "- `view.json`: 2",
        "",
        "- issues:",
        "  - first",
        "",
        "## Issues",
        "",
        "- global",
    ];
    let expected = format!("{}\n", lines.join("\n"));
    assert_eq!(report, expected);
}

#[test]
fn report_without_issues_says_so() {
    let analytics = synthetic_analytics();
    let report = render_report_markdown(&analytics);
    assert!(report.contains("- issues: no issues\n"));
    assert!(report.ends_with("## Issues\n\nNo issues.\n"));
}

#[test]
fn count_sections_list_keys_or_none() {
    let mut report = String::from("start\n");
    write_count_map_section(&mut report, "## Empty", &vec![]);
    assert_eq!(report, "start\n## Empty\n\n- none\n\n");
    let mut sub = String::new();
    write_project_count_subsection(
        &mut sub,
        "#### Counts",
        &vec![("a".to_string(), 1usize), ("b".to_string(), 20usize)],
    );
    assert_eq!(sub, "#### Counts\n\n- `a`: 1\n- `b`: 20\n\n");
}

#[test]
fn ratio_text_matches_six_place_float_formatting() {
    for denominator in 1usize..=40 {
        for numerator in 0usize..=denominator {
            let ours = ratio_to_text(Ratio { numerator, denominator });
            let float = format!("{:.6}", numerator as f64 / denominator as f64);
            assert_eq!(ours, float, "{numerator}/{denominator}");
        }
    }
    for (numerator, denominator) in [(1usize, 128usize), (3, 128), (5, 7), (688, 1524), (2, 3), (7, 1)] {
        let ours = ratio_to_text(Ratio { numerator, denominator });
        let float = format!("{:.6}", numerator as f64 / denominator as f64);
        assert_eq!(ours, float, "{numerator}/{denominator}");
    }
}

#[test]
fn ratio_text_exact_values() {
    assert_eq!(ratio_to_text(Ratio { numerator: 0, denominator: 0 }), "0.000000");
    assert_eq!(ratio_to_text(Ratio { numerator: 1, denominator: 3 }), "0.333333");
    assert_eq!(ratio_to_text(Ratio { numerator: 2, denominator: 3 }), "0.666667");
    assert_eq!(ratio_to_text(Ratio { numerator: 1, denominator: 128 }), "0.007812");
    assert_eq!(ratio_to_text(Ratio { numerator: 3, denominator: 128 }), "0.023438");
    assert_eq!(ratio_to_text(Ratio { numerator: 5, denominator: 1 }), "5.000000");
}

fn resource(section: &str, type_key: &str, path: &str, kinds: &[&str], binary_only: bool) -> Resource {
    Resource {
        section: section.to_string(),
        type_key: type_key.to_string(),
        path: path.to_string(),
        resource_json_path: format!("{path}/resource.json"),
        binary_only,
        attributes: vec![],
        files: kinds
            .iter()
            .map(|k| ResourceFile {
                file_kind: k.to_string(),
                file_zip_path: format!("{path}/{k}"),
            })
            .collect(),
    }
}

fn metadata(root: &str, title: &str) -> ProjectMetadata {
    ProjectMetadata {
        project_root: root.to_string(),
        title: title.to_string(),
        description: None,
        parent: Some("global".to_string()),
        enabled: true,
        inheritable: false,
    }
}

fn gateway_inspection(roots: &[&str]) -> ArchiveInspection {
    let roots: Vec<String> = roots.iter().map(|r| r.to_string()).collect();
    ArchiveInspection {
        archive_kind: ArchiveKind::GatewayBackup,
        project_selection: ProjectSelection::Multiple { roots: roots.clone() },
        detected_project_roots: roots.clone(),
        selected_project_roots: roots,
    }
}

#[test]
fn analytics_bundle_counts_every_project() {
    let inspection = gateway_inspection(&["projects/a/", "projects/b/"]);
    let metas = vec![metadata("projects/a/", "A"), metadata("projects/b/", "B")];
    let inventories = vec![
        ProjectResourceInventory {
            project_root: "projects/a/".to_string(),
            resources: vec![
                resource("Other", "unknown", "x", &["resource.json", "view.json"], false),
                resource("Other", "unknown", "y", &["resource.json", "data.bin"], true),
            ],
        },
        ProjectResourceInventory {
            project_root: "projects/b/".to_string(),
            resources: vec![resource("Other", "unknown", "z", &["resource.json", "script", "script"], false)],
        },
    ];
    let bundle = build_analytics_bundle("g.gwbk", "1970-01-01T00:00:00Z", &inspection, &metas, &inventories)
        .expect("consistent inputs build a bundle");
    assert_eq!(bundle.schema_version, "0.1.0");
    assert_eq!(bundle.generated_at, "1970-01-01T00:00:00Z");
    assert_eq!(bundle.input.archive_path, "g.gwbk");
    assert_eq!(bundle.input.archive_kind, "gateway_backup");
    assert_eq!(bundle.summary.projects_total, 2);
    assert_eq!(bundle.summary.resources_total, 3);
    assert_eq!(bundle.summary.files_total, 7);
    assert_eq!(bundle.summary.binary_only_resources, 1);
    assert_eq!(bundle.summary.unknown_resources, 3);
    assert_eq!(bundle.summary.unknown_ratio, Ratio { numerator: 3, denominator: 3 });
    assert_eq!(bundle.summary.resources_by_section, vec![("Other".to_string(), 3usize)]);
    assert_eq!(bundle.summary.resources_by_type, vec![("unknown".to_string(), 3usize)]);
    assert_eq!(
        bundle.summary.files_by_kind,
        vec![
            ("data.bin".to_string(), 1usize),
            ("resource.json".to_string(), 3usize),
            ("script".to_string(), 2usize),
            ("view.json".to_string(), 1usize),
        ]
    );
    assert_eq!(bundle.projects.len(), 2);
    assert_eq!(bundle.projects[0].project_root, "projects/a/");
    assert_eq!(bundle.projects[0].project.title, "A");
    assert_eq!(bundle.projects[0].counts.resources_total, 2);
    assert_eq!(bundle.projects[0].counts.files_total, 4);
    assert_eq!(bundle.projects[1].counts.files_by_kind, vec![
        ("resource.json".to_string(), 1usize),
        ("script".to_string(), 2usize),
    ]);
    assert_eq!(bundle.projects[1].coverage.unknown_ratio, Ratio { numerator: 1, denominator: 1 });
    assert!(bundle.issues.is_empty());
    assert!(bundle.gateway_meta.is_none());
    let sums: usize = bundle.projects.iter().map(|p| p.counts.resources_total).sum();
    assert_eq!(sums, bundle.summary.resources_total);
}

#[test]
fn analytics_bundle_rejects_misaligned_inputs() {
    let inspection = gateway_inspection(&["projects/a/", "projects/b/"]);
    let metas = vec![metadata("projects/b/", "B"), metadata("projects/a/", "A")];
    let inventories = vec![
        ProjectResourceInventory { project_root: "projects/a/".to_string(), resources: vec![] },
        ProjectResourceInventory { project_root: "projects/b/".to_string(), resources: vec![] },
    ];
    let err = build_analytics_bundle("g.gwbk", "t", &inspection, &metas, &inventories).unwrap_err();
    assert_eq!(
        err,
        AppError::Internal {
            details: "project metadata and resource inventories do not match the selected project roots"
                .to_string()
        }
    );
    let err = build_analytics_bundle("g.gwbk", "t", &inspection, &metas[..1].to_vec(), &inventories)
        .unwrap_err();
    assert!(matches!(err, AppError::Internal { .. }));
}

#[test]
fn analytics_of_an_empty_project_has_zero_ratio() {
    let roots = vec!["".to_string()];
    let inspection = ArchiveInspection {
        archive_kind: ArchiveKind::ProjectExport,
        project_selection: ProjectSelection::Single { root: String::new() },
        detected_project_roots: roots.clone(),
        selected_project_roots: roots,
    };
    let metas = vec![metadata("", "Empty")];
    let inventories = vec![ProjectResourceInventory { project_root: String::new(), resources: vec![] }];
    let bundle = build_analytics_bundle("p.zip", "t", &inspection, &metas, &inventories).unwrap();
    assert_eq!(bundle.summary.unknown_ratio, Ratio { numerator: 0, denominator: 0 });
    let output = render_summary_text("p.zip", &bundle, 1);
    assert!(output.contains("unknown_ratio: 0.000000\n"));
    assert!(output.contains("project: root=(root) title=Empty resources=0 unknown_ratio=0.000000\n"));
    let report = render_report_markdown(&bundle);
    assert!(report.contains("## Counts By Section\n\n- none\n\n"));
    assert!(report.contains("- parent: Some(\"global\")\n"));
}
