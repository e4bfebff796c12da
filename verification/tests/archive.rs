use std::io::{Cursor, Write};

use igniscope::archive::{
    detect_archive_kind, detect_gateway_project_roots, gateway_project_name,
    normalize_zip_entry_name, project_json_member_path, read_project_manifest, ArchiveKind,
    ProjectMetadata, ProjectSelection, RawProjectParsed,
};
use igniscope::discover::{discover_resources_for_root, discover_resources_for_roots};
use igniscope::error::AppError;
use igniscope::json::parse_resource;
use igniscope::resource::{
    build_resource_files, file_kind_from_declared_name, is_binary_only_resource,
    is_resource_json_for_root, resource_folder_path, resource_path_for_project_root, ResourceFile,
};
use igniscope::zipread::{inspect_archive, list_archive_entries, open_archive, read_member};
use zip::write::SimpleFileOptions;
use zip::ZipWriter;

fn zip_of(files: &[(String, String)]) -> Vec<u8> {
    let mut writer = ZipWriter::new(Cursor::new(Vec::new()));
    for (name, content) in files {
        writer
            .start_file(name.as_str(), SimpleFileOptions::default())
            .expect("entry should start");
        writer.write_all(content.as_bytes()).expect("entry should be written");
    }
    writer.finish().expect("archive should finish").into_inner()
}

fn entry(name: &str, content: &str) -> (String, String) {
    (name.to_string(), content.to_string())
}

/// A project export: a root `project.json` and `count` view resources.
fn project_export(count: usize) -> Vec<u8> {
    let mut files = vec![entry("project.json", r#"{"title":"Good template","enabled":true}"#)];
    for i in 0..count {
        let folder = format!("com.inductiveautomation.perspective/views/View{i:03}/");
        files.push(entry(
            &format!("{folder}resource.json"),
            r#"{"scope":"G","version":1,"files":["view.json"]}"#,
        ));
        files.push(entry(&format!("{folder}view.json"), "{}"));
    }
    zip_of(&files)
}

const GATEWAY_PROJECTS: [(&str, usize); 8] = [
    ("samplequickstart", 243),
    ("IADemo", 135),
    ("oil-and-gas-demo", 24),
    ("OnlineDemo", 688),
    ("global", 10),
    ("TagDashboard", 76),
    ("prepared-foods-line-demo", 132),
    ("building-management-system-demo", 216),
];

/// A gateway backup holding the given projects, each with `count` resources.
fn gateway_backup(projects: &[(&str, usize)]) -> Vec<u8> {
    let mut files = vec![entry("db_backup_sqlite.idb", "not a project")];
    for (name, count) in projects {
        files.push(entry(
            &format!("projects/{name}/project.json"),
            &format!(r#"{{"title":"{name}"}}"#),
        ));
        for i in 0..*count {
            files.push(entry(
                &format!("projects/{name}/ignition/named-query/Q{i:03}/resource.json"),
                r#"{"files":[]}"#,
            ));
        }
    }
    zip_of(&files)
}

/// An exchange resource pack: archives inside an archive, no project layout.
fn wrapper_archive() -> Vec<u8> {
    zip_of(&[
        entry("data_center_industry_pack/README.md", "pack"),
        entry("data_center_industry_pack/Data_Center_Project.zip", "inner"),
        entry("data_center_industry_pack/tags.json", "{}"),
    ])
}

fn sorted(names: &[&str]) -> Vec<String> {
    let mut v: Vec<String> = names.iter().map(|s| s.to_string()).collect();
    v.sort();
    v.dedup();
    v
}

#[test]
fn archive_kind_detects_project_export_fixture() {
    let bytes = project_export(3);
    let archive = inspect_archive("Template_v8.3_example.zip", &bytes)
        .expect("fixture should be inspectable");
    assert_eq!(archive.archive_kind, ArchiveKind::ProjectExport);
}

#[test]
fn archive_kind_detects_gateway_backup_fixture() {
    let bytes = gateway_backup(&[("IADemo", 1), ("global", 1)]);
    let archive = inspect_archive("multi-project.gwbk", &bytes).expect("fixture should be inspectable");
    assert_eq!(archive.archive_kind, ArchiveKind::GatewayBackup);
}

#[test]
fn archive_kind_detects_unknown_fixture_as_error() {
    let bytes = wrapper_archive();
    let err = inspect_archive("data_center_industry_pack.1.1.0.zip", &bytes)
        .expect_err("wrapper archive should fail root detection");
    match err {
        AppError::ProjectRootDetection { .. } => {}
        other => panic!("expected project root detection error, got: {other:?}"),
    }
}

#[test]
fn project_roots_for_project_export_is_root_only() {
    let bytes = project_export(2);
    let archive = inspect_archive("Template_v8.3_example.zip", &bytes)
        .expect("fixture should be inspectable");
    assert_eq!(archive.detected_project_roots, vec![String::new()]);
    assert_eq!(archive.selected_project_roots, vec![String::new()]);
    assert_eq!(archive.project_selection, ProjectSelection::Single { root: String::new() });
}

#[test]
fn project_roots_for_multi_project_gateway_are_sorted() {
    let projects: Vec<(&str, usize)> = GATEWAY_PROJECTS.iter().map(|(n, _)| (*n, 1)).collect();
    let bytes = gateway_backup(&projects);
    let archive = inspect_archive("multi-project.gwbk", &bytes).expect("fixture should be inspectable");
    assert_eq!(
        archive.detected_project_roots,
        vec![
            "projects/IADemo/".to_string(),
            "projects/OnlineDemo/".to_string(),
            "projects/TagDashboard/".to_string(),
            "projects/building-management-system-demo/".to_string(),
            "projects/global/".to_string(),
            "projects/oil-and-gas-demo/".to_string(),
            "projects/prepared-foods-line-demo/".to_string(),
            "projects/samplequickstart/".to_string(),
        ]
    );
    assert_eq!(archive.detected_project_roots, archive.selected_project_roots);
    assert_eq!(
        archive.project_selection,
        ProjectSelection::Multiple {
            roots: vec![
                "projects/IADemo/".to_string(),
                "projects/OnlineDemo/".to_string(),
                "projects/TagDashboard/".to_string(),
                "projects/building-management-system-demo/".to_string(),
                "projects/global/".to_string(),
                "projects/oil-and-gas-demo/".to_string(),
                "projects/prepared-foods-line-demo/".to_string(),
                "projects/samplequickstart/".to_string(),
            ]
        }
    );
}

#[test]
fn archive_kind_prefers_root_project_when_both_shapes_exist() {
    let entries = vec!["project.json".to_string(), "projects/alpha/project.json".to_string()];
    assert_eq!(detect_archive_kind(&entries), ArchiveKind::ProjectExport);
}

#[test]
fn project_roots_ignore_invalid_gateway_layouts() {
    let entries = vec![
        "projects//project.json".to_string(),
        "projects/alpha/nested/project.json".to_string(),
        "Projects/uppercase/project.json".to_string(),
        "projects/valid/project.json".to_string(),
    ];
    assert_eq!(detect_gateway_project_roots(&entries), vec!["projects/valid/".to_string()]);
}

#[test]
fn resource_discovery_project_export_counts_expected_resources() {
    let bytes = project_export(88);
    let resources = discover_resources_for_root("Template_v8.3_example.zip", &bytes, "").unwrap();
    assert_eq!(resources.len(), 88);
    assert!(resources
        .iter()
        .all(|resource| resource.files.first().unwrap().file_kind == "resource.json"));
}

#[test]
fn resource_discovery_gateway_backup_counts_expected_resources_per_project() {
    let bytes = gateway_backup(&GATEWAY_PROJECTS);
    let selected_roots = vec![
        "projects/IADemo/".to_string(),
        "projects/OnlineDemo/".to_string(),
        "projects/TagDashboard/".to_string(),
        "projects/building-management-system-demo/".to_string(),
        "projects/global/".to_string(),
        "projects/oil-and-gas-demo/".to_string(),
        "projects/prepared-foods-line-demo/".to_string(),
        "projects/samplequickstart/".to_string(),
    ];
    let inventory = discover_resources_for_roots("multi-project.gwbk", &bytes, &selected_roots).unwrap();
    let counts: Vec<(String, usize)> = inventory
        .into_iter()
        .map(|entry| (entry.project_root, entry.resources.len()))
        .collect();
    assert_eq!(
        counts,
        vec![
            ("projects/IADemo/".to_string(), 135),
            ("projects/OnlineDemo/".to_string(), 688),
            ("projects/TagDashboard/".to_string(), 76),
            ("projects/building-management-system-demo/".to_string(), 216),
            ("projects/global/".to_string(), 10),
            ("projects/oil-and-gas-demo/".to_string(), 24),
            ("projects/prepared-foods-line-demo/".to_string(), 132),
            ("projects/samplequickstart/".to_string(), 243),
        ]
    );
}

#[test]
fn resource_discovery_is_deterministic_between_runs() {
    let bytes = project_export(20);
    let first = discover_resources_for_root("Template_v8.3_example.zip", &bytes, "").unwrap();
    let second = discover_resources_for_root("Template_v8.3_example.zip", &bytes, "").unwrap();
    assert_eq!(first, second);
}

#[test]
fn resource_validation_rejects_missing_files_key() {
    let err = parse_resource("synthetic.zip", "foo/resource.json", br#"{"scope":"A"}"#)
        .expect_err("missing files key should fail");
    match err {
        AppError::ResourceIntegrity { .. } => {}
        other => panic!("expected manifest integrity error, got: {other:?}"),
    }
}

#[test]
fn resource_validation_rejects_invalid_files_type() {
    let err = parse_resource("synthetic.zip", "foo/resource.json", br#"{"files":"not-an-array"}"#)
        .expect_err("invalid files type should fail");
    match err {
        AppError::ResourceIntegrity { .. } => {}
        other => panic!("expected manifest integrity error, got: {other:?}"),
    }
}

#[test]
fn resource_validation_rejects_missing_declared_file() {
    let entry_set = sorted(&["foo/resource.json"]);
    let err = build_resource_files(
        "synthetic.zip",
        "foo/resource.json",
        &vec!["missing.py".to_string()],
        &entry_set,
    )
    .expect_err("missing declared file should fail");
    match err {
        AppError::ResourceIntegrity { .. } => {}
        other => panic!("expected manifest integrity error, got: {other:?}"),
    }
}

#[test]
fn resource_validation_appends_data_bin_when_undeclared() {
    let entry_set = sorted(&["foo/resource.json", "foo/view.json", "foo/data.bin"]);
    let files = build_resource_files(
        "synthetic.zip",
        "foo/resource.json",
        &vec!["view.json".to_string()],
        &entry_set,
    )
    .expect("build resource files should succeed");
    let ordered_paths: Vec<&str> = files.iter().map(|file| file.file_zip_path.as_str()).collect();
    assert_eq!(ordered_paths, vec!["foo/resource.json", "foo/view.json", "foo/data.bin"]);
}

#[test]
fn resource_validation_does_not_duplicate_declared_data_bin() {
    let entry_set = sorted(&["foo/resource.json", "foo/data.bin"]);
    let files = build_resource_files(
        "synthetic.zip",
        "foo/resource.json",
        &vec!["data.bin".to_string()],
        &entry_set,
    )
    .expect("build resource files should succeed");
    assert_eq!(files.len(), 2);
    assert_eq!(files[1].file_zip_path, "foo/data.bin");
}

#[test]
fn resource_binary_only_detection_requires_only_data_bin_payload() {
    let entry_set = sorted(&["foo/resource.json", "foo/data.bin"]);
    let files = build_resource_files(
        "synthetic.zip",
        "foo/resource.json",
        &vec!["data.bin".to_string()],
        &entry_set,
    )
    .unwrap();
    assert!(is_binary_only_resource(&files));

    let entry_set_with_text = sorted(&["bar/resource.json", "bar/data.bin", "bar/view.json"]);
    let files_with_text = build_resource_files(
        "synthetic.zip",
        "bar/resource.json",
        &vec!["view.json".to_string()],
        &entry_set_with_text,
    )
    .unwrap();
    assert!(!is_binary_only_resource(&files_with_text));
}

#[test]
fn missing_declared_file_error_names_the_file() {
    let entry_set = sorted(&["foo/resource.json", "foo/a.json"]);
    let err = build_resource_files(
        "synthetic.zip",
        "foo/resource.json",
        &vec!["a.json".to_string(), "b.json".to_string(), "c.json".to_string()],
        &entry_set,
    )
    .unwrap_err();
    assert_eq!(
        err,
        AppError::ResourceIntegrity {
            details: "Declared file `b.json` is missing for `foo/resource.json` in `synthetic.zip`"
                .to_string()
        }
    );
}

#[test]
fn manifest_path_without_suffix_is_internal_error() {
    let err = build_resource_files("s.zip", "foo/layout.json", &vec![], &vec![]).unwrap_err();
    assert_eq!(
        err,
        AppError::Internal {
            details: "invalid resource json path without suffix: foo/layout.json".to_string()
        }
    );
}

#[test]
fn declared_files_get_kinds_and_folder_paths() {
    let entry_set = sorted(&["r/resource.json", "r/code.py", "r/sub/view.json"]);
    let files = build_resource_files(
        "s.zip",
        "r/resource.json",
        &vec!["code.py".to_string(), "sub/view.json".to_string()],
        &entry_set,
    )
    .unwrap();
    assert_eq!(
        files,
        vec![
            ResourceFile { file_kind: "resource.json".to_string(), file_zip_path: "r/resource.json".to_string() },
            ResourceFile { file_kind: "script".to_string(), file_zip_path: "r/code.py".to_string() },
            ResourceFile { file_kind: "view.json".to_string(), file_zip_path: "r/sub/view.json".to_string() },
        ]
    );
    assert!(!is_binary_only_resource(&files));
    assert!(!is_binary_only_resource(&files[..1].to_vec()));
}

#[test]
fn parse_resource_keeps_files_and_other_members() {
    let raw = parse_resource(
        "s.zip",
        "a/resource.json",
        br#"{"version":1,"files":["view.json","thumbnail.png"],"attributes":{"x":[1, 2]},"scope":"G"}"#,
    )
    .unwrap();
    assert_eq!(raw.files, vec!["view.json".to_string(), "thumbnail.png".to_string()]);
    assert_eq!(
        raw.attributes,
        vec![
            ("attributes".to_string(), r#"{"x":[1,2]}"#.to_string()),
            ("scope".to_string(), r#""G""#.to_string()),
            ("version".to_string(), "1".to_string()),
        ]
    );
}

#[test]
fn parse_resource_errors_are_precise() {
    let err = parse_resource("s.zip", "a/resource.json", b"{not json").unwrap_err();
    match err {
        AppError::JsonParse { archive_path, json_path, details } => {
            assert_eq!(archive_path, "s.zip");
            assert_eq!(json_path, "a/resource.json");
            assert!(details.starts_with("invalid JSON payload: "));
        }
        other => panic!("expected JSON parse error, got: {other:?}"),
    }
    assert_eq!(
        parse_resource("s.zip", "a/resource.json", b"[1, 2]").unwrap_err(),
        AppError::JsonParse {
            archive_path: "s.zip".to_string(),
            json_path: "a/resource.json".to_string(),
            details: "expected JSON object at resource root".to_string(),
        }
    );
    assert_eq!(
        parse_resource("s.zip", "a/resource.json", br#"{"files":"x"}"#).unwrap_err(),
        AppError::ResourceIntegrity {
            details: "Expected `files` array in `a/resource.json` of `s.zip`".to_string()
        }
    );
    assert_eq!(
        parse_resource("s.zip", "a/resource.json", br#"{"scope":"A"}"#).unwrap_err(),
        AppError::ResourceIntegrity {
            details: "Missing required `files` key in `a/resource.json` of `s.zip`".to_string()
        }
    );
    assert_eq!(
        parse_resource("s.zip", "a/resource.json", br#"{"files":["ok", 7, ""]}"#).unwrap_err(),
        AppError::ResourceIntegrity {
            details: "Expected string at `files[1]` in `a/resource.json` of `s.zip`".to_string()
        }
    );
    assert_eq!(
        parse_resource("s.zip", "a/resource.json", br#"{"files":["ok", ""]}"#).unwrap_err(),
        AppError::ResourceIntegrity {
            details: "Found empty file name at `files[1]` in `a/resource.json` of `s.zip`".to_string()
        }
    );
}

#[test]
fn listing_normalizes_sorts_and_deduplicates() {
    let bytes = zip_of(&[
        entry("b\\c.txt", "1"),
        entry("/a.txt", "2"),
        entry("//b/c.txt", "3"),
        entry("a.txt", "4"),
        entry("/", "5"),
    ]);
    let entries = list_archive_entries("x.zip", &bytes).unwrap();
    assert_eq!(entries, vec!["a.txt".to_string(), "b/c.txt".to_string()]);
}

#[test]
fn listing_rejects_bytes_that_are_not_a_zip() {
    let err = list_archive_entries("x.zip", b"plain text").unwrap_err();
    match err {
        AppError::ArchiveRead { archive_path, details } => {
            assert_eq!(archive_path, "x.zip");
            assert!(details.starts_with("not a valid zip archive: "));
        }
        other => panic!("expected archive read error, got: {other:?}"),
    }
    assert!(matches!(inspect_archive("x.zip", b"").unwrap_err(), AppError::ArchiveRead { .. }));
}

#[test]
fn inspection_error_names_the_archive() {
    let err = inspect_archive("pack.zip", &wrapper_archive()).unwrap_err();
    assert_eq!(
        err,
        AppError::ProjectRootDetection {
            archive_path: "pack.zip".to_string(),
            details: "expected `project.json` at archive root or one/more `projects/<name>/project.json` roots"
                .to_string(),
        }
    );
}

#[test]
fn single_gateway_project_is_a_single_selection() {
    let bytes = gateway_backup(&[("only", 0)]);
    let archive = inspect_archive("g.gwbk", &bytes).unwrap();
    assert_eq!(archive.archive_kind, ArchiveKind::GatewayBackup);
    assert_eq!(archive.project_selection, ProjectSelection::Single { root: "projects/only/".to_string() });
    assert_eq!(ArchiveKind::GatewayBackup.as_str(), "gateway_backup");
    assert_eq!(ArchiveKind::ProjectExport.as_str(), "project_export");
    assert_eq!(ArchiveKind::Unknown.as_str(), "unknown");
}

#[test]
fn members_are_read_from_the_archive() {
    let bytes = project_export(1);
    let mut archive = open_archive("p.zip", &bytes).unwrap();
    let member = project_json_member_path("");
    assert_eq!(member, "project.json");
    assert_eq!(project_json_member_path("projects/a/"), "projects/a/project.json");
    let content = read_member(&mut archive, "p.zip", &member).unwrap();
    assert_eq!(content, br#"{"title":"Good template","enabled":true}"#.to_vec());
    let err = read_member(&mut archive, "p.zip", "nope.json").unwrap_err();
    match err {
        AppError::ArchiveRead { details, .. } => assert!(details.starts_with("missing expected `nope.json`: ")),
        other => panic!("expected archive read error, got: {other:?}"),
    }
    assert!(matches!(open_archive("p.zip", b"zip?"), Err(AppError::ArchiveRead { .. })));
}

#[test]
fn discovered_resources_are_ordered_and_complete() {
    let bytes = zip_of(&[
        entry("project.json", r#"{"title":"t"}"#),
        entry("z/resource.json", r#"{"files":["data.bin"],"scope":"A"}"#),
        entry("z/data.bin", "bin"),
        entry("a/b/resource.json", r#"{"files":["x.py"]}"#),
        entry("a/b/x.py", "print()"),
        entry("a/b/data.bin", "bin"),
        entry("resource.json", r#"{"files":[]}"#),
    ]);
    let resources = discover_resources_for_root("p.zip", &bytes, "").unwrap();
    let paths: Vec<&str> = resources.iter().map(|r| r.path.as_str()).collect();
    assert_eq!(paths, vec!["a/b", "z"]);
    assert_eq!(resources[0].section, "Other");
    assert_eq!(resources[0].type_key, "unknown");
    assert_eq!(resources[0].resource_json_path, "a/b/resource.json");
    let kinds: Vec<&str> = resources[0].files.iter().map(|f| f.file_kind.as_str()).collect();
    assert_eq!(kinds, vec!["resource.json", "script", "data.bin"]);
    assert!(!resources[0].binary_only);
    assert!(resources[1].binary_only);
    assert_eq!(resources[1].attributes, vec![("scope".to_string(), r#""A""#.to_string())]);
}

#[test]
fn discovery_is_scoped_to_the_root_and_strips_it() {
    let bytes = gateway_backup(&[("a", 2), ("b", 1)]);
    let resources = discover_resources_for_root("g.gwbk", &bytes, "projects/b/").unwrap();
    assert_eq!(resources.len(), 1);
    assert_eq!(resources[0].path, "ignition/named-query/Q000");
    assert_eq!(resources[0].resource_json_path, "projects/b/ignition/named-query/Q000/resource.json");
    let none = discover_resources_for_root("g.gwbk", &bytes, "projects/c/").unwrap();
    assert!(none.is_empty());
}

#[test]
fn discovery_reports_the_first_bad_manifest() {
    let bytes = zip_of(&[
        entry("project.json", r#"{"title":"t"}"#),
        entry("b/resource.json", r#"{"files":["gone.json"]}"#),
        entry("a/resource.json", "{broken"),
    ]);
    let err = discover_resources_for_root("p.zip", &bytes, "").unwrap_err();
    assert!(matches!(err, AppError::JsonParse { ref json_path, .. } if json_path == "a/resource.json"));
    let bytes = zip_of(&[
        entry("project.json", r#"{"title":"t"}"#),
        entry("b/resource.json", r#"{"files":["gone.json"]}"#),
    ]);
    let err = discover_resources_for_roots("p.zip", &bytes, &vec![String::new()]).unwrap_err();
    assert_eq!(
        err,
        AppError::ResourceIntegrity {
            details: "Declared file `gone.json` is missing for `b/resource.json` in `p.zip`".to_string()
        }
    );
    let err = discover_resources_for_roots("p.zip", b"nope", &vec![String::new()]).unwrap_err();
    assert!(matches!(err, AppError::ArchiveRead { .. }));
}

#[test]
fn path_helpers_follow_the_layout() {
    assert_eq!(normalize_zip_entry_name("\\\\a\\b"), "a/b");
    assert_eq!(normalize_zip_entry_name("/x/"), "x/");
    assert_eq!(gateway_project_name("projects/demo/project.json"), Some("demo".to_string()));
    assert_eq!(gateway_project_name("projects/a/b/project.json"), None);
    assert_eq!(gateway_project_name("projects//project.json"), None);
    assert!(is_resource_json_for_root("projects/a/x/resource.json", "projects/a/"));
    assert!(!is_resource_json_for_root("projects/b/x/resource.json", "projects/a/"));
    assert!(is_resource_json_for_root("x/resource.json", ""));
    assert!(!is_resource_json_for_root("resource.json", ""));
    assert_eq!(resource_folder_path("a/b/resource.json"), Some("a/b/".to_string()));
    assert_eq!(resource_folder_path("a/b/other.json"), None);
    assert_eq!(
        resource_path_for_project_root("projects/a/ignition/x/resource.json", "projects/a/"),
        "ignition/x"
    );
    assert_eq!(resource_path_for_project_root("views/Main/resource.json", ""), "views/Main");
    assert_eq!(file_kind_from_declared_name("scripts/code.py"), "script");
    assert_eq!(file_kind_from_declared_name("a/b/view.json"), "view.json");
    assert_eq!(file_kind_from_declared_name("data.bin"), "data.bin");
}

#[test]
fn listing_twice_gives_the_same_names() {
    let bytes = gateway_backup(&[("b", 2), ("a", 1)]);
    let first = list_archive_entries("g.gwbk", &bytes).unwrap();
    let second = list_archive_entries("g.gwbk", &bytes).unwrap();
    assert_eq!(first, second);
    let mut expected = first.clone();
    expected.sort();
    expected.dedup();
    assert_eq!(first, expected);
}

#[test]
fn inventories_are_deterministic_and_in_root_order() {
    let bytes = gateway_backup(&[("b", 2), ("a", 1)]);
    let roots = vec!["projects/b/".to_string(), "projects/a/".to_string()];
    let first = discover_resources_for_roots("g.gwbk", &bytes, &roots).unwrap();
    let second = discover_resources_for_roots("g.gwbk", &bytes, &roots).unwrap();
    assert_eq!(first, second);
    assert_eq!(first[0].project_root, "projects/b/");
    assert_eq!(first[0].resources.len(), 2);
    assert_eq!(first[1].project_root, "projects/a/");
    assert_eq!(first[1].resources.len(), 1);
}

#[test]
fn project_manifests_are_read_per_root() {
    let bytes = gateway_backup(&[("a", 0)]);
    let mut archive = open_archive("g.gwbk", &bytes).unwrap();
    let content = read_project_manifest(&mut archive, "g.gwbk", "projects/a/").unwrap();
    assert_eq!(content, br#"{"title":"a"}"#.to_vec());
    let err = read_project_manifest(&mut archive, "g.gwbk", "projects/z/").unwrap_err();
    match err {
        AppError::ArchiveRead { archive_path, details } => {
            assert_eq!(archive_path, "g.gwbk");
            assert!(details.starts_with("missing expected `projects/z/project.json`: "));
        }
        other => panic!("expected archive read error, got: {other:?}"),
    }
}

#[test]
fn parsed_project_fields_get_their_root() {
    let parsed = RawProjectParsed {
        title: "Vision Demo".to_string(),
        description: Some("demo".to_string()),
        parent: None,
        enabled: false,
        inheritable: true,
    };
    assert_eq!(
        parsed.with_root("projects/IADemo/".to_string()),
        ProjectMetadata {
            project_root: "projects/IADemo/".to_string(),
            title: "Vision Demo".to_string(),
            description: Some("demo".to_string()),
            parent: None,
            enabled: false,
            inheritable: true,
        }
    );
}

#[test]
fn listing_errors_carry_the_zip_error_text() {
    let bytes = b"plain text".to_vec();
    let zip_text = zip::ZipArchive::new(Cursor::new(bytes.clone())).unwrap_err().to_string();
    let err = list_archive_entries("x.zip", &bytes).unwrap_err();
    assert_eq!(
        err,
        AppError::ArchiveRead {
            archive_path: "x.zip".to_string(),
            details: format!("not a valid zip archive: {zip_text}"),
        }
    );
    assert_eq!(inspect_archive("x.zip", &bytes).unwrap_err(), err);
    let err = open_archive("x.zip", &bytes).err().expect("not a zip");
    assert_eq!(
        err,
        AppError::ArchiveRead {
            archive_path: "x.zip".to_string(),
            details: format!("not a valid zip archive: {zip_text}"),
        }
    );
}

#[test]
fn missing_member_error_carries_the_zip_error_text() {
    let bytes = project_export(0);
    let mut archive = open_archive("p.zip", &bytes).unwrap();
    let zip_text = zip::ZipArchive::new(Cursor::new(bytes.clone()))
        .unwrap()
        .by_name("nope.json")
        .err()
        .expect("member is missing")
        .to_string();
    assert_eq!(
        read_member(&mut archive, "p.zip", "nope.json").unwrap_err(),
        AppError::ArchiveRead {
            archive_path: "p.zip".to_string(),
            details: format!("missing expected `nope.json`: {zip_text}"),
        }
    );
}

#[test]
fn invalid_json_error_carries_the_parser_text() {
    let json_text = serde_json::from_slice::<serde_json::Value>(b"{not json").unwrap_err().to_string();
    assert_eq!(
        parse_resource("s.zip", "a/resource.json", b"{not json").unwrap_err(),
        AppError::JsonParse {
            archive_path: "s.zip".to_string(),
            json_path: "a/resource.json".to_string(),
            details: format!("invalid JSON payload: {json_text}"),
        }
    );
}

#[test]
fn discovery_failures_repeat_exactly() {
    let bytes = zip_of(&[
        entry("project.json", r#"{"title":"t"}"#),
        entry("a/resource.json", "{broken"),
    ]);
    let first = discover_resources_for_root("p.zip", &bytes, "").unwrap_err();
    let second = discover_resources_for_root("p.zip", &bytes, "").unwrap_err();
    assert_eq!(first, second);
}
