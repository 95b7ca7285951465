use std::collections::HashSet;

use devhub::editors::{
    code_supports_remote, desktop_launcher, desktop_program, desktop_value, detect_editors,
    editor_id, effective_project_kinds, encode_query_value, filtered_editors, inspect_editor,
    is_first_party_zed, jetbrains_project_kinds, jetbrains_remote_uri, normalized_remote_path,
    platform_name, split_host_port, CandidateFacts, CodeProduct, DetectedEditor, EditorKind,
    EditorLaunchRequest, EditorProjectKind, JetBrainsCommand, JetBrainsLaunch, JetBrainsModule,
    JetBrainsProduct, LauncherCandidate, Platform,
};
use devhub::project::{Project, ProjectSource, ProjectType};

fn project(source: ProjectSource, path: &str) -> Project {
    Project {
        name: "sample".into(),
        path: path.into(),
        source,
        project_type: ProjectType::Rust,
        has_git: true,
        git_remote: None,
        markers_found: Vec::new(),
        last_modified: None,
        search_key: String::new(),
    }
}

fn remote_project() -> Project {
    project(
        ProjectSource::Remote {
            name: "build".into(),
            host: "dev@example.com".into(),
        },
        "/srv/project",
    )
}

fn project_with_type(project_type: ProjectType, markers: &[&str]) -> Project {
    let mut project = project(ProjectSource::Local, "/srv/project");
    project.project_type = project_type;
    project.markers_found = markers.iter().map(|marker| (*marker).to_string()).collect();
    project
}

fn editor(kind: EditorKind) -> DetectedEditor {
    DetectedEditor {
        id: "test".into(),
        label: "Test Editor".into(),
        executable: "editor".into(),
        kind,
    }
}

fn jetbrains(code: &str, kinds: Vec<EditorProjectKind>) -> DetectedEditor {
    editor(EditorKind::JetBrains {
        product_code: code.into(),
        remote: true,
        transport: Some("toolbox".into()),
        project_kinds: kinds,
    })
}

#[test]
fn code_remote_uses_the_discovered_ssh_contract() {
    let request = editor(EditorKind::Code { remote: true })
        .launch_request(&remote_project())
        .unwrap();

    assert_eq!(
        request,
        EditorLaunchRequest {
            program: "editor".to_string(),
            args: vec![
                "--remote".into(),
                "ssh-remote+dev@example.com".into(),
                "/srv/project".into(),
            ],
        }
    );
}

#[test]
fn local_only_editors_are_removed_from_remote_results() {
    let editors = vec![
        editor(EditorKind::Local),
        editor(EditorKind::Code { remote: true }),
    ];

    let filtered = filtered_editors(&editors, "", &remote_project());

    assert_eq!(filtered.len(), 1);
    assert!(filtered[0].supports_remote());
}

#[test]
fn jetbrains_link_routes_to_the_discovered_product() {
    assert_eq!(
        jetbrains_remote_uri("dev@example.com:2222", "/srv/my project", "RR"),
        "jetbrains://gateway/ssh/environment?h=example.com&p=2222&launchIde=true&projectHint=%2Fsrv%2Fmy%20project&ideHint=RR&u=dev"
    );
}

#[test]
fn code_metadata_declares_remote_capability() {
    let product = CodeProduct {
        application_name: Some("sample".to_string()),
        name_long: Some("Sample Editor".to_string()),
        name_short: None,
        remote_name: None,
        server_application_name: Some("sample-server".to_string()),
        tunnel_application_name: Some("sample-tunnel".to_string()),
    };

    assert_eq!(product.name_long.as_deref(), Some("Sample Editor"));
    assert!(code_supports_remote(&product));
}

#[test]
fn primary_jetbrains_product_module_wins_over_bundled_languages() {
    let modules = [
        JetBrainsModule::Name("com.intellij.modules.javascript".into()),
        JetBrainsModule::Name("com.intellij.modules.python-core-capable".into()),
        JetBrainsModule::Name("com.intellij.modules.rustrover".into()),
    ];

    assert_eq!(jetbrains_project_kinds(&modules), [EditorProjectKind::Rust]);
}

#[test]
fn jetbrains_entries_are_filtered_by_project_compatibility() {
    let rustrover = jetbrains("RR", vec![EditorProjectKind::Rust]);

    assert_eq!(
        filtered_editors(
            std::slice::from_ref(&rustrover),
            "",
            &project_with_type(ProjectType::Rust, &[]),
        )
        .len(),
        1
    );
    assert!(filtered_editors(
        std::slice::from_ref(&rustrover),
        "",
        &project_with_type(ProjectType::Node, &[]),
    )
    .is_empty());
    assert!(filtered_editors(
        &[rustrover],
        "",
        &project_with_type(ProjectType::Unknown, &["*.js"]),
    )
    .is_empty());
}

#[test]
fn jetbrains_entries_consider_every_language_marker() {
    let rustrover = jetbrains("RR", vec![EditorProjectKind::Rust]);
    let webstorm = jetbrains("WS", vec![EditorProjectKind::Web]);
    let project = project_with_type(ProjectType::Rust, &["Cargo.toml", "package.json"]);

    let filtered = filtered_editors(&[rustrover, webstorm], "", &project);

    assert_eq!(filtered.len(), 2);
}

#[test]
fn unclassified_jetbrains_entries_are_not_offered() {
    let editor = jetbrains("UNKNOWN", Vec::new());

    assert!(filtered_editors(
        &[editor],
        "",
        &project_with_type(ProjectType::Rust, &["Cargo.toml"]),
    )
    .is_empty());
}

fn candidate(executable: &str, label: Option<&str>, declared: bool) -> LauncherCandidate {
    LauncherCandidate {
        executable: executable.to_string(),
        label: label.map(str::to_string),
        declared_editor: declared,
    }
}

fn facts() -> CandidateFacts {
    CandidateFacts {
        remote_transport: false,
        jetbrains: None,
        launchers: Vec::new(),
        code: None,
    }
}

fn sample_candidates() -> Vec<(LauncherCandidate, CandidateFacts)> {
    let code = CodeProduct {
        application_name: Some("code".to_string()),
        name_long: Some("Visual Studio Code".to_string()),
        name_short: Some("Code".to_string()),
        remote_name: None,
        server_application_name: Some("code-server".to_string()),
        tunnel_application_name: None,
    };
    let rustrover = JetBrainsProduct {
        name: "RustRover".to_string(),
        product_code: "RR".to_string(),
        launch: vec![
            JetBrainsLaunch {
                os: "Windows".to_string(),
                launcher_path: "bin/rustrover64.exe".to_string(),
                custom_commands: Vec::new(),
            },
            JetBrainsLaunch {
                os: "linux".to_string(),
                launcher_path: "bin/rustrover".to_string(),
                custom_commands: vec![JetBrainsCommand {
                    commands: vec!["thinclient".to_string()],
                }],
            },
        ],
        modules: vec![JetBrainsModule::Entry {
            name: "com.intellij.modules.rustrover".to_string(),
        }],
    };
    vec![
        (candidate("/usr/bin/zed", None, true), facts()),
        (
            candidate("/opt/toolbox/bin/jetbrains-toolbox", None, false),
            CandidateFacts {
                remote_transport: true,
                ..facts()
            },
        ),
        (
            candidate("/opt/rustrover/bin/rustrover.sh", None, false),
            CandidateFacts {
                jetbrains: Some(rustrover),
                launchers: vec![None, Some("/opt/rustrover/bin/rustrover".to_string())],
                ..facts()
            },
        ),
        (
            candidate("/usr/share/code/code", Some("Code"), false),
            CandidateFacts {
                code: Some(code.clone()),
                ..facts()
            },
        ),
        (
            candidate("/usr/share/code/code", Some("Code again"), false),
            CandidateFacts {
                code: Some(code),
                ..facts()
            },
        ),
        (candidate("/usr/bin/gedit", Some("gedit"), true), facts()),
        (candidate("/usr/bin/ls", None, false), facts()),
    ]
}

#[test]
fn discovered_entries_are_actual_editors() {
    let editors = detect_editors(&sample_candidates(), Platform::Linux);
    assert!(!editors.is_empty());
    let mut ids = HashSet::new();
    for editor in editors {
        assert!(!editor.label().trim().is_empty());
        assert!(!is_first_party_zed(&editor.executable));
        assert!(!editor.executable.contains("toolbox"));
        if editor.supports_remote() {
            assert!(editor.launch_request(&remote_project()).is_ok());
        }
        assert!(ids.insert(editor.id));
    }
}

#[test]
fn discovery_keeps_one_editor_per_id_sorted_by_label() {
    let editors = detect_editors(&sample_candidates(), Platform::Linux);
    let labels = editors.iter().map(|e| e.label.as_str()).collect::<Vec<_>>();
    assert_eq!(labels, ["gedit", "RustRover", "Visual Studio Code"]);
    assert_eq!(
        editors[1].kind,
        EditorKind::JetBrains {
            product_code: "RR".to_string(),
            remote: true,
            transport: Some("/opt/toolbox/bin/jetbrains-toolbox".to_string()),
            project_kinds: vec![EditorProjectKind::Rust],
        }
    );
    assert_eq!(editors[1].executable, "/opt/rustrover/bin/rustrover");
    assert_eq!(editors[2].kind, EditorKind::Code { remote: true });
    assert_eq!(editors[0].kind, EditorKind::Local);
}

#[test]
fn jetbrains_without_a_launcher_for_the_platform_is_skipped() {
    let candidates = sample_candidates();
    let (rustrover, rustrover_facts) = &candidates[2];
    assert!(inspect_editor(rustrover, None, rustrover_facts, Platform::Windows).is_none());
    assert!(inspect_editor(rustrover, None, rustrover_facts, Platform::MacOs).is_none());
    let found = inspect_editor(rustrover, None, rustrover_facts, Platform::Linux).unwrap();
    assert!(!found.supports_remote());
}

#[test]
fn code_editors_need_a_label_and_are_not_zed() {
    let mut zed_code = CodeProduct {
        application_name: Some("Zed".to_string()),
        name_long: Some("Zed".to_string()),
        name_short: None,
        remote_name: None,
        server_application_name: None,
        tunnel_application_name: None,
    };
    let c = candidate("/opt/x/bin/x", None, false);
    let f = CandidateFacts {
        code: Some(zed_code.clone()),
        ..facts()
    };
    assert!(inspect_editor(&c, None, &f, Platform::Linux).is_none());
    zed_code.application_name = Some("x".to_string());
    zed_code.name_long = Some("   ".to_string());
    let f = CandidateFacts {
        code: Some(zed_code),
        ..facts()
    };
    assert!(inspect_editor(&c, None, &f, Platform::Linux).is_none());
}

#[test]
fn editors_match_queries_by_label_or_id() {
    let mut a = editor(EditorKind::Local);
    a.id = "/usr/bin/gedit".into();
    a.label = "Text Editor".into();
    let mut b = editor(EditorKind::Local);
    b.id = "/usr/bin/kate".into();
    b.label = "Kate".into();
    let local = project(ProjectSource::Local, "/srv/project");
    let editors = vec![a, b];
    assert_eq!(filtered_editors(&editors, "  TEXT ", &local).len(), 1);
    assert_eq!(filtered_editors(&editors, "kate", &local)[0].label, "Kate");
    assert_eq!(filtered_editors(&editors, "gedit", &local)[0].label, "Text Editor");
    assert!(filtered_editors(&editors, "vim", &local).is_empty());
}

#[test]
fn local_projects_open_by_path_and_others_refuse_ssh() {
    let local = project(ProjectSource::Local, "/home/me/project");
    let request = editor(EditorKind::Local).launch_request(&local).unwrap();
    assert_eq!(request.program, "editor");
    assert_eq!(request.args, ["/home/me/project".to_string()]);
    assert_eq!(
        editor(EditorKind::Local).launch_request(&remote_project()),
        Err("Test Editor does not expose an SSH project launcher".to_string())
    );
    let jb = jetbrains("RR", vec![EditorProjectKind::Rust]);
    let request = jb.launch_request(&remote_project()).unwrap();
    assert_eq!(request.program, "toolbox");
    assert_eq!(
        request.args,
        ["jetbrains://gateway/ssh/environment?h=example.com&p=22&launchIde=true&projectHint=%2Fsrv%2Fproject&ideHint=RR&u=dev".to_string()]
    );
}

#[test]
fn project_kinds_come_from_type_and_markers_once() {
    let p = project_with_type(ProjectType::Node, &["*.ts", "package.json", "go.mod", "unknown", "*.js"]);
    assert_eq!(
        effective_project_kinds(&p),
        [EditorProjectKind::Web, EditorProjectKind::Go]
    );
    let p = project_with_type(ProjectType::Unknown, &[]);
    assert!(effective_project_kinds(&p).is_empty());
    let p = project_with_type(ProjectType::CMake, &["*.dart", "pom.xml"]);
    assert_eq!(
        effective_project_kinds(&p),
        [
            EditorProjectKind::Native,
            EditorProjectKind::Dart,
            EditorProjectKind::Java
        ]
    );
}

#[test]
fn bundled_language_modules_add_their_kinds() {
    let modules = [
        JetBrainsModule::Name("com.intellij.modules.dart".into()),
        JetBrainsModule::Entry {
            name: "com.intellij.modules.java".into(),
        },
        JetBrainsModule::Name("com.intellij.modules.javascript".into()),
    ];
    assert_eq!(
        jetbrains_project_kinds(&modules),
        [
            EditorProjectKind::Java,
            EditorProjectKind::Web,
            EditorProjectKind::Dart
        ]
    );
    let go = [JetBrainsModule::Name("com.intellij.modules.go".into())];
    assert_eq!(jetbrains_project_kinds(&go), [EditorProjectKind::Go]);
    assert!(jetbrains_project_kinds(&[]).is_empty());
}

#[test]
fn addresses_split_into_host_and_port() {
    assert_eq!(split_host_port("example.com"), ("example.com".to_string(), 22));
    assert_eq!(split_host_port("example.com:2200"), ("example.com".to_string(), 2200));
    assert_eq!(split_host_port("example.com:"), ("example.com".to_string(), 22));
    assert_eq!(split_host_port("example.com:99999"), ("example.com".to_string(), 22));
    assert_eq!(split_host_port("example.com:ab"), ("example.com:ab".to_string(), 22));
    assert_eq!(split_host_port("[::1]:2201"), ("::1".to_string(), 2201));
    assert_eq!(split_host_port("[::1]"), ("::1".to_string(), 22));
    assert_eq!(split_host_port("[::1]:+7"), ("::1".to_string(), 7));
    assert_eq!(split_host_port("[::1]:x"), ("::1".to_string(), 22));
    assert_eq!(split_host_port("[fe80::1"), ("fe80::1".to_string(), 22));
}

#[test]
fn query_values_are_percent_encoded_bytes() {
    assert_eq!(encode_query_value("Az09-_.~"), "Az09-_.~");
    assert_eq!(encode_query_value("a b/c"), "a%20b%2Fc");
    assert_eq!(encode_query_value("é"), "%C3%A9");
    assert_eq!(encode_query_value(""), "");
}

#[test]
fn remote_paths_are_absolute_with_forward_slashes() {
    assert_eq!(normalized_remote_path("/srv/x"), "/srv/x");
    assert_eq!(normalized_remote_path(r"srv\x"), "/srv/x");
    assert_eq!(normalized_remote_path(""), "/");
}

#[test]
fn editor_ids_are_lower_case_on_windows_only() {
    assert_eq!(editor_id(r"C:\Tools\Code.exe", Platform::Windows), "c:/tools/code.exe");
    assert_eq!(editor_id("/usr/bin/Code", Platform::Linux), "/usr/bin/Code");
    assert_eq!(platform_name(Platform::MacOs), "macOS");
}

#[test]
fn desktop_entries_offer_declared_editors() {
    let entry = "[Desktop Entry]\r\nName=Kate\r\nExec=\"/usr/bin/kate\" -b %U\r\nCategories=Qt;KDE;TextEditor;\r\n";
    assert_eq!(desktop_value(entry, "Name"), Some("Kate".to_string()));
    assert_eq!(desktop_value(entry, "Icon"), None);
    assert_eq!(
        desktop_launcher(entry),
        Some(("Kate".to_string(), "/usr/bin/kate".to_string()))
    );
    let mime = "Name=Files\nMimeType=inode/directory;\nExec=nautilus --new-window %U\n";
    assert_eq!(
        desktop_launcher(mime),
        Some(("Files".to_string(), "nautilus".to_string()))
    );
    let game = "Name=Game\nCategories=Game;\nExec=game\n";
    assert_eq!(desktop_launcher(game), None);
    let zed = "Name=ZED\nCategories=Development;\nExec=zed\n";
    assert_eq!(desktop_launcher(zed), None);
    let no_exec = "Name=Tool\nCategories=Development;\n";
    assert_eq!(desktop_launcher(no_exec), None);
    assert_eq!(desktop_program("  \"/opt/My App/app\" --x"), Some("/opt/My App/app".to_string()));
    assert_eq!(desktop_program("\"unclosed"), Some("\"unclosed".to_string()));
    assert_eq!(desktop_program("   "), None);
}

#[test]
fn zed_is_recognised_by_its_file_stem() {
    assert!(is_first_party_zed("/usr/bin/zed"));
    assert!(is_first_party_zed("/opt/Zed.exe"));
    assert!(is_first_party_zed("zed"));
    assert!(!is_first_party_zed("/usr/bin/zeditor"));
    assert!(!is_first_party_zed("/usr/bin/code"));
    assert!(!is_first_party_zed(""));
}

#[test]
fn editors_with_blank_labels_are_not_detected() {
    let empty_name = candidate("/usr/bin/tool", Some(""), true);
    assert!(inspect_editor(&empty_name, None, &facts(), Platform::Linux).is_none());
    let spaces = candidate("/usr/bin/tool", Some("   "), true);
    assert!(inspect_editor(&spaces, None, &facts(), Platform::Linux).is_none());
    let named_by_stem = candidate("/usr/bin/tool", None, true);
    let found = inspect_editor(&named_by_stem, None, &facts(), Platform::Linux).unwrap();
    assert_eq!(found.label, "tool");

    let candidates = sample_candidates();
    let (rustrover, rustrover_facts) = &candidates[2];
    let mut blank_product = rustrover_facts.clone();
    if let Some(product) = blank_product.jetbrains.as_mut() {
        product.name = "  ".to_string();
    }
    assert!(inspect_editor(rustrover, None, &blank_product, Platform::Linux).is_none());

    let mut all = candidates.clone();
    all.push((empty_name, facts()));
    all[2].1 = blank_product;
    let editors = detect_editors(&all, Platform::Linux);
    let labels = editors.iter().map(|e| e.label.as_str()).collect::<Vec<_>>();
    assert_eq!(labels, ["gedit", "Visual Studio Code"]);
}
