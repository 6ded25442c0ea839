use create_ruxt_app::handler::{CreateAction, Handler, RawNode};
use create_ruxt_app::ScaffoldError;

fn file_node(name: &str, transport: &[u8]) -> RawNode {
    RawNode {
        node_type: b"file".to_vec(),
        name: Some(name.as_bytes().to_vec()),
        content: Some(transport.to_vec()),
        children: None,
    }
}

fn folder_node(name: &str, children: Vec<RawNode>) -> RawNode {
    RawNode {
        node_type: b"folder".to_vec(),
        name: Some(name.as_bytes().to_vec()),
        content: None,
        children: Some(children),
    }
}

#[test]
fn folder_with_escaped_file() {
    let map = vec![folder_node(
        "src",
        vec![file_node("main.txt", b"\"hello\\nworld\"")],
    )];
    let plan = Handler::create_ruxt_app(&map, &b"proj".to_vec()).unwrap();
    assert_eq!(
        plan,
        vec![
            CreateAction::MakeDir { path: vec![b"src".to_vec()] },
            CreateAction::WriteFile {
                path: vec![b"src".to_vec(), b"main.txt".to_vec()],
                content: b"hello\nworld".to_vec(),
            },
        ]
    );
}

#[test]
fn collision_at_root_is_reported() {
    let map = vec![file_node("README.md", b"\"docs\"")];
    let plan = Handler::create_ruxt_app(&map, &b"proj".to_vec()).unwrap();
    let present = vec![true];
    let r = Handler::validate_file_map(&plan, &present);
    assert_eq!(
        r,
        Err(ScaffoldError::AlreadyExists { name: b"README.md".to_vec(), is_folder: false })
    );
}

#[test]
fn unknown_node_type_is_malformed() {
    let map = vec![RawNode {
        node_type: b"symlink".to_vec(),
        name: Some(b"link".to_vec()),
        content: Some(b"\"x\"".to_vec()),
        children: None,
    }];
    let r = Handler::create_ruxt_app(&map, &b"proj".to_vec());
    assert_eq!(r, Err(ScaffoldError::MalformedManifest));
}

#[test]
fn missing_fields_are_malformed() {
    let no_content = RawNode {
        node_type: b"file".to_vec(),
        name: Some(b"a".to_vec()),
        content: None,
        children: None,
    };
    let no_name = RawNode {
        node_type: b"file".to_vec(),
        name: None,
        content: Some(b"\"x\"".to_vec()),
        children: None,
    };
    let no_children = RawNode {
        node_type: b"folder".to_vec(),
        name: Some(b"d".to_vec()),
        content: None,
        children: None,
    };
    for node in [no_content, no_name, no_children] {
        let r = Handler::create_ruxt_app(&vec![node], &b"proj".to_vec());
        assert_eq!(r, Err(ScaffoldError::MalformedManifest));
    }
}

#[test]
fn unwrapped_content_is_malformed() {
    let map = vec![file_node("a.txt", b"plain")];
    let r = Handler::create_ruxt_app(&map, &b"proj".to_vec());
    assert_eq!(r, Err(ScaffoldError::MalformedManifest));
}

#[test]
fn malformed_child_fails_the_whole_build() {
    let map = vec![folder_node(
        "src",
        vec![RawNode {
            node_type: b"device".to_vec(),
            name: Some(b"x".to_vec()),
            content: None,
            children: None,
        }],
    )];
    let r = Handler::create_ruxt_app(&map, &b"proj".to_vec());
    assert_eq!(r, Err(ScaffoldError::MalformedManifest));
}

#[test]
fn empty_manifest_yields_empty_plan() {
    let plan = Handler::create_ruxt_app(&Vec::new(), &b"proj".to_vec()).unwrap();
    assert_eq!(plan, Vec::new());
}

#[test]
fn plan_keeps_manifest_order_and_nests_paths() {
    let map = vec![
        file_node("a.txt", b"\"A\""),
        folder_node(
            "dir",
            vec![folder_node("sub", vec![file_node("b.txt", b"\"B\"")])],
        ),
    ];
    let plan = Handler::create_ruxt_app(&map, &b"proj".to_vec()).unwrap();
    assert_eq!(
        plan,
        vec![
            CreateAction::WriteFile { path: vec![b"a.txt".to_vec()], content: b"A".to_vec() },
            CreateAction::MakeDir { path: vec![b"dir".to_vec()] },
            CreateAction::MakeDir { path: vec![b"dir".to_vec(), b"sub".to_vec()] },
            CreateAction::WriteFile {
                path: vec![b"dir".to_vec(), b"sub".to_vec(), b"b.txt".to_vec()],
                content: b"B".to_vec(),
            },
        ]
    );
}

#[test]
fn substitution_hits_only_the_designated_file() {
    let map = vec![
        file_node("Cargo.toml", b"\"name = {name}, again {name}\""),
        file_node("notes.txt", b"\"keep {name} literal\""),
    ];
    let plan = Handler::create_ruxt_app(&map, &b"demo".to_vec()).unwrap();
    assert_eq!(
        plan,
        vec![
            CreateAction::WriteFile {
                path: vec![b"Cargo.toml".to_vec()],
                content: b"name = demo, again demo".to_vec(),
            },
            CreateAction::WriteFile {
                path: vec![b"notes.txt".to_vec()],
                content: b"keep {name} literal".to_vec(),
            },
        ]
    );
}

#[test]
fn duplicate_siblings_plan_two_actions() {
    // Sibling uniqueness is not separately enforced: both writes are planned,
    // and neither collides with a tree that exists only prospectively.
    let map = vec![file_node("a.txt", b"\"one\""), file_node("a.txt", b"\"two\"")];
    let plan = Handler::create_ruxt_app(&map, &b"proj".to_vec()).unwrap();
    assert_eq!(
        plan,
        vec![
            CreateAction::WriteFile { path: vec![b"a.txt".to_vec()], content: b"one".to_vec() },
            CreateAction::WriteFile { path: vec![b"a.txt".to_vec()], content: b"two".to_vec() },
        ]
    );
    assert_eq!(Handler::validate_file_map(&plan, &vec![false, false]), Ok(()));
}

#[test]
fn collision_deep_in_the_tree_fails_validation() {
    let map = vec![folder_node(
        "src",
        vec![folder_node("inner", vec![file_node("main.txt", b"\"x\"")])],
    )];
    let plan = Handler::create_ruxt_app(&map, &b"proj".to_vec()).unwrap();
    // Only the innermost planned path is already present.
    let present = vec![false, false, true];
    assert_eq!(
        Handler::validate_file_map(&plan, &present),
        Err(ScaffoldError::AlreadyExists { name: b"main.txt".to_vec(), is_folder: false })
    );
}

#[test]
fn validation_passes_when_nothing_is_present() {
    let map = vec![folder_node("src", vec![file_node("m.txt", b"\"x\"")])];
    let plan = Handler::create_ruxt_app(&map, &b"proj".to_vec()).unwrap();
    let present = vec![false; plan.len()];
    assert_eq!(Handler::validate_file_map(&plan, &present), Ok(()));
}

#[test]
fn validation_reports_the_first_collision() {
    let map = vec![
        file_node("a.txt", b"\"A\""),
        folder_node("dir", vec![]),
        file_node("c.txt", b"\"C\""),
    ];
    let plan = Handler::create_ruxt_app(&map, &b"proj".to_vec()).unwrap();
    let present = vec![false, true, true];
    assert_eq!(
        Handler::validate_file_map(&plan, &present),
        Err(ScaffoldError::AlreadyExists { name: b"dir".to_vec(), is_folder: true })
    );
}
