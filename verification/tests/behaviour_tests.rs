use mozconfig::dir::{Directory, Node};
use mozconfig::names;
use mozconfig::path::DirPath;
use mozconfig::store::{Error, Mozconfig};

fn empty_store(name: &str) -> Mozconfig {
    let root = DirPath::from_parts(vec![
        "tmp".to_string(),
        "mozconfig-tests".to_string(),
        name.to_string(),
    ]);
    Mozconfig::from_path(root, Directory::new())
}

#[test]
fn created_file_has_exact_directive() {
    let mut store = empty_store("created_file_has_exact_directive");
    store.create("test").unwrap();
    assert_eq!(
        store.config_text("test").unwrap(),
        "mk_add_options MOZ_OBJDIR=obj-test"
    );
    assert_eq!(store.config_text("other"), None);
}

#[test]
fn current_follows_each_activation() {
    let mut store = empty_store("current_follows_each_activation");
    store.create("test").unwrap();
    store.create("debug").unwrap();
    store.create("release").unwrap();

    assert_eq!(store.current().unwrap(), None);
    for name in ["test", "debug", "test", "release"] {
        assert!(store.activate(name).is_ok());
        assert_eq!(store.current().unwrap(), Some(name.to_string()));
    }
}

#[test]
fn failed_activation_keeps_active_pointer() {
    let mut store = empty_store("failed_activation_keeps_active_pointer");
    store.create("test").unwrap();
    store.activate("test").unwrap();

    let err = store.activate("wrong");
    assert!(matches!(err, Err(Error::ConfigDoesNotExist(name)) if name == "wrong"));
    assert_eq!(store.current().unwrap(), Some("test".to_string()));
}

#[test]
fn create_round_trip_is_visible() {
    let mut store = empty_store("create_round_trip_is_visible");
    for name in ["alpha", "beta", "a-b.c_d"] {
        store.create(name).unwrap();
        assert!(store.config_exists(name));
        assert!(store
            .list_configs()
            .unwrap()
            .contains(&name.to_string()));
    }
}

#[test]
fn listing_is_sorted_and_skips_foreign_entries() {
    let mut store = empty_store("listing_is_sorted_and_skips_foreign_entries");
    store.create("zeta").unwrap();
    store.create("alpha").unwrap();
    store.create("midway").unwrap();
    store.activate("alpha").unwrap();
    store.dir.upsert(
        "unrelated.txt".to_string(),
        Node::File {
            text: "plain".to_string(),
        },
    );
    store.dir.upsert(
        ".mozconfig-bad name".to_string(),
        Node::File {
            text: "spaced".to_string(),
        },
    );
    assert_eq!(
        store.list_configs().unwrap(),
        vec!["alpha", "midway", "zeta"]
    );
}

#[test]
fn broken_active_pointer_reports_io_error() {
    let mut store = empty_store("broken_active_pointer_reports_io_error");
    store.dir.upsert(
        ".mozconfig".to_string(),
        Node::Link {
            target: ".mozconfig-ghost".to_string(),
        },
    );
    assert!(matches!(store.current(), Err(Error::Io(_))));
}

#[test]
fn plain_marker_file_means_no_active_configuration() {
    let mut store = empty_store("plain_marker_file_means_no_active_configuration");
    store.dir.upsert(
        ".mozconfig".to_string(),
        Node::File {
            text: "mk_add_options MOZ_OBJDIR=obj-manual".to_string(),
        },
    );
    assert_eq!(store.current().unwrap(), None);
}

#[test]
fn discovery_without_marker_yields_none() {
    let start = DirPath::from_parts(vec![
        "tmp".to_string(),
        "mozconfig-tests".to_string(),
        "discovery_without_marker_yields_none".to_string(),
    ]);
    let ancestors = vec![
        Directory::new(),
        Directory::new(),
        Directory::new(),
        Directory::new(),
    ];
    assert!(Mozconfig::from_child_path(&start, &ancestors).is_none());
}

#[test]
fn discovery_picks_nearest_marked_ancestor() {
    let mut near = Directory::new();
    near.upsert(".mozconfig".to_string(), Node::Other);
    let mut far = Directory::new();
    far.upsert(".mozconfig".to_string(), Node::Other);

    let start = DirPath::from_parts(vec![
        "home".to_string(),
        "work".to_string(),
        "tree".to_string(),
        "leaf".to_string(),
    ]);
    let ancestors = vec![Directory::new(), near, Directory::new(), far, Directory::new()];
    let found = Mozconfig::from_child_path(&start, &ancestors).unwrap();
    assert_eq!(
        found.root,
        DirPath::from_parts(vec![
            "home".to_string(),
            "work".to_string(),
            "tree".to_string(),
        ])
    );
}

#[test]
fn file_name_grammar_pins_names() {
    assert_eq!(
        names::config_name_of(".mozconfig-test"),
        Some("test".to_string())
    );
    assert_eq!(names::config_name_of(".mozconfig"), None);
    assert_eq!(names::config_name_of(".mozconfig-"), None);
    assert_eq!(names::config_name_of(".mozconfig-two words"), None);
    assert_eq!(names::config_name_of("notes.txt"), None);
    assert_eq!(
        names::config_name_of(".mozconfig-a.b-c"),
        Some("a.b-c".to_string())
    );
}

#[test]
fn paths_are_built_under_the_root() {
    let store = empty_store("paths_are_built_under_the_root");
    let config = store.path_for_config("test");
    assert_eq!(
        config.parts.last().map(String::as_str),
        Some(".mozconfig-test")
    );
    let active = store.path_to_active_symlink();
    assert_eq!(active.parts.last().map(String::as_str), Some(".mozconfig"));
    assert_eq!(&active.parts[..2], &store.root.parts[..2]);
}

#[test]
fn creation_message_names_the_configuration() {
    assert_eq!(
        names::creation_message("test"),
        "Configuration \"test\" created."
    );
}
