use mozconfig::dir::Directory;
use mozconfig::path::DirPath;
use mozconfig::store::{Error, Mozconfig};

fn new_temp_root(name: &str) -> DirPath {
    DirPath::from_parts(vec![
        "tmp".to_string(),
        "mozconfig-tests".to_string(),
        name.to_string(),
    ])
}

fn empty_store(name: &str) -> Mozconfig {
    Mozconfig::from_path(new_temp_root(name), Directory::new())
}

#[test]
fn start_with_empty() {
    let mozconfig = empty_store("start_with_empty");
    assert!(mozconfig.list_configs().unwrap().is_empty());
}

#[test]
fn can_create_config() {
    let mut mozconfig = empty_store("can_create_config");
    assert!(mozconfig.create("test").is_ok());
    assert!(mozconfig.config_exists("test"));
    assert_eq!(mozconfig.list_configs().unwrap(), vec!["test"]);

    let text = mozconfig.config_text("test").unwrap();
    assert!(text.contains("obj-test"));

    assert!(mozconfig.create("more").is_ok());
    assert!(mozconfig.config_exists("more"));
    assert_eq!(mozconfig.list_configs().unwrap(), vec!["more", "test"]);
}

#[test]
fn can_make_active() {
    let mut mozconfig = empty_store("can_make_active");
    mozconfig.create("test").unwrap();
    mozconfig.create("debug").unwrap();
    mozconfig.create("release").unwrap();

    assert!(mozconfig.activate("test").is_ok());
    assert!(mozconfig.activate("debug").is_ok());
    assert!(mozconfig.activate("test").is_ok());
    assert!(mozconfig.activate("release").is_ok());

    assert!(matches!(
        mozconfig.activate("wrong"),
        Err(Error::ConfigDoesNotExist(name)) if name == "wrong"
    ));
}

#[test]
fn from_child_path() {
    let root = new_temp_root("from_child_path");
    let mut mozconfig = Mozconfig::from_path(root.clone(), Directory::new());
    mozconfig.create("test").unwrap();
    mozconfig.activate("test").unwrap();

    let child = root
        .entry_path("child1".to_string())
        .entry_path("child2".to_string());

    let ancestors = vec![
        Directory::new(),
        Directory::new(),
        mozconfig.dir.clone(),
        Directory::new(),
        Directory::new(),
        Directory::new(),
    ];

    let found = Mozconfig::from_child_path(&child, &ancestors);
    assert!(found.is_some());
    let found = found.unwrap();
    assert_eq!(found.root, root);
}
