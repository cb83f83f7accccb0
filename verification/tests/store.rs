use nu_plugin_sled::codec::encode_value;
use nu_plugin_sled::commands::open::{LoadAction, LoadEvent, LoadRequest, SledOpen};
use nu_plugin_sled::commands::save::{encode_entries, writes_for, SaveAction, SaveEvent, SledSave};
use nu_plugin_sled::commands::trees::{SledTrees, TreesAction, TreesEvent};
use nu_plugin_sled::error::CommandError;
use nu_plugin_sled::value::{Record, StructuredValue};

fn temporary() -> sled::Db {
    sled::Config::new().temporary(true).open().unwrap()
}

fn text(s: &str) -> StructuredValue {
    StructuredValue::String(s.to_string())
}

fn record(entries: Vec<(&str, StructuredValue)>) -> StructuredValue {
    let mut r = Record::new();
    for (key, value) in entries {
        r.insert(key.to_string(), value);
    }
    StructuredValue::Record(r)
}

fn keys_of(value: &StructuredValue) -> Vec<String> {
    match value {
        StructuredValue::Record(r) => r.entries().iter().map(|e| e.0.clone()).collect(),
        other => panic!("not a record: {:?}", other),
    }
}

fn reads(tree: &sled::Tree, prefix: Option<Vec<u8>>) -> Vec<Option<(Vec<u8>, Vec<u8>)>> {
    let found = match prefix {
        Some(p) => tree.scan_prefix(p),
        None => tree.iter(),
    };
    found.map(|item| item.ok().map(|(k, v)| (k.to_vec(), v.to_vec()))).collect()
}

fn pairs(tree: &sled::Tree, prefix: Option<Vec<u8>>) -> Vec<(Vec<u8>, Vec<u8>)> {
    reads(tree, prefix).into_iter().flatten().collect()
}

fn save(db: &sled::Db, tree: Option<&str>, input: &StructuredValue) -> Result<StructuredValue, CommandError> {
    let tree = tree.map(|t| t.to_string());
    let mut target: sled::Tree = (**db).clone();
    let mut event = SaveEvent::Start;
    loop {
        event = match SledSave.run(input, &tree, event) {
            SaveAction::CheckDirectory => SaveEvent::Directory { found: true, path: String::new() },
            SaveAction::OpenStore => SaveEvent::StoreOpened,
            SaveAction::OpenNamespace(name) => match db.open_tree(name) {
                Ok(opened) => {
                    target = opened;
                    SaveEvent::NamespaceOpened
                }
                Err(e) => SaveEvent::NamespaceRefused { path: String::new(), detail: format!("{:?}", e) },
            },
            SaveAction::Write(writes) => {
                let mut failed = 0;
                for (key, value) in writes {
                    if target.insert(key, value).is_err() {
                        failed += 1;
                    }
                }
                SaveEvent::Written { failed }
            }
            SaveAction::Finish(result) => return result,
        };
    }
}

fn load(db: &sled::Db, tree: Option<&str>, prefix: Option<&str>, raw: bool) -> Result<StructuredValue, CommandError> {
    let request = LoadRequest { tree: tree.map(|t| t.to_string()), prefix: prefix.map(|p| p.to_string()), raw };
    let mut source: sled::Tree = (**db).clone();
    let mut event = LoadEvent::Start;
    loop {
        event = match SledOpen.run(&request, event) {
            LoadAction::CheckDirectory => LoadEvent::Directory { found: true, path: String::new() },
            LoadAction::OpenStore => LoadEvent::StoreOpened,
            LoadAction::OpenNamespace(name) => match db.open_tree(name) {
                Ok(opened) => {
                    source = opened;
                    LoadEvent::NamespaceOpened
                }
                Err(e) => LoadEvent::NamespaceRefused { path: String::new(), detail: format!("{:?}", e) },
            },
            LoadAction::ReadAll => LoadEvent::Entries(reads(&source, None)),
            LoadAction::ReadPrefix(prefix) => LoadEvent::Entries(reads(&source, Some(prefix))),
            LoadAction::Finish(result) => return result,
        };
    }
}

fn sample() -> StructuredValue {
    record(vec![
        ("id", StructuredValue::Int(1)),
        ("name", text("hello")),
        ("items", StructuredValue::List(vec![text("apple"), text("banana")])),
    ])
}

#[test]
fn load_after_save_gives_the_record_back() {
    let db = temporary();
    assert_eq!(save(&db, None, &sample()), Ok(StructuredValue::Nothing));
    let loaded = load(&db, None, None, false).unwrap();
    assert_eq!(keys_of(&loaded), vec!["id", "items", "name"]);
    let expected = record(vec![
        ("id", StructuredValue::Int(1)),
        ("items", StructuredValue::List(vec![text("apple"), text("banana")])),
        ("name", text("hello")),
    ]);
    assert_eq!(loaded, expected);
}

#[test]
fn load_after_save_keeps_nested_records() {
    let db = temporary();
    let input = record(vec![
        ("outer", record(vec![("z", StructuredValue::Nothing), ("a", StructuredValue::Bool(true))])),
    ]);
    assert_eq!(save(&db, None, &input), Ok(StructuredValue::Nothing));
    assert_eq!(load(&db, None, None, false), Ok(input));
}

#[test]
fn save_overwrites_what_a_key_held() {
    let db = temporary();
    save(&db, None, &record(vec![("k", StructuredValue::Int(1)), ("other", StructuredValue::Int(2))])).unwrap();
    save(&db, None, &record(vec![("k", text("new"))])).unwrap();
    let expected = record(vec![("k", text("new")), ("other", StructuredValue::Int(2))]);
    assert_eq!(load(&db, None, None, false), Ok(expected));
}

#[test]
fn prefix_scan_yields_the_keys_with_the_prefix_ascending() {
    let db = temporary();
    let input = record(vec![
        ("b1", StructuredValue::Int(3)),
        ("a2", StructuredValue::Int(2)),
        ("a1", StructuredValue::Int(1)),
    ]);
    save(&db, None, &input).unwrap();
    let loaded = load(&db, None, Some("a"), false).unwrap();
    assert_eq!(keys_of(&loaded), vec!["a1", "a2"]);
    assert_eq!(loaded, record(vec![("a1", StructuredValue::Int(1)), ("a2", StructuredValue::Int(2))]));
    let none = load(&db, None, Some("c"), false).unwrap();
    assert_eq!(none, StructuredValue::Record(Record::new()));
}

#[test]
fn namespaces_are_isolated() {
    let db = temporary();
    save(&db, Some("n1"), &record(vec![("k", StructuredValue::Int(1))])).unwrap();
    assert_eq!(load(&db, Some("n1"), None, false), Ok(record(vec![("k", StructuredValue::Int(1))])));
    assert_eq!(load(&db, Some("n2"), None, false), Ok(StructuredValue::Record(Record::new())));
    assert_eq!(load(&db, None, None, false), Ok(StructuredValue::Record(Record::new())));
}

#[test]
fn root_is_isolated_from_namespaces() {
    let db = temporary();
    save(&db, None, &record(vec![("k", StructuredValue::Int(1))])).unwrap();
    assert_eq!(load(&db, Some("n1"), None, false), Ok(StructuredValue::Record(Record::new())));
}

#[test]
fn raw_load_succeeds_where_decoding_fails() {
    let db = temporary();
    db.insert("junk", vec![0xc1u8, 0x00]).unwrap();
    let raw = load(&db, None, None, true).unwrap();
    assert_eq!(raw, record(vec![("junk", StructuredValue::Binary(vec![0xc1, 0x00]))]));
    match load(&db, None, None, false) {
        Err(CommandError::Decode { key, .. }) => assert_eq!(key, "junk"),
        other => panic!("no decode error: {:?}", other),
    }
}

#[test]
fn load_fails_fast_on_the_bad_key() {
    let db = temporary();
    db.insert("ok", encode_value(&StructuredValue::Int(1)).unwrap()).unwrap();
    db.insert("bad", vec![0xffu8, 0xff]).unwrap();
    match load(&db, None, None, false) {
        Err(CommandError::Decode { key, .. }) => assert_eq!(key, "bad"),
        other => panic!("no decode error: {:?}", other),
    }
}

#[test]
fn save_twice_is_save_once() {
    let once = temporary();
    save(&once, Some("n"), &sample()).unwrap();
    let twice = temporary();
    save(&twice, Some("n"), &sample()).unwrap();
    save(&twice, Some("n"), &sample()).unwrap();
    assert_eq!(load(&twice, Some("n"), None, false), load(&once, Some("n"), None, false));
    assert_eq!(pairs(&twice.open_tree("n").unwrap(), None), pairs(&once.open_tree("n").unwrap(), None));
}

#[test]
fn save_writes_every_encodable_entry() {
    let db = temporary();
    let input = record(vec![
        ("good", StructuredValue::Int(1)),
        ("odd", StructuredValue::Opaque("Closure".to_string())),
    ]);
    assert_eq!(save(&db, None, &input), Ok(StructuredValue::Nothing));
    let expected = record(vec![("good", StructuredValue::Int(1)), ("odd", text("Closure"))]);
    assert_eq!(load(&db, None, None, false), Ok(expected));
}

#[test]
fn save_of_a_value_that_is_no_record_writes_nothing() {
    let db = temporary();
    assert_eq!(save(&db, None, &StructuredValue::Int(1)), Err(CommandError::InputShape));
    assert_eq!(pairs(&db, None), vec![]);
}

#[test]
fn trees_lists_the_namespaces() {
    let db = temporary();
    db.open_tree("n1").unwrap();
    let mut event = TreesEvent::Start;
    let listed = loop {
        event = match SledTrees.run(event) {
            TreesAction::CheckDirectory => TreesEvent::Directory { found: true, path: String::new() },
            TreesAction::OpenStore => TreesEvent::StoreOpened,
            TreesAction::ListNames => TreesEvent::Names(db.tree_names().iter().map(|n| n.to_vec()).collect()),
            TreesAction::Finish(result) => break result,
        };
    };
    match listed {
        Ok(StructuredValue::List(names)) => {
            assert_eq!(names.len(), 2);
            assert!(names.contains(&text("n1")));
            assert!(names.contains(&text("__sled__default")));
        }
        other => panic!("no list: {:?}", other),
    }
}

#[test]
fn entry_that_was_not_encoded_leaves_nothing_behind() {
    let db = temporary();
    let mut input = Record::new();
    input.insert("good".to_string(), StructuredValue::Int(1));
    input.insert("broken".to_string(), StructuredValue::Int(2));
    let mut outcomes = encode_entries(&input);
    outcomes[1] = None;
    for (key, value) in writes_for(&input, &outcomes) {
        db.insert(key, value).unwrap();
    }
    assert_eq!(load(&db, None, None, false), Ok(record(vec![("good", StructuredValue::Int(1))])));
}

#[test]
fn save_to_a_missing_directory_opens_nothing() {
    let input = record(vec![("k", StructuredValue::Int(1))]);
    let mut event = SaveEvent::Start;
    let mut opened = false;
    let result = loop {
        event = match SledSave.run(&input, &None, event) {
            SaveAction::CheckDirectory => SaveEvent::Directory { found: false, path: "\"gone\"".to_string() },
            SaveAction::Finish(result) => break result,
            _ => {
                opened = true;
                SaveEvent::Written { failed: 0 }
            }
        };
    };
    assert!(!opened);
    let error = result.unwrap_err();
    assert_eq!(error, CommandError::Path { path: "\"gone\"".to_string() });
    assert_eq!(error.label(), "directory not found: \"gone\"");
}
