use netai_cloud::actor::input::{child_path, cursor_entries, parse_index_text, CursorEntry, CursorIterator, InputField};
use netai_cloud::actor::job::{api_group_of, apply_mode, deletes_document, ApplyMode};
use netai_cloud::actor::storage::{
    check_ready, check_storage_ready, crd_scope, find_version, model_storages, ready_names,
    versions_text, BindingEntry, CrdScope, LoadError, NamedStatus, ReadyStatus,
};

#[test]
fn api_group_is_the_part_before_the_slash() {
    assert_eq!(api_group_of("apps/v1"), "apps");
    assert_eq!(api_group_of("v1"), "");
    assert_eq!(api_group_of("a/b/c"), "a");
    assert_eq!(api_group_of("/v1"), "");
    assert_eq!(api_group_of(""), "");
}

#[test]
fn volume_claims_survive_deletion() {
    assert!(!deletes_document(Some(("v1", "PersistentVolumeClaim")), true));
    assert!(deletes_document(Some(("v1", "ConfigMap")), true));
    assert!(deletes_document(Some(("apps/v1", "PersistentVolumeClaim")), true));
    assert!(deletes_document(None, true));
    assert!(!deletes_document(Some(("v1", "ConfigMap")), false));
}

#[test]
fn existing_documents_are_patched() {
    assert_eq!(apply_mode(true), ApplyMode::Patch);
    assert_eq!(apply_mode(false), ApplyMode::Create);
}

#[test]
fn readiness_checks() {
    assert_eq!(check_ready(None), Err(LoadError::NotReady));
    assert_eq!(check_ready(Some(ReadyStatus { ready: false, complete: true })), Err(LoadError::NotReady));
    assert_eq!(check_ready(Some(ReadyStatus { ready: true, complete: false })), Err(LoadError::Incomplete));
    assert_eq!(check_ready(Some(ReadyStatus { ready: true, complete: true })), Ok(()));
    assert_eq!(check_storage_ready(Some(true)), Ok(()));
    assert_eq!(check_storage_ready(Some(false)), Err(LoadError::NotReady));
    assert_eq!(check_storage_ready(None), Err(LoadError::NotReady));
}

#[test]
fn ready_names_keep_order() {
    let item = |name: &str, status: Option<ReadyStatus>| NamedStatus { name: name.to_string(), status };
    let items = vec![
        item("a", Some(ReadyStatus { ready: true, complete: true })),
        item("b", None),
        item("c", Some(ReadyStatus { ready: true, complete: false })),
        item("d", Some(ReadyStatus { ready: true, complete: true })),
    ];
    assert_eq!(ready_names(&items), vec!["a".to_string(), "d".to_string()]);
}

#[test]
fn model_storages_of_ready_bindings() {
    let entry = |ready: bool, model: &str, storage: Option<u32>| BindingEntry { ready, model: model.to_string(), storage };
    let items = vec![
        entry(true, "m", Some(1)),
        entry(false, "m", Some(2)),
        entry(true, "other", Some(3)),
        entry(true, "m", None),
        entry(true, "m", Some(5)),
    ];
    assert_eq!(model_storages(items, "m"), vec![1, 5]);
    assert_eq!(model_storages(Vec::<BindingEntry<u32>>::new(), "m"), Vec::<u32>::new());
}

#[test]
fn crd_scopes() {
    assert_eq!(crd_scope("Namespaced"), Some(CrdScope::Namespaced));
    assert_eq!(crd_scope("Cluster"), Some(CrdScope::Cluster));
    assert_eq!(crd_scope("cluster"), None);
}

#[test]
fn versions() {
    let v = vec!["v1alpha1".to_string(), "v1".to_string(), "v1".to_string()];
    assert_eq!(find_version(&v, "v1"), Some(1));
    assert_eq!(find_version(&v, "v2"), None);
    assert_eq!(versions_text(&v), "v1alpha1,v1,v1");
    assert_eq!(versions_text(&vec![]), "");
}

#[test]
fn index_parsing() {
    assert_eq!(parse_index_text("0"), Some(0));
    assert_eq!(parse_index_text("+12"), Some(12));
    assert_eq!(parse_index_text("007"), Some(7));
    assert_eq!(parse_index_text(""), None);
    assert_eq!(parse_index_text("+"), None);
    assert_eq!(parse_index_text("-1"), None);
    assert_eq!(parse_index_text("1a"), None);
    assert_eq!(parse_index_text(&usize::MAX.to_string()), Some(usize::MAX));
    assert_eq!(parse_index_text("99999999999999999999999999"), None);
}

fn object(basename: &str, child: &str) -> CursorEntry {
    CursorEntry::EnterObject { basename: basename.to_string(), child: child.to_string() }
}

fn array(basename: &str, index: usize) -> CursorEntry {
    CursorEntry::EnterArray { basename: basename.to_string(), index }
}

#[test]
fn cursor_walks_a_path() {
    let expected = vec![object("/", ""), object("/a/", "a"), array("/a/", 0), object("/a/b/", "b"), object("/a/b/", "")];
    assert_eq!(cursor_entries("/a/0/b/"), expected);
    let mut it = CursorIterator::from_name("/a/0/b/");
    let mut walked = Vec::new();
    while let Some(e) = it.next() {
        walked.push(e);
    }
    assert_eq!(walked, expected);
    assert_eq!(it.next(), None);
}

#[test]
fn cursor_of_a_bare_name() {
    assert_eq!(cursor_entries(""), vec![object("/", "")]);
    assert_eq!(cursor_entries("3"), vec![array("/", 3)]);
}

#[test]
fn child_field_names() {
    let f = InputField::sub_array("/items/", 12, 'x');
    assert_eq!(f.name, "/items/12/");
    assert_eq!(f.value, 'x');
    let f = InputField::sub_object("/a/", "fooBar", 1u8);
    assert_eq!(f.name, "/a/foo_bar/");
    let f = InputField::sub_object("/", "FooBar", 1u8);
    assert_eq!(f.name, "/foo_bar/");
}

#[test]
fn child_paths_end_with_a_slash() {
    assert_eq!(child_path("/a/", "b"), "/a/b/");
    assert_eq!(child_path("/", ""), "//");
}
