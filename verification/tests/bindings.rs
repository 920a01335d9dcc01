use query_builder::Bindings;

fn sorted(mut entries: Vec<(String, i32)>) -> Vec<(String, i32)> {
    entries.sort();
    entries
}

#[test]
fn new_store_binds_nothing() {
    let store: Bindings<i32> = Bindings::new();
    assert_eq!(store.into_entries(), vec![]);
}

#[test]
fn bind_adds_an_entry() {
    let mut store = Bindings::new();
    store.bind("a".to_string(), 1);
    assert_eq!(store.into_entries(), vec![("a".to_string(), 1)]);
}

#[test]
fn bind_keeps_earlier_names() {
    let mut store = Bindings::new();
    store.bind("b".to_string(), 2);
    store.bind("a".to_string(), 1);
    store.bind("c".to_string(), 3);
    assert_eq!(
        sorted(store.into_entries()),
        vec![("a".to_string(), 1), ("b".to_string(), 2), ("c".to_string(), 3)]
    );
}

#[test]
fn bind_again_replaces_the_value() {
    let mut store = Bindings::new();
    store.bind("a".to_string(), 1);
    store.bind("a".to_string(), 2);
    assert_eq!(store.into_entries(), vec![("a".to_string(), 2)]);
}

#[test]
fn bind_again_touches_no_other_name() {
    let mut store = Bindings::new();
    store.bind("a".to_string(), 1);
    store.bind("b".to_string(), 2);
    store.bind("c".to_string(), 3);
    store.bind("b".to_string(), 20);
    store.bind("c".to_string(), 30);
    store.bind("b".to_string(), 200);
    assert_eq!(
        sorted(store.into_entries()),
        vec![("a".to_string(), 1), ("b".to_string(), 200), ("c".to_string(), 30)]
    );
}

#[test]
fn bind_tells_names_apart_exactly() {
    let mut store = Bindings::new();
    store.bind("".to_string(), 0);
    store.bind("a".to_string(), 1);
    store.bind("A".to_string(), 2);
    store.bind("a ".to_string(), 3);
    store.bind("\u{e9}".to_string(), 4);
    store.bind("e\u{301}".to_string(), 5);
    assert_eq!(store.into_entries().len(), 6);
}

#[test]
fn entries_name_each_parameter_once() {
    let mut store = Bindings::new();
    for round in 0..5 {
        for name in ["x", "y", "z"] {
            store.bind(name.to_string(), round);
        }
    }
    assert_eq!(
        sorted(store.into_entries()),
        vec![("x".to_string(), 4), ("y".to_string(), 4), ("z".to_string(), 4)]
    );
}

#[test]
fn store_can_be_debug_printed() {
    let mut store = Bindings::new();
    store.bind("a".to_string(), 1);
    let printed = format!("{:?}", store);
    assert!(printed.contains("\"a\""));
    assert!(printed.contains('1'));
}
