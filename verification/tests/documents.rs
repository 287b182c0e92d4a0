use armature_collab::{
    ChangeType, CollabError, Document, DocumentChange, FieldValue, GCounter, LogicalClock,
    LwwRegister, PnCounter, ReplicaId, Uuid,
};

fn replica(n: u128) -> ReplicaId {
    ReplicaId::from_uuid(Uuid { bits: n })
}

#[test]
fn test_document_string_fields() {
    let mut doc = Document::new("test-doc");

    doc.set_string("name", "Alice");
    assert_eq!(doc.get_string("name"), Some("Alice"));

    doc.set_string("name", "Bob");
    assert_eq!(doc.get_string("name"), Some("Bob"));
}

#[test]
fn test_document_counter() {
    let mut doc = Document::new("test-doc");

    doc.increment("count");
    doc.increment("count");
    doc.decrement("count");

    assert_eq!(doc.get_counter("count"), 1);
}

#[test]
fn test_document_set() {
    let mut doc = Document::new("test-doc");

    doc.add_to_set("tags", "rust");
    doc.add_to_set("tags", "crdt");

    assert!(doc.set_contains("tags", "rust"));
    assert!(doc.set_contains("tags", "crdt"));
    assert!(!doc.set_contains("tags", "python"));

    doc.remove_from_set("tags", "rust");
    assert!(!doc.set_contains("tags", "rust"));
}

#[test]
fn test_document_merge() {
    let mut doc1 = Document::new("test-doc");
    let mut doc2 = Document::with_replica("test-doc", ReplicaId::new());

    doc1.set_string("field1", "value1");
    doc2.set_string("field2", "value2");

    doc1.merge(&doc2);

    assert_eq!(doc1.get_string("field1"), Some("value1"));
    assert_eq!(doc1.get_string("field2"), Some("value2"));
}

#[test]
fn test_document_text() {
    let mut doc = Document::new("test-doc");

    doc.text("content").insert_str(0, "Hello, World!");

    assert_eq!(doc.get_text("content"), Some("Hello, World!".to_string()));
}

#[test]
fn every_change_is_counted() {
    let mut doc = Document::with_replica("d", replica(1));
    assert_eq!(doc.version(), 0);
    assert_eq!(doc.id(), "d");
    assert_eq!(doc.replica(), replica(1));
    doc.set_integer("n", -4);
    doc.set_boolean("b", true);
    doc.set_map_entry("m", "k", "v");
    doc.remove_from_set("missing", "x");
    assert_eq!(doc.version(), 4);
    assert_eq!(doc.bump_version(), 5);
    doc.text("t");
    assert_eq!(doc.version(), 5);
    let parts = doc.parts();
    assert_eq!(parts.clock.counter, 4);
    assert_eq!(parts.vclock.get(&replica(1)), 4);
    assert!(parts.updated_at.secs >= parts.created_at.secs);
}

#[test]
fn fields_are_read_by_their_type() {
    let mut doc = Document::new("d");
    doc.set_integer("n", -4);
    doc.set_boolean("b", true);
    doc.set_map_entry("m", "k", "v");
    doc.set_map_entry("m", "k2", "v2");
    assert_eq!(doc.get_integer("n"), Some(-4));
    assert_eq!(doc.get_boolean("b"), Some(true));
    assert_eq!(doc.get_map_entry("m", "k"), Some("v"));
    assert_eq!(doc.get_map_entry("m", "k2"), Some("v2"));
    assert_eq!(doc.get_map_entry("m", "absent"), None);
    assert_eq!(doc.get_string("n"), None);
    assert_eq!(doc.get_integer("b"), None);
    assert_eq!(doc.get_boolean("m"), None);
    assert_eq!(doc.get_counter("n"), 0);
    assert_eq!(doc.get_text("n"), None);
    assert!(doc.get_set("n").is_empty());
    assert!(!doc.set_contains("n", "x"));
    assert_eq!(doc.get_map_entry("n", "x"), None);
    assert!(doc.has_field("n"));
    assert!(!doc.has_field("absent"));
    let mut names = doc.fields();
    names.sort();
    assert_eq!(names, vec!["b", "m", "n"]);
}

#[test]
fn another_type_replaces_a_field() {
    let mut doc = Document::new("d");
    doc.set_string("f", "text");
    doc.set_integer("f", 7);
    assert_eq!(doc.get_string("f"), None);
    assert_eq!(doc.get_integer("f"), Some(7));
    doc.increment("f");
    assert_eq!(doc.get_counter("f"), 1);
    doc.add_to_set("f", "a");
    assert_eq!(doc.get_set("f"), vec!["a".to_string()]);
    doc.text("f").insert_str(0, "x");
    assert_eq!(doc.get_text("f"), Some("x".to_string()));
    doc.text("f").insert_str(1, "y");
    assert_eq!(doc.get_text("f"), Some("xy".to_string()));
}

#[test]
fn merged_documents_converge() {
    let mut a = Document::with_replica("d", replica(1));
    let mut b = Document::with_replica("d", replica(2));
    a.set_string("title", "from a");
    b.set_string("title", "from b");
    a.increment("n");
    b.increment("n");
    a.add_to_set("s", "x");
    b.add_to_set("s", "y");
    a.set_map_entry("m", "k", "1");
    b.set_map_entry("m", "l", "2");
    a.text("t").insert_str(0, "abc");
    b.text("t").insert_str(0, "xyz");
    let before = a.clone();
    a.merge(&b);
    b.merge(&before);
    assert_eq!(a.get_string("title"), Some("from b"));
    assert_eq!(a.get_string("title"), b.get_string("title"));
    assert_eq!(a.get_counter("n"), 2);
    assert_eq!(b.get_counter("n"), 2);
    assert!(a.set_contains("s", "x") && a.set_contains("s", "y"));
    assert!(b.set_contains("s", "x") && b.set_contains("s", "y"));
    assert_eq!(a.get_map_entry("m", "l"), Some("2"));
    assert_eq!(b.get_map_entry("m", "k"), Some("1"));
    assert_eq!(a.get_text("t"), b.get_text("t"));
    assert_eq!(a.version(), b.version());
    assert_eq!(a.replica(), replica(1));
    // A write after the merge is later than everything that was merged.
    b.set_string("title", "again");
    assert_eq!(b.get_string("title"), Some("again"));
    a.merge(&b);
    assert_eq!(a.get_string("title"), Some("again"));
}

#[test]
fn merging_again_changes_nothing() {
    let mut a = Document::with_replica("d", replica(1));
    let mut b = Document::with_replica("d", replica(2));
    a.set_string("f", "text");
    b.set_integer("f", 1);
    b.increment("n");
    b.add_to_set("s", "x");
    a.merge(&b);
    let version = a.version();
    a.merge(&b);
    assert_eq!(a.get_string("f"), Some("text"));
    assert_eq!(a.get_counter("n"), 1);
    assert!(a.set_contains("s", "x"));
    assert_eq!(a.version(), version);
}

#[test]
fn fields_of_different_types_are_not_merged() {
    let mut a = Document::with_replica("d", replica(1));
    let mut b = Document::with_replica("d", replica(2));
    a.set_string("f", "text");
    b.set_integer("f", 1);
    a.merge(&b);
    assert_eq!(a.get_string("f"), Some("text"));
    assert_eq!(a.get_integer("f"), None);
}

#[test]
fn documents_are_rebuilt_from_their_parts() {
    let mut doc = Document::with_replica("d", replica(1));
    doc.set_string("s", "v");
    doc.increment("n");
    doc.add_to_set("set", "x");
    doc.set_map_entry("m", "k", "v");
    doc.text("t").insert_str(0, "abc");
    let mut parts = doc.parts();
    parts.fields.push((
        "f".to_string(),
        FieldValue::Float(LwwRegister::new(1.5f64.to_bits(), parts.clock)),
    ));
    let copy = Document::from_parts(parts);
    assert_eq!(copy.id(), "d");
    assert_eq!(copy.version(), doc.version());
    assert_eq!(copy.get_string("s"), Some("v"));
    assert_eq!(copy.get_counter("n"), 1);
    assert!(copy.set_contains("set", "x"));
    assert_eq!(copy.get_map_entry("m", "k"), Some("v"));
    assert_eq!(copy.get_text("t"), Some("abc".to_string()));
    assert!(copy.has_field("f"));
}

#[test]
fn float_fields_are_merged_by_time() {
    let early = LwwRegister::new(1.5f64.to_bits(), LogicalClock::new(1, replica(1)));
    let late = LwwRegister::new(2.5f64.to_bits(), LogicalClock::new(2, replica(2)));
    let mut field = FieldValue::Float(early);
    field.merge(&FieldValue::Float(late));
    match &field {
        FieldValue::Float(register) => assert_eq!(f64::from_bits(*register.get()), 2.5),
        _ => unreachable!(),
    }
    field.merge(&FieldValue::Counter(PnCounter::from_halves(GCounter::new(), GCounter::new())));
    assert!(matches!(field, FieldValue::Float(_)));
}

#[test]
fn changes_name_their_field() {
    let change = DocumentChange {
        doc_id: "d".to_string(),
        field: "title".to_string(),
        change_type: ChangeType::Update,
        replica: replica(1),
        timestamp: LogicalClock::new(3, replica(1)),
    };
    assert_eq!(change.change_type, ChangeType::Update);
    assert_ne!(ChangeType::Create, ChangeType::Delete);
}

#[test]
fn errors_say_what_happened() {
    let id = Uuid { bits: 0x0123_4567_89ab_cdef_0011_2233_4455_6677 };
    let text = "x".to_string();
    let cases: Vec<(CollabError, &str)> = vec![
        (CollabError::DocumentNotFound(text.clone()), "Document not found: x"),
        (
            CollabError::SessionNotFound(id),
            "Session not found: 01234567-89ab-cdef-0011-223344556677",
        ),
        (CollabError::InvalidOperation(text.clone()), "Invalid operation: x"),
        (CollabError::Conflict(text.clone()), "Operation conflict: x"),
        (
            CollabError::CausalityViolation(id),
            "Causality violation: missing dependency 01234567-89ab-cdef-0011-223344556677",
        ),
        (CollabError::Serialization(text.clone()), "Serialization error: x"),
        (CollabError::Sync(text.clone()), "Sync error: x"),
        (CollabError::Connection(text.clone()), "Connection error: x"),
        (CollabError::Timeout, "Operation timed out"),
        (CollabError::PermissionDenied(text), "Permission denied: x"),
    ];
    for (error, message) in cases {
        assert_eq!(error.to_string(), message);
    }
}

#[test]
fn json_errors_become_serialization_errors() {
    let failure = serde_json::from_str::<u8>("nothing").unwrap_err();
    let shown = failure.to_string();
    match CollabError::from(failure) {
        CollabError::Serialization(text) => assert_eq!(text, shown),
        _ => unreachable!(),
    }
}
