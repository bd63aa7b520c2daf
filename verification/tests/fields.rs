use ribir_monitor::layer::FieldsVisitor;
use ribir_monitor::message::{FieldValue, Fields, Meta, MonitorMsg};

fn names(fields: &Fields) -> Vec<String> {
    fields.as_slice().iter().map(|e| e.0.clone()).collect()
}

#[test]
fn new_fields_are_empty() {
    let fields = Fields::new();
    assert!(fields.is_empty());
    assert_eq!(fields.len(), 0);
    assert_eq!(fields.get("a"), None);
    assert_eq!(Fields::default(), fields);
}

#[test]
fn every_primitive_is_recorded_under_its_tag() {
    let mut fields = Fields::new();
    fields.record_bool("b", true);
    fields.record_f64("f", 1.5f64.to_bits());
    fields.record_i64("i", -3);
    fields.record_u64("u", 3);
    fields.record_i128("ii", -(1i128 << 100));
    fields.record_u128("uu", 1u128 << 100);
    fields.record_str("s", "text");
    fields.record_debug("d", format!("{:?}", Some(1)));
    assert_eq!(fields.len(), 8);
    assert_eq!(fields.get("b"), Some(&FieldValue::Bool(true)));
    assert_eq!(fields.get("f"), Some(&FieldValue::F64(0x3ff8_0000_0000_0000)));
    assert_eq!(fields.get("i"), Some(&FieldValue::I64(-3)));
    assert_eq!(fields.get("u"), Some(&FieldValue::U64(3)));
    assert_eq!(fields.get("ii"), Some(&FieldValue::I128(-(1i128 << 100))));
    assert_eq!(fields.get("uu"), Some(&FieldValue::U128(1u128 << 100)));
    assert_eq!(fields.get("s"), Some(&FieldValue::String("text".to_string())));
    assert_eq!(fields.get("d"), Some(&FieldValue::String("Some(1)".to_string())));
    assert_eq!(names(&fields), ["b", "f", "i", "u", "ii", "uu", "s", "d"]);
}

#[test]
fn a_known_name_keeps_its_place() {
    let mut fields = Fields::new();
    fields.record_u64("a", 1);
    fields.record_u64("b", 2);
    fields.record_u64("c", 3);
    fields.insert("b".to_string(), FieldValue::Bool(false));
    assert_eq!(names(&fields), ["a", "b", "c"]);
    assert_eq!(fields.get("b"), Some(&FieldValue::Bool(false)));
    assert_eq!(fields.get("a"), Some(&FieldValue::U64(1)));
    assert_eq!(fields.get("c"), Some(&FieldValue::U64(3)));
    assert_eq!(fields.get("d"), None);
}

#[test]
fn merge_lets_the_newer_value_win_and_empties_the_source() {
    let mut older = Fields::new();
    older.record_u64("a", 1);
    older.record_u64("b", 2);
    let mut newer = Fields::new();
    newer.record_u64("c", 30);
    newer.record_u64("a", 10);
    older.merge(&mut newer);
    assert!(newer.is_empty());
    assert_eq!(names(&older), ["a", "b", "c"]);
    assert_eq!(older.get("a"), Some(&FieldValue::U64(10)));
    assert_eq!(older.get("b"), Some(&FieldValue::U64(2)));
    assert_eq!(older.get("c"), Some(&FieldValue::U64(30)));
}

#[test]
fn merging_nothing_changes_nothing() {
    let mut fields = Fields::new();
    fields.record_u64("a", 1);
    let before = fields.clone();
    fields.merge(&mut Fields::new());
    assert_eq!(fields, before);
}

#[test]
fn visitor_reports_what_it_could_not_render() {
    let mut visitor = FieldsVisitor::new();
    visitor.record("a", FieldValue::I64(1));
    visitor.record_rendered("b", Ok("shown".to_string()));
    visitor.record_rendered("c", Err("no rendering".to_string()));
    visitor.record("a", FieldValue::I64(2));
    let (fields, errors) = visitor.data();
    assert_eq!(names(&fields), ["a", "b"]);
    assert_eq!(fields.get("a"), Some(&FieldValue::I64(2)));
    assert_eq!(fields.get("b"), Some(&FieldValue::String("shown".to_string())));
    assert_eq!(fields.get("c"), None);
    assert_eq!(errors, vec![MonitorMsg::MonitorError("no rendering".to_string())]);
}

#[test]
fn a_copy_of_a_message_equals_it() {
    let msg = MonitorMsg::EnterSpan { id: 1, time_stamp: std::time::Duration::from_millis(1500) };
    assert_eq!(msg.clone(), msg);
}

#[test]
fn a_clone_equals_what_it_was_made_of() {
    let mut fields = Fields::new();
    fields.record_str("s", "text");
    fields.record_i128("n", -1);
    let meta = Meta {
        name: "span".to_string(),
        target: "app".to_string(),
        level: "DEBUG".to_string(),
        module: Some("app::io".to_string()),
        file: None,
        line: Some(3),
    };
    let msg = MonitorMsg::NewSpan {
        id: 9,
        meta: meta.clone(),
        fields: fields.clone(),
        time_stamp: std::time::Duration::from_nanos(7),
        parent_span: Some(2),
    };
    assert_eq!(meta.clone(), meta);
    assert_eq!(fields.clone(), fields);
    assert_eq!(FieldValue::F64(5).clone(), FieldValue::F64(5));
    assert_eq!(msg.clone(), msg);
    let update = MonitorMsg::SpanUpdate {
        id: 9,
        changes: fields,
        time_stamp: std::time::Duration::from_nanos(8),
    };
    assert_eq!(update.clone(), update);
}
