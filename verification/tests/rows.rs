use rowexec::text::{append_decimal, append_value, type_label};
use rowexec::{Row, RowError, RowSchema, Type, Value};

fn text(s: &str) -> Value {
    Value::Str(s.to_string())
}

fn users_schema() -> RowSchema {
    RowSchema::new(vec![Type::U32, Type::Str, Type::U32])
}

#[test]
fn make_row_accepts_values_that_fit() {
    let row = users_schema()
        .make_row(vec![Value::U32(1), text("Dhiraj"), Value::U32(20)])
        .unwrap();
    assert_eq!(row.len(), 3);
    assert_eq!(row.get::<u32>(0), Some(&1));
    assert_eq!(row.get::<String>(1), Some(&"Dhiraj".to_string()));
    assert_eq!(row.get::<u32>(2), Some(&20));
}

#[test]
fn make_row_rejects_too_few_values() {
    let built = users_schema().make_row(vec![Value::U32(1), text("x")]);
    assert_eq!(built.unwrap_err(), RowError::ArityMismatch { columns: 3, values: 2 });
}

#[test]
fn make_row_rejects_too_many_values() {
    let built = RowSchema::new(vec![Type::Bool]).make_row(vec![Value::Bool(true), Value::Bool(false)]);
    assert_eq!(built.unwrap_err(), RowError::ArityMismatch { columns: 1, values: 2 });
}

#[test]
fn make_row_reports_the_first_value_of_the_wrong_type() {
    let built = users_schema().make_row(vec![Value::U32(1), Value::I32(5), text("late")]);
    assert_eq!(
        built.unwrap_err(),
        RowError::TypeMismatch { index: 1, expected: Type::Str, actual: Type::I32 }
    );
}

#[test]
fn make_row_never_coerces_between_integer_types() {
    let built = RowSchema::new(vec![Type::U32]).make_row(vec![Value::I32(7)]);
    assert_eq!(
        built.unwrap_err(),
        RowError::TypeMismatch { index: 0, expected: Type::U32, actual: Type::I32 }
    );
    let built = RowSchema::new(vec![Type::I32]).make_row(vec![Value::U32(7)]);
    assert_eq!(
        built.unwrap_err(),
        RowError::TypeMismatch { index: 0, expected: Type::I32, actual: Type::U32 }
    );
}

#[test]
fn make_row_of_no_columns() {
    let row = RowSchema::new(vec![]).make_row(vec![]).unwrap();
    assert_eq!(row.len(), 0);
    assert_eq!(RowSchema::new(vec![]).print(&row), "");
}

#[test]
fn get_yields_nothing_for_another_type_or_a_missing_column() {
    let row: Row = users_schema()
        .make_row(vec![Value::U32(2), text("db"), Value::U32(6)])
        .unwrap();
    assert_eq!(row.get::<i32>(0), None);
    assert_eq!(row.get::<bool>(0), None);
    assert_eq!(row.get::<String>(0), None);
    assert_eq!(row.get::<u32>(1), None);
    assert_eq!(row.get::<u32>(3), None);
    assert!(row.value(3).is_none());
}

#[test]
fn value_reports_its_type_and_compares_exactly() {
    assert_eq!(Value::U32(3).type_of(), Type::U32);
    assert_eq!(Value::I32(-3).type_of(), Type::I32);
    assert_eq!(Value::Bool(true).type_of(), Type::Bool);
    assert_eq!(text("a").type_of(), Type::Str);
    assert!(Value::U32(3).same(&Value::U32(3)));
    assert!(!Value::U32(3).same(&Value::U32(4)));
    assert!(!Value::U32(3).same(&Value::I32(3)));
    assert!(text("pet").same(&text("pet")));
    assert!(!text("pet").same(&text("pets")));
    assert!(!Value::Bool(true).same(&Value::Bool(false)));
}

#[test]
fn value_clone_keeps_the_contents() {
    let first = text("bomma");
    let copy = first.clone();
    assert!(copy.same(&first));
    assert!(Value::I32(-8).clone().same(&Value::I32(-8)));
}

#[test]
fn iter_walks_the_values_in_column_order() {
    let row = users_schema()
        .make_row(vec![Value::U32(4), text("test"), Value::U32(40)])
        .unwrap();
    let seen: Vec<&Value> = row.iter().collect();
    assert_eq!(seen.len(), 3);
    assert!(seen[0].same(&Value::U32(4)));
    assert!(seen[1].same(&text("test")));
    assert!(seen[2].same(&Value::U32(40)));
}

#[test]
fn print_renders_fields_with_separators() {
    let schema = RowSchema::new(vec![Type::U32, Type::Str]);
    let row = schema.make_row(vec![Value::U32(7), text("x")]).unwrap();
    assert_eq!(schema.print(&row), "field 0: 7 (type U32) - field 1: x (type String)");
}

#[test]
fn print_renders_every_type() {
    let schema = RowSchema::new(vec![Type::I32, Type::Bool, Type::Bool, Type::U32]);
    let row = schema
        .make_row(vec![Value::I32(-12), Value::Bool(true), Value::Bool(false), Value::U32(0)])
        .unwrap();
    assert_eq!(
        schema.print(&row),
        "field 0: -12 (type I32) - field 1: true (type Bool) - field 2: false (type Bool) - field 3: 0 (type U32)"
    );
}

#[test]
fn print_numbers_fields_past_nine() {
    let schema = RowSchema::new(vec![Type::Bool; 11]);
    let row = schema.make_row((0..11).map(|_| Value::Bool(true)).collect()).unwrap();
    let shown = schema.print(&row);
    assert!(shown.ends_with(" - field 10: true (type Bool)"));
    assert!(shown.starts_with("field 0: true (type Bool) - field 1: "));
}

#[test]
fn schema_clone_and_accessors() {
    let schema = users_schema();
    let copy = schema.clone();
    assert_eq!(copy.len(), 3);
    assert_eq!(copy.column_type(0), Type::U32);
    assert_eq!(copy.column_type(1), Type::Str);
    assert_eq!(copy.column_type(2), Type::U32);
}

#[test]
fn decimal_edges() {
    let mut out = String::new();
    append_decimal(&mut out, 0);
    out.push(' ');
    append_decimal(&mut out, 9);
    out.push(' ');
    append_decimal(&mut out, 10);
    out.push(' ');
    append_decimal(&mut out, 4294967295);
    out.push(' ');
    append_decimal(&mut out, u64::MAX);
    assert_eq!(out, "0 9 10 4294967295 18446744073709551615");
}

#[test]
fn signed_values_render_with_their_sign() {
    let mut out = String::from("<");
    append_value(&mut out, &Value::I32(i32::MIN));
    out.push('|');
    append_value(&mut out, &Value::I32(i32::MAX));
    out.push('|');
    append_value(&mut out, &Value::I32(0));
    out.push('|');
    append_value(&mut out, &Value::I32(-1));
    out.push('|');
    append_value(&mut out, &Value::U32(u32::MAX));
    assert_eq!(out, "<-2147483648|2147483647|0|-1|4294967295");
}

#[test]
fn type_labels() {
    assert_eq!(type_label(Type::Str), "String");
    assert_eq!(type_label(Type::U32), "U32");
    assert_eq!(type_label(Type::I32), "I32");
    assert_eq!(type_label(Type::Bool), "Bool");
}
