use std::collections::BTreeMap;
use std::rc::Rc;

use rowexec::key_index::{code_of, enter};
use rowexec::{
    FilterIterator, HashJoinIterator, JoinSchema, NestedJoinIterator, Row, RowError, RowSchema,
    RowSource, Scan, Type, Value,
};

fn text(s: &str) -> Value {
    Value::Str(s.to_string())
}

fn user(id: u32, name: &str, age: u32) -> Rc<Row> {
    let schema = RowSchema::new(vec![Type::U32, Type::Str, Type::U32]);
    Rc::new(schema.make_row(vec![Value::U32(id), text(name), Value::U32(age)]).unwrap())
}

fn pet(owner: u32, name: &str) -> Rc<Row> {
    let schema = RowSchema::new(vec![Type::U32, Type::Str]);
    Rc::new(schema.make_row(vec![Value::U32(owner), text(name)]).unwrap())
}

fn users() -> BTreeMap<u32, Rc<Row>> {
    BTreeMap::from([
        (4, user(4, "test", 40)),
        (1, user(1, "Dhiraj", 20)),
        (6, user(6, "??", 220)),
        (2, user(2, "db", 6)),
        (5, user(5, "hello", 10)),
        (3, user(3, "bomma", 8)),
    ])
}

fn pets() -> BTreeMap<u32, Rc<Row>> {
    BTreeMap::from([(1, pet(2, "pet 1")), (2, pet(2, "pet 2")), (3, pet(2, "pet 3"))])
}

fn names() -> JoinSchema {
    JoinSchema::new(vec![0, 1], vec![1, 1], RowSchema::new(vec![Type::Str, Type::Str]))
}

fn drain<S: RowSource>(source: &mut S) -> Vec<Rc<Row>> {
    let mut rows = Vec::new();
    while let Some(row) = source.next() {
        rows.push(row);
    }
    rows
}

fn shown(rows: &[Rc<Row>], types: Vec<Type>) -> Vec<String> {
    let schema = RowSchema::new(types);
    rows.iter().map(|row| schema.print(row)).collect()
}

fn pair(left: &str, right: &str) -> String {
    format!("field 0: {} (type String) - field 1: {} (type String)", left, right)
}

#[test]
fn scan_yields_rows_in_ascending_key_order_once_each() {
    let table = users();
    let mut scan = Scan::new(&table);
    let rows = drain(&mut scan);
    let ids: Vec<u32> = rows.iter().map(|row| *row.get::<u32>(0).unwrap()).collect();
    assert_eq!(ids, vec![1, 2, 3, 4, 5, 6]);
    assert!(scan.next().is_none());
    assert!(scan.next().is_none());
}

#[test]
fn scan_shares_the_rows_of_the_table() {
    let table = users();
    let mut scan = Scan::new(&table);
    let first = scan.next().unwrap();
    assert!(Rc::ptr_eq(&first, &table[&1]));
    let second = scan.next().unwrap();
    assert!(Rc::ptr_eq(&second, &table[&2]));
}

#[test]
fn scan_of_an_empty_table_ends_at_once() {
    let table: BTreeMap<u32, Rc<Row>> = BTreeMap::new();
    let mut scan = Scan::new(&table);
    assert!(scan.next().is_none());
}

#[test]
fn scan_starts_over_when_made_again() {
    let table = pets();
    let mut first = Scan::new(&table);
    assert_eq!(drain(&mut first).len(), 3);
    let mut second = Scan::new(&table);
    assert_eq!(drain(&mut second).len(), 3);
}

#[test]
fn filter_keeps_the_rows_that_pass_in_order() {
    let table = users();
    let mut young =
        FilterIterator::new(Scan::new(&table), |row: &Rc<Row>| *row.get::<u32>(2).unwrap() < 10);
    let rows = drain(&mut young);
    let ids: Vec<u32> = rows.iter().map(|row| *row.get::<u32>(0).unwrap()).collect();
    assert_eq!(ids, vec![2, 3]);
    assert!(young.next().is_none());
}

#[test]
fn filter_that_nothing_passes_is_empty() {
    let table = users();
    let mut none = FilterIterator::new(Scan::new(&table), |_row: &Rc<Row>| false);
    assert!(none.next().is_none());
}

#[test]
fn filters_compose_like_a_conjunction() {
    let table = users();
    let p = |row: &Rc<Row>| *row.get::<u32>(2).unwrap() >= 8;
    let q = |row: &Rc<Row>| *row.get::<u32>(0).unwrap() % 2 == 1;
    let mut twice = FilterIterator::new(FilterIterator::new(Scan::new(&table), p), q);
    let mut once = FilterIterator::new(Scan::new(&table), |row: &Rc<Row>| p(row) && q(row));
    let a = shown(&drain(&mut twice), vec![Type::U32, Type::Str, Type::U32]);
    let b = shown(&drain(&mut once), vec![Type::U32, Type::Str, Type::U32]);
    assert_eq!(a, b);
    assert_eq!(a.len(), 3);
    assert_eq!(a[0], "field 0: 1 (type U32) - field 1: Dhiraj (type String) - field 2: 20 (type U32)");
}

#[test]
fn generate_from_rows_copies_the_chosen_columns() {
    let row = names().generate_from_rows(vec![user(2, "db", 6), pet(2, "pet 1")]).unwrap();
    assert_eq!(row.len(), 2);
    assert_eq!(row.get::<String>(0), Some(&"db".to_string()));
    assert_eq!(row.get::<String>(1), Some(&"pet 1".to_string()));
}

#[test]
fn generate_from_rows_projects_one_input() {
    let schema =
        JoinSchema::new(vec![0, 0], vec![2, 0], RowSchema::new(vec![Type::U32, Type::U32]));
    let row = schema.generate_from_rows(vec![user(3, "bomma", 8)]).unwrap();
    assert_eq!(row.get::<u32>(0), Some(&8));
    assert_eq!(row.get::<u32>(1), Some(&3));
}

#[test]
fn generate_from_rows_reports_a_missing_source_row() {
    let built = names().generate_from_rows(vec![user(2, "db", 6)]);
    assert_eq!(built.unwrap_err(), RowError::IndexOutOfRange);
}

#[test]
fn generate_from_rows_reports_a_missing_column() {
    let schema = JoinSchema::new(vec![0], vec![3], RowSchema::new(vec![Type::U32]));
    let built = schema.generate_from_rows(vec![user(2, "db", 6)]);
    assert_eq!(built.unwrap_err(), RowError::IndexOutOfRange);
}

#[test]
fn generate_from_rows_reports_the_first_column_of_the_wrong_type() {
    let schema =
        JoinSchema::new(vec![0, 0, 0], vec![0, 1, 2], RowSchema::new(vec![Type::U32, Type::U32, Type::Str]));
    let built = schema.generate_from_rows(vec![user(2, "db", 6)]);
    assert_eq!(
        built.unwrap_err(),
        RowError::TypeMismatch { index: 1, expected: Type::U32, actual: Type::Str }
    );
}

#[test]
fn nested_join_end_to_end() {
    let users = users();
    let pets = pets();
    let mut query = NestedJoinIterator::new(
        FilterIterator::new(Scan::new(&users), |row: &Rc<Row>| *row.get::<u32>(2).unwrap() < 1000),
        Scan::new(&pets),
        0,
        0,
        Type::U32,
        names(),
    );
    let rows = shown(&drain(&mut query), vec![Type::Str, Type::Str]);
    assert_eq!(rows, vec![pair("db", "pet 1"), pair("db", "pet 2"), pair("db", "pet 3")]);
    assert!(query.next().is_none());
}

#[test]
fn nested_join_three_left_rows_against_one_right_row() {
    let left = BTreeMap::from([(1, user(2, "a", 1)), (2, user(2, "b", 2)), (3, user(2, "c", 3))]);
    let right = BTreeMap::from([(1, pet(2, "rex"))]);
    let mut join =
        NestedJoinIterator::new(Scan::new(&left), Scan::new(&right), 0, 0, Type::U32, names());
    let rows = shown(&drain(&mut join), vec![Type::Str, Type::Str]);
    assert_eq!(rows, vec![pair("a", "rex"), pair("b", "rex"), pair("c", "rex")]);
}

#[test]
fn nested_join_orders_by_left_row_then_right_row() {
    let left = BTreeMap::from([(1, user(7, "a", 1)), (2, user(8, "b", 2)), (3, user(7, "c", 3))]);
    let right = BTreeMap::from([(1, pet(7, "x")), (2, pet(8, "y")), (3, pet(7, "z"))]);
    let mut join =
        NestedJoinIterator::new(Scan::new(&left), Scan::new(&right), 0, 0, Type::U32, names());
    let rows = shown(&drain(&mut join), vec![Type::Str, Type::Str]);
    assert_eq!(
        rows,
        vec![pair("a", "x"), pair("a", "z"), pair("b", "y"), pair("c", "x"), pair("c", "z")]
    );
}

#[test]
fn hash_join_orders_by_right_row_then_left_row() {
    let left = BTreeMap::from([(1, user(7, "a", 1)), (2, user(8, "b", 2)), (3, user(7, "c", 3))]);
    let right = BTreeMap::from([(1, pet(7, "x")), (2, pet(8, "y")), (3, pet(7, "z"))]);
    let mut join =
        HashJoinIterator::new(Scan::new(&left), Scan::new(&right), 0, 0, Type::U32, names());
    let rows = shown(&drain(&mut join), vec![Type::Str, Type::Str]);
    assert_eq!(
        rows,
        vec![pair("a", "x"), pair("c", "x"), pair("b", "y"), pair("a", "z"), pair("c", "z")]
    );
    assert!(join.next().is_none());
}

#[test]
fn hash_join_end_to_end() {
    let users = users();
    let pets = pets();
    let mut query =
        HashJoinIterator::new(Scan::new(&users), Scan::new(&pets), 0, 0, Type::U32, names());
    let rows = shown(&drain(&mut query), vec![Type::Str, Type::Str]);
    assert_eq!(rows, vec![pair("db", "pet 1"), pair("db", "pet 2"), pair("db", "pet 3")]);
}

#[test]
fn both_strategies_yield_the_same_rows_as_often() {
    let left = BTreeMap::from([
        (1, user(7, "a", 1)),
        (2, user(8, "b", 2)),
        (3, user(7, "c", 3)),
        (4, user(9, "d", 4)),
    ]);
    let right = BTreeMap::from([(1, pet(7, "x")), (2, pet(8, "y")), (3, pet(7, "x")), (4, pet(1, "w"))]);
    let mut nested =
        NestedJoinIterator::new(Scan::new(&left), Scan::new(&right), 0, 0, Type::U32, names());
    let mut hashed =
        HashJoinIterator::new(Scan::new(&left), Scan::new(&right), 0, 0, Type::U32, names());
    let mut a = shown(&drain(&mut nested), vec![Type::Str, Type::Str]);
    let mut b = shown(&drain(&mut hashed), vec![Type::Str, Type::Str]);
    assert_eq!(a.len(), 5);
    a.sort();
    b.sort();
    assert_eq!(a, b);
}

#[test]
fn joins_on_string_keys_compare_exactly() {
    let left = BTreeMap::from([(1, user(1, "rex", 1)), (2, user(2, "Rex", 2)), (3, user(3, "re", 3))]);
    let right = BTreeMap::from([(1, pet(10, "rex")), (2, pet(20, "x"))]);
    let ids = || JoinSchema::new(vec![0, 1], vec![0, 0], RowSchema::new(vec![Type::U32, Type::U32]));
    let mut nested =
        NestedJoinIterator::new(Scan::new(&left), Scan::new(&right), 1, 1, Type::Str, ids());
    let mut hashed =
        HashJoinIterator::new(Scan::new(&left), Scan::new(&right), 1, 1, Type::Str, ids());
    let expected = vec!["field 0: 1 (type U32) - field 1: 10 (type U32)".to_string()];
    assert_eq!(shown(&drain(&mut nested), vec![Type::U32, Type::U32]), expected);
    assert_eq!(shown(&drain(&mut hashed), vec![Type::U32, Type::U32]), expected);
}

#[test]
fn join_with_an_empty_left_side_is_empty() {
    let left: BTreeMap<u32, Rc<Row>> = BTreeMap::new();
    let right = pets();
    let mut nested =
        NestedJoinIterator::new(Scan::new(&left), Scan::new(&right), 0, 0, Type::U32, names());
    let mut hashed =
        HashJoinIterator::new(Scan::new(&left), Scan::new(&right), 0, 0, Type::U32, names());
    assert!(nested.next().is_none());
    assert!(hashed.next().is_none());
}

#[test]
fn join_with_an_empty_right_side_is_empty() {
    let left = users();
    let right: BTreeMap<u32, Rc<Row>> = BTreeMap::new();
    let mut nested =
        NestedJoinIterator::new(Scan::new(&left), Scan::new(&right), 0, 0, Type::U32, names());
    let mut hashed =
        HashJoinIterator::new(Scan::new(&left), Scan::new(&right), 0, 0, Type::U32, names());
    assert!(nested.next().is_none());
    assert!(hashed.next().is_none());
}

#[test]
fn join_without_a_match_is_empty() {
    let left = users();
    let right = BTreeMap::from([(1, pet(99, "stray"))]);
    let mut nested =
        NestedJoinIterator::new(Scan::new(&left), Scan::new(&right), 0, 0, Type::U32, names());
    let mut hashed =
        HashJoinIterator::new(Scan::new(&left), Scan::new(&right), 0, 0, Type::U32, names());
    assert!(nested.next().is_none());
    assert!(hashed.next().is_none());
}

#[test]
fn join_output_feeds_another_operator() {
    let users = users();
    let pets = pets();
    let join =
        NestedJoinIterator::new(Scan::new(&users), Scan::new(&pets), 0, 0, Type::U32, names());
    let mut last = FilterIterator::new(join, |row: &Rc<Row>| row.get::<String>(1).unwrap() != "pet 2");
    let rows = shown(&drain(&mut last), vec![Type::Str, Type::Str]);
    assert_eq!(rows, vec![pair("db", "pet 1"), pair("db", "pet 3")]);
}

#[test]
fn key_codes() {
    assert_eq!(code_of(&Value::U32(7)), 7);
    assert_eq!(code_of(&Value::I32(-1)), 0x7fff_ffff);
    assert_eq!(code_of(&Value::I32(i32::MIN)), 0);
    assert_eq!(code_of(&Value::Bool(true)), 1);
    assert_eq!(code_of(&Value::Bool(false)), 0);
    assert_eq!(code_of(&text("")), 0);
    assert_eq!(code_of(&text("a")), 97);
    assert_eq!(code_of(&text("ab")), 97 * 31 + 98);
    assert_eq!(code_of(&text("pet 1")), code_of(&text("pet 1")));
}

#[test]
fn key_code_of_a_long_string_wraps() {
    let long = "z".repeat(40);
    let mut expected: u64 = 0;
    for _ in 0..40 {
        expected = expected.wrapping_mul(31).wrapping_add(122);
    }
    assert_eq!(code_of(&text(&long)), expected);
}

#[test]
fn enter_appends_to_the_positions_of_a_code() {
    let mut index = std::collections::HashMap::new();
    enter(&mut index, 5, 0);
    enter(&mut index, 9, 1);
    enter(&mut index, 5, 2);
    assert_eq!(index[&5], vec![0, 2]);
    assert_eq!(index[&9], vec![1]);
    assert_eq!(index.len(), 2);
}
