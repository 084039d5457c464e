use oftb::intrinsics::{
    add, boolify, car, cdr, cons, dir_listing, eq, eq_num, is_byte, is_bytes, is_cons, is_fixnum,
    intrinsics_decls, intrinsics_name, is_function, is_nil, is_string, is_symbol, is_vector, join_displays, list, mul, string_append,
    string_length, string_slice, sub, symbol_of_string, vector_append, vector_length, vector_nth, vector_slice,
};
use oftb::value::{Store, Value};

fn truth() -> Value {
    Value::Symbol("true".to_string())
}

#[test]
fn boolify_gives_true_symbol_or_nil() {
    assert_eq!(boolify(true), truth());
    assert_eq!(boolify(false), Value::Nil);
}

#[test]
fn car_and_cdr_of_cons() {
    let mut st = Store::new();
    let p = cons(&mut st, Value::Fixnum(1), Value::Symbol("x".to_string()));
    assert_eq!(p, Value::Cons(0, 1));
    assert_eq!(car(&st, &p), Value::Fixnum(1));
    assert_eq!(cdr(&st, &p), Value::Symbol("x".to_string()));
    assert_eq!(st.len(), 2);
}

#[test]
fn list_builds_a_proper_list() {
    let mut st = Store::new();
    let args = vec![Value::Fixnum(1), Value::Byte(2), Value::Nil];
    let mut l = list(&mut st, &args);
    assert_eq!(st.len(), 6);
    for a in args.iter() {
        assert_eq!(&car(&st, &l), a);
        l = cdr(&st, &l);
    }
    assert_eq!(l, Value::Nil);
    assert_eq!(list(&mut st, &vec![]), Value::Nil);
    assert_eq!(st.len(), 6);
}

#[test]
fn eq_num_compares_across_kinds() {
    assert_eq!(eq_num(&Value::Byte(3), &Value::Fixnum(3)), truth());
    assert_eq!(eq_num(&Value::Fixnum(3), &Value::Byte(3)), truth());
    assert_eq!(eq_num(&Value::Fixnum(-1), &Value::Byte(255)), Value::Nil);
    assert_eq!(eq_num(&Value::Byte(7), &Value::Byte(8)), Value::Nil);
    assert_eq!(eq_num(&Value::Fixnum(-5), &Value::Fixnum(-5)), truth());
}

#[test]
fn eq_compares_values() {
    assert_eq!(eq(&Value::Symbol("a".to_string()), &Value::Symbol("a".to_string())), truth());
    assert_eq!(eq(&Value::Symbol("a".to_string()), &Value::Symbol("b".to_string())), Value::Nil);
    assert_eq!(eq(&Value::Byte(1), &Value::Fixnum(1)), Value::Nil);
    assert_eq!(eq(&Value::Cons(1, 2), &Value::Cons(1, 2)), truth());
}

#[test]
fn arithmetic_on_bytes_and_fixnums() {
    assert_eq!(add(&Value::Byte(200), &Value::Byte(55)), Value::Byte(255));
    assert_eq!(add(&Value::Fixnum(-7), &Value::Fixnum(10)), Value::Fixnum(3));
    assert_eq!(mul(&Value::Byte(15), &Value::Byte(17)), Value::Byte(255));
    assert_eq!(mul(&Value::Fixnum(-4), &Value::Fixnum(6)), Value::Fixnum(-24));
    assert_eq!(sub(&Value::Byte(9), &Value::Byte(9)), Value::Byte(0));
    assert_eq!(sub(&Value::Fixnum(2), &Value::Fixnum(5)), Value::Fixnum(-3));
}

#[test]
fn type_predicates() {
    let vals = vec![
        Value::Byte(1),
        Value::Bytes(0, 1),
        Value::Cons(0, 1),
        Value::Fixnum(1),
        Value::Closure(0),
        Value::Intrinsic(0),
        Value::Nil,
        Value::String(0, 1),
        Value::Symbol("s".to_string()),
        Value::Vector(0, 1),
    ];
    let count = |f: fn(&Value) -> Value| vals.iter().filter(|v| f(v) == truth()).count();
    assert_eq!(count(is_byte), 1);
    assert_eq!(count(is_bytes), 1);
    assert_eq!(count(is_cons), 1);
    assert_eq!(count(is_fixnum), 1);
    assert_eq!(count(is_function), 2);
    assert_eq!(count(is_nil), 1);
    assert_eq!(count(is_string), 1);
    assert_eq!(count(is_symbol), 1);
    assert_eq!(count(is_vector), 1);
    assert_eq!(is_function(&Value::Intrinsic(3)), truth());
    assert_eq!(is_nil(&Value::Fixnum(0)), Value::Nil);
}

#[test]
fn vector_operations() {
    assert_eq!(vector_length(&Value::Vector(4, 9)), Value::Fixnum(9));
    let mut st = Store::new();
    for i in 0..5 {
        st.store(Value::Fixnum(i * 10));
    }
    assert_eq!(vector_nth(&st, &Value::Fixnum(2), &Value::Vector(1, 3)), Value::Fixnum(30));
    assert_eq!(
        vector_slice(&Value::Fixnum(1), &Value::Fixnum(3), &Value::String(10, 5)),
        Value::Vector(11, 2)
    );
}

#[test]
fn displays_are_joined_by_spaces() {
    let parts = vec!["a".to_string(), "bc".to_string(), "".to_string(), "d".to_string()];
    assert_eq!(join_displays(&parts), "a bc  d");
    assert_eq!(join_displays(&vec![]), "");
    assert_eq!(join_displays(&vec!["x".to_string()]), "x");
}

#[test]
fn strings_are_stored_as_utf8_bytes() {
    let mut st = Store::new();
    let (a, l) = st.store_str("h\u{e9}llo");
    assert_eq!((a, l), (0, 6));
    assert_eq!(st.get_str(0, 6), "h\u{e9}llo");
    let (b, m) = st.store_str("!");
    assert_eq!((b, m), (6, 1));
    assert_eq!(st.get_str(1, 2), "\u{e9}");
}

#[test]
fn string_length_counts_characters() {
    let mut st = Store::new();
    let (a, l) = st.store_str("h\u{e9}llo");
    assert_eq!(string_length(&st, &Value::String(a, l)), Value::Fixnum(5));
    assert_eq!(string_length(&st, &Value::String(a, 0)), Value::Fixnum(0));
}

#[test]
fn symbol_of_string_reads_the_string() {
    let mut st = Store::new();
    let (a, l) = st.store_str("name");
    assert_eq!(symbol_of_string(&st, &Value::String(a, l)), Value::Symbol("name".to_string()));
}

#[test]
fn appending_adjacent_strings_reads_in_place() {
    let mut st = Store::new();
    let (a, l) = st.store_str("ab");
    let (b, m) = st.store_str("cd");
    let r = string_append(&mut st, &Value::String(a, l), &Value::String(b, m));
    assert_eq!(r, Value::String(0, 4));
    assert_eq!(st.get_str(0, 4), "abcd");
    assert_eq!(st.store_str("").0, 4);
}

#[test]
fn appending_other_strings_stores_the_concatenation() {
    let mut st = Store::new();
    let (a, l) = st.store_str("ab");
    let (b, m) = st.store_str("c\u{e9}");
    let r = string_append(&mut st, &Value::String(b, m), &Value::String(a, l));
    assert_eq!(r, Value::String(5, 5));
    assert_eq!(st.get_str(5, 5), "c\u{e9}ab");
    assert_eq!(string_length(&st, &r), Value::Fixnum(4));
}

#[test]
fn string_slice_gives_byte_offsets_within_the_string() {
    let mut st = Store::new();
    st.store_str("xx");
    let (a, l) = st.store_str("h\u{e9}llo");
    let r = string_slice(&st, &Value::Fixnum(1), &Value::Fixnum(3), &Value::String(a, l));
    assert_eq!(r, Value::String(1, 3));
    let r = string_slice(&st, &Value::Fixnum(2), &Value::Fixnum(2), &Value::String(a, l));
    assert_eq!(r, Value::String(3, 0));
}

#[test]
fn list_appends_value_then_list_from_the_last_argument_back() {
    let mut st = Store::new();
    st.store(Value::Nil);
    let r = list(&mut st, &vec![Value::Fixnum(1), Value::Fixnum(2)]);
    assert_eq!(r, Value::Cons(3, 4));
    assert_eq!(st.get(1), Value::Fixnum(2));
    assert_eq!(st.get(2), Value::Nil);
    assert_eq!(st.get(3), Value::Fixnum(1));
    assert_eq!(st.get(4), Value::Cons(1, 2));
}

#[test]
fn intrinsics_table_names_every_module() {
    assert_eq!(intrinsics_name(), "intrinsics");
    let decls = intrinsics_decls();
    let names: Vec<&str> = decls.iter().map(|d| d.name.as_str()).collect();
    assert_eq!(names, vec!["", "convert", "io", "math", "oftb", "strings", "types", "vector"]);
    assert_eq!(decls[0].value.len(), 8);
    assert_eq!(decls[6].value.len(), 9);
    assert!(decls[7].value.contains(&"nth".to_string()));
}

#[test]
fn vector_append_copies_both_vectors_to_the_end() {
    let mut st = Store::new();
    let (a, l) = st.store_vec(&vec![Value::Fixnum(1), Value::Fixnum(2)]);
    assert_eq!((a, l), (0, 2));
    let (b, m) = st.store_vec(&vec![Value::Byte(7)]);
    assert_eq!((b, m), (2, 1));
    let r = vector_append(&mut st, &Value::Vector(a, l), &Value::Vector(b, m));
    assert_eq!(r, Value::Vector(3, 3));
    assert_eq!(st.len(), 6);
    assert_eq!(st.get_vec(3, 3), vec![Value::Fixnum(1), Value::Fixnum(2), Value::Byte(7)]);
    assert_eq!(vector_length(&r), Value::Fixnum(3));
    assert_eq!(vector_nth(&st, &Value::Fixnum(2), &r), Value::Byte(7));
    let e = vector_append(&mut st, &Value::Vector(0, 0), &Value::Vector(b, m));
    assert_eq!(e, Value::Vector(6, 1));
    assert_eq!(st.get_vec(6, 1), vec![Value::Byte(7)]);
}

#[test]
fn dir_listing_pairs_paths_with_kinds() {
    let mut st = Store::new();
    st.store(Value::Nil);
    let entries = vec![
        ("/d/a.oft".to_string(), "file".to_string()),
        ("/d/sub".to_string(), "dir".to_string()),
    ];
    let l = dir_listing(&mut st, &entries);
    assert_eq!(st.get(0), Value::Nil);
    let first = car(&st, &l);
    let path = car(&st, &first);
    match path {
        Value::String(a, n) => assert_eq!(st.get_str(a, n), "/d/a.oft"),
        other => panic!("expected a string, got {:?}", other),
    }
    assert_eq!(cdr(&st, &first), Value::Symbol("file".to_string()));
    let rest = cdr(&st, &l);
    let second = car(&st, &rest);
    match car(&st, &second) {
        Value::String(a, n) => assert_eq!(st.get_str(a, n), "/d/sub"),
        other => panic!("expected a string, got {:?}", other),
    }
    assert_eq!(cdr(&st, &second), Value::Symbol("dir".to_string()));
    assert_eq!(cdr(&st, &rest), Value::Nil);
    assert_eq!(dir_listing(&mut st, &vec![]), Value::Nil);
}

#[test]
fn holds_str_checks_bounds_and_boundaries() {
    let mut st = Store::new();
    let (a, l) = st.store_str("aé");
    assert_eq!((a, l), (0, 3));
    assert!(st.holds_str(0, 3));
    assert!(st.holds_str(1, 2));
    assert!(!st.holds_str(0, 2));
    assert!(!st.holds_str(2, 1));
    assert!(!st.holds_str(1, 3));
    assert!(st.holds_str(3, 0));
    assert!(!st.holds_str(4, 0));
}
