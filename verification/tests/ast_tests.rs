use toy_lisp::ast::Object;

#[test]
fn test_number_to_string() {
    let v1 = Object::Number(123);
    assert_eq!(v1.to_text().as_str(), "123");
}

#[test]
fn test_symbol_to_string() {
    let v1 = Object::Symbol("foo".to_string());
    assert_eq!(v1.to_text().as_str(), "foo");
}

#[test]
fn test_list_to_string() {
    let v1 = Object::Symbol("foo".to_string());
    let v2 = Object::Number(123);
    let v3 = Object::Bool(true);

    let v = Object::List(vec![v1, v2, v3]);
    assert_eq!(v.to_text().as_str(), "(foo 123 true)");
}
