use gears_lang::errors::{GearsError, InterOpErrorType};
use gears_lang::lexer::Span;
use gears_lang::object::{false_obj, none_obj, true_obj, ArcGearsObject, GearsObject};
use std::sync::Arc;

fn number(value: i64) -> GearsObject {
    GearsObject::Int(value)
}

fn text(value: &str) -> GearsObject {
    GearsObject::Str(value.to_string())
}

fn list(items: Vec<GearsObject>) -> GearsObject {
    GearsObject::List(items.into_iter().map(Arc::new).collect())
}

fn type_error(message: &str) -> Result<GearsObject, GearsError> {
    Err(GearsError::TypeError(message.to_string()))
}

#[test]
fn add_integers_and_texts() {
    assert_eq!(number(3).add(&number(4)), Ok(number(7)));
    assert_eq!(number(i64::MAX).add(&number(1)), Ok(number(i64::MIN)));
    assert_eq!(text("ab").add(&text("cd")), Ok(text("abcd")));
    assert_eq!(text("").add(&text("")), Ok(text("")));
    assert_eq!(
        number(1).add(&text("a")),
        type_error("TypeError: Unable to perform add on Integer and String")
    );
    assert_eq!(
        text("a").add(&number(1)),
        type_error("TypeError: Unable to perform add on String and Integer")
    );
    assert_eq!(
        GearsObject::Bool(true).add(&GearsObject::NoneValue),
        type_error("TypeError: Unable to perform add on Bool and NoneType")
    );
    assert_eq!(
        list(vec![]).add(&list(vec![])),
        type_error("TypeError: Unable to perform add on List and List")
    );
}

#[test]
fn subtract_multiply_divide() {
    assert_eq!(number(3).sub(&number(4)), Ok(number(-1)));
    assert_eq!(number(i64::MIN).sub(&number(1)), Ok(number(i64::MAX)));
    assert_eq!(number(3).mul(&number(4)), Ok(number(12)));
    assert_eq!(number(i64::MAX).mul(&number(2)), Ok(number(-2)));
    assert_eq!(number(42).div(&number(6)), Ok(number(7)));
    assert_eq!(number(-7).div(&number(2)), Ok(number(-3)));
    assert_eq!(number(7).div(&number(-2)), Ok(number(-3)));
    assert_eq!(number(0).div(&number(5)), Ok(number(0)));
    assert_eq!(number(i64::MIN).div(&number(-1)), Ok(number(i64::MIN)));
    assert_eq!(number(1).div(&number(0)), type_error("ArithmeticError: Division by zero"));
    assert_eq!(
        text("a").sub(&text("b")),
        type_error("TypeError: Unable to perform sub on String and String")
    );
    assert_eq!(
        number(1).mul(&GearsObject::Bool(true)),
        type_error("TypeError: Unable to perform mul on Integer and Bool")
    );
    assert_eq!(
        GearsObject::NoneValue.div(&number(1)),
        type_error("TypeError: Unable to perform div on NoneType and Integer")
    );
}

#[test]
fn equality_is_structural() {
    assert_eq!(number(3).equal(&number(3)), Ok(GearsObject::Bool(true)));
    assert_eq!(number(3).equal(&number(4)), Ok(GearsObject::Bool(false)));
    assert_eq!(number(1).equal(&GearsObject::Bool(true)), Ok(GearsObject::Bool(false)));
    assert_eq!(text("a").equal(&text("a")), Ok(GearsObject::Bool(true)));
    assert_eq!(text("a").nequal(&text("b")), Ok(GearsObject::Bool(true)));
    assert_eq!(GearsObject::NoneValue.equal(&GearsObject::NoneValue), Ok(GearsObject::Bool(true)));
    assert_eq!(GearsObject::NoneValue.nequal(&GearsObject::NoneValue), Ok(GearsObject::Bool(false)));
    assert_eq!(
        list(vec![number(1), list(vec![text("x")])]).equal(&list(vec![number(1), list(vec![text("x")])])),
        Ok(GearsObject::Bool(true))
    );
    assert_eq!(
        list(vec![number(1), list(vec![text("x")])]).equal(&list(vec![number(1), list(vec![text("y")])])),
        Ok(GearsObject::Bool(false))
    );
    assert_eq!(list(vec![number(1)]).equal(&list(vec![])), Ok(GearsObject::Bool(false)));
    assert!(list(vec![number(1)])._equal(&list(vec![number(1)])));
    assert!(!list(vec![number(1)])._equal(&number(1)));
}

#[test]
fn comparisons_are_for_integers() {
    assert_eq!(number(3).less(&number(4)), Ok(GearsObject::Bool(true)));
    assert_eq!(number(4).less(&number(4)), Ok(GearsObject::Bool(false)));
    assert_eq!(number(4).less_eq(&number(4)), Ok(GearsObject::Bool(true)));
    assert_eq!(number(5).greater(&number(4)), Ok(GearsObject::Bool(true)));
    assert_eq!(number(4).greater(&number(4)), Ok(GearsObject::Bool(false)));
    assert_eq!(number(4).greater_eq(&number(4)), Ok(GearsObject::Bool(true)));
    assert_eq!(
        text("a").less(&text("b")),
        type_error("TypeError: Unable to perform < on String and String")
    );
    assert_eq!(
        number(1).greater(&GearsObject::NoneValue),
        type_error("TypeError: Unable to perform > on Integer and NoneType")
    );
    assert_eq!(
        GearsObject::Bool(true).less_eq(&number(1)),
        type_error("TypeError: Unable to perform <= on Bool and Integer")
    );
    assert_eq!(
        list(vec![]).greater_eq(&number(1)),
        type_error("TypeError: Unable to perform >= on List and Integer")
    );
}

#[test]
fn increment() {
    assert_eq!(number(41).inc(), Ok(number(42)));
    assert_eq!(number(i64::MAX).inc(), Ok(number(i64::MIN)));
    assert_eq!(text("a").inc(), type_error("TypeError: Unable to perform increment on String"));
}

#[test]
fn truthiness() {
    assert!(number(1).as_bool());
    assert!(number(-1).as_bool());
    assert!(!number(0).as_bool());
    assert!(text("a").as_bool());
    assert!(!text("").as_bool());
    assert!(list(vec![number(0)]).as_bool());
    assert!(!list(vec![]).as_bool());
    assert!(GearsObject::Bool(true).as_bool());
    assert!(!GearsObject::Bool(false).as_bool());
    assert!(!GearsObject::NoneValue.as_bool());
}

#[test]
fn type_names() {
    assert_eq!(number(1).get_type_str(), "Integer");
    assert_eq!(GearsObject::Bool(true).get_type_str(), "Bool");
    assert_eq!(text("").get_type_str(), "String");
    assert_eq!(list(vec![]).get_type_str(), "List");
    assert_eq!(GearsObject::NoneValue.get_type_str(), "NoneType");
}

#[test]
fn conversions_and_copies() {
    assert_eq!(GearsObject::from(7), number(7));
    assert_eq!(GearsObject::from(true), GearsObject::Bool(true));
    assert_eq!(GearsObject::from("abc"), text("abc"));
    let items: Vec<ArcGearsObject> = vec![Arc::new(number(1))];
    assert_eq!(GearsObject::from(items.clone()), GearsObject::List(items));
    let nested = list(vec![number(1), text("a"), list(vec![GearsObject::NoneValue])]);
    assert_eq!(nested.duplicate(), nested);
    assert_eq!(*true_obj(), GearsObject::Bool(true));
    assert_eq!(*false_obj(), GearsObject::Bool(false));
    assert_eq!(*none_obj(), GearsObject::NoneValue);
}

#[test]
fn errors_compare_by_kind_and_text() {
    let a = GearsError::TypeError("x".to_string());
    assert!(a == GearsError::TypeError("x".to_string()));
    assert!(a != GearsError::TypeError("y".to_string()));
    assert!(a != GearsError::InternalCompilerError("x".to_string()));
    assert!(
        GearsError::FunctionNotFound("f".to_string()) == GearsError::FunctionNotFound("f".to_string())
    );
    assert!(
        GearsError::InternalCompilerError("i".to_string())
            == GearsError::InternalCompilerError("i".to_string())
    );
    assert!(GearsError::SymbolNotFound("s".to_string()) != GearsError::SymbolNotFound("s".to_string()));
    assert!(GearsError::RustIOError("s".to_string()) != GearsError::RustIOError("s".to_string()));
    assert!(
        GearsError::ParseError { location: Span::new(1, 1), message: "m".to_string() }
            != GearsError::ParseError { location: Span::new(1, 1), message: "m".to_string() }
    );
    assert!(
        GearsError::InterOpError { error: InterOpErrorType::TooFewArgs, message: "m".to_string() }
            != GearsError::InterOpError { error: InterOpErrorType::TooFewArgs, message: "m".to_string() }
    );
}

#[test]
fn exit_codes() {
    assert_eq!(GearsError::RustIOError("gone".to_string()).exit_code(false), 3);
    assert_eq!(GearsError::RustIOError("gone".to_string()).exit_code(true), 3);
    assert_eq!(GearsError::TypeError("t".to_string()).exit_code(true), 1);
    assert_eq!(GearsError::TypeError("t".to_string()).exit_code(false), 2);
    assert_eq!(GearsError::SymbolNotFound("s".to_string()).exit_code(false), 2);
    assert_eq!(
        GearsError::LexError { location: Span::new(1, 1), message: "m".to_string() }.exit_code(false),
        2
    );
}
