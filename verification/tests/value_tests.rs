use smol::ast::Stmt;
use smol::interpreter::Value;
use smol::value::{FloatAnswer, FloatQuery};

fn floats(q: FloatQuery) -> FloatAnswer {
    match q {
        FloatQuery::Show(b) => FloatAnswer::Text(format!("{}", f64::from_bits(b))),
        _ => FloatAnswer::NotANumber,
    }
}

fn shown(v: &Value) -> String {
    let mut out = String::from(">");
    v.show(&floats, &mut out);
    out
}

#[test]
fn type_names() {
    assert_eq!(Value::Nil.typ(), "nil");
    assert_eq!(Value::Bool(true).typ(), "bool");
    assert_eq!(Value::Int(3).typ(), "int");
    assert_eq!(Value::Float(1.5f64.to_bits()).typ(), "float");
    assert_eq!(Value::Str("s".to_string()).typ(), "string");
    assert_eq!(Value::Function("f".to_string(), vec![], Box::new(Stmt::Block(vec![]))).typ(), "function");
}

#[test]
fn values_are_shown_as_printed() {
    assert_eq!(shown(&Value::Nil), ">nil");
    assert_eq!(shown(&Value::Bool(false)), ">false");
    assert_eq!(shown(&Value::Int(0)), ">0");
    assert_eq!(shown(&Value::Int(-120)), ">-120");
    assert_eq!(shown(&Value::Int(i64::MIN)), ">-9223372036854775808");
    assert_eq!(shown(&Value::Int(i64::MAX)), ">9223372036854775807");
    assert_eq!(shown(&Value::Float(2.5f64.to_bits())), ">2.5");
    assert_eq!(shown(&Value::Str("hi".to_string())), ">hi");
    assert_eq!(
        shown(&Value::Function("add".to_string(), vec![], Box::new(Stmt::Block(vec![])))),
        "><fn add>"
    );
}

#[test]
fn duplicate_copies_the_value() {
    let v = Value::Str("abc".to_string());
    assert!(matches!(v.duplicate(), Value::Str(s) if s == "abc"));
    assert!(matches!(Value::Int(7).duplicate(), Value::Int(7)));
}
