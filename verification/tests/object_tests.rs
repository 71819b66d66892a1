use std::rc::Rc;

use monkey::ast::{BlockStatement, Expression, ExpressionStatement, Identifier, Statement};
use monkey::object::{
    Array, Boolean, Builtin, BuiltinFunction, Environment, Error, Function, HashKey, HashObj,
    HashPair, Integer, Null, Object, ObjectType, ReturnValue, StringObj,
};
use monkey::token::{Token, TokenType};

fn int_obj(v: i64) -> Object {
    Object::Integer(Integer::new(v))
}

fn boolean(v: bool) -> Object {
    Object::Boolean(Boolean::new(v))
}

fn string(v: &str) -> Object {
    Object::String(StringObj::new(v.to_string()))
}

fn ident(name: &str) -> Identifier {
    Identifier { token: Token::new(TokenType::Ident, name), value: name.to_string() }
}

#[test]
fn integers_print_in_decimal() {
    assert_eq!(int_obj(0).inspect(), "0");
    assert_eq!(int_obj(5).inspect(), "5");
    assert_eq!(int_obj(-42).inspect(), "-42");
    assert_eq!(int_obj(i64::MAX).inspect(), i64::MAX.to_string());
    assert_eq!(int_obj(i64::MIN).inspect(), "-9223372036854775808");
    assert_eq!(Integer::new(1234567890).inspect(), "1234567890");
}

#[test]
fn simple_objects_print() {
    assert_eq!(boolean(true).inspect(), "true");
    assert_eq!(boolean(false).inspect(), "false");
    assert_eq!(Object::Null(Null::new()).inspect(), "null");
    assert_eq!(string("hi there").inspect(), "hi there");
    assert_eq!(Object::Error(Error::new("boom".to_string())).inspect(), "ERROR: boom");
    assert_eq!(Object::ReturnValue(ReturnValue::new(int_obj(7))).inspect(), "7");
    assert_eq!(Builtin::new(BuiltinFunction { index: 3 }).inspect(), "builtin function");
}

#[test]
fn arrays_and_hashes_print() {
    let a = Array::new(vec![int_obj(1), boolean(true), string("x")]);
    assert_eq!(a.inspect(), "[1, true, x]");
    assert_eq!(Array::new(vec![]).inspect(), "[]");

    let mut h = HashObj::new();
    assert_eq!(h.inspect(), "{}");
    let k = string("one").hash_key().unwrap();
    h.insert(k, HashPair { key: string("one"), value: int_obj(1) });
    assert_eq!(h.inspect(), "{one: 1}");
    assert_eq!(Object::Hash(h).inspect(), "{one: 1}");
}

#[test]
fn functions_print_with_body() {
    let body = BlockStatement {
        token: Token::new(TokenType::LBrace, "{"),
        statements: vec![Statement::Expression(ExpressionStatement {
            token: Token::new(TokenType::Ident, "x"),
            expression: Some(Expression::Identifier(ident("x"))),
        })],
    };
    let f = Function::new(vec![ident("x"), ident("y")], body, Rc::new(Environment::new()));
    assert_eq!(f.inspect(), "fn(x, y) {\nx\n}");
}

#[test]
fn object_types() {
    assert_eq!(int_obj(1).object_type(), ObjectType::Integer);
    assert_eq!(string("a").object_type(), ObjectType::String);
    assert_eq!(Object::Hash(HashObj::new()).object_type(), ObjectType::Hash);
    assert_eq!(ObjectType::ReturnValue.to_string(), "RETURN_VALUE");
    assert_eq!(ObjectType::Integer.to_string(), "INTEGER");
    assert_eq!(ObjectType::Builtin.to_string(), "BUILTIN");
}

#[test]
fn hash_keys_of_integers_and_booleans() {
    assert_eq!(int_obj(5).hash_key(), Ok(HashKey { object_type: ObjectType::Integer, value: 5 }));
    assert_eq!(int_obj(-1).hash_key(), Ok(HashKey { object_type: ObjectType::Integer, value: u64::MAX }));
    assert_eq!(boolean(true).hash_key(), Ok(HashKey { object_type: ObjectType::Boolean, value: 1 }));
    assert_eq!(boolean(false).hash_key(), Ok(HashKey { object_type: ObjectType::Boolean, value: 0 }));
}

#[test]
fn equal_strings_have_equal_hash_keys() {
    let a = string("Hello World").hash_key().unwrap();
    let b = string("Hello World").hash_key().unwrap();
    let c = string("My name is johnny").hash_key().unwrap();
    assert_eq!(a, b);
    assert_ne!(a, c);
    assert_eq!(a.object_type, ObjectType::String);
    // The key of a string is its hash, not its length or its first character.
    let d = string("Hello Worle").hash_key().unwrap();
    assert_ne!(a, d);
    let mut hasher = std::collections::hash_map::DefaultHasher::new();
    std::hash::Hash::hash("Hello World", &mut hasher);
    assert_eq!(a.value, std::hash::Hasher::finish(&hasher));
}

#[test]
fn unusable_hash_keys() {
    assert_eq!(Object::Array(Array::new(vec![])).hash_key(), Err("unusable as hash key: ARRAY".to_string()));
    assert_eq!(Object::Null(Null::new()).hash_key(), Err("unusable as hash key: NULL".to_string()));
    assert_eq!(
        Object::Error(Error::new("e".to_string())).hash_key(),
        Err("unusable as hash key: ERROR".to_string())
    );
}

#[test]
fn object_equality() {
    assert!(int_obj(5) == int_obj(5));
    assert!(int_obj(5) != int_obj(6));
    assert!(int_obj(1) != boolean(true));
    assert!(boolean(false) == boolean(false));
    assert!(string("a") == string("a"));
    assert!(string("a") != string("b"));
    assert!(Object::Null(Null::new()) == Object::Null(Null::new()));
    assert!(Object::Array(Array::new(vec![])) != Object::Array(Array::new(vec![])));
}

#[test]
fn clones_are_equal_in_value() {
    let a = Object::Array(Array::new(vec![int_obj(1), string("two")]));
    let b = a.clone();
    assert_eq!(b.inspect(), "[1, two]");
    let x = int_obj(9);
    assert!(x.clone() == x);
}

#[test]
fn hash_insert_get_and_replace() {
    let mut h = HashObj::new();
    let k1 = int_obj(1).hash_key().unwrap();
    let k2 = boolean(true).hash_key().unwrap();
    h.insert(k1, HashPair { key: int_obj(1), value: string("one") });
    h.insert(k2, HashPair { key: boolean(true), value: string("yes") });
    assert_eq!(h.len(), 2);
    assert_eq!(h.get(&k1).unwrap().value.inspect(), "one");
    assert_eq!(h.get(&k2).unwrap().key.inspect(), "true");
    h.insert(k1, HashPair { key: int_obj(1), value: string("uno") });
    assert_eq!(h.len(), 2);
    assert_eq!(h.get(&k1).unwrap().value.inspect(), "uno");
    assert_eq!(h.inspect(), "{1: uno, true: yes}");
    let missing = int_obj(2).hash_key().unwrap();
    assert!(h.get(&missing).is_none());
}

#[test]
fn environment_get_after_set() {
    let mut env = Environment::new();
    assert!(env.get("x").is_none());
    let r = env.set("x".to_string(), int_obj(5));
    assert!(r == int_obj(5));
    assert!(env.get("x").unwrap() == int_obj(5));
    env.set("y".to_string(), string("why"));
    env.set("x".to_string(), int_obj(6));
    assert!(env.get("x").unwrap() == int_obj(6));
    assert!(env.get("y").unwrap() == string("why"));
    assert!(env.get("z").is_none());
}

#[test]
fn enclosed_environment_sees_outer_and_shadows() {
    let mut outer = Environment::new();
    outer.set("a".to_string(), int_obj(1));
    outer.set("b".to_string(), int_obj(2));
    let outer = Rc::new(outer);
    let mut inner = Environment::new_enclosed(Rc::clone(&outer));
    assert!(inner.get("a").unwrap() == int_obj(1));
    inner.set("a".to_string(), int_obj(10));
    assert!(inner.get("a").unwrap() == int_obj(10));
    assert!(inner.get("b").unwrap() == int_obj(2));
    assert!(outer.get("a").unwrap() == int_obj(1));
    assert!(inner.get("c").is_none());
    let copy = inner.clone();
    assert!(copy.get("a").unwrap() == int_obj(10));
    assert!(copy.get("b").unwrap() == int_obj(2));
}
