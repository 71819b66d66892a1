//! The values of the Monkey interpreter and the environments that bind names to them.

use vstd::prelude::*;
use vstd::string::*;
use std::rc::Rc;
use std::hash::{Hash, Hasher};
use crate::ast::{
    block_string, clone_idents, idents_string, idents_view, write_idents, BlockStatement,
    Identifier, SBlock, SIdent,
};
use crate::text::{i64_to_string, int_decimal, push_char, push_str};

verus! {

broadcast use vstd::string::group_string_axioms;

#[derive(Debug, Clone, Copy, PartialEq, Eq, Structural, Hash)]
pub enum ObjectType {
    Null,
    Error,
    Integer,
    Boolean,
    String,
    ReturnValue,
    Function,
    Builtin,
    Array,
    Hash,
}

/// How an object type prints.
pub open spec fn object_type_name(t: ObjectType) -> Seq<char> {
    match t {
        ObjectType::Null => "NULL"@,
        ObjectType::Error => "ERROR"@,
        ObjectType::Integer => "INTEGER"@,
        ObjectType::Boolean => "BOOLEAN"@,
        ObjectType::String => "STRING"@,
        ObjectType::ReturnValue => "RETURN_VALUE"@,
        ObjectType::Function => "FUNCTION"@,
        ObjectType::Builtin => "BUILTIN"@,
        ObjectType::Array => "ARRAY"@,
        ObjectType::Hash => "HASH"@,
    }
}

impl ObjectType {
    /// How the object type prints: its name in capitals.
    pub fn to_string(&self) -> (r: String)
        ensures
            r@ == object_type_name(*self),
    {
        let name = match self {
            ObjectType::Null => "NULL",
            ObjectType::Error => "ERROR",
            ObjectType::Integer => "INTEGER",
            ObjectType::Boolean => "BOOLEAN",
            ObjectType::String => "STRING",
            ObjectType::ReturnValue => "RETURN_VALUE",
            ObjectType::Function => "FUNCTION",
            ObjectType::Builtin => "BUILTIN",
            ObjectType::Array => "ARRAY",
            ObjectType::Hash => "HASH",
        };
        String::from_str(name)
    }
}

/// The key under which a hashable object is stored in a hash.
#[derive(Debug, Clone, Copy, PartialEq, Eq, Structural, Hash)]
pub struct HashKey {
    pub object_type: ObjectType,
    pub value: u64,
}

/// Objects that can serve as keys of a hash.
pub trait Hashable {
    fn hash_key(&self) -> HashKey;
}

#[derive(Debug)]
pub enum Object {
    Integer(Integer),
    Boolean(Boolean),
    Null(Null),
    ReturnValue(ReturnValue),
    Error(Error),
    Function(Function),
    String(StringObj),
    Builtin(Builtin),
    Array(Array),
    Hash(HashObj),
}

#[derive(Debug)]
pub struct Integer {
    pub value: i64,
}

#[derive(Debug)]
pub struct Boolean {
    pub value: bool,
}

#[derive(Debug)]
pub struct Null;

#[derive(Debug)]
pub struct ReturnValue {
    pub value: Box<Object>,
}

#[derive(Debug)]
pub struct Error {
    pub message: String,
}

#[derive(Debug)]
pub struct Function {
    pub parameters: Vec<Identifier>,
    pub body: BlockStatement,
    pub env: Rc<Environment>,
}

#[derive(Debug)]
pub struct StringObj {
    pub value: String,
}

/// A builtin function of the interpreter, named by its place in the table of
/// builtins that the interpreter keeps. (Verus cannot hold a function pointer,
/// and nothing in this library calls a builtin: it only carries and prints it.)
#[derive(Debug, Clone, Copy, PartialEq, Eq, Structural)]
pub struct BuiltinFunction {
    pub index: usize,
}

#[derive(Debug)]
pub struct Builtin {
    pub function: BuiltinFunction,
}

#[derive(Debug)]
pub struct Array {
    pub elements: Vec<Object>,
}

#[derive(Debug)]
pub struct HashPair {
    pub key: Object,
    pub value: Object,
}

/// A hash: pairs stored under their keys, each key standing once, in the
/// order they were first stored.
#[derive(Debug)]
pub struct HashObj {
    pairs: Vec<(HashKey, HashPair)>,
}

/// The names bound in one scope, and the scope that encloses it.
#[derive(Debug)]
pub struct Environment {
    store: Vec<(String, Object)>,
    outer: Option<Rc<Environment>>,
}

// ---------------------------------------------------------------------------
// The mathematical model of objects
// ---------------------------------------------------------------------------

pub enum SObject {
    Integer(int),
    Boolean(bool),
    Null,
    ReturnValue(Box<SObject>),
    Error(Seq<char>),
    Function { parameters: Seq<SIdent>, body: SBlock, env: SEnv },
    Str(Seq<char>),
    Builtin(usize),
    Array(Seq<SObject>),
    Hash(Seq<(HashKey, SObject, SObject)>),
}

pub struct SEnv {
    pub store: Seq<(Seq<char>, SObject)>,
    pub outer: Option<Box<SEnv>>,
}

pub open spec fn object_view(o: Object) -> SObject
    decreases o,
{
    match o {
        Object::Integer(i) => SObject::Integer(i.value as int),
        Object::Boolean(b) => SObject::Boolean(b.value),
        Object::Null(_) => SObject::Null,
        Object::ReturnValue(r) => SObject::ReturnValue(Box::new(object_view(*r.value))),
        Object::Error(e) => SObject::Error(e.message@),
        Object::Function(f) => SObject::Function {
            parameters: idents_view(f.parameters@),
            body: f.body@,
            env: env_view(*f.env),
        },
        Object::String(s) => SObject::Str(s.value@),
        Object::Builtin(b) => SObject::Builtin(b.function.index),
        Object::Array(a) => SObject::Array(objects_view(a.elements@)),
        Object::Hash(h) => SObject::Hash(hash_entries(h)),
    }
}

pub open spec fn objects_view(s: Seq<Object>) -> Seq<SObject>
    decreases s,
{
    if s.len() == 0 {
        Seq::empty()
    } else {
        objects_view(s.subrange(0, s.len() - 1)).push(object_view(s[s.len() - 1]))
    }
}

pub open spec fn entries_view(s: Seq<(HashKey, HashPair)>) -> Seq<(HashKey, SObject, SObject)>
    decreases s,
{
    if s.len() == 0 {
        Seq::empty()
    } else {
        entries_view(s.subrange(0, s.len() - 1)).push(
            (s[s.len() - 1].0, object_view(s[s.len() - 1].1.key), object_view(s[s.len() - 1].1.value)),
        )
    }
}

/// The entries of a hash, in the order they were first stored.
pub closed spec fn hash_entries(h: HashObj) -> Seq<(HashKey, SObject, SObject)>
    decreases h,
{
    entries_view(h.pairs@)
}

pub closed spec fn env_view(e: Environment) -> SEnv
    decreases e,
{
    SEnv {
        store: store_view(e.store@),
        outer: match e.outer {
            Some(o) => Some(Box::new(env_view(*o))),
            None => None,
        },
    }
}

pub open spec fn store_view(s: Seq<(String, Object)>) -> Seq<(Seq<char>, SObject)>
    decreases s,
{
    if s.len() == 0 {
        Seq::empty()
    } else {
        store_view(s.subrange(0, s.len() - 1)).push((s[s.len() - 1].0@, object_view(s[s.len() - 1].1)))
    }
}

impl View for Object {
    type V = SObject;

    open spec fn view(&self) -> SObject {
        object_view(*self)
    }
}

impl View for Environment {
    type V = SEnv;

    open spec fn view(&self) -> SEnv {
        env_view(*self)
    }
}

impl View for HashObj {
    type V = Seq<(HashKey, SObject, SObject)>;

    open spec fn view(&self) -> Seq<(HashKey, SObject, SObject)> {
        hash_entries(*self)
    }
}

pub proof fn lemma_objects_view(s: Seq<Object>)
    ensures
        objects_view(s).len() == s.len(),
        forall|i: int| 0 <= i < s.len() ==> #[trigger] objects_view(s)[i] == object_view(s[i]),
    decreases s.len(),
{
    if s.len() > 0 {
        lemma_objects_view(s.subrange(0, s.len() - 1));
    }
}

pub proof fn lemma_entries_view(s: Seq<(HashKey, HashPair)>)
    ensures
        entries_view(s).len() == s.len(),
        forall|i: int|
            0 <= i < s.len() ==> #[trigger] entries_view(s)[i] == (
                s[i].0,
                object_view(s[i].1.key),
                object_view(s[i].1.value),
            ),
    decreases s.len(),
{
    if s.len() > 0 {
        lemma_entries_view(s.subrange(0, s.len() - 1));
    }
}

pub proof fn lemma_store_view(s: Seq<(String, Object)>)
    ensures
        store_view(s).len() == s.len(),
        forall|i: int| 0 <= i < s.len() ==> #[trigger] store_view(s)[i] == (s[i].0@, object_view(s[i].1)),
    decreases s.len(),
{
    if s.len() > 0 {
        lemma_store_view(s.subrange(0, s.len() - 1));
    }
}

/// The kind of an object.
pub open spec fn kind_of(o: SObject) -> ObjectType {
    match o {
        SObject::Integer(_) => ObjectType::Integer,
        SObject::Boolean(_) => ObjectType::Boolean,
        SObject::Null => ObjectType::Null,
        SObject::ReturnValue(_) => ObjectType::ReturnValue,
        SObject::Error(_) => ObjectType::Error,
        SObject::Function { .. } => ObjectType::Function,
        SObject::Str(_) => ObjectType::String,
        SObject::Builtin(_) => ObjectType::Builtin,
        SObject::Array(_) => ObjectType::Array,
        SObject::Hash(_) => ObjectType::Hash,
    }
}

/// How an object prints.
pub open spec fn inspect_string(o: SObject) -> Seq<char>
    decreases o,
{
    match o {
        SObject::Integer(v) => int_decimal(v),
        SObject::Boolean(b) => if b {
            "true"@
        } else {
            "false"@
        },
        SObject::Null => "null"@,
        SObject::ReturnValue(v) => inspect_string(*v),
        SObject::Error(m) => "ERROR: "@ + m,
        SObject::Function { parameters, body, .. } => "fn("@ + idents_string(parameters) + ") {\n"@
            + block_string(body) + "\n}"@,
        SObject::Str(s) => s,
        SObject::Builtin(_) => "builtin function"@,
        SObject::Array(es) => "["@ + inspect_list(es) + "]"@,
        SObject::Hash(ps) => "{"@ + inspect_entries(ps) + "}"@,
    }
}

/// The objects' strings joined by ", ".
pub open spec fn inspect_list(s: Seq<SObject>) -> Seq<char>
    decreases s,
{
    if s.len() == 0 {
        Seq::empty()
    } else if s.len() == 1 {
        inspect_string(s[0])
    } else {
        inspect_list(s.subrange(0, s.len() - 1)) + ", "@ + inspect_string(s[s.len() - 1])
    }
}

/// The entries, each as "key: value", joined by ", ".
pub open spec fn inspect_entries(s: Seq<(HashKey, SObject, SObject)>) -> Seq<char>
    decreases s,
{
    if s.len() == 0 {
        Seq::empty()
    } else if s.len() == 1 {
        inspect_string(s[0].1) + ": "@ + inspect_string(s[0].2)
    } else {
        inspect_entries(s.subrange(0, s.len() - 1)) + ", "@ + inspect_string(s[s.len() - 1].1) + ": "@
            + inspect_string(s[s.len() - 1].2)
    }
}

// ---------------------------------------------------------------------------
// Printing objects
// ---------------------------------------------------------------------------

fn push_text(out: &mut String, t: &str)
    ensures
        final(out)@ == old(out)@ + t@,
{
    push_str(out, t);
}

fn write_objects(v: &Vec<Object>, out: &mut String)
    ensures
        final(out)@ == old(out)@ + inspect_list(objects_view(v@)),
    decreases v,
{
    let mut i: usize = 0;
    while i < v.len()
        invariant
            i <= v@.len(),
            out@ == old(out)@ + inspect_list(objects_view(v@.subrange(0, i as int))),
        decreases v@.len() - i,
    {
        let ghost prefix = objects_view(v@.subrange(0, i as int));
        if i > 0 {
            push_text(out, ", ");
        }
        v[i].write_inspect(out);
        proof {
            let next = v@.subrange(0, i + 1);
            assert(next.subrange(0, next.len() - 1) =~= v@.subrange(0, i as int));
            let pushed = prefix.push(object_view(v@[i as int]));
            assert(objects_view(next) == pushed);
            lemma_objects_view(v@.subrange(0, i as int));
            assert(pushed.subrange(0, pushed.len() - 1) =~= prefix);
            assert(out@ =~= old(out)@ + inspect_list(pushed));
        }
        i = i + 1;
    }
    assert(v@.subrange(0, v@.len() as int) =~= v@);
}

fn write_entries(v: &Vec<(HashKey, HashPair)>, out: &mut String)
    ensures
        final(out)@ == old(out)@ + inspect_entries(entries_view(v@)),
    decreases v,
{
    let mut i: usize = 0;
    while i < v.len()
        invariant
            i <= v@.len(),
            out@ == old(out)@ + inspect_entries(entries_view(v@.subrange(0, i as int))),
        decreases v@.len() - i,
    {
        let ghost prefix = entries_view(v@.subrange(0, i as int));
        if i > 0 {
            push_text(out, ", ");
        }
        v[i].1.key.write_inspect(out);
        push_text(out, ": ");
        v[i].1.value.write_inspect(out);
        proof {
            let next = v@.subrange(0, i + 1);
            assert(next.subrange(0, next.len() - 1) =~= v@.subrange(0, i as int));
            let pushed = prefix.push(
                (v@[i as int].0, object_view(v@[i as int].1.key), object_view(v@[i as int].1.value)),
            );
            assert(entries_view(next) == pushed);
            lemma_entries_view(v@.subrange(0, i as int));
            assert(pushed.subrange(0, pushed.len() - 1) =~= prefix);
            assert(out@ =~= old(out)@ + inspect_entries(pushed));
        }
        i = i + 1;
    }
    assert(v@.subrange(0, v@.len() as int) =~= v@);
}

impl Object {
    pub fn object_type(&self) -> (r: ObjectType)
        ensures
            r == kind_of(self@),
    {
        match self {
            Object::Integer(_) => ObjectType::Integer,
            Object::Boolean(_) => ObjectType::Boolean,
            Object::Null(_) => ObjectType::Null,
            Object::ReturnValue(_) => ObjectType::ReturnValue,
            Object::Error(_) => ObjectType::Error,
            Object::Function(_) => ObjectType::Function,
            Object::String(_) => ObjectType::String,
            Object::Builtin(_) => ObjectType::Builtin,
            Object::Array(_) => ObjectType::Array,
            Object::Hash(_) => ObjectType::Hash,
        }
    }

    /// Appends how the object prints.
    pub fn write_inspect(&self, out: &mut String)
        ensures
            final(out)@ == old(out)@ + inspect_string(self@),
        decreases self,
    {
        let ghost start = out@;
        match self {
            Object::Integer(i) => {
                let t = i.inspect();
                push_text(out, t.as_str());
            },
            Object::Boolean(b) => {
                let t = b.inspect();
                push_text(out, t.as_str());
            },
            Object::Null(n) => {
                let t = n.inspect();
                push_text(out, t.as_str());
            },
            Object::ReturnValue(rv) => {
                rv.value.write_inspect(out);
            },
            Object::Error(e) => {
                let t = e.inspect();
                push_text(out, t.as_str());
            },
            Object::Function(f) => {
                let t = f.inspect();
                push_text(out, t.as_str());
            },
            Object::String(x) => {
                push_text(out, x.value.as_str());
            },
            Object::Builtin(b) => {
                let t = b.inspect();
                push_text(out, t.as_str());
            },
            Object::Array(a) => {
                push_text(out, "[");
                write_objects(&a.elements, out);
                push_text(out, "]");
                assert(out@ =~= start + inspect_string(self@));
            },
            Object::Hash(h) => {
                push_text(out, "{");
                write_entries(&h.pairs, out);
                push_text(out, "}");
                assert(hash_entries(*h) == entries_view(h.pairs@));
                assert(out@ =~= start + inspect_string(self@));
            },
        }
    }

    /// How the object prints.
    pub fn inspect(&self) -> (r: String)
        ensures
            r@ == inspect_string(self@),
    {
        let mut out = String::new();
        self.write_inspect(&mut out);
        assert(out@ =~= inspect_string(self@));
        out
    }
}

impl Integer {
    pub fn new(value: i64) -> (r: Self)
        ensures
            r.value == value,
    {
        Integer { value }
    }

    pub fn inspect(&self) -> (r: String)
        ensures
            r@ == int_decimal(self.value as int),
    {
        i64_to_string(self.value)
    }
}

impl Boolean {
    pub fn new(value: bool) -> (r: Self)
        ensures
            r.value == value,
    {
        Boolean { value }
    }

    pub fn inspect(&self) -> (r: String)
        ensures
            r@ == if self.value {
                "true"@
            } else {
                "false"@
            },
    {
        if self.value {
            String::from_str("true")
        } else {
            String::from_str("false")
        }
    }
}

impl Null {
    pub fn new() -> (r: Self) {
        Null
    }

    pub fn inspect(&self) -> (r: String)
        ensures
            r@ == "null"@,
    {
        String::from_str("null")
    }
}

impl ReturnValue {
    pub fn new(value: Object) -> (r: Self)
        ensures
            r.value@ == value@,
    {
        ReturnValue { value: Box::new(value) }
    }

    /// Prints as the value it carries.
    pub fn inspect(&self) -> (r: String)
        ensures
            r@ == inspect_string(self.value@),
    {
        self.value.inspect()
    }
}

impl Error {
    pub fn new(message: String) -> (r: Self)
        ensures
            r.message == message,
    {
        Error { message }
    }

    pub fn inspect(&self) -> (r: String)
        ensures
            r@ == "ERROR: "@ + self.message@,
    {
        let mut out = String::from_str("ERROR: ");
        push_text(&mut out, self.message.as_str());
        out
    }
}

impl Function {
    pub fn new(parameters: Vec<Identifier>, body: BlockStatement, env: Rc<Environment>) -> (r: Self)
        ensures
            r.parameters == parameters,
            r.body == body,
            r.env == env,
    {
        Function { parameters, body, env }
    }

    /// Prints as `fn(` and the parameters, then the body between braces on lines of its own.
    pub fn inspect(&self) -> (r: String)
        ensures
            r@ == "fn("@ + idents_string(idents_view(self.parameters@)) + ") {\n"@ + block_string(
                self.body@,
            ) + "\n}"@,
    {
        let mut out = String::from_str("fn(");
        write_idents(&self.parameters, &mut out);
        push_text(&mut out, ") {\n");
        self.body.write_to(&mut out);
        push_text(&mut out, "\n}");
        out
    }
}

impl StringObj {
    pub fn new(value: String) -> (r: Self)
        ensures
            r.value == value,
    {
        StringObj { value }
    }

    pub fn inspect(&self) -> (r: String)
        ensures
            r@ == self.value@,
    {
        self.value.clone()
    }
}

impl Builtin {
    pub fn new(function: BuiltinFunction) -> (r: Self)
        ensures
            r.function == function,
    {
        Builtin { function }
    }

    pub fn inspect(&self) -> (r: String)
        ensures
            r@ == "builtin function"@,
    {
        String::from_str("builtin function")
    }
}

impl Array {
    pub fn new(elements: Vec<Object>) -> (r: Self)
        ensures
            r.elements == elements,
    {
        Array { elements }
    }

    /// Prints as the elements between brackets, separated by ", ".
    pub fn inspect(&self) -> (r: String)
        ensures
            r@ == "["@ + inspect_list(objects_view(self.elements@)) + "]"@,
    {
        let mut out = String::from_str("[");
        write_objects(&self.elements, &mut out);
        push_text(&mut out, "]");
        out
    }
}

impl HashObj {
    pub fn new() -> (r: Self)
        ensures
            r@ == Seq::<(HashKey, SObject, SObject)>::empty(),
    {
        let r = HashObj { pairs: Vec::new() };
        assert(entries_view(r.pairs@) =~= Seq::<(HashKey, SObject, SObject)>::empty());
        r
    }

    /// Prints as the pairs `key: value` between braces, separated by ", ".
    pub fn inspect(&self) -> (r: String)
        ensures
            r@ == "{"@ + inspect_entries(self@) + "}"@,
    {
        let mut out = String::from_str("{");
        write_entries(&self.pairs, &mut out);
        push_text(&mut out, "}");
        out
    }
}

// ---------------------------------------------------------------------------
// Hash keys
// ---------------------------------------------------------------------------

/// The value that std's `DefaultHasher` (as `DefaultHasher::new` makes it)
/// gives a string once the string is hashed into it.
pub uninterp spec fn default_string_hash(s: Seq<char>) -> u64;

/// Hashes a string with a fresh `DefaultHasher`.
///
/// Trusted: calls `DefaultHasher::new`, `str`'s `Hash::hash` and `Hasher::finish`.
/// All hashers that `DefaultHasher::new` makes start alike, so the result is a
/// function of the string alone; the contract names it and says nothing more
/// (the algorithm is not specified and may change between releases of Rust).
#[verifier::external_body]
fn hash_string(s: &str) -> (r: u64)
    ensures
        r == default_string_hash(s@),
{
    let mut hasher = std::collections::hash_map::DefaultHasher::new();
    s.hash(&mut hasher);
    hasher.finish()
}

/// The hash key of an object that can be a key: integers by their bits,
/// booleans as 1 or 0, strings by their hash.
pub open spec fn key_of(o: SObject) -> Option<HashKey> {
    match o {
        SObject::Integer(v) => Some(HashKey { object_type: ObjectType::Integer, value: v as u64 }),
        SObject::Boolean(b) => Some(
            HashKey { object_type: ObjectType::Boolean, value: if b { 1 } else { 0 } },
        ),
        SObject::Str(s) => Some(HashKey { object_type: ObjectType::String, value: default_string_hash(s) }),
        _ => None,
    }
}

impl Hashable for Integer {
    fn hash_key(&self) -> (r: HashKey)
        ensures
            r == (HashKey { object_type: ObjectType::Integer, value: self.value as u64 }),
    {
        HashKey { object_type: ObjectType::Integer, value: self.value as u64 }
    }
}

impl Hashable for Boolean {
    fn hash_key(&self) -> (r: HashKey)
        ensures
            r == (HashKey { object_type: ObjectType::Boolean, value: if self.value { 1 } else { 0 } }),
    {
        let value = if self.value {
            1
        } else {
            0
        };
        HashKey { object_type: ObjectType::Boolean, value }
    }
}

impl Hashable for StringObj {
    fn hash_key(&self) -> (r: HashKey)
        ensures
            r == (HashKey { object_type: ObjectType::String, value: default_string_hash(self.value@) }),
    {
        HashKey { object_type: ObjectType::String, value: hash_string(self.value.as_str()) }
    }
}

impl Object {
    /// The object's hash key; an error for objects that cannot be keys.
    pub fn hash_key(&self) -> (r: Result<HashKey, String>)
        ensures
            match key_of(self@) {
                Some(k) => r == Ok::<HashKey, String>(k),
                None => r is Err && r->Err_0@ == "unusable as hash key: "@ + object_type_name(
                    kind_of(self@),
                ),
            },
    {
        match self {
            Object::Integer(i) => Ok(i.hash_key()),
            Object::Boolean(b) => Ok(b.hash_key()),
            Object::String(s) => Ok(s.hash_key()),
            _ => {
                let mut msg = String::from_str("unusable as hash key: ");
                let name = self.object_type().to_string();
                push_text(&mut msg, name.as_str());
                Err(msg)
            },
        }
    }
}

// ---------------------------------------------------------------------------
// Equality
// ---------------------------------------------------------------------------

/// When `==` holds between objects: integers, booleans and strings of equal
/// value, and any two nulls; never for other objects.
pub open spec fn objects_equal(a: SObject, b: SObject) -> bool {
    match (a, b) {
        (SObject::Integer(x), SObject::Integer(y)) => x == y,
        (SObject::Boolean(x), SObject::Boolean(y)) => x == y,
        (SObject::Null, SObject::Null) => true,
        (SObject::Str(x), SObject::Str(y)) => x == y,
        _ => false,
    }
}

impl PartialEq for Object {
    fn eq(&self, other: &Self) -> (r: bool) {
        match (self, other) {
            (Object::Integer(a), Object::Integer(b)) => a.value == b.value,
            (Object::Boolean(a), Object::Boolean(b)) => a.value == b.value,
            (Object::Null(_), Object::Null(_)) => true,
            (Object::String(a), Object::String(b)) => a.value == b.value,
            _ => false,
        }
    }
}

impl vstd::std_specs::cmp::PartialEqSpecImpl for Object {
    open spec fn obeys_eq_spec() -> bool {
        true
    }

    open spec fn eq_spec(&self, other: &Object) -> bool {
        objects_equal(self@, other@)
    }
}

// ---------------------------------------------------------------------------
// Copies
// ---------------------------------------------------------------------------

/// Another handle on the same environment.
///
/// Trusted: wraps `Rc::clone`, which makes a new pointer to the same value.
#[verifier::external_body]
fn share_env(e: &Rc<Environment>) -> (r: Rc<Environment>)
    ensures
        r == *e,
{
    Rc::clone(e)
}

fn clone_objects(v: &Vec<Object>) -> (r: Vec<Object>)
    ensures
        objects_view(r@) == objects_view(v@),
    decreases v,
{
    let mut r: Vec<Object> = Vec::new();
    let mut i: usize = 0;
    while i < v.len()
        invariant
            i <= v@.len(),
            objects_view(r@) == objects_view(v@.subrange(0, i as int)),
        decreases v@.len() - i,
    {
        let x = v[i].deep_clone();
        proof {
            assert(r@.push(x).subrange(0, r@.len() as int) =~= r@);
            assert(v@.subrange(0, i + 1).subrange(0, i as int) =~= v@.subrange(0, i as int));
        }
        r.push(x);
        i = i + 1;
    }
    assert(v@.subrange(0, v@.len() as int) =~= v@);
    r
}

fn clone_entries(v: &Vec<(HashKey, HashPair)>) -> (r: Vec<(HashKey, HashPair)>)
    ensures
        entries_view(r@) == entries_view(v@),
    decreases v,
{
    let mut r: Vec<(HashKey, HashPair)> = Vec::new();
    let mut i: usize = 0;
    while i < v.len()
        invariant
            i <= v@.len(),
            entries_view(r@) == entries_view(v@.subrange(0, i as int)),
        decreases v@.len() - i,
    {
        let x = (v[i].0, HashPair { key: v[i].1.key.deep_clone(), value: v[i].1.value.deep_clone() });
        proof {
            assert(r@.push(x).subrange(0, r@.len() as int) =~= r@);
            assert(v@.subrange(0, i + 1).subrange(0, i as int) =~= v@.subrange(0, i as int));
        }
        r.push(x);
        i = i + 1;
    }
    assert(v@.subrange(0, v@.len() as int) =~= v@);
    r
}

fn clone_store(v: &Vec<(String, Object)>) -> (r: Vec<(String, Object)>)
    ensures
        store_view(r@) == store_view(v@),
{
    let mut r: Vec<(String, Object)> = Vec::new();
    let mut i: usize = 0;
    while i < v.len()
        invariant
            i <= v@.len(),
            store_view(r@) == store_view(v@.subrange(0, i as int)),
        decreases v@.len() - i,
    {
        let x = (v[i].0.clone(), v[i].1.deep_clone());
        proof {
            assert(r@.push(x).subrange(0, r@.len() as int) =~= r@);
            assert(v@.subrange(0, i + 1).subrange(0, i as int) =~= v@.subrange(0, i as int));
        }
        r.push(x);
        i = i + 1;
    }
    assert(v@.subrange(0, v@.len() as int) =~= v@);
    r
}

impl Object {
    /// A copy of the object, equal to it in every part; a function's
    /// environment is shared, as `Rc` shares it.
    pub fn deep_clone(&self) -> (r: Object)
        ensures
            r@ == self@,
        decreases self,
    {
        match self {
            Object::Integer(i) => Object::Integer(Integer { value: i.value }),
            Object::Boolean(b) => Object::Boolean(Boolean { value: b.value }),
            Object::Null(_) => Object::Null(Null),
            Object::ReturnValue(rv) => Object::ReturnValue(ReturnValue { value: Box::new(rv.value.deep_clone()) }),
            Object::Error(e) => Object::Error(Error { message: e.message.clone() }),
            Object::Function(f) => Object::Function(Function {
                parameters: clone_idents(&f.parameters),
                body: f.body.deep_clone(),
                env: share_env(&f.env),
            }),
            Object::String(x) => Object::String(StringObj { value: x.value.clone() }),
            Object::Builtin(b) => Object::Builtin(Builtin { function: b.function }),
            Object::Array(a) => Object::Array(Array { elements: clone_objects(&a.elements) }),
            Object::Hash(h) => {
                let c = HashObj { pairs: clone_entries(&h.pairs) };
                assert(hash_entries(c) == entries_view(c.pairs@));
                assert(hash_entries(*h) == entries_view(h.pairs@));
                Object::Hash(c)
            },
        }
    }
}

impl Clone for Object {
    fn clone(&self) -> (r: Self)
        ensures
            r@ == self@,
    {
        self.deep_clone()
    }
}

impl Clone for Environment {
    /// A copy of the scope's bindings; the enclosing scope is shared.
    fn clone(&self) -> (r: Self)
        ensures
            r@ == self@,
    {
        let outer = match &self.outer {
            Some(o) => Some(share_env(o)),
            None => None,
        };
        Environment { store: clone_store(&self.store), outer }
    }
}

// ---------------------------------------------------------------------------
// Hashes
// ---------------------------------------------------------------------------

/// The first index of an entry stored under `key`.
pub open spec fn entry_index(entries: Seq<(HashKey, SObject, SObject)>, key: HashKey) -> Option<nat>
    decreases entries.len(),
{
    if entries.len() == 0 {
        None
    } else {
        match entry_index(entries.subrange(0, entries.len() - 1), key) {
            Some(i) => Some(i),
            None => if entries[entries.len() - 1].0 == key {
                Some((entries.len() - 1) as nat)
            } else {
                None
            },
        }
    }
}

/// The entries once a pair is stored under `key`: it replaces the entry under
/// that key, or goes at the end.
pub open spec fn entries_with(
    entries: Seq<(HashKey, SObject, SObject)>,
    key: HashKey,
    k: SObject,
    v: SObject,
) -> Seq<(HashKey, SObject, SObject)> {
    match entry_index(entries, key) {
        Some(i) => entries.update(i as int, (key, k, v)),
        None => entries.push((key, k, v)),
    }
}

proof fn lemma_entry_index(entries: Seq<(HashKey, SObject, SObject)>, key: HashKey)
    ensures
        match entry_index(entries, key) {
            Some(i) => i < entries.len() && entries[i as int].0 == key && forall|j: int|
                0 <= j < i ==> #[trigger] entries[j].0 != key,
            None => forall|j: int| 0 <= j < entries.len() ==> #[trigger] entries[j].0 != key,
        },
    decreases entries.len(),
{
    if entries.len() > 0 {
        let prefix = entries.subrange(0, entries.len() - 1);
        lemma_entry_index(prefix, key);
        match entry_index(prefix, key) {
            Some(i) => {
                assert(prefix[i as int] == entries[i as int]);
                assert forall|j: int| 0 <= j < i implies #[trigger] entries[j].0 != key by {
                    assert(prefix[j] == entries[j]);
                }
            },
            None => {
                assert forall|j: int| 0 <= j < prefix.len() implies #[trigger] entries[j].0 != key by {
                    assert(prefix[j] == entries[j]);
                }
            },
        }
    }
}

impl HashObj {
    fn find(&self, key: &HashKey) -> (r: Option<usize>)
        ensures
            match r {
                Some(i) => i < self.pairs@.len() && entry_index(self@, *key) == Some(i as nat),
                None => entry_index(self@, *key) is None,
            },
    {
        let ghost ev = self@;
        proof {
            lemma_entries_view(self.pairs@);
            lemma_entry_index(ev, *key);
        }
        let mut i: usize = 0;
        while i < self.pairs.len()
            invariant
                i <= self.pairs@.len(),
                ev == entries_view(self.pairs@),
                ev.len() == self.pairs@.len(),
                forall|j: int| 0 <= j < self.pairs@.len() ==> #[trigger] ev[j].0 == self.pairs@[j].0,
                forall|j: int| 0 <= j < i ==> #[trigger] ev[j].0 != *key,
                match entry_index(ev, *key) {
                    Some(m) => m < ev.len() && ev[m as int].0 == *key && forall|j: int|
                        0 <= j < m ==> #[trigger] ev[j].0 != *key,
                    None => forall|j: int| 0 <= j < ev.len() ==> #[trigger] ev[j].0 != *key,
                },
            decreases self.pairs@.len() - i,
        {
            if self.pairs[i].0 == *key {
                assert(ev[i as int].0 == self.pairs@[i as int].0);
                return Some(i);
            }
            assert(ev[i as int].0 == self.pairs@[i as int].0);
            i = i + 1;
        }
        None
    }

    /// Stores a pair under a key: it replaces what was stored under that key,
    /// else it is added after the others.
    pub fn insert(&mut self, key: HashKey, pair: HashPair)
        ensures
            final(self)@ == entries_with(old(self)@, key, pair.key@, pair.value@),
    {
        proof {
            lemma_entries_view(self.pairs@);
        }
        match self.find(&key) {
            Some(i) => {
                self.pairs.remove(i);
                self.pairs.insert(i, (key, pair));
                proof {
                    lemma_entries_view(self.pairs@);
                    assert(self@ =~= entries_with(old(self)@, key, pair.key@, pair.value@));
                }
            },
            None => {
                let ghost before = self.pairs@;
                self.pairs.push((key, pair));
                proof {
                    assert(self.pairs@.subrange(0, before.len() as int) =~= before);
                }
            },
        }
    }

    /// The pair stored under a key, if any.
    pub fn get(&self, key: &HashKey) -> (r: Option<&HashPair>)
        ensures
            match entry_index(self@, *key) {
                Some(i) => r is Some && r->0.key@ == self@[i as int].1 && r->0.value@ == self@[i as int].2,
                None => r is None,
            },
    {
        proof {
            lemma_entries_view(self.pairs@);
        }
        match self.find(key) {
            Some(i) => Some(&self.pairs[i].1),
            None => None,
        }
    }

    /// How many pairs are stored.
    pub fn len(&self) -> (r: usize)
        ensures
            r == self@.len(),
    {
        proof {
            lemma_entries_view(self.pairs@);
        }
        self.pairs.len()
    }
}

// ---------------------------------------------------------------------------
// Environments
// ---------------------------------------------------------------------------

/// The first index of a binding of `name`.
pub open spec fn name_index(store: Seq<(Seq<char>, SObject)>, name: Seq<char>) -> Option<nat>
    decreases store.len(),
{
    if store.len() == 0 {
        None
    } else {
        match name_index(store.subrange(0, store.len() - 1), name) {
            Some(i) => Some(i),
            None => if store[store.len() - 1].0 == name {
                Some((store.len() - 1) as nat)
            } else {
                None
            },
        }
    }
}

/// No name is bound twice in one scope.
pub open spec fn names_distinct(store: Seq<(Seq<char>, SObject)>) -> bool {
    forall|i: int, j: int| 0 <= i < j < store.len() ==> #[trigger] store[i].0 != #[trigger] store[j].0
}

/// The scope's bindings once `name` is bound to `v`: the binding replaces the
/// one of that name, or goes at the end.
pub open spec fn store_with(store: Seq<(Seq<char>, SObject)>, name: Seq<char>, v: SObject) -> Seq<
    (Seq<char>, SObject),
> {
    match name_index(store, name) {
        Some(i) => store.update(i as int, (name, v)),
        None => store.push((name, v)),
    }
}

/// What a name stands for in an environment: its binding in the innermost
/// scope that binds it.
pub open spec fn env_lookup(env: SEnv, name: Seq<char>) -> Option<SObject>
    decreases env,
{
    match name_index(env.store, name) {
        Some(i) => Some(env.store[i as int].1),
        None => match env.outer {
            Some(o) => env_lookup(*o, name),
            None => None,
        },
    }
}

pub open spec fn opt_object_view(o: Option<Object>) -> Option<SObject> {
    match o {
        Some(x) => Some(x@),
        None => None,
    }
}

proof fn lemma_name_index(store: Seq<(Seq<char>, SObject)>, name: Seq<char>)
    ensures
        match name_index(store, name) {
            Some(i) => i < store.len() && store[i as int].0 == name && forall|j: int|
                0 <= j < i ==> #[trigger] store[j].0 != name,
            None => forall|j: int| 0 <= j < store.len() ==> #[trigger] store[j].0 != name,
        },
    decreases store.len(),
{
    if store.len() > 0 {
        let prefix = store.subrange(0, store.len() - 1);
        lemma_name_index(prefix, name);
        match name_index(prefix, name) {
            Some(i) => {
                assert(prefix[i as int] == store[i as int]);
                assert forall|j: int| 0 <= j < i implies #[trigger] store[j].0 != name by {
                    assert(prefix[j] == store[j]);
                }
            },
            None => {
                assert forall|j: int| 0 <= j < prefix.len() implies #[trigger] store[j].0 != name by {
                    assert(prefix[j] == store[j]);
                }
            },
        }
    }
}

fn find_name(store: &Vec<(String, Object)>, name: &String) -> (r: Option<usize>)
    ensures
        match r {
            Some(i) => i < store@.len() && name_index(store_view(store@), name@) == Some(i as nat),
            None => name_index(store_view(store@), name@) is None,
        },
{
    let ghost sv = store_view(store@);
    proof {
        lemma_store_view(store@);
        lemma_name_index(sv, name@);
    }
    let mut i: usize = 0;
    while i < store.len()
        invariant
            i <= store@.len(),
            sv == store_view(store@),
            sv.len() == store@.len(),
            forall|j: int| 0 <= j < store@.len() ==> #[trigger] sv[j].0 == store@[j].0@,
            forall|j: int| 0 <= j < i ==> #[trigger] sv[j].0 != name@,
            match name_index(sv, name@) {
                Some(m) => m < sv.len() && sv[m as int].0 == name@ && forall|j: int|
                    0 <= j < m ==> #[trigger] sv[j].0 != name@,
                None => forall|j: int| 0 <= j < sv.len() ==> #[trigger] sv[j].0 != name@,
            },
        decreases store@.len() - i,
    {
        if store[i].0 == *name {
            assert(sv[i as int].0 == store@[i as int].0@);
            return Some(i);
        }
        assert(sv[i as int].0 == store@[i as int].0@);
        i = i + 1;
    }
    None
}

impl Environment {
    /// An environment with no bindings and no enclosing scope.
    pub fn new() -> (r: Self)
        ensures
            r@ == (SEnv { store: Seq::empty(), outer: None }),
    {
        let r = Environment { store: Vec::new(), outer: None };
        assert(store_view(r.store@) =~= Seq::<(Seq<char>, SObject)>::empty());
        r
    }

    /// An environment with no bindings of its own, enclosed by `outer`.
    pub fn new_enclosed(outer: Rc<Environment>) -> (r: Self)
        ensures
            r@ == (SEnv { store: Seq::empty(), outer: Some(Box::new((*outer)@)) }),
    {
        let r = Environment { store: Vec::new(), outer: Some(outer) };
        assert(store_view(r.store@) =~= Seq::<(Seq<char>, SObject)>::empty());
        r
    }

    /// A copy of what `name` stands for: its binding in this scope, else in
    /// the enclosing scopes, innermost first.
    pub fn get(&self, name: &str) -> (r: Option<Object>)
        ensures
            opt_object_view(r) == env_lookup(self@, name@),
        decreases self,
    {
        let key = String::from_str(name);
        proof {
            lemma_store_view(self.store@);
        }
        match find_name(&self.store, &key) {
            Some(i) => Some(self.store[i].1.deep_clone()),
            None => match &self.outer {
                Some(o) => o.get(name),
                None => None,
            },
        }
    }

    /// Binds `name` to `val` in this scope and gives `val` back.
    pub fn set(&mut self, name: String, val: Object) -> (r: Object)
        ensures
            r@ == val@,
            final(self)@ == (SEnv { store: store_with(old(self)@.store, name@, val@), outer: old(self)@.outer }),
            names_distinct(old(self)@.store) ==> names_distinct(final(self)@.store),
    {
        let ghost before = self.store@;
        proof {
            lemma_store_view(self.store@);
            lemma_name_index(store_view(self.store@), name@);
        }
        let stored = val.deep_clone();
        match find_name(&self.store, &name) {
            Some(i) => {
                self.store.remove(i);
                self.store.insert(i, (name, stored));
                proof {
                    lemma_store_view(self.store@);
                    assert(store_view(self.store@) =~= store_with(store_view(before), name@, val@));
                }
            },
            None => {
                self.store.push((name, stored));
                proof {
                    assert(self.store@.subrange(0, before.len() as int) =~= before);
                    lemma_store_view(self.store@);
                }
            },
        }
        val
    }
}

// ---------------------------------------------------------------------------
// Laws
// ---------------------------------------------------------------------------

/// After `name` is bound to `v` in a scope, looking `name` up gives `v`.
pub proof fn law_get_after_set(env: SEnv, name: Seq<char>, v: SObject)
    ensures
        env_lookup(SEnv { store: store_with(env.store, name, v), outer: env.outer }, name) == Some(v),
{
    let new_store = store_with(env.store, name, v);
    lemma_name_index(env.store, name);
    lemma_name_index(new_store, name);
    match name_index(env.store, name) {
        Some(i) => {
            assert(new_store[i as int].0 == name);
            if name_index(new_store, name) != Some(i) {
                match name_index(new_store, name) {
                    Some(m) => {
                        if m < i {
                            assert(new_store[m as int] == env.store[m as int]);
                        }
                    },
                    None => {},
                }
            }
        },
        None => {
            let n = env.store.len() as int;
            assert(new_store[n].0 == name);
            match name_index(new_store, name) {
                Some(m) => {
                    if m < n {
                        assert(new_store[m as int] == env.store[m as int]);
                    }
                },
                None => {},
            }
        },
    }
}

/// Binding `name` leaves every other name as it was.
pub proof fn law_set_keeps_other_names(env: SEnv, name: Seq<char>, v: SObject, other: Seq<char>)
    requires
        other != name,
    ensures
        env_lookup(SEnv { store: store_with(env.store, name, v), outer: env.outer }, other)
            == env_lookup(env, other),
{
    let s1 = env.store;
    let s2 = store_with(s1, name, v);
    lemma_name_index(s1, name);
    lemma_name_index(s1, other);
    lemma_name_index(s2, other);
    assert forall|j: int| 0 <= j < s2.len() implies ((#[trigger] s2[j]).0 == other) == (j < s1.len()
        && s1[j].0 == other) && (j < s1.len() && s1[j].0 == other ==> s2[j] == s1[j]) by {
        match name_index(s1, name) {
            Some(i) => {
                if j != i {
                    assert(s2[j] == s1[j]);
                }
            },
            None => {
                if j < s1.len() {
                    assert(s2[j] == s1[j]);
                }
            },
        }
    }
    match name_index(s1, other) {
        Some(m) => {
            assert(s2[m as int].0 == other);
            match name_index(s2, other) {
                Some(m2) => {
                    if m2 < m {
                        assert(s2[m2 as int].0 == other);
                        assert(s1[m2 as int].0 == other);
                    }
                    if m < m2 {
                        assert(s2[m as int].0 == other);
                    }
                },
                None => {
                    assert(s2[m as int].0 == other);
                },
            }
        },
        None => {
            match name_index(s2, other) {
                Some(m2) => {
                    assert(s2[m2 as int].0 == other);
                },
                None => {},
            }
        },
    }
}

/// A scope with no bindings of its own looks every name up in the scope that encloses it.
pub proof fn law_enclosed_lookup(outer: SEnv, name: Seq<char>)
    ensures
        env_lookup(SEnv { store: Seq::empty(), outer: Some(Box::new(outer)) }, name) == env_lookup(
            outer,
            name,
        ),
{
}

/// After a pair is stored under `key`, the hash holds it under `key`.
pub proof fn law_hash_get_after_insert(entries: Seq<(HashKey, SObject, SObject)>, key: HashKey, k: SObject, v: SObject)
    ensures
        match entry_index(entries_with(entries, key, k, v), key) {
            Some(i) => entries_with(entries, key, k, v)[i as int] == (key, k, v),
            None => false,
        },
{
    let e2 = entries_with(entries, key, k, v);
    lemma_entry_index(entries, key);
    lemma_entry_index(e2, key);
    match entry_index(entries, key) {
        Some(i) => {
            assert(e2[i as int].0 == key);
            match entry_index(e2, key) {
                Some(m) => {
                    if m < i {
                        assert(e2[m as int] == entries[m as int]);
                    }
                },
                None => {},
            }
        },
        None => {
            let n = entries.len() as int;
            assert(e2[n].0 == key);
            match entry_index(e2, key) {
                Some(m) => {
                    if m < n {
                        assert(e2[m as int] == entries[m as int]);
                    }
                },
                None => {},
            }
        },
    }
}

/// Storing a pair keeps every key of the hash stored once.
pub proof fn law_hash_keys_stay_distinct(entries: Seq<(HashKey, SObject, SObject)>, key: HashKey, k: SObject, v: SObject)
    requires
        forall|i: int, j: int| 0 <= i < j < entries.len() ==> #[trigger] entries[i].0 != #[trigger] entries[j].0,
    ensures
        ({
            let e2 = entries_with(entries, key, k, v);
            forall|i: int, j: int| 0 <= i < j < e2.len() ==> #[trigger] e2[i].0 != #[trigger] e2[j].0
        }),
{
    lemma_entry_index(entries, key);
}

/// Binding a name keeps every name of the scope bound once.
pub proof fn law_names_stay_distinct(store: Seq<(Seq<char>, SObject)>, name: Seq<char>, v: SObject)
    requires
        names_distinct(store),
    ensures
        names_distinct(store_with(store, name, v)),
{
    lemma_name_index(store, name);
}

/// Objects that are `==` have the same hash key, when they have one.
pub proof fn law_equal_objects_equal_keys(a: SObject, b: SObject)
    requires
        objects_equal(a, b),
    ensures
        key_of(a) == key_of(b),
{
}

/// A hash key records the kind of its object, so objects of different kinds
/// never share a key.
pub proof fn law_key_records_kind(a: SObject, b: SObject)
    requires
        key_of(a) is Some,
        key_of(b) is Some,
        kind_of(a) != kind_of(b),
    ensures
        key_of(a) != key_of(b),
        key_of(a)->0.object_type == kind_of(a),
{
}

/// `==` on objects is symmetric.
pub proof fn law_object_eq_symmetric(a: SObject, b: SObject)
    ensures
        objects_equal(a, b) == objects_equal(b, a),
{
}

/// The keys of integers (of `i64`) and of booleans tell their values apart:
/// two such objects with the same key are equal.
pub proof fn law_scalar_keys_identify(a: SObject, b: SObject)
    requires
        a is Integer || a is Boolean,
        a is Integer ==> i64::MIN <= a->Integer_0 <= i64::MAX,
        b is Integer ==> i64::MIN <= b->Integer_0 <= i64::MAX,
        key_of(a) == key_of(b),
    ensures
        objects_equal(a, b),
{
    if let SObject::Integer(x) = a {
        if let SObject::Integer(y) = b {
            let xi = x as i64;
            let yi = y as i64;
            assert(xi as u64 == yi as u64 ==> xi == yi) by (bit_vector);
        }
    }
}

} // verus!
