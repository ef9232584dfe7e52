//! The objects that live in the heap.
use crate::error::Span;
use crate::table::Table;
use crate::value::{Type, Value};
use vstd::prelude::*;
use vstd::utf8::encode_utf8;

verus! {

/// The code of a function: its bytes, the constants that they name, and for
/// each byte the stretch of source that it came from.
pub struct Chunk {
    pub code: Vec<u8>,
    pub constants: Vec<Value>,
    pub spans: Vec<Span>,
}

pub struct StringObject {
    pub value: String,
}

pub struct ObjectFunction {
    /// The place of the string that names the function.
    pub name: usize,
    pub arity_count: u8,
    pub upvalue_count: u16,
    pub chunk: Chunk,
}

pub struct ClosureObject {
    pub function: usize,
    pub upvalues: Vec<usize>,
}

pub struct UpvalueObject {
    pub value: Value,
}

pub struct StructObject {
    pub name: usize,
    /// The methods; the value of each is a closure.
    pub methods: Table,
    /// The fields. The instances of a struct share them.
    pub fields: Table,
}

pub struct InstanceObject {
    pub struct_: usize,
    pub fields: Table,
}

pub struct BoundMethodObject {
    pub receiver: usize,
    pub method: usize,
}

pub struct ArrayObject {
    pub values: Vec<Value>,
    /// The type of the elements.
    pub value_type: Type,
}

/// A method that every array has.
#[derive(Clone, Copy, Debug, PartialEq, Eq, Structural)]
pub enum ArrayMethod {
    Push,
    Pop,
    Get,
    Len,
    Type,
}

pub struct BoundArrayMethodObject {
    pub array: usize,
    pub method: ArrayMethod,
}

/// A function that the machine brings along.
#[derive(Clone, Copy, Debug, PartialEq, Eq, Structural)]
pub enum Native {
    Clock,
    RandomNumber,
}

/// An object of the heap.
pub enum Object {
    String(StringObject),
    Function(ObjectFunction),
    Closure(ClosureObject),
    Upvalue(UpvalueObject),
    Struct(StructObject),
    Instance(InstanceObject),
    BoundMethod(BoundMethodObject),
    Array(ArrayObject),
    BoundArrayMethod(BoundArrayMethodObject),
    Native(Native),
}

/// What a function is made of.
#[verifier::ext_equal]
pub struct Function {
    pub name: usize,
    pub arity: u8,
    pub upvalues: u16,
    pub code: Seq<u8>,
    pub constants: Seq<Value>,
    pub spans: Seq<Span>,
}

/// What an object holds.
#[allow(inconsistent_fields)]
#[verifier::ext_equal]
pub enum Obj {
    String { text: Seq<char> },
    Function { function: Function },
    Closure { function: usize, upvalues: Seq<usize> },
    Upvalue { value: Value },
    Struct { name: usize, methods: Map<usize, Value>, fields: Map<usize, Value> },
    Instance { struct_: usize, fields: Map<usize, Value> },
    BoundMethod { receiver: usize, method: usize },
    Array { values: Seq<Value>, value_type: Type },
    BoundArrayMethod { array: usize, method: ArrayMethod },
    Native { native: Native },
}

impl View for ObjectFunction {
    type V = Function;

    open spec fn view(&self) -> Function {
        Function {
            name: self.name,
            arity: self.arity_count,
            upvalues: self.upvalue_count,
            code: self.chunk.code@,
            constants: self.chunk.constants@,
            spans: self.chunk.spans@,
        }
    }
}

impl View for Object {
    type V = Obj;

    open spec fn view(&self) -> Obj {
        match self {
            Object::String(o) => Obj::String { text: o.value@ },
            Object::Function(o) => Obj::Function { function: o@ },
            Object::Closure(o) => Obj::Closure { function: o.function, upvalues: o.upvalues@ },
            Object::Upvalue(o) => Obj::Upvalue { value: o.value },
            Object::Struct(o) => {
                Obj::Struct { name: o.name, methods: o.methods@, fields: o.fields@ }
            },
            Object::Instance(o) => Obj::Instance { struct_: o.struct_, fields: o.fields@ },
            Object::BoundMethod(o) => Obj::BoundMethod { receiver: o.receiver, method: o.method },
            Object::Array(o) => Obj::Array { values: o.values@, value_type: o.value_type },
            Object::BoundArrayMethod(o) => {
                Obj::BoundArrayMethod { array: o.array, method: o.method }
            },
            Object::Native(native) => Obj::Native { native: *native },
        }
    }
}

/// The type that a program sees in an object.
pub open spec fn object_type(obj: Obj) -> Type {
    match obj {
        Obj::String { .. } => Type::String,
        Obj::Function { .. } => Type::Function,
        Obj::Closure { .. } => Type::Function,
        Obj::Upvalue { .. } => Type::Upvalue,
        Obj::Struct { .. } => Type::Struct,
        Obj::Instance { .. } => Type::Instance,
        Obj::BoundMethod { .. } => Type::Function,
        Obj::Array { .. } => Type::Array,
        Obj::BoundArrayMethod { .. } => Type::Function,
        Obj::Native { .. } => Type::Function,
    }
}

/// Whether a table has the place as a name or as a value.
pub open spec fn table_mentions(table: Map<usize, Value>, place: usize) -> bool {
    table.contains_key(place) || table.contains_value(Value::Object(place))
}

/// Whether an object refers to the place.
pub open spec fn mentions(obj: Obj, place: usize) -> bool {
    match obj {
        Obj::String { .. } => false,
        Obj::Function { function } => {
            place == function.name || function.constants.contains(Value::Object(place))
        },
        Obj::Closure { function, upvalues } => place == function || upvalues.contains(place),
        Obj::Upvalue { value } => value == Value::Object(place),
        Obj::Struct { name, methods, fields } => {
            place == name || table_mentions(methods, place) || table_mentions(fields, place)
        },
        Obj::Instance { struct_, fields } => place == struct_ || table_mentions(fields, place),
        Obj::BoundMethod { receiver, method } => place == receiver || place == method,
        Obj::Array { values, .. } => values.contains(Value::Object(place)),
        Obj::BoundArrayMethod { array, .. } => place == array,
        Obj::Native { .. } => false,
    }
}

/// What an object takes up, its contents left aside.
pub const OBJECT_BYTES: usize = 64;

/// What a value takes up.
pub const VALUE_BYTES: usize = 16;

/// What a stretch of source takes up.
pub const SPAN_BYTES: usize = 16;

/// What a place takes up.
pub const PLACE_BYTES: usize = 8;

/// What an entry of a table takes up.
pub const ENTRY_BYTES: usize = 24;

/// A number of bytes, as far as a machine can count it.
pub open spec fn capped(bytes: nat) -> usize {
    if bytes <= usize::MAX {
        bytes as usize
    } else {
        usize::MAX
    }
}

/// How many bytes a table takes up.
pub open spec fn table_bytes(table: Map<usize, Value>) -> nat {
    table.dom().len() * ENTRY_BYTES as nat
}

/// How many bytes an object takes up.
pub open spec fn object_bytes(obj: Obj) -> nat {
    OBJECT_BYTES as nat + match obj {
        Obj::String { text } => encode_utf8(text).len(),
        Obj::Function { function } => function.code.len() + function.constants.len()
            * VALUE_BYTES as nat + function.spans.len() * SPAN_BYTES as nat,
        Obj::Closure { upvalues, .. } => upvalues.len() * PLACE_BYTES as nat,
        Obj::Struct { methods, fields, .. } => table_bytes(methods) + table_bytes(fields),
        Obj::Instance { fields, .. } => table_bytes(fields),
        Obj::Array { values, .. } => values.len() * VALUE_BYTES as nat,
        _ => 0,
    }
}

pub proof fn lemma_capped_sum(a: nat, b: nat)
    ensures
        capped(capped(a) as nat + capped(b) as nat) == capped(a + b),
{
}

/// The sum of two numbers of bytes.
pub fn add_capped(a: usize, b: usize) -> (sum: usize)
    ensures
        sum == capped(a as nat + b as nat),
{
    a.saturating_add(b)
}

/// The bytes of so many things that each take up a unit.
pub fn times_capped(count: usize, unit: usize) -> (bytes: usize)
    ensures
        bytes == capped(count as nat * unit as nat),
{
    match count.checked_mul(unit) {
        Some(bytes) => bytes,
        None => usize::MAX,
    }
}

/// How many bytes a table takes up, as far as that can be counted.
fn count_table(table: &Table) -> (bytes: usize)
    ensures
        bytes == capped(table_bytes(table@)),
{
    let entries = table.entries();
    proof {
        let names = entries@.map_values(|entry: (usize, Value)| entry.0);
        assert forall|i: int, j: int| 0 <= i < names.len() && 0 <= j < names.len() && i
            != j implies names[i] != names[j] by {
            assert(entries@.contains((entries@[i].0, entries@[i].1)));
            assert(entries@.contains((entries@[j].0, entries@[j].1)));
        }
        assert(names.no_duplicates());
        assert forall|name: usize| names.to_set().contains(name) == table@.dom().contains(name) by {
            if table@.contains_key(name) {
                assert(entries@.contains((name, table@[name])));
                let i = choose|i: int|
                    0 <= i < entries@.len() && entries@[i] == (name, table@[name]);
                assert(names[i] == name);
            }
            if names.contains(name) {
                let i = choose|i: int| 0 <= i < names.len() && names[i] == name;
                assert(entries@.contains((entries@[i].0, entries@[i].1)));
            }
        }
        assert(names.to_set() =~= table@.dom());
        names.unique_seq_to_set();
    }
    times_capped(entries.len(), ENTRY_BYTES)
}

/// The method of an array that has the name.
pub open spec fn array_method(name: Seq<char>) -> Option<ArrayMethod> {
    if name == "push"@ {
        Some(ArrayMethod::Push)
    } else if name == "pop"@ {
        Some(ArrayMethod::Pop)
    } else if name == "get"@ {
        Some(ArrayMethod::Get)
    } else if name == "len"@ {
        Some(ArrayMethod::Len)
    } else if name == "type"@ {
        Some(ArrayMethod::Type)
    } else {
        None
    }
}

/// The method of an array that has the name.
pub fn get_method(name: &String) -> (method: Option<ArrayMethod>)
    ensures
        method == array_method(name@),
{
    if *name == "push".to_string() {
        Some(ArrayMethod::Push)
    } else if *name == "pop".to_string() {
        Some(ArrayMethod::Pop)
    } else if *name == "get".to_string() {
        Some(ArrayMethod::Get)
    } else if *name == "len".to_string() {
        Some(ArrayMethod::Len)
    } else if *name == "type".to_string() {
        Some(ArrayMethod::Type)
    } else {
        None
    }
}

proof fn lemma_push_contains<A>(s: Seq<A>, a: A)
    ensures
        forall|b: A| #[trigger] s.push(a).contains(b) <==> s.contains(b) || b == a,
{
    assert forall|b: A| #[trigger] s.push(a).contains(b) <==> s.contains(b) || b == a by {
        if s.contains(b) {
            let i = choose|i: int| 0 <= i < s.len() && s[i] == b;
            assert(s.push(a)[i] == b);
        }
        if b == a {
            assert(s.push(a)[s.len() as int] == b);
        }
    }
}

/// Adds the place that a value refers to, if it refers to one.
pub fn add_value(places: &mut Vec<usize>, value: Value)
    ensures
        forall|p: usize| #[trigger]
            final(places)@.contains(p) <==> old(places)@.contains(p) || value == Value::Object(p),
{
    if let Value::Object(place) = value {
        proof {
            lemma_push_contains(places@, place);
        }
        places.push(place);
    }
}

/// Adds the places that values refer to.
pub fn add_values(places: &mut Vec<usize>, values: &Vec<Value>)
    ensures
        forall|p: usize| #[trigger]
            final(places)@.contains(p) <==> old(places)@.contains(p) || values@.contains(
                Value::Object(p),
            ),
{
    let ghost before = places@;
    let mut i: usize = 0;
    while i < values.len()
        invariant
            i <= values.len(),
            forall|p: usize| #[trigger]
                places@.contains(p) <==> before.contains(p) || values@.take(i as int).contains(
                    Value::Object(p),
                ),
        decreases values.len() - i,
    {
        proof {
            lemma_push_contains(values@.take(i as int), values@[i as int]);
            assert(values@.take(i + 1) =~= values@.take(i as int).push(values@[i as int]));
        }
        add_value(places, values[i]);
        i = i + 1;
    }
    assert(values@.take(i as int) =~= values@);
}

/// Adds the places that the entries of a table refer to.
pub fn add_table(places: &mut Vec<usize>, table: &Table)
    ensures
        forall|p: usize| #[trigger]
            final(places)@.contains(p) <==> old(places)@.contains(p) || table_mentions(table@, p),
{
    let ghost before = places@;
    let entries = table.entries();
    let mut i: usize = 0;
    while i < entries.len()
        invariant
            i <= entries.len(),
            forall|p: usize| #[trigger]
                places@.contains(p) <==> before.contains(p) || (exists|j: int|
                    0 <= j < i && (#[trigger] entries@[j]).0 == p) || (exists|j: int|
                    0 <= j < i && (#[trigger] entries@[j]).1 == Value::Object(p)),
        decreases entries.len() - i,
    {
        let (name, value) = entries[i];
        let ghost places_before = places@;
        proof {
            lemma_push_contains(places@, name);
        }
        places.push(name);
        add_value(places, value);
        proof {
            assert forall|p: usize| #[trigger] places@.contains(p) <==> before.contains(p) || (
            exists|j: int| 0 <= j < i + 1 && (#[trigger] entries@[j]).0 == p) || (exists|j: int|
                0 <= j < i + 1 && (#[trigger] entries@[j]).1 == Value::Object(p)) by {
                assert(places@.contains(p) <==> places_before.contains(p) || p == name || value
                    == Value::Object(p));
            }
        }
        i = i + 1;
    }
    proof {
        assert forall|p: usize| #[trigger] places@.contains(p) <==> before.contains(p)
            || table_mentions(table@, p) by {
            if table@.contains_key(p) {
                assert(entries@.contains((p, table@[p])));
                let j = choose|j: int| 0 <= j < entries@.len() && entries@[j] == (p, table@[p]);
                assert(entries@[j].0 == p);
            }
            if table@.contains_value(Value::Object(p)) {
                let k = choose|k: usize| #[trigger]
                    table@.contains_key(k) && table@[k] == Value::Object(p);
                assert(entries@.contains((k, Value::Object(p))));
                let j = choose|j: int|
                    0 <= j < entries@.len() && entries@[j] == (k, Value::Object(p));
                assert(entries@[j].1 == Value::Object(p));
            }
            if exists|j: int| 0 <= j < i && (#[trigger] entries@[j]).0 == p {
                let j = choose|j: int| 0 <= j < i && (#[trigger] entries@[j]).0 == p;
                assert(entries@.contains((p, entries@[j].1)));
            }
            if exists|j: int| 0 <= j < i && (#[trigger] entries@[j]).1 == Value::Object(p) {
                let j = choose|j: int|
                    0 <= j < i && (#[trigger] entries@[j]).1 == Value::Object(p);
                assert(entries@.contains((entries@[j].0, Value::Object(p))));
                assert(table@.contains_key(entries@[j].0));
            }
        }
    }
}

impl Object {
    /// The type that a program sees in an object.
    pub fn type_(&self) -> (type_: Type)
        ensures
            type_ == object_type(self@),
    {
        match self {
            Object::String(_) => Type::String,
            Object::Function(_) => Type::Function,
            Object::Closure(_) => Type::Function,
            Object::Upvalue(_) => Type::Upvalue,
            Object::Struct(_) => Type::Struct,
            Object::Instance(_) => Type::Instance,
            Object::BoundMethod(_) => Type::Function,
            Object::Array(_) => Type::Array,
            Object::BoundArrayMethod(_) => Type::Function,
            Object::Native(_) => Type::Function,
        }
    }

    /// How many bytes an object takes up, as far as that can be counted.
    pub fn bytes(&self) -> (bytes: usize)
        ensures
            bytes == capped(object_bytes(self@)),
    {
        proof {
            lemma_capped_sum(
                OBJECT_BYTES as nat,
                (object_bytes(self@) - OBJECT_BYTES) as nat,
            );
        }
        let contents: usize = match self {
            Object::String(o) => o.value.as_str().as_bytes().len(),
            Object::Function(o) => {
                proof {
                    let code = o.chunk.code@.len();
                    let constants = o.chunk.constants@.len() * VALUE_BYTES as nat;
                    lemma_capped_sum(code, constants);
                    lemma_capped_sum(code + constants, o.chunk.spans@.len() * SPAN_BYTES as nat);
                }
                let constants: usize = times_capped(o.chunk.constants.len(), VALUE_BYTES);
                let spans: usize = times_capped(o.chunk.spans.len(), SPAN_BYTES);
                add_capped(add_capped(o.chunk.code.len(), constants), spans)
            },
            Object::Closure(o) => times_capped(o.upvalues.len(), PLACE_BYTES),
            Object::Struct(o) => {
                proof {
                    lemma_capped_sum(table_bytes(o.methods@), table_bytes(o.fields@));
                }
                add_capped(count_table(&o.methods), count_table(&o.fields))
            },
            Object::Instance(o) => count_table(&o.fields),
            Object::Array(o) => times_capped(o.values.len(), VALUE_BYTES),
            _ => 0,
        };
        add_capped(OBJECT_BYTES, contents)
    }

    /// The places that an object refers to.
    pub fn places(&self) -> (places: Vec<usize>)
        ensures
            forall|p: usize| #[trigger] places@.contains(p) <==> mentions(self@, p),
    {
        let mut places: Vec<usize> = Vec::new();
        match self {
            Object::String(_) => {},
            Object::Function(o) => {
                add_value(&mut places, Value::Object(o.name));
                add_values(&mut places, &o.chunk.constants);
            },
            Object::Closure(o) => {
                places = o.upvalues.clone();
                assert(places@ =~= o.upvalues@);
                add_value(&mut places, Value::Object(o.function));
            },
            Object::Upvalue(o) => {
                add_value(&mut places, o.value);
            },
            Object::Struct(o) => {
                add_value(&mut places, Value::Object(o.name));
                add_table(&mut places, &o.methods);
                add_table(&mut places, &o.fields);
            },
            Object::Instance(o) => {
                add_value(&mut places, Value::Object(o.struct_));
                add_table(&mut places, &o.fields);
            },
            Object::BoundMethod(o) => {
                add_value(&mut places, Value::Object(o.receiver));
                add_value(&mut places, Value::Object(o.method));
            },
            Object::Array(o) => {
                add_values(&mut places, &o.values);
            },
            Object::BoundArrayMethod(o) => {
                add_value(&mut places, Value::Object(o.array));
            },
            Object::Native(_) => {},
        }
        places
    }
}

} // verus!
