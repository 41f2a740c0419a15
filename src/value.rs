use vstd::prelude::*;

verus! {

/// The runtime type of a payload. Two ports are compatible exactly when
/// their value types are equal.
#[derive(Clone, Copy, Debug, PartialEq, Eq, Structural, Hash)]
pub enum ValueType {
    Bool,
    Int,
    UInt,
    Text,
}

/// A payload flowing along a connection, tagged by its runtime type. The
/// payload types form a closed set, the implementors of `ValueTrait`: a
/// value holding any type at all could not be reasoned about.
#[derive(Debug)]
pub enum Value {
    Bool(bool),
    Int(i64),
    UInt(u64),
    Text(String),
}

/// Why a typed read of a value failed.
#[derive(Clone, Copy, Debug, PartialEq, Eq, Structural)]
pub enum ValueError {
    TypeMismatch { expected: ValueType, found: ValueType },
}

/// A payload type that may be stored in a `Value`.
pub trait ValueTrait: Sized {
    spec fn spec_type() -> ValueType;

    spec fn spec_wrap(self) -> Value;

    /// The payload held by `v`, when its type is `Self`'s.
    spec fn spec_from(v: Value) -> Option<Self>;

    /// The value holding `self`; its type is `Self::spec_type()`.
    fn into_value(self) -> (r: Value)
        ensures
            r == self.spec_wrap(),
            r.spec_type() == Self::spec_type(),
    ;

    fn value_type() -> (r: ValueType)
        ensures
            r == Self::spec_type(),
    ;

    /// The payload of `v`, when `v` holds a `Self`.
    fn from_value(v: &Value) -> (r: Option<&Self>)
        ensures
            r.is_some() == Self::spec_from(*v).is_some(),
            r.is_some() ==> Self::spec_from(*v) == Some(*r.unwrap()),
    ;

    /// Wrapping and reading back are inverse, and reading succeeds exactly on
    /// values of this type.
    proof fn lemma_wrap(a: Self, v: Value)
        ensures
            a.spec_wrap().spec_type() == Self::spec_type(),
            Self::spec_from(a.spec_wrap()) == Some(a),
            Self::spec_from(v).is_some() == (v.spec_type() == Self::spec_type()),
            Self::spec_from(v).is_some() ==> Self::spec_from(v).unwrap().spec_wrap() == v,
    ;
}

impl Value {
    pub open spec fn spec_type(&self) -> ValueType {
        match self {
            Value::Bool(_) => ValueType::Bool,
            Value::Int(_) => ValueType::Int,
            Value::UInt(_) => ValueType::UInt,
            Value::Text(_) => ValueType::Text,
        }
    }

    /// The payload of `self` read as a `T`, if its type is `T`'s.
    pub open spec fn spec_downcast<T: ValueTrait>(&self) -> Option<T> {
        T::spec_from(*self)
    }

    pub fn new<T: ValueTrait>(value: T) -> (r: Value)
        ensures
            r == value.spec_wrap(),
            r.spec_type() == T::spec_type(),
    {
        value.into_value()
    }

    pub fn get_type(&self) -> (r: ValueType)
        ensures
            r == self.spec_type(),
    {
        match self {
            Value::Bool(_) => ValueType::Bool,
            Value::Int(_) => ValueType::Int,
            Value::UInt(_) => ValueType::UInt,
            Value::Text(_) => ValueType::Text,
        }
    }

    pub fn try_downcast<T: ValueTrait>(&self) -> (r: Option<&T>)
        ensures
            r.is_some() == (self.spec_type() == T::spec_type()),
            r.is_some() ==> r.unwrap().spec_wrap() == *self,
            r.is_some() ==> self.spec_downcast::<T>() == Some(*r.unwrap()),
            r.is_none() ==> self.spec_downcast::<T>() == None::<T>,
    {
        let r = T::from_value(self);
        proof {
            if r.is_some() {
                T::lemma_wrap(*r.unwrap(), *self);
            } else {
                assert(T::spec_from(*self).is_none());
                if self.spec_type() == T::spec_type() {
                    T::lemma_wrap(T::spec_from(*self).unwrap(), *self);
                }
            }
        }
        r
    }

    pub fn downcast<T: ValueTrait>(&self) -> (r: Result<&T, ValueError>)
        ensures
            r.is_ok() == (self.spec_type() == T::spec_type()),
            r.is_ok() ==> r.unwrap().spec_wrap() == *self,
            r.is_err() ==> r == Err::<&T, ValueError>(
                ValueError::TypeMismatch { expected: T::spec_type(), found: self.spec_type() },
            ),
    {
        match self.try_downcast::<T>() {
            Some(t) => Ok(t),
            None => Err(ValueError::TypeMismatch { expected: T::value_type(), found: self.get_type() }),
        }
    }
}

impl Clone for Value {
    fn clone(&self) -> (r: Value)
        ensures
            r == *self,
    {
        match self {
            Value::Bool(b) => Value::Bool(*b),
            Value::Int(i) => Value::Int(*i),
            Value::UInt(u) => Value::UInt(*u),
            Value::Text(s) => Value::Text(s.clone()),
        }
    }
}

impl ValueType {
    /// The name of the payload type.
    pub open spec fn spec_name(self) -> Seq<char> {
        match self {
            ValueType::Bool => "bool"@,
            ValueType::Int => "i64"@,
            ValueType::UInt => "u64"@,
            ValueType::Text => "alloc::string::String"@,
        }
    }

    pub fn name(&self) -> (r: &'static str)
        ensures
            r@ == self.spec_name(),
    {
        match self {
            ValueType::Bool => "bool",
            ValueType::Int => "i64",
            ValueType::UInt => "u64",
            ValueType::Text => "alloc::string::String",
        }
    }

    /// The value type of payloads of type `T`.
    pub fn new<T: ValueTrait>() -> (r: ValueType)
        ensures
            r == T::spec_type(),
    {
        T::value_type()
    }
}

impl ValueTrait for bool {
    open spec fn spec_type() -> ValueType {
        ValueType::Bool
    }

    open spec fn spec_wrap(self) -> Value {
        Value::Bool(self)
    }

    fn into_value(self) -> (r: Value) {
        Value::Bool(self)
    }

    fn value_type() -> (r: ValueType) {
        ValueType::Bool
    }

    fn from_value(v: &Value) -> (r: Option<&bool>) {
        match v {
            Value::Bool(b) => Some(b),
            _ => None,
        }
    }

    open spec fn spec_from(v: Value) -> Option<bool> {
        match v {
            Value::Bool(x) => Some(x),
            _ => None,
        }
    }

    proof fn lemma_wrap(a: bool, v: Value) {
    }
}

impl ValueTrait for i64 {
    open spec fn spec_type() -> ValueType {
        ValueType::Int
    }

    open spec fn spec_wrap(self) -> Value {
        Value::Int(self)
    }

    fn into_value(self) -> (r: Value) {
        Value::Int(self)
    }

    fn value_type() -> (r: ValueType) {
        ValueType::Int
    }

    fn from_value(v: &Value) -> (r: Option<&i64>) {
        match v {
            Value::Int(i) => Some(i),
            _ => None,
        }
    }

    open spec fn spec_from(v: Value) -> Option<i64> {
        match v {
            Value::Int(x) => Some(x),
            _ => None,
        }
    }

    proof fn lemma_wrap(a: i64, v: Value) {
    }
}

impl ValueTrait for u64 {
    open spec fn spec_type() -> ValueType {
        ValueType::UInt
    }

    open spec fn spec_wrap(self) -> Value {
        Value::UInt(self)
    }

    fn into_value(self) -> (r: Value) {
        Value::UInt(self)
    }

    fn value_type() -> (r: ValueType) {
        ValueType::UInt
    }

    fn from_value(v: &Value) -> (r: Option<&u64>) {
        match v {
            Value::UInt(u) => Some(u),
            _ => None,
        }
    }

    open spec fn spec_from(v: Value) -> Option<u64> {
        match v {
            Value::UInt(x) => Some(x),
            _ => None,
        }
    }

    proof fn lemma_wrap(a: u64, v: Value) {
    }
}

impl ValueTrait for String {
    open spec fn spec_type() -> ValueType {
        ValueType::Text
    }

    open spec fn spec_wrap(self) -> Value {
        Value::Text(self)
    }

    fn into_value(self) -> (r: Value) {
        Value::Text(self)
    }

    fn value_type() -> (r: ValueType) {
        ValueType::Text
    }

    fn from_value(v: &Value) -> (r: Option<&String>) {
        match v {
            Value::Text(s) => Some(s),
            _ => None,
        }
    }

    open spec fn spec_from(v: Value) -> Option<String> {
        match v {
            Value::Text(x) => Some(x),
            _ => None,
        }
    }

    proof fn lemma_wrap(a: String, v: Value) {
    }
}

/// A value built from a payload of type `T` reads back as that payload, and
/// reading it as any other payload type fails.
pub proof fn lemma_value_round_trip<T: ValueTrait, U: ValueTrait>(payload: T)
    ensures
        payload.spec_wrap().spec_downcast::<T>() == Some(payload),
        U::spec_type() != T::spec_type() ==> payload.spec_wrap().spec_downcast::<U>() == None::<U>,
{
    let v = payload.spec_wrap();
    T::lemma_wrap(payload, v);
    if U::spec_type() != T::spec_type() {
        U::lemma_wrap(U::spec_from(v).unwrap(), v);
    }
}

} // verus!
