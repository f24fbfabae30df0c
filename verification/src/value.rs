//! The value model: a closed tagged union with recursive containers.

use crate::mapping::{has_key, index_of, KvsMap};
use vstd::prelude::*;
use vstd::std_specs::cmp::PartialEqSpecImpl;

verus! {

/// What a stored value is, as a mathematical object.
///
/// A floating-point number is held by its IEEE-754 bit pattern, so that
/// equality of values is equality of bits.
pub enum ValueModel {
    I32(i32),
    U32(u32),
    I64(i64),
    U64(u64),
    F64(u64),
    Boolean(bool),
    String(Seq<char>),
    Null,
    Array(Seq<ValueModel>),
    /// The entries of an object in the order in which they are kept.
    Object(Seq<(Seq<char>, ValueModel)>),
}

/// What a value means when the order of an object's entries is left
/// aside: two values are structurally equal when they mean the same.
pub enum Meaning {
    I32(i32),
    U32(u32),
    I64(i64),
    U64(u64),
    F64(u64),
    Boolean(bool),
    String(Seq<char>),
    Null,
    Array(Seq<Meaning>),
    Object(Map<Seq<char>, Meaning>),
}

/// A sequence of key/value entries, as a mathematical object.
pub type EntriesModel = Seq<(Seq<char>, ValueModel)>;

/// A storable value.
#[derive(Debug, Eq)]
pub enum Value {
    I32(i32),
    U32(u32),
    I64(i64),
    U64(u64),
    /// The IEEE-754 bit pattern of a double.
    F64(u64),
    Boolean(bool),
    String(String),
    Null,
    Array(Vec<Value>),
    Object(KvsMap),
}

impl Value {
    /// The mathematical content of this value.
    pub open spec fn model(&self) -> ValueModel
        decreases self,
    {
        match self {
            Value::I32(x) => ValueModel::I32(*x),
            Value::U32(x) => ValueModel::U32(*x),
            Value::I64(x) => ValueModel::I64(*x),
            Value::U64(x) => ValueModel::U64(*x),
            Value::F64(x) => ValueModel::F64(*x),
            Value::Boolean(x) => ValueModel::Boolean(*x),
            Value::String(s) => ValueModel::String(s@),
            Value::Null => ValueModel::Null,
            Value::Array(items) => ValueModel::Array(
                Seq::new(
                    items@.len(),
                    |i: int|
                        if 0 <= i < items@.len() {
                            items@[i].model()
                        } else {
                            ValueModel::Null
                        },
                ),
            ),
            Value::Object(m) => ValueModel::Object(m.entries()),
        }
    }
}

impl PartialEq for Value {
    fn eq(&self, other: &Value) -> (r: bool) {
        self.equals(other)
    }
}

impl PartialEqSpecImpl for Value {
    open spec fn obeys_eq_spec() -> bool {
        true
    }

    open spec fn eq_spec(&self, other: &Value) -> bool {
        meaning(self.model()) == meaning(other.model())
    }
}

impl From<i32> for Value {
    fn from(x: i32) -> (r: Value) {
        Value::I32(x)
    }
}

impl vstd::std_specs::convert::FromSpecImpl<i32> for Value {
    open spec fn obeys_from_spec() -> bool {
        true
    }

    open spec fn from_spec(x: i32) -> Value {
        Value::I32(x)
    }
}

impl From<u32> for Value {
    fn from(x: u32) -> (r: Value) {
        Value::U32(x)
    }
}

impl vstd::std_specs::convert::FromSpecImpl<u32> for Value {
    open spec fn obeys_from_spec() -> bool {
        true
    }

    open spec fn from_spec(x: u32) -> Value {
        Value::U32(x)
    }
}

impl From<i64> for Value {
    fn from(x: i64) -> (r: Value) {
        Value::I64(x)
    }
}

impl vstd::std_specs::convert::FromSpecImpl<i64> for Value {
    open spec fn obeys_from_spec() -> bool {
        true
    }

    open spec fn from_spec(x: i64) -> Value {
        Value::I64(x)
    }
}

impl From<u64> for Value {
    fn from(x: u64) -> (r: Value) {
        Value::U64(x)
    }
}

impl vstd::std_specs::convert::FromSpecImpl<u64> for Value {
    open spec fn obeys_from_spec() -> bool {
        true
    }

    open spec fn from_spec(x: u64) -> Value {
        Value::U64(x)
    }
}

impl From<bool> for Value {
    fn from(x: bool) -> (r: Value) {
        Value::Boolean(x)
    }
}

impl vstd::std_specs::convert::FromSpecImpl<bool> for Value {
    open spec fn obeys_from_spec() -> bool {
        true
    }

    open spec fn from_spec(x: bool) -> Value {
        Value::Boolean(x)
    }
}

impl From<String> for Value {
    fn from(x: String) -> (r: Value) {
        Value::String(x)
    }
}

impl vstd::std_specs::convert::FromSpecImpl<String> for Value {
    open spec fn obeys_from_spec() -> bool {
        true
    }

    open spec fn from_spec(x: String) -> Value {
        Value::String(x)
    }
}

impl From<Vec<Value>> for Value {
    fn from(x: Vec<Value>) -> (r: Value) {
        Value::Array(x)
    }
}

impl vstd::std_specs::convert::FromSpecImpl<Vec<Value>> for Value {
    open spec fn obeys_from_spec() -> bool {
        true
    }

    open spec fn from_spec(x: Vec<Value>) -> Value {
        Value::Array(x)
    }
}

impl From<KvsMap> for Value {
    fn from(x: KvsMap) -> (r: Value) {
        Value::Object(x)
    }
}

impl vstd::std_specs::convert::FromSpecImpl<KvsMap> for Value {
    open spec fn obeys_from_spec() -> bool {
        true
    }

    open spec fn from_spec(x: KvsMap) -> Value {
        Value::Object(x)
    }
}

impl From<()> for Value {
    fn from(x: ()) -> (r: Value) {
        Value::Null
    }
}

impl vstd::std_specs::convert::FromSpecImpl<()> for Value {
    open spec fn obeys_from_spec() -> bool {
        true
    }

    open spec fn from_spec(x: ()) -> Value {
        Value::Null
    }
}

/// What a value means.
pub open spec fn meaning(v: ValueModel) -> Meaning
    decreases v, 0int,
{
    match v {
        ValueModel::I32(x) => Meaning::I32(x),
        ValueModel::U32(x) => Meaning::U32(x),
        ValueModel::I64(x) => Meaning::I64(x),
        ValueModel::U64(x) => Meaning::U64(x),
        ValueModel::F64(x) => Meaning::F64(x),
        ValueModel::Boolean(x) => Meaning::Boolean(x),
        ValueModel::String(s) => Meaning::String(s),
        ValueModel::Null => Meaning::Null,
        ValueModel::Array(items) => Meaning::Array(
            Seq::new(
                items.len(),
                |i: int|
                    if 0 <= i < items.len() {
                        meaning(items[i])
                    } else {
                        Meaning::Null
                    },
            ),
        ),
        ValueModel::Object(entries) => Meaning::Object(meaning_map(entries)),
    }
}

/// What a list of entries means: each key with what its value means.
pub open spec fn meaning_map(entries: EntriesModel) -> Map<Seq<char>, Meaning>
    decreases entries, 1int,
{
    Map::new(
        |k: Seq<char>| has_key(entries, k),
        |k: Seq<char>|
            if has_key(entries, k) {
                meaning(entries[index_of(entries, k)].1)
            } else {
                Meaning::Null
            },
    )
}

/// With distinct keys, the key of each entry means what its value means.
pub proof fn lemma_meaning_entry(entries: EntriesModel, i: int)
    requires
        forall|a: int, c: int|
            0 <= a < c < entries.len() ==> (#[trigger] entries[a]).0 != (#[trigger] entries[c]).0,
        0 <= i < entries.len(),
    ensures
        has_key(entries, entries[i].0),
        meaning_map(entries).contains_key(entries[i].0),
        meaning_map(entries)[entries[i].0] == meaning(entries[i].1),
{
    let k = entries[i].0;
    let j = index_of(entries, k);
    assert(0 <= j < entries.len() && entries[j].0 == k);
    if j < i {
        assert(entries[j].0 != entries[i].0);
    } else if i < j {
        assert(entries[i].0 != entries[j].0);
    }
}

/// The models of a sequence of values, one for one.
pub open spec fn models_of(items: Seq<Value>) -> Seq<ValueModel> {
    Seq::new(items.len(), |i: int| items[i].model())
}

/// The models of a sequence of entries, one for one.
pub open spec fn entries_of(entries: Seq<(String, Value)>) -> EntriesModel
    decreases entries,
{
    Seq::new(
        entries.len(),
        |i: int|
            if 0 <= i < entries.len() {
                (entries[i].0@, entries[i].1.model())
            } else {
                (Seq::empty(), ValueModel::Null)
            },
    )
}

/// The model of an array is the models of its items.
pub proof fn lemma_array_model(v: Value)
    ensures
        v matches Value::Array(items) ==> v.model() == ValueModel::Array(models_of(items@)),
{
    match v {
        Value::Array(items) => {
            assert(v.model()->Array_0 =~= models_of(items@));
        },
        _ => {},
    }
}

pub const TAG_I32: u8 = 0;

pub const TAG_U32: u8 = 1;

pub const TAG_I64: u8 = 2;

pub const TAG_U64: u8 = 3;

pub const TAG_F64: u8 = 4;

pub const TAG_BOOLEAN: u8 = 5;

pub const TAG_STRING: u8 = 6;

pub const TAG_NULL: u8 = 7;

pub const TAG_ARRAY: u8 = 8;

pub const TAG_OBJECT: u8 = 9;

/// The tag that tells the variant of a value.
pub open spec fn tag_of(v: ValueModel) -> u8 {
    match v {
        ValueModel::I32(_) => TAG_I32,
        ValueModel::U32(_) => TAG_U32,
        ValueModel::I64(_) => TAG_I64,
        ValueModel::U64(_) => TAG_U64,
        ValueModel::F64(_) => TAG_F64,
        ValueModel::Boolean(_) => TAG_BOOLEAN,
        ValueModel::String(_) => TAG_STRING,
        ValueModel::Null => TAG_NULL,
        ValueModel::Array(_) => TAG_ARRAY,
        ValueModel::Object(_) => TAG_OBJECT,
    }
}

impl Value {
    /// The tag that tells the variant of this value.
    pub fn type_tag(&self) -> (t: u8)
        ensures
            t == tag_of(self.model()),
    {
        match self {
            Value::I32(_) => TAG_I32,
            Value::U32(_) => TAG_U32,
            Value::I64(_) => TAG_I64,
            Value::U64(_) => TAG_U64,
            Value::F64(_) => TAG_F64,
            Value::Boolean(_) => TAG_BOOLEAN,
            Value::String(_) => TAG_STRING,
            Value::Null => TAG_NULL,
            Value::Array(_) => TAG_ARRAY,
            Value::Object(_) => TAG_OBJECT,
        }
    }

    /// A copy of this value, children included.
    pub fn duplicate(&self) -> (r: Value)
        ensures
            r.model() == self.model(),
        decreases self,
    {
        match self {
            Value::I32(x) => Value::I32(*x),
            Value::U32(x) => Value::U32(*x),
            Value::I64(x) => Value::I64(*x),
            Value::U64(x) => Value::U64(*x),
            Value::F64(x) => Value::F64(*x),
            Value::Boolean(x) => Value::Boolean(*x),
            Value::String(s) => Value::String(s.clone()),
            Value::Null => Value::Null,
            Value::Array(items) => {
                let mut out: Vec<Value> = Vec::new();
                let mut i: usize = 0;
                while i < items.len()
                    invariant
                        i <= items.len(),
                        out@.len() == i,
                        matches!(*self, Value::Array(_)),
                        self->Array_0 == *items,
                        forall|j: int| 0 <= j < i ==> (#[trigger] out@[j]).model() == items@[j].model(),
                    decreases items.len() - i,
                {
                    out.push(items[i].duplicate());
                    i += 1;
                }
                let r = Value::Array(out);
                proof {
                    lemma_array_model(r);
                    lemma_array_model(*self);
                    assert(models_of(r->Array_0@) =~= models_of(items@));
                }
                r
            },
            Value::Object(m) => Value::Object(m.duplicate()),
        }
    }

    /// Structural equality: the same variant with the same content.
    /// Arrays are compared item by item, objects key by key, whatever
    /// the order of their entries. Values of different variants are
    /// never equal.
    pub fn equals(&self, other: &Value) -> (r: bool)
        ensures
            r == (meaning(self.model()) == meaning(other.model())),
        decreases self,
    {
        match (self, other) {
            (Value::I32(a), Value::I32(b)) => *a == *b,
            (Value::U32(a), Value::U32(b)) => *a == *b,
            (Value::I64(a), Value::I64(b)) => *a == *b,
            (Value::U64(a), Value::U64(b)) => *a == *b,
            (Value::F64(a), Value::F64(b)) => *a == *b,
            (Value::Boolean(a), Value::Boolean(b)) => *a == *b,
            (Value::String(a), Value::String(b)) => *a == *b,
            (Value::Null, Value::Null) => true,
            (Value::Array(a), Value::Array(b)) => {
                proof {
                    lemma_array_model(*self);
                    lemma_array_model(*other);
                }
                let ghost ma = meaning(self.model())->Array_0;
                let ghost mb = meaning(other.model())->Array_0;
                if a.len() != b.len() {
                    assert(ma.len() != mb.len());
                    return false;
                }
                let mut i: usize = 0;
                while i < a.len()
                    invariant
                        i <= a.len(),
                        a.len() == b.len(),
                        matches!(*self, Value::Array(_)),
                        self->Array_0 == *a,
                        meaning(self.model()) == Meaning::Array(ma),
                        meaning(other.model()) == Meaning::Array(mb),
                        ma.len() == a.len(),
                        mb.len() == b.len(),
                        forall|j: int|
                            0 <= j < a.len() ==> #[trigger] ma[j] == meaning(a@[j].model()),
                        forall|j: int|
                            0 <= j < b.len() ==> #[trigger] mb[j] == meaning(b@[j].model()),
                        forall|j: int| 0 <= j < i ==> #[trigger] ma[j] == mb[j],
                    decreases a.len() - i,
                {
                    if !a[i].equals(&b[i]) {
                        assert(ma[i as int] != mb[i as int]);
                        return false;
                    }
                    i += 1;
                }
                assert(ma =~= mb);
                true
            },
            (Value::Object(a), Value::Object(b)) => a.equals(b),
            _ => false,
        }
    }
}

} // verus!
