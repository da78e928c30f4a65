//! The values that an export string holds, and their model.

use crate::error::CodecError;
use vstd::prelude::*;
use vstd::slice::slice_to_vec;

verus! {

/// A number as the model sees it.
pub enum Number {
    /// A double-precision number, by its IEEE 754 bit pattern.
    Bits(u64),
    /// The number that decimal text spells.
    Decimal(Seq<u8>),
    /// A mantissa times two to the power of an exponent, both spelled in
    /// decimal text.
    Scaled(Seq<u8>, Seq<u8>),
}

/// A value as the model sees it: what a scripting table can hold.
pub enum Value {
    Null,
    Boolean(bool),
    Number(Number),
    String(Seq<u8>),
    /// The pairs of a table, key first, in the order in which they were put.
    Table(Seq<(Value, Value)>),
}

/// A number. Arithmetic on it is left to the caller: the library carries a
/// number either by its bit pattern or by the text that spells it.
#[derive(Debug, PartialEq, Eq, Hash)]
pub enum LuaNumber {
    /// A double-precision number, by its IEEE 754 bit pattern.
    Bits(u64),
    /// The number that decimal text spells.
    Decimal(Vec<u8>),
    /// A mantissa times two to the power of an exponent, both spelled in
    /// decimal text.
    Scaled(Vec<u8>, Vec<u8>),
}

/// A value that a scripting table can hold.
#[derive(Debug, PartialEq, Eq, Hash)]
pub enum LuaValue {
    /// The pairs of a table, key first, in the order in which they were put.
    Table(Vec<(LuaMapKey, LuaValue)>),
    String(Vec<u8>),
    Number(LuaNumber),
    Boolean(bool),
    Null,
}

/// A value in the place of a table key. A key is never null.
#[derive(Debug, PartialEq, Eq, Hash)]
pub struct LuaMapKey(pub LuaValue);

impl View for LuaNumber {
    type V = Number;

    open spec fn view(&self) -> Number {
        match self {
            LuaNumber::Bits(bits) => Number::Bits(*bits),
            LuaNumber::Decimal(text) => Number::Decimal(text@),
            LuaNumber::Scaled(mantissa, exponent) => Number::Scaled(mantissa@, exponent@),
        }
    }
}

/// The model of a value.
pub open spec fn model_of(value: LuaValue) -> Value
    decreases value,
{
    match value {
        LuaValue::Null => Value::Null,
        LuaValue::Boolean(b) => Value::Boolean(b),
        LuaValue::Number(n) => Value::Number(n@),
        LuaValue::String(s) => Value::String(s@),
        LuaValue::Table(entries) => Value::Table(
            Seq::new(
                entries@.len(),
                |i: int|
                    if 0 <= i < entries@.len() {
                        (model_of(entries@[i].0.0), model_of(entries@[i].1))
                    } else {
                        (Value::Null, Value::Null)
                    },
            ),
        ),
    }
}

impl View for LuaValue {
    type V = Value;

    open spec fn view(&self) -> Value {
        model_of(*self)
    }
}

impl View for LuaMapKey {
    type V = Value;

    open spec fn view(&self) -> Value {
        model_of(self.0)
    }
}

/// The models of the values of a list.
pub open spec fn models_of(values: Seq<LuaValue>) -> Seq<Value> {
    Seq::new(values.len(), |i: int| values[i]@)
}

/// The models of the pairs of a table.
pub open spec fn pairs_of(entries: Seq<(LuaMapKey, LuaValue)>) -> Seq<(Value, Value)> {
    Seq::new(entries.len(), |i: int| (entries[i].0@, entries[i].1@))
}

/// The model of a table is the table of the models of its pairs.
pub proof fn lemma_model_of_table(entries: Vec<(LuaMapKey, LuaValue)>)
    ensures
        LuaValue::Table(entries)@ == Value::Table(pairs_of(entries@)),
{
    assert(model_of(LuaValue::Table(entries))->Table_0 =~= pairs_of(entries@));
}

/// Where the first pair with the given key stands, looking from `from` on.
pub open spec fn find_key(pairs: Seq<(Value, Value)>, key: Value, from: nat) -> Option<nat>
    decreases pairs.len() - from,
{
    if from >= pairs.len() {
        None
    } else if pairs[from as int].0 == key {
        Some(from)
    } else {
        find_key(pairs, key, from + 1)
    }
}

/// The pairs after the value of a key has been set: where the key is there
/// already, its value is replaced in its place; where it is not, the pair
/// goes to the end.
pub open spec fn put(pairs: Seq<(Value, Value)>, key: Value, value: Value) -> Seq<(Value, Value)> {
    match find_key(pairs, key, 0) {
        Some(at) => pairs.update(at as int, (key, value)),
        None => pairs.push((key, value)),
    }
}

/// Whether no key stands twice among the pairs.
pub open spec fn distinct_keys(pairs: Seq<(Value, Value)>) -> bool {
    forall|i: int, j: int|
        0 <= i < j < pairs.len() ==> (#[trigger] pairs[i]).0 != (#[trigger] pairs[j]).0
}

/// Whether tables are nested in the value at most `limit` deep, a table
/// without tables in it being one deep.
pub open spec fn fits(value: Value, limit: nat) -> bool
    decreases value,
{
    match value {
        Value::Table(pairs) => limit > 0 && forall|i: int|
            0 <= i < pairs.len() ==> fits((#[trigger] pairs[i]).0, (limit - 1) as nat) && fits(
                pairs[i].1,
                (limit - 1) as nat,
            ),
        _ => true,
    }
}

/// Whether every table in the value is a table in earnest: none of its keys
/// is null and none stands twice.
pub open spec fn sound(value: Value) -> bool
    decreases value,
{
    match value {
        Value::Table(pairs) => {
            &&& distinct_keys(pairs)
            &&& forall|i: int|
                0 <= i < pairs.len() ==> (#[trigger] pairs[i]).0 != Value::Null && sound(
                    pairs[i].0,
                ) && sound(pairs[i].1)
        },
        _ => true,
    }
}

/// Whether two byte strings hold the same bytes.
pub fn same_bytes(a: &[u8], b: &[u8]) -> (same: bool)
    ensures
        same == (a@ == b@),
{
    if a.len() != b.len() {
        return false;
    }
    let mut i: usize = 0;
    while i < a.len()
        invariant
            a.len() == b.len(),
            i <= a.len(),
            forall|j: int| 0 <= j < i ==> a[j] == b[j],
        decreases a.len() - i,
    {
        if a[i] != b[i] {
            return false;
        }
        i = i + 1;
    }
    assert(a@ =~= b@);
    true
}

impl LuaNumber {
    /// Whether two numbers are held in the same way with the same content.
    /// Two spellings of one number are not the same.
    pub fn same(&self, other: &LuaNumber) -> (same: bool)
        ensures
            same == (self@ == other@),
    {
        match (self, other) {
            (LuaNumber::Bits(a), LuaNumber::Bits(b)) => *a == *b,
            (LuaNumber::Decimal(a), LuaNumber::Decimal(b)) => same_bytes(
                a.as_slice(),
                b.as_slice(),
            ),
            (LuaNumber::Scaled(a, c), LuaNumber::Scaled(b, d)) => same_bytes(
                a.as_slice(),
                b.as_slice(),
            ) && same_bytes(c.as_slice(), d.as_slice()),
            _ => false,
        }
    }

    /// A copy of the number.
    pub fn duplicate(&self) -> (copy: LuaNumber)
        ensures
            copy@ == self@,
    {
        match self {
            LuaNumber::Bits(bits) => LuaNumber::Bits(*bits),
            LuaNumber::Decimal(text) => LuaNumber::Decimal(slice_to_vec(text.as_slice())),
            LuaNumber::Scaled(mantissa, exponent) => LuaNumber::Scaled(
                slice_to_vec(mantissa.as_slice()),
                slice_to_vec(exponent.as_slice()),
            ),
        }
    }
}

impl LuaValue {
    /// Whether two values are the same: of the same kind with the same
    /// content, tables with the same pairs in the same order.
    pub fn same(&self, other: &LuaValue) -> (same: bool)
        ensures
            same == (self@ == other@),
        decreases *self,
    {
        match (self, other) {
            (LuaValue::Null, LuaValue::Null) => true,
            (LuaValue::Boolean(a), LuaValue::Boolean(b)) => *a == *b,
            (LuaValue::Number(a), LuaValue::Number(b)) => a.same(b),
            (LuaValue::String(a), LuaValue::String(b)) => same_bytes(a.as_slice(), b.as_slice()),
            (LuaValue::Table(a), LuaValue::Table(b)) => {
                proof {
                    lemma_model_of_table(*a);
                    lemma_model_of_table(*b);
                }
                if a.len() != b.len() {
                    assert(pairs_of(a@).len() != pairs_of(b@).len());
                    return false;
                }
                let mut i: usize = 0;
                while i < a.len()
                    invariant
                        a.len() == b.len(),
                        i <= a.len(),
                        *self == LuaValue::Table(*a),
                        forall|j: int| 0 <= j < i ==> pairs_of(a@)[j] == pairs_of(b@)[j],
                        self@ == Value::Table(pairs_of(a@)),
                        other@ == Value::Table(pairs_of(b@)),
                    decreases a.len() - i,
                {
                    if !a[i].0.0.same(&b[i].0.0) || !a[i].1.same(&b[i].1) {
                        assert(pairs_of(a@)[i as int] != pairs_of(b@)[i as int]);
                        return false;
                    }
                    i = i + 1;
                }
                assert(pairs_of(a@) =~= pairs_of(b@));
                true
            },
            _ => false,
        }
    }
}

impl LuaValue {
    /// A copy of the value.
    pub fn duplicate(&self) -> (copy: LuaValue)
        ensures
            copy@ == self@,
        decreases *self,
    {
        match self {
            LuaValue::Null => LuaValue::Null,
            LuaValue::Boolean(b) => LuaValue::Boolean(*b),
            LuaValue::Number(number) => LuaValue::Number(number.duplicate()),
            LuaValue::String(text) => LuaValue::String(slice_to_vec(text.as_slice())),
            LuaValue::Table(entries) => {
                proof {
                    lemma_model_of_table(*entries);
                }
                let mut copies: Vec<(LuaMapKey, LuaValue)> = Vec::with_capacity(entries.len());
                let mut i: usize = 0;
                while i < entries.len()
                    invariant
                        i <= entries.len(),
                        decreases_to!(*self => *entries),
                        copies@.len() == i,
                        forall|j: int| 0 <= j < i ==> pairs_of(copies@)[j] == pairs_of(entries@)[j],
                    decreases entries.len() - i,
                {
                    let key: LuaValue = entries[i].0.0.duplicate();
                    let value: LuaValue = entries[i].1.duplicate();
                    let ghost before = copies@;
                    copies.push((LuaMapKey(key), value));
                    assert forall|j: int| 0 <= j < i + 1 implies pairs_of(copies@)[j] == pairs_of(
                        entries@,
                    )[j] by {
                        if j < i {
                            assert(copies@[j] == before[j]);
                            assert(pairs_of(before)[j] == pairs_of(entries@)[j]);
                        }
                    }
                    i = i + 1;
                }
                proof {
                    assert(pairs_of(copies@) =~= pairs_of(entries@));
                    lemma_model_of_table(copies);
                }
                LuaValue::Table(copies)
            },
        }
    }
}

impl LuaMapKey {
    /// Makes a key of a value, unless the value is null.
    pub fn from_value(value: LuaValue) -> (r: Result<LuaMapKey, CodecError>)
        ensures
            value is Null ==> r == Err::<LuaMapKey, CodecError>(CodecError::NullKeyNotAllowed),
            !(value is Null) ==> r is Ok && r.unwrap().0 == value,
    {
        if let LuaValue::Null = value {
            Err(CodecError::NullKeyNotAllowed)
        } else {
            Ok(LuaMapKey(value))
        }
    }
}

/// Sets the value of a key among the pairs of a table: where the key is there
/// already, its value is replaced in its place; where it is not, the pair
/// goes to the end.
pub fn insert(entries: &mut Vec<(LuaMapKey, LuaValue)>, key: LuaMapKey, value: LuaValue)
    ensures
        pairs_of(final(entries)@) == put(pairs_of(old(entries)@), key@, value@),
{
    let mut at: usize = 0;
    while at < entries.len()
        invariant
            at <= entries.len(),
            *entries == *old(entries),
            find_key(pairs_of(entries@), key@, at as nat) == find_key(pairs_of(entries@), key@, 0),
        decreases entries.len() - at,
    {
        if entries[at].0.0.same(&key.0) {
            entries[at] = (key, value);
            assert(pairs_of(entries@) =~= put(pairs_of(old(entries)@), key@, value@));
            return ;
        }
        at = at + 1;
    }
    entries.push((key, value));
    assert(pairs_of(entries@) =~= put(pairs_of(old(entries)@), key@, value@));
}

} // verus!
