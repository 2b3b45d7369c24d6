//! The dynamic value model: a tagged union able to hold any decodable value,
//! an order-preserving map container with unique keys, and a dual
//! integer/float number type whose float half is carried as IEEE 754 bits
//! and compares NaN-aware (NaN equals NaN).

use vstd::prelude::*;

use crate::item::Item;

verus! {

/// A 64-bit float carried as its IEEE 754 bit pattern.
#[derive(Copy, Clone, Debug, PartialEq, Eq, Structural)]
pub struct Float {
    bits: u64,
}

/// Whether the binary64 bit pattern `b` denotes a NaN.
pub open spec fn spec_f64_is_nan(b: u64) -> bool {
    (b >> 52) & 0x7ff == 0x7ff && (b & 0xf_ffff_ffff_ffff) != 0
}

/// Whether the binary32 bit pattern `b` denotes a NaN.
pub open spec fn spec_f32_is_nan(b: u32) -> bool {
    (b >> 23) & 0xff == 0xff && (b & 0x7f_ffff) != 0
}

/// A key that orders binary64 bit patterns totally: every NaN maps to 0 (the
/// minimum), the two zeros coincide, negatives run below positives in value
/// order. Two floats are equal exactly when their keys are equal.
pub open spec fn spec_f64_rank(b: u64) -> u64 {
    if spec_f64_is_nan(b) {
        0
    } else {
        let c: u64 = if b == 0x8000_0000_0000_0000 {
            0
        } else {
            b
        };
        if c & 0x8000_0000_0000_0000 != 0 {
            !c
        } else {
            c | 0x8000_0000_0000_0000
        }
    }
}

impl Float {
    /// Wraps a binary64 bit pattern.
    pub fn new(bits: u64) -> (r: Float)
        ensures
            r.bits() == bits,
    {
        Float { bits }
    }

    /// The underlying bit pattern.
    pub closed spec fn bits(self) -> u64 {
        self.bits
    }

    #[verifier::when_used_as_spec(bits)]
    pub fn get(self) -> (r: u64)
        ensures
            r == self.bits(),
    {
        self.bits
    }

    /// Whether `self` and `o` are the same float under the NaN-aware total
    /// order: equal bits, both NaN, or the two zeros.
    pub fn same(self, o: Float) -> (r: bool)
        ensures
            r == (spec_f64_rank(self.bits()) == spec_f64_rank(o.bits())),
    {
        f64_rank(self.bits) == f64_rank(o.bits)
    }
}

pub fn f64_is_nan(b: u64) -> (r: bool)
    ensures
        r == spec_f64_is_nan(b),
{
    (b >> 52) & 0x7ff == 0x7ff && (b & 0xf_ffff_ffff_ffff) != 0
}

pub fn f64_rank(b: u64) -> (r: u64)
    ensures
        r == spec_f64_rank(b),
{
    if f64_is_nan(b) {
        0
    } else {
        let c: u64 = if b == 0x8000_0000_0000_0000 {
            0
        } else {
            b
        };
        if c & 0x8000_0000_0000_0000 != 0 {
            !c
        } else {
            c | 0x8000_0000_0000_0000
        }
    }
}

/// Either a 64-bit signed integer or a 64-bit float (as bits).
#[derive(Copy, Clone, Debug, PartialEq, Eq)]
pub enum Number {
    Integer(i64),
    Float(Float),
}

impl Number {
    /// The number for a signed integer.
    pub fn from_i64(i: i64) -> (r: Number)
        ensures
            r == Number::Integer(i),
    {
        Number::Integer(i)
    }

    /// The number for an unsigned integer: kept exactly while it fits the
    /// signed 64-bit range, widened (lossily) to a float beyond it.
    pub fn from_u64(u: u64) -> (r: Number)
        ensures
            u <= i64::MAX ==> r == Number::Integer(u as i64),
            u > i64::MAX ==> (r matches Number::Float(f) && f.bits()
                == crate::outside::f64_bits_of_u64(u)),
    {
        if u <= i64::MAX as u64 {
            Number::Integer(u as i64)
        } else {
            Number::Float(Float { bits: crate::outside::u64_to_f64_bits(u) })
        }
    }

    /// The integer, if `self` holds one.
    pub fn as_i64(self) -> (r: Option<i64>)
        ensures
            r == match self {
                Number::Integer(i) => Some(i),
                Number::Float(_) => None::<i64>,
            },
    {
        match self {
            Number::Integer(i) => Some(i),
            Number::Float(_) => None,
        }
    }

    /// The float bits, if `self` holds a float.
    pub fn as_f64_bits(self) -> (r: Option<u64>)
        ensures
            r == match self {
                Number::Integer(_) => None::<u64>,
                Number::Float(f) => Some(f.bits()),
            },
    {
        match self {
            Number::Integer(_) => None,
            Number::Float(f) => Some(f.bits),
        }
    }

    /// Whether `self` and `o` denote the same number: equal integers, or
    /// floats equal under the NaN-aware order. An integer never equals a
    /// float.
    pub fn same(self, o: Number) -> (r: bool)
        ensures
            r == spec_number_eq(self, o),
    {
        match (self, o) {
            (Number::Integer(a), Number::Integer(b)) => a == b,
            (Number::Float(a), Number::Float(b)) => a.same(b),
            _ => false,
        }
    }
}

pub open spec fn spec_number_eq(a: Number, b: Number) -> bool {
    match (a, b) {
        (Number::Integer(x), Number::Integer(y)) => x == y,
        (Number::Float(x), Number::Float(y)) => spec_f64_rank(x.bits()) == spec_f64_rank(y.bits()),
        _ => false,
    }
}

/// An insertion-ordered mapping from [`Value`] to [`Value`] with unique keys
/// (two keys are the same when [`spec_value_eq`] holds of them). Iteration
/// order is insertion order, a visible property of the container.
#[derive(Debug, PartialEq)]
pub struct ValueMap {
    entries: Vec<(Value, Value)>,
}

/// Any decodable value.
#[derive(Debug, PartialEq)]
pub enum Value {
    Bool(bool),
    Char(char),
    Mapping(ValueMap),
    Number(Number),
    Option(Option<Box<Value>>),
    String(String),
    List(Vec<Value>),
    Unit,
}

impl View for ValueMap {
    type V = Seq<(Value, Value)>;

    closed spec fn view(&self) -> Seq<(Value, Value)> {
        self.entries@
    }
}

/// Value equality: structural, with floats compared under the NaN-aware
/// order, and maps compared entry by entry in iteration order. Maps of
/// different lengths are never equal (the stricter of the two semantics the
/// container's documentation permits; it keeps equality an equivalence).
pub open spec fn spec_value_eq(a: Value, b: Value) -> bool
    decreases a,
{
    match (a, b) {
        (Value::Bool(x), Value::Bool(y)) => x == y,
        (Value::Char(x), Value::Char(y)) => x == y,
        (Value::Mapping(x), Value::Mapping(y)) => {
            &&& x@.len() == y@.len()
            &&& forall|i: int|
                0 <= i < x@.len() ==> spec_value_eq(#[trigger] x@[i].0, y@[i].0) && spec_value_eq(
                    x@[i].1,
                    y@[i].1,
                )
        },
        (Value::Number(x), Value::Number(y)) => spec_number_eq(x, y),
        (Value::Option(None), Value::Option(None)) => true,
        (Value::Option(Some(x)), Value::Option(Some(y))) => spec_value_eq(*x, *y),
        (Value::String(x), Value::String(y)) => x@ == y@,
        (Value::List(x), Value::List(y)) => {
            &&& x@.len() == y@.len()
            &&& forall|i: int| 0 <= i < x@.len() ==> spec_value_eq(#[trigger] x@[i], y@[i])
        },
        (Value::Unit, Value::Unit) => true,
        _ => false,
    }
}

impl Value {
    /// Re-binds this dynamic tree into a typed shape, the same families the
    /// text reader drives; see [`crate::de::into_rust`].
    pub fn into_rust(&self, shape: &crate::item::Shape) -> (r: Result<
        crate::item::Item,
        crate::error::Error,
    >)
        ensures
            *shape == crate::item::Shape::Bool ==> forall|bv: bool|
                *self == Value::Bool(bv) ==> r == Ok::<crate::item::Item, crate::error::Error>(
                    crate::item::Item::Bool(bv),
                ),
            *shape == crate::item::Shape::I64 ==> forall|iv: i64|
                *self == Value::Number(Number::Integer(iv)) ==> r == Ok::<
                    crate::item::Item,
                    crate::error::Error,
                >(crate::item::Item::I64(iv)),
            *shape == crate::item::Shape::U8 ==> forall|iv: i64|
                *self == Value::Number(Number::Integer(iv)) ==> (0 <= iv <= 0xff ==> r == Ok::<
                    crate::item::Item,
                    crate::error::Error,
                >(crate::item::Item::U8(iv as u8))) && (!(0 <= iv <= 0xff) ==> r is Err),
    {
        crate::de::into_rust(self, shape)
    }
}

/// How a dynamic value corresponds to the typed tree the writer consumes:
/// integers as signed 64-bit values, floats as binary64 bits, maps entry
/// by entry in iteration order.
pub open spec fn spec_value_item(v: Value, it: Item) -> bool
    decreases v,
{
    match (v, it) {
        (Value::Bool(a), Item::Bool(b)) => a == b,
        (Value::Char(a), Item::Char(b)) => a == b,
        (Value::Number(Number::Integer(a)), Item::I64(b)) => a == b,
        (Value::Number(Number::Float(f)), Item::F64(b)) => f.bits() == b,
        (Value::Option(None), Item::Option(None)) => true,
        (Value::Option(Some(x)), Item::Option(Some(y))) => spec_value_item(*x, *y),
        (Value::String(a), Item::Str(b)) => a@ == b@,
        (Value::List(xs), Item::List(ys)) => {
            &&& xs@.len() == ys@.len()
            &&& forall|i: int| 0 <= i < xs@.len() ==> spec_value_item(#[trigger] xs@[i], ys@[i])
        },
        (Value::Mapping(m), Item::Mapping(es)) => {
            &&& m@.len() == es@.len()
            &&& forall|i: int|
                0 <= i < m@.len() ==> spec_value_item(#[trigger] m@[i].0, es@[i].0)
                    && spec_value_item(m@[i].1, es@[i].1)
        },
        (Value::Unit, Item::Unit) => true,
        _ => false,
    }
}

/// Lowers a dynamic value into the typed tree the writer consumes.
#[verifier::loop_isolation(false)]
#[verifier::rlimit(100)]
pub fn value_to_item(v: &Value) -> (r: Item)
    ensures
        spec_value_item(*v, r),
    decreases *v,
{
    match v {
        Value::Bool(b) => Item::Bool(*b),
        Value::Char(c) => Item::Char(*c),
        Value::Number(Number::Integer(i)) => Item::I64(*i),
        Value::Number(Number::Float(f)) => Item::F64(f.get()),
        Value::Option(None) => Item::Option(None),
        Value::Option(Some(x)) => {
            proof {
                assert(decreases_to!(*v => (*v)->Option_0));
                assert(decreases_to!((*v)->Option_0 => ((*v)->Option_0)->0));
            }
            Item::Option(Some(Box::new(value_to_item(&**x))))
        },
        Value::String(s) => Item::Str(s.clone()),
        Value::List(xs) => {
            let n = xs.len();
            let mut items: Vec<Item> = Vec::new();
            let mut i: usize = 0;
            while i < n
                invariant
                    i <= n,
                    n == xs@.len(),
                    items@.len() == i,
                    forall|j: int| 0 <= j < i ==> spec_value_item(#[trigger] xs@[j], items@[j]),
                decreases n - i,
            {
                proof {
                    assert(decreases_to!(*v => (*v)->List_0));
                    assert(decreases_to!((*v)->List_0 => xs@));
                    assert(decreases_to!(xs@ => xs@[i as int]));
                }
                let it = value_to_item(&xs[i]);
                items.push(it);
                i += 1;
            }
            Item::List(items)
        },
        Value::Mapping(m) => {
            let entries = m.entries_vec();
            let n = entries.len();
            let mut out: Vec<(Item, Item)> = Vec::new();
            let mut i: usize = 0;
            while i < n
                invariant
                    i <= n,
                    n == entries@.len(),
                    entries@ == m@,
                    out@.len() == i,
                    forall|j: int|
                        0 <= j < i ==> spec_value_item(#[trigger] m@[j].0, out@[j].0)
                            && spec_value_item(m@[j].1, out@[j].1),
                decreases n - i,
            {
                proof {
                    assert(decreases_to!(*v => (*v)->Mapping_0));
                    crate::value::lemma_valuemap_entry_decreases(*m, i as int);
                    assert(decreases_to!(m@[i as int] => m@[i as int].0));
                    assert(decreases_to!(m@[i as int] => m@[i as int].1));
                }
                let (k, val) = &entries[i];
                let ik = value_to_item(k);
                let iv = value_to_item(val);
                out.push((ik, iv));
                proof {
                    assert forall|j: int| 0 <= j < i + 1 implies spec_value_item(
                        #[trigger] m@[j].0,
                        out@[j].0,
                    ) && spec_value_item(m@[j].1, out@[j].1) by {
                        if j == i {
                            assert(spec_value_item(m@[j].0, out@[j].0));
                            assert(spec_value_item(m@[j].1, out@[j].1));
                        }
                    }
                }
                i += 1;
            }
            Item::Mapping(out)
        },
        Value::Unit => Item::Unit,
    }
}

/// A map is measurably larger than each of its entries, which recursive
/// walks over value trees rely on.
pub proof fn lemma_valuemap_entry_decreases(m: ValueMap, i: int)
    requires
        0 <= i < m@.len(),
    ensures
        decreases_to!(m => m@[i]),
{
    assert(decreases_to!(m => m.entries));
    assert(decreases_to!(m.entries => m.entries@));
    assert(decreases_to!(m.entries@ => m.entries@[i]));
}

/// Executable [`spec_value_eq`].
#[verifier::loop_isolation(false)]
#[verifier::rlimit(100)]
pub fn value_eq(a: &Value, b: &Value) -> (r: bool)
    ensures
        r == spec_value_eq(*a, *b),
    decreases *a,
{
    match (a, b) {
        (Value::Bool(x), Value::Bool(y)) => {
            proof {
                assert(spec_value_eq(*a, *b) == (*x == *y));
            }
            *x == *y
        },
        (Value::Char(x), Value::Char(y)) => {
            proof {
                assert(spec_value_eq(*a, *b) == (*x == *y));
            }
            *x == *y
        },
        (Value::Mapping(x), Value::Mapping(y)) => {
            if x.entries.len() != y.entries.len() {
                return false;
            }
            let n = x.entries.len();
            let mut i: usize = 0;
            while i < n
                invariant
                    i <= n,
                    n == x@.len() == y@.len(),
                    forall|j: int|
                        0 <= j < i ==> spec_value_eq(#[trigger] x@[j].0, y@[j].0) && spec_value_eq(
                            x@[j].1,
                            y@[j].1,
                        ),
                decreases n - i,
            {
                let (xk, xv) = &x.entries[i];
                let (yk, yv) = &y.entries[i];
                proof {
                    assert(*x == (*a)->Mapping_0);
                    assert(decreases_to!(*a => (*a)->Mapping_0));
                    assert(decreases_to!(*x => x.entries));
                    assert(decreases_to!(x.entries => x.entries@));
                    assert(decreases_to!(x.entries@ => x.entries@[i as int]));
                    assert(decreases_to!(x.entries@[i as int] => x.entries@[i as int].0));
                    assert(decreases_to!(x.entries@[i as int] => x.entries@[i as int].1));
                    assert(decreases_to!(*a => x.entries@[i as int].0));
                    assert(decreases_to!(*a => x.entries@[i as int].1));
                }
                let k_eq = value_eq(xk, yk);
                let v_eq = value_eq(xv, yv);
                if !k_eq || !v_eq {
                    proof {
                        assert(!spec_value_eq(*a, *b));
                    }
                    return false;
                }
                proof {
                    assert forall|j: int| 0 <= j < i + 1 implies spec_value_eq(
                        #[trigger] x@[j].0,
                        y@[j].0,
                    ) && spec_value_eq(x@[j].1, y@[j].1) by {
                        if j == i {
                            assert(spec_value_eq(x@[j].0, y@[j].0));
                            assert(spec_value_eq(x@[j].1, y@[j].1));
                        }
                    }
                }
                i += 1;
            }
            proof {
                assert(spec_value_eq(*a, *b));
            }
            true
        },
        (Value::Number(x), Value::Number(y)) => {
            let r = x.same(*y);
            proof {
                assert(spec_value_eq(*a, *b) == spec_number_eq(*x, *y));
            }
            r
        },
        (Value::Option(None), Value::Option(None)) => true,
        (Value::Option(Some(x)), Value::Option(Some(y))) => {
            let r = value_eq(&**x, &**y);
            proof {
                assert(spec_value_eq(*a, *b) == spec_value_eq(**x, **y));
            }
            r
        },
        (Value::String(x), Value::String(y)) => {
            let r = *x == *y;
            proof {
                assert(spec_value_eq(*a, *b) == (x@ == y@));
            }
            r
        },
        (Value::List(x), Value::List(y)) => {
            if x.len() != y.len() {
                return false;
            }
            let n = x.len();
            let mut i: usize = 0;
            while i < n
                invariant
                    i <= n,
                    n == x@.len() == y@.len(),
                    forall|j: int| 0 <= j < i ==> spec_value_eq(#[trigger] x@[j], y@[j]),
                decreases n - i,
            {
                proof {
                    assert(*x == (*a)->List_0);
                    assert(decreases_to!(*a => (*a)->List_0));
                    assert(decreases_to!(*x => x@));
                    assert(decreases_to!(x@ => x@[i as int]));
                    assert(decreases_to!(*a => x@[i as int]));
                }
                let e_eq = value_eq(&x[i], &y[i]);
                if !e_eq {
                    proof {
                        assert(!spec_value_eq(*a, *b));
                    }
                    return false;
                }
                i += 1;
            }
            proof {
                assert(spec_value_eq(*a, *b));
            }
            true
        },
        (Value::Unit, Value::Unit) => true,
        _ => false,
    }
}

impl ValueMap {
    /// Keys are pairwise distinct under [`spec_value_eq`].
    pub open spec fn wf(self) -> bool {
        forall|i: int, j: int|
            0 <= i < j < self@.len() ==> !spec_value_eq(#[trigger] self@[i].0, #[trigger] self@[j].0)
    }

    /// An empty map.
    pub fn new() -> (r: ValueMap)
        ensures
            r@ == Seq::<(Value, Value)>::empty(),
            r.wf(),
    {
        ValueMap { entries: Vec::new() }
    }

    pub fn len(&self) -> (r: usize)
        ensures
            r == self@.len(),
    {
        self.entries.len()
    }

    pub fn is_empty(&self) -> (r: bool)
        ensures
            r == (self@.len() == 0),
    {
        self.entries.len() == 0
    }

    /// The entry at position `i` in iteration order.
    pub fn entry(&self, i: usize) -> (r: &(Value, Value))
        requires
            i < self@.len(),
        ensures
            *r == self@[i as int],
    {
        &self.entries[i]
    }

    /// The position of the entry whose key is `key`, if one exists.
    fn find(&self, key: &Value) -> (r: Option<usize>)
        ensures
            match r {
                Some(i) => {
                    &&& i < self@.len()
                    &&& spec_value_eq(self@[i as int].0, *key)
                    &&& forall|j: int| 0 <= j < i ==> !spec_value_eq(#[trigger] self@[j].0, *key)
                },
                None => forall|j: int| 0 <= j < self@.len() ==> !spec_value_eq(#[trigger] self@[j].0, *key),
            },
    {
        let n = self.entries.len();
        let mut i: usize = 0;
        while i < n
            invariant
                i <= n,
                n == self@.len(),
                forall|j: int| 0 <= j < i ==> !spec_value_eq(#[trigger] self@[j].0, *key),
            decreases n - i,
        {
            let (k, _) = &self.entries[i];
            if value_eq(k, key) {
                return Some(i);
            }
            i += 1;
        }
        None
    }

    /// The value stored under `key`, if any.
    pub fn get(&self, key: &Value) -> (r: Option<&Value>)
        ensures
            match r {
                Some(v) => exists|i: int|
                    0 <= i < self@.len() && spec_value_eq(#[trigger] self@[i].0, *key) && *v
                        == self@[i].1,
                None => forall|i: int| 0 <= i < self@.len() ==> !spec_value_eq(#[trigger] self@[i].0, *key),
            },
    {
        match self.find(key) {
            Some(i) => Some(&self.entries[i].1),
            None => None,
        }
    }

    /// Inserts `value` under `key`: replaces in place the value of the entry
    /// already keyed by `key` and returns the displaced value, or appends a
    /// new entry at the end.
    pub fn insert(&mut self, key: Value, value: Value) -> (r: Option<Value>)
        requires
            old(self).wf(),
        ensures
            final(self).wf(),
            match r {
                Some(displaced) => exists|i: int|
                    {
                        &&& 0 <= i < old(self)@.len()
                        &&& spec_value_eq(#[trigger] old(self)@[i].0, key)
                        &&& displaced == old(self)@[i].1
                        &&& final(self)@ == old(self)@.update(i, (old(self)@[i].0, value))
                    },
                None => {
                    &&& forall|i: int|
                        0 <= i < old(self)@.len() ==> !spec_value_eq(
                            #[trigger] old(self)@[i].0,
                            key,
                        )
                    &&& final(self)@ == old(self)@ + seq![(key, value)]
                },
            },
    {
        match self.find(&key) {
            Some(i) => {
                let (k, displaced) = self.entries.remove(i);
                self.entries.insert(i, (k, value));
                assert(self@ =~= old(self)@.update(i as int, (old(self)@[i as int].0, value)));
                Some(displaced)
            },
            None => {
                self.entries.push((key, value));
                assert(self@ =~= old(self)@ + seq![(key, value)]);
                None
            },
        }
    }

    /// The entries in iteration order.
    pub fn entries_vec(&self) -> (r: &Vec<(Value, Value)>)
        ensures
            r@ == self@,
    {
        &self.entries
    }

    /// Removes the entry keyed by `key`, returning its value, or leaves the
    /// map unchanged.
    pub fn remove(&mut self, key: &Value) -> (r: Option<Value>)
        requires
            old(self).wf(),
        ensures
            final(self).wf(),
            match r {
                Some(removed) => exists|i: int|
                    {
                        &&& 0 <= i < old(self)@.len()
                        &&& spec_value_eq(#[trigger] old(self)@[i].0, *key)
                        &&& removed == old(self)@[i].1
                        &&& final(self)@ == old(self)@.remove(i)
                    },
                None => {
                    &&& forall|i: int|
                        0 <= i < old(self)@.len() ==> !spec_value_eq(
                            #[trigger] old(self)@[i].0,
                            *key,
                        )
                    &&& final(self)@ == old(self)@
                },
            },
    {
        match self.find(key) {
            Some(i) => {
                let (_, removed) = self.entries.remove(i);
                Some(removed)
            },
            None => None,
        }
    }
}

} // verus!
