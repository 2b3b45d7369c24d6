//! The typed tree: what the reader produces when driven by a [`Shape`] and
//! what the writer consumes. It mirrors the data model of the emission
//! protocol: one constructor per primitive or composite kind, with float
//! values carried as IEEE 754 bit patterns.

use vstd::prelude::*;

verus! {

/// A typed value. `F32` and `F64` carry bit patterns; names of structs and
/// variants are carried so the writer can emit them.
#[derive(Debug, PartialEq)]
pub enum Item {
    Bool(bool),
    Char(char),
    I8(i8),
    I16(i16),
    I32(i32),
    I64(i64),
    U8(u8),
    U16(u16),
    U32(u32),
    U64(u64),
    F32(u32),
    F64(u64),
    Str(String),
    Bytes(Vec<u8>),
    Option(Option<Box<Item>>),
    Unit,
    UnitStruct(String),
    UnitVariant(String),
    NewtypeStruct(String, Box<Item>),
    NewtypeVariant(String, Box<Item>),
    List(Vec<Item>),
    Tuple(Vec<Item>),
    TupleStruct(String, Vec<Item>),
    TupleVariant(String, Vec<Item>),
    Mapping(Vec<(Item, Item)>),
    Struct(String, Vec<(String, Item)>),
    StructVariant(String, Vec<(String, Item)>),
}

/// The shape the typed-binding layer expects next: which family of
/// productions the reader should attempt.
#[derive(Debug)]
pub enum Shape {
    Bool,
    Char,
    I8,
    I16,
    I32,
    I64,
    U8,
    U16,
    U32,
    U64,
    F32,
    F64,
    Str,
    Bytes,
    Option(Box<Shape>),
    Unit,
    UnitStruct(String),
    NewtypeStruct(String, Box<Shape>),
    List(Box<Shape>),
    Tuple(Vec<Shape>),
    TupleStruct(String, Vec<Shape>),
    Mapping(Box<Shape>, Box<Shape>),
    Struct(String, Vec<FieldShape>),
    Enum(String, Vec<VariantShape>),
    Untagged(Vec<Shape>),
}

/// A named field and the shape of its value.
#[derive(Debug)]
pub struct FieldShape {
    pub name: String,
    pub shape: Shape,
}

/// A named enum variant and the form of its payload.
#[derive(Debug)]
pub struct VariantShape {
    pub name: String,
    pub form: VariantForm,
}

/// The payload form of an enum variant.
#[derive(Debug)]
pub enum VariantForm {
    Unit,
    Newtype(Box<Shape>),
    Tuple(Vec<Shape>),
    Struct(Vec<FieldShape>),
}

/// Structural equality of typed values (float bits compared exactly). Used
/// when a repeated map key must replace or extend an earlier entry.
pub open spec fn spec_item_eq(a: Item, b: Item) -> bool
    decreases a,
{
    match (a, b) {
        (Item::Bool(x), Item::Bool(y)) => x == y,
        (Item::Char(x), Item::Char(y)) => x == y,
        (Item::I8(x), Item::I8(y)) => x == y,
        (Item::I16(x), Item::I16(y)) => x == y,
        (Item::I32(x), Item::I32(y)) => x == y,
        (Item::I64(x), Item::I64(y)) => x == y,
        (Item::U8(x), Item::U8(y)) => x == y,
        (Item::U16(x), Item::U16(y)) => x == y,
        (Item::U32(x), Item::U32(y)) => x == y,
        (Item::U64(x), Item::U64(y)) => x == y,
        (Item::F32(x), Item::F32(y)) => x == y,
        (Item::F64(x), Item::F64(y)) => x == y,
        (Item::Str(x), Item::Str(y)) => x@ == y@,
        (Item::Bytes(x), Item::Bytes(y)) => x@ == y@,
        (Item::Option(None), Item::Option(None)) => true,
        (Item::Option(Some(x)), Item::Option(Some(y))) => spec_item_eq(*x, *y),
        (Item::Unit, Item::Unit) => true,
        (Item::UnitStruct(x), Item::UnitStruct(y)) => x@ == y@,
        (Item::UnitVariant(x), Item::UnitVariant(y)) => x@ == y@,
        (Item::NewtypeStruct(n, x), Item::NewtypeStruct(m, y)) => n@ == m@ && spec_item_eq(*x, *y),
        (Item::NewtypeVariant(n, x), Item::NewtypeVariant(m, y)) => n@ == m@ && spec_item_eq(
            *x,
            *y,
        ),
        (Item::List(x), Item::List(y)) => spec_items_eq(x@, y@),
        (Item::Tuple(x), Item::Tuple(y)) => spec_items_eq(x@, y@),
        (Item::TupleStruct(n, x), Item::TupleStruct(m, y)) => n@ == m@ && spec_items_eq(x@, y@),
        (Item::TupleVariant(n, x), Item::TupleVariant(m, y)) => n@ == m@ && spec_items_eq(x@, y@),
        (Item::Mapping(x), Item::Mapping(y)) => spec_pairs_eq(x@, y@),
        (Item::Struct(n, x), Item::Struct(m, y)) => n@ == m@ && spec_fields_eq(x@, y@),
        (Item::StructVariant(n, x), Item::StructVariant(m, y)) => n@ == m@ && spec_fields_eq(
            x@,
            y@,
        ),
        _ => false,
    }
}

pub open spec fn spec_items_eq(xs: Seq<Item>, ys: Seq<Item>) -> bool
    decreases xs,
{
    &&& xs.len() == ys.len()
    &&& forall|i: int| 0 <= i < xs.len() ==> spec_item_eq(#[trigger] xs[i], ys[i])
}

pub open spec fn spec_pairs_eq(xs: Seq<(Item, Item)>, ys: Seq<(Item, Item)>) -> bool
    decreases xs,
{
    &&& xs.len() == ys.len()
    &&& forall|i: int|
        0 <= i < xs.len() ==> spec_item_eq(#[trigger] xs[i].0, ys[i].0) && spec_item_eq(
            xs[i].1,
            ys[i].1,
        )
}

pub open spec fn spec_fields_eq(xs: Seq<(String, Item)>, ys: Seq<(String, Item)>) -> bool
    decreases xs,
{
    &&& xs.len() == ys.len()
    &&& forall|i: int|
        0 <= i < xs.len() ==> (#[trigger] xs[i]).0@ == ys[i].0@ && spec_item_eq(xs[i].1, ys[i].1)
}

/// Executable [`spec_item_eq`].
#[verifier::loop_isolation(false)]
pub fn item_eq(a: &Item, b: &Item) -> (r: bool)
    ensures
        r == spec_item_eq(*a, *b),
    decreases *a, 1int,
{
    match (a, b) {
        (Item::Bool(x), Item::Bool(y)) => *x == *y,
        (Item::Char(x), Item::Char(y)) => *x == *y,
        (Item::I8(x), Item::I8(y)) => *x == *y,
        (Item::I16(x), Item::I16(y)) => *x == *y,
        (Item::I32(x), Item::I32(y)) => *x == *y,
        (Item::I64(x), Item::I64(y)) => *x == *y,
        (Item::U8(x), Item::U8(y)) => *x == *y,
        (Item::U16(x), Item::U16(y)) => *x == *y,
        (Item::U32(x), Item::U32(y)) => *x == *y,
        (Item::U64(x), Item::U64(y)) => *x == *y,
        (Item::F32(x), Item::F32(y)) => *x == *y,
        (Item::F64(x), Item::F64(y)) => *x == *y,
        (Item::Str(x), Item::Str(y)) => *x == *y,
        (Item::Bytes(x), Item::Bytes(y)) => bytes_eq(x, y),
        (Item::Option(None), Item::Option(None)) => true,
        (Item::Option(Some(x)), Item::Option(Some(y))) => item_eq(&**x, &**y),
        (Item::Unit, Item::Unit) => true,
        (Item::UnitStruct(x), Item::UnitStruct(y)) => *x == *y,
        (Item::UnitVariant(x), Item::UnitVariant(y)) => *x == *y,
        (Item::NewtypeStruct(n, x), Item::NewtypeStruct(m, y)) => *n == *m && item_eq(&**x, &**y),
        (Item::NewtypeVariant(n, x), Item::NewtypeVariant(m, y)) => *n == *m && item_eq(&**x, &**y),
        (Item::List(x), Item::List(y)) => {
            proof {
                assert(decreases_to!(*a => (*a)->List_0));
            }
            items_eq(x, y)
        },
        (Item::Tuple(x), Item::Tuple(y)) => {
            proof {
                assert(decreases_to!(*a => (*a)->Tuple_0));
            }
            items_eq(x, y)
        },
        (Item::TupleStruct(n, x), Item::TupleStruct(m, y)) => {
            proof {
                assert(decreases_to!(*a => (*a)->TupleStruct_1));
            }
            *n == *m && items_eq(x, y)
        },
        (Item::TupleVariant(n, x), Item::TupleVariant(m, y)) => {
            proof {
                assert(decreases_to!(*a => (*a)->TupleVariant_1));
            }
            *n == *m && items_eq(x, y)
        },
        (Item::Mapping(x), Item::Mapping(y)) => {
            proof {
                assert(decreases_to!(*a => (*a)->Mapping_0));
            }
            pairs_eq(x, y)
        },
        (Item::Struct(n, x), Item::Struct(m, y)) => {
            proof {
                assert(decreases_to!(*a => (*a)->Struct_1));
            }
            *n == *m && fields_eq(x, y)
        },
        (Item::StructVariant(n, x), Item::StructVariant(m, y)) => {
            proof {
                assert(decreases_to!(*a => (*a)->StructVariant_1));
            }
            *n == *m && fields_eq(x, y)
        },
        _ => false,
    }
}

fn bytes_eq(x: &Vec<u8>, y: &Vec<u8>) -> (r: bool)
    ensures
        r == (x@ == y@),
{
    if x.len() != y.len() {
        assert(x@ !~= y@);
        return false;
    }
    let n = x.len();
    let mut i: usize = 0;
    while i < n
        invariant
            i <= n,
            n == x@.len() == y@.len(),
            forall|j: int| 0 <= j < i ==> x@[j] == y@[j],
        decreases n - i,
    {
        if x[i] != y[i] {
            assert(x@ !~= y@);
            return false;
        }
        i += 1;
    }
    assert(x@ =~= y@);
    true
}

#[verifier::loop_isolation(false)]
fn items_eq(x: &Vec<Item>, y: &Vec<Item>) -> (r: bool)
    ensures
        r == spec_items_eq(x@, y@),
    decreases x@, 0int,
{
    if x.len() != y.len() {
        return false;
    }
    let n = x.len();
    let mut i: usize = 0;
    while i < n
        invariant
            i <= n,
            n == x@.len() == y@.len(),
            forall|j: int| 0 <= j < i ==> spec_item_eq(#[trigger] x@[j], y@[j]),
        decreases n - i,
    {
        proof {
            assert(decreases_to!(x@ => x@[i as int]));
        }
        if !item_eq(&x[i], &y[i]) {
            return false;
        }
        i += 1;
    }
    true
}

#[verifier::loop_isolation(false)]
fn pairs_eq(x: &Vec<(Item, Item)>, y: &Vec<(Item, Item)>) -> (r: bool)
    ensures
        r == spec_pairs_eq(x@, y@),
    decreases x@, 0int,
{
    if x.len() != y.len() {
        return false;
    }
    let n = x.len();
    let mut i: usize = 0;
    while i < n
        invariant
            i <= n,
            n == x@.len() == y@.len(),
            forall|j: int|
                0 <= j < i ==> spec_item_eq(#[trigger] x@[j].0, y@[j].0) && spec_item_eq(
                    x@[j].1,
                    y@[j].1,
                ),
        decreases n - i,
    {
        proof {
            assert(decreases_to!(x@ => x@[i as int]));
            assert(decreases_to!(x@[i as int] => x@[i as int].0));
            assert(decreases_to!(x@[i as int] => x@[i as int].1));
        }
        let (xk, xv) = &x[i];
        let (yk, yv) = &y[i];
        let k_eq = item_eq(xk, yk);
        let v_eq = item_eq(xv, yv);
        if !k_eq || !v_eq {
            return false;
        }
        proof {
            assert forall|j: int| 0 <= j < i + 1 implies spec_item_eq(#[trigger] x@[j].0, y@[j].0)
                && spec_item_eq(x@[j].1, y@[j].1) by {
                if j == i {
                    assert(spec_item_eq(x@[j].0, y@[j].0));
                    assert(spec_item_eq(x@[j].1, y@[j].1));
                }
            }
        }
        i += 1;
    }
    true
}

#[verifier::loop_isolation(false)]
fn fields_eq(x: &Vec<(String, Item)>, y: &Vec<(String, Item)>) -> (r: bool)
    ensures
        r == spec_fields_eq(x@, y@),
    decreases x@, 0int,
{
    if x.len() != y.len() {
        return false;
    }
    let n = x.len();
    let mut i: usize = 0;
    while i < n
        invariant
            i <= n,
            n == x@.len() == y@.len(),
            forall|j: int|
                0 <= j < i ==> (#[trigger] x@[j]).0@ == y@[j].0@ && spec_item_eq(x@[j].1, y@[j].1),
        decreases n - i,
    {
        proof {
            assert(decreases_to!(x@ => x@[i as int]));
            assert(decreases_to!(x@[i as int] => x@[i as int].1));
        }
        let (xk, xv) = &x[i];
        let (yk, yv) = &y[i];
        let k_eq = *xk == *yk;
        let v_eq = item_eq(xv, yv);
        if !k_eq || !v_eq {
            return false;
        }
        proof {
            assert forall|j: int| 0 <= j < i + 1 implies (#[trigger] x@[j]).0@ == y@[j].0@
                && spec_item_eq(x@[j].1, y@[j].1) by {
                if j == i {
                    assert(x@[j].0@ == y@[j].0@);
                    assert(spec_item_eq(x@[j].1, y@[j].1));
                }
            }
        }
        i += 1;
    }
    true
}

} // verus!
