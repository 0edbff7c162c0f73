//! Column values and rows.

use vstd::prelude::*;

verus! {

/// The contents of a sequence of viewable things.
pub open spec fn views<T: View>(items: Seq<T>) -> Seq<T::V> {
    Seq::new(items.len(), |i: int| items[i]@)
}

/// The content of an optional viewable thing.
pub open spec fn opt_view<T: View>(item: Option<T>) -> Option<T::V> {
    match item {
        Some(x) => Some(x@),
        None => None,
    }
}

/// A thing that can be copied content for content.
pub trait Duplicate: View + Sized {
    /// A copy.
    fn duplicate(&self) -> (copy: Self)
        ensures
            copy@ == self@,
    ;
}

/// A copy of several things.
pub fn duplicate_all<T: Duplicate>(items: &Vec<T>) -> (copies: Vec<T>)
    ensures
        views(copies@) == views(items@),
{
    let mut copies: Vec<T> = Vec::new();
    let mut i: usize = 0;
    while i < items.len()
        invariant
            i <= items@.len(),
            copies@.len() == i,
            forall|j: int| 0 <= j < i ==> (#[trigger] copies@[j])@ == items@[j]@,
        decreases items@.len() - i,
    {
        copies.push(items[i].duplicate());
        i = i + 1;
    }
    assert(views(copies@) =~= views(items@));
    copies
}

/// A copy of an optional thing.
pub fn duplicate_opt<T: Duplicate>(item: &Option<T>) -> (copy: Option<T>)
    ensures
        opt_view(copy) == opt_view(*item),
{
    match item {
        Some(x) => Some(x.duplicate()),
        None => None,
    }
}

impl Duplicate for String {
    fn duplicate(&self) -> (copy: String) {
        self.clone()
    }
}

impl Duplicate for Value {
    fn duplicate(&self) -> (copy: Value) {
        self.clone()
    }
}

/// One column value.
#[derive(Debug, PartialEq, Eq)]
pub enum Value {
    /// A truth value.
    Bool(bool),
    /// A signed 32-bit number.
    I32(i32),
    /// A signed 64-bit number.
    I64(i64),
    /// An unsigned 32-bit number.
    U32(u32),
    /// An unsigned 64-bit number.
    U64(u64),
    /// A double-precision number, held as its IEEE 754 bit pattern.
    F64(u64),
    /// A text.
    String(String),
}

/// The mathematical content of a [`Value`].
pub enum ValueView {
    Bool(bool),
    I32(i32),
    I64(i64),
    U32(u32),
    U64(u64),
    F64(u64),
    Text(Seq<char>),
}

impl View for Value {
    type V = ValueView;

    open spec fn view(&self) -> ValueView {
        match self {
            Value::Bool(b) => ValueView::Bool(*b),
            Value::I32(n) => ValueView::I32(*n),
            Value::I64(n) => ValueView::I64(*n),
            Value::U32(n) => ValueView::U32(*n),
            Value::U64(n) => ValueView::U64(*n),
            Value::F64(bits) => ValueView::F64(*bits),
            Value::String(s) => ValueView::Text(s@),
        }
    }
}

impl Clone for Value {
    fn clone(&self) -> (copy: Self)
        ensures
            copy@ == self@,
    {
        match self {
            Value::Bool(b) => Value::Bool(*b),
            Value::I32(n) => Value::I32(*n),
            Value::I64(n) => Value::I64(*n),
            Value::U32(n) => Value::U32(*n),
            Value::U64(n) => Value::U64(*n),
            Value::F64(bits) => Value::F64(*bits),
            Value::String(s) => Value::String(s.clone()),
        }
    }
}

impl Value {
    /// The truth value, if this is one.
    pub fn as_bool(&self) -> (found: Option<bool>)
        ensures
            found == (match self@ {
                ValueView::Bool(x) => Some(x),
                _ => None,
            }),
    {
        match self {
            Value::Bool(x) => Some(*x),
            _ => None,
        }
    }

    /// The signed 32-bit number, if this is one.
    pub fn as_i32(&self) -> (found: Option<i32>)
        ensures
            found == (match self@ {
                ValueView::I32(x) => Some(x),
                _ => None,
            }),
    {
        match self {
            Value::I32(x) => Some(*x),
            _ => None,
        }
    }

    /// The signed 64-bit number, if this is one.
    pub fn as_i64(&self) -> (found: Option<i64>)
        ensures
            found == (match self@ {
                ValueView::I64(x) => Some(x),
                _ => None,
            }),
    {
        match self {
            Value::I64(x) => Some(*x),
            _ => None,
        }
    }

    /// The unsigned 32-bit number, if this is one.
    pub fn as_u32(&self) -> (found: Option<u32>)
        ensures
            found == (match self@ {
                ValueView::U32(x) => Some(x),
                _ => None,
            }),
    {
        match self {
            Value::U32(x) => Some(*x),
            _ => None,
        }
    }

    /// The unsigned 64-bit number, if this is one.
    pub fn as_u64(&self) -> (found: Option<u64>)
        ensures
            found == (match self@ {
                ValueView::U64(x) => Some(x),
                _ => None,
            }),
    {
        match self {
            Value::U64(x) => Some(*x),
            _ => None,
        }
    }

    /// The bit pattern of the double-precision number, if this is one.
    pub fn as_f64_bits(&self) -> (found: Option<u64>)
        ensures
            found == (match self@ {
                ValueView::F64(x) => Some(x),
                _ => None,
            }),
    {
        match self {
            Value::F64(x) => Some(*x),
            _ => None,
        }
    }

    /// The text, if this is one.
    pub fn as_str(&self) -> (found: Option<&str>)
        ensures
            match found {
                Some(text) => self@ == ValueView::Text(text@),
                None => !(self@ is Text),
            },
    {
        match self {
            Value::String(s) => Some(s.as_str()),
            _ => None,
        }
    }
}

/// One table row: its column values in schema order.
#[derive(Debug, PartialEq, Eq)]
pub struct Row {
    values: Vec<Value>,
}

impl View for Row {
    type V = Seq<ValueView>;

    closed spec fn view(&self) -> Seq<ValueView> {
        views(self.values@)
    }
}

impl Row {
    /// A row of the given values.
    pub fn new(values: Vec<Value>) -> (row: Row)
        ensures
            row@ == views(values@),
    {
        Row { values }
    }

    /// The column values.
    pub fn values(&self) -> (values: &[Value])
        ensures
            views(values@) == self@,
    {
        self.values.as_slice()
    }
}

impl Clone for Row {
    fn clone(&self) -> (copy: Self)
        ensures
            copy@ == self@,
    {
        let values = duplicate_all(&self.values);
        Row { values }
    }
}

} // verus!
