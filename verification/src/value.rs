use vstd::prelude::*;

verus! {

/// The mathematical content of a [`Value`].
pub enum ValueView {
    Text(Seq<char>),
    Integer(i64),
    Float(u64),
    Boolean(bool),
    Timestamp(i64, u32),
    Array(Seq<ValueView>),
    Table(Seq<(Seq<char>, ValueView)>),
}

/// A typed value held by an event field or by a literal field definition.
///
/// A float is kept as the bit pattern of its IEEE 754 double, so that two
/// values are equal exactly when their bits are. A timestamp is an instant in
/// UTC: whole seconds since the Unix epoch and the nanoseconds that follow
/// them. A table holds its members in the order in which they were given.
#[derive(Debug, PartialEq, Eq)]
pub enum Value {
    Text(String),
    Integer(i64),
    Float(u64),
    Boolean(bool),
    Timestamp(i64, u32),
    Array(Vec<Value>),
    Table(Vec<(String, Value)>),
}

/// The content of a value.
pub open spec fn value_view(v: Value) -> ValueView
    decreases v,
{
    match v {
        Value::Text(s) => ValueView::Text(s@),
        Value::Integer(i) => ValueView::Integer(i),
        Value::Float(bits) => ValueView::Float(bits),
        Value::Boolean(b) => ValueView::Boolean(b),
        Value::Timestamp(secs, nanos) => ValueView::Timestamp(secs, nanos),
        Value::Array(items) => ValueView::Array(
            Seq::new(
                items@.len(),
                |i: int|
                    if 0 <= i < items@.len() {
                        value_view(items@[i])
                    } else {
                        ValueView::Boolean(false)
                    },
            ),
        ),
        Value::Table(members) => ValueView::Table(
            Seq::new(
                members@.len(),
                |i: int|
                    if 0 <= i < members@.len() {
                        (members@[i].0@, value_view(members@[i].1))
                    } else {
                        (Seq::empty(), ValueView::Boolean(false))
                    },
            ),
        ),
    }
}

impl View for Value {
    type V = ValueView;

    open spec fn view(&self) -> ValueView {
        value_view(*self)
    }
}

/// A copy of a value: the same type with the same content.
pub fn copy_value(v: &Value) -> (r: Value)
    ensures
        r@ == v@,
    decreases v,
{
    match v {
        Value::Text(s) => Value::Text(s.clone()),
        Value::Integer(i) => Value::Integer(*i),
        Value::Float(bits) => Value::Float(*bits),
        Value::Boolean(b) => Value::Boolean(*b),
        Value::Timestamp(secs, nanos) => Value::Timestamp(*secs, *nanos),
        Value::Array(items) => {
            let mut out: Vec<Value> = Vec::new();
            let mut i: usize = 0;
            while i < items.len()
                invariant
                    i <= items.len(),
                    *v is Array,
                    v->Array_0 == *items,
                    out@.len() == i,
                    forall|k: int| 0 <= k < i ==> (#[trigger] out@[k])@ == items@[k]@,
                decreases items.len() - i,
            {
                out.push(copy_value(&items[i]));
                i += 1;
            }
            let r = Value::Array(out);
            assert(r@->Array_0 =~= v@->Array_0);
            r
        },
        Value::Table(members) => {
            let mut out: Vec<(String, Value)> = Vec::new();
            let mut i: usize = 0;
            while i < members.len()
                invariant
                    i <= members.len(),
                    *v is Table,
                    v->Table_0 == *members,
                    out@.len() == i,
                    forall|k: int|
                        0 <= k < i ==> (#[trigger] out@[k]).0@ == members@[k].0@ && out@[k].1@
                            == members@[k].1@,
                decreases members.len() - i,
            {
                out.push((members[i].0.clone(), copy_value(&members[i].1)));
                i += 1;
            }
            let r = Value::Table(out);
            assert(r@->Table_0 =~= v@->Table_0);
            r
        },
    }
}

impl Clone for Value {
    fn clone(&self) -> (r: Self)
        ensures
            r@ == self@,
    {
        copy_value(self)
    }
}

} // verus!
