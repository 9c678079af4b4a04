use vstd::prelude::*;
use crate::text::dec_int;

verus! {

broadcast use vstd::std_specs::vec::axiom_vec_index_decreases, vstd::seq::group_seq_axioms;

/// A runtime value. Floating-point, timestamp and regular-expression values
/// live in the surrounding runtime, outside this core; the kind lattice still
/// tracks their shapes.
#[derive(Debug, PartialEq)]
pub enum Value {
    Null,
    Boolean(bool),
    Integer(i64),
    /// A byte-string (text) value.
    Bytes(String),
    Array(Vec<Value>),
    /// Field/value pairs in source order; keys are not repeated.
    Object(Vec<(String, Value)>),
}

/// Mathematical model of a [`Value`].
#[verifier::ext_equal]
pub enum ValueV {
    Null,
    Boolean(bool),
    Integer(i64),
    Bytes(Seq<char>),
    Array(Seq<ValueV>),
    Object(Seq<(Seq<char>, ValueV)>),
}

/// The views of the elements of a value vector.
pub open spec fn values_view(elems: Vec<Value>) -> Seq<ValueV>
    decreases elems,
{
    Seq::new(
        elems@.len(),
        |i: int|
            if 0 <= i < elems@.len() {
                value_view(elems@[i])
            } else {
                arbitrary()
            },
    )
}

/// The views of the fields of a value object.
pub open spec fn value_fields_view(fields: Vec<(String, Value)>) -> Seq<(Seq<char>, ValueV)>
    decreases fields,
{
    Seq::new(
        fields@.len(),
        |i: int|
            if 0 <= i < fields@.len() {
                (fields@[i].0@, value_view(fields@[i].1))
            } else {
                arbitrary()
            },
    )
}

/// The mathematical model of a value.
pub open spec fn value_view(v: Value) -> ValueV
    decreases v,
{
    match v {
        Value::Null => ValueV::Null,
        Value::Boolean(b) => ValueV::Boolean(b),
        Value::Integer(i) => ValueV::Integer(i),
        Value::Bytes(s) => ValueV::Bytes(s@),
        Value::Array(elems) => ValueV::Array(values_view(elems)),
        Value::Object(fields) => ValueV::Object(value_fields_view(fields)),
    }
}

impl View for Value {
    type V = ValueV;

    open spec fn view(&self) -> ValueV {
        value_view(*self)
    }
}

/// Source-style rendering of each element of a value sequence, separated by
/// `", "`.
pub open spec fn values_display_join(elems: Seq<ValueV>, n: int) -> Seq<char>
    decreases elems, n,
{
    if n <= 0 || n > elems.len() {
        Seq::empty()
    } else if n == 1 {
        value_display(elems[0])
    } else {
        values_display_join(elems, n - 1) + ", "@ + value_display(elems[n - 1])
    }
}

/// Source-style rendering of each field of a value object, separated by
/// `", "`.
pub open spec fn value_fields_display_join(fields: Seq<(Seq<char>, ValueV)>, n: int) -> Seq<char>
    decreases fields, n,
{
    if n <= 0 || n > fields.len() {
        Seq::empty()
    } else if n == 1 {
        "\""@ + fields[0].0 + "\": "@ + value_display(fields[0].1)
    } else {
        value_fields_display_join(fields, n - 1) + ", "@ + "\""@ + fields[n - 1].0 + "\": "@
            + value_display(fields[n - 1].1)
    }
}

/// Source-style rendering of a value, as it would be written as a literal.
pub open spec fn value_display(v: ValueV) -> Seq<char>
    decreases v,
{
    match v {
        ValueV::Null => "null"@,
        ValueV::Boolean(b) => if b {
            "true"@
        } else {
            "false"@
        },
        ValueV::Integer(i) => dec_int(i as int),
        ValueV::Bytes(s) => "\""@ + s + "\""@,
        ValueV::Array(elems) => "["@ + values_display_join(elems, elems.len() as int) + "]"@,
        ValueV::Object(fields) => "{"@ + value_fields_display_join(fields, fields.len() as int)
            + "}"@,
    }
}

impl Value {
    /// A structural copy; the copy has the same mathematical model.
    pub fn deep_clone(&self) -> (r: Value)
        ensures
            r@ == self@,
        decreases self,
    {
        match self {
            Value::Null => Value::Null,
            Value::Boolean(b) => Value::Boolean(*b),
            Value::Integer(i) => Value::Integer(*i),
            Value::Bytes(s) => Value::Bytes(s.clone()),
            Value::Array(elems) => {
                proof {
                    assert(decreases_to!(*self => *elems));
                }
                let mut out: Vec<Value> = Vec::new();
                let mut i: usize = 0;
                while i < elems.len()
                    invariant
                        i <= elems.len(),
                        out@.len() == i,
                        decreases_to!(*self => *elems),
                        forall|j: int| 0 <= j < i ==> value_view(out@[j]) == value_view(elems@[j]),
                    decreases elems.len() - i,
                {
                    let e = elems[i].deep_clone();
                    out.push(e);
                    i += 1;
                }
                proof {
                    assert(values_view(out) =~= values_view(*elems));
                }
                Value::Array(out)
            },
            Value::Object(fields) => {
                proof {
                    assert(decreases_to!(*self => *fields));
                }
                let mut out: Vec<(String, Value)> = Vec::new();
                let mut i: usize = 0;
                while i < fields.len()
                    invariant
                        i <= fields.len(),
                        out@.len() == i,
                        decreases_to!(*self => *fields),
                        forall|j: int|
                            0 <= j < i ==> out@[j].0@ == fields@[j].0@ && value_view(out@[j].1)
                                == value_view(fields@[j].1),
                    decreases fields.len() - i,
                {
                    let key = fields[i].0.clone();
                    let val = fields[i].1.deep_clone();
                    out.push((key, val));
                    i += 1;
                }
                proof {
                    assert(value_fields_view(out) =~= value_fields_view(*fields));
                }
                Value::Object(out)
            },
        }
    }
}

impl Clone for Value {
    /// Clones are structural copies.
    fn clone(&self) -> (r: Value)
        ensures
            r@ == self@,
    {
        self.deep_clone()
    }
}

/// Appends the source-style rendering of `v` to `out`.
pub fn write_value_display(v: &Value, out: &mut String)
    ensures
        final(out)@ == old(out)@ + value_display(v@),
    decreases v,
{
    match v {
        Value::Null => {
            out.append("null");
        },
        Value::Boolean(b) => {
            if *b {
                out.append("true");
            } else {
                out.append("false");
            }
        },
        Value::Integer(i) => {
            crate::text::push_dec_i64(out, *i);
        },
        Value::Bytes(s) => {
            out.append("\"");
            out.append(s.as_str());
            out.append("\"");
            proof {
                assert(final(out)@ =~= old(out)@ + value_display(v@));
            }
        },
        Value::Array(elems) => {
            out.append("[");
            proof {
                assert(decreases_to!(*v => *elems));
            }
            let ghost entry = out@;
            let mut i: usize = 0;
            while i < elems.len()
                invariant
                    i <= elems.len(),
                    decreases_to!(*v => *elems),
                    out@ == entry + values_display_join(values_view(*elems), i as int),
                decreases elems.len() - i,
            {
                if i > 0 {
                    out.append(", ");
                }
                write_value_display(&elems[i], out);
                proof {
                    assert(values_view(*elems)[i as int] == value_view(elems@[i as int]));
                    assert(out@ =~= entry + values_display_join(values_view(*elems), i + 1));
                }
                i += 1;
            }
            out.append("]");
            proof {
                assert(final(out)@ =~= old(out)@ + value_display(v@));
            }
        },
        Value::Object(fields) => {
            out.append("{");
            proof {
                assert(decreases_to!(*v => *fields));
            }
            let ghost entry = out@;
            let mut i: usize = 0;
            while i < fields.len()
                invariant
                    i <= fields.len(),
                    decreases_to!(*v => *fields),
                    out@ == entry + value_fields_display_join(value_fields_view(*fields), i as int),
                decreases fields.len() - i,
            {
                if i > 0 {
                    out.append(", ");
                }
                out.append("\"");
                out.append(fields[i].0.as_str());
                out.append("\": ");
                write_value_display(&fields[i].1, out);
                proof {
                    assert(value_fields_view(*fields)[i as int]
                        == (fields@[i as int].0@, value_view(fields@[i as int].1)));
                    assert(out@ =~= entry + value_fields_display_join(
                        value_fields_view(*fields),
                        i + 1,
                    ));
                }
                i += 1;
            }
            out.append("}");
            proof {
                assert(final(out)@ =~= old(out)@ + value_display(v@));
            }
        },
    }
}

} // verus!
