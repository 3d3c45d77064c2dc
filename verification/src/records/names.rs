//! The discriminators: how a payload type is named in a record, and how a
//! name is read back.

use crate::records::value::{Elem, Shape};
use vstd::prelude::*;

verus! {

/// The name of an element type.
pub open spec fn elem_name(e: Elem) -> Seq<char> {
    match e {
        Elem::Bool => seq!['b', 'o', 'o', 'l'],
        Elem::U8 => seq!['u', '8'],
        Elem::I8 => seq!['i', '8'],
        Elem::U16 => seq!['u', '1', '6'],
        Elem::I16 => seq!['i', '1', '6'],
        Elem::U32 => seq!['u', '3', '2'],
        Elem::I32 => seq!['i', '3', '2'],
        Elem::U64 => seq!['u', '6', '4'],
        Elem::I64 => seq!['i', '6', '4'],
        Elem::U128 => seq!['u', '1', '2', '8'],
        Elem::I128 => seq!['i', '1', '2', '8'],
        Elem::Str => seq!['S', 't', 'r', 'i', 'n', 'g'],
    }
}

/// The name of a shape, without its element types.
pub open spec fn shape_prefix(shape: Shape) -> Seq<char> {
    match shape {
        Shape::Single(_) => seq!['V', 'a', 'l', 'T', 'a', 'g'],
        Shape::List(_) => seq!['V', 'e', 'c', 'T', 'a', 'g'],
        Shape::HashSet(_) => seq!['S', 'e', 't', 'T', 'a', 'g'],
        Shape::IndexSet(_) => seq!['I', 'n', 'd', 'e', 'x', 'S', 'e', 't', 'T', 'a', 'g'],
        Shape::HashMap(_, _) => seq!['M', 'a', 'p', 'T', 'a', 'g'],
        Shape::IndexMap(_, _) => seq!['I', 'n', 'd', 'e', 'x', 'M', 'a', 'p', 'T', 'a', 'g'],
    }
}

/// The element types of a shape as they stand between the angle brackets.
pub open spec fn shape_args(shape: Shape) -> Seq<char> {
    match shape {
        Shape::Single(e) => elem_name(e),
        Shape::List(e) => elem_name(e),
        Shape::HashSet(e) => elem_name(e),
        Shape::IndexSet(e) => elem_name(e),
        Shape::HashMap(k, v) => elem_name(k) + seq![','] + elem_name(v),
        Shape::IndexMap(k, v) => elem_name(k) + seq![','] + elem_name(v),
    }
}

/// The discriminator of a payload type: the name of the shape and, in angle
/// brackets, the names of its element types, as in `MapTag<String,i32>`.
pub open spec fn name_of(shape: Shape) -> Seq<char> {
    shape_prefix(shape) + seq!['<'] + shape_args(shape) + seq!['>']
}

/// The element type whose name starts at a position of a text.
pub open spec fn read_elem(s: Seq<char>, at: int) -> Elem {
    if s[at] == 'b' {
        Elem::Bool
    } else if s[at] == 'S' {
        Elem::Str
    } else if s[at + 1] == '8' {
        if s[at] == 'u' {
            Elem::U8
        } else {
            Elem::I8
        }
    } else if s[at + 1] == '3' {
        if s[at] == 'u' {
            Elem::U32
        } else {
            Elem::I32
        }
    } else if s[at + 1] == '6' {
        if s[at] == 'u' {
            Elem::U64
        } else {
            Elem::I64
        }
    } else if s[at + 2] == '6' {
        if s[at] == 'u' {
            Elem::U16
        } else {
            Elem::I16
        }
    } else {
        if s[at] == 'u' {
            Elem::U128
        } else {
            Elem::I128
        }
    }
}

/// The shape that a text names if it names any.
pub open spec fn read_shape(s: Seq<char>) -> Shape {
    if s[0] == 'V' {
        if s[2] == 'l' {
            Shape::Single(read_elem(s, 7))
        } else {
            Shape::List(read_elem(s, 7))
        }
    } else if s[0] == 'S' {
        Shape::HashSet(read_elem(s, 7))
    } else if s[0] == 'M' {
        Shape::HashMap(read_elem(s, 7), read_elem(s, 8 + elem_name(read_elem(s, 7)).len() as int))
    } else if s[5] == 'S' {
        Shape::IndexSet(read_elem(s, 12))
    } else {
        Shape::IndexMap(read_elem(s, 12), read_elem(s, 13 + elem_name(read_elem(s, 12)).len() as int))
    }
}

/// The payload type that a discriminator names, if it names one.
pub open spec fn shape_named(kind: Seq<char>) -> Option<Shape> {
    if name_of(read_shape(kind)) == kind {
        Some(read_shape(kind))
    } else {
        None
    }
}

/// An element type is read back from wherever its name stands.
pub proof fn lemma_read_elem(s: Seq<char>, at: int, e: Elem)
    requires
        0 <= at,
        at + elem_name(e).len() <= s.len(),
        forall|j: int| 0 <= j < elem_name(e).len() ==> s[at + j] == #[trigger] elem_name(e)[j],
    ensures
        read_elem(s, at) == e,
{
    let name = elem_name(e);
    assert(s[at] == name[0]);
    assert(s[at + 1] == name[1]);
    if name.len() > 2 {
        assert(s[at + 2] == name[2]);
    }
}

/// Where the parts of a name stand in it.
pub proof fn lemma_name_parts(shape: Shape)
    ensures
        name_of(shape).len() == shape_prefix(shape).len() + shape_args(shape).len() + 2,
        forall|j: int| 0 <= j < shape_prefix(shape).len() ==> name_of(shape)[j] == #[trigger] shape_prefix(shape)[j],
        name_of(shape)[shape_prefix(shape).len() as int] == '<',
        forall|j: int|
            0 <= j < shape_args(shape).len() ==> name_of(shape)[shape_prefix(shape).len() + 1 + j]
                == #[trigger] shape_args(shape)[j],
        name_of(shape)[name_of(shape).len() - 1] == '>',
        name_of(shape).len() >= 10,
        shape_prefix(shape).len() == 11 ==> name_of(shape).len() >= 15,
        2 <= shape_args(shape).len(),
{
}

/// The name of an element type has two to six characters.
pub proof fn lemma_elem_name_len(e: Elem)
    ensures
        2 <= elem_name(e).len() <= 6,
{
}

/// A shape is read back from its name: no two shapes share a name.
pub proof fn law_name_read_back(shape: Shape)
    ensures
        read_shape(name_of(shape)) == shape,
        shape_named(name_of(shape)) == Some(shape),
{
    let s = name_of(shape);
    lemma_name_parts(shape);
    let p = shape_prefix(shape);
    let a = shape_args(shape);
    assert(s[0] == p[0]);
    assert(s[2] == p[2]);
    assert(s[5] == p[5]);
    match shape {
        Shape::Single(e) => {
            assert forall|j: int| 0 <= j < elem_name(e).len() implies s[7 + j] == #[trigger] elem_name(e)[j] by {
                assert(s[p.len() + 1 + j] == a[j]);
            }
            lemma_read_elem(s, 7, e);
        },
        Shape::List(e) => {
            assert forall|j: int| 0 <= j < elem_name(e).len() implies s[7 + j] == #[trigger] elem_name(e)[j] by {
                assert(s[p.len() + 1 + j] == a[j]);
            }
            lemma_read_elem(s, 7, e);
        },
        Shape::HashSet(e) => {
            assert forall|j: int| 0 <= j < elem_name(e).len() implies s[7 + j] == #[trigger] elem_name(e)[j] by {
                assert(s[p.len() + 1 + j] == a[j]);
            }
            lemma_read_elem(s, 7, e);
        },
        Shape::IndexSet(e) => {
            assert forall|j: int| 0 <= j < elem_name(e).len() implies s[12 + j] == #[trigger] elem_name(e)[j] by {
                assert(s[p.len() + 1 + j] == a[j]);
            }
            lemma_read_elem(s, 12, e);
        },
        Shape::HashMap(k, v) => {
            lemma_elem_name_len(k);
            lemma_elem_name_len(v);
            let n = elem_name(k).len() as int;
            assert forall|j: int| 0 <= j < elem_name(k).len() implies s[7 + j] == #[trigger] elem_name(k)[j] by {
                assert(s[p.len() + 1 + j] == a[j]);
            }
            lemma_read_elem(s, 7, k);
            assert forall|j: int| 0 <= j < elem_name(v).len() implies s[8 + n + j] == #[trigger] elem_name(v)[j] by {
                assert(s[p.len() + 1 + (n + 1 + j)] == a[n + 1 + j]);
            }
            lemma_read_elem(s, 8 + n, v);
        },
        Shape::IndexMap(k, v) => {
            lemma_elem_name_len(k);
            lemma_elem_name_len(v);
            let n = elem_name(k).len() as int;
            assert forall|j: int| 0 <= j < elem_name(k).len() implies s[12 + j] == #[trigger] elem_name(k)[j] by {
                assert(s[p.len() + 1 + j] == a[j]);
            }
            lemma_read_elem(s, 12, k);
            assert forall|j: int| 0 <= j < elem_name(v).len() implies s[13 + n + j] == #[trigger] elem_name(v)[j] by {
                assert(s[p.len() + 1 + (n + 1 + j)] == a[n + 1 + j]);
            }
            lemma_read_elem(s, 13 + n, v);
        },
    }
}

/// Two shapes with one name are one shape.
pub proof fn law_names_differ(a: Shape, b: Shape)
    requires
        name_of(a) == name_of(b),
    ensures
        a == b,
{
    law_name_read_back(a);
    law_name_read_back(b);
}

/// The name of an element type.
pub fn elem_str(e: Elem) -> (name: &'static str)
    ensures
        name@ == elem_name(e),
{
    proof {
        reveal_strlit("bool");
        reveal_strlit("u8");
        reveal_strlit("i8");
        reveal_strlit("u16");
        reveal_strlit("i16");
        reveal_strlit("u32");
        reveal_strlit("i32");
        reveal_strlit("u64");
        reveal_strlit("i64");
        reveal_strlit("u128");
        reveal_strlit("i128");
        reveal_strlit("String");
    }
    let name = match e {
        Elem::Bool => "bool",
        Elem::U8 => "u8",
        Elem::I8 => "i8",
        Elem::U16 => "u16",
        Elem::I16 => "i16",
        Elem::U32 => "u32",
        Elem::I32 => "i32",
        Elem::U64 => "u64",
        Elem::I64 => "i64",
        Elem::U128 => "u128",
        Elem::I128 => "i128",
        Elem::Str => "String",
    };
    assert(name@ =~= elem_name(e));
    name
}

/// The length of the name of an element type.
fn elem_len(e: Elem) -> (len: usize)
    ensures
        len == elem_name(e).len(),
{
    match e {
        Elem::Bool => 4,
        Elem::U8 => 2,
        Elem::I8 => 2,
        Elem::U16 => 3,
        Elem::I16 => 3,
        Elem::U32 => 3,
        Elem::I32 => 3,
        Elem::U64 => 3,
        Elem::I64 => 3,
        Elem::U128 => 4,
        Elem::I128 => 4,
        Elem::Str => 6,
    }
}

/// The name of a shape, without its element types.
fn prefix_str(shape: Shape) -> (name: &'static str)
    ensures
        name@ == shape_prefix(shape),
{
    proof {
        reveal_strlit("ValTag");
        reveal_strlit("VecTag");
        reveal_strlit("SetTag");
        reveal_strlit("IndexSetTag");
        reveal_strlit("MapTag");
        reveal_strlit("IndexMapTag");
    }
    let name = match shape {
        Shape::Single(_) => "ValTag",
        Shape::List(_) => "VecTag",
        Shape::HashSet(_) => "SetTag",
        Shape::IndexSet(_) => "IndexSetTag",
        Shape::HashMap(_, _) => "MapTag",
        Shape::IndexMap(_, _) => "IndexMapTag",
    };
    assert(name@ =~= shape_prefix(shape));
    name
}

/// The discriminator of a payload type.
pub fn shape_name(shape: Shape) -> (name: String)
    ensures
        name@ == name_of(shape),
{
    proof {
        reveal_strlit("<");
        reveal_strlit(">");
        reveal_strlit(",");
        assert("<"@ =~= seq!['<']);
        assert(">"@ =~= seq!['>']);
        assert(","@ =~= seq![',']);
    }
    let name = prefix_str(shape).to_owned().concat("<");
    let name = match shape {
        Shape::Single(e) => name.concat(elem_str(e)),
        Shape::List(e) => name.concat(elem_str(e)),
        Shape::HashSet(e) => name.concat(elem_str(e)),
        Shape::IndexSet(e) => name.concat(elem_str(e)),
        Shape::HashMap(k, v) => name.concat(elem_str(k)).concat(",").concat(elem_str(v)),
        Shape::IndexMap(k, v) => name.concat(elem_str(k)).concat(",").concat(elem_str(v)),
    };
    let name = name.concat(">");
    assert(name@ =~= name_of(shape));
    name
}

/// The element type whose name starts at a position of a text.
fn read_elem_at(kind: &str, at: usize) -> (e: Elem)
    requires
        at + 3 <= kind@.len() <= usize::MAX,
    ensures
        e == read_elem(kind@, at as int),
{
    let first = kind.get_char(at);
    let second = kind.get_char(at + 1);
    let third = kind.get_char(at + 2);
    let unsigned = first == 'u';
    if first == 'b' {
        Elem::Bool
    } else if first == 'S' {
        Elem::Str
    } else if second == '8' {
        if unsigned {
            Elem::U8
        } else {
            Elem::I8
        }
    } else if second == '3' {
        if unsigned {
            Elem::U32
        } else {
            Elem::I32
        }
    } else if second == '6' {
        if unsigned {
            Elem::U64
        } else {
            Elem::I64
        }
    } else if third == '6' {
        if unsigned {
            Elem::U16
        } else {
            Elem::I16
        }
    } else {
        if unsigned {
            Elem::U128
        } else {
            Elem::I128
        }
    }
}

/// Reads a discriminator: the payload type that it names, or nothing if it
/// names none.
pub fn parse_shape(kind: &str) -> (shape: Option<Shape>)
    ensures
        shape == shape_named(kind@),
{
    let ghost named = read_shape(kind@);
    proof {
        lemma_name_parts(named);
    }
    let len = kind.unicode_len();
    if len < 10 {
        return None;
    }
    let c0 = kind.get_char(0);
    let c2 = kind.get_char(2);
    let c5 = kind.get_char(5);
    let long = !(c0 == 'V' || c0 == 'S' || c0 == 'M');
    if long && len < 15 {
        return None;
    }
    let start: usize = if long {
        12
    } else {
        7
    };
    let first = read_elem_at(kind, start);
    let paired = c0 == 'M' || (long && c5 != 'S');
    let candidate = if paired {
        let next = start + 1 + elem_len(first);
        if len < next + 3 {
            proof {
                match named {
                    Shape::HashMap(k, v) => {
                        lemma_elem_name_len(v);
                    },
                    Shape::IndexMap(k, v) => {
                        lemma_elem_name_len(v);
                    },
                    _ => {},
                }
            }
            return None;
        }
        let second = read_elem_at(kind, next);
        if long {
            Shape::IndexMap(first, second)
        } else {
            Shape::HashMap(first, second)
        }
    } else if long {
        Shape::IndexSet(first)
    } else if c0 == 'S' {
        Shape::HashSet(first)
    } else if c2 == 'l' {
        Shape::Single(first)
    } else {
        Shape::List(first)
    };
    assert(candidate == named);
    let name = shape_name(candidate);
    if name == kind.to_owned() {
        Some(candidate)
    } else {
        None
    }
}

} // verus!
