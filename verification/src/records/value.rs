//! The values that a tag can carry and the types they can have.

use vstd::prelude::*;

verus! {

/// The type of a single value.
#[derive(Debug, Clone, Copy, PartialEq, Eq, Structural)]
pub enum Elem {
    Bool,
    U8,
    I8,
    U16,
    I16,
    U32,
    I32,
    U64,
    I64,
    U128,
    I128,
    Str,
}

/// The type of a payload: one value, an ordered list, a set of distinct
/// values, or a map with distinct keys. Sets and maps come in two kinds, one
/// that promises no order and one that keeps the order of insertion.
#[derive(Debug, Clone, Copy, PartialEq, Eq, Structural)]
pub enum Shape {
    Single(Elem),
    List(Elem),
    HashSet(Elem),
    IndexSet(Elem),
    HashMap(Elem, Elem),
    IndexMap(Elem, Elem),
}

/// A single value.
#[derive(Debug, Clone, PartialEq, Eq)]
pub enum Scalar {
    Bool(bool),
    U8(u8),
    I8(i8),
    U16(u16),
    I16(i16),
    U32(u32),
    I32(i32),
    U64(u64),
    I64(i64),
    U128(u128),
    I128(i128),
    Str(String),
}

/// A single value, with text as a sequence of characters.
pub ghost enum ScalarView {
    Bool(bool),
    U8(u8),
    I8(i8),
    U16(u16),
    I16(i16),
    U32(u32),
    I32(i32),
    U64(u64),
    I64(i64),
    U128(u128),
    I128(i128),
    Str(Seq<char>),
}

impl ScalarView {
    /// The type of the value.
    pub open spec fn kind(self) -> Elem {
        match self {
            ScalarView::Bool(_) => Elem::Bool,
            ScalarView::U8(_) => Elem::U8,
            ScalarView::I8(_) => Elem::I8,
            ScalarView::U16(_) => Elem::U16,
            ScalarView::I16(_) => Elem::I16,
            ScalarView::U32(_) => Elem::U32,
            ScalarView::I32(_) => Elem::I32,
            ScalarView::U64(_) => Elem::U64,
            ScalarView::I64(_) => Elem::I64,
            ScalarView::U128(_) => Elem::U128,
            ScalarView::I128(_) => Elem::I128,
            ScalarView::Str(_) => Elem::Str,
        }
    }
}

impl View for Scalar {
    type V = ScalarView;

    open spec fn view(&self) -> ScalarView {
        match self {
            Scalar::Bool(v) => ScalarView::Bool(*v),
            Scalar::U8(v) => ScalarView::U8(*v),
            Scalar::I8(v) => ScalarView::I8(*v),
            Scalar::U16(v) => ScalarView::U16(*v),
            Scalar::I16(v) => ScalarView::I16(*v),
            Scalar::U32(v) => ScalarView::U32(*v),
            Scalar::I32(v) => ScalarView::I32(*v),
            Scalar::U64(v) => ScalarView::U64(*v),
            Scalar::I64(v) => ScalarView::I64(*v),
            Scalar::U128(v) => ScalarView::U128(*v),
            Scalar::I128(v) => ScalarView::I128(*v),
            Scalar::Str(v) => ScalarView::Str(v@),
        }
    }
}

impl Scalar {
    /// The type of the value.
    pub fn kind(&self) -> (kind: Elem)
        ensures
            kind == self@.kind(),
    {
        match self {
            Scalar::Bool(_) => Elem::Bool,
            Scalar::U8(_) => Elem::U8,
            Scalar::I8(_) => Elem::I8,
            Scalar::U16(_) => Elem::U16,
            Scalar::I16(_) => Elem::I16,
            Scalar::U32(_) => Elem::U32,
            Scalar::I32(_) => Elem::I32,
            Scalar::U64(_) => Elem::U64,
            Scalar::I64(_) => Elem::I64,
            Scalar::U128(_) => Elem::U128,
            Scalar::I128(_) => Elem::I128,
            Scalar::Str(_) => Elem::Str,
        }
    }

    /// Whether two values are of the same type and equal.
    pub fn same(&self, other: &Scalar) -> (same: bool)
        ensures
            same == (self@ == other@),
    {
        match (self, other) {
            (Scalar::Bool(a), Scalar::Bool(b)) => *a == *b,
            (Scalar::U8(a), Scalar::U8(b)) => *a == *b,
            (Scalar::I8(a), Scalar::I8(b)) => *a == *b,
            (Scalar::U16(a), Scalar::U16(b)) => *a == *b,
            (Scalar::I16(a), Scalar::I16(b)) => *a == *b,
            (Scalar::U32(a), Scalar::U32(b)) => *a == *b,
            (Scalar::I32(a), Scalar::I32(b)) => *a == *b,
            (Scalar::U64(a), Scalar::U64(b)) => *a == *b,
            (Scalar::I64(a), Scalar::I64(b)) => *a == *b,
            (Scalar::U128(a), Scalar::U128(b)) => *a == *b,
            (Scalar::I128(a), Scalar::I128(b)) => *a == *b,
            (Scalar::Str(a), Scalar::Str(b)) => *a == *b,
            _ => false,
        }
    }

    /// A value equal to this one.
    pub fn copy(&self) -> (copy: Scalar)
        ensures
            copy@ == self@,
    {
        match self {
            Scalar::Bool(v) => Scalar::Bool(*v),
            Scalar::U8(v) => Scalar::U8(*v),
            Scalar::I8(v) => Scalar::I8(*v),
            Scalar::U16(v) => Scalar::U16(*v),
            Scalar::I16(v) => Scalar::I16(*v),
            Scalar::U32(v) => Scalar::U32(*v),
            Scalar::I32(v) => Scalar::I32(*v),
            Scalar::U64(v) => Scalar::U64(*v),
            Scalar::I64(v) => Scalar::I64(*v),
            Scalar::U128(v) => Scalar::U128(*v),
            Scalar::I128(v) => Scalar::I128(*v),
            Scalar::Str(v) => Scalar::Str(v.clone()),
        }
    }
}

/// The values of a list.
pub open spec fn scalar_views(values: Seq<Scalar>) -> Seq<ScalarView> {
    values.map_values(|v: Scalar| v@)
}

/// The keys and values of a list of pairs.
pub open spec fn pair_views(pairs: Seq<(Scalar, Scalar)>) -> Seq<(ScalarView, ScalarView)> {
    pairs.map_values(|p: (Scalar, Scalar)| (p.0@, p.1@))
}

/// What a tag carries: one value, several values, or pairs of key and value.
#[derive(Debug, Clone, PartialEq, Eq)]
pub enum Value {
    One(Scalar),
    Many(Vec<Scalar>),
    Pairs(Vec<(Scalar, Scalar)>),
}

/// What a tag carries, with text as sequences of characters.
pub ghost enum ValueView {
    One(ScalarView),
    Many(Seq<ScalarView>),
    Pairs(Seq<(ScalarView, ScalarView)>),
}

impl View for Value {
    type V = ValueView;

    open spec fn view(&self) -> ValueView {
        match self {
            Value::One(v) => ValueView::One(v@),
            Value::Many(vs) => ValueView::Many(scalar_views(vs@)),
            Value::Pairs(ps) => ValueView::Pairs(pair_views(ps@)),
        }
    }
}

/// Every value of the list has the type.
pub open spec fn all_of_kind(values: Seq<ScalarView>, kind: Elem) -> bool {
    forall|i: int| 0 <= i < values.len() ==> (#[trigger] values[i]).kind() == kind
}

/// No value occurs twice in the list.
pub open spec fn distinct(values: Seq<ScalarView>) -> bool {
    forall|i: int, j: int| 0 <= i < j < values.len() ==> #[trigger] values[i] != #[trigger] values[j]
}

/// The keys of a list of pairs.
pub open spec fn keys_of(pairs: Seq<(ScalarView, ScalarView)>) -> Seq<ScalarView> {
    pairs.map_values(|p: (ScalarView, ScalarView)| p.0)
}

/// The values of a list of pairs.
pub open spec fn values_of(pairs: Seq<(ScalarView, ScalarView)>) -> Seq<ScalarView> {
    pairs.map_values(|p: (ScalarView, ScalarView)| p.1)
}

impl ValueView {
    /// Whether the payload is of the type: the right form, every value of
    /// the right element type, and no value twice in a set nor key twice in a
    /// map.
    pub open spec fn conforms(self, shape: Shape) -> bool {
        match (shape, self) {
            (Shape::Single(e), ValueView::One(v)) => v.kind() == e,
            (Shape::List(e), ValueView::Many(vs)) => all_of_kind(vs, e),
            (Shape::HashSet(e), ValueView::Many(vs)) => all_of_kind(vs, e) && distinct(vs),
            (Shape::IndexSet(e), ValueView::Many(vs)) => all_of_kind(vs, e) && distinct(vs),
            (Shape::HashMap(k, v), ValueView::Pairs(ps)) => all_of_kind(keys_of(ps), k) && all_of_kind(values_of(ps), v)
                && distinct(keys_of(ps)),
            (Shape::IndexMap(k, v), ValueView::Pairs(ps)) => all_of_kind(keys_of(ps), k) && all_of_kind(
                values_of(ps),
                v,
            ) && distinct(keys_of(ps)),
            _ => false,
        }
    }
}

/// Whether every value of the list has the type.
fn check_kind(values: &Vec<Scalar>, kind: Elem) -> (all: bool)
    ensures
        all == all_of_kind(scalar_views(values@), kind),
{
    let mut at: usize = 0;
    while at < values.len()
        invariant
            at <= values@.len(),
            forall|i: int| 0 <= i < at ==> (#[trigger] scalar_views(values@)[i]).kind() == kind,
        decreases values@.len() - at,
    {
        if values[at].kind() != kind {
            assert(scalar_views(values@)[at as int].kind() != kind);
            return false;
        }
        at = at + 1;
    }
    true
}

/// Whether no value occurs twice in the list.
fn check_distinct(values: &Vec<Scalar>) -> (none: bool)
    ensures
        none == distinct(scalar_views(values@)),
{
    let ghost views = scalar_views(values@);
    let mut at: usize = 0;
    while at < values.len()
        invariant
            at <= values@.len(),
            views == scalar_views(values@),
            forall|i: int, j: int| 0 <= i < j < at ==> #[trigger] views[i] != #[trigger] views[j],
        decreases values@.len() - at,
    {
        let mut before: usize = 0;
        while before < at
            invariant
                before <= at < values@.len(),
                views == scalar_views(values@),
                forall|i: int| 0 <= i < before ==> #[trigger] views[i] != views[at as int],
            decreases at - before,
        {
            if values[before].same(&values[at]) {
                assert(views[before as int] == views[at as int]);
                return false;
            }
            before = before + 1;
        }
        at = at + 1;
    }
    true
}

/// The keys of a list of pairs, copied.
fn copy_keys(pairs: &Vec<(Scalar, Scalar)>) -> (keys: Vec<Scalar>)
    ensures
        scalar_views(keys@) == keys_of(pair_views(pairs@)),
{
    let mut keys: Vec<Scalar> = Vec::new();
    let mut at: usize = 0;
    while at < pairs.len()
        invariant
            at <= pairs@.len(),
            keys@.len() == at,
            forall|i: int| 0 <= i < at ==> (#[trigger] keys@[i])@ == pairs@[i].0@,
        decreases pairs@.len() - at,
    {
        keys.push(pairs[at].0.copy());
        at = at + 1;
    }
    assert(scalar_views(keys@) =~= keys_of(pair_views(pairs@)));
    keys
}

/// The values of a list of pairs, copied.
fn copy_values(pairs: &Vec<(Scalar, Scalar)>) -> (values: Vec<Scalar>)
    ensures
        scalar_views(values@) == values_of(pair_views(pairs@)),
{
    let mut values: Vec<Scalar> = Vec::new();
    let mut at: usize = 0;
    while at < pairs.len()
        invariant
            at <= pairs@.len(),
            values@.len() == at,
            forall|i: int| 0 <= i < at ==> (#[trigger] values@[i])@ == pairs@[i].1@,
        decreases pairs@.len() - at,
    {
        values.push(pairs[at].1.copy());
        at = at + 1;
    }
    assert(scalar_views(values@) =~= values_of(pair_views(pairs@)));
    values
}

impl Value {
    /// Whether the payload is of the type.
    pub fn conforms(&self, shape: Shape) -> (fits: bool)
        ensures
            fits == self@.conforms(shape),
    {
        match (shape, self) {
            (Shape::Single(e), Value::One(v)) => v.kind() == e,
            (Shape::List(e), Value::Many(vs)) => check_kind(vs, e),
            (Shape::HashSet(e), Value::Many(vs)) => check_kind(vs, e) && check_distinct(vs),
            (Shape::IndexSet(e), Value::Many(vs)) => check_kind(vs, e) && check_distinct(vs),
            (Shape::HashMap(k, v), Value::Pairs(ps)) => {
                let keys = copy_keys(ps);
                let values = copy_values(ps);
                check_kind(&keys, k) && check_kind(&values, v) && check_distinct(&keys)
            },
            (Shape::IndexMap(k, v), Value::Pairs(ps)) => {
                let keys = copy_keys(ps);
                let values = copy_values(ps);
                check_kind(&keys, k) && check_kind(&values, v) && check_distinct(&keys)
            },
            _ => false,
        }
    }

    /// A payload equal to this one.
    pub fn copy(&self) -> (copy: Value)
        ensures
            copy@ == self@,
    {
        match self {
            Value::One(v) => Value::One(v.copy()),
            Value::Many(vs) => {
                let mut out: Vec<Scalar> = Vec::new();
                let mut at: usize = 0;
                while at < vs.len()
                    invariant
                        at <= vs@.len(),
                        out@.len() == at,
                        forall|i: int| 0 <= i < at ==> (#[trigger] out@[i])@ == vs@[i]@,
                    decreases vs@.len() - at,
                {
                    out.push(vs[at].copy());
                    at = at + 1;
                }
                assert(scalar_views(out@) =~= scalar_views(vs@));
                Value::Many(out)
            },
            Value::Pairs(ps) => {
                let mut out: Vec<(Scalar, Scalar)> = Vec::new();
                let mut at: usize = 0;
                while at < ps.len()
                    invariant
                        at <= ps@.len(),
                        out@.len() == at,
                        forall|i: int|
                            0 <= i < at ==> (#[trigger] out@[i]).0@ == ps@[i].0@ && out@[i].1@ == ps@[i].1@,
                    decreases ps@.len() - at,
                {
                    out.push((ps[at].0.copy(), ps[at].1.copy()));
                    at = at + 1;
                }
                assert(pair_views(out@) =~= pair_views(ps@));
                Value::Pairs(out)
            },
        }
    }
}

} // verus!
