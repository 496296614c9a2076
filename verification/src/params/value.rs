//! The values of the plan language, as far as the engine reads them.

use vstd::prelude::*;
use vstd::string::StringExecFns;

verus! {

/// Where in a source a value stands.
#[derive(Debug, Clone)]
pub struct Span {
    /// The source, most often the path of the plan.
    pub source: String,
    /// The offset of the first byte.
    pub start: usize,
    /// The offset behind the last byte.
    pub end: usize,
}

/// A value together with the place where it stands.
#[derive(Debug)]
pub struct Spanned<T> {
    pub inner: T,
    pub span: Span,
}

/// A value of the plan language. A number is held as its decimal text
/// in normal form; of a function only its presence is known.
#[derive(Debug)]
pub enum Value {
    Null,
    Boolean(bool),
    String(String),
    Number(String),
    Function,
    List(Vec<Spanned<Value>>),
    Object(Vec<(String, Spanned<Value>)>),
}

/// The mathematical shape of a [`Span`].
pub ghost struct SpanShape {
    pub source: Seq<char>,
    pub start: int,
    pub end: int,
}

/// The mathematical shape of a [`Value`], each value with its place.
pub ghost enum ValueShape {
    Null,
    Boolean(bool),
    String(Seq<char>),
    Number(Seq<char>),
    Function,
    List(Seq<(ValueShape, SpanShape)>),
    Object(Seq<(Seq<char>, ValueShape, SpanShape)>),
}

impl View for Span {
    type V = SpanShape;

    open spec fn view(&self) -> SpanShape {
        SpanShape { source: self.source@, start: self.start as int, end: self.end as int }
    }
}

/// The shape of a value.
pub open spec fn value_shape(value: Value) -> ValueShape
    decreases value,
{
    match value {
        Value::Null => ValueShape::Null,
        Value::Boolean(b) => ValueShape::Boolean(b),
        Value::String(text) => ValueShape::String(text@),
        Value::Number(text) => ValueShape::Number(text@),
        Value::Function => ValueShape::Function,
        Value::List(items) => ValueShape::List(
            Seq::new(
                items.len() as nat,
                |i: int|
                    if 0 <= i < items.len() {
                        (value_shape(items[i].inner), items[i].span@)
                    } else {
                        arbitrary()
                    },
            ),
        ),
        Value::Object(entries) => ValueShape::Object(
            Seq::new(
                entries.len() as nat,
                |i: int|
                    if 0 <= i < entries.len() {
                        (entries[i].0@, value_shape(entries[i].1.inner), entries[i].1.span@)
                    } else {
                        arbitrary()
                    },
            ),
        ),
    }
}

impl View for Value {
    type V = ValueShape;

    open spec fn view(&self) -> ValueShape {
        value_shape(*self)
    }
}

impl Span {
    /// Whether both spans are the same place.
    pub fn same_as(&self, other: &Span) -> (same: bool)
        ensures
            same == (self@ == other@),
    {
        self.source == other.source && self.start == other.start && self.end == other.end
    }

    /// Another span for the same place.
    pub fn duplicate(&self) -> (copy: Self)
        ensures
            copy@ == self@,
    {
        Span { source: self.source.clone(), start: self.start, end: self.end }
    }
}

/// The first entry from `from` on with the name `key`, if there is one.
pub open spec fn named_in(
    entries: Seq<(String, Spanned<Value>)>,
    key: Seq<char>,
    from: int,
) -> Option<Spanned<Value>>
    decreases entries.len() - from,
{
    if from < 0 || from >= entries.len() {
        None
    } else if entries[from].0@ == key {
        Some(entries[from].1)
    } else {
        named_in(entries, key, from + 1)
    }
}

/// The place of the first entry from `from` on with the name `key`, if there is one.
pub open spec fn place_in(entries: Seq<(String, Spanned<Value>)>, key: Seq<char>, from: int) -> Option<
    int,
>
    decreases entries.len() - from,
{
    if from < 0 || from >= entries.len() {
        None
    } else if entries[from].0@ == key {
        Some(from)
    } else {
        place_in(entries, key, from + 1)
    }
}

/// The entry with a name is the entry at the place of the name.
pub proof fn lemma_named_at_place(entries: Seq<(String, Spanned<Value>)>, key: Seq<char>, from: int)
    requires
        0 <= from,
    ensures
        match place_in(entries, key, from) {
            Some(at) => from <= at < entries.len() && entries[at].0@ == key && named_in(
                entries,
                key,
                from,
            ) == Some(entries[at].1),
            None => named_in(entries, key, from) is None,
        },
    decreases entries.len() - from,
{
    if from < entries.len() && entries[from].0@ != key {
        lemma_named_at_place(entries, key, from + 1);
    }
}

impl Value {
    /// The place of the entry of an object with the name `key`, if there
    /// is one; the first where several have the name.
    pub fn entry_at(entries: &Vec<(String, Spanned<Value>)>, key: &str) -> (found: Option<usize>)
        ensures
            match found {
                Some(at) => place_in(entries@, key@, 0) == Some(at as int) && at < entries.len(),
                None => place_in(entries@, key@, 0) is None,
            },
    {
        let name = String::from_str(key);
        let mut i: usize = 0;
        while i < entries.len()
            invariant
                i <= entries.len(),
                name@ == key@,
                place_in(entries@, key@, i as int) == place_in(entries@, key@, 0),
            decreases entries.len() - i,
        {
            if entries[i].0 == name {
                return Some(i);
            }
            i += 1;
        }
        None
    }

    /// Whether both values are equal: values of the same kind that hold
    /// the same, lists and objects part by part and in order, places
    /// included. A function equals nothing.
    pub fn same_as(&self, other: &Value) -> (same: bool)
        ensures
            same == (self@ == other@ && !self.holds_function()),
        decreases self,
    {
        match (self, other) {
            (Value::Null, Value::Null) => true,
            (Value::Boolean(a), Value::Boolean(b)) => *a == *b,
            (Value::String(a), Value::String(b)) => *a == *b,
            (Value::Number(a), Value::Number(b)) => *a == *b,
            (Value::List(a), Value::List(b)) => {
                if a.len() != b.len() {
                    assert(self@->List_0.len() != other@->List_0.len());
                    return false;
                }
                let mut i: usize = 0;
                while i < a.len()
                    invariant
                        i <= a.len(),
                        a.len() == b.len(),
                        self matches Value::List(x) && x == a,
                        other matches Value::List(y) && y == b,
                        forall|j: int|
                            0 <= j < i ==> self@->List_0[j] == other@->List_0[j] && !(
                            #[trigger] a[j]).inner.holds_function(),
                    decreases a.len() - i,
                {
                    if !a[i].inner.same_as(&b[i].inner) || !a[i].span.same_as(&b[i].span) {
                        assert(self@->List_0[i as int] != other@->List_0[i as int]
                            || a[i as int].inner.holds_function());
                        return false;
                    }
                    i += 1;
                }
                assert(self@->List_0 =~= other@->List_0);
                true
            },
            (Value::Object(a), Value::Object(b)) => {
                if a.len() != b.len() {
                    assert(self@->Object_0.len() != other@->Object_0.len());
                    return false;
                }
                let mut i: usize = 0;
                while i < a.len()
                    invariant
                        i <= a.len(),
                        a.len() == b.len(),
                        self matches Value::Object(x) && x == a,
                        other matches Value::Object(y) && y == b,
                        forall|j: int|
                            0 <= j < i ==> self@->Object_0[j] == other@->Object_0[j] && !(
                            #[trigger] a[j]).1.inner.holds_function(),
                    decreases a.len() - i,
                {
                    if !(a[i].0 == b[i].0) || !a[i].1.inner.same_as(&b[i].1.inner)
                        || !a[i].1.span.same_as(&b[i].1.span) {
                        assert(self@->Object_0[i as int] != other@->Object_0[i as int]
                            || a[i as int].1.inner.holds_function());
                        return false;
                    }
                    i += 1;
                }
                assert(self@->Object_0 =~= other@->Object_0);
                true
            },
            _ => false,
        }
    }

    /// Whether the value is a function or holds one.
    pub open spec fn holds_function(&self) -> bool
        decreases self,
    {
        match self {
            Value::Function => true,
            Value::List(items) => exists|i: int|
                0 <= i < items.len() && (#[trigger] items[i]).inner.holds_function(),
            Value::Object(entries) => exists|i: int|
                0 <= i < entries.len() && (#[trigger] entries[i]).1.inner.holds_function(),
            _ => false,
        }
    }

    /// Another value that holds the same.
    pub fn duplicate(&self) -> (copy: Self)
        ensures
            copy@ == self@,
        decreases self,
    {
        match self {
            Value::Null => Value::Null,
            Value::Boolean(b) => Value::Boolean(*b),
            Value::String(text) => Value::String(text.clone()),
            Value::Number(text) => Value::Number(text.clone()),
            Value::Function => Value::Function,
            Value::List(items) => {
                let mut copies: Vec<Spanned<Value>> = Vec::new();
                let mut i: usize = 0;
                while i < items.len()
                    invariant
                        i <= items.len(),
                        self matches Value::List(x) && x == items,
                        copies.len() == i,
                        forall|j: int|
                            0 <= j < i ==> (#[trigger] copies[j]).inner@ == items[j].inner@
                                && copies[j].span@ == items[j].span@,
                    decreases items.len() - i,
                {
                    copies.push(
                        Spanned {
                            inner: items[i].inner.duplicate(),
                            span: items[i].span.duplicate(),
                        },
                    );
                    i += 1;
                }
                let copy = Value::List(copies);
                assert(copy@->List_0 =~= self@->List_0);
                copy
            },
            Value::Object(entries) => {
                let mut copies: Vec<(String, Spanned<Value>)> = Vec::new();
                let mut i: usize = 0;
                while i < entries.len()
                    invariant
                        i <= entries.len(),
                        self matches Value::Object(x) && x == entries,
                        copies.len() == i,
                        forall|j: int|
                            0 <= j < i ==> (#[trigger] copies[j]).0@ == entries[j].0@
                                && copies[j].1.inner@ == entries[j].1.inner@ && copies[j].1.span@
                                == entries[j].1.span@,
                    decreases entries.len() - i,
                {
                    copies.push(
                        (
                            entries[i].0.clone(),
                            Spanned {
                                inner: entries[i].1.inner.duplicate(),
                                span: entries[i].1.span.duplicate(),
                            },
                        ),
                    );
                    i += 1;
                }
                let copy = Value::Object(copies);
                assert(copy@->Object_0 =~= self@->Object_0);
                copy
            },
        }
    }

    /// The entry of an object with the name `key`, if there is one; the
    /// first where several have the name.
    pub fn entry<'a>(entries: &'a Vec<(String, Spanned<Value>)>, key: &String) -> (found: Option<
        &'a Spanned<Value>,
    >)
        ensures
            match found {
                Some(value) => named_in(entries@, key@, 0) == Some(*value),
                None => named_in(entries@, key@, 0) is None,
            },
    {
        let mut i: usize = 0;
        while i < entries.len()
            invariant
                i <= entries.len(),
                named_in(entries@, key@, i as int) == named_in(entries@, key@, 0),
            decreases entries.len() - i,
        {
            if entries[i].0 == *key {
                return Some(&entries[i].1);
            }
            i += 1;
        }
        None
    }
}

} // verus!
