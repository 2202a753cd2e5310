use vstd::prelude::*;

verus! {

/// Mathematical model of a runtime value.
///
/// Strings are modelled by their character sequences; lists by the index of
/// their backing cell in the context's list arena, so that two `List` values
/// holding the same index are aliases of one shared cell.
pub enum ValueModel {
    Uninit,
    Empty,
    Bool(bool),
    Int(i64),
    Str(Seq<char>),
    List(int),
    LoopId(int),
    LocalVariable(int),
}

/// A runtime value flowing through the graph.
///
/// Every variant but `List` has copy semantics: reading it hands the reader
/// its own value. A `List` carries the index of a shared cell in the
/// context's list arena; copying the value copies the index, so all copies
/// observe mutations of the one cell.
#[derive(Debug)]
pub enum Value {
    /// Never assigned; the default content of a fresh variable slot.
    Uninit,
    /// Explicitly empty.
    Empty,
    Bool(bool),
    Int(i64),
    String(String),
    /// Index of a shared list cell in the context's arena.
    List(usize),
    /// Handle of an active loop's control slot.
    LoopId(usize),
    /// Reference to a variable slot, consumed by variable-access behaviors.
    LocalVariable(usize),
}

impl View for Value {
    type V = ValueModel;

    open spec fn view(&self) -> ValueModel {
        match self {
            Value::Uninit => ValueModel::Uninit,
            Value::Empty => ValueModel::Empty,
            Value::Bool(b) => ValueModel::Bool(*b),
            Value::Int(i) => ValueModel::Int(*i),
            Value::String(s) => ValueModel::Str(s@),
            Value::List(l) => ValueModel::List(*l as int),
            Value::LoopId(i) => ValueModel::LoopId(*i as int),
            Value::LocalVariable(k) => ValueModel::LocalVariable(*k as int),
        }
    }
}

impl Value {
    /// A copy of this value: a deep copy for every plain variant, and a copy
    /// of the shared cell index for `List`.
    pub fn duplicate(&self) -> (r: Value)
        ensures
            r@ == self@,
    {
        match self {
            Value::Uninit => Value::Uninit,
            Value::Empty => Value::Empty,
            Value::Bool(b) => Value::Bool(*b),
            Value::Int(i) => Value::Int(*i),
            Value::String(s) => Value::String(s.clone()),
            Value::List(l) => Value::List(*l),
            Value::LoopId(i) => Value::LoopId(*i),
            Value::LocalVariable(k) => Value::LocalVariable(*k),
        }
    }

    /// The `bool` inside a `Bool` value; other variants are malformed input.
    pub fn as_bool(&self) -> (r: bool)
        requires
            self is Bool,
        ensures
            self@ == ValueModel::Bool(r),
    {
        match self {
            Value::Bool(v) => *v,
            _ => unreached(),
        }
    }

    /// The integer inside an `Int` value; other variants are malformed input.
    pub fn as_int(&self) -> (r: i64)
        requires
            self is Int,
        ensures
            self@ == ValueModel::Int(r),
    {
        match self {
            Value::Int(v) => *v,
            _ => unreached(),
        }
    }

    /// The characters inside a `String` value.
    pub fn as_str(&self) -> (r: &str)
        requires
            self is String,
        ensures
            self@ == ValueModel::Str(r@),
    {
        match self {
            Value::String(v) => v.as_str(),
            _ => unreached(),
        }
    }

    /// The arena index inside a `List` value.
    pub fn as_list(&self) -> (r: usize)
        requires
            self is List,
        ensures
            self@ == ValueModel::List(r as int),
    {
        match self {
            Value::List(v) => *v,
            _ => unreached(),
        }
    }

    /// The slot key inside a `LocalVariable` value.
    pub fn as_local_variable(&self) -> (r: usize)
        requires
            self is LocalVariable,
        ensures
            self@ == ValueModel::LocalVariable(r as int),
    {
        match self {
            Value::LocalVariable(v) => *v,
            _ => unreached(),
        }
    }

    /// The loop handle inside a `LoopId` value.
    pub fn as_loop_id(&self) -> (r: usize)
        requires
            self is LoopId,
        ensures
            self@ == ValueModel::LoopId(r as int),
    {
        match self {
            Value::LoopId(v) => *v,
            _ => unreached(),
        }
    }

    /// Returns `true` if the value is `Uninit`.
    pub fn is_uninit(&self) -> (r: bool)
        ensures
            r == (self@ is Uninit),
    {
        matches!(self, Value::Uninit)
    }
}

/// The view of a vector of values, element by element.
pub open spec fn vals_view(vs: Seq<Value>) -> Seq<ValueModel> {
    vs.map_values(|v: Value| v@)
}

} // verus!
