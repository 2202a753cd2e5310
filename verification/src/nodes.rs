use vstd::prelude::*;

use crate::value::{Value, ValueModel, vals_view};
use crate::{FlowIndexes, ParameterIndexes};

verus! {

/// A behavior whose parameters are all resolved before it runs. It consumes
/// the resolved values and produces its outputs plus a branch index.
#[derive(Debug, Clone, Copy, PartialEq, Eq, Structural)]
pub enum DefaultOp {
    /// Passes its inputs through unchanged and selects branch 0.
    Noop,
    /// Sum of two integers, wrapping 64-bit.
    Addition,
    /// Difference of two integers, wrapping 64-bit.
    Subtraction,
    /// Strict `>` on two integers, producing a `Bool`.
    IsGreaterThan,
    /// Strict `<` on two integers, producing a `Bool`.
    IsLessThan,
    /// Assigns a value to a variable slot unconditionally; no output.
    LocalVariableSet,
    /// Wraps all its inputs, however many, into one new shared list cell.
    ListAssemble,
    /// Reads one element of a shared list by integer index.
    ListGet,
    /// Overwrites one element of a shared list by integer index; no output.
    ListSet,
    /// Length of a shared list, as an `Int`.
    ListLength,
    /// Consumes one `Bool`; selects branch 0 if true, else branch 1.
    DoubleBranch,
    /// Sets an active loop's flag to false; the owning loop observes the
    /// flag at its next condition check. No output.
    BreakLoop,
}

/// A behavior that controls the resolution of its own parameters, needed
/// where evaluation order or repetition matters.
#[derive(Debug, Clone, Copy, PartialEq, Eq, Structural)]
pub enum ManualOp {
    /// Resolves its key parameter first; only when the slot is still
    /// uninitialized does it resolve its default-value parameter, store the
    /// result and return it.
    LocalVariable,
    /// Inclusive-bounds counting loop; re-resolves its bound parameters
    /// once per iteration. Valid only on `Exec` nodes.
    FiniteLoop,
}

/// The two behavior categories: default behaviors have every parameter
/// resolved up front; manual behaviors drive the resolution engine
/// themselves.
#[derive(Debug, Clone, Copy, PartialEq, Eq, Structural)]
pub enum Exec {
    Default(DefaultOp),
    Manual(ManualOp),
}

/// Mathematical model of a node: the same shape over sequences and value
/// models.
pub enum NodeModel {
    Constant { values: Seq<ValueModel> },
    Start { next: Seq<FlowIndexes> },
    End { parameters: Seq<ParameterIndexes> },
    Exec { parameters: Seq<ParameterIndexes>, next: Seq<Seq<FlowIndexes>>, behavior: Exec },
    Operation { parameters: Seq<ParameterIndexes>, behavior: Exec },
}

/// One node of a graph. Data edges are `ParameterIndexes`; control edges are
/// `FlowIndexes`, grouped per branch on `Exec` nodes.
#[derive(Debug)]
pub enum Node {
    /// A fixed pool of literal values addressable by slot.
    Constant { values: Vec<Value> },
    /// The entry point; its outputs are seeded by the caller.
    Start { next: Vec<FlowIndexes> },
    /// Terminal node whose resolved parameters are the program's output.
    End { parameters: Vec<ParameterIndexes> },
    /// Control node: executed when flow reaches it, outputs cached, selects
    /// a group of outgoing flow edges by the returned branch index.
    Exec { parameters: Vec<ParameterIndexes>, next: Vec<Vec<FlowIndexes>>, behavior: Exec },
    /// Pure data node, re-evaluated on every reference.
    Operation { parameters: Vec<ParameterIndexes>, behavior: Exec },
}

impl View for Node {
    type V = NodeModel;

    open spec fn view(&self) -> NodeModel {
        match self {
            Node::Constant { values } => NodeModel::Constant { values: vals_view(values@) },
            Node::Start { next } => NodeModel::Start { next: next@ },
            Node::End { parameters } => NodeModel::End { parameters: parameters@ },
            Node::Exec { parameters, next, behavior } => NodeModel::Exec {
                parameters: parameters@,
                next: next@.map_values(|g: Vec<FlowIndexes>| g@),
                behavior: *behavior,
            },
            Node::Operation { parameters, behavior } => NodeModel::Operation {
                parameters: parameters@,
                behavior: *behavior,
            },
        }
    }
}

/// The parameter list of a node that has one.
pub open spec fn node_params(n: NodeModel) -> Option<Seq<ParameterIndexes>> {
    match n {
        NodeModel::End { parameters } => Option::Some(parameters),
        NodeModel::Exec { parameters, .. } => Option::Some(parameters),
        NodeModel::Operation { parameters, .. } => Option::Some(parameters),
        _ => Option::None,
    }
}

/// An immutable graph: an ordered, address-resolved node array. The caller
/// owns the array; the engine never mutates it.
#[derive(Debug, Clone, Copy)]
pub struct Code<'code> {
    pub nodes: &'code [Node],
}

impl<'code> Code<'code> {
    /// The model of the whole graph: the node models in order.
    pub open spec fn model(&self) -> Seq<NodeModel> {
        self.nodes@.map_values(|n: Node| n@)
    }

    /// The number of nodes.
    pub fn len(&self) -> (r: usize)
        ensures
            r == self.model().len(),
    {
        self.nodes.len()
    }

    /// The node at `index`.
    pub fn node(&self, index: usize) -> (r: &Node)
        requires
            index < self.model().len(),
        ensures
            r@ == self.model()[index as int],
    {
        &self.nodes[index]
    }
}

} // verus!
