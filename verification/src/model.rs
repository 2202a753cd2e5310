//! Mathematical model of the execution engine.
//!
//! One run of the engine is modelled as a small-step machine over a
//! configuration: the mutable per-run state, a stack of activation frames,
//! and an optional signal travelling from a finished frame to the frame
//! below it. `spec_step` is the complete transition function; `spec_drive`
//! iterates it under a step budget. Every executable engine function is
//! proved to return exactly what these functions say.

use vstd::prelude::*;

use crate::nodes::{DefaultOp, Exec, ManualOp, NodeModel, node_params};
use crate::value::ValueModel;
use crate::{Fault, ParameterIndexes, PendingParam};

verus! {

/// The per-run mutable state: cached node outputs, the variable store, the
/// loop-flag stack, and the arena of shared list cells.
#[verifier::ext_equal]
pub struct StateM {
    pub values: Seq<Option<Seq<ValueModel>>>,
    pub vars: Seq<ValueModel>,
    pub flags: Seq<bool>,
    pub lists: Seq<Seq<ValueModel>>,
}

/// Progress of a variable-read behavior.
#[verifier::ext_equal]
pub enum LocalVarStageM {
    /// Waiting for its key parameter to resolve.
    AwaitKey,
    /// Key resolved to an uninitialized slot; waiting for the default-value
    /// parameter to resolve.
    AwaitDefault { key: int },
}

/// Progress of a finite-loop behavior.
#[verifier::ext_equal]
pub enum LoopStageM {
    /// Waiting for the initial resolution of the two bound parameters.
    AwaitFirstBounds,
    /// An iteration's body is running.
    AwaitBody { id: int, idx: i64, end: i64 },
    /// Waiting for the re-resolution of the bound parameters after a body.
    AwaitBounds { id: int, idx: i64 },
}

/// One activation frame of the machine.
#[verifier::ext_equal]
pub enum FrameM {
    /// Control-flow walking: a LIFO worklist of pending `Exec` node
    /// indices, popped from the end; `awaiting` holds the node whose
    /// execution is in flight.
    Flow { queue: Seq<int>, awaiting: Option<int> },
    /// Parameter resolution: the pending-reference stack and the values
    /// resolved so far; `awaiting_slot` holds the requested output slot of
    /// an in-flight manual behavior.
    Resolve { pending: Seq<PendingParam>, out: Seq<ValueModel>, awaiting_slot: Option<int> },
    /// A default behavior of node `node`, waiting for its resolved
    /// parameters.
    DefaultExec { node: int, op: DefaultOp },
    /// A variable-read behavior running on node `node`.
    LocalVar { node: int, stage: LocalVarStageM },
    /// A finite-loop behavior running on node `node`.
    Loop { node: int, stage: LoopStageM },
}

/// What a finished frame hands to the frame below it.
#[verifier::ext_equal]
pub enum SignalM {
    /// A flow walk finished.
    Unit,
    /// A resolution finished with these values.
    Values(Seq<ValueModel>),
    /// A node's behavior finished with these outputs and this branch index.
    Done(Seq<ValueModel>, int),
}

/// A machine configuration.
#[verifier::ext_equal]
pub struct ConfigM {
    pub st: StateM,
    pub frames: Seq<FrameM>,
    pub signal: Option<SignalM>,
}

/// The result of one machine step.
#[verifier::ext_equal]
pub enum StepM {
    /// The machine continues in this configuration.
    Next(ConfigM),
    /// The run is complete: the final state and the last signal.
    Stop(StateM, SignalM),
    /// The run is abandoned.
    Fail(Fault),
}

/// Flow-edge targets in reverse declaration order, so that popping from the
/// end of a LIFO worklist visits them left to right.
pub open spec fn rev_flow(edges: Seq<crate::FlowIndexes>) -> Seq<int> {
    Seq::new(edges.len(), |i: int| edges[edges.len() - 1 - i].node as int)
}

/// Unvisited pending entries for a parameter list, in reverse declaration
/// order, so that popping from the end resolves them left to right.
pub open spec fn rev_pending(params: Seq<ParameterIndexes>) -> Seq<PendingParam> {
    Seq::new(params.len(), |i: int| PendingParam::spec_from(params[params.len() - 1 - i]))
}

/// The variable store extended with `Uninit` up to and including slot `k`.
pub open spec fn ensure_vars(st: StateM, k: int) -> StateM {
    if k < st.vars.len() {
        st
    } else {
        StateM {
            vars: st.vars + Seq::new((k + 1 - st.vars.len()) as nat, |i: int| ValueModel::Uninit),
            ..st
        }
    }
}

/// What a default behavior does: from the state and its resolved parameters
/// to the new state, its outputs, and its branch index.
pub open spec fn spec_apply_default(op: DefaultOp, st: StateM, args: Seq<ValueModel>) -> Result<
    (StateM, Seq<ValueModel>, int),
    Fault,
> {
    match op {
        DefaultOp::Noop => Ok((st, args, 0int)),
        DefaultOp::Addition => {
            if args.len() != 2 {
                Err(Fault::MalformedGraph)
            } else {
                match (args[0], args[1]) {
                    (ValueModel::Int(a), ValueModel::Int(b)) => Ok(
                        (
                            st,
                            seq![ValueModel::Int(vstd::wrapping::i64_specs::wrapping_add(a, b))],
                            0int,
                        ),
                    ),
                    _ => Err(Fault::TypeMismatch),
                }
            }
        },
        DefaultOp::Subtraction => {
            if args.len() != 2 {
                Err(Fault::MalformedGraph)
            } else {
                match (args[0], args[1]) {
                    (ValueModel::Int(a), ValueModel::Int(b)) => Ok(
                        (
                            st,
                            seq![ValueModel::Int(vstd::wrapping::i64_specs::wrapping_sub(a, b))],
                            0int,
                        ),
                    ),
                    _ => Err(Fault::TypeMismatch),
                }
            }
        },
        DefaultOp::IsGreaterThan => {
            if args.len() != 2 {
                Err(Fault::MalformedGraph)
            } else {
                match (args[0], args[1]) {
                    (ValueModel::Int(a), ValueModel::Int(b)) => Ok(
                        (st, seq![ValueModel::Bool(a > b)], 0int),
                    ),
                    _ => Err(Fault::TypeMismatch),
                }
            }
        },
        DefaultOp::IsLessThan => {
            if args.len() != 2 {
                Err(Fault::MalformedGraph)
            } else {
                match (args[0], args[1]) {
                    (ValueModel::Int(a), ValueModel::Int(b)) => Ok(
                        (st, seq![ValueModel::Bool(a < b)], 0int),
                    ),
                    _ => Err(Fault::TypeMismatch),
                }
            }
        },
        DefaultOp::LocalVariableSet => {
            if args.len() != 2 {
                Err(Fault::MalformedGraph)
            } else {
                match args[0] {
                    ValueModel::LocalVariable(k) => {
                        if k >= usize::MAX {
                            Err(Fault::OutOfBounds)
                        } else {
                            let st2 = ensure_vars(st, k);
                            Ok(
                                (
                                    StateM { vars: st2.vars.update(k, args[1]), ..st2 },
                                    Seq::empty(),
                                    0int,
                                ),
                            )
                        }
                    },
                    _ => Err(Fault::TypeMismatch),
                }
            }
        },
        DefaultOp::ListAssemble => Ok(
            (
                StateM { lists: st.lists.push(args), ..st },
                seq![ValueModel::List(st.lists.len() as int)],
                0int,
            ),
        ),
        DefaultOp::ListGet => {
            if args.len() != 2 {
                Err(Fault::MalformedGraph)
            } else {
                match (args[0], args[1]) {
                    (ValueModel::List(l), ValueModel::Int(i)) => {
                        if l >= st.lists.len() {
                            Err(Fault::OutOfBounds)
                        } else if i < 0 || i >= st.lists[l].len() {
                            Err(Fault::OutOfBounds)
                        } else {
                            Ok((st, seq![st.lists[l][i as int]], 0int))
                        }
                    },
                    (ValueModel::List(l), _) => Err(Fault::TypeMismatch),
                    _ => Err(Fault::TypeMismatch),
                }
            }
        },
        DefaultOp::ListSet => {
            if args.len() != 3 {
                Err(Fault::MalformedGraph)
            } else {
                match (args[0], args[1]) {
                    (ValueModel::List(l), ValueModel::Int(i)) => {
                        if l >= st.lists.len() {
                            Err(Fault::OutOfBounds)
                        } else if i < 0 || i >= st.lists[l].len() {
                            Err(Fault::OutOfBounds)
                        } else {
                            Ok(
                                (
                                    StateM {
                                        lists: st.lists.update(
                                            l,
                                            st.lists[l].update(i as int, args[2]),
                                        ),
                                        ..st
                                    },
                                    Seq::empty(),
                                    0int,
                                ),
                            )
                        }
                    },
                    (ValueModel::List(l), _) => Err(Fault::TypeMismatch),
                    _ => Err(Fault::TypeMismatch),
                }
            }
        },
        DefaultOp::ListLength => {
            if args.len() != 1 {
                Err(Fault::MalformedGraph)
            } else {
                match args[0] {
                    ValueModel::List(l) => {
                        if l >= st.lists.len() {
                            Err(Fault::OutOfBounds)
                        } else if st.lists[l].len() > i64::MAX {
                            Err(Fault::OutOfBounds)
                        } else {
                            Ok((st, seq![ValueModel::Int(st.lists[l].len() as i64)], 0int))
                        }
                    },
                    _ => Err(Fault::TypeMismatch),
                }
            }
        },
        DefaultOp::DoubleBranch => {
            if args.len() != 1 {
                Err(Fault::MalformedGraph)
            } else {
                match args[0] {
                    ValueModel::Bool(b) => Ok(
                        (st, Seq::empty(), if b { 0int } else { 1int }),
                    ),
                    _ => Err(Fault::TypeMismatch),
                }
            }
        },
        DefaultOp::BreakLoop => {
            if args.len() != 1 {
                Err(Fault::MalformedGraph)
            } else {
                match args[0] {
                    ValueModel::LoopId(id) => {
                        if id < 0 || id >= st.flags.len() {
                            Err(Fault::OutOfBounds)
                        } else {
                            Ok((StateM { flags: st.flags.update(id, false), ..st }, Seq::empty(), 0int))
                        }
                    },
                    _ => Err(Fault::TypeMismatch),
                }
            }
        },
    }
}

/// A finished node execution arriving at a flow frame: the outputs are
/// written into the node's cache and the selected group of flow edges joins
/// the worklist.
pub open spec fn spec_recv_flow(
    code: Seq<NodeModel>,
    st: StateM,
    rest: Seq<FrameM>,
    queue: Seq<int>,
    awaiting: Option<int>,
    sig: SignalM,
) -> StepM {
    match (sig, awaiting) {
        (SignalM::Done(outs, branch), Some(node)) => {
            if node >= code.len() || node >= st.values.len() {
                StepM::Fail(Fault::OutOfBounds)
            } else {
                match code[node] {
                    NodeModel::Exec { next, .. } => {
                        if branch < 0 || branch >= next.len() {
                            StepM::Fail(Fault::OutOfBounds)
                        } else {
                            StepM::Next(
                                ConfigM {
                                    st: StateM { values: st.values.update(node, Some(outs)), ..st },
                                    frames: rest.push(
                                        FrameM::Flow {
                                            queue: queue + rev_flow(next[branch]),
                                            awaiting: None,
                                        },
                                    ),
                                    signal: None,
                                },
                            )
                        }
                    },
                    _ => StepM::Fail(Fault::MalformedGraph),
                }
            }
        },
        _ => StepM::Fail(Fault::MalformedGraph),
    }
}

/// A finished manual behavior arriving at a resolve frame: the requested
/// output slot joins the resolved values.
pub open spec fn spec_recv_resolve(
    st: StateM,
    rest: Seq<FrameM>,
    pending: Seq<PendingParam>,
    out: Seq<ValueModel>,
    awaiting_slot: Option<int>,
    sig: SignalM,
) -> StepM {
    match (sig, awaiting_slot) {
        (SignalM::Done(outs, branch), Some(slot)) => {
            if slot < 0 || slot >= outs.len() {
                StepM::Fail(Fault::OutOfBounds)
            } else {
                StepM::Next(
                    ConfigM {
                        st,
                        frames: rest.push(
                            FrameM::Resolve { pending, out: out.push(outs[slot]), awaiting_slot: None },
                        ),
                        signal: None,
                    },
                )
            }
        },
        _ => StepM::Fail(Fault::MalformedGraph),
    }
}

/// Resolved parameters arriving at a default behavior: the behavior runs and
/// its outputs and branch are delivered downward.
pub open spec fn spec_recv_defexec(
    st: StateM,
    rest: Seq<FrameM>,
    node: int,
    op: DefaultOp,
    sig: SignalM,
) -> StepM {
    match sig {
        SignalM::Values(args) => match spec_apply_default(op, st, args) {
            Ok((st2, outs, branch)) => StepM::Next(
                ConfigM { st: st2, frames: rest, signal: Some(SignalM::Done(outs, branch)) },
            ),
            Err(f) => StepM::Fail(f),
        },
        _ => StepM::Fail(Fault::MalformedGraph),
    }
}

/// Resolved values arriving at a variable-read behavior. A resolved key
/// whose slot is initialized delivers the stored value at once, without
/// touching the default-value parameter; an uninitialized slot resolves the
/// default, stores it, and delivers it.
pub open spec fn spec_recv_localvar(
    code: Seq<NodeModel>,
    st: StateM,
    rest: Seq<FrameM>,
    node: int,
    stage: LocalVarStageM,
    sig: SignalM,
) -> StepM {
    match (stage, sig) {
        (LocalVarStageM::AwaitKey, SignalM::Values(vals)) => {
            if vals.len() != 1 {
                StepM::Fail(Fault::MalformedGraph)
            } else {
                match vals[0] {
                    ValueModel::LocalVariable(k) => {
                        if k < 0 || k >= usize::MAX {
                            StepM::Fail(Fault::OutOfBounds)
                        } else {
                            let st2 = ensure_vars(st, k);
                            if !(st2.vars[k] is Uninit) {
                                StepM::Next(
                                    ConfigM {
                                        st: st2,
                                        frames: rest,
                                        signal: Some(SignalM::Done(seq![st2.vars[k]], 0int)),
                                    },
                                )
                            } else {
                                if node < 0 || node >= code.len() {
                                    StepM::Fail(Fault::OutOfBounds)
                                } else {
                                    match node_params(code[node]) {
                                        Some(params) => {
                                            if params.len() < 2 {
                                                StepM::Fail(Fault::MalformedGraph)
                                            } else {
                                                StepM::Next(
                                                    ConfigM {
                                                        st: st2,
                                                        frames: rest.push(
                                                            FrameM::LocalVar {
                                                                node,
                                                                stage: LocalVarStageM::AwaitDefault { key: k },
                                                            },
                                                        ).push(
                                                            FrameM::Resolve {
                                                                pending: seq![
                                                                    PendingParam::spec_from(params[1]),
                                                                ],
                                                                out: Seq::empty(),
                                                                awaiting_slot: None,
                                                            },
                                                        ),
                                                        signal: None,
                                                    },
                                                )
                                            }
                                        },
                                        None => StepM::Fail(Fault::MalformedGraph),
                                    }
                                }
                            }
                        }
                    },
                    _ => StepM::Fail(Fault::TypeMismatch),
                }
            }
        },
        (LocalVarStageM::AwaitDefault { key }, SignalM::Values(vals)) => {
            if vals.len() != 1 {
                StepM::Fail(Fault::MalformedGraph)
            } else if key < 0 || key >= st.vars.len() {
                StepM::Fail(Fault::OutOfBounds)
            } else {
                StepM::Next(
                    ConfigM {
                        st: StateM { vars: st.vars.update(key, vals[0]), ..st },
                        frames: rest,
                        signal: Some(SignalM::Done(seq![vals[0]], 0int)),
                    },
                )
            }
        },
        _ => StepM::Fail(Fault::MalformedGraph),
    }
}

/// The loop-condition check, made on entry and after each body run. While
/// `idx <= end` and the loop's flag still holds, the current index and loop
/// handle are exposed as the node's cached output and the body's flow-edge
/// group is pushed; otherwise the flag stack is cut back at this loop's
/// handle and the exit branch is delivered.
pub open spec fn spec_loop_check(
    code: Seq<NodeModel>,
    st: StateM,
    rest: Seq<FrameM>,
    node: int,
    id: int,
    idx: i64,
    end: i64,
) -> StepM {
    if id < 0 || id >= st.flags.len() {
        StepM::Fail(Fault::OutOfBounds)
    } else if idx <= end && st.flags[id] {
        if node < 0 || node >= code.len() || node >= st.values.len() {
            StepM::Fail(Fault::OutOfBounds)
        } else {
            match code[node] {
                NodeModel::Exec { next, .. } => {
                    if next.len() < 1 {
                        StepM::Fail(Fault::OutOfBounds)
                    } else {
                        match st.values[node] {
                            Some(vs) => {
                                if vs.len() < 1 {
                                    StepM::Fail(Fault::OutOfBounds)
                                } else {
                                    StepM::Next(
                                        ConfigM {
                                            st: StateM {
                                                values: st.values.update(
                                                    node,
                                                    Some(vs.update(0, ValueModel::Int(idx))),
                                                ),
                                                ..st
                                            },
                                            frames: rest.push(
                                                FrameM::Loop {
                                                    node,
                                                    stage: LoopStageM::AwaitBody { id, idx, end },
                                                },
                                            ).push(
                                                FrameM::Flow { queue: rev_flow(next[0]), awaiting: None },
                                            ),
                                            signal: None,
                                        },
                                    )
                                }
                            },
                            None => StepM::Next(
                                ConfigM {
                                    st: StateM {
                                        values: st.values.update(
                                            node,
                                            Some(
                                                seq![
                                                    ValueModel::Int(idx),
                                                    ValueModel::LoopId(id),
                                                ],
                                            ),
                                        ),
                                        ..st
                                    },
                                    frames: rest.push(
                                        FrameM::Loop {
                                            node,
                                            stage: LoopStageM::AwaitBody { id, idx, end },
                                        },
                                    ).push(
                                        FrameM::Flow { queue: rev_flow(next[0]), awaiting: None },
                                    ),
                                    signal: None,
                                },
                            ),
                        }
                    }
                },
                _ => StepM::Fail(Fault::MalformedGraph),
            }
        }
    } else {
        StepM::Next(
            ConfigM {
                st: StateM { flags: st.flags.take(id), ..st },
                frames: rest,
                signal: Some(
                    SignalM::Done(seq![ValueModel::Int(idx), ValueModel::LoopId(id)], 1int),
                ),
            },
        )
    }
}

/// A signal arriving at a finite-loop behavior: first the resolved bounds,
/// then alternately a finished body and re-resolved bounds.
pub open spec fn spec_recv_loop(
    code: Seq<NodeModel>,
    st: StateM,
    rest: Seq<FrameM>,
    node: int,
    stage: LoopStageM,
    sig: SignalM,
) -> StepM {
    match (stage, sig) {
        (LoopStageM::AwaitFirstBounds, SignalM::Values(vals)) => {
            if vals.len() != 2 {
                StepM::Fail(Fault::MalformedGraph)
            } else {
                match (vals[0], vals[1]) {
                    (ValueModel::Int(s), ValueModel::Int(e)) => {
                        let id = st.flags.len() as int;
                        let st2 = StateM { flags: st.flags.push(true), ..st };
                        spec_loop_check(code, st2, rest, node, id, s, e)
                    },
                    _ => StepM::Fail(Fault::TypeMismatch),
                }
            }
        },
        (LoopStageM::AwaitBody { id, idx, end }, SignalM::Unit) => {
            if node < 0 || node >= code.len() {
                StepM::Fail(Fault::OutOfBounds)
            } else {
                match node_params(code[node]) {
                    Some(params) => StepM::Next(
                        ConfigM {
                            st,
                            frames: rest.push(
                                FrameM::Loop { node, stage: LoopStageM::AwaitBounds { id, idx } },
                            ).push(
                                FrameM::Resolve {
                                    pending: rev_pending(params),
                                    out: Seq::empty(),
                                    awaiting_slot: None,
                                },
                            ),
                            signal: None,
                        },
                    ),
                    None => StepM::Fail(Fault::MalformedGraph),
                }
            }
        },
        (LoopStageM::AwaitBounds { id, idx }, SignalM::Values(vals)) => {
            if vals.len() != 2 {
                StepM::Fail(Fault::MalformedGraph)
            } else {
                match vals[1] {
                    ValueModel::Int(e2) => spec_loop_check(
                        code,
                        st,
                        rest,
                        node,
                        id,
                        vstd::wrapping::i64_specs::wrapping_add(idx, 1),
                        e2,
                    ),
                    _ => StepM::Fail(Fault::TypeMismatch),
                }
            }
        },
        _ => StepM::Fail(Fault::MalformedGraph),
    }
}

/// An active flow frame takes a step: an empty worklist finishes the walk;
/// otherwise the next node is popped and, being an `Exec` node, its behavior
/// frames are pushed. Any other node kind on the worklist is a malformed
/// graph.
pub open spec fn spec_act_flow(
    code: Seq<NodeModel>,
    st: StateM,
    rest: Seq<FrameM>,
    queue: Seq<int>,
    awaiting: Option<int>,
) -> StepM {
    if awaiting is Some {
        StepM::Fail(Fault::MalformedGraph)
    } else if queue.len() == 0 {
        StepM::Next(ConfigM { st, frames: rest, signal: Some(SignalM::Unit) })
    } else {
        let node = queue.last();
        let queue2 = queue.drop_last();
        if node < 0 || node >= code.len() {
            StepM::Fail(Fault::OutOfBounds)
        } else {
            match code[node] {
                NodeModel::Exec { parameters, behavior, .. } => match behavior {
                    Exec::Default(op) => StepM::Next(
                        ConfigM {
                            st,
                            frames: rest.push(FrameM::Flow { queue: queue2, awaiting: Some(node) })
                                .push(FrameM::DefaultExec { node, op })
                                .push(
                                FrameM::Resolve {
                                    pending: rev_pending(parameters),
                                    out: Seq::empty(),
                                    awaiting_slot: None,
                                },
                            ),
                            signal: None,
                        },
                    ),
                    Exec::Manual(ManualOp::LocalVariable) => {
                        if parameters.len() < 1 {
                            StepM::Fail(Fault::MalformedGraph)
                        } else {
                            StepM::Next(
                                ConfigM {
                                    st,
                                    frames: rest.push(
                                        FrameM::Flow { queue: queue2, awaiting: Some(node) },
                                    ).push(FrameM::LocalVar { node, stage: LocalVarStageM::AwaitKey })
                                        .push(
                                        FrameM::Resolve {
                                            pending: seq![PendingParam::spec_from(parameters[0])],
                                            out: Seq::empty(),
                                            awaiting_slot: None,
                                        },
                                    ),
                                    signal: None,
                                },
                            )
                        }
                    },
                    Exec::Manual(ManualOp::FiniteLoop) => {
                        if parameters.len() != 2 {
                            StepM::Fail(Fault::MalformedGraph)
                        } else {
                            StepM::Next(
                                ConfigM {
                                    st,
                                    frames: rest.push(
                                        FrameM::Flow { queue: queue2, awaiting: Some(node) },
                                    ).push(FrameM::Loop { node, stage: LoopStageM::AwaitFirstBounds })
                                        .push(
                                        FrameM::Resolve {
                                            pending: rev_pending(parameters),
                                            out: Seq::empty(),
                                            awaiting_slot: None,
                                        },
                                    ),
                                    signal: None,
                                },
                            )
                        }
                    },
                },
                _ => StepM::Fail(Fault::MalformedGraph),
            }
        }
    }
}

/// An active resolve frame takes a step, handling the entry on top of the
/// pending stack: constants and cached outputs are copied; a default
/// operation is first expanded (its own parameters pushed) and on the second
/// visit run over the resolved region, which collapses to the requested
/// slot; a manual operation gets its own frames. An `End` node as a data
/// source is a malformed graph.
pub open spec fn spec_act_resolve(
    code: Seq<NodeModel>,
    st: StateM,
    rest: Seq<FrameM>,
    pending: Seq<PendingParam>,
    out: Seq<ValueModel>,
    awaiting_slot: Option<int>,
) -> StepM {
    if awaiting_slot is Some {
        StepM::Fail(Fault::MalformedGraph)
    } else if pending.len() == 0 {
        StepM::Next(ConfigM { st, frames: rest, signal: Some(SignalM::Values(out)) })
    } else {
        let pp = pending.last();
        let node = pp.idx.node as int;
        let slot = pp.idx.value as int;
        if node >= code.len() {
            StepM::Fail(Fault::OutOfBounds)
        } else if pp.visited {
            match code[node] {
                NodeModel::Operation { parameters, behavior: Exec::Default(op) } => {
                    if out.len() < parameters.len() {
                        StepM::Fail(Fault::MalformedGraph)
                    } else {
                        let pb = out.len() - parameters.len();
                        match spec_apply_default(op, st, out.subrange(pb, out.len() as int)) {
                            Ok((st2, outs, branch)) => {
                                if slot >= outs.len() {
                                    StepM::Fail(Fault::OutOfBounds)
                                } else {
                                    StepM::Next(
                                        ConfigM {
                                            st: st2,
                                            frames: rest.push(
                                                FrameM::Resolve {
                                                    pending: pending.drop_last(),
                                                    out: out.subrange(0, pb).push(outs[slot]),
                                                    awaiting_slot: None,
                                                },
                                            ),
                                            signal: None,
                                        },
                                    )
                                }
                            },
                            Err(f) => StepM::Fail(f),
                        }
                    }
                },
                _ => StepM::Fail(Fault::MalformedGraph),
            }
        } else {
            match code[node] {
                NodeModel::Operation { parameters, behavior } => match behavior {
                    Exec::Default(op) => StepM::Next(
                        ConfigM {
                            st,
                            frames: rest.push(
                                FrameM::Resolve {
                                    pending: pending.update(
                                        pending.len() - 1,
                                        PendingParam { idx: pp.idx, visited: true },
                                    ) + rev_pending(parameters),
                                    out,
                                    awaiting_slot: None,
                                },
                            ),
                            signal: None,
                        },
                    ),
                    Exec::Manual(ManualOp::LocalVariable) => {
                        if parameters.len() < 1 {
                            StepM::Fail(Fault::MalformedGraph)
                        } else {
                            StepM::Next(
                                ConfigM {
                                    st,
                                    frames: rest.push(
                                        FrameM::Resolve {
                                            pending: pending.drop_last(),
                                            out,
                                            awaiting_slot: Some(slot),
                                        },
                                    ).push(FrameM::LocalVar { node, stage: LocalVarStageM::AwaitKey })
                                        .push(
                                        FrameM::Resolve {
                                            pending: seq![PendingParam::spec_from(parameters[0])],
                                            out: Seq::empty(),
                                            awaiting_slot: None,
                                        },
                                    ),
                                    signal: None,
                                },
                            )
                        }
                    },
                    Exec::Manual(ManualOp::FiniteLoop) => StepM::Fail(Fault::MalformedGraph),
                },
                NodeModel::Constant { values } => {
                    if slot >= values.len() {
                        StepM::Fail(Fault::OutOfBounds)
                    } else {
                        StepM::Next(
                            ConfigM {
                                st,
                                frames: rest.push(
                                    FrameM::Resolve {
                                        pending: pending.drop_last(),
                                        out: out.push(values[slot]),
                                        awaiting_slot: None,
                                    },
                                ),
                                signal: None,
                            },
                        )
                    }
                },
                NodeModel::Start { .. } | NodeModel::Exec { .. } => {
                    if node >= st.values.len() {
                        StepM::Fail(Fault::OutOfBounds)
                    } else {
                        match st.values[node] {
                            None => StepM::Next(
                                ConfigM {
                                    st,
                                    frames: rest.push(
                                        FrameM::Resolve {
                                            pending: pending.drop_last(),
                                            out: out.push(ValueModel::Uninit),
                                            awaiting_slot: None,
                                        },
                                    ),
                                    signal: None,
                                },
                            ),
                            Some(vs) => {
                                if slot >= vs.len() {
                                    StepM::Fail(Fault::OutOfBounds)
                                } else {
                                    StepM::Next(
                                        ConfigM {
                                            st,
                                            frames: rest.push(
                                                FrameM::Resolve {
                                                    pending: pending.drop_last(),
                                                    out: out.push(vs[slot]),
                                                    awaiting_slot: None,
                                                },
                                            ),
                                            signal: None,
                                        },
                                    )
                                }
                            },
                        }
                    }
                },
                NodeModel::End { .. } => StepM::Fail(Fault::MalformedGraph),
            }
        }
    }
}

/// The complete transition function of the machine: one step of the frame on
/// top of the stack, either receiving the pending signal or making active
/// progress. The machine stops when the frame stack is empty.
pub open spec fn spec_step(code: Seq<NodeModel>, c: ConfigM) -> StepM {
    match c.signal {
        Some(sig) => {
            if c.frames.len() == 0 {
                StepM::Stop(c.st, sig)
            } else {
                let rest = c.frames.drop_last();
                match c.frames.last() {
                    FrameM::Flow { queue, awaiting } => spec_recv_flow(
                        code,
                        c.st,
                        rest,
                        queue,
                        awaiting,
                        sig,
                    ),
                    FrameM::Resolve { pending, out, awaiting_slot } => spec_recv_resolve(
                        c.st,
                        rest,
                        pending,
                        out,
                        awaiting_slot,
                        sig,
                    ),
                    FrameM::DefaultExec { node, op } => spec_recv_defexec(c.st, rest, node, op, sig),
                    FrameM::LocalVar { node, stage } => spec_recv_localvar(
                        code,
                        c.st,
                        rest,
                        node,
                        stage,
                        sig,
                    ),
                    FrameM::Loop { node, stage } => spec_recv_loop(code, c.st, rest, node, stage, sig),
                }
            }
        },
        None => {
            if c.frames.len() == 0 {
                StepM::Stop(c.st, SignalM::Unit)
            } else {
                let rest = c.frames.drop_last();
                match c.frames.last() {
                    FrameM::Flow { queue, awaiting } => spec_act_flow(code, c.st, rest, queue, awaiting),
                    FrameM::Resolve { pending, out, awaiting_slot } => spec_act_resolve(
                        code,
                        c.st,
                        rest,
                        pending,
                        out,
                        awaiting_slot,
                    ),
                    _ => StepM::Fail(Fault::MalformedGraph),
                }
            }
        },
    }
}

/// The machine iterated under a step budget.
pub open spec fn spec_drive(code: Seq<NodeModel>, c: ConfigM, fuel: nat) -> Result<
    (StateM, SignalM),
    Fault,
>
    decreases fuel,
{
    if fuel == 0 {
        Err(Fault::OutOfFuel)
    } else {
        match spec_step(code, c) {
            StepM::Next(c2) => spec_drive(code, c2, (fuel - 1) as nat),
            StepM::Stop(st, sig) => Ok((st, sig)),
            StepM::Fail(f) => Err(f),
        }
    }
}

/// The per-run state as reinitialized at the start of every run: an empty
/// cache per node, no variables, no loop flags, no list cells.
pub open spec fn spec_init_state(n: int) -> StateM {
    StateM {
        values: Seq::new(n as nat, |i: int| None),
        vars: Seq::empty(),
        flags: Seq::empty(),
        lists: Seq::empty(),
    }
}

/// What a whole run from a `Start` node yields: the initial values become
/// the start node's cached output, and the machine walks its flow edges to
/// completion.
pub open spec fn spec_run_start(
    code: Seq<NodeModel>,
    idx: int,
    vals: Seq<ValueModel>,
    fuel: nat,
) -> Result<StateM, Fault> {
    let st0 = spec_init_state(code.len() as int);
    if idx < 0 || idx >= code.len() {
        Err(Fault::OutOfBounds)
    } else {
        match code[idx] {
            NodeModel::Start { next } => {
                let st1 = StateM { values: st0.values.update(idx, Some(vals)), ..st0 };
                let c0 = ConfigM {
                    st: st1,
                    frames: seq![FrameM::Flow { queue: rev_flow(next), awaiting: None }],
                    signal: None,
                };
                match spec_drive(code, c0, fuel) {
                    Ok((st, sig)) => Ok(st),
                    Err(f) => Err(f),
                }
            },
            _ => Err(Fault::MalformedGraph),
        }
    }
}

/// What walking the flow from one `Exec` node yields, against the current
/// state.
pub open spec fn spec_run_inner(code: Seq<NodeModel>, st: StateM, idx: int, fuel: nat) -> Result<
    StateM,
    Fault,
> {
    let c0 = ConfigM {
        st,
        frames: seq![FrameM::Flow { queue: seq![idx], awaiting: None }],
        signal: None,
    };
    match spec_drive(code, c0, fuel) {
        Ok((st2, sig)) => Ok(st2),
        Err(f) => Err(f),
    }
}

/// What resolving a parameter list yields, against the current state.
pub open spec fn spec_query(
    code: Seq<NodeModel>,
    st: StateM,
    params: Seq<ParameterIndexes>,
    fuel: nat,
) -> Result<(StateM, Seq<ValueModel>), Fault> {
    let c0 = ConfigM {
        st,
        frames: seq![
            FrameM::Resolve {
                pending: rev_pending(params),
                out: Seq::empty(),
                awaiting_slot: None,
            },
        ],
        signal: None,
    };
    match spec_drive(code, c0, fuel) {
        Ok((st2, SignalM::Values(vs))) => Ok((st2, vs)),
        Ok(_) => Err(Fault::MalformedGraph),
        Err(f) => Err(f),
    }
}

/// What a run's readout at an `End` node yields: the end node's parameters
/// are resolved against the current state, so final values and variables of
/// a finished run can be read out.
pub open spec fn spec_run_end(code: Seq<NodeModel>, st: StateM, idx: int, fuel: nat) -> Result<
    (StateM, Seq<ValueModel>),
    Fault,
> {
    if idx < 0 || idx >= code.len() {
        Err(Fault::OutOfBounds)
    } else {
        match code[idx] {
            NodeModel::End { parameters } => spec_query(code, st, parameters, fuel),
            _ => Err(Fault::MalformedGraph),
        }
    }
}

} // verus!
