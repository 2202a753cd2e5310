//! Engine-wide laws, proved against the machine model. Each law is stated
//! over the specification functions that the engine's executable functions
//! are proved to equal, so it carries over to every run of the engine.

use vstd::prelude::*;

use crate::model::{
    rev_flow, spec_act_resolve, spec_apply_default, spec_drive, spec_recv_defexec,
    spec_recv_flow, spec_recv_localvar, spec_run_end, spec_run_start, spec_step, ConfigM, FrameM,
    LocalVarStageM, SignalM, StateM, StepM,
};
use crate::nodes::{DefaultOp, NodeModel};
use crate::value::ValueModel;
use crate::{Fault, PendingParam};

verus! {

/// Feeding the machine a larger step budget never changes a run that did
/// not run out: the budget only cuts runs short, it never steers them.
pub proof fn lemma_drive_fuel_monotone(code: Seq<NodeModel>, c: ConfigM, f1: nat, f2: nat)
    requires
        f1 <= f2,
        spec_drive(code, c, f1) != Err::<(StateM, SignalM), Fault>(Fault::OutOfFuel),
    ensures
        spec_drive(code, c, f2) == spec_drive(code, c, f1),
    decreases f1,
{
    if f1 == 0 {
        assert(spec_drive(code, c, f1) == Err::<(StateM, SignalM), Fault>(Fault::OutOfFuel));
    } else {
        match spec_step(code, c) {
            StepM::Next(c2) => {
                lemma_drive_fuel_monotone(code, c2, (f1 - 1) as nat, (f2 - 1) as nat);
            },
            StepM::Stop(st, sig) => {},
            StepM::Fail(f) => {},
        }
    }
}

/// Determinism of a whole run: for a fixed graph, start node and initial
/// values, any two completed runs agree exactly, whatever their step
/// budgets were. Together with the exact contract of `run_start`, which
/// reinitializes all per-run state, this says that repeated runs against a
/// freshly-initialized context yield identical final states.
pub proof fn lemma_run_start_deterministic(
    code: Seq<NodeModel>,
    idx: int,
    vals: Seq<ValueModel>,
    f1: nat,
    f2: nat,
)
    requires
        spec_run_start(code, idx, vals, f1) != Err::<StateM, Fault>(Fault::OutOfFuel),
        spec_run_start(code, idx, vals, f2) != Err::<StateM, Fault>(Fault::OutOfFuel),
    ensures
        spec_run_start(code, idx, vals, f1) == spec_run_start(code, idx, vals, f2),
{
    if 0 <= idx < code.len() && code[idx] is Start {
        let st0 = crate::model::spec_init_state(code.len() as int);
        let st1 = StateM { values: st0.values.update(idx, Some(vals)), ..st0 };
        let c0 = ConfigM {
            st: st1,
            frames: seq![FrameM::Flow { queue: rev_flow(code[idx]->Start_next), awaiting: None }],
            signal: None,
        };
        if f1 <= f2 {
            lemma_drive_fuel_monotone(code, c0, f1, f2);
        } else {
            lemma_drive_fuel_monotone(code, c0, f2, f1);
        }
    }
}

/// Determinism of a run's readout: for a fixed graph, context state and end
/// node, any two completed readouts agree exactly, whatever their step
/// budgets were. With `lemma_run_start_deterministic` this gives the whole
/// law: repeated `run_start` plus `run_end` against a freshly-initialized
/// context yield identical outputs.
pub proof fn lemma_run_end_deterministic(
    code: Seq<NodeModel>,
    st0: StateM,
    idx: int,
    f1: nat,
    f2: nat,
)
    requires
        spec_run_end(code, st0, idx, f1) != Err::<(StateM, Seq<ValueModel>), Fault>(
            Fault::OutOfFuel,
        ),
        spec_run_end(code, st0, idx, f2) != Err::<(StateM, Seq<ValueModel>), Fault>(
            Fault::OutOfFuel,
        ),
    ensures
        spec_run_end(code, st0, idx, f1) == spec_run_end(code, st0, idx, f2),
{
    if 0 <= idx < code.len() && code[idx] is End {
        let c0 = ConfigM {
            st: st0,
            frames: seq![
                FrameM::Resolve {
                    pending: crate::model::rev_pending(code[idx]->End_parameters),
                    out: Seq::empty(),
                    awaiting_slot: None,
                },
            ],
            signal: None,
        };
        if f1 <= f2 {
            lemma_drive_fuel_monotone(code, c0, f1, f2);
        } else {
            lemma_drive_fuel_monotone(code, c0, f2, f1);
        }
    }
}

/// Variable short-circuit, initialized side: a variable read whose key
/// resolves to an already-initialized slot delivers the stored value at
/// once. The state is untouched and no frame for the default-value
/// parameter is ever pushed, so the default expression is not evaluated.
pub proof fn lemma_initialized_variable_skips_default(
    code: Seq<NodeModel>,
    st: StateM,
    rest: Seq<FrameM>,
    node: int,
    k: int,
)
    requires
        0 <= k < st.vars.len(),
        k < usize::MAX,
        !(st.vars[k] is Uninit),
    ensures
        spec_recv_localvar(
            code,
            st,
            rest,
            node,
            LocalVarStageM::AwaitKey,
            SignalM::Values(seq![ValueModel::LocalVariable(k)]),
        ) == StepM::Next(
            ConfigM {
                st,
                frames: rest,
                signal: Some(SignalM::Done(seq![st.vars[k]], 0int)),
            },
        ),
{
    assert(crate::model::ensure_vars(st, k) == st);
}

/// Variable short-circuit, uninitialized side: a variable read whose key
/// resolves to an uninitialized slot pushes exactly one resolution frame,
/// holding exactly one pending entry for the default-value parameter: the
/// default expression is evaluated exactly once.
pub proof fn lemma_uninitialized_variable_resolves_default_once(
    code: Seq<NodeModel>,
    st: StateM,
    rest: Seq<FrameM>,
    node: int,
    k: int,
)
    requires
        0 <= k < st.vars.len(),
        k < usize::MAX,
        st.vars[k] is Uninit,
        0 <= node < code.len(),
        crate::nodes::node_params(code[node]) matches Some(params) && params.len() >= 2,
    ensures
        spec_recv_localvar(
            code,
            st,
            rest,
            node,
            LocalVarStageM::AwaitKey,
            SignalM::Values(seq![ValueModel::LocalVariable(k)]),
        ) == StepM::Next(
            ConfigM {
                st,
                frames: rest.push(
                    FrameM::LocalVar { node, stage: LocalVarStageM::AwaitDefault { key: k } },
                ).push(
                    FrameM::Resolve {
                        pending: seq![
                            PendingParam::spec_from(
                                crate::nodes::node_params(code[node])->Some_0[1],
                            ),
                        ],
                        out: Seq::empty(),
                        awaiting_slot: None,
                    },
                ),
                signal: None,
            },
        ),
        spec_recv_localvar(
            code,
            st,
            rest,
            node,
            LocalVarStageM::AwaitDefault { key: k },
            SignalM::Values(seq![st.vars[k]]),
        ) == StepM::Next(
            ConfigM {
                st: StateM { vars: st.vars.update(k, st.vars[k]), ..st },
                frames: rest,
                signal: Some(SignalM::Done(seq![st.vars[k]], 0int)),
            },
        ),
{
    assert(crate::model::ensure_vars(st, k) == st);
}

/// Branch selection: a `DoubleBranch` behavior handed `true` produces
/// branch 0, and the awaiting flow frame then extends its worklist with
/// exactly the edges of `next[0]`, in reverse declaration order; the edges
/// of every other group are never pushed.
pub proof fn lemma_double_branch_true_takes_first_group(
    code: Seq<NodeModel>,
    st: StateM,
    rest: Seq<FrameM>,
    queue: Seq<int>,
    node: int,
)
    requires
        0 <= node < code.len(),
        node < st.values.len(),
        code[node] matches NodeModel::Exec { next, .. } && next.len() >= 1,
    ensures
        spec_apply_default(DefaultOp::DoubleBranch, st, seq![ValueModel::Bool(true)]) == Ok::<
            (StateM, Seq<ValueModel>, int),
            Fault,
        >((st, Seq::empty(), 0int)),
        spec_recv_defexec(
            st,
            rest,
            node,
            DefaultOp::DoubleBranch,
            SignalM::Values(seq![ValueModel::Bool(true)]),
        ) == StepM::Next(
            ConfigM {
                st,
                frames: rest,
                signal: Some(SignalM::Done(Seq::empty(), 0int)),
            },
        ),
        spec_recv_flow(
            code,
            st,
            rest,
            queue,
            Some(node),
            SignalM::Done(Seq::empty(), 0int),
        ) == StepM::Next(
            ConfigM {
                st: StateM { values: st.values.update(node, Some(Seq::empty())), ..st },
                frames: rest.push(
                    FrameM::Flow {
                        queue: queue + rev_flow(code[node]->Exec_next[0]),
                        awaiting: None,
                    },
                ),
                signal: None,
            },
        ),
{
}

/// The finite loop's stepping discipline, first half: while the index is
/// within the inclusive bounds and the loop's flag still holds, the
/// condition check runs exactly one more body walk, exposing the current
/// index and the loop handle as the node's cached output.
pub proof fn lemma_loop_check_runs_body_in_bounds(
    code: Seq<NodeModel>,
    st: StateM,
    rest: Seq<FrameM>,
    node: int,
    id: int,
    idx: i64,
    end: i64,
)
    requires
        0 <= id < st.flags.len(),
        st.flags[id],
        idx <= end,
        0 <= node < code.len(),
        node < st.values.len(),
        code[node] matches NodeModel::Exec { next, .. } && next.len() >= 1,
        st.values[node] matches Some(vs) && vs.len() >= 1,
    ensures
        crate::model::spec_loop_check(code, st, rest, node, id, idx, end) == StepM::Next(
            ConfigM {
                st: StateM {
                    values: st.values.update(
                        node,
                        Some(st.values[node]->Some_0.update(0, ValueModel::Int(idx))),
                    ),
                    ..st
                },
                frames: rest.push(
                    FrameM::Loop {
                        node,
                        stage: crate::model::LoopStageM::AwaitBody { id, idx, end },
                    },
                ).push(
                    FrameM::Flow {
                        queue: rev_flow(code[node]->Exec_next[0]),
                        awaiting: None,
                    },
                ),
                signal: None,
            },
        ),
{
}

/// The finite loop's stepping discipline, second half: once the index
/// passes the bound or the flag was taken down by a break, the check runs
/// no further body; it cuts the flag stack back at this loop's handle and
/// delivers the exit branch.
pub proof fn lemma_loop_check_exits_out_of_bounds(
    code: Seq<NodeModel>,
    st: StateM,
    rest: Seq<FrameM>,
    node: int,
    id: int,
    idx: i64,
    end: i64,
)
    requires
        0 <= id < st.flags.len(),
        idx > end || !st.flags[id],
    ensures
        crate::model::spec_loop_check(code, st, rest, node, id, idx, end) == StepM::Next(
            ConfigM {
                st: StateM { flags: st.flags.take(id), ..st },
                frames: rest,
                signal: Some(
                    SignalM::Done(seq![ValueModel::Int(idx), ValueModel::LoopId(id)], 1int),
                ),
            },
        ),
{
}

/// The re-evaluation half of memoization: a reference to a default
/// `Operation` that has had its own parameters resolved runs the behavior
/// then and there, against the current state — an `Operation`'s output is
/// never cached, so every reference is one invocation.
pub proof fn lemma_operation_reference_invokes_behavior(
    code: Seq<NodeModel>,
    st: StateM,
    rest: Seq<FrameM>,
    pending: Seq<PendingParam>,
    out: Seq<ValueModel>,
)
    requires
        pending.len() > 0,
        pending.last().visited,
        0 <= pending.last().idx.node < code.len(),
        code[pending.last().idx.node as int] matches NodeModel::Operation {
            parameters,
            behavior: crate::nodes::Exec::Default(op),
        } && out.len() >= parameters.len() && (spec_apply_default(
            op,
            st,
            out.subrange(out.len() - parameters.len(), out.len() as int),
        ) matches Ok((st2, outs, branch)) && pending.last().idx.value < outs.len()),
    ensures
        ({
            let parameters = code[pending.last().idx.node as int]->Operation_parameters;
            let op = code[pending.last().idx.node as int]->Operation_behavior->Default_0;
            let pb = out.len() - parameters.len();
            let applied = spec_apply_default(op, st, out.subrange(pb as int, out.len() as int));
            spec_act_resolve(code, st, rest, pending, out, None) == StepM::Next(
                ConfigM {
                    st: applied->Ok_0.0,
                    frames: rest.push(
                        FrameM::Resolve {
                            pending: pending.drop_last(),
                            out: out.subrange(0, pb as int).push(
                                applied->Ok_0.1[pending.last().idx.value as int],
                            ),
                            awaiting_slot: None,
                        },
                    ),
                    signal: None,
                },
            )
        }),
{
}

/// The stale-cache half of memoization: resolving a reference to a `Start`
/// or `Exec` node's populated cache copies the stored value out and leaves
/// the whole state unchanged, so readers that do not re-execute the node
/// keep seeing the value it cached last.
pub proof fn lemma_cache_read_leaves_state_unchanged(
    code: Seq<NodeModel>,
    st: StateM,
    rest: Seq<FrameM>,
    pending: Seq<PendingParam>,
    out: Seq<ValueModel>,
)
    requires
        pending.len() > 0,
        !pending.last().visited,
        0 <= pending.last().idx.node < code.len(),
        code[pending.last().idx.node as int] is Start || code[pending.last().idx.node as int]
            is Exec,
        pending.last().idx.node < st.values.len(),
        st.values[pending.last().idx.node as int] matches Some(vs) && pending.last().idx.value
            < vs.len(),
    ensures
        spec_act_resolve(code, st, rest, pending, out, None) == StepM::Next(
            ConfigM {
                st,
                frames: rest.push(
                    FrameM::Resolve {
                        pending: pending.drop_last(),
                        out: out.push(
                            st.values[pending.last().idx.node as int]->Some_0[pending.last().idx.value as int],
                        ),
                        awaiting_slot: None,
                    },
                ),
                signal: None,
            },
        ),
{
}

} // verus!
