//! The executable engine: an explicit-frame machine whose every step is
//! proved to be exactly `spec_step` of the model, and whose driver is proved
//! to be exactly `spec_drive`.

use vstd::prelude::*;

use crate::model::{
    spec_apply_default, spec_drive, spec_query, spec_run_end, spec_run_inner, spec_run_start,
    spec_step, ConfigM, FrameM, LocalVarStageM, LoopStageM, SignalM, StateM, StepM,
};
use crate::nodes::{Code, DefaultOp, Exec, ManualOp, Node};
use crate::value::{vals_view, Value, ValueModel};
use crate::{Context, Fault, FlowIndexes, ParameterIndexes, PendingParam, RUN_FUEL};

verus! {

/// Progress of a variable-read behavior (executable twin of the model's).
pub(crate) enum LocalVarStage {
    AwaitKey,
    AwaitDefault { key: usize },
}

/// Progress of a finite-loop behavior (executable twin of the model's).
pub(crate) enum LoopStage {
    AwaitFirstBounds,
    AwaitBody { id: usize, idx: i64, end: i64 },
    AwaitBounds { id: usize, idx: i64 },
}

/// One activation frame (executable twin of the model's).
pub(crate) enum Frame {
    Flow { queue: Vec<usize>, awaiting: Option<usize> },
    Resolve { pending: Vec<PendingParam>, out: Vec<Value>, awaiting_slot: Option<usize> },
    DefaultExec { node: usize, op: DefaultOp },
    LocalVar { node: usize, stage: LocalVarStage },
    Loop { node: usize, stage: LoopStage },
}

/// What a finished frame hands downward (executable twin of the model's).
pub(crate) enum Signal {
    Unit,
    Values(Vec<Value>),
    Done(Vec<Value>, usize),
}

pub(crate) open spec fn usizes(s: Seq<usize>) -> Seq<int> {
    s.map_values(|x: usize| x as int)
}

pub(crate) open spec fn opt_int(o: Option<usize>) -> Option<int> {
    match o {
        Some(x) => Some(x as int),
        None => None,
    }
}

impl View for Frame {
    type V = FrameM;

    closed spec fn view(&self) -> FrameM {
        match self {
            Frame::Flow { queue, awaiting } => FrameM::Flow {
                queue: usizes(queue@),
                awaiting: opt_int(*awaiting),
            },
            Frame::Resolve { pending, out, awaiting_slot } => FrameM::Resolve {
                pending: pending@,
                out: vals_view(out@),
                awaiting_slot: opt_int(*awaiting_slot),
            },
            Frame::DefaultExec { node, op } => FrameM::DefaultExec { node: *node as int, op: *op },
            Frame::LocalVar { node, stage } => FrameM::LocalVar {
                node: *node as int,
                stage: match stage {
                    LocalVarStage::AwaitKey => LocalVarStageM::AwaitKey,
                    LocalVarStage::AwaitDefault { key } => LocalVarStageM::AwaitDefault {
                        key: *key as int,
                    },
                },
            },
            Frame::Loop { node, stage } => FrameM::Loop {
                node: *node as int,
                stage: match stage {
                    LoopStage::AwaitFirstBounds => LoopStageM::AwaitFirstBounds,
                    LoopStage::AwaitBody { id, idx, end } => LoopStageM::AwaitBody {
                        id: *id as int,
                        idx: *idx,
                        end: *end,
                    },
                    LoopStage::AwaitBounds { id, idx } => LoopStageM::AwaitBounds {
                        id: *id as int,
                        idx: *idx,
                    },
                },
            },
        }
    }
}

impl View for Signal {
    type V = SignalM;

    closed spec fn view(&self) -> SignalM {
        match self {
            Signal::Unit => SignalM::Unit,
            Signal::Values(vs) => SignalM::Values(vals_view(vs@)),
            Signal::Done(vs, b) => SignalM::Done(vals_view(vs@), *b as int),
        }
    }
}

pub(crate) open spec fn fview(fs: Seq<Frame>) -> Seq<FrameM> {
    fs.map_values(|f: Frame| f@)
}

pub(crate) open spec fn sview(s: Option<Signal>) -> Option<SignalM> {
    match s {
        Some(x) => Some(x@),
        None => None,
    }
}

/// What one executable step handed back: the machine goes on (with the new
/// signal), or the run is complete with a final signal.
pub(crate) enum StepOut {
    Continue(Option<Signal>),
    Stopped(Signal),
}

/// The contract every step function meets: its effect is exactly what
/// `spec_step` says of the configuration it was given.
pub(crate) open spec fn step_matches(
    code: Seq<crate::nodes::NodeModel>,
    c: ConfigM,
    post_st: StateM,
    post_frames: Seq<FrameM>,
    r: Result<StepOut, Fault>,
) -> bool {
    match spec_step(code, c) {
        StepM::Next(c2) => r matches Ok(StepOut::Continue(s2)) && post_st == c2.st && post_frames
            == c2.frames && sview(s2) == c2.signal,
        StepM::Stop(st, sg) => r matches Ok(StepOut::Stopped(s)) && post_st == st && s@ == sg,
        StepM::Fail(f) => r == Err::<StepOut, Fault>(f),
    }
}

/// Appends pending entries for a parameter list, in reverse order.
fn extend_rev_pending(dst: &mut Vec<PendingParam>, params: &[ParameterIndexes])
    ensures
        final(dst)@ == old(dst)@ + crate::model::rev_pending(params@),
{
    let n = params.len();
    let mut i: usize = 0;
    while i < n
        invariant
            i <= n,
            n == params@.len(),
            dst@.len() == old(dst)@.len() + i,
            forall|j: int| 0 <= j < old(dst)@.len() ==> dst@[j] == old(dst)@[j],
            forall|j: int|
                old(dst)@.len() <= j < old(dst)@.len() + i ==> #[trigger] dst@[j]
                    == PendingParam::spec_from(params@[n - 1 - (j - old(dst)@.len())]),
        decreases n - i,
    {
        dst.push(PendingParam { idx: params[n - 1 - i], visited: false });
        i = i + 1;
    }
    proof {
        assert(dst@ =~= old(dst)@ + crate::model::rev_pending(params@));
    }
}

/// Pending entries for a parameter list, in reverse order.
fn build_rev_pending(params: &[ParameterIndexes]) -> (r: Vec<PendingParam>)
    ensures
        r@ == crate::model::rev_pending(params@),
{
    let mut r: Vec<PendingParam> = Vec::new();
    extend_rev_pending(&mut r, params);
    proof {
        assert(r@ =~= crate::model::rev_pending(params@));
    }
    r
}

/// Appends flow-edge targets in reverse order to a worklist.
fn extend_rev_flow(queue: &mut Vec<usize>, edges: &[FlowIndexes])
    ensures
        usizes(final(queue)@) == usizes(old(queue)@) + crate::model::rev_flow(edges@),
{
    let n = edges.len();
    let mut i: usize = 0;
    while i < n
        invariant
            i <= n,
            n == edges@.len(),
            queue@.len() == old(queue)@.len() + i,
            forall|j: int| 0 <= j < old(queue)@.len() ==> queue@[j] == old(queue)@[j],
            forall|j: int|
                old(queue)@.len() <= j < old(queue)@.len() + i ==> #[trigger] queue@[j] == edges@[n
                    - 1 - (j - old(queue)@.len())].node,
        decreases n - i,
    {
        queue.push(edges[n - 1 - i].node);
        i = i + 1;
    }
    proof {
        assert(usizes(queue@) =~= usizes(old(queue)@) + crate::model::rev_flow(edges@));
    }
}

/// The parameter list of a node that has one.
fn params_of<'a>(n: &'a Node) -> (r: Option<&'a Vec<ParameterIndexes>>)
    ensures
        (match r {
            Some(p) => crate::nodes::node_params(n@) == Some(p@),
            None => crate::nodes::node_params(n@) is None,
        }),
{
    match n {
        Node::End { parameters } => Some(parameters),
        Node::Exec { parameters, .. } => Some(parameters),
        Node::Operation { parameters, .. } => Some(parameters),
        _ => None,
    }
}

/// Runs one default behavior over its resolved parameters, exactly as
/// `spec_apply_default` says.
fn apply_default(ctx: &mut Context, op: DefaultOp, args: Vec<Value>) -> (r: Result<
    (Vec<Value>, usize),
    Fault,
>)
    ensures
        (match spec_apply_default(op, old(ctx).sem(), vals_view(args@)) {
            Ok((st2, outs, branch)) => r matches Ok(p) && final(ctx).sem() == st2 && vals_view(
                p.0@,
            ) == outs && p.1 as int == branch,
            Err(f) => r == Err::<(Vec<Value>, usize), Fault>(f),
        }),
        final(ctx).logger == old(ctx).logger,
        Context::pools_eq(*final(ctx), *old(ctx)),
{
    let ghost st = ctx.sem();
    let ghost argsm = vals_view(args@);
    match op {
        DefaultOp::Noop => Ok((args, 0)),
        DefaultOp::Addition => {
            if args.len() != 2 {
                return Err(Fault::MalformedGraph);
            }
            match (&args[0], &args[1]) {
                (Value::Int(a), Value::Int(b)) => {
                    let out = Value::Int(a.wrapping_add(*b));
                    let r = vec![out];
                    proof {
                        assert(vals_view(r@) =~= spec_apply_default(op, st, argsm)->Ok_0.1);
                    }
                    Ok((r, 0))
                },
                _ => Err(Fault::TypeMismatch),
            }
        },
        DefaultOp::Subtraction => {
            if args.len() != 2 {
                return Err(Fault::MalformedGraph);
            }
            match (&args[0], &args[1]) {
                (Value::Int(a), Value::Int(b)) => {
                    let out = Value::Int(a.wrapping_sub(*b));
                    let r = vec![out];
                    proof {
                        assert(vals_view(r@) =~= spec_apply_default(op, st, argsm)->Ok_0.1);
                    }
                    Ok((r, 0))
                },
                _ => Err(Fault::TypeMismatch),
            }
        },
        DefaultOp::IsGreaterThan => {
            if args.len() != 2 {
                return Err(Fault::MalformedGraph);
            }
            match (&args[0], &args[1]) {
                (Value::Int(a), Value::Int(b)) => {
                    let r = vec![Value::Bool(*a > *b)];
                    proof {
                        assert(vals_view(r@) =~= spec_apply_default(op, st, argsm)->Ok_0.1);
                    }
                    Ok((r, 0))
                },
                _ => Err(Fault::TypeMismatch),
            }
        },
        DefaultOp::IsLessThan => {
            if args.len() != 2 {
                return Err(Fault::MalformedGraph);
            }
            match (&args[0], &args[1]) {
                (Value::Int(a), Value::Int(b)) => {
                    let r = vec![Value::Bool(*a < *b)];
                    proof {
                        assert(vals_view(r@) =~= spec_apply_default(op, st, argsm)->Ok_0.1);
                    }
                    Ok((r, 0))
                },
                _ => Err(Fault::TypeMismatch),
            }
        },
        DefaultOp::LocalVariableSet => {
            if args.len() != 2 {
                return Err(Fault::MalformedGraph);
            }
            let mut args = args;
            let v = args.pop().unwrap();
            let kv = args.pop().unwrap();
            match kv {
                Value::LocalVariable(k) => {
                    if k == usize::MAX {
                        return Err(Fault::OutOfBounds);
                    }
                    ctx.set_local_variable(k, v);
                    let r: Vec<Value> = Vec::new();
                    proof {
                        assert(ctx.sem() =~~= spec_apply_default(op, st, argsm)->Ok_0.0);
                        assert(vals_view(r@) =~= Seq::<ValueModel>::empty());
                    }
                    Ok((r, 0))
                },
                _ => Err(Fault::TypeMismatch),
            }
        },
        DefaultOp::ListAssemble => {
            let idx = ctx.lists.len();
            ctx.lists.push(args);
            let r = vec![Value::List(idx)];
            proof {
                assert(ctx.sem() =~~= spec_apply_default(op, st, argsm)->Ok_0.0);
                assert(vals_view(r@) =~= spec_apply_default(op, st, argsm)->Ok_0.1);
            }
            Ok((r, 0))
        },
        DefaultOp::ListGet => {
            if args.len() != 2 {
                return Err(Fault::MalformedGraph);
            }
            match (&args[0], &args[1]) {
                (Value::List(l), Value::Int(i)) => {
                    let l = *l;
                    let i = *i;
                    if l >= ctx.lists.len() {
                        return Err(Fault::OutOfBounds);
                    }
                    if i < 0 || i as u64 >= ctx.lists[l].len() as u64 {
                        return Err(Fault::OutOfBounds);
                    }
                    let v = ctx.lists[l][i as usize].duplicate();
                    let r = vec![v];
                    proof {
                        assert(vals_view(r@) =~= spec_apply_default(op, st, argsm)->Ok_0.1);
                    }
                    Ok((r, 0))
                },
                _ => Err(Fault::TypeMismatch),
            }
        },
        DefaultOp::ListSet => {
            if args.len() != 3 {
                return Err(Fault::MalformedGraph);
            }
            let mut args = args;
            let v = args.pop().unwrap();
            let iv = args.pop().unwrap();
            let lv = args.pop().unwrap();
            match (&lv, &iv) {
                (Value::List(l), Value::Int(i)) => {
                    let l = *l;
                    let i = *i;
                    if l >= ctx.lists.len() {
                        return Err(Fault::OutOfBounds);
                    }
                    if i < 0 || i as u64 >= ctx.lists[l].len() as u64 {
                        return Err(Fault::OutOfBounds);
                    }
                    let mut cell = ctx.lists.remove(l);
                    cell[i as usize] = v;
                    ctx.lists.insert(l, cell);
                    let r: Vec<Value> = Vec::new();
                    proof {
                        assert(ctx.sem() =~~= spec_apply_default(op, st, argsm)->Ok_0.0);
                        assert(vals_view(r@) =~= Seq::<ValueModel>::empty());
                    }
                    Ok((r, 0))
                },
                _ => Err(Fault::TypeMismatch),
            }
        },
        DefaultOp::ListLength => {
            if args.len() != 1 {
                return Err(Fault::MalformedGraph);
            }
            match &args[0] {
                Value::List(l) => {
                    let l = *l;
                    if l >= ctx.lists.len() {
                        return Err(Fault::OutOfBounds);
                    }
                    let n = ctx.lists[l].len();
                    if n as u64 > i64::MAX as u64 {
                        return Err(Fault::OutOfBounds);
                    }
                    let r = vec![Value::Int(n as i64)];
                    proof {
                        assert(vals_view(r@) =~= spec_apply_default(op, st, argsm)->Ok_0.1);
                    }
                    Ok((r, 0))
                },
                _ => Err(Fault::TypeMismatch),
            }
        },
        DefaultOp::DoubleBranch => {
            if args.len() != 1 {
                return Err(Fault::MalformedGraph);
            }
            match &args[0] {
                Value::Bool(b) => {
                    let r: Vec<Value> = Vec::new();
                    proof {
                        assert(vals_view(r@) =~= Seq::<ValueModel>::empty());
                    }
                    Ok((r, if *b { 0 } else { 1 }))
                },
                _ => Err(Fault::TypeMismatch),
            }
        },
        DefaultOp::BreakLoop => {
            if args.len() != 1 {
                return Err(Fault::MalformedGraph);
            }
            match &args[0] {
                Value::LoopId(id) => {
                    let id = *id;
                    if id >= ctx.loop_flags.len() {
                        return Err(Fault::OutOfBounds);
                    }
                    ctx.loop_break(id);
                    let r: Vec<Value> = Vec::new();
                    proof {
                        assert(ctx.sem() =~~= spec_apply_default(op, st, argsm)->Ok_0.0);
                        assert(vals_view(r@) =~= Seq::<ValueModel>::empty());
                    }
                    Ok((r, 0))
                },
                _ => Err(Fault::TypeMismatch),
            }
        },
    }
}

/// A finished node execution arriving at the flow frame that awaited it.
fn recv_flow(
    ctx: &mut Context,
    code: &Code<'_>,
    frames: &mut Vec<Frame>,
    queue: Vec<usize>,
    awaiting: Option<usize>,
    sig: Signal,
    Ghost(c): Ghost<ConfigM>,
) -> (r: Result<StepOut, Fault>)
    requires
        c.st == old(ctx).sem(),
        c.signal == Some(sig@),
        c.frames == fview(old(frames)@).push(
            FrameM::Flow { queue: usizes(queue@), awaiting: opt_int(awaiting) },
        ),
    ensures
        step_matches(code.model(), c, final(ctx).sem(), fview(final(frames)@), r),
        old(ctx).logger is Some <==> final(ctx).logger is Some,
        Context::pools_eq(*final(ctx), *old(ctx)),
        old(ctx).log_records().is_prefix_of(final(ctx).log_records()),
{
    match (sig, awaiting) {
        (Signal::Done(outs, branch), Some(node)) => {
            if node >= code.len() || node >= ctx.values.len() {
                return Err(Fault::OutOfBounds);
            }
            match code.node(node) {
                Node::Exec { next, .. } => {
                    if branch >= next.len() {
                        return Err(Fault::OutOfBounds);
                    }
                    let ghost st2 = StateM {
                        values: c.st.values.update(node as int, Some(vals_view(outs@))),
                        ..c.st
                    };
                    ctx.values[node] = Some(outs);
                    let mut queue = queue;
                    let ghost q0 = queue@;
                    extend_rev_flow(&mut queue, next[branch].as_slice());
                    frames.push(Frame::Flow { queue, awaiting: None });
                    proof {
                        assert(ctx.sem().values =~= st2.values);
                        assert(ctx.sem() =~~= st2);
                        assert(fview(frames@) =~~= spec_step(code.model(), c)->Next_0.frames);
                    }
                    Ok(StepOut::Continue(None))
                },
                _ => Err(Fault::MalformedGraph),
            }
        },
        _ => Err(Fault::MalformedGraph),
    }
}

/// A finished manual behavior arriving at the resolve frame that awaited it.
fn recv_resolve(
    ctx: &mut Context,
    code: &Code<'_>,
    frames: &mut Vec<Frame>,
    pending: Vec<PendingParam>,
    out: Vec<Value>,
    awaiting_slot: Option<usize>,
    sig: Signal,
    Ghost(c): Ghost<ConfigM>,
) -> (r: Result<StepOut, Fault>)
    requires
        c.st == old(ctx).sem(),
        c.signal == Some(sig@),
        c.frames == fview(old(frames)@).push(
            FrameM::Resolve {
                pending: pending@,
                out: vals_view(out@),
                awaiting_slot: opt_int(awaiting_slot),
            },
        ),
    ensures
        step_matches(code.model(), c, final(ctx).sem(), fview(final(frames)@), r),
        old(ctx).logger is Some <==> final(ctx).logger is Some,
        Context::pools_eq(*final(ctx), *old(ctx)),
        old(ctx).log_records().is_prefix_of(final(ctx).log_records()),
{
    match (sig, awaiting_slot) {
        (Signal::Done(outs, _branch), Some(slot)) => {
            if slot >= outs.len() {
                return Err(Fault::OutOfBounds);
            }
            let mut outs = outs;
            let chosen = outs.swap_remove(slot);
            let mut out = out;
            out.push(chosen);
            frames.push(Frame::Resolve { pending, out, awaiting_slot: None });
            proof {
                assert(fview(frames@) =~~= spec_step(code.model(), c)->Next_0.frames);
            }
            Ok(StepOut::Continue(None))
        },
        _ => Err(Fault::MalformedGraph),
    }
}

/// Resolved parameters arriving at a default behavior on an `Exec` node: the
/// behavior runs (recorded by the profiler when attached) and its outputs
/// and branch travel down to the flow frame.
fn recv_defexec(
    ctx: &mut Context,
    code: &Code<'_>,
    frames: &mut Vec<Frame>,
    node: usize,
    op: DefaultOp,
    sig: Signal,
    Ghost(c): Ghost<ConfigM>,
) -> (r: Result<StepOut, Fault>)
    requires
        c.st == old(ctx).sem(),
        c.signal == Some(sig@),
        c.frames == fview(old(frames)@).push(FrameM::DefaultExec { node: node as int, op }),
    ensures
        step_matches(code.model(), c, final(ctx).sem(), fview(final(frames)@), r),
        old(ctx).logger is Some <==> final(ctx).logger is Some,
        Context::pools_eq(*final(ctx), *old(ctx)),
        old(ctx).log_records().is_prefix_of(final(ctx).log_records()),
{
    match sig {
        Signal::Values(args) => {
            let lb = ctx.log_begin(args.as_slice());
            match apply_default(ctx, op, args) {
                Ok((outs, branch)) => {
                    ctx.log_end(lb, node, outs.as_slice());
                    proof {
                        assert(fview(frames@) =~~= spec_step(code.model(), c)->Next_0.frames);
                        assert(ctx.sem() == spec_step(code.model(), c)->Next_0.st);
                    }
                    Ok(StepOut::Continue(Some(Signal::Done(outs, branch))))
                },
                Err(f) => Err(f),
            }
        },
        _ => Err(Fault::MalformedGraph),
    }
}

/// One active step of a flow frame: an empty worklist finishes the walk;
/// otherwise the next `Exec` node is popped and its behavior frames are
/// pushed.
fn act_flow(
    ctx: &mut Context,
    code: &Code<'_>,
    frames: &mut Vec<Frame>,
    queue: Vec<usize>,
    awaiting: Option<usize>,
    Ghost(c): Ghost<ConfigM>,
) -> (r: Result<StepOut, Fault>)
    requires
        c.st == old(ctx).sem(),
        c.signal is None,
        c.frames == fview(old(frames)@).push(
            FrameM::Flow { queue: usizes(queue@), awaiting: opt_int(awaiting) },
        ),
    ensures
        step_matches(code.model(), c, final(ctx).sem(), fview(final(frames)@), r),
        old(ctx).logger is Some <==> final(ctx).logger is Some,
        Context::pools_eq(*final(ctx), *old(ctx)),
        old(ctx).log_records().is_prefix_of(final(ctx).log_records()),
{
    if awaiting.is_some() {
        return Err(Fault::MalformedGraph);
    }
    let mut queue = queue;
    let ghost q0 = queue@;
    match queue.pop() {
        None => {
            proof {
                assert(fview(frames@) =~~= spec_step(code.model(), c)->Next_0.frames);
            }
            Ok(StepOut::Continue(Some(Signal::Unit)))
        },
        Some(node) => {
            proof {
                assert(usizes(queue@) =~= usizes(q0).drop_last());
            }
            if node >= code.len() {
                return Err(Fault::OutOfBounds);
            }
            match code.node(node) {
                Node::Exec { parameters, behavior, .. } => match behavior {
                    Exec::Default(op) => {
                        let op = *op;
                        let pending = build_rev_pending(parameters.as_slice());
                        frames.push(Frame::Flow { queue, awaiting: Some(node) });
                        frames.push(Frame::DefaultExec { node, op });
                        frames.push(
                            Frame::Resolve { pending, out: Vec::new(), awaiting_slot: None },
                        );
                        proof {
                            assert(fview(frames@) =~~= spec_step(code.model(), c)->Next_0.frames);
                        }
                        Ok(StepOut::Continue(None))
                    },
                    Exec::Manual(ManualOp::LocalVariable) => {
                        if parameters.len() < 1 {
                            return Err(Fault::MalformedGraph);
                        }
                        let mut pending: Vec<PendingParam> = Vec::new();
                        pending.push(PendingParam { idx: parameters[0], visited: false });
                        frames.push(Frame::Flow { queue, awaiting: Some(node) });
                        frames.push(Frame::LocalVar { node, stage: LocalVarStage::AwaitKey });
                        frames.push(
                            Frame::Resolve { pending, out: Vec::new(), awaiting_slot: None },
                        );
                        proof {
                            assert(pending@ =~= seq![PendingParam::spec_from(parameters@[0])]);
                            assert(fview(frames@) =~~= spec_step(code.model(), c)->Next_0.frames);
                        }
                        Ok(StepOut::Continue(None))
                    },
                    Exec::Manual(ManualOp::FiniteLoop) => {
                        if parameters.len() != 2 {
                            return Err(Fault::MalformedGraph);
                        }
                        let pending = build_rev_pending(parameters.as_slice());
                        frames.push(Frame::Flow { queue, awaiting: Some(node) });
                        frames.push(Frame::Loop { node, stage: LoopStage::AwaitFirstBounds });
                        frames.push(
                            Frame::Resolve { pending, out: Vec::new(), awaiting_slot: None },
                        );
                        proof {
                            assert(fview(frames@) =~~= spec_step(code.model(), c)->Next_0.frames);
                        }
                        Ok(StepOut::Continue(None))
                    },
                },
                _ => Err(Fault::MalformedGraph),
            }
        },
    }
}

/// Resolved values arriving at a variable-read behavior.
fn recv_localvar(
    ctx: &mut Context,
    code: &Code<'_>,
    frames: &mut Vec<Frame>,
    node: usize,
    stage: LocalVarStage,
    sig: Signal,
    Ghost(c): Ghost<ConfigM>,
) -> (r: Result<StepOut, Fault>)
    requires
        c.st == old(ctx).sem(),
        c.signal == Some(sig@),
        c.frames == fview(old(frames)@).push(
            FrameM::LocalVar {
                node: node as int,
                stage: match stage {
                    LocalVarStage::AwaitKey => LocalVarStageM::AwaitKey,
                    LocalVarStage::AwaitDefault { key } => LocalVarStageM::AwaitDefault {
                        key: key as int,
                    },
                },
            },
        ),
    ensures
        step_matches(code.model(), c, final(ctx).sem(), fview(final(frames)@), r),
        old(ctx).logger is Some <==> final(ctx).logger is Some,
        Context::pools_eq(*final(ctx), *old(ctx)),
        old(ctx).log_records().is_prefix_of(final(ctx).log_records()),
{
    match (stage, sig) {
        (LocalVarStage::AwaitKey, Signal::Values(vals)) => {
            if vals.len() != 1 {
                return Err(Fault::MalformedGraph);
            }
            match &vals[0] {
                Value::LocalVariable(k) => {
                    let k = *k;
                    if k == usize::MAX {
                        return Err(Fault::OutOfBounds);
                    }
                    let v = ctx.get_local_variable(k);
                    if !v.is_uninit() {
                        let mut outs: Vec<Value> = Vec::new();
                        outs.push(v);
                        proof {
                            assert(fview(frames@) =~~= spec_step(code.model(), c)->Next_0.frames);
                            assert(vals_view(outs@) =~= spec_step(
                                code.model(),
                                c,
                            )->Next_0.signal->0->Done_0);
                        }
                        Ok(StepOut::Continue(Some(Signal::Done(outs, 0))))
                    } else {
                        if node >= code.len() {
                            return Err(Fault::OutOfBounds);
                        }
                        match params_of(code.node(node)) {
                            Some(parameters) => {
                                if parameters.len() < 2 {
                                    return Err(Fault::MalformedGraph);
                                }
                                let mut pending: Vec<PendingParam> = Vec::new();
                                pending.push(PendingParam { idx: parameters[1], visited: false });
                                frames.push(
                                    Frame::LocalVar {
                                        node,
                                        stage: LocalVarStage::AwaitDefault { key: k },
                                    },
                                );
                                frames.push(
                                    Frame::Resolve {
                                        pending,
                                        out: Vec::new(),
                                        awaiting_slot: None,
                                    },
                                );
                                proof {
                                    assert(fview(frames@) =~~= spec_step(
                                        code.model(),
                                        c,
                                    )->Next_0.frames);
                                }
                                Ok(StepOut::Continue(None))
                            },
                            None => Err(Fault::MalformedGraph),
                        }
                    }
                },
                _ => Err(Fault::TypeMismatch),
            }
        },
        (LocalVarStage::AwaitDefault { key }, Signal::Values(vals)) => {
            if vals.len() != 1 {
                return Err(Fault::MalformedGraph);
            }
            if key >= ctx.local_variables.len() {
                return Err(Fault::OutOfBounds);
            }
            let mut vals = vals;
            let ghost vm0 = vals_view(vals@);
            let v = vals.pop().unwrap();
            let dup = v.duplicate();
            let ghost mid = ctx.sem();
            ctx.local_variables[key] = v;
            let mut outs: Vec<Value> = Vec::new();
            outs.push(dup);
            proof {
                assert(dup@ == vm0[0]);
                assert(ctx.sem() =~~= (StateM { vars: mid.vars.update(key as int, dup@), ..mid }));
                assert(ctx.sem() == spec_step(code.model(), c)->Next_0.st);
                assert(fview(frames@) =~~= spec_step(code.model(), c)->Next_0.frames);
                assert(vals_view(outs@) =~= spec_step(code.model(), c)->Next_0.signal->0->Done_0);
            }
            Ok(StepOut::Continue(Some(Signal::Done(outs, 0))))
        },
        _ => Err(Fault::MalformedGraph),
    }
}

/// The loop-condition check, made on entry and after each body run.
fn loop_check(
    ctx: &mut Context,
    code: &Code<'_>,
    frames: &mut Vec<Frame>,
    node: usize,
    id: usize,
    idx: i64,
    end: i64,
) -> (r: Result<StepOut, Fault>)
    ensures
        (match crate::model::spec_loop_check(
            code.model(),
            old(ctx).sem(),
            fview(old(frames)@),
            node as int,
            id as int,
            idx,
            end,
        ) {
            StepM::Next(c2) => r matches Ok(StepOut::Continue(s2)) && final(ctx).sem() == c2.st
                && fview(final(frames)@) == c2.frames && sview(s2) == c2.signal,
            StepM::Stop(st, sg) => true,
            StepM::Fail(f) => r == Err::<StepOut, Fault>(f),
        }),
        old(ctx).logger is Some <==> final(ctx).logger is Some,
        Context::pools_eq(*final(ctx), *old(ctx)),
        old(ctx).log_records().is_prefix_of(final(ctx).log_records()),
{
    let ghost c0st = ctx.sem();
    let ghost rest = fview(frames@);
    let ghost spec_r = crate::model::spec_loop_check(
        code.model(),
        c0st,
        rest,
        node as int,
        id as int,
        idx,
        end,
    );
    if id >= ctx.loop_flags.len() {
        return Err(Fault::OutOfBounds);
    }
    if idx <= end && ctx.loop_is_running(id) {
        if node >= code.len() || node >= ctx.values.len() {
            return Err(Fault::OutOfBounds);
        }
        match code.node(node) {
            Node::Exec { next, .. } => {
                if next.len() < 1 {
                    return Err(Fault::OutOfBounds);
                }
                let cell = ctx.values.remove(node);
                match cell {
                    Some(mut vs) => {
                        if vs.len() < 1 {
                            ctx.values.insert(node, Some(vs));
                            return Err(Fault::OutOfBounds);
                        }
                        vs[0] = Value::Int(idx);
                        ctx.values.insert(node, Some(vs));
                    },
                    None => {
                        let mut vs: Vec<Value> = Vec::new();
                        vs.push(Value::Int(idx));
                        vs.push(Value::LoopId(id));
                        ctx.values.insert(node, Some(vs));
                    },
                }
                let mut queue: Vec<usize> = Vec::new();
                extend_rev_flow(&mut queue, next[0].as_slice());
                frames.push(
                    Frame::Loop { node, stage: LoopStage::AwaitBody { id, idx, end } },
                );
                frames.push(Frame::Flow { queue, awaiting: None });
                proof {
                    assert(ctx.sem().values =~~= spec_r->Next_0.st.values);
                    assert(ctx.sem() =~~= spec_r->Next_0.st);
                    assert(fview(frames@) =~~= spec_r->Next_0.frames);
                }
                Ok(StepOut::Continue(None))
            },
            _ => Err(Fault::MalformedGraph),
        }
    } else {
        ctx.loop_exit(id);
        let mut outs: Vec<Value> = Vec::new();
        outs.push(Value::Int(idx));
        outs.push(Value::LoopId(id));
        proof {
            assert(ctx.sem() =~~= spec_r->Next_0.st);
            assert(vals_view(outs@) =~= spec_r->Next_0.signal->0->Done_0);
        }
        Ok(StepOut::Continue(Some(Signal::Done(outs, 1))))
    }
}

/// A signal arriving at a finite-loop behavior.
fn recv_loop(
    ctx: &mut Context,
    code: &Code<'_>,
    frames: &mut Vec<Frame>,
    node: usize,
    stage: LoopStage,
    sig: Signal,
    Ghost(c): Ghost<ConfigM>,
) -> (r: Result<StepOut, Fault>)
    requires
        c.st == old(ctx).sem(),
        c.signal == Some(sig@),
        c.frames == fview(old(frames)@).push(
            FrameM::Loop {
                node: node as int,
                stage: match stage {
                    LoopStage::AwaitFirstBounds => LoopStageM::AwaitFirstBounds,
                    LoopStage::AwaitBody { id, idx, end } => LoopStageM::AwaitBody {
                        id: id as int,
                        idx,
                        end,
                    },
                    LoopStage::AwaitBounds { id, idx } => LoopStageM::AwaitBounds {
                        id: id as int,
                        idx,
                    },
                },
            },
        ),
    ensures
        step_matches(code.model(), c, final(ctx).sem(), fview(final(frames)@), r),
        old(ctx).logger is Some <==> final(ctx).logger is Some,
        Context::pools_eq(*final(ctx), *old(ctx)),
        old(ctx).log_records().is_prefix_of(final(ctx).log_records()),
{
    match (stage, sig) {
        (LoopStage::AwaitFirstBounds, Signal::Values(vals)) => {
            if vals.len() != 2 {
                return Err(Fault::MalformedGraph);
            }
            match (&vals[0], &vals[1]) {
                (Value::Int(s), Value::Int(e)) => {
                    let id = ctx.loop_enter();
                    proof {
                        assert(fview(frames@) =~= c.frames.drop_last());
                        assert(ctx.sem() == (StateM { flags: c.st.flags.push(true), ..c.st }));
                    }
                    loop_check(ctx, code, frames, node, id, *s, *e)
                },
                _ => Err(Fault::TypeMismatch),
            }
        },
        (LoopStage::AwaitBody { id, idx, end }, Signal::Unit) => {
            if node >= code.len() {
                return Err(Fault::OutOfBounds);
            }
            match params_of(code.node(node)) {
                Some(parameters) => {
                    let pending = build_rev_pending(parameters.as_slice());
                    frames.push(
                        Frame::Loop { node, stage: LoopStage::AwaitBounds { id, idx } },
                    );
                    frames.push(
                        Frame::Resolve { pending, out: Vec::new(), awaiting_slot: None },
                    );
                    proof {
                        assert(fview(frames@) =~~= spec_step(code.model(), c)->Next_0.frames);
                    }
                    Ok(StepOut::Continue(None))
                },
                None => Err(Fault::MalformedGraph),
            }
        },
        (LoopStage::AwaitBounds { id, idx }, Signal::Values(vals)) => {
            if vals.len() != 2 {
                return Err(Fault::MalformedGraph);
            }
            match &vals[1] {
                Value::Int(e2) => {
                    proof {
                        assert(fview(frames@) =~= c.frames.drop_last());
                    }
                    loop_check(ctx, code, frames, node, id, idx.wrapping_add(1), *e2)
                },
                _ => Err(Fault::TypeMismatch),
            }
        },
        _ => Err(Fault::MalformedGraph),
    }
}

/// One active step of a resolve frame, handling the entry on top of the
/// pending stack.
fn act_resolve(
    ctx: &mut Context,
    code: &Code<'_>,
    frames: &mut Vec<Frame>,
    pending: Vec<PendingParam>,
    out: Vec<Value>,
    awaiting_slot: Option<usize>,
    Ghost(c): Ghost<ConfigM>,
) -> (r: Result<StepOut, Fault>)
    requires
        c.st == old(ctx).sem(),
        c.signal is None,
        c.frames == fview(old(frames)@).push(
            FrameM::Resolve {
                pending: pending@,
                out: vals_view(out@),
                awaiting_slot: opt_int(awaiting_slot),
            },
        ),
    ensures
        step_matches(code.model(), c, final(ctx).sem(), fview(final(frames)@), r),
        old(ctx).logger is Some <==> final(ctx).logger is Some,
        Context::pools_eq(*final(ctx), *old(ctx)),
        old(ctx).log_records().is_prefix_of(final(ctx).log_records()),
{
    if awaiting_slot.is_some() {
        return Err(Fault::MalformedGraph);
    }
    let mut pending = pending;
    let ghost p0 = pending@;
    match pending.pop() {
        None => {
            proof {
                assert(fview(frames@) =~~= spec_step(code.model(), c)->Next_0.frames);
            }
            Ok(StepOut::Continue(Some(Signal::Values(out))))
        },
        Some(pp) => {
            let node = pp.idx.node;
            let slot = pp.idx.value;
            if node >= code.len() {
                return Err(Fault::OutOfBounds);
            }
            if pp.visited {
                match code.node(node) {
                    Node::Operation { parameters, behavior } => match behavior {
                        Exec::Default(op) => {
                            let op = *op;
                            if out.len() < parameters.len() {
                                return Err(Fault::MalformedGraph);
                            }
                            let pb = out.len() - parameters.len();
                            let mut out = out;
                            let ghost out0 = vals_view(out@);
                            let region = out.split_off(pb);
                            proof {
                                assert(vals_view(region@) =~= out0.subrange(
                                    pb as int,
                                    out0.len() as int,
                                ));
                                assert(vals_view(out@) =~= out0.subrange(0, pb as int));
                            }
                            let lb = ctx.log_begin(region.as_slice());
                            match apply_default(ctx, op, region) {
                                Ok((outs, _branch)) => {
                                    ctx.log_end(lb, node, outs.as_slice());
                                    if slot >= outs.len() {
                                        return Err(Fault::OutOfBounds);
                                    }
                                    let mut outs = outs;
                                    let chosen = outs.swap_remove(slot);
                                    out.push(chosen);
                                    frames.push(
                                        Frame::Resolve { pending, out, awaiting_slot: None },
                                    );
                                    proof {
                                        assert(ctx.sem() == spec_step(
                                            code.model(),
                                            c,
                                        )->Next_0.st);
                                        assert(fview(frames@) =~~= spec_step(
                                            code.model(),
                                            c,
                                        )->Next_0.frames);
                                    }
                                    Ok(StepOut::Continue(None))
                                },
                                Err(f) => Err(f),
                            }
                        },
                        _ => Err(Fault::MalformedGraph),
                    },
                    _ => Err(Fault::MalformedGraph),
                }
            } else {
                match code.node(node) {
                    Node::Operation { parameters, behavior } => match behavior {
                        Exec::Default(_) => {
                            pending.push(PendingParam { idx: pp.idx, visited: true });
                            extend_rev_pending(&mut pending, parameters.as_slice());
                            frames.push(Frame::Resolve { pending, out, awaiting_slot: None });
                            proof {
                                assert(fview(frames@) =~~= spec_step(
                                    code.model(),
                                    c,
                                )->Next_0.frames);
                            }
                            Ok(StepOut::Continue(None))
                        },
                        Exec::Manual(ManualOp::LocalVariable) => {
                            if parameters.len() < 1 {
                                return Err(Fault::MalformedGraph);
                            }
                            frames.push(
                                Frame::Resolve { pending, out, awaiting_slot: Some(slot) },
                            );
                            let mut kp: Vec<PendingParam> = Vec::new();
                            kp.push(PendingParam { idx: parameters[0], visited: false });
                            frames.push(Frame::LocalVar { node, stage: LocalVarStage::AwaitKey });
                            frames.push(
                                Frame::Resolve { pending: kp, out: Vec::new(), awaiting_slot: None },
                            );
                            proof {
                                assert(fview(frames@) =~~= spec_step(
                                    code.model(),
                                    c,
                                )->Next_0.frames);
                            }
                            Ok(StepOut::Continue(None))
                        },
                        Exec::Manual(ManualOp::FiniteLoop) => Err(Fault::MalformedGraph),
                    },
                    Node::Constant { values } => {
                        if slot >= values.len() {
                            return Err(Fault::OutOfBounds);
                        }
                        let v = values[slot].duplicate();
                        let mut out = out;
                        out.push(v);
                        frames.push(Frame::Resolve { pending, out, awaiting_slot: None });
                        proof {
                            assert(fview(frames@) =~~= spec_step(code.model(), c)->Next_0.frames);
                        }
                        Ok(StepOut::Continue(None))
                    },
                    Node::Start { .. } | Node::Exec { .. } => {
                        if node >= ctx.values.len() {
                            return Err(Fault::OutOfBounds);
                        }
                        let v = match &ctx.values[node] {
                            None => Value::Uninit,
                            Some(vs) => {
                                if slot >= vs.len() {
                                    return Err(Fault::OutOfBounds);
                                }
                                vs[slot].duplicate()
                            },
                        };
                        let mut out = out;
                        out.push(v);
                        frames.push(Frame::Resolve { pending, out, awaiting_slot: None });
                        proof {
                            assert(fview(frames@) =~~= spec_step(code.model(), c)->Next_0.frames);
                        }
                        Ok(StepOut::Continue(None))
                    },
                    Node::End { .. } => Err(Fault::MalformedGraph),
                }
            }
        },
    }
}

/// One step of the machine: exactly `spec_step` of the current
/// configuration.
fn step(ctx: &mut Context, code: &Code<'_>, frames: &mut Vec<Frame>, signal: Option<Signal>) -> (r:
    Result<StepOut, Fault>)
    ensures
        step_matches(
            code.model(),
            ConfigM {
                st: old(ctx).sem(),
                frames: fview(old(frames)@),
                signal: sview(signal),
            },
            final(ctx).sem(),
            fview(final(frames)@),
            r,
        ),
        old(ctx).logger is Some <==> final(ctx).logger is Some,
        Context::pools_eq(*final(ctx), *old(ctx)),
        old(ctx).log_records().is_prefix_of(final(ctx).log_records()),
{
    let ghost c = ConfigM { st: ctx.sem(), frames: fview(frames@), signal: sview(signal) };
    match signal {
        Some(sig) => {
            match frames.pop() {
                None => Ok(StepOut::Stopped(sig)),
                Some(f) => {
                    proof {
                        assert(c.frames =~= fview(frames@).push(f@));
                    }
                    match f {
                        Frame::Flow { queue, awaiting } => recv_flow(
                            ctx,
                            code,
                            frames,
                            queue,
                            awaiting,
                            sig,
                            Ghost(c),
                        ),
                        Frame::Resolve { pending, out, awaiting_slot } => recv_resolve(
                            ctx,
                            code,
                            frames,
                            pending,
                            out,
                            awaiting_slot,
                            sig,
                            Ghost(c),
                        ),
                        Frame::DefaultExec { node, op } => recv_defexec(
                            ctx,
                            code,
                            frames,
                            node,
                            op,
                            sig,
                            Ghost(c),
                        ),
                        Frame::LocalVar { node, stage } => recv_localvar(
                            ctx,
                            code,
                            frames,
                            node,
                            stage,
                            sig,
                            Ghost(c),
                        ),
                        Frame::Loop { node, stage } => recv_loop(
                            ctx,
                            code,
                            frames,
                            node,
                            stage,
                            sig,
                            Ghost(c),
                        ),
                    }
                },
            }
        },
        None => {
            match frames.pop() {
                None => Ok(StepOut::Stopped(Signal::Unit)),
                Some(f) => {
                    proof {
                        assert(c.frames =~= fview(frames@).push(f@));
                    }
                    match f {
                        Frame::Flow { queue, awaiting } => act_flow(
                            ctx,
                            code,
                            frames,
                            queue,
                            awaiting,
                            Ghost(c),
                        ),
                        Frame::Resolve { pending, out, awaiting_slot } => act_resolve(
                            ctx,
                            code,
                            frames,
                            pending,
                            out,
                            awaiting_slot,
                            Ghost(c),
                        ),
                        _ => Err(Fault::MalformedGraph),
                    }
                },
            }
        },
    }
}

proof fn lemma_prefix_trans(a: Seq<crate::logger::Record>, b: Seq<crate::logger::Record>, c: Seq<
    crate::logger::Record,
>)
    requires
        a.is_prefix_of(b),
        b.is_prefix_of(c),
    ensures
        a.is_prefix_of(c),
{
    assert(a =~= c.subrange(0, a.len() as int));
}

/// Drives the machine until it stops, fails, or runs out of steps: exactly
/// `spec_drive` of the starting configuration.
#[verifier::loop_isolation(false)]
fn drive(ctx: &mut Context, code: &Code<'_>, frames: Vec<Frame>, fuel: u64) -> (r: Result<
    Signal,
    Fault,
>)
    ensures
        (match spec_drive(
            code.model(),
            ConfigM { st: old(ctx).sem(), frames: fview(frames@), signal: None },
            fuel as nat,
        ) {
            Ok((st, sg)) => r matches Ok(s) && final(ctx).sem() == st && s@ == sg,
            Err(f) => r == Err::<Signal, Fault>(f),
        }),
        old(ctx).logger is Some <==> final(ctx).logger is Some,
        Context::pools_eq(*final(ctx), *old(ctx)),
        old(ctx).log_records().is_prefix_of(final(ctx).log_records()),
{
    let mut frames = frames;
    let mut signal: Option<Signal> = None;
    let mut fuel = fuel;
    let ghost c0 = ConfigM { st: ctx.sem(), frames: fview(frames@), signal: None };
    let ghost fuel0 = fuel as nat;
    let ghost logging0 = ctx.logger is Some;
    loop
        invariant
            spec_drive(code.model(), c0, fuel0) == spec_drive(
                code.model(),
                ConfigM { st: ctx.sem(), frames: fview(frames@), signal: sview(signal) },
                fuel as nat,
            ),
            logging0 <==> ctx.logger is Some,
            Context::pools_eq(*ctx, *old(ctx)),
            old(ctx).log_records().is_prefix_of(ctx.log_records()),
        decreases fuel,
    {
        if fuel == 0 {
            return Err(Fault::OutOfFuel);
        }
        let ghost c_prev = ConfigM {
            st: ctx.sem(),
            frames: fview(frames@),
            signal: sview(signal),
        };
        let ghost fuel_prev = fuel as nat;
        let ghost logs_prev = ctx.log_records();
        match step(ctx, code, &mut frames, signal) {
            Ok(StepOut::Continue(s2)) => {
                signal = s2;
                fuel = fuel - 1;
                proof {
                    assert(spec_drive(code.model(), c_prev, fuel_prev) == spec_drive(
                        code.model(),
                        ConfigM { st: ctx.sem(), frames: fview(frames@), signal: sview(signal) },
                        (fuel_prev - 1) as nat,
                    ));
                    lemma_prefix_trans(old(ctx).log_records(), logs_prev, ctx.log_records());
                }
            },
            Ok(StepOut::Stopped(s)) => {
                proof {
                    lemma_prefix_trans(old(ctx).log_records(), logs_prev, ctx.log_records());
                }
                return Ok(s);
            },
            Err(f) => {
                proof {
                    lemma_prefix_trans(old(ctx).log_records(), logs_prev, ctx.log_records());
                }
                return Err(f);
            },
        }
    }
}

impl Context {
    /// One whole run: reinitializes the per-run state, seeds
    /// `initial_values` as the `Start` node's cached output, and walks the
    /// graph to completion. The caller reads results out of the context
    /// afterwards, through `run_end` or `local_variables`.
    pub fn run_start(&mut self, code: &Code<'_>, idx: usize, initial_values: Vec<Value>) -> (r:
        Result<(), Fault>)
        ensures
            (match spec_run_start(
                code.model(),
                idx as int,
                vals_view(initial_values@),
                RUN_FUEL as nat,
            ) {
                Ok(st) => r == Ok::<(), Fault>(()) && final(self).sem() == st,
                Err(f) => r == Err::<(), Fault>(f),
            }),
            old(self).logger is Some <==> final(self).logger is Some,
            Context::pools_eq(*final(self), *old(self)),
            old(self).log_records().is_prefix_of(final(self).log_records()),
    {
        self.init(code);
        if idx >= code.len() {
            return Err(Fault::OutOfBounds);
        }
        match code.node(idx) {
            Node::Start { next } => {
                let ghost st0 = self.sem();
                self.values[idx] = Some(initial_values);
                let mut queue: Vec<usize> = Vec::new();
                extend_rev_flow(&mut queue, next.as_slice());
                let mut frames: Vec<Frame> = Vec::new();
                frames.push(Frame::Flow { queue, awaiting: None });
                proof {
                    assert(self.sem().values =~= st0.values.update(
                        idx as int,
                        Some(vals_view(initial_values@)),
                    ));
                    assert(self.sem() =~~= (StateM {
                        values: st0.values.update(idx as int, Some(vals_view(initial_values@))),
                        ..st0
                    }));
                    assert(fview(frames@) =~~= seq![
                        FrameM::Flow {
                            queue: crate::model::rev_flow(code.model()[idx as int]->Start_next),
                            awaiting: None,
                        },
                    ]);
                }
                match drive(self, code, frames, RUN_FUEL) {
                    Ok(_sig) => Ok(()),
                    Err(f) => Err(f),
                }
            },
            _ => Err(Fault::MalformedGraph),
        }
    }

    /// Walks the flow from one `Exec` node against the current context
    /// state, to completion.
    pub fn run_inner(&mut self, code: &Code<'_>, idx: usize) -> (r: Result<(), Fault>)
        ensures
            (match spec_run_inner(code.model(), old(self).sem(), idx as int, RUN_FUEL as nat) {
                Ok(st) => r == Ok::<(), Fault>(()) && final(self).sem() == st,
                Err(f) => r == Err::<(), Fault>(f),
            }),
            old(self).logger is Some <==> final(self).logger is Some,
            Context::pools_eq(*final(self), *old(self)),
            old(self).log_records().is_prefix_of(final(self).log_records()),
    {
        let mut queue: Vec<usize> = Vec::new();
        queue.push(idx);
        let mut frames: Vec<Frame> = Vec::new();
        frames.push(Frame::Flow { queue, awaiting: None });
        proof {
            assert(fview(frames@) =~~= seq![
                FrameM::Flow { queue: seq![idx as int], awaiting: None },
            ]);
        }
        match drive(self, code, frames, RUN_FUEL) {
            Ok(_sig) => Ok(()),
            Err(f) => Err(f),
        }
    }

    /// Resolves a list of parameter references against the current context
    /// state, appending the produced values to `params_out` in order.
    /// Scratch buffers are taken from the context's pools and handed back,
    /// or replaced by fresh empty ones, on every exit path, so the pools
    /// never drain.
    pub fn query_params(
        &mut self,
        code: &Code<'_>,
        params: &[ParameterIndexes],
        params_out: &mut Vec<Value>,
    ) -> (r: Result<(), Fault>)
        ensures
            (match spec_query(code.model(), old(self).sem(), params@, RUN_FUEL as nat) {
                Ok((st, vs)) => r == Ok::<(), Fault>(()) && final(self).sem() == st && vals_view(
                    final(params_out)@,
                ) == vals_view(old(params_out)@) + vs,
                Err(f) => r == Err::<(), Fault>(f) && final(params_out)@ == old(params_out)@,
            }),
            old(self).logger is Some <==> final(self).logger is Some,
            final(self).pool_usize == old(self).pool_usize,
            final(self).pool_value.pooled() >= old(self).pool_value.pooled(),
            final(self).pool_pending_param.pooled() >= old(self).pool_pending_param.pooled(),
            old(self).log_records().is_prefix_of(final(self).log_records()),
    {
        let mut pending = self.pool_pending_param.get();
        extend_rev_pending(&mut pending, params);
        let scratch = self.pool_value.get();
        let mut frames: Vec<Frame> = Vec::new();
        frames.push(Frame::Resolve { pending, out: scratch, awaiting_slot: None });
        proof {
            assert(fview(frames@) =~~= seq![
                FrameM::Resolve {
                    pending: crate::model::rev_pending(params@),
                    out: Seq::<ValueModel>::empty(),
                    awaiting_slot: None,
                },
            ]);
        }
        let outcome = drive(self, code, frames, RUN_FUEL);
        self.pool_pending_param.ret(Vec::new());
        match outcome {
            Ok(sig) => match sig {
                Signal::Values(vs) => {
                    let mut vs = vs;
                    let ghost vsm = vals_view(vs@);
                    params_out.append(&mut vs);
                    self.pool_value.ret(vs);
                    proof {
                        assert(vals_view(params_out@) =~= vals_view(old(params_out)@) + vsm);
                    }
                    Ok(())
                },
                _ => {
                    self.pool_value.ret(Vec::new());
                    Err(Fault::MalformedGraph)
                },
            },
            Err(f) => {
                self.pool_value.ret(Vec::new());
                Err(f)
            },
        }
    }

    /// A run's readout: resolves an `End` node's parameters against the
    /// current context state as the program's output, so a finished run's
    /// values and variables can be read out. Pooled scratch buffers are
    /// replaced on every exit path.
    pub fn run_end(&mut self, code: &Code<'_>, idx: usize) -> (r: Result<Vec<Value>, Fault>)
        ensures
            (match spec_run_end(code.model(), old(self).sem(), idx as int, RUN_FUEL as nat) {
                Ok((st, vs)) => r matches Ok(out) && final(self).sem() == st && vals_view(out@)
                    == vs,
                Err(f) => r == Err::<Vec<Value>, Fault>(f),
            }),
            old(self).logger is Some <==> final(self).logger is Some,
            final(self).pool_usize == old(self).pool_usize,
            final(self).pool_value.pooled() >= old(self).pool_value.pooled(),
            final(self).pool_pending_param.pooled() >= old(self).pool_pending_param.pooled(),
            old(self).log_records().is_prefix_of(final(self).log_records()),
    {
        if idx >= code.len() {
            return Err(Fault::OutOfBounds);
        }
        match code.node(idx) {
            Node::End { parameters } => {
                let mut pending = self.pool_pending_param.get();
                extend_rev_pending(&mut pending, parameters.as_slice());
                let scratch = self.pool_value.get();
                let mut frames: Vec<Frame> = Vec::new();
                frames.push(Frame::Resolve { pending, out: scratch, awaiting_slot: None });
                proof {
                    assert(fview(frames@) =~~= seq![
                        FrameM::Resolve {
                            pending: crate::model::rev_pending(
                                code.model()[idx as int]->End_parameters,
                            ),
                            out: Seq::<ValueModel>::empty(),
                            awaiting_slot: None,
                        },
                    ]);
                }
                let outcome = drive(self, code, frames, RUN_FUEL);
                self.pool_pending_param.ret(Vec::new());
                self.pool_value.ret(Vec::new());
                match outcome {
                    Ok(sig) => match sig {
                        Signal::Values(vs) => Ok(vs),
                        _ => Err(Fault::MalformedGraph),
                    },
                    Err(f) => Err(f),
                }
            },
            _ => Err(Fault::MalformedGraph),
        }
    }
}

} // verus!
