pub mod board;
pub mod brainfuck;
pub mod laws;
pub mod leb128;
pub mod logger;
mod machine;
pub mod model;
pub mod nodes;
pub mod station;
pub mod value;
pub mod vec_pool;

use vstd::prelude::*;

use crate::logger::{arena_depth, instant_now, snap_views, spec_snapshots, Logger, Record, ValueSnapshot};
use crate::model::{ensure_vars, spec_init_state, StateM};
use crate::nodes::Code;
use crate::value::{vals_view, Value, ValueModel};
use crate::vec_pool::VecPool;

verus! {

/// The step budget of one run. Every machine step consumes one unit, so no
/// terminating graph that a machine could actually execute comes near it.
pub const RUN_FUEL: u64 = u64::MAX;

/// Why a run stopped short: a malformed graph, a value of the wrong tag, an
/// index out of range, or the step budget exhausted. The engine assumes
/// previously-validated graphs; any of these means the run is abandoned, not
/// retried.
#[derive(Debug, Clone, Copy, PartialEq, Eq, Structural)]
pub enum Fault {
    /// A structural invariant of the graph is broken: control flow reached a
    /// non-`Exec` node, an `End` node was referenced as a data source, a
    /// manual-only behavior sat on the wrong node kind, or a behavior got
    /// the wrong number of parameters.
    MalformedGraph,
    /// A value's tag did not match what a behavior expected.
    TypeMismatch,
    /// A node, slot, list or loop index was out of range.
    OutOfBounds,
    /// The step budget of the run was exhausted.
    OutOfFuel,
}

/// A reference to one output slot of another node: `node` indexes the node
/// array, `value` the slot among that node's outputs.
#[derive(Debug, Clone, Copy, PartialEq, Eq, Structural, Hash)]
pub struct ParameterIndexes {
    pub node: usize,
    pub value: usize,
}

/// A control edge: the index of the next node on a flow path.
#[derive(Debug, Clone, Copy, PartialEq, Eq, Structural, Hash)]
pub struct FlowIndexes {
    pub node: usize,
}

/// A parameter reference on the resolution stack, with its two-pass flag:
/// an entry is first visited to push its own parameters, then visited again
/// to run its behavior over the resolved region.
#[derive(Debug, Clone, Copy, PartialEq, Eq, Structural)]
pub struct PendingParam {
    pub idx: ParameterIndexes,
    pub visited: bool,
}

impl PendingParam {
    pub open spec fn spec_from(idx: ParameterIndexes) -> PendingParam {
        PendingParam { idx, visited: false }
    }
}

impl From<ParameterIndexes> for PendingParam {
    fn from(idx: ParameterIndexes) -> (r: PendingParam) {
        PendingParam { idx, visited: false }
    }
}

impl vstd::std_specs::convert::FromSpecImpl<ParameterIndexes> for PendingParam {
    open spec fn obeys_from_spec() -> bool {
        true
    }

    open spec fn from_spec(idx: ParameterIndexes) -> PendingParam {
        PendingParam::spec_from(idx)
    }
}

/// What `log_begin` hands out when the profiler is attached: the parameter
/// snapshots taken before a behavior ran, and when it started.
#[derive(Debug)]
pub struct LogBegin {
    pub parameters: Vec<ValueSnapshot>,
    pub start: std::time::Instant,
}

impl LogBegin {
    /// Replaces the recorded parameter snapshots, for behaviors that learn
    /// their effective parameters only while running.
    pub fn overwrite_parameters(
        begin: &mut Option<LogBegin>,
        params: &[Value],
        lists: &Vec<Vec<Value>>,
    )
        ensures
            (*old(begin)) is None ==> (*final(begin)) is None,
            (*old(begin)) matches Some(b) ==> ((*final(begin)) matches Some(b2) && b2.start
                == b.start && snap_views(b2.parameters@) == spec_snapshots(
                params@,
                lists@,
                arena_depth(lists@),
            )),
    {
        if let Some(b) = begin {
            b.parameters = ValueSnapshot::from_values_iter(params, lists);
        }
    }
}

/// Per-run mutable state plus what persists across runs: the per-node output
/// cache, the variable store, the loop-flag stack, the arena of shared list
/// cells, the buffer pools, and the optional profiler. The graph itself is
/// never mutated; a `Context` is created once and reused across runs.
#[derive(Debug, Default)]
pub struct Context {
    pub logger: Option<Logger>,

    pub values: Vec<Option<Vec<Value>>>,
    pub local_variables: Vec<Value>,
    pub loop_flags: Vec<bool>,
    /// The backing cells of `Value::List` values. Cleared at `init`; a
    /// `List` value carried across runs therefore dangles and faults on
    /// use.
    pub lists: Vec<Vec<Value>>,

    pub pool_usize: VecPool<usize>,
    pub pool_value: VecPool<Value>,
    pub pool_pending_param: VecPool<PendingParam>,
}

impl Context {
    /// The semantic state of this context: everything the machine model
    /// reads or writes. The pools and the profiler are deliberately outside
    /// it; they have no effect on what a run computes.
    pub open spec fn sem(&self) -> StateM {
        StateM {
            values: self.values@.map_values(
                |o: Option<Vec<Value>>|
                    match o {
                        Some(v) => Some(vals_view(v@)),
                        None => None,
                    },
            ),
            vars: vals_view(self.local_variables@),
            flags: self.loop_flags@,
            lists: self.lists@.map_values(|l: Vec<Value>| vals_view(l@)),
        }
    }

    /// The profiler's records so far; empty when no profiler is attached.
    pub open spec fn log_records(&self) -> Seq<Record> {
        match self.logger {
            Some(lg) => lg.logs@,
            None => Seq::empty(),
        }
    }

    /// Whether the buffer pools of two context states are the very same.
    pub open spec fn pools_eq(a: Context, b: Context) -> bool {
        &&& a.pool_usize == b.pool_usize
        &&& a.pool_value == b.pool_value
        &&& a.pool_pending_param == b.pool_pending_param
    }

    /// Clears all per-run state, sizing the output cache to the graph.
    /// Pools and profiler persist.
    pub fn init(&mut self, code: &Code<'_>)
        ensures
            final(self).sem() == spec_init_state(code.model().len() as int),
            final(self).logger == old(self).logger,
            Context::pools_eq(*final(self), *old(self)),
    {
        self.values.clear();
        let n = code.len();
        let mut i: usize = 0;
        while i < n
            invariant
                self.values@.len() == i,
                i <= n,
                forall|j: int| 0 <= j < i ==> self.values@[j] is None,
                self.logger == old(self).logger,
                Context::pools_eq(*self, *old(self)),
            decreases n - i,
        {
            self.values.push(None);
            i = i + 1;
        }
        self.loop_flags.clear();
        self.local_variables.clear();
        self.lists.clear();
        proof {
            assert(final(self).sem() =~~= spec_init_state(code.model().len() as int));
        }
    }

    /// Whether the profiler is attached.
    pub fn is_logging(&self) -> (r: bool)
        ensures
            r == (self.logger is Some),
    {
        self.logger.is_some()
    }

    /// A timestamp, taken only when the profiler is attached.
    pub fn log_begin_time(&self) -> (r: Option<std::time::Instant>)
        ensures
            r is Some <==> self.logger is Some,
    {
        if self.is_logging() {
            Some(instant_now())
        } else {
            None
        }
    }

    /// Parameter snapshots and a start time, taken only when the profiler
    /// is attached.
    pub fn log_begin(&mut self, params: &[Value]) -> (r: Option<LogBegin>)
        ensures
            *final(self) == *old(self),
            r is Some <==> old(self).logger is Some,
            r matches Some(lb) ==> snap_views(lb.parameters@) == spec_snapshots(
                params@,
                old(self).lists@,
                arena_depth(old(self).lists@),
            ),
    {
        if self.is_logging() {
            let parameters = ValueSnapshot::from_values_iter(params, &self.lists);
            let start = instant_now();
            Some(LogBegin { parameters, start })
        } else {
            None
        }
    }

    /// Closes a `log_begin`: when one was opened, appends one record of the
    /// invocation, carrying the parameter snapshots taken at the start and
    /// snapshots of the outputs.
    pub fn log_end(&mut self, begin: Option<LogBegin>, node: usize, outputs: &[Value])
        requires
            begin is Some ==> old(self).logger is Some,
        ensures
            final(self).sem() == old(self).sem(),
            final(self).logger is Some <==> old(self).logger is Some,
            Context::pools_eq(*final(self), *old(self)),
            old(self).log_records().is_prefix_of(final(self).log_records()),
            begin is None ==> *final(self) == *old(self),
            begin matches Some(b) ==> (exists|rec: Record|
                #![auto]
                final(self).log_records() == old(self).log_records().push(rec) && rec.node == node
                    && rec.parameters == b.parameters && snap_views(rec.outputs@)
                    == spec_snapshots(
                    outputs@,
                    old(self).lists@,
                    arena_depth(old(self).lists@),
                )),
    {
        if let Some(begin) = begin {
            self.log_end_subtract_duration(begin, node, outputs, 0);
        }
    }

    /// Closes a `log_begin`, deducting time that belongs to nested work:
    /// appends one record whose duration is the time since `begin.start`
    /// less `dur_sub` nanoseconds, carrying the parameter snapshots taken
    /// at the start and snapshots of the outputs. The duration depends on
    /// the clock and is promised nothing beyond being recorded.
    pub fn log_end_subtract_duration(
        &mut self,
        begin: LogBegin,
        node: usize,
        outputs: &[Value],
        dur_sub: u128,
    )
        requires
            old(self).logger is Some,
        ensures
            final(self).sem() == old(self).sem(),
            final(self).logger is Some,
            Context::pools_eq(*final(self), *old(self)),
            old(self).log_records().is_prefix_of(final(self).log_records()),
            (exists|rec: Record|
                #![auto]
                final(self).log_records() == old(self).log_records().push(rec) && rec.node == node
                    && rec.parameters == begin.parameters && snap_views(rec.outputs@)
                    == spec_snapshots(
                    outputs@,
                    old(self).lists@,
                    arena_depth(old(self).lists@),
                )),
    {
        let LogBegin { parameters, start } = begin;
        let elapsed = logger::elapsed_nanos(&start);
        let duration = if elapsed >= dur_sub {
            elapsed - dur_sub
        } else {
            0
        };
        let outputs = ValueSnapshot::from_values_iter(outputs, &self.lists);
        let rec = Record { node, duration, parameters, outputs };
        let ghost recg = rec;
        if let Some(lg) = &mut self.logger {
            lg.record(rec);
        }
        proof {
            assert(final(self).log_records() == old(self).log_records().push(recg)
                && recg.node == node && recg.parameters == begin.parameters);
            assert(old(self).log_records() =~= final(self).log_records().subrange(
                0,
                old(self).log_records().len() as int,
            ));
        }
    }

    /// Grows the variable store with `Uninit` so that slot `key` exists.
    pub(crate) fn ensure_var_slots(&mut self, key: usize)
        requires
            key < usize::MAX,
        ensures
            final(self).sem() == ensure_vars(old(self).sem(), key as int),
            key < final(self).local_variables@.len(),
            final(self).logger == old(self).logger,
            Context::pools_eq(*final(self), *old(self)),
    {
        while self.local_variables.len() <= key
            invariant
                key < usize::MAX,
                ensure_vars(old(self).sem(), key as int) == ensure_vars(self.sem(), key as int),
                old(self).local_variables@.len() <= self.local_variables@.len(),
                self.logger == old(self).logger,
                self.values == old(self).values,
                self.loop_flags == old(self).loop_flags,
                self.lists == old(self).lists,
                Context::pools_eq(*self, *old(self)),
            decreases key + 1 - self.local_variables@.len(),
        {
            let ghost prev = self.sem();
            self.local_variables.push(Value::Uninit);
            proof {
                assert(self.sem().vars =~= prev.vars.push(ValueModel::Uninit));
                assert(ensure_vars(prev, key as int).vars =~= ensure_vars(
                    self.sem(),
                    key as int,
                ).vars);
                assert(ensure_vars(prev, key as int) =~~= ensure_vars(self.sem(), key as int));
            }
        }
        proof {
            assert(final(self).sem() =~~= ensure_vars(self.sem(), key as int));
        }
    }

    /// The value of variable slot `key`, auto-extending the store with
    /// `Uninit` on first use of a fresh key.
    pub fn get_local_variable(&mut self, key: usize) -> (r: Value)
        requires
            key < usize::MAX,
        ensures
            final(self).sem() == ensure_vars(old(self).sem(), key as int),
            r@ == final(self).sem().vars[key as int],
            final(self).logger == old(self).logger,
            Context::pools_eq(*final(self), *old(self)),
    {
        self.ensure_var_slots(key);
        self.local_variables[key].duplicate()
    }

    /// Assigns variable slot `key`, auto-extending the store on the way.
    pub fn set_local_variable(&mut self, key: usize, value: Value)
        requires
            key < usize::MAX,
        ensures
            final(self).sem() == (StateM {
                vars: ensure_vars(old(self).sem(), key as int).vars.update(key as int, value@),
                ..old(self).sem()
            }),
            final(self).logger == old(self).logger,
            Context::pools_eq(*final(self), *old(self)),
    {
        self.ensure_var_slots(key);
        let ghost mid = self.sem();
        self.local_variables[key] = value;
        proof {
            assert(final(self).sem() =~~= StateM {
                vars: mid.vars.update(key as int, value@),
                ..mid
            });
        }
    }

    /// Opens a loop: pushes a fresh running flag and hands back its handle.
    /// Nested loops get monotonically increasing handles while active.
    pub fn loop_enter(&mut self) -> (r: usize)
        ensures
            final(self).sem() == (StateM {
                flags: old(self).sem().flags.push(true),
                ..old(self).sem()
            }),
            r == old(self).sem().flags.len(),
            final(self).logger == old(self).logger,
            Context::pools_eq(*final(self), *old(self)),
    {
        self.loop_flags.push(true);
        self.loop_flags.len() - 1
    }

    /// Whether the loop with handle `id` is still running.
    pub fn loop_is_running(&self, id: usize) -> (r: bool)
        requires
            id < self.sem().flags.len(),
        ensures
            r == self.sem().flags[id as int],
    {
        self.loop_flags[id]
    }

    /// Sets the flag of loop `id` to false. The owning loop observes it at
    /// its next condition check; nothing is unwound here.
    pub fn loop_break(&mut self, id: usize)
        requires
            id < old(self).sem().flags.len(),
        ensures
            final(self).sem() == (StateM {
                flags: old(self).sem().flags.update(id as int, false),
                ..old(self).sem()
            }),
            final(self).logger == old(self).logger,
            Context::pools_eq(*final(self), *old(self)),
    {
        self.loop_flags[id] = false;
    }

    /// Closes loop `id`: cuts the flag stack back so handles are reused
    /// once a loop exits.
    pub fn loop_exit(&mut self, id: usize)
        requires
            id <= old(self).sem().flags.len(),
        ensures
            final(self).sem() == (StateM {
                flags: old(self).sem().flags.take(id as int),
                ..old(self).sem()
            }),
            final(self).logger == old(self).logger,
            Context::pools_eq(*final(self), *old(self)),
    {
        self.loop_flags.truncate(id);
        proof {
            assert(final(self).sem() =~~= StateM {
                flags: old(self).sem().flags.take(id as int),
                ..old(self).sem()
            });
        }
    }
}

} // verus!
