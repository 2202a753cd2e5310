use vstd::prelude::*;

use crate::value::Value;

verus! {

/// Declares `std::time::Instant` so monotonic timestamps can be carried
/// through verified code as opaque values.
#[verifier::external_type_specification]
#[verifier::external_body]
pub struct ExInstant(std::time::Instant);

/// Relies on `std::time::Instant::now`: reads the monotonic clock. Nothing
/// is promised of the result; it depends on when the call runs.
#[verifier::external_body]
pub(crate) fn instant_now() -> std::time::Instant {
    std::time::Instant::now()
}

/// Relies on `std::time::Instant::elapsed`: the time since `start`, handed
/// out as nanoseconds. Nothing is promised of the result; it depends on when
/// the call runs.
#[verifier::external_body]
pub(crate) fn elapsed_nanos(start: &std::time::Instant) -> u128 {
    start.elapsed().as_nanos()
}

/// A diagnostic copy of a runtime value, cheap to keep: lists are copied out
/// of their shared cells element by element at the moment of recording, so
/// later mutations of a cell do not alter the snapshot.
#[derive(Debug)]
pub enum ValueSnapshot {
    Uninit,
    Empty,
    Bool(bool),
    Int(i64),
    String(String),
    List(Vec<ValueSnapshot>),
    LoopId(usize),
    LocalVariable(usize),
}

/// Mathematical model of a snapshot: the same tree over sequences.
pub enum SnapM {
    Uninit,
    Empty,
    Bool(bool),
    Int(i64),
    Str(Seq<char>),
    List(Seq<SnapM>),
    LoopId(int),
    LocalVariable(int),
}

/// The models of a run of snapshots, in order.
pub open spec fn snap_views(vs: Seq<ValueSnapshot>) -> Seq<SnapM>
    decreases vs,
    via snap_views_dec
{
    if vs.len() == 0 {
        Seq::empty()
    } else {
        snap_views(vs.drop_last()).push(snap_view(vs.last()))
    }
}

#[via_fn]
proof fn snap_views_dec(vs: Seq<ValueSnapshot>) {
    if vs.len() > 0 {
        assert(vs.drop_last() =~= vs.subrange(0, vs.len() - 1));
        assert(decreases_to!(vs => vs.subrange(0, vs.len() - 1)));
        assert(decreases_to!(vs => vs[vs.len() - 1]));
    }
}

/// The model of one snapshot.
pub open spec fn snap_view(s: ValueSnapshot) -> SnapM
    decreases s,
    via snap_view_dec
{
    match s {
        ValueSnapshot::Uninit => SnapM::Uninit,
        ValueSnapshot::Empty => SnapM::Empty,
        ValueSnapshot::Bool(b) => SnapM::Bool(b),
        ValueSnapshot::Int(i) => SnapM::Int(i),
        ValueSnapshot::String(t) => SnapM::Str(t@),
        ValueSnapshot::List(vs) => SnapM::List(snap_views(vs@)),
        ValueSnapshot::LoopId(i) => SnapM::LoopId(i as int),
        ValueSnapshot::LocalVariable(k) => SnapM::LocalVariable(k as int),
    }
}

#[via_fn]
proof fn snap_view_dec(s: ValueSnapshot) {
    if let ValueSnapshot::List(vs) = s {
        assert(decreases_to!(s => vs));
        assert(decreases_to!(vs => vs@));
    }
}

impl View for ValueSnapshot {
    type V = SnapM;

    open spec fn view(&self) -> SnapM {
        snap_view(*self)
    }
}

/// How deep a snapshot follows nested shared cells: one more than the
/// arena's size, which reaches every cell of any chain without a cycle; only
/// a cell that reaches itself nests deeper and is cut off.
pub open spec fn arena_depth(lists: Seq<Vec<Value>>) -> nat {
    if lists.len() < u64::MAX {
        (lists.len() + 1) as nat
    } else {
        u64::MAX as nat
    }
}

/// What a snapshot of `v` holds, following list cells through the arena
/// down to `depth` levels: a cut-off or dangling list is recorded as
/// `Uninit` or an empty list, everything else exactly.
pub open spec fn spec_snapshot(v: Value, lists: Seq<Vec<Value>>, depth: nat) -> SnapM
    decreases depth, 0int, 0int,
{
    if depth == 0 {
        SnapM::Uninit
    } else {
        match v {
            Value::Uninit => SnapM::Uninit,
            Value::Empty => SnapM::Empty,
            Value::Bool(b) => SnapM::Bool(b),
            Value::Int(i) => SnapM::Int(i),
            Value::String(s) => SnapM::Str(s@),
            Value::List(l) => {
                if l < lists.len() {
                    SnapM::List(spec_snapshots(lists[l as int]@, lists, (depth - 1) as nat))
                } else {
                    SnapM::List(Seq::empty())
                }
            },
            Value::LoopId(i) => SnapM::LoopId(i as int),
            Value::LocalVariable(k) => SnapM::LocalVariable(k as int),
        }
    }
}

/// What snapshots of a run of values hold, in order.
pub open spec fn spec_snapshots(vals: Seq<Value>, lists: Seq<Vec<Value>>, depth: nat) -> Seq<
    SnapM,
>
    decreases depth, 1int, vals.len(),
{
    if vals.len() == 0 {
        Seq::empty()
    } else {
        spec_snapshots(vals.drop_last(), lists, depth).push(
            spec_snapshot(vals.last(), lists, depth),
        )
    }
}

impl ValueSnapshot {
    /// A snapshot of one value, expanded through the list arena down to
    /// `depth` levels.
    pub fn from_value(value: &Value, lists: &Vec<Vec<Value>>, depth: u64) -> (r: ValueSnapshot)
        ensures
            r@ == spec_snapshot(*value, lists@, depth as nat),
        decreases depth, 0int,
    {
        if depth == 0 {
            return ValueSnapshot::Uninit;
        }
        match value {
            Value::Uninit => ValueSnapshot::Uninit,
            Value::Empty => ValueSnapshot::Empty,
            Value::Bool(b) => ValueSnapshot::Bool(*b),
            Value::Int(i) => ValueSnapshot::Int(*i),
            Value::String(s) => ValueSnapshot::String(s.clone()),
            Value::List(l) => {
                if *l < lists.len() {
                    ValueSnapshot::List(Self::from_cell(&lists[*l], lists, (depth - 1) as u64))
                } else {
                    ValueSnapshot::List(Vec::new())
                }
            },
            Value::LoopId(i) => ValueSnapshot::LoopId(*i),
            Value::LocalVariable(k) => ValueSnapshot::LocalVariable(*k),
        }
    }

    fn from_cell(cell: &Vec<Value>, lists: &Vec<Vec<Value>>, depth: u64) -> (r: Vec<ValueSnapshot>)
        ensures
            r@.len() == cell@.len(),
            snap_views(r@) == spec_snapshots(cell@, lists@, depth as nat),
        decreases depth, 1int,
    {
        let mut out: Vec<ValueSnapshot> = Vec::new();
        let mut i: usize = 0;
        while i < cell.len()
            invariant
                out@.len() == i,
                i <= cell@.len(),
                snap_views(out@) == spec_snapshots(cell@.take(i as int), lists@, depth as nat),
            decreases cell@.len() - i,
        {
            let ghost pre = out@;
            out.push(Self::from_value(&cell[i], lists, depth));
            i = i + 1;
            proof {
                assert(out@.drop_last() =~= pre);
                assert(cell@.take(i as int).drop_last() =~= cell@.take(i - 1));
                assert(cell@.take(i as int).last() == cell@[i - 1]);
            }
        }
        proof {
            assert(cell@.take(cell@.len() as int) =~= cell@);
        }
        out
    }

    /// Snapshots of a whole run of values, in order, expanded deeply enough
    /// to reach every cell of an acyclic arena.
    pub fn from_values_iter(values: &[Value], lists: &Vec<Vec<Value>>) -> (r: Vec<ValueSnapshot>)
        ensures
            r@.len() == values@.len(),
            snap_views(r@) == spec_snapshots(values@, lists@, arena_depth(lists@)),
    {
        let n64 = lists.len() as u64;
        let depth = if n64 < u64::MAX {
            n64 + 1
        } else {
            n64
        };
        let mut out: Vec<ValueSnapshot> = Vec::new();
        let mut i: usize = 0;
        while i < values.len()
            invariant
                out@.len() == i,
                i <= values@.len(),
                depth as nat == arena_depth(lists@),
                snap_views(out@) == spec_snapshots(
                    values@.take(i as int),
                    lists@,
                    arena_depth(lists@),
                ),
            decreases values@.len() - i,
        {
            let ghost pre = out@;
            out.push(Self::from_value(&values[i], lists, depth));
            i = i + 1;
            proof {
                assert(out@.drop_last() =~= pre);
                assert(values@.take(i as int).drop_last() =~= values@.take(i - 1));
                assert(values@.take(i as int).last() == values@[i - 1]);
            }
        }
        proof {
            assert(values@.take(values@.len() as int) =~= values@);
        }
        out
    }
}

/// One recorded node invocation: the node, how long its behavior ran in
/// nanoseconds, and snapshots of its resolved parameters and outputs.
#[derive(Debug)]
pub struct Record {
    pub node: usize,
    pub duration: u128,
    pub parameters: Vec<ValueSnapshot>,
    pub outputs: Vec<ValueSnapshot>,
}

/// The optional profiler: attached to a context, it receives a `Record` for
/// every node invocation. Purely additive instrumentation with no effect on
/// execution semantics.
#[derive(Debug, Default)]
pub struct Logger {
    pub logs: Vec<Record>,
}

impl Logger {
    /// Drops every record.
    pub fn clear(&mut self)
        ensures
            final(self).logs@.len() == 0,
    {
        self.logs.clear();
    }

    /// Appends one record.
    pub fn record(&mut self, record: Record)
        ensures
            final(self).logs@ == old(self).logs@.push(record),
    {
        self.logs.push(record);
    }

    /// The records naming `node`, in log order.
    pub open spec fn records_for(logs: Seq<Record>, node: int) -> Seq<Record>
        decreases logs.len(),
    {
        if logs.len() == 0 {
            Seq::empty()
        } else {
            let rest = Self::records_for(logs.drop_last(), node);
            if logs.last().node == node {
                rest.push(logs.last())
            } else {
                rest
            }
        }
    }

    /// The number of records held for node `node`: its run count so far.
    pub open spec fn spec_run_count(&self, node: int) -> nat {
        Self::records_for(self.logs@, node).len()
    }

    /// The summed duration of the records held for node `node`, wrapping
    /// as a 128-bit word.
    pub open spec fn spec_total_duration(&self, node: int) -> u128 {
        Self::duration_for(self.logs@, node)
    }

    pub open spec fn duration_for(logs: Seq<Record>, node: int) -> u128
        decreases logs.len(),
    {
        if logs.len() == 0 {
            0
        } else {
            if logs.last().node == node {
                vstd::wrapping::u128_specs::wrapping_add(
                    Self::duration_for(logs.drop_last(), node),
                    logs.last().duration,
                )
            } else {
                Self::duration_for(logs.drop_last(), node)
            }
        }
    }

    proof fn lemma_zero_count_zero_duration(logs: Seq<Record>, node: int)
        requires
            Self::records_for(logs, node).len() == 0,
        ensures
            Self::duration_for(logs, node) == 0,
        decreases logs.len(),
    {
        if logs.len() > 0 {
            Self::lemma_zero_count_zero_duration(logs.drop_last(), node);
        }
    }

    /// The records aggregated per node: for each node of the graph, `None`
    /// where it was never recorded, else its runs — each run holding the
    /// snapshots of the matching record, in log order — and its total
    /// behavior time. A record naming a node outside the graph is left out.
    pub fn to_per_node(&self, code: &crate::nodes::Code<'_>) -> (r: Vec<Option<RecordPerNode>>)
        ensures
            r@.len() == code.model().len(),
            forall|i: int|
                0 <= i < r@.len() ==> ((#[trigger] r@[i]) is Some <==> self.spec_run_count(i) > 0),
            forall|i: int|
                0 <= i < r@.len() ==> ((#[trigger] r@[i]) matches Some(p) ==> runs_match(
                    p.runs@,
                    Self::records_for(self.logs@, i),
                ) && p.runs@.len() == self.spec_run_count(i) && p.total_duration
                    == self.spec_total_duration(i)),
    {
        let n = code.len();
        let mut result: Vec<Option<RecordPerNode>> = Vec::new();
        let mut i: usize = 0;
        while i < n
            invariant
                i <= n,
                result@.len() == i,
                forall|k: int| 0 <= k < i ==> (#[trigger] result@[k]) is None,
            decreases n - i,
        {
            result.push(None);
            i = i + 1;
        }
        let m = self.logs.len();
        let mut j: usize = 0;
        while j < m
            invariant
                m == self.logs@.len(),
                j <= m,
                result@.len() == n,
                forall|k: int|
                    0 <= k < n ==> ((#[trigger] result@[k]) is Some <==> Self::records_for(
                        self.logs@.take(j as int),
                        k,
                    ).len() > 0),
                forall|k: int|
                    0 <= k < n ==> ((#[trigger] result@[k]) matches Some(p) ==> runs_match(
                        p.runs@,
                        Self::records_for(self.logs@.take(j as int), k),
                    ) && p.total_duration == Self::duration_for(self.logs@.take(j as int), k)),
            decreases m - j,
        {
            let ghost pre = result@;
            let node = self.logs[j].node;
            if node < n {
                let run = RunParametersAndOutputs {
                    parameters: dup_snapshots(&self.logs[j].parameters),
                    outputs: dup_snapshots(&self.logs[j].outputs),
                };
                let duration = self.logs[j].duration;
                let cur = result.remove(node);
                let new_elem = match cur {
                    Some(mut p) => {
                        p.total_duration = p.total_duration.wrapping_add(duration);
                        p.runs.push(run);
                        Some(p)
                    },
                    None => {
                        let mut runs: Vec<RunParametersAndOutputs> = Vec::new();
                        runs.push(run);
                        Some(RecordPerNode { total_duration: duration, runs })
                    },
                };
                let ghost ne = new_elem;
                proof {
                    if pre[node as int] is None {
                        Self::lemma_zero_count_zero_duration(
                            self.logs@.take(j as int),
                            node as int,
                        );
                    }
                    assert(ne matches Some(p2) && runs_match(
                        p2.runs@,
                        Self::records_for(self.logs@.take(j as int), node as int).push(
                            self.logs@[j as int],
                        ),
                    ) && p2.total_duration == (match pre[node as int] {
                        Some(p) => vstd::wrapping::u128_specs::wrapping_add(
                            p.total_duration,
                            duration,
                        ),
                        None => duration,
                    }));
                }
                result.insert(node, new_elem);
                proof {
                    assert(result@ =~= pre.update(node as int, ne));
                }
            }
            j = j + 1;
            proof {
                assert forall|k: int| 0 <= k < n implies (Self::records_for(
                    self.logs@.take(j as int),
                    k,
                ) == (if self.logs@[j - 1].node == k {
                    Self::records_for(self.logs@.take(j - 1), k).push(self.logs@[j - 1])
                } else {
                    Self::records_for(self.logs@.take(j - 1), k)
                }) && Self::duration_for(self.logs@.take(j as int), k) == (if self.logs@[j
                    - 1].node == k {
                    vstd::wrapping::u128_specs::wrapping_add(
                        Self::duration_for(self.logs@.take(j - 1), k),
                        self.logs@[j - 1].duration,
                    )
                } else {
                    Self::duration_for(self.logs@.take(j - 1), k)
                })) by {
                    assert(self.logs@.take(j as int).drop_last() =~= self.logs@.take(j - 1));
                    assert(self.logs@.take(j as int).last() == self.logs@[j - 1]);
                };
            }
        }
        proof {
            assert(self.logs@.take(m as int) =~= self.logs@);
        }
        result
    }
}

/// Whether each aggregated run holds the snapshots of the matching record,
/// in order.
pub open spec fn runs_match(runs: Seq<RunParametersAndOutputs>, recs: Seq<Record>) -> bool {
    &&& runs.len() == recs.len()
    &&& forall|i: int|
        0 <= i < recs.len() ==> snap_views((#[trigger] runs[i]).parameters@) == snap_views(
            recs[i].parameters@,
        ) && snap_views(runs[i].outputs@) == snap_views(recs[i].outputs@)
}

/// A copy of one snapshot, equal to the original in its model.
fn dup_snapshot(s: &ValueSnapshot) -> (r: ValueSnapshot)
    ensures
        r@ == s@,
    decreases *s,
{
    match s {
        ValueSnapshot::Uninit => ValueSnapshot::Uninit,
        ValueSnapshot::Empty => ValueSnapshot::Empty,
        ValueSnapshot::Bool(b) => ValueSnapshot::Bool(*b),
        ValueSnapshot::Int(i) => ValueSnapshot::Int(*i),
        ValueSnapshot::String(t) => ValueSnapshot::String(t.clone()),
        ValueSnapshot::List(vs) => {
            let mut out: Vec<ValueSnapshot> = Vec::new();
            let mut i: usize = 0;
            while i < vs.len()
                invariant
                    *s is List,
                    vs == s->List_0,
                    i <= vs@.len(),
                    out@.len() == i,
                    snap_views(out@) == snap_views(vs@.take(i as int)),
                decreases vs@.len() - i,
            {
                proof {
                    assert(decreases_to!(*s => s->List_0));
                    assert(decreases_to!(s->List_0 => s->List_0@));
                    assert(decreases_to!(s->List_0@ => s->List_0@[i as int]));
                }
                let ghost pre = out@;
                out.push(dup_snapshot(&vs[i]));
                i = i + 1;
                proof {
                    assert(out@.drop_last() =~= pre);
                    assert(vs@.take(i as int).drop_last() =~= vs@.take(i - 1));
                    assert(vs@.take(i as int).last() == vs@[i - 1]);
                }
            }
            proof {
                assert(vs@.take(vs@.len() as int) =~= vs@);
            }
            ValueSnapshot::List(out)
        },
        ValueSnapshot::LoopId(i) => ValueSnapshot::LoopId(*i),
        ValueSnapshot::LocalVariable(k) => ValueSnapshot::LocalVariable(*k),
    }
}

/// Copies of a run of snapshots, equal to the originals in their models.
fn dup_snapshots(vs: &Vec<ValueSnapshot>) -> (r: Vec<ValueSnapshot>)
    ensures
        r@.len() == vs@.len(),
        snap_views(r@) == snap_views(vs@),
{
    let mut out: Vec<ValueSnapshot> = Vec::new();
    let mut i: usize = 0;
    while i < vs.len()
        invariant
            i <= vs@.len(),
            out@.len() == i,
            snap_views(out@) == snap_views(vs@.take(i as int)),
        decreases vs@.len() - i,
    {
        let ghost pre = out@;
        out.push(dup_snapshot(&vs[i]));
        i = i + 1;
        proof {
            assert(out@.drop_last() =~= pre);
            assert(vs@.take(i as int).drop_last() =~= vs@.take(i - 1));
            assert(vs@.take(i as int).last() == vs@[i - 1]);
        }
    }
    proof {
        assert(vs@.take(vs@.len() as int) =~= vs@);
    }
    out
}

/// The records of one node, aggregated: total behavior time in nanoseconds
/// and the parameter and output snapshots of each run in order.
#[derive(Debug)]
pub struct RecordPerNode {
    pub total_duration: u128,
    pub runs: Vec<RunParametersAndOutputs>,
}

/// The snapshots of one recorded run.
#[derive(Debug)]
pub struct RunParametersAndOutputs {
    pub parameters: Vec<ValueSnapshot>,
    pub outputs: Vec<ValueSnapshot>,
}

} // verus!
