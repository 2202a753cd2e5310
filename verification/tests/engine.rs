use node_graph_interpreter::logger::Logger;
use node_graph_interpreter::nodes::{Code, DefaultOp, Exec, ManualOp, Node};
use node_graph_interpreter::value::Value;
use node_graph_interpreter::{Context, Fault, FlowIndexes, ParameterIndexes};

fn constant(value: usize) -> ParameterIndexes {
    ParameterIndexes { node: 0, value }
}

fn param_n(node: usize, value: usize) -> ParameterIndexes {
    ParameterIndexes { node, value }
}

fn param(node: usize) -> ParameterIndexes {
    param_n(node, 0)
}

fn flow(node: usize) -> FlowIndexes {
    FlowIndexes { node }
}

fn run_count(ctx: &Context, code: &Code<'_>, node: usize) -> usize {
    let per_node = ctx
        .logger
        .as_ref()
        .expect("logger attached")
        .to_per_node(code);
    per_node[node].as_ref().map(|p| p.runs.len()).unwrap_or(0)
}

/// The bubble-sort graph: sorts the classic five-element list with nested
/// finite loops, keeping the list in variable 0.
fn bubble_sort_nodes() -> Vec<Node> {
    vec![
        // 0: the literal pool
        Node::Constant {
            values: vec![
                Value::Int(2),
                Value::Int(1),
                Value::Int(4),
                Value::Int(6),
                Value::Int(0),
                Value::LocalVariable(0),
                Value::LocalVariable(1),
                Value::LocalVariable(2),
                Value::Int(0),
                Value::Int(1),
            ],
        },
        // 1: start
        Node::Start { next: vec![flow(7)] },
        // 2: assemble the list
        Node::Operation {
            parameters: vec![constant(0), constant(1), constant(2), constant(3), constant(4)],
            behavior: Exec::Default(DefaultOp::ListAssemble),
        },
        // 3: variable 0 holding the list
        Node::Operation {
            parameters: vec![constant(5), param(2)],
            behavior: Exec::Manual(ManualOp::LocalVariable),
        },
        // 4: list length
        Node::Operation {
            parameters: vec![param(3)],
            behavior: Exec::Default(DefaultOp::ListLength),
        },
        // 5: length - 1
        Node::Operation {
            parameters: vec![param(4), constant(9)],
            behavior: Exec::Default(DefaultOp::Subtraction),
        },
        // 6: variable 1 holding length - 1
        Node::Operation {
            parameters: vec![constant(6), param(5)],
            behavior: Exec::Manual(ManualOp::LocalVariable),
        },
        // 7: outer loop 0..=(length - 1)
        Node::Exec {
            parameters: vec![constant(8), param(6)],
            next: vec![vec![flow(9)], vec![]],
            behavior: Exec::Manual(ManualOp::FiniteLoop),
        },
        // 8: length - 2
        Node::Operation {
            parameters: vec![param(6), constant(9)],
            behavior: Exec::Default(DefaultOp::Subtraction),
        },
        // 9: inner loop 0..=(length - 2)
        Node::Exec {
            parameters: vec![constant(8), param(8)],
            next: vec![vec![flow(15)], vec![]],
            behavior: Exec::Manual(ManualOp::FiniteLoop),
        },
        // 10: inner index + 1
        Node::Operation {
            parameters: vec![param(9), constant(9)],
            behavior: Exec::Default(DefaultOp::Addition),
        },
        // 11: list[inner index]
        Node::Operation {
            parameters: vec![param(3), param(9)],
            behavior: Exec::Default(DefaultOp::ListGet),
        },
        // 12: list[inner index + 1]
        Node::Operation {
            parameters: vec![param(3), param(10)],
            behavior: Exec::Default(DefaultOp::ListGet),
        },
        // 13: unused comparison
        Node::Operation {
            parameters: vec![param(11), param(12)],
            behavior: Exec::Default(DefaultOp::IsGreaterThan),
        },
        // 14: list[i] > list[i + 1]
        Node::Operation {
            parameters: vec![param(11), param(12)],
            behavior: Exec::Default(DefaultOp::IsGreaterThan),
        },
        // 15: branch on the comparison
        Node::Exec {
            parameters: vec![param(14)],
            next: vec![vec![flow(16)], vec![]],
            behavior: Exec::Default(DefaultOp::DoubleBranch),
        },
        // 16: temp = list[i]
        Node::Exec {
            parameters: vec![constant(7), param(11)],
            next: vec![vec![flow(17)]],
            behavior: Exec::Default(DefaultOp::LocalVariableSet),
        },
        // 17: list[i] = list[i + 1]
        Node::Exec {
            parameters: vec![param(3), param(9), param(12)],
            next: vec![vec![flow(19)]],
            behavior: Exec::Default(DefaultOp::ListSet),
        },
        // 18: temp
        Node::Operation {
            parameters: vec![constant(7)],
            behavior: Exec::Manual(ManualOp::LocalVariable),
        },
        // 19: list[i + 1] = temp
        Node::Exec {
            parameters: vec![param(3), param(10), param(18)],
            next: vec![vec![]],
            behavior: Exec::Default(DefaultOp::ListSet),
        },
    ]
}

fn list_ints(ctx: &Context, v: &Value) -> Vec<i64> {
    let idx = match v {
        Value::List(i) => *i,
        other => panic!("expected a list value, got {other:?}"),
    };
    ctx.lists[idx]
        .iter()
        .map(|e| match e {
            Value::Int(i) => *i,
            other => panic!("expected int element, got {other:?}"),
        })
        .collect()
}

#[test]
fn bubble_sort_scenario() {
    let nodes = bubble_sort_nodes();
    let code = Code { nodes: &nodes };
    let mut ctx = Context::default();
    ctx.run_start(&code, 1, vec![]).expect("run succeeds");
    let sorted = list_ints(&ctx, &ctx.local_variables[0]);
    assert_eq!(sorted, vec![0, 1, 2, 4, 6]);
}

#[test]
fn determinism_across_runs() {
    let nodes = bubble_sort_nodes();
    let code = Code { nodes: &nodes };

    let mut ctx1 = Context::default();
    ctx1.run_start(&code, 1, vec![]).expect("first run");
    let out1 = list_ints(&ctx1, &ctx1.local_variables[0]);
    let vars1 = ctx1.local_variables.len();

    let mut ctx2 = Context::default();
    ctx2.run_start(&code, 1, vec![]).expect("second run");
    let out2 = list_ints(&ctx2, &ctx2.local_variables[0]);

    // A reused context is reinitialized by run_start, so a third run on the
    // first context agrees too.
    ctx1.run_start(&code, 1, vec![]).expect("third run");
    let out3 = list_ints(&ctx1, &ctx1.local_variables[0]);

    assert_eq!(out1, out2);
    assert_eq!(out1, out3);
    assert_eq!(vars1, ctx2.local_variables.len());
}

#[test]
fn run_end_reads_end_parameters() {
    let nodes = vec![
        Node::Constant { values: vec![Value::Int(20), Value::Int(22), Value::LocalVariable(0)] },
        Node::Operation {
            parameters: vec![constant(0), constant(1)],
            behavior: Exec::Default(DefaultOp::Addition),
        },
        Node::End { parameters: vec![param(1), constant(0)] },
    ];
    let code = Code { nodes: &nodes };
    let mut ctx = Context::default();
    ctx.init(&code);
    let out = ctx.run_end(&code, 2).expect("readout succeeds");
    assert_eq!(out.len(), 2);
    assert!(matches!(out[0], Value::Int(42)));
    assert!(matches!(out[1], Value::Int(20)));

    // Same readout again: identical.
    let out2 = ctx.run_end(&code, 2).expect("readout succeeds");
    assert!(matches!(out2[0], Value::Int(42)));
}

#[test]
fn run_end_reads_the_state_a_run_left_behind() {
    // After run_start, run_end resolves against the surviving state: here
    // it reads variable 0, set by the run.
    let nodes = vec![
        Node::Constant { values: vec![Value::LocalVariable(0), Value::Int(31)] },
        Node::Start { next: vec![flow(2)] },
        Node::Exec {
            parameters: vec![constant(0), constant(1)],
            next: vec![vec![]],
            behavior: Exec::Default(DefaultOp::LocalVariableSet),
        },
        Node::End { parameters: vec![param(4)] },
        Node::Operation {
            parameters: vec![constant(0), constant(1)],
            behavior: Exec::Manual(ManualOp::LocalVariable),
        },
    ];
    let code = Code { nodes: &nodes };
    let mut ctx = Context::default();
    ctx.run_start(&code, 1, vec![]).expect("run succeeds");
    let out = ctx.run_end(&code, 3).expect("readout succeeds");
    assert!(matches!(out[0], Value::Int(31)));
}

#[test]
fn memoization_operation_reevaluated_per_reference() {
    // Node 2 is a pure operation referenced twice from one Exec node's
    // parameter list: it must run exactly twice in that resolution.
    let nodes = vec![
        Node::Constant { values: vec![Value::Int(1), Value::Int(2)] },
        Node::Start { next: vec![flow(3)] },
        Node::Operation {
            parameters: vec![constant(0), constant(1)],
            behavior: Exec::Default(DefaultOp::Addition),
        },
        Node::Exec {
            parameters: vec![param(2), param(2)],
            next: vec![vec![]],
            behavior: Exec::Default(DefaultOp::Noop),
        },
    ];
    let code = Code { nodes: &nodes };
    let mut ctx = Context {
        logger: Some(Logger::default()),
        ..Context::default()
    };
    ctx.run_start(&code, 1, vec![]).expect("run succeeds");
    assert_eq!(run_count(&ctx, &code, 2), 2);
    // The Exec node itself ran once and cached [3, 3].
    assert_eq!(run_count(&ctx, &code, 3), 1);
    assert!(matches!(ctx.values[3], Some(ref vs) if vs.len() == 2));
}

#[test]
fn memoization_stale_cache_reread_without_reexecution() {
    let nodes = vec![
        Node::Constant { values: vec![Value::Int(5)] },
        Node::Start { next: vec![flow(2)] },
        Node::Exec {
            parameters: vec![constant(0)],
            next: vec![vec![]],
            behavior: Exec::Default(DefaultOp::Noop),
        },
    ];
    let code = Code { nodes: &nodes };
    let mut ctx = Context {
        logger: Some(Logger::default()),
        ..Context::default()
    };
    ctx.run_start(&code, 1, vec![]).expect("run succeeds");
    assert_eq!(run_count(&ctx, &code, 2), 1);

    // Reading the cached output does not re-execute the Exec node.
    let mut out = Vec::new();
    ctx.query_params(&code, &[param(2)], &mut out)
        .expect("cache read succeeds");
    assert!(matches!(out[0], Value::Int(5)));
    assert_eq!(run_count(&ctx, &code, 2), 1);
}

#[test]
fn variable_default_evaluated_once() {
    // Node 2 is the default expression of variable 0; node 3 reads the
    // variable twice within one resolution. The default runs exactly once.
    let nodes = vec![
        Node::Constant { values: vec![Value::LocalVariable(0), Value::Int(3), Value::Int(4)] },
        Node::Start { next: vec![flow(4)] },
        Node::Operation {
            parameters: vec![constant(1), constant(2)],
            behavior: Exec::Default(DefaultOp::Addition),
        },
        Node::Operation {
            parameters: vec![constant(0), param(2)],
            behavior: Exec::Manual(ManualOp::LocalVariable),
        },
        Node::Exec {
            parameters: vec![param(3), param(3)],
            next: vec![vec![]],
            behavior: Exec::Default(DefaultOp::Noop),
        },
    ];
    let code = Code { nodes: &nodes };
    let mut ctx = Context {
        logger: Some(Logger::default()),
        ..Context::default()
    };
    ctx.run_start(&code, 1, vec![]).expect("run succeeds");
    assert_eq!(run_count(&ctx, &code, 2), 1);
    assert!(matches!(ctx.local_variables[0], Value::Int(7)));
}

#[test]
fn finite_loop_runs_inclusive_bounds() {
    // FiniteLoop(0, 4): the body Exec runs exactly five times.
    let nodes = vec![
        Node::Constant { values: vec![Value::Int(0), Value::Int(4)] },
        Node::Start { next: vec![flow(2)] },
        Node::Exec {
            parameters: vec![constant(0), constant(1)],
            next: vec![vec![flow(3)], vec![]],
            behavior: Exec::Manual(ManualOp::FiniteLoop),
        },
        Node::Exec {
            parameters: vec![],
            next: vec![vec![]],
            behavior: Exec::Default(DefaultOp::Noop),
        },
    ];
    let code = Code { nodes: &nodes };
    let mut ctx = Context {
        logger: Some(Logger::default()),
        ..Context::default()
    };
    ctx.run_start(&code, 1, vec![]).expect("run succeeds");
    assert_eq!(run_count(&ctx, &code, 3), 5);
}

#[test]
fn finite_loop_break_on_third_iteration() {
    // The body breaks its own loop when the index exceeds 1, so it runs for
    // indices 0, 1 and 2: three times.
    let nodes = vec![
        Node::Constant { values: vec![Value::Int(0), Value::Int(4), Value::Int(1)] },
        Node::Start { next: vec![flow(2)] },
        // 2: the loop; slot 0 is the index, slot 1 the loop handle
        Node::Exec {
            parameters: vec![constant(0), constant(1)],
            next: vec![vec![flow(3)], vec![]],
            behavior: Exec::Manual(ManualOp::FiniteLoop),
        },
        // 3: the counted body
        Node::Exec {
            parameters: vec![],
            next: vec![vec![flow(5)]],
            behavior: Exec::Default(DefaultOp::Noop),
        },
        // 4: index > 1
        Node::Operation {
            parameters: vec![param_n(2, 0), constant(2)],
            behavior: Exec::Default(DefaultOp::IsGreaterThan),
        },
        // 5: branch on it
        Node::Exec {
            parameters: vec![param(4)],
            next: vec![vec![flow(6)], vec![]],
            behavior: Exec::Default(DefaultOp::DoubleBranch),
        },
        // 6: break the loop by its handle
        Node::Exec {
            parameters: vec![param_n(2, 1)],
            next: vec![vec![]],
            behavior: Exec::Default(DefaultOp::BreakLoop),
        },
    ];
    let code = Code { nodes: &nodes };
    let mut ctx = Context {
        logger: Some(Logger::default()),
        ..Context::default()
    };
    ctx.run_start(&code, 1, vec![]).expect("run succeeds");
    assert_eq!(run_count(&ctx, &code, 3), 3);
}

#[test]
fn list_aliasing_through_two_variables() {
    // One assembled list stored in variables 0 and 1; a write through
    // variable 0 is observed through variable 1.
    let nodes = vec![
        Node::Constant {
            values: vec![
                Value::LocalVariable(0),
                Value::LocalVariable(1),
                Value::Int(10),
                Value::Int(11),
                Value::Int(0),
                Value::Int(99),
            ],
        },
        Node::Start { next: vec![flow(4)] },
        // 2: the shared list
        Node::Operation {
            parameters: vec![constant(2), constant(3)],
            behavior: Exec::Default(DefaultOp::ListAssemble),
        },
        // 3: variable 0 defaults to the list
        Node::Operation {
            parameters: vec![constant(0), param(2)],
            behavior: Exec::Manual(ManualOp::LocalVariable),
        },
        // 4: variable 1 = the same list value read from variable 0
        Node::Exec {
            parameters: vec![constant(1), param(3)],
            next: vec![vec![flow(5)]],
            behavior: Exec::Default(DefaultOp::LocalVariableSet),
        },
        // 5: list-through-variable-0[0] = 99
        Node::Exec {
            parameters: vec![param(3), constant(4), constant(5)],
            next: vec![vec![]],
            behavior: Exec::Default(DefaultOp::ListSet),
        },
    ];
    let code = Code { nodes: &nodes };
    let mut ctx = Context::default();
    ctx.run_start(&code, 1, vec![]).expect("run succeeds");

    // Read the list through variable 1: the mutation is visible.
    let through_other = list_ints(&ctx, &ctx.local_variables[1]);
    assert_eq!(through_other, vec![99, 11]);
    // Both variables hold the same cell.
    assert_eq!(
        list_ints(&ctx, &ctx.local_variables[0]),
        list_ints(&ctx, &ctx.local_variables[1])
    );
}

#[test]
fn double_branch_true_takes_first_group_only() {
    let nodes = vec![
        Node::Constant { values: vec![Value::Bool(true)] },
        Node::Start { next: vec![flow(2)] },
        Node::Exec {
            parameters: vec![constant(0)],
            next: vec![vec![flow(3)], vec![flow(4)]],
            behavior: Exec::Default(DefaultOp::DoubleBranch),
        },
        Node::Exec {
            parameters: vec![],
            next: vec![vec![]],
            behavior: Exec::Default(DefaultOp::Noop),
        },
        Node::Exec {
            parameters: vec![],
            next: vec![vec![]],
            behavior: Exec::Default(DefaultOp::Noop),
        },
    ];
    let code = Code { nodes: &nodes };
    let mut ctx = Context {
        logger: Some(Logger::default()),
        ..Context::default()
    };
    ctx.run_start(&code, 1, vec![]).expect("run succeeds");
    assert_eq!(run_count(&ctx, &code, 3), 1);
    assert_eq!(run_count(&ctx, &code, 4), 0);
}

#[test]
fn faults_on_malformed_graphs() {
    // run_start on a non-Start node.
    let nodes = vec![Node::Constant { values: vec![] }];
    let code = Code { nodes: &nodes };
    let mut ctx = Context::default();
    assert_eq!(ctx.run_start(&code, 0, vec![]), Err(Fault::MalformedGraph));

    // A start index outside the graph.
    assert_eq!(ctx.run_start(&code, 7, vec![]), Err(Fault::OutOfBounds));

    // Control flow reaching a non-Exec node.
    let nodes = vec![
        Node::Constant { values: vec![] },
        Node::Start { next: vec![flow(0)] },
    ];
    let code = Code { nodes: &nodes };
    assert_eq!(ctx.run_start(&code, 1, vec![]), Err(Fault::MalformedGraph));

    // A behavior fed the wrong tag.
    let nodes = vec![
        Node::Constant { values: vec![Value::Bool(true), Value::Bool(false)] },
        Node::Start { next: vec![flow(2)] },
        Node::Exec {
            parameters: vec![constant(0), constant(1)],
            next: vec![vec![]],
            behavior: Exec::Default(DefaultOp::Addition),
        },
    ];
    let code = Code { nodes: &nodes };
    assert_eq!(ctx.run_start(&code, 1, vec![]), Err(Fault::TypeMismatch));

    // A list index out of range.
    let nodes = vec![
        Node::Constant { values: vec![Value::Int(3), Value::Int(7)] },
        Node::Start { next: vec![flow(3)] },
        Node::Operation {
            parameters: vec![constant(1)],
            behavior: Exec::Default(DefaultOp::ListAssemble),
        },
        Node::Exec {
            parameters: vec![param(2), constant(0)],
            next: vec![vec![]],
            behavior: Exec::Default(DefaultOp::ListGet),
        },
    ];
    let code = Code { nodes: &nodes };
    assert_eq!(ctx.run_start(&code, 1, vec![]), Err(Fault::OutOfBounds));

    // An End node referenced as a data source.
    let nodes = vec![
        Node::Constant { values: vec![] },
        Node::Start { next: vec![flow(3)] },
        Node::End { parameters: vec![] },
        Node::Exec {
            parameters: vec![param(2)],
            next: vec![vec![]],
            behavior: Exec::Default(DefaultOp::Noop),
        },
    ];
    let code = Code { nodes: &nodes };
    assert_eq!(ctx.run_start(&code, 1, vec![]), Err(Fault::MalformedGraph));
}

#[test]
fn start_values_seed_the_cache() {
    let nodes = vec![
        Node::Constant { values: vec![Value::LocalVariable(0)] },
        Node::Start { next: vec![flow(2)] },
        // variable 0 = the second initial value
        Node::Exec {
            parameters: vec![constant(0), param_n(1, 1)],
            next: vec![vec![]],
            behavior: Exec::Default(DefaultOp::LocalVariableSet),
        },
    ];
    let code = Code { nodes: &nodes };
    let mut ctx = Context::default();
    ctx.run_start(&code, 1, vec![Value::Int(8), Value::Int(9)])
        .expect("run succeeds");
    assert!(matches!(ctx.local_variables[0], Value::Int(9)));
}

#[test]
fn run_inner_walks_from_one_exec_node() {
    // run_inner executes against the current context state, without
    // reinitializing it.
    let nodes = vec![
        Node::Constant { values: vec![Value::LocalVariable(0), Value::Int(1)] },
        Node::Start { next: vec![flow(4)] },
        // variable 0 = variable 0 + 1, defaulting to 1 on first read
        Node::Operation {
            parameters: vec![constant(0), constant(1)],
            behavior: Exec::Manual(ManualOp::LocalVariable),
        },
        Node::Operation {
            parameters: vec![param(2), constant(1)],
            behavior: Exec::Default(DefaultOp::Addition),
        },
        Node::Exec {
            parameters: vec![constant(0), param(3)],
            next: vec![vec![]],
            behavior: Exec::Default(DefaultOp::LocalVariableSet),
        },
    ];
    let code = Code { nodes: &nodes };
    let mut ctx = Context::default();
    ctx.run_start(&code, 1, vec![]).expect("run succeeds");
    assert!(matches!(ctx.local_variables[0], Value::Int(2)));
    // Two more walks of the same Exec node against the surviving state.
    ctx.run_inner(&code, 4).expect("inner walk succeeds");
    ctx.run_inner(&code, 4).expect("inner walk succeeds");
    assert!(matches!(ctx.local_variables[0], Value::Int(4)));
}

#[test]
fn profiler_surface_records_invocations() {
    let mut ctx = Context {
        logger: Some(Logger::default()),
        ..Context::default()
    };
    assert!(ctx.is_logging());
    assert!(ctx.log_begin_time().is_some());

    let params = vec![Value::Int(1), Value::Int(2)];
    let outputs = vec![Value::Int(3)];
    let mut begin = ctx.log_begin(&params);
    assert!(begin.is_some());
    let replaced = vec![Value::Bool(true)];
    node_graph_interpreter::LogBegin::overwrite_parameters(&mut begin, &replaced, &ctx.lists);
    ctx.log_end(begin, 5, &outputs);
    let lg = ctx.logger.as_ref().unwrap();
    assert_eq!(lg.logs.len(), 1);
    assert_eq!(lg.logs[0].node, 5);
    assert_eq!(lg.logs[0].parameters.len(), 1);
    assert_eq!(lg.logs[0].outputs.len(), 1);

    let begin = ctx.log_begin(&params).unwrap();
    ctx.log_end_subtract_duration(begin, 6, &outputs, 0);
    assert_eq!(ctx.logger.as_ref().unwrap().logs.len(), 2);

    // Without a logger nothing is recorded and no begin is handed out.
    let mut quiet = Context::default();
    assert!(!quiet.is_logging());
    assert!(quiet.log_begin_time().is_none());
    assert!(quiet.log_begin(&params).is_none());
    quiet.log_end(None, 0, &outputs);
    assert!(quiet.logger.is_none());
}
