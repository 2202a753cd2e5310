use node_graph_interpreter::logger::{Logger, Record, ValueSnapshot};
use node_graph_interpreter::nodes::{Code, Node};
use node_graph_interpreter::value::Value;
use node_graph_interpreter::vec_pool::{VecPool, INIT_CAPACITY};
use node_graph_interpreter::Context;

#[test]
fn value_accessors_and_duplicate() {
    assert_eq!(Value::Bool(true).as_bool(), true);
    assert_eq!(Value::Int(-5).as_int(), -5);
    assert_eq!(Value::String(String::from("hi")).as_str(), "hi");
    assert_eq!(Value::List(3).as_list(), 3);
    assert_eq!(Value::LocalVariable(2).as_local_variable(), 2);
    assert_eq!(Value::LoopId(1).as_loop_id(), 1);
    assert!(Value::Uninit.is_uninit());
    assert!(!Value::Empty.is_uninit());

    let v = Value::String(String::from("shared"));
    let d = v.duplicate();
    assert_eq!(d.as_str(), "shared");
}

#[test]
fn vec_pool_hands_out_empty_buffers() {
    let mut pool: VecPool<u32> = VecPool::new_fat();
    let mut bufs = Vec::new();
    for _ in 0..INIT_CAPACITY + 2 {
        let b = pool.get();
        assert!(b.is_empty());
        bufs.push(b);
    }
    let mut b = bufs.pop().unwrap();
    b.push(7);
    b.push(8);
    pool.ret(b);
    let again = pool.get();
    assert!(again.is_empty());
}

#[test]
fn logger_aggregates_per_node() {
    let nodes = vec![
        Node::Constant { values: vec![] },
        Node::Constant { values: vec![] },
        Node::Constant { values: vec![] },
    ];
    let code = Code { nodes: &nodes };
    let mut lg = Logger::default();
    lg.record(Record { node: 1, duration: 10, parameters: vec![], outputs: vec![] });
    lg.record(Record { node: 1, duration: 32, parameters: vec![], outputs: vec![] });
    lg.record(Record { node: 2, duration: 5, parameters: vec![], outputs: vec![] });
    // A record outside the graph is left out of the aggregation.
    lg.record(Record { node: 9, duration: 1, parameters: vec![], outputs: vec![] });

    let per_node = lg.to_per_node(&code);
    assert_eq!(per_node.len(), 3);
    assert!(per_node[0].is_none());
    let n1 = per_node[1].as_ref().unwrap();
    assert_eq!(n1.runs.len(), 2);
    assert_eq!(n1.total_duration, 42);
    let n2 = per_node[2].as_ref().unwrap();
    assert_eq!(n2.runs.len(), 1);
    assert_eq!(n2.total_duration, 5);

    lg.clear();
    let per_node = lg.to_per_node(&code);
    assert!(per_node.iter().all(|p| p.is_none()));
}

#[test]
fn records_carry_faithful_snapshots() {
    let mut ctx = Context {
        logger: Some(Logger::default()),
        ..Context::default()
    };
    // A shared list cell, referenced by a value that gets snapshotted.
    ctx.lists.push(vec![Value::Int(7), Value::Bool(true)]);
    let params = vec![Value::List(0), Value::Int(1)];
    let outputs = vec![Value::String(String::from("done"))];
    let begin = ctx.log_begin(&params);
    ctx.log_end(begin, 3, &outputs);

    // Mutating the cell after the fact must not alter the snapshot.
    ctx.lists[0][0] = Value::Int(99);

    let lg = ctx.logger.as_ref().unwrap();
    assert_eq!(lg.logs.len(), 1);
    let rec = &lg.logs[0];
    assert_eq!(rec.node, 3);
    assert_eq!(rec.parameters.len(), 2);
    match &rec.parameters[0] {
        ValueSnapshot::List(vs) => {
            assert_eq!(vs.len(), 2);
            assert!(matches!(vs[0], ValueSnapshot::Int(7)));
            assert!(matches!(vs[1], ValueSnapshot::Bool(true)));
        }
        other => panic!("expected a list snapshot, got {other:?}"),
    }
    assert!(matches!(rec.parameters[1], ValueSnapshot::Int(1)));
    assert_eq!(rec.outputs.len(), 1);
    match &rec.outputs[0] {
        ValueSnapshot::String(s) => assert_eq!(s, "done"),
        other => panic!("expected a string snapshot, got {other:?}"),
    }
}

#[test]
fn nested_list_snapshots_expand_through_the_arena() {
    let mut ctx = Context::default();
    // Cell 1 holds a reference to cell 0: a nested list.
    ctx.lists.push(vec![Value::Int(5)]);
    ctx.lists.push(vec![Value::List(0), Value::Empty]);
    let snaps = ValueSnapshot::from_values_iter(&[Value::List(1)], &ctx.lists);
    match &snaps[0] {
        ValueSnapshot::List(outer) => {
            assert_eq!(outer.len(), 2);
            match &outer[0] {
                ValueSnapshot::List(inner) => {
                    assert_eq!(inner.len(), 1);
                    assert!(matches!(inner[0], ValueSnapshot::Int(5)));
                }
                other => panic!("expected a nested list snapshot, got {other:?}"),
            }
            assert!(matches!(outer[1], ValueSnapshot::Empty));
        }
        other => panic!("expected a list snapshot, got {other:?}"),
    }
}

#[test]
fn per_node_runs_hold_the_record_snapshots_in_order() {
    let nodes = vec![Node::Constant { values: vec![] }, Node::Constant { values: vec![] }];
    let code = Code { nodes: &nodes };
    let mut lg = Logger::default();
    lg.record(Record {
        node: 1,
        duration: 4,
        parameters: vec![ValueSnapshot::Int(10)],
        outputs: vec![ValueSnapshot::Bool(false)],
    });
    lg.record(Record {
        node: 1,
        duration: 6,
        parameters: vec![ValueSnapshot::Int(20), ValueSnapshot::Empty],
        outputs: vec![],
    });
    let per_node = lg.to_per_node(&code);
    let p = per_node[1].as_ref().unwrap();
    assert_eq!(p.total_duration, 10);
    assert_eq!(p.runs.len(), 2);
    assert!(matches!(p.runs[0].parameters[..], [ValueSnapshot::Int(10)]));
    assert!(matches!(p.runs[0].outputs[..], [ValueSnapshot::Bool(false)]));
    assert!(matches!(
        p.runs[1].parameters[..],
        [ValueSnapshot::Int(20), ValueSnapshot::Empty]
    ));
    assert!(p.runs[1].outputs.is_empty());
}
