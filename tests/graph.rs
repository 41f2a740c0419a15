use node::built_in_nodes::{NodeLLM, NodePrint, NodeText};
use node::error::TaskError;
use node::execution::RunResults;
use node::node_data::{InputArgMeta, Node, NodeId, NodeMeta, NodeMetaTrait, OutputArgMeta};
use node::node_instance::{NodeInstanceId, NodeInstanceIdProvider};
use node::state::Task;
use node::table::Table;
use node::value::{Value, ValueError, ValueType};

fn text_template() -> Node {
    Node::new(NodeText)
}

fn print_template() -> Node {
    Node::new(NodePrint)
}

/// A template with one text input and one text output.
fn relay_template() -> Node {
    Node::new_with_meta(
        NodeMeta::new(NodeId::new("relay"), "0.1.0".to_string())
            .with_input_arg("in".to_string(), InputArgMeta::new::<String>())
            .with_output_arg("out".to_string(), OutputArgMeta::new::<String>()),
    )
}

/// Runs every instance in order, evaluating the built-in kinds, and returns
/// what the print instances showed.
fn run_built_ins(task: &Task) -> Result<Vec<String>, TaskError> {
    let order = task.evaluation_order()?;
    let mut results = RunResults::new(task);
    let mut shown = Vec::new();
    for id in order {
        let inputs = task.resolve_inputs(id, &results)?;
        let instance = task.get_instance(id)?;
        let outputs = match instance.node_id.0.as_str() {
            "text" => NodeText::evaluate(instance)?,
            "print" => {
                shown.push(NodePrint::evaluate(&inputs)?);
                Table::new()
            }
            _ => NodeLLM::evaluate(&inputs)?,
        };
        results.record(id, outputs);
    }
    Ok(shown)
}

#[test]
fn value_round_trip() {
    let v = Value::new("hello".to_string());
    assert_eq!(v.downcast::<String>(), Ok(&"hello".to_string()));
    assert_eq!(v.try_downcast::<String>(), Some(&"hello".to_string()));
    assert_eq!(v.get_type(), ValueType::Text);
    let n = Value::new(42i64);
    assert_eq!(n.downcast::<i64>(), Ok(&42i64));
    assert_eq!(n.try_downcast::<u64>(), None);
}

#[test]
fn value_downcast_to_other_type_fails() {
    let v = Value::new(7u64);
    assert_eq!(
        v.downcast::<String>(),
        Err(ValueError::TypeMismatch { expected: ValueType::Text, found: ValueType::UInt })
    );
    assert_eq!(v.try_downcast::<bool>(), None);
    let c = v.clone();
    assert_eq!(c.downcast::<u64>(), Ok(&7u64));
}

#[test]
fn value_type_identity() {
    assert_eq!(ValueType::new::<String>(), ValueType::Text);
    assert_eq!(ValueType::new::<bool>(), ValueType::Bool);
    assert_ne!(ValueType::new::<i64>(), ValueType::new::<u64>());
    assert_eq!(ValueType::Text.name(), "alloc::string::String");
    assert_eq!(ValueType::Int.name(), "i64");
}

#[test]
fn table_insert_overwrites() {
    let mut t: Table<u64> = Table::new();
    assert!(t.is_empty());
    t.insert("a".to_string(), 1);
    t.insert("b".to_string(), 2);
    t.insert("a".to_string(), 3);
    assert_eq!(t.len(), 2);
    assert_eq!(t.get(&"a".to_string()), Some(&3));
    assert_eq!(t.get(&"b".to_string()), Some(&2));
    assert_eq!(t.get(&"c".to_string()), None);
    assert!(!t.is_empty());
}

#[test]
fn meta_builders() {
    let m = NodeMeta::new(NodeId::new("n"), "1.0".to_string())
        .with_input_arg("x".to_string(), InputArgMeta::new::<i64>().with_optional(true))
        .with_input_arg("x".to_string(), InputArgMeta::new::<bool>())
        .with_output_arg("y".to_string(), OutputArgMeta::new::<u64>());
    let node = Node::new_with_meta(m);
    assert_eq!(node.id(), &NodeId::new("n"));
    assert_eq!(node.get_meta().version, "1.0".to_string());
    let x = node.get_input_arg(&"x".to_string()).unwrap();
    assert_eq!(x.value_type, ValueType::Bool);
    assert!(!x.is_optional);
    assert_eq!(node.get_out_arg(&"y".to_string()).unwrap().value_type, ValueType::UInt);
    assert_eq!(node.get_input_arg(&"z".to_string()), Err(TaskError::InputArgNotFound));
    assert_eq!(node.get_out_arg(&"x".to_string()), Err(TaskError::OutputArgNotFound));
    assert_eq!(node.input_args().len(), 1);
    assert_eq!(node.output_args().len(), 1);
    assert!(!node.is_root());
    assert!(text_template().is_root());
}

#[test]
fn built_in_templates_declare_ports() {
    let text = NodeText.get_meta();
    assert_eq!(text.id, NodeId::new("text"));
    assert_eq!(text.output_args.get(&"text".to_string()).unwrap().value_type, ValueType::Text);
    let print = NodePrint.get_meta();
    assert_eq!(print.input_args.get(&"text".to_string()).unwrap().value_type, ValueType::Text);
    let llm = NodeLLM {}.get_meta();
    assert_eq!(llm.id, NodeId::new("llm"));
    assert!(llm.input_args.contains_key(&"context".to_string()));
    assert!(llm.output_args.contains_key(&"text".to_string()));
}

#[test]
fn id_provider_counts_from_offset() {
    let mut p = NodeInstanceIdProvider::new();
    assert_eq!(p.next_id(), NodeInstanceId(10000));
    assert_eq!(p.next_id(), NodeInstanceId(10001));
    assert_eq!(p.next_id, 10002);
    assert_eq!(NodeInstanceIdProvider::default().next_id, 10000);
}

#[test]
fn register_twice_fails() {
    let mut task = Task::new();
    assert_eq!(task.register_node(text_template()), Ok(NodeId::new("text")));
    assert_eq!(task.register_node(text_template()), Err(TaskError::IdAlreadyExists));
    assert!(task.get_node(&NodeId::new("text")).is_ok());
    assert!(matches!(task.get_node(&NodeId::new("nope")), Err(TaskError::NodeNotFound)));
}

#[test]
fn instantiate_unknown_template_fails() {
    let mut task = Task::new();
    assert_eq!(task.instantiate(&NodeId::new("text")), Err(TaskError::NodeNotFound));
    assert!(matches!(task.get_instance(NodeInstanceId(10000)), Err(TaskError::InstanceNotFound)));
}

#[test]
fn instances_are_distinct_and_separate() {
    let mut task = Task::new();
    let t = task.register_node(text_template()).unwrap();
    let a = task.instantiate(&t).unwrap();
    let b = task.instantiate(&t).unwrap();
    assert_eq!(a, NodeInstanceId(10000));
    assert_eq!(b, NodeInstanceId(10001));
    task.set_instance_memory(a, "text", "only a".to_string()).unwrap();
    let ia = task.get_instance(a).unwrap();
    let ib = task.get_instance(b).unwrap();
    assert_eq!(ia.get_memory::<String>(&"text".to_string()), Ok(Some(&"only a".to_string())));
    assert_eq!(ib.get_memory::<String>(&"text".to_string()), Ok(None));
    assert!(ia.is_leaf() && ib.is_leaf());
}

#[test]
fn memory_of_wrong_type_fails() {
    let mut task = Task::new();
    let t = task.register_node(text_template()).unwrap();
    let a = task.instantiate(&t).unwrap();
    task.set_instance_memory(a, "text", 5i64).unwrap();
    let ia = task.get_instance(a).unwrap();
    assert!(matches!(ia.get_memory::<String>(&"text".to_string()), Err(TaskError::Value(_))));
    assert!(matches!(NodeText::evaluate(ia), Err(TaskError::Value(_))));
    assert_eq!(
        task.set_instance_memory(NodeInstanceId(99), "text", true),
        Err(TaskError::InstanceNotFound)
    );
}

#[test]
fn text_then_print_shows_memory() {
    let mut task = Task::new();
    let text = task.register_node(text_template()).unwrap();
    let print = task.register_node(print_template()).unwrap();
    let text = task.instantiate(&text).unwrap();
    let print = task.instantiate(&print).unwrap();
    task.set_instance_memory(text, "text", "Test!".to_string()).unwrap();
    task.connect(text, "text", print, "text").unwrap();
    assert_eq!(task.is_nodes_connected(text, "text", print, "text"), Ok(true));
    assert_eq!(run_built_ins(&task), Ok(vec!["Test!".to_string()]));
}

#[test]
fn text_without_memory_outputs_empty() {
    let mut task = Task::new();
    let text = task.register_node(text_template()).unwrap();
    let print = task.register_node(print_template()).unwrap();
    let text = task.instantiate(&text).unwrap();
    let print = task.instantiate(&print).unwrap();
    task.connect(text, "text", print, "text").unwrap();
    assert_eq!(run_built_ins(&task), Ok(vec![String::new()]));
}

#[test]
fn unwired_required_inputs_stop_the_run() {
    let mut task = Task::new();
    let print = task.register_node(print_template()).unwrap();
    let a = task.instantiate(&print).unwrap();
    let b = task.instantiate(&print).unwrap();
    assert_eq!(task.is_node_connected(task.get_instance(a).unwrap()), Ok(false));
    assert_eq!(task.is_node_connected(task.get_instance(b).unwrap()), Ok(false));
    assert_eq!(task.is_all_nodes_connected(), Ok(false));
    assert_eq!(task.evaluation_order(), Err(TaskError::NotAllConnected));
    assert_eq!(run_built_ins(&task), Err(TaskError::NotAllConnected));
}

#[test]
fn optional_inputs_need_no_wire() {
    let mut task = Task::new();
    let opt = Node::new_with_meta(
        NodeMeta::new(NodeId::new("opt"), "0.1.0".to_string())
            .with_input_arg("maybe".to_string(), InputArgMeta::new::<String>().with_optional(true)),
    );
    let id = task.register_node(opt).unwrap();
    let a = task.instantiate(&id).unwrap();
    assert_eq!(task.is_all_nodes_connected(), Ok(true));
    assert_eq!(task.evaluation_order(), Ok(vec![a]));
}

#[test]
fn mismatched_types_are_rejected() {
    let mut task = Task::new();
    let counter = Node::new_with_meta(
        NodeMeta::new(NodeId::new("counter"), "0.1.0".to_string())
            .with_output_arg("n".to_string(), OutputArgMeta::new::<u64>()),
    );
    let c = task.register_node(counter).unwrap();
    let p = task.register_node(print_template()).unwrap();
    let c = task.instantiate(&c).unwrap();
    let p = task.instantiate(&p).unwrap();
    assert_eq!(task.match_types(c, "n", p, "text"), Ok(false));
    assert_eq!(task.can_connect_nodes(c, "n", p, "text"), Ok(false));
    assert_eq!(task.connect(c, "n", p, "text"), Err(TaskError::IncompatibleTypes));
    assert_eq!(task.get_node_out_connection(c, "n").unwrap().is_none(), true);
    assert_eq!(task.get_node_in_connection(p, "text").unwrap().is_none(), true);
    assert_eq!(task.is_nodes_connected(c, "n", p, "text"), Ok(false));
}

#[test]
fn unknown_ports_and_instances_are_rejected() {
    let mut task = Task::new();
    let t = task.register_node(text_template()).unwrap();
    let p = task.register_node(print_template()).unwrap();
    let t = task.instantiate(&t).unwrap();
    let p = task.instantiate(&p).unwrap();
    assert_eq!(task.connect(t, "nope", p, "text"), Err(TaskError::OutputArgNotFound));
    assert_eq!(task.connect(t, "text", p, "nope"), Err(TaskError::InputArgNotFound));
    assert_eq!(task.connect(NodeInstanceId(1), "text", p, "text"), Err(TaskError::InstanceNotFound));
    assert_eq!(task.connect(t, "text", NodeInstanceId(20000), "text"), Err(TaskError::InstanceNotFound));
}

#[test]
fn reverse_wire_is_a_cycle() {
    let mut task = Task::new();
    let r = task.register_node(relay_template()).unwrap();
    let a = task.instantiate(&r).unwrap();
    let b = task.instantiate(&r).unwrap();
    task.connect(a, "out", b, "in").unwrap();
    assert_eq!(task.connect(b, "out", a, "in"), Err(TaskError::Cycle));
    assert_eq!(task.connect(a, "out", a, "in"), Err(TaskError::Cycle));
}

#[test]
fn closing_a_chain_is_a_cycle_and_keeps_wires() {
    let mut task = Task::new();
    let r = task.register_node(relay_template()).unwrap();
    let a = task.instantiate(&r).unwrap();
    let b = task.instantiate(&r).unwrap();
    let c = task.instantiate(&r).unwrap();
    task.connect(a, "out", b, "in").unwrap();
    task.connect(b, "out", c, "in").unwrap();
    assert_eq!(task.get_direct_deps(c), Ok(vec![b]));
    let mut all = task.get_all_deps(c).unwrap();
    all.sort();
    assert_eq!(all, vec![a, b, c]);
    assert_eq!(task.connect(c, "out", a, "in"), Err(TaskError::Cycle));
    assert_eq!(task.is_nodes_connected(a, "out", b, "in"), Ok(true));
    assert_eq!(task.is_nodes_connected(b, "out", c, "in"), Ok(true));
    assert_eq!(task.get_node_in_connection(a, "in").unwrap().is_none(), true);
}

#[test]
fn fan_out_wires_succeed() {
    let mut task = Task::new();
    let t = task.register_node(text_template()).unwrap();
    let p = task.register_node(print_template()).unwrap();
    let a = task.instantiate(&t).unwrap();
    let b = task.instantiate(&p).unwrap();
    let c = task.instantiate(&p).unwrap();
    assert_eq!(task.connect(a, "text", b, "text"), Ok(()));
    assert_eq!(task.connect(a, "text", c, "text"), Ok(()));
    // one record per output port: the later wire replaces the first
    assert_eq!(task.is_nodes_connected(a, "text", c, "text"), Ok(true));
    assert_eq!(task.is_nodes_connected(a, "text", b, "text"), Err(TaskError::CorruptedConnection));
}

#[test]
fn evaluation_order_puts_dependencies_first() {
    let mut task = Task::new();
    let r = task.register_node(relay_template()).unwrap();
    let t = task.register_node(text_template()).unwrap();
    let c = task.instantiate(&r).unwrap();
    let b = task.instantiate(&r).unwrap();
    let a = task.instantiate(&t).unwrap();
    task.connect(b, "out", c, "in").unwrap();
    task.connect(a, "text", b, "in").unwrap();
    assert_eq!(task.evaluation_order(), Ok(vec![a, b, c]));
    let roots: Vec<NodeInstanceId> =
        task.get_root_nodes().unwrap().iter().map(|i| i.instance_id).collect();
    assert_eq!(roots, vec![a]);
    let leaves: Vec<NodeInstanceId> = task.get_leaf_nodes().iter().map(|i| i.instance_id).collect();
    assert_eq!(leaves, vec![c]);
}

#[test]
fn inputs_resolve_from_recorded_outputs() {
    let mut task = Task::new();
    let t = task.register_node(text_template()).unwrap();
    let p = task.register_node(print_template()).unwrap();
    let a = task.instantiate(&t).unwrap();
    let b = task.instantiate(&p).unwrap();
    task.connect(a, "text", b, "text").unwrap();
    let mut results = RunResults::new(&task);
    assert!(matches!(task.resolve_inputs(b, &results), Err(TaskError::ResultNotFound)));
    results.record(a, Table::new());
    assert!(matches!(task.resolve_inputs(b, &results), Err(TaskError::ArgumentNotFound)));
    let mut out = Table::new();
    out.insert("text".to_string(), Value::new("hi".to_string()));
    results.record(a, out);
    let inputs = task.resolve_inputs(b, &results).unwrap();
    assert_eq!(NodePrint::evaluate(&inputs), Ok("hi".to_string()));
    assert!(task.resolve_inputs(a, &results).unwrap().is_empty());
}

#[test]
fn built_in_nodes_check_inputs() {
    let empty: Table<Value> = Table::new();
    assert_eq!(NodePrint::evaluate(&empty), Err(TaskError::MissingInput));
    assert!(matches!(NodeLLM::evaluate(&empty), Err(TaskError::MissingInput)));
    let mut wrong = Table::new();
    wrong.insert("text".to_string(), Value::new(true));
    assert_eq!(
        NodePrint::evaluate(&wrong),
        Err(TaskError::Value(ValueError::TypeMismatch { expected: ValueType::Text, found: ValueType::Bool }))
    );
    let mut ctx = Table::new();
    ctx.insert("context".to_string(), Value::new("c".to_string()));
    assert!(NodeLLM::evaluate(&ctx).unwrap().is_empty());
}

#[test]
fn rewired_input_leaves_a_corrupted_pair() {
    let mut task = Task::new();
    let t = task.register_node(text_template()).unwrap();
    let p = task.register_node(print_template()).unwrap();
    let a = task.instantiate(&t).unwrap();
    let b = task.instantiate(&t).unwrap();
    let c = task.instantiate(&p).unwrap();
    task.connect(a, "text", c, "text").unwrap();
    task.connect(b, "text", c, "text").unwrap();
    assert_eq!(task.is_nodes_connected(b, "text", c, "text"), Ok(true));
    assert_eq!(task.is_nodes_connected(a, "text", c, "text"), Err(TaskError::CorruptedConnection));
    assert_eq!(task.is_nodes_connected(a, "text", NodeInstanceId(7), "text"), Err(TaskError::InstanceNotFound));
    assert_eq!(task.is_nodes_connected(NodeInstanceId(7), "text", c, "text"), Err(TaskError::InstanceNotFound));
}

#[test]
fn templates_from_kinds_carry_their_declaration() {
    let mut task = Task::new();
    let llm = task.register_node(Node::new(NodeLLM {})).unwrap();
    assert_eq!(llm, NodeId::new("llm"));
    let node = task.get_node(&llm).unwrap();
    assert_eq!(node.get_meta().version, "0.1.0".to_string());
    assert!(!node.get_input_arg(&"context".to_string()).unwrap().is_optional);
    assert_eq!(node.get_out_arg(&"text".to_string()).unwrap().value_type, ValueType::Text);
}
