use std::cell::Cell;
use std::cell::RefCell;

use blackjack_engine::errors::GraphError;
use blackjack_engine::errors::OpFailure;
use blackjack_engine::gizmos::BlackjackGizmo;
use blackjack_engine::graph::BjkGraph;
use blackjack_engine::graph::BjkNode;
use blackjack_engine::graph::BjkNodeId;
use blackjack_engine::graph::DependencyKind;
use blackjack_engine::graph::InputParameter;
use blackjack_engine::graph_interpreter::run_graph;
use blackjack_engine::graph_interpreter::ExternalParameter;
use blackjack_engine::graph_interpreter::ExternalParameterValues;
use blackjack_engine::graph_interpreter::GizmoConfig;
use blackjack_engine::graph_interpreter::ProgramResult;
use blackjack_engine::registry::NodeDefinition;
use blackjack_engine::registry::NodeDefinitions;
use blackjack_engine::values::BlackjackValue;
use blackjack_engine::values::ValueMap;

/// A registry of small operations that records every invocation, so tests
/// can observe which operations ran and how often.
struct TestRegistry {
    log: RefCell<Vec<String>>,
    tick: Cell<i64>,
}

impl TestRegistry {
    fn new() -> Self {
        TestRegistry {
            log: RefCell::new(Vec::new()),
            tick: Cell::new(0),
        }
    }

    fn count(&self, op: &str) -> usize {
        self.log.borrow().iter().filter(|n| n.as_str() == op).count()
    }

    fn total(&self) -> usize {
        self.log.borrow().len()
    }
}

fn get_int(m: &ValueMap, name: &str) -> i64 {
    match m.get(&name.to_string()) {
        Some(BlackjackValue::Int(i)) => *i,
        _ => panic!("expected integer value named {name}"),
    }
}

impl NodeDefinitions for TestRegistry {
    fn node_def(&self, op_name: &String) -> Option<NodeDefinition> {
        match op_name.as_str() {
            "five" | "pass" | "add" | "echo_x" | "tick" | "broken" => {
                Some(NodeDefinition { has_gizmo: false })
            }
            "gizmo_op" | "gizmo_lame" => Some(NodeDefinition { has_gizmo: true }),
            _ => None,
        }
    }

    fn call_op(&self, op_name: &String, inputs: ValueMap) -> Result<ValueMap, OpFailure> {
        self.log.borrow_mut().push(op_name.clone());
        let mut out = ValueMap::new();
        match op_name.as_str() {
            "five" => {
                out.insert("out".to_string(), BlackjackValue::Int(5));
                out.insert("other".to_string(), BlackjackValue::Int(99));
            }
            "tick" => {
                let t = self.tick.get();
                self.tick.set(t + 1);
                out.insert("out".to_string(), BlackjackValue::Int(t));
            }
            "pass" => {
                let v = get_int(&inputs, "in");
                out.insert("out".to_string(), BlackjackValue::Int(v));
            }
            "add" => {
                let v = get_int(&inputs, "a") + get_int(&inputs, "b");
                out.insert("out".to_string(), BlackjackValue::Int(v));
            }
            "echo_x" => {
                let v = get_int(&inputs, "x");
                out.insert("x".to_string(), BlackjackValue::Int(v));
            }
            "gizmo_op" | "gizmo_lame" => {
                let v = get_int(&inputs, "a");
                out.insert("out".to_string(), BlackjackValue::Int(v));
            }
            "broken" => {
                return Err(OpFailure::ContractViolation {
                    detail: format!("{op_name} cannot produce a mapping"),
                });
            }
            other => {
                return Err(OpFailure::ContractViolation {
                    detail: format!("unexpected op {other}"),
                });
            }
        }
        Ok(out)
    }

    fn pre_gizmo(
        &self,
        op_name: &String,
        inputs: ValueMap,
        _gizmos_in: &Vec<BlackjackGizmo>,
        _params: &mut ExternalParameterValues,
    ) -> Result<ValueMap, OpFailure> {
        match op_name.as_str() {
            "gizmo_op" => {
                let v = get_int(&inputs, "a");
                let mut m = inputs;
                m.insert("a".to_string(), BlackjackValue::Int(v + 1));
                Ok(m)
            }
            _ => Err(OpFailure::HookMissing),
        }
    }

    fn post_gizmo(&self, op_name: &String, outputs: &ValueMap) -> Result<Vec<BlackjackGizmo>, OpFailure> {
        match op_name.as_str() {
            "gizmo_op" => {
                let v = get_int(outputs, "out");
                Ok(vec![BlackjackGizmo {
                    value: BlackjackValue::Int(v),
                }])
            }
            _ => Err(OpFailure::HookMissing),
        }
    }
}

fn conn(name: &str, node: usize, out: &str) -> InputParameter {
    InputParameter {
        name: name.to_string(),
        kind: DependencyKind::Connection {
            node: BjkNodeId(node),
            param_name: out.to_string(),
        },
    }
}

fn ext(name: &str) -> InputParameter {
    InputParameter {
        name: name.to_string(),
        kind: DependencyKind::External { promoted: false },
    }
}

fn node(op: &str, ret: Option<&str>, inputs: Vec<InputParameter>) -> BjkNode {
    BjkNode {
        op_name: op.to_string(),
        return_value: ret.map(|s| s.to_string()),
        inputs,
    }
}

fn renderable_int(pr: &ProgramResult) -> i64 {
    match &pr.renderable {
        Some(rt) => match &rt.value {
            BlackjackValue::Int(i) => *i,
            other => panic!("renderable is not an integer: {other:?}"),
        },
        None => panic!("no renderable"),
    }
}

fn expect_err(r: Result<ProgramResult, GraphError>) -> GraphError {
    match r {
        Err(e) => e,
        Ok(_) => panic!("expected the pass to fail"),
    }
}

#[test]
fn memoization_diamond() {
    let reg = TestRegistry::new();
    let graph = BjkGraph {
        nodes: vec![
            node("tick", None, vec![]),
            node("pass", None, vec![conn("in", 0, "out")]),
            node("pass", None, vec![conn("in", 0, "out")]),
            node("add", Some("out"), vec![conn("a", 1, "out"), conn("b", 2, "out")]),
        ],
    };
    let pr = run_graph(
        &graph,
        BjkNodeId(3),
        ExternalParameterValues::new(),
        &reg,
        GizmoConfig::IgnoreGizmos,
    )
    .unwrap();
    // "tick" yields a fresh integer on every invocation; both consumers saw
    // the same cached 0, so the shared producer executed exactly once.
    assert_eq!(renderable_int(&pr), 0);
    assert_eq!(reg.count("tick"), 1);
    assert_eq!(reg.total(), 4);
}

#[test]
fn extraction_picks_declared_output() {
    let reg = TestRegistry::new();
    let graph = BjkGraph {
        nodes: vec![node("five", Some("out"), vec![])],
    };
    let pr = run_graph(
        &graph,
        BjkNodeId(0),
        ExternalParameterValues::new(),
        &reg,
        GizmoConfig::IgnoreGizmos,
    )
    .unwrap();
    // "five" also produces other = 99; only the declared output comes back.
    assert_eq!(renderable_int(&pr), 5);
}

#[test]
fn absent_return_still_executes() {
    let reg = TestRegistry::new();
    let graph = BjkGraph {
        nodes: vec![node("five", None, vec![])],
    };
    let pr = run_graph(
        &graph,
        BjkNodeId(0),
        ExternalParameterValues::new(),
        &reg,
        GizmoConfig::IgnoreGizmos,
    )
    .unwrap();
    assert!(pr.renderable.is_none());
    assert_eq!(reg.count("five"), 1);
}

#[test]
fn external_parameter_propagation() {
    let reg = TestRegistry::new();
    let graph = BjkGraph {
        nodes: vec![
            node("five", None, vec![]),
            node("echo_x", Some("x"), vec![conn("from_a", 0, "out"), ext("x")]),
        ],
    };
    let mut params = ExternalParameterValues::new();
    params.insert(
        ExternalParameter::new(BjkNodeId(1), "x".to_string()),
        BlackjackValue::Int(5),
    );
    let pr = run_graph(&graph, BjkNodeId(1), params, &reg, GizmoConfig::IgnoreGizmos).unwrap();
    assert_eq!(renderable_int(&pr), 5);
}

#[test]
fn missing_parameter_fails() {
    let reg = TestRegistry::new();
    let graph = BjkGraph {
        nodes: vec![
            node("five", None, vec![]),
            node("echo_x", Some("x"), vec![conn("from_a", 0, "out"), ext("x")]),
        ],
    };
    let err = expect_err(run_graph(
        &graph,
        BjkNodeId(1),
        ExternalParameterValues::new(),
        &reg,
        GizmoConfig::IgnoreGizmos,
    ))
    ;
    assert_eq!(
        err,
        GraphError::MissingExternalParameter {
            node_id: BjkNodeId(1),
            param_name: "x".to_string(),
        }
    );
    // The failing node's own operation was never invoked.
    assert_eq!(reg.count("echo_x"), 0);
}

#[test]
fn gizmo_round_trip_enabled() {
    let reg = TestRegistry::new();
    let graph = BjkGraph {
        nodes: vec![node("gizmo_op", Some("out"), vec![ext("a")])],
    };
    let mut params = ExternalParameterValues::new();
    params.insert(
        ExternalParameter::new(BjkNodeId(0), "a".to_string()),
        BlackjackValue::Int(10),
    );
    let pr = run_graph(
        &graph,
        BjkNodeId(0),
        params,
        &reg,
        GizmoConfig::RunGizmosInOut(vec![]),
    )
    .unwrap();
    // The pre-hook added 1 before the operation ran; the post-hook derived
    // one gizmo from the produced output.
    assert_eq!(renderable_int(&pr), 11);
    assert_eq!(
        pr.updated_gizmos,
        Some(vec![BlackjackGizmo {
            value: BlackjackValue::Int(11),
        }])
    );
}

#[test]
fn gizmos_disabled_keep_inputs() {
    let reg = TestRegistry::new();
    let graph = BjkGraph {
        nodes: vec![node("gizmo_op", Some("out"), vec![ext("a")])],
    };
    let mut params = ExternalParameterValues::new();
    params.insert(
        ExternalParameter::new(BjkNodeId(0), "a".to_string()),
        BlackjackValue::Int(10),
    );
    let pr = run_graph(&graph, BjkNodeId(0), params, &reg, GizmoConfig::IgnoreGizmos).unwrap();
    // No pre-hook ran: the original input reached the operation; and no
    // gizmo sequence comes back.
    assert_eq!(renderable_int(&pr), 10);
    assert!(pr.updated_gizmos.is_none());
}

#[test]
fn gizmo_out_only_skips_pre_hook() {
    let reg = TestRegistry::new();
    let graph = BjkGraph {
        nodes: vec![node("gizmo_op", Some("out"), vec![ext("a")])],
    };
    let mut params = ExternalParameterValues::new();
    params.insert(
        ExternalParameter::new(BjkNodeId(0), "a".to_string()),
        BlackjackValue::Int(10),
    );
    let pr = run_graph(&graph, BjkNodeId(0), params, &reg, GizmoConfig::RinGizmoOut).unwrap();
    assert_eq!(renderable_int(&pr), 10);
    assert_eq!(
        pr.updated_gizmos,
        Some(vec![BlackjackGizmo {
            value: BlackjackValue::Int(10),
        }])
    );
}

#[test]
fn unrelated_subgraph_never_runs() {
    let reg = TestRegistry::new();
    let graph = BjkGraph {
        nodes: vec![
            node("five", None, vec![]),
            // Would fail the pass if it were ever invoked.
            node("broken", None, vec![conn("in", 0, "out")]),
            node("five", Some("out"), vec![]),
        ],
    };
    let pr = run_graph(
        &graph,
        BjkNodeId(2),
        ExternalParameterValues::new(),
        &reg,
        GizmoConfig::IgnoreGizmos,
    )
    .unwrap();
    assert_eq!(renderable_int(&pr), 5);
    assert_eq!(reg.total(), 1);
    assert_eq!(reg.count("broken"), 0);
}

#[test]
fn unknown_operation_fails() {
    let reg = TestRegistry::new();
    let graph = BjkGraph {
        nodes: vec![node("nope", None, vec![])],
    };
    let err = expect_err(run_graph(
        &graph,
        BjkNodeId(0),
        ExternalParameterValues::new(),
        &reg,
        GizmoConfig::IgnoreGizmos,
    ))
    ;
    assert_eq!(
        err,
        GraphError::UnknownOperation {
            op_name: "nope".to_string(),
        }
    );
}

#[test]
fn missing_cached_output_fails() {
    let reg = TestRegistry::new();
    let graph = BjkGraph {
        nodes: vec![
            node("five", None, vec![]),
            node("pass", Some("out"), vec![conn("in", 0, "bogus")]),
        ],
    };
    let err = expect_err(run_graph(
        &graph,
        BjkNodeId(1),
        ExternalParameterValues::new(),
        &reg,
        GizmoConfig::IgnoreGizmos,
    ))
    ;
    assert_eq!(
        err,
        GraphError::MissingCachedOutput {
            node: BjkNodeId(0),
            param_name: "bogus".to_string(),
        }
    );
}

#[test]
fn gizmo_hook_missing_fails() {
    let reg = TestRegistry::new();
    let graph = BjkGraph {
        nodes: vec![node("gizmo_lame", Some("out"), vec![ext("a")])],
    };
    let mut params = ExternalParameterValues::new();
    params.insert(
        ExternalParameter::new(BjkNodeId(0), "a".to_string()),
        BlackjackValue::Int(1),
    );
    let err = expect_err(run_graph(
        &graph,
        BjkNodeId(0),
        params,
        &reg,
        GizmoConfig::RunGizmosInOut(vec![]),
    ))
    ;
    assert_eq!(
        err,
        GraphError::GizmoHookMissing {
            op_name: "gizmo_lame".to_string(),
        }
    );
}

#[test]
fn gizmo_post_hook_missing_fails() {
    let reg = TestRegistry::new();
    let graph = BjkGraph {
        nodes: vec![node("gizmo_lame", Some("out"), vec![ext("a")])],
    };
    let mut params = ExternalParameterValues::new();
    params.insert(
        ExternalParameter::new(BjkNodeId(0), "a".to_string()),
        BlackjackValue::Int(1),
    );
    // With no prior gizmos the pre-hook is skipped; the operation runs and
    // the absent post-hook aborts the pass.
    let err = expect_err(run_graph(&graph, BjkNodeId(0), params, &reg, GizmoConfig::RinGizmoOut));
    assert_eq!(
        err,
        GraphError::GizmoHookMissing {
            op_name: "gizmo_lame".to_string(),
        }
    );
    assert_eq!(reg.count("gizmo_lame"), 1);
}

#[test]
fn default_store_is_empty() {
    let store = ExternalParameterValues::default();
    let key = ExternalParameter::new(BjkNodeId(0), "a".to_string());
    assert_eq!(store.get(&key), None);
}

#[test]
fn operation_contract_violation_fails() {
    let reg = TestRegistry::new();
    let graph = BjkGraph {
        nodes: vec![node("broken", None, vec![])],
    };
    let err = expect_err(run_graph(
        &graph,
        BjkNodeId(0),
        ExternalParameterValues::new(),
        &reg,
        GizmoConfig::IgnoreGizmos,
    ))
    ;
    assert!(matches!(err, GraphError::OperationContractViolation { .. }));
}

#[test]
fn missing_return_output_fails() {
    let reg = TestRegistry::new();
    let graph = BjkGraph {
        nodes: vec![node("five", Some("bogus"), vec![])],
    };
    let err = expect_err(run_graph(
        &graph,
        BjkNodeId(0),
        ExternalParameterValues::new(),
        &reg,
        GizmoConfig::IgnoreGizmos,
    ))
    ;
    assert_eq!(
        err,
        GraphError::MissingReturnOutput {
            param_name: "bogus".to_string(),
        }
    );
}

#[test]
fn value_map_last_binding_wins() {
    let mut m = ValueMap::new();
    m.insert("k".to_string(), BlackjackValue::Int(1));
    m.insert("k".to_string(), BlackjackValue::Int(2));
    assert_eq!(m.get(&"k".to_string()), Some(&BlackjackValue::Int(2)));
    assert_eq!(m.get(&"absent".to_string()), None);
}

#[test]
fn external_parameter_new_sets_fields() {
    let p = ExternalParameter::new(BjkNodeId(3), "p".to_string());
    assert_eq!(p.node_id, BjkNodeId(3));
    assert_eq!(p.param_name, "p".to_string());
}

#[test]
fn updated_values_come_back() {
    let reg = TestRegistry::new();
    let graph = BjkGraph {
        nodes: vec![node("echo_x", Some("x"), vec![ext("x")])],
    };
    let mut params = ExternalParameterValues::new();
    params.insert(
        ExternalParameter::new(BjkNodeId(0), "x".to_string()),
        BlackjackValue::Int(7),
    );
    let pr = run_graph(&graph, BjkNodeId(0), params, &reg, GizmoConfig::IgnoreGizmos).unwrap();
    let key = ExternalParameter::new(BjkNodeId(0), "x".to_string());
    assert_eq!(pr.updated_values.get(&key), Some(&BlackjackValue::Int(7)));
}
