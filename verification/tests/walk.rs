use difix::di::DIFix;
use difix::effects::{Edit, Warning};
use difix::ir::{Attachment, Function, MetadataKind, Module, Node, NodeId, NodeKind, Operand};

const POINTER: u16 = 0x0f;
const STRUCTURE: u16 = 0x13;
const VARIANT_PART: u16 = 0x33;

fn text(s: &str) -> Operand {
    Operand::Text(s.to_owned())
}

fn value(kind: NodeKind, operands: Vec<Operand>, attachments: Vec<Attachment>) -> Node {
    Node { kind, tag: None, line: 0, operands, attachments }
}

fn metadata(kind: MetadataKind, tag: Option<u16>, line: u32, operands: Vec<Operand>) -> Node {
    Node { kind: NodeKind::Metadata(kind), tag, line, operands, attachments: vec![] }
}

fn structure(name: &str, elements: Operand) -> Node {
    metadata(
        MetadataKind::CompositeType,
        Some(STRUCTURE),
        0,
        vec![Operand::Null, Operand::Null, text(name), Operand::Null, elements],
    )
}

fn subprogram(name: &str, rest: Vec<Operand>) -> Node {
    let mut operands = vec![Operand::Null, Operand::Null, text(name)];
    operands.extend(rest);
    metadata(MetadataKind::Subprogram, None, 0, operands)
}

fn tuple(operands: Vec<Operand>) -> Node {
    metadata(MetadataKind::Other, None, 0, operands)
}

fn attach(kind: u32, metadata: NodeId) -> Attachment {
    Attachment { kind, metadata }
}

fn module(nodes: Vec<Node>) -> Module {
    Module { nodes, globals: vec![], aliases: vec![], functions: vec![] }
}

fn renames(fix: &DIFix, node: NodeId) -> usize {
    fix.edits()
        .iter()
        .filter(|e| matches!(e, Edit::ReplaceOperand { node: n, .. } if *n == node))
        .count()
}

#[test]
fn null_and_dangling_handles_are_passed_over() {
    let mut fix = DIFix::new(module(vec![subprogram("f<T>", vec![Operand::Node(5)])]));
    fix.discover(None);
    fix.discover(Some(1));
    fix.discover(Some(usize::MAX));
    assert!(fix.edits().is_empty());
    assert_eq!(fix.module().nodes[0].operands[2], text("f<T>"));
    fix.discover(Some(0));
    assert_eq!(fix.module().nodes[0].operands[2], text("f_3C_T_3E_"));
    assert_eq!(fix.edits().len(), 1);
}

#[test]
fn walk_ends_on_a_node_that_is_its_own_operand() {
    let mut fix = DIFix::new(module(vec![subprogram("loop<T>", vec![Operand::Node(0)])]));
    fix.discover(Some(0));
    assert_eq!(fix.module().nodes[0].operands[2], text("loop_3C_T_3E_"));
    assert_eq!(renames(&fix, 0), 1);
}

#[test]
fn walk_ends_on_a_longer_cycle_and_repairs_each_node_once() {
    let nodes = vec![
        subprogram("a<0>", vec![Operand::Node(1)]),
        tuple(vec![Operand::Node(2), Operand::Node(0)]),
        subprogram("b<1>", vec![Operand::Node(3), Operand::Node(1)]),
        structure("c<2>", Operand::Node(1)),
    ];
    let mut fix = DIFix::new(module(nodes));
    fix.discover(Some(0));
    assert_eq!(fix.module().nodes[0].operands[2], text("a_3C_0_3E_"));
    assert_eq!(fix.module().nodes[2].operands[2], text("b_3C_1_3E_"));
    assert_eq!(fix.module().nodes[3].operands[2], text("c_3C_2_3E_"));
    assert_eq!(renames(&fix, 0), 1);
    assert_eq!(renames(&fix, 2), 1);
    assert_eq!(renames(&fix, 3), 1);
    assert_eq!(fix.edits().len(), 3);
}

#[test]
fn a_node_reached_twice_is_repaired_once() {
    let nodes = vec![
        tuple(vec![Operand::Node(1), Operand::Node(2), Operand::Node(1)]),
        subprogram("shared<T>", vec![]),
        tuple(vec![Operand::Node(1)]),
    ];
    let mut fix = DIFix::new(module(nodes));
    fix.discover(Some(0));
    fix.discover(Some(1));
    fix.discover(Some(2));
    assert_eq!(renames(&fix, 1), 1);
}

#[test]
fn walking_again_does_nothing() {
    let nodes = vec![structure("S<T>", Operand::Null)];
    let mut m = module(nodes);
    m.globals = vec![0];
    let mut fix = DIFix::new(m);
    fix.run();
    assert_eq!(fix.edits().len(), 1);
    fix.run();
    fix.discover(Some(0));
    assert_eq!(fix.edits().len(), 1);
}

#[test]
fn operands_are_walked_in_order_and_depth_first() {
    let nodes = vec![
        tuple(vec![Operand::Node(1), Operand::Node(3)]),
        subprogram("first", vec![Operand::Node(2)]),
        subprogram("second", vec![]),
        subprogram("third", vec![]),
    ];
    let mut fix = DIFix::new(module(nodes));
    fix.discover(Some(0));
    let order: Vec<NodeId> = fix
        .edits()
        .iter()
        .map(|e| match e {
            Edit::ReplaceOperand { node, .. } => *node,
            _ => unreachable!(),
        })
        .collect();
    assert_eq!(order, vec![1, 2, 3]);
}

#[test]
fn primitive_operands_are_leaves() {
    let nodes = vec![tuple(vec![
        Operand::Null,
        text("token"),
        Operand::EmptyList,
        Operand::Node(1),
        Operand::Null,
    ]), subprogram("f::g", vec![])];
    let mut fix = DIFix::new(module(nodes));
    fix.discover(Some(0));
    assert_eq!(fix.module().nodes[1].operands[2], text("f_3A__3A_g"));
    assert_eq!(fix.module().nodes[0].operands.len(), 5);
}

#[test]
fn plain_values_have_no_operands_to_walk() {
    let nodes = vec![
        value(NodeKind::Value, vec![Operand::Node(1)], vec![attach(0, 1)]),
        subprogram("f<T>", vec![]),
    ];
    let mut fix = DIFix::new(module(nodes));
    fix.discover(Some(0));
    assert!(fix.edits().is_empty());
    assert_eq!(fix.module().nodes[1].operands[2], text("f<T>"));
}

#[test]
fn users_have_operands_but_no_metadata_to_walk() {
    let nodes = vec![
        value(NodeKind::User, vec![Operand::Node(1)], vec![attach(0, 2)]),
        subprogram("used<T>", vec![]),
        subprogram("attached<T>", vec![]),
    ];
    let mut fix = DIFix::new(module(nodes));
    fix.discover(Some(0));
    assert_eq!(fix.module().nodes[1].operands[2], text("used_3C_T_3E_"));
    assert_eq!(fix.module().nodes[2].operands[2], text("attached<T>"));
    assert_eq!(fix.edits().len(), 1);
}

#[test]
fn metadata_nodes_have_no_attached_metadata_to_walk() {
    let mut root = tuple(vec![]);
    root.attachments = vec![attach(0, 1)];
    let mut fix = DIFix::new(module(vec![root, subprogram("f<T>", vec![])]));
    fix.discover(Some(0));
    assert!(fix.edits().is_empty());
}

#[test]
fn metadata_of_a_global_is_walked_then_attached_again() {
    let nodes = vec![
        value(NodeKind::GlobalObject, vec![Operand::Node(3)], vec![attach(0, 1), attach(7, 2)]),
        subprogram("dbg<T>", vec![]),
        tuple(vec![]),
        subprogram("init<T>", vec![]),
    ];
    let mut fix = DIFix::new(module(nodes));
    fix.discover(Some(0));
    assert_eq!(
        fix.edits(),
        &vec![
            Edit::ReplaceOperand { node: 1, index: 2, operand: text("dbg_3C_T_3E_") },
            Edit::GlobalSetMetadata { node: 0, kind: 0, metadata: 1 },
            Edit::GlobalSetMetadata { node: 0, kind: 7, metadata: 2 },
            Edit::ReplaceOperand { node: 3, index: 2, operand: text("init_3C_T_3E_") },
        ]
    );
    assert_eq!(fix.module().nodes[0].attachments, vec![attach(0, 1), attach(7, 2)]);
}

#[test]
fn metadata_of_an_instruction_is_attached_again_as_to_an_instruction() {
    let nodes = vec![
        value(NodeKind::Instruction, vec![], vec![attach(3, 1)]),
        structure("Loc<T>", Operand::Null),
    ];
    let mut fix = DIFix::new(module(nodes));
    fix.discover(Some(0));
    assert_eq!(
        fix.edits(),
        &vec![
            Edit::ReplaceOperand { node: 1, index: 2, operand: text("Loc_3C_T_3E_") },
            Edit::SetMetadata { node: 0, kind: 3, metadata: 1 },
        ]
    );
}

#[test]
fn metadata_discovered_before_is_still_attached_again() {
    let nodes = vec![
        value(NodeKind::GlobalObject, vec![], vec![attach(0, 2)]),
        value(NodeKind::GlobalObject, vec![], vec![attach(0, 2)]),
        subprogram("f<T>", vec![]),
    ];
    let mut m = module(nodes);
    m.globals = vec![0, 1];
    let mut fix = DIFix::new(m);
    fix.run();
    assert_eq!(
        fix.edits(),
        &vec![
            Edit::ReplaceOperand { node: 2, index: 2, operand: text("f_3C_T_3E_") },
            Edit::GlobalSetMetadata { node: 0, kind: 0, metadata: 2 },
            Edit::GlobalSetMetadata { node: 1, kind: 0, metadata: 2 },
        ]
    );
}

#[test]
fn children_of_a_stripped_enum_are_not_walked_through_it() {
    let nodes = vec![
        structure("Shape", Operand::Node(1)),
        tuple(vec![Operand::Node(2)]),
        metadata(
            MetadataKind::CompositeType,
            Some(VARIANT_PART),
            0,
            vec![Operand::Null, Operand::Null, Operand::Null, Operand::Null, Operand::Node(3)],
        ),
        tuple(vec![Operand::Node(4)]),
        subprogram("within<T>", vec![]),
    ];
    let mut fix = DIFix::new(module(nodes));
    fix.discover(Some(0));
    assert_eq!(fix.module().nodes[0].operands[4], Operand::EmptyList);
    assert_eq!(fix.module().nodes[4].operands[2], text("within<T>"));
    assert_eq!(fix.warnings().len(), 1);
    assert_eq!(fix.edits().len(), 3);
}

#[test]
fn warning_takes_its_place_from_the_nearest_ancestor() {
    let nodes = vec![
        value(NodeKind::GlobalObject, vec![], vec![attach(0, 1)]),
        tuple(vec![Operand::Node(2)]),
        metadata(
            MetadataKind::GlobalVariable,
            None,
            31,
            vec![Operand::Null, text("STATE"), Operand::Node(3), Operand::Node(5)],
        ),
        tuple(vec![text("src/state.rs"), text("/work")]),
        tuple(vec![text("unknown")]),
        metadata(
            MetadataKind::CommonBlock,
            None,
            8,
            vec![Operand::Node(6), Operand::Null, Operand::Null, Operand::Node(4)],
        ),
        structure("State", Operand::Node(7)),
        tuple(vec![Operand::Node(8)]),
        metadata(MetadataKind::CompositeType, Some(VARIANT_PART), 0, vec![]),
    ];
    let mut m = module(nodes);
    m.globals = vec![0];
    let mut fix = DIFix::new(m);
    fix.run();
    assert_eq!(
        fix.warnings(),
        &vec![Warning { filename: "src/state.rs".to_owned(), line: 31, name: "State".to_owned() }]
    );
    assert_eq!(
        fix.warnings()[0].message(),
        "at src/state.rs:31: enum State: not emitting BTF for type - see http://none-yet"
    );
}

#[test]
fn warning_without_a_placed_ancestor_falls_back() {
    let nodes = vec![
        value(NodeKind::GlobalObject, vec![], vec![attach(0, 1)]),
        structure("E", Operand::Node(2)),
        tuple(vec![Operand::Node(3)]),
        metadata(MetadataKind::CompositeType, Some(VARIANT_PART), 0, vec![]),
    ];
    let mut m = module(nodes);
    m.globals = vec![0];
    let mut fix = DIFix::new(m);
    fix.run();
    assert_eq!(
        fix.warnings(),
        &vec![Warning { filename: "unknown".to_owned(), line: 0, name: "E".to_owned() }]
    );
}

#[test]
fn run_walks_globals_then_aliases_then_functions() {
    let nodes = vec![
        value(NodeKind::GlobalObject, vec![], vec![attach(0, 4)]),
        value(NodeKind::User, vec![Operand::Node(5)], vec![]),
        value(NodeKind::GlobalObject, vec![], vec![attach(0, 6)]),
        value(NodeKind::GlobalObject, vec![], vec![attach(0, 7)]),
        subprogram("global<T>", vec![]),
        subprogram("alias<T>", vec![]),
        subprogram("fn_a<T>", vec![]),
        subprogram("fn_b<T>", vec![]),
    ];
    let m = Module {
        nodes,
        globals: vec![0],
        aliases: vec![1],
        functions: vec![
            Function { value: 3, params: vec![], blocks: vec![] },
            Function { value: 2, params: vec![], blocks: vec![] },
        ],
    };
    let mut fix = DIFix::new(m);
    fix.run();
    let order: Vec<NodeId> = fix
        .edits()
        .iter()
        .filter_map(|e| match e {
            Edit::ReplaceOperand { node, .. } => Some(*node),
            _ => None,
        })
        .collect();
    assert_eq!(order, vec![4, 5, 7, 6]);
}

#[test]
fn function_is_walked_before_params_and_instructions() {
    let nodes = vec![
        value(NodeKind::GlobalObject, vec![], vec![attach(0, 5)]),
        value(NodeKind::Value, vec![], vec![]),
        value(NodeKind::Instruction, vec![Operand::Node(3), Operand::Node(1)], vec![attach(0, 6)]),
        value(NodeKind::Instruction, vec![], vec![attach(0, 7)]),
        value(NodeKind::Instruction, vec![Operand::Node(2)], vec![attach(0, 8)]),
        subprogram("function<T>", vec![]),
        subprogram("consumer<T>", vec![]),
        subprogram("operand<T>", vec![]),
        subprogram("last<T>", vec![]),
    ];
    let m = Module {
        nodes,
        globals: vec![],
        aliases: vec![],
        functions: vec![Function { value: 0, params: vec![1], blocks: vec![vec![2], vec![3, 4]] }],
    };
    let mut fix = DIFix::new(m);
    fix.run();
    assert_eq!(
        fix.edits(),
        &vec![
            Edit::ReplaceOperand { node: 5, index: 2, operand: text("function_3C_T_3E_") },
            Edit::GlobalSetMetadata { node: 0, kind: 0, metadata: 5 },
            Edit::ReplaceOperand { node: 7, index: 2, operand: text("operand_3C_T_3E_") },
            Edit::SetMetadata { node: 3, kind: 0, metadata: 7 },
            Edit::ReplaceOperand { node: 6, index: 2, operand: text("consumer_3C_T_3E_") },
            Edit::SetMetadata { node: 2, kind: 0, metadata: 6 },
            Edit::ReplaceOperand { node: 8, index: 2, operand: text("last_3C_T_3E_") },
            Edit::SetMetadata { node: 4, kind: 0, metadata: 8 },
        ]
    );
}

#[test]
fn operands_of_an_instruction_that_are_no_instructions_wait_for_it() {
    let nodes = vec![
        value(NodeKind::Instruction, vec![Operand::Node(1), Operand::Node(2)], vec![attach(0, 3)]),
        value(NodeKind::User, vec![Operand::Node(4)], vec![]),
        value(NodeKind::GlobalObject, vec![], vec![attach(0, 5)]),
        subprogram("own<T>", vec![]),
        subprogram("constant<T>", vec![]),
        subprogram("global<T>", vec![]),
    ];
    let m = Module {
        nodes,
        globals: vec![],
        aliases: vec![],
        functions: vec![Function { value: 9, params: vec![], blocks: vec![vec![0]] }],
    };
    let mut fix = DIFix::new(m);
    fix.run();
    let order: Vec<NodeId> = fix
        .edits()
        .iter()
        .filter_map(|e| match e {
            Edit::ReplaceOperand { node, .. } => Some(*node),
            _ => None,
        })
        .collect();
    assert_eq!(order, vec![3, 4, 5]);
}

#[test]
fn module_keeps_its_shape() {
    let nodes = vec![
        value(NodeKind::GlobalObject, vec![Operand::Node(1)], vec![attach(0, 1)]),
        metadata(
            MetadataKind::DerivedType,
            Some(POINTER),
            5,
            vec![text("file"), Operand::Node(2), text("*const T"), Operand::Node(2), Operand::Null],
        ),
        structure("T<U>", Operand::Node(3)),
        tuple(vec![Operand::Node(1)]),
    ];
    let mut m = module(nodes);
    m.globals = vec![0];
    let mut fix = DIFix::new(m);
    fix.run();
    let (after, edits, warnings) = fix.finish();
    assert_eq!(after.globals, vec![0]);
    assert_eq!(after.nodes.len(), 4);
    assert_eq!(
        after.nodes[0],
        value(NodeKind::GlobalObject, vec![Operand::Node(1)], vec![attach(0, 1)])
    );
    assert_eq!(
        after.nodes[1].operands,
        vec![text("file"), Operand::Node(2), text(""), Operand::Node(2), Operand::Null]
    );
    assert_eq!(after.nodes[1].line, 5);
    assert_eq!(after.nodes[1].tag, Some(POINTER));
    assert_eq!(after.nodes[2].operands[2], text("T_3C_U_3E_"));
    assert_eq!(after.nodes[2].operands[4], Operand::Node(3));
    assert_eq!(after.nodes[3], tuple(vec![Operand::Node(1)]));
    assert_eq!(edits.len(), 3);
    assert!(warnings.is_empty());
}

#[test]
fn empty_module_runs() {
    let mut fix = DIFix::new(module(vec![]));
    fix.run();
    assert!(fix.edits().is_empty());
    assert!(fix.warnings().is_empty());
    assert!(fix.module().nodes.is_empty());
}

#[test]
fn deep_chain_is_walked_to_its_end() {
    let depth = 2000;
    let mut nodes = Vec::new();
    for i in 0..depth {
        nodes.push(tuple(vec![Operand::Node(i + 1)]));
    }
    nodes.push(subprogram("end<T>", vec![Operand::Node(0)]));
    let mut fix = DIFix::new(module(nodes));
    fix.discover(Some(0));
    assert_eq!(fix.module().nodes[depth].operands[2], text("end_3C_T_3E_"));
    assert_eq!(fix.edits().len(), 1);
}

fn tangled() -> Module {
    let nodes = vec![
        value(NodeKind::GlobalObject, vec![Operand::Node(1)], vec![attach(0, 2), attach(1, 5)]),
        value(NodeKind::User, vec![Operand::Node(0), Operand::Node(9)], vec![]),
        structure("Outer<Inner>", Operand::Node(3)),
        tuple(vec![Operand::Node(4), Operand::Node(2)]),
        metadata(
            MetadataKind::CompositeType,
            Some(VARIANT_PART),
            0,
            vec![Operand::Null, Operand::Null, Operand::Null, Operand::Null, Operand::Node(3)],
        ),
        metadata(
            MetadataKind::DerivedType,
            Some(POINTER),
            0,
            vec![Operand::Null, Operand::Null, text("&Outer<Inner>"), Operand::Node(2)],
        ),
        structure("HashMap<K, V>", Operand::EmptyList),
        subprogram("never::reached", vec![]),
        value(NodeKind::Instruction, vec![Operand::Node(8)], vec![attach(0, 6)]),
        subprogram("main::{{closure}}", vec![Operand::Node(6)]),
    ];
    Module {
        nodes,
        globals: vec![0],
        aliases: vec![1],
        functions: vec![Function { value: 0, params: vec![], blocks: vec![vec![8]] }],
    }
}

#[test]
fn edits_replayed_on_the_module_as_it_was_give_the_module_as_it_is() {
    let mut fix = DIFix::new(tangled());
    fix.run();
    let (after, edits, _) = fix.finish();
    let mut replayed = tangled();
    for edit in &edits {
        if let Edit::ReplaceOperand { node, index, operand } = edit {
            assert!(replayed.replace_operand(Some(*node), *index, operand.duplicate()));
        }
    }
    assert_eq!(replayed, after);
    assert_ne!(tangled(), after);
}

#[test]
fn only_discovered_metadata_nodes_are_touched() {
    let before = tangled();
    let mut fix = DIFix::new(tangled());
    fix.run();
    let (after, _, warnings) = fix.finish();
    assert_eq!(after.nodes[2].operands[2], text(""));
    assert_eq!(after.nodes[2].operands[4], Operand::EmptyList);
    assert_eq!(after.nodes[5].operands[2], text(""));
    assert_eq!(after.nodes[6].operands[2], text(""));
    assert_eq!(after.nodes[9].operands[2], text("main_3A__3A__7B__7B_closure_7D__7D_"));
    for untouched in [0, 1, 3, 4, 7, 8] {
        assert_eq!(after.nodes[untouched], before.nodes[untouched]);
    }
    assert_eq!(
        warnings,
        vec![Warning {
            filename: "unknown".to_owned(),
            line: 0,
            name: "Outer<Inner>".to_owned()
        }]
    );
}
