use difix::di::DIFix;
use difix::effects::{Edit, Warning};
use difix::ir::{MetadataKind, Module, Node, NodeKind, Operand};

const POINTER: u16 = 0x0f;
const STRUCTURE: u16 = 0x13;
const UNION: u16 = 0x17;
const VARIANT_PART: u16 = 0x33;
const MEMBER: u16 = 0x0d;

fn text(s: &str) -> Operand {
    Operand::Text(s.to_owned())
}

fn metadata(kind: MetadataKind, tag: Option<u16>, operands: Vec<Operand>) -> Node {
    Node { kind: NodeKind::Metadata(kind), tag, line: 0, operands, attachments: vec![] }
}

fn composite(tag: u16, name: &str, elements: Operand) -> Node {
    metadata(
        MetadataKind::CompositeType,
        Some(tag),
        vec![Operand::Null, Operand::Null, text(name), Operand::Null, elements, text("id")],
    )
}

fn named(name: &str) -> Vec<Operand> {
    vec![Operand::Null, Operand::Null, text(name)]
}

fn module(nodes: Vec<Node>) -> Module {
    Module { nodes, globals: vec![], aliases: vec![], functions: vec![] }
}

fn repaired(nodes: Vec<Node>, node: usize) -> DIFix {
    let mut fix = DIFix::new(module(nodes));
    fix.mdnode(node);
    fix
}

#[test]
fn structure_name_is_sanitized() {
    let fix = repaired(vec![composite(STRUCTURE, "MyStruct<u64>", Operand::Null)], 0);
    assert_eq!(fix.module().nodes[0].operands[2], text("MyStruct_3C_u64_3E_"));
    assert_eq!(
        fix.edits(),
        &vec![Edit::ReplaceOperand { node: 0, index: 2, operand: text("MyStruct_3C_u64_3E_") }]
    );
    assert!(fix.warnings().is_empty());
}

#[test]
fn hash_map_name_is_erased() {
    let fix = repaired(vec![composite(STRUCTURE, "HashMap<u32, u64>", Operand::Null)], 0);
    assert_eq!(fix.module().nodes[0].operands[2], text(""));
    assert_eq!(fix.edits(), &vec![Edit::ReplaceOperand { node: 0, index: 2, operand: text("") }]);
}

#[test]
fn only_the_hash_map_prefix_erases_a_name() {
    let fix = repaired(vec![composite(STRUCTURE, "HashMap", Operand::Null)], 0);
    assert_eq!(fix.module().nodes[0].operands[2], text("HashMap"));
    let fix = repaired(vec![composite(STRUCTURE, "MyHashMap<u8>", Operand::Null)], 0);
    assert_eq!(fix.module().nodes[0].operands[2], text("MyHashMap_3C_u8_3E_"));
    let fix = repaired(vec![composite(STRUCTURE, "HashMap<", Operand::Null)], 0);
    assert_eq!(fix.module().nodes[0].operands[2], text(""));
}

#[test]
fn structure_without_a_name_gets_an_empty_one() {
    let mut node = composite(STRUCTURE, "", Operand::Null);
    node.operands[2] = Operand::Null;
    let fix = repaired(vec![node], 0);
    assert_eq!(fix.module().nodes[0].operands[2], text(""));
}

#[test]
fn variant_enum_is_stripped() {
    let nodes = vec![
        composite(STRUCTURE, "Shape", Operand::Node(1)),
        metadata(MetadataKind::Other, None, vec![Operand::Node(2)]),
        composite(VARIANT_PART, "", Operand::Null),
    ];
    let fix = repaired(nodes, 0);
    let node = &fix.module().nodes[0];
    assert_eq!(node.operands[2], text(""));
    assert_eq!(node.operands[4], Operand::EmptyList);
    assert_eq!(node.operands[5], text("id"));
    assert_eq!(
        fix.warnings(),
        &vec![Warning { filename: "unknown".to_owned(), line: 0, name: "Shape".to_owned() }]
    );
    assert_eq!(
        fix.edits(),
        &vec![
            Edit::ReplaceOperand { node: 0, index: 2, operand: text("Shape") },
            Edit::ReplaceOperand { node: 0, index: 4, operand: Operand::EmptyList },
            Edit::ReplaceOperand { node: 0, index: 2, operand: text("") },
        ]
    );
    assert_eq!(fix.module().nodes[1].operands, vec![Operand::Node(2)]);
}

#[test]
fn variant_enum_warning_carries_the_name_as_it_was() {
    let nodes = vec![
        composite(STRUCTURE, "Option<u32>", Operand::Node(1)),
        metadata(MetadataKind::Other, None, vec![Operand::Node(2), Operand::Null]),
        composite(VARIANT_PART, "", Operand::Null),
    ];
    let fix = repaired(nodes, 0);
    assert_eq!(fix.warnings().len(), 1);
    assert_eq!(fix.warnings()[0].name, "Option<u32>");
    assert_eq!(
        fix.warnings()[0].message(),
        "at unknown:0: enum Option<u32>: not emitting BTF for type - see http://none-yet"
    );
}

#[test]
fn variant_part_must_be_the_first_child() {
    let nodes = vec![
        composite(STRUCTURE, "Pair", Operand::Node(1)),
        metadata(MetadataKind::Other, None, vec![Operand::Node(3), Operand::Node(2)]),
        composite(VARIANT_PART, "", Operand::Null),
        metadata(MetadataKind::DerivedType, Some(MEMBER), vec![]),
    ];
    let fix = repaired(nodes, 0);
    assert_eq!(fix.module().nodes[0].operands[2], text("Pair"));
    assert_eq!(fix.module().nodes[0].operands[4], Operand::Node(1));
    assert!(fix.warnings().is_empty());
}

#[test]
fn structure_without_children_is_only_renamed() {
    for elements in [
        Operand::Null,
        Operand::EmptyList,
        Operand::Text("x".to_owned()),
        Operand::Node(1),
        Operand::Node(77),
    ] {
        let nodes = vec![
            composite(STRUCTURE, "Unit<T>", elements.duplicate()),
            metadata(MetadataKind::Other, None, vec![]),
        ];
        let fix = repaired(nodes, 0);
        assert_eq!(fix.module().nodes[0].operands[2], text("Unit_3C_T_3E_"));
        assert_eq!(fix.module().nodes[0].operands[4], elements);
        assert!(fix.warnings().is_empty());
    }
}

#[test]
fn first_child_without_a_tag_is_no_variant_part() {
    let nodes = vec![
        composite(STRUCTURE, "S", Operand::Node(1)),
        metadata(MetadataKind::Other, None, vec![Operand::Null]),
    ];
    let fix = repaired(nodes, 0);
    assert_eq!(fix.module().nodes[0].operands[4], Operand::Node(1));
    assert!(fix.warnings().is_empty());
}

#[test]
fn composite_of_another_tag_is_left_alone() {
    let nodes = vec![
        composite(UNION, "U<T>", Operand::Node(1)),
        metadata(MetadataKind::Other, None, vec![Operand::Node(2)]),
        composite(VARIANT_PART, "", Operand::Null),
        metadata(
            MetadataKind::CompositeType,
            None,
            vec![Operand::Null, Operand::Null, text("a b")],
        ),
    ];
    let fix = repaired(nodes, 0);
    assert_eq!(fix.module().nodes[0].operands[2], text("U<T>"));
    assert_eq!(fix.module().nodes[0].operands[4], Operand::Node(1));
    assert!(fix.edits().is_empty());
    assert!(fix.warnings().is_empty());
    let mut fix = fix;
    fix.mdnode(3);
    assert_eq!(fix.module().nodes[3].operands[2], text("a b"));
    assert!(fix.edits().is_empty());
}

#[test]
fn pointer_name_is_erased() {
    let pointer = metadata(
        MetadataKind::DerivedType,
        Some(POINTER),
        vec![
            Operand::Node(9),
            Operand::Null,
            text("*mut Foo<Bar>"),
            Operand::Node(1),
            Operand::Node(2),
            text("extra"),
        ],
    );
    let fix = repaired(vec![pointer, composite(STRUCTURE, "Foo<Bar>", Operand::Null)], 0);
    assert_eq!(
        fix.module().nodes[0].operands,
        vec![
            Operand::Node(9),
            Operand::Null,
            text(""),
            Operand::Node(1),
            Operand::Node(2),
            text("extra"),
        ]
    );
    assert_eq!(fix.module().nodes[1].operands[2], text("Foo<Bar>"));
    assert_eq!(fix.edits(), &vec![Edit::ReplaceOperand { node: 0, index: 2, operand: text("") }]);
    assert!(fix.warnings().is_empty());
}

#[test]
fn derived_type_of_another_tag_is_left_alone() {
    let member = metadata(
        MetadataKind::DerivedType,
        Some(MEMBER),
        vec![Operand::Null, Operand::Null, text("field<T>")],
    );
    let untagged = metadata(
        MetadataKind::DerivedType,
        None,
        vec![Operand::Null, Operand::Null, text("p<T>")],
    );
    let mut fix = DIFix::new(module(vec![member, untagged]));
    fix.mdnode(0);
    fix.mdnode(1);
    assert_eq!(fix.module().nodes[0].operands[2], text("field<T>"));
    assert_eq!(fix.module().nodes[1].operands[2], text("p<T>"));
    assert!(fix.edits().is_empty());
}

#[test]
fn subprogram_name_is_sanitized_whatever_its_tag() {
    for tag in [None, Some(0x2e), Some(STRUCTURE), Some(POINTER)] {
        let subprogram = metadata(
            MetadataKind::Subprogram,
            tag,
            vec![Operand::Null, Operand::Null, text("my_function<aya_bpf::BpfContext>")],
        );
        let fix = repaired(vec![subprogram], 0);
        assert_eq!(
            fix.module().nodes[0].operands[2],
            text("my_function_3C_aya_bpf_3A__3A_BpfContext_3E_")
        );
    }
}

#[test]
fn subprogram_named_like_a_hash_map_keeps_a_name() {
    let subprogram = metadata(
        MetadataKind::Subprogram,
        None,
        vec![Operand::Null, Operand::Null, text("HashMap<K, V>")],
    );
    let fix = repaired(vec![subprogram], 0);
    assert_eq!(fix.module().nodes[0].operands[2], text("HashMap_3C_K_2C__20_V_3E_"));
}

#[test]
fn other_nodes_are_left_alone() {
    let nodes = vec![
        metadata(MetadataKind::GlobalVariable, Some(STRUCTURE), named("a<b>")),
        metadata(MetadataKind::CommonBlock, Some(POINTER), named("a<b>")),
        metadata(MetadataKind::Other, Some(STRUCTURE), named("a<b>")),
        Node {
            kind: NodeKind::Instruction,
            tag: Some(STRUCTURE),
            line: 0,
            operands: named("a<b>"),
            attachments: vec![],
        },
    ];
    let mut fix = DIFix::new(module(nodes));
    for node in 0..6 {
        fix.mdnode(node);
    }
    for node in 0..4 {
        assert_eq!(fix.module().nodes[node].operands[2], text("a<b>"));
    }
    assert!(fix.edits().is_empty());
    assert!(fix.warnings().is_empty());
}

#[test]
fn record_without_a_name_operand_is_left_alone() {
    let nodes = vec![
        metadata(MetadataKind::Subprogram, None, vec![Operand::Null, text("f<T>")]),
        metadata(MetadataKind::DerivedType, Some(POINTER), vec![]),
        metadata(MetadataKind::CompositeType, Some(STRUCTURE), vec![text("S<T>")]),
    ];
    let mut fix = DIFix::new(module(nodes));
    fix.mdnode(0);
    fix.mdnode(1);
    fix.mdnode(2);
    assert_eq!(fix.module().nodes[0].operands, vec![Operand::Null, text("f<T>")]);
    assert_eq!(fix.module().nodes[1].operands, vec![]);
    assert_eq!(fix.module().nodes[2].operands, vec![text("S<T>")]);
    assert!(fix.edits().is_empty());
}
