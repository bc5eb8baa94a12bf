//! The repair rules, as what they make of a node.

use crate::dwarf::{POINTER_TYPE, STRUCTURE_TYPE, VARIANT_PART};
use crate::ir::{
    MetadataKind, ModuleView, NodeId, NodeKind, NodeView, OperandView, ELEMENTS_OPERAND,
    NAME_OPERAND,
};
use crate::sanitize::sanitized;
use vstd::prelude::*;

verus! {

/// Whether a type name is that of a hash map, whose record must stay
/// without a name.
pub open spec fn is_map_name(name: Seq<char>) -> bool {
    "HashMap<"@.is_prefix_of(name)
}

impl ModuleView {
    /// Whether the first child of a composite type record is the variant
    /// part of an enum.
    pub open spec fn has_variant_part(self, node: NodeId) -> bool {
        let elements = self.operand(Some(node), ELEMENTS_OPERAND as int).handle();
        let element = self.operand(elements, 0).handle();
        &&& self.operand_count(elements) > 0
        &&& self.structural_tag(element) == Some(VARIANT_PART)
    }

    /// Whether a node is the record of an enum whose variants carry data: a
    /// structure whose first child is a variant part.
    pub open spec fn is_variant_enum(self, node: NodeId) -> bool {
        &&& self.node_kind(Some(node)) == Some(NodeKind::Metadata(MetadataKind::CompositeType))
        &&& self.structural_tag(Some(node)) == Some(STRUCTURE_TYPE)
        &&& self.has_variant_part(node)
    }

    /// Whether a node is the record of a pointer type that has a name.
    pub open spec fn is_named_pointer(self, node: NodeId) -> bool {
        &&& self.node_kind(Some(node)) == Some(NodeKind::Metadata(MetadataKind::DerivedType))
        &&& self.structural_tag(Some(node)) == Some(POINTER_TYPE)
        &&& self.record_name(Some(node)).len() > 0
    }

    /// A node of the module as its repair leaves it. An enum whose variants
    /// carry data has an empty name and an empty child list; any other
    /// structure has its name sanitized, or erased where it is the name of a
    /// hash map; a pointer type has an empty name; a subprogram has its name
    /// sanitized; any other node is as it was.
    #[verifier::opaque]
    pub open spec fn repaired(self, node: NodeId) -> NodeView {
        let record = self.nodes[node as int];
        let name = self.record_name(Some(node));
        let erased = OperandView::Text(Seq::empty());
        match record.kind {
            NodeKind::Metadata(MetadataKind::CompositeType) => {
                if record.tag != Some(STRUCTURE_TYPE) {
                    record
                } else if self.has_variant_part(node) {
                    record.with_operand(NAME_OPERAND as int, erased).with_operand(
                        ELEMENTS_OPERAND as int,
                        OperandView::EmptyList,
                    )
                } else if is_map_name(name) {
                    record.with_operand(NAME_OPERAND as int, erased)
                } else {
                    record.with_operand(NAME_OPERAND as int, OperandView::Text(sanitized(name)))
                }
            },
            NodeKind::Metadata(MetadataKind::DerivedType) => {
                if record.tag == Some(POINTER_TYPE) {
                    record.with_operand(NAME_OPERAND as int, erased)
                } else {
                    record
                }
            },
            NodeKind::Metadata(MetadataKind::Subprogram) => {
                record.with_operand(NAME_OPERAND as int, OperandView::Text(sanitized(name)))
            },
            _ => record,
        }
    }
}

/// What the repair makes of a node depends on the shape of the module and
/// on the node alone.
pub proof fn lemma_repaired_is_stable(before: ModuleView, after: ModuleView, node: NodeId)
    requires
        before.keeps_shape(after),
        node < before.nodes.len(),
        after.nodes[node as int] == before.nodes[node as int],
    ensures
        after.repaired(node) == before.repaired(node),
{
    reveal(ModuleView::repaired);
    let elements = before.operand(Some(node), ELEMENTS_OPERAND as int).handle();
    if before.resolves(elements) {
        let e = elements->0 as int;
        assert(after.nodes[e].operands.len() == before.nodes[e].operands.len());
        if before.nodes[e].operands.len() > 0 {
            assert(after.nodes[e].operands[0] == before.nodes[e].operands[0]);
            let element = before.operand(elements, 0).handle();
            if before.resolves(element) {
                assert(after.nodes[element->0 as int].tag == before.nodes[element->0 as int].tag);
            }
        }
    }
    assert(after.has_variant_part(node) == before.has_variant_part(node));
}

} // verus!
