//! What holds of the repair rules, whatever the module.

use crate::effects::WarningView;
use crate::ir::{
    MetadataKind, ModuleView, NodeId, NodeKind, OperandView, ELEMENTS_OPERAND, NAME_OPERAND,
};
use crate::location::{file_operand_index, location_at, recovered_location};
use crate::pass::Pass;
use crate::progress::lemma_replace_keeps_shape;
use crate::rules::is_map_name;
use crate::sanitize::sanitized;
use vstd::prelude::*;

verus! {

/// Locations do not depend on names and child lists: two modules that
/// differ in nothing but the name and the child list of one node, which is
/// neither a global variable record nor a common block record, give every
/// stack the same location.
pub proof fn lemma_location_ignores_names(
    before: ModuleView,
    after: ModuleView,
    node: NodeId,
    stack: Seq<NodeId>,
)
    requires
        before.keeps_shape(after),
        forall|i: int|
            0 <= i < before.nodes.len() && i != node ==> after.nodes[i] == before.nodes[i],
        before.node_kind(Some(node)) != Some(NodeKind::Metadata(MetadataKind::GlobalVariable)),
        before.node_kind(Some(node)) != Some(NodeKind::Metadata(MetadataKind::CommonBlock)),
    ensures
        recovered_location(after, stack) == recovered_location(before, stack),
    decreases stack.len(),
{
    if stack.len() > 0 {
        let top = stack.last();
        if top < before.nodes.len() {
            assert(after.nodes[top as int].kind == before.nodes[top as int].kind);
            if top != node {
                assert(after.nodes[top as int] == before.nodes[top as int]);
                let index = file_operand_index(before.node_kind(Some(top)));
                if index is Some {
                    let file = before.operand(Some(top), index->0 as int).handle();
                    if before.resolves(file) {
                        let f = file->0 as int;
                        assert(after.nodes[f].operands.len() == before.nodes[f].operands.len());
                        if before.nodes[f].operands.len() > 0 {
                            assert(after.nodes[f].operands[0] == before.nodes[f].operands[0]);
                        }
                    }
                    assert(after.filename(file) == before.filename(file));
                }
            }
        }
        assert(location_at(after, top) == location_at(before, top));
        lemma_location_ignores_names(before, after, node, stack.drop_last());
    }
}

/// A structure whose first child is a variant part, which is an enum whose
/// variants carry data, comes out of its repair without a name and with an
/// empty child list, and exactly one warning is raised, which carries the
/// name that the node had and the location that the stack gives. No other
/// node is touched.
pub proof fn lemma_variant_enum_is_stripped(pass: Pass, node: NodeId)
    requires
        pass.module.is_variant_enum(node),
    ensures
        ({
            let after = pass.mdnode(node);
            let (filename, line) = recovered_location(pass.module, pass.stack);
            &&& after.module.operand(Some(node), NAME_OPERAND as int) == OperandView::Text(
                Seq::empty(),
            )
            &&& after.module.operand(Some(node), ELEMENTS_OPERAND as int)
                == OperandView::EmptyList
            &&& after.warnings == pass.warnings.push(
                WarningView { filename, line, name: pass.module.record_name(Some(node)) },
            )
            &&& forall|i: int|
                0 <= i < pass.module.nodes.len() && i != node ==> after.module.nodes[i]
                    == pass.module.nodes[i]
        }),
{
    let name = pass.module.record_name(Some(node));
    let first = OperandView::Text(
        if is_map_name(name) {
            Seq::empty()
        } else {
            sanitized(name)
        },
    );
    let renamed = pass.replace(node, NAME_OPERAND, first);
    lemma_replace_keeps_shape(pass, node, NAME_OPERAND, first);
    assert(renamed.module.has_variant_part(node));
    lemma_location_ignores_names(pass.module, renamed.module, node, pass.stack);
}

/// A pointer type that has a name comes out of its repair with an empty
/// name. Its other operands are as they were, no other node is touched, and
/// no warning is raised.
pub proof fn lemma_pointer_loses_its_name(pass: Pass, node: NodeId)
    requires
        pass.module.is_named_pointer(node),
    ensures
        ({
            let after = pass.mdnode(node);
            &&& after.module.operand(Some(node), NAME_OPERAND as int) == OperandView::Text(
                Seq::empty(),
            )
            &&& after.module.operand_count(Some(node)) == pass.module.operand_count(Some(node))
            &&& forall|j: int|
                j != NAME_OPERAND ==> after.module.operand(Some(node), j) == pass.module.operand(
                    Some(node),
                    j,
                )
            &&& forall|i: int|
                0 <= i < pass.module.nodes.len() && i != node ==> after.module.nodes[i]
                    == pass.module.nodes[i]
            &&& after.warnings == pass.warnings
        }),
{
}

} // verus!
