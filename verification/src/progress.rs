//! How a pass goes on: what every step keeps, and what it adds.

use crate::effects::WarningView;
use crate::ir::{
    Attachment, ModuleView, NodeId, NodeView, OperandView, ELEMENTS_OPERAND, NAME_OPERAND,
};
use crate::location::recovered_location;
use crate::origin::{lemma_stays_with_roots_reflexive, lemma_stays_with_roots_transitive};
use crate::pass::Pass;
use crate::reach::lemma_closed_reattach;
use crate::replay::{
    lemma_mdnode_replays, lemma_reattach_replays, lemma_replays_to_reflexive,
    lemma_replays_to_same, lemma_replays_to_transitive,
};
use crate::rules::{is_map_name, lemma_repaired_is_stable};
use crate::sanitize::sanitized;
use vstd::prelude::*;

verus! {

impl Pass {
    /// Whether the repair rules were applied exactly once to every metadata
    /// node that is discovered, and to no other node.
    pub open spec fn dispatched_once(self) -> bool {
        &&& self.dispatched.no_duplicates()
        &&& forall|i: int|
            0 <= i < self.dispatched.len() ==> {
                let node = #[trigger] self.dispatched[i];
                &&& node < self.module.nodes.len()
                &&& self.visited.contains(node as u64)
                &&& self.module.nodes[node as int].kind.is_mdnode()
            }
        &&& forall|node: NodeId|
            node < self.module.nodes.len() && self.visited.contains(node as u64)
                && self.module.nodes[node as int].kind.is_mdnode()
                ==> #[trigger] self.dispatched.contains(node)
    }

    /// What a node of the module is once the nodes of `visited` are
    /// discovered: repaired, if it is a metadata node that was not
    /// discovered before; else as it is.
    pub open spec fn node_after(self, visited: Set<u64>, node: NodeId) -> NodeView {
        if visited.contains(node as u64) && !self.visited.contains(node as u64)
            && self.module.nodes[node as int].kind.is_mdnode() {
            self.module.repaired(node)
        } else {
            self.module.nodes[node as int]
        }
    }

    /// Whether every node of `later` is as it is here, but for the metadata
    /// nodes discovered since, which are repaired.
    pub open spec fn repairs_to(self, later: Pass) -> bool {
        forall|node: NodeId|
            node < self.module.nodes.len() ==> #[trigger] later.module.nodes[node as int]
                == self.node_after(later.visited, node)
    }

    /// Whether `later` can come after this state in a pass. The module
    /// keeps its shape; what was discovered stays discovered, and a node that
    /// was discovered is not touched again; and what was recorded of edits,
    /// warnings and repairs is only added to.
    pub open spec fn leads_to(self, later: Pass) -> bool {
        &&& self.grows_to(later)
        &&& self.module.keeps_shape(later.module)
        &&& forall|i: int|
            0 <= i < self.module.nodes.len() && self.visited.contains(i as u64)
                ==> #[trigger] later.module.nodes[i] == self.module.nodes[i]
        &&& self.edits.is_prefix_of(later.edits)
        &&& self.warnings.is_prefix_of(later.warnings)
        &&& self.dispatched.is_prefix_of(later.dispatched)
    }

    /// Whether `later` can come after this state at any point of a walk:
    /// the pass has gone on, the metadata nodes discovered since are
    /// repaired and nothing else is touched, and the edits recorded since
    /// give the module when they are replayed.
    pub open spec fn moves_to(self, later: Pass) -> bool {
        &&& self.leads_to(later)
        &&& self.repairs_to(later)
        &&& self.replays_to(later)
    }

    /// Whether `later` can come after this state once a walk is over: the
    /// pass has moved on, the stack is as it was, no node has been repaired
    /// twice if none had been before, and every discovered node off the
    /// stack is settled if that was so before.
    pub open spec fn goes_to(self, later: Pass) -> bool {
        &&& self.moves_to(later)
        &&& later.stack == self.stack
        &&& self.dispatched_once() ==> later.dispatched_once()
        &&& self.closed() ==> later.closed()
    }

    /// Whether `later` can come after this state once a walk from a root is
    /// over: as after any walk, and what is discovered since comes from the
    /// roots.
    pub open spec fn walks_to(self, later: Pass) -> bool {
        &&& self.goes_to(later)
        &&& self.stays_with_roots(later)
    }
}

/// Keeping the shape carries over from step to step.
pub proof fn lemma_keeps_shape_transitive(first: ModuleView, second: ModuleView, third: ModuleView)
    requires
        first.keeps_shape(second),
        second.keeps_shape(third),
    ensures
        first.keeps_shape(third),
{
    assert forall|i: int| 0 <= i < first.nodes.len() implies {
        let (old_node, new_node) = (#[trigger] first.nodes[i], third.nodes[i]);
        &&& new_node.kind == old_node.kind
        &&& new_node.tag == old_node.tag
        &&& new_node.line == old_node.line
        &&& new_node.attachments == old_node.attachments
        &&& new_node.operands.len() == old_node.operands.len()
        &&& forall|j: int|
            0 <= j < old_node.operands.len() && j != NAME_OPERAND && j != ELEMENTS_OPERAND
                ==> #[trigger] new_node.operands[j] == old_node.operands[j]
    } by {
        let middle = second.nodes[i];
        assert forall|j: int|
            0 <= j < first.nodes[i].operands.len() && j != NAME_OPERAND && j != ELEMENTS_OPERAND
            implies #[trigger] third.nodes[i].operands[j] == first.nodes[i].operands[j] by {
            assert(middle.operands[j] == first.nodes[i].operands[j]);
        }
    }
}

/// Replacing a name or a child list keeps the shape of the module, and
/// touches no node but the one it is made on.
pub proof fn lemma_replace_keeps_shape(pass: Pass, node: NodeId, index: usize, operand: OperandView)
    requires
        index == NAME_OPERAND || index == ELEMENTS_OPERAND,
    ensures
        pass.module.keeps_shape(pass.replace(node, index, operand).module),
        pass.replace(node, index, operand).visited == pass.visited,
        pass.replace(node, index, operand).stack == pass.stack,
        pass.replace(node, index, operand).warnings == pass.warnings,
        pass.replace(node, index, operand).dispatched == pass.dispatched,
        pass.edits.is_prefix_of(pass.replace(node, index, operand).edits),
        forall|i: int|
            0 <= i < pass.module.nodes.len() && i != node ==> #[trigger] pass.replace(
                node,
                index,
                operand,
            ).module.nodes[i] == pass.module.nodes[i],
{
}

/// Repairing a node keeps the shape of the module, and touches no other
/// node.
pub proof fn lemma_repair_keeps_shape(pass: Pass, node: NodeId)
    ensures
        pass.module.keeps_shape(pass.repair(node).module),
        pass.repair(node).visited == pass.visited,
        pass.repair(node).stack == pass.stack,
        pass.repair(node).dispatched == pass.dispatched,
        pass.edits.is_prefix_of(pass.repair(node).edits),
        pass.warnings.is_prefix_of(pass.repair(node).warnings),
        forall|i: int|
            0 <= i < pass.module.nodes.len() && i != node ==> #[trigger] pass.repair(
                node,
            ).module.nodes[i] == pass.module.nodes[i],
{
    let name = pass.module.record_name(Some(node));
    let first = OperandView::Text(
        if is_map_name(name) {
            Seq::empty()
        } else {
            sanitized(name)
        },
    );
    let erased = OperandView::Text(Seq::empty());
    let renamed = pass.replace(node, NAME_OPERAND, first);
    lemma_replace_keeps_shape(pass, node, NAME_OPERAND, first);
    lemma_replace_keeps_shape(pass, node, NAME_OPERAND, erased);
    lemma_replace_keeps_shape(pass, node, NAME_OPERAND, OperandView::Text(sanitized(name)));
    let (filename, line) = recovered_location(renamed.module, renamed.stack);
    let warned = renamed.warn(WarningView { filename, line, name });
    let stripped = warned.replace(node, ELEMENTS_OPERAND, OperandView::EmptyList);
    lemma_replace_keeps_shape(warned, node, ELEMENTS_OPERAND, OperandView::EmptyList);
    lemma_replace_keeps_shape(stripped, node, NAME_OPERAND, erased);
    lemma_keeps_shape_transitive(pass.module, renamed.module, stripped.module);
    lemma_keeps_shape_transitive(
        pass.module,
        stripped.module,
        stripped.replace(node, NAME_OPERAND, erased).module,
    );
}

/// The repair rules make of a node what [`ModuleView::repaired`] says, and
/// touch no other node.
pub proof fn lemma_repair_is_repaired(pass: Pass, node: NodeId)
    requires
        node < pass.module.nodes.len(),
    ensures
        pass.repair(node).module.nodes == pass.module.nodes.update(
            node as int,
            pass.module.repaired(node),
        ),
{
    reveal(ModuleView::repaired);
    let after = pass.repair(node).module.nodes;
    let wanted = pass.module.nodes.update(node as int, pass.module.repaired(node));
    lemma_repair_keeps_shape(pass, node);
    let name = pass.module.record_name(Some(node));
    let first = OperandView::Text(
        if is_map_name(name) {
            Seq::empty()
        } else {
            sanitized(name)
        },
    );
    let renamed = pass.replace(node, NAME_OPERAND, first);
    assert(renamed.module.has_variant_part(node) == pass.module.has_variant_part(node));
    assert(after[node as int].operands =~= wanted[node as int].operands);
    assert(after =~= wanted);
}

/// What a pass can come to, step by step, it can come to.
pub proof fn lemma_leads_to_transitive(first: Pass, second: Pass, third: Pass)
    requires
        first.leads_to(second),
        second.leads_to(third),
    ensures
        first.leads_to(third),
{
    lemma_keeps_shape_transitive(first.module, second.module, third.module);
    assert forall|i: int|
        0 <= i < first.module.nodes.len() && first.visited.contains(i as u64)
        implies #[trigger] third.module.nodes[i] == first.module.nodes[i] by {
        assert(second.module.nodes[i] == first.module.nodes[i]);
    }
}

/// Discovering a node and repairing it is a step that a pass can take.
pub proof fn lemma_enter_leads(pass: Pass, node: NodeId)
    requires
        !pass.visited.contains(node as u64),
    ensures
        pass.leads_to(pass.enter(node)),
        pass.leads_to(pass.enter(node).mdnode(node)),
{
    lemma_repair_keeps_shape(pass.enter(node), node);
}

/// Attaching metadata again is a step that a pass can take.
pub proof fn lemma_reattach_leads(pass: Pass, node: NodeId, attachment: Attachment)
    ensures
        pass.leads_to(pass.reattach(node, attachment)),
{
}

/// Repairs carry over from step to step.
pub proof fn lemma_repairs_to_transitive(first: Pass, second: Pass, third: Pass)
    requires
        first.leads_to(second),
        second.leads_to(third),
        first.repairs_to(second),
        second.repairs_to(third),
    ensures
        first.repairs_to(third),
{
    assert forall|node: NodeId| node < first.module.nodes.len() implies
        #[trigger] third.module.nodes[node as int] == first.node_after(third.visited, node) by {
        let i = node as int;
        assert(second.module.nodes[i] == first.node_after(second.visited, node));
        assert(third.module.nodes[i] == second.node_after(third.visited, node));
        assert(second.module.nodes[i].kind == first.module.nodes[i].kind);
        if second.visited.contains(node as u64) {
            assert(third.module.nodes[i] == second.module.nodes[i]);
        } else {
            assert(!first.visited.contains(node as u64));
            assert(second.module.nodes[i] == first.module.nodes[i]);
            lemma_repaired_is_stable(first.module, second.module, node);
        }
    }
}

/// Discovering a node, and repairing it if it is a metadata node, leaves
/// it repaired and touches nothing else.
pub proof fn lemma_enter_repairs(pass: Pass, node: NodeId)
    requires
        node < pass.module.nodes.len(),
        !pass.visited.contains(node as u64),
    ensures
        pass.module.nodes[node as int].kind.is_mdnode() ==> pass.repairs_to(
            pass.enter(node).mdnode(node),
        ),
        !pass.module.nodes[node as int].kind.is_mdnode() ==> pass.repairs_to(pass.enter(node)),
{
    let entered = pass.enter(node);
    if pass.module.nodes[node as int].kind.is_mdnode() {
        let fixed = entered.mdnode(node);
        lemma_repair_is_repaired(entered, node);
        assert forall|other: NodeId| other < pass.module.nodes.len() implies
            #[trigger] fixed.module.nodes[other as int] == pass.node_after(
            fixed.visited,
            other,
        ) by {}
    }
}

/// Attaching metadata again touches no node.
pub proof fn lemma_reattach_repairs(pass: Pass, node: NodeId, attachment: Attachment)
    ensures
        pass.repairs_to(pass.reattach(node, attachment)),
{
}

/// Discovering a node, and repairing it if it is a metadata node, keeps the
/// count of repairs right: once for each metadata node that is discovered.
pub proof fn lemma_enter_dispatches_once(pass: Pass, node: NodeId)
    requires
        pass.dispatched_once(),
        node < pass.module.nodes.len(),
        !pass.visited.contains(node as u64),
    ensures
        pass.module.nodes[node as int].kind.is_mdnode() ==> pass.enter(node).mdnode(
            node,
        ).dispatched_once(),
        !pass.module.nodes[node as int].kind.is_mdnode() ==> pass.enter(node).dispatched_once(),
{
    let entered = pass.enter(node);
    if pass.module.nodes[node as int].kind.is_mdnode() {
        let fixed = entered.mdnode(node);
        lemma_repair_keeps_shape(entered, node);
        assert(fixed.dispatched == pass.dispatched.push(node));
        assert forall|other: NodeId|
            other < fixed.module.nodes.len() && fixed.visited.contains(other as u64)
                && fixed.module.nodes[other as int].kind.is_mdnode()
            implies #[trigger] fixed.dispatched.contains(other) by {
            assert(fixed.module.nodes[other as int].kind == pass.module.nodes[other as int].kind);
            if other == node {
                assert(fixed.dispatched[pass.dispatched.len() as int] == node);
            } else {
                assert(pass.dispatched.contains(other));
                let i = choose|i: int|
                    0 <= i < pass.dispatched.len() && pass.dispatched[i] == other;
                assert(fixed.dispatched[i] == other);
            }
        }
        assert forall|i: int| 0 <= i < fixed.dispatched.len() implies {
            let n = #[trigger] fixed.dispatched[i];
            &&& n < fixed.module.nodes.len()
            &&& fixed.visited.contains(n as u64)
            &&& fixed.module.nodes[n as int].kind.is_mdnode()
        } by {
            let n = fixed.dispatched[i];
            if i < pass.dispatched.len() {
                assert(n == pass.dispatched[i]);
            }
            assert(fixed.module.nodes[n as int].kind == pass.module.nodes[n as int].kind);
        }
    } else {
        assert forall|other: NodeId|
            other < entered.module.nodes.len() && entered.visited.contains(other as u64)
                && entered.module.nodes[other as int].kind.is_mdnode()
            implies #[trigger] entered.dispatched.contains(other) by {
            assert(other != node);
            assert(pass.dispatched.contains(other));
        }
    }
}

/// A node that is no metadata node is never touched.
pub proof fn lemma_value_is_untouched(pass: Pass, later: Pass, node: NodeId)
    requires
        pass.repairs_to(later),
        node < pass.module.nodes.len(),
        !pass.module.nodes[node as int].kind.is_mdnode(),
    ensures
        later.module.nodes[node as int] == pass.module.nodes[node as int],
{
    assert(later.module.nodes[node as int] == pass.node_after(later.visited, node));
}

/// A pass can stay where it is.
pub proof fn lemma_moves_to_reflexive(pass: Pass)
    ensures
        pass.moves_to(pass),
{
    lemma_replays_to_reflexive(pass);
}

/// Where a pass can move step by step, it can move.
pub proof fn lemma_moves_to_transitive(first: Pass, second: Pass, third: Pass)
    requires
        first.moves_to(second),
        second.moves_to(third),
    ensures
        first.moves_to(third),
{
    lemma_leads_to_transitive(first, second, third);
    lemma_repairs_to_transitive(first, second, third);
    lemma_replays_to_transitive(first, second, third);
}

/// Discovering a node, and repairing it if it is a metadata node, is a
/// move that a pass can make.
pub proof fn lemma_enter_moves(pass: Pass, node: NodeId)
    requires
        node < pass.module.nodes.len(),
        !pass.visited.contains(node as u64),
    ensures
        !pass.module.nodes[node as int].kind.is_mdnode() ==> pass.moves_to(pass.enter(node)),
        pass.module.nodes[node as int].kind.is_mdnode() ==> pass.moves_to(
            pass.enter(node).mdnode(node),
        ),
{
    let entered = pass.enter(node);
    lemma_enter_leads(pass, node);
    lemma_enter_repairs(pass, node);
    lemma_replays_to_same(pass, entered);
    lemma_mdnode_replays(entered, node);
    lemma_replays_to_transitive(pass, entered, entered.mdnode(node));
}

/// Attaching metadata again ends a walk as it was.
pub proof fn lemma_reattach_goes(pass: Pass, node: NodeId, attachment: Attachment)
    ensures
        pass.goes_to(pass.reattach(node, attachment)),
{
    lemma_reattach_leads(pass, node, attachment);
    lemma_reattach_repairs(pass, node, attachment);
    lemma_reattach_replays(pass, node, attachment);
    if pass.closed() {
        lemma_closed_reattach(pass, node, attachment);
    }
}

/// Taking a node off the stack is a move that a pass can make.
pub proof fn lemma_leave_moves(pass: Pass)
    ensures
        pass.moves_to(pass.leave()),
{
    lemma_replays_to_same(pass, pass.leave());
}

/// A walk that does nothing is a walk.
pub proof fn lemma_goes_to_reflexive(pass: Pass)
    ensures
        pass.goes_to(pass),
{
    lemma_moves_to_reflexive(pass);
}

/// One walk after another is a walk.
pub proof fn lemma_goes_to_transitive(first: Pass, second: Pass, third: Pass)
    requires
        first.goes_to(second),
        second.goes_to(third),
    ensures
        first.goes_to(third),
{
    lemma_moves_to_transitive(first, second, third);
}

/// A walk from the roots that does nothing is a walk from the roots.
pub proof fn lemma_walks_to_reflexive(pass: Pass)
    ensures
        pass.walks_to(pass),
{
    lemma_goes_to_reflexive(pass);
    lemma_stays_with_roots_reflexive(pass, pass);
}

/// One walk from the roots after another is a walk from the roots.
pub proof fn lemma_walks_to_transitive(first: Pass, second: Pass, third: Pass)
    requires
        first.walks_to(second),
        second.walks_to(third),
    ensures
        first.walks_to(third),
{
    lemma_goes_to_transitive(first, second, third);
    lemma_stays_with_roots_transitive(first, second, third);
}

} // verus!
