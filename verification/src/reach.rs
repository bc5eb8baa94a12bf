//! What a walk has reached: which nodes it is through with, and that in
//! the end it is through with all that can be reached.

use crate::ir::{Attachment, FunctionView, ModuleView, NodeId};
use crate::pass::Pass;
use crate::progress::{lemma_enter_leads, lemma_repair_keeps_shape};
use vstd::prelude::*;

verus! {

impl Pass {
    /// Whether the walk has nothing left to do for `handle`: it names no
    /// node, or one that is discovered.
    pub open spec fn seen(self, handle: Option<NodeId>) -> bool {
        self.module.resolves(handle) ==> self.visited.contains(handle->0 as u64)
    }

    /// Whether the walk has nothing left to do for any of `roots`.
    pub open spec fn seen_all(self, roots: Seq<NodeId>) -> bool {
        forall|i: int| 0 <= i < roots.len() ==> self.seen(Some(#[trigger] roots[i]))
    }

    /// Whether the walk has nothing left to do for the first `count` of
    /// `roots`.
    pub open spec fn seen_first(self, roots: Seq<NodeId>, count: int) -> bool {
        forall|i: int| 0 <= i < count && i < roots.len() ==> self.seen(Some(#[trigger] roots[i]))
    }

    /// Whether the walk has nothing left to do for the first `count` basic
    /// blocks of `blocks`.
    pub open spec fn blocks_seen(self, blocks: Seq<Seq<NodeId>>, count: int) -> bool {
        forall|b: int| 0 <= b < count && b < blocks.len() ==> self.seen_all(#[trigger] blocks[b])
    }

    /// Whether the walk has nothing left to do for the roots that a function
    /// gives.
    pub open spec fn function_seen(self, function: FunctionView) -> bool {
        &&& self.seen(Some(function.value))
        &&& self.seen_all(function.params)
        &&& self.blocks_seen(function.blocks, function.blocks.len() as int)
    }

    /// Whether the walk has nothing left to do for the first `count` of
    /// `functions`.
    pub open spec fn functions_seen(self, functions: Seq<FunctionView>, count: int) -> bool {
        forall|f: int|
            0 <= f < count && f < functions.len() ==> self.function_seen(#[trigger] functions[f])
    }

    /// Whether the walk has nothing left to do for any root of the module.
    pub open spec fn roots_seen(self) -> bool {
        &&& self.seen_all(self.module.globals)
        &&& self.seen_all(self.module.aliases)
        &&& self.functions_seen(self.module.functions, self.module.functions.len() as int)
    }

    /// Whether the walk is through with the first `count` operands of a
    /// node.
    pub open spec fn operands_seen(self, node: NodeId, count: int) -> bool {
        forall|j: int|
            0 <= j < count ==> self.seen((#[trigger] self.module.operand(Some(node), j)).handle())
    }

    /// Whether the walk is through with the first `count` pieces of metadata
    /// attached to a node.
    pub open spec fn attachments_seen(self, node: NodeId, count: int) -> bool {
        forall|j: int|
            0 <= j < count && j < self.module.attachment_count(Some(node)) ==> self.seen(
                Some((#[trigger] self.module.attachment(Some(node), j))->0.metadata),
            )
    }

    /// Whether the walk is through with what a node refers to: its operands,
    /// if a node of its kind has operands to walk, and the metadata attached
    /// to it, if a node of its kind carries any.
    pub open spec fn settled(self, node: NodeId) -> bool {
        let kind = self.module.node_kind(Some(node))->0;
        &&& kind.can_get_operands() ==> self.operands_seen(
            node,
            self.module.operand_count(Some(node)) as int,
        )
        &&& kind.can_get_all_metadata() ==> self.attachments_seen(
            node,
            self.module.attachment_count(Some(node)) as int,
        )
    }

    /// Whether every discovered node is settled, but for those on the stack,
    /// which the walk is still busy with.
    pub open spec fn closed(self) -> bool {
        forall|node: NodeId|
            node < self.module.nodes.len() && self.visited.contains(node as u64)
                && !self.stack.contains(node) ==> #[trigger] self.settled(node)
    }

    /// Whether every node that a path from a root of the module leads to is
    /// discovered.
    pub open spec fn reaches_all(self) -> bool {
        forall|path: Seq<NodeId>, i: int|
            path.len() > 0 && self.module.is_root(path[0]) && self.module.resolves(Some(path[0]))
                && self.module.is_path(path) && 0 <= i < path.len() ==> self.visited.contains(
                #[trigger] path[i] as u64,
            )
    }
}

/// What the walk had nothing left to do for, it has nothing left to do for
/// later.
pub proof fn lemma_seen_persists(pass: Pass, later: Pass, handle: Option<NodeId>)
    requires
        pass.leads_to(later),
        pass.seen(handle),
    ensures
        later.seen(handle),
{
}

/// Roots that the walk was through with stay so.
pub proof fn lemma_seen_all_persists(pass: Pass, later: Pass, roots: Seq<NodeId>)
    requires
        pass.leads_to(later),
        pass.seen_all(roots),
    ensures
        later.seen_all(roots),
{
    assert forall|i: int| 0 <= i < roots.len() implies later.seen(Some(#[trigger] roots[i])) by {
        lemma_seen_persists(pass, later, Some(roots[i]));
    }
}

/// The first of the roots that the walk was through with stay so.
pub proof fn lemma_seen_first_persists(pass: Pass, later: Pass, roots: Seq<NodeId>, count: int)
    requires
        pass.leads_to(later),
        pass.seen_first(roots, count),
    ensures
        later.seen_first(roots, count),
{
    assert forall|i: int| 0 <= i < count && i < roots.len() implies later.seen(
        Some(#[trigger] roots[i]),
    ) by {
        lemma_seen_persists(pass, later, Some(roots[i]));
    }
}

/// Basic blocks that the walk was through with stay so.
pub proof fn lemma_blocks_seen_persists(
    pass: Pass,
    later: Pass,
    blocks: Seq<Seq<NodeId>>,
    count: int,
)
    requires
        pass.leads_to(later),
        pass.blocks_seen(blocks, count),
    ensures
        later.blocks_seen(blocks, count),
{
    assert forall|b: int| 0 <= b < count && b < blocks.len() implies later.seen_all(
        #[trigger] blocks[b],
    ) by {
        lemma_seen_all_persists(pass, later, blocks[b]);
    }
}

/// Functions that the walk was through with stay so.
pub proof fn lemma_functions_seen_persists(
    pass: Pass,
    later: Pass,
    functions: Seq<FunctionView>,
    count: int,
)
    requires
        pass.leads_to(later),
        pass.functions_seen(functions, count),
    ensures
        later.functions_seen(functions, count),
{
    assert forall|f: int| 0 <= f < count && f < functions.len() implies later.function_seen(
        #[trigger] functions[f],
    ) by {
        let function = functions[f];
        lemma_seen_persists(pass, later, Some(function.value));
        lemma_seen_all_persists(pass, later, function.params);
        lemma_blocks_seen_persists(pass, later, function.blocks, function.blocks.len() as int);
    }
}

/// The operands of a discovered node that the walk was through with, it is
/// through with later.
pub proof fn lemma_operands_seen_persists(pass: Pass, later: Pass, node: NodeId, count: int)
    requires
        pass.leads_to(later),
        node < pass.module.nodes.len(),
        pass.visited.contains(node as u64),
        pass.operands_seen(node, count),
    ensures
        later.operands_seen(node, count),
        later.module.operand_count(Some(node)) == pass.module.operand_count(Some(node)),
        forall|j: int| later.module.operand(Some(node), j) == pass.module.operand(Some(node), j),
{
    assert(later.module.nodes[node as int] == pass.module.nodes[node as int]);
    let handle = Some(node);
    assert forall|j: int| 0 <= j < count implies later.seen(
        (#[trigger] later.module.operand(handle, j)).handle(),
    ) by {
        lemma_seen_persists(pass, later, pass.module.operand(handle, j).handle());
    }
}

/// The metadata attached to a node that the walk was through with, it is
/// through with later.
pub proof fn lemma_attachments_seen_persists(pass: Pass, later: Pass, node: NodeId, count: int)
    requires
        pass.leads_to(later),
        node < pass.module.nodes.len(),
        pass.attachments_seen(node, count),
    ensures
        later.attachments_seen(node, count),
        later.module.attachment_count(Some(node)) == pass.module.attachment_count(Some(node)),
        forall|j: int|
            later.module.attachment(Some(node), j) == pass.module.attachment(Some(node), j),
{
    assert(later.module.nodes[node as int].attachments
        == pass.module.nodes[node as int].attachments);
    let handle = Some(node);
    assert forall|j: int|
        0 <= j < count && j < later.module.attachment_count(handle) implies later.seen(
        Some((#[trigger] later.module.attachment(handle, j))->0.metadata),
    ) by {
        lemma_seen_persists(pass, later, Some(pass.module.attachment(handle, j)->0.metadata));
    }
}

/// A discovered node that was settled stays settled.
pub proof fn lemma_settled_persists(pass: Pass, later: Pass, node: NodeId)
    requires
        pass.leads_to(later),
        node < pass.module.nodes.len(),
        pass.visited.contains(node as u64),
        pass.settled(node),
    ensures
        later.settled(node),
{
    let kind = pass.module.node_kind(Some(node))->0;
    assert(later.module.nodes[node as int].kind == pass.module.nodes[node as int].kind);
    if kind.can_get_operands() {
        lemma_operands_seen_persists(
            pass,
            later,
            node,
            pass.module.operand_count(Some(node)) as int,
        );
    }
    if kind.can_get_all_metadata() {
        lemma_attachments_seen_persists(
            pass,
            later,
            node,
            pass.module.attachment_count(Some(node)) as int,
        );
    }
}

/// Entering a node keeps the pass closed: the node is on the stack.
pub proof fn lemma_closed_enter(pass: Pass, node: NodeId)
    requires
        pass.closed(),
        !pass.visited.contains(node as u64),
    ensures
        pass.enter(node).closed(),
{
    let entered = pass.enter(node);
    lemma_enter_leads(pass, node);
    assert forall|other: NodeId|
        other < entered.module.nodes.len() && entered.visited.contains(other as u64)
            && !entered.stack.contains(other) implies #[trigger] entered.settled(other) by {
        assert(entered.stack.last() == node);
        assert(other != node);
        if pass.stack.contains(other) {
            let i = choose|i: int| 0 <= i < pass.stack.len() && pass.stack[i] == other;
            assert(entered.stack[i] == other);
        }
        assert(pass.settled(other));
        lemma_settled_persists(pass, entered, other);
    }
}

/// Repairing a node that is on the stack keeps the pass closed.
pub proof fn lemma_closed_mdnode(pass: Pass, node: NodeId)
    requires
        pass.closed(),
        pass.stack.contains(node),
    ensures
        pass.mdnode(node).closed(),
{
    let fixed = pass.mdnode(node);
    lemma_repair_keeps_shape(pass, node);
    assert forall|other: NodeId|
        other < fixed.module.nodes.len() && fixed.visited.contains(other as u64)
            && !fixed.stack.contains(other) implies #[trigger] fixed.settled(other) by {
        assert(other != node);
        assert(pass.settled(other));
        assert(fixed.module.nodes[other as int] == pass.module.nodes[other as int]);
        let handle = Some(other);
        assert forall|j: int|
            0 <= j < fixed.module.operand_count(handle) implies fixed.module.operand(handle, j)
            == pass.module.operand(handle, j) by {}
        assert forall|j: int|
            0 <= j < fixed.module.attachment_count(handle) implies fixed.module.attachment(
            handle,
            j,
        ) == pass.module.attachment(handle, j) by {}
    }
}

/// Attaching metadata again keeps the pass closed.
pub proof fn lemma_closed_reattach(pass: Pass, node: NodeId, attachment: Attachment)
    requires
        pass.closed(),
    ensures
        pass.reattach(node, attachment).closed(),
{
    let later = pass.reattach(node, attachment);
    assert forall|other: NodeId|
        other < later.module.nodes.len() && later.visited.contains(other as u64)
            && !later.stack.contains(other) implies #[trigger] later.settled(other) by {
        assert(pass.settled(other));
    }
}

/// Leaving a node that is settled keeps the pass closed.
pub proof fn lemma_closed_leave(pass: Pass, node: NodeId)
    requires
        pass.closed(),
        pass.stack.len() > 0,
        pass.stack.last() == node,
        pass.settled(node),
    ensures
        pass.leave().closed(),
{
    let left = pass.leave();
    assert forall|other: NodeId|
        other < left.module.nodes.len() && left.visited.contains(other as u64)
            && !left.stack.contains(other) implies #[trigger] left.settled(other) by {
        if other != node {
            if pass.stack.contains(other) {
                let i = choose|i: int| 0 <= i < pass.stack.len() && pass.stack[i] == other;
                assert(left.stack[i] == other);
            }
            assert(pass.settled(other));
        }
    }
}

/// A pass that has not started is closed, and has repaired no node twice.
pub proof fn lemma_start_is_closed(module: ModuleView)
    ensures
        Pass::start(module).closed(),
        Pass::start(module).dispatched_once(),
{
}

/// In a closed pass with an empty stack, a path from a discovered node
/// leads to discovered nodes only.
pub proof fn lemma_closed_pass_holds_paths(pass: Pass, path: Seq<NodeId>)
    requires
        pass.closed(),
        pass.stack.len() == 0,
        path.len() > 0,
        pass.module.resolves(Some(path[0])),
        pass.visited.contains(path[0] as u64),
        pass.module.is_path(path),
    ensures
        forall|i: int| 0 <= i < path.len() ==> pass.visited.contains(#[trigger] path[i] as u64),
    decreases path.len(),
{
    if path.len() > 1 {
        let shorter = path.drop_last();
        assert forall|i: int| 0 <= i < shorter.len() - 1 implies pass.module.refers(
            #[trigger] shorter[i],
            shorter[i + 1],
        ) by {
            assert(pass.module.refers(path[i], path[i + 1]));
        }
        lemma_closed_pass_holds_paths(pass, shorter);
        let from = path[path.len() - 2];
        let to = path.last();
        assert(shorter[shorter.len() - 1] == from);
        assert(pass.module.refers(from, to));
        assert(pass.visited.contains(from as u64));
        assert(!pass.stack.contains(from));
        assert(pass.settled(from));
        assert(pass.seen(Some(to)));
        assert forall|i: int| 0 <= i < path.len() implies pass.visited.contains(
            #[trigger] path[i] as u64,
        ) by {
            if i < path.len() - 1 {
                assert(shorter[i] == path[i]);
            }
        }
    }
}

/// Once all roots are discovered, a closed pass with an empty stack has
/// discovered every node that a path from a root leads to.
pub proof fn lemma_closed_pass_reaches_all(pass: Pass)
    requires
        pass.closed(),
        pass.stack.len() == 0,
        pass.roots_seen(),
    ensures
        pass.reaches_all(),
{
    assert forall|path: Seq<NodeId>, i: int|
        path.len() > 0 && pass.module.is_root(path[0]) && pass.module.resolves(Some(path[0]))
            && pass.module.is_path(path) && 0 <= i < path.len() implies pass.visited.contains(
        #[trigger] path[i] as u64,
    ) by {
        let root = path[0];
        let module = pass.module;
        if module.globals.contains(root) {
            let k = choose|k: int| 0 <= k < module.globals.len() && module.globals[k] == root;
            assert(pass.seen(Some(module.globals[k])));
        } else if module.aliases.contains(root) {
            let k = choose|k: int| 0 <= k < module.aliases.len() && module.aliases[k] == root;
            assert(pass.seen(Some(module.aliases[k])));
        } else {
            let f = choose|f: int|
                0 <= f < module.functions.len() && (#[trigger] module.functions[f]).has_root(root);
            let function = module.functions[f];
            assert(pass.function_seen(function));
            if function.value == root {
            } else if function.params.contains(root) {
                let k = choose|k: int| 0 <= k < function.params.len() && function.params[k] == root;
                assert(pass.seen(Some(function.params[k])));
            } else {
                let b = choose|b: int|
                    0 <= b < function.blocks.len() && (#[trigger] function.blocks[b]).contains(
                        root,
                    );
                let block = function.blocks[b];
                assert(pass.seen_all(block));
                let k = choose|k: int| 0 <= k < block.len() && block[k] == root;
                assert(pass.seen(Some(block[k])));
            }
        }
        assert(pass.seen(Some(root)));
        lemma_closed_pass_holds_paths(pass, path);
    }
}

} // verus!
