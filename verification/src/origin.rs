//! Where discovered nodes come from: a walk discovers no node but those
//! that a path leads to from where it started.

use crate::ir::{ModuleView, NodeId, NodeKind};
use crate::pass::Pass;
use vstd::prelude::*;

verus! {

impl ModuleView {
    /// Whether the basic blocks hold instructions: every entry of a basic
    /// block that names a node names an instruction.
    pub open spec fn blocks_hold_instructions(self) -> bool {
        forall|f: int, b: int, k: int|
            0 <= f < self.functions.len() && 0 <= b < self.functions[f].blocks.len() && 0 <= k
                < self.functions[f].blocks[b].len() ==> self.is_instruction_or_none(
                #[trigger] self.functions[f].blocks[b][k],
            )
    }

    /// Whether `node` is an instruction, or no node of the module.
    pub open spec fn is_instruction_or_none(self, node: NodeId) -> bool {
        self.resolves(Some(node)) ==> self.node_kind(Some(node)) == Some(NodeKind::Instruction)
    }
}

impl Pass {
    /// Whether `path` is a path of discovered nodes that leads from `from`
    /// to `to`.
    pub open spec fn is_link(self, path: Seq<NodeId>, from: NodeId, to: NodeId) -> bool {
        &&& path.len() > 0
        &&& path[0] == from
        &&& path.last() == to
        &&& self.module.is_path(path)
        &&& forall|i: int|
            0 <= i < path.len() ==> {
                &&& self.module.resolves(Some(#[trigger] path[i]))
                &&& self.visited.contains(path[i] as u64)
            }
    }

    /// Whether a path of discovered nodes leads from `from` to `to`.
    pub open spec fn links(self, from: NodeId, to: NodeId) -> bool {
        exists|path: Seq<NodeId>| #[trigger] self.is_link(path, from, to)
    }

    /// Whether `origin` names a node from which a path of discovered nodes
    /// leads to `to`.
    pub open spec fn comes_from(self, origin: Option<NodeId>, to: NodeId) -> bool {
        self.module.resolves(origin) && self.links(origin->0, to)
    }

    /// Whether a path of discovered nodes leads to `to` from a node that
    /// the node `user` refers to.
    pub open spec fn comes_from_use(self, user: NodeId, to: NodeId) -> bool {
        exists|over: NodeId| self.module.refers(user, over) && #[trigger] self.links(over, to)
    }

    /// Whether every node that is discovered here and was not in `earlier`
    /// is one that a path of discovered nodes leads to from a node that the
    /// node `user` refers to.
    pub open spec fn discovered_from_uses(self, earlier: Pass, user: NodeId) -> bool {
        forall|node: NodeId|
            node < self.module.nodes.len() && self.visited.contains(node as u64)
                && !earlier.visited.contains(node as u64) ==> #[trigger] self.comes_from_use(
                user,
                node,
            )
    }

    /// Whether a path of discovered nodes leads to `to` from a root of the
    /// module.
    pub open spec fn comes_from_root(self, to: NodeId) -> bool {
        exists|root: NodeId| self.module.is_root(root) && #[trigger] self.links(root, to)
    }

    /// Whether every node that is discovered here and was not in `earlier`
    /// is one that a path of discovered nodes leads to from a root of the
    /// module.
    pub open spec fn discovered_from_roots(self, earlier: Pass) -> bool {
        forall|node: NodeId|
            node < self.module.nodes.len() && self.visited.contains(node as u64)
                && !earlier.visited.contains(node as u64) ==> #[trigger] self.comes_from_root(node)
    }

    /// Whether the walks since this state have discovered only nodes that
    /// come from the roots. That is so in a module whose basic blocks hold
    /// instructions.
    pub open spec fn stays_with_roots(self, later: Pass) -> bool {
        self.module.blocks_hold_instructions() ==> later.discovered_from_roots(self)
    }

    /// Whether every node that is discovered here and was not in `earlier`
    /// is one that a path of discovered nodes leads to from `origin`.
    pub open spec fn discovered_from(self, earlier: Pass, origin: Option<NodeId>) -> bool {
        forall|node: NodeId|
            node < self.module.nodes.len() && self.visited.contains(node as u64)
                && !earlier.visited.contains(node as u64) ==> #[trigger] self.comes_from(
                origin,
                node,
            )
    }
}

/// A path of discovered nodes stays one.
pub proof fn lemma_link_persists(
    pass: Pass,
    later: Pass,
    path: Seq<NodeId>,
    from: NodeId,
    to: NodeId,
)
    requires
        pass.leads_to(later),
        pass.is_link(path, from, to),
    ensures
        later.is_link(path, from, to),
{
    assert forall|i: int| 0 <= i < path.len() - 1 implies later.module.refers(
        #[trigger] path[i],
        path[i + 1],
    ) by {
        let (a, b) = (path[i], path[i + 1]);
        assert(pass.module.refers(a, b));
        assert(pass.module.resolves(Some(path[i])));
        assert(later.module.nodes[a as int] == pass.module.nodes[a as int]);
        lemma_refers_depends_on_node(pass.module, later.module, a, b);
    }
    assert forall|i: int| 0 <= i < path.len() implies {
        &&& later.module.resolves(Some(#[trigger] path[i]))
        &&& later.visited.contains(path[i] as u64)
    } by {
        assert(pass.module.resolves(Some(path[i])));
    }
}

/// Whether a node refers to another depends on the former node alone.
pub proof fn lemma_refers_depends_on_node(
    before: ModuleView,
    after: ModuleView,
    from: NodeId,
    to: NodeId,
)
    requires
        before.nodes.len() == after.nodes.len(),
        from < before.nodes.len(),
        after.nodes[from as int] == before.nodes[from as int],
        before.refers(from, to),
    ensures
        after.refers(from, to),
{
    let kind = before.node_kind(Some(from))->0;
    let handle = Some(from);
    if kind.can_get_operands() && exists|j: int|
        0 <= j < before.operand_count(handle) && (#[trigger] before.operand(handle, j)).handle()
            == Some(to) {
        let j = choose|j: int|
            0 <= j < before.operand_count(handle) && (#[trigger] before.operand(
                handle,
                j,
            )).handle() == Some(to);
        assert(after.operand(handle, j).handle() == Some(to));
    } else {
        let j = choose|j: int|
            0 <= j < before.attachment_count(handle) && (#[trigger] before.attachment(
                handle,
                j,
            ))->0.metadata == to;
        assert(after.attachment(handle, j)->0.metadata == to);
    }
}

/// A discovered node is linked to itself.
pub proof fn lemma_link_self(pass: Pass, node: NodeId)
    requires
        pass.module.resolves(Some(node)),
        pass.visited.contains(node as u64),
    ensures
        pass.links(node, node),
{
    assert(pass.is_link(seq![node], node, node));
}

/// A discovered node is linked to what the nodes that it refers to are
/// linked to.
pub proof fn lemma_link_extend(pass: Pass, from: NodeId, over: NodeId, to: NodeId)
    requires
        pass.module.refers(from, over),
        pass.visited.contains(from as u64),
        pass.links(over, to),
    ensures
        pass.links(from, to),
{
    let path = choose|path: Seq<NodeId>| #[trigger] pass.is_link(path, over, to);
    let longer = seq![from] + path;
    assert forall|i: int| 0 <= i < longer.len() - 1 implies pass.module.refers(
        #[trigger] longer[i],
        longer[i + 1],
    ) by {
        if i > 0 {
            assert(pass.module.refers(path[i - 1], path[i - 1 + 1]));
        }
    }
    assert forall|i: int| 0 <= i < longer.len() implies {
        &&& pass.module.resolves(Some(#[trigger] longer[i]))
        &&& pass.visited.contains(longer[i] as u64)
    } by {
        if i > 0 {
            assert(longer[i] == path[i - 1]);
        }
    }
    assert(pass.is_link(longer, from, to));
}

/// What was linked stays linked.
pub proof fn lemma_links_persists(pass: Pass, later: Pass, from: NodeId, to: NodeId)
    requires
        pass.leads_to(later),
        pass.links(from, to),
    ensures
        later.links(from, to),
{
    let path = choose|path: Seq<NodeId>| #[trigger] pass.is_link(path, from, to);
    lemma_link_persists(pass, later, path, from, to);
}

/// A walk that starts from a node to which the node `from` refers, and
/// that discovers only what it leads to, discovers only what `from` leads
/// to; and so does what comes before it, if it did so.
pub proof fn lemma_discovered_from_step(
    first: Pass,
    before: Pass,
    after: Pass,
    from: NodeId,
    over: Option<NodeId>,
)
    requires
        first.leads_to(before),
        before.leads_to(after),
        before.discovered_from(first, Some(from)),
        after.discovered_from(before, over),
        before.visited.contains(from as u64),
        after.module.resolves(over) ==> after.module.refers(from, over->0),
    ensures
        after.discovered_from(first, Some(from)),
{
    assert forall|node: NodeId|
        node < after.module.nodes.len() && after.visited.contains(node as u64)
            && !first.visited.contains(node as u64) implies #[trigger] after.comes_from(
        Some(from),
        node,
    ) by {
        if before.visited.contains(node as u64) {
            assert(before.comes_from(Some(from), node));
            lemma_links_persists(before, after, from, node);
        } else {
            assert(after.comes_from(over, node));
            lemma_link_extend(after, from, over->0, node);
        }
    }
}

/// What a walk from a root discovers, a walk from the roots discovers.
pub proof fn lemma_root_is_origin(before: Pass, after: Pass, root: NodeId)
    requires
        after.discovered_from(before, Some(root)),
        after.module.is_root(root),
    ensures
        after.discovered_from_roots(before),
{
    assert forall|node: NodeId|
        node < after.module.nodes.len() && after.visited.contains(node as u64)
            && !before.visited.contains(node as u64) implies #[trigger] after.comes_from_root(
        node,
    ) by {
        assert(after.comes_from(Some(root), node));
    }
}

/// Walks from the roots, one after another, discover what a walk from the
/// roots discovers.
pub proof fn lemma_from_roots_transitive(first: Pass, second: Pass, third: Pass)
    requires
        first.leads_to(second),
        second.leads_to(third),
        second.discovered_from_roots(first),
        third.discovered_from_roots(second),
    ensures
        third.discovered_from_roots(first),
{
    assert forall|node: NodeId|
        node < third.module.nodes.len() && third.visited.contains(node as u64)
            && !first.visited.contains(node as u64) implies #[trigger] third.comes_from_root(
        node,
    ) by {
        if second.visited.contains(node as u64) {
            assert(second.comes_from_root(node));
            let root = choose|root: NodeId|
                second.module.is_root(root) && #[trigger] second.links(root, node);
            lemma_links_persists(second, third, root, node);
            assert(third.module.is_root(root));
        }
    }
}

/// A module that keeps its shape keeps instructions in its basic blocks.
pub proof fn lemma_blocks_hold_persists(before: ModuleView, after: ModuleView)
    requires
        before.keeps_shape(after),
        before.blocks_hold_instructions(),
    ensures
        after.blocks_hold_instructions(),
{
    assert forall|f: int, b: int, k: int|
        0 <= f < after.functions.len() && 0 <= b < after.functions[f].blocks.len() && 0 <= k
            < after.functions[f].blocks[b].len() implies after.is_instruction_or_none(
        #[trigger] after.functions[f].blocks[b][k],
    ) by {
        let entry = before.functions[f].blocks[b][k];
        assert(before.is_instruction_or_none(entry));
        if before.resolves(Some(entry)) {
            assert(after.nodes[entry as int].kind == before.nodes[entry as int].kind);
        }
    }
}

/// A walk that discovers nothing stays with the roots.
pub proof fn lemma_stays_with_roots_reflexive(pass: Pass, later: Pass)
    requires
        later.visited == pass.visited,
    ensures
        pass.stays_with_roots(later),
{
}

/// Walks that stay with the roots, one after another, stay with the roots.
pub proof fn lemma_stays_with_roots_transitive(first: Pass, second: Pass, third: Pass)
    requires
        first.leads_to(second),
        second.leads_to(third),
        first.stays_with_roots(second),
        second.stays_with_roots(third),
    ensures
        first.stays_with_roots(third),
{
    if first.module.blocks_hold_instructions() {
        lemma_blocks_hold_persists(first.module, second.module);
        lemma_from_roots_transitive(first, second, third);
    }
}

/// A walk from a root stays with the roots.
pub proof fn lemma_walk_from_root_stays(before: Pass, after: Pass, root: NodeId)
    requires
        before.leads_to(after),
        after.discovered_from(before, Some(root)),
        before.module.is_root(root),
    ensures
        before.stays_with_roots(after),
{
    assert(after.module.is_root(root));
    lemma_root_is_origin(before, after, root);
}

/// What the walks from the instructions that an instruction uses have
/// discovered stays so, one such walk on.
pub proof fn lemma_from_uses_step(
    first: Pass,
    before: Pass,
    after: Pass,
    user: NodeId,
    over: Option<NodeId>,
)
    requires
        first.leads_to(before),
        before.leads_to(after),
        before.discovered_from_uses(first, user),
        after.discovered_from(before, over),
        user < first.module.nodes.len(),
        before.module.nodes[user as int] == first.module.nodes[user as int],
        after.module.nodes[user as int] == first.module.nodes[user as int],
        after.module.resolves(over) ==> after.module.refers(user, over->0),
    ensures
        after.discovered_from_uses(first, user),
{
    assert forall|node: NodeId|
        node < after.module.nodes.len() && after.visited.contains(node as u64)
            && !first.visited.contains(node as u64) implies #[trigger] after.comes_from_use(
        user,
        node,
    ) by {
        if before.visited.contains(node as u64) {
            assert(before.comes_from_use(user, node));
            let t = choose|t: NodeId|
                before.module.refers(user, t) && #[trigger] before.links(t, node);
            lemma_links_persists(before, after, t, node);
            lemma_refers_depends_on_node(before.module, after.module, user, t);
        } else {
            assert(after.comes_from(over, node));
        }
    }
}

/// Once an instruction is discovered, what the walks from the instructions
/// that it uses have discovered comes from the instruction itself.
pub proof fn lemma_uses_come_from_user(first: Pass, before: Pass, after: Pass, user: NodeId)
    requires
        first.leads_to(before),
        before.leads_to(after),
        before.discovered_from_uses(first, user),
        after.discovered_from(before, Some(user)),
        user < first.module.nodes.len(),
        before.module.nodes[user as int] == first.module.nodes[user as int],
        after.module.nodes[user as int] == first.module.nodes[user as int],
        after.visited.contains(user as u64),
    ensures
        after.discovered_from(first, Some(user)),
{
    assert forall|node: NodeId|
        node < after.module.nodes.len() && after.visited.contains(node as u64)
            && !first.visited.contains(node as u64) implies #[trigger] after.comes_from(
        Some(user),
        node,
    ) by {
        if before.visited.contains(node as u64) {
            assert(before.comes_from_use(user, node));
            let t = choose|t: NodeId|
                before.module.refers(user, t) && #[trigger] before.links(t, node);
            lemma_links_persists(before, after, t, node);
            lemma_refers_depends_on_node(before.module, after.module, user, t);
            lemma_link_extend(after, user, t, node);
        } else {
            assert(after.comes_from(Some(user), node));
        }
    }
}

} // verus!
