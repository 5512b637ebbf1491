//! The recovery pass that makes read-only files deletable.

use vstd::prelude::*;

verus! {

/// What the recovery pass needs to know of a file or directory, read without
/// following a symlink.
#[derive(Debug, Clone, Copy, PartialEq, Eq, Structural)]
pub struct NodeMeta {
    pub readonly: bool,
    pub is_dir: bool,
    pub is_symlink: bool,
}

/// What the recovery pass does with it.
#[derive(Debug, Clone, Copy, PartialEq, Eq, Structural)]
pub struct NodePlan {
    /// Clear the read-only attribute. A failure to do so is ignored.
    pub clear: bool,
    /// Visit what is in it.
    pub descend: bool,
}

pub open spec fn plan_for(meta: NodeMeta, attribute_blocks_deletion: bool) -> NodePlan {
    NodePlan {
        clear: attribute_blocks_deletion && meta.readonly && !meta.is_symlink,
        descend: meta.is_dir && !meta.is_symlink,
    }
}

/// What to do with one file or directory. A symlink is never followed out of the
/// tree that is being cleared, neither to what is in the directory that it points
/// at nor to that directory's attribute.
///
/// `attribute_blocks_deletion` says whether the platform refuses to delete what is
/// read-only. Windows does; on Unix write permission on the parent is what
/// matters, and the pass changes nothing.
pub fn node_plan(meta: NodeMeta, attribute_blocks_deletion: bool) -> (plan: NodePlan)
    ensures
        plan == plan_for(meta, attribute_blocks_deletion),
{
    NodePlan {
        clear: attribute_blocks_deletion && meta.readonly && !meta.is_symlink,
        descend: meta.is_dir && !meta.is_symlink,
    }
}

/// How far a recovery pass has come.
#[derive(Debug, Clone, Copy, PartialEq, Eq, Structural)]
pub enum WalkStage {
    NotStarted,
    AtRoot,
    BelowRoot,
}

/// The recovery pass over a directory and all that is in it, parents before
/// children. A node that cannot be read is skipped; only where that node is the
/// root has the pass failed.
pub struct ReadonlyWalk<P> {
    stack: Vec<P>,
    stage: WalkStage,
    failed: bool,
}

/// Starts the recovery pass at `root`.
pub fn clear_readonly_recursive<P>(root: P) -> (walk: ReadonlyWalk<P>)
    ensures
        walk.todo() == seq![root],
        walk.stage() == WalkStage::NotStarted,
        !walk.has_failed(),
{
    let mut stack: Vec<P> = Vec::new();
    stack.push(root);
    let walk = ReadonlyWalk { stack, stage: WalkStage::NotStarted, failed: false };
    assert(walk.todo() =~= seq![root]);
    walk
}

impl<P> ReadonlyWalk<P> {
    /// What is still to be visited, in order.
    pub closed spec fn todo(self) -> Seq<P> {
        self.stack@.reverse()
    }

    pub closed spec fn stage(self) -> WalkStage {
        self.stage
    }

    pub closed spec fn has_failed(self) -> bool {
        self.failed
    }

    /// The next node to visit, `None` when all are done.
    pub fn next(&mut self) -> (node: Option<P>)
        ensures
            old(self).todo().len() == 0 ==> node is None && final(self).todo() == old(self).todo()
                && final(self).stage() == old(self).stage(),
            old(self).todo().len() > 0 ==> node == Some(old(self).todo()[0]) && final(self).todo()
                == old(self).todo().skip(1) && final(self).stage() == (if old(self).stage()
                == WalkStage::NotStarted {
                WalkStage::AtRoot
            } else {
                WalkStage::BelowRoot
            }),
            final(self).has_failed() == old(self).has_failed(),
    {
        match self.stack.pop() {
            None => None,
            Some(node) => {
                self.stage = match self.stage {
                    WalkStage::NotStarted => WalkStage::AtRoot,
                    _ => WalkStage::BelowRoot,
                };
                assert(self.todo() =~= old(self).todo().skip(1));
                Some(node)
            },
        }
    }

    /// The node being visited holds `children`: they come next.
    pub fn found(&mut self, children: Vec<P>)
        ensures
            final(self).todo() == children@ + old(self).todo(),
            final(self).stage() == old(self).stage(),
            final(self).has_failed() == old(self).has_failed(),
    {
        let ghost all = children@;
        let mut rest = children;
        while rest.len() > 0
            invariant
                rest@.len() <= all.len(),
                rest@ == all.take(rest@.len() as int),
                self.todo() == all.skip(rest@.len() as int) + old(self).todo(),
                self.stage() == old(self).stage(),
                self.has_failed() == old(self).has_failed(),
            decreases rest@.len(),
        {
            let ghost before = self.todo();
            let ghost n = rest@.len();
            if let Some(child) = rest.pop() {
                self.stack.push(child);
                proof {
                    assert(child == all[n - 1]);
                    assert(self.todo() =~= seq![child] + before);
                    assert(all.skip(n - 1) =~= seq![child] + all.skip(n as int));
                    assert(self.todo() =~= all.skip(n - 1) + old(self).todo());
                    assert(rest@ =~= all.take(n - 1));
                }
            }
        }
        proof {
            assert(all.skip(0) =~= all);
        }
    }

    /// The node being visited, or the list of what is in it, could not be read.
    pub fn unreadable(&mut self)
        ensures
            final(self).todo() == old(self).todo(),
            final(self).stage() == old(self).stage(),
            final(self).has_failed() == (old(self).has_failed() || old(self).stage()
                == WalkStage::AtRoot),
    {
        if self.stage == WalkStage::AtRoot {
            self.failed = true;
        }
    }

    /// Whether the pass went through.
    pub fn succeeded(&self) -> (yes: bool)
        ensures
            yes == !self.has_failed(),
    {
        !self.failed
    }
}

/// The recovery pass stays in the tree: what a symlink points at is neither
/// visited nor changed, be it a directory or not.
pub proof fn law_symlinks_are_not_followed(meta: NodeMeta, attribute_blocks_deletion: bool)
    requires
        meta.is_symlink,
    ensures
        !plan_for(meta, attribute_blocks_deletion).descend,
        !plan_for(meta, attribute_blocks_deletion).clear,
{
}

/// Where the attribute does not stand in the way of deletion, the pass changes
/// nothing in the tree; where it does, the pass clears it on whatever is read-only
/// and no symlink.
pub proof fn law_the_pass_clears_only_what_blocks_deletion(meta: NodeMeta)
    ensures
        !plan_for(meta, false).clear,
        plan_for(meta, true).clear <==> meta.readonly && !meta.is_symlink,
{
}

/// A tree of files as the pass finds it: what a directory that cannot be listed
/// holds is not in it.
pub struct Tree<P> {
    pub node: P,
    pub plan: NodePlan,
    pub children: Seq<Tree<P>>,
}

/// The nodes at the top of some trees.
pub open spec fn tops<P>(forest: Seq<Tree<P>>) -> Seq<P> {
    forest.map_values(|tree: Tree<P>| tree.node)
}

/// The trees below the top of `tree` that are to be visited.
pub open spec fn below<P>(tree: Tree<P>) -> Seq<Tree<P>> {
    if tree.plan.descend {
        tree.children
    } else {
        Seq::empty()
    }
}

/// The nodes of some trees that are reached without following a symlink, parents
/// before children and siblings in order.
pub open spec fn reached<P>(forest: Seq<Tree<P>>) -> Seq<P>
    decreases forest,
{
    if forest.len() == 0 {
        Seq::empty()
    } else if forest[0].plan.descend {
        seq![forest[0].node] + reached(forest[0].children) + reached(forest.skip(1))
    } else {
        seq![forest[0].node] + reached(forest.skip(1))
    }
}

proof fn lemma_reached_concat<P>(a: Seq<Tree<P>>, b: Seq<Tree<P>>)
    ensures
        reached(a + b) == reached(a) + reached(b),
    decreases a.len(),
{
    if a.len() == 0 {
        assert(a + b =~= b);
        assert(reached(a) + reached(b) =~= reached(b));
    } else {
        let ab = a + b;
        assert(ab[0] == a[0]);
        assert(ab.skip(1) =~= a.skip(1) + b);
        lemma_reached_concat(a.skip(1), b);
        assert(reached(ab) =~= reached(a) + reached(b));
    }
}

/// The pass visits each node that is reached, once and in order. Where the nodes
/// to be visited are the tops of `forest`, [`ReadonlyWalk::next`] gives the first
/// of the nodes that `forest` reaches; once [`ReadonlyWalk::found`] has been told
/// what that node holds, the nodes to be visited are the tops of trees that reach
/// exactly the rest.
pub proof fn law_the_pass_visits_all_that_is_reached<P>(forest: Seq<Tree<P>>)
    requires
        forest.len() > 0,
    ensures
        ({
            let rest = below(forest[0]) + forest.skip(1);
            &&& tops(forest)[0] == forest[0].node
            &&& tops(rest) == tops(below(forest[0])) + tops(forest).skip(1)
            &&& reached(forest) == seq![forest[0].node] + reached(rest)
        }),
{
    let rest = below(forest[0]) + forest.skip(1);
    assert(tops(rest) =~= tops(below(forest[0])) + tops(forest).skip(1));
    lemma_reached_concat(below(forest[0]), forest.skip(1));
    assert(reached(forest) =~= seq![forest[0].node] + reached(rest));
}

/// A node is cleared exactly where the attribute blocks deletion and the node is
/// read-only and no symlink; its inside is visited exactly where it is a directory
/// and no symlink, on every platform.
pub proof fn law_nodes_are_cleared_and_entered(
    meta: NodeMeta,
    attribute_blocks_deletion: bool,
    plan: NodePlan,
)
    requires
        call_ensures(node_plan, (meta, attribute_blocks_deletion), plan),
    ensures
        plan.clear <==> attribute_blocks_deletion && meta.readonly && !meta.is_symlink,
        plan.descend <==> meta.is_dir && !meta.is_symlink,
{
}

/// A pass starts at its root: the first node is the root, and unless it is told of
/// children there is no second. It fails if the root cannot be read.
pub proof fn law_a_pass_starts_at_its_root<P>(
    root: P,
    walk: &mut ReadonlyWalk<P>,
    node: Option<P>,
    then: &mut ReadonlyWalk<P>,
    end: Option<P>,
    stuck: &mut ReadonlyWalk<P>,
    well: bool,
    stuck_well: bool,
)
    requires
        call_ensures(clear_readonly_recursive::<P>, (root,), *old(walk)),
        call_ensures(ReadonlyWalk::<P>::next, (walk,), node),
        *old(then) == *final(walk),
        call_ensures(ReadonlyWalk::<P>::next, (then,), end),
        call_ensures(ReadonlyWalk::<P>::succeeded, (&*final(then),), well),
        *old(stuck) == *final(walk),
        call_ensures(ReadonlyWalk::<P>::unreadable, (stuck,), ()),
        call_ensures(ReadonlyWalk::<P>::succeeded, (&*final(stuck),), stuck_well),
    ensures
        node == Some(root),
        end is None,
        well,
        !stuck_well,
{
}

/// The nodes to be visited are a list that is taken from the front: the next node
/// is the first of them and leaves it, and the children of the node being visited
/// come before all that is left. Where the list is empty there is no next node.
pub proof fn law_the_walk_is_depth_first<P>(
    walk: &mut ReadonlyWalk<P>,
    node: Option<P>,
    told: &mut ReadonlyWalk<P>,
    children: Vec<P>,
    lost: &mut ReadonlyWalk<P>,
)
    requires
        call_ensures(ReadonlyWalk::<P>::next, (walk,), node),
        call_ensures(ReadonlyWalk::<P>::found, (told, children), ()),
        call_ensures(ReadonlyWalk::<P>::unreadable, (lost,), ()),
    ensures
        node is None <==> old(walk).todo().len() == 0,
        node matches Some(n) ==> old(walk).todo() == seq![n] + final(walk).todo(),
        final(told).todo() == children@ + old(told).todo(),
        final(lost).todo() == old(lost).todo(),
{
    if node is Some {
        assert(old(walk).todo() =~= seq![node->0] + final(walk).todo());
    }
}

/// Only the root can fail a pass, and nothing mends one that has failed: a node
/// that cannot be read changes the outcome exactly where it is the first that was
/// given, and to be told of children or to go on changes it never.
pub proof fn law_only_the_root_fails_the_pass<P>(
    walk: &mut ReadonlyWalk<P>,
    node: Option<P>,
    told: &mut ReadonlyWalk<P>,
    children: Vec<P>,
    lost: &mut ReadonlyWalk<P>,
    lost_before: bool,
    lost_after: bool,
)
    requires
        call_ensures(ReadonlyWalk::<P>::next, (walk,), node),
        call_ensures(ReadonlyWalk::<P>::found, (told, children), ()),
        call_ensures(ReadonlyWalk::<P>::succeeded, (&*old(lost),), lost_before),
        call_ensures(ReadonlyWalk::<P>::unreadable, (lost,), ()),
        call_ensures(ReadonlyWalk::<P>::succeeded, (&*final(lost),), lost_after),
    ensures
        node is Some ==> final(walk).stage() == (if old(walk).stage() == WalkStage::NotStarted {
            WalkStage::AtRoot
        } else {
            WalkStage::BelowRoot
        }),
        node is None ==> final(walk).stage() == old(walk).stage(),
        final(walk).has_failed() == old(walk).has_failed(),
        final(told).stage() == old(told).stage(),
        final(told).has_failed() == old(told).has_failed(),
        final(lost).stage() == old(lost).stage(),
        lost_before == !old(lost).has_failed(),
        lost_after == (lost_before && old(lost).stage() != WalkStage::AtRoot),
{
}

} // verus!
