//! A creature's body as a tree of links: each link carries its own data and
//! the links attached below it, each through one joint. Links are visited
//! depth first from the root, with an explicit stack.

use vstd::prelude::*;

verus! {

/// One link of a creature's body tree: the link's own data `L` (its rigid
/// body, label and colour), and its child links with the joint `J` that
/// attaches each of them.
pub struct CreatureBodyLink<L, J> {
    link: L,
    child_links: Vec<CreatureBodyLink<L, J>>,
    joints: Vec<J>,
}

impl<L, J> CreatureBodyLink<L, J> {
    /// The link's own data.
    pub closed spec fn spec_link(&self) -> L {
        self.link
    }

    /// The child links, in the order they were attached.
    pub closed spec fn spec_children(&self) -> Seq<CreatureBodyLink<L, J>> {
        self.child_links@
    }

    /// The joints attaching the child links, in the same order.
    pub closed spec fn spec_joints(&self) -> Seq<J> {
        self.joints@
    }

    /// Every child link has the joint that attaches it.
    pub open spec fn well_formed(&self) -> bool {
        self.spec_joints().len() == self.spec_children().len()
    }

    /// A link with no child link.
    pub fn new(link: L) -> (node: Self)
        ensures
            node.well_formed(),
            node.spec_link() == link,
            node.spec_children().len() == 0,
            node.spec_joints().len() == 0,
    {
        CreatureBodyLink { link, child_links: Vec::new(), joints: Vec::new() }
    }

    /// Attaches `child` below this link through `joint_handle`.
    pub fn add_child_link(&mut self, child: CreatureBodyLink<L, J>, joint_handle: J)
        ensures
            old(self).well_formed() ==> final(self).well_formed(),
            final(self).spec_link() == old(self).spec_link(),
            final(self).spec_children() == old(self).spec_children().push(child),
            final(self).spec_joints() == old(self).spec_joints().push(joint_handle),
    {
        self.joints.push(joint_handle);
        self.child_links.push(child);
    }

    /// The child links, in the order they were attached.
    pub fn all_child_links(&self) -> (children: &Vec<CreatureBodyLink<L, J>>)
        ensures
            children@ == self.spec_children(),
    {
        &self.child_links
    }

    /// The joints attaching the child links.
    pub fn joints(&self) -> (joints: &Vec<J>)
        ensures
            joints@ == self.spec_joints(),
    {
        &self.joints
    }

    /// The link's own data.
    pub fn link(&self) -> (link: &L)
        ensures
            *link == self.spec_link(),
    {
        &self.link
    }
}

/// Number of links in a forest of link trees.
pub closed spec fn forest_size<L, J>(forest: Seq<CreatureBodyLink<L, J>>) -> nat
    decreases forest,
{
    if forest.len() == 0 {
        0
    } else {
        let last = forest[forest.len() - 1];
        proof {
            assert(decreases_to!(forest => forest[forest.len() - 1]));
        }
        forest_size(forest.subrange(0, forest.len() - 1)) + 1 + forest_size(last.child_links@)
    }
}


proof fn lemma_forest_size_concat<L, J>(a: Seq<CreatureBodyLink<L, J>>, b: Seq<CreatureBodyLink<L, J>>)
    ensures
        forest_size(a + b) == forest_size(a) + forest_size(b),
    decreases b.len(),
{
    if b.len() == 0 {
        assert(a + b =~= a);
    } else {
        let ab = a + b;
        let b1 = b.subrange(0, b.len() - 1);
        assert(ab.subrange(0, ab.len() - 1) =~= a + b1);
        assert(ab[ab.len() - 1] == b[b.len() - 1]);
        lemma_forest_size_concat(a, b1);
    }
}

/// The stack left after visiting the link on top of `stack`: that link is
/// popped and its children pushed in the order they were attached, so the
/// last attached child is visited next.
pub closed spec fn after_visit<L, J>(stack: Seq<CreatureBodyLink<L, J>>) -> Seq<CreatureBodyLink<L, J>>
    recommends
        stack.len() > 0,
{
    stack.subrange(0, stack.len() - 1) + stack[stack.len() - 1].child_links@
}

proof fn lemma_after_visit_smaller<L, J>(stack: Seq<CreatureBodyLink<L, J>>)
    requires
        stack.len() > 0,
    ensures
        forest_size(after_visit(stack)) < forest_size(stack),
{
    lemma_forest_size_concat(
        stack.subrange(0, stack.len() - 1),
        stack[stack.len() - 1].child_links@,
    );
}

/// The order in which a depth-first walk starting from `stack` visits
/// links: the link on top of the stack first, then the walk from the stack
/// left after visiting it.
pub closed spec fn dfs_order<L, J>(stack: Seq<CreatureBodyLink<L, J>>) -> Seq<CreatureBodyLink<L, J>>
    decreases forest_size(stack),
{
    if stack.len() == 0 {
        Seq::empty()
    } else {
        proof {
            lemma_after_visit_smaller(stack);
        }
        seq![stack[stack.len() - 1]] + dfs_order(after_visit(stack))
    }
}

proof fn lemma_dfs_len<L, J>(stack: Seq<CreatureBodyLink<L, J>>)
    ensures
        dfs_order(stack).len() == forest_size(stack),
    decreases forest_size(stack),
{
    if stack.len() > 0 {
        lemma_after_visit_smaller(stack);
        lemma_dfs_len(after_visit(stack));
        lemma_forest_size_concat(
            stack.subrange(0, stack.len() - 1),
            stack[stack.len() - 1].child_links@,
        );
    }
}

/// Number of links of the tree rooted at `root`: the root and, for each
/// child, the links of its subtree.
pub closed spec fn tree_size<L, J>(root: CreatureBodyLink<L, J>) -> nat {
    forest_size(seq![root])
}

/// A depth-first walk from the root visits the root first, then every link
/// of the tree, as many as the tree holds; a leaf is visited alone.
pub proof fn lemma_walk_visits_every_link<L, J>(root: CreatureBodyLink<L, J>)
    ensures
        dfs_order(seq![root]).len() == tree_size(root),
        dfs_order(seq![root])[0] == root,
        tree_size(root) == 1 + forest_size(root.spec_children()),
        root.spec_children().len() == 0 ==> dfs_order(seq![root]) == seq![root],
{
    lemma_dfs_len(seq![root]);
    let s = seq![root];
    assert(s.subrange(0, 0) =~= Seq::<CreatureBodyLink<L, J>>::empty());
    assert(forest_size(Seq::<CreatureBodyLink<L, J>>::empty()) == 0);
    lemma_after_visit_smaller(s);
    if root.spec_children().len() == 0 {
        assert(after_visit(s) =~= Seq::<CreatureBodyLink<L, J>>::empty());
        assert(dfs_order(after_visit(s)) == Seq::<CreatureBodyLink<L, J>>::empty());
        assert(dfs_order(s) =~= seq![root]);
    }
}

proof fn lemma_walk_of_joined_stacks<L, J>(a: Seq<CreatureBodyLink<L, J>>, b: Seq<CreatureBodyLink<L, J>>)
    ensures
        dfs_order(a + b) == dfs_order(b) + dfs_order(a),
    decreases forest_size(b),
{
    if b.len() == 0 {
        assert(a + b =~= a);
        assert(dfs_order(b) == Seq::<CreatureBodyLink<L, J>>::empty());
        assert(dfs_order(b) + dfs_order(a) =~= dfs_order(a));
    } else {
        let ab = a + b;
        assert(ab[ab.len() - 1] == b[b.len() - 1]);
        assert(after_visit(ab) =~= a + after_visit(b));
        lemma_after_visit_smaller(b);
        lemma_walk_of_joined_stacks(a, after_visit(b));
        assert(dfs_order(ab) == seq![b[b.len() - 1]] + dfs_order(after_visit(ab)));
        assert(dfs_order(b) == seq![b[b.len() - 1]] + dfs_order(after_visit(b)));
        assert(dfs_order(ab) =~= dfs_order(b) + dfs_order(a));
    }
}

/// The walks of the subtrees rooted at `children`, the last child's subtree
/// first, each walked completely before the next.
pub open spec fn subtree_walks<L, J>(children: Seq<CreatureBodyLink<L, J>>) -> Seq<CreatureBodyLink<L, J>>
    decreases children.len(),
{
    if children.len() == 0 {
        Seq::empty()
    } else {
        dfs_order(seq![children.last()]) + subtree_walks(children.drop_last())
    }
}

proof fn lemma_walk_of_forest<L, J>(children: Seq<CreatureBodyLink<L, J>>)
    ensures
        dfs_order(children) == subtree_walks(children),
    decreases children.len(),
{
    if children.len() == 0 {
        assert(dfs_order(children) == Seq::<CreatureBodyLink<L, J>>::empty());
    } else {
        assert(children =~= children.drop_last() + seq![children.last()]);
        lemma_walk_of_joined_stacks(children.drop_last(), seq![children.last()]);
        lemma_walk_of_forest(children.drop_last());
    }
}

/// The depth-first walk of a tree, as a recursion over the tree: the root
/// comes first, then the walks of the subtrees of its children, the last
/// attached child's subtree first, each subtree walked completely before
/// the next one starts. So every link of the tree is yielded exactly once,
/// each link before the links below it. A walk of a tree holds as many links
/// as the tree, and a walk of no tree is empty.
pub proof fn lemma_walk_is_preorder_last_child_first<L, J>(root: CreatureBodyLink<L, J>)
    ensures
        dfs_order(seq![root]) == seq![root] + subtree_walks(root.spec_children()),
        dfs_order(seq![root]).len() == tree_size(root),
        dfs_order(Seq::<CreatureBodyLink<L, J>>::empty()) == Seq::<CreatureBodyLink<L, J>>::empty(),
        forall|c: int|
            0 <= c < root.spec_children().len() ==> (#[trigger] dfs_order(
                seq![root.spec_children()[c]],
            )).len() == tree_size(root.spec_children()[c]),
{
    let s = seq![root];
    lemma_after_visit_smaller(s);
    assert(after_visit(s) =~= root.spec_children());
    assert(dfs_order(s) == seq![root] + dfs_order(after_visit(s)));
    lemma_walk_of_forest(root.spec_children());
    lemma_dfs_len(s);
    assert forall|c: int| 0 <= c < root.spec_children().len() implies (#[trigger] dfs_order(
        seq![root.spec_children()[c]],
    )).len() == tree_size(root.spec_children()[c]) by {
        lemma_dfs_len(seq![root.spec_children()[c]]);
    }
}

/// Walks the links of a tree depth first, from the root: each link comes
/// before the links below it, and of the children of a link the last
/// attached is walked first.
pub struct CreatureLinkIter<'a, L, J> {
    dfs_stack: Vec<&'a CreatureBodyLink<L, J>>,
}

impl<'a, L, J> CreatureLinkIter<'a, L, J> {
    /// The links on the stack, bottom first.
    pub closed spec fn spec_stack(&self) -> Seq<CreatureBodyLink<L, J>> {
        self.dfs_stack@.map_values(|r: &'a CreatureBodyLink<L, J>| *r)
    }

    /// The links still to be visited, in visiting order.
    pub open spec fn remaining(&self) -> Seq<CreatureBodyLink<L, J>> {
        dfs_order(self.spec_stack())
    }

    /// A walk of the tree rooted at `creature_link`.
    pub fn new(creature_link: &'a CreatureBodyLink<L, J>) -> (iter: Self)
        ensures
            iter.remaining() == dfs_order(seq![*creature_link]),
    {
        let mut dfs_stack: Vec<&'a CreatureBodyLink<L, J>> = Vec::new();
        dfs_stack.push(creature_link);
        let iter = CreatureLinkIter { dfs_stack };
        assert(iter.spec_stack() =~= seq![*creature_link]);
        iter
    }

    /// The next link of the walk, or `None` when every link was visited.
    pub fn next(&mut self) -> (link: Option<&'a CreatureBodyLink<L, J>>)
        ensures
            old(self).remaining().len() == 0 ==> link is None && final(self).remaining()
                == old(self).remaining(),
            old(self).remaining().len() > 0 ==> link == Some(&old(self).remaining()[0])
                && final(self).remaining() == old(self).remaining().drop_first(),
    {
        let ghost before = self.spec_stack();
        match self.dfs_stack.pop() {
            None => {
                assert(before.len() == 0);
                None
            },
            Some(current_link) => {
                assert(before.len() > 0);
                assert(before[before.len() - 1] == *current_link);
                let children = current_link.all_child_links();
                let mut k: usize = 0;
                while k < children.len()
                    invariant
                        k <= children@.len(),
                        children@ == current_link.spec_children(),
                        self.spec_stack() == before.subrange(0, before.len() - 1) + children@.take(
                            k as int,
                        ),
                    decreases children@.len() - k,
                {
                    let ghost prev = self.dfs_stack@;
                    self.dfs_stack.push(&children[k]);
                    assert(self.dfs_stack@ == prev.push(&children[k as int]));
                    assert(self.spec_stack() =~= prev.map_values(
                        |r: &'a CreatureBodyLink<L, J>| *r,
                    ).push(children@[k as int]));
                    assert(children@.take(k + 1) =~= children@.take(k as int).push(children@[k as int]));
                    k = k + 1;
                }
                assert(children@.take(children@.len() as int) =~= children@);
                assert(self.spec_stack() == after_visit(before));
                assert(dfs_order(before) == seq![before[before.len() - 1]] + dfs_order(after_visit(before)));
                assert(dfs_order(before).drop_first() =~= dfs_order(after_visit(before)));
                Some(current_link)
            },
        }
    }
}

} // verus!
