//! The protocol execution context: a helper identity together with a
//! cursor into the read-only step tree. Narrowing descends one level into
//! the step namespace; the same (parent, child) pair always yields the
//! same child node, and different children yield disjoint subtrees.

use vstd::prelude::*;

use crate::role::Role;
use crate::step::StepTree;

verus! {

/// A protocol's execution context: who this helper is and which step of
/// the namespace it currently runs under.
#[derive(Clone, Copy, Debug)]
pub struct Context {
    pub role: Role,
    pub node: u16,
}

impl Context {
    pub fn new(role: Role, node: u16) -> (r: Self)
        ensures
            r.role == role,
            r.node == node,
    {
        Context { role, node }
    }

    /// Descends into the child step of the given name, when the tree has
    /// one under the current node.
    pub fn narrow(&self, tree: &StepTree, child_name: &String) -> (r: Option<Context>)
        requires
            tree.wf(),
            (self.node as int) < tree.n_nodes(),
        ensures
            r matches Some(c) ==> c.role == self.role && 1 <= (c.node as int) < tree.n_nodes()
                && tree.parent_of(c.node as int) == self.node as int && tree.nodes@[c.node as int].data.name@
                == child_name@,
            r is None ==> forall|k: int|
                0 <= k < tree.nodes@[self.node as int].children@.len() ==> tree.nodes@[(
                #[trigger] tree.nodes@[self.node as int].children@[k]) as int].data.name@
                    != child_name@,
    {
        match tree.narrow(self.node, child_name) {
            Some(c) => Some(Context { role: self.role, node: c }),
            None => None,
        }
    }
}

/// The step path of a child context: the parent path, a separator, and
/// the child step's path.
pub fn narrowed_path(parent: &str, child: &str) -> (r: String)
    ensures
        r@ == parent@ + seq!['/'] + child@,
{
    let mut out = String::from_str(parent);
    out.append("/");
    out.append(child);
    proof {
        reveal_strlit("/");
        assert("/"@ =~= seq!['/']);
        assert(out@ =~= parent@ + seq!['/'] + child@);
    }
    out
}

/// Narrowing is injective in the child: two different children of the
/// same parent narrow to different paths.
pub proof fn lemma_narrowed_paths_distinct(parent: Seq<char>, c1: Seq<char>, c2: Seq<char>)
    requires
        c1 != c2,
    ensures
        parent + seq!['/'] + c1 != parent + seq!['/'] + c2,
{
    let p1 = parent + seq!['/'] + c1;
    let p2 = parent + seq!['/'] + c2;
    if p1 == p2 {
        assert(p1.len() == parent.len() + 1 + c1.len());
        assert(p2.len() == parent.len() + 1 + c2.len());
        assert(c1.len() == c2.len());
        assert forall|i: int| 0 <= i < c1.len() implies c1[i] == c2[i] by {
            assert(p1[parent.len() + 1 + i] == c1[i]);
            assert(p2[parent.len() + 1 + i] == c2[i]);
        }
        assert(c1 =~= c2);
    }
}

} // verus!
