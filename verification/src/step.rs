//! The hierarchical protocol-step namespace: a tree of step descriptors
//! built once from a newline-separated list of fully qualified step paths.
//! Each line is a `/`-separated sequence of `::`-qualified names; ids are
//! assigned in input order starting at 1, with 0 reserved for the
//! synthetic root; a node's parent is the most recent previously added
//! node one level up.

use vstd::prelude::*;

use crate::error::Error;
use crate::strsplit::{
    join_prefix, join_with, module_of, name_of, split_at_seps, split_on_char,
    split_step_module_and_name, views_of, lemma_split_at_seps_len,
};

verus! {

/// The metadata of one step: its dense id, its depth in the namespace, the
/// `::`-qualified module that declares it, its short name, and its
/// module-stripped path.
#[derive(Clone, Debug)]
pub struct StepMetaData {
    pub id: u16,
    pub depth: u8,
    pub module: String,
    pub name: String,
    pub path: String,
}

impl StepMetaData {
    pub fn new(id: u16, depth: u8, module: String, name: String, path: String) -> (r: Self)
        ensures
            r.id == id,
            r.depth == depth,
            r.module == module,
            r.name == name,
            r.path == path,
    {
        Self { id, depth, module, name, path }
    }
}

/// The `/`-separated segments of a steps-file line.
pub open spec fn line_segments(s: Seq<char>) -> Seq<Seq<char>> {
    split_at_seps(s, '/')
}

/// The depth a line denotes: its number of segments.
pub open spec fn line_depth(s: Seq<char>) -> nat {
    line_segments(s).len()
}

/// The short name of the step a line denotes: the name of its last segment.
pub open spec fn line_name(s: Seq<char>) -> Seq<char> {
    name_of(line_segments(s).last())
}

/// The module of the step a line denotes: the qualifier of its last segment.
pub open spec fn line_module(s: Seq<char>) -> Seq<char> {
    module_of(line_segments(s).last())
}

/// The module-stripped path a line denotes: the segment names joined by `/`.
pub open spec fn line_path(s: Seq<char>) -> Seq<char> {
    join_with(line_segments(s).map_values(|seg: Seq<char>| name_of(seg)), seq!['/'])
}

/// Parses one steps-file line into the metadata of the step with the given
/// id.
fn parse_step_line(line: &str, id: u16) -> (r: StepMetaData)
    requires
        line_depth(line@) <= 255,
    ensures
        r.id == id,
        r.depth as nat == line_depth(line@),
        r.module@ == line_module(line@),
        r.name@ == line_name(line@),
        r.path@ == line_path(line@),
{
    let segments = split_on_char(line, '/');
    let depth: u8 = segments.len() as u8;
    let mut names: Vec<String> = Vec::new();
    let mut i: usize = 0;
    proof {
        assert(views_of(names@) =~~= line_segments(line@).map_values(
            |seg: Seq<char>| name_of(seg),
        ).take(0));
    }
    while i < segments.len()
        invariant
            i <= segments@.len(),
            views_of(segments@) =~~= line_segments(line@),
            views_of(names@) =~~= line_segments(line@).map_values(
                |seg: Seq<char>| name_of(seg),
            ).take(i as int),
            names@.len() == i,
        decreases segments@.len() - i,
    {
        let (_, seg_name) = split_step_module_and_name(segments[i].as_str());
        proof {
            let mapped = line_segments(line@).map_values(|seg: Seq<char>| name_of(seg));
            assert(mapped[i as int] == name_of(line_segments(line@)[i as int]));
            assert(views_of(names@.push(seg_name)) =~~= views_of(names@) + seq![seg_name@]);
            assert(views_of(names@) + seq![seg_name@] =~~= mapped.take(i as int + 1));
        }
        names.push(seg_name);
        i = i + 1;
    }
    let path = join_prefix(&names, names.len(), "/");
    let (module, name) = split_step_module_and_name(segments[segments.len() - 1].as_str());
    proof {
        let mapped = line_segments(line@).map_values(|seg: Seq<char>| name_of(seg));
        assert(views_of(names@) =~~= mapped);
        assert(mapped.take(names@.len() as int) =~~= mapped);
        reveal_strlit("/");
        assert("/"@ =~= seq!['/']);
        lemma_split_at_seps_len(line@, '/');
        assert(views_of(segments@).last() == line_segments(line@).last());
    }
    StepMetaData::new(id, depth, module, name, path)
}

/// One node of the step tree: its metadata, the id of its parent, and the
/// ids of its children in ascending order.
pub struct StepNode {
    pub data: StepMetaData,
    pub parent: u16,
    pub children: Vec<u16>,
}

/// The read-only registry of step descriptors. Node `i` carries id `i`;
/// node 0 is the synthetic root.
pub struct StepTree {
    pub nodes: Vec<StepNode>,
}

impl StepTree {
    pub open spec fn n_nodes(self) -> int {
        self.nodes@.len() as int
    }

    pub open spec fn depth_of(self, i: int) -> int {
        self.nodes@[i].data.depth as int
    }

    pub open spec fn parent_of(self, i: int) -> int {
        self.nodes@[i].parent as int
    }

    /// Ids are dense and positional; every non-root node's parent precedes
    /// it and sits exactly one level up; the children lists mirror the
    /// parent pointers, in ascending order.
    pub open spec fn wf(self) -> bool {
        let ns = self.nodes@;
        &&& 1 <= ns.len() <= 0x10000
        &&& ns[0].data.depth == 0
        &&& ns[0].parent == 0
        &&& forall|i: int| 0 <= i < ns.len() ==> (#[trigger] ns[i].data.id) as int == i
        &&& forall|i: int|
            1 <= i < ns.len() ==> (#[trigger] ns[i].parent) < i && ns[ns[i].parent as int].data.depth
                + 1 == ns[i].data.depth
        &&& forall|i: int, k: int|
            0 <= i < ns.len() && 0 <= k < ns[i].children@.len() ==> 1 <= (
            #[trigger] ns[i].children@[k]) < ns.len() && ns[ns[i].children@[k] as int].parent as int
                == i
        &&& forall|i: int, k1: int, k2: int|
            0 <= i < ns.len() && 0 <= k1 < k2 < ns[i].children@.len() ==> (#[trigger] ns[i].children@[k1]) < (#[trigger] ns[i].children@[k2])
        &&& forall|j: int|
            1 <= j < ns.len() ==> ns[(#[trigger] ns[j].parent) as int].children@.contains(j as u16)
    }

    /// Every non-root node's parent is the most recent earlier node one
    /// level up: no node strictly between them sits at the parent's depth.
    pub open spec fn parents_most_recent(self) -> bool {
        let ns = self.nodes@;
        forall|i: int, j: int|
            1 <= i < ns.len() && ns[i].parent < j < i ==> (#[trigger] ns[j].data.depth) as int != (
            #[trigger] ns[i].data.depth) - 1
    }
}

/// The depths that make a parsed step list attachable in one pass: depths
/// start at 1 and never jump more than one level down.
pub open spec fn steps_depths_valid(steps: Seq<StepMetaData>) -> bool {
    forall|i: int|
        0 <= i < steps.len() ==> 1 <= (#[trigger] steps[i].depth) && steps[i].depth as int <= (
        if i == 0 {
            1int
        } else {
            steps[i - 1].depth + 1
        })
}

/// Ids are assigned in input order starting at 1.
pub open spec fn steps_ids_dense(steps: Seq<StepMetaData>) -> bool {
    forall|i: int| 0 <= i < steps.len() ==> (#[trigger] steps[i].id) as int == i + 1
}

/// The invariants of a partially built tree: positional dense ids, data
/// taken from the input in order, parents earlier and one level up, and
/// each parent the most recent node at its depth.
#[verifier::opaque]
pub open spec fn partial_tree_ok(ns: Seq<StepNode>, all: Seq<StepMetaData>) -> bool {
    &&& 1 <= ns.len() <= all.len() + 1
    &&& ns[0].data.depth == 0
    &&& ns[0].parent == 0
    &&& forall|k: int| 0 <= k < ns.len() ==> (#[trigger] ns[k].data.id) as int == k
    &&& forall|k: int| 1 <= k < ns.len() ==> (#[trigger] ns[k].data) == all[k - 1]
    &&& forall|k: int|
        1 <= k < ns.len() ==> (#[trigger] ns[k].parent) < k && ns[ns[k].parent as int].data.depth
            + 1 == ns[k].data.depth
    &&& forall|k: int| 0 <= k < ns.len() ==> (#[trigger] ns[k].children@).len() == 0
    &&& forall|a: int, j: int|
        1 <= a < ns.len() && ns[a].parent < j < a ==> (#[trigger] ns[j].data.depth) as int != (
        #[trigger] ns[a].data.depth) - 1
}

/// The stack is the ancestor spine of the most recent node, and each spine
/// entry is the most recent node at its depth.
#[verifier::opaque]
pub open spec fn spine_ok(ns: Seq<StepNode>, st: Seq<u16>) -> bool {
    &&& st.len() == ns[ns.len() - 1].data.depth + 1
    &&& st[0] == 0
    &&& forall|e: int|
        0 <= e < st.len() ==> (#[trigger] st[e]) < ns.len() && ns[st[e] as int].data.depth as int
            == e
    &&& st.last() as int == ns.len() - 1
    &&& forall|e: int, j: int|
        0 <= e < st.len() && (#[trigger] st[e]) < j < ns.len() ==> (
        #[trigger] ns[j].data.depth) as int != e
}

/// Attaches one step to the most recent node one level up.
#[verifier::rlimit(100)]
fn attach_step(
    nodes: &mut Vec<StepNode>,
    stack: &mut Vec<u16>,
    md: StepMetaData,
    Ghost(all): Ghost<Seq<StepMetaData>>,
)
    requires
        partial_tree_ok(old(nodes)@, all),
        spine_ok(old(nodes)@, old(stack)@),
        old(nodes)@.len() <= all.len(),
        all.len() <= 0xffff,
        md == all[old(nodes)@.len() - 1],
        1 <= md.depth,
        md.depth as int <= old(nodes)@[old(nodes)@.len() - 1].data.depth + 1,
        md.id as int == old(nodes)@.len() as int,
    ensures
        partial_tree_ok(final(nodes)@, all),
        spine_ok(final(nodes)@, final(stack)@),
        final(nodes)@.len() == old(nodes)@.len() + 1,
        forall|k: int| 0 <= k < old(nodes)@.len() ==> final(nodes)@[k] == old(nodes)@[k],
{
    proof {
        reveal(partial_tree_ok);
        reveal(spine_ok);
    }
    let d: usize = md.depth as usize;
    let ghost st0 = stack@;
    let ghost ns0 = nodes@;
    stack.truncate(d);
    let p: u16 = stack[d - 1];
    let new_id: u16 = nodes.len() as u16;
    proof {
        assert(stack@ =~= st0.take(d as int));
        assert(nodes@[p as int].data.depth as int == d - 1);
    }
    nodes.push(StepNode { data: md, parent: p, children: Vec::new() });
    stack.push(new_id);
    proof {
        let ns2 = nodes@;
        let st2 = stack@;
        assert(ns2 =~= ns0.push(ns2[new_id as int]));
        assert(ns2[new_id as int].data == all[new_id as int - 1] && ns2[new_id as int].parent
            == p);
        assert(st2 =~= st0.take(d as int).push(new_id));
        assert forall|a: int, j: int|
            1 <= a < ns2.len() && ns2[a].parent < j < a implies (
        #[trigger] ns2[j].data.depth) as int != (#[trigger] ns2[a].data.depth) - 1 by {
            if a == new_id as int {
                assert(st0.take(d as int)[d - 1] == st0[d - 1]);
                assert(ns0[j].data.depth as int != d - 1);
            }
        }
        assert forall|e: int, j: int|
            0 <= e < st2.len() && (#[trigger] st2[e]) < j < ns2.len() implies (
        #[trigger] ns2[j].data.depth) as int != e by {
            if j < ns0.len() {
                if e < d {
                    assert(st2[e] == st0[e]);
                }
            } else {
                assert(j == new_id as int);
                assert(ns2[j].data.depth as int == d);
                if e == d {
                    assert(st2[e] == new_id);
                }
            }
        }
        assert forall|e: int|
            0 <= e < st2.len() implies (#[trigger] st2[e]) < ns2.len() && ns2[st2[e] as int].data.depth as int
            == e by {
            if e < d {
                assert(st2[e] == st0[e]);
            }
        }
    }
}

/// Fills in the children lists from the parent pointers, in ascending
/// order of child id.
#[verifier::rlimit(60)]
fn fill_children(nodes: &mut Vec<StepNode>)
    requires
        1 <= old(nodes)@.len() <= 0x10000,
        forall|k: int| 1 <= k < old(nodes)@.len() ==> (#[trigger] old(nodes)@[k].parent) < k,
        forall|k: int| 0 <= k < old(nodes)@.len() ==> (#[trigger] old(nodes)@[k].children@).len() == 0,
    ensures
        final(nodes)@.len() == old(nodes)@.len(),
        forall|k: int|
            0 <= k < old(nodes)@.len() ==> (#[trigger] final(nodes)@[k]).data == old(nodes)@[k].data
                && final(nodes)@[k].parent == old(nodes)@[k].parent,
        forall|k: int, c: int|
            0 <= k < final(nodes)@.len() && 0 <= c < final(nodes)@[k].children@.len() ==> 1 <= (
            #[trigger] final(nodes)@[k].children@[c]) < final(nodes)@.len() && final(nodes)@[final(nodes)@[k].children@[c] as int].parent as int == k,
        forall|k: int, c1: int, c2: int|
            0 <= k < final(nodes)@.len() && 0 <= c1 < c2 < final(nodes)@[k].children@.len() ==> (
            #[trigger] final(nodes)@[k].children@[c1]) < (#[trigger] final(nodes)@[k].children@[c2]),
        forall|a: int|
            1 <= a < final(nodes)@.len() ==> final(nodes)@[(#[trigger] final(nodes)@[a].parent) as int].children@.contains(a as u16),
{
    let n = nodes.len();
    let ghost fixed = nodes@;
    let mut j: usize = 1;
    while j < n
        invariant
            1 <= j <= n,
            n == nodes@.len(),
            n == fixed.len(),
            n <= 0x10000,
            forall|k: int|
                0 <= k < n ==> (#[trigger] nodes@[k]).data == fixed[k].data && nodes@[k].parent
                    == fixed[k].parent,
            forall|k: int| 1 <= k < n ==> (#[trigger] fixed[k].parent) < k,
            forall|k: int, c: int|
                0 <= k < n && 0 <= c < nodes@[k].children@.len() ==> 1 <= (
                #[trigger] nodes@[k].children@[c]) < j && nodes@[nodes@[k].children@[c] as int].parent as int
                    == k,
            forall|k: int, c1: int, c2: int|
                0 <= k < n && 0 <= c1 < c2 < nodes@[k].children@.len() ==> (
                #[trigger] nodes@[k].children@[c1]) < (#[trigger] nodes@[k].children@[c2]),
            forall|a: int|
                1 <= a < j ==> nodes@[(#[trigger] nodes@[a].parent) as int].children@.contains(
                    a as u16,
                ),
        decreases n - j,
    {
        let p: usize = nodes[j].parent as usize;
        let ghost before = nodes@;
        let jj: u16 = j as u16;
        nodes[p].children.push(jj);
        proof {
            let after = nodes@;
            assert(after[p as int].children@ =~= before[p as int].children@.push(jj));
            assert(forall|k: int| 0 <= k < n && k != p ==> after[k] == before[k]);
            assert forall|a: int|
                1 <= a < j + 1 implies after[(#[trigger] after[a].parent) as int].children@
                .contains(a as u16) by {
                if a == j as int {
                    assert(after[p as int].children@.last() == jj);
                } else {
                    let pa = before[a].parent as int;
                    assert(before[pa].children@.contains(a as u16));
                    if pa == p as int {
                        let w = choose|w: int|
                            0 <= w < before[pa].children@.len() && before[pa].children@[w]
                                == a as u16;
                        assert(after[pa].children@[w] == a as u16);
                    }
                }
            }
        }
        j = j + 1;
    }
}

/// Constructs the step tree from the parsed steps in input order. The
/// input must be grouped so that every node's children appear after it,
/// never descending more than one level at a time; each step is attached
/// to the most recent node one level up.
#[verifier::rlimit(60)]
pub fn construct_tree(steps: Vec<StepMetaData>) -> (r: StepTree)
    requires
        steps@.len() <= 0xffff,
        steps_depths_valid(steps@),
        steps_ids_dense(steps@),
    ensures
        r.wf(),
        r.parents_most_recent(),
        r.n_nodes() == steps@.len() + 1,
        forall|i: int| 0 <= i < steps@.len() ==> r.nodes@[i + 1].data == steps@[i],
{
    let ghost all = steps@;
    let mut steps = steps;
    let root_data = StepMetaData::new(
        0,
        0,
        String::from_str("ipa_core"),
        String::from_str("root"),
        String::from_str("root"),
    );
    let mut nodes: Vec<StepNode> = Vec::new();
    nodes.push(StepNode { data: root_data, parent: 0, children: Vec::new() });
    let mut stack: Vec<u16> = Vec::new();
    stack.push(0);
    proof {
        reveal(partial_tree_ok);
        reveal(spine_ok);
        assert(partial_tree_ok(nodes@, all));
        assert(spine_ok(nodes@, stack@));
    }
    let total = steps.len();
    let mut i: usize = 0;
    while i < total
        invariant
            steps@ =~= all.skip(i as int),
            total == all.len(),
            i <= all.len(),
            all.len() <= 0xffff,
            steps_depths_valid(all),
            steps_ids_dense(all),
            nodes@.len() == i + 1,
            partial_tree_ok(nodes@, all),
            spine_ok(nodes@, stack@),
        decreases total - i,
    {
        let md = steps.remove(0);
        proof {
            assert(md == all[i as int]);
            assert(steps@ =~= all.skip(i as int + 1));
            reveal(partial_tree_ok);
            reveal(spine_ok);
            if i > 0 {
                assert(nodes@[i as int].data == all[i as int - 1]);
            }
            assert(1 <= md.depth);
            assert(md.depth as int <= nodes@[nodes@.len() - 1].data.depth + 1);
            assert(md.id as int == nodes@.len() as int);
        }
        attach_step(&mut nodes, &mut stack, md, Ghost(all));
        i = i + 1;
    }
    let ghost mid = nodes@;
    proof {
        reveal(partial_tree_ok);
        assert(forall|k: int| 1 <= k < mid.len() ==> (#[trigger] mid[k].parent) < k);
        assert(forall|k: int| 0 <= k < mid.len() ==> (#[trigger] mid[k].children@).len() == 0);
    }
    fill_children(&mut nodes);
    let r = StepTree { nodes };
    proof {
        reveal(partial_tree_ok);
        let ns = r.nodes@;
        assert(ns.len() == mid.len());
        assert(ns[0].data == mid[0].data && ns[0].parent == mid[0].parent);
        assert forall|k: int|
            0 <= k < ns.len() implies (#[trigger] ns[k].data.id) as int == k by {
            assert(ns[k].data == mid[k].data);
        }
        assert forall|k: int|
            1 <= k < ns.len() implies (#[trigger] ns[k].parent) < k && ns[ns[k].parent as int].data.depth
                + 1 == ns[k].data.depth by {
            assert(ns[k].parent == mid[k].parent);
            assert(ns[k].data == mid[k].data);
            assert(ns[mid[k].parent as int].data == mid[mid[k].parent as int].data);
        }
        assert forall|a: int, j: int|
            1 <= a < ns.len() && ns[a].parent < j < a implies (
        #[trigger] ns[j].data.depth) as int != (#[trigger] ns[a].data.depth) - 1 by {
            assert(ns[j].data == mid[j].data);
            assert(ns[a].data == mid[a].data);
            assert(ns[a].parent == mid[a].parent);
        }
        assert forall|k: int| 0 <= k < all.len() implies ns[k + 1].data == all[k] by {
            assert(ns[k + 1].data == mid[k + 1].data);
        }
    }
    r
}

/// Whether the step at index `i` of the metadata matches line `i`.
pub open spec fn node_matches_line(md: StepMetaData, s: Seq<char>, i: int) -> bool {
    &&& md.id as int == i + 1
    &&& md.depth as nat == line_depth(s)
    &&& md.module@ == line_module(s)
    &&& md.name@ == line_name(s)
    &&& md.path@ == line_path(s)
}

/// Whether line `i` of a steps file is acceptable: nonempty, of
/// representable depth, and at most one level below its predecessor.
pub open spec fn line_ok(ls: Seq<String>, i: int) -> bool {
    &&& ls[i]@.len() >= 1
    &&& line_depth(ls[i]@) <= 255
    &&& line_depth(ls[i]@) <= (if i == 0 {
        1nat
    } else {
        line_depth(ls[i - 1]@) + 1
    })
}

/// Builds the state transition map: the step tree of a steps file, one
/// fully qualified step path per line. Ids are assigned in line order
/// starting at 1. Rejected are files with more lines than step ids, and,
/// by index, the first empty line, line of unrepresentable depth, or line
/// descending more than one level below its predecessor.
pub fn ipa_state_transition_map(lines: &Vec<String>) -> (r: Result<StepTree, Error>)
    ensures
        lines@.len() > 0xffff ==> r == Err::<StepTree, Error>(Error::TooManySteps),
        lines@.len() <= 0xffff ==> ((r is Ok) <==> (forall|i: int|
            0 <= i < lines@.len() ==> line_ok(lines@, i))),
        lines@.len() <= 0xffff && (r is Err) ==> (r matches Err(Error::InvalidStepLine {
            line,
        }) && !line_ok(lines@, line as int) && (forall|k: int|
            0 <= k < line as int ==> line_ok(lines@, k))),
        r matches Ok(t) ==> {
            &&& t.wf()
            &&& t.parents_most_recent()
            &&& t.n_nodes() == lines@.len() + 1
            &&& forall|i: int|
                0 <= i < lines@.len() ==> node_matches_line(
                    (#[trigger] t.nodes@[i + 1]).data,
                    lines@[i]@,
                    i,
                )
        },
{
    if lines.len() > 0xffff {
        return Err(Error::TooManySteps);
    }
    let mut steps: Vec<StepMetaData> = Vec::new();
    let mut prev_depth: u16 = 0;
    let mut i: usize = 0;
    while i < lines.len()
        invariant
            i <= lines@.len() <= 0xffff,
            steps@.len() == i,
            forall|k: int| 0 <= k < i ==> line_ok(lines@, k),
            forall|k: int|
                0 <= k < i ==> node_matches_line(#[trigger] steps@[k], lines@[k]@, k),
            steps_ids_dense(steps@),
            steps_depths_valid(steps@),
            prev_depth <= 255,
            i == 0 ==> prev_depth == 0,
            i > 0 ==> prev_depth as nat == line_depth(lines@[i as int - 1]@),
        decreases lines@.len() - i,
    {
        let line = &lines[i];
        if line.as_str().unicode_len() == 0 {
            proof {
                crate::strsplit::lemma_split_at_seps_len(line@, '/');
                assert(lines@[i as int]@.len() == 0);
                assert(!line_ok(lines@, i as int));
            }
            return Err(Error::InvalidStepLine { line: i });
        }
        let segments = split_on_char(line.as_str(), '/');
        proof {
            assert(views_of(segments@).len() == line_depth(line@));
        }
        if segments.len() > 255 {
            proof {
                assert(!line_ok(lines@, i as int));
            }
            return Err(Error::InvalidStepLine { line: i });
        }
        if segments.len() > (prev_depth as usize) + 1 {
            proof {
                assert(line_depth(lines@[i as int]@) > prev_depth as nat + 1);
                assert(!line_ok(lines@, i as int));
            }
            return Err(Error::InvalidStepLine { line: i });
        }
        let md = parse_step_line(line.as_str(), (i as u16) + 1);
        proof {
            assert(line_ok(lines@, i as int));
            assert(steps@.push(md) =~= steps@ + seq![md]);
        }
        prev_depth = md.depth as u16;
        steps.push(md);
        i = i + 1;
    }
    let t = construct_tree(steps);
    proof {
        assert forall|k: int|
            0 <= k < lines@.len() implies node_matches_line(
            (#[trigger] t.nodes@[k + 1]).data,
            lines@[k]@,
            k,
        ) by {
            assert(t.nodes@[k + 1].data == steps@[k]);
            assert(node_matches_line(steps@[k], lines@[k]@, k));
        }
    }
    Ok(t)
}

impl StepTree {
    /// Child lookup for narrowing: the child of `node` whose short name
    /// is `child_name`, if any.
    pub fn narrow(&self, node: u16, child_name: &String) -> (r: Option<u16>)
        requires
            self.wf(),
            (node as int) < self.n_nodes(),
        ensures
            r matches Some(c) ==> 1 <= (c as int) < self.n_nodes() && self.parent_of(c as int)
                == node as int && self.nodes@[c as int].data.name@ == child_name@,
            r is None ==> forall|k: int|
                0 <= k < self.nodes@[node as int].children@.len() ==> self.nodes@[(
                #[trigger] self.nodes@[node as int].children@[k]) as int].data.name@
                    != child_name@,
    {
        let ni = node as usize;
        let cnt = self.nodes[ni].children.len();
        let mut k: usize = 0;
        while k < cnt
            invariant
                self.wf(),
                ni < self.n_nodes(),
                ni as int == node as int,
                cnt == self.nodes@[ni as int].children@.len(),
                k <= cnt,
                forall|kk: int|
                    0 <= kk < k ==> self.nodes@[(#[trigger] self.nodes@[ni as int].children@[kk]) as int].data.name@
                        != child_name@,
            decreases cnt - k,
        {
            let c = self.nodes[ni].children[k];
            proof {
                assert(c == self.nodes@[ni as int].children@[k as int]);
                assert(1 <= (c as int) && (c as int) < self.n_nodes());
                assert(self.nodes@[c as int].parent as int == ni as int);
            }
            let name_matches = self.nodes[c as usize].data.name == *child_name;
            if name_matches {
                proof {
                    assert(self.nodes@[c as int].data.name@ == child_name@);
                    assert(1 <= (c as int) && (c as int) < self.n_nodes());
                    assert(ni as int == node as int);
                    assert(self.nodes@[c as int].parent as int == ni as int);
                    assert(self.parent_of(c as int) == node as int);
                }
                return Some(c);
            }
            k = k + 1;
        }
        None
    }
}

/// Node id `j` stands in some bucket of `r`.
pub open spec fn id_in_buckets(r: Seq<(String, Vec<u16>)>, j: int) -> bool {
    exists|b: int, c: int|
        0 <= b < r.len() && 0 <= c < r[b].1@.len() && (#[trigger] r[b].1@[c]) as int == j
}

/// The queue of a breadth-first walk holds exactly the nodes whose parent
/// is the root or has been processed.
pub open spec fn bfs_frontier(t: StepTree, q: Seq<u16>, processed: Seq<u16>) -> bool {
    &&& forall|a: int|
        1 <= a < t.n_nodes() && #[trigger] q.contains(a as u16) ==> (t.nodes@[a].parent == 0
            || processed.contains(t.nodes@[a].parent))
    &&& forall|a: int|
        1 <= a < t.n_nodes() && ((#[trigger] t.nodes@[a].parent) == 0 || processed.contains(
            t.nodes@[a].parent,
        )) ==> q.contains(a as u16)
}

/// A sequence of distinct ids drawn from `1..n` has fewer than `n` entries.
proof fn lemma_distinct_ids_bound(q: Seq<u16>, n: int)
    requires
        n >= 1,
        q.no_duplicates(),
        forall|p: int| 0 <= p < q.len() ==> 1 <= (#[trigger] q[p]) < n,
    ensures
        q.len() <= n - 1,
{
    broadcast use vstd::seq_lib::seq_to_set_is_finite;

    let qi = q.map_values(|x: u16| x as int);
    assert(qi.no_duplicates()) by {
        assert forall|p1: int, p2: int|
            0 <= p1 < qi.len() && 0 <= p2 < qi.len() && p1 != p2 implies qi[p1] != qi[p2] by {
            assert(q[p1] != q[p2]);
        }
    }
    qi.unique_seq_to_set();
    assert(qi.to_set().subset_of(vstd::set_lib::set_int_range(1, n))) by {
        assert forall|x: int| qi.to_set().contains(x) implies vstd::set_lib::set_int_range(
            1,
            n,
        ).contains(x) by {
            let p = choose|p: int| 0 <= p < qi.len() && qi[p] == x;
            assert(1 <= q[p] < n);
        }
    }
    vstd::set_lib::lemma_int_range(1, n);
    vstd::set_lib::lemma_len_subset(qi.to_set(), vstd::set_lib::set_int_range(1, n));
}

/// Once the breadth-first walk has processed its whole queue, the queue
/// holds every non-root node.
proof fn lemma_bfs_covers(t: StepTree, q: Seq<u16>, j: int)
    requires
        t.wf(),
        bfs_frontier(t, q, q),
        1 <= j < t.n_nodes(),
    ensures
        q.contains(j as u16),
    decreases j,
{
    let p = t.nodes@[j].parent;
    if p == 0 {
        assert(q.contains(j as u16));
    } else {
        lemma_bfs_covers(t, q, p as int);
        assert(q.contains(j as u16));
    }
}

/// Partitions the non-root nodes by their module string: every non-root
/// node id appears in exactly one bucket, each bucket's nodes carry the
/// bucket's module, and no two buckets share a module. Buckets fill in
/// breadth-first order.
#[verifier::rlimit(100)]
pub fn group_by_modules(t: &StepTree) -> (r: Vec<(String, Vec<u16>)>)
    requires
        t.wf(),
    ensures
        forall|b: int, c: int|
            0 <= b < r@.len() && 0 <= c < r@[b].1@.len() ==> 1 <= ((#[trigger] r@[b].1@[c]) as int)
                && (r@[b].1@[c] as int) < t.n_nodes() && t.nodes@[r@[b].1@[c] as int].data.module@
                == r@[b].0@,
        forall|b1: int, b2: int| 0 <= b1 < b2 < r@.len() ==> r@[b1].0@ != r@[b2].0@,
        forall|j: int| 1 <= j < t.n_nodes() ==> id_in_buckets(r@, j),
        forall|b1: int, c1: int, b2: int, c2: int|
            0 <= b1 < r@.len() && 0 <= c1 < r@[b1].1@.len() && 0 <= b2 < r@.len() && 0 <= c2
                < r@[b2].1@.len() && (b1 != b2 || c1 != c2) ==> (#[trigger] r@[b1].1@[c1]) != (
            #[trigger] r@[b2].1@[c2]),
{
    let n = t.nodes.len();
    let mut queue: Vec<u16> = Vec::new();
    let root_child_count = t.nodes[0].children.len();
    let mut k: usize = 0;
    while k < root_child_count
        invariant
            t.wf(),
            n == t.n_nodes(),
            root_child_count == t.nodes@[0].children@.len(),
            k <= root_child_count,
            queue@ =~= t.nodes@[0].children@.take(k as int),
        decreases root_child_count - k,
    {
        let c = t.nodes[0].children[k];
        queue.push(c);
        proof {
            assert(queue@ =~= t.nodes@[0].children@.take(k as int + 1));
        }
        k = k + 1;
    }
    let mut out: Vec<(String, Vec<u16>)> = Vec::new();
    let mut head: usize = 0;
    proof {
        assert(queue@ =~= t.nodes@[0].children@);
        assert(queue@.take(0) =~= Seq::<u16>::empty());
        assert(queue@.no_duplicates()) by {
            assert forall|p1: int, p2: int|
                0 <= p1 < queue@.len() && 0 <= p2 < queue@.len() && p1 != p2 implies queue@[p1]
                != queue@[p2] by {
                assert(t.nodes@[0].children@[p1] == queue@[p1]);
            }
        }
        assert forall|a: int|
            1 <= a < n && #[trigger] queue@.contains(a as u16) implies (t.nodes@[a].parent == 0
                || queue@.take(0).contains(t.nodes@[a].parent)) by {
            let w = choose|w: int| 0 <= w < queue@.len() && queue@[w] == a as u16;
            assert(t.nodes@[0].children@[w] == a as u16);
        }
        assert forall|a: int|
            1 <= a < n && ((#[trigger] t.nodes@[a].parent) == 0 || queue@.take(0).contains(
                t.nodes@[a].parent,
            )) implies queue@.contains(a as u16) by {
            assert(t.nodes@[(t.nodes@[a].parent) as int].children@.contains(a as u16));
        }
        assert(bfs_frontier(*t, queue@, queue@.take(0)));
    }
    while head < queue.len()
        invariant
            t.wf(),
            n == t.n_nodes(),
            head <= queue@.len(),
            queue@.no_duplicates(),
            forall|p: int| 0 <= p < queue@.len() ==> 1 <= (#[trigger] queue@[p]) < n,
            bfs_frontier(*t, queue@, queue@.take(head as int)),
            forall|b: int, c: int|
                0 <= b < out@.len() && 0 <= c < out@[b].1@.len() ==> 1 <= ((
                #[trigger] out@[b].1@[c]) as int) && (out@[b].1@[c] as int) < n
                    && t.nodes@[out@[b].1@[c] as int].data.module@ == out@[b].0@ && queue@.take(
                    head as int,
                ).contains(out@[b].1@[c]),
            forall|b1: int, b2: int| 0 <= b1 < b2 < out@.len() ==> out@[b1].0@ != out@[b2].0@,
            forall|p: int| 0 <= p < head ==> id_in_buckets(out@, (#[trigger] queue@[p]) as int),
            forall|b1: int, c1: int, b2: int, c2: int|
                0 <= b1 < out@.len() && 0 <= c1 < out@[b1].1@.len() && 0 <= b2 < out@.len() && 0
                    <= c2 < out@[b2].1@.len() && (b1 != b2 || c1 != c2) ==> (
                #[trigger] out@[b1].1@[c1]) != (#[trigger] out@[b2].1@[c2]),
        decreases n - head,
    {
        proof {
            lemma_distinct_ids_bound(queue@, n as int);
        }
        let current: u16 = queue[head];
        let ci: usize = current as usize;
        let ghost q0 = queue@;
        let ghost processed0 = queue@.take(head as int);
        let ghost processed1 = queue@.take(head as int + 1);
        proof {
            assert(processed1 =~= processed0.push(current));
            assert(!processed0.contains(current)) by {
                if processed0.contains(current) {
                    let w = choose|w: int| 0 <= w < processed0.len() && processed0[w] == current;
                    assert(q0[w] == q0[head as int]);
                }
            }
        }
        // enqueue the children of the current node
        let child_count = t.nodes[ci].children.len();
        let mut k2: usize = 0;
        while k2 < child_count
            invariant
                t.wf(),
                n == t.n_nodes(),
                1 <= ci < n,
                child_count == t.nodes@[ci as int].children@.len(),
                k2 <= child_count,
                queue@ =~= q0 + t.nodes@[ci as int].children@.take(k2 as int),
            decreases child_count - k2,
        {
            let c = t.nodes[ci].children[k2];
            queue.push(c);
            proof {
                assert(queue@ =~= q0 + t.nodes@[ci as int].children@.take(k2 as int + 1));
            }
            k2 = k2 + 1;
        }
        proof {
            let kids = t.nodes@[ci as int].children@;
            assert(queue@ =~= q0 + kids);
            assert(queue@.take(head as int + 1) =~= processed1);
            assert(queue@.take(head as int) =~= processed0);
            // the children were not yet in the queue
            assert forall|x: int| 0 <= x < kids.len() implies !q0.contains(#[trigger] kids[x]) by {
                let child = kids[x];
                assert(t.nodes@[child as int].parent as int == ci as int);
                assert(1 <= (child as int) && (child as int) < n);
                if q0.contains(child) {
                    assert(t.nodes@[child as int].parent == 0 || processed0.contains(
                        t.nodes@[child as int].parent,
                    ));
                }
            }
            assert(queue@.no_duplicates()) by {
                assert forall|p1: int, p2: int|
                    0 <= p1 < p2 < queue@.len() implies queue@[p1] != queue@[p2] by {
                    if p1 < q0.len() && p2 >= q0.len() {
                        if queue@[p1] == queue@[p2] {
                            assert(queue@[p2] == kids[p2 - q0.len()]);
                            assert(q0.contains(kids[p2 - q0.len()]));
                        }
                    } else if p1 >= q0.len() {
                        assert(queue@[p1] == kids[p1 - q0.len()]);
                        assert(queue@[p2] == kids[p2 - q0.len()]);
                        assert(kids[p1 - q0.len()] != kids[p2 - q0.len()]);
                    }
                }
            }
            assert(forall|p: int| 0 <= p < queue@.len() ==> 1 <= (#[trigger] queue@[p]) < n);
            // the frontier stays closed for the advanced head
            assert forall|a: int|
                1 <= a < n && #[trigger] queue@.contains(a as u16) implies (t.nodes@[a].parent
                == 0 || processed1.contains(t.nodes@[a].parent)) by {
                let w = choose|w: int| 0 <= w < queue@.len() && queue@[w] == a as u16;
                let pa = t.nodes@[a].parent;
                if w < q0.len() {
                    assert(q0[w] == a as u16);
                    assert(q0.contains(a as u16));
                    if pa != 0 {
                        assert(processed0.contains(pa));
                        let v = choose|v: int| 0 <= v < processed0.len() && processed0[v] == pa;
                        assert(processed1[v] == pa);
                    }
                } else {
                    assert(kids[w - q0.len()] == a as u16);
                    assert(pa as int == ci as int);
                    assert(processed1[head as int] == current);
                }
            }
            assert forall|a: int|
                1 <= a < n && ((#[trigger] t.nodes@[a].parent) == 0 || processed1.contains(
                    t.nodes@[a].parent,
                )) implies queue@.contains(a as u16) by {
                let pa = t.nodes@[a].parent;
                if pa == 0 || processed0.contains(pa) {
                    assert(q0.contains(a as u16));
                    let w = choose|w: int| 0 <= w < q0.len() && q0[w] == a as u16;
                    assert(queue@[w] == a as u16);
                } else {
                    let v = choose|v: int| 0 <= v < processed1.len() && processed1[v] == pa;
                    assert(v == head as int);
                    assert(pa == current);
                    assert(t.nodes@[pa as int].children@.contains(a as u16));
                    let w = choose|w: int| 0 <= w < kids.len() && kids[w] == a as u16;
                    assert(queue@[q0.len() + w] == a as u16);
                }
            }
            assert(bfs_frontier(*t, queue@, processed1));
        }
        // place the current node in its module's bucket
        let module: &String = &t.nodes[ci].data.module;
        let mut target: usize = out.len();
        let mut b: usize = 0;
        while b < out.len()
            invariant
                b <= out@.len(),
                target == out@.len() || (target < b && out@[target as int].0@ == module@),
                target == out@.len() ==> forall|bb: int|
                    0 <= bb < b ==> (#[trigger] out@[bb].0@) != module@,
                module@ == t.nodes@[ci as int].data.module@,
            decreases out@.len() - b,
        {
            if target == out.len() && out[b].0 == *module {
                target = b;
            }
            b = b + 1;
        }
        let ghost out0 = out@;
        if target == out.len() {
            let mut fresh: Vec<u16> = Vec::new();
            fresh.push(current);
            out.push((module.clone(), fresh));
        } else {
            out[target].1.push(current);
        }
        proof {
            let outn = out@;
            if target < out0.len() {
                assert(outn[target as int].1@ =~= out0[target as int].1@.push(current));
                assert(outn[target as int].0 == out0[target as int].0);
                assert(forall|bb: int|
                    0 <= bb < out0.len() && bb != target ==> outn[bb] == out0[bb]);
            } else {
                assert(outn.len() == out0.len() + 1);
                assert(forall|bb: int| 0 <= bb < out0.len() ==> outn[bb] == out0[bb]);
                assert(outn[out0.len() as int].1@ =~= seq![current]);
                assert(outn[out0.len() as int].0@ == module@);
            }
            // bucket contents: valid ids, matching module, placed once
            assert forall|b2: int, c2: int|
                0 <= b2 < outn.len() && 0 <= c2 < outn[b2].1@.len() implies 1 <= ((
            #[trigger] outn[b2].1@[c2]) as int) && (outn[b2].1@[c2] as int) < n && t.nodes@[outn[b2].1@[c2] as int].data.module@ == outn[b2].0@ && processed1.contains(
                outn[b2].1@[c2],
            ) by {
                if b2 == target as int && c2 == outn[b2].1@.len() - 1 {
                    assert(outn[b2].1@[c2] == current);
                    assert(processed1.last() == current);
                } else {
                    assert(outn[b2].1@[c2] == out0[b2].1@[c2]);
                    assert(processed0.contains(out0[b2].1@[c2]));
                    let v = choose|v: int|
                        0 <= v < processed0.len() && processed0[v] == out0[b2].1@[c2];
                    assert(processed1[v] == out0[b2].1@[c2]);
                }
            }
            assert forall|p: int|
                0 <= p < head + 1 implies id_in_buckets(outn, (#[trigger] q0[p]) as int) by {
                if p < head {
                    assert(id_in_buckets(out0, q0[p] as int));
                    let (bb, cc) = choose|bb: int, cc: int|
                        0 <= bb < out0.len() && 0 <= cc < out0[bb].1@.len() && (
                        #[trigger] out0[bb].1@[cc]) as int == q0[p] as int;
                    assert(outn[bb].1@[cc] as int == q0[p] as int);
                } else {
                    if target == out0.len() {
                        assert(outn[target as int].1@[0] == current);
                    } else {
                        assert(outn[target as int].1@.last() == current);
                    }
                }
            }
            assert forall|b1: int, c1: int, b2: int, c2: int|
                0 <= b1 < outn.len() && 0 <= c1 < outn[b1].1@.len() && 0 <= b2 < outn.len() && 0
                    <= c2 < outn[b2].1@.len() && (b1 != b2 || c1 != c2) implies (
            #[trigger] outn[b1].1@[c1]) != (#[trigger] outn[b2].1@[c2]) by {
                let new1 = b1 == target as int && c1 == outn[b1].1@.len() - 1;
                let new2 = b2 == target as int && c2 == outn[b2].1@.len() - 1;
                if new1 && !new2 {
                    assert(outn[b2].1@[c2] == out0[b2].1@[c2]);
                    assert(processed0.contains(out0[b2].1@[c2]));
                } else if !new1 && new2 {
                    assert(outn[b1].1@[c1] == out0[b1].1@[c1]);
                    assert(processed0.contains(out0[b1].1@[c1]));
                } else if !new1 && !new2 {
                    assert(outn[b1].1@[c1] == out0[b1].1@[c1]);
                    assert(outn[b2].1@[c2] == out0[b2].1@[c2]);
                }
            }
            assert(queue@.take(head as int + 1) =~= processed1);
        }
        head = head + 1;
    }
    proof {
        assert(queue@.take(head as int) =~= queue@);
        assert(bfs_frontier(*t, queue@, queue@));
        assert forall|j: int| 1 <= j < t.n_nodes() implies id_in_buckets(out@, j) by {
            lemma_bfs_covers(*t, queue@, j);
            let w = choose|w: int| 0 <= w < queue@.len() && queue@[w] == j as u16;
            assert(id_in_buckets(out@, queue@[w] as int));
        }
    }
    out
}

} // verus!
