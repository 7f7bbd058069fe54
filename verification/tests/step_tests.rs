use ipa_core::context::{narrowed_path, Context};
use ipa_core::error::Error;
use ipa_core::role::Role;
use ipa_core::step::{group_by_modules, ipa_state_transition_map, StepTree};
use ipa_core::strsplit::split_step_module_and_name;

fn lines(v: &[&str]) -> Vec<String> {
    v.iter().map(|s| s.to_string()).collect()
}

fn sample_tree() -> StepTree {
    let input = lines(&["s::S::A", "s::S::A/t::T::B", "s::S::A/t::T::C", "s::S::D"]);
    ipa_state_transition_map(&input).unwrap()
}

#[test]
fn step_tree_shape() {
    let tree = sample_tree();
    assert_eq!(tree.nodes.len(), 5);
    // ids are dense and positional
    for (i, node) in tree.nodes.iter().enumerate() {
        assert_eq!(node.data.id as usize, i);
    }
    // root has children A and D; A has children B and C
    assert_eq!(tree.nodes[0].children, vec![1u16, 4u16]);
    assert_eq!(tree.nodes[1].children, vec![2u16, 3u16]);
    assert_eq!(tree.nodes[2].children, Vec::<u16>::new());
    assert_eq!(tree.nodes[1].data.name, "A");
    assert_eq!(tree.nodes[2].data.name, "B");
    assert_eq!(tree.nodes[3].data.name, "C");
    assert_eq!(tree.nodes[4].data.name, "D");
    assert_eq!(tree.nodes[1].data.module, "s::S");
    assert_eq!(tree.nodes[2].data.module, "t::T");
    assert_eq!(tree.nodes[2].data.path, "A/B");
    assert_eq!(tree.nodes[4].data.path, "D");
    // every non-root node sits one level below its parent
    for i in 1..tree.nodes.len() {
        let p = tree.nodes[i].parent as usize;
        assert_eq!(tree.nodes[p].data.depth + 1, tree.nodes[i].data.depth);
    }
}

#[test]
fn step_tree_rejects_empty_line() {
    let input = lines(&["s::S::A", ""]);
    assert!(matches!(
        ipa_state_transition_map(&input),
        Err(Error::InvalidStepLine { line: 1 })
    ));
}

#[test]
fn step_tree_rejects_depth_jump() {
    let input = lines(&["a::A", "b::B/c::C/d::D"]);
    assert!(matches!(
        ipa_state_transition_map(&input),
        Err(Error::InvalidStepLine { line: 1 })
    ));
    let input = lines(&["a::A/b::B"]);
    assert!(matches!(
        ipa_state_transition_map(&input),
        Err(Error::InvalidStepLine { line: 0 })
    ));
}

#[test]
fn split_module_and_name() {
    let (module, name) =
        split_step_module_and_name("ipa::protocol::modulus_conversion::convert_shares::Step::xor1");
    assert_eq!(module, "ipa::protocol::modulus_conversion::convert_shares::Step");
    assert_eq!(name, "xor1");
    let (module, name) = split_step_module_and_name("bare");
    assert_eq!(module, "");
    assert_eq!(name, "bare");
}

#[test]
fn group_by_modules_partitions() {
    let tree = sample_tree();
    let buckets = group_by_modules(&tree);
    assert_eq!(buckets.len(), 2);
    let mut seen = vec![false; tree.nodes.len()];
    for (module, ids) in &buckets {
        for id in ids {
            let node = &tree.nodes[*id as usize];
            assert_eq!(&node.data.module, module);
            assert!(!seen[*id as usize]);
            seen[*id as usize] = true;
        }
    }
    // the buckets cover the whole tree minus the root, each node once
    assert!(!seen[0]);
    assert!(seen[1..].iter().all(|v| *v));
    // breadth-first: the root's children fill their bucket before the leaves
    let s_bucket = buckets.iter().find(|(m, _)| m == "s::S").unwrap();
    assert_eq!(s_bucket.1, vec![1u16, 4u16]);
    let t_bucket = buckets.iter().find(|(m, _)| m == "t::T").unwrap();
    assert_eq!(t_bucket.1, vec![2u16, 3u16]);
}

#[test]
fn narrowing_follows_children() {
    let tree = sample_tree();
    let root = Context::new(Role::H1, 0);
    let a = root.narrow(&tree, &"A".to_string()).unwrap();
    assert_eq!(a.node, 1);
    assert_eq!(a.role, Role::H1);
    let b = a.narrow(&tree, &"B".to_string()).unwrap();
    assert_eq!(b.node, 2);
    assert!(a.narrow(&tree, &"missing".to_string()).is_none());
    // the same (parent, child) pair narrows to the same node
    let a2 = root.narrow(&tree, &"A".to_string()).unwrap();
    assert_eq!(a2.node, a.node);
}

#[test]
fn narrowed_paths_concatenate() {
    let p = narrowed_path("protocol", "multiply");
    assert_eq!(p, "protocol/multiply");
    assert_ne!(narrowed_path("protocol", "left"), narrowed_path("protocol", "right"));
}

#[test]
fn step_tree_rejects_too_many_lines() {
    let mut input: Vec<String> = Vec::new();
    input.push("a::A".to_string());
    for _ in 0..0xffff {
        input.push("b::B".to_string());
    }
    assert!(matches!(ipa_state_transition_map(&input), Err(Error::TooManySteps)));
}
