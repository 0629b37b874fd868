use creature_simulator::link_tree::{CreatureBodyLink, CreatureLinkIter};

fn walk(root: &CreatureBodyLink<char, u32>) -> Vec<char> {
    let mut iter = CreatureLinkIter::new(root);
    let mut order = Vec::new();
    while let Some(link) = iter.next() {
        order.push(*link.link());
    }
    order
}

#[test]
fn a_lone_link_is_walked_alone() {
    let root: CreatureBodyLink<char, u32> = CreatureBodyLink::new('r');
    assert_eq!(walk(&root), vec!['r']);
    assert!(root.all_child_links().is_empty());
}

#[test]
fn walk_is_depth_first_last_child_first() {
    let mut a = CreatureBodyLink::new('a');
    a.add_child_link(CreatureBodyLink::new('c'), 3);
    let mut root = CreatureBodyLink::new('r');
    root.add_child_link(a, 1);
    root.add_child_link(CreatureBodyLink::new('b'), 2);
    assert_eq!(walk(&root), vec!['r', 'b', 'a', 'c']);
    assert_eq!(root.joints(), &vec![1, 2]);
    assert_eq!(root.all_child_links().len(), 2);
    assert_eq!(*root.all_child_links()[0].link(), 'a');
}

#[test]
fn exhausted_walk_stays_exhausted() {
    let root: CreatureBodyLink<char, u32> = CreatureBodyLink::new('r');
    let mut iter = CreatureLinkIter::new(&root);
    assert!(iter.next().is_some());
    assert!(iter.next().is_none());
    assert!(iter.next().is_none());
}
