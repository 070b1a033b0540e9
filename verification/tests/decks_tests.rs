use pbanki::decks::{build_deck_tree, flatten_tree, DeckTreeNode};

fn node(id: i64, name: &str, level: i32, due: i32, children: Vec<DeckTreeNode>) -> DeckTreeNode {
    DeckTreeNode {
        deck_id: id,
        name: name.to_string(),
        level,
        collapsed: false,
        new_count: 0,
        learn_count: 0,
        review_count: due,
        children,
    }
}

fn sample_root() -> DeckTreeNode {
    // root stands for the whole collection; its review_count is the total
    node(
        0,
        "",
        0,
        5,
        vec![
            node(
                10,
                "Languages",
                1,
                3,
                vec![
                    node(11, "Languages::German", 2, 2, vec![]),
                    node(12, "Languages::French", 2, 1, vec![]),
                ],
            ),
            node(20, "Science", 1, 2, vec![]),
        ],
    )
}

#[test]
fn flatten_is_depth_first_with_parent_indices() {
    let rows = flatten_tree(&sample_root());
    let ids: Vec<i64> = rows.iter().map(|r| r.id).collect();
    assert_eq!(ids, vec![10, 11, 12, 20]);
    let parents: Vec<i32> = rows.iter().map(|r| r.parent_index).collect();
    assert_eq!(parents, vec![-1, 0, 0, -1]);
}

#[test]
fn flatten_copies_fields_and_marks_children() {
    let rows = flatten_tree(&sample_root());
    assert_eq!(rows[0].name, "Languages");
    assert_eq!(rows[0].level, 1);
    assert_eq!(rows[0].due, 3);
    assert!(rows[0].has_children);
    assert!(!rows[1].has_children);
    assert_eq!(rows[1].name, "Languages::German");
    assert_eq!(rows[3].name, "Science");
    assert!(!rows[3].collapsed);
}

#[test]
fn flatten_of_leaf_root_is_empty() {
    let rows = flatten_tree(&node(0, "", 0, 0, vec![]));
    assert!(rows.is_empty());
}

#[test]
fn deeper_nesting_points_at_the_right_parent() {
    let root = node(
        0,
        "",
        0,
        0,
        vec![node(
            1,
            "a",
            1,
            0,
            vec![node(2, "a::b", 2, 0, vec![node(3, "a::b::c", 3, 0, vec![])])],
        )],
    );
    let rows = flatten_tree(&root);
    let parents: Vec<i32> = rows.iter().map(|r| r.parent_index).collect();
    assert_eq!(parents, vec![-1, 0, 1]);
}

#[test]
fn build_deck_tree_reports_collection_due_total() {
    let tree = build_deck_tree(&sample_root());
    assert_eq!(tree.due_total, 5);
    assert_eq!(tree.deck_nodes.len(), 4);
}
