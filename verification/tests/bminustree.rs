use er_editor::bminustree::{BMinusNode, BuildError, MAX_KEYS, NODE_COUNT};

fn keys(xs: &[&str]) -> Vec<String> {
    xs.iter().map(|s| s.to_string()).collect()
}

/// In-order traversal: child, key, child, key, ..., child.
fn in_order(node: &BMinusNode, out: &mut Vec<String>) {
    if node.children.is_empty() {
        out.extend(node.keys.iter().cloned());
    } else {
        for (i, child) in node.children.iter().enumerate() {
            in_order(child, out);
            if i < node.keys.len() {
                out.push(node.keys[i].clone());
            }
        }
    }
}

fn total_keys(node: &BMinusNode) -> usize {
    node.keys.len() + node.children.iter().map(total_keys).sum::<usize>()
}

fn check_shape(node: &BMinusNode) {
    assert!(1 <= node.keys.len() && node.keys.len() <= NODE_COUNT);
    if !node.children.is_empty() {
        assert_eq!(node.children.len(), node.keys.len() + 1);
    }
    for child in &node.children {
        check_shape(child);
    }
}

#[test]
fn three_keys_give_one_leaf() {
    let node = BMinusNode::build(keys(&["a", "b", "c"])).unwrap();
    assert_eq!(node.keys, keys(&["a", "b", "c"]));
    assert!(node.children.is_empty());
}

#[test]
fn five_keys_split_at_middle() {
    let node = BMinusNode::build(keys(&["a", "b", "c", "d", "e"])).unwrap();
    assert_eq!(node.keys, keys(&["c"]));
    assert_eq!(node.children.len(), 2);
    assert_eq!(node.children[0].keys, keys(&["a", "b"]));
    assert!(node.children[0].children.is_empty());
    assert_eq!(node.children[1].keys, keys(&["d", "e"]));
    assert!(node.children[1].children.is_empty());
}

#[test]
fn four_keys_split_left_of_middle() {
    let node = BMinusNode::build(keys(&["a", "b", "c", "d"])).unwrap();
    assert_eq!(node.keys, keys(&["b"]));
    assert_eq!(node.children.len(), 2);
    assert_eq!(node.children[0].keys, keys(&["a"]));
    assert_eq!(node.children[1].keys, keys(&["c", "d"]));
}

#[test]
fn eight_keys_use_pair_table() {
    let node = BMinusNode::build(keys(&["a", "b", "c", "d", "e", "f", "g", "h"])).unwrap();
    assert_eq!(node.keys, keys(&["b", "e"]));
    assert_eq!(node.children.len(), 3);
    assert_eq!(node.children[0].keys, keys(&["a"]));
    assert_eq!(node.children[1].keys, keys(&["c", "d"]));
    assert_eq!(node.children[2].keys, keys(&["f", "g", "h"]));
}

#[test]
fn eleven_keys_use_triple_table() {
    let node = BMinusNode::build(keys(&[
        "a", "b", "c", "d", "e", "f", "g", "h", "i", "j", "k",
    ]))
    .unwrap();
    assert_eq!(node.keys, keys(&["b", "d", "g"]));
    assert_eq!(node.children.len(), 4);
    assert_eq!(node.children[0].keys, keys(&["a"]));
    assert_eq!(node.children[1].keys, keys(&["c"]));
    assert_eq!(node.children[2].keys, keys(&["e", "f"]));
    // The last slice holds h, i, j, k: four keys, so it splits once more.
    let last = &node.children[3];
    assert_eq!(last.keys, keys(&["i"]));
    assert_eq!(last.children.len(), 2);
    assert_eq!(last.children[0].keys, keys(&["h"]));
    assert_eq!(last.children[1].keys, keys(&["j", "k"]));
}

#[test]
fn nine_and_ten_keys_use_pair_table() {
    let node = BMinusNode::build(keys(&["a", "b", "c", "d", "e", "f", "g", "h", "i"])).unwrap();
    assert_eq!(node.keys, keys(&["b", "f"]));
    assert_eq!(node.children.len(), 3);
    assert_eq!(node.children[0].keys, keys(&["a"]));
    assert_eq!(node.children[1].keys, keys(&["c", "d", "e"]));
    assert_eq!(node.children[2].keys, keys(&["g", "h", "i"]));

    let node = BMinusNode::build(keys(&[
        "a", "b", "c", "d", "e", "f", "g", "h", "i", "j",
    ]))
    .unwrap();
    assert_eq!(node.keys, keys(&["c", "g"]));
    assert_eq!(node.children.len(), 3);
    assert_eq!(node.children[0].keys, keys(&["a", "b"]));
    assert_eq!(node.children[1].keys, keys(&["d", "e", "f"]));
    assert_eq!(node.children[2].keys, keys(&["h", "i", "j"]));
}

#[test]
fn every_supported_length_reads_back_in_order() {
    for n in 1..=MAX_KEYS {
        let input: Vec<String> = (0..n).map(|i| format!("key{:02}", i)).collect();
        let node = BMinusNode::build(input.clone()).unwrap();
        check_shape(&node);
        assert_eq!(total_keys(&node), n);
        let mut walked = Vec::new();
        in_order(&node, &mut walked);
        assert_eq!(walked, input);
    }
}

#[test]
fn empty_input_is_refused() {
    assert_eq!(
        BMinusNode::build(Vec::new()).unwrap_err(),
        BuildError::EmptyInput
    );
}

#[test]
fn oversized_input_is_refused() {
    let input: Vec<String> = (0..12).map(|i| format!("k{}", i)).collect();
    assert_eq!(
        BMinusNode::build(input).unwrap_err(),
        BuildError::TooManyKeys { len: 12 }
    );
    let input: Vec<String> = (0..100).map(|i| format!("k{}", i)).collect();
    assert_eq!(
        BMinusNode::build(input).unwrap_err(),
        BuildError::TooManyKeys { len: 100 }
    );
}

#[test]
fn debug_renders_leaf_with_separators() {
    let node = BMinusNode::build(keys(&["a", "b", "c"])).unwrap();
    assert_eq!(node.debug(), "[a, b, c]\n");
    let node = BMinusNode::build(keys(&["a"])).unwrap();
    assert_eq!(node.debug(), "[a, ]\n");
}

#[test]
fn debug_indents_children_with_dashes() {
    let node = BMinusNode::build(keys(&["a", "b", "c", "d", "e"])).unwrap();
    assert_eq!(node.debug(), "[c, ]\n - [a, b, ]\n - [d, e, ]\n");
}

#[test]
fn debug_indents_two_levels() {
    let node = BMinusNode::build(keys(&[
        "a", "b", "c", "d", "e", "f", "g", "h", "i", "j", "k",
    ]))
    .unwrap();
    assert_eq!(
        node.debug(),
        "[b, d, g]\n - [a, ]\n - [c, ]\n - [e, f, ]\n - [i, ]\n -  - [h, ]\n -  - [j, k, ]\n"
    );
}

#[test]
fn clone_copies_the_whole_tree() {
    let node = BMinusNode::build(keys(&["a", "b", "c", "d", "e", "f", "g", "h"])).unwrap();
    let copy = node.clone();
    assert_eq!(copy.keys, node.keys);
    assert_eq!(copy.children.len(), node.children.len());
    let mut original_walk = Vec::new();
    in_order(&node, &mut original_walk);
    let mut copied_walk = Vec::new();
    in_order(&copy, &mut copied_walk);
    assert_eq!(copied_walk, original_walk);
    assert_eq!(copy.debug(), node.debug());
}

#[test]
fn debug_strips_line_breaks_from_keys() {
    let node = BMinusNode::build(keys(&["li\r\nne", "plain\n"])).unwrap();
    assert_eq!(node.debug(), "[line, plain, ]\n");
}
