use starship::trie::{Trie, TrieNode, NO_CHILD};

#[test]
fn a_new_trie_holds_nothing() {
    let trie = Trie::new();
    assert!(!trie.contains(""));
    assert!(!trie.contains("rs"));
}

#[test]
fn inserted_tokens_are_found() {
    let mut trie = Trie::new();
    trie.insert("gz");
    trie.insert("tar.gz");
    assert!(trie.contains("gz"));
    assert!(trie.contains("tar.gz"));
    assert!(!trie.contains("tar"));
    assert!(!trie.contains(""));
}

#[test]
fn a_prefix_of_a_token_is_no_token() {
    let mut trie = Trie::new();
    trie.insert("toml");
    assert!(!trie.contains("t"));
    assert!(!trie.contains("to"));
    assert!(!trie.contains("tom"));
    assert!(trie.contains("toml"));
    assert!(!trie.contains("toml2"));
}

#[test]
fn a_token_and_its_prefix_can_both_be_stored() {
    let mut trie = Trie::new();
    trie.insert("json5");
    trie.insert("json");
    assert!(trie.contains("json"));
    assert!(trie.contains("json5"));
    assert!(!trie.contains("jso"));
}

#[test]
fn inserting_twice_changes_nothing() {
    let mut trie = Trie::new();
    trie.insert("rs");
    assert!(trie.contains("rs"));
    trie.insert("rs");
    assert!(trie.contains("rs"));
    assert!(!trie.contains("r"));
    assert!(!trie.contains("rsrs"));
}

#[test]
fn the_empty_token_can_be_stored() {
    let mut trie = Trie::new();
    trie.insert("");
    assert!(trie.contains(""));
    assert!(!trie.contains("a"));
}

#[test]
fn tokens_are_told_apart_by_case() {
    let mut trie = Trie::new();
    trie.insert("MD");
    assert!(trie.contains("MD"));
    assert!(!trie.contains("md"));
}

#[test]
fn tokens_outside_ascii_are_stored_whole() {
    let mut trie = Trie::new();
    trie.insert("日本語");
    trie.insert("é");
    assert!(trie.contains("日本語"));
    assert!(trie.contains("é"));
    assert!(!trie.contains("日本"));
    assert!(!trie.contains("e"));
    assert!(!trie.contains("è"));
}

#[test]
fn many_tokens_do_not_disturb_each_other() {
    let mut trie = Trie::new();
    let tokens = ["c", "cc", "cpp", "cxx", "h", "hpp", "rs", "toml", "lock", "md", "tar.gz"];
    for token in tokens.iter() {
        trie.insert(token);
    }
    for token in tokens.iter() {
        assert!(trie.contains(token));
    }
    assert!(!trie.contains("cp"));
    assert!(!trie.contains("hxx"));
    assert!(!trie.contains("tar"));
}

#[test]
fn a_new_node_has_no_children() {
    let node = TrieNode::new(true);
    assert!(node.is_word);
    assert_eq!(node.children.len(), 256);
    assert!(node.children.iter().all(|child| *child == NO_CHILD));
    assert!(!TrieNode::new(false).is_word);
}
