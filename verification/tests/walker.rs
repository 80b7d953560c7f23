use dupfinder::tree::FsNode;
use dupfinder::tree::walk;

fn file(p: &str) -> FsNode {
    FsNode::File(p.to_string())
}

fn dir(p: &str, children: Vec<FsNode>) -> FsNode {
    FsNode::Dir(p.to_string(), children)
}

#[test]
fn walk_single_file_root() {
    let root = file("./only.txt");
    assert_eq!(walk(&root), vec!["./only.txt".to_string()]);
}

#[test]
fn walk_empty_root_directory() {
    let root = dir(".", vec![]);
    let paths = walk(&root);
    assert!(paths.is_empty());
}

#[test]
fn walk_flat_directory_keeps_listing_order() {
    let root = dir(".", vec![file("./a.txt"), file("./b.txt"), file("./c.txt")]);
    assert_eq!(
        walk(&root),
        vec![
            "./a.txt".to_string(),
            "./b.txt".to_string(),
            "./c.txt".to_string(),
        ]
    );
}

#[test]
fn walk_descends_depth_first() {
    let root = dir(
        ".",
        vec![
            file("./top.txt"),
            dir(
                "./sub",
                vec![file("./sub/inner.txt"), dir("./sub/deep", vec![file("./sub/deep/leaf.txt")])],
            ),
            file("./tail.txt"),
        ],
    );
    assert_eq!(
        walk(&root),
        vec![
            "./top.txt".to_string(),
            "./sub/inner.txt".to_string(),
            "./sub/deep/leaf.txt".to_string(),
            "./tail.txt".to_string(),
        ]
    );
}

#[test]
fn walk_skips_no_file_and_adds_none() {
    let root = dir(
        ".",
        vec![
            dir("./empty", vec![]),
            dir("./one", vec![file("./one/x.bin")]),
        ],
    );
    assert_eq!(walk(&root), vec!["./one/x.bin".to_string()]);
}
