use dupfinder::grouper::Group;
use dupfinder::grouper::HashedFile;
use dupfinder::grouper::build_index;
use dupfinder::grouper::group_duplicates;
use dupfinder::hex::to_hex;
use dupfinder::pipeline::FileData;
use dupfinder::report::render_report;
use dupfinder::pipeline::find_duplicates;
use dupfinder::tree::FsNode;
use dupfinder::tree::walk;

fn pair(path: &str, digest: &[u8]) -> HashedFile {
    HashedFile { path: path.to_string(), digest: digest.to_vec() }
}

fn data(path: &str, content: &[u8]) -> FileData {
    FileData { path: path.to_string(), content: content.to_vec() }
}

fn group_for<'a>(report: &'a [Group], paths_member: &str) -> &'a Group {
    for g in report {
        if g.paths.iter().any(|p| p == paths_member) {
            return g;
        }
    }
    panic!("no group holds {}", paths_member);
}

#[test]
fn index_keeps_first_seen_key_order_and_all_paths() {
    let pairs = vec![
        pair("a", &[1, 2]),
        pair("b", &[3, 4]),
        pair("c", &[1, 2]),
    ];
    let index = build_index(&pairs);
    assert_eq!(index.len(), 2);
    assert_eq!(index[0].digest, vec![1, 2]);
    assert_eq!(index[0].paths, vec!["a".to_string(), "c".to_string()]);
    assert_eq!(index[1].digest, vec![3, 4]);
    assert_eq!(index[1].paths, vec!["b".to_string()]);
}

#[test]
fn singleton_digests_are_never_reported() {
    let pairs = vec![pair("a", &[1]), pair("b", &[2]), pair("c", &[3])];
    let report = group_duplicates(&pairs);
    assert!(report.is_empty());
}

#[test]
fn shared_digest_is_reported_with_every_path() {
    let pairs = vec![
        pair("a", &[9, 9]),
        pair("b", &[8, 8]),
        pair("c", &[9, 9]),
        pair("d", &[9, 9]),
    ];
    let report = group_duplicates(&pairs);
    assert_eq!(report.len(), 1);
    assert_eq!(report[0].digest, vec![9, 9]);
    assert_eq!(
        report[0].paths,
        vec!["a".to_string(), "c".to_string(), "d".to_string()]
    );
}

#[test]
fn identical_content_under_two_names_makes_one_group() {
    // Scenario: a.txt and b.txt both hold "hello".
    let files = vec![data("./a.txt", b"hello"), data("./b.txt", b"hello")];
    let report = find_duplicates(&files);
    assert_eq!(report.len(), 1);
    let g = group_for(&report, "./a.txt");
    assert_eq!(to_hex(&g.digest), "aaf4c61ddcc5e8a2dabede0f3b482cd9aea9434d");
    assert_eq!(g.paths, vec!["./a.txt".to_string(), "./b.txt".to_string()]);
}

#[test]
fn differing_content_reports_nothing() {
    // Scenario: a.txt holds "hello", b.txt holds "world".
    let files = vec![data("./a.txt", b"hello"), data("./b.txt", b"world")];
    let report = find_duplicates(&files);
    assert!(report.is_empty());
}

#[test]
fn three_identical_files_form_one_group_of_three() {
    let files = vec![
        data("./a.txt", b"same bytes"),
        data("./b.txt", b"same bytes"),
        data("./c.txt", b"same bytes"),
    ];
    let report = find_duplicates(&files);
    assert_eq!(report.len(), 1);
    assert_eq!(
        report[0].paths,
        vec![
            "./a.txt".to_string(),
            "./b.txt".to_string(),
            "./c.txt".to_string(),
        ]
    );
}

#[test]
fn empty_root_yields_no_paths_and_no_groups() {
    let root = FsNode::Dir(".".to_string(), vec![]);
    let paths = walk(&root);
    assert!(paths.is_empty());
    let report = find_duplicates(&Vec::new());
    assert!(report.is_empty());
}

#[test]
fn duplicate_across_directory_depths_lists_both_paths() {
    // Scenario: a nested subdirectory holds a copy of a root file.
    let root = FsNode::Dir(
        ".".to_string(),
        vec![
            FsNode::File("./orig.txt".to_string()),
            FsNode::Dir(
                "./nested".to_string(),
                vec![FsNode::File("./nested/copy.txt".to_string())],
            ),
        ],
    );
    let paths = walk(&root);
    assert_eq!(
        paths,
        vec!["./orig.txt".to_string(), "./nested/copy.txt".to_string()]
    );
    let files: Vec<FileData> = paths.iter().map(|p| data(p, b"shared")).collect();
    let report = find_duplicates(&files);
    assert_eq!(report.len(), 1);
    assert_eq!(
        report[0].paths,
        vec!["./orig.txt".to_string(), "./nested/copy.txt".to_string()]
    );
}

#[test]
fn running_the_pipeline_twice_gives_the_same_report() {
    let files = vec![
        data("./one", b"alpha"),
        data("./two", b"beta"),
        data("./three", b"alpha"),
        data("./four", b"gamma"),
        data("./five", b"beta"),
    ];
    let first = find_duplicates(&files);
    let second = find_duplicates(&files);
    assert_eq!(first.len(), second.len());
    for (a, b) in first.iter().zip(second.iter()) {
        assert_eq!(a.digest, b.digest);
        assert_eq!(a.paths, b.paths);
    }
}

#[test]
fn report_prints_header_paths_and_blank_per_group() {
    let files = vec![data("./a.txt", b"hello"), data("./b.txt", b"hello")];
    let report = find_duplicates(&files);
    let lines = render_report(&report);
    assert_eq!(
        lines,
        vec![
            "Duplicate hash aaf4c61ddcc5e8a2dabede0f3b482cd9aea9434d".to_string(),
            "./a.txt".to_string(),
            "./b.txt".to_string(),
            "".to_string(),
        ]
    );
}

#[test]
fn empty_report_prints_nothing() {
    let lines = render_report(&Vec::new());
    assert!(lines.is_empty());
}

#[test]
fn a_path_seen_twice_counts_twice() {
    // Paths are never normalized or deduplicated: the same location handed
    // in twice forms a group of two.
    let pairs = vec![pair("./same", &[7, 7]), pair("./same", &[7, 7])];
    let report = group_duplicates(&pairs);
    assert_eq!(report.len(), 1);
    assert_eq!(
        report[0].paths,
        vec!["./same".to_string(), "./same".to_string()]
    );
}

#[test]
fn empty_file_duplicates_group_under_the_empty_digest() {
    let files = vec![data("./x", b""), data("./y", b"")];
    let report = find_duplicates(&files);
    assert_eq!(report.len(), 1);
    assert_eq!(to_hex(&report[0].digest), "da39a3ee5e6b4b0d3255bfef95601890afd80709");
}
