//! The tree walker: flattening a directory tree into its file paths.

use vstd::prelude::*;

verus! {

/// An in-memory picture of a directory tree. Each node carries the full
/// path of the entry it stands for; a directory also carries its entries,
/// in the order the listing yielded them.
pub enum FsNode {
    File(String),
    Dir(String, Vec<FsNode>),
}

/// The file paths under a node, in depth-first order: a file is itself,
/// a directory contributes its children's files in sibling order.
pub open spec fn files_of(n: FsNode) -> Seq<Seq<char>>
    decreases n,
{
    match n {
        FsNode::File(p) => seq![p@],
        FsNode::Dir(_, children) => files_of_list(children@),
    }
}

/// The file paths of a sequence of sibling nodes, in order.
pub open spec fn files_of_list(s: Seq<FsNode>) -> Seq<Seq<char>>
    decreases s,
{
    if s.len() == 0 {
        Seq::empty()
    } else {
        files_of_list(s.drop_last()) + files_of(s.last())
    }
}

/// Whether `p` is the path of a regular file reachable from `n` by
/// descending through directories.
pub open spec fn tree_has_file(n: FsNode, p: Seq<char>) -> bool
    decreases n,
{
    match n {
        FsNode::File(q) => q@ == p,
        FsNode::Dir(_, children) => exists|i: int|
            0 <= i < children@.len() && tree_has_file(#[trigger] children@[i], p),
    }
}

/// The walker's result is exactly the set of regular files reachable from
/// the root, whatever order the traversal visits them in: a path occurs in
/// `files_of` if and only if it is reachable by descending through
/// directories.
pub proof fn lemma_walk_reaches(n: FsNode, p: Seq<char>)
    ensures
        files_of(n).contains(p) <==> tree_has_file(n, p),
    decreases n,
{
    match n {
        FsNode::File(q) => {
            assert(files_of(n) == seq![q@]);
            if q@ == p {
                assert(files_of(n)[0] == p);
            }
        },
        FsNode::Dir(_, children) => {
            assert(decreases_to!(n => n->Dir_1));
            lemma_files_of_list_exact(children@, p);
        },
    }
}

/// A path occurs among the files of a sibling list iff some sibling
/// reaches it.
proof fn lemma_files_of_list_exact(s: Seq<FsNode>, p: Seq<char>)
    ensures
        files_of_list(s).contains(p) <==> exists|i: int|
            0 <= i < s.len() && tree_has_file(#[trigger] s[i], p),
    decreases s,
{
    broadcast use vstd::std_specs::vec::group_vec_axioms;

    if s.len() == 0 {
    } else {
        lemma_files_of_list_exact(s.drop_last(), p);
        lemma_walk_reaches(s.last(), p);
        let a = files_of_list(s.drop_last());
        let b = files_of(s.last());
        assert(files_of_list(s) == a + b);
        if (a + b).contains(p) {
            let k = choose|k: int| 0 <= k < (a + b).len() && (a + b)[k] == p;
            if k < a.len() {
                assert(a[k] == p);
                assert(a.contains(p));
                let i = choose|i: int| 0 <= i < s.drop_last().len()
                    && tree_has_file(s.drop_last()[i], p);
                assert(s.drop_last()[i] == s[i]);
                assert(tree_has_file(s[i], p));
            } else {
                assert(b[k - a.len()] == p);
                assert(b.contains(p));
                assert(tree_has_file(s[s.len() - 1], p));
            }
        }
        if exists|i: int| 0 <= i < s.len() && tree_has_file(#[trigger] s[i], p) {
            let i = choose|i: int| 0 <= i < s.len() && tree_has_file(#[trigger] s[i], p);
            if i < s.len() - 1 {
                assert(s.drop_last()[i] == s[i]);
                assert(a.contains(p));
                let k = choose|k: int| 0 <= k < a.len() && a[k] == p;
                assert((a + b)[k] == p);
                assert(files_of_list(s).contains(p));
            } else {
                assert(tree_has_file(s.last(), p));
                assert(b.contains(p));
                let k = choose|k: int| 0 <= k < b.len() && b[k] == p;
                assert((a + b)[a.len() + k] == p);
                assert(files_of_list(s).contains(p));
            }
        }
    }
}

/// List every regular file reachable from `root`, depth-first.
#[verifier::loop_isolation(false)]
pub fn walk(root: &FsNode) -> (r: Vec<String>)
    ensures
        r.deep_view() == files_of(*root),
    decreases *root,
{
    match root {
        FsNode::File(p) => {
            let mut v: Vec<String> = Vec::new();
            v.push(p.clone());
            proof {
                assert(v.deep_view() =~= files_of(*root));
            }
            v
        },
        FsNode::Dir(_, children) => {
            let mut acc: Vec<String> = Vec::new();
            let mut i: usize = 0;
            while i < children.len()
                invariant
                    i <= children.len(),
                    acc.deep_view() == files_of_list(children@.take(i as int)),
                decreases children.len() - i,
            {
                let ghost prev = acc.deep_view();
                proof {
                    broadcast use vstd::std_specs::vec::group_vec_axioms;

                    assert(decreases_to!(*root => (*root)->Dir_1));
                    assert(decreases_to!((*root)->Dir_1 => (*root)->Dir_1[i as int]));
                }
                let mut sub = walk(&children[i]);
                let ghost sub_view = sub.deep_view();
                acc.append(&mut sub);
                proof {
                    assert(acc.deep_view() =~= prev + sub_view);
                    assert(children@.take(i + 1).drop_last() =~= children@.take(i as int));
                    assert(children@.take(i + 1).last() == children@[i as int]);
                    assert(files_of_list(children@.take(i + 1))
                        == files_of_list(children@.take(i as int)) + files_of(children@[i as int]));
                }
                i += 1;
            }
            proof {
                assert(children@.take(children@.len() as int) =~= children@);
            }
            acc
        },
    }
}

} // verus!
