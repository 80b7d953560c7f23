//! Orchestration: hash every walked file, then group the digests.

use vstd::prelude::*;
use crate::grouper::FileRecord;
use crate::grouper::Group;
use crate::grouper::GroupRecord;
use crate::grouper::HashedFile;
use crate::grouper::duplicate_groups;
use crate::grouper::group_duplicates;
use crate::hashing::hash_bytes;
use crate::hashing::sha1_of;

verus! {

/// A file handed to the pipeline: its path and its full content.
pub struct FileData {
    pub path: String,
    pub content: Vec<u8>,
}

/// The mathematical value of a file.
pub struct ContentRecord {
    pub path: Seq<char>,
    pub content: Seq<u8>,
}

impl View for FileData {
    type V = ContentRecord;

    open spec fn view(&self) -> ContentRecord {
        ContentRecord { path: self.path@, content: self.content@ }
    }
}

impl DeepView for FileData {
    type V = ContentRecord;

    open spec fn deep_view(&self) -> ContentRecord {
        self@
    }
}

/// What a file hashes to: the same path, the digest of the content.
pub open spec fn hashed_record(f: ContentRecord) -> FileRecord {
    FileRecord { path: f.path, digest: sha1_of(f.content) }
}

/// The grouping the whole pipeline produces from the given files: hash
/// each one, then keep every digest that two or more paths share.
pub open spec fn pipeline_groups(files: Seq<ContentRecord>) -> Seq<GroupRecord> {
    duplicate_groups(files.map_values(|f: ContentRecord| hashed_record(f)))
}

/// Hash every file in list order, pairing each path with the digest of
/// its content.
pub fn hash_files(files: &Vec<FileData>) -> (pairs: Vec<HashedFile>)
    requires
        forall|i: int|
            0 <= i < files@.len() ==> (#[trigger] files@[i]).content@.len()
                < 0x2000000000000000,
    ensures
        pairs.deep_view() == files.deep_view().map_values(
            |f: ContentRecord| hashed_record(f),
        ),
{
    let ghost recs = files.deep_view();
    let mut pairs: Vec<HashedFile> = Vec::new();
    proof {
        assert(pairs.deep_view() =~= recs.take(0).map_values(
            |f: ContentRecord| hashed_record(f),
        ));
    }
    let mut i: usize = 0;
    while i < files.len()
        invariant
            i <= files.len(),
            recs == files.deep_view(),
            forall|m: int|
                0 <= m < files@.len() ==> (#[trigger] files@[m]).content@.len()
                    < 0x2000000000000000,
            pairs.deep_view() == recs.take(i as int).map_values(
                |f: ContentRecord| hashed_record(f),
            ),
        decreases files.len() - i,
    {
        let ghost old_pairs = pairs.deep_view();
        let path = files[i].path.clone();
        let digest = hash_bytes(&files[i].content);
        pairs.push(HashedFile { path, digest });
        proof {
            assert(pairs.deep_view() =~= old_pairs.push(hashed_record(recs[i as int])));
            assert(recs.take(i + 1).drop_last() =~= recs.take(i as int));
            assert(pairs.deep_view() =~= recs.take(i + 1).map_values(
                |f: ContentRecord| hashed_record(f),
            ));
        }
        i += 1;
    }
    proof {
        assert(recs.take(recs.len() as int) =~= recs);
    }
    pairs
}

/// The whole in-memory pipeline: hash every file, then report every
/// digest that two or more paths share.
pub fn find_duplicates(files: &Vec<FileData>) -> (report: Vec<Group>)
    requires
        forall|i: int|
            0 <= i < files@.len() ==> (#[trigger] files@[i]).content@.len()
                < 0x2000000000000000,
    ensures
        report.deep_view() == pipeline_groups(files.deep_view()),
{
    let pairs = hash_files(files);
    group_duplicates(&pairs)
}

/// Running the pipeline twice over an unchanged tree — the same paths
/// holding the same bytes — produces the same grouping.
pub proof fn lemma_pipeline_idempotent(first: Seq<ContentRecord>, second: Seq<ContentRecord>)
    requires
        first == second,
    ensures
        pipeline_groups(first) == pipeline_groups(second),
{
}

} // verus!
