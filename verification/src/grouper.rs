//! The duplicate grouper: the digest index and the duplicate report.

use vstd::prelude::*;
use vstd::seq_lib::group_filter_ensures;
use vstd::seq_lib::group_seq_lib_default;

verus! {

/// A hashed file: a path together with the digest of its content.
pub struct HashedFile {
    pub path: String,
    pub digest: Vec<u8>,
}

/// The mathematical value of a hashed file.
pub struct FileRecord {
    pub path: Seq<char>,
    pub digest: Seq<u8>,
}

impl View for HashedFile {
    type V = FileRecord;

    open spec fn view(&self) -> FileRecord {
        FileRecord { path: self.path@, digest: self.digest@ }
    }
}

impl DeepView for HashedFile {
    type V = FileRecord;

    open spec fn deep_view(&self) -> FileRecord {
        self@
    }
}

/// One entry of the digest index: a digest and the paths that produced it,
/// in discovery order.
pub struct Group {
    pub digest: Vec<u8>,
    pub paths: Vec<String>,
}

/// The mathematical value of an index entry.
pub struct GroupRecord {
    pub digest: Seq<u8>,
    pub paths: Seq<Seq<char>>,
}

impl View for Group {
    type V = GroupRecord;

    open spec fn view(&self) -> GroupRecord {
        GroupRecord { digest: self.digest@, paths: self.paths.deep_view() }
    }
}

impl DeepView for Group {
    type V = GroupRecord;

    open spec fn deep_view(&self) -> GroupRecord {
        self@
    }
}

/// The paths of the records carrying digest `d`, in order of appearance.
pub open spec fn paths_for(records: Seq<FileRecord>, d: Seq<u8>) -> Seq<Seq<char>> {
    records.filter(|r: FileRecord| r.digest == d).map_values(|r: FileRecord| r.path)
}

/// The distinct digests of `records`, each listed at its first appearance.
pub open spec fn digest_keys(records: Seq<FileRecord>) -> Seq<Seq<u8>>
    decreases records.len(),
{
    if records.len() == 0 {
        Seq::empty()
    } else {
        let prefix = digest_keys(records.drop_last());
        if prefix.contains(records.last().digest) {
            prefix
        } else {
            prefix.push(records.last().digest)
        }
    }
}

/// The digest index: every digest that occurs, with all its paths.
pub open spec fn index_of(records: Seq<FileRecord>) -> Seq<GroupRecord> {
    digest_keys(records).map_values(
        |d: Seq<u8>| GroupRecord { digest: d, paths: paths_for(records, d) },
    )
}

/// The duplicate report: the index entries that hold two or more paths.
pub open spec fn duplicate_groups(records: Seq<FileRecord>) -> Seq<GroupRecord> {
    index_of(records).filter(|g: GroupRecord| g.paths.len() >= 2)
}

/// Appending one record extends the paths of its own digest and no other.
proof fn lemma_paths_for_push(records: Seq<FileRecord>, r: FileRecord, d: Seq<u8>)
    ensures
        paths_for(records.push(r), d) == if r.digest == d {
            paths_for(records, d).push(r.path)
        } else {
            paths_for(records, d)
        },
{
    broadcast use group_seq_lib_default;

    reveal_with_fuel(Seq::filter, 3);
    let pred = |q: FileRecord| q.digest == d;
    assert(records.push(r) =~= records + seq![r]);
    assert(seq![r].drop_last() =~= Seq::<FileRecord>::empty());
    assert(seq![r].filter(pred) == if pred(r) { seq![r] } else { Seq::<FileRecord>::empty() });
    if r.digest == d {
        assert(records.filter(pred) + seq![r] =~= records.filter(pred).push(r));
        assert(paths_for(records.push(r), d) =~= paths_for(records, d).push(r.path));
    } else {
        assert(records.filter(pred) + Seq::<FileRecord>::empty() =~= records.filter(pred));
        assert(paths_for(records.push(r), d) =~= paths_for(records, d));
    }
}

/// Appending one record adds its digest to the key list when the digest is
/// new, and leaves the keys alone when it was already present.
proof fn lemma_keys_push(records: Seq<FileRecord>, r: FileRecord)
    ensures
        digest_keys(records.push(r)) == if digest_keys(records).contains(r.digest) {
            digest_keys(records)
        } else {
            digest_keys(records).push(r.digest)
        },
{
    assert(records.push(r).drop_last() =~= records);
    assert(records.push(r).last() == r);
}

/// A digest is among the keys iff some record produced it.
proof fn lemma_keys_complete(records: Seq<FileRecord>, d: Seq<u8>)
    ensures
        digest_keys(records).contains(d) <==> paths_for(records, d).len() != 0,
    decreases records.len(),
{
    broadcast use group_seq_lib_default;

    reveal(Seq::filter);
    let pred = |q: FileRecord| q.digest == d;
    if records.len() == 0 {
        assert(records.filter(pred) =~= Seq::<FileRecord>::empty());
    } else {
        let pre = records.drop_last();
        let r = records.last();
        lemma_keys_complete(pre, d);
        assert(pre.push(r) =~= records);
        lemma_keys_push(pre, r);
        lemma_paths_for_push(pre, r, d);
        let keys_pre = digest_keys(pre);
        let keys = digest_keys(records);
        if r.digest == d {
            assert(paths_for(records, d).len() != 0);
            if keys_pre.contains(d) {
                let j = choose|j: int| 0 <= j < keys_pre.len() && keys_pre[j] == d;
                assert(keys[j] == d);
            } else {
                assert(keys == keys_pre.push(d));
                assert(keys[keys.len() - 1] == d);
            }
            assert(keys.contains(d));
        } else {
            assert(paths_for(records, d) == paths_for(pre, d));
            if keys_pre.contains(d) {
                let j = choose|j: int| 0 <= j < keys_pre.len() && keys_pre[j] == d;
                assert(keys[j] == d);
                assert(keys.contains(d));
            }
            if keys.contains(d) {
                let j = choose|j: int| 0 <= j < keys.len() && keys[j] == d;
                if !keys_pre.contains(r.digest) {
                    assert(j < keys_pre.len());
                }
                assert(keys_pre[j] == d);
                assert(keys_pre.contains(d));
            }
        }
    }
}

/// The key list never repeats a digest.
proof fn lemma_keys_unique(records: Seq<FileRecord>)
    ensures
        digest_keys(records).no_duplicates(),
    decreases records.len(),
{
    if records.len() == 0 {
    } else {
        let pre = records.drop_last();
        let r = records.last();
        lemma_keys_unique(pre);
        let keys = digest_keys(pre);
        if !keys.contains(r.digest) {
            assert forall|i: int, j: int|
                0 <= i < keys.push(r.digest).len() && 0 <= j < keys.push(r.digest).len() && i != j
                implies keys.push(r.digest)[i] != keys.push(r.digest)[j] by {
                if i < keys.len() && j < keys.len() {
                } else if i == keys.len() {
                    assert(keys[j] != r.digest);
                } else {
                    assert(keys[i] != r.digest);
                }
            }
        }
    }
}

/// Every element a filter keeps comes from the sequence it filtered.
proof fn lemma_filter_subset<A>(s: Seq<A>, pred: spec_fn(A) -> bool, i: int)
    requires
        0 <= i < s.filter(pred).len(),
    ensures
        s.contains(s.filter(pred)[i]),
    decreases s.len(),
{
    reveal(Seq::filter);
    if s.len() != 0 {
        let pre = s.drop_last();
        if i < pre.filter(pred).len() {
            lemma_filter_subset(pre, pred, i);
            let k = choose|k: int| 0 <= k < pre.len() && pre[k] == pre.filter(pred)[i];
            assert(s[k] == s.filter(pred)[i]);
        } else {
            assert(s.filter(pred)[i] == s.last());
            assert(s[s.len() - 1] == s.last());
        }
    }
}

/// The position of the index entry carrying digest `d`, if any.
fn find_entry(index: &Vec<Group>, d: &Vec<u8>) -> (pos: Option<usize>)
    ensures
        match pos {
            Some(k) => k < index@.len() && index@[k as int]@.digest == d@,
            None => forall|m: int| 0 <= m < index@.len() ==> index@[m]@.digest != d@,
        },
{
    let mut k: usize = 0;
    while k < index.len()
        invariant
            k <= index@.len(),
            forall|m: int| 0 <= m < k ==> index@[m]@.digest != d@,
        decreases index@.len() - k,
    {
        if bytes_eq(&index[k].digest, d) {
            return Some(k);
        }
        k += 1;
    }
    None
}

/// Build the digest index: insert each hashed file into the entry keyed by
/// its digest, creating the entry at the digest's first occurrence. Keys
/// are unique and each entry's paths are in discovery order.
#[verifier::loop_isolation(false)]
pub fn build_index(pairs: &Vec<HashedFile>) -> (index: Vec<Group>)
    ensures
        index.deep_view() == index_of(pairs.deep_view()),
{
    let ghost recs = pairs.deep_view();
    let mut index: Vec<Group> = Vec::new();
    proof {
        assert(recs.take(0) =~= Seq::<FileRecord>::empty());
        assert(index.deep_view() =~= index_of(recs.take(0)));
    }
    let mut j: usize = 0;
    while j < pairs.len()
        invariant
            j <= pairs.len(),
            index.deep_view() == index_of(recs.take(j as int)),
        decreases pairs.len() - j,
    {
        let ghost pre = recs.take(j as int);
        let ghost r = recs[j as int];
        let ghost keys_pre = digest_keys(pre);
        let ghost old_dv = index.deep_view();
        proof {
            assert(recs.take(j + 1) =~= pre.push(r));
            lemma_keys_push(pre, r);
            lemma_keys_unique(pre);
            lemma_keys_complete(pre, r.digest);
            assert forall|m: int| 0 <= m < keys_pre.len() implies paths_for(
                pre.push(r),
                #[trigger] keys_pre[m],
            ) == if keys_pre[m] == r.digest {
                paths_for(pre, keys_pre[m]).push(r.path)
            } else {
                paths_for(pre, keys_pre[m])
            } by {
                lemma_paths_for_push(pre, r, keys_pre[m]);
            }
            lemma_paths_for_push(pre, r, r.digest);
        }
        let path = pairs[j].path.clone();
        match find_entry(&index, &pairs[j].digest) {
            Some(k) => {
                proof {
                    assert(old_dv[k as int] == index_of(pre)[k as int]);
                    assert(keys_pre[k as int] == r.digest);
                    assert(keys_pre.contains(r.digest));
                }
                let mut g = index.remove(k);
                g.paths.push(path);
                index.insert(k, g);
                proof {
                    let gr = GroupRecord {
                        digest: r.digest,
                        paths: paths_for(pre, r.digest).push(r.path),
                    };
                    assert(g.paths.deep_view() =~= old_dv[k as int].paths.push(r.path));
                    assert(g@ == gr);
                    assert(index.deep_view() =~= old_dv.update(k as int, gr));
                    assert(digest_keys(pre.push(r)) == keys_pre);
                    assert forall|m: int| 0 <= m < keys_pre.len() implies index.deep_view()[m]
                        == index_of(pre.push(r))[m] by {
                        if m != k as int {
                            assert(keys_pre[m] != r.digest);
                        }
                    }
                    assert(index.deep_view() =~= index_of(recs.take(j + 1)));
                }
            },
            None => {
                proof {
                    if keys_pre.contains(r.digest) {
                        let m = choose|m: int|
                            0 <= m < keys_pre.len() && keys_pre[m] == r.digest;
                        assert(old_dv[m].digest == r.digest);
                        assert(index@[m]@ == old_dv[m]);
                    }
                    assert(!keys_pre.contains(r.digest));
                    assert(paths_for(pre, r.digest).len() == 0);
                    assert(paths_for(pre, r.digest) =~= Seq::<Seq<char>>::empty());
                }
                let digest = vstd::slice::slice_to_vec(pairs[j].digest.as_slice());
                let mut paths: Vec<String> = Vec::new();
                paths.push(path);
                let g = Group { digest, paths };
                index.push(g);
                proof {
                    let gr = GroupRecord { digest: r.digest, paths: seq![r.path] };
                    assert(g.paths.deep_view() =~= seq![r.path]);
                    assert(g@ == gr);
                    assert(index.deep_view() =~= old_dv.push(gr));
                    assert(digest_keys(pre.push(r)) == keys_pre.push(r.digest));
                    assert(paths_for(pre, r.digest).push(r.path) =~= seq![r.path]);
                    assert forall|m: int| 0 <= m < keys_pre.len() + 1 implies index.deep_view()[m]
                        == index_of(pre.push(r))[m] by {
                        if m < keys_pre.len() {
                            assert(keys_pre[m] != r.digest);
                        }
                    }
                    assert(index.deep_view() =~= index_of(recs.take(j + 1)));
                }
            },
        }
        j += 1;
    }
    proof {
        assert(recs.take(recs.len() as int) =~= recs);
    }
    index
}

/// The duplicate report built from the hashed files: every index entry
/// that holds two or more paths, in index order.
#[verifier::loop_isolation(false)]
pub fn group_duplicates(pairs: &Vec<HashedFile>) -> (report: Vec<Group>)
    ensures
        report.deep_view() == duplicate_groups(pairs.deep_view()),
{
    let ghost keep = |g: GroupRecord| g.paths.len() >= 2;
    let mut index = build_index(pairs);
    let ghost full = index.deep_view();
    let mut report: Vec<Group> = Vec::new();
    let ghost mut taken: int = 0;
    proof {
        reveal_with_fuel(Seq::filter, 2);
        assert(full.take(0) =~= Seq::<GroupRecord>::empty());
        assert(report.deep_view() =~= full.take(0).filter(keep));
        assert(index.deep_view() =~= full.skip(0));
    }
    while index.len() > 0
        invariant
            0 <= taken <= full.len(),
            index.deep_view() == full.skip(taken),
            report.deep_view() == full.take(taken).filter(keep),
        decreases index.len(),
    {
        let ghost old_report = report.deep_view();
        let ghost old_iv = index@;
        let g = index.remove(0);
        proof {
            assert(g@ == full.skip(taken)[0]);
            assert(g@ == full[taken]);
            assert(index@ =~= old_iv.subrange(1, old_iv.len() as int));
            assert forall|i: int| 0 <= i < index@.len() implies index.deep_view()[i] == full.skip(
                taken + 1,
            )[i] by {
                assert(index@[i] == old_iv[i + 1]);
                assert(old_iv[i + 1].deep_view() == full.skip(taken)[i + 1]);
            }
            assert(index.deep_view() =~= full.skip(taken + 1));
        }
        if g.paths.len() >= 2 {
            proof {
                assert(g@.paths.len() >= 2);
            }
            report.push(g);
            proof {
                assert(report.deep_view() =~= old_report.push(full[taken]));
            }
        } else {
            proof {
                assert(g@.paths.len() < 2);
            }
        }
        proof {
            reveal_with_fuel(Seq::filter, 2);
            assert(full.take(taken + 1).drop_last() =~= full.take(taken));
            assert(full.take(taken + 1).last() == full[taken]);
            assert(report.deep_view() =~= full.take(taken + 1).filter(keep));
            taken = taken + 1;
        }
    }
    proof {
        assert(full.take(full.len() as int) =~= full);
    }
    report
}

/// Whether the report holds a group for digest `d`.
pub open spec fn reported(records: Seq<FileRecord>, d: Seq<u8>) -> bool {
    exists|k: int|
        0 <= k < duplicate_groups(records).len() && (#[trigger] duplicate_groups(
            records,
        )[k]).digest == d
}

/// A digest is reported iff two or more paths produced it — a digest with
/// a single path never appears — and a reported group's paths are exactly
/// the paths that produced its digest, in discovery order.
pub proof fn lemma_report_iff(records: Seq<FileRecord>, d: Seq<u8>)
    ensures
        reported(records, d) <==> paths_for(records, d).len() >= 2,
        forall|k: int|
            0 <= k < duplicate_groups(records).len() ==> (#[trigger] duplicate_groups(records)[k]).paths
                == paths_for(records, duplicate_groups(records)[k].digest),
{
    broadcast use group_filter_ensures;

    let keys = digest_keys(records);
    let idx = index_of(records);
    let dup = duplicate_groups(records);
    let keep = |g: GroupRecord| g.paths.len() >= 2;
    assert forall|k: int| 0 <= k < dup.len() implies (#[trigger] dup[k]).paths == paths_for(
        records,
        dup[k].digest,
    ) by {
        lemma_filter_subset(idx, keep, k);
        let m = choose|m: int| 0 <= m < idx.len() && idx[m] == dup[k];
        assert(idx[m].digest == keys[m]);
    }
    if paths_for(records, d).len() >= 2 {
        lemma_keys_complete(records, d);
        let m = choose|m: int| 0 <= m < keys.len() && keys[m] == d;
        assert(idx[m].digest == d);
        assert(keep(idx[m]));
        assert(idx.filter(keep).contains(idx[m]));
        let k = choose|k: int| 0 <= k < dup.len() && dup[k] == idx[m];
        assert(dup[k].digest == d);
    }
    if reported(records, d) {
        let k = choose|k: int| 0 <= k < dup.len() && (#[trigger] dup[k]).digest == d;
        assert(keep(dup[k]));
        assert(dup[k].paths == paths_for(records, d));
    }
}

/// The digest index never repeats a key: a path stands in exactly the one
/// entry keyed by its content's digest.
pub proof fn lemma_index_keys_unique(records: Seq<FileRecord>)
    ensures
        forall|m: int, n: int|
            0 <= m < index_of(records).len() && 0 <= n < index_of(records).len() && m != n
                ==> (#[trigger] index_of(records)[m]).digest != (#[trigger] index_of(
                records,
            )[n]).digest,
{
    lemma_keys_unique(records);
}

/// No index entry is empty: a key exists only because some record
/// produced it.
pub proof fn lemma_index_entries_nonempty(records: Seq<FileRecord>)
    ensures
        forall|m: int|
            0 <= m < index_of(records).len() ==> (#[trigger] index_of(records)[m]).paths.len()
                >= 1,
{
    let keys = digest_keys(records);
    assert forall|m: int| 0 <= m < index_of(records).len() implies (#[trigger] index_of(
        records,
    )[m]).paths.len() >= 1 by {
        assert(keys[m] == index_of(records)[m].digest);
        assert(keys.contains(keys[m]));
        lemma_keys_complete(records, keys[m]);
    }
}

/// Whether two byte strings hold the same bytes.
fn bytes_eq(a: &Vec<u8>, b: &Vec<u8>) -> (r: bool)
    ensures
        r == (a@ == b@),
{
    if a.len() != b.len() {
        assert(a@ != b@) by {
            assert(a@.len() != b@.len());
        }
        return false;
    }
    let mut i: usize = 0;
    while i < a.len()
        invariant
            i <= a.len(),
            a@.len() == b@.len(),
            forall|m: int| 0 <= m < i ==> a@[m] == b@[m],
        decreases a.len() - i,
    {
        if a[i] != b[i] {
            return false;
        }
        i += 1;
    }
    proof {
        assert(a@ =~= b@);
    }
    true
}

} // verus!
