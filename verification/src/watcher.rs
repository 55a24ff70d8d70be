//! Decisions taken while watching a directory: which changed paths to look
//! at, which to upload, and which typed commands ask for a poll.
use vstd::prelude::*;
use crate::sync_state::{
    SyncState, after_check, lemma_check_other_paths, lemma_check_records, needs_upload,
};
use crate::digest::{hex_lower, lemma_hex_lower_injective};
use crate::text::{ends_with, has_suffix, same_text, trim_end, trim_end_seq};

verus! {

broadcast use vstd::string::group_string_axioms;

/// The path names a `.meta` file, which is never uploaded.
pub open spec fn is_meta(path: Seq<char>) -> bool {
    has_suffix(path, ".meta"@)
}

/// A path is a `.meta` file exactly when its last five characters are
/// `.meta`; every other path may be uploaded.
pub proof fn lemma_meta_is_dot_meta_suffix(path: Seq<char>)
    ensures
        is_meta(path) <==> (path.len() >= 5 && path.subrange(path.len() - 5, path.len() as int)
            == seq!['.', 'm', 'e', 't', 'a']),
{
    reveal_strlit(".meta");
    assert(".meta"@ =~= seq!['.', 'm', 'e', 't', 'a']);
}

/// Whether `path` names a `.meta` file.
pub fn is_meta_path(path: &str) -> (r: bool)
    ensures
        r == is_meta(path@),
        r <==> (path@.len() >= 5 && path@.subrange(path@.len() - 5, path@.len() as int) == seq![
            '.',
            'm',
            'e',
            't',
            'a',
        ]),
{
    proof {
        lemma_meta_is_dot_meta_suffix(path@);
    }
    ends_with(path, ".meta")
}

/// Whether a line typed in manual mode asks for a poll: it is `fetch`,
/// trailing whitespace aside.
pub fn is_fetch_command(line: &str) -> (r: bool)
    ensures
        r == (trim_end_seq(line@) == "fetch"@),
{
    let t = trim_end(line);
    same_text(t.as_str(), "fetch")
}

/// The first path at index `from` or later that may have to be uploaded,
/// that is, that is not a `.meta` file.
pub fn next_upload_candidate(paths: &Vec<String>, from: usize) -> (r: Option<usize>)
    ensures
        r matches Some(j) ==> from <= j < paths@.len() && !is_meta(paths@[j as int]@) && forall|
            k: int,
        | from <= k < j ==> is_meta(#[trigger] paths@[k]@),
        r is None ==> forall|k: int| from <= k < paths@.len() ==> is_meta(#[trigger] paths@[k]@),
{
    let mut j: usize = from;
    while j < paths.len()
        invariant
            from <= j,
            forall|k: int| from <= k < j && k < paths@.len() ==> is_meta(#[trigger] paths@[k]@),
        decreases paths.len() - j,
    {
        if !is_meta_path(paths[j].as_str()) {
            return Some(j);
        }
        j = j + 1;
    }
    None
}

/// What to do with a changed file once its contents are hashed.
#[derive(PartialEq, Eq, Structural, Clone, Copy, Debug)]
pub enum UploadDecision {
    /// Send a modification event for the file; the new hash is recorded.
    Upload,
    /// The contents are those last uploaded: report the file as skipped.
    SkipUnchanged,
}

/// Decides on the changed file `path`, whose contents hash to `current_hash`:
/// it is uploaded unless the record holds that hash for it; the record is
/// brought up to date.
pub fn decide_upload(state: &mut SyncState, path: &str, current_hash: String) -> (d: UploadDecision)
    ensures
        (d == UploadDecision::Upload) == needs_upload(old(state)@, path@, current_hash@),
        final(state)@ == after_check(old(state)@, path@, current_hash@),
{
    if state.should_upload(path, current_hash) {
        UploadDecision::Upload
    } else {
        UploadDecision::SkipUnchanged
    }
}

/// A file whose recorded hash text was written from the digest `before` is
/// uploaded again exactly when its contents now have another digest.
pub proof fn lemma_upload_iff_digest_changed(
    m: Map<Seq<char>, Seq<char>>,
    path: Seq<char>,
    before: Seq<u8>,
    now: Seq<u8>,
)
    requires
        m.contains_key(path),
        m[path] == hex_lower(before),
    ensures
        needs_upload(m, path, hex_lower(now)) <==> before != now,
{
    if hex_lower(now) == hex_lower(before) {
        lemma_hex_lower_injective(now, before);
    }
}

/// The record after the paths of one event are handled in order: each path
/// that is not a `.meta` file is checked against the hash its contents have in
/// `hashes`, as `decide_upload` does.
pub open spec fn check_paths(
    m: Map<Seq<char>, Seq<char>>,
    paths: Seq<Seq<char>>,
    hashes: Map<Seq<char>, Seq<char>>,
) -> Map<Seq<char>, Seq<char>>
    decreases paths.len(),
{
    if paths.len() == 0 {
        m
    } else {
        let before = check_paths(m, paths.drop_last(), hashes);
        let p = paths.last();
        if is_meta(p) {
            before
        } else {
            after_check(before, p, hashes[p])
        }
    }
}

/// The number of events sent while the paths are handled that way.
pub open spec fn uploads_in(
    m: Map<Seq<char>, Seq<char>>,
    paths: Seq<Seq<char>>,
    hashes: Map<Seq<char>, Seq<char>>,
) -> nat
    decreases paths.len(),
{
    if paths.len() == 0 {
        0
    } else {
        let before = check_paths(m, paths.drop_last(), hashes);
        let p = paths.last();
        uploads_in(m, paths.drop_last(), hashes) + if !is_meta(p) && needs_upload(
            before,
            p,
            hashes[p],
        ) {
            1nat
        } else {
            0nat
        }
    }
}

/// The record holds, for every path of `paths` that is not a `.meta` file,
/// the hash its contents have in `hashes`.
pub open spec fn records_all(
    m: Map<Seq<char>, Seq<char>>,
    paths: Seq<Seq<char>>,
    hashes: Map<Seq<char>, Seq<char>>,
) -> bool {
    forall|i: int|
        0 <= i < paths.len() && !is_meta(paths[i]) ==> m.contains_key(#[trigger] paths[i])
            && m[paths[i]] == hashes[paths[i]]
}

proof fn lemma_check_paths_records(
    m: Map<Seq<char>, Seq<char>>,
    paths: Seq<Seq<char>>,
    hashes: Map<Seq<char>, Seq<char>>,
)
    ensures
        records_all(check_paths(m, paths, hashes), paths, hashes),
    decreases paths.len(),
{
    if paths.len() > 0 {
        let q = paths.drop_last();
        let before = check_paths(m, q, hashes);
        let p = paths.last();
        lemma_check_paths_records(m, q, hashes);
        let after = check_paths(m, paths, hashes);
        assert forall|i: int| 0 <= i < paths.len() && !is_meta(paths[i]) implies after.contains_key(
            #[trigger] paths[i],
        ) && after[paths[i]] == hashes[paths[i]] by {
            if !is_meta(p) {
                lemma_check_records(before, p, hashes[p]);
                if paths[i] != p {
                    assert(q[i] == paths[i]);
                    lemma_check_other_paths(before, p, hashes[p], paths[i]);
                }
            } else {
                assert(q[i] == paths[i]);
            }
        }
    }
}

proof fn lemma_check_paths_settled(
    m: Map<Seq<char>, Seq<char>>,
    paths: Seq<Seq<char>>,
    hashes: Map<Seq<char>, Seq<char>>,
)
    requires
        records_all(m, paths, hashes),
    ensures
        check_paths(m, paths, hashes) == m,
        uploads_in(m, paths, hashes) == 0,
    decreases paths.len(),
{
    if paths.len() > 0 {
        let q = paths.drop_last();
        assert(records_all(m, q, hashes)) by {
            assert forall|i: int| 0 <= i < q.len() && !is_meta(q[i]) implies m.contains_key(
                #[trigger] q[i],
            ) && m[q[i]] == hashes[q[i]] by {
                assert(paths[i] == q[i]);
            }
        }
        lemma_check_paths_settled(m, q, hashes);
        let p = paths.last();
        if !is_meta(p) {
            assert(paths[paths.len() - 1] == p);
        }
    }
}

/// Handling the same event again, with every file's contents unchanged,
/// sends nothing and leaves the record as the first handling left it.
pub proof fn lemma_rehandling_sends_nothing(
    m: Map<Seq<char>, Seq<char>>,
    paths: Seq<Seq<char>>,
    hashes: Map<Seq<char>, Seq<char>>,
)
    ensures
        check_paths(check_paths(m, paths, hashes), paths, hashes) == check_paths(
            m,
            paths,
            hashes,
        ),
        uploads_in(check_paths(m, paths, hashes), paths, hashes) == 0,
{
    lemma_check_paths_records(m, paths, hashes);
    lemma_check_paths_settled(check_paths(m, paths, hashes), paths, hashes);
}

proof fn lemma_meta_changes_nothing(
    m: Map<Seq<char>, Seq<char>>,
    paths: Seq<Seq<char>>,
    hashes: Map<Seq<char>, Seq<char>>,
    k: int,
)
    requires
        0 <= k < paths.len(),
        is_meta(paths[k]),
    ensures
        check_paths(m, paths.take(k + 1), hashes) == check_paths(m, paths.take(k), hashes),
        uploads_in(m, paths.take(k + 1), hashes) == uploads_in(m, paths.take(k), hashes),
{
    assert(paths.take(k + 1).drop_last() =~= paths.take(k));
    assert(paths.take(k + 1).last() == paths[k]);
}

proof fn lemma_metas_change_nothing(
    m: Map<Seq<char>, Seq<char>>,
    paths: Seq<Seq<char>>,
    hashes: Map<Seq<char>, Seq<char>>,
    from: int,
    to: int,
)
    requires
        0 <= from <= to <= paths.len(),
        forall|k: int| from <= k < to ==> is_meta(#[trigger] paths[k]),
    ensures
        check_paths(m, paths.take(to), hashes) == check_paths(m, paths.take(from), hashes),
        uploads_in(m, paths.take(to), hashes) == uploads_in(m, paths.take(from), hashes),
    decreases to - from,
{
    if from < to {
        lemma_metas_change_nothing(m, paths, hashes, from, to - 1);
        lemma_meta_changes_nothing(m, paths, hashes, to - 1);
    }
}

/// One turn of the loop that handles an event, in the model: when
/// `next_upload_candidate` gives `j` from `from`, handling the paths up to `j`
/// is handling those before `from` and then checking `paths[j]`, as
/// `decide_upload` does; the turn sends one event exactly when that check
/// finds the file changed.
pub proof fn lemma_handling_step(
    m: Map<Seq<char>, Seq<char>>,
    paths: Seq<Seq<char>>,
    hashes: Map<Seq<char>, Seq<char>>,
    from: int,
    j: int,
)
    requires
        0 <= from <= j < paths.len(),
        forall|k: int| from <= k < j ==> is_meta(#[trigger] paths[k]),
        !is_meta(paths[j]),
    ensures
        check_paths(m, paths.take(j + 1), hashes) == after_check(
            check_paths(m, paths.take(from), hashes),
            paths[j],
            hashes[paths[j]],
        ),
        uploads_in(m, paths.take(j + 1), hashes) == uploads_in(m, paths.take(from), hashes) + if needs_upload(
            check_paths(m, paths.take(from), hashes),
            paths[j],
            hashes[paths[j]],
        ) {
            1nat
        } else {
            0nat
        },
{
    lemma_metas_change_nothing(m, paths, hashes, from, j);
    assert(paths.take(j + 1).drop_last() =~= paths.take(j));
    assert(paths.take(j + 1).last() == paths[j]);
}

/// The end of the loop, in the model: when `next_upload_candidate` finds no
/// path from `from` on, the paths before `from` are the whole event.
pub proof fn lemma_handling_end(
    m: Map<Seq<char>, Seq<char>>,
    paths: Seq<Seq<char>>,
    hashes: Map<Seq<char>, Seq<char>>,
    from: int,
)
    requires
        0 <= from <= paths.len(),
        forall|k: int| from <= k < paths.len() ==> is_meta(#[trigger] paths[k]),
    ensures
        check_paths(m, paths, hashes) == check_paths(m, paths.take(from), hashes),
        uploads_in(m, paths, hashes) == uploads_in(m, paths.take(from), hashes),
{
    lemma_metas_change_nothing(m, paths, hashes, from, paths.len() as int);
    assert(paths.take(paths.len() as int) =~= paths);
}

} // verus!
