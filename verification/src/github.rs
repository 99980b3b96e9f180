//! The push event: what the webhook reports of a commit, and the shape the
//! revision diff extractor hands to the reconciliation — the changed
//! manifest files with their texts at the two revisions.
//!
//! Only paths that end in `".json"` are manifest files; the rest of a push
//! is ignored.

use vstd::prelude::*;
use vstd::string::StrSliceExecFns;

verus! {

/// The author a push event names.
#[derive(Debug)]
pub struct AuthorPayload {
    pub username: String,
    pub email: String,
}

/// The head commit of a push event: the path lists it reports.
#[derive(Debug)]
pub struct CommitPayload {
    pub added: Vec<String>,
    pub removed: Vec<String>,
    pub modified: Vec<String>,
    pub author: AuthorPayload,
}

/// The repository a push event points at.
#[derive(Debug)]
pub struct RepositoryPayload {
    pub url: String,
}

/// A push event: the revision pair, the repository, and the paths the
/// push reports as added, removed and modified.
#[derive(Debug)]
pub struct PushWebhookPayload {
    pub after: String,
    pub before: String,
    pub head_commit: CommitPayload,
    pub repository: RepositoryPayload,
}

/// The texts of one commit's changed manifest files: `added` and `removed`
/// hold each file's text at the one revision that has it; `modified` holds
/// the current text first and the previous text second.
#[derive(Debug)]
pub struct ProcessedPushPayload {
    pub added: Vec<String>,
    pub removed: Vec<String>,
    pub modified: Vec<(String, String)>,
}

/// The mathematical value of a `ProcessedPushPayload`.
#[verifier::ext_equal]
pub struct ProcessedPushView {
    pub added: Seq<Seq<char>>,
    pub removed: Seq<Seq<char>>,
    pub modified: Seq<(Seq<char>, Seq<char>)>,
}

impl View for ProcessedPushPayload {
    type V = ProcessedPushView;

    open spec fn view(&self) -> ProcessedPushView {
        ProcessedPushView {
            added: self.added@.map_values(|s: String| s@),
            removed: self.removed@.map_values(|s: String| s@),
            modified: self.modified@.map_values(|p: (String, String)| (p.0@, p.1@)),
        }
    }
}

/// Whether a path names a manifest file: it ends in `".json"`.
pub open spec fn is_json_path(s: Seq<char>) -> bool {
    s.len() >= 5 && s.subrange(s.len() - 5, s.len() as int) == ".json"@
}

/// Whether a reported path names a manifest file.
pub fn is_manifest_path(s: &String) -> (r: bool)
    ensures
        r == is_json_path(s@),
{
    let n = s.as_str().unicode_len();
    if n < 5 {
        return false;
    }
    let r = s.as_str().get_char(n - 5) == '.' && s.as_str().get_char(n - 4) == 'j' && s.as_str()
        .get_char(n - 3) == 's' && s.as_str().get_char(n - 2) == 'o' && s.as_str().get_char(n - 1)
        == 'n';
    proof {
        reveal_strlit(".json");
        let tail = s@.subrange(n - 5, n as int);
        assert(tail[0] == s@[n - 5] && tail[1] == s@[n - 4] && tail[2] == s@[n - 3] && tail[3]
            == s@[n - 2] && tail[4] == s@[n - 1]);
        if r {
            assert(tail =~= ".json"@);
        }
    }
    r
}

/// The manifest paths among the reported ones, in their order.
pub fn manifest_paths(paths: &Vec<String>) -> (r: Vec<String>)
    ensures
        r@.map_values(|s: String| s@) == paths@.map_values(|s: String| s@).filter(
            |p: Seq<char>| is_json_path(p),
        ),
{
    let ghost all = paths@.map_values(|s: String| s@);
    let ghost pred = |p: Seq<char>| is_json_path(p);
    let mut r: Vec<String> = Vec::new();
    proof {
        reveal(Seq::filter);
        assert(all.subrange(0, 0) =~= Seq::<Seq<char>>::empty());
        assert(r@.map_values(|s: String| s@) =~= all.subrange(0, 0).filter(pred));
    }
    let mut i: usize = 0;
    while i < paths.len()
        invariant
            i <= paths.len(),
            all == paths@.map_values(|s: String| s@),
            all.len() == paths.len(),
            pred == (|p: Seq<char>| is_json_path(p)),
            r@.map_values(|s: String| s@) == all.subrange(0, i as int).filter(pred),
        decreases paths.len() - i,
    {
        proof {
            reveal(Seq::filter);
            let prefix2 = all.subrange(0, i + 1);
            assert(prefix2.drop_last() =~= all.subrange(0, i as int));
            assert(prefix2.last() == all[i as int]);
            assert(all[i as int] == paths@[i as int]@);
            assert(prefix2.filter(pred) == if pred(all[i as int]) {
                all.subrange(0, i as int).filter(pred).push(all[i as int])
            } else {
                all.subrange(0, i as int).filter(pred)
            });
        }
        if is_manifest_path(&paths[i]) {
            let p = paths[i].clone();
            proof {
                assert(r@.push(p).map_values(|s: String| s@) =~= r@.map_values(|s: String| s@).push(
                    paths@[i as int]@,
                ));
            }
            r.push(p);
        }
        i = i + 1;
    }
    proof {
        assert(all.subrange(0, paths.len() as int) =~= all);
    }
    r
}

} // verus!
