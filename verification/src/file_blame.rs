//! Blame snapshots: the data model, the commit metadata cache, and the
//! stages that build a snapshot out of raw `git blame` output.
//!
//! Building a snapshot interleaves decisions with git queries. The caller
//! runs the queries and drives these stages in order: walk the probe
//! sequence with [`probe_step`] (wrong path, wrong ref, and so on, each with
//! its own error), fetch the blame text, [`parse_lines`], ask
//! [`missing_commits`] which commit shas still lack metadata, fetch one
//! summary per listed sha, [`install_commits`], and finally assemble with
//! [`FileBlame::parse`].
use vstd::prelude::*;
use vstd::string::*;

use crate::parse::{
    first_pos, chars_of, first_pos_exec, line_matches, parse_line, spec_parse_line, BlameRecord,
    BlameRecordView,
};

verus! {

/// Metadata for a single git commit. All commits have a parent, except the
/// initial commit.
#[derive(PartialEq, Default, Clone, Debug)]
pub struct Commit {
    pub sha: String,
    pub author: String,
    pub commit_message: String,
    pub parent_commit_sha: Option<String>,
    pub timestamp: String,
}

/// The mathematical model of a commit's metadata.
#[verifier::ext_equal]
pub ghost struct CommitView {
    pub sha: Seq<char>,
    pub author: Seq<char>,
    pub commit_message: Seq<char>,
    pub parent_commit_sha: Option<Seq<char>>,
    pub timestamp: Seq<char>,
}

impl View for Commit {
    type V = CommitView;

    open spec fn view(&self) -> CommitView {
        CommitView {
            sha: self.sha@,
            author: self.author@,
            commit_message: self.commit_message@,
            parent_commit_sha: match self.parent_commit_sha {
                Some(p) => Some(p@),
                None => None,
            },
            timestamp: self.timestamp@,
        }
    }
}

/// A single line of a blame of a specific file at a specific commit. Full
/// commit information is shared across lines, so a line holds only the sha
/// of the commit that introduced it, a key into the [`CommitCache`].
#[derive(PartialEq, Clone, Debug)]
pub struct BlameLine {
    pub commit_sha: String,
    pub contents: String,
    pub line_number: String,
}

/// The mathematical model of one blame line.
#[verifier::ext_equal]
pub ghost struct BlameLineView {
    pub commit_sha: Seq<char>,
    pub contents: Seq<char>,
    pub line_number: Seq<char>,
}

impl View for BlameLine {
    type V = BlameLineView;

    open spec fn view(&self) -> BlameLineView {
        BlameLineView {
            commit_sha: self.commit_sha@,
            contents: self.contents@,
            line_number: self.line_number@,
        }
    }
}

/// All lines of a blame of a specific file at a specific commit, in file
/// order. Immutable once built: a new ref produces a new snapshot.
#[derive(PartialEq, Clone, Debug)]
pub struct FileBlame {
    pub blame_lines: Vec<BlameLine>,
    pub filepath: String,
    pub commit_sha: String,
}

/// The mathematical model of a snapshot.
#[verifier::ext_equal]
pub ghost struct FileBlameView {
    pub blame_lines: Seq<BlameLineView>,
    pub filepath: Seq<char>,
    pub commit_sha: Seq<char>,
}

impl View for FileBlame {
    type V = FileBlameView;

    open spec fn view(&self) -> FileBlameView {
        FileBlameView {
            blame_lines: self.blame_lines@.map_values(|l: BlameLine| l@),
            filepath: self.filepath@,
            commit_sha: self.commit_sha@,
        }
    }
}

/// The errors that building a blame for a file can produce.
#[derive(Debug, Clone)]
pub enum FileBlameError {
    NotExist,
    NotFile,
    NotGit,
    MissingAtCommit,
    Unknown(String),
}

impl FileBlameError {
    /// The display text of the error.
    pub open spec fn spec_message(&self) -> Seq<char> {
        match self {
            FileBlameError::NotExist => "File doesn't exist"@,
            FileBlameError::NotFile => "Provided path is not a regular file"@,
            FileBlameError::NotGit => "File is not in a git repository"@,
            FileBlameError::MissingAtCommit => "File does not exist at commit"@,
            FileBlameError::Unknown(s) => "Unknown error: "@ + s@,
        }
    }

    /// Renders the error for the user; the `Unknown` detail is kept
    /// verbatim.
    pub fn message(&self) -> (r: String)
        ensures
            r@ == self.spec_message(),
    {
        match self {
            FileBlameError::NotExist => String::from_str("File doesn't exist"),
            FileBlameError::NotFile => String::from_str("Provided path is not a regular file"),
            FileBlameError::NotGit => String::from_str("File is not in a git repository"),
            FileBlameError::MissingAtCommit => String::from_str("File does not exist at commit"),
            FileBlameError::Unknown(s) => String::from_str("Unknown error: ").concat(s.as_str()),
        }
    }
}

/// The keyed store of commit metadata. It grows monotonically over a whole
/// session and is shared across every snapshot build, so each distinct
/// commit is fetched from git at most once.
pub struct CommitCache {
    commits: Vec<Commit>,
}

impl CommitCache {
    /// Whether the cache holds a commit with this sha.
    pub closed spec fn contains_sha(&self, sha: Seq<char>) -> bool {
        exists|i: int| 0 <= i < self.commits@.len() && self.commits@[i].sha@ == sha
    }

    /// The position of the commit with this sha.
    pub closed spec fn spec_index_of(&self, sha: Seq<char>) -> int {
        choose|i: int| 0 <= i < self.commits@.len() && self.commits@[i].sha@ == sha
    }

    /// The metadata stored under this sha.
    pub closed spec fn spec_get(&self, sha: Seq<char>) -> CommitView {
        self.commits@[self.spec_index_of(sha)]@
    }

    /// Each sha keys at most one entry.
    pub closed spec fn wf(&self) -> bool {
        forall|i: int, j: int|
            0 <= i < j < self.commits@.len() ==> self.commits@[i].sha@ != self.commits@[j].sha@
    }

    proof fn lemma_index_unique(&self, sha: Seq<char>)
        requires
            self.wf(),
            self.contains_sha(sha),
        ensures
            0 <= self.spec_index_of(sha) < self.commits@.len(),
            self.commits@[self.spec_index_of(sha)].sha@ == sha,
            forall|j: int|
                0 <= j < self.commits@.len() && self.commits@[j].sha@ == sha ==> j
                    == self.spec_index_of(sha),
    {
        let i = self.spec_index_of(sha);
        assert(0 <= i < self.commits@.len() && self.commits@[i].sha@ == sha);
    }

    /// A cache with nothing in it yet.
    pub fn new() -> (r: CommitCache)
        ensures
            r.wf(),
            forall|sha: Seq<char>| !r.contains_sha(sha),
    {
        CommitCache { commits: Vec::new() }
    }

    /// Whether metadata for this sha was fetched already.
    pub fn contains(&self, sha: &String) -> (r: bool)
        ensures
            r == self.contains_sha(sha@),
    {
        let mut i: usize = 0;
        while i < self.commits.len()
            invariant
                i <= self.commits@.len(),
                forall|j: int| 0 <= j < i ==> self.commits@[j].sha@ != sha@,
            decreases self.commits@.len() - i,
        {
            if self.commits[i].sha == *sha {
                return true;
            }
            i += 1;
        }
        false
    }

    /// The stored metadata for a sha, if it was fetched already.
    pub fn get(&self, sha: &String) -> (r: Option<&Commit>)
        requires
            self.wf(),
        ensures
            r is Some <==> self.contains_sha(sha@),
            (r matches Some(c) ==> c@ == self.spec_get(sha@) && c.sha@ == sha@),
    {
        let mut i: usize = 0;
        while i < self.commits.len()
            invariant
                self.wf(),
                i <= self.commits@.len(),
                forall|j: int| 0 <= j < i ==> self.commits@[j].sha@ != sha@,
            decreases self.commits@.len() - i,
        {
            if self.commits[i].sha == *sha {
                proof {
                    self.lemma_index_unique(sha@);
                }
                return Some(&self.commits[i]);
            }
            i += 1;
        }
        None
    }

    /// Stores metadata for a sha that was not fetched before. Every other
    /// entry is untouched.
    pub fn insert(&mut self, commit: Commit)
        requires
            old(self).wf(),
            !old(self).contains_sha(commit.sha@),
        ensures
            final(self).wf(),
            final(self).contains_sha(commit.sha@),
            final(self).spec_get(commit.sha@) == commit@,
            forall|s: Seq<char>|
                s != commit.sha@ ==> final(self).contains_sha(s) == old(self).contains_sha(s),
            forall|s: Seq<char>|
                s != commit.sha@ && old(self).contains_sha(s) ==> final(self).spec_get(s) == old(
                    self,
                ).spec_get(s),
    {
        let ghost old_commits = self.commits@;
        let ghost c_sha = commit.sha@;
        self.commits.push(commit);
        proof {
            assert(self.commits@ == old_commits.push(self.commits@.last()));
            assert forall|i: int, j: int|
                0 <= i < j < self.commits@.len() implies self.commits@[i].sha@
                != self.commits@[j].sha@ by {
                if j < old_commits.len() {
                } else {
                    assert(self.commits@[j].sha@ == c_sha);
                    assert(!old(self).contains_sha(c_sha));
                }
            }
            assert(self.commits@[old_commits.len() as int].sha@ == c_sha);
            self.lemma_index_unique(c_sha);
            assert forall|s: Seq<char>|
                s != c_sha implies self.contains_sha(s) == old(self).contains_sha(s) by {
                if self.contains_sha(s) {
                    let i = choose|i: int|
                        0 <= i < self.commits@.len() && self.commits@[i].sha@ == s;
                    assert(i < old_commits.len());
                }
                if old(self).contains_sha(s) {
                    let i = choose|i: int| 0 <= i < old_commits.len() && old_commits[i].sha@ == s;
                    assert(self.commits@[i].sha@ == s);
                }
            }
            assert forall|s: Seq<char>|
                s != c_sha && old(self).contains_sha(s) implies self.spec_get(s) == old(
                self,
            ).spec_get(s) by {
                self.lemma_index_unique(s);
                old(self).lemma_index_unique(s);
                let i_old = old(self).spec_index_of(s);
                assert(self.commits@[i_old].sha@ == s);
            }
        }
    }
}

/// The first line index at or after `i` whose text does not have the
/// recognized blame shape (`ls.len()` when all lines parse).
pub open spec fn first_unmatched_from(ls: Seq<Seq<char>>, i: int) -> int
    decreases ls.len() - i,
{
    if i < 0 || i >= ls.len() {
        ls.len() as int
    } else if !line_matches(ls[i]) {
        i
    } else {
        first_unmatched_from(ls, i + 1)
    }
}

/// Parses every line of raw blame output, in file order. One malformed
/// line fails the whole operation: that signals an incompatible tool
/// output, reported as `Unknown` carrying the offending line.
pub fn parse_lines(blame_lines: &Vec<String>) -> (r: Result<Vec<BlameRecord>, FileBlameError>)
    ensures
        ({
            let ls = blame_lines.deep_view();
            let k = first_unmatched_from(ls, 0);
            &&& (r is Ok <==> k == ls.len())
            &&& (r matches Ok(recs) ==> recs@.len() == ls.len() && (forall|i: int|
                0 <= i < ls.len() ==> #[trigger] recs@[i]@ == spec_parse_line(ls[i])))
            &&& (r matches Err(e) ==> 0 <= k < ls.len() && !line_matches(ls[k]) && e
                == FileBlameError::Unknown(blame_lines@[k]))
        }),
{
    let ghost ls = blame_lines.deep_view();
    let mut recs: Vec<BlameRecord> = Vec::new();
    let mut i: usize = 0;
    while i < blame_lines.len()
        invariant
            ls == blame_lines.deep_view(),
            i <= ls.len(),
            ls.len() == blame_lines@.len(),
            recs@.len() == i,
            forall|j: int| 0 <= j < i ==> #[trigger] recs@[j]@ == spec_parse_line(ls[j]),
            first_unmatched_from(ls, 0) == first_unmatched_from(ls, i as int),
        decreases ls.len() - i,
    {
        assert(ls[i as int] == blame_lines@[i as int]@);
        match parse_line(blame_lines[i].as_str()) {
            Some(rec) => {
                recs.push(rec);
            },
            None => {
                assert(first_unmatched_from(ls, i as int) == i);
                return Err(FileBlameError::Unknown(blame_lines[i].clone()));
            },
        }
        i += 1;
    }
    Ok(recs)
}

/// The sha that position `k` of the fetch list points at.
pub open spec fn listed_sha(records: Seq<BlameRecord>, idxs: Seq<usize>, k: int) -> Seq<char> {
    records[idxs[k] as int].commit_sha@
}

/// The positions of the blame records whose commit metadata the cache does
/// not hold yet: one position per distinct missing sha, each the sha's
/// first occurrence, in file order. The caller fetches exactly one commit
/// summary per listed position, so the metadata of a commit shared by many
/// lines is requested once, however many lines share it.
pub fn missing_commits(records: &Vec<BlameRecord>, commit_cache: &CommitCache) -> (idxs: Vec<usize>)
    ensures
        forall|k: int| 0 <= k < idxs@.len() ==> (idxs@[k] as int) < records@.len(),
        forall|k1: int, k2: int| 0 <= k1 < k2 < idxs@.len() ==> idxs@[k1] < idxs@[k2],
        forall|k: int|
            0 <= k < idxs@.len() ==> !commit_cache.contains_sha(
                #[trigger] listed_sha(records@, idxs@, k),
            ),
        forall|k: int, j: int|
            #![trigger listed_sha(records@, idxs@, k), records@[j].commit_sha@]
            0 <= k < idxs@.len() && 0 <= j < idxs@[k] as int ==> records@[j].commit_sha@
                != listed_sha(records@, idxs@, k),
        forall|k1: int, k2: int|
            0 <= k1 < k2 < idxs@.len() ==> #[trigger] listed_sha(records@, idxs@, k1)
                != #[trigger] listed_sha(records@, idxs@, k2),
        forall|i: int|
            0 <= i < records@.len() && !commit_cache.contains_sha(
                #[trigger] records@[i].commit_sha@,
            ) ==> exists|k: int|
                0 <= k < idxs@.len() && listed_sha(records@, idxs@, k) == records@[i].commit_sha@,
{
    let mut idxs: Vec<usize> = Vec::new();
    let mut i: usize = 0;
    while i < records.len()
        invariant
            i <= records@.len(),
            forall|k: int| 0 <= k < idxs@.len() ==> (idxs@[k] as int) < i,
            forall|k1: int, k2: int| 0 <= k1 < k2 < idxs@.len() ==> idxs@[k1] < idxs@[k2],
            forall|k: int|
                0 <= k < idxs@.len() ==> !commit_cache.contains_sha(
                    #[trigger] listed_sha(records@, idxs@, k),
                ),
            forall|k: int, j: int|
                #![trigger listed_sha(records@, idxs@, k), records@[j].commit_sha@]
                0 <= k < idxs@.len() && 0 <= j < idxs@[k] as int ==> records@[j].commit_sha@
                    != listed_sha(records@, idxs@, k),
            forall|k1: int, k2: int|
                0 <= k1 < k2 < idxs@.len() ==> #[trigger] listed_sha(records@, idxs@, k1)
                    != #[trigger] listed_sha(records@, idxs@, k2),
            forall|i2: int|
                0 <= i2 < i && !commit_cache.contains_sha(#[trigger] records@[i2].commit_sha@)
                    ==> exists|k: int|
                    0 <= k < idxs@.len() && listed_sha(records@, idxs@, k)
                        == records@[i2].commit_sha@,
        decreases records@.len() - i,
    {
        let ghost prev_idxs = idxs@;
        if !commit_cache.contains(&records[i].commit_sha) {
            let mut seen = false;
            let mut j: usize = 0;
            while j < i
                invariant
                    j <= i,
                    i < records@.len(),
                    seen <==> exists|j2: int|
                        0 <= j2 < j && records@[j2].commit_sha@ == records@[i as int].commit_sha@,
                decreases i - j,
            {
                if records[j].commit_sha == records[i].commit_sha {
                    seen = true;
                }
                j += 1;
            }
            if !seen {
                idxs.push(i);
                proof {
                    assert(idxs@ == prev_idxs.push(i));
                    assert(listed_sha(records@, idxs@, idxs@.len() - 1) == records@[
                        i as int
                    ].commit_sha@);
                    assert forall|k: int|
                        0 <= k < prev_idxs.len() implies listed_sha(records@, idxs@, k)
                        == listed_sha(records@, prev_idxs, k) by {
                        assert(idxs@[k] == prev_idxs[k]);
                    }
                    assert forall|k: int|
                        0 <= k < idxs@.len() implies !commit_cache.contains_sha(
                        #[trigger] listed_sha(records@, idxs@, k),
                    ) by {
                        if k < prev_idxs.len() {
                            assert(listed_sha(records@, idxs@, k) == listed_sha(
                                records@,
                                prev_idxs,
                                k,
                            ));
                        } else {
                            assert(listed_sha(records@, idxs@, k) == records@[
                                i as int
                            ].commit_sha@);
                        }
                    }
                    assert forall|k: int, j: int|
                        0 <= k < idxs@.len() && 0 <= j < idxs@[k] as int implies records@[
                        j
                    ].commit_sha@ != listed_sha(records@, idxs@, k) by {
                        if k < prev_idxs.len() {
                            assert(idxs@[k] == prev_idxs[k]);
                            assert(listed_sha(records@, idxs@, k) == listed_sha(
                                records@,
                                prev_idxs,
                                k,
                            ));
                        } else {
                            assert(idxs@[k] == i);
                            assert(listed_sha(records@, idxs@, k) == records@[
                                i as int
                            ].commit_sha@);
                            assert(!(exists|j2: int|
                                0 <= j2 < i && records@[j2].commit_sha@ == records@[
                                    i as int
                                ].commit_sha@));
                        }
                    }
                }
            } else {
                proof {
                    let j2 = choose|j2: int|
                        0 <= j2 < i && records@[j2].commit_sha@ == records@[i as int].commit_sha@;
                    assert(!commit_cache.contains_sha(records@[j2].commit_sha@));
                }
            }
        }
        i += 1;
    }
    idxs
}

/// The commit a fetched summary describes. The summary has the shape
/// `<parent_sha_or_empty>-<message>` and is split on the first `-`; an
/// empty parent token means a root commit. Author and timestamp come from
/// the blame record that triggered the fetch.
pub open spec fn commit_of(rec: BlameRecordView, summary: Seq<char>) -> CommitView {
    let d = first_pos(summary, 0, '-');
    CommitView {
        sha: rec.commit_sha,
        author: rec.author,
        commit_message: summary.subrange(d + 1, summary.len() as int),
        parent_commit_sha: if d == 0 {
            None
        } else {
            Some(summary.subrange(0, d))
        },
        timestamp: rec.timestamp,
    }
}

/// Builds the commit a fetched summary describes, splitting the summary on
/// its first `-`.
pub fn commit_from_summary(rec: &BlameRecord, summary: &String) -> (c: Commit)
    requires
        first_pos(summary@, 0, '-') < summary@.len(),
    ensures
        c@ == commit_of(rec@, summary@),
        c.sha@ == rec.commit_sha@,
{
    let v = chars_of(summary.as_str());
    let d = first_pos_exec(&v, 0, '-');
    let n = summary.as_str().unicode_len();
    let parent_commit_sha = if d == 0 {
        None
    } else {
        Some(String::from_str(summary.as_str().substring_char(0, d)))
    };
    Commit {
        sha: rec.commit_sha.clone(),
        author: rec.author.clone(),
        commit_message: String::from_str(summary.as_str().substring_char(d + 1, n)),
        parent_commit_sha,
        timestamp: rec.timestamp.clone(),
    }
}

/// Stores the fetched metadata in the cache: one summary per listed
/// position, as [`missing_commits`] produced them. Entries already present
/// are never overwritten, and every unrelated entry is untouched, so the
/// cache only ever grows.
pub fn install_commits(
    commit_cache: &mut CommitCache,
    records: &Vec<BlameRecord>,
    idxs: &Vec<usize>,
    summaries: &Vec<String>,
)
    requires
        old(commit_cache).wf(),
        idxs@.len() == summaries@.len(),
        forall|k: int| 0 <= k < idxs@.len() ==> (idxs@[k] as int) < records@.len(),
        forall|k: int|
            0 <= k < idxs@.len() ==> first_pos(#[trigger] summaries@[k]@, 0, '-')
                < summaries@[k]@.len(),
    ensures
        final(commit_cache).wf(),
        forall|s: Seq<char>|
            old(commit_cache).contains_sha(s) ==> final(commit_cache).contains_sha(s),
        forall|s: Seq<char>|
            old(commit_cache).contains_sha(s) ==> final(commit_cache).spec_get(s) == old(
                commit_cache,
            ).spec_get(s),
        forall|s: Seq<char>|
            final(commit_cache).contains_sha(s) ==> old(commit_cache).contains_sha(s) || exists|
                k: int,
            | 0 <= k < idxs@.len() && listed_sha(records@, idxs@, k) == s,
        forall|k: int|
            0 <= k < idxs@.len() ==> final(commit_cache).contains_sha(
                #[trigger] listed_sha(records@, idxs@, k),
            ),
        forall|k: int|
            0 <= k < idxs@.len() && !old(commit_cache).contains_sha(
                #[trigger] listed_sha(records@, idxs@, k),
            ) && (forall|k2: int|
                0 <= k2 < k ==> listed_sha(records@, idxs@, k2) != listed_sha(records@, idxs@, k))
                ==> final(commit_cache).spec_get(listed_sha(records@, idxs@, k)) == commit_of(
                records@[idxs@[k] as int]@,
                summaries@[k]@,
            ),
{
    let mut k: usize = 0;
    while k < idxs.len()
        invariant
            idxs@.len() == summaries@.len(),
            forall|k2: int| 0 <= k2 < idxs@.len() ==> (idxs@[k2] as int) < records@.len(),
            forall|k2: int|
                0 <= k2 < idxs@.len() ==> first_pos(#[trigger] summaries@[k2]@, 0, '-')
                    < summaries@[k2]@.len(),
            k <= idxs@.len(),
            commit_cache.wf(),
            forall|s: Seq<char>|
                old(commit_cache).contains_sha(s) ==> commit_cache.contains_sha(s),
            forall|s: Seq<char>|
                old(commit_cache).contains_sha(s) ==> commit_cache.spec_get(s) == old(
                    commit_cache,
                ).spec_get(s),
            forall|s: Seq<char>|
                commit_cache.contains_sha(s) ==> old(commit_cache).contains_sha(s) || exists|
                    k2: int,
                | 0 <= k2 < k && listed_sha(records@, idxs@, k2) == s,
            forall|k2: int|
                0 <= k2 < k ==> commit_cache.contains_sha(
                    #[trigger] listed_sha(records@, idxs@, k2),
                ),
            forall|k2: int|
                0 <= k2 < k && !old(commit_cache).contains_sha(
                    #[trigger] listed_sha(records@, idxs@, k2),
                ) && (forall|k3: int|
                    0 <= k3 < k2 ==> listed_sha(records@, idxs@, k3) != listed_sha(
                        records@,
                        idxs@,
                        k2,
                    )) ==> commit_cache.spec_get(listed_sha(records@, idxs@, k2)) == commit_of(
                    records@[idxs@[k2] as int]@,
                    summaries@[k2]@,
                ),
        decreases idxs@.len() - k,
    {
        let i = idxs[k];
        let rec = &records[i];
        proof {
            assert(listed_sha(records@, idxs@, k as int) == rec.commit_sha@);
        }
        let ghost cache_before = *commit_cache;
        if !commit_cache.contains(&rec.commit_sha) {
            let c = commit_from_summary(rec, &summaries[k]);
            commit_cache.insert(c);
        }
        proof {
            assert forall|s: Seq<char>|
                commit_cache.contains_sha(s) implies old(commit_cache).contains_sha(s) || exists|
                k2: int,
            | 0 <= k2 < k + 1 && listed_sha(records@, idxs@, k2) == s by {
                if s == rec.commit_sha@ {
                    assert(listed_sha(records@, idxs@, k as int) == s);
                } else {
                    if cache_before.contains_sha(s) {
                        if !old(commit_cache).contains_sha(s) {
                            let k2 = choose|k2: int|
                                0 <= k2 < k && listed_sha(records@, idxs@, k2) == s;
                            assert(0 <= k2 < k + 1 && listed_sha(records@, idxs@, k2) == s);
                        }
                    }
                }
            }
            assert forall|k2: int|
                0 <= k2 < k + 1 && !old(commit_cache).contains_sha(
                    #[trigger] listed_sha(records@, idxs@, k2),
                ) && (forall|k3: int|
                    0 <= k3 < k2 ==> listed_sha(records@, idxs@, k3) != listed_sha(
                        records@,
                        idxs@,
                        k2,
                    )) implies commit_cache.spec_get(listed_sha(records@, idxs@, k2)) == commit_of(
                records@[idxs@[k2] as int]@,
                summaries@[k2]@,
            ) by {
                if k2 < k as int {
                    assert(cache_before.spec_get(listed_sha(records@, idxs@, k2)) == commit_of(
                        records@[idxs@[k2] as int]@,
                        summaries@[k2]@,
                    ));
                    if listed_sha(records@, idxs@, k2) != rec.commit_sha@ {
                    } else {
                        assert(cache_before.contains_sha(rec.commit_sha@));
                    }
                } else {
                    assert(k2 == k as int);
                    if cache_before.contains_sha(rec.commit_sha@) {
                        let k3 = choose|k3: int|
                            0 <= k3 < k && listed_sha(records@, idxs@, k3) == rec.commit_sha@;
                        assert(listed_sha(records@, idxs@, k3) == listed_sha(records@, idxs@, k2));
                        assert(false);
                    }
                }
            }
        }
        k += 1;
    }
}

/// The fixed sequence of checks that precede fetching blame text, each
/// probe answered by one git query (or one look at the file system).
#[derive(PartialEq, Eq, Structural, Clone, Copy, Debug)]
pub enum BuildProbe {
    /// Does the path resolve to anything on disk?
    PathExists,
    /// Is it a regular file?
    IsFile,
    /// Is it inside a version-controlled work tree?
    InsideWorkTree,
    /// Does the file exist at the requested ref?
    ExistsAtRef,
}

/// What a probe's answer decides: the next probe to run, `Ok(None)` when
/// the checks are done and the blame text may be fetched, or the error that
/// classifies the failure.
pub open spec fn spec_probe_step(probe: BuildProbe, ok: bool) -> Result<
    Option<BuildProbe>,
    FileBlameError,
> {
    match probe {
        BuildProbe::PathExists => if ok {
            Ok(Some(BuildProbe::IsFile))
        } else {
            Err(FileBlameError::NotExist)
        },
        BuildProbe::IsFile => if ok {
            Ok(Some(BuildProbe::InsideWorkTree))
        } else {
            Err(FileBlameError::NotFile)
        },
        BuildProbe::InsideWorkTree => if ok {
            Ok(Some(BuildProbe::ExistsAtRef))
        } else {
            Err(FileBlameError::NotGit)
        },
        BuildProbe::ExistsAtRef => if ok {
            Ok(None)
        } else {
            Err(FileBlameError::MissingAtCommit)
        },
    }
}

/// The probe every build starts with.
pub fn first_probe() -> (r: BuildProbe)
    ensures
        r == BuildProbe::PathExists,
{
    BuildProbe::PathExists
}

/// Advances the check sequence by one answered probe.
pub fn probe_step(probe: BuildProbe, ok: bool) -> (r: Result<Option<BuildProbe>, FileBlameError>)
    ensures
        r == spec_probe_step(probe, ok),
{
    match probe {
        BuildProbe::PathExists => if ok {
            Ok(Some(BuildProbe::IsFile))
        } else {
            Err(FileBlameError::NotExist)
        },
        BuildProbe::IsFile => if ok {
            Ok(Some(BuildProbe::InsideWorkTree))
        } else {
            Err(FileBlameError::NotFile)
        },
        BuildProbe::InsideWorkTree => if ok {
            Ok(Some(BuildProbe::ExistsAtRef))
        } else {
            Err(FileBlameError::NotGit)
        },
        BuildProbe::ExistsAtRef => if ok {
            Ok(None)
        } else {
            Err(FileBlameError::MissingAtCommit)
        },
    }
}

/// Classifies the blame query itself: any non-success answer is an
/// `Unknown` error carrying the tool's diagnostic text verbatim.
pub fn classify_blame_output(success: bool, stderr: String) -> (r: Option<FileBlameError>)
    ensures
        success ==> r is None,
        !success ==> r == Some(FileBlameError::Unknown(stderr)),
{
    if success {
        None
    } else {
        Some(FileBlameError::Unknown(stderr))
    }
}

/// The snapshot that a record sequence assembles into.
pub open spec fn spec_snapshot(
    filepath: Seq<char>,
    commit_sha: Seq<char>,
    recs: Seq<BlameRecordView>,
) -> FileBlameView {
    FileBlameView {
        blame_lines: recs.map_values(
            |r: BlameRecordView|
                BlameLineView {
                    commit_sha: r.commit_sha,
                    contents: r.contents,
                    line_number: r.line_number,
                },
        ),
        filepath: filepath,
        commit_sha: commit_sha,
    }
}

/// The views of a record sequence.
pub open spec fn record_views(records: Seq<BlameRecord>) -> Seq<BlameRecordView> {
    records.map_values(|r: BlameRecord| r@)
}

/// The first record position at or after `i` whose commit sha the cache
/// does not hold (`records.len()` when all are held).
pub open spec fn first_uncached_from(records: Seq<BlameRecord>, cache: CommitCache, i: int) -> int
    decreases records.len() - i,
{
    if i < 0 || i >= records.len() {
        records.len() as int
    } else if !cache.contains_sha(records[i].commit_sha@) {
        i
    } else {
        first_uncached_from(records, cache, i + 1)
    }
}

impl FileBlame {
    /// Assembles the snapshot for a file at a commit out of its parsed
    /// blame records, in file order. Every record's commit must resolve in
    /// the cache; a sha without metadata signals that the caller skipped a
    /// stage, reported as `Unknown` carrying that sha.
    pub fn parse(
        filepath: &String,
        commit_sha: &String,
        records: &Vec<BlameRecord>,
        commit_cache: &CommitCache,
    ) -> (r: Result<FileBlame, FileBlameError>)
        ensures
            ({
                let k = first_uncached_from(records@, *commit_cache, 0);
                &&& (r is Ok <==> k == records@.len())
                &&& (r is Ok <==> forall|i: int|
                    0 <= i < records@.len() ==> commit_cache.contains_sha(
                        #[trigger] records@[i].commit_sha@,
                    ))
                &&& (r matches Ok(fb) ==> fb@ == spec_snapshot(
                    filepath@,
                    commit_sha@,
                    record_views(records@),
                ))
                &&& (r matches Err(e) ==> 0 <= k < records@.len() && e == FileBlameError::Unknown(
                    records@[k].commit_sha,
                ))
            }),
    {
        let mut blame_lines: Vec<BlameLine> = Vec::new();
        let mut i: usize = 0;
        while i < records.len()
            invariant
                i <= records@.len(),
                blame_lines@.len() == i,
                forall|j: int|
                    0 <= j < i ==> #[trigger] blame_lines@[j]@ == (BlameLineView {
                        commit_sha: records@[j]@.commit_sha,
                        contents: records@[j]@.contents,
                        line_number: records@[j]@.line_number,
                    }),
                forall|j: int|
                    0 <= j < i ==> commit_cache.contains_sha(#[trigger] records@[j].commit_sha@),
                first_uncached_from(records@, *commit_cache, 0) == first_uncached_from(
                    records@,
                    *commit_cache,
                    i as int,
                ),
            decreases records@.len() - i,
        {
            let rec = &records[i];
            if !commit_cache.contains(&rec.commit_sha) {
                assert(first_uncached_from(records@, *commit_cache, i as int) == i);
                return Err(FileBlameError::Unknown(rec.commit_sha.clone()));
            }
            blame_lines.push(
                BlameLine {
                    commit_sha: rec.commit_sha.clone(),
                    contents: rec.contents.clone(),
                    line_number: rec.line_number.clone(),
                },
            );
            i += 1;
        }
        let fb = FileBlame {
            blame_lines,
            filepath: filepath.clone(),
            commit_sha: commit_sha.clone(),
        };
        proof {
            assert(fb@.blame_lines =~= spec_snapshot(
                filepath@,
                commit_sha@,
                record_views(records@),
            ).blame_lines);
            assert(fb@ =~= spec_snapshot(filepath@, commit_sha@, record_views(records@)));
        }
        Ok(fb)
    }

    /// Replaces each line's contents with its decorated text, an optional
    /// pure transform (such as syntax highlighting) applied outside the
    /// core; everything else about the snapshot is kept.
    pub fn with_decorated_contents(self, contents: Vec<String>) -> (r: FileBlame)
        requires
            contents@.len() == self.blame_lines@.len(),
        ensures
            r.filepath@ == self.filepath@,
            r.commit_sha@ == self.commit_sha@,
            r.blame_lines@.len() == self.blame_lines@.len(),
            forall|i: int|
                0 <= i < self.blame_lines@.len() ==> #[trigger] r.blame_lines@[i]@
                    == (BlameLineView {
                    contents: contents@[i]@,
                    ..self.blame_lines@[i]@
                }),
    {
        let mut blame_lines: Vec<BlameLine> = Vec::new();
        let mut i: usize = 0;
        while i < self.blame_lines.len()
            invariant
                contents@.len() == self.blame_lines@.len(),
                i <= self.blame_lines@.len(),
                blame_lines@.len() == i,
                forall|j: int|
                    0 <= j < i ==> #[trigger] blame_lines@[j]@ == (BlameLineView {
                        contents: contents@[j]@,
                        ..self.blame_lines@[j]@
                    }),
            decreases self.blame_lines@.len() - i,
        {
            blame_lines.push(
                BlameLine {
                    commit_sha: self.blame_lines[i].commit_sha.clone(),
                    contents: contents[i].clone(),
                    line_number: self.blame_lines[i].line_number.clone(),
                },
            );
            i += 1;
        }
        FileBlame { blame_lines, filepath: self.filepath, commit_sha: self.commit_sha }
    }
}

} // verus!
