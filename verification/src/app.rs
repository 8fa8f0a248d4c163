//! The navigation controller.
//!
//! It owns the current selection, the drill-down history stack, and the
//! line/block movement rules. Switching refs rebuilds a snapshot; the
//! caller runs the git queries for the rebuild (see [`crate::file_blame`])
//! and hands the finished snapshot to [`App::install_snapshot`], or the
//! failure to [`App::fail_load`], which ends the session.
use vstd::prelude::*;

use crate::file_blame::{BlameLine, CommitCache, FileBlame, FileBlameError};

verus! {

/// The commit sha of each line of a snapshot, in file order.
pub open spec fn line_shas(fb: FileBlame) -> Seq<Seq<char>> {
    fb.blame_lines@.map_values(|l: BlameLine| l.commit_sha@)
}

/// The line shas of the snapshot the app currently shows.
pub open spec fn app_shas(app: App) -> Seq<Seq<char>> {
    match app.file_blame {
        Some(fb) => line_shas(fb),
        None => Seq::empty(),
    }
}

/// Where `next_line` moves the selection: one line down, wrapping from the
/// last line to the top.
pub open spec fn spec_next_line(len: int, i: int) -> int {
    if i >= len - 1 {
        0
    } else {
        i + 1
    }
}

/// Where `previous_line` moves the selection: one line up, wrapping from
/// the top to the last line.
pub open spec fn spec_previous_line(len: int, i: int) -> int {
    if i == 0 {
        len - 1
    } else {
        i - 1
    }
}

/// The first position at or after `j` whose sha differs from `sha`
/// (`shas.len()` when the rest of the file belongs to that commit).
pub open spec fn block_scan_forward(shas: Seq<Seq<char>>, sha: Seq<char>, j: int) -> int
    decreases shas.len() - j,
{
    if j < 0 || j >= shas.len() {
        shas.len() as int
    } else if shas[j] != sha {
        j
    } else {
        block_scan_forward(shas, sha, j + 1)
    }
}

/// Where `next_block` moves the selection: the first line after the current
/// one attributed to a different commit, clamped to the last index when the
/// current line is at or past the last line or no later line differs.
pub open spec fn spec_next_block(shas: Seq<Seq<char>>, cur: int) -> int {
    if cur >= shas.len() - 1 {
        shas.len() - 1
    } else {
        let j = block_scan_forward(shas, shas[cur], cur + 1);
        if j >= shas.len() {
            shas.len() - 1
        } else {
            j
        }
    }
}

/// The first position of the run of lines sharing `sha` that ends right
/// before position `k` (walking backward from `k - 1`, stopping at 0).
pub open spec fn block_scan_backward(shas: Seq<Seq<char>>, sha: Seq<char>, k: int) -> int
    decreases k,
{
    if k <= 0 {
        0
    } else if shas[k - 1] == sha {
        block_scan_backward(shas, sha, k - 1)
    } else {
        k
    }
}

/// Where `previous_block` moves the selection: the first line of the block
/// right above the current position, clamping to 0 within the first two
/// lines.
pub open spec fn spec_previous_block(shas: Seq<Seq<char>>, cur: int) -> int {
    if cur <= 1 {
        0
    } else {
        block_scan_backward(shas, shas[cur - 1], cur - 1)
    }
}

/// Where the selection lands after a rebuild: kept when still within the
/// new snapshot, clamped to the new last line otherwise, and the first line
/// when nothing was selected yet.
pub open spec fn spec_clamp(len: int, selected: Option<usize>) -> int {
    match selected {
        Some(i) => if i as int >= len - 1 {
            len - 1
        } else {
            i as int
        },
        None => 0,
    }
}

/// The application state: the loaded snapshot, the selection, the shared
/// commit metadata cache, and the drill-down history stack.
pub struct App {
    /// Is the application running?
    pub running: bool,
    /// The selected line of the current snapshot, if one is loaded.
    pub selected: Option<usize>,
    pub file_path: String,
    pub commit_sha: String,
    pub file_blame: Option<FileBlame>,
    pub commit_cache: CommitCache,
    pub commit_stack: Vec<String>,
    pub load_err: Option<FileBlameError>,
}

impl App {
    /// The controller's invariant: a selection exists exactly when a
    /// snapshot does, it stays within the snapshot, and every line's commit
    /// resolves in the cache.
    pub open spec fn wf(&self) -> bool {
        &&& self.commit_cache.wf()
        &&& (self.selected is Some <==> self.file_blame is Some)
        &&& match self.file_blame {
            Some(fb) => {
                &&& fb.blame_lines@.len() >= 1
                &&& (match self.selected {
                    Some(i) => (i as int) < fb.blame_lines@.len(),
                    None => false,
                })
                &&& (forall|j: int|
                    0 <= j < fb.blame_lines@.len() ==> self.commit_cache.contains_sha(
                        #[trigger] fb.blame_lines@[j].commit_sha@,
                    ))
            },
            None => true,
        }
    }

    /// A fresh session for a file at a ref: nothing loaded, nothing
    /// selected, an empty cache and an empty history stack. The first
    /// snapshot build follows.
    pub fn new(file_path: String, commit_sha: String) -> (r: App)
        ensures
            r.wf(),
            r.running == true,
            r.selected is None,
            r.file_blame is None,
            r.load_err is None,
            r.commit_stack@ =~= Seq::<String>::empty(),
            forall|sha: Seq<char>| !r.commit_cache.contains_sha(sha),
            r.file_path == file_path,
            r.commit_sha == commit_sha,
    {
        App {
            running: true,
            selected: None,
            file_path,
            commit_sha,
            file_blame: None,
            commit_cache: CommitCache::new(),
            commit_stack: Vec::new(),
            load_err: None,
        }
    }

    /// Handles the tick event of the host loop.
    pub fn tick(&self) {
    }

    /// Stops the application.
    pub fn quit(&mut self)
        ensures
            *final(self) == (App { running: false, ..*old(self) }),
    {
        self.running = false;
    }

    /// Records a failed snapshot build and stops the session: there is no
    /// meaningful view without a snapshot.
    pub fn fail_load(&mut self, err: FileBlameError)
        ensures
            *final(self) == (App { running: false, load_err: Some(err), ..*old(self) }),
    {
        self.load_err = Some(err);
        self.running = false;
    }

    /// Installs a freshly built snapshot for a file at a ref. The selection
    /// is preserved by raw index when still in bounds, else clamped to the
    /// new last line.
    pub fn install_snapshot(&mut self, file_blame: FileBlame, file_path: String, commit_sha: String)
        requires
            old(self).wf(),
            file_blame.blame_lines@.len() >= 1,
            forall|j: int|
                0 <= j < file_blame.blame_lines@.len() ==> old(self).commit_cache.contains_sha(
                    #[trigger] file_blame.blame_lines@[j].commit_sha@,
                ),
        ensures
            final(self).wf(),
            *final(self) == (App {
                selected: Some(
                    spec_clamp(file_blame.blame_lines@.len() as int, old(self).selected) as usize,
                ),
                file_blame: Some(file_blame),
                file_path: file_path,
                commit_sha: commit_sha,
                ..*old(self)
            }),
    {
        let len = file_blame.blame_lines.len();
        self.file_blame = Some(file_blame);
        self.file_path = file_path;
        self.commit_sha = commit_sha;
        let i: usize = match self.selected {
            Some(i) => if i >= len - 1 {
                len - 1
            } else {
                i
            },
            None => 0,
        };
        self.selected = Some(i);
    }

    /// Moves the selection to the next line, wrapping at the bottom. A
    /// no-op before the first snapshot.
    pub fn next_line(&mut self)
        requires
            old(self).wf(),
        ensures
            final(self).wf(),
            old(self).selected is None ==> *final(self) == *old(self),
            (old(self).selected matches Some(i) ==> *final(self) == (App {
                selected: Some(spec_next_line(app_shas(*old(self)).len() as int, i as int) as usize),
                ..*old(self)
            })),
    {
        if let Some(i) = self.selected {
            if let Some(fb) = &self.file_blame {
                let len = fb.blame_lines.len();
                let ni: usize = if i >= len - 1 {
                    0
                } else {
                    i + 1
                };
                self.selected = Some(ni);
            }
        }
    }

    /// Moves the selection to the previous line, wrapping at the top. A
    /// no-op before the first snapshot.
    pub fn previous_line(&mut self)
        requires
            old(self).wf(),
        ensures
            final(self).wf(),
            old(self).selected is None ==> *final(self) == *old(self),
            (old(self).selected matches Some(i) ==> *final(self) == (App {
                selected: Some(
                    spec_previous_line(app_shas(*old(self)).len() as int, i as int) as usize,
                ),
                ..*old(self)
            })),
    {
        if let Some(i) = self.selected {
            if let Some(fb) = &self.file_blame {
                let len = fb.blame_lines.len();
                let ni: usize = if i == 0 {
                    len - 1
                } else {
                    i - 1
                };
                self.selected = Some(ni);
            }
        }
    }

    /// Moves the selection to the first line after the current one whose
    /// commit differs — the start of the next block — clamping to the last
    /// line when no such line follows. A no-op before the first snapshot.
    pub fn next_block(&mut self)
        requires
            old(self).wf(),
        ensures
            final(self).wf(),
            old(self).selected is None ==> *final(self) == *old(self),
            (old(self).selected matches Some(i) ==> *final(self) == (App {
                selected: Some(spec_next_block(app_shas(*old(self)), i as int) as usize),
                ..*old(self)
            })),
    {
        if let Some(i) = self.selected {
            if let Some(fb) = &self.file_blame {
                let ghost shas = line_shas(*fb);
                let len = fb.blame_lines.len();
                let ni: usize;
                if i >= len - 1 {
                    ni = len - 1;
                } else {
                    let mut j = i + 1;
                    while j < len && fb.blame_lines[j].commit_sha == fb.blame_lines[i].commit_sha
                        invariant
                            shas == line_shas(*fb),
                            shas.len() == len,
                            len == fb.blame_lines@.len(),
                            i < j <= len,
                            i < len,
                            block_scan_forward(shas, shas[i as int], i + 1) == block_scan_forward(
                                shas,
                                shas[i as int],
                                j as int,
                            ),
                        decreases len - j,
                    {
                        j += 1;
                    }
                    assert(block_scan_forward(shas, shas[i as int], j as int) == j);
                    ni = if j >= len {
                        len - 1
                    } else {
                        j
                    };
                }
                self.selected = Some(ni);
            }
        }
    }

    /// Moves the selection to the first line of the block right above the
    /// current position, clamping to the top within the first two lines. A
    /// no-op before the first snapshot.
    pub fn previous_block(&mut self)
        requires
            old(self).wf(),
        ensures
            final(self).wf(),
            old(self).selected is None ==> *final(self) == *old(self),
            (old(self).selected matches Some(i) ==> *final(self) == (App {
                selected: Some(spec_previous_block(app_shas(*old(self)), i as int) as usize),
                ..*old(self)
            })),
    {
        if let Some(i) = self.selected {
            if let Some(fb) = &self.file_blame {
                let ghost shas = line_shas(*fb);
                let ni: usize;
                if i <= 1 {
                    ni = 0;
                } else {
                    let mut k = i - 1;
                    while k > 0 && fb.blame_lines[k - 1].commit_sha == fb.blame_lines[i
                        - 1].commit_sha
                        invariant
                            shas == line_shas(*fb),
                            shas.len() == fb.blame_lines@.len(),
                            1 <= i < shas.len(),
                            0 <= k <= i - 1,
                            block_scan_backward(shas, shas[i - 1], i - 1) == block_scan_backward(
                                shas,
                                shas[i - 1],
                                k as int,
                            ),
                        decreases k,
                    {
                        k -= 1;
                    }
                    assert(block_scan_backward(shas, shas[i - 1], k as int) == k);
                    ni = k;
                }
                self.selected = Some(ni);
            }
        }
    }

    /// The parent ref a drill-down would move to: the parent sha of the
    /// selected line's commit. `None` before the first snapshot or when
    /// that commit is a root commit.
    pub open spec fn spec_next_commit_target(&self) -> Option<Seq<char>> {
        match (self.file_blame, self.selected) {
            (Some(fb), Some(i)) => if self.commit_cache.contains_sha(
                fb.blame_lines@[i as int].commit_sha@,
            ) {
                self.commit_cache.spec_get(fb.blame_lines@[i as int].commit_sha@).parent_commit_sha
            } else {
                None
            },
            _ => None,
        }
    }

    /// Looks up the parent ref a drill-down would move to. The caller
    /// probes whether the file exists there before calling
    /// [`App::next_commit`].
    pub fn next_commit_target(&self) -> (r: Option<String>)
        requires
            self.wf(),
        ensures
            r is Some <==> self.spec_next_commit_target() is Some,
            (r matches Some(p) ==> Some(p@) == self.spec_next_commit_target()),
    {
        if let Some(i) = self.selected {
            if let Some(fb) = &self.file_blame {
                let line = &fb.blame_lines[i];
                match self.commit_cache.get(&line.commit_sha) {
                    Some(c) => {
                        return match &c.parent_commit_sha {
                            Some(p) => Some(p.clone()),
                            None => None,
                        };
                    },
                    None => {
                        return None;
                    },
                }
            }
        }
        None
    }

    /// Drills into history: when the selected line's commit has a parent
    /// and the file exists there (`parent_exists_at_commit`, probed by the
    /// caller), pushes the current ref onto the history stack and returns
    /// the parent ref to rebuild at. Otherwise the state is left exactly as
    /// it was: drilling from a root commit, or past the file's creation, is
    /// a no-op.
    pub fn next_commit(&mut self, parent_exists_at_commit: bool) -> (r: Option<String>)
        requires
            old(self).wf(),
        ensures
            final(self).wf(),
            (old(self).spec_next_commit_target() is None || !parent_exists_at_commit)
                ==> (*final(self) == *old(self) && r is None),
            (old(self).spec_next_commit_target() is Some && parent_exists_at_commit) ==> ({
                &&& (r matches Some(p) && Some(p@) == old(self).spec_next_commit_target())
                &&& final(self).commit_stack@ == old(self).commit_stack@.push(old(self).commit_sha)
                &&& *final(self) == (App {
                    commit_stack: final(self).commit_stack,
                    ..*old(self)
                })
            }),
    {
        let target = self.next_commit_target();
        match target {
            Some(p) => {
                if parent_exists_at_commit {
                    self.commit_stack.push(self.commit_sha.clone());
                    Some(p)
                } else {
                    None
                }
            },
            None => None,
        }
    }

    /// Returns from history: pops the most recent ref off the history
    /// stack and returns it for the caller to rebuild at. A no-op when the
    /// stack is empty.
    pub fn previous_commit(&mut self) -> (r: Option<String>)
        requires
            old(self).wf(),
        ensures
            final(self).wf(),
            old(self).commit_stack@.len() == 0 ==> (final(self).commit_stack@ == old(
                self,
            ).commit_stack@ && *final(self) == (App {
                commit_stack: final(self).commit_stack,
                ..*old(self)
            }) && r is None),
            old(self).commit_stack@.len() > 0 ==> ({
                &&& r == Some(old(self).commit_stack@.last())
                &&& final(self).commit_stack@ == old(self).commit_stack@.drop_last()
                &&& *final(self) == (App {
                    commit_stack: final(self).commit_stack,
                    ..*old(self)
                })
            }),
    {
        self.commit_stack.pop()
    }
}

/// Which lines start a block: the first line of any maximal run of
/// consecutive lines attributed to one commit, other than the top of the
/// file.
pub open spec fn is_block_start(shas: Seq<Seq<char>>, i: int) -> bool {
    0 < i < shas.len() && shas[i] != shas[i - 1]
}

proof fn lemma_block_scan_forward(shas: Seq<Seq<char>>, sha: Seq<char>, j: int)
    requires
        0 <= j <= shas.len(),
    ensures
        j <= block_scan_forward(shas, sha, j) <= shas.len(),
        forall|m: int| j <= m < block_scan_forward(shas, sha, j) ==> shas[m] == sha,
        block_scan_forward(shas, sha, j) < shas.len() ==> shas[block_scan_forward(shas, sha, j)]
            != sha,
    decreases shas.len() - j,
{
    if j < shas.len() && shas[j] == sha {
        lemma_block_scan_forward(shas, sha, j + 1);
    }
}

/// Block navigation: from any line, `next_block` lands exactly on the
/// nearest block start after it, whenever one exists; when none follows it
/// clamps to the last line, and from the last line it stays put. Iterating
/// it from the top of the file therefore visits the block starts in
/// ascending order, and it is idempotent at the last line.
pub proof fn lemma_next_block_visits_block_starts(shas: Seq<Seq<char>>, cur: int)
    requires
        0 <= cur < shas.len(),
    ensures
        (exists|j: int| cur < j < shas.len() && #[trigger] is_block_start(shas, j)) ==> ({
            let nxt = spec_next_block(shas, cur);
            &&& cur < nxt < shas.len()
            &&& is_block_start(shas, nxt)
            &&& forall|j: int| cur < j < nxt ==> !is_block_start(shas, j)
        }),
        !(exists|j: int| cur < j < shas.len() && #[trigger] is_block_start(shas, j))
            ==> spec_next_block(shas, cur) == shas.len() - 1,
        cur == shas.len() - 1 ==> spec_next_block(shas, cur) == cur,
{
    if cur >= shas.len() - 1 {
        assert forall|j: int| cur < j < shas.len() implies !is_block_start(shas, j) by {}
    } else {
        lemma_block_scan_forward(shas, shas[cur], cur + 1);
        let f = block_scan_forward(shas, shas[cur], cur + 1);
        if f < shas.len() {
            assert(shas[f - 1] == shas[cur]);
            assert(is_block_start(shas, f));
            assert(spec_next_block(shas, cur) == f);
            assert forall|j: int| cur < j < f implies !is_block_start(shas, j) by {
                assert(shas[j] == shas[cur]);
                assert(shas[j - 1] == shas[cur]);
            }
        } else {
            assert forall|j: int| cur < j < shas.len() implies !is_block_start(shas, j) by {
                assert(shas[j] == shas[cur]);
                assert(shas[j - 1] == shas[cur]);
            }
            assert(spec_next_block(shas, cur) == shas.len() - 1);
        }
    }
}

/// History: drilling down pushes the current ref and returning pops it, so
/// the stack regains exactly its prior value; and assembling a snapshot at
/// the restored ref from the same parsed records yields the identical
/// snapshot, so with unchanged tool output the drill-down round trip
/// restores the view.
pub proof fn lemma_history_round_trip(
    stack: Seq<Seq<char>>,
    r0: Seq<char>,
    filepath: Seq<char>,
    recs1: Seq<crate::parse::BlameRecordView>,
    recs2: Seq<crate::parse::BlameRecordView>,
)
    requires
        recs1 == recs2,
    ensures
        stack.push(r0).last() == r0,
        stack.push(r0).drop_last() == stack,
        crate::file_blame::spec_snapshot(filepath, r0, recs1) == crate::file_blame::spec_snapshot(
            filepath,
            r0,
            recs2,
        ),
{
    assert(stack.push(r0).drop_last() =~= stack);
}

} // verus!
