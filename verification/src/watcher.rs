//! The change-watching session: validation of the watch set, the session
//! state machine, and the mapping from debounced filesystem events to index
//! mutations.
//!
//! The embedding application owns the OS notification subscription and the
//! debounce timer; it probes candidate paths, runs the background loop, and
//! hands every decision to the verified functions here.

use vstd::prelude::*;

use crate::index::{delete_file, spec_batch_upserted, upsert_files, FileIndex};
use crate::records::FileInfo;
use crate::text::{is_trim_of, str_eq, trim_str};

verus! {

/// A candidate watch path together with what only the filesystem can
/// answer: whether it exists and whether it is a directory.
pub struct PathProbe {
    pub path: String,
    pub exists: bool,
    pub is_dir: bool,
}

/// Failure of a watch-set replacement.
pub enum WatchError {
    /// None of the supplied paths validated.
    NoValidPaths,
}

impl WatchError {
    /// A human-readable account of the failure.
    pub fn describe(&self) -> (m: String)
        ensures
            m@ == "No valid watch paths provided"@,
    {
        "No valid watch paths provided".to_owned()
    }
}

/// A watch session: idle, or watching a validated set of directories. The
/// embedding application keeps its subscription handle beside this state
/// and tears it down whenever a transition lands in the idle state.
pub struct WatcherState {
    pub active: bool,
    pub watched: Vec<String>,
}

impl WatcherState {
    /// Idle: no directory subscribed.
    pub open spec fn is_idle(self) -> bool {
        !self.active && self.watched@.len() == 0
    }

    /// A fresh, idle session.
    pub fn new() -> (s: WatcherState)
        ensures
            s.is_idle(),
    {
        WatcherState { active: false, watched: Vec::new() }
    }
}

/// An absolute path: at least one character, starting at the root.
pub open spec fn spec_is_absolute(p: Seq<char>) -> bool {
    p.len() > 0 && p[0] == '/'
}

/// A probe that passed validation: an absolute path naming an existing
/// directory.
pub open spec fn spec_valid_probe(p: PathProbe) -> bool {
    spec_is_absolute(p.path@) && p.exists && p.is_dir
}

/// The path of some valid probe equals `p`.
pub open spec fn spec_from_valid_probe(probes: Seq<PathProbe>, p: Seq<char>) -> bool {
    exists|j: int|
        0 <= j < probes.len() && spec_valid_probe(#[trigger] probes[j]) && probes[j].path@ == p
}

/// Some watched entry carries the path `p`.
pub open spec fn spec_watches(watched: Seq<String>, p: Seq<char>) -> bool {
    exists|i: int| 0 <= i < watched.len() && (#[trigger] watched[i])@ == p
}

/// The trim of some input equals `p`.
pub open spec fn spec_trim_of_some(inputs: Seq<String>, p: Seq<char>) -> bool {
    exists|j: int| 0 <= j < inputs.len() && is_trim_of(p, (#[trigger] inputs[j])@)
}

/// Some output entry is the trim of this input.
pub open spec fn spec_some_trim_listed(r: Seq<String>, input: Seq<char>) -> bool {
    exists|i: int| 0 <= i < r.len() && is_trim_of((#[trigger] r[i])@, input)
}

fn is_absolute(p: &str) -> (b: bool)
    ensures
        b == spec_is_absolute(p@),
{
    let n = p.unicode_len();
    if n == 0 {
        return false;
    }
    p.get_char(0) == '/'
}

/// Trims the candidate paths, drops the ones left empty, and removes
/// duplicates: the output holds the trim of every input that is not all
/// whitespace, exactly once, first occurrences in input order.
pub fn normalize_watch_paths(paths: &Vec<String>) -> (r: Vec<String>)
    ensures
        forall|i: int| 0 <= i < r@.len() ==> (#[trigger] r@[i])@.len() > 0,
        forall|i: int| 0 <= i < r@.len() ==> spec_trim_of_some(paths@, (#[trigger] r@[i])@),
        forall|i1: int, i2: int|
            0 <= i1 < i2 < r@.len() ==> (#[trigger] r@[i1])@ != (#[trigger] r@[i2])@,
        forall|j: int|
            (0 <= j < paths@.len() && !is_trim_of(
                Seq::<char>::empty(),
                (#[trigger] paths@[j])@,
            )) ==> spec_some_trim_listed(r@, paths@[j]@),
        forall|i1: int, i2: int, j2: int|
            (0 <= i1 < i2 < r@.len() && 0 <= j2 < paths@.len() && is_trim_of(
                (#[trigger] r@[i2])@,
                (#[trigger] paths@[j2])@,
            )) ==> (exists|j1: int|
                0 <= j1 < j2 && is_trim_of((#[trigger] r@[i1])@, paths@[j1]@)),
{
    let mut r: Vec<String> = Vec::new();
    let ghost mut firsts: Seq<int> = Seq::empty();
    let n = paths.len();
    let mut j: usize = 0;
    while j < n
        invariant
            n == paths@.len(),
            j <= n,
            firsts.len() == r@.len(),
            forall|i: int| 0 <= i < r@.len() ==> (#[trigger] r@[i])@.len() > 0,
            forall|i: int|
                0 <= i < r@.len() ==> 0 <= #[trigger] firsts[i] < j && is_trim_of(
                    r@[i]@,
                    paths@[firsts[i]]@,
                ),
            forall|i1: int, i2: int| 0 <= i1 < i2 < r@.len() ==> firsts[i1] < firsts[i2],
            forall|i1: int, i2: int|
                0 <= i1 < i2 < r@.len() ==> (#[trigger] r@[i1])@ != (#[trigger] r@[i2])@,
            forall|i: int, jp: int|
                (0 <= i < r@.len() && 0 <= jp < firsts[i]) ==> !is_trim_of(
                    (#[trigger] r@[i])@,
                    (#[trigger] paths@[jp])@,
                ),
            forall|jp: int|
                (0 <= jp < j && !is_trim_of(Seq::<char>::empty(), (#[trigger] paths@[jp])@))
                    ==> spec_some_trim_listed(r@, paths@[jp]@),
        decreases n - j,
    {
        let t = trim_str(paths[j].as_str());
        if t.unicode_len() == 0 {
            proof {
                assert(is_trim_of(Seq::<char>::empty(), paths@[j as int]@)) by {
                    assert(t@ =~= Seq::<char>::empty());
                }
            }
        } else if contains_string(&r, t.as_str()) {
            proof {
                let w = choose|w: int| 0 <= w < r@.len() && (#[trigger] r@[w])@ == t@;
                assert(is_trim_of(r@[w]@, paths@[j as int]@));
                assert(spec_some_trim_listed(r@, paths@[j as int]@));
            }
        } else {
            let ghost prev = r@;
            let ghost tv = t@;
            r.push(t);
            proof {
                firsts = firsts.push(j as int);
                assert forall|i: int, jp: int|
                    (0 <= i < r@.len() && 0 <= jp < firsts[i]) implies !is_trim_of(
                    (#[trigger] r@[i])@,
                    (#[trigger] paths@[jp])@,
                ) by {
                    if i < prev.len() {
                        assert(r@[i] == prev[i]);
                    } else {
                        // an earlier input with this trim would already be listed
                        if is_trim_of(r@[i]@, paths@[jp]@) {
                            assert(!is_trim_of(Seq::<char>::empty(), paths@[jp]@)) by {
                                crate::text::lemma_trim_unique(
                                    Seq::<char>::empty(),
                                    tv,
                                    paths@[jp]@,
                                );
                            }
                            assert(spec_some_trim_listed(prev, paths@[jp]@));
                            let w = choose|w: int|
                                0 <= w < prev.len() && is_trim_of(
                                    (#[trigger] prev[w])@,
                                    paths@[jp]@,
                                );
                            crate::text::lemma_trim_unique(prev[w]@, tv, paths@[jp]@);
                            assert(spec_watches(prev, tv));
                            assert(false);
                        }
                    }
                }
                assert forall|jp: int|
                    (0 <= jp < j + 1 && !is_trim_of(
                        Seq::<char>::empty(),
                        (#[trigger] paths@[jp])@,
                    )) implies spec_some_trim_listed(r@, paths@[jp]@) by {
                    if jp < j as int {
                        let w = choose|w: int|
                            0 <= w < prev.len() && is_trim_of(
                                (#[trigger] prev[w])@,
                                paths@[jp]@,
                            );
                        assert(is_trim_of((r@[w])@, paths@[jp]@));
                    } else {
                        assert(is_trim_of((r@[prev.len() as int])@, paths@[jp]@));
                    }
                }
            }
        }
        j = j + 1;
    }
    proof {
        assert forall|i: int| 0 <= i < r@.len() implies spec_trim_of_some(
            paths@,
            (#[trigger] r@[i])@,
        ) by {
            assert(is_trim_of(r@[i]@, (paths@[firsts[i]])@));
        }
        assert forall|i1: int, i2: int, j2: int|
            (0 <= i1 < i2 < r@.len() && 0 <= j2 < paths@.len() && is_trim_of(
                (#[trigger] r@[i2])@,
                (#[trigger] paths@[j2])@,
            )) implies (exists|j1: int|
            0 <= j1 < j2 && is_trim_of((#[trigger] r@[i1])@, paths@[j1]@)) by {
            assert(firsts[i2] <= j2);
            assert(firsts[i1] < j2);
            assert(is_trim_of(r@[i1]@, paths@[firsts[i1]]@));
        }
    }
    r
}

fn contains_string(v: &Vec<String>, s: &str) -> (b: bool)
    ensures
        b == spec_watches(v@, s@),
{
    let n = v.len();
    let mut i: usize = 0;
    while i < n
        invariant
            n == v@.len(),
            i <= n,
            forall|t: int| 0 <= t < i ==> (#[trigger] v@[t])@ != s@,
        decreases n - i,
    {
        if str_eq(v[i].as_str(), s) {
            return true;
        }
        i = i + 1;
    }
    false
}

/// Replaces the active watch set. The running session always stops first;
/// then every probe is validated (absolute, existing, a directory), the
/// invalid ones dropped. If nothing validates the call fails and the
/// session stays idle — a watcher that silently watches nothing is never
/// started. Otherwise the session watches exactly the valid paths.
pub fn watch_set_paths(state: &mut WatcherState, probes: &Vec<PathProbe>) -> (res: Result<
    (),
    WatchError,
>)
    ensures
        res is Ok <==> (exists|j: int|
            0 <= j < probes@.len() && spec_valid_probe(#[trigger] probes@[j])),
        res is Err ==> final(state).is_idle(),
        res is Ok ==> final(state).active,
        forall|i: int|
            0 <= i < final(state).watched@.len() ==> spec_from_valid_probe(
                probes@,
                (#[trigger] final(state).watched@[i])@,
            ),
        forall|j: int|
            (0 <= j < probes@.len() && spec_valid_probe(#[trigger] probes@[j])) ==> spec_watches(
                final(state).watched@,
                probes@[j].path@,
            ),
{
    stop_watching_inner(state);
    let mut valid: Vec<String> = Vec::new();
    let n = probes.len();
    let mut j: usize = 0;
    while j < n
        invariant
            n == probes@.len(),
            j <= n,
            forall|i: int|
                0 <= i < valid@.len() ==> spec_from_valid_probe(
                    probes@,
                    (#[trigger] valid@[i])@,
                ),
            forall|t: int|
                (0 <= t < j && spec_valid_probe(#[trigger] probes@[t])) ==> spec_watches(
                    valid@,
                    probes@[t].path@,
                ),
            valid@.len() > 0 ==> (exists|t: int|
                0 <= t < probes@.len() && spec_valid_probe(#[trigger] probes@[t])),
        decreases n - j,
    {
        let p = &probes[j];
        if p.exists && p.is_dir && is_absolute(p.path.as_str()) {
            let ghost prev = valid@;
            valid.push(p.path.clone());
            proof {
                assert forall|t: int|
                    (0 <= t < j + 1 && spec_valid_probe(#[trigger] probes@[t])) implies spec_watches(
                    valid@,
                    probes@[t].path@,
                ) by {
                    if t < j as int {
                        let w = choose|w: int|
                            0 <= w < prev.len() && (#[trigger] prev[w])@ == probes@[t].path@;
                        assert(valid@[w]@ == probes@[t].path@);
                    } else {
                        assert(valid@[valid@.len() - 1]@ == probes@[t].path@);
                    }
                }
            }
        } else {
            proof {
                if spec_valid_probe(probes@[j as int]) {
                    assert(false);
                }
            }
        }
        j = j + 1;
    }
    if valid.len() == 0 {
        proof {
            assert forall|t: int|
                0 <= t < probes@.len() implies !spec_valid_probe(#[trigger] probes@[t]) by {
                if spec_valid_probe(probes@[t]) {
                    assert(spec_watches(valid@, probes@[t].path@));
                }
            }
        }
        return Err(WatchError::NoValidPaths);
    }
    state.active = true;
    state.watched = valid;
    Ok(())
}

/// Stops the running session: the state returns to idle, whatever it was.
pub fn stop_watching_inner(state: &mut WatcherState)
    ensures
        final(state).is_idle(),
{
    state.active = false;
    state.watched = Vec::new();
}

/// The caller-facing stop: always succeeds, leaving the session idle.
pub fn watch_stop(state: &mut WatcherState) -> (res: Result<(), WatchError>)
    ensures
        res is Ok,
        final(state).is_idle(),
{
    stop_watching_inner(state);
    Ok(())
}

/// One debounced filesystem change, as the closed set of variants the
/// index reacts to: created and modified paths arrive re-extracted as
/// records, removed paths arrive as plain paths.
pub enum FileChange {
    Created(Vec<FileInfo>),
    Modified(Vec<FileInfo>),
    Removed(Vec<String>),
}

/// Some listed path equals `p`.
pub open spec fn spec_path_listed(paths: Seq<String>, p: Seq<char>) -> bool {
    exists|i: int| 0 <= i < paths.len() && (#[trigger] paths[i])@ == p
}

/// Deletes every listed path from the index; records at other paths
/// survive untouched.
pub fn remove_paths(ix: &mut FileIndex, paths: &Vec<String>)
    requires
        old(ix).wf(),
    ensures
        final(ix).wf(),
        forall|i: int| 0 <= i < paths@.len() ==> !final(ix).has_path((#[trigger] paths@[i])@),
        forall|j: int|
            0 <= j < final(ix).files@.len() ==> old(ix).files@.contains(
                #[trigger] final(ix).files@[j],
            ),
        forall|j: int|
            (0 <= j < old(ix).files@.len() && !spec_path_listed(
                paths@,
                (#[trigger] old(ix).files@[j]).path@,
            )) ==> final(ix).files@.contains(old(ix).files@[j]),
        final(ix).tags@ == old(ix).tags@,
        final(ix).clusters@ == old(ix).clusters@,
        final(ix).next_file_id == old(ix).next_file_id,
        final(ix).next_tag_id == old(ix).next_tag_id,
{
    let n = paths.len();
    let mut i: usize = 0;
    while i < n
        invariant
            ix.wf(),
            n == paths@.len(),
            i <= n,
            forall|t: int| 0 <= t < i ==> !ix.has_path((#[trigger] paths@[t])@),
            forall|j: int|
                0 <= j < ix.files@.len() ==> old(ix).files@.contains(#[trigger] ix.files@[j]),
            forall|j: int|
                (0 <= j < old(ix).files@.len() && !spec_path_listed(
                    paths@,
                    (#[trigger] old(ix).files@[j]).path@,
                )) ==> ix.files@.contains(old(ix).files@[j]),
            ix.tags@ == old(ix).tags@,
            ix.clusters@ == old(ix).clusters@,
            ix.next_file_id == old(ix).next_file_id,
            ix.next_tag_id == old(ix).next_tag_id,
        decreases n - i,
    {
        let ghost pre = *ix;
        delete_file(ix, paths[i].as_str());
        proof {
            if pre.has_path(paths@[i as int]@) {
                let jj = choose|jj: int|
                    {
                        &&& 0 <= jj < pre.files@.len()
                        &&& (#[trigger] pre.files@[jj]).path@ == paths@[i as int]@
                        &&& ix.files@ == pre.files@.remove(jj)
                        &&& ix.shadow@ == pre.shadow@.remove(jj)
                        &&& (forall|t: int|
                            0 <= t < ix.metadata@.len() ==> (#[trigger] ix.metadata@[t]).file_id
                                != pre.files@[jj].id)
                        &&& (forall|t: int|
                            0 <= t < ix.metadata@.len() ==> pre.metadata@.contains(
                                #[trigger] ix.metadata@[t],
                            ))
                        &&& (forall|t: int|
                            0 <= t < pre.metadata@.len() && (#[trigger] pre.metadata@[t]).file_id
                                != pre.files@[jj].id ==> ix.metadata@.contains(pre.metadata@[t]))
                        &&& (forall|t: int|
                            0 <= t < ix.file_tags@.len() ==> (#[trigger] ix.file_tags@[t]).file_id
                                != pre.files@[jj].id)
                        &&& (forall|t: int|
                            0 <= t < ix.file_tags@.len() ==> pre.file_tags@.contains(
                                #[trigger] ix.file_tags@[t],
                            ))
                        &&& (forall|t: int|
                            0 <= t < pre.file_tags@.len() && (#[trigger] pre.file_tags@[t]).file_id
                                != pre.files@[jj].id ==> ix.file_tags@.contains(
                                pre.file_tags@[t],
                            ))
                    };
                assert forall|j: int|
                    0 <= j < ix.files@.len() implies old(ix).files@.contains(
                    #[trigger] ix.files@[j],
                ) by {
                    if j < jj {
                        assert(ix.files@[j] == pre.files@[j]);
                    } else {
                        assert(ix.files@[j] == pre.files@[j + 1]);
                    }
                    assert(pre.files@.contains(ix.files@[j]));
                }
                assert forall|j: int|
                    (0 <= j < old(ix).files@.len() && !spec_path_listed(
                        paths@,
                        (#[trigger] old(ix).files@[j]).path@,
                    )) implies ix.files@.contains(old(ix).files@[j]) by {
                    assert(pre.files@.contains(old(ix).files@[j]));
                    let w = choose|w: int|
                        0 <= w < pre.files@.len() && pre.files@[w] == old(ix).files@[j];
                    assert(pre.files@[w].path@ != paths@[i as int]@);
                    assert(w != jj);
                    if w < jj {
                        assert(ix.files@[w] == old(ix).files@[j]);
                    } else {
                        assert(ix.files@[w - 1] == old(ix).files@[j]);
                    }
                }
            }
            assert forall|t: int| 0 <= t < i + 1 implies !ix.has_path(
                (#[trigger] paths@[t])@,
            ) by {
                if t < i as int {
                    if ix.has_path(paths@[t]@) {
                        let w = choose|w: int|
                            0 <= w < ix.files@.len() && (#[trigger] ix.files@[w]).path@
                                == paths@[t]@;
                        assert(pre.files@.contains(ix.files@[w]));
                        let w2 = choose|w2: int|
                            0 <= w2 < pre.files@.len() && pre.files@[w2] == ix.files@[w];
                        assert(pre.has_path(paths@[t]@));
                        assert(false);
                    }
                }
            }
        }
        i = i + 1;
    }
}

/// Everything a batch removal does to the index, from the state `pre` to
/// the state `post`: every listed path is gone, the surviving rows are
/// exactly the old rows at unlisted paths (no row is invented and no
/// identifier reused), and the count reports the listed paths.
pub open spec fn spec_batch_removed(
    pre: FileIndex,
    post: FileIndex,
    ps: Seq<String>,
    n: int,
) -> bool {
    &&& n == ps.len()
    &&& (forall|i: int| 0 <= i < ps.len() ==> !post.has_path((#[trigger] ps[i])@))
    &&& (forall|j: int|
        0 <= j < post.files@.len() ==> pre.files@.contains(#[trigger] post.files@[j]))
    &&& (forall|j: int|
        (0 <= j < pre.files@.len() && !spec_path_listed(
            ps,
            (#[trigger] pre.files@[j]).path@,
        )) ==> post.files@.contains(pre.files@[j]))
    &&& post.tags@ == pre.tags@
    &&& post.clusters@ == pre.clusters@
    &&& post.next_file_id == pre.next_file_id
    &&& post.next_tag_id == pre.next_tag_id
}

/// Applies one debounced change to the index: created and modified records
/// are upserted with the full batch-upsert effect (open history preserved,
/// every record landing while the identifier space suffices), and removed
/// paths are deleted with their metadata, tag associations, and shadow
/// entries. Returns how many records were written, or how many paths the
/// removal listed.
pub fn handle_file_event(ix: &mut FileIndex, change: &FileChange) -> (n: usize)
    requires
        old(ix).wf(),
    ensures
        final(ix).wf(),
        change matches FileChange::Created(fs) ==> spec_batch_upserted(
            *old(ix),
            *final(ix),
            fs@,
            n as int,
        ),
        change matches FileChange::Modified(fs) ==> spec_batch_upserted(
            *old(ix),
            *final(ix),
            fs@,
            n as int,
        ),
        change matches FileChange::Removed(ps) ==> spec_batch_removed(
            *old(ix),
            *final(ix),
            ps@,
            n as int,
        ),
{
    match change {
        FileChange::Created(fs) => upsert_files(ix, fs),
        FileChange::Modified(fs) => upsert_files(ix, fs),
        FileChange::Removed(ps) => {
            remove_paths(ix, ps);
            ps.len()
        },
    }
}

} // verus!
