//! The persistent index: the single source of truth for file records, their
//! tags and metadata, and the full-text shadow index kept in lockstep with
//! every mutation.
//!
//! All mutations preserve [`FileIndex::wf`], which ties the shadow index
//! entry-for-entry to the primary table: an entry exists exactly for each
//! live record, with the record's path and name.

use vstd::prelude::*;

use crate::order::sort_pairs_desc;
use crate::records::{
    ClusterRow, FileInfo, FileMetadata, FileRow, FileTagLink, MetadataRow, ShadowEntry, TagRow,
};
use crate::text::{seq_contains_sub, str_contains_sub, str_eq};

verus! {

/// The in-memory index. Durability is the embedding application's concern:
/// it replays these mutations against its backing store and rebuilds the
/// index on startup through [`FileIndex::restore_row`].
pub struct FileIndex {
    pub files: Vec<FileRow>,
    pub shadow: Vec<ShadowEntry>,
    pub metadata: Vec<MetadataRow>,
    pub tags: Vec<TagRow>,
    pub file_tags: Vec<FileTagLink>,
    pub clusters: Vec<ClusterRow>,
    pub next_file_id: i64,
    pub next_tag_id: i64,
}

/// The merge applied when an incoming record hits an existing path: name,
/// type, size and modified-at are overwritten; the identifier, creation
/// time, open history and thumbnail of the existing row are preserved.
pub open spec fn spec_merged_row(row: FileRow, f: FileInfo) -> FileRow {
    FileRow {
        id: row.id,
        path: row.path,
        name: f.name,
        file_type: f.file_type,
        size: f.size,
        created_at: row.created_at,
        modified_at: f.modified_at,
        last_opened_at: row.last_opened_at,
        open_count: row.open_count,
        thumbnail_path: row.thumbnail_path,
    }
}

/// The row created for a path not yet in the index.
pub open spec fn spec_new_row(id: i64, f: FileInfo) -> FileRow {
    FileRow {
        id,
        path: f.path,
        name: f.name,
        file_type: f.file_type,
        size: f.size,
        created_at: f.created_at,
        modified_at: f.modified_at,
        last_opened_at: None,
        open_count: 0,
        thumbnail_path: None,
    }
}

impl FileIndex {
    /// A record with this path is live in the index.
    pub open spec fn has_path(self, p: Seq<char>) -> bool {
        exists|j: int| 0 <= j < self.files@.len() && (#[trigger] self.files@[j]).path@ == p
    }

    /// A record with this identifier is live in the index.
    pub open spec fn has_file_id(self, id: i64) -> bool {
        exists|j: int| 0 <= j < self.files@.len() && (#[trigger] self.files@[j]).id == id
    }

    /// A tag with this identifier exists.
    pub open spec fn has_tag_id(self, id: i64) -> bool {
        exists|j: int| 0 <= j < self.tags@.len() && (#[trigger] self.tags@[j]).id == id
    }

    /// Primary table: paths unique, identifiers unique and below the
    /// allocation counter, open counts non-negative.
    pub open spec fn files_wf(self) -> bool {
        &&& (forall|i: int, j: int|
            0 <= i < j < self.files@.len() ==> (#[trigger] self.files@[i]).path@
                != (#[trigger] self.files@[j]).path@)
        &&& (forall|i: int, j: int|
            0 <= i < j < self.files@.len() ==> (#[trigger] self.files@[i]).id
                != (#[trigger] self.files@[j]).id)
        &&& (forall|i: int|
            0 <= i < self.files@.len() ==> 0 <= (#[trigger] self.files@[i]).id
                < self.next_file_id)
        &&& (forall|i: int| 0 <= i < self.files@.len() ==> (#[trigger] self.files@[i]).open_count >= 0)
    }

    /// The shadow index mirrors the primary table entry for entry.
    pub open spec fn shadow_wf(self) -> bool {
        &&& self.shadow@.len() == self.files@.len()
        &&& (forall|i: int|
            0 <= i < self.files@.len() ==> {
                &&& (#[trigger] self.shadow@[i]).file_id == self.files@[i].id
                &&& self.shadow@[i].path@ == self.files@[i].path@
                &&& self.shadow@[i].name@ == self.files@[i].name@
            })
    }

    /// At most one metadata row per file, and only for live files.
    pub open spec fn metadata_wf(self) -> bool {
        &&& (forall|i: int, j: int|
            0 <= i < j < self.metadata@.len() ==> (#[trigger] self.metadata@[i]).file_id
                != (#[trigger] self.metadata@[j]).file_id)
        &&& (forall|i: int|
            0 <= i < self.metadata@.len() ==> self.has_file_id(
                (#[trigger] self.metadata@[i]).file_id,
            ))
    }

    /// Tag names and identifiers unique; color codes within 0 through 6.
    pub open spec fn tags_wf(self) -> bool {
        &&& (forall|i: int, j: int|
            0 <= i < j < self.tags@.len() ==> (#[trigger] self.tags@[i]).name@
                != (#[trigger] self.tags@[j]).name@)
        &&& (forall|i: int, j: int|
            0 <= i < j < self.tags@.len() ==> (#[trigger] self.tags@[i]).id
                != (#[trigger] self.tags@[j]).id)
        &&& (forall|i: int|
            0 <= i < self.tags@.len() ==> 0 <= (#[trigger] self.tags@[i]).id < self.next_tag_id)
        &&& (forall|i: int|
            0 <= i < self.tags@.len() ==> 0 <= (#[trigger] self.tags@[i]).color <= 6)
    }

    /// Tag associations are unique pairs between live files and known tags.
    pub open spec fn links_wf(self) -> bool {
        &&& (forall|i: int, j: int|
            0 <= i < j < self.file_tags@.len() ==> !((#[trigger] self.file_tags@[i]).file_id
                == (#[trigger] self.file_tags@[j]).file_id && self.file_tags@[i].tag_id
                == self.file_tags@[j].tag_id))
        &&& (forall|i: int|
            0 <= i < self.file_tags@.len() ==> self.has_file_id(
                (#[trigger] self.file_tags@[i]).file_id,
            ) && self.has_tag_id(self.file_tags@[i].tag_id))
    }

    /// Well-formedness of the whole index; every constructor establishes it
    /// and every mutation preserves it.
    pub open spec fn wf(self) -> bool {
        &&& self.files_wf()
        &&& self.shadow_wf()
        &&& self.metadata_wf()
        &&& self.tags_wf()
        &&& self.links_wf()
        &&& 0 <= self.next_file_id
        &&& 0 <= self.next_tag_id
    }

    /// An empty, well-formed index seeded with the default clusters.
    pub fn new() -> (ix: FileIndex)
        ensures
            ix.wf(),
            ix.files@.len() == 0,
            ix.shadow@.len() == 0,
            ix.metadata@.len() == 0,
            ix.tags@.len() == 0,
            ix.file_tags@.len() == 0,
            ix.clusters@.len() == 6,
            ix.clusters@[0].name@ == "Ideas I Started"@ && ix.clusters@[0].color@ == "#FF9500"@
                && ix.clusters@[0].sort_order == 1,
            ix.clusters@[1].name@ == "In Progress"@ && ix.clusters@[1].color@ == "#34C759"@
                && ix.clusters@[1].sort_order == 2,
            ix.clusters@[2].name@ == "Unfinished Projects"@ && ix.clusters@[2].color@
                == "#FF3B30"@ && ix.clusters@[2].sort_order == 3,
            ix.clusters@[3].name@ == "Seasonal Files"@ && ix.clusters@[3].color@ == "#007AFF"@
                && ix.clusters@[3].sort_order == 4,
            ix.clusters@[4].name@ == "High Energy"@ && ix.clusters@[4].color@ == "#FFCC00"@
                && ix.clusters@[4].sort_order == 5,
            ix.clusters@[5].name@ == "Low Energy"@ && ix.clusters@[5].color@ == "#AF52DE"@
                && ix.clusters@[5].sort_order == 6,
            forall|i: int| 0 <= i < 6 ==> (#[trigger] ix.clusters@[i]).id == i + 1,
            ix.next_file_id == 1,
            ix.next_tag_id == 1,
    {
        let mut ix = FileIndex {
            files: Vec::new(),
            shadow: Vec::new(),
            metadata: Vec::new(),
            tags: Vec::new(),
            file_tags: Vec::new(),
            clusters: Vec::new(),
            next_file_id: 1,
            next_tag_id: 1,
        };
        ix.clusters.push(cluster_row(1, "Ideas I Started", "#FF9500", 1));
        ix.clusters.push(cluster_row(2, "In Progress", "#34C759", 2));
        ix.clusters.push(cluster_row(3, "Unfinished Projects", "#FF3B30", 3));
        ix.clusters.push(cluster_row(4, "Seasonal Files", "#007AFF", 4));
        ix.clusters.push(cluster_row(5, "High Energy", "#FFCC00", 5));
        ix.clusters.push(cluster_row(6, "Low Energy", "#AF52DE", 6));
        ix
    }

    /// Number of live records.
    pub fn get_file_count(&self) -> (n: usize)
        ensures
            n == self.files@.len(),
    {
        self.files.len()
    }
}

fn cluster_row(id: i64, name: &str, color: &str, sort_order: i64) -> (c: ClusterRow)
    ensures
        c.id == id,
        c.name@ == name@,
        c.color@ == color@,
        c.sort_order == sort_order,
{
    ClusterRow { id, name: name.to_owned(), color: color.to_owned(), sort_order }
}

/// The position of the record with this path, if it is live.
fn find_row_by_path(ix: &FileIndex, path: &str) -> (r: Option<usize>)
    ensures
        match r {
            Some(j) => j < ix.files@.len() && ix.files@[j as int].path@ == path@,
            None => !ix.has_path(path@),
        },
{
    let n = ix.files.len();
    let mut j: usize = 0;
    while j < n
        invariant
            n == ix.files@.len(),
            j <= n,
            forall|t: int| 0 <= t < j ==> (#[trigger] ix.files@[t]).path@ != path@,
        decreases n - j,
    {
        if str_eq(ix.files[j].path.as_str(), path) {
            return Some(j);
        }
        j = j + 1;
    }
    None
}

/// Inserts the record, or merges it into the row already holding its path.
///
/// On a merge, name, type, size and modified-at take the incoming values
/// while the identifier, creation time, open history and thumbnail are
/// preserved; the shadow index is updated in the same step. The only way a
/// record can fail is exhaustion of the identifier space.
pub fn upsert_file(ix: &mut FileIndex, f: &FileInfo) -> (saved: bool)
    requires
        old(ix).wf(),
    ensures
        final(ix).wf(),
        final(ix).metadata@ == old(ix).metadata@,
        final(ix).tags@ == old(ix).tags@,
        final(ix).file_tags@ == old(ix).file_tags@,
        final(ix).clusters@ == old(ix).clusters@,
        final(ix).next_tag_id == old(ix).next_tag_id,
        forall|p: Seq<char>| old(ix).has_path(p) ==> #[trigger] final(ix).has_path(p),
        saved ==> final(ix).has_path(f.path@),
        old(ix).has_path(f.path@) ==> {
            &&& final(ix).files@.len() == old(ix).files@.len()
            &&& final(ix).next_file_id == old(ix).next_file_id
            &&& (forall|j: int|
                0 <= j < old(ix).files@.len() ==> (#[trigger] final(ix).files@[j]) == (
                if old(ix).files@[j].path@ == f.path@ {
                    spec_merged_row(old(ix).files@[j], *f)
                } else {
                    old(ix).files@[j]
                }))
            &&& saved
        },
        !old(ix).has_path(f.path@) && old(ix).next_file_id < i64::MAX ==> {
            &&& final(ix).files@ == old(ix).files@.push(
                spec_new_row(old(ix).next_file_id, *f),
            )
            &&& final(ix).next_file_id == old(ix).next_file_id + 1
            &&& saved
        },
        !old(ix).has_path(f.path@) && old(ix).next_file_id == i64::MAX ==> {
            &&& final(ix).files@ == old(ix).files@
            &&& final(ix).next_file_id == old(ix).next_file_id
            &&& !saved
        },
{
    match find_row_by_path(ix, f.path.as_str()) {
        Some(j) => {
            ix.files[j].name = f.name.clone();
            ix.files[j].file_type = f.file_type.clone();
            ix.files[j].size = f.size;
            ix.files[j].modified_at = f.modified_at;
            ix.shadow[j].name = f.name.clone();
            proof {
                assert(final(ix).files@ =~= old(ix).files@.update(
                    j as int,
                    spec_merged_row(old(ix).files@[j as int], *f),
                ));
                assert forall|jj: int| 0 <= jj < old(ix).files@.len() implies (
                #[trigger] final(ix).files@[jj]) == (if old(ix).files@[jj].path@ == f.path@ {
                    spec_merged_row(old(ix).files@[jj], *f)
                } else {
                    old(ix).files@[jj]
                }) by {
                    if jj != j as int && old(ix).files@[jj].path@ == f.path@ {
                        assert(false);
                    }
                }
                assert forall|p: Seq<char>| old(ix).has_path(p) implies #[trigger] final(ix).has_path(p) by {
                    let w = choose|t: int|
                        0 <= t < old(ix).files@.len() && (#[trigger] old(ix).files@[t]).path@
                            == p;
                    assert(final(ix).files@[w].path@ == p);
                }
                assert(final(ix).files@[j as int].path@ == f.path@);
                assert forall|i: int|
                    0 <= i < final(ix).metadata@.len() implies final(ix).has_file_id(
                    (#[trigger] final(ix).metadata@[i]).file_id,
                ) by {
                    let w = choose|t: int|
                        0 <= t < old(ix).files@.len() && (#[trigger] old(ix).files@[t]).id == old(ix).metadata@[i].file_id;
                    assert(final(ix).files@[w].id == final(ix).metadata@[i].file_id);
                }
                assert forall|i: int|
                    0 <= i < final(ix).file_tags@.len() implies final(ix).has_file_id(
                    (#[trigger] final(ix).file_tags@[i]).file_id,
                ) && final(ix).has_tag_id(final(ix).file_tags@[i].tag_id) by {
                    let w = choose|t: int|
                        0 <= t < old(ix).files@.len() && (#[trigger] old(ix).files@[t]).id == old(ix).file_tags@[i].file_id;
                    assert(final(ix).files@[w].id == final(ix).file_tags@[i].file_id);
                }
            }
            true
        },
        None => {
            let id = ix.next_file_id;
            if id == i64::MAX {
                return false;
            }
            let row = FileRow {
                id,
                path: f.path.clone(),
                name: f.name.clone(),
                file_type: f.file_type.clone(),
                size: f.size,
                created_at: f.created_at,
                modified_at: f.modified_at,
                last_opened_at: None,
                open_count: 0,
                thumbnail_path: None,
            };
            let entry = ShadowEntry { file_id: id, path: f.path.clone(), name: f.name.clone() };
            ix.files.push(row);
            ix.shadow.push(entry);
            ix.next_file_id = id + 1;
            proof {
                let n0 = old(ix).files@.len() as int;
                assert(final(ix).files@ =~= old(ix).files@.push(
                    spec_new_row(old(ix).next_file_id, *f),
                ));
                assert(final(ix).files@[n0].path@ == f.path@);
                assert forall|p: Seq<char>| old(ix).has_path(p) implies #[trigger] final(ix).has_path(p) by {
                    let w = choose|t: int|
                        0 <= t < old(ix).files@.len() && (#[trigger] old(ix).files@[t]).path@
                            == p;
                    assert(final(ix).files@[w].path@ == p);
                }
                assert forall|i: int|
                    0 <= i < final(ix).metadata@.len() implies final(ix).has_file_id(
                    (#[trigger] final(ix).metadata@[i]).file_id,
                ) by {
                    let w = choose|t: int|
                        0 <= t < old(ix).files@.len() && (#[trigger] old(ix).files@[t]).id == old(ix).metadata@[i].file_id;
                    assert(final(ix).files@[w].id == final(ix).metadata@[i].file_id);
                }
                assert forall|i: int|
                    0 <= i < final(ix).file_tags@.len() implies final(ix).has_file_id(
                    (#[trigger] final(ix).file_tags@[i]).file_id,
                ) && final(ix).has_tag_id(final(ix).file_tags@[i].tag_id) by {
                    let w = choose|t: int|
                        0 <= t < old(ix).files@.len() && (#[trigger] old(ix).files@[t]).id == old(ix).file_tags@[i].file_id;
                    assert(final(ix).files@[w].id == final(ix).file_tags@[i].file_id);
                }
            }
            true
        },
    }
}

/// The row after a successful open: last-opened-at set to the call time and
/// the open counter one higher (unchanged in the degenerate case that it has
/// already reached the largest representable count).
pub open spec fn spec_opened_row(row: FileRow, now_ts: i64) -> FileRow {
    FileRow {
        last_opened_at: Some(now_ts),
        open_count: if row.open_count == i64::MAX {
            row.open_count
        } else {
            (row.open_count + 1) as i64
        },
        ..row
    }
}

/// Marks the record at `path` opened now: sets last-opened-at to `now_ts`
/// and increments the open count by exactly one. A path not in the index is
/// a no-op, not an error.
pub fn record_open(ix: &mut FileIndex, path: &str, now_ts: i64)
    requires
        old(ix).wf(),
    ensures
        final(ix).wf(),
        final(ix).files@.len() == old(ix).files@.len(),
        final(ix).shadow@ == old(ix).shadow@,
        final(ix).metadata@ == old(ix).metadata@,
        final(ix).tags@ == old(ix).tags@,
        final(ix).file_tags@ == old(ix).file_tags@,
        final(ix).clusters@ == old(ix).clusters@,
        final(ix).next_file_id == old(ix).next_file_id,
        final(ix).next_tag_id == old(ix).next_tag_id,
        forall|j: int|
            0 <= j < old(ix).files@.len() ==> (#[trigger] final(ix).files@[j]) == (if old(ix).files@[j].path@ == path@ {
                spec_opened_row(old(ix).files@[j], now_ts)
            } else {
                old(ix).files@[j]
            }),
        !old(ix).has_path(path@) ==> final(ix).files@ == old(ix).files@,
{
    match find_row_by_path(ix, path) {
        Some(j) => {
            ix.files[j].last_opened_at = Some(now_ts);
            if ix.files[j].open_count < i64::MAX {
                let c = ix.files[j].open_count;
                ix.files[j].open_count = c + 1;
            }
            proof {
                assert forall|jj: int| 0 <= jj < old(ix).files@.len() implies (
                #[trigger] final(ix).files@[jj]) == (if old(ix).files@[jj].path@ == path@ {
                    spec_opened_row(old(ix).files@[jj], now_ts)
                } else {
                    old(ix).files@[jj]
                }) by {
                    if jj != j as int && old(ix).files@[jj].path@ == path@ {
                        assert(false);
                    }
                }
                assert forall|i: int|
                    0 <= i < final(ix).metadata@.len() implies final(ix).has_file_id(
                    (#[trigger] final(ix).metadata@[i]).file_id,
                ) by {
                    let w = choose|t: int|
                        0 <= t < old(ix).files@.len() && (#[trigger] old(ix).files@[t]).id == old(
                            ix,
                        ).metadata@[i].file_id;
                    assert(final(ix).files@[w].id == final(ix).metadata@[i].file_id);
                }
                assert forall|i: int|
                    0 <= i < final(ix).file_tags@.len() implies final(ix).has_file_id(
                    (#[trigger] final(ix).file_tags@[i]).file_id,
                ) && final(ix).has_tag_id(final(ix).file_tags@[i].tag_id) by {
                    let w = choose|t: int|
                        0 <= t < old(ix).files@.len() && (#[trigger] old(ix).files@[t]).id == old(
                            ix,
                        ).file_tags@[i].file_id;
                    assert(final(ix).files@[w].id == final(ix).file_tags@[i].file_id);
                    let wt = choose|t: int|
                        0 <= t < old(ix).tags@.len() && (#[trigger] old(ix).tags@[t]).id == old(
                            ix,
                        ).file_tags@[i].tag_id;
                    assert(final(ix).tags@[wt].id == final(ix).file_tags@[i].tag_id);
                }
            }
        },
        None => {
            proof {
                assert(final(ix).files@ =~= old(ix).files@);
            }
        },
    }
}

fn remove_metadata_for(v: &mut Vec<MetadataRow>, id: i64)
    requires
        forall|i: int, j: int|
            0 <= i < j < old(v)@.len() ==> (#[trigger] old(v)@[i]).file_id != (#[trigger] old(v)@[j]).file_id,
    ensures
        forall|i: int| 0 <= i < final(v)@.len() ==> (#[trigger] final(v)@[i]).file_id != id,
        forall|i: int| 0 <= i < final(v)@.len() ==> old(v)@.contains(#[trigger] final(v)@[i]),
        forall|i: int|
            0 <= i < old(v)@.len() && (#[trigger] old(v)@[i]).file_id != id ==> final(v)@.contains(old(v)@[i]),
        forall|i: int, j: int|
            0 <= i < j < final(v)@.len() ==> (#[trigger] final(v)@[i]).file_id != (#[trigger] final(v)@[j]).file_id,
{
    let mut i = v.len();
    while i > 0
        invariant
            i <= v@.len(),
            forall|t: int| i <= t < v@.len() ==> (#[trigger] v@[t]).file_id != id,
            forall|t: int| 0 <= t < v@.len() ==> old(v)@.contains(#[trigger] v@[t]),
            forall|t: int|
                0 <= t < old(v)@.len() && (#[trigger] old(v)@[t]).file_id != id ==> v@.contains(
                    old(v)@[t],
                ),
            forall|t1: int, t2: int|
                0 <= t1 < t2 < v@.len() ==> (#[trigger] v@[t1]).file_id != (#[trigger] v@[t2]).file_id,
        decreases i,
    {
        i = i - 1;
        if v[i].file_id == id {
            let ghost prev = v@;
            v.remove(i);
            proof {
                assert forall|t: int| 0 <= t < v@.len() implies old(v)@.contains(
                    #[trigger] v@[t],
                ) by {
                    if t < i {
                        assert(v@[t] == prev[t]);
                    } else {
                        assert(v@[t] == prev[t + 1]);
                    }
                }
                assert forall|t: int|
                    0 <= t < old(v)@.len() && (#[trigger] old(v)@[t]).file_id
                        != id implies v@.contains(old(v)@[t]) by {
                    let w = choose|w: int| 0 <= w < prev.len() && prev[w] == old(v)@[t];
                    assert(w != i);
                    if w < i {
                        assert(v@[w] == old(v)@[t]);
                    } else {
                        assert(v@[w - 1] == old(v)@[t]);
                    }
                }
            }
        }
    }
}

fn remove_links_for(v: &mut Vec<FileTagLink>, id: i64)
    requires
        forall|i: int, j: int|
            0 <= i < j < old(v)@.len() ==> !((#[trigger] old(v)@[i]).file_id == (#[trigger] old(v)@[j]).file_id && old(v)@[i].tag_id == old(v)@[j].tag_id),
    ensures
        forall|i: int| 0 <= i < final(v)@.len() ==> (#[trigger] final(v)@[i]).file_id != id,
        forall|i: int| 0 <= i < final(v)@.len() ==> old(v)@.contains(#[trigger] final(v)@[i]),
        forall|i: int|
            0 <= i < old(v)@.len() && (#[trigger] old(v)@[i]).file_id != id ==> final(v)@.contains(old(v)@[i]),
        forall|i: int, j: int|
            0 <= i < j < final(v)@.len() ==> !((#[trigger] final(v)@[i]).file_id
                == (#[trigger] final(v)@[j]).file_id && final(v)@[i].tag_id == final(v)@[j].tag_id),
{
    let mut i = v.len();
    while i > 0
        invariant
            i <= v@.len(),
            forall|t: int| i <= t < v@.len() ==> (#[trigger] v@[t]).file_id != id,
            forall|t: int| 0 <= t < v@.len() ==> old(v)@.contains(#[trigger] v@[t]),
            forall|t: int|
                0 <= t < old(v)@.len() && (#[trigger] old(v)@[t]).file_id != id ==> v@.contains(
                    old(v)@[t],
                ),
            forall|t1: int, t2: int|
                0 <= t1 < t2 < v@.len() ==> !((#[trigger] v@[t1]).file_id
                    == (#[trigger] v@[t2]).file_id && v@[t1].tag_id == v@[t2].tag_id),
        decreases i,
    {
        i = i - 1;
        if v[i].file_id == id {
            let ghost prev = v@;
            v.remove(i);
            proof {
                assert forall|t: int| 0 <= t < v@.len() implies old(v)@.contains(
                    #[trigger] v@[t],
                ) by {
                    if t < i {
                        assert(v@[t] == prev[t]);
                    } else {
                        assert(v@[t] == prev[t + 1]);
                    }
                }
                assert forall|t: int|
                    0 <= t < old(v)@.len() && (#[trigger] old(v)@[t]).file_id
                        != id implies v@.contains(old(v)@[t]) by {
                    let w = choose|w: int| 0 <= w < prev.len() && prev[w] == old(v)@[t];
                    assert(w != i);
                    if w < i {
                        assert(v@[w] == old(v)@[t]);
                    } else {
                        assert(v@[w - 1] == old(v)@[t]);
                    }
                }
            }
        }
    }
}

/// Removes the record at `path` together with its metadata row, its tag
/// associations, and its shadow-index entry; a path not in the index leaves
/// everything unchanged.
pub fn delete_file(ix: &mut FileIndex, path: &str)
    requires
        old(ix).wf(),
    ensures
        final(ix).wf(),
        !final(ix).has_path(path@),
        final(ix).tags@ == old(ix).tags@,
        final(ix).clusters@ == old(ix).clusters@,
        final(ix).next_file_id == old(ix).next_file_id,
        final(ix).next_tag_id == old(ix).next_tag_id,
        forall|i: int| 0 <= i < final(ix).shadow@.len() ==> (#[trigger] final(ix).shadow@[i]).path@
            != path@,
        !old(ix).has_path(path@) ==> {
            &&& final(ix).files@ == old(ix).files@
            &&& final(ix).shadow@ == old(ix).shadow@
            &&& final(ix).metadata@ == old(ix).metadata@
            &&& final(ix).file_tags@ == old(ix).file_tags@
        },
        old(ix).has_path(path@) ==> exists|j: int|
            {
                &&& 0 <= j < old(ix).files@.len()
                &&& (#[trigger] old(ix).files@[j]).path@ == path@
                &&& final(ix).files@ == old(ix).files@.remove(j)
                &&& final(ix).shadow@ == old(ix).shadow@.remove(j)
                &&& (forall|i: int|
                    0 <= i < final(ix).metadata@.len() ==> (#[trigger] final(ix).metadata@[i]).file_id != old(ix).files@[j].id)
                &&& (forall|i: int|
                    0 <= i < final(ix).metadata@.len() ==> old(ix).metadata@.contains(
                        #[trigger] final(ix).metadata@[i],
                    ))
                &&& (forall|i: int|
                    0 <= i < old(ix).metadata@.len() && (#[trigger] old(ix).metadata@[i]).file_id != old(ix).files@[j].id ==> final(ix).metadata@.contains(old(ix).metadata@[i]))
                &&& (forall|i: int|
                    0 <= i < final(ix).file_tags@.len() ==> (#[trigger] final(ix).file_tags@[i]).file_id != old(ix).files@[j].id)
                &&& (forall|i: int|
                    0 <= i < final(ix).file_tags@.len() ==> old(ix).file_tags@.contains(
                        #[trigger] final(ix).file_tags@[i],
                    ))
                &&& (forall|i: int|
                    0 <= i < old(ix).file_tags@.len() && (#[trigger] old(ix).file_tags@[i]).file_id != old(ix).files@[j].id ==> final(ix).file_tags@.contains(old(ix).file_tags@[i]))
            },
{
    match find_row_by_path(ix, path) {
        Some(j) => {
            let ghost jj = j as int;
            let del_id = ix.files[j].id;
            ix.files.remove(j);
            ix.shadow.remove(j);
            remove_metadata_for(&mut ix.metadata, del_id);
            remove_links_for(&mut ix.file_tags, del_id);
            proof {
                let pre = *old(ix);
                assert forall|p: int| 0 <= p < final(ix).files@.len() implies (#[trigger] final(ix).files@[p]).path@ != path@ by {
                    if p < jj {
                        assert(final(ix).files@[p] == pre.files@[p]);
                    } else {
                        assert(final(ix).files@[p] == pre.files@[p + 1]);
                    }
                }
                assert forall|i: int|
                    0 <= i < final(ix).metadata@.len() implies final(ix).has_file_id(
                    (#[trigger] final(ix).metadata@[i]).file_id,
                ) by {
                    assert(pre.metadata@.contains(final(ix).metadata@[i]));
                    let s = choose|s: int|
                        0 <= s < pre.metadata@.len() && pre.metadata@[s] == final(ix).metadata@[i];
                    let w = choose|t: int|
                        0 <= t < pre.files@.len() && (#[trigger] pre.files@[t]).id
                            == pre.metadata@[s].file_id;
                    assert(w != jj);
                    if w < jj {
                        assert(final(ix).files@[w].id == final(ix).metadata@[i].file_id);
                    } else {
                        assert(final(ix).files@[w - 1].id == final(ix).metadata@[i].file_id);
                    }
                }
                assert forall|i: int|
                    0 <= i < final(ix).file_tags@.len() implies final(ix).has_file_id(
                    (#[trigger] final(ix).file_tags@[i]).file_id,
                ) && final(ix).has_tag_id(final(ix).file_tags@[i].tag_id) by {
                    assert(pre.file_tags@.contains(final(ix).file_tags@[i]));
                    let s = choose|s: int|
                        0 <= s < pre.file_tags@.len() && pre.file_tags@[s] == final(ix).file_tags@[i];
                    let w = choose|t: int|
                        0 <= t < pre.files@.len() && (#[trigger] pre.files@[t]).id
                            == pre.file_tags@[s].file_id;
                    assert(w != jj);
                    if w < jj {
                        assert(final(ix).files@[w].id == final(ix).file_tags@[i].file_id);
                    } else {
                        assert(final(ix).files@[w - 1].id == final(ix).file_tags@[i].file_id);
                    }
                    let wt = choose|t: int|
                        0 <= t < pre.tags@.len() && (#[trigger] pre.tags@[t]).id
                            == pre.file_tags@[s].tag_id;
                    assert(final(ix).tags@[wt].id == final(ix).file_tags@[i].tag_id);
                }
            }
        },
        None => {
            proof {
                assert forall|i: int|
                    0 <= i < final(ix).shadow@.len() implies (#[trigger] final(ix).shadow@[i]).path@ != path@ by {
                    assert(final(ix).files@[i].path@ != path@);
                }
            }
        },
    }
}

/// Everything a batch upsert does to the index, from the state `pre` to the
/// state `post`: merge-protected fields of existing rows survive, rows at
/// paths outside the batch are untouched, every record lands (the last one
/// per path supplying the stored fields) as long as the identifier space
/// suffices, and `saved` counts the records written — the full batch unless
/// the identifier space ran out.
pub open spec fn spec_batch_upserted(
    pre: FileIndex,
    post: FileIndex,
    fs: Seq<FileInfo>,
    saved: int,
) -> bool {
    &&& 0 <= saved <= fs.len()
    &&& (saved == fs.len() || post.next_file_id == i64::MAX)
    &&& pre.next_file_id <= post.next_file_id <= pre.next_file_id + fs.len()
    &&& pre.files@.len() <= post.files@.len() <= pre.files@.len() + fs.len()
    &&& post.metadata@ == pre.metadata@
    &&& post.tags@ == pre.tags@
    &&& post.file_tags@ == pre.file_tags@
    &&& post.clusters@ == pre.clusters@
    &&& post.next_tag_id == pre.next_tag_id
    &&& (forall|p: Seq<char>| pre.has_path(p) ==> #[trigger] post.has_path(p))
    &&& (forall|j: int|
        0 <= j < pre.files@.len() ==> {
            &&& (#[trigger] post.files@[j]).id == pre.files@[j].id
            &&& post.files@[j].path@ == pre.files@[j].path@
            &&& post.files@[j].created_at == pre.files@[j].created_at
            &&& post.files@[j].last_opened_at == pre.files@[j].last_opened_at
            &&& post.files@[j].open_count == pre.files@[j].open_count
            &&& post.files@[j].thumbnail_path == pre.files@[j].thumbnail_path
        })
    &&& (forall|j: int|
        (0 <= j < pre.files@.len() && (forall|i: int|
            0 <= i < fs.len() ==> (#[trigger] fs[i]).path@ != pre.files@[j].path@)) ==> (
        #[trigger] post.files@[j]) == pre.files@[j])
    &&& (pre.next_file_id + fs.len() <= i64::MAX ==> {
        &&& saved == fs.len()
        &&& (forall|i: int| 0 <= i < fs.len() ==> post.has_path((#[trigger] fs[i]).path@))
    })
    &&& (pre.next_file_id + fs.len() <= i64::MAX ==> (forall|i: int, j: int|
        (0 <= i < fs.len() && 0 <= j < post.files@.len() && (forall|i2: int|
            i < i2 < fs.len() ==> (#[trigger] fs[i2]).path@ != fs[i].path@) && (
        #[trigger] post.files@[j]).path@ == (#[trigger] fs[i]).path@) ==> {
            &&& post.files@[j].name@ == fs[i].name@
            &&& post.files@[j].file_type@ == fs[i].file_type@
            &&& post.files@[j].size == fs[i].size
            &&& post.files@[j].modified_at == fs[i].modified_at
        }))
}

/// Upserts a batch of records, one by one, returning how many were written.
///
/// Rows already present keep their identifier, creation time, open history
/// and thumbnail, rows at paths outside the batch are untouched, and when
/// the identifier space suffices every record lands, the last record per
/// path supplying the stored name, type, size and modified-at.
pub fn upsert_files(ix: &mut FileIndex, files: &Vec<FileInfo>) -> (saved: usize)
    requires
        old(ix).wf(),
    ensures
        final(ix).wf(),
        spec_batch_upserted(*old(ix), *final(ix), files@, saved as int),
{
    let n = files.len();
    let mut saved: usize = 0;
    let mut t: usize = 0;
    while t < n
        invariant
            n == files@.len(),
            t <= n,
            saved <= t,
            saved == t || ix.next_file_id == i64::MAX,
            ix.wf(),
            ix.next_file_id >= old(ix).next_file_id,
            old(ix).files@.len() <= ix.files@.len() <= old(ix).files@.len() + t,
            ix.next_file_id <= old(ix).next_file_id + t,
            ix.metadata@ == old(ix).metadata@,
            ix.tags@ == old(ix).tags@,
            ix.file_tags@ == old(ix).file_tags@,
            ix.clusters@ == old(ix).clusters@,
            ix.next_tag_id == old(ix).next_tag_id,
            forall|j: int|
                (0 <= j < old(ix).files@.len() && (forall|i: int|
                    0 <= i < t ==> (#[trigger] files@[i]).path@ != old(ix).files@[j].path@))
                    ==> (#[trigger] ix.files@[j]) == old(ix).files@[j],
            forall|p: Seq<char>| old(ix).has_path(p) ==> #[trigger] ix.has_path(p),
            forall|j: int|
                0 <= j < old(ix).files@.len() ==> {
                    &&& (#[trigger] ix.files@[j]).id == old(ix).files@[j].id
                    &&& ix.files@[j].path@ == old(ix).files@[j].path@
                    &&& ix.files@[j].created_at == old(ix).files@[j].created_at
                    &&& ix.files@[j].last_opened_at == old(ix).files@[j].last_opened_at
                    &&& ix.files@[j].open_count == old(ix).files@[j].open_count
                    &&& ix.files@[j].thumbnail_path == old(ix).files@[j].thumbnail_path
                },
            old(ix).next_file_id + files@.len() <= i64::MAX ==> {
                &&& saved == t
                &&& (forall|i: int|
                    0 <= i < t ==> ix.has_path((#[trigger] files@[i]).path@))
            },
            old(ix).next_file_id + files@.len() <= i64::MAX ==> (forall|i: int, j: int|
                (0 <= i < t && 0 <= j < ix.files@.len() && (forall|i2: int|
                    i < i2 < t ==> (#[trigger] files@[i2]).path@ != files@[i].path@) && (
                #[trigger] ix.files@[j]).path@ == (#[trigger] files@[i]).path@) ==> {
                    &&& ix.files@[j].name@ == files@[i].name@
                    &&& ix.files@[j].file_type@ == files@[i].file_type@
                    &&& ix.files@[j].size == files@[i].size
                    &&& ix.files@[j].modified_at == files@[i].modified_at
                }),
        decreases n - t,
    {
        let ok = upsert_file(ix, &files[t]);
        if ok {
            saved = saved + 1;
        }
        t = t + 1;
    }
    saved
}

/// Field-for-field correspondence between an outgoing `FileInfo` and the
/// stored row it reports; tag lists are left empty, as queries do not join
/// them.
pub open spec fn spec_info_matches_row(f: FileInfo, row: FileRow) -> bool {
    &&& f.id == Some(row.id)
    &&& f.path@ == row.path@
    &&& f.name@ == row.name@
    &&& f.file_type@ == row.file_type@
    &&& f.size == row.size
    &&& f.created_at == row.created_at
    &&& f.modified_at == row.modified_at
    &&& f.last_opened_at == row.last_opened_at
    &&& f.thumbnail_path == row.thumbnail_path
    &&& f.finder_tags@.len() == 0
    &&& f.finder_colors@.len() == 0
}

/// Projects a stored row to the shape handed across the boundary.
pub fn file_info_of_row(row: &FileRow) -> (f: FileInfo)
    ensures
        spec_info_matches_row(f, *row),
{
    let thumbnail_path = match &row.thumbnail_path {
        Some(s) => Some(s.clone()),
        None => None,
    };
    FileInfo {
        id: Some(row.id),
        path: row.path.clone(),
        name: row.name.clone(),
        file_type: row.file_type.clone(),
        size: row.size,
        created_at: row.created_at,
        modified_at: row.modified_at,
        last_opened_at: row.last_opened_at,
        thumbnail_path,
        finder_tags: Vec::new(),
        finder_colors: Vec::new(),
    }
}

/// The shadow entry that mirrors a row.
pub open spec fn spec_shadow_of(row: FileRow) -> ShadowEntry {
    ShadowEntry { file_id: row.id, path: row.path, name: row.name }
}

fn find_file_index_by_id(ix: &FileIndex, id: i64) -> (r: Option<usize>)
    ensures
        match r {
            Some(j) => j < ix.files@.len() && ix.files@[j as int].id == id,
            None => !ix.has_file_id(id),
        },
{
    let n = ix.files.len();
    let mut j: usize = 0;
    while j < n
        invariant
            n == ix.files@.len(),
            j <= n,
            forall|t: int| 0 <= t < j ==> (#[trigger] ix.files@[t]).id != id,
        decreases n - j,
    {
        if ix.files[j].id == id {
            return Some(j);
        }
        j = j + 1;
    }
    None
}

impl FileIndex {
    /// Puts back a row exactly as a backing store persisted it, keeping its
    /// identifier and open history; used to rebuild the index on startup.
    /// Refused when the identifier or path is already live, or the row is
    /// malformed (negative identifier or open count, or an identifier that
    /// exhausts the counter).
    pub fn restore_row(&mut self, row: FileRow) -> (ok: bool)
        requires
            old(self).wf(),
        ensures
            final(self).wf(),
            final(self).metadata@ == old(self).metadata@,
            final(self).tags@ == old(self).tags@,
            final(self).file_tags@ == old(self).file_tags@,
            final(self).clusters@ == old(self).clusters@,
            final(self).next_tag_id == old(self).next_tag_id,
            ok == (0 <= row.id < i64::MAX && row.open_count >= 0 && !old(self).has_path(row.path@)
                && !old(self).has_file_id(row.id)),
            ok ==> {
                &&& final(self).files@ == old(self).files@.push(row)
                &&& final(self).shadow@ == old(self).shadow@.push(spec_shadow_of(row))
                &&& final(self).next_file_id == if row.id + 1 > old(self).next_file_id {
                    row.id + 1
                } else {
                    old(self).next_file_id as int
                }
            },
            !ok ==> {
                &&& final(self).files@ == old(self).files@
                &&& final(self).shadow@ == old(self).shadow@
                &&& final(self).next_file_id == old(self).next_file_id
            },
    {
        if row.id < 0 || row.id == i64::MAX || row.open_count < 0 {
            return false;
        }
        if find_row_by_path(self, row.path.as_str()).is_some() {
            proof {
                let w = choose|t: int|
                    0 <= t < self.files@.len() && (#[trigger] self.files@[t]).path@ == row.path@;
                assert(self.has_path(row.path@));
            }
            return false;
        }
        if find_file_index_by_id(self, row.id).is_some() {
            return false;
        }
        let entry = ShadowEntry { file_id: row.id, path: row.path.clone(), name: row.name.clone() };
        if row.id + 1 > self.next_file_id {
            self.next_file_id = row.id + 1;
        }
        self.files.push(row);
        self.shadow.push(entry);
        proof {
            let pre = *old(self);
            let n0 = pre.files@.len() as int;
            assert forall|p: Seq<char>| pre.has_path(p) implies #[trigger] final(self).has_path(
                p,
            ) by {
                let w = choose|t: int|
                    0 <= t < pre.files@.len() && (#[trigger] pre.files@[t]).path@ == p;
                assert(final(self).files@[w].path@ == p);
            }
            assert forall|i: int|
                0 <= i < final(self).metadata@.len() implies final(self).has_file_id(
                (#[trigger] final(self).metadata@[i]).file_id,
            ) by {
                let w = choose|t: int|
                    0 <= t < pre.files@.len() && (#[trigger] pre.files@[t]).id
                        == pre.metadata@[i].file_id;
                assert(final(self).files@[w].id == final(self).metadata@[i].file_id);
            }
            assert forall|i: int|
                0 <= i < final(self).file_tags@.len() implies final(self).has_file_id(
                (#[trigger] final(self).file_tags@[i]).file_id,
            ) && final(self).has_tag_id(final(self).file_tags@[i].tag_id) by {
                let w = choose|t: int|
                    0 <= t < pre.files@.len() && (#[trigger] pre.files@[t]).id
                        == pre.file_tags@[i].file_id;
                assert(final(self).files@[w].id == final(self).file_tags@[i].file_id);
                let wt = choose|t: int|
                    0 <= t < pre.tags@.len() && (#[trigger] pre.tags@[t]).id
                        == pre.file_tags@[i].tag_id;
                assert(final(self).tags@[wt].id == final(self).file_tags@[i].tag_id);
            }
        }
        true
    }

    /// A metadata row exists for this file identifier.
    pub open spec fn has_metadata_for(self, id: i64) -> bool {
        exists|s: int| 0 <= s < self.metadata@.len() && (#[trigger] self.metadata@[s]).file_id == id
    }

    /// A tag with this name exists.
    pub open spec fn has_tag_named(self, nm: Seq<char>) -> bool {
        exists|t: int| 0 <= t < self.tags@.len() && (#[trigger] self.tags@[t]).name@ == nm
    }

    /// An association between this file and this tag exists.
    pub open spec fn has_link(self, file_id: i64, tag_id: i64) -> bool {
        exists|l: int|
            0 <= l < self.file_tags@.len() && (#[trigger] self.file_tags@[l]).file_id == file_id
                && self.file_tags@[l].tag_id == tag_id
    }
}

/// A metadata row freshly created for a file.
pub open spec fn spec_meta_new(meta: FileMetadata, now_ts: i64) -> MetadataRow {
    MetadataRow {
        file_id: meta.file_id,
        mood: meta.mood,
        season: meta.season,
        vibe_color: meta.vibe_color,
        location: meta.location,
        energy_level: meta.energy_level,
        created_at: now_ts,
        updated_at: now_ts,
    }
}

/// An existing metadata row after an update: fields overwritten, the
/// creation time kept, the update time set to the call time.
pub open spec fn spec_meta_updated(mrow: MetadataRow, meta: FileMetadata, now_ts: i64) -> MetadataRow {
    MetadataRow {
        file_id: mrow.file_id,
        mood: meta.mood,
        season: meta.season,
        vibe_color: meta.vibe_color,
        location: meta.location,
        energy_level: meta.energy_level,
        created_at: mrow.created_at,
        updated_at: now_ts,
    }
}

fn clone_opt_string(o: &Option<String>) -> (r: Option<String>)
    ensures
        r == *o,
{
    match o {
        Some(s) => Some(s.clone()),
        None => None,
    }
}

/// Writes the emotional metadata of one file: overwrites the existing row
/// or creates the missing one (at most one per file either way). Fails
/// exactly when no file with that identifier is live.
pub fn update_file_metadata(ix: &mut FileIndex, meta: &FileMetadata, now_ts: i64) -> (ok: bool)
    requires
        old(ix).wf(),
    ensures
        final(ix).wf(),
        final(ix).files@ == old(ix).files@,
        final(ix).shadow@ == old(ix).shadow@,
        final(ix).tags@ == old(ix).tags@,
        final(ix).file_tags@ == old(ix).file_tags@,
        final(ix).clusters@ == old(ix).clusters@,
        final(ix).next_file_id == old(ix).next_file_id,
        final(ix).next_tag_id == old(ix).next_tag_id,
        ok == old(ix).has_file_id(meta.file_id),
        !ok ==> final(ix).metadata@ == old(ix).metadata@,
        ok && old(ix).has_metadata_for(meta.file_id) ==> {
            &&& final(ix).metadata@.len() == old(ix).metadata@.len()
            &&& (forall|s: int|
                0 <= s < old(ix).metadata@.len() ==> (#[trigger] final(ix).metadata@[s]) == (
                if old(ix).metadata@[s].file_id == meta.file_id {
                    spec_meta_updated(old(ix).metadata@[s], *meta, now_ts)
                } else {
                    old(ix).metadata@[s]
                }))
        },
        ok && !old(ix).has_metadata_for(meta.file_id) ==> final(ix).metadata@ == old(
            ix,
        ).metadata@.push(spec_meta_new(*meta, now_ts)),
        ok ==> final(ix).has_metadata_for(meta.file_id),
{
    if find_file_index_by_id(ix, meta.file_id).is_none() {
        return false;
    }
    let n = ix.metadata.len();
    let mut s: usize = 0;
    while s < n
        invariant
            *ix == *old(ix),
            old(ix).wf(),
            old(ix).has_file_id(meta.file_id),
            n == ix.metadata@.len(),
            s <= n,
            forall|t: int| 0 <= t < s ==> (#[trigger] ix.metadata@[t]).file_id != meta.file_id,
        decreases n - s,
    {
        if ix.metadata[s].file_id == meta.file_id {
            ix.metadata[s].mood = clone_opt_string(&meta.mood);
            ix.metadata[s].season = clone_opt_string(&meta.season);
            ix.metadata[s].vibe_color = clone_opt_string(&meta.vibe_color);
            ix.metadata[s].location = clone_opt_string(&meta.location);
            ix.metadata[s].energy_level = clone_opt_string(&meta.energy_level);
            ix.metadata[s].updated_at = now_ts;
            proof {
                assert(final(ix).metadata@[s as int] == spec_meta_updated(
                    old(ix).metadata@[s as int],
                    *meta,
                    now_ts,
                ));
                assert forall|t: int|
                    0 <= t < final(ix).metadata@.len() implies final(ix).has_file_id(
                    (#[trigger] final(ix).metadata@[t]).file_id,
                ) by {
                    assert(final(ix).metadata@[t].file_id == old(ix).metadata@[t].file_id);
                    assert(old(ix).has_file_id(old(ix).metadata@[t].file_id));
                    let w = choose|w: int|
                        0 <= w < old(ix).files@.len() && (#[trigger] old(ix).files@[w]).id == old(
                            ix,
                        ).metadata@[t].file_id;
                    assert(final(ix).files@[w].id == final(ix).metadata@[t].file_id);
                }
                assert(final(ix).metadata@[s as int].file_id == meta.file_id);
            }
            return true;
        }
        s = s + 1;
    }
    let row = MetadataRow {
        file_id: meta.file_id,
        mood: clone_opt_string(&meta.mood),
        season: clone_opt_string(&meta.season),
        vibe_color: clone_opt_string(&meta.vibe_color),
        location: clone_opt_string(&meta.location),
        energy_level: clone_opt_string(&meta.energy_level),
        created_at: now_ts,
        updated_at: now_ts,
    };
    ix.metadata.push(row);
    proof {
        let n0 = old(ix).metadata@.len() as int;
        assert(final(ix).metadata@ =~= old(ix).metadata@.push(spec_meta_new(*meta, now_ts)));
        assert forall|t: int|
            0 <= t < final(ix).metadata@.len() implies final(ix).has_file_id(
            (#[trigger] final(ix).metadata@[t]).file_id,
        ) by {
            if t < n0 {
                let w = choose|w: int|
                    0 <= w < old(ix).files@.len() && (#[trigger] old(ix).files@[w]).id == old(
                        ix,
                    ).metadata@[t].file_id;
                assert(final(ix).files@[w].id == final(ix).metadata@[t].file_id);
            } else {
                let w = choose|w: int|
                    0 <= w < old(ix).files@.len() && (#[trigger] old(ix).files@[w]).id
                        == meta.file_id;
                assert(final(ix).files@[w].id == final(ix).metadata@[t].file_id);
            }
        }
        assert(final(ix).metadata@[n0].file_id == meta.file_id);
    }
    true
}

/// Creates a tag with this name and color, or returns the identifier of
/// the tag already carrying the name (its stored color is then kept). The
/// only failure is exhaustion of the tag identifier space.
pub fn add_tag(ix: &mut FileIndex, name: &str, color: i32) -> (r: Option<i64>)
    requires
        old(ix).wf(),
        0 <= color <= 6,
    ensures
        final(ix).wf(),
        final(ix).files@ == old(ix).files@,
        final(ix).shadow@ == old(ix).shadow@,
        final(ix).metadata@ == old(ix).metadata@,
        final(ix).file_tags@ == old(ix).file_tags@,
        final(ix).clusters@ == old(ix).clusters@,
        final(ix).next_file_id == old(ix).next_file_id,
        old(ix).has_tag_named(name@) ==> {
            &&& final(ix).tags@ == old(ix).tags@
            &&& final(ix).next_tag_id == old(ix).next_tag_id
            &&& (forall|t: int|
                0 <= t < old(ix).tags@.len() && (#[trigger] old(ix).tags@[t]).name@ == name@
                    ==> r == Some(old(ix).tags@[t].id))
        },
        !old(ix).has_tag_named(name@) && old(ix).next_tag_id < i64::MAX ==> {
            &&& final(ix).tags@.len() == old(ix).tags@.len() + 1
            &&& (forall|t: int|
                0 <= t < old(ix).tags@.len() ==> #[trigger] final(ix).tags@[t] == old(
                    ix,
                ).tags@[t])
            &&& final(ix).tags@[old(ix).tags@.len() as int].id == old(ix).next_tag_id
            &&& final(ix).tags@[old(ix).tags@.len() as int].name@ == name@
            &&& final(ix).tags@[old(ix).tags@.len() as int].color == color
            &&& final(ix).next_tag_id == old(ix).next_tag_id + 1
            &&& r == Some(old(ix).next_tag_id)
        },
        !old(ix).has_tag_named(name@) && old(ix).next_tag_id == i64::MAX ==> {
            &&& final(ix).tags@ == old(ix).tags@
            &&& final(ix).next_tag_id == old(ix).next_tag_id
            &&& r is None
        },
{
    let n = ix.tags.len();
    let mut t: usize = 0;
    while t < n
        invariant
            *ix == *old(ix),
            old(ix).wf(),
            n == ix.tags@.len(),
            t <= n,
            forall|s: int| 0 <= s < t ==> (#[trigger] ix.tags@[s]).name@ != name@,
        decreases n - t,
    {
        if str_eq(ix.tags[t].name.as_str(), name) {
            proof {
                assert forall|t2: int|
                    0 <= t2 < old(ix).tags@.len() && (#[trigger] old(ix).tags@[t2]).name@
                        == name@ implies old(ix).tags@[t2].id == old(ix).tags@[t as int].id by {
                    if t2 != t as int {
                        assert(false);
                    }
                }
            }
            return Some(ix.tags[t].id);
        }
        t = t + 1;
    }
    let id = ix.next_tag_id;
    if id == i64::MAX {
        return None;
    }
    ix.tags.push(TagRow { id, name: name.to_owned(), color });
    ix.next_tag_id = id + 1;
    proof {
        let pre = *old(ix);
        assert forall|i: int|
            0 <= i < final(ix).file_tags@.len() implies final(ix).has_file_id(
            (#[trigger] final(ix).file_tags@[i]).file_id,
        ) && final(ix).has_tag_id(final(ix).file_tags@[i].tag_id) by {
            let w = choose|w: int|
                0 <= w < pre.files@.len() && (#[trigger] pre.files@[w]).id
                    == pre.file_tags@[i].file_id;
            assert(final(ix).files@[w].id == final(ix).file_tags@[i].file_id);
            let wt = choose|w: int|
                0 <= w < pre.tags@.len() && (#[trigger] pre.tags@[w]).id
                    == pre.file_tags@[i].tag_id;
            assert(final(ix).tags@[wt].id == final(ix).file_tags@[i].tag_id);
        }
        assert forall|i: int|
            0 <= i < final(ix).metadata@.len() implies final(ix).has_file_id(
            (#[trigger] final(ix).metadata@[i]).file_id,
        ) by {
            let w = choose|w: int|
                0 <= w < pre.files@.len() && (#[trigger] pre.files@[w]).id
                    == pre.metadata@[i].file_id;
            assert(final(ix).files@[w].id == final(ix).metadata@[i].file_id);
        }
    }
    Some(id)
}

/// Associates a file with a tag; adding an association that already exists
/// is a no-op. Fails exactly when the file or the tag is not known.
pub fn tag_file(ix: &mut FileIndex, file_id: i64, tag_id: i64) -> (ok: bool)
    requires
        old(ix).wf(),
    ensures
        final(ix).wf(),
        final(ix).files@ == old(ix).files@,
        final(ix).shadow@ == old(ix).shadow@,
        final(ix).metadata@ == old(ix).metadata@,
        final(ix).tags@ == old(ix).tags@,
        final(ix).clusters@ == old(ix).clusters@,
        final(ix).next_file_id == old(ix).next_file_id,
        final(ix).next_tag_id == old(ix).next_tag_id,
        ok == (old(ix).has_file_id(file_id) && old(ix).has_tag_id(tag_id)),
        !ok ==> final(ix).file_tags@ == old(ix).file_tags@,
        ok && old(ix).has_link(file_id, tag_id) ==> final(ix).file_tags@ == old(ix).file_tags@,
        ok && !old(ix).has_link(file_id, tag_id) ==> final(ix).file_tags@ == old(
            ix,
        ).file_tags@.push(FileTagLink { file_id, tag_id }),
        ok ==> final(ix).has_link(file_id, tag_id),
{
    if find_file_index_by_id(ix, file_id).is_none() {
        return false;
    }
    let mut has_tag = false;
    let n = ix.tags.len();
    let mut t: usize = 0;
    while t < n
        invariant
            *ix == *old(ix),
            old(ix).wf(),
            old(ix).has_file_id(file_id),
            n == ix.tags@.len(),
            t <= n,
            has_tag ==> ix.has_tag_id(tag_id),
            !has_tag ==> forall|s: int| 0 <= s < t ==> (#[trigger] ix.tags@[s]).id != tag_id,
        decreases n - t,
    {
        if ix.tags[t].id == tag_id {
            has_tag = true;
        }
        t = t + 1;
    }
    if !has_tag {
        return false;
    }
    let m = ix.file_tags.len();
    let mut l: usize = 0;
    while l < m
        invariant
            *ix == *old(ix),
            old(ix).wf(),
            old(ix).has_file_id(file_id),
            old(ix).has_tag_id(tag_id),
            m == ix.file_tags@.len(),
            l <= m,
            forall|s: int|
                0 <= s < l ==> !((#[trigger] ix.file_tags@[s]).file_id == file_id
                    && ix.file_tags@[s].tag_id == tag_id),
        decreases m - l,
    {
        if ix.file_tags[l].file_id == file_id && ix.file_tags[l].tag_id == tag_id {
            proof {
                assert(final(ix).has_link(file_id, tag_id));
            }
            return true;
        }
        l = l + 1;
    }
    ix.file_tags.push(FileTagLink { file_id, tag_id });
    proof {
        let pre = *old(ix);
        let n0 = pre.file_tags@.len() as int;
        assert(final(ix).file_tags@ =~= pre.file_tags@.push(
            FileTagLink { file_id, tag_id },
        ));
        assert forall|i: int|
            0 <= i < final(ix).file_tags@.len() implies final(ix).has_file_id(
            (#[trigger] final(ix).file_tags@[i]).file_id,
        ) && final(ix).has_tag_id(final(ix).file_tags@[i].tag_id) by {
            if i < n0 {
                let w = choose|w: int|
                    0 <= w < pre.files@.len() && (#[trigger] pre.files@[w]).id
                        == pre.file_tags@[i].file_id;
                assert(final(ix).files@[w].id == final(ix).file_tags@[i].file_id);
                let wt = choose|w: int|
                    0 <= w < pre.tags@.len() && (#[trigger] pre.tags@[w]).id
                        == pre.file_tags@[i].tag_id;
                assert(final(ix).tags@[wt].id == final(ix).file_tags@[i].tag_id);
            } else {
                let w = choose|w: int|
                    0 <= w < pre.files@.len() && (#[trigger] pre.files@[w]).id == file_id;
                assert(final(ix).files@[w].id == file_id);
                let wt = choose|w: int|
                    0 <= w < pre.tags@.len() && (#[trigger] pre.tags@[w]).id == tag_id;
                assert(final(ix).tags@[wt].id == tag_id);
            }
        }
        assert(final(ix).file_tags@[n0].file_id == file_id);
    }
    true
}

/// The shadow full-text index mirrors the primary table: after any insert,
/// update or delete, an entry with a given path and name exists exactly
/// when a live record with that path carries that name.
pub proof fn lemma_shadow_mirrors_files(ix: FileIndex, p: Seq<char>, nm: Seq<char>)
    requires
        ix.wf(),
    ensures
        (exists|i: int|
            0 <= i < ix.shadow@.len() && (#[trigger] ix.shadow@[i]).path@ == p
                && ix.shadow@[i].name@ == nm) <==> (exists|j: int|
            0 <= j < ix.files@.len() && (#[trigger] ix.files@[j]).path@ == p
                && ix.files@[j].name@ == nm),
{
    if exists|i: int|
        0 <= i < ix.shadow@.len() && (#[trigger] ix.shadow@[i]).path@ == p && ix.shadow@[i].name@
            == nm {
        let i = choose|i: int|
            0 <= i < ix.shadow@.len() && (#[trigger] ix.shadow@[i]).path@ == p
                && ix.shadow@[i].name@ == nm;
        assert(ix.files@[i].path@ == p && ix.files@[i].name@ == nm);
    }
    if exists|j: int|
        0 <= j < ix.files@.len() && (#[trigger] ix.files@[j]).path@ == p && ix.files@[j].name@
            == nm {
        let j = choose|j: int|
            0 <= j < ix.files@.len() && (#[trigger] ix.files@[j]).path@ == p && ix.files@[j].name@
                == nm;
        assert(ix.shadow@[j].path@ == p && ix.shadow@[j].name@ == nm);
    }
}

/// The result list reports a live row of the index, field for field.
pub open spec fn spec_reports_live_row(ix: FileIndex, f: FileInfo) -> bool {
    exists|j: int|
        0 <= j < ix.files@.len() && spec_info_matches_row(f, #[trigger] ix.files@[j])
}

/// Some element of the result list carries this path.
pub open spec fn spec_path_reported(r: Seq<FileInfo>, p: Seq<char>) -> bool {
    exists|i: int| 0 <= i < r.len() && (#[trigger] r[i]).path@ == p
}

/// Whether a shadow-index entry matches a query: the query occurs in the
/// indexed name or in the indexed path.
pub open spec fn spec_shadow_matches(e: ShadowEntry, q: Seq<char>) -> bool {
    seq_contains_sub(e.name@, q) || seq_contains_sub(e.path@, q)
}

/// The result list reports a live row whose shadow entry matches the query.
pub open spec fn spec_reports_search_hit(ix: FileIndex, f: FileInfo, q: Seq<char>) -> bool {
    exists|j: int|
        0 <= j < ix.files@.len() && spec_info_matches_row(f, #[trigger] ix.files@[j])
            && spec_shadow_matches(ix.shadow@[j], q)
}

/// A snapshot read of the whole index, most recently modified first,
/// bounded by a ceiling of 1000 records.
pub fn get_all_files(ix: &FileIndex) -> (r: Vec<FileInfo>)
    requires
        ix.wf(),
    ensures
        r@.len() == if ix.files@.len() < 1000 {
            ix.files@.len() as int
        } else {
            1000int
        },
        forall|k1: int, k2: int|
            0 <= k1 < k2 < r@.len() ==> (#[trigger] r@[k1]).modified_at >= (#[trigger] r@[k2]).modified_at,
        forall|k: int| 0 <= k < r@.len() ==> spec_reports_live_row(*ix, #[trigger] r@[k]),
        forall|k1: int, k2: int|
            0 <= k1 < k2 < r@.len() ==> (#[trigger] r@[k1]).path@ != (#[trigger] r@[k2]).path@,
        ix.files@.len() <= 1000 ==> (forall|j: int|
            0 <= j < ix.files@.len() ==> spec_path_reported(
                r@,
                (#[trigger] ix.files@[j]).path@,
            )),
        forall|k: int, j: int|
            (0 <= k < r@.len() && 0 <= j < ix.files@.len() && !spec_path_reported(
                r@,
                (#[trigger] ix.files@[j]).path@,
            )) ==> (#[trigger] r@[k]).modified_at >= ix.files@[j].modified_at,
{
    let n = ix.files.len();
    let mut pairs: Vec<(i64, usize)> = Vec::new();
    let mut j: usize = 0;
    while j < n
        invariant
            n == ix.files@.len(),
            j <= n,
            pairs@.len() == j,
            forall|t: int|
                0 <= t < j ==> (#[trigger] pairs@[t]).0 == ix.files@[t].modified_at && pairs@[t].1
                    == t,
        decreases n - j,
    {
        pairs.push((ix.files[j].modified_at, j));
        j = j + 1;
    }
    let sorted = sort_pairs_desc(&pairs);
    let mut r: Vec<FileInfo> = Vec::new();
    let mut k: usize = 0;
    while k < n && k < 1000
        invariant
            ix.wf(),
            n == ix.files@.len(),
            pairs@.len() == n,
            forall|t: int|
                0 <= t < n ==> (#[trigger] pairs@[t]).0 == ix.files@[t].modified_at && pairs@[t].1
                    == t,
            sorted@.len() == n,
            forall|t: int|
                0 <= t < n ==> (#[trigger] sorted@[t]).1 < n && sorted@[t] == pairs@[sorted@[t].1 as int],
            forall|t1: int, t2: int|
                0 <= t1 < t2 < n ==> (#[trigger] sorted@[t1]).1 != (#[trigger] sorted@[t2]).1,
            forall|t1: int, t2: int|
                0 <= t1 < t2 < n ==> (#[trigger] sorted@[t1]).0 >= (#[trigger] sorted@[t2]).0,
            k <= n,
            k <= 1000,
            r@.len() == k,
            forall|t: int|
                0 <= t < k ==> spec_info_matches_row(
                    #[trigger] r@[t],
                    ix.files@[sorted@[t].1 as int],
                ),
        decreases n - k,
    {
        let idx = sorted[k].1;
        r.push(file_info_of_row(&ix.files[idx]));
        k = k + 1;
    }
    proof {
        assert forall|k1: int, k2: int|
            0 <= k1 < k2 < r@.len() implies (#[trigger] r@[k1]).modified_at >= (#[trigger] r@[k2]).modified_at by {
            assert(r@[k1].modified_at == sorted@[k1].0);
            assert(r@[k2].modified_at == sorted@[k2].0);
        }
        assert forall|k1: int, k2: int|
            0 <= k1 < k2 < r@.len() implies (#[trigger] r@[k1]).path@ != (#[trigger] r@[k2]).path@ by {
            let j1 = sorted@[k1].1 as int;
            let j2 = sorted@[k2].1 as int;
            assert(r@[k1].path@ == ix.files@[j1].path@);
            assert(r@[k2].path@ == ix.files@[j2].path@);
            assert(j1 != j2);
        }
        assert forall|k0: int| 0 <= k0 < r@.len() implies spec_reports_live_row(
            *ix,
            #[trigger] r@[k0],
        ) by {
            assert(spec_info_matches_row(r@[k0], ix.files@[sorted@[k0].1 as int]));
        }
        if ix.files@.len() <= 1000 {
            assert forall|j0: int| 0 <= j0 < ix.files@.len() implies spec_path_reported(
                r@,
                (#[trigger] ix.files@[j0]).path@,
            ) by {
                assert(sorted@.contains(pairs@[j0]));
                let k0 = choose|k0: int| 0 <= k0 < sorted@.len() && sorted@[k0] == pairs@[j0];
                assert(sorted@[k0].1 == j0);
                assert(r@[k0].path@ == ix.files@[j0].path@);
            }
        }
        assert forall|k0: int, j0: int|
            (0 <= k0 < r@.len() && 0 <= j0 < ix.files@.len() && !spec_path_reported(
                r@,
                (#[trigger] ix.files@[j0]).path@,
            )) implies (#[trigger] r@[k0]).modified_at >= ix.files@[j0].modified_at by {
            assert(sorted@.contains(pairs@[j0]));
            let t0 = choose|t0: int| 0 <= t0 < sorted@.len() && sorted@[t0] == pairs@[j0];
            assert(sorted@[t0].1 == j0);
            if t0 < r@.len() {
                assert(r@[t0].path@ == ix.files@[j0].path@);
                assert(spec_path_reported(r@, ix.files@[j0].path@));
            }
            assert(t0 >= r@.len());
            assert(sorted@[k0].0 >= sorted@[t0].0);
            assert(r@[k0].modified_at == sorted@[k0].0);
        }
    }
    r
}

/// Pairwise-distinct values drawn from `[0, n)` number at most `n`; when
/// they number exactly `n`, every value of the range occurs.
proof fn lemma_distinct_rows_cover(rows: Seq<int>, n: int)
    requires
        n >= 0,
        forall|t: int| 0 <= t < rows.len() ==> 0 <= #[trigger] rows[t] < n,
        forall|t1: int, t2: int|
            0 <= t1 < t2 < rows.len() ==> #[trigger] rows[t1] != #[trigger] rows[t2],
    ensures
        rows.len() <= n,
        rows.len() == n ==> forall|j: int| 0 <= j < n ==> rows.contains(j),
{
    assert(rows.no_duplicates());
    rows.unique_seq_to_set();
    vstd::set_lib::lemma_int_range(0, n);
    assert forall|x: int| rows.to_set().contains(x) implies vstd::set_lib::set_int_range(
        0,
        n,
    ).contains(x) by {
        assert(rows.contains(x));
        let t = choose|t: int| 0 <= t < rows.len() && rows[t] == x;
        assert(0 <= rows[t] < n);
    }
    vstd::set_lib::lemma_len_subset(rows.to_set(), vstd::set_lib::set_int_range(0, n));
    if rows.len() == n {
        vstd::set_lib::lemma_subset_equality(rows.to_set(), vstd::set_lib::set_int_range(0, n));
        assert forall|j: int| 0 <= j < n implies rows.contains(j) by {
            assert(vstd::set_lib::set_int_range(0, n).contains(j));
            assert(rows.to_set().contains(j));
        }
    }
}

/// Full-text search against the shadow index, bounded by a ceiling of 50
/// hits: a record is returned exactly when its shadow entry matches the
/// query (up to the ceiling), name matches ranked before path-only matches.
/// A query matching nothing gives an empty result, never an error.
pub fn search_files(ix: &FileIndex, query: &str) -> (r: Vec<FileInfo>)
    requires
        ix.wf(),
    ensures
        r@.len() <= 50,
        query@.len() == 0 ==> r@.len() == 0,
        forall|i: int|
            0 <= i < r@.len() ==> spec_reports_search_hit(*ix, #[trigger] r@[i], query@),
        forall|i1: int, i2: int|
            0 <= i1 < i2 < r@.len() ==> (#[trigger] r@[i1]).path@ != (#[trigger] r@[i2]).path@,
        query@.len() > 0 && (r@.len() < 50 || ix.files@.len() <= 50) ==> (forall|j: int|
            (0 <= j < ix.files@.len() && spec_shadow_matches(
                #[trigger] ix.shadow@[j],
                query@,
            )) ==> spec_path_reported(r@, ix.shadow@[j].path@)),
        forall|i1: int, i2: int|
            (0 <= i1 < i2 < r@.len() && seq_contains_sub((#[trigger] r@[i2]).name@, query@))
                ==> seq_contains_sub((#[trigger] r@[i1]).name@, query@),
{
    let mut r: Vec<FileInfo> = Vec::new();
    let qlen = query.unicode_len();
    if qlen == 0 {
        return r;
    }
    let n = ix.files.len();
    let ghost mut rows: Seq<int> = Seq::empty();
    let mut j: usize = 0;
    while j < n && r.len() < 50
        invariant
            ix.wf(),
            n == ix.files@.len(),
            query@.len() > 0,
            j <= n,
            rows.len() == r@.len(),
            r@.len() <= 50,
            forall|t: int|
                0 <= t < rows.len() ==> 0 <= #[trigger] rows[t] < j && spec_info_matches_row(
                    r@[t],
                    ix.files@[rows[t]],
                ) && seq_contains_sub(ix.shadow@[rows[t]].name@, query@),
            forall|t1: int, t2: int| 0 <= t1 < t2 < rows.len() ==> rows[t1] < rows[t2],
            r@.len() < 50 ==> (forall|jj: int|
                (0 <= jj < j && seq_contains_sub((#[trigger] ix.shadow@[jj]).name@, query@))
                    ==> rows.contains(jj)),
        decreases n - j,
    {
        if str_contains_sub(ix.shadow[j].name.as_str(), query) {
            r.push(file_info_of_row(&ix.files[j]));
            proof {
                let prev = rows;
                rows = rows.push(j as int);
                assert forall|jj: int|
                    (0 <= jj < j + 1 && seq_contains_sub(
                        (#[trigger] ix.shadow@[jj]).name@,
                        query@,
                    )) implies rows.contains(jj) by {
                    if jj == j as int {
                        assert(rows[rows.len() - 1] == jj);
                    } else if prev.contains(jj) {
                        let t0 = choose|t0: int| 0 <= t0 < prev.len() && prev[t0] == jj;
                        assert(rows[t0] == jj);
                    }
                }
            }
        } else {
            proof {
                assert forall|jj: int|
                    (0 <= jj < j + 1 && seq_contains_sub(
                        (#[trigger] ix.shadow@[jj]).name@,
                        query@,
                    )) implies rows.contains(jj) by {
                    if jj < j as int {
                        assert(rows.contains(jj));
                    } else {
                        assert(ix.shadow@[jj].name@ == ix.shadow@[j as int].name@);
                        assert(false);
                    }
                }
            }
        }
        j = j + 1;
    }
    let ghost name_hits = rows.len() as int;
    let ghost scanned = j as int;
    proof {
        assert(rows.subrange(0, name_hits) =~= rows);
        assert(rows.subrange(name_hits, rows.len() as int) =~= Seq::<int>::empty());
    }
    let mut j2: usize = 0;
    while j2 < n && r.len() < 50
        invariant
            ix.wf(),
            n == ix.files@.len(),
            query@.len() > 0,
            j2 <= n,
            rows.len() == r@.len(),
            r@.len() <= 50,
            0 <= name_hits <= rows.len(),
            scanned <= n,
            r@.len() < 50 ==> scanned == n,
            forall|t: int|
                0 <= t < name_hits ==> 0 <= #[trigger] rows[t] < n && spec_info_matches_row(
                    r@[t],
                    ix.files@[rows[t]],
                ) && seq_contains_sub(ix.shadow@[rows[t]].name@, query@),
            forall|t: int|
                name_hits <= t < rows.len() ==> 0 <= #[trigger] rows[t] < j2
                    && spec_info_matches_row(r@[t], ix.files@[rows[t]])
                    && !seq_contains_sub(ix.shadow@[rows[t]].name@, query@)
                    && seq_contains_sub(ix.shadow@[rows[t]].path@, query@),
            forall|t1: int, t2: int|
                (0 <= t1 < t2 < rows.len() && (t2 < name_hits || name_hits <= t1)) ==> rows[t1]
                    < rows[t2],
            r@.len() < 50 ==> (forall|jj: int|
                (0 <= jj < scanned && seq_contains_sub(
                    (#[trigger] ix.shadow@[jj]).name@,
                    query@,
                )) ==> rows.subrange(0, name_hits).contains(jj)),
            r@.len() < 50 ==> (forall|jj: int|
                (0 <= jj < j2 && !seq_contains_sub((#[trigger] ix.shadow@[jj]).name@, query@)
                    && seq_contains_sub(ix.shadow@[jj].path@, query@)) ==> rows.subrange(
                    name_hits,
                    rows.len() as int,
                ).contains(jj)),
        decreases n - j2,
    {
        let name_match = str_contains_sub(ix.shadow[j2].name.as_str(), query);
        let path_match = str_contains_sub(ix.shadow[j2].path.as_str(), query);
        if !name_match && path_match {
            r.push(file_info_of_row(&ix.files[j2]));
            proof {
                let prev = rows;
                rows = rows.push(j2 as int);
                assert(rows.subrange(0, name_hits) =~= prev.subrange(0, name_hits));
                assert(rows.subrange(name_hits, rows.len() as int) =~= prev.subrange(
                    name_hits,
                    prev.len() as int,
                ).push(j2 as int));
                assert forall|jj: int|
                    (0 <= jj < j2 + 1 && !seq_contains_sub(
                        (#[trigger] ix.shadow@[jj]).name@,
                        query@,
                    ) && seq_contains_sub(ix.shadow@[jj].path@, query@)) implies rows.subrange(
                    name_hits,
                    rows.len() as int,
                ).contains(jj) by {
                    let seg = rows.subrange(name_hits, rows.len() as int);
                    if jj == j2 as int {
                        assert(seg[seg.len() - 1] == jj);
                    } else {
                        let pseg = prev.subrange(name_hits, prev.len() as int);
                        assert(pseg.contains(jj));
                        let t0 = choose|t0: int| 0 <= t0 < pseg.len() && pseg[t0] == jj;
                        assert(seg[t0] == jj);
                    }
                }
            }
        } else {
            proof {
                assert forall|jj: int|
                    (0 <= jj < j2 + 1 && !seq_contains_sub(
                        (#[trigger] ix.shadow@[jj]).name@,
                        query@,
                    ) && seq_contains_sub(ix.shadow@[jj].path@, query@)) implies rows.subrange(
                    name_hits,
                    rows.len() as int,
                ).contains(jj) by {
                    if jj < j2 as int {
                        assert(rows.subrange(name_hits, rows.len() as int).contains(jj));
                    } else {
                        assert(ix.shadow@[jj].name@ == ix.shadow@[j2 as int].name@);
                        assert(ix.shadow@[jj].path@ == ix.shadow@[j2 as int].path@);
                        assert(false);
                    }
                }
            }
        }
        j2 = j2 + 1;
    }
    proof {
        assert forall|t1: int, t2: int|
            0 <= t1 < t2 < rows.len() implies rows[t1] != rows[t2] by {
            if t2 < name_hits || name_hits <= t1 {
                assert(rows[t1] < rows[t2]);
            } else {
                assert(seq_contains_sub(ix.shadow@[rows[t1]].name@, query@));
                assert(!seq_contains_sub(ix.shadow@[rows[t2]].name@, query@));
            }
        }
        assert forall|i1: int, i2: int|
            0 <= i1 < i2 < r@.len() implies (#[trigger] r@[i1]).path@ != (#[trigger] r@[i2]).path@ by {
            assert(rows[i1] != rows[i2]);
            assert(r@[i1].path@ == ix.files@[rows[i1]].path@);
            assert(r@[i2].path@ == ix.files@[rows[i2]].path@);
        }
        assert forall|i: int| 0 <= i < r@.len() implies spec_reports_search_hit(
            *ix,
            #[trigger] r@[i],
            query@,
        ) by {
            assert(spec_info_matches_row(r@[i], ix.files@[rows[i]]));
            assert(spec_shadow_matches(ix.shadow@[rows[i]], query@));
        }
        if r@.len() < 50 {
            assert forall|jx: int|
                (0 <= jx < ix.files@.len() && spec_shadow_matches(
                    #[trigger] ix.shadow@[jx],
                    query@,
                )) implies spec_path_reported(r@, ix.shadow@[jx].path@) by {
                if seq_contains_sub(ix.shadow@[jx].name@, query@) {
                    let seg = rows.subrange(0, name_hits);
                    assert(seg.contains(jx));
                    let t0 = choose|t0: int| 0 <= t0 < seg.len() && seg[t0] == jx;
                    assert(rows[t0] == jx);
                    assert(r@[t0].path@ == ix.files@[jx].path@);
                } else {
                    let seg = rows.subrange(name_hits, rows.len() as int);
                    assert(seg.contains(jx));
                    let t0 = choose|t0: int| 0 <= t0 < seg.len() && seg[t0] == jx;
                    assert(rows[name_hits + t0] == jx);
                    assert(r@[name_hits + t0].path@ == ix.files@[jx].path@);
                }
            }
        } else if ix.files@.len() <= 50 {
            lemma_distinct_rows_cover(rows, n as int);
            assert(rows.len() == n);
            assert forall|jx: int|
                (0 <= jx < ix.files@.len() && spec_shadow_matches(
                    #[trigger] ix.shadow@[jx],
                    query@,
                )) implies spec_path_reported(r@, ix.shadow@[jx].path@) by {
                assert(rows.contains(jx));
                let t0 = choose|t0: int| 0 <= t0 < rows.len() && rows[t0] == jx;
                assert(r@[t0].path@ == ix.files@[jx].path@);
            }
        }
        assert forall|i1: int, i2: int|
            (0 <= i1 < i2 < r@.len() && seq_contains_sub(
                (#[trigger] r@[i2]).name@,
                query@,
            )) implies seq_contains_sub((#[trigger] r@[i1]).name@, query@) by {
            assert(r@[i2].name@ == ix.files@[rows[i2]].name@);
            assert(r@[i1].name@ == ix.files@[rows[i1]].name@);
            assert(ix.files@[rows[i2]].name@ == ix.shadow@[rows[i2]].name@);
            assert(ix.files@[rows[i1]].name@ == ix.shadow@[rows[i1]].name@);
            if i2 >= name_hits {
                assert(!seq_contains_sub(ix.shadow@[rows[i2]].name@, query@));
            }
        }
    }
    r
}

} // verus!
