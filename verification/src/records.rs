//! The data model: file records, tags, metadata, clusters, and the
//! shapes the index and the resurfacing selector exchange.

use vstd::prelude::*;

verus! {

/// One indexed file as it crosses the library boundary: the record a scan or
/// a change event delivers, and the record a query hands back. The identifier
/// is `None` until the index assigns one.
#[derive(Debug, Clone)]
pub struct FileInfo {
    pub id: Option<i64>,
    pub path: String,
    pub name: String,
    pub file_type: String,
    pub size: u64,
    pub created_at: i64,
    pub modified_at: i64,
    pub last_opened_at: Option<i64>,
    pub thumbnail_path: Option<String>,
    pub finder_tags: Vec<String>,
    pub finder_colors: Vec<i32>,
}

impl FileInfo {
    /// Activity time: when the file was last touched by the user, falling
    /// back to the modification time when it was never opened.
    pub open spec fn spec_activity(self) -> int {
        match self.last_opened_at {
            Some(t) => t as int,
            None => self.modified_at as int,
        }
    }
}

/// A stored row of the file index: `FileInfo` plus what only the store keeps,
/// the assigned identifier and the open counter.
#[derive(Debug)]
pub struct FileRow {
    pub id: i64,
    pub path: String,
    pub name: String,
    pub file_type: String,
    pub size: u64,
    pub created_at: i64,
    pub modified_at: i64,
    pub last_opened_at: Option<i64>,
    pub open_count: i64,
    pub thumbnail_path: Option<String>,
}

impl FileRow {
    /// Activity time of a stored row.
    pub open spec fn spec_activity(self) -> int {
        match self.last_opened_at {
            Some(t) => t as int,
            None => self.modified_at as int,
        }
    }
}

/// One entry of the full-text shadow index: only the searchable fields of a
/// row, kept in lockstep with the primary table.
#[derive(Debug)]
pub struct ShadowEntry {
    pub file_id: i64,
    pub path: String,
    pub name: String,
}

/// A named label with a color code (0 through 6).
#[derive(Debug, Clone)]
pub struct FinderTag {
    pub name: String,
    pub color: i32,
}

/// A stored tag row: a `FinderTag` with its assigned identifier.
#[derive(Debug)]
pub struct TagRow {
    pub id: i64,
    pub name: String,
    pub color: i32,
}

/// A file-to-tag association; deleting the file removes it.
#[derive(Debug)]
pub struct FileTagLink {
    pub file_id: i64,
    pub tag_id: i64,
}

/// Emotional metadata attached to one file, as callers supply it.
#[derive(Debug, Clone)]
pub struct FileMetadata {
    pub file_id: i64,
    pub mood: Option<String>,
    pub season: Option<String>,
    pub vibe_color: Option<String>,
    pub location: Option<String>,
    pub energy_level: Option<String>,
}

/// The stored metadata row: at most one per file, removed with the file.
#[derive(Debug)]
pub struct MetadataRow {
    pub file_id: i64,
    pub mood: Option<String>,
    pub season: Option<String>,
    pub vibe_color: Option<String>,
    pub location: Option<String>,
    pub energy_level: Option<String>,
    pub created_at: i64,
    pub updated_at: i64,
}

/// A named visual grouping with a color and a sort order; its lifecycle is
/// independent of file records.
#[derive(Debug)]
pub struct ClusterRow {
    pub id: i64,
    pub name: String,
    pub color: String,
    pub sort_order: i64,
}

/// One recommendation of the resurfacing selector: a record, the heuristic
/// that chose it, and a human-readable explanation.
#[derive(Debug, Clone)]
pub struct ResurfacedFile {
    pub file: FileInfo,
    pub reason: String,
    pub explanation: String,
}

/// A read-only calendar event as the organizer bridge reports it.
#[derive(Debug, Clone)]
pub struct AppleCalendarEvent {
    pub calendar: String,
    pub uid: String,
    pub title: String,
    pub start_ms: i64,
    pub end_ms: i64,
    pub all_day: bool,
    pub location: Option<String>,
}

} // verus!
