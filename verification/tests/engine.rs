use aurora_index::extract::entry_to_file_info;
use aurora_index::index::{
    add_tag, delete_file, get_all_files, record_open, search_files, tag_file, upsert_file,
    upsert_files, update_file_metadata, FileIndex,
};
use aurora_index::records::{FileInfo, FileMetadata, FileRow};

fn sample_file(path: &str, size: u64, modified: i64) -> FileInfo {
    entry_to_file_info(path.to_string(), size, Some(500), Some(modified))
}

#[test]
fn upsert_preserves_identifier_and_open_history() {
    let mut ix = FileIndex::new();
    let first = sample_file("/docs/report.pdf", 100, 1000);
    assert!(upsert_file(&mut ix, &first));
    let id_before = ix.files[0].id;
    record_open(&mut ix, "/docs/report.pdf", 5000);
    assert_eq!(ix.files[0].open_count, 1);

    let second = sample_file("/docs/report.pdf", 250, 2000);
    assert!(upsert_file(&mut ix, &second));
    assert_eq!(ix.files.len(), 1);
    assert_eq!(ix.files[0].id, id_before);
    assert_eq!(ix.files[0].size, 250);
    assert_eq!(ix.files[0].modified_at, 2000);
    assert_eq!(ix.files[0].open_count, 1);
    assert_eq!(ix.files[0].last_opened_at, Some(5000));
    assert_eq!(ix.files[0].created_at, 500);
}

#[test]
fn shadow_index_stays_in_lockstep() {
    let mut ix = FileIndex::new();
    assert!(upsert_file(&mut ix, &sample_file("/a/one.txt", 1, 10)));
    assert_eq!(ix.shadow.len(), 1);
    assert_eq!(ix.shadow[0].path, "/a/one.txt");
    assert_eq!(ix.shadow[0].name, "one.txt");
    assert_eq!(ix.shadow[0].file_id, ix.files[0].id);

    // an update through the same path rewrites the shadow name in the same step
    let renamed = FileInfo {
        name: "renamed.txt".to_string(),
        ..sample_file("/a/one.txt", 2, 20)
    };
    assert!(upsert_file(&mut ix, &renamed));
    assert_eq!(ix.shadow.len(), 1);
    assert_eq!(ix.shadow[0].name, "renamed.txt");

    delete_file(&mut ix, "/a/one.txt");
    assert_eq!(ix.shadow.len(), 0);
    assert_eq!(ix.files.len(), 0);
}

#[test]
fn record_open_increments_and_ignores_unknown_paths() {
    let mut ix = FileIndex::new();
    assert!(upsert_file(&mut ix, &sample_file("/a/two.txt", 1, 10)));
    assert_eq!(ix.files[0].open_count, 0);
    assert_eq!(ix.files[0].last_opened_at, None);

    record_open(&mut ix, "/a/two.txt", 777);
    assert_eq!(ix.files[0].open_count, 1);
    assert_eq!(ix.files[0].last_opened_at, Some(777));

    record_open(&mut ix, "/a/two.txt", 888);
    assert_eq!(ix.files[0].open_count, 2);
    assert_eq!(ix.files[0].last_opened_at, Some(888));

    record_open(&mut ix, "/nowhere", 999);
    assert_eq!(ix.files.len(), 1);
    assert_eq!(ix.files[0].open_count, 2);
    assert_eq!(ix.files[0].last_opened_at, Some(888));
}

#[test]
fn delete_cascades_to_metadata_tags_and_shadow() {
    let mut ix = FileIndex::new();
    assert!(upsert_file(&mut ix, &sample_file("/k/keep.txt", 1, 10)));
    assert!(upsert_file(&mut ix, &sample_file("/k/gone.txt", 1, 10)));
    let keep_id = ix.files[0].id;
    let gone_id = ix.files[1].id;

    let meta = FileMetadata {
        file_id: gone_id,
        mood: Some("calm".to_string()),
        season: None,
        vibe_color: None,
        location: None,
        energy_level: None,
    };
    assert!(update_file_metadata(&mut ix, &meta, 100));
    let keep_meta = FileMetadata { file_id: keep_id, ..meta.clone() };
    assert!(update_file_metadata(&mut ix, &keep_meta, 100));

    let tag = add_tag(&mut ix, "projects", 3).unwrap();
    assert!(tag_file(&mut ix, gone_id, tag));
    assert!(tag_file(&mut ix, keep_id, tag));

    delete_file(&mut ix, "/k/gone.txt");
    assert_eq!(ix.files.len(), 1);
    assert!(ix.files.iter().all(|r| r.id != gone_id));
    assert!(ix.metadata.iter().all(|m| m.file_id != gone_id));
    assert!(ix.file_tags.iter().all(|l| l.file_id != gone_id));
    assert!(ix.shadow.iter().all(|e| e.path != "/k/gone.txt"));
    // the other file keeps its rows
    assert!(ix.metadata.iter().any(|m| m.file_id == keep_id));
    assert!(ix.file_tags.iter().any(|l| l.file_id == keep_id));
}

#[test]
fn metadata_is_upserted_per_file() {
    let mut ix = FileIndex::new();
    let absent = FileMetadata {
        file_id: 99,
        mood: None,
        season: None,
        vibe_color: None,
        location: None,
        energy_level: None,
    };
    assert!(!update_file_metadata(&mut ix, &absent, 10));
    assert_eq!(ix.metadata.len(), 0);

    assert!(upsert_file(&mut ix, &sample_file("/m/file.txt", 1, 10)));
    let id = ix.files[0].id;
    let first = FileMetadata { file_id: id, mood: Some("bright".to_string()), ..absent.clone() };
    assert!(update_file_metadata(&mut ix, &first, 10));
    assert_eq!(ix.metadata.len(), 1);
    assert_eq!(ix.metadata[0].created_at, 10);
    assert_eq!(ix.metadata[0].updated_at, 10);

    let second = FileMetadata { file_id: id, mood: Some("quiet".to_string()), ..absent };
    assert!(update_file_metadata(&mut ix, &second, 20));
    assert_eq!(ix.metadata.len(), 1);
    assert_eq!(ix.metadata[0].mood, Some("quiet".to_string()));
    assert_eq!(ix.metadata[0].created_at, 10);
    assert_eq!(ix.metadata[0].updated_at, 20);
}

#[test]
fn tags_are_deduplicated_by_name() {
    let mut ix = FileIndex::new();
    let a = add_tag(&mut ix, "urgent", 2).unwrap();
    let b = add_tag(&mut ix, "urgent", 5).unwrap();
    assert_eq!(a, b);
    assert_eq!(ix.tags.len(), 1);
    assert_eq!(ix.tags[0].color, 2);
    assert!(!tag_file(&mut ix, 1, a));
}

#[test]
fn batch_upsert_reports_saved_count() {
    let mut ix = FileIndex::new();
    let batch = vec![
        sample_file("/b/a.txt", 1, 30),
        sample_file("/b/b.txt", 2, 10),
        sample_file("/b/a.txt", 3, 40),
    ];
    let saved = upsert_files(&mut ix, &batch);
    assert_eq!(saved, 3);
    assert_eq!(ix.files.len(), 2);
    // the last record of the batch wins for its path
    let a = ix.files.iter().find(|r| r.path == "/b/a.txt").unwrap();
    assert_eq!(a.size, 3);
    assert_eq!(a.modified_at, 40);
}

#[test]
fn get_all_is_recency_ordered() {
    let mut ix = FileIndex::new();
    assert!(upsert_file(&mut ix, &sample_file("/g/old.txt", 1, 100)));
    assert!(upsert_file(&mut ix, &sample_file("/g/new.txt", 1, 300)));
    assert!(upsert_file(&mut ix, &sample_file("/g/mid.txt", 1, 200)));
    let all = get_all_files(&ix);
    assert_eq!(all.len(), 3);
    assert_eq!(all[0].path, "/g/new.txt");
    assert_eq!(all[1].path, "/g/mid.txt");
    assert_eq!(all[2].path, "/g/old.txt");
    assert_eq!(all[0].id, Some(ix.files[1].id));
}

#[test]
fn restore_row_keeps_identifier_and_count() {
    let mut ix = FileIndex::new();
    let row = FileRow {
        id: 42,
        path: "/r/back.txt".to_string(),
        name: "back.txt".to_string(),
        file_type: "txt".to_string(),
        size: 9,
        created_at: 1,
        modified_at: 2,
        last_opened_at: Some(3),
        open_count: 7,
        thumbnail_path: None,
    };
    assert!(ix.restore_row(row));
    assert_eq!(ix.get_file_count(), 1);
    assert_eq!(ix.files[0].id, 42);
    assert_eq!(ix.files[0].open_count, 7);
    assert_eq!(ix.shadow[0].file_id, 42);

    // a second row with the same identifier is refused
    let duplicate = FileRow {
        id: 42,
        path: "/r/other.txt".to_string(),
        name: "other.txt".to_string(),
        file_type: "txt".to_string(),
        size: 1,
        created_at: 1,
        modified_at: 2,
        last_opened_at: None,
        open_count: 0,
        thumbnail_path: None,
    };
    assert!(!ix.restore_row(duplicate));
    assert_eq!(ix.get_file_count(), 1);

    // new inserts continue above the restored identifier
    assert!(upsert_file(&mut ix, &sample_file("/r/fresh.txt", 1, 10)));
    assert_eq!(ix.files[1].id, 43);
}

#[test]
fn search_matches_names_and_paths() {
    let mut ix = FileIndex::new();
    assert!(upsert_file(&mut ix, &sample_file("/x/alpha.txt", 1, 10)));
    assert!(upsert_file(&mut ix, &sample_file("/alpha/beta.txt", 1, 20)));
    assert!(upsert_file(&mut ix, &sample_file("/y/gamma.txt", 1, 30)));

    let hits = search_files(&ix, "alpha");
    assert_eq!(hits.len(), 2);
    // the name match ranks before the path-only match
    assert_eq!(hits[0].path, "/x/alpha.txt");
    assert_eq!(hits[1].path, "/alpha/beta.txt");

    let none = search_files(&ix, "delta");
    assert_eq!(none.len(), 0);

    let empty = search_files(&ix, "");
    assert_eq!(empty.len(), 0);
}

#[test]
fn default_clusters_are_seeded() {
    let ix = FileIndex::new();
    assert_eq!(ix.clusters.len(), 6);
    assert_eq!(ix.clusters[0].name, "Ideas I Started");
    assert_eq!(ix.clusters[5].name, "Low Energy");
    assert_eq!(ix.clusters[3].sort_order, 4);
}
