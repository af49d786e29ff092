use oxygen::clip::AudioClip;
use oxygen::db::Db;
use oxygen::ErrorKind;

fn fresh_db() -> Db {
    let (db, jobs) = Db::in_memory().unwrap();
    assert!(jobs.is_empty());
    db
}

fn clip_named(name: &str, samples: Vec<f32>, rate: u32) -> AudioClip {
    AudioClip {
        id: None,
        name: name.to_string(),
        date: format!("2024-01-01 00:00:0{} UTC", name.len() % 10),
        samples: samples.into_iter().map(f32::to_bits).collect(),
        sample_rate: rate,
    }
}

fn fake_packets(n: usize) -> Vec<Vec<u8>> {
    (0..n).map(|i| vec![i as u8; 3]).collect()
}

#[test]
fn test_record_save_list() {
    let mut db = fresh_db();
    let samples: Vec<f32> = (0..96000)
        .map(|i| (2.0 * std::f32::consts::PI * 440.0 * (i as f32) / 48000.0).sin())
        .collect();
    let mut clip = clip_named("sine", samples, 48000);
    db.save(&mut clip, 48000, 96000, &fake_packets(100)).unwrap();
    assert!(clip.id.is_some());

    let listing = db.list().unwrap();
    assert_eq!(listing.len(), 1);
    assert_eq!(listing[0].name, "sine");

    let loaded = db.load(&"sine".to_string()).unwrap().unwrap();
    assert_eq!(loaded.num_samples, 96000);
    assert_eq!(loaded.sample_rate, 48000);
}

#[test]
fn test_unique_names_second_save_fails() {
    let mut db = fresh_db();
    let mut first = clip_named("same", vec![0.1, 0.2], 48000);
    let mut second = clip_named("same", vec![0.3, 0.4, 0.5], 48000);
    db.save(&mut first, 48000, 2, &fake_packets(1)).unwrap();
    let err = db.save(&mut second, 48000, 3, &fake_packets(1)).unwrap_err();
    assert_eq!(err, ErrorKind::Conflict);
    assert!(second.id.is_none());
    assert_eq!(db.list().unwrap().len(), 1);
}

#[test]
fn test_id_assigned_and_stable_across_reloads() {
    let mut db = fresh_db();
    let mut clip = clip_named("keeper", vec![0.1, 0.2], 48000);
    assert!(clip.id.is_none());
    db.save(&mut clip, 48000, 2, &fake_packets(1)).unwrap();
    let id = clip.id.expect("save assigns an id");

    let first = db.load(&"keeper".to_string()).unwrap().unwrap();
    let second = db.load(&"keeper".to_string()).unwrap().unwrap();
    assert_eq!(first.id, id);
    assert_eq!(second.id, id);

    // Saving again under the same id keeps the id.
    db.save(&mut clip, 48000, 2, &fake_packets(1)).unwrap();
    assert_eq!(clip.id, Some(id));
    let third = db.load_by_id(id).unwrap().unwrap();
    assert_eq!(third.id, id);
}

#[test]
fn test_rename_conflict_leaves_state_unchanged() {
    let mut db = fresh_db();
    let mut a = clip_named("a", vec![0.1], 48000);
    let mut b = clip_named("b", vec![0.2], 48000);
    db.save(&mut a, 48000, 1, &fake_packets(1)).unwrap();
    db.save(&mut b, 48000, 1, &fake_packets(1)).unwrap();

    let err = db.rename(&"a".to_string(), &"b".to_string()).unwrap_err();
    assert_eq!(err, ErrorKind::Conflict);

    let mut names: Vec<String> = db.list().unwrap().into_iter().map(|m| m.name).collect();
    names.sort();
    assert_eq!(names, vec!["a".to_string(), "b".to_string()]);
}

#[test]
fn test_rename_missing_clip_not_found() {
    let mut db = fresh_db();
    let err = db.rename(&"ghost".to_string(), &"anything".to_string()).unwrap_err();
    assert_eq!(err, ErrorKind::NotFound);
}

#[test]
fn test_rename_changes_name() {
    let mut db = fresh_db();
    let mut a = clip_named("old", vec![0.1], 48000);
    db.save(&mut a, 48000, 1, &fake_packets(1)).unwrap();
    db.rename(&"old".to_string(), &"new".to_string()).unwrap();
    assert!(db.load(&"old".to_string()).unwrap().is_none());
    let loaded = db.load(&"new".to_string()).unwrap().unwrap();
    assert_eq!(loaded.name, "new");
}

#[test]
fn test_delete_is_idempotent() {
    let mut db = fresh_db();
    let mut a = clip_named("gone", vec![0.1], 48000);
    db.save(&mut a, 48000, 1, &fake_packets(1)).unwrap();
    db.delete(&"gone".to_string()).unwrap();
    assert!(db.load(&"gone".to_string()).unwrap().is_none());
    // Deleting an absent name still succeeds.
    db.delete(&"gone".to_string()).unwrap();
    db.delete_by_id(424242).unwrap();
}

#[test]
fn test_load_missing_is_none() {
    let db = fresh_db();
    assert!(db.load(&"nobody".to_string()).unwrap().is_none());
    assert!(db.load_by_id(99).unwrap().is_none());
}

#[test]
fn test_load_returns_saved_packets() {
    let mut db = fresh_db();
    let mut a = clip_named("c", vec![0.1], 48000);
    db.save(&mut a, 48000, 1, &fake_packets(2)).unwrap();
    let loaded = db.load(&"c".to_string()).unwrap().unwrap();
    assert_eq!(loaded.packets.len(), 2);
}

#[test]
fn test_migration_preserves_rows() {
    // Build a version-1 store holding uncompressed v0 payloads.
    let conn = rusqlite::Connection::open_in_memory().unwrap();
    conn.execute(
        "CREATE TABLE IF NOT EXISTS clips (
          id INTEGER PRIMARY KEY,
          name TEXT NOT NULL UNIQUE,
          date TEXT NOT NULL,
          sample_rate INTEGER NOT NULL,
          samples BLOB NOT NULL
        );",
        (),
    )
    .unwrap();
    conn.pragma_update(None, "user_version", 1).unwrap();

    let n_clips = 3usize;
    for i in 0..n_clips {
        let mut blob: Vec<u8> = Vec::new();
        for k in 0..(100 + i) {
            blob.extend_from_slice(&((k as f32) / 100.0).to_be_bytes());
        }
        conn.execute(
            "INSERT INTO clips (id, name, date, sample_rate, samples) VALUES (?1, ?2, ?3, ?4, ?5)",
            (
                (i + 1) as i64,
                format!("clip-{}", i),
                format!("2023-05-0{} 10:00:00 UTC", i + 1),
                48000u32,
                blob.as_slice(),
            ),
        )
        .unwrap();
    }

    let (mut db, jobs) = Db::from_connection(conn).unwrap();
    assert_eq!(jobs.len(), n_clips);
    for job in &jobs {
        let i = (job.id - 1) as usize;
        assert_eq!(job.name, format!("clip-{}", i));
        assert_eq!(job.date, format!("2023-05-0{} 10:00:00 UTC", i + 1));
        assert_eq!(job.sample_rate, 48000);
        assert_eq!(job.samples.len(), 100 + i);
        // Commit the re-coded row back, keeping the declared count.
        db.migrate_row(job, 48000, job.samples.len() as u32, &fake_packets(1)).unwrap();
    }

    let listing = db.list().unwrap();
    assert_eq!(listing.len(), n_clips);
    for i in 0..n_clips {
        let loaded = db.load(&format!("clip-{}", i)).unwrap().unwrap();
        assert_eq!(loaded.id, i + 1);
        assert_eq!(loaded.date, format!("2023-05-0{} 10:00:00 UTC", i + 1));
        assert_eq!(loaded.num_samples as usize, 100 + i);
    }
}

#[test]
fn test_reopen_migrated_store_keeps_rows() {
    // A store already at the current version is attached without jobs.
    let conn = rusqlite::Connection::open_in_memory().unwrap();
    {
        let (mut db, jobs) = Db::from_connection(conn).unwrap();
        assert!(jobs.is_empty());
        let mut a = clip_named("kept", vec![0.5, 0.5], 48000);
        db.save(&mut a, 48000, 2, &fake_packets(1)).unwrap();
        assert_eq!(db.list().unwrap().len(), 1);
    }
}

#[test]
fn test_list_ordered_by_date() {
    let mut db = fresh_db();
    let mut late = AudioClip {
        id: None,
        name: "late".to_string(),
        date: "2025-01-01 00:00:00 UTC".to_string(),
        samples: vec![0.0f32.to_bits()],
        sample_rate: 48000,
    };
    let mut early = AudioClip {
        id: None,
        name: "early".to_string(),
        date: "2020-01-01 00:00:00 UTC".to_string(),
        samples: vec![0.0f32.to_bits()],
        sample_rate: 48000,
    };
    db.save(&mut late, 48000, 1, &fake_packets(1)).unwrap();
    db.save(&mut early, 48000, 1, &fake_packets(1)).unwrap();
    let listing = db.list().unwrap();
    assert_eq!(listing[0].name, "early");
    assert_eq!(listing[1].name, "late");
}
