use std::time::{Duration, SystemTime, UNIX_EPOCH};

use jukebox::library::export::library_csv;
use jukebox::library::folders::{folder_prefix_on, folder_to_add, with_folder, without_folder, FolderError};
use jukebox::library::metadata::{
    art, file_stem, from_tags, join_artists, settle_title, sniff_image, Picture, TagData, TagKind,
};
use jukebox::library::query::{
    clamp, fts_query, index_letters, initial_bucket, initial_buckets, initials_for, plan_albums,
    plan_artists, plan_tracks, present, AlbumsQuery, ArtistsQuery, TracksPlan,
};
use jukebox::library::scan::{file_action, floor_millis, is_unchanged, pruned_ids, FileAction, Inspected, Scanner};
use jukebox::library::walk::{extension, is_audio_file, DirEntry, WalkStep, Walker};
use jukebox::types::TracksQuery;

#[test]
fn initials_bucket_like_library_ts() {
    for (initial, bucket) in [
        ("a", "A"),
        ("Ä", "A"),
        ("é", "E"),
        ("Ø", "#"),
        ("ß", "#"),
        ("1", "#"),
        ("日", "#"),
        ("z", "Z"),
    ] {
        assert_eq!(initial_bucket(initial), bucket, "{initial}");
    }
}

#[test]
fn audio_extensions_follow_node_extname() {
    assert!(is_audio_file("Song.MP3"));
    assert!(is_audio_file(".hidden.flac"));
    assert!(is_audio_file("a..opus"));
    assert!(!is_audio_file(".mp3"));
    assert!(!is_audio_file("old.wma"));
    assert!(!is_audio_file("cover.jpg"));
    assert!(!is_audio_file("mp3"));
}

#[test]
fn extensions_split_at_the_last_dot() {
    assert_eq!(extension("a.tar.gz").as_deref(), Some("gz"));
    assert_eq!(extension("name.").as_deref(), Some(""));
    assert_eq!(extension(".profile"), None);
    assert_eq!(extension(".."), None);
    assert_eq!(extension("plain"), None);
}

#[test]
fn fts_query_quotes_each_word_as_a_prefix() {
    assert_eq!(fts_query("daft  pu"), r#""daft"* "pu"*"#);
    assert_eq!(
        fts_query("AC/DC — Back in Black!"),
        r#""AC"* "DC"* "Back"* "in"* "Black"*"#
    );
    assert_eq!(fts_query("Äänitys 2000"), r#""Äänitys"* "2000"*"#);
    assert_eq!(fts_query(r#"" OR *"#), r#""OR"*"#, "FTS syntax can't get through");
    assert_eq!(fts_query("-- !!"), "");
}

#[test]
fn artists_join_like_music_metadata() {
    let s = |v: &[&str]| v.iter().map(|x| x.to_string()).collect::<Vec<_>>();
    assert_eq!(join_artists(&s(&[])), None);
    assert_eq!(join_artists(&s(&["A"])).as_deref(), Some("A"));
    assert_eq!(join_artists(&s(&["A", "B"])).as_deref(), Some("A & B"));
    assert_eq!(join_artists(&s(&["A", "B", "C"])).as_deref(), Some("A, B & C"));
}

fn parts(t: SystemTime) -> (bool, u64, u32) {
    match t.duration_since(UNIX_EPOCH) {
        Ok(d) => (false, d.as_secs(), d.subsec_nanos()),
        Err(e) => {
            let d = e.duration();
            (true, d.as_secs(), d.subsec_nanos())
        }
    }
}

#[test]
fn modification_times_floor_like_javascript() {
    let at = |ms: i64, extra_ns: u32| {
        if ms >= 0 {
            UNIX_EPOCH + Duration::from_millis(ms as u64) + Duration::from_nanos(extra_ns as u64)
        } else {
            UNIX_EPOCH - Duration::from_millis((-ms) as u64) + Duration::from_nanos(extra_ns as u64)
        }
    };
    let floor = |t: SystemTime| {
        let (before, secs, nanos) = parts(t);
        floor_millis(before, secs, nanos)
    };
    assert_eq!(floor(at(1_787_512_517_837, 999_999)), 1_787_512_517_837);
    assert_eq!(floor(at(0, 0)), 0);
    assert_eq!(floor(at(-1000, 0)), -1000);
    assert_eq!(floor(at(-1000, 1)), -1000, "−999.999999 ms floors to −1000");
    assert_eq!(floor(at(-1001, 500_000)), -1001);
}

fn entry(name: &str, is_dir: bool, is_file: bool) -> DirEntry {
    DirEntry { name: name.to_string(), is_dir, is_file }
}

#[test]
fn the_walk_goes_depth_first_in_byte_order() {
    let mut w = Walker::new("/m");
    assert!(matches!(w.next(), WalkStep::List(d) if d == "/m"));
    w.listed(vec![
        entry("b.mp3", false, true),
        entry("a", true, false),
        entry("c.jpg", false, true),
        entry("A.FLAC", false, true),
        entry("link.mp3", false, false),
    ]);
    assert!(matches!(w.next(), WalkStep::File(p) if p == "/m/A.FLAC"));
    assert!(matches!(w.next(), WalkStep::List(d) if d == "/m/a"));
    w.listed(vec![entry("x.ogg", false, true), entry("empty", true, false)]);
    assert!(matches!(w.next(), WalkStep::List(d) if d == "/m/a/empty"));
    w.listed(Vec::new());
    assert!(matches!(w.next(), WalkStep::File(p) if p == "/m/a/x.ogg"));
    assert!(matches!(w.next(), WalkStep::File(p) if p == "/m/b.mp3"));
    assert!(matches!(w.next(), WalkStep::Done));
    assert!(matches!(w.next(), WalkStep::Done));
}

#[test]
fn folder_prefixes_end_in_one_separator() {
    assert_eq!(folder_prefix_on("/srv/music", '/'), "/srv/music/");
    assert_eq!(folder_prefix_on("/srv//music///", '/'), "/srv/music/");
    assert_eq!(folder_prefix_on("C:/Music/", '\\'), "C:\\Music\\");
    assert_eq!(folder_prefix_on("C:\\Music", '\\'), "C:\\Music\\");
    assert_eq!(folder_prefix_on("/", '/'), "/");
}

#[test]
fn folders_are_trimmed_added_once_and_removed_exactly() {
    assert!(matches!(folder_to_add("   "), Err(FolderError::Required)));
    assert_eq!(folder_to_add("  /music  ").ok().as_deref(), Some("/music"));
    let (list, changed) = with_folder(vec!["/a".to_string()], "/b");
    assert!(changed);
    assert_eq!(list, vec!["/a".to_string(), "/b".to_string()]);
    let (same, changed) = with_folder(list.clone(), "/a");
    assert!(!changed);
    assert_eq!(same, list);
    assert_eq!(without_folder(&list, "/a"), vec!["/b".to_string()]);
    assert_eq!(without_folder(&list, "/a/"), list);
    assert_eq!(FolderError::Unreadable { reason: "permission denied".into() }.message(),
        "Folder can't be read: permission denied");
    assert_eq!(FolderError::Required.message(), "Path is required");
    assert_eq!(FolderError::NotFound.message(), "Folder does not exist");
}

fn tracks_query() -> TracksQuery {
    TracksQuery {
        search: None,
        artist: None,
        album: None,
        album_artist: None,
        no_album: None,
        limit: None,
        offset: None,
    }
}

const COLUMNS: &str = "t.id, t.title, t.artist, t.album, t.album_artist, t.genre, t.duration, t.track_no, t.disc_no, t.year, t.art_hash";

#[test]
fn track_queries_filter_and_order_like_the_library_page() {
    let mut q = tracks_query();
    q.album = Some("  Discovery ".into());
    q.album_artist = Some("Daft Punk".into());
    q.offset = Some(-5);
    let (limit, offset, plan) = plan_tracks(&q);
    assert_eq!((limit, offset), (100, 0));
    let TracksPlan::Run(plan) = plan else { panic!("a browse runs") };
    assert_eq!(
        plan.count_sql,
        "SELECT COUNT(*) AS c FROM tracks WHERE album = @album COLLATE NOCASE AND COALESCE(album_artist, artist) = @aa COLLATE NOCASE"
    );
    assert_eq!(
        plan.rows_sql,
        format!("SELECT {COLUMNS} FROM tracks t WHERE album = @album COLLATE NOCASE AND COALESCE(album_artist, artist) = @aa COLLATE NOCASE ORDER BY disc_no, track_no, title COLLATE NOCASE LIMIT @limit OFFSET @offset")
    );
    assert_eq!(
        plan.params,
        vec![("@album".to_string(), "Discovery".to_string()), ("@aa".to_string(), "Daft Punk".to_string())]
    );

    let mut q = tracks_query();
    q.limit = Some(10_000);
    let (limit, _, plan) = plan_tracks(&q);
    assert_eq!(limit, 500);
    let TracksPlan::Run(plan) = plan else { panic!("everything runs") };
    assert_eq!(plan.count_sql, "SELECT COUNT(*) AS c FROM tracks ");
    assert!(plan.params.is_empty());

    let mut q = tracks_query();
    q.search = Some("!!".into());
    assert!(matches!(plan_tracks(&q).2, TracksPlan::NoWords));

    let mut q = tracks_query();
    q.search = Some("daft pu".into());
    q.limit = Some(0);
    let (limit, _, plan) = plan_tracks(&q);
    assert_eq!(limit, 1);
    let TracksPlan::Run(plan) = plan else { panic!("a search runs") };
    assert_eq!(plan.params, vec![("@fts".to_string(), r#""daft"* "pu"*"#.to_string())]);
}

#[test]
fn the_artist_index_lists_letters_then_hash() {
    let initials: Vec<String> = ["b", "Ä", "1", "a", "Z"].iter().map(|s| s.to_string()).collect();
    let buckets = initial_buckets(&initials);
    assert_eq!(buckets, vec!["B", "A", "#", "A", "Z"]);
    assert_eq!(index_letters(&buckets), vec!["A", "B", "Z", "#"]);
    assert_eq!(initials_for(&initials, &buckets, "A"), vec!["Ä", "a"]);

    let q = ArtistsQuery { search: Some(" daft ".into()), letter: Some(" a ".into()), limit: None, offset: Some(3) };
    let (limit, offset, letters, plan) = plan_artists(&q, &initials);
    assert_eq!((limit, offset), (200, 3));
    assert_eq!(letters, vec!["A", "B", "Z", "#"]);
    let plan = plan.expect("the letter has artists");
    assert_eq!(
        plan.count_sql,
        "SELECT COUNT(*) AS c FROM (SELECT 1 FROM tracks WHERE artist IS NOT NULL AND artist <> '' AND artist LIKE @like AND substr(artist, 1, 1) IN (@c0, @c1) GROUP BY artist COLLATE NOCASE)"
    );
    assert_eq!(
        plan.params,
        vec![
            ("@like".to_string(), "%daft%".to_string()),
            ("@c0".to_string(), "Ä".to_string()),
            ("@c1".to_string(), "a".to_string()),
        ]
    );
    let q = ArtistsQuery { search: None, letter: Some("q".into()), limit: Some(5000), offset: None };
    let (limit, _, _, plan) = plan_artists(&q, &initials);
    assert_eq!(limit, 1000);
    assert!(plan.is_none());
}

#[test]
fn album_queries_match_on_album_or_its_artist() {
    let q = AlbumsQuery { search: Some("x".into()), artist: Some(" Y ".into()), limit: Some(-1), offset: None };
    let (limit, offset, plan) = plan_albums(&q);
    assert_eq!((limit, offset), (1, 0));
    assert_eq!(
        plan.count_sql,
        "SELECT COUNT(*) AS c FROM (\n           SELECT 1 FROM tracks WHERE album IS NOT NULL AND album <> '' AND (album LIKE @like OR COALESCE(album_artist, artist) LIKE @like) AND (artist = @artist COLLATE NOCASE OR album_artist = @artist COLLATE NOCASE)\n           GROUP BY album COLLATE NOCASE, COALESCE(album_artist, artist) COLLATE NOCASE)"
    );
    assert_eq!(
        plan.params,
        vec![("@like".to_string(), "%x%".to_string()), ("@artist".to_string(), "Y".to_string())]
    );
}

#[test]
fn query_parameters_are_trimmed_and_clamped() {
    assert_eq!(present(&Some("  x ".into())), Some("x"));
    assert_eq!(present(&Some(" \u{feff} ".into())), None);
    assert_eq!(present(&None), None);
    assert_eq!(clamp(None, 500, 100), 100);
    assert_eq!(clamp(Some(0), 500, 100), 1);
    assert_eq!(clamp(Some(501), 500, 100), 500);
    assert_eq!(clamp(Some(42), 500, 100), 42);
}

fn strings(v: &[&str]) -> Vec<String> {
    v.iter().map(|s| s.to_string()).collect()
}

fn tag(kind: TagKind) -> TagData {
    TagData {
        kind,
        title: Vec::new(),
        artist: Vec::new(),
        artists: Vec::new(),
        album: Vec::new(),
        album_artist: Vec::new(),
        genre: Vec::new(),
        track_number: Vec::new(),
        disc_number: Vec::new(),
        recording_date: None,
        year: None,
        pictures: Vec::new(),
    }
}

#[test]
fn tags_merge_field_by_field_by_priority() {
    let mut v1 = tag(TagKind::Id3v1);
    v1.title = strings(&["Other"]);
    v1.album = strings(&["Album One"]);
    v1.year = Some("2001".into());
    let mut v2 = tag(TagKind::Id3v2);
    v2.title = strings(&["  First ", "  Song  "]);
    v2.artists = strings(&["A", "B", "A"]);
    v2.genre = strings(&["Rock", "Pop", "Rock"]);
    v2.track_number = strings(&["03/12"]);
    v2.disc_number = strings(&["0"]);
    v2.recording_date = Some("1999-01-01".into());
    v2.pictures = vec![
        Picture { mime: None, data: Vec::new() },
        Picture { mime: Some("IMAGE/JPG".into()), data: b"abc".to_vec() },
    ];
    let other = tag(TagKind::Other);
    let m = from_tags(&vec![v1, other, v2]);
    assert_eq!(m.title, "Song");
    assert_eq!(m.artist.as_deref(), Some("A & B"));
    assert_eq!(m.album.as_deref(), Some("Album One"));
    assert_eq!(m.album_artist, None);
    assert_eq!(m.genre.as_deref(), Some("Rock, Pop"));
    assert_eq!(m.track_no, Some(3));
    assert_eq!(m.disc_no, None);
    assert_eq!(m.year, Some(1999));
    let art = m.art.expect("the JPEG");
    assert_eq!(art.mime, "image/jpeg");
    assert_eq!(art.hash, "a9993e364706816aba3e25717850c26c9cd0d89d");
    assert_eq!(art.data, b"abc".to_vec());
}

#[test]
fn vorbis_years_come_only_from_dates() {
    let mut v = tag(TagKind::VorbisComments);
    v.year = Some("1987".into());
    v.artist = strings(&[" Spaced "]);
    let m = from_tags(&vec![v]);
    assert_eq!(m.year, None);
    assert_eq!(m.artist.as_deref(), Some(" Spaced "), "only ID3 values are trimmed");
    assert_eq!(m.title, "");
}

#[test]
fn pictures_without_a_type_are_sniffed() {
    assert_eq!(sniff_image(&[0xff, 0xd8, 0xff, 0x00]), Some("image/jpeg"));
    assert_eq!(sniff_image(b"\x89PNG...."), Some("image/png"));
    assert_eq!(sniff_image(b"GIF89a"), Some("image/gif"));
    assert_eq!(sniff_image(b"BM"), Some("image/bmp"));
    assert_eq!(sniff_image(b"RIFF\0\0\0\0WEBPVP8 "), Some("image/webp"));
    assert_eq!(sniff_image(b"II*\0"), Some("image/tiff"));
    assert_eq!(sniff_image(b"MM\0*"), Some("image/tiff"));
    assert_eq!(sniff_image(b"hello"), None);
    assert!(art(&Picture { mime: None, data: b"hello".to_vec() }).is_none());
    let png = art(&Picture { mime: Some(String::new()), data: b"\x89PNG".to_vec() }).unwrap();
    assert_eq!(png.mime, "image/png");
    assert_eq!(png.hash.len(), 40);
}

#[test]
fn untitled_tracks_take_the_file_name() {
    assert_eq!(settle_title("  ", "track01".into()), "track01");
    assert_eq!(settle_title(" Title ", "track01".into()), "Title");
    assert_eq!(file_stem("/music/a/track01.mp3"), "track01");
    assert_eq!(file_stem("/music/a/.hidden"), ".hidden");
}

#[test]
fn the_csv_quotes_only_what_needs_it() {
    let row: Vec<Option<String>> = vec![
        Some("1".into()),
        Some("Say \"hi\"".into()),
        None,
        Some("a,b".into()),
        Some("plain".into()),
    ];
    let csv = library_csv(&vec![row]);
    assert_eq!(
        csv,
        "\u{feff}id,title,artist,album,albumArtist,genre,year,trackNo,discNo,duration,path,addedAt\r\n1,\"Say \"\"hi\"\"\",,\"a,b\",plain\r\n"
    );
    assert_eq!(library_csv(&Vec::new()), "\u{feff}id,title,artist,album,albumArtist,genre,year,trackNo,discNo,duration,path,addedAt\r\n");
}

#[test]
fn one_scan_runs_at_a_time() {
    let mut scanner = Scanner::new();
    assert!(!scanner.status().scanning);
    let ticket = scanner.start_at("2026-01-01T00:00:00.000Z".into()).expect("the first scan starts");
    assert!(scanner.status().scanning);
    assert!(scanner.start_at("later".into()).is_none(), "a second scan waits");
    assert_eq!(scanner.status().started_at.as_deref(), Some("2026-01-01T00:00:00.000Z"));
    scanner.batch_done(256, 10, 2);
    scanner.batch_done(3, 1, 0);
    let done = scanner.finish(ticket, Ok((4, 100)), "2026-01-01T00:01:00.000Z".into());
    assert!(!done.scanning);
    assert_eq!((done.processed, done.added, done.updated, done.removed, done.total), (259, 11, 2, 4, 100));
    assert_eq!(done.finished_at.as_deref(), Some("2026-01-01T00:01:00.000Z"));
    let again = scanner.start().unwrap().expect("a finished scan can be run again");
    let failed = scanner.finish(again, Err("disk I/O error".into()), "end".into());
    assert_eq!(failed.error.as_deref(), Some("disk I/O error"));
    assert_eq!(failed.processed, 0);
}

#[test]
fn files_are_inserted_updated_or_just_marked() {
    assert!(is_unchanged(Some(5), 5));
    assert!(!is_unchanged(Some(5), 6));
    assert!(!is_unchanged(None, 5));
    assert!(matches!(file_action(&Inspected::Unreadable, None), FileAction::Skip));
    assert!(matches!(file_action(&Inspected::Unchanged, Some((7, 5))), FileAction::MarkSeen { id: 7 }));
    assert!(matches!(file_action(&Inspected::Parsed { mtime_ms: 5 }, Some((7, 5))), FileAction::MarkSeen { id: 7 }));
    assert!(matches!(file_action(&Inspected::Parsed { mtime_ms: 6 }, Some((7, 5))), FileAction::Update { id: 7 }));
    assert!(matches!(file_action(&Inspected::Parsed { mtime_ms: 6 }, None), FileAction::Insert));
}

#[test]
fn tracks_the_walk_did_not_find_are_removed() {
    // A folder that can't be walked contributes no files, so none of its rows are seen.
    assert_eq!(pruned_ids(&vec![(1, true), (2, false), (3, true), (4, false)]), vec![2, 4]);
    assert_eq!(pruned_ids(&vec![(1, false)]), vec![1]);
    assert!(pruned_ids(&vec![(1, true)]).is_empty());
}

#[test]
fn a_trailing_slash_keeps_the_folder_prefix() {
    assert_eq!(folder_prefix_on("/srv/music/", '/'), folder_prefix_on("/srv/music", '/'));
    assert_eq!(folder_prefix_on("music//", '/'), "music/");
    assert_eq!(folder_prefix_on("/", '/'), "/");
}
