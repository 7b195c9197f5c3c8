use memestore::crypto::{get_truncated_sha256, HashOutputSize};
use memestore::errors::StoreError;
use memestore::repo::{ListingEntry, Metadata, Repository};
use memestore::retrieval::{
    collect_listing, filter_recent, get_meme_by_id, get_recent_memes, get_recent_memes_now,
    get_urls_from_hashes, recent_cutoff, RECENT_WINDOW_MILLIS,
};
use memestore::upload::{upload, UploadPart};

const EMPTY_SHA256: &str = "e3b0c44298fc1c149afbf4c8996fb92427ae41e4649b934ca495991b7852b855";

fn part(filename: &str, content_type: &str, payload: &[u8]) -> UploadPart {
    UploadPart {
        filename: Some(String::from(filename)),
        content_type: Some(String::from(content_type)),
        payload: payload.to_vec(),
    }
}

#[test]
fn identifier_is_deterministic() {
    let a = get_truncated_sha256(b"some payload", HashOutputSize::Short32);
    let b = get_truncated_sha256(b"some payload", HashOutputSize::Short32);
    assert_eq!(a, b);
}

#[test]
fn distinct_payloads_distinct_full_identifiers() {
    let a = get_truncated_sha256(b"payload one", HashOutputSize::Full);
    let b = get_truncated_sha256(b"payload two", HashOutputSize::Full);
    assert_ne!(a, b);
}

#[test]
fn empty_payload_known_digest() {
    assert_eq!(get_truncated_sha256(b"", HashOutputSize::Full), EMPTY_SHA256);
    assert_eq!(
        get_truncated_sha256(b"", HashOutputSize::Half),
        &EMPTY_SHA256[32..]
    );
    assert_eq!(
        get_truncated_sha256(b"", HashOutputSize::Short32),
        &EMPTY_SHA256[48..]
    );
    assert_eq!(
        get_truncated_sha256(b"", HashOutputSize::Short16),
        &EMPTY_SHA256[56..]
    );
}

#[test]
fn known_digest_abc() {
    assert_eq!(
        get_truncated_sha256(b"abc", HashOutputSize::Full),
        "ba7816bf8f01cfea414140de5dae2223b00361a396177a9cb410ff61f20015ad"
    );
    assert_eq!(
        get_truncated_sha256(b"abc", HashOutputSize::Short32),
        "b410ff61f20015ad"
    );
}

#[test]
fn shorter_identifiers_are_suffixes_of_the_full_one() {
    let full = get_truncated_sha256(b"suffix check", HashOutputSize::Full);
    assert_eq!(
        get_truncated_sha256(b"suffix check", HashOutputSize::Half),
        &full[32..]
    );
    assert_eq!(
        get_truncated_sha256(b"suffix check", HashOutputSize::Short32),
        &full[48..]
    );
    assert_eq!(
        get_truncated_sha256(b"suffix check", HashOutputSize::Short16),
        &full[56..]
    );
}

#[test]
fn upload_then_fetch_round_trip() {
    let mut repo = Repository::new();
    let payload = b"picture bytes".to_vec();
    let r = upload(
        &mut repo,
        vec![part("f.png", "image/png", &payload)],
        HashOutputSize::Short32,
        1_000,
    );
    let ids = r.expect("upload should succeed");
    assert_eq!(ids.len(), 1);
    assert_eq!(ids[0], get_truncated_sha256(&payload, HashOutputSize::Short32));

    let fetched = get_meme_by_id(&repo, &ids[0]).expect("stored object must be found");
    assert_eq!(fetched.payload, payload);
    assert_eq!(fetched.content_type, "image/png");
    assert_eq!(fetched.content_disposition, "attachment; filename=\"f.png\"");
}

#[test]
fn uploading_twice_is_idempotent() {
    let mut repo = Repository::new();
    let payload = b"same content".to_vec();
    let first = upload(
        &mut repo,
        vec![part("a.bin", "application/octet-stream", &payload)],
        HashOutputSize::Short32,
        1_000,
    )
    .expect("first upload should succeed");
    let second = upload(
        &mut repo,
        vec![part("a.bin", "application/octet-stream", &payload)],
        HashOutputSize::Short32,
        2_000,
    )
    .expect("second upload should succeed");
    assert_eq!(first, second);

    let fetched = get_meme_by_id(&repo, &first[0]).expect("object must still be there");
    assert_eq!(fetched.payload, payload);
}

#[test]
fn fetching_unknown_identifier_is_not_found() {
    let repo = Repository::new();
    let r = get_meme_by_id(&repo, &String::from("0000000000000000"));
    assert_eq!(r.unwrap_err(), StoreError::NotFound);
}

#[test]
fn listing_includes_fresh_upload_and_drops_old_ones() {
    let mut repo = Repository::new();
    let now: i64 = 1_000_000;
    let ids = upload(
        &mut repo,
        vec![part("f.png", "image/png", b"fresh")],
        HashOutputSize::Short32,
        now,
    )
    .expect("upload should succeed");

    let urls = get_recent_memes(&repo, "https://memes.example", now);
    let expected = format!("https://memes.example/meme/{}", ids[0]);
    assert_eq!(urls, vec![expected]);

    let much_later = now + RECENT_WINDOW_MILLIS;
    let urls = get_recent_memes(&repo, "https://memes.example", much_later);
    assert!(urls.is_empty());
}

#[test]
fn empty_payload_upload_succeeds() {
    let mut repo = Repository::new();
    let ids = upload(
        &mut repo,
        vec![part("empty.txt", "text/plain", b"")],
        HashOutputSize::Short32,
        7,
    )
    .expect("empty payload is accepted");
    assert_eq!(ids[0], get_truncated_sha256(b"", HashOutputSize::Short32));

    let fetched = get_meme_by_id(&repo, &ids[0]).expect("empty object must be found");
    assert_eq!(fetched.payload, Vec::<u8>::new());
}

#[test]
fn two_files_keep_submission_order() {
    let mut repo = Repository::new();
    let ids = upload(
        &mut repo,
        vec![
            part("a.txt", "text/plain", b"first"),
            part("b.txt", "text/plain", b"second"),
        ],
        HashOutputSize::Short32,
        1,
    )
    .expect("upload should succeed");
    assert_eq!(ids.len(), 2);
    assert_eq!(ids[0], get_truncated_sha256(b"first", HashOutputSize::Short32));
    assert_eq!(ids[1], get_truncated_sha256(b"second", HashOutputSize::Short32));
}

#[test]
fn two_identical_files_yield_the_same_identifier_twice() {
    let mut repo = Repository::new();
    let ids = upload(
        &mut repo,
        vec![
            part("a.txt", "text/plain", b"same"),
            part("b.txt", "text/plain", b"same"),
        ],
        HashOutputSize::Short32,
        1,
    )
    .expect("upload should succeed");
    assert_eq!(ids.len(), 2);
    assert_eq!(ids[0], ids[1]);
}

#[test]
fn part_without_filename_is_bad_request() {
    let mut repo = Repository::new();
    let bad = UploadPart {
        filename: None,
        content_type: Some(String::from("image/png")),
        payload: b"x".to_vec(),
    };
    let r = upload(&mut repo, vec![bad], HashOutputSize::Short32, 1);
    assert_eq!(r.unwrap_err(), StoreError::BadRequest);
}

#[test]
fn part_without_content_type_is_bad_request() {
    let mut repo = Repository::new();
    let bad = UploadPart {
        filename: Some(String::from("f.png")),
        content_type: None,
        payload: b"x".to_vec(),
    };
    let r = upload(&mut repo, vec![bad], HashOutputSize::Short32, 1);
    assert_eq!(r.unwrap_err(), StoreError::BadRequest);
}

#[test]
fn failure_partway_keeps_earlier_parts() {
    let mut repo = Repository::new();
    let bad = UploadPart {
        filename: None,
        content_type: None,
        payload: b"bad".to_vec(),
    };
    let r = upload(
        &mut repo,
        vec![part("ok.txt", "text/plain", b"kept"), bad],
        HashOutputSize::Short32,
        1,
    );
    assert_eq!(r.unwrap_err(), StoreError::BadRequest);

    let kept = get_truncated_sha256(b"kept", HashOutputSize::Short32);
    let fetched = get_meme_by_id(&repo, &kept).expect("earlier part stays persisted");
    assert_eq!(fetched.payload, b"kept".to_vec());
}

#[test]
fn urls_are_built_from_the_base_url() {
    let urls = get_urls_from_hashes(
        "https://memes.example",
        vec![String::from("abc"), String::from("def")],
    );
    assert_eq!(
        urls,
        vec![
            String::from("https://memes.example/meme/abc"),
            String::from("https://memes.example/meme/def"),
        ]
    );
}

#[test]
fn empty_content_type_falls_back_to_octet_stream() {
    let mut repo = Repository::new();
    let ids = upload(
        &mut repo,
        vec![part("f.bin", "", b"raw")],
        HashOutputSize::Short32,
        1,
    )
    .expect("upload should succeed");
    let fetched = get_meme_by_id(&repo, &ids[0]).expect("object must be found");
    assert_eq!(fetched.content_type, "application/octet-stream");
}

#[test]
fn direct_repository_round_trip() {
    let mut repo = Repository::new();
    repo.put(
        String::from("key1"),
        b"bytes".to_vec(),
        Metadata {
            filename: String::from("n.txt"),
            content_type: String::from("text/plain"),
        },
        42,
    );
    let obj = repo.get(&String::from("key1")).expect("present");
    assert_eq!(obj.payload, b"bytes".to_vec());
    assert_eq!(obj.metadata.filename, "n.txt");
    assert_eq!(obj.metadata.content_type, "text/plain");
    assert_eq!(obj.last_modified, 42);

    let listing = repo.list();
    assert_eq!(listing.len(), 1);
    assert_eq!(listing[0].id, "key1");
    assert_eq!(listing[0].last_modified, 42);
}

#[test]
fn recency_cutoff_clamps_at_the_smallest_instant() {
    assert_eq!(recent_cutoff(i64::MIN), i64::MIN);
    assert_eq!(recent_cutoff(50_000_000), 50_000_000 - RECENT_WINDOW_MILLIS);
}

#[test]
fn filter_recent_keeps_only_rows_after_the_cutoff() {
    let mut repo = Repository::new();
    repo.put(
        String::from("old"),
        b"o".to_vec(),
        Metadata {
            filename: String::from("o"),
            content_type: String::from("t"),
        },
        10,
    );
    repo.put(
        String::from("new"),
        b"n".to_vec(),
        Metadata {
            filename: String::from("n"),
            content_type: String::from("t"),
        },
        100,
    );
    let kept = filter_recent(&repo.list(), 10);
    assert_eq!(kept, vec![String::from("new")]);
}

#[test]
fn error_messages_are_generic() {
    assert_eq!(StoreError::BadRequest.message(), "malformed upload part");
    assert_eq!(StoreError::NotFound.message(), "object not found");
    assert_eq!(
        StoreError::Repository(String::from("connection reset")).message(),
        "storage backend error"
    );
    assert_eq!(
        StoreError::TemplateUnavailable.message(),
        "result page unavailable"
    );
}

#[test]
fn degraded_listing_reports_the_skipped_count() {
    let rows = vec![
        Some(ListingEntry {
            id: String::from("aaa"),
            last_modified: 5,
        }),
        None,
        Some(ListingEntry {
            id: String::from("bbb"),
            last_modified: 9,
        }),
        None,
    ];
    let (kept, skipped) = collect_listing(rows);
    assert_eq!(skipped, 2);
    assert_eq!(kept.len(), 2);
    assert_eq!(kept[0].id, "aaa");
    assert_eq!(kept[0].last_modified, 5);
    assert_eq!(kept[1].id, "bbb");
    assert_eq!(kept[1].last_modified, 9);
}

#[test]
fn clock_based_listing_honours_the_window() {
    let mut repo = Repository::new();
    repo.put(
        String::from("always_recent"),
        b"a".to_vec(),
        Metadata {
            filename: String::from("a"),
            content_type: String::from("t"),
        },
        i64::MAX,
    );
    repo.put(
        String::from("never_recent"),
        b"b".to_vec(),
        Metadata {
            filename: String::from("b"),
            content_type: String::from("t"),
        },
        i64::MIN,
    );
    let urls = get_recent_memes_now(&repo, "https://memes.example");
    assert_eq!(urls, vec![String::from("https://memes.example/meme/always_recent")]);
}
