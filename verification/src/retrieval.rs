//! The retrieval service: resolves an identifier to its stored bytes
//! and metadata framed for transport, and surfaces the identifiers
//! uploaded within a trailing twelve-hour window as addressable URLs.

use crate::errors::StoreError;
use crate::repo::{ListingEntry, Metadata, Repository};
use vstd::prelude::*;
use vstd::string::{StrSliceExecFns, StringExecFns};

verus! {

/// The trailing window, in milliseconds, that the recent listing
/// covers.
pub const RECENT_WINDOW_MILLIS: i64 = 12 * 60 * 60 * 1000;

/// The cutoff timestamp for a listing requested at `now`: twelve
/// hours earlier, clamped at the smallest representable instant.
pub open spec fn spec_cutoff(now: int) -> int {
    if now - RECENT_WINDOW_MILLIS >= i64::MIN {
        now - RECENT_WINDOW_MILLIS
    } else {
        i64::MIN as int
    }
}

/// Compute the recency cutoff for a listing requested at `now`.
pub fn recent_cutoff(now: i64) -> (c: i64)
    ensures
        c == spec_cutoff(now as int),
{
    if now >= i64::MIN + RECENT_WINDOW_MILLIS {
        now - RECENT_WINDOW_MILLIS
    } else {
        i64::MIN
    }
}

/// The identifiers among the listing rows, in listing order, whose
/// objects were written strictly after the cutoff.
pub open spec fn recent_ids(l: Seq<(Seq<char>, int)>, cutoff: int) -> Seq<Seq<char>>
    decreases l.len(),
{
    if l.len() == 0 {
        Seq::empty()
    } else if l.last().1 > cutoff {
        recent_ids(l.drop_last(), cutoff).push(l.last().0)
    } else {
        recent_ids(l.drop_last(), cutoff)
    }
}

/// The listing rows a sequence of listing entries denotes.
pub open spec fn rows_of(entries: Seq<ListingEntry>) -> Seq<(Seq<char>, int)> {
    entries.map(|i: int, e: ListingEntry| (e.id@, e.last_modified as int))
}

/// Keep, in order, the identifiers of the entries written strictly
/// after `cutoff`.
pub fn filter_recent(entries: &Vec<ListingEntry>, cutoff: i64) -> (r: Vec<String>)
    ensures
        r@.map_values(|s: String| s@) == recent_ids(rows_of(entries@), cutoff as int),
{
    let mut r: Vec<String> = Vec::new();
    let mut i: usize = 0;
    while i < entries.len()
        invariant
            i <= entries@.len(),
            r@.map_values(|s: String| s@) == recent_ids(
                rows_of(entries@.subrange(0, i as int)),
                cutoff as int,
            ),
        decreases entries@.len() - i,
    {
        let ghost pre = rows_of(entries@.subrange(0, i as int));
        let ghost post = rows_of(entries@.subrange(0, i + 1 as int));
        proof {
            assert(post.drop_last() =~= pre);
            assert(post.last() == (entries@[i as int].id@, entries@[i as int].last_modified as int));
        }
        if entries[i].last_modified > cutoff {
            let ghost r0 = r@;
            r.push(entries[i].id.clone());
            proof {
                assert(r@.map_values(|s: String| s@) =~= r0.map_values(|s: String| s@).push(
                    r@.last()@,
                ));
            }
        }
        i += 1;
    }
    proof {
        assert(entries@.subrange(0, entries@.len() as int) =~= entries@);
    }
    r
}

/// The rows that survive a best-effort backend listing: each present
/// row, in order.
pub open spec fn ok_rows(rows: Seq<Option<ListingEntry>>) -> Seq<ListingEntry>
    decreases rows.len(),
{
    if rows.len() == 0 {
        Seq::empty()
    } else if rows.last() is Some {
        ok_rows(rows.drop_last()).push(rows.last().unwrap())
    } else {
        ok_rows(rows.drop_last())
    }
}

/// How many rows of a best-effort backend listing failed.
pub open spec fn skipped_of(rows: Seq<Option<ListingEntry>>) -> int
    decreases rows.len(),
{
    if rows.len() == 0 {
        0
    } else if rows.last() is Some {
        skipped_of(rows.drop_last())
    } else {
        skipped_of(rows.drop_last()) + 1
    }
}

/// Fold a best-effort backend listing: keep every row that was read,
/// in order, and count the rows that failed, so that a degraded
/// listing is visible rather than silent data loss. A failed row is
/// handed in as `None`.
pub fn collect_listing(rows: Vec<Option<ListingEntry>>) -> (r: (Vec<ListingEntry>, usize))
    ensures
        r.0@ == ok_rows(rows@),
        r.1 == skipped_of(rows@),
        r.1 <= rows@.len(),
{
    let mut kept: Vec<ListingEntry> = Vec::new();
    let mut skipped: usize = 0;
    let mut i: usize = 0;
    while i < rows.len()
        invariant
            i <= rows@.len(),
            kept@ == ok_rows(rows@.subrange(0, i as int)),
            skipped == skipped_of(rows@.subrange(0, i as int)),
            skipped <= i,
        decreases rows@.len() - i,
    {
        proof {
            let pre = rows@.subrange(0, i as int);
            let post = rows@.subrange(0, i + 1 as int);
            assert(post.drop_last() =~= pre);
            assert(post.last() == rows@[i as int]);
        }
        match &rows[i] {
            Some(e) => {
                kept.push(ListingEntry { id: e.id.clone(), last_modified: e.last_modified });
            },
            None => {
                skipped = skipped + 1;
            },
        }
        i += 1;
    }
    proof {
        assert(rows@.subrange(0, rows@.len() as int) =~= rows@);
    }
    (kept, skipped)
}

/// The externally addressable URL of a stored object.
pub open spec fn url_of(base: Seq<char>, id: Seq<char>) -> Seq<char> {
    base + "/meme/"@ + id
}

/// Map identifiers to externally addressable URLs under `base_url`,
/// preserving order.
pub fn get_urls_from_hashes(base_url: &str, hashes: Vec<String>) -> (r: Vec<String>)
    ensures
        r@.len() == hashes@.len(),
        forall|i: int|
            0 <= i < hashes@.len() ==> (#[trigger] r@[i])@ == url_of(base_url@, hashes@[i]@),
{
    let mut r: Vec<String> = Vec::new();
    let mut i: usize = 0;
    while i < hashes.len()
        invariant
            i <= hashes@.len(),
            r@.len() == i,
            forall|k: int|
                0 <= k < i ==> (#[trigger] r@[k])@ == url_of(base_url@, hashes@[k]@),
        decreases hashes@.len() - i,
    {
        let mut u = String::from_str(base_url);
        u.append("/meme/");
        u.append(hashes[i].as_str());
        r.push(u);
        i += 1;
    }
    r
}

/// The URLs the recent listing reports: one per recent identifier, in
/// listing order.
pub open spec fn recent_urls(
    l: Seq<(Seq<char>, int)>,
    cutoff: int,
    base: Seq<char>,
) -> Seq<Seq<char>> {
    recent_ids(l, cutoff).map(|i: int, id: Seq<char>| url_of(base, id))
}

/// List the URLs of the objects written within the last twelve hours
/// relative to `now`, in listing order.
pub fn get_recent_memes(repo: &Repository, base_url: &str, now: i64) -> (r: Vec<String>)
    ensures
        r@.map_values(|s: String| s@) == recent_urls(
            repo.listing(),
            spec_cutoff(now as int),
            base_url@,
        ),
{
    let entries = repo.list();
    proof {
        assert(rows_of(entries@) =~= repo.listing());
    }
    let cutoff = recent_cutoff(now);
    let ids = filter_recent(&entries, cutoff);
    let r = get_urls_from_hashes(base_url, ids);
    proof {
        assert(r@.map_values(|s: String| s@) =~= recent_urls(
            repo.listing(),
            spec_cutoff(now as int),
            base_url@,
        ));
    }
    r
}

/// A fetched object framed for transport: the raw payload bytes, the
/// content-type header value, and a content-disposition naming the
/// original filename for a save-as download.
#[derive(Debug)]
pub struct FetchResponse {
    pub payload: Vec<u8>,
    pub content_type: String,
    pub content_disposition: String,
}

/// The content-type header a stored object is served with: its stored
/// type, or the generic binary fallback when none was recorded.
pub open spec fn effective_content_type(ct: Seq<char>) -> Seq<char> {
    if ct.len() == 0 {
        "application/octet-stream"@
    } else {
        ct
    }
}

/// The content-disposition header naming the original filename.
pub open spec fn disposition_of(filename: Seq<char>) -> Seq<char> {
    "attachment; filename=\""@ + filename + "\""@
}

/// Frame stored bytes and metadata for transport: the bytes as they
/// are, the stored content type or the binary fallback, and a
/// content-disposition naming the original filename.
pub fn frame_response(payload: Vec<u8>, metadata: &Metadata) -> (r: FetchResponse)
    ensures
        r.payload@ == payload@,
        r.content_type@ == effective_content_type(metadata.content_type@),
        r.content_disposition@ == disposition_of(metadata.filename@),
{
    let content_type = if metadata.content_type.as_str().unicode_len() == 0 {
        String::from_str("application/octet-stream")
    } else {
        metadata.content_type.clone()
    };
    let mut content_disposition = String::from_str("attachment; filename=\"");
    content_disposition.append(metadata.filename.as_str());
    content_disposition.append("\"");
    FetchResponse { payload, content_type, content_disposition }
}

/// Resolve an identifier to its stored bytes and metadata, framed for
/// transport. Succeeds exactly when an object is stored under `id`;
/// otherwise fails with `NotFound` and never fabricates a substitute.
pub fn get_meme_by_id(repo: &Repository, id: &String) -> (r: Result<FetchResponse, StoreError>)
    requires
        repo.wf(),
    ensures
        repo.contents().contains_key(id@) ==> r is Ok,
        r is Ok ==> repo.contents().contains_key(id@),
        r is Ok ==> r->Ok_0.payload@ == repo.contents()[id@].payload,
        r is Ok ==> r->Ok_0.content_type@ == effective_content_type(
            repo.contents()[id@].content_type,
        ),
        r is Ok ==> r->Ok_0.content_disposition@ == disposition_of(repo.contents()[id@].filename),
        !repo.contents().contains_key(id@) ==> r is Err && r->Err_0 == StoreError::NotFound,
{
    match repo.get(id) {
        Ok(obj) => {
            let payload = vstd::slice::slice_to_vec(obj.payload.as_slice());
            Ok(frame_response(payload, &obj.metadata))
        },
        Err(e) => Err(e),
    }
}

/// Relies on chrono's `DateTime::from_timestamp` and
/// `timestamp_millis`, applied to the system clock: the wall clock at
/// the moment of the call, as milliseconds since the Unix epoch.
/// Nothing is promised of the value, because it depends on when the
/// call happens. Total on every clock state: a reading before the
/// epoch or beyond chrono's representable range collapses to the
/// nearest sentinel instead of panicking.
#[verifier::external_body]
fn now_timestamp_millis() -> i64 {
    let since_epoch = match std::time::SystemTime::now().duration_since(std::time::UNIX_EPOCH) {
        Ok(d) => d,
        Err(_) => return i64::MIN,
    };
    match chrono::DateTime::from_timestamp(since_epoch.as_secs() as i64, since_epoch.subsec_nanos())
    {
        Some(t) => t.timestamp_millis(),
        None => i64::MAX,
    }
}

/// List the URLs of the objects written within the last twelve hours
/// relative to the moment of the call: whatever instant the clock
/// reported, the result is the recent listing for that instant.
pub fn get_recent_memes_now(repo: &Repository, base_url: &str) -> (r: Vec<String>)
    ensures
        exists|now: int|
            i64::MIN <= now <= i64::MAX && r@.map_values(|s: String| s@) == recent_urls(
                repo.listing(),
                spec_cutoff(now),
                base_url@,
            ),
{
    let now = now_timestamp_millis();
    get_recent_memes(repo, base_url, now)
}

/// Inclusion: a listing row written strictly after the cutoff has its
/// identifier surfaced by the recent listing.
pub proof fn lemma_recent_includes(l: Seq<(Seq<char>, int)>, cutoff: int, i: int)
    requires
        0 <= i < l.len(),
        l[i].1 > cutoff,
    ensures
        recent_ids(l, cutoff).contains(l[i].0),
    decreases l.len(),
{
    if i == l.len() - 1 {
        assert(recent_ids(l, cutoff).last() == l[i].0);
    } else {
        assert(l.drop_last()[i] == l[i]);
        lemma_recent_includes(l.drop_last(), cutoff, i);
        let s = recent_ids(l.drop_last(), cutoff);
        let j = choose|j: int| 0 <= j < s.len() && s[j] == l[i].0;
        if l.last().1 > cutoff {
            assert(recent_ids(l, cutoff)[j] == l[i].0);
        }
    }
}

/// An upload written at `t` is surfaced by a listing requested at any
/// `now` for which `t` lies strictly inside the trailing window.
pub proof fn lemma_fresh_upload_is_listed(
    l: Seq<(Seq<char>, int)>,
    id: Seq<char>,
    t: int,
    now: int,
)
    requires
        exists|i: int| 0 <= i < l.len() && l[i] == (id, t),
        t > spec_cutoff(now),
    ensures
        recent_ids(l, spec_cutoff(now)).contains(id),
{
    let i = choose|i: int| 0 <= i < l.len() && l[i] == (id, t);
    lemma_recent_includes(l, spec_cutoff(now), i);
}

/// Exclusion: an identifier whose every listing row lies at or before
/// the cutoff is not surfaced by the recent listing.
pub proof fn lemma_recent_excludes(l: Seq<(Seq<char>, int)>, cutoff: int, id: Seq<char>)
    requires
        forall|i: int| 0 <= i < l.len() && (#[trigger] l[i]).0 == id ==> l[i].1 <= cutoff,
    ensures
        !recent_ids(l, cutoff).contains(id),
    decreases l.len(),
{
    if l.len() > 0 {
        assert(forall|i: int|
            0 <= i < l.drop_last().len() && (#[trigger] l.drop_last()[i]).0 == id
                ==> l.drop_last()[i].1 <= cutoff);
        lemma_recent_excludes(l.drop_last(), cutoff, id);
        if l.last().1 > cutoff {
            assert(l[l.len() - 1].1 > cutoff);
            assert(l.last().0 != id);
            let s = recent_ids(l.drop_last(), cutoff);
            assert forall|j: int|
                0 <= j < recent_ids(l, cutoff).len() implies recent_ids(l, cutoff)[j] != id by {
                if j < s.len() {
                    assert(recent_ids(l, cutoff)[j] == s[j]);
                    assert(!s.contains(id));
                } else {
                    assert(recent_ids(l, cutoff)[j] == l.last().0);
                }
            }
        }
    }
}

} // verus!
