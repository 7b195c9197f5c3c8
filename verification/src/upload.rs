//! The upload pipeline: consumes the parts of a multipart request in
//! arrival order, derives each part's content-addressed identifier,
//! and persists payload and metadata through the repository, handing
//! back the identifiers in the same order.

use crate::crypto::{get_truncated_sha256, identifier_of, HashOutputSize};
use crate::errors::StoreError;
use crate::repo::{Metadata, ObjRec, Repository};
use vstd::prelude::*;

verus! {

/// One part of a multipart upload, as the client submitted it: the
/// declared filename and content type (either may be missing in a
/// malformed request) and the full payload bytes.
pub struct UploadPart {
    pub filename: Option<String>,
    pub content_type: Option<String>,
    pub payload: Vec<u8>,
}

/// A part is well-formed when it declares both a filename and a
/// content type; anything less is rejected, never defaulted.
pub open spec fn part_ok(p: UploadPart) -> bool {
    p.filename is Some && p.content_type is Some
}

/// The record a well-formed part is stored as when written at `now`.
pub open spec fn part_rec(p: UploadPart, now: int) -> ObjRec {
    ObjRec {
        payload: p.payload@,
        filename: p.filename.unwrap()@,
        content_type: p.content_type.unwrap()@,
        last_modified: now,
    }
}

/// The repository contents after storing every part of `parts`, in
/// order, each under its content-derived identifier.
pub open spec fn store_parts(
    m: Map<Seq<char>, ObjRec>,
    parts: Seq<UploadPart>,
    size: HashOutputSize,
    now: int,
) -> Map<Seq<char>, ObjRec>
    decreases parts.len(),
{
    if parts.len() == 0 {
        m
    } else {
        store_parts(m, parts.drop_last(), size, now).insert(
            identifier_of(parts.last().payload@, size),
            part_rec(parts.last(), now),
        )
    }
}

/// Process the parts of one upload request, in the order the client
/// sent them: derive each part's identifier, store its payload and
/// metadata, and return the identifiers in submission order. A part
/// without a filename or content type stops the request with
/// `BadRequest`; parts before it stay persisted, parts after it are
/// untouched. The empty payload is accepted like any other.
pub fn upload(
    repo: &mut Repository,
    parts: Vec<UploadPart>,
    size: HashOutputSize,
    now: i64,
) -> (r: Result<Vec<String>, StoreError>)
    requires
        old(repo).wf(),
    ensures
        final(repo).wf(),
        r is Ok <==> (forall|i: int| 0 <= i < parts@.len() ==> part_ok(#[trigger] parts@[i])),
        r is Ok ==> r->Ok_0@.len() == parts@.len(),
        r is Ok ==> (forall|i: int|
            0 <= i < parts@.len() ==> (#[trigger] r->Ok_0@[i])@ == identifier_of(
                parts@[i].payload@,
                size,
            )),
        r is Ok ==> final(repo).contents() == store_parts(
            old(repo).contents(),
            parts@,
            size,
            now as int,
        ),
        r is Ok ==> (forall|i: int|
            0 <= i < parts@.len() ==> exists|l: int|
                0 <= l < final(repo).listing().len() && final(repo).listing()[l] == (
                identifier_of((#[trigger] parts@[i]).payload@, size),
                now as int,
                )),
        r is Err ==> r->Err_0 == StoreError::BadRequest,
        r is Err ==> (exists|j: int|
            0 <= j < parts@.len() && !part_ok(#[trigger] parts@[j]) && (forall|k: int|
                0 <= k < j ==> part_ok(#[trigger] parts@[k])) && final(repo).contents()
                == store_parts(old(repo).contents(), parts@.subrange(0, j), size, now as int)),
{
    let ghost m0 = old(repo).contents();
    let mut ids: Vec<String> = Vec::new();
    let n = parts.len();
    let mut i: usize = 0;
    while i < n
        invariant
            repo.wf(),
            i <= n,
            n == parts@.len(),
            ids@.len() == i,
            m0 == old(repo).contents(),
            forall|k: int| 0 <= k < i ==> part_ok(#[trigger] parts@[k]),
            forall|k: int|
                0 <= k < i ==> (#[trigger] ids@[k])@ == identifier_of(parts@[k].payload@, size),
            repo.contents() == store_parts(m0, parts@.subrange(0, i as int), size, now as int),
            forall|k: int|
                0 <= k < i ==> exists|l: int|
                    0 <= l < repo.listing().len() && repo.listing()[l] == (
                    identifier_of((#[trigger] parts@[k]).payload@, size),
                    now as int,
                    ),
        decreases n - i,
    {
        let filename = match &parts[i].filename {
            Some(f) => f.clone(),
            None => {
                return Err(StoreError::BadRequest);
            },
        };
        let content_type = match &parts[i].content_type {
            Some(c) => c.clone(),
            None => {
                return Err(StoreError::BadRequest);
            },
        };
        let id = get_truncated_sha256(parts[i].payload.as_slice(), size);
        let payload = vstd::slice::slice_to_vec(parts[i].payload.as_slice());
        let ghost pre_listing = repo.listing();
        repo.put(id.clone(), payload, Metadata { filename, content_type }, now);
        proof {
            let pre = parts@.subrange(0, i as int);
            let post = parts@.subrange(0, i + 1 as int);
            assert(post.drop_last() =~= pre);
            assert(post.last() == parts@[i as int]);
            assert(part_rec(parts@[i as int], now as int) =~= ObjRec {
                payload: parts@[i as int].payload@,
                filename: parts@[i as int].filename.unwrap()@,
                content_type: parts@[i as int].content_type.unwrap()@,
                last_modified: now as int,
            });
            assert(repo.contents() == store_parts(m0, post, size, now as int));
            assert forall|k: int| 0 <= k < i + 1 implies exists|l: int|
                0 <= l < repo.listing().len() && repo.listing()[l] == (
                identifier_of((#[trigger] parts@[k]).payload@, size),
                now as int,
                ) by {
                let idk = identifier_of(parts@[k].payload@, size);
                if k == i {
                    assert(exists|l: int|
                        0 <= l < repo.listing().len() && repo.listing()[l] == (
                        id@,
                        now as int,
                        ));
                } else {
                    let l0 = choose|l: int|
                        0 <= l < pre_listing.len() && pre_listing[l] == (idk, now as int);
                    if idk == id@ {
                        assert(exists|l: int|
                            0 <= l < repo.listing().len() && repo.listing()[l] == (
                            id@,
                            now as int,
                            ));
                    } else {
                        assert(pre_listing[l0].0 != id@);
                        assert(repo.listing().contains(pre_listing[l0]));
                    }
                }
            }
        }
        ids.push(id);
        i += 1;
    }
    proof {
        assert(parts@.subrange(0, n as int) =~= parts@);
    }
    Ok(ids)
}

/// Round trip: after uploading one well-formed part, the repository
/// holds, under the part's content-derived identifier, exactly the
/// part's payload bytes, its declared content type, and its filename.
pub proof fn lemma_upload_round_trip(
    m: Map<Seq<char>, ObjRec>,
    part: UploadPart,
    size: HashOutputSize,
    now: int,
)
    requires
        part_ok(part),
    ensures
        store_parts(m, seq![part], size, now).contains_key(identifier_of(part.payload@, size)),
        store_parts(m, seq![part], size, now)[identifier_of(part.payload@, size)] == part_rec(
            part,
            now,
        ),
{
    assert(seq![part].drop_last() =~= Seq::<UploadPart>::empty());
    assert(seq![part].last() == part);
}

/// Idempotence: uploading the same part twice derives the same
/// identifier both times, and after the second upload that identifier
/// still holds the part's payload unchanged.
pub proof fn lemma_upload_idempotent(
    m: Map<Seq<char>, ObjRec>,
    part: UploadPart,
    size: HashOutputSize,
    t1: int,
    t2: int,
)
    requires
        part_ok(part),
    ensures
        store_parts(store_parts(m, seq![part], size, t1), seq![part], size, t2).contains_key(
            identifier_of(part.payload@, size),
        ),
        store_parts(store_parts(m, seq![part], size, t1), seq![part], size, t2)[identifier_of(
            part.payload@,
            size,
        )].payload == part.payload@,
        store_parts(store_parts(m, seq![part], size, t1), seq![part], size, t2)[identifier_of(
            part.payload@,
            size,
        )] == part_rec(part, t2),
{
    lemma_upload_round_trip(m, part, size, t1);
    lemma_upload_round_trip(store_parts(m, seq![part], size, t1), part, size, t2);
}

} // verus!
