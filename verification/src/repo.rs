//! The object repository: keeps one stored object per identifier,
//! each carrying its payload, its metadata and a last-modified
//! timestamp. A put overwrites whatever was stored under the same
//! identifier; a get returns payload and metadata together or fails
//! with a not-found error; a listing surfaces every identifier with
//! its timestamp.

use crate::errors::StoreError;
use vstd::map::*;
use vstd::prelude::*;

verus! {

/// The descriptive attributes written atomically with every object:
/// the original client-supplied filename and the declared MIME type.
#[derive(Clone, Debug)]
pub struct Metadata {
    pub filename: String,
    pub content_type: String,
}

/// One stored object: payload bytes, metadata, and the moment it was
/// last written.
#[derive(Debug)]
pub struct StoredObject {
    pub payload: Vec<u8>,
    pub metadata: Metadata,
    pub last_modified: i64,
}

/// The mathematical record of one stored object.
#[verifier::ext_equal]
pub ghost struct ObjRec {
    pub payload: Seq<u8>,
    pub filename: Seq<char>,
    pub content_type: Seq<char>,
    pub last_modified: int,
}

/// The record that a stored object denotes.
pub open spec fn obj_view(o: StoredObject) -> ObjRec {
    ObjRec {
        payload: o.payload@,
        filename: o.metadata.filename@,
        content_type: o.metadata.content_type@,
        last_modified: o.last_modified as int,
    }
}

/// One row of a listing: an identifier and when its object was last
/// written.
#[derive(Debug)]
pub struct ListingEntry {
    pub id: String,
    pub last_modified: i64,
}

struct Entry {
    id: String,
    obj: StoredObject,
}

spec fn rec_of(e: Entry) -> ObjRec {
    obj_view(e.obj)
}

spec fn contents_of(s: Seq<Entry>) -> Map<Seq<char>, ObjRec>
    decreases s.len(),
{
    if s.len() == 0 {
        Map::empty()
    } else {
        contents_of(s.drop_last()).insert(s.last().id@, rec_of(s.last()))
    }
}

spec fn listing_of(s: Seq<Entry>) -> Seq<(Seq<char>, int)> {
    s.map(|i: int, e: Entry| (e.id@, e.obj.last_modified as int))
}

spec fn unique_ids(s: Seq<Entry>) -> bool {
    forall|i: int, j: int| 0 <= i < j < s.len() ==> s[i].id@ != s[j].id@
}

proof fn lemma_contents_absent(s: Seq<Entry>, k: Seq<char>)
    requires
        forall|i: int| 0 <= i < s.len() ==> s[i].id@ != k,
    ensures
        !contents_of(s).contains_key(k),
    decreases s.len(),
{
    if s.len() > 0 {
        assert(s[s.len() - 1].id@ != k);
        assert(forall|i: int| 0 <= i < s.drop_last().len() ==> s.drop_last()[i].id@ != k);
        lemma_contents_absent(s.drop_last(), k);
    }
}

proof fn lemma_contents_at(s: Seq<Entry>, i: int)
    requires
        0 <= i < s.len(),
        forall|j: int| i < j < s.len() ==> s[j].id@ != s[i].id@,
    ensures
        contents_of(s).contains_key(s[i].id@),
        contents_of(s)[s[i].id@] == rec_of(s[i]),
    decreases s.len(),
{
    if i < s.len() - 1 {
        assert(s[s.len() - 1].id@ != s[i].id@);
        assert(s.drop_last()[i] == s[i]);
        assert(forall|j: int| i < j < s.drop_last().len() ==> s.drop_last()[j].id@ != s[i].id@);
        lemma_contents_at(s.drop_last(), i);
    }
}

proof fn lemma_contents_update(s: Seq<Entry>, j: int, e: Entry)
    requires
        unique_ids(s),
        0 <= j < s.len(),
        e.id@ == s[j].id@,
    ensures
        contents_of(s.update(j, e)) == contents_of(s).insert(e.id@, rec_of(e)),
    decreases s.len(),
{
    let t = s.update(j, e);
    if j == s.len() - 1 {
        assert(t.drop_last() =~= s.drop_last());
        assert(t.last() == e);
        assert(contents_of(t) =~= contents_of(s).insert(e.id@, rec_of(e)));
    } else {
        assert(t.drop_last() =~= s.drop_last().update(j, e));
        assert(s.drop_last()[j] == s[j]);
        lemma_contents_update(s.drop_last(), j, e);
        assert(t.last() == s.last());
        assert(s.last().id@ != e.id@);
        assert(contents_of(t) == contents_of(s.drop_last()).insert(e.id@, rec_of(e)).insert(
            s.last().id@,
            rec_of(s.last()),
        ));
        assert(contents_of(s.drop_last()).insert(e.id@, rec_of(e)).insert(
            s.last().id@,
            rec_of(s.last()),
        ) =~= contents_of(s).insert(e.id@, rec_of(e)));
    }
}

/// The repository itself. Its state is observed through `contents()`,
/// the map from identifier to stored record, and `listing()`, the
/// identifier/timestamp rows the listing reports.
pub struct Repository {
    entries: Vec<Entry>,
}

impl Repository {
    /// The map from identifier to the record stored under it.
    pub closed spec fn contents(self) -> Map<Seq<char>, ObjRec> {
        contents_of(self.entries@)
    }

    /// Every identifier with the timestamp of its last write.
    pub closed spec fn listing(self) -> Seq<(Seq<char>, int)> {
        listing_of(self.entries@)
    }

    /// Well-formedness: no identifier is held twice.
    pub closed spec fn wf(self) -> bool {
        unique_ids(self.entries@)
    }

    /// An empty repository.
    pub fn new() -> (r: Repository)
        ensures
            r.wf(),
            r.contents() == Map::<Seq<char>, ObjRec>::empty(),
            r.listing() == Seq::<(Seq<char>, int)>::empty(),
    {
        let r = Repository { entries: Vec::new() };
        proof {
            assert(r.listing() =~= Seq::<(Seq<char>, int)>::empty());
        }
        r
    }

    fn find(entries: &Vec<Entry>, id: &String) -> (r: Option<usize>)
        ensures
            r is Some ==> r.unwrap() < entries@.len() && entries@[r.unwrap() as int].id@ == id@,
            r is None ==> forall|k: int| 0 <= k < entries@.len() ==> entries@[k].id@ != id@,
    {
        let mut j: usize = 0;
        while j < entries.len()
            invariant
                j <= entries@.len(),
                forall|k: int| 0 <= k < j ==> entries@[k].id@ != id@,
            decreases entries@.len() - j,
        {
            if entries[j].id == *id {
                return Some(j);
            }
            j += 1;
        }
        None
    }

    /// Write `payload` and `metadata` atomically under `id`,
    /// overwriting whatever the identifier held before. The listing
    /// afterwards carries `(id, last_modified)`; every row for another
    /// identifier is kept.
    pub fn put(&mut self, id: String, payload: Vec<u8>, metadata: Metadata, last_modified: i64)
        requires
            old(self).wf(),
        ensures
            final(self).wf(),
            final(self).contents() == old(self).contents().insert(
                id@,
                ObjRec {
                    payload: payload@,
                    filename: metadata.filename@,
                    content_type: metadata.content_type@,
                    last_modified: last_modified as int,
                },
            ),
            exists|i: int|
                0 <= i < final(self).listing().len() && final(self).listing()[i] == (
                id@,
                last_modified as int,
                ),
            forall|i: int|
                0 <= i < final(self).listing().len() ==> final(self).listing()[i] == (
                id@,
                last_modified as int,
                ) || old(self).listing().contains(#[trigger] final(self).listing()[i]),
            forall|i: int|
                0 <= i < old(self).listing().len() && old(self).listing()[i].0 != id@
                    ==> final(self).listing().contains(#[trigger] old(self).listing()[i]),
    {
        let idx = Self::find(&self.entries, &id);
        let e = Entry { id, obj: StoredObject { payload, metadata, last_modified } };
        let ghost s = self.entries@;
        match idx {
            Some(j) => {
                proof {
                    lemma_contents_update(s, j as int, e);
                }
                self.entries[j] = e;
                proof {
                    assert(self.entries@ == s.update(j as int, e));
                    assert(self.listing() =~= listing_of(s).update(
                        j as int,
                        (e.id@, e.obj.last_modified as int),
                    ));
                    assert(self.listing()[j as int] == (e.id@, last_modified as int));
                    assert forall|i: int|
                        0 <= i < self.listing().len() && i != j implies listing_of(s).contains(
                            #[trigger] self.listing()[i],
                        ) by {
                        assert(self.listing()[i] == listing_of(s)[i]);
                    }
                    assert forall|i: int|
                        0 <= i < listing_of(s).len() && listing_of(s)[i].0 != e.id@ implies self
                        .listing().contains(#[trigger] listing_of(s)[i]) by {
                        assert(listing_of(s)[j as int].0 == s[j as int].id@);
                        assert(i != j);
                        assert(self.listing()[i] == listing_of(s)[i]);
                    }
                }
            },
            None => {
                proof {
                    lemma_contents_absent(s, e.id@);
                }
                self.entries.push(e);
                proof {
                    assert(self.entries@ == s.push(e));
                    assert(self.entries@.drop_last() =~= s);
                    assert(self.contents() =~= contents_of(s).insert(e.id@, rec_of(e)));
                    assert(self.listing() =~= listing_of(s).push(
                        (e.id@, e.obj.last_modified as int),
                    ));
                    assert(self.listing()[s.len() as int] == (e.id@, last_modified as int));
                    assert forall|i: int| 0 <= i < listing_of(s).len() implies self
                        .listing().contains(#[trigger] listing_of(s)[i]) by {
                        assert(self.listing()[i] == listing_of(s)[i]);
                    }
                }
            },
        }
    }

    /// Fetch the object stored under `id`: its payload and metadata
    /// together, never one without the other. Fails with `NotFound`
    /// exactly when no object is stored under `id`.
    pub fn get(&self, id: &String) -> (r: Result<&StoredObject, StoreError>)
        requires
            self.wf(),
        ensures
            self.contents().contains_key(id@) ==> r is Ok && obj_view(*r->Ok_0)
                == self.contents()[id@],
            !self.contents().contains_key(id@) ==> r is Err && r->Err_0 == StoreError::NotFound,
    {
        match Self::find(&self.entries, id) {
            Some(j) => {
                proof {
                    lemma_contents_at(self.entries@, j as int);
                }
                Ok(&self.entries[j].obj)
            },
            None => {
                proof {
                    lemma_contents_absent(self.entries@, id@);
                }
                Err(StoreError::NotFound)
            },
        }
    }

    /// Report every stored identifier with its last-modified
    /// timestamp; recency filtering is the caller's concern.
    pub fn list(&self) -> (r: Vec<ListingEntry>)
        ensures
            r@.len() == self.listing().len(),
            forall|i: int|
                0 <= i < r@.len() ==> (#[trigger] r@[i]).id@ == self.listing()[i].0
                    && r@[i].last_modified == self.listing()[i].1,
    {
        let mut r: Vec<ListingEntry> = Vec::new();
        let mut j: usize = 0;
        while j < self.entries.len()
            invariant
                j <= self.entries@.len(),
                r@.len() == j,
                forall|i: int|
                    0 <= i < j ==> (#[trigger] r@[i]).id@ == self.listing()[i].0
                        && r@[i].last_modified == self.listing()[i].1,
            decreases self.entries@.len() - j,
        {
            r.push(
                ListingEntry {
                    id: self.entries[j].id.clone(),
                    last_modified: self.entries[j].obj.last_modified,
                },
            );
            j += 1;
        }
        r
    }
}

} // verus!
