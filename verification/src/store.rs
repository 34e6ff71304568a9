//! The store: the metadata index coupled with the stored bytes, and the
//! per-command execution the connection handler drives.
//!
//! The index is authoritative: an object exists exactly when its row
//! does. The store's invariant couples the two halves — every object row
//! has its bytes, of exactly the recorded size — so a committed command
//! never leaves a row pointing at nothing. Orphan bytes without a row are
//! tolerated (they are a leak to reconcile, not a protocol error), which
//! is why the coupling is stated in that direction only.

use vstd::prelude::*;

use crate::bytes::clone_bytes;
use crate::codec::decode_request;
use crate::codec::encode_list_response;
use crate::codec::spec_decode;
use crate::codec::spec_list_bytes;
use crate::codec::ListEntry;
use crate::codec::Request;
use crate::codec::RequestView;
use crate::index::has_ns;
use crate::index::has_object;
use crate::index::inv;
use crate::index::lemma_insert_effects;
use crate::index::ns_at;
use crate::index::object_of;
use crate::index::spec_insert;
use crate::index::MetaIndex;
use crate::index::MetaIndexView;
use crate::index::NamespaceRec;
use crate::index::NamespaceRecView;
use crate::index::ObjectView;
use crate::query::spec_listing;
use crate::Error;
use crate::Limits;

verus! {

/// The bytes of one stored object, keyed by the object's id.
pub struct FileEntry {
    pub id: u64,
    pub data: Vec<u8>,
}

/// The mathematical shape of a stored file.
#[verifier::ext_equal]
pub struct FileEntryView {
    pub id: u64,
    pub data: Seq<u8>,
}

impl View for FileEntry {
    type V = FileEntryView;

    open spec fn view(&self) -> FileEntryView {
        FileEntryView { id: self.id, data: self.data@ }
    }
}

/// The whole store: the metadata index and the stored bytes.
pub struct Store {
    pub index: MetaIndex,
    pub files: Vec<FileEntry>,
}

/// The mathematical shape of the store.
#[verifier::ext_equal]
pub struct StoreView {
    pub index: MetaIndexView,
    pub files: Seq<FileEntryView>,
}

impl View for Store {
    type V = StoreView;

    open spec fn view(&self) -> StoreView {
        StoreView {
            index: self.index@,
            files: self.files@.map_values(|f: FileEntry| f@),
        }
    }
}

impl Store {
    /// A fresh, empty store.
    pub fn new() -> (r: Self)
        ensures
            store_inv(r@),
            r@.index.namespaces == Seq::<NamespaceRecView>::empty(),
            r@.index.next_id == 0,
            r@.files == Seq::<FileEntryView>::empty(),
    {
        let r = Store { index: MetaIndex::new(), files: Vec::new() };
        proof {
            assert(r@.files =~= Seq::<FileEntryView>::empty());
        }
        r
    }
}

/// Whether a file with id `id` is stored.
pub open spec fn has_file(files: Seq<FileEntryView>, id: u64) -> bool {
    exists|f: int| 0 <= f < files.len() && (#[trigger] files[f].id) == id
}

/// The position of the file with id `id` (meaningful when `has_file`).
pub open spec fn file_at(files: Seq<FileEntryView>, id: u64) -> int {
    choose|f: int| 0 <= f < files.len() && (#[trigger] files[f].id) == id
}

/// The bytes of the file with id `id` (meaningful when `has_file`).
pub open spec fn file_data(files: Seq<FileEntryView>, id: u64) -> Seq<u8> {
    files[file_at(files, id)].data
}

/// File ids are pairwise distinct.
pub open spec fn files_unique(files: Seq<FileEntryView>) -> bool {
    forall|x: int, y: int|
        0 <= x < y < files.len() ==> (#[trigger] files[x].id) != (#[trigger] files[y].id)
}

/// The store invariant: the index invariant holds, file ids are unique
/// and were assigned below the index's counter, and every object row has
/// its bytes, of exactly the recorded size.
pub open spec fn store_inv(s: StoreView) -> bool {
    &&& inv(s.index)
    &&& files_unique(s.files)
    &&& forall|f: int| 0 <= f < s.files.len() ==> (#[trigger] s.files[f].id) < s.index.next_id
    &&& forall|i: int, a: int|
        0 <= i < s.index.namespaces.len() && 0 <= a < s.index.namespaces[i].objects.len()
            ==> has_file(s.files, (#[trigger] s.index.namespaces[i].objects[a]).id) && file_data(
            s.files,
            s.index.namespaces[i].objects[a].id,
        ).len() == s.index.namespaces[i].objects[a].size
}

/// With unique ids, a position holding `id` is the one `file_at` picks.
pub proof fn lemma_file_at_unique(files: Seq<FileEntryView>, id: u64, f: int)
    requires
        files_unique(files),
        0 <= f < files.len(),
        files[f].id == id,
    ensures
        has_file(files, id),
        file_at(files, id) == f,
{
    assert(has_file(files, id));
    let k = file_at(files, id);
    if k != f {
        if k < f {
            assert(files[k].id != files[f].id);
        } else {
            assert(files[f].id != files[k].id);
        }
    }
}

/// What a download of `(ns, path)` returns: the stored bytes of the
/// object's file, or nothing when the object (or, under corruption, its
/// file) is absent.
pub open spec fn spec_download(s: StoreView, ns: Seq<u8>, path: Seq<u8>) -> Option<Seq<u8>> {
    if !has_object(s.index, ns, path) {
        None
    } else {
        let o = object_of(s.index, ns, path);
        if has_file(s.files, o.id) {
            Some(file_data(s.files, o.id))
        } else {
            None
        }
    }
}

/// The store after uploading `data` to `(ns, path)`, with the object
/// placed at `physical` and stamped `created`, or `None` if the metadata
/// insert is refused.
pub open spec fn spec_upload(
    s: StoreView,
    ns: Seq<u8>,
    path: Seq<u8>,
    data: Seq<u8>,
    physical: Seq<u8>,
    created: Seq<u8>,
) -> Option<StoreView> {
    match spec_insert(s.index, ns, path, physical, data.len() as u64, created) {
        None => None,
        Some((v2, id)) => Some(
            StoreView { index: v2, files: s.files.push(FileEntryView { id, data }) },
        ),
    }
}

/// Uploading preserves the store invariant, and downloading the key right
/// after returns exactly the uploaded bytes.
pub proof fn lemma_upload_effects(
    s: StoreView,
    ns: Seq<u8>,
    path: Seq<u8>,
    data: Seq<u8>,
    physical: Seq<u8>,
    created: Seq<u8>,
)
    requires
        store_inv(s),
        data.len() <= u64::MAX,
        spec_upload(s, ns, path, data, physical, created) is Some,
    ensures
        ({
            let s2 = spec_upload(s, ns, path, data, physical, created).unwrap();
            &&& store_inv(s2)
            &&& s2.index == spec_insert(
                s.index,
                ns,
                path,
                physical,
                data.len() as u64,
                created,
            ).unwrap().0
            &&& spec_download(s2, ns, path) == Some(data)
        }),
{
    let size = data.len() as u64;
    let (v2, id) = spec_insert(s.index, ns, path, physical, size, created).unwrap();
    let s2 = spec_upload(s, ns, path, data, physical, created).unwrap();
    lemma_insert_effects(s.index, ns, path, physical, size, created);
    let entry = FileEntryView { id, data };
    assert(s2.files == s.files.push(entry));
    assert(forall|f: int| 0 <= f < s.files.len() ==> (#[trigger] s2.files[f]) == s.files[f]);
    assert(s2.files[s.files.len() as int] == entry);
    // The new id is fresh, so uniqueness and the id bound carry over.
    assert(files_unique(s2.files));
    // Every old row keeps its old witness; the new row's bytes are `data`.
    assert forall|i: int, a: int|
        0 <= i < s2.index.namespaces.len() && 0 <= a < s2.index.namespaces[i].objects.len()
        implies has_file(s2.files, (#[trigger] s2.index.namespaces[i].objects[a]).id) && file_data(
        s2.files,
        s2.index.namespaces[i].objects[a].id,
    ).len() == s2.index.namespaces[i].objects[a].size by {
        let o = s2.index.namespaces[i].objects[a];
        if o.id == id {
            lemma_file_at_unique(s2.files, id, s.files.len() as int);
            // The only row with the fresh id is the new object itself.
            assert(o.size == size);
        } else {
            assert(0 <= i < s.index.namespaces.len() && 0 <= a < s.index.namespaces[i].objects.len()
                && s.index.namespaces[i].objects[a] == o) by {
                if has_ns(s.index, ns) {
                    let k = ns_at(s.index, ns);
                    if i == k {
                        assert(s2.index.namespaces[i].objects[a]
                            == s.index.namespaces[i].objects.push(
                            ObjectView {
                                id,
                                namespace_id: ns,
                                path,
                                physical_location: physical,
                                size,
                                created_at: created,
                            },
                        )[a]);
                    }
                }
            }
            let f0 = file_at(s.files, o.id);
            assert(has_file(s.files, o.id));
            assert(0 <= f0 < s.files.len() && s.files[f0].id == o.id);
            lemma_file_at_unique(s2.files, o.id, f0);
        }
    }
    // The fresh object's download is the uploaded data.
    let o = object_of(s2.index, ns, path);
    assert(o.id == id);
    lemma_file_at_unique(s2.files, id, s.files.len() as int);
    assert(file_data(s2.files, id) == data);
}

/// The store after deleting the object at `(ns, path)`, together with the
/// removed row, or `None` if no such object exists. The row goes in the
/// same step as its aggregate adjustment; the bytes go after.
pub open spec fn spec_delete_store(s: StoreView, ns: Seq<u8>, path: Seq<u8>) -> Option<
    (StoreView, ObjectView),
> {
    match crate::index::spec_delete(s.index, ns, path) {
        None => None,
        Some((v2, o)) => Some(
            (
                StoreView {
                    index: v2,
                    files: if has_file(s.files, o.id) {
                        s.files.remove(file_at(s.files, o.id))
                    } else {
                        s.files
                    },
                },
                o,
            ),
        ),
    }
}

/// Deleting an object preserves the store invariant; the freed count is
/// the object's size, the namespace's aggregate drops by exactly that,
/// and the key then downloads as absent.
pub proof fn lemma_delete_store_effects(s: StoreView, ns: Seq<u8>, path: Seq<u8>)
    requires
        store_inv(s),
        has_object(s.index, ns, path),
    ensures
        ({
            let (s2, o) = spec_delete_store(s, ns, path).unwrap();
            &&& store_inv(s2)
            &&& o == object_of(s.index, ns, path)
            &&& s2.index == crate::index::spec_delete(s.index, ns, path).unwrap().0
            &&& crate::index::total_of(s2.index, ns) == crate::index::total_of(s.index, ns)
                - o.size
            &&& !has_object(s2.index, ns, path)
            &&& spec_download(s2, ns, path) is None
        }),
{
    crate::index::lemma_delete_effects(s.index, ns, path);
    let (s2, o) = spec_delete_store(s, ns, path).unwrap();
    let k = ns_at(s.index, ns);
    let rec = s.index.namespaces[k];
    let a0 = crate::index::obj_at(rec, path);
    assert(o == rec.objects[a0]);
    assert(has_file(s.files, o.id));
    let fr = file_at(s.files, o.id);
    assert(0 <= fr < s.files.len() && s.files[fr].id == o.id);
    assert(s2.files == s.files.remove(fr));
    // Every kept position maps to its source position.
    assert(forall|x: int|
        0 <= x < s2.files.len() ==> (#[trigger] s2.files[x]) == (if x < fr {
            s.files[x]
        } else {
            s.files[x + 1]
        }));
    assert forall|x: int, y: int| 0 <= x < y < s2.files.len() implies (#[trigger] s2.files[x].id)
        != (#[trigger] s2.files[y].id) by {
        let x0 = if x < fr {
            x
        } else {
            x + 1
        };
        let y0 = if y < fr {
            y
        } else {
            y + 1
        };
        assert(s.files[x0].id != s.files[y0].id);
    }
    // Every remaining row keeps its bytes: its id differs from the removed
    // object's, so its witness survives the removal.
    assert forall|i: int, c: int|
        0 <= i < s2.index.namespaces.len() && 0 <= c < s2.index.namespaces[i].objects.len()
        implies has_file(s2.files, (#[trigger] s2.index.namespaces[i].objects[c]).id) && file_data(
        s2.files,
        s2.index.namespaces[i].objects[c].id,
    ).len() == s2.index.namespaces[i].objects[c].size by {
        let ob = s2.index.namespaces[i].objects[c];
        let c0 = if i == k && c >= a0 {
            c + 1
        } else {
            c
        };
        assert(ob == s.index.namespaces[i].objects[c0]);
        assert(ob.id != o.id);
        assert(has_file(s.files, ob.id));
        let f0 = file_at(s.files, ob.id);
        assert(0 <= f0 < s.files.len() && s.files[f0].id == ob.id);
        assert(f0 != fr);
        let f1 = if f0 < fr {
            f0
        } else {
            f0 - 1
        };
        assert(s2.files[f1] == s.files[f0]);
        lemma_file_at_unique(s2.files, ob.id, f1);
    }
}

/// Whether some object of record `rec` carries id `id`.
pub open spec fn rec_has_id(rec: NamespaceRecView, id: u64) -> bool {
    exists|a: int| 0 <= a < rec.objects.len() && (#[trigger] rec.objects[a].id) == id
}

/// The files that survive a namespace deletion: those whose id belongs to
/// no object of the removed record, in order.
pub open spec fn keep_files(files: Seq<FileEntryView>, rec: NamespaceRecView) -> Seq<FileEntryView>
    decreases files.len(),
{
    if files.len() == 0 {
        Seq::empty()
    } else {
        let rest = keep_files(files.drop_last(), rec);
        if rec_has_id(rec, files.last().id) {
            rest
        } else {
            rest.push(files.last())
        }
    }
}

/// Every kept entry is one of the original entries, and its id belongs to
/// no object of the removed record.
pub proof fn lemma_keep_files_member(files: Seq<FileEntryView>, rec: NamespaceRecView, g: int)
    requires
        0 <= g < keep_files(files, rec).len(),
    ensures
        exists|f: int|
            0 <= f < files.len() && (#[trigger] files[f]) == keep_files(files, rec)[g],
        !rec_has_id(rec, keep_files(files, rec)[g].id),
    decreases files.len(),
{
    let keep = keep_files(files, rec);
    let fd = files.drop_last();
    let k1 = keep_files(fd, rec);
    assert(forall|f: int| 0 <= f < fd.len() ==> (#[trigger] fd[f]) == files[f]);
    if rec_has_id(rec, files.last().id) {
        lemma_keep_files_member(fd, rec, g);
        let f = choose|f: int| 0 <= f < fd.len() && (#[trigger] fd[f]) == k1[g];
        assert(files[f] == keep[g]);
    } else {
        if g < k1.len() {
            assert(keep[g] == k1[g]);
            lemma_keep_files_member(fd, rec, g);
            let f = choose|f: int| 0 <= f < fd.len() && (#[trigger] fd[f]) == k1[g];
            assert(files[f] == keep[g]);
        } else {
            assert(keep[g] == files[files.len() - 1]);
        }
    }
}

/// Every original entry whose id belongs to no object of the removed
/// record survives, unchanged.
pub proof fn lemma_keep_files_kept(files: Seq<FileEntryView>, rec: NamespaceRecView, f: int)
    requires
        0 <= f < files.len(),
        !rec_has_id(rec, files[f].id),
    ensures
        exists|g: int|
            0 <= g < keep_files(files, rec).len() && (#[trigger] keep_files(files, rec)[g])
                == files[f],
    decreases files.len(),
{
    let keep = keep_files(files, rec);
    let fd = files.drop_last();
    let k1 = keep_files(fd, rec);
    if f == files.len() - 1 {
        assert(keep[k1.len() as int] == files[f]);
    } else {
        assert(fd[f] == files[f]);
        lemma_keep_files_kept(fd, rec, f);
        let g = choose|g: int| 0 <= g < k1.len() && (#[trigger] k1[g]) == fd[f];
        assert(keep[g] == files[f]);
    }
}

/// Kept ids stay pairwise distinct.
pub proof fn lemma_keep_files_unique(files: Seq<FileEntryView>, rec: NamespaceRecView)
    requires
        files_unique(files),
    ensures
        files_unique(keep_files(files, rec)),
    decreases files.len(),
{
    let keep = keep_files(files, rec);
    if files.len() == 0 {
    } else {
        let fd = files.drop_last();
        let k1 = keep_files(fd, rec);
        assert(forall|f: int| 0 <= f < fd.len() ==> (#[trigger] fd[f]) == files[f]);
        assert(files_unique(fd));
        lemma_keep_files_unique(fd, rec);
        if rec_has_id(rec, files.last().id) {
        } else {
            assert forall|x: int, y: int| 0 <= x < y < keep.len() implies (
            #[trigger] keep[x].id) != (#[trigger] keep[y].id) by {
                if y == k1.len() {
                    lemma_keep_files_member(fd, rec, x);
                    let f = choose|f: int| 0 <= f < fd.len() && (#[trigger] fd[f]) == k1[x];
                    assert(files[f].id != files[files.len() - 1].id);
                } else {
                    assert(k1[x].id != k1[y].id);
                }
            }
        }
    }
}

/// The store after deleting namespace `ns` and everything beneath it,
/// together with the freed byte count, or `None` if no such namespace
/// exists.
pub open spec fn spec_delete_ns_store(s: StoreView, ns: Seq<u8>) -> Option<(StoreView, u64)> {
    match crate::index::spec_delete_ns(s.index, ns) {
        None => None,
        Some((v2, rec)) => Some(
            (StoreView { index: v2, files: keep_files(s.files, rec) }, rec.total_size),
        ),
    }
}

/// Deleting a namespace preserves the store invariant; the freed count is
/// exactly the sum of the removed objects' sizes, and the namespace is
/// gone afterwards.
pub proof fn lemma_delete_ns_store_effects(s: StoreView, ns: Seq<u8>)
    requires
        store_inv(s),
        has_ns(s.index, ns),
    ensures
        ({
            let (s2, freed) = spec_delete_ns_store(s, ns).unwrap();
            let rec = s.index.namespaces[ns_at(s.index, ns)];
            &&& store_inv(s2)
            &&& s2.index == crate::index::spec_delete_ns(s.index, ns).unwrap().0
            &&& freed == rec.total_size
            &&& freed == crate::index::sum_sizes(rec.objects)
            &&& !has_ns(s2.index, ns)
        }),
{
    crate::index::lemma_delete_ns_effects(s.index, ns);
    let (s2, freed) = spec_delete_ns_store(s, ns).unwrap();
    let k = ns_at(s.index, ns);
    let rec = s.index.namespaces[k];
    let keep = s2.files;
    assert(keep == keep_files(s.files, rec));
    lemma_keep_files_unique(s.files, rec);
    // Kept ids stay below the counter: each kept entry is an original one.
    assert forall|f: int| 0 <= f < keep.len() implies (#[trigger] keep[f].id)
        < s2.index.next_id by {
        lemma_keep_files_member(s.files, rec, f);
        let f0 = choose|f0: int| 0 <= f0 < s.files.len() && (#[trigger] s.files[f0]) == keep[f];
        assert(s.files[f0].id < s.index.next_id);
    }
    // Every remaining row keeps its bytes: its id belongs to no object of
    // the removed record, so its entry is kept.
    assert forall|i: int, c: int|
        0 <= i < s2.index.namespaces.len() && 0 <= c < s2.index.namespaces[i].objects.len()
        implies has_file(s2.files, (#[trigger] s2.index.namespaces[i].objects[c]).id) && file_data(
        s2.files,
        s2.index.namespaces[i].objects[c].id,
    ).len() == s2.index.namespaces[i].objects[c].size by {
        let ob = s2.index.namespaces[i].objects[c];
        let i0 = if i < k {
            i
        } else {
            i + 1
        };
        assert(ob == s.index.namespaces[i0].objects[c]);
        assert(i0 != k);
        assert(!rec_has_id(rec, ob.id)) by {
            if rec_has_id(rec, ob.id) {
                let a0 = choose|a0: int|
                    0 <= a0 < rec.objects.len() && (#[trigger] rec.objects[a0].id) == ob.id;
                let other = s.index.namespaces[i0];
                assert(s.index.namespaces[k].objects[a0].id != other.objects[c].id);
            }
        }
        assert(has_file(s.files, ob.id));
        let f0 = file_at(s.files, ob.id);
        assert(0 <= f0 < s.files.len() && s.files[f0].id == ob.id);
        lemma_keep_files_kept(s.files, rec, f0);
        let g = choose|g: int| 0 <= g < keep.len() && (#[trigger] keep[g]) == s.files[f0];
        lemma_file_at_unique(keep, ob.id, g);
    }
}

/// Finds the position of the file with id `id`.
fn find_file(files: &Vec<FileEntry>, id: u64) -> (r: Option<usize>)
    ensures
        match r {
            Some(f) => f < files@.len() && files@.map_values(|e: FileEntry| e@)[f as int].id == id,
            None => !has_file(files@.map_values(|e: FileEntry| e@), id),
        },
{
    let ghost m = files@.map_values(|e: FileEntry| e@);
    let mut f: usize = 0;
    while f < files.len()
        invariant
            f <= files@.len(),
            m == files@.map_values(|e: FileEntry| e@),
            forall|j: int| 0 <= j < f ==> (#[trigger] m[j].id) != id,
        decreases files@.len() - f,
    {
        proof {
            assert(m[f as int] == files@[f as int]@);
        }
        if files[f].id == id {
            return Some(f);
        }
        f = f + 1;
    }
    None
}

/// The per-connection command executor: one instance of each command's
/// defined procedure, run against the store.
pub struct RequestHandler;

impl RequestHandler {
    /// Uploads `data` under `(namespace, path)`. The placement engine
    /// computes a fresh physical location and the `created_at` text from
    /// one clock instant, the bytes are stored, and the metadata row is
    /// committed with the namespace's `total_size` adjusted in the same
    /// step; a refused insert leaves the store unchanged. A taken key is a
    /// conflict; an aggregate or id counter leaving its range fails the
    /// command.
    pub fn handle_upload(
        store: &mut Store,
        namespace: Vec<u8>,
        path: Vec<u8>,
        data: Vec<u8>,
    ) -> (r: Result<(), Error>)
        requires
            store_inv(old(store)@),
            namespace@.len() == 16,
        ensures
            store_inv(final(store)@),
            match r {
                Ok(()) => exists|t: crate::placement::TimeParts|
                    #[trigger] spec_upload(
                        old(store)@,
                        namespace@,
                        path@,
                        data@,
                        crate::placement::spec_physical(namespace@, t),
                        crate::placement::iso_of(t),
                    ) == Some(final(store)@),
                Err(e) => {
                    &&& final(store)@ == old(store)@
                    &&& forall|physical: Seq<u8>, created: Seq<u8>|
                        #[trigger] spec_upload(
                            old(store)@,
                            namespace@,
                            path@,
                            data@,
                            physical,
                            created,
                        ) is None
                    &&& e == (if has_object(old(store)@.index, namespace@, path@) {
                        Error::Conflict
                    } else {
                        Error::IndexFailure
                    })
                },
            },
    {
        let ghost s0 = store@;
        let ghost nsv = namespace@;
        let ghost pathv = path@;
        let ghost datav = data@;
        let size: u64 = data.len() as u64;
        let (created, parts) = crate::placement::now_parts();
        let physical = crate::placement::physical_location(namespace.as_slice(), &parts);
        let ghost physv = physical@;
        let ghost createdv = created@;
        match store.index.insert_metadata(namespace, path, physical, size, created) {
            Ok(id) => {
                store.files.push(FileEntry { id, data });
                proof {
                    assert(store@.files =~= s0.files.push(FileEntryView { id, data: datav }));
                    assert(spec_upload(s0, nsv, pathv, datav, physv, createdv) == Some(store@));
                    lemma_upload_effects(s0, nsv, pathv, datav, physv, createdv);
                    // The location and the timestamp both come from the
                    // one instant `parts`.
                    assert(physv == crate::placement::spec_physical(nsv, parts));
                    assert(createdv == crate::placement::iso_of(parts));
                    assert(spec_upload(
                        s0,
                        nsv,
                        pathv,
                        datav,
                        crate::placement::spec_physical(nsv, parts),
                        crate::placement::iso_of(parts),
                    ) == Some(store@));
                }
                Ok(())
            },
            Err(e) => {
                proof {
                    assert(store@ =~= s0);
                    assert forall|physical2: Seq<u8>, created2: Seq<u8>|
                        #[trigger] spec_upload(
                            s0,
                            nsv,
                            pathv,
                            datav,
                            physical2,
                            created2,
                        ) is None by {
                        assert(spec_insert(s0.index, nsv, pathv, physv, size, createdv) is None);
                        // The refusal conditions do not depend on the
                        // physical location or the timestamp.
                        assert(spec_insert(
                            s0.index,
                            nsv,
                            pathv,
                            physical2,
                            size,
                            created2,
                        ) is None);
                    }
                }
                Err(e)
            },
        }
    }

    /// Downloads the object at `(namespace, path)`: its bytes, verbatim.
    /// An absent object is `NotFound`; under the store invariant its bytes
    /// are always present once the row is.
    pub fn handle_download(store: &Store, namespace: &[u8], path: &[u8]) -> (r: Result<
        Vec<u8>,
        Error,
    >)
        requires
            store_inv(store@),
        ensures
            match r {
                Ok(d) => spec_download(store@, namespace@, path@) == Some(d@),
                Err(e) => {
                    &&& e == Error::NotFound
                    &&& !has_object(store@.index, namespace@, path@)
                    &&& spec_download(store@, namespace@, path@) is None
                },
            },
    {
        let obj = match store.index.get_metadata(namespace, path) {
            Some(obj) => obj,
            None => {
                return Err(Error::NotFound);
            },
        };
        match find_file(&store.files, obj.id) {
            Some(f) => {
                proof {
                    lemma_file_at_unique(store@.files, obj.id, f as int);
                    assert(store@.files[f as int] == store.files@[f as int]@);
                }
                Ok(clone_bytes(&store.files[f].data))
            },
            None => {
                // Unreachable under the store invariant: the row's bytes
                // exist; the coupling names the witness.
                proof {
                    let v = store@.index;
                    let i = ns_at(v, namespace@);
                    let a = crate::index::obj_at(v.namespaces[i], path@);
                    assert(has_file(store@.files, v.namespaces[i].objects[a].id));
                    assert(false);
                }
                Err(Error::Internal)
            },
        }
    }

    /// Settles a download from its two halves: the metadata row's presence
    /// and whatever the byte store handed back. No row is `NotFound`; a
    /// row whose bytes are gone is corruption, `Internal`, distinct from
    /// absence; otherwise the bytes are returned verbatim.
    pub fn resolve_download(row_exists: bool, bytes: Option<Vec<u8>>) -> (r: Result<Vec<u8>, Error>)
        ensures
            match r {
                Ok(d) => row_exists && (bytes matches Some(b) && d == b),
                Err(e) => (if !row_exists {
                    e == Error::NotFound
                } else {
                    e == Error::Internal && bytes is None
                }),
            },
    {
        if !row_exists {
            return Err(Error::NotFound);
        }
        match bytes {
            Some(d) => Ok(d),
            None => Err(Error::Internal),
        }
    }

    /// Deletes the object at `(namespace, path)`: the row goes, with the
    /// namespace's aggregate adjusted in the same step, then the bytes.
    /// Returns the freed byte count.
    pub fn handle_delete(store: &mut Store, namespace: &[u8], path: &[u8]) -> (r: Result<
        u64,
        Error,
    >)
        requires
            store_inv(old(store)@),
        ensures
            store_inv(final(store)@),
            match r {
                Ok(freed) => {
                    &&& has_object(old(store)@.index, namespace@, path@)
                    &&& spec_delete_store(old(store)@, namespace@, path@) == Some(
                        (final(store)@, object_of(old(store)@.index, namespace@, path@)),
                    )
                    &&& freed == object_of(old(store)@.index, namespace@, path@).size
                },
                Err(e) => {
                    &&& e == Error::NotFound
                    &&& !has_object(old(store)@.index, namespace@, path@)
                    &&& final(store)@ == old(store)@
                },
            },
    {
        let ghost s0 = store@;
        let obj = match store.index.delete_metadata(namespace, path) {
            Ok(obj) => obj,
            Err(e) => {
                proof {
                    assert(store@ =~= s0);
                }
                return Err(Error::NotFound);
            },
        };
        proof {
            lemma_delete_store_effects(s0, namespace@, path@);
        }
        match find_file(&store.files, obj.id) {
            Some(f) => {
                proof {
                    lemma_file_at_unique(s0.files, obj@.id, f as int);
                }
                store.files.remove(f);
                proof {
                    assert(store@.files =~= s0.files.remove(f as int));
                    assert(spec_delete_store(s0, namespace@, path@) == Some((store@, obj@)));
                }
                Ok(obj.size)
            },
            None => {
                // Unreachable under the store invariant: the removed row
                // had its bytes.
                proof {
                    let v = s0.index;
                    let i = ns_at(v, namespace@);
                    let a = crate::index::obj_at(v.namespaces[i], path@);
                    assert(has_file(s0.files, v.namespaces[i].objects[a].id));
                    assert(false);
                }
                Err(Error::Internal)
            },
        }
    }

    /// Deletes a whole namespace: the record and every object row go in
    /// one step, then the objects' bytes. Returns the freed byte count —
    /// the sum of the deleted objects' sizes.
    pub fn handle_delete_namespace(store: &mut Store, namespace: &[u8]) -> (r: Result<u64, Error>)
        requires
            store_inv(old(store)@),
        ensures
            store_inv(final(store)@),
            match r {
                Ok(freed) => {
                    &&& has_ns(old(store)@.index, namespace@)
                    &&& spec_delete_ns_store(old(store)@, namespace@) == Some(
                        (final(store)@, freed),
                    )
                },
                Err(e) => {
                    &&& e == Error::NotFound
                    &&& !has_ns(old(store)@.index, namespace@)
                    &&& final(store)@ == old(store)@
                },
            },
    {
        let ghost s0 = store@;
        let rec = match store.index.delete_namespace(namespace) {
            Ok(rec) => rec,
            Err(e) => {
                proof {
                    assert(store@ =~= s0);
                }
                return Err(Error::NotFound);
            },
        };
        let ghost recv = rec@;
        let mut kept: Vec<FileEntry> = Vec::new();
        let mut f: usize = 0;
        while f < store.files.len()
            invariant
                f <= store.files@.len(),
                recv == rec@,
                store.files@.map_values(|e: FileEntry| e@) == s0.files,
                kept@.map_values(|e: FileEntry| e@) == keep_files(
                    s0.files.take(f as int),
                    recv,
                ),
            decreases store.files@.len() - f,
        {
            proof {
                assert(s0.files[f as int] == store.files@[f as int]@);
                assert(s0.files.take(f + 1).drop_last() =~= s0.files.take(f as int));
                assert(s0.files.take(f + 1).last() == s0.files[f as int]);
            }
            let id = store.files[f].id;
            proof {
                assert(id == s0.files[f as int].id);
            }
            if !rec_contains_id(&rec, id) {
                let data = clone_bytes(&store.files[f].data);
                kept.push(FileEntry { id, data });
                proof {
                    assert(!rec_has_id(recv, s0.files[f as int].id));
                    assert(keep_files(s0.files.take(f + 1), recv) == keep_files(
                        s0.files.take(f as int),
                        recv,
                    ).push(s0.files[f as int]));
                    assert(kept@.map_values(|e: FileEntry| e@) =~= keep_files(
                        s0.files.take(f as int),
                        recv,
                    ).push(s0.files[f as int]));
                }
            } else {
                proof {
                    assert(rec_has_id(recv, s0.files[f as int].id));
                    assert(keep_files(s0.files.take(f + 1), recv) == keep_files(
                        s0.files.take(f as int),
                        recv,
                    ));
                }
            }
            f = f + 1;
        }
        store.files = kept;
        proof {
            assert(s0.files.take(s0.files.len() as int) =~= s0.files);
            assert(store@.files == keep_files(s0.files, recv));
            assert(spec_delete_ns_store(s0, namespace@) == Some((store@, recv.total_size)));
            lemma_delete_ns_store_effects(s0, namespace@);
        }
        Ok(rec.total_size)
    }

    /// Creates a namespace under a freshly generated 16-byte identifier
    /// and returns it. The one generated identifier is committed or, if it
    /// collides with an existing namespace, the command fails as a
    /// conflict and changes nothing. A conflict presupposes a namespace
    /// whose identifier is itself 16 bytes, so on an index holding none —
    /// a fresh store in particular — success is owed.
    pub fn handle_create_namespace(store: &mut Store) -> (r: Result<Vec<u8>, Error>)
        requires
            store_inv(old(store)@),
        ensures
            store_inv(final(store)@),
            old(store)@.index.namespaces.len() == 0 ==> r is Ok,
            match r {
                Ok(id) => {
                    &&& id@.len() == 16
                    &&& crate::index::spec_create_ns(old(store)@.index, id@) == Some(
                        final(store)@.index,
                    )
                    &&& final(store)@.files == old(store)@.files
                },
                Err(e) => {
                    &&& e == Error::Conflict
                    &&& final(store)@ == old(store)@
                    &&& exists|i: int|
                        0 <= i < old(store)@.index.namespaces.len() && (
                        #[trigger] old(store)@.index.namespaces[i].id).len() == 16
                },
            },
    {
        let ghost s0 = store@;
        let id = crate::placement::new_namespace_id();
        let id_copy = clone_bytes(&id);
        match store.index.create_namespace(id_copy) {
            Ok(()) => {
                proof {
                    let v2 = store@.index;
                    assert(v2.namespaces == s0.index.namespaces.push(
                        NamespaceRecView { id: id@, total_size: 0, objects: Seq::empty() },
                    ));
                    assert forall|i: int, a: int|
                        0 <= i < v2.namespaces.len() && 0 <= a < v2.namespaces[i].objects.len()
                        implies has_file(store@.files, (#[trigger] v2.namespaces[i].objects[a]).id)
                        && file_data(store@.files, v2.namespaces[i].objects[a].id).len()
                        == v2.namespaces[i].objects[a].size by {
                        assert(i < s0.index.namespaces.len());
                        assert(v2.namespaces[i] == s0.index.namespaces[i]);
                    }
                    assert(store@.files =~= s0.files);
                }
                Ok(id)
            },
            Err(e) => {
                proof {
                    assert(store@ =~= s0);
                    // The conflict's witness is a namespace holding the
                    // drawn identifier, which is 16 bytes long.
                    let i = choose|i: int|
                        0 <= i < s0.index.namespaces.len() && (
                        #[trigger] s0.index.namespaces[i].id) == id@;
                    assert(s0.index.namespaces[i].id.len() == 16);
                }
                Err(e)
            },
        }
    }

    /// Lists the immediate children of `prefix` in a namespace and encodes
    /// the response records. A namespace that does not exist lists as
    /// empty, indistinguishable on the wire from an empty directory.
    pub fn handle_list(store: &Store, namespace: &Vec<u8>, prefix: &[u8]) -> (r: Vec<u8>)
        requires
            store_inv(store@),
        ensures
            r@ == spec_list_bytes(spec_listing(store@.index, namespace@, prefix@), namespace@),
    {
        let entries = store.index.get_objects_in_path(namespace.as_slice(), prefix);
        encode_list_response(&entries, namespace)
    }

    /// Runs one whole request frame against the store: decode the command,
    /// execute its procedure, and hand back the response value. A
    /// malformed or oversized frame is rejected with no side effects.
    #[verifier::rlimit(100)]
    pub fn handle_frame(store: &mut Store, frame: &[u8], limits: &Limits) -> (r: Result<
        Response,
        Error,
    >)
        requires
            store_inv(old(store)@),
        ensures
            store_inv(final(store)@),
            spec_decode(frame@, limits.max_path_len as int, limits.max_file_len as int) is None
                ==> (r matches Err(e) && e == Error::Protocol && final(store)@ == old(store)@),
            spec_decode(frame@, limits.max_path_len as int, limits.max_file_len as int) matches
                Some(req) ==> req matches RequestView::Upload { namespace, path, data } ==> match r {
                Ok(resp) => resp is Done && exists|t: crate::placement::TimeParts|
                    #[trigger] spec_upload(
                        old(store)@,
                        namespace,
                        path,
                        data,
                        crate::placement::spec_physical(namespace, t),
                        crate::placement::iso_of(t),
                    ) == Some(final(store)@),
                Err(e) => {
                    &&& final(store)@ == old(store)@
                    &&& e == (if has_object(old(store)@.index, namespace, path) {
                        Error::Conflict
                    } else {
                        Error::IndexFailure
                    })
                },
            },
            spec_decode(frame@, limits.max_path_len as int, limits.max_file_len as int) matches
                Some(req) ==> req matches RequestView::Download { namespace, path } ==> final(store)@ == old(store)@ && match r {
                Ok(resp) => resp matches Response::Data(d) && spec_download(
                    old(store)@,
                    namespace,
                    path,
                ) == Some(d@),
                Err(e) => e == Error::NotFound && !has_object(old(store)@.index, namespace, path),
            },
            spec_decode(frame@, limits.max_path_len as int, limits.max_file_len as int) matches
                Some(req) ==> req matches RequestView::Delete { namespace, path } ==> match r {
                Ok(resp) => resp matches Response::Freed(n) && spec_delete_store(
                    old(store)@,
                    namespace,
                    path,
                ) == Some((final(store)@, object_of(old(store)@.index, namespace, path))) && n
                    == object_of(old(store)@.index, namespace, path).size,
                Err(e) => e == Error::NotFound && !has_object(old(store)@.index, namespace, path)
                    && final(store)@ == old(store)@,
            },
            spec_decode(frame@, limits.max_path_len as int, limits.max_file_len as int) matches
                Some(req) ==> req matches RequestView::List { namespace, prefix } ==> final(store)@ == old(store)@ && (r matches Ok(resp) && (resp matches Response::Listing(bytes)
                && bytes@ == spec_list_bytes(
                spec_listing(old(store)@.index, namespace, prefix),
                namespace,
            ))),
            spec_decode(frame@, limits.max_path_len as int, limits.max_file_len as int) matches
                Some(req) ==> req is CreateNamespace ==> (old(store)@.index.namespaces.len() == 0
                ==> r is Ok) && match r {
                Ok(resp) => resp matches Response::NamespaceId(id) && id@.len() == 16
                    && crate::index::spec_create_ns(old(store)@.index, id@) == Some(
                    final(store)@.index,
                ) && final(store)@.files == old(store)@.files,
                Err(e) => e == Error::Conflict && final(store)@ == old(store)@ && exists|i: int|
                    0 <= i < old(store)@.index.namespaces.len() && (
                    #[trigger] old(store)@.index.namespaces[i].id).len() == 16,
            },
            spec_decode(frame@, limits.max_path_len as int, limits.max_file_len as int) matches
                Some(req) ==> req matches RequestView::DeleteNamespace { namespace } ==> match r {
                Ok(resp) => resp matches Response::Freed(n) && spec_delete_ns_store(
                    old(store)@,
                    namespace,
                ) == Some((final(store)@, n)),
                Err(e) => e == Error::NotFound && !has_ns(old(store)@.index, namespace) && final(store)@ == old(store)@,
            },
    {
        let req = match decode_request(frame, limits) {
            Ok(req) => req,
            Err(e) => {
                return Err(e);
            },
        };
        let r: Result<Response, Error> = match req {
            Request::Upload { namespace, path, data } => {
                let ghost s0 = store@;
                let ghost nsv = namespace@;
                let ghost pathv = path@;
                let ghost datav = data@;
                proof {
                    assert(namespace@.len() == 16);
                }
                match Self::handle_upload(store, namespace, path, data) {
                    Ok(()) => {
                        proof {
                            // Re-expose the placement witness for the
                            // dispatcher's own postcondition.
                            let t = choose|t: crate::placement::TimeParts|
                                #[trigger] spec_upload(
                                    s0,
                                    nsv,
                                    pathv,
                                    datav,
                                    crate::placement::spec_physical(nsv, t),
                                    crate::placement::iso_of(t),
                                ) == Some(store@);
                            assert(spec_upload(
                                old(store)@,
                                nsv,
                                pathv,
                                datav,
                                crate::placement::spec_physical(nsv, t),
                                crate::placement::iso_of(t),
                            ) == Some(store@));
                        }
                        Ok(Response::Done)
                    },
                    Err(e) => Err(e),
                }
            },
            Request::Download { namespace, path } => {
                match Self::handle_download(store, namespace.as_slice(), path.as_slice()) {
                    Ok(d) => Ok(Response::Data(d)),
                    Err(e) => Err(e),
                }
            },
            Request::Delete { namespace, path } => {
                match Self::handle_delete(store, namespace.as_slice(), path.as_slice()) {
                    Ok(n) => Ok(Response::Freed(n)),
                    Err(e) => Err(e),
                }
            },
            Request::List { namespace, prefix } => {
                Ok(Response::Listing(Self::handle_list(store, &namespace, prefix.as_slice())))
            },
            Request::CreateNamespace => {
                match Self::handle_create_namespace(store) {
                    Ok(id) => Ok(Response::NamespaceId(id)),
                    Err(e) => Err(e),
                }
            },
            Request::DeleteNamespace { namespace } => {
                match Self::handle_delete_namespace(store, namespace.as_slice()) {
                    Ok(n) => Ok(Response::Freed(n)),
                    Err(e) => Err(e),
                }
            },
        };
        proof {
            assert(spec_decode(frame@, limits.max_path_len as int, limits.max_file_len as int)
                matches Some(req2) ==> req2 matches RequestView::Upload { namespace, path, data }
                ==> match r {
                Ok(resp) => resp is Done && exists|t: crate::placement::TimeParts|
                    #[trigger] spec_upload(
                        old(store)@,
                        namespace,
                        path,
                        data,
                        crate::placement::spec_physical(namespace, t),
                        crate::placement::iso_of(t),
                    ) == Some(store@),
                Err(e) => {
                    &&& store@ == old(store)@
                    &&& e == (if has_object(old(store)@.index, namespace, path) {
                        Error::Conflict
                    } else {
                        Error::IndexFailure
                    })
                },
            });
        }
        r
    }
}

/// What a completed command answers with.
pub enum Response {
    /// Upload: nothing; the connection closes on success.
    Done,
    /// Download: the object's bytes, verbatim.
    Data(Vec<u8>),
    /// Delete and delete-namespace: the freed byte count.
    Freed(u64),
    /// List: the encoded response records.
    Listing(Vec<u8>),
    /// Create-namespace: the 16 identifier bytes.
    NamespaceId(Vec<u8>),
}

/// Whether some object of `rec` carries id `id`.
fn rec_contains_id(rec: &NamespaceRec, id: u64) -> (r: bool)
    ensures
        r <==> rec_has_id(rec@, id),
{
    let ghost m = rec.objects@.map_values(|o: crate::index::Object| o@);
    let mut a: usize = 0;
    while a < rec.objects.len()
        invariant
            a <= rec.objects@.len(),
            m == rec.objects@.map_values(|o: crate::index::Object| o@),
            m == rec@.objects,
            forall|j: int| 0 <= j < a ==> (#[trigger] m[j].id) != id,
        decreases rec.objects@.len() - a,
    {
        proof {
            assert(m[a as int] == rec.objects@[a as int]@);
        }
        if rec.objects[a].id == id {
            proof {
                assert(rec@.objects[a as int].id == id);
            }
            return true;
        }
        a = a + 1;
    }
    false
}

} // verus!
