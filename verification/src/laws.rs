//! The laws the store keeps, each proved over the command transitions.

use vstd::prelude::*;

use crate::codec::spec_decode;
use crate::codec::spec_file_len;
use crate::codec::spec_parse_opcode;
use crate::codec::spec_path_len;
use crate::codec::Opcode;
use crate::index::has_ns;
use crate::index::has_object;
use crate::index::inv;
use crate::index::lemma_insert_effects;
use crate::index::lemma_insert_frame;
use crate::index::ns_at;
use crate::index::obj_at;
use crate::index::object_of;
use crate::index::spec_insert;
use crate::index::sum_sizes;
use crate::index::total_of;
use crate::index::MetaIndexView;
use crate::query::spec_listing;
use crate::store::file_at;
use crate::store::file_data;
use crate::store::has_file;
use crate::store::lemma_delete_ns_store_effects;
use crate::store::lemma_delete_store_effects;
use crate::store::lemma_file_at_unique;
use crate::store::lemma_upload_effects;
use crate::store::spec_delete_ns_store;
use crate::store::spec_delete_store;
use crate::store::spec_download;
use crate::store::spec_upload;
use crate::store::store_inv;
use crate::store::StoreView;

verus! {

/// The size aggregate is always exact: under the index invariant, every
/// namespace's `total_size` equals the sum of the sizes of the objects it
/// currently holds.
pub proof fn law_total_size_exact(v: MetaIndexView, i: int)
    requires
        inv(v),
        0 <= i < v.namespaces.len(),
    ensures
        v.namespaces[i].total_size == sum_sizes(v.namespaces[i].objects),
{
    assert(crate::index::ns_wf(v.namespaces[i], v.next_id));
}

/// Round trip: uploading bytes under a key and then downloading that key
/// returns exactly those bytes.
pub proof fn law_upload_download_roundtrip(
    s: StoreView,
    ns: Seq<u8>,
    path: Seq<u8>,
    data: Seq<u8>,
    physical: Seq<u8>,
    created: Seq<u8>,
)
    requires
        store_inv(s),
        data.len() <= u64::MAX,
        spec_upload(s, ns, path, data, physical, created) is Some,
    ensures
        spec_download(spec_upload(s, ns, path, data, physical, created).unwrap(), ns, path)
            == Some(data),
{
    lemma_upload_effects(s, ns, path, data, physical, created);
}

/// Delete accounting: deleting an object of size `S` decreases the owning
/// namespace's `total_size` by exactly `S`, and a subsequent download of
/// that key finds nothing.
pub proof fn law_delete_accounting(s: StoreView, ns: Seq<u8>, path: Seq<u8>)
    requires
        store_inv(s),
        has_object(s.index, ns, path),
    ensures
        ({
            let (s2, o) = spec_delete_store(s, ns, path).unwrap();
            &&& o.size <= total_of(s.index, ns)
            &&& total_of(s2.index, ns) == total_of(s.index, ns) - o.size
            &&& spec_download(s2, ns, path) is None
        }),
{
    lemma_delete_store_effects(s, ns, path);
}

/// Namespace cascade: deleting a namespace frees exactly the sum of its
/// objects' sizes, and afterwards the namespace is gone and every listing
/// of it is empty.
pub proof fn law_namespace_cascade(s: StoreView, ns: Seq<u8>)
    requires
        store_inv(s),
        has_ns(s.index, ns),
    ensures
        ({
            let (s2, freed) = spec_delete_ns_store(s, ns).unwrap();
            &&& freed == total_of(s.index, ns)
            &&& freed == sum_sizes(s.index.namespaces[ns_at(s.index, ns)].objects)
            &&& !has_ns(s2.index, ns)
            &&& forall|prefix: Seq<u8>| #[trigger] spec_listing(s2.index, ns, prefix) == Seq::<
                crate::codec::ListEntryView,
            >::empty()
        }),
{
    lemma_delete_ns_store_effects(s, ns);
}

/// Oversized-length rejection: an UPLOAD frame whose header declares a
/// path or file length above the configured bound decodes to nothing, so
/// the dispatcher answers it with a protocol error and an untouched store,
/// before any payload handling.
pub proof fn law_oversized_upload_rejected(f: Seq<u8>, max_path: int, max_file: int)
    requires
        f.len() >= 25,
        spec_parse_opcode(f[0]) == Some(Opcode::Upload),
        spec_path_len(Opcode::Upload, f.subrange(1, 25)) > max_path || spec_file_len(
            Opcode::Upload,
            f.subrange(1, 25),
        ) > max_file,
    ensures
        spec_decode(f, max_path, max_file) is None,
{
}

/// Independent namespaces: two uploads into distinct namespaces land
/// independently — each namespace ends with the `total_size` its own
/// upload accounts for, and each key downloads its own bytes.
pub proof fn law_independent_uploads(
    s: StoreView,
    ns1: Seq<u8>,
    path1: Seq<u8>,
    data1: Seq<u8>,
    physical1: Seq<u8>,
    created1: Seq<u8>,
    ns2: Seq<u8>,
    path2: Seq<u8>,
    data2: Seq<u8>,
    physical2: Seq<u8>,
    created2: Seq<u8>,
)
    requires
        store_inv(s),
        ns1 != ns2,
        data1.len() <= u64::MAX,
        data2.len() <= u64::MAX,
        spec_upload(s, ns1, path1, data1, physical1, created1) is Some,
        spec_upload(
            spec_upload(s, ns1, path1, data1, physical1, created1).unwrap(),
            ns2,
            path2,
            data2,
            physical2,
            created2,
        ) is Some,
    ensures
        ({
            let s1 = spec_upload(s, ns1, path1, data1, physical1, created1).unwrap();
            let s2 = spec_upload(s1, ns2, path2, data2, physical2, created2).unwrap();
            &&& total_of(s2.index, ns1) == (if has_ns(s.index, ns1) {
                total_of(s.index, ns1) + data1.len()
            } else {
                data1.len() as int
            })
            &&& total_of(s2.index, ns2) == (if has_ns(s.index, ns2) {
                total_of(s.index, ns2) + data2.len()
            } else {
                data2.len() as int
            })
            &&& spec_download(s2, ns1, path1) == Some(data1)
            &&& spec_download(s2, ns2, path2) == Some(data2)
        }),
{
    let size1 = data1.len() as u64;
    let size2 = data2.len() as u64;
    let s1 = spec_upload(s, ns1, path1, data1, physical1, created1).unwrap();
    let s2 = spec_upload(s1, ns2, path2, data2, physical2, created2).unwrap();
    lemma_upload_effects(s, ns1, path1, data1, physical1, created1);
    lemma_insert_effects(s.index, ns1, path1, physical1, size1, created1);
    lemma_upload_effects(s1, ns2, path2, data2, physical2, created2);
    lemma_insert_effects(s1.index, ns2, path2, physical2, size2, created2);
    // The first upload does not touch ns2, so the second lands on the same
    // record it would have found in the original store.
    lemma_insert_frame(s.index, ns1, path1, physical1, size1, created1, ns2);
    assert(total_of(s2.index, ns2) == (if has_ns(s.index, ns2) {
        total_of(s.index, ns2) + data2.len()
    } else {
        data2.len() as int
    }));
    // The second upload does not touch ns1: its record, and with it the
    // first upload's object and aggregate, carry over unchanged.
    lemma_insert_frame(s1.index, ns2, path2, physical2, size2, created2, ns1);
    assert(total_of(s2.index, ns1) == total_of(s1.index, ns1));
    let r1 = s1.index.namespaces[ns_at(s1.index, ns1)];
    assert(s2.index.namespaces[ns_at(s2.index, ns1)] == r1);
    assert(has_object(s2.index, ns2, path2) && spec_download(s2, ns2, path2) == Some(data2));
    // The first object survives in s2 with the same row.
    assert(has_object(s1.index, ns1, path1));
    assert(has_object(s2.index, ns1, path1)) by {
        assert(crate::index::has_obj_in(r1, path1));
    }
    let o1 = object_of(s1.index, ns1, path1);
    assert(object_of(s2.index, ns1, path1) == o1) by {
        assert(obj_at(r1, path1) == obj_at(s2.index.namespaces[ns_at(s2.index, ns1)], path1));
    }
    // Its bytes survive too: the second upload only appends a file.
    assert(has_file(s1.files, o1.id) && file_data(s1.files, o1.id) == data1);
    let f0 = file_at(s1.files, o1.id);
    assert(0 <= f0 < s1.files.len() && s1.files[f0].id == o1.id);
    assert(s2.files[f0] == s1.files[f0]);
    lemma_file_at_unique(s2.files, o1.id, f0);
    assert(spec_download(s2, ns1, path1) == Some(data1));
}

} // verus!
