//! The metadata index: the transactional record of namespaces and objects.
//!
//! A namespace ("bucket") owns a set of objects, each keyed by a logical
//! path that is unique within the namespace. The index alone writes each
//! namespace's `total_size`, and maintains as an invariant that it always
//! equals the sum of the sizes of the namespace's objects.
//!
//! Re-uploading an existing `(namespace, path)` key is rejected as a
//! conflict — the key must first be deleted — mirroring the uniqueness
//! constraint the persisted layout declares.

use vstd::prelude::*;

use crate::bytes::bytes_eq;
use crate::bytes::clone_bytes;
use crate::Error;

verus! {

/// One stored object: a logical path inside a namespace, mapped to a
/// physical location that clients never see.
pub struct Object {
    /// Server-assigned sequence number, unique across the index's history.
    pub id: u64,
    /// The owning namespace's identifier.
    pub namespace_id: Vec<u8>,
    /// The logical path, unique within the namespace.
    pub path: Vec<u8>,
    /// Where the bytes live on disk; an implementation detail.
    pub physical_location: Vec<u8>,
    /// Size of the object in bytes.
    pub size: u64,
    /// Creation timestamp, an opaque text.
    pub created_at: Vec<u8>,
}

/// The mathematical shape of an object row.
#[verifier::ext_equal]
pub struct ObjectView {
    pub id: u64,
    pub namespace_id: Seq<u8>,
    pub path: Seq<u8>,
    pub physical_location: Seq<u8>,
    pub size: u64,
    pub created_at: Seq<u8>,
}

impl View for Object {
    type V = ObjectView;

    open spec fn view(&self) -> ObjectView {
        ObjectView {
            id: self.id,
            namespace_id: self.namespace_id@,
            path: self.path@,
            physical_location: self.physical_location@,
            size: self.size,
            created_at: self.created_at@,
        }
    }
}

/// One namespace and the objects it owns.
pub struct NamespaceRec {
    /// The namespace identifier (16 raw bytes when it comes off the wire).
    pub id: Vec<u8>,
    /// Always the sum of `objects[..].size`; maintained by the index alone.
    pub total_size: u64,
    /// The objects of this namespace, in insertion order.
    pub objects: Vec<Object>,
}

/// The mathematical shape of a namespace record.
#[verifier::ext_equal]
pub struct NamespaceRecView {
    pub id: Seq<u8>,
    pub total_size: u64,
    pub objects: Seq<ObjectView>,
}

impl View for NamespaceRec {
    type V = NamespaceRecView;

    open spec fn view(&self) -> NamespaceRecView {
        NamespaceRecView {
            id: self.id@,
            total_size: self.total_size,
            objects: self.objects@.map_values(|o: Object| o@),
        }
    }
}

/// The metadata index itself.
pub struct MetaIndex {
    /// The namespaces, in creation order.
    pub namespaces: Vec<NamespaceRec>,
    /// The next object id to assign.
    pub next_id: u64,
}

/// The mathematical shape of the index.
#[verifier::ext_equal]
pub struct MetaIndexView {
    pub namespaces: Seq<NamespaceRecView>,
    pub next_id: u64,
}

impl View for MetaIndex {
    type V = MetaIndexView;

    open spec fn view(&self) -> MetaIndexView {
        MetaIndexView {
            namespaces: self.namespaces@.map_values(|r: NamespaceRec| r@),
            next_id: self.next_id,
        }
    }
}

/// The sum of the sizes of a run of objects.
pub open spec fn sum_sizes(objs: Seq<ObjectView>) -> int
    decreases objs.len(),
{
    if objs.len() == 0 {
        0
    } else {
        sum_sizes(objs.drop_last()) + objs.last().size
    }
}

/// A sum of sizes is never negative.
pub proof fn lemma_sum_nonneg(objs: Seq<ObjectView>)
    ensures
        sum_sizes(objs) >= 0,
    decreases objs.len(),
{
    if objs.len() > 0 {
        lemma_sum_nonneg(objs.drop_last());
    }
}

/// Removing the object at `i` takes exactly its size out of the sum.
pub proof fn lemma_sum_remove(objs: Seq<ObjectView>, i: int)
    requires
        0 <= i < objs.len(),
    ensures
        sum_sizes(objs.remove(i)) == sum_sizes(objs) - objs[i].size,
    decreases objs.len(),
{
    if i == objs.len() - 1 {
        assert(objs.remove(i) =~= objs.drop_last());
    } else {
        assert(objs.remove(i).drop_last() =~= objs.drop_last().remove(i));
        assert(objs.remove(i).last() == objs.last());
        lemma_sum_remove(objs.drop_last(), i);
    }
}

/// No single object weighs more than the whole sum.
pub proof fn lemma_sum_member_bound(objs: Seq<ObjectView>, i: int)
    requires
        0 <= i < objs.len(),
    ensures
        sum_sizes(objs) >= objs[i].size,
{
    lemma_sum_remove(objs, i);
    lemma_sum_nonneg(objs.remove(i));
}

/// Well-formedness of one namespace record: the size aggregate is exact,
/// paths are unique within the namespace, every object points back at its
/// namespace, and every object id was assigned below `next_id`.
pub open spec fn ns_wf(r: NamespaceRecView, next_id: u64) -> bool {
    &&& r.total_size == sum_sizes(r.objects)
    &&& forall|a: int, b: int|
        0 <= a < b < r.objects.len() ==> #[trigger] r.objects[a].path != #[trigger] r.objects[b].path
    &&& forall|a: int| 0 <= a < r.objects.len() ==> (#[trigger] r.objects[a].namespace_id) == r.id
    &&& forall|a: int| 0 <= a < r.objects.len() ==> (#[trigger] r.objects[a].id) < next_id
}

/// The index invariant: namespace identifiers are unique, every record is
/// well formed, and object ids are unique across the whole index.
pub open spec fn inv(v: MetaIndexView) -> bool {
    &&& forall|i: int, j: int|
        0 <= i < j < v.namespaces.len() ==> (#[trigger] v.namespaces[i].id) != (
        #[trigger] v.namespaces[j].id)
    &&& forall|i: int| 0 <= i < v.namespaces.len() ==> #[trigger] ns_wf(v.namespaces[i], v.next_id)
    &&& forall|i: int, a: int, j: int, b: int|
        0 <= i < v.namespaces.len() && 0 <= a < v.namespaces[i].objects.len() && 0 <= j
            < v.namespaces.len() && 0 <= b < v.namespaces[j].objects.len() && (i != j || a != b)
            ==> (#[trigger] v.namespaces[i].objects[a].id) != (
        #[trigger] v.namespaces[j].objects[b].id)
}

/// Whether the index holds namespace `ns`.
pub open spec fn has_ns(v: MetaIndexView, ns: Seq<u8>) -> bool {
    exists|i: int| 0 <= i < v.namespaces.len() && (#[trigger] v.namespaces[i].id) == ns
}

/// The position of namespace `ns` (meaningful when `has_ns`).
pub open spec fn ns_at(v: MetaIndexView, ns: Seq<u8>) -> int {
    choose|i: int| 0 <= i < v.namespaces.len() && (#[trigger] v.namespaces[i].id) == ns
}

/// The recorded total size of namespace `ns` (meaningful when `has_ns`).
pub open spec fn total_of(v: MetaIndexView, ns: Seq<u8>) -> u64 {
    v.namespaces[ns_at(v, ns)].total_size
}

/// Whether record `r` holds an object at `path`.
pub open spec fn has_obj_in(r: NamespaceRecView, path: Seq<u8>) -> bool {
    exists|a: int| 0 <= a < r.objects.len() && (#[trigger] r.objects[a].path) == path
}

/// The position of the object at `path` in `r` (meaningful when `has_obj_in`).
pub open spec fn obj_at(r: NamespaceRecView, path: Seq<u8>) -> int {
    choose|a: int| 0 <= a < r.objects.len() && (#[trigger] r.objects[a].path) == path
}

/// Whether the index holds an object at `(ns, path)`.
pub open spec fn has_object(v: MetaIndexView, ns: Seq<u8>, path: Seq<u8>) -> bool {
    has_ns(v, ns) && has_obj_in(v.namespaces[ns_at(v, ns)], path)
}

/// The object at `(ns, path)` (meaningful when `has_object`).
pub open spec fn object_of(v: MetaIndexView, ns: Seq<u8>, path: Seq<u8>) -> ObjectView {
    let r = v.namespaces[ns_at(v, ns)];
    r.objects[obj_at(r, path)]
}

/// Under the invariant, a record position holding `ns` is the one `ns_at` picks.
pub proof fn lemma_ns_at_unique(v: MetaIndexView, ns: Seq<u8>, i: int)
    requires
        inv(v),
        0 <= i < v.namespaces.len(),
        v.namespaces[i].id == ns,
    ensures
        has_ns(v, ns),
        ns_at(v, ns) == i,
{
    assert(has_ns(v, ns));
    let k = ns_at(v, ns);
    if k != i {
        if k < i {
            assert(v.namespaces[k].id != v.namespaces[i].id);
        } else {
            assert(v.namespaces[i].id != v.namespaces[k].id);
        }
    }
}

/// Within a well-formed record, a position holding `path` is the one `obj_at` picks.
pub proof fn lemma_obj_at_unique(r: NamespaceRecView, next_id: u64, path: Seq<u8>, a: int)
    requires
        ns_wf(r, next_id),
        0 <= a < r.objects.len(),
        r.objects[a].path == path,
    ensures
        has_obj_in(r, path),
        obj_at(r, path) == a,
{
    assert(has_obj_in(r, path));
    let k = obj_at(r, path);
    if k != a {
        if k < a {
            assert(r.objects[k].path != r.objects[a].path);
        } else {
            assert(r.objects[a].path != r.objects[k].path);
        }
    }
}

impl MetaIndex {
    /// A fresh, empty index.
    pub fn new() -> (r: Self)
        ensures
            inv(r@),
            r@.namespaces == Seq::<NamespaceRecView>::empty(),
            r@.next_id == 0,
    {
        let r = MetaIndex { namespaces: Vec::new(), next_id: 0 };
        proof {
            assert(r@.namespaces =~= Seq::<NamespaceRecView>::empty());
        }
        r
    }

    /// Finds the position of namespace `ns`, if it exists.
    pub(crate) fn find_namespace(&self, ns: &[u8]) -> (r: Option<usize>)
        ensures
            match r {
                Some(i) => i < self@.namespaces.len() && self@.namespaces[i as int].id == ns@,
                None => !has_ns(self@, ns@),
            },
    {
        let mut i: usize = 0;
        while i < self.namespaces.len()
            invariant
                i <= self@.namespaces.len(),
                self@.namespaces.len() == self.namespaces@.len(),
                forall|j: int| 0 <= j < i ==> (#[trigger] self@.namespaces[j].id) != ns@,
            decreases self.namespaces@.len() - i,
        {
            proof {
                assert(self@.namespaces[i as int] == self.namespaces@[i as int]@);
            }
            if bytes_eq(self.namespaces[i].id.as_slice(), ns) {
                return Some(i);
            }
            i = i + 1;
        }
        None
    }

    /// Finds the position of `path` within record `i`, if present.
    fn find_object_in(&self, i: usize, path: &[u8]) -> (r: Option<usize>)
        requires
            i < self@.namespaces.len(),
        ensures
            match r {
                Some(a) => a < self@.namespaces[i as int].objects.len()
                    && self@.namespaces[i as int].objects[a as int].path == path@,
                None => !has_obj_in(self@.namespaces[i as int], path@),
            },
    {
        proof {
            assert(self@.namespaces[i as int] == self.namespaces@[i as int]@);
        }
        let rec = &self.namespaces[i];
        let mut a: usize = 0;
        while a < rec.objects.len()
            invariant
                a <= rec.objects@.len(),
                rec@ == self@.namespaces[i as int],
                rec@.objects.len() == rec.objects@.len(),
                forall|b: int| 0 <= b < a ==> (#[trigger] rec@.objects[b].path) != path@,
            decreases rec.objects@.len() - a,
        {
            proof {
                assert(rec@.objects[a as int] == rec.objects@[a as int]@);
            }
            if bytes_eq(rec.objects[a].path.as_slice(), path) {
                return Some(a);
            }
            a = a + 1;
        }
        None
    }

    /// The recorded total size of a namespace, or `None` if it does not exist.
    pub fn total_size(&self, namespace_id: &[u8]) -> (r: Option<u64>)
        requires
            inv(self@),
        ensures
            match r {
                Some(t) => has_ns(self@, namespace_id@) && t == total_of(self@, namespace_id@),
                None => !has_ns(self@, namespace_id@),
            },
    {
        match self.find_namespace(namespace_id) {
            Some(i) => {
                proof {
                    lemma_ns_at_unique(self@, namespace_id@, i as int);
                }
                Some(self.namespaces[i].total_size)
            },
            None => None,
        }
    }

    /// Looks an object up by `(namespace, path)`.
    pub fn get_metadata(&self, namespace_id: &[u8], path: &[u8]) -> (r: Option<&Object>)
        requires
            inv(self@),
        ensures
            match r {
                Some(o) => has_object(self@, namespace_id@, path@) && o@ == object_of(
                    self@,
                    namespace_id@,
                    path@,
                ),
                None => !has_object(self@, namespace_id@, path@),
            },
    {
        match self.find_namespace(namespace_id) {
            Some(i) => {
                proof {
                    lemma_ns_at_unique(self@, namespace_id@, i as int);
                }
                match self.find_object_in(i, path) {
                    Some(a) => {
                        proof {
                            assert(ns_wf(self@.namespaces[i as int], self@.next_id));
                            lemma_obj_at_unique(
                                self@.namespaces[i as int],
                                self@.next_id,
                                path@,
                                a as int,
                            );
                            assert(self@.namespaces[i as int].objects[a as int]
                                == self.namespaces@[i as int].objects@[a as int]@);
                        }
                        Some(&self.namespaces[i].objects[a])
                    },
                    None => None,
                }
            },
            None => None,
        }
    }
}

/// The index after explicitly creating namespace `id`, or `None` if the
/// identifier is already taken.
pub open spec fn spec_create_ns(v: MetaIndexView, id: Seq<u8>) -> Option<MetaIndexView> {
    if has_ns(v, id) {
        None
    } else {
        Some(
            MetaIndexView {
                namespaces: v.namespaces.push(
                    NamespaceRecView { id, total_size: 0, objects: Seq::empty() },
                ),
                next_id: v.next_id,
            },
        )
    }
}

/// The index after inserting an object at `(ns, path)`, together with the
/// assigned id, or `None` if the key is taken, the namespace's total would
/// leave the 64-bit range, or the id space is exhausted. A missing
/// namespace is created implicitly, as the first insertion into it.
pub open spec fn spec_insert(
    v: MetaIndexView,
    ns: Seq<u8>,
    path: Seq<u8>,
    physical: Seq<u8>,
    size: u64,
    created: Seq<u8>,
) -> Option<(MetaIndexView, u64)> {
    if v.next_id == u64::MAX {
        None
    } else {
        let obj = ObjectView {
            id: v.next_id,
            namespace_id: ns,
            path,
            physical_location: physical,
            size,
            created_at: created,
        };
        if has_ns(v, ns) {
            let i = ns_at(v, ns);
            let r = v.namespaces[i];
            if has_obj_in(r, path) {
                None
            } else if r.total_size + size > u64::MAX {
                None
            } else {
                Some(
                    (
                        MetaIndexView {
                            namespaces: v.namespaces.update(
                                i,
                                NamespaceRecView {
                                    id: r.id,
                                    total_size: (r.total_size + size) as u64,
                                    objects: r.objects.push(obj),
                                },
                            ),
                            next_id: (v.next_id + 1) as u64,
                        },
                        v.next_id,
                    ),
                )
            }
        } else {
            Some(
                (
                    MetaIndexView {
                        namespaces: v.namespaces.push(
                            NamespaceRecView { id: ns, total_size: size, objects: seq![obj] },
                        ),
                        next_id: (v.next_id + 1) as u64,
                    },
                    v.next_id,
                ),
            )
        }
    }
}

/// Inserting preserves the index invariant, and the new object is found
/// at `(ns, path)` with the expected fields and aggregate.
pub proof fn lemma_insert_effects(
    v: MetaIndexView,
    ns: Seq<u8>,
    path: Seq<u8>,
    physical: Seq<u8>,
    size: u64,
    created: Seq<u8>,
)
    requires
        inv(v),
        spec_insert(v, ns, path, physical, size, created) is Some,
    ensures
        ({
            let (v2, id) = spec_insert(v, ns, path, physical, size, created).unwrap();
            &&& inv(v2)
            &&& id == v.next_id
            &&& v2.next_id == v.next_id + 1
            &&& has_ns(v2, ns)
            &&& ns_at(v2, ns) == (if has_ns(v, ns) {
                ns_at(v, ns)
            } else {
                v.namespaces.len() as int
            })
            &&& total_of(v2, ns) == (if has_ns(v, ns) {
                total_of(v, ns) + size
            } else {
                size as int
            })
            &&& has_object(v2, ns, path)
            &&& object_of(v2, ns, path) == ObjectView {
                id: v.next_id,
                namespace_id: ns,
                path,
                physical_location: physical,
                size,
                created_at: created,
            }
        }),
{
    let (v2, id) = spec_insert(v, ns, path, physical, size, created).unwrap();
    let obj = ObjectView {
        id: v.next_id,
        namespace_id: ns,
        path,
        physical_location: physical,
        size,
        created_at: created,
    };
    if has_ns(v, ns) {
        let i = ns_at(v, ns);
        let r = v.namespaces[i];
        let r2 = v2.namespaces[i];
        assert(ns_wf(r, v.next_id));
        // The updated record is well formed.
        assert(r2.objects.drop_last() =~= r.objects);
        assert(forall|a: int|
            0 <= a < r.objects.len() ==> (#[trigger] r2.objects[a]) == r.objects[a]);
        assert forall|a: int, b: int| 0 <= a < b < r2.objects.len() implies (
        #[trigger] r2.objects[a].path) != (#[trigger] r2.objects[b].path) by {
            if b == r.objects.len() {
                if r.objects[a].path == path {
                    assert(has_obj_in(r, path));
                }
            }
        }
        assert(ns_wf(r2, v2.next_id));
        assert forall|j: int| 0 <= j < v2.namespaces.len() implies #[trigger] ns_wf(
            v2.namespaces[j],
            v2.next_id,
        ) by {
            if j != i {
                assert(ns_wf(v.namespaces[j], v.next_id));
            }
        }
        // Object ids stay unique: every pre-existing id is below the new one.
        assert forall|x: int, a: int, y: int, b: int|
            0 <= x < v2.namespaces.len() && 0 <= a < v2.namespaces[x].objects.len() && 0 <= y
                < v2.namespaces.len() && 0 <= b < v2.namespaces[y].objects.len() && (x != y || a
                != b) implies (#[trigger] v2.namespaces[x].objects[a].id) != (
        #[trigger] v2.namespaces[y].objects[b].id) by {
            let is_new_xa = x == i && a == r.objects.len();
            let is_new_yb = y == i && b == r.objects.len();
            if is_new_xa && !is_new_yb {
                assert(v2.namespaces[y].objects[b] == v.namespaces[y].objects[b]);
                assert(ns_wf(v.namespaces[y], v.next_id));
            } else if !is_new_xa && is_new_yb {
                assert(v2.namespaces[x].objects[a] == v.namespaces[x].objects[a]);
                assert(ns_wf(v.namespaces[x], v.next_id));
            } else if !is_new_xa && !is_new_yb {
                assert(v2.namespaces[x].objects[a] == v.namespaces[x].objects[a]);
                assert(v2.namespaces[y].objects[b] == v.namespaces[y].objects[b]);
            }
        }
        lemma_ns_at_unique(v2, ns, i);
        lemma_obj_at_unique(r2, v2.next_id, path, r.objects.len() as int);
    } else {
        // A fresh record is appended.
        let i = v.namespaces.len() as int;
        let r2 = v2.namespaces[i];
        assert(r2.objects =~= seq![obj]);
        assert(r2.objects.drop_last() =~= Seq::<ObjectView>::empty());
        assert(r2.objects.len() == 1);
        assert(r2.objects.last() == obj);
        assert(sum_sizes(r2.objects.drop_last()) == 0);
        assert(sum_sizes(r2.objects) == obj.size);
        assert(r2.objects[0] == obj);
        assert(r2.id == ns);
        assert(ns_wf(r2, v2.next_id));
        assert forall|j: int| 0 <= j < v2.namespaces.len() implies #[trigger] ns_wf(
            v2.namespaces[j],
            v2.next_id,
        ) by {
            if j != i {
                assert(v2.namespaces[j] == v.namespaces[j]);
                assert(ns_wf(v.namespaces[j], v.next_id));
            }
        }
        assert forall|x: int, y: int| 0 <= x < y < v2.namespaces.len() implies (
        #[trigger] v2.namespaces[x].id) != (#[trigger] v2.namespaces[y].id) by {
            if y == i {
                if v.namespaces[x].id == ns {
                    assert(has_ns(v, ns));
                }
            }
        }
        assert forall|x: int, a: int, y: int, b: int|
            0 <= x < v2.namespaces.len() && 0 <= a < v2.namespaces[x].objects.len() && 0 <= y
                < v2.namespaces.len() && 0 <= b < v2.namespaces[y].objects.len() && (x != y || a
                != b) implies (#[trigger] v2.namespaces[x].objects[a].id) != (
        #[trigger] v2.namespaces[y].objects[b].id) by {
            if x == i && y != i {
                assert(v2.namespaces[y].objects[b] == v.namespaces[y].objects[b]);
                assert(ns_wf(v.namespaces[y], v.next_id));
            } else if x != i && y == i {
                assert(v2.namespaces[x].objects[a] == v.namespaces[x].objects[a]);
                assert(ns_wf(v.namespaces[x], v.next_id));
            } else if x != i && y != i {
                assert(v2.namespaces[x].objects[a] == v.namespaces[x].objects[a]);
                assert(v2.namespaces[y].objects[b] == v.namespaces[y].objects[b]);
            }
        }
        lemma_ns_at_unique(v2, ns, i);
        lemma_obj_at_unique(r2, v2.next_id, path, 0);
    }
}

/// The index after deleting the object at `(ns, path)`, together with the
/// removed row, or `None` if no such object exists. The namespace record
/// stays, its `total_size` reduced by the object's size.
pub open spec fn spec_delete(v: MetaIndexView, ns: Seq<u8>, path: Seq<u8>) -> Option<
    (MetaIndexView, ObjectView),
> {
    if !has_object(v, ns, path) {
        None
    } else {
        let i = ns_at(v, ns);
        let r = v.namespaces[i];
        let a = obj_at(r, path);
        let o = r.objects[a];
        Some(
            (
                MetaIndexView {
                    namespaces: v.namespaces.update(
                        i,
                        NamespaceRecView {
                            id: r.id,
                            total_size: (r.total_size - o.size) as u64,
                            objects: r.objects.remove(a),
                        },
                    ),
                    next_id: v.next_id,
                },
                o,
            ),
        )
    }
}

/// The index after deleting namespace `ns` and, by cascade, every object
/// in it, together with the removed record, or `None` if no such
/// namespace exists.
pub open spec fn spec_delete_ns(v: MetaIndexView, ns: Seq<u8>) -> Option<
    (MetaIndexView, NamespaceRecView),
> {
    if !has_ns(v, ns) {
        None
    } else {
        let i = ns_at(v, ns);
        Some(
            (
                MetaIndexView { namespaces: v.namespaces.remove(i), next_id: v.next_id },
                v.namespaces[i],
            ),
        )
    }
}

/// Deleting an object preserves the invariant, removes exactly that key,
/// and takes exactly the object's size out of the namespace's aggregate.
pub proof fn lemma_delete_effects(v: MetaIndexView, ns: Seq<u8>, path: Seq<u8>)
    requires
        inv(v),
        has_object(v, ns, path),
    ensures
        ({
            let (v2, o) = spec_delete(v, ns, path).unwrap();
            &&& inv(v2)
            &&& o == object_of(v, ns, path)
            &&& o.size <= total_of(v, ns)
            &&& v2.next_id == v.next_id
            &&& has_ns(v2, ns)
            &&& ns_at(v2, ns) == ns_at(v, ns)
            &&& total_of(v2, ns) == total_of(v, ns) - o.size
            &&& !has_object(v2, ns, path)
        }),
{
    let (v2, o) = spec_delete(v, ns, path).unwrap();
    let i = ns_at(v, ns);
    let r = v.namespaces[i];
    let a = obj_at(r, path);
    assert(ns_wf(r, v.next_id));
    lemma_sum_member_bound(r.objects, a);
    lemma_sum_remove(r.objects, a);
    let r2 = v2.namespaces[i];
    assert(r2.objects == r.objects.remove(a));
    // Each remaining position maps to its source position in the old record.
    assert(forall|x: int|
        0 <= x < r2.objects.len() ==> (#[trigger] r2.objects[x]) == (if x < a {
            r.objects[x]
        } else {
            r.objects[x + 1]
        }));
    assert(ns_wf(r2, v2.next_id));
    assert forall|j: int| 0 <= j < v2.namespaces.len() implies #[trigger] ns_wf(
        v2.namespaces[j],
        v2.next_id,
    ) by {
        if j != i {
            assert(v2.namespaces[j] == v.namespaces[j]);
            assert(ns_wf(v.namespaces[j], v.next_id));
        }
    }
    assert forall|x: int, c: int, y: int, d: int|
        0 <= x < v2.namespaces.len() && 0 <= c < v2.namespaces[x].objects.len() && 0 <= y
            < v2.namespaces.len() && 0 <= d < v2.namespaces[y].objects.len() && (x != y || c != d)
        implies (#[trigger] v2.namespaces[x].objects[c].id) != (
    #[trigger] v2.namespaces[y].objects[d].id) by {
        let c0 = if x == i && c >= a {
            c + 1
        } else {
            c
        };
        let d0 = if y == i && d >= a {
            d + 1
        } else {
            d
        };
        assert(v2.namespaces[x].objects[c] == v.namespaces[x].objects[c0]);
        assert(v2.namespaces[y].objects[d] == v.namespaces[y].objects[d0]);
    }
    lemma_ns_at_unique(v2, ns, i);
    assert forall|x: int| 0 <= x < r2.objects.len() implies (#[trigger] r2.objects[x].path)
        != path by {
        let x0 = if x < a {
            x
        } else {
            x + 1
        };
        if r.objects[x0].path == path {
            lemma_obj_at_unique(r, v.next_id, path, x0);
        }
    }
}

/// Deleting a namespace preserves the invariant and removes the namespace;
/// the record handed back carries a `total_size` that is exactly the sum
/// of the removed objects' sizes.
pub proof fn lemma_delete_ns_effects(v: MetaIndexView, ns: Seq<u8>)
    requires
        inv(v),
        has_ns(v, ns),
    ensures
        ({
            let (v2, rec) = spec_delete_ns(v, ns).unwrap();
            &&& inv(v2)
            &&& rec == v.namespaces[ns_at(v, ns)]
            &&& rec.id == ns
            &&& rec.total_size == sum_sizes(rec.objects)
            &&& v2.next_id == v.next_id
            &&& !has_ns(v2, ns)
        }),
{
    let (v2, rec) = spec_delete_ns(v, ns).unwrap();
    let i = ns_at(v, ns);
    assert(ns_wf(v.namespaces[i], v.next_id));
    assert(forall|x: int|
        0 <= x < v2.namespaces.len() ==> (#[trigger] v2.namespaces[x]) == (if x < i {
            v.namespaces[x]
        } else {
            v.namespaces[x + 1]
        }));
    assert forall|j: int| 0 <= j < v2.namespaces.len() implies #[trigger] ns_wf(
        v2.namespaces[j],
        v2.next_id,
    ) by {
        let j0 = if j < i {
            j
        } else {
            j + 1
        };
        assert(ns_wf(v.namespaces[j0], v.next_id));
    }
    assert forall|x: int, c: int, y: int, d: int|
        0 <= x < v2.namespaces.len() && 0 <= c < v2.namespaces[x].objects.len() && 0 <= y
            < v2.namespaces.len() && 0 <= d < v2.namespaces[y].objects.len() && (x != y || c != d)
        implies (#[trigger] v2.namespaces[x].objects[c].id) != (
    #[trigger] v2.namespaces[y].objects[d].id) by {
        let x0 = if x < i {
            x
        } else {
            x + 1
        };
        let y0 = if y < i {
            y
        } else {
            y + 1
        };
        assert(v2.namespaces[x].objects[c] == v.namespaces[x0].objects[c]);
        assert(v2.namespaces[y].objects[d] == v.namespaces[y0].objects[d]);
    }
    assert forall|x: int| 0 <= x < v2.namespaces.len() implies (#[trigger] v2.namespaces[x].id)
        != ns by {
        let x0 = if x < i {
            x
        } else {
            x + 1
        };
        if v.namespaces[x0].id == ns {
            lemma_ns_at_unique(v, ns, x0);
        }
    }
}

/// Inserting into one namespace leaves every other namespace untouched:
/// its existence, its record, and so its `total_size` and objects.
pub proof fn lemma_insert_frame(
    v: MetaIndexView,
    ns: Seq<u8>,
    path: Seq<u8>,
    physical: Seq<u8>,
    size: u64,
    created: Seq<u8>,
    other: Seq<u8>,
)
    requires
        inv(v),
        spec_insert(v, ns, path, physical, size, created) is Some,
        other != ns,
    ensures
        ({
            let v2 = spec_insert(v, ns, path, physical, size, created).unwrap().0;
            &&& (has_ns(v2, other) <==> has_ns(v, other))
            &&& (has_ns(v, other) ==> v2.namespaces[ns_at(v2, other)] == v.namespaces[ns_at(
                v,
                other,
            )])
        }),
{
    let v2 = spec_insert(v, ns, path, physical, size, created).unwrap().0;
    lemma_insert_effects(v, ns, path, physical, size, created);
    if has_ns(v, ns) {
        let i = ns_at(v, ns);
        assert(forall|j: int|
            0 <= j < v.namespaces.len() && j != i ==> (#[trigger] v2.namespaces[j])
                == v.namespaces[j]);
        if has_ns(v, other) {
            let j = ns_at(v, other);
            assert(0 <= j < v.namespaces.len() && v.namespaces[j].id == other);
            assert(j != i);
            lemma_ns_at_unique(v2, other, j);
        }
        if has_ns(v2, other) {
            let j = choose|j: int|
                0 <= j < v2.namespaces.len() && (#[trigger] v2.namespaces[j].id) == other;
            assert(j != i);
            assert(v.namespaces[j].id == other);
            assert(has_ns(v, other));
        }
    } else {
        assert(forall|j: int|
            0 <= j < v.namespaces.len() ==> (#[trigger] v2.namespaces[j]) == v.namespaces[j]);
        if has_ns(v, other) {
            let j = ns_at(v, other);
            assert(0 <= j < v.namespaces.len() && v.namespaces[j].id == other);
            lemma_ns_at_unique(v2, other, j);
        }
        if has_ns(v2, other) {
            let j = choose|j: int|
                0 <= j < v2.namespaces.len() && (#[trigger] v2.namespaces[j].id) == other;
            assert(j != v.namespaces.len());
            assert(v.namespaces[j].id == other);
            assert(has_ns(v, other));
        }
    }
}

impl MetaIndex {
    /// Explicitly creates a namespace under a caller-supplied identifier.
    /// An identifier that is already taken is a conflict.
    pub fn create_namespace(&mut self, id: Vec<u8>) -> (r: Result<(), Error>)
        requires
            inv(old(self)@),
        ensures
            inv(final(self)@),
            match r {
                Ok(()) => spec_create_ns(old(self)@, id@) == Some(final(self)@),
                Err(e) => {
                    &&& e == Error::Conflict
                    &&& has_ns(old(self)@, id@)
                    &&& final(self)@ == old(self)@
                },
            },
    {
        match self.find_namespace(id.as_slice()) {
            Some(i) => {
                proof {
                    lemma_ns_at_unique(self@, id@, i as int);
                }
                Err(Error::Conflict)
            },
            None => {
                let ghost v = self@;
                let rec = NamespaceRec { id, total_size: 0, objects: Vec::new() };
                let ghost recv = rec@;
                self.namespaces.push(rec);
                proof {
                    assert(self@.namespaces =~= v.namespaces.push(recv));
                    assert(recv.objects =~= Seq::<ObjectView>::empty());
                    let v2 = self@;
                    assert(ns_wf(recv, v2.next_id));
                    assert forall|j: int| 0 <= j < v2.namespaces.len() implies #[trigger] ns_wf(
                        v2.namespaces[j],
                        v2.next_id,
                    ) by {
                        if j < v.namespaces.len() {
                            assert(v2.namespaces[j] == v.namespaces[j]);
                            assert(ns_wf(v.namespaces[j], v.next_id));
                        }
                    }
                    assert forall|x: int, y: int| 0 <= x < y < v2.namespaces.len() implies (
                    #[trigger] v2.namespaces[x].id) != (#[trigger] v2.namespaces[y].id) by {
                        if y == v.namespaces.len() {
                            if v.namespaces[x].id == recv.id {
                                assert(has_ns(v, recv.id));
                            }
                        }
                    }
                    assert(spec_create_ns(v, recv.id) == Some(self@));
                }
                Ok(())
            },
        }
    }

    /// Inserts an object at `(namespace_id, path)`, creating the namespace
    /// implicitly if needed, and adjusts the namespace's `total_size` in the
    /// same step. Returns the assigned object id. A taken key is a conflict;
    /// an aggregate or id counter that would leave its range fails the
    /// command and changes nothing.
    pub fn insert_metadata(
        &mut self,
        namespace_id: Vec<u8>,
        path: Vec<u8>,
        physical_location: Vec<u8>,
        size: u64,
        created_at: Vec<u8>,
    ) -> (r: Result<u64, Error>)
        requires
            inv(old(self)@),
        ensures
            inv(final(self)@),
            match r {
                Ok(id) => spec_insert(
                    old(self)@,
                    namespace_id@,
                    path@,
                    physical_location@,
                    size,
                    created_at@,
                ) == Some((final(self)@, id)),
                Err(e) => {
                    &&& final(self)@ == old(self)@
                    &&& spec_insert(
                        old(self)@,
                        namespace_id@,
                        path@,
                        physical_location@,
                        size,
                        created_at@,
                    ) is None
                    &&& e == (if has_object(old(self)@, namespace_id@, path@) {
                        Error::Conflict
                    } else {
                        Error::IndexFailure
                    })
                },
            },
    {
        let ghost v = self@;
        if self.next_id == u64::MAX {
            // The id space is exhausted; still report a taken key as the
            // conflict it is.
            return match self.find_namespace(namespace_id.as_slice()) {
                Some(i) => {
                    proof {
                        lemma_ns_at_unique(v, namespace_id@, i as int);
                    }
                    match self.find_object_in(i, path.as_slice()) {
                        Some(_) => Err(Error::Conflict),
                        None => Err(Error::IndexFailure),
                    }
                },
                None => Err(Error::IndexFailure),
            };
        }
        match self.find_namespace(namespace_id.as_slice()) {
            Some(i) => {
                proof {
                    lemma_ns_at_unique(v, namespace_id@, i as int);
                    assert(ns_wf(v.namespaces[i as int], v.next_id));
                }
                if self.find_object_in(i, path.as_slice()).is_some() {
                    return Err(Error::Conflict);
                }
                let total = self.namespaces[i].total_size;
                if size > u64::MAX - total {
                    return Err(Error::IndexFailure);
                }
                let obj = Object {
                    id: self.next_id,
                    namespace_id,
                    path,
                    physical_location,
                    size,
                    created_at,
                };
                let ghost objv = obj@;
                let mut rec = self.namespaces.remove(i);
                let ghost recv = rec@;
                rec.total_size = rec.total_size + size;
                rec.objects.push(obj);
                let ghost recv2 = rec@;
                self.namespaces.insert(i, rec);
                let id = self.next_id;
                self.next_id = self.next_id + 1;
                proof {
                    assert(recv == v.namespaces[i as int]);
                    assert(recv2.objects =~= recv.objects.push(objv));
                    assert(self@.namespaces =~= v.namespaces.update(i as int, recv2));
                    assert(recv2 =~= NamespaceRecView {
                        id: recv.id,
                        total_size: (recv.total_size + size) as u64,
                        objects: recv.objects.push(objv),
                    });
                    assert(spec_insert(v, objv.namespace_id, objv.path, objv.physical_location,
                        size, objv.created_at) == Some((self@, id)));
                    lemma_insert_effects(v, objv.namespace_id, objv.path, objv.physical_location,
                        size, objv.created_at);
                }
                Ok(id)
            },
            None => {
                let ns_copy = clone_bytes(&namespace_id);
                let obj = Object {
                    id: self.next_id,
                    namespace_id,
                    path,
                    physical_location,
                    size,
                    created_at,
                };
                let ghost objv = obj@;
                let mut objs: Vec<Object> = Vec::new();
                objs.push(obj);
                let rec = NamespaceRec { id: ns_copy, total_size: size, objects: objs };
                let ghost recv = rec@;
                self.namespaces.push(rec);
                let id = self.next_id;
                self.next_id = self.next_id + 1;
                proof {
                    assert(recv.objects =~= seq![objv]);
                    assert(self@.namespaces =~= v.namespaces.push(recv));
                    assert(recv =~= NamespaceRecView {
                        id: objv.namespace_id,
                        total_size: size,
                        objects: seq![objv],
                    });
                    assert(spec_insert(v, objv.namespace_id, objv.path, objv.physical_location,
                        size, objv.created_at) == Some((self@, id)));
                    lemma_insert_effects(v, objv.namespace_id, objv.path, objv.physical_location,
                        size, objv.created_at);
                }
                Ok(id)
            },
        }
    }

    /// Deletes the object at `(namespace_id, path)` and returns the removed
    /// row, whose size is the freed byte count and whose physical location
    /// the caller unlinks after the commit. The namespace record stays, its
    /// `total_size` reduced accordingly.
    pub fn delete_metadata(&mut self, namespace_id: &[u8], path: &[u8]) -> (r: Result<
        Object,
        Error,
    >)
        requires
            inv(old(self)@),
        ensures
            inv(final(self)@),
            match r {
                Ok(obj) => spec_delete(old(self)@, namespace_id@, path@) == Some(
                    (final(self)@, obj@),
                ),
                Err(e) => {
                    &&& e == Error::NotFound
                    &&& !has_object(old(self)@, namespace_id@, path@)
                    &&& final(self)@ == old(self)@
                },
            },
    {
        let ghost v = self@;
        let i = match self.find_namespace(namespace_id) {
            Some(i) => i,
            None => {
                return Err(Error::NotFound);
            },
        };
        proof {
            lemma_ns_at_unique(v, namespace_id@, i as int);
        }
        let a = match self.find_object_in(i, path) {
            Some(a) => a,
            None => {
                return Err(Error::NotFound);
            },
        };
        proof {
            assert(ns_wf(v.namespaces[i as int], v.next_id));
            lemma_obj_at_unique(v.namespaces[i as int], v.next_id, path@, a as int);
            lemma_delete_effects(v, namespace_id@, path@);
        }
        let mut rec = self.namespaces.remove(i);
        let ghost recv = rec@;
        let obj = rec.objects.remove(a);
        proof {
            assert(recv == v.namespaces[i as int]);
            assert(rec@.objects =~= recv.objects.remove(a as int));
            assert(obj@ == recv.objects[a as int]);
        }
        rec.total_size = rec.total_size - obj.size;
        let ghost recv2 = rec@;
        self.namespaces.insert(i, rec);
        proof {
            assert(self@.namespaces =~= v.namespaces.update(i as int, recv2));
            assert(recv2 =~= NamespaceRecView {
                id: recv.id,
                total_size: (recv.total_size - obj@.size) as u64,
                objects: recv.objects.remove(a as int),
            });
            assert(spec_delete(v, namespace_id@, path@) == Some((self@, obj@)));
        }
        Ok(obj)
    }

    /// Deletes a whole namespace, cascading to every object in it, and
    /// returns the removed record: its `total_size` is the freed byte
    /// count, and its objects carry the physical locations the caller
    /// unlinks after the commit.
    pub fn delete_namespace(&mut self, namespace_id: &[u8]) -> (r: Result<NamespaceRec, Error>)
        requires
            inv(old(self)@),
        ensures
            inv(final(self)@),
            match r {
                Ok(rec) => spec_delete_ns(old(self)@, namespace_id@) == Some(
                    (final(self)@, rec@),
                ),
                Err(e) => {
                    &&& e == Error::NotFound
                    &&& !has_ns(old(self)@, namespace_id@)
                    &&& final(self)@ == old(self)@
                },
            },
    {
        let ghost v = self@;
        let i = match self.find_namespace(namespace_id) {
            Some(i) => i,
            None => {
                return Err(Error::NotFound);
            },
        };
        proof {
            lemma_ns_at_unique(v, namespace_id@, i as int);
            lemma_delete_ns_effects(v, namespace_id@);
        }
        let rec = self.namespaces.remove(i);
        proof {
            assert(self@.namespaces =~= v.namespaces.remove(i as int));
            assert(rec@ == v.namespaces[i as int]);
            assert(spec_delete_ns(v, namespace_id@) == Some((self@, rec@)));
        }
        Ok(rec)
    }
}

} // verus!
