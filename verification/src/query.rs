//! The path query engine: directory-like listings over a flat key space.
//!
//! Given a prefix (expected to end in the separator), the listing returns
//! every object of the namespace whose path starts with the prefix and has
//! no further separator after it — the immediate children only. Each entry
//! is classified as directory-like exactly when further objects nest
//! beneath it; the classification is derived from the index, never stored.
//! Entries come in the index's insertion order, so a listing is stable for
//! a given index state.

use vstd::prelude::*;

use crate::bytes::clone_bytes;
use crate::codec::ListEntry;
use crate::codec::ListEntryView;
use crate::index::has_ns;
use crate::index::inv;
use crate::index::lemma_ns_at_unique;
use crate::index::ns_at;
use crate::index::MetaIndex;
use crate::index::MetaIndexView;
use crate::index::Object;
use crate::index::ObjectView;

verus! {

/// The path separator that layers directory semantics over flat keys.
pub const SEPARATOR: u8 = 47;

/// Whether `path` starts with `prefix`.
pub open spec fn spec_starts_with(path: Seq<u8>, prefix: Seq<u8>) -> bool {
    path.len() >= prefix.len() && path.take(prefix.len() as int) == prefix
}

/// Whether `path` is an immediate child of `prefix`: it extends the prefix
/// and no separator follows it.
pub open spec fn is_child(path: Seq<u8>, prefix: Seq<u8>) -> bool {
    &&& spec_starts_with(path, prefix)
    &&& forall|k: int| prefix.len() <= k < path.len() ==> path[k] != SEPARATOR
}

/// Whether some object nests beneath `path`: its own path strictly extends
/// `path` and continues with the separator.
pub open spec fn has_descendant(objs: Seq<ObjectView>, path: Seq<u8>) -> bool {
    exists|b: int|
        0 <= b < objs.len() && (#[trigger] objs[b].path).len() > path.len() && objs[b].path.take(
            path.len() as int,
        ) == path && objs[b].path[path.len() as int] == SEPARATOR
}

/// The listing entries for the objects of `objs` that are immediate
/// children of `prefix`, in order; `all` is the namespace's full object
/// run, against which each entry is classified.
pub open spec fn spec_entries(objs: Seq<ObjectView>, all: Seq<ObjectView>, prefix: Seq<u8>) -> Seq<
    ListEntryView,
>
    decreases objs.len(),
{
    if objs.len() == 0 {
        Seq::empty()
    } else {
        let rest = spec_entries(objs.drop_last(), all, prefix);
        let o = objs.last();
        if is_child(o.path, prefix) {
            rest.push(
                ListEntryView { is_dir: has_descendant(all, o.path), path: o.path, size: o.size },
            )
        } else {
            rest
        }
    }
}

/// The listing of namespace `ns` under `prefix`; empty when the namespace
/// does not exist.
pub open spec fn spec_listing(v: MetaIndexView, ns: Seq<u8>, prefix: Seq<u8>) -> Seq<
    ListEntryView,
> {
    if !has_ns(v, ns) {
        Seq::empty()
    } else {
        let r = v.namespaces[ns_at(v, ns)];
        spec_entries(r.objects, r.objects, prefix)
    }
}

/// Whether `path` starts with `prefix`, byte for byte.
pub fn starts_with(path: &[u8], prefix: &[u8]) -> (r: bool)
    ensures
        r <==> spec_starts_with(path@, prefix@),
{
    if path.len() < prefix.len() {
        return false;
    }
    let mut k: usize = 0;
    while k < prefix.len()
        invariant
            k <= prefix@.len() <= path@.len(),
            forall|j: int| 0 <= j < k ==> path@[j] == prefix@[j],
        decreases prefix@.len() - k,
    {
        if path[k] != prefix[k] {
            proof {
                assert(path@.take(prefix@.len() as int)[k as int] != prefix@[k as int]);
            }
            return false;
        }
        k = k + 1;
    }
    proof {
        assert(path@.take(prefix@.len() as int) =~= prefix@);
    }
    true
}

/// Whether `path` is an immediate child of `prefix`.
pub fn child_of(path: &[u8], prefix: &[u8]) -> (r: bool)
    ensures
        r <==> is_child(path@, prefix@),
{
    if !starts_with(path, prefix) {
        return false;
    }
    let mut k: usize = prefix.len();
    while k < path.len()
        invariant
            prefix@.len() <= k <= path@.len(),
            forall|j: int| prefix@.len() <= j < k ==> path@[j] != SEPARATOR,
        decreases path@.len() - k,
    {
        if path[k] == SEPARATOR {
            return false;
        }
        k = k + 1;
    }
    true
}

/// Whether some object of `objects` nests beneath `path`.
fn find_descendant(objects: &Vec<Object>, path: &[u8]) -> (r: bool)
    ensures
        r <==> has_descendant(objects@.map_values(|o: Object| o@), path@),
{
    let ghost m = objects@.map_values(|o: Object| o@);
    let mut b: usize = 0;
    while b < objects.len()
        invariant
            b <= objects@.len(),
            m == objects@.map_values(|o: Object| o@),
            forall|j: int|
                0 <= j < b ==> !((#[trigger] m[j].path).len() > path@.len() && m[j].path.take(
                    path@.len() as int,
                ) == path@ && m[j].path[path@.len() as int] == SEPARATOR),
        decreases objects@.len() - b,
    {
        proof {
            assert(m[b as int] == objects@[b as int]@);
        }
        let o = &objects[b];
        if o.path.len() > path.len() && starts_with(o.path.as_slice(), path) && o.path[path.len()]
            == SEPARATOR {
            proof {
                assert(m[b as int].path.len() > path@.len() && m[b as int].path.take(
                    path@.len() as int,
                ) == path@ && m[b as int].path[path@.len() as int] == SEPARATOR);
                assert(has_descendant(m, path@));
            }
            return true;
        }
        b = b + 1;
    }
    false
}

impl MetaIndex {
    /// Lists the immediate children of `prefix` within a namespace, each
    /// classified as file or directory-like. A namespace that does not
    /// exist lists as empty.
    pub fn get_objects_in_path(&self, namespace_id: &[u8], prefix: &[u8]) -> (r: Vec<ListEntry>)
        requires
            inv(self@),
        ensures
            r@.map_values(|e: ListEntry| e@) == spec_listing(self@, namespace_id@, prefix@),
    {
        let mut out: Vec<ListEntry> = Vec::new();
        let i = match self.find_namespace(namespace_id) {
            Some(i) => i,
            None => {
                proof {
                    assert(out@.map_values(|e: ListEntry| e@) =~= Seq::<ListEntryView>::empty());
                }
                return out;
            },
        };
        proof {
            lemma_ns_at_unique(self@, namespace_id@, i as int);
            assert(self@.namespaces[i as int] == self.namespaces@[i as int]@);
        }
        let rec = &self.namespaces[i];
        let ghost m = rec.objects@.map_values(|o: Object| o@);
        let mut a: usize = 0;
        while a < rec.objects.len()
            invariant
                a <= rec.objects@.len(),
                m == rec.objects@.map_values(|o: Object| o@),
                out@.map_values(|e: ListEntry| e@) == spec_entries(m.take(a as int), m, prefix@),
            decreases rec.objects@.len() - a,
        {
            proof {
                assert(m[a as int] == rec.objects@[a as int]@);
                assert(m.take(a + 1).drop_last() =~= m.take(a as int));
                assert(m.take(a + 1).last() == m[a as int]);
            }
            let o = &rec.objects[a];
            if child_of(o.path.as_slice(), prefix) {
                let is_dir = find_descendant(&rec.objects, o.path.as_slice());
                let entry = ListEntry { is_dir, path: clone_bytes(&o.path), size: o.size };
                let ghost before = out@.map_values(|e: ListEntry| e@);
                out.push(entry);
                proof {
                    assert(out@.map_values(|e: ListEntry| e@) =~= before.push(entry@));
                }
            }
            a = a + 1;
        }
        proof {
            assert(m.take(rec.objects@.len() as int) =~= m);
            assert(rec@ == self@.namespaces[ns_at(self@, namespace_id@)]);
        }
        out
    }
}

} // verus!
