//! The catalog: every file, namespace, attribute and file-attribute pairing,
//! with the integrity invariants the relational store keeps for them.
//!
//! Operations on the tables live with their row types; this module holds the
//! tables, the well-formedness predicate, and the small facts (unique ids,
//! bounded table sizes) everything else builds on.
use vstd::prelude::*;

use crate::attribute::Attribute;
use crate::file::{File, FileAttribute};
use crate::namespace::Namespace;

verus! {

/// Distinct rows carry distinct keys.
pub open spec fn uniq_by<T, K>(s: Seq<T>, key: spec_fn(T) -> K) -> bool {
    forall|i: int, j: int|
        0 <= i < s.len() && 0 <= j < s.len() && i != j ==> key(#[trigger] s[i]) != key(
            #[trigger] s[j],
        )
}

/// Distinct rows carry distinct integer ids.
pub open spec fn uniq_ids<T>(s: Seq<T>, key: spec_fn(T) -> i32) -> bool {
    uniq_by(s, key)
}

/// Every row's key is positive and below the table's next free id.
pub open spec fn ids_bounded<T>(s: Seq<T>, key: spec_fn(T) -> i32, hi: i32) -> bool {
    forall|i: int| 0 <= i < s.len() ==> 0 < key(#[trigger] s[i]) && key(s[i]) < hi
}

/// The pair `(fid, aid)` occurs in the table.
pub open spec fn assoc_in(s: Seq<FileAttribute>, fid: i32, aid: i32) -> bool {
    exists|i: int|
        0 <= i < s.len() && (#[trigger] s[i]).file_id == fid && s[i].attribute_id == aid
}

/// The attribute occurs in some pair of the table.
pub open spec fn attr_used(s: Seq<FileAttribute>, aid: i32) -> bool {
    exists|i: int| 0 <= i < s.len() && (#[trigger] s[i]).attribute_id == aid
}

/// The whole catalog.
pub struct Catalog {
    pub files: Vec<File>,
    pub namespaces: Vec<Namespace>,
    pub attributes: Vec<Attribute>,
    pub file_attributes: Vec<FileAttribute>,
    pub next_file_id: i32,
    pub next_namespace_id: i32,
    pub next_attribute_id: i32,
    pub next_file_attribute_id: i32,
}

impl Catalog {
    /// A namespace row with this id exists.
    pub open spec fn has_ns_id(self, id: i32) -> bool {
        exists|i: int|
            0 <= i < self.namespaces@.len() && (#[trigger] self.namespaces@[i]).id == id
    }

    /// A namespace row with this name, owned by this user, exists.
    pub open spec fn has_ns_named(self, name: Seq<char>, uid: i32) -> bool {
        exists|i: int|
            0 <= i < self.namespaces@.len() && (#[trigger] self.namespaces@[i]).name@ == name
                && self.namespaces@[i].user_id == uid
    }

    /// The unique namespace row with this id.
    pub open spec fn ns_by_id(self, id: i32) -> Namespace {
        self.namespaces@[choose|i: int|
            0 <= i < self.namespaces@.len() && (#[trigger] self.namespaces@[i]).id == id]
    }

    /// A file row with this id, owned by this user, exists.
    pub open spec fn has_file_of_user(self, id: i32, uid: i32) -> bool {
        exists|i: int|
            0 <= i < self.files@.len() && (#[trigger] self.files@[i]).id == id
                && self.files@[i].user_id == uid
    }

    /// A file row with this id exists.
    pub open spec fn has_file_id(self, id: i32) -> bool {
        exists|i: int| 0 <= i < self.files@.len() && (#[trigger] self.files@[i]).id == id
    }

    /// An attribute row with this uniqueness key exists.
    pub open spec fn has_attr_key(
        self,
        name: Seq<char>,
        t: crate::attribute::AttributeType,
        uid: i32,
        nsid: i32,
    ) -> bool {
        exists|i: int|
            0 <= i < self.attributes@.len() && crate::attribute::attr_key_is(
                #[trigger] self.attributes@[i],
                name,
                t,
                uid,
                nsid,
            )
    }

    /// An attribute row with this id exists.
    pub open spec fn has_attr_id(self, id: i32) -> bool {
        exists|i: int| 0 <= i < self.attributes@.len() && (#[trigger] self.attributes@[i]).id == id
    }

    /// The file and the attribute are paired.
    pub open spec fn has_assoc(self, fid: i32, aid: i32) -> bool {
        assoc_in(self.file_attributes@, fid, aid)
    }

    /// The attributes paired with a file, in catalog order.
    pub open spec fn attrs_of(self, fid: i32) -> Seq<Attribute> {
        self.attributes@.filter(|a: Attribute| self.has_assoc(fid, a.id))
    }

    pub open spec fn files_wf(self) -> bool {
        &&& uniq_ids(self.files@, |f: File| f.id)
        &&& ids_bounded(self.files@, |f: File| f.id, self.next_file_id)
        &&& forall|i: int|
            0 <= i < self.files@.len() ==> self.has_ns_id(
                (#[trigger] self.files@[i]).namespace_id,
            )
    }

    pub open spec fn namespaces_wf(self) -> bool {
        &&& uniq_ids(self.namespaces@, |n: Namespace| n.id)
        &&& ids_bounded(self.namespaces@, |n: Namespace| n.id, self.next_namespace_id)
        &&& uniq_by(self.namespaces@, |n: Namespace| (n.name@, n.user_id))
    }

    pub open spec fn attributes_wf(self) -> bool {
        &&& uniq_ids(self.attributes@, |a: Attribute| a.id)
        &&& ids_bounded(self.attributes@, |a: Attribute| a.id, self.next_attribute_id)
        &&& uniq_by(
            self.attributes@,
            |a: Attribute| (a.name@, a.type_, a.user_id, a.namespace_id),
        )
    }

    pub open spec fn assocs_wf(self) -> bool {
        uniq_by(self.file_attributes@, |fa: FileAttribute| (fa.file_id, fa.attribute_id))
    }

    /// The integrity invariant of the whole catalog: unique ids, unique
    /// uniqueness keys, no duplicate pairings, and every file's namespace
    /// present.
    pub open spec fn wf(self) -> bool {
        &&& self.files_wf()
        &&& self.namespaces_wf()
        &&& self.attributes_wf()
        &&& self.assocs_wf()
        &&& 0 < self.next_file_id
        &&& 0 < self.next_namespace_id
        &&& 0 < self.next_attribute_id
        &&& 0 < self.next_file_attribute_id
    }

    /// An empty catalog.
    pub fn new() -> (r: Catalog)
        ensures
            r.wf(),
            r.files@ == Seq::<File>::empty(),
            r.namespaces@ == Seq::<Namespace>::empty(),
            r.attributes@ == Seq::<Attribute>::empty(),
            r.file_attributes@ == Seq::<FileAttribute>::empty(),
    {
        Catalog {
            files: Vec::new(),
            namespaces: Vec::new(),
            attributes: Vec::new(),
            file_attributes: Vec::new(),
            next_file_id: 1,
            next_namespace_id: 1,
            next_attribute_id: 1,
            next_file_attribute_id: 1,
        }
    }
}

/// The file table (rows and counter) is the same in both catalogs.
pub open spec fn same_files(a: Catalog, b: Catalog) -> bool {
    a.files@ == b.files@ && a.next_file_id == b.next_file_id
}

/// The namespace table is the same in both catalogs.
pub open spec fn same_namespaces(a: Catalog, b: Catalog) -> bool {
    a.namespaces@ == b.namespaces@ && a.next_namespace_id == b.next_namespace_id
}

/// The attribute table is the same in both catalogs.
pub open spec fn same_attributes(a: Catalog, b: Catalog) -> bool {
    a.attributes@ == b.attributes@ && a.next_attribute_id == b.next_attribute_id
}

/// The pairing table is the same in both catalogs.
pub open spec fn same_assocs(a: Catalog, b: Catalog) -> bool {
    a.file_attributes@ == b.file_attributes@ && a.next_file_attribute_id
        == b.next_file_attribute_id
}

/// A namespace id found in one catalog is found in any catalog with the
/// same namespace table.
pub proof fn lemma_ns_id_transfer(a: Catalog, b: Catalog, id: i32)
    requires
        a.namespaces@ == b.namespaces@,
        a.has_ns_id(id),
    ensures
        b.has_ns_id(id),
{
    let k = choose|i: int| 0 <= i < a.namespaces@.len() && (#[trigger] a.namespaces@[i]).id == id;
    assert(b.namespaces@[k].id == id);
}

/// The file-table invariant carries over to a catalog with the same file
/// and namespace tables.
pub proof fn lemma_files_wf_transfer(a: Catalog, b: Catalog)
    requires
        a.files_wf(),
        b.files@ == a.files@,
        b.namespaces@ == a.namespaces@,
        b.next_file_id == a.next_file_id,
    ensures
        b.files_wf(),
{
    assert forall|i: int| 0 <= i < b.files@.len() implies b.has_ns_id(
        (#[trigger] b.files@[i]).namespace_id,
    ) by {
        assert(a.has_ns_id(a.files@[i].namespace_id));
        lemma_ns_id_transfer(a, b, a.files@[i].namespace_id);
    }
}

/// Everything a filter keeps was in the sequence and satisfies the
/// predicate.
pub proof fn lemma_filter_sub<T>(s: Seq<T>, pred: spec_fn(T) -> bool)
    ensures
        forall|x: T| #[trigger] s.filter(pred).contains(x) ==> s.contains(x) && pred(x),
    decreases s.len(),
{
    reveal(Seq::filter);
    if s.len() != 0 {
        let d = s.drop_last();
        lemma_filter_sub(d, pred);
        assert forall|x: T| #[trigger] s.filter(pred).contains(x) implies s.contains(x) && pred(
            x,
        ) by {
            if pred(s.last()) && x == s.last() {
                assert(s[s.len() - 1] == x);
            } else {
                if s.filter(pred) == d.filter(pred).push(s.last()) {
                    if x != s.last() {
                        let i = choose|i: int|
                            0 <= i < s.filter(pred).len() && s.filter(pred)[i] == x;
                        assert(d.filter(pred).contains(x));
                    }
                } else {
                    assert(d.filter(pred).contains(x));
                }
                if d.contains(x) {
                    let k = choose|k: int| 0 <= k < d.len() && d[k] == x;
                    assert(s[k] == x);
                }
            }
        }
    }
}

/// Filtering keeps keys distinct.
pub proof fn lemma_filter_uniq_by<T, K>(s: Seq<T>, pred: spec_fn(T) -> bool, key: spec_fn(T) -> K)
    requires
        uniq_by(s, key),
    ensures
        uniq_by(s.filter(pred), key),
    decreases s.len(),
{
    reveal(Seq::filter);
    if s.len() != 0 {
        let d = s.drop_last();
        assert(uniq_by(d, key)) by {
            assert forall|i: int, j: int|
                0 <= i < d.len() && 0 <= j < d.len() && i != j implies key(#[trigger] d[i]) != key(
                #[trigger] d[j],
            ) by {
                assert(key(s[i]) != key(s[j]));
            }
        }
        lemma_filter_uniq_by(d, pred, key);
        if pred(s.last()) {
            let f = d.filter(pred);
            lemma_filter_sub(d, pred);
            assert forall|i: int, j: int|
                0 <= i < f.push(s.last()).len() && 0 <= j < f.push(s.last()).len() && i != j
                implies key(#[trigger] f.push(s.last())[i]) != key(
                #[trigger] f.push(s.last())[j],
            ) by {
                if i == f.len() || j == f.len() {
                    let o = if i == f.len() {
                        j
                    } else {
                        i
                    };
                    assert(f.contains(f[o]));
                    let k = choose|k: int| 0 <= k < d.len() && d[k] == f[o];
                    assert(s[k] == f[o]);
                    assert(key(s[k]) != key(s[s.len() - 1]));
                }
            }
        }
    }
}

/// Filtering keeps ids inside their bounds.
pub proof fn lemma_filter_ids_bounded<T>(
    s: Seq<T>,
    pred: spec_fn(T) -> bool,
    key: spec_fn(T) -> i32,
    hi: i32,
)
    requires
        ids_bounded(s, key, hi),
    ensures
        ids_bounded(s.filter(pred), key, hi),
{
    lemma_filter_sub(s, pred);
    let f = s.filter(pred);
    assert forall|i: int| 0 <= i < f.len() implies 0 < key(#[trigger] f[i]) && key(f[i]) < hi by {
        assert(f.contains(f[i]));
        let k = choose|k: int| 0 <= k < s.len() && s[k] == f[i];
        assert(0 < key(s[k]) && key(s[k]) < hi);
    }
}

/// Filtering a sequence extended by one element keeps the filtered prefix
/// and appends the element exactly when it satisfies the predicate.
pub proof fn lemma_filter_push<T>(s: Seq<T>, x: T, pred: spec_fn(T) -> bool)
    ensures
        s.push(x).filter(pred) == if pred(x) {
            s.filter(pred).push(x)
        } else {
            s.filter(pred)
        },
{
    reveal(Seq::filter);
    assert(s.push(x).drop_last() =~= s);
    assert(s.push(x).last() == x);
}

/// A table whose keys are distinct values of a bounded integer range cannot
/// have more rows than the range has values.
pub proof fn lemma_unique_key_len<T>(s: Seq<T>, key: spec_fn(T) -> i32, lo: int, hi: int)
    requires
        uniq_ids(s, key),
        forall|i: int| 0 <= i < s.len() ==> lo <= key(#[trigger] s[i]) && key(s[i]) < hi,
        lo <= hi,
    ensures
        s.len() <= hi - lo,
{
    let ids = s.map_values(|t: T| key(t) as int);
    assert(ids.no_duplicates()) by {
        assert forall|i: int, j: int|
            0 <= i < ids.len() && 0 <= j < ids.len() && i != j implies ids[i] != ids[j] by {
            assert(key(s[i]) != key(s[j]));
        }
    }
    ids.unique_seq_to_set();
    let range = vstd::set_lib::set_int_range(lo, hi);
    vstd::set_lib::lemma_int_range(lo, hi);
    assert(ids.to_set().subset_of(range)) by {
        assert forall|x: int| ids.to_set().contains(x) implies range.contains(x) by {
            let i = choose|i: int| 0 <= i < ids.len() && ids[i] == x;
            assert(lo <= key(s[i]) < hi);
        }
    }
    vstd::set_lib::lemma_len_subset(ids.to_set(), range);
}

/// Under the invariant, each table fits comfortably in the id space.
pub proof fn lemma_table_sizes(cat: Catalog)
    requires
        cat.wf(),
    ensures
        cat.files@.len() < 0x8000_0000,
        cat.namespaces@.len() < 0x8000_0000,
        cat.attributes@.len() < 0x8000_0000,
{
    lemma_unique_key_len(cat.files@, |f: File| f.id, 1, cat.next_file_id as int);
    lemma_unique_key_len(cat.namespaces@, |n: Namespace| n.id, 1, cat.next_namespace_id as int);
    lemma_unique_key_len(cat.attributes@, |a: Attribute| a.id, 1, cat.next_attribute_id as int);
}

} // verus!
