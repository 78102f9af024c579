//! A file row of the catalog, and the many-to-many pairing between files
//! and attributes.
use vstd::prelude::*;

use crate::attribute::Attribute;
use crate::catalog::{
    assoc_in, attr_used, lemma_filter_ids_bounded, lemma_filter_push, lemma_filter_sub,
    lemma_filter_uniq_by, lemma_table_sizes, same_assocs, same_attributes, same_files,
    same_namespaces, Catalog,
};
use crate::namespace::Namespace;
use crate::response_code::{Origin, RestError};
use crate::text::{like_match, str_eq};
use crate::utils::{now_epoch, random_string};

verus! {

use vstd::string::StringSliceAdditionalSpecFns;

/// A file row of the catalog.  The bytes themselves are stored outside the
/// catalog under `local_name`.
#[derive(Debug)]
pub struct File {
    pub id: i32,
    pub name: String,
    pub user_id: i32,
    pub local_name: String,
    pub uploaded_at: i64,
    pub file_size: i64,
    pub file_type: String,
    pub is_public: bool,
    pub public_filename: Option<String>,
    pub namespace_id: i32,
    pub encryption: i32,
    pub checksum: String,
}

/// Clones an optional string, keeping its value.
pub fn clone_opt_string(o: &Option<String>) -> (r: Option<String>)
    ensures
        r == *o,
{
    match o {
        Some(s) => Some(s.clone()),
        None => None,
    }
}

impl Clone for File {
    fn clone(&self) -> (r: Self)
        ensures
            r == *self,
    {
        File {
            id: self.id,
            name: self.name.clone(),
            user_id: self.user_id,
            local_name: self.local_name.clone(),
            uploaded_at: self.uploaded_at,
            file_size: self.file_size,
            file_type: self.file_type.clone(),
            is_public: self.is_public,
            public_filename: clone_opt_string(&self.public_filename),
            namespace_id: self.namespace_id,
            encryption: self.encryption,
            checksum: self.checksum.clone(),
        }
    }
}

impl Default for File {
    /// A blank file row; the upload time is read from the clock.
    fn default() -> (r: Self)
        ensures
            r.id == 0,
            r.name@ == Seq::<char>::empty(),
            r.user_id == 0,
            r.local_name@ == Seq::<char>::empty(),
            r.file_size == 0,
            r.file_type@ == Seq::<char>::empty(),
            !r.is_public,
            r.public_filename is None,
            r.namespace_id == 0,
            r.encryption == 0,
            r.checksum@ == Seq::<char>::empty(),
    {
        File {
            id: 0,
            name: String::new(),
            user_id: 0,
            local_name: String::new(),
            uploaded_at: now_epoch(),
            file_size: 0,
            file_type: String::new(),
            is_public: false,
            public_filename: None,
            namespace_id: 0,
            encryption: 0,
            checksum: String::new(),
        }
    }
}

/// The row matches the name/namespace key used when replacing uploads by
/// name.
pub open spec fn file_name_ns_is(f: File, name: Seq<char>, ns: i32) -> bool {
    f.name@ == name && f.namespace_id == ns
}

/// The predicate `File::find` filters with: by id when one is set, else by
/// case-insensitive name pattern; scoped to the probe's namespace unless
/// that is unset or ignored, else to the probe's owner.
pub open spec fn spec_find_pred(probe: File, ignore_ns: bool, f: File) -> bool {
    (if probe.id > 0 {
        f.id == probe.id
    } else {
        like_match(vstd::utf8::encode_utf8(probe.name@), vstd::utf8::encode_utf8(f.name@))
    }) && (if probe.namespace_id > 0 && !ignore_ns {
        f.namespace_id == probe.namespace_id
    } else {
        f.user_id == probe.user_id
    })
}

impl File {
    /// Find a file by its id.  The owner has to be passed as well, in order
    /// to prevent unauthorized access to files.
    pub fn find_by_id(cat: &Catalog, idd: i32, uid: i32) -> (r: Result<File, RestError>)
        ensures
            match r {
                Ok(f) => cat.files@.contains(f) && f.id == idd && f.user_id == uid,
                Err(e) => e == RestError::DNotFound(Origin::File) && !cat.has_file_of_user(
                    idd,
                    uid,
                ),
            },
    {
        let mut i: usize = 0;
        while i < cat.files.len()
            invariant
                i <= cat.files@.len(),
                forall|k: int|
                    0 <= k < i ==> !((#[trigger] cat.files@[k]).id == idd && cat.files@[k].user_id
                        == uid),
            decreases cat.files@.len() - i,
        {
            let f = &cat.files[i];
            if f.id == idd && f.user_id == uid {
                let found = cat.files[i].clone();
                proof {
                    assert(cat.files@.contains(found)) by {
                        assert(cat.files@[i as int] == found);
                    }
                }
                return Ok(found);
            }
            i += 1;
        }
        Err(RestError::DNotFound(Origin::File))
    }

    /// Get the count of files which can be found by the passed name and
    /// namespace.
    pub fn find_by_name_count(cat: &Catalog, f_name: &str, ns: i32) -> (r: i64)
        requires
            cat.wf(),
        ensures
            r == cat.files@.filter(|f: File| file_name_ns_is(f, f_name@, ns)).len(),
    {
        let ghost pred = |f: File| file_name_ns_is(f, f_name@, ns);
        let mut count: usize = 0;
        let mut i: usize = 0;
        proof {
            lemma_table_sizes(*cat);
        }
        while i < cat.files.len()
            invariant
                i <= cat.files@.len(),
                cat.files@.len() < 0x8000_0000,
                count == cat.files@.take(i as int).filter(pred).len(),
                pred == (|f: File| file_name_ns_is(f, f_name@, ns)),
            decreases cat.files@.len() - i,
        {
            proof {
                assert(cat.files@.take(i + 1) == cat.files@.take(i as int).push(
                    cat.files@[i as int]));
                lemma_filter_push(cat.files@.take(i as int), cat.files@[i as int], pred);
                cat.files@.take(i + 1).lemma_filter_len(pred);
            }
            let f = &cat.files[i];
            if f.namespace_id == ns && str_eq(f.name.as_str(), f_name) {
                count = count + 1;
            }
            i += 1;
        }
        proof {
            assert(cat.files@.take(cat.files@.len() as int) == cat.files@);
        }
        count as i64
    }

    /// Find a file by its name and namespace; the first match in catalog
    /// order is returned.
    pub fn find_by_name(cat: &Catalog, f_name: &str, ns: i32) -> (r: Result<File, RestError>)
        ensures
            match r {
                Ok(f) => cat.files@.contains(f) && file_name_ns_is(f, f_name@, ns),
                Err(e) => {
                    &&& e == RestError::DNotFound(Origin::File)
                    &&& forall|k: int|
                        0 <= k < cat.files@.len() ==> !file_name_ns_is(
                            #[trigger] cat.files@[k],
                            f_name@,
                            ns,
                        )
                },
            },
    {
        let mut i: usize = 0;
        while i < cat.files.len()
            invariant
                i <= cat.files@.len(),
                forall|k: int|
                    0 <= k < i ==> !file_name_ns_is(#[trigger] cat.files@[k], f_name@, ns),
            decreases cat.files@.len() - i,
        {
            let f = &cat.files[i];
            if f.namespace_id == ns && str_eq(f.name.as_str(), f_name) {
                let found = cat.files[i].clone();
                proof {
                    assert(cat.files@.contains(found)) by {
                        assert(cat.files@[i as int] == found);
                    }
                }
                return Ok(found);
            }
            i += 1;
        }
        Err(RestError::DNotFound(Origin::File))
    }

    /// Saves an existing file: the row with its id takes this value.
    pub fn save(&self, cat: &mut Catalog)
        requires
            old(cat).wf(),
            old(cat).has_ns_id(self.namespace_id),
        ensures
            final(cat).wf(),
            same_namespaces(*final(cat), *old(cat)),
            same_attributes(*final(cat), *old(cat)),
            same_assocs(*final(cat), *old(cat)),
            final(cat).next_file_id == old(cat).next_file_id,
            final(cat).files@.len() == old(cat).files@.len(),
            forall|j: int|
                0 <= j < old(cat).files@.len() ==> final(cat).files@[j] == if (#[trigger] old(
                    cat,
                ).files@[j]).id == self.id {
                    *self
                } else {
                    old(cat).files@[j]
                },
    {
        let mut out: Vec<File> = Vec::new();
        let mut j: usize = 0;
        while j < cat.files.len()
            invariant
                cat == old(cat),
                old(cat).wf(),
                old(cat).has_ns_id(self.namespace_id),
                j <= cat.files@.len(),
                out@.len() == j,
                forall|k: int|
                    0 <= k < j ==> out@[k] == if (#[trigger] cat.files@[k]).id == self.id {
                        *self
                    } else {
                        cat.files@[k]
                    },
            decreases cat.files@.len() - j,
        {
            if cat.files[j].id == self.id {
                out.push(self.clone());
            } else {
                out.push(cat.files[j].clone());
            }
            j += 1;
        }
        proof {
            let fs = out@;
            let olds = cat.files@;
            assert forall|a: int, b: int|
                0 <= a < fs.len() && 0 <= b < fs.len() && a != b implies (#[trigger] fs[a]).id
                != (#[trigger] fs[b]).id by {
                assert(olds[a].id != olds[b].id);
            }
            assert forall|a: int| 0 <= a < fs.len() implies 0 < (#[trigger] fs[a]).id && fs[a].id
                < cat.next_file_id by {
                assert(0 < olds[a].id && olds[a].id < cat.next_file_id);
            }
        }
        cat.files = out;
        proof {
            assert forall|i2: int| 0 <= i2 < cat.files@.len() implies cat.has_ns_id(
                (#[trigger] cat.files@[i2]).namespace_id,
            ) by {
                if old(cat).files@[i2].id == self.id {
                    crate::catalog::lemma_ns_id_transfer(*old(cat), *cat, self.namespace_id);
                } else {
                    crate::catalog::lemma_ns_id_transfer(
                        *old(cat),
                        *cat,
                        old(cat).files@[i2].namespace_id,
                    );
                }
            }
        }
    }

    /// Insert this value as a new file row: a fresh id is assigned and the
    /// upload time is read from the clock.
    pub fn create(self, cat: &mut Catalog) -> (r: File)
        requires
            old(cat).wf(),
            old(cat).next_file_id < i32::MAX,
            old(cat).has_ns_id(self.namespace_id),
        ensures
            final(cat).wf(),
            same_namespaces(*final(cat), *old(cat)),
            same_attributes(*final(cat), *old(cat)),
            same_assocs(*final(cat), *old(cat)),
            final(cat).files@ == old(cat).files@.push(r),
            final(cat).next_file_id == old(cat).next_file_id + 1,
            r.id == old(cat).next_file_id,
            r.name == self.name,
            r.user_id == self.user_id,
            r.local_name == self.local_name,
            r.file_size == self.file_size,
            r.file_type == self.file_type,
            r.is_public == self.is_public,
            r.public_filename == self.public_filename,
            r.namespace_id == self.namespace_id,
            r.encryption == self.encryption,
            r.checksum == self.checksum,
    {
        let row = File { id: cat.next_file_id, uploaded_at: now_epoch(), ..self };
        let result = row.clone();
        cat.files.push(row);
        cat.next_file_id = cat.next_file_id + 1;
        proof {
            let fs = cat.files@;
            let olds = old(cat).files@;
            assert forall|a: int, b: int|
                0 <= a < fs.len() && 0 <= b < fs.len() && a != b implies (#[trigger] fs[a]).id
                != (#[trigger] fs[b]).id by {
                if a < olds.len() && b < olds.len() {
                    assert(olds[a].id != olds[b].id);
                } else if a < olds.len() {
                    assert(olds[a].id < old(cat).next_file_id);
                } else {
                    assert(olds[b].id < old(cat).next_file_id);
                }
            }
            assert forall|a: int| 0 <= a < fs.len() implies 0 < (#[trigger] fs[a]).id && fs[a].id
                < cat.next_file_id by {
                if a < olds.len() {
                    assert(0 < olds[a].id && olds[a].id < old(cat).next_file_id);
                }
            }
            assert forall|i2: int| 0 <= i2 < fs.len() implies cat.has_ns_id(
                (#[trigger] fs[i2]).namespace_id,
            ) by {
                if i2 < olds.len() {
                    crate::catalog::lemma_ns_id_transfer(*old(cat), *cat, olds[i2].namespace_id);
                } else {
                    crate::catalog::lemma_ns_id_transfer(*old(cat), *cat, self.namespace_id);
                }
            }
        }
        result
    }

    /// Get the namespace of the file.
    pub fn namespace(&self, cat: &Catalog) -> (r: Result<Namespace, RestError>)
        ensures
            match r {
                Ok(ns) => cat.namespaces@.contains(ns) && ns.id == self.namespace_id,
                Err(e) => e == RestError::DNotFound(Origin::Namespace) && !cat.has_ns_id(
                    self.namespace_id,
                ),
            },
    {
        Namespace::find_by_id(cat, self.namespace_id)
    }

    /// Delete the file: its pairings go with it, any attribute left with no
    /// pairing at all is cleaned up, and the row is removed.  The caller is
    /// responsible for removing the stored object under `local_name`.
    pub fn delete(&self, cat: &mut Catalog)
        requires
            old(cat).wf(),
        ensures
            final(cat).wf(),
            same_namespaces(*final(cat), *old(cat)),
            final(cat).next_file_id == old(cat).next_file_id,
            final(cat).next_attribute_id == old(cat).next_attribute_id,
            final(cat).files@ == old(cat).files@.filter(|f: File| f.id != self.id),
            final(cat).file_attributes@ == old(cat).file_attributes@.filter(
                |fa: FileAttribute| fa.file_id != self.id,
            ),
            final(cat).attributes@ == old(cat).attributes@.filter(
                |a: Attribute|
                    !(assoc_in(old(cat).file_attributes@, self.id, a.id) && !attr_used(
                        old(cat).file_attributes@.filter(
                            |fa: FileAttribute| fa.file_id != self.id,
                        ),
                        a.id,
                    )),
            ),
    {
        crate::associations::delete_file_associations(cat, self.id);
        let ghost mid = *cat;
        proof {
            lemma_filter_uniq_by(cat.files@, |f: File| f.id != self.id, |f: File| f.id);
            lemma_filter_ids_bounded(
                cat.files@,
                |f: File| f.id != self.id,
                |f: File| f.id,
                cat.next_file_id,
            );
        }
        let ghost pred = |f: File| f.id != self.id;
        let mut out: Vec<File> = Vec::new();
        let mut i: usize = 0;
        while i < cat.files.len()
            invariant
                *cat == mid,
                i <= cat.files@.len(),
                out@ == cat.files@.take(i as int).filter(pred),
                pred == (|f: File| f.id != self.id),
            decreases cat.files@.len() - i,
        {
            proof {
                assert(cat.files@.take(i + 1) == cat.files@.take(i as int).push(
                    cat.files@[i as int]));
                lemma_filter_push(cat.files@.take(i as int), cat.files@[i as int], pred);
            }
            if cat.files[i].id != self.id {
                out.push(cat.files[i].clone());
            }
            i += 1;
        }
        proof {
            assert(cat.files@.take(cat.files@.len() as int) == cat.files@);
        }
        cat.files = out;
        proof {
            lemma_filter_sub(mid.files@, pred);
            assert forall|i2: int| 0 <= i2 < cat.files@.len() implies cat.has_ns_id(
                (#[trigger] cat.files@[i2]).namespace_id,
            ) by {
                assert(cat.files@.contains(cat.files@[i2]));
                assert(mid.files@.contains(cat.files@[i2]));
                let w = choose|w: int| 0 <= w < mid.files@.len() && mid.files@[w]
                    == cat.files@[i2];
                assert(mid.has_ns_id(mid.files@[w].namespace_id));
                crate::catalog::lemma_ns_id_transfer(mid, *cat, mid.files@[w].namespace_id);
            }
        }
    }
}

/// Some file already claims this public name.
pub open spec fn spec_pub_name_taken(files: Seq<File>, name: Seq<char>) -> bool {
    exists|i: int|
        0 <= i < files.len() && crate::text::opt_str_view(
            (#[trigger] files[i]).public_filename,
        ) == Some(name)
}

/// An id occurs in the list.
pub open spec fn id_in(ids: Seq<i32>, x: i32) -> bool {
    ids.contains(x)
}

/// Whether an id occurs in the list.
pub fn ids_contains(ids: &Vec<i32>, x: i32) -> (r: bool)
    ensures
        r == id_in(ids@, x),
{
    let mut i: usize = 0;
    while i < ids.len()
        invariant
            i <= ids@.len(),
            forall|k: int| 0 <= k < i ==> ids@[k] != x,
        decreases ids@.len() - i,
    {
        if ids[i] == x {
            proof {
                assert(ids@[i as int] == x);
            }
            return true;
        }
        i += 1;
    }
    proof {
        if ids@.contains(x) {
            let w = choose|w: int| 0 <= w < ids@.len() && ids@[w] == x;
        }
    }
    false
}

impl File {
    /// Search for files this probe describes.  Unset values are ignored:
    /// with an id set the id alone decides, else the name is matched as a
    /// case-insensitive pattern; the probe's namespace scopes the search
    /// unless it is unset or ignored, in which case the owner does.
    pub fn find(&self, cat: &Catalog, ignore_ns: bool) -> (r: Vec<File>)
        ensures
            r@ == cat.files@.filter(|f: File| spec_find_pred(*self, ignore_ns, f)),
    {
        let ghost pred = |f: File| spec_find_pred(*self, ignore_ns, f);
        let mut out: Vec<File> = Vec::new();
        let mut i: usize = 0;
        while i < cat.files.len()
            invariant
                i <= cat.files@.len(),
                out@ == cat.files@.take(i as int).filter(pred),
                pred == (|f: File| spec_find_pred(*self, ignore_ns, f)),
            decreases cat.files@.len() - i,
        {
            proof {
                assert(cat.files@.take(i + 1) == cat.files@.take(i as int).push(
                    cat.files@[i as int]));
                lemma_filter_push(cat.files@.take(i as int), cat.files@[i as int], pred);
            }
            let f = &cat.files[i];
            let first = if self.id > 0 {
                f.id == self.id
            } else {
                crate::text::ilike(self.name.as_str(), f.name.as_str())
            };
            let second = if self.namespace_id > 0 && !ignore_ns {
                f.namespace_id == self.namespace_id
            } else {
                f.user_id == self.user_id
            };
            if first && second {
                out.push(cat.files[i].clone());
            }
            i += 1;
        }
        proof {
            assert(cat.files@.take(cat.files@.len() as int) == cat.files@);
        }
        out
    }

    /// Make a file public.  If an empty name is provided, a random one is
    /// generated; a requested name already claimed by some file is refused.
    pub fn publish(&mut self, cat: &mut Catalog, pub_name: &str) -> (r: Result<(), RestError>)
        requires
            old(cat).wf(),
            old(cat).has_ns_id(old(self).namespace_id),
        ensures
            final(cat).wf(),
            same_namespaces(*final(cat), *old(cat)),
            same_attributes(*final(cat), *old(cat)),
            same_assocs(*final(cat), *old(cat)),
            final(cat).next_file_id == old(cat).next_file_id,
            match r {
                Ok(()) => {
                    &&& !spec_pub_name_taken(old(cat).files@, pub_name@)
                    &&& final(self).is_public
                    &&& (pub_name@.len() > 0 ==> crate::text::opt_str_view(
                        final(self).public_filename,
                    ) == Some(pub_name@))
                    &&& (pub_name@.len() == 0 ==> match final(self).public_filename {
                        Some(p) => p@.len() == 25,
                        None => false,
                    })
                    &&& final(self).id == old(self).id
                    &&& final(self).name == old(self).name
                    &&& final(self).user_id == old(self).user_id
                    &&& final(self).local_name == old(self).local_name
                    &&& final(self).uploaded_at == old(self).uploaded_at
                    &&& final(self).file_size == old(self).file_size
                    &&& final(self).file_type == old(self).file_type
                    &&& final(self).namespace_id == old(self).namespace_id
                    &&& final(self).encryption == old(self).encryption
                    &&& final(self).checksum == old(self).checksum
                    &&& final(cat).files@.len() == old(cat).files@.len()
                    &&& forall|j: int|
                        0 <= j < old(cat).files@.len() ==> final(cat).files@[j] == if (
                        #[trigger] old(cat).files@[j]).id == old(self).id {
                            *final(self)
                        } else {
                            old(cat).files@[j]
                        }
                },
                Err(e) => {
                    &&& e == RestError::AlreadyExists
                    &&& spec_pub_name_taken(old(cat).files@, pub_name@)
                    &&& *final(cat) == *old(cat)
                    &&& *final(self) == *old(self)
                },
            },
    {
        let mut i: usize = 0;
        while i < cat.files.len()
            invariant
                *cat == *old(cat),
                *self == *old(self),
                old(cat).wf(),
                i <= cat.files@.len(),
                forall|k: int|
                    0 <= k < i ==> crate::text::opt_str_view(
                        (#[trigger] cat.files@[k]).public_filename,
                    ) != Some(pub_name@),
            decreases cat.files@.len() - i,
        {
            let taken = match &cat.files[i].public_filename {
                Some(p) => str_eq(p.as_str(), pub_name),
                None => false,
            };
            if taken {
                proof {
                    assert(crate::text::opt_str_view(cat.files@[i as int].public_filename)
                        == Some(pub_name@));
                }
                return Err(RestError::AlreadyExists);
            }
            i += 1;
        }
        self.public_filename = if pub_name.is_empty() {
            Some(random_string(25))
        } else {
            Some(pub_name.to_owned())
        };
        self.is_public = true;
        self.save(cat);
        Ok(())
    }

    /// Add a set of attributes to the file.  Pairs that already exist are
    /// skipped, so no pairing is ever recorded twice.
    pub fn add_attributes(&self, cat: &mut Catalog, attributes: Vec<Attribute>)
        requires
            old(cat).wf(),
            old(cat).next_file_attribute_id + attributes@.len() <= i32::MAX,
        ensures
            final(cat).wf(),
            same_files(*final(cat), *old(cat)),
            same_namespaces(*final(cat), *old(cat)),
            same_attributes(*final(cat), *old(cat)),
            (final(cat).file_attributes@, final(cat).next_file_attribute_id as int)
                == crate::associations::spec_add_pairs(
                old(cat).file_attributes@,
                old(cat).next_file_attribute_id as int,
                self.id,
                attributes@.map_values(|a: Attribute| a.id),
            ),
            forall|k: int|
                0 <= k < attributes@.len() ==> final(cat).has_assoc(
                    self.id,
                    (#[trigger] attributes@[k]).id,
                ),
    {
        crate::associations::add_atttributes(cat, self.id, &attributes);
    }

    /// Remove a set of attribute pairings from the file.  Every attribute
    /// in the list that is left without any pairing is removed as well.
    pub fn remove_attributes(&self, cat: &mut Catalog, attributes: Vec<Attribute>)
        requires
            old(cat).wf(),
        ensures
            final(cat).wf(),
            same_files(*final(cat), *old(cat)),
            same_namespaces(*final(cat), *old(cat)),
            final(cat).next_attribute_id == old(cat).next_attribute_id,
            final(cat).next_file_attribute_id == old(cat).next_file_attribute_id,
            final(cat).file_attributes@ == old(cat).file_attributes@.filter(
                |fa: FileAttribute|
                    !(fa.file_id == self.id && id_in(
                        attributes@.map_values(|a: Attribute| a.id),
                        fa.attribute_id,
                    )),
            ),
            final(cat).attributes@ == old(cat).attributes@.filter(
                |a: Attribute|
                    !(id_in(attributes@.map_values(|x: Attribute| x.id), a.id) && !attr_used(
                        old(cat).file_attributes@.filter(
                            |fa: FileAttribute|
                                !(fa.file_id == self.id && id_in(
                                    attributes@.map_values(|x: Attribute| x.id),
                                    fa.attribute_id,
                                )),
                        ),
                        a.id,
                    )),
            ),
    {
        let ghost ids_spec = attributes@.map_values(|a: Attribute| a.id);
        let mut ids: Vec<i32> = Vec::new();
        let mut i: usize = 0;
        while i < attributes.len()
            invariant
                *cat == *old(cat),
                i <= attributes@.len(),
                ids@ == ids_spec.take(i as int),
                ids_spec == attributes@.map_values(|a: Attribute| a.id),
            decreases attributes@.len() - i,
        {
            ids.push(attributes[i].id);
            proof {
                assert(ids_spec.take(i + 1) == ids_spec.take(i as int).push(ids_spec[i as int]));
            }
            i += 1;
        }
        proof {
            assert(ids_spec.take(attributes@.len() as int) == ids_spec);
        }
        let ghost assoc_pred = |fa: FileAttribute|
            !(fa.file_id == self.id && id_in(ids_spec, fa.attribute_id));
        let mut kept: Vec<FileAttribute> = Vec::new();
        let mut j: usize = 0;
        while j < cat.file_attributes.len()
            invariant
                *cat == *old(cat),
                ids@ == ids_spec,
                j <= cat.file_attributes@.len(),
                kept@ == cat.file_attributes@.take(j as int).filter(assoc_pred),
                assoc_pred == (|fa: FileAttribute|
                    !(fa.file_id == self.id && id_in(ids_spec, fa.attribute_id))),
            decreases cat.file_attributes@.len() - j,
        {
            proof {
                assert(cat.file_attributes@.take(j + 1) == cat.file_attributes@.take(
                    j as int,
                ).push(cat.file_attributes@[j as int]));
                lemma_filter_push(
                    cat.file_attributes@.take(j as int),
                    cat.file_attributes@[j as int],
                    assoc_pred,
                );
            }
            let fa = &cat.file_attributes[j];
            if !(fa.file_id == self.id && ids_contains(&ids, fa.attribute_id)) {
                kept.push(cat.file_attributes[j].clone());
            }
            j += 1;
        }
        proof {
            assert(cat.file_attributes@.take(cat.file_attributes@.len() as int)
                == cat.file_attributes@);
        }
        let ghost kept_seq = kept@;
        let ghost attr_pred = |a: Attribute| !(id_in(ids_spec, a.id) && !attr_used(kept_seq, a.id));
        let mut new_attrs: Vec<Attribute> = Vec::new();
        let mut k: usize = 0;
        while k < cat.attributes.len()
            invariant
                *cat == *old(cat),
                ids@ == ids_spec,
                kept_seq == kept@,
                k <= cat.attributes@.len(),
                new_attrs@ == cat.attributes@.take(k as int).filter(attr_pred),
                attr_pred == (|a: Attribute|
                    !(id_in(ids_spec, a.id) && !attr_used(kept_seq, a.id))),
            decreases cat.attributes@.len() - k,
        {
            proof {
                assert(cat.attributes@.take(k + 1) == cat.attributes@.take(k as int).push(
                    cat.attributes@[k as int]));
                lemma_filter_push(cat.attributes@.take(k as int), cat.attributes@[k as int],
                    attr_pred,
                );
            }
            let a = &cat.attributes[k];
            let gone = ids_contains(&ids, a.id) && !crate::associations::vec_attr_used(&kept, a.id);
            if !gone {
                new_attrs.push(cat.attributes[k].clone());
            }
            k += 1;
        }
        proof {
            assert(cat.attributes@.take(cat.attributes@.len() as int) == cat.attributes@);
            lemma_filter_uniq_by(
                cat.file_attributes@,
                assoc_pred,
                |fa: FileAttribute| (fa.file_id, fa.attribute_id),
            );
            lemma_filter_uniq_by(cat.attributes@, attr_pred, |a: Attribute| a.id);
            lemma_filter_ids_bounded(cat.attributes@, attr_pred, |a: Attribute| a.id,
                cat.next_attribute_id,
            );
            lemma_filter_uniq_by(
                cat.attributes@,
                attr_pred,
                |a: Attribute| (a.name@, a.type_, a.user_id, a.namespace_id),
            );
        }
        cat.file_attributes = kept;
        cat.attributes = new_attrs;
        proof {
            crate::catalog::lemma_files_wf_transfer(*old(cat), *cat);
        }
    }
}

/// The id of the namespace this user owns under this name, in this
/// namespace table.
pub open spec fn ns_id_in(nss: Seq<Namespace>, name: Seq<char>, uid: i32) -> i32 {
    (nss[choose|i: int|
        0 <= i < nss.len() && (#[trigger] nss[i]).name@ == name && nss[i].user_id == uid]).id
}

/// The id of the namespace this user owns under this name.
pub open spec fn spec_ns_id_by_name(cat: Catalog, name: Seq<char>, uid: i32) -> i32 {
    ns_id_in(cat.namespaces@, name, uid)
}

/// The id of the attribute carrying this uniqueness key.
pub open spec fn spec_attr_id_by_key(
    cat: Catalog,
    name: Seq<char>,
    t: crate::attribute::AttributeType,
    uid: i32,
    nsid: i32,
) -> i32 {
    (cat.attributes@[choose|i: int|
        0 <= i < cat.attributes@.len() && crate::attribute::attr_key_is(
            #[trigger] cat.attributes@[i],
            name,
            t,
            uid,
            nsid,
        )]).id
}

/// The ids the search's required tag and group names resolve to, within
/// the active namespace scope.
pub open spec fn spec_required_ids(
    cat: Catalog,
    tags: Seq<Seq<char>>,
    groups: Seq<Seq<char>>,
    uid: i32,
    nsid: i32,
) -> Seq<i32> {
    tags.map_values(
        |n: Seq<char>| spec_attr_id_by_key(cat, n, crate::attribute::AttributeType::Tag, uid, nsid),
    ) + groups.map_values(
        |n: Seq<char>|
            spec_attr_id_by_key(cat, n, crate::attribute::AttributeType::Group, uid, nsid),
    )
}

/// The predicate one search keeps a file by: owned by the user, inside the
/// selected namespace if one is selected, matching the name pattern if one
/// was given, and — when required attribute ids were resolved — paired
/// with at least one of them.
pub open spec fn spec_search_pred(
    cat: Catalog,
    uid: i32,
    ns_sel: Option<i32>,
    name_filter: Seq<char>,
    required: Seq<i32>,
    f: File,
) -> bool {
    &&& f.user_id == uid
    &&& (match ns_sel {
        Some(n) => f.namespace_id == n,
        None => true,
    })
    &&& (name_filter.len() > 0 ==> like_match(
        vstd::utf8::encode_utf8(name_filter),
        vstd::utf8::encode_utf8(f.name@),
    ))
    &&& (required.len() > 0 ==> exists|k: int|
        0 <= k < cat.attributes@.len() && cat.has_assoc(f.id, (#[trigger] cat.attributes@[k]).id)
            && required.contains(cat.attributes@[k].id))
}

/// The views of the names in a list.
pub open spec fn names_of(items: Seq<String>) -> Seq<Seq<char>> {
    items.map_values(|s: String| s@)
}

/// The files a search keeps among the first `n` rows of the table, in
/// catalog order.
pub open spec fn spec_search_selected(
    cat: Catalog,
    uid: i32,
    ns_sel: Option<i32>,
    name_filter: Seq<char>,
    required: Seq<i32>,
    n: int,
) -> Seq<File>
    decreases n,
{
    if n <= 0 {
        Seq::empty()
    } else {
        let pre = spec_search_selected(cat, uid, ns_sel, name_filter, required, n - 1);
        if spec_search_pred(cat, uid, ns_sel, name_filter, required, cat.files@[n - 1]) {
            pre.push(cat.files@[n - 1])
        } else {
            pre
        }
    }
}

/// Some of the names has no attribute under it in this scope.
pub open spec fn some_name_unresolved(
    cat: Catalog,
    names: Seq<Seq<char>>,
    t: crate::attribute::AttributeType,
    uid: i32,
    nsid: i32,
) -> bool {
    exists|k: int| 0 <= k < names.len() && !cat.has_attr_key(#[trigger] names[k], t, uid, nsid)
}

impl File {
    /// Search the catalog.  One record per matching file is returned, in
    /// catalog order, each carrying its namespace row and its full
    /// attribute list (every attribute exactly once, in catalog order).
    /// Files and, in a scoped search, the namespace are pinned to the
    /// requesting user; the attribute lists are whatever rows the catalog
    /// pairs with the file, which under this crate's flows are rows the
    /// same user created.
    pub fn search(cat: &Catalog, filter: &crate::requests::FileList, user: &crate::user::User) -> (r:
        Result<Vec<(File, Namespace, Vec<Attribute>)>, RestError>)
        requires
            cat.wf(),
        ensures
            match r {
                Ok(v) => {
                    &&& (filter.all_namespaces || cat.has_ns_named(
                        filter.attributes.namespace@,
                        user.id,
                    ))
                    &&& ({
                        let nsid = if filter.all_namespaces {
                            (-1) as i32
                        } else {
                            spec_ns_id_by_name(*cat, filter.attributes.namespace@, user.id)
                        };
                        let tags = match filter.attributes.tags {
                            Some(t) => names_of(t@),
                            None => Seq::empty(),
                        };
                        let groups = match filter.attributes.groups {
                            Some(g) => names_of(g@),
                            None => Seq::empty(),
                        };
                        let required = spec_required_ids(*cat, tags, groups, user.id, nsid);
                        let ns_sel = if filter.all_namespaces {
                            None
                        } else {
                            Some(nsid)
                        };
                        let selected = spec_search_selected(
                            *cat,
                            user.id,
                            ns_sel,
                            filter.name@,
                            required,
                            cat.files@.len() as int,
                        );
                        &&& v@.len() == selected.len()
                        &&& forall|i: int| 0 <= i < v@.len() ==> (#[trigger] v@[i]).0 == selected[i]
                        &&& forall|i: int|
                            0 <= i < v@.len() ==> cat.namespaces@.contains((#[trigger] v@[i]).1)
                                && v@[i].1.id == selected[i].namespace_id
                        &&& forall|i: int|
                            0 <= i < v@.len() ==> ((#[trigger] v@[i]).2)@ == cat.attrs_of(
                                selected[i].id,
                            )
                        &&& (match filter.attributes.tags {
                            Some(t) => forall|k: int|
                                0 <= k < t@.len() ==> cat.has_attr_key(
                                    (#[trigger] t@[k])@,
                                    crate::attribute::AttributeType::Tag,
                                    user.id,
                                    nsid,
                                ),
                            None => true,
                        })
                        &&& (match filter.attributes.groups {
                            Some(g) => forall|k: int|
                                0 <= k < g@.len() ==> cat.has_attr_key(
                                    (#[trigger] g@[k])@,
                                    crate::attribute::AttributeType::Group,
                                    user.id,
                                    nsid,
                                ),
                            None => true,
                        })
                        &&& (!filter.all_namespaces ==> forall|i: int|
                            0 <= i < v@.len() ==> (#[trigger] v@[i]).1.user_id == user.id)
                    })
                },
                Err(e) => {
                    ||| (e == RestError::NotFound && !filter.all_namespaces && !cat.has_ns_named(
                        filter.attributes.namespace@,
                        user.id,
                    ))
                    ||| (e == RestError::DNotFound(Origin::Tag) && (filter.all_namespaces
                        || cat.has_ns_named(filter.attributes.namespace@, user.id)) && (match filter
                        .attributes
                        .tags {
                        Some(t) => some_name_unresolved(
                            *cat,
                            names_of(t@),
                            crate::attribute::AttributeType::Tag,
                            user.id,
                            if filter.all_namespaces {
                                (-1) as i32
                            } else {
                                spec_ns_id_by_name(*cat, filter.attributes.namespace@, user.id)
                            },
                        ),
                        None => false,
                    }))
                    ||| (e == RestError::DNotFound(Origin::Group) && (filter.all_namespaces
                        || cat.has_ns_named(filter.attributes.namespace@, user.id)) && (match filter
                        .attributes
                        .groups {
                        Some(g) => some_name_unresolved(
                            *cat,
                            names_of(g@),
                            crate::attribute::AttributeType::Group,
                            user.id,
                            if filter.all_namespaces {
                                (-1) as i32
                            } else {
                                spec_ns_id_by_name(*cat, filter.attributes.namespace@, user.id)
                            },
                        ),
                        None => false,
                    }))
                },
            },
    {
        let mut ns_filtered = false;
        let mut nsid: i32 = -1;
        if !filter.all_namespaces {
            match Namespace::find_by_name(cat, filter.attributes.namespace.as_str(), user.id) {
                Some(ns) => {
                    proof {
                        let w = choose|w: int|
                            0 <= w < cat.namespaces@.len() && cat.namespaces@[w] == ns;
                        lemma_ns_name_unique(*cat, w);
                        assert(cat.namespaces@[w].name@ == filter.attributes.namespace@
                            && cat.namespaces@[w].user_id == user.id);
                        assert(cat.has_ns_named(filter.attributes.namespace@, user.id));
                    }
                    ns_filtered = true;
                    nsid = ns.id;
                },
                None => {
                    return Err(RestError::NotFound);
                },
            }
        }
        let ghost spec_nsid: i32 = if filter.all_namespaces {
            (-1) as i32
        } else {
            spec_ns_id_by_name(*cat, filter.attributes.namespace@, user.id)
        };
        proof {
            assert(nsid == spec_nsid);
        }
        let empty_names: Vec<String> = Vec::new();
        let tag_names: &Vec<String> = match &filter.attributes.tags {
            Some(t) => t,
            None => &empty_names,
        };
        let group_names: &Vec<String> = match &filter.attributes.groups {
            Some(g) => g,
            None => &empty_names,
        };
        proof {
            assert(filter.attributes.tags matches Some(t) ==> tag_names@ == t@);
            assert(filter.attributes.tags is None ==> tag_names@ =~= Seq::<String>::empty());
            assert(filter.attributes.groups matches Some(g) ==> group_names@ == g@);
            assert(filter.attributes.groups is None ==> group_names@ =~= Seq::<String>::empty());
        }
        let tag_attrs = match crate::attribute::NewAttribute::find_multi_by_name(
            cat,
            tag_names,
            crate::attribute::AttributeType::Tag,
            user.id,
            nsid,
        ) {
            Ok(v) => v,
            Err(e) => {
                proof {
                    let k = choose|k: int|
                        0 <= k < tag_names@.len() && !cat.has_attr_key(
                            (#[trigger] tag_names@[k])@,
                            crate::attribute::AttributeType::Tag,
                            user.id,
                            nsid,
                        );
                    assert(names_of(tag_names@)[k] == tag_names@[k]@);
                    assert(some_name_unresolved(
                        *cat,
                        names_of(tag_names@),
                        crate::attribute::AttributeType::Tag,
                        user.id,
                        nsid,
                    ));
                }
                return Err(e);
            },
        };
        let group_attrs = match crate::attribute::NewAttribute::find_multi_by_name(
            cat,
            group_names,
            crate::attribute::AttributeType::Group,
            user.id,
            nsid,
        ) {
            Ok(v) => v,
            Err(e) => {
                proof {
                    let k = choose|k: int|
                        0 <= k < group_names@.len() && !cat.has_attr_key(
                            (#[trigger] group_names@[k])@,
                            crate::attribute::AttributeType::Group,
                            user.id,
                            nsid,
                        );
                    assert(names_of(group_names@)[k] == group_names@[k]@);
                    assert(some_name_unresolved(
                        *cat,
                        names_of(group_names@),
                        crate::attribute::AttributeType::Group,
                        user.id,
                        nsid,
                    ));
                }
                return Err(e);
            },
        };
        let ghost tags_spec = names_of(tag_names@);
        let ghost groups_spec = names_of(group_names@);
        let ghost required_spec = spec_required_ids(*cat, tags_spec, groups_spec, user.id, nsid);
        let mut required: Vec<i32> = Vec::new();
        let mut ti: usize = 0;
        while ti < tag_attrs.len()
            invariant
                ti <= tag_attrs@.len(),
                required@ == tags_spec.map_values(
                    |n: Seq<char>|
                        spec_attr_id_by_key(
                            *cat,
                            n,
                            crate::attribute::AttributeType::Tag,
                            user.id,
                            nsid,
                        ),
                ).take(ti as int),
                tag_attrs@.len() == tags_spec.len(),
                cat.wf(),
                forall|k: int|
                    0 <= k < tag_attrs@.len() ==> cat.attributes@.contains(#[trigger] tag_attrs@[k])
                        && crate::attribute::attr_key_is(
                        tag_attrs@[k],
                        tags_spec[k],
                        crate::attribute::AttributeType::Tag,
                        user.id,
                        nsid,
                    ),
                tags_spec == names_of(tag_names@),
            decreases tag_attrs@.len() - ti,
        {
            proof {
                let w = choose|w: int|
                    0 <= w < cat.attributes@.len() && cat.attributes@[w] == tag_attrs@[ti as int];
                lemma_attr_key_unique(*cat, w);
                let m = tags_spec.map_values(
                    |n: Seq<char>|
                        spec_attr_id_by_key(
                            *cat,
                            n,
                            crate::attribute::AttributeType::Tag,
                            user.id,
                            nsid,
                        ),
                );
                assert(m.take(ti + 1) == m.take(ti as int).push(m[ti as int]));
            }
            required.push(tag_attrs[ti].id);
            ti += 1;
        }
        let ghost tag_ids = tags_spec.map_values(
            |n: Seq<char>|
                spec_attr_id_by_key(*cat, n, crate::attribute::AttributeType::Tag, user.id, nsid),
        );
        proof {
            assert(tag_ids.take(tag_ids.len() as int) == tag_ids);
            assert(required@ == tag_ids);
        }
        let mut gi: usize = 0;
        while gi < group_attrs.len()
            invariant
                gi <= group_attrs@.len(),
                required@ == tag_ids + groups_spec.map_values(
                    |n: Seq<char>|
                        spec_attr_id_by_key(
                            *cat,
                            n,
                            crate::attribute::AttributeType::Group,
                            user.id,
                            nsid,
                        ),
                ).take(gi as int),
                group_attrs@.len() == groups_spec.len(),
                cat.wf(),
                forall|k: int|
                    0 <= k < group_attrs@.len() ==> cat.attributes@.contains(
                        #[trigger] group_attrs@[k],
                    ) && crate::attribute::attr_key_is(
                        group_attrs@[k],
                        groups_spec[k],
                        crate::attribute::AttributeType::Group,
                        user.id,
                        nsid,
                    ),
                groups_spec == names_of(group_names@),
                tag_ids == tags_spec.map_values(
                    |n: Seq<char>|
                        spec_attr_id_by_key(
                            *cat,
                            n,
                            crate::attribute::AttributeType::Tag,
                            user.id,
                            nsid,
                        ),
                ),
            decreases group_attrs@.len() - gi,
        {
            proof {
                let w = choose|w: int|
                    0 <= w < cat.attributes@.len() && cat.attributes@[w] == group_attrs@[gi as int];
                lemma_attr_key_unique(*cat, w);
                let m = groups_spec.map_values(
                    |n: Seq<char>|
                        spec_attr_id_by_key(
                            *cat,
                            n,
                            crate::attribute::AttributeType::Group,
                            user.id,
                            nsid,
                        ),
                );
                assert(tag_ids + m.take(gi + 1) == (tag_ids + m.take(gi as int)).push(
                    m[gi as int]));
            }
            required.push(group_attrs[gi].id);
            gi += 1;
        }
        proof {
            let m = groups_spec.map_values(
                |n: Seq<char>|
                    spec_attr_id_by_key(
                        *cat,
                        n,
                        crate::attribute::AttributeType::Group,
                        user.id,
                        nsid,
                    ),
            );
            assert(m.take(m.len() as int) == m);
            assert(required@ == required_spec);
        }
        let ghost ns_sel: Option<i32> = if filter.all_namespaces {
            None
        } else {
            Some(nsid)
        };
        let mut out: Vec<(File, Namespace, Vec<Attribute>)> = Vec::new();
        let mut i: usize = 0;
        while i < cat.files.len()
            invariant
                i <= cat.files@.len(),
                cat.wf(),
                required@ == required_spec,
                ns_filtered == !filter.all_namespaces,
                ns_sel == if filter.all_namespaces {
                    None::<i32>
                } else {
                    Some(nsid)
                },
                ({
                    let sel = spec_search_selected(
                        *cat,
                        user.id,
                        ns_sel,
                        filter.name@,
                        required_spec,
                        i as int,
                    );
                    &&& out@.len() == sel.len()
                    &&& forall|k: int| 0 <= k < out@.len() ==> (#[trigger] out@[k]).0 == sel[k]
                    &&& forall|k: int|
                        0 <= k < out@.len() ==> cat.namespaces@.contains((#[trigger] out@[k]).1)
                            && out@[k].1.id == sel[k].namespace_id
                    &&& forall|k: int|
                        0 <= k < out@.len() ==> ((#[trigger] out@[k]).2)@ == cat.attrs_of(sel[k].id)
                }),
            decreases cat.files@.len() - i,
        {
            let f = &cat.files[i];
            let in_scope = f.user_id == user.id && (!ns_filtered || f.namespace_id == nsid) && (
            filter.name.as_str().is_empty() || crate::text::ilike(
                filter.name.as_str(),
                f.name.as_str(),
            ));
            let mut kept_here = false;
            if in_scope {
                let attrs = collect_attrs(cat, f.id);
                let keep = if required.len() == 0 {
                    true
                } else {
                    intersects_ids(cat, &attrs, &required, f.id)
                };
                if keep {
                    let ns = match Namespace::find_by_id(cat, f.namespace_id) {
                        Ok(ns) => ns,
                        Err(_) => {
                            proof {
                                assert(cat.has_ns_id(cat.files@[i as int].namespace_id));
                            }
                            vstd::pervasive::unreached()
                        },
                    };
                    out.push((cat.files[i].clone(), ns, attrs));
                    kept_here = true;
                }
            }
            proof {
                assert(kept_here == spec_search_pred(
                    *cat,
                    user.id,
                    ns_sel,
                    filter.name@,
                    required_spec,
                    cat.files@[i as int],
                ));
            }
            i += 1;
        }
        proof {
            let ghost_tags = match &filter.attributes.tags {
                Some(t) => names_of(t@),
                None => Seq::<Seq<char>>::empty(),
            };
            let ghost_groups = match &filter.attributes.groups {
                Some(g) => names_of(g@),
                None => Seq::<Seq<char>>::empty(),
            };
            assert(names_of(tag_names@) =~= ghost_tags);
            assert(names_of(group_names@) =~= ghost_groups);
            assert(required_spec == spec_required_ids(
                *cat,
                ghost_tags,
                ghost_groups,
                user.id,
                spec_nsid,
            ));
            assert forall|k: int| 0 <= k < tag_names@.len() implies cat.has_attr_key(
                (#[trigger] tag_names@[k])@,
                crate::attribute::AttributeType::Tag,
                user.id,
                nsid,
            ) by {
                let a = tag_attrs@[k];
                let w = choose|w: int| 0 <= w < cat.attributes@.len() && cat.attributes@[w] == a;
                assert(crate::attribute::attr_key_is(
                    cat.attributes@[w],
                    tag_names@[k]@,
                    crate::attribute::AttributeType::Tag,
                    user.id,
                    nsid,
                ));
            }
            assert forall|k: int| 0 <= k < group_names@.len() implies cat.has_attr_key(
                (#[trigger] group_names@[k])@,
                crate::attribute::AttributeType::Group,
                user.id,
                nsid,
            ) by {
                let a = group_attrs@[k];
                let w = choose|w: int| 0 <= w < cat.attributes@.len() && cat.attributes@[w] == a;
                assert(crate::attribute::attr_key_is(
                    cat.attributes@[w],
                    group_names@[k]@,
                    crate::attribute::AttributeType::Group,
                    user.id,
                    nsid,
                ));
            }
            if !filter.all_namespaces {
                lemma_search_selected_pred(
                    *cat,
                    user.id,
                    ns_sel,
                    filter.name@,
                    required_spec,
                    cat.files@.len() as int,
                );
                let sel = spec_search_selected(
                    *cat,
                    user.id,
                    ns_sel,
                    filter.name@,
                    required_spec,
                    cat.files@.len() as int,
                );
                let c = choose|c: int|
                    0 <= c < cat.namespaces@.len() && (#[trigger] cat.namespaces@[c]).name@
                        == filter.attributes.namespace@ && cat.namespaces@[c].user_id == user.id;
                lemma_ns_name_unique(*cat, c);
                assert forall|i2: int| 0 <= i2 < out@.len() implies (#[trigger] out@[i2]).1.user_id
                    == user.id by {
                    assert(spec_search_pred(
                        *cat,
                        user.id,
                        ns_sel,
                        filter.name@,
                        required_spec,
                        sel[i2],
                    ));
                    assert(sel[i2].namespace_id == nsid);
                    assert(out@[i2].1.id == nsid == cat.namespaces@[c].id);
                    let w2 = choose|w2: int|
                        0 <= w2 < cat.namespaces@.len() && cat.namespaces@[w2] == out@[i2].1;
                    if w2 != c {
                        let key = |n2: Namespace| n2.id;
                        assert(key(cat.namespaces@[w2]) != key(cat.namespaces@[c]));
                    }
                    assert(out@[i2].1 == cat.namespaces@[c]);
                }
            }
        }
        Ok(out)
    }
}

/// Every row the search selection keeps satisfies the search predicate.
proof fn lemma_search_selected_pred(
    cat: Catalog,
    uid: i32,
    ns_sel: Option<i32>,
    name_filter: Seq<char>,
    required: Seq<i32>,
    n: int,
)
    requires
        n <= cat.files@.len(),
    ensures
        forall|j: int|
            0 <= j < spec_search_selected(cat, uid, ns_sel, name_filter, required, n).len()
                ==> spec_search_pred(
                cat,
                uid,
                ns_sel,
                name_filter,
                required,
                #[trigger] spec_search_selected(cat, uid, ns_sel, name_filter, required, n)[j],
            ),
    decreases n,
{
    if n > 0 {
        lemma_search_selected_pred(cat, uid, ns_sel, name_filter, required, n - 1);
        let pre = spec_search_selected(cat, uid, ns_sel, name_filter, required, n - 1);
        let cur = spec_search_selected(cat, uid, ns_sel, name_filter, required, n);
        assert forall|j: int| 0 <= j < cur.len() implies spec_search_pred(
            cat,
            uid,
            ns_sel,
            name_filter,
            required,
            #[trigger] cur[j],
        ) by {
            if j < pre.len() {
                assert(cur[j] == pre[j]);
                assert(spec_search_pred(cat, uid, ns_sel, name_filter, required, pre[j]));
            } else {
                assert(cur[j] == cat.files@[n - 1]);
            }
        }
    }
}

/// With distinct (name, owner) keys, any matching namespace row is the one
/// the picker picks.
pub proof fn lemma_ns_name_unique(cat: Catalog, w: int)
    requires
        cat.namespaces_wf(),
        0 <= w < cat.namespaces@.len(),
    ensures
        spec_ns_id_by_name(cat, cat.namespaces@[w].name@, cat.namespaces@[w].user_id)
            == cat.namespaces@[w].id,
{
    let nss = cat.namespaces@;
    let name = nss[w].name@;
    let uid = nss[w].user_id;
    let i = choose|i: int|
        0 <= i < nss.len() && (#[trigger] nss[i]).name@ == name && nss[i].user_id == uid;
    if i != w {
        let key = |n: Namespace| (n.name@, n.user_id);
        assert(key(nss[i]) != key(nss[w]));
    }
}

/// With distinct uniqueness keys, any matching attribute row is the one the
/// picker picks.
pub proof fn lemma_attr_key_unique(cat: Catalog, w: int)
    requires
        cat.attributes_wf(),
        0 <= w < cat.attributes@.len(),
    ensures
        spec_attr_id_by_key(
            cat,
            cat.attributes@[w].name@,
            cat.attributes@[w].type_,
            cat.attributes@[w].user_id,
            cat.attributes@[w].namespace_id,
        ) == cat.attributes@[w].id,
{
    let a = cat.attributes@[w];
    let i = choose|i: int|
        0 <= i < cat.attributes@.len() && crate::attribute::attr_key_is(
            #[trigger] cat.attributes@[i],
            a.name@,
            a.type_,
            a.user_id,
            a.namespace_id,
        );
    if i != w {
        let key = |x: Attribute| (x.name@, x.type_, x.user_id, x.namespace_id);
        assert(key(cat.attributes@[i]) != key(cat.attributes@[w]));
    }
}

/// The full attribute list of one file: every attribute paired with it,
/// each exactly once, in catalog order.
fn collect_attrs(cat: &Catalog, fid: i32) -> (r: Vec<Attribute>)
    ensures
        r@ == cat.attrs_of(fid),
{
    let ghost pred = |a: Attribute| cat.has_assoc(fid, a.id);
    let mut out: Vec<Attribute> = Vec::new();
    let mut i: usize = 0;
    while i < cat.attributes.len()
        invariant
            i <= cat.attributes@.len(),
            out@ == cat.attributes@.take(i as int).filter(pred),
            pred == (|a: Attribute| cat.has_assoc(fid, a.id)),
        decreases cat.attributes@.len() - i,
    {
        proof {
            assert(cat.attributes@.take(i + 1) == cat.attributes@.take(i as int).push(
                cat.attributes@[i as int]));
            lemma_filter_push(cat.attributes@.take(i as int), cat.attributes@[i as int], pred);
        }
        if crate::associations::has_association(cat, fid, cat.attributes[i].id) {
            out.push(cat.attributes[i].clone());
        }
        i += 1;
    }
    proof {
        assert(cat.attributes@.take(cat.attributes@.len() as int) == cat.attributes@);
    }
    out
}

/// Whether the file's attribute list shares an id with the required set.
fn intersects_ids(cat: &Catalog, attrs: &Vec<Attribute>, required: &Vec<i32>, fid: i32) -> (r:
    bool)
    requires
        attrs@ == cat.attrs_of(fid),
    ensures
        r == exists|k: int|
            0 <= k < cat.attributes@.len() && cat.has_assoc(fid, (#[trigger] cat.attributes@[k]).id)
                && required@.contains(cat.attributes@[k].id),
{
    let ghost pred = |a: Attribute| cat.has_assoc(fid, a.id);
    let mut i: usize = 0;
    while i < attrs.len()
        invariant
            i <= attrs@.len(),
            attrs@ == cat.attrs_of(fid),
            pred == (|a: Attribute| cat.has_assoc(fid, a.id)),
            forall|k: int| 0 <= k < i ==> !required@.contains((#[trigger] attrs@[k]).id),
        decreases attrs@.len() - i,
    {
        if ids_contains(required, attrs[i].id) {
            proof {
                lemma_filter_sub(cat.attributes@, pred);
                assert(cat.attrs_of(fid).contains(attrs@[i as int]));
                assert(cat.attributes@.contains(attrs@[i as int]));
                let w = choose|w: int|
                    0 <= w < cat.attributes@.len() && cat.attributes@[w] == attrs@[i as int];
                assert(cat.has_assoc(fid, cat.attributes@[w].id));
            }
            return true;
        }
        i += 1;
    }
    proof {
        if exists|k: int|
            0 <= k < cat.attributes@.len() && cat.has_assoc(
                fid,
                (#[trigger] cat.attributes@[k]).id,
            ) && required@.contains(cat.attributes@[k].id) {
            let k = choose|k: int|
                0 <= k < cat.attributes@.len() && cat.has_assoc(
                    fid,
                    (#[trigger] cat.attributes@[k]).id,
                ) && required@.contains(cat.attributes@[k].id);
            assert(cat.attrs_of(fid).contains(cat.attributes@[k])) by {
                cat.attributes@.lemma_filter_contains(pred, k);
            }
            let w = choose|w: int| 0 <= w < attrs@.len() && attrs@[w] == cat.attributes@[k];
            assert(!required@.contains(attrs@[w].id));
        }
    }
    false
}

/// One pairing of a file with an attribute.
pub struct FileAttribute {
    pub id: i32,
    pub file_id: i32,
    pub attribute_id: i32,
}

impl Clone for FileAttribute {
    fn clone(&self) -> (r: Self)
        ensures
            r == *self,
    {
        FileAttribute { id: self.id, file_id: self.file_id, attribute_id: self.attribute_id }
    }
}

} // verus!
