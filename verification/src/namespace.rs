//! A namespace is a per-user named bucket of files.  Each user holds exactly
//! one namespace called "default", which can never be renamed or deleted.
use vstd::prelude::*;

use crate::catalog::{
    lemma_filter_ids_bounded, lemma_filter_push, lemma_filter_sub, lemma_filter_uniq_by,
    lemma_files_wf_transfer, same_assocs, same_attributes, same_files, same_namespaces, Catalog,
};
use crate::response_code::{Origin, RestError};
use crate::text::{bytes_eq, lower_bytes, str_eq};
use crate::user::User;

verus! {

use vstd::string::StringSliceAdditionalSpecFns;

/// A namespace row of the catalog.
#[derive(Debug)]
pub struct Namespace {
    pub id: i32,
    pub name: String,
    pub user_id: i32,
}

impl Clone for Namespace {
    fn clone(&self) -> (r: Self)
        ensures
            r == *self,
    {
        Namespace { id: self.id, name: self.name.clone(), user_id: self.user_id }
    }
}

impl Default for Namespace {
    fn default() -> (r: Self)
        ensures
            r.id == 0,
            r.name@ == Seq::<char>::empty(),
            r.user_id == 0,
    {
        Namespace { id: 0, name: String::new(), user_id: 0 }
    }
}

/// The name, lowercased ASCII-wise, reads "default".
pub open spec fn spec_is_default_name(name: Seq<char>) -> bool {
    lower_bytes(vstd::utf8::encode_utf8(name)) == "default".spec_bytes()
}

impl Namespace {
    /// Returns true if the name matches the name of a default namespace,
    /// ignoring ASCII case.
    pub fn is_default_name(ns_name: &str) -> (r: bool)
        ensures
            r == spec_is_default_name(ns_name@),
    {
        let lowered = crate::text::ascii_lower(&vstd::slice::slice_to_vec(ns_name.as_bytes()));
        bytes_eq(lowered.as_slice(), "default".as_bytes())
    }

    /// Returns true if the namespace is a default namespace.
    pub fn is_default(&self) -> (r: bool)
        ensures
            r == spec_is_default_name(self.name@),
    {
        Namespace::is_default_name(self.name.as_str())
    }
}

/// Renaming the namespace with this id to this name would give two rows of
/// one owner the same name.
pub open spec fn rename_collides(nss: Seq<Namespace>, id: i32, new_name: Seq<char>) -> bool {
    exists|j: int, k: int|
        0 <= j < nss.len() && 0 <= k < nss.len() && (#[trigger] nss[j]).id == id && (
        #[trigger] nss[k]).id != id && nss[k].user_id == nss[j].user_id && nss[k].name@ == new_name
}

/// Some file row with this id sits in this namespace.
pub open spec fn file_in_ns(files: Seq<crate::file::File>, fid: i32, nsid: i32) -> bool {
    exists|i: int|
        0 <= i < files.len() && (#[trigger] files[i]).id == fid && files[i].namespace_id == nsid
}

/// Whether some file row with this id sits in this namespace.
fn file_in_ns_exec(files: &Vec<crate::file::File>, fid: i32, nsid: i32) -> (r: bool)
    ensures
        r == file_in_ns(files@, fid, nsid),
{
    let mut i: usize = 0;
    while i < files.len()
        invariant
            i <= files@.len(),
            forall|k: int|
                0 <= k < i ==> !((#[trigger] files@[k]).id == fid && files@[k].namespace_id
                    == nsid),
        decreases files@.len() - i,
    {
        if files[i].id == fid && files[i].namespace_id == nsid {
            return true;
        }
        i += 1;
    }
    false
}

/// Some pairing ties this attribute to a file of this namespace.
pub open spec fn attr_tied_to_ns(
    assocs: Seq<crate::file::FileAttribute>,
    files: Seq<crate::file::File>,
    aid: i32,
    nsid: i32,
) -> bool {
    exists|i: int|
        0 <= i < assocs.len() && (#[trigger] assocs[i]).attribute_id == aid && file_in_ns(
            files,
            assocs[i].file_id,
            nsid,
        )
}

/// Whether some pairing ties this attribute to a file of this namespace.
fn attr_tied_to_ns_exec(
    assocs: &Vec<crate::file::FileAttribute>,
    files: &Vec<crate::file::File>,
    aid: i32,
    nsid: i32,
) -> (r: bool)
    ensures
        r == attr_tied_to_ns(assocs@, files@, aid, nsid),
{
    let mut i: usize = 0;
    while i < assocs.len()
        invariant
            i <= assocs@.len(),
            forall|k: int|
                0 <= k < i ==> !((#[trigger] assocs@[k]).attribute_id == aid && file_in_ns(
                    files@,
                    assocs@[k].file_id,
                    nsid,
                )),
        decreases assocs@.len() - i,
    {
        if assocs[i].attribute_id == aid && file_in_ns_exec(files, assocs[i].file_id, nsid) {
            return true;
        }
        i += 1;
    }
    false
}

/// The values a new namespace row is created from.
pub struct CreateNamespace {
    pub name: String,
    pub user_id: i32,
}

impl CreateNamespace {
    /// Creates a new CreateNamespace object.
    pub fn new(name: &str, user_id: i32) -> (r: CreateNamespace)
        ensures
            r.name@ == name@,
            r.user_id == user_id,
    {
        CreateNamespace { name: name.to_owned(), user_id }
    }

    /// Creates a new namespace owned by the user whose ID was passed.  A
    /// name the owner already uses is refused.
    pub fn create(&self, cat: &mut Catalog) -> (r: Result<(), RestError>)
        requires
            old(cat).wf(),
            old(cat).next_namespace_id < i32::MAX,
        ensures
            final(cat).wf(),
            same_files(*final(cat), *old(cat)),
            same_attributes(*final(cat), *old(cat)),
            same_assocs(*final(cat), *old(cat)),
            match r {
                Ok(()) => {
                    &&& !old(cat).has_ns_named(self.name@, self.user_id)
                    &&& final(cat).namespaces@.len() == old(cat).namespaces@.len() + 1
                    &&& final(cat).namespaces@.last().id == old(cat).next_namespace_id
                    &&& final(cat).namespaces@.last().name@ == self.name@
                    &&& final(cat).namespaces@.last().user_id == self.user_id
                    &&& final(cat).namespaces@.drop_last() == old(cat).namespaces@
                    &&& final(cat).next_namespace_id == old(cat).next_namespace_id + 1
                },
                Err(e) => {
                    &&& e == RestError::AlreadyExists
                    &&& old(cat).has_ns_named(self.name@, self.user_id)
                    &&& *final(cat) == *old(cat)
                },
            },
    {
        if Namespace::find_by_name(cat, self.name.as_str(), self.user_id).is_some() {
            return Err(RestError::AlreadyExists);
        }
        let ns = Namespace {
            id: cat.next_namespace_id,
            name: self.name.clone(),
            user_id: self.user_id,
        };
        cat.namespaces.push(ns);
        cat.next_namespace_id = cat.next_namespace_id + 1;
        proof {
            let nss = cat.namespaces@;
            let olds = old(cat).namespaces@;
            assert(nss.drop_last() =~= olds);
            assert forall|i: int, j: int|
                0 <= i < nss.len() && 0 <= j < nss.len() && i != j implies (
            #[trigger] nss[i]).id != (#[trigger] nss[j]).id by {
                if i < olds.len() && j < olds.len() {
                    assert(olds[i].id != olds[j].id);
                } else if i < olds.len() {
                    assert(olds[i].id < old(cat).next_namespace_id);
                } else {
                    assert(olds[j].id < old(cat).next_namespace_id);
                }
            }
            assert forall|i: int| 0 <= i < nss.len() implies 0 < (#[trigger] nss[i]).id && nss[
                i
            ].id < cat.next_namespace_id by {
                if i < olds.len() {
                    assert(0 < olds[i].id && olds[i].id < old(cat).next_namespace_id);
                }
            }
            assert forall|i: int, j: int|
                0 <= i < nss.len() && 0 <= j < nss.len() && i != j implies !((
            #[trigger] nss[i]).name@ == (#[trigger] nss[j]).name@ && nss[i].user_id
                == nss[j].user_id) by {
                if j == nss.len() - 1 && i < j {
                    assert(!(olds[i].name@ == self.name@ && olds[i].user_id == self.user_id));
                }
                if i == nss.len() - 1 && j < i {
                    assert(!(olds[j].name@ == self.name@ && olds[j].user_id == self.user_id));
                }
            }
            assert forall|i2: int| 0 <= i2 < cat.files@.len() implies cat.has_ns_id(
                (#[trigger] cat.files@[i2]).namespace_id,
            ) by {
                assert(old(cat).has_ns_id(old(cat).files@[i2].namespace_id));
                let w = choose|w: int|
                    0 <= w < old(cat).namespaces@.len() && (#[trigger] old(
                        cat,
                    ).namespaces@[w]).id == old(cat).files@[i2].namespace_id;
                assert(cat.namespaces@[w].id == old(cat).files@[i2].namespace_id);
            }
        }
        Ok(())
    }
}

impl Namespace {
    /// Find a namespace by its id.
    pub fn find_by_id(cat: &Catalog, idd: i32) -> (r: Result<Namespace, RestError>)
        ensures
            match r {
                Ok(ns) => cat.namespaces@.contains(ns) && ns.id == idd,
                Err(e) => e == RestError::DNotFound(Origin::Namespace) && !cat.has_ns_id(idd),
            },
    {
        let mut i: usize = 0;
        while i < cat.namespaces.len()
            invariant
                i <= cat.namespaces@.len(),
                forall|k: int| 0 <= k < i ==> (#[trigger] cat.namespaces@[k]).id != idd,
            decreases cat.namespaces@.len() - i,
        {
            if cat.namespaces[i].id == idd {
                let ns = cat.namespaces[i].clone();
                proof {
                    assert(cat.namespaces@.contains(ns)) by {
                        assert(cat.namespaces@[i as int] == ns);
                    }
                }
                return Ok(ns);
            }
            i += 1;
        }
        Err(RestError::DNotFound(Origin::Namespace))
    }

    /// Find a namespace by its name; the owner has to be passed in order to
    /// prevent unauthorized access.
    pub fn find_by_name(cat: &Catalog, ns_name: &str, creator: i32) -> (r: Option<Namespace>)
        ensures
            match r {
                Some(ns) => cat.namespaces@.contains(ns) && ns.name@ == ns_name@ && ns.user_id
                    == creator,
                None => !cat.has_ns_named(ns_name@, creator),
            },
    {
        let mut i: usize = 0;
        while i < cat.namespaces.len()
            invariant
                i <= cat.namespaces@.len(),
                forall|k: int|
                    0 <= k < i ==> !((#[trigger] cat.namespaces@[k]).name@ == ns_name@
                        && cat.namespaces@[k].user_id == creator),
            decreases cat.namespaces@.len() - i,
        {
            let ns = &cat.namespaces[i];
            if ns.user_id == creator && str_eq(ns.name.as_str(), ns_name) {
                let found = cat.namespaces[i].clone();
                proof {
                    assert(cat.namespaces@.contains(found)) by {
                        assert(cat.namespaces@[i as int] == found);
                    }
                }
                return Some(found);
            }
            i += 1;
        }
        None
    }

    /// List all namespaces of a user, in catalog order.
    pub fn list(cat: &Catalog, user: &User) -> (r: Vec<Namespace>)
        ensures
            r@ == cat.namespaces@.filter(|n: Namespace| n.user_id == user.id),
    {
        let ghost pred = |n: Namespace| n.user_id == user.id;
        let mut out: Vec<Namespace> = Vec::new();
        let mut i: usize = 0;
        while i < cat.namespaces.len()
            invariant
                i <= cat.namespaces@.len(),
                out@ == cat.namespaces@.take(i as int).filter(pred),
                pred == (|n: Namespace| n.user_id == user.id),
            decreases cat.namespaces@.len() - i,
        {
            proof {
                assert(cat.namespaces@.take(i + 1) == cat.namespaces@.take(i as int).push(
                    cat.namespaces@[i as int]));
                lemma_filter_push(cat.namespaces@.take(i as int), cat.namespaces@[i as int], pred);
            }
            if cat.namespaces[i].user_id == user.id {
                out.push(cat.namespaces[i].clone());
            }
            i += 1;
        }
        proof {
            assert(cat.namespaces@.take(cat.namespaces@.len() as int) == cat.namespaces@);
        }
        out
    }

    /// Get a list of all files in the current namespace.
    pub fn files(&self, cat: &Catalog) -> (r: Vec<crate::file::File>)
        ensures
            r@ == cat.files@.filter(|f: crate::file::File| f.namespace_id == self.id),
    {
        let ghost pred = |f: crate::file::File| f.namespace_id == self.id;
        let mut out: Vec<crate::file::File> = Vec::new();
        let mut i: usize = 0;
        while i < cat.files.len()
            invariant
                i <= cat.files@.len(),
                out@ == cat.files@.take(i as int).filter(pred),
                pred == (|f: crate::file::File| f.namespace_id == self.id),
            decreases cat.files@.len() - i,
        {
            proof {
                assert(cat.files@.take(i + 1) == cat.files@.take(i as int).push(
                    cat.files@[i as int]));
                lemma_filter_push(cat.files@.take(i as int), cat.files@[i as int], pred);
            }
            if cat.files[i].namespace_id == self.id {
                out.push(cat.files[i].clone());
            }
            i += 1;
        }
        proof {
            assert(cat.files@.take(cat.files@.len() as int) == cat.files@);
        }
        out
    }

    /// Delete a namespace with everything it contains: its files go, their
    /// pairings go with them, attributes left with no pairing at all are
    /// cleaned up, and finally the namespace row is removed.  A default
    /// namespace (named "default" in any ASCII case) can never be deleted;
    /// nothing is touched then.  The local storage names of the deleted
    /// files are returned so the caller can remove the stored objects.
    pub fn delete(&self, cat: &mut Catalog) -> (r: Result<Vec<String>, RestError>)
        requires
            old(cat).wf(),
        ensures
            final(cat).wf(),
            final(cat).next_file_id == old(cat).next_file_id,
            final(cat).next_namespace_id == old(cat).next_namespace_id,
            final(cat).next_attribute_id == old(cat).next_attribute_id,
            final(cat).next_file_attribute_id == old(cat).next_file_attribute_id,
            match r {
                Err(e) => {
                    &&& e == RestError::IllegalOperation
                    &&& spec_is_default_name(self.name@)
                    &&& *final(cat) == *old(cat)
                },
                Ok(names) => {
                    &&& !spec_is_default_name(self.name@)
                    &&& final(cat).files@ == old(cat).files@.filter(
                        |f: crate::file::File| f.namespace_id != self.id,
                    )
                    &&& final(cat).namespaces@ == old(cat).namespaces@.filter(
                        |n: Namespace| n.id != self.id,
                    )
                    &&& final(cat).file_attributes@ == old(cat).file_attributes@.filter(
                        |fa: crate::file::FileAttribute|
                            !file_in_ns(old(cat).files@, fa.file_id, self.id),
                    )
                    &&& final(cat).attributes@ == old(cat).attributes@.filter(
                        |a: crate::attribute::Attribute|
                            !(attr_tied_to_ns(
                                old(cat).file_attributes@,
                                old(cat).files@,
                                a.id,
                                self.id,
                            ) && !crate::catalog::attr_used(final(cat).file_attributes@, a.id)),
                    )
                    &&& ({
                        let deleted = old(cat).files@.filter(
                            |f: crate::file::File| f.namespace_id == self.id,
                        );
                        names@.len() == deleted.len() && forall|k: int|
                            0 <= k < names@.len() ==> (#[trigger] names@[k]) == deleted[
                                k
                            ].local_name
                    })
                },
            },
    {
        if self.is_default() {
            return Err(RestError::IllegalOperation);
        }
        let ghost del_pred = |f: crate::file::File| f.namespace_id == self.id;
        let mut names: Vec<String> = Vec::new();
        let mut i: usize = 0;
        while i < cat.files.len()
            invariant
                *cat == *old(cat),
                i <= cat.files@.len(),
                ({
                    let deleted = cat.files@.take(i as int).filter(del_pred);
                    names@.len() == deleted.len() && forall|k: int|
                        0 <= k < names@.len() ==> (#[trigger] names@[k]) == deleted[k].local_name
                }),
                del_pred == (|f: crate::file::File| f.namespace_id == self.id),
            decreases cat.files@.len() - i,
        {
            proof {
                assert(cat.files@.take(i + 1) == cat.files@.take(i as int).push(
                    cat.files@[i as int]));
                lemma_filter_push(cat.files@.take(i as int), cat.files@[i as int], del_pred);
            }
            if cat.files[i].namespace_id == self.id {
                names.push(cat.files[i].local_name.clone());
            }
            i += 1;
        }
        proof {
            assert(cat.files@.take(cat.files@.len() as int) == cat.files@);
        }
        let ghost assoc_pred = |fa: crate::file::FileAttribute|
            !file_in_ns(old(cat).files@, fa.file_id, self.id);
        let mut kept_assocs: Vec<crate::file::FileAttribute> = Vec::new();
        let mut j: usize = 0;
        while j < cat.file_attributes.len()
            invariant
                *cat == *old(cat),
                j <= cat.file_attributes@.len(),
                kept_assocs@ == cat.file_attributes@.take(j as int).filter(assoc_pred),
                assoc_pred == (|fa: crate::file::FileAttribute|
                    !file_in_ns(old(cat).files@, fa.file_id, self.id)),
            decreases cat.file_attributes@.len() - j,
        {
            proof {
                assert(cat.file_attributes@.take(j + 1) == cat.file_attributes@.take(
                    j as int,
                ).push(cat.file_attributes@[j as int]));
                lemma_filter_push(
                    cat.file_attributes@.take(j as int),
                    cat.file_attributes@[j as int],
                    assoc_pred,
                );
            }
            if !file_in_ns_exec(&cat.files, cat.file_attributes[j].file_id, self.id) {
                kept_assocs.push(cat.file_attributes[j].clone());
            }
            j += 1;
        }
        proof {
            assert(cat.file_attributes@.take(cat.file_attributes@.len() as int)
                == cat.file_attributes@);
        }
        let ghost kept_seq = kept_assocs@;
        let ghost attr_pred = |a: crate::attribute::Attribute|
            !(attr_tied_to_ns(old(cat).file_attributes@, old(cat).files@, a.id, self.id)
                && !crate::catalog::attr_used(kept_seq, a.id));
        let mut new_attrs: Vec<crate::attribute::Attribute> = Vec::new();
        let mut k: usize = 0;
        while k < cat.attributes.len()
            invariant
                *cat == *old(cat),
                kept_seq == kept_assocs@,
                k <= cat.attributes@.len(),
                new_attrs@ == cat.attributes@.take(k as int).filter(attr_pred),
                attr_pred == (|a: crate::attribute::Attribute|
                    !(attr_tied_to_ns(old(cat).file_attributes@, old(cat).files@, a.id, self.id)
                        && !crate::catalog::attr_used(kept_seq, a.id))),
            decreases cat.attributes@.len() - k,
        {
            proof {
                assert(cat.attributes@.take(k + 1) == cat.attributes@.take(k as int).push(
                    cat.attributes@[k as int]));
                lemma_filter_push(cat.attributes@.take(k as int), cat.attributes@[k as int],
                    attr_pred,
                );
            }
            let a = &cat.attributes[k];
            let gone = attr_tied_to_ns_exec(&cat.file_attributes, &cat.files, a.id, self.id)
                && !crate::associations::vec_attr_used(&kept_assocs, a.id);
            if !gone {
                new_attrs.push(cat.attributes[k].clone());
            }
            k += 1;
        }
        proof {
            assert(cat.attributes@.take(cat.attributes@.len() as int) == cat.attributes@);
        }
        let ghost keep_file_pred = |f: crate::file::File| f.namespace_id != self.id;
        let mut new_files: Vec<crate::file::File> = Vec::new();
        let mut m: usize = 0;
        while m < cat.files.len()
            invariant
                *cat == *old(cat),
                m <= cat.files@.len(),
                new_files@ == cat.files@.take(m as int).filter(keep_file_pred),
                keep_file_pred == (|f: crate::file::File| f.namespace_id != self.id),
            decreases cat.files@.len() - m,
        {
            proof {
                assert(cat.files@.take(m + 1) == cat.files@.take(m as int).push(
                    cat.files@[m as int]));
                lemma_filter_push(cat.files@.take(m as int), cat.files@[m as int],
                    keep_file_pred,
                );
            }
            if cat.files[m].namespace_id != self.id {
                new_files.push(cat.files[m].clone());
            }
            m += 1;
        }
        proof {
            assert(cat.files@.take(cat.files@.len() as int) == cat.files@);
        }
        let ghost keep_ns_pred = |n: Namespace| n.id != self.id;
        let mut new_nss: Vec<Namespace> = Vec::new();
        let mut p: usize = 0;
        while p < cat.namespaces.len()
            invariant
                *cat == *old(cat),
                p <= cat.namespaces@.len(),
                new_nss@ == cat.namespaces@.take(p as int).filter(keep_ns_pred),
                keep_ns_pred == (|n: Namespace| n.id != self.id),
            decreases cat.namespaces@.len() - p,
        {
            proof {
                assert(cat.namespaces@.take(p + 1) == cat.namespaces@.take(p as int).push(
                    cat.namespaces@[p as int]));
                lemma_filter_push(cat.namespaces@.take(p as int), cat.namespaces@[p as int],
                    keep_ns_pred,
                );
            }
            if cat.namespaces[p].id != self.id {
                new_nss.push(cat.namespaces[p].clone());
            }
            p += 1;
        }
        proof {
            assert(cat.namespaces@.take(cat.namespaces@.len() as int) == cat.namespaces@);
            lemma_filter_uniq_by(cat.files@, keep_file_pred, |f: crate::file::File| f.id);
            lemma_filter_ids_bounded(
                cat.files@,
                keep_file_pred,
                |f: crate::file::File| f.id,
                cat.next_file_id,
            );
            lemma_filter_uniq_by(cat.namespaces@, keep_ns_pred, |n: Namespace| n.id);
            lemma_filter_ids_bounded(
                cat.namespaces@,
                keep_ns_pred,
                |n: Namespace| n.id,
                cat.next_namespace_id,
            );
            lemma_filter_uniq_by(cat.namespaces@, keep_ns_pred,
                |n: Namespace| (n.name@, n.user_id),
            );
            lemma_filter_uniq_by(
                cat.attributes@,
                attr_pred,
                |a: crate::attribute::Attribute| a.id,
            );
            lemma_filter_ids_bounded(
                cat.attributes@,
                attr_pred,
                |a: crate::attribute::Attribute| a.id,
                cat.next_attribute_id,
            );
            lemma_filter_uniq_by(
                cat.attributes@,
                attr_pred,
                |a: crate::attribute::Attribute| (a.name@, a.type_, a.user_id, a.namespace_id),
            );
            lemma_filter_uniq_by(
                cat.file_attributes@,
                assoc_pred,
                |fa: crate::file::FileAttribute| (fa.file_id, fa.attribute_id),
            );
            lemma_filter_sub(cat.files@, keep_file_pred);
        }
        cat.files = new_files;
        cat.namespaces = new_nss;
        cat.attributes = new_attrs;
        cat.file_attributes = kept_assocs;
        proof {
            assert forall|i2: int| 0 <= i2 < cat.files@.len() implies cat.has_ns_id(
                (#[trigger] cat.files@[i2]).namespace_id,
            ) by {
                assert(cat.files@.contains(cat.files@[i2]));
                assert(old(cat).files@.filter(keep_file_pred).contains(cat.files@[i2]));
                assert(old(cat).files@.contains(cat.files@[i2]) && keep_file_pred(
                    cat.files@[i2],
                ));
                let w = choose|w: int|
                    0 <= w < old(cat).files@.len() && old(cat).files@[w] == cat.files@[i2];
                assert(old(cat).has_ns_id(old(cat).files@[w].namespace_id));
                let w2 = choose|w2: int|
                    0 <= w2 < old(cat).namespaces@.len() && (#[trigger] old(
                        cat,
                    ).namespaces@[w2]).id == old(cat).files@[w].namespace_id;
                assert(old(cat).namespaces@[w2].id != self.id);
                assert(old(cat).namespaces@.filter(keep_ns_pred).contains(
                    old(cat).namespaces@[w2],
                )) by {
                    old(cat).namespaces@.lemma_filter_contains(keep_ns_pred, w2);
                }
                let w3 = choose|w3: int|
                    0 <= w3 < cat.namespaces@.len() && cat.namespaces@[w3] == old(
                        cat,
                    ).namespaces@[w2];
                assert(cat.namespaces@[w3].id == old(cat).files@[w].namespace_id);
            }
        }
        Ok(names)
    }

    /// Rename a namespace.  Renaming to a name the owner already uses is
    /// refused, so names stay unique per user.
    pub fn rename(&self, cat: &mut Catalog, new_name: &str) -> (r: Result<(), RestError>)
        requires
            old(cat).wf(),
        ensures
            final(cat).wf(),
            same_files(*final(cat), *old(cat)),
            same_attributes(*final(cat), *old(cat)),
            same_assocs(*final(cat), *old(cat)),
            final(cat).next_namespace_id == old(cat).next_namespace_id,
            match r {
                Ok(()) => {
                    &&& !rename_collides(old(cat).namespaces@, self.id, new_name@)
                    &&& final(cat).namespaces@.len() == old(cat).namespaces@.len()
                    &&& forall|j: int|
                        0 <= j < old(cat).namespaces@.len() && (#[trigger] old(cat).namespaces@[j]).id
                            != self.id ==> final(cat).namespaces@[j] == old(cat).namespaces@[j]
                    &&& forall|j: int|
                        0 <= j < old(cat).namespaces@.len() && (#[trigger] old(cat).namespaces@[j]).id
                            == self.id ==> final(cat).namespaces@[j].id == self.id
                            && final(cat).namespaces@[j].name@ == new_name@
                            && final(cat).namespaces@[j].user_id == old(cat).namespaces@[j].user_id
                },
                Err(e) => {
                    &&& e == RestError::AlreadyExists
                    &&& rename_collides(old(cat).namespaces@, self.id, new_name@)
                    &&& *final(cat) == *old(cat)
                },
            },
    {
        let target = match Namespace::find_by_id(cat, self.id) {
            Ok(ns) => ns,
            Err(_) => {
                proof {
                    if rename_collides(cat.namespaces@, self.id, new_name@) {
                        let (j2, k2): (int, int) = choose|j2: int, k2: int|
                            0 <= j2 < cat.namespaces@.len() && 0 <= k2 < cat.namespaces@.len()
                                && (#[trigger] cat.namespaces@[j2]).id == self.id && (
                            #[trigger] cat.namespaces@[k2]).id != self.id
                                && cat.namespaces@[k2].user_id == cat.namespaces@[j2].user_id
                                && cat.namespaces@[k2].name@ == new_name@;
                    }
                }
                return Ok(());
            },
        };
        let ghost tw = choose|tw: int|
            0 <= tw < cat.namespaces@.len() && cat.namespaces@[tw] == target;
        let mut i: usize = 0;
        while i < cat.namespaces.len()
            invariant
                cat == old(cat),
                old(cat).wf(),
                cat.namespaces@.contains(target) && target.id == self.id,
                0 <= tw < cat.namespaces@.len() && cat.namespaces@[tw] == target,
                i <= cat.namespaces@.len(),
                forall|k: int|
                    0 <= k < i ==> !((#[trigger] cat.namespaces@[k]).id != self.id
                        && cat.namespaces@[k].user_id == target.user_id && cat.namespaces@[k].name@
                        == new_name@),
            decreases cat.namespaces@.len() - i,
        {
            let ns = &cat.namespaces[i];
            if ns.id != self.id && ns.user_id == target.user_id && str_eq(
                ns.name.as_str(),
                new_name,
            ) {
                proof {
                    assert(cat.namespaces@[tw].id == self.id && cat.namespaces@[i as int].id
                        != self.id && cat.namespaces@[i as int].user_id
                        == cat.namespaces@[tw].user_id && cat.namespaces@[i as int].name@
                        == new_name@);
                }
                return Err(RestError::AlreadyExists);
            }
            i += 1;
        }
        proof {
            if rename_collides(cat.namespaces@, self.id, new_name@) {
                let (j2, k2): (int, int) = choose|j2: int, k2: int|
                    0 <= j2 < cat.namespaces@.len() && 0 <= k2 < cat.namespaces@.len() && (
                    #[trigger] cat.namespaces@[j2]).id == self.id && (
                    #[trigger] cat.namespaces@[k2]).id != self.id && cat.namespaces@[k2].user_id
                        == cat.namespaces@[j2].user_id && cat.namespaces@[k2].name@ == new_name@;
                assert(cat.namespaces@[j2] == cat.namespaces@[tw]);
            }
        }
        let ghost checked = *cat;
        let mut out: Vec<Namespace> = Vec::new();
        let mut j: usize = 0;
        while j < cat.namespaces.len()
            invariant
                cat == old(cat),
                old(cat).wf(),
                forall|k: int|
                    0 <= k < cat.namespaces@.len() && (#[trigger] cat.namespaces@[k]).id
                        != self.id ==> !(cat.namespaces@[k].user_id == target.user_id
                        && cat.namespaces@[k].name@ == new_name@),
                cat.namespaces@.contains(target) && target.id == self.id,
                j <= cat.namespaces@.len(),
                out@.len() == j,
                forall|k: int|
                    0 <= k < j ==> (#[trigger] out@[k]).id == cat.namespaces@[k].id && out@[
                        k
                    ].user_id == cat.namespaces@[k].user_id && out@[k].name@ == if cat.namespaces@[
                        k
                    ].id == self.id {
                        new_name@
                    } else {
                        cat.namespaces@[k].name@
                    },
                forall|k: int|
                    0 <= k < j && (#[trigger] cat.namespaces@[k]).id != self.id ==> out@[k]
                        == cat.namespaces@[k],
            decreases cat.namespaces@.len() - j,
        {
            if cat.namespaces[j].id == self.id {
                out.push(
                    Namespace {
                        id: cat.namespaces[j].id,
                        name: new_name.to_owned(),
                        user_id: cat.namespaces[j].user_id,
                    },
                );
            } else {
                out.push(cat.namespaces[j].clone());
            }
            j += 1;
        }
        proof {
            let nss = out@;
            let olds = cat.namespaces@;
            assert forall|a: int, b: int|
                0 <= a < nss.len() && 0 <= b < nss.len() && a != b implies (
            #[trigger] nss[a]).id != (#[trigger] nss[b]).id by {
                assert(olds[a].id != olds[b].id);
            }
            assert forall|a: int| 0 <= a < nss.len() implies 0 < (#[trigger] nss[a]).id && nss[
                a
            ].id < cat.next_namespace_id by {
                assert(0 < olds[a].id && olds[a].id < cat.next_namespace_id);
            }
            let w = choose|w: int| 0 <= w < olds.len() && olds[w] == target;
            assert forall|a: int, b: int|
                0 <= a < nss.len() && 0 <= b < nss.len() && a != b implies !((
            #[trigger] nss[a]).name@ == (#[trigger] nss[b]).name@ && nss[a].user_id
                == nss[b].user_id) by {
                assert(olds[a].id != olds[b].id);
                if olds[a].id == self.id {
                    assert(olds[a] == olds[w]);
                    assert(nss[a].user_id == target.user_id);
                    assert(!(olds[b].user_id == target.user_id && olds[b].name@ == new_name@));
                } else if olds[b].id == self.id {
                    assert(olds[b] == olds[w]);
                    assert(nss[b].user_id == target.user_id);
                    assert(!(olds[a].user_id == target.user_id && olds[a].name@ == new_name@));
                } else {
                    let key = |x: Namespace| (x.name@, x.user_id);
                    assert(key(olds[a]) != key(olds[b]));
                }
            }
        }
        cat.namespaces = out;
        proof {
            assert forall|i2: int| 0 <= i2 < cat.files@.len() implies cat.has_ns_id(
                (#[trigger] cat.files@[i2]).namespace_id,
            ) by {
                assert(old(cat).has_ns_id(old(cat).files@[i2].namespace_id));
                let w2 = choose|w2: int|
                    0 <= w2 < old(cat).namespaces@.len() && (#[trigger] old(
                        cat,
                    ).namespaces@[w2]).id == old(cat).files@[i2].namespace_id;
                assert(cat.namespaces@[w2].id == old(cat).files@[i2].namespace_id);
            }
        }
        Ok(())
    }
}

} // verus!
