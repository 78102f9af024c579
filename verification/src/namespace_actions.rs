//! The namespace endpoints' logic: create, list, rename and delete, with
//! the rules that guard the per-user "default" namespace.
use vstd::prelude::*;

use crate::catalog::{same_assocs, same_attributes, same_files, Catalog};
use crate::namespace::{
    rename_collides, spec_is_default_name, CreateNamespace, Namespace,
};
use crate::requests::NamespaceRequest;
use crate::response_code::{Origin, RestError};
use crate::text::str_eq;
use crate::user::Authenticateduser;

verus! {

use vstd::string::StringSliceAdditionalSpecFns;

/// Create a namespace for the user.  An empty name is malformed; a default
/// name can never be created; a name the user already holds is refused.
pub fn create_namespace(
    cat: &mut Catalog,
    req: &NamespaceRequest,
    user: &Authenticateduser,
) -> (r: Result<(), RestError>)
    requires
        old(cat).wf(),
        old(cat).next_namespace_id < i32::MAX,
    ensures
        final(cat).wf(),
        same_files(*final(cat), *old(cat)),
        same_attributes(*final(cat), *old(cat)),
        same_assocs(*final(cat), *old(cat)),
        match r {
            Ok(()) => {
                &&& req.name@.len() > 0
                &&& !spec_is_default_name(req.name@)
                &&& !old(cat).has_ns_named(req.name@, user.user.id)
                &&& final(cat).namespaces@.len() == old(cat).namespaces@.len() + 1
                &&& final(cat).namespaces@.last().name@ == req.name@
                &&& final(cat).namespaces@.last().user_id == user.user.id
                &&& final(cat).namespaces@.drop_last() == old(cat).namespaces@
            },
            Err(e) => {
                &&& *final(cat) == *old(cat)
                &&& {
                    ||| (e == RestError::BadRequest && req.name@.len() == 0)
                    ||| (e == RestError::IllegalOperation && req.name@.len() > 0
                        && spec_is_default_name(req.name@))
                    ||| (e == RestError::AlreadyExists && old(cat).has_ns_named(
                        req.name@,
                        user.user.id,
                    ))
                }
            },
        },
{
    if req.name.as_str().is_empty() {
        return Err(RestError::BadRequest);
    }
    if Namespace::is_default_name(req.name.as_str()) {
        return Err(RestError::IllegalOperation);
    }
    CreateNamespace::new(req.name.as_str(), user.user.id).create(cat)
}

/// The names of all namespaces of the user, in catalog order.
pub fn list_namespaces(cat: &Catalog, user: &Authenticateduser) -> (r: Vec<String>)
    ensures
        ({
            let sel = cat.namespaces@.filter(|n: Namespace| n.user_id == user.user.id);
            r@.len() == sel.len() && forall|k: int| 0 <= k < sel.len() ==> (#[trigger] r@[k])@
                == sel[k].name@
        }),
{
    let listed = Namespace::list(cat, &user.user);
    let mut out: Vec<String> = Vec::new();
    let mut i: usize = 0;
    while i < listed.len()
        invariant
            i <= listed@.len(),
            out@.len() == i,
            forall|k: int| 0 <= k < i ==> (#[trigger] out@[k])@ == listed@[k].name@,
        decreases listed@.len() - i,
    {
        out.push(listed[i].name.clone());
        i += 1;
    }
    out
}

/// Delete a namespace and everything in it.  Deleting a default namespace
/// is an illegal operation and touches nothing; a namespace the user does
/// not hold is not found.  The local storage names of the deleted files
/// are returned for the caller to remove.
pub fn delete_namespace(
    cat: &mut Catalog,
    req: &NamespaceRequest,
    user: &Authenticateduser,
) -> (r: Result<Vec<String>, RestError>)
    requires
        old(cat).wf(),
    ensures
        final(cat).wf(),
        final(cat).next_file_id == old(cat).next_file_id,
        final(cat).next_namespace_id == old(cat).next_namespace_id,
        final(cat).next_attribute_id == old(cat).next_attribute_id,
        final(cat).next_file_attribute_id == old(cat).next_file_attribute_id,
        match r {
            Ok(names) => {
                &&& !spec_is_default_name(req.name@)
                &&& old(cat).has_ns_named(req.name@, user.user.id)
                &&& ({
                    let nsid = crate::file::spec_ns_id_by_name(*old(cat), req.name@, user.user.id);
                    &&& final(cat).files@ == old(cat).files@.filter(
                        |f: crate::file::File| f.namespace_id != nsid,
                    )
                    &&& final(cat).namespaces@ == old(cat).namespaces@.filter(
                        |n: Namespace| n.id != nsid,
                    )
                    &&& ({
                        let deleted = old(cat).files@.filter(
                            |f: crate::file::File| f.namespace_id == nsid,
                        );
                        names@.len() == deleted.len() && forall|k: int|
                            0 <= k < names@.len() ==> (#[trigger] names@[k]) == deleted[
                                k
                            ].local_name
                    })
                })
            },
            Err(e) => {
                &&& *final(cat) == *old(cat)
                &&& {
                    ||| (e == RestError::IllegalOperation && spec_is_default_name(req.name@))
                    ||| (e == RestError::DNotFound(Origin::Namespace) && !spec_is_default_name(
                        req.name@,
                    ) && !old(cat).has_ns_named(req.name@, user.user.id))
                }
            },
        },
{
    if Namespace::is_default_name(req.name.as_str()) {
        return Err(RestError::IllegalOperation);
    }
    let ns = match Namespace::find_by_name(cat, req.name.as_str(), user.user.id) {
        Some(ns) => ns,
        None => {
            return Err(RestError::DNotFound(Origin::Namespace));
        },
    };
    proof {
        let w = choose|w: int| 0 <= w < cat.namespaces@.len() && cat.namespaces@[w] == ns;
        crate::file::lemma_ns_name_unique(*cat, w);
    }
    match ns.delete(cat) {
        Ok(names) => Ok(names),
        Err(_) => vstd::pervasive::unreached(),
    }
}

/// Rename a namespace.  Default namespaces can neither be renamed nor
/// created by renaming; renaming to the same name is malformed; the
/// namespace must exist and the new name must be free.
pub fn rename_namespace(
    cat: &mut Catalog,
    req: &NamespaceRequest,
    user: &Authenticateduser,
) -> (r: Result<(), RestError>)
    requires
        old(cat).wf(),
    ensures
        final(cat).wf(),
        same_files(*final(cat), *old(cat)),
        same_attributes(*final(cat), *old(cat)),
        same_assocs(*final(cat), *old(cat)),
        final(cat).next_namespace_id == old(cat).next_namespace_id,
        match r {
            Ok(()) => {
                &&& (req.new_name matches Some(n) && n@.len() >= 0)
                &&& !spec_is_default_name(req.name@)
                &&& old(cat).has_ns_named(req.name@, user.user.id)
                &&& ({
                    let nsid = crate::file::spec_ns_id_by_name(*old(cat), req.name@, user.user.id);
                    forall|j: int|
                        0 <= j < old(cat).namespaces@.len() && (#[trigger] old(
                            cat,
                        ).namespaces@[j]).id == nsid ==> final(cat).namespaces@[j].name@
                            == req.new_name->Some_0@
                })
            },
            Err(e) => {
                &&& *final(cat) == *old(cat)
                &&& {
                    ||| (e == RestError::BadRequest && (req.new_name is None || req.name@
                        == req.new_name->Some_0@))
                    ||| (e == RestError::IllegalOperation && (spec_is_default_name(req.name@)
                        || spec_is_default_name(req.new_name->Some_0@)))
                    ||| (e == RestError::DNotFound(Origin::Namespace) && !old(cat).has_ns_named(
                        req.name@,
                        user.user.id,
                    ))
                    ||| (e == RestError::AlreadyExists && rename_collides(
                        old(cat).namespaces@,
                        crate::file::spec_ns_id_by_name(*old(cat), req.name@, user.user.id),
                        req.new_name->Some_0@,
                    ))
                }
            },
        },
{
    let new_name = match &req.new_name {
        Some(name) => name,
        None => {
            return Err(RestError::BadRequest);
        },
    };
    if Namespace::is_default_name(req.name.as_str()) || Namespace::is_default_name(
        new_name.as_str(),
    ) {
        return Err(RestError::IllegalOperation);
    }
    if str_eq(req.name.as_str(), new_name.as_str()) {
        return Err(RestError::BadRequest);
    }
    let ns = match Namespace::find_by_name(cat, req.name.as_str(), user.user.id) {
        Some(ns) => ns,
        None => {
            return Err(RestError::DNotFound(Origin::Namespace));
        },
    };
    proof {
        let w = choose|w: int| 0 <= w < cat.namespaces@.len() && cat.namespaces@[w] == ns;
        crate::file::lemma_ns_name_unique(*cat, w);
    }
    ns.rename(cat, new_name.as_str())
}

} // verus!
