//! The file actions: bulk delete, update, publish, and picking the file a
//! download serves.  Storage I/O and transport stay with the caller; every
//! decision and every catalog change is here.
use vstd::prelude::*;

use crate::catalog::{
    lemma_filter_sub, same_assocs, same_attributes, same_files, same_namespaces, Catalog,
};
use crate::file::{spec_find_pred, spec_ns_id_by_name, File};
use crate::namespace::Namespace;
use crate::requests::{FileRequest, FileUpdateItem};
use crate::response_code::{Origin, RestError};
use crate::text::{parse_bool, spec_parse_bool};
use crate::upload::{retrieve_namespace, spec_ns_resolution_fails, spec_resolved_ns};
use crate::user::Authenticateduser;

verus! {

/// The request names neither a file name nor a positive file id.
pub open spec fn spec_bad_action_request(request: FileRequest) -> bool {
    (match request.name {
        Some(n) => n@.len() == 0,
        None => true,
    }) && request.file_id <= 0
}

/// Validate the file action request: either a file name or a positive file
/// id has to be passed.
pub fn validate_action_request(request: &FileRequest) -> (r: Result<(), RestError>)
    ensures
        match r {
            Ok(()) => !spec_bad_action_request(*request),
            Err(e) => e == RestError::BadRequest && spec_bad_action_request(*request),
        },
{
    let name_len_zero = match &request.name {
        Some(n) => n.as_str().is_empty(),
        None => true,
    };
    if name_len_zero && request.file_id <= 0 {
        return Err(RestError::BadRequest);
    }
    Ok(())
}

/// The rows an action request picks when searching by name: the files of
/// the scope matching the request's pattern, in catalog order.
pub open spec fn spec_action_results(
    files: Seq<File>,
    fid: i32,
    uid: i32,
    nsid: i32,
    name: Seq<char>,
) -> Seq<File>
    decreases files.len(),
{
    if files.len() == 0 {
        Seq::empty()
    } else {
        let pre = spec_action_results(files.drop_last(), fid, uid, nsid, name);
        if spec_action_pred(fid, uid, nsid, name, files.last()) {
            pre.push(files.last())
        } else {
            pre
        }
    }
}

/// One of the rows carries this id.
pub open spec fn id_among(files: Seq<File>, id: i32) -> bool {
    exists|j: int| 0 <= j < files.len() && (#[trigger] files[j]).id == id
}

/// The row-selection predicate of an action request, over plain values.
pub open spec fn spec_action_pred(fid: i32, uid: i32, nsid: i32, name: Seq<char>, f: File) -> bool {
    (if fid > 0 {
        f.id == fid
    } else {
        crate::text::like_match(vstd::utf8::encode_utf8(name), vstd::utf8::encode_utf8(f.name@))
    }) && (if nsid > 0 {
        f.namespace_id == nsid
    } else {
        f.user_id == uid
    })
}

/// `File::find`'s filter, restated over the probe's plain fields.
proof fn lemma_find_results(files: Seq<File>, probe: File)
    ensures
        files.filter(|f: File| spec_find_pred(probe, false, f)) == spec_action_results(
            files,
            probe.id,
            probe.user_id,
            probe.namespace_id,
            probe.name@,
        ),
    decreases files.len(),
{
    reveal(Seq::filter);
    if files.len() != 0 {
        lemma_find_results(files.drop_last(), probe);
    }
}

/// Get the files to act on, based on the request that was made: a positive
/// file id picks that one file of the user; otherwise every file of the
/// resolved namespace matching the requested name pattern.
pub fn find_files(cat: &Catalog, request: &FileRequest, user: &Authenticateduser) -> (r: Result<
    Vec<File>,
    RestError,
>)
    requires
        cat.wf(),
    ensures
        match r {
            Ok(v) => {
                &&& (forall|k: int| 0 <= k < v@.len() ==> cat.files@.contains(#[trigger] v@[k]))
                &&& (request.file_id > 0 ==> v@.len() == 1 && v@[0].id == request.file_id
                    && v@[0].user_id == user.user.id)
                &&& (request.file_id <= 0 ==> exists|ns: Namespace|
                    #[trigger] spec_resolved_ns(
                        *cat,
                        Some(request.attributes),
                        *user,
                        ns,
                    ) && v@ == spec_action_results(
                        cat.files@,
                        request.file_id,
                        user.user.id,
                        ns.id,
                        match request.name {
                            Some(n) => n@,
                            None => Seq::<char>::empty(),
                        },
                    ))
            },
            Err(e) => {
                ||| (e == RestError::DNotFound(Origin::File) && request.file_id > 0
                    && !cat.has_file_of_user(request.file_id, user.user.id))
                ||| ((e == RestError::NotFound || e == RestError::DNotFound(Origin::Namespace))
                    && request.file_id <= 0 && spec_ns_resolution_fails(
                    *cat,
                    Some(request.attributes),
                    *user,
                ))
            },
        },
{
    if request.file_id > 0 {
        match File::find_by_id(cat, request.file_id, user.user.id) {
            Ok(f) => {
                let mut v: Vec<File> = Vec::new();
                v.push(f);
                Ok(v)
            },
            Err(e) => Err(e),
        }
    } else {
        let attrs = Some(request.attributes.clone());
        let ns = match retrieve_namespace(cat, &attrs, user) {
            Ok(ns) => ns,
            Err(e) => {
                proof {
                    assert(crate::upload::spec_req_ns_name(attrs)
                        == crate::upload::spec_req_ns_name(Some(request.attributes)));
                }
                return Err(e);
            },
        };
        let name = match &request.name {
            Some(n) => n.clone(),
            None => String::new(),
        };
        let search_file = File {
            user_id: user.user.id,
            id: request.file_id,
            namespace_id: ns.id,
            name,
            ..File::default()
        };
        let found = search_file.find(cat, false);
        proof {
            lemma_filter_sub(
                cat.files@,
                |f: File| spec_find_pred(search_file, false, f),
            );
            assert forall|k: int| 0 <= k < found@.len() implies cat.files@.contains(
                #[trigger] found@[k],
            ) by {
                assert(cat.files@.filter(
                    |f: File| spec_find_pred(search_file, false, f),
                ).contains(found@[k]));
            }
            lemma_find_results(cat.files@, search_file);
            assert(spec_resolved_ns(*cat, Some(request.attributes), *user, ns));
        }
        Ok(found)
    }
}

/// The single file a by-id selection picks.
pub open spec fn spec_file_of_user(cat: Catalog, fid: i32, uid: i32) -> File {
    cat.files@[choose|i: int|
        0 <= i < cat.files@.len() && (#[trigger] cat.files@[i]).id == fid && cat.files@[i].user_id
            == uid]
}

/// The files a request selects: the user's one file under a positive id,
/// else every file of the resolved namespace matching the name pattern.
pub open spec fn spec_selected(cat: Catalog, request: FileRequest, user: Authenticateduser) -> Seq<
    File,
> {
    if request.file_id > 0 {
        if cat.has_file_of_user(request.file_id, user.user.id) {
            seq![spec_file_of_user(cat, request.file_id, user.user.id)]
        } else {
            Seq::empty()
        }
    } else {
        spec_action_results(
            cat.files@,
            request.file_id,
            user.user.id,
            crate::upload::spec_attrs_nsid(cat, Some(request.attributes), user),
            match request.name {
                Some(n) => n@,
                None => Seq::<char>::empty(),
            },
        )
    }
}

/// What `find_files` hands back on success is exactly the request's
/// selection.
proof fn lemma_find_is_selected(
    cat: Catalog,
    request: &FileRequest,
    user: &Authenticateduser,
    v: Seq<File>,
)
    requires
        cat.wf(),
        forall|k: int| 0 <= k < v.len() ==> cat.files@.contains(#[trigger] v[k]),
        request.file_id > 0 ==> v.len() == 1 && v[0].id == request.file_id && v[0].user_id
            == user.user.id,
        request.file_id <= 0 ==> exists|ns: Namespace|
            #[trigger] spec_resolved_ns(cat, Some(request.attributes), *user, ns) && v
                == spec_action_results(
                cat.files@,
                request.file_id,
                user.user.id,
                ns.id,
                match request.name {
                    Some(n) => n@,
                    None => Seq::<char>::empty(),
                },
            ),
    ensures
        v == spec_selected(cat, *request, *user),
{
    if request.file_id > 0 {
        assert(cat.files@.contains(v[0]));
        let w = choose|w: int| 0 <= w < cat.files@.len() && cat.files@[w] == v[0];
        assert(cat.files@[w].id == request.file_id && cat.files@[w].user_id == user.user.id);
        assert(cat.has_file_of_user(request.file_id, user.user.id));
        let c = choose|c: int|
            0 <= c < cat.files@.len() && (#[trigger] cat.files@[c]).id == request.file_id
                && cat.files@[c].user_id == user.user.id;
        if c != w {
            let key = |f: File| f.id;
            assert(key(cat.files@[c]) != key(cat.files@[w]));
        }
        assert(v =~= spec_selected(cat, *request, *user));
    } else {
        let ns = choose|ns: Namespace|
            #[trigger] spec_resolved_ns(cat, Some(request.attributes), *user, ns) && v
                == spec_action_results(
                cat.files@,
                request.file_id,
                user.user.id,
                ns.id,
                match request.name {
                    Some(n) => n@,
                    None => Seq::<char>::empty(),
                },
            );
        crate::upload::lemma_resolved_ns_id(cat, Some(request.attributes), *user, ns);
    }
}

/// The name an update gives a file, if any: empty requested names are
/// ignored.
pub open spec fn spec_updated_name(orig: Seq<char>, update: FileUpdateItem) -> Seq<char> {
    match update.new_name {
        Some(n) => if n@.len() > 0 {
            n@
        } else {
            orig
        },
        None => orig,
    }
}

/// The public flag an update leaves on a file.
pub open spec fn spec_updated_public(orig: bool, update: FileUpdateItem) -> bool {
    match update.is_public {
        Some(p) => if p@.len() > 0 {
            spec_parse_bool(p@) == Some(true)
        } else {
            orig
        },
        None => orig,
    }
}

/// The namespace id an update moves a file to.
pub open spec fn spec_updated_ns(
    nss: Seq<Namespace>,
    orig: i32,
    update: FileUpdateItem,
    uid: i32,
) -> i32 {
    match update.new_namespace {
        Some(n) => crate::file::ns_id_in(nss, n@, uid),
        None => orig,
    }
}

/// After a successful update, the row with the file's id carries the
/// updated name, namespace and public flag.
pub open spec fn spec_row_updated(
    files: Seq<File>,
    nss: Seq<Namespace>,
    orig: File,
    update: FileUpdateItem,
    uid: i32,
) -> bool {
    exists|j: int|
        0 <= j < files.len() && (#[trigger] files[j]).id == orig.id && files[j].name@
            == spec_updated_name(orig.name@, update) && files[j].namespace_id == spec_updated_ns(
            nss,
            orig.namespace_id,
            update,
            uid,
        ) && files[j].is_public == spec_updated_public(orig.is_public, update)
}

/// The update would change nothing on this file.
pub open spec fn spec_update_is_noop(update: FileUpdateItem, orig: File, cat: Catalog, uid: i32) ->
    bool {
    &&& (match update.new_namespace {
        Some(n) => spec_ns_id_by_name(cat, n@, uid) == orig.namespace_id,
        None => true,
    })
    &&& (match update.new_name {
        Some(n) => n@.len() == 0,
        None => true,
    })
    &&& (match update.is_public {
        Some(p) => p@.len() == 0,
        None => true,
    })
}

/// Update a single file and return whether it was modified.  A missing new
/// namespace is refused; publishing state may only change on a file that
/// has a public name; a public flag that is not a boolean is refused.
pub fn update_file(
    cat: &mut Catalog,
    file: &File,
    update: &FileUpdateItem,
    user: &Authenticateduser,
) -> (r: Result<bool, RestError>)
    requires
        old(cat).wf(),
        old(cat).has_file_id(file.id),
        old(cat).has_ns_id(file.namespace_id),
    ensures
        final(cat).wf(),
        same_namespaces(*final(cat), *old(cat)),
        same_attributes(*final(cat), *old(cat)),
        same_assocs(*final(cat), *old(cat)),
        final(cat).next_file_id == old(cat).next_file_id,
        final(cat).files@.len() == old(cat).files@.len(),
        forall|j: int|
            0 <= j < old(cat).files@.len() ==> (#[trigger] final(cat).files@[j]).id == old(
                cat,
            ).files@[j].id,
        forall|j: int|
            0 <= j < old(cat).files@.len() && (#[trigger] old(cat).files@[j]).id != file.id
                ==> final(cat).files@[j] == old(cat).files@[j],
        match r {
            Ok(b) => {
                &&& (match update.new_namespace {
                    Some(n) => old(cat).has_ns_named(n@, user.user.id),
                    None => true,
                })
                &&& (b ==> spec_row_updated(
                    final(cat).files@,
                    final(cat).namespaces@,
                    *file,
                    *update,
                    user.user.id,
                ))
                &&& (!b ==> *final(cat) == *old(cat) && spec_update_is_noop(
                    *update,
                    *file,
                    *old(cat),
                    user.user.id,
                ))
            },
            Err(e) => {
                &&& *final(cat) == *old(cat)
                &&& {
                    ||| (e == RestError::NotFound && (update.new_namespace matches Some(n)
                        && !old(cat).has_ns_named(n@, user.user.id)))
                    ||| (e == RestError::NotPublic && (update.is_public matches Some(p)
                        && p@.len() > 0 && file.public_filename is None))
                    ||| (e == RestError::BadRequest && (update.is_public matches Some(p)
                        && p@.len() > 0 && spec_parse_bool(p@) is None))
                }
            },
        },
{
    let mut did_update = false;
    let mut updated = file.clone();
    if let Some(new_ns) = &update.new_namespace {
        let ns = match Namespace::find_by_name(cat, new_ns.as_str(), user.user.id) {
            Some(ns) => ns,
            None => {
                return Err(RestError::NotFound);
            },
        };
        proof {
            let w = choose|w: int| 0 <= w < cat.namespaces@.len() && cat.namespaces@[w] == ns;
            crate::file::lemma_ns_name_unique(*cat, w);
        }
        if ns.id != updated.namespace_id {
            updated.namespace_id = ns.id;
            did_update = true;
        }
    }
    if let Some(new_name) = &update.new_name {
        if !new_name.as_str().is_empty() {
            updated.name = new_name.clone();
            did_update = true;
        }
    }
    if let Some(public) = &update.is_public {
        if !public.as_str().is_empty() {
            if updated.public_filename.is_none() {
                return Err(RestError::NotPublic);
            }
            match parse_bool(public) {
                Some(b) => {
                    updated.is_public = b;
                },
                None => {
                    return Err(RestError::BadRequest);
                },
            }
            did_update = true;
        }
    }
    if did_update {
        proof {
            if update.new_namespace is Some {
                let w = choose|w: int|
                    0 <= w < cat.namespaces@.len() && (#[trigger] cat.namespaces@[w]).name@
                        == update.new_namespace->Some_0@ && cat.namespaces@[w].user_id
                        == user.user.id;
                assert(cat.has_ns_id(cat.namespaces@[w].id));
            }
        }
        updated.save(cat);
        proof {
            let w2 = choose|w2: int|
                0 <= w2 < old(cat).files@.len() && (#[trigger] old(cat).files@[w2]).id == file.id;
            assert(cat.files@[w2] == updated);
        }
        Ok(true)
    } else {
        Ok(false)
    }
}

/// Update the given files and return the ids of those that changed.  On
/// success every selected file's row carries the requested name, namespace
/// and public flag.  If one file's update is refused, the error is
/// surfaced and files already processed keep their changes, as the
/// row-by-row store would leave them.
pub fn update_files(
    cat: &mut Catalog,
    files: &Vec<File>,
    update: &FileUpdateItem,
    user: &Authenticateduser,
) -> (r: Result<Vec<i32>, RestError>)
    requires
        old(cat).wf(),
        forall|k: int| 0 <= k < files@.len() ==> old(cat).files@.contains(#[trigger] files@[k]),
        forall|k1: int, k2: int|
            0 <= k1 < files@.len() && 0 <= k2 < files@.len() && k1 != k2 ==> (
            #[trigger] files@[k1]).id != (#[trigger] files@[k2]).id,
    ensures
        final(cat).wf(),
        same_namespaces(*final(cat), *old(cat)),
        same_attributes(*final(cat), *old(cat)),
        same_assocs(*final(cat), *old(cat)),
        final(cat).next_file_id == old(cat).next_file_id,
        final(cat).files@.len() == old(cat).files@.len(),
        match r {
            Ok(v) => {
                &&& v@.len() <= files@.len()
                &&& (forall|k: int| 0 <= k < v@.len() ==> id_among(files@, #[trigger] v@[k]))
                &&& (forall|k: int|
                    0 <= k < files@.len() ==> spec_row_updated(
                        final(cat).files@,
                        old(cat).namespaces@,
                        #[trigger] files@[k],
                        *update,
                        user.user.id,
                    ))
            },
            Err(e) => {
                ||| (e == RestError::NotFound && (update.new_namespace matches Some(n) && !old(
                    cat,
                ).has_ns_named(n@, user.user.id)))
                ||| (e == RestError::NotPublic && (update.is_public matches Some(p) && p@.len() > 0
                    && exists|k: int|
                    0 <= k < files@.len() && (#[trigger] files@[k]).public_filename is None))
                ||| (e == RestError::BadRequest && (update.is_public matches Some(p) && p@.len()
                    > 0 && spec_parse_bool(p@) is None))
            },
        },
{
    proof {
        lemma_found_files_ok(*cat, files@);
    }
    let ghost ids_so_far = |i: int, j: int|
        exists|k: int| 0 <= k < i && (#[trigger] files@[k]).id == old(cat).files@[j].id;
    let mut changed: Vec<i32> = Vec::new();
    let mut i: usize = 0;
    while i < files.len()
        invariant
            i <= files@.len(),
            cat.wf(),
            same_namespaces(*cat, *old(cat)),
            same_attributes(*cat, *old(cat)),
            same_assocs(*cat, *old(cat)),
            cat.next_file_id == old(cat).next_file_id,
            cat.files@.len() == old(cat).files@.len(),
            forall|j: int|
                0 <= j < old(cat).files@.len() ==> (#[trigger] cat.files@[j]).id == old(
                    cat,
                ).files@[j].id,
            forall|k: int| 0 <= k < files@.len() ==> old(cat).files@.contains(#[trigger] files@[k]),
            forall|k1: int, k2: int|
                0 <= k1 < files@.len() && 0 <= k2 < files@.len() && k1 != k2 ==> (
                #[trigger] files@[k1]).id != (#[trigger] files@[k2]).id,
            forall|k: int|
                0 <= k < files@.len() ==> cat.has_file_id((#[trigger] files@[k]).id)
                    && cat.has_ns_id(files@[k].namespace_id),
            forall|j: int|
                0 <= j < old(cat).files@.len() && !untouched_break(files@, i as int, old(
                    cat,
                ).files@[j].id) ==> cat.files@[j] == old(cat).files@[j],
            forall|k: int|
                0 <= k < i ==> spec_row_updated(
                    cat.files@,
                    old(cat).namespaces@,
                    #[trigger] files@[k],
                    *update,
                    user.user.id,
                ),
            changed@.len() <= i,
            forall|k: int| 0 <= k < changed@.len() ==> id_among(files@, #[trigger] changed@[k]),
        decreases files@.len() - i,
    {
        let ghost pre = *cat;
        let outcome = update_file(cat, &files[i], update, user);
        proof {
            assert forall|j: int|
                0 <= j < old(cat).files@.len() && !untouched_break(files@, i + 1, old(
                    cat,
                ).files@[j].id) implies cat.files@[j] == old(cat).files@[j] by {
                assert(!untouched_break(files@, i as int, old(cat).files@[j].id));
                assert(pre.files@[j].id == old(cat).files@[j].id);
                assert(pre.files@[j].id != files@[i as int].id);
            }
            assert forall|k: int| 0 <= k < i implies spec_row_updated(
                cat.files@,
                old(cat).namespaces@,
                #[trigger] files@[k],
                *update,
                user.user.id,
            ) by {
                let j = choose|j: int|
                    0 <= j < pre.files@.len() && (#[trigger] pre.files@[j]).id == files@[k].id
                        && pre.files@[j].name@ == spec_updated_name(files@[k].name@, *update)
                        && pre.files@[j].namespace_id == spec_updated_ns(
                        old(cat).namespaces@,
                        files@[k].namespace_id,
                        *update,
                        user.user.id,
                    ) && pre.files@[j].is_public == spec_updated_public(
                        files@[k].is_public,
                        *update,
                    );
                assert(pre.files@[j].id != files@[i as int].id);
                assert(cat.files@[j] == pre.files@[j]);
            }
        }
        match outcome {
            Ok(true) => {
                changed.push(files[i].id);
                proof {
                    assert(files@[i as int].id == changed@[changed@.len() - 1]);
                    assert(id_among(files@, changed@[changed@.len() - 1]));
                    assert(spec_row_updated(
                        cat.files@,
                        cat.namespaces@,
                        files@[i as int],
                        *update,
                        user.user.id,
                    ));
                    lemma_row_updated_same_nss(
                        cat.files@,
                        cat.namespaces@,
                        old(cat).namespaces@,
                        files@[i as int],
                        *update,
                        user.user.id,
                    );
                }
            },
            Ok(false) => {
                proof {
                    let j0 = choose|j0: int|
                        0 <= j0 < old(cat).files@.len() && old(cat).files@[j0] == files@[i as int];
                    assert(!untouched_break(files@, i as int, old(cat).files@[j0].id));
                    assert(pre.files@[j0] == files@[i as int]);
                    assert(cat.files@[j0] == files@[i as int]);
                    assert(spec_ns_id_by_name(pre, update.new_namespace->Some_0@, user.user.id)
                        == crate::file::ns_id_in(
                        old(cat).namespaces@,
                        update.new_namespace->Some_0@,
                        user.user.id,
                    ));
                    assert(spec_row_updated(
                        cat.files@,
                        old(cat).namespaces@,
                        files@[i as int],
                        *update,
                        user.user.id,
                    ));
                }
            },
            Err(e) => {
                proof {
                    if e == RestError::NotFound {
                        if old(cat).has_ns_named(
                            update.new_namespace->Some_0@,
                            user.user.id,
                        ) {
                            let w = choose|w: int|
                                0 <= w < old(cat).namespaces@.len() && (#[trigger] old(
                                    cat,
                                ).namespaces@[w]).name@ == update.new_namespace->Some_0@ && old(
                                    cat,
                                ).namespaces@[w].user_id == user.user.id;
                            assert(pre.namespaces@[w] == old(cat).namespaces@[w]);
                        }
                    }
                    if e == RestError::NotPublic {
                        assert(files@[i as int].public_filename is None);
                    }
                }
                return Err(e);
            },
        }
        i += 1;
    }
    Ok(changed)
}

/// Some of the first `n` selected files carries this id.
pub open spec fn untouched_break(files: Seq<File>, n: int, id: i32) -> bool {
    exists|k: int| 0 <= k < n && (#[trigger] files[k]).id == id
}

/// A row-update statement does not care which equal namespace table it is
/// read against.
proof fn lemma_row_updated_same_nss(
    rows: Seq<File>,
    nss1: Seq<Namespace>,
    nss2: Seq<Namespace>,
    orig: File,
    update: FileUpdateItem,
    uid: i32,
)
    requires
        nss1 == nss2,
        spec_row_updated(rows, nss1, orig, update, uid),
    ensures
        spec_row_updated(rows, nss2, orig, update, uid),
{
}

/// Delete the given files; their pairings and newly orphaned attributes go
/// with them.  Returns the deleted ids and the local storage names whose
/// objects the caller must remove.
pub fn delete_files(cat: &mut Catalog, files: &Vec<File>) -> (r: (Vec<i32>, Vec<String>))
    requires
        old(cat).wf(),
    ensures
        final(cat).wf(),
        same_namespaces(*final(cat), *old(cat)),
        final(cat).next_file_id == old(cat).next_file_id,
        r.0@.len() == files@.len(),
        r.1@.len() == files@.len(),
        forall|k: int| 0 <= k < files@.len() ==> r.0@[k] == (#[trigger] files@[k]).id,
        forall|k: int| 0 <= k < files@.len() ==> r.1@[k] == (#[trigger] files@[k]).local_name,
        forall|k: int| 0 <= k < files@.len() ==> !final(cat).has_file_id((#[trigger] files@[k]).id),
{
    let mut ids: Vec<i32> = Vec::new();
    let mut names: Vec<String> = Vec::new();
    let mut i: usize = 0;
    while i < files.len()
        invariant
            i <= files@.len(),
            cat.wf(),
            same_namespaces(*cat, *old(cat)),
            cat.next_file_id == old(cat).next_file_id,
            ids@.len() == i,
            names@.len() == i,
            forall|k: int| 0 <= k < i ==> ids@[k] == (#[trigger] files@[k]).id,
            forall|k: int| 0 <= k < i ==> names@[k] == (#[trigger] files@[k]).local_name,
            forall|k: int| 0 <= k < i ==> !cat.has_file_id((#[trigger] files@[k]).id),
        decreases files@.len() - i,
    {
        let ghost pre = *cat;
        files[i].delete(cat);
        ids.push(files[i].id);
        names.push(files[i].local_name.clone());
        proof {
            lemma_filter_sub(pre.files@, |f: File| f.id != files@[i as int].id);
            assert forall|k: int| 0 <= k < i + 1 implies !cat.has_file_id(
                (#[trigger] files@[k]).id,
            ) by {
                if cat.has_file_id(files@[k].id) {
                    let w = choose|w: int|
                        0 <= w < cat.files@.len() && (#[trigger] cat.files@[w]).id == files@[k].id;
                    assert(cat.files@.contains(cat.files@[w]));
                    assert(pre.files@.contains(cat.files@[w]) && cat.files@[w].id != files@[
                        i as int
                    ].id);
                    if k < i {
                        let w2 = choose|w2: int|
                            0 <= w2 < pre.files@.len() && pre.files@[w2] == cat.files@[w];
                        assert(pre.has_file_id(files@[k].id));
                    }
                }
            }
        }
        i += 1;
    }
    (ids, names)
}

/// The rows an action selects are pairwise distinct: each source row is
/// considered once, and the catalog's ids are unique.
proof fn lemma_action_results_distinct(
    files: Seq<File>,
    fid: i32,
    uid: i32,
    nsid: i32,
    name: Seq<char>,
)
    requires
        crate::catalog::uniq_ids(files, |f: File| f.id),
    ensures
        ({
            let results = spec_action_results(files, fid, uid, nsid, name);
            &&& (forall|k: int| 0 <= k < results.len() ==> files.contains(#[trigger] results[k]))
            &&& (forall|a: int, b: int|
                0 <= a < results.len() && 0 <= b < results.len() && a != b ==> (
                #[trigger] results[a]).id != (#[trigger] results[b]).id)
        }),
    decreases files.len(),
{
    if files.len() != 0 {
        let d = files.drop_last();
        assert(crate::catalog::uniq_ids(d, |f: File| f.id)) by {
            assert forall|a: int, b: int|
                0 <= a < d.len() && 0 <= b < d.len() && a != b implies (#[trigger] d[a]).id != (
            #[trigger] d[b]).id by {
                let key = |f: File| f.id;
                assert(key(files[a]) != key(files[b]));
            }
        }
        lemma_action_results_distinct(d, fid, uid, nsid, name);
        let pre = spec_action_results(d, fid, uid, nsid, name);
        let results = spec_action_results(files, fid, uid, nsid, name);
        assert forall|k: int| 0 <= k < results.len() implies files.contains(
            #[trigger] results[k],
        ) by {
            if k < pre.len() {
                assert(d.contains(pre[k]));
                let w = choose|w: int| 0 <= w < d.len() && d[w] == pre[k];
                assert(files[w] == pre[k]);
            } else {
                assert(files[files.len() - 1] == results[k]);
            }
        }
        if spec_action_pred(fid, uid, nsid, name, files.last()) {
            assert forall|a: int, b: int|
                0 <= a < results.len() && 0 <= b < results.len() && a != b implies (
            #[trigger] results[a]).id != (#[trigger] results[b]).id by {
                if a == pre.len() || b == pre.len() {
                    let o = if a == pre.len() {
                        b
                    } else {
                        a
                    };
                    assert(d.contains(pre[o]));
                    let w = choose|w: int| 0 <= w < d.len() && d[w] == pre[o];
                    let key = |f: File| f.id;
                    assert(key(files[w]) != key(files[files.len() - 1]));
                }
            }
        }
    }
}

/// Rows found in the catalog can be acted on: they exist under their ids
/// and sit in namespaces that exist.
proof fn lemma_found_files_ok(cat: Catalog, files: Seq<File>)
    requires
        cat.wf(),
        forall|k: int| 0 <= k < files.len() ==> cat.files@.contains(#[trigger] files[k]),
    ensures
        forall|k: int|
            0 <= k < files.len() ==> cat.has_file_id((#[trigger] files[k]).id) && cat.has_ns_id(
                files[k].namespace_id,
            ),
{
    assert forall|k: int| 0 <= k < files.len() implies cat.has_file_id(
        (#[trigger] files[k]).id,
    ) && cat.has_ns_id(files[k].namespace_id) by {
        let w = choose|w: int| 0 <= w < cat.files@.len() && cat.files@[w] == files[k];
        assert(cat.files@[w].id == files[k].id);
        assert(cat.has_ns_id(cat.files@[w].namespace_id));
    }
}

/// Whatever `find_files` selected carries pairwise distinct ids.
proof fn lemma_selection_distinct(
    cat: Catalog,
    request: &FileRequest,
    user: &Authenticateduser,
    files: Seq<File>,
)
    requires
        cat.wf(),
        request.file_id > 0 ==> files.len() <= 1,
        request.file_id <= 0 ==> exists|ns: Namespace|
            #[trigger] spec_resolved_ns(cat, Some(request.attributes), *user, ns) && files
                == spec_action_results(
                cat.files@,
                request.file_id,
                user.user.id,
                ns.id,
                match request.name {
                    Some(n) => n@,
                    None => Seq::<char>::empty(),
                },
            ),
    ensures
        forall|k1: int, k2: int|
            0 <= k1 < files.len() && 0 <= k2 < files.len() && k1 != k2 ==> (
            #[trigger] files[k1]).id != (#[trigger] files[k2]).id,
{
    if request.file_id <= 0 {
        let ns = choose|ns: Namespace|
            #[trigger] spec_resolved_ns(cat, Some(request.attributes), *user, ns) && files
                == spec_action_results(
                cat.files@,
                request.file_id,
                user.user.id,
                ns.id,
                match request.name {
                    Some(n) => n@,
                    None => Seq::<char>::empty(),
                },
            );
        lemma_action_results_distinct(
            cat.files@,
            request.file_id,
            user.user.id,
            ns.id,
            match request.name {
                Some(n) => n@,
                None => Seq::<char>::empty(),
            },
        );
    }
}

/// Run a file action: "delete" removes the selected files (the returned
/// storage names must be cleaned up by the caller), "update" applies the
/// request's changes to every selected row; anything else is not allowed.
/// A selection that matches nothing is not found; one that matches several
/// files is refused unless the request asked for all of them.
pub fn run_file_action(
    cat: &mut Catalog,
    action: &String,
    request: &FileRequest,
    user: &Authenticateduser,
) -> (r: Result<(Vec<i32>, Vec<String>), RestError>)
    requires
        old(cat).wf(),
    ensures
        final(cat).wf(),
        same_namespaces(*final(cat), *old(cat)),
        final(cat).next_file_id == old(cat).next_file_id,
        match r {
            Ok(ids_and_names) => ({
                let sel = spec_selected(*old(cat), *request, *user);
                &&& (action@ == "delete"@ || action@ == "update"@)
                &&& sel.len() >= 1
                &&& (sel.len() > 1 ==> request.all)
                &&& (action@ == "delete"@ ==> {
                    &&& ids_and_names.0@.len() == sel.len()
                    &&& ids_and_names.1@.len() == sel.len()
                    &&& (forall|k: int|
                        0 <= k < sel.len() ==> ids_and_names.0@[k] == (#[trigger] sel[k]).id
                            && ids_and_names.1@[k] == sel[k].local_name
                            && !final(cat).has_file_id(sel[k].id))
                })
                &&& (action@ == "update"@ ==> {
                    &&& ids_and_names.1@.len() == 0
                    &&& (request.updates matches Some(u) && forall|k: int|
                        0 <= k < sel.len() ==> spec_row_updated(
                            final(cat).files@,
                            old(cat).namespaces@,
                            #[trigger] sel[k],
                            u,
                            user.user.id,
                        ))
                })
            }),
            Err(e) => ({
                let sel = spec_selected(*old(cat), *request, *user);
                ||| (e == RestError::BadRequest && (spec_bad_action_request(*request) || (action@
                    == "update"@ && request.updates is None) || (request.updates matches Some(u)
                    && u.is_public matches Some(p) && p@.len() > 0 && spec_parse_bool(p@)
                    is None)))
                ||| (e == RestError::NotAllowed && action@ != "delete"@ && action@ != "update"@)
                ||| (e == RestError::DNotFound(Origin::File) && request.file_id > 0
                    && !old(cat).has_file_of_user(request.file_id, user.user.id))
                ||| ((e == RestError::NotFound || e == RestError::DNotFound(Origin::Namespace))
                    && request.file_id <= 0 && spec_ns_resolution_fails(
                    *old(cat),
                    Some(request.attributes),
                    *user,
                ))
                ||| (e == RestError::NotFound && sel.len() == 0)
                ||| (e == RestError::MultipleFilesMatch && sel.len() > 1 && !request.all)
                ||| (e == RestError::NotFound && (request.updates matches Some(u)
                    && u.new_namespace matches Some(n) && !old(cat).has_ns_named(
                    n@,
                    user.user.id,
                )))
                ||| (e == RestError::NotPublic && (request.updates matches Some(u) && u.is_public
                    matches Some(p) && p@.len() > 0 && exists|k: int|
                    0 <= k < sel.len() && (#[trigger] sel[k]).public_filename is None))
            }),
        },
{
    if let Err(e) = validate_action_request(request) {
        return Err(e);
    }
    proof {
        reveal_strlit("delete");
        reveal_strlit("update");
        assert(("delete"@)[0] != ("update"@)[0]);
    }
    if crate::text::str_eq(action.as_str(), "delete") {
    } else if crate::text::str_eq(action.as_str(), "update") {
        if request.updates.is_none() {
            return Err(RestError::BadRequest);
        }
    } else {
        return Err(RestError::NotAllowed);
    }
    let files = match find_files(cat, request, user) {
        Ok(v) => v,
        Err(e) => {
            return Err(e);
        },
    };
    proof {
        lemma_find_is_selected(*cat, request, user, files@);
    }
    if files.len() == 0 {
        return Err(RestError::NotFound);
    }
    if files.len() > 1 && !request.all {
        return Err(RestError::MultipleFilesMatch);
    }
    proof {
        lemma_found_files_ok(*cat, files@);
        lemma_selection_distinct(*cat, request, user, files@);
    }
    if crate::text::str_eq(action.as_str(), "update") {
        let update = match &request.updates {
            Some(u) => u,
            None => vstd::pervasive::unreached(),
        };
        match update_files(cat, &files, update, user) {
            Ok(ids) => Ok((ids, Vec::new())),
            Err(e) => Err(e),
        }
    } else {
        Ok(delete_files(cat, &files))
    }
}

/// Publish the files a request selects: on success every selected row is
/// public and the responses describe those rows.  The selection rules are
/// those of the other actions; the publish itself follows `publish_files`.
pub fn publish_file_action(
    cat: &mut Catalog,
    request: &FileRequest,
    user: &Authenticateduser,
) -> (r: Result<Vec<crate::response::UploadResponse>, RestError>)
    requires
        old(cat).wf(),
    ensures
        final(cat).wf(),
        same_namespaces(*final(cat), *old(cat)),
        same_attributes(*final(cat), *old(cat)),
        same_assocs(*final(cat), *old(cat)),
        final(cat).next_file_id == old(cat).next_file_id,
        match r {
            Ok(v) => ({
                let sel = spec_selected(*old(cat), *request, *user);
                &&& sel.len() >= 1
                &&& (sel.len() > 1 ==> request.all)
                &&& !(sel.len() == 1 && sel[0].is_public)
                &&& (forall|k: int|
                    0 <= k < sel.len() ==> row_is_public(
                        final(cat).files@,
                        (#[trigger] sel[k]).id,
                    ))
                &&& v@.len() <= sel.len()
                &&& (forall|m: int|
                    0 <= m < v@.len() ==> id_among(sel, (#[trigger] v@[m]).file_id)
                        && row_is_public(final(cat).files@, v@[m].file_id))
            }),
            Err(e) => ({
                let sel = spec_selected(*old(cat), *request, *user);
                let requested = match request.public_name {
                    Some(n) => n@,
                    None => Seq::<char>::empty(),
                };
                ||| (e == RestError::BadRequest && spec_bad_action_request(*request))
                ||| (e == RestError::DNotFound(Origin::File) && request.file_id > 0
                    && !old(cat).has_file_of_user(request.file_id, user.user.id))
                ||| ((e == RestError::NotFound || e == RestError::DNotFound(Origin::Namespace))
                    && request.file_id <= 0 && spec_ns_resolution_fails(
                    *old(cat),
                    Some(request.attributes),
                    *user,
                ))
                ||| (e == RestError::NotFound && sel.len() == 0)
                ||| (e == RestError::MultipleFilesMatch && sel.len() > 1 && !request.all)
                ||| (e == RestError::AlreadyPublic && ((sel.len() == 1 && sel[0].is_public) || (
                sel.len() > 1 && requested.len() > 0)))
                ||| (e == RestError::AlreadyExists && crate::file::spec_pub_name_taken(
                    old(cat).files@,
                    requested,
                ))
            }),
        },
{
    if let Err(e) = validate_action_request(request) {
        return Err(e);
    }
    let files = match find_files(cat, request, user) {
        Ok(v) => v,
        Err(e) => {
            return Err(e);
        },
    };
    proof {
        lemma_find_is_selected(*cat, request, user, files@);
    }
    if files.len() == 0 {
        return Err(RestError::NotFound);
    }
    if files.len() > 1 && !request.all {
        return Err(RestError::MultipleFilesMatch);
    }
    proof {
        lemma_selection_distinct(*cat, request, user, files@);
    }
    let empty_name = String::new();
    let public_name: &String = match &request.public_name {
        Some(n) => n,
        None => &empty_name,
    };
    proof {
        assert(request.public_name matches Some(n) ==> public_name@ == n@);
        assert(request.public_name is None ==> public_name@ =~= Seq::<char>::empty());
    }
    publish_files(cat, &files, public_name)
}

/// Some row carries this id and is public.
pub open spec fn row_is_public(files: Seq<File>, id: i32) -> bool {
    exists|j: int| 0 <= j < files.len() && (#[trigger] files[j]).id == id && files[j].is_public
}

/// Publish the given files.  A single file that is already public, or a
/// requested name for more than one file, is refused up front; each file
/// still private is then given its public name (random when none was
/// passed) and marked public, so on success every selected file's row is
/// public.
pub fn publish_files(cat: &mut Catalog, files: &Vec<File>, public_name: &String) -> (r: Result<
    Vec<crate::response::UploadResponse>,
    RestError,
>)
    requires
        old(cat).wf(),
        forall|k: int| 0 <= k < files@.len() ==> old(cat).files@.contains(#[trigger] files@[k]),
        forall|k1: int, k2: int|
            0 <= k1 < files@.len() && 0 <= k2 < files@.len() && k1 != k2 ==> (
            #[trigger] files@[k1]).id != (#[trigger] files@[k2]).id,
    ensures
        final(cat).wf(),
        same_namespaces(*final(cat), *old(cat)),
        same_attributes(*final(cat), *old(cat)),
        same_assocs(*final(cat), *old(cat)),
        final(cat).next_file_id == old(cat).next_file_id,
        match r {
            Ok(v) => {
                &&& !(files@.len() == 1 && files@[0].is_public)
                &&& !(files@.len() > 1 && public_name@.len() > 0)
                &&& v@.len() <= files@.len()
                &&& (forall|k: int|
                    0 <= k < files@.len() ==> row_is_public(
                        final(cat).files@,
                        (#[trigger] files@[k]).id,
                    ))
                &&& (forall|m: int|
                    0 <= m < v@.len() ==> id_among(files@, (#[trigger] v@[m]).file_id)
                        && row_is_public(final(cat).files@, v@[m].file_id))
            },
            Err(e) => {
                ||| (e == RestError::AlreadyPublic && ((files@.len() == 1 && files@[0].is_public)
                    || (files@.len() > 1 && public_name@.len() > 0)) && *final(cat) == *old(cat))
                ||| (e == RestError::AlreadyExists && crate::file::spec_pub_name_taken(
                    old(cat).files@,
                    public_name@,
                ))
            },
        },
{
    if files.len() == 1 && files[0].is_public {
        return Err(RestError::AlreadyPublic);
    }
    if files.len() > 1 && !public_name.as_str().is_empty() {
        return Err(RestError::AlreadyPublic);
    }
    proof {
        lemma_found_files_ok(*cat, files@);
    }
    let mut publishes: Vec<crate::response::UploadResponse> = Vec::new();
    let mut i: usize = 0;
    while i < files.len()
        invariant
            i <= files@.len(),
            cat.wf(),
            same_namespaces(*cat, *old(cat)),
            same_attributes(*cat, *old(cat)),
            same_assocs(*cat, *old(cat)),
            cat.next_file_id == old(cat).next_file_id,
            cat.files@.len() == old(cat).files@.len(),
            forall|j: int|
                0 <= j < old(cat).files@.len() ==> (#[trigger] cat.files@[j]).id == old(
                    cat,
                ).files@[j].id,
            forall|k: int| 0 <= k < files@.len() ==> old(cat).files@.contains(#[trigger] files@[k]),
            forall|k1: int, k2: int|
                0 <= k1 < files@.len() && 0 <= k2 < files@.len() && k1 != k2 ==> (
                #[trigger] files@[k1]).id != (#[trigger] files@[k2]).id,
            forall|k: int| 0 <= k < files@.len() ==> old(cat).has_ns_id(
                (#[trigger] files@[k]).namespace_id,
            ),
            forall|j: int|
                0 <= j < old(cat).files@.len() && !untouched_break(files@, i as int, old(
                    cat,
                ).files@[j].id) ==> cat.files@[j] == old(cat).files@[j],
            forall|k: int| 0 <= k < i ==> row_is_public(cat.files@, (#[trigger] files@[k]).id),
            publishes@.len() <= i,
            public_name@.len() > 0 ==> files@.len() <= 1,
            public_name@.len() == 0 ==> forall|j: int|
                0 <= j < old(cat).files@.len() ==> (cat.files@[j] == old(cat).files@[j] || (
                match (#[trigger] cat.files@[j]).public_filename {
                    Some(p2) => p2@.len() == 25,
                    None => false,
                })),
            forall|m: int|
                0 <= m < publishes@.len() ==> exists|k: int|
                    0 <= k < i && (#[trigger] publishes@[m]).file_id == files@[k].id,
        decreases files@.len() - i,
    {
        let ghost pre = *cat;
        let mut published_row = false;
        if !files[i].is_public {
            let mut file = files[i].clone();
            proof {
                crate::catalog::lemma_ns_id_transfer(*old(cat), *cat, files@[
                    i as int
                ].namespace_id);
            }
            match file.publish(cat, public_name.as_str()) {
                Ok(()) => {
                    publishes.push(crate::response::UploadResponse::from_file(file));
                    published_row = true;
                    proof {
                        assert(publishes@[publishes@.len() - 1].file_id == files@[i as int].id);
                    }
                },
                Err(e) => {
                    proof {
                        let j = choose|j: int|
                            0 <= j < pre.files@.len() && crate::text::opt_str_view(
                                (#[trigger] pre.files@[j]).public_filename,
                            ) == Some(public_name@);
                        if public_name@.len() == 0 {
                            assert(cat.files@[j] == old(cat).files@[j] || (
                            match cat.files@[j].public_filename {
                                Some(p2) => p2@.len() == 25,
                                None => false,
                            }));
                            assert(old(cat).files@[j] == pre.files@[j]);
                        } else {
                            assert(files@.len() <= 1 && i == 0);
                            assert(!untouched_break(files@, i as int, old(cat).files@[j].id));
                            assert(old(cat).files@[j] == pre.files@[j]);
                        }
                        assert(crate::file::spec_pub_name_taken(old(cat).files@, public_name@));
                    }
                    return Err(e);
                },
            }
        }
        proof {
            assert forall|j: int| 0 <= j < old(cat).files@.len() implies (
            #[trigger] cat.files@[j]).id == old(cat).files@[j].id by {
                assert(pre.files@[j].id == old(cat).files@[j].id);
            }
            if published_row {
                let j0 = choose|j0: int|
                    0 <= j0 < pre.files@.len() && (#[trigger] pre.files@[j0]).id == files@[
                        i as int
                    ].id;
                assert(cat.files@[j0].is_public && cat.files@[j0].id == files@[i as int].id);
            } else {
                let j0 = choose|j0: int|
                    0 <= j0 < old(cat).files@.len() && old(cat).files@[j0] == files@[i as int];
                assert(!untouched_break(files@, i as int, old(cat).files@[j0].id));
                assert(cat.files@[j0] == files@[i as int]);
                assert(cat.files@[j0].is_public);
            }
            assert(row_is_public(cat.files@, files@[i as int].id));
            assert forall|j: int|
                0 <= j < old(cat).files@.len() && !untouched_break(files@, i + 1, old(
                    cat,
                ).files@[j].id) implies cat.files@[j] == old(cat).files@[j] by {
                assert(!untouched_break(files@, i as int, old(cat).files@[j].id));
                assert(pre.files@[j].id == old(cat).files@[j].id);
                assert(pre.files@[j].id != files@[i as int].id);
            }
            assert forall|k: int| 0 <= k < i + 1 implies row_is_public(
                cat.files@,
                (#[trigger] files@[k]).id,
            ) by {
                if k < i {
                    let j1 = choose|j1: int|
                        0 <= j1 < pre.files@.len() && (#[trigger] pre.files@[j1]).id == files@[
                            k
                        ].id && pre.files@[j1].is_public;
                    assert(pre.files@[j1].id != files@[i as int].id);
                    assert(cat.files@[j1] == pre.files@[j1]);
                }
            }
        }
        i += 1;
    }
    proof {
        assert forall|m: int| 0 <= m < publishes@.len() implies id_among(
            files@,
            (#[trigger] publishes@[m]).file_id,
        ) && row_is_public(cat.files@, publishes@[m].file_id) by {
            let k = choose|k: int|
                0 <= k < files@.len() && (#[trigger] publishes@[m]).file_id == files@[k].id;
            assert(files@[k].id == publishes@[m].file_id);
            assert(row_is_public(cat.files@, files@[k].id));
        }
    }
    Ok(publishes)
}

/// Pick the one file a download serves: bulk downloads are refused, the
/// file must exist, and an ambiguous name is never auto-resolved.
pub fn select_download_file(
    cat: &Catalog,
    request: &FileRequest,
    user: &Authenticateduser,
) -> (r: Result<File, RestError>)
    requires
        cat.wf(),
    ensures
        match r {
            Ok(f) => {
                &&& !request.all
                &&& spec_selected(*cat, *request, *user).len() == 1
                &&& f == spec_selected(*cat, *request, *user)[0]
            },
            Err(e) => {
                ||| (e == RestError::BadRequest && spec_bad_action_request(*request))
                ||| (e == RestError::IllegalOperation && request.all && !spec_bad_action_request(
                    *request,
                ))
                ||| (e == RestError::DNotFound(Origin::File) && request.file_id > 0
                    && !cat.has_file_of_user(request.file_id, user.user.id))
                ||| ((e == RestError::NotFound || e == RestError::DNotFound(Origin::Namespace))
                    && request.file_id <= 0 && spec_ns_resolution_fails(
                    *cat,
                    Some(request.attributes),
                    *user,
                ))
                ||| (e == RestError::NotFound && spec_selected(*cat, *request, *user).len() == 0)
                ||| (e == RestError::MultipleFilesMatch && spec_selected(
                    *cat,
                    *request,
                    *user,
                ).len() > 1)
            },
        },
{
    if let Err(e) = validate_action_request(request) {
        return Err(e);
    }
    if request.all {
        return Err(RestError::IllegalOperation);
    }
    let files = match find_files(cat, request, user) {
        Ok(v) => v,
        Err(e) => {
            return Err(e);
        },
    };
    proof {
        lemma_find_is_selected(*cat, request, user, files@);
    }
    if files.len() == 0 {
        return Err(RestError::NotFound);
    }
    if files.len() > 1 {
        return Err(RestError::MultipleFilesMatch);
    }
    let mut files = files;
    match files.pop() {
        Some(f) => Ok(f),
        None => vstd::pervasive::unreached(),
    }
}

} // verus!
