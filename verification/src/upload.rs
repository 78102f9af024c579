//! The record resolver and the catalog half of the upload flow: which file
//! row an upload lands in, and how a finished ingestion is recorded.
//!
//! The byte stream itself runs through the ingestor; storage I/O and
//! transport stay with the caller.
use vstd::prelude::*;

use crate::attribute::{AttributeType, NewAttribute};
use crate::catalog::{same_assocs, same_attributes, same_files, same_namespaces, Catalog};
use crate::file::{file_name_ns_is, File};
use crate::namespace::{spec_is_default_name, Namespace};
use crate::requests::{FileAttributes, UploadRequest};
use crate::response::UploadResponse;
use crate::response_code::{Origin, RestError};
use crate::user::Authenticateduser;

verus! {

/// The namespace name an upload or action request asks for; "default" when
/// it names none.
pub open spec fn spec_req_ns_name(attrs: Option<FileAttributes>) -> Seq<char> {
    match attrs {
        Some(a) => a.namespace@,
        None => "default"@,
    }
}

/// The namespace a request resolves to: the session's cached default
/// namespace (or the user's stored one) when the default is asked for,
/// else the named namespace of the user.
pub open spec fn spec_resolved_ns(
    cat: Catalog,
    attrs: Option<FileAttributes>,
    user: Authenticateduser,
    ns: Namespace,
) -> bool {
    let name = spec_req_ns_name(attrs);
    if spec_is_default_name(name) {
        match user.default_ns {
            Some(d) => ns == d,
            None => cat.namespaces@.contains(ns) && ns.name@ == "default"@ && ns.user_id
                == user.user.id,
        }
    } else {
        cat.namespaces@.contains(ns) && ns.name@ == name && ns.user_id == user.user.id
    }
}

/// When no namespace can be resolved for the request.
pub open spec fn spec_ns_resolution_fails(
    cat: Catalog,
    attrs: Option<FileAttributes>,
    user: Authenticateduser,
) -> bool {
    let name = spec_req_ns_name(attrs);
    if spec_is_default_name(name) {
        user.default_ns is None && !cat.has_ns_named("default"@, user.user.id)
    } else {
        !cat.has_ns_named(name, user.user.id)
    }
}

/// The id the request's namespace resolves to: the cached default
/// namespace's id where the default is asked for and cached, else the id of
/// the user's uniquely named row.
pub open spec fn spec_attrs_nsid(
    cat: Catalog,
    attrs: Option<FileAttributes>,
    user: Authenticateduser,
) -> i32 {
    let name = spec_req_ns_name(attrs);
    if spec_is_default_name(name) {
        match user.default_ns {
            Some(d) => d.id,
            None => crate::file::ns_id_in(cat.namespaces@, "default"@, user.user.id),
        }
    } else {
        crate::file::ns_id_in(cat.namespaces@, name, user.user.id)
    }
}

/// A resolved namespace carries exactly the id the request resolves to.
pub proof fn lemma_resolved_ns_id(
    cat: Catalog,
    attrs: Option<FileAttributes>,
    user: Authenticateduser,
    ns: Namespace,
)
    requires
        cat.namespaces_wf(),
        spec_resolved_ns(cat, attrs, user, ns),
    ensures
        ns.id == spec_attrs_nsid(cat, attrs, user),
{
    let name = spec_req_ns_name(attrs);
    if spec_is_default_name(name) {
        match user.default_ns {
            Some(d) => {},
            None => {
                let w = choose|w: int|
                    0 <= w < cat.namespaces@.len() && cat.namespaces@[w] == ns;
                crate::file::lemma_ns_name_unique(cat, w);
            },
        }
    } else {
        let w = choose|w: int| 0 <= w < cat.namespaces@.len() && cat.namespaces@[w] == ns;
        crate::file::lemma_ns_name_unique(cat, w);
    }
}

/// Try to get the desired namespace.  The session's cached default
/// namespace is used where possible and desired.
pub fn retrieve_namespace(
    cat: &Catalog,
    attributes: &Option<FileAttributes>,
    user: &Authenticateduser,
) -> (r: Result<Namespace, RestError>)
    ensures
        match r {
            Ok(ns) => spec_resolved_ns(*cat, *attributes, *user, ns),
            Err(e) => {
                &&& spec_ns_resolution_fails(*cat, *attributes, *user)
                &&& (e == RestError::NotFound || e == RestError::DNotFound(Origin::Namespace))
            },
        },
{
    let default_name = String::from_str("default");
    let ns_name: &String = match attributes {
        Some(a) => &a.namespace,
        None => &default_name,
    };
    proof {
        assert(attributes matches Some(a) ==> ns_name@ == a.namespace@);
        assert(attributes is None ==> ns_name@ == "default"@);
    }
    if Namespace::is_default_name(ns_name.as_str()) {
        match &user.default_ns {
            Some(d) => Ok(d.clone()),
            None => user.user.get_default_namespace(cat),
        }
    } else {
        match Namespace::find_by_name(cat, ns_name.as_str(), user.user.id) {
            Some(ns) => Ok(ns),
            None => Err(RestError::NotFound),
        }
    }
}

/// Find a namespace by its bare name, through the same resolution the
/// attribute-carrying requests use.
pub fn retrieve_namespace_by_name(
    cat: &Catalog,
    namespace: &str,
    user: &Authenticateduser,
) -> (r: Result<Namespace, RestError>)
    ensures
        match r {
            Ok(ns) => spec_resolved_ns_name(*cat, namespace@, *user, ns),
            Err(e) => {
                &&& spec_ns_resolution_fails_name(*cat, namespace@, *user)
                &&& (e == RestError::NotFound || e == RestError::DNotFound(Origin::Namespace))
            },
        },
{
    let attrs = Some(
        FileAttributes { namespace: namespace.to_owned(), tags: None, groups: None },
    );
    let r = retrieve_namespace(cat, &attrs, user);
    proof {
        assert(spec_req_ns_name(attrs) == namespace@);
    }
    r
}

/// The namespace a bare name resolves to; see `spec_resolved_ns`.
pub open spec fn spec_resolved_ns_name(
    cat: Catalog,
    name: Seq<char>,
    user: Authenticateduser,
    ns: Namespace,
) -> bool {
    if spec_is_default_name(name) {
        match user.default_ns {
            Some(d) => ns == d,
            None => cat.namespaces@.contains(ns) && ns.name@ == "default"@ && ns.user_id
                == user.user.id,
        }
    } else {
        cat.namespaces@.contains(ns) && ns.name@ == name && ns.user_id == user.user.id
    }
}

/// When a bare name resolves to no namespace; see
/// `spec_ns_resolution_fails`.
pub open spec fn spec_ns_resolution_fails_name(
    cat: Catalog,
    name: Seq<char>,
    user: Authenticateduser,
) -> bool {
    if spec_is_default_name(name) {
        user.default_ns is None && !cat.has_ns_named("default"@, user.user.id)
    } else {
        !cat.has_ns_named(name, user.user.id)
    }
}

/// Create or find the file row an upload should land in, together with the
/// namespace it goes to.  With "replace equal names" set, exactly one file
/// of that name may exist: none means a fresh row, more than one is
/// ambiguous and refused.  With "replace by id" set, the file's own
/// namespace wins over the requested one.
pub fn select_file(
    upload_request: &UploadRequest,
    cat: &Catalog,
    user: Authenticateduser,
) -> (r: Result<(File, Namespace), RestError>)
    requires
        cat.wf(),
    ensures
        match r {
            Ok(p) => {
                &&& (match upload_request.replace_file_by_id {
                    Some(id) => {
                        &&& cat.files@.contains(p.0)
                        &&& p.0.id == id
                        &&& p.0.user_id == user.user.id
                        &&& cat.namespaces@.contains(p.1)
                        &&& p.1.id == p.0.namespace_id
                    },
                    None => {
                        &&& spec_resolved_ns(*cat, upload_request.attributes, user, p.1)
                        &&& if upload_request.replace_equal_names && cat.files@.filter(
                            |f: File| file_name_ns_is(f, upload_request.name@, p.1.id),
                        ).len() == 1 {
                            &&& cat.files@.contains(p.0)
                            &&& file_name_ns_is(p.0, upload_request.name@, p.1.id)
                        } else {
                            &&& p.0.id == 0
                            &&& (upload_request.name@.len() > 0 ==> p.0.name@
                                == upload_request.name@)
                            &&& (upload_request.name@.len() == 0 ==> p.0.name@.len() == 20)
                            &&& p.0.local_name@.len() == 30
                            &&& p.0.user_id == user.user.id
                            &&& p.0.namespace_id == p.1.id
                            &&& p.0.file_size == 0
                            &&& p.0.checksum@.len() == 0
                            &&& (match upload_request.public {
                                Some(true) => (match upload_request.public_name {
                                    Some(n) => crate::text::opt_str_view(p.0.public_filename)
                                        == Some(n@),
                                    None => (match p.0.public_filename {
                                        Some(x) => x@.len() == 25,
                                        None => false,
                                    }),
                                }),
                                _ => p.0.public_filename == upload_request.public_name,
                            })
                        }
                    },
                })
                &&& (upload_request.replace_equal_names
                    && upload_request.replace_file_by_id is None
                    ==> cat.files@.filter(
                    |f: File| file_name_ns_is(f, upload_request.name@, p.1.id),
                ).len() <= 1)
            },
            Err(e) => {
                ||| (e == RestError::MultipleFilesMatch && upload_request.replace_equal_names
                    && exists|ns: Namespace|
                    #[trigger] spec_resolved_ns(*cat, upload_request.attributes, user, ns)
                        && cat.files@.filter(
                        |f: File| file_name_ns_is(f, upload_request.name@, ns.id),
                    ).len() > 1)
                ||| ((e == RestError::NotFound || e == RestError::DNotFound(Origin::Namespace))
                    && spec_ns_resolution_fails(*cat, upload_request.attributes, user))
                ||| (e == RestError::DNotFound(Origin::File)
                    && (upload_request.replace_file_by_id matches Some(id)
                        && !cat.has_file_of_user(id, user.user.id)))
            },
        },
{
    let target_namespace = match retrieve_namespace(cat, &upload_request.attributes, &user) {
        Ok(ns) => ns,
        Err(e) => {
            return Err(e);
        },
    };
    let mut target_namespace = target_namespace;
    let mut file: File = File::default();
    let mut replace_file = false;
    if upload_request.replace_equal_names {
        let count = File::find_by_name_count(cat, upload_request.name.as_str(),
            target_namespace.id,
        );
        if count == 1 {
            match File::find_by_name(cat, upload_request.name.as_str(), target_namespace.id) {
                Ok(f) => {
                    file = f;
                    replace_file = true;
                },
                Err(_) => {
                    proof {
                        let sel = cat.files@.filter(
                            |f: File| file_name_ns_is(f, upload_request.name@,
                                target_namespace.id,
                            ),
                        );
                        assert(sel.len() == 1);
                        crate::catalog::lemma_filter_sub(
                            cat.files@,
                            |f: File| file_name_ns_is(f, upload_request.name@,
                                target_namespace.id,
                            ),
                        );
                        assert(sel.contains(sel[0]));
                        assert(cat.files@.contains(sel[0]));
                        let w = choose|w: int|
                            0 <= w < cat.files@.len() && cat.files@[w] == sel[0];
                        assert(file_name_ns_is(cat.files@[w], upload_request.name@,
                            target_namespace.id,
                        ));
                    }
                    return vstd::pervasive::unreached();
                },
            }
        } else if count > 1 {
            proof {
                assert(spec_resolved_ns(*cat, upload_request.attributes, user, target_namespace));
            }
            return Err(RestError::MultipleFilesMatch);
        }
    }
    if let Some(id) = upload_request.replace_file_by_id {
        let found = match File::find_by_id(cat, id, user.user.id) {
            Ok(f) => f,
            Err(e) => {
                return Err(e);
            },
        };
        let ns = match found.namespace(cat) {
            Ok(ns) => ns,
            Err(_) => {
                proof {
                    let w = choose|w: int|
                        0 <= w < cat.files@.len() && cat.files@[w] == found;
                    assert(cat.has_ns_id(cat.files@[w].namespace_id));
                }
                return vstd::pervasive::unreached();
            },
        };
        file = found;
        target_namespace = ns;
    } else if !replace_file {
        file = upload_request.clone().into_file();
        file.namespace_id = target_namespace.id;
        file.user_id = user.user.id;
        if matches!(upload_request.public, Some(true)) {
            file.public_filename = match &upload_request.public_name {
                Some(name) => Some(name.clone()),
                None => Some(crate::utils::random_string(25)),
            };
        }
    }
    Ok((file, target_namespace))
}

/// How many attribute names an upload request carries.
pub open spec fn spec_attr_name_count(attrs: Option<FileAttributes>) -> int {
    match attrs {
        Some(a) => (match a.tags {
            Some(t) => t@.len() as int,
            None => 0,
        }) + (match a.groups {
            Some(g) => g@.len() as int,
            None => 0,
        }),
        None => 0,
    }
}

/// An attribute with this uniqueness key exists and is paired with the
/// file.
pub open spec fn spec_attr_attached(
    cat: Catalog,
    name: Seq<char>,
    t: AttributeType,
    uid: i32,
    nsid: i32,
    fid: i32,
) -> bool {
    exists|i: int|
        0 <= i < cat.attributes@.len() && crate::attribute::attr_key_is(
            #[trigger] cat.attributes@[i],
            name,
            t,
            uid,
            nsid,
        ) && cat.has_assoc(fid, cat.attributes@[i].id)
}

/// Creates and adds the requested tag and group attributes to the uploaded
/// file: each name is found or created in the target namespace, then
/// paired with the file.
pub fn handle_attributes(
    cat: &mut Catalog,
    upload_request: &UploadRequest,
    file: &File,
    user: &Authenticateduser,
    namespace: &Namespace,
)
    requires
        old(cat).wf(),
        old(cat).next_attribute_id + spec_attr_name_count(upload_request.attributes)
            <= i32::MAX,
        old(cat).next_file_attribute_id + spec_attr_name_count(upload_request.attributes)
            <= i32::MAX,
    ensures
        final(cat).wf(),
        same_files(*final(cat), *old(cat)),
        same_namespaces(*final(cat), *old(cat)),
        upload_request.attributes is None ==> same_attributes(*final(cat), *old(cat))
            && same_assocs(*final(cat), *old(cat)),
        (match upload_request.attributes {
            Some(attrs) => {
                &&& (match attrs.tags {
                    Some(tags) => forall|k: int|
                        0 <= k < tags@.len() ==> spec_attr_attached(
                            *final(cat),
                            (#[trigger] tags@[k])@,
                            AttributeType::Tag,
                            user.user.id,
                            namespace.id,
                            file.id,
                        ),
                    None => true,
                })
                &&& (match attrs.groups {
                    Some(groups) => forall|k: int|
                        0 <= k < groups@.len() ==> spec_attr_attached(
                            *final(cat),
                            (#[trigger] groups@[k])@,
                            AttributeType::Group,
                            user.user.id,
                            namespace.id,
                            file.id,
                        ),
                    None => true,
                })
            },
            None => true,
        }),
{
    let attrs = match &upload_request.attributes {
        Some(a) => a,
        None => {
            return ;
        },
    };
    let empty_names: Vec<String> = Vec::new();
    let tag_names: &Vec<String> = match &attrs.tags {
        Some(t) => t,
        None => &empty_names,
    };
    let group_names: &Vec<String> = match &attrs.groups {
        Some(g) => g,
        None => &empty_names,
    };
    proof {
        assert(attrs.tags matches Some(t) ==> tag_names@ == t@);
        assert(attrs.tags is None ==> tag_names@ =~= Seq::<String>::empty());
        assert(attrs.groups matches Some(g) ==> group_names@ == g@);
        assert(attrs.groups is None ==> group_names@ =~= Seq::<String>::empty());
    }
    let tags = NewAttribute::find_and_create(
        cat,
        tag_names,
        AttributeType::Tag,
        user.user.id,
        namespace.id,
    );
    let ghost mid = *cat;
    let groups = NewAttribute::find_and_create(
        cat,
        group_names,
        AttributeType::Group,
        user.user.id,
        namespace.id,
    );
    let ghost mid2 = *cat;
    let mut all: Vec<crate::attribute::Attribute> = Vec::new();
    let mut i: usize = 0;
    while i < tags.len()
        invariant
            i <= tags@.len(),
            all@ == tags@.take(i as int),
        decreases tags@.len() - i,
    {
        all.push(tags[i].clone());
        proof {
            assert(tags@.take(i + 1) == tags@.take(i as int).push(tags@[i as int]));
        }
        i += 1;
    }
    proof {
        assert(tags@.take(tags@.len() as int) == tags@);
    }
    let mut j: usize = 0;
    while j < groups.len()
        invariant
            j <= groups@.len(),
            all@ == tags@ + groups@.take(j as int),
        decreases groups@.len() - j,
    {
        all.push(groups[j].clone());
        proof {
            assert(tags@ + groups@.take(j + 1) == (tags@ + groups@.take(j as int)).push(
                groups@[j as int]));
        }
        j += 1;
    }
    proof {
        assert(groups@.take(groups@.len() as int) == groups@);
        assert(all@ == tags@ + groups@);
    }
    crate::file::File::add_attributes(file, cat, all);
    proof {
        assert forall|k: int| 0 <= k < tag_names@.len() implies spec_attr_attached(
            *cat,
            (#[trigger] tag_names@[k])@,
            AttributeType::Tag,
            user.user.id,
            namespace.id,
            file.id,
        ) by {
            let a = tags@[k];
            assert(crate::attribute::attr_key_is(
                a,
                tag_names@[k]@,
                AttributeType::Tag,
                user.user.id,
                namespace.id,
            ));
            assert(mid2.attributes@.contains(a)) by {
                assert(mid.attributes@.contains(a));
                let w = choose|w: int|
                    0 <= w < mid.attributes@.len() && mid.attributes@[w] == a;
                assert(mid2.attributes@[w] == a);
            }
            let w2 = choose|w2: int| 0 <= w2 < mid2.attributes@.len() && mid2.attributes@[w2]
                == a;
            assert(cat.attributes@[w2] == a);
            assert((all@)[k] == a);
            assert(cat.has_assoc(file.id, a.id));
        }
        assert forall|k: int| 0 <= k < group_names@.len() implies spec_attr_attached(
            *cat,
            (#[trigger] group_names@[k])@,
            AttributeType::Group,
            user.user.id,
            namespace.id,
            file.id,
        ) by {
            let a = groups@[k];
            assert(crate::attribute::attr_key_is(
                a,
                group_names@[k]@,
                AttributeType::Group,
                user.user.id,
                namespace.id,
            ));
            assert(mid2.attributes@.contains(a));
            let w2 = choose|w2: int| 0 <= w2 < mid2.attributes@.len() && mid2.attributes@[w2]
                == a;
            assert(cat.attributes@[w2] == a);
            assert((all@)[tags@.len() + k] == a);
            assert(cat.has_assoc(file.id, a.id));
        }
    }
}

/// Record a finished ingestion: the checksum, size and type land on the
/// file row, the row is inserted (or updated in place), the requested
/// attributes are attached, and the upload response is assembled.
pub fn finish_upload(
    cat: &mut Catalog,
    file: File,
    namespace: &Namespace,
    upload_request: &UploadRequest,
    user: &Authenticateduser,
    crc: String,
    size: i64,
    mime_type: String,
) -> (r: UploadResponse)
    requires
        old(cat).wf(),
        old(cat).has_ns_id(file.namespace_id),
        file.id != 0 ==> old(cat).has_file_id(file.id),
        old(cat).next_file_id < i32::MAX,
        old(cat).next_attribute_id + spec_attr_name_count(upload_request.attributes)
            <= i32::MAX,
        old(cat).next_file_attribute_id + spec_attr_name_count(upload_request.attributes)
            <= i32::MAX,
    ensures
        final(cat).wf(),
        same_namespaces(*final(cat), *old(cat)),
        r.checksum@ == crc@,
        r.file_size == size,
        r.namespace@ == namespace.name@,
        r.file_name@ == file.name@,
        r.public_file_name == file.public_filename,
        file.id == 0 ==> r.file_id == old(cat).next_file_id,
        file.id != 0 ==> r.file_id == file.id,
        file.id == 0 ==> final(cat).files@.len() == old(cat).files@.len() + 1 && forall|j: int|
            0 <= j < old(cat).files@.len() ==> final(cat).files@[j] == old(cat).files@[j],
        file.id != 0 ==> final(cat).files@.len() == old(cat).files@.len() && forall|j: int|
            0 <= j < old(cat).files@.len() && (#[trigger] old(cat).files@[j]).id != file.id
                ==> final(cat).files@[j] == old(cat).files@[j],
        ({
            let fid = if file.id == 0 {
                old(cat).next_file_id
            } else {
                file.id
            };
            exists|j: int|
                0 <= j < final(cat).files@.len() && (#[trigger] final(cat).files@[j]).id == fid
                    && final(cat).files@[j].checksum@ == crc@ && final(cat).files@[j].file_size
                    == size && final(cat).files@[j].file_type@ == mime_type@
        }),
{
    let mut file = file;
    file.checksum = crc.clone();
    file.file_size = size;
    file.file_type = mime_type;
    let stored: File;
    if file.id == 0 {
        stored = file.create(cat);
        proof {
            assert(cat.files@[cat.files@.len() - 1] == stored);
        }
    } else {
        let ghost pre = *cat;
        file.save(cat);
        stored = file;
        proof {
            let w = choose|w: int|
                0 <= w < pre.files@.len() && (#[trigger] pre.files@[w]).id == stored.id;
            assert(cat.files@[w] == stored);
        }
    }
    let ghost with_row = *cat;
    handle_attributes(cat, upload_request, &stored, user, namespace);
    proof {
        let fid = stored.id;
        let w = choose|w: int|
            0 <= w < with_row.files@.len() && (#[trigger] with_row.files@[w]).id == fid
                && with_row.files@[w].checksum@ == crc@ && with_row.files@[w].file_size == size;
        assert(cat.files@[w] == with_row.files@[w]);
    }
    UploadResponse {
        file_size: size,
        checksum: crc,
        namespace: namespace.name.clone(),
        file_id: stored.id,
        file_name: stored.name,
        public_file_name: stored.public_filename,
    }
}

} // verus!
