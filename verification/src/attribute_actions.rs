//! The attribute endpoints' logic: validating the requested action, and
//! running it against the catalog.
use vstd::prelude::*;

use crate::attribute::{Attribute, AttributeType, NewAttribute};
use crate::catalog::{same_assocs, same_files, same_namespaces, Catalog};
use crate::namespace::Namespace;
use crate::requests::UpdateAttribute;
use crate::response_code::{Origin, RestError};
use crate::text::{ascii_lower, bytes_eq, lower_bytes, str_eq};
use crate::user::Authenticateduser;

verus! {

use vstd::string::StringSliceAdditionalSpecFns;

/// The request names everything the action needs: a namespace and an
/// attribute name always, a new name when renaming.
pub fn validate_request(action: &str, request: &UpdateAttribute) -> (r: Result<(), RestError>)
    ensures
        match r {
            Ok(()) => !(action@ == "update"@ && request.new_name@.len() == 0)
                && request.namespace@.len() > 0 && request.name@.len() > 0,
            Err(e) => {
                &&& e == RestError::BadRequest
                &&& ((action@ == "update"@ && request.new_name@.len() == 0)
                    || request.namespace@.len() == 0 || request.name@.len() == 0)
            },
        },
{
    if (str_eq(action, "update") && request.new_name.as_str().is_empty())
        || request.namespace.as_str().is_empty() || request.name.as_str().is_empty() {
        return Err(RestError::BadRequest);
    }
    Ok(())
}

/// Only update, delete and create are known actions.
pub fn validate_action(action: &str) -> (r: Result<(), RestError>)
    ensures
        match r {
            Ok(()) => action@ == "update"@ || action@ == "delete"@ || action@ == "create"@,
            Err(e) => e == RestError::BadRequest && action@ != "update"@ && action@ != "delete"@
                && action@ != "create"@,
        },
{
    if str_eq(action, "update") || str_eq(action, "delete") || str_eq(action, "create") {
        Ok(())
    } else {
        Err(RestError::BadRequest)
    }
}

/// The kind named by an attribute path segment, ignoring ASCII case.
pub open spec fn spec_to_attribute(attr: Seq<char>) -> Option<AttributeType> {
    if lower_bytes(vstd::utf8::encode_utf8(attr)) == "tag".spec_bytes() {
        Some(AttributeType::Tag)
    } else if lower_bytes(vstd::utf8::encode_utf8(attr)) == "group".spec_bytes() {
        Some(AttributeType::Group)
    } else {
        None
    }
}

/// Parse the attribute kind out of the request path; anything but "tag"
/// and "group" (in any ASCII case) is refused.
pub fn to_attribute(attr: String) -> (r: Result<AttributeType, RestError>)
    ensures
        match r {
            Ok(t) => spec_to_attribute(attr@) == Some(t),
            Err(e) => e == RestError::BadRequest && spec_to_attribute(attr@) is None,
        },
{
    let lowered = ascii_lower(&vstd::slice::slice_to_vec(attr.as_str().as_bytes()));
    if bytes_eq(lowered.as_slice(), "tag".as_bytes()) {
        Ok(AttributeType::Tag)
    } else if bytes_eq(lowered.as_slice(), "group".as_bytes()) {
        Ok(AttributeType::Group)
    } else {
        Err(RestError::BadRequest)
    }
}

/// One attribute request, resolved and ready to run.
pub struct RequestData {
    pub action: String,
    pub attr_type: AttributeType,
    pub namespace: Namespace,
    pub request: UpdateAttribute,
    pub user: Authenticateduser,
}

impl RequestData {
    /// Run the attribute request: create, delete or rename the named
    /// attribute, each with the outcome its own operation promises.
    pub fn run_action(self, cat: &mut Catalog) -> (r: Result<(), RestError>)
        requires
            old(cat).wf(),
            old(cat).next_attribute_id < i32::MAX,
            self.action@ == "update"@ || self.action@ == "delete"@ || self.action@ == "create"@,
        ensures
            final(cat).wf(),
            same_files(*final(cat), *old(cat)),
            same_namespaces(*final(cat), *old(cat)),
            self.action@ == "create"@ ==> match r {
                Ok(()) => final(cat).has_attr_key(
                    self.request.name@,
                    self.attr_type,
                    self.user.user.id,
                    self.namespace.id,
                ),
                Err(e) => {
                    &&& e == RestError::AlreadyExists
                    &&& old(cat).has_attr_key(
                        self.request.name@,
                        self.attr_type,
                        self.user.user.id,
                        self.namespace.id,
                    )
                    &&& *final(cat) == *old(cat)
                },
            },
            self.action@ == "delete"@ ==> match r {
                Ok(()) => !final(cat).has_attr_key(
                    self.request.name@,
                    self.attr_type,
                    self.user.user.id,
                    self.namespace.id,
                ),
                Err(e) => {
                    &&& e == RestError::DNotFound(
                        match self.attr_type {
                            AttributeType::Tag => Origin::Tag,
                            AttributeType::Group => Origin::Group,
                        },
                    )
                    &&& !old(cat).has_attr_key(
                        self.request.name@,
                        self.attr_type,
                        self.user.user.id,
                        self.namespace.id,
                    )
                    &&& *final(cat) == *old(cat)
                },
            },
            self.action@ == "update"@ ==> match r {
                Ok(()) => old(cat).has_attr_key(
                    self.request.name@,
                    self.attr_type,
                    self.user.user.id,
                    self.namespace.id,
                ) && final(cat).has_attr_key(
                    self.request.new_name@,
                    self.attr_type,
                    self.user.user.id,
                    self.namespace.id,
                ),
                Err(e) => {
                    &&& *final(cat) == *old(cat)
                    &&& {
                        ||| (e == RestError::DNotFound(
                            match self.attr_type {
                                AttributeType::Tag => Origin::Tag,
                                AttributeType::Group => Origin::Group,
                            },
                        ) && !old(cat).has_attr_key(
                            self.request.name@,
                            self.attr_type,
                            self.user.user.id,
                            self.namespace.id,
                        ))
                        ||| (e == RestError::AlreadyExists && (exists|j: int|
                            0 <= j < old(cat).attributes@.len() && crate::attribute::attr_key_is(
                                #[trigger] old(cat).attributes@[j],
                                self.request.new_name@,
                                self.attr_type,
                                self.user.user.id,
                                self.namespace.id,
                            )))
                    }
                },
            },
    {
        proof {
            reveal_strlit("create");
            reveal_strlit("delete");
            reveal_strlit("update");
            assert(("create"@)[0] != ("delete"@)[0]);
            assert(("update"@)[0] != ("delete"@)[0]);
            assert(("update"@)[0] != ("create"@)[0]);
        }
        if str_eq(self.action.as_str(), "create") {
            self.create(cat)
        } else if str_eq(self.action.as_str(), "delete") {
            self.delete(cat)
        } else {
            self.update(cat)
        }
    }

    /// Create a new attribute under the request's name.
    pub fn create(self, cat: &mut Catalog) -> (r: Result<(), RestError>)
        requires
            old(cat).wf(),
            old(cat).next_attribute_id < i32::MAX,
        ensures
            final(cat).wf(),
            same_files(*final(cat), *old(cat)),
            same_namespaces(*final(cat), *old(cat)),
            same_assocs(*final(cat), *old(cat)),
            match r {
                Ok(()) => final(cat).has_attr_key(
                    self.request.name@,
                    self.attr_type,
                    self.user.user.id,
                    self.namespace.id,
                ),
                Err(e) => {
                    &&& e == RestError::AlreadyExists
                    &&& old(cat).has_attr_key(
                        self.request.name@,
                        self.attr_type,
                        self.user.user.id,
                        self.namespace.id,
                    )
                    &&& *final(cat) == *old(cat)
                },
            },
    {
        let new_attr = NewAttribute {
            name: self.request.name,
            type_: self.attr_type,
            user_id: self.user.user.id,
            namespace_id: self.namespace.id,
        };
        match new_attr.create(cat) {
            Ok(a) => {
                proof {
                    assert(cat.attributes@[cat.attributes@.len() - 1] == a);
                }
                Ok(())
            },
            Err(e) => Err(e),
        }
    }

    /// Delete the named attribute, together with its pairings.
    pub fn delete(self, cat: &mut Catalog) -> (r: Result<(), RestError>)
        requires
            old(cat).wf(),
        ensures
            final(cat).wf(),
            same_files(*final(cat), *old(cat)),
            same_namespaces(*final(cat), *old(cat)),
            match r {
                Ok(()) => !final(cat).has_attr_key(
                    self.request.name@,
                    self.attr_type,
                    self.user.user.id,
                    self.namespace.id,
                ),
                Err(e) => {
                    &&& e == RestError::DNotFound(
                        match self.attr_type {
                            AttributeType::Tag => Origin::Tag,
                            AttributeType::Group => Origin::Group,
                        },
                    )
                    &&& !old(cat).has_attr_key(
                        self.request.name@,
                        self.attr_type,
                        self.user.user.id,
                        self.namespace.id,
                    )
                    &&& *final(cat) == *old(cat)
                },
            },
    {
        let attribute = match self.find_attribute(cat) {
            Ok(a) => a,
            Err(e) => {
                return Err(e);
            },
        };
        let ghost pre = *cat;
        attribute.delete(cat);
        proof {
            crate::catalog::lemma_filter_sub(pre.attributes@, |a: Attribute| a.id != attribute.id);
            if cat.has_attr_key(
                self.request.name@,
                self.attr_type,
                self.user.user.id,
                self.namespace.id,
            ) {
                let w = choose|w: int|
                    0 <= w < cat.attributes@.len() && crate::attribute::attr_key_is(
                        #[trigger] cat.attributes@[w],
                        self.request.name@,
                        self.attr_type,
                        self.user.user.id,
                        self.namespace.id,
                    );
                assert(cat.attributes@.contains(cat.attributes@[w]));
                assert(pre.attributes@.contains(cat.attributes@[w]) && cat.attributes@[w].id
                    != attribute.id);
                let w2 = choose|w2: int|
                    0 <= w2 < pre.attributes@.len() && pre.attributes@[w2] == cat.attributes@[w];
                let w3 = choose|w3: int|
                    0 <= w3 < pre.attributes@.len() && pre.attributes@[w3] == attribute;
                let key = |x: Attribute| (x.name@, x.type_, x.user_id, x.namespace_id);
                assert(key(pre.attributes@[w2]) != key(pre.attributes@[w3]));
            }
        }
        Ok(())
    }

    /// Rename the named attribute.  The attribute must exist; a rename
    /// that would give two attributes one uniqueness key is refused; on
    /// success the row keeps its id and carries the new name, and every
    /// other row is untouched.
    pub fn update(self, cat: &mut Catalog) -> (r: Result<(), RestError>)
        requires
            old(cat).wf(),
        ensures
            final(cat).wf(),
            same_files(*final(cat), *old(cat)),
            same_namespaces(*final(cat), *old(cat)),
            same_assocs(*final(cat), *old(cat)),
            final(cat).next_attribute_id == old(cat).next_attribute_id,
            match r {
                Ok(()) => ({
                    let aid = crate::file::spec_attr_id_by_key(
                        *old(cat),
                        self.request.name@,
                        self.attr_type,
                        self.user.user.id,
                        self.namespace.id,
                    );
                    &&& old(cat).has_attr_key(
                        self.request.name@,
                        self.attr_type,
                        self.user.user.id,
                        self.namespace.id,
                    )
                    &&& final(cat).has_attr_key(
                        self.request.new_name@,
                        self.attr_type,
                        self.user.user.id,
                        self.namespace.id,
                    )
                    &&& final(cat).attributes@.len() == old(cat).attributes@.len()
                    &&& (forall|j: int|
                        0 <= j < old(cat).attributes@.len() && (#[trigger] old(
                            cat,
                        ).attributes@[j]).id != aid ==> final(cat).attributes@[j] == old(
                            cat,
                        ).attributes@[j])
                    &&& (forall|j: int|
                        0 <= j < old(cat).attributes@.len() && (#[trigger] old(
                            cat,
                        ).attributes@[j]).id == aid ==> final(cat).attributes@[j].id == aid
                            && crate::attribute::attr_key_is(
                            final(cat).attributes@[j],
                            self.request.new_name@,
                            self.attr_type,
                            self.user.user.id,
                            self.namespace.id,
                        ))
                }),
                Err(e) => {
                    &&& *final(cat) == *old(cat)
                    &&& {
                        ||| (e == RestError::DNotFound(
                            match self.attr_type {
                                AttributeType::Tag => Origin::Tag,
                                AttributeType::Group => Origin::Group,
                            },
                        ) && !old(cat).has_attr_key(
                            self.request.name@,
                            self.attr_type,
                            self.user.user.id,
                            self.namespace.id,
                        ))
                        ||| (e == RestError::AlreadyExists && old(cat).has_attr_key(
                            self.request.name@,
                            self.attr_type,
                            self.user.user.id,
                            self.namespace.id,
                        ) && (exists|j: int|
                            0 <= j < old(cat).attributes@.len() && (#[trigger] old(
                                cat,
                            ).attributes@[j]).id != crate::file::spec_attr_id_by_key(
                                *old(cat),
                                self.request.name@,
                                self.attr_type,
                                self.user.user.id,
                                self.namespace.id,
                            ) && crate::attribute::attr_key_is(
                                old(cat).attributes@[j],
                                self.request.new_name@,
                                self.attr_type,
                                self.user.user.id,
                                self.namespace.id,
                            )))
                    }
                },
            },
    {
        let mut attribute = match self.find_attribute(cat) {
            Ok(a) => a,
            Err(e) => {
                return Err(e);
            },
        };
        proof {
            let w = choose|w: int|
                0 <= w < cat.attributes@.len() && cat.attributes@[w] == attribute;
            crate::file::lemma_attr_key_unique(*cat, w);
        }
        attribute.name = self.request.new_name;
        let ghost pre = *cat;
        let outcome = attribute.save(cat);
        proof {
            if outcome is Ok {
                let j = choose|j: int|
                    0 <= j < pre.attributes@.len() && (#[trigger] pre.attributes@[j]).id
                        == attribute.id;
                assert(cat.attributes@[j] == attribute);
                assert(crate::attribute::attr_key_is(
                    cat.attributes@[j],
                    attribute.name@,
                    self.attr_type,
                    self.user.user.id,
                    self.namespace.id,
                ));
            }
        }
        outcome
    }

    /// Find the attribute the request names.
    pub fn find_attribute(&self, cat: &Catalog) -> (r: Result<Attribute, RestError>)
        ensures
            match r {
                Ok(a) => cat.attributes@.contains(a) && crate::attribute::attr_key_is(
                    a,
                    self.request.name@,
                    self.attr_type,
                    self.user.user.id,
                    self.namespace.id,
                ),
                Err(e) => {
                    &&& e == RestError::DNotFound(
                        match self.attr_type {
                            AttributeType::Tag => Origin::Tag,
                            AttributeType::Group => Origin::Group,
                        },
                    )
                    &&& !cat.has_attr_key(
                        self.request.name@,
                        self.attr_type,
                        self.user.user.id,
                        self.namespace.id,
                    )
                },
            },
    {
        NewAttribute::find_by_name(
            cat,
            self.request.name.as_str(),
            self.attr_type,
            self.user.user.id,
            self.namespace.id,
        )
    }

    /// List attributes in the requested namespace and of the requested
    /// type.
    pub fn get(self, cat: &Catalog) -> (r: Vec<String>)
        ensures
            ({
                let sel = cat.attributes@.filter(
                    |a: Attribute| a.namespace_id == self.namespace.id && a.type_
                        == self.attr_type,
                );
                r@.len() == sel.len() && forall|k: int| 0 <= k < sel.len() ==> (#[trigger] r@[k])@
                    == sel[k].name@
            }),
    {
        crate::attribute::list_names(cat, self.attr_type, self.namespace.id)
    }
}

} // verus!
