//! Attributes are the user-defined Tag and Group labels attached to files,
//! unique per (name, type, owner, namespace).
use vstd::prelude::*;

use crate::catalog::Catalog;
use crate::response_code::{AsOrigin, Origin, RestError};
use crate::text::str_eq;

verus! {

/// The two closed kinds of attribute, persisted as a small integer.
#[derive(Clone, Copy, Debug, PartialEq, Eq, Structural)]
pub enum AttributeType {
    Group,
    Tag,
}

impl AttributeType {
    /// The wire encoding of the kind.
    pub open spec fn spec_encode(self) -> i16 {
        match self {
            AttributeType::Tag => 1,
            AttributeType::Group => 2,
        }
    }

    /// Encode the kind for the persistence layer.
    pub fn encode(&self) -> (r: i16)
        ensures
            r == self.spec_encode(),
    {
        match self {
            AttributeType::Tag => 1,
            AttributeType::Group => 2,
        }
    }

    /// Decode a persisted kind; anything but the two known codes is refused.
    pub fn decode(i: i16) -> (r: Option<AttributeType>)
        ensures
            match r {
                Some(t) => t.spec_encode() == i,
                None => i != 1 && i != 2,
            },
    {
        match i {
            1 => Some(AttributeType::Tag),
            2 => Some(AttributeType::Group),
            _ => None,
        }
    }
}

impl AsOrigin for AttributeType {
    fn as_origin(&self) -> (r: Origin)
        ensures
            r == match *self {
                AttributeType::Tag => Origin::Tag,
                AttributeType::Group => Origin::Group,
            },
    {
        match self {
            AttributeType::Tag => Origin::Tag,
            AttributeType::Group => Origin::Group,
        }
    }
}

/// An attribute row of the catalog.
#[derive(Debug)]
pub struct Attribute {
    pub id: i32,
    pub type_: AttributeType,
    pub name: String,
    pub user_id: i32,
    pub namespace_id: i32,
}

impl Attribute {
    /// Delete this attribute (and every pairing it still has).
    pub fn delete(&self, cat: &mut Catalog)
        requires
            old(cat).wf(),
        ensures
            final(cat).wf(),
            crate::catalog::same_files(*final(cat), *old(cat)),
            crate::catalog::same_namespaces(*final(cat), *old(cat)),
            final(cat).next_attribute_id == old(cat).next_attribute_id,
            final(cat).next_file_attribute_id == old(cat).next_file_attribute_id,
            final(cat).file_attributes@ == old(cat).file_attributes@.filter(
                |fa: crate::file::FileAttribute| fa.attribute_id != self.id,
            ),
            final(cat).attributes@ == old(cat).attributes@.filter(
                |a: Attribute| a.id != self.id,
            ),
    {
        delete(cat, self.id);
    }

    /// Saves a modified attribute: the row with its id takes this value.
    /// A change that would give two rows one uniqueness key is refused.
    pub fn save(&self, cat: &mut Catalog) -> (r: Result<(), RestError>)
        requires
            old(cat).wf(),
        ensures
            final(cat).wf(),
            crate::catalog::same_files(*final(cat), *old(cat)),
            crate::catalog::same_namespaces(*final(cat), *old(cat)),
            crate::catalog::same_assocs(*final(cat), *old(cat)),
            final(cat).next_attribute_id == old(cat).next_attribute_id,
            match r {
                Ok(()) => {
                    &&& final(cat).attributes@.len() == old(cat).attributes@.len()
                    &&& forall|j: int|
                        0 <= j < old(cat).attributes@.len() ==> final(cat).attributes@[j] == if (
                        #[trigger] old(cat).attributes@[j]).id == self.id {
                            *self
                        } else {
                            old(cat).attributes@[j]
                        }
                    &&& forall|j: int|
                        0 <= j < old(cat).attributes@.len() && (#[trigger] old(
                            cat,
                        ).attributes@[j]).id != self.id ==> !attr_key_is(
                            old(cat).attributes@[j],
                            self.name@,
                            self.type_,
                            self.user_id,
                            self.namespace_id,
                        )
                },
                Err(e) => {
                    &&& e == RestError::AlreadyExists
                    &&& *final(cat) == *old(cat)
                    &&& exists|j: int|
                        0 <= j < old(cat).attributes@.len() && (#[trigger] old(
                            cat,
                        ).attributes@[j]).id != self.id && attr_key_is(
                            old(cat).attributes@[j],
                            self.name@,
                            self.type_,
                            self.user_id,
                            self.namespace_id,
                        )
                },
            },
    {
        let mut i: usize = 0;
        while i < cat.attributes.len()
            invariant
                cat == old(cat),
                old(cat).wf(),
                i <= cat.attributes@.len(),
                forall|k: int|
                    0 <= k < i && (#[trigger] cat.attributes@[k]).id != self.id ==> !attr_key_is(
                        cat.attributes@[k],
                        self.name@,
                        self.type_,
                        self.user_id,
                        self.namespace_id,
                    ),
            decreases cat.attributes@.len() - i,
        {
            let a = &cat.attributes[i];
            if a.id != self.id && a.user_id == self.user_id && a.namespace_id == self.namespace_id
                && a.type_ == self.type_ && str_eq(a.name.as_str(), self.name.as_str()) {
                return Err(RestError::AlreadyExists);
            }
            i += 1;
        }
        let mut out: Vec<Attribute> = Vec::new();
        let mut j: usize = 0;
        while j < cat.attributes.len()
            invariant
                cat == old(cat),
                old(cat).wf(),
                forall|k: int|
                    0 <= k < cat.attributes@.len() && (#[trigger] cat.attributes@[k]).id
                        != self.id ==> !attr_key_is(
                        cat.attributes@[k],
                        self.name@,
                        self.type_,
                        self.user_id,
                        self.namespace_id,
                    ),
                j <= cat.attributes@.len(),
                out@.len() == j,
                forall|k: int|
                    0 <= k < j ==> out@[k] == if (#[trigger] cat.attributes@[k]).id == self.id {
                        *self
                    } else {
                        cat.attributes@[k]
                    },
            decreases cat.attributes@.len() - j,
        {
            if cat.attributes[j].id == self.id {
                out.push(self.clone());
            } else {
                out.push(cat.attributes[j].clone());
            }
            j += 1;
        }
        proof {
            let atts = out@;
            let olds = cat.attributes@;
            assert forall|a: int, b: int|
                0 <= a < atts.len() && 0 <= b < atts.len() && a != b implies (
            #[trigger] atts[a]).id != (#[trigger] atts[b]).id by {
                assert(olds[a].id != olds[b].id);
                assert(atts[a].id == olds[a].id && atts[b].id == olds[b].id);
            }
            assert forall|a: int, b: int|
                0 <= a < atts.len() && 0 <= b < atts.len() && a != b implies !((
            #[trigger] atts[a]).name@ == (#[trigger] atts[b]).name@ && atts[a].type_
                == atts[b].type_ && atts[a].user_id == atts[b].user_id && atts[a].namespace_id
                == atts[b].namespace_id) by {
                assert(olds[a].id != olds[b].id);
                if olds[a].id == self.id {
                    assert(!attr_key_is(olds[b], self.name@, self.type_, self.user_id,
                        self.namespace_id,
                    ));
                } else if olds[b].id == self.id {
                    assert(!attr_key_is(olds[a], self.name@, self.type_, self.user_id,
                        self.namespace_id,
                    ));
                } else {
                    let key = |x: Attribute| (x.name@, x.type_, x.user_id, x.namespace_id);
                    assert(key(olds[a]) != key(olds[b]));
                }
            }
            assert forall|a: int| 0 <= a < atts.len() implies 0 < (#[trigger] atts[a]).id && atts[
                a
            ].id < cat.next_attribute_id by {
                assert(0 < olds[a].id && olds[a].id < cat.next_attribute_id);
            }
        }
        cat.attributes = out;
        proof {
            crate::catalog::lemma_files_wf_transfer(*old(cat), *cat);
        }
        Ok(())
    }
}

/// Delete an attribute by its ID, together with every pairing it has.
pub fn delete(cat: &mut Catalog, attr_id: i32)
    requires
        old(cat).wf(),
    ensures
        final(cat).wf(),
        crate::catalog::same_files(*final(cat), *old(cat)),
        crate::catalog::same_namespaces(*final(cat), *old(cat)),
        final(cat).next_attribute_id == old(cat).next_attribute_id,
        final(cat).next_file_attribute_id == old(cat).next_file_attribute_id,
        final(cat).file_attributes@ == old(cat).file_attributes@.filter(
            |fa: crate::file::FileAttribute| fa.attribute_id != attr_id,
        ),
        final(cat).attributes@ == old(cat).attributes@.filter(|a: Attribute| a.id != attr_id),
{
    crate::associations::delete_attribute_associations(cat, attr_id);
    proof {
        crate::catalog::lemma_filter_uniq_by(cat.attributes@, |a: Attribute| a.id != attr_id,
            |a: Attribute| a.id,
        );
        crate::catalog::lemma_filter_ids_bounded(
            cat.attributes@,
            |a: Attribute| a.id != attr_id,
            |a: Attribute| a.id,
            cat.next_attribute_id,
        );
        crate::catalog::lemma_filter_uniq_by(cat.attributes@, |a: Attribute| a.id != attr_id,
            |a: Attribute| (a.name@, a.type_, a.user_id, a.namespace_id),
        );
    }
    let kept = crate::associations::attrs_without_id(&cat.attributes, attr_id);
    cat.attributes = kept;
    proof {
        crate::catalog::lemma_files_wf_transfer(*old(cat), *cat);
    }
}

impl Clone for Attribute {
    fn clone(&self) -> (r: Self)
        ensures
            r == *self,
    {
        Attribute {
            id: self.id,
            type_: self.type_,
            name: self.name.clone(),
            user_id: self.user_id,
            namespace_id: self.namespace_id,
        }
    }
}

/// The attribute carries exactly this uniqueness key.
pub open spec fn attr_key_is(
    a: Attribute,
    name: Seq<char>,
    t: AttributeType,
    uid: i32,
    nsid: i32,
) -> bool {
    a.name@ == name && a.type_ == t && a.user_id == uid && a.namespace_id == nsid
}

/// The ghost image of an attribute row: the same fields with the name as a
/// character sequence.
#[verifier::ext_equal]
pub struct AttrV {
    pub id: i32,
    pub type_: AttributeType,
    pub name: Seq<char>,
    pub user_id: i32,
    pub namespace_id: i32,
}

impl View for Attribute {
    type V = AttrV;

    open spec fn view(&self) -> AttrV {
        AttrV {
            id: self.id,
            type_: self.type_,
            name: self.name@,
            user_id: self.user_id,
            namespace_id: self.namespace_id,
        }
    }
}

/// The attribute table as ghost rows.
pub open spec fn attrs_view(s: Seq<Attribute>) -> Seq<AttrV> {
    s.map_values(|a: Attribute| a@)
}

/// Some row of `s` carries this uniqueness key.
pub open spec fn view_has_key(
    s: Seq<AttrV>,
    name: Seq<char>,
    t: AttributeType,
    uid: i32,
    nsid: i32,
) -> bool {
    exists|i: int|
        0 <= i < s.len() && (#[trigger] s[i]).name == name && s[i].type_ == t && s[i].user_id
            == uid && s[i].namespace_id == nsid
}

/// The row of `s` carrying this uniqueness key.
pub open spec fn view_key_row(
    s: Seq<AttrV>,
    name: Seq<char>,
    t: AttributeType,
    uid: i32,
    nsid: i32,
) -> AttrV {
    s[choose|i: int|
        0 <= i < s.len() && (#[trigger] s[i]).name == name && s[i].type_ == t && s[i].user_id
            == uid && s[i].namespace_id == nsid]
}

/// No two rows of `s` share a uniqueness key.
pub open spec fn view_keys_unique(s: Seq<AttrV>) -> bool {
    forall|i: int, j: int|
        0 <= i < s.len() && 0 <= j < s.len() && i != j ==> !((#[trigger] s[i]).name == (
        #[trigger] s[j]).name && s[i].type_ == s[j].type_ && s[i].user_id == s[j].user_id
            && s[i].namespace_id == s[j].namespace_id)
}

/// Every row's id lies strictly below `hi`.
pub open spec fn view_ids_below(s: Seq<AttrV>, hi: int) -> bool {
    forall|i: int| 0 <= i < s.len() ==> (#[trigger] s[i]).id < hi
}

/// What one find-or-create step does to the attribute table: an existing
/// row with the key is returned as is; otherwise a fresh row is appended
/// under the next free id.
pub open spec fn spec_find_or_create(
    s: Seq<AttrV>,
    next_id: int,
    name: Seq<char>,
    t: AttributeType,
    uid: i32,
    nsid: i32,
) -> (Seq<AttrV>, AttrV) {
    if view_has_key(s, name, t, uid, nsid) {
        (s, view_key_row(s, name, t, uid, nsid))
    } else {
        let a = AttrV { id: next_id as i32, type_: t, name, user_id: uid, namespace_id: nsid };
        (s.push(a), a)
    }
}

/// Find-or-create is idempotent: run twice for the same key, the second run
/// changes nothing and hands back the same attribute (in particular the
/// same id), and the table still has no duplicate rows for the key.
pub proof fn lemma_find_or_create_idempotent(
    s: Seq<AttrV>,
    next_id: int,
    next_id2: int,
    name: Seq<char>,
    t: AttributeType,
    uid: i32,
    nsid: i32,
)
    requires
        view_keys_unique(s),
        view_ids_below(s, next_id),
        0 < next_id < i32::MAX,
    ensures
        ({
            let (s1, a1) = spec_find_or_create(s, next_id, name, t, uid, nsid);
            let (s2, a2) = spec_find_or_create(s1, next_id2, name, t, uid, nsid);
            &&& s2 == s1
            &&& a2 == a1
            &&& view_keys_unique(s1)
        }),
{
    let (s1, a1) = spec_find_or_create(s, next_id, name, t, uid, nsid);
    if !view_has_key(s, name, t, uid, nsid) {
        assert(s1 == s.push(a1));
        assert(view_keys_unique(s1));
        assert(s1[s.len() as int] == a1);
        assert(view_has_key(s1, name, t, uid, nsid));
        assert(view_key_row(s1, name, t, uid, nsid) == a1) by {
            let i = choose|i: int|
                0 <= i < s1.len() && (#[trigger] s1[i]).name == name && s1[i].type_ == t
                    && s1[i].user_id == uid && s1[i].namespace_id == nsid;
            if i != s.len() {
                assert(view_has_key(s, name, t, uid, nsid));
            }
        }
    }
}

/// Rows with pairwise distinct uniqueness keys pick their key row
/// unambiguously.
pub proof fn lemma_view_key_row_unique(s: Seq<AttrV>, w: int, t: AttributeType)
    requires
        view_keys_unique(s),
        0 <= w < s.len(),
        s[w].type_ == t,
    ensures
        view_key_row(s, s[w].name, t, s[w].user_id, s[w].namespace_id) == s[w],
{
    let name = s[w].name;
    let uid = s[w].user_id;
    let nsid = s[w].namespace_id;
    assert(view_has_key(s, name, t, uid, nsid));
    let i = choose|i: int|
        0 <= i < s.len() && (#[trigger] s[i]).name == name && s[i].type_ == t && s[i].user_id
            == uid && s[i].namespace_id == nsid;
    if i != w {
        assert(s[i].name == s[w].name && s[i].type_ == s[w].type_ && s[i].user_id == s[w].user_id
            && s[i].namespace_id == s[w].namespace_id);
    }
}

/// The invariant of the attribute table, restated over its ghost rows.
pub proof fn lemma_table_view(cat: Catalog)
    requires
        cat.attributes_wf(),
    ensures
        view_keys_unique(attrs_view(cat.attributes@)),
        view_ids_below(attrs_view(cat.attributes@), cat.next_attribute_id as int),
        attrs_view(cat.attributes@).len() == cat.attributes@.len(),
        forall|i: int|
            0 <= i < cat.attributes@.len() ==> attrs_view(cat.attributes@)[i]
                == (#[trigger] cat.attributes@[i])@,
{
    let v = attrs_view(cat.attributes@);
    assert forall|i: int, j: int|
        0 <= i < v.len() && 0 <= j < v.len() && i != j implies !((#[trigger] v[i]).name == (
    #[trigger] v[j]).name && v[i].type_ == v[j].type_ && v[i].user_id == v[j].user_id
        && v[i].namespace_id == v[j].namespace_id) by {
        let key = |a: Attribute| (a.name@, a.type_, a.user_id, a.namespace_id);
        assert(key(cat.attributes@[i]) != key(cat.attributes@[j]));
    }
    assert forall|i: int| 0 <= i < v.len() implies (#[trigger] v[i]).id
        < cat.next_attribute_id as int by {
        let key = |a: Attribute| a.id;
        assert(key(cat.attributes@[i]) < cat.next_attribute_id);
    }
}

/// The values a new attribute row is created from.
pub struct NewAttribute {
    pub type_: AttributeType,
    pub name: String,
    pub user_id: i32,
    pub namespace_id: i32,
}

impl NewAttribute {
    /// Create a new NewAttribute object instance.
    pub fn new(name: &str, type_: AttributeType, user_id: i32, namespace_id: i32) -> (r: Self)
        ensures
            r.name@ == name@,
            r.type_ == type_,
            r.user_id == user_id,
            r.namespace_id == namespace_id,
    {
        Self { type_, name: name.to_owned(), user_id, namespace_id }
    }

    /// Create a new attribute row and return it.  A second row under an
    /// already-taken uniqueness key is refused, as the store's constraint
    /// would refuse it.
    pub fn create(&self, cat: &mut Catalog) -> (r: Result<Attribute, RestError>)
        requires
            old(cat).wf(),
            old(cat).next_attribute_id < i32::MAX,
        ensures
            final(cat).wf(),
            crate::catalog::same_files(*final(cat), *old(cat)),
            crate::catalog::same_namespaces(*final(cat), *old(cat)),
            crate::catalog::same_assocs(*final(cat), *old(cat)),
            match r {
                Ok(a) => {
                    &&& !old(cat).has_attr_key(self.name@, self.type_, self.user_id,
                        self.namespace_id,
                    )
                    &&& a.id == old(cat).next_attribute_id
                    &&& attr_key_is(a, self.name@, self.type_, self.user_id, self.namespace_id)
                    &&& final(cat).attributes@ == old(cat).attributes@.push(a)
                    &&& final(cat).next_attribute_id == old(cat).next_attribute_id + 1
                },
                Err(e) => {
                    &&& e == RestError::AlreadyExists
                    &&& old(cat).has_attr_key(self.name@, self.type_, self.user_id,
                        self.namespace_id,
                    )
                    &&& *final(cat) == *old(cat)
                },
            },
    {
        if attr_index(cat, self.name.as_str(), self.type_, self.user_id, self.namespace_id)
            .is_some() {
            return Err(RestError::AlreadyExists);
        }
        let a = Attribute {
            id: cat.next_attribute_id,
            type_: self.type_,
            name: self.name.clone(),
            user_id: self.user_id,
            namespace_id: self.namespace_id,
        };
        let result = a.clone();
        cat.attributes.push(a);
        cat.next_attribute_id = cat.next_attribute_id + 1;
        proof {
            crate::catalog::lemma_files_wf_transfer(*old(cat), *cat);
            let atts = cat.attributes@;
            let old_atts = old(cat).attributes@;
            assert forall|i: int, j: int|
                0 <= i < atts.len() && 0 <= j < atts.len() && i != j implies !((
            #[trigger] atts[i]).name@ == (#[trigger] atts[j]).name@ && atts[i].type_
                == atts[j].type_ && atts[i].user_id == atts[j].user_id && atts[i].namespace_id
                == atts[j].namespace_id) by {
                if j == atts.len() - 1 && i < j {
                    assert(!attr_key_is(atts[i], self.name@, self.type_, self.user_id,
                        self.namespace_id,
                    ));
                }
                if i == atts.len() - 1 && j < i {
                    assert(!attr_key_is(atts[j], self.name@, self.type_, self.user_id,
                        self.namespace_id,
                    ));
                }
            }
            assert(crate::catalog::uniq_ids(atts, |a: Attribute| a.id)) by {
                assert forall|i: int, j: int|
                    0 <= i < atts.len() && 0 <= j < atts.len() && i != j implies (
                #[trigger] atts[i]).id != (#[trigger] atts[j]).id by {
                    if i < old_atts.len() && j < old_atts.len() {
                        assert(old_atts[i].id != old_atts[j].id);
                    } else if i < old_atts.len() {
                        assert(old_atts[i].id < old(cat).next_attribute_id);
                    } else {
                        assert(old_atts[j].id < old(cat).next_attribute_id);
                    }
                }
            }
            assert(crate::catalog::ids_bounded(
                atts,
                |a: Attribute| a.id,
                cat.next_attribute_id,
            )) by {
                assert forall|i: int| 0 <= i < atts.len() implies 0 < (#[trigger] atts[i]).id
                    && atts[i].id < cat.next_attribute_id by {
                    if i < old_atts.len() {
                        assert(0 < old_atts[i].id && old_atts[i].id < old(
                            cat,
                        ).next_attribute_id);
                    }
                }
            }
        }
        Ok(result)
    }

    /// Find the attribute carrying this value's uniqueness key, if any.
    pub fn find(&self, cat: &Catalog) -> (r: Option<Attribute>)
        ensures
            match r {
                Some(a) => cat.attributes@.contains(a) && attr_key_is(
                    a,
                    self.name@,
                    self.type_,
                    self.user_id,
                    self.namespace_id,
                ),
                None => !cat.has_attr_key(self.name@, self.type_, self.user_id,
                self.namespace_id),
            },
    {
        match attr_index(cat, self.name.as_str(), self.type_, self.user_id, self.namespace_id) {
            Some(i) => {
                let a = cat.attributes[i].clone();
                Some(a)
            },
            None => None,
        }
    }

    /// Returns true if the attribute exists.
    pub fn is_present(&self, cat: &Catalog) -> (r: bool)
        ensures
            r == cat.has_attr_key(self.name@, self.type_, self.user_id, self.namespace_id),
    {
        self.find(cat).is_some()
    }

    /// Find a single attribute by its name in the provided namespace.
    pub fn find_by_name(
        cat: &Catalog,
        attr_name: &str,
        typ: AttributeType,
        uid: i32,
        ns_id: i32,
    ) -> (r: Result<Attribute, RestError>)
        ensures
            match r {
                Ok(a) => cat.attributes@.contains(a) && attr_key_is(
                    a,
                    attr_name@,
                    typ,
                    uid,
                    ns_id,
                ),
                Err(e) => {
                    &&& e == RestError::DNotFound(
                        match typ {
                            AttributeType::Tag => Origin::Tag,
                            AttributeType::Group => Origin::Group,
                        },
                    )
                    &&& !cat.has_attr_key(attr_name@, typ, uid, ns_id)
                },
            },
    {
        match attr_index(cat, attr_name, typ, uid, ns_id) {
            Some(i) => Ok(cat.attributes[i].clone()),
            None => Err(RestError::DNotFound(typ.as_origin())),
        }
    }

    /// Finds all matching attributes; a name that resolves to nothing makes
    /// the whole lookup fail as not found.
    pub fn find_multi_by_name(
        cat: &Catalog,
        items: &Vec<String>,
        typ: AttributeType,
        uid: i32,
        ns_id: i32,
    ) -> (r: Result<Vec<Attribute>, RestError>)
        ensures
            match r {
                Ok(v) => {
                    &&& v@.len() == items@.len()
                    &&& forall|k: int|
                        0 <= k < v@.len() ==> cat.attributes@.contains(#[trigger] v@[k])
                            && attr_key_is(v@[k], items@[k]@, typ, uid, ns_id)
                },
                Err(e) => {
                    &&& e == RestError::DNotFound(
                        match typ {
                            AttributeType::Tag => Origin::Tag,
                            AttributeType::Group => Origin::Group,
                        },
                    )
                    &&& exists|k: int|
                        0 <= k < items@.len() && !cat.has_attr_key(
                            (#[trigger] items@[k])@,
                            typ,
                            uid,
                            ns_id,
                        )
                },
            },
    {
        let mut out: Vec<Attribute> = Vec::new();
        let mut i: usize = 0;
        while i < items.len()
            invariant
                i <= items@.len(),
                out@.len() == i,
                forall|k: int|
                    0 <= k < i ==> cat.attributes@.contains(#[trigger] out@[k]) && attr_key_is(
                        out@[k],
                        items@[k]@,
                        typ,
                        uid,
                        ns_id,
                    ),
            decreases items@.len() - i,
        {
            match Self::find_by_name(cat, items[i].as_str(), typ, uid, ns_id) {
                Ok(a) => {
                    out.push(a);
                },
                Err(e) => {
                    return Err(e);
                },
            }
            i += 1;
        }
        Ok(out)
    }
}

/// What resolving a list of names does to the attribute table: each name is
/// looked up by its uniqueness key and created under the next free id when
/// absent; the rows picked are returned in the order the names came in.
pub open spec fn spec_find_and_create(
    s: Seq<AttrV>,
    next: int,
    names: Seq<Seq<char>>,
    t: AttributeType,
    uid: i32,
    nsid: i32,
) -> (Seq<AttrV>, Seq<AttrV>, int)
    decreases names.len(),
{
    if names.len() == 0 {
        (s, Seq::empty(), next)
    } else {
        let (s1, picked, n1) = spec_find_and_create(s, next, names.drop_last(), t, uid, nsid);
        let (s2, a) = spec_find_or_create(s1, n1, names.last(), t, uid, nsid);
        (s2, picked.push(a), if view_has_key(s1, names.last(), t, uid, nsid) {
            n1
        } else {
            n1 + 1
        })
    }
}

/// Appending a row under a key nobody holds keeps keys unique.
proof fn lemma_push_fresh_key(s: Seq<AttrV>, a: AttrV)
    requires
        view_keys_unique(s),
        !view_has_key(s, a.name, a.type_, a.user_id, a.namespace_id),
    ensures
        view_keys_unique(s.push(a)),
{
    let s2 = s.push(a);
    assert forall|i: int, j: int|
        0 <= i < s2.len() && 0 <= j < s2.len() && i != j implies !((#[trigger] s2[i]).name == (
    #[trigger] s2[j]).name && s2[i].type_ == s2[j].type_ && s2[i].user_id == s2[j].user_id
        && s2[i].namespace_id == s2[j].namespace_id) by {
        if j == s.len() && i < j {
            if s2[i].name == a.name && s2[i].type_ == a.type_ && s2[i].user_id == a.user_id
                && s2[i].namespace_id == a.namespace_id {
                assert(view_has_key(s, a.name, a.type_, a.user_id, a.namespace_id));
            }
        }
        if i == s.len() && j < i {
            if s2[j].name == a.name && s2[j].type_ == a.type_ && s2[j].user_id == a.user_id
                && s2[j].namespace_id == a.namespace_id {
                assert(view_has_key(s, a.name, a.type_, a.user_id, a.namespace_id));
            }
        }
    }
}

/// What holds of a whole find-or-create run: keys stay unique, existing
/// rows stay where they are, every requested name has its row afterwards,
/// and each returned row is exactly the table's row for its name.
proof fn lemma_fold_props(
    s: Seq<AttrV>,
    next: int,
    names: Seq<Seq<char>>,
    t: AttributeType,
    uid: i32,
    nsid: i32,
)
    requires
        view_keys_unique(s),
    ensures
        ({
            let (s1, picked, n1) = spec_find_and_create(s, next, names, t, uid, nsid);
            &&& view_keys_unique(s1)
            &&& s1.len() >= s.len()
            &&& (forall|j: int| 0 <= j < s.len() ==> s1[j] == s[j])
            &&& picked.len() == names.len()
            &&& (forall|k: int|
                0 <= k < names.len() ==> view_has_key(s1, #[trigger] names[k], t, uid, nsid))
            &&& (forall|k: int|
                0 <= k < names.len() ==> (#[trigger] picked[k]) == view_key_row(
                    s1,
                    names[k],
                    t,
                    uid,
                    nsid,
                ))
        }),
    decreases names.len(),
{
    if names.len() == 0 {
    } else {
        let prefix = names.drop_last();
        lemma_fold_props(s, next, prefix, t, uid, nsid);
        let (s1, picked, n1) = spec_find_and_create(s, next, prefix, t, uid, nsid);
        let (s2, a) = spec_find_or_create(s1, n1, names.last(), t, uid, nsid);
        let (sf, pickedf, nf) = spec_find_and_create(s, next, names, t, uid, nsid);
        assert(sf == s2 && pickedf == picked.push(a));
        if view_has_key(s1, names.last(), t, uid, nsid) {
            assert(s2 == s1);
            let w = choose|w: int|
                0 <= w < s1.len() && (#[trigger] s1[w]).name == names.last() && s1[w].type_ == t
                    && s1[w].user_id == uid && s1[w].namespace_id == nsid;
            lemma_view_key_row_unique(s1, w, t);
            assert forall|k: int| 0 <= k < names.len() implies view_has_key(
                sf,
                #[trigger] names[k],
                t,
                uid,
                nsid,
            ) && pickedf[k] == view_key_row(sf, names[k], t, uid, nsid) by {
                if k < names.len() - 1 {
                    assert(view_has_key(s1, prefix[k], t, uid, nsid));
                    assert(picked[k] == view_key_row(s1, prefix[k], t, uid, nsid));
                    assert(names[k] == prefix[k]);
                }
            }
        } else {
            lemma_push_fresh_key(s1, a);
            assert(s2 == s1.push(a));
            assert(s2[s1.len() as int] == a);
            lemma_view_key_row_unique(s2, s1.len() as int, t);
            assert forall|k: int| 0 <= k < names.len() implies view_has_key(
                s2,
                #[trigger] names[k],
                t,
                uid,
                nsid,
            ) && pickedf[k] == view_key_row(s2, names[k], t, uid, nsid) by {
                if k < names.len() - 1 {
                    assert(view_has_key(s1, prefix[k], t, uid, nsid));
                    let w = choose|w: int|
                        0 <= w < s1.len() && (#[trigger] s1[w]).name == prefix[k] && s1[w].type_
                            == t && s1[w].user_id == uid && s1[w].namespace_id == nsid;
                    assert(s2[w] == s1[w]);
                    lemma_view_key_row_unique(s2, w, t);
                    lemma_view_key_row_unique(s1, w, t);
                    assert(picked[k] == view_key_row(s1, prefix[k], t, uid, nsid));
                    assert(names[k] == prefix[k]);
                } else {
                    assert(pickedf[k] == a);
                }
            }
        }
    }
}

/// A run over names whose rows all exist changes nothing: it hands back
/// exactly the rows the table already holds.
proof fn lemma_fold_finds_all(
    s0: Seq<AttrV>,
    m: int,
    names: Seq<Seq<char>>,
    t: AttributeType,
    uid: i32,
    nsid: i32,
)
    requires
        view_keys_unique(s0),
        forall|k: int| 0 <= k < names.len() ==> view_has_key(s0, #[trigger] names[k], t, uid, nsid),
    ensures
        ({
            let (s2, picked, n2) = spec_find_and_create(s0, m, names, t, uid, nsid);
            &&& s2 == s0
            &&& n2 == m
            &&& picked.len() == names.len()
            &&& (forall|k: int|
                0 <= k < names.len() ==> (#[trigger] picked[k]) == view_key_row(
                    s0,
                    names[k],
                    t,
                    uid,
                    nsid,
                ))
        }),
    decreases names.len(),
{
    if names.len() != 0 {
        let prefix = names.drop_last();
        assert forall|k: int| 0 <= k < prefix.len() implies view_has_key(
            s0,
            #[trigger] prefix[k],
            t,
            uid,
            nsid,
        ) by {
            assert(names[k] == prefix[k]);
        }
        lemma_fold_finds_all(s0, m, prefix, t, uid, nsid);
        assert(view_has_key(s0, names.last(), t, uid, nsid));
    }
}

/// Find-and-create is idempotent as a whole: run twice over the same list
/// of names, the second run changes neither the table nor the id counter
/// and hands back exactly the same attributes, and the table holds no
/// duplicate rows.
pub proof fn lemma_find_and_create_idempotent(
    s: Seq<AttrV>,
    next: int,
    names: Seq<Seq<char>>,
    t: AttributeType,
    uid: i32,
    nsid: i32,
)
    requires
        view_keys_unique(s),
    ensures
        ({
            let (s1, picked1, n1) = spec_find_and_create(s, next, names, t, uid, nsid);
            let (s2, picked2, n2) = spec_find_and_create(s1, n1, names, t, uid, nsid);
            &&& s2 == s1
            &&& n2 == n1
            &&& picked2 == picked1
            &&& view_keys_unique(s1)
        }),
{
    lemma_fold_props(s, next, names, t, uid, nsid);
    let (s1, picked1, n1) = spec_find_and_create(s, next, names, t, uid, nsid);
    lemma_fold_finds_all(s1, n1, names, t, uid, nsid);
    let (s2, picked2, n2) = spec_find_and_create(s1, n1, names, t, uid, nsid);
    assert(picked2 =~= picked1);
}

impl NewAttribute {
    /// Create all missing attributes of type `type_` and hand back one
    /// attribute per requested name, in order.
    #[verifier::rlimit(60)]
    pub fn find_and_create(
        cat: &mut Catalog,
        items: &Vec<String>,
        type_: AttributeType,
        user_id: i32,
        namespace_id: i32,
    ) -> (r: Vec<Attribute>)
        requires
            old(cat).wf(),
            old(cat).next_attribute_id + items@.len() <= i32::MAX,
        ensures
            final(cat).wf(),
            crate::catalog::same_files(*final(cat), *old(cat)),
            crate::catalog::same_namespaces(*final(cat), *old(cat)),
            crate::catalog::same_assocs(*final(cat), *old(cat)),
            r@.len() == items@.len(),
            forall|k: int|
                0 <= k < r@.len() ==> attr_key_is(
                    #[trigger] r@[k],
                    items@[k]@,
                    type_,
                    user_id,
                    namespace_id,
                ),
            forall|k: int|
                0 <= k < items@.len() ==> final(cat).has_attr_key(
                    (#[trigger] items@[k])@,
                    type_,
                    user_id,
                    namespace_id,
                ),
            forall|k: int| 0 <= k < r@.len() ==> final(cat).attributes@.contains(#[trigger] r@[k]),
            final(cat).next_attribute_id - old(cat).next_attribute_id <= items@.len(),
            old(cat).attributes@.len() <= final(cat).attributes@.len(),
            forall|j: int|
                0 <= j < old(cat).attributes@.len() ==> final(cat).attributes@[j] == old(
                    cat,
                ).attributes@[j],
            ({
                let step = spec_find_and_create(
                    attrs_view(old(cat).attributes@),
                    old(cat).next_attribute_id as int,
                    items@.map_values(|s: String| s@),
                    type_,
                    user_id,
                    namespace_id,
                );
                &&& attrs_view(final(cat).attributes@) == step.0
                &&& r@.map_values(|a: Attribute| a@) == step.1
                &&& final(cat).next_attribute_id as int == step.2
            }),
    {
        let ghost names = items@.map_values(|s: String| s@);
        let mut out: Vec<Attribute> = Vec::new();
        let mut i: usize = 0;
        while i < items.len()
            invariant
                i <= items@.len(),
                cat.wf(),
                old(cat).wf(),
                old(cat).next_attribute_id + items@.len() <= i32::MAX,
                cat.next_attribute_id >= old(cat).next_attribute_id,
                cat.next_attribute_id - old(cat).next_attribute_id <= i,
                crate::catalog::same_files(*cat, *old(cat)),
                crate::catalog::same_namespaces(*cat, *old(cat)),
                crate::catalog::same_assocs(*cat, *old(cat)),
                names == items@.map_values(|s: String| s@),
                out@.len() == i,
                forall|k: int|
                    0 <= k < i ==> attr_key_is(
                        #[trigger] out@[k],
                        items@[k]@,
                        type_,
                        user_id,
                        namespace_id,
                    ),
                forall|k: int|
                    0 <= k < i ==> cat.has_attr_key(
                        (#[trigger] items@[k])@,
                        type_,
                        user_id,
                        namespace_id,
                    ),
                forall|k: int| 0 <= k < i ==> cat.attributes@.contains(#[trigger] out@[k]),
                old(cat).attributes@.len() <= cat.attributes@.len(),
                forall|j: int|
                    0 <= j < old(cat).attributes@.len() ==> cat.attributes@[j] == old(
                        cat,
                    ).attributes@[j],
                ({
                    let step = spec_find_and_create(
                        attrs_view(old(cat).attributes@),
                        old(cat).next_attribute_id as int,
                        names.take(i as int),
                        type_,
                        user_id,
                        namespace_id,
                    );
                    &&& attrs_view(cat.attributes@) == step.0
                    &&& out@.map_values(|a: Attribute| a@) == step.1
                    &&& cat.next_attribute_id as int == step.2
                }),
            decreases items@.len() - i,
        {
            let ghost pre = *cat;
            let ghost pre_out = out@;
            proof {
                assert(names.take(i + 1).drop_last() =~= names.take(i as int));
                assert(names.take(i + 1).last() == items@[i as int]@);
            }
            let probe = NewAttribute {
                type_,
                name: items[i].clone(),
                user_id,
                namespace_id,
            };
            let picked: Attribute = match probe.find(cat) {
                Some(a) => {
                    proof {
                        lemma_table_view(*cat);
                        let w = choose|w: int|
                            0 <= w < cat.attributes@.len() && cat.attributes@[w] == a;
                        lemma_view_key_row_unique(attrs_view(cat.attributes@), w, type_);
                        assert(view_has_key(
                            attrs_view(cat.attributes@),
                            items@[i as int]@,
                            type_,
                            user_id,
                            namespace_id,
                        ));
                        assert(attr_key_is(
                            cat.attributes@[w],
                            items@[i as int]@,
                            type_,
                            user_id,
                            namespace_id,
                        ));
                        assert(cat.has_attr_key(items@[i as int]@, type_, user_id, namespace_id));
                    }
                    a
                },
                None => {
                    proof {
                        lemma_table_view(*cat);
                        if view_has_key(
                            attrs_view(cat.attributes@),
                            items@[i as int]@,
                            type_,
                            user_id,
                            namespace_id,
                        ) {
                            let w = choose|w: int|
                                0 <= w < attrs_view(cat.attributes@).len() && (
                                #[trigger] attrs_view(cat.attributes@)[w]).name
                                    == items@[i as int]@ && attrs_view(cat.attributes@)[w].type_
                                    == type_ && attrs_view(cat.attributes@)[w].user_id == user_id
                                    && attrs_view(cat.attributes@)[w].namespace_id == namespace_id;
                            assert(attr_key_is(
                                cat.attributes@[w],
                                items@[i as int]@,
                                type_,
                                user_id,
                                namespace_id,
                            ));
                        }
                    }
                    match probe.create(cat) {
                        Ok(a) => {
                            proof {
                                assert(cat.attributes@[cat.attributes@.len() - 1] == a);
                                assert(attr_key_is(
                                    cat.attributes@[cat.attributes@.len() - 1],
                                    items@[i as int]@,
                                    type_,
                                    user_id,
                                    namespace_id,
                                ));
                                assert(cat.has_attr_key(items@[i as int]@, type_, user_id,
                                    namespace_id,
                                ));
                            }
                            a
                        },
                        Err(_) => {
                            proof {
                                assert(false);
                            }
                            vstd::pervasive::unreached()
                        },
                    }
                },
            };
            proof {
                assert(attrs_view(pre.attributes@.push(picked)) =~= attrs_view(
                    pre.attributes@,
                ).push(picked@));
                assert((pre_out.push(picked)).map_values(|a: Attribute| a@) =~= pre_out.map_values(
                    |a: Attribute| a@,
                ).push(picked@));
            }
            out.push(picked);
            proof {
                assert forall|k: int| 0 <= k < i + 1 implies attr_key_is(
                    #[trigger] out@[k],
                    items@[k]@,
                    type_,
                    user_id,
                    namespace_id,
                ) by {
                    if k < i {
                        assert(out@[k] == pre_out[k]);
                        assert(attr_key_is(pre_out[k], items@[k]@, type_, user_id, namespace_id));
                    } else {
                        assert(out@[k] == picked);
                    }
                }
                assert forall|k: int| 0 <= k < i + 1 implies cat.attributes@.contains(
                    #[trigger] out@[k],
                ) by {
                    if k < i {
                        assert(out@[k] == pre_out[k]);
                        assert(pre.attributes@.contains(pre_out[k]));
                        let w = choose|w: int|
                            0 <= w < pre.attributes@.len() && pre.attributes@[w] == pre_out[k];
                        assert(cat.attributes@[w] == pre_out[k]);
                    } else {
                        assert(out@[k] == picked);
                        if pre.attributes@ == cat.attributes@ {
                        } else {
                            assert(cat.attributes@[cat.attributes@.len() - 1] == picked);
                        }
                    }
                }
                assert forall|k: int| 0 <= k < i + 1 implies cat.has_attr_key(
                    (#[trigger] items@[k])@,
                    type_,
                    user_id,
                    namespace_id,
                ) by {
                    if k < i {
                        assert(pre.has_attr_key(items@[k]@, type_, user_id, namespace_id));
                        let w = choose|w: int|
                            0 <= w < pre.attributes@.len() && attr_key_is(
                                #[trigger] pre.attributes@[w],
                                items@[k]@,
                                type_,
                                user_id,
                                namespace_id,
                            );
                        assert(attr_key_is(
                            cat.attributes@[w],
                            items@[k]@,
                            type_,
                            user_id,
                            namespace_id,
                        ));
                    }
                }
                let v0 = attrs_view(old(cat).attributes@);
                let n0 = old(cat).next_attribute_id as int;
                let prev = spec_find_and_create(v0, n0, names.take(i as int), type_, user_id,
                    namespace_id,
                );
                let cur = spec_find_and_create(v0, n0, names.take(i + 1), type_, user_id,
                    namespace_id,
                );
                assert(names.take(i + 1).drop_last() =~= names.take(i as int));
                assert(names.take(i + 1).last() == items@[i as int]@);
                let one = spec_find_or_create(prev.0, prev.2, items@[i as int]@, type_, user_id,
                    namespace_id,
                );
                if view_has_key(prev.0, items@[i as int]@, type_, user_id, namespace_id) {
                    assert(cur.0 == prev.0);
                    assert(one.1 == view_key_row(prev.0, items@[i as int]@, type_, user_id,
                        namespace_id,
                    ));
                    assert(picked@ =~= one.1);
                } else {
                    assert(one.1 =~= picked@);
                    assert(cur.0 =~= attrs_view(cat.attributes@));
                }
                assert(cur.1 =~= out@.map_values(|a: Attribute| a@));
                assert(cur.2 == cat.next_attribute_id as int);
            }
            i += 1;
        }
        proof {
            assert(names.take(items@.len() as int) == names);
        }
        out
    }
}

/// Looks for the row carrying the uniqueness key.
fn attr_index(cat: &Catalog, name: &str, t: AttributeType, uid: i32, nsid: i32) -> (r: Option<
    usize,
>)
    ensures
        match r {
            Some(i) => i < cat.attributes@.len() && attr_key_is(
                cat.attributes@[i as int],
                name@,
                t,
                uid,
                nsid,
            ),
            None => !cat.has_attr_key(name@, t, uid, nsid),
        },
{
    let mut i: usize = 0;
    while i < cat.attributes.len()
        invariant
            i <= cat.attributes@.len(),
            forall|k: int|
                0 <= k < i ==> !attr_key_is(#[trigger] cat.attributes@[k], name@, t, uid, nsid),
        decreases cat.attributes@.len() - i,
    {
        let a = &cat.attributes[i];
        if a.user_id == uid && a.namespace_id == nsid && a.type_ == t && str_eq(
            a.name.as_str(),
            name,
        ) {
            return Some(i);
        }
        i += 1;
    }
    None
}

/// List names of attributes of type `attr_type` inside a namespace.
pub fn list_names(cat: &Catalog, attr_type: AttributeType, ns_id: i32) -> (r: Vec<String>)
    ensures
        ({
            let sel = cat.attributes@.filter(
                |a: Attribute| a.namespace_id == ns_id && a.type_ == attr_type,
            );
            r@.len() == sel.len() && forall|k: int| 0 <= k < sel.len() ==> (#[trigger] r@[k])@
                == sel[k].name@
        }),
{
    let ghost pred = |a: Attribute| a.namespace_id == ns_id && a.type_ == attr_type;
    let mut out: Vec<String> = Vec::new();
    let mut i: usize = 0;
    while i < cat.attributes.len()
        invariant
            i <= cat.attributes@.len(),
            ({
                let sel = cat.attributes@.take(i as int).filter(pred);
                out@.len() == sel.len() && forall|k: int| 0 <= k < sel.len() ==> (#[trigger] out@[k])@
                    == sel[k].name@
            }),
            pred == (|a: Attribute| a.namespace_id == ns_id && a.type_ == attr_type),
        decreases cat.attributes@.len() - i,
    {
        let a = &cat.attributes[i];
        proof {
            let pre = cat.attributes@.take(i as int);
            assert(cat.attributes@.take(i + 1) == pre.push(cat.attributes@[i as int]));
            crate::catalog::lemma_filter_push(pre, cat.attributes@[i as int], pred);
        }
        if a.namespace_id == ns_id && a.type_ == attr_type {
            out.push(a.name.clone());
        }
        i += 1;
    }
    proof {
        assert(cat.attributes@.take(cat.attributes@.len() as int) == cat.attributes@);
    }
    out
}

} // verus!
