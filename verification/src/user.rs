//! Users own namespaces, files and attributes.  Accounts themselves are
//! managed by an outside identity layer; the catalog only carries their ids.
use vstd::prelude::*;

use crate::attribute::{Attribute, AttributeType};
use crate::catalog::{lemma_filter_push, lemma_table_sizes, Catalog};
use crate::file::File;
use crate::namespace::Namespace;
use crate::response_code::{Origin, RestError};

verus! {

/// The sum of the sizes of a run of file rows.
pub open spec fn sum_sizes(s: Seq<File>) -> int
    decreases s.len(),
{
    if s.len() == 0 {
        0
    } else {
        sum_sizes(s.drop_last()) + s.last().file_size
    }
}

/// A user of the vault.
pub struct User {
    pub id: i32,
    pub username: String,
    pub password: String,
    pub disabled: bool,
}

impl Clone for User {
    fn clone(&self) -> (r: Self)
        ensures
            r == *self,
    {
        User {
            id: self.id,
            username: self.username.clone(),
            password: self.password.clone(),
            disabled: self.disabled,
        }
    }
}

impl User {
    /// Gets the default namespace of the user: the one named exactly
    /// "default".
    pub fn get_default_namespace(&self, cat: &Catalog) -> (r: Result<Namespace, RestError>)
        ensures
            match r {
                Ok(ns) => cat.namespaces@.contains(ns) && ns.name@ == "default"@ && ns.user_id
                    == self.id,
                Err(e) => e == RestError::DNotFound(Origin::Namespace) && !cat.has_ns_named(
                    "default"@,
                    self.id,
                ),
            },
    {
        match Namespace::find_by_name(cat, "default", self.id) {
            Some(ns) => Ok(ns),
            None => Err(RestError::DNotFound(Origin::Namespace)),
        }
    }

    /// Get the total size of all files of the user.  A total beyond the
    /// range of the result type is reported as zero, as the store's numeric
    /// conversion would report it.
    pub fn total_filesize(&self, cat: &Catalog) -> (r: i64)
        requires
            cat.wf(),
        ensures
            ({
                let total = sum_sizes(cat.files@.filter(|f: File| f.user_id == self.id));
                r == if i64::MIN <= total <= i64::MAX {
                    total
                } else {
                    0
                }
            }),
    {
        let ghost pred = |f: File| f.user_id == self.id;
        proof {
            lemma_table_sizes(*cat);
        }
        let mut acc: i128 = 0;
        let mut i: usize = 0;
        while i < cat.files.len()
            invariant
                i <= cat.files@.len(),
                cat.files@.len() < 0x8000_0000,
                acc == sum_sizes(cat.files@.take(i as int).filter(pred)),
                -0x8000_0000_0000_0000_0000_0000 <= acc <= 0x8000_0000_0000_0000_0000_0000,
                cat.files@.take(i as int).filter(pred).len() <= i,
                -(i as int) * 0x8000_0000_0000_0000 <= acc <= (i as int) * 0x8000_0000_0000_0000,
                pred == (|f: File| f.user_id == self.id),
            decreases cat.files@.len() - i,
        {
            proof {
                assert(cat.files@.take(i + 1) == cat.files@.take(i as int).push(
                    cat.files@[i as int]));
                lemma_filter_push(cat.files@.take(i as int), cat.files@[i as int], pred);
                cat.files@.take(i + 1).lemma_filter_len(pred);
                if pred(cat.files@[i as int]) {
                    let sel = cat.files@.take(i as int).filter(pred);
                    assert(sel.push(cat.files@[i as int]).drop_last() =~= sel);
                }
                assert((i + 1) as int * 0x8000_0000_0000_0000 == (i as int)
                    * 0x8000_0000_0000_0000 + 0x8000_0000_0000_0000) by (nonlinear_arith);
            }
            let f = &cat.files[i];
            if f.user_id == self.id {
                acc = acc + f.file_size as i128;
            }
            i += 1;
        }
        proof {
            assert(cat.files@.take(cat.files@.len() as int) == cat.files@);
        }
        if acc >= -0x8000_0000_0000_0000i128 && acc <= 0x7fff_ffff_ffff_ffffi128 {
            acc as i64
        } else {
            0
        }
    }

    /// Get the number of files of the user.
    pub fn total_filecount(&self, cat: &Catalog) -> (r: i64)
        requires
            cat.wf(),
        ensures
            r == cat.files@.filter(|f: File| f.user_id == self.id).len(),
    {
        let ghost pred = |f: File| f.user_id == self.id;
        proof {
            lemma_table_sizes(*cat);
        }
        let mut count: usize = 0;
        let mut i: usize = 0;
        while i < cat.files.len()
            invariant
                i <= cat.files@.len(),
                cat.files@.len() < 0x8000_0000,
                count == cat.files@.take(i as int).filter(pred).len(),
                pred == (|f: File| f.user_id == self.id),
            decreases cat.files@.len() - i,
        {
            proof {
                assert(cat.files@.take(i + 1) == cat.files@.take(i as int).push(
                    cat.files@[i as int]));
                lemma_filter_push(cat.files@.take(i as int), cat.files@[i as int], pred);
                cat.files@.take(i + 1).lemma_filter_len(pred);
            }
            if cat.files[i].user_id == self.id {
                count = count + 1;
            }
            i += 1;
        }
        proof {
            assert(cat.files@.take(cat.files@.len() as int) == cat.files@);
        }
        count as i64
    }

    /// Get the number of namespaces of the user.
    pub fn total_namespace_count(&self, cat: &Catalog) -> (r: i64)
        requires
            cat.wf(),
        ensures
            r == cat.namespaces@.filter(|n: Namespace| n.user_id == self.id).len(),
    {
        let ghost pred = |n: Namespace| n.user_id == self.id;
        proof {
            lemma_table_sizes(*cat);
        }
        let mut count: usize = 0;
        let mut i: usize = 0;
        while i < cat.namespaces.len()
            invariant
                i <= cat.namespaces@.len(),
                cat.namespaces@.len() < 0x8000_0000,
                count == cat.namespaces@.take(i as int).filter(pred).len(),
                pred == (|n: Namespace| n.user_id == self.id),
            decreases cat.namespaces@.len() - i,
        {
            proof {
                assert(cat.namespaces@.take(i + 1) == cat.namespaces@.take(i as int).push(
                    cat.namespaces@[i as int]));
                lemma_filter_push(cat.namespaces@.take(i as int), cat.namespaces@[i as int], pred);
                cat.namespaces@.take(i + 1).lemma_filter_len(pred);
            }
            if cat.namespaces[i].user_id == self.id {
                count = count + 1;
            }
            i += 1;
        }
        proof {
            assert(cat.namespaces@.take(cat.namespaces@.len() as int) == cat.namespaces@);
        }
        count as i64
    }

    /// Get the number of tag and group attributes of the user, in that
    /// order.
    pub fn total_attribute_count(&self, cat: &Catalog) -> (r: (i64, i64))
        requires
            cat.wf(),
        ensures
            r.0 == cat.attributes@.filter(
                |a: Attribute| a.user_id == self.id && a.type_ == AttributeType::Tag,
            ).len(),
            r.1 == cat.attributes@.filter(
                |a: Attribute| a.user_id == self.id && a.type_ == AttributeType::Group,
            ).len(),
    {
        let ghost tpred = |a: Attribute| a.user_id == self.id && a.type_ == AttributeType::Tag;
        let ghost gpred = |a: Attribute| a.user_id == self.id && a.type_ == AttributeType::Group;
        proof {
            lemma_table_sizes(*cat);
        }
        let mut tags: usize = 0;
        let mut groups: usize = 0;
        let mut i: usize = 0;
        while i < cat.attributes.len()
            invariant
                i <= cat.attributes@.len(),
                cat.attributes@.len() < 0x8000_0000,
                tags == cat.attributes@.take(i as int).filter(tpred).len(),
                groups == cat.attributes@.take(i as int).filter(gpred).len(),
                tpred == (|a: Attribute| a.user_id == self.id && a.type_ == AttributeType::Tag),
                gpred == (|a: Attribute| a.user_id == self.id && a.type_ == AttributeType::Group),
            decreases cat.attributes@.len() - i,
        {
            proof {
                assert(cat.attributes@.take(i + 1) == cat.attributes@.take(i as int).push(
                    cat.attributes@[i as int]));
                lemma_filter_push(cat.attributes@.take(i as int), cat.attributes@[i as int],
                    tpred,
                );
                lemma_filter_push(cat.attributes@.take(i as int), cat.attributes@[i as int],
                    gpred,
                );
                cat.attributes@.take(i + 1).lemma_filter_len(tpred);
                cat.attributes@.take(i + 1).lemma_filter_len(gpred);
            }
            let a = &cat.attributes[i];
            if a.user_id == self.id {
                match a.type_ {
                    AttributeType::Tag => {
                        tags = tags + 1;
                    },
                    AttributeType::Group => {
                        groups = groups + 1;
                    },
                }
            }
            i += 1;
        }
        proof {
            assert(cat.attributes@.take(cat.attributes@.len() as int) == cat.attributes@);
        }
        (tags as i64, groups as i64)
    }
}

/// The account-wide statistics of the user: file count, total file size,
/// namespace count, and tag and group counts.
pub fn collect_stats(cat: &Catalog, user: &User) -> (r: crate::response::StatsResponse)
    requires
        cat.wf(),
    ensures
        r.files_uploaded == cat.files@.filter(|f: File| f.user_id == user.id).len(),
        ({
            let total = sum_sizes(cat.files@.filter(|f: File| f.user_id == user.id));
            r.total_filesize == if i64::MIN <= total <= i64::MAX {
                total
            } else {
                0
            }
        }),
        r.namespaces_count == cat.namespaces@.filter(|n: Namespace| n.user_id == user.id).len(),
        r.tag_count == cat.attributes@.filter(
            |a: Attribute| a.user_id == user.id && a.type_ == AttributeType::Tag,
        ).len(),
        r.group_count == cat.attributes@.filter(
            |a: Attribute| a.user_id == user.id && a.type_ == AttributeType::Group,
        ).len(),
        r.traffic_used == 0,
{
    let total_files = user.total_filecount(cat);
    let total_filesize = user.total_filesize(cat);
    let namespaces_count = user.total_namespace_count(cat);
    let (tag_count, group_count) = user.total_attribute_count(cat);
    crate::response::StatsResponse {
        files_uploaded: total_files,
        namespaces_count,
        tag_count,
        group_count,
        total_filesize,
        ..crate::response::StatsResponse::default()
    }
}

/// An authenticated session: the user, their token, and their default
/// namespace if it has already been looked up for this session.
pub struct Authenticateduser {
    pub default_ns: Option<Namespace>,
    pub user: User,
    pub token: String,
}

impl Clone for Authenticateduser {
    fn clone(&self) -> (r: Self)
        ensures
            r == *self,
    {
        Authenticateduser {
            default_ns: match &self.default_ns {
                Some(ns) => Some(ns.clone()),
                None => None,
            },
            user: self.user.clone(),
            token: self.token.clone(),
        }
    }
}

} // verus!
