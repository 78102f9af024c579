//! The many-to-many pairing between files and attributes, with its
//! reference-counted cleanup: an attribute whose last pairing is removed is
//! removed itself, so no attribute is left orphaned.
use vstd::prelude::*;

use crate::attribute::Attribute;
use crate::catalog::{
    assoc_in, attr_used, lemma_filter_ids_bounded, lemma_filter_push, lemma_filter_sub,
    lemma_filter_uniq_by, lemma_files_wf_transfer, same_assocs, same_attributes, same_files,
    same_namespaces, Catalog,
};
use crate::file::FileAttribute;

verus! {

/// Get the attribute ids associated to a file id.
pub fn get_file_attribute_ids(cat: &Catalog, fid: i32) -> (r: Vec<i32>)
    ensures
        r@ == cat.file_attributes@.filter(|fa: FileAttribute| fa.file_id == fid).map_values(
            |fa: FileAttribute| fa.attribute_id,
        ),
{
    let ghost pred = |fa: FileAttribute| fa.file_id == fid;
    let mut out: Vec<i32> = Vec::new();
    let mut i: usize = 0;
    while i < cat.file_attributes.len()
        invariant
            i <= cat.file_attributes@.len(),
            out@ == cat.file_attributes@.take(i as int).filter(pred).map_values(
                |fa: FileAttribute| fa.attribute_id,
            ),
            pred == (|fa: FileAttribute| fa.file_id == fid),
        decreases cat.file_attributes@.len() - i,
    {
        let fa = &cat.file_attributes[i];
        proof {
            let pre = cat.file_attributes@.take(i as int);
            assert(cat.file_attributes@.take(i + 1) == pre.push(cat.file_attributes@[i as int]));
            lemma_filter_push(pre, cat.file_attributes@[i as int], pred);
            if pred(cat.file_attributes@[i as int]) {
                assert(pre.filter(pred).push(cat.file_attributes@[i as int]).map_values(
                    |fa: FileAttribute| fa.attribute_id,
                ) =~= pre.filter(pred).map_values(|fa: FileAttribute| fa.attribute_id).push(
                    cat.file_attributes@[i as int].attribute_id,
                ));
            }
        }
        if fa.file_id == fid {
            out.push(fa.attribute_id);
        }
        i += 1;
    }
    proof {
        assert(cat.file_attributes@.take(cat.file_attributes@.len() as int)
            == cat.file_attributes@);
    }
    out
}

/// Return true if an attribute has pairings / is in use.
pub fn is_attribute_used(cat: &Catalog, aid: i32) -> (r: bool)
    ensures
        r == attr_used(cat.file_attributes@, aid),
{
    let mut i: usize = 0;
    while i < cat.file_attributes.len()
        invariant
            i <= cat.file_attributes@.len(),
            forall|k: int| 0 <= k < i ==> (#[trigger] cat.file_attributes@[k]).attribute_id != aid,
        decreases cat.file_attributes@.len() - i,
    {
        if cat.file_attributes[i].attribute_id == aid {
            return true;
        }
        i += 1;
    }
    false
}

/// Whether the pair `(fid, aid)` is already recorded.
pub fn has_association(cat: &Catalog, fid: i32, aid: i32) -> (r: bool)
    ensures
        r == assoc_in(cat.file_attributes@, fid, aid),
{
    let mut i: usize = 0;
    while i < cat.file_attributes.len()
        invariant
            i <= cat.file_attributes@.len(),
            forall|k: int|
                0 <= k < i ==> !((#[trigger] cat.file_attributes@[k]).file_id == fid
                    && cat.file_attributes@[k].attribute_id == aid),
        decreases cat.file_attributes@.len() - i,
    {
        let fa = &cat.file_attributes[i];
        if fa.file_id == fid && fa.attribute_id == aid {
            return true;
        }
        i += 1;
    }
    false
}

/// The table without any pairing of this file.
pub fn assocs_without_file(v: &Vec<FileAttribute>, fid: i32) -> (r: Vec<FileAttribute>)
    ensures
        r@ == v@.filter(|fa: FileAttribute| fa.file_id != fid),
{
    let ghost pred = |fa: FileAttribute| fa.file_id != fid;
    let mut out: Vec<FileAttribute> = Vec::new();
    let mut i: usize = 0;
    while i < v.len()
        invariant
            i <= v@.len(),
            out@ == v@.take(i as int).filter(pred),
            pred == (|fa: FileAttribute| fa.file_id != fid),
        decreases v@.len() - i,
    {
        proof {
            assert(v@.take(i + 1) == v@.take(i as int).push(v@[i as int]));
            lemma_filter_push(v@.take(i as int), v@[i as int], pred);
        }
        if v[i].file_id != fid {
            out.push(v[i].clone());
        }
        i += 1;
    }
    proof {
        assert(v@.take(v@.len() as int) == v@);
    }
    out
}

/// The table without any pairing of this attribute.
pub fn assocs_without_attr(v: &Vec<FileAttribute>, aid: i32) -> (r: Vec<FileAttribute>)
    ensures
        r@ == v@.filter(|fa: FileAttribute| fa.attribute_id != aid),
{
    let ghost pred = |fa: FileAttribute| fa.attribute_id != aid;
    let mut out: Vec<FileAttribute> = Vec::new();
    let mut i: usize = 0;
    while i < v.len()
        invariant
            i <= v@.len(),
            out@ == v@.take(i as int).filter(pred),
            pred == (|fa: FileAttribute| fa.attribute_id != aid),
        decreases v@.len() - i,
    {
        proof {
            assert(v@.take(i + 1) == v@.take(i as int).push(v@[i as int]));
            lemma_filter_push(v@.take(i as int), v@[i as int], pred);
        }
        if v[i].attribute_id != aid {
            out.push(v[i].clone());
        }
        i += 1;
    }
    proof {
        assert(v@.take(v@.len() as int) == v@);
    }
    out
}

/// The table without one exact pairing.
pub fn assocs_without_pair(v: &Vec<FileAttribute>, fid: i32, aid: i32) -> (r: Vec<FileAttribute>)
    ensures
        r@ == v@.filter(|fa: FileAttribute| !(fa.file_id == fid && fa.attribute_id == aid)),
{
    let ghost pred = |fa: FileAttribute| !(fa.file_id == fid && fa.attribute_id == aid);
    let mut out: Vec<FileAttribute> = Vec::new();
    let mut i: usize = 0;
    while i < v.len()
        invariant
            i <= v@.len(),
            out@ == v@.take(i as int).filter(pred),
            pred == (|fa: FileAttribute| !(fa.file_id == fid && fa.attribute_id == aid)),
        decreases v@.len() - i,
    {
        proof {
            assert(v@.take(i + 1) == v@.take(i as int).push(v@[i as int]));
            lemma_filter_push(v@.take(i as int), v@[i as int], pred);
        }
        if !(v[i].file_id == fid && v[i].attribute_id == aid) {
            out.push(v[i].clone());
        }
        i += 1;
    }
    proof {
        assert(v@.take(v@.len() as int) == v@);
    }
    out
}

/// Whether the attribute occurs in some pair of this table.
pub fn vec_attr_used(v: &Vec<FileAttribute>, aid: i32) -> (r: bool)
    ensures
        r == attr_used(v@, aid),
{
    let mut i: usize = 0;
    while i < v.len()
        invariant
            i <= v@.len(),
            forall|k: int| 0 <= k < i ==> (#[trigger] v@[k]).attribute_id != aid,
        decreases v@.len() - i,
    {
        if v[i].attribute_id == aid {
            return true;
        }
        i += 1;
    }
    false
}

/// The attribute table without this row.
pub fn attrs_without_id(v: &Vec<Attribute>, aid: i32) -> (r: Vec<Attribute>)
    ensures
        r@ == v@.filter(|a: Attribute| a.id != aid),
{
    let ghost pred = |a: Attribute| a.id != aid;
    let mut out: Vec<Attribute> = Vec::new();
    let mut i: usize = 0;
    while i < v.len()
        invariant
            i <= v@.len(),
            out@ == v@.take(i as int).filter(pred),
            pred == (|a: Attribute| a.id != aid),
        decreases v@.len() - i,
    {
        proof {
            assert(v@.take(i + 1) == v@.take(i as int).push(v@[i as int]));
            lemma_filter_push(v@.take(i as int), v@[i as int], pred);
        }
        if v[i].id != aid {
            out.push(v[i].clone());
        }
        i += 1;
    }
    proof {
        assert(v@.take(v@.len() as int) == v@);
    }
    out
}

/// The attribute table with its uniqueness and bounds carried through a
/// filter, packaged for reuse.
proof fn lemma_attrs_filter_wf(cat: Catalog, pred: spec_fn(Attribute) -> bool)
    requires
        cat.attributes_wf(),
    ensures
        crate::catalog::uniq_ids(cat.attributes@.filter(pred), |a: Attribute| a.id),
        crate::catalog::ids_bounded(
            cat.attributes@.filter(pred),
            |a: Attribute| a.id,
            cat.next_attribute_id,
        ),
        crate::catalog::uniq_by(
            cat.attributes@.filter(pred),
            |a: Attribute| (a.name@, a.type_, a.user_id, a.namespace_id),
        ),
{
    lemma_filter_uniq_by(cat.attributes@, pred, |a: Attribute| a.id);
    lemma_filter_ids_bounded(cat.attributes@, pred, |a: Attribute| a.id, cat.next_attribute_id);
    lemma_filter_uniq_by(
        cat.attributes@,
        pred,
        |a: Attribute| (a.name@, a.type_, a.user_id, a.namespace_id),
    );
}

/// The pairing table keeps distinct pairs through a filter.
proof fn lemma_assocs_filter_wf(cat: Catalog, pred: spec_fn(FileAttribute) -> bool)
    requires
        cat.assocs_wf(),
    ensures
        crate::catalog::uniq_by(
            cat.file_attributes@.filter(pred),
            |fa: FileAttribute| (fa.file_id, fa.attribute_id),
        ),
{
    lemma_filter_uniq_by(
        cat.file_attributes@,
        pred,
        |fa: FileAttribute| (fa.file_id, fa.attribute_id),
    );
}

/// Delete a single pairing; if that was the attribute's last pairing, the
/// attribute row itself is removed, so attributes are never orphaned.  An
/// attribute still paired with another file survives.
pub fn delete_association(cat: &mut Catalog, fid: i32, aid: i32)
    requires
        old(cat).wf(),
    ensures
        final(cat).wf(),
        same_files(*final(cat), *old(cat)),
        same_namespaces(*final(cat), *old(cat)),
        final(cat).next_file_attribute_id == old(cat).next_file_attribute_id,
        final(cat).next_attribute_id == old(cat).next_attribute_id,
        final(cat).file_attributes@ == old(cat).file_attributes@.filter(
            |fa: FileAttribute| !(fa.file_id == fid && fa.attribute_id == aid),
        ),
        final(cat).attributes@ == if attr_used(final(cat).file_attributes@, aid) {
            old(cat).attributes@
        } else {
            old(cat).attributes@.filter(|a: Attribute| a.id != aid)
        },
{
    let kept = assocs_without_pair(&cat.file_attributes, fid, aid);
    let still_used = vec_attr_used(&kept, aid);
    proof {
        lemma_assocs_filter_wf(
            *cat,
            |fa: FileAttribute| !(fa.file_id == fid && fa.attribute_id == aid),
        );
    }
    cat.file_attributes = kept;
    if !still_used {
        proof {
            lemma_attrs_filter_wf(*cat, |a: Attribute| a.id != aid);
        }
        let new_attrs = attrs_without_id(&cat.attributes, aid);
        cat.attributes = new_attrs;
    }
    proof {
        lemma_files_wf_transfer(*old(cat), *cat);
    }
}

/// Delete all pairings of an attribute; the attribute row itself stays.
pub fn delete_attribute_associations(cat: &mut Catalog, aid: i32)
    requires
        old(cat).wf(),
    ensures
        final(cat).wf(),
        same_files(*final(cat), *old(cat)),
        same_namespaces(*final(cat), *old(cat)),
        same_attributes(*final(cat), *old(cat)),
        final(cat).next_file_attribute_id == old(cat).next_file_attribute_id,
        final(cat).file_attributes@ == old(cat).file_attributes@.filter(
            |fa: FileAttribute| fa.attribute_id != aid,
        ),
{
    proof {
        lemma_assocs_filter_wf(*cat, |fa: FileAttribute| fa.attribute_id != aid);
    }
    let kept = assocs_without_attr(&cat.file_attributes, aid);
    cat.file_attributes = kept;
    proof {
        lemma_files_wf_transfer(*old(cat), *cat);
    }
}

/// Delete all pairings of a file; every attribute that was paired with the
/// file and is left with no pairing at all is removed with them.
pub fn delete_file_associations(cat: &mut Catalog, fid: i32)
    requires
        old(cat).wf(),
    ensures
        final(cat).wf(),
        same_files(*final(cat), *old(cat)),
        same_namespaces(*final(cat), *old(cat)),
        final(cat).next_file_attribute_id == old(cat).next_file_attribute_id,
        final(cat).next_attribute_id == old(cat).next_attribute_id,
        final(cat).file_attributes@ == old(cat).file_attributes@.filter(
            |fa: FileAttribute| fa.file_id != fid,
        ),
        final(cat).attributes@ == old(cat).attributes@.filter(
            |a: Attribute|
                !(assoc_in(old(cat).file_attributes@, fid, a.id) && !attr_used(
                    old(cat).file_attributes@.filter(|fa: FileAttribute| fa.file_id != fid),
                    a.id,
                )),
        ),
{
    let kept = assocs_without_file(&cat.file_attributes, fid);
    let ghost old_assocs = cat.file_attributes@;
    let ghost kept_seq = kept@;
    let ghost keep_pred = |a: Attribute|
        !(assoc_in(old_assocs, fid, a.id) && !attr_used(kept_seq, a.id));
    let mut new_attrs: Vec<Attribute> = Vec::new();
    let mut i: usize = 0;
    while i < cat.attributes.len()
        invariant
            i <= cat.attributes@.len(),
            new_attrs@ == cat.attributes@.take(i as int).filter(keep_pred),
            keep_pred == (|a: Attribute|
                !(assoc_in(old_assocs, fid, a.id) && !attr_used(kept_seq, a.id))),
            old_assocs == cat.file_attributes@,
            kept_seq == kept@,
        decreases cat.attributes@.len() - i,
    {
        let a = &cat.attributes[i];
        proof {
            assert(cat.attributes@.take(i + 1) == cat.attributes@.take(i as int).push(
                cat.attributes@[i as int]));
            lemma_filter_push(cat.attributes@.take(i as int), cat.attributes@[i as int], keep_pred);
        }
        let was_paired = has_association(cat, fid, a.id);
        let still_used = vec_attr_used(&kept, a.id);
        if !(was_paired && !still_used) {
            new_attrs.push(cat.attributes[i].clone());
        }
        i += 1;
    }
    proof {
        assert(cat.attributes@.take(cat.attributes@.len() as int) == cat.attributes@);
        lemma_assocs_filter_wf(*cat, |fa: FileAttribute| fa.file_id != fid);
        lemma_attrs_filter_wf(*cat, keep_pred);
    }
    cat.file_attributes = kept;
    cat.attributes = new_attrs;
    proof {
        lemma_files_wf_transfer(*old(cat), *cat);
    }
}

/// What recording a list of pairings does to the table: each pairing not
/// yet present is appended, under consecutive fresh row ids; pairings
/// already present are skipped.
pub open spec fn spec_add_pairs(s: Seq<FileAttribute>, next: int, fid: i32, ids: Seq<i32>) -> (
    Seq<FileAttribute>,
    int,
)
    decreases ids.len(),
{
    if ids.len() == 0 {
        (s, next)
    } else {
        let (s1, n1) = spec_add_pairs(s, next, fid, ids.drop_last());
        if assoc_in(s1, fid, ids.last()) {
            (s1, n1)
        } else {
            (s1.push(FileAttribute { id: n1 as i32, file_id: fid, attribute_id: ids.last() }),
            n1 + 1)
        }
    }
}

/// Add attributes (pairings) for a file.  Pairings that already exist are
/// left alone, so the table never holds a duplicate pair.
pub fn add_atttributes(cat: &mut Catalog, fid: i32, attributes: &Vec<Attribute>)
    requires
        old(cat).wf(),
        old(cat).next_file_attribute_id + attributes@.len() <= i32::MAX,
    ensures
        final(cat).wf(),
        same_files(*final(cat), *old(cat)),
        same_namespaces(*final(cat), *old(cat)),
        same_attributes(*final(cat), *old(cat)),
        (final(cat).file_attributes@, final(cat).next_file_attribute_id as int) == spec_add_pairs(
            old(cat).file_attributes@,
            old(cat).next_file_attribute_id as int,
            fid,
            attributes@.map_values(|a: Attribute| a.id),
        ),
        forall|k: int|
            0 <= k < attributes@.len() ==> final(cat).has_assoc(
                fid,
                (#[trigger] attributes@[k]).id,
            ),
        forall|j: int|
            0 <= j < old(cat).file_attributes@.len() ==> final(cat).file_attributes@[j] == old(
                cat,
            ).file_attributes@[j],
        old(cat).file_attributes@.len() <= final(cat).file_attributes@.len(),
    {
        let ghost ids = attributes@.map_values(|a: Attribute| a.id);
        let mut i: usize = 0;
        while i < attributes.len()
            invariant
                i <= attributes@.len(),
                cat.wf(),
                old(cat).wf(),
                old(cat).next_file_attribute_id + attributes@.len() <= i32::MAX,
                cat.next_file_attribute_id >= old(cat).next_file_attribute_id,
                cat.next_file_attribute_id - old(cat).next_file_attribute_id <= i,
                same_files(*cat, *old(cat)),
                same_namespaces(*cat, *old(cat)),
                same_attributes(*cat, *old(cat)),
                ids == attributes@.map_values(|a: Attribute| a.id),
                (cat.file_attributes@, cat.next_file_attribute_id as int) == spec_add_pairs(
                    old(cat).file_attributes@,
                    old(cat).next_file_attribute_id as int,
                    fid,
                    ids.take(i as int),
                ),
                forall|k: int|
                    0 <= k < i ==> cat.has_assoc(fid, (#[trigger] attributes@[k]).id),
                forall|j: int|
                    0 <= j < old(cat).file_attributes@.len() ==> cat.file_attributes@[j] == old(
                        cat,
                    ).file_attributes@[j],
                old(cat).file_attributes@.len() <= cat.file_attributes@.len(),
            decreases attributes@.len() - i,
        {
            let ghost pre_assocs = cat.file_attributes@;
            let aid = attributes[i].id;
            proof {
                assert(ids.take(i + 1).drop_last() =~= ids.take(i as int));
                assert(ids.take(i + 1).last() == aid);
            }
            if !has_association(cat, fid, aid) {
                let fa = FileAttribute {
                    id: cat.next_file_attribute_id,
                    file_id: fid,
                    attribute_id: aid,
                };
                cat.file_attributes.push(fa);
                cat.next_file_attribute_id = cat.next_file_attribute_id + 1;
                proof {
                    lemma_files_wf_transfer(*old(cat), *cat);
                    let fas = cat.file_attributes@;
                    assert forall|a: int, b: int|
                        0 <= a < fas.len() && 0 <= b < fas.len() && a != b implies !((
                    #[trigger] fas[a]).file_id == (#[trigger] fas[b]).file_id
                        && fas[a].attribute_id == fas[b].attribute_id) by {
                        if b == fas.len() - 1 && a < b {
                            assert(!(pre_assocs[a].file_id == fid && pre_assocs[a].attribute_id
                                == aid));
                        }
                        if a == fas.len() - 1 && b < a {
                            assert(!(pre_assocs[b].file_id == fid && pre_assocs[b].attribute_id
                                == aid));
                        }
                    }
                }
            }
            proof {
                assert(cat.file_attributes@[cat.file_attributes@.len() - 1].file_id == fid
                    || assoc_in(pre_assocs, fid, aid));
                assert(cat.has_assoc(fid, aid));
                assert forall|k: int| 0 <= k < i + 1 implies cat.has_assoc(
                    fid,
                    (#[trigger] attributes@[k]).id,
                ) by {
                    if k < i {
                        let w = choose|w: int|
                            0 <= w < pre_assocs.len() && (#[trigger] pre_assocs[w]).file_id == fid
                                && pre_assocs[w].attribute_id == attributes@[k].id;
                        assert(cat.file_attributes@[w].file_id == fid);
                    }
                }
            }
            i += 1;
        }
        proof {
            assert(ids.take(attributes@.len() as int) == ids);
        }
    }

} // verus!
