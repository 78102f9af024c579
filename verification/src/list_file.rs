//! Turning search results into the file-listing response: each record's
//! attribute list is split into its tag names and group names.
use vstd::prelude::*;

use crate::attribute::{Attribute, AttributeType};
use crate::catalog::lemma_filter_push;
use crate::file::File;
use crate::namespace::Namespace;
use crate::response::{FileItemResponse, FileListResponse};

verus! {

/// The names of the attributes of one kind, in order.
pub open spec fn attr_names_of_type(attrs: Seq<Attribute>, t: AttributeType) -> Seq<Seq<char>> {
    attrs.filter(|a: Attribute| a.type_ == t).map_values(|a: Attribute| a.name@)
}

/// The listing record faithfully describes one search result row: the
/// file's fields, its namespace's name, and its tag and group names (absent
/// when the row has none of that kind).
pub open spec fn item_matches(item: FileItemResponse, row: (File, Namespace, Vec<Attribute>)) ->
    bool {
    &&& item.id == row.0.id
    &&& item.size == row.0.file_size
    &&& item.creation_date == row.0.uploaded_at
    &&& item.name@ == row.0.name@
    &&& item.is_public == row.0.is_public
    &&& item.public_name@ == (match row.0.public_filename {
        Some(p) => p@,
        None => Seq::<char>::empty(),
    })
    &&& item.encryption == row.0.encryption
    &&& item.checksum@ == row.0.checksum@
    &&& item.attributes.namespace@ == row.1.name@
    &&& names_match(item.attributes.tags, attr_names_of_type(row.2@, AttributeType::Tag))
    &&& names_match(item.attributes.groups, attr_names_of_type(row.2@, AttributeType::Group))
}

/// An optional name list carries exactly these names, and is absent
/// exactly when there are none.
pub open spec fn names_match(listed: Option<Vec<String>>, names: Seq<Seq<char>>) -> bool {
    match listed {
        Some(v) => v@.len() == names.len() && names.len() > 0 && forall|k: int|
            0 <= k < names.len() ==> (#[trigger] v@[k])@ == names[k],
        None => names.len() == 0,
    }
}

/// Collects the names of one attribute kind out of a record's attributes.
fn names_of_type(attrs: &Vec<Attribute>, t: AttributeType) -> (r: Vec<String>)
    ensures
        r@.len() == attr_names_of_type(attrs@, t).len(),
        forall|k: int|
            0 <= k < r@.len() ==> (#[trigger] r@[k])@ == attr_names_of_type(attrs@, t)[k],
{
    let ghost pred = |a: Attribute| a.type_ == t;
    let mut out: Vec<String> = Vec::new();
    let mut i: usize = 0;
    while i < attrs.len()
        invariant
            i <= attrs@.len(),
            out@.len() == attrs@.take(i as int).filter(pred).len(),
            forall|k: int|
                0 <= k < out@.len() ==> (#[trigger] out@[k])@ == attrs@.take(i as int).filter(
                    pred,
                ).map_values(|a: Attribute| a.name@)[k],
            pred == (|a: Attribute| a.type_ == t),
        decreases attrs@.len() - i,
    {
        proof {
            assert(attrs@.take(i + 1) == attrs@.take(i as int).push(attrs@[i as int]));
            lemma_filter_push(attrs@.take(i as int), attrs@[i as int], pred);
        }
        if attrs[i].type_ == t {
            out.push(attrs[i].name.clone());
        }
        i += 1;
    }
    proof {
        assert(attrs@.take(attrs@.len() as int) == attrs@);
    }
    out
}

/// Fold search results into the listing response: one record per file,
/// with the namespace name filled in and the attribute list split into tag
/// and group names.
pub fn build_file_list(results: Vec<(File, Namespace, Vec<Attribute>)>) -> (r: FileListResponse)
    ensures
        r.files@.len() == results@.len(),
        forall|i: int|
            0 <= i < results@.len() ==> item_matches(#[trigger] r.files@[i], results@[i]),
{
    let mut files: Vec<FileItemResponse> = Vec::new();
    let mut i: usize = 0;
    while i < results.len()
        invariant
            i <= results@.len(),
            files@.len() == i,
            forall|k: int|
                0 <= k < i ==> item_matches(#[trigger] files@[k], results@[k]),
        decreases results@.len() - i,
    {
        let (file, namespace, attrs) = &results[i];
        let tag_names = names_of_type(attrs, AttributeType::Tag);
        let group_names = names_of_type(attrs, AttributeType::Group);
        let mut item = FileItemResponse::from_file(file.clone());
        item.attributes.namespace = namespace.name.clone();
        if tag_names.len() > 0 {
            item.attributes.tags = Some(tag_names);
        }
        if group_names.len() > 0 {
            item.attributes.groups = Some(group_names);
        }
        files.push(item);
        i += 1;
    }
    FileListResponse { files }
}

} // verus!
