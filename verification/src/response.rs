//! The response bodies the vault's endpoints hand back, as plain values.
//! The transport layer encodes them onto the wire.
use vstd::prelude::*;

use crate::file::File;
use crate::requests::FileAttributes;

verus! {

/// A single string payload.
pub struct StringResponse {
    pub content: String,
}

/// A list payload.
pub struct VecResponse<T> {
    pub slice: Vec<T>,
}

/// The session token handed out after a login.
pub struct LoginResponse {
    pub token: String,
}

/// What an upload answers with.
#[derive(Debug)]
pub struct UploadResponse {
    pub file_id: i32,
    pub file_name: String,
    pub public_file_name: Option<String>,
    pub checksum: String,
    pub file_size: i64,
    pub namespace: String,
}

impl UploadResponse {
    /// The response describing one file row; the namespace name is filled
    /// in by the caller where one is known.
    pub fn from_file(file: File) -> (r: UploadResponse)
        ensures
            r.file_id == file.id,
            r.file_name == file.name,
            r.public_file_name == file.public_filename,
            r.checksum == file.checksum,
            r.file_size == file.file_size,
            r.namespace@ == Seq::<char>::empty(),
    {
        UploadResponse {
            namespace: String::new(),
            file_size: file.file_size,
            checksum: file.checksum,
            public_file_name: file.public_filename,
            file_name: file.name,
            file_id: file.id,
        }
    }
}

/// The bulk publish answer.
pub struct BulkPublishResponse {
    pub files: Vec<UploadResponse>,
}

/// One record of a file listing.
pub struct FileItemResponse {
    pub id: i32,
    pub size: i64,
    pub creation_date: i64,
    pub name: String,
    pub is_public: bool,
    pub public_name: String,
    pub attributes: FileAttributes,
    pub encryption: i32,
    pub checksum: String,
}

impl FileItemResponse {
    /// The listing record for one file row; tag, group and namespace names
    /// are filled in by the caller.
    pub fn from_file(file: File) -> (r: FileItemResponse)
        ensures
            r.id == file.id,
            r.size == file.file_size,
            r.creation_date == file.uploaded_at,
            r.name == file.name,
            r.is_public == file.is_public,
            r.public_name@ == (match file.public_filename {
                Some(p) => p@,
                None => Seq::<char>::empty(),
            }),
            r.encryption == file.encryption,
            r.checksum == file.checksum,
            r.attributes.tags is None,
            r.attributes.groups is None,
            r.attributes.namespace@ == Seq::<char>::empty(),
    {
        FileItemResponse {
            id: file.id,
            size: file.file_size,
            creation_date: file.uploaded_at,
            name: file.name,
            is_public: file.is_public,
            public_name: match file.public_filename {
                Some(p) => p,
                None => String::new(),
            },
            encryption: file.encryption,
            checksum: file.checksum,
            attributes: FileAttributes { groups: None, tags: None, namespace: String::new() },
        }
    }
}

/// A file listing.
pub struct FileListResponse {
    pub files: Vec<FileItemResponse>,
}

/// The ids a bulk action touched.
pub struct IDsResponse {
    pub ids: Vec<i32>,
}

/// The account-wide statistics answer.
#[derive(Clone, Copy)]
pub struct StatsResponse {
    pub traffic_used: i64,
    pub files_uploaded: i64,
    pub total_filesize: i64,
    pub namespaces_count: i64,
    pub group_count: i64,
    pub tag_count: i64,
}

impl Default for StatsResponse {
    fn default() -> (r: Self)
        ensures
            r.traffic_used == 0,
            r.files_uploaded == 0,
            r.total_filesize == 0,
            r.namespaces_count == 0,
            r.group_count == 0,
            r.tag_count == 0,
    {
        StatsResponse {
            traffic_used: 0,
            files_uploaded: 0,
            total_filesize: 0,
            namespaces_count: 0,
            group_count: 0,
            tag_count: 0,
        }
    }
}

} // verus!
