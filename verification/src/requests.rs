//! The request bodies the vault's endpoints take, as plain values.  The
//! transport layer decodes them from the wire and hands them in.
use vstd::prelude::*;

use crate::file::{clone_opt_string, File};
use crate::response_code::RestError;
use crate::user::Authenticateduser;
use crate::utils::random_string;

verus! {

/// A namespace create / rename / delete request.
pub struct NamespaceRequest {
    pub name: String,
    pub new_name: Option<String>,
}

/// A login or registration request.
pub struct CredentialsRequest {
    pub username: String,
    pub machine_id: Option<String>,
    pub password: String,
}

impl CredentialsRequest {
    /// Returns true if one value is empty.
    pub fn has_empty(&self) -> (r: bool)
        ensures
            r == (self.username@.len() == 0 || self.password@.len() == 0),
    {
        self.username.as_str().is_empty() || self.password.as_str().is_empty()
    }
}

/// A stats request, optionally scoped to one namespace.
pub struct StatsRequest {
    pub namespace: Option<String>,
}

/// An attribute create / update / delete request.
pub struct UpdateAttribute {
    pub name: String,
    pub new_name: String,
    pub namespace: String,
}

impl Clone for UpdateAttribute {
    fn clone(&self) -> (r: Self)
        ensures
            r == *self,
    {
        UpdateAttribute {
            name: self.name.clone(),
            new_name: self.new_name.clone(),
            namespace: self.namespace.clone(),
        }
    }
}

/// The attribute part of an upload or search request.
pub struct FileAttributes {
    pub tags: Option<Vec<String>>,
    pub groups: Option<Vec<String>>,
    pub namespace: String,
}

/// Clones an optional list of strings, keeping its value.
pub fn clone_opt_strings(o: &Option<Vec<String>>) -> (r: Option<Vec<String>>)
    ensures
        match (o, &r) {
            (Some(a), Some(b)) => a@ == b@,
            (None, None) => true,
            _ => false,
        },
{
    match o {
        Some(v) => {
            let mut out: Vec<String> = Vec::new();
            let mut i: usize = 0;
            while i < v.len()
                invariant
                    i <= v@.len(),
                    out@ == v@.take(i as int),
                decreases v@.len() - i,
            {
                out.push(v[i].clone());
                proof {
                    assert(v@.take(i + 1) == v@.take(i as int).push(v@[i as int]));
                }
                i += 1;
            }
            proof {
                assert(v@.take(v@.len() as int) == v@);
            }
            Some(out)
        },
        None => None,
    }
}

impl Clone for FileAttributes {
    fn clone(&self) -> (r: Self)
        ensures
            r.namespace == self.namespace,
            match (&self.tags, &r.tags) {
                (Some(a), Some(b)) => a@ == b@,
                (None, None) => true,
                _ => false,
            },
            match (&self.groups, &r.groups) {
                (Some(a), Some(b)) => a@ == b@,
                (None, None) => true,
                _ => false,
            },
    {
        FileAttributes {
            tags: clone_opt_strings(&self.tags),
            groups: clone_opt_strings(&self.groups),
            namespace: self.namespace.clone(),
        }
    }
}

/// A file search request.
pub struct FileList {
    pub file_id: i32,
    pub name: String,
    pub all_namespaces: bool,
    pub attributes: FileAttributes,
    pub optional: OptionalRequestParameter,
}

/// Optional knobs of a search request.
pub struct OptionalRequestParameter {
    pub verbose: u8,
}

/// A file action (delete / update / download / publish) request.
pub struct FileRequest {
    pub file_id: i32,
    pub name: Option<String>,
    pub public_name: Option<String>,
    pub updates: Option<FileUpdateItem>,
    pub all: bool,
    pub attributes: FileAttributes,
}

/// The changes a file update request carries.
pub struct FileUpdateItem {
    pub is_public: Option<String>,
    pub new_name: Option<String>,
    pub new_namespace: Option<String>,
    pub remove_tags: Option<Vec<String>>,
    pub remove_groups: Option<Vec<String>>,
    pub add_tags: Option<Vec<String>>,
    pub add_groups: Option<Vec<String>>,
}

/// How the payload of an upload is delivered.
#[derive(Clone, Copy, Debug, PartialEq, Eq, Structural)]
pub enum UploadType {
    File,
    Url,
}

impl UploadType {
    /// The wire encoding of the upload type.
    pub open spec fn spec_encode(self) -> u8 {
        match self {
            UploadType::File => 0,
            UploadType::Url => 1,
        }
    }

    /// Encode the upload type for the wire.
    pub fn encode(&self) -> (r: u8)
        ensures
            r == self.spec_encode(),
    {
        match self {
            UploadType::File => 0,
            UploadType::Url => 1,
        }
    }

    /// Decode an upload type; anything but the two known codes is refused.
    pub fn decode(i: u8) -> (r: Option<UploadType>)
        ensures
            match r {
                Some(t) => t.spec_encode() == i,
                None => i != 0 && i != 1,
            },
    {
        match i {
            0 => Some(Self::File),
            1 => Some(Self::Url),
            _ => None,
        }
    }
}

/// An upload request.
pub struct UploadRequest {
    pub upload_type: UploadType,
    pub name: String,
    pub url: Option<String>,
    pub public: Option<bool>,
    pub public_name: Option<String>,
    pub encryption: Option<i8>,
    pub compressed: Option<bool>,
    pub archived: Option<bool>,
    pub replace_file_by_id: Option<i32>,
    pub replace_equal_names: bool,
    pub all: bool,
    pub attributes: Option<FileAttributes>,
}

/// Whether an encryption tag is one the vault accepts: zero means none,
/// one and two are the reserved valid modes, everything else is invalid.
pub fn is_encryption_valid(encr: i8) -> (r: Option<bool>)
    ensures
        r == spec_is_encryption_valid(encr),
{
    match encr {
        0 => None,
        1 | 2 => Some(true),
        _ => Some(false),
    }
}

/// The encryption tags the vault accepts.
pub open spec fn spec_is_encryption_valid(encr: i8) -> Option<bool> {
    if encr == 0 {
        None
    } else if encr == 1 || encr == 2 {
        Some(true)
    } else {
        Some(false)
    }
}

/// The request's contradictory-flag and encryption checks pass.
pub open spec fn spec_upload_request_valid(req: UploadRequest) -> bool {
    &&& (match req.encryption {
        Some(e) => e == 0 || e == 1 || e == 2,
        None => true,
    })
    &&& !(req.replace_equal_names && req.replace_file_by_id is Some)
}

impl UploadRequest {
    /// Reject contradictory or malformed upload requests: an invalid
    /// encryption tag, or asking to replace both by id and by name.
    pub fn validate(&self, _user: &Authenticateduser) -> (r: Result<(), RestError>)
        ensures
            match r {
                Ok(()) => spec_upload_request_valid(*self),
                Err(e) => e == RestError::IllegalOperation && !spec_upload_request_valid(*self),
            },
    {
        let encr = match self.encryption {
            Some(e) => e,
            None => 0,
        };
        let encryption_ok = match is_encryption_valid(encr) {
            Some(b) => b,
            None => true,
        };
        if !encryption_ok {
            return Err(RestError::IllegalOperation);
        }
        if self.replace_equal_names && self.replace_file_by_id.is_some() {
            return Err(RestError::IllegalOperation);
        }
        match self.upload_type {
            UploadType::File => {},
            UploadType::Url => {},
        }
        Ok(())
    }

    /// The file scaffold an upload request turns into: the requested name
    /// (or a random one when empty), a fresh random storage name, and the
    /// requested public/encryption settings.
    pub fn into_file(self) -> (r: File)
        ensures
            r.id == 0,
            self.name@.len() > 0 ==> r.name == self.name,
            self.name@.len() == 0 ==> r.name@.len() == 20,
            r.local_name@.len() == 30,
            r.encryption == (match self.encryption {
                Some(e) => e as i32,
                None => 0,
            }),
            r.is_public == (match self.public {
                Some(p) => p,
                None => false,
            }),
            r.public_filename == self.public_name,
            r.user_id == 0,
            r.namespace_id == 0,
            r.file_size == 0,
            r.file_type@ == Seq::<char>::empty(),
            r.checksum@ == Seq::<char>::empty(),
    {
        let name = if self.name.as_str().is_empty() {
            random_string(20)
        } else {
            self.name
        };
        let encryption: i32 = match self.encryption {
            Some(e) => e as i32,
            None => 0,
        };
        let is_public = match self.public {
            Some(p) => p,
            None => false,
        };
        File {
            name,
            encryption,
            is_public,
            public_filename: self.public_name,
            local_name: random_string(30),
            ..File::default()
        }
    }
}

impl Clone for UploadRequest {
    fn clone(&self) -> (r: Self)
        ensures
            r.upload_type == self.upload_type,
            r.name == self.name,
            r.url == self.url,
            r.public == self.public,
            r.public_name == self.public_name,
            r.encryption == self.encryption,
            r.compressed == self.compressed,
            r.archived == self.archived,
            r.replace_file_by_id == self.replace_file_by_id,
            r.replace_equal_names == self.replace_equal_names,
            r.all == self.all,
            match (&self.attributes, &r.attributes) {
                (Some(a), Some(b)) => a.namespace == b.namespace && (match (&a.tags, &b.tags) {
                    (Some(x), Some(y)) => x@ == y@,
                    (None, None) => true,
                    _ => false,
                }) && (match (&a.groups, &b.groups) {
                    (Some(x), Some(y)) => x@ == y@,
                    (None, None) => true,
                    _ => false,
                }),
                (None, None) => true,
                _ => false,
            },
    {
        UploadRequest {
            upload_type: self.upload_type,
            name: self.name.clone(),
            url: clone_opt_string(&self.url),
            public: self.public,
            public_name: clone_opt_string(&self.public_name),
            encryption: self.encryption,
            compressed: self.compressed,
            archived: self.archived,
            replace_file_by_id: self.replace_file_by_id,
            replace_equal_names: self.replace_equal_names,
            all: self.all,
            attributes: match &self.attributes {
                Some(a) => Some(a.clone()),
                None => None,
            },
        }
    }
}

} // verus!
