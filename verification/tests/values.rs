use dvault::attribute::{AttributeType, NewAttribute};
use dvault::catalog::Catalog;
use dvault::file::File;
use dvault::namespace::CreateNamespace;
use dvault::requests::FileUpdateItem;
use dvault::user::{collect_stats, Authenticateduser, User};
use dvault::requests::{
    is_encryption_valid, CredentialsRequest, FileAttributes, FileRequest, UploadType,
};
use dvault::response_code::RestError;
use dvault::text::{bytes_contains, bytes_eq, ilike, parse_bool};
use dvault::utils::{hash_pw, random_string, sha512};

#[test]
fn error_names_and_status_codes() {
    assert_eq!(RestError::NotFound.name(), "NotFound");
    assert_eq!(RestError::DNotFound(dvault::response_code::Origin::File).name(), "NotFound");
    assert_eq!(RestError::Forbidden.name(), "Forbidden");
    assert_eq!(RestError::UnknownIo.name(), "Unknown IO");
    assert_eq!(RestError::Internal.name(), "Unknown");
    assert_eq!(RestError::Unauthorized.name(), "Unauthorized");
    assert_eq!(RestError::AlreadyExists.name(), "AlreadyExists");
    assert_eq!(RestError::IllegalOperation.name(), "IllegalOperation");
    assert_eq!(RestError::MultipleFilesMatch.name(), "MultipleFilesMatch");
    assert_eq!(RestError::NotAllowed.name(), "NotAllowed");
    assert_eq!(RestError::NotPublic.name(), "NotPublic");
    assert_eq!(RestError::PartialContent.name(), "PartialContent");
    assert_eq!(RestError::BadRequest.name(), "BadRequest");
    assert_eq!(RestError::UserDisabled.name(), "BadRequest");

    assert_eq!(RestError::NotFound.status_code(), 404);
    assert_eq!(RestError::Unauthorized.status_code(), 401);
    assert_eq!(RestError::BadRequest.status_code(), 400);
    assert_eq!(RestError::Forbidden.status_code(), 403);
    assert_eq!(RestError::AlreadyExists.status_code(), 422);
    assert_eq!(RestError::NotAllowed.status_code(), 405);
    assert_eq!(RestError::AlreadyPublic.status_code(), 409);
    assert_eq!(RestError::PartialContent.status_code(), 206);
    assert_eq!(RestError::Internal.status_code(), 500);
}

#[test]
fn upload_type_wire_round_trip() {
    assert_eq!(UploadType::File.encode(), 0);
    assert_eq!(UploadType::Url.encode(), 1);
    assert_eq!(UploadType::decode(0), Some(UploadType::File));
    assert_eq!(UploadType::decode(1), Some(UploadType::Url));
    assert_eq!(UploadType::decode(7), None);
}

#[test]
fn attribute_type_wire_round_trip() {
    assert_eq!(AttributeType::Tag.encode(), 1);
    assert_eq!(AttributeType::Group.encode(), 2);
    assert_eq!(AttributeType::decode(1), Some(AttributeType::Tag));
    assert_eq!(AttributeType::decode(2), Some(AttributeType::Group));
    assert_eq!(AttributeType::decode(0), None);
    assert_eq!(AttributeType::decode(3), None);
}

#[test]
fn encryption_validity() {
    assert_eq!(is_encryption_valid(0), None);
    assert_eq!(is_encryption_valid(1), Some(true));
    assert_eq!(is_encryption_valid(2), Some(true));
    assert_eq!(is_encryption_valid(3), Some(false));
    assert_eq!(is_encryption_valid(-1), Some(false));
}

#[test]
fn credentials_emptiness() {
    let full = CredentialsRequest {
        username: "admin".to_string(),
        machine_id: None,
        password: "secret".to_string(),
    };
    assert!(!full.has_empty());
    let missing = CredentialsRequest {
        username: String::new(),
        machine_id: None,
        password: "secret".to_string(),
    };
    assert!(missing.has_empty());
}

#[test]
fn password_hash_is_the_salted_digest() {
    assert_eq!(
        hash_pw("admin", "secret"),
        "f5cbc3b5d2f2faf4015014e6df64f638c95cf1f0c948013d173bbe98ad41e9f9b7a8268f32f76c642327e89b1f523cb61a99aa4d3e353d78fd059338a7f86aae"
    );
    // The hash covers the concatenation: ("a","b") and ("ab","") agree.
    assert_eq!(hash_pw("a", "b"), hash_pw("ab", ""));
    assert_ne!(hash_pw("a", "b"), hash_pw("a", "c"));
}

#[test]
fn sha512_digest_of_parts() {
    assert_eq!(
        sha512(&["a", "b"]),
        "2d408a0717ec188158278a796c689044361dc6fdde28d6f04973b80896e1823975cdbf12eb63f9e0591328ee235d80e9b5bf1aa6a44f4617ff3caf6400eb172d"
    );
}

#[test]
fn random_strings_have_requested_length() {
    assert_eq!(random_string(0).len(), 0);
    assert_eq!(random_string(25).chars().count(), 25);
    let s = random_string(30);
    assert!(s.chars().all(|c| c.is_ascii_alphanumeric()));
}

#[test]
fn like_matching() {
    assert!(ilike("%report%", "Quarterly-REPORT.pdf"));
    assert!(ilike("a_c", "abc"));
    assert!(ilike("abc", "ABC"));
    assert!(!ilike("abc", "abcd"));
    assert!(ilike("%", ""));
    assert!(!ilike("a%", "bca"));
}

#[test]
fn byte_helpers() {
    assert!(bytes_eq(b"abc", b"abc"));
    assert!(!bytes_eq(b"abc", b"abd"));
    assert!(bytes_contains(b"application/pdf and more", b"application/pdf"));
    assert!(!bytes_contains(b"short", b"longer than the haystack"));
    assert!(bytes_contains(b"anything", b""));
}

#[test]
fn boolean_parsing() {
    assert_eq!(parse_bool(&"true".to_string()), Some(true));
    assert_eq!(parse_bool(&"false".to_string()), Some(false));
    assert_eq!(parse_bool(&"True".to_string()), None);
    assert_eq!(parse_bool(&"1".to_string()), None);
}

#[test]
fn stats_count_per_user() {
    let mut cat = Catalog::new();
    CreateNamespace::new("default", 1).create(&mut cat).unwrap();
    CreateNamespace::new("default", 2).create(&mut cat).unwrap();
    let ns1 = cat.namespaces[0].id;
    let scaffold = File {
        name: "a".to_string(),
        user_id: 1,
        namespace_id: ns1,
        local_name: "a".to_string(),
        file_size: 100,
        ..File::default()
    };
    scaffold.create(&mut cat);
    let scaffold = File {
        name: "b".to_string(),
        user_id: 1,
        namespace_id: ns1,
        local_name: "b".to_string(),
        file_size: 23,
        ..File::default()
    };
    scaffold.create(&mut cat);
    NewAttribute::find_and_create(&mut cat, &vec!["t".to_string()], AttributeType::Tag, 1, ns1);
    let me = User { id: 1, username: "u".to_string(), password: String::new(), disabled: false };
    let stats = collect_stats(&cat, &me);
    assert_eq!(stats.files_uploaded, 2);
    assert_eq!(stats.total_filesize, 123);
    assert_eq!(stats.namespaces_count, 1);
    assert_eq!(stats.tag_count, 1);
    assert_eq!(stats.group_count, 0);
}

#[test]
fn publish_and_update_files() {
    let mut cat = Catalog::new();
    CreateNamespace::new("default", 1).create(&mut cat).unwrap();
    let ns_id = cat.namespaces[0].id;
    let scaffold = File {
        name: "doc".to_string(),
        user_id: 1,
        namespace_id: ns_id,
        local_name: "doc-local".to_string(),
        ..File::default()
    };
    let stored = scaffold.create(&mut cat);
    let mut file = stored.clone();
    file.publish(&mut cat, "shared-doc").unwrap();
    assert!(cat.files[0].is_public);
    assert_eq!(cat.files[0].public_filename.as_deref(), Some("shared-doc"));

    // The claimed public name is now taken.
    let scaffold = File {
        name: "doc2".to_string(),
        user_id: 1,
        namespace_id: ns_id,
        local_name: "doc2-local".to_string(),
        ..File::default()
    };
    let mut second = scaffold.create(&mut cat);
    assert_eq!(
        second.publish(&mut cat, "shared-doc").unwrap_err(),
        RestError::AlreadyExists
    );

    let me = Authenticateduser {
        default_ns: None,
        user: User { id: 1, username: "u".to_string(), password: String::new(), disabled: false },
        token: String::new(),
    };
    let update = FileUpdateItem {
        is_public: Some("false".to_string()),
        new_name: Some("renamed".to_string()),
        new_namespace: None,
        remove_tags: None,
        remove_groups: None,
        add_tags: None,
        add_groups: None,
    };
    let changed = dvault::file_action::update_file(&mut cat, &file, &update, &me).unwrap();
    assert!(changed);
    assert_eq!(cat.files[0].name, "renamed");
    assert!(!cat.files[0].is_public);
}

#[test]
fn delete_files_removes_rows_and_reports_storage_names() {
    let mut cat = Catalog::new();
    CreateNamespace::new("default", 1).create(&mut cat).unwrap();
    let ns_id = cat.namespaces[0].id;
    let scaffold = File {
        name: "gone".to_string(),
        user_id: 1,
        namespace_id: ns_id,
        local_name: "gone-local".to_string(),
        ..File::default()
    };
    let stored = scaffold.create(&mut cat);
    let (ids, names) = dvault::file_action::delete_files(&mut cat, &vec![stored.clone()]);
    assert_eq!(ids, vec![stored.id]);
    assert_eq!(names, vec!["gone-local".to_string()]);
    assert!(cat.files.is_empty());
}

#[test]
fn update_public_flag_needs_a_public_name() {
    let mut cat = Catalog::new();
    CreateNamespace::new("default", 1).create(&mut cat).unwrap();
    let ns_id = cat.namespaces[0].id;
    let scaffold = File {
        name: "private".to_string(),
        user_id: 1,
        namespace_id: ns_id,
        local_name: "p".to_string(),
        ..File::default()
    };
    let stored = scaffold.create(&mut cat);
    let me = Authenticateduser {
        default_ns: None,
        user: User { id: 1, username: "u".to_string(), password: String::new(), disabled: false },
        token: String::new(),
    };
    let update = FileUpdateItem {
        is_public: Some("true".to_string()),
        new_name: None,
        new_namespace: None,
        remove_tags: None,
        remove_groups: None,
        add_tags: None,
        add_groups: None,
    };
    assert_eq!(
        dvault::file_action::update_file(&mut cat, &stored, &update, &me).unwrap_err(),
        RestError::NotPublic
    );
    let update = FileUpdateItem {
        is_public: None,
        new_name: None,
        new_namespace: Some("nowhere".to_string()),
        remove_tags: None,
        remove_groups: None,
        add_tags: None,
        add_groups: None,
    };
    assert_eq!(
        dvault::file_action::update_file(&mut cat, &stored, &update, &me).unwrap_err(),
        RestError::NotFound
    );
}

#[test]
fn file_actions_dispatch_and_refuse_unknown() {
    let mut cat = Catalog::new();
    CreateNamespace::new("default", 1).create(&mut cat).unwrap();
    let ns_id = cat.namespaces[0].id;
    let scaffold = File {
        name: "victim".to_string(),
        user_id: 1,
        namespace_id: ns_id,
        local_name: "victim-local".to_string(),
        ..File::default()
    };
    let stored = scaffold.create(&mut cat);
    let me = Authenticateduser {
        default_ns: None,
        user: User { id: 1, username: "u".to_string(), password: String::new(), disabled: false },
        token: String::new(),
    };
    let request = FileRequest {
        file_id: stored.id,
        name: None,
        public_name: None,
        updates: None,
        all: false,
        attributes: FileAttributes { tags: None, groups: None, namespace: "default".to_string() },
    };
    assert_eq!(
        dvault::file_action::run_file_action(&mut cat, &"rename".to_string(), &request, &me)
            .unwrap_err(),
        RestError::NotAllowed
    );
    let picked = dvault::file_action::select_download_file(&cat, &request, &me).unwrap();
    assert_eq!(picked.id, stored.id);
    let (ids, names) =
        dvault::file_action::run_file_action(&mut cat, &"delete".to_string(), &request, &me)
            .unwrap();
    assert_eq!(ids, vec![stored.id]);
    assert_eq!(names, vec!["victim-local".to_string()]);
    assert!(cat.files.is_empty());
}

#[test]
fn publishing_an_already_public_file_is_refused() {
    let mut cat = Catalog::new();
    CreateNamespace::new("default", 1).create(&mut cat).unwrap();
    let ns_id = cat.namespaces[0].id;
    let scaffold = File {
        name: "pub".to_string(),
        user_id: 1,
        namespace_id: ns_id,
        local_name: "pub-local".to_string(),
        ..File::default()
    };
    let stored = scaffold.create(&mut cat);
    let me = Authenticateduser {
        default_ns: None,
        user: User { id: 1, username: "u".to_string(), password: String::new(), disabled: false },
        token: String::new(),
    };
    let request = FileRequest {
        file_id: stored.id,
        name: None,
        public_name: Some("out".to_string()),
        updates: None,
        all: false,
        attributes: FileAttributes { tags: None, groups: None, namespace: "default".to_string() },
    };
    let published = dvault::file_action::publish_file_action(&mut cat, &request, &me).unwrap();
    assert_eq!(published.len(), 1);
    assert_eq!(published[0].public_file_name.as_deref(), Some("out"));
    assert_eq!(
        dvault::file_action::publish_file_action(&mut cat, &request, &me).unwrap_err(),
        RestError::AlreadyPublic
    );
}

#[test]
fn run_file_action_update_renames_the_selected_row() {
    let mut cat = Catalog::new();
    CreateNamespace::new("default", 1).create(&mut cat).unwrap();
    let ns_id = cat.namespaces[0].id;
    let scaffold = File {
        name: "draft".to_string(),
        user_id: 1,
        namespace_id: ns_id,
        local_name: "d".to_string(),
        ..File::default()
    };
    let stored = scaffold.create(&mut cat);
    let me = Authenticateduser {
        default_ns: None,
        user: User { id: 1, username: "u".to_string(), password: String::new(), disabled: false },
        token: String::new(),
    };
    let request = FileRequest {
        file_id: stored.id,
        name: None,
        public_name: None,
        updates: Some(FileUpdateItem {
            is_public: None,
            new_name: Some("final-draft".to_string()),
            new_namespace: None,
            remove_tags: None,
            remove_groups: None,
            add_tags: None,
            add_groups: None,
        }),
        all: false,
        attributes: FileAttributes { tags: None, groups: None, namespace: "default".to_string() },
    };
    let (ids, names) =
        dvault::file_action::run_file_action(&mut cat, &"update".to_string(), &request, &me)
            .unwrap();
    assert_eq!(ids, vec![stored.id]);
    assert!(names.is_empty());
    assert_eq!(cat.files[0].name, "final-draft");

    // A missing target namespace is surfaced as not found; nothing changes.
    let bad = FileRequest {
        file_id: stored.id,
        name: None,
        public_name: None,
        updates: Some(FileUpdateItem {
            is_public: None,
            new_name: None,
            new_namespace: Some("nowhere".to_string()),
            remove_tags: None,
            remove_groups: None,
            add_tags: None,
            add_groups: None,
        }),
        all: false,
        attributes: FileAttributes { tags: None, groups: None, namespace: "default".to_string() },
    };
    assert_eq!(
        dvault::file_action::run_file_action(&mut cat, &"update".to_string(), &bad, &me)
            .unwrap_err(),
        RestError::NotFound
    );
    assert_eq!(cat.files[0].name, "final-draft");
}
