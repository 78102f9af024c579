use dvault::attribute::{AttributeType, NewAttribute};
use dvault::catalog::Catalog;
use dvault::file::File;
use dvault::ingest::Ingestor;
use dvault::namespace::CreateNamespace;
use dvault::requests::{FileAttributes, FileList, OptionalRequestParameter, UploadRequest, UploadType};
use dvault::response_code::RestError;
use dvault::upload::{finish_upload, handle_attributes, select_file};
use dvault::user::{Authenticateduser, User};

fn user(id: i32) -> User {
    User { id, username: format!("user{}", id), password: String::new(), disabled: false }
}

fn session(id: i32) -> Authenticateduser {
    Authenticateduser { default_ns: None, user: user(id), token: "tok".to_string() }
}

fn catalog_with_default(uid: i32) -> Catalog {
    let mut cat = Catalog::new();
    CreateNamespace::new("default", uid).create(&mut cat).unwrap();
    cat
}

fn upload_request(name: &str) -> UploadRequest {
    UploadRequest {
        upload_type: UploadType::File,
        name: name.to_string(),
        url: None,
        public: None,
        public_name: None,
        encryption: None,
        compressed: None,
        archived: None,
        replace_file_by_id: None,
        replace_equal_names: false,
        all: false,
        attributes: None,
    }
}

/// Runs the full upload path: resolve the target row, ingest the
/// transmission, and record the result.
fn run_upload(
    cat: &mut Catalog,
    request: &UploadRequest,
    me: &Authenticateduser,
    transmission: &[u8],
) -> Result<dvault::response::UploadResponse, RestError> {
    request.validate(me)?;
    let (file, namespace) = select_file(request, cat, me.clone())?;
    let mut ing = Ingestor::new();
    let mut stored: Vec<u8> = Vec::new();
    for part in transmission.chunks(7) {
        stored.extend_from_slice(&ing.process_chunk(part));
    }
    let (crc, size, mime) = ing.finish()?;
    Ok(finish_upload(cat, file, &namespace, request, me, crc, size, mime))
}

#[test]
fn upload_creates_new_file_with_size_and_checksum() {
    let mut cat = catalog_with_default(1);
    let me = session(1);
    let mut request = upload_request("report.txt");
    request.replace_equal_names = true;
    let mut transmission = b"hello vault".to_vec();
    transmission.extend_from_slice(b"c80d49e7");
    let response = run_upload(&mut cat, &request, &me, &transmission).unwrap();
    assert_eq!(response.file_size, 11);
    assert_eq!(response.checksum, "c80d49e7");
    assert_eq!(response.file_name, "report.txt");
    assert_eq!(response.namespace, "default");
    assert_eq!(cat.files.len(), 1);
    assert_eq!(cat.files[0].checksum, "c80d49e7");
    assert_eq!(cat.files[0].file_size, 11);
}

#[test]
fn replace_equal_names_updates_the_single_match() {
    let mut cat = catalog_with_default(1);
    let me = session(1);
    let mut request = upload_request("notes");
    request.replace_equal_names = true;
    // crc32("one") == 7a6c86f1
    let mut first = b"one".to_vec();
    first.extend_from_slice(b"7a6c86f1");
    run_upload(&mut cat, &request, &me, &first).unwrap();
    assert_eq!(cat.files.len(), 1);
    let first_id = cat.files[0].id;
    // crc32("second") == b61f1169
    let mut second = b"second".to_vec();
    second.extend_from_slice(b"b61f1169");
    let response = run_upload(&mut cat, &request, &me, &second).unwrap();
    assert_eq!(cat.files.len(), 1);
    assert_eq!(response.file_id, first_id);
    assert_eq!(cat.files[0].file_size, 6);
}

#[test]
fn two_matches_refuse_replacement_and_mutate_nothing() {
    let mut cat = catalog_with_default(1);
    let me = session(1);
    let ns_id = cat.namespaces[0].id;
    for _ in 0..2 {
        let scaffold = File {
            name: "x".to_string(),
            user_id: 1,
            namespace_id: ns_id,
            local_name: "l".to_string(),
            ..File::default()
        };
        scaffold.create(&mut cat);
    }
    let files_before: Vec<(i32, String)> =
        cat.files.iter().map(|f| (f.id, f.checksum.clone())).collect();
    let mut request = upload_request("x");
    request.replace_equal_names = true;
    let err = select_file(&request, &cat, me).unwrap_err();
    assert_eq!(err, RestError::MultipleFilesMatch);
    let files_after: Vec<(i32, String)> =
        cat.files.iter().map(|f| (f.id, f.checksum.clone())).collect();
    assert_eq!(files_before, files_after);
}

#[test]
fn contradictory_replace_flags_are_illegal() {
    let me = session(1);
    let mut request = upload_request("a");
    request.replace_equal_names = true;
    request.replace_file_by_id = Some(3);
    assert_eq!(request.validate(&me).unwrap_err(), RestError::IllegalOperation);
    let mut request = upload_request("a");
    request.encryption = Some(9);
    assert_eq!(request.validate(&me).unwrap_err(), RestError::IllegalOperation);
}

#[test]
fn search_by_tag_returns_only_tagged_files_with_full_attributes() {
    let mut cat = catalog_with_default(1);
    let ns_id = cat.namespaces[0].id;

    let mut mk = |name: &str| -> File {
        let scaffold = File {
            name: name.to_string(),
            user_id: 1,
            namespace_id: ns_id,
            local_name: name.to_string(),
            ..File::default()
        };
        scaffold.create(&mut cat)
    };
    let tagged = mk("a.txt");
    let other = mk("b.txt");

    let work = NewAttribute::find_and_create(
        &mut cat,
        &vec!["work".to_string()],
        AttributeType::Tag,
        1,
        ns_id,
    );
    let team = NewAttribute::find_and_create(
        &mut cat,
        &vec!["team".to_string()],
        AttributeType::Group,
        1,
        ns_id,
    );
    tagged.add_attributes(&mut cat, work.clone());
    tagged.add_attributes(&mut cat, team);
    let play = NewAttribute::find_and_create(
        &mut cat,
        &vec!["play".to_string()],
        AttributeType::Tag,
        1,
        ns_id,
    );
    other.add_attributes(&mut cat, play);

    let filter = FileList {
        file_id: 0,
        name: String::new(),
        all_namespaces: false,
        attributes: FileAttributes {
            tags: Some(vec!["work".to_string()]),
            groups: None,
            namespace: "default".to_string(),
        },
        optional: OptionalRequestParameter { verbose: 0 },
    };
    let results = File::search(&cat, &filter, &user(1)).unwrap();
    assert_eq!(results.len(), 1);
    let (file, namespace, attrs) = &results[0];
    assert_eq!(file.id, tagged.id);
    assert_eq!(namespace.name, "default");
    let mut names: Vec<String> = attrs.iter().map(|a| a.name.clone()).collect();
    names.sort();
    assert_eq!(names, vec!["team".to_string(), "work".to_string()]);

    // A search with no attribute filter returns both files.
    let all = FileList {
        file_id: 0,
        name: String::new(),
        all_namespaces: false,
        attributes: FileAttributes {
            tags: None,
            groups: None,
            namespace: "default".to_string(),
        },
        optional: OptionalRequestParameter { verbose: 0 },
    };
    assert_eq!(File::search(&cat, &all, &user(1)).unwrap().len(), 2);

    // A tag name with no attribute behind it is surfaced as not found.
    let missing = FileList {
        file_id: 0,
        name: String::new(),
        all_namespaces: false,
        attributes: FileAttributes {
            tags: Some(vec!["nothing".to_string()]),
            groups: None,
            namespace: "default".to_string(),
        },
        optional: OptionalRequestParameter { verbose: 0 },
    };
    assert!(File::search(&cat, &missing, &user(1)).is_err());
}

#[test]
fn search_name_pattern_is_case_insensitive() {
    let mut cat = catalog_with_default(1);
    let ns_id = cat.namespaces[0].id;
    let scaffold = File {
        name: "Quarterly-Report.pdf".to_string(),
        user_id: 1,
        namespace_id: ns_id,
        local_name: "q".to_string(),
        ..File::default()
    };
    scaffold.create(&mut cat);
    let filter = FileList {
        file_id: 0,
        name: "%report%".to_string(),
        all_namespaces: false,
        attributes: FileAttributes {
            tags: None,
            groups: None,
            namespace: "default".to_string(),
        },
        optional: OptionalRequestParameter { verbose: 0 },
    };
    assert_eq!(File::search(&cat, &filter, &user(1)).unwrap().len(), 1);
}

#[test]
fn upload_attaches_requested_attributes() {
    let mut cat = catalog_with_default(1);
    let me = session(1);
    let ns = cat.namespaces[0].clone();
    let mut request = upload_request("tagged.bin");
    request.attributes = Some(FileAttributes {
        tags: Some(vec!["work".to_string()]),
        groups: Some(vec!["team".to_string()]),
        namespace: "default".to_string(),
    });
    let file = File {
        name: "tagged.bin".to_string(),
        user_id: 1,
        namespace_id: ns.id,
        local_name: "t".to_string(),
        ..File::default()
    };
    let stored = file.create(&mut cat);
    handle_attributes(&mut cat, &request, &stored, &me, &ns);
    assert_eq!(cat.attributes.len(), 2);
    assert_eq!(cat.file_attributes.len(), 2);
}

#[test]
fn listing_splits_tags_and_groups_per_record() {
    let mut cat = catalog_with_default(1);
    let ns_id = cat.namespaces[0].id;
    let scaffold = File {
        name: "mixed".to_string(),
        user_id: 1,
        namespace_id: ns_id,
        local_name: "m".to_string(),
        ..File::default()
    };
    let stored = scaffold.create(&mut cat);
    let work = NewAttribute::find_and_create(
        &mut cat,
        &vec!["work".to_string()],
        AttributeType::Tag,
        1,
        ns_id,
    );
    let team = NewAttribute::find_and_create(
        &mut cat,
        &vec!["team".to_string()],
        AttributeType::Group,
        1,
        ns_id,
    );
    stored.add_attributes(&mut cat, work);
    stored.add_attributes(&mut cat, team);
    let filter = FileList {
        file_id: 0,
        name: String::new(),
        all_namespaces: false,
        attributes: FileAttributes {
            tags: None,
            groups: None,
            namespace: "default".to_string(),
        },
        optional: OptionalRequestParameter { verbose: 0 },
    };
    let results = File::search(&cat, &filter, &user(1)).unwrap();
    let listing = dvault::list_file::build_file_list(results);
    assert_eq!(listing.files.len(), 1);
    let item = &listing.files[0];
    assert_eq!(item.name, "mixed");
    assert_eq!(item.attributes.namespace, "default");
    assert_eq!(item.attributes.tags.as_deref(), Some(&["work".to_string()][..]));
    assert_eq!(item.attributes.groups.as_deref(), Some(&["team".to_string()][..]));
}
