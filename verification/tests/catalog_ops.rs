use dvault::attribute::{AttributeType, NewAttribute};
use dvault::catalog::Catalog;
use dvault::namespace::{CreateNamespace, Namespace};
use dvault::requests::NamespaceRequest;
use dvault::response_code::RestError;
use dvault::user::{Authenticateduser, User};

fn user(id: i32) -> User {
    User { id, username: format!("user{}", id), password: String::new(), disabled: false }
}

fn session(id: i32) -> Authenticateduser {
    Authenticateduser { default_ns: None, user: user(id), token: "tok".to_string() }
}

fn catalog_with_default(uid: i32) -> Catalog {
    let mut cat = Catalog::new();
    CreateNamespace::new("default", uid).create(&mut cat).unwrap();
    cat
}

#[test]
fn find_and_create_is_idempotent() {
    let mut cat = catalog_with_default(1);
    let ns = cat.namespaces[0].clone();
    let names = vec!["work".to_string()];
    let first = NewAttribute::find_and_create(&mut cat, &names, AttributeType::Tag, 1, ns.id);
    let second = NewAttribute::find_and_create(&mut cat, &names, AttributeType::Tag, 1, ns.id);
    assert_eq!(first.len(), 1);
    assert_eq!(second.len(), 1);
    assert_eq!(first[0].id, second[0].id);
    // No duplicate rows exist after the equivalent sequential calls.
    let rows = cat.attributes.iter().filter(|a| a.name == "work").count();
    assert_eq!(rows, 1);
}

#[test]
fn create_attribute_refuses_taken_key() {
    let mut cat = catalog_with_default(1);
    let ns_id = cat.namespaces[0].id;
    let attr = NewAttribute::new("work", AttributeType::Tag, 1, ns_id);
    attr.create(&mut cat).unwrap();
    assert_eq!(attr.create(&mut cat).unwrap_err(), RestError::AlreadyExists);
    // The same name is free for the other kind and for another namespace.
    let group = NewAttribute::new("work", AttributeType::Group, 1, ns_id);
    assert!(group.create(&mut cat).is_ok());
}

#[test]
fn deleting_last_association_removes_attribute() {
    let mut cat = catalog_with_default(1);
    let ns_id = cat.namespaces[0].id;
    let names = vec!["tmp".to_string()];
    let attrs = NewAttribute::find_and_create(&mut cat, &names, AttributeType::Tag, 1, ns_id);
    let aid = attrs[0].id;
    dvault::associations::add_atttributes(&mut cat, 41, &attrs);
    dvault::associations::add_atttributes(&mut cat, 42, &attrs);
    dvault::associations::delete_association(&mut cat, 41, aid);
    // Still paired with file 42: the attribute survives.
    assert!(cat.attributes.iter().any(|a| a.id == aid));
    dvault::associations::delete_association(&mut cat, 42, aid);
    // That was the last pairing: the attribute is gone.
    assert!(!cat.attributes.iter().any(|a| a.id == aid));
}

#[test]
fn duplicate_pairings_are_never_recorded() {
    let mut cat = catalog_with_default(1);
    let ns_id = cat.namespaces[0].id;
    let names = vec!["dup".to_string()];
    let attrs = NewAttribute::find_and_create(&mut cat, &names, AttributeType::Tag, 1, ns_id);
    dvault::associations::add_atttributes(&mut cat, 7, &attrs);
    dvault::associations::add_atttributes(&mut cat, 7, &attrs);
    let pairs = cat
        .file_attributes
        .iter()
        .filter(|fa| fa.file_id == 7 && fa.attribute_id == attrs[0].id)
        .count();
    assert_eq!(pairs, 1);
}

#[test]
fn deleting_default_namespace_is_illegal_and_touches_nothing() {
    let mut cat = catalog_with_default(1);
    let before_ns = cat.namespaces.len();
    let before_files = cat.files.len();
    let req = NamespaceRequest { name: "default".to_string(), new_name: None };
    let err = dvault::namespace_actions::delete_namespace(&mut cat, &req, &session(1));
    assert_eq!(err.unwrap_err(), RestError::IllegalOperation);
    assert_eq!(cat.namespaces.len(), before_ns);
    assert_eq!(cat.files.len(), before_files);
    // Case variations of the default name are refused as well.
    let req = NamespaceRequest { name: "Default".to_string(), new_name: None };
    let err = dvault::namespace_actions::delete_namespace(&mut cat, &req, &session(1));
    assert_eq!(err.unwrap_err(), RestError::IllegalOperation);
    assert_eq!(cat.namespaces.len(), before_ns);
}

#[test]
fn namespace_create_list_rename_delete() {
    let mut cat = catalog_with_default(1);
    let me = session(1);
    let req = NamespaceRequest { name: "projects".to_string(), new_name: None };
    dvault::namespace_actions::create_namespace(&mut cat, &req, &me).unwrap();
    assert_eq!(
        dvault::namespace_actions::create_namespace(&mut cat, &req, &me).unwrap_err(),
        RestError::AlreadyExists
    );
    let names = dvault::namespace_actions::list_namespaces(&cat, &me);
    assert_eq!(names, vec!["default".to_string(), "projects".to_string()]);

    let rename = NamespaceRequest {
        name: "projects".to_string(),
        new_name: Some("archive".to_string()),
    };
    dvault::namespace_actions::rename_namespace(&mut cat, &rename, &me).unwrap();
    let names = dvault::namespace_actions::list_namespaces(&cat, &me);
    assert_eq!(names, vec!["default".to_string(), "archive".to_string()]);

    let missing = NamespaceRequest { name: "projects".to_string(), new_name: None };
    assert!(matches!(
        dvault::namespace_actions::delete_namespace(&mut cat, &missing, &me),
        Err(RestError::DNotFound(_))
    ));
    let del = NamespaceRequest { name: "archive".to_string(), new_name: None };
    dvault::namespace_actions::delete_namespace(&mut cat, &del, &me).unwrap();
    let names = dvault::namespace_actions::list_namespaces(&cat, &me);
    assert_eq!(names, vec!["default".to_string()]);
}

#[test]
fn rename_to_taken_name_is_refused() {
    let mut cat = catalog_with_default(1);
    let me = session(1);
    let req = NamespaceRequest { name: "projects".to_string(), new_name: None };
    dvault::namespace_actions::create_namespace(&mut cat, &req, &me).unwrap();
    let rename = NamespaceRequest {
        name: "projects".to_string(),
        new_name: Some("default2".to_string()),
    };
    dvault::namespace_actions::rename_namespace(&mut cat, &rename, &me).unwrap();
    let back = NamespaceRequest {
        name: "default2".to_string(),
        new_name: Some("default2".to_string()),
    };
    assert_eq!(
        dvault::namespace_actions::rename_namespace(&mut cat, &back, &me).unwrap_err(),
        RestError::BadRequest
    );
}

#[test]
fn attribute_actions_run_create_and_delete() {
    let mut cat = catalog_with_default(1);
    let ns = cat.namespaces[0].clone();
    let me = session(1);
    let request = dvault::requests::UpdateAttribute {
        name: "todo".to_string(),
        new_name: String::new(),
        namespace: "default".to_string(),
    };
    let data = dvault::attribute_actions::RequestData {
        action: "create".to_string(),
        attr_type: AttributeType::Group,
        namespace: ns.clone(),
        request: request.clone(),
        user: me.clone(),
    };
    data.run_action(&mut cat).unwrap();
    assert!(cat.attributes.iter().any(|a| a.name == "todo"));
    let data = dvault::attribute_actions::RequestData {
        action: "delete".to_string(),
        attr_type: AttributeType::Group,
        namespace: ns,
        request,
        user: me,
    };
    data.run_action(&mut cat).unwrap();
    assert!(!cat.attributes.iter().any(|a| a.name == "todo"));
}

#[test]
fn attribute_action_validation() {
    assert!(dvault::attribute_actions::validate_action("update").is_ok());
    assert!(dvault::attribute_actions::validate_action("delete").is_ok());
    assert!(dvault::attribute_actions::validate_action("create").is_ok());
    assert_eq!(
        dvault::attribute_actions::validate_action("rename").unwrap_err(),
        RestError::BadRequest
    );
    let request = dvault::requests::UpdateAttribute {
        name: "a".to_string(),
        new_name: String::new(),
        namespace: "default".to_string(),
    };
    assert_eq!(
        dvault::attribute_actions::validate_request("update", &request).unwrap_err(),
        RestError::BadRequest
    );
    assert!(dvault::attribute_actions::validate_request("delete", &request).is_ok());
    assert!(matches!(
        dvault::attribute_actions::to_attribute("TAG".to_string()),
        Ok(AttributeType::Tag)
    ));
    assert!(matches!(
        dvault::attribute_actions::to_attribute("group".to_string()),
        Ok(AttributeType::Group)
    ));
    assert!(dvault::attribute_actions::to_attribute("other".to_string()).is_err());
}

#[test]
fn default_namespace_helpers() {
    assert!(Namespace::is_default_name("default"));
    assert!(Namespace::is_default_name("DEFAULT"));
    assert!(!Namespace::is_default_name("standard"));
    let ns = Namespace { id: 1, name: "Default".to_string(), user_id: 1 };
    assert!(ns.is_default());
}

#[test]
fn attribute_rename_is_exact_and_guarded() {
    let mut cat = catalog_with_default(1);
    let ns = cat.namespaces[0].clone();
    let me = session(1);
    for name in ["old", "taken"] {
        NewAttribute::new(name, AttributeType::Tag, 1, ns.id).create(&mut cat).unwrap();
    }
    let rename = |name: &str, new_name: &str| dvault::attribute_actions::RequestData {
        action: "update".to_string(),
        attr_type: AttributeType::Tag,
        namespace: ns.clone(),
        request: dvault::requests::UpdateAttribute {
            name: name.to_string(),
            new_name: new_name.to_string(),
            namespace: "default".to_string(),
        },
        user: me.clone(),
    };
    // Renaming onto a taken key is refused; nothing changes.
    assert_eq!(
        rename("old", "taken").run_action(&mut cat).unwrap_err(),
        RestError::AlreadyExists
    );
    assert!(cat.attributes.iter().any(|a| a.name == "old"));
    // A missing attribute is not found.
    assert!(matches!(
        rename("ghost", "anything").run_action(&mut cat),
        Err(RestError::DNotFound(_))
    ));
    // A fresh name succeeds and moves exactly that row.
    let old_id = cat.attributes.iter().find(|a| a.name == "old").unwrap().id;
    rename("old", "fresh").run_action(&mut cat).unwrap();
    let renamed = cat.attributes.iter().find(|a| a.name == "fresh").unwrap();
    assert_eq!(renamed.id, old_id);
    assert!(!cat.attributes.iter().any(|a| a.name == "old"));
    assert!(cat.attributes.iter().any(|a| a.name == "taken"));
}

#[test]
fn model_level_delete_refuses_default_in_any_case() {
    // The action layer refuses creating case-variants of "default", but a
    // hand-built row must still be protected at the model layer.
    let mut cat = Catalog::new();
    CreateNamespace::new("Default", 1).create(&mut cat).unwrap();
    let ns = cat.namespaces[0].clone();
    assert_eq!(ns.delete(&mut cat).unwrap_err(), RestError::IllegalOperation);
    assert_eq!(cat.namespaces.len(), 1);
}
