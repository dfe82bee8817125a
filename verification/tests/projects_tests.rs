use storytell::projects::{Project, ProjectMetadata, Projects};

fn project(id: &str, name: &str) -> Project {
    Project {
        metadata: ProjectMetadata { name: name.to_string(), description: String::new(), id: id.to_string() },
        directory: format!("/docs/Storytell/{}", id),
        files_directory: format!("/docs/Storytell/{}/./content", id),
    }
}

#[test]
fn projects_are_kept_by_id() {
    let projects = Projects::new(
        "/docs/Storytell".to_string(),
        vec![project("a", "First"), project("b", "Second"), project("a", "Again")],
    );
    assert_eq!(projects.projects.len(), 2);
    assert_eq!(projects.get("a").unwrap().metadata.name, "Again");
    assert_eq!(projects.get("b").unwrap().metadata.name, "Second");
    assert!(projects.get("c").is_none());
}

#[test]
fn create_project_makes_a_new_id() {
    let mut projects = Projects::new("/docs/Storytell".to_string(), vec![]);
    let id = projects.create_project("Tale".to_string(), "A tale".to_string()).unwrap();
    assert!(!id.is_empty());
    let made = projects.get(&id).unwrap();
    assert_eq!(made.metadata.name, "Tale");
    assert_eq!(made.metadata.description, "A tale");
    assert_eq!(made.directory, format!("/docs/Storytell/{}", id));
    assert_eq!(made.files_directory, format!("/docs/Storytell/{}/./content", id));
    let other = projects.create_project("Tale".to_string(), String::new()).unwrap();
    assert_ne!(other, id);
    assert_eq!(projects.projects.len(), 2);
}

#[test]
fn create_project_refuses_a_name_that_is_an_id() {
    let mut projects = Projects::new("/docs/Storytell".to_string(), vec![project("taken", "X")]);
    assert!(projects.create_project("taken".to_string(), String::new()).is_none());
    assert_eq!(projects.projects.len(), 1);
}

#[test]
fn update_and_delete_projects() {
    let mut projects = Projects::new("/docs/Storytell".to_string(), vec![project("a", "First")]);
    assert!(projects.update_project("a".to_string(), "Renamed".to_string(), "New".to_string()).is_some());
    assert_eq!(projects.get("a").unwrap().metadata.name, "Renamed");
    assert_eq!(projects.get("a").unwrap().metadata.description, "New");
    assert!(projects.update_project("z".to_string(), "x".to_string(), "y".to_string()).is_none());
    let removed = projects.delete_project("a").unwrap();
    assert_eq!(removed.directory, "/docs/Storytell/a");
    assert!(projects.get("a").is_none());
    assert!(projects.delete_project("a").is_none());
}
