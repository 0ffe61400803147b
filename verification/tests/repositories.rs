use template_repo::action::{list, repository_to_open, template_name_taken, Action, RepositoryRequest};
use template_repo::config::{Config, RepoOptions};
use template_repo::context::Context;
use template_repo::input::is_yes;
use template_repo::default_repository::{DefaultRepository, RunError};
use template_repo::repository::{get_repositories, Repository, RepositoryError, TemplateDir};
use template_repo::template::{Meta, Template};

fn config(names: &[&str]) -> Config {
    Config {
        templates_dir: "/t".to_string(),
        repositories: names
            .iter()
            .map(|n| RepoOptions { name: n.to_string(), url: format!("https://x/{}", n), enabled: true })
            .collect(),
    }
}

fn template_dir(name: &str) -> TemplateDir {
    TemplateDir {
        path: format!("/t/{}", name),
        file_name: name.to_string(),
        is_dir: true,
        meta: Some(Meta {
            kind: Some("template".to_string()),
            name: None,
            description: Some("d".to_string()),
            scripts: None,
            extend: None,
            exclude: None,
        }),
    }
}

#[test]
fn config_lists_and_finds_repositories() {
    let c = config(&["one", "two", "one"]);
    assert_eq!(c.get_repositories(), vec!["one".to_string(), "two".to_string(), "one".to_string()]);
    assert_eq!(c.get_repository_config("two").unwrap().url, "https://x/two");
    assert!(c.get_repository_config("three").is_none());
}

#[test]
fn named_repository_is_opened() {
    let a = Action::new(config(&["one"]));
    match a.get_repository(Some("other")) {
        RepositoryRequest::Open(n) => assert_eq!(n, "other"),
        _ => panic!("expected to open"),
    }
}

#[test]
fn unnamed_repository_is_chosen_from_configuration() {
    let a = Action::new(config(&["one", "two"]));
    match a.get_repository(None) {
        RepositoryRequest::Choose(names) => assert_eq!(names, vec!["one".to_string(), "two".to_string()]),
        _ => panic!("expected a choice"),
    }
    let a = Action::new(config(&[]));
    assert!(matches!(a.get_repository(None), RepositoryRequest::NoRepositories));
}

#[test]
fn list_names_templates_of_an_opened_repository() {
    let mut r = Repository::new(&config(&["one"]), "one");
    r.load_templates(Some(vec![template_dir("B"), template_dir("a")]));
    assert_eq!(list(Ok(r)), Some(vec!["b".to_string(), "a".to_string()]));
    assert_eq!(list(Err(RepositoryError::InitializationError)), None);
}

#[test]
fn context_keeps_its_flags() {
    let c = Context::new(true, false, true);
    assert!(c.yes && !c.no_script && c.verbose);
    let c = Context::new(false, true, false);
    assert!(!c.yes && c.no_script && !c.verbose);
}

#[test]
fn default_repository_needs_a_listing() {
    let missing = std::io::Error::new(std::io::ErrorKind::NotFound, "no such directory");
    match DefaultRepository::new(&config(&[]), Err(missing)) {
        Err(RunError::Io(e)) => {
            assert_eq!(e.kind(), std::io::ErrorKind::NotFound);
            assert_eq!(e.to_string(), "no such directory");
        }
        _ => panic!("expected the listing's error"),
    }
    let mut bad = template_dir("skipped");
    bad.meta = None;
    let r = DefaultRepository::new(&config(&[]), Ok(vec![template_dir("Web"), bad])).ok().unwrap();
    assert_eq!(r.directory, "/t");
    assert_eq!(r.templates.len(), 1);
    assert_eq!(r.templates[0].name, "web");
}

#[test]
fn default_repository_describes_itself() {
    let r = DefaultRepository::new(&config(&[]), Ok(vec![])).ok().unwrap();
    let o = r.get_config();
    assert_eq!(o.name, "Templates");
    assert_eq!(o.description.as_deref(), Some("Mono repository templates"));
}

#[test]
fn default_repository_names_and_lookup() {
    let mut r = DefaultRepository::new(&config(&[]), Ok(vec![template_dir("x")])).ok().unwrap();
    r.templates.push(Template {
        name: "MiXed".to_string(),
        path: "/t/m".to_string(),
        description: None,
        scripts: None,
        extend: None,
        exclude: None,
    });
    assert_eq!(r.get_template_names(), vec!["x".to_string(), "mixed".to_string()]);
    assert_eq!(r.get_template_by_name("MiXed").ok().unwrap().path, "/t/m");
    match r.get_template_by_name("mixed") {
        Err(RunError::Template(m)) => assert_eq!(m, "Not found"),
        _ => panic!("expected not found"),
    }
}

#[test]
fn repositories_are_decoded_from_directory_names() {
    let entries = vec![
        ("bXktcmVwbw==".to_string(), true),
        ("file.txt".to_string(), false),
        ("//5vaw==".to_string(), true),
    ];
    let names = get_repositories(&entries).unwrap();
    assert_eq!(names, vec!["my-repo".to_string(), "\u{FFFD}\u{FFFD}ok".to_string()]);
}

#[test]
fn undecodable_repository_directory_fails() {
    let entries = vec![("bXktcmVwbw==".to_string(), true), ("Pz8_".to_string(), true)];
    assert!(get_repositories(&entries).is_none());
    let entries = vec![("Pz8_".to_string(), false)];
    assert_eq!(get_repositories(&entries), Some(vec![]));
}

#[test]
fn new_template_goes_to_named_repository_lowercased() {
    match repository_to_open(&config(&["one"]), Some("MyRepo")) {
        RepositoryRequest::Open(n) => assert_eq!(n, "myrepo"),
        _ => panic!("expected to open"),
    }
    match repository_to_open(&config(&["one", "two"]), None) {
        RepositoryRequest::Choose(names) => assert_eq!(names, vec!["one".to_string(), "two".to_string()]),
        _ => panic!("expected a choice"),
    }
    assert!(matches!(repository_to_open(&config(&[]), None), RepositoryRequest::NoRepositories));
}

#[test]
fn taken_template_names_are_refused() {
    let mut r = Repository::new(&config(&["one"]), "one");
    r.load_templates(Some(vec![template_dir("Web"), template_dir("cli")]));
    assert!(template_name_taken(&r, "web"));
    assert!(template_name_taken(&r, "cli"));
    assert!(!template_name_taken(&r, "Web"));
    assert!(!template_name_taken(&r, "api"));
}

#[test]
fn only_y_confirms() {
    assert!(is_yes("Y"));
    assert!(is_yes("y"));
    assert!(!is_yes("yes"));
    assert!(!is_yes("n"));
    assert!(!is_yes(""));
}
