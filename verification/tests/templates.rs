use template_repo::config::{Config, RepoOptions};
use template_repo::repository::{Repository, TemplateDir};
use template_repo::template::{
    is_excluded, replace_placeholders, CopyStep, EntryAction, Meta, Options, Origin, Scripts,
    Template, TemplateError,
};
use template_repo::text::{replace, str_eq};

fn meta(kind: Option<&str>, name: Option<&str>) -> Meta {
    Meta {
        kind: kind.map(|s| s.to_string()),
        name: name.map(|s| s.to_string()),
        description: None,
        scripts: None,
        extend: None,
        exclude: None,
    }
}

fn template(name: &str, extend: Option<Vec<&str>>, script: Option<&str>) -> Template {
    Template {
        name: name.to_string(),
        path: format!("/repo/{}", name),
        description: None,
        scripts: script.map(|s| Scripts { before_install: Some(s.to_string()) }),
        extend: extend.map(|v| v.into_iter().map(|s| s.to_string()).collect()),
        exclude: None,
    }
}

fn repository(templates: Vec<Template>) -> Repository {
    Repository {
        directory: "/templates/x".to_string(),
        config: RepoOptions { name: "x".to_string(), url: "x".to_string(), enabled: false },
        templates,
    }
}

fn options() -> Options {
    Options {
        name: "demo".to_string(),
        repository: Some("github.com/me/demo".to_string()),
        username: None,
        email: Some("me@example.com".to_string()),
        replace: false,
    }
}

#[test]
fn replace_takes_occurrences_from_the_left() {
    assert_eq!(replace("a{{x}}b{{x}}", "{{x}}", "Y"), "aYbY");
    assert_eq!(replace("aaa", "aa", "b"), "ba");
    assert_eq!(replace("no match", "zz", "q"), "no match");
    assert_eq!(replace("ünï{{x}}çødé", "{{x}}", "→"), "ünï→çødé");
    assert_eq!(replace("", "x", "y"), "");
    assert_eq!(replace("ab", "", "-"), "-a-b-");
    assert_eq!(replace("", "", "-"), "-");
}

#[test]
fn replace_agrees_with_std() {
    let cases = [
        ("{{{{name}}name}}", "{{name}}", ""),
        ("xxxx", "xx", "x"),
        ("abcabc", "bc", "BCBC"),
        ("ab", "", "-"),
        ("", "", "-"),
        ("", "a", "-"),
        ("ü€", "", "|"),
    ];
    for (data, pat, rep) in cases {
        assert_eq!(replace(data, pat, rep), data.replace(pat, rep));
    }
}

#[test]
fn str_eq_compares_characters() {
    assert!(str_eq("abc", "abc"));
    assert!(!str_eq("abc", "abd"));
    assert!(!str_eq("abc", "ab"));
    assert!(str_eq("", ""));
}

#[test]
fn placeholders_are_filled_where_given() {
    let data = "{{name}} by {{username}} <{{email}}> at {{repository}}; {{name}}";
    assert_eq!(
        replace_placeholders(data, &options()),
        "demo by {{username}} <me@example.com> at github.com/me/demo; demo"
    );
}

#[test]
fn text_without_placeholders_is_unchanged() {
    assert_eq!(replace_placeholders("plain { text }", &options()), "plain { text }");
}

#[test]
fn meta_file_and_listed_files_are_excluded() {
    assert!(is_excluded("meta.json", &None));
    assert!(!is_excluded("main.rs", &None));
    let exclude = Some(vec!["README.md".to_string(), "LICENSE".to_string()]);
    assert!(is_excluded("LICENSE", &exclude));
    assert!(is_excluded("meta.json", &exclude));
    assert!(!is_excluded("license", &exclude));
}

#[test]
fn template_needs_template_kind() {
    let r = Template::new("/r/a".to_string(), "a", meta(Some("repository"), None));
    assert!(matches!(r, Err(TemplateError::InitializeTemplate)));
    let r = Template::new("/r/a".to_string(), "a", meta(None, Some("A")));
    assert!(matches!(r, Err(TemplateError::InitializeTemplate)));
}

#[test]
fn template_name_is_lowercased() {
    let t = Template::new("/r/Dir".to_string(), "Dir", meta(Some("template"), Some("My Template")))
        .ok()
        .unwrap();
    assert_eq!(t.name, "my template");
    assert_eq!(t.path, "/r/Dir");
    let t = Template::new("/r/RustLib".to_string(), "RustLib", meta(Some("template"), None))
        .ok()
        .unwrap();
    assert_eq!(t.name, "rustlib");
}

#[test]
fn copy_without_extensions_copies_own_folder() {
    let repo = repository(vec![]);
    let t = template("solo", None, None);
    let steps = t.copy(&repo);
    assert_eq!(steps.len(), 1);
    assert!(matches!(steps[0], CopyStep::CopyFolder(Origin::This)));
}

#[test]
fn copy_runs_supers_first_then_script_then_own_folder() {
    let repo = repository(vec![
        template("base", None, Some("echo base")),
        template("lib", Some(vec!["base"]), None),
        template("ci", None, None),
    ]);
    let t = template("app", Some(vec!["lib", "ci"]), Some("make"));
    let steps = t.copy(&repo);
    assert_eq!(steps.len(), 6);
    assert!(matches!(steps[0], CopyStep::RunScript(Origin::Repository(0))));
    assert!(matches!(steps[1], CopyStep::CopyFolder(Origin::Repository(0))));
    assert!(matches!(steps[2], CopyStep::CopyFolder(Origin::Repository(1))));
    assert!(matches!(steps[3], CopyStep::CopyFolder(Origin::Repository(2))));
    assert!(matches!(steps[4], CopyStep::RunScript(Origin::This)));
    assert!(matches!(steps[5], CopyStep::CopyFolder(Origin::This)));
}

#[test]
fn copy_stops_at_missing_super() {
    let repo = repository(vec![template("base", None, None)]);
    let t = template("app", Some(vec!["base", "nowhere", "base"]), None);
    let steps = t.copy(&repo);
    assert_eq!(steps.len(), 2);
    assert!(matches!(steps[0], CopyStep::CopyFolder(Origin::Repository(0))));
    match &steps[1] {
        CopyStep::MissingTemplate(name) => assert_eq!(name, "nowhere"),
        _ => panic!("expected a missing template"),
    }
}

#[test]
fn copy_stops_on_cycle() {
    let repo = repository(vec![template("a", Some(vec!["b"]), None), template("b", Some(vec!["a"]), None)]);
    let t = template("a", Some(vec!["b"]), None);
    let steps = t.copy(&repo);
    assert!(matches!(steps.last(), Some(CopyStep::TooDeep)));
}

#[test]
fn folder_entries_are_created_skipped_or_written() {
    let mut t = template("app", None, None);
    t.exclude = Some(vec!["secret.txt".to_string()]);
    let opts = options();
    match t.copy_folder_entry("src", "/out/{{name}}-src", true, &opts) {
        EntryAction::CreateDir(p) => assert_eq!(p, "/out/demo-src"),
        _ => panic!("expected a directory"),
    }
    assert!(matches!(t.copy_folder_entry("secret.txt", "/out/secret.txt", false, &opts), EntryAction::Skip));
    assert!(matches!(t.copy_folder_entry("meta.json", "/out/meta.json", false, &opts), EntryAction::Skip));
    match t.copy_folder_entry("{{name}}.rs", "/out/{{name}}.rs", false, &opts) {
        EntryAction::WriteFile(p) => assert_eq!(p, "/out/demo.rs"),
        _ => panic!("expected a file"),
    }
}

#[test]
fn repository_directory_is_named_by_url_safe_base64() {
    let config = Config {
        templates_dir: "/home/u/.templates".to_string(),
        repositories: vec![
            RepoOptions { name: "main".to_string(), url: "???".to_string(), enabled: true },
            RepoOptions {
                name: "web".to_string(),
                url: "https://example.com/t?x=1".to_string(),
                enabled: false,
            },
        ],
    };
    let r = Repository::new(&config, "main");
    assert_eq!(r.directory, "/home/u/.templates/Pz8_");
    let r = Repository::new(&config, "web");
    assert_eq!(r.directory, "/home/u/.templates/aHR0cHM6Ly9leGFtcGxlLmNvbS90P3g9MQ==");
    assert_eq!(r.config.url, "https://example.com/t?x=1");
    assert!(!r.config.enabled);
    assert!(r.templates.is_empty());
}

fn entry(file_name: &str, is_dir: bool, meta: Option<Meta>) -> TemplateDir {
    TemplateDir { path: format!("/repo/{}", file_name), file_name: file_name.to_string(), is_dir, meta }
}

#[test]
fn loading_keeps_template_directories_in_order() {
    let mut repo = repository(vec![]);
    repo.load_templates(Some(vec![
        entry("Zeta", true, Some(meta(Some("template"), None))),
        entry("notes.txt", false, None),
        entry("other", true, Some(meta(Some("repository"), None))),
        entry("alpha", true, Some(meta(Some("template"), Some("Alpha")))),
    ]));
    assert_eq!(repo.get_templates(), vec!["zeta".to_string(), "alpha".to_string()]);
    assert_eq!(repo.templates[1].path, "/repo/alpha");
    repo.load_templates(None);
    assert_eq!(repo.templates.len(), 2);
}

#[test]
fn template_is_found_by_exact_name() {
    let repo = repository(vec![template("a", None, None), template("b", None, None)]);
    assert_eq!(repo.get_template_by_name("b").ok().unwrap().path, "/repo/b");
    assert!(repo.get_template_by_name("B").is_err());
    assert!(repo.get_template_by_name("c").is_err());
    let names = repo.get_templates();
    assert!(names.contains(&"a".to_string()));
}
