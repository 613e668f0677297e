use fw_config::catalog::{add_entry, is_well_formed, repo_name_from_url, update_entry};
use fw_config::model::{Config, ConfigError, Project, Settings, Tag, TagDef};
use fw_config::paths::{actual_config_path, do_expand, expand_path, path_join};
use fw_config::resolve::prepare_workon;

fn project_with_tags(name: &str, tags: Option<Vec<&str>>) -> Project {
    Project {
        name: name.to_owned(),
        git: "irrelevant".to_owned(),
        after_clone: None,
        after_workon: None,
        override_path: None,
        tags: tags.map(|v| v.into_iter().map(|t| t.to_owned()).collect()),
    }
}

fn tag(after_clone: &str, after_workon: &str, priority: Option<u8>) -> Tag {
    Tag {
        after_clone: Some(after_clone.to_owned()),
        after_workon: Some(after_workon.to_owned()),
        priority,
        workspace: None,
    }
}

fn a_config() -> Config {
    let project = project_with_tags("test1", Some(vec!["tag1", "tag2"]));
    let project2 = project_with_tags("test2", Some(vec!["tag1", "tag-does-not-exist"]));
    let mut project3 = project_with_tags("test3", Some(vec!["tag1"]));
    project3.after_clone = Some("clone override in project".to_owned());
    project3.after_workon = Some("workon override in project".to_owned());
    let project4 = project_with_tags("test4", Some(vec!["tag-does-not-exist"]));
    let project5 = project_with_tags("test5", Some(vec!["tag3", "tag4"]));
    let tags = vec![
        TagDef { name: "tag1".to_owned(), tag: tag("clone1", "workon1", None) },
        TagDef { name: "tag2".to_owned(), tag: tag("clone2", "workon2", None) },
        TagDef { name: "tag3".to_owned(), tag: tag("clone3", "workon3", Some(100)) },
        TagDef { name: "tag4".to_owned(), tag: tag("clone4", "workon4", Some(0)) },
    ];
    let settings = Settings {
        workspace: "/test".to_owned(),
        shell: None,
        default_after_workon: None,
        default_after_clone: None,
        default_tags: None,
        tags: Some(tags),
    };
    Config {
        projects: vec![project, project2, project3, project4, project5],
        settings,
    }
}

fn project_named<'a>(config: &'a Config, name: &str) -> &'a Project {
    config.projects.iter().find(|p| p.name == name).unwrap()
}

#[test]
fn test_repo_name_from_url() {
    let https_url = "https://github.com/mriehl/fw";
    let name = repo_name_from_url(&https_url).unwrap().to_owned();
    assert_eq!(name, "fw".to_owned());
}

#[test]
fn test_repo_name_from_ssh_pragma() {
    let ssh_pragma = "git@github.com:mriehl/fw.git";
    let name = repo_name_from_url(&ssh_pragma).unwrap().to_owned();
    assert_eq!(name, "fw".to_owned());
}

#[test]
fn test_repo_name_from_ssh_pragma_with_multiple_git_endings() {
    let ssh_pragma = "git@github.com:mriehl/fw.git.git";
    let name = repo_name_from_url(&ssh_pragma).unwrap().to_owned();
    assert_eq!(name, "fw.git".to_owned());
}

#[test]
fn test_do_not_expand_path_without_tilde() {
    let path = "/foo/bar".to_owned();
    assert_eq!(expand_path(&path, None), path);
    assert_eq!(expand_path(&path, Some("/my/home")), path);
}

#[test]
fn test_do_expand() {
    let path = "~/foo/bar".to_owned();
    let home = "/my/home".to_owned();
    assert_eq!(do_expand(&path, Some(&home)), "/my/home/foo/bar".to_owned());
}

#[test]
fn test_workon_from_tags() {
    let config = a_config();
    let resolved = config.resolve_after_workon(project_named(&config, "test1"));
    assert_eq!(resolved, " && workon1 && workon2".to_owned());
}

#[test]
fn test_workon_from_tags_prioritized() {
    let config = a_config();
    let resolved = config.resolve_after_workon(project_named(&config, "test5"));
    assert_eq!(resolved, " && workon4 && workon3".to_owned());
}

#[test]
fn test_after_clone_from_tags() {
    let config = a_config();
    let resolved = config.resolve_after_clone(project_named(&config, "test1"));
    assert_eq!(resolved, Some("clone1 && clone2".to_owned()));
}

#[test]
fn test_after_clone_from_tags_prioritized() {
    let config = a_config();
    let resolved = config.resolve_after_clone(project_named(&config, "test5"));
    assert_eq!(resolved, Some("clone4 && clone3".to_owned()));
}

#[test]
fn test_workon_from_tags_missing_one_tag_graceful() {
    let config = a_config();
    let resolved = config.resolve_after_workon(project_named(&config, "test2"));
    assert_eq!(resolved, " && workon1".to_owned());
}

#[test]
fn test_workon_from_tags_missing_all_tags_graceful() {
    let config = a_config();
    let resolved = config.resolve_after_workon(project_named(&config, "test4"));
    assert_eq!(resolved, "".to_owned());
}

#[test]
fn test_after_clone_from_tags_missing_all_tags_graceful() {
    let config = a_config();
    let resolved = config.resolve_after_clone(project_named(&config, "test4"));
    assert_eq!(resolved, None);
}

#[test]
fn test_after_clone_from_tags_missing_one_tag_graceful() {
    let config = a_config();
    let resolved = config.resolve_after_clone(project_named(&config, "test2"));
    assert_eq!(resolved, Some("clone1".to_owned()));
}

#[test]
fn test_workon_override_from_project() {
    let config = a_config();
    let resolved = config.resolve_after_workon(project_named(&config, "test3"));
    assert_eq!(resolved, " && workon override in project".to_owned());
}

#[test]
fn test_after_clone_override_from_project() {
    let config = a_config();
    let resolved = config.resolve_after_clone(project_named(&config, "test3"));
    assert_eq!(resolved, Some("clone override in project".to_owned()));
}

#[test]
fn test_no_tags_and_no_overrides_resolve_to_defaults() {
    let mut config = a_config();
    config.projects.push(project_with_tags("test6", None));
    let p = project_named(&config, "test6");
    assert_eq!(config.resolve_after_clone(p), None);
    assert_eq!(config.resolve_after_workon(p), "".to_owned());
}

#[test]
fn test_tag_order_does_not_change_resolution() {
    let config = a_config();
    let forwards = project_with_tags("x", Some(vec!["tag3", "tag4"]));
    let backwards = project_with_tags("x", Some(vec!["tag4", "tag3"]));
    assert_eq!(
        config.resolve_after_workon(&forwards),
        config.resolve_after_workon(&backwards)
    );
    assert_eq!(
        config.resolve_after_clone(&forwards),
        config.resolve_after_clone(&backwards)
    );
    assert_eq!(config.resolve_after_workon(&forwards), " && workon4 && workon3".to_owned());
}

#[test]
fn test_equal_priorities_break_ties_by_tag_name() {
    let config = a_config();
    let p = project_with_tags("x", Some(vec!["tag2", "tag1"]));
    assert_eq!(config.resolve_after_clone(&p), Some("clone1 && clone2".to_owned()));
}

#[test]
fn test_workspace_from_tags_highest_priority_wins() {
    let mut config = a_config();
    let defs = config.settings.tags.as_mut().unwrap();
    defs[2].tag.workspace = Some("/ws-high".to_owned());
    defs[3].tag.workspace = Some("/ws-low".to_owned());
    let p = project_named(&config, "test5");
    let path = config.actual_path_to_project(p, None);
    assert_eq!(path, "/ws-high/test5".to_owned());
}

#[test]
fn test_actual_path_uses_settings_workspace() {
    let config = a_config();
    let p = project_named(&config, "test1");
    assert_eq!(config.actual_path_to_project(p, None), "/test/test1".to_owned());
}

#[test]
fn test_actual_path_prefers_override_path() {
    let config = a_config();
    let mut p = project_with_tags("other", Some(vec!["tag1"]));
    p.override_path = Some("~/elsewhere".to_owned());
    assert_eq!(
        config.actual_path_to_project(&p, Some("/home/me")),
        "/home/me/elsewhere".to_owned()
    );
}

#[test]
fn test_sanity_accepts_absolute_paths() {
    let config = a_config();
    assert!(config.check_sanity(None).is_ok());
}

#[test]
fn test_sanity_rejects_relative_paths() {
    let mut config = a_config();
    config.settings.workspace = "relative".to_owned();
    match config.check_sanity(None) {
        Err(ConfigError::Invalid { project, path }) => {
            assert_eq!(project, "test1".to_owned());
            assert_eq!(path, "relative/test1".to_owned());
        }
        other => panic!("expected a sanity violation, got {:?}", other),
    }
}

#[test]
fn test_sanity_rejects_unexpanded_tilde_without_home() {
    let mut config = a_config();
    config.projects[0].override_path = Some("~/somewhere".to_owned());
    assert!(config.check_sanity(Some("/home/me")).is_ok());
    assert!(config.check_sanity(None).is_err());
}

#[test]
fn test_add_fails_on_existing_name() {
    let config = a_config();
    let r = add_entry(config, Some("test1"), "https://example.test/repo");
    assert!(matches!(r, Err(ConfigError::DuplicateProject { .. })));
}

#[test]
fn test_add_derives_name_and_copies_defaults() {
    let mut config = a_config();
    config.settings.default_after_clone = Some("make".to_owned());
    config.settings.default_tags = Some(vec!["tag1".to_owned()]);
    let config = add_entry(config, None, "git@example.test:group/newrepo.git").unwrap();
    let p = project_named(&config, "newrepo");
    assert_eq!(p.git, "git@example.test:group/newrepo.git".to_owned());
    assert_eq!(p.after_clone, Some("make".to_owned()));
    assert_eq!(p.after_workon, None);
    assert_eq!(p.override_path, None);
    assert_eq!(p.tags, Some(vec!["tag1".to_owned()]));
    let names: Vec<&str> = config.projects.iter().map(|p| p.name.as_str()).collect();
    assert_eq!(names, vec!["newrepo", "test1", "test2", "test3", "test4", "test5"]);
}

#[test]
fn test_update_fails_on_unknown_name() {
    let config = a_config();
    let r = update_entry(config, "nope", None, None, None, None);
    assert!(matches!(r, Err(ConfigError::UnknownProject { .. })));
}

#[test]
fn test_update_fails_on_url_like_name() {
    let config = a_config();
    let r = update_entry(config, "http://example.test/x", None, None, None, None);
    assert!(matches!(r, Err(ConfigError::NameLooksLikeUrl { .. })));
    let config = a_config();
    let r = update_entry(config, "git@example.test:x", None, None, None, None);
    assert!(matches!(r, Err(ConfigError::NameLooksLikeUrl { .. })));
}

#[test]
fn test_update_replaces_fields_and_clears_tags() {
    let config = a_config();
    let config = update_entry(
        config,
        "test1",
        Some("git@example.test:new.git".to_owned()),
        None,
        Some("echo done".to_owned()),
        None,
    )
    .unwrap();
    let p = project_named(&config, "test1");
    assert_eq!(p.git, "git@example.test:new.git".to_owned());
    assert_eq!(p.after_clone, Some("echo done".to_owned()));
    assert_eq!(p.after_workon, None);
    assert_eq!(p.tags, None);
}

#[test]
fn test_config_path_override_and_default() {
    let p = actual_config_path(Some("/etc/custom.json"), None).unwrap();
    assert_eq!(p, "/etc/custom.json".to_owned());
    let p = actual_config_path(None, Some("/home/me")).unwrap();
    assert_eq!(p, "/home/me/.fw.json".to_owned());
    let r = actual_config_path(None, None);
    assert!(matches!(r, Err(ConfigError::HomeNotSet)));
}

#[test]
fn test_path_join_inserts_separator_once() {
    assert_eq!(path_join("/a/b", "c"), "/a/b/c".to_owned());
    assert_eq!(path_join("/a/b/", "c"), "/a/b/c".to_owned());
    assert_eq!(path_join("/a", "/abs"), "/abs".to_owned());
}

#[test]
fn test_prepare_workon_prefixes_chain() {
    assert_eq!(prepare_workon("activate"), " && activate".to_owned());
}

#[test]
fn test_well_formedness_check() {
    let config = a_config();
    assert!(is_well_formed(&config));
    let mut unsorted = a_config();
    unsorted.projects.swap(0, 1);
    assert!(!is_well_formed(&unsorted));
    let mut dup_tags = a_config();
    dup_tags
        .settings
        .tags
        .as_mut()
        .unwrap()
        .push(TagDef { name: "tag1".to_owned(), tag: tag("x", "y", None) });
    assert!(!is_well_formed(&dup_tags));
}

#[test]
fn test_empty_tag_set_resolves_to_defaults() {
    let config = a_config();
    let p = project_with_tags("x", Some(vec![]));
    assert_eq!(config.resolve_after_clone(&p), None);
    assert_eq!(config.resolve_after_workon(&p), "".to_owned());
}
