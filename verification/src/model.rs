//! The catalog data model: global settings, named tags, projects, and the
//! aggregate configuration, together with their mathematical views, their
//! invariants, and the typed error surface.

use vstd::prelude::*;
use crate::text::lex_leq;

verus! {

/// A reusable named bundle of effect overrides, referenced by name from
/// projects. A tag has no identity beyond its name, the key under which it
/// is stored in `Settings::tags`.
#[derive(Debug, Clone)]
pub struct Tag {
    pub after_clone: Option<String>,
    pub after_workon: Option<String>,
    /// Lower values are applied earlier; `None` means the default of 50.
    pub priority: Option<u8>,
    pub workspace: Option<String>,
}

/// Mathematical view of a [`Tag`].
pub ghost struct TagView {
    pub after_clone: Option<Seq<char>>,
    pub after_workon: Option<Seq<char>>,
    pub priority: Option<u8>,
    pub workspace: Option<Seq<char>>,
}

/// View of an optional string as an optional character sequence.
pub open spec fn view_opt(o: Option<String>) -> Option<Seq<char>> {
    match o {
        Some(s) => Some(s@),
        None => None,
    }
}

/// View of a list of strings as a sequence of character sequences.
pub open spec fn view_strings(v: Seq<String>) -> Seq<Seq<char>> {
    v.map_values(|s: String| s@)
}

/// View of an optional list of strings.
pub open spec fn view_opt_strings(o: Option<Vec<String>>) -> Option<Seq<Seq<char>>> {
    match o {
        Some(v) => Some(view_strings(v@)),
        None => None,
    }
}

impl View for Tag {
    type V = TagView;

    open spec fn view(&self) -> TagView {
        TagView {
            after_clone: view_opt(self.after_clone),
            after_workon: view_opt(self.after_workon),
            priority: self.priority,
            workspace: view_opt(self.workspace),
        }
    }
}

/// One entry of the tag mapping in [`Settings`]: a tag under its name.
#[derive(Debug, Clone)]
pub struct TagDef {
    pub name: String,
    pub tag: Tag,
}

/// Mathematical view of a [`TagDef`].
pub ghost struct TagDefView {
    pub name: Seq<char>,
    pub tag: TagView,
}

impl View for TagDef {
    type V = TagDefView;

    open spec fn view(&self) -> TagDefView {
        TagDefView { name: self.name@, tag: self.tag@ }
    }
}

/// Global defaults: the workspace root, the shell invocation, and the
/// values and tags given to newly added projects.
#[derive(Debug, Clone)]
pub struct Settings {
    pub workspace: String,
    pub shell: Option<Vec<String>>,
    pub default_after_workon: Option<String>,
    pub default_after_clone: Option<String>,
    pub default_tags: Option<Vec<String>>,
    /// The tag definitions, keyed by tag name; names are unique.
    pub tags: Option<Vec<TagDef>>,
}

/// Mathematical view of [`Settings`].
pub ghost struct SettingsView {
    pub workspace: Seq<char>,
    pub shell: Option<Seq<Seq<char>>>,
    pub default_after_workon: Option<Seq<char>>,
    pub default_after_clone: Option<Seq<char>>,
    pub default_tags: Option<Seq<Seq<char>>>,
    pub tags: Option<Seq<TagDefView>>,
}

/// View of a tag mapping as a sequence of tag definitions.
pub open spec fn view_tag_defs(v: Seq<TagDef>) -> Seq<TagDefView> {
    v.map_values(|d: TagDef| d@)
}

/// View of an optional tag mapping.
pub open spec fn view_opt_tag_defs(o: Option<Vec<TagDef>>) -> Option<Seq<TagDefView>> {
    match o {
        Some(v) => Some(view_tag_defs(v@)),
        None => None,
    }
}

impl View for Settings {
    type V = SettingsView;

    open spec fn view(&self) -> SettingsView {
        SettingsView {
            workspace: self.workspace@,
            shell: view_opt_strings(self.shell),
            default_after_workon: view_opt(self.default_after_workon),
            default_after_clone: view_opt(self.default_after_clone),
            default_tags: view_opt_strings(self.default_tags),
            tags: view_opt_tag_defs(self.tags),
        }
    }
}

/// A configured project: where it comes from, where it is checked out, and
/// what runs after cloning or activating it. The `name` field is also the
/// project's key in the catalog.
#[derive(Debug, Clone)]
pub struct Project {
    pub name: String,
    pub git: String,
    pub after_clone: Option<String>,
    pub after_workon: Option<String>,
    pub override_path: Option<String>,
    /// References into `Settings::tags` by name; a set, its order carries
    /// no meaning. A name absent from the settings is ignored.
    pub tags: Option<Vec<String>>,
}

/// Mathematical view of a [`Project`].
pub ghost struct ProjectView {
    pub name: Seq<char>,
    pub git: Seq<char>,
    pub after_clone: Option<Seq<char>>,
    pub after_workon: Option<Seq<char>>,
    pub override_path: Option<Seq<char>>,
    pub tags: Option<Seq<Seq<char>>>,
}

impl View for Project {
    type V = ProjectView;

    open spec fn view(&self) -> ProjectView {
        ProjectView {
            name: self.name@,
            git: self.git@,
            after_clone: view_opt(self.after_clone),
            after_workon: view_opt(self.after_workon),
            override_path: view_opt(self.override_path),
            tags: view_opt_strings(self.tags),
        }
    }
}

/// The aggregate root: all configured projects plus the global settings.
/// Projects are kept in ascending name order with unique names.
#[derive(Debug, Clone)]
pub struct Config {
    pub projects: Vec<Project>,
    pub settings: Settings,
}

/// Mathematical view of a [`Config`].
pub ghost struct ConfigView {
    pub projects: Seq<ProjectView>,
    pub settings: SettingsView,
}

/// View of a project list.
pub open spec fn view_projects(v: Seq<Project>) -> Seq<ProjectView> {
    v.map_values(|p: Project| p@)
}

impl View for Config {
    type V = ConfigView;

    open spec fn view(&self) -> ConfigView {
        ConfigView { projects: view_projects(self.projects@), settings: self.settings@ }
    }
}

/// `a` is strictly below `b` in lexicographic code-point order.
pub open spec fn lex_lt(a: Seq<char>, b: Seq<char>) -> bool {
    lex_leq(a, b) && a != b
}

/// The projects are in strictly ascending name order, so names are unique.
pub open spec fn projects_sorted(projects: Seq<ProjectView>) -> bool {
    forall|i: int, j: int|
        0 <= i < j < projects.len() ==> lex_lt(
            #[trigger] projects[i].name,
            #[trigger] projects[j].name,
        )
}

/// The tag definitions carry pairwise distinct names.
pub open spec fn tag_names_distinct(tags: Seq<TagDefView>) -> bool {
    forall|i: int, j: int|
        0 <= i < j < tags.len() ==> (#[trigger] tags[i].name) != (#[trigger] tags[j].name)
}

impl ConfigView {
    /// Well-formedness of the catalog: projects strictly ordered by name,
    /// and tag definitions under unique names.
    pub open spec fn wf(self) -> bool {
        &&& projects_sorted(self.projects)
        &&& match self.settings.tags {
            Some(tags) => tag_names_distinct(tags),
            None => true,
        }
    }
}

/// The typed failures of the catalog's operations. I/O concerns stay with
/// the caller; everything here is a property of the values themselves.
#[derive(Debug, Clone)]
pub enum ConfigError {
    /// A project's resolved workspace path is not absolute.
    Invalid { project: String, path: String },
    /// `add` refuses a project name that is already taken.
    DuplicateProject { name: String },
    /// `update` refuses a project name that is not in the catalog.
    UnknownProject { name: String },
    /// `update` refuses a name that looks like a repository URL.
    NameLooksLikeUrl { name: String },
    /// No home directory was available to derive the default config path.
    HomeNotSet,
}

/// Mathematical view of a [`ConfigError`].
pub ghost enum ConfigErrorView {
    Invalid { project: Seq<char>, path: Seq<char> },
    DuplicateProject { name: Seq<char> },
    UnknownProject { name: Seq<char> },
    NameLooksLikeUrl { name: Seq<char> },
    HomeNotSet,
}

impl View for ConfigError {
    type V = ConfigErrorView;

    open spec fn view(&self) -> ConfigErrorView {
        match self {
            ConfigError::Invalid { project, path } => ConfigErrorView::Invalid {
                project: project@,
                path: path@,
            },
            ConfigError::DuplicateProject { name } => ConfigErrorView::DuplicateProject {
                name: name@,
            },
            ConfigError::UnknownProject { name } => ConfigErrorView::UnknownProject { name: name@ },
            ConfigError::NameLooksLikeUrl { name } => ConfigErrorView::NameLooksLikeUrl {
                name: name@,
            },
            ConfigError::HomeNotSet => ConfigErrorView::HomeNotSet,
        }
    }
}

} // verus!
