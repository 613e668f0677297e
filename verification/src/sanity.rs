//! The sanity checker: every project's resolved workspace path must be
//! absolute. The same check runs after a catalog is loaded and before one is
//! persisted, so hand-edited files are caught early and programmatic edits
//! cannot introduce violations.

use vstd::prelude::*;
use crate::model::{Config, ConfigView, ConfigError, ConfigErrorView, Project, ProjectView};
use crate::paths::{
    expand_path, is_absolute, is_absolute_path, path_join, spec_expand_path, spec_path_join,
    view_opt_ref,
};
use crate::resolve::spec_resolve_workspace;

verus! {

/// The effective checkout path of a project: the expanded override path when
/// one is set, and otherwise the resolved workspace directory joined with
/// the project name, expanded.
pub open spec fn spec_actual_path(c: ConfigView, p: ProjectView, home: Option<Seq<char>>) -> Seq<
    char,
> {
    match p.override_path {
        Some(o) => spec_expand_path(o, home),
        None => spec_expand_path(spec_path_join(spec_resolve_workspace(c, p), p.name), home),
    }
}

/// Every project of the catalog resolves to an absolute path.
pub open spec fn spec_all_paths_absolute(c: ConfigView, home: Option<Seq<char>>) -> bool {
    forall|i: int|
        0 <= i < c.projects.len() ==> is_absolute_path(
            spec_actual_path(c, #[trigger] c.projects[i], home),
        )
}

impl Config {
    /// The effective checkout path of a project under this catalog.
    pub fn actual_path_to_project(&self, project: &Project, home: Option<&str>) -> (r: String)
        ensures
            r@ == spec_actual_path(self@, project@, view_opt_ref(home)),
    {
        match &project.override_path {
            Some(o) => expand_path(o.as_str(), home),
            None => {
                let ws = self.resolve_workspace(project);
                let joined = path_join(ws.as_str(), project.name.as_str());
                expand_path(joined.as_str(), home)
            },
        }
    }

    /// Require every project's resolved path to be absolute; the first
    /// violation is reported with the offending project and path.
    pub fn check_sanity(&self, home: Option<&str>) -> (r: Result<(), ConfigError>)
        ensures
            r is Ok <==> spec_all_paths_absolute(self@, view_opt_ref(home)),
            r matches Err(e) ==> exists|i: int|
                {
                    &&& 0 <= i < self@.projects.len()
                    &&& !is_absolute_path(
                        spec_actual_path(self@, #[trigger] self@.projects[i], view_opt_ref(home)),
                    )
                    &&& forall|k: int|
                        0 <= k < i ==> is_absolute_path(
                            spec_actual_path(
                                self@,
                                #[trigger] self@.projects[k],
                                view_opt_ref(home),
                            ),
                        )
                    &&& e@ == (ConfigErrorView::Invalid {
                        project: self@.projects[i].name,
                        path: spec_actual_path(self@, self@.projects[i], view_opt_ref(home)),
                    })
                },
    {
        let mut i: usize = 0;
        while i < self.projects.len()
            invariant
                i <= self@.projects.len(),
                self@.projects.len() == self.projects@.len(),
                forall|k: int|
                    0 <= k < i ==> is_absolute_path(
                        spec_actual_path(self@, #[trigger] self@.projects[k], view_opt_ref(home)),
                    ),
            decreases self@.projects.len() - i,
        {
            let project = &self.projects[i];
            proof {
                assert(self@.projects[i as int] == project@);
            }
            match project.check_sanity(self, home) {
                Ok(()) => {},
                Err(e) => {
                    return Err(e);
                },
            }
            i = i + 1;
        }
        Ok(())
    }
}

impl Project {
    /// Require this project's resolved path under `config` to be absolute.
    pub fn check_sanity(&self, config: &Config, home: Option<&str>) -> (r: Result<
        (),
        ConfigError,
    >)
        ensures
            r is Ok <==> is_absolute_path(spec_actual_path(config@, self@, view_opt_ref(home))),
            r matches Err(e) ==> e@ == (ConfigErrorView::Invalid {
                project: self@.name,
                path: spec_actual_path(config@, self@, view_opt_ref(home)),
            }),
    {
        let path = config.actual_path_to_project(self, home);
        if is_absolute(path.as_str()) {
            Ok(())
        } else {
            Err(ConfigError::Invalid { project: self.name.clone(), path })
        }
    }
}

} // verus!
