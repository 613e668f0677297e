//! The catalog mutator: deriving a project name from a repository URL,
//! adding a new project under the global defaults, and updating an existing
//! entry. Both mutations keep the catalog well formed; persisting the result
//! is the caller's concern.

use vstd::prelude::*;
use vstd::string::StrSliceExecFns;
use crate::text::{
    is_prefix, is_suffix, lex_leq, lemma_lex_lt_trans, lemma_lex_total, str_ends_with, str_eq,
    str_leq, str_starts_with,
};
use crate::model::{
    lex_lt, projects_sorted, view_opt, view_opt_strings, view_projects, view_strings, Config,
    ConfigError, ConfigErrorView, Project, ProjectView, SettingsView,
};
use crate::paths::view_opt_ref;

verus! {

/// The final `/`-delimited fragment of a URL.
pub open spec fn last_fragment(s: Seq<char>) -> Seq<char>
    decreases s.len(),
{
    if s.len() == 0 {
        s
    } else if s.last() == '/' {
        Seq::empty()
    } else {
        last_fragment(s.drop_last()).push(s.last())
    }
}

/// The project name derived from a repository URL: the final `/`-delimited
/// fragment, with a single trailing `.git` stripped when present.
pub open spec fn spec_repo_name(url: Seq<char>) -> Seq<char> {
    let frag = last_fragment(url);
    if is_suffix(".git"@, frag) {
        frag.subrange(0, frag.len() - 4)
    } else {
        frag
    }
}

/// The last fragment starts right after the last separator.
proof fn lemma_last_fragment_at(s: Seq<char>, start: int)
    requires
        0 <= start <= s.len(),
        start == 0 || s[start - 1] == '/',
        forall|t: int| start <= t < s.len() ==> s[t] != '/',
    ensures
        last_fragment(s) == s.subrange(start, s.len() as int),
    decreases s.len(),
{
    if s.len() == 0 {
        assert(last_fragment(s) =~= s.subrange(0, 0));
    } else if start == s.len() {
        assert(s.last() == '/');
        assert(last_fragment(s) =~= s.subrange(start, s.len() as int));
    } else {
        assert(s.last() != '/');
        let d = s.drop_last();
        lemma_last_fragment_at(d, start);
        assert(d.subrange(start, d.len() as int).push(s.last()) =~= s.subrange(
            start,
            s.len() as int,
        ));
    }
}

/// Derive a project name from a repository URL. Every URL yields a name:
/// with no separator the whole URL is the final fragment.
pub fn repo_name_from_url(url: &str) -> (r: Result<String, ConfigError>)
    ensures
        r is Ok,
        r matches Ok(name) ==> name@ == spec_repo_name(url@),
{
    let len: usize = url.unicode_len();
    let mut start: usize = 0;
    let mut k: usize = 0;
    while k < len
        invariant
            k <= len,
            start <= k,
            len == url@.len(),
            start == 0 || url@[start - 1] == '/',
            forall|t: int| start <= t < k ==> url@[t] != '/',
        decreases len - k,
    {
        if url.get_char(k) == '/' {
            start = k + 1;
        }
        k = k + 1;
    }
    let frag = url.substring_char(start, len);
    proof {
        lemma_last_fragment_at(url@, start as int);
    }
    if str_ends_with(frag, ".git") {
        proof {
            reveal_strlit(".git");
        }
        let flen: usize = frag.unicode_len();
        let name = frag.substring_char(0, flen - 4);
        Ok(name.to_owned())
    } else {
        Ok(frag.to_owned())
    }
}

/// The name resembles a repository URL rather than a project name.
pub open spec fn looks_like_url(name: Seq<char>) -> bool {
    is_prefix("http"@, name) || is_prefix("git@"@, name)
}

/// Some project of the catalog carries this name.
pub open spec fn has_project(projects: Seq<ProjectView>, name: Seq<char>) -> bool {
    exists|i: int| 0 <= i < projects.len() && (#[trigger] projects[i].name) == name
}

/// The name `add` registers the project under: the given one, or the one
/// derived from the URL.
pub open spec fn spec_add_name(maybe_name: Option<Seq<char>>, url: Seq<char>) -> Seq<char> {
    match maybe_name {
        Some(n) => n,
        None => spec_repo_name(url),
    }
}

/// The project `add` creates: the defaults of the settings are copied over
/// verbatim, and no override path is set.
pub open spec fn spec_new_project(name: Seq<char>, git: Seq<char>, s: SettingsView) -> ProjectView {
    ProjectView {
        name: name,
        git: git,
        after_clone: s.default_after_clone,
        after_workon: s.default_after_workon,
        override_path: None,
        tags: s.default_tags,
    }
}

/// Insertion of a project into the name-ordered catalog, before the first
/// project whose name is not below the new one.
pub open spec fn spec_insert_project(projects: Seq<ProjectView>, p: ProjectView) -> Seq<
    ProjectView,
>
    decreases projects.len(),
{
    if projects.len() == 0 {
        seq![p]
    } else if lex_leq(p.name, projects[0].name) {
        seq![p] + projects
    } else {
        seq![projects[0]] + spec_insert_project(projects.drop_first(), p)
    }
}

/// The project `update` produces: given fields replace, absent fields keep
/// the old value, and the tag assignment is always cleared.
pub open spec fn spec_updated_project(
    old: ProjectView,
    git: Option<Seq<char>>,
    after_workon: Option<Seq<char>>,
    after_clone: Option<Seq<char>>,
    override_path: Option<Seq<char>>,
) -> ProjectView {
    ProjectView {
        name: old.name,
        git: match git {
            Some(g) => g,
            None => old.git,
        },
        after_clone: match after_clone {
            Some(_) => after_clone,
            None => old.after_clone,
        },
        after_workon: match after_workon {
            Some(_) => after_workon,
            None => old.after_workon,
        },
        override_path: match override_path {
            Some(_) => override_path,
            None => old.override_path,
        },
        tags: None,
    }
}

/// `spec_insert_project` splits at the first position whose name is not
/// below the new project's name.
proof fn lemma_insert_project_at(s: Seq<ProjectView>, p: ProjectView, pos: int)
    requires
        0 <= pos <= s.len(),
        forall|k: int| 0 <= k < pos ==> !lex_leq(p.name, (#[trigger] s[k]).name),
        pos < s.len() ==> lex_leq(p.name, s[pos].name),
    ensures
        spec_insert_project(s, p) == s.subrange(0, pos) + seq![p] + s.subrange(pos, s.len() as int),
    decreases s.len(),
{
    if s.len() == 0 {
        assert(spec_insert_project(s, p) =~= s.subrange(0, pos) + seq![p] + s.subrange(
            pos,
            s.len() as int,
        ));
    } else if pos == 0 {
        assert(lex_leq(p.name, s[0].name));
        assert(seq![p] + s =~= s.subrange(0, 0) + seq![p] + s.subrange(0, s.len() as int));
    } else {
        assert(!lex_leq(p.name, s[0].name));
        let tail = s.drop_first();
        assert(forall|k: int| 0 <= k < pos - 1 ==> !lex_leq(p.name, (#[trigger] tail[k]).name));
        lemma_insert_project_at(tail, p, pos - 1);
        assert(seq![s[0]] + (tail.subrange(0, pos - 1) + seq![p] + tail.subrange(
            pos - 1,
            tail.len() as int,
        )) =~= s.subrange(0, pos) + seq![p] + s.subrange(pos, s.len() as int));
    }
}

/// Inserting a fresh name at its position keeps the catalog strictly
/// ordered.
proof fn lemma_insert_keeps_sorted(s: Seq<ProjectView>, p: ProjectView, pos: int)
    requires
        projects_sorted(s),
        forall|i: int| 0 <= i < s.len() ==> (#[trigger] s[i]).name != p.name,
        0 <= pos <= s.len(),
        forall|k: int| 0 <= k < pos ==> !lex_leq(p.name, (#[trigger] s[k]).name),
        pos < s.len() ==> lex_leq(p.name, s[pos].name),
    ensures
        projects_sorted(s.subrange(0, pos) + seq![p] + s.subrange(pos, s.len() as int)),
{
    let r = s.subrange(0, pos) + seq![p] + s.subrange(pos, s.len() as int);
    assert(r.len() == s.len() + 1);
    assert forall|i: int, j: int| 0 <= i < j < r.len() implies lex_lt(
        (#[trigger] r[i]).name,
        (#[trigger] r[j]).name,
    ) by {
        if i < pos {
            assert(r[i] == s[i]);
        } else if i == pos {
            assert(r[i] == p);
        } else {
            assert(r[i] == s[i - 1]);
        }
        if j < pos {
            assert(r[j] == s[j]);
        } else if j == pos {
            assert(r[j] == p);
        } else {
            assert(r[j] == s[j - 1]);
        }
        if j == pos {
            lemma_lex_total(p.name, s[i as int].name);
        } else if i == pos {
            if j == pos + 1 {
                assert(lex_lt(p.name, s[pos].name));
            } else {
                assert(lex_lt(s[pos].name, s[j - 1].name));
                lemma_lex_lt_trans(p.name, s[pos].name, s[j - 1].name);
            }
        }
    }
}

/// A strict order between all neighbours is a strict order overall.
proof fn lemma_adjacent_sorted(s: Seq<ProjectView>, i: int, j: int)
    requires
        forall|k: int|
            0 <= k < s.len() - 1 ==> lex_lt((#[trigger] s[k]).name, s[k + 1].name),
        0 <= i < j < s.len(),
    ensures
        lex_lt(s[i].name, s[j].name),
    decreases j - i,
{
    if j > i + 1 {
        lemma_adjacent_sorted(s, i, j - 1);
        lemma_lex_lt_trans(s[i].name, s[j - 1].name, s[j].name);
    }
}

/// Decide well-formedness of a catalog, for callers that obtained one from
/// outside the library: projects strictly ordered by name, tag definitions
/// under unique names.
pub fn is_well_formed(config: &Config) -> (r: bool)
    ensures
        r == config@.wf(),
{
    let ghost pv = view_projects(config.projects@);
    let n: usize = config.projects.len();
    if n > 0 {
        let mut i: usize = 0;
        while i < n - 1
            invariant
                n == config.projects@.len(),
                pv == view_projects(config.projects@),
                n >= 1,
                i <= n - 1,
                forall|k: int| 0 <= k < i ==> lex_lt((#[trigger] pv[k]).name, pv[k + 1].name),
            decreases n - 1 - i,
        {
            let ok = str_leq(
                config.projects[i].name.as_str(),
                config.projects[i + 1].name.as_str(),
            ) && !str_eq(config.projects[i].name.as_str(), config.projects[i + 1].name.as_str());
            if !ok {
                proof {
                    if projects_sorted(pv) {
                        assert(lex_lt(pv[i as int].name, pv[i + 1].name));
                    }
                }
                return false;
            }
            i = i + 1;
        }
    }
    proof {
        assert forall|x: int, y: int| 0 <= x < y < pv.len() implies lex_lt(
            (#[trigger] pv[x]).name,
            (#[trigger] pv[y]).name,
        ) by {
            lemma_adjacent_sorted(pv, x, y);
        }
        assert(projects_sorted(pv));
    }
    match &config.settings.tags {
        None => true,
        Some(defs) => {
            let ghost tv = crate::model::view_tag_defs(defs@);
            let m: usize = defs.len();
            let mut a: usize = 0;
            while a < m
                invariant
                    m == defs@.len(),
                    tv == crate::model::view_tag_defs(defs@),
                    crate::model::view_opt_tag_defs(config.settings.tags) == Some(tv),
                    a <= m,
                    forall|x: int, y: int|
                        0 <= x < y < m && x < a ==> (#[trigger] tv[x]).name != (
                        #[trigger] tv[y]).name,
                decreases m - a,
            {
                let mut b: usize = a + 1;
                while b < m
                    invariant
                        m == defs@.len(),
                        tv == crate::model::view_tag_defs(defs@),
                        crate::model::view_opt_tag_defs(config.settings.tags) == Some(tv),
                        a < b <= m,
                        a < m,
                        forall|y: int| a < y < b ==> tv[a as int].name != (#[trigger] tv[y]).name,
                    decreases m - b,
                {
                    if str_eq(defs[a].name.as_str(), defs[b].name.as_str()) {
                        proof {
                            assert(tv[a as int].name == defs@[a as int].name@);
                            assert(tv[b as int].name == defs@[b as int].name@);
                            assert(!crate::model::tag_names_distinct(tv)) by {
                                if crate::model::tag_names_distinct(tv) {
                                    assert(tv[a as int].name != tv[b as int].name);
                                }
                            }
                            assert(config@.settings.tags == Some(tv));
                        }
                        return false;
                    }
                    b = b + 1;
                }
                a = a + 1;
            }
            proof {
                assert(crate::model::tag_names_distinct(tv));
            }
            true
        },
    }
}

/// The project stored under `name`, as an index into the catalog.
fn find_project(projects: &Vec<Project>, name: &str) -> (r: Option<usize>)
    ensures
        match r {
            Some(i) => i < projects@.len() && view_projects(projects@)[i as int].name == name@,
            None => forall|i: int|
                0 <= i < projects@.len() ==> (#[trigger] view_projects(projects@)[i]).name != name@,
        },
{
    let mut i: usize = 0;
    while i < projects.len()
        invariant
            i <= projects@.len(),
            forall|k: int|
                0 <= k < i ==> (#[trigger] view_projects(projects@)[k]).name != name@,
        decreases projects@.len() - i,
    {
        if str_eq(projects[i].name.as_str(), name) {
            return Some(i);
        }
        i = i + 1;
    }
    None
}

/// The position before which the new project is inserted.
fn find_insert_position(projects: &Vec<Project>, p: &Project) -> (pos: usize)
    ensures
        pos <= projects@.len(),
        forall|k: int|
            0 <= k < pos ==> !lex_leq(p@.name, (#[trigger] view_projects(projects@)[k]).name),
        pos < projects@.len() ==> lex_leq(p@.name, view_projects(projects@)[pos as int].name),
{
    let mut pos: usize = 0;
    while pos < projects.len()
        invariant
            pos <= projects@.len(),
            forall|k: int|
                0 <= k < pos ==> !lex_leq(p@.name, (#[trigger] view_projects(projects@)[k]).name),
        decreases projects@.len() - pos,
    {
        if str_leq(p.name.as_str(), projects[pos].name.as_str()) {
            return pos;
        }
        pos = pos + 1;
    }
    pos
}

/// A copy of an optional command string.
fn clone_opt(o: &Option<String>) -> (r: Option<String>)
    ensures
        view_opt(r) == view_opt(*o),
{
    match o {
        Some(s) => Some(s.clone()),
        None => None,
    }
}

/// A copy of an optional list of strings.
fn clone_opt_strings(o: &Option<Vec<String>>) -> (r: Option<Vec<String>>)
    ensures
        view_opt_strings(r) == view_opt_strings(*o),
{
    match o {
        Some(v) => {
            let mut out: Vec<String> = Vec::new();
            let mut i: usize = 0;
            proof {
                assert(view_strings(out@) =~= view_strings(v@).subrange(0, 0));
            }
            while i < v.len()
                invariant
                    i <= v@.len(),
                    view_strings(out@) == view_strings(v@).subrange(0, i as int),
                decreases v@.len() - i,
            {
                let ghost prev = out@;
                out.push(v[i].clone());
                proof {
                    assert(view_strings(prev).len() == prev.len());
                    assert(prev.len() == i as int);
                    assert(out@.len() == i + 1);
                    assert forall|k: int| 0 <= k < i + 1 implies view_strings(out@)[k]
                        == view_strings(v@).subrange(0, i + 1)[k] by {
                        assert(view_strings(out@)[k] == out@[k]@);
                        if k < i {
                            assert(out@[k] == prev[k]);
                            assert(view_strings(prev)[k] == view_strings(v@).subrange(
                                0,
                                i as int,
                            )[k]);
                            assert(view_strings(prev)[k] == prev[k]@);
                        } else {
                            assert(out@[k]@ == v@[k]@);
                            assert(view_strings(v@)[k] == v@[k]@);
                        }
                    }
                    assert(view_strings(out@) =~= view_strings(v@).subrange(0, i + 1));
                }
                i = i + 1;
            }
            proof {
                assert(view_strings(v@).subrange(0, v@.len() as int) =~= view_strings(v@));
            }
            Some(out)
        },
        None => None,
    }
}

/// Add a project to the catalog. The name is the given one, or derived from
/// the URL; a name already in use is refused. The new project copies the
/// settings' default commands and tags verbatim and sets no override path.
pub fn add_entry(config: Config, maybe_name: Option<&str>, url: &str) -> (r: Result<
    Config,
    ConfigError,
>)
    requires
        config@.wf(),
    ensures
        ({
            let name = spec_add_name(view_opt_ref(maybe_name), url@);
            match r {
                Err(e) => has_project(config@.projects, name) && e@ == (
                ConfigErrorView::DuplicateProject { name }),
                Ok(c2) => {
                    &&& !has_project(config@.projects, name)
                    &&& c2@.settings == config@.settings
                    &&& c2@.projects == spec_insert_project(
                        config@.projects,
                        spec_new_project(name, url@, config@.settings),
                    )
                    &&& c2@.wf()
                },
            }
        }),
{
    let name: String = match maybe_name {
        Some(n) => n.to_owned(),
        None => match repo_name_from_url(url) {
            Ok(n) => n,
            Err(e) => {
                return Err(e);
            },
        },
    };
    match find_project(&config.projects, name.as_str()) {
        Some(_) => Err(ConfigError::DuplicateProject { name }),
        None => {
            let mut config = config;
            let project = Project {
                git: url.to_owned(),
                name: name,
                after_clone: clone_opt(&config.settings.default_after_clone),
                after_workon: clone_opt(&config.settings.default_after_workon),
                override_path: None,
                tags: clone_opt_strings(&config.settings.default_tags),
            };
            let ghost oldp = view_projects(config.projects@);
            let ghost pv = project@;
            let pos = find_insert_position(&config.projects, &project);
            config.projects.insert(pos, project);
            proof {
                lemma_insert_project_at(oldp, pv, pos as int);
                lemma_insert_keeps_sorted(oldp, pv, pos as int);
                assert(view_projects(config.projects@) =~= oldp.subrange(0, pos as int) + seq![pv]
                    + oldp.subrange(pos as int, oldp.len() as int));
            }
            Ok(config)
        },
    }
}

/// Update a project of the catalog. A name that looks like a repository URL
/// or that is not in the catalog is refused; otherwise each given field
/// replaces the stored one, absent fields keep their value, and the tag
/// assignment is cleared: an explicit update supersedes tag-derived
/// configuration.
pub fn update_entry(
    config: Config,
    name: &str,
    git: Option<String>,
    after_workon: Option<String>,
    after_clone: Option<String>,
    override_path: Option<String>,
) -> (r: Result<Config, ConfigError>)
    requires
        config@.wf(),
    ensures
        looks_like_url(name@) ==> (r matches Err(e) && e@ == (ConfigErrorView::NameLooksLikeUrl {
            name: name@,
        })),
        !looks_like_url(name@) && !has_project(config@.projects, name@) ==> (r matches Err(e) && e@
            == (ConfigErrorView::UnknownProject { name: name@ })),
        !looks_like_url(name@) && has_project(config@.projects, name@) ==> (r matches Ok(c2) && (
        exists|i: int|
            {
                &&& 0 <= i < config@.projects.len()
                &&& (#[trigger] config@.projects[i]).name == name@
                &&& c2@.projects == config@.projects.update(
                    i,
                    spec_updated_project(
                        config@.projects[i],
                        view_opt(git),
                        view_opt(after_workon),
                        view_opt(after_clone),
                        view_opt(override_path),
                    ),
                )
            }) && c2@.settings == config@.settings && c2@.wf()),
{
    if str_starts_with(name, "http") || str_starts_with(name, "git@") {
        return Err(ConfigError::NameLooksLikeUrl { name: name.to_owned() });
    }
    match find_project(&config.projects, name) {
        None => Err(ConfigError::UnknownProject { name: name.to_owned() }),
        Some(i) => {
            let mut config = config;
            let ghost oldp = view_projects(config.projects@);
            let old_project = config.projects.remove(i);
            let updated = Project {
                git: match git {
                    Some(g) => g,
                    None => old_project.git,
                },
                name: old_project.name,
                after_clone: match after_clone {
                    Some(c) => Some(c),
                    None => old_project.after_clone,
                },
                after_workon: match after_workon {
                    Some(c) => Some(c),
                    None => old_project.after_workon,
                },
                override_path: match override_path {
                    Some(c) => Some(c),
                    None => old_project.override_path,
                },
                tags: None,
            };
            let ghost uv = updated@;
            config.projects.insert(i, updated);
            proof {
                assert(view_projects(config.projects@) =~= oldp.update(i as int, uv));
                assert forall|a: int, b: int|
                    0 <= a < b < oldp.update(i as int, uv).len() implies lex_lt(
                    (#[trigger] oldp.update(i as int, uv)[a]).name,
                    (#[trigger] oldp.update(i as int, uv)[b]).name,
                ) by {
                    assert(oldp.update(i as int, uv)[a].name == oldp[a].name);
                    assert(oldp.update(i as int, uv)[b].name == oldp[b].name);
                }
            }
            Ok(config)
        },
    }
}

} // verus!
