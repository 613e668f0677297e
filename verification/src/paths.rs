//! Filesystem paths as character strings: the home-directory expander, path
//! joining, absoluteness, and the location of the persisted catalog.

use vstd::prelude::*;
use vstd::string::StrSliceExecFns;
use vstd::string::StringExecFns;
use crate::model::{ConfigError, ConfigErrorView};

verus! {

/// View of an optional borrowed string.
pub open spec fn view_opt_ref(o: Option<&str>) -> Option<Seq<char>> {
    match o {
        Some(s) => Some(s@),
        None => None,
    }
}

/// The path's first component is the home-directory shorthand `~`.
pub open spec fn is_tilde_path(p: Seq<char>) -> bool {
    p.len() >= 1 && p[0] == '~' && (p.len() == 1 || p[1] == '/')
}

/// The path starts at the root.
pub open spec fn is_absolute_path(p: Seq<char>) -> bool {
    p.len() >= 1 && p[0] == '/'
}

/// A directory joined with a following path: the second component stands
/// alone when it is already absolute, and a separator is added only when the
/// directory does not end in one.
pub open spec fn spec_path_join(a: Seq<char>, b: Seq<char>) -> Seq<char> {
    if is_absolute_path(b) {
        b
    } else if a.len() == 0 {
        b
    } else if a.last() == '/' {
        a + b
    } else {
        a + seq!['/'] + b
    }
}

/// Replacement of the leading shorthand by the home directory; without a
/// home directory the path stays as it is, and the sanity check rejects it
/// later for not being absolute.
pub open spec fn spec_do_expand(p: Seq<char>, home: Option<Seq<char>>) -> Seq<char> {
    match home {
        Some(h) => h + p.skip(1),
        None => p,
    }
}

/// Home expansion of a path: only a leading `~` component is replaced.
pub open spec fn spec_expand_path(p: Seq<char>, home: Option<Seq<char>>) -> Seq<char> {
    if is_tilde_path(p) {
        spec_do_expand(p, home)
    } else {
        p
    }
}

/// Whether the path's first component is the home-directory shorthand.
pub fn starts_with_tilde(path: &str) -> (r: bool)
    ensures
        r == is_tilde_path(path@),
{
    let n: usize = path.unicode_len();
    if n == 0 {
        return false;
    }
    if path.get_char(0) != '~' {
        return false;
    }
    if n == 1 {
        return true;
    }
    path.get_char(1) == '/'
}

/// Whether the path starts at the root.
pub fn is_absolute(path: &str) -> (r: bool)
    ensures
        r == is_absolute_path(path@),
{
    let n: usize = path.unicode_len();
    n >= 1 && path.get_char(0) == '/'
}

/// Replace the leading shorthand of `path` by the home directory, keeping
/// the remaining components; without a home directory the path is returned
/// unchanged.
pub fn do_expand(path: &str, home_dir: Option<&str>) -> (r: String)
    requires
        is_tilde_path(path@),
    ensures
        r@ == spec_do_expand(path@, view_opt_ref(home_dir)),
{
    match home_dir {
        Some(home) => {
            let mut r = home.to_owned();
            let rest = path.substring_char(1, path.unicode_len());
            r.append(rest);
            proof {
                assert(path@.skip(1) =~= path@.subrange(1, path@.len() as int));
            }
            r
        },
        None => path.to_owned(),
    }
}

/// Expand a leading home-directory shorthand; any other path is returned
/// unchanged.
pub fn expand_path(path: &str, home: Option<&str>) -> (r: String)
    ensures
        r@ == spec_expand_path(path@, view_opt_ref(home)),
{
    if starts_with_tilde(path) {
        do_expand(path, home)
    } else {
        path.to_owned()
    }
}

/// Join a directory with a following path component.
pub fn path_join(dir: &str, name: &str) -> (r: String)
    ensures
        r@ == spec_path_join(dir@, name@),
{
    let nlen: usize = name.unicode_len();
    if nlen >= 1 && name.get_char(0) == '/' {
        return name.to_owned();
    }
    let dlen: usize = dir.unicode_len();
    if dlen == 0 {
        return name.to_owned();
    }
    let mut r = dir.to_owned();
    if dir.get_char(dlen - 1) != '/' {
        r.append("/");
        proof {
            reveal_strlit("/");
            assert("/"@ =~= seq!['/']);
            assert(dir@.last() == dir@[dlen - 1]);
        }
    }
    r.append(name);
    r
}

/// The catalog's location: an explicit override wins; otherwise it is
/// `.fw.json` under the home directory, and without a home directory no
/// default location exists.
pub fn actual_config_path(maybe_config_override: Option<&str>, home: Option<&str>) -> (r: Result<
    String,
    ConfigError,
>)
    ensures
        match (r, maybe_config_override) {
            (Ok(p), Some(o)) => p@ == o@,
            (Ok(p), None) => home matches Some(h) && p@ == spec_path_join(h@, ".fw.json"@),
            (Err(e), None) => home is None && e@ == ConfigErrorView::HomeNotSet,
            (Err(_), Some(_)) => false,
        },
{
    match maybe_config_override {
        Some(path) => Ok(path.to_owned()),
        None => default_config_path(home),
    }
}

/// The default catalog location, `.fw.json` under the home directory.
pub fn default_config_path(home: Option<&str>) -> (r: Result<String, ConfigError>)
    ensures
        match (r, home) {
            (Ok(p), Some(h)) => p@ == spec_path_join(h@, ".fw.json"@),
            (Err(e), None) => e@ == ConfigErrorView::HomeNotSet,
            _ => false,
        },
{
    match home {
        Some(h) => Ok(path_join(h, ".fw.json")),
        None => Err(ConfigError::HomeNotSet),
    }
}

} // verus!
