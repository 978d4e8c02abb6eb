//! Combining an optional user-supplied directory with the working directory
//! and the derived repository name into an absolute target path. Paths are
//! POSIX-style strings: absolute means beginning with `/`.

use vstd::prelude::*;
use crate::repo_name;
use crate::text;

verus! {

pub open spec fn is_absolute(p: Seq<char>) -> bool {
    p.len() > 0 && p[0] == '/'
}

/// Joining a relative path onto a base, as a path join does: a separator is
/// added unless the base already ends with one.
pub open spec fn join_path(base: Seq<char>, rel: Seq<char>) -> Seq<char> {
    if base.len() > 0 && base.last() == '/' {
        base + rel
    } else {
        base + seq!['/'] + rel
    }
}

/// The target directory for a clone: an absolute override is returned
/// verbatim; a relative override is joined onto `cwd`; with no override the
/// repository name derived from `url` is joined onto `cwd`, and a failure of
/// that derivation is the only failure here.
pub fn resolve_target_dir(url: &str, override_dir: Option<&str>, cwd: &str) -> (r: Result<
    String,
    repo_name::NameResolutionError,
>)
    requires
        is_absolute(cwd@),
    ensures
        match override_dir {
            Some(d) => r matches Ok(p) && p@ == if is_absolute(d@) {
                d@
            } else {
                join_path(cwd@, d@)
            },
            None => {
                &&& r matches Ok(p) ==> p@ == join_path(cwd@, repo_name::repo_name_of(url@))
                &&& r is Err <==> repo_name::repo_name_of(url@).len() == 0
            },
        },
        r matches Ok(p) ==> is_absolute(p@),
{
    match override_dir {
        Some(d) => {
            if d.unicode_len() > 0 && d.get_char(0) == '/' {
                Ok(d.to_owned())
            } else {
                Ok(join_str(cwd, d))
            }
        },
        None => {
            match repo_name::extract_repo_name(url) {
                Ok(name) => Ok(join_str(cwd, name.as_str())),
                Err(e) => Err(e),
            }
        },
    }
}

/// Joins a relative path onto a base path.
fn join_str(base: &str, rel: &str) -> (r: String)
    requires
        base@.len() > 0,
    ensures
        r@ == join_path(base@, rel@),
        r@[0] == base@[0],
{
    let n = base.unicode_len();
    let joined = if base.get_char(n - 1) == '/' {
        base.to_owned().concat(rel)
    } else {
        let sep: &str = "/";
        proof {
            reveal_strlit("/");
            assert(sep@ =~= seq!['/']);
        }
        base.to_owned().concat(sep).concat(rel)
    };
    assert(joined@[0] == base@[0]);
    joined
}

} // verus!
