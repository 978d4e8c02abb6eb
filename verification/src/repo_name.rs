//! Deriving a short repository name from a URL string. One trailing `/` is
//! trimmed; an SSH-shorthand address (leading `git@`) is cut at its last `:`
//! before the last `/` is taken; every other shape (HTTP(S), explicit
//! `ssh://`, bare path) keeps what follows its last `/`; one trailing `.git`
//! is stripped. An empty outcome is the only failure.

use vstd::prelude::*;
use crate::text;

verus! {

/// Failure of name derivation: the URL left nothing to name the
/// repository by.
#[derive(Clone, Copy, Debug, PartialEq, Eq, Structural)]
pub struct NameResolutionError;

pub open spec fn git_at_prefix() -> Seq<char> {
    seq!['g', 'i', 't', '@']
}

pub open spec fn dot_git_suffix() -> Seq<char> {
    seq!['.', 'g', 'i', 't']
}

pub open spec fn trim_one_slash(s: Seq<char>) -> Seq<char> {
    if s.len() > 0 && s.last() == '/' {
        s.drop_last()
    } else {
        s
    }
}

pub open spec fn strip_dot_git(s: Seq<char>) -> Seq<char> {
    if text::ends_with(s, dot_git_suffix()) {
        s.take(s.len() - 4)
    } else {
        s
    }
}

/// The name the resolver derives from a URL; empty when derivation fails.
pub open spec fn repo_name_of(url: Seq<char>) -> Seq<char> {
    let t = trim_one_slash(url);
    let seg = if text::starts_with(t, git_at_prefix()) {
        text::after_last(text::after_last(t, ':'), '/')
    } else {
        text::after_last(t, '/')
    };
    strip_dot_git(seg)
}

pub open spec fn slash_dot_git() -> Seq<char> {
    seq!['/', '.', 'g', 'i', 't']
}

pub open spec fn double_dot_git() -> Seq<char> {
    seq!['.', 'g', 'i', 't', '.', 'g', 'i', 't']
}

/// A URL ending in `.git` resolves to the same name as the same URL with
/// that suffix removed, whatever its shape. The two endings left out are
/// the ones where removing the suffix changes the split itself: `/.git`,
/// whose shortened URL ends in a slash that then gets trimmed, and
/// `.git.git`, whose shortened URL still carries a strippable suffix.
pub proof fn lemma_dot_git_suffix_irrelevant(url: Seq<char>)
    requires
        text::ends_with(url, dot_git_suffix()),
        !text::ends_with(url, slash_dot_git()),
        !text::ends_with(url, double_dot_git()),
    ensures
        repo_name_of(url) == repo_name_of(url.take(url.len() - 4)),
{
    let u2 = url.take(url.len() - 4);
    assert(url =~= u2 + dot_git_suffix());

    // Neither string gets a slash trimmed.
    assert(url.last() == dot_git_suffix()[3]);
    assert(trim_one_slash(url) == url);
    if u2.len() > 0 {
        assert(u2.last() == url[url.len() - 5]);
        if u2.last() == '/' {
            assert forall|i: int| 0 <= i < 5 implies url[url.len() - 5 + i] == #[trigger]
                slash_dot_git()[i] by {
                if i > 0 {
                    assert(url[url.len() - 4 + (i - 1)] == dot_git_suffix()[i - 1]);
                }
            }
            assert(false);
        }
    }
    assert(trim_one_slash(u2) == u2);

    // Both strings fall in the same branch.
    if text::starts_with(url, git_at_prefix()) && url.len() < 8 {
        let k = url.len() - 4;
        assert(url[k] == dot_git_suffix()[0]);
        assert(url[k] == git_at_prefix()[k]);
        assert(false);
    }
    assert(text::starts_with(url, git_at_prefix()) == text::starts_with(u2, git_at_prefix()));

    // The suffix carries neither separator, so it rides along through the
    // splits, and the final strip takes exactly it off again.
    if text::starts_with(url, git_at_prefix()) {
        let a2 = text::after_last(u2, ':');
        text::lemma_after_last_append(u2, dot_git_suffix(), ':');
        assert(text::after_last(url, ':') == a2 + dot_git_suffix());
        text::lemma_after_last_append(a2, dot_git_suffix(), '/');
        assert(text::after_last(text::after_last(url, ':'), '/') == text::after_last(a2, '/')
            + dot_git_suffix());
        text::lemma_after_last_is_suffix(u2, ':');
        text::lemma_after_last_is_suffix(a2, '/');
        text::lemma_ends_with_trans(u2, a2, text::after_last(a2, '/'));
        lemma_strips_cancel(url, u2, text::after_last(a2, '/'));
    } else {
        text::lemma_after_last_append(u2, dot_git_suffix(), '/');
        assert(text::after_last(url, '/') == text::after_last(u2, '/') + dot_git_suffix());
        text::lemma_after_last_is_suffix(u2, '/');
        lemma_strips_cancel(url, u2, text::after_last(u2, '/'));
    }
}

/// With `url == u2 + ".git"` and `seg` a suffix of `u2` that does not end
/// in `.git` twice over, stripping the suffix from `seg + ".git"` gives
/// back `seg` untouched.
proof fn lemma_strips_cancel(url: Seq<char>, u2: Seq<char>, seg: Seq<char>)
    requires
        url == u2 + dot_git_suffix(),
        text::ends_with(u2, seg),
        !text::ends_with(url, double_dot_git()),
    ensures
        strip_dot_git(seg + dot_git_suffix()) == strip_dot_git(seg),
        strip_dot_git(seg + dot_git_suffix()) == seg,
{
    let sg = seg + dot_git_suffix();
    assert forall|i: int| 0 <= i < 4 implies sg[sg.len() - 4 + i] == #[trigger] dot_git_suffix()[i]
        by {}
    assert(text::ends_with(sg, dot_git_suffix()));
    assert(sg.take(sg.len() - 4) =~= seg);
    if text::ends_with(seg, dot_git_suffix()) {
        text::lemma_ends_with_trans(u2, seg, dot_git_suffix());
        assert forall|i: int| 0 <= i < 8 implies url[url.len() - 8 + i] == #[trigger]
            double_dot_git()[i] by {
            if i < 4 {
                assert(url[url.len() - 8 + i] == u2[u2.len() - 4 + i]);
                assert(u2[u2.len() - 4 + i] == dot_git_suffix()[i]);
            } else {
                assert(url[url.len() - 8 + i] == dot_git_suffix()[i - 4]);
            }
        }
        assert(false);
    }
}

/// A derived name never contains a path separator, whatever the URL: what
/// follows the last slash has none, and stripping a suffix adds none.
pub proof fn lemma_name_has_no_separator(url: Seq<char>)
    ensures
        forall|i: int|
            0 <= i < repo_name_of(url).len() ==> #[trigger] repo_name_of(url)[i] != '/',
{
    let t = trim_one_slash(url);
    let seg = if text::starts_with(t, git_at_prefix()) {
        text::after_last(text::after_last(t, ':'), '/')
    } else {
        text::after_last(t, '/')
    };
    if text::starts_with(t, git_at_prefix()) {
        text::lemma_after_last_free(text::after_last(t, ':'), '/');
    } else {
        text::lemma_after_last_free(t, '/');
    }
    assert forall|i: int|
        0 <= i < repo_name_of(url).len() implies #[trigger] repo_name_of(url)[i] != '/' by {
        assert(repo_name_of(url)[i] == seg[i]);
    }
}

/// Derives the repository name from `url`; fails exactly when the derived
/// name would be empty (an empty URL, or one that is only slashes).
pub fn extract_repo_name(url: &str) -> (r: Result<String, NameResolutionError>)
    ensures
        r matches Ok(name) ==> name@ == repo_name_of(url@) && repo_name_of(url@).len() > 0,
        r is Err <==> repo_name_of(url@).len() == 0,
{
    let n = url.unicode_len();
    let trimmed: &str = if n > 0 && url.get_char(n - 1) == '/' {
        let t = url.substring_char(0, n - 1);
        assert(t@ =~= url@.drop_last());
        t
    } else {
        url
    };
    assert(trimmed@ == trim_one_slash(url@));
    let git_at: &str = "git@";
    proof {
        reveal_strlit("git@");
        assert(git_at@ =~= git_at_prefix());
    }
    let seg: &str = if text::starts_with_str(trimmed, git_at) {
        let after_colon = text::after_last_str(trimmed, ':');
        text::after_last_str(after_colon, '/')
    } else {
        text::after_last_str(trimmed, '/')
    };
    let dot_git: &str = ".git";
    proof {
        reveal_strlit(".git");
        assert(dot_git@ =~= dot_git_suffix());
    }
    let name = text::strip_suffix_str(seg, dot_git);
    assert(name@ == strip_dot_git(seg@));
    if name.unicode_len() == 0 {
        Err(NameResolutionError)
    } else {
        Ok(name.to_owned())
    }
}

} // verus!
