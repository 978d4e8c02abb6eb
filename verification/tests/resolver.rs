use sgit::{extract_repo_name, NameResolutionError};

#[test]
fn resolves_ssh_shorthand() {
    assert_eq!(
        extract_repo_name("git@host:group/project.git"),
        Ok("project".to_string())
    );
}

#[test]
fn resolves_https() {
    assert_eq!(
        extract_repo_name("https://host/group/project"),
        Ok("project".to_string())
    );
}

#[test]
fn resolves_http() {
    assert_eq!(
        extract_repo_name("http://host/group/project.git"),
        Ok("project".to_string())
    );
}

#[test]
fn resolves_ssh_scheme() {
    assert_eq!(
        extract_repo_name("ssh://host/group/project.git"),
        Ok("project".to_string())
    );
}

#[test]
fn resolves_bare_path_with_trailing_slash() {
    assert_eq!(
        extract_repo_name("group/project/"),
        Ok("project".to_string())
    );
}

#[test]
fn empty_url_fails() {
    assert_eq!(extract_repo_name(""), Err(NameResolutionError));
}

#[test]
fn only_slashes_fail() {
    assert_eq!(extract_repo_name("/"), Err(NameResolutionError));
}

#[test]
fn no_slash_falls_back_to_whole_string() {
    assert_eq!(extract_repo_name("project.git"), Ok("project".to_string()));
    assert_eq!(extract_repo_name("project"), Ok("project".to_string()));
}

#[test]
fn ssh_shorthand_with_extra_colons_cuts_at_last() {
    assert_eq!(
        extract_repo_name("git@host:group:sub/project.git"),
        Ok("project".to_string())
    );
}

#[test]
fn strips_only_one_git_suffix() {
    assert_eq!(extract_repo_name("p.git.git"), Ok("p.git".to_string()));
}

#[test]
fn git_suffix_does_not_change_the_name() {
    let pairs = [
        ("git@host:group/project.git", "git@host:group/project"),
        ("https://host/group/project.git", "https://host/group/project"),
        ("ssh://host/group/project.git", "ssh://host/group/project"),
        ("group/project.git", "group/project"),
    ];
    for (with_suffix, without_suffix) in pairs {
        assert_eq!(
            extract_repo_name(with_suffix),
            extract_repo_name(without_suffix)
        );
    }
}
