use sgit::target_dir::resolve_target_dir;
use sgit::NameResolutionError;

#[test]
fn absolute_override_returned_verbatim() {
    assert_eq!(
        resolve_target_dir("https://h/x/y.git", Some("/opt/dir"), "/home/u"),
        Ok("/opt/dir".to_string())
    );
    assert_eq!(
        resolve_target_dir("", Some("/opt/dir"), "/elsewhere"),
        Ok("/opt/dir".to_string())
    );
}

#[test]
fn relative_override_joined_onto_cwd() {
    assert_eq!(
        resolve_target_dir("anything", Some("x"), "/home/u"),
        Ok("/home/u/x".to_string())
    );
}

#[test]
fn no_override_joins_repo_name() {
    assert_eq!(
        resolve_target_dir("git@h:g/p.git", None, "/home/u"),
        Ok("/home/u/p".to_string())
    );
}

#[test]
fn no_override_propagates_name_failure() {
    assert_eq!(
        resolve_target_dir("", None, "/home/u"),
        Err(NameResolutionError)
    );
}

#[test]
fn cwd_ending_in_slash_gets_no_second_separator() {
    assert_eq!(
        resolve_target_dir("a/b", None, "/"),
        Ok("/b".to_string())
    );
}
