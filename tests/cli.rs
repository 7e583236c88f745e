use commitmux::cli::{db_not_found_message, repo_name_from_url, validate_git_url};
use commitmux::types::CommitmuxError;

#[test]
fn test_url_validation_rejects_bare_string() {
    let result = validate_git_url("not-a-url");
    assert!(result.is_err(), "bare string should fail URL validation");
    let err_msg = result.unwrap_err().message();
    assert!(
        err_msg.contains("not a valid git URL"),
        "error should mention invalid git URL, got: {}",
        err_msg
    );
}

#[test]
fn test_url_validation_accepts_https() {
    assert!(validate_git_url("https://github.com/user/repo").is_ok());
}

#[test]
fn test_url_validation_accepts_git_at() {
    assert!(validate_git_url("git@github.com:user/repo.git").is_ok());
}

#[test]
fn test_url_validation_accepts_ssh() {
    assert!(validate_git_url("ssh://git@github.com/user/repo.git").is_ok());
}

#[test]
fn url_validation_other_schemes() {
    assert!(validate_git_url("http://example.com/r.git").is_ok());
    assert!(validate_git_url("git://example.com/r.git").is_ok());
    assert!(validate_git_url("").is_err());
    match validate_git_url("ftp://x") {
        Err(CommitmuxError::Config(m)) => assert_eq!(
            m,
            "'ftp://x' is not a valid git URL (expected https://, http://, git@, git://, or ssh://)"
        ),
        other => panic!("unexpected {:?}", other),
    }
}

#[test]
fn test_db_not_found_hint_message() {
    let path = std::path::PathBuf::from("/nonexistent/path/db.sqlite3");
    if !path.exists() {
        let msg = db_not_found_message(&path.display().to_string());
        assert!(
            msg.contains("Run 'commitmux init' first"),
            "hint message should mention init, got: {}",
            msg
        );
        assert_eq!(
            msg,
            "Database not found at /nonexistent/path/db.sqlite3. Run 'commitmux init' first."
        );
    }
}

#[test]
fn repo_names_from_urls() {
    assert_eq!(repo_name_from_url("https://github.com/user/repo.git"), "repo");
    assert_eq!(repo_name_from_url("https://github.com/user/repo/"), "repo");
    assert_eq!(repo_name_from_url("git@github.com:user/tool.git.git"), "tool");
    assert_eq!(repo_name_from_url("plain"), "plain");
    assert_eq!(repo_name_from_url("ssh://host/a/.git"), "");
}
