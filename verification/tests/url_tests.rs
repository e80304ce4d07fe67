use gitopolis::gitopolis::extract_repo_name_from_url;
use gitopolis::gitopolis::normalize_folders;

#[test]
fn test_extract_repo_name_from_url() {
    assert_eq!(
        extract_repo_name_from_url("git@github.com:user/repo.git"),
        Some("repo".to_string())
    );
    assert_eq!(
        extract_repo_name_from_url("https://github.com/user/repo.git"),
        Some("repo".to_string())
    );
    assert_eq!(
        extract_repo_name_from_url("https://github.com/user/repo"),
        Some("repo".to_string())
    );
    assert_eq!(
        extract_repo_name_from_url("git@gitlab.com:group/subgroup/project.git"),
        Some("project".to_string())
    );
    assert_eq!(
        extract_repo_name_from_url("https://dev.azure.com/org/project/_git/myrepo"),
        Some("myrepo".to_string())
    );
    // Simple local path
    assert_eq!(
        extract_repo_name_from_url("source_repo"),
        Some("source_repo".to_string())
    );
}

#[test]
fn test_normalize_folders() {
    let input = vec![
        "foo".to_string(),
        "bar/".to_string(),  // *nix
        "baz\\".to_string(), // windows
    ];
    let output = normalize_folders(&input);
    assert_eq!(output, vec!["foo", "bar", "baz"]);
}

#[test]
fn extract_handles_trailing_separators_and_empty_urls() {
    assert_eq!(
        extract_repo_name_from_url("https://github.com/user/repo/"),
        Some("repo".to_string())
    );
    assert_eq!(extract_repo_name_from_url(""), None);
    assert_eq!(extract_repo_name_from_url("///"), None);
}
