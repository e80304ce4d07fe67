use gitopolis::repos::Repo;
use gitopolis::repos::Repos;

#[test]
fn idempotent_tag() {
    let mut repos = Repos::new();
    let path = "repo_path".to_string();
    let mut remotes = Vec::new();
    remotes.push(("origin".to_string(), "url".to_string()));
    repos.add(path.to_string(), remotes);
    let tag = "tag_name";
    repos
        .add_tag(tag, vec![path.to_owned()])
        .expect("tagging failed");
    repos
        .add_tag(tag, vec![path.to_owned()])
        .expect("tagging failed");
    let repo = repos.find_repo(path).expect("repo awol");
    assert_eq!(1, repo.tags.len());
    assert_eq!(tag, repo.tags[0]);
}

#[test]
fn remove_tag_drops_only_that_tag() {
    let mut repos = Repos::new();
    repos.add("r".to_string(), Vec::new());
    repos
        .add_tag("one", vec!["r".to_string()])
        .expect("tagging failed");
    repos
        .add_tag("two", vec!["r".to_string()])
        .expect("tagging failed");
    repos
        .remove_tag("one", vec!["r".to_string()])
        .expect("untagging failed");
    let repo = repos.find_repo("r".to_string()).expect("repo awol");
    assert_eq!(vec!["two".to_string()], repo.tags);
}

#[test]
fn tagging_unknown_repo_reports_it() {
    let mut repos = Repos::new();
    let err = repos
        .add_tag("t", vec!["ghost".to_string()])
        .expect_err("should fail");
    assert_eq!("Repo 'ghost' not found", err);
}

#[test]
fn add_remote_replaces_url_of_same_name_and_keeps_names_sorted() {
    let mut repo = Repo::new("r".to_string());
    repo.add_remote("upstream".to_string(), "u1".to_string());
    repo.add_remote("origin".to_string(), "o1".to_string());
    repo.add_remote("upstream".to_string(), "u2".to_string());
    let names: Vec<String> = repo.remotes.iter().map(|m| m.name.clone()).collect();
    let urls: Vec<String> = repo.remotes.iter().map(|m| m.url.clone()).collect();
    assert_eq!(vec!["origin".to_string(), "upstream".to_string()], names);
    assert_eq!(vec!["o1".to_string(), "u2".to_string()], urls);
}

#[test]
fn long_listing_line_is_tab_separated_with_comma_joins() {
    let mut repo = Repo::new("test_repo".to_string());
    repo.add_remote(
        "origin".to_string(),
        "git://example.org/origin_url".to_string(),
    );
    repo.add_remote(
        "upstream".to_string(),
        "git://example.org/upstream_url".to_string(),
    );
    assert_eq!(
        gitopolis::repos::repo_list_line(&repo, true),
        "test_repo\t\torigin=git://example.org/origin_url,upstream=git://example.org/upstream_url"
    );
    repo.tags.push("a".to_string());
    repo.tags.push("b".to_string());
    assert_eq!(
        gitopolis::repos::repo_list_line(&repo, true),
        "test_repo\ta,b\torigin=git://example.org/origin_url,upstream=git://example.org/upstream_url"
    );
    assert_eq!(gitopolis::repos::repo_list_line(&repo, false), "test_repo");
}

#[test]
fn remove_skips_absent_folders() {
    let mut repos = Repos::new();
    repos.add("a".to_string(), Vec::new());
    repos.add("b".to_string(), Vec::new());
    repos.remove(vec!["ghost".to_string(), "a".to_string()]);
    assert_eq!(1, repos.as_vec().len());
    assert_eq!("b", repos.as_vec()[0].path);
}
