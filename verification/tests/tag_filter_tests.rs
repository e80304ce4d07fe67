use gitopolis::repos::Repo;
use gitopolis::tag_filter::select_repos;
use gitopolis::tag_filter::TagFilter;

#[test]
fn all_filter_matches_everything() {
    let filter = TagFilter::all();
    assert!(filter.matches(&[]));
    assert!(filter.matches(&["foo".to_string()]));
    assert!(filter.matches(&["foo".to_string(), "bar".to_string()]));
    assert!(filter.is_all());
}

#[test]
fn empty_cli_args_creates_all_filter() {
    let filter = TagFilter::from_cli_args(&[]);
    assert!(filter.is_all());
    assert!(filter.matches(&["anything".to_string()]));
}

#[test]
fn single_tag_matches_repos_with_that_tag() {
    let filter = TagFilter::from_cli_args(&["foo".to_string()]);
    assert!(filter.matches(&["foo".to_string()]));
    assert!(filter.matches(&["foo".to_string(), "bar".to_string()]));
    assert!(!filter.matches(&["bar".to_string()]));
    assert!(!filter.matches(&[]));
}

#[test]
fn comma_separated_tags_require_all_and_logic() {
    let filter = TagFilter::from_cli_args(&["foo,bar".to_string()]);
    assert!(filter.matches(&["foo".to_string(), "bar".to_string()]));
    assert!(filter.matches(&["foo".to_string(), "bar".to_string(), "baz".to_string()]));
    assert!(!filter.matches(&["foo".to_string()]));
    assert!(!filter.matches(&["bar".to_string()]));
    assert!(!filter.matches(&[]));
}

#[test]
fn multiple_tag_groups_use_or_logic() {
    let filter = TagFilter::from_cli_args(&["foo,bar".to_string(), "baz,boz".to_string()]);
    // Matches (foo AND bar)
    assert!(filter.matches(&["foo".to_string(), "bar".to_string()]));
    // Matches (baz AND boz)
    assert!(filter.matches(&["baz".to_string(), "boz".to_string()]));
    // Matches both groups
    assert!(filter.matches(&[
        "foo".to_string(),
        "bar".to_string(),
        "baz".to_string(),
        "boz".to_string()
    ]));
    // Doesn't match - only has foo (not foo AND bar)
    assert!(!filter.matches(&["foo".to_string()]));
    // Doesn't match - only has baz (not baz AND boz)
    assert!(!filter.matches(&["baz".to_string()]));
}

#[test]
fn whitespace_is_trimmed() {
    let filter = TagFilter::from_cli_args(&[" foo , bar ".to_string()]);
    assert!(filter.matches(&["foo".to_string(), "bar".to_string()]));
}

#[test]
fn empty_tag_argument_matches_nothing() {
    // An empty argument forms a group holding one empty-string tag, which no
    // repo carries.
    let filter = TagFilter::from_cli_args(&["".to_string()]);
    assert!(!filter.is_all());
    assert!(!filter.matches(&[]));
    assert!(!filter.matches(&["foo".to_string()]));
}

fn repo(path: &str, tags: &[&str]) -> Repo {
    let mut r = Repo::new(path.to_string());
    for t in tags {
        r.tags.push(t.to_string());
    }
    r
}

fn paths(repos: &[Repo]) -> Vec<String> {
    repos.iter().map(|r| r.path.clone()).collect()
}

#[test]
fn selection_scenario_and_group_versus_two_groups() {
    // repos a: [x, y]; b: [y]; c: []
    let make = || {
        vec![
            repo("a", &["x", "y"]),
            repo("b", &["y"]),
            repo("c", &[]),
        ]
    };

    // one flag "x,y": x AND y selects only a
    let and_filter = TagFilter::from_cli_args(&["x,y".to_string()]);
    let selected = select_repos(make(), &and_filter);
    assert_eq!(paths(&selected), vec!["a".to_string()]);

    // two flags "x" and "y": x OR y selects a and b
    let or_filter = TagFilter::from_cli_args(&["x".to_string(), "y".to_string()]);
    let selected = select_repos(make(), &or_filter);
    assert_eq!(paths(&selected), vec!["a".to_string(), "b".to_string()]);
}
