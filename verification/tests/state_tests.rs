use gitopolis::repos::Repo;
use gitopolis::repos::Repos;
use gitopolis::state::parse;
use gitopolis::state::serialize;

fn sample_repos() -> Repos {
    let mut a = Repo::new("alpha".to_string());
    a.tags.push("backend".to_string());
    a.tags.push("rust".to_string());
    a.add_remote("origin".to_string(), "git://example.org/alpha".to_string());
    a.add_remote("upstream".to_string(), "git://example.org/up".to_string());
    let b = Repo::new("beta".to_string());
    Repos::new_with_repos(vec![a, b])
}

#[test]
fn serialize_empty_list() {
    assert_eq!(serialize(&Repos::new()), "repos = []\n");
}

#[test]
fn serialize_two_repos_with_remotes_and_tags() {
    let expected = "[[repos]]
path = \"alpha\"
tags = [\"backend\", \"rust\"]

[repos.remotes.origin]
name = \"origin\"
url = \"git://example.org/alpha\"

[repos.remotes.upstream]
name = \"upstream\"
url = \"git://example.org/up\"

[[repos]]
path = \"beta\"
tags = []
";
    assert_eq!(serialize(&sample_repos()), expected);
}

#[test]
fn parse_inverts_serialize() {
    let text = serialize(&sample_repos());
    let parsed = parse(&text).expect("parse failed");
    let round = serialize(&parsed);
    assert_eq!(text, round);

    let repos = parsed.into_vec();
    assert_eq!(2, repos.len());
    assert_eq!("alpha", repos[0].path);
    assert_eq!(vec!["backend".to_string(), "rust".to_string()], repos[0].tags);
    assert_eq!(2, repos[0].remotes.len());
    assert_eq!("origin", repos[0].remotes[0].name);
    assert_eq!("git://example.org/alpha", repos[0].remotes[0].url);
    assert_eq!("beta", repos[1].path);
    assert!(repos[1].tags.is_empty());
    assert!(repos[1].remotes.is_empty());
}

#[test]
fn parse_empty_document_and_empty_marker() {
    assert_eq!(0, parse("").expect("empty").into_vec().len());
    assert_eq!(0, parse("repos = []\n").expect("marker").into_vec().len());
}

#[test]
fn parse_rejects_unknown_lines() {
    let err = parse("nonsense here").expect_err("should fail");
    assert_eq!("unrecognized line: nonsense here", err);
}

#[test]
fn serialize_escapes_quotes_and_backslashes() {
    let mut r = Repo::new("dir\\sub".to_string());
    r.tags.push("odd\"tag".to_string());
    let repos = Repos::new_with_repos(vec![r]);
    let text = serialize(&repos);
    assert_eq!(
        text,
        "[[repos]]\npath = \"dir\\\\sub\"\ntags = [\"odd\\\"tag\"]\n"
    );
    let back = parse(&text).expect("parse failed").into_vec();
    assert_eq!("dir\\sub", back[0].path);
    assert_eq!("odd\"tag", back[0].tags[0]);
}
