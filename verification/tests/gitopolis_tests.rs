use gitopolis::git::Git;
use gitopolis::gitopolis::{Gitopolis, GitopolisError};
use gitopolis::storage::Storage;

#[test]
fn add() {
    let expected_toml = "[[repos]]
path = \"test_repo\"
tags = []

[repos.remotes.origin]
name = \"origin\"
url = \"git://example.org/test_url\"
";
    let storage = FakeStorage::new()
        .with_file_saved_callback(|state| assert_eq!(expected_toml.to_owned(), state));
    let git = FakeGit::new();
    let mut gitopolis = Gitopolis::new(storage, git);

    gitopolis.add("test_repo/".to_string()).expect("Failed");
}

#[test]
fn list() {
    let starting_state = "[[repos]]
path = \"test_repo\"
tags = []

[repos.remotes.origin]
name = \"origin\"
url = \"git://example.org/test_url\"\
";

    let storage = FakeStorage::new().with_contents(starting_state.to_string());

    let git = FakeGit::new();
    let gitopolis = Gitopolis::new(storage, git);
    let tag = &None;
    let actual_repos = gitopolis.list(tag).expect("TODO: panic message");

    let expected_repos = 1;
    assert_eq!(expected_repos, actual_repos.len())
}

#[test]
fn clone() {
    // todo: test cloning more than one repo

    let starting_state = "[[repos]]
path = \"test_repo\"
tags = []

[repos.remotes.origin]
name = \"origin\"
url = \"git://example.org/test_url\"\
";

    let storage = FakeStorage::new().with_contents(starting_state.to_string());

    let git = FakeGit::new().with_clone_callback(Box::new(|actual_path, actual_url| {
        assert_eq!(actual_path, "test_repo");
        assert_eq!(actual_url, "git://example.org/test_url");
    }));

    let gitopolis = Gitopolis::new(storage, git);

    let tag = &None;
    gitopolis.clone(gitopolis.list(tag).expect("TODO: panic message"));
}

#[test]
fn tag() {
    let starting_state = "[[repos]]
path = \"test_repo\"
tags = []

[repos.remotes.origin]
name = \"origin\"
url = \"git://example.org/test_url\"\
";

    let expected_toml = "[[repos]]
path = \"test_repo\"
tags = [\"some_tag\"]

[repos.remotes.origin]
name = \"origin\"
url = \"git://example.org/test_url\"
";

    let storage = FakeStorage::new()
        .with_contents(starting_state.to_string())
        .with_file_saved_callback(|state| assert_eq!(expected_toml.to_owned(), state));

    let git = FakeGit::new();
    let mut gitopolis = Gitopolis::new(storage, git);

    gitopolis
        .add_tag("some_tag", &["test_repo/".to_string()])
        .expect("TODO: panic message");
}

#[test]
fn remove_tag() {
    let starting_state = "[[repos]]
path = \"test_repo\"
tags = [\"some_tag\"]

[repos.remotes.origin]
name = \"origin\"
url = \"git://example.org/test_url\"\
";

    let expected_toml = "[[repos]]
path = \"test_repo\"
tags = []

[repos.remotes.origin]
name = \"origin\"
url = \"git://example.org/test_url\"
";

    let storage = FakeStorage::new()
        .with_contents(starting_state.to_string())
        .with_file_saved_callback(|state| assert_eq!(expected_toml.to_owned(), state));

    let git = FakeGit::new();
    let mut gitopolis = Gitopolis::new(storage, git);

    gitopolis
        .remove_tag("some_tag", &["test_repo/".to_string()])
        .expect("TODO: panic message");
}

#[test]
fn tags() {
    let starting_state = "[[repos]]
path = \"repo1\"
tags = [\"some_tag\", \"another_tag\"]

[repos.remotes.origin]
name = \"origin\"
url = \"git://example.org/test_url\"

[[repos]]
path = \"repo2\"
tags = [\"some_tag\", \"more_tags\"]

[repos.remotes.origin]
name = \"origin\"
url = \"git://example.org/test_url\"\
";
    let storage = FakeStorage::new().with_contents(starting_state.to_string());

    let git = FakeGit::new();
    let gitopolis = Gitopolis::new(storage, git);

    let result = gitopolis.tags().expect("TODO: panic message");
    assert_eq!(3, result.len());
    assert_eq!("another_tag", result[0]);
    assert_eq!("more_tags", result[1]);
    assert_eq!("some_tag", result[2]);
}

#[test]
fn list_returns_repos_sorted_alphabetically() {
    let starting_state = "[[repos]]
path = \"zebra_repo\"
tags = [\"zulu\"]

[repos.remotes.origin]
name = \"origin\"
url = \"git://example.org/zebra\"

[[repos]]
path = \"alpha_repo\"
tags = [\"alpha\"]

[repos.remotes.origin]
name = \"origin\"
url = \"git://example.org/alpha\"\
";

    let storage = FakeStorage::new().with_contents(starting_state.to_string());

    let git = FakeGit::new();
    let gitopolis = Gitopolis::new(storage, git);

    let repos = gitopolis.list(&None).expect("Failed to list repos");

    assert_eq!(2, repos.len());
    assert_eq!("alpha_repo", repos[0].path);
    assert_eq!("zebra_repo", repos[1].path);
}

#[test]
fn list_with_tag_filter_returns_sorted_repos() {
    let starting_state = "[[repos]]
path = \"zebra_repo\"
tags = [\"backend\"]

[repos.remotes.origin]
name = \"origin\"
url = \"git://example.org/zebra\"

[[repos]]
path = \"middle_repo\"
tags = [\"frontend\"]

[repos.remotes.origin]
name = \"origin\"
url = \"git://example.org/middle\"

[[repos]]
path = \"alpha_repo\"
tags = [\"backend\"]

[repos.remotes.origin]
name = \"origin\"
url = \"git://example.org/alpha\"\
";

    let storage = FakeStorage::new().with_contents(starting_state.to_string());

    let git = FakeGit::new();
    let gitopolis = Gitopolis::new(storage, git);

    let repos = gitopolis
        .list(&Some("backend".to_string()))
        .expect("Failed to list repos");

    assert_eq!(2, repos.len());
    assert_eq!("alpha_repo", repos[0].path);
    assert_eq!("zebra_repo", repos[1].path);
}

#[test]
fn tags_long_repos_sorted_within_tag() {
    let starting_state = "[[repos]]
path = \"zebra_repo\"
tags = [\"backend\"]

[repos.remotes.origin]
name = \"origin\"
url = \"git://example.org/zebra\"

[[repos]]
path = \"alpha_repo\"
tags = [\"backend\"]

[repos.remotes.origin]
name = \"origin\"
url = \"git://example.org/alpha\"\
";

    let storage = FakeStorage::new().with_contents(starting_state.to_string());

    let git = FakeGit::new();
    let gitopolis = Gitopolis::new(storage, git);

    let tags = gitopolis.tags().expect("Failed to get tags");
    assert_eq!(1, tags.len());
    assert_eq!("backend", tags[0]);

    let repos = gitopolis
        .list(&Some("backend".to_string()))
        .expect("Failed to list repos");
    assert_eq!(2, repos.len());
    assert_eq!("alpha_repo", repos[0].path);
    assert_eq!("zebra_repo", repos[1].path);
}

#[test]
fn remove() {
    let starting_state = "[[repos]]
path = \"test_repo\"
tags = []

[repos.remotes.origin]
name = \"origin\"
url = \"git://example.org/test_url\"\
";

    let expected_toml = "repos = []\n";

    let storage = FakeStorage::new()
        .with_contents(starting_state.to_string())
        .with_file_saved_callback(|state| assert_eq!(expected_toml.to_owned(), state));

    let git = FakeGit::new();
    let mut gitopolis = Gitopolis::new(storage, git);

    gitopolis
        .remove(&["test_repo/".to_string()])
        .expect("TODO: panic message");
}

#[test]
fn remove_unknown() {
    let storage = FakeStorage::new();
    let git = FakeGit::new();
    let mut gitopolis = Gitopolis::new(storage, git);

    gitopolis
        .remove(&["non-existent-repo".to_string()])
        .expect("Failed");
}

#[test]
fn sync_read_remotes_replaces_stored_remotes_from_git() {
    let starting_state = "[[repos]]
path = \"test_repo\"
tags = []

[repos.remotes.origin]
name = \"origin\"
url = \"git://example.org/stale_url\"\
";

    let expected_toml = "[[repos]]
path = \"test_repo\"
tags = []

[repos.remotes.origin]
name = \"origin\"
url = \"git://example.org/test_url\"
";

    let storage = FakeStorage::new()
        .with_contents(starting_state.to_string())
        .with_file_saved_callback(|state| assert_eq!(expected_toml.to_owned(), state));
    let git = FakeGit::new();
    let mut gitopolis = Gitopolis::new(storage, git);

    let failed = gitopolis.sync_read_remotes(&None).expect("sync failed");
    assert!(failed.is_empty());
}

#[test]
fn move_repo_entry_rekeys_and_keeps_tags_and_remotes() {
    let starting_state = "[[repos]]
path = \"old_place\"
tags = [\"keep\"]

[repos.remotes.origin]
name = \"origin\"
url = \"git://example.org/test_url\"\
";

    let expected_toml = "[[repos]]
path = \"new_place\"
tags = [\"keep\"]

[repos.remotes.origin]
name = \"origin\"
url = \"git://example.org/test_url\"
";

    let storage = FakeStorage::new()
        .with_contents(starting_state.to_string())
        .with_file_saved_callback(|state| assert_eq!(expected_toml.to_owned(), state));
    let git = FakeGit::new();
    let mut gitopolis = Gitopolis::new(storage, git);

    gitopolis
        .move_repo_entry("old_place/", "new_place")
        .expect("move failed");
}

#[test]
fn move_repo_entry_reports_missing_repo() {
    let storage = FakeStorage::new();
    let git = FakeGit::new();
    let mut gitopolis = Gitopolis::new(storage, git);
    let err = gitopolis
        .move_repo_entry("ghost", "elsewhere")
        .expect_err("should error");
    assert_eq!("Repo 'ghost' not found", err.message());
}

#[test]
fn list_unparseable_state_reports_state_error() {
    let storage = FakeStorage::new().with_contents("garbage here".to_string());
    let git = FakeGit::new();
    let gitopolis = Gitopolis::new(storage, git);
    let err = gitopolis.list(&None).expect_err("should error");
    assert_eq!(
        "Failed to parse state data as valid TOML. unrecognized line: garbage here",
        err.message()
    );
}

#[test]
fn error_messages_come_from_each_variant() {
    let g = GitopolisError::GitError {
        message: "g".to_string(),
    };
    let s = GitopolisError::StateError {
        message: "s".to_string(),
    };
    let r = GitopolisError::GitRemoteError {
        message: "r".to_string(),
        remote: "origin".to_string(),
    };
    let i = GitopolisError::IoError {
        message: "i".to_string(),
    };
    assert_eq!("g", g.message());
    assert_eq!("s", s.message());
    assert_eq!("r", r.message());
    assert_eq!("i", i.message());
}

#[test]
fn clone_and_add_rejects_url_without_a_name() {
    let storage = FakeStorage::new();
    let git = FakeGit::new();
    let mut gitopolis = Gitopolis::new(storage, git);
    let err = gitopolis
        .clone_and_add("///", None, &[])
        .expect_err("should error");
    assert_eq!(
        "Could not extract repository name from URL: ///",
        err.message()
    );
}

#[test]
fn show_reports_missing_repo() {
    let storage = FakeStorage::new();
    let git = FakeGit::new();
    let gitopolis = Gitopolis::new(storage, git);
    let err = gitopolis.show("ghost").expect_err("should error");
    assert_eq!("Repo 'ghost' not found", err.message());
}

#[test]
fn show_hands_back_tags_and_remotes() {
    let starting_state = "[[repos]]
path = \"test_repo\"
tags = [\"t1\"]

[repos.remotes.origin]
name = \"origin\"
url = \"git://example.org/test_url\"\
";
    let storage = FakeStorage::new().with_contents(starting_state.to_string());
    let git = FakeGit::new();
    let gitopolis = Gitopolis::new(storage, git);
    let info = gitopolis.show("test_repo/").expect("show failed");
    assert_eq!("test_repo", info.path);
    assert_eq!(vec!["t1".to_string()], info.tags);
    assert_eq!(1, info.remotes.len());
    assert_eq!("origin", info.remotes[0].name);
    assert_eq!("git://example.org/test_url", info.remotes[0].url);
}

struct FakeStorage {
    present: bool,
    contents: String,
    file_saved_callback: Box<dyn Fn(String)>,
}

// fluent interface for building up fake storage (like the "builder pattern")
impl FakeStorage {
    fn new() -> Self {
        Self {
            present: false,
            contents: "".to_string(),
            file_saved_callback: Box::new(|_| {}),
        }
    }

    fn with_contents(mut self, contents: String) -> Self {
        self.present = true;
        self.contents = contents;
        self
    }

    fn with_file_saved_callback<F>(mut self, callback: F) -> Self
    where
        F: Fn(String) + 'static,
    {
        self.file_saved_callback = Box::new(callback);
        self
    }
}

impl Storage for FakeStorage {
    fn state_exists(&self) -> bool {
        self.present
    }

    fn save(&self, state_toml: String) {
        (self.file_saved_callback)(state_toml);
    }

    fn read(&self) -> String {
        self.contents.to_owned()
    }
}

struct FakeGit {
    clone_callback: Box<dyn Fn(String, String)>,
}

// fluent interface for building up fake git
impl FakeGit {
    fn new() -> Self {
        Self {
            clone_callback: Box::new(|_, _| {}),
        }
    }

    fn with_clone_callback(mut self, callback: Box<dyn Fn(String, String)>) -> Self {
        self.clone_callback = callback;
        self
    }
}

impl Git for FakeGit {
    fn read_url(&self, _path: String, _remote_name: String) -> Result<String, GitopolisError> {
        Ok("git://example.org/test_url".to_string())
    }

    fn read_all_remotes(&self, _path: String) -> Result<Vec<(String, String)>, GitopolisError> {
        let mut remotes = Vec::new();
        remotes.push((
            "origin".to_string(),
            "git://example.org/test_url".to_string(),
        ));
        Ok(remotes)
    }

    fn add_remote(&self, _path: &str, _remote_name: &str, _url: &str) {
        // No-op for fake implementation
    }

    fn clone(&self, path: &str, url: &str) {
        (self.clone_callback)(path.to_owned(), url.to_owned())
    }
}
