//! The manager: loads the repo list from storage, applies one operation, and
//! saves it back. Storage and git are injected traits, so everything here is
//! orchestration around the verified list operations and the state format.

use vstd::prelude::*;

use crate::git::Git;
use crate::order::strictly_sorted_strings;
use crate::repos::collect_tags;
use crate::repos::filter_repos_by_tag;
use crate::repos::sort_repos_by_path;
use crate::repos::sorted_by_path;
use crate::repos::Repo;
use crate::repos::RepoInfo;
use crate::repos::Repos;
use crate::storage::Storage;
use crate::text::chars_to_string;
use crate::text::append_str;
use crate::text::str_to_chars;
use crate::text::subvec;
use crate::text::trim_end_char;
use crate::text::trim_end_char_spec;
use crate::text::views_of_strings;

verus! {

/// What can go wrong while managing the repo list.
#[derive(Debug)]
pub enum GitopolisError {
    /// A git operation failed.
    GitError { message: String },
    /// The stored state was missing something or could not be read back.
    StateError { message: String },
    /// A named remote could not be used.
    GitRemoteError { message: String, remote: String },
    /// An I/O operation failed.
    IoError { message: String },
}

/// The human-readable text of an error.
pub open spec fn error_message_view(e: GitopolisError) -> Seq<char> {
    match e {
        GitopolisError::GitError { message } => message@,
        GitopolisError::StateError { message } => message@,
        GitopolisError::GitRemoteError { message, remote } => message@,
        GitopolisError::IoError { message } => message@,
    }
}

impl GitopolisError {
    /// The error's message.
    pub fn message(&self) -> (r: String)
        ensures
            r@ == error_message_view(*self),
    {
        match self {
            GitopolisError::GitError { message } => message.clone(),
            GitopolisError::StateError { message } => message.clone(),
            GitopolisError::GitRemoteError { message, remote: _ } => message.clone(),
            GitopolisError::IoError { message } => message.clone(),
        }
    }
}

// ---------------------------------------------------------------------------
// Folder-name and URL helpers
// ---------------------------------------------------------------------------

/// A folder name without its trailing path separators: every trailing `/` is
/// dropped, then every trailing `\`.
pub open spec fn normalize_folder_spec(s: Seq<char>) -> Seq<char> {
    trim_end_char_spec(trim_end_char_spec(s, '/'), '\\')
}

/// Strips trailing path separators from a folder name.
pub fn normalize_folder(repo_folder: String) -> (r: String)
    ensures
        r@ == normalize_folder_spec(repo_folder@),
{
    let cs = str_to_chars(repo_folder.as_str());
    let trimmed = trim_end_char(&trim_end_char(&cs, '/'), '\\');
    chars_to_string(&trimmed)
}

/// Strips trailing path separators from each folder name.
pub fn normalize_folders(repo_folders: &[String]) -> (r: Vec<String>)
    ensures
        views_of_strings(r@) == views_of_strings(repo_folders@).map_values(
            |s: Seq<char>| normalize_folder_spec(s),
        ),
{
    let mut r: Vec<String> = Vec::new();
    let mut i: usize = 0;
    while i < repo_folders.len()
        invariant
            i <= repo_folders@.len(),
            r@.len() == i,
            forall|j: int| 0 <= j < i ==> r@[j]@ == normalize_folder_spec(repo_folders@[j]@),
        decreases repo_folders@.len() - i,
    {
        r.push(normalize_folder(repo_folders[i].clone()));
        i = i + 1;
    }
    proof {
        assert(views_of_strings(r@) =~= views_of_strings(repo_folders@).map_values(
            |s: Seq<char>| normalize_folder_spec(s),
        ));
    }
    r
}

/// Whether `c` separates the segments of a git URL.
pub open spec fn is_url_sep(c: char) -> bool {
    c == '/' || c == ':'
}

/// `s` without its trailing URL separators.
pub open spec fn strip_trailing_seps(s: Seq<char>) -> Seq<char>
    decreases s.len(),
{
    if s.len() > 0 && is_url_sep(s[s.len() - 1]) {
        strip_trailing_seps(s.drop_last())
    } else {
        s
    }
}

/// The maximal separator-free run at the end of `s`.
pub open spec fn run_from_end(s: Seq<char>) -> Seq<char>
    decreases s.len(),
{
    if s.len() == 0 || is_url_sep(s[s.len() - 1]) {
        Seq::empty()
    } else {
        run_from_end(s.drop_last()).push(s[s.len() - 1])
    }
}

/// `s` without any trailing `.git` suffixes.
pub open spec fn strip_dotgit(s: Seq<char>) -> Seq<char>
    decreases s.len(),
{
    if s.len() >= 4 && s.subrange(s.len() - 4, s.len() as int) == seq!['.', 'g', 'i', 't'] {
        strip_dotgit(s.subrange(0, s.len() - 4))
    } else {
        s
    }
}

/// The folder name `git clone` would pick for a URL: the last non-empty
/// segment between `/` or `:` separators, without a `.git` suffix; `None`
/// when the URL holds no such segment.
pub open spec fn extract_repo_name_spec(url: Seq<char>) -> Option<Seq<char>> {
    let t = strip_trailing_seps(url);
    if t.len() == 0 {
        None
    } else {
        Some(strip_dotgit(run_from_end(t)))
    }
}

proof fn lemma_strip_trailing_seps_subrange(s: Seq<char>, e: int)
    requires
        0 <= e <= s.len(),
        forall|j: int| e <= j < s.len() ==> is_url_sep(s[j]),
        e > 0 ==> !is_url_sep(s[e - 1]),
    ensures
        strip_trailing_seps(s) == s.subrange(0, e),
    decreases s.len() - e,
{
    if e == s.len() {
        assert(s.subrange(0, s.len() as int) =~= s);
    } else {
        let t = s.drop_last();
        lemma_strip_trailing_seps_subrange(t, e);
        assert(t.subrange(0, e) =~= s.subrange(0, e));
    }
}

proof fn lemma_run_from_end_subrange(s: Seq<char>, b: int)
    requires
        0 <= b <= s.len(),
        forall|j: int| b <= j < s.len() ==> !is_url_sep(s[j]),
        b > 0 ==> is_url_sep(s[b - 1]),
    ensures
        run_from_end(s) == s.subrange(b, s.len() as int),
    decreases s.len() - b,
{
    if b == s.len() {
        assert(s.subrange(b, s.len() as int) =~= Seq::<char>::empty());
    } else {
        let t = s.drop_last();
        lemma_run_from_end_subrange(t, b);
        assert(t.subrange(b, t.len() as int).push(s[s.len() - 1]) =~= s.subrange(
            b,
            s.len() as int,
        ));
    }
}

/// The folder name a clone of `url` would land in, when the URL names one.
pub fn extract_repo_name_from_url(url: &str) -> (r: Option<String>)
    ensures
        match r {
            Some(name) => extract_repo_name_spec(url@) == Some(name@),
            None => extract_repo_name_spec(url@) is None,
        },
{
    let cs = str_to_chars(url);
    let n = cs.len();
    let mut e: usize = n;
    while e > 0 && (cs[e - 1] == '/' || cs[e - 1] == ':')
        invariant
            e <= n,
            n == cs@.len(),
            forall|j: int| e <= j < n ==> is_url_sep(cs@[j]),
        decreases e,
    {
        e = e - 1;
    }
    proof {
        lemma_strip_trailing_seps_subrange(cs@, e as int);
    }
    if e == 0 {
        proof {
            assert(strip_trailing_seps(cs@) =~= Seq::<char>::empty());
        }
        return None;
    }
    let ghost t = cs@.subrange(0, e as int);
    let mut b: usize = e;
    while b > 0 && !(cs[b - 1] == '/' || cs[b - 1] == ':')
        invariant
            b <= e <= n,
            n == cs@.len(),
            forall|j: int| b <= j < e ==> !is_url_sep(cs@[j]),
        decreases b,
    {
        b = b - 1;
    }
    proof {
        assert(forall|j: int| b <= j < t.len() ==> !is_url_sep(#[trigger] t[j]));
        if b > 0 {
            assert(t[b - 1] == cs@[b - 1]);
        }
        lemma_run_from_end_subrange(t, b as int);
        assert(t.subrange(b as int, t.len() as int) =~= cs@.subrange(b as int, e as int));
    }
    let mut part = subvec(&cs, b, e);
    while part.len() >= 4 && part[part.len() - 4] == '.' && part[part.len() - 3] == 'g' && part[
        part.len() - 2] == 'i' && part[part.len() - 1] == 't'
        invariant
            strip_dotgit(part@) == strip_dotgit(cs@.subrange(b as int, e as int)),
        decreases part@.len(),
    {
        proof {
            assert(part@.subrange(part@.len() - 4, part@.len() as int) =~= seq![
                '.',
                'g',
                'i',
                't',
            ]);
        }
        let m = part.len();
        part = subvec(&part, 0, m - 4);
    }
    proof {
        if part@.len() >= 4 && part@.subrange(part@.len() - 4, part@.len() as int) == seq![
            '.',
            'g',
            'i',
            't',
        ] {
            assert(part@[part@.len() - 4] == '.');
            assert(part@[part@.len() - 3] == 'g');
            assert(part@[part@.len() - 2] == 'i');
            assert(part@[part@.len() - 1] == 't');
            assert(false);
        }
        assert(strip_dotgit(part@) == part@);
    }
    Some(chars_to_string(&part))
}

// ---------------------------------------------------------------------------
// The manager
// ---------------------------------------------------------------------------

/// The repo manager, generic over where state lives and how git is driven.
pub struct Gitopolis<S: Storage, G: Git> {
    storage: S,
    git: G,
}

impl<S: Storage, G: Git> Gitopolis<S, G> {
    /// A manager over the given storage and git implementations.
    pub fn new(storage: S, git: G) -> (r: Gitopolis<S, G>) {
        Gitopolis { storage, git }
    }

    /// Loads the repo list: an empty list when no state exists, else the
    /// parsed document. A document the parser cannot read yields a
    /// `StateError`; every entry of a successful load is well-formed.
    fn load(&self) -> (r: Result<Repos, GitopolisError>)
        ensures
            match r {
                Ok(repos) => forall|i: int| 0 <= i < repos@.len() ==> (#[trigger] repos@[i]).wf(),
                Err(e) => e is StateError,
            },
    {
        if !self.storage.state_exists() {
            return Ok(Repos::new());
        }
        let state_toml = self.storage.read();
        match crate::state::parse(state_toml.as_str()) {
            Ok(repos) => Ok(repos),
            Err(detail) => {
                let mut msg: Vec<char> = Vec::new();
                append_str(&mut msg, "Failed to parse state data as valid TOML. ");
                append_str(&mut msg, detail.as_str());
                Err(GitopolisError::StateError { message: chars_to_string(&msg) })
            },
        }
    }

    /// Serializes the repo list and hands it to storage.
    fn save(&self, repos: Repos) -> (r: Result<(), GitopolisError>)
        ensures
            r is Ok,
    {
        let state_toml = crate::state::serialize(&repos);
        self.storage.save(state_toml);
        Ok(())
    }

    /// Starts managing `repo_folder`: reads its remotes from git and appends
    /// it to the stored list. A folder already managed is left alone.
    pub fn add(&mut self, repo_folder: String) -> (r: Result<(), GitopolisError>) {
        let mut repos = match self.load() {
            Ok(rs) => rs,
            Err(e) => {
                return Err(e);
            },
        };
        let normalized_folder = normalize_folder(repo_folder);
        match repos.repo_index(normalized_folder.clone()) {
            Some(_) => Ok(()),
            None => {
                let remotes = match self.git.read_all_remotes(normalized_folder.clone()) {
                    Ok(rs) => rs,
                    Err(e) => {
                        return Err(e);
                    },
                };
                repos.add(normalized_folder, remotes);
                self.save(repos)
            },
        }
    }

    /// Stops managing the given folders; missing entries are skipped.
    pub fn remove(&mut self, repo_folders: &[String]) -> (r: Result<(), GitopolisError>) {
        let mut repos = match self.load() {
            Ok(rs) => rs,
            Err(e) => {
                return Err(e);
            },
        };
        repos.remove(normalize_folders(repo_folders));
        self.save(repos)
    }

    /// Adds `tag_name` to each named repo.
    pub fn add_tag(&mut self, tag_name: &str, repo_folders: &[String]) -> (r: Result<
        (),
        GitopolisError,
    >) {
        let mut repos = match self.load() {
            Ok(rs) => rs,
            Err(e) => {
                return Err(e);
            },
        };
        match repos.add_tag(tag_name, normalize_folders(repo_folders)) {
            Ok(()) => self.save(repos),
            Err(message) => Err(GitopolisError::StateError { message }),
        }
    }

    /// Removes `tag_name` from each named repo.
    pub fn remove_tag(&mut self, tag_name: &str, repo_folders: &[String]) -> (r: Result<
        (),
        GitopolisError,
    >) {
        let mut repos = match self.load() {
            Ok(rs) => rs,
            Err(e) => {
                return Err(e);
            },
        };
        match repos.remove_tag(tag_name, normalize_folders(repo_folders)) {
            Ok(()) => self.save(repos),
            Err(message) => Err(GitopolisError::StateError { message }),
        }
    }

    /// The managed repos, sorted by path; with a tag, only repos carrying it.
    pub fn list(&self, tag_name: &Option<String>) -> (r: Result<Vec<Repo>, GitopolisError>)
        ensures
            match r {
                Ok(list) => sorted_by_path(list@.map_values(|x: Repo| x@)) && (tag_name is Some
                    ==> forall|i: int|
                    0 <= i < list@.len() ==> (#[trigger] list@[i]@).tags.contains(
                        tag_name.unwrap()@,
                    )),
                Err(e) => e is StateError,
            },
    {
        let repos = match self.load() {
            Ok(rs) => rs,
            Err(e) => {
                return Err(e);
            },
        };
        let all = repos.into_vec();
        let ghost all_views = all@.map_values(|x: Repo| x@);
        let filtered = match tag_name {
            None => all,
            Some(tag) => filter_repos_by_tag(all, tag),
        };
        let ghost fv = filtered@.map_values(|x: Repo| x@);
        let sorted = sort_repos_by_path(filtered);
        proof {
            if tag_name is Some {
                let tag_view = tag_name.unwrap()@;
                let pred = |v: crate::repos::RepoView| v.tags.contains(tag_view);
                let sv = sorted@.map_values(|x: Repo| x@);
                assert forall|i: int| 0 <= i < sv.len() implies (#[trigger] sv[i]).tags.contains(
                    tag_view,
                ) by {
                    sv.to_multiset_ensures();
                    fv.to_multiset_ensures();
                    assert(sv.contains(sv[i]));
                    assert(sv.to_multiset().count(sv[i]) > 0);
                    assert(fv.to_multiset().count(sv[i]) > 0);
                    assert(fv.contains(sv[i]));
                    let w = choose|j: int| 0 <= j < fv.len() && fv[j] == sv[i];
                    all_views.lemma_filter_pred(pred, w);
                }
                assert forall|i: int| 0 <= i < sorted@.len() implies (
                #[trigger] sorted@[i]@).tags.contains(tag_view) by {
                    assert(sorted@[i]@ == sv[i]);
                }
            }
        }
        Ok(sorted)
    }

    /// The loaded repo list itself.
    pub fn read(&self) -> (r: Result<Repos, GitopolisError>)
        ensures
            match r {
                Ok(repos) => forall|i: int| 0 <= i < repos@.len() ==> (#[trigger] repos@[i]).wf(),
                Err(e) => e is StateError,
            },
    {
        self.load()
    }

    /// Clones each repo from its `origin` remote (or its first remote when
    /// no `origin` exists), then registers the remaining remotes.
    pub fn clone(&self, repos: Vec<Repo>) {
        let mut i: usize = 0;
        while i < repos.len()
            decreases repos@.len() - i,
        {
            let repo = &repos[i];
            let mut clone_ix: usize = 0;
            let mut found_origin = false;
            let mut j: usize = 0;
            while j < repo.remotes.len()
                invariant
                    clone_ix <= j <= repo.remotes@.len(),
                    found_origin ==> clone_ix < repo.remotes@.len(),
                    !found_origin ==> clone_ix == 0,
                decreases repo.remotes@.len() - j,
            {
                if !found_origin && repo.remotes[j].name.eq(&"origin".to_owned()) {
                    clone_ix = j;
                    found_origin = true;
                }
                j = j + 1;
            }
            if repo.remotes.len() > 0 {
                let chosen = if found_origin {
                    clone_ix
                } else {
                    0
                };
                self.git.clone(repo.path.as_str(), repo.remotes[chosen].url.as_str());
                let mut k: usize = 0;
                while k < repo.remotes.len()
                    invariant
                        chosen < repo.remotes@.len(),
                    decreases repo.remotes@.len() - k,
                {
                    if k != chosen {
                        self.git.add_remote(
                            repo.path.as_str(),
                            repo.remotes[k].name.as_str(),
                            repo.remotes[k].url.as_str(),
                        );
                    }
                    k = k + 1;
                }
            }
            i = i + 1;
        }
    }

    /// Every tag in use, sorted and without duplicates.
    pub fn tags(&self) -> (r: Result<Vec<String>, GitopolisError>)
        ensures
            match r {
                Ok(ts) => strictly_sorted_strings(ts@),
                Err(e) => e is StateError,
            },
    {
        let repos = match self.load() {
            Ok(rs) => rs,
            Err(e) => {
                return Err(e);
            },
        };
        let all = repos.into_vec();
        Ok(collect_tags(&all))
    }

    /// A snapshot of one managed repo, or a `StateError` naming the folder
    /// when it is not managed.
    pub fn show(&self, repo_path: &str) -> (r: Result<RepoInfo, GitopolisError>) {
        let repos = match self.load() {
            Ok(rs) => rs,
            Err(e) => {
                return Err(e);
            },
        };
        let normalized_path = normalize_folder(repo_path.to_owned());
        match repos.find_repo(normalized_path.clone()) {
            Some(repo) => {
                let d = repo.duplicate();
                Ok(RepoInfo { path: d.path, tags: d.tags, remotes: d.remotes })
            },
            None => Err(
                GitopolisError::StateError { message: not_found_message(&normalized_path) },
            ),
        }
    }

    /// Clones a repository from `url` (into `target_dir` when given, else
    /// into the folder the URL names) and starts managing it with the given
    /// tags. Fails up front when no folder name can be derived from the URL.
    pub fn clone_and_add(&mut self, url: &str, target_dir: Option<&str>, tags: &[String]) -> (r:
        Result<String, GitopolisError>)
        ensures
            (target_dir is None && extract_repo_name_spec(url@) is None) ==> r is Err,
            r is Ok ==> r.unwrap()@ == (match target_dir {
                Some(d) => d@,
                None => extract_repo_name_spec(url@).unwrap(),
            }),
    {
        let folder_name: String = match target_dir {
            Some(dir) => dir.to_owned(),
            None => {
                match extract_repo_name_from_url(url) {
                    Some(name) => name,
                    None => {
                        let mut msg: Vec<char> = Vec::new();
                        append_str(&mut msg, "Could not extract repository name from URL: ");
                        append_str(&mut msg, url);
                        return Err(
                            GitopolisError::StateError { message: chars_to_string(&msg) },
                        );
                    },
                }
            },
        };
        self.git.clone(folder_name.as_str(), url);
        match self.add(folder_name.clone()) {
            Ok(()) => (),
            Err(e) => {
                return Err(e);
            },
        }
        let mut i: usize = 0;
        while i < tags.len()
            invariant
                folder_name@ == (match target_dir {
                    Some(d) => d@,
                    None => extract_repo_name_spec(url@).unwrap(),
                }),
            decreases tags@.len() - i,
        {
            let mut folders: Vec<String> = Vec::new();
            folders.push(folder_name.clone());
            match self.add_tag(tags[i].as_str(), folders.as_slice()) {
                Ok(()) => (),
                Err(e) => {
                    return Err(e);
                },
            }
            i = i + 1;
        }
        Ok(folder_name)
    }

    /// Re-keys one managed repo under a new path, keeping its tags and
    /// remotes. The folder itself must already have been moved on disk.
    pub fn move_repo_entry(&mut self, old_path: &str, new_path: &str) -> (r: Result<
        (),
        GitopolisError,
    >) {
        let mut repos = match self.load() {
            Ok(rs) => rs,
            Err(e) => {
                return Err(e);
            },
        };
        let normalized_old = normalize_folder(old_path.to_owned());
        let normalized_new = normalize_folder(new_path.to_owned());
        let dup = match repos.find_repo(normalized_old.clone()) {
            Some(repo) => repo.duplicate(),
            None => {
                return Err(
                    GitopolisError::StateError { message: not_found_message(&normalized_old) },
                );
            },
        };
        let mut olds: Vec<String> = Vec::new();
        olds.push(normalized_old);
        repos.remove(olds);
        repos.add_with_tags_and_remotes(normalized_new, dup.tags, dup.remotes);
        self.save(repos)
    }

    /// Reads each listed repo's remotes from git and replaces the stored
    /// ones with them. Hands back the paths whose remotes could not be read;
    /// those entries keep their stored remotes.
    pub fn sync_read_remotes(&mut self, tag_name: &Option<String>) -> (r: Result<
        Vec<String>,
        GitopolisError,
    >) {
        let mut repos = match self.load() {
            Ok(rs) => rs,
            Err(e) => {
                return Err(e);
            },
        };
        let repo_list = match self.list(tag_name) {
            Ok(l) => l,
            Err(e) => {
                return Err(e);
            },
        };
        let mut failed: Vec<String> = Vec::new();
        let mut i: usize = 0;
        while i < repo_list.len()
            invariant
                forall|j: int| 0 <= j < repos@.len() ==> (#[trigger] repos@[j]).wf(),
            decreases repo_list@.len() - i,
        {
            let path = repo_list[i].path.clone();
            match self.git.read_all_remotes(path.clone()) {
                Ok(remotes) => {
                    repos = replace_remotes(repos, &path, remotes);
                },
                Err(_) => {
                    failed.push(path);
                },
            }
            i = i + 1;
        }
        match self.save(repos) {
            Ok(()) => Ok(failed),
            Err(e) => Err(e),
        }
    }

    /// Registers, on each listed repo, every stored remote that git does not
    /// know yet. Hands back the paths whose remotes could not be read.
    pub fn sync_write_remotes(&self, tag_name: &Option<String>) -> (r: Result<
        Vec<String>,
        GitopolisError,
    >) {
        let repo_list = match self.list(tag_name) {
            Ok(l) => l,
            Err(e) => {
                return Err(e);
            },
        };
        let mut failed: Vec<String> = Vec::new();
        let mut i: usize = 0;
        while i < repo_list.len()
            decreases repo_list@.len() - i,
        {
            let repo = &repo_list[i];
            match self.git.read_all_remotes(repo.path.clone()) {
                Ok(current) => {
                    let mut k: usize = 0;
                    while k < repo.remotes.len()
                        decreases repo.remotes@.len() - k,
                    {
                        if !pairs_hold_name(&current, &repo.remotes[k].name) {
                            self.git.add_remote(
                                repo.path.as_str(),
                                repo.remotes[k].name.as_str(),
                                repo.remotes[k].url.as_str(),
                            );
                        }
                        k = k + 1;
                    }
                },
                Err(_) => {
                    failed.push(repo.path.clone());
                },
            }
            i = i + 1;
        }
        Ok(failed)
    }
}

/// The message used when a folder has no managed entry.
fn not_found_message(folder: &String) -> (r: String)
    ensures
        r@ == "Repo '"@ + folder@ + "' not found"@,
{
    let mut msg: Vec<char> = Vec::new();
    append_str(&mut msg, "Repo '");
    append_str(&mut msg, folder.as_str());
    append_str(&mut msg, "' not found");
    proof {
        assert(msg@ =~= "Repo '"@ + folder@ + "' not found"@);
    }
    chars_to_string(&msg)
}

/// Whether any pair's name equals `name`.
fn pairs_hold_name(pairs: &Vec<(String, String)>, name: &String) -> (b: bool)
    ensures
        b == exists|i: int| 0 <= i < pairs@.len() && pairs@[i].0@ == name@,
{
    let mut i: usize = 0;
    while i < pairs.len()
        invariant
            i <= pairs@.len(),
            forall|j: int| 0 <= j < i ==> pairs@[j].0@ != name@,
        decreases pairs@.len() - i,
    {
        if pairs[i].0.eq(name) {
            return true;
        }
        i = i + 1;
    }
    false
}

/// `repos` with the entry at `path` (if any) carrying exactly the given
/// remotes instead of its stored ones.
fn replace_remotes(repos: Repos, path: &String, remotes: Vec<(String, String)>) -> (r: Repos)
    requires
        forall|i: int| 0 <= i < repos@.len() ==> (#[trigger] repos@[i]).wf(),
    ensures
        forall|i: int| 0 <= i < r@.len() ==> (#[trigger] r@[i]).wf(),
{
    let mut list = repos.into_vec();
    let ghost views0 = list@.map_values(|x: Repo| x@);
    proof {
        assert(forall|i: int| 0 <= i < views0.len() ==> (#[trigger] views0[i]).wf());
        assert forall|j: int| 0 <= j < list@.len() implies (#[trigger] list@[j]@).wf() by {
            assert(list@[j]@ == views0[j]);
        }
    }
    let mut i: usize = 0;
    while i < list.len()
        invariant
            forall|j: int| 0 <= j < list@.len() ==> (#[trigger] list@[j]@).wf(),
        decreases list@.len() - i,
    {
        if list[i].path.eq(path) {
            let old_repo = list.remove(i);
            let mut fresh = Repo { path: old_repo.path, tags: old_repo.tags, remotes: Vec::new() };
            proof {
                assert(fresh@.remotes =~= Seq::<(Seq<char>, Seq<char>)>::empty());
            }
            let mut k: usize = 0;
            while k < remotes.len()
                invariant
                    fresh@.wf(),
                decreases remotes@.len() - k,
            {
                fresh.add_remote(remotes[k].0.clone(), remotes[k].1.clone());
                k = k + 1;
            }
            list.insert(i, fresh);
            proof {
                assert(forall|j: int|
                    0 <= j < list@.len() ==> (#[trigger] list@[j]@).wf());
            }
            return Repos::new_with_repos(list);
        }
        i = i + 1;
    }
    Repos::new_with_repos(list)
}

} // verus!
