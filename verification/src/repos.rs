//! The repository list: each entry has a path (its unique key), a tag set,
//! and a name-keyed map of git remotes held as a sorted vector.

use vstd::prelude::*;

use crate::order::lemma_lex_lt_connected;
use crate::order::lemma_lex_lt_transitive;
use crate::order::lex_lt;
use crate::order::str_lt;
use crate::text::clone_strings;
use crate::text::views_of_strings;
use vstd::multiset::Multiset;

verus! {

/// A named git remote.
#[derive(Debug, Clone)]
pub struct Remote {
    pub name: String,
    pub url: String,
}

impl View for Remote {
    type V = (Seq<char>, Seq<char>);

    open spec fn view(&self) -> (Seq<char>, Seq<char>) {
        (self.name@, self.url@)
    }
}

/// The mathematical shape of one repository entry.
pub ghost struct RepoView {
    pub path: Seq<char>,
    pub tags: Seq<Seq<char>>,
    pub remotes: Seq<(Seq<char>, Seq<char>)>,
}

/// Remote entries sorted strictly by name: the vector behaves as a
/// name-keyed map with a deterministic iteration order.
pub open spec fn remotes_sorted(rs: Seq<(Seq<char>, Seq<char>)>) -> bool {
    forall|i: int, j: int| 0 <= i < j < rs.len() ==> lex_lt(rs[i].0, rs[j].0)
}

/// Whether the remotes hold an entry mapping `n` to `u`.
pub open spec fn has_remote(rs: Seq<(Seq<char>, Seq<char>)>, n: Seq<char>, u: Seq<char>) -> bool {
    exists|i: int| 0 <= i < rs.len() && rs[i] == (n, u)
}

impl RepoView {
    /// Well-formedness: the remote map is sorted by name, hence
    /// duplicate-free.
    pub open spec fn wf(self) -> bool {
        remotes_sorted(self.remotes)
    }
}

/// One managed repository.
#[derive(Debug)]
pub struct Repo {
    pub path: String,
    pub tags: Vec<String>,
    pub remotes: Vec<Remote>,
}

impl View for Repo {
    type V = RepoView;

    open spec fn view(&self) -> RepoView {
        RepoView {
            path: self.path@,
            tags: views_of_strings(self.tags@),
            remotes: self.remotes@.map_values(|m: Remote| m@),
        }
    }
}

/// A read-only snapshot of one repository, handed out by `show`.
#[derive(Debug)]
pub struct RepoInfo {
    pub path: String,
    pub tags: Vec<String>,
    pub remotes: Vec<Remote>,
}

impl Repo {
    /// A fresh entry with no tags and no remotes.
    pub fn new(path: String) -> (r: Repo)
        ensures
            r@.path == path@,
            r@.tags.len() == 0,
            r@.remotes.len() == 0,
            r@.wf(),
    {
        let r = Repo { path, tags: Vec::new(), remotes: Vec::new() };
        proof {
            assert(r@.tags =~= Seq::<Seq<char>>::empty());
            assert(r@.remotes =~= Seq::<(Seq<char>, Seq<char>)>::empty());
        }
        r
    }

    /// Inserts or replaces the remote named `name`, keeping the map sorted.
    pub fn add_remote(&mut self, name: String, url: String)
        requires
            old(self)@.wf(),
        ensures
            final(self)@.path == old(self)@.path,
            final(self)@.tags == old(self)@.tags,
            final(self)@.wf(),
            forall|n: Seq<char>, u: Seq<char>|
                #[trigger] has_remote(final(self)@.remotes, n, u) <==> ((n == name@ && u == url@)
                    || (has_remote(old(self)@.remotes, n, u) && n != name@)),
    {
        let ghost orig = self@.remotes;
        let mut i: usize = 0;
        while i < self.remotes.len() && str_lt(self.remotes[i].name.as_str(), name.as_str())
            invariant
                i <= self.remotes@.len(),
                self@.remotes == orig,
                forall|j: int| 0 <= j < i ==> lex_lt(orig[j].0, name@),
            decreases self.remotes@.len() - i,
        {
            i = i + 1;
        }
        proof {
            assert(forall|j: int| 0 <= j < i ==> orig[j] == (#[trigger] orig[j].0, orig[j].1));
        }
        if i < self.remotes.len() && name.eq(&self.remotes[i].name) {
            self.remotes.remove(i);
            self.remotes.insert(i, Remote { name, url });
            proof {
                let now = self@.remotes;
                assert(now =~= orig.update(i as int, (orig[i as int].0, url@)));
                assert(forall|j: int| 0 <= j < now.len() ==> now[j].0 == orig[j].0);
                assert forall|n: Seq<char>, u: Seq<char>| #[trigger]
                    has_remote(now, n, u) <==> ((n == orig[i as int].0 && u == url@) || (has_remote(
                    orig,
                    n,
                    u,
                ) && n != orig[i as int].0)) by {
                    if has_remote(now, n, u) {
                        let w = choose|k: int| 0 <= k < now.len() && now[k] == (n, u);
                        if w != i {
                            assert(orig[w] == (n, u));
                            if n == orig[i as int].0 {
                                if w < i {
                                    assert(lex_lt(orig[w].0, orig[i as int].0));
                                } else {
                                    assert(lex_lt(orig[i as int].0, orig[w].0));
                                }
                                crate::order::lemma_lex_lt_asymmetric(n, n);
                                assert(false);
                            }
                        }
                    }
                    if has_remote(orig, n, u) && n != orig[i as int].0 {
                        let w = choose|k: int| 0 <= k < orig.len() && orig[k] == (n, u);
                        assert(now[w] == (n, u));
                    }
                    if n == orig[i as int].0 && u == url@ {
                        assert(now[i as int] == (n, u));
                    }
                }
            }
        } else {
            proof {
                if i < orig.len() {
                    lemma_lex_lt_connected(orig[i as int].0, name@);
                }
            }
            self.remotes.insert(i, Remote { name, url });
            proof {
                let now = self@.remotes;
                assert(now =~= orig.insert(i as int, (now[i as int].0, now[i as int].1)));
                assert forall|p: int, q: int| 0 <= p < q < now.len() implies lex_lt(
                    now[p].0,
                    now[q].0,
                ) by {
                    if p < i && q > i {
                        assert(lex_lt(now[p].0, now[i as int].0));
                        assert(lex_lt(now[i as int].0, now[q].0)) by {
                            assert(now[q] == orig[q - 1]);
                            if q - 1 > i {
                                lemma_lex_lt_transitive(
                                    now[i as int].0,
                                    orig[i as int].0,
                                    orig[q - 1].0,
                                );
                            }
                        }
                        lemma_lex_lt_transitive(now[p].0, now[i as int].0, now[q].0);
                    } else if q == i {
                        assert(now[p] == orig[p]);
                        assert(lex_lt(orig[p].0, now[i as int].0));
                    } else if p == i {
                        assert(now[q] == orig[q - 1]);
                        if q - 1 > i {
                            lemma_lex_lt_transitive(now[i as int].0, orig[i as int].0, orig[q - 1].0);
                        }
                    }
                }
                assert forall|n: Seq<char>, u: Seq<char>| #[trigger]
                    has_remote(now, n, u) <==> ((n == now[i as int].0 && u == now[i as int].1) || (
                    has_remote(orig, n, u) && n != now[i as int].0)) by {
                    if has_remote(now, n, u) {
                        let w = choose|k: int| 0 <= k < now.len() && now[k] == (n, u);
                        if w < i {
                            assert(orig[w] == (n, u));
                            assert(lex_lt(n, now[i as int].0));
                            crate::order::lemma_lex_lt_asymmetric(n, now[i as int].0);
                        } else if w > i {
                            assert(orig[w - 1] == (n, u));
                            assert(lex_lt(now[i as int].0, n)) by {
                                if w - 1 > i {
                                    lemma_lex_lt_transitive(
                                        now[i as int].0,
                                        orig[i as int].0,
                                        orig[w - 1].0,
                                    );
                                }
                            }
                            crate::order::lemma_lex_lt_asymmetric(now[i as int].0, n);
                        }
                    }
                    if has_remote(orig, n, u) && n != now[i as int].0 {
                        let w = choose|k: int| 0 <= k < orig.len() && orig[k] == (n, u);
                        if w < i {
                            assert(now[w] == (n, u));
                        } else {
                            assert(now[w + 1] == (n, u));
                        }
                    }
                }
            }
        }
    }
}

// ---------------------------------------------------------------------------
// The repository list
// ---------------------------------------------------------------------------

/// Whether some entry has path `p`.
pub open spec fn has_path(rs: Seq<RepoView>, p: Seq<char>) -> bool {
    exists|i: int| 0 <= i < rs.len() && rs[i].path == p
}

/// The index of the first entry with path `p` (meaningful only when
/// `has_path(rs, p)` holds).
pub open spec fn first_path_index(rs: Seq<RepoView>, p: Seq<char>) -> int
    decreases rs.len(),
{
    if rs.len() == 0 {
        0
    } else if rs[0].path == p {
        0
    } else {
        1 + first_path_index(rs.drop_first(), p)
    }
}

/// A position whose earlier entries all have another path is the first one.
pub proof fn lemma_first_path_index(rs: Seq<RepoView>, p: Seq<char>, i: int)
    requires
        0 <= i < rs.len(),
        rs[i].path == p,
        forall|j: int| 0 <= j < i ==> rs[j].path != p,
    ensures
        first_path_index(rs, p) == i,
    decreases i,
{
    if i > 0 {
        let t = rs.drop_first();
        assert(forall|j: int| 0 <= j < i - 1 ==> t[j] == rs[j + 1]);
        lemma_first_path_index(t, p, i - 1);
    }
}

/// `rs` with the first entry whose path is `p` taken out, if one exists.
pub open spec fn remove_path(rs: Seq<RepoView>, p: Seq<char>) -> Seq<RepoView>
    decreases rs.len(),
{
    if rs.len() == 0 {
        rs
    } else if rs[0].path == p {
        rs.drop_first()
    } else {
        seq![rs[0]] + remove_path(rs.drop_first(), p)
    }
}

/// `rs` with each path of `ps` removed in turn.
pub open spec fn remove_paths(rs: Seq<RepoView>, ps: Seq<Seq<char>>) -> Seq<RepoView>
    decreases ps.len(),
{
    if ps.len() == 0 {
        rs
    } else {
        remove_paths(remove_path(rs, ps[0]), ps.drop_first())
    }
}

proof fn lemma_remove_path_at(rs: Seq<RepoView>, p: Seq<char>, i: int)
    requires
        0 <= i < rs.len(),
        rs[i].path == p,
        forall|j: int| 0 <= j < i ==> rs[j].path != p,
    ensures
        remove_path(rs, p) == rs.subrange(0, i) + rs.subrange(i + 1, rs.len() as int),
    decreases i,
{
    if i == 0 {
        assert(rs.drop_first() =~= rs.subrange(0, 0) + rs.subrange(1, rs.len() as int));
    } else {
        let t = rs.drop_first();
        assert(forall|j: int| 0 <= j < i - 1 ==> t[j] == rs[j + 1]);
        lemma_remove_path_at(t, p, i - 1);
        assert(seq![rs[0]] + (t.subrange(0, i - 1) + t.subrange(i, t.len() as int)) =~= rs.subrange(
            0,
            i,
        ) + rs.subrange(i + 1, rs.len() as int));
    }
}

proof fn lemma_remove_path_absent(rs: Seq<RepoView>, p: Seq<char>)
    requires
        !has_path(rs, p),
    ensures
        remove_path(rs, p) == rs,
    decreases rs.len(),
{
    if rs.len() > 0 {
        let t = rs.drop_first();
        assert(!has_path(t, p)) by {
            if has_path(t, p) {
                let w = choose|k: int| 0 <= k < t.len() && t[k].path == p;
                assert(rs[w + 1].path == p);
            }
        }
        lemma_remove_path_absent(t, p);
        assert(seq![rs[0]] + t =~= rs);
    }
}

/// One entry after a tag operation: adding pushes the tag unless it is
/// already present; removing drops its first occurrence.
pub open spec fn tag_applied(v: RepoView, t: Seq<char>, remove: bool) -> RepoView {
    if remove {
        if v.tags.contains(t) {
            RepoView {
                path: v.path,
                tags: v.tags.remove(crate::text::first_seq_pos(v.tags, t)),
                remotes: v.remotes,
            }
        } else {
            v
        }
    } else {
        if v.tags.contains(t) {
            v
        } else {
            RepoView { path: v.path, tags: v.tags.push(t), remotes: v.remotes }
        }
    }
}

/// The repo list after tagging each folder of `folders` in turn; processing
/// stops at the first folder with no matching entry.
pub open spec fn apply_tags(
    rs: Seq<RepoView>,
    folders: Seq<Seq<char>>,
    t: Seq<char>,
    remove: bool,
) -> Seq<RepoView>
    decreases folders.len(),
{
    if folders.len() == 0 {
        rs
    } else if has_path(rs, folders[0]) {
        let i = first_path_index(rs, folders[0]);
        apply_tags(
            rs.update(i, tag_applied(rs[i], t, remove)),
            folders.drop_first(),
            t,
            remove,
        )
    } else {
        rs
    }
}

/// Whether every folder of `folders` finds a matching entry while tagging.
pub open spec fn apply_tags_ok(
    rs: Seq<RepoView>,
    folders: Seq<Seq<char>>,
    t: Seq<char>,
    remove: bool,
) -> bool
    decreases folders.len(),
{
    if folders.len() == 0 {
        true
    } else if has_path(rs, folders[0]) {
        let i = first_path_index(rs, folders[0]);
        apply_tags_ok(
            rs.update(i, tag_applied(rs[i], t, remove)),
            folders.drop_first(),
            t,
            remove,
        )
    } else {
        false
    }
}

/// The ordered list of managed repositories.
#[derive(Debug)]
pub struct Repos {
    repos: Vec<Repo>,
}

impl View for Repos {
    type V = Seq<RepoView>;

    closed spec fn view(&self) -> Seq<RepoView> {
        self.repos@.map_values(|r: Repo| r@)
    }
}

impl Repos {
    /// An empty list.
    pub fn new() -> (r: Repos)
        ensures
            r@.len() == 0,
    {
        Repos { repos: Vec::new() }
    }

    /// A list holding exactly these repos, in order.
    pub fn new_with_repos(repos: Vec<Repo>) -> (r: Repos)
        ensures
            r@ == repos@.map_values(|x: Repo| x@),
    {
        Repos { repos }
    }

    /// The entries, in order.
    pub fn as_vec(&self) -> (r: &Vec<Repo>)
        ensures
            r@.map_values(|x: Repo| x@) == self@,
    {
        &self.repos
    }

    /// The entries, in order, by value.
    pub fn into_vec(self) -> (r: Vec<Repo>)
        ensures
            r@.map_values(|x: Repo| x@) == self@,
    {
        self.repos
    }

    /// The index of the first entry whose path equals `folder_name`.
    pub fn repo_index(&self, folder_name: String) -> (r: Option<usize>)
        ensures
            match r {
                Some(i) => i < self@.len() && self@[i as int].path == folder_name@ && forall|j: int|
                    0 <= j < i ==> self@[j].path != folder_name@,
                None => !has_path(self@, folder_name@),
            },
{
        let mut i: usize = 0;
        while i < self.repos.len()
            invariant
                i <= self@.len(),
                self@.len() == self.repos@.len(),
                forall|j: int| 0 <= j < i ==> self@[j].path != folder_name@,
            decreases self@.len() - i,
        {
            if self.repos[i].path.eq(&folder_name) {
                return Some(i);
            }
            i = i + 1;
        }
        proof {
            if has_path(self@, folder_name@) {
                let w = choose|k: int| 0 <= k < self@.len() && self@[k].path == folder_name@;
                assert(false);
            }
        }
        None
    }

    /// The first entry whose path equals `folder_name`, if any.
    pub fn find_repo(&self, folder_name: String) -> (r: Option<&Repo>)
        ensures
            match r {
                Some(repo) => has_path(self@, folder_name@) && repo@ == self@[first_path_index(
                    self@,
                    folder_name@,
                )],
                None => !has_path(self@, folder_name@),
            },
    {
        match self.repo_index(folder_name) {
            Some(i) => {
                proof {
                    lemma_first_path_index(self@, self.repos@[i as int]@.path, i as int);
                }
                Some(&self.repos[i])
            },
            None => None,
        }
    }

    /// Appends a fresh entry for `repo_folder` holding the given remotes,
    /// later pairs replacing earlier ones of the same name.
    pub fn add(&mut self, repo_folder: String, remotes: Vec<(String, String)>)
        ensures
            final(self)@.len() == old(self)@.len() + 1,
            final(self)@.subrange(0, old(self)@.len() as int) == old(self)@,
            final(self)@.last().path == repo_folder@,
            final(self)@.last().tags.len() == 0,
            final(self)@.last().wf(),
            forall|n: Seq<char>, u: Seq<char>|
                #[trigger] has_remote(final(self)@.last().remotes, n, u) <==> pairs_entry(
                    remotes@.map_values(|p: (String, String)| (p.0@, p.1@)),
                    n,
                    u,
                ),
    {
        let ghost pv = remotes@.map_values(|p: (String, String)| (p.0@, p.1@));
        let mut repo = Repo::new(repo_folder);
        let ghost folder_view = repo@.path;
        let mut k: usize = 0;
        while k < remotes.len()
            invariant
                k <= remotes@.len(),
                pv == remotes@.map_values(|p: (String, String)| (p.0@, p.1@)),
                repo@.path == folder_view,
                repo@.wf(),
                repo@.tags.len() == 0,
                forall|n: Seq<char>, u: Seq<char>|
                    #[trigger] has_remote(repo@.remotes, n, u) <==> pairs_entry(
                        pv.subrange(0, k as int),
                        n,
                        u,
                    ),
            decreases remotes@.len() - k,
        {
            let name = remotes[k].0.clone();
            let url = remotes[k].1.clone();
            repo.add_remote(name, url);
            k = k + 1;
            proof {
                assert(pv.subrange(0, k as int).drop_last() =~= pv.subrange(0, k - 1));
                assert(pv.subrange(0, k as int).last() == pv[k - 1]);
            }
        }
        proof {
            assert(pv.subrange(0, pv.len() as int) =~= pv);
        }
        let ghost before = self@;
        self.repos.push(repo);
        proof {
            assert(final(self)@ =~= before.push(repo@));
            assert(final(self)@.subrange(0, before.len() as int) =~= before);
        }
    }
}

impl Repos {
    /// Removes, for each folder in turn, the first entry with that path;
    /// folders with no matching entry are skipped.
    pub fn remove(&mut self, repo_folders: Vec<String>)
        ensures
            final(self)@ == remove_paths(old(self)@, views_of_strings(repo_folders@)),
    {
        let ghost orig = self@;
        let ghost fvs = views_of_strings(repo_folders@);
        proof {
            assert(fvs.skip(0) =~= fvs);
        }
        let mut k: usize = 0;
        while k < repo_folders.len()
            invariant
                k <= repo_folders@.len(),
                fvs == views_of_strings(repo_folders@),
                remove_paths(orig, fvs) == remove_paths(self@, fvs.skip(k as int)),
            decreases repo_folders@.len() - k,
        {
            let ghost cur = self@;
            proof {
                assert(fvs.skip(k as int).len() > 0);
                assert(fvs.skip(k as int)[0] == fvs[k as int]);
                assert(fvs.skip(k as int).drop_first() =~= fvs.skip(k + 1));
            }
            match self.repo_index(repo_folders[k].clone()) {
                Some(ix) => {
                    proof {
                        lemma_remove_path_at(cur, fvs[k as int], ix as int);
                    }
                    self.repos.remove(ix);
                    proof {
                        assert(self@ =~= cur.subrange(0, ix as int) + cur.subrange(
                            ix + 1,
                            cur.len() as int,
                        ));
                    }
                },
                None => {
                    proof {
                        lemma_remove_path_absent(cur, fvs[k as int]);
                    }
                },
            }
            k = k + 1;
        }
        proof {
            assert(fvs.skip(fvs.len() as int) =~= Seq::<Seq<char>>::empty());
        }
    }

    /// Adds `tag_name` to each named repo's tag set (once).
    pub fn add_tag(&mut self, tag_name: &str, repo_folders: Vec<String>) -> (r: Result<(), String>)
        ensures
            final(self)@ == apply_tags(
                old(self)@,
                views_of_strings(repo_folders@),
                tag_name@,
                false,
            ),
            r is Ok <==> apply_tags_ok(
                old(self)@,
                views_of_strings(repo_folders@),
                tag_name@,
                false,
            ),
    {
        self.tag(tag_name, repo_folders, false)
    }

    /// Removes `tag_name` from each named repo's tag set.
    pub fn remove_tag(&mut self, tag_name: &str, repo_folders: Vec<String>) -> (r: Result<
        (),
        String,
    >)
        ensures
            final(self)@ == apply_tags(
                old(self)@,
                views_of_strings(repo_folders@),
                tag_name@,
                true,
            ),
            r is Ok <==> apply_tags_ok(
                old(self)@,
                views_of_strings(repo_folders@),
                tag_name@,
                true,
            ),
    {
        self.tag(tag_name, repo_folders, true)
    }

    /// Tags or untags each named repo in turn; the first folder with no
    /// matching entry stops the walk and is reported as the error.
    fn tag(&mut self, tag_name: &str, repo_folders: Vec<String>, remove: bool) -> (r: Result<
        (),
        String,
    >)
        ensures
            final(self)@ == apply_tags(
                old(self)@,
                views_of_strings(repo_folders@),
                tag_name@,
                remove,
            ),
            r is Ok <==> apply_tags_ok(
                old(self)@,
                views_of_strings(repo_folders@),
                tag_name@,
                remove,
            ),
    {
        let ghost orig = self@;
        let ghost fvs = views_of_strings(repo_folders@);
        proof {
            assert(fvs.skip(0) =~= fvs);
        }
        let mut k: usize = 0;
        while k < repo_folders.len()
            invariant
                k <= repo_folders@.len(),
                fvs == views_of_strings(repo_folders@),
                orig == old(self)@,
                apply_tags(orig, fvs, tag_name@, remove) == apply_tags(
                    self@,
                    fvs.skip(k as int),
                    tag_name@,
                    remove,
                ),
                apply_tags_ok(orig, fvs, tag_name@, remove) == apply_tags_ok(
                    self@,
                    fvs.skip(k as int),
                    tag_name@,
                    remove,
                ),
            decreases repo_folders@.len() - k,
        {
            let ghost cur = self@;
            proof {
                assert(fvs.skip(k as int).len() > 0);
                assert(fvs.skip(k as int)[0] == fvs[k as int]);
                assert(fvs.skip(k as int).drop_first() =~= fvs.skip(k + 1));
            }
            match self.repo_index(repo_folders[k].clone()) {
                None => {
                    proof {
                        assert(apply_tags(cur, fvs.skip(k as int), tag_name@, remove) == cur);
                        assert(!apply_tags_ok(cur, fvs.skip(k as int), tag_name@, remove));
                    }
                    let mut msg: Vec<char> = Vec::new();
                    crate::text::append_str(&mut msg, "Repo '");
                    crate::text::append_str(&mut msg, repo_folders[k].as_str());
                    crate::text::append_str(&mut msg, "' not found");
                    return Err(crate::text::chars_to_string(&msg));
                },
                Some(ix) => {
                    proof {
                        lemma_first_path_index(cur, fvs[k as int], ix as int);
                    }
                    let mut repo = self.repos.remove(ix);
                    apply_tag_to_repo(&mut repo, tag_name, remove);
                    self.repos.insert(ix, repo);
                    proof {
                        assert(self@ =~= cur.update(
                            ix as int,
                            tag_applied(cur[ix as int], tag_name@, remove),
                        ));
                    }
                },
            }
            k = k + 1;
        }
        proof {
            assert(fvs.skip(fvs.len() as int) =~= Seq::<Seq<char>>::empty());
        }
        Ok(())
    }

    /// Appends an entry carrying the given tags and remotes, as `move`
    /// rebuilds one under its new path.
    pub fn add_with_tags_and_remotes(
        &mut self,
        repo_folder: String,
        tags: Vec<String>,
        remotes: Vec<Remote>,
    )
        ensures
            final(self)@ == old(self)@.push(
                RepoView {
                    path: repo_folder@,
                    tags: views_of_strings(tags@),
                    remotes: remotes@.map_values(|m: Remote| m@),
                },
            ),
    {
        let ghost before = self@;
        let repo = Repo { path: repo_folder, tags, remotes };
        self.repos.push(repo);
        proof {
            assert(self@ =~= before.push(
                RepoView {
                    path: repo_folder@,
                    tags: views_of_strings(tags@),
                    remotes: remotes@.map_values(|m: Remote| m@),
                },
            ));
        }
    }
}

fn first_tag_pos(tags: &Vec<String>, t: &String) -> (r: Option<usize>)
    ensures
        match r {
            Some(p) => p < tags@.len() && tags@[p as int]@ == t@ && forall|j: int|
                0 <= j < p ==> tags@[j]@ != t@,
            None => forall|j: int| 0 <= j < tags@.len() ==> tags@[j]@ != t@,
        },
{
    let mut i: usize = 0;
    while i < tags.len()
        invariant
            i <= tags@.len(),
            forall|j: int| 0 <= j < i ==> tags@[j]@ != t@,
        decreases tags@.len() - i,
    {
        if tags[i].eq(t) {
            return Some(i);
        }
        i = i + 1;
    }
    None
}

fn apply_tag_to_repo(repo: &mut Repo, tag_name: &str, remove: bool)
    ensures
        final(repo)@ == tag_applied(old(repo)@, tag_name@, remove),
{
    let tag_string: String = tag_name.to_owned();
    let ghost t = tag_name@;
    let ghost before = repo@;
    let ghost tags0 = repo.tags@;
    proof {
        assert(forall|j: int|
            0 <= j < tags0.len() ==> #[trigger] before.tags[j] == tags0[j]@);
    }
    let found = first_tag_pos(&repo.tags, &tag_string);
    match found {
        Some(p) => {
            proof {
                assert(before.tags[p as int] == t);
                assert(before.tags.contains(t));
                crate::text::lemma_first_seq_pos_unique(before.tags, t, p as int);
            }
            if remove {
                repo.tags.remove(p);
                proof {
                    assert(repo@.tags =~= before.tags.remove(p as int));
                    assert(repo@ == tag_applied(before, t, remove));
                }
            } else {
                proof {
                    assert(repo@ == tag_applied(before, t, remove));
                }
            }
        },
        None => {
            proof {
                if before.tags.contains(t) {
                    let w = choose|j: int| 0 <= j < before.tags.len() && before.tags[j] == t;
                    assert(tags0[w]@ == t);
                    assert(false);
                }
            }
            if !remove {
                repo.tags.push(tag_string);
                proof {
                    assert(repo@.tags =~= before.tags.push(t));
                    assert(repo@ == tag_applied(before, t, remove));
                }
            }
        },
    }
}

impl Repo {
    /// A copy whose view equals this entry's view.
    pub fn duplicate(&self) -> (c: Repo)
        ensures
            c@ == self@,
    {
        let mut remotes: Vec<Remote> = Vec::new();
        let mut i: usize = 0;
        while i < self.remotes.len()
            invariant
                i <= self.remotes@.len(),
                remotes@ == self.remotes@.subrange(0, i as int),
            decreases self.remotes@.len() - i,
        {
            let m = Remote { name: self.remotes[i].name.clone(), url: self.remotes[i].url.clone() };
            proof {
                assert(m == self.remotes@[i as int]);
            }
            remotes.push(m);
            i = i + 1;
            proof {
                assert(remotes@ =~= self.remotes@.subrange(0, i as int));
            }
        }
        proof {
            assert(remotes@ =~= self.remotes@);
        }
        Repo { path: self.path.clone(), tags: clone_strings(&self.tags), remotes }
    }
}

/// Entries ordered by path, non-strictly.
pub open spec fn sorted_by_path(vs: Seq<RepoView>) -> bool {
    forall|i: int, j: int| 0 <= i < j < vs.len() ==> crate::order::lex_leq(vs[i].path, vs[j].path)
}

proof fn lemma_to_multiset_insert(s: Seq<RepoView>, q: int, x: RepoView)
    requires
        0 <= q <= s.len(),
    ensures
        s.insert(q, x).to_multiset() == s.to_multiset().insert(x),
{
    broadcast use vstd::seq_lib::group_seq_properties;

    let a = s.take(q);
    let b = s.skip(q);
    assert(s =~= a + b);
    assert(s.insert(q, x) =~= a + (seq![x] + b));
    vstd::seq_lib::lemma_multiset_commutative(a, b);
    vstd::seq_lib::lemma_multiset_commutative(a, seq![x] + b);
    vstd::seq_lib::lemma_multiset_commutative(seq![x], b);
    assert(seq![x] =~= Seq::empty().push(x));
    Seq::<RepoView>::empty().to_multiset_ensures();
    assert(Seq::<RepoView>::empty().to_multiset() =~= Multiset::empty());
    assert(seq![x].to_multiset() =~= Multiset::empty().insert(x));
    assert(s.insert(q, x).to_multiset() =~= s.to_multiset().insert(x));
}

/// Sorts the entries by path (stable: equal paths keep their order).
pub fn sort_repos_by_path(repos: Vec<Repo>) -> (r: Vec<Repo>)
    ensures
        sorted_by_path(r@.map_values(|x: Repo| x@)),
        r@.map_values(|x: Repo| x@).to_multiset() == repos@.map_values(
            |x: Repo| x@,
        ).to_multiset(),
{
    let ghost orig = repos@.map_values(|x: Repo| x@);
    let mut input = repos;
    let mut out: Vec<Repo> = Vec::new();
    proof {
        Seq::<RepoView>::empty().to_multiset_ensures();
        assert(out@.map_values(|x: Repo| x@) =~= Seq::<RepoView>::empty());
        assert(out@.map_values(|x: Repo| x@).to_multiset() =~= Multiset::empty());
        assert(Multiset::empty().add(orig.to_multiset()) =~= orig.to_multiset());
    }
    while input.len() > 0
        invariant
            sorted_by_path(out@.map_values(|x: Repo| x@)),
            out@.map_values(|x: Repo| x@).to_multiset().add(
                input@.map_values(|x: Repo| x@).to_multiset(),
            ) == orig.to_multiset(),
        decreases input@.len(),
    {
        let ghost input0 = input@.map_values(|x: Repo| x@);
        let ghost out0 = out@.map_values(|x: Repo| x@);
        let x = input.remove(0);
        proof {
            assert(x@ == input0[0]);
            assert(input@.map_values(|x: Repo| x@) =~= input0.skip(1));
            assert(input0 =~= seq![input0[0]] + input0.skip(1));
            vstd::seq_lib::lemma_multiset_commutative(seq![input0[0]], input0.skip(1));
            assert(seq![input0[0]] =~= Seq::empty().push(input0[0]));
            Seq::<RepoView>::empty().to_multiset_ensures();
            assert(Seq::<RepoView>::empty().to_multiset() =~= Multiset::empty());
            assert(input0.to_multiset() =~= input0.skip(1).to_multiset().insert(x@));
        }
        let mut q: usize = 0;
        while q < out.len() && !crate::order::str_lt(x.path.as_str(), out[q].path.as_str())
            invariant
                q <= out@.len(),
                out0 == out@.map_values(|y: Repo| y@),
                out0.len() == out@.len(),
                forall|j: int| 0 <= j < q ==> !lex_lt(x@.path, #[trigger] out0[j].path),
            decreases out@.len() - q,
        {
            proof {
                assert(out0[q as int].path == out@[q as int]@.path);
            }
            q = q + 1;
        }
        proof {
            if q < out0.len() {
                assert(out0[q as int].path == out@[q as int]@.path);
                assert(lex_lt(x@.path, out0[q as int].path));
            }
        }
        out.insert(q, x);
        proof {
            let now = out@.map_values(|y: Repo| y@);
            assert(now =~= out0.insert(q as int, x@));
            assert forall|p: int, w: int| 0 <= p < w < now.len() implies crate::order::lex_leq(
                now[p].path,
                now[w].path,
            ) by {
                if p < q && w > q {
                    assert(now[p] == out0[p]);
                    assert(now[w] == out0[w - 1]);
                    if lex_lt(now[w].path, now[p].path) {
                        assert(!lex_lt(x@.path, out0[p].path));
                        assert(crate::order::lex_leq(out0[p].path, out0[w - 1].path));
                        lemma_lex_lt_transitive(out0[w - 1].path, out0[p].path, out0[w - 1].path);
                        if lex_lt(out0[w - 1].path, out0[p].path) {
                            assert(false);
                        }
                    }
                } else if w == q {
                    assert(now[p] == out0[p]);
                    if lex_lt(x@.path, out0[p].path) {
                        assert(false);
                    }
                } else if p == q {
                    assert(now[w] == out0[w - 1]);
                    if lex_lt(out0[w - 1].path, x@.path) {
                        assert(w - 1 >= q && q < out0.len());
                        assert(lex_lt(x@.path, out0[q as int].path));
                        lemma_lex_lt_transitive(out0[w - 1].path, x@.path, out0[q as int].path);
                        if w - 1 == q {
                            crate::order::lemma_lex_lt_asymmetric(
                                out0[q as int].path,
                                out0[q as int].path,
                            );
                        } else {
                            assert(crate::order::lex_leq(out0[q as int].path, out0[w - 1].path));
                            crate::order::lemma_lex_lt_asymmetric(
                                out0[w - 1].path,
                                out0[q as int].path,
                            );
                        }
                        assert(false);
                    }
                }
            }
            lemma_to_multiset_insert(out0, q as int, x@);
        }
    }
    proof {
        assert(input@.map_values(|x: Repo| x@) =~= Seq::<RepoView>::empty());
        Seq::<RepoView>::empty().to_multiset_ensures();
        assert(input@.map_values(|x: Repo| x@).to_multiset() =~= Multiset::empty());
        assert(out@.map_values(|x: Repo| x@).to_multiset() =~= orig.to_multiset());
    }
    out
}

/// The repos of `repos` whose tag set holds `tag`, in their original order.
pub fn filter_repos_by_tag(repos: Vec<Repo>, tag: &String) -> (r: Vec<Repo>)
    ensures
        r@.map_values(|x: Repo| x@) == repos@.map_values(|x: Repo| x@).filter(
            |v: RepoView| v.tags.contains(tag@),
        ),
{
    let ghost orig = repos@.map_values(|x: Repo| x@);
    let ghost pred = |v: RepoView| v.tags.contains(tag@);
    let mut input = repos;
    let mut out: Vec<Repo> = Vec::new();
    let ghost mut k: int = 0;
    proof {
        reveal(Seq::filter);
        assert(orig.take(0) =~= Seq::<RepoView>::empty());
        assert(orig.take(0).filter(pred) =~= Seq::<RepoView>::empty());
    }
    while input.len() > 0
        invariant
            0 <= k <= orig.len(),
            input@.map_values(|x: Repo| x@) == orig.skip(k),
            input@.len() == orig.len() - k,
            out@.map_values(|x: Repo| x@) == orig.take(k).filter(
                |v: RepoView| v.tags.contains(tag@),
            ),
        decreases input@.len(),
    {
        let ghost out0 = out@;
        let ghost input0 = input@;
        let r = input.remove(0);
        proof {
            assert(r == input0[0]);
            assert(r@ == input0.map_values(|x: Repo| x@)[0]);
            assert(r@ == orig.skip(k)[0]);
            assert(r@ == orig[k]);
            assert forall|j: int| 0 <= j < input@.len() implies input@.map_values(|x: Repo| x@)[j]
                == #[trigger] orig.skip(k + 1)[j] by {
                assert(input@[j] == input0[j + 1]);
                assert(input0.map_values(|x: Repo| x@)[j + 1] == orig.skip(k)[j + 1]);
            }
            assert(input@.map_values(|x: Repo| x@) =~= orig.skip(k + 1));
        }
        let keep = has_tag(&r, tag);
        if keep {
            out.push(r);
        }
        proof {
            reveal(Seq::filter);
            let p = |v: RepoView| v.tags.contains(tag@);
            assert(orig.take(k + 1).drop_last() =~= orig.take(k));
            assert(orig.take(k + 1).last() == orig[k]);
            if keep {
                assert(out@.map_values(|x: Repo| x@) =~= out0.map_values(|x: Repo| x@).push(
                    orig[k],
                ));
            }
            assert(out@.map_values(|x: Repo| x@) =~= orig.take(k + 1).filter(p));
        }
        proof {
            k = k + 1;
        }
    }
    proof {
        assert(orig.take(orig.len() as int) =~= orig);
    }
    out
}

/// Whether the repo's tag set holds `tag`.
pub fn has_tag(repo: &Repo, tag: &String) -> (b: bool)
    ensures
        b == repo@.tags.contains(tag@),
{
    let mut i: usize = 0;
    while i < repo.tags.len()
        invariant
            i <= repo.tags@.len(),
            forall|j: int| 0 <= j < i ==> repo.tags@[j]@ != tag@,
        decreases repo.tags@.len() - i,
    {
        if repo.tags[i].eq(tag) {
            proof {
                assert(repo@.tags[i as int] == tag@);
            }
            return true;
        }
        i = i + 1;
    }
    proof {
        if repo@.tags.contains(tag@) {
            let w = choose|j: int| 0 <= j < repo@.tags.len() && repo@.tags[j] == tag@;
            assert(repo.tags@[w]@ == tag@);
        }
    }
    false
}

/// Every tag in use anywhere, sorted and without duplicates.
pub fn collect_tags(repos: &Vec<Repo>) -> (r: Vec<String>)
    ensures
        crate::order::strictly_sorted_strings(r@),
        forall|s: Seq<char>|
            #[trigger] crate::order::contains_string_view(r@, s) <==> exists|i: int, j: int|
                0 <= i < repos@.len() && 0 <= j < repos@[i]@.tags.len() && #[trigger] repos@[i]@.tags[j]
                    == s,
{
    let mut r: Vec<String> = Vec::new();
    let mut i: usize = 0;
    while i < repos.len()
        invariant
            i <= repos@.len(),
            crate::order::strictly_sorted_strings(r@),
            forall|s: Seq<char>|
                #[trigger] crate::order::contains_string_view(r@, s) <==> exists|a: int, b: int|
                    0 <= a < i && 0 <= b < repos@[a]@.tags.len() && #[trigger] repos@[a]@.tags[b]
                        == s,
        decreases repos@.len() - i,
    {
        let repo = &repos[i];
        let mut j: usize = 0;
        while j < repo.tags.len()
            invariant
                i < repos@.len(),
                j <= repo.tags@.len(),
                repo == repos@[i as int],
                crate::order::strictly_sorted_strings(r@),
                forall|s: Seq<char>|
                    #[trigger] crate::order::contains_string_view(r@, s) <==> ((exists|
                        a: int,
                        b: int,
                    |
                        0 <= a < i && 0 <= b < repos@[a]@.tags.len()
                            && #[trigger] repos@[a]@.tags[b] == s) || (exists|b: int|
                        0 <= b < j && (#[trigger] repos@[i as int]@.tags[b]) == s)),
            decreases repo.tags@.len() - j,
        {
            crate::order::sorted_insert_unique(&mut r, repo.tags[j].clone());
            proof {
                assert(repos@[i as int]@.tags[j as int] == repo.tags@[j as int]@);
            }
            j = j + 1;
        }
        i = i + 1;
    }
    r
}

/// One remote as a `name=url` entry.
pub open spec fn remote_entries_spec(remotes: Seq<(Seq<char>, Seq<char>)>) -> Seq<Seq<char>> {
    remotes.map_values(|p: (Seq<char>, Seq<char>)| p.0 + seq!['='] + p.1)
}

/// The long listing line for one repo:
/// `<path>\t<tags joined by commas>\t<name=url pairs joined by commas>`.
pub open spec fn repo_long_line_spec(v: RepoView) -> Seq<char> {
    v.path + "\t"@ + crate::text::join_char_spec(v.tags, ',') + "\t"@
        + crate::text::join_char_spec(remote_entries_spec(v.remotes), ',')
}

/// Renders one repo's listing line: the bare path, or the tab-separated long
/// form with tags and remotes.
pub fn repo_list_line(repo: &Repo, long: bool) -> (r: String)
    ensures
        long ==> r@ == repo_long_line_spec(repo@),
        !long ==> r@ == repo@.path,
{
    if !long {
        return repo.path.clone();
    }
    let mut out: Vec<char> = Vec::new();
    crate::text::append_str(&mut out, repo.path.as_str());
    crate::text::append_str(&mut out, "\t");
    crate::text::append_join_strings(&mut out, &repo.tags, ',');
    crate::text::append_str(&mut out, "\t");
    let ghost remote_views = repo@.remotes;
    let mut entries: Vec<String> = Vec::new();
    let mut i: usize = 0;
    while i < repo.remotes.len()
        invariant
            i <= repo.remotes@.len(),
            remote_views == repo@.remotes,
            remote_views.len() == repo.remotes@.len(),
            views_of_strings(entries@) == remote_entries_spec(remote_views.subrange(0, i as int)),
        decreases repo.remotes@.len() - i,
    {
        let mut entry: Vec<char> = Vec::new();
        crate::text::append_str(&mut entry, repo.remotes[i].name.as_str());
        entry.push('=');
        crate::text::append_str(&mut entry, repo.remotes[i].url.as_str());
        let ghost prev = entries@;
        let entry_string = crate::text::chars_to_string(&entry);
        entries.push(entry_string);
        proof {
            assert(repo.remotes@[i as int]@ == remote_views[i as int]);
            assert(entry@ =~= remote_views[i as int].0 + seq!['='] + remote_views[i as int].1);
            let want = remote_entries_spec(remote_views.subrange(0, i + 1));
            assert(views_of_strings(prev).len() == prev.len());
            assert(remote_entries_spec(remote_views.subrange(0, i as int)).len() == i);
            assert(prev.len() == i);
            assert(entries@ == prev.push(entry_string));
            assert(entries@.len() == i + 1);
            assert(i + 1 <= remote_views.len());
            assert forall|j: int|
                0 <= j < entries@.len() implies views_of_strings(entries@)[j] == #[trigger] want[j]
            by {
                assert(remote_views.subrange(0, i + 1)[j] == remote_views[j]);
                if j < i {
                    assert(entries@[j] == prev[j]);
                    assert(views_of_strings(prev)[j] == remote_entries_spec(
                        remote_views.subrange(0, i as int),
                    )[j]);
                    assert(remote_views.subrange(0, i as int)[j] == remote_views[j]);
                } else {
                    assert(entries@[j]@ == entry@);
                }
            }
            assert(views_of_strings(entries@) =~= want);
        }
        i = i + 1;
    }
    proof {
        assert(remote_views.subrange(0, remote_views.len() as int) =~= remote_views);
    }
    crate::text::append_join_strings(&mut out, &entries, ',');
    proof {
        assert(views_of_strings(entries@) == remote_entries_spec(remote_views));
        assert(out@ =~= repo_long_line_spec(repo@));
    }
    crate::text::chars_to_string(&out)
}

/// Whether the pair list, read left to right with later pairs winning, maps
/// `n` to `u`.
pub open spec fn pairs_entry(pairs: Seq<(Seq<char>, Seq<char>)>, n: Seq<char>, u: Seq<char>) -> bool
    decreases pairs.len(),
{
    if pairs.len() == 0 {
        false
    } else if pairs.last().0 == n {
        pairs.last().1 == u
    } else {
        pairs_entry(pairs.drop_last(), n, u)
    }
}

} // verus!
