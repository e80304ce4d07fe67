//! The on-disk state format: a TOML document listing the managed repos, with
//! each repo's path, tags, and remotes. `serialize` renders the canonical
//! document, pinned character for character by `toml_of_repos`; `parse` reads
//! such documents back, accepting surrounding whitespace and ignoring blank
//! lines, and yields well-formed repo entries.

use vstd::prelude::*;

use crate::repos::Repo;
use crate::repos::Repos;
use crate::repos::RepoView;
use crate::text::chars_to_string;
use crate::text::escape_dq_spec;
use crate::text::str_to_chars;
use crate::text::append_str;
use crate::text::append_escape_dq;
use crate::text::trim_vec;
use crate::text::subvec;

verus! {

/// A TOML basic string: quoted, backslashes and quotes escaped.
pub open spec fn toml_string(s: Seq<char>) -> Seq<char> {
    seq!['"'] + escape_dq_spec(s) + seq!['"']
}

/// The inside of a `tags = [...]` list: quoted tags joined by `, `.
pub open spec fn toml_tag_list(tags: Seq<Seq<char>>) -> Seq<char>
    decreases tags.len(),
{
    if tags.len() == 0 {
        Seq::empty()
    } else if tags.len() == 1 {
        toml_string(tags[0])
    } else {
        toml_string(tags[0]) + seq![',', ' '] + toml_tag_list(tags.drop_first())
    }
}

/// One remote's section.
pub open spec fn toml_remote(name: Seq<char>, url: Seq<char>) -> Seq<char> {
    "\n[repos.remotes."@ + name + "]\nname = "@ + toml_string(name) + "\nurl = "@ + toml_string(
        url,
    ) + "\n"@
}

/// All remote sections of one repo, in stored order.
pub open spec fn toml_remotes(rs: Seq<(Seq<char>, Seq<char>)>) -> Seq<char>
    decreases rs.len(),
{
    if rs.len() == 0 {
        Seq::empty()
    } else {
        toml_remote(rs[0].0, rs[0].1) + toml_remotes(rs.drop_first())
    }
}

/// One repo's block.
pub open spec fn toml_repo(v: RepoView) -> Seq<char> {
    "[[repos]]\npath = "@ + toml_string(v.path) + "\ntags = ["@ + toml_tag_list(v.tags) + "]\n"@
        + toml_remotes(v.remotes)
}

/// All repo blocks, separated by blank lines.
pub open spec fn toml_repo_blocks(vs: Seq<RepoView>) -> Seq<char>
    decreases vs.len(),
{
    if vs.len() == 0 {
        Seq::empty()
    } else if vs.len() == 1 {
        toml_repo(vs[0])
    } else {
        toml_repo(vs[0]) + seq!['\n'] + toml_repo_blocks(vs.drop_first())
    }
}

/// The whole document: `repos = []` for an empty list, else the blocks.
pub open spec fn toml_of_repos(vs: Seq<RepoView>) -> Seq<char> {
    if vs.len() == 0 {
        "repos = []\n"@
    } else {
        toml_repo_blocks(vs)
    }
}

proof fn lemma_toml_tag_list_push(tags: Seq<Seq<char>>, t: Seq<char>)
    ensures
        toml_tag_list(tags.push(t)) == if tags.len() == 0 {
            toml_string(t)
        } else {
            toml_tag_list(tags) + seq![',', ' '] + toml_string(t)
        },
    decreases tags.len(),
{
    if tags.len() == 0 {
        assert(toml_tag_list(tags.push(t)) =~= toml_string(t));
    } else if tags.len() == 1 {
        assert(tags.push(t).drop_first() =~= seq![t]);
        assert(toml_tag_list(seq![t]) == toml_string(t));
        assert(tags.push(t)[0] == tags[0]);
        assert(toml_tag_list(tags.push(t)) =~= toml_tag_list(tags) + seq![',', ' ']
            + toml_string(t));
    } else {
        assert(tags.push(t).drop_first() =~= tags.drop_first().push(t));
        lemma_toml_tag_list_push(tags.drop_first(), t);
        assert(toml_tag_list(tags.push(t)) =~= toml_tag_list(tags) + seq![',', ' ']
            + toml_string(t));
    }
}

proof fn lemma_toml_remotes_push(rs: Seq<(Seq<char>, Seq<char>)>, p: (Seq<char>, Seq<char>))
    ensures
        toml_remotes(rs.push(p)) == toml_remotes(rs) + toml_remote(p.0, p.1),
    decreases rs.len(),
{
    if rs.len() == 0 {
        assert(rs.push(p).drop_first() =~= rs);
        assert(toml_remotes(rs.push(p)) =~= toml_remotes(rs) + toml_remote(p.0, p.1));
    } else {
        assert(rs.push(p).drop_first() =~= rs.drop_first().push(p));
        lemma_toml_remotes_push(rs.drop_first(), p);
        assert(toml_remotes(rs.push(p)) =~= toml_remotes(rs) + toml_remote(p.0, p.1));
    }
}

proof fn lemma_toml_blocks_push(vs: Seq<RepoView>, v: RepoView)
    ensures
        toml_repo_blocks(vs.push(v)) == if vs.len() == 0 {
            toml_repo(v)
        } else {
            toml_repo_blocks(vs) + seq!['\n'] + toml_repo(v)
        },
    decreases vs.len(),
{
    if vs.len() == 0 {
        assert(toml_repo_blocks(vs.push(v)) =~= toml_repo(v));
    } else if vs.len() == 1 {
        assert(vs.push(v).drop_first() =~= seq![v]);
        assert(toml_repo_blocks(seq![v]) == toml_repo(v));
        assert(vs.push(v)[0] == vs[0]);
        assert(toml_repo_blocks(vs.push(v)) =~= toml_repo_blocks(vs) + seq!['\n'] + toml_repo(v));
    } else {
        assert(vs.push(v).drop_first() =~= vs.drop_first().push(v));
        lemma_toml_blocks_push(vs.drop_first(), v);
        assert(toml_repo_blocks(vs.push(v)) =~= toml_repo_blocks(vs) + seq!['\n'] + toml_repo(v));
    }
}

fn append_toml_string(out: &mut Vec<char>, s: &String)
    ensures
        final(out)@ == old(out)@ + toml_string(s@),
{
    let cs = str_to_chars(s.as_str());
    out.push('"');
    append_escape_dq(out, &cs);
    out.push('"');
    proof {
        assert(out@ =~= old(out)@ + toml_string(s@));
    }
}

fn append_toml_repo(out: &mut Vec<char>, repo: &Repo)
    ensures
        final(out)@ == old(out)@ + toml_repo(repo@),
{
    append_str(out, "[[repos]]\npath = ");
    append_toml_string(out, &repo.path);
    append_str(out, "\ntags = [");
    let ghost tag_views = repo@.tags;
    let ghost base = out@;
    let mut i: usize = 0;
    while i < repo.tags.len()
        invariant
            i <= repo.tags@.len(),
            tag_views == repo@.tags,
            tag_views.len() == repo.tags@.len(),
            out@ == base + toml_tag_list(tag_views.subrange(0, i as int)),
        decreases repo.tags@.len() - i,
    {
        if i > 0 {
            out.push(',');
            out.push(' ');
        }
        append_toml_string(out, &repo.tags[i]);
        proof {
            let pre = tag_views.subrange(0, i as int);
            assert(tag_views.subrange(0, i + 1) =~= pre.push(tag_views[i as int]));
            assert(repo.tags@[i as int]@ == tag_views[i as int]);
            lemma_toml_tag_list_push(pre, tag_views[i as int]);
            assert(out@ =~= base + toml_tag_list(tag_views.subrange(0, i + 1)));
        }
        i = i + 1;
    }
    proof {
        assert(tag_views.subrange(0, tag_views.len() as int) =~= tag_views);
    }
    append_str(out, "]\n");
    let ghost remote_views = repo@.remotes;
    let ghost base2 = out@;
    let mut k: usize = 0;
    while k < repo.remotes.len()
        invariant
            k <= repo.remotes@.len(),
            remote_views == repo@.remotes,
            remote_views.len() == repo.remotes@.len(),
            out@ == base2 + toml_remotes(remote_views.subrange(0, k as int)),
        decreases repo.remotes@.len() - k,
    {
        append_str(out, "\n[repos.remotes.");
        append_str(out, repo.remotes[k].name.as_str());
        append_str(out, "]\nname = ");
        append_toml_string(out, &repo.remotes[k].name);
        append_str(out, "\nurl = ");
        append_toml_string(out, &repo.remotes[k].url);
        append_str(out, "\n");
        proof {
            let pre = remote_views.subrange(0, k as int);
            assert(remote_views.subrange(0, k + 1) =~= pre.push(remote_views[k as int]));
            assert(repo.remotes@[k as int]@ == remote_views[k as int]);
            lemma_toml_remotes_push(pre, remote_views[k as int]);
            assert(out@ =~= base2 + toml_remotes(remote_views.subrange(0, k + 1)));
        }
        k = k + 1;
    }
    proof {
        assert(remote_views.subrange(0, remote_views.len() as int) =~= remote_views);
        assert(out@ =~= old(out)@ + toml_repo(repo@));
    }
}

/// Renders the whole repo list as its canonical TOML document.
pub fn serialize(repos: &Repos) -> (r: String)
    ensures
        r@ == toml_of_repos(repos@),
{
    let list = repos.as_vec();
    let ghost views = repos@;
    proof {
        assert(views.len() == list@.len());
    }
    if list.len() == 0 {
        return "repos = []\n".to_owned();
    }
    let mut out: Vec<char> = Vec::new();
    let mut i: usize = 0;
    while i < list.len()
        invariant
            i <= list@.len(),
            views == list@.map_values(|x: Repo| x@),
            views.len() == list@.len(),
            views.len() > 0,
            out@ == toml_repo_blocks(views.subrange(0, i as int)),
        decreases list@.len() - i,
    {
        if i > 0 {
            out.push('\n');
        }
        append_toml_repo(&mut out, &list[i]);
        proof {
            let pre = views.subrange(0, i as int);
            assert(views.subrange(0, i + 1) =~= pre.push(views[i as int]));
            assert(list@[i as int]@ == views[i as int]);
            lemma_toml_blocks_push(pre, views[i as int]);
            assert(out@ =~= toml_repo_blocks(views.subrange(0, i + 1)));
        }
        i = i + 1;
    }
    proof {
        assert(views.subrange(0, views.len() as int) =~= views);
    }
    chars_to_string(&out)
}

// ---------------------------------------------------------------------------
// Parsing
// ---------------------------------------------------------------------------

/// Whether the vector holds exactly the characters of `s`.
fn chars_eq_lit(v: &Vec<char>, s: &str) -> (b: bool)
    ensures
        b == (v@ == s@),
{
    let cs = str_to_chars(s);
    if v.len() != cs.len() {
        proof {
            assert(v@.len() != s@.len());
        }
        return false;
    }
    let mut i: usize = 0;
    while i < v.len()
        invariant
            i <= v@.len(),
            v@.len() == cs@.len(),
            cs@ == s@,
            forall|j: int| 0 <= j < i ==> v@[j] == cs@[j],
        decreases v@.len() - i,
    {
        if v[i] != cs[i] {
            return false;
        }
        i = i + 1;
    }
    proof {
        assert(v@ =~= s@);
    }
    true
}

/// Whether the vector begins with the characters of `p`.
fn starts_with_lit(v: &Vec<char>, p: &str) -> (b: bool)
    ensures
        b == (v@.len() >= p@.len() && v@.subrange(0, p@.len() as int) == p@),
{
    let ps = str_to_chars(p);
    if v.len() < ps.len() {
        return false;
    }
    let mut i: usize = 0;
    while i < ps.len()
        invariant
            i <= ps@.len() <= v@.len(),
            ps@ == p@,
            forall|j: int| 0 <= j < i ==> v@[j] == ps@[j],
        decreases ps@.len() - i,
    {
        if v[i] != ps[i] {
            proof {
                if v@.subrange(0, p@.len() as int) == p@ {
                    assert(v@.subrange(0, p@.len() as int)[i as int] == v@[i as int]);
                }
            }
            return false;
        }
        i = i + 1;
    }
    proof {
        assert(v@.subrange(0, p@.len() as int) =~= p@);
    }
    true
}

/// The lines of the document, split on newlines.
fn split_lines(cs: &Vec<char>) -> (r: Vec<Vec<char>>)
    ensures
        r@.map_values(|p: Vec<char>| p@) == crate::text::split_char_spec(cs@, '\n'),
{
    crate::text::split_char(cs, '\n')
}

/// Reads a TOML basic string out of `v`, which must be exactly one quoted
/// string; backslash escapes for `\` and `"` are decoded. The read succeeds
/// exactly on canonical renderings, and then names the rendered string.
fn unquote(v: &Vec<char>) -> (r: Option<String>)
    ensures
        r is Some ==> toml_string(r.unwrap()@) == v@,
        (exists|s: Seq<char>| v@ == toml_string(s)) ==> r is Some,
{
    let ghost canonical: Option<Seq<char>> = if exists|s: Seq<char>| v@ == toml_string(s) {
        Some(choose|s: Seq<char>| v@ == toml_string(s))
    } else {
        None
    };
    let n = v.len();
    if n < 2 || v[0] != '"' || v[n - 1] != '"' {
        proof {
            if canonical is Some {
                let s0 = canonical.unwrap();
                assert(v@[0] == '"');
                assert(v@[v@.len() - 1] == '"');
            }
        }
        return None;
    }
    let mut out: Vec<char> = Vec::new();
    let ghost mut k: int = 0;
    proof {
        if canonical is Some {
            let s0 = canonical.unwrap();
            assert(s0.take(0) =~= Seq::<char>::empty());
        }
    }
    let mut i: usize = 1;
    while i < n - 1
        invariant
            1 <= i <= n - 1,
            n == v@.len(),
            n >= 2,
            crate::text::escape_dq_spec(out@) == v@.subrange(1, i as int),
            (canonical is Some) == (exists|s: Seq<char>| v@ == toml_string(s)),
            canonical is Some ==> ({
                let s0 = canonical.unwrap();
                &&& v@ == toml_string(s0)
                &&& 0 <= k <= s0.len()
                &&& out@ == s0.take(k)
            }),
        decreases n - 1 - i,
    {
        proof {
            if canonical is Some {
                let s0 = canonical.unwrap();
                crate::text::lemma_escape_dq_concat(s0.take(k), s0.skip(k));
                assert(s0.take(k) + s0.skip(k) =~= s0);
                assert(crate::text::escape_dq_spec(s0) =~= v@.subrange(1, n - 1));
                assert(v@.subrange(1, i as int) + crate::text::escape_dq_spec(s0.skip(k))
                    =~= v@.subrange(1, n - 1));
                crate::text::lemma_escape_dq_empty(s0.skip(k));
                assert(k < s0.len());
                assert(s0.skip(k).drop_first() =~= s0.skip(k + 1));
                assert(crate::text::escape_dq_spec(s0.skip(k))
                    == crate::text::escape_dq_char(s0[k]) + crate::text::escape_dq_spec(
                    s0.skip(k + 1),
                ));
                assert(forall|j: int|
                    0 <= j < crate::text::escape_dq_spec(s0.skip(k)).len() ==> #[trigger] v@[i + j]
                        == crate::text::escape_dq_spec(s0.skip(k))[j]) by {
                    assert(forall|j: int|
                        i <= j < n - 1 ==> #[trigger] v@[j] == v@.subrange(1, n - 1)[j - 1]);
                }
            }
        }
        let ghost out0 = out@;
        let c = v[i];
        if c == '\\' {
            proof {
                if canonical is Some {
                    let s0 = canonical.unwrap();
                    if s0[k] != '\\' && s0[k] != '"' {
                        assert(v@[i as int] == s0[k]);
                        assert(false);
                    }
                    assert(crate::text::escape_dq_char(s0[k]).len() == 2);
                    assert(i + 2 <= n - 1);
                    assert(v@[i + 1] == crate::text::escape_dq_char(s0[k])[1]);
                    assert(v@[i + 1] == s0[k]);
                }
            }
            if i + 1 >= n - 1 {
                return None;
            }
            let e = v[i + 1];
            if e == '\\' || e == '"' {
                out.push(e);
                proof {
                    crate::text::lemma_escape_dq_push(out0, e);
                    assert(v@.subrange(1, i + 2) =~= v@.subrange(1, i as int) + seq![
                        v@[i as int],
                        v@[i + 1],
                    ]);
                    assert(crate::text::escape_dq_spec(out@) =~= v@.subrange(1, i + 2));
                    if canonical is Some {
                        let s0 = canonical.unwrap();
                        assert(out@ =~= s0.take(k + 1));
                        k = k + 1;
                    }
                }
                i = i + 2;
            } else {
                proof {
                    if canonical is Some {
                        let s0 = canonical.unwrap();
                        assert(e == s0[k]);
                        assert(false);
                    }
                }
                return None;
            }
        } else if c == '"' {
            proof {
                if canonical is Some {
                    let s0 = canonical.unwrap();
                    assert(v@[i as int] == crate::text::escape_dq_char(s0[k])[0]);
                    if s0[k] == '\\' || s0[k] == '"' {
                        assert(v@[i as int] == '\\');
                    } else {
                        assert(v@[i as int] == s0[k]);
                    }
                    assert(false);
                }
            }
            return None;
        } else {
            out.push(c);
            proof {
                crate::text::lemma_escape_dq_push(out0, c);
                assert(v@.subrange(1, i + 1) =~= v@.subrange(1, i as int) + seq![v@[i as int]]);
                assert(crate::text::escape_dq_spec(out@) =~= v@.subrange(1, i + 1));
                if canonical is Some {
                    let s0 = canonical.unwrap();
                    assert(v@[i as int] == crate::text::escape_dq_char(s0[k])[0]);
                    if s0[k] == '\\' || s0[k] == '"' {
                        assert(v@[i as int] == '\\');
                        assert(false);
                    }
                    assert(c == s0[k]);
                    assert(out@ =~= s0.take(k + 1));
                    k = k + 1;
                }
            }
            i = i + 1;
        }
    }
    let result = chars_to_string(&out);
    proof {
        assert(v@ =~= seq!['"'] + v@.subrange(1, n - 1) + seq!['"']);
        assert(toml_string(result@) =~= v@);
    }
    Some(result)
}

/// Reads the tag list out of the inside of a `tags = [...]` line.
fn parse_tag_list(inner: &Vec<char>) -> (r: Option<Vec<String>>)
{
    let trimmed = trim_vec(inner);
    if trimmed.len() == 0 {
        return Some(Vec::new());
    }
    let pieces = crate::text::split_and_trim(&trimmed);
    let mut tags: Vec<String> = Vec::new();
    let mut i: usize = 0;
    while i < pieces.len()
        invariant
            i <= pieces@.len(),
        decreases pieces@.len() - i,
    {
        let piece = str_to_chars(pieces[i].as_str());
        match unquote(&piece) {
            Some(tag) => tags.push(tag),
            None => {
                return None;
            },
        }
        i = i + 1;
    }
    Some(tags)
}

struct ParseState {
    current: Option<Repo>,
    pending_name: Option<String>,
}

/// Reads a state document back into a repo list. Every entry of a successful
/// parse is well-formed: its remote map is sorted by name.
pub fn parse(state_toml: &str) -> (r: Result<Repos, String>)
    ensures
        match r {
            Ok(repos) => forall|i: int| 0 <= i < repos@.len() ==> (#[trigger] repos@[i]).wf(),
            Err(_) => true,
        },
{
    let cs = str_to_chars(state_toml);
    let lines = split_lines(&cs);
    let mut done: Vec<Repo> = Vec::new();
    let mut st = ParseState { current: None, pending_name: None };
    let mut li: usize = 0;
    while li < lines.len()
        invariant
            forall|i: int| 0 <= i < done@.len() ==> (#[trigger] done@[i]@).wf(),
            match st.current {
                Some(repo) => repo@.wf(),
                None => true,
            },
        decreases lines@.len() - li,
    {
        let line = trim_vec(&lines[li]);
        li = li + 1;
        if line.len() == 0 {
            continue ;
        }
        if chars_eq_lit(&line, "repos = []") {
            continue ;
        }
        if chars_eq_lit(&line, "[[repos]]") {
            let prev = st.current.take();
            match prev {
                Some(repo) => done.push(repo),
                None => (),
            }
            st.pending_name = None;
            st.current = Some(Repo::new(String::new()));
            proof {
                assert(forall|i: int| 0 <= i < done@.len() ==> (#[trigger] done@[i]@).wf());
            }
            continue ;
        }
        if starts_with_lit(&line, "[repos.remotes.") {
            if line.len() == 0 || line[line.len() - 1] != ']' {
                return Err(unrecognized_line(&line));
            }
            match &st.current {
                Some(_) => (),
                None => {
                    return Err(unrecognized_line(&line));
                },
            }
            st.pending_name = None;
            continue ;
        }
        if starts_with_lit(&line, "path = ") {
            proof {
                reveal_strlit("path = ");
            }
            let value = subvec(&line, 7, line.len());
            let path = match unquote(&value) {
                Some(p) => p,
                None => {
                    return Err(unrecognized_line(&line));
                },
            };
            match st.current.take() {
                Some(repo) => {
                    let fresh = Repo { path, tags: repo.tags, remotes: repo.remotes };
                    proof {
                        assert(fresh@.wf());
                    }
                    st.current = Some(fresh);
                },
                None => {
                    return Err(unrecognized_line(&line));
                },
            }
            continue ;
        }
        if starts_with_lit(&line, "tags = [") {
            if line.len() == 0 || line[line.len() - 1] != ']' {
                return Err(unrecognized_line(&line));
            }
            proof {
                reveal_strlit("tags = [");
                assert(line@.subrange(0, 8)[7] == '[');
                assert(line@[7] == '[');
                if line@.len() == 8 {
                    assert(line@[line@.len() - 1] == ']');
                    assert(false);
                }
            }
            let inner = subvec(&line, 8, line.len() - 1);
            let tags = match parse_tag_list(&inner) {
                Some(t) => t,
                None => {
                    return Err(unrecognized_line(&line));
                },
            };
            match st.current.take() {
                Some(repo) => {
                    let fresh = Repo { path: repo.path, tags, remotes: repo.remotes };
                    proof {
                        assert(fresh@.wf());
                    }
                    st.current = Some(fresh);
                },
                None => {
                    return Err(unrecognized_line(&line));
                },
            }
            continue ;
        }
        if starts_with_lit(&line, "name = ") {
            proof {
                reveal_strlit("name = ");
            }
            let value = subvec(&line, 7, line.len());
            match unquote(&value) {
                Some(name) => {
                    st.pending_name = Some(name);
                },
                None => {
                    return Err(unrecognized_line(&line));
                },
            }
            continue ;
        }
        if starts_with_lit(&line, "url = ") {
            proof {
                reveal_strlit("url = ");
            }
            let value = subvec(&line, 6, line.len());
            let url = match unquote(&value) {
                Some(u) => u,
                None => {
                    return Err(unrecognized_line(&line));
                },
            };
            let name = match st.pending_name.take() {
                Some(n) => n,
                None => {
                    return Err(unrecognized_line(&line));
                },
            };
            match st.current.take() {
                Some(mut repo) => {
                    repo.add_remote(name, url);
                    st.current = Some(repo);
                },
                None => {
                    return Err(unrecognized_line(&line));
                },
            }
            continue ;
        }
        return Err(unrecognized_line(&line));
    }
    match st.current {
        Some(repo) => done.push(repo),
        None => (),
    }
    proof {
        let views = done@.map_values(|x: Repo| x@);
        assert forall|i: int| 0 <= i < views.len() implies (#[trigger] views[i]).wf() by {
            assert(views[i] == done@[i]@);
        }
    }
    Ok(Repos::new_with_repos(done))
}

fn unrecognized_line(line: &Vec<char>) -> (r: String)
{
    let mut msg: Vec<char> = Vec::new();
    append_str(&mut msg, "unrecognized line: ");
    crate::text::append_chars(&mut msg, line);
    chars_to_string(&msg)
}

} // verus!
