//! A filter for repositories based on tag matching: each group's tags must
//! all be present (AND), and any group may match (OR across groups). An empty
//! filter matches every repo.

use vstd::prelude::*;

use crate::repos::Repo;
use crate::repos::RepoView;
use crate::text::split_commas;
use crate::text::str_to_chars;
use crate::text::trim_spec;
use crate::text::views_of_strings;

verus! {

/// Whether every tag of `group` occurs in `tags`.
pub open spec fn group_matches(group: Seq<Seq<char>>, tags: Seq<Seq<char>>) -> bool {
    forall|i: int| 0 <= i < group.len() ==> tags.contains(#[trigger] group[i])
}

/// Whether the groups select a repo with tag set `tags`: an empty group list
/// matches everything, else at least one group must be fully contained.
pub open spec fn filter_matches(groups: Seq<Seq<Seq<char>>>, tags: Seq<Seq<char>>) -> bool {
    groups.len() == 0 || exists|g: int| 0 <= g < groups.len() && group_matches(
        #[trigger] groups[g],
        tags,
    )
}

/// One CLI tag argument as an AND-group: split on commas, each tag trimmed.
pub open spec fn parse_group(s: Seq<char>) -> Seq<Seq<char>> {
    split_commas(s).map_values(|p: Seq<char>| trim_spec(p))
}

/// All CLI tag arguments as a group list.
pub open spec fn parse_groups(args: Seq<Seq<char>>) -> Seq<Seq<Seq<char>>> {
    args.map_values(|a: Seq<char>| parse_group(a))
}

/// The tag filter: a sequence of AND-groups, ORed together.
#[derive(Debug)]
pub struct TagFilter {
    tag_groups: Vec<Vec<String>>,
}

impl View for TagFilter {
    type V = Seq<Seq<Seq<char>>>;

    closed spec fn view(&self) -> Seq<Seq<Seq<char>>> {
        self.tag_groups@.map_values(|g: Vec<String>| views_of_strings(g@))
    }
}

fn slice_contains_string(hay: &[String], needle: &String) -> (b: bool)
    ensures
        b == views_of_strings(hay@).contains(needle@),
{
    let mut i: usize = 0;
    while i < hay.len()
        invariant
            i <= hay@.len(),
            forall|j: int| 0 <= j < i ==> hay@[j]@ != needle@,
        decreases hay@.len() - i,
    {
        if hay[i].eq(needle) {
            proof {
                assert(views_of_strings(hay@)[i as int] == needle@);
            }
            return true;
        }
        i = i + 1;
    }
    proof {
        if views_of_strings(hay@).contains(needle@) {
            let w = choose|k: int|
                0 <= k < hay@.len() && views_of_strings(hay@)[k] == needle@;
            assert(hay@[w]@ == needle@);
        }
    }
    false
}

fn group_contained(group: &Vec<String>, repo_tags: &[String]) -> (b: bool)
    ensures
        b == group_matches(views_of_strings(group@), views_of_strings(repo_tags@)),
{
    let mut i: usize = 0;
    while i < group.len()
        invariant
            i <= group@.len(),
            forall|j: int|
                0 <= j < i ==> views_of_strings(repo_tags@).contains(
                    #[trigger] views_of_strings(group@)[j],
                ),
        decreases group@.len() - i,
    {
        if !slice_contains_string(repo_tags, &group[i]) {
            proof {
                assert(views_of_strings(group@)[i as int] == group@[i as int]@);
            }
            return false;
        }
        i = i + 1;
    }
    true
}

impl TagFilter {
    /// A filter that matches all repositories.
    pub fn all() -> (r: TagFilter)
        ensures
            r@.len() == 0,
    {
        TagFilter { tag_groups: Vec::new() }
    }

    /// Whether this is the match-everything filter.
    pub fn is_all(&self) -> (b: bool)
        ensures
            b == (self@.len() == 0),
    {
        self.tag_groups.len() == 0
    }

    /// Builds the filter from CLI tag arguments: commas inside one argument
    /// form an AND-group, several arguments are ORed.
    pub fn from_cli_args(tag_args: &[String]) -> (r: TagFilter)
        ensures
            r@ == parse_groups(views_of_strings(tag_args@)),
    {
        let mut tag_groups: Vec<Vec<String>> = Vec::new();
        let ghost want = parse_groups(views_of_strings(tag_args@));
        let mut i: usize = 0;
        while i < tag_args.len()
            invariant
                i <= tag_args@.len(),
                want == parse_groups(views_of_strings(tag_args@)),
                tag_groups@.len() == i,
                forall|j: int|
                    0 <= j < i ==> views_of_strings(#[trigger] tag_groups@[j]@) == want[j],
            decreases tag_args@.len() - i,
        {
            let cs = str_to_chars(tag_args[i].as_str());
            let group = crate::text::split_and_trim(&cs);
            tag_groups.push(group);
            i = i + 1;
        }
        let r = TagFilter { tag_groups };
        proof {
            assert(r@ =~= want);
        }
        r
    }

    /// Whether this filter selects a repo carrying `repo_tags`: true iff the
    /// filter is empty or at least one group's tags are all present.
    pub fn matches(&self, repo_tags: &[String]) -> (b: bool)
        ensures
            b == filter_matches(self@, views_of_strings(repo_tags@)),
    {
        if self.tag_groups.len() == 0 {
            return true;
        }
        let mut g: usize = 0;
        while g < self.tag_groups.len()
            invariant
                g <= self.tag_groups@.len(),
                self@.len() == self.tag_groups@.len(),
                forall|j: int|
                    0 <= j < g ==> !group_matches(#[trigger] self@[j], views_of_strings(
                        repo_tags@,
                    )),
            decreases self.tag_groups@.len() - g,
        {
            if group_contained(&self.tag_groups[g], repo_tags) {
                proof {
                    assert(self@[g as int] == views_of_strings(self.tag_groups@[g as int]@));
                }
                return true;
            }
            proof {
                assert(self@[g as int] == views_of_strings(self.tag_groups@[g as int]@));
            }
            g = g + 1;
        }
        proof {
            if filter_matches(self@, views_of_strings(repo_tags@)) {
                let w = choose|k: int|
                    0 <= k < self@.len() && group_matches(self@[k], views_of_strings(repo_tags@));
                assert(false);
            }
        }
        false
    }
}

/// The repos the filter selects, in their original order.
pub fn select_repos(repos: Vec<Repo>, filter: &TagFilter) -> (r: Vec<Repo>)
    ensures
        r@.map_values(|x: Repo| x@) == repos@.map_values(|x: Repo| x@).filter(
            |v: RepoView| filter_matches(filter@, v.tags),
        ),
{
    let ghost orig = repos@.map_values(|x: Repo| x@);
    let ghost pred = |v: RepoView| filter_matches(filter@, v.tags);
    let mut input = repos;
    let mut out: Vec<Repo> = Vec::new();
    let ghost mut k: int = 0;
    proof {
        reveal(Seq::filter);
        assert(orig.take(0) =~= Seq::<RepoView>::empty());
        assert(orig.take(0).filter(pred) =~= Seq::<RepoView>::empty());
    }
    while input.len() > 0
        invariant
            0 <= k <= orig.len(),
            input@.map_values(|x: Repo| x@) == orig.skip(k),
            input@.len() == orig.len() - k,
            out@.map_values(|x: Repo| x@) == orig.take(k).filter(
                |v: RepoView| filter_matches(filter@, v.tags),
            ),
        decreases input@.len(),
    {
        let ghost out0 = out@;
        let ghost input0 = input@;
        let r = input.remove(0);
        proof {
            assert(r == input0[0]);
            assert(r@ == input0.map_values(|x: Repo| x@)[0]);
            assert(r@ == orig.skip(k)[0]);
            assert(r@ == orig[k]);
            assert forall|j: int| 0 <= j < input@.len() implies input@.map_values(|x: Repo| x@)[j]
                == #[trigger] orig.skip(k + 1)[j] by {
                assert(input@[j] == input0[j + 1]);
                assert(input0.map_values(|x: Repo| x@)[j + 1] == orig.skip(k)[j + 1]);
            }
            assert(input@.map_values(|x: Repo| x@) =~= orig.skip(k + 1));
        }
        let keep = filter.matches(r.tags.as_slice());
        if keep {
            out.push(r);
        }
        proof {
            reveal(Seq::filter);
            let p = |v: RepoView| filter_matches(filter@, v.tags);
            assert(orig.take(k + 1).drop_last() =~= orig.take(k));
            assert(orig.take(k + 1).last() == orig[k]);
            if keep {
                assert(out@.map_values(|x: Repo| x@) =~= out0.map_values(|x: Repo| x@).push(
                    orig[k],
                ));
            }
            assert(out@.map_values(|x: Repo| x@) =~= orig.take(k + 1).filter(p));
        }
        proof {
            k = k + 1;
        }
    }
    proof {
        assert(orig.take(orig.len() as int) =~= orig);
    }
    out
}

} // verus!
