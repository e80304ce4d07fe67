//! Lexicographic ordering of strings by character, the order in which repo
//! paths, tags and remote names are kept sorted.

use vstd::prelude::*;

use crate::text::str_to_chars;

verus! {

/// Strict lexicographic order on character sequences: a proper prefix comes
/// first, otherwise the first differing character decides.
pub open spec fn lex_lt(a: Seq<char>, b: Seq<char>) -> bool
    decreases a.len(),
{
    if b.len() == 0 {
        false
    } else if a.len() == 0 {
        true
    } else if a[0] != b[0] {
        a[0] < b[0]
    } else {
        lex_lt(a.drop_first(), b.drop_first())
    }
}

/// Non-strict lexicographic order.
pub open spec fn lex_leq(a: Seq<char>, b: Seq<char>) -> bool {
    !lex_lt(b, a)
}

/// The order is irreflexive and asymmetric.
pub proof fn lemma_lex_lt_asymmetric(a: Seq<char>, b: Seq<char>)
    ensures
        lex_lt(a, b) ==> !lex_lt(b, a),
    decreases a.len(),
{
    if a.len() > 0 && b.len() > 0 && a[0] == b[0] {
        lemma_lex_lt_asymmetric(a.drop_first(), b.drop_first());
    }
}

/// Two sequences with neither below the other are equal.
pub proof fn lemma_lex_lt_connected(a: Seq<char>, b: Seq<char>)
    ensures
        !lex_lt(a, b) && !lex_lt(b, a) ==> a == b,
    decreases a.len(),
{
    if a.len() > 0 && b.len() > 0 && a[0] == b[0] {
        lemma_lex_lt_connected(a.drop_first(), b.drop_first());
        if !lex_lt(a, b) && !lex_lt(b, a) {
            assert(a =~= seq![a[0]] + a.drop_first());
            assert(b =~= seq![b[0]] + b.drop_first());
        }
    }
}

/// The order is transitive.
pub proof fn lemma_lex_lt_transitive(a: Seq<char>, b: Seq<char>, c: Seq<char>)
    ensures
        lex_lt(a, b) && lex_lt(b, c) ==> lex_lt(a, c),
    decreases a.len() + b.len() + c.len(),
{
    if a.len() > 0 && b.len() > 0 && c.len() > 0 {
        lemma_lex_lt_transitive(a.drop_first(), b.drop_first(), c.drop_first());
    }
}

/// With equal prefixes of length `i`, the order is decided by the suffixes.
proof fn lemma_lex_lt_common_prefix(a: Seq<char>, b: Seq<char>, i: int)
    requires
        0 <= i <= a.len(),
        i <= b.len(),
        forall|j: int| 0 <= j < i ==> a[j] == b[j],
    ensures
        lex_lt(a, b) == lex_lt(a.skip(i), b.skip(i)),
    decreases i,
{
    if i == 0 {
        assert(a.skip(0) =~= a);
        assert(b.skip(0) =~= b);
    } else {
        assert(a.len() > 0 && b.len() > 0 && a[0] == b[0]);
        let a1 = a.drop_first();
        let b1 = b.drop_first();
        assert(forall|j: int| 0 <= j < i - 1 ==> a1[j] == b1[j]);
        lemma_lex_lt_common_prefix(a1, b1, i - 1);
        assert(a1.skip(i - 1) =~= a.skip(i));
        assert(b1.skip(i - 1) =~= b.skip(i));
    }
}

/// Whether `a` comes strictly before `b` in lexicographic order.
pub fn str_lt(a: &str, b: &str) -> (r: bool)
    ensures
        r == lex_lt(a@, b@),
{
    let av = str_to_chars(a);
    let bv = str_to_chars(b);
    chars_lt(&av, &bv)
}

/// Whether the characters of `a` come strictly before those of `b`.
pub fn chars_lt(a: &Vec<char>, b: &Vec<char>) -> (r: bool)
    ensures
        r == lex_lt(a@, b@),
{
    let mut i: usize = 0;
    while i < a.len() && i < b.len()
        invariant
            i <= a@.len(),
            i <= b@.len(),
            forall|j: int| 0 <= j < i ==> a@[j] == b@[j],
        decreases a@.len() - i,
    {
        let x = a[i];
        let y = b[i];
        if x != y {
            proof {
                lemma_lex_lt_common_prefix(a@, b@, i as int);
                assert(a@.skip(i as int)[0] == x);
                assert(b@.skip(i as int)[0] == y);
            }
            return x < y;
        }
        i = i + 1;
    }
    proof {
        lemma_lex_lt_common_prefix(a@, b@, if i <= b@.len() && (i as int) <= a@.len() {
            i as int
        } else {
            0
        });
        if a@.len() <= b@.len() {
            assert(a@.skip(a@.len() as int) =~= Seq::<char>::empty());
        } else {
            assert(b@.skip(b@.len() as int) =~= Seq::<char>::empty());
        }
    }
    a.len() < b.len()
}

/// A strictly sorted (hence duplicate-free) sequence of strings.
pub open spec fn strictly_sorted_strings(s: Seq<String>) -> bool {
    forall|i: int, j: int| 0 <= i < j < s.len() ==> lex_lt(s[i]@, s[j]@)
}

/// Inserts `x` into a strictly sorted vector, keeping it sorted and dropping
/// the insertion when an equal string is already present.
pub fn sorted_insert_unique(v: &mut Vec<String>, x: String)
    requires
        strictly_sorted_strings(old(v)@),
    ensures
        strictly_sorted_strings(final(v)@),
        forall|s: Seq<char>|
            #[trigger] contains_string_view(final(v)@, s) <==> (contains_string_view(old(v)@, s)
                || s == x@),
{
    let ghost orig = v@;
    let mut i: usize = 0;
    while i < v.len() && str_lt(v[i].as_str(), x.as_str())
        invariant
            i <= v@.len(),
            v@ == orig,
            forall|j: int| 0 <= j < i ==> lex_lt(v@[j]@, x@),
        decreases v@.len() - i,
    {
        i = i + 1;
    }
    if i < v.len() && x.eq(&v[i]) {
        proof {
            assert(contains_string_view(orig, x@)) by {
                assert(orig[i as int]@ == x@);
            }
            assert(forall|s: Seq<char>|
                contains_string_view(v@, s) <==> (contains_string_view(orig, s) || s == x@));
        }
        return ;
    }
    proof {
        if i < orig.len() {
            lemma_lex_lt_connected(orig[i as int]@, x@);
        }
    }
    v.insert(i, x);
    proof {
        let now = v@;
        assert forall|p: int, q: int| 0 <= p < q < now.len() implies lex_lt(now[p]@, now[q]@) by {
            if p < i && q > i {
                assert(lex_lt(now[p]@, x@));
                assert(lex_lt(x@, now[q]@)) by {
                    assert(now[q]@ == orig[q - 1]@);
                    if q - 1 > i {
                        lemma_lex_lt_transitive(x@, orig[i as int]@, orig[q - 1]@);
                    }
                }
                lemma_lex_lt_transitive(now[p]@, x@, now[q]@);
            } else if q == i {
                assert(now[p]@ == orig[p]@);
                assert(lex_lt(orig[p]@, x@));
            } else if p == i {
                assert(now[q]@ == orig[q - 1]@);
                assert(lex_lt(x@, orig[q - 1]@)) by {
                    if q - 1 > i {
                        lemma_lex_lt_transitive(x@, orig[i as int]@, orig[q - 1]@);
                    }
                }
            }
        }
        assert forall|s: Seq<char>| #[trigger]
            contains_string_view(now, s) <==> (contains_string_view(orig, s) || s == x@) by {
            if contains_string_view(now, s) {
                let w = choose|k: int| 0 <= k < now.len() && now[k]@ == s;
                if w < i {
                    assert(orig[w]@ == s);
                } else if w > i {
                    assert(orig[w - 1]@ == s);
                }
            }
            if contains_string_view(orig, s) {
                let w = choose|k: int| 0 <= k < orig.len() && orig[k]@ == s;
                if w < i {
                    assert(now[w]@ == s);
                } else {
                    assert(now[w + 1]@ == s);
                }
            }
            if s == x@ {
                assert(now[i as int]@ == s);
            }
        }
    }
}

/// Whether some string of `v` has view `s`.
pub open spec fn contains_string_view(v: Seq<String>, s: Seq<char>) -> bool {
    exists|i: int| 0 <= i < v.len() && v[i]@ == s
}

} // verus!
