//! Character-level string utilities.
//!
//! The verified logic works on `Vec<char>` values, whose view is the same
//! `Seq<char>` that `String` and `&str` views use; conversion between the two
//! representations happens here. Every transformation is specified by a spec
//! function over `Seq<char>` and proved against it.

use vstd::prelude::*;
use vstd::string::StrSliceExecFns;

verus! {

/// Relies on `String`'s `FromIterator<&char>` impl: collecting the characters
/// of a vector yields a string holding exactly those characters in order.
#[verifier::external_body]
pub fn chars_to_string(v: &Vec<char>) -> (r: String)
    ensures
        r@ == v@,
{
    v.iter().collect()
}

/// The characters of a string slice, as a vector.
pub fn str_to_chars(s: &str) -> (r: Vec<char>)
    ensures
        r@ == s@,
{
    let n = s.unicode_len();
    let mut r: Vec<char> = Vec::new();
    let mut i: usize = 0;
    while i < n
        invariant
            i <= n,
            n == s@.len(),
            r@ == s@.subrange(0, i as int),
        decreases n - i,
    {
        r.push(s.get_char(i));
        i = i + 1;
        proof {
            assert(r@ =~= s@.subrange(0, i as int));
        }
    }
    proof {
        assert(r@ =~= s@);
    }
    r
}

/// The Unicode `White_Space` characters, the set that `char::is_whitespace`
/// recognises.
pub open spec fn is_ws_char(c: char) -> bool {
    c == ' ' || c == '\t' || c == '\n' || c == '\u{0b}' || c == '\u{0c}' || c == '\r'
        || c == '\u{85}' || c == '\u{a0}' || c == '\u{1680}' || c == '\u{2000}' || c == '\u{2001}'
        || c == '\u{2002}' || c == '\u{2003}' || c == '\u{2004}' || c == '\u{2005}'
        || c == '\u{2006}' || c == '\u{2007}' || c == '\u{2008}' || c == '\u{2009}'
        || c == '\u{200a}' || c == '\u{2028}' || c == '\u{2029}' || c == '\u{202f}'
        || c == '\u{205f}' || c == '\u{3000}'
}

/// Whether `c` is Unicode whitespace.
pub fn char_is_ws(c: char) -> (b: bool)
    ensures
        b == is_ws_char(c),
{
    c == ' ' || c == '\t' || c == '\n' || c == '\u{0b}' || c == '\u{0c}' || c == '\r'
        || c == '\u{85}' || c == '\u{a0}' || c == '\u{1680}' || c == '\u{2000}' || c == '\u{2001}'
        || c == '\u{2002}' || c == '\u{2003}' || c == '\u{2004}' || c == '\u{2005}'
        || c == '\u{2006}' || c == '\u{2007}' || c == '\u{2008}' || c == '\u{2009}'
        || c == '\u{200a}' || c == '\u{2028}' || c == '\u{2029}' || c == '\u{202f}'
        || c == '\u{205f}' || c == '\u{3000}'
}

/// Whether `c` occurs in `s`.
pub open spec fn contains_char(s: Seq<char>, c: char) -> bool {
    exists|i: int| 0 <= i < s.len() && s[i] == c
}

/// Whether `c` occurs in the vector.
pub fn vec_contains_char(v: &Vec<char>, c: char) -> (b: bool)
    ensures
        b == contains_char(v@, c),
{
    let mut i: usize = 0;
    while i < v.len()
        invariant
            i <= v@.len(),
            forall|j: int| 0 <= j < i ==> v@[j] != c,
        decreases v@.len() - i,
    {
        if v[i] == c {
            return true;
        }
        i = i + 1;
    }
    false
}

/// The position of the first occurrence of `c` in the vector, if any.
pub fn find_char(v: &Vec<char>, c: char) -> (r: Option<usize>)
    ensures
        match r {
            Some(i) => i < v@.len() && v@[i as int] == c && forall|j: int|
                0 <= j < i ==> v@[j] != c,
            None => !contains_char(v@, c),
        },
{
    let mut i: usize = 0;
    while i < v.len()
        invariant
            i <= v@.len(),
            forall|j: int| 0 <= j < i ==> v@[j] != c,
        decreases v@.len() - i,
    {
        if v[i] == c {
            return Some(i);
        }
        i = i + 1;
    }
    None
}

/// `s` without its leading whitespace.
pub open spec fn trim_start_spec(s: Seq<char>) -> Seq<char>
    decreases s.len(),
{
    if s.len() > 0 && is_ws_char(s[0]) {
        trim_start_spec(s.drop_first())
    } else {
        s
    }
}

/// `s` without its trailing whitespace.
pub open spec fn trim_end_spec(s: Seq<char>) -> Seq<char>
    decreases s.len(),
{
    if s.len() > 0 && is_ws_char(s[s.len() - 1]) {
        trim_end_spec(s.drop_last())
    } else {
        s
    }
}

/// `s` without surrounding whitespace, as `str::trim` computes it.
pub open spec fn trim_spec(s: Seq<char>) -> Seq<char> {
    trim_end_spec(trim_start_spec(s))
}

proof fn lemma_trim_start_subrange(s: Seq<char>, lo: int)
    requires
        0 <= lo <= s.len(),
        forall|j: int| 0 <= j < lo ==> is_ws_char(s[j]),
        lo < s.len() ==> !is_ws_char(s[lo]),
    ensures
        trim_start_spec(s) == s.subrange(lo, s.len() as int),
    decreases lo,
{
    if lo == 0 {
        if s.len() > 0 && is_ws_char(s[0]) {
            assert(false);
        }
        assert(s.subrange(0, s.len() as int) =~= s);
    } else {
        let t = s.drop_first();
        assert(forall|j: int| 0 <= j < lo - 1 ==> is_ws_char(t[j]));
        lemma_trim_start_subrange(t, lo - 1);
        assert(t.subrange(lo - 1, t.len() as int) =~= s.subrange(lo, s.len() as int));
    }
}

proof fn lemma_trim_end_subrange(s: Seq<char>, hi: int)
    requires
        0 <= hi <= s.len(),
        forall|j: int| hi <= j < s.len() ==> is_ws_char(s[j]),
        hi > 0 ==> !is_ws_char(s[hi - 1]),
    ensures
        trim_end_spec(s) == s.subrange(0, hi),
    decreases s.len() - hi,
{
    if hi == s.len() {
        if s.len() > 0 && is_ws_char(s[s.len() - 1]) {
            assert(false);
        }
        assert(s.subrange(0, s.len() as int) =~= s);
    } else {
        let t = s.drop_last();
        lemma_trim_end_subrange(t, hi);
        assert(t.subrange(0, hi) =~= s.subrange(0, hi));
    }
}

/// The vector without surrounding whitespace.
pub fn trim_vec(v: &Vec<char>) -> (r: Vec<char>)
    ensures
        r@ == trim_spec(v@),
{
    let n = v.len();
    let mut lo: usize = 0;
    while lo < n && char_is_ws(v[lo])
        invariant
            lo <= n,
            n == v@.len(),
            forall|j: int| 0 <= j < lo ==> is_ws_char(v@[j]),
        decreases n - lo,
    {
        lo = lo + 1;
    }
    proof {
        lemma_trim_start_subrange(v@, lo as int);
    }
    let ghost t = v@.subrange(lo as int, n as int);
    let mut hi: usize = n;
    while hi > lo && char_is_ws(v[hi - 1])
        invariant
            lo <= hi <= n,
            n == v@.len(),
            forall|j: int| hi <= j < n ==> is_ws_char(v@[j]),
        decreases hi,
    {
        hi = hi - 1;
    }
    proof {
        assert(forall|j: int| hi - lo <= j < t.len() ==> is_ws_char(#[trigger] t[j]));
        if hi > lo {
            assert(t[hi - lo - 1] == v@[hi - 1]);
        }
        lemma_trim_end_subrange(t, hi - lo);
    }
    let mut r: Vec<char> = Vec::new();
    let mut i: usize = lo;
    while i < hi
        invariant
            lo <= i <= hi <= n,
            n == v@.len(),
            r@ == v@.subrange(lo as int, i as int),
        decreases hi - i,
    {
        r.push(v[i]);
        i = i + 1;
        proof {
            assert(r@ =~= v@.subrange(lo as int, i as int));
        }
    }
    proof {
        assert(t.subrange(0, hi - lo) =~= v@.subrange(lo as int, hi as int));
    }
    r
}

/// `s` with every newline replaced by a single space.
pub open spec fn flatten_newlines_spec(s: Seq<char>) -> Seq<char> {
    Seq::new(s.len(), |i: int| if s[i] == '\n' { ' ' } else { s[i] })
}

/// The vector with every newline replaced by a single space.
pub fn flatten_newlines(v: &Vec<char>) -> (r: Vec<char>)
    ensures
        r@ == flatten_newlines_spec(v@),
{
    let mut r: Vec<char> = Vec::new();
    let mut i: usize = 0;
    while i < v.len()
        invariant
            i <= v@.len(),
            r@ == flatten_newlines_spec(v@).subrange(0, i as int),
        decreases v@.len() - i,
    {
        if v[i] == '\n' {
            r.push(' ');
        } else {
            r.push(v[i]);
        }
        i = i + 1;
        proof {
            assert(r@ =~= flatten_newlines_spec(v@).subrange(0, i as int));
        }
    }
    proof {
        assert(r@ =~= flatten_newlines_spec(v@));
    }
    r
}

/// How one character is written inside a double-quoted display string:
/// backslashes and double quotes get a backslash escape.
pub open spec fn escape_dq_char(c: char) -> Seq<char> {
    if c == '\\' {
        seq!['\\', '\\']
    } else if c == '"' {
        seq!['\\', c]
    } else {
        seq![c]
    }
}

/// `s` with backslashes and double quotes backslash-escaped.
pub open spec fn escape_dq_spec(s: Seq<char>) -> Seq<char>
    decreases s.len(),
{
    if s.len() == 0 {
        Seq::empty()
    } else {
        escape_dq_char(s[0]) + escape_dq_spec(s.drop_first())
    }
}

/// Escaping one more character appends that character's escape.
pub proof fn lemma_escape_dq_push(s: Seq<char>, c: char)
    ensures
        escape_dq_spec(s.push(c)) == escape_dq_spec(s) + escape_dq_char(c),
    decreases s.len(),
{
    if s.len() == 0 {
        assert(s.push(c).drop_first() =~= s);
        assert(escape_dq_spec(s.push(c)) =~= escape_dq_spec(s) + escape_dq_char(c));
    } else {
        assert(s.push(c).drop_first() =~= s.drop_first().push(c));
        lemma_escape_dq_push(s.drop_first(), c);
        assert(escape_dq_spec(s.push(c)) =~= escape_dq_spec(s) + escape_dq_char(c));
    }
}

/// Escaping distributes over concatenation.
pub proof fn lemma_escape_dq_concat(a: Seq<char>, b: Seq<char>)
    ensures
        escape_dq_spec(a + b) == escape_dq_spec(a) + escape_dq_spec(b),
    decreases a.len(),
{
    if a.len() == 0 {
        assert(a + b =~= b);
        assert(escape_dq_spec(a) + escape_dq_spec(b) =~= escape_dq_spec(b));
    } else {
        assert((a + b).drop_first() =~= a.drop_first() + b);
        lemma_escape_dq_concat(a.drop_first(), b);
        assert(escape_dq_spec(a + b) =~= escape_dq_spec(a) + escape_dq_spec(b));
    }
}

/// Only the empty string has an empty escaping.
pub proof fn lemma_escape_dq_empty(s: Seq<char>)
    ensures
        escape_dq_spec(s).len() == 0 <==> s.len() == 0,
{
    if s.len() > 0 {
        assert(escape_dq_spec(s).len() >= escape_dq_char(s[0]).len());
    }
}

/// Appends the double-quote escaping of `v` to `out`.
pub fn append_escape_dq(out: &mut Vec<char>, v: &Vec<char>)
    ensures
        final(out)@ == old(out)@ + escape_dq_spec(v@),
{
    let mut i: usize = 0;
    while i < v.len()
        invariant
            i <= v@.len(),
            out@ == old(out)@ + escape_dq_spec(v@.subrange(0, i as int)),
        decreases v@.len() - i,
    {
        let c = v[i];
        if c == '\\' {
            out.push('\\');
            out.push('\\');
        } else if c == '"' {
            out.push('\\');
            out.push('"');
        } else {
            out.push(c);
        }
        i = i + 1;
        proof {
            let pre = v@.subrange(0, i - 1);
            assert(v@.subrange(0, i as int) =~= pre.push(v@[i - 1]));
            lemma_escape_dq_push(pre, v@[i - 1]);
            assert(out@ =~= old(out)@ + escape_dq_spec(v@.subrange(0, i as int)));
        }
    }
    proof {
        assert(v@.subrange(0, v@.len() as int) =~= v@);
    }
}

/// How one character is written inside a Windows double-quoted argument:
/// a double quote is doubled.
pub open spec fn double_dq_char(c: char) -> Seq<char> {
    if c == '"' {
        seq![c, c]
    } else {
        seq![c]
    }
}

/// `s` with every double quote doubled.
pub open spec fn double_dq_spec(s: Seq<char>) -> Seq<char>
    decreases s.len(),
{
    if s.len() == 0 {
        Seq::empty()
    } else {
        double_dq_char(s[0]) + double_dq_spec(s.drop_first())
    }
}

proof fn lemma_double_dq_push(s: Seq<char>, c: char)
    ensures
        double_dq_spec(s.push(c)) == double_dq_spec(s) + double_dq_char(c),
    decreases s.len(),
{
    if s.len() == 0 {
        assert(s.push(c).drop_first() =~= s);
        assert(double_dq_spec(s.push(c)) =~= double_dq_spec(s) + double_dq_char(c));
    } else {
        assert(s.push(c).drop_first() =~= s.drop_first().push(c));
        lemma_double_dq_push(s.drop_first(), c);
        assert(double_dq_spec(s.push(c)) =~= double_dq_spec(s) + double_dq_char(c));
    }
}

/// Appends `v` with doubled double quotes to `out`.
pub fn append_double_dq(out: &mut Vec<char>, v: &Vec<char>)
    ensures
        final(out)@ == old(out)@ + double_dq_spec(v@),
{
    let mut i: usize = 0;
    while i < v.len()
        invariant
            i <= v@.len(),
            out@ == old(out)@ + double_dq_spec(v@.subrange(0, i as int)),
        decreases v@.len() - i,
    {
        let c = v[i];
        if c == '"' {
            out.push('"');
            out.push('"');
        } else {
            out.push(c);
        }
        i = i + 1;
        proof {
            let pre = v@.subrange(0, i - 1);
            assert(v@.subrange(0, i as int) =~= pre.push(v@[i - 1]));
            lemma_double_dq_push(pre, v@[i - 1]);
            assert(out@ =~= old(out)@ + double_dq_spec(v@.subrange(0, i as int)));
        }
    }
    proof {
        assert(v@.subrange(0, v@.len() as int) =~= v@);
    }
}

/// Appends all of `v` to `out`.
pub fn append_chars(out: &mut Vec<char>, v: &Vec<char>)
    ensures
        final(out)@ == old(out)@ + v@,
{
    let mut i: usize = 0;
    while i < v.len()
        invariant
            i <= v@.len(),
            out@ == old(out)@ + v@.subrange(0, i as int),
        decreases v@.len() - i,
    {
        out.push(v[i]);
        i = i + 1;
        proof {
            assert(out@ =~= old(out)@ + v@.subrange(0, i as int));
        }
    }
    proof {
        assert(v@.subrange(0, v@.len() as int) =~= v@);
    }
}

/// Appends the characters of `s` to `out`.
pub fn append_str(out: &mut Vec<char>, s: &str)
    ensures
        final(out)@ == old(out)@ + s@,
{
    let v = str_to_chars(s);
    append_chars(out, &v);
}

/// The views of a list of strings.
pub open spec fn views_of_strings(args: Seq<String>) -> Seq<Seq<char>> {
    args.map_values(|a: String| a@)
}

/// A copy of a string vector, element for element.
pub fn clone_strings(v: &Vec<String>) -> (r: Vec<String>)
    ensures
        r@ == v@,
{
    let mut r: Vec<String> = Vec::new();
    let mut i: usize = 0;
    while i < v.len()
        invariant
            i <= v@.len(),
            r@ == v@.subrange(0, i as int),
        decreases v@.len() - i,
    {
        r.push(v[i].clone());
        i = i + 1;
        proof {
            assert(r@ =~= v@.subrange(0, i as int));
        }
    }
    proof {
        assert(r@ =~= v@);
    }
    r
}

/// The position of the first occurrence of `c` in `s` (meaningful only when
/// `contains_char(s, c)` holds).
pub open spec fn first_pos(s: Seq<char>, c: char) -> int
    decreases s.len(),
{
    if s.len() == 0 {
        0
    } else if s[0] == c {
        0
    } else {
        1 + first_pos(s.drop_first(), c)
    }
}

/// When `c` occurs in `s`, `first_pos` names its first occurrence.
pub proof fn lemma_first_pos(s: Seq<char>, c: char)
    requires
        contains_char(s, c),
    ensures
        0 <= first_pos(s, c) < s.len(),
        s[first_pos(s, c)] == c,
        forall|j: int| 0 <= j < first_pos(s, c) ==> s[j] != c,
    decreases s.len(),
{
    if s[0] != c {
        let t = s.drop_first();
        let w = choose|i: int| 0 <= i < s.len() && s[i] == c;
        assert(t[w - 1] == c);
        lemma_first_pos(t, c);
        assert(forall|j: int| 1 <= j < first_pos(s, c) ==> s[j] == t[j - 1]);
    }
}

/// A position with no earlier occurrence is the first position.
pub proof fn lemma_first_pos_unique(s: Seq<char>, c: char, i: int)
    requires
        0 <= i < s.len(),
        s[i] == c,
        forall|j: int| 0 <= j < i ==> s[j] != c,
    ensures
        first_pos(s, c) == i,
{
    lemma_first_pos(s, c);
}

/// `s` without any trailing occurrences of `c`.
pub open spec fn trim_end_char_spec(s: Seq<char>, c: char) -> Seq<char>
    decreases s.len(),
{
    if s.len() > 0 && s[s.len() - 1] == c {
        trim_end_char_spec(s.drop_last(), c)
    } else {
        s
    }
}

proof fn lemma_trim_end_char_subrange(s: Seq<char>, c: char, hi: int)
    requires
        0 <= hi <= s.len(),
        forall|j: int| hi <= j < s.len() ==> s[j] == c,
        hi > 0 ==> s[hi - 1] != c,
    ensures
        trim_end_char_spec(s, c) == s.subrange(0, hi),
    decreases s.len() - hi,
{
    if hi == s.len() {
        assert(s.subrange(0, s.len() as int) =~= s);
    } else {
        let t = s.drop_last();
        lemma_trim_end_char_subrange(t, c, hi);
        assert(t.subrange(0, hi) =~= s.subrange(0, hi));
    }
}

/// The vector without trailing occurrences of `c`.
pub fn trim_end_char(v: &Vec<char>, c: char) -> (r: Vec<char>)
    ensures
        r@ == trim_end_char_spec(v@, c),
{
    let n = v.len();
    let mut hi: usize = n;
    while hi > 0 && v[hi - 1] == c
        invariant
            hi <= n,
            n == v@.len(),
            forall|j: int| hi <= j < n ==> v@[j] == c,
        decreases hi,
    {
        hi = hi - 1;
    }
    proof {
        lemma_trim_end_char_subrange(v@, c, hi as int);
    }
    subvec(v, 0, hi)
}

/// The slice of `v` from `lo` (inclusive) to `hi` (exclusive).
pub fn subvec(v: &Vec<char>, lo: usize, hi: usize) -> (r: Vec<char>)
    requires
        lo <= hi <= v@.len(),
    ensures
        r@ == v@.subrange(lo as int, hi as int),
{
    let mut r: Vec<char> = Vec::new();
    let mut i: usize = lo;
    while i < hi
        invariant
            lo <= i <= hi <= v@.len(),
            r@ == v@.subrange(lo as int, i as int),
        decreases hi - i,
    {
        r.push(v[i]);
        i = i + 1;
        proof {
            assert(r@ =~= v@.subrange(lo as int, i as int));
        }
    }
    r
}

/// The pieces of `s` between occurrences of `c`, in order; a string without
/// `c` is one piece.
pub open spec fn split_char_spec(s: Seq<char>, c: char) -> Seq<Seq<char>>
    decreases s.len(),
    via split_char_decreases
{
    if contains_char(s, c) {
        let p = first_pos(s, c);
        seq![s.subrange(0, p)] + split_char_spec(s.subrange(p + 1, s.len() as int), c)
    } else {
        seq![s]
    }
}

#[via_fn]
proof fn split_char_decreases(s: Seq<char>, c: char) {
    if contains_char(s, c) {
        lemma_first_pos(s, c);
    }
}

/// The comma-separated pieces of `s`.
pub open spec fn split_commas(s: Seq<char>) -> Seq<Seq<char>> {
    split_char_spec(s, ',')
}

/// The pieces of `v` between occurrences of `c`.
pub fn split_char(v: &Vec<char>, c: char) -> (r: Vec<Vec<char>>)
    ensures
        r@.map_values(|p: Vec<char>| p@) == split_char_spec(v@, c),
    decreases v@.len(),
{
    match find_char(v, c) {
        None => {
            let mut r: Vec<Vec<char>> = Vec::new();
            r.push(subvec(v, 0, v.len()));
            proof {
                assert(v@.subrange(0, v@.len() as int) =~= v@);
                assert(r@.map_values(|p: Vec<char>| p@) =~= split_char_spec(v@, c));
            }
            r
        },
        Some(p) => {
            proof {
                lemma_first_pos_unique(v@, c, p as int);
            }
            let n = v.len();
            let head = subvec(v, 0, p);
            let tail = subvec(v, p + 1, n);
            let mut rest = split_char(&tail, c);
            let ghost rest0 = rest@;
            rest.insert(0, head);
            proof {
                assert(rest@ =~= seq![head] + rest0);
                assert(rest@.map_values(|q: Vec<char>| q@) =~= seq![head@] + rest0.map_values(
                    |q: Vec<char>| q@,
                ));
                assert(split_char_spec(v@, c) == seq![v@.subrange(0, p as int)] + split_char_spec(
                    tail@,
                    c,
                ));
                assert(rest@.map_values(|q: Vec<char>| q@) =~= split_char_spec(v@, c));
            }
            rest
        },
    }
}

/// The comma-separated pieces of the vector, each trimmed of surrounding
/// whitespace.
pub fn split_and_trim(v: &Vec<char>) -> (r: Vec<String>)
    ensures
        views_of_strings(r@) == split_commas(v@).map_values(|p: Seq<char>| trim_spec(p)),
    decreases v@.len(),
{
    match find_char(v, ',') {
        None => {
            let t = trim_vec(v);
            let s = chars_to_string(&t);
            let mut r: Vec<String> = Vec::new();
            r.push(s);
            proof {
                assert(views_of_strings(r@) =~= split_commas(v@).map_values(
                    |p: Seq<char>| trim_spec(p),
                ));
            }
            r
        },
        Some(p) => {
            proof {
                lemma_first_pos_unique(v@, ',', p as int);
            }
            let n = v.len();
            let head = subvec(v, 0, p);
            let tail = subvec(v, p + 1, n);
            let mut rest = split_and_trim(&tail);
            let ghost rest0 = rest@;
            let t = trim_vec(&head);
            let piece = chars_to_string(&t);
            rest.insert(0, piece);
            proof {
                let split = split_commas(v@);
                let tail_pieces = split_commas(tail@).map_values(|q: Seq<char>| trim_spec(q));
                assert(split == seq![v@.subrange(0, p as int)] + split_commas(tail@));
                assert(split.map_values(|q: Seq<char>| trim_spec(q)) =~= seq![trim_spec(
                    v@.subrange(0, p as int),
                )] + tail_pieces);
                assert(rest@ =~= seq![piece] + rest0);
                assert(views_of_strings(rest@) =~= seq![piece@] + views_of_strings(rest0));
                assert(views_of_strings(rest@) =~= split.map_values(|q: Seq<char>| trim_spec(q)));
            }
            rest
        },
    }
}

/// The parts joined by a single separator character.
pub open spec fn join_char_spec(parts: Seq<Seq<char>>, sep: char) -> Seq<char>
    decreases parts.len(),
{
    if parts.len() == 0 {
        Seq::empty()
    } else if parts.len() == 1 {
        parts[0]
    } else {
        parts[0] + seq![sep] + join_char_spec(parts.drop_first(), sep)
    }
}

/// Appending one more part extends the join by a separator and the part.
pub proof fn lemma_join_char_push(parts: Seq<Seq<char>>, t: Seq<char>, sep: char)
    ensures
        join_char_spec(parts.push(t), sep) == if parts.len() == 0 {
            t
        } else {
            join_char_spec(parts, sep) + seq![sep] + t
        },
    decreases parts.len(),
{
    if parts.len() == 0 {
        assert(join_char_spec(parts.push(t), sep) =~= t);
    } else if parts.len() == 1 {
        assert(parts.push(t).drop_first() =~= seq![t]);
        assert(join_char_spec(seq![t], sep) == t);
        assert(parts.push(t)[0] == parts[0]);
        assert(join_char_spec(parts.push(t), sep) =~= join_char_spec(parts, sep) + seq![sep] + t);
    } else {
        assert(parts.push(t).drop_first() =~= parts.drop_first().push(t));
        lemma_join_char_push(parts.drop_first(), t, sep);
        assert(join_char_spec(parts.push(t), sep) =~= join_char_spec(parts, sep) + seq![sep] + t);
    }
}

/// Appends the strings of `parts`, separated by `sep`, to `out`.
pub fn append_join_strings(out: &mut Vec<char>, parts: &Vec<String>, sep: char)
    ensures
        final(out)@ == old(out)@ + join_char_spec(views_of_strings(parts@), sep),
{
    let ghost pv = views_of_strings(parts@);
    let ghost base = out@;
    let mut i: usize = 0;
    while i < parts.len()
        invariant
            i <= parts@.len(),
            pv == views_of_strings(parts@),
            pv.len() == parts@.len(),
            out@ == base + join_char_spec(pv.subrange(0, i as int), sep),
        decreases parts@.len() - i,
    {
        if i > 0 {
            out.push(sep);
        }
        append_str(out, parts[i].as_str());
        proof {
            let pre = pv.subrange(0, i as int);
            assert(pv.subrange(0, i + 1) =~= pre.push(pv[i as int]));
            assert(parts@[i as int]@ == pv[i as int]);
            lemma_join_char_push(pre, pv[i as int], sep);
            assert(out@ =~= base + join_char_spec(pv.subrange(0, i + 1), sep));
        }
        i = i + 1;
    }
    proof {
        assert(pv.subrange(0, pv.len() as int) =~= pv);
    }
}

/// The position of the first element of `s` equal to `t` (meaningful only
/// when `s.contains(t)` holds).
pub open spec fn first_seq_pos(s: Seq<Seq<char>>, t: Seq<char>) -> int
    decreases s.len(),
{
    if s.len() == 0 {
        0
    } else if s[0] == t {
        0
    } else {
        1 + first_seq_pos(s.drop_first(), t)
    }
}

/// A position with no earlier occurrence is the first position.
pub proof fn lemma_first_seq_pos_unique(s: Seq<Seq<char>>, t: Seq<char>, i: int)
    requires
        0 <= i < s.len(),
        s[i] == t,
        forall|j: int| 0 <= j < i ==> s[j] != t,
    ensures
        first_seq_pos(s, t) == i,
    decreases i,
{
    if i > 0 {
        let w = s.drop_first();
        assert(forall|j: int| 0 <= j < i - 1 ==> w[j] == s[j + 1]);
        lemma_first_seq_pos_unique(w, t, i - 1);
    }
}

/// The decimal digit character for `d`.
pub open spec fn dec_digit(d: nat) -> char
    recommends
        d < 10,
{
    ((48 + d) as char)
}

/// The decimal rendering of `n`, most significant digit first.
pub open spec fn dec_spec(n: nat) -> Seq<char>
    decreases n,
{
    if n < 10 {
        seq![dec_digit(n)]
    } else {
        dec_spec(n / 10).push(dec_digit(n % 10))
    }
}

/// The decimal digits of `n`, as characters.
pub fn u64_to_dec_chars(n: u64) -> (r: Vec<char>)
    ensures
        r@ == dec_spec(n as nat),
{
    let mut digits: Vec<char> = Vec::new();
    let mut m: u64 = n;
    while m >= 10
        invariant
            dec_spec(n as nat) == dec_spec(m as nat) + digits@,
        decreases m,
    {
        let ghost pre = digits@;
        let d = (m % 10) as u8;
        let c = (48 + d) as char;
        digits.insert(0, c);
        proof {
            assert(digits@ =~= seq![c] + pre);
            assert(c == dec_digit((m % 10) as nat));
            assert(dec_spec(m as nat) =~= dec_spec((m / 10) as nat) + seq![c]);
            assert(dec_spec((m / 10) as nat) + digits@ =~= dec_spec(n as nat));
        }
        m = m / 10;
    }
    let ghost pre = digits@;
    let d = m as u8;
    let c = (48 + d) as char;
    digits.insert(0, c);
    proof {
        assert(dec_spec(m as nat) =~= seq![c]);
        assert(digits@ =~= seq![c] + pre);
        assert(digits@ =~= dec_spec(n as nat));
    }
    digits
}

/// The decimal rendering of an integer, with a leading minus sign when
/// negative.
pub open spec fn dec_int_spec(n: int) -> Seq<char> {
    if n < 0 {
        seq!['-'] + dec_spec((-n) as nat)
    } else {
        dec_spec(n as nat)
    }
}

/// The decimal digits of `n`, with a leading minus sign when negative.
pub fn i64_to_dec_chars(n: i64) -> (r: Vec<char>)
    ensures
        r@ == dec_int_spec(n as int),
{
    if n >= 0 {
        u64_to_dec_chars(n as u64)
    } else {
        let mag: u64 = if n == i64::MIN {
            9223372036854775808u64
        } else {
            (-n) as u64
        };
        let mut r: Vec<char> = Vec::new();
        r.push('-');
        let ds = u64_to_dec_chars(mag);
        append_chars(&mut r, &ds);
        proof {
            assert(r@ =~= dec_int_spec(n as int));
        }
        r
    }
}

} // verus!
