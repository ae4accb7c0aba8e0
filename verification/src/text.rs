//! Text utilities for absolute type paths and derived identifiers: joining
//! path segments, splitting on a separator, and the snake-case form used for
//! generated identifiers.

use vstd::prelude::*;
use vstd::string::*;

verus! {

/// The characters of `parts` joined with `sep` between consecutive parts.
pub open spec fn spec_join(parts: Seq<Seq<char>>, sep: Seq<char>) -> Seq<char>
    decreases parts.len(),
{
    if parts.len() == 0 {
        Seq::empty()
    } else if parts.len() == 1 {
        parts[0]
    } else {
        parts[0] + sep + spec_join(parts.drop_first(), sep)
    }
}

proof fn lemma_spec_join_push(parts: Seq<Seq<char>>, sep: Seq<char>, x: Seq<char>)
    ensures
        spec_join(parts.push(x), sep) == if parts.len() == 0 {
            x
        } else {
            spec_join(parts, sep) + sep + x
        },
    decreases parts.len(),
{
    if parts.len() == 0 {
        assert(spec_join(parts.push(x), sep) == parts.push(x)[0]);
        assert(parts.push(x)[0] == x);
    } else if parts.len() == 1 {
        assert(parts.push(x).drop_first() =~= seq![x]);
        assert(spec_join(seq![x], sep) == seq![x][0]);
        assert(parts.push(x)[0] == parts[0]);
    } else {
        lemma_spec_join_push(parts.drop_first(), sep, x);
        assert(parts.push(x).drop_first() =~= parts.drop_first().push(x));
        assert((parts[0] + sep + (spec_join(parts.drop_first(), sep) + sep + x)) =~= (parts[0]
            + sep + spec_join(parts.drop_first(), sep)) + sep + x);
    }
}

/// Joins the first `n` path segments with a separator.
pub fn join_upto(parts: &Vec<String>, n: usize, sep: &str) -> (r: String)
    requires
        n <= parts@.len(),
    ensures
        r@ == spec_join(parts@.map_values(|s: String| s@).take(n as int), sep@),
{
    let ghost views = parts@.map_values(|s: String| s@);
    let mut r = String::new();
    let mut i: usize = 0;
    while i < n
        invariant
            0 <= i <= n <= parts@.len(),
            views == parts@.map_values(|s: String| s@),
            views.len() == parts@.len(),
            r@ == spec_join(views.take(i as int), sep@),
        decreases n - i,
    {
        if i > 0 {
            r.append(sep);
        }
        r.append(parts[i].as_str());
        proof {
            lemma_spec_join_push(views.take(i as int), sep@, views[i as int]);
            assert(views.take(i + 1) =~= views.take(i as int).push(views[i as int]));
        }
        i = i + 1;
    }
    r
}

/// Joins path segments with a separator: the executable form of `spec_join`.
pub fn join_segments(parts: &Vec<String>, sep: &str) -> (r: String)
    ensures
        r@ == spec_join(parts@.map_values(|s: String| s@), sep@),
{
    let n = parts.len();
    let r = join_upto(parts, n, sep);
    proof {
        assert(parts@.map_values(|s: String| s@).take(parts@.len() as int) =~= parts@.map_values(
            |s: String| s@,
        ));
    }
    r
}

/// A copy of a vector of strings.
pub fn clone_string_vec(v: &Vec<String>) -> (r: Vec<String>)
    ensures
        r@ == v@,
{
    let mut r: Vec<String> = Vec::new();
    let mut i: usize = 0;
    while i < v.len()
        invariant
            0 <= i <= v@.len(),
            r@.len() == i,
            forall|j: int| 0 <= j < i ==> r@[j] == v@[j],
        decreases v@.len() - i,
    {
        r.push(v[i].clone());
        i = i + 1;
    }
    proof {
        assert(r@ =~= v@);
    }
    r
}

/// The parts of `s` between occurrences of `sep`: always at least one part,
/// and an empty part wherever two separators are adjacent or a separator
/// stands at either end.
pub open spec fn spec_split(s: Seq<char>, sep: char) -> Seq<Seq<char>>
    decreases s.len(),
{
    if s.len() == 0 {
        seq![Seq::<char>::empty()]
    } else {
        let rest = spec_split(s.drop_first(), sep);
        if s[0] == sep {
            seq![Seq::<char>::empty()] + rest
        } else {
            seq![seq![s[0]] + rest[0]] + rest.drop_first()
        }
    }
}

pub proof fn lemma_spec_split_len(s: Seq<char>, sep: char)
    ensures
        spec_split(s, sep).len() >= 1,
    decreases s.len(),
{
    if s.len() > 0 {
        lemma_spec_split_len(s.drop_first(), sep);
    }
}

/// Splits a string on a separator character: the executable form of
/// `spec_split`.
pub fn split_on(s: &str, sep: char) -> (r: Vec<String>)
    ensures
        r@.map_values(|t: String| t@) == spec_split(s@, sep),
        r@.len() >= 1,
    decreases s@.len(),
{
    let n = s.unicode_len();
    if n == 0 {
        let mut r: Vec<String> = Vec::new();
        r.push(String::new());
        proof {
            assert(r@.map_values(|t: String| t@) =~= spec_split(s@, sep));
        }
        r
    } else {
        let c = s.get_char(0);
        let rest = s.substring_char(1, n);
        proof {
            assert(rest@ =~= s@.drop_first());
        }
        let mut r = split_on(rest, sep);
        proof {
            lemma_spec_split_len(rest@, sep);
        }
        if c == sep {
            r.insert(0, String::new());
            proof {
                assert(r@.map_values(|t: String| t@) =~= spec_split(s@, sep));
            }
        } else {
            let head = s.substring_char(0, 1);
            let h0 = r.remove(0);
            let nh = head.to_owned().concat(h0.as_str());
            proof {
                assert(head@ =~= seq![s@[0]]);
            }
            r.insert(0, nh);
            proof {
                assert(r@.map_values(|t: String| t@) =~= spec_split(s@, sep));
            }
        }
        r
    }
}

/// The last part of `s` after its final `:`; `s` itself when it has none.
pub open spec fn spec_last_segment(s: Seq<char>) -> Seq<char> {
    spec_split(s, ':').last()
}

/// The text after the last `:` of a path such as `a::b::C`.
pub fn last_segment(s: &str) -> (r: String)
    ensures
        r@ == spec_last_segment(s@),
{
    let parts = split_on(s, ':');
    let last = parts.len() - 1;
    parts[last].clone()
}

/// The index of the last occurrence of `c` in `s`, if any.
pub open spec fn spec_rfind(s: Seq<char>, c: char) -> Option<int>
    decreases s.len(),
{
    if s.len() == 0 {
        None
    } else if s.last() == c {
        Some(s.len() - 1)
    } else {
        spec_rfind(s.drop_last(), c)
    }
}

proof fn lemma_rfind_at(s: Seq<char>, c: char, j: int)
    requires
        0 <= j < s.len(),
        s[j] == c,
        forall|k: int| j < k < s.len() ==> s[k] != c,
    ensures
        spec_rfind(s, c) == Some(j),
    decreases s.len(),
{
    if j == s.len() - 1 {
    } else {
        lemma_rfind_at(s.drop_last(), c, j);
    }
}

proof fn lemma_rfind_none(s: Seq<char>, c: char)
    requires
        forall|k: int| 0 <= k < s.len() ==> s[k] != c,
    ensures
        spec_rfind(s, c) is None,
    decreases s.len(),
{
    if s.len() > 0 {
        lemma_rfind_none(s.drop_last(), c);
    }
}

/// Finds the last occurrence of `c` in `s`, scanning from the end.
pub fn rfind_char(s: &str, c: char) -> (r: Option<usize>)
    ensures
        match r {
            Some(i) => spec_rfind(s@, c) == Some(i as int) && i < s@.len(),
            None => spec_rfind(s@, c) is None,
        },
{
    let n = s.unicode_len();
    let mut i: usize = n;
    while i > 0
        invariant
            0 <= i <= n,
            n == s@.len(),
            forall|k: int| i <= k < n ==> s@[k] != c,
        decreases i,
    {
        i = i - 1;
        if s.get_char(i) == c {
            proof {
                lemma_rfind_at(s@, c, i as int);
            }
            return Some(i);
        }
    }
    proof {
        lemma_rfind_none(s@, c);
    }
    None
}

/// `s` with its extension removed: everything after the last `.` is dropped,
/// unless the only `.` leads the name (a hidden file has no extension).
pub open spec fn spec_strip_extension(s: Seq<char>) -> Seq<char> {
    match spec_rfind(s, '.') {
        Some(i) => if i > 0 {
            s.take(i)
        } else {
            s
        },
        None => s,
    }
}

/// Removes the extension of a file name, as `spec_strip_extension` says.
pub fn strip_extension(s: &str) -> (r: String)
    ensures
        r@ == spec_strip_extension(s@),
{
    match rfind_char(s, '.') {
        Some(i) => {
            if i > 0 {
                s.substring_char(0, i).to_owned()
            } else {
                s.to_owned()
            }
        },
        None => s.to_owned(),
    }
}

/// The snake-case form of a string, as the `heck` crate computes it.
pub uninterp spec fn snake_of(s: Seq<char>) -> Seq<char>;

/// Relies on heck::ToSnakeCase::to_snake_case: the result depends on the
/// characters of the input alone.
#[verifier::external_body]
pub fn to_snake_case(s: &str) -> (r: String)
    ensures
        r@ == snake_of(s@),
{
    heck::ToSnakeCase::to_snake_case(s)
}

} // verus!
