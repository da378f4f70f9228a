//! Inline references: the titles written as `[[title]]` in a note's text.

use vstd::prelude::*;
use vstd::string::*;

verus! {

/// The first index at or after `j` that holds `]`, or the length of `s`.
pub open spec fn close_at(s: Seq<char>, j: int) -> int
    decreases s.len() - j,
{
    if j < 0 || j >= s.len() {
        s.len() as int
    } else if s[j] == ']' {
        j
    } else {
        close_at(s, j + 1)
    }
}

/// The references found scanning `s` from index `i`, left to right without
/// overlap: `[[`, then a run of characters other than `]`, then `]]`. Where
/// the run is not closed by `]]`, the scan moves on by one character.
pub open spec fn refs_from(s: Seq<char>, i: int) -> Seq<Seq<char>>
    decreases s.len() - i,
{
    if i < 0 || i + 1 >= s.len() {
        Seq::empty()
    } else if s[i] == '[' && s[i + 1] == '[' {
        let j = close_at(s, i + 2);
        if i + 2 <= j && j + 1 < s.len() && s[j + 1] == ']' {
            seq![s.subrange(i + 2, j)] + refs_from(s, j + 2)
        } else {
            refs_from(s, i + 1)
        }
    } else {
        refs_from(s, i + 1)
    }
}

/// The titles referenced in `text`, in order, repeats kept.
pub open spec fn inline_refs(text: Seq<char>) -> Seq<Seq<char>> {
    refs_from(text, 0)
}

pub open spec fn string_views(v: Seq<String>) -> Seq<Seq<char>> {
    v.map_values(|x: String| x@)
}

fn chars_of(s: &str) -> (r: Vec<char>)
    ensures
        r@ == s@,
{
    let n = s.unicode_len();
    let mut r: Vec<char> = Vec::new();
    let mut i: usize = 0;
    while i < n
        invariant
            n == s@.len(),
            i <= n,
            r@ == s@.subrange(0, i as int),
        decreases n - i,
    {
        r.push(s.get_char(i));
        i = i + 1;
    }
    assert(r@ =~= s@);
    r
}

/// Scans `text` for `[[title]]` spans and returns the titles, left to right,
/// repeats kept.
pub fn extract_link_titles(text: &String) -> (r: Vec<String>)
    ensures
        string_views(r@) == inline_refs(text@),
{
    let s = text.as_str();
    let cs = chars_of(s);
    let ghost g = s@;
    let n = cs.len();
    let mut out: Vec<String> = Vec::new();
    let mut i: usize = 0;
    assert(string_views(out@) + refs_from(g, 0) =~= refs_from(g, 0));
    while i < n && i + 1 < n
        invariant
            g == s@,
            cs@ == g,
            n == g.len(),
            i <= n,
            string_views(out@) + refs_from(g, i as int) == inline_refs(g),
        decreases n - i,
    {
        if cs[i] == '[' && cs[i + 1] == '[' {
            let mut j: usize = i + 2;
            while j < n && cs[j] != ']'
                invariant
                    cs@ == g,
                    n == g.len(),
                    i + 2 <= j <= n,
                    close_at(g, i + 2) == close_at(g, j as int),
                decreases n - j,
            {
                j = j + 1;
            }
            assert(close_at(g, j as int) == j);
            if j < n && j + 1 < n && cs[j + 1] == ']' {
                let title = String::from_str(s.substring_char(i + 2, j));
                let ghost before = out@;
                out.push(title);
                assert(string_views(out@) =~= string_views(before) + seq![title@]);
                assert(string_views(out@) + refs_from(g, j + 2) =~= string_views(before)
                    + refs_from(g, i as int));
                i = j + 2;
            } else {
                i = i + 1;
            }
        } else {
            i = i + 1;
        }
    }
    assert(string_views(out@) =~= string_views(out@) + refs_from(g, i as int));
    out
}

} // verus!
