use vstd::prelude::*;
use vstd::string::StringExecFns;

use crate::regex::{is_match, Regex};

verus! {

/// An output line: `label:line` when the search names its files, else the line.
pub open spec fn labelled(label: Option<Seq<char>>, line: Seq<char>) -> Seq<char> {
    match label {
        Some(l) => l + seq![':'] + line,
        None => line,
    }
}

/// The lines that the compiled pattern matches, in order, each labelled.
pub open spec fn selected(
    pats: Seq<crate::pattern::Pattern>,
    n: nat,
    lines: Seq<Seq<char>>,
    label: Option<Seq<char>>,
) -> Seq<Seq<char>>
    decreases lines.len(),
{
    if lines.len() == 0 {
        Seq::empty()
    } else {
        let prev = selected(pats, n, lines.drop_last(), label);
        if is_match(pats, lines.last(), n) {
            prev.push(labelled(label, lines.last()))
        } else {
            prev
        }
    }
}

pub open spec fn strings_view(v: Seq<String>) -> Seq<Seq<char>> {
    v.map_values(|s: String| s@)
}

pub open spec fn label_view(label: Option<&str>) -> Option<Seq<char>> {
    match label {
        Some(l) => Some(l@),
        None => None,
    }
}

fn labelled_line(label: Option<&str>, line: &String) -> (r: String)
    ensures
        r@ == labelled(label_view(label), line@),
{
    match label {
        Some(l) => {
            let mut out = String::from_str(l);
            proof {
                reveal_strlit(":");
            }
            out.append(":");
            out.append(line.as_str());
            out
        },
        None => String::from_str(line.as_str()),
    }
}

/// The lines of one file that `regex` matches, in order; each is prefixed
/// with `label` and a colon when a label is given.
pub fn matching_lines(regex: &Regex, lines: &Vec<String>, label: Option<&str>) -> (r: Vec<String>)
    ensures
        strings_view(r@) == selected(
            regex.patterns@,
            regex.capture_group_count as nat,
            strings_view(lines@),
            label_view(label),
        ),
{
    let ghost n = regex.capture_group_count as nat;
    let mut out: Vec<String> = Vec::new();
    let mut i: usize = 0;
    while i < lines.len()
        invariant
            i <= lines@.len(),
            n == regex.capture_group_count as nat,
            strings_view(out@) == selected(
                regex.patterns@,
                n,
                strings_view(lines@).take(i as int),
                label_view(label),
            ),
        decreases lines@.len() - i,
    {
        let line = &lines[i];
        let ghost prev = strings_view(out@);
        assert(strings_view(lines@).take(i + 1).drop_last() =~= strings_view(lines@).take(
            i as int,
        ));
        if regex.matches(line.as_str()) {
            let s = labelled_line(label, line);
            out.push(s);
            assert(strings_view(out@) =~= prev.push(labelled(label_view(label), line@)));
        }
        i = i + 1;
    }
    assert(strings_view(lines@).take(i as int) =~= strings_view(lines@));
    out
}

} // verus!
