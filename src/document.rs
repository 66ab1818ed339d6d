//! Selection of the body of a whole document.
//!
//! A document opens with front matter (title, author) that ends at the first
//! blank line, and closes with back matter that starts at the first later line
//! beginning with the source marker `底本：`.
use vstd::prelude::*;

use crate::text::chars_of;

verus! {

/// Whether a line starts with the source marker `底本：`.
pub open spec fn is_footer_line(l: Seq<char>) -> bool {
    l.len() >= 3 && l[0] == '底' && l[1] == '本' && l[2] == '：'
}

/// The characters of each line.
pub open spec fn line_views(lines: Seq<&str>) -> Seq<Seq<char>> {
    lines.map_values(|l: &str| l@)
}

/// The index of the first blank line at or after `i`, or `ls.len()`.
pub open spec fn first_blank(ls: Seq<Seq<char>>, i: int) -> int
    decreases ls.len() - i,
{
    if i >= ls.len() {
        ls.len() as int
    } else if ls[i].len() == 0 {
        i
    } else {
        first_blank(ls, i + 1)
    }
}

/// The index of the first footer line at or after `i`, or `ls.len()`.
pub open spec fn first_footer(ls: Seq<Seq<char>>, i: int) -> int
    decreases ls.len() - i,
{
    if i >= ls.len() {
        ls.len() as int
    } else if is_footer_line(ls[i]) {
        i
    } else {
        first_footer(ls, i + 1)
    }
}

/// Where the body starts: just after the first blank line, or at the end when
/// there is none.
pub open spec fn body_start(ls: Seq<Seq<char>>) -> int {
    if first_blank(ls, 0) < ls.len() {
        first_blank(ls, 0) + 1
    } else {
        ls.len() as int
    }
}

/// Where the body ends: at the first footer line after its start, or at the end.
pub open spec fn body_end(ls: Seq<Seq<char>>) -> int {
    first_footer(ls, body_start(ls))
}

proof fn lemma_first_blank_bounds(ls: Seq<Seq<char>>, i: int)
    requires
        0 <= i <= ls.len(),
    ensures
        i <= first_blank(ls, i) <= ls.len(),
    decreases ls.len() - i,
{
    if i < ls.len() && ls[i].len() != 0 {
        lemma_first_blank_bounds(ls, i + 1);
    }
}

proof fn lemma_first_footer_bounds(ls: Seq<Seq<char>>, i: int)
    requires
        0 <= i <= ls.len(),
    ensures
        i <= first_footer(ls, i) <= ls.len(),
    decreases ls.len() - i,
{
    if i < ls.len() && !is_footer_line(ls[i]) {
        lemma_first_footer_bounds(ls, i + 1);
    }
}

/// Whether `line` starts with the source marker `底本：`.
fn is_footer(line: &str) -> (r: bool)
    ensures
        r == is_footer_line(line@),
{
    let cs = chars_of(line);
    cs.len() >= 3 && cs[0] == '底' && cs[1] == '本' && cs[2] == '：'
}

/// The body lines of a document: those after the first blank line and before
/// the first later line that starts with `底本：`. Without a blank line there
/// is no body.
pub fn extract_body_lines<'a>(lines: &[&'a str]) -> (r: Vec<&'a str>)
    ensures
        body_start(line_views(lines@)) <= body_end(line_views(lines@)) <= lines@.len(),
        r@ == lines@.subrange(body_start(line_views(lines@)), body_end(line_views(lines@))),
{
    let ghost ls = line_views(lines@);
    let mut result: Vec<&'a str> = Vec::new();
    let mut in_body = false;
    let mut i: usize = 0;
    proof {
        lemma_first_blank_bounds(ls, 0);
        lemma_first_footer_bounds(ls, body_start(ls));
    }
    while i < lines.len()
        invariant
            i <= lines.len(),
            ls == line_views(lines@),
            ls.len() == lines@.len(),
            0 <= body_start(ls) <= body_end(ls) <= ls.len(),
            !in_body ==> first_blank(ls, i as int) == first_blank(ls, 0) && result@.len() == 0,
            in_body ==> first_blank(ls, 0) < i && body_start(ls) <= i && first_footer(
                ls,
                i as int,
            ) == body_end(ls) && result@ == lines@.subrange(body_start(ls), i as int),
        ensures
            result@ == lines@.subrange(body_start(ls), body_end(ls)),
        decreases lines.len() - i,
    {
        let line = lines[i];
        assert(ls[i as int] == line@);
        if !in_body {
            if line.is_empty() {
                in_body = true;
            }
            i += 1;
            continue ;
        }
        if is_footer(line) {
            break ;
        }
        result.push(line);
        i += 1;
        assert(result@ =~= lines@.subrange(body_start(ls), i as int));
    }
    result
}

} // verus!
