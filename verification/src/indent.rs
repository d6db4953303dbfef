//! Removal of presentation-only indentation from multiline curly text.
use vstd::prelude::*;
use crate::chars::{is_whitespace_char, spec_is_whitespace};
use crate::grammar::{
    cut_line, indentation, indentation_from, indents, is_blank, join_lines, least_indentation,
    remove_common_indentation, split_lines, trimmed_lines,
};

verus! {

pub open spec fn views(lines: Seq<Vec<char>>) -> Seq<Seq<char>> {
    lines.map_values(|line: Vec<char>| line@)
}

fn split_lines_of(text: &Vec<char>) -> (lines: Vec<Vec<char>>)
    ensures
        views(lines@) == split_lines(text@),
{
    let mut lines: Vec<Vec<char>> = Vec::new();
    let mut current: Vec<char> = Vec::new();
    let mut i: usize = 0;
    while i < text.len()
        invariant
            i <= text.len(),
            views(lines@).push(current@) == split_lines(text@.take(i as int)),
        decreases text.len() - i,
    {
        let c = text[i];
        let ghost before = text@.take(i as int);
        let ghost old_lines = lines@;
        let ghost old_current = current@;
        proof {
            assert(text@.take(i + 1).drop_last() =~= before);
            assert(text@.take(i + 1).last() == c);
        }
        if c == '\n' {
            lines.push(current);
            current = Vec::new();
            proof {
                assert(views(lines@) =~= views(old_lines).push(old_current));
                assert(views(lines@).push(current@) =~= views(old_lines).push(old_current).push(
                    Seq::empty(),
                ));
            }
        } else {
            current.push(c);
            proof {
                let rest = views(old_lines).push(old_current);
                assert(views(lines@).push(current@) =~= rest.update(
                    rest.len() - 1,
                    rest.last().push(c),
                ));
            }
        }
        i = i + 1;
    }
    let ghost old_lines = lines@;
    lines.push(current);
    proof {
        assert(text@.take(text.len() as int) =~= text@);
        assert(views(lines@) =~= views(old_lines).push(current@));
    }
    lines
}

fn blank(line: &Vec<char>) -> (r: bool)
    ensures
        r == is_blank(line@),
{
    let mut k: usize = 0;
    while k < line.len()
        invariant
            k <= line.len(),
            forall|m: int| 0 <= m < k ==> spec_is_whitespace(#[trigger] line@[m]),
        decreases line.len() - k,
    {
        if !is_whitespace_char(line[k]) {
            return false;
        }
        k = k + 1;
    }
    true
}

fn indentation_of(line: &Vec<char>) -> (n: usize)
    ensures
        n == indentation(line@),
        n <= line.len(),
{
    let mut k: usize = 0;
    while k < line.len() && (line[k] == ' ' || line[k] == '\t')
        invariant
            k <= line.len(),
            indentation_from(line@, k as int) == indentation_from(line@, 0),
        decreases line.len() - k,
    {
        k = k + 1;
    }
    k
}

fn least_indentation_of(lines: &Vec<Vec<char>>) -> (r: Option<usize>)
    ensures
        r matches Some(n) ==> least_indentation(views(lines@)) == Some(n as int),
        r is None ==> least_indentation(views(lines@)) is None,
{
    let mut least: Option<usize> = None;
    let mut k: usize = 0;
    while k < lines.len()
        invariant
            k <= lines.len(),
            least matches Some(n) ==> least_indentation(views(lines@).take(k as int)) == Some(
                n as int,
            ),
            least is None ==> least_indentation(views(lines@).take(k as int)) is None,
        decreases lines.len() - k,
    {
        proof {
            assert(views(lines@).take(k + 1).drop_last() =~= views(lines@).take(k as int));
            assert(views(lines@).take(k + 1).last() == lines@[k as int]@);
        }
        if !blank(&lines[k]) {
            let here = indentation_of(&lines[k]);
            least = match least {
                Some(n) => Some(
                    if here <= n {
                        here
                    } else {
                        n
                    },
                ),
                None => Some(here),
            };
        }
        k = k + 1;
    }
    proof {
        assert(views(lines@).take(lines.len() as int) =~= views(lines@));
    }
    least
}

fn cut(line: &Vec<char>, n: usize) -> (r: Vec<char>)
    ensures
        r@ == cut_line(line@, n as int),
{
    let mut r: Vec<char> = Vec::new();
    if n <= line.len() {
        let mut k: usize = n;
        while k < line.len()
            invariant
                n <= k <= line.len(),
                r@ == line@.subrange(n as int, k as int),
            decreases line.len() - k,
        {
            r.push(line[k]);
            k = k + 1;
        }
    }
    r
}

fn contains_newline(text: &Vec<char>) -> (r: bool)
    ensures
        r == text@.contains('\n'),
{
    let mut k: usize = 0;
    while k < text.len()
        invariant
            k <= text.len(),
            forall|m: int| 0 <= m < k ==> text@[m] != '\n',
        decreases text.len() - k,
    {
        if text[k] == '\n' {
            return true;
        }
        k = k + 1;
    }
    false
}

/// The text of multiline curly text after presentation indentation is removed.
pub fn remove_indentation(text: Vec<char>) -> (r: Vec<char>)
    ensures
        r@ == remove_common_indentation(text@),
{
    if !contains_newline(&text) {
        return text;
    }
    let mut lines = split_lines_of(&text);
    let ghost all = views(lines@);
    if lines.len() > 0 && blank(&lines[0]) {
        lines.remove(0);
        proof {
            assert(views(lines@) =~= all.drop_first());
        }
    }
    let ghost first_dropped = views(lines@);
    if lines.len() > 0 && blank(&lines[lines.len() - 1]) {
        lines.pop();
        proof {
            assert(views(lines@) =~= first_dropped.drop_last());
        }
    }
    assert(views(lines@) == trimmed_lines(text@));
    let n: usize = match least_indentation_of(&lines) {
        Some(n) => n,
        None => 0,
    };
    let ghost cuts = views(lines@).map_values(|line: Seq<char>| cut_line(line, n as int));
    let mut r: Vec<char> = Vec::new();
    let mut k: usize = 0;
    while k < lines.len()
        invariant
            k <= lines.len(),
            cuts == views(lines@).map_values(|line: Seq<char>| cut_line(line, n as int)),
            r@ == join_lines(cuts.take(k as int)),
        decreases lines.len() - k,
    {
        let piece = cut(&lines[k], n);
        proof {
            assert(cuts.take(k + 1).drop_last() =~= cuts.take(k as int));
            assert(cuts.take(k + 1).last() == piece@);
        }
        if k > 0 {
            r.push('\n');
        }
        let mut m: usize = 0;
        let ghost base = r@;
        while m < piece.len()
            invariant
                m <= piece.len(),
                r@ == base + piece@.take(m as int),
            decreases piece.len() - m,
        {
            r.push(piece[m]);
            m = m + 1;
            proof {
                assert(piece@.take(m as int) =~= piece@.take(m - 1).push(piece@[m - 1]));
            }
        }
        proof {
            assert(piece@.take(piece.len() as int) =~= piece@);
            if k == 0 {
                assert(cuts.take(1) =~= seq![piece@]);
                assert(base =~= Seq::<char>::empty());
            }
        }
        k = k + 1;
    }
    proof {
        assert(cuts.take(lines.len() as int) =~= cuts);
    }
    r
}

} // verus!
