//! Splitting a document into its front-matter header and its body.
use vstd::prelude::*;

use crate::frontmatter::{frontmatter_of, read_frontmatter};
use crate::scan::{body_blocks, body_refs, scan_body};
use crate::text::{
    join_lines, lemma_join_lines_push, same_chars, slice_chars, split_lines, trimmed, views,
};
use crate::{DocView, ParsedDocument};

verus! {

/// `---`, once trimmed: a line that opens or closes the header.
pub open spec fn is_delim(l: Seq<char>) -> bool {
    crate::text::trim(l) == seq!['-', '-', '-']
}

/// Index of the first delimiter line at or after `i`, or -1.
pub open spec fn find_delim(ls: Seq<Seq<char>>, i: int) -> int
    decreases ls.len() - i,
{
    if 0 <= i < ls.len() {
        if is_delim(ls[i]) {
            i
        } else {
            find_delim(ls, i + 1)
        }
    } else {
        -1
    }
}

/// The line that opens the header, or -1.
pub open spec fn open_at(ls: Seq<Seq<char>>) -> int {
    find_delim(ls, 0)
}

/// The line that closes the header, or -1.
pub open spec fn close_at(ls: Seq<Seq<char>>) -> int {
    if open_at(ls) < 0 {
        -1
    } else {
        find_delim(ls, open_at(ls) + 1)
    }
}

/// The header's lines, between its delimiters; an unclosed header runs to
/// the end.
pub open spec fn header_text(ls: Seq<Seq<char>>) -> Seq<char> {
    if open_at(ls) < 0 {
        seq![]
    } else if close_at(ls) < 0 {
        join_lines(ls.subrange(open_at(ls) + 1, ls.len() as int))
    } else {
        join_lines(ls.subrange(open_at(ls) + 1, close_at(ls)))
    }
}

/// Where the body starts: at the first line when there is no header, after
/// the closing delimiter when there is one, and after the first line when
/// the header is never closed.
pub open spec fn body_start(ls: Seq<Seq<char>>) -> int {
    if open_at(ls) < 0 {
        0
    } else if close_at(ls) < 0 {
        1
    } else {
        close_at(ls) + 1
    }
}

pub open spec fn body_lines(ls: Seq<Seq<char>>) -> Seq<Seq<char>> {
    ls.subrange(body_start(ls), ls.len() as int)
}

/// The document that the text `s` holds.
pub open spec fn document_of(s: Seq<char>) -> DocView {
    let ls = crate::text::lines(s);
    DocView {
        frontmatter: frontmatter_of(header_text(ls)),
        content: body_blocks(body_lines(ls)),
        snippet_refs: body_refs(body_lines(ls)),
    }
}

pub proof fn lemma_find_delim_bounds(ls: Seq<Seq<char>>, i: int)
    requires
        0 <= i,
    ensures
        find_delim(ls, i) == -1 || (i <= find_delim(ls, i) < ls.len() && is_delim(
            ls[find_delim(ls, i)],
        )),
    decreases ls.len() - i,
{
    if i < ls.len() && !is_delim(ls[i]) {
        lemma_find_delim_bounds(ls, i + 1);
    }
}

pub fn is_delimiter(l: &Vec<char>) -> (r: bool)
    ensures
        r == is_delim(l@),
{
    let t = trimmed(l);
    let d = vec!['-', '-', '-'];
    assert(d@ =~= seq!['-', '-', '-']);
    same_chars(&t, &d)
}

pub fn find_delimiter(ls: &Vec<Vec<char>>, from: usize) -> (r: Option<usize>)
    ensures
        match r {
            Some(i) => i < ls@.len() && find_delim(views(ls@), from as int) == i,
            None => find_delim(views(ls@), from as int) == -1,
        },
{
    let mut i: usize = from;
    if i >= ls.len() {
        return None;
    }
    while i < ls.len()
        invariant
            from <= i <= ls@.len(),
            find_delim(views(ls@), i as int) == find_delim(views(ls@), from as int),
        decreases ls@.len() - i,
    {
        if is_delimiter(&ls[i]) {
            return Some(i);
        }
        i = i + 1;
    }
    None
}

/// The lines `ls[a..b]` joined, each followed by a newline.
pub fn join_range(ls: &Vec<Vec<char>>, a: usize, b: usize) -> (r: Vec<char>)
    requires
        a <= b <= ls@.len(),
    ensures
        r@ == join_lines(views(ls@).subrange(a as int, b as int)),
{
    let mut r: Vec<char> = Vec::new();
    let mut i: usize = a;
    assert(views(ls@).subrange(a as int, a as int) =~= seq![]);
    while i < b
        invariant
            a <= i <= b <= ls@.len(),
            r@ == join_lines(views(ls@).subrange(a as int, i as int)),
        decreases b - i,
    {
        proof {
            lemma_join_lines_push(views(ls@).subrange(a as int, i as int), ls@[i as int]@);
            assert(views(ls@).subrange(a as int, i as int).push(ls@[i as int]@) =~= views(
                ls@,
            ).subrange(a as int, i + 1));
        }
        crate::scan::push_line(&mut r, &ls[i]);
        i = i + 1;
    }
    r
}

/// Parses the document text `s`.
pub fn parse_document(s: &Vec<char>) -> (r: ParsedDocument)
    ensures
        r@ == document_of(s@),
{
    let ls = split_lines(s);
    let ghost vls = views(ls@);
    let open = find_delimiter(&ls, 0);
    if let Some(o) = open {
        assert(o < ls.len());
    }
    let (header, start) = match open {
        None => (Vec::new(), 0),
        Some(o) => match find_delimiter(&ls, o + 1) {
            None => (join_range(&ls, o + 1, ls.len()), 1),
            Some(c) => {
                proof {
                    lemma_find_delim_bounds(vls, o + 1);
                }
                (join_range(&ls, o + 1, c), c + 1)
            },
        },
    };
    assert(header@ == header_text(vls));
    assert(start == body_start(vls));
    let frontmatter = read_frontmatter(&header);
    let mut body: Vec<Vec<char>> = Vec::new();
    let mut i: usize = start;
    while i < ls.len()
        invariant
            start <= i <= ls@.len(),
            vls == views(ls@),
            views(body@) == vls.subrange(start as int, i as int),
        decreases ls@.len() - i,
    {
        let ghost before = views(body@);
        let line = slice_chars(&ls[i], 0, ls[i].len());
        assert(line@ =~= ls@[i as int]@);
        body.push(line);
        assert(views(body@) =~= before.push(vls[i as int]));
        i = i + 1;
        assert(views(body@) =~= vls.subrange(start as int, i as int));
    }
    assert(views(body@) =~= body_lines(vls));
    let (content, snippet_refs) = scan_body(&body);
    ParsedDocument { frontmatter, content, snippet_refs }
}

} // verus!
