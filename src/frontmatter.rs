//! Reading the `key: value` lines of a front-matter header.
use vstd::prelude::*;

use crate::text::{
    find_char, find_from, lines, same_chars, slice_chars, split, split_chars, split_lines, to_string,
    trim, trimmed, unbracket, unbracketed, unquote, unquoted, views,
};
use crate::{empty_frontmatter, string_views, FrontMatter, FrontMatterView};

verus! {

/// The recognised keys, one per field of `FrontMatter`.
#[derive(Clone, Copy, Debug, PartialEq, Eq)]
pub enum Field {
    Title,
    Date,
    Author,
    SnippetId,
    GithubUrl,
    DemoUrl,
    Tags,
}

pub open spec fn field_key(f: Field) -> Seq<char> {
    match f {
        Field::Title => seq!['t', 'i', 't', 'l', 'e'],
        Field::Date => seq!['d', 'a', 't', 'e'],
        Field::Author => seq!['a', 'u', 't', 'h', 'o', 'r'],
        Field::SnippetId => seq!['s', 'n', 'i', 'p', 'p', 'e', 't', '_', 'i', 'd'],
        Field::GithubUrl => seq!['g', 'i', 't', 'h', 'u', 'b', '_', 'u', 'r', 'l'],
        Field::DemoUrl => seq!['d', 'e', 'm', 'o', '_', 'u', 'r', 'l'],
        Field::Tags => seq!['t', 'a', 'g', 's'],
    }
}

/// The field that `key` names, if any.
pub open spec fn field_of(key: Seq<char>) -> Option<Field> {
    if key == field_key(Field::Title) {
        Some(Field::Title)
    } else if key == field_key(Field::Date) {
        Some(Field::Date)
    } else if key == field_key(Field::Author) {
        Some(Field::Author)
    } else if key == field_key(Field::SnippetId) {
        Some(Field::SnippetId)
    } else if key == field_key(Field::GithubUrl) {
        Some(Field::GithubUrl)
    } else if key == field_key(Field::DemoUrl) {
        Some(Field::DemoUrl)
    } else if key == field_key(Field::Tags) {
        Some(Field::Tags)
    } else {
        None
    }
}

pub fn key_chars(f: Field) -> (r: Vec<char>)
    ensures
        r@ == field_key(f),
{
    let r = match f {
        Field::Title => vec!['t', 'i', 't', 'l', 'e'],
        Field::Date => vec!['d', 'a', 't', 'e'],
        Field::Author => vec!['a', 'u', 't', 'h', 'o', 'r'],
        Field::SnippetId => vec!['s', 'n', 'i', 'p', 'p', 'e', 't', '_', 'i', 'd'],
        Field::GithubUrl => vec!['g', 'i', 't', 'h', 'u', 'b', '_', 'u', 'r', 'l'],
        Field::DemoUrl => vec!['d', 'e', 'm', 'o', '_', 'u', 'r', 'l'],
        Field::Tags => vec!['t', 'a', 'g', 's'],
    };
    assert(r@ =~= field_key(f));
    r
}

pub fn field_for_key(key: &Vec<char>) -> (r: Option<Field>)
    ensures
        r == field_of(key@),
{
    if same_chars(key, &key_chars(Field::Title)) {
        Some(Field::Title)
    } else if same_chars(key, &key_chars(Field::Date)) {
        Some(Field::Date)
    } else if same_chars(key, &key_chars(Field::Author)) {
        Some(Field::Author)
    } else if same_chars(key, &key_chars(Field::SnippetId)) {
        Some(Field::SnippetId)
    } else if same_chars(key, &key_chars(Field::GithubUrl)) {
        Some(Field::GithubUrl)
    } else if same_chars(key, &key_chars(Field::DemoUrl)) {
        Some(Field::DemoUrl)
    } else if same_chars(key, &key_chars(Field::Tags)) {
        Some(Field::Tags)
    } else {
        None
    }
}

/// The items of a `tags` value: one enclosing bracket stripped at each end,
/// split at commas, each item trimmed and unquoted.
pub open spec fn tag_items(value: Seq<char>) -> Seq<Seq<char>> {
    split(unbracket(value), ',').map_values(|t: Seq<char>| unquote(trim(t)))
}

/// `fm` with the scalar field `f` set to `v`.
pub open spec fn with_scalar(fm: FrontMatterView, f: Field, v: Seq<char>) -> FrontMatterView {
    match f {
        Field::Title => FrontMatterView { title: v, ..fm },
        Field::Date => FrontMatterView { date: v, ..fm },
        Field::Author => FrontMatterView { author: v, ..fm },
        Field::SnippetId => FrontMatterView { snippet_id: v, ..fm },
        Field::GithubUrl => FrontMatterView { github_url: v, ..fm },
        Field::DemoUrl => FrontMatterView { demo_url: v, ..fm },
        Field::Tags => fm,
    }
}

/// The key of a line: what stands before its first colon, trimmed.
pub open spec fn line_key(line: Seq<char>) -> Seq<char> {
    trim(line.subrange(0, find_from(line, ':', 0)))
}

/// The value of a line: what follows its first colon, trimmed.
pub open spec fn line_value(line: Seq<char>) -> Seq<char> {
    trim(line.subrange(find_from(line, ':', 0) + 1, line.len() as int))
}

/// What one header line does to the fields read so far. A line without a
/// colon, or with a key that names no field, changes nothing.
pub open spec fn apply_line(fm: FrontMatterView, line: Seq<char>) -> FrontMatterView {
    if find_from(line, ':', 0) < 0 {
        fm
    } else {
        match field_of(line_key(line)) {
            None => fm,
            Some(Field::Tags) => FrontMatterView { tags: tag_items(line_value(line)), ..fm },
            Some(f) => with_scalar(fm, f, unquote(line_value(line))),
        }
    }
}

/// The fields after reading `ls` in order, from all-empty ones.
pub open spec fn fold_fields(ls: Seq<Seq<char>>) -> FrontMatterView
    decreases ls.len(),
{
    if ls.len() == 0 {
        empty_frontmatter()
    } else {
        apply_line(fold_fields(ls.drop_last()), ls.last())
    }
}

/// The fields that the header text `buf` sets.
pub open spec fn frontmatter_of(buf: Seq<char>) -> FrontMatterView {
    fold_fields(lines(buf))
}

fn read_tags(value: &Vec<char>) -> (r: Vec<String>)
    ensures
        string_views(r@) == tag_items(value@),
{
    let inner = unbracketed(value);
    let pieces = split_chars(&inner, ',');
    let ghost items = tag_items(value@);
    let mut r: Vec<String> = Vec::new();
    let mut i: usize = 0;
    while i < pieces.len()
        invariant
            i <= pieces@.len(),
            items.len() == pieces@.len(),
            items == views(pieces@).map_values(|t: Seq<char>| unquote(trim(t))),
            string_views(r@) == items.take(i as int),
        decreases pieces@.len() - i,
    {
        let t = trimmed(&pieces[i]);
        let u = unquoted(&t);
        let ghost before = string_views(r@);
        r.push(to_string(&u));
        assert(string_views(r@) =~= before.push(u@));
        i = i + 1;
        assert(string_views(r@) =~= items.take(i as int));
    }
    assert(string_views(r@) =~= items);
    r
}

fn set_scalar(fm: &mut FrontMatter, f: Field, v: String)
    requires
        f != Field::Tags,
    ensures
        final(fm)@ == with_scalar(old(fm)@, f, v@),
{
    match f {
        Field::Title => fm.title = v,
        Field::Date => fm.date = v,
        Field::Author => fm.author = v,
        Field::SnippetId => fm.snippet_id = v,
        Field::GithubUrl => fm.github_url = v,
        Field::DemoUrl => fm.demo_url = v,
        Field::Tags => {},
    }
}

/// Applies one header line to `fm`.
pub fn read_line(fm: &mut FrontMatter, line: &Vec<char>)
    ensures
        final(fm)@ == apply_line(old(fm)@, line@),
{
    match find_char(line, ':') {
        None => {},
        Some(k) => {
            assert(k < line.len());
            let key = trimmed(&slice_chars(line, 0, k));
            let value = trimmed(&slice_chars(line, k + 1, line.len()));
            match field_for_key(&key) {
                None => {},
                Some(Field::Tags) => {
                    fm.tags = read_tags(&value);
                },
                Some(f) => {
                    let v = unquoted(&value);
                    set_scalar(fm, f, to_string(&v));
                },
            }
        },
    }
}

/// The fields that the header text `buf` sets.
pub fn read_frontmatter(buf: &Vec<char>) -> (r: FrontMatter)
    ensures
        r@ == frontmatter_of(buf@),
{
    let ls = split_lines(buf);
    let mut fm = FrontMatter::empty();
    let mut i: usize = 0;
    while i < ls.len()
        invariant
            i <= ls@.len(),
            views(ls@) == lines(buf@),
            fm@ == fold_fields(views(ls@).take(i as int)),
        decreases ls@.len() - i,
    {
        let ghost prefix = views(ls@).take(i as int + 1);
        assert(prefix.drop_last() =~= views(ls@).take(i as int));
        read_line(&mut fm, &ls[i]);
        i = i + 1;
    }
    assert(views(ls@).take(i as int) =~= views(ls@));
    fm
}

} // verus!
