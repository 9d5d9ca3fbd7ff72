//! Properties of the parser as a whole.
use vstd::prelude::*;

use crate::document::{
    body_lines, close_at, document_of, find_delim, header_text, is_delim, open_at,
};
use crate::frontmatter::{
    apply_line, field_key, field_of, fold_fields, frontmatter_of, line_key, line_value, tag_items,
    with_scalar, Field,
};
use crate::scan::{
    body_blocks, body_refs, directive_arg, directive_of, flush, scan, Mode, ScanState,
};
use crate::text::{
    find_from, is_plain_line, is_ws, join_by, join_lines, lemma_find_from_at,
    lemma_join_excludes, lemma_lines_join, lemma_split_join, lemma_trim_lead,
    lemma_lines_no_newline, lemma_trim_noop, lemma_trim_within, lemma_unbracket_bracketed, lemma_unquote_quoted, lines, trim,
};
use crate::{empty_frontmatter, FrontMatterView};

verus! {

/// How many of the lines `ls` open a directive.
pub open spec fn count_directives(ls: Seq<Seq<char>>) -> nat
    decreases ls.len(),
{
    if ls.len() == 0 {
        0
    } else {
        count_directives(ls.drop_last()) + if directive_of(ls.last()) is Some {
            1nat
        } else {
            0nat
        }
    }
}

proof fn lemma_no_delim_from(ls: Seq<Seq<char>>, i: int)
    requires
        0 <= i,
        forall|j: int| 0 <= j < ls.len() ==> !is_delim(#[trigger] ls[j]),
    ensures
        find_delim(ls, i) == -1,
    decreases ls.len() - i,
{
    if i < ls.len() {
        lemma_no_delim_from(ls, i + 1);
    }
}

/// A document none of whose lines is a `---` delimiter has empty front
/// matter, and all of its lines are body.
pub proof fn lemma_no_header(s: Seq<char>)
    requires
        forall|j: int| 0 <= j < lines(s).len() ==> !is_delim(#[trigger] lines(s)[j]),
    ensures
        document_of(s).frontmatter == empty_frontmatter(),
        body_lines(lines(s)) == lines(s),
        document_of(s).content == body_blocks(lines(s)),
        document_of(s).snippet_refs == body_refs(lines(s)),
{
    let ls = lines(s);
    lemma_no_delim_from(ls, 0);
    assert(body_lines(ls) =~= ls);
    assert(lines(seq![]) =~= seq![]);
    assert(frontmatter_of(seq![]) == empty_frontmatter());
}

/// Inside a directive no prose is pending.
pub proof fn lemma_inside_no_text(ls: Seq<Seq<char>>)
    ensures
        scan(ls).mode is Inside ==> scan(ls).text == Seq::<char>::empty(),
    decreases ls.len(),
{
    if ls.len() > 0 {
        lemma_inside_no_text(ls.drop_last());
    }
}

/// A directive line met inside another directive opens the new directive
/// rather than joining the open one's body: its argument is recorded, the
/// open directive's body is dropped, and no block is added.
pub proof fn lemma_directive_line_first(ls: Seq<Seq<char>>, line: Seq<char>)
    requires
        directive_of(line) is Some,
        scan(ls).mode is Inside,
    ensures
        scan(ls.push(line)) == (ScanState {
            text: seq![],
            mode: Mode::Inside(directive_of(line)->0),
            body: seq![],
            blocks: scan(ls).blocks,
            refs: scan(ls).refs.push(directive_arg(directive_of(line)->0, line)),
        }),
{
    lemma_inside_no_text(ls);
    assert(ls.push(line).drop_last() =~= ls);
    crate::text::lemma_trim_empty();
}

/// A directive line, wherever it stands, joins neither the pending prose
/// nor a directive body: it flushes the prose, records its argument and
/// opens the new directive with an empty body.
pub proof fn lemma_directive_line_opens(ls: Seq<Seq<char>>, line: Seq<char>)
    requires
        directive_of(line) is Some,
    ensures
        scan(ls.push(line)) == (ScanState {
            text: seq![],
            mode: Mode::Inside(directive_of(line)->0),
            body: seq![],
            blocks: flush(scan(ls).blocks, scan(ls).text),
            refs: scan(ls).refs.push(directive_arg(directive_of(line)->0, line)),
        }),
{
    assert(ls.push(line).drop_last() =~= ls);
}

/// Each directive line of the body adds one argument to the refs, whether or
/// not the directive is ever closed.
pub proof fn lemma_refs_count(ls: Seq<Seq<char>>)
    ensures
        body_refs(ls).len() == count_directives(ls),
    decreases ls.len(),
{
    if ls.len() > 0 {
        lemma_refs_count(ls.drop_last());
    }
}

/// A directive on the last line of the body adds its argument to the refs
/// but no block: an unclosed directive gives no reference block.
pub proof fn lemma_trailing_directive(ls: Seq<Seq<char>>, line: Seq<char>)
    requires
        directive_of(line) is Some,
    ensures
        body_refs(ls.push(line)) == body_refs(ls).push(directive_arg(directive_of(line)->0, line)),
        body_blocks(ls.push(line)) == body_blocks(ls),
{
    assert(ls.push(line).drop_last() =~= ls);
    crate::text::lemma_trim_empty();
}

/// The number of refs of a document is the number of directive lines in
/// its body.
pub proof fn lemma_document_refs_count(s: Seq<char>)
    ensures
        document_of(s).snippet_refs.len() == count_directives(body_lines(lines(s))),
{
    lemma_refs_count(body_lines(lines(s)));
}

/// The result depends on the text alone: equal texts give equal documents.
pub proof fn lemma_parse_deterministic(a: Seq<char>, b: Seq<char>)
    requires
        a == b,
    ensures
        document_of(a) == document_of(b),
{
}

pub open spec fn quoted(v: Seq<char>) -> Seq<char> {
    seq!['"'] + v + seq!['"']
}

/// `<key>: "<value>"`.
pub open spec fn scalar_line(f: Field, v: Seq<char>) -> Seq<char> {
    field_key(f) + seq![':', ' '] + quoted(v)
}

/// `tags: ["<tag>","<tag>",...]`.
pub open spec fn tags_line(ts: Seq<Seq<char>>) -> Seq<char> {
    field_key(Field::Tags) + seq![':', ' ', '['] + join_by(ts.map_values(|t: Seq<char>| quoted(t)), ',')
        + seq![']']
}

/// The header lines that write `fm` out: one per scalar field, and a
/// `tags` line when there are tags.
pub open spec fn header_lines(fm: FrontMatterView) -> Seq<Seq<char>> {
    seq![
        scalar_line(Field::Title, fm.title),
        scalar_line(Field::Date, fm.date),
        scalar_line(Field::Author, fm.author),
        scalar_line(Field::SnippetId, fm.snippet_id),
        scalar_line(Field::GithubUrl, fm.github_url),
        scalar_line(Field::DemoUrl, fm.demo_url),
    ] + if fm.tags.len() > 0 {
        seq![tags_line(fm.tags)]
    } else {
        seq![]
    }
}

/// The header text that writes `fm` out.
pub open spec fn render_frontmatter(fm: FrontMatterView) -> Seq<char> {
    join_lines(header_lines(fm))
}

/// A value that survives quoting: one line.
pub open spec fn plain_value(v: Seq<char>) -> bool {
    forall|m: int| 0 <= m < v.len() ==> v[m] != '\n'
}

/// A tag that survives the list syntax: a plain value without commas.
pub open spec fn plain_tag(t: Seq<char>) -> bool {
    plain_value(t) && forall|m: int| 0 <= m < t.len() ==> t[m] != ','
}

pub open spec fn renderable(fm: FrontMatterView) -> bool {
    &&& plain_value(fm.title)
    &&& plain_value(fm.date)
    &&& plain_value(fm.author)
    &&& plain_value(fm.snippet_id)
    &&& plain_value(fm.github_url)
    &&& plain_value(fm.demo_url)
    &&& forall|i: int| 0 <= i < fm.tags.len() ==> plain_tag(#[trigger] fm.tags[i])
}

proof fn lemma_field_key_facts(f: Field)
    ensures
        field_of(field_key(f)) == Some(f),
        field_key(f).len() > 0,
        !is_ws(field_key(f)[0]),
        !is_ws(field_key(f).last()),
        field_key(f)[0] != '-',
        forall|m: int| 0 <= m < field_key(f).len() ==> field_key(f)[m] != ':' && field_key(f)[m]
            != '\n',
{
    assert(field_key(Field::Title)[1] != field_key(Field::Tags)[1]);
    assert(field_key(Field::Date)[0] != field_key(Field::Tags)[0]);
    assert(field_key(Field::SnippetId)[0] != field_key(Field::GithubUrl)[0]);
    assert(field_key(Field::Date)[1] != field_key(Field::DemoUrl)[1]);
    assert(field_key(Field::Title) != field_key(Field::Date));
    assert(field_key(Field::Title) != field_key(Field::Author));
    assert(field_key(Field::Title) != field_key(Field::SnippetId));
    assert(field_key(Field::Title) != field_key(Field::GithubUrl));
    assert(field_key(Field::Title) != field_key(Field::DemoUrl));
    assert(field_key(Field::Title) != field_key(Field::Tags));
    assert(field_key(Field::Date) != field_key(Field::Author));
    assert(field_key(Field::Date) != field_key(Field::SnippetId));
    assert(field_key(Field::Date) != field_key(Field::GithubUrl));
    assert(field_key(Field::Date) != field_key(Field::DemoUrl));
    assert(field_key(Field::Date) != field_key(Field::Tags));
    assert(field_key(Field::Author) != field_key(Field::SnippetId));
    assert(field_key(Field::Author) != field_key(Field::GithubUrl));
    assert(field_key(Field::Author) != field_key(Field::DemoUrl));
    assert(field_key(Field::Author) != field_key(Field::Tags));
    assert(field_key(Field::SnippetId) != field_key(Field::GithubUrl));
    assert(field_key(Field::SnippetId) != field_key(Field::DemoUrl));
    assert(field_key(Field::SnippetId) != field_key(Field::Tags));
    assert(field_key(Field::GithubUrl) != field_key(Field::DemoUrl));
    assert(field_key(Field::GithubUrl) != field_key(Field::Tags));
    assert(field_key(Field::DemoUrl) != field_key(Field::Tags));
}

proof fn lemma_scalar_line(acc: FrontMatterView, f: Field, v: Seq<char>)
    requires
        f != Field::Tags,
        plain_value(v),
    ensures
        apply_line(acc, scalar_line(f, v)) == with_scalar(acc, f, v),
        is_plain_line(scalar_line(f, v)),
{
    let key = field_key(f);
    let l = scalar_line(f, v);
    let n = key.len() as int;
    lemma_field_key_facts(f);
    assert(l[n] == ':');
    assert forall|m: int| 0 <= m < n implies l[m] != ':' by {
        assert(l[m] == key[m]);
    }
    lemma_find_from_at(l, ':', 0, n);
    assert(l.subrange(0, n) =~= key);
    lemma_trim_noop(key);
    assert(line_key(l) == key);
    let q = quoted(v);
    assert(q[0] == '"');
    assert(q.last() == '"');
    assert(l.subrange(n + 1, l.len() as int) =~= seq![' '] + q);
    lemma_trim_lead(' ', q);
    assert(line_value(l) == q);
    lemma_unquote_quoted(v);
    assert forall|m: int| 0 <= m < l.len() implies l[m] != '\n' by {
        if m < n {
            assert(l[m] == key[m]);
        } else if n + 3 <= m < n + 3 + v.len() {
            assert(l[m] == v[m - n - 3]);
        }
    }
    assert(l.last() == '"');
}

proof fn lemma_tags_line(acc: FrontMatterView, ts: Seq<Seq<char>>)
    requires
        ts.len() > 0,
        forall|i: int| 0 <= i < ts.len() ==> plain_tag(#[trigger] ts[i]),
    ensures
        apply_line(acc, tags_line(ts)) == (FrontMatterView { tags: ts, ..acc }),
        is_plain_line(tags_line(ts)),
{
    let key = field_key(Field::Tags);
    let ps = ts.map_values(|t: Seq<char>| quoted(t));
    let j = join_by(ps, ',');
    let l = tags_line(ts);
    let n = key.len() as int;
    lemma_field_key_facts(Field::Tags);
    assert(l[n] == ':');
    assert forall|m: int| 0 <= m < n implies l[m] != ':' by {
        assert(l[m] == key[m]);
    }
    lemma_find_from_at(l, ':', 0, n);
    assert(l.subrange(0, n) =~= key);
    lemma_trim_noop(key);
    assert(line_key(l) == key);
    assert forall|i: int, m: int| 0 <= i < ps.len() && 0 <= m < ps[i].len() implies ps[i][m] != ','
        && ps[i][m] != '\n' by {
        assert(ps[i] == quoted(ts[i]));
        assert(plain_tag(ts[i]));
        if 1 <= m < ps[i].len() - 1 {
            assert(ps[i][m] == ts[i][m - 1]);
        }
    }
    lemma_join_excludes(ps, ',', '\n');
    let b = seq!['['] + j + seq![']'];
    assert(l.subrange(n + 1, l.len() as int) =~= seq![' '] + b);
    assert(b[0] == '[');
    assert(b.last() == ']');
    lemma_trim_lead(' ', b);
    assert(line_value(l) == b);
    lemma_unbracket_bracketed(j);
    lemma_split_join(ps, ',');
    let items = tag_items(b);
    assert forall|i: int| 0 <= i < ts.len() implies items[i] == ts[i] by {
        lemma_trim_noop(quoted(ts[i]));
        lemma_unquote_quoted(ts[i]);
    }
    assert(items =~= ts);
    assert forall|m: int| 0 <= m < l.len() implies l[m] != '\n' by {
        if m < n {
            assert(l[m] == key[m]);
        } else if n + 3 <= m < n + 3 + j.len() {
            assert(l[m] == j[m - n - 3]);
        }
    }
}

proof fn lemma_fold_push(ls: Seq<Seq<char>>, l: Seq<char>)
    ensures
        fold_fields(ls.push(l)) == apply_line(fold_fields(ls), l),
{
    assert(ls.push(l).drop_last() =~= ls);
}

/// Writing front matter out as a header and reading it back gives the same
/// fields, for values that the header syntax can carry: one line each, and
/// tags without commas.
pub proof fn lemma_frontmatter_round_trip(fm: FrontMatterView)
    requires
        renderable(fm),
    ensures
        frontmatter_of(render_frontmatter(fm)) == fm,
{
    let e = empty_frontmatter();
    let a1 = with_scalar(e, Field::Title, fm.title);
    let a2 = with_scalar(a1, Field::Date, fm.date);
    let a3 = with_scalar(a2, Field::Author, fm.author);
    let a4 = with_scalar(a3, Field::SnippetId, fm.snippet_id);
    let a5 = with_scalar(a4, Field::GithubUrl, fm.github_url);
    let a6 = with_scalar(a5, Field::DemoUrl, fm.demo_url);
    let l1 = scalar_line(Field::Title, fm.title);
    let l2 = scalar_line(Field::Date, fm.date);
    let l3 = scalar_line(Field::Author, fm.author);
    let l4 = scalar_line(Field::SnippetId, fm.snippet_id);
    let l5 = scalar_line(Field::GithubUrl, fm.github_url);
    let l6 = scalar_line(Field::DemoUrl, fm.demo_url);
    lemma_scalar_line(e, Field::Title, fm.title);
    lemma_scalar_line(a1, Field::Date, fm.date);
    lemma_scalar_line(a2, Field::Author, fm.author);
    lemma_scalar_line(a3, Field::SnippetId, fm.snippet_id);
    lemma_scalar_line(a4, Field::GithubUrl, fm.github_url);
    lemma_scalar_line(a5, Field::DemoUrl, fm.demo_url);
    let h0 = Seq::<Seq<char>>::empty();
    let h1 = h0.push(l1);
    let h2 = h1.push(l2);
    let h3 = h2.push(l3);
    let h4 = h3.push(l4);
    let h5 = h4.push(l5);
    let h6 = h5.push(l6);
    lemma_fold_push(h0, l1);
    lemma_fold_push(h1, l2);
    lemma_fold_push(h2, l3);
    lemma_fold_push(h3, l4);
    lemma_fold_push(h4, l5);
    lemma_fold_push(h5, l6);
    assert(fold_fields(h6) == a6);
    let hl = header_lines(fm);
    if fm.tags.len() > 0 {
        let l7 = tags_line(fm.tags);
        lemma_tags_line(a6, fm.tags);
        lemma_fold_push(h6, l7);
        assert(hl =~= h6.push(l7));
        assert forall|i: int| 0 <= i < hl.len() implies is_plain_line(#[trigger] hl[i]) by {
            if i == 6 {
                assert(hl[i] == l7);
            }
        }
        lemma_lines_join(hl);
        assert(fold_fields(hl) =~= fm);
    } else {
        assert(hl =~= h6);
        lemma_lines_join(hl);
        assert(fm.tags =~= e.tags);
        assert(fold_fields(hl) =~= fm);
    }
}

proof fn lemma_find_delim_at(ls: Seq<Seq<char>>, i: int, k: int)
    requires
        0 <= i <= k < ls.len(),
        is_delim(ls[k]),
        forall|j: int| i <= j < k ==> !is_delim(#[trigger] ls[j]),
    ensures
        find_delim(ls, i) == k,
    decreases k - i,
{
    if i < k {
        lemma_find_delim_at(ls, i + 1, k);
    }
}

pub open spec fn dashes() -> Seq<char> {
    seq!['-', '-', '-']
}

/// A document made of a rendered header between `---` lines and then the
/// lines `body`.
pub open spec fn render_document(fm: FrontMatterView, body: Seq<Seq<char>>) -> Seq<char> {
    join_lines(seq![dashes()] + header_lines(fm) + seq![dashes()] + body)
}

/// Parsing a document whose header was written from `fm` gives back `fm`,
/// and the lines after the header as its body.
pub proof fn lemma_document_round_trip(fm: FrontMatterView, body: Seq<Seq<char>>)
    requires
        renderable(fm),
        forall|i: int| 0 <= i < body.len() ==> is_plain_line(#[trigger] body[i]),
    ensures
        document_of(render_document(fm, body)).frontmatter == fm,
        body_lines(lines(render_document(fm, body))) == body,
{
    lemma_frontmatter_round_trip(fm);
    let hl = header_lines(fm);
    let n = hl.len() as int;
    let ls = seq![dashes()] + hl + seq![dashes()] + body;
    lemma_trim_noop(dashes());
    assert(is_delim(dashes()));
    assert(is_plain_line(dashes()));
    assert forall|i: int| 0 <= i < n implies is_plain_line(#[trigger] hl[i]) && !is_delim(hl[i]) by {
        let f = if i == 0 {
            Field::Title
        } else if i == 1 {
            Field::Date
        } else if i == 2 {
            Field::Author
        } else if i == 3 {
            Field::SnippetId
        } else if i == 4 {
            Field::GithubUrl
        } else if i == 5 {
            Field::DemoUrl
        } else {
            Field::Tags
        };
        lemma_field_key_facts(f);
        let l = hl[i];
        if i < 6 {
            let v = if i == 0 {
                fm.title
            } else if i == 1 {
                fm.date
            } else if i == 2 {
                fm.author
            } else if i == 3 {
                fm.snippet_id
            } else if i == 4 {
                fm.github_url
            } else {
                fm.demo_url
            };
            assert(l == scalar_line(f, v));
            lemma_scalar_line(empty_frontmatter(), f, v);
        } else {
            assert(l == tags_line(fm.tags));
            lemma_tags_line(empty_frontmatter(), fm.tags);
        }
        assert(l[0] == field_key(f)[0]);
        lemma_trim_noop(l);
        assert(trim(l)[0] != dashes()[0]);
    }
    assert forall|i: int| 0 <= i < ls.len() implies is_plain_line(#[trigger] ls[i]) by {
        if 1 <= i <= n {
            assert(ls[i] == hl[i - 1]);
        } else if i > n + 1 {
            assert(ls[i] == body[i - n - 2]);
        }
    }
    lemma_lines_join(ls);
    lemma_find_delim_at(ls, 0, 0);
    assert forall|j: int| 1 <= j < n + 1 implies !is_delim(#[trigger] ls[j]) by {
        assert(ls[j] == hl[j - 1]);
    }
    lemma_find_delim_at(ls, 1, n + 1);
    assert(open_at(ls) == 0);
    assert(close_at(ls) == n + 1);
    assert(ls.subrange(1, n + 1) =~= hl);
    assert(header_text(ls) == render_frontmatter(fm));
    assert(body_lines(ls) =~= body);
}

/// The value of the scalar field `f` of `fm`.
pub open spec fn scalar_field(fm: FrontMatterView, f: Field) -> Seq<char> {
    match f {
        Field::Title => fm.title,
        Field::Date => fm.date,
        Field::Author => fm.author,
        Field::SnippetId => fm.snippet_id,
        Field::GithubUrl => fm.github_url,
        Field::DemoUrl => fm.demo_url,
        Field::Tags => seq![],
    }
}

pub open spec fn scalars_plain(fm: FrontMatterView) -> bool {
    &&& plain_value(fm.title)
    &&& plain_value(fm.date)
    &&& plain_value(fm.author)
    &&& plain_value(fm.snippet_id)
    &&& plain_value(fm.github_url)
    &&& plain_value(fm.demo_url)
}

proof fn lemma_fold_plain(ls: Seq<Seq<char>>)
    requires
        forall|i: int| 0 <= i < ls.len() ==> plain_value(#[trigger] ls[i]),
    ensures
        scalars_plain(fold_fields(ls)),
    decreases ls.len(),
{
    if ls.len() > 0 {
        let init = ls.drop_last();
        assert forall|i: int| 0 <= i < init.len() implies plain_value(#[trigger] init[i]) by {
            assert(init[i] == ls[i]);
        }
        lemma_fold_plain(init);
        let l = ls.last();
        assert(plain_value(l));
        let k = find_from(l, ':', 0);
        if k >= 0 {
            crate::text::lemma_find_from_bounds(l, ':', 0);
            let raw = l.subrange(k + 1, l.len() as int);
            assert(plain_value(raw));
            lemma_trim_within(raw);
            let v = line_value(l);
            assert(plain_value(v));
            assert(plain_value(crate::text::unquote(v)));
        }
    }
}

/// A scalar value read from any header, written back as `key: "value"` and
/// read again, comes back the same.
pub proof fn lemma_value_round_trip(buf: Seq<char>, f: Field)
    requires
        f != Field::Tags,
    ensures
        scalar_field(
            frontmatter_of(join_lines(seq![scalar_line(f, scalar_field(frontmatter_of(buf), f))])),
            f,
        ) == scalar_field(frontmatter_of(buf), f),
{
    let ls = lines(buf);
    lemma_lines_no_newline(buf);
    assert forall|i: int| 0 <= i < ls.len() implies plain_value(#[trigger] ls[i]) by {
        assert(crate::text::one_line(ls[i]));
    }
    lemma_fold_plain(ls);
    let v = scalar_field(frontmatter_of(buf), f);
    assert(plain_value(v));
    let l = scalar_line(f, v);
    let e = empty_frontmatter();
    lemma_scalar_line(e, f, v);
    let one = seq![l];
    assert(is_plain_line(one[0]));
    lemma_lines_join(one);
    lemma_fold_push(Seq::<Seq<char>>::empty(), l);
    assert(Seq::<Seq<char>>::empty().push(l) =~= one);
}

} // verus!
