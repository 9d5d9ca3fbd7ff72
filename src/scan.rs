//! The line-by-line scan of a document body: prose is gathered into text
//! blocks, and each directive gives a reference block and, for its indented
//! body, a text block of its own.
use vstd::prelude::*;

use crate::text::{
    blank, has_prefix, is_blank, slice_chars, starts_with, to_string, trim, trimmed,
};
use crate::{string_views, BlockView, ContentBlock};

verus! {

/// The directives that the scan recognises.
#[derive(Clone, Copy, Debug, PartialEq, Eq)]
pub enum DirectiveKind {
    SnippetCard,
}

pub open spec fn directive_name(k: DirectiveKind) -> Seq<char> {
    match k {
        DirectiveKind::SnippetCard => seq![
            's', 'n', 'i', 'p', 'p', 'e', 't', '-', 'c', 'a', 'r', 'd',
        ],
    }
}

/// `.. <name>::`, which opens a directive at the start of a line.
pub open spec fn directive_prefix(k: DirectiveKind) -> Seq<char> {
    seq!['.', '.', ' '] + directive_name(k) + seq![':', ':']
}

/// `<name>-ref`, the type of a directive's reference block.
pub open spec fn ref_type(k: DirectiveKind) -> Seq<char> {
    directive_name(k) + seq!['-', 'r', 'e', 'f']
}

pub open spec fn text_type() -> Seq<char> {
    seq!['t', 'e', 'x', 't']
}

/// Three spaces: a line that starts so continues a directive.
pub open spec fn indent() -> Seq<char> {
    seq![' ', ' ', ' ']
}

/// The directive that `line` opens, if any.
pub open spec fn directive_of(line: Seq<char>) -> Option<DirectiveKind> {
    if has_prefix(line, directive_prefix(DirectiveKind::SnippetCard)) {
        Some(DirectiveKind::SnippetCard)
    } else {
        None
    }
}

/// The argument of a directive line: what follows its prefix, trimmed.
pub open spec fn directive_arg(k: DirectiveKind, line: Seq<char>) -> Seq<char> {
    trim(line.subrange(directive_prefix(k).len() as int, line.len() as int))
}

/// Whether a line inside a directive belongs to its body.
pub open spec fn continues(line: Seq<char>) -> bool {
    has_prefix(line, indent()) || is_blank(line)
}

pub open spec fn block(t: Seq<char>, c: Seq<char>) -> BlockView {
    BlockView { block_type: t, content: c, id: seq![] }
}

/// `blocks`, then a text block of `t` trimmed unless `t` is blank.
pub open spec fn flush(blocks: Seq<BlockView>, t: Seq<char>) -> Seq<BlockView> {
    if is_blank(t) {
        blocks
    } else {
        blocks.push(block(text_type(), trim(t)))
    }
}

/// Whether the scan stands outside any directive or inside one.
#[derive(Clone, Copy, Debug, PartialEq, Eq)]
pub enum Mode {
    Outside,
    Inside(DirectiveKind),
}

pub struct ScanState {
    /// Prose gathered since the last block.
    pub text: Seq<char>,
    pub mode: Mode,
    /// The body of the open directive.
    pub body: Seq<char>,
    pub blocks: Seq<BlockView>,
    pub refs: Seq<Seq<char>>,
}

pub open spec fn initial_state() -> ScanState {
    ScanState { text: seq![], mode: Mode::Outside, body: seq![], blocks: seq![], refs: seq![] }
}

/// One line of the scan. A directive line comes first, inside a directive
/// or not: it flushes pending prose, records its argument and opens the
/// directive. Inside a directive, an indented or blank line joins its body;
/// any other line closes it, giving the reference block and the body's text
/// block, and starts new prose.
pub open spec fn step(st: ScanState, line: Seq<char>) -> ScanState {
    match directive_of(line) {
        Some(k) => ScanState {
            text: seq![],
            mode: Mode::Inside(k),
            body: seq![],
            blocks: flush(st.blocks, st.text),
            refs: st.refs.push(directive_arg(k, line)),
        },
        None => match st.mode {
            Mode::Inside(k) => if continues(line) {
                ScanState { body: st.body + line.push('\n'), ..st }
            } else {
                ScanState {
                    text: line.push('\n'),
                    mode: Mode::Outside,
                    body: seq![],
                    blocks: flush(st.blocks.push(block(ref_type(k), st.refs.last())), st.body),
                    refs: st.refs,
                }
            },
            Mode::Outside => ScanState { text: st.text + line.push('\n'), ..st },
        },
    }
}

pub open spec fn scan(ls: Seq<Seq<char>>) -> ScanState
    decreases ls.len(),
{
    if ls.len() == 0 {
        initial_state()
    } else {
        step(scan(ls.drop_last()), ls.last())
    }
}

/// The blocks of a body: those of the scan, then the pending prose. A
/// directive still open at the end gives no block.
pub open spec fn body_blocks(ls: Seq<Seq<char>>) -> Seq<BlockView> {
    flush(scan(ls).blocks, scan(ls).text)
}

/// The arguments of the directives of a body, in order.
pub open spec fn body_refs(ls: Seq<Seq<char>>) -> Seq<Seq<char>> {
    scan(ls).refs
}

pub proof fn lemma_inside_has_ref(ls: Seq<Seq<char>>)
    ensures
        scan(ls).mode is Inside ==> scan(ls).refs.len() > 0,
    decreases ls.len(),
{
    if ls.len() > 0 {
        lemma_inside_has_ref(ls.drop_last());
    }
}

fn name_chars(k: DirectiveKind) -> (r: Vec<char>)
    ensures
        r@ == directive_name(k),
{
    let r = match k {
        DirectiveKind::SnippetCard => vec![
            's', 'n', 'i', 'p', 'p', 'e', 't', '-', 'c', 'a', 'r', 'd',
        ],
    };
    assert(r@ =~= directive_name(k));
    r
}

fn prefix_chars(k: DirectiveKind) -> (r: Vec<char>)
    ensures
        r@ == directive_prefix(k),
{
    let mut r = vec!['.', '.', ' '];
    let name = name_chars(k);
    let mut i: usize = 0;
    while i < name.len()
        invariant
            i <= name@.len(),
            name@ == directive_name(k),
            r@ == seq!['.', '.', ' '] + name@.take(i as int),
        decreases name@.len() - i,
    {
        r.push(name[i]);
        i = i + 1;
        assert(r@ =~= seq!['.', '.', ' '] + name@.take(i as int));
    }
    r.push(':');
    r.push(':');
    assert(r@ =~= directive_prefix(k));
    r
}

fn ref_type_string(k: DirectiveKind) -> (r: String)
    ensures
        r@ == ref_type(k),
{
    let mut v = name_chars(k);
    v.push('-');
    v.push('r');
    v.push('e');
    v.push('f');
    assert(v@ =~= ref_type(k));
    to_string(&v)
}

fn text_type_string() -> (r: String)
    ensures
        r@ == text_type(),
{
    let v = vec!['t', 'e', 'x', 't'];
    assert(v@ =~= text_type());
    to_string(&v)
}

pub fn directive_at(line: &Vec<char>) -> (r: Option<DirectiveKind>)
    ensures
        r == directive_of(line@),
{
    if starts_with(line, &prefix_chars(DirectiveKind::SnippetCard)) {
        Some(DirectiveKind::SnippetCard)
    } else {
        None
    }
}

fn push_text_block(blocks: &mut Vec<ContentBlock>, t: &Vec<char>)
    ensures
        final(blocks)@.map_values(|b: ContentBlock| b@) == flush(
            old(blocks)@.map_values(|b: ContentBlock| b@),
            t@,
        ),
{
    if !blank(t) {
        let c = trimmed(t);
        let b = ContentBlock { block_type: text_type_string(), content: to_string(&c), id: String::new() };
        let ghost before = old(blocks)@.map_values(|b: ContentBlock| b@);
        blocks.push(b);
        assert(blocks@.map_values(|b: ContentBlock| b@) =~= before.push(b@));
    }
}

pub fn push_line(acc: &mut Vec<char>, line: &Vec<char>)
    ensures
        final(acc)@ == old(acc)@ + line@.push('\n'),
{
    let mut i: usize = 0;
    while i < line.len()
        invariant
            i <= line@.len(),
            acc@ == old(acc)@ + line@.take(i as int),
        decreases line@.len() - i,
    {
        acc.push(line[i]);
        i = i + 1;
        assert(acc@ =~= old(acc)@ + line@.take(i as int));
    }
    acc.push('\n');
    assert(acc@ =~= old(acc)@ + line@.push('\n'));
}

/// The blocks and directive arguments of the body `ls`.
pub fn scan_body(ls: &Vec<Vec<char>>) -> (r: (Vec<ContentBlock>, Vec<String>))
    ensures
        r.0@.map_values(|b: ContentBlock| b@) == body_blocks(crate::text::views(ls@)),
        string_views(r.1@) == body_refs(crate::text::views(ls@)),
{
    let ghost vls = crate::text::views(ls@);
    let mut text: Vec<char> = Vec::new();
    let mut mode = Mode::Outside;
    let mut body: Vec<char> = Vec::new();
    let mut blocks: Vec<ContentBlock> = Vec::new();
    let mut refs: Vec<String> = Vec::new();
    let mut i: usize = 0;
    assert(blocks@.map_values(|b: ContentBlock| b@) =~= seq![]);
    assert(string_views(refs@) =~= seq![]);
    while i < ls.len()
        invariant
            i <= ls@.len(),
            vls == crate::text::views(ls@),
            scan(vls.take(i as int)) == (ScanState {
                text: text@,
                mode,
                body: body@,
                blocks: blocks@.map_values(|b: ContentBlock| b@),
                refs: string_views(refs@),
            }),
        decreases ls@.len() - i,
    {
        let line = &ls[i];
        let ghost st = scan(vls.take(i as int));
        assert(vls.take(i as int + 1).drop_last() =~= vls.take(i as int));
        assert(vls.take(i as int + 1).last() == line@);
        proof {
            lemma_inside_has_ref(vls.take(i as int));
        }
        match directive_at(line) {
            Some(k) => {
                push_text_block(&mut blocks, &text);
                text = Vec::new();
                body = Vec::new();
                mode = Mode::Inside(k);
                let p = prefix_chars(k);
                let arg = trimmed(&slice_chars(line, p.len(), line.len()));
                let ghost before = string_views(refs@);
                refs.push(to_string(&arg));
                assert(string_views(refs@) =~= before.push(arg@));
            },
            None => match mode {
                Mode::Inside(k) => {
                    if starts_with(line, &vec![' ', ' ', ' ']) || blank(line) {
                        assert(seq![' ', ' ', ' '] =~= indent());
                        push_line(&mut body, line);
                    } else {
                        assert(seq![' ', ' ', ' '] =~= indent());
                        let id = refs[refs.len() - 1].clone();
                        let b = ContentBlock { block_type: ref_type_string(k), content: id, id: String::new() };
                        let ghost before = blocks@.map_values(|b: ContentBlock| b@);
                        blocks.push(b);
                        assert(blocks@.map_values(|b: ContentBlock| b@) =~= before.push(b@));
                        push_text_block(&mut blocks, &body);
                        body = Vec::new();
                        mode = Mode::Outside;
                        text = Vec::new();
                        push_line(&mut text, line);
                        assert(text@ =~= line@.push('\n'));
                    }
                },
                Mode::Outside => {
                    push_line(&mut text, line);
                },
            },
        }
        i = i + 1;
        assert(scan(vls.take(i as int)).text =~= text@);
        assert(scan(vls.take(i as int)).body =~= body@);
    }
    assert(vls.take(i as int) =~= vls);
    push_text_block(&mut blocks, &text);
    (blocks, refs)
}

} // verus!
