//! A parser for a small reStructuredText dialect: a `---` delimited
//! front-matter header of `key: value` lines, then a body of prose in which
//! `.. snippet-card:: <id>` directives stand.
use vstd::prelude::*;

pub mod text;
pub mod frontmatter;
pub mod scan;
pub mod document;
pub mod laws;

verus! {

pub open spec fn string_views(v: Seq<String>) -> Seq<Seq<char>> {
    v.map_values(|x: String| x@)
}

/// The metadata of a document.
#[derive(Debug, Clone, PartialEq, Eq)]
pub struct FrontMatter {
    pub title: String,
    pub date: String,
    pub tags: Vec<String>,
    pub author: String,
    pub snippet_id: String,
    pub github_url: String,
    pub demo_url: String,
}

pub struct FrontMatterView {
    pub title: Seq<char>,
    pub date: Seq<char>,
    pub tags: Seq<Seq<char>>,
    pub author: Seq<char>,
    pub snippet_id: Seq<char>,
    pub github_url: Seq<char>,
    pub demo_url: Seq<char>,
}

impl View for FrontMatter {
    type V = FrontMatterView;

    open spec fn view(&self) -> FrontMatterView {
        FrontMatterView {
            title: self.title@,
            date: self.date@,
            tags: string_views(self.tags@),
            author: self.author@,
            snippet_id: self.snippet_id@,
            github_url: self.github_url@,
            demo_url: self.demo_url@,
        }
    }
}

/// Every field empty.
pub open spec fn empty_frontmatter() -> FrontMatterView {
    FrontMatterView {
        title: seq![],
        date: seq![],
        tags: seq![],
        author: seq![],
        snippet_id: seq![],
        github_url: seq![],
        demo_url: seq![],
    }
}

impl FrontMatter {
    pub fn empty() -> (r: FrontMatter)
        ensures
            r@ == empty_frontmatter(),
    {
        let r = FrontMatter {
            title: String::new(),
            date: String::new(),
            tags: Vec::new(),
            author: String::new(),
            snippet_id: String::new(),
            github_url: String::new(),
            demo_url: String::new(),
        };
        assert(r@.tags =~= seq![]);
        r
    }
}

/// One block of a document body: prose (`text`) or a directive reference
/// (`<directive>-ref`, holding the directive's argument).
#[derive(Debug, Clone, PartialEq, Eq)]
pub struct ContentBlock {
    pub block_type: String,
    pub content: String,
    /// Reserved; always empty.
    pub id: String,
}

pub struct BlockView {
    pub block_type: Seq<char>,
    pub content: Seq<char>,
    pub id: Seq<char>,
}

impl View for ContentBlock {
    type V = BlockView;

    open spec fn view(&self) -> BlockView {
        BlockView { block_type: self.block_type@, content: self.content@, id: self.id@ }
    }
}

/// A parsed document: its front matter, its blocks in document order, and
/// the arguments of its directives in the order met.
#[derive(Debug, Clone, PartialEq, Eq)]
pub struct ParsedDocument {
    pub frontmatter: FrontMatter,
    pub content: Vec<ContentBlock>,
    pub snippet_refs: Vec<String>,
}

pub struct DocView {
    pub frontmatter: FrontMatterView,
    pub content: Seq<BlockView>,
    pub snippet_refs: Seq<Seq<char>>,
}

impl View for ParsedDocument {
    type V = DocView;

    open spec fn view(&self) -> DocView {
        DocView {
            frontmatter: self.frontmatter@,
            content: self.content@.map_values(|b: ContentBlock| b@),
            snippet_refs: string_views(self.snippet_refs@),
        }
    }
}

/// The parser. It holds no state: each call stands alone.
#[derive(Debug, Clone, Copy)]
pub struct RstParser {}

impl RstParser {
    pub fn new() -> (r: RstParser)
        ensures
            r == (RstParser {  }),
    {
        RstParser {  }
    }

    /// Parses a whole document: its front matter, its blocks and the
    /// arguments of its directives. Every text gives a result.
    pub fn parse(&self, rst_content: &str) -> (r: ParsedDocument)
        ensures
            r@ == document::document_of(rst_content@),
    {
        self.parse_rst(rst_content)
    }

    pub fn parse_rst(&self, content: &str) -> (r: ParsedDocument)
        ensures
            r@ == document::document_of(content@),
    {
        document::parse_document(&text::chars_of(content))
    }

    /// Reads the fields of a header's text, without its delimiters.
    pub fn parse_frontmatter(&self, frontmatter_str: &str) -> (r: FrontMatter)
        ensures
            r@ == frontmatter::frontmatter_of(frontmatter_str@),
    {
        frontmatter::read_frontmatter(&text::chars_of(frontmatter_str))
    }
}

} // verus!
