use rst_parser::text::{is_whitespace, split_chars, split_lines, trimmed, unbracketed, unquoted};
use rst_parser::{ContentBlock, FrontMatter, ParsedDocument, RstParser};

fn parse(s: &str) -> ParsedDocument {
    RstParser::new().parse(s)
}

fn block(t: &str, c: &str) -> ContentBlock {
    ContentBlock { block_type: t.to_string(), content: c.to_string(), id: String::new() }
}

fn chars(s: &str) -> Vec<char> {
    s.chars().collect()
}

fn strings(v: &[&str]) -> Vec<String> {
    v.iter().map(|s| s.to_string()).collect()
}

#[test]
fn empty_input_gives_empty_document() {
    let d = parse("");
    assert_eq!(d.frontmatter, FrontMatter::empty());
    assert!(d.content.is_empty());
    assert!(d.snippet_refs.is_empty());
}

#[test]
fn document_without_header_is_all_body() {
    let d = parse("First line\nSecond line\n\nThird");
    assert_eq!(d.frontmatter, FrontMatter::empty());
    assert_eq!(d.content, vec![block("text", "First line\nSecond line\n\nThird")]);
    assert!(d.snippet_refs.is_empty());
}

#[test]
fn header_scalar_values_are_unquoted_and_trimmed() {
    let doc = "---\ntitle: \"Hello\"\ndate:   2024-01-02  \nauthor: Ann\nsnippet_id: \"s1\"\ngithub_url: https://example.com/x\ndemo_url: \"https://example.com/d\"\n---\nBody";
    let d = parse(doc);
    assert_eq!(d.frontmatter.title, "Hello");
    assert_eq!(d.frontmatter.date, "2024-01-02");
    assert_eq!(d.frontmatter.author, "Ann");
    assert_eq!(d.frontmatter.snippet_id, "s1");
    assert_eq!(d.frontmatter.github_url, "https://example.com/x");
    assert_eq!(d.frontmatter.demo_url, "https://example.com/d");
    assert!(d.frontmatter.tags.is_empty());
    assert_eq!(d.content, vec![block("text", "Body")]);
}

#[test]
fn tags_keep_their_order() {
    let d = parse("---\ntags: [a, \"b\", c]\n---\n");
    assert_eq!(d.frontmatter.tags, strings(&["a", "b", "c"]));
    assert!(d.content.is_empty());
}

#[test]
fn tags_are_not_deduplicated() {
    let fm = RstParser::new().parse_frontmatter("tags: [x, x]\n");
    assert_eq!(fm.tags, strings(&["x", "x"]));
}

#[test]
fn empty_tag_list_gives_one_empty_tag() {
    let fm = RstParser::new().parse_frontmatter("tags: []");
    assert_eq!(fm.tags, strings(&[""]));
}

#[test]
fn last_occurrence_of_a_key_wins() {
    let fm = RstParser::new().parse_frontmatter("title: one\ntitle: two\n");
    assert_eq!(fm.title, "two");
}

#[test]
fn unknown_keys_and_lines_without_colon_are_ignored() {
    let fm = RstParser::new().parse_frontmatter("colour: red\njust text\ntitle: T: with colon\n");
    let mut expected = FrontMatter::empty();
    expected.title = "T: with colon".to_string();
    assert_eq!(fm, expected);
}

#[test]
fn directive_gives_reference_then_body_then_prose() {
    let d = parse(".. snippet-card:: abc\n   body line\nNext para");
    assert_eq!(
        d.content,
        vec![block("snippet-card-ref", "abc"), block("text", "body line"), block("text", "Next para")]
    );
    assert_eq!(d.snippet_refs, strings(&["abc"]));
}

#[test]
fn prose_before_a_directive_is_flushed() {
    let d = parse("Intro\n\n.. snippet-card:: x1\n\n   shown\n\nAfter\nmore");
    assert_eq!(
        d.content,
        vec![
            block("text", "Intro"),
            block("snippet-card-ref", "x1"),
            block("text", "shown"),
            block("text", "After\nmore"),
        ]
    );
}

#[test]
fn directive_line_inside_a_directive_opens_a_new_one() {
    let d = parse(".. snippet-card:: a\n   lost body\n.. snippet-card:: b\nText");
    assert_eq!(d.snippet_refs, strings(&["a", "b"]));
    assert_eq!(d.content, vec![block("snippet-card-ref", "b"), block("text", "Text")]);
}

#[test]
fn unterminated_trailing_directive_is_only_a_ref() {
    let d = parse("Para\n.. snippet-card:: one\nx\n.. snippet-card:: two\n   tail body\n");
    assert_eq!(d.snippet_refs, strings(&["one", "two"]));
    assert_eq!(
        d.content,
        vec![block("text", "Para"), block("snippet-card-ref", "one"), block("text", "x")]
    );
}

#[test]
fn snippet_refs_count_directive_lines() {
    let d = parse(".. snippet-card:: a\n.. snippet-card:: a\nz\n.. snippet-card::   c  \n");
    assert_eq!(d.snippet_refs, strings(&["a", "a", "c"]));
}

#[test]
fn indented_directive_prefix_is_prose() {
    let d = parse(" .. snippet-card:: a\n");
    assert!(d.snippet_refs.is_empty());
    assert_eq!(d.content, vec![block("text", ".. snippet-card:: a")]);
}

#[test]
fn parsing_twice_gives_equal_results() {
    let doc = "---\ntitle: A\ntags: [p, q]\n---\ntext\n.. snippet-card:: k\n   b\nend\n";
    let p = RstParser::new();
    assert_eq!(p.parse(doc), p.parse(doc));
    assert_eq!(p.parse(doc), p.parse_rst(doc));
}

#[test]
fn unclosed_header_runs_to_the_end() {
    let d = parse("---\ntitle: X\nmore text");
    assert_eq!(d.frontmatter.title, "X");
    assert_eq!(d.content, vec![block("text", "title: X\nmore text")]);
}

#[test]
fn lines_before_the_header_are_dropped() {
    let d = parse("lead\n---\ntitle: Y\n---\nbody");
    assert_eq!(d.frontmatter.title, "Y");
    assert_eq!(d.content, vec![block("text", "body")]);
}

#[test]
fn crlf_line_endings() {
    let d = parse("---\r\ntitle: \"W\"\r\n---\r\nOne\r\nTwo\r\n");
    assert_eq!(d.frontmatter.title, "W");
    assert_eq!(d.content, vec![block("text", "One\nTwo")]);
}

#[test]
fn whitespace_class_matches_std() {
    for c in (0u32..0x3100).filter_map(char::from_u32) {
        assert_eq!(is_whitespace(c), c.is_whitespace(), "{:?}", c);
    }
    assert!(!is_whitespace('\u{feff}'));
}

#[test]
fn line_splitting_matches_std() {
    for s in ["", "\n", "a", "a\n", "a\nb", "a\r\nb\r\n", "x\r", "\n\n", "a\r\r\n"] {
        let got: Vec<String> = split_lines(&chars(s)).iter().map(|l| l.iter().collect()).collect();
        let want: Vec<String> = s.lines().map(|l| l.to_string()).collect();
        assert_eq!(got, want, "{:?}", s);
    }
}

#[test]
fn splitting_matches_std() {
    for s in ["", ",", "a,b", "a,,b,"] {
        let got: Vec<String> = split_chars(&chars(s), ',').iter().map(|l| l.iter().collect()).collect();
        let want: Vec<String> = s.split(',').map(|l| l.to_string()).collect();
        assert_eq!(got, want, "{:?}", s);
    }
}

#[test]
fn trimming_matches_std() {
    for s in ["", "  ", " a b \t\n", "\u{3000}x\u{a0}"] {
        let got: String = trimmed(&chars(s)).iter().collect();
        assert_eq!(got, s.trim());
    }
}

#[test]
fn unquoting_strips_one_enclosing_pair() {
    let cases = [("\"a\"", "a"), ("\"\"a\"b\"\"", "\"a\"b\""), ("\"a", "\"a"), ("a\"", "a\""), ("\"", "\""), ("\"\"", "")];
    for (input, want) in cases {
        let got: String = unquoted(&chars(input)).iter().collect();
        assert_eq!(got, want, "{:?}", input);
    }
}

#[test]
fn unbracketing_strips_one_bracket_at_each_end() {
    let cases = [("[a]", "a"), ("[[a]]", "[a]"), ("[a", "a"), ("a]", "a"), ("a", "a"), ("[", ""), ("]", ""), ("[]", "")];
    for (input, want) in cases {
        let got: String = unbracketed(&chars(input)).iter().collect();
        assert_eq!(got, want, "{:?}", input);
    }
}

#[test]
fn lone_leading_quote_is_kept() {
    let fm = RstParser::new().parse_frontmatter("author: \"Ann\n");
    assert_eq!(fm.author, "\"Ann");
}

#[test]
fn doubled_quotes_lose_one_pair() {
    let fm = RstParser::new().parse_frontmatter("title: \"\"x\"\"\n");
    assert_eq!(fm.title, "\"x\"");
}

#[test]
fn nested_brackets_lose_one_pair() {
    let fm = RstParser::new().parse_frontmatter("tags: [[a]]\n");
    assert_eq!(fm.tags, strings(&["[a]"]));
}

#[test]
fn tags_without_brackets_are_split() {
    let fm = RstParser::new().parse_frontmatter("tags: b, a , \"b\"\n");
    assert_eq!(fm.tags, strings(&["b", "a", "b"]));
}

#[test]
fn header_written_out_reads_back() {
    let tags = strings(&["rust", "two words", "x:y"]);
    let mut header = String::from("---\n");
    for (k, v) in [
        ("title", " Spaced title "),
        ("date", "2024-05-06"),
        ("author", "A \"quoted\" name"),
        ("snippet_id", ""),
        ("github_url", "https://example.com/a:b"),
        ("demo_url", "d"),
    ] {
        header.push_str(&format!("{}: \"{}\"\n", k, v));
    }
    let quoted: Vec<String> = tags.iter().map(|t| format!("\"{}\"", t)).collect();
    header.push_str(&format!("tags: [{}]\n---\nbody\n", quoted.join(",")));
    let d = parse(&header);
    let expected = FrontMatter {
        title: " Spaced title ".to_string(),
        date: "2024-05-06".to_string(),
        tags,
        author: "A \"quoted\" name".to_string(),
        snippet_id: String::new(),
        github_url: "https://example.com/a:b".to_string(),
        demo_url: "d".to_string(),
    };
    assert_eq!(d.frontmatter, expected);
    assert_eq!(d.content, vec![block("text", "body")]);
}
