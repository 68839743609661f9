use html_tokenizer::html_chunk::ChunkType;
use html_tokenizer::html_parser::HtmlParser;

fn collect(p: &mut HtmlParser) -> Vec<(ChunkType, String, usize, usize)> {
    let mut out = Vec::new();
    while p.parse_next() {
        out.push((
            p.chunk.chunk_type,
            p.chunk.tag.clone(),
            p.chunk.chunk_offset,
            p.chunk.chunk_length,
        ));
    }
    out
}

#[test]
fn token_coverage() {
    let input = b"<p>hello <b>world</b></p>".to_vec();
    let mut p = HtmlParser::new();
    p.init(input.clone());
    let mut kinds = Vec::new();
    let mut spans = Vec::new();
    let mut texts = Vec::new();
    while p.parse_next() {
        kinds.push((p.chunk.chunk_type, p.chunk.tag.clone()));
        spans.push((p.chunk.chunk_offset, p.chunk.chunk_length));
        texts.push(p.chunk.html.clone());
    }
    assert_eq!(
        kinds,
        vec![
            (ChunkType::OpenTag, "p".to_string()),
            (ChunkType::Text, "".to_string()),
            (ChunkType::OpenTag, "b".to_string()),
            (ChunkType::Text, "".to_string()),
            (ChunkType::CloseTag, "b".to_string()),
            (ChunkType::CloseTag, "p".to_string()),
        ]
    );
    assert_eq!(texts[1], "hello ");
    assert_eq!(texts[3], "world");
    // concatenating each chunk's raw byte span reproduces the input exactly
    let mut rebuilt: Vec<u8> = Vec::new();
    for (off, len) in spans {
        rebuilt.extend_from_slice(&input[off..off + len]);
    }
    assert_eq!(rebuilt, input);
}

#[test]
fn lenient_comment_handling() {
    let mut p = HtmlParser::new();
    p.init(b"<!-- unterminated".to_vec());
    assert!(p.parse_next());
    assert_eq!(p.chunk.chunk_type, ChunkType::Comment);
    assert!(p.chunk.comments);
    assert_eq!(p.chunk.chunk_offset, 0);
    assert_eq!(p.chunk.chunk_length, 17);
    assert_eq!(p.chunk.html, " unterminated");
    assert!(!p.parse_next());
}

#[test]
fn terminated_comment() {
    let mut p = HtmlParser::new();
    p.init(b"<!-- hi -->after".to_vec());
    assert!(p.parse_next());
    assert_eq!(p.chunk.chunk_type, ChunkType::Comment);
    assert_eq!(p.chunk.tag, "!--");
    assert_eq!(p.chunk.html, " hi ");
    assert!(p.parse_next());
    assert_eq!(p.chunk.chunk_type, ChunkType::Text);
    assert_eq!(p.chunk.html, "after");
    assert!(!p.parse_next());
}

#[test]
fn comment_with_full_markup() {
    let mut p = HtmlParser::new();
    p.extract_between_tags_only = false;
    p.init(b"<!--x-->".to_vec());
    assert!(p.parse_next());
    assert_eq!(p.chunk.html, "<!--x-->");
}

#[test]
fn cdata_section() {
    let mut p = HtmlParser::new();
    p.init(b"<![CDATA[a<b]]>".to_vec());
    assert!(p.parse_next());
    assert_eq!(p.chunk.chunk_type, ChunkType::Comment);
    assert_eq!(p.chunk.tag, "![CDATA[");
    assert_eq!(p.chunk.html, "a<b");
    assert!(!p.parse_next());
}

#[test]
fn self_closing_normalization() {
    let mut p = HtmlParser::new();
    p.init(b"<br/>".to_vec());
    assert!(p.parse_next());
    assert_eq!(p.chunk.tag, "br");
    assert_eq!(p.chunk.chunk_type, ChunkType::OpenTag);
    assert!(p.chunk.end_closure);
    assert!(!p.parse_next());

    p.init(b"<br>".to_vec());
    assert!(p.parse_next());
    assert_eq!(p.chunk.tag, "br");
    assert_eq!(p.chunk.chunk_type, ChunkType::OpenTag);
    assert!(!p.chunk.end_closure);
}

#[test]
fn whitespace_compression() {
    let mut p = HtmlParser::new();
    p.init(b"a \n\t <b>".to_vec());
    assert!(p.parse_next());
    assert_eq!(p.chunk.chunk_type, ChunkType::Text);
    assert_eq!(p.chunk.html, "a ");
    // the span still covers the original bytes
    assert_eq!(p.chunk.chunk_length, 5);
    assert!(p.parse_next());
    assert_eq!(p.chunk.tag, "b");

    let mut q = HtmlParser::new();
    q.compress_whitespace_before_tag = false;
    q.init(b"a \n\t <b>".to_vec());
    assert!(q.parse_next());
    assert_eq!(q.chunk.html, "a \n\t ");
}

#[test]
fn script_opacity() {
    let mut p = HtmlParser::new();
    p.init(b"<script>if (a<b) {}</script>".to_vec());
    assert!(p.parse_next());
    assert_eq!(p.chunk.chunk_type, ChunkType::OpenTag);
    assert_eq!(p.chunk.tag, "script");
    assert!(p.parse_next());
    assert_eq!(p.chunk.chunk_type, ChunkType::Script);
    assert_eq!(p.chunk.html, "if (a<b) {}");
    assert!(p.parse_next());
    assert_eq!(p.chunk.chunk_type, ChunkType::CloseTag);
    assert_eq!(p.chunk.tag, "script");
    assert!(!p.parse_next());
}

#[test]
fn unterminated_script() {
    let mut p = HtmlParser::new();
    p.init(b"<script>var x = 1;".to_vec());
    assert!(p.parse_next());
    assert_eq!(p.chunk.chunk_type, ChunkType::OpenTag);
    assert!(p.parse_next());
    assert_eq!(p.chunk.chunk_type, ChunkType::Script);
    assert_eq!(p.chunk.html, "var x = 1;");
    assert!(!p.parse_next());
}

#[test]
fn attributes_parsed() {
    let mut p = HtmlParser::new();
    p.init(b"<a href=\"x.html\" class=main id>".to_vec());
    assert!(p.parse_next());
    assert_eq!(p.chunk.tag, "a");
    assert_eq!(p.chunk.params_count, 3);
    assert_eq!(p.chunk.param_names[0], "href");
    assert_eq!(p.chunk.param_values[0], "x.html");
    assert_eq!(p.chunk.param_chars[0], b'"');
    assert_eq!(p.chunk.param_names[1], "class");
    assert_eq!(p.chunk.param_values[1], "main");
    assert_eq!(p.chunk.param_chars[1], 0);
    assert_eq!(p.chunk.param_names[2], "id");
    assert_eq!(p.chunk.param_values[2], "");
}

#[test]
fn closed_tag_with_params_reclassified() {
    let mut p = HtmlParser::new();
    p.init(b"</a href=x>".to_vec());
    assert!(p.parse_next());
    assert_eq!(p.chunk.chunk_type, ChunkType::OpenTag);
    assert!(!p.chunk.closure);

    let mut q = HtmlParser::new();
    q.mark_closed_tags_with_params_as_open = false;
    q.init(b"</a href=x>".to_vec());
    assert!(q.parse_next());
    assert_eq!(q.chunk.chunk_type, ChunkType::CloseTag);
    assert!(q.chunk.closure);
}

#[test]
fn bare_angle_is_text() {
    let mut p = HtmlParser::new();
    p.init(b"a < b".to_vec());
    let chunks = collect(&mut p);
    assert_eq!(chunks.len(), 1);
    assert_eq!(chunks[0].0, ChunkType::Text);
}

#[test]
fn entities_in_text() {
    let mut p = HtmlParser::new();
    p.init(b"a &amp; b &#65; &unknown; &copy;".to_vec());
    assert!(p.parse_next());
    assert_eq!(p.chunk.html, "a & b A &unknown; \u{a9}");
    assert!(p.chunk.entities);
    assert!(!p.chunk.lt_entity);
}

#[test]
fn escaped_tag_start_is_flagged() {
    let mut p = HtmlParser::new();
    p.init(b"x &lt;b&gt; y".to_vec());
    assert!(p.parse_next());
    assert_eq!(p.chunk.html, "x <b> y");
    assert!(p.chunk.entities);
    assert!(p.chunk.lt_entity);
}

#[test]
fn mini_entity_mode() {
    let mut p = HtmlParser::new();
    p.decode_mini_entities = true;
    p.init(b"&nbsp;&copy;".to_vec());
    assert!(p.parse_next());
    // the mini set resolves nbsp but not copy
    assert_eq!(p.chunk.html, "\u{a0}&copy;");
}

#[test]
fn numeric_entities() {
    let mut p = HtmlParser::new();
    p.init(b"&#233; &#xE9; &#x2014;".to_vec());
    assert!(p.parse_next());
    assert_eq!(p.chunk.html, "\u{e9} \u{e9} \u{2014}");
}

#[test]
fn malformed_entities_pass_through() {
    let mut p = HtmlParser::new();
    p.init(b"&#; &#xZZ; &; & x".to_vec());
    assert!(p.parse_next());
    assert_eq!(p.chunk.html, "&#; &#xZZ; &; & x");
    assert!(!p.chunk.entities);
}

#[test]
fn entity_in_attribute_value() {
    let mut p = HtmlParser::new();
    p.init(b"<a title=\"a&amp;b\">".to_vec());
    assert!(p.parse_next());
    assert_eq!(p.chunk.param_values[0], "a&b");
}

#[test]
fn encoding_selection() {
    let mut p = HtmlParser::new();
    assert!(!p.set_encoding("no-such-charset"));
    assert!(p.set_encoding("koi8-r"));
    assert!(p.set_encoding("windows-1251"));
    // byte 0xC0 is the Cyrillic capital A in windows-1251
    p.init(vec![0xC0]);
    assert!(p.parse_next());
    assert_eq!(p.chunk.html, "\u{410}");
}

#[test]
fn utf8_entity_round_trip() {
    // a non-ASCII entity is encoded through the codec and decoded back
    let mut p = HtmlParser::new();
    p.init(b"&#1071;".to_vec());
    assert!(p.parse_next());
    assert_eq!(p.chunk.html, "\u{42f}");
}

#[test]
fn keep_raw_html_for_tags() {
    let mut p = HtmlParser::new();
    p.keep_raw_html = true;
    p.init(b"<a href=x>".to_vec());
    assert!(p.parse_next());
    assert_eq!(p.chunk.html, "<a href=x>");
}

#[test]
fn keep_flags_suppress_text() {
    let mut p = HtmlParser::new();
    p.keep_comments = false;
    p.keep_scripts = false;
    p.init(b"<!--c--><script>s</script>".to_vec());
    assert!(p.parse_next());
    assert_eq!(p.chunk.chunk_type, ChunkType::Comment);
    assert_eq!(p.chunk.html, "");
    assert!(p.parse_next());
    assert_eq!(p.chunk.chunk_type, ChunkType::OpenTag);
    assert!(p.parse_next());
    assert_eq!(p.chunk.chunk_type, ChunkType::Script);
    assert_eq!(p.chunk.html, "");
}

#[test]
fn parser_reuse_across_buffers() {
    let mut p = HtmlParser::new();
    p.init(b"<b>".to_vec());
    assert!(p.parse_next());
    assert!(!p.parse_next());
    p.init(b"text".to_vec());
    assert!(p.parse_next());
    assert_eq!(p.chunk.chunk_type, ChunkType::Text);
    assert_eq!(p.chunk.html, "text");
    assert!(!p.parse_next());
}

#[test]
fn empty_input_has_no_tokens() {
    let mut p = HtmlParser::new();
    p.init(Vec::new());
    assert!(!p.parse_next());
}
