use html_tokenizer::dynamic_string::DynamicString;
use html_tokenizer::html_chunk::{ChunkType, HtmlChunk};
use html_tokenizer::html_parser::HtmlParser;

#[test]
fn regenerate_open_tag() {
    let mut p = HtmlParser::new();
    p.init(b"<a href=\"x.html\" id>".to_vec());
    assert!(p.parse_next());
    assert_eq!(p.chunk.generate_html(), "<a href=x.html id>");
}

#[test]
fn regenerate_close_tag() {
    let mut p = HtmlParser::new();
    p.init(b"</a>".to_vec());
    assert!(p.parse_next());
    assert_eq!(p.chunk.generate_html(), "</a>");
}

#[test]
fn regenerate_self_closing() {
    let mut p = HtmlParser::new();
    p.mark_closed_tags_with_params_as_open = false;
    p.init(b"</a href=x>".to_vec());
    assert!(p.parse_next());
    assert_eq!(p.chunk.chunk_type, ChunkType::CloseTag);
    assert_eq!(p.chunk.generate_html(), "<a href=x/>");
}

#[test]
fn regenerate_long_value_quoted() {
    let mut p = HtmlParser::new();
    p.init(b"<a href=abcdefghijklmnopqrstuvwxyz>".to_vec());
    assert!(p.parse_next());
    // values longer than 20 characters are always quoted
    assert_eq!(p.chunk.generate_html(), "<a href=\"abcdefghijklmnopqrstuvwxyz\">");
}

#[test]
fn regenerate_comment() {
    let mut p = HtmlParser::new();
    p.init(b"<!--note-->".to_vec());
    assert!(p.parse_next());
    assert_eq!(p.chunk.generate_html(), "<!--note-->");
}

#[test]
fn regenerate_empty_comment_placeholder() {
    let mut p = HtmlParser::new();
    p.keep_comments = false;
    p.init(b"<!--note-->".to_vec());
    assert!(p.parse_next());
    assert_eq!(p.chunk.generate_html(), "<!-- n/a -->");
}

#[test]
fn regenerate_empty_cdata_placeholder() {
    let mut p = HtmlParser::new();
    p.keep_comments = false;
    p.init(b"<![CDATA[x]]>".to_vec());
    assert!(p.parse_next());
    assert_eq!(p.chunk.generate_html(), "<![CDATA[ n/a \n]]>");
}

#[test]
fn regenerate_text() {
    let mut p = HtmlParser::new();
    p.init(b"plain".to_vec());
    assert!(p.parse_next());
    assert_eq!(p.chunk.generate_html(), "plain");
}

#[test]
fn attribute_quoting_round_trip() {
    // a value holding a single quote is wrapped in the alternate quote
    let mut p = HtmlParser::new();
    p.init(b"<a x='don&#39;t'>".to_vec());
    assert!(p.parse_next());
    assert_eq!(p.chunk.param_values[0], "don't");
    assert_eq!(p.chunk.param_chars[0], b'\'');
    let regenerated = p.chunk.generate_html();
    assert_eq!(regenerated, "<a x=\"don't\">");
    // re-parsing the regenerated markup yields the same decoded value
    let mut q = HtmlParser::new();
    q.init(regenerated.into_bytes());
    assert!(q.parse_next());
    assert_eq!(q.chunk.param_values[0], "don't");
}

#[test]
fn wrapping_quote_escaped_inside_value() {
    // a value holding both quotes keeps the preferred wrap and escapes it
    let mut p = HtmlParser::new();
    p.init(b"<a x='don&#39;t &#34;quote&#34;'>".to_vec());
    assert!(p.parse_next());
    assert_eq!(p.chunk.param_values[0], "don't \"quote\"");
    let regenerated = p.chunk.generate_html();
    assert_eq!(regenerated, "<a x=\"don't &#34;quote&#34;\">");
    let mut q = HtmlParser::new();
    q.init(regenerated.into_bytes());
    assert!(q.parse_next());
    assert_eq!(q.chunk.param_values[0], "don't \"quote\"");
}

#[test]
fn params_to_hash_and_lookup() {
    let mut p = HtmlParser::new();
    p.init(b"<a href=x title=\"t\" href=y>".to_vec());
    assert!(p.parse_next());
    assert_eq!(p.chunk.params_count, 3);
    p.chunk.convert_params_to_hash();
    // the mapping keeps unique names, the later occurrence winning
    let pairs = p.chunk.params.as_ref().unwrap();
    assert_eq!(pairs.len(), 2);
    assert_eq!(pairs[0], ("href".to_string(), "y".to_string()));
    assert_eq!(pairs[1], ("title".to_string(), "t".to_string()));
    // in ordered storage, lookup takes the first occurrence of a name
    assert_eq!(p.chunk.get_param_value(&"title".to_string()), "t");
    assert_eq!(p.chunk.get_param_value(&"href".to_string()), "x");
    assert_eq!(p.chunk.get_param_value(&"missing".to_string()), "");
}

#[test]
fn chunk_clear_resets_fields() {
    let mut c = HtmlChunk::new(false);
    c.tag = "x".to_string();
    c.entities = true;
    c.params_count = 0;
    c.clear();
    assert_eq!(c.tag, "");
    assert!(!c.entities);
    assert_eq!(c.params_count, 0);
}

#[test]
fn make_safe_param_value_escapes() {
    let v = "a\"b\"c".to_string();
    assert_eq!(HtmlChunk::make_safe_param_value(&v, '"'), "a&#34;b&#34;c");
    let w = "it's".to_string();
    assert_eq!(HtmlChunk::make_safe_param_value(&w, '\''), "it&#39;s");
    assert_eq!(HtmlChunk::make_safe_param_value(&w, '"'), "it's");
}

#[test]
fn dynamic_string_assembles_text() {
    let mut d = DynamicString::new(String::new());
    d.append_byte(b'h');
    d.append_byte(b'i');
    d.append(' ');
    d.flush();
    assert_eq!(d.string(), "hi ");
    // the default codec handles a non-ASCII character
    d.append('\u{e9}');
    d.flush();
    assert_eq!(d.string(), "hi \u{e9}");
    d.clear();
    assert_eq!(d.string(), "");
    assert!(!d.set_encoding("not-a-charset"));
    // without a codec, the ASCII path drops a non-ASCII character
    d.enc_label = None;
    d.append('\u{e9}');
    d.append_byte(b'!');
    d.flush();
    assert_eq!(d.string(), "!");
}
