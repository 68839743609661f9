use html_tokenizer::html_heuristics::HtmlHeuristics;

#[test]
fn idempotent_registration() {
    let mut h = HtmlHeuristics::new();
    assert!(h.add_tag("em", "class"));
    let id_lower = h.match_tag(b'e', b'm');
    assert!(id_lower != 0);
    // the second registration of the same name fails...
    assert!(!h.add_tag("em", "class"));
    assert!(!h.add_tag("EM", ""));
    // ...and the table is unchanged
    assert_eq!(h.match_tag(b'e', b'm'), id_lower);
    assert_eq!(h.get_string_by_id(id_lower.unsigned_abs() as usize), "em");
}

#[test]
fn case_insensitive_fast_match() {
    let mut h = HtmlHeuristics::new();
    assert!(h.add_tag("td", ""));
    let lo = h.match_tag(b't', b'd');
    let hi = h.match_tag(b'T', b'D');
    assert!(lo != 0 && hi != 0);
    assert_eq!(
        h.get_string_by_id(lo.unsigned_abs() as usize),
        h.get_string_by_id(hi.unsigned_abs() as usize)
    );
    assert_eq!(h.get_string_by_id(lo.unsigned_abs() as usize), "td");
}

#[test]
fn case_insensitive_single_byte_tag() {
    let mut h = HtmlHeuristics::new();
    assert!(h.add_tag("b", ""));
    let lo = h.match_tag(b'b', b'>');
    let hi = h.match_tag(b'B', b'>');
    assert!(lo < 0 && hi < 0);
    assert_eq!(
        h.get_string_by_id(lo.unsigned_abs() as usize),
        h.get_string_by_id(hi.unsigned_abs() as usize)
    );
    assert_eq!(h.get_string_by_id(lo.unsigned_abs() as usize), "b");
}

#[test]
fn capacity_bound() {
    let mut h = HtmlHeuristics::new();
    for i in 0..255 {
        let name = format!("x{:03}", i);
        assert!(h.add_tag(&name, ""), "registration {} should succeed", i);
    }
    // the 256th distinct name is refused
    assert!(!h.add_tag("x255", ""));
    // the table still answers correctly for the first entries
    let id = h.match_tag(b'x', b'0');
    assert!(id > 0);
    assert_eq!(h.get_string_by_id(id as usize), "x000");
}

#[test]
fn registration_normalizes_name() {
    let mut h = HtmlHeuristics::new();
    assert!(h.add_tag("  SPAN  ", ""));
    let id = h.match_tag(b's', b'p');
    assert!(id > 0);
    assert_eq!(h.get_string_by_id(id as usize), "span");
}

#[test]
fn rejected_names() {
    let mut h = HtmlHeuristics::new();
    assert!(!h.add_tag("", ""));
    assert!(!h.add_tag("   ", ""));
    assert!(!h.add_tag("averyveryverylongtagnamethatgoeson", ""));
}

#[test]
fn first_registered_wins_fast_path() {
    let mut h = HtmlHeuristics::new();
    assert!(h.add_tag("table", ""));
    // same first two bytes: registration succeeds, fast path keeps "table"
    assert!(h.add_tag("tabs", ""));
    let id = h.match_tag(b't', b'a');
    assert_eq!(h.get_string_by_id(id.unsigned_abs() as usize), "table");
}

#[test]
fn attribute_matching() {
    let mut h = HtmlHeuristics::new();
    assert!(h.add_tag("a", "href,class"));
    let tag_id = h.match_tag(b'a', b'>');
    assert!(tag_id < 0);
    let a_lo = h.match_attr(b'h', tag_id.unsigned_abs() as usize);
    let a_hi = h.match_attr(b'H', tag_id.unsigned_abs() as usize);
    assert!(a_lo != 0 && a_hi != 0);
    assert_eq!(h.get_attr(a_lo as usize), "href");
    assert_eq!(h.get_attr(a_hi as usize), "href");
    let c = h.match_attr(b'c', tag_id.unsigned_abs() as usize);
    assert_eq!(h.get_attr(c as usize), "class");
    // unregistered first byte misses
    assert_eq!(h.match_attr(b'z', tag_id.unsigned_abs() as usize), 0);
}

#[test]
fn attribute_first_byte_is_bounded_per_tag() {
    let mut h = HtmlHeuristics::new();
    // "class" and "color" share a first byte: only the first is registered
    assert!(h.add_tag("div", "class,color"));
    let tag_id = h.match_tag(b'd', b'i');
    let c = h.match_attr(b'c', tag_id as usize);
    assert_eq!(h.get_attr(c as usize), "class");
}

#[test]
fn two_char_string() {
    assert_eq!(HtmlHeuristics::get_two_char_string(b'i', b'j'), "ij");
    assert_eq!(HtmlHeuristics::get_two_char_string(b'<', b'/'), "</");
}

#[test]
fn string_data_holds_both_case_forms() {
    let mut h = HtmlHeuristics::new();
    assert!(h.add_tag("img", "src"));
    let id = h.match_tag(b'i', b'm');
    assert!(id > 0 && id % 2 == 0);
    assert_eq!(h.get_string_data(id as usize).as_slice(), b"img");
    assert_eq!(h.get_string_data(id as usize + 1).as_slice(), b"IMG");
    let up = h.match_tag(b'I', b'M');
    assert_eq!(up, id + 1);
}
