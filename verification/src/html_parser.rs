use vstd::prelude::*;

use crate::bytes::{latin1_seq, latin1_string, lc_byte, lc_seq, lower_byte};
use crate::dynamic_string::{flush_model, push_bytes_model, DynamicString};
use crate::html_chunk::{ChunkType, HtmlChunk};
use crate::html_heuristics::{cell_of, cell_tag, HtmlHeuristics};
use crate::tag_parser::{
    assembled_text, cdata_close, cdata_open, comment_close, comment_open, feed_entities, feed_raw,
    find_byte, find_seq, is_name_byte, is_tag_start, kind_at, lemma_find_seq, lemma_scan_name,
    name_byte, scan_name, scan_plain, scan_text, scan_ws, script_body_end, script_close,
    starts_with_at, tag_end, tag_name_at, tag_scan, trailing_ws_start,
};
use crate::is_whitespace;
use vstd::string::StringSliceAdditionalSpecFns;
use crate::is_whitespace_byte;

verus! {

/// The canonical byte images of the tag names the parser seeds its
/// heuristics table with, in registration order.
pub open spec fn seeded_tags() -> Seq<Seq<u8>> {
    seq![
        seq![97u8],
        seq![98u8],
        seq![112u8],
        seq![105u8],
        seq![115u8],
        seq![117u8],
        seq![116u8, 100u8],
        seq![116u8, 97u8, 98u8, 108u8, 101u8],
        seq![115u8, 112u8, 97u8, 110u8],
        seq![111u8, 112u8, 116u8, 105u8, 111u8, 110u8],
        seq![115u8, 101u8, 108u8, 101u8, 99u8, 116u8],
        seq![116u8, 114u8],
        seq![100u8, 105u8, 118u8],
        seq![105u8, 109u8, 103u8],
        seq![105u8, 110u8, 112u8, 117u8, 116u8],
        seq![98u8, 114u8],
        seq![108u8, 105u8],
        seq![117u8, 108u8],
        seq![111u8, 108u8],
        seq![104u8, 114u8],
        seq![104u8, 49u8],
        seq![104u8, 50u8],
        seq![104u8, 51u8],
        seq![104u8, 52u8],
        seq![104u8, 53u8],
        seq![104u8, 54u8],
        seq![102u8, 111u8, 110u8, 116u8],
        seq![109u8, 101u8, 116u8, 97u8],
        seq![98u8, 97u8, 115u8, 101u8],
        seq![115u8, 99u8, 114u8, 105u8, 112u8, 116u8],
        seq![115u8, 116u8, 121u8, 108u8, 101u8],
        seq![104u8, 116u8, 109u8, 108u8],
        seq![98u8, 111u8, 100u8, 121u8],
    ]
}

/// The comma-separated attribute strings registered alongside each seeded
/// tag, in the same order.
pub open spec fn seeded_attr_strings() -> Seq<Seq<u8>> {
    seq![
        ("href").spec_bytes(),
        ("").spec_bytes(),
        ("class").spec_bytes(),
        ("").spec_bytes(),
        ("").spec_bytes(),
        ("").spec_bytes(),
        ("align,valign,bgcolor,rowspan,colspan").spec_bytes(),
        ("border,width,cellpadding").spec_bytes(),
        ("").spec_bytes(),
        ("").spec_bytes(),
        ("").spec_bytes(),
        ("").spec_bytes(),
        ("class,align").spec_bytes(),
        ("src,width,height,title,alt").spec_bytes(),
        ("").spec_bytes(),
        ("").spec_bytes(),
        ("").spec_bytes(),
        ("").spec_bytes(),
        ("").spec_bytes(),
        ("").spec_bytes(),
        ("").spec_bytes(),
        ("").spec_bytes(),
        ("").spec_bytes(),
        ("").spec_bytes(),
        ("").spec_bytes(),
        ("").spec_bytes(),
        ("size,color").spec_bytes(),
        ("name,content,http-equiv").spec_bytes(),
        ("href").spec_bytes(),
        ("").spec_bytes(),
        ("").spec_bytes(),
        ("").spec_bytes(),
        ("").spec_bytes(),
    ]
}

/// A fresh per-tag attribute table: 256 zero entries.
pub open spec fn zero_table() -> Seq<u8> {
    Seq::new(256, |i: int| 0u8)
}

/// The attribute-registration state after seeding the tags from position
/// `k` on: each step folds one tag's comma-separated names over the current
/// attribute lists, starting from a fresh per-tag table.
pub open spec fn seed_attr_fold(attrs: Seq<Seq<u8>>, data: Seq<Seq<u8>>, k: int) -> (
    Seq<Seq<u8>>,
    Seq<Seq<u8>>,
)
    decreases seeded_attr_strings().len() - k,
{
    if k < 0 || k >= seeded_attr_strings().len() {
        (attrs, data)
    } else {
        let f = crate::html_heuristics::attr_fold(
            attrs,
            data,
            zero_table(),
            crate::html_heuristics::split_commas_spec(seeded_attr_strings()[k]),
        );
        seed_attr_fold(f.0, f.1, k + 1)
    }
}

/// The byte image of the tag name that makes the engine treat the following
/// content as an opaque script body.
pub open spec fn script_name() -> Seq<u8> {
    seq![115u8, 99u8, 114u8, 105u8, 112u8, 116u8]
}

/// What the attribute walk never touches: the fixed frame, the scan
/// position, the script state, and the chunk fields already filled for this
/// tag.
pub open spec fn scan_frame(pre: &HtmlParser, post: &HtmlParser) -> bool {
    &&& post.wf()
    &&& HtmlParser::frame_fixed(pre, post)
    &&& post.current_position == pre.current_position
    &&& post.in_script == pre.in_script
    &&& post.chunk.hash_mode == pre.chunk.hash_mode
    &&& post.chunk.tag == pre.chunk.tag
    &&& post.chunk.chunk_offset == pre.chunk.chunk_offset
    &&& post.chunk.comments == pre.chunk.comments
}

/// The recorded parameters agree with the walked attribute list: the count
/// is the list's length capped at the parameter bound, and each recorded
/// name, value and quote equals the walked one.
pub open spec fn params_match(c: &HtmlChunk, attrs: Seq<(Seq<u8>, Seq<char>, u8)>) -> bool {
    &&& c.params_count as int == (if attrs.len() <= crate::html_chunk::MAX_PARAMS {
        attrs.len() as int
    } else {
        crate::html_chunk::MAX_PARAMS as int
    })
    &&& forall|k: int|
        0 <= k < c.params_count ==> #[trigger] c.names_spec()[k] == latin1_seq(attrs[k].0)
            && c.values_spec()[k] == attrs[k].1 && c.param_chars@[k] == attrs[k].2
}

/// Parameter agreement only reads the parameter storage, so it carries over
/// to a chunk whose other fields changed.
pub proof fn lemma_params_match_same(c1: &HtmlChunk, c2: &HtmlChunk, attrs: Seq<(Seq<u8>, Seq<char>, u8)>)
    requires
        params_match(c1, attrs),
        c2.params_count == c1.params_count,
        c2.param_names == c1.param_names,
        c2.param_values == c1.param_values,
        c2.param_chars == c1.param_chars,
    ensures
        params_match(c2, attrs),
{
    assert forall|k: int|
        0 <= k < c2.params_count implies #[trigger] c2.names_spec()[k] == latin1_seq(attrs[k].0)
            && c2.values_spec()[k] == attrs[k].1 && c2.param_chars@[k] == attrs[k].2 by {
        assert(c1.names_spec()[k] == latin1_seq(attrs[k].0));
        assert(c1.values_spec()[k] == attrs[k].1);
        assert(c2.names_spec() =~= c1.names_spec());
        assert(c2.values_spec() =~= c1.values_spec());
    }
}

/// Finds the first occurrence of a three-byte pattern at or after `from`.
fn find_pattern3(s: &[u8], from: usize, b0: u8, b1: u8, b2: u8) -> (r: usize)
    requires
        from <= s@.len(),
    ensures
        r as int == find_seq(s@, from as int, seq![b0, b1, b2]),
        from <= r <= s@.len(),
{
    let ghost pat = seq![b0, b1, b2];
    proof {
        assert(pat.len() == 3);
    }
    let n = s.len();
    let mut j: usize = from;
    loop
        invariant_except_break
            from <= j <= n,
            n == s@.len(),
            pat == seq![b0, b1, b2],
            find_seq(s@, from as int, pat) == find_seq(s@, j as int, pat),
        ensures
            from <= j <= n,
            j as int == find_seq(s@, from as int, pat),
        decreases n - j,
    {
        if n - j < 3 {
            proof {
                assert(find_seq(s@, j as int, pat) == n);
                lemma_find_seq(s@, from as int, pat);
            }
            j = n;
            proof {
                assert(j as int == find_seq(s@, from as int, pat));
            }
            break ;
        }
        if s[j] == b0 && s[j + 1] == b1 && s[j + 2] == b2 {
            proof {
                assert(s@.subrange(j as int, j as int + 3) =~= pat);
                assert(find_seq(s@, j as int, pat) == j);
            }
            break ;
        }
        proof {
            assert(s@.subrange(j as int, j as int + 3) != pat) by {
                if s@.subrange(j as int, j as int + 3) == pat {
                    assert(s@.subrange(j as int, j as int + 3)[0] == s@[j as int]);
                    assert(s@.subrange(j as int, j as int + 3)[1] == s@[j as int + 1]);
                    assert(s@.subrange(j as int, j as int + 3)[2] == s@[j as int + 2]);
                }
            }
        }
        j += 1;
    }
    j
}

/// Finds the first case-insensitive occurrence of `</script` at or after
/// `from`.
fn find_script_close(s: &[u8], from: usize) -> (r: usize)
    requires
        from <= s@.len(),
    ensures
        r as int == script_body_end(s@, from as int),
        from <= r <= s@.len(),
{
    let ghost ls = lc_seq(s@);
    let ghost pat = script_close();
    proof {
        assert(ls.len() == s@.len());
        assert(pat.len() == 8);
    }
    let n = s.len();
    let mut j: usize = from;
    loop
        invariant_except_break
            from <= j <= n,
            n == s@.len(),
            ls == lc_seq(s@),
            pat == script_close(),
            find_seq(ls, from as int, pat) == find_seq(ls, j as int, pat),
        ensures
            from <= j <= n,
            j as int == find_seq(ls, from as int, pat),
        decreases n - j,
    {
        if n - j < 8 {
            proof {
                assert(find_seq(ls, j as int, pat) == n);
                lemma_find_seq(ls, from as int, pat);
            }
            j = n;
            proof {
                assert(j as int == find_seq(ls, from as int, pat));
            }
            break ;
        }
        proof {
            assert forall|k: int| 0 <= k < 8 implies #[trigger] ls.subrange(j as int, j as int
                + 8)[k] == lc_byte(s@[j + k]) by {
                assert(ls.subrange(j as int, j as int + 8)[k] == ls[j + k]);
            }
        }
        if s[j] == 60 && s[j + 1] == 47 && lower_byte(s[j + 2]) == 115 && lower_byte(s[j + 3])
            == 99 && lower_byte(s[j + 4]) == 114 && lower_byte(s[j + 5]) == 105 && lower_byte(
            s[j + 6],
        ) == 112 && lower_byte(s[j + 7]) == 116 {
            proof {
                assert(ls.subrange(j as int, j as int + 8) =~= pat);
                assert(find_seq(ls, j as int, pat) == j);
            }
            break ;
        }
        proof {
            assert(ls.subrange(j as int, j as int + 8) != pat) by {
                if ls.subrange(j as int, j as int + 8) == pat {
                    assert(lc_byte(s@[j as int]) == 60);
                    assert(lc_byte(s@[j as int + 1]) == 47);
                    assert(lc_byte(s@[j as int + 2]) == 115);
                    assert(lc_byte(s@[j as int + 3]) == 99);
                    assert(lc_byte(s@[j as int + 4]) == 114);
                    assert(lc_byte(s@[j as int + 5]) == 105);
                    assert(lc_byte(s@[j as int + 6]) == 112);
                    assert(lc_byte(s@[j as int + 7]) == 116);
                }
            }
        }
        j += 1;
    }
    j
}

/// Whether a tag-like construct begins at position `i`.
fn tag_start_at(s: &[u8], i: usize) -> (r: bool)
    requires
        i < s@.len(),
    ensures
        r == is_tag_start(s@, i as int),
{
    let n = s.len();
    if s[i] != 60 {
        return false;
    }
    if n - i > 3 && s[i + 1] == 33 && s[i + 2] == 45 && s[i + 3] == 45 {
        proof {
            assert(s@.subrange(i as int, i as int + 4) =~= comment_open());
        }
        return true;
    }
    if n - i > 8 && s[i + 1] == 33 && s[i + 2] == 91 && s[i + 3] == 67 && s[i + 4] == 68 && s[i
        + 5] == 65 && s[i + 6] == 84 && s[i + 7] == 65 && s[i + 8] == 91 {
        proof {
            assert(s@.subrange(i as int, i as int + 9) =~= cdata_open());
        }
        return true;
    }
    proof {
        assert(!starts_with_at(s@, i as int, comment_open())) by {
            if starts_with_at(s@, i as int, comment_open()) {
                assert(s@.subrange(i as int, i as int + 4)[1] == s@[i as int + 1]);
                assert(s@.subrange(i as int, i as int + 4)[2] == s@[i as int + 2]);
                assert(s@.subrange(i as int, i as int + 4)[3] == s@[i as int + 3]);
            }
        }
        assert(!starts_with_at(s@, i as int, cdata_open())) by {
            if starts_with_at(s@, i as int, cdata_open()) {
                assert forall|k: int| 0 <= k < 9 implies #[trigger] s@.subrange(i as int, i as int
                    + 9)[k] == s@[i + k] by {}
            }
        }
    }
    if i + 1 < n && s[i + 1] == 47 {
        return true;
    }
    if i + 1 < n && (s[i + 1] >= 97 && s[i + 1] <= 122 || s[i + 1] >= 65 && s[i + 1] <= 90) {
        return true;
    }
    false
}

/// Splits markup into small tokens (chunks) such as tags, text and comments.
///
/// Reuse a single instance across parses, and do not share one instance
/// between threads: it holds mutable scan state.
pub struct HtmlParser {
    /// If true, only the mini entity set resolves; otherwise the full table.
    pub decode_mini_entities: bool,
    /// If true, parsed tag chunks also carry the decoded raw span text;
    /// otherwise only text, comment and script chunks carry text.
    pub keep_raw_html: bool,
    /// If true, comment and CDATA chunks carry their text.
    pub keep_comments: bool,
    /// If true, script body chunks carry their text.
    pub keep_scripts: bool,
    /// If true, captured comment text excludes the delimiter markup itself.
    /// Script bodies are delimited chunks of their own, between the script
    /// tags' chunks, so their text is always the between-tags content.
    pub extract_between_tags_only: bool,
    /// If true, a close tag carrying attributes is reclassified as open,
    /// matching lenient real-world markup.
    pub mark_closed_tags_with_params_as_open: bool,
    /// If true, whitespace immediately before a tag is compressed to a
    /// single space.
    pub compress_whitespace_before_tag: bool,
    /// Heuristics engine used to quickly match known tags and attributes;
    /// pre-seeded with common HTML tags.
    pub heuristics: HtmlHeuristics,
    /// Dynamic string used to accumulate decoded text.
    pub text: DynamicString,
    /// The chunk returned by the last successful parse; it is reused (and
    /// cleared) across calls.
    pub chunk: HtmlChunk,
    /// Label of the character encoding used to turn bytes into text.
    pub encoding: String,
    /// The byte buffer being parsed.
    pub html_bytes: Vec<u8>,
    /// Current scan position in the buffer.
    pub current_position: usize,
    /// Length of the buffer; kept alongside for fast comparisons.
    pub data_length: usize,
    /// True between an opening script tag and its script body chunk: the
    /// content ahead is opaque text.
    pub in_script: bool,
}

impl HtmlParser {
    pub open spec fn wf(&self) -> bool {
        &&& self.heuristics.wf()
        &&& self.text.wf()
        &&& self.chunk.wf()
        &&& self.data_length == self.html_bytes@.len()
        &&& self.current_position <= self.data_length
    }

    /// The configuration, scan buffer and tables a parse step never touches.
    pub open spec fn frame_fixed(pre: &HtmlParser, post: &HtmlParser) -> bool {
        &&& post.decode_mini_entities == pre.decode_mini_entities
        &&& post.keep_raw_html == pre.keep_raw_html
        &&& post.keep_comments == pre.keep_comments
        &&& post.keep_scripts == pre.keep_scripts
        &&& post.extract_between_tags_only == pre.extract_between_tags_only
        &&& post.mark_closed_tags_with_params_as_open == pre.mark_closed_tags_with_params_as_open
        &&& post.compress_whitespace_before_tag == pre.compress_whitespace_before_tag
        &&& post.heuristics == pre.heuristics
        &&& post.encoding == pre.encoding
        &&& post.html_bytes == pre.html_bytes
        &&& post.data_length == pre.data_length
        &&& post.text.enc_spec() == pre.text.enc_spec()
    }

    /// Builds a parser with the default configuration, a heuristics table
    /// pre-seeded with common HTML tags, and a text assembler decoding
    /// through the codec registered under the default label.
    pub fn new() -> (r: HtmlParser)
        ensures
            r.wf(),
            !r.decode_mini_entities,
            !r.keep_raw_html,
            r.keep_comments,
            r.keep_scripts,
            r.extract_between_tags_only,
            r.mark_closed_tags_with_params_as_open,
            r.compress_whitespace_before_tag,
            r.current_position == 0,
            r.data_length == 0,
            !r.in_script,
            !r.chunk.hash_mode,
            r.encoding@ == ("utf-8")@,
            r.heuristics.tags() == seeded_tags(),
            r.text.enc_spec() == (if crate::dynamic_string::label_known(("utf-8")@) {
                Option::Some(("utf-8")@)
            } else {
                Option::<Seq<char>>::None
            }),
    {
        let mut heuristics = HtmlHeuristics::new();
        Self::init_heuristics(&mut heuristics);
        let text = DynamicString::new(String::new());
        let encoding = String::from_str("utf-8");
        let chunk = HtmlChunk::new(false);
        let parser = HtmlParser {
            decode_mini_entities: false,
            keep_raw_html: false,
            keep_comments: true,
            keep_scripts: true,
            extract_between_tags_only: true,
            mark_closed_tags_with_params_as_open: true,
            compress_whitespace_before_tag: true,
            heuristics,
            text,
            chunk,
            encoding,
            html_bytes: Vec::new(),
            current_position: 0,
            data_length: 0,
            in_script: false,
        };
        parser
    }

    /// Seeds the tags at positions 0 to 8 of the seeded list.
    #[verifier::rlimit(100)]
    #[verifier::spinoff_prover]
    fn seed_tags_1(heuristics: &mut HtmlHeuristics)
        requires
            old(heuristics).wf(),
            old(heuristics).tags() == seeded_tags().take(0),
        ensures
            final(heuristics).wf(),
            final(heuristics).tags() == seeded_tags().take(9),
            seed_attr_fold(
                old(heuristics).attrs(),
                old(heuristics).attributes.deep_view(),
                0,
            ) == seed_attr_fold(
                final(heuristics).attrs(),
                final(heuristics).attributes.deep_view(),
                9,
            ),
    {
        let ghost a0 = heuristics.attrs();
        let ghost d0 = heuristics.attributes.deep_view();
        proof {
            reveal_strlit("a");
            assert(("a")@ =~= seq!['a']);
            assert(vstd::utf8::is_ascii_chars(("a")@));
            vstd::utf8::is_ascii_chars_encode_utf8(("a")@);
            assert(("a").spec_bytes() =~= seq![97u8]);
            assert(crate::html_heuristics::trim_of(seq![97u8]) == seq![97u8]);
            assert(crate::html_heuristics::canon_of(("a").spec_bytes()) =~= seq![97u8]);
            assert forall|x: int| 0 <= x < 0 implies seeded_tags().take(0)[x] != seq![97u8] by {
                assert(seeded_tags().take(0)[x] == seeded_tags()[x]);
            }
            assert(!heuristics.registered(seq![97u8]));
            assert(heuristics.attr_data@[1]@ =~= zero_table()) by {
                assert forall|x: int| 0 <= x < 256 implies heuristics.attr_data@[1]@[x]
                    == 0 by {
                    assert(heuristics.attr_cell(1, x as u8) == 0);
                }
            }
        }
        let ok0 = heuristics.add_tag("a", "href");
        proof {
            assert(ok0);
            assert(heuristics.tags() =~= seeded_tags().take(1));
            assert(seeded_attr_strings()[0] == ("href").spec_bytes());
            assert(seed_attr_fold(a0, d0, 0) == seed_attr_fold(
                heuristics.attrs(),
                heuristics.attributes.deep_view(),
                1,
            ));
        }
        proof {
            reveal_strlit("b");
            assert(("b")@ =~= seq!['b']);
            assert(vstd::utf8::is_ascii_chars(("b")@));
            vstd::utf8::is_ascii_chars_encode_utf8(("b")@);
            assert(("b").spec_bytes() =~= seq![98u8]);
            assert(crate::html_heuristics::trim_of(seq![98u8]) == seq![98u8]);
            assert(crate::html_heuristics::canon_of(("b").spec_bytes()) =~= seq![98u8]);
            assert forall|x: int| 0 <= x < 1 implies seeded_tags().take(1)[x] != seq![98u8] by {
                assert(seeded_tags().take(1)[x] == seeded_tags()[x]);
            }
            assert(!heuristics.registered(seq![98u8]));
            assert(heuristics.attr_data@[2]@ =~= zero_table()) by {
                assert forall|x: int| 0 <= x < 256 implies heuristics.attr_data@[2]@[x]
                    == 0 by {
                    assert(heuristics.attr_cell(2, x as u8) == 0);
                }
            }
        }
        let ok1 = heuristics.add_tag("b", "");
        proof {
            assert(ok1);
            assert(heuristics.tags() =~= seeded_tags().take(2));
            assert(seeded_attr_strings()[1] == ("").spec_bytes());
            assert(seed_attr_fold(a0, d0, 0) == seed_attr_fold(
                heuristics.attrs(),
                heuristics.attributes.deep_view(),
                2,
            ));
        }
        proof {
            reveal_strlit("p");
            assert(("p")@ =~= seq!['p']);
            assert(vstd::utf8::is_ascii_chars(("p")@));
            vstd::utf8::is_ascii_chars_encode_utf8(("p")@);
            assert(("p").spec_bytes() =~= seq![112u8]);
            assert(crate::html_heuristics::trim_of(seq![112u8]) == seq![112u8]);
            assert(crate::html_heuristics::canon_of(("p").spec_bytes()) =~= seq![112u8]);
            assert forall|x: int| 0 <= x < 2 implies seeded_tags().take(2)[x] != seq![112u8] by {
                assert(seeded_tags().take(2)[x] == seeded_tags()[x]);
            }
            assert(!heuristics.registered(seq![112u8]));
            assert(heuristics.attr_data@[3]@ =~= zero_table()) by {
                assert forall|x: int| 0 <= x < 256 implies heuristics.attr_data@[3]@[x]
                    == 0 by {
                    assert(heuristics.attr_cell(3, x as u8) == 0);
                }
            }
        }
        let ok2 = heuristics.add_tag("p", "class");
        proof {
            assert(ok2);
            assert(heuristics.tags() =~= seeded_tags().take(3));
            assert(seeded_attr_strings()[2] == ("class").spec_bytes());
            assert(seed_attr_fold(a0, d0, 0) == seed_attr_fold(
                heuristics.attrs(),
                heuristics.attributes.deep_view(),
                3,
            ));
        }
        proof {
            reveal_strlit("i");
            assert(("i")@ =~= seq!['i']);
            assert(vstd::utf8::is_ascii_chars(("i")@));
            vstd::utf8::is_ascii_chars_encode_utf8(("i")@);
            assert(("i").spec_bytes() =~= seq![105u8]);
            assert(crate::html_heuristics::trim_of(seq![105u8]) == seq![105u8]);
            assert(crate::html_heuristics::canon_of(("i").spec_bytes()) =~= seq![105u8]);
            assert forall|x: int| 0 <= x < 3 implies seeded_tags().take(3)[x] != seq![105u8] by {
                assert(seeded_tags().take(3)[x] == seeded_tags()[x]);
            }
            assert(!heuristics.registered(seq![105u8]));
            assert(heuristics.attr_data@[4]@ =~= zero_table()) by {
                assert forall|x: int| 0 <= x < 256 implies heuristics.attr_data@[4]@[x]
                    == 0 by {
                    assert(heuristics.attr_cell(4, x as u8) == 0);
                }
            }
        }
        let ok3 = heuristics.add_tag("i", "");
        proof {
            assert(ok3);
            assert(heuristics.tags() =~= seeded_tags().take(4));
            assert(seeded_attr_strings()[3] == ("").spec_bytes());
            assert(seed_attr_fold(a0, d0, 0) == seed_attr_fold(
                heuristics.attrs(),
                heuristics.attributes.deep_view(),
                4,
            ));
        }
        proof {
            reveal_strlit("s");
            assert(("s")@ =~= seq!['s']);
            assert(vstd::utf8::is_ascii_chars(("s")@));
            vstd::utf8::is_ascii_chars_encode_utf8(("s")@);
            assert(("s").spec_bytes() =~= seq![115u8]);
            assert(crate::html_heuristics::trim_of(seq![115u8]) == seq![115u8]);
            assert(crate::html_heuristics::canon_of(("s").spec_bytes()) =~= seq![115u8]);
            assert forall|x: int| 0 <= x < 4 implies seeded_tags().take(4)[x] != seq![115u8] by {
                assert(seeded_tags().take(4)[x] == seeded_tags()[x]);
            }
            assert(!heuristics.registered(seq![115u8]));
            assert(heuristics.attr_data@[5]@ =~= zero_table()) by {
                assert forall|x: int| 0 <= x < 256 implies heuristics.attr_data@[5]@[x]
                    == 0 by {
                    assert(heuristics.attr_cell(5, x as u8) == 0);
                }
            }
        }
        let ok4 = heuristics.add_tag("s", "");
        proof {
            assert(ok4);
            assert(heuristics.tags() =~= seeded_tags().take(5));
            assert(seeded_attr_strings()[4] == ("").spec_bytes());
            assert(seed_attr_fold(a0, d0, 0) == seed_attr_fold(
                heuristics.attrs(),
                heuristics.attributes.deep_view(),
                5,
            ));
        }
        proof {
            reveal_strlit("u");
            assert(("u")@ =~= seq!['u']);
            assert(vstd::utf8::is_ascii_chars(("u")@));
            vstd::utf8::is_ascii_chars_encode_utf8(("u")@);
            assert(("u").spec_bytes() =~= seq![117u8]);
            assert(crate::html_heuristics::trim_of(seq![117u8]) == seq![117u8]);
            assert(crate::html_heuristics::canon_of(("u").spec_bytes()) =~= seq![117u8]);
            assert forall|x: int| 0 <= x < 5 implies seeded_tags().take(5)[x] != seq![117u8] by {
                assert(seeded_tags().take(5)[x] == seeded_tags()[x]);
            }
            assert(!heuristics.registered(seq![117u8]));
            assert(heuristics.attr_data@[6]@ =~= zero_table()) by {
                assert forall|x: int| 0 <= x < 256 implies heuristics.attr_data@[6]@[x]
                    == 0 by {
                    assert(heuristics.attr_cell(6, x as u8) == 0);
                }
            }
        }
        let ok5 = heuristics.add_tag("u", "");
        proof {
            assert(ok5);
            assert(heuristics.tags() =~= seeded_tags().take(6));
            assert(seeded_attr_strings()[5] == ("").spec_bytes());
            assert(seed_attr_fold(a0, d0, 0) == seed_attr_fold(
                heuristics.attrs(),
                heuristics.attributes.deep_view(),
                6,
            ));
        }
        proof {
            reveal_strlit("td");
            assert(("td")@ =~= seq!['t', 'd']);
            assert(vstd::utf8::is_ascii_chars(("td")@));
            vstd::utf8::is_ascii_chars_encode_utf8(("td")@);
            assert(("td").spec_bytes() =~= seq![116u8, 100u8]);
            assert(crate::html_heuristics::trim_of(seq![116u8, 100u8]) == seq![116u8, 100u8]);
            assert(crate::html_heuristics::canon_of(("td").spec_bytes()) =~= seq![116u8, 100u8]);
            assert forall|x: int| 0 <= x < 6 implies seeded_tags().take(6)[x] != seq![116u8, 100u8] by {
                assert(seeded_tags().take(6)[x] == seeded_tags()[x]);
            }
            assert(!heuristics.registered(seq![116u8, 100u8]));
            assert(heuristics.attr_data@[7]@ =~= zero_table()) by {
                assert forall|x: int| 0 <= x < 256 implies heuristics.attr_data@[7]@[x]
                    == 0 by {
                    assert(heuristics.attr_cell(7, x as u8) == 0);
                }
            }
        }
        let ok6 = heuristics.add_tag("td", "align,valign,bgcolor,rowspan,colspan");
        proof {
            assert(ok6);
            assert(heuristics.tags() =~= seeded_tags().take(7));
            assert(seeded_attr_strings()[6] == ("align,valign,bgcolor,rowspan,colspan").spec_bytes());
            assert(seed_attr_fold(a0, d0, 0) == seed_attr_fold(
                heuristics.attrs(),
                heuristics.attributes.deep_view(),
                7,
            ));
        }
        proof {
            reveal_strlit("table");
            assert(("table")@ =~= seq!['t', 'a', 'b', 'l', 'e']);
            assert(vstd::utf8::is_ascii_chars(("table")@));
            vstd::utf8::is_ascii_chars_encode_utf8(("table")@);
            assert(("table").spec_bytes() =~= seq![116u8, 97u8, 98u8, 108u8, 101u8]);
            assert(crate::html_heuristics::trim_of(seq![116u8, 97u8, 98u8, 108u8, 101u8]) == seq![116u8, 97u8, 98u8, 108u8, 101u8]);
            assert(crate::html_heuristics::canon_of(("table").spec_bytes()) =~= seq![116u8, 97u8, 98u8, 108u8, 101u8]);
            assert forall|x: int| 0 <= x < 7 implies seeded_tags().take(7)[x] != seq![116u8, 97u8, 98u8, 108u8, 101u8] by {
                assert(seeded_tags().take(7)[x] == seeded_tags()[x]);
            }
            assert(!heuristics.registered(seq![116u8, 97u8, 98u8, 108u8, 101u8]));
            assert(heuristics.attr_data@[8]@ =~= zero_table()) by {
                assert forall|x: int| 0 <= x < 256 implies heuristics.attr_data@[8]@[x]
                    == 0 by {
                    assert(heuristics.attr_cell(8, x as u8) == 0);
                }
            }
        }
        let ok7 = heuristics.add_tag("table", "border,width,cellpadding");
        proof {
            assert(ok7);
            assert(heuristics.tags() =~= seeded_tags().take(8));
            assert(seeded_attr_strings()[7] == ("border,width,cellpadding").spec_bytes());
            assert(seed_attr_fold(a0, d0, 0) == seed_attr_fold(
                heuristics.attrs(),
                heuristics.attributes.deep_view(),
                8,
            ));
        }
        proof {
            reveal_strlit("span");
            assert(("span")@ =~= seq!['s', 'p', 'a', 'n']);
            assert(vstd::utf8::is_ascii_chars(("span")@));
            vstd::utf8::is_ascii_chars_encode_utf8(("span")@);
            assert(("span").spec_bytes() =~= seq![115u8, 112u8, 97u8, 110u8]);
            assert(crate::html_heuristics::trim_of(seq![115u8, 112u8, 97u8, 110u8]) == seq![115u8, 112u8, 97u8, 110u8]);
            assert(crate::html_heuristics::canon_of(("span").spec_bytes()) =~= seq![115u8, 112u8, 97u8, 110u8]);
            assert forall|x: int| 0 <= x < 8 implies seeded_tags().take(8)[x] != seq![115u8, 112u8, 97u8, 110u8] by {
                assert(seeded_tags().take(8)[x] == seeded_tags()[x]);
            }
            assert(!heuristics.registered(seq![115u8, 112u8, 97u8, 110u8]));
            assert(heuristics.attr_data@[9]@ =~= zero_table()) by {
                assert forall|x: int| 0 <= x < 256 implies heuristics.attr_data@[9]@[x]
                    == 0 by {
                    assert(heuristics.attr_cell(9, x as u8) == 0);
                }
            }
        }
        let ok8 = heuristics.add_tag("span", "");
        proof {
            assert(ok8);
            assert(heuristics.tags() =~= seeded_tags().take(9));
            assert(seeded_attr_strings()[8] == ("").spec_bytes());
            assert(seed_attr_fold(a0, d0, 0) == seed_attr_fold(
                heuristics.attrs(),
                heuristics.attributes.deep_view(),
                9,
            ));
        }
    }

    /// Seeds the tags at positions 9 to 16 of the seeded list.
    #[verifier::rlimit(100)]
    #[verifier::spinoff_prover]
    fn seed_tags_2(heuristics: &mut HtmlHeuristics)
        requires
            old(heuristics).wf(),
            old(heuristics).tags() == seeded_tags().take(9),
        ensures
            final(heuristics).wf(),
            final(heuristics).tags() == seeded_tags().take(17),
            seed_attr_fold(
                old(heuristics).attrs(),
                old(heuristics).attributes.deep_view(),
                9,
            ) == seed_attr_fold(
                final(heuristics).attrs(),
                final(heuristics).attributes.deep_view(),
                17,
            ),
    {
        let ghost a0 = heuristics.attrs();
        let ghost d0 = heuristics.attributes.deep_view();
        proof {
            reveal_strlit("option");
            assert(("option")@ =~= seq!['o', 'p', 't', 'i', 'o', 'n']);
            assert(vstd::utf8::is_ascii_chars(("option")@));
            vstd::utf8::is_ascii_chars_encode_utf8(("option")@);
            assert(("option").spec_bytes() =~= seq![111u8, 112u8, 116u8, 105u8, 111u8, 110u8]);
            assert(crate::html_heuristics::trim_of(seq![111u8, 112u8, 116u8, 105u8, 111u8, 110u8]) == seq![111u8, 112u8, 116u8, 105u8, 111u8, 110u8]);
            assert(crate::html_heuristics::canon_of(("option").spec_bytes()) =~= seq![111u8, 112u8, 116u8, 105u8, 111u8, 110u8]);
            assert forall|x: int| 0 <= x < 9 implies seeded_tags().take(9)[x] != seq![111u8, 112u8, 116u8, 105u8, 111u8, 110u8] by {
                assert(seeded_tags().take(9)[x] == seeded_tags()[x]);
            }
            assert(!heuristics.registered(seq![111u8, 112u8, 116u8, 105u8, 111u8, 110u8]));
            assert(heuristics.attr_data@[10]@ =~= zero_table()) by {
                assert forall|x: int| 0 <= x < 256 implies heuristics.attr_data@[10]@[x]
                    == 0 by {
                    assert(heuristics.attr_cell(10, x as u8) == 0);
                }
            }
        }
        let ok9 = heuristics.add_tag("option", "");
        proof {
            assert(ok9);
            assert(heuristics.tags() =~= seeded_tags().take(10));
            assert(seeded_attr_strings()[9] == ("").spec_bytes());
            assert(seed_attr_fold(a0, d0, 9) == seed_attr_fold(
                heuristics.attrs(),
                heuristics.attributes.deep_view(),
                10,
            ));
        }
        proof {
            reveal_strlit("select");
            assert(("select")@ =~= seq!['s', 'e', 'l', 'e', 'c', 't']);
            assert(vstd::utf8::is_ascii_chars(("select")@));
            vstd::utf8::is_ascii_chars_encode_utf8(("select")@);
            assert(("select").spec_bytes() =~= seq![115u8, 101u8, 108u8, 101u8, 99u8, 116u8]);
            assert(crate::html_heuristics::trim_of(seq![115u8, 101u8, 108u8, 101u8, 99u8, 116u8]) == seq![115u8, 101u8, 108u8, 101u8, 99u8, 116u8]);
            assert(crate::html_heuristics::canon_of(("select").spec_bytes()) =~= seq![115u8, 101u8, 108u8, 101u8, 99u8, 116u8]);
            assert forall|x: int| 0 <= x < 10 implies seeded_tags().take(10)[x] != seq![115u8, 101u8, 108u8, 101u8, 99u8, 116u8] by {
                assert(seeded_tags().take(10)[x] == seeded_tags()[x]);
            }
            assert(!heuristics.registered(seq![115u8, 101u8, 108u8, 101u8, 99u8, 116u8]));
            assert(heuristics.attr_data@[11]@ =~= zero_table()) by {
                assert forall|x: int| 0 <= x < 256 implies heuristics.attr_data@[11]@[x]
                    == 0 by {
                    assert(heuristics.attr_cell(11, x as u8) == 0);
                }
            }
        }
        let ok10 = heuristics.add_tag("select", "");
        proof {
            assert(ok10);
            assert(heuristics.tags() =~= seeded_tags().take(11));
            assert(seeded_attr_strings()[10] == ("").spec_bytes());
            assert(seed_attr_fold(a0, d0, 9) == seed_attr_fold(
                heuristics.attrs(),
                heuristics.attributes.deep_view(),
                11,
            ));
        }
        proof {
            reveal_strlit("tr");
            assert(("tr")@ =~= seq!['t', 'r']);
            assert(vstd::utf8::is_ascii_chars(("tr")@));
            vstd::utf8::is_ascii_chars_encode_utf8(("tr")@);
            assert(("tr").spec_bytes() =~= seq![116u8, 114u8]);
            assert(crate::html_heuristics::trim_of(seq![116u8, 114u8]) == seq![116u8, 114u8]);
            assert(crate::html_heuristics::canon_of(("tr").spec_bytes()) =~= seq![116u8, 114u8]);
            assert forall|x: int| 0 <= x < 11 implies seeded_tags().take(11)[x] != seq![116u8, 114u8] by {
                assert(seeded_tags().take(11)[x] == seeded_tags()[x]);
            }
            assert(!heuristics.registered(seq![116u8, 114u8]));
            assert(heuristics.attr_data@[12]@ =~= zero_table()) by {
                assert forall|x: int| 0 <= x < 256 implies heuristics.attr_data@[12]@[x]
                    == 0 by {
                    assert(heuristics.attr_cell(12, x as u8) == 0);
                }
            }
        }
        let ok11 = heuristics.add_tag("tr", "");
        proof {
            assert(ok11);
            assert(heuristics.tags() =~= seeded_tags().take(12));
            assert(seeded_attr_strings()[11] == ("").spec_bytes());
            assert(seed_attr_fold(a0, d0, 9) == seed_attr_fold(
                heuristics.attrs(),
                heuristics.attributes.deep_view(),
                12,
            ));
        }
        proof {
            reveal_strlit("div");
            assert(("div")@ =~= seq!['d', 'i', 'v']);
            assert(vstd::utf8::is_ascii_chars(("div")@));
            vstd::utf8::is_ascii_chars_encode_utf8(("div")@);
            assert(("div").spec_bytes() =~= seq![100u8, 105u8, 118u8]);
            assert(crate::html_heuristics::trim_of(seq![100u8, 105u8, 118u8]) == seq![100u8, 105u8, 118u8]);
            assert(crate::html_heuristics::canon_of(("div").spec_bytes()) =~= seq![100u8, 105u8, 118u8]);
            assert forall|x: int| 0 <= x < 12 implies seeded_tags().take(12)[x] != seq![100u8, 105u8, 118u8] by {
                assert(seeded_tags().take(12)[x] == seeded_tags()[x]);
            }
            assert(!heuristics.registered(seq![100u8, 105u8, 118u8]));
            assert(heuristics.attr_data@[13]@ =~= zero_table()) by {
                assert forall|x: int| 0 <= x < 256 implies heuristics.attr_data@[13]@[x]
                    == 0 by {
                    assert(heuristics.attr_cell(13, x as u8) == 0);
                }
            }
        }
        let ok12 = heuristics.add_tag("div", "class,align");
        proof {
            assert(ok12);
            assert(heuristics.tags() =~= seeded_tags().take(13));
            assert(seeded_attr_strings()[12] == ("class,align").spec_bytes());
            assert(seed_attr_fold(a0, d0, 9) == seed_attr_fold(
                heuristics.attrs(),
                heuristics.attributes.deep_view(),
                13,
            ));
        }
        proof {
            reveal_strlit("img");
            assert(("img")@ =~= seq!['i', 'm', 'g']);
            assert(vstd::utf8::is_ascii_chars(("img")@));
            vstd::utf8::is_ascii_chars_encode_utf8(("img")@);
            assert(("img").spec_bytes() =~= seq![105u8, 109u8, 103u8]);
            assert(crate::html_heuristics::trim_of(seq![105u8, 109u8, 103u8]) == seq![105u8, 109u8, 103u8]);
            assert(crate::html_heuristics::canon_of(("img").spec_bytes()) =~= seq![105u8, 109u8, 103u8]);
            assert forall|x: int| 0 <= x < 13 implies seeded_tags().take(13)[x] != seq![105u8, 109u8, 103u8] by {
                assert(seeded_tags().take(13)[x] == seeded_tags()[x]);
            }
            assert(!heuristics.registered(seq![105u8, 109u8, 103u8]));
            assert(heuristics.attr_data@[14]@ =~= zero_table()) by {
                assert forall|x: int| 0 <= x < 256 implies heuristics.attr_data@[14]@[x]
                    == 0 by {
                    assert(heuristics.attr_cell(14, x as u8) == 0);
                }
            }
        }
        let ok13 = heuristics.add_tag("img", "src,width,height,title,alt");
        proof {
            assert(ok13);
            assert(heuristics.tags() =~= seeded_tags().take(14));
            assert(seeded_attr_strings()[13] == ("src,width,height,title,alt").spec_bytes());
            assert(seed_attr_fold(a0, d0, 9) == seed_attr_fold(
                heuristics.attrs(),
                heuristics.attributes.deep_view(),
                14,
            ));
        }
        proof {
            reveal_strlit("input");
            assert(("input")@ =~= seq!['i', 'n', 'p', 'u', 't']);
            assert(vstd::utf8::is_ascii_chars(("input")@));
            vstd::utf8::is_ascii_chars_encode_utf8(("input")@);
            assert(("input").spec_bytes() =~= seq![105u8, 110u8, 112u8, 117u8, 116u8]);
            assert(crate::html_heuristics::trim_of(seq![105u8, 110u8, 112u8, 117u8, 116u8]) == seq![105u8, 110u8, 112u8, 117u8, 116u8]);
            assert(crate::html_heuristics::canon_of(("input").spec_bytes()) =~= seq![105u8, 110u8, 112u8, 117u8, 116u8]);
            assert forall|x: int| 0 <= x < 14 implies seeded_tags().take(14)[x] != seq![105u8, 110u8, 112u8, 117u8, 116u8] by {
                assert(seeded_tags().take(14)[x] == seeded_tags()[x]);
            }
            assert(!heuristics.registered(seq![105u8, 110u8, 112u8, 117u8, 116u8]));
            assert(heuristics.attr_data@[15]@ =~= zero_table()) by {
                assert forall|x: int| 0 <= x < 256 implies heuristics.attr_data@[15]@[x]
                    == 0 by {
                    assert(heuristics.attr_cell(15, x as u8) == 0);
                }
            }
        }
        let ok14 = heuristics.add_tag("input", "");
        proof {
            assert(ok14);
            assert(heuristics.tags() =~= seeded_tags().take(15));
            assert(seeded_attr_strings()[14] == ("").spec_bytes());
            assert(seed_attr_fold(a0, d0, 9) == seed_attr_fold(
                heuristics.attrs(),
                heuristics.attributes.deep_view(),
                15,
            ));
        }
        proof {
            reveal_strlit("br");
            assert(("br")@ =~= seq!['b', 'r']);
            assert(vstd::utf8::is_ascii_chars(("br")@));
            vstd::utf8::is_ascii_chars_encode_utf8(("br")@);
            assert(("br").spec_bytes() =~= seq![98u8, 114u8]);
            assert(crate::html_heuristics::trim_of(seq![98u8, 114u8]) == seq![98u8, 114u8]);
            assert(crate::html_heuristics::canon_of(("br").spec_bytes()) =~= seq![98u8, 114u8]);
            assert forall|x: int| 0 <= x < 15 implies seeded_tags().take(15)[x] != seq![98u8, 114u8] by {
                assert(seeded_tags().take(15)[x] == seeded_tags()[x]);
            }
            assert(!heuristics.registered(seq![98u8, 114u8]));
            assert(heuristics.attr_data@[16]@ =~= zero_table()) by {
                assert forall|x: int| 0 <= x < 256 implies heuristics.attr_data@[16]@[x]
                    == 0 by {
                    assert(heuristics.attr_cell(16, x as u8) == 0);
                }
            }
        }
        let ok15 = heuristics.add_tag("br", "");
        proof {
            assert(ok15);
            assert(heuristics.tags() =~= seeded_tags().take(16));
            assert(seeded_attr_strings()[15] == ("").spec_bytes());
            assert(seed_attr_fold(a0, d0, 9) == seed_attr_fold(
                heuristics.attrs(),
                heuristics.attributes.deep_view(),
                16,
            ));
        }
        proof {
            reveal_strlit("li");
            assert(("li")@ =~= seq!['l', 'i']);
            assert(vstd::utf8::is_ascii_chars(("li")@));
            vstd::utf8::is_ascii_chars_encode_utf8(("li")@);
            assert(("li").spec_bytes() =~= seq![108u8, 105u8]);
            assert(crate::html_heuristics::trim_of(seq![108u8, 105u8]) == seq![108u8, 105u8]);
            assert(crate::html_heuristics::canon_of(("li").spec_bytes()) =~= seq![108u8, 105u8]);
            assert forall|x: int| 0 <= x < 16 implies seeded_tags().take(16)[x] != seq![108u8, 105u8] by {
                assert(seeded_tags().take(16)[x] == seeded_tags()[x]);
            }
            assert(!heuristics.registered(seq![108u8, 105u8]));
            assert(heuristics.attr_data@[17]@ =~= zero_table()) by {
                assert forall|x: int| 0 <= x < 256 implies heuristics.attr_data@[17]@[x]
                    == 0 by {
                    assert(heuristics.attr_cell(17, x as u8) == 0);
                }
            }
        }
        let ok16 = heuristics.add_tag("li", "");
        proof {
            assert(ok16);
            assert(heuristics.tags() =~= seeded_tags().take(17));
            assert(seeded_attr_strings()[16] == ("").spec_bytes());
            assert(seed_attr_fold(a0, d0, 9) == seed_attr_fold(
                heuristics.attrs(),
                heuristics.attributes.deep_view(),
                17,
            ));
        }
    }

    /// Seeds the tags at positions 17 to 24 of the seeded list.
    #[verifier::rlimit(100)]
    #[verifier::spinoff_prover]
    fn seed_tags_3(heuristics: &mut HtmlHeuristics)
        requires
            old(heuristics).wf(),
            old(heuristics).tags() == seeded_tags().take(17),
        ensures
            final(heuristics).wf(),
            final(heuristics).tags() == seeded_tags().take(25),
            seed_attr_fold(
                old(heuristics).attrs(),
                old(heuristics).attributes.deep_view(),
                17,
            ) == seed_attr_fold(
                final(heuristics).attrs(),
                final(heuristics).attributes.deep_view(),
                25,
            ),
    {
        let ghost a0 = heuristics.attrs();
        let ghost d0 = heuristics.attributes.deep_view();
        proof {
            reveal_strlit("ul");
            assert(("ul")@ =~= seq!['u', 'l']);
            assert(vstd::utf8::is_ascii_chars(("ul")@));
            vstd::utf8::is_ascii_chars_encode_utf8(("ul")@);
            assert(("ul").spec_bytes() =~= seq![117u8, 108u8]);
            assert(crate::html_heuristics::trim_of(seq![117u8, 108u8]) == seq![117u8, 108u8]);
            assert(crate::html_heuristics::canon_of(("ul").spec_bytes()) =~= seq![117u8, 108u8]);
            assert forall|x: int| 0 <= x < 17 implies seeded_tags().take(17)[x] != seq![117u8, 108u8] by {
                assert(seeded_tags().take(17)[x] == seeded_tags()[x]);
            }
            assert(!heuristics.registered(seq![117u8, 108u8]));
            assert(heuristics.attr_data@[18]@ =~= zero_table()) by {
                assert forall|x: int| 0 <= x < 256 implies heuristics.attr_data@[18]@[x]
                    == 0 by {
                    assert(heuristics.attr_cell(18, x as u8) == 0);
                }
            }
        }
        let ok17 = heuristics.add_tag("ul", "");
        proof {
            assert(ok17);
            assert(heuristics.tags() =~= seeded_tags().take(18));
            assert(seeded_attr_strings()[17] == ("").spec_bytes());
            assert(seed_attr_fold(a0, d0, 17) == seed_attr_fold(
                heuristics.attrs(),
                heuristics.attributes.deep_view(),
                18,
            ));
        }
        proof {
            reveal_strlit("ol");
            assert(("ol")@ =~= seq!['o', 'l']);
            assert(vstd::utf8::is_ascii_chars(("ol")@));
            vstd::utf8::is_ascii_chars_encode_utf8(("ol")@);
            assert(("ol").spec_bytes() =~= seq![111u8, 108u8]);
            assert(crate::html_heuristics::trim_of(seq![111u8, 108u8]) == seq![111u8, 108u8]);
            assert(crate::html_heuristics::canon_of(("ol").spec_bytes()) =~= seq![111u8, 108u8]);
            assert forall|x: int| 0 <= x < 18 implies seeded_tags().take(18)[x] != seq![111u8, 108u8] by {
                assert(seeded_tags().take(18)[x] == seeded_tags()[x]);
            }
            assert(!heuristics.registered(seq![111u8, 108u8]));
            assert(heuristics.attr_data@[19]@ =~= zero_table()) by {
                assert forall|x: int| 0 <= x < 256 implies heuristics.attr_data@[19]@[x]
                    == 0 by {
                    assert(heuristics.attr_cell(19, x as u8) == 0);
                }
            }
        }
        let ok18 = heuristics.add_tag("ol", "");
        proof {
            assert(ok18);
            assert(heuristics.tags() =~= seeded_tags().take(19));
            assert(seeded_attr_strings()[18] == ("").spec_bytes());
            assert(seed_attr_fold(a0, d0, 17) == seed_attr_fold(
                heuristics.attrs(),
                heuristics.attributes.deep_view(),
                19,
            ));
        }
        proof {
            reveal_strlit("hr");
            assert(("hr")@ =~= seq!['h', 'r']);
            assert(vstd::utf8::is_ascii_chars(("hr")@));
            vstd::utf8::is_ascii_chars_encode_utf8(("hr")@);
            assert(("hr").spec_bytes() =~= seq![104u8, 114u8]);
            assert(crate::html_heuristics::trim_of(seq![104u8, 114u8]) == seq![104u8, 114u8]);
            assert(crate::html_heuristics::canon_of(("hr").spec_bytes()) =~= seq![104u8, 114u8]);
            assert forall|x: int| 0 <= x < 19 implies seeded_tags().take(19)[x] != seq![104u8, 114u8] by {
                assert(seeded_tags().take(19)[x] == seeded_tags()[x]);
            }
            assert(!heuristics.registered(seq![104u8, 114u8]));
            assert(heuristics.attr_data@[20]@ =~= zero_table()) by {
                assert forall|x: int| 0 <= x < 256 implies heuristics.attr_data@[20]@[x]
                    == 0 by {
                    assert(heuristics.attr_cell(20, x as u8) == 0);
                }
            }
        }
        let ok19 = heuristics.add_tag("hr", "");
        proof {
            assert(ok19);
            assert(heuristics.tags() =~= seeded_tags().take(20));
            assert(seeded_attr_strings()[19] == ("").spec_bytes());
            assert(seed_attr_fold(a0, d0, 17) == seed_attr_fold(
                heuristics.attrs(),
                heuristics.attributes.deep_view(),
                20,
            ));
        }
        proof {
            reveal_strlit("h1");
            assert(("h1")@ =~= seq!['h', '1']);
            assert(vstd::utf8::is_ascii_chars(("h1")@));
            vstd::utf8::is_ascii_chars_encode_utf8(("h1")@);
            assert(("h1").spec_bytes() =~= seq![104u8, 49u8]);
            assert(crate::html_heuristics::trim_of(seq![104u8, 49u8]) == seq![104u8, 49u8]);
            assert(crate::html_heuristics::canon_of(("h1").spec_bytes()) =~= seq![104u8, 49u8]);
            assert forall|x: int| 0 <= x < 20 implies seeded_tags().take(20)[x] != seq![104u8, 49u8] by {
                assert(seeded_tags().take(20)[x] == seeded_tags()[x]);
            }
            assert(!heuristics.registered(seq![104u8, 49u8]));
            assert(heuristics.attr_data@[21]@ =~= zero_table()) by {
                assert forall|x: int| 0 <= x < 256 implies heuristics.attr_data@[21]@[x]
                    == 0 by {
                    assert(heuristics.attr_cell(21, x as u8) == 0);
                }
            }
        }
        let ok20 = heuristics.add_tag("h1", "");
        proof {
            assert(ok20);
            assert(heuristics.tags() =~= seeded_tags().take(21));
            assert(seeded_attr_strings()[20] == ("").spec_bytes());
            assert(seed_attr_fold(a0, d0, 17) == seed_attr_fold(
                heuristics.attrs(),
                heuristics.attributes.deep_view(),
                21,
            ));
        }
        proof {
            reveal_strlit("h2");
            assert(("h2")@ =~= seq!['h', '2']);
            assert(vstd::utf8::is_ascii_chars(("h2")@));
            vstd::utf8::is_ascii_chars_encode_utf8(("h2")@);
            assert(("h2").spec_bytes() =~= seq![104u8, 50u8]);
            assert(crate::html_heuristics::trim_of(seq![104u8, 50u8]) == seq![104u8, 50u8]);
            assert(crate::html_heuristics::canon_of(("h2").spec_bytes()) =~= seq![104u8, 50u8]);
            assert forall|x: int| 0 <= x < 21 implies seeded_tags().take(21)[x] != seq![104u8, 50u8] by {
                assert(seeded_tags().take(21)[x] == seeded_tags()[x]);
            }
            assert(!heuristics.registered(seq![104u8, 50u8]));
            assert(heuristics.attr_data@[22]@ =~= zero_table()) by {
                assert forall|x: int| 0 <= x < 256 implies heuristics.attr_data@[22]@[x]
                    == 0 by {
                    assert(heuristics.attr_cell(22, x as u8) == 0);
                }
            }
        }
        let ok21 = heuristics.add_tag("h2", "");
        proof {
            assert(ok21);
            assert(heuristics.tags() =~= seeded_tags().take(22));
            assert(seeded_attr_strings()[21] == ("").spec_bytes());
            assert(seed_attr_fold(a0, d0, 17) == seed_attr_fold(
                heuristics.attrs(),
                heuristics.attributes.deep_view(),
                22,
            ));
        }
        proof {
            reveal_strlit("h3");
            assert(("h3")@ =~= seq!['h', '3']);
            assert(vstd::utf8::is_ascii_chars(("h3")@));
            vstd::utf8::is_ascii_chars_encode_utf8(("h3")@);
            assert(("h3").spec_bytes() =~= seq![104u8, 51u8]);
            assert(crate::html_heuristics::trim_of(seq![104u8, 51u8]) == seq![104u8, 51u8]);
            assert(crate::html_heuristics::canon_of(("h3").spec_bytes()) =~= seq![104u8, 51u8]);
            assert forall|x: int| 0 <= x < 22 implies seeded_tags().take(22)[x] != seq![104u8, 51u8] by {
                assert(seeded_tags().take(22)[x] == seeded_tags()[x]);
            }
            assert(!heuristics.registered(seq![104u8, 51u8]));
            assert(heuristics.attr_data@[23]@ =~= zero_table()) by {
                assert forall|x: int| 0 <= x < 256 implies heuristics.attr_data@[23]@[x]
                    == 0 by {
                    assert(heuristics.attr_cell(23, x as u8) == 0);
                }
            }
        }
        let ok22 = heuristics.add_tag("h3", "");
        proof {
            assert(ok22);
            assert(heuristics.tags() =~= seeded_tags().take(23));
            assert(seeded_attr_strings()[22] == ("").spec_bytes());
            assert(seed_attr_fold(a0, d0, 17) == seed_attr_fold(
                heuristics.attrs(),
                heuristics.attributes.deep_view(),
                23,
            ));
        }
        proof {
            reveal_strlit("h4");
            assert(("h4")@ =~= seq!['h', '4']);
            assert(vstd::utf8::is_ascii_chars(("h4")@));
            vstd::utf8::is_ascii_chars_encode_utf8(("h4")@);
            assert(("h4").spec_bytes() =~= seq![104u8, 52u8]);
            assert(crate::html_heuristics::trim_of(seq![104u8, 52u8]) == seq![104u8, 52u8]);
            assert(crate::html_heuristics::canon_of(("h4").spec_bytes()) =~= seq![104u8, 52u8]);
            assert forall|x: int| 0 <= x < 23 implies seeded_tags().take(23)[x] != seq![104u8, 52u8] by {
                assert(seeded_tags().take(23)[x] == seeded_tags()[x]);
            }
            assert(!heuristics.registered(seq![104u8, 52u8]));
            assert(heuristics.attr_data@[24]@ =~= zero_table()) by {
                assert forall|x: int| 0 <= x < 256 implies heuristics.attr_data@[24]@[x]
                    == 0 by {
                    assert(heuristics.attr_cell(24, x as u8) == 0);
                }
            }
        }
        let ok23 = heuristics.add_tag("h4", "");
        proof {
            assert(ok23);
            assert(heuristics.tags() =~= seeded_tags().take(24));
            assert(seeded_attr_strings()[23] == ("").spec_bytes());
            assert(seed_attr_fold(a0, d0, 17) == seed_attr_fold(
                heuristics.attrs(),
                heuristics.attributes.deep_view(),
                24,
            ));
        }
        proof {
            reveal_strlit("h5");
            assert(("h5")@ =~= seq!['h', '5']);
            assert(vstd::utf8::is_ascii_chars(("h5")@));
            vstd::utf8::is_ascii_chars_encode_utf8(("h5")@);
            assert(("h5").spec_bytes() =~= seq![104u8, 53u8]);
            assert(crate::html_heuristics::trim_of(seq![104u8, 53u8]) == seq![104u8, 53u8]);
            assert(crate::html_heuristics::canon_of(("h5").spec_bytes()) =~= seq![104u8, 53u8]);
            assert forall|x: int| 0 <= x < 24 implies seeded_tags().take(24)[x] != seq![104u8, 53u8] by {
                assert(seeded_tags().take(24)[x] == seeded_tags()[x]);
            }
            assert(!heuristics.registered(seq![104u8, 53u8]));
            assert(heuristics.attr_data@[25]@ =~= zero_table()) by {
                assert forall|x: int| 0 <= x < 256 implies heuristics.attr_data@[25]@[x]
                    == 0 by {
                    assert(heuristics.attr_cell(25, x as u8) == 0);
                }
            }
        }
        let ok24 = heuristics.add_tag("h5", "");
        proof {
            assert(ok24);
            assert(heuristics.tags() =~= seeded_tags().take(25));
            assert(seeded_attr_strings()[24] == ("").spec_bytes());
            assert(seed_attr_fold(a0, d0, 17) == seed_attr_fold(
                heuristics.attrs(),
                heuristics.attributes.deep_view(),
                25,
            ));
        }
    }

    /// Seeds the tags at positions 25 to 32 of the seeded list.
    #[verifier::rlimit(100)]
    #[verifier::spinoff_prover]
    fn seed_tags_4(heuristics: &mut HtmlHeuristics)
        requires
            old(heuristics).wf(),
            old(heuristics).tags() == seeded_tags().take(25),
        ensures
            final(heuristics).wf(),
            final(heuristics).tags() == seeded_tags().take(33),
            seed_attr_fold(
                old(heuristics).attrs(),
                old(heuristics).attributes.deep_view(),
                25,
            ) == seed_attr_fold(
                final(heuristics).attrs(),
                final(heuristics).attributes.deep_view(),
                33,
            ),
    {
        let ghost a0 = heuristics.attrs();
        let ghost d0 = heuristics.attributes.deep_view();
        proof {
            reveal_strlit("h6");
            assert(("h6")@ =~= seq!['h', '6']);
            assert(vstd::utf8::is_ascii_chars(("h6")@));
            vstd::utf8::is_ascii_chars_encode_utf8(("h6")@);
            assert(("h6").spec_bytes() =~= seq![104u8, 54u8]);
            assert(crate::html_heuristics::trim_of(seq![104u8, 54u8]) == seq![104u8, 54u8]);
            assert(crate::html_heuristics::canon_of(("h6").spec_bytes()) =~= seq![104u8, 54u8]);
            assert forall|x: int| 0 <= x < 25 implies seeded_tags().take(25)[x] != seq![104u8, 54u8] by {
                assert(seeded_tags().take(25)[x] == seeded_tags()[x]);
            }
            assert(!heuristics.registered(seq![104u8, 54u8]));
            assert(heuristics.attr_data@[26]@ =~= zero_table()) by {
                assert forall|x: int| 0 <= x < 256 implies heuristics.attr_data@[26]@[x]
                    == 0 by {
                    assert(heuristics.attr_cell(26, x as u8) == 0);
                }
            }
        }
        let ok25 = heuristics.add_tag("h6", "");
        proof {
            assert(ok25);
            assert(heuristics.tags() =~= seeded_tags().take(26));
            assert(seeded_attr_strings()[25] == ("").spec_bytes());
            assert(seed_attr_fold(a0, d0, 25) == seed_attr_fold(
                heuristics.attrs(),
                heuristics.attributes.deep_view(),
                26,
            ));
        }
        proof {
            reveal_strlit("font");
            assert(("font")@ =~= seq!['f', 'o', 'n', 't']);
            assert(vstd::utf8::is_ascii_chars(("font")@));
            vstd::utf8::is_ascii_chars_encode_utf8(("font")@);
            assert(("font").spec_bytes() =~= seq![102u8, 111u8, 110u8, 116u8]);
            assert(crate::html_heuristics::trim_of(seq![102u8, 111u8, 110u8, 116u8]) == seq![102u8, 111u8, 110u8, 116u8]);
            assert(crate::html_heuristics::canon_of(("font").spec_bytes()) =~= seq![102u8, 111u8, 110u8, 116u8]);
            assert forall|x: int| 0 <= x < 26 implies seeded_tags().take(26)[x] != seq![102u8, 111u8, 110u8, 116u8] by {
                assert(seeded_tags().take(26)[x] == seeded_tags()[x]);
            }
            assert(!heuristics.registered(seq![102u8, 111u8, 110u8, 116u8]));
            assert(heuristics.attr_data@[27]@ =~= zero_table()) by {
                assert forall|x: int| 0 <= x < 256 implies heuristics.attr_data@[27]@[x]
                    == 0 by {
                    assert(heuristics.attr_cell(27, x as u8) == 0);
                }
            }
        }
        let ok26 = heuristics.add_tag("font", "size,color");
        proof {
            assert(ok26);
            assert(heuristics.tags() =~= seeded_tags().take(27));
            assert(seeded_attr_strings()[26] == ("size,color").spec_bytes());
            assert(seed_attr_fold(a0, d0, 25) == seed_attr_fold(
                heuristics.attrs(),
                heuristics.attributes.deep_view(),
                27,
            ));
        }
        proof {
            reveal_strlit("meta");
            assert(("meta")@ =~= seq!['m', 'e', 't', 'a']);
            assert(vstd::utf8::is_ascii_chars(("meta")@));
            vstd::utf8::is_ascii_chars_encode_utf8(("meta")@);
            assert(("meta").spec_bytes() =~= seq![109u8, 101u8, 116u8, 97u8]);
            assert(crate::html_heuristics::trim_of(seq![109u8, 101u8, 116u8, 97u8]) == seq![109u8, 101u8, 116u8, 97u8]);
            assert(crate::html_heuristics::canon_of(("meta").spec_bytes()) =~= seq![109u8, 101u8, 116u8, 97u8]);
            assert forall|x: int| 0 <= x < 27 implies seeded_tags().take(27)[x] != seq![109u8, 101u8, 116u8, 97u8] by {
                assert(seeded_tags().take(27)[x] == seeded_tags()[x]);
            }
            assert(!heuristics.registered(seq![109u8, 101u8, 116u8, 97u8]));
            assert(heuristics.attr_data@[28]@ =~= zero_table()) by {
                assert forall|x: int| 0 <= x < 256 implies heuristics.attr_data@[28]@[x]
                    == 0 by {
                    assert(heuristics.attr_cell(28, x as u8) == 0);
                }
            }
        }
        let ok27 = heuristics.add_tag("meta", "name,content,http-equiv");
        proof {
            assert(ok27);
            assert(heuristics.tags() =~= seeded_tags().take(28));
            assert(seeded_attr_strings()[27] == ("name,content,http-equiv").spec_bytes());
            assert(seed_attr_fold(a0, d0, 25) == seed_attr_fold(
                heuristics.attrs(),
                heuristics.attributes.deep_view(),
                28,
            ));
        }
        proof {
            reveal_strlit("base");
            assert(("base")@ =~= seq!['b', 'a', 's', 'e']);
            assert(vstd::utf8::is_ascii_chars(("base")@));
            vstd::utf8::is_ascii_chars_encode_utf8(("base")@);
            assert(("base").spec_bytes() =~= seq![98u8, 97u8, 115u8, 101u8]);
            assert(crate::html_heuristics::trim_of(seq![98u8, 97u8, 115u8, 101u8]) == seq![98u8, 97u8, 115u8, 101u8]);
            assert(crate::html_heuristics::canon_of(("base").spec_bytes()) =~= seq![98u8, 97u8, 115u8, 101u8]);
            assert forall|x: int| 0 <= x < 28 implies seeded_tags().take(28)[x] != seq![98u8, 97u8, 115u8, 101u8] by {
                assert(seeded_tags().take(28)[x] == seeded_tags()[x]);
            }
            assert(!heuristics.registered(seq![98u8, 97u8, 115u8, 101u8]));
            assert(heuristics.attr_data@[29]@ =~= zero_table()) by {
                assert forall|x: int| 0 <= x < 256 implies heuristics.attr_data@[29]@[x]
                    == 0 by {
                    assert(heuristics.attr_cell(29, x as u8) == 0);
                }
            }
        }
        let ok28 = heuristics.add_tag("base", "href");
        proof {
            assert(ok28);
            assert(heuristics.tags() =~= seeded_tags().take(29));
            assert(seeded_attr_strings()[28] == ("href").spec_bytes());
            assert(seed_attr_fold(a0, d0, 25) == seed_attr_fold(
                heuristics.attrs(),
                heuristics.attributes.deep_view(),
                29,
            ));
        }
        proof {
            reveal_strlit("script");
            assert(("script")@ =~= seq!['s', 'c', 'r', 'i', 'p', 't']);
            assert(vstd::utf8::is_ascii_chars(("script")@));
            vstd::utf8::is_ascii_chars_encode_utf8(("script")@);
            assert(("script").spec_bytes() =~= seq![115u8, 99u8, 114u8, 105u8, 112u8, 116u8]);
            assert(crate::html_heuristics::trim_of(seq![115u8, 99u8, 114u8, 105u8, 112u8, 116u8]) == seq![115u8, 99u8, 114u8, 105u8, 112u8, 116u8]);
            assert(crate::html_heuristics::canon_of(("script").spec_bytes()) =~= seq![115u8, 99u8, 114u8, 105u8, 112u8, 116u8]);
            assert forall|x: int| 0 <= x < 29 implies seeded_tags().take(29)[x] != seq![115u8, 99u8, 114u8, 105u8, 112u8, 116u8] by {
                assert(seeded_tags().take(29)[x] == seeded_tags()[x]);
            }
            assert(!heuristics.registered(seq![115u8, 99u8, 114u8, 105u8, 112u8, 116u8]));
            assert(heuristics.attr_data@[30]@ =~= zero_table()) by {
                assert forall|x: int| 0 <= x < 256 implies heuristics.attr_data@[30]@[x]
                    == 0 by {
                    assert(heuristics.attr_cell(30, x as u8) == 0);
                }
            }
        }
        let ok29 = heuristics.add_tag("script", "");
        proof {
            assert(ok29);
            assert(heuristics.tags() =~= seeded_tags().take(30));
            assert(seeded_attr_strings()[29] == ("").spec_bytes());
            assert(seed_attr_fold(a0, d0, 25) == seed_attr_fold(
                heuristics.attrs(),
                heuristics.attributes.deep_view(),
                30,
            ));
        }
        proof {
            reveal_strlit("style");
            assert(("style")@ =~= seq!['s', 't', 'y', 'l', 'e']);
            assert(vstd::utf8::is_ascii_chars(("style")@));
            vstd::utf8::is_ascii_chars_encode_utf8(("style")@);
            assert(("style").spec_bytes() =~= seq![115u8, 116u8, 121u8, 108u8, 101u8]);
            assert(crate::html_heuristics::trim_of(seq![115u8, 116u8, 121u8, 108u8, 101u8]) == seq![115u8, 116u8, 121u8, 108u8, 101u8]);
            assert(crate::html_heuristics::canon_of(("style").spec_bytes()) =~= seq![115u8, 116u8, 121u8, 108u8, 101u8]);
            assert forall|x: int| 0 <= x < 30 implies seeded_tags().take(30)[x] != seq![115u8, 116u8, 121u8, 108u8, 101u8] by {
                assert(seeded_tags().take(30)[x] == seeded_tags()[x]);
            }
            assert(!heuristics.registered(seq![115u8, 116u8, 121u8, 108u8, 101u8]));
            assert(heuristics.attr_data@[31]@ =~= zero_table()) by {
                assert forall|x: int| 0 <= x < 256 implies heuristics.attr_data@[31]@[x]
                    == 0 by {
                    assert(heuristics.attr_cell(31, x as u8) == 0);
                }
            }
        }
        let ok30 = heuristics.add_tag("style", "");
        proof {
            assert(ok30);
            assert(heuristics.tags() =~= seeded_tags().take(31));
            assert(seeded_attr_strings()[30] == ("").spec_bytes());
            assert(seed_attr_fold(a0, d0, 25) == seed_attr_fold(
                heuristics.attrs(),
                heuristics.attributes.deep_view(),
                31,
            ));
        }
        proof {
            reveal_strlit("html");
            assert(("html")@ =~= seq!['h', 't', 'm', 'l']);
            assert(vstd::utf8::is_ascii_chars(("html")@));
            vstd::utf8::is_ascii_chars_encode_utf8(("html")@);
            assert(("html").spec_bytes() =~= seq![104u8, 116u8, 109u8, 108u8]);
            assert(crate::html_heuristics::trim_of(seq![104u8, 116u8, 109u8, 108u8]) == seq![104u8, 116u8, 109u8, 108u8]);
            assert(crate::html_heuristics::canon_of(("html").spec_bytes()) =~= seq![104u8, 116u8, 109u8, 108u8]);
            assert forall|x: int| 0 <= x < 31 implies seeded_tags().take(31)[x] != seq![104u8, 116u8, 109u8, 108u8] by {
                assert(seeded_tags().take(31)[x] == seeded_tags()[x]);
            }
            assert(!heuristics.registered(seq![104u8, 116u8, 109u8, 108u8]));
            assert(heuristics.attr_data@[32]@ =~= zero_table()) by {
                assert forall|x: int| 0 <= x < 256 implies heuristics.attr_data@[32]@[x]
                    == 0 by {
                    assert(heuristics.attr_cell(32, x as u8) == 0);
                }
            }
        }
        let ok31 = heuristics.add_tag("html", "");
        proof {
            assert(ok31);
            assert(heuristics.tags() =~= seeded_tags().take(32));
            assert(seeded_attr_strings()[31] == ("").spec_bytes());
            assert(seed_attr_fold(a0, d0, 25) == seed_attr_fold(
                heuristics.attrs(),
                heuristics.attributes.deep_view(),
                32,
            ));
        }
        proof {
            reveal_strlit("body");
            assert(("body")@ =~= seq!['b', 'o', 'd', 'y']);
            assert(vstd::utf8::is_ascii_chars(("body")@));
            vstd::utf8::is_ascii_chars_encode_utf8(("body")@);
            assert(("body").spec_bytes() =~= seq![98u8, 111u8, 100u8, 121u8]);
            assert(crate::html_heuristics::trim_of(seq![98u8, 111u8, 100u8, 121u8]) == seq![98u8, 111u8, 100u8, 121u8]);
            assert(crate::html_heuristics::canon_of(("body").spec_bytes()) =~= seq![98u8, 111u8, 100u8, 121u8]);
            assert forall|x: int| 0 <= x < 32 implies seeded_tags().take(32)[x] != seq![98u8, 111u8, 100u8, 121u8] by {
                assert(seeded_tags().take(32)[x] == seeded_tags()[x]);
            }
            assert(!heuristics.registered(seq![98u8, 111u8, 100u8, 121u8]));
            assert(heuristics.attr_data@[33]@ =~= zero_table()) by {
                assert forall|x: int| 0 <= x < 256 implies heuristics.attr_data@[33]@[x]
                    == 0 by {
                    assert(heuristics.attr_cell(33, x as u8) == 0);
                }
            }
        }
        let ok32 = heuristics.add_tag("body", "");
        proof {
            assert(ok32);
            assert(heuristics.tags() =~= seeded_tags().take(33));
            assert(seeded_attr_strings()[32] == ("").spec_bytes());
            assert(seed_attr_fold(a0, d0, 25) == seed_attr_fold(
                heuristics.attrs(),
                heuristics.attributes.deep_view(),
                33,
            ));
        }
    }

    /// Seeds a fresh heuristics engine with common HTML tags and their most
    /// frequent attributes; the most likely tags come first, since for a
    /// shared two-byte key only the first registered name wins the fast
    /// path. Afterwards the table holds exactly the seeded canonical names,
    /// and the attribute lists are the fold of each tag's comma-separated
    /// names in registration order.
    pub fn init_heuristics(heuristics: &mut HtmlHeuristics)
        requires
            old(heuristics).wf(),
            old(heuristics).tags() == Seq::<Seq<u8>>::empty(),
        ensures
            final(heuristics).wf(),
            final(heuristics).tags() == seeded_tags(),
            seed_attr_fold(old(heuristics).attrs(), old(heuristics).attributes.deep_view(), 0)
                == (final(heuristics).attrs(), final(heuristics).attributes.deep_view()),
    {
        proof {
            assert(seeded_tags().take(0) =~= Seq::<Seq<u8>>::empty());
        }
        Self::seed_tags_1(heuristics);
        Self::seed_tags_2(heuristics);
        Self::seed_tags_3(heuristics);
        Self::seed_tags_4(heuristics);
        proof {
            assert(seeded_tags().take(33) =~= seeded_tags());
            assert(seed_attr_fold(
                heuristics.attrs(),
                heuristics.attributes.deep_view(),
                33,
            ) == (heuristics.attrs(), heuristics.attributes.deep_view()));
        }
    }

    /// Assigns the byte buffer to parse and rewinds the scanner.
    pub fn init(&mut self, html: Vec<u8>)
        requires
            old(self).wf(),
        ensures
            final(self).wf(),
            final(self).html_bytes == html,
            final(self).current_position == 0,
            final(self).data_length == html@.len(),
            !final(self).in_script,
    {
        self.data_length = html.len();
        self.html_bytes = html;
        self.current_position = 0;
        self.in_script = false;
    }

    /// Sets the character encoding, by its registry label, used to turn
    /// bytes into text from now on; an unknown label is refused and the old
    /// codec is kept.
    pub fn set_encoding(&mut self, label: &str) -> (r: bool)
        requires
            old(self).wf(),
        ensures
            final(self).wf(),
            r == crate::dynamic_string::label_known(label@),
            r ==> final(self).text.enc_spec() == Option::Some(label@),
            !r ==> final(self).text.enc_spec() == old(self).text.enc_spec(),
            final(self).html_bytes == old(self).html_bytes,
            final(self).current_position == old(self).current_position,
    {
        let ok = self.text.set_encoding(label);
        if ok {
            self.encoding = label.to_owned();
        }
        ok
    }


    /// Scans one attribute at `i` (which holds a name byte): the lower-cased
    /// name, the decoded value (empty without `=`), the source quote or
    /// zero, and the position to resume at. The chunk is not touched.
    #[verifier::rlimit(100)]
    #[verifier::spinoff_prover]
    fn scan_one_attr(&mut self, i: usize) -> (r: (usize, Vec<u8>, String, u8))
        requires
            old(self).wf(),
            i < old(self).html_bytes@.len(),
            is_name_byte(old(self).html_bytes@[i as int]),
        ensures
            final(self).wf(),
            Self::frame_fixed(old(self), final(self)),
            final(self).chunk == old(self).chunk,
            final(self).current_position == old(self).current_position,
            final(self).in_script == old(self).in_script,
            i < r.0 <= old(self).html_bytes@.len(),
            ({
                let s = old(self).html_bytes@;
                let enc = old(self).text.enc_spec();
                let mini = old(self).decode_mini_entities;
                let rem = tag_scan(s, i as int, false, enc, mini);
                let item = (r.1@, r.2@, r.3);
                let rest = tag_scan(s, r.0 as int, false, enc, mini);
                (rem.0 == seq![item] + rest.0 && rem.1 == rest.1 && tag_end(s, i as int)
                    == tag_end(s, r.0 as int)) || (rem.0 == seq![item] && rem.1 == false && r.0
                    == s.len() && tag_end(s, i as int) == s.len())
            }),
    {
        let ghost sv = self.html_bytes@;
        let n = self.html_bytes.len();
        let mini0 = self.decode_mini_entities;
        let ghost enc = self.text.enc_spec();
        let mut i = i;
    // the attribute name
        let astart = i;
        let mut aend: usize = i;
        let mut aname: Vec<u8> = Vec::new();
        while aend < n && name_byte(self.html_bytes[aend])
            invariant
                astart <= aend <= n,
                n == sv.len(),
                sv == self.html_bytes@,
                tag_end(sv, astart as int) == tag_end(sv, aend as int),
                scan_name(sv, astart as int) == scan_name(sv, aend as int),
                aname@ =~= lc_seq(sv.subrange(astart as int, aend as int)),
            decreases n - aend,
        {
            aname.push(lower_byte(self.html_bytes[aend]));
            aend += 1;
            proof {
                assert(aname@ =~= lc_seq(sv.subrange(astart as int, aend as int)));
            }
        }
        proof {
            assert(scan_name(sv, aend as int) == aend);
        }
        i = aend;
        // optional '=' and value
        let mut ws: usize = i;
        while ws < n && is_whitespace(self.html_bytes[ws])
            invariant
                i <= ws <= n,
                n == sv.len(),
                sv == self.html_bytes@,
                tag_end(sv, i as int) == tag_end(sv, ws as int),
                scan_ws(sv, i as int) == scan_ws(sv, ws as int),
            decreases n - ws,
        {
            ws += 1;
        }
        proof {
            assert(scan_ws(sv, ws as int) == ws);
        }
        let mut value = String::new();
        let mut quote: u8 = 0;
        if ws < n && self.html_bytes[ws] == 61 {
            // '='
            let mut v: usize = ws + 1;
            proof {
                assert(tag_end(sv, ws as int) == tag_end(sv, ws as int + 1));
            }
            while v < n && is_whitespace(self.html_bytes[v])
                invariant
                    ws + 1 <= v <= n,
                    n == sv.len(),
                    sv == self.html_bytes@,
                    tag_end(sv, ws as int + 1) == tag_end(sv, v as int),
                    scan_ws(sv, ws as int + 1) == scan_ws(sv, v as int),
                decreases n - v,
            {
                v += 1;
            }
            proof {
                assert(scan_ws(sv, v as int) == v);
            }
            if v < n && (self.html_bytes[v] == 34 || self.html_bytes[v] == 39) {
                let q = self.html_bytes[v];
                quote = q;
                let mut vend: usize = v + 1;
                while vend < n && self.html_bytes[vend] != q
                    invariant
                        v + 1 <= vend <= n,
                        n == sv.len(),
                        sv == self.html_bytes@,
                        find_byte(sv, v as int + 1, q) == find_byte(sv, vend as int, q),
                    decreases n - vend,
                {
                    vend += 1;
                }
                proof {
                    assert(find_byte(sv, vend as int, q) == vend);
                    assert(tag_end(sv, v as int) == (if find_byte(sv, v as int + 1, q)
                        >= sv.len() {
                        sv.len() as int
                    } else {
                        tag_end(sv, find_byte(sv, v as int + 1, q) + 1)
                    }));
                }
                self.text.clear();
                feed_entities(&mut self.text, self.html_bytes.as_slice(), v + 1, vend, mini0);
                self.text.flush();
                value = self.text.string().clone();
                proof {
                    assert(value@ == assembled_text(
                        enc,
                        crate::tag_parser::assembled_info(
                            sv,
                            v as int + 1,
                            vend as int,
                            enc,
                            mini0,
                        ).0,
                    ));
                }
                if vend >= n {
                    i = n;
                } else {
                    i = vend + 1;
                }
            } else {
                // unquoted value: runs to whitespace, '>', or a quote
                let mut vend: usize = v;
                while vend < n && self.html_bytes[vend] != 62 && self.html_bytes[vend] != 34
                    && self.html_bytes[vend] != 39 && !is_whitespace(self.html_bytes[vend])
                    invariant
                        v <= vend <= n,
                        n == sv.len(),
                        sv == self.html_bytes@,
                        tag_end(sv, v as int) == tag_end(sv, vend as int),
                        scan_plain(sv, v as int) == scan_plain(sv, vend as int),
                    decreases n - vend,
                {
                    vend += 1;
                }
                proof {
                    assert(scan_plain(sv, vend as int) == vend);
                }
                self.text.clear();
                feed_entities(&mut self.text, self.html_bytes.as_slice(), v, vend, mini0);
                self.text.flush();
                value = self.text.string().clone();
                proof {
                    assert(value@ == assembled_text(
                        enc,
                        crate::tag_parser::assembled_info(
                            sv,
                            v as int,
                            vend as int,
                            enc,
                            mini0,
                        ).0,
                    ));
                }
                i = vend;
            }
        } else {
            i = ws;
        }
        let item_i = i;
        (item_i, aname, value, quote)
    }

    /// Walks a tag's attribute region from `ne` to the closing `>` (or the
    /// end of a truncated tag): records the attributes — lower-cased name,
    /// decoded value, source quote — into the reused chunk up to the
    /// parameter bound, and reports the position past the tag and whether a
    /// `/` stood last before the `>`.
    #[verifier::rlimit(100)]
    #[verifier::spinoff_prover]
    fn scan_attrs(&mut self, ne: usize) -> (r: (usize, bool))
        requires
            old(self).wf(),
            ne <= old(self).html_bytes@.len(),
            old(self).chunk.params_count == 0,
        ensures
            scan_frame(old(self), final(self)),
            r.0 as int == tag_end(old(self).html_bytes@, ne as int),
            ne <= r.0 <= old(self).html_bytes@.len(),
            ({
                let scan = tag_scan(
                    old(self).html_bytes@,
                    ne as int,
                    false,
                    old(self).text.enc_spec(),
                    old(self).decode_mini_entities,
                );
                &&& r.1 == scan.1
                &&& params_match(&final(self).chunk, scan.0)
            }),
    {
        let ghost sv = self.html_bytes@;
        let n = self.html_bytes.len();
        let mini0 = self.decode_mini_entities;
        let ghost enc = self.text.enc_spec();
        let ghost full = tag_scan(sv, ne as int, false, enc, mini0);
        let ghost mut walked: Seq<(Seq<u8>, Seq<char>, u8)> = Seq::empty();
        let mut i: usize = ne;
        let mut last_slash: bool = false;
        let mut solo: bool = false;
        proof {
            assert(full.0 =~= walked + tag_scan(sv, i as int, last_slash, enc, mini0).0);
        }
        loop
            invariant_except_break
                ne <= i <= n,
                n == sv.len(),
                sv == self.html_bytes@,
                tag_end(sv, ne as int) == tag_end(sv, i as int),
                scan_frame(old(self), self),
                !solo,
                mini0 == self.decode_mini_entities,
                enc == self.text.enc_spec(),
                full == tag_scan(sv, ne as int, false, enc, mini0),
                ({
                    let rem = tag_scan(sv, i as int, last_slash, enc, mini0);
                    full.0 == walked + rem.0 && full.1 == rem.1
                }),
                params_match(&self.chunk, walked),
            ensures
                n == sv.len(),
                sv == self.html_bytes@,
                scan_frame(old(self), self),
                ne <= i <= n,
                i as int == tag_end(sv, ne as int),
                full == tag_scan(sv, ne as int, false, enc, mini0),
                full.0 == walked,
                full.1 == solo,
                params_match(&self.chunk, walked),
            decreases n - i,
        {
            let ghost rem = tag_scan(sv, i as int, last_slash, enc, mini0);
            if i >= n {
                proof {
                    assert(tag_end(sv, i as int) == n);
                    assert(rem == (Seq::<(Seq<u8>, Seq<char>, u8)>::empty(), false));
                    assert(full.0 =~= walked);
                }
                break ;
            }
            let b = self.html_bytes[i];
            if b == 62 {
                proof {
                    assert(tag_end(sv, i as int) == i + 1);
                    assert(rem == (Seq::<(Seq<u8>, Seq<char>, u8)>::empty(), last_slash));
                    assert(full.0 =~= walked);
                }
                solo = last_slash;
                i += 1;
                break ;
            }
            if b == 34 || b == 39 {
                // a stray quoted stretch: skip it whole
                let mut j: usize = i + 1;
                while j < n && self.html_bytes[j] != b
                    invariant
                        i + 1 <= j <= n,
                        n == sv.len(),
                        sv == self.html_bytes@,
                        find_byte(sv, i as int + 1, b) == find_byte(sv, j as int, b),
                    decreases n - j,
                {
                    j += 1;
                }
                proof {
                    assert(find_byte(sv, j as int, b) == j);
                }
                if j >= n {
                    proof {
                        assert(rem == (Seq::<(Seq<u8>, Seq<char>, u8)>::empty(), false));
                    }
                    i = n;
                } else {
                    proof {
                        assert(rem == tag_scan(sv, j as int + 1, false, enc, mini0));
                    }
                    i = j + 1;
                }
                last_slash = false;
                continue ;
            }
            if b == 47 {
                last_slash = true;
                i += 1;
                continue ;
            }
            if is_whitespace(b) {
                i += 1;
                continue ;
            }
            if !name_byte(b) {
                last_slash = false;
                i += 1;
                continue ;
            }
            // an attribute: name, optional value
            proof {
                assert(rem == tag_scan(sv, i as int, false, enc, mini0));
            }
            last_slash = false;
            let one = self.scan_one_attr(i);
            let aname = one.1;
            let value = one.2;
            let quote = one.3;
            i = one.0;
            let ghost item = (aname@, value@, quote);
            proof {
                assert((rem.0 == seq![item] + tag_scan(sv, i as int, false, enc, mini0).0 && rem.1
                    == tag_scan(sv, i as int, false, enc, mini0).1) || (rem.0 == seq![item]
                    && rem.1 == false && i == n));
            }
            let ghost pre_names = self.chunk.names_spec();
            let ghost pre_values = self.chunk.values_spec();
            let ghost pre_chars = self.chunk.param_chars@;
            let ghost pre_count = self.chunk.params_count;
            let ghost wold = walked;
            if self.chunk.params_count < crate::html_chunk::MAX_PARAMS {
                let aname_s = latin1_string(aname.as_slice());
                self.chunk.param_names.push(aname_s);
                self.chunk.param_values.push(value);
                self.chunk.param_chars.push(quote);
                self.chunk.params_count += 1;
                proof {
                    assert(self.chunk.names_spec() =~= pre_names.push(latin1_seq(item.0)));
                    assert(self.chunk.values_spec() =~= pre_values.push(item.1));
                    assert(self.chunk.param_chars@ =~= pre_chars.push(item.2));
                }
            }
            proof {
                walked = wold.push(item);
                assert(full.0 =~= walked + tag_scan(sv, i as int, false, enc, mini0).0);
                assert forall|k: int|
                    0 <= k < self.chunk.params_count implies #[trigger] self.chunk.names_spec()[k]
                        == latin1_seq(walked[k].0) && self.chunk.values_spec()[k] == walked[k].1
                        && self.chunk.param_chars@[k] == walked[k].2 by {
                    if k < pre_count as int {
                        assert(walked[k] == wold[k]);
                        assert(self.chunk.names_spec()[k] == pre_names[k]);
                        assert(self.chunk.values_spec()[k] == pre_values[k]);
                        assert(self.chunk.param_chars@[k] == pre_chars[k]);
                    } else {
                        assert(k == pre_count as int);
                        assert(walked[k] == item);
                    }
                }
                assert(params_match(&self.chunk, walked));
                assert(full.0 == walked + tag_scan(sv, i as int, false, enc, mini0).0);
                assert(full.1 == tag_scan(sv, i as int, false, enc, mini0).1);
                assert(tag_end(sv, ne as int) == tag_end(sv, i as int));
            }
        }
        proof {
            assert(walked =~= full.0);
        }
        (i, solo)
    }

    /// Scans the tag name starting at `nstart`, lower-casing on read; on a
    /// confirmed heuristics hit the canonical name string is reused instead
    /// of built afresh. Returns the position after the name and whether the
    /// name is the script marker.
    #[verifier::rlimit(100)]
    #[verifier::spinoff_prover]
    fn scan_tag_name(&mut self, nstart: usize) -> (r: (usize, bool))
        requires
            old(self).wf(),
            nstart <= old(self).html_bytes@.len(),
        ensures
            final(self).wf(),
            Self::frame_fixed(old(self), final(self)),
            final(self).current_position == old(self).current_position,
            final(self).in_script == old(self).in_script,
            final(self).chunk == (HtmlChunk { tag: final(self).chunk.tag, ..old(self).chunk }),
            final(self).chunk.tag@ == latin1_seq(tag_name_at(old(self).html_bytes@, nstart as int)),
            r.0 as int == scan_name(old(self).html_bytes@, nstart as int),
            nstart <= r.0 <= old(self).html_bytes@.len(),
            r.1 == (tag_name_at(old(self).html_bytes@, nstart as int) == script_name()),
    {
        let ghost sv = self.html_bytes@;
        let n = self.html_bytes.len();
        // scan the name, lower-casing on read
        let mut ne: usize = nstart;
        let mut name_vec: Vec<u8> = Vec::new();
        while ne < n && name_byte(self.html_bytes[ne])
            invariant
                nstart <= ne <= n,
                n == sv.len(),
                sv == self.html_bytes@,
                scan_name(sv, nstart as int) == scan_name(sv, ne as int),
                name_vec@ =~= lc_seq(sv.subrange(nstart as int, ne as int)),
                self.wf(),
            decreases n - ne,
        {
            name_vec.push(lower_byte(self.html_bytes[ne]));
            ne += 1;
            proof {
                assert(name_vec@ =~= lc_seq(sv.subrange(nstart as int, ne as int)));
            }
        }
        proof {
            assert(scan_name(sv, ne as int) == ne);
            lemma_scan_name(sv, nstart as int);
            assert(name_vec@ == tag_name_at(sv, nstart as int));
        }
        let is_script = name_vec.len() == 6 && name_vec[0] == 115 && name_vec[1] == 99
            && name_vec[2] == 114 && name_vec[3] == 105 && name_vec[4] == 112 && name_vec[5]
            == 116;
        proof {
            assert(is_script == (name_vec@ =~= script_name()));
        }
        // fast path: a hint for the first two bytes lets the canonical name
        // string be reused instead of built afresh, once its full byte image
        // is confirmed against the scanned name
        let mut assigned = false;
        if n > 0 && nstart < n - 1 {
            let v = self.heuristics.match_tag(self.html_bytes[nstart], self.html_bytes[nstart
                + 1]);
            if v != 0 {
                proof {
                    assert(cell_of(self.heuristics.chars@, sv[nstart as int], sv[nstart as int
                        + 1]) != 0);
                }
                let k = (if v < 0 {
                    -v
                } else {
                    v
                }) as usize / 2;
                proof {
                    assert(1 <= k <= self.heuristics.tags().len());
                }
                let d = 2 * k;
                if crate::bytes::bytes_eq(
                    self.heuristics.get_string_data(d).as_slice(),
                    name_vec.as_slice(),
                ) {
                    proof {
                        assert(self.heuristics.tag_data@[2 * (k - 1 + 1)]@ == self.heuristics.tags()[
                            k - 1]);
                        assert(self.heuristics.tags()[k - 1] == name_vec@);
                    }
                    self.chunk.tag = self.heuristics.get_string_by_id(d);
                    proof {
                        assert(self.chunk.tag@ == latin1_seq(name_vec@));
                    }
                    assigned = true;
                }
            }
        }
        if !assigned {
            self.chunk.tag = latin1_string(name_vec.as_slice());
        }
        (ne, is_script)
    }

    #[verifier::rlimit(100)]
    #[verifier::spinoff_prover]
    /// Scans one tag: the name (lower-cased on read), then attributes up to
    /// the closing `>`, quoted values skipped as wholes; fills the reused
    /// chunk and advances the scanner past the tag.
    fn parse_tag(&mut self)
        requires
            old(self).wf(),
            old(self).current_position < old(self).html_bytes@.len(),
            kind_at(old(self).html_bytes@, old(self).current_position as int)
                == ChunkType::OpenTag || kind_at(
                old(self).html_bytes@,
                old(self).current_position as int,
            ) == ChunkType::CloseTag,
        ensures
            final(self).wf(),
            Self::frame_fixed(old(self), final(self)),
            ({
                let s = old(self).html_bytes@;
                let p0 = old(self).current_position as int;
                let close = kind_at(s, p0) == ChunkType::CloseTag;
                let nstart = if close {
                    p0 + 2
                } else {
                    p0 + 1
                };
                &&& final(self).chunk.tag@ == latin1_seq(tag_name_at(s, nstart))
                &&& final(self).current_position == tag_end(s, scan_name(s, nstart))
                &&& p0 < final(self).current_position <= s.len()
                &&& final(self).chunk.chunk_offset == p0
                &&& final(self).chunk.chunk_length == final(self).current_position - p0
                &&& final(self).chunk.chunk_type == (if close && !(final(self).chunk.params_count
                    > 0 && old(self).mark_closed_tags_with_params_as_open) {
                    ChunkType::CloseTag
                } else {
                    ChunkType::OpenTag
                })
                &&& final(self).chunk.closure == (final(self).chunk.chunk_type
                    == ChunkType::CloseTag)
                &&& !final(self).chunk.comments
                &&& final(self).in_script == (!close && tag_name_at(s, nstart) == script_name()
                    && !final(self).chunk.end_closure)
                &&& final(self).chunk.hash_mode == old(self).chunk.hash_mode
                &&& final(self).chunk.html@ == Seq::<char>::empty()
                &&& ({
                    let scan = tag_scan(
                        s,
                        scan_name(s, nstart),
                        false,
                        old(self).text.enc_spec(),
                        old(self).decode_mini_entities,
                    );
                    final(self).chunk.end_closure == scan.1 && params_match(
                        &final(self).chunk,
                        scan.0,
                    )
                })
            }),
    {
        let ghost sv = self.html_bytes@;
        let n = self.html_bytes.len();
        let p0 = self.current_position;
        let close = self.html_bytes[p0 + 1] == 47;
        let nstart = if close {
            p0 + 2
        } else {
            p0 + 1
        };
        self.chunk.clear();
        self.chunk.chunk_offset = p0;
        let ghost enc0 = self.text.enc_spec();
        let named = self.scan_tag_name(nstart);
        let ne = named.0;
        let is_script = named.1;
        // attributes: walk to the closing '>', collecting names and values
        let ghost enc1 = self.text.enc_spec();
        let ghost mini1 = self.decode_mini_entities;
        let scanned = self.scan_attrs(ne);
        let i = scanned.0;
        let solo = scanned.1;
        let ghost c2 = self.chunk;
        proof {
            assert(enc1 == enc0);
            assert(solo == tag_scan(sv, ne as int, false, enc1, mini1).1);
            assert(params_match(&c2, tag_scan(sv, ne as int, false, enc1, mini1).0));
        }
        self.chunk.html = String::new();
        self.chunk.chunk_length = i - p0;
        self.current_position = i;
        self.chunk.end_closure = solo;
        if close && !(self.chunk.params_count > 0 && self.mark_closed_tags_with_params_as_open) {
            self.chunk.chunk_type = ChunkType::CloseTag;
            self.chunk.closure = true;
            self.in_script = false;
        } else {
            self.chunk.chunk_type = ChunkType::OpenTag;
            self.chunk.closure = false;
            self.in_script = !close && is_script && !solo;
        }
        proof {
            let scan = tag_scan(sv, ne as int, false, enc0, mini1);
            assert(self.chunk.end_closure == scan.1);
            assert(self.chunk.params_count == c2.params_count);
            assert forall|k: int|
                0 <= k < self.chunk.params_count implies #[trigger] self.chunk.names_spec()[k]
                    == latin1_seq(scan.0[k].0) && self.chunk.values_spec()[k] == scan.0[k].1
                    && self.chunk.param_chars@[k] == scan.0[k].2 by {
                assert(c2.names_spec()[k] == latin1_seq(scan.0[k].0));
                assert(self.chunk.names_spec() =~= c2.names_spec());
                assert(self.chunk.values_spec() =~= c2.values_spec());
            }
            assert(params_match(&self.chunk, scan.0));
            assert(self.chunk.html@ =~= Seq::<char>::empty());
            assert(self.current_position as int == tag_end(sv, scan_name(sv, nstart as int)));
            assert(self.chunk.tag@ == latin1_seq(tag_name_at(sv, nstart as int)));
        }
    }


    /// Scans a comment or CDATA section: the chunk spans to just past the
    /// matching closer, or to the end of the buffer when it is missing.
    #[verifier::rlimit(80)]
    fn parse_comment(&mut self, is_cdata: bool)
        requires
            old(self).wf(),
            old(self).current_position < old(self).html_bytes@.len(),
            is_cdata == starts_with_at(
                old(self).html_bytes@,
                old(self).current_position as int,
                cdata_open(),
            ),
            !is_cdata ==> starts_with_at(
                old(self).html_bytes@,
                old(self).current_position as int,
                comment_open(),
            ),
        ensures
            final(self).wf(),
            Self::frame_fixed(old(self), final(self)),
            final(self).in_script == old(self).in_script,
            ({
                let s = old(self).html_bytes@;
                let p0 = old(self).current_position as int;
                let close_pat = if is_cdata {
                    cdata_close()
                } else {
                    comment_close()
                };
                let open_len: int = if is_cdata {
                    9
                } else {
                    4
                };
                let j = find_seq(s, p0 + open_len, close_pat);
                let e = if j < s.len() {
                    j + 3
                } else {
                    s.len() as int
                };
                let b0 = if old(self).extract_between_tags_only {
                    p0 + open_len
                } else {
                    p0
                };
                let b1 = if old(self).extract_between_tags_only {
                    j
                } else {
                    e
                };
                &&& final(self).chunk.chunk_type == ChunkType::Comment
                &&& final(self).chunk.comments
                &&& final(self).current_position == e
                &&& p0 < e <= s.len()
                &&& final(self).chunk.chunk_offset == p0
                &&& final(self).chunk.chunk_length == e - p0
                &&& final(self).chunk.tag@ == (if is_cdata {
                    ("![CDATA[")@
                } else {
                    ("!--")@
                })
                &&& final(self).chunk.html@ == (if old(self).keep_comments {
                    assembled_text(old(self).text.enc_spec(), s.subrange(b0, b1))
                } else {
                    Seq::<char>::empty()
                })
            }),
    {
        let ghost sv = self.html_bytes@;
        let n = self.html_bytes.len();
        let p0 = self.current_position;
        let open_len: usize = if is_cdata {
            9
        } else {
            4
        };
        let j = if is_cdata {
            find_pattern3(self.html_bytes.as_slice(), p0 + 9, 93, 93, 62)
        } else {
            find_pattern3(self.html_bytes.as_slice(), p0 + 4, 45, 45, 62)
        };
        proof {
            if is_cdata {
                assert(cdata_close() =~= seq![93u8, 93u8, 62u8]);
                lemma_find_seq(sv, p0 as int + 9, cdata_close());
            } else {
                assert(comment_close() =~= seq![45u8, 45u8, 62u8]);
                lemma_find_seq(sv, p0 as int + 4, comment_close());
            }
        }
        let e = if j < n {
            j + 3
        } else {
            n
        };
        self.chunk.clear();
        self.chunk.chunk_offset = p0;
        self.chunk.chunk_length = e - p0;
        self.chunk.chunk_type = ChunkType::Comment;
        self.chunk.comments = true;
        self.chunk.tag = if is_cdata {
            String::from_str("![CDATA[")
        } else {
            String::from_str("!--")
        };
        if self.keep_comments {
            let b0 = if self.extract_between_tags_only {
                p0 + open_len
            } else {
                p0
            };
            let b1 = if self.extract_between_tags_only {
                if j < n {
                    j
                } else {
                    n
                }
            } else {
                e
            };
            self.text.clear();
            feed_raw(&mut self.text, self.html_bytes.as_slice(), b0, b1);
            self.text.flush();
            self.chunk.html = self.text.string().clone();
        }
        self.current_position = e;
    }

    /// Scans a text run: everything to the next tag start (or the end of
    /// the buffer), character references resolved, trailing whitespace
    /// before a following tag optionally compressed to one space.
    #[verifier::rlimit(80)]
    fn parse_text(&mut self)
        requires
            old(self).wf(),
            old(self).current_position < old(self).html_bytes@.len(),
            kind_at(old(self).html_bytes@, old(self).current_position as int) == ChunkType::Text,
        ensures
            final(self).wf(),
            Self::frame_fixed(old(self), final(self)),
            final(self).in_script == old(self).in_script,
            ({
                let s = old(self).html_bytes@;
                let p0 = old(self).current_position as int;
                let e = scan_text(s, p0);
                let compress_eff = old(self).compress_whitespace_before_tag && e < s.len();
                let t = if compress_eff {
                    trailing_ws_start(s, p0, e)
                } else {
                    e
                };
                let info = crate::tag_parser::assembled_info(
                    s,
                    p0,
                    t,
                    old(self).text.enc_spec(),
                    old(self).decode_mini_entities,
                );
                let fed = info.0 + (if compress_eff && t < e {
                    seq![32u8]
                } else {
                    Seq::<u8>::empty()
                });
                &&& final(self).chunk.chunk_type == ChunkType::Text
                &&& final(self).current_position == e
                &&& p0 < e <= s.len()
                &&& final(self).chunk.chunk_offset == p0
                &&& final(self).chunk.chunk_length == e - p0
                &&& final(self).chunk.html@ == assembled_text(old(self).text.enc_spec(), fed)
                &&& final(self).chunk.entities == info.1
                &&& final(self).chunk.lt_entity == info.2
            }),
    {
        let ghost sv = self.html_bytes@;
        let n = self.html_bytes.len();
        let p0 = self.current_position;
        proof {
            assert(!is_tag_start(sv, p0 as int));
        }
        let mut e: usize = p0;
        while e < n && !tag_start_at(self.html_bytes.as_slice(), e)
            invariant
                p0 <= e <= n,
                n == sv.len(),
                sv == self.html_bytes@,
                scan_text(sv, p0 as int) == scan_text(sv, e as int),
            decreases n - e,
        {
            e += 1;
        }
        proof {
            assert(scan_text(sv, e as int) == e);
        }
        let compress_eff = self.compress_whitespace_before_tag && e < n;
        let mut t: usize = e;
        if compress_eff {
            while t > p0 && is_whitespace(self.html_bytes[t - 1])
                invariant
                    p0 <= t <= e <= n,
                    n == sv.len(),
                    sv == self.html_bytes@,
                    trailing_ws_start(sv, p0 as int, e as int) == trailing_ws_start(
                        sv,
                        p0 as int,
                        t as int,
                    ),
                decreases t,
            {
                t -= 1;
            }
            proof {
                assert(trailing_ws_start(sv, p0 as int, t as int) == t);
            }
        }
        self.chunk.clear();
        self.chunk.chunk_offset = p0;
        self.chunk.chunk_length = e - p0;
        self.chunk.chunk_type = ChunkType::Text;
        self.text.clear();
        let mini = self.decode_mini_entities;
        let flags = feed_entities(&mut self.text, self.html_bytes.as_slice(), p0, t, mini);
        let ghost info = crate::tag_parser::assembled_info(
            sv,
            p0 as int,
            t as int,
            self.text.enc_spec(),
            mini,
        );
        if compress_eff && t < e {
            proof {
                crate::dynamic_string::lemma_push_bytes_concat(
                    Seq::<char>::empty(),
                    Seq::<u8>::empty(),
                    self.text.enc_spec(),
                    info.0,
                    seq![32u8],
                );
                crate::dynamic_string::lemma_push_one(
                    self.text.text@,
                    self.text.buffer@,
                    self.text.enc_spec(),
                    32,
                );
            }
            self.text.append_byte(32);
        } else {
            proof {
                assert(info.0 + Seq::<u8>::empty() =~= info.0);
            }
        }
        self.text.flush();
        self.chunk.html = self.text.string().clone();
        self.chunk.entities = flags.0;
        self.chunk.lt_entity = flags.1;
        self.current_position = e;
        proof {
            assert(scan_text(sv, p0 as int) == scan_text(sv, p0 as int + 1));
            assert(e > p0);
        }
    }

    /// Pulls the next token: classifies the construct at the cursor, fills
    /// the reused chunk, and advances past it. Returns false exactly at the
    /// end of the buffer; every byte sequence yields some chunk sequence,
    /// and the chunks' offsets and lengths partition the buffer exactly.
    #[verifier::rlimit(80)]
    pub fn parse_next(&mut self) -> (r: bool)
        requires
            old(self).wf(),
        ensures
            final(self).wf(),
            Self::frame_fixed(old(self), final(self)),
            r == (old(self).current_position < old(self).data_length),
            !r ==> *final(self) == *old(self),
            r ==> old(self).current_position < final(self).current_position <= final(self).data_length,
            r ==> final(self).chunk.chunk_offset == old(self).current_position,
            r ==> final(self).chunk.chunk_length == final(self).current_position - old(self).current_position,
            r ==> ({
                // an opaque script body pending from an earlier open tag
                let s = old(self).html_bytes@;
                let p0 = old(self).current_position as int;
                let e = script_body_end(s, p0);
                (old(self).in_script && e > p0) ==> ({
                    &&& final(self).chunk.chunk_type == ChunkType::Script
                    &&& final(self).current_position == e
                    &&& !final(self).in_script
                    &&& final(self).chunk.html@ == (if old(self).keep_scripts {
                        assembled_text(old(self).text.enc_spec(), s.subrange(p0, e))
                    } else {
                        Seq::<char>::empty()
                    })
                })
            }),
            r ==> ({
                // a text run, ending at the next tag start
                let s = old(self).html_bytes@;
                let p0 = old(self).current_position as int;
                let plain = !old(self).in_script || script_body_end(s, p0) == p0;
                (plain && kind_at(s, p0) == ChunkType::Text) ==> ({
                    let e = scan_text(s, p0);
                    let compress_eff = old(self).compress_whitespace_before_tag && e < s.len();
                    let t = if compress_eff {
                        trailing_ws_start(s, p0, e)
                    } else {
                        e
                    };
                    let info = crate::tag_parser::assembled_info(
                        s,
                        p0,
                        t,
                        old(self).text.enc_spec(),
                        old(self).decode_mini_entities,
                    );
                    let fed = info.0 + (if compress_eff && t < e {
                        seq![32u8]
                    } else {
                        Seq::<u8>::empty()
                    });
                    &&& final(self).chunk.chunk_type == ChunkType::Text
                    &&& final(self).current_position == e
                    &&& final(self).chunk.html@ == assembled_text(old(self).text.enc_spec(), fed)
                    &&& final(self).chunk.entities == info.1
                    &&& final(self).chunk.lt_entity == info.2
                    &&& !final(self).in_script
                })
            }),
            r ==> ({
                // a comment or CDATA section, tolerant of a missing closer
                let s = old(self).html_bytes@;
                let p0 = old(self).current_position as int;
                let plain = !old(self).in_script || script_body_end(s, p0) == p0;
                (plain && kind_at(s, p0) == ChunkType::Comment) ==> ({
                    let is_cd = starts_with_at(s, p0, cdata_open());
                    let close_pat = if is_cd {
                        cdata_close()
                    } else {
                        comment_close()
                    };
                    let open_len: int = if is_cd {
                        9
                    } else {
                        4
                    };
                    let j = find_seq(s, p0 + open_len, close_pat);
                    let e = if j < s.len() {
                        j + 3
                    } else {
                        s.len() as int
                    };
                    let b0 = if old(self).extract_between_tags_only {
                        p0 + open_len
                    } else {
                        p0
                    };
                    let b1 = if old(self).extract_between_tags_only {
                        j
                    } else {
                        e
                    };
                    &&& final(self).chunk.chunk_type == ChunkType::Comment
                    &&& final(self).chunk.comments
                    &&& final(self).current_position == e
                    &&& final(self).chunk.tag@ == (if is_cd {
                        ("![CDATA[")@
                    } else {
                        ("!--")@
                    })
                    &&& final(self).chunk.html@ == (if old(self).keep_comments {
                        assembled_text(old(self).text.enc_spec(), s.subrange(b0, b1))
                    } else {
                        Seq::<char>::empty()
                    })
                    &&& !final(self).in_script
                })
            }),
            r ==> ({
                // an open or close tag
                let s = old(self).html_bytes@;
                let p0 = old(self).current_position as int;
                let plain = !old(self).in_script || script_body_end(s, p0) == p0;
                (plain && (kind_at(s, p0) == ChunkType::OpenTag || kind_at(s, p0)
                    == ChunkType::CloseTag)) ==> ({
                    let close = kind_at(s, p0) == ChunkType::CloseTag;
                    let nstart = if close {
                        p0 + 2
                    } else {
                        p0 + 1
                    };
                    &&& final(self).chunk.tag@ == latin1_seq(tag_name_at(s, nstart))
                    &&& final(self).current_position == tag_end(s, scan_name(s, nstart))
                    &&& final(self).chunk.chunk_type == (if close && !(final(self).chunk.params_count > 0 && old(self).mark_closed_tags_with_params_as_open) {
                        ChunkType::CloseTag
                    } else {
                        ChunkType::OpenTag
                    })
                    &&& final(self).chunk.closure == (final(self).chunk.chunk_type
                        == ChunkType::CloseTag)
                    &&& final(self).in_script == (!close && tag_name_at(s, nstart)
                        == script_name() && !final(self).chunk.end_closure)
                    &&& ({
                        let scan = tag_scan(
                            s,
                            scan_name(s, nstart),
                            false,
                            old(self).text.enc_spec(),
                            old(self).decode_mini_entities,
                        );
                        final(self).chunk.end_closure == scan.1 && params_match(
                            &final(self).chunk,
                            scan.0,
                        )
                    })
                    &&& final(self).chunk.html@ == (if old(self).keep_raw_html {
                        assembled_text(
                            old(self).text.enc_spec(),
                            s.subrange(p0, final(self).current_position as int),
                        )
                    } else {
                        Seq::<char>::empty()
                    })
                })
            }),
    {
        let n = self.html_bytes.len();
        let p0 = self.current_position;
        if p0 >= n {
            return false;
        }
        let ghost sv = self.html_bytes@;
        if self.in_script {
            let e = find_script_close(self.html_bytes.as_slice(), p0);
            if e > p0 {
                self.chunk.clear();
                self.chunk.chunk_offset = p0;
                self.chunk.chunk_length = e - p0;
                self.chunk.chunk_type = ChunkType::Script;
                if self.keep_scripts {
                    self.text.clear();
                    feed_raw(&mut self.text, self.html_bytes.as_slice(), p0, e);
                    self.text.flush();
                    self.chunk.html = self.text.string().clone();
                }
                self.current_position = e;
                self.in_script = false;
                return true;
            }
            self.in_script = false;
        }
        let b = self.html_bytes[p0];
        let is_comment = b == 60 && n - p0 > 3 && self.html_bytes[p0 + 1] == 33
            && self.html_bytes[p0 + 2] == 45 && self.html_bytes[p0 + 3] == 45;
        let is_cdata = b == 60 && n - p0 > 8 && self.html_bytes[p0 + 1] == 33
            && self.html_bytes[p0 + 2] == 91 && self.html_bytes[p0 + 3] == 67
            && self.html_bytes[p0 + 4] == 68 && self.html_bytes[p0 + 5] == 65
            && self.html_bytes[p0 + 6] == 84 && self.html_bytes[p0 + 7] == 65
            && self.html_bytes[p0 + 8] == 91;
        proof {
            if is_comment {
                assert(sv.subrange(p0 as int, p0 as int + 4) =~= comment_open());
            } else {
                assert(!starts_with_at(sv, p0 as int, comment_open())) by {
                    if starts_with_at(sv, p0 as int, comment_open()) {
                        assert(sv.subrange(p0 as int, p0 as int + 4)[0] == sv[p0 as int]);
                        assert(sv.subrange(p0 as int, p0 as int + 4)[1] == sv[p0 as int + 1]);
                        assert(sv.subrange(p0 as int, p0 as int + 4)[2] == sv[p0 as int + 2]);
                        assert(sv.subrange(p0 as int, p0 as int + 4)[3] == sv[p0 as int + 3]);
                    }
                }
            }
            if is_cdata {
                assert(sv.subrange(p0 as int, p0 as int + 9) =~= cdata_open());
            } else {
                assert(!starts_with_at(sv, p0 as int, cdata_open())) by {
                    if starts_with_at(sv, p0 as int, cdata_open()) {
                        assert forall|k: int|
                            0 <= k < 9 implies #[trigger] sv.subrange(p0 as int, p0 as int + 9)[k]
                            == sv[p0 + k] by {}
                    }
                }
            }
        }
        if is_comment || is_cdata {
            self.parse_comment(is_cdata);
            return true;
        }
        let is_close = b == 60 && p0 + 1 < n && self.html_bytes[p0 + 1] == 47;
        let is_open = b == 60 && p0 + 1 < n && !is_close && (self.html_bytes[p0 + 1] >= 97
            && self.html_bytes[p0 + 1] <= 122 || self.html_bytes[p0 + 1] >= 65
            && self.html_bytes[p0 + 1] <= 90);
        if is_close || is_open {
            proof {
                assert(kind_at(sv, p0 as int) == (if is_close {
                    ChunkType::CloseTag
                } else {
                    ChunkType::OpenTag
                }));
            }
            self.parse_tag();
            let ghost c3 = self.chunk;
            if self.keep_raw_html {
                self.text.clear();
                feed_raw(
                    &mut self.text,
                    self.html_bytes.as_slice(),
                    p0,
                    self.current_position,
                );
                self.text.flush();
                self.chunk.html = self.text.string().clone();
            }
            proof {
                let nstart = if is_close {
                    p0 as int + 2
                } else {
                    p0 as int + 1
                };
                let scan = tag_scan(
                    sv,
                    scan_name(sv, nstart),
                    false,
                    old(self).text.enc_spec(),
                    old(self).decode_mini_entities,
                );
                assert(params_match(&c3, scan.0));
                lemma_params_match_same(&c3, &self.chunk, scan.0);
            }
            return true;
        }
        // lenient fallback: a text run, a bare `<` included
        proof {
            assert(kind_at(sv, p0 as int) == ChunkType::Text);
        }
        self.parse_text();
        true
    }
}

} // verus!
