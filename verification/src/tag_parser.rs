use vstd::prelude::*;

use crate::bytes::{lc_byte, lc_seq};
use crate::dynamic_string::{char_bytes, flush_model, lemma_push_bytes_concat, lemma_push_one, push_bytes_model, DynamicString};
use crate::html_chunk::ChunkType;
use crate::html_entities::{entity_code_at, is_alpha_byte, is_digit_byte, lemma_entity_code_at};
use crate::is_whitespace_byte;

verus! {

/// A byte that may stand in a tag or attribute name.
pub open spec fn is_name_byte(b: u8) -> bool {
    is_alpha_byte(b) || is_digit_byte(b) || b == 45 || b == 95 || b == 58
}

pub fn name_byte(b: u8) -> (r: bool)
    ensures
        r == is_name_byte(b),
{
    (b >= 97 && b <= 122) || (b >= 65 && b <= 90) || (b >= 48 && b <= 57) || b == 45 || b == 95
        || b == 58
}

/// First position at or after `i` whose byte is not a name byte.
pub open spec fn scan_name(s: Seq<u8>, i: int) -> int
    decreases s.len() - i,
{
    if i < 0 || i >= s.len() || !is_name_byte(s[i]) {
        i
    } else {
        scan_name(s, i + 1)
    }
}

pub proof fn lemma_scan_name(s: Seq<u8>, i: int)
    requires
        0 <= i <= s.len(),
    ensures
        i <= scan_name(s, i) <= s.len(),
        forall|k: int| i <= k < scan_name(s, i) ==> is_name_byte(#[trigger] s[k]),
        scan_name(s, i) < s.len() ==> !is_name_byte(s[scan_name(s, i)]),
    decreases s.len() - i,
{
    if i < s.len() && is_name_byte(s[i]) {
        lemma_scan_name(s, i + 1);
    }
}

/// First position at or after `i` whose byte is not whitespace.
pub open spec fn scan_ws(s: Seq<u8>, i: int) -> int
    decreases s.len() - i,
{
    if i < 0 || i >= s.len() || !is_whitespace_byte(s[i]) {
        i
    } else {
        scan_ws(s, i + 1)
    }
}

pub proof fn lemma_scan_ws(s: Seq<u8>, i: int)
    requires
        0 <= i <= s.len(),
    ensures
        i <= scan_ws(s, i) <= s.len(),
        forall|k: int| i <= k < scan_ws(s, i) ==> is_whitespace_byte(#[trigger] s[k]),
        scan_ws(s, i) < s.len() ==> !is_whitespace_byte(s[scan_ws(s, i)]),
    decreases s.len() - i,
{
    if i < s.len() && is_whitespace_byte(s[i]) {
        lemma_scan_ws(s, i + 1);
    }
}

/// The pattern occurs in `s` at position `i`.
pub open spec fn starts_with_at(s: Seq<u8>, i: int, pat: Seq<u8>) -> bool {
    0 <= i && i + pat.len() <= s.len() && s.subrange(i, i + pat.len()) == pat
}

/// First position at or after `i` where the pattern occurs, or the length of
/// `s` when it occurs nowhere.
pub open spec fn find_seq(s: Seq<u8>, i: int, pat: Seq<u8>) -> int
    decreases s.len() - i,
{
    if i < 0 || i + pat.len() > s.len() || pat.len() == 0 {
        s.len() as int
    } else if s.subrange(i, i + pat.len()) == pat {
        i
    } else {
        find_seq(s, i + 1, pat)
    }
}

pub proof fn lemma_find_seq(s: Seq<u8>, i: int, pat: Seq<u8>)
    requires
        0 <= i <= s.len(),
        pat.len() >= 1,
    ensures
        i <= find_seq(s, i, pat) <= s.len(),
        find_seq(s, i, pat) + pat.len() <= s.len() ==> ((starts_with_at(s, find_seq(s, i, pat), pat)
            || find_seq(s, i, pat) == s.len())),
        forall|k: int| i <= k < find_seq(s, i, pat) ==> !starts_with_at(s, k, pat),
        find_seq(s, i, pat) < s.len() ==> starts_with_at(s, find_seq(s, i, pat), pat),
    decreases s.len() - i,
{
    if i + pat.len() > s.len() {
        assert forall|k: int| i <= k < s.len() implies !starts_with_at(s, k, pat) by {}
    } else if s.subrange(i, i + pat.len()) == pat {
    } else {
        lemma_find_seq(s, i + 1, pat);
    }
}

pub open spec fn comment_open() -> Seq<u8> {
    seq![60u8, 33u8, 45u8, 45u8]
}

pub open spec fn comment_close() -> Seq<u8> {
    seq![45u8, 45u8, 62u8]
}

pub open spec fn cdata_open() -> Seq<u8> {
    seq![60u8, 33u8, 91u8, 67u8, 68u8, 65u8, 84u8, 65u8, 91u8]
}

pub open spec fn cdata_close() -> Seq<u8> {
    seq![93u8, 93u8, 62u8]
}

/// The lower-cased image of `</script`.
pub open spec fn script_close() -> Seq<u8> {
    seq![60u8, 47u8, 115u8, 99u8, 114u8, 105u8, 112u8, 116u8]
}

/// End (exclusive) of a script body that starts at `i`: right before the
/// closing `</script`, matched case-insensitively, or the end of the buffer.
pub open spec fn script_body_end(s: Seq<u8>, i: int) -> int {
    find_seq(lc_seq(s), i, script_close())
}

/// What kind of chunk begins at position `i` of the buffer (outside script
/// state): a comment or CDATA marker, a close tag, an open tag starting with
/// a letter, or — leniently — text for everything else, a bare `<` included.
pub open spec fn kind_at(s: Seq<u8>, i: int) -> ChunkType {
    if s[i] != 60 {
        ChunkType::Text
    } else if starts_with_at(s, i, comment_open()) || starts_with_at(s, i, cdata_open()) {
        ChunkType::Comment
    } else if i + 1 < s.len() && s[i + 1] == 47 {
        ChunkType::CloseTag
    } else if i + 1 < s.len() && is_alpha_byte(s[i + 1]) {
        ChunkType::OpenTag
    } else {
        ChunkType::Text
    }
}

/// A position where a tag-like construct begins; text runs end here.
pub open spec fn is_tag_start(s: Seq<u8>, i: int) -> bool {
    s[i] == 60 && kind_at(s, i) != ChunkType::Text
}

/// End (exclusive) of a text run that starts at `i`: the next tag start, or
/// the end of the buffer.
pub open spec fn scan_text(s: Seq<u8>, i: int) -> int
    decreases s.len() - i,
{
    if i < 0 || i >= s.len() {
        s.len() as int
    } else if is_tag_start(s, i) {
        i
    } else {
        scan_text(s, i + 1)
    }
}

pub proof fn lemma_scan_text(s: Seq<u8>, i: int)
    requires
        0 <= i <= s.len(),
    ensures
        i <= scan_text(s, i) <= s.len(),
        forall|k: int| i <= k < scan_text(s, i) ==> !is_tag_start(s, k),
        scan_text(s, i) < s.len() ==> is_tag_start(s, scan_text(s, i)),
    decreases s.len() - i,
{
    if i < s.len() && !is_tag_start(s, i) {
        lemma_scan_text(s, i + 1);
    }
}

/// First index of the trailing whitespace run of `s[from..end)`, or `end`
/// when the last byte is not whitespace.
pub open spec fn trailing_ws_start(s: Seq<u8>, from: int, end: int) -> int
    decreases end - from,
{
    if end <= from || !is_whitespace_byte(s[end - 1]) {
        end
    } else {
        trailing_ws_start(s, from, end - 1)
    }
}

pub proof fn lemma_trailing_ws_start(s: Seq<u8>, from: int, end: int)
    requires
        0 <= from <= end <= s.len(),
    ensures
        from <= trailing_ws_start(s, from, end) <= end,
        forall|k: int|
            trailing_ws_start(s, from, end) <= k < end ==> is_whitespace_byte(#[trigger] s[k]),
        trailing_ws_start(s, from, end) > from ==> !is_whitespace_byte(
            s[trailing_ws_start(s, from, end) - 1],
        ),
    decreases end - from,
{
    if end > from && is_whitespace_byte(s[end - 1]) {
        lemma_trailing_ws_start(s, from, end - 1);
    }
}

/// The assembler input a byte range contributes once character references
/// are resolved, together with whether any reference resolved and whether
/// one resolving to `<` (an escaped tag start) did: each resolved reference
/// contributes its character's byte (or its codec encoding above the byte
/// range), everything else passes through unchanged.
pub open spec fn assembled_info(
    s: Seq<u8>,
    i: int,
    end: int,
    enc: Option<Seq<char>>,
    mini: bool,
) -> (Seq<u8>, bool, bool)
    decreases end - i,
    via assembled_info_dec
{
    if i < 0 || i >= end || end > s.len() {
        (Seq::empty(), false, false)
    } else if s[i] == 38 {
        match entity_code_at(s, i, mini) {
            Option::Some(p) => {
                let nxt = if i + p.1 <= end {
                    i + p.1
                } else {
                    end
                };
                let rest = assembled_info(s, nxt, end, enc, mini);
                let piece = if p.0 <= 127 {
                    seq![p.0 as u8]
                } else {
                    char_bytes(enc, p.0)
                };
                (piece + rest.0, true, rest.2 || p.0 == 60)
            },
            Option::None => {
                let rest = assembled_info(s, i + 1, end, enc, mini);
                (seq![s[i]] + rest.0, rest.1, rest.2)
            },
        }
    } else {
        let rest = assembled_info(s, i + 1, end, enc, mini);
        (seq![s[i]] + rest.0, rest.1, rest.2)
    }
}

#[via_fn]
proof fn assembled_info_dec(s: Seq<u8>, i: int, end: int, enc: Option<Seq<char>>, mini: bool) {
    if 0 <= i && i < end && end <= s.len() && s[i] == 38 {
        lemma_entity_code_at(s, i, mini);
    }
}

/// End (exclusive) of a tag whose attribute region starts at `i`: the walk
/// to the closing `>`, skipping quoted stretches, or the end of the buffer
/// for a truncated tag.
pub open spec fn tag_end(s: Seq<u8>, i: int) -> int
    decreases s.len() - i, s.len() - i + 1,
    via tag_end_dec
{
    if i < 0 || i >= s.len() {
        s.len() as int
    } else if s[i] == 62 {
        i + 1
    } else if s[i] == 34 || s[i] == 39 {
        let j = find_byte(s, i + 1, s[i]);
        if j >= s.len() {
            s.len() as int
        } else {
            tag_end(s, j + 1)
        }
    } else {
        tag_end(s, i + 1)
    }
}

#[via_fn]
proof fn tag_end_dec(s: Seq<u8>, i: int) {
    if 0 <= i && i < s.len() && s[i] != 62 && (s[i] == 34 || s[i] == 39) {
        lemma_find_byte(s, i + 1, s[i]);
    }
}

/// First position at or after `i` holding byte `b`, or the length of `s`.
pub open spec fn find_byte(s: Seq<u8>, i: int, b: u8) -> int
    decreases s.len() - i,
{
    if i < 0 || i >= s.len() {
        s.len() as int
    } else if s[i] == b {
        i
    } else {
        find_byte(s, i + 1, b)
    }
}

pub proof fn lemma_find_byte(s: Seq<u8>, i: int, b: u8)
    requires
        0 <= i <= s.len(),
    ensures
        i <= find_byte(s, i, b) <= s.len(),
        forall|k: int| i <= k < find_byte(s, i, b) ==> s[k] != b,
        find_byte(s, i, b) < s.len() ==> s[find_byte(s, i, b)] == b,
    decreases s.len() - i,
{
    if i < s.len() && s[i] != b {
        lemma_find_byte(s, i + 1, b);
    }
}

/// The name of the tag whose name run starts at `p`: the lower-cased image
/// of the run of name bytes.
pub open spec fn tag_name_at(s: Seq<u8>, p: int) -> Seq<u8> {
    lc_seq(s.subrange(p, scan_name(s, p)))
}

/// First position at or after `i` that ends an unquoted attribute value:
/// whitespace, `>`, or a quote character.
pub open spec fn scan_plain(s: Seq<u8>, i: int) -> int
    decreases s.len() - i,
{
    if i < 0 || i >= s.len() || s[i] == 62 || s[i] == 34 || s[i] == 39 || is_whitespace_byte(
        s[i],
    ) {
        i
    } else {
        scan_plain(s, i + 1)
    }
}

pub proof fn lemma_scan_plain(s: Seq<u8>, i: int)
    requires
        0 <= i <= s.len(),
    ensures
        i <= scan_plain(s, i) <= s.len(),
    decreases s.len() - i,
{
    if i < s.len() && s[i] != 62 && s[i] != 34 && s[i] != 39 && !is_whitespace_byte(s[i]) {
        lemma_scan_plain(s, i + 1);
    }
}

/// The decoded text an assembler fed these bytes from a cleared state ends
/// with.
pub open spec fn assembled_text(enc: Option<Seq<char>>, bytes: Seq<u8>) -> Seq<char> {
    let m = push_bytes_model(Seq::empty(), Seq::empty(), enc, bytes);
    flush_model(m.0, m.1, enc).0
}

/// The walk over a tag's attribute region, from position `i` with the solo
/// marker currently `last`: returns the attributes — (lower-cased name,
/// decoded value, source quote character or zero) in order — and whether a
/// `/` stands last (up to whitespace) before the closing `>`. A quoted
/// stretch is skipped as a whole; an unquoted value swallows `/`; a
/// truncated tag is never solo.
pub open spec fn tag_scan(s: Seq<u8>, i: int, last: bool, enc: Option<Seq<char>>, mini: bool) -> (
    Seq<(Seq<u8>, Seq<char>, u8)>,
    bool,
)
    decreases s.len() - i,
    via tag_scan_dec
{
    if i < 0 || i >= s.len() {
        (Seq::empty(), false)
    } else if s[i] == 62 {
        (Seq::empty(), last)
    } else if s[i] == 34 || s[i] == 39 {
        let j = find_byte(s, i + 1, s[i]);
        if j >= s.len() {
            (Seq::empty(), false)
        } else {
            tag_scan(s, j + 1, false, enc, mini)
        }
    } else if s[i] == 47 {
        tag_scan(s, i + 1, true, enc, mini)
    } else if is_whitespace_byte(s[i]) {
        tag_scan(s, i + 1, last, enc, mini)
    } else if !is_name_byte(s[i]) {
        tag_scan(s, i + 1, false, enc, mini)
    } else {
        let ae = scan_name(s, i);
        let name = lc_seq(s.subrange(i, ae));
        let w = scan_ws(s, ae);
        if w < s.len() && s[w] == 61 {
            let v = scan_ws(s, w + 1);
            if v < s.len() && (s[v] == 34 || s[v] == 39) {
                let ve = find_byte(s, v + 1, s[v]);
                let val = assembled_text(enc, assembled_info(s, v + 1, ve, enc, mini).0);
                if ve >= s.len() {
                    (seq![(name, val, s[v])], false)
                } else {
                    let rest = tag_scan(s, ve + 1, false, enc, mini);
                    (seq![(name, val, s[v])] + rest.0, rest.1)
                }
            } else {
                let ve = scan_plain(s, v);
                let val = assembled_text(enc, assembled_info(s, v, ve, enc, mini).0);
                let rest = tag_scan(s, ve, false, enc, mini);
                (seq![(name, val, 0u8)] + rest.0, rest.1)
            }
        } else {
            let rest = tag_scan(s, w, false, enc, mini);
            (seq![(name, Seq::<char>::empty(), 0u8)] + rest.0, rest.1)
        }
    }
}

#[via_fn]
proof fn tag_scan_dec(s: Seq<u8>, i: int, last: bool, enc: Option<Seq<char>>, mini: bool) {
    if 0 <= i && i < s.len() {
        if s[i] != 62 && (s[i] == 34 || s[i] == 39) {
            lemma_find_byte(s, i + 1, s[i]);
        } else if s[i] != 62 && s[i] != 47 && !is_whitespace_byte(s[i]) && is_name_byte(s[i]) {
            lemma_scan_name(s, i);
            let ae = scan_name(s, i);
            lemma_scan_ws(s, ae);
            let w = scan_ws(s, ae);
            if w < s.len() && s[w] == 61 {
                lemma_scan_ws(s, w + 1);
                let v = scan_ws(s, w + 1);
                if v < s.len() && (s[v] == 34 || s[v] == 39) {
                    lemma_find_byte(s, v + 1, s[v]);
                } else {
                    lemma_scan_plain(s, v);
                }
            }
        }
    }
}

/// Feeds the raw bytes of `s[from..to]` into the assembler, one at a time.
pub fn feed_raw(ds: &mut DynamicString, s: &[u8], from: usize, to: usize)
    requires
        old(ds).wf(),
        from <= to <= s@.len(),
    ensures
        final(ds).wf(),
        final(ds).enc_spec() == old(ds).enc_spec(),
        (final(ds).text@, final(ds).buffer@) == push_bytes_model(
            old(ds).text@,
            old(ds).buffer@,
            old(ds).enc_spec(),
            s@.subrange(from as int, to as int),
        ),
{
    let ghost enc = old(ds).enc_spec();
    let ghost target = push_bytes_model(
        old(ds).text@,
        old(ds).buffer@,
        enc,
        s@.subrange(from as int, to as int),
    );
    let mut i: usize = from;
    while i < to
        invariant
            from <= i <= to <= s@.len(),
            ds.wf(),
            ds.enc_spec() == enc,
            push_bytes_model(ds.text@, ds.buffer@, enc, s@.subrange(i as int, to as int))
                == target,
        decreases to - i,
    {
        proof {
            let rem = s@.subrange(i as int, to as int);
            assert(rem[0] == s@[i as int]);
            assert(rem.skip(1) =~= s@.subrange(i as int + 1, to as int));
        }
        ds.append_byte(s[i]);
        i += 1;
    }
    proof {
        assert(s@.subrange(to as int, to as int) =~= Seq::<u8>::empty());
    }
}

/// Feeds the bytes of `s[from..to]` into the assembler with character
/// references resolved; reports whether any reference resolved, and whether
/// one resolving to `<` did.
pub fn feed_entities(ds: &mut DynamicString, s: &[u8], from: usize, to: usize, mini: bool) -> (r:
    (bool, bool))
    requires
        old(ds).wf(),
        from <= to <= s@.len(),
    ensures
        final(ds).wf(),
        final(ds).enc_spec() == old(ds).enc_spec(),
        ({
            let info = assembled_info(s@, from as int, to as int, old(ds).enc_spec(), mini);
            (final(ds).text@, final(ds).buffer@) == push_bytes_model(
                old(ds).text@,
                old(ds).buffer@,
                old(ds).enc_spec(),
                info.0,
            ) && r.0 == info.1 && r.1 == info.2
        }),
{
    let ghost enc = old(ds).enc_spec();
    let ghost full = assembled_info(s@, from as int, to as int, enc, mini);
    let ghost target = push_bytes_model(old(ds).text@, old(ds).buffer@, enc, full.0);
    let mut ent: bool = false;
    let mut lt: bool = false;
    let mut i: usize = from;
    while i < to
        invariant
            from <= i <= to <= s@.len(),
            ds.wf(),
            ds.enc_spec() == enc,
            ({
                let rest = assembled_info(s@, i as int, to as int, enc, mini);
                push_bytes_model(ds.text@, ds.buffer@, enc, rest.0) == target && full.1 == (ent
                    || rest.1) && full.2 == (lt || rest.2)
            }),
        decreases to - i,
    {
        let ghost rest = assembled_info(s@, i as int, to as int, enc, mini);
        let b = s[i];
        if b == 38 {
            match crate::html_entities::decode_entity(s, i, mini) {
                Some(p) => {
                    proof {
                        lemma_entity_code_at(s@, i as int, mini);
                    }
                    let ghost piece = if p.0 as int <= 127 {
                        seq![p.0 as u8]
                    } else {
                        char_bytes(enc, p.0 as int)
                    };
                    let ghost nxt = if i + p.1 <= to {
                        i + p.1
                    } else {
                        to as int
                    };
                    let ghost rest2 = assembled_info(s@, nxt, to as int, enc, mini);
                    let ghost pre = (ds.text@, ds.buffer@);
                    proof {
                        assert(rest.0 == piece + rest2.0);
                        lemma_push_bytes_concat(ds.text@, ds.buffer@, enc, piece, rest2.0);
                    }
                    if p.0 <= 127 {
                        ds.append_byte(p.0 as u8);
                        proof {
                            assert(piece =~= seq![p.0 as u8]);
                            lemma_push_one(pre.0, pre.1, enc, p.0 as u8);
                            assert(push_bytes_model(pre.0, pre.1, enc, piece) == (ds.text@,
                            ds.buffer@));
                        }
                    } else {
                        if let Some(c) = crate::html_entities::char_from_code(p.0) {
                            ds.append(c);
                            proof {
                                assert(char_bytes(enc, c as int) == piece);
                                assert(push_bytes_model(pre.0, pre.1, enc, piece) == (ds.text@,
                                ds.buffer@));
                            }
                        } else {
                            proof {
                                assert(false);
                            }
                        }
                    }
                    ent = true;
                    if p.0 == 60 {
                        lt = true;
                    }
                    proof {
                        assert(push_bytes_model(ds.text@, ds.buffer@, enc, rest2.0) == target);
                        assert(rest.1);
                        assert(rest.2 == (rest2.2 || p.0 as int == 60));
                        assert(full.1 == (ent || rest2.1));
                        assert(full.2 == (lt || rest2.2));
                    }
                    if i + p.1 <= to {
                        i = i + p.1;
                    } else {
                        i = to;
                    }
                    proof {
                        assert(i as int == nxt);
                    }
                },
                None => {
                    proof {
                        let rest2 = assembled_info(s@, i as int + 1, to as int, enc, mini);
                        assert(rest.0 == seq![s@[i as int]] + rest2.0);
                        lemma_push_bytes_concat(
                            ds.text@,
                            ds.buffer@,
                            enc,
                            seq![s@[i as int]],
                            rest2.0,
                        );
                        lemma_push_one(ds.text@, ds.buffer@, enc, s@[i as int]);
                    }
                    ds.append_byte(b);
                    i += 1;
                },
            }
        } else {
            proof {
                let rest2 = assembled_info(s@, i as int + 1, to as int, enc, mini);
                assert(rest.0 == seq![s@[i as int]] + rest2.0);
                lemma_push_bytes_concat(ds.text@, ds.buffer@, enc, seq![s@[i as int]], rest2.0);
                lemma_push_one(ds.text@, ds.buffer@, enc, s@[i as int]);
            }
            ds.append_byte(b);
            i += 1;
        }
    }
    (ent, lt)
}

} // verus!
