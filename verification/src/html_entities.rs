use vstd::prelude::*;

verus! {

/// A decimal digit byte.
pub open spec fn is_digit_byte(b: u8) -> bool {
    48 <= b <= 57
}

/// A hexadecimal digit byte.
pub open spec fn is_hex_byte(b: u8) -> bool {
    is_digit_byte(b) || (97 <= b <= 102) || (65 <= b <= 70)
}

/// An ASCII letter byte.
pub open spec fn is_alpha_byte(b: u8) -> bool {
    (97 <= b <= 122) || (65 <= b <= 90)
}

/// Numeric value of one hexadecimal digit byte.
pub open spec fn hex_digit_val(b: u8) -> int {
    if is_digit_byte(b) {
        b - 48
    } else if 97 <= b <= 102 {
        b - 87
    } else {
        b - 55
    }
}

/// Value of a decimal digit run.
pub open spec fn dec_val(s: Seq<u8>) -> int
    decreases s.len(),
{
    if s.len() == 0 {
        0
    } else {
        dec_val(s.take(s.len() - 1)) * 10 + (s.last() - 48)
    }
}

/// Value of a hexadecimal digit run.
pub open spec fn hex_val(s: Seq<u8>) -> int
    decreases s.len(),
{
    if s.len() == 0 {
        0
    } else {
        hex_val(s.take(s.len() - 1)) * 16 + hex_digit_val(s.last())
    }
}

/// Powers of a base, for bounding digit-run values.
pub open spec fn pow_of(base: int, n: nat) -> int
    decreases n,
{
    if n == 0 {
        1
    } else {
        base * pow_of(base, (n - 1) as nat)
    }
}

pub proof fn lemma_dec_val_bound(s: Seq<u8>)
    requires
        forall|k: int| 0 <= k < s.len() ==> is_digit_byte(#[trigger] s[k]),
    ensures
        0 <= dec_val(s) < pow_of(10, s.len()),
    decreases s.len(),
{
    if s.len() > 0 {
        lemma_dec_val_bound(s.take(s.len() - 1));
    }
}

pub proof fn lemma_hex_val_bound(s: Seq<u8>)
    requires
        forall|k: int| 0 <= k < s.len() ==> is_hex_byte(#[trigger] s[k]),
    ensures
        0 <= hex_val(s) < pow_of(16, s.len()),
    decreases s.len(),
{
    if s.len() > 0 {
        lemma_hex_val_bound(s.take(s.len() - 1));
    }
}

/// A code point std's char type accepts.
pub open spec fn is_valid_code(v: int) -> bool {
    (0 <= v < 0xD800) || (0xE000 <= v <= 0x10FFFF)
}

/// Relies on std's char::from_u32: it returns the character with the given
/// code point exactly when the code point is not a surrogate and is at most
/// 0x10FFFF.
#[verifier::external_body]
pub fn char_from_code(v: u32) -> (r: Option<char>)
    ensures
        r.is_some() == is_valid_code(v as int),
        (r matches Some(c) ==> c as int == v as int),
{
    char::from_u32(v)
}

/// The code point a named character reference resolves to. In mini mode only
/// the small common subset (amp, lt, gt, quot, nbsp) resolves; the full table
/// adds further common names. An unknown name does not resolve.
pub open spec fn named_code(name: Seq<u8>, mini: bool) -> Option<int> {
    if name.len() == 3 && name[0] == 97 && name[1] == 109 && name[2] == 112 {
        Some(38)  // amp
    } else if name.len() == 2 && name[0] == 108 && name[1] == 116 {
        Some(60)  // lt
    } else if name.len() == 2 && name[0] == 103 && name[1] == 116 {
        Some(62)  // gt
    } else if name.len() == 4 && name[0] == 113 && name[1] == 117 && name[2] == 111 && name[3]
        == 116 {
        Some(34)  // quot
    } else if name.len() == 4 && name[0] == 110 && name[1] == 98 && name[2] == 115 && name[3]
        == 112 {
        Some(160)  // nbsp
    } else if mini {
        None
    } else if name.len() == 4 && name[0] == 97 && name[1] == 112 && name[2] == 111 && name[3]
        == 115 {
        Some(39)  // apos
    } else if name.len() == 4 && name[0] == 99 && name[1] == 111 && name[2] == 112 && name[3]
        == 121 {
        Some(169)  // copy
    } else if name.len() == 3 && name[0] == 114 && name[1] == 101 && name[2] == 103 {
        Some(174)  // reg
    } else if name.len() == 5 && name[0] == 116 && name[1] == 114 && name[2] == 97 && name[3]
        == 100 && name[4] == 101 {
        Some(8482)  // trade
    } else if name.len() == 5 && name[0] == 109 && name[1] == 100 && name[2] == 97 && name[3]
        == 115 && name[4] == 104 {
        Some(8212)  // mdash
    } else if name.len() == 5 && name[0] == 110 && name[1] == 100 && name[2] == 97 && name[3]
        == 115 && name[4] == 104 {
        Some(8211)  // ndash
    } else if name.len() == 6 && name[0] == 104 && name[1] == 101 && name[2] == 108 && name[3]
        == 108 && name[4] == 105 && name[5] == 112 {
        Some(8230)  // hellip
    } else if name.len() == 5 && name[0] == 108 && name[1] == 97 && name[2] == 113 && name[3]
        == 117 && name[4] == 111 {
        Some(171)  // laquo
    } else if name.len() == 5 && name[0] == 114 && name[1] == 97 && name[2] == 113 && name[3]
        == 117 && name[4] == 111 {
        Some(187)  // raquo
    } else if name.len() == 3 && name[0] == 100 && name[1] == 101 && name[2] == 103 {
        Some(176)  // deg
    } else if name.len() == 6 && name[0] == 112 && name[1] == 108 && name[2] == 117 && name[3]
        == 115 && name[4] == 109 && name[5] == 110 {
        Some(177)  // plusmn
    } else if name.len() == 6 && name[0] == 109 && name[1] == 105 && name[2] == 100 && name[3]
        == 100 && name[4] == 111 && name[5] == 116 {
        Some(183)  // middot
    } else if name.len() == 4 && name[0] == 101 && name[1] == 117 && name[2] == 114 && name[3]
        == 111 {
        Some(8364)  // euro
    } else if name.len() == 5 && name[0] == 112 && name[1] == 111 && name[2] == 117 && name[3]
        == 110 && name[4] == 100 {
        Some(163)  // pound
    } else if name.len() == 3 && name[0] == 121 && name[1] == 101 && name[2] == 110 {
        Some(165)  // yen
    } else if name.len() == 4 && name[0] == 99 && name[1] == 101 && name[2] == 110 && name[3]
        == 116 {
        Some(162)  // cent
    } else if name.len() == 3 && name[0] == 115 && name[1] == 104 && name[2] == 121 {
        Some(173)  // shy
    } else if name.len() == 5 && name[0] == 116 && name[1] == 105 && name[2] == 109 && name[3]
        == 101 && name[4] == 115 {
        Some(215)  // times
    } else if name.len() == 6 && name[0] == 100 && name[1] == 105 && name[2] == 118 && name[3]
        == 105 && name[4] == 100 && name[5] == 101 {
        Some(247)  // divide
    } else {
        None
    }
}

/// First position at or after `i` whose byte is not a decimal digit.
pub open spec fn scan_digits(s: Seq<u8>, i: int) -> int
    decreases s.len() - i,
{
    if i < 0 || i >= s.len() || !is_digit_byte(s[i]) {
        i
    } else {
        scan_digits(s, i + 1)
    }
}

/// First position at or after `i` whose byte is not a hexadecimal digit.
pub open spec fn scan_hex(s: Seq<u8>, i: int) -> int
    decreases s.len() - i,
{
    if i < 0 || i >= s.len() || !is_hex_byte(s[i]) {
        i
    } else {
        scan_hex(s, i + 1)
    }
}

/// First position at or after `i` whose byte is not an ASCII letter.
pub open spec fn scan_alpha(s: Seq<u8>, i: int) -> int
    decreases s.len() - i,
{
    if i < 0 || i >= s.len() || !is_alpha_byte(s[i]) {
        i
    } else {
        scan_alpha(s, i + 1)
    }
}

pub proof fn lemma_scan_digits(s: Seq<u8>, i: int)
    requires
        0 <= i <= s.len(),
    ensures
        i <= scan_digits(s, i) <= s.len(),
        forall|k: int| i <= k < scan_digits(s, i) ==> is_digit_byte(#[trigger] s[k]),
        scan_digits(s, i) < s.len() ==> !is_digit_byte(s[scan_digits(s, i)]),
    decreases s.len() - i,
{
    if i < s.len() && is_digit_byte(s[i]) {
        lemma_scan_digits(s, i + 1);
    }
}

pub proof fn lemma_scan_hex(s: Seq<u8>, i: int)
    requires
        0 <= i <= s.len(),
    ensures
        i <= scan_hex(s, i) <= s.len(),
        forall|k: int| i <= k < scan_hex(s, i) ==> is_hex_byte(#[trigger] s[k]),
        scan_hex(s, i) < s.len() ==> !is_hex_byte(s[scan_hex(s, i)]),
    decreases s.len() - i,
{
    if i < s.len() && is_hex_byte(s[i]) {
        lemma_scan_hex(s, i + 1);
    }
}

pub proof fn lemma_scan_alpha(s: Seq<u8>, i: int)
    requires
        0 <= i <= s.len(),
    ensures
        i <= scan_alpha(s, i) <= s.len(),
        forall|k: int| i <= k < scan_alpha(s, i) ==> is_alpha_byte(#[trigger] s[k]),
        scan_alpha(s, i) < s.len() ==> !is_alpha_byte(s[scan_alpha(s, i)]),
    decreases s.len() - i,
{
    if i < s.len() && is_alpha_byte(s[i]) {
        lemma_scan_alpha(s, i + 1);
    }
}

/// The character reference starting at position `i` (which holds `&`): the
/// code point it resolves to and the number of bytes it spans, or nothing
/// when the reference is unknown or malformed and passes through as literal
/// text. Numeric references are `&#` followed by up to seven decimal digits,
/// or `&#x`/`&#X` followed by up to six hexadecimal digits, closed by `;`;
/// named references are letter runs closed by `;` and resolved by
/// `named_code`.
pub open spec fn entity_code_at(s: Seq<u8>, i: int, mini: bool) -> Option<(int, int)> {
    if i + 1 >= s.len() {
        None
    } else if s[i + 1] == 35 {
        if i + 2 < s.len() && (s[i + 2] == 120 || s[i + 2] == 88) {
            let e = scan_hex(s, i + 3);
            if e > i + 3 && e - (i + 3) <= 6 && e < s.len() && s[e] == 59 {
                let v = hex_val(s.subrange(i + 3, e));
                if is_valid_code(v) {
                    Some((v, e + 1 - i))
                } else {
                    None
                }
            } else {
                None
            }
        } else {
            let e = scan_digits(s, i + 2);
            if e > i + 2 && e - (i + 2) <= 7 && e < s.len() && s[e] == 59 {
                let v = dec_val(s.subrange(i + 2, e));
                if is_valid_code(v) {
                    Some((v, e + 1 - i))
                } else {
                    None
                }
            } else {
                None
            }
        }
    } else {
        let e = scan_alpha(s, i + 1);
        if e > i + 1 && e - (i + 1) <= 31 && e < s.len() && s[e] == 59 {
            match named_code(s.subrange(i + 1, e), mini) {
                Some(v) => Some((v, e + 1 - i)),
                None => None,
            }
        } else {
            None
        }
    }
}

pub proof fn lemma_entity_code_at(s: Seq<u8>, i: int, mini: bool)
    requires
        0 <= i < s.len(),
    ensures
        (entity_code_at(s, i, mini) matches Some(p) ==> 4 <= p.1 && i + p.1 <= s.len()
            && is_valid_code(p.0)),
{
    if i + 1 < s.len() && s[i + 1] == 35 {
        if i + 2 < s.len() && (s[i + 2] == 120 || s[i + 2] == 88) {
            lemma_scan_hex(s, i + 3);
        } else {
            lemma_scan_digits(s, i + 2);
        }
    } else if i + 1 < s.len() {
        lemma_scan_alpha(s, i + 1);
    }
}

/// Resolves a named character reference over the bytes `s[from..to]`.
fn named_entity_code(s: &[u8], from: usize, to: usize, mini: bool) -> (r: Option<u32>)
    requires
        from <= to <= s@.len(),
    ensures
        ({
            let spec_r = named_code(s@.subrange(from as int, to as int), mini);
            (r.is_some() == spec_r.is_some()) && (r matches Some(v) ==> spec_r == Some(v as int))
        }),
{
    let n = to - from;
    proof {
        assert(s@.subrange(from as int, to as int).len() == n);
        assert(forall|k: int|
            0 <= k < n ==> s@.subrange(from as int, to as int)[k] == s@[from + k]);
    }
    if n == 3 && s[from + 0] == 97 && s[from + 1] == 109 && s[from + 2] == 112 {
        return Some(38);
    }
    if n == 2 && s[from + 0] == 108 && s[from + 1] == 116 {
        return Some(60);
    }
    if n == 2 && s[from + 0] == 103 && s[from + 1] == 116 {
        return Some(62);
    }
    if n == 4 && s[from + 0] == 113 && s[from + 1] == 117 && s[from + 2] == 111 && s[from + 3] == 116 {
        return Some(34);
    }
    if n == 4 && s[from + 0] == 110 && s[from + 1] == 98 && s[from + 2] == 115 && s[from + 3] == 112 {
        return Some(160);
    }
    if mini {
        return None;
    }
    if n == 4 && s[from + 0] == 97 && s[from + 1] == 112 && s[from + 2] == 111 && s[from + 3] == 115 {
        return Some(39);
    }
    if n == 4 && s[from + 0] == 99 && s[from + 1] == 111 && s[from + 2] == 112 && s[from + 3] == 121 {
        return Some(169);
    }
    if n == 3 && s[from + 0] == 114 && s[from + 1] == 101 && s[from + 2] == 103 {
        return Some(174);
    }
    if n == 5 && s[from + 0] == 116 && s[from + 1] == 114 && s[from + 2] == 97 && s[from + 3] == 100 && s[from + 4] == 101 {
        return Some(8482);
    }
    if n == 5 && s[from + 0] == 109 && s[from + 1] == 100 && s[from + 2] == 97 && s[from + 3] == 115 && s[from + 4] == 104 {
        return Some(8212);
    }
    if n == 5 && s[from + 0] == 110 && s[from + 1] == 100 && s[from + 2] == 97 && s[from + 3] == 115 && s[from + 4] == 104 {
        return Some(8211);
    }
    if n == 6 && s[from + 0] == 104 && s[from + 1] == 101 && s[from + 2] == 108 && s[from + 3] == 108 && s[from + 4] == 105 && s[from + 5] == 112 {
        return Some(8230);
    }
    if n == 5 && s[from + 0] == 108 && s[from + 1] == 97 && s[from + 2] == 113 && s[from + 3] == 117 && s[from + 4] == 111 {
        return Some(171);
    }
    if n == 5 && s[from + 0] == 114 && s[from + 1] == 97 && s[from + 2] == 113 && s[from + 3] == 117 && s[from + 4] == 111 {
        return Some(187);
    }
    if n == 3 && s[from + 0] == 100 && s[from + 1] == 101 && s[from + 2] == 103 {
        return Some(176);
    }
    if n == 6 && s[from + 0] == 112 && s[from + 1] == 108 && s[from + 2] == 117 && s[from + 3] == 115 && s[from + 4] == 109 && s[from + 5] == 110 {
        return Some(177);
    }
    if n == 6 && s[from + 0] == 109 && s[from + 1] == 105 && s[from + 2] == 100 && s[from + 3] == 100 && s[from + 4] == 111 && s[from + 5] == 116 {
        return Some(183);
    }
    if n == 4 && s[from + 0] == 101 && s[from + 1] == 117 && s[from + 2] == 114 && s[from + 3] == 111 {
        return Some(8364);
    }
    if n == 5 && s[from + 0] == 112 && s[from + 1] == 111 && s[from + 2] == 117 && s[from + 3] == 110 && s[from + 4] == 100 {
        return Some(163);
    }
    if n == 3 && s[from + 0] == 121 && s[from + 1] == 101 && s[from + 2] == 110 {
        return Some(165);
    }
    if n == 4 && s[from + 0] == 99 && s[from + 1] == 101 && s[from + 2] == 110 && s[from + 3] == 116 {
        return Some(162);
    }
    if n == 3 && s[from + 0] == 115 && s[from + 1] == 104 && s[from + 2] == 121 {
        return Some(173);
    }
    if n == 5 && s[from + 0] == 116 && s[from + 1] == 105 && s[from + 2] == 109 && s[from + 3] == 101 && s[from + 4] == 115 {
        return Some(215);
    }
    if n == 6 && s[from + 0] == 100 && s[from + 1] == 105 && s[from + 2] == 118 && s[from + 3] == 105 && s[from + 4] == 100 && s[from + 5] == 101 {
        return Some(247);
    }
    None
}

proof fn lemma_pow16_table()
    ensures
        pow_of(16, 0) == 1,
        pow_of(16, 1) == 16,
        pow_of(16, 2) == 256,
        pow_of(16, 3) == 4096,
        pow_of(16, 4) == 65536,
        pow_of(16, 5) == 1048576,
        pow_of(16, 6) == 16777216,
{
    assert(pow_of(16, 0) == 1);
    assert(pow_of(16, 1) == 16 * pow_of(16, 0));
    assert(pow_of(16, 2) == 16 * pow_of(16, 1));
    assert(pow_of(16, 3) == 16 * pow_of(16, 2));
    assert(pow_of(16, 4) == 16 * pow_of(16, 3));
    assert(pow_of(16, 5) == 16 * pow_of(16, 4));
    assert(pow_of(16, 6) == 16 * pow_of(16, 5));
}

proof fn lemma_pow10_table()
    ensures
        pow_of(10, 0) == 1,
        pow_of(10, 1) == 10,
        pow_of(10, 2) == 100,
        pow_of(10, 3) == 1000,
        pow_of(10, 4) == 10000,
        pow_of(10, 5) == 100000,
        pow_of(10, 6) == 1000000,
        pow_of(10, 7) == 10000000,
{
    assert(pow_of(10, 0) == 1);
    assert(pow_of(10, 1) == 10 * pow_of(10, 0));
    assert(pow_of(10, 2) == 10 * pow_of(10, 1));
    assert(pow_of(10, 3) == 10 * pow_of(10, 2));
    assert(pow_of(10, 4) == 10 * pow_of(10, 3));
    assert(pow_of(10, 5) == 10 * pow_of(10, 4));
    assert(pow_of(10, 6) == 10 * pow_of(10, 5));
    assert(pow_of(10, 7) == 10 * pow_of(10, 6));
}

/// Value of the decimal digit run `s[from..to]`, bounded to seven digits.
fn dec_value(s: &[u8], from: usize, to: usize) -> (r: u32)
    requires
        from <= to <= s@.len(),
        to - from <= 7,
        forall|k: int| from <= k < to ==> is_digit_byte(#[trigger] s@[k]),
    ensures
        r as int == dec_val(s@.subrange(from as int, to as int)),
{
    let mut v: u32 = 0;
    let mut k: usize = from;
    proof {
        assert(s@.subrange(from as int, from as int) =~= Seq::<u8>::empty());
        lemma_pow10_table();
    }
    while k < to
        invariant
            from <= k <= to <= s@.len(),
            to - from <= 7,
            forall|x: int| from <= x < to ==> is_digit_byte(#[trigger] s@[x]),
            v as int == dec_val(s@.subrange(from as int, k as int)),
            (v as int) < pow_of(10, (k - from) as nat),
        decreases to - k,
    {
        proof {
            lemma_pow10_table();
            let pre = s@.subrange(from as int, k as int);
            let m = k - from;
            assert(m <= 6);
            if m == 0 {
                assert(pow_of(10, m as nat) == 1);
            } else if m == 1 {
                assert(pow_of(10, m as nat) == 10);
            } else if m == 2 {
                assert(pow_of(10, m as nat) == 100);
            } else if m == 3 {
                assert(pow_of(10, m as nat) == 1000);
            } else if m == 4 {
                assert(pow_of(10, m as nat) == 10000);
            } else if m == 5 {
                assert(pow_of(10, m as nat) == 100000);
            } else {
                assert(pow_of(10, m as nat) == 1000000);
            }
            assert(v < 1000000);
            assert(pow_of(10, (m + 1) as nat) == 10 * pow_of(10, m as nat));
            let nxt = s@.subrange(from as int, k as int + 1);
            assert(nxt.take(nxt.len() - 1) =~= pre);
            assert(nxt.last() == s@[k as int]);
        }
        v = v * 10 + ((s[k] - 48) as u32);
        k += 1;
    }
    v
}

/// Value of the hexadecimal digit run `s[from..to]`, bounded to six digits.
fn hex_value(s: &[u8], from: usize, to: usize) -> (r: u32)
    requires
        from <= to <= s@.len(),
        to - from <= 6,
        forall|k: int| from <= k < to ==> is_hex_byte(#[trigger] s@[k]),
    ensures
        r as int == hex_val(s@.subrange(from as int, to as int)),
{
    let mut v: u32 = 0;
    let mut k: usize = from;
    proof {
        assert(s@.subrange(from as int, from as int) =~= Seq::<u8>::empty());
        lemma_pow16_table();
    }
    while k < to
        invariant
            from <= k <= to <= s@.len(),
            to - from <= 6,
            forall|x: int| from <= x < to ==> is_hex_byte(#[trigger] s@[x]),
            v as int == hex_val(s@.subrange(from as int, k as int)),
            (v as int) < pow_of(16, (k - from) as nat),
        decreases to - k,
    {
        proof {
            lemma_pow16_table();
            let pre = s@.subrange(from as int, k as int);
            let m = k - from;
            assert(m <= 5);
            if m == 0 {
                assert(pow_of(16, m as nat) == 1);
            } else if m == 1 {
                assert(pow_of(16, m as nat) == 16);
            } else if m == 2 {
                assert(pow_of(16, m as nat) == 256);
            } else if m == 3 {
                assert(pow_of(16, m as nat) == 4096);
            } else if m == 4 {
                assert(pow_of(16, m as nat) == 65536);
            } else {
                assert(pow_of(16, m as nat) == 1048576);
            }
            assert(v < 1048576);
            assert(pow_of(16, (m + 1) as nat) == 16 * pow_of(16, m as nat));
            let nxt = s@.subrange(from as int, k as int + 1);
            assert(nxt.take(nxt.len() - 1) =~= pre);
            assert(nxt.last() == s@[k as int]);
        }
        let b = s[k];
        let d: u32 = if b >= 97 {
            (b - 87) as u32
        } else if b >= 65 {
            (b - 55) as u32
        } else {
            (b - 48) as u32
        };
        v = v * 16 + d;
        k += 1;
    }
    v
}

/// Decodes the character reference starting at `i`, which must hold `&`:
/// returns the resolved code point and the byte length of the reference, or
/// nothing when the reference is unknown or malformed.
pub fn decode_entity(s: &[u8], i: usize, mini: bool) -> (r: Option<(u32, usize)>)
    requires
        i < s@.len(),
    ensures
        r.is_some() == entity_code_at(s@, i as int, mini).is_some(),
        (r matches Some(p) ==> entity_code_at(s@, i as int, mini) == Some((
            p.0 as int,
            p.1 as int,
        ))),
{
    let n = s.len();
    if i + 1 >= n {
        return None;
    }
    if s[i + 1] == 35 {
        if i + 2 < n && (s[i + 2] == 120 || s[i + 2] == 88) {
            let mut e: usize = i + 3;
            while e < n && (s[e] >= 48 && s[e] <= 57 || s[e] >= 97 && s[e] <= 102 || s[e] >= 65
                && s[e] <= 70)
                invariant
                    n == s@.len(),
                    i + 3 <= e <= s@.len(),
                    scan_hex(s@, i as int + 3) == scan_hex(s@, e as int),
                decreases s@.len() - e,
            {
                e += 1;
            }
            proof {
                assert(scan_hex(s@, e as int) == e);
                lemma_scan_hex(s@, i as int + 3);
            }
            if e > i + 3 && e - (i + 3) <= 6 && e < n && s[e] == 59 {
                let v = hex_value(s, i + 3, e);
                match char_from_code(v) {
                    Some(_) => Some((v, e + 1 - i)),
                    None => None,
                }
            } else {
                None
            }
        } else {
            let mut e: usize = i + 2;
            while e < n && s[e] >= 48 && s[e] <= 57
                invariant
                    n == s@.len(),
                    i + 2 <= e <= s@.len(),
                    scan_digits(s@, i as int + 2) == scan_digits(s@, e as int),
                decreases s@.len() - e,
            {
                e += 1;
            }
            proof {
                assert(scan_digits(s@, e as int) == e);
                lemma_scan_digits(s@, i as int + 2);
            }
            if e > i + 2 && e - (i + 2) <= 7 && e < n && s[e] == 59 {
                let v = dec_value(s, i + 2, e);
                match char_from_code(v) {
                    Some(_) => Some((v, e + 1 - i)),
                    None => None,
                }
            } else {
                None
            }
        }
    } else {
        let mut e: usize = i + 1;
        while e < n && (s[e] >= 97 && s[e] <= 122 || s[e] >= 65 && s[e] <= 90)
            invariant
                n == s@.len(),
                i + 1 <= e <= s@.len(),
                scan_alpha(s@, i as int + 1) == scan_alpha(s@, e as int),
            decreases s@.len() - e,
        {
            e += 1;
        }
        proof {
            assert(scan_alpha(s@, e as int) == e);
            lemma_scan_alpha(s@, i as int + 1);
        }
        if e > i + 1 && e - (i + 1) <= 31 && e < n && s[e] == 59 {
            match named_entity_code(s, i + 1, e, mini) {
                Some(v) => Some((v, e + 1 - i)),
                None => None,
            }
        } else {
            None
        }
    }
}

} // verus!
