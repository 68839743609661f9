use vstd::prelude::*;

verus! {

/// ASCII lower-casing of a single byte: `A`..`Z` fold to `a`..`z`,
/// everything else is unchanged.
pub open spec fn lc_byte(b: u8) -> u8 {
    if 65 <= b <= 90 {
        (b + 32) as u8
    } else {
        b
    }
}

/// ASCII upper-casing of a single byte: `a`..`z` fold to `A`..`Z`,
/// everything else is unchanged.
pub open spec fn uc_byte(b: u8) -> u8 {
    if 97 <= b <= 122 {
        (b - 32) as u8
    } else {
        b
    }
}

/// A byte sequence is lower-case-fixed when ASCII lower-casing leaves it alone.
pub open spec fn lc_fixed(s: Seq<u8>) -> bool {
    forall|i: int| 0 <= i < s.len() ==> lc_byte(s[i]) == s[i]
}

/// ASCII lower-casing of a byte sequence.
pub open spec fn lc_seq(s: Seq<u8>) -> Seq<u8> {
    s.map_values(|b: u8| lc_byte(b))
}

/// ASCII upper-casing of a byte sequence.
pub open spec fn uc_seq(s: Seq<u8>) -> Seq<u8> {
    s.map_values(|b: u8| uc_byte(b))
}

pub fn lower_byte(b: u8) -> (r: u8)
    ensures
        r == lc_byte(b),
{
    if 65 <= b && b <= 90 {
        b + 32
    } else {
        b
    }
}

pub fn upper_byte(b: u8) -> (r: u8)
    ensures
        r == uc_byte(b),
{
    if 97 <= b && b <= 122 {
        b - 32
    } else {
        b
    }
}

/// ASCII upper-casing of a whole byte vector.
pub fn upper_bytes(v: &Vec<u8>) -> (r: Vec<u8>)
    ensures
        r@ == uc_seq(v@),
{
    let mut out: Vec<u8> = Vec::new();
    let mut i: usize = 0;
    while i < v.len()
        invariant
            i <= v.len(),
            out@ =~= uc_seq(v@).take(i as int),
        decreases v.len() - i,
    {
        out.push(upper_byte(v[i]));
        i += 1;
        proof {
            assert(out@ =~= uc_seq(v@).take(i as int));
        }
    }
    proof {
        assert(out@ =~= uc_seq(v@));
    }
    out
}

/// Exact equality of two byte slices.
pub fn bytes_eq(a: &[u8], b: &[u8]) -> (r: bool)
    ensures
        r == (a@ == b@),
{
    if a.len() != b.len() {
        proof {
            assert(a@.len() != b@.len());
        }
        return false;
    }
    let mut i: usize = 0;
    while i < a.len()
        invariant
            i <= a.len(),
            a@.len() == b@.len(),
            forall|j: int| 0 <= j < i ==> a@[j] == b@[j],
        decreases a.len() - i,
    {
        if a[i] != b[i] {
            return false;
        }
        i += 1;
    }
    proof {
        assert(a@ =~= b@);
    }
    true
}

/// Copies the bytes of `s` between `from` (inclusive) and `to` (exclusive)
/// into a fresh vector.
pub fn copy_range(s: &[u8], from: usize, to: usize) -> (r: Vec<u8>)
    requires
        from <= to <= s@.len(),
    ensures
        r@ == s@.subrange(from as int, to as int),
{
    let mut out: Vec<u8> = Vec::new();
    let mut i: usize = from;
    while i < to
        invariant
            from <= i <= to <= s@.len(),
            out@ =~= s@.subrange(from as int, i as int),
        decreases to - i,
    {
        out.push(s[i]);
        i += 1;
        proof {
            assert(out@ =~= s@.subrange(from as int, i as int));
        }
    }
    out
}

/// Relies on std's String::push: it appends exactly the given character.
#[verifier::external_body]
pub fn string_push(s: &mut String, ch: char)
    ensures
        final(s)@ == old(s)@.push(ch),
{
    s.push(ch)
}

/// Relies on std's str::chars: collecting it yields exactly the characters
/// of the string.
#[verifier::external_body]
pub fn str_chars(s: &str) -> (r: Vec<char>)
    ensures
        r@ == s@,
{
    s.chars().collect()
}

/// Each byte read as the character with the same code point.
pub open spec fn latin1_seq(s: Seq<u8>) -> Seq<char> {
    s.map_values(|b: u8| b as char)
}

/// Builds the string whose characters are the bytes of `v`, each taken as the
/// character with the same code point (exact for ASCII data, which is all the
/// tokenizer's tables are tuned for).
pub fn latin1_string(v: &[u8]) -> (r: String)
    ensures
        r@ == latin1_seq(v@),
{
    let mut out = String::new();
    let mut i: usize = 0;
    while i < v.len()
        invariant
            i <= v.len(),
            out@ =~= latin1_seq(v@).take(i as int),
        decreases v.len() - i,
    {
        string_push(&mut out, v[i] as char);
        i += 1;
        proof {
            assert(out@ =~= latin1_seq(v@).take(i as int));
        }
    }
    proof {
        assert(out@ =~= latin1_seq(v@));
    }
    out
}

} // verus!
