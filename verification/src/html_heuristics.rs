use vstd::prelude::*;

use crate::bytes::{
    bytes_eq, copy_range, latin1_seq, latin1_string, lc_byte, lc_fixed, lc_seq, lower_byte, string_push, uc_byte, uc_seq,
    upper_byte, upper_bytes,
};
use vstd::string::StringSliceAdditionalSpecFns;

verus! {

/// Maximum number of strings allowed to be set (all lower-cased).
pub const MAX_STRINGS: usize = 1024;

/// Maximum number of distinct tag names the table accepts.
pub const MAX_TAGS: usize = 255;

/// Maximum number of distinct attribute names the table accepts. Attribute
/// data ids are stored doubled (plus one for the upper-case form) in a byte
/// table, so the count is bounded so that `2 * id + 1` still fits in a byte.
pub const MAX_ATTRS: usize = 126;

/// Whitespace or `>`: the bytes accepted after a single-character tag name.
pub open spec fn is_terminator_byte(b: u8) -> bool {
    b == 32 || b == 9 || b == 13 || b == 10 || b == 62
}

/// Canonical form of a tag or attribute name: ASCII whitespace trimmed from
/// both ends, then ASCII lower-cased.
pub open spec fn canon_of(s: Seq<u8>) -> Seq<u8> {
    lc_seq(trim_of(s))
}

/// ASCII whitespace trimmed from both ends.
pub open spec fn trim_of(s: Seq<u8>) -> Seq<u8>
    decreases s.len(),
{
    if s.len() == 0 {
        s
    } else if crate::is_whitespace_byte(s[0]) {
        trim_of(s.skip(1))
    } else if crate::is_whitespace_byte(s[s.len() - 1]) {
        trim_of(s.take(s.len() - 1))
    } else {
        s
    }
}

/// Trims ASCII whitespace from both ends and ASCII lower-cases the rest.
pub fn canon_bytes(s: &[u8]) -> (r: Vec<u8>)
    ensures
        r@ == canon_of(s@),
{
    let mut lo: usize = 0;
    let mut hi: usize = s.len();
    proof {
        assert(s@.subrange(0, s@.len() as int) =~= s@);
    }
    while lo < hi && crate::is_whitespace(s[lo])
        invariant
            lo <= hi <= s@.len(),
            trim_of(s@) == trim_of(s@.subrange(lo as int, hi as int)),
        decreases hi - lo,
    {
        proof {
            assert(s@.subrange(lo as int, hi as int).skip(1) =~= s@.subrange(
                lo as int + 1,
                hi as int,
            ));
        }
        lo += 1;
    }
    while lo < hi && crate::is_whitespace(s[hi - 1])
        invariant
            lo <= hi <= s@.len(),
            trim_of(s@) == trim_of(s@.subrange(lo as int, hi as int)),
            lo < hi ==> !crate::is_whitespace_byte(s@[lo as int]),
        decreases hi - lo,
    {
        proof {
            assert(s@.subrange(lo as int, hi as int).take(hi - lo - 1) =~= s@.subrange(
                lo as int,
                hi as int - 1,
            ));
        }
        hi -= 1;
    }
    proof {
        let t = s@.subrange(lo as int, hi as int);
        assert(trim_of(t) == t) by {
            if t.len() > 0 {
                assert(t[0] == s@[lo as int]);
                assert(t[t.len() - 1] == s@[hi as int - 1]);
            }
        }
    }
    let mut out: Vec<u8> = Vec::new();
    let mut i: usize = lo;
    while i < hi
        invariant
            lo <= i <= hi <= s@.len(),
            out@ =~= lc_seq(s@.subrange(lo as int, hi as int)).take(i - lo),
        decreases hi - i,
    {
        out.push(lower_byte(s[i]));
        i += 1;
        proof {
            assert(out@ =~= lc_seq(s@.subrange(lo as int, hi as int)).take(i - lo));
        }
    }
    proof {
        assert(out@ =~= canon_of(s@));
    }
    out
}

/// Index of `name` in a list of names, or the list length when absent.
pub open spec fn find_name(names: Seq<Seq<u8>>, name: Seq<u8>) -> int
    decreases names.len(),
{
    if names.len() == 0 {
        0
    } else if names[0] == name {
        0
    } else {
        1 + find_name(names.skip(1), name)
    }
}

pub proof fn lemma_find_name(names: Seq<Seq<u8>>, name: Seq<u8>)
    ensures
        0 <= find_name(names, name) <= names.len(),
        find_name(names, name) < names.len() ==> names[find_name(names, name)] == name,
        forall|j: int| 0 <= j < find_name(names, name) ==> names[j] != name,
    decreases names.len(),
{
    if names.len() > 0 && names[0] != name {
        lemma_find_name(names.skip(1), name);
        assert forall|j: int| 0 <= j < find_name(names, name) implies names[j] != name by {
            if j > 0 {
                assert(names.skip(1)[j - 1] == names[j]);
            }
        }
    }
}

/// Finds `name` among the registered names; returns its index, or the list
/// length when it is not there.
fn find_in_names(names: &Vec<Vec<u8>>, name: &Vec<u8>) -> (r: usize)
    ensures
        r == find_name(names.deep_view(), name@),
{
    let ghost all = names.deep_view();
    proof {
        assert(all.skip(0) =~= all);
    }
    let mut i: usize = 0;
    while i < names.len()
        invariant
            i <= names@.len(),
            all == names.deep_view(),
            all.len() == names@.len(),
            forall|j: int| 0 <= j < all.len() ==> all[j] == names@[j]@,
            forall|j: int| 0 <= j < i ==> all[j] != name@,
            find_name(all, name@) == i + find_name(all.skip(i as int), name@),
        decreases names.len() - i,
    {
        proof {
            assert(all.skip(i as int)[0] == all[i as int]);
        }
        if bytes_eq(names[i].as_slice(), name.as_slice()) {
            proof {
                assert(find_name(all.skip(i as int), name@) == 0);
            }
            return i;
        }
        proof {
            assert(all.skip(i as int).skip(1) =~= all.skip(i as int + 1));
        }
        i += 1;
    }
    proof {
        assert(all.skip(i as int) =~= Seq::<Seq<u8>>::empty());
    }
    i
}

/// The tag index carried by a character-table cell: cells hold a data id
/// `2 * k` (lower-case form) or `2 * k + 1` (upper-case form), negated for
/// single-character tag names.
pub open spec fn cell_tag(v: i16) -> int {
    (if v >= 0 {
        v as int
    } else {
        -(v as int)
    }) / 2
}

/// The character-table cell of a byte pair, over the raw table contents.
pub open spec fn cell_of(chars: Seq<i16>, i: u8, j: u8) -> i16 {
    chars[i as int * 256 + j as int]
}

/// Every populated cell carries a tag index between 1 and `ntags`.
pub open spec fn cells_valid(chars: Seq<i16>, ntags: int) -> bool {
    forall|i: u8, j: u8|
        #[trigger] cell_of(chars, i, j) != 0 ==> 1 <= cell_tag(cell_of(chars, i, j)) <= ntags
}

/// For a lower-case-fixed byte pair, the cell and its upper-cased image are
/// populated together and carry the same tag index.
pub open spec fn cells_mirror(chars: Seq<i16>) -> bool {
    forall|i: u8, j: u8|
        lc_byte(i) == i && lc_byte(j) == j ==> ((#[trigger] cell_of(chars, i, j) == 0 <==> cell_of(
            chars,
            uc_byte(i),
            uc_byte(j),
        ) == 0) && (cell_of(chars, i, j) != 0 ==> cell_tag(cell_of(chars, i, j)) == cell_tag(
            cell_of(chars, uc_byte(i), uc_byte(j)),
        )))
}

/// Every populated cell points at the name it was keyed from: a negative
/// value marks a single-byte name whose cell column is the terminator byte,
/// a non-negative value marks a longer name keyed by its first two bytes
/// (lower-cased).
pub open spec fn cells_named(chars: Seq<i16>, tags: Seq<Seq<u8>>) -> bool {
    forall|i: u8, j: u8|
        #[trigger] cell_of(chars, i, j) != 0 && 1 <= cell_tag(cell_of(chars, i, j)) <= tags.len()
            ==> ({
            let t = tags[cell_tag(cell_of(chars, i, j)) - 1];
            if cell_of(chars, i, j) < 0 {
                t.len() == 1 && t[0] == lc_byte(i) && is_terminator_byte(j)
            } else {
                t.len() >= 2 && t[0] == lc_byte(i) && t[1] == lc_byte(j)
            }
        })
}

/// Two bytes that are unchanged by lower-casing and share an upper-case image
/// are the same byte.
pub proof fn lemma_uc_injective(x: u8, y: u8)
    requires
        lc_byte(x) == x,
        lc_byte(y) == y,
        uc_byte(x) == uc_byte(y),
    ensures
        x == y,
{
}

/// A lower-case-fixed byte whose upper-case image is itself lower-case-fixed
/// is not a letter, so the image is the byte itself.
pub proof fn lemma_uc_image_lc_fixed(x: u8, t: u8)
    requires
        lc_byte(x) == x,
        uc_byte(x) == t,
        lc_byte(t) == t,
    ensures
        x == t,
{
}

/// Controls HTML tag heuristics that allow faster matching of tags, avoiding
/// repeated string scanning and construction. It is a dense lookup table from
/// the first two bytes of a candidate name to a small id, with attribute
/// lookups hashed in the context of a tag.
pub struct HtmlHeuristics {
    /// Dense 256 x 256 table of hints: row is the first byte, column the
    /// second. Zero means no match; negative values mark single-byte tag
    /// names whose cell already encodes the terminator byte.
    pub chars: Vec<i16>,
    /// Byte images of registered tag names by data id: even slots hold the
    /// lower-case form, odd slots the upper-case form of the same name.
    pub tag_data: Vec<Vec<u8>>,
    /// Canonical (lower-cased, trimmed) tag names in registration order; the
    /// id of a name is its index plus one.
    pub added_tags: Vec<Vec<u8>>,
    /// Byte images of registered attribute names by data id, cased as in
    /// `tag_data`.
    pub attributes: Vec<Vec<u8>>,
    /// Per-tag attribute tables: entry `b` of table `k` holds the doubled
    /// attribute id registered for first byte `b` under tag id `k`.
    pub attr_data: Vec<Vec<u8>>,
    /// Canonical attribute names in registration order.
    pub added_attributes: Vec<Vec<u8>>,
}

impl HtmlHeuristics {
    /// Registered canonical tag names, in registration order.
    pub open spec fn tags(&self) -> Seq<Seq<u8>> {
        self.added_tags.deep_view()
    }

    /// Registered canonical attribute names, in registration order.
    pub open spec fn attrs(&self) -> Seq<Seq<u8>> {
        self.added_attributes.deep_view()
    }

    /// The character-table cell for a byte pair.
    pub open spec fn cell(&self, i: u8, j: u8) -> i16 {
        self.chars@[i as int * 256 + j as int]
    }

    /// The attribute table entry for first byte `b` under tag id `k`.
    pub open spec fn attr_cell(&self, k: int, b: u8) -> u8 {
        self.attr_data@[k]@[b as int]
    }

    /// What `get_string_by_id` returns for a (non-negative) cell value.
    pub open spec fn string_by_id_spec(&self, id: int) -> Seq<char> {
        let k = id / 2;
        if 1 <= k && k <= self.tags().len() {
            latin1_seq(self.tags()[k - 1])
        } else {
            Seq::empty()
        }
    }

    /// What `get_attr` returns for an attribute data id.
    pub open spec fn attr_by_id_spec(&self, id: int) -> Seq<char> {
        let a = id / 2;
        if 1 <= a && a <= self.attrs().len() {
            latin1_seq(self.attrs()[a - 1])
        } else {
            Seq::empty()
        }
    }

    /// A valid canonical tag name: non-empty, at most 32 bytes, lower-cased.
    pub open spec fn valid_tag_name(t: Seq<u8>) -> bool {
        1 <= t.len() <= 32 && lc_fixed(t)
    }

    /// Whether `name` is a registered tag name.
    pub open spec fn registered(&self, name: Seq<u8>) -> bool {
        self.tags().contains(name)
    }

    /// Every registered tag name has its fast-match cells populated: the
    /// first-two-byte pair for longer names, the terminator cells for
    /// single-byte names.
    pub open spec fn tag_covered(&self, t: Seq<u8>) -> bool {
        if t.len() == 1 {
            forall|w: u8| is_terminator_byte(w) ==> self.cell(t[0], w) != 0
        } else {
            self.cell(t[0], t[1]) != 0
        }
    }

    /// Structure of the fixed-size tables.
    pub open spec fn wf_shape(&self) -> bool {
        &&& self.chars@.len() == 65536
        &&& self.tag_data@.len() == 2 * MAX_STRINGS
        &&& self.attributes@.len() == 2 * MAX_STRINGS
        &&& self.attr_data@.len() == MAX_STRINGS
        &&& forall|k: int|
            0 <= k < MAX_STRINGS ==> (#[trigger] self.attr_data@[k])@.len() == 256
    }

    /// The registered names are well-formed, bounded and distinct, and the
    /// data slots hold both case forms of each.
    pub open spec fn wf_names(&self) -> bool {
        &&& self.tags().len() <= MAX_TAGS
        &&& self.attrs().len() <= MAX_ATTRS
        &&& forall|k: int| 0 <= k < self.tags().len() ==> Self::valid_tag_name(#[trigger] self.tags()[k])
        &&& forall|k1: int, k2: int|
            0 <= k1 < k2 < self.tags().len() ==> self.tags()[k1] != self.tags()[k2]
        &&& forall|k: int|
            0 <= k < self.tags().len() ==> self.tag_data@[2 * (k + 1)]@ == #[trigger] self.tags()[k]
                && self.tag_data@[2 * (k + 1) + 1]@ == uc_seq(self.tags()[k])
        &&& forall|a: int|
            0 <= a < self.attrs().len() ==> (#[trigger] self.attrs()[a]).len() >= 1 && lc_fixed(
                self.attrs()[a],
            )
        &&& forall|a1: int, a2: int|
            0 <= a1 < a2 < self.attrs().len() ==> self.attrs()[a1] != self.attrs()[a2]
        &&& forall|a: int|
            0 <= a < self.attrs().len() ==> self.attributes@[2 * (a + 1)]@ == #[trigger] self.attrs()[a]
                && self.attributes@[2 * (a + 1) + 1]@ == uc_seq(self.attrs()[a])
    }

    /// Every populated character-table cell refers to a registered tag, the
    /// cells come in case-mirrored pairs, every attribute-table entry refers
    /// to a registered attribute, and tags that are not registered have an
    /// all-zero attribute table.
    pub open spec fn wf_cells(&self) -> bool {
        &&& cells_valid(self.chars@, self.tags().len() as int)
        &&& cells_mirror(self.chars@)
        &&& cells_named(self.chars@, self.tags())
        &&& forall|k: int|
            0 <= k < self.tags().len() ==> self.tag_covered(#[trigger] self.tags()[k])
        &&& forall|k: int, b: u8|
            0 <= k < MAX_STRINGS && #[trigger] self.attr_cell(k, b) != 0 ==> 1 <= self.attr_cell(
                k,
                b,
            ) as int / 2 <= self.attrs().len()
        &&& forall|k: int, b: u8|
            0 <= k < MAX_STRINGS && (k < 1 || k > self.tags().len()) ==> #[trigger] self.attr_cell(
                k,
                b,
            ) == 0
    }

    /// Well-formedness of the whole table.
    pub open spec fn wf(&self) -> bool {
        self.wf_shape() && self.wf_names() && self.wf_cells()
    }

    /// A registration is accepted exactly when the canonical name is
    /// non-empty, at most 32 bytes, not yet registered, and the table is not
    /// full.
    pub open spec fn add_accepted(h: HtmlHeuristics, canon: Seq<u8>) -> bool {
        1 <= canon.len() <= 32 && !h.registered(canon) && h.tags().len() < MAX_TAGS
    }

    /// Builds an empty heuristics table: no tags, no attributes, every cell
    /// zero.
    pub fn new() -> (r: HtmlHeuristics)
        ensures
            r.wf(),
            r.tags() == Seq::<Seq<u8>>::empty(),
            r.attrs() == Seq::<Seq<u8>>::empty(),
            forall|i: u8, j: u8| cell_of(r.chars@, i, j) == 0,
    {
        let mut chars: Vec<i16> = Vec::new();
        let mut i: usize = 0;
        while i < 65536
            invariant
                i <= 65536,
                chars@.len() == i,
                forall|m: int| 0 <= m < i ==> chars@[m] == 0,
            decreases 65536 - i,
        {
            chars.push(0);
            i += 1;
        }
        let mut tag_data: Vec<Vec<u8>> = Vec::new();
        let mut attributes: Vec<Vec<u8>> = Vec::new();
        i = 0;
        while i < 2 * MAX_STRINGS
            invariant
                i <= 2 * MAX_STRINGS,
                tag_data@.len() == i,
                attributes@.len() == i,
            decreases 2 * MAX_STRINGS - i,
        {
            tag_data.push(Vec::new());
            attributes.push(Vec::new());
            i += 1;
        }
        let mut attr_data: Vec<Vec<u8>> = Vec::new();
        i = 0;
        while i < MAX_STRINGS
            invariant
                i <= MAX_STRINGS,
                attr_data@.len() == i,
                forall|k: int|
                    0 <= k < i ==> (#[trigger] attr_data@[k])@.len() == 256 && forall|b: int|
                        0 <= b < 256 ==> attr_data@[k]@[b] == 0,
            decreases MAX_STRINGS - i,
        {
            let mut table: Vec<u8> = Vec::new();
            let mut b: usize = 0;
            while b < 256
                invariant
                    b <= 256,
                    table@.len() == b,
                    forall|m: int| 0 <= m < b ==> table@[m] == 0,
                decreases 256 - b,
            {
                table.push(0);
                b += 1;
            }
            attr_data.push(table);
            i += 1;
        }
        let heuristics = HtmlHeuristics {
            chars,
            tag_data,
            added_tags: Vec::new(),
            attributes,
            attr_data,
            added_attributes: Vec::new(),
        };
        proof {
            assert(heuristics.tags() =~= Seq::<Seq<u8>>::empty());
            assert(heuristics.attrs() =~= Seq::<Seq<u8>>::empty());
        }
        heuristics
    }

    /// Returns the two-character string for the byte pair, each byte read as
    /// the character with the same code point.
    pub fn get_two_char_string(i: u8, j: u8) -> (r: String)
        ensures
            r@ == seq![i as char, j as char],
    {
        let mut s = String::new();
        string_push(&mut s, i as char);
        string_push(&mut s, j as char);
        proof {
            assert(s@ =~= seq![i as char, j as char]);
        }
        s
    }

    /// Returns the canonical name for an id produced by `match_tag`, or the
    /// empty string when no name is registered under it.
    pub fn get_string_by_id(&self, id: usize) -> (r: String)
        ensures
            r@ == self.string_by_id_spec(id as int),
    {
        let k = id / 2;
        if k >= 1 && k <= self.added_tags.len() {
            proof {
                assert(self.tags()[k - 1] == self.added_tags@[k - 1]@);
            }
            latin1_string(self.added_tags[k - 1].as_slice())
        } else {
            String::new()
        }
    }

    /// Returns the stored byte image of a tag name for a data id (even ids
    /// hold the lower-case form, odd ids the upper-case form).
    pub fn get_string_data(&self, id: usize) -> (r: &Vec<u8>)
        requires
            id < 2 * MAX_STRINGS,
            self.wf_shape(),
        ensures
            r@ == self.tag_data@[id as int]@,
    {
        &self.tag_data[id]
    }

    /// O(1) fast match of a tag from its first two bytes.
    pub fn match_tag(&self, ch1: u8, ch2: u8) -> (r: i16)
        requires
            self.wf_shape(),
        ensures
            r == self.cell(ch1, ch2),
    {
        self.chars[(ch1 as usize) * 256 + (ch2 as usize)]
    }

    /// O(1) match of an attribute from its first byte, in the context of the
    /// tag whose `match_tag` result is `tag_id`.
    pub fn match_attr(&self, ch: u8, tag_id: usize) -> (r: u8)
        requires
            self.wf_shape(),
            tag_id < 2 * MAX_STRINGS,
        ensures
            r == self.attr_cell(tag_id as int / 2, ch),
    {
        self.attr_data[tag_id / 2][ch as usize]
    }

    /// Returns the stored byte image of an attribute name for a data id.
    pub fn get_attr_data(&self, attr_id: usize) -> (r: &Vec<u8>)
        requires
            attr_id < 2 * MAX_STRINGS,
            self.wf_shape(),
        ensures
            r@ == self.attributes@[attr_id as int]@,
    {
        &self.attributes[attr_id]
    }

    /// Returns the canonical attribute name for an id produced by
    /// `match_attr`, or the empty string when no name is registered under it.
    pub fn get_attr(&self, attr_id: usize) -> (r: String)
        ensures
            r@ == self.attr_by_id_spec(attr_id as int),
    {
        let a = attr_id / 2;
        if a >= 1 && a <= self.added_attributes.len() {
            proof {
                assert(self.attrs()[a - 1] == self.added_attributes@[a - 1]@);
            }
            latin1_string(self.added_attributes[a - 1].as_slice())
        } else {
            String::new()
        }
    }

    /// Writes a hint cell if it is still free; an occupied cell is left to
    /// its first owner.
    fn set_hash(&mut self, ch1: u8, ch2: u8, id: i16) -> (r: bool)
        requires
            old(self).wf_shape(),
        ensures
            r == (old(self).cell(ch1, ch2) == 0),
            final(self).chars@ == (if old(self).cell(ch1, ch2) == 0 {
                old(self).chars@.update(ch1 as int * 256 + ch2 as int, id)
            } else {
                old(self).chars@
            }),
            final(self).tag_data == old(self).tag_data,
            final(self).added_tags == old(self).added_tags,
            final(self).attributes == old(self).attributes,
            final(self).attr_data == old(self).attr_data,
            final(self).added_attributes == old(self).added_attributes,
            final(self).wf_shape(),
    {
        let idx = (ch1 as usize) * 256 + (ch2 as usize);
        if self.chars[idx] != 0 {
            return false;
        }
        self.chars[idx] = id;
        true
    }

    /// Writes the hint cells for one lower-case byte pair and its upper-cased
    /// image, keeping the two case forms in step.
    #[verifier::rlimit(100)]
    #[verifier::spinoff_prover]
    fn set_hash_pair(&mut self, b1: u8, b2: u8, vl: i16, vh: i16)
        requires
            old(self).wf_shape(),
            lc_byte(b1) == b1,
            lc_byte(b2) == b2,
            vl != 0,
            vh != 0,
            cell_tag(vl) == cell_tag(vh),
            1 <= cell_tag(vl) <= old(self).tags().len(),
            cells_valid(old(self).chars@, old(self).tags().len() as int),
            cells_mirror(old(self).chars@),
            cells_named(old(self).chars@, old(self).tags()),
            ({
                let t = old(self).tags()[cell_tag(vl) - 1];
                if vl < 0 {
                    t.len() == 1 && t[0] == b1 && is_terminator_byte(b2) && vh < 0
                } else {
                    t.len() >= 2 && t[0] == b1 && t[1] == b2 && vh >= 0
                }
            }),
        ensures
            final(self).wf_shape(),
            final(self).tag_data == old(self).tag_data,
            final(self).added_tags == old(self).added_tags,
            final(self).attributes == old(self).attributes,
            final(self).attr_data == old(self).attr_data,
            final(self).added_attributes == old(self).added_attributes,
            cells_valid(final(self).chars@, final(self).tags().len() as int),
            cells_mirror(final(self).chars@),
            cells_named(final(self).chars@, final(self).tags()),
            cell_of(old(self).chars@, b1, b2) == 0 ==> cell_of(final(self).chars@, b1, b2) == vl,
            cell_of(old(self).chars@, b1, b2) == 0 && (uc_byte(b1) != b1 || uc_byte(b2) != b2)
                ==> cell_of(final(self).chars@, uc_byte(b1), uc_byte(b2)) == vh,
            forall|i: u8, j: u8|
                (i != b1 || j != b2) && (i != uc_byte(b1) || j != uc_byte(b2))
                    ==> #[trigger] cell_of(final(self).chars@, i, j) == cell_of(
                    old(self).chars@,
                    i,
                    j,
                ),
            forall|i: u8, j: u8|
                #[trigger] cell_of(old(self).chars@, i, j) != 0 ==> cell_of(
                    final(self).chars@,
                    i,
                    j,
                ) == cell_of(old(self).chars@, i, j),
            cell_of(final(self).chars@, b1, b2) != 0,
            cell_of(final(self).chars@, uc_byte(b1), uc_byte(b2)) != 0,
    {
        let u1 = upper_byte(b1);
        let u2 = upper_byte(b2);
        let ghost pre = self.chars@;
        let _r1 = self.set_hash(b1, b2, vl);
        let ghost mid = self.chars@;
        let _r2 = self.set_hash(u1, u2, vh);
        let ghost post = self.chars@;
        proof {
            let tlen = self.tags().len() as int;
            assert forall|i: u8, j: u8|
                (i != b1 || j != b2) && (i != u1 || j != u2) implies #[trigger] cell_of(
                post,
                i,
                j,
            ) == cell_of(pre, i, j) by {
                assert(i as int * 256 + j as int != b1 as int * 256 + b2 as int);
                assert(i as int * 256 + j as int != u1 as int * 256 + u2 as int);
            }
            if cell_of(pre, b1, b2) == 0 {
                if u1 == b1 && u2 == b2 {
                    assert(cell_of(post, b1, b2) == vl);
                } else {
                    assert(cell_of(mid, u1, u2) == cell_of(pre, u1, u2));
                    assert(cell_of(pre, u1, u2) == 0);
                    assert(cell_of(mid, b1, b2) == vl);
                    assert(cell_of(post, b1, b2) == vl);
                    assert(cell_of(post, u1, u2) == vh);
                }
            } else {
                assert(cell_of(pre, u1, u2) != 0);
                assert(cell_of(post, b1, b2) == cell_of(pre, b1, b2));
                assert(cell_of(post, u1, u2) == cell_of(pre, u1, u2));
            }
            assert(cell_of(post, b1, b2) != 0);
            assert(cell_of(post, u1, u2) != 0);
            assert(cell_tag(cell_of(post, b1, b2)) == cell_tag(cell_of(post, u1, u2)));
            assert forall|i: u8, j: u8| #[trigger] cell_of(post, i, j) != 0 implies 1 <= cell_tag(
                cell_of(post, i, j),
            ) <= tlen by {
                if (i != b1 || j != b2) && (i != u1 || j != u2) {
                    assert(cell_of(post, i, j) == cell_of(pre, i, j));
                }
            }
            assert forall|i: u8, j: u8|
                #[trigger] cell_of(post, i, j) != 0 && 1 <= cell_tag(cell_of(post, i, j))
                    <= self.tags().len() implies ({
                let t = self.tags()[cell_tag(cell_of(post, i, j)) - 1];
                if cell_of(post, i, j) < 0 {
                    t.len() == 1 && t[0] == lc_byte(i) && is_terminator_byte(j)
                } else {
                    t.len() >= 2 && t[0] == lc_byte(i) && t[1] == lc_byte(j)
                }
            }) by {
                if (i != b1 || j != b2) && (i != u1 || j != u2) {
                    assert(cell_of(post, i, j) == cell_of(pre, i, j));
                }
            }
            assert forall|i: u8, j: u8| lc_byte(i) == i && lc_byte(j) == j implies ((#[trigger]
            cell_of(post, i, j) == 0 <==> cell_of(post, uc_byte(i), uc_byte(j)) == 0) && (cell_of(
                post,
                i,
                j,
            ) != 0 ==> cell_tag(cell_of(post, i, j)) == cell_tag(
                cell_of(post, uc_byte(i), uc_byte(j)),
            ))) by {
                let iu = uc_byte(i);
                let ju = uc_byte(j);
                if i == b1 && j == b2 {
                    assert(iu == u1 && ju == u2);
                } else {
                    if i == u1 && j == u2 {
                        lemma_uc_image_lc_fixed(b1, u1);
                        lemma_uc_image_lc_fixed(b2, u2);
                        assert(false);
                    }
                    if iu == b1 && ju == b2 {
                        lemma_uc_image_lc_fixed(i, b1);
                        lemma_uc_image_lc_fixed(j, b2);
                        assert(false);
                    }
                    if iu == u1 && ju == u2 {
                        lemma_uc_injective(i, b1);
                        lemma_uc_injective(j, b2);
                        assert(false);
                    }
                    assert(cell_of(post, i, j) == cell_of(pre, i, j));
                    assert(cell_of(post, iu, ju) == cell_of(pre, iu, ju));
                }
            }
        }
    }

    /// Registers one canonical tag name: records both case images of the
    /// name and populates the hint cells for it.
    #[verifier::rlimit(100)]
    #[verifier::spinoff_prover]
    fn add_tag_internal(&mut self, canon: &Vec<u8>)
        requires
            old(self).wf(),
            Self::valid_tag_name(canon@),
            !old(self).registered(canon@),
            old(self).tags().len() < MAX_TAGS,
        ensures
            final(self).wf(),
            final(self).tags() == old(self).tags().push(canon@),
            final(self).added_attributes == old(self).added_attributes,
            final(self).attributes == old(self).attributes,
            final(self).attr_data == old(self).attr_data,
            forall|i: u8, j: u8|
                #[trigger] cell_of(old(self).chars@, i, j) != 0 ==> cell_of(
                    final(self).chars@,
                    i,
                    j,
                ) == cell_of(old(self).chars@, i, j),
            final(self).tag_covered(canon@),
            final(self).registered(canon@),
            ({
                let id = old(self).tags().len() + 1;
                let c = canon@;
                if c.len() == 1 {
                    forall|w: u8|
                        is_terminator_byte(w) && cell_of(old(self).chars@, c[0], w) == 0
                            ==> #[trigger] cell_of(final(self).chars@, c[0], w) as int == -(2 * id)
                } else {
                    (cell_of(old(self).chars@, c[0], c[1]) == 0 ==> cell_of(
                        final(self).chars@,
                        c[0],
                        c[1],
                    ) as int == 2 * id) && (cell_of(old(self).chars@, c[0], c[1]) == 0 && (uc_byte(
                        c[0],
                    ) != c[0] || uc_byte(c[1]) != c[1]) ==> cell_of(
                        final(self).chars@,
                        uc_byte(c[0]),
                        uc_byte(c[1]),
                    ) as int == 2 * id + 1)
                }
            }),
    {
        let id = self.added_tags.len() + 1;
        let upper = upper_bytes(canon);
        self.added_tags.push(canon.clone());
        self.tag_data[2 * id] = canon.clone();
        self.tag_data[2 * id + 1] = upper;
        proof {
            assert(self.tags() =~~= old(self).tags().push(canon@));
            assert(self.tags()[id - 1] =~= canon@);
            assert forall|k: int| 0 <= k < old(self).tags().len() implies old(self).tags()[k]
                != canon@ by {
                if old(self).tags()[k] == canon@ {
                    assert(old(self).registered(canon@));
                }
            }
            assert forall|k: int|
                0 <= k < self.tags().len() implies self.tag_data@[2 * (k + 1)]@
                == #[trigger] self.tags()[k] && self.tag_data@[2 * (k + 1) + 1]@ == uc_seq(
                self.tags()[k],
            ) by {
                if k < id - 1 {
                    assert(self.tags()[k] == old(self).tags()[k]);
                }
            }
            assert(cells_valid(self.chars@, self.tags().len() as int));
            // cells written so far name tags of the former list, whose
            // entries the push left in place
            assert forall|i: u8, j: u8|
                #[trigger] cell_of(self.chars@, i, j) != 0 && 1 <= cell_tag(
                    cell_of(self.chars@, i, j),
                ) <= self.tags().len() implies ({
                let t = self.tags()[cell_tag(cell_of(self.chars@, i, j)) - 1];
                if cell_of(self.chars@, i, j) < 0 {
                    t.len() == 1 && t[0] == lc_byte(i) && is_terminator_byte(j)
                } else {
                    t.len() >= 2 && t[0] == lc_byte(i) && t[1] == lc_byte(j)
                }
            }) by {
                assert(cell_of(old(self).chars@, i, j) == cell_of(self.chars@, i, j));
                assert(1 <= cell_tag(cell_of(self.chars@, i, j)) <= old(self).tags().len());
                assert(self.tags()[cell_tag(cell_of(self.chars@, i, j)) - 1] == old(self).tags()[
                    cell_tag(cell_of(self.chars@, i, j)) - 1]);
            }
            assert(cells_named(self.chars@, self.tags()));
        }
        let vl_mag = 2 * id;
        let vh_mag = 2 * id + 1;
        if canon.len() == 1 {
            let b = canon[0];
            let vl: i16 = -(vl_mag as i16);
            let vh: i16 = -(vh_mag as i16);
            proof {
                assert(lc_byte(canon@[0]) == canon@[0]);
                assert(cell_tag(vl) == id && cell_tag(vh) == id);
            }
            let ghost g0 = self.chars@;
            self.set_hash_pair(b, 32, vl, vh);
            let ghost g1 = self.chars@;
            self.set_hash_pair(b, 9, vl, vh);
            let ghost g2 = self.chars@;
            self.set_hash_pair(b, 13, vl, vh);
            let ghost g3 = self.chars@;
            self.set_hash_pair(b, 10, vl, vh);
            let ghost g4 = self.chars@;
            self.set_hash_pair(b, 62, vl, vh);
            let ghost g5 = self.chars@;
            proof {
                let cb = canon@[0];
                assert(cell_of(g1, cb, 32) != 0);
                assert(cell_of(g2, cb, 32) == cell_of(g1, cb, 32));
                assert(cell_of(g3, cb, 32) == cell_of(g2, cb, 32));
                assert(cell_of(g4, cb, 32) == cell_of(g3, cb, 32));
                assert(cell_of(g5, cb, 32) == cell_of(g4, cb, 32));
                assert(cell_of(g2, cb, 9) != 0);
                assert(cell_of(g3, cb, 9) == cell_of(g2, cb, 9));
                assert(cell_of(g4, cb, 9) == cell_of(g3, cb, 9));
                assert(cell_of(g5, cb, 9) == cell_of(g4, cb, 9));
                assert(cell_of(g3, cb, 13) != 0);
                assert(cell_of(g4, cb, 13) == cell_of(g3, cb, 13));
                assert(cell_of(g5, cb, 13) == cell_of(g4, cb, 13));
                assert(cell_of(g4, cb, 10) != 0);
                assert(cell_of(g5, cb, 10) == cell_of(g4, cb, 10));
                assert(cell_of(g5, cb, 62) != 0);
                assert forall|i: u8, j: u8| #[trigger] cell_of(g0, i, j) != 0 implies cell_of(
                    g5,
                    i,
                    j,
                ) == cell_of(g0, i, j) by {
                    assert(cell_of(g1, i, j) == cell_of(g0, i, j));
                    assert(cell_of(g2, i, j) == cell_of(g1, i, j));
                    assert(cell_of(g3, i, j) == cell_of(g2, i, j));
                    assert(cell_of(g4, i, j) == cell_of(g3, i, j));
                    assert(cell_of(g5, i, j) == cell_of(g4, i, j));
                }
                assert forall|w: u8| is_terminator_byte(w) implies cell_of(
                    self.chars@,
                    canon@[0],
                    w,
                ) != 0 by {
                    assert(w == 32 || w == 9 || w == 13 || w == 10 || w == 62);
                }
                assert(self.tag_covered(canon@));
                assert forall|w: u8|
                    is_terminator_byte(w) && cell_of(g0, cb, w) == 0 implies #[trigger] cell_of(
                    self.chars@,
                    cb,
                    w,
                ) as int == -(2 * id) by {
                    assert(w == 32 || w == 9 || w == 13 || w == 10 || w == 62);
                    if w == 32 {
                        assert(cell_of(g1, cb, 32) == vl);
                    } else if w == 9 {
                        assert(cell_of(g1, cb, 9) == cell_of(g0, cb, 9));
                        assert(cell_of(g2, cb, 9) == vl);
                    } else if w == 13 {
                        assert(cell_of(g1, cb, 13) == cell_of(g0, cb, 13));
                        assert(cell_of(g2, cb, 13) == cell_of(g1, cb, 13));
                        assert(cell_of(g3, cb, 13) == vl);
                    } else if w == 10 {
                        assert(cell_of(g1, cb, 10) == cell_of(g0, cb, 10));
                        assert(cell_of(g2, cb, 10) == cell_of(g1, cb, 10));
                        assert(cell_of(g3, cb, 10) == cell_of(g2, cb, 10));
                        assert(cell_of(g4, cb, 10) == vl);
                    } else {
                        assert(cell_of(g1, cb, 62) == cell_of(g0, cb, 62));
                        assert(cell_of(g2, cb, 62) == cell_of(g1, cb, 62));
                        assert(cell_of(g3, cb, 62) == cell_of(g2, cb, 62));
                        assert(cell_of(g4, cb, 62) == cell_of(g3, cb, 62));
                        assert(cell_of(g5, cb, 62) == vl);
                    }
                }
            }
        } else {
            let b1 = canon[0];
            let b2 = canon[1];
            let vl: i16 = vl_mag as i16;
            let vh: i16 = vh_mag as i16;
            proof {
                assert(lc_byte(canon@[0]) == canon@[0]);
                assert(lc_byte(canon@[1]) == canon@[1]);
                assert(cell_tag(vl) == id && cell_tag(vh) == id);
            }
            let ghost h0 = self.chars@;
            self.set_hash_pair(b1, b2, vl, vh);
            proof {
                assert forall|i: u8, j: u8| #[trigger] cell_of(h0, i, j) != 0 implies cell_of(
                    self.chars@,
                    i,
                    j,
                ) == cell_of(h0, i, j) by {}
                assert(self.tag_covered(canon@));
            }
        }
        proof {
            assert forall|k: int| 0 <= k < self.tags().len() implies self.tag_covered(
                #[trigger] self.tags()[k],
            ) by {
                if k < id - 1 {
                    let t = self.tags()[k];
                    assert(t == old(self).tags()[k]);
                    assert(old(self).tag_covered(t));
                    if t.len() == 1 {
                        assert forall|w: u8| is_terminator_byte(w) implies cell_of(
                            self.chars@,
                            t[0],
                            w,
                        ) != 0 by {
                            assert(cell_of(old(self).chars@, t[0], w) != 0);
                        }
                    } else {
                        assert(cell_of(old(self).chars@, t[0], t[1]) != 0);
                    }
                } else {
                    assert(self.tags()[k] == canon@);
                }
            }
            assert(self.registered(canon@)) by {
                assert(self.tags()[id - 1] == canon@);
            }
            assert(self.wf_shape());
            assert(self.wf_names());
            assert(cells_valid(self.chars@, self.tags().len() as int));
            assert(cells_mirror(self.chars@));
            assert forall|k: int, b: u8|
                0 <= k < MAX_STRINGS && #[trigger] self.attr_cell(k, b) != 0 implies 1
                <= self.attr_cell(k, b) as int / 2 <= self.attrs().len() by {
                assert(self.attr_cell(k, b) == old(self).attr_cell(k, b));
            }
            assert forall|k: int, b: u8|
                0 <= k < MAX_STRINGS && (k < 1 || k > self.tags().len()) implies #[trigger] self
                .attr_cell(k, b) == 0 by {
                assert(self.attr_cell(k, b) == old(self).attr_cell(k, b));
                assert(k < 1 || k > old(self).tags().len());
            }
            assert(self.wf_cells());
        }
    }

    /// Registers one attribute name for the tag with id `id`: assigns (or
    /// reuses) a global attribute id and records both case variants, keyed by
    /// the first byte, unless that first byte is already taken for this tag.
    fn add_attribute(&mut self, id: usize, raw: &[u8])
        requires
            old(self).wf(),
            1 <= id <= old(self).tags().len(),
        ensures
            final(self).wf(),
            final(self).chars == old(self).chars,
            final(self).tag_data == old(self).tag_data,
            final(self).added_tags == old(self).added_tags,
            ({
                let m = attr_step(
                    old(self).attrs(),
                    old(self).attributes.deep_view(),
                    old(self).attr_data@[id as int]@,
                    raw@,
                );
                final(self).attrs() == m.0 && final(self).attributes.deep_view() == m.1
                    && final(self).attr_data@[id as int]@ == m.2
            }),
            forall|k: int|
                0 <= k < MAX_STRINGS && k != id ==> final(self).attr_data@[k] == #[trigger] old(
                self).attr_data@[k],
    {
        let nm = canon_bytes(raw);
        if nm.len() == 0 {
            return ;
        }
        let b0 = nm[0];
        let ub0 = upper_byte(b0);
        if self.attr_data[id][b0 as usize] != 0 || self.attr_data[id][ub0 as usize] != 0 {
            return ;
        }
        let found = find_in_names(&self.added_attributes, &nm);
        proof {
            lemma_find_name(self.attrs(), nm@);
        }
        let a: usize;
        if found < self.added_attributes.len() {
            a = found + 1;
        } else if self.added_attributes.len() >= MAX_ATTRS {
            return ;
        } else {
            a = self.added_attributes.len() + 1;
            let upper = upper_bytes(&nm);
            self.added_attributes.push(nm.clone());
            self.attributes[2 * a] = nm.clone();
            self.attributes[2 * a + 1] = upper;
            proof {
                assert(self.attrs() =~~= old(self).attrs().push(nm@));
                assert(lc_fixed(nm@));
                assert forall|x: int|
                    0 <= x < self.attrs().len() implies self.attributes@[2 * (x + 1)]@
                    == #[trigger] self.attrs()[x] && self.attributes@[2 * (x + 1) + 1]@ == uc_seq(
                    self.attrs()[x],
                ) by {
                    if x < a - 1 {
                        assert(self.attrs()[x] == old(self).attrs()[x]);
                    }
                }
            }
        }
        self.attr_data[id][b0 as usize] = (2 * a) as u8;
        self.attr_data[id][ub0 as usize] = (2 * a + 1) as u8;
        proof {
            let m = attr_step(
                old(self).attrs(),
                old(self).attributes.deep_view(),
                old(self).attr_data@[id as int]@,
                raw@,
            );
            assert(self.attrs() =~~= m.0);
            assert(self.attributes.deep_view() =~~= m.1);
            assert(self.attr_data@[id as int]@ =~= m.2);
            assert forall|k: int, b: u8|
                0 <= k < MAX_STRINGS && #[trigger] self.attr_cell(k, b) != 0 implies 1
                <= self.attr_cell(k, b) as int / 2 <= self.attrs().len() by {
                if k != id {
                    assert(self.attr_cell(k, b) == old(self).attr_cell(k, b));
                } else if b != b0 && b != ub0 {
                    assert(self.attr_cell(k, b) == old(self).attr_cell(k, b));
                }
            }
            assert forall|k: int, b: u8|
                0 <= k < MAX_STRINGS && (k < 1 || k > self.tags().len()) implies #[trigger] self
                .attr_cell(k, b) == 0 by {
                if k != id {
                    assert(self.attr_cell(k, b) == old(self).attr_cell(k, b));
                }
            }
        }
    }

    /// Adds a tag to the list of tracked tags, together with its
    /// comma-separated attribute names. Registration fails, leaving the
    /// table unchanged, exactly when the canonical (trimmed, lower-cased)
    /// name is empty, longer than 32 bytes, already registered, or the table
    /// already holds the maximum number of names. On success the name gets
    /// the next sequential id, both case forms of its fast-match key are
    /// recorded, and the attribute names are registered in order.
    pub fn add_tag(&mut self, tag_name: &str, attr_names: &str) -> (r: bool)
        requires
            old(self).wf(),
        ensures
            final(self).wf(),
            r == Self::add_accepted(*old(self), canon_of(tag_name.spec_bytes())),
            !r ==> *final(self) == *old(self),
            r ==> final(self).tags() == old(self).tags().push(canon_of(tag_name.spec_bytes())),
            r ==> final(self).registered(canon_of(tag_name.spec_bytes())),
            r ==> final(self).tag_covered(canon_of(tag_name.spec_bytes())),
            forall|i: u8, j: u8|
                #[trigger] cell_of(old(self).chars@, i, j) != 0 ==> cell_of(
                    final(self).chars@,
                    i,
                    j,
                ) == cell_of(old(self).chars@, i, j),
            r ==> ({
                let id = old(self).tags().len() + 1;
                let m = attr_fold(
                    old(self).attrs(),
                    old(self).attributes.deep_view(),
                    old(self).attr_data@[id as int]@,
                    split_commas_spec(attr_names.spec_bytes()),
                );
                final(self).attrs() == m.0 && final(self).attributes.deep_view() == m.1
                    && final(self).attr_data@[id as int]@ == m.2
            }),
            r ==> forall|k: int|
                0 <= k < MAX_STRINGS && k != old(self).tags().len() + 1 ==> final(
                self).attr_data@[k] == #[trigger] old(self).attr_data@[k],
            r ==> ({
                let id = old(self).tags().len() + 1;
                let c = canon_of(tag_name.spec_bytes());
                if c.len() == 1 {
                    forall|w: u8|
                        is_terminator_byte(w) && cell_of(old(self).chars@, c[0], w) == 0
                            ==> #[trigger] cell_of(final(self).chars@, c[0], w) as int == -(2 * id)
                } else {
                    (cell_of(old(self).chars@, c[0], c[1]) == 0 ==> cell_of(
                        final(self).chars@,
                        c[0],
                        c[1],
                    ) as int == 2 * id) && (cell_of(old(self).chars@, c[0], c[1]) == 0 && (uc_byte(
                        c[0],
                    ) != c[0] || uc_byte(c[1]) != c[1]) ==> cell_of(
                        final(self).chars@,
                        uc_byte(c[0]),
                        uc_byte(c[1]),
                    ) as int == 2 * id + 1)
                }
            }),
    {
        let canon = canon_bytes(tag_name.as_bytes());
        if canon.len() == 0 || canon.len() > 32 {
            return false;
        }
        let found = find_in_names(&self.added_tags, &canon);
        proof {
            lemma_find_name(self.tags(), canon@);
        }
        if found < self.added_tags.len() {
            proof {
                assert(self.registered(canon@));
            }
            return false;
        }
        if self.added_tags.len() >= MAX_TAGS {
            proof {
                assert forall|x: int| 0 <= x < self.tags().len() implies self.tags()[x]
                    != canon@ by {}
                assert(!self.registered(canon@));
            }
            return false;
        }
        proof {
            assert(!self.registered(canon@));
            assert(lc_fixed(canon@));
            assert(Self::valid_tag_name(canon@));
        }
        let id = self.added_tags.len() + 1;
        let ghost mid0 = *self;
        self.add_tag_internal(&canon);
        let ghost mid = *self;
        let pieces = split_commas(attr_names.as_bytes());
        let ghost names = pieces.deep_view();
        let ghost a0 = self.attrs();
        let ghost d0 = self.attributes.deep_view();
        let ghost t0 = self.attr_data@[id as int]@;
        let mut n: usize = 0;
        proof {
            assert(names.take(0) =~~= Seq::<Seq<u8>>::empty());
        }
        while n < pieces.len()
            invariant
                n <= pieces@.len(),
                names == pieces.deep_view(),
                names.len() == pieces@.len(),
                forall|x: int| 0 <= x < names.len() ==> names[x] == pieces@[x]@,
                self.wf(),
                1 <= id <= self.tags().len(),
                id < MAX_STRINGS,
                self.chars == mid.chars,
                self.tag_data == mid.tag_data,
                self.added_tags == mid.added_tags,
                ({
                    let m = attr_fold(a0, d0, t0, names.take(n as int));
                    self.attrs() == m.0 && self.attributes.deep_view() == m.1
                        && self.attr_data@[id as int]@ == m.2
                }),
                forall|k: int|
                    0 <= k < MAX_STRINGS && k != id ==> self.attr_data@[k] == #[trigger] mid
                        .attr_data@[k],
            decreases pieces@.len() - n,
        {
            let ghost pre = *self;
            self.add_attribute(id, pieces[n].as_slice());
            proof {
                lemma_attr_fold_snoc(a0, d0, t0, names, n as int);
                assert(names.take(n as int + 1) =~~= names.take(n as int).push(names[n as int]));
            }
            n += 1;
        }
        proof {
            assert(names.take(names.len() as int) =~~= names);
        }
        true
    }
}

/// Law: registering a name whose canonical form is already registered is
/// never accepted again; by the contract of `add_tag`, the refused
/// registration leaves the table unchanged.
pub proof fn lemma_idempotent_registration(h: HtmlHeuristics, name: Seq<u8>)
    requires
        h.registered(canon_of(name)),
    ensures
        !HtmlHeuristics::add_accepted(h, canon_of(name)),
{
}

/// Law: a table already holding the maximum number of tag names accepts no
/// further name, whatever it is; by the contract of `add_tag`, the refused
/// registration leaves the table unchanged, so earlier names still answer as
/// before.
pub proof fn lemma_capacity_bound(h: HtmlHeuristics, name: Seq<u8>)
    requires
        h.tags().len() >= MAX_TAGS,
    ensures
        !HtmlHeuristics::add_accepted(h, canon_of(name)),
{
}

/// Law: what a fast-match id says of its name. A populated cell carries the
/// index of a registered name; a negative value marks a single-byte name
/// whose cell column is a terminator byte, a non-negative value a longer
/// name keyed by its first two bytes, lower-cased.
pub proof fn lemma_match_tag_sign(h: HtmlHeuristics, i: u8, j: u8)
    requires
        h.wf(),
        h.cell(i, j) != 0,
    ensures
        1 <= cell_tag(h.cell(i, j)) <= h.tags().len(),
        ({
            let t = h.tags()[cell_tag(h.cell(i, j)) - 1];
            &&& (h.cell(i, j) < 0 ==> t.len() == 1 && t[0] == lc_byte(i) && is_terminator_byte(j))
            &&& (h.cell(i, j) >= 0 ==> t.len() >= 2 && t[0] == lc_byte(i) && t[1] == lc_byte(j))
        }),
{
    assert(cell_of(h.chars@, i, j) == h.cell(i, j));
}

/// Law: case-insensitive fast match. For any registered tag, the fast-match
/// cells for its lower-cased and upper-cased key bytes are both populated and
/// carry the same tag index, so both ids decode (via `get_string_by_id`) to
/// the same canonical lower-case name. For names of two bytes or more the
/// key is the first two bytes; for single-byte names it is the name byte
/// followed by any terminator byte `w`.
pub proof fn lemma_case_insensitive_match(h: HtmlHeuristics, k: int, w: u8)
    requires
        h.wf(),
        0 <= k < h.tags().len(),
        is_terminator_byte(w),
    ensures
        ({
            let t = h.tags()[k];
            let vl = if t.len() >= 2 {
                h.cell(t[0], t[1])
            } else {
                h.cell(t[0], w)
            };
            let vu = if t.len() >= 2 {
                h.cell(uc_byte(t[0]), uc_byte(t[1]))
            } else {
                h.cell(uc_byte(t[0]), w)
            };
            vl != 0 && vu != 0 && cell_tag(vl) == cell_tag(vu) && 1 <= cell_tag(vl)
                <= h.tags().len() && h.string_by_id_spec(2 * cell_tag(vl)) == h.string_by_id_spec(
                2 * cell_tag(vu),
            ) && h.string_by_id_spec(2 * cell_tag(vl)) == latin1_seq(
                h.tags()[cell_tag(vl) - 1],
            ) && lc_fixed(h.tags()[cell_tag(vl) - 1])
        }),
{
    let t = h.tags()[k];
    assert(h.tag_covered(t));
    assert(HtmlHeuristics::valid_tag_name(t));
    assert(lc_byte(t[0]) == t[0]);
    assert(lc_byte(w) == w);
    assert(uc_byte(w) == w);
    if t.len() >= 2 {
        assert(lc_byte(t[1]) == t[1]);
        assert(cell_of(h.chars@, t[0], t[1]) != 0);
        assert(cell_of(h.chars@, uc_byte(t[0]), uc_byte(t[1])) != 0);
    } else {
        assert(cell_of(h.chars@, t[0], w) != 0);
        assert(cell_of(h.chars@, uc_byte(t[0]), uc_byte(w)) != 0);
    }
}

/// One step of attribute registration for a tag: the canonical form of one
/// comma-separated entry is skipped when empty, when its first byte (in
/// either case) is already taken for this tag, or when it is new and the
/// attribute table is full; otherwise it is assigned (or reuses) an id and
/// both case variants are recorded. The triple is (registered attribute
/// names, attribute byte images by data id, this tag's first-byte table).
pub open spec fn attr_step(
    attrs: Seq<Seq<u8>>,
    data: Seq<Seq<u8>>,
    table: Seq<u8>,
    raw: Seq<u8>,
) -> (Seq<Seq<u8>>, Seq<Seq<u8>>, Seq<u8>) {
    let nm = canon_of(raw);
    if nm.len() == 0 {
        (attrs, data, table)
    } else if table[nm[0] as int] != 0 || table[uc_byte(nm[0]) as int] != 0 {
        (attrs, data, table)
    } else {
        let i = find_name(attrs, nm);
        if i < attrs.len() {
            (attrs, data, upd_attr_table(table, nm[0], i + 1))
        } else if attrs.len() >= MAX_ATTRS {
            (attrs, data, table)
        } else {
            let a = attrs.len() as int + 1;
            (
                attrs.push(nm),
                data.update(2 * a, nm).update(2 * a + 1, uc_seq(nm)),
                upd_attr_table(table, nm[0], a),
            )
        }
    }
}

/// Records attribute data id `2 * a` under the lower-case first byte and
/// `2 * a + 1` under its upper-case image.
pub open spec fn upd_attr_table(table: Seq<u8>, b: u8, a: int) -> Seq<u8> {
    table.update(b as int, (2 * a) as u8).update(uc_byte(b) as int, (2 * a + 1) as u8)
}

/// Attribute registration folded over a list of comma-separated entries.
pub open spec fn attr_fold(
    attrs: Seq<Seq<u8>>,
    data: Seq<Seq<u8>>,
    table: Seq<u8>,
    names: Seq<Seq<u8>>,
) -> (Seq<Seq<u8>>, Seq<Seq<u8>>, Seq<u8>)
    decreases names.len(),
{
    if names.len() == 0 {
        (attrs, data, table)
    } else {
        let m = attr_step(attrs, data, table, names[0]);
        attr_fold(m.0, m.1, m.2, names.skip(1))
    }
}

pub proof fn lemma_attr_fold_snoc(
    attrs: Seq<Seq<u8>>,
    data: Seq<Seq<u8>>,
    table: Seq<u8>,
    names: Seq<Seq<u8>>,
    n: int,
)
    requires
        0 <= n < names.len(),
    ensures
        attr_fold(attrs, data, table, names.take(n + 1)) == ({
            let m = attr_fold(attrs, data, table, names.take(n));
            attr_step(m.0, m.1, m.2, names[n])
        }),
    decreases n,
{
    if n == 0 {
        assert(names.take(1)[0] == names[0]);
        assert(names.take(1).skip(1) =~~= names.take(0));
        assert(names.take(0) =~~= Seq::<Seq<u8>>::empty());
        let m1 = attr_step(attrs, data, table, names[0]);
        assert(attr_fold(attrs, data, table, names.take(0)) == (attrs, data, table));
        assert(attr_fold(attrs, data, table, names.take(1)) == attr_fold(
            m1.0,
            m1.1,
            m1.2,
            names.take(1).skip(1),
        ));
        assert(attr_fold(m1.0, m1.1, m1.2, names.take(0)) == m1);
    } else {
        let m0 = attr_step(attrs, data, table, names[0]);
        assert(names.take(n + 1)[0] == names[0]);
        assert(names.take(n + 1).skip(1) =~~= names.skip(1).take(n));
        assert(names.take(n)[0] == names[0]);
        assert(names.take(n).skip(1) =~~= names.skip(1).take(n - 1));
        lemma_attr_fold_snoc(m0.0, m0.1, m0.2, names.skip(1), n - 1);
        assert(names.skip(1)[n - 1] == names[n]);
    }
}

/// The position of the first comma in `s`, or its length when there is none.
pub open spec fn first_comma(s: Seq<u8>) -> int
    decreases s.len(),
{
    if s.len() == 0 {
        0
    } else if s[0] == 44 {
        0
    } else {
        1 + first_comma(s.skip(1))
    }
}

pub proof fn lemma_first_comma_bounds(s: Seq<u8>)
    ensures
        0 <= first_comma(s) <= s.len(),
    decreases s.len(),
{
    if s.len() > 0 && s[0] != 44 {
        lemma_first_comma_bounds(s.skip(1));
    }
}

pub proof fn lemma_first_comma_at(s: Seq<u8>, m: int)
    requires
        0 <= m <= s.len(),
        forall|k: int| 0 <= k < m ==> s[k] != 44,
        m < s.len() ==> s[m] == 44,
    ensures
        first_comma(s) == m,
    decreases m,
{
    if m > 0 {
        assert forall|k: int| 0 <= k < m - 1 implies s.skip(1)[k] != 44 by {
            assert(s.skip(1)[k] == s[k + 1]);
        }
        assert(m - 1 < s.skip(1).len() ==> s.skip(1)[m - 1] == s[m]);
        lemma_first_comma_at(s.skip(1), m - 1);
    }
}

/// Splitting on commas; an input with no comma yields itself as the single
/// piece.
pub open spec fn split_commas_spec(s: Seq<u8>) -> Seq<Seq<u8>>
    decreases s.len(),
    via split_commas_spec_dec
{
    let i = first_comma(s);
    if i >= s.len() {
        seq![s]
    } else {
        seq![s.take(i)] + split_commas_spec(s.skip(i + 1))
    }
}

#[via_fn]
proof fn split_commas_spec_dec(s: Seq<u8>) {
    lemma_first_comma_bounds(s);
}

/// Splits a byte slice on commas.
fn split_commas(s: &[u8]) -> (r: Vec<Vec<u8>>)
    ensures
        r.deep_view() == split_commas_spec(s@),
{
    let mut out: Vec<Vec<u8>> = Vec::new();
    let mut pos: usize = 0;
    proof {
        assert(s@.skip(0) =~= s@);
        assert(out.deep_view() + split_commas_spec(s@) =~~= split_commas_spec(s@));
    }
    loop
        invariant_except_break
            pos <= s@.len(),
            split_commas_spec(s@) =~~= out.deep_view() + split_commas_spec(s@.skip(pos as int)),
        ensures
            out.deep_view() =~~= split_commas_spec(s@),
        decreases s@.len() - pos,
    {
        let ghost pre_out = out.deep_view();
        let mut j: usize = pos;
        while j < s.len() && s[j] != 44
            invariant
                pos <= j <= s@.len(),
                forall|k: int| pos <= k < j ==> s@[k] != 44,
            decreases s@.len() - j,
        {
            j += 1;
        }
        let piece = copy_range(s, pos, j);
        out.push(piece);
        proof {
            let rest = s@.skip(pos as int);
            assert forall|k: int| 0 <= k < j - pos implies rest[k] != 44 by {
                assert(rest[k] == s@[pos + k]);
            }
            assert((j - pos) < rest.len() ==> rest[j - pos as int] == s@[j as int]);
            lemma_first_comma_at(rest, j - pos);
            assert(rest.take(j - pos) =~= s@.subrange(pos as int, j as int));
            assert(out.deep_view() =~~= pre_out.push(s@.subrange(pos as int, j as int)));
            if j < s@.len() {
                assert(rest.skip(j - pos + 1) =~= s@.skip(j + 1));
                assert(split_commas_spec(rest) =~~= seq![rest.take(j - pos)] + split_commas_spec(
                    s@.skip(j + 1),
                ));
                assert(split_commas_spec(s@) =~~= out.deep_view() + split_commas_spec(
                    s@.skip(j + 1),
                ));
            } else {
                assert(rest.take(j - pos) =~= rest);
                assert(split_commas_spec(rest) =~~= seq![rest]);
                assert(split_commas_spec(s@) =~~= out.deep_view());
            }
        }
        if j >= s.len() {
            break ;
        }
        pos = j + 1;
    }
    out
}

} // verus!
