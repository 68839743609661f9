use vstd::prelude::*;

use crate::bytes::{str_chars, string_push};
use vstd::string::StringExecFns;

verus! {

/// Maximum number of parameters kept in a tag; should be high enough to fit
/// most sensible cases.
pub const MAX_PARAMS: usize = 256;

/// Type of a parsed HTML chunk (token).
#[derive(Clone, Copy, Debug, PartialEq, Eq, Structural)]
pub enum ChunkType {
    /// Text data from the markup.
    Text,
    /// Open tag, possibly with attributes.
    OpenTag,
    /// Closed tag (it may still have attributes).
    CloseTag,
    /// Comment (or CDATA) chunk; its body text is captured only when the
    /// parser is configured to keep comments.
    Comment,
    /// Script body chunk; its text is captured only when the parser is
    /// configured to keep scripts.
    Script,
}

/// The numeric character reference that stands for a quote character.
pub open spec fn quote_entity(q: char) -> Seq<char> {
    if q == '"' {
        seq!['&', '#', '3', '4', ';']
    } else {
        seq!['&', '#', '3', '9', ';']
    }
}

/// Every occurrence of the quote character replaced by its numeric
/// character reference.
pub open spec fn escape_quote_spec(s: Seq<char>, q: char) -> Seq<char>
    decreases s.len(),
{
    if s.len() == 0 {
        Seq::empty()
    } else if s[0] == q {
        quote_entity(q) + escape_quote_spec(s.skip(1), q)
    } else {
        seq![s[0]] + escape_quote_spec(s.skip(1), q)
    }
}

pub open spec fn contains_char(s: Seq<char>, c: char) -> bool {
    exists|i: int| 0 <= i < s.len() && s[i] == c
}

/// A value is quoted when it is longer than 20 characters or holds
/// whitespace or a quote character.
pub open spec fn needs_quoting(v: Seq<char>) -> bool {
    v.len() > 20 || exists|i: int|
        0 <= i < v.len() && (v[i] == ' ' || v[i] == '\t' || v[i] == '\n' || v[i] == '\r' || v[i]
            == '\'' || v[i] == '"')
}

/// The preferred wrapping quote: the quote recorded from the source when it
/// was a quote character, the double quote otherwise.
pub open spec fn preferred_quote(ch: u8) -> char {
    if ch == 39 {
        '\''
    } else {
        '"'
    }
}

/// The other quote character.
pub open spec fn alternate_quote(q: char) -> char {
    if q == '"' {
        '\''
    } else {
        '"'
    }
}

/// The quote a value is wrapped in: the preferred quote, or the alternate
/// one when the value itself contains the preferred quote.
pub open spec fn wrap_quote(v: Seq<char>, ch: u8) -> char {
    if contains_char(v, preferred_quote(ch)) {
        alternate_quote(preferred_quote(ch))
    } else {
        preferred_quote(ch)
    }
}

/// Canonical markup for one attribute: a bare name for an empty value, a
/// quoted value when quoting is called for (with the wrapping quote escaped
/// inside the value), and a bare `name=value` otherwise.
pub open spec fn gen_param_spec(name: Seq<char>, val: Seq<char>, ch: u8) -> Seq<char> {
    if val.len() == 0 {
        name
    } else if needs_quoting(val) {
        let q = wrap_quote(val, ch);
        name + seq!['='] + seq![q] + escape_quote_spec(val, q) + seq![q]
    } else {
        name + seq!['='] + val
    }
}

/// Canonical markup for the first `n` attributes, space-separated.
pub open spec fn gen_params_spec(
    names: Seq<Seq<char>>,
    values: Seq<Seq<char>>,
    chars: Seq<u8>,
    n: int,
) -> Seq<char>
    decreases n,
{
    if n <= 0 {
        Seq::empty()
    } else if n == 1 {
        gen_param_spec(names[0], values[0], chars[0])
    } else {
        gen_params_spec(names, values, chars, n - 1) + seq![' '] + gen_param_spec(
            names[n - 1],
            values[n - 1],
            chars[n - 1],
        )
    }
}

/// Canonical markup for the first `n` pairs of the mapping form; values are
/// wrapped with the single quote preferred, as the source quote is not
/// recorded in this form.
pub open spec fn gen_params_hash_spec(pairs: Seq<(Seq<char>, Seq<char>)>, n: int) -> Seq<char>
    decreases n,
{
    if n <= 0 {
        Seq::empty()
    } else if n == 1 {
        gen_param_spec(pairs[0].0, pairs[0].1, 39)
    } else {
        gen_params_hash_spec(pairs, n - 1) + seq![' '] + gen_param_spec(
            pairs[n - 1].0,
            pairs[n - 1].1,
            39,
        )
    }
}

/// Law: escaping leaves no occurrence of the wrapping quote in the value, so
/// the regenerated attribute is well-formed.
pub proof fn lemma_escape_no_quote(s: Seq<char>, q: char, i: int)
    requires
        q == '"' || q == '\'',
        0 <= i < escape_quote_spec(s, q).len(),
    ensures
        escape_quote_spec(s, q)[i] != q,
    decreases s.len(),
{
    if s.len() > 0 {
        if s[0] == q {
            if i >= quote_entity(q).len() {
                lemma_escape_no_quote(s.skip(1), q, i - quote_entity(q).len());
            }
        } else {
            if i >= 1 {
                lemma_escape_no_quote(s.skip(1), q, i - 1);
            }
        }
    }
}

/// Law: a value that does not contain the wrapping quote is left unchanged
/// by escaping, so regeneration preserves it letter for letter.
pub proof fn lemma_escape_identity(s: Seq<char>, q: char)
    requires
        !contains_char(s, q),
    ensures
        escape_quote_spec(s, q) == s,
    decreases s.len(),
{
    if s.len() > 0 {
        assert(s[0] != q);
        assert forall|i: int| 0 <= i < s.skip(1).len() implies s.skip(1)[i] != q by {
            assert(s.skip(1)[i] == s[i + 1]);
        }
        lemma_escape_identity(s.skip(1), q);
        assert(escape_quote_spec(s, q) =~= s);
    }
}

/// Parsed HTML token: text, comment, script, or an open or close tag, as
/// the `chunk_type` field says. One instance is reused across successive
/// tokenizer calls; callers that keep a token's data across calls must copy
/// it out first.
pub struct HtmlChunk {
    /// Chunk type: text, open or close tag, comment or script.
    pub chunk_type: ChunkType,
    /// If true, tag parameters are kept in the mapping form rather than in
    /// the ordered arrays. Slower, but easier to use.
    pub hash_mode: bool,
    /// Captured text: decoded text content for text chunks, comment or
    /// script body for those kinds (when the parser is configured to keep
    /// them).
    pub html: String,
    /// Offset in the parsed buffer at which this chunk starts.
    pub chunk_offset: usize,
    /// Length of the chunk in the parsed buffer.
    pub chunk_length: usize,
    /// Lower-cased tag name for tag chunks; the comment or CDATA marker for
    /// comment chunks.
    pub tag: String,
    /// True for a close tag.
    pub closure: bool,
    /// True when the closure sign stood at the end of the tag itself: a
    /// solo (self-closed) tag.
    pub end_closure: bool,
    /// True for a comment chunk.
    pub comments: bool,
    /// True when entities were present (and transformed) in the source.
    pub entities: bool,
    /// True when an `&lt;` entity (escaped tag start) was found.
    pub lt_entity: bool,
    /// Tag parameters in mapping form: ordered name-value pairs with unique
    /// names, later insertions winning. Only used when `hash_mode` is set.
    pub params: Option<Vec<(String, String)>>,
    /// Number of parameters stored in the ordered arrays.
    pub params_count: usize,
    /// Parameter names; the used length is `params_count`.
    pub param_names: Vec<String>,
    /// Parameter values; the used length is `params_count`.
    pub param_values: Vec<String>,
    /// Quote characters the parameter values carried in the source: `"` or
    /// `'`, or zero for an unquoted value.
    pub param_chars: Vec<u8>,
}

impl HtmlChunk {
    /// The ordered parameter arrays agree in length, stay within the
    /// parameter bound, and the mapping form exists whenever mapping mode is
    /// on.
    pub open spec fn wf(&self) -> bool {
        &&& self.params_count == self.param_names@.len()
        &&& self.params_count == self.param_values@.len()
        &&& self.params_count == self.param_chars@.len()
        &&& self.params_count <= MAX_PARAMS
        &&& self.hash_mode ==> self.params is Some
    }

    /// Parameter names as character sequences.
    pub open spec fn names_spec(&self) -> Seq<Seq<char>> {
        self.param_names@.map_values(|s: String| s@)
    }

    /// Parameter values as character sequences.
    pub open spec fn values_spec(&self) -> Seq<Seq<char>> {
        self.param_values@.map_values(|s: String| s@)
    }

    /// The mapping form as character-sequence pairs.
    pub open spec fn pairs_spec(&self) -> Seq<(Seq<char>, Seq<char>)> {
        match self.params {
            Option::Some(v) => v@.map_values(|p: (String, String)| (p.0@, p.1@)),
            Option::None => Seq::empty(),
        }
    }

    pub fn new(hash_mode: bool) -> (r: HtmlChunk)
        ensures
            r.wf(),
            r.hash_mode == hash_mode,
            r.chunk_type == ChunkType::Text,
            r.html@ == Seq::<char>::empty(),
            r.chunk_offset == 0,
            r.chunk_length == 0,
            r.tag@ == Seq::<char>::empty(),
            !r.closure,
            !r.end_closure,
            !r.comments,
            !r.entities,
            !r.lt_entity,
            r.params_count == 0,
            r.params is Some <==> hash_mode,
            hash_mode ==> r.pairs_spec() == Seq::<(Seq<char>, Seq<char>)>::empty(),
    {
        let params: Option<Vec<(String, String)>> = if hash_mode {
            Some(Vec::new())
        } else {
            None
        };
        let r = HtmlChunk {
            hash_mode,
            chunk_type: ChunkType::Text,
            html: String::new(),
            chunk_offset: 0,
            chunk_length: 0,
            tag: String::new(),
            closure: false,
            end_closure: false,
            comments: false,
            entities: false,
            lt_entity: false,
            params,
            params_count: 0,
            param_names: Vec::new(),
            param_values: Vec::new(),
            param_chars: Vec::new(),
        };
        proof {
            if hash_mode {
                assert(r.pairs_spec() =~= Seq::<(Seq<char>, Seq<char>)>::empty());
            }
        }
        r
    }

    /// Clears the chunk, preparing it for reuse; the storage mode is kept.
    pub fn clear(&mut self)
        requires
            old(self).wf(),
        ensures
            final(self).wf(),
            final(self).hash_mode == old(self).hash_mode,
            final(self).chunk_type == old(self).chunk_type,
            final(self).chunk_offset == old(self).chunk_offset,
            final(self).chunk_length == old(self).chunk_length,
            final(self).html@ == Seq::<char>::empty(),
            final(self).tag@ == Seq::<char>::empty(),
            !final(self).closure,
            !final(self).end_closure,
            !final(self).comments,
            !final(self).entities,
            !final(self).lt_entity,
            final(self).params_count == 0,
            old(self).hash_mode ==> final(self).pairs_spec() == Seq::<
                (Seq<char>, Seq<char>),
            >::empty(),
    {
        self.tag = String::new();
        self.html = String::new();
        self.lt_entity = false;
        self.entities = false;
        self.comments = false;
        self.closure = false;
        self.end_closure = false;
        self.params_count = 0;
        self.param_names = Vec::new();
        self.param_values = Vec::new();
        self.param_chars = Vec::new();
        if self.hash_mode {
            self.params = Some(Vec::new());
        }
        proof {
            assert(self.param_names@ =~= Seq::<String>::empty());
            if self.hash_mode {
                assert(self.pairs_spec() =~= Seq::<(Seq<char>, Seq<char>)>::empty());
            }
        }
    }

    /// Converts the parameters stored in the ordered arrays into the mapping
    /// form, in order, a later occurrence of a name overwriting an earlier
    /// one.
    pub fn convert_params_to_hash(&mut self)
        requires
            old(self).wf(),
        ensures
            final(self).wf(),
            final(self).params is Some,
            final(self).pairs_spec() == params_map_spec(
                old(self).names_spec(),
                old(self).values_spec(),
                old(self).params_count as int,
            ),
            final(self).hash_mode == old(self).hash_mode,
            final(self).param_names == old(self).param_names,
            final(self).param_values == old(self).param_values,
            final(self).param_chars == old(self).param_chars,
            final(self).params_count == old(self).params_count,
            final(self).chunk_type == old(self).chunk_type,
            final(self).html == old(self).html,
            final(self).tag == old(self).tag,
    {
        let mut m: Vec<(String, String)> = Vec::new();
        let ghost names = self.names_spec();
        let ghost values = self.values_spec();
        let mut i: usize = 0;
        proof {
            assert(view_pairs(m@) =~= Seq::<(Seq<char>, Seq<char>)>::empty());
        }
        while i < self.params_count
            invariant
                self.wf(),
                i <= self.params_count,
                names == self.names_spec(),
                values == self.values_spec(),
                view_pairs(m@) == params_map_spec(names, values, i as int),
            decreases self.params_count - i,
        {
            let ghost pre = view_pairs(m@);
            let name = &self.param_names[i];
            let value = &self.param_values[i];
            let mut j: usize = 0;
            let mut found: bool = false;
            loop
                invariant_except_break
                    j <= m@.len(),
                    pre == view_pairs(m@),
                    !found,
                    forall|x: int| 0 <= x < j ==> view_pairs(m@)[x].0 != name@,
                ensures
                    j <= m@.len(),
                    pre == view_pairs(m@),
                    forall|x: int| 0 <= x < j ==> view_pairs(m@)[x].0 != name@,
                    found ==> (j < m@.len() && view_pairs(m@)[j as int].0 == name@),
                    !found ==> j == m@.len(),
                decreases m@.len() - j,
            {
                if j >= m.len() {
                    break ;
                }
                if m[j].0 == *name {
                    proof {
                        assert(view_pairs(m@)[j as int].0 == name@);
                    }
                    found = true;
                    break ;
                }
                proof {
                    assert(view_pairs(m@)[j as int].0 != name@);
                }
                j += 1;
            }
            proof {
                lemma_assoc_find_at(pre, name@, j as int);
            }
            if found {
                m[j] = (name.clone(), value.clone());
                proof {
                    assert(view_pairs(m@) =~= assoc_put(pre, name@, value@));
                }
            } else {
                m.push((name.clone(), value.clone()));
                proof {
                    assert(view_pairs(m@) =~= assoc_put(pre, name@, value@));
                }
            }
            proof {
                assert(names[i as int] == name@);
                assert(values[i as int] == value@);
            }
            i += 1;
        }
        self.params = Some(m);
    }

    /// Returns the value recorded for a parameter name: from the mapping
    /// form when mapping mode is on, else the first match in the ordered
    /// arrays; the empty string when the name is absent.
    pub fn get_param_value(&self, name: &String) -> (r: String)
        requires
            self.wf(),
        ensures
            r@ == self.param_value_spec(name@),
    {
        if self.hash_mode {
            if let Some(params) = &self.params {
                let ghost pairs = self.pairs_spec();
                let mut j: usize = 0;
                while j < params.len()
                    invariant
                        self.hash_mode,
                        self.params is Some,
                        j <= params@.len(),
                        pairs == self.pairs_spec(),
                        pairs.len() == params@.len(),
                        forall|x: int| 0 <= x < j ==> pairs[x].0 != name@,
                        forall|x: int|
                            0 <= x < pairs.len() ==> pairs[x] == (#[trigger] params@[x].0@,
                            params@[x].1@),
                    decreases params@.len() - j,
                {
                    if params[j].0 == *name {
                        proof {
                            assert(pairs[j as int].0 == name@);
                            lemma_assoc_find_at(pairs, name@, j as int);
                            assert(pairs[j as int].1 == params@[j as int].1@);
                            assert(self.param_value_spec(name@) == pairs[j as int].1);
                        }
                        return params[j].1.clone();
                    }
                    proof {
                        assert(pairs[j as int].0 != name@);
                    }
                    j += 1;
                }
                proof {
                    lemma_assoc_find_at(pairs, name@, pairs.len() as int);
                }
                return String::new();
            }
            return String::new();
        }
        let mut j: usize = 0;
        while j < self.params_count
            invariant
                self.wf(),
                !self.hash_mode,
                j <= self.params_count,
                forall|x: int| 0 <= x < j ==> self.names_spec()[x] != name@,
            decreases self.params_count - j,
        {
            if self.param_names[j] == *name {
                proof {
                    assert(self.names_spec()[j as int] == name@);
                    lemma_str_find_at(self.names_spec(), name@, j as int);
                    assert(self.values_spec()[j as int] == self.param_values@[j as int]@);
                    assert(self.param_value_spec(name@) == self.values_spec()[j as int]);
                }
                return self.param_values[j].clone();
            }
            proof {
                assert(self.names_spec()[j as int] == self.param_names@[j as int]@);
            }
            j += 1;
        }
        proof {
            lemma_str_find_at(self.names_spec(), name@, self.params_count as int);
        }
        String::new()
    }

    /// What `get_param_value` returns for a name.
    pub open spec fn param_value_spec(&self, k: Seq<char>) -> Seq<char> {
        if self.hash_mode {
            match self.params {
                Option::Some(_) => {
                    let pairs = self.pairs_spec();
                    let i = assoc_find(pairs, k);
                    if i < pairs.len() {
                        pairs[i].1
                    } else {
                        Seq::empty()
                    }
                },
                Option::None => Seq::empty(),
            }
        } else {
            let i = str_find(self.names_spec(), k);
            if i < self.params_count {
                self.values_spec()[i]
            } else {
                Seq::empty()
            }
        }
    }
}

/// Markup of all parameters in the storage form the chunk uses.
pub open spec fn params_markup(c: &HtmlChunk) -> Seq<char> {
    if c.hash_mode {
        gen_params_hash_spec(c.pairs_spec(), c.pairs_spec().len() as int)
    } else {
        gen_params_spec(c.names_spec(), c.values_spec(), c.param_chars@, c.params_count as int)
    }
}

/// Canonical markup regenerated from a chunk's parsed fields.
pub open spec fn gen_html_spec(c: &HtmlChunk) -> Seq<char> {
    match c.chunk_type {
        ChunkType::Text => c.html@,
        ChunkType::OpenTag => seq!['<'] + c.tag@ + (if c.params_count > 0 {
            seq![' '] + params_markup(c)
        } else {
            Seq::empty()
        }) + seq!['>'],
        ChunkType::CloseTag => if c.params_count > 0 || c.end_closure {
            seq!['<'] + c.tag@ + (if c.params_count > 0 {
                seq![' '] + params_markup(c)
            } else {
                Seq::empty()
            }) + seq!['/', '>']
        } else {
            seq!['<', '/'] + c.tag@ + seq!['>']
        },
        ChunkType::Script => if c.html@.len() == 0 {
            ("<script>n/a</script>")@
        } else {
            c.html@
        },
        ChunkType::Comment => if c.tag@ == ("!--")@ {
            if c.html@.len() == 0 {
                ("<!-- n/a -->")@
            } else {
                ("<!--")@ + c.html@ + ("-->")@
            }
        } else if c.tag@ == ("![CDATA[")@ {
            if c.html@.len() == 0 {
                ("<![CDATA[ n/a \n]]>")@
            } else {
                ("<![CDATA[")@ + c.html@ + ("]]>")@
            }
        } else {
            Seq::empty()
        },
    }
}

impl HtmlChunk {
    /// Makes a parameter value safe to stand inside the chosen quote: each
    /// occurrence of the quote becomes its numeric character reference.
    pub fn make_safe_param_value(line: &String, quote_ch: char) -> (r: String)
        requires
            quote_ch == '"' || quote_ch == '\'',
        ensures
            r@ == escape_quote_spec(line@, quote_ch),
    {
        let cs = str_chars(line.as_str());
        let mut r = String::new();
        let mut k: usize = 0;
        proof {
            assert(cs@.skip(0) =~= cs@);
            assert(r@ + escape_quote_spec(cs@.skip(0), quote_ch) =~= escape_quote_spec(
                line@,
                quote_ch,
            ));
        }
        while k < cs.len()
            invariant
                k <= cs@.len(),
                cs@ == line@,
                quote_ch == '"' || quote_ch == '\'',
                r@ + escape_quote_spec(cs@.skip(k as int), quote_ch) =~= escape_quote_spec(
                    line@,
                    quote_ch,
                ),
            decreases cs@.len() - k,
        {
            proof {
                assert(cs@.skip(k as int)[0] == cs@[k as int]);
                assert(cs@.skip(k as int).skip(1) =~= cs@.skip(k as int + 1));
            }
            let c = cs[k];
            if c == quote_ch {
                if c == '"' {
                    r.append("&#34;");
                    proof {
                        reveal_strlit("&#34;");
                        assert(("&#34;")@ =~= quote_entity(quote_ch));
                    }
                } else {
                    r.append("&#39;");
                    proof {
                        reveal_strlit("&#39;");
                        assert(("&#39;")@ =~= quote_entity(quote_ch));
                    }
                }
            } else {
                string_push(&mut r, c);
            }
            proof {
                assert(r@ + escape_quote_spec(cs@.skip(k as int + 1), quote_ch) =~= escape_quote_spec(
                    line@,
                    quote_ch,
                ));
            }
            k += 1;
        }
        proof {
            assert(cs@.skip(k as int) =~= Seq::<char>::empty());
            assert(r@ =~= escape_quote_spec(line@, quote_ch));
        }
        r
    }

    /// Canonical markup for one attribute.
    fn generate_param_html(name: &String, val: &String, ch: u8) -> (r: String)
        ensures
            r@ == gen_param_spec(name@, val@, ch),
    {
        if val.as_str().is_empty() {
            proof {
                assert(val@.len() == 0);
            }
            return name.clone();
        }
        let cs = str_chars(val.as_str());
        let pref: char = if ch == 39 {
            '\''
        } else {
            '"'
        };
        let mut needs_q: bool = cs.len() > 20;
        let mut has_pref: bool = false;
        let mut k: usize = 0;
        while k < cs.len()
            invariant
                k <= cs@.len(),
                cs@ == val@,
                pref == preferred_quote(ch),
                needs_q == (cs@.len() > 20 || exists|i: int|
                    0 <= i < k && (cs@[i] == ' ' || cs@[i] == '\t' || cs@[i] == '\n' || cs@[i]
                        == '\r' || cs@[i] == '\'' || cs@[i] == '"')),
                has_pref == (exists|i: int| 0 <= i < k && cs@[i] == pref),
            decreases cs@.len() - k,
        {
            let c = cs[k];
            if c == ' ' || c == '\t' || c == '\n' || c == '\r' || c == '\'' || c == '"' {
                needs_q = true;
            }
            if c == pref {
                has_pref = true;
            }
            k += 1;
        }
        proof {
            assert(needs_q == needs_quoting(val@));
            assert(has_pref == contains_char(val@, preferred_quote(ch)));
        }
        let mut r = name.clone();
        if !needs_q {
            r.append("=");
            r.append(val.as_str());
            proof {
                reveal_strlit("=");
                assert(("=")@ =~= seq!['=']);
                assert(r@ =~= gen_param_spec(name@, val@, ch));
            }
            return r;
        }
        let q: char = if has_pref {
            if pref == '"' {
                '\''
            } else {
                '"'
            }
        } else {
            pref
        };
        proof {
            assert(q == wrap_quote(val@, ch));
        }
        let safe = Self::make_safe_param_value(val, q);
        r.append("=");
        string_push(&mut r, q);
        r.append(safe.as_str());
        string_push(&mut r, q);
        proof {
            reveal_strlit("=");
            assert(("=")@ =~= seq!['=']);
            assert(r@ =~= gen_param_spec(name@, val@, ch));
        }
        r
    }

    /// Canonical markup for all parameters, space-separated.
    fn generate_params_html(&self) -> (r: String)
        requires
            self.wf(),
        ensures
            r@ == params_markup(self),
    {
        let mut r = String::new();
        if self.hash_mode {
            if let Some(params) = &self.params {
                let ghost pairs = self.pairs_spec();
                let mut i: usize = 0;
                while i < params.len()
                    invariant
                        self.hash_mode,
                        self.params is Some,
                        i <= params@.len(),
                        pairs == self.pairs_spec(),
                        pairs.len() == params@.len(),
                        forall|x: int|
                            0 <= x < pairs.len() ==> pairs[x] == (#[trigger] params@[x].0@,
                            params@[x].1@),
                        r@ == gen_params_hash_spec(pairs, i as int),
                    decreases params@.len() - i,
                {
                    if i > 0 {
                        r.append(" ");
                    }
                    let p = Self::generate_param_html(&params[i].0, &params[i].1, 39);
                    r.append(p.as_str());
                    proof {
                        reveal_strlit(" ");
                        assert((" ")@ =~= seq![' ']);
                        assert(r@ =~= gen_params_hash_spec(pairs, i as int + 1));
                    }
                    i += 1;
                }
            }
        } else {
            let mut i: usize = 0;
            while i < self.params_count
                invariant
                    self.wf(),
                    !self.hash_mode,
                    i <= self.params_count,
                    r@ == gen_params_spec(
                        self.names_spec(),
                        self.values_spec(),
                        self.param_chars@,
                        i as int,
                    ),
                decreases self.params_count - i,
            {
                if i > 0 {
                    r.append(" ");
                }
                let p = Self::generate_param_html(
                    &self.param_names[i],
                    &self.param_values[i],
                    self.param_chars[i],
                );
                r.append(p.as_str());
                proof {
                    reveal_strlit(" ");
                    assert((" ")@ =~= seq![' ']);
                    assert(self.names_spec()[i as int] == self.param_names@[i as int]@);
                    assert(self.values_spec()[i as int] == self.param_values@[i as int]@);
                    assert(r@ =~= gen_params_spec(
                        self.names_spec(),
                        self.values_spec(),
                        self.param_chars@,
                        i as int + 1,
                    ));
                }
                i += 1;
            }
        }
        r
    }

    /// Regenerates canonical markup from the chunk's parsed fields. This is
    /// a canonicalizing regeneration, not a byte-exact echo of the source;
    /// the original bytes are available through the chunk's offset and
    /// length instead.
    pub fn generate_html(&self) -> (r: String)
        requires
            self.wf(),
        ensures
            r@ == gen_html_spec(self),
    {
        match self.chunk_type {
            ChunkType::OpenTag => {
                let mut r = String::new();
                string_push(&mut r, '<');
                r.append(self.tag.as_str());
                if self.params_count > 0 {
                    string_push(&mut r, ' ');
                    let ps = self.generate_params_html();
                    r.append(ps.as_str());
                }
                string_push(&mut r, '>');
                proof {
                    assert(r@ =~= gen_html_spec(self));
                }
                r
            },
            ChunkType::CloseTag => {
                let mut r = String::new();
                if self.params_count > 0 || self.end_closure {
                    string_push(&mut r, '<');
                    r.append(self.tag.as_str());
                    if self.params_count > 0 {
                        string_push(&mut r, ' ');
                        let ps = self.generate_params_html();
                        r.append(ps.as_str());
                    }
                    string_push(&mut r, '/');
                    string_push(&mut r, '>');
                } else {
                    string_push(&mut r, '<');
                    string_push(&mut r, '/');
                    r.append(self.tag.as_str());
                    string_push(&mut r, '>');
                }
                proof {
                    assert(r@ =~= gen_html_spec(self));
                }
                r
            },
            ChunkType::Script => {
                if self.html.as_str().is_empty() {
                    let r = String::from_str("<script>n/a</script>");
                    proof {
                        assert(self.html@.len() == 0);
                    }
                    r
                } else {
                    self.html.clone()
                }
            },
            ChunkType::Comment => {
                let marker = String::from_str("!--");
                let cdata = String::from_str("![CDATA[");
                proof {
                    reveal_strlit("!--");
                    reveal_strlit("![CDATA[");
                }
                let mut r = String::new();
                if self.tag == marker {
                    if self.html.as_str().is_empty() {
                        r = String::from_str("<!-- n/a -->");
                    } else {
                        r = String::from_str("<!--");
                        r.append(self.html.as_str());
                        r.append("-->");
                    }
                } else if self.tag == cdata {
                    if self.html.as_str().is_empty() {
                        r = String::from_str("<![CDATA[ n/a \n]]>");
                    } else {
                        r = String::from_str("<![CDATA[");
                        r.append(self.html.as_str());
                        r.append("]]>");
                    }
                }
                proof {
                    assert(r@ =~= gen_html_spec(self));
                }
                r
            },
            ChunkType::Text => self.html.clone(),
        }
    }
}

/// The pairs of a parameter mapping as character sequences.
pub open spec fn view_pairs(v: Seq<(String, String)>) -> Seq<(Seq<char>, Seq<char>)> {
    v.map_values(|p: (String, String)| (p.0@, p.1@))
}

/// Index of the first pair whose name is `k`, or the length when absent.
pub open spec fn assoc_find(m: Seq<(Seq<char>, Seq<char>)>, k: Seq<char>) -> int
    decreases m.len(),
{
    if m.len() == 0 {
        0
    } else if m[0].0 == k {
        0
    } else {
        1 + assoc_find(m.skip(1), k)
    }
}

pub proof fn lemma_assoc_find(m: Seq<(Seq<char>, Seq<char>)>, k: Seq<char>)
    ensures
        0 <= assoc_find(m, k) <= m.len(),
    decreases m.len(),
{
    if m.len() > 0 && m[0].0 != k {
        lemma_assoc_find(m.skip(1), k);
    }
}

pub proof fn lemma_assoc_find_at(m: Seq<(Seq<char>, Seq<char>)>, k: Seq<char>, j: int)
    requires
        0 <= j <= m.len(),
        forall|x: int| 0 <= x < j ==> m[x].0 != k,
        j < m.len() ==> m[j].0 == k,
    ensures
        assoc_find(m, k) == j,
    decreases j,
{
    if j > 0 {
        assert forall|x: int| 0 <= x < j - 1 implies m.skip(1)[x].0 != k by {
            assert(m.skip(1)[x] == m[x + 1]);
        }
        assert(j - 1 < m.skip(1).len() ==> m.skip(1)[j - 1] == m[j]);
        lemma_assoc_find_at(m.skip(1), k, j - 1);
    }
}

/// Inserting into the mapping: an existing name is overwritten in place, a
/// new name is appended.
pub open spec fn assoc_put(
    m: Seq<(Seq<char>, Seq<char>)>,
    k: Seq<char>,
    v: Seq<char>,
) -> Seq<(Seq<char>, Seq<char>)> {
    let i = assoc_find(m, k);
    if i < m.len() {
        m.update(i, (k, v))
    } else {
        m.push((k, v))
    }
}

/// The mapping built from the first `n` ordered parameters, in order.
pub open spec fn params_map_spec(names: Seq<Seq<char>>, values: Seq<Seq<char>>, n: int) -> Seq<
    (Seq<char>, Seq<char>),
>
    decreases n,
{
    if n <= 0 {
        Seq::empty()
    } else {
        assoc_put(params_map_spec(names, values, n - 1), names[n - 1], values[n - 1])
    }
}

/// Index of the first name equal to `k`, or the length when absent.
pub open spec fn str_find(names: Seq<Seq<char>>, k: Seq<char>) -> int
    decreases names.len(),
{
    if names.len() == 0 {
        0
    } else if names[0] == k {
        0
    } else {
        1 + str_find(names.skip(1), k)
    }
}

pub proof fn lemma_str_find_at(names: Seq<Seq<char>>, k: Seq<char>, j: int)
    requires
        0 <= j <= names.len(),
        forall|x: int| 0 <= x < j ==> names[x] != k,
        j < names.len() ==> names[j] == k,
    ensures
        str_find(names, k) == j,
    decreases j,
{
    if j > 0 {
        assert forall|x: int| 0 <= x < j - 1 implies names.skip(1)[x] != k by {
            assert(names.skip(1)[x] == names[x + 1]);
        }
        assert(j - 1 < names.skip(1).len() ==> names.skip(1)[j - 1] == names[j]);
        lemma_str_find_at(names.skip(1), k, j - 1);
    }
}

} // verus!
