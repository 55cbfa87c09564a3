//! Text helpers of the engine: comparison, escaping, qualified names, and
//! the text forms of booleans and integers.

use vstd::prelude::*;
use vstd::utf8::{encode_utf8, encode_utf8_decode_utf8};

verus! {

/// Whether two strings hold the same characters. The strings are compared
/// byte by byte: two texts with the same bytes are the same text.
pub fn same_text(a: &str, b: &str) -> (r: bool)
    ensures
        r == (a@ == b@),
{
    let x = a.as_bytes();
    let y = b.as_bytes();
    proof {
        encode_utf8_decode_utf8(a@);
        encode_utf8_decode_utf8(b@);
    }
    if x.len() != y.len() {
        return false;
    }
    let mut i: usize = 0;
    while i < x.len()
        invariant
            i <= x.len(),
            x.len() == y.len(),
            x@ == encode_utf8(a@),
            y@ == encode_utf8(b@),
            forall|k: int| 0 <= k < i ==> x@[k] == y@[k],
        decreases x.len() - i,
    {
        if x[i] != y[i] {
            return false;
        }
        i += 1;
    }
    assert(x@ =~= y@);
    true
}

/// What one character becomes in attribute values and character data: the
/// five characters of markup are replaced by their entities.
pub open spec fn escaped_char(c: char) -> Seq<char> {
    if c == '<' {
        seq!['&', 'l', 't', ';']
    } else if c == '>' {
        seq!['&', 'g', 't', ';']
    } else if c == '&' {
        seq!['&', 'a', 'm', 'p', ';']
    } else if c == '\'' {
        seq!['&', 'a', 'p', 'o', 's', ';']
    } else if c == '"' {
        seq!['&', 'q', 'u', 'o', 't', ';']
    } else {
        seq![c]
    }
}

/// The escaped form of a text: each character escaped, in order.
pub open spec fn xml_escaped(raw: Seq<char>) -> Seq<char>
    decreases raw.len(),
{
    if raw.len() == 0 {
        Seq::empty()
    } else {
        xml_escaped(raw.drop_last()) + escaped_char(raw.last())
    }
}

/// The text that `hard_xml::utils::xml_unescape` makes of a raw attribute
/// value or of raw character data, or `None` where it reports an error (an
/// entity without its `;`, or one that it does not know).
pub uninterp spec fn xml_unescaped(raw: Seq<char>) -> Option<Seq<char>>;

/// Calls `hard_xml::utils::xml_escape`. That function copies the text and
/// puts `&lt;`, `&gt;`, `&amp;`, `&apos;` and `&quot;` in place of `<`, `>`,
/// `&`, `'` and `"`; the contract says exactly this.
#[verifier::external_body]
pub(crate) fn escape(raw: &str) -> (r: String)
    ensures
        r@ == xml_escaped(raw@),
{
    hard_xml::utils::xml_escape(raw).into_owned()
}

/// Calls `hard_xml::utils::xml_unescape`. The contract gives its result a
/// name and says nothing else of it.
#[verifier::external_body]
pub(crate) fn unescape(raw: &str) -> (r: Option<String>)
    ensures
        match r {
            Some(s) => xml_unescaped(raw@) == Some(s@),
            None => xml_unescaped(raw@).is_none(),
        },
{
    match hard_xml::utils::xml_unescape(raw) {
        Ok(s) => Some(s.into_owned()),
        Err(_) => None,
    }
}

/// The name of an element or attribute as it stands in the text: the local
/// name alone, or the prefix, a colon and the local name.
pub open spec fn qualified(prefix: Seq<char>, local: Seq<char>) -> Seq<char> {
    if prefix.len() == 0 {
        local
    } else {
        prefix + seq![':'] + local
    }
}

/// Joins a prefix and a local name.
pub fn qualified_name(prefix: &str, local: &str) -> (r: String)
    ensures
        r@ == qualified(prefix@, local@),
{
    let mut name = String::from_str(prefix);
    if prefix.is_empty() {
        assert(name@ + local@ =~= local@);
        name.append(local);
    } else {
        proof {
            reveal_strlit(":");
            assert(":"@ =~= seq![':']);
        }
        name.append(":");
        name.append(local);
    }
    name
}

/// The token that stands for a boolean attribute.
pub open spec fn bool_text(b: bool) -> Seq<char> {
    if b {
        "true"@
    } else {
        "false"@
    }
}

/// The boolean that a token stands for, if any: `t`, `true`, `y`, `yes`,
/// `on` and `1` are true; `f`, `false`, `n`, `no`, `off` and `0` are false.
pub open spec fn bool_value(s: Seq<char>) -> Option<bool> {
    if s == "t"@ || s == "true"@ || s == "y"@ || s == "yes"@ || s == "on"@ || s == "1"@ {
        Some(true)
    } else if s == "f"@ || s == "false"@ || s == "n"@ || s == "no"@ || s == "off"@ || s == "0"@ {
        Some(false)
    } else {
        None
    }
}

/// Writes a boolean as `true` or `false`.
pub fn format_bool(b: bool) -> (r: String)
    ensures
        r@ == bool_text(b),
{
    if b {
        String::from_str("true")
    } else {
        String::from_str("false")
    }
}

/// Reads a boolean token.
pub fn parse_bool(s: &str) -> (r: Option<bool>)
    ensures
        r == bool_value(s@),
{
    if same_text(s, "t") || same_text(s, "true") || same_text(s, "y") || same_text(s, "yes")
        || same_text(s, "on") || same_text(s, "1") {
        Some(true)
    } else if same_text(s, "f") || same_text(s, "false") || same_text(s, "n") || same_text(
        s,
        "no",
    ) || same_text(s, "off") || same_text(s, "0") {
        Some(false)
    } else {
        None
    }
}

/// Reading a written boolean gives it back.
pub proof fn lemma_bool_round_trip(b: bool)
    ensures
        bool_value(bool_text(b)) == Some(b),
{
    reveal_strlit("true");
    reveal_strlit("false");
    reveal_strlit("t");
    reveal_strlit("y");
    reveal_strlit("yes");
    reveal_strlit("on");
    reveal_strlit("1");
    reveal_strlit("f");
    reveal_strlit("n");
    reveal_strlit("no");
    reveal_strlit("off");
    reveal_strlit("0");
    if b {
    } else {
        assert("false"@.len() == 5);
        assert("false"@[0] == 'f');
    }
}

} // verus!
