//! The canonical textual form of a configuration document, and the parser
//! that accepts it and ordinary hand-written variants of it: a JSON object
//! `{ "title": <string>, "links": [ { "name", "url", "altName", "icon" } ] }`
//! with the keys of each object in any order, each at most once; `title`,
//! `altName` and `icon` optional; `null` accepted for the two optional link
//! fields; free whitespace between tokens; and the JSON string escapes,
//! surrogate pairs included. A key outside the schema is rejected rather
//! than skipped: a submission is validated whole, not filtered.
//!
//! The canonical form is pretty-printed with a stable key order, two-space
//! indentation and a trailing newline; serializing always succeeds, and
//! parsing inverts it exactly (see `lemma_canonical_round_trip`).

use vstd::prelude::*;
use vstd::string::StrSliceExecFns;
use crate::model::Config;
use crate::model::ConfigV;
use crate::model::LinkItem;
use crate::model::LinkV;
use crate::model::spec_default_title;

verus! {

/// Relies on String's FromIterator over characters: collecting characters
/// yields a string whose characters are exactly those collected, in order.
#[verifier::external_body]
pub(crate) fn chars_to_string(v: &Vec<char>) -> (r: String)
    ensures
        r@ == v@,
{
    v.iter().collect()
}

/// The characters the grammar treats as whitespace between tokens.
pub open spec fn is_ws_char(c: char) -> bool {
    c == ' ' || c == '\n' || c == '\t' || c == '\r'
}

/// Control characters must be escaped inside a string.
pub open spec fn is_ctrl_char(c: char) -> bool {
    (c as u32) < 32
}

/// The lower-case hexadecimal digit of a value below sixteen.
pub open spec fn spec_hex_digit(v: u32) -> char {
    if v == 0 {
        '0'
    } else if v == 1 {
        '1'
    } else if v == 2 {
        '2'
    } else if v == 3 {
        '3'
    } else if v == 4 {
        '4'
    } else if v == 5 {
        '5'
    } else if v == 6 {
        '6'
    } else if v == 7 {
        '7'
    } else if v == 8 {
        '8'
    } else if v == 9 {
        '9'
    } else if v == 10 {
        'a'
    } else if v == 11 {
        'b'
    } else if v == 12 {
        'c'
    } else if v == 13 {
        'd'
    } else if v == 14 {
        'e'
    } else {
        'f'
    }
}

/// How one character appears inside a serialized string: quote and backslash
/// escaped by name, control characters as a four-digit escape, all others raw.
pub open spec fn spec_escape_char(c: char) -> Seq<char> {
    if c == '"' {
        seq!['\\', '"']
    } else if c == '\\' {
        seq!['\\', '\\']
    } else if is_ctrl_char(c) {
        seq!['\\', 'u', '0', '0', spec_hex_digit((c as u32) / 16), spec_hex_digit((c as u32) % 16)]
    } else {
        seq![c]
    }
}

/// A whole character sequence, escaped.
pub open spec fn spec_escape(s: Seq<char>) -> Seq<char>
    decreases s.len(),
{
    if s.len() == 0 {
        Seq::empty()
    } else {
        spec_escape_char(s[0]) + spec_escape(s.drop_first())
    }
}

/// A serialized string: the escaped characters between double quotes.
pub open spec fn spec_ser_string(s: Seq<char>) -> Seq<char> {
    seq!['"'] + spec_escape(s) + seq!['"']
}

/// A serialized optional string: a string, or the literal `null`.
pub open spec fn spec_ser_opt(o: Option<Seq<char>>) -> Seq<char> {
    match o {
        Some(s) => spec_ser_string(s),
        None => "null"@,
    }
}

/// One link in canonical form, from its opening brace to its closing one.
pub open spec fn spec_ser_link(l: LinkV) -> Seq<char> {
    "{\n      "@ + "\"name\""@ + ": "@ + spec_ser_string(l.name) + ",\n      "@ + "\"url\""@
        + ": "@ + spec_ser_string(l.url) + ",\n      "@ + "\"altName\""@ + ": "@ + spec_ser_opt(
        l.alt_name,
    ) + ",\n      "@ + "\"icon\""@ + ": "@ + spec_ser_opt(l.icon) + "\n    }"@
}

/// The links after the first, each behind a separator.
pub open spec fn spec_ser_more_links(ls: Seq<LinkV>) -> Seq<char>
    decreases ls.len(),
{
    if ls.len() == 0 {
        Seq::empty()
    } else {
        ",\n    "@ + spec_ser_link(ls[0]) + spec_ser_more_links(ls.drop_first())
    }
}

/// The links array in canonical form.
pub open spec fn spec_ser_links(ls: Seq<LinkV>) -> Seq<char> {
    if ls.len() == 0 {
        "[]"@
    } else {
        "[\n    "@ + spec_ser_link(ls[0]) + spec_ser_more_links(ls.drop_first()) + "\n  ]"@
    }
}

/// The canonical text of a whole document: stable key order, two-space
/// indentation, and a trailing newline.
pub open spec fn spec_ser_config(d: ConfigV) -> Seq<char> {
    "{\n  "@ + "\"title\""@ + ": "@ + spec_ser_string(d.title) + ",\n  "@ + "\"links\""@
        + ": "@ + spec_ser_links(d.links) + "\n}\n"@
}

/// Escaping distributes over concatenation.
proof fn lemma_escape_app(a: Seq<char>, b: Seq<char>)
    ensures
        spec_escape(a + b) == spec_escape(a) + spec_escape(b),
    decreases a.len(),
{
    if a.len() == 0 {
        assert(a + b =~= b);
        assert(spec_escape(a) + spec_escape(b) =~= spec_escape(b));
    } else {
        assert((a + b).drop_first() =~= a.drop_first() + b);
        lemma_escape_app(a.drop_first(), b);
        assert((a + b)[0] == a[0]);
        assert(spec_escape(a + b) =~= spec_escape(a) + spec_escape(b));
    }
}

/// Escaping one more character appends its escape.
proof fn lemma_escape_snoc(s: Seq<char>, i: int)
    requires
        0 <= i < s.len(),
    ensures
        spec_escape(s.take(i + 1)) == spec_escape(s.take(i)) + spec_escape_char(s[i]),
{
    lemma_escape_app(s.take(i), seq![s[i]]);
    assert(s.take(i) + seq![s[i]] =~= s.take(i + 1));
    assert(seq![s[i]].drop_first() =~= Seq::<char>::empty());
    assert(spec_escape(Seq::<char>::empty()) == Seq::<char>::empty());
    assert(spec_escape(seq![s[i]]) == spec_escape_char(seq![s[i]][0]) + spec_escape(
        seq![s[i]].drop_first(),
    ));
    assert(seq![s[i]][0] == s[i]);
    assert(spec_escape_char(s[i]) + Seq::<char>::empty() =~= spec_escape_char(s[i]));
}

/// Copy a literal's characters to the output.
pub(crate) fn emit_lit(out: &mut Vec<char>, lit: &str)
    ensures
        final(out)@ == old(out)@ + lit@,
{
    let n = lit.unicode_len();
    let mut i: usize = 0;
    while i < n
        invariant
            n == lit@.len(),
            i <= n,
            out@ =~= old(out)@ + lit@.take(i as int),
        decreases n - i,
    {
        out.push(lit.get_char(i));
        proof {
            assert(lit@.take(i + 1) =~= lit@.take(i as int).push(lit@[i as int]));
        }
        i += 1;
    }
    proof {
        assert(lit@.take(n as int) =~= lit@);
    }
}

/// The lower-case hexadecimal digit of a value below sixteen.
fn hex_digit(v: u32) -> (r: char)
    requires
        v < 16,
    ensures
        r == spec_hex_digit(v),
{
    if v == 0 {
        '0'
    } else if v == 1 {
        '1'
    } else if v == 2 {
        '2'
    } else if v == 3 {
        '3'
    } else if v == 4 {
        '4'
    } else if v == 5 {
        '5'
    } else if v == 6 {
        '6'
    } else if v == 7 {
        '7'
    } else if v == 8 {
        '8'
    } else if v == 9 {
        '9'
    } else if v == 10 {
        'a'
    } else if v == 11 {
        'b'
    } else if v == 12 {
        'c'
    } else if v == 13 {
        'd'
    } else if v == 14 {
        'e'
    } else {
        'f'
    }
}

/// Emit one serialized string: quote, escaped characters, quote.
fn emit_string(out: &mut Vec<char>, s: &str)
    ensures
        final(out)@ == old(out)@ + spec_ser_string(s@),
{
    out.push('"');
    let n = s.unicode_len();
    let mut i: usize = 0;
    while i < n
        invariant
            n == s@.len(),
            i <= n,
            out@ =~= old(out)@ + seq!['"'] + spec_escape(s@.take(i as int)),
        decreases n - i,
    {
        let c = s.get_char(i);
        if c == '"' {
            out.push('\\');
            out.push('"');
        } else if c == '\\' {
            out.push('\\');
            out.push('\\');
        } else if (c as u32) < 32 {
            out.push('\\');
            out.push('u');
            out.push('0');
            out.push('0');
            out.push(hex_digit((c as u32) / 16));
            out.push(hex_digit((c as u32) % 16));
        } else {
            out.push(c);
        }
        proof {
            lemma_escape_snoc(s@, i as int);
            assert(out@ =~= old(out)@ + seq!['"'] + spec_escape(s@.take(i + 1)));
        }
        i += 1;
    }
    out.push('"');
    proof {
        assert(s@.take(n as int) =~= s@);
        assert(out@ =~= old(out)@ + spec_ser_string(s@));
    }
}

/// The model of an optional string field.
pub open spec fn opt_view(o: Option<String>) -> Option<Seq<char>> {
    match o {
        Some(s) => Some(s@),
        None => None,
    }
}

/// The model of an optional-field slot: absent, or present with a string or
/// an explicit `null`.
pub open spec fn opt_opt_view(o: Option<Option<String>>) -> Option<Option<Seq<char>>> {
    match o {
        Some(x) => Some(opt_view(x)),
        None => None,
    }
}

/// The model of an optional parsed link list.
pub open spec fn links_opt_view(o: Option<Vec<LinkItem>>) -> Option<Seq<LinkV>> {
    match o {
        Some(ls) => Some(ls@.map_values(|l: LinkItem| l@)),
        None => None,
    }
}

/// Emit an optional string: the string, or the literal `null`.
fn emit_opt(out: &mut Vec<char>, o: &Option<String>)
    ensures
        final(out)@ == old(out)@ + spec_ser_opt(opt_view(*o)),
{
    match o {
        Some(s) => emit_string(out, s.as_str()),
        None => emit_lit(out, "null"),
    }
}

/// Emit one link in canonical form.
fn emit_link(out: &mut Vec<char>, l: &LinkItem)
    ensures
        final(out)@ == old(out)@ + spec_ser_link(l@),
{
    emit_lit(out, "{\n      ");
    emit_lit(out, "\"name\"");
    emit_lit(out, ": ");
    emit_string(out, l.name.as_str());
    emit_lit(out, ",\n      ");
    emit_lit(out, "\"url\"");
    emit_lit(out, ": ");
    emit_string(out, l.url.as_str());
    emit_lit(out, ",\n      ");
    emit_lit(out, "\"altName\"");
    emit_lit(out, ": ");
    emit_opt(out, &l.alt_name);
    emit_lit(out, ",\n      ");
    emit_lit(out, "\"icon\"");
    emit_lit(out, ": ");
    emit_opt(out, &l.icon);
    emit_lit(out, "\n    }");
    proof {
        assert(out@ =~= old(out)@ + spec_ser_link(l@));
    }
}

/// Adding one more link to the tail of the array extends its serialization.
proof fn lemma_more_links_snoc(ls: Seq<LinkV>, l: LinkV)
    ensures
        spec_ser_more_links(ls.push(l)) == spec_ser_more_links(ls) + ",\n    "@ + spec_ser_link(
            l,
        ),
    decreases ls.len(),
{
    assert(ls.push(l).len() == ls.len() + 1);
    assert(spec_ser_more_links(ls.push(l)) == ",\n    "@ + spec_ser_link(ls.push(l)[0])
        + spec_ser_more_links(ls.push(l).drop_first()));
    if ls.len() == 0 {
        assert(ls.push(l).drop_first() =~= Seq::<LinkV>::empty());
        assert(ls.push(l)[0] == l);
        assert(spec_ser_more_links(Seq::<LinkV>::empty()) == Seq::<char>::empty());
        assert(spec_ser_more_links(ls) == Seq::<char>::empty());
        assert(spec_ser_more_links(ls.push(l)) =~= spec_ser_more_links(ls) + ",\n    "@
            + spec_ser_link(l));
    } else {
        assert(ls.push(l).drop_first() =~= ls.drop_first().push(l));
        assert(ls.push(l)[0] == ls[0]);
        lemma_more_links_snoc(ls.drop_first(), l);
        assert(spec_ser_more_links(ls) == ",\n    "@ + spec_ser_link(ls[0])
            + spec_ser_more_links(ls.drop_first()));
        assert(spec_ser_more_links(ls.push(l)) =~= spec_ser_more_links(ls) + ",\n    "@
            + spec_ser_link(l));
    }
}

/// Serialize a document into its canonical text. Serialization is total:
/// every document has a canonical form.
pub fn serialize_config(cfg: &Config) -> (r: String)
    ensures
        r@ == spec_ser_config(cfg@),
{
    let mut out: Vec<char> = Vec::new();
    emit_lit(&mut out, "{\n  ");
    emit_lit(&mut out, "\"title\"");
    emit_lit(&mut out, ": ");
    emit_string(&mut out, cfg.title.as_str());
    emit_lit(&mut out, ",\n  ");
    emit_lit(&mut out, "\"links\"");
    emit_lit(&mut out, ": ");
    let ghost mid = out@;
    let ghost ls = cfg@.links;
    if cfg.links.len() == 0 {
        emit_lit(&mut out, "[]");
        proof {
            assert(out@ =~= mid + spec_ser_links(ls));
        }
    } else {
        emit_lit(&mut out, "[\n    ");
        emit_link(&mut out, &cfg.links[0]);
        let mut i: usize = 1;
        while i < cfg.links.len()
            invariant
                1 <= i <= cfg.links.len(),
                ls == cfg@.links,
                ls.len() == cfg.links.len(),
                forall|j: int| 0 <= j < ls.len() ==> ls[j] == cfg.links@[j]@,
                out@ =~= mid + "[\n    "@ + spec_ser_link(ls[0]) + spec_ser_more_links(
                    ls.subrange(1, i as int),
                ),
            decreases cfg.links.len() - i,
        {
            emit_lit(&mut out, ",\n    ");
            emit_link(&mut out, &cfg.links[i]);
            proof {
                lemma_more_links_snoc(ls.subrange(1, i as int), ls[i as int]);
                assert(ls.subrange(1, i as int).push(ls[i as int]) =~= ls.subrange(1, i + 1));
                assert(out@ =~= mid + "[\n    "@ + spec_ser_link(ls[0]) + spec_ser_more_links(
                    ls.subrange(1, i + 1),
                ));
            }
            i += 1;
        }
        emit_lit(&mut out, "\n  ]");
        proof {
            assert(ls.subrange(1, ls.len() as int) =~= ls.drop_first());
            assert(out@ =~= mid + spec_ser_links(ls));
        }
    }
    emit_lit(&mut out, "\n}\n");
    proof {
        assert(out@ =~= spec_ser_config(cfg@));
    }
    chars_to_string(&out)
}

/// The value of a hexadecimal digit character, upper or lower case.
pub open spec fn spec_hex_val(c: char) -> Option<u32> {
    if c == '0' {
        Some(0u32)
    } else if c == '1' {
        Some(1u32)
    } else if c == '2' {
        Some(2u32)
    } else if c == '3' {
        Some(3u32)
    } else if c == '4' {
        Some(4u32)
    } else if c == '5' {
        Some(5u32)
    } else if c == '6' {
        Some(6u32)
    } else if c == '7' {
        Some(7u32)
    } else if c == '8' {
        Some(8u32)
    } else if c == '9' {
        Some(9u32)
    } else if c == 'a' || c == 'A' {
        Some(10u32)
    } else if c == 'b' || c == 'B' {
        Some(11u32)
    } else if c == 'c' || c == 'C' {
        Some(12u32)
    } else if c == 'd' || c == 'D' {
        Some(13u32)
    } else if c == 'e' || c == 'E' {
        Some(14u32)
    } else if c == 'f' || c == 'F' {
        Some(15u32)
    } else {
        None
    }
}

/// The first position at or after `i` that holds no whitespace.
pub open spec fn spec_skip_ws(s: Seq<char>, i: int) -> int
    decreases s.len() - i,
{
    if 0 <= i < s.len() && is_ws_char(s[i]) {
        spec_skip_ws(s, i + 1)
    } else {
        i
    }
}

/// The position after a literal, when the text carries it at `i`.
pub open spec fn spec_expect_lit(s: Seq<char>, i: int, lit: Seq<char>) -> Option<int>
    decreases lit.len(),
{
    if lit.len() == 0 {
        Some(i)
    } else if 0 <= i < s.len() && s[i] == lit[0] {
        spec_expect_lit(s, i + 1, lit.drop_first())
    } else {
        None
    }
}

/// The code point of four hexadecimal digits at `i`.
pub open spec fn spec_hex4(s: Seq<char>, i: int) -> Option<u32> {
    if 0 <= i && i + 4 <= s.len() {
        match (spec_hex_val(s[i]), spec_hex_val(s[i + 1]), spec_hex_val(s[i + 2]), spec_hex_val(
            s[i + 3],
        )) {
            (Some(a), Some(b), Some(c), Some(d)) => Some(
                ((a as int) * 4096 + (b as int) * 256 + (c as int) * 16 + (d as int)) as u32,
            ),
            _ => None,
        }
    } else {
        None
    }
}

/// What a named escape stands for.
pub open spec fn spec_unescape_char(e: char) -> Option<char> {
    if e == '"' {
        Some('"')
    } else if e == '\\' {
        Some('\\')
    } else if e == '/' {
        Some('/')
    } else if e == 'b' {
        Some('\u{8}')
    } else if e == 'f' {
        Some('\u{c}')
    } else if e == 'n' {
        Some('\n')
    } else if e == 'r' {
        Some('\r')
    } else if e == 't' {
        Some('\t')
    } else {
        None
    }
}

/// A high-surrogate code unit: the first half of an escaped pair.
pub open spec fn is_high_surrogate(v: u32) -> bool {
    0xD800 <= v <= 0xDBFF
}

/// A low-surrogate code unit: the second half of an escaped pair.
pub open spec fn is_low_surrogate(v: u32) -> bool {
    0xDC00 <= v <= 0xDFFF
}

/// The code point an escaped surrogate pair stands for.
pub open spec fn combine_surrogates(hi: u32, lo: u32) -> u32 {
    ((hi - 0xD800) * 0x400 + (lo - 0xDC00) + 0x10000) as u32
}

/// The characters of a string body starting at `i` (just after the opening
/// quote), and the position after the closing quote.
pub open spec fn spec_parse_str_body(s: Seq<char>, i: int) -> Option<(Seq<char>, int)>
    decreases s.len() - i,
{
    if !(0 <= i < s.len()) {
        None
    } else {
        let c = s[i];
        if c == '"' {
            Some((Seq::empty(), i + 1))
        } else if c == '\\' {
            if i + 1 < s.len() {
                let e = s[i + 1];
                if e == 'u' {
                    match spec_hex4(s, i + 2) {
                        Some(v) => if vstd::utf8::is_scalar(v) {
                            match spec_parse_str_body(s, i + 6) {
                                Some((tail, j)) => Some((seq![v as char] + tail, j)),
                                None => None,
                            }
                        } else if is_high_surrogate(v) {
                            if i + 7 < s.len() && s[i + 6] == '\\' && s[i + 7] == 'u' {
                                match spec_hex4(s, i + 8) {
                                    Some(w) => if is_low_surrogate(w) {
                                        match spec_parse_str_body(s, i + 12) {
                                            Some((tail, j)) => Some(
                                                (seq![combine_surrogates(v, w) as char] + tail, j),
                                            ),
                                            None => None,
                                        }
                                    } else {
                                        None
                                    },
                                    None => None,
                                }
                            } else {
                                None
                            }
                        } else {
                            None
                        },
                        None => None,
                    }
                } else {
                    match spec_unescape_char(e) {
                        Some(ch) => match spec_parse_str_body(s, i + 2) {
                            Some((tail, j)) => Some((seq![ch] + tail, j)),
                            None => None,
                        },
                        None => None,
                    }
                }
            } else {
                None
            }
        } else if is_ctrl_char(c) {
            None
        } else {
            match spec_parse_str_body(s, i + 1) {
                Some((tail, j)) => Some((seq![c] + tail, j)),
                None => None,
            }
        }
    }
}

/// A quoted string at `i`: its characters and the position after it.
pub open spec fn spec_parse_string(s: Seq<char>, i: int) -> Option<(Seq<char>, int)> {
    if 0 <= i < s.len() && s[i] == '"' {
        spec_parse_str_body(s, i + 1)
    } else {
        None
    }
}

/// A string or the literal `null` at `i`.
pub open spec fn spec_parse_opt_val(s: Seq<char>, i: int) -> Option<(Option<Seq<char>>, int)> {
    if 0 <= i < s.len() && s[i] == '"' {
        match spec_parse_string(s, i) {
            Some((v, j)) => Some((Some(v), j)),
            None => None,
        }
    } else {
        match spec_expect_lit(s, i, "null"@) {
            Some(j) => Some((None, j)),
            None => None,
        }
    }
}

/// A quoted key at `i`, a colon, then a string value.
pub open spec fn spec_parse_field_string(s: Seq<char>, i: int, key: Seq<char>) -> Option<
    (Seq<char>, int),
> {
    match spec_expect_lit(s, i, key) {
        Some(j) => {
            let k = spec_skip_ws(s, j);
            if 0 <= k < s.len() && s[k] == ':' {
                spec_parse_string(s, spec_skip_ws(s, k + 1))
            } else {
                None
            }
        },
        None => None,
    }
}

/// A quoted key at `i`, a colon, then a string or `null`.
pub open spec fn spec_parse_field_opt(s: Seq<char>, i: int, key: Seq<char>) -> Option<
    (Option<Seq<char>>, int),
> {
    match spec_expect_lit(s, i, key) {
        Some(j) => {
            let k = spec_skip_ws(s, j);
            if 0 <= k < s.len() && s[k] == ':' {
                spec_parse_opt_val(s, spec_skip_ws(s, k + 1))
            } else {
                None
            }
        },
        None => None,
    }
}

/// An optional-field slot resolved: absent and `null` both mean no value.
pub open spec fn flatten_opt(o: Option<Option<Seq<char>>>) -> Option<Seq<char>> {
    match o {
        Some(x) => x,
        None => None,
    }
}

/// One member of a link object at `i`: whichever schema key stands there,
/// read into its slot. A repeated key, or one outside the schema, is
/// rejected.
pub open spec fn spec_parse_link_member(
    s: Seq<char>,
    i: int,
    name: Option<Seq<char>>,
    url: Option<Seq<char>>,
    alt: Option<Option<Seq<char>>>,
    icon: Option<Option<Seq<char>>>,
) -> Option<
    (
        Option<Seq<char>>,
        Option<Seq<char>>,
        Option<Option<Seq<char>>>,
        Option<Option<Seq<char>>>,
        int,
    ),
> {
    if spec_expect_lit(s, i, "\"name\""@) is Some {
        if name is Some {
            None
        } else {
            match spec_parse_field_string(s, i, "\"name\""@) {
                Some((v, j)) => Some((Some(v), url, alt, icon, j)),
                None => None,
            }
        }
    } else if spec_expect_lit(s, i, "\"url\""@) is Some {
        if url is Some {
            None
        } else {
            match spec_parse_field_string(s, i, "\"url\""@) {
                Some((v, j)) => Some((name, Some(v), alt, icon, j)),
                None => None,
            }
        }
    } else if spec_expect_lit(s, i, "\"altName\""@) is Some {
        if alt is Some {
            None
        } else {
            match spec_parse_field_opt(s, i, "\"altName\""@) {
                Some((v, j)) => Some((name, url, Some(v), icon, j)),
                None => None,
            }
        }
    } else if spec_expect_lit(s, i, "\"icon\""@) is Some {
        if icon is Some {
            None
        } else {
            match spec_parse_field_opt(s, i, "\"icon\""@) {
                Some((v, j)) => Some((name, url, alt, Some(v), j)),
                None => None,
            }
        }
    } else {
        None
    }
}

/// A finished link object: `name` and `url` are required, the optional
/// fields fall back to absent.
pub open spec fn spec_finish_link(
    name: Option<Seq<char>>,
    url: Option<Seq<char>>,
    alt: Option<Option<Seq<char>>>,
    icon: Option<Option<Seq<char>>>,
    j: int,
) -> Option<(LinkV, int)> {
    match name {
        Some(n) => match url {
            Some(u) => Some(
                (LinkV { name: n, url: u, alt_name: flatten_opt(alt), icon: flatten_opt(icon) }, j),
            ),
            None => None,
        },
        None => None,
    }
}

/// The members of a link object, from a key at `i` to the closing brace.
pub open spec fn spec_parse_link_members(
    s: Seq<char>,
    i: int,
    name: Option<Seq<char>>,
    url: Option<Seq<char>>,
    alt: Option<Option<Seq<char>>>,
    icon: Option<Option<Seq<char>>>,
) -> Option<(LinkV, int)>
    decreases s.len() - i,
{
    if !(0 <= i <= s.len()) {
        None
    } else {
        match spec_parse_link_member(s, i, name, url, alt, icon) {
            Some((name2, url2, alt2, icon2, j)) => {
                let k = spec_skip_ws(s, j);
                if !(0 <= k < s.len()) {
                    None
                } else if s[k] == '}' {
                    spec_finish_link(name2, url2, alt2, icon2, k + 1)
                } else if s[k] == ',' {
                    let m = spec_skip_ws(s, k + 1);
                    if m <= i || m > s.len() {
                        None
                    } else {
                        spec_parse_link_members(s, m, name2, url2, alt2, icon2)
                    }
                } else {
                    None
                }
            },
            None => None,
        }
    }
}

/// One link object at `i`: the four schema fields in any order, each at most
/// once, `name` and `url` required.
pub open spec fn spec_parse_link(s: Seq<char>, i: int) -> Option<(LinkV, int)> {
    if !(0 <= i < s.len() && s[i] == '{') {
        None
    } else {
        spec_parse_link_members(s, spec_skip_ws(s, i + 1), None, None, None, None)
    }
}

/// The links after the first: separators and links until the closing bracket.
pub open spec fn spec_parse_links_rest(s: Seq<char>, i: int) -> Option<(Seq<LinkV>, int)>
    decreases s.len() - i,
{
    if !(0 <= i <= s.len()) {
        None
    } else {
        let k = spec_skip_ws(s, i);
        if !(0 <= k < s.len()) {
            None
        } else if s[k] == ']' {
            Some((Seq::empty(), k + 1))
        } else if s[k] == ',' {
            match spec_parse_link(s, spec_skip_ws(s, k + 1)) {
                Some((l, j)) => if j <= i || j > s.len() {
                    None
                } else {
                    match spec_parse_links_rest(s, j) {
                        Some((rest, j2)) => Some((seq![l] + rest, j2)),
                        None => None,
                    }
                },
                None => None,
            }
        } else {
            None
        }
    }
}

/// A link array at `i`: its links in order and the position after it.
pub open spec fn spec_parse_links(s: Seq<char>, i: int) -> Option<(Seq<LinkV>, int)> {
    if !(0 <= i < s.len() && s[i] == '[') {
        None
    } else {
        let k = spec_skip_ws(s, i + 1);
        if 0 <= k < s.len() && s[k] == ']' {
            Some((Seq::empty(), k + 1))
        } else {
            match spec_parse_link(s, k) {
                Some((l, j)) => if j <= i || j > s.len() {
                    None
                } else {
                    match spec_parse_links_rest(s, j) {
                        Some((rest, j2)) => Some((seq![l] + rest, j2)),
                        None => None,
                    }
                },
                None => None,
            }
        }
    }
}

/// The `links` value behind its key at `i`: a colon, then the array.
pub open spec fn spec_parse_field_links(s: Seq<char>, i: int) -> Option<(Seq<LinkV>, int)> {
    match spec_expect_lit(s, i, "\"links\""@) {
        Some(j) => {
            let k = spec_skip_ws(s, j);
            if 0 <= k < s.len() && s[k] == ':' {
                spec_parse_links(s, spec_skip_ws(s, k + 1))
            } else {
                None
            }
        },
        None => None,
    }
}

/// One member of the configuration object at `i`: `title` or `links`, each
/// at most once; a key outside the schema is rejected.
pub open spec fn spec_parse_config_member(
    s: Seq<char>,
    i: int,
    title: Option<Seq<char>>,
    links: Option<Seq<LinkV>>,
) -> Option<(Option<Seq<char>>, Option<Seq<LinkV>>, int)> {
    if spec_expect_lit(s, i, "\"title\""@) is Some {
        if title is Some {
            None
        } else {
            match spec_parse_field_string(s, i, "\"title\""@) {
                Some((t, j)) => Some((Some(t), links, j)),
                None => None,
            }
        }
    } else if spec_expect_lit(s, i, "\"links\""@) is Some {
        if links is Some {
            None
        } else {
            match spec_parse_field_links(s, i) {
                Some((ls, j)) => Some((title, Some(ls), j)),
                None => None,
            }
        }
    } else {
        None
    }
}

/// A finished configuration object: `links` required, a missing `title`
/// defaulted.
pub open spec fn spec_finish_config(
    title: Option<Seq<char>>,
    links: Option<Seq<LinkV>>,
    j: int,
) -> Option<(ConfigV, int)> {
    match links {
        Some(ls) => Some(
            (
                ConfigV {
                    title: match title {
                        Some(t) => t,
                        None => spec_default_title(),
                    },
                    links: ls,
                },
                j,
            ),
        ),
        None => None,
    }
}

/// The members of the configuration object, from a key at `i` to the
/// closing brace.
pub open spec fn spec_parse_config_members(
    s: Seq<char>,
    i: int,
    title: Option<Seq<char>>,
    links: Option<Seq<LinkV>>,
) -> Option<(ConfigV, int)>
    decreases s.len() - i,
{
    if !(0 <= i <= s.len()) {
        None
    } else {
        match spec_parse_config_member(s, i, title, links) {
            Some((title2, links2, j)) => {
                let k = spec_skip_ws(s, j);
                if !(0 <= k < s.len()) {
                    None
                } else if s[k] == '}' {
                    spec_finish_config(title2, links2, k + 1)
                } else if s[k] == ',' {
                    let m = spec_skip_ws(s, k + 1);
                    if m <= i || m > s.len() {
                        None
                    } else {
                        spec_parse_config_members(s, m, title2, links2)
                    }
                } else {
                    None
                }
            },
            None => None,
        }
    }
}

/// The configuration object at `i`: `title` and `links` in either order,
/// each at most once, `links` required, a missing `title` defaulted.
pub open spec fn spec_parse_config_obj(s: Seq<char>, i: int) -> Option<(ConfigV, int)> {
    if !(0 <= i < s.len() && s[i] == '{') {
        None
    } else {
        spec_parse_config_members(s, spec_skip_ws(s, i + 1), None, None)
    }
}

/// A whole configuration text: one object, surrounded only by whitespace.
pub open spec fn spec_parse_config_text(s: Seq<char>) -> Option<ConfigV> {
    match spec_parse_config_obj(s, spec_skip_ws(s, 0)) {
        Some((d, j)) => if spec_skip_ws(s, j) == s.len() {
            Some(d)
        } else {
            None
        },
        None => None,
    }
}

/// Whether a character is whitespace between tokens.
fn is_ws(c: char) -> (r: bool)
    ensures
        r == is_ws_char(c),
{
    c == ' ' || c == '\n' || c == '\t' || c == '\r'
}

/// The first position at or after `i` that holds no whitespace.
fn skip_ws(v: &Vec<char>, i: usize) -> (r: usize)
    requires
        i <= v@.len(),
    ensures
        r as int == spec_skip_ws(v@, i as int),
        i <= r <= v@.len(),
{
    let mut k = i;
    while k < v.len() && is_ws(v[k])
        invariant
            i <= k <= v@.len(),
            spec_skip_ws(v@, i as int) == spec_skip_ws(v@, k as int),
        decreases v@.len() - k,
    {
        proof {
            assert(spec_skip_ws(v@, k as int) == spec_skip_ws(v@, k + 1));
        }
        k += 1;
    }
    k
}

/// The position after a literal, when the text carries it at `i`.
fn expect_lit(v: &Vec<char>, i: usize, lit: &str) -> (r: Option<usize>)
    requires
        i <= v@.len(),
    ensures
        match r {
            Some(j) => spec_expect_lit(v@, i as int, lit@) == Some(j as int) && i <= j <= v@.len()
                && j as int == i + lit@.len(),
            None => spec_expect_lit(v@, i as int, lit@) is None,
        },
{
    let m = lit.unicode_len();
    let mut k: usize = 0;
    proof {
        assert(lit@.skip(0) =~= lit@);
    }
    while k < m
        invariant
            m == lit@.len(),
            k <= m,
            i + k <= v@.len(),
            spec_expect_lit(v@, i as int, lit@) == spec_expect_lit(
                v@,
                i + k,
                lit@.skip(k as int),
            ),
        decreases m - k,
    {
        proof {
            assert(lit@.skip(k as int).len() == m - k);
            assert(lit@.skip(k as int)[0] == lit@[k as int]);
            assert(lit@.skip(k as int).drop_first() =~= lit@.skip(k + 1));
        }
        if v.len() - i == k {
            return None;
        }
        let c = v[i + k];
        let lc = lit.get_char(k);
        if c != lc {
            return None;
        }
        k += 1;
    }
    let n = v.len();
    proof {
        assert(lit@.skip(m as int).len() == 0);
        assert(i + m <= n);
    }
    Some(i + m)
}

/// The value of a hexadecimal digit character.
fn hex_val(c: char) -> (r: Option<u32>)
    ensures
        r == spec_hex_val(c),
        r is Some ==> r.unwrap() < 16,
{
    if c == '0' {
        Some(0u32)
    } else if c == '1' {
        Some(1u32)
    } else if c == '2' {
        Some(2u32)
    } else if c == '3' {
        Some(3u32)
    } else if c == '4' {
        Some(4u32)
    } else if c == '5' {
        Some(5u32)
    } else if c == '6' {
        Some(6u32)
    } else if c == '7' {
        Some(7u32)
    } else if c == '8' {
        Some(8u32)
    } else if c == '9' {
        Some(9u32)
    } else if c == 'a' || c == 'A' {
        Some(10u32)
    } else if c == 'b' || c == 'B' {
        Some(11u32)
    } else if c == 'c' || c == 'C' {
        Some(12u32)
    } else if c == 'd' || c == 'D' {
        Some(13u32)
    } else if c == 'e' || c == 'E' {
        Some(14u32)
    } else if c == 'f' || c == 'F' {
        Some(15u32)
    } else {
        None
    }
}

/// What a named escape stands for.
fn unescape_char(e: char) -> (r: Option<char>)
    ensures
        r == spec_unescape_char(e),
{
    if e == '"' {
        Some('"')
    } else if e == '\\' {
        Some('\\')
    } else if e == '/' {
        Some('/')
    } else if e == 'b' {
        Some('\u{8}')
    } else if e == 'f' {
        Some('\u{c}')
    } else if e == 'n' {
        Some('\n')
    } else if e == 'r' {
        Some('\r')
    } else if e == 't' {
        Some('\t')
    } else {
        None
    }
}

/// Relies on char::from_u32: `Some` exactly for Unicode scalar values, and
/// the returned character carries exactly the given code point.
#[verifier::external_body]
fn char_from_code(u: u32) -> (r: Option<char>)
    ensures
        r == (if vstd::utf8::is_scalar(u) {
            Some(u as char)
        } else {
            None::<char>
        }),
{
    char::from_u32(u)
}

/// A string body starting at `i`, just after the opening quote.
fn parse_str_body(v: &Vec<char>, i: usize) -> (r: Option<(Vec<char>, usize)>)
    requires
        i <= v@.len(),
    ensures
        match r {
            Some(p) => spec_parse_str_body(v@, i as int) == Some((p.0@, p.1 as int)) && i < p.1
                <= v@.len(),
            None => spec_parse_str_body(v@, i as int) is None,
        },
{
    let mut acc: Vec<char> = Vec::new();
    let mut k = i;
    proof {
        match spec_parse_str_body(v@, i as int) {
            Some((t, j)) => {
                assert(Seq::<char>::empty() + t =~= t);
            },
            None => {},
        }
    }
    loop
        invariant
            i <= k <= v@.len(),
            spec_parse_str_body(v@, i as int) == (match spec_parse_str_body(v@, k as int) {
                Some((t, j)) => Some((acc@ + t, j)),
                None => None::<(Seq<char>, int)>,
            }),
        decreases v@.len() - k,
    {
        if k == v.len() {
            return None;
        }
        let c = v[k];
        if c == '"' {
            proof {
                assert(acc@ + Seq::<char>::empty() =~= acc@);
            }
            return Some((acc, k + 1));
        } else if c == '\\' {
            if v.len() - k < 2 {
                return None;
            }
            let e = v[k + 1];
            if e == 'u' {
                if v.len() - k < 6 {
                    proof {
                        assert(spec_hex4(v@, k + 2) is None);
                    }
                    return None;
                }
                let a = hex_val(v[k + 2]);
                let b = hex_val(v[k + 3]);
                let c2 = hex_val(v[k + 4]);
                let d = hex_val(v[k + 5]);
                if a.is_none() || b.is_none() || c2.is_none() || d.is_none() {
                    proof {
                        assert(spec_hex4(v@, k + 2) is None);
                    }
                    return None;
                }
                let val: u32 = a.unwrap() * 4096 + b.unwrap() * 256 + c2.unwrap() * 16
                    + d.unwrap();
                proof {
                    assert(spec_hex4(v@, k + 2) == Some(val));
                }
                match char_from_code(val) {
                    Some(ch) => {
                        acc.push(ch);
                        proof {
                            match spec_parse_str_body(v@, k + 6) {
                                Some((t, j)) => {
                                    assert((acc@.drop_last() + seq![ch]) + t =~= acc@.drop_last()
                                        + (seq![ch] + t));
                                    assert(acc@ =~= acc@.drop_last() + seq![ch]);
                                },
                                None => {},
                            }
                        }
                        k += 6;
                    },
                    None => {
                        // the value is a surrogate: a high one must pair with
                        // a following low one; a lone low one is rejected
                        proof {
                            assert(val <= 0xFFFF);
                            assert(0xD800 <= val && val <= 0xDFFF);
                        }
                        if val >= 0xDC00 {
                            return None;
                        }
                        if v.len() - k < 8 {
                            return None;
                        }
                        if !(v[k + 6] == '\\' && v[k + 7] == 'u') {
                            return None;
                        }
                        if v.len() - k < 12 {
                            proof {
                                assert(spec_hex4(v@, k + 8) is None);
                            }
                            return None;
                        }
                        let a2 = hex_val(v[k + 8]);
                        let b2 = hex_val(v[k + 9]);
                        let c3 = hex_val(v[k + 10]);
                        let d2 = hex_val(v[k + 11]);
                        if a2.is_none() || b2.is_none() || c3.is_none() || d2.is_none() {
                            proof {
                                assert(spec_hex4(v@, k + 8) is None);
                            }
                            return None;
                        }
                        let lo: u32 = a2.unwrap() * 4096 + b2.unwrap() * 256 + c3.unwrap() * 16
                            + d2.unwrap();
                        proof {
                            assert(spec_hex4(v@, k + 8) == Some(lo));
                        }
                        if !(0xDC00 <= lo && lo <= 0xDFFF) {
                            return None;
                        }
                        let comb: u32 = (val - 0xD800) * 0x400 + (lo - 0xDC00) + 0x10000;
                        proof {
                            assert(comb == combine_surrogates(val, lo));
                            assert(vstd::utf8::is_scalar(comb));
                        }
                        let ch = char_from_code(comb).unwrap();
                        acc.push(ch);
                        proof {
                            match spec_parse_str_body(v@, k + 12) {
                                Some((t, j)) => {
                                    assert((acc@.drop_last() + seq![ch]) + t =~= acc@.drop_last()
                                        + (seq![ch] + t));
                                    assert(acc@ =~= acc@.drop_last() + seq![ch]);
                                },
                                None => {},
                            }
                        }
                        k += 12;
                    },
                }
            } else {
                match unescape_char(e) {
                    Some(ch) => {
                        acc.push(ch);
                        proof {
                            match spec_parse_str_body(v@, k + 2) {
                                Some((t, j)) => {
                                    assert((acc@.drop_last() + seq![ch]) + t =~= acc@.drop_last()
                                        + (seq![ch] + t));
                                    assert(acc@ =~= acc@.drop_last() + seq![ch]);
                                },
                                None => {},
                            }
                        }
                        k += 2;
                    },
                    None => {
                        return None;
                    },
                }
            }
        } else if (c as u32) < 32 {
            return None;
        } else {
            acc.push(c);
            proof {
                match spec_parse_str_body(v@, k + 1) {
                    Some((t, j)) => {
                        assert((acc@.drop_last() + seq![c]) + t =~= acc@.drop_last() + (seq![c]
                            + t));
                        assert(acc@ =~= acc@.drop_last() + seq![c]);
                    },
                    None => {},
                }
            }
            k += 1;
        }
    }
}

/// A quoted string at `i`.
fn parse_string(v: &Vec<char>, i: usize) -> (r: Option<(Vec<char>, usize)>)
    requires
        i <= v@.len(),
    ensures
        match r {
            Some(p) => spec_parse_string(v@, i as int) == Some((p.0@, p.1 as int)) && i < p.1
                <= v@.len(),
            None => spec_parse_string(v@, i as int) is None,
        },
{
    if i < v.len() && v[i] == '"' {
        parse_str_body(v, i + 1)
    } else {
        None
    }
}

/// A string or the literal `null` at `i`.
fn parse_opt_val(v: &Vec<char>, i: usize) -> (r: Option<(Option<Vec<char>>, usize)>)
    requires
        i <= v@.len(),
    ensures
        match r {
            Some(p) => spec_parse_opt_val(v@, i as int) == Some(
                (
                    match p.0 {
                        Some(ref w) => Some(w@),
                        None => None,
                    },
                    p.1 as int,
                ),
            ) && i < p.1 <= v@.len(),
            None => spec_parse_opt_val(v@, i as int) is None,
        },
{
    if i < v.len() && v[i] == '"' {
        match parse_string(v, i) {
            Some((w, j)) => Some((Some(w), j)),
            None => None,
        }
    } else {
        proof {
            reveal_strlit("null");
        }
        match expect_lit(v, i, "null") {
            Some(j) => Some((None, j)),
            None => None,
        }
    }
}

/// A quoted key at `i`, a colon, then a string value.
fn parse_field_string(v: &Vec<char>, i: usize, key: &str) -> (r: Option<(Vec<char>, usize)>)
    requires
        i <= v@.len(),
    ensures
        match r {
            Some(p) => spec_parse_field_string(v@, i as int, key@) == Some((p.0@, p.1 as int))
                && i < p.1 <= v@.len(),
            None => spec_parse_field_string(v@, i as int, key@) is None,
        },
{
    match expect_lit(v, i, key) {
        Some(j) => {
            let k = skip_ws(v, j);
            if k < v.len() && v[k] == ':' {
                parse_string(v, skip_ws(v, k + 1))
            } else {
                None
            }
        },
        None => None,
    }
}

/// A quoted key at `i`, a colon, then a string or `null`.
fn parse_field_opt(v: &Vec<char>, i: usize, key: &str) -> (r: Option<(Option<Vec<char>>, usize)>)
    requires
        i <= v@.len(),
    ensures
        match r {
            Some(p) => spec_parse_field_opt(v@, i as int, key@) == Some(
                (
                    match p.0 {
                        Some(ref w) => Some(w@),
                        None => None,
                    },
                    p.1 as int,
                ),
            ) && i < p.1 <= v@.len(),
            None => spec_parse_field_opt(v@, i as int, key@) is None,
        },
{
    match expect_lit(v, i, key) {
        Some(j) => {
            let k = skip_ws(v, j);
            if k < v.len() && v[k] == ':' {
                parse_opt_val(v, skip_ws(v, k + 1))
            } else {
                None
            }
        },
        None => None,
    }
}

/// One member of a link object at `i`, read into its slot.
fn parse_link_member(
    v: &Vec<char>,
    i: usize,
    name: Option<String>,
    url: Option<String>,
    alt: Option<Option<String>>,
    icon: Option<Option<String>>,
) -> (r: Option<(Option<String>, Option<String>, Option<Option<String>>, Option<Option<String>>, usize)>)
    requires
        i <= v@.len(),
    ensures
        match r {
            Some(p) => spec_parse_link_member(
                v@,
                i as int,
                opt_view(name),
                opt_view(url),
                opt_opt_view(alt),
                opt_opt_view(icon),
            ) == Some(
                (opt_view(p.0), opt_view(p.1), opt_opt_view(p.2), opt_opt_view(p.3), p.4 as int),
            ) && i < p.4 <= v@.len(),
            None => spec_parse_link_member(
                v@,
                i as int,
                opt_view(name),
                opt_view(url),
                opt_opt_view(alt),
                opt_opt_view(icon),
            ) is None,
        },
{
    if expect_lit(v, i, "\"name\"").is_some() {
        if name.is_some() {
            return None;
        }
        match parse_field_string(v, i, "\"name\"") {
            Some((w, j)) => Some((Some(chars_to_string(&w)), url, alt, icon, j)),
            None => None,
        }
    } else if expect_lit(v, i, "\"url\"").is_some() {
        if url.is_some() {
            return None;
        }
        match parse_field_string(v, i, "\"url\"") {
            Some((w, j)) => Some((name, Some(chars_to_string(&w)), alt, icon, j)),
            None => None,
        }
    } else if expect_lit(v, i, "\"altName\"").is_some() {
        if alt.is_some() {
            return None;
        }
        match parse_field_opt(v, i, "\"altName\"") {
            Some((w, j)) => {
                let ws = match w {
                    Some(x) => Some(chars_to_string(&x)),
                    None => None,
                };
                Some((name, url, Some(ws), icon, j))
            },
            None => None,
        }
    } else if expect_lit(v, i, "\"icon\"").is_some() {
        if icon.is_some() {
            return None;
        }
        match parse_field_opt(v, i, "\"icon\"") {
            Some((w, j)) => {
                let ws = match w {
                    Some(x) => Some(chars_to_string(&x)),
                    None => None,
                };
                Some((name, url, alt, Some(ws), j))
            },
            None => None,
        }
    } else {
        None
    }
}

/// The members of a link object, from a key at `i` to the closing brace.
fn parse_link_members(
    v: &Vec<char>,
    i: usize,
    name: Option<String>,
    url: Option<String>,
    alt: Option<Option<String>>,
    icon: Option<Option<String>>,
) -> (r: Option<(LinkItem, usize)>)
    requires
        i <= v@.len(),
    ensures
        match r {
            Some(p) => spec_parse_link_members(
                v@,
                i as int,
                opt_view(name),
                opt_view(url),
                opt_opt_view(alt),
                opt_opt_view(icon),
            ) == Some((p.0@, p.1 as int)) && i < p.1 <= v@.len(),
            None => spec_parse_link_members(
                v@,
                i as int,
                opt_view(name),
                opt_view(url),
                opt_opt_view(alt),
                opt_opt_view(icon),
            ) is None,
        },
    decreases v@.len() - i,
{
    match parse_link_member(v, i, name, url, alt, icon) {
        Some((name2, url2, alt2, icon2, j)) => {
            let k = skip_ws(v, j);
            if k == v.len() {
                None
            } else if v[k] == '}' {
                match name2 {
                    Some(n) => match url2 {
                        Some(u) => {
                            let alt_f = match alt2 {
                                Some(x) => x,
                                None => None,
                            };
                            let icon_f = match icon2 {
                                Some(x) => x,
                                None => None,
                            };
                            Some((LinkItem { name: n, url: u, alt_name: alt_f, icon: icon_f }, k + 1))
                        },
                        None => None,
                    },
                    None => None,
                }
            } else if v[k] == ',' {
                let m = skip_ws(v, k + 1);
                parse_link_members(v, m, name2, url2, alt2, icon2)
            } else {
                None
            }
        },
        None => None,
    }
}

/// One link object at `i`.
fn parse_link(v: &Vec<char>, i: usize) -> (r: Option<(LinkItem, usize)>)
    requires
        i <= v@.len(),
    ensures
        match r {
            Some(p) => spec_parse_link(v@, i as int) == Some((p.0@, p.1 as int)) && i < p.1
                <= v@.len(),
            None => spec_parse_link(v@, i as int) is None,
        },
{
    if !(i < v.len() && v[i] == '{') {
        return None;
    }
    parse_link_members(v, skip_ws(v, i + 1), None, None, None, None)
}

/// A link array at `i`.
fn parse_links(v: &Vec<char>, i: usize) -> (r: Option<(Vec<LinkItem>, usize)>)
    requires
        i <= v@.len(),
    ensures
        match r {
            Some(p) => spec_parse_links(v@, i as int) == Some(
                (p.0@.map_values(|l: LinkItem| l@), p.1 as int),
            ) && i < p.1 <= v@.len(),
            None => spec_parse_links(v@, i as int) is None,
        },
{
    if !(i < v.len() && v[i] == '[') {
        return None;
    }
    let k0 = skip_ws(v, i + 1);
    if k0 < v.len() && v[k0] == ']' {
        let out: Vec<LinkItem> = Vec::new();
        proof {
            assert(out@.map_values(|l: LinkItem| l@) =~= Seq::<LinkV>::empty());
        }
        return Some((out, k0 + 1));
    }
    match parse_link(v, k0) {
        None => None,
        Some((first, j0)) => {
            let mut out: Vec<LinkItem> = Vec::new();
            let ghost lv = first@;
            out.push(first);
            let mut cur = j0;
            proof {
                assert(out@.map_values(|l: LinkItem| l@) =~= seq![lv]);
                match spec_parse_links_rest(v@, j0 as int) {
                    Some((rest, j2)) => {
                        assert(seq![lv] + rest =~= out@.map_values(|l: LinkItem| l@) + rest);
                    },
                    None => {},
                }
            }
            loop
                invariant
                    i < cur <= v@.len(),
                    spec_parse_links(v@, i as int) == (match spec_parse_links_rest(
                        v@,
                        cur as int,
                    ) {
                        Some((rest, j2)) => Some(
                            (out@.map_values(|l: LinkItem| l@) + rest, j2),
                        ),
                        None => None::<(Seq<LinkV>, int)>,
                    }),
                decreases v@.len() - cur,
            {
                let k = skip_ws(v, cur);
                if k == v.len() {
                    return None;
                }
                if v[k] == ']' {
                    proof {
                        assert(out@.map_values(|l: LinkItem| l@) + Seq::<LinkV>::empty()
                            =~= out@.map_values(|l: LinkItem| l@));
                    }
                    return Some((out, k + 1));
                }
                if v[k] != ',' {
                    return None;
                }
                let m = skip_ws(v, k + 1);
                match parse_link(v, m) {
                    None => {
                        return None;
                    },
                    Some((l, j)) => {
                        let ghost prev = out@.map_values(|x: LinkItem| x@);
                        let ghost lv2 = l@;
                        out.push(l);
                        proof {
                            assert(out@.map_values(|x: LinkItem| x@) =~= prev + seq![lv2]);
                            match spec_parse_links_rest(v@, j as int) {
                                Some((rest, j2)) => {
                                    assert((prev + seq![lv2]) + rest =~= prev + (seq![lv2]
                                        + rest));
                                },
                                None => {},
                            }
                        }
                        cur = j;
                    },
                }
            }
        },
    }
}

/// The `links` value behind its key at `i`.
fn parse_field_links(v: &Vec<char>, i: usize) -> (r: Option<(Vec<LinkItem>, usize)>)
    requires
        i <= v@.len(),
    ensures
        match r {
            Some(p) => spec_parse_field_links(v@, i as int) == Some(
                (p.0@.map_values(|l: LinkItem| l@), p.1 as int),
            ) && i < p.1 <= v@.len(),
            None => spec_parse_field_links(v@, i as int) is None,
        },
{
    match expect_lit(v, i, "\"links\"") {
        Some(j) => {
            let k = skip_ws(v, j);
            if k < v.len() && v[k] == ':' {
                parse_links(v, skip_ws(v, k + 1))
            } else {
                None
            }
        },
        None => None,
    }
}

/// One member of the configuration object at `i`, read into its slot.
fn parse_config_member(
    v: &Vec<char>,
    i: usize,
    title: Option<String>,
    links: Option<Vec<LinkItem>>,
) -> (r: Option<(Option<String>, Option<Vec<LinkItem>>, usize)>)
    requires
        i <= v@.len(),
    ensures
        match r {
            Some(p) => spec_parse_config_member(
                v@,
                i as int,
                opt_view(title),
                links_opt_view(links),
            ) == Some((opt_view(p.0), links_opt_view(p.1), p.2 as int)) && i < p.2 <= v@.len(),
            None => spec_parse_config_member(
                v@,
                i as int,
                opt_view(title),
                links_opt_view(links),
            ) is None,
        },
{
    if expect_lit(v, i, "\"title\"").is_some() {
        if title.is_some() {
            return None;
        }
        match parse_field_string(v, i, "\"title\"") {
            Some((w, j)) => Some((Some(chars_to_string(&w)), links, j)),
            None => None,
        }
    } else if expect_lit(v, i, "\"links\"").is_some() {
        if links.is_some() {
            return None;
        }
        match parse_field_links(v, i) {
            Some((ls, j)) => Some((title, Some(ls), j)),
            None => None,
        }
    } else {
        None
    }
}

/// The members of the configuration object, from a key at `i` to the
/// closing brace.
fn parse_config_members(
    v: &Vec<char>,
    i: usize,
    title: Option<String>,
    links: Option<Vec<LinkItem>>,
) -> (r: Option<(Config, usize)>)
    requires
        i <= v@.len(),
    ensures
        match r {
            Some(p) => spec_parse_config_members(
                v@,
                i as int,
                opt_view(title),
                links_opt_view(links),
            ) == Some((p.0@, p.1 as int)) && i < p.1 <= v@.len(),
            None => spec_parse_config_members(
                v@,
                i as int,
                opt_view(title),
                links_opt_view(links),
            ) is None,
        },
    decreases v@.len() - i,
{
    match parse_config_member(v, i, title, links) {
        Some((title2, links2, j)) => {
            let k = skip_ws(v, j);
            if k == v.len() {
                None
            } else if v[k] == '}' {
                match links2 {
                    Some(ls) => {
                        let t = match title2 {
                            Some(t) => t,
                            None => crate::model::default_title(),
                        };
                        Some((Config { title: t, links: ls }, k + 1))
                    },
                    None => None,
                }
            } else if v[k] == ',' {
                let m = skip_ws(v, k + 1);
                parse_config_members(v, m, title2, links2)
            } else {
                None
            }
        },
        None => None,
    }
}

/// The configuration object at `i`.
fn parse_config_obj(v: &Vec<char>, i: usize) -> (r: Option<(Config, usize)>)
    requires
        i <= v@.len(),
    ensures
        match r {
            Some(p) => spec_parse_config_obj(v@, i as int) == Some((p.0@, p.1 as int)) && p.1
                <= v@.len(),
            None => spec_parse_config_obj(v@, i as int) is None,
        },
{
    if !(i < v.len() && v[i] == '{') {
        return None;
    }
    parse_config_members(v, skip_ws(v, i + 1), None, None)
}

/// The characters of a text, in order.
fn str_to_chars(s: &str) -> (r: Vec<char>)
    ensures
        r@ == s@,
{
    let n = s.unicode_len();
    let mut v: Vec<char> = Vec::new();
    let mut i: usize = 0;
    while i < n
        invariant
            n == s@.len(),
            i <= n,
            v@ =~= s@.take(i as int),
        decreases n - i,
    {
        v.push(s.get_char(i));
        proof {
            assert(s@.take(i + 1) =~= s@.take(i as int).push(s@[i as int]));
        }
        i += 1;
    }
    proof {
        assert(s@.take(n as int) =~= s@);
    }
    v
}

/// Parse a configuration text. Returns the document exactly when the text is
/// a well-formed configuration: one object, an optional `title` (defaulted
/// when absent), a required `links` array of links with required `name` and
/// `url` and optional `altName` and `icon`, and nothing but whitespace
/// around it.
pub fn parse_config(text: &str) -> (r: Option<Config>)
    ensures
        match r {
            Some(c) => spec_parse_config_text(text@) == Some(c@),
            None => spec_parse_config_text(text@) is None,
        },
{
    let v = str_to_chars(text);
    match parse_config_obj(&v, skip_ws(&v, 0)) {
        Some((c, j)) => {
            if skip_ws(&v, j) == v.len() {
                Some(c)
            } else {
                None
            }
        },
        None => None,
    }
}

/// The text carries `t` at position `i`.
pub open spec fn text_at(s: Seq<char>, i: int, t: Seq<char>) -> bool {
    &&& 0 <= i
    &&& i + t.len() <= s.len()
    &&& s.subrange(i, i + t.len()) == t
}

/// Each character of a carried piece is readable in place.
proof fn lemma_text_at_char(s: Seq<char>, i: int, t: Seq<char>, k: int)
    requires
        text_at(s, i, t),
        0 <= k < t.len(),
    ensures
        s[i + k] == t[k],
{
    assert(s.subrange(i, i + t.len())[k] == s[i + k]);
}

/// A carried concatenation splits into its two carried parts.
proof fn lemma_text_at_split(s: Seq<char>, i: int, a: Seq<char>, b: Seq<char>)
    requires
        text_at(s, i, a + b),
    ensures
        text_at(s, i, a),
        text_at(s, i + a.len(), b),
{
    let ab = a + b;
    assert forall|k: int| 0 <= k < ab.len() implies s[i + k] == ab[k] by {
        lemma_text_at_char(s, i, ab, k);
    }
    assert(s.subrange(i, i + a.len()) =~= a);
    assert forall|k: int| 0 <= k < b.len() implies s.subrange(
        i + a.len(),
        i + a.len() + b.len(),
    )[k] == b[k] by {
        lemma_text_at_char(s, i, ab, a.len() + k);
        assert(ab[a.len() + k] == b[k]);
    }
    assert(s.subrange(i + a.len(), i + a.len() + b.len()) =~= b);
}

/// Skipping whitespace walks over exactly a carried run of whitespace.
proof fn lemma_skip_ws_run(s: Seq<char>, i: int, w: Seq<char>)
    requires
        text_at(s, i, w),
        forall|k: int| 0 <= k < w.len() ==> is_ws_char(#[trigger] w[k]),
        i + w.len() == s.len() || !is_ws_char(s[i + w.len()]),
    ensures
        spec_skip_ws(s, i) == i + w.len(),
    decreases w.len(),
{
    if w.len() == 0 {
    } else {
        lemma_text_at_char(s, i, w, 0);
        assert(is_ws_char(s[i]));
        assert(w =~= seq![w[0]] + w.drop_first());
        lemma_text_at_split(s, i, seq![w[0]], w.drop_first());
        lemma_skip_ws_run(s, i + 1, w.drop_first());
    }
}

/// A carried literal is recognized, ending right after it.
proof fn lemma_expect_lit_at(s: Seq<char>, i: int, lit: Seq<char>)
    requires
        text_at(s, i, lit),
    ensures
        spec_expect_lit(s, i, lit) == Some(i + lit.len()),
    decreases lit.len(),
{
    if lit.len() == 0 {
    } else {
        lemma_text_at_char(s, i, lit, 0);
        assert(lit =~= seq![lit[0]] + lit.drop_first());
        lemma_text_at_split(s, i, seq![lit[0]], lit.drop_first());
        lemma_expect_lit_at(s, i + 1, lit.drop_first());
    }
}

/// A literal whose second character differs in place is not recognized.
proof fn lemma_expect_lit_mismatch2(s: Seq<char>, i: int, lit: Seq<char>)
    requires
        lit.len() >= 2,
        0 <= i,
        i + 2 <= s.len(),
        s[i] == lit[0],
        s[i + 1] != lit[1],
    ensures
        spec_expect_lit(s, i, lit) is None,
{
    assert(lit.drop_first()[0] == lit[1]);
    assert(spec_expect_lit(s, i + 1, lit.drop_first()) is None);
}

/// Parsing a string body inverts escaping: a carried escaped text followed
/// by a closing quote parses back to the original characters.
proof fn lemma_rt_str_body(s: Seq<char>, i: int, content: Seq<char>)
    requires
        text_at(s, i, spec_escape(content) + seq!['"']),
    ensures
        spec_parse_str_body(s, i) == Some((content, i + spec_escape(content).len() + 1)),
    decreases content.len(),
{
    if content.len() == 0 {
        assert(spec_escape(content) + seq!['"'] =~= seq!['"']);
        lemma_text_at_char(s, i, seq!['"'], 0);
        assert(content =~= Seq::<char>::empty());
    } else {
        let c = content[0];
        let rest = content.drop_first();
        let esc = spec_escape_char(c);
        let tail = spec_escape(rest) + seq!['"'];
        assert(spec_escape(content) == esc + spec_escape(rest));
        assert(spec_escape(content) + seq!['"'] =~= esc + tail);
        lemma_text_at_split(s, i, esc, tail);
        let j = i + esc.len();
        lemma_rt_str_body(s, j, rest);
        assert(content =~= seq![c] + rest);
        if c == '"' {
            lemma_text_at_char(s, i, esc, 0);
            lemma_text_at_char(s, i, esc, 1);
        } else if c == '\\' {
            lemma_text_at_char(s, i, esc, 0);
            lemma_text_at_char(s, i, esc, 1);
        } else if is_ctrl_char(c) {
            lemma_text_at_char(s, i, esc, 0);
            lemma_text_at_char(s, i, esc, 1);
            lemma_text_at_char(s, i, esc, 2);
            lemma_text_at_char(s, i, esc, 3);
            lemma_text_at_char(s, i, esc, 4);
            lemma_text_at_char(s, i, esc, 5);
            let cu = c as u32;
            vstd::utf8::char_is_scalar(c);
            assert(cu < 32);
            let hi = cu / 16;
            let lo = cu % 16;
            assert(hi < 16 && lo < 16);
            assert(spec_hex_val(spec_hex_digit(hi)) == Some(hi));
            assert(spec_hex_val(spec_hex_digit(lo)) == Some(lo));
            vstd::arithmetic::div_mod::lemma_fundamental_div_mod(cu as int, 16);
            assert(spec_hex4(s, i + 2) == Some(cu));
            assert(vstd::utf8::is_scalar(cu));
            vstd::utf8::char_u32_cast(c, cu);
            assert((cu as char) == c);
        } else {
            lemma_text_at_char(s, i, esc, 0);
        }
    }
}

/// Parsing inverts string serialization.
proof fn lemma_rt_string(s: Seq<char>, i: int, content: Seq<char>)
    requires
        text_at(s, i, spec_ser_string(content)),
    ensures
        spec_parse_string(s, i) == Some((content, i + spec_ser_string(content).len())),
{
    assert(spec_ser_string(content) =~= seq!['"'] + (spec_escape(content) + seq!['"']));
    lemma_text_at_split(s, i, seq!['"'], spec_escape(content) + seq!['"']);
    lemma_text_at_char(s, i, seq!['"'], 0);
    lemma_rt_str_body(s, i + 1, content);
}

/// Parsing inverts the serialization of an optional string.
proof fn lemma_rt_opt_val(s: Seq<char>, i: int, o: Option<Seq<char>>)
    requires
        text_at(s, i, spec_ser_opt(o)),
    ensures
        spec_parse_opt_val(s, i) == Some((o, i + spec_ser_opt(o).len())),
{
    match o {
        Some(content) => {
            lemma_text_at_char(s, i, spec_ser_opt(o), 0);
            assert(spec_ser_string(content)[0] == '"');
            lemma_rt_string(s, i, content);
        },
        None => {
            proof_null_chars();
            lemma_text_at_char(s, i, "null"@, 0);
            assert(s[i] == 'n');
            lemma_expect_lit_at(s, i, "null"@);
        },
    }
}

/// The characters of the `null` literal.
proof fn proof_null_chars()
    ensures
        "null"@.len() == 4,
        "null"@[0] == 'n',
{
    reveal_strlit("null");
}

/// Parsing inverts a serialized `<key>: <string>` run.
proof fn lemma_rt_field_string(s: Seq<char>, i: int, key: Seq<char>, content: Seq<char>)
    requires
        text_at(s, i, key + ": "@ + spec_ser_string(content)),
    ensures
        spec_parse_field_string(s, i, key) == Some(
            (content, i + key.len() + 2 + spec_ser_string(content).len()),
        ),
{
    reveal_strlit(": ");
    assert(key + ": "@ + spec_ser_string(content) =~= key + (": "@ + spec_ser_string(content)));
    lemma_text_at_split(s, i, key, ": "@ + spec_ser_string(content));
    lemma_expect_lit_at(s, i, key);
    let j = i + key.len();
    lemma_text_at_split(s, j, ": "@, spec_ser_string(content));
    lemma_text_at_char(s, j, ": "@, 0);
    lemma_text_at_char(s, j, ": "@, 1);
    assert(s[j] == ':');
    assert(!is_ws_char(s[j]));
    assert(spec_skip_ws(s, j) == j);
    let p = j + 2;
    lemma_text_at_char(s, p, spec_ser_string(content), 0);
    assert(s[p] == '"');
    assert(is_ws_char(s[j + 1]));
    assert(spec_skip_ws(s, j + 1) == spec_skip_ws(s, j + 2));
    assert(spec_skip_ws(s, j + 2) == j + 2);
    lemma_rt_string(s, p, content);
}

/// Parsing inverts a serialized `<key>: <string or null>` run.
proof fn lemma_rt_field_opt(s: Seq<char>, i: int, key: Seq<char>, o: Option<Seq<char>>)
    requires
        text_at(s, i, key + ": "@ + spec_ser_opt(o)),
    ensures
        spec_parse_field_opt(s, i, key) == Some(
            (o, i + key.len() + 2 + spec_ser_opt(o).len()),
        ),
{
    reveal_strlit(": ");
    assert(key + ": "@ + spec_ser_opt(o) =~= key + (": "@ + spec_ser_opt(o)));
    lemma_text_at_split(s, i, key, ": "@ + spec_ser_opt(o));
    lemma_expect_lit_at(s, i, key);
    let j = i + key.len();
    lemma_text_at_split(s, j, ": "@, spec_ser_opt(o));
    lemma_text_at_char(s, j, ": "@, 0);
    lemma_text_at_char(s, j, ": "@, 1);
    assert(s[j] == ':');
    assert(spec_skip_ws(s, j) == j);
    let p = j + 2;
    match o {
        Some(content) => {
            lemma_text_at_char(s, p, spec_ser_opt(o), 0);
            assert(s[p] == '"');
        },
        None => {
            proof_null_chars();
            lemma_text_at_char(s, p, "null"@, 0);
            assert(s[p] == 'n');
        },
    }
    assert(is_ws_char(s[j + 1]));
    assert(spec_skip_ws(s, j + 1) == spec_skip_ws(s, j + 2));
    assert(spec_skip_ws(s, j + 2) == j + 2);
    lemma_rt_opt_val(s, p, o);
}


/// A run of a newline and six spaces is skipped as whitespace.
proof fn lemma_gap_nl6(s: Seq<char>, q: int)
    requires
        text_at(s, q, "\n      "@),
        q + 7 == s.len() || !is_ws_char(s[q + 7]),
    ensures
        spec_skip_ws(s, q) == q + 7,
{
    reveal_strlit("\n      ");
    let w = "\n      "@;
    assert(w.len() == 7);
    assert forall|k: int| 0 <= k < w.len() implies is_ws_char(#[trigger] w[k]) by {
        if k == 0 {
            assert(w[0] == '\n');
        } else if k == 1 {
            assert(w[1] == ' ');
        } else if k == 2 {
            assert(w[2] == ' ');
        } else if k == 3 {
            assert(w[3] == ' ');
        } else if k == 4 {
            assert(w[4] == ' ');
        } else if k == 5 {
            assert(w[5] == ' ');
        } else {
            assert(w[6] == ' ');
        }
    }
    lemma_skip_ws_run(s, q, w);
}

/// A run of a newline and four spaces is skipped as whitespace.
proof fn lemma_gap_nl4(s: Seq<char>, q: int)
    requires
        text_at(s, q, "\n    "@),
        q + 5 == s.len() || !is_ws_char(s[q + 5]),
    ensures
        spec_skip_ws(s, q) == q + 5,
{
    reveal_strlit("\n    ");
    let w = "\n    "@;
    assert(w.len() == 5);
    assert forall|k: int| 0 <= k < w.len() implies is_ws_char(#[trigger] w[k]) by {
        if k == 0 {
            assert(w[0] == '\n');
        } else if k == 1 {
            assert(w[1] == ' ');
        } else if k == 2 {
            assert(w[2] == ' ');
        } else if k == 3 {
            assert(w[3] == ' ');
        } else {
            assert(w[4] == ' ');
        }
    }
    lemma_skip_ws_run(s, q, w);
}

/// A run of a newline and two spaces is skipped as whitespace.
proof fn lemma_gap_nl2(s: Seq<char>, q: int)
    requires
        text_at(s, q, "\n  "@),
        q + 3 == s.len() || !is_ws_char(s[q + 3]),
    ensures
        spec_skip_ws(s, q) == q + 3,
{
    reveal_strlit("\n  ");
    let w = "\n  "@;
    assert(w.len() == 3);
    assert forall|k: int| 0 <= k < w.len() implies is_ws_char(#[trigger] w[k]) by {
        if k == 0 {
            assert(w[0] == '\n');
        } else if k == 1 {
            assert(w[1] == ' ');
        } else {
            assert(w[2] == ' ');
        }
    }
    lemma_skip_ws_run(s, q, w);
}

/// Parsing inverts the serialized trailing members of a link: the
/// `altName` and `icon` fields and the closing brace, with `name` and `url`
/// already in hand.
#[verifier::rlimit(100)]
proof fn lemma_rt_link_tail_members(
    s: Seq<char>,
    i3: int,
    name: Seq<char>,
    url: Seq<char>,
    alt: Option<Seq<char>>,
    icon: Option<Seq<char>>,
)
    requires
        text_at(
            s,
            i3,
            ("\"altName\""@ + ": "@ + spec_ser_opt(alt)) + (",\n      "@ + (("\"icon\""@
                + ": "@ + spec_ser_opt(icon)) + "\n    }"@)),
        ),
    ensures
        spec_parse_link_members(s, i3, Some(name), Some(url), None, None) == Some(
            (
                LinkV { name, url, alt_name: alt, icon },
                i3 + 11 + spec_ser_opt(alt).len() + 8 + 8 + spec_ser_opt(icon).len() + 6,
            ),
        ),
{
    reveal_strlit(",\n      ");
    reveal_strlit("\n    }");
    reveal_strlit("\n      ");
    reveal_strlit("\n    ");
    reveal_strlit("\"name\"");
    reveal_strlit("\"url\"");
    reveal_strlit("\"altName\"");
    reveal_strlit("\"icon\"");
    reveal_strlit(": ");
    let g = ",\n      "@;
    let f3 = "\"altName\""@ + ": "@ + spec_ser_opt(alt);
    let f4 = "\"icon\""@ + ": "@ + spec_ser_opt(icon);
    let e = "\n    }"@;
    lemma_text_at_split(s, i3, f3, g + (f4 + e));
    let j3 = i3 + f3.len();
    lemma_text_at_split(s, j3, g, f4 + e);
    let i4 = j3 + 8;
    lemma_text_at_split(s, i4, f4, e);
    let j4 = i4 + f4.len();
    // the keys' second characters, for telling them apart in place
    lemma_text_at_char(s, i3, f3, 0);
    lemma_text_at_char(s, i3, f3, 1);
    assert(s[i3] == '"');
    assert(s[i3 + 1] == 'a');
    lemma_text_at_char(s, i4, f4, 0);
    lemma_text_at_char(s, i4, f4, 1);
    assert(s[i4] == '"');
    assert(s[i4 + 1] == 'i');
    // the altName member: neither name nor url is in place there
    lemma_expect_lit_mismatch2(s, i3, "\"name\""@);
    lemma_expect_lit_mismatch2(s, i3, "\"url\""@);
    assert(f3 =~= "\"altName\""@ + (": "@ + spec_ser_opt(alt)));
    lemma_text_at_split(s, i3, "\"altName\""@, ": "@ + spec_ser_opt(alt));
    lemma_expect_lit_at(s, i3, "\"altName\""@);
    lemma_rt_field_opt(s, i3, "\"altName\""@, alt);
    assert(f3.len() == 11 + spec_ser_opt(alt).len());
    assert(spec_parse_link_member(s, i3, Some(name), Some(url), None, None) == Some(
        (Some(name), Some(url), Some(alt), None::<Option<Seq<char>>>, j3),
    ));
    // the separator before icon
    lemma_text_at_char(s, j3, g, 0);
    assert(s[j3] == ',');
    assert(spec_skip_ws(s, j3) == j3);
    assert(g =~= seq![','] + "\n      "@);
    lemma_text_at_split(s, j3, seq![','], "\n      "@);
    lemma_gap_nl6(s, j3 + 1);
    assert(spec_skip_ws(s, j3 + 1) == i4);
    // the icon member: no earlier key is in place there
    lemma_expect_lit_mismatch2(s, i4, "\"name\""@);
    lemma_expect_lit_mismatch2(s, i4, "\"url\""@);
    lemma_expect_lit_mismatch2(s, i4, "\"altName\""@);
    assert(f4 =~= "\"icon\""@ + (": "@ + spec_ser_opt(icon)));
    lemma_text_at_split(s, i4, "\"icon\""@, ": "@ + spec_ser_opt(icon));
    lemma_expect_lit_at(s, i4, "\"icon\""@);
    lemma_rt_field_opt(s, i4, "\"icon\""@, icon);
    assert(f4.len() == 8 + spec_ser_opt(icon).len());
    assert(spec_parse_link_member(s, i4, Some(name), Some(url), Some(alt), None) == Some(
        (Some(name), Some(url), Some(alt), Some(icon), j4),
    ));
    // the closing brace
    assert(e =~= "\n    "@ + seq!['}']);
    lemma_text_at_split(s, j4, "\n    "@, seq!['}']);
    lemma_text_at_char(s, j4 + 5, seq!['}'], 0);
    assert(s[j4 + 5] == '}');
    lemma_gap_nl4(s, j4);
    assert(spec_skip_ws(s, j4) == j4 + 5);
    assert(spec_finish_link(Some(name), Some(url), Some(alt), Some(icon), j4 + 6) == Some(
        (LinkV { name, url, alt_name: alt, icon }, j4 + 6),
    ));
    // fold the member chain back up
    assert(spec_parse_link_members(s, i4, Some(name), Some(url), Some(alt), None) == Some(
        (LinkV { name, url, alt_name: alt, icon }, j4 + 6),
    ));
    assert(spec_parse_link_members(s, i3, Some(name), Some(url), None, None) == Some(
        (LinkV { name, url, alt_name: alt, icon }, j4 + 6),
    ));
}

/// Parsing inverts the serialization of one link.
#[verifier::rlimit(100)]
proof fn lemma_rt_link(s: Seq<char>, i: int, l: LinkV)
    requires
        text_at(s, i, spec_ser_link(l)),
    ensures
        spec_parse_link(s, i) == Some((l, i + spec_ser_link(l).len())),
{
    reveal_strlit("{\n      ");
    reveal_strlit(",\n      ");
    reveal_strlit("\n    }");
    reveal_strlit("\n      ");
    reveal_strlit("\"name\"");
    reveal_strlit("\"url\"");
    reveal_strlit("\"altName\"");
    reveal_strlit("\"icon\"");
    reveal_strlit(": ");
    let p0 = "{\n      "@;
    let g = ",\n      "@;
    let f1 = "\"name\""@ + ": "@ + spec_ser_string(l.name);
    let f2 = "\"url\""@ + ": "@ + spec_ser_string(l.url);
    let f3 = "\"altName\""@ + ": "@ + spec_ser_opt(l.alt_name);
    let f4 = "\"icon\""@ + ": "@ + spec_ser_opt(l.icon);
    let e = "\n    }"@;
    assert(spec_ser_link(l) =~= p0 + (f1 + (g + (f2 + (g + (f3 + (g + (f4 + e))))))));
    lemma_text_at_split(s, i, p0, f1 + (g + (f2 + (g + (f3 + (g + (f4 + e)))))));
    let i1 = i + 8;
    lemma_text_at_split(s, i1, f1, g + (f2 + (g + (f3 + (g + (f4 + e))))));
    let j1 = i1 + f1.len();
    lemma_text_at_split(s, j1, g, f2 + (g + (f3 + (g + (f4 + e)))));
    let i2 = j1 + 8;
    lemma_text_at_split(s, i2, f2, g + (f3 + (g + (f4 + e))));
    let j2 = i2 + f2.len();
    lemma_text_at_split(s, j2, g, f3 + (g + (f4 + e)));
    let i3 = j2 + 8;
    // the opening brace, then the indent
    lemma_text_at_char(s, i, p0, 0);
    assert(s[i] == '{');
    assert(p0 =~= seq!['{'] + "\n      "@);
    lemma_text_at_split(s, i, seq!['{'], "\n      "@);
    lemma_text_at_char(s, i1, f1, 0);
    assert(s[i1] == '"');
    lemma_gap_nl6(s, i + 1);
    assert(spec_skip_ws(s, i + 1) == i1);
    // the name member
    assert(f1 =~= "\"name\""@ + (": "@ + spec_ser_string(l.name)));
    lemma_text_at_split(s, i1, "\"name\""@, ": "@ + spec_ser_string(l.name));
    lemma_expect_lit_at(s, i1, "\"name\""@);
    lemma_rt_field_string(s, i1, "\"name\""@, l.name);
    assert(f1.len() == 8 + spec_ser_string(l.name).len());
    assert(spec_parse_link_member(s, i1, None, None, None, None) == Some(
        (
            Some(l.name),
            None::<Seq<char>>,
            None::<Option<Seq<char>>>,
            None::<Option<Seq<char>>>,
            j1,
        ),
    ));
    // the separator before url
    lemma_text_at_char(s, j1, g, 0);
    assert(s[j1] == ',');
    assert(spec_skip_ws(s, j1) == j1);
    assert(g =~= seq![','] + "\n      "@);
    lemma_text_at_split(s, j1, seq![','], "\n      "@);
    lemma_text_at_char(s, i2, f2, 0);
    lemma_text_at_char(s, i2, f2, 1);
    assert(s[i2] == '"');
    assert(s[i2 + 1] == 'u');
    lemma_gap_nl6(s, j1 + 1);
    assert(spec_skip_ws(s, j1 + 1) == i2);
    // the url member: the name key is not in place there
    lemma_expect_lit_mismatch2(s, i2, "\"name\""@);
    assert(f2 =~= "\"url\""@ + (": "@ + spec_ser_string(l.url)));
    lemma_text_at_split(s, i2, "\"url\""@, ": "@ + spec_ser_string(l.url));
    lemma_expect_lit_at(s, i2, "\"url\""@);
    lemma_rt_field_string(s, i2, "\"url\""@, l.url);
    assert(f2.len() == 7 + spec_ser_string(l.url).len());
    assert(spec_parse_link_member(s, i2, Some(l.name), None, None, None) == Some(
        (
            Some(l.name),
            Some(l.url),
            None::<Option<Seq<char>>>,
            None::<Option<Seq<char>>>,
            j2,
        ),
    ));
    // the separator before the trailing members
    lemma_text_at_char(s, j2, g, 0);
    assert(s[j2] == ',');
    assert(spec_skip_ws(s, j2) == j2);
    lemma_text_at_split(s, j2, seq![','], "\n      "@);
    lemma_text_at_char(s, i3, f3 + (g + (f4 + e)), 0);
    assert((f3 + (g + (f4 + e)))[0] == '"');
    assert(s[i3] == '"');
    lemma_gap_nl6(s, j2 + 1);
    assert(spec_skip_ws(s, j2 + 1) == i3);
    // the trailing members and the closing brace
    lemma_rt_link_tail_members(s, i3, l.name, l.url, l.alt_name, l.icon);
    let built = LinkV { name: l.name, url: l.url, alt_name: l.alt_name, icon: l.icon };
    assert(built =~= l);
    let end = i3 + 11 + spec_ser_opt(l.alt_name).len() + 8 + 8 + spec_ser_opt(l.icon).len() + 6;
    assert(spec_parse_link_members(s, i3, Some(l.name), Some(l.url), None, None) == Some(
        (l, end),
    ));
    // fold the member chain back up
    assert(spec_parse_link_members(s, i2, Some(l.name), None, None, None) == Some((l, end)));
    assert(spec_parse_link_members(s, i1, None, None, None, None) == Some((l, end)));
    assert(f3.len() == 11 + spec_ser_opt(l.alt_name).len());
    assert(f4.len() == 8 + spec_ser_opt(l.icon).len());
    assert(spec_ser_link(l).len() == 8 + f1.len() + 8 + f2.len() + 8 + f3.len() + 8 + f4.len()
        + 6);
    assert(end == i + spec_ser_link(l).len());
}

/// Parsing inverts the serialization of the links after the first, up to and
/// over the array's closing bracket.
#[verifier::rlimit(50)]
proof fn lemma_rt_more_links(s: Seq<char>, i: int, ls: Seq<LinkV>)
    requires
        text_at(s, i, spec_ser_more_links(ls) + "\n  ]"@),
    ensures
        spec_parse_links_rest(s, i) == Some((ls, i + spec_ser_more_links(ls).len() + 4)),
    decreases ls.len(),
{
    reveal_strlit("\n  ]");
    reveal_strlit("\n  ");
    reveal_strlit(",\n    ");
    reveal_strlit("\n    ");
    if ls.len() == 0 {
        assert(spec_ser_more_links(ls) + "\n  ]"@ =~= "\n  "@ + seq![']']);
        lemma_text_at_split(s, i, "\n  "@, seq![']']);
        lemma_text_at_char(s, i + 3, seq![']'], 0);
        assert(s[i + 3] == ']');
        lemma_gap_nl2(s, i);
        assert(spec_skip_ws(s, i) == i + 3);
    } else {
        let sep = ",\n    "@;
        let first = spec_ser_link(ls[0]);
        let rest = spec_ser_more_links(ls.drop_first());
        assert(spec_ser_more_links(ls) == sep + first + rest);
        assert(spec_ser_more_links(ls) + "\n  ]"@ =~= sep + (first + (rest + "\n  ]"@)));
        lemma_text_at_split(s, i, sep, first + (rest + "\n  ]"@));
        let m = i + 6;
        lemma_text_at_split(s, m, first, rest + "\n  ]"@);
        let j = m + first.len();
        lemma_text_at_char(s, i, sep, 0);
        assert(s[i] == ',');
        assert(spec_skip_ws(s, i) == i);
        assert(sep =~= seq![','] + "\n    "@);
        lemma_text_at_split(s, i, seq![','], "\n    "@);
        lemma_text_at_char(s, m, first, 0);
        reveal_strlit("{\n      ");
        assert(first[0] == '{');
        assert(s[m] == '{');
        lemma_gap_nl4(s, i + 1);
        assert(spec_skip_ws(s, i + 1) == m);
        lemma_rt_link(s, m, ls[0]);
        lemma_rt_more_links(s, j, ls.drop_first());
        assert(seq![ls[0]] + ls.drop_first() =~= ls);
    }
}

/// Parsing inverts the serialization of the links array.
#[verifier::rlimit(50)]
proof fn lemma_rt_links(s: Seq<char>, i: int, ls: Seq<LinkV>)
    requires
        text_at(s, i, spec_ser_links(ls)),
    ensures
        spec_parse_links(s, i) == Some((ls, i + spec_ser_links(ls).len())),
{
    reveal_strlit("[]");
    reveal_strlit("[\n    ");
    reveal_strlit("\n    ");
    reveal_strlit("\n  ]");
    if ls.len() == 0 {
        lemma_text_at_char(s, i, "[]"@, 0);
        lemma_text_at_char(s, i, "[]"@, 1);
        assert(s[i] == '[');
        assert(s[i + 1] == ']');
        assert(spec_skip_ws(s, i + 1) == i + 1);
        assert(spec_parse_links(s, i) == Some((Seq::<LinkV>::empty(), i + 2)));
        assert(ls =~= Seq::<LinkV>::empty());
    } else {
        let head = "[\n    "@;
        let first = spec_ser_link(ls[0]);
        let rest = spec_ser_more_links(ls.drop_first());
        assert(spec_ser_links(ls) == head + first + rest + "\n  ]"@);
        assert(spec_ser_links(ls) =~= head + (first + (rest + "\n  ]"@)));
        lemma_text_at_split(s, i, head, first + (rest + "\n  ]"@));
        let m = i + 6;
        lemma_text_at_split(s, m, first, rest + "\n  ]"@);
        let j = m + first.len();
        lemma_text_at_char(s, i, head, 0);
        assert(s[i] == '[');
        assert(head =~= seq!['['] + "\n    "@);
        lemma_text_at_split(s, i, seq!['['], "\n    "@);
        lemma_text_at_char(s, m, first, 0);
        reveal_strlit("{\n      ");
        assert(first[0] == '{');
        assert(s[m] == '{');
        lemma_gap_nl4(s, i + 1);
        assert(spec_skip_ws(s, i + 1) == m);
        lemma_rt_link(s, m, ls[0]);
        lemma_rt_more_links(s, j, ls.drop_first());
        assert(seq![ls[0]] + ls.drop_first() =~= ls);
    }
}


/// Parsing inverts the serialized `"links": <array>` run.
#[verifier::rlimit(50)]
proof fn lemma_rt_field_links(s: Seq<char>, i: int, links: Seq<LinkV>)
    requires
        text_at(s, i, "\"links\""@ + ": "@ + spec_ser_links(links)),
    ensures
        spec_parse_field_links(s, i) == Some((links, i + 9 + spec_ser_links(links).len())),
{
    reveal_strlit("\"links\"");
    reveal_strlit(": ");
    let arr = spec_ser_links(links);
    assert("\"links\""@ + ": "@ + arr =~= "\"links\""@ + (": "@ + arr));
    lemma_text_at_split(s, i, "\"links\""@, ": "@ + arr);
    let jc = i + 7;
    lemma_text_at_split(s, jc, ": "@, arr);
    let i3 = jc + 2;
    lemma_expect_lit_at(s, i, "\"links\""@);
    lemma_text_at_char(s, jc, ": "@, 0);
    lemma_text_at_char(s, jc, ": "@, 1);
    assert(s[jc] == ':');
    assert(spec_skip_ws(s, jc) == jc);
    assert(arr.len() > 0 && arr[0] == '[') by {
        reveal_strlit("[]");
        reveal_strlit("[\n    ");
    }
    lemma_text_at_char(s, i3, arr, 0);
    assert(s[i3] == '[');
    assert(is_ws_char(s[jc + 1]));
    assert(spec_skip_ws(s, jc + 1) == spec_skip_ws(s, i3));
    assert(spec_skip_ws(s, i3) == i3);
    lemma_rt_links(s, i3, links);
}

/// Parsing inverts the serialized configuration object, from its opening
/// brace through its closing one, leaving only the trailing newline.
#[verifier::rlimit(100)]
proof fn lemma_rt_config_obj(s: Seq<char>, i: int, d: ConfigV)
    requires
        text_at(s, i, spec_ser_config(d)),
    ensures
        spec_parse_config_obj(s, i) == Some((d, i + spec_ser_config(d).len() - 1)),
        s[i] == '{',
        s[i + spec_ser_config(d).len() - 1] == '\n',
{
    reveal_strlit("{\n  ");
    reveal_strlit(",\n  ");
    reveal_strlit("\n  ");
    reveal_strlit("\"title\"");
    reveal_strlit("\"links\"");
    reveal_strlit(": ");
    reveal_strlit("\n}");
    reveal_strlit("\n}\n");
    let p0 = "{\n  "@;
    let g = ",\n  "@;
    let f1 = "\"title\""@ + ": "@ + spec_ser_string(d.title);
    let fv = "\"links\""@ + ": "@ + spec_ser_links(d.links);
    let fl = fv + "\n}"@;
    assert(spec_ser_config(d) =~= p0 + (f1 + (g + (fl + seq!['\n']))));
    lemma_text_at_split(s, i, p0, f1 + (g + (fl + seq!['\n'])));
    let i1 = i + 4;
    lemma_text_at_split(s, i1, f1, g + (fl + seq!['\n']));
    let j1 = i1 + f1.len();
    lemma_text_at_split(s, j1, g, fl + seq!['\n']);
    let i2 = j1 + 4;
    lemma_text_at_split(s, i2, fl, seq!['\n']);
    let j4 = i2 + fl.len();
    lemma_text_at_split(s, i2, fv, "\n}"@);
    let j2 = i2 + fv.len();
    // the opening brace
    lemma_text_at_char(s, i, p0, 0);
    assert(s[i] == '{');
    // the indent, then the title member
    assert(p0 =~= seq!['{'] + "\n  "@);
    lemma_text_at_split(s, i, seq!['{'], "\n  "@);
    lemma_text_at_char(s, i1, f1, 0);
    assert(s[i1] == '"');
    lemma_gap_nl2(s, i + 1);
    assert(spec_skip_ws(s, i + 1) == i1);
    assert(f1 =~= "\"title\""@ + (": "@ + spec_ser_string(d.title)));
    lemma_text_at_split(s, i1, "\"title\""@, ": "@ + spec_ser_string(d.title));
    lemma_expect_lit_at(s, i1, "\"title\""@);
    lemma_rt_field_string(s, i1, "\"title\""@, d.title);
    assert(f1.len() == 9 + spec_ser_string(d.title).len());
    assert(spec_parse_config_member(s, i1, None, None) == Some(
        (Some(d.title), None::<Seq<LinkV>>, j1),
    ));
    // the separator before links
    lemma_text_at_char(s, j1, g, 0);
    assert(s[j1] == ',');
    assert(spec_skip_ws(s, j1) == j1);
    assert(g =~= seq![','] + "\n  "@);
    lemma_text_at_split(s, j1, seq![','], "\n  "@);
    lemma_text_at_char(s, i2, fl, 0);
    assert(s[i2] == '"');
    lemma_gap_nl2(s, j1 + 1);
    assert(spec_skip_ws(s, j1 + 1) == i2);
    // the links member: the title key is not in place there
    lemma_text_at_char(s, i2, fv, 1);
    assert(s[i2 + 1] == 'l');
    lemma_expect_lit_mismatch2(s, i2, "\"title\""@);
    lemma_rt_field_links(s, i2, d.links);
    assert(fv.len() == 9 + spec_ser_links(d.links).len());
    assert(spec_parse_config_member(s, i2, Some(d.title), None) == Some(
        (Some(d.title), Some(d.links), j2),
    ));
    // the closing brace
    lemma_text_at_char(s, j2, "\n}"@, 0);
    lemma_text_at_char(s, j2, "\n}"@, 1);
    assert(s[j2] == '\n');
    assert(s[j2 + 1] == '}');
    assert(spec_skip_ws(s, j2) == spec_skip_ws(s, j2 + 1));
    assert(spec_skip_ws(s, j2 + 1) == j2 + 1);
    let built = ConfigV { title: d.title, links: d.links };
    assert(built =~= d);
    assert(spec_finish_config(Some(d.title), Some(d.links), j2 + 2) == Some((d, j2 + 2)));
    // fold the member chain back up
    assert(spec_parse_config_members(s, i2, Some(d.title), None) == Some((d, j2 + 2)));
    assert(spec_parse_config_members(s, i1, None, None) == Some((d, j2 + 2)));
    // the trailing newline
    lemma_text_at_char(s, j4, seq!['\n'], 0);
    assert(s[j4] == '\n');
    assert(j4 == i + spec_ser_config(d).len() - 1);
    assert(j2 + 2 == j4);
}

/// Canonicalization round-trips: parsing the canonical text of any document
/// yields that document back, unchanged.
pub proof fn lemma_canonical_round_trip(d: ConfigV)
    ensures
        spec_parse_config_text(spec_ser_config(d)) == Some(d),
{
    let s = spec_ser_config(d);
    assert(s.subrange(0, s.len() as int) =~= s);
    assert(text_at(s, 0, spec_ser_config(d)));
    lemma_rt_config_obj(s, 0, d);
    let end = s.len() - 1;
    assert(spec_skip_ws(s, 0) == 0);
    assert(spec_skip_ws(s, end) == spec_skip_ws(s, end + 1));
    assert(spec_skip_ws(s, end + 1) == end + 1);
}

} // verus!
