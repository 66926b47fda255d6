//! Pure rendering of a document into page markup: the index page with its
//! ordered link cards, and the admin editor page around a submission text.
//! Interpolated text is HTML-escaped; everything else is fixed markup.

use vstd::prelude::*;
use crate::codec::chars_to_string;
use crate::codec::emit_lit;
use crate::icon::spec_icon_url;
use crate::icon::spec_label;
use crate::icon::resolve_icon;
use crate::icon::resolve_label;
use crate::model::Config;
use crate::model::ConfigV;
use crate::model::LinkItem;
use crate::model::LinkV;

verus! {

/// How one character appears in markup text: the four significant HTML
/// characters as entities, all others raw.
pub open spec fn spec_escape_html_char(c: char) -> Seq<char> {
    if c == '&' {
        "&amp;"@
    } else if c == '<' {
        "&lt;"@
    } else if c == '>' {
        "&gt;"@
    } else if c == '"' {
        "&quot;"@
    } else {
        seq![c]
    }
}

/// A whole text, HTML-escaped.
pub open spec fn spec_escape_html(s: Seq<char>) -> Seq<char>
    decreases s.len(),
{
    if s.len() == 0 {
        Seq::empty()
    } else {
        spec_escape_html_char(s[0]) + spec_escape_html(s.drop_first())
    }
}

/// HTML escaping distributes over concatenation.
proof fn lemma_escape_html_app(a: Seq<char>, b: Seq<char>)
    ensures
        spec_escape_html(a + b) == spec_escape_html(a) + spec_escape_html(b),
    decreases a.len(),
{
    if a.len() == 0 {
        assert(a + b =~= b);
        assert(spec_escape_html(a) + spec_escape_html(b) =~= spec_escape_html(b));
    } else {
        assert((a + b).drop_first() =~= a.drop_first() + b);
        lemma_escape_html_app(a.drop_first(), b);
        assert((a + b)[0] == a[0]);
        assert(spec_escape_html(a + b) =~= spec_escape_html(a) + spec_escape_html(b));
    }
}

/// Escaping one more character appends its entity.
proof fn lemma_escape_html_snoc(s: Seq<char>, i: int)
    requires
        0 <= i < s.len(),
    ensures
        spec_escape_html(s.take(i + 1)) == spec_escape_html(s.take(i)) + spec_escape_html_char(
            s[i],
        ),
{
    lemma_escape_html_app(s.take(i), seq![s[i]]);
    assert(s.take(i) + seq![s[i]] =~= s.take(i + 1));
    assert(seq![s[i]].drop_first() =~= Seq::<char>::empty());
    assert(spec_escape_html(Seq::<char>::empty()) == Seq::<char>::empty());
    assert(spec_escape_html(seq![s[i]]) == spec_escape_html_char(seq![s[i]][0])
        + spec_escape_html(seq![s[i]].drop_first()));
    assert(seq![s[i]][0] == s[i]);
    assert(spec_escape_html_char(s[i]) + Seq::<char>::empty() =~= spec_escape_html_char(s[i]));
}

/// Append a text to the output, HTML-escaped.
fn write_escaped(out: &mut Vec<char>, s: &str)
    ensures
        final(out)@ == old(out)@ + spec_escape_html(s@),
{
    let n = s.unicode_len();
    let mut i: usize = 0;
    while i < n
        invariant
            n == s@.len(),
            i <= n,
            out@ =~= old(out)@ + spec_escape_html(s@.take(i as int)),
        decreases n - i,
    {
        let c = s.get_char(i);
        if c == '&' {
            emit_lit(out, "&amp;");
        } else if c == '<' {
            emit_lit(out, "&lt;");
        } else if c == '>' {
            emit_lit(out, "&gt;");
        } else if c == '"' {
            emit_lit(out, "&quot;");
        } else {
            out.push(c);
        }
        proof {
            lemma_escape_html_snoc(s@, i as int);
            assert(out@ =~= old(out)@ + spec_escape_html(s@.take(i + 1)));
        }
        i += 1;
    }
    proof {
        assert(s@.take(n as int) =~= s@);
    }
}

/// One link card: the target, the resolved icon, the resolved label.
pub open spec fn spec_render_card(l: LinkV) -> Seq<char> {
    "<li><a href=\""@ + spec_escape_html(l.url) + "\"><img class=\"icon\" src=\""@
        + spec_escape_html(spec_icon_url(l)) + "\"><span class=\"label\">"@ + spec_escape_html(
        spec_label(l),
    ) + "</span></a></li>"@
}

/// The cards of all links, in display order.
pub open spec fn spec_render_cards(ls: Seq<LinkV>) -> Seq<char>
    decreases ls.len(),
{
    if ls.len() == 0 {
        Seq::empty()
    } else {
        spec_render_card(ls[0]) + spec_render_cards(ls.drop_first())
    }
}

/// One more link appends one more card.
proof fn lemma_render_cards_snoc(ls: Seq<LinkV>, l: LinkV)
    ensures
        spec_render_cards(ls.push(l)) == spec_render_cards(ls) + spec_render_card(l),
    decreases ls.len(),
{
    assert(ls.push(l).len() == ls.len() + 1);
    assert(spec_render_cards(ls.push(l)) == spec_render_card(ls.push(l)[0]) + spec_render_cards(
        ls.push(l).drop_first(),
    ));
    if ls.len() == 0 {
        assert(ls.push(l).drop_first() =~= Seq::<LinkV>::empty());
        assert(ls.push(l)[0] == l);
        assert(spec_render_cards(Seq::<LinkV>::empty()) == Seq::<char>::empty());
        assert(spec_render_cards(ls) == Seq::<char>::empty());
        assert(spec_render_cards(ls.push(l)) =~= spec_render_cards(ls) + spec_render_card(l));
    } else {
        assert(ls.push(l).drop_first() =~= ls.drop_first().push(l));
        assert(ls.push(l)[0] == ls[0]);
        lemma_render_cards_snoc(ls.drop_first(), l);
        assert(spec_render_cards(ls) == spec_render_card(ls[0]) + spec_render_cards(
            ls.drop_first(),
        ));
        assert(spec_render_cards(ls.push(l)) =~= spec_render_cards(ls) + spec_render_card(l));
    }
}

/// The index page: the title in the head and the header, then the cards.
pub open spec fn spec_render_index(d: ConfigV) -> Seq<char> {
    "<!DOCTYPE html><html lang=\"en\"><head><meta charset=\"utf-8\"><meta name=\"viewport\" content=\"width=device-width, initial-scale=1\"><title>"@
        + spec_escape_html(d.title)
        + "</title><link rel=\"stylesheet\" href=\"/static/styles.css\"></head><body><header class=\"page-header\"><h1>"@
        + spec_escape_html(d.title)
        + "</h1><a class=\"settings-link\" href=\"/admin\">Edit</a></header><ul>"@
        + spec_render_cards(d.links) + "</ul></body></html>"@
}

/// Append one link card to the output.
fn write_card(out: &mut Vec<char>, link: &LinkItem)
    ensures
        final(out)@ == old(out)@ + spec_render_card(link@),
{
    emit_lit(out, "<li><a href=\"");
    write_escaped(out, link.url.as_str());
    emit_lit(out, "\"><img class=\"icon\" src=\"");
    let icon = resolve_icon(link);
    write_escaped(out, icon.as_str());
    emit_lit(out, "\"><span class=\"label\">");
    let label = resolve_label(link);
    write_escaped(out, label.as_str());
    emit_lit(out, "</span></a></li>");
    proof {
        assert(out@ =~= old(out)@ + spec_render_card(link@));
    }
}

/// Render the index page for a document.
pub fn render_index(cfg: &Config) -> (r: String)
    ensures
        r@ == spec_render_index(cfg@),
{
    let mut out: Vec<char> = Vec::new();
    emit_lit(
        &mut out,
        "<!DOCTYPE html><html lang=\"en\"><head><meta charset=\"utf-8\"><meta name=\"viewport\" content=\"width=device-width, initial-scale=1\"><title>",
    );
    write_escaped(&mut out, cfg.title.as_str());
    emit_lit(
        &mut out,
        "</title><link rel=\"stylesheet\" href=\"/static/styles.css\"></head><body><header class=\"page-header\"><h1>",
    );
    write_escaped(&mut out, cfg.title.as_str());
    emit_lit(&mut out, "</h1><a class=\"settings-link\" href=\"/admin\">Edit</a></header><ul>");
    let ghost mid = out@;
    let ghost ls = cfg@.links;
    let mut i: usize = 0;
    while i < cfg.links.len()
        invariant
            i <= cfg.links.len(),
            ls == cfg@.links,
            ls.len() == cfg.links.len(),
            forall|j: int| 0 <= j < ls.len() ==> ls[j] == cfg.links@[j]@,
            out@ =~= mid + spec_render_cards(ls.take(i as int)),
        decreases cfg.links.len() - i,
    {
        write_card(&mut out, &cfg.links[i]);
        proof {
            lemma_render_cards_snoc(ls.take(i as int), ls[i as int]);
            assert(ls.take(i as int).push(ls[i as int]) =~= ls.take(i + 1));
            assert(out@ =~= mid + spec_render_cards(ls.take(i + 1)));
        }
        i += 1;
    }
    emit_lit(&mut out, "</ul></body></html>");
    proof {
        assert(ls.take(ls.len() as int) =~= ls);
        assert(out@ =~= spec_render_index(cfg@));
    }
    chars_to_string(&out)
}

/// The model of an optional message.
pub open spec fn spec_message_view(m: Option<&str>) -> Option<Seq<char>> {
    match m {
        Some(s) => Some(s@),
        None => None,
    }
}

/// The admin editor page: an optional status line, then the submission text
/// inside the editor.
pub open spec fn spec_render_admin(text: Seq<char>, msg: Option<Seq<char>>) -> Seq<char> {
    "<!DOCTYPE html><html lang=\"en\"><head><meta charset=\"utf-8\"><meta name=\"viewport\" content=\"width=device-width, initial-scale=1\"><title>Homey Settings</title><link rel=\"stylesheet\" href=\"/static/styles.css\"></head><body><header class=\"page-header\"><h1>Settings</h1><a class=\"settings-link\" href=\"/\">Back</a></header>"@
        + (match msg {
        Some(m) => "<p class=\"notice\">"@ + spec_escape_html(m) + "</p>"@,
        None => Seq::<char>::empty(),
    })
        + "<form class=\"editor\" method=\"post\" action=\"/admin/save\"><label for=\"json-editor\">config.json</label><textarea id=\"json-editor\" name=\"json\" spellcheck=\"false\">"@
        + spec_escape_html(text)
        + "</textarea><div class=\"editor-actions\"><button type=\"submit\">Save</button></div></form></body></html>"@
}

/// Render the admin editor page around a submission text, with an optional
/// status or error line.
pub fn render_admin(json_text: &str, message: Option<&str>) -> (r: String)
    ensures
        r@ == spec_render_admin(json_text@, spec_message_view(message)),
{
    let mut out: Vec<char> = Vec::new();
    emit_lit(
        &mut out,
        "<!DOCTYPE html><html lang=\"en\"><head><meta charset=\"utf-8\"><meta name=\"viewport\" content=\"width=device-width, initial-scale=1\"><title>Homey Settings</title><link rel=\"stylesheet\" href=\"/static/styles.css\"></head><body><header class=\"page-header\"><h1>Settings</h1><a class=\"settings-link\" href=\"/\">Back</a></header>",
    );
    match message {
        Some(m) => {
            emit_lit(&mut out, "<p class=\"notice\">");
            write_escaped(&mut out, m);
            emit_lit(&mut out, "</p>");
        },
        None => {},
    }
    emit_lit(
        &mut out,
        "<form class=\"editor\" method=\"post\" action=\"/admin/save\"><label for=\"json-editor\">config.json</label><textarea id=\"json-editor\" name=\"json\" spellcheck=\"false\">",
    );
    write_escaped(&mut out, json_text);
    emit_lit(
        &mut out,
        "</textarea><div class=\"editor-actions\"><button type=\"submit\">Save</button></div></form></body></html>",
    );
    proof {
        assert(out@ =~= spec_render_admin(json_text@, spec_message_view(message)));
    }
    chars_to_string(&out)
}

} // verus!
