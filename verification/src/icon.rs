//! Label and icon resolution for one link: the displayed label falls back
//! from `altName` to `name`; the icon source falls back from the explicit
//! `icon` to a CDN URL derived from the lower-cased, hyphenated name.

use vstd::prelude::*;
use vstd::string::StrSliceExecFns;
use vstd::string::StringExecFns;
use crate::model::LinkItem;
use crate::model::LinkV;

verus! {

/// What `str::to_lowercase` returns: a function of the characters alone.
pub uninterp spec fn lower_of(s: Seq<char>) -> Seq<char>;

/// Relies on str::to_lowercase: the result depends on the characters alone,
/// and an empty string stays empty.
#[verifier::external_body]
fn lowercase(s: &str) -> (r: String)
    ensures
        r@ == lower_of(s@),
        s@.len() == 0 ==> r@.len() == 0,
{
    s.to_lowercase()
}

/// Every space replaced by a hyphen; all other characters kept.
pub open spec fn spec_dashify(s: Seq<char>) -> Seq<char> {
    s.map_values(|c: char| if c == ' ' { '-' } else { c })
}

/// The icon-CDN URL template around a derived icon name.
pub open spec fn spec_icon_prefix() -> Seq<char> {
    "https://cdn.jsdelivr.net/gh/selfhst/icons@main/webp/"@
}

/// The suffix of a derived icon URL.
pub open spec fn spec_icon_suffix() -> Seq<char> {
    ".webp"@
}

/// The derived icon name of a link: its name lower-cased, spaces hyphenated.
pub fn parse_icon_name(name: String) -> (r: String)
    ensures
        r@ == spec_dashify(lower_of(name@)),
{
    let lowered = lowercase(name.as_str());
    let low = lowered.as_str();
    let n = low.unicode_len();
    let mut out: Vec<char> = Vec::new();
    let mut i: usize = 0;
    while i < n
        invariant
            n == low@.len(),
            low@ == lower_of(name@),
            i <= n,
            out@ =~= spec_dashify(low@.take(i as int)),
        decreases n - i,
    {
        let c = low.get_char(i);
        if c == ' ' {
            out.push('-');
        } else {
            out.push(c);
        }
        proof {
            assert(low@.take(i + 1).drop_last() =~= low@.take(i as int));
            assert(low@.take(i + 1).last() == low@[i as int]);
            assert(out@ =~= spec_dashify(low@.take(i + 1)));
        }
        i += 1;
    }
    proof {
        assert(low@.take(n as int) =~= low@);
    }
    crate::codec::chars_to_string(&out)
}

/// The resolved icon source of a link: the explicit `icon` verbatim when
/// present, else the CDN URL derived from the name.
pub open spec fn spec_icon_url(l: LinkV) -> Seq<char> {
    match l.icon {
        Some(s) => s,
        None => spec_icon_prefix() + spec_dashify(lower_of(l.name)) + spec_icon_suffix(),
    }
}

/// Resolve the icon source for one link.
pub fn resolve_icon(link: &LinkItem) -> (r: String)
    ensures
        r@ == spec_icon_url(link@),
{
    match &link.icon {
        Some(s) => s.clone(),
        None => {
            let mut out = String::from_str("https://cdn.jsdelivr.net/gh/selfhst/icons@main/webp/");
            let derived = parse_icon_name(link.name.clone());
            out.append(derived.as_str());
            out.append(".webp");
            out
        },
    }
}

/// The displayed label of a link: `altName` when present, else `name`.
pub open spec fn spec_label(l: LinkV) -> Seq<char> {
    match l.alt_name {
        Some(s) => s,
        None => l.name,
    }
}

/// Resolve the displayed label for one link.
pub fn resolve_label(link: &LinkItem) -> (r: String)
    ensures
        r@ == spec_label(link@),
{
    match &link.alt_name {
        Some(s) => s.clone(),
        None => link.name.clone(),
    }
}

} // verus!
