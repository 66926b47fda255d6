//! The configuration document: a display title and an ordered list of links.

use vstd::prelude::*;
use vstd::string::StringExecFns;

verus! {

/// One dashboard entry: a display name, a target URL, an optional display
/// label override, and an optional explicit icon source.
pub struct LinkItem {
    pub name: String,
    pub url: String,
    pub alt_name: Option<String>,
    pub icon: Option<String>,
}

/// Mathematical model of a link: each string as its character sequence.
#[verifier::ext_equal]
pub struct LinkV {
    pub name: Seq<char>,
    pub url: Seq<char>,
    pub alt_name: Option<Seq<char>>,
    pub icon: Option<Seq<char>>,
}

impl View for LinkItem {
    type V = LinkV;

    open spec fn view(&self) -> LinkV {
        LinkV {
            name: self.name@,
            url: self.url@,
            alt_name: match self.alt_name {
                Some(s) => Some(s@),
                None => None,
            },
            icon: match self.icon {
                Some(s) => Some(s@),
                None => None,
            },
        }
    }
}

/// The validated configuration document: a title and the display-ordered links.
pub struct Config {
    pub title: String,
    pub links: Vec<LinkItem>,
}

/// Mathematical model of a configuration document.
#[verifier::ext_equal]
pub struct ConfigV {
    pub title: Seq<char>,
    pub links: Seq<LinkV>,
}

impl View for Config {
    type V = ConfigV;

    open spec fn view(&self) -> ConfigV {
        ConfigV { title: self.title@, links: self.links@.map_values(|l: LinkItem| l@) }
    }
}

/// The title a document gets when the configuration text does not give one.
pub open spec fn spec_default_title() -> Seq<char> {
    "Homey"@
}

/// The fallback title, as executable text.
pub fn default_title() -> (r: String)
    ensures
        r@ == spec_default_title(),
{
    String::from_str("Homey")
}

impl LinkItem {
    /// An independent copy with the same model.
    pub fn duplicate(&self) -> (r: LinkItem)
        ensures
            r@ == self@,
    {
        LinkItem {
            name: self.name.clone(),
            url: self.url.clone(),
            alt_name: match &self.alt_name {
                Some(s) => Some(s.clone()),
                None => None,
            },
            icon: match &self.icon {
                Some(s) => Some(s.clone()),
                None => None,
            },
        }
    }
}

impl Config {
    /// An independent copy with the same model: the snapshot readers receive.
    pub fn duplicate(&self) -> (r: Config)
        ensures
            r@ == self@,
    {
        let mut links: Vec<LinkItem> = Vec::new();
        let mut i: usize = 0;
        while i < self.links.len()
            invariant
                i <= self.links.len(),
                links@.len() == i,
                forall|j: int| 0 <= j < i ==> links@[j]@ == self.links@[j]@,
            decreases self.links.len() - i,
        {
            links.push(self.links[i].duplicate());
            i += 1;
        }
        let r = Config { title: self.title.clone(), links };
        proof {
            assert(r@.links =~= self@.links);
            assert(r@ =~= self@);
        }
        r
    }
}

} // verus!
