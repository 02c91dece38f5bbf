//! Rendering configuration, consumed but not owned by the core.

use vstd::prelude::*;

use crate::tag::Tag;

verus! {

/// No two configured pairs carry the same tag label.
pub open spec fn tag_keys_unique(keys: Seq<(Tag, String)>) -> bool {
    forall|i: int, j: int|
        0 <= i < j < keys.len() ==> !crate::tag::tag_matches(keys[i].0, keys[j].0)
}

pub struct Config {
    /// Whether empty links are resolved against the page tree: `[City]()`
    /// is rewritten to the URL of the nearest page titled or filed "City".
    pub empty_links: bool,
    /// Whether directories without an index page get one synthesized.
    pub generate_indexes: bool,
    /// Whether generated pages carry a navigation tree of the whole site.
    pub nav_tree: bool,
    /// Whether pages open with a heading of their title.
    pub page_heading: bool,
    /// Whether pages show a breadcrumb trail of their ancestors.
    pub add_breadcrumbs: bool,
    /// Passwords by tag: sections tagged with one of these are rendered as
    /// ciphertext under the paired password. Keys are unique, in insertion
    /// order.
    pub tag_keys: Vec<(Tag, String)>,
    /// Stylesheet text embedded verbatim into the head of every page.
    pub head_style: String,
    /// Script text embedded verbatim into the head of every page.
    pub head_script: String,
}

impl Config {
    /// A configuration with every feature off.
    pub fn none() -> (c: Config)
        ensures
            !c.empty_links,
            !c.generate_indexes,
            !c.nav_tree,
            !c.page_heading,
            !c.add_breadcrumbs,
            c.tag_keys@.len() == 0,
            tag_keys_unique(c.tag_keys@),
            c.head_style@.len() == 0,
            c.head_script@.len() == 0,
    {
        Config {
            empty_links: false,
            generate_indexes: false,
            nav_tree: false,
            page_heading: false,
            add_breadcrumbs: false,
            tag_keys: Vec::new(),
            head_style: String::new(),
            head_script: String::new(),
        }
    }
}

impl Default for Config {
    /// The stock configuration: everything on but the page heading, and one
    /// preconfigured tag password.
    fn default() -> (c: Config)
        ensures
            c.empty_links,
            c.generate_indexes,
            c.nav_tree,
            !c.page_heading,
            c.add_breadcrumbs,
            c.tag_keys@.len() == 1,
            tag_keys_unique(c.tag_keys@),
            c.tag_keys@[0].0.spec_name() == "dm"@,
            c.tag_keys@[0].1@ == "skoraeus"@,
            c.head_style@.len() == 0,
            c.head_script@.len() == 0,
    {
        let mut tag_keys: Vec<(Tag, String)> = Vec::new();
        tag_keys.push((Tag::new("dm"), String::from_str("skoraeus")));
        Config {
            empty_links: true,
            generate_indexes: true,
            nav_tree: true,
            page_heading: false,
            add_breadcrumbs: true,
            tag_keys,
            head_style: String::new(),
            head_script: String::new(),
        }
    }
}

} // verus!
