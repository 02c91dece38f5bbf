//! Opaque content labels used for encryption gating.

use vstd::prelude::*;

verus! {

/// An interned string label attached to nodes and pages; a node whose tag
/// matches a configured password is rendered encrypted.
#[derive(Debug, PartialEq, Eq)]
pub struct Tag {
    name: String,
}

impl Tag {
    pub closed spec fn spec_name(self) -> Seq<char> {
        self.name@
    }

    pub fn new(tag: &str) -> (t: Tag)
        ensures
            t.spec_name() == tag@,
    {
        Tag { name: tag.to_owned() }
    }

    pub fn as_ref(&self) -> (r: &str)
        ensures
            r@ == self.spec_name(),
    {
        self.name.as_str()
    }
}

impl Clone for Tag {
    fn clone(&self) -> (t: Tag)
        ensures
            t.spec_name() == self.spec_name(),
    {
        Tag { name: self.name.clone() }
    }
}

impl From<&str> for Tag {
    fn from(value: &str) -> (t: Tag) {
        Tag::new(value)
    }
}

impl vstd::std_specs::convert::FromSpecImpl<&str> for Tag {
    open spec fn obeys_from_spec() -> bool {
        false
    }

    open spec fn from_spec(value: &str) -> Tag {
        vstd::pervasive::arbitrary()
    }
}

/// Whether two tags carry the same label.
pub open spec fn tag_matches(a: Tag, b: Tag) -> bool {
    a.spec_name() == b.spec_name()
}

/// Executable comparison of two tags by label.
pub fn tag_eq(a: &Tag, b: &Tag) -> (r: bool)
    ensures
        r == tag_matches(*a, *b),
{
    tag_str_eq(a, b.as_ref())
}

/// Whether a tag's label equals the given string.
pub fn tag_str_eq(a: &Tag, s: &str) -> (r: bool)
    ensures
        r == (a.spec_name() == s@),
{
    let an = String::from_str(a.as_ref());
    let bn = String::from_str(s);
    an == bn
}

/// Copies a tag list, label for label.
pub fn clone_tags(tags: &Vec<Tag>) -> (r: Vec<Tag>)
    ensures
        r@.len() == tags@.len(),
        forall|i: int| 0 <= i < tags@.len() ==> tag_matches(#[trigger] r@[i], tags@[i]),
{
    let mut r: Vec<Tag> = Vec::new();
    let mut i: usize = 0;
    while i < tags.len()
        invariant
            i <= tags@.len(),
            r@.len() == i,
            forall|j: int| 0 <= j < i ==> tag_matches(#[trigger] r@[j], tags@[j]),
        decreases tags@.len() - i,
    {
        r.push(tags[i].clone());
        i = i + 1;
    }
    r
}

/// Whether some tag in `tags` carries the label of `t`.
pub open spec fn tags_contain(tags: Seq<Tag>, t: Tag) -> bool {
    exists|i: int| 0 <= i < tags.len() && tag_matches(tags[i], t)
}

/// Executable membership test matching `tags_contain`.
pub fn tags_contains(tags: &Vec<Tag>, t: &Tag) -> (r: bool)
    ensures
        r == tags_contain(tags@, *t),
{
    let mut i: usize = 0;
    while i < tags.len()
        invariant
            i <= tags@.len(),
            forall|j: int| 0 <= j < i ==> !tag_matches(tags@[j], *t),
        decreases tags@.len() - i,
    {
        if tag_eq(&tags[i], t) {
            return true;
        }
        i = i + 1;
    }
    false
}

} // verus!
