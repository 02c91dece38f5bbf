//! A parsed document: an ordered sequence of top-level nodes.

use vstd::prelude::*;

use crate::node::{El, Node};
use crate::tag::Tag;

verus! {

/// One document's content.
#[derive(Debug, PartialEq)]
pub struct Doc(pub Vec<Node>);

/// The text of the first plain text child of the first level-1 heading at
/// or after position `i`, if any: the title a document derives from its
/// content.
pub open spec fn spec_title_from_heading(nodes: Seq<Node>, i: int) -> Option<Seq<char>>
    decreases nodes.len() - i,
{
    if i < 0 || i >= nodes.len() {
        None
    } else {
        match nodes[i].element {
            El::Heading(lv, children) => if lv == 1 && first_text_child(children@, 0) is Some {
                first_text_child(children@, 0)
            } else {
                spec_title_from_heading(nodes, i + 1)
            },
            _ => spec_title_from_heading(nodes, i + 1),
        }
    }
}

/// The text of the first `Text` node at or after position `i`.
pub open spec fn first_text_child(nodes: Seq<Node>, i: int) -> Option<Seq<char>>
    decreases nodes.len() - i,
{
    if i < 0 || i >= nodes.len() {
        None
    } else {
        match nodes[i].element {
            El::Text(t) => Some(t@),
            _ => first_text_child(nodes, i + 1),
        }
    }
}

impl Doc {
    pub fn nodes(&self) -> (r: &Vec<Node>)
        ensures
            r == &self.0,
    {
        &self.0
    }

    /// The tag set of the first node; a document is gated as a whole by the
    /// tags of its leading node.
    pub fn tags(&self) -> (r: Vec<Tag>)
        ensures
            self.0@.len() > 0 ==> r@.len() == self.0@[0].tags@.len() && (forall|i: int|
                0 <= i < r@.len() ==> crate::tag::tag_matches(
                    #[trigger] r@[i],
                    self.0@[0].tags@[i],
                )),
            self.0@.len() == 0 ==> r@.len() == 0,
    {
        if self.0.len() > 0 {
            crate::tag::clone_tags(&self.0[0].tags)
        } else {
            Vec::new()
        }
    }

    /// Derives a title from the first level-1 heading's first text child.
    pub fn title_from_heading(&self) -> (r: Option<String>)
        ensures
            match spec_title_from_heading(self.0@, 0) {
                Some(t) => r matches Some(s) && s@ == t,
                None => r is None,
            },
    {
        let nodes = &self.0;
        let mut i: usize = 0;
        while i < nodes.len()
            invariant
                i <= nodes@.len(),
                nodes@ == self.0@,
                spec_title_from_heading(nodes@, 0) == spec_title_from_heading(nodes@, i as int),
            decreases nodes@.len() - i,
        {
            if let El::Heading(level, children) = &nodes[i].element {
                if *level == 1u8 {
                    let mut j: usize = 0;
                    while j < children.len()
                        invariant
                            j <= children@.len(),
                            i < nodes@.len(),
                            nodes@ == self.0@,
                            nodes@[i as int].element matches El::Heading(lv, ch) && lv == 1 && ch
                                == *children,
                            spec_title_from_heading(nodes@, 0) == spec_title_from_heading(
                                nodes@,
                                i as int,
                            ),
                            first_text_child(children@, 0) == first_text_child(
                                children@,
                                j as int,
                            ),
                        decreases children@.len() - j,
                    {
                        if let El::Text(text) = &children[j].element {
                            proof {
                                assert(first_text_child(children@, j as int) == Some(text@));
                                assert(spec_title_from_heading(nodes@, i as int) == Some(text@));
                            }
                            return Some(text.clone());
                        }
                        j = j + 1;
                    }
                }
            }
            i = i + 1;
        }
        None
    }

    /// A document with no content.
    pub fn empty() -> (r: Doc)
        ensures
            r.0@.len() == 0,
    {
        Doc(Vec::new())
    }
}

impl From<Vec<Node>> for Doc {
    fn from(value: Vec<Node>) -> (r: Doc) {
        Doc(value)
    }
}

impl vstd::std_specs::convert::FromSpecImpl<Vec<Node>> for Doc {
    open spec fn obeys_from_spec() -> bool {
        true
    }

    open spec fn from_spec(value: Vec<Node>) -> Doc {
        Doc(value)
    }
}

} // verus!
