//! Helpers for attaching CSS hooks to nodes.

use vstd::prelude::*;

use crate::node::Node;

verus! {

/// The attribute carrying CSS classes.
pub const CSS_CLASS_ATTR: &'static str = "class";

/// The attribute carrying element ids.
pub const CSS_ID_ATTR: &'static str = "id";

/// Adds a CSS class to a node, appending to any classes already present.
pub fn with_class(node: Node, class: &str) -> (n: Node)
    ensures
        n.element == node.element,
        n.tags == node.tags,
        node.attributes@.len() == 0 ==> ({
            &&& n.attributes@.len() == 1
            &&& n.attributes@[0].0@ == crate::text::trim_spec("class"@)
            &&& n.attributes@[0].1@ == crate::text::trim_spec(class@)
        }),
{
    proof {
        if node.attributes@.len() == 0 {
            crate::node::lemma_attr_index_empty(node.attributes@, "class"@);
            crate::node::lemma_attr_index_empty(
                node.attributes@,
                crate::text::trim_spec("class"@),
            );
        }
    }
    let merged: String = match node.get_attr("class") {
        Some(existing) => {
            let mut m = String::from_str(existing.as_str());
            m.push(' ');
            m.append(class);
            m
        },
        None => String::from_str(class),
    };
    node.with_attr("class", merged.as_str())
}

/// Sets a node's element id.
pub fn with_id(node: Node, id: &str) -> (n: Node)
    ensures
        n.element == node.element,
        n.tags == node.tags,
        ({
            let i = node.spec_attr_index(crate::text::trim_spec("id"@));
            if i == -1 {
                &&& n.attributes@.len() == node.attributes@.len() + 1
                &&& n.attributes@.subrange(0, node.attributes@.len() as int) == node.attributes@
                &&& n.attributes@.last().0@ == crate::text::trim_spec("id"@)
                &&& n.attributes@.last().1@ == crate::text::trim_spec(id@)
            } else {
                &&& n.attributes@.len() == node.attributes@.len()
                &&& n.attributes@[i].1@ == crate::text::trim_spec(id@)
            }
        }),
{
    node.with_attr("id", id)
}

/// Marks a node as a floating menu widget.
pub fn floating_menu(node: Node) -> (n: Node)
    ensures
        n.element == node.element,
        n.tags == node.tags,
{
    with_class(node, "floating-menu")
}

/// Marks a node as a widget title.
pub fn title(node: Node) -> (n: Node)
    ensures
        n.element == node.element,
        n.tags == node.tags,
{
    with_class(node, "title")
}

} // verus!
