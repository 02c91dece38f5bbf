use mdwiki::doc::Doc;
use mdwiki::files::{output_filename, title_from_filename};
use mdwiki::node::Node;
use mdwiki::text::capitalise;
use mdwiki::wiki::{WikiPage, WikiPageInner, WikiTree};

#[test]
fn test_is_empty() {
    assert!(Node::text("").is_empty());
    assert!(!Node::text("hi").is_empty());
    assert!(!Node::table(vec![vec![vec![Node::text("hi")]]]).is_empty());
}

#[test]
fn model_test_is_empty() {
    assert!(Node::text("").is_empty());
    assert!(!Node::text("hi").is_empty());
    assert!(!Node::table(vec![vec![vec![Node::text("hi")]]]).is_empty());
}

// Emptiness follows the content that matters per kind: a link is empty
// without text, an image without a URL.
#[test]
fn test_is_empty_link_image() {
    assert!(Node::link("", "https://example.org").is_empty());
    assert!(!Node::link("text", "").is_empty());
    assert!(Node::image("alt text", "").is_empty());
    assert!(!Node::image("", "https://example.org/x.png").is_empty());
    assert!(Node::empty().is_empty());
    assert!(Node::list(vec![Node::text("  ")]).is_empty());
    assert!(Node::table(vec![]).is_empty());
}

#[test]
fn test_filename() {
    let node = WikiPage {
        inner: WikiPageInner::Document(Doc::empty()),
        path: vec![0, 1],
        title: "Title".into(),
        url: "/rootdir/title.html".into(),
    };

    assert_eq!(node.filename(), "title.html");
}

#[test]
fn test_find_link_target() {
    let mut tree = WikiTree::new();
    let rootdir = tree.add_dir(WikiTree::ROOT, "rootdir");
    let rootdoc = tree.add_doc(rootdir, "file.html", "File", Doc::empty());
    let childdir = tree.add_dir(rootdir, "childdir");

    let title = "File";
    let name = "file.html";

    {
        let root = tree.get(rootdir).unwrap();
        let child = tree.get(childdir).unwrap();

        assert_eq!(
            tree.find_link_target(title, name, root).unwrap().id(),
            rootdoc
        );
        assert_eq!(
            tree.find_link_target(title, name, child).unwrap().id(),
            rootdoc
        );
    }

    let childdoc = tree.add_doc(childdir, "file.html", "File", Doc::empty());

    {
        let root = tree.get(rootdir).unwrap();
        let child = tree.get(childdir).unwrap();
        assert_eq!(
            tree.find_link_target(title, name, root).unwrap().id(),
            rootdoc
        );
        assert_eq!(
            tree.find_link_target(title, name, child).unwrap().id(),
            childdoc
        );
    }
}

#[test]
fn test_capitalise() {
    assert_eq!(capitalise("tree at hill"), "Tree at Hill");
    assert_eq!(capitalise("sword of killing"), "Sword of Killing");
    assert_eq!(capitalise("the big town"), "The Big Town");
    assert_eq!(capitalise("magic is a resource"), "Magic is a Resource");
}

#[test]
fn test_add_dir_title() {
    let mut tree = WikiTree::new();
    let dir = tree.add_dir(WikiTree::ROOT, "old-towns");
    let page = tree.get(dir).unwrap();
    assert_eq!(page.title(), "Old Towns");
    assert_eq!(page.url(), "/old-towns");
    assert_eq!(page.filename(), "old-towns");
    assert_eq!(page.parent(), Some(WikiTree::ROOT));
}

#[test]
fn test_doc_title_from_heading() {
    let doc = Doc::from(vec![
        Node::text("preamble"),
        Node::heading(2, vec![Node::text("not this one")]),
        Node::heading(1, vec![Node::text("The Title")]),
    ]);
    assert_eq!(doc.title_from_heading(), Some("The Title".to_string()));
    assert_eq!(Doc::empty().title_from_heading(), None);
}

#[test]
fn test_title_from_filename() {
    assert_eq!(title_from_filename("world-map.md"), "World Map");
    assert_eq!(title_from_filename("city"), "City");
}

#[test]
fn test_output_filename() {
    assert_eq!(output_filename("notes.md"), "notes.html");
    assert_eq!(output_filename("image.png"), "image.png");
}

// An unresolvable title finds no page anywhere in the tree.
#[test]
fn test_find_link_target_missing() {
    let mut tree = WikiTree::new();
    let dir = tree.add_dir(WikiTree::ROOT, "dir");
    tree.add_doc(dir, "file.html", "File", Doc::empty());
    let from = tree.get(dir).unwrap();
    assert!(tree.find_link_target("Nowhere", "html", from).is_none());
}

// Setting an attribute twice keeps one pair and the latest value.
#[test]
fn test_attr_replaces() {
    let mut n = Node::text("x");
    n.attr("class", "one");
    n.attr("class", " two ");
    assert_eq!(n.attrs().len(), 1);
    assert_eq!(n.attrs()[0].0, "class");
    assert_eq!(n.attrs()[0].1, "two");
    assert_eq!(n.get_attr("class"), Some(&"two".to_string()));
}

// Text accumulation trims the fragment and separates with one space.
#[test]
fn test_add_text() {
    let mut n = Node::text("start");
    n.add_text("  more words \n");
    match n.el() {
        mdwiki::node::El::Text(t) => assert_eq!(t, "start more words"),
        _ => panic!("expected text"),
    }
    let mut c = Node::item(vec![]);
    c.add_text("child");
    match c.el() {
        mdwiki::node::El::Item(children) => {
            assert_eq!(children, &vec![Node::text("child")])
        }
        _ => panic!("expected item"),
    }
}

#[test]
fn test_capitalise_edges() {
    assert_eq!(capitalise(""), "");
    assert_eq!(capitalise("a"), "a");
    assert_eq!(capitalise("at-home_now"), "at Home Now");
}

// In-place element edits reach through el_mut.
#[test]
fn test_el_mut() {
    let mut n = Node::text("ab");
    if let mdwiki::node::El::Text(t) = n.el_mut() {
        t.push('!');
    }
    assert_eq!(n, Node::text("ab!"));
    assert_eq!(Node::text("gone").into_el(), mdwiki::node::El::Text("gone".to_string()));
}
