use mdwiki::config::Config;
use mdwiki::css::{with_class, with_id};
use mdwiki::doc::Doc;
use mdwiki::nav::{add_indexes, make_nav_breadcrumb, make_nav_tree};
use mdwiki::node::Node;
use mdwiki::render::{render_document, render_node, render_nodes_only};
use mdwiki::wiki::WikiTree;

#[test]
fn test_nav_tree() {
    let mut tree = WikiTree::new();
    let dir = tree.add_dir(WikiTree::ROOT, "index");
    let country = tree.add_doc(dir, "country", "Country!", Doc::empty());
    tree.add_doc(country, "citya", "Citya", Doc::empty());
    tree.add_doc(country, "cityb", "Cityb", Doc::empty());

    assert_eq!(
        make_nav_tree(&tree, tree.get(country).unwrap(), &Config::none()),
        with_id(
            Node::list(vec![Node::item(vec![Node::details(
                vec![Node::link("Index", "/index")],
                vec![Node::list(vec![Node::item(vec![Node::details(
                    vec![with_class(
                        Node::link("Country!", "/index/country"),
                        "nav-tree-selected"
                    )],
                    vec![Node::list(vec![
                        Node::item(vec![
                            with_class(Node::span(Vec::new()), "nav-tree-bullet"),
                            Node::link("Citya", "/index/country/citya")
                        ]),
                        Node::item(vec![
                            with_class(Node::span(Vec::new()), "nav-tree-bullet"),
                            Node::link("Cityb", "/index/country/cityb")
                        ]),
                    ])]
                )
                .with_attr("open", "")])])]
            )
            .with_attr("open", "")])]),
            "nav-tree"
        )
    );
}

#[test]
fn test_nav_tree_render() {
    let mut tree = WikiTree::new();
    let dir = tree.add_dir(WikiTree::ROOT, "index");
    let page = tree.add_doc(dir, "page", "Page Title", Doc::empty());
    tree.add_doc(page, "child", "Child", Doc::empty());

    let nav = make_nav_tree(&tree, tree.get(page).unwrap(), &Config::none());
    let rendered = render_node(&nav);
    let expected = [
        "<ul id=\"nav-tree\">",
        "  <li>",
        "    <details open=\"\">",
        "      <summary><a href=\"/index\">Index</a></summary>",
        "      <ul>",
        "        <li>",
        "          <details open=\"\">",
        "            <summary><a href=\"/index/page\" class=\"nav-tree-selected\">Page Title</a></summary>",
        "            <ul>",
        "              <li><span class=\"nav-tree-bullet\"></span> <a href=\"/index/page/child\">Child</a></li>",
        "            </ul>",
        "          </details>",
        "        </li>",
        "      </ul>",
        "    </details>",
        "  </li>",
        "</ul>",
    ]
    .join("\n");
    assert_eq!(rendered, expected);
}

#[test]
fn test_empty_dir_excluded() {
    let mut tree = WikiTree::new();
    let dir = tree.add_dir(WikiTree::ROOT, "dir");
    assert_eq!(
        render_node(&make_nav_tree(&tree, tree.get(dir).unwrap(), &Config::none())),
        "<ul id=\"nav-tree\">\n</ul>"
    );
}

#[test]
fn test_index_replaces_dir() {
    let mut tree = WikiTree::new();
    let dir = tree.add_dir(WikiTree::ROOT, "dir");
    let idx = tree.add_index(dir, "index.html", "Index", Doc::empty());
    assert_eq!(
        render_node(&make_nav_tree(&tree, tree.get(idx).unwrap(), &Config::none())),
        [
            "<ul id=\"nav-tree\">",
            "  <li><span class=\"nav-tree-bullet\"></span> <a href=\"/dir/index.html\" class=\"nav-tree-selected\">Index</a></li>",
            "</ul>"
        ]
        .join("\n")
    );
}

#[test]
fn test_media_excluded_from_nav_tree() {
    let mut tree = WikiTree::new();
    let dir = tree.add_dir(WikiTree::ROOT, "dir");
    let page = tree.add_doc(dir, "doc.html", "Doc", Doc::empty());
    let images = tree.add_dir(dir, "images");
    tree.add_media(images, "image.png", "Image", "./image.png");

    assert_eq!(
        render_node(&make_nav_tree(&tree, tree.get(page).unwrap(), &Config::none())),
        [
            "<ul id=\"nav-tree\">",
            "  <li>",
            "    <details open=\"\">",
            "      <summary><a href=\"/dir\">Dir</a></summary>",
            "      <ul>",
            "        <li><span class=\"nav-tree-bullet\"></span> <a href=\"/dir/doc.html\" class=\"nav-tree-selected\">Doc</a></li>",
            "      </ul>",
            "    </details>",
            "  </li>",
            "</ul>",
        ]
        .join("\n"),
    );
}

#[test]
fn test_encrypted_nodes() {
    let config = &Config::default();
    let mut tree = WikiTree::new();
    let page = tree.add_doc(WikiTree::ROOT, "myfile.html", "My File", Doc::empty());
    let page = tree.get(page).unwrap();
    let heading = Node::heading(1, vec![Node::text("abcd")]).with_tags(vec!["dm".into()]);
    let nodes = vec![
        heading,
        Node::text("Some body text !!!"),
        Node::heading(1, vec![Node::text("efgh")]),
    ];
    let html = render_nodes_only(config, &tree, page, &nodes, false);
    assert!(!html.contains("<h1>abcd</h1>"));
    assert!(!html.contains("Some body text !!!"));
    assert!(html.contains("<h1>efgh</h1>"));
    assert!(html.starts_with("<span"));
    assert!(html.contains("class=\"secret\""));
    assert!(html.contains("nonces=\""));
    assert!(html.contains("tags=\"dm\""));
}

// A breadcrumb names each ancestor below the root, nearest last.
#[test]
fn test_breadcrumb() {
    let mut tree = WikiTree::new();
    let dir = tree.add_dir(WikiTree::ROOT, "country");
    let sub = tree.add_dir(dir, "city");
    let page = tree.add_doc(sub, "market.html", "Market", Doc::empty());
    let crumb = make_nav_breadcrumb(&tree, tree.get(page).unwrap(), &Config::none());
    let rendered = render_node(&crumb);
    assert!(rendered.starts_with("<h3 id=\"nav-breadcrumb\">"));
    let country = rendered.find("Country").unwrap();
    let city = rendered.find("City").unwrap();
    assert!(country < city);

    // A page directly under the root has no breadcrumb at all.
    let top = tree.add_doc(WikiTree::ROOT, "top.html", "Top", Doc::empty());
    let empty = make_nav_breadcrumb(&tree, tree.get(top).unwrap(), &Config::none());
    assert!(empty.is_empty());
}

// Directories without an index gain a synthesized one; those with an
// index, and empty directories, are left alone.
#[test]
fn test_add_indexes() {
    let mut tree = WikiTree::new();
    let dir = tree.add_dir(WikiTree::ROOT, "guide");
    tree.add_doc(dir, "one.html", "One", Doc::empty());
    let covered = tree.add_dir(WikiTree::ROOT, "covered");
    tree.add_index(covered, "index.html", "Covered", Doc::empty());
    let empty_dir = tree.add_dir(WikiTree::ROOT, "empty");

    let before = tree.pages().len();
    add_indexes(&mut tree);
    assert_eq!(tree.pages().len(), before + 2);

    let with_index = tree
        .pages()
        .iter()
        .filter(|p| p.is_index() && p.parent() == Some(dir))
        .count();
    assert_eq!(with_index, 1);
    let empty_unchanged = tree
        .pages()
        .iter()
        .filter(|p| p.parent() == Some(empty_dir))
        .count();
    assert_eq!(empty_unchanged, 0);

    // The synthesized index lists the directory's children and renders.
    let idx = tree
        .pages()
        .iter()
        .find(|p| p.is_index() && p.parent() == Some(dir))
        .unwrap();
    let html = render_document(&Config::none(), &tree, idx).unwrap();
    assert!(html.contains("<h1>Guide</h1>"));
    assert!(html.contains("<a href=\"/guide/one.html\">One</a>"));
}

// Without a later heading of the same level, the section boundary falls
// one short of the end: the final sibling is consumed but not rendered.
#[test]
fn test_section_end_fallback() {
    let config = &Config::default();
    let mut tree = WikiTree::new();
    let page = tree.add_doc(WikiTree::ROOT, "f.html", "F", Doc::empty());
    let page = tree.get(page).unwrap();
    let nodes = vec![
        Node::heading(1, vec![Node::text("secret title")]).with_tags(vec!["dm".into()]),
        Node::text("body one"),
        Node::text("body two"),
    ];
    let html = render_nodes_only(config, &tree, page, &nodes, false);
    assert!(html.starts_with("<span"));
    assert!(!html.contains("secret title"));
    assert!(!html.contains("body one"));
    assert!(!html.contains("body two"));
}

// A node matching several tags records every matching tag and nonce, but
// carries only the last pair's ciphertext.
#[test]
fn test_multi_tag_encryption() {
    let mut config = Config::none();
    config.tag_keys.push(("alpha".into(), "pw-one".to_string()));
    config.tag_keys.push(("beta".into(), "pw-two".to_string()));
    let mut tree = WikiTree::new();
    let page = tree.add_doc(WikiTree::ROOT, "f.html", "F", Doc::empty());
    let page = tree.get(page).unwrap();
    let nodes = vec![Node::text("hidden words").with_tags(vec!["alpha".into(), "beta".into()])];
    let html = render_nodes_only(&config, &tree, page, &nodes, false);
    assert!(html.contains("tags=\"alpha;beta\""));
    assert!(!html.contains("hidden words"));
    let nonces = html.split("nonces=\"").nth(1).unwrap();
    let nonces = nonces.split('"').next().unwrap();
    assert_eq!(nonces.matches(';').count(), 1);
}

// The secret span's recorded attributes are genuine: the last segment of
// its `nonces` attribute opens the stored ciphertext under the last
// configured password, recovering the hidden text.
#[test]
fn test_secret_nonce_opens_ciphertext() {
    let mut config = Config::none();
    config.tag_keys.push(("alpha".into(), "pw-one".to_string()));
    config.tag_keys.push(("beta".into(), "pw-two".to_string()));
    let mut tree = WikiTree::new();
    let page = tree.add_doc(WikiTree::ROOT, "f.html", "F", Doc::empty());
    let page = tree.get(page).unwrap();
    let nodes = vec![Node::text("hidden words").with_tags(vec!["alpha".into(), "beta".into()])];
    let html = render_nodes_only(&config, &tree, page, &nodes, false);
    let nonces = html.split("nonces=\"").nth(1).unwrap();
    let nonces = nonces.split('"').next().unwrap();
    let last_nonce = nonces.split(';').last().unwrap();
    let body = html.split("nonces=\"").nth(1).unwrap();
    let body = body.split('>').nth(1).unwrap();
    let cipher = body.split('<').next().unwrap();
    let plain = mdwiki::aes::decrypt(last_nonce, cipher, "pw-two").unwrap();
    assert_eq!(plain, "hidden words");
}

// A tagged node handed to the single-node renderer comes back as a
// ciphertext span: the cleartext is gone and the secret class is present.
#[test]
fn test_tagged_node_renders_as_secret_span() {
    let mut config = Config::none();
    config.tag_keys.push(("dm".into(), "pw".to_string()));
    let mut tree = WikiTree::new();
    let page = tree.add_doc(WikiTree::ROOT, "f.html", "F", Doc::empty());
    let page = tree.get(page).unwrap();
    let node = Node::text("for the keeper only").with_tags(vec!["dm".into()]);
    let html = mdwiki::render::render_node_only(&config, &tree, page, &node);
    assert!(html.starts_with("<span class=\"secret\""));
    assert!(!html.contains("for the keeper only"));

    // Without a matching key the node renders in the clear.
    let clear = mdwiki::render::render_node_only(&Config::none(), &tree, page, &node);
    assert_eq!(clear, "for the keeper only");
}
