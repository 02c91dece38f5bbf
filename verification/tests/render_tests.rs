use mdwiki::config::Config;
use mdwiki::doc::Doc;
use mdwiki::html::{escape, indent, TABSIZE};
use mdwiki::node::{Node, Style};
use mdwiki::parse::parse_document;
use mdwiki::render::{render_document, render_node};
use mdwiki::wiki::{Id, WikiTree};

const STYLE: &str = "body {\n  margin: 0;\n}";
const SCRIPT: &str = "function reveal() {\n  return;\n}";

fn test_config() -> Config {
    let mut config = Config::none();
    config.head_style = STYLE.to_string();
    config.head_script = SCRIPT.to_string();
    config
}

fn assert_eq_lines<S1: AsRef<str>, S2: AsRef<str>>(actual: S1, expected: S2) {
    let (real, goal) = (actual.as_ref(), expected.as_ref());
    println!("=== Actual:");
    println!("{real}\n");
    println!("=== Expected:");
    println!("{goal}\n");
    for (la, lb) in actual.as_ref().lines().zip(expected.as_ref().lines()) {
        assert_eq!(la, lb, "Expected {la} to be {lb}.")
    }
    assert_eq!(real.lines().count(), goal.lines().count());
}

fn concat_lines(strings: &[&str]) -> String {
    let mut string = String::new();
    for s in strings {
        if !string.is_empty() {
            string.push('\n');
        }
        string.push_str(s.as_ref());
    }
    string
}

fn style() -> String {
    let mut style = String::new();
    style.push_str("    <style>\n      ");
    style.push_str(&indent(STYLE, 3));
    style.push_str("\n    </style>\n");
    style.push_str("    <script>\n      ");
    style.push_str(&indent(SCRIPT, 3));
    style.push_str("\n    </script>");
    style
}

fn make_file(document: Doc, title: &str) -> (WikiTree, Id) {
    let mut tree = WikiTree::new();
    let file = tree.add_doc(WikiTree::ROOT, "file.html", title, document);
    (tree, file)
}

fn wrap_main(title: &str, main: &[&str]) -> String {
    let title = format!("    <title>{title}</title>");
    let css = style();
    let mut lines: Vec<String> = [
        "<html>",
        "  <head>",
        &title,
        &css,
        "  </head>",
        "  <body>",
        "    <div id=\"content\">",
        "      <main>",
    ]
    .iter()
    .map(|s| s.to_string())
    .collect();

    for line in main {
        lines.push(format!("{}{}", " ".repeat(4 * TABSIZE), line));
    }

    for line in &["      </main>", "    </div>", "  </body>", "</html>"] {
        lines.push(line.to_string());
    }

    concat_lines(&lines.iter().map(|s| s.as_str()).collect::<Vec<&str>>())
}

fn check_render_document(doc: Doc, main: &[&str]) {
    let title = "Page Title";
    let (tree, page) = make_file(doc, title);
    assert_eq_lines(
        render_document(&test_config(), &tree, tree.get(page).unwrap()).unwrap(),
        wrap_main(title, main),
    );
}

const MD: &str = r#"
# Test Markdown File

This is a test markdown file. It should

* Parse lists
    * Including sub lists
    * And **bold** and *italics*
    * And [links](https://owen.feik.xyz) and ![images](https://example.org/example.jpg)

## Handle Subheadings
"#;

#[test]
fn test_render_heading() {
    check_render_document(
        Doc::from(vec![Node::heading(1, vec![Node::text("Hello World")])]),
        &["<h1>Hello World</h1>"],
    );
}

#[test]
fn test_test_render_heading() {
    check_render_document(
        Doc::from(vec![Node::heading(1, vec![Node::text("Hello World")])]),
        &["<h1>Hello World</h1>"],
    );
}

#[test]
fn test_render_links() {
    assert_eq!(
        render_node(&Node::list(vec![
            Node::item(vec![
                Node::text("Click here:"),
                Node::link("Website", "https://owen.feik.xyz")
            ]),
            Node::image("image alt", "https://image.url")
        ])),
        [
            "<ul>\n",
            "  <li>Click here: <a href=\"https://owen.feik.xyz\">Website</a></li>\n",
            "  <li><img src=\"https://image.url\" alt=\"image alt\"></li>\n",
            "</ul>"
        ].join("")
    )
}

#[test]
fn test_test_render_links() {
    assert_eq!(
        render_node(&Node::list(vec![
            Node::item(vec![
                Node::text("Click here:"),
                Node::link("Website", "https://owen.feik.xyz")
            ]),
            Node::image("image alt", "https://image.url")
        ])),
        [
            "<ul>\n",
            "  <li>Click here: <a href=\"https://owen.feik.xyz\">Website</a></li>\n",
            "  <li><img src=\"https://image.url\" alt=\"image alt\"></li>\n",
            "</ul>"
        ].join("")
    )
}

#[test]
fn test_render_style() {
    assert_eq!(
        render_node(&Node::style(
            Style::Italic,
            vec![Node::style(Style::Bold, vec![Node::text("italic bold")])]
        )),
        ["<i><b>italic bold</b></i>"].join("")
    )
}

#[test]
fn test_test_render_style() {
    assert_eq!(
        render_node(&Node::style(
            Style::Italic,
            vec![Node::style(Style::Bold, vec![Node::text("italic bold")])]
        )),
        ["<i><b>italic bold</b></i>"].join("")
    )
}

#[test]
fn test_escaping() {
    assert_eq!(
        escape("\"hello world\""),
        String::from("&quot;hello world&quot;")
    )
}

#[test]
fn test_test_escaping() {
    assert_eq!(
        escape("\"hello world\""),
        String::from("&quot;hello world&quot;")
    )
}

#[test]
fn test_full_document() {
    check_render_document(
        parse_document(MD.trim()),
        &[
            "<h1>Test Markdown File</h1>",
            "<p>",
            "  This is a test markdown file. It should",
            "</p>",
            "<ul>",
            "  <li>Parse lists",
            "    <ul>",
            "      <li>Including sub lists</li>",
            "      <li>And <b>bold</b> and <i>italics</i></li>",
            r#"      <li>And <a href="https://owen.feik.xyz">links</a> and <img src="https://example.org/example.jpg" alt="images"></li>"#,
            "    </ul>",
            "  </li>",
            "</ul>",
            "<h2>Handle Subheadings</h2>",
        ],
    );
}

#[test]
fn test_test_full_document() {
    check_render_document(
        parse_document(MD.trim()),
        &[
            "<h1>Test Markdown File</h1>",
            "<p>",
            "  This is a test markdown file. It should",
            "</p>",
            "<ul>",
            "  <li>Parse lists",
            "    <ul>",
            "      <li>Including sub lists</li>",
            "      <li>And <b>bold</b> and <i>italics</i></li>",
            r#"      <li>And <a href="https://owen.feik.xyz">links</a> and <img src="https://example.org/example.jpg" alt="images"></li>"#,
            "    </ul>",
            "  </li>",
            "</ul>",
            "<h2>Handle Subheadings</h2>",
        ],
    );
}

#[test]
fn test_render_code() {
    assert_eq!(
        render_node(&Node::code("print(\"Hello World\")")),
        "<code>print(&quot;Hello World&quot;)</code>"
    );
}

#[test]
fn test_test_render_code() {
    assert_eq!(
        render_node(&Node::code("print(\"Hello World\")")),
        "<code>print(&quot;Hello World&quot;)</code>"
    );
}

#[test]
fn test_code_block() {
    assert_eq!(
        render_node(&Node::codeblock(Some("py"), "print(\"Hello World\")")),
        "<pre>\n  print(&quot;Hello World&quot;)\n</pre>"
    );
}

#[test]
fn test_test_code_block() {
    assert_eq!(
        render_node(&Node::codeblock(Some("py"), "print(\"Hello World\")")),
        "<pre>\n  print(&quot;Hello World&quot;)\n</pre>"
    );
}

#[test]
fn test_details() {
    assert_eq_lines(
        render_node(&Node::details(
            vec![Node::link("index.html", "/")],
            vec![Node::list(vec![Node::link("child.html", "/child.html")])],
        )),
        concat_lines(&[
            "<details>",
            "  <summary><a href=\"/\">index.html</a></summary>",
            "  <ul>",
            "    <li><a href=\"/child.html\">child.html</a></li>",
            "  </ul>",
            "</details>",
        ]),
    );
}

#[test]
fn test_test_details() {
    assert_eq_lines(
        render_node(&Node::details(
            vec![Node::link("index.html", "/")],
            vec![Node::list(vec![Node::link("child.html", "/child.html")])],
        )),
        concat_lines(&[
            "<details>",
            "  <summary><a href=\"/\">index.html</a></summary>",
            "  <ul>",
            "    <li><a href=\"/child.html\">child.html</a></li>",
            "  </ul>",
            "</details>",
        ]),
    );
}

#[test]
fn test_link_doesnt_break_paragraph() {
    check_render_document(
        Doc::from(vec![
            Node::text("Some text"),
            Node::link("Link text", "http://url"),
        ]),
        &[
            "<p>",
            "  Some text <a href=\"http://url\">Link text</a>",
            "</p>",
        ],
    );
}

#[test]
fn test_test_link_doesnt_break_paragraph() {
    check_render_document(
        Doc::from(vec![
            Node::text("Some text"),
            Node::link("Link text", "http://url"),
        ]),
        &[
            "<p>",
            "  Some text <a href=\"http://url\">Link text</a>",
            "</p>",
        ],
    );
}

#[test]
fn test_link_included_in_paragraph() {
    check_render_document(
        Doc::from(vec![
            Node::link("Link text", "http://url"),
            Node::text("Some text"),
        ]),
        &[
            "<p>",
            "  <a href=\"http://url\">Link text</a> Some text",
            "</p>",
        ],
    )
}

#[test]
fn test_test_link_included_in_paragraph() {
    check_render_document(
        Doc::from(vec![
            Node::link("Link text", "http://url"),
            Node::text("Some text"),
        ]),
        &[
            "<p>",
            "  <a href=\"http://url\">Link text</a> Some text",
            "</p>",
        ],
    )
}

const INTEGRATION_MD: &str = r#"
# Test Markdown File

This is a test markdown file. It should

* Parse lists
    * Including sub lists
    * And **bold** and *italics*
    * And [links](https://owen.feik.xyz) and ![images](https://example.org/example.jpg)
"#;

#[test]
fn test_integration() {
    check_render_document(
        parse_document(INTEGRATION_MD.trim()),
        &[
            "<h1>Test Markdown File</h1>",
            "<p>",
            "  This is a test markdown file. It should",
            "</p>",
            "<ul>",
            "  <li>Parse lists",
            "    <ul>",
            "      <li>Including sub lists</li>",
            "      <li>And <b>bold</b> and <i>italics</i></li>",
            r#"      <li>And <a href="https://owen.feik.xyz">links</a> and <img src="https://example.org/example.jpg" alt="images"></li>"#,
            "    </ul>",
            "  </li>",
            "</ul>",
        ],
    );
}

// A blank line splits text into sibling nodes, and rendering them at root
// level yields two separate paragraphs.
#[test]
fn test_blank_line_two_paragraphs() {
    let doc = parse_document("a\n\nb");
    assert_eq!(doc, Doc::from(vec![Node::text("a"), Node::text("b")]));
    let (tree, page) = make_file(doc, "Page Title");
    let html = render_document(&test_config(), &tree, tree.get(page).unwrap()).unwrap();
    assert_eq!(html.matches("<p>").count(), 2);
    assert_eq!(html.matches("</p>").count(), 2);
}

// Rendering a page with no document is the single reported failure.
#[test]
fn test_render_document_needs_document() {
    let mut tree = WikiTree::new();
    let dir = tree.add_dir(WikiTree::ROOT, "docs");
    assert!(render_document(&test_config(), &tree, tree.get(dir).unwrap()).is_err());
    assert!(render_document(&test_config(), &tree, tree.get(WikiTree::ROOT).unwrap()).is_err());
}

// An empty link resolves against the tree when the configuration asks.
#[test]
fn test_empty_link_resolution() {
    let mut tree = WikiTree::new();
    let dir = tree.add_dir(WikiTree::ROOT, "places");
    tree.add_doc(dir, "city.html", "City", Doc::empty());
    let doc = Doc::from(vec![Node::link("City", "")]);
    let page = tree.add_doc(dir, "notes.html", "Notes", doc);
    let mut config = test_config();
    config.empty_links = true;
    let html = render_document(&config, &tree, tree.get(page).unwrap()).unwrap();
    assert!(html.contains("<a href=\"/places/city.html\">City</a>"));
}
