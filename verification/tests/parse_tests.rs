use mdwiki::doc::Doc;
use mdwiki::node::{Node, Style};
use mdwiki::parse::{parse_document, parse_list, parse_list_item, parse_node};

#[test]
fn test_parse_heading() {
    assert_eq!(
        parse_document("# Title of Document"),
        Doc::from(vec![Node::heading(
            1,
            vec![Node::text("Title of Document")]
        )])
    );
}

#[test]
fn test_parse_heading_text() {
    assert_eq!(
        parse_document(
            r#"
                some text
                ## Heading two
                Some other text
                more text
            "#
        ),
        Doc::from(vec![
            Node::text("some text"),
            Node::heading(2, vec![Node::text("Heading two")]),
            Node::text("Some other text more text")
        ])
    )
}

#[test]
fn test_parse_bold() {
    assert_eq!(
        parse_document("Some text **bolded text** end"),
        Doc::from(vec![
            Node::text("Some text"),
            Node::style(Style::Bold, vec![Node::text("bolded text")]),
            Node::text("end")
        ])
    )
}

#[test]
fn test_parse_bold_italic() {
    assert_eq!(
        parse_document("# Normal *italic* **bold** *italic* normal"),
        Doc::from(vec![Node::heading(
            1,
            vec![
                Node::text("Normal"),
                Node::style(Style::Italic, vec![Node::text("italic")]),
                Node::style(Style::Bold, vec![Node::text("bold")]),
                Node::style(Style::Italic, vec![Node::text("italic")]),
                Node::text("normal")
            ]
        )])
    )
}

#[test]
fn test_line_break() {
    assert_eq!(
        parse_document("line\nno break\n  \nbroken"),
        Doc::from(vec![Node::text("line no break"), Node::text("broken")])
    )
}

#[test]
fn test_list() {
    assert_eq!(
        parse_document(
            r#"
                ### Heading
                * List item
                    * Sub list item
                    * Another sub item
                * Another list item
            "#
        ),
        Doc::from(vec![
            Node::heading(3, vec![Node::text("Heading")]),
            Node::list(vec![
                Node::item(vec![
                    Node::text("List item"),
                    Node::list(vec![
                        Node::text("Sub list item"),
                        Node::text("Another sub item")
                    ]),
                ]),
                Node::text("Another list item")
            ])
        ])
    )
}

#[test]
fn test_end_list() {
    assert_eq!(
        parse_document("* list item\ncontinued\n\nended"),
        Doc::from(vec![
            Node::list(vec![Node::text("list item continued")]),
            Node::text("ended")
        ])
    )
}

#[test]
fn test_parse_list_item() {
    assert_eq!(
        parse_list_item("* list item\n* next item").1,
        Node::item(vec![Node::text("list item")])
    )
}

#[test]
fn test_parse_list_sub_item() {
    assert_eq!(
        parse_list_item("* list item\n  * sub item").1,
        Node::item(vec![
            Node::text("list item"),
            Node::list(vec![Node::text("sub item")])
        ])
    )
}

#[test]
fn test_parse_list() {
    assert_eq!(
        parse_list("* list item\n  * sub item\n* next item").1,
        Node::list(vec![
            Node::item(vec![
                Node::text("list item"),
                Node::list(vec![Node::text("sub item")])
            ]),
            Node::text("next item")
        ])
    )
}

#[test]
fn test_parse_link() {
    assert_eq!(
        parse_document("[My Website](https://owen.feik.xyz)"),
        Doc::from(vec![Node::link("My Website", "https://owen.feik.xyz")])
    )
}

#[test]
fn test_parse_not_link() {
    assert_eq!(
        parse_node("[Text in brackets] other text").1,
        Node::text("[Text in brackets] other text")
    )
}

#[test]
fn test_parse_image() {
    assert_eq!(
        parse_node("![Image caption](https://image.url)").1,
        Node::image("Image caption", "https://image.url")
    )
}

#[test]
fn test_parse_image_no_url() {
    assert_eq!(
        parse_node("![World map]()").1,
        Node::image("World map", "")
    )
}

#[test]
fn test_strikethrough() {
    assert_eq!(
        parse_node("~struckthrough~").1,
        Node::style(Style::Strikethrough, vec![Node::text("struckthrough")])
    )
}

#[test]
fn test_code() {
    assert_eq!(
        parse_document(&[
            "## Title With `Inline Code`\n",
            "```lang\ncode block line 1\nline 2\n\nline 3```\n"
        ].join("")),
        Doc::from(vec![
            Node::heading(2, vec![Node::text("Title With"), Node::code("Inline Code")]),
            Node::codeblock(Some("lang"), "code block line 1\nline 2\n\nline 3")
        ])
    )
}

#[test]
fn test_parse_table() {
    assert_eq!(
        parse_document("| Column 1 | Column 2 |\n| some | **bold** |"),
        Doc::from(vec![Node::table(vec![
            vec![vec![Node::text("Column 1")], vec![Node::text("Column 2")]],
            vec![
                vec![Node::text("some")],
                vec![Node::style(Style::Bold, vec![Node::text("bold")])]
            ]
        ])])
    )
}

// An image with an empty URL counts as empty, so the document keeps only
// the heading; the image still parses with its alt text on its own.
#[test]
fn test_last_el_image() {
    assert_eq!(
        parse_document("# Nations\n\n![World map]()\n"),
        vec![Node::heading(1, vec![Node::text("Nations")])].into()
    );
    let image = parse_node("![World map]()").1;
    assert_eq!(image, Node::image("World map", ""));
    assert!(image.is_empty());
}

// The earlier spellings of the parser tests, kept under their own names.

#[test]
fn test_test_parse_heading() {
    assert_eq!(
        parse_document("# Title of Document"),
        Doc::from(vec![Node::heading(
            1,
            vec![Node::text("Title of Document")]
        )])
    );
}

#[test]
fn test_test_parse_heading_text() {
    assert_eq!(
        parse_document(
            r#"
                some text
                # Heading one
                Some other text
                more text
            "#
        ),
        Doc::from(vec![
            Node::text("some text"),
            Node::heading(1, vec![Node::text("Heading one")]),
            Node::text("Some other text more text")
        ])
    )
}

#[test]
fn test_test_parse_bold() {
    assert_eq!(
        parse_document("Some text **bolded text** end"),
        Doc::from(vec![
            Node::text("Some text"),
            Node::style(Style::Bold, vec![Node::text("bolded text")]),
            Node::text("end")
        ])
    )
}

#[test]
fn test_test_parse_bold_italic() {
    assert_eq!(
        parse_document("# Normal *italic* **bold** *italic* normal"),
        Doc::from(vec![Node::heading(
            1,
            vec![
                Node::text("Normal"),
                Node::style(Style::Italic, vec![Node::text("italic")]),
                Node::style(Style::Bold, vec![Node::text("bold")]),
                Node::style(Style::Italic, vec![Node::text("italic")]),
                Node::text("normal")
            ]
        )])
    )
}

#[test]
fn test_test_line_break() {
    assert_eq!(
        parse_document("line\nno break\n  \nbroken"),
        Doc::from(vec![Node::text("line no break"), Node::text("broken")])
    )
}

#[test]
fn test_test_list() {
    assert_eq!(
        parse_document(
            r#"
                # Heading
                * List item
                    * Sub list item
                    * Another sub item
                * Another list item
            "#
        ),
        Doc::from(vec![
            Node::heading(1, vec![Node::text("Heading")]),
            Node::list(vec![
                Node::item(vec![
                    Node::text("List item"),
                    Node::list(vec![
                        Node::item(vec![Node::text("Sub list item")]),
                        Node::item(vec![Node::text("Another sub item")])
                    ]),
                ]),
                Node::item(vec![Node::text("Another list item")])
            ])
        ])
    )
}

#[test]
fn test_test_end_list() {
    assert_eq!(
        parse_document("* list item\ncontinued\n\nended"),
        Doc::from(vec![
            Node::list(vec![Node::item(vec![Node::text("list item continued")])]),
            Node::text("ended")
        ])
    )
}

#[test]
fn test_test_parse_list_item() {
    assert_eq!(
        parse_list_item("* list item\n* next item").1,
        Node::item(vec![Node::text("list item")])
    )
}

#[test]
fn test_test_parse_list_sub_item() {
    assert_eq!(
        parse_list_item("* list item\n  * sub item").1,
        Node::item(vec![
            Node::text("list item"),
            Node::list(vec![Node::item(vec![Node::text("sub item")])])
        ])
    )
}

#[test]
fn test_test_parse_list() {
    assert_eq!(
        parse_list("* list item\n  * sub item\n* next item").1,
        Node::list(vec![
            Node::item(vec![
                Node::text("list item"),
                Node::list(vec![Node::item(vec![Node::text("sub item")])])
            ]),
            Node::item(vec![Node::text("next item")])
        ])
    )
}

#[test]
fn test_test_parse_link() {
    assert_eq!(
        parse_document("[My Website](https://owen.feik.xyz)"),
        Doc::from(vec![Node::link("My Website", "https://owen.feik.xyz")])
    )
}

#[test]
fn test_test_parse_not_link() {
    assert_eq!(
        parse_node("[Text in brackets] other text").1,
        Node::text("[Text in brackets] other text")
    )
}

#[test]
fn test_test_parse_image() {
    assert_eq!(
        parse_node("![Image caption](https://image.url)").1,
        Node::image("Image caption", "https://image.url")
    )
}

#[test]
fn test_test_code() {
    assert_eq!(
        parse_document(&[
            "# Title With `Inline Code`\n",
            "```lang\ncode block line 1\nline 2\n\nline 3```\n"
        ].join("")),
        Doc::from(vec![
            Node::heading(1, vec![Node::text("Title With"), Node::code("Inline Code")]),
            Node::codeblock(Some("lang"), "code block line 1\nline 2\n\nline 3")
        ])
    )
}

#[test]
fn test_test_strikethrough() {
    assert_eq!(
        parse_node("~struckthrough~").1,
        Node::style(Style::Strikethrough, vec![Node::text("struckthrough")])
    )
}

// A nested list: the deeper marker becomes a child list of the first item.
#[test]
fn test_nested_list_markers() {
    assert_eq!(
        parse_document("* A\n  * B\n* C"),
        Doc::from(vec![Node::list(vec![
            Node::item(vec![
                Node::text("A"),
                Node::list(vec![Node::text("B")])
            ]),
            Node::text("C"),
        ])])
    );
}

// A table keeps its rows and columns; styled cell content stays styled.
#[test]
fn test_table_cells() {
    let doc = parse_document("| A | B |\n| c | **d** |");
    let expected = Doc::from(vec![Node::table(vec![
        vec![vec![Node::text("A")], vec![Node::text("B")]],
        vec![
            vec![Node::text("c")],
            vec![Node::style(Style::Bold, vec![Node::text("d")])],
        ],
    ])]);
    assert_eq!(doc, expected);
    match doc.nodes()[0].el() {
        mdwiki::node::El::Table(rows) => {
            assert_eq!(rows.len(), 2);
            assert_eq!(
                rows[1][1],
                vec![Node::style(Style::Bold, vec![Node::text("d")])]
            );
        }
        _ => panic!("expected a table"),
    }
}

// Heading levels cap at six however many markers are given.
#[test]
fn test_heading_level_cap() {
    assert_eq!(
        parse_document("####### deep"),
        Doc::from(vec![Node::heading(6, vec![Node::text("deep")])])
    );
}

// Blank and empty input parse to an empty document.
#[test]
fn test_parse_empty_input() {
    assert_eq!(parse_document(""), Doc::empty());
    assert_eq!(parse_document("  \n \t \n"), Doc::empty());
}

// A fence language tag is taken only when the whole first line is
// alphanumeric; a mixed first line stays part of the code.
#[test]
fn test_code_fence_language_rule() {
    assert_eq!(
        parse_document("```ab cd\nx```"),
        Doc::from(vec![Node::codeblock(None, "ab cd\nx")])
    );
    assert_eq!(
        parse_document("```!bang\nx```"),
        Doc::from(vec![Node::codeblock(None, "!bang\nx")])
    );
    assert_eq!(
        parse_document("```rust\nfn f() {}```"),
        Doc::from(vec![Node::codeblock(Some("rust"), "fn f() {}")])
    );
}
