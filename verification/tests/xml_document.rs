use kblnk::document::XmlDocument;
use kblnk::error::ParseError;
use kblnk::lexed::{LexedXmlDocument, LexedXmlNode};
use kblnk::node::{XmlAttributes, XmlElement, XmlNode};

type Result<T> = std::result::Result<T, ParseError>;

#[test]
fn when_parse_basic_document_then_succeed() -> Result<()> {
    let doc = XmlDocument::parse(
        r#"
            <book xmlns="https://rs.kablunk.com">
                <title>Kablunk</title>
                <author>happymonkey1</author>
            </book>
        "#,
    )?;

    assert!(doc.root().is_some(), "Root node is not parsed");

    let root_node = doc.root().unwrap();
    match root_node {
        XmlNode::Element(element) => {
            assert_eq!(element.name(), "book");
            let xmlns_attr = element.attr("xmlns").expect("xmlns attribute is present");
            assert_eq!(xmlns_attr.value(), "https://rs.kablunk.com");
        }
        other_node => assert!(false, "Unexpected root node: {other_node:?}"),
    }

    let root_children = match root_node {
        XmlNode::Element(element) => element.children(),
        other => {
            assert!(false, "Unexpected node while retrieving children: {other:?}");
            return Err(ParseError::InvalidDocumentError);
        }
    };
    assert_eq!(
        root_children.len(),
        2,
        "Expected root to have 2 children, found {} instead",
        root_children.len(),
    );

    let first_child_node = &root_children[0];
    let first_child_element = match first_child_node {
        XmlNode::Element(element) => {
            assert_eq!(element.name(), "title");
            element
        }
        other_node => {
            assert!(false, "Unexpected node while checking first child: {other_node:?}");
            return Err(ParseError::InvalidDocumentError);
        }
    };

    assert_eq!(first_child_element.children().len(), 1);
    let title_child_node = first_child_element.children().first().expect("Title has child");
    match title_child_node {
        XmlNode::Text(text) => assert_eq!(text, "Kablunk"),
        other_node => assert!(false, "Unexpected node while checking title children: {other_node:?}"),
    }

    let second_child_node = &root_children[1];
    let second_child_element = match second_child_node {
        XmlNode::Element(element) => {
            assert_eq!(element.name(), "author");
            element
        }
        other_node => {
            assert!(false, "Unexpected node while checking first child: {other_node:?}");
            return Err(ParseError::InvalidDocumentError);
        }
    };

    assert_eq!(second_child_element.children().len(), 1);
    let author_child_node = second_child_element.children().first().expect("Author has child");
    match author_child_node {
        XmlNode::Text(text) => assert_eq!(text, "happymonkey1"),
        other_node => assert!(false, "Unexpected node while checking author children: {other_node:?}"),
    }

    Ok(())
}

#[test]
fn document_when_parse_multiple_attribute_name_and_value_then_succeed() -> Result<()> {
    let mut doc = XmlDocument::parse("<data foo=\"bar\" baz=\"qux\" />")?;

    let root = doc
        .root_mut()
        .expect("Root is valid")
        .as_element_mut()
        .expect("Root is element");

    let attributes = root.attributes_mut();
    assert_eq!(attributes.len(), 2);

    let first_attribute = attributes.get("foo");
    assert!(first_attribute.is_some(), "Foo attribute was not parsed");
    assert_eq!(first_attribute.expect("Foo attribute parsed"), "bar");

    let second_attribute = attributes.get("baz");
    assert!(second_attribute.is_some(), "Baz attribute was not parsed");
    assert_eq!(second_attribute.expect("Baz attribute parsed"), "qux");

    Ok(())
}

#[test]
fn when_as_element_with_element_node_then_succeed() {
    let node = XmlNode::new_element("foo".to_string(), None, XmlAttributes::new(), Vec::new());
    let element = node.as_element();
    assert!(element.is_some());
    assert_eq!(element.expect("Node is element").name(), "foo");
}

#[test]
fn when_as_element_with_non_element_node_then_returns_none() {
    let node = XmlNode::new_text("foo".to_string());
    let element = node.as_element();
    assert!(element.is_none());
}

#[test]
fn readme_example_root_is_book() {
    let doc = XmlDocument::parse(
        r#"
    <book xmlns="https://rs.kablunk.com">
        <title>Kablunk</title>
        <author>happymonkey1</author>
    </book>
"#,
    )
    .expect("document parses");
    let root_node = doc.root().expect("Root node is valid").as_element().expect("Root node is element");
    assert_eq!(root_node.name(), "book");
}

#[test]
fn iter_walks_nodes_in_document_order() {
    let doc = XmlDocument::parse("<a><b>x</b><c/>y</a>").expect("document parses");
    let mut walk = doc.iter();
    let mut seen: Vec<String> = Vec::new();
    while let Some(node) = walk.next() {
        seen.push(match node {
            XmlNode::Element(e) => e.name().clone(),
            XmlNode::Text(t) => format!("#{t}"),
            _ => "?".to_string(),
        });
    }
    assert_eq!(seen, vec!["a", "b", "#x", "c", "#y"]);
}

#[test]
fn into_iter_hands_out_elements_with_children() {
    let doc = XmlDocument::parse("<a><b>x</b></a>").expect("document parses");
    let mut walk = doc.into_iter();
    let first = walk.next().expect("root");
    match &first {
        XmlNode::Element(e) => {
            assert_eq!(e.name(), "a");
            assert_eq!(e.children().len(), 1);
        }
        other => panic!("unexpected {other:?}"),
    }
    let mut count = 1;
    while walk.next().is_some() {
        count += 1;
    }
    assert_eq!(count, 3);
}

#[test]
fn empty_document_has_no_root() {
    let doc = XmlDocument::parse("").expect("empty input parses");
    assert!(doc.root().is_none());
    let decl = XmlDocument::parse("<?xml version=\"1.0\"?>").expect("declaration parses");
    assert!(decl.root().is_none());
}

#[test]
fn parse_errors_are_reported() {
    assert!(matches!(XmlDocument::parse("<a></b>"), Err(ParseError::TagMismatch { .. })));
    assert!(matches!(XmlDocument::parse("</a>"), Err(ParseError::UnmatchedCloseTag(_))));
    assert!(matches!(XmlDocument::parse("<a><b>"), Err(ParseError::UnclosedTags(_))));
    assert!(matches!(XmlDocument::parse("<a/><b/>"), Err(ParseError::UnexpectedRoot)));
    assert!(matches!(XmlDocument::parse("<a x=y></a>"), Err(ParseError::InvalidDocumentError)));
    assert!(matches!(XmlDocument::parse("<=a>"), Err(ParseError::UnexpectedToken(_, _))));
}

#[test]
fn element_building_and_queries() {
    let mut e = XmlElement::new("root".to_string(), Some("kb".to_string()), XmlAttributes::new(), Vec::new());
    e.set_attr("k".to_string(), "v".to_string());
    e.set_attr("k".to_string(), "w".to_string());
    assert_eq!(e.attributes().len(), 1);
    assert_eq!(e.attr("k").expect("attribute set").value(), "w");
    assert!(e.attr("missing").is_none());
    e.add_text("hello");
    e.add_element(XmlElement::new("child".to_string(), None, XmlAttributes::new(), Vec::new()));
    e.add_child(XmlNode::new_comment("note".to_string()));
    assert_eq!(e.children().len(), 3);
    assert_eq!(e.elements().len(), 1);
    assert_eq!(e.first_named_child("child").expect("child found").name(), "child");
    assert!(e.first_named_child("nope").is_none());
    assert_eq!(e.namespace().map(|s| s.as_str()), Some("kb"));
    let children = e.take_children();
    assert_eq!(children.len(), 3);
    assert!(e.children().is_empty());
}

#[test]
fn attributes_insert_returns_previous_value() {
    let mut attrs = XmlAttributes::new();
    assert!(attrs.is_empty());
    assert_eq!(attrs.insert("a".to_string(), "1".to_string()), None);
    assert_eq!(attrs.insert("a".to_string(), "2".to_string()), Some("1".to_string()));
    assert!(attrs.contains_key("a"));
    assert!(!attrs.contains_key("b"));
    assert_eq!(attrs.get("a").map(|s| s.as_str()), Some("2"));
    assert_eq!(attrs.len(), 1);
}

#[test]
fn elements_mut_changes_children_in_place() {
    let mut doc = XmlDocument::parse("<a><b/>text<c/></a>").expect("document parses");
    let root = doc.root_mut().expect("root").as_element_mut().expect("element");
    {
        let mut elements = root.elements_mut();
        assert_eq!(elements.len(), 2);
        assert_eq!(elements[0].name(), "b");
        elements[1].set_attr("k".to_string(), "v".to_string());
    }
    let root = doc.root().expect("root").as_element().expect("element");
    assert_eq!(root.children().len(), 3);
    let c = root.first_named_child("c").expect("c is there");
    assert_eq!(c.attr("k").expect("attribute set").value(), "v");
}

#[test]
fn more_parse_errors() {
    assert!(matches!(XmlDocument::parse("text<a/>"), Err(ParseError::ContentOutsideRoot)));
    assert!(matches!(XmlDocument::parse("<!--c-->"), Err(ParseError::EmptyDocument)));
    assert!(matches!(XmlDocument::parse("<a "), Err(ParseError::InvalidStateError(_, _))));
    let stray = LexedXmlDocument::from_nodes(vec![LexedXmlNode::new_attribute("k".to_string(), None)]);
    assert!(matches!(XmlDocument::try_from(stray), Err(ParseError::InvalidParent)));
    let empty = XmlDocument::try_from(LexedXmlDocument::new()).expect("no nodes, no root");
    assert!(empty.root().is_none());
}

#[test]
fn element_text_is_read_back_trimmed() {
    let doc = XmlDocument::parse("<title>  Kablunk rocks \n</title>").expect("document parses");
    let title = doc.root().expect("root").as_element().expect("element");
    assert_eq!(title.name(), "title");
    assert!(title.namespace().is_none());
    assert!(title.attributes().is_empty());
    assert_eq!(title.children().len(), 1);
    assert!(matches!(&title.children()[0], XmlNode::Text(t) if t == "Kablunk rocks"));

    let blank = XmlDocument::parse("<a>   </a>").expect("document parses");
    assert!(blank.root().expect("root").as_element().expect("element").children().is_empty());

    let single = XmlDocument::parse("<kablunk   />").expect("document parses");
    let e = single.root().expect("root").as_element().expect("element");
    assert_eq!(e.name(), "kablunk");
    assert!(e.children().is_empty());
}

#[test]
fn catalog_of_twelve_books_yields_twelve_book_elements() {
    let mut xml = String::from("<?xml version=\"1.0\"?>\n<catalog>\n");
    for i in 1..=12 {
        xml.push_str(&format!(
            "  <book id=\"bk{}\">\n    <author>Author {}</author>\n    <title>Title {}</title>\n    <price>{}.95</price>\n  </book>\n",
            100 + i,
            i,
            i,
            i
        ));
    }
    xml.push_str("</catalog>\n");
    let doc = XmlDocument::parse(&xml).expect("catalog parses");
    let mut walk = doc.iter();
    let mut books = 0;
    let mut elements = 0;
    while let Some(node) = walk.next() {
        if let XmlNode::Element(e) = node {
            elements += 1;
            if e.name().as_str() == "book" {
                books += 1;
            }
        }
    }
    assert_eq!(books, 12);
    assert_eq!(elements, 1 + 12 * 4);
}

#[test]
fn first_named_child_is_the_first_matching_element_child() {
    let doc = XmlDocument::parse("<r>x<a><b k=\"deep\"/></a><b k=\"1\"/><!--b--><b k=\"2\"/></r>").expect("document parses");
    let root = doc.root().expect("root").as_element().expect("element");
    for name in ["a", "b", "c"] {
        let key = |e: &XmlElement| (e.name().clone(), e.attr("k").map(|a| a.value().to_string()));
        let found = root.first_named_child(name).map(key);
        let searched = root.elements().into_iter().find(|e| e.name() == name).map(key);
        assert_eq!(found, searched);
    }
    let b = root.first_named_child("b").expect("a b child");
    assert_eq!(b.attr("k").expect("attribute").value(), "1");
    assert!(root.first_named_child("c").is_none());
}
