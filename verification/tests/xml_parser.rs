use kblnk::error::ParseError;
use kblnk::lexed::{LexedXmlDocument, LexedXmlNode};
use kblnk::parser::{KbXmlParser, QuoteChar, Token};

type Result<T> = std::result::Result<T, ParseError>;

#[test]
fn when_parse_single_tag_then_succeed() {
    let data = "<hello>hi</hello>";

    let mut parser = KbXmlParser::new();

    let doc = parser.parse(data);
    assert!(doc.is_ok());

    let doc = doc.unwrap();
    assert_eq!(doc.len(), 3);

    let open_node = doc.get_node_at(0).cloned().unwrap();
    let expected_open_node_name = String::from("hello");
    assert!(matches!(open_node, LexedXmlNode::TagOpen { .. }));
    match open_node {
        LexedXmlNode::TagOpen { name, namespace } => {
            assert_eq!(name, expected_open_node_name);
            assert_eq!(namespace, None);
        }
        other => assert!(false, "Expected XmlNode::TagOpen, found: {other:?}"),
    }

    let content_node = doc.get_node_at(1).cloned().unwrap();
    let expected_content = "hi".to_string();
    assert!(matches!(content_node, LexedXmlNode::Content { .. }));
    match content_node {
        LexedXmlNode::Content(data) => {
            assert_eq!(data, expected_content);
        }
        other => assert!(false, "Expected XmlNode::Content, found: {other:?}"),
    }

    let close_node = doc.get_node_at(2).cloned().unwrap();
    let expected_close_node_name = String::from("hello");
    assert!(matches!(close_node, LexedXmlNode::TagClose { .. }));
    match close_node {
        LexedXmlNode::TagClose { name, namespace } => {
            assert_eq!(name, expected_close_node_name);
            assert_eq!(namespace, None);
        }
        other => assert!(false, "Expected XmlNode::TagClose, found: {other:?}"),
    }
}

#[test]
fn when_parse_node_with_namespace_then_succeed() -> Result<()> {
    let data = "<kb:hello></kb:hello>";

    let mut parser = KbXmlParser::new();
    let doc = parser.parse(data)?;

    let open_node = doc.get_node_at(0).cloned().unwrap();
    let expected_tag_name = "hello".to_string();
    let expected_tag_namespace = "kb".to_string();

    match open_node {
        LexedXmlNode::TagOpen { name, namespace } => {
            assert_eq!(name, expected_tag_name);

            assert!(namespace.is_some(), "Namespace can not be empty");
            assert_eq!(namespace.unwrap(), expected_tag_namespace);
        }
        other => assert!(false, "Expected XmlNode::TagOpen, found: {other:?}"),
    }

    let close_node = doc.get_node_at(1).cloned().unwrap();
    match close_node {
        LexedXmlNode::TagClose { name, namespace } => {
            assert_eq!(name, expected_tag_name);

            assert!(namespace.is_some(), "Namespace can not be empty");
            assert_eq!(namespace.unwrap(), expected_tag_namespace);
        }
        other => assert!(false, "Expected XmlNode::TagClose, found: {other:?}"),
    }

    Ok(())
}

#[test]
fn when_parse_nested_tags_then_succeed() -> Result<()> {
    let data = "<hello>Hello<world>World</world></hello>";
    let mut parser = KbXmlParser::new();
    let doc = parser.parse(data)?;

    assert_eq!(doc.len(), 6, "Expected 6 nodes, found {} instead. Document={:?}", doc.len(), doc);
    let first_node = doc.get_node_at(0).expect("First node is valid");
    match first_node {
        LexedXmlNode::TagOpen { name, namespace } => {
            assert_eq!(name, &"hello".to_string());
            assert!(namespace.is_none(), "Namespace should be empty")
        }
        other => panic!("Expected LexedXmlNode::TagOpen, found: {other:?}"),
    }

    let second_node = doc.get_node_at(1).expect("Second node is valid");
    match second_node {
        LexedXmlNode::Content(data) => assert_eq!(data, &"Hello".to_string()),
        other => panic!("Expected LexedXmlNode::Content, found: {other:?}"),
    }

    let third_node = doc.get_node_at(2).expect("Third node is valid");
    match third_node {
        LexedXmlNode::TagOpen { name, namespace } => {
            assert_eq!(name, &"world".to_string());
            assert!(namespace.is_none(), "Namespace should be empty")
        }
        other => panic!("Expected LexedXmlNode::TagOpen, found: {other:?}"),
    }

    let fourth_node = doc.get_node_at(3).expect("Fourth node is valid");
    match fourth_node {
        LexedXmlNode::Content(data) => assert_eq!(data, &"World".to_string()),
        other => panic!("Expected LexedXmlNode::Content, found: {other:?}"),
    }

    let fifth_node = doc.get_node_at(4).expect("Fifth node is valid");
    match fifth_node {
        LexedXmlNode::TagClose { name, namespace } => {
            assert_eq!(name, &"world".to_string());
            assert!(namespace.is_none(), "Namespace should be empty")
        }
        other => panic!("Expected LexedXmlNode::TagClose, found: {other:?}"),
    }

    let sixth_node = doc.get_node_at(5).expect("Sixth node is valid");
    match sixth_node {
        LexedXmlNode::TagClose { name, namespace } => {
            assert_eq!(name, &"hello".to_string());
            assert!(namespace.is_none(), "Namespace should be empty")
        }
        other => panic!("Expected LexedXmlNode::TagClose, found: {other:?}"),
    }

    Ok(())
}

#[test]
fn when_parse_self_closing_tag_then_succeed() -> Result<()> {
    let tags = vec!["<kablunk/>", "<kablunk />", "<kablunk                      />"];

    for data in tags {
        let mut parser = KbXmlParser::new();
        let doc = parser.parse(data)?;

        assert_eq!(doc.len(), 1, "Invalid node count parsed from document: {doc:?}");

        let node = doc.get_node_at(0).expect("Node is valid");
        match node {
            LexedXmlNode::TagSelfClosing { name, namespace } => {
                assert_eq!(name, "kablunk");
                assert!(namespace.is_none(), "Namespace should be empty");
            }
            other => panic!("Expected LexedXmlNode::TagSelfClosing, found: {other:?}"),
        }
    }

    Ok(())
}

#[test]
fn when_parse_attribute_name_and_value_then_succeed() -> Result<()> {
    let data = "<data foo=\"bar\"></data>";
    let mut parser = KbXmlParser::new();
    let doc = parser.parse(data)?;

    assert_eq!(doc.len(), 3);

    let first_node = doc.get_node_at(0).expect("First node valid");
    match first_node {
        LexedXmlNode::TagOpen { name, namespace } => {
            assert_eq!(name, "data");
            assert!(namespace.is_none(), "Namespace should be empty")
        }
        other => panic!("Expected LexedXmlNode::TagOpen, found: {other:?}"),
    }

    let second_node = doc.get_node_at(1).expect("Second node valid");
    match second_node {
        LexedXmlNode::Attribute { key, value } => {
            assert_eq!(key, "foo");
            assert_eq!(value.clone().unwrap(), "bar");
        }
        other => panic!("Expected LexedXmlNode::Attribute, found: {other:?}"),
    }

    let third_node = doc.get_node_at(2).expect("Third node valid");
    match third_node {
        LexedXmlNode::TagClose { name, namespace } => {
            assert_eq!(name, "data");
            assert!(namespace.is_none(), "Namespace should be empty")
        }
        other => panic!("Expected LexedXmlNode::TagClose, found: {other:?}"),
    }

    Ok(())
}

#[test]
fn parser_when_parse_multiple_attribute_name_and_value_then_succeed() -> Result<()> {
    let data = "<data foo=\"bar\" baz=\"qux\" />";
    let mut parser = KbXmlParser::new();
    let doc = parser.parse(data)?;

    assert_eq!(doc.len(), 4, "Expected document to have 3 nodes: {doc:?}");

    let expected_doc = LexedXmlDocument::from_nodes(vec![
        LexedXmlNode::TagOpen { name: "data".to_string(), namespace: None },
        LexedXmlNode::Attribute { key: "foo".to_string(), value: Some("bar".to_string()) },
        LexedXmlNode::Attribute { key: "baz".to_string(), value: Some("qux".to_string()) },
        LexedXmlNode::TagClose { name: String::new(), namespace: None },
    ]);

    assert_eq!(doc, expected_doc);

    Ok(())
}

#[test]
fn when_parse_comment_then_succeed() -> Result<()> {
    let comments = vec![
        "<!---->",
        "<!-- -->",
        "<!--foo-->",
        "<!-- foo-->",
        "<!--foo -->",
        "<!-- foo -->",
        "<!--  -------------- -- ------ -->",
        r#"<!--
                Source: https://learn.microsoft.com/en-us/previous-versions/windows/desktop/ms762271(v=vs.85)
                Copyright © Microsoft.
                Used under the Microsoft Docs license (MIT).
            -->
            "#,
    ];

    for (index, tag) in comments.iter().enumerate() {
        let mut parser = KbXmlParser::new();
        let doc = parser.parse(tag)?;

        assert_eq!(doc.len(), 1, "Expected to find comment node in document (index={index}): {doc:?}");

        let comment_node = doc.get_node_at(0).expect("Valid node in comment document");
        match comment_node {
            LexedXmlNode::Comment(comment) => {
                let expected_comment = match index {
                    0 => "",
                    1 => " ",
                    2 => "foo",
                    3 => " foo",
                    4 => "foo ",
                    5 => " foo ",
                    6 => "  -------------- -- ------ ",
                    7 => {
                        r#"
                Source: https://learn.microsoft.com/en-us/previous-versions/windows/desktop/ms762271(v=vs.85)
                Copyright © Microsoft.
                Used under the Microsoft Docs license (MIT).
            "#
                    }
                    _ => panic!("Unexpected comment tag index"),
                };

                assert_eq!(comment, expected_comment)
            }
            other => panic!("Expected LexedXmlNode::Comment, found: {other:?}"),
        }
    }

    Ok(())
}

#[test]
fn when_parse_xml_declaration_then_consume_without_producing_node() -> Result<()> {
    let data = "<?xml version=\"1.0\"?>";
    let mut parser = KbXmlParser::new();
    let doc = parser.parse(data)?;

    assert_eq!(doc.len(), 0);

    Ok(())
}

#[test]
fn char_to_token_classes() {
    assert_eq!(Token::char_to_token(' '), Token::Space);
    assert_eq!(Token::char_to_token('\n'), Token::Space);
    assert_eq!(Token::char_to_token('<'), Token::LessThan);
    assert_eq!(Token::char_to_token('>'), Token::GreaterThan);
    assert_eq!(Token::char_to_token('/'), Token::Slash);
    assert_eq!(Token::char_to_token(':'), Token::Colon);
    assert_eq!(Token::char_to_token('='), Token::Equal);
    assert_eq!(Token::char_to_token('\''), Token::Quote);
    assert_eq!(Token::char_to_token('"'), Token::Quote);
    assert_eq!(Token::char_to_token('!'), Token::Exclamation);
    assert_eq!(Token::char_to_token('?'), Token::Question);
    assert_eq!(Token::char_to_token('-'), Token::Hyphen);
    assert_eq!(Token::char_to_token('x'), Token::Char);
}

#[test]
fn unquoted_attribute_value_is_an_error() {
    let mut parser = KbXmlParser::new();
    assert!(matches!(parser.parse("<a x=y></a>"), Err(ParseError::InvalidDocumentError)));
}

#[test]
fn lexed_node_accessors() {
    let open = LexedXmlNode::new_tag_open("n".to_string(), Some("ns".to_string()));
    assert_eq!(open.get_name().map(|s| s.as_str()), Some("n"));
    assert!(open.has_namespace());
    assert_eq!(open.get_namespace().map(|s| s.as_str()), Some("ns"));
    assert!(!open.is_close_tag());
    let close = LexedXmlNode::new_tag_close("n".to_string(), None);
    assert!(close.is_close_tag());
    assert!(!close.has_namespace());
    let content = LexedXmlNode::new_content("text".to_string());
    assert!(content.get_name().is_none());
    let mut doc = LexedXmlDocument::new();
    doc.push_node(open);
    doc.push_node(close);
    assert_eq!(doc.len(), 2);
    assert_eq!(doc.get_nodes().len(), 2);
    assert!(doc.get_node_at(2).is_none());
}

#[test]
fn quote_characters() {
    assert_eq!(QuoteChar::try_from('\'').ok(), Some(QuoteChar::Single));
    assert_eq!(QuoteChar::try_from('"').ok(), Some(QuoteChar::Double));
    assert!(matches!(QuoteChar::try_from('x'), Err(ParseError::UnexpectedCharacterError('x'))));
}
