//! Behavioural tests for the element tree, its parser and its serializer,
//! run against the real `xml` collaborator.

use xml_tree::{Element, ElemContent, Name, XmlToken, XmlError};

fn text(s: &str) -> XmlToken {
    XmlToken::Text(s.to_string())
}

fn start(local: &str) -> XmlToken {
    XmlToken::Start(Name::new_no_ns(local.to_string()))
}

fn end(local: &str) -> XmlToken {
    XmlToken::End(Name::new_no_ns(local.to_string()))
}

#[test]
fn name_equality_ignores_prefix() {
    let a = Name::new("foo".to_string(), "urn:x".to_string(), "p".to_string());
    let b = Name::new("foo".to_string(), "urn:x".to_string(), "q".to_string());
    assert!(a == b);
}

#[test]
fn name_equality_checks_namespace() {
    let a = Name::new("foo".to_string(), "urn:x".to_string(), "p".to_string());
    let b = Name::new("foo".to_string(), "urn:y".to_string(), "p".to_string());
    let c = Name::new_no_ns("foo".to_string());
    assert!(a != b);
    assert!(a != c);
}

#[test]
fn name_equality_checks_local_name() {
    let a = Name::new_no_ns("foo".to_string());
    let b = Name::new_no_ns("bar".to_string());
    assert!(a != b);
}

#[test]
fn basic_parse() {
    let root = Element::from_string("<a><b>hi</b></a>").unwrap();
    assert_eq!(root.name.local_name, "a");
    assert_eq!(root.name.namespace, None);
    assert_eq!(root.content.len(), 1);
    match &root.content[0] {
        ElemContent::Child(b) => {
            assert_eq!(b.name.local_name, "b");
            assert_eq!(b.content.len(), 1);
            match &b.content[0] {
                ElemContent::Text(t) => assert_eq!(t, "hi"),
                other => panic!("expected text, got {:?}", text_kind(other)),
            }
        },
        other => panic!("expected child, got {:?}", text_kind(other)),
    }
}

fn text_kind(c: &ElemContent) -> &'static str {
    match c {
        ElemContent::Text(_) => "text",
        ElemContent::Child(_) => "child",
    }
}

#[test]
fn mixed_content_preserved() {
    let root = Element::from_string("<a>x<b/>y</a>").unwrap();
    assert_eq!(root.name.local_name, "a");
    assert_eq!(root.content.len(), 3);
    match &root.content[0] {
        ElemContent::Text(t) => assert_eq!(t, "x"),
        _ => panic!("expected leading text"),
    }
    match &root.content[1] {
        ElemContent::Child(b) => {
            assert_eq!(b.name.local_name, "b");
            assert_eq!(b.content.len(), 0);
        },
        _ => panic!("expected child between the text runs"),
    }
    match &root.content[2] {
        ElemContent::Text(t) => assert_eq!(t, "y"),
        _ => panic!("expected trailing text"),
    }
}

#[test]
fn text_chunks_are_separate_items() {
    // The entity reference splits the character data into distinct events,
    // and each event stays a separate content item.
    let root = Element::from_string("<a>x&amp;y</a>").unwrap();
    let mut joined = String::new();
    for item in &root.content {
        match item {
            ElemContent::Text(t) => joined.push_str(t),
            _ => panic!("expected only text"),
        }
    }
    assert_eq!(joined, "x&y");
}

#[test]
fn nearest_match_removal() {
    // The token sequence of `<a><b></a></b>`. The end tag `a` removes the
    // nearest match scanning from the top: `a` itself at the bottom, which
    // makes the still-open `b` its parent. The end tag `b` then completes
    // `b` as the root holding the child `a`.
    let tokens = vec![start("a"), start("b"), end("a"), end("b")];
    let root = Element::parse_tokens(tokens).unwrap();
    assert_eq!(root.name.local_name, "b");
    assert_eq!(root.content.len(), 1);
    match &root.content[0] {
        ElemContent::Child(a) => {
            assert_eq!(a.name.local_name, "a");
            assert_eq!(a.content.len(), 0);
        },
        _ => panic!("expected the orphaned element as a child"),
    }
}

#[test]
fn nearest_match_input_is_a_tokenizer_fault() {
    // Through the real tokenizer the same document never reaches the tree
    // builder: the collaborator rejects the mismatched closing tag.
    match Element::from_string("<a><b></a></b>") {
        Err(XmlError::StreamFault { message, .. }) => {
            assert!(!message.is_empty());
        },
        other => panic!("expected a stream fault, got {:?}", kind_of(&other)),
    }
}

fn kind_of(r: &Result<Element, XmlError>) -> &'static str {
    match r {
        Ok(_) => "ok",
        Err(XmlError::StreamFault { .. }) => "stream fault",
        Err(XmlError::EmptyOrInvalidDocument) => "empty or invalid document",
        Err(XmlError::MultipleRootsDetected) => "multiple roots",
        Err(XmlError::TextDecodingFault) => "text decoding fault",
    }
}

#[test]
fn empty_input_fails_with_empty_document() {
    match Element::from_string("") {
        Err(XmlError::EmptyOrInvalidDocument) => {},
        other => panic!("expected the empty-document error, got {:?}", kind_of(&other)),
    }
}

#[test]
fn no_tokens_fails_with_empty_document() {
    match Element::parse_tokens(Vec::new()) {
        Err(XmlError::EmptyOrInvalidDocument) => {},
        other => panic!("expected the empty-document error, got {:?}", kind_of(&other)),
    }
}

#[test]
fn unclosed_root_is_a_stream_fault() {
    match Element::from_string("<a>") {
        Err(XmlError::StreamFault { message, .. }) => {
            assert!(!message.is_empty());
        },
        other => panic!("expected a stream fault, got {:?}", kind_of(&other)),
    }
}

#[test]
fn second_root_fails_with_multiple_roots() {
    let tokens = vec![start("a"), end("a"), start("b"), end("b")];
    match Element::parse_tokens(tokens) {
        Err(XmlError::MultipleRootsDetected) => {},
        other => panic!("expected the multiple-roots error, got {:?}", kind_of(&other)),
    }
}

#[test]
fn ignorable_tokens_are_skipped() {
    let tokens = vec![XmlToken::Ignorable, start("a"), text("hi"), XmlToken::Ignorable, end("a")];
    let root = Element::parse_tokens(tokens).unwrap();
    assert_eq!(root.name.local_name, "a");
    assert_eq!(root.content.len(), 1);
}

#[test]
fn whitespace_between_tags_is_ignored() {
    let root = Element::from_string("<a>\n  <b/>\n</a>").unwrap();
    assert_eq!(root.content.len(), 1);
    match &root.content[0] {
        ElemContent::Child(b) => assert_eq!(b.name.local_name, "b"),
        _ => panic!("expected only the child element"),
    }
}

#[test]
fn namespace_prefix_serialization() {
    let mut e = Element::new("foo".to_string(), "urn:x".to_string(), "p".to_string());
    e.push_text("hi".to_string());
    let out = e.to_text(false).unwrap();
    assert!(out.contains("<p:foo xmlns:p=\"urn:x\">"), "unexpected rendering: {out}");
    assert!(out.contains("</p:foo>"), "unexpected rendering: {out}");
}

#[test]
fn default_namespace_serialization() {
    let mut e = Element::new_default_ns("foo".to_string(), "urn:x".to_string());
    e.push_text("hi".to_string());
    let out = e.to_text(false).unwrap();
    assert!(out.contains("<foo xmlns=\"urn:x\">"), "unexpected rendering: {out}");
    assert!(out.contains("</foo>"), "unexpected rendering: {out}");
}

#[test]
fn pretty_and_compact_agree_after_stripping_whitespace() {
    let mut root = Element::new_no_ns("a".to_string());
    let mut b = Element::new_no_ns("b".to_string());
    b.push_text("hi".to_string());
    root.push_child(b);
    root.push_child(Element::new_no_ns("c".to_string()));
    let compact = root.to_text(false).unwrap();
    let pretty = root.to_text(true).unwrap();
    let strip = |s: &str| s.chars().filter(|c| !c.is_whitespace()).collect::<String>();
    assert_eq!(strip(&compact), strip(&pretty));
    assert_ne!(compact, pretty);
}

#[test]
fn round_trip_through_text() {
    let mut root = Element::new_default_ns("a".to_string(), "urn:x".to_string());
    root.push_text("x".to_string());
    let mut b = Element::new("c".to_string(), "urn:y".to_string(), "q".to_string());
    b.push_text("hi".to_string());
    root.push_child(b);
    root.push_text("y".to_string());
    let out = root.to_text(false).unwrap();
    let back = Element::from_string(&out).unwrap();
    assert!(back.deep_eq(&root), "round trip changed the tree: {out}");
}

#[test]
fn round_trip_through_tokens() {
    let mut root = Element::new_no_ns("a".to_string());
    root.push_text("x".to_string());
    let mut b = Element::new("c".to_string(), "urn:y".to_string(), "q".to_string());
    b.push_text("hi".to_string());
    root.push_child(b);
    root.push_text("y".to_string());
    let back = Element::parse_tokens(root.to_tokens()).unwrap();
    assert!(back.deep_eq(&root));
}

#[test]
fn to_tokens_lists_the_walk() {
    let mut root = Element::new_no_ns("a".to_string());
    root.push_text("x".to_string());
    root.push_child(Element::new_no_ns("b".to_string()));
    let tokens = root.to_tokens();
    assert_eq!(tokens.len(), 5);
    assert!(matches!(&tokens[0], XmlToken::Start(n) if n.local_name == "a"));
    assert!(matches!(&tokens[1], XmlToken::Text(t) if t == "x"));
    assert!(matches!(&tokens[2], XmlToken::Start(n) if n.local_name == "b"));
    assert!(matches!(&tokens[3], XmlToken::End(n) if n.local_name == "b"));
    assert!(matches!(&tokens[4], XmlToken::End(n) if n.local_name == "a"));
}

#[test]
fn first_child_where_finds_the_first_match() {
    let mut root = Element::new_no_ns("a".to_string());
    root.push_text("x".to_string());
    root.push_child(Element::new_no_ns("b".to_string()));
    let mut c1 = Element::new_no_ns("c".to_string());
    c1.push_text("first".to_string());
    root.push_child(c1);
    let mut c2 = Element::new_no_ns("c".to_string());
    c2.push_text("second".to_string());
    root.push_child(c2);
    let found = root.first_child_where(|ch| ch.name.local_name == "c").unwrap();
    assert_eq!(found.content.len(), 1);
    assert!(matches!(&found.content[0], ElemContent::Text(t) if t == "first"));
    assert!(root.first_child_where(|ch| ch.name.local_name == "zzz").is_none());
}

#[test]
fn deep_eq_sees_prefix_and_order() {
    let a = Element::new("foo".to_string(), "urn:x".to_string(), "p".to_string());
    let b = Element::new("foo".to_string(), "urn:x".to_string(), "q".to_string());
    assert!(!a.deep_eq(&b));
    let mut m1 = Element::new_no_ns("a".to_string());
    m1.push_text("x".to_string());
    m1.push_child(Element::new_no_ns("b".to_string()));
    let mut m2 = Element::new_no_ns("a".to_string());
    m2.push_child(Element::new_no_ns("b".to_string()));
    m2.push_text("x".to_string());
    assert!(!m1.deep_eq(&m2));
    assert!(m1.deep_eq(&m1));
}
