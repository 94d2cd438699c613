use bb::{
    Annotated, Atom, Blob, Block, Item, Raw,
    parse_annotation_text, parse_text, tokenize, Annotation, BlockStyle, Delimiter, Element, Entity,
    Expected, ParseError, Top, TokenKind, MAX_DEPTH,
};

fn atom(e: &Element) -> &str {
    match e {
        Element::Atom(a) => &a.content,
        other => panic!("expected an atom, got {:?}", other),
    }
}

fn nested(e: &Element) -> &Annotation {
    match e {
        Element::Annotation(a) => a,
        other => panic!("expected an annotation, got {:?}", other),
    }
}

fn raw(e: &Entity) -> &str {
    match e {
        Entity::Raw(r) => &r.content,
        other => panic!("expected raw text, got {:?}", other),
    }
}

fn doc(input: &str) -> Top {
    parse_text(input).unwrap()
}

#[test]
fn annotation() {
    let a = parse_annotation_text("(w [ dw wea (x 10.0) ])").unwrap();
    assert_eq!(a.delimiter, Delimiter::Paren);
    assert_eq!(a.elements.len(), 2);
    assert_eq!(atom(&a.elements[0]), "w");
    let b = nested(&a.elements[1]);
    assert_eq!(b.delimiter, Delimiter::Bracket);
    assert_eq!(b.elements.len(), 3);
    assert_eq!(atom(&b.elements[0]), "dw");
    assert_eq!(atom(&b.elements[1]), "wea");
    let c = nested(&b.elements[2]);
    assert_eq!(c.delimiter, Delimiter::Paren);
    assert_eq!(c.elements.len(), 2);
    assert_eq!(atom(&c.elements[0]), "x");
    assert_eq!(atom(&c.elements[1]), "10.0");
}

#[test]
fn annotation_without_spaces() {
    let a = parse_annotation_text("(w [dw wea (x 10.0)])").unwrap();
    let c = nested(&nested(&a.elements[1]).elements[2]);
    assert_eq!(atom(&c.elements[1]), "10.0");
}

#[test]
fn rick_roll() {
    let top = doc(
        "@@title How did we end up here?\n@block\n    @@(never gonna [give (you up)])\n    Is there life on Mars?\n@end",
    );
    assert_eq!(top.entities.len(), 2);
    assert_eq!(raw(&top.entities[0]), "@@title How did we end up here?\n");
    let b = match &top.entities[1] {
        Entity::Block(b) => b,
        other => panic!("expected a block, got {:?}", other),
    };
    assert!(b.attached.is_empty());
    assert_eq!(b.inner.name.content, "block");
    assert_eq!(b.inner.style, BlockStyle::Incontext);
    let body = &b.inner.top.entities;
    assert_eq!(body.len(), 2);
    let a = match &body[0] {
        Entity::IncontextAnnotation(a) => a,
        other => panic!("expected an annotation, got {:?}", other),
    };
    assert_eq!(a.delimiter, Delimiter::Paren);
    assert_eq!(atom(&a.elements[0]), "never");
    assert_eq!(atom(&a.elements[1]), "gonna");
    let g = nested(&a.elements[2]);
    assert_eq!(g.delimiter, Delimiter::Bracket);
    assert_eq!(atom(&g.elements[0]), "give");
    let y = nested(&g.elements[1]);
    assert_eq!(atom(&y.elements[0]), "you");
    assert_eq!(atom(&y.elements[1]), "up");
    assert_eq!(raw(&body[1]), "Is there life on Mars?\n");
}

#[test]
fn item_name_without_payload_is_prose() {
    let top = doc("@@title How did we end up here?\n");
    assert_eq!(top.entities.len(), 1);
    assert_eq!(raw(&top.entities[0]), "@@title How did we end up here?\n");
    let top = doc("@@title\n\n@@name  words  \nmore");
    let texts: Vec<&str> = top.entities.iter().map(raw).collect();
    assert_eq!(texts, vec!["@@title\n", "@@name  words  \nmore"]);
    let top = doc("@@n(x) @@n y");
    assert!(matches!(top.entities[0], Entity::Item(_)));
    assert_eq!(raw(&top.entities[1]), "@@n y");
    assert!(matches!(
        parse_text("@@n [y]").unwrap_err(),
        ParseError::Unexpected { found: TokenKind::BracketOpen, expected: Expected::Entity, .. }
    ));
    let top = doc("@@(a)\n@@title words");
    assert!(matches!(top.entities[0], Entity::IncontextAnnotation(_)));
    assert_eq!(raw(&top.entities[1]), "@@title words");
    assert_eq!(
        parse_text("@@(a)\n@@(b)\n@@title words").unwrap_err(),
        ParseError::Dangling { start: 0, end: 2 }
    );
}

#[test]
fn raw_text_is_verbatim() {
    let top = doc("  hello,   world #1 \u{e9}\nsecond  line\n\n");
    assert_eq!(top.entities.len(), 1);
    assert_eq!(raw(&top.entities[0]), "hello,   world #1 \u{e9}\nsecond  line\n");
}

#[test]
fn attachment_order() {
    let top = doc("@@(a) @@[b]\n@@(c)\n@@item(x y)");
    assert_eq!(top.entities.len(), 1);
    let it = match &top.entities[0] {
        Entity::Item(it) => it,
        other => panic!("expected an item, got {:?}", other),
    };
    let names: Vec<&str> = it.attached.iter().map(|a| atom(&a.elements[0])).collect();
    assert_eq!(names, vec!["a", "b", "c"]);
    assert_eq!(it.attached[1].delimiter, Delimiter::Bracket);
    assert_eq!(it.inner.name.content, "item");
    assert_eq!(it.inner.annotation.elements.len(), 2);
}

#[test]
fn attachment_to_block_and_blob() {
    let top = doc("@@(k)\n@b{x}\n@@(m)@@@ raw @@ text@@@");
    assert_eq!(top.entities.len(), 2);
    match &top.entities[0] {
        Entity::Block(b) => {
            assert_eq!(b.attached.len(), 1);
            assert_eq!(b.inner.style, BlockStyle::Braced);
            assert_eq!(raw(&b.inner.top.entities[0]), "x");
        },
        other => panic!("expected a block, got {:?}", other),
    }
    match &top.entities[1] {
        Entity::Blob(b) => {
            assert_eq!(b.attached.len(), 1);
            assert_eq!(b.inner.content, " raw @@ text");
        },
        other => panic!("expected a blob, got {:?}", other),
    }
}

#[test]
fn dangling_annotations_are_errors() {
    assert_eq!(parse_text("@@(a) @@(b)").unwrap_err(), ParseError::Dangling { start: 0, end: 2 });
    assert_eq!(parse_text("x @@(a)\n @@(b) text").unwrap_err(), ParseError::Dangling { start: 2, end: 4 });
    assert_eq!(parse_text("@q{@@(a) @@(b)}").unwrap_err(), ParseError::Dangling { start: 3, end: 5 });
}

#[test]
fn single_annotation_before_text_stands_alone() {
    let top = doc("@@(a)\ntext");
    assert!(matches!(top.entities[0], Entity::IncontextAnnotation(_)));
    assert_eq!(raw(&top.entities[1]), "text");
}

#[test]
fn block_styles() {
    let top = doc("@d(x)@b{y}@i z @end");
    let styles: Vec<BlockStyle> = top
        .entities
        .iter()
        .map(|e| match e {
            Entity::Block(b) => b.inner.style,
            other => panic!("expected a block, got {:?}", other),
        })
        .collect();
    assert_eq!(styles, vec![BlockStyle::Delimited, BlockStyle::Braced, BlockStyle::Incontext]);
}

#[test]
fn nested_blocks() {
    let top = doc("@outer\n@inner{a @deep(b)}\n@end");
    let outer = match &top.entities[0] {
        Entity::Block(b) => b,
        other => panic!("{:?}", other),
    };
    let inner = match &outer.inner.top.entities[0] {
        Entity::Block(b) => b,
        other => panic!("{:?}", other),
    };
    assert_eq!(inner.inner.name.content, "inner");
    assert_eq!(raw(&inner.inner.top.entities[0]), "a");
    assert!(matches!(inner.inner.top.entities[1], Entity::Block(_)));
}

#[test]
fn blob_fences() {
    let top = doc("@@@@ a @@@ b @@@@@ c @@@@");
    match &top.entities[0] {
        Entity::Blob(b) => assert_eq!(b.inner.content, " a @@@ b @@@@@ c "),
        other => panic!("{:?}", other),
    }
    assert_eq!(
        parse_text("@@@ a @@@@").unwrap_err(),
        ParseError::Unclosed { start: 0, end: 3, found: None, expected: Expected::Fence(3) }
    );
}

#[test]
fn escape_never_starts_a_block() {
    let top = doc("\\@x y");
    assert_eq!(top.entities.len(), 1);
    assert_eq!(raw(&top.entities[0]), "\\@x y");
    let top = doc("@code{\\@\\@atom}\n");
    match &top.entities[0] {
        Entity::Block(b) => {
            assert_eq!(b.inner.style, BlockStyle::Braced);
            assert_eq!(raw(&b.inner.top.entities[0]), "\\@\\@atom");
        },
        other => panic!("{:?}", other),
    }
}

#[test]
fn unbalanced_groups_name_the_opener() {
    assert_eq!(
        parse_annotation_text("(a [b)").unwrap_err(),
        ParseError::Unclosed {
            start: 3,
            end: 4,
            found: Some(TokenKind::ParenClose),
            expected: Expected::Token(TokenKind::BracketClose),
        }
    );
    assert_eq!(
        parse_annotation_text("(a (b)").unwrap_err(),
        ParseError::Unclosed {
            start: 0,
            end: 1,
            found: None,
            expected: Expected::Token(TokenKind::ParenClose),
        }
    );
    assert_eq!(
        parse_text("@b{ x").unwrap_err(),
        ParseError::Unclosed {
            start: 2,
            end: 3,
            found: None,
            expected: Expected::Token(TokenKind::BraceClose),
        }
    );
    assert_eq!(
        parse_text("@b\nx").unwrap_err(),
        ParseError::Unclosed {
            start: 0,
            end: 1,
            found: None,
            expected: Expected::Token(TokenKind::AtEnd),
        }
    );
    assert_eq!(
        parse_text("@b( x }").unwrap_err(),
        ParseError::Unclosed {
            start: 2,
            end: 3,
            found: Some(TokenKind::BraceClose),
            expected: Expected::Token(TokenKind::ParenClose),
        }
    );
}

#[test]
fn stray_tokens_are_unexpected() {
    assert_eq!(
        parse_text("a ) b").unwrap_err(),
        ParseError::Unexpected { start: 2, end: 3, found: TokenKind::ParenClose, expected: Expected::Entity }
    );
    assert_eq!(
        parse_annotation_text("(a @)").unwrap_err(),
        ParseError::Unexpected { start: 3, end: 4, found: TokenKind::At, expected: Expected::Element }
    );
    assert_eq!(
        parse_annotation_text("(a) b").unwrap_err(),
        ParseError::Unexpected { start: 3, end: 4, found: TokenKind::WhiteSpace, expected: Expected::End }
    );
    assert_eq!(
        parse_text("@ x").unwrap_err(),
        ParseError::Unexpected { start: 1, end: 2, found: TokenKind::WhiteSpace, expected: Expected::Token(TokenKind::Atom) }
    );
    assert_eq!(parse_text("x @@").unwrap_err(), ParseError::UnexpectedEnd { expected: Expected::NameOrPayload });
    assert_eq!(parse_annotation_text("").unwrap_err(), ParseError::UnexpectedEnd { expected: Expected::Payload });
}

#[test]
fn empty_document() {
    assert!(doc("").entities.is_empty());
    assert!(doc(" \n\t\n").entities.is_empty());
}

#[test]
fn deep_nesting_is_rejected_not_crashed() {
    let depth = 10_000;
    let input = format!("{}{}", "(".repeat(depth), ")".repeat(depth));
    assert_eq!(
        parse_annotation_text(&input).unwrap_err(),
        ParseError::TooDeep { start: MAX_DEPTH, end: MAX_DEPTH + 1 }
    );
    let input = format!("{}{}", "(".repeat(MAX_DEPTH), ")".repeat(MAX_DEPTH));
    assert!(parse_annotation_text(&input).is_ok());
    let blocks = format!("{}{}", "@b{".repeat(depth), "}".repeat(depth));
    assert!(matches!(parse_text(&blocks), Err(ParseError::TooDeep { .. })));
}

#[test]
fn tokenize_then_parse_matches_parse_text() {
    let input = "@@(a)@@it[b] tail";
    let toks = tokenize(input).unwrap();
    let top = bb::parse(&toks).unwrap();
    assert_eq!(top.entities.len(), 2);
    assert_eq!(raw(&top.entities[1]), "tail");
    assert_eq!(parse_text(input).unwrap().entities.len(), 2);
}

#[test]
fn trees_clone_deeply() {
    let top = doc("@@(k [v])\n@b{x @@i(y) @@@ z @@@}\ntext");
    let copy = top.clone();
    assert_eq!(format!("{:?}", copy), format!("{:?}", top));
    let a = parse_annotation_text("(a [b (c)])").unwrap();
    assert_eq!(format!("{:?}", a.clone()), format!("{:?}", a));
}

#[test]
fn values_build_through_from() {
    let a = Atom::from("w".to_string());
    assert_eq!(a.content, "w");
    let ann = Annotation::from((Delimiter::Bracket, vec![Element::from(a)]));
    assert_eq!(ann.delimiter, Delimiter::Bracket);
    assert_eq!(atom(&ann.elements[0]), "w");
    let item = Item::from((Atom::from("n".to_string()), ann.clone()));
    let e = Entity::from(Annotated::from((std::collections::VecDeque::new(), item)));
    assert!(matches!(e, Entity::Item(_)));
    let blob = Entity::from(Annotated::from((std::collections::VecDeque::new(), Blob::from("b".to_string()))));
    assert!(matches!(blob, Entity::Blob(_)));
    let top = Top::from(vec![Entity::from(Raw::from("x".to_string())), Entity::from(ann)]);
    assert_eq!(raw(&top.entities[0]), "x");
    assert!(matches!(top.entities[1], Entity::IncontextAnnotation(_)));
    let block = Block::from((BlockStyle::Braced, Atom::from("b".to_string()), top));
    let e = Entity::from(Annotated::from((std::collections::VecDeque::new(), block)));
    assert!(matches!(e, Entity::Block(_)));
}
