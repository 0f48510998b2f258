use yoyogay::gamemaker::{GameMakerObject, GameMakerProject, GameMakerScript};
use yoyogay::organizer::object::{build_object, split_object_lines, ObjectParseError};
use yoyogay::organizer::YoyogayProject;
use yoyogay::parser::types::{TypeParsingErrorData, YoyogayType};
use yoyogay::parser::ParseErrorData;
use yoyogay::tokenizer::{tokenize, TokenizeError};
use yoyogay::ast::NodeData;
use yoyogay::text_data::TextPos;
use yoyogay::Boxxable;

fn lines(text: &str) -> Vec<String> {
    text.lines().map(|l| l.to_string()).collect()
}

#[test]
fn object_file_is_split_into_event_blocks() {
    let (id, blocks) = split_object_lines(&lines("#id player\nignored\n#event create\na = 1;\nb = 2;\n#event step\nc = 3;")).unwrap();
    assert_eq!(id, "player");
    assert_eq!(blocks.len(), 2);
    assert_eq!(blocks[0].name, "create");
    assert_eq!(blocks[0].text, "a = 1;\nb = 2;\n");
    assert_eq!(blocks[0].line, 3);
    assert_eq!(blocks[1].name, "step");
    assert_eq!(blocks[1].text, "c = 3;");
    assert_eq!(blocks[1].line, 6);
}

#[test]
fn object_file_needs_an_identification() {
    match split_object_lines(&lines("#event create\na = 1;")) {
        Err(ObjectParseError::NoIdentification(l)) => assert_eq!(l, "#event create"),
        _ => panic!("expected a missing identification"),
    }
    match split_object_lines(&Vec::new()) {
        Err(ObjectParseError::NoIdentification(l)) => assert_eq!(l, ""),
        _ => panic!("expected a missing identification"),
    }
}

#[test]
fn object_is_built_from_known_events() {
    let (id, blocks) = split_object_lines(&lines("#id o\n#event draw\nx = 1;\n#event step\ny = 2;\n#event draw\nz = 3;")).unwrap();
    let obj = build_object(id, blocks).unwrap();
    assert_eq!(obj.id, "o");
    assert!(obj.create.is_none() && obj.draw_gui.is_none() && obj.clean_up.is_none());
    let draw = obj.draw.unwrap();
    assert_eq!(draw.src, "z = 3;");
    assert_eq!(draw.tokens.len(), 4);
    assert!(matches!(&*draw.ast.data, NodeData::Program(s) if s.len() == 1));
    assert_eq!(obj.step.unwrap().src, "y = 2;\n");
}

#[test]
fn unknown_event_fails_the_object() {
    let (id, blocks) = split_object_lines(&lines("#id o\n#event create\nx = 1;\n#event jump\ny = 2;")).unwrap();
    match build_object(id, blocks) {
        Err(ObjectParseError::UnknownEvent(text, line)) => {
            assert_eq!(text, "y = 2;");
            assert_eq!(line, 4);
        },
        _ => panic!("expected an unknown event"),
    }
}

#[test]
fn event_errors_are_reported() {
    let (id, blocks) = split_object_lines(&lines("#id o\n#event create\nx = $;")).unwrap();
    match build_object(id, blocks) {
        Err(ObjectParseError::TokenizeError(e)) => {
            assert_eq!(e, TokenizeError::UnknownCharacter('$', TextPos { line: 1, pos: 4 }))
        },
        _ => panic!("expected a tokenizer error"),
    }
    let (id, blocks) = split_object_lines(&lines("#id o\n#event clean_up\nx = ;")).unwrap();
    match build_object(id, blocks) {
        Err(ObjectParseError::ParseError(e)) => assert_eq!(e.data, ParseErrorData::UnexpectedEOF),
        _ => panic!("expected a parse error"),
    }
}

#[test]
fn engine_project_from_objects() {
    let (id, blocks) = split_object_lines(&lines("#id hero\n#event create\nhp = 3;\n#event clean_up\nhp = 0;")).unwrap();
    let project = YoyogayProject { objects: vec![build_object(id, blocks).unwrap()] };
    let gm = GameMakerProject::new_from_yoyogay_project(&project);
    assert_eq!(gm.objects.len(), 1);
    assert!(gm.scripts.is_empty());
    let o = &gm.objects[0];
    assert_eq!(o.name, "hero");
    assert_eq!(o.info, "{}");
    assert_eq!(o.create.as_deref(), Some("hp = 3;\n"));
    assert_eq!(o.clean_up.as_deref(), Some("hp = 0;"));
    assert!(o.draw.is_none() && o.step.is_none() && o.draw_gui.is_none());
}

#[test]
fn engine_constructors_keep_their_fields() {
    let o = GameMakerObject::new("a".to_string(), "{}".to_string(), None, Some("s".to_string()), None, None, None);
    assert_eq!(o.step.as_deref(), Some("s"));
    let s = GameMakerScript::new("n".to_string(), "src".to_string(), "i".to_string());
    assert_eq!((s.name.as_str(), s.src.as_str(), s.info.as_str()), ("n", "src", "i"));
}

#[test]
fn types_from_tokens() {
    let tokens = tokenize("[] [] num").unwrap();
    match YoyogayType::create_from_tokens(&tokens) {
        Ok(YoyogayType::Array(inner)) => match *inner {
            YoyogayType::Array(inner) => assert!(matches!(*inner, YoyogayType::Identifier(ref n, ref a) if n == "num" && a.is_empty())),
            _ => panic!("expected a nested array"),
        },
        _ => panic!("expected an array"),
    }
    let tokens = tokenize("[]").unwrap();
    let e = YoyogayType::create_from_tokens(&tokens).err().unwrap();
    assert!(matches!(e.data, TypeParsingErrorData::EmptyTokenStreamAfterBrackets));
    let tokens = tokenize("num x").unwrap();
    let e = YoyogayType::create_from_tokens(&tokens).err().unwrap();
    assert!(matches!(e.data, TypeParsingErrorData::UnexpectedTokens(t) if t.len() == 1));
    let tokens = tokenize("5").unwrap();
    let e = YoyogayType::create_from_tokens(&tokens).err().unwrap();
    assert!(matches!(e.data, TypeParsingErrorData::UnexpectedToken(_)));
}

#[test]
fn boxing_keeps_the_value() {
    let b = 7u8.to_box();
    assert_eq!(*b, 7);
}

#[test]
fn object_with_a_create_block() {
    let (id, blocks) = split_object_lines(&lines("#id o\n#event create\nx = 1;\ny = 2;")).unwrap();
    let obj = build_object(id, blocks).unwrap();
    assert_eq!(obj.id, "o");
    let create = obj.create.unwrap();
    assert_eq!(create.src, "x = 1;\ny = 2;");
    assert_eq!(create.tokens, tokenize("x = 1;\ny = 2;").unwrap());
    assert!(matches!(&*create.ast.data, NodeData::Program(s) if s.len() == 2));
    assert!(obj.step.is_none() && obj.draw.is_none() && obj.draw_gui.is_none() && obj.clean_up.is_none());
}

#[test]
fn first_failing_event_gives_the_error() {
    let (id, blocks) = split_object_lines(&lines("#id o\n#event clean_up\nx = $;\n#event step\ny = ;\n#event create\nz = 1;")).unwrap();
    match build_object(id, blocks) {
        Err(ObjectParseError::ParseError(e)) => assert_eq!(e.data, ParseErrorData::UnexpectedEOF),
        _ => panic!("expected the step event's parse error"),
    }
}
