use vail::classify::{classify, Declaration};
use vail::parse::{compile, parse_schema, SchemaError};
use vail::schema::{Argument, SchemaItem, TypeRef};
use vail::text::{dot_to_camel, CharClass, all_of_class};

fn field(name: &str, ty: TypeRef) -> Argument {
    Argument { name: name.as_bytes().to_vec(), ty, flag_bit: None }
}

fn item(name: &str, id: u32, result: &str, args: Vec<Argument>) -> SchemaItem {
    SchemaItem {
        name: name.as_bytes().to_vec(),
        id,
        result_type: result.as_bytes().to_vec(),
        args,
    }
}

fn names(args: &[Argument]) -> Vec<String> {
    args.iter().map(|a| String::from_utf8(a.name.clone()).unwrap()).collect()
}

#[test]
fn end_to_end_record() {
    let decls = compile(b"user#1 id:Int name:String = User;").unwrap();
    assert_eq!(decls.len(), 1);
    match &decls[0] {
        Declaration::Record { name, fields } => {
            assert_eq!(name, b"User");
            assert_eq!(names(fields), vec!["id", "name"]);
            assert!(matches!(fields[0].ty, TypeRef::Int));
            assert!(matches!(fields[1].ty, TypeRef::Str));
        }
        other => panic!("expected a record, got {:?}", other),
    }
}

#[test]
fn end_to_end_union() {
    let decls = compile(b"userEmpty#2 = User;\nuserFull#3 id:Int = User;\n").unwrap();
    assert_eq!(decls.len(), 1);
    match &decls[0] {
        Declaration::TaggedUnion { name, variants } => {
            assert_eq!(name, b"User");
            assert_eq!(variants.len(), 2);
            assert_eq!(variants[0].name, b"UserEmpty");
            assert!(variants[0].fields.is_empty());
            assert_eq!(variants[1].name, b"UserFull");
            assert_eq!(names(&variants[1].fields), vec!["id"]);
            assert!(matches!(variants[1].fields[0].ty, TypeRef::Int));
        }
        other => panic!("expected a union, got {:?}", other),
    }
}

#[test]
fn union_emitted_once_when_split() {
    let items = vec![
        item("A", 1, "T", vec![]),
        item("Point", 2, "Point", vec![field("x", TypeRef::Int), field("y", TypeRef::Long)]),
        item("B", 3, "T", vec![field("z", TypeRef::Bool)]),
    ];
    let decls = classify(&items);
    assert_eq!(decls.len(), 2);
    match &decls[0] {
        Declaration::TaggedUnion { name, variants } => {
            assert_eq!(name, b"T");
            assert_eq!(variants.len(), 2);
            assert_eq!(variants[0].name, b"A");
            assert_eq!(variants[1].name, b"B");
            assert_eq!(names(&variants[1].fields), vec!["z"]);
        }
        other => panic!("expected a union, got {:?}", other),
    }
    match &decls[1] {
        Declaration::Record { name, fields } => {
            assert_eq!(name, b"Point");
            assert_eq!(names(fields), vec!["x", "y"]);
        }
        other => panic!("expected a record, got {:?}", other),
    }
}

#[test]
fn single_constructor_with_other_name_is_a_union() {
    let decls = classify(&vec![item("Ok", 1, "Answer", vec![])]);
    assert_eq!(decls.len(), 1);
    match &decls[0] {
        Declaration::TaggedUnion { name, variants } => {
            assert_eq!(name, b"Answer");
            assert_eq!(variants.len(), 1);
            assert_eq!(variants[0].name, b"Ok");
        }
        other => panic!("expected a union, got {:?}", other),
    }
}

#[test]
fn marker_record_has_no_fields() {
    let decls = compile(b"ping#7abc = Ping;").unwrap();
    match &decls[0] {
        Declaration::Record { name, fields } => {
            assert_eq!(name, b"Ping");
            assert!(fields.is_empty());
        }
        other => panic!("expected a record, got {:?}", other),
    }
}

#[test]
fn functions_go_to_their_own_list() {
    let text = b"user#1 id:Int = User;\r\n---functions---\r\nusers.get#deadbeef id:Int = User;\r\n";
    let schema = parse_schema(text).unwrap();
    assert_eq!(schema.constructors.len(), 1);
    assert_eq!(schema.functions.len(), 1);
    assert_eq!(schema.functions[0].name, b"UsersGet");
    assert_eq!(schema.functions[0].id, 0xdeadbeef);
    assert!(schema.skipped.is_empty());
    let decls = compile(text).unwrap();
    assert_eq!(decls.len(), 1);
}

#[test]
fn ids_are_hexadecimal() {
    let schema = parse_schema(b"a#1cb5c415 = A;\nb#FFFFFFFF = B;").unwrap();
    assert_eq!(schema.constructors[0].id, 0x1cb5c415);
    assert_eq!(schema.constructors[1].id, 0xffffffff);
}

#[test]
fn malformed_id_is_fatal() {
    assert_eq!(parse_schema(b"user#xyz id:Int = User;").err(), Some(SchemaError::MalformedId));
    assert_eq!(parse_schema(b"user#100000000 = User;").err(), Some(SchemaError::MalformedId));
    assert_eq!(
        compile(b"ok#1 = Ok;\nuser#12g4 = User;").err(),
        Some(SchemaError::MalformedId)
    );
}

#[test]
fn lines_out_of_grammar_are_skipped() {
    let text = b"// a comment\n\nvector#1cb5c415 {t:Type} # [ t ] = Vector t;\nuser#1 = User;";
    let schema = parse_schema(text).unwrap();
    assert_eq!(schema.constructors.len(), 1);
    assert_eq!(schema.constructors[0].name, b"User");
    assert_eq!(schema.skipped, vec![0, 2]);
}

#[test]
fn arguments_and_types() {
    let text = b"msg.full#5 flags:# out:flags.1?true media:flags.9?Bytes ids:Vector<long> peer:InputPeer {X:Type} = messages.Msg;";
    let schema = parse_schema(text).unwrap();
    let it = &schema.constructors[0];
    assert_eq!(it.name, b"MsgFull");
    assert_eq!(it.result_type, b"MessagesMsg");
    assert_eq!(names(&it.args), vec!["flags", "out", "media", "ids", "peer"]);
    assert!(matches!(it.args[0].ty, TypeRef::Flags));
    assert_eq!(it.args[0].flag_bit, None);
    assert!(matches!(it.args[1].ty, TypeRef::Bool));
    assert_eq!(it.args[1].flag_bit, Some(1));
    assert!(matches!(it.args[2].ty, TypeRef::Bytes));
    assert_eq!(it.args[2].flag_bit, Some(9));
    match &it.args[3].ty {
        TypeRef::Vector(e) => assert!(matches!(**e, TypeRef::Long)),
        other => panic!("expected a vector, got {:?}", other),
    }
    match &it.args[4].ty {
        TypeRef::Named(n) => assert_eq!(n, b"InputPeer"),
        other => panic!("expected a named type, got {:?}", other),
    }
}

#[test]
fn primitive_names_match_whole_tokens() {
    let schema = parse_schema(b"x#1 a:Integer b:Double c:Float d:Long e:Bool = X;").unwrap();
    let it = &schema.constructors[0];
    match &it.args[0].ty {
        TypeRef::Named(n) => assert_eq!(n, b"Integer"),
        other => panic!("expected a named type, got {:?}", other),
    }
    assert!(matches!(it.args[1].ty, TypeRef::Double));
    assert!(matches!(it.args[2].ty, TypeRef::Float));
    assert!(matches!(it.args[3].ty, TypeRef::Long));
    assert!(matches!(it.args[4].ty, TypeRef::Bool));
}

#[test]
fn dotted_names_become_one_identifier() {
    let s = b"auth.sentCode";
    assert_eq!(dot_to_camel(s, 0, s.len()), b"AuthSentCode".to_vec());
    let s = b"a..b.";
    assert_eq!(dot_to_camel(s, 0, s.len()), b"AB".to_vec());
    assert!(all_of_class(CharClass::Name, s, 0, s.len()));
    assert!(!all_of_class(CharClass::Word, s, 0, s.len()));
}

#[test]
fn emitted_record_text() {
    let out = vail::emit::generate(b"user#1 id:Int name:String = User;").unwrap();
    assert_eq!(
        String::from_utf8(out).unwrap(),
        "#[derive(Debug)]\nstruct User {\n    id: i32,\n    name: String,\n}\n\n"
    );
}

#[test]
fn emitted_union_text() {
    let out = vail::emit::generate(b"userEmpty#2 = User;\nuserFull#3 id:Int tags:Vector<String> = User;\nping#4 = Ping;").unwrap();
    assert_eq!(
        String::from_utf8(out).unwrap(),
        "#[derive(Debug)]\nenum User {\n    UserEmpty,\n\n    UserFull {\n        id: i32,\n        tags: Vec<String>,\n    },\n}\n\n#[derive(Debug)]\nstruct Ping;\n\n"
    );
}

#[test]
fn rendered_types() {
    let mut out = Vec::new();
    vail::emit::render_type(&mut out, &TypeRef::Vector(Box::new(TypeRef::Vector(Box::new(TypeRef::Bytes)))));
    assert_eq!(out, b"Vec<Vec<Vec<u8>>>".to_vec());
    assert_eq!(vail::emit::generate(b"x#zz = X;").err(), Some(SchemaError::MalformedId));
}
