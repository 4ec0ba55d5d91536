use tomllib::ast::{Array, ArrayValues, Bool, StrType, Value, WSSep};
use tomllib::parser::{ParseError, Parser, PathError};

const DOC: &str = r#"# This is a TOML document.

title = "TOML Example"

[owner]
name = "Tom Preston-Werner"
dob = 1979-05-27T07:32:00-08:00 # First class dates

[database]
server = "192.168.1.1"
ports = [ 8001, 8003, 8002 ]
connection_max = 5000
enabled = true

[servers]

  # Indentation (tabs and/or spaces) is allowed but not required
  [servers.alpha]
  ip = "10.0.0.1"
  dc = "eqdc10"

  [servers.beta]
  ip = "10.0.0.2"
  dc = "eqdc10"
[[flower]]
color = "blue"
type = "rose"
[[flower]]
color = "red"
type = "carnation"
  [flower.props]
    stuff = true
    junk = 4.35
  [[flower.power]]
  foo = "bar"

[clients]
data = [ ["gamma", "delta"], [1, 2] ]

# Line breaks are OK when inside arrays
hosts = [
  "alpha",
  "omega"
]"#;

fn parse(text: &str) -> Parser {
    match Parser::new().parse(text) {
        Ok(p) => p,
        Err(_) => panic!("parse failed"),
    }
}

#[test]
fn test_round_trip_document() {
    let p = parse(DOC);
    assert_eq!(p.serialize(), DOC);
    assert!(p.errors().is_empty());
}

#[test]
fn test_round_trip_small_documents() {
    for doc in [
        "",
        "# only a comment\n",
        "empty = []\n",
        "a = { x = 1 , y = 'two' }\r\n",
        "k = [ 1, # first\n  2 ]\ntail = true",
        "odd = [\n]\n",
    ] {
        let p = parse(doc);
        assert_eq!(p.serialize(), doc);
    }
}

#[test]
fn test_get_value_basic() {
    let p = parse(DOC);
    assert_eq!(
        p.get_value("database.server"),
        Ok(&Value::String(String::from("192.168.1.1"), StrType::Basic))
    );
    assert_eq!(p.get_value("title"), Ok(&Value::String(String::from("TOML Example"), StrType::Basic)));
    assert_eq!(p.get_value("owner.name"), Ok(&Value::String(String::from("Tom Preston-Werner"), StrType::Basic)));
    assert_eq!(p.get_value("database.connection_max"), Ok(&Value::Integer(String::from("5000"))));
    assert_eq!(p.get_value("database.enabled"), Ok(&Value::Boolean(Bool::True)));
}

#[test]
fn test_array_table_disambiguation() {
    let p = parse("[[flower]]\ncolor = \"blue\"\n[[flower]]\ncolor = \"red\"\n");
    assert!(p.errors().is_empty());
    assert_eq!(
        p.get_value("flower[0].color"),
        Ok(&Value::String(String::from("blue"), StrType::Basic))
    );
    assert_eq!(
        p.get_value("flower[1].color"),
        Ok(&Value::String(String::from("red"), StrType::Basic))
    );
    let keys = p.keys();
    assert!(keys.contains(&String::from("flower[0].color")));
    assert!(keys.contains(&String::from("flower[1].color")));
}

#[test]
fn test_nested_standard_under_array() {
    let p = parse("[[flower]]\ncolor = \"blue\"\n[flower.props]\nstuff = true\n");
    assert!(p.errors().is_empty());
    assert_eq!(p.get_value("flower[0].props.stuff"), Ok(&Value::Boolean(Bool::True)));
}

#[test]
fn test_deeper_array_table_paths() {
    let p = parse(DOC);
    assert_eq!(p.get_value("flower[0].color"), Ok(&Value::String(String::from("blue"), StrType::Basic)));
    assert_eq!(p.get_value("flower[1].color"), Ok(&Value::String(String::from("red"), StrType::Basic)));
    assert_eq!(p.get_value("flower[1].props.stuff"), Ok(&Value::Boolean(Bool::True)));
    assert_eq!(p.get_value("flower[1].props.junk"), Ok(&Value::Float(String::from("4.35"))));
    assert_eq!(
        p.get_value("flower[1].power[0].foo"),
        Ok(&Value::String(String::from("bar"), StrType::Basic))
    );
}

#[test]
fn test_duplicate_detection() {
    let p = parse("a = 1\na = 2\n");
    assert_eq!(p.errors().len(), 1);
    match &p.errors()[0] {
        ParseError::DuplicateKey { path, handle } => {
            assert_eq!(path, "a");
            assert_eq!(p.value_at_handle(*handle), Some(&Value::Integer(String::from("2"))));
        }
        _ => panic!("expected a duplicate-key error"),
    }
    assert_eq!(p.get_value("a"), Ok(&Value::Integer(String::from("1"))));
    assert_eq!(p.serialize(), "a = 1\na = 2\n");
}

#[test]
fn test_invalid_table_side_map() {
    let p = parse("[a]\nx = 1\n[a]\ny = 2\n");
    assert_eq!(p.errors().len(), 1);
    match &p.errors()[0] {
        ParseError::InvalidTable { path, keyvals } => {
            assert_eq!(path, "a");
            assert_eq!(keyvals.len(), 1);
            assert_eq!(keyvals[0].0, "y");
            assert_eq!(p.value_at_handle(keyvals[0].1), Some(&Value::Integer(String::from("2"))));
        }
        _ => panic!("expected an invalid-table error"),
    }
    assert_eq!(p.get_value("a.x"), Ok(&Value::Integer(String::from("1"))));
    assert_eq!(p.get_value("a.y"), Err(PathError::NotFound));
    assert_eq!(p.serialize(), "[a]\nx = 1\n[a]\ny = 2\n");
}

#[test]
fn test_mutation_preserves_structure() {
    let text = "title = \"x\"\nports = [ 8001, 8003, 8002 ]\n# done\n";
    let mut p = parse(text);
    let replacement = Value::Array(Box::new(Array {
        values: Some(Box::new(ArrayValues {
            val: Value::Integer(String::from("1")),
            array_sep: Some(WSSep::new_str("", " ")),
            comment_nl: None,
            array_vals: Some(Box::new(ArrayValues {
                val: Value::Integer(String::from("2")),
                array_sep: None,
                comment_nl: None,
                array_vals: None,
            })),
        })),
        ws: WSSep::new_str("", ""),
    }));
    assert_eq!(p.set_value("ports", replacement), Ok(()));
    assert_eq!(p.serialize(), "title = \"x\"\nports = [1, 2]\n# done\n");
}

#[test]
fn test_set_value_changes_kind() {
    let mut p = parse(DOC);
    assert_eq!(p.set_value("title", Value::Float(String::from("4.567"))), Ok(()));
    assert_eq!(p.get_value("title"), Ok(&Value::Float(String::from("4.567"))));
    let out = p.serialize();
    assert!(out.contains("title = 4.567"));
    assert!(out.contains("server = \"192.168.1.1\""));
}

#[test]
fn test_get_set_absent_path() {
    let mut p = parse(DOC);
    assert_eq!(p.get_value("missing.path"), Err(PathError::NotFound));
    assert_eq!(
        p.set_value("missing.path", Value::Integer(String::from("7"))),
        Err(PathError::NotFound)
    );
    assert_eq!(p.serialize(), DOC);
    assert_eq!(p.get_value("servers"), Err(PathError::NotFound));
}

#[test]
fn test_keys_listing() {
    let p = parse(DOC);
    let keys = p.keys();
    for expected in [
        "title",
        "owner.name",
        "owner.dob",
        "database.server",
        "database.ports",
        "database.connection_max",
        "database.enabled",
        "servers.alpha.ip",
        "servers.beta.dc",
        "flower[0].color",
        "flower[1].type",
        "flower[1].props.junk",
        "flower[1].power[0].foo",
        "clients.data",
        "clients.hosts",
    ] {
        assert!(keys.contains(&String::from(expected)), "missing {}", expected);
    }
    let mut sorted = keys.clone();
    sorted.sort();
    sorted.dedup();
    assert_eq!(sorted.len(), keys.len());
}

#[test]
fn test_parse_failure() {
    assert!(Parser::new().parse("x = \n").is_err());
    assert!(Parser::new().parse("[not closed\n").is_err());
    let err = match Parser::new().parse("ok = 1\nbad = ?\n") {
        Err(e) => e,
        Ok(_) => panic!("expected a parse failure"),
    };
    assert_eq!(err.line, 2);
}

#[test]
fn test_line_count() {
    let p = parse("a = 1\nb = 2\n");
    assert_eq!(p.line_count(), 3);
    let q = parse("a = 1");
    assert_eq!(q.line_count(), 1);
}

#[test]
fn test_many_occurrences_two_digit_index() {
    let mut text = String::new();
    for _ in 0..11 {
        text.push_str("[[x]]\nk = 1\n");
    }
    let p = parse(&text);
    assert!(p.errors().is_empty());
    assert_eq!(p.get_value("x[10].k"), Ok(&Value::Integer(String::from("1"))));
    assert_eq!(p.serialize(), text);
}

#[test]
fn test_set_then_round_trip_idempotent() {
    let mut p = parse(DOC);
    assert_eq!(
        p.set_value(
            "database.server",
            Value::String(String::from("localhost"), StrType::Basic)
        ),
        Ok(())
    );
    let once = p.serialize();
    let q = parse(&once);
    assert_eq!(q.serialize(), once);
    assert_eq!(
        q.get_value("database.server"),
        Ok(&Value::String(String::from("localhost"), StrType::Basic))
    );
}

#[test]
fn test_round_trip_helper() {
    assert_eq!(Parser::round_trip(DOC), Some(String::from(DOC)));
    assert_eq!(Parser::round_trip("bad = ?"), None);
}

#[test]
fn test_keys_in_index_order() {
    let p = parse("b = 1\n[t]\na = 2\n");
    assert_eq!(p.keys(), vec![String::from("b"), String::from("t.a")]);
}

#[test]
fn test_ml_leading_newline_discarded() {
    let text = "s = \"\"\"\nabc\"\"\"\nt = '''\r\nxy'''\n";
    let p = parse(text);
    assert_eq!(
        p.get_value("s"),
        Ok(&Value::String(String::from("abc"), StrType::MLBasic(String::from("\n"))))
    );
    assert_eq!(
        p.get_value("t"),
        Ok(&Value::String(String::from("xy"), StrType::MLLiteral(String::from("\r\n"))))
    );
    assert_eq!(p.serialize(), text);
}
