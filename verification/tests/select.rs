use rjp::select::token::{parse_tokens, Token};
use rjp::select::{descend, Select, SelectedValue, Selects};
use rjp::value::Value;

fn number(text: &str) -> Value {
    Value::Number(text.to_string())
}

fn string(text: &str) -> Value {
    Value::String(text.to_string())
}

fn object(entries: Vec<(&str, Value)>) -> Value {
    Value::Object(
        entries
            .into_iter()
            .map(|(key, value)| (key.to_string(), value))
            .collect(),
    )
}

fn resolve(document: &Value, path: &str) -> Value {
    SelectedValue::new(document.clone(), Select::new(path)).value
}

fn person() -> Value {
    object(vec![("name", string("Alice")), ("age", number("3"))])
}

fn order() -> Value {
    object(vec![
        ("id", number("17")),
        (
            "shipTo",
            object(vec![
                ("name", string("Bob")),
                ("address.line", string("1 Main St")),
            ]),
        ),
        ("items", Value::Array(vec![number("1"), number("2")])),
    ])
}

#[test]
fn test_select_new() {
    assert_eq!(Select::new("{}"), Select::from_tokens(vec![Token::Object]));
    assert_eq!(
        Select::new("{}.foo"),
        Select::from_tokens(vec![Token::Object, Token::try_from("foo").unwrap()])
    );
    assert_eq!(
        Select::new("foo.bar"),
        Select::from_tokens(vec![
            Token::try_from("foo").unwrap(),
            Token::try_from("bar").unwrap()
        ])
    );
    assert_eq!(
        Select::new("foo.\"bar.baz\""),
        Select::from_tokens(vec![
            Token::try_from("foo").unwrap(),
            Token::try_from("bar.baz").unwrap()
        ])
    );
    assert_eq!(
        Select::new("foo.\"bar.baz\".qux"),
        Select::from_tokens(vec![
            Token::try_from("foo").unwrap(),
            Token::try_from("bar.baz").unwrap(),
            Token::try_from("qux").unwrap()
        ])
    );
}

#[test]
fn test_select_collect() {
    assert_eq!(Select::new("{}").collect(), vec!["{}"]);
    assert_eq!(Select::new("{}.foo").collect(), vec!["{}", "foo"]);
    assert_eq!(
        Select::new("{}.foo.bar").collect(),
        vec!["{}", "foo", "bar"]
    );
    assert_eq!(
        Select::new("{}.foo.\"bar.baz\"").collect(),
        vec!["{}", "foo", "bar.baz"]
    );
    assert_eq!(
        Select::new("{}.foo.\"bar.baz\".qux").collect(),
        vec!["{}", "foo", "bar.baz", "qux"]
    );
}

#[test]
fn collect_keeps_the_mark() {
    assert_eq!(
        Select::new("*.=id.[]").collect(),
        vec!["*", "=id", "[]"]
    );
    assert_eq!(Select::new("").collect(), Vec::<String>::new());
}

#[test]
fn the_empty_expression_is_the_empty_path() {
    assert_eq!(Select::new(""), Select::from_tokens(Vec::new()));
    assert_eq!(Select::new("").tokens().len(), 0);
}

#[test]
fn from_gives_the_same_path_as_new() {
    assert_eq!(Select::from("{}.=name"), Select::new("{}.=name"));
}

#[test]
fn from_str_gives_the_path_or_the_message() {
    assert_eq!(Select::from_str("a.b"), Ok(Select::new("a.b")));
    assert_eq!(
        Select::from_str("a..b"),
        Err("Error creating Select - Error parsing 'a..b' - Cannot convert empty string"
            .to_string())
    );
    assert_eq!(
        Select::from_str("\"a"),
        Err(
            "Error creating Select - Error parsing '\"a' - Token \"a contains unbalanced '\"' )"
                .to_string()
        )
    );
}

#[test]
fn tokens_are_kept_in_order() {
    let tokens = vec![
        Token::Object,
        Token::Field {
            name: "a".to_string(),
            with_name: false,
        },
        Token::Array,
    ];
    assert_eq!(Select::from_tokens(tokens.clone()).tokens(), &tokens);
    assert_eq!(Select::new("{}.a.[]").tokens(), &tokens);
}

#[test]
fn render_gives_an_unambiguous_expression_back() {
    assert_eq!(Select::new("{}.name").to_string(), "{}.name");
    assert_eq!(
        Select::new("{}.=name.\"a.b\"").to_string(),
        "{}.=name.\"a.b\""
    );
    assert_eq!(Select::new("*.[].{}").to_string(), "*.[].{}");
    assert_eq!(Select::new("=\"x.y.z\".w").to_string(), "=\"x.y.z\".w");
    assert_eq!(Select::new("").to_string(), "");
    assert_eq!(Select::new("a").to_string(), "a");
}

#[test]
fn render_drops_quotes_that_are_not_needed() {
    assert_eq!(Select::new("\"name\"").to_string(), "name");
    assert_eq!(Select::new("a.=\"b\".c").to_string(), "a.=b.c");
}

#[test]
fn render_quotes_a_name_with_a_dot() {
    let path = Select::from_tokens(vec![
        Token::Field {
            name: "a.b".to_string(),
            with_name: false,
        },
        Token::Field {
            name: "c".to_string(),
            with_name: true,
        },
    ]);
    assert_eq!(path.to_string(), "\"a.b\".=c");
}

#[test]
fn name_is_the_text_of_the_last_token() {
    assert_eq!(Select::new("a.b").name(), Some("b".to_string()));
    assert_eq!(Select::new("a.=b").name(), Some("=b".to_string()));
    assert_eq!(Select::new("a.\"b.c\"").name(), Some("\"b.c\"".to_string()));
    assert_eq!(Select::new("a.[]").name(), Some("[]".to_string()));
    assert_eq!(Select::new("*").name(), Some("*".to_string()));
    assert_eq!(Select::new("").name(), None);
}

#[test]
fn terminal_name_of_the_empty_path_is_a_dot() {
    assert_eq!(Select::new("").terminal_name(), ".");
    assert_eq!(Select::new("a.b").terminal_name(), "b");
    assert_eq!(Select::new("{}").terminal_name(), "{}");
}

#[test]
fn select_clone_is_equal() {
    let path = Select::new("{}.=name.\"a.b\"");
    assert_eq!(path.clone(), path);
}

#[test]
fn selects_keep_their_order() {
    let selects = Selects::new(vec![Select::new("b"), Select::new("a")]);
    assert_eq!(selects.0, vec![Select::new("b"), Select::new("a")]);
}

#[test]
fn a_missing_field_resolves_to_null() {
    let document = object(vec![("x", number("1"))]);
    let path = Select::from_tokens(vec![Token::Field {
        name: "missing".to_string(),
        with_name: false,
    }]);
    let selected = SelectedValue::new(document, path.clone());
    assert_eq!(selected.value, Value::Null);
    assert_eq!(selected.path, path);
}

#[test]
fn a_field_resolves_to_its_value() {
    assert_eq!(resolve(&person(), "name"), string("Alice"));
    assert_eq!(resolve(&person(), "age"), number("3"));
}

#[test]
fn the_empty_path_resolves_to_the_document() {
    assert_eq!(resolve(&person(), ""), person());
    assert_eq!(resolve(&number("5"), ""), number("5"));
    assert_eq!(resolve(&Value::Null, ""), Value::Null);
}

#[test]
fn fields_are_followed_from_left_to_right() {
    assert_eq!(resolve(&order(), "shipTo.name"), string("Bob"));
    assert_eq!(
        resolve(&order(), "shipTo.\"address.line\""),
        string("1 Main St")
    );
    assert_eq!(resolve(&order(), "name.shipTo"), Value::Null);
}

#[test]
fn the_mark_plays_no_part_in_the_walk() {
    assert_eq!(resolve(&order(), "=shipTo.=name"), string("Bob"));
    assert_eq!(resolve(&person(), "=name"), resolve(&person(), "name"));
}

#[test]
fn shape_assertions_stay_in_place() {
    assert_eq!(resolve(&person(), "{}"), person());
    assert_eq!(resolve(&person(), "{}.name"), string("Alice"));
    assert_eq!(resolve(&person(), "[]"), Value::Null);
    assert_eq!(
        resolve(&order(), "items.[]"),
        Value::Array(vec![number("1"), number("2")])
    );
    assert_eq!(resolve(&order(), "items.{}"), Value::Null);
    assert_eq!(resolve(&order(), "shipTo.{}.name"), string("Bob"));
}

#[test]
fn any_accepts_a_container_and_stays_in_place() {
    assert_eq!(resolve(&person(), "*"), person());
    assert_eq!(resolve(&person(), "*.name"), string("Alice"));
    assert_eq!(
        resolve(&order(), "items.*"),
        Value::Array(vec![number("1"), number("2")])
    );
    assert_eq!(resolve(&order(), "*.*.shipTo.*.name"), string("Bob"));
}

#[test]
fn any_refuses_a_scalar() {
    assert_eq!(resolve(&number("5"), "*"), Value::Null);
    assert_eq!(resolve(&person(), "name.*"), Value::Null);
    assert_eq!(resolve(&Value::Null, "*"), Value::Null);
    assert_eq!(resolve(&Value::Bool(true), "*"), Value::Null);
}

#[test]
fn a_scalar_with_steps_left_resolves_to_null() {
    assert_eq!(resolve(&person(), "name.first"), Value::Null);
    assert_eq!(resolve(&person(), "age.{}"), Value::Null);
    assert_eq!(resolve(&order(), "items.name"), Value::Null);
    assert_eq!(resolve(&string("x"), "x"), Value::Null);
}

#[test]
fn a_null_in_the_document_looks_like_a_miss() {
    let document = object(vec![("a", Value::Null)]);
    assert_eq!(resolve(&document, "a"), resolve(&document, "b"));
}

#[test]
fn the_first_entry_of_a_key_is_found() {
    let document = Value::Object(vec![
        ("a".to_string(), number("1")),
        ("a".to_string(), number("2")),
    ]);
    assert_eq!(resolve(&document, "a"), number("1"));
}

#[test]
fn descend_applies_one_step() {
    let document = order();
    let ship_to = Token::Field {
        name: "shipTo".to_string(),
        with_name: false,
    };
    let missing = Token::Field {
        name: "nothing".to_string(),
        with_name: true,
    };
    assert_eq!(
        descend(&document, &ship_to),
        Some(&object(vec![
            ("name", string("Bob")),
            ("address.line", string("1 Main St")),
        ]))
    );
    assert_eq!(descend(&document, &missing), None);
    assert_eq!(descend(&document, &Token::Object), Some(&document));
    assert_eq!(descend(&document, &Token::Array), None);
    assert_eq!(descend(&document, &Token::Any), Some(&document));
    assert_eq!(descend(&string("x"), &Token::Any), None);
    assert_eq!(descend(&string("x"), &ship_to), None);
}

#[test]
fn the_document_is_left_as_it_was() {
    let document = order();
    let copy = document.clone();
    let selected = SelectedValue::new(copy, Select::new("shipTo.name"));
    assert_eq!(selected.value, string("Bob"));
    assert_eq!(document, order());
}

#[test]
fn keys_beyond_ascii_are_found() {
    let document = object(vec![(
        "cl\u{e9}",
        object(vec![("\u{1d11e}.x", number("1"))]),
    )]);
    assert_eq!(resolve(&document, "cl\u{e9}.\"\u{1d11e}.x\""), number("1"));
    assert_eq!(
        Select::new("cl\u{e9}.\"\u{1d11e}.x\"").to_string(),
        "cl\u{e9}.\"\u{1d11e}.x\""
    );
}

#[test]
fn the_text_of_a_path_is_the_texts_of_its_tokens_joined_by_dots() {
    let alphabet = ['a', '.', '"', '=', '[', ']'];
    let mut texts = vec![String::new()];
    let mut from = 0;
    for _ in 0..6 {
        let to = texts.len();
        for at in from..to {
            for c in alphabet {
                let mut text = texts[at].clone();
                text.push(c);
                texts.push(text);
            }
        }
        from = to;
    }
    for text in texts {
        if let Ok(tokens) = parse_tokens(&text) {
            let each: Vec<String> = tokens.iter().map(|token| token.to_string()).collect();
            let path = Select::from_str(&text).unwrap();
            assert_eq!(path.to_string(), each.join("."), "for {:?}", text);
            assert_eq!(path.name(), each.last().cloned(), "for {:?}", text);
            assert_eq!(path.tokens(), &tokens, "for {:?}", text);
        } else {
            assert!(Select::from_str(&text).is_err(), "for {:?}", text);
        }
    }
}
