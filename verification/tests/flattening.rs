use add_fields::config::{ConfigError, ConfigValue, TemplateOrValue};
use add_fields::flatten::{flatten, flatten_field, FieldTable};
use add_fields::path::{join_index, join_member, push_decimal, push_signed};
use add_fields::template::{Segment, Template};
use add_fields::timestamp::{datetime_leaf, datetime_value};
use add_fields::value::Value;

fn text(s: &str) -> ConfigValue {
    ConfigValue::Text(s.to_string())
}

fn key(s: &str) -> String {
    s.to_string()
}

fn literal(v: Value) -> TemplateOrValue {
    TemplateOrValue::Value(v)
}

fn template(s: &str) -> TemplateOrValue {
    TemplateOrValue::Template(Template::compile(s).unwrap())
}

#[test]
fn array_flattens_by_index() {
    let fields = vec![(
        key("a"),
        ConfigValue::Array(vec![
            ConfigValue::Integer(1),
            ConfigValue::Integer(2),
            ConfigValue::Integer(3),
        ]),
    )];
    let expected = vec![
        (key("a[0]"), literal(Value::Integer(1))),
        (key("a[1]"), literal(Value::Integer(2))),
        (key("a[2]"), literal(Value::Integer(3))),
    ];
    assert_eq!(flatten(&fields), Ok(expected));
}

#[test]
fn table_flattens_by_key() {
    let fields = vec![(key("a"), ConfigValue::Table(vec![(key("b"), text("c"))]))];
    let list = flatten(&fields).unwrap();
    assert_eq!(list.len(), 1);
    assert_eq!(list[0].0, "a.b");
    match &list[0].1 {
        TemplateOrValue::Template(t) => {
            assert_eq!(t.segments(), &vec![Segment::Text(key("c"))]);
        }
        TemplateOrValue::Value(_) => panic!("a text leaf became a literal"),
    }
}

#[test]
fn flattening_twice_gives_the_same_list() {
    let fields = vec![
        (key("z"), ConfigValue::Table(vec![
            (key("b"), text("{{x}}")),
            (key("a"), ConfigValue::Array(vec![ConfigValue::Boolean(true), text("t")])),
        ])),
        (key("when"), ConfigValue::Datetime(key("1979-05-27T07:32:00Z"))),
        (key("y"), ConfigValue::Float(1.5f64.to_bits())),
    ];
    let first = flatten(&fields).unwrap();
    let second = flatten(&fields).unwrap();
    assert_eq!(first, second);
    let paths: Vec<&str> = first.iter().map(|e| e.0.as_str()).collect();
    assert_eq!(paths, vec!["z.b", "z.a[0]", "z.a[1]", "when", "y"]);
}

#[test]
fn members_keep_their_declared_order() {
    let fields = vec![(
        key("t"),
        ConfigValue::Table(vec![
            (key("zeta"), ConfigValue::Integer(1)),
            (key("alpha"), ConfigValue::Integer(2)),
            (key("mid"), ConfigValue::Integer(3)),
        ]),
    )];
    let expected = vec![
        (key("t.zeta"), literal(Value::Integer(1))),
        (key("t.alpha"), literal(Value::Integer(2))),
        (key("t.mid"), literal(Value::Integer(3))),
    ];
    assert_eq!(flatten(&fields), Ok(expected));
}

#[test]
fn deep_nesting_joins_keys_and_indices() {
    let fields = vec![(
        key("a"),
        ConfigValue::Table(vec![(
            key("b"),
            ConfigValue::Array(vec![
                ConfigValue::Integer(0),
                ConfigValue::Integer(1),
                ConfigValue::Table(vec![(key("c"), ConfigValue::Boolean(true))]),
            ]),
        )]),
    )];
    let list = flatten(&fields).unwrap();
    assert_eq!(list[2], (key("a.b[2].c"), literal(Value::Boolean(true))));
}

#[test]
fn empty_array_and_table_add_nothing() {
    let fields = vec![
        (key("none"), ConfigValue::Array(Vec::new())),
        (key("one"), ConfigValue::Integer(1)),
        (key("nothing"), ConfigValue::Table(Vec::new())),
    ];
    assert_eq!(flatten(&fields), Ok(vec![(key("one"), literal(Value::Integer(1)))]));
}

#[test]
fn colliding_path_keeps_its_place_and_takes_the_later_payload() {
    let fields = vec![
        (key("a.b"), ConfigValue::Integer(1)),
        (key("c"), ConfigValue::Integer(2)),
        (key("a"), ConfigValue::Table(vec![(key("b"), ConfigValue::Integer(3))])),
        (key("d"), ConfigValue::Integer(4)),
    ];
    let expected = vec![
        (key("a.b"), literal(Value::Integer(3))),
        (key("c"), literal(Value::Integer(2))),
        (key("d"), literal(Value::Integer(4))),
    ];
    assert_eq!(flatten(&fields), Ok(expected));
}

#[test]
fn scalar_leaves_are_never_templates() {
    let fields = vec![
        (key("i"), ConfigValue::Integer(i64::MIN)),
        (key("f"), ConfigValue::Float(f64::NAN.to_bits())),
        (key("b"), ConfigValue::Boolean(false)),
    ];
    let expected = vec![
        (key("i"), literal(Value::Integer(i64::MIN))),
        (key("f"), literal(Value::Float(f64::NAN.to_bits()))),
        (key("b"), literal(Value::Boolean(false))),
    ];
    assert_eq!(flatten(&fields), Ok(expected));
}

#[test]
fn text_without_placeholders_is_still_a_template() {
    let fields = vec![(key("s"), text("plain"))];
    assert_eq!(flatten(&fields), Ok(vec![(key("s"), template("plain"))]));
}

#[test]
fn datetime_leaf_that_is_an_instant_becomes_a_timestamp() {
    let fields = vec![(key("at"), ConfigValue::Datetime(key("1979-05-27T07:32:00Z")))];
    let expected = vec![(key("at"), literal(Value::Timestamp(296638320, 0)))];
    assert_eq!(flatten(&fields), Ok(expected));
}

#[test]
fn datetime_leaf_with_offset_is_taken_to_utc() {
    let leaf = datetime_leaf(&key("1979-05-27T00:32:00.250-07:00"));
    assert_eq!(leaf, Value::Timestamp(296638320, 250_000_000));
}

#[test]
fn datetime_leaf_that_is_no_instant_stays_text() {
    let fields = vec![
        (key("day"), ConfigValue::Datetime(key("1979-05-27"))),
        (key("odd"), ConfigValue::Datetime(key("{{not a template"))),
    ];
    let expected = vec![
        (key("day"), literal(Value::Text(key("1979-05-27")))),
        (key("odd"), literal(Value::Text(key("{{not a template")))),
    ];
    assert_eq!(flatten(&fields), Ok(expected));
}

#[test]
fn datetime_value_follows_the_parse() {
    assert_eq!(datetime_value(key("x"), Some((5, 6))), Value::Timestamp(5, 6));
    assert_eq!(datetime_value(key("x"), None), Value::Text(key("x")));
}

#[test]
fn first_malformed_template_is_named() {
    let fields = vec![
        (key("a"), ConfigValue::Array(vec![text("{{ok}}"), text("{{bad")])),
        (key("b"), text("{{worse")),
    ];
    assert_eq!(flatten(&fields), Err(ConfigError::MalformedTemplate(key("a[1]"))));
}

#[test]
fn flatten_field_fills_a_table() {
    let mut table = FieldTable::new();
    let first = ConfigValue::Array(vec![ConfigValue::Integer(1), ConfigValue::Integer(2)]);
    assert_eq!(flatten_field(key("k"), &first, &mut table), Ok(()));
    assert_eq!(flatten_field(key("k[0]"), &ConfigValue::Boolean(true), &mut table), Ok(()));
    assert_eq!(flatten_field(key("m"), &text("t"), &mut table), Ok(()));
    let expected = vec![
        (key("k[0]"), literal(Value::Boolean(true))),
        (key("k[1]"), literal(Value::Integer(2))),
        (key("m"), template("t")),
    ];
    assert_eq!(table.into_entries(), expected);
}

#[test]
fn field_table_insert_orders_and_overwrites() {
    let mut table = FieldTable::new();
    table.insert(key("b"), literal(Value::Integer(1)));
    table.insert(key("a"), literal(Value::Integer(2)));
    table.insert(key("b"), literal(Value::Integer(3)));
    let expected = vec![
        (key("b"), literal(Value::Integer(3))),
        (key("a"), literal(Value::Integer(2))),
    ];
    assert_eq!(table.into_entries(), expected);
}

#[test]
fn index_paths_are_decimal() {
    assert_eq!(join_index(&key("a"), 0), "a[0]");
    assert_eq!(join_index(&key("a.b"), 10), "a.b[10]");
    assert_eq!(join_index(&key(""), 1234567890), "[1234567890]");
    assert_eq!(join_index(&key("x"), usize::MAX), format!("x[{}]", usize::MAX));
}

#[test]
fn member_paths_are_dotted() {
    assert_eq!(join_member(&key("a"), &key("b")), "a.b");
    assert_eq!(join_member(&key("a[3]"), &key("c d")), "a[3].c d");
    assert_eq!(join_member(&key(""), &key("")), ".");
}

#[test]
fn push_decimal_appends_the_numeral() {
    let mut out = key("n=");
    push_decimal(&mut out, 0);
    push_decimal(&mut out, 907);
    assert_eq!(out, "n=0907");
    let mut out = String::new();
    push_decimal(&mut out, u64::MAX);
    assert_eq!(out, "18446744073709551615");
}

#[test]
fn push_signed_writes_the_sign() {
    let mut out = String::new();
    push_signed(&mut out, -7);
    push_signed(&mut out, 70);
    push_signed(&mut out, i64::MIN);
    assert_eq!(out, "-770-9223372036854775808");
}

#[test]
fn payload_from_template_and_value() {
    let t = Template::compile("{{a}}").unwrap();
    assert_eq!(TemplateOrValue::from(t.clone()), TemplateOrValue::Template(t));
    assert_eq!(TemplateOrValue::from(Value::Integer(1)), TemplateOrValue::Value(Value::Integer(1)));
}
