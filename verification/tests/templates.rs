use add_fields::event::Event;
use add_fields::template::{append_text, CompileError, RenderError, Segment, Template};
use add_fields::value::Value;

fn key(s: &str) -> String {
    s.to_string()
}

fn field(s: &str) -> Segment {
    Segment::Field(s.to_string())
}

fn text(s: &str) -> Segment {
    Segment::Text(s.to_string())
}

#[test]
fn compile_splits_text_and_placeholders() {
    let t = Template::compile("{{message}} {{message}}").unwrap();
    assert_eq!(t.segments(), &vec![field("message"), text(" "), field("message")]);
    let t = Template::compile("{{a}}-y").unwrap();
    assert_eq!(t.segments(), &vec![field("a"), text("-y")]);
    let t = Template::compile("pre {{x}}").unwrap();
    assert_eq!(t.segments(), &vec![text("pre "), field("x")]);
}

#[test]
fn compile_of_empty_text_has_no_segments() {
    let t = Template::compile("").unwrap();
    assert!(t.segments().is_empty());
    assert_eq!(t.render_string(&Event::new()), Ok(String::new()));
}

#[test]
fn single_braces_are_text() {
    let t = Template::compile("a{b}}c{").unwrap();
    assert_eq!(t.segments(), &vec![text("a{b}}c{")]);
    let t = Template::compile("}}").unwrap();
    assert_eq!(t.segments(), &vec![text("}}")]);
}

#[test]
fn placeholder_name_is_taken_as_written() {
    let t = Template::compile("{{ spaced }}{{}}").unwrap();
    assert_eq!(t.segments(), &vec![field(" spaced "), field("")]);
    let t = Template::compile("{{{a}}}").unwrap();
    assert_eq!(t.segments(), &vec![field("{a"), text("}")]);
}

#[test]
fn names_may_hold_any_characters() {
    let t = Template::compile("é{{ключ}}→").unwrap();
    assert_eq!(t.segments(), &vec![text("é"), field("ключ"), text("→")]);
}

#[test]
fn unclosed_placeholder_is_refused() {
    assert_eq!(Template::compile("{{"), Err(CompileError::UnclosedPlaceholder));
    assert_eq!(Template::compile("a {{b}} {{c}"), Err(CompileError::UnclosedPlaceholder));
    assert_eq!(Template::compile("{{a}"), Err(CompileError::UnclosedPlaceholder));
}

#[test]
fn render_puts_field_text_in_place() {
    let event = Event::from_message("augment me".to_string());
    let t = Template::compile("{{message}} {{message}}").unwrap();
    assert_eq!(t.render_string(&event), Ok("augment me augment me".to_string()));
}

#[test]
fn render_fails_on_a_missing_field() {
    let event = Event::from_message("m".to_string());
    let t = Template::compile("{{message}}{{missing_field}}").unwrap();
    assert_eq!(t.render_string(&event), Err(RenderError::UnresolvedField));
}

#[test]
fn render_writes_integers_and_booleans() {
    let mut event = Event::new();
    event.insert(key("n"), Value::Integer(-40));
    event.insert(key("min"), Value::Integer(i64::MIN));
    event.insert(key("max"), Value::Integer(i64::MAX));
    event.insert(key("zero"), Value::Integer(0));
    event.insert(key("yes"), Value::Boolean(true));
    event.insert(key("no"), Value::Boolean(false));
    let t = Template::compile("{{n}} {{zero}} {{yes}}/{{no}}").unwrap();
    assert_eq!(t.render_string(&event), Ok("-40 0 true/false".to_string()));
    let t = Template::compile("{{min}}..{{max}}").unwrap();
    assert_eq!(
        t.render_string(&event),
        Ok("-9223372036854775808..9223372036854775807".to_string())
    );
}

#[test]
fn render_fails_on_a_field_that_has_no_text() {
    let mut event = Event::new();
    event.insert(key("f"), Value::Float(4.5f64.to_bits()));
    event.insert(key("never"), Value::Timestamp(i64::MAX, 0));
    event.insert(key("odd"), Value::Timestamp(0, 2_000_000_000));
    let t = Template::compile("{{f}}").unwrap();
    assert_eq!(t.render_string(&event), Err(RenderError::UnresolvedField));
    let t = Template::compile("{{never}}").unwrap();
    assert_eq!(t.render_string(&event), Err(RenderError::UnresolvedField));
    let t = Template::compile("{{odd}}").unwrap();
    assert_eq!(t.render_string(&event), Err(RenderError::UnresolvedField));
    event.insert(key("list"), Value::Array(vec![Value::Text(key("a"))]));
    let t = Template::compile("{{list}}").unwrap();
    assert_eq!(t.render_string(&event), Err(RenderError::UnresolvedField));
}

#[test]
fn render_writes_timestamps() {
    let mut event = Event::new();
    event.insert(key("at"), Value::Timestamp(296638320, 0));
    event.insert(key("later"), Value::Timestamp(296638320, 250_000_000));
    event.insert(key("epoch"), Value::Timestamp(0, 1));
    let t = Template::compile("{{at}} | {{later}} | {{epoch}}").unwrap();
    assert_eq!(
        t.render_string(&event),
        Ok("1979-05-27T07:32:00Z | 1979-05-27T07:32:00.250Z | 1970-01-01T00:00:00.000000001Z"
            .to_string())
    );
}

#[test]
fn append_text_says_whether_the_value_has_text() {
    let mut out = key(">");
    assert!(append_text(&mut out, &Value::Text(key("a"))));
    assert!(append_text(&mut out, &Value::Integer(12)));
    assert!(!append_text(&mut out, &Value::Float(0)));
    assert!(!append_text(&mut out, &Value::Timestamp(i64::MIN, 0)));
    assert!(append_text(&mut out, &Value::Boolean(false)));
    assert!(append_text(&mut out, &Value::Timestamp(0, 0)));
    assert_eq!(out, ">a12false1970-01-01T00:00:00Z");
}

#[test]
fn template_clone_is_equal() {
    let t = Template::compile("a{{b}}c").unwrap();
    assert_eq!(t.clone(), t);
}

#[test]
fn event_insert_sets_and_overwrites() {
    let mut event = Event::new();
    assert_eq!(event.len(), 0);
    event.insert(key("a"), Value::Integer(1));
    event.insert(key("b"), Value::Boolean(true));
    event.insert(key("a"), Value::Text(key("again")));
    assert_eq!(event.len(), 2);
    assert_eq!(event.get(&key("a")), Some(&Value::Text(key("again"))));
    assert_eq!(event.get(&key("b")), Some(&Value::Boolean(true)));
    assert_eq!(event.get(&key("c")), None);
}

#[test]
fn event_from_message_has_one_field() {
    let event = Event::from_message("hello world".to_string());
    assert_eq!(event.len(), 1);
    assert_eq!(event.get(&key("message")), Some(&Value::Text(key("hello world"))));
}

#[test]
fn value_clone_keeps_type_and_content() {
    let values = vec![
        Value::Text(key("t")),
        Value::Integer(-1),
        Value::Float(2.5f64.to_bits()),
        Value::Boolean(true),
        Value::Timestamp(1, 2),
        Value::Array(vec![Value::Integer(1), Value::Array(vec![Value::Text(key("in"))])]),
        Value::Table(vec![
            (key("k"), Value::Boolean(false)),
            (key("t"), Value::Table(vec![(key("x"), Value::Float(0))])),
        ]),
    ];
    for v in &values {
        assert_eq!(&v.clone(), v);
    }
    assert_ne!(Value::Integer(4), Value::Text(key("4")));
    assert_ne!(Value::Float(4.0f64.to_bits()), Value::Integer(4));
}
