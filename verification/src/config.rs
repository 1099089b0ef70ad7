use vstd::prelude::*;
use crate::ordered::ordered_insert;
use crate::path::{element_path, member_path};
use crate::template::{parse, SegmentView, Template};
use crate::timestamp::{datetime_literal, utc_instant};
use crate::value::{Value, ValueView};

verus! {

/// A node of a nested field definition.
///
/// A float is kept as the bit pattern of its IEEE 754 double, a date-time as
/// the text that was written for it. The members of a table stand in the
/// order in which they were declared.
#[derive(Debug, PartialEq, Eq)]
pub enum ConfigValue {
    Text(String),
    Integer(i64),
    Float(u64),
    Boolean(bool),
    Datetime(String),
    Array(Vec<ConfigValue>),
    Table(Vec<(String, ConfigValue)>),
}

/// The mathematical content of a [`TemplateOrValue`].
pub enum PayloadView {
    Template(Seq<SegmentView>),
    Value(ValueView),
}

/// What a field path is set to: a template that is rendered against each
/// event, or a literal value that is copied into it.
#[derive(Debug, PartialEq, Eq)]
pub enum TemplateOrValue {
    Template(Template),
    Value(Value),
}

impl View for TemplateOrValue {
    type V = PayloadView;

    open spec fn view(&self) -> PayloadView {
        match self {
            TemplateOrValue::Template(t) => PayloadView::Template(t@),
            TemplateOrValue::Value(v) => PayloadView::Value(v@),
        }
    }
}

impl Clone for TemplateOrValue {
    fn clone(&self) -> (r: Self)
        ensures
            r@ == self@,
    {
        match self {
            TemplateOrValue::Template(t) => TemplateOrValue::Template(t.clone()),
            TemplateOrValue::Value(v) => TemplateOrValue::Value(v.clone()),
        }
    }
}

impl From<Template> for TemplateOrValue {
    fn from(v: Template) -> (r: Self) {
        TemplateOrValue::Template(v)
    }
}

impl vstd::std_specs::convert::FromSpecImpl<Template> for TemplateOrValue {
    open spec fn obeys_from_spec() -> bool {
        true
    }

    open spec fn from_spec(v: Template) -> Self {
        TemplateOrValue::Template(v)
    }
}

impl From<Value> for TemplateOrValue {
    fn from(v: Value) -> (r: Self) {
        TemplateOrValue::Value(v)
    }
}

impl vstd::std_specs::convert::FromSpecImpl<Value> for TemplateOrValue {
    open spec fn obeys_from_spec() -> bool {
        true
    }

    open spec fn from_spec(v: Value) -> Self {
        TemplateOrValue::Value(v)
    }
}

/// Why a field definition was refused.
#[derive(Debug, PartialEq, Eq)]
pub enum ConfigError {
    /// The text at this field path is a malformed template.
    MalformedTemplate(String),
}

/// An ordered list of field paths, each with what it is set to.
pub type Entries = Seq<(Seq<char>, PayloadView)>;

/// The content of a list of entries.
pub open spec fn entries_view(list: Seq<(String, TemplateOrValue)>) -> Entries {
    list.map_values(|e: (String, TemplateOrValue)| (e.0@, e.1@))
}

/// The entries after the node `value` at `path` is flattened onto `acc`, or
/// the path of the first text leaf, in the order of the walk, that is a
/// malformed template.
///
/// A text leaf sets its path to the template that it compiles to, any other
/// scalar leaf to its literal. An array is walked element by element and a
/// table member by member, in their order; an empty one adds nothing. A path
/// that is set again keeps its place and takes the later payload.
pub open spec fn flatten_value(acc: Entries, path: Seq<char>, value: ConfigValue) -> Result<
    Entries,
    Seq<char>,
>
    decreases value, 0nat,
{
    match value {
        ConfigValue::Text(s) => match parse(s@) {
            Some(t) => Ok(ordered_insert(acc, path, PayloadView::Template(t))),
            None => Err(path),
        },
        ConfigValue::Integer(i) => Ok(
            ordered_insert(acc, path, PayloadView::Value(ValueView::Integer(i))),
        ),
        ConfigValue::Float(bits) => Ok(
            ordered_insert(acc, path, PayloadView::Value(ValueView::Float(bits))),
        ),
        ConfigValue::Boolean(b) => Ok(
            ordered_insert(acc, path, PayloadView::Value(ValueView::Boolean(b))),
        ),
        ConfigValue::Datetime(text) => Ok(
            ordered_insert(
                acc,
                path,
                PayloadView::Value(datetime_literal(text@, utc_instant(text@))),
            ),
        ),
        ConfigValue::Array(items) => flatten_items(acc, path, items@, items@.len()),
        ConfigValue::Table(members) => flatten_members(acc, path, members@, members@.len()),
    }
}

/// The entries after the first `n` elements of the array at `path` are
/// flattened onto `acc`, element `i` at the path with `[i]` behind it.
pub open spec fn flatten_items(acc: Entries, path: Seq<char>, items: Seq<ConfigValue>, n: nat)
    -> Result<Entries, Seq<char>>
    decreases items, n,
{
    if n == 0 || n > items.len() {
        Ok(acc)
    } else {
        match flatten_items(acc, path, items, (n - 1) as nat) {
            Ok(done) => flatten_value(done, element_path(path, (n - 1) as nat), items[n - 1]),
            Err(e) => Err(e),
        }
    }
}

/// The entries after the first `n` members of the table at `path` are
/// flattened onto `acc`, each at the path with a dot and its key behind it.
pub open spec fn flatten_members(
    acc: Entries,
    path: Seq<char>,
    members: Seq<(String, ConfigValue)>,
    n: nat,
) -> Result<Entries, Seq<char>>
    decreases members, n,
{
    if n == 0 || n > members.len() {
        Ok(acc)
    } else {
        match flatten_members(acc, path, members, (n - 1) as nat) {
            Ok(done) => flatten_value(
                done,
                member_path(path, members[n - 1].0@),
                members[n - 1].1,
            ),
            Err(e) => Err(e),
        }
    }
}

/// The entries after the first `n` top-level fields are flattened onto
/// `acc`, each at the path that is its key.
pub open spec fn flatten_fields(acc: Entries, fields: Seq<(String, ConfigValue)>, n: nat) -> Result<
    Entries,
    Seq<char>,
>
    decreases n,
{
    if n == 0 || n > fields.len() {
        Ok(acc)
    } else {
        match flatten_fields(acc, fields, (n - 1) as nat) {
            Ok(done) => flatten_value(done, fields[n - 1].0@, fields[n - 1].1),
            Err(e) => Err(e),
        }
    }
}

/// The flat entry list of a whole field definition.
pub open spec fn flatten_all(fields: Seq<(String, ConfigValue)>) -> Result<Entries, Seq<char>> {
    flatten_fields(Seq::empty(), fields, fields.len())
}

} // verus!
