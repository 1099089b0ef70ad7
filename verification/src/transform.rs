use vstd::prelude::*;
use crate::config::{
    entries_view, flatten_all, ConfigError, ConfigValue, Entries, PayloadView, TemplateOrValue,
};
use crate::event::Event;
use crate::flatten::flatten;
use crate::template::render;
use crate::value::{Value, ValueView};

verus! {

/// The shape of the data that a stage takes or gives.
#[derive(Debug, PartialEq, Eq, Clone, Copy)]
pub enum DataType {
    Any,
    Log,
    Metric,
}

/// Whether an entry sets its path in this record: a literal always does, a
/// template where it renders.
pub open spec fn entry_applies(record: Map<Seq<char>, ValueView>, payload: PayloadView) -> bool {
    match payload {
        PayloadView::Value(_) => true,
        PayloadView::Template(t) => render(t, record) is Some,
    }
}

/// The record after one entry is applied: a literal is put at the path, a
/// template's text is put there where it renders against the record, and
/// where it does not the record stays as it is.
pub open spec fn apply_entry(
    record: Map<Seq<char>, ValueView>,
    entry: (Seq<char>, PayloadView),
) -> Map<Seq<char>, ValueView> {
    match entry.1 {
        PayloadView::Value(v) => record.insert(entry.0, v),
        PayloadView::Template(t) => match render(t, record) {
            Some(text) => record.insert(entry.0, ValueView::Text(text)),
            None => record,
        },
    }
}

/// The record after the entries are applied in order, each to the record as
/// the entries before it left it.
pub open spec fn apply_entries(entries: Entries, record: Map<Seq<char>, ValueView>) -> Map<
    Seq<char>,
    ValueView,
>
    decreases entries.len(),
{
    if entries.len() == 0 {
        record
    } else {
        apply_entry(apply_entries(entries.drop_last(), record), entries.last())
    }
}

/// The paths of the entries that did not render, in order.
pub open spec fn skipped_paths(entries: Entries, record: Map<Seq<char>, ValueView>) -> Seq<
    Seq<char>,
>
    decreases entries.len(),
{
    if entries.len() == 0 {
        Seq::empty()
    } else {
        let earlier = skipped_paths(entries.drop_last(), record);
        if entry_applies(apply_entries(entries.drop_last(), record), entries.last().1) {
            earlier
        } else {
            earlier.push(entries.last().0)
        }
    }
}

/// The content of a list of paths.
pub open spec fn paths_view(paths: Seq<String>) -> Seq<Seq<char>> {
    paths.map_values(|p: String| p@)
}

/// The stage that adds the configured fields to every event.
#[derive(Debug)]
pub struct AddFields {
    fields: Vec<(String, TemplateOrValue)>,
}

impl View for AddFields {
    type V = Entries;

    closed spec fn view(&self) -> Entries {
        entries_view(self.fields@)
    }
}

impl AddFields {
    /// Builds the stage from a field definition, which is flattened once.
    /// It is refused exactly where a text leaf is a malformed template, and
    /// the error names the path of the first such leaf.
    pub fn new(fields: Vec<(String, ConfigValue)>) -> (r: Result<AddFields, ConfigError>)
        ensures
            match r {
                Ok(stage) => flatten_all(fields@) == Ok::<Entries, Seq<char>>(stage@),
                Err(ConfigError::MalformedTemplate(at)) => flatten_all(fields@) == Err::<
                    Entries,
                    Seq<char>,
                >(at@),
            },
    {
        match flatten(&fields) {
            Ok(list) => Ok(AddFields { fields: list }),
            Err(e) => Err(e),
        }
    }

    /// The entries of the stage, in the order in which they are applied.
    pub fn entries(&self) -> (r: &Vec<(String, TemplateOrValue)>)
        ensures
            entries_view(r@) == self@,
    {
        &self.fields
    }

    /// Applies the entries to the event in order and returns the paths of
    /// those that did not render. Each template is rendered against the
    /// event as the entries before it left it.
    pub fn apply(&self, event: &mut Event) -> (skipped: Vec<String>)
        requires
            old(event).wf(),
        ensures
            final(event).wf(),
            final(event)@ == apply_entries(self@, old(event)@),
            paths_view(skipped@) == skipped_paths(self@, old(event)@),
    {
        let ghost start = event@;
        let mut skipped: Vec<String> = Vec::new();
        let mut i: usize = 0;
        while i < self.fields.len()
            invariant
                i <= self.fields.len(),
                event.wf(),
                event@ == apply_entries(self@.take(i as int), start),
                paths_view(skipped@) == skipped_paths(self@.take(i as int), start),
            decreases self.fields.len() - i,
        {
            proof {
                assert(self@.take(i + 1).drop_last() =~= self@.take(i as int));
                assert(self@.take(i + 1).last() == self@[i as int]);
            }
            let ghost earlier = paths_view(skipped@);
            let key = self.fields[i].0.clone();
            match &self.fields[i].1 {
                TemplateOrValue::Value(v) => {
                    event.insert(key, v.clone());
                },
                TemplateOrValue::Template(t) => {
                    match t.render_string(&*event) {
                        Ok(text) => {
                            event.insert(key, Value::Text(text));
                        },
                        Err(_) => {
                            skipped.push(key);
                            assert(paths_view(skipped@) =~= earlier.push(key@));
                        },
                    }
                },
            }
            i += 1;
        }
        assert(self@.take(i as int) =~= self@);
        skipped
    }

    /// Adds the fields to one event and hands it on: the stage never drops
    /// an event, whatever failed to render.
    pub fn transform(&mut self, event: Event) -> (r: Option<Event>)
        requires
            event.wf(),
        ensures
            final(self)@ == old(self)@,
            match r {
                Some(out) => out.wf() && out@ == apply_entries(old(self)@, event@),
                None => false,
            },
    {
        let mut event = event;
        let _ = self.apply(&mut event);
        Some(event)
    }
}

/// The definition of an [`AddFields`] stage: its top-level fields in the
/// order in which they were declared.
#[derive(Debug, PartialEq, Eq)]
pub struct AddFieldsConfig {
    pub fields: Vec<(String, ConfigValue)>,
}

impl AddFieldsConfig {
    /// Builds the stage, or says which field is a malformed template.
    pub fn build(&self) -> (r: Result<AddFields, ConfigError>)
        ensures
            match r {
                Ok(stage) => flatten_all(self.fields@) == Ok::<Entries, Seq<char>>(stage@),
                Err(ConfigError::MalformedTemplate(at)) => flatten_all(self.fields@) == Err::<
                    Entries,
                    Seq<char>,
                >(at@),
            },
    {
        match flatten(&self.fields) {
            Ok(list) => Ok(AddFields { fields: list }),
            Err(e) => Err(e),
        }
    }

    /// The stage takes log records.
    pub fn input_type(&self) -> (r: DataType)
        ensures
            r == DataType::Log,
    {
        DataType::Log
    }

    /// The stage gives log records.
    pub fn output_type(&self) -> (r: DataType)
        ensures
            r == DataType::Log,
    {
        DataType::Log
    }

    /// The name of this kind of stage.
    pub fn transform_type(&self) -> (r: &'static str)
        ensures
            r@ == "add_fields"@,
    {
        "add_fields"
    }
}

} // verus!
