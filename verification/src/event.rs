use vstd::prelude::*;
use crate::value::{Value, ValueView};

verus! {

/// The record that a list of named values stands for: each name with the
/// value of its last entry.
pub open spec fn record_of(entries: Seq<(Seq<char>, ValueView)>) -> Map<Seq<char>, ValueView>
    decreases entries.len(),
{
    if entries.len() == 0 {
        Map::empty()
    } else {
        record_of(entries.drop_last()).insert(entries.last().0, entries.last().1)
    }
}

/// No name occurs in two entries.
pub open spec fn distinct_names(entries: Seq<(Seq<char>, ValueView)>) -> bool {
    forall|i: int, j: int| 0 <= i < j < entries.len() ==> entries[i].0 != entries[j].0
}

proof fn lemma_record_holds(entries: Seq<(Seq<char>, ValueView)>, i: int)
    requires
        distinct_names(entries),
        0 <= i < entries.len(),
    ensures
        record_of(entries).contains_key(entries[i].0),
        record_of(entries)[entries[i].0] == entries[i].1,
    decreases entries.len(),
{
    if i < entries.len() - 1 {
        lemma_record_holds(entries.drop_last(), i);
    }
}

proof fn lemma_record_lacks(entries: Seq<(Seq<char>, ValueView)>, name: Seq<char>)
    requires
        forall|i: int| 0 <= i < entries.len() ==> entries[i].0 != name,
    ensures
        !record_of(entries).contains_key(name),
    decreases entries.len(),
{
    if entries.len() > 0 {
        lemma_record_lacks(entries.drop_last(), name);
    }
}

proof fn lemma_record_replace(entries: Seq<(Seq<char>, ValueView)>, i: int, value: ValueView)
    requires
        distinct_names(entries),
        0 <= i < entries.len(),
    ensures
        record_of(entries.update(i, (entries[i].0, value))) == record_of(entries).insert(
            entries[i].0,
            value,
        ),
    decreases entries.len(),
{
    let name = entries[i].0;
    let after = entries.update(i, (name, value));
    if i == entries.len() - 1 {
        assert(after.drop_last() =~= entries.drop_last());
        assert(record_of(after) =~= record_of(entries).insert(name, value));
    } else {
        lemma_record_replace(entries.drop_last(), i, value);
        assert(after.drop_last() =~= entries.drop_last().update(i, (name, value)));
        assert(record_of(after) =~= record_of(entries).insert(name, value));
    }
}

/// A structured log record: named fields, each with a typed value.
///
/// The record is read through its view, a map from field name to value.
#[derive(Debug)]
pub struct Event {
    fields: Vec<(String, Value)>,
}

impl Event {
    /// The fields in the order in which their names first came.
    pub closed spec fn entries(&self) -> Seq<(Seq<char>, ValueView)> {
        self.fields@.map_values(|e: (String, Value)| (e.0@, e.1@))
    }

    /// Every name is held once.
    pub closed spec fn wf(&self) -> bool {
        distinct_names(self.entries())
    }

    /// An event without fields.
    pub fn new() -> (r: Event)
        ensures
            r.wf(),
            r@ == Map::<Seq<char>, ValueView>::empty(),
    {
        Event { fields: Vec::new() }
    }

    /// An event whose one field, `message`, holds `text`.
    pub fn from_message(text: String) -> (r: Event)
        ensures
            r.wf(),
            r@ == Map::<Seq<char>, ValueView>::empty().insert(
                "message"@,
                ValueView::Text(text@),
            ),
    {
        let mut r = Event::new();
        r.insert("message".to_owned(), Value::Text(text));
        r
    }

    fn position(&self, name: &String) -> (r: usize)
        ensures
            r <= self.entries().len(),
            r < self.entries().len() ==> self.entries()[r as int].0 == name@,
            forall|i: int| 0 <= i < r ==> self.entries()[i].0 != name@,
    {
        let mut i: usize = 0;
        while i < self.fields.len()
            invariant
                i <= self.fields.len(),
                forall|k: int| 0 <= k < i ==> self.entries()[k].0 != name@,
            decreases self.fields.len() - i,
        {
            if self.fields[i].0 == *name {
                return i;
            }
            i += 1;
        }
        i
    }

    /// How many fields the event holds.
    pub fn len(&self) -> (r: usize)
        requires
            self.wf(),
        ensures
            r == self@.dom().len(),
            self@.dom().finite(),
    {
        proof {
            lemma_record_size(self.entries());
        }
        self.fields.len()
    }

    /// The value of the field `name`, where the event has it.
    pub fn get(&self, name: &String) -> (r: Option<&Value>)
        requires
            self.wf(),
        ensures
            match r {
                Some(v) => self@.contains_key(name@) && v@ == self@[name@],
                None => !self@.contains_key(name@),
            },
    {
        let i = self.position(name);
        if i < self.fields.len() {
            proof {
                lemma_record_holds(self.entries(), i as int);
            }
            Some(&self.fields[i].1)
        } else {
            proof {
                lemma_record_lacks(self.entries(), name@);
            }
            None
        }
    }

    /// Sets the field `name` to `value`, whether or not the event had it.
    /// Every other field stays as it was.
    pub fn insert(&mut self, name: String, value: Value)
        requires
            old(self).wf(),
        ensures
            final(self).wf(),
            final(self)@ == old(self)@.insert(name@, value@),
    {
        let i = self.position(&name);
        let ghost before = self.entries();
        if i < self.fields.len() {
            proof {
                lemma_record_replace(before, i as int, value@);
            }
            self.fields.set(i, (name, value));
            assert(self.entries() =~= before.update(i as int, (name@, value@)));
        } else {
            self.fields.push((name, value));
            assert(self.entries() =~= before.push((name@, value@)));
            assert(self.entries().drop_last() =~= before);
        }
    }
}

proof fn lemma_record_size(entries: Seq<(Seq<char>, ValueView)>)
    requires
        distinct_names(entries),
    ensures
        record_of(entries).dom().finite(),
        record_of(entries).dom().len() == entries.len(),
    decreases entries.len(),
{
    if entries.len() > 0 {
        lemma_record_size(entries.drop_last());
        lemma_record_lacks(entries.drop_last(), entries.last().0);
    }
}

impl View for Event {
    type V = Map<Seq<char>, ValueView>;

    closed spec fn view(&self) -> Map<Seq<char>, ValueView> {
        record_of(self.entries())
    }
}

} // verus!
