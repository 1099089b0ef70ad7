use vstd::prelude::*;
use indexmap::IndexMap;
use crate::config::{
    entries_view, flatten_all, flatten_fields, flatten_items, flatten_members, flatten_value,
    ConfigError, ConfigValue, Entries, PayloadView, TemplateOrValue,
};
use crate::ordered::{
    lemma_position_by_keys, ordered_insert, slots, slots_insert, slots_list, slots_new,
};
use crate::path::{join_index, join_member};
use crate::template::Template;
use crate::timestamp::datetime_leaf;
use crate::value::Value;

verus! {

/// The entries that flattening has set so far, in order.
///
/// The order of the paths is kept by an index from path to slot number; the
/// slot holds the payload that the path was last set to.
pub struct FieldTable {
    index: IndexMap<String, usize>,
    payloads: Vec<TemplateOrValue>,
}

impl View for FieldTable {
    type V = Entries;

    closed spec fn view(&self) -> Entries {
        Seq::new(
            slots(self.index).len(),
            |i: int| (slots(self.index)[i].0, self.payloads@[slots(self.index)[i].1 as int]@),
        )
    }
}

impl FieldTable {
    /// Every path of the index has its slot.
    pub closed spec fn wf(&self) -> bool {
        forall|i: int|
            0 <= i < slots(self.index).len() ==> (#[trigger] slots(self.index)[i]).1
                < self.payloads@.len()
    }

    /// A table without entries.
    pub fn new() -> (r: FieldTable)
        ensures
            r.wf(),
            r@ == Seq::<(Seq<char>, PayloadView)>::empty(),
    {
        let r = FieldTable { index: slots_new(), payloads: Vec::new() };
        assert(r@ =~= Seq::<(Seq<char>, PayloadView)>::empty());
        r
    }

    /// Sets `key` to `payload`: a path that the table holds keeps its place
    /// and takes the payload, a new one comes last.
    pub fn insert(&mut self, key: String, payload: TemplateOrValue)
        requires
            old(self).wf(),
        ensures
            final(self).wf(),
            final(self)@ == ordered_insert(old(self)@, key@, payload@),
    {
        let ghost before = self@;
        let ghost index_before = slots(self.index);
        let ghost key_view = key@;
        let slot = self.payloads.len();
        self.payloads.push(payload);
        slots_insert(&mut self.index, key, slot);
        proof {
            lemma_position_by_keys(index_before, before, key_view, 0);
            assert(self@ =~= ordered_insert(before, key_view, payload@));
        }
    }

    /// The entries in order.
    pub fn into_entries(self) -> (r: Vec<(String, TemplateOrValue)>)
        requires
            self.wf(),
        ensures
            entries_view(r@) == self@,
    {
        let list = slots_list(&self.index);
        let mut r: Vec<(String, TemplateOrValue)> = Vec::new();
        let mut i: usize = 0;
        while i < list.len()
            invariant
                i <= list.len(),
                self.wf(),
                list@.len() == slots(self.index).len(),
                forall|k: int|
                    0 <= k < list@.len() ==> (#[trigger] list@[k]).0@ == slots(self.index)[k].0
                        && list@[k].1 == slots(self.index)[k].1,
                entries_view(r@) == self@.take(i as int),
            decreases list.len() - i,
        {
            let ghost done = entries_view(r@);
            let key = list[i].0.clone();
            let slot = list[i].1;
            assert(list@[i as int].1 == slots(self.index)[i as int].1);
            assert(slots(self.index)[i as int].1 < self.payloads@.len());
            let payload = self.payloads[slot].clone();
            r.push((key, payload));
            i += 1;
            assert(entries_view(r@) =~= done.push((key@, payload@)));
            assert(entries_view(r@) =~= self@.take(i as int));
        }
        assert(self@.take(i as int) =~= self@);
        r
    }
}

/// Once the walk of the elements has met a malformed template, the array as
/// a whole is refused for it.
proof fn lemma_items_refused(
    acc: Entries,
    path: Seq<char>,
    items: Seq<ConfigValue>,
    n: nat,
    m: nat,
)
    requires
        n <= m <= items.len(),
        flatten_items(acc, path, items, n) is Err,
    ensures
        flatten_items(acc, path, items, m) == flatten_items(acc, path, items, n),
    decreases m,
{
    if n < m {
        lemma_items_refused(acc, path, items, n, (m - 1) as nat);
    }
}

/// Once the walk of the members has met a malformed template, the table as a
/// whole is refused for it.
proof fn lemma_members_refused(
    acc: Entries,
    path: Seq<char>,
    members: Seq<(String, ConfigValue)>,
    n: nat,
    m: nat,
)
    requires
        n <= m <= members.len(),
        flatten_members(acc, path, members, n) is Err,
    ensures
        flatten_members(acc, path, members, m) == flatten_members(acc, path, members, n),
    decreases m,
{
    if n < m {
        lemma_members_refused(acc, path, members, n, (m - 1) as nat);
    }
}

proof fn lemma_fields_refused(acc: Entries, fields: Seq<(String, ConfigValue)>, n: nat, m: nat)
    requires
        n <= m <= fields.len(),
        flatten_fields(acc, fields, n) is Err,
    ensures
        flatten_fields(acc, fields, m) == flatten_fields(acc, fields, n),
    decreases m,
{
    if n < m {
        lemma_fields_refused(acc, fields, n, (m - 1) as nat);
    }
}

/// What the walk came to: the table holds the entries, or the walk was
/// refused at the path that the error names.
pub open spec fn walk_gave(
    expected: Result<Entries, Seq<char>>,
    r: Result<(), ConfigError>,
    table: Entries,
) -> bool {
    match r {
        Ok(_) => expected == Ok::<Entries, Seq<char>>(table),
        Err(ConfigError::MalformedTemplate(at)) => expected == Err::<Entries, Seq<char>>(at@),
    }
}

/// Flattens the node `value` at the path `key` onto `new_fields`.
///
/// On success the table holds what the walk sets, in its order. The walk
/// stops at the first text leaf that is a malformed template, and the error
/// names its path; the table is then of no further use.
pub fn flatten_field(key: String, value: &ConfigValue, new_fields: &mut FieldTable) -> (r: Result<
    (),
    ConfigError,
>)
    requires
        old(new_fields).wf(),
    ensures
        final(new_fields).wf(),
        walk_gave(flatten_value(old(new_fields)@, key@, *value), r, final(new_fields)@),
    decreases value,
{
    let ghost start = new_fields@;
    match value {
        ConfigValue::Text(s) => {
            match Template::compile(s.as_str()) {
                Ok(t) => {
                    new_fields.insert(key, TemplateOrValue::from(t));
                    Ok(())
                },
                Err(_) => Err(ConfigError::MalformedTemplate(key)),
            }
        },
        ConfigValue::Integer(i) => {
            new_fields.insert(key, TemplateOrValue::from(Value::Integer(*i)));
            Ok(())
        },
        ConfigValue::Float(bits) => {
            new_fields.insert(key, TemplateOrValue::from(Value::Float(*bits)));
            Ok(())
        },
        ConfigValue::Boolean(b) => {
            new_fields.insert(key, TemplateOrValue::from(Value::Boolean(*b)));
            Ok(())
        },
        ConfigValue::Datetime(text) => {
            new_fields.insert(key, TemplateOrValue::from(datetime_leaf(text)));
            Ok(())
        },
        ConfigValue::Array(items) => {
            let mut i: usize = 0;
            while i < items.len()
                invariant
                    i <= items.len(),
                    new_fields.wf(),
                    start == old(new_fields)@,
                    *value == ConfigValue::Array(*items),
                    flatten_items(start, key@, items@, i as nat) == Ok::<Entries, Seq<char>>(
                        new_fields@,
                    ),
                decreases items.len() - i,
            {
                let path = join_index(&key, i);
                match flatten_field(path, &items[i], new_fields) {
                    Ok(_) => {},
                    Err(e) => {
                        proof {
                            lemma_items_refused(
                                start,
                                key@,
                                items@,
                                (i + 1) as nat,
                                items@.len(),
                            );
                        }
                        return Err(e);
                    },
                }
                i += 1;
            }
            Ok(())
        },
        ConfigValue::Table(members) => {
            let mut i: usize = 0;
            while i < members.len()
                invariant
                    i <= members.len(),
                    new_fields.wf(),
                    start == old(new_fields)@,
                    *value == ConfigValue::Table(*members),
                    flatten_members(start, key@, members@, i as nat) == Ok::<Entries, Seq<char>>(
                        new_fields@,
                    ),
                decreases members.len() - i,
            {
                let path = join_member(&key, &members[i].0);
                match flatten_field(path, &members[i].1, new_fields) {
                    Ok(_) => {},
                    Err(e) => {
                        proof {
                            lemma_members_refused(
                                start,
                                key@,
                                members@,
                                (i + 1) as nat,
                                members@.len(),
                            );
                        }
                        return Err(e);
                    },
                }
                i += 1;
            }
            Ok(())
        },
    }
}

/// Flattens a whole field definition into its ordered entry list.
///
/// The list is a function of the definition alone. It is refused exactly
/// where a text leaf is a malformed template, and the error names the path
/// of the first such leaf.
pub fn flatten(fields: &Vec<(String, ConfigValue)>) -> (r: Result<
    Vec<(String, TemplateOrValue)>,
    ConfigError,
>)
    ensures
        match r {
            Ok(list) => flatten_all(fields@) == Ok::<Entries, Seq<char>>(entries_view(list@)),
            Err(ConfigError::MalformedTemplate(at)) => flatten_all(fields@) == Err::<
                Entries,
                Seq<char>,
            >(at@),
        },
{
    let mut table = FieldTable::new();
    let mut i: usize = 0;
    while i < fields.len()
        invariant
            i <= fields.len(),
            table.wf(),
            flatten_fields(Seq::empty(), fields@, i as nat) == Ok::<Entries, Seq<char>>(table@),
        decreases fields.len() - i,
    {
        match flatten_field(fields[i].0.clone(), &fields[i].1, &mut table) {
            Ok(_) => {},
            Err(e) => {
                proof {
                    lemma_fields_refused(Seq::empty(), fields@, (i + 1) as nat, fields@.len());
                }
                return Err(e);
            },
        }
        i += 1;
    }
    Ok(table.into_entries())
}

} // verus!
