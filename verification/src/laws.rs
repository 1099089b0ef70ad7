use vstd::prelude::*;
use crate::config::{
    flatten_all, flatten_fields, flatten_items, flatten_members, flatten_value, ConfigValue,
    Entries, PayloadView,
};
use crate::ordered::{lemma_position_by_keys, ordered_insert, position_from};
use crate::template::{render, render_segment, SegmentView};
use crate::transform::{apply_entries, apply_entry};
use crate::value::ValueView;

verus! {

/// Applying two lists one after the other is applying the second to what the
/// first left.
pub proof fn lemma_apply_in_turn(
    first: Entries,
    second: Entries,
    record: Map<Seq<char>, ValueView>,
)
    ensures
        apply_entries(first + second, record) == apply_entries(
            second,
            apply_entries(first, record),
        ),
    decreases second.len(),
{
    if second.len() == 0 {
        assert(first + second =~= first);
    } else {
        lemma_apply_in_turn(first, second.drop_last(), record);
        assert((first + second).drop_last() =~= first + second.drop_last());
        assert((first + second).last() == second.last());
    }
}

/// Applying entries never removes a field of the event.
pub proof fn lemma_fields_stay(
    entries: Entries,
    record: Map<Seq<char>, ValueView>,
    name: Seq<char>,
)
    requires
        record.contains_key(name),
    ensures
        apply_entries(entries, record).contains_key(name),
    decreases entries.len(),
{
    if entries.len() > 0 {
        lemma_fields_stay(entries.drop_last(), record, name);
    }
}

/// A field whose name is the path of no entry is left as it was: it is there
/// after the entries are applied exactly where it was before, with the value
/// that it had.
pub proof fn lemma_unrelated_field_untouched(
    entries: Entries,
    record: Map<Seq<char>, ValueView>,
    name: Seq<char>,
)
    requires
        forall|i: int| 0 <= i < entries.len() ==> entries[i].0 != name,
    ensures
        apply_entries(entries, record).contains_key(name) == record.contains_key(name),
        record.contains_key(name) ==> apply_entries(entries, record)[name] == record[name],
    decreases entries.len(),
{
    if entries.len() > 0 {
        lemma_unrelated_field_untouched(entries.drop_last(), record, name);
    }
}

/// A literal entry puts its own value at its path, of the type that it has
/// and never as text in its place: where no later entry sets the same path,
/// the event holds that value there after the entries are applied.
pub proof fn lemma_literal_kept(
    entries: Entries,
    record: Map<Seq<char>, ValueView>,
    i: int,
    value: ValueView,
)
    requires
        0 <= i < entries.len(),
        entries[i].1 == PayloadView::Value(value),
        forall|j: int| i < j < entries.len() ==> entries[j].0 != entries[i].0,
    ensures
        apply_entries(entries, record).contains_key(entries[i].0),
        apply_entries(entries, record)[entries[i].0] == value,
    decreases entries.len(),
{
    if i < entries.len() - 1 {
        lemma_literal_kept(entries.drop_last(), record, i, value);
    }
}

/// A later template sees what an earlier entry put into the event: with `a`
/// set to the text `x` and then `b` to the field `a` followed by the text
/// `y`, every event comes out with `a` as `x` and `b` as `x` followed by `y`.
pub proof fn lemma_later_template_sees_earlier(
    a: Seq<char>,
    b: Seq<char>,
    x: Seq<char>,
    y: Seq<char>,
    record: Map<Seq<char>, ValueView>,
)
    requires
        a != b,
    ensures
        ({
            let first = (a, PayloadView::Template(seq![SegmentView::Text(x)]));
            let second = (
                b,
                PayloadView::Template(seq![SegmentView::Field(a), SegmentView::Text(y)]),
            );
            let out = apply_entries(seq![first, second], record);
            &&& out.contains_key(a)
            &&& out[a] == ValueView::Text(x)
            &&& out.contains_key(b)
            &&& out[b] == ValueView::Text(x + y)
        }),
{
    let ta = seq![SegmentView::Text(x)];
    let tb = seq![SegmentView::Field(a), SegmentView::Text(y)];
    let first = (a, PayloadView::Template(ta));
    let second = (b, PayloadView::Template(tb));
    let both = seq![first, second];
    let empty = Seq::<SegmentView>::empty();

    assert(ta.drop_last() =~= empty);
    assert(render(empty, record) == Some(Seq::<char>::empty()));
    assert(render(ta, record) == Some(Seq::<char>::empty() + x));
    assert(Seq::<char>::empty() + x =~= x);

    assert(both.drop_last() =~= seq![first]);
    assert(seq![first].drop_last() =~= Seq::<(Seq<char>, PayloadView)>::empty());
    let mid = apply_entries(seq![first], record);
    assert(apply_entries(Seq::<(Seq<char>, PayloadView)>::empty(), record) == record);
    assert(mid == apply_entry(record, first));
    assert(mid == record.insert(a, ValueView::Text(x)));

    let field_only = seq![SegmentView::Field(a)];
    assert(tb.drop_last() =~= field_only);
    assert(field_only.drop_last() =~= empty);
    assert(render(empty, mid) == Some(Seq::<char>::empty()));
    assert(render_segment(SegmentView::Field(a), mid) == Some(x));
    assert(render(field_only, mid) == Some(Seq::<char>::empty() + x));
    assert(render(tb, mid) == Some(x + y));
    assert(apply_entries(both, record) == apply_entry(mid, second));
}

/// A template that does not render is passed over and nothing else: its path
/// is not set by it, and the entries after it are applied as if it were not
/// in the list.
pub proof fn lemma_failed_render_passed_over(
    before: Entries,
    path: Seq<char>,
    template: Seq<SegmentView>,
    after: Entries,
    record: Map<Seq<char>, ValueView>,
)
    requires
        render(template, apply_entries(before, record)) is None,
    ensures
        apply_entries(before + seq![(path, PayloadView::Template(template))] + after, record)
            == apply_entries(before + after, record),
{
    let failing = seq![(path, PayloadView::Template(template))];
    let reached = apply_entries(before, record);
    lemma_apply_in_turn(before + failing, after, record);
    lemma_apply_in_turn(before, failing, record);
    lemma_apply_in_turn(before, after, record);
    assert(failing.drop_last() =~= Seq::<(Seq<char>, PayloadView)>::empty());
    assert(apply_entries(failing.drop_last(), reached) == reached);
    assert(apply_entries(failing, reached) == apply_entry(reached, failing.last()));
}

/// An integer, float or boolean leaf is never compiled as a template: it
/// always flattens, and to the literal of its own type.
pub proof fn lemma_scalar_leaf_is_literal(acc: Entries, path: Seq<char>, value: ConfigValue)
    requires
        value is Integer || value is Float || value is Boolean,
    ensures
        flatten_value(acc, path, value) == Ok::<Entries, Seq<char>>(
            ordered_insert(
                acc,
                path,
                PayloadView::Value(
                    match value {
                        ConfigValue::Integer(i) => ValueView::Integer(i),
                        ConfigValue::Float(bits) => ValueView::Float(bits),
                        ConfigValue::Boolean(b) => ValueView::Boolean(b),
                        _ => arbitrary(),
                    },
                ),
            ),
        ),
{
}

/// Two nodes that are written alike: the same kind of node with the same
/// content, element by element and member by member.
pub open spec fn same_tree(left: ConfigValue, right: ConfigValue) -> bool
    decreases left,
{
    match (left, right) {
        (ConfigValue::Text(a), ConfigValue::Text(b)) => a@ == b@,
        (ConfigValue::Integer(a), ConfigValue::Integer(b)) => a == b,
        (ConfigValue::Float(a), ConfigValue::Float(b)) => a == b,
        (ConfigValue::Boolean(a), ConfigValue::Boolean(b)) => a == b,
        (ConfigValue::Datetime(a), ConfigValue::Datetime(b)) => a@ == b@,
        (ConfigValue::Array(a), ConfigValue::Array(b)) => same_items(a@, b@),
        (ConfigValue::Table(a), ConfigValue::Table(b)) => same_members(a@, b@),
        _ => false,
    }
}

/// Two lists of elements that are written alike.
pub open spec fn same_items(left: Seq<ConfigValue>, right: Seq<ConfigValue>) -> bool
    decreases left,
{
    left.len() == right.len() && forall|i: int|
        0 <= i < left.len() ==> same_tree(#[trigger] left[i], right[i])
}

/// Two lists of members that are written alike: the same keys in the same
/// order, each with a like node.
pub open spec fn same_members(
    left: Seq<(String, ConfigValue)>,
    right: Seq<(String, ConfigValue)>,
) -> bool
    decreases left,
{
    left.len() == right.len() && forall|i: int|
        0 <= i < left.len() ==> (#[trigger] left[i]).0@ == right[i].0@ && same_tree(
            left[i].1,
            right[i].1,
        )
}

/// Flattening is a function of what is written: two nodes that are written
/// alike flatten, at one path and onto one list, to the same entries in the
/// same order, or are refused at the same path.
pub proof fn lemma_like_nodes_flatten_alike(
    acc: Entries,
    path: Seq<char>,
    left: ConfigValue,
    right: ConfigValue,
)
    requires
        same_tree(left, right),
    ensures
        flatten_value(acc, path, left) == flatten_value(acc, path, right),
    decreases left, 0nat,
{
    match (left, right) {
        (ConfigValue::Array(a), ConfigValue::Array(b)) => {
            lemma_like_items_flatten_alike(acc, path, a@, b@, a@.len());
        },
        (ConfigValue::Table(a), ConfigValue::Table(b)) => {
            lemma_like_members_flatten_alike(acc, path, a@, b@, a@.len());
        },
        _ => {},
    }
}

/// The elements of two arrays that are written alike flatten alike.
pub proof fn lemma_like_items_flatten_alike(
    acc: Entries,
    path: Seq<char>,
    left: Seq<ConfigValue>,
    right: Seq<ConfigValue>,
    n: nat,
)
    requires
        same_items(left, right),
    ensures
        flatten_items(acc, path, left, n) == flatten_items(acc, path, right, n),
    decreases left, n,
{
    if 0 < n <= left.len() {
        lemma_like_items_flatten_alike(acc, path, left, right, (n - 1) as nat);
        if let Ok(done) = flatten_items(acc, path, left, (n - 1) as nat) {
            lemma_like_nodes_flatten_alike(
                done,
                crate::path::element_path(path, (n - 1) as nat),
                left[n - 1],
                right[n - 1],
            );
        }
    }
}

/// The members of two tables that are written alike flatten alike.
pub proof fn lemma_like_members_flatten_alike(
    acc: Entries,
    path: Seq<char>,
    left: Seq<(String, ConfigValue)>,
    right: Seq<(String, ConfigValue)>,
    n: nat,
)
    requires
        same_members(left, right),
    ensures
        flatten_members(acc, path, left, n) == flatten_members(acc, path, right, n),
    decreases left, n,
{
    if 0 < n <= left.len() {
        lemma_like_members_flatten_alike(acc, path, left, right, (n - 1) as nat);
        if let Ok(done) = flatten_members(acc, path, left, (n - 1) as nat) {
            lemma_like_nodes_flatten_alike(
                done,
                crate::path::member_path(path, left[n - 1].0@),
                left[n - 1].1,
                right[n - 1].1,
            );
        }
    }
}

/// Flattening is deterministic: two field definitions that are written alike
/// give the same paths in the same order with the same payloads, or are
/// refused at the same path.
pub proof fn lemma_flatten_deterministic(
    left: Seq<(String, ConfigValue)>,
    right: Seq<(String, ConfigValue)>,
)
    requires
        same_members(left, right),
    ensures
        flatten_all(left) == flatten_all(right),
{
    lemma_like_fields_flatten_alike(left, right, left.len());
}

proof fn lemma_like_fields_flatten_alike(
    left: Seq<(String, ConfigValue)>,
    right: Seq<(String, ConfigValue)>,
    n: nat,
)
    requires
        same_members(left, right),
    ensures
        flatten_fields(Seq::empty(), left, n) == flatten_fields(Seq::empty(), right, n),
    decreases n,
{
    if 0 < n <= left.len() {
        lemma_like_fields_flatten_alike(left, right, (n - 1) as nat);
        if let Ok(done) = flatten_fields(Seq::empty(), left, (n - 1) as nat) {
            lemma_like_nodes_flatten_alike(done, left[n - 1].0@, left[n - 1].1, right[n - 1].1);
        }
    }
}

/// Setting a path keeps the order of the list: a path that the list holds
/// keeps its place, a new one comes last, and every other entry stays where
/// and what it was.
pub proof fn lemma_set_path_keeps_order(acc: Entries, path: Seq<char>, payload: PayloadView)
    ensures
        ({
            let at = position_from(acc, path, 0);
            let out = ordered_insert(acc, path, payload);
            &&& 0 <= at <= acc.len()
            &&& out.len() == if at < acc.len() {
                acc.len()
            } else {
                acc.len() + 1
            }
            &&& out[at] == (path, payload)
            &&& forall|i: int| 0 <= i < at ==> acc[i].0 != path
            &&& forall|i: int| 0 <= i < acc.len() && i != at ==> out[i] == acc[i]
        }),
{
    lemma_position_by_keys(acc, acc, path, 0);
    lemma_position_is_first(acc, path, 0);
}

proof fn lemma_position_is_first(acc: Entries, path: Seq<char>, from: int)
    requires
        0 <= from <= acc.len(),
    ensures
        forall|i: int| from <= i < position_from(acc, path, from) ==> acc[i].0 != path,
        position_from(acc, path, from) < acc.len() ==> acc[position_from(acc, path, from)].0
            == path,
    decreases acc.len() - from,
{
    if from < acc.len() && acc[from].0 != path {
        lemma_position_is_first(acc, path, from + 1);
    }
}

} // verus!
