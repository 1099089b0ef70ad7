use vstd::prelude::*;
use vstd::string::*;
use crate::event::Event;
use crate::path::{push_signed, signed_decimal};
use crate::timestamp::{format_utc, instant_text};
use crate::value::{Value, ValueView};

verus! {

/// The mathematical content of a [`Segment`].
pub enum SegmentView {
    Text(Seq<char>),
    Field(Seq<char>),
}

/// One piece of a compiled template: text that is copied as it stands, or
/// the name of an event field whose text is put in its place.
#[derive(Debug, PartialEq, Eq)]
pub enum Segment {
    Text(String),
    Field(String),
}

impl View for Segment {
    type V = SegmentView;

    open spec fn view(&self) -> SegmentView {
        match self {
            Segment::Text(s) => SegmentView::Text(s@),
            Segment::Field(s) => SegmentView::Field(s@),
        }
    }
}

impl Clone for Segment {
    fn clone(&self) -> (r: Self)
        ensures
            r@ == self@,
    {
        match self {
            Segment::Text(s) => Segment::Text(s.clone()),
            Segment::Field(s) => Segment::Field(s.clone()),
        }
    }
}

/// Whether a placeholder opens at position `i` of `s`: two opening braces.
pub open spec fn opens_at(s: Seq<char>, i: int) -> bool {
    0 <= i && i + 1 < s.len() && s[i] == '{' && s[i + 1] == '{'
}

/// Whether a placeholder closes at position `i` of `s`: two closing braces.
pub open spec fn closes_at(s: Seq<char>, i: int) -> bool {
    0 <= i && i + 1 < s.len() && s[i] == '}' && s[i + 1] == '}'
}

/// How many characters from position `i` on stand before the next opening
/// of a placeholder, or before the end of `s`.
pub open spec fn text_run(s: Seq<char>, i: int) -> nat
    decreases s.len() - i,
{
    if i < 0 || i >= s.len() || opens_at(s, i) {
        0
    } else {
        1 + text_run(s, i + 1)
    }
}

/// How many characters from position `i` on stand before the next closing
/// of a placeholder, or before the end of `s`.
pub open spec fn name_run(s: Seq<char>, i: int) -> nat
    decreases s.len() - i,
{
    if i < 0 || i >= s.len() || closes_at(s, i) {
        0
    } else {
        1 + name_run(s, i + 1)
    }
}

/// `head` put before the segments of `tail`, where there are any.
pub open spec fn prepend(head: Seq<SegmentView>, tail: Option<Seq<SegmentView>>) -> Option<
    Seq<SegmentView>,
> {
    match tail {
        Some(t) => Some(head + t),
        None => None,
    }
}

/// The segments of `s` from position `i` on, or `None` where a placeholder
/// opens and never closes.
///
/// A placeholder is written `{{name}}`: it runs from two opening braces to the
/// first two closing braces after them, and its name is all that stands
/// between, taken as it is. Everything else is text.
pub open spec fn segments_from(s: Seq<char>, i: int) -> Option<Seq<SegmentView>>
    decreases s.len() - i,
    via segments_from_decreases
{
    if i < 0 || i >= s.len() {
        Some(Seq::empty())
    } else if opens_at(s, i) {
        let end = i + 2 + name_run(s, i + 2);
        if end >= s.len() {
            None
        } else {
            prepend(seq![SegmentView::Field(s.subrange(i + 2, end))], segments_from(s, end + 2))
        }
    } else {
        let end = i + 1 + text_run(s, i + 1);
        prepend(seq![SegmentView::Text(s.subrange(i, end))], segments_from(s, end))
    }
}

#[via_fn]
proof fn segments_from_decreases(s: Seq<char>, i: int) {
    if 0 <= i < s.len() {
        lemma_text_run_bound(s, i + 1);
        if i + 2 <= s.len() {
            lemma_name_run_bound(s, i + 2);
        }
    }
}

/// A run of text ends at or before the end of the source.
pub proof fn lemma_text_run_bound(s: Seq<char>, i: int)
    requires
        0 <= i <= s.len(),
    ensures
        i + text_run(s, i) <= s.len(),
    decreases s.len() - i,
{
    if i < s.len() && !opens_at(s, i) {
        lemma_text_run_bound(s, i + 1);
    }
}

/// A run of a name ends where a placeholder closes, or at the end of the
/// source.
pub proof fn lemma_name_run_bound(s: Seq<char>, i: int)
    requires
        0 <= i <= s.len(),
    ensures
        i + name_run(s, i) == s.len() || closes_at(s, i + name_run(s, i)),
    decreases s.len() - i,
{
    if i < s.len() && !closes_at(s, i) {
        lemma_name_run_bound(s, i + 1);
    }
}

/// The segments of the template source `s`, or `None` where it is malformed.
pub open spec fn parse(s: Seq<char>) -> Option<Seq<SegmentView>> {
    segments_from(s, 0)
}

/// The text that a value takes in a rendered template: text as it stands,
/// an integer as its decimal numeral, a boolean as `true` or `false`, a
/// timestamp as the text of its instant. A float, an array and a table have
/// none, nor has a timestamp that is out of the calendar's range.
pub open spec fn text_of(v: ValueView) -> Option<Seq<char>> {
    match v {
        ValueView::Text(s) => Some(s),
        ValueView::Integer(i) => Some(signed_decimal(i as int)),
        ValueView::Boolean(b) => Some(
            if b {
                seq!['t', 'r', 'u', 'e']
            } else {
                seq!['f', 'a', 'l', 's', 'e']
            },
        ),
        ValueView::Timestamp(secs, nanos) => instant_text(secs, nanos),
        _ => None,
    }
}

/// The text of one segment against the fields of a record.
pub open spec fn render_segment(seg: SegmentView, fields: Map<Seq<char>, ValueView>) -> Option<
    Seq<char>,
> {
    match seg {
        SegmentView::Text(s) => Some(s),
        SegmentView::Field(name) => if fields.contains_key(name) {
            text_of(fields[name])
        } else {
            None
        },
    }
}

/// The text of a template against the fields of a record: the texts of its
/// segments in order, or `None` where one of them has none.
pub open spec fn render(segs: Seq<SegmentView>, fields: Map<Seq<char>, ValueView>) -> Option<
    Seq<char>,
>
    decreases segs.len(),
{
    if segs.len() == 0 {
        Some(Seq::empty())
    } else {
        match (render(segs.drop_last(), fields), render_segment(segs.last(), fields)) {
            (Some(a), Some(b)) => Some(a + b),
            _ => None,
        }
    }
}

/// Why a template source was refused.
#[derive(Debug, PartialEq, Eq, Clone, Copy)]
pub enum CompileError {
    /// A placeholder opens and never closes.
    UnclosedPlaceholder,
}

/// Why a template has no text against an event.
#[derive(Debug, PartialEq, Eq, Clone, Copy)]
pub enum RenderError {
    /// A placeholder names a field that the event lacks, or one whose value
    /// has no text.
    UnresolvedField,
}

/// A compiled template: its segments in order.
#[derive(Debug, PartialEq, Eq)]
pub struct Template {
    segments: Vec<Segment>,
}

impl View for Template {
    type V = Seq<SegmentView>;

    closed spec fn view(&self) -> Seq<SegmentView> {
        self.segments@.map_values(|s: Segment| s@)
    }
}

impl Clone for Template {
    fn clone(&self) -> (r: Self)
        ensures
            r@ == self@,
    {
        let mut segments: Vec<Segment> = Vec::new();
        let mut i: usize = 0;
        while i < self.segments.len()
            invariant
                i <= self.segments.len(),
                segments@.map_values(|s: Segment| s@) == self@.take(i as int),
            decreases self.segments.len() - i,
        {
            let ghost before = segments@.map_values(|s: Segment| s@);
            let seg = self.segments[i].clone();
            assert(seg@ == self@[i as int]);
            segments.push(seg);
            assert(segments@.map_values(|s: Segment| s@) =~= before.push(seg@));
            i += 1;
            assert(segments@.map_values(|s: Segment| s@) =~= self@.take(i as int));
        }
        assert(self@.take(i as int) =~= self@);
        Template { segments }
    }
}

proof fn lemma_prepend_push(
    head: Seq<SegmentView>,
    seg: SegmentView,
    tail: Option<Seq<SegmentView>>,
)
    ensures
        prepend(head, prepend(seq![seg], tail)) == prepend(head.push(seg), tail),
{
    if let Some(t) = tail {
        assert(head + (seq![seg] + t) =~= head.push(seg) + t);
    }
}

/// Appends the text of `value` to `out` and says whether it has one.
pub fn append_text(out: &mut String, value: &Value) -> (r: bool)
    ensures
        r == text_of(value@) is Some,
        final(out)@ == match text_of(value@) {
            Some(text) => old(out)@ + text,
            None => old(out)@,
        },
{
    match value {
        Value::Text(s) => {
            out.append(s.as_str());
            true
        },
        Value::Integer(i) => {
            push_signed(out, *i);
            true
        },
        Value::Boolean(b) => {
            proof {
                reveal_strlit("true");
                reveal_strlit("false");
            }
            if *b {
                out.append("true");
                assert(final(out)@ =~= old(out)@ + seq!['t', 'r', 'u', 'e']);
            } else {
                out.append("false");
                assert(final(out)@ =~= old(out)@ + seq!['f', 'a', 'l', 's', 'e']);
            }
            true
        },
        Value::Timestamp(secs, nanos) => {
            match format_utc(*secs, *nanos) {
                Some(text) => {
                    out.append(text.as_str());
                    true
                },
                None => false,
            }
        },
        _ => false,
    }
}

impl Template {
    /// The segments in order.
    pub fn segments(&self) -> (r: &Vec<Segment>)
        ensures
            r@.map_values(|s: Segment| s@) == self@,
    {
        &self.segments
    }

    /// Compiles a template source. It is refused exactly where a placeholder
    /// opens and never closes.
    pub fn compile(text: &str) -> (r: Result<Template, CompileError>)
        ensures
            match r {
                Ok(t) => parse(text@) == Some(t@),
                Err(e) => parse(text@) is None && e == CompileError::UnclosedPlaceholder,
            },
    {
        let n = text.unicode_len();
        let mut segments: Vec<Segment> = Vec::new();
        let mut i: usize = 0;
        while i < n
            invariant
                i <= n,
                n == text@.len(),
                parse(text@) == prepend(
                    segments@.map_values(|s: Segment| s@),
                    segments_from(text@, i as int),
                ),
            decreases n - i,
        {
            let ghost head = segments@.map_values(|s: Segment| s@);
            if i + 1 < n && text.get_char(i) == '{' && text.get_char(i + 1) == '{' {
                let mut j: usize = i + 2;
                while j < n && !(j + 1 < n && text.get_char(j) == '}' && text.get_char(j + 1)
                    == '}')
                    invariant
                        i + 2 <= j <= n,
                        n == text@.len(),
                        j + name_run(text@, j as int) == i + 2 + name_run(text@, i + 2),
                    decreases n - j,
                {
                    j += 1;
                }
                if j >= n {
                    return Err(CompileError::UnclosedPlaceholder);
                }
                let name = String::from_str(text.substring_char(i + 2, j));
                segments.push(Segment::Field(name));
                proof {
                    lemma_prepend_push(
                        head,
                        SegmentView::Field(name@),
                        segments_from(text@, j + 2),
                    );
                    assert(segments@.map_values(|s: Segment| s@) =~= head.push(
                        SegmentView::Field(name@),
                    ));
                }
                i = j + 2;
            } else {
                let mut j: usize = i + 1;
                while j < n && !(j + 1 < n && text.get_char(j) == '{' && text.get_char(j + 1)
                    == '{')
                    invariant
                        i + 1 <= j <= n,
                        n == text@.len(),
                        j + text_run(text@, j as int) == i + 1 + text_run(text@, i + 1),
                    decreases n - j,
                {
                    j += 1;
                }
                let run = String::from_str(text.substring_char(i, j));
                segments.push(Segment::Text(run));
                proof {
                    lemma_prepend_push(head, SegmentView::Text(run@), segments_from(text@, j as int));
                    assert(segments@.map_values(|s: Segment| s@) =~= head.push(
                        SegmentView::Text(run@),
                    ));
                }
                i = j;
            }
        }
        proof {
            assert(segments@.map_values(|s: Segment| s@) + Seq::<SegmentView>::empty()
                =~= segments@.map_values(|s: Segment| s@));
        }
        Ok(Template { segments })
    }

    /// Renders the template against an event: the texts of its segments in
    /// order. It fails exactly where a placeholder names a field that the
    /// event lacks or whose value has no text.
    pub fn render_string(&self, event: &Event) -> (r: Result<String, RenderError>)
        requires
            event.wf(),
        ensures
            match r {
                Ok(s) => render(self@, event@) == Some(s@),
                Err(e) => render(self@, event@) is None && e == RenderError::UnresolvedField,
            },
    {
        let mut out = String::new();
        let mut i: usize = 0;
        while i < self.segments.len()
            invariant
                i <= self.segments.len(),
                event.wf(),
                render(self@.take(i as int), event@) == Some(out@),
            decreases self.segments.len() - i,
        {
            proof {
                assert(self@.take(i + 1).drop_last() =~= self@.take(i as int));
                assert(self@.take(i + 1).last() == self.segments[i as int]@);
            }
            match &self.segments[i] {
                Segment::Text(s) => {
                    out.append(s.as_str());
                },
                Segment::Field(name) => {
                    let found = match event.get(name) {
                        Some(value) => append_text(&mut out, value),
                        None => false,
                    };
                    if !found {
                        proof {
                            lemma_render_prefix(self@, i + 1, event@);
                        }
                        return Err(RenderError::UnresolvedField);
                    }
                },
            }
            i += 1;
        }
        assert(self@.take(i as int) =~= self@);
        Ok(out)
    }
}

/// A template has no text where its first `n` segments have none.
pub proof fn lemma_render_prefix(
    segs: Seq<SegmentView>,
    n: int,
    fields: Map<Seq<char>, ValueView>,
)
    requires
        0 <= n <= segs.len(),
        render(segs.take(n), fields) is None,
    ensures
        render(segs, fields) is None,
    decreases segs.len(),
{
    if n < segs.len() {
        assert(segs.drop_last().take(n) =~= segs.take(n));
        lemma_render_prefix(segs.drop_last(), n, fields);
    } else {
        assert(segs.take(n) =~= segs);
    }
}

} // verus!
