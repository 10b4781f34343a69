//! The SQL writers: accumulating text buffers that bind values as the
//! text is built. One variant inlines each bound value as literal text;
//! the other emits placeholder text and collects the values on the side.

use vstd::prelude::*;

use crate::chars::{append_dec_u64, dec_seq};
use crate::dialect::QueryBuilder;
use crate::value::{Value, Values};

verus! {

/// An accumulating SQL text writer that binds values as it goes.
///
/// A writer is created empty, grown by `write_str` and `push_param`, and
/// consumed exactly once by `result`; consumption transfers ownership of
/// the buffer, so a consumed writer cannot be used again — the type
/// system makes reuse unreachable.
pub trait SqlWriter: Sized {
    /// The text accumulated so far.
    spec fn text(&self) -> Seq<char>;

    /// The values collected so far (always empty for an inlining writer).
    spec fn collected(&self) -> Seq<Value>;

    /// The writer's internal consistency.
    spec fn wf(&self) -> bool;

    /// The writer's placeholder configuration: the marker text it emits
    /// and whether it numbers placeholders. It is fixed when the writer
    /// is created; appending text and binding values leave it unchanged,
    /// so a caller always knows what a later `push_param` will append.
    spec fn config(&self) -> (Seq<char>, bool);

    /// The text that binding `value` appends to the buffer, given the
    /// dialect's literal rendering of the value.
    spec fn push_text(&self, value: Value, rendered: Seq<char>) -> Seq<char>;

    /// The collected values after binding `value`.
    spec fn push_collected(&self, value: Value) -> Seq<Value>;

    /// Appends literal SQL text to the buffer.
    fn write_str(&mut self, s: &str)
        requires
            old(self).wf(),
        ensures
            final(self).wf(),
            final(self).text() == old(self).text() + s@,
            final(self).collected() == old(self).collected(),
            final(self).config() == old(self).config(),
    ;

    /// Binds a value: appends its rendering to the buffer and, for a
    /// collecting writer, records the value itself.
    fn push_param<QB: QueryBuilder>(&mut self, value: Value, query_builder: &QB)
        requires
            old(self).wf(),
        ensures
            final(self).wf(),
            final(self).text() == old(self).text() + old(self).push_text(
                value,
                query_builder.encoded(value),
            ),
            final(self).collected() == old(self).push_collected(value),
            final(self).config() == old(self).config(),
    ;

    /// Consumes the writer and yields the accumulated text.
    fn result(self) -> (r: String)
        requires
            self.wf(),
        ensures
            r@ == self.text(),
    ;
}

/// The inlining writer: every bound value is rendered directly as literal
/// SQL text; no placeholder is ever written and no value list is kept.
pub struct SqlStringWriter {
    /// The accumulated text buffer.
    pub string: String,
}

impl SqlStringWriter {
    /// Creates an empty inlining writer.
    pub fn new() -> (w: Self)
        ensures
            w.wf(),
            w.text() == Seq::<char>::empty(),
            w.collected() == Seq::<Value>::empty(),
    {
        Self { string: String::new() }
    }
}

impl SqlWriter for SqlStringWriter {
    open spec fn text(&self) -> Seq<char> {
        self.string@
    }

    open spec fn collected(&self) -> Seq<Value> {
        Seq::empty()
    }

    open spec fn wf(&self) -> bool {
        true
    }

    /// An inlining writer emits no placeholders, so its configuration is
    /// the empty marker, unnumbered.
    open spec fn config(&self) -> (Seq<char>, bool) {
        (Seq::empty(), false)
    }

    open spec fn push_text(&self, value: Value, rendered: Seq<char>) -> Seq<char> {
        rendered
    }

    open spec fn push_collected(&self, value: Value) -> Seq<Value> {
        Seq::empty()
    }

    fn write_str(&mut self, s: &str) {
        self.string.append(s);
    }

    fn push_param<QB: QueryBuilder>(&mut self, value: Value, query_builder: &QB) {
        let rendered = query_builder.value_to_string(&value);
        self.string.append(rendered.as_str());
    }

    fn result(self) -> (r: String) {
        self.string
    }
}

/// The collecting writer: every bound value is represented by placeholder
/// text in the buffer — the bare marker, or the marker followed by a
/// counter starting at 1 for a numbered dialect — while the value itself
/// is appended to an internal list.
pub struct SqlWriterObj {
    /// The number of values collected so far.
    pub counter: usize,
    /// The placeholder marker text to emit.
    pub placeholder: String,
    /// Whether placeholders carry a 1-indexed number.
    pub numbered: bool,
    /// The accumulated text buffer.
    pub string: String,
    /// The values collected so far, in binding order.
    pub values: Vec<Value>,
}

impl SqlWriterObj {
    /// The placeholder marker this writer emits.
    pub open spec fn marker(&self) -> Seq<char> {
        self.placeholder@
    }

    /// Whether this writer numbers its placeholders.
    pub open spec fn is_numbered(&self) -> bool {
        self.numbered
    }

    /// Creates an empty collecting writer for the given placeholder
    /// syntax.
    pub fn new(placeholder: &str, numbered: bool) -> (w: Self)
        ensures
            w.wf(),
            w.text() == Seq::<char>::empty(),
            w.collected() == Seq::<Value>::empty(),
            w.marker() == placeholder@,
            w.is_numbered() == numbered,
            w.config() == (placeholder@, numbered),
    {
        Self {
            counter: 0,
            placeholder: placeholder.to_owned(),
            numbered,
            string: String::new(),
            values: Vec::new(),
        }
    }

    /// Consumes the writer and yields both the templated text and the
    /// ordered list of collected values. The Nth collected value belongs
    /// to the Nth placeholder written (1-indexed for a numbered dialect).
    pub fn into_parts(self) -> (r: (String, Values))
        requires
            self.wf(),
        ensures
            r.0@ == self.text(),
            r.1.0@ == self.collected(),
    {
        (self.string, Values(self.values))
    }
}

impl SqlWriter for SqlWriterObj {
    open spec fn text(&self) -> Seq<char> {
        self.string@
    }

    open spec fn collected(&self) -> Seq<Value> {
        self.values@
    }

    open spec fn wf(&self) -> bool {
        self.counter == self.values@.len()
    }

    open spec fn config(&self) -> (Seq<char>, bool) {
        (self.placeholder@, self.numbered)
    }

    open spec fn push_text(&self, value: Value, rendered: Seq<char>) -> Seq<char> {
        if self.numbered {
            self.placeholder@ + dec_seq((self.values@.len() + 1) as nat)
        } else {
            self.placeholder@
        }
    }

    open spec fn push_collected(&self, value: Value) -> Seq<Value> {
        self.values@.push(value)
    }

    fn write_str(&mut self, s: &str) {
        self.string.append(s);
    }

    fn push_param<QB: QueryBuilder>(&mut self, value: Value, query_builder: &QB) {
        let ph = self.placeholder.clone();
        self.string.append(ph.as_str());
        self.values.push(value);
        let c = self.values.len();
        self.counter = c;
        if self.numbered {
            append_dec_u64(&mut self.string, c as u64);
        }
        proof {
            assert(self.string@ =~= old(self).string@ + old(self).push_text(
                value,
                query_builder.encoded(value),
            ));
        }
    }

    fn result(self) -> (r: String) {
        self.string
    }
}

} // verus!
