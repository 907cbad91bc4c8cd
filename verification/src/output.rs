//! What a simulation writes: every line it logs is kept for the hash that
//! names the run, and every line that reads as a metric becomes a row.
use vstd::prelude::*;
use crate::book::{blake3_hex, spec_blake3_hex};
use crate::parser::{parse_event, Event};
use crate::writer::{appended, attr_column_name, column_view, Batch, Writer, WriterView};

verus! {

/// What a simulation has written: the text of its lines, one after the
/// other, and the rows of its metrics.
pub struct Output {
    text: String,
    writer: Writer,
}

/// The output as plain values.
pub struct OutputView {
    pub text: Seq<char>,
    pub table: WriterView,
}

impl View for Output {
    type V = OutputView;

    closed spec fn view(&self) -> OutputView {
        OutputView { text: self.text@, table: self.writer@ }
    }
}

impl Output {
    /// The rows are well formed.
    pub closed spec fn wf(&self) -> bool {
        self.writer.wf()
    }

    /// Nothing written.
    pub fn new() -> (r: Output)
        ensures
            r.wf(),
            r@.text == Seq::<char>::empty(),
            r@.table.count == 0,
            r@.table.attrs == Seq::<crate::writer::ColumnView>::empty(),
    {
        Output { text: String::new(), writer: Writer::new() }
    }

    /// The number of rows.
    pub fn rows(&self) -> (r: usize)
        ensures
            r == self@.table.count,
    {
        self.writer.len()
    }

    /// Writes the line `out`: its text is kept, and if it reads as a metric,
    /// the metric becomes a row.
    pub fn write(&mut self, out: &str)
        requires
            old(self).wf(),
            old(self)@.table.count < usize::MAX,
        ensures
            final(self).wf(),
            final(self)@.text == old(self)@.text + out@,
            match parse_event(out@) {
                Some(e) => appended(old(self)@.table, e, final(self)@.table),
                None => final(self)@.table == old(self)@.table,
            },
    {
        self.text.append(out);
        match Event::parse(out) {
            Some(event) => self.writer.append(&event),
            None => {},
        }
    }

    /// The rows, and the hash of everything written in lowercase hexadecimal,
    /// which names the run.
    pub fn finish(self) -> (r: (Batch, String))
        ensures
            r.1@ == spec_blake3_hex(vstd::utf8::encode_utf8(self@.text)),
            r.1@.len() == 64,
            r.0.timestamps@ == self@.table.timestamps,
            r.0.names@.map_values(|s: String| s@) == self@.table.names,
            r.0.values@ == self@.table.values,
            r.0.units@.map_values(|s: String| s@) == self@.table.units,
            r.0.kinds@ == self@.table.kinds,
            r.0.attrs@.len() == self@.table.attrs.len(),
            forall|i: int|
                0 <= i < r.0.attrs@.len() ==> #[trigger] column_view(r.0.attrs@[i]) == (
                    attr_column_name(self@.table.attrs[i].0),
                    self@.table.attrs[i].1,
                ),
    {
        let hash = blake3_hex(self.text.as_str().as_bytes());
        (self.writer.finish(), hash)
    }
}

} // verus!
