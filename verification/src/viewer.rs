//! A plain text rendering of one entry: optionally the serialized header
//! line, then the content, each followed by a line break. The surrounding
//! program writes the text to its sink.

use vstd::prelude::*;
use crate::entry::Entry;
use crate::entry::ser_entry;

verus! {

/// Renders entries as plain text, with or without the header.
pub struct PlainViewer {
    show_header: bool,
}

impl PlainViewer {
    /// The header is included in the rendering.
    pub closed spec fn shows_header(&self) -> bool {
        self.show_header
    }

    pub fn new(show_header: bool) -> (r: PlainViewer)
        ensures
            r.shows_header() == show_header,
    {
        PlainViewer { show_header }
    }

    /// The text a viewer shows for an entry: with the header, the whole
    /// serialized entry and a final line break; without it, the content
    /// and a line break.
    pub fn view_entry_text(&self, e: &Entry) -> (r: String)
        ensures
            self.shows_header() ==> r@ == ser_entry(e.header_model(), e.content_model()) + seq![
                '\n',
            ],
            !self.shows_header() ==> r@ == e.content_model() + seq!['\n'],
    {
        let mut out: String = if self.show_header {
            e.serialize()
        } else {
            e.get_content().clone()
        };
        out.append("\n");
        proof {
            reveal_strlit("\n");
            assert("\n"@ =~= seq!['\n']);
        }
        out
    }
}

} // verus!
