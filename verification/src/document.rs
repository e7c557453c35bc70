use vstd::prelude::*;

verus! {

/// A named unit of printable content: an ordered list of pages, each a string
/// of characters. Immutable once constructed; ownership moves into the queue
/// on enqueue and out to the consumer on dequeue.
pub struct Document {
    /// A filesystem-path-like identifier, shown when printing starts.
    pub path: String,
    /// The pages, in the order they are rendered.
    pub pages: Vec<String>,
}

/// The mathematical model of a document: its path and its pages as sequences
/// of characters.
pub struct DocumentView {
    pub path: Seq<char>,
    pub pages: Seq<Seq<char>>,
}

impl View for Document {
    type V = DocumentView;

    open spec fn view(&self) -> DocumentView {
        DocumentView { path: self.path@, pages: self.pages.deep_view() }
    }
}

impl DeepView for Document {
    type V = DocumentView;

    open spec fn deep_view(&self) -> DocumentView {
        self.view()
    }
}

} // verus!
