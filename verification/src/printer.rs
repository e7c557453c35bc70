use vstd::prelude::*;
use crate::document::{Document, DocumentView};
use crate::render::{RenderEvent, render_events, spec_render};

verus! {

/// The queue model: enqueuing appends a document at the back.
pub open spec fn spec_enqueue(queue: Seq<DocumentView>, document: DocumentView) -> Seq<
    DocumentView,
> {
    queue.push(document)
}

/// The queue model: dequeuing removes the front (oldest) document.
pub open spec fn spec_dequeue(queue: Seq<DocumentView>) -> Seq<DocumentView> {
    queue.drop_first()
}

/// The queue model: the front (oldest) document, the next to be printed.
pub open spec fn spec_front(queue: Seq<DocumentView>) -> DocumentView {
    queue.first()
}

/// The spooler: an unbounded FIFO queue of pending documents. Documents are
/// removed in exactly the order they were inserted, and a dequeued document
/// is rendered in full before the operation returns.
pub struct Printer {
    queue: Vec<Document>,
}

impl View for Printer {
    type V = Seq<DocumentView>;

    closed spec fn view(&self) -> Seq<DocumentView> {
        self.queue.deep_view()
    }
}

impl Printer {
    /// A printer with an empty queue.
    pub fn new() -> (printer: Printer)
        ensures
            printer@ == Seq::<DocumentView>::empty(),
    {
        let printer = Printer { queue: Vec::new() };
        assert(printer@ =~= Seq::<DocumentView>::empty());
        printer
    }

    /// Append a document at the back of the queue. Always succeeds; the
    /// queue grows by exactly this one document and nothing else changes.
    pub fn add_to_queue(&mut self, document: Document)
        ensures
            final(self)@ == spec_enqueue(old(self)@, document@),
    {
        let ghost before = self.queue.deep_view();
        let ghost doc_view = document@;
        self.queue.push(document);
        assert(self.queue.deep_view() =~= before.push(doc_view));
    }

    /// How many documents are waiting.
    pub fn queue_len(&self) -> (n: usize)
        ensures
            n == self@.len(),
    {
        self.queue.len()
    }

    /// Dequeue and render the oldest document, if there is one.
    ///
    /// On an empty queue this is a no-op: the queue is unchanged and no
    /// events are produced. Otherwise the front document is removed and its
    /// full rendering is returned, to be emitted before the queue is used
    /// again: the spooler deliberately renders while the queue is held, so a
    /// caller that shares this printer behind a lock emits the events before
    /// releasing it.
    pub fn print(&mut self) -> (rendered: Option<Vec<RenderEvent>>)
        ensures
            old(self)@.len() == 0 ==> final(self)@ == old(self)@ && rendered is None,
            old(self)@.len() > 0 ==> ({
                &&& final(self)@ == spec_dequeue(old(self)@)
                &&& rendered matches Some(events)
                &&& events.deep_view() == spec_render(spec_front(old(self)@))
            }),
    {
        if self.queue.len() > 0 {
            let document = self.queue.remove(0);
            assert(self.queue.deep_view() =~= old(self).queue.deep_view().drop_first());
            assert(document@ == spec_front(old(self)@));
            let events = render_events(&document);
            Some(events)
        } else {
            None
        }
    }
}

/// Enqueuing documents one after the other appends them, in order.
proof fn lemma_enqueue_all_appends(queue: Seq<DocumentView>, docs: Seq<DocumentView>)
    ensures
        spec_enqueue_all(queue, docs) == queue + docs,
    decreases docs.len(),
{
    if docs.len() == 0 {
        assert(queue + docs =~= queue);
    } else {
        lemma_enqueue_all_appends(spec_enqueue(queue, docs.first()), docs.drop_first());
        assert(spec_enqueue(queue, docs.first()) + docs.drop_first() =~= queue + docs);
    }
}

/// Dequeuing n times drops the n oldest documents.
proof fn lemma_dequeue_n_skips(queue: Seq<DocumentView>, n: int)
    requires
        0 <= n <= queue.len(),
    ensures
        spec_dequeue_n(queue, n) == queue.skip(n),
    decreases n,
{
    if n == 0 {
        assert(queue.skip(0) =~= queue);
    } else {
        lemma_dequeue_n_skips(spec_dequeue(queue), n - 1);
        assert(spec_dequeue(queue).skip(n - 1) =~= queue.skip(n));
    }
}

/// The state after enqueuing each document of `docs`, oldest first.
pub open spec fn spec_enqueue_all(queue: Seq<DocumentView>, docs: Seq<DocumentView>) -> Seq<
    DocumentView,
>
    decreases docs.len(),
{
    if docs.len() == 0 {
        queue
    } else {
        spec_enqueue_all(spec_enqueue(queue, docs.first()), docs.drop_first())
    }
}

/// The state after dequeuing n times.
pub open spec fn spec_dequeue_n(queue: Seq<DocumentView>, n: int) -> Seq<DocumentView>
    decreases n,
{
    if n <= 0 {
        queue
    } else {
        spec_dequeue_n(spec_dequeue(queue), n - 1)
    }
}

/// A dequeue is one exact, all-or-nothing step on the queue: it removes the
/// front element, that element only, and leaves every other element in place
/// and in order. (Between calls, exclusion itself is the business of the lock
/// that a caller shares the printer behind.)
pub proof fn lemma_dequeue_exact(queue: Seq<DocumentView>)
    requires
        queue.len() > 0,
    ensures
        spec_dequeue(queue).len() == queue.len() - 1,
        forall |k: int| 0 <= k < queue.len() - 1 ==> spec_dequeue(queue)[k] == queue[k + 1],
{
}

/// First in, first out: enqueue documents D1, D2, ..., Dn on an empty queue,
/// with no dequeues in between; then the i-th dequeue (counting from zero)
/// finds the queue non-empty and prints exactly the i-th document enqueued.
pub proof fn lemma_fifo(docs: Seq<DocumentView>, i: int)
    requires
        0 <= i < docs.len(),
    ensures
        spec_dequeue_n(spec_enqueue_all(Seq::empty(), docs), i).len() > 0,
        spec_front(spec_dequeue_n(spec_enqueue_all(Seq::empty(), docs), i)) == docs[i],
{
    lemma_enqueue_all_appends(Seq::empty(), docs);
    assert(Seq::<DocumentView>::empty() + docs =~= docs);
    lemma_dequeue_n_skips(docs, i);
    assert(docs.skip(i)[0] == docs[i]);
}

} // verus!
