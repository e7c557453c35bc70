use vstd::prelude::*;
use vstd::string::StrSliceExecFns;
use crate::document::{Document, DocumentView};

verus! {

/// One observable step of rendering a document. A render is a sequence of
/// these events; the caller performs each one in order (printing a line,
/// or printing a single character with its pacing delay).
pub enum RenderEvent {
    /// Printing of the document with the given path starts.
    Start { path: String },
    /// The page with the given index begins.
    PageHeader { index: usize },
    /// One character of the current page, emitted on its own so that the
    /// caller can pace and flush each character individually.
    TypedChar { c: char },
    /// The break that ends a page.
    PageBreak,
    /// The document is done.
    Finished,
}

/// The mathematical model of a render event.
pub enum RenderEventView {
    Start { path: Seq<char> },
    PageHeader { index: int },
    TypedChar { c: char },
    PageBreak,
    Finished,
}

impl View for RenderEvent {
    type V = RenderEventView;

    open spec fn view(&self) -> RenderEventView {
        match self {
            RenderEvent::Start { path } => RenderEventView::Start { path: path@ },
            RenderEvent::PageHeader { index } => RenderEventView::PageHeader {
                index: *index as int,
            },
            RenderEvent::TypedChar { c } => RenderEventView::TypedChar { c: *c },
            RenderEvent::PageBreak => RenderEventView::PageBreak,
            RenderEvent::Finished => RenderEventView::Finished,
        }
    }
}

impl DeepView for RenderEvent {
    type V = RenderEventView;

    open spec fn deep_view(&self) -> RenderEventView {
        self.view()
    }
}

/// The event that emits one character of a page.
pub open spec fn typed_event(c: char) -> RenderEventView {
    RenderEventView::TypedChar { c }
}

/// The events that emit the characters of one page, in order.
pub open spec fn spec_typed_events(page: Seq<char>) -> Seq<RenderEventView> {
    page.map_values(|c: char| typed_event(c))
}

/// The events that render one page: its header, its characters in order,
/// and the break that ends it.
pub open spec fn spec_page_events(page: Seq<char>, index: int) -> Seq<RenderEventView> {
    seq![RenderEventView::PageHeader { index }] + spec_typed_events(page)
        + seq![RenderEventView::PageBreak]
}

/// The events that render every page of `pages`, in order, with indices
/// counted from zero.
pub open spec fn spec_pages_events(pages: Seq<Seq<char>>) -> Seq<RenderEventView>
    decreases pages.len(),
{
    if pages.len() == 0 {
        Seq::empty()
    } else {
        spec_pages_events(pages.drop_last()) + spec_page_events(
            pages.last(),
            pages.len() - 1,
        )
    }
}

/// The full rendering of a document: a start notice, every page in order,
/// and a finished notice.
pub open spec fn spec_render(document: DocumentView) -> Seq<RenderEventView> {
    seq![RenderEventView::Start { path: document.path }] + spec_pages_events(document.pages)
        + seq![RenderEventView::Finished]
}

/// Taking one character more of a page appends exactly that character's event.
proof fn lemma_typed_events_step(page: Seq<char>, j: int)
    requires
        0 <= j < page.len(),
    ensures
        spec_typed_events(page.take(j + 1)) == spec_typed_events(page.take(j)).push(
            typed_event(page[j]),
        ),
{
    assert(spec_typed_events(page.take(j + 1)) =~= spec_typed_events(page.take(j)).push(
        typed_event(page[j]),
    ));
}

/// Walking the pages one step further appends exactly that page's events.
proof fn lemma_pages_events_step(pages: Seq<Seq<char>>, i: int)
    requires
        0 <= i < pages.len(),
    ensures
        spec_pages_events(pages.take(i + 1)) == spec_pages_events(pages.take(i))
            + spec_page_events(pages[i], i),
{
    assert(pages.take(i + 1).drop_last() =~= pages.take(i));
    assert(pages.take(i + 1).last() == pages[i]);
}

/// The characters that one event emits: one for a `TypedChar`, none otherwise.
pub open spec fn spec_event_chars(event: RenderEventView) -> Seq<char> {
    match event {
        RenderEventView::TypedChar { c } => seq![c],
        _ => Seq::empty(),
    }
}

/// Every character that a sequence of events emits, in order.
pub open spec fn spec_events_chars(events: Seq<RenderEventView>) -> Seq<char>
    decreases events.len(),
{
    if events.len() == 0 {
        Seq::empty()
    } else {
        spec_events_chars(events.drop_last()) + spec_event_chars(events.last())
    }
}

/// The page index that one event announces, if it announces one.
pub open spec fn spec_event_header(event: RenderEventView) -> Seq<int> {
    match event {
        RenderEventView::PageHeader { index } => seq![index],
        _ => Seq::empty(),
    }
}

/// The page indices that a sequence of events announces, in order.
pub open spec fn spec_header_indices(events: Seq<RenderEventView>) -> Seq<int>
    decreases events.len(),
{
    if events.len() == 0 {
        Seq::empty()
    } else {
        spec_header_indices(events.drop_last()) + spec_event_header(events.last())
    }
}

/// The indices 0, 1, ..., k - 1 in order.
pub open spec fn spec_page_order(k: nat) -> Seq<int> {
    Seq::new(k, |i: int| i)
}

proof fn lemma_events_chars_singleton(e: RenderEventView)
    ensures
        spec_events_chars(seq![e]) == spec_event_chars(e),
{
    assert(seq![e].drop_last() =~= Seq::<RenderEventView>::empty());
    assert(spec_events_chars(Seq::<RenderEventView>::empty()) == Seq::<char>::empty());
    assert(seq![e].last() == e);
    assert(Seq::<char>::empty() + spec_event_chars(e) =~= spec_event_chars(e));
}

proof fn lemma_header_indices_singleton(e: RenderEventView)
    ensures
        spec_header_indices(seq![e]) == spec_event_header(e),
{
    assert(seq![e].drop_last() =~= Seq::<RenderEventView>::empty());
    assert(spec_header_indices(Seq::<RenderEventView>::empty()) == Seq::<int>::empty());
    assert(seq![e].last() == e);
    assert(Seq::<int>::empty() + spec_event_header(e) =~= spec_event_header(e));
}

proof fn lemma_events_chars_concat(a: Seq<RenderEventView>, b: Seq<RenderEventView>)
    ensures
        spec_events_chars(a + b) == spec_events_chars(a) + spec_events_chars(b),
    decreases b.len(),
{
    if b.len() == 0 {
        assert(a + b =~= a);
        assert(spec_events_chars(a) + spec_events_chars(b) =~= spec_events_chars(a));
    } else {
        assert((a + b).drop_last() =~= a + b.drop_last());
        assert((a + b).last() == b.last());
        lemma_events_chars_concat(a, b.drop_last());
        assert(spec_events_chars(a) + spec_events_chars(b.drop_last()) + spec_event_chars(
            b.last(),
        ) =~= spec_events_chars(a) + spec_events_chars(b));
    }
}

proof fn lemma_header_indices_concat(a: Seq<RenderEventView>, b: Seq<RenderEventView>)
    ensures
        spec_header_indices(a + b) == spec_header_indices(a) + spec_header_indices(b),
    decreases b.len(),
{
    if b.len() == 0 {
        assert(a + b =~= a);
        assert(spec_header_indices(a) + spec_header_indices(b) =~= spec_header_indices(a));
    } else {
        assert((a + b).drop_last() =~= a + b.drop_last());
        assert((a + b).last() == b.last());
        lemma_header_indices_concat(a, b.drop_last());
        assert(spec_header_indices(a) + spec_header_indices(b.drop_last()) + spec_event_header(
            b.last(),
        ) =~= spec_header_indices(a) + spec_header_indices(b));
    }
}

proof fn lemma_typed_events_chars(page: Seq<char>)
    ensures
        spec_events_chars(spec_typed_events(page)) == page,
    decreases page.len(),
{
    if page.len() == 0 {
        assert(spec_typed_events(page) =~= Seq::empty());
    } else {
        assert(spec_typed_events(page).drop_last() =~= spec_typed_events(page.drop_last()));
        assert(spec_typed_events(page).last() == typed_event(page.last()));
        lemma_typed_events_chars(page.drop_last());
        assert(page.drop_last() + seq![page.last()] =~= page);
    }
}

proof fn lemma_page_events_chars(page: Seq<char>, index: int)
    ensures
        spec_events_chars(spec_page_events(page, index)) == page,
        spec_header_indices(spec_page_events(page, index)) == seq![index],
{
    lemma_events_chars_concat(
        seq![RenderEventView::PageHeader { index }] + spec_typed_events(page),
        seq![RenderEventView::PageBreak],
    );
    lemma_events_chars_concat(
        seq![RenderEventView::PageHeader { index }],
        spec_typed_events(page),
    );
    lemma_typed_events_chars(page);
    lemma_events_chars_singleton(RenderEventView::PageHeader { index });
    lemma_events_chars_singleton(RenderEventView::PageBreak);
    assert(spec_events_chars(spec_page_events(page, index)) =~= page);
    lemma_header_indices_concat(
        seq![RenderEventView::PageHeader { index }] + spec_typed_events(page),
        seq![RenderEventView::PageBreak],
    );
    lemma_header_indices_concat(
        seq![RenderEventView::PageHeader { index }],
        spec_typed_events(page),
    );
    lemma_header_indices_singleton(RenderEventView::PageHeader { index });
    lemma_header_indices_singleton(RenderEventView::PageBreak);
    lemma_typed_events_headers(page);
    assert(spec_header_indices(spec_page_events(page, index)) =~= seq![index]);
}

proof fn lemma_typed_events_headers(page: Seq<char>)
    ensures
        spec_header_indices(spec_typed_events(page)) == Seq::<int>::empty(),
    decreases page.len(),
{
    if page.len() == 0 {
        assert(spec_typed_events(page) =~= Seq::empty());
    } else {
        assert(spec_typed_events(page).drop_last() =~= spec_typed_events(page.drop_last()));
        assert(spec_typed_events(page).last() == typed_event(page.last()));
        lemma_typed_events_headers(page.drop_last());
    }
}

proof fn lemma_pages_events_chars(pages: Seq<Seq<char>>)
    ensures
        spec_events_chars(spec_pages_events(pages)) == pages.flatten_alt(),
        spec_header_indices(spec_pages_events(pages)) == spec_page_order(pages.len()),
    decreases pages.len(),
{
    if pages.len() == 0 {
        assert(spec_page_order(0) =~= Seq::<int>::empty());
    } else {
        lemma_pages_events_chars(pages.drop_last());
        lemma_events_chars_concat(
            spec_pages_events(pages.drop_last()),
            spec_page_events(pages.last(), pages.len() - 1),
        );
        lemma_header_indices_concat(
            spec_pages_events(pages.drop_last()),
            spec_page_events(pages.last(), pages.len() - 1),
        );
        lemma_page_events_chars(pages.last(), pages.len() - 1);
        assert(spec_page_order((pages.len() - 1) as nat) + seq![pages.len() - 1] =~= spec_page_order(
            pages.len(),
        ));
    }
}

/// Render completeness, characters: the rendering of a document emits every
/// character of every page, in page order and in character order within each
/// page, with nothing dropped, duplicated or reordered — the emitted
/// characters are exactly the pages joined together.
pub proof fn lemma_render_chars(document: DocumentView)
    ensures
        spec_events_chars(spec_render(document)) == document.pages.flatten(),
{
    lemma_events_chars_concat(
        seq![RenderEventView::Start { path: document.path }] + spec_pages_events(document.pages),
        seq![RenderEventView::Finished],
    );
    lemma_events_chars_concat(
        seq![RenderEventView::Start { path: document.path }],
        spec_pages_events(document.pages),
    );
    lemma_pages_events_chars(document.pages);
    lemma_events_chars_singleton(RenderEventView::Start { path: document.path });
    lemma_events_chars_singleton(RenderEventView::Finished);
    document.pages.lemma_flatten_and_flatten_alt_are_equivalent();
    assert(spec_events_chars(spec_render(document)) =~= document.pages.flatten());
}

/// Render completeness, page blocks: the rendering of a document with k pages
/// announces exactly k page headers, with indices 0 to k - 1 in order.
pub proof fn lemma_render_page_order(document: DocumentView)
    ensures
        spec_header_indices(spec_render(document)) == spec_page_order(document.pages.len()),
{
    lemma_header_indices_concat(
        seq![RenderEventView::Start { path: document.path }] + spec_pages_events(document.pages),
        seq![RenderEventView::Finished],
    );
    lemma_header_indices_concat(
        seq![RenderEventView::Start { path: document.path }],
        spec_pages_events(document.pages),
    );
    lemma_pages_events_chars(document.pages);
    lemma_header_indices_singleton(RenderEventView::Start { path: document.path });
    lemma_header_indices_singleton(RenderEventView::Finished);
    assert(spec_header_indices(spec_render(document)) =~= spec_page_order(document.pages.len()));
}

/// Lay out the full rendering of `document` as a sequence of events.
pub fn render_events(document: &Document) -> (events: Vec<RenderEvent>)
    ensures
        events.deep_view() == spec_render(document@),
{
    let mut events: Vec<RenderEvent> = Vec::new();
    events.push(RenderEvent::Start { path: document.path.clone() });
    assert(events.deep_view() =~= seq![RenderEventView::Start { path: document@.path }]);
    let npages = document.pages.len();
    let mut i: usize = 0;
    while i < npages
        invariant
            npages == document.pages.len(),
            i <= npages,
            events.deep_view() =~= seq![RenderEventView::Start { path: document@.path }]
                + spec_pages_events(document@.pages.take(i as int)),
        decreases npages - i,
    {
        let ghost before_page = events.deep_view();
        let page: &String = &document.pages[i];
        assert(page@ == document@.pages[i as int]);
        events.push(RenderEvent::PageHeader { index: i });
        assert(events.deep_view() =~= before_page.push(
            RenderEventView::PageHeader { index: i as int },
        ));
        let page_str = page.as_str();
        let plen = page_str.unicode_len();
        let mut j: usize = 0;
        assert(spec_typed_events(page@.take(0)) =~= Seq::empty());
        while j < plen
            invariant
                plen == page@.len(),
                page_str@ == page@,
                page@ == document@.pages[i as int],
                j <= plen,
                events.deep_view() =~= before_page.push(
                    RenderEventView::PageHeader { index: i as int },
                ) + spec_typed_events(page@.take(j as int)),
            decreases plen - j,
        {
            let c = page_str.get_char(j);
            let ghost prev = events.deep_view();
            events.push(RenderEvent::TypedChar { c });
            proof {
                assert(events.deep_view() =~= prev.push(typed_event(page@[j as int])));
                lemma_typed_events_step(page@, j as int);
                assert(events.deep_view() =~= before_page.push(
                    RenderEventView::PageHeader { index: i as int },
                ) + spec_typed_events(page@.take(j + 1)));
            }
            j += 1;
        }
        events.push(RenderEvent::PageBreak);
        proof {
            assert(page@.take(plen as int) =~= page@);
            assert(events.deep_view() =~= (before_page.push(
                RenderEventView::PageHeader { index: i as int },
            ) + spec_typed_events(page@)).push(RenderEventView::PageBreak));
            assert(events.deep_view() =~= before_page + spec_page_events(page@, i as int));
            lemma_pages_events_step(document@.pages, i as int);
            assert(events.deep_view() =~= seq![
                RenderEventView::Start { path: document@.path },
            ] + spec_pages_events(document@.pages.take(i + 1)));
        }
        i += 1;
    }
    events.push(RenderEvent::Finished);
    proof {
        assert(document@.pages.take(npages as int) =~= document@.pages);
        assert(events.deep_view() =~= spec_render(document@));
    }
    events
}

} // verus!
