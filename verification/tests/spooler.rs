use print_spooler::document::Document;
use print_spooler::output::{decimal_string, event_text};
use print_spooler::printer::Printer;
use print_spooler::render::{render_events, RenderEvent};

fn doc(path: &str, pages: &[&str]) -> Document {
    Document {
        path: path.to_string(),
        pages: pages.iter().map(|p| p.to_string()).collect(),
    }
}

fn start_path(event: &RenderEvent) -> &str {
    match event {
        RenderEvent::Start { path } => path,
        _ => panic!("expected a start event"),
    }
}

#[test]
fn empty_queue_print_is_noop() {
    let mut printer = Printer::new();
    assert_eq!(printer.queue_len(), 0);
    assert!(printer.print().is_none());
    assert_eq!(printer.queue_len(), 0);
    assert!(printer.print().is_none());
    assert_eq!(printer.queue_len(), 0);
}

#[test]
fn single_document_render() {
    let mut printer = Printer::new();
    printer.add_to_queue(doc("a.txt", &["Hi"]));
    assert_eq!(printer.queue_len(), 1);
    let events = printer.print().expect("one document was queued");
    assert_eq!(events.len(), 6);
    assert!(matches!(&events[0], RenderEvent::Start { path } if path == "a.txt"));
    assert!(matches!(events[1], RenderEvent::PageHeader { index: 0 }));
    assert!(matches!(events[2], RenderEvent::TypedChar { c: 'H' }));
    assert!(matches!(events[3], RenderEvent::TypedChar { c: 'i' }));
    assert!(matches!(events[4], RenderEvent::PageBreak));
    assert!(matches!(events[5], RenderEvent::Finished));
    assert_eq!(printer.queue_len(), 0);
}

#[test]
fn two_documents_print_in_order() {
    let mut printer = Printer::new();
    printer.add_to_queue(doc("first.txt", &["aa"]));
    printer.add_to_queue(doc("second.txt", &["bb"]));
    let first = printer.print().expect("two documents were queued");
    assert_eq!(start_path(&first[0]), "first.txt");
    assert_eq!(printer.queue_len(), 1);
    let second = printer.print().expect("one document was left");
    assert_eq!(start_path(&second[0]), "second.txt");
    assert_eq!(printer.queue_len(), 0);
    assert!(printer.print().is_none());
}

#[test]
fn many_documents_fifo_order() {
    let mut printer = Printer::new();
    let names = ["one", "two", "three", "four", "five"];
    for name in &names {
        printer.add_to_queue(doc(name, &["x"]));
    }
    assert_eq!(printer.queue_len(), names.len());
    for name in &names {
        let events = printer.print().expect("a document was still queued");
        assert_eq!(start_path(&events[0]), *name);
    }
    assert_eq!(printer.queue_len(), 0);
}

#[test]
fn enqueue_grows_queue_by_one() {
    let mut printer = Printer::new();
    for expected in 1..=4usize {
        printer.add_to_queue(doc("d", &[]));
        assert_eq!(printer.queue_len(), expected);
    }
}

#[test]
fn render_two_pages_complete_and_in_order() {
    let events = render_events(&doc("r.txt", &["ab", "c"]));
    assert_eq!(events.len(), 9);
    assert!(matches!(&events[0], RenderEvent::Start { path } if path == "r.txt"));
    assert!(matches!(events[1], RenderEvent::PageHeader { index: 0 }));
    assert!(matches!(events[2], RenderEvent::TypedChar { c: 'a' }));
    assert!(matches!(events[3], RenderEvent::TypedChar { c: 'b' }));
    assert!(matches!(events[4], RenderEvent::PageBreak));
    assert!(matches!(events[5], RenderEvent::PageHeader { index: 1 }));
    assert!(matches!(events[6], RenderEvent::TypedChar { c: 'c' }));
    assert!(matches!(events[7], RenderEvent::PageBreak));
    assert!(matches!(events[8], RenderEvent::Finished));
}

#[test]
fn render_document_without_pages() {
    let events = render_events(&doc("empty.txt", &[]));
    assert_eq!(events.len(), 2);
    assert!(matches!(&events[0], RenderEvent::Start { path } if path == "empty.txt"));
    assert!(matches!(events[1], RenderEvent::Finished));
}

#[test]
fn render_empty_page() {
    let events = render_events(&doc("blank.txt", &[""]));
    assert_eq!(events.len(), 4);
    assert!(matches!(events[1], RenderEvent::PageHeader { index: 0 }));
    assert!(matches!(events[2], RenderEvent::PageBreak));
    assert!(matches!(events[3], RenderEvent::Finished));
}

#[test]
fn render_multibyte_characters() {
    let events = render_events(&doc("u.txt", &["héllo"]));
    let chars: Vec<char> = events
        .iter()
        .filter_map(|e| match e {
            RenderEvent::TypedChar { c } => Some(*c),
            _ => None,
        })
        .collect();
    assert_eq!(chars, vec!['h', 'é', 'l', 'l', 'o']);
}

#[test]
fn start_line_mentions_path() {
    let event = RenderEvent::Start { path: "a.txt".to_string() };
    let line = event_text(&event).expect("a start event prints a line");
    assert!(line.contains("Printing 'a.txt'\n"));
}

#[test]
fn page_header_line_shows_number() {
    let event = RenderEvent::PageHeader { index: 12 };
    let line = event_text(&event).expect("a page header prints a line");
    assert!(line.ends_with(" Page 12:"));
    assert!(line.contains("->"));
}

#[test]
fn typed_char_prints_no_line() {
    let event = RenderEvent::TypedChar { c: 'x' };
    assert!(event_text(&event).is_none());
}

#[test]
fn page_break_line_is_blank() {
    let event = RenderEvent::PageBreak;
    let line = event_text(&event).expect("a page break prints a line");
    assert_eq!(line, "\n");
}

#[test]
fn finished_line_names_finished() {
    let event = RenderEvent::Finished;
    let line = event_text(&event).expect("a finished event prints a line");
    assert!(line.contains("Finished"));
    assert!(line.ends_with("\n"));
}

#[test]
fn decimal_rendering_is_exact() {
    assert_eq!(decimal_string(0), "0");
    assert_eq!(decimal_string(7), "7");
    assert_eq!(decimal_string(10), "10");
    assert_eq!(decimal_string(109), "109");
    assert_eq!(decimal_string(12345), "12345");
    assert_eq!(decimal_string(1000000), "1000000");
}
