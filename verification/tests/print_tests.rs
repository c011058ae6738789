use pyprint::{Arg, FailingSink, Printer, RecordingSink, SinkEvent, dispatch};

/// One round of smoke calls: a plain print, a debug print and an
/// error-family print, each through the dispatcher.
#[test]
fn test_print() {
    // plain flavor: display-formatted values
    let (p, r) = dispatch(
        RecordingSink::new(),
        vec![
            Arg::Flush(true),
            Arg::Value(format!("{}", "Hello")),
            Arg::Value(format!("{}", 34)),
            Arg::Value(format!("{}", 45)),
            Arg::Sep(";".to_string()),
            Arg::End(".\n".to_string()),
            Arg::Value(format!("{}", 34)),
        ],
    );
    r.unwrap();
    assert_eq!(p.sink_ref().contents(), "Hello;34;45;34.\n");

    // debug flavor: the same calls with debug-formatted values
    let (p, r) = dispatch(
        RecordingSink::new(),
        vec![
            Arg::Flush(true),
            Arg::Value(format!("{:?}", "Hello")),
            Arg::Value(format!("{:?}", 34)),
            Arg::Value(format!("{:?}", 45)),
            Arg::Sep(";".to_string()),
            Arg::End(".\n".to_string()),
            Arg::Value(format!("{:?}", 34)),
        ],
    );
    r.unwrap();
    assert_eq!(p.sink_ref().contents(), "\"Hello\";34;45;34.\n");

    // error family: same grammar, the sink standing for standard error
    let (p, r) = dispatch(RecordingSink::new(), vec![Arg::Value(format!("{}", "Hi!"))]);
    r.unwrap();
    assert_eq!(p.sink_ref().contents(), "Hi!\n");
}

#[test]
fn renders_elements_with_separators_between() {
    let mut p = Printer::new(RecordingSink::new());
    p.add_element("a".to_string());
    p.add_element("b".to_string());
    p.add_element("c".to_string());
    p.set_sep(", ".to_string());
    let r = p.print();
    assert!(r.is_ok());
    // three elements, exactly two separators, then the terminator
    assert_eq!(p.sink_ref().contents(), "a, b, c\n");
}

#[test]
fn renders_single_element_without_separator() {
    let mut p = Printer::new(RecordingSink::new());
    p.add_element("only".to_string());
    p.set_sep("!!".to_string());
    let r = p.print();
    assert!(r.is_ok());
    assert_eq!(p.sink_ref().contents(), "only\n");
}

#[test]
fn empty_render_emits_bare_terminator() {
    let mut p = Printer::new(RecordingSink::new());
    p.set_sep("--".to_string());
    p.set_end("END".to_string());
    let r = p.print();
    assert!(r.is_ok());
    assert_eq!(p.sink_ref().contents(), "END");
}

#[test]
fn builder_calls_chain() {
    let mut p = Printer::new(RecordingSink::new());
    p.add_element("1".to_string()).set_sep("+".to_string()).add_element("2".to_string()).set_end(
        "=\n".to_string(),
    );
    let r = p.print();
    assert!(r.is_ok());
    assert_eq!(p.sink_ref().contents(), "1+2=\n");
}

#[test]
fn flush_happens_once_after_terminator() {
    let mut p = Printer::new(RecordingSink::new());
    p.add_element("x".to_string());
    p.set_flush(true);
    let r = p.print();
    assert!(r.is_ok());
    let events = p.sink_ref().events();
    // writes of "x" and of the terminator, then exactly one flush, last
    assert_eq!(events.len(), 3);
    assert!(matches!(&events[0], SinkEvent::Write(s) if s == "x"));
    assert!(matches!(&events[1], SinkEvent::Write(s) if s == "\n"));
    assert!(matches!(&events[2], SinkEvent::Flush));
    assert_eq!(events.iter().filter(|e| matches!(e, SinkEvent::Flush)).count(), 1);
}

#[test]
fn no_flush_without_the_flag() {
    let mut p = Printer::new(RecordingSink::new());
    p.add_element("x".to_string());
    let r = p.print();
    assert!(r.is_ok());
    let events = p.sink_ref().events();
    assert!(events.iter().all(|e| matches!(e, SinkEvent::Write(_))));
}

#[test]
fn empty_render_skips_the_flush() {
    let mut p = Printer::new(RecordingSink::new());
    p.set_flush(true);
    let r = p.print();
    assert!(r.is_ok());
    let events = p.sink_ref().events();
    assert_eq!(events.len(), 1);
    assert!(matches!(&events[0], SinkEvent::Write(s) if s == "\n"));
}

#[test]
fn failure_on_second_write_stops_the_render() {
    let mut p = Printer::new(FailingSink::new(1));
    p.add_element("a".to_string());
    p.add_element("b".to_string());
    p.add_element("c".to_string());
    p.set_sep("-".to_string());
    let r = p.print();
    // the write of "a" went through; the write of "-b" was refused, the
    // refusal was logged, and nothing was attempted after it
    assert!(r.is_err());
    assert_eq!(p.sink_ref().contents(), "a");
    let events = p.sink_ref().events();
    assert_eq!(events.len(), 2);
    assert!(matches!(&events[0], SinkEvent::Write(s) if s == "a"));
    let msg = r.unwrap_err().msg;
    assert_eq!(msg, "the sink refused a write");
    assert!(matches!(&events[1], SinkEvent::Refused(m) if *m == msg));
}

#[test]
fn failure_on_flush_is_surfaced() {
    // enough budget for both writes, none left for the flush
    let mut p = Printer::new(FailingSink::new(2));
    p.add_element("a".to_string());
    p.set_flush(true);
    let r = p.print();
    assert!(r.is_err());
    assert_eq!(p.sink_ref().contents(), "a\n");
    let msg = r.unwrap_err().msg;
    assert_eq!(msg, "the sink refused a flush");
    let events = p.sink_ref().events();
    assert_eq!(events.len(), 3);
    assert!(matches!(&events[2], SinkEvent::Refused(m) if *m == msg));
}

#[test]
fn render_leaves_elements_in_place() {
    let mut p = Printer::new(RecordingSink::new());
    p.add_element("a".to_string());
    let r1 = p.print();
    assert!(r1.is_ok());
    let r2 = p.print();
    assert!(r2.is_ok());
    // nothing was cleared by the first render
    assert_eq!(p.sink_ref().contents(), "a\na\n");
}
