use pyprint::{Arg, LastResult, RecordingSink, SinkError, dispatch};

fn rendered_for(args: Vec<Arg<RecordingSink>>) -> String {
    let (p, r) = dispatch(RecordingSink::new(), args);
    assert!(r.is_ok());
    p.sink_ref().contents()
}

#[test]
fn values_join_under_default_options() {
    let out = rendered_for(vec![
        Arg::Value("Hello".to_string()),
        Arg::Value("World".to_string()),
    ]);
    assert_eq!(out, "Hello World\n");
}

#[test]
fn no_values_render_the_bare_terminator() {
    assert_eq!(rendered_for(vec![]), "\n");
    assert_eq!(rendered_for(vec![Arg::Sep("-".to_string())]), "\n");
}

#[test]
fn options_take_effect_in_any_position() {
    let before = rendered_for(vec![
        Arg::Sep("-".to_string()),
        Arg::Value("a".to_string()),
        Arg::Value("b".to_string()),
    ]);
    let between = rendered_for(vec![
        Arg::Value("a".to_string()),
        Arg::Sep("-".to_string()),
        Arg::Value("b".to_string()),
    ]);
    let after = rendered_for(vec![
        Arg::Value("a".to_string()),
        Arg::Value("b".to_string()),
        Arg::Sep("-".to_string()),
    ]);
    assert_eq!(before, "a-b\n");
    assert_eq!(before, between);
    assert_eq!(between, after);
}

#[test]
fn last_occurrence_of_an_option_wins() {
    let out = rendered_for(vec![
        Arg::Sep("-".to_string()),
        Arg::Sep("+".to_string()),
        Arg::Value("a".to_string()),
        Arg::Value("b".to_string()),
    ]);
    assert_eq!(out, "a+b\n");

    let out = rendered_for(vec![
        Arg::End("!".to_string()),
        Arg::Value("a".to_string()),
        Arg::End("?".to_string()),
    ]);
    assert_eq!(out, "a?");
}

#[test]
fn values_keep_their_order_and_repeats() {
    let out = rendered_for(vec![
        Arg::Value("x".to_string()),
        Arg::Value("x".to_string()),
        Arg::Value("y".to_string()),
    ]);
    assert_eq!(out, "x x y\n");
}

#[test]
fn debug_flavor_differs_from_display_for_strings() {
    let display = rendered_for(vec![Arg::Value(format!("{}", "quoted"))]);
    let debug = rendered_for(vec![Arg::Value(format!("{:?}", "quoted"))]);
    assert_eq!(display, "quoted\n");
    assert_eq!(debug, "\"quoted\"\n");
    assert_ne!(display, debug);
}

#[test]
fn file_option_redirects_the_output() {
    let replacement = RecordingSink::new();
    let (p, r) = dispatch(
        RecordingSink::new(),
        vec![Arg::File(replacement), Arg::Value("moved".to_string())],
    );
    assert!(r.is_ok());
    // the output stands in the replacement sink, which the job now owns
    assert_eq!(p.sink_ref().contents(), "moved\n");
}

#[test]
fn fresh_last_result_reports_success() {
    let slot = LastResult::new();
    assert!(slot.get().is_ok());
}

#[test]
fn last_result_is_overwritten_by_every_render() {
    let mut slot = LastResult::new();
    slot.record(Err(SinkError { msg: "pipe closed".to_string() }));
    let e = slot.get();
    assert!(e.is_err());
    assert_eq!(e.unwrap_err().msg, "pipe closed");
    slot.record(Ok(()));
    assert!(slot.get().is_ok());
}
