use sausage::sink::BoundedSink;
use sausage::sink::StringSink;
use sausage::ErrorChain;

#[test]
fn root_only_renders_bare_message() {
    let chain = ErrorChain::new(String::from("oh noes!"));
    assert_eq!(chain.render_to_string(), "oh noes!");
}

#[test]
fn empty_root_renders_empty() {
    let chain = ErrorChain::new(String::new());
    assert_eq!(chain.render_to_string(), "");
}

#[test]
fn single_cause_is_indented_without_ordinal() {
    let mut chain = ErrorChain::new(String::from("root"));
    chain.push_cause(String::from("disk full"));
    assert_eq!(chain.render_to_string(), "root\n\nCaused by:\n    disk full");
}

#[test]
fn two_causes_get_ascending_ordinals() {
    let mut chain = ErrorChain::new(String::from("root"));
    chain.push_cause(String::from("A"));
    chain.push_cause(String::from("B"));
    assert_eq!(chain.render_to_string(), "root\n\nCaused by:\n0:    A\n1:    B");
}

#[test]
fn multiline_cause_indents_every_line() {
    let mut chain = ErrorChain::new(String::from("root"));
    chain.push_cause(String::from("line1\nline2"));
    assert_eq!(chain.render_to_string(), "root\n\nCaused by:\n    line1\n    line2");
}

#[test]
fn multiline_cause_in_numbered_mode() {
    let mut chain = ErrorChain::new(String::from("root"));
    chain.push_cause(String::from("line1\nline2"));
    chain.push_cause(String::from("B"));
    assert_eq!(chain.render_to_string(), "root\n\nCaused by:\n0:    line1\n    line2\n1:    B");
}

#[test]
fn trailing_newline_yields_indented_empty_line() {
    let mut chain = ErrorChain::new(String::from("root"));
    chain.push_cause(String::from("a\n"));
    assert_eq!(chain.render_to_string(), "root\n\nCaused by:\n    a\n    ");
}

#[test]
fn empty_messages_still_get_their_indent() {
    let mut chain = ErrorChain::new(String::new());
    chain.push_cause(String::new());
    assert_eq!(chain.render_to_string(), "\n\nCaused by:\n    ");
}

#[test]
fn non_ascii_messages_render_whole() {
    let mut chain = ErrorChain::new(String::from("räksmörgås"));
    chain.push_cause(String::from("smörgåsbord\nåter"));
    assert_eq!(chain.render_to_string(), "räksmörgås\n\nCaused by:\n    smörgåsbord\n    åter");
}

#[test]
fn rendering_twice_gives_identical_bytes() {
    let mut chain = ErrorChain::new(String::from("root"));
    chain.push_cause(String::from("A"));
    chain.push_cause(String::from("B"));
    let once = chain.render_to_string();
    let again = chain.render_to_string();
    assert_eq!(once, again);
    let mut s1 = StringSink::new();
    let mut s2 = StringSink::new();
    assert!(chain.render(&mut s1).is_ok());
    assert!(chain.render(&mut s2).is_ok());
    assert_eq!(s1.into_string(), s2.into_string());
}

#[test]
fn one_block_per_cause() {
    let mut chain = ErrorChain::new(String::from("root"));
    let mut expected = String::from("root\n\nCaused by:");
    for i in 0..5 {
        chain.push_cause(format!("cause {i}"));
        expected.push_str(&format!("\n{i}:    cause {i}"));
    }
    assert_eq!(chain.cause_count(), 5);
    let out = chain.render_to_string();
    assert_eq!(out, expected);
    assert_eq!(out.matches(":    cause").count(), 5);
}

#[test]
fn ordinals_reach_two_digits() {
    let mut chain = ErrorChain::new(String::from("root"));
    let mut expected = String::from("root\n\nCaused by:");
    for i in 0..12 {
        chain.push_cause(format!("c{i}"));
        expected.push_str(&format!("\n{i}:    c{i}"));
    }
    assert_eq!(chain.render_to_string(), expected);
}

#[test]
fn write_failure_is_reported_and_truncates() {
    let mut chain = ErrorChain::new(String::from("root"));
    chain.push_cause(String::from("A"));
    chain.push_cause(String::from("B"));
    // "root" (4 chars), the header (12 chars) and the first block (8 chars)
    // fit; the second block does not, so the render fails there.
    let mut sink = BoundedSink::new(24);
    assert!(chain.render(&mut sink).is_err());
    assert_eq!(sink.into_string(), "root\n\nCaused by:\n0:    A");
}

#[test]
fn write_failure_on_the_root_leaves_nothing() {
    let chain = ErrorChain::new(String::from("root"));
    let mut sink = BoundedSink::new(3);
    assert!(chain.render(&mut sink).is_err());
    assert_eq!(sink.into_string(), "");
}

#[test]
fn a_render_that_fits_succeeds_on_a_bounded_sink() {
    let mut chain = ErrorChain::new(String::from("root"));
    chain.push_cause(String::from("A"));
    let mut sink = BoundedSink::new(100);
    assert!(chain.render(&mut sink).is_ok());
    assert_eq!(sink.into_string(), "root\n\nCaused by:\n    A");
}
