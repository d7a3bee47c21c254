//! Confirmation lines taken byte by byte.

use kidobo::adapter::prompt::{PromptInput, PromptLine, PromptStep};

fn feed(line: &mut PromptLine, text: &str) {
    for byte in text.bytes() {
        line.take(PromptInput::Byte(byte));
    }
}

#[test]
fn a_line_ends_at_its_line_feed() {
    let mut line = PromptLine::new();
    feed(&mut line, "yes");
    line.take(PromptInput::Idle);
    assert_eq!(line.next(false), PromptStep::Look);
    feed(&mut line, "\nno");
    assert_eq!(line.next(false), PromptStep::Done);
    assert_eq!(line.bytes, b"yes".to_vec());
}

#[test]
fn the_end_of_input_completes_a_line() {
    let mut line = PromptLine::new();
    feed(&mut line, "y");
    line.take(PromptInput::End);
    assert_eq!(line.next(false), PromptStep::Done);
    assert_eq!(line.bytes, b"y".to_vec());
}

#[test]
fn cancellation_interrupts_partial_and_complete_lines() {
    let mut line = PromptLine::new();
    assert_eq!(line.next(true), PromptStep::Interrupted);
    feed(&mut line, "yes\n");
    assert_eq!(line.next(true), PromptStep::Interrupted);
}
