//! The log behind the screen.

use portmanager::logbuf::{new_buffer, LogWriter, MakeLogWriter, CAPACITY};

fn lines(w: &LogWriter) -> Vec<String> {
    (0..w.buf.len()).map(|i| w.buf.line(i).unwrap().to_string()).collect()
}

#[test]
fn splits_lines_and_bounds_capacity() {
    let mut w = MakeLogWriter::new(new_buffer()).make_writer();
    // Deliberately split a line across writes to exercise the pending buffer.
    assert_eq!(w.write(b"first line\nsecond "), 18);
    assert_eq!(w.write(b"line\n"), 5);
    let lines = lines(&w);
    assert_eq!(lines.len(), 2);
    assert_eq!(lines[0], "first line");
    assert_eq!(lines[1], "second line");
}

#[test]
fn drops_oldest_past_capacity() {
    let mut w = MakeLogWriter::new(new_buffer()).make_writer();
    for i in 0..(CAPACITY + 5) {
        let line = format!("line {i}\n");
        w.write(line.as_bytes());
    }
    let lines = lines(&w);
    assert_eq!(lines.len(), CAPACITY);
    assert_eq!(lines.first().unwrap(), "line 5");
    assert_eq!(lines.last().unwrap(), &format!("line {}", CAPACITY + 4));
}

#[test]
fn bytes_that_are_no_text_are_replaced() {
    let mut w = MakeLogWriter::new(new_buffer()).make_writer();
    w.write(b"a\xffb\n");
    assert_eq!(lines(&w), vec!["a\u{fffd}b"]);
    assert_eq!(w.buf.line(1), None);
}

#[test]
fn text_comes_through_without_the_space_behind_it() {
    let mut w = MakeLogWriter::new(new_buffer()).make_writer();
    w.write("  gr\u{fc}n \u{2713} \t\r\n\n".as_bytes());
    assert_eq!(lines(&w), vec!["  gr\u{fc}n \u{2713}", ""]);
}

#[test]
fn an_unfinished_line_waits() {
    let mut w = MakeLogWriter::new(new_buffer()).make_writer();
    let mut data = Vec::new();
    for i in 0..(CAPACITY + 2) {
        data.extend_from_slice(format!("{i} \n").as_bytes());
    }
    data.extend_from_slice(b"rest");
    w.write(&data);
    assert_eq!(w.buf.len(), CAPACITY);
    assert_eq!((w.buf.line(0), w.buf.line(CAPACITY - 1)), (Some("2"), Some("1001")));
    assert_eq!(w.pending, b"rest");
}

#[test]
fn writes_compose() {
    let mut a = MakeLogWriter::new(new_buffer()).make_writer();
    let mut b = MakeLogWriter::new(new_buffer()).make_writer();
    a.write(b"x\ny\nz");
    b.write(b"x\n");
    b.write(b"y\nz");
    assert_eq!(lines(&a), lines(&b));
    assert_eq!(a.pending, b.pending);
}
