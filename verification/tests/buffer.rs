use pakken::buffer::Buffer;

#[test]
fn test_empty() {
    let buf = Buffer::default();
    let expected = String::new();
    assert_eq!(buf.flush(), expected);
}

#[test]
fn test_add() {
    let buf = Buffer::default();
    let new_buf = buf + "test";
    let expected = String::from("test");
    assert_eq!(new_buf.flush(), expected);
}

#[test]
fn test_add_assign() {
    let mut buf = Buffer::default();
    buf += "test";
    let expected = String::from("test");
    assert_eq!(buf.flush(), expected);
}

#[test]
fn test_indent() {
    let mut buf = Buffer::default();
    buf.indent();
    buf.new_line();
    buf += "test";
    let expected = String::from("\n\ttest");
    assert_eq!(buf.flush(), expected);
}

#[test]
fn test_unindent() {
    let mut buf = Buffer::default();
    buf += "0";
    buf.indent();
    buf.new_line();
    buf += "test";
    buf.unindent();
    buf.new_line();
    buf += "0";
    let expected = String::from("0\n\ttest\n0");
    assert_eq!(buf.flush(), expected);
}

#[test]
fn test_indent_indent() {
    let mut buf = Buffer::default();
    let mut buf2 = Buffer::default();
    buf2 += "1";
    buf2.indent();
    buf2.new_line();
    buf2 += "test";
    buf2.unindent();
    buf2.new_line();
    buf2 += "1";
    buf += "0";
    buf.indent();
    buf.new_line();
    buf += buf2.flush().as_str();
    buf.unindent();
    buf.new_line();
    buf += "0";
    let expected = String::from("0\n\t1\n\t\ttest\n\t1\n0");
    assert_eq!(buf.flush(), expected);
}
