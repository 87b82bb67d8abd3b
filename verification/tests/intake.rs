use kusanagi_kernel::{members, split_name, FirstLine, ON_STDIN};

#[test]
fn the_first_line_is_the_name_and_the_rest_is_left() {
    let (name, rest) = split_name(b"  alice \r\nhello\nthere").unwrap();
    assert_eq!(name, "alice");
    assert_eq!(rest, b"hello\nthere");
}

#[test]
fn a_pipe_without_a_newline_is_all_name() {
    let (name, rest) = split_name("bob\u{3000}".as_bytes()).unwrap();
    assert_eq!(name, "bob");
    assert!(rest.is_empty());
    assert_eq!(ON_STDIN, "-");
}

#[test]
fn a_first_line_that_is_not_a_name_says_why() {
    assert_eq!(split_name(b"\xff\xfe\nrest"), Err(FirstLine::NotText));
    assert_eq!(split_name(b" \t \nrest"), Err(FirstLine::Empty));
    assert_eq!(split_name(b""), Err(FirstLine::Empty));
    assert_eq!(FirstLine::NotText.reason(), "the first line of stdin is not text");
    assert_eq!(
        FirstLine::Empty.reason(),
        "the first line of stdin, where the name was to be, is empty"
    );
}

#[test]
fn members_are_one_per_line_trimmed_without_blanks() {
    let listed = members(b"alice\r\n\n  bob  \n\t\ncarol").unwrap();
    assert_eq!(listed, vec!["alice".to_owned(), "bob".to_owned(), "carol".to_owned()]);
}

#[test]
fn an_empty_or_blank_list_names_nobody() {
    assert_eq!(members(b"").unwrap(), Vec::<String>::new());
    assert_eq!(members(b"\n \r\n\n").unwrap(), Vec::<String>::new());
}

#[test]
fn a_member_keeps_the_spaces_inside_its_name() {
    assert_eq!(members("  ana maría \n".as_bytes()).unwrap(), vec!["ana maría".to_owned()]);
}

#[test]
fn a_member_list_that_is_not_text_is_refused() {
    assert_eq!(members(&[b'a', b'\n', 0xff, 0xfe]), None);
}
