use skim::helper::item_reader::{should_send, trim_line_ending, ITEMS_BUFFER_SIZE};

fn trimmed(line: &[u8], ending: u8) -> Vec<u8> {
    let mut b = line.to_vec();
    trim_line_ending(&mut b, ending);
    b
}

#[test]
fn trim_line_ending_drops_crlf_or_the_ending() {
    assert_eq!(trimmed(b"abc\r\n", b'\n'), b"abc".to_vec());
    assert_eq!(trimmed(b"abc\n", b'\n'), b"abc".to_vec());
    assert_eq!(trimmed(b"abc", b'\n'), b"abc".to_vec());
    assert_eq!(trimmed(b"\n\n", b'\n'), b"\n".to_vec());
    assert_eq!(trimmed(b"", b'\n'), Vec::<u8>::new());
}

#[test]
fn trim_line_ending_with_nul_endings() {
    assert_eq!(trimmed(b"a\nb\0", 0), b"a\nb".to_vec());
    // A trailing CRLF goes whatever the line ending is.
    assert_eq!(trimmed(b"a\r\n", 0), b"a".to_vec());
    assert_eq!(trimmed(b"a\r", 0), b"a\r".to_vec());
}

#[test]
fn should_send_on_full_batch_or_timeout() {
    assert!(should_send(ITEMS_BUFFER_SIZE, false));
    assert!(should_send(3, true));
    assert!(!should_send(3, false));
    assert!(!should_send(0, true));
}
