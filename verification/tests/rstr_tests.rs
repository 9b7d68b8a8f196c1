use sgash::rstr::{rstr, ArgScan};

fn make(cap: usize, content: &[u8]) -> rstr {
    let mut s = rstr::new(cap);
    for &b in content {
        assert!(s.add_char(b));
    }
    s
}

#[test]
fn new_string_is_empty() {
    let s = rstr::new(256);
    assert_eq!(s.len(), 0);
    assert_eq!(s.max_length(), 256);
    assert_eq!(s.to_vec(), Vec::<u8>::new());
}

#[test]
fn add_char_stops_at_capacity() {
    let mut s = rstr::new(2);
    assert!(s.add_char(b'a'));
    assert!(s.add_char(b'b'));
    assert!(!s.add_char(b'c'));
    assert_eq!(s.to_vec(), b"ab".to_vec());
}

#[test]
fn remove_char_undoes_add_char() {
    let mut s = make(8, b"ls");
    assert!(s.add_char(b'x'));
    assert!(s.remove_char());
    assert_eq!(s.to_vec(), b"ls".to_vec());
}

#[test]
fn remove_char_on_empty_string() {
    let mut s = rstr::new(4);
    assert!(!s.remove_char());
    assert_eq!(s.len(), 0);
}

#[test]
fn flush_empties_but_keeps_capacity() {
    let mut s = make(5, b"abc");
    s.flush();
    assert_eq!(s.len(), 0);
    assert_eq!(s.max_length(), 5);
}

#[test]
fn set_string_keeps_what_fits() {
    let mut s = make(4, b"zz");
    assert!(s.set_string("Testing.."));
    assert_eq!(s.to_vec(), b"Test".to_vec());
    assert!(s.set_string("ok"));
    assert_eq!(s.to_vec(), b"ok".to_vec());
}

#[test]
fn eq_compares_content() {
    let a = make(10, b"file");
    let b = make(256, b"file");
    let c = make(10, b"fila");
    let d = make(10, b"fil");
    assert!(a.eq(&b));
    assert!(!a.eq(&c));
    assert!(!a.eq(&d));
    assert!(rstr::new(3).eq(&rstr::new(9)));
}

#[test]
fn streq_matches_whole_words() {
    let s = make(256, b"echo");
    assert!(s.streq("echo"));
    assert!(!s.streq("ech"));
    assert!(!s.streq("echoes"));
    assert!(!s.streq("ls"));
    assert!(rstr::new(4).streq(""));
}

#[test]
fn streq_reads_up_to_a_nul_cell() {
    // a trailing zero byte runs into the terminator and ends the text
    let s = make(8, b"ab\0");
    assert!(s.streq("ab"));
    // a lone zero byte followed by text does not end it
    let t = make(8, b"a\0b");
    assert!(!t.streq("a"));
}

#[test]
fn text_bytes_stop_at_four_zero_bytes() {
    let s = make(16, b"ab\0\0\0\0cd");
    assert_eq!(s.text_bytes(), b"ab".to_vec());
    let t = make(16, b"a\0b");
    assert_eq!(t.text_bytes(), b"a\0b".to_vec());
    let u = make(16, b"xy\0");
    assert_eq!(u.text_bytes(), b"xy".to_vec());
}

#[test]
fn get_arg_n_picks_space_separated_words() {
    let s = make(256, b"mv a.txt b.txt");
    assert_eq!(s.get_arg_n(' ', 0).unwrap().to_vec(), b"mv".to_vec());
    assert_eq!(s.get_arg_n(' ', 1).unwrap().to_vec(), b"a.txt".to_vec());
    assert_eq!(s.get_arg_n(' ', 2).unwrap().to_vec(), b"b.txt".to_vec());
    assert!(s.get_arg_n(' ', 3).is_none());
    assert_eq!(s.get_arg_n(' ', 0).unwrap().max_length(), 256);
}

#[test]
fn get_arg_n_keeps_empty_pieces() {
    let s = make(256, b"a  b");
    assert_eq!(s.get_arg_n(' ', 1).unwrap().to_vec(), Vec::<u8>::new());
    assert_eq!(s.get_arg_n(' ', 2).unwrap().to_vec(), b"b".to_vec());
}

#[test]
fn get_arg_n_with_quotes() {
    let s = make(256, b"echo \"hello world\" x");
    assert_eq!(s.get_arg_n('"', 1).unwrap().to_vec(), b"hello world".to_vec());
    assert_eq!(s.get_arg_n('"', 2).unwrap().to_vec(), b" x".to_vec());
    assert!(s.get_arg_n('"', 3).is_none());
}

#[test]
fn get_arg_n_of_empty_string() {
    let s = rstr::new(256);
    assert_eq!(s.get_arg_n(' ', 0).unwrap().to_vec(), Vec::<u8>::new());
    assert!(s.get_arg_n(' ', 1).is_none());
}

#[test]
fn scan_arg_overruns_a_full_buffer() {
    let full = make(3, b"abc");
    assert!(matches!(full.scan_arg(' ', 0), ArgScan::Overrun));
    assert!(matches!(full.scan_arg(' ', 5), ArgScan::Overrun));
    assert!(full.get_arg_n(' ', 0).is_none());
    // an argument closed by a delimiter is found before the end is reached
    let closed = make(3, b"a b");
    assert_eq!(closed.get_arg_n(' ', 0).unwrap().to_vec(), b"a".to_vec());
    assert!(matches!(closed.scan_arg(' ', 1), ArgScan::Overrun));
    // with room left the last piece is found
    let roomy = make(4, b"abc");
    assert_eq!(roomy.get_arg_n(' ', 0).unwrap().to_vec(), b"abc".to_vec());
    assert!(matches!(roomy.scan_arg(' ', 1), ArgScan::Missing));
}

#[test]
fn get_arg_n_cuts_long_arguments() {
    let long = vec![b'x'; 300];
    let s = make(400, &long);
    let a = s.get_arg_n(' ', 0).unwrap();
    assert_eq!(a.len(), 256);
    assert_eq!(a.to_vec(), vec![b'x'; 256]);
}

#[test]
fn get_arg_n_uses_the_low_byte_of_the_delimiter() {
    // U+0120 has 0x20 (a space) as its low byte
    let s = make(256, b"a b");
    assert_eq!(s.get_arg_n('\u{120}', 1).unwrap().to_vec(), b"b".to_vec());
}

#[test]
fn split_at_first_delimiter() {
    let s = make(256, b"key=val=ue");
    let (beg, end) = s.split('=');
    assert_eq!(beg.to_vec(), b"key".to_vec());
    assert_eq!(end.to_vec(), b"value".to_vec());
    assert_eq!(beg.max_length(), 256);
}

#[test]
fn split_without_delimiter() {
    let s = make(256, b"plain");
    let (beg, end) = s.split('=');
    assert_eq!(beg.to_vec(), b"plain".to_vec());
    assert_eq!(end.len(), 0);
}

#[test]
fn split_head_equals_first_argument() {
    let s = make(256, b"cat notes.txt");
    let (beg, _) = s.split(' ');
    assert!(beg.eq(&s.get_arg_n(' ', 0).unwrap()));
}

#[test]
fn first_cell_is_needs_three_zero_bytes_after() {
    assert!(make(8, b"1").first_cell_is(b'1'));
    assert!(!make(8, b"12").first_cell_is(b'1'));
    assert!(!rstr::new(8).first_cell_is(b'1'));
}

#[test]
fn pieces_joined_give_the_text_back() {
    let s = make(256, b"a,b,,c");
    let mut joined: Vec<u8> = Vec::new();
    let mut k = 0;
    while let Some(piece) = s.get_arg_n(',', k) {
        if k > 0 {
            joined.push(b',');
        }
        joined.extend(piece.to_vec());
        k += 1;
    }
    assert_eq!(k, 4);
    assert_eq!(joined, b"a,b,,c".to_vec());
}

#[test]
fn text_of_content_without_zero_bytes_is_the_content() {
    let s = make(16, b"hello");
    assert_eq!(s.text_bytes(), s.to_vec());
}

#[test]
fn split_tail_runs_later_pieces_together() {
    let s = make(256, b"a,bc,,d,");
    let (beg, end) = s.split(',');
    assert_eq!(beg.to_vec(), b"a".to_vec());
    assert_eq!(end.to_vec(), b"bcd".to_vec());
}
