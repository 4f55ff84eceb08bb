use cp_rs::io::{ErrorKind, Io};

#[test]
fn playground() {
    let s = "5, 4, 3, 2, 1";
    let mut io = Io::from_str(s);
    let a: usize = io.read().unwrap();
    io.write(a);
}

#[test]
fn tokens_in_order_across_mixed_delimiters() {
    let mut io = Io::from_str(" \t alpha,beta\r\ngamma  ,,\n delta,");
    let a: String = io.read().unwrap();
    let b: String = io.read().unwrap();
    let c: String = io.read().unwrap();
    let d: String = io.read().unwrap();
    assert_eq!(a, "alpha");
    assert_eq!(b, "beta");
    assert_eq!(c, "gamma");
    assert_eq!(d, "delta");
    let tail: String = io.read().unwrap();
    assert_eq!(tail, "");
}

#[test]
fn vector_then_token_never_rereads_or_skips() {
    let mut io = Io::from_str("10 20 30 40");
    let first: Vec<u64> = io.vec(3).unwrap();
    assert_eq!(first, vec![10, 20, 30]);
    let last: u64 = io.read().unwrap();
    assert_eq!(last, 40);
}

#[test]
fn read_line_then_drain() {
    let mut io = Io::from_str("a,b\nc,d");
    assert_eq!(io.read_line(), "a,b");
    assert_eq!(io.read_line(), "c,d");
    assert_eq!(io.read_all(), "");
}

#[test]
fn read_line_examples() {
    let mut io = Io::from_str("test 1 +4, 1\nabc");
    assert_eq!(io.read_line(), "test 1 +4, 1");
    assert_eq!(io.read_line(), "abc");
}

#[test]
fn idx_converts_one_based_to_zero_based() {
    let mut io = Io::from_str("3");
    assert_eq!(io.idx().unwrap(), 2);
    let mut io = Io::from_str("1");
    assert_eq!(io.idx().unwrap(), 0);
}

#[test]
fn idx_rejects_zero_and_garbage() {
    let mut io = Io::from_str("0");
    assert_eq!(io.idx(), Err(ErrorKind::PreconditionViolation));
    let mut io = Io::from_str("x");
    assert_eq!(io.idx(), Err(ErrorKind::ParseError));
}

#[test]
fn idx_with_nums() {
    let mut io = Io::from_str("3\n0, 1, 2");
    let idx = io.idx().unwrap();
    let vec = io.nums::<usize>().unwrap();
    assert_eq!(vec[idx], 2);
}

#[test]
fn nums_extracts_integers_in_order() {
    let mut io = Io::from_str("a: 12, b: -1 and d = 2");
    let nums = io.nums::<isize>().unwrap();
    assert_eq!(nums, vec![12, -1, 2]);
}

#[test]
fn nums_edge_patterns() {
    let mut io = Io::from_str("x--5y 12-34 -");
    let nums = io.nums::<i64>().unwrap();
    assert_eq!(nums, vec![-5, 12, -34]);
    let mut io = Io::from_str("no digits here");
    let nums = io.nums::<i64>().unwrap();
    assert_eq!(nums, Vec::<i64>::new());
}

#[test]
fn nums_ignores_plus_signs() {
    let mut io = Io::from_str("x+12 and +3");
    let nums = io.nums::<i64>().unwrap();
    assert_eq!(nums, vec![12, 3]);
}

#[test]
fn nums_matches_ascii_digits_only() {
    // U+0663 is a Unicode decimal digit but not an ASCII one: it is
    // surrounding text, not part of any match.
    let mut io = Io::from_str("\u{0663}5 and \u{0663} then 7");
    let nums = io.nums::<i64>().unwrap();
    assert_eq!(nums, vec![5, 7]);
}

#[test]
fn lines_keeps_carriage_return_on_unterminated_final_line() {
    let mut io = Io::from_str("a\r");
    assert_eq!(io.lines(), vec!["a\r".to_string()]);
    let mut io = Io::from_str("a\r\n");
    assert_eq!(io.lines(), vec!["a".to_string()]);
}

#[test]
fn tuple_of_unsigned_string_float() {
    let mut io = Io::from_str("1, hello -5.1");
    let (num, string, float_text): (u32, String, String) = io.tuple().unwrap();
    assert_eq!(num, 1);
    assert_eq!(string, "hello");
    let float: f32 = float_text.parse().unwrap();
    assert_eq!(float, -5.1);
}

#[test]
fn tuple_arities() {
    let mut io = Io::from_str("1 2");
    let (a, b): (u64, u64) = io.tuple().unwrap();
    assert_eq!((a, b), (1, 2));
    let mut io = Io::from_str("1 2 3 4");
    let (a, b, c, d): (u64, u64, u64, u64) = io.tuple().unwrap();
    assert_eq!((a, b, c, d), (1, 2, 3, 4));
    let mut io = Io::from_str("1 2 3 4 5");
    let (a, b, c, d, e): (u64, u64, u64, u64, u64) = io.tuple().unwrap();
    assert_eq!((a, b, c, d, e), (1, 2, 3, 4, 5));
    let mut io = Io::from_str("1 2 3 4 5 6");
    let (a, b, c, d, e, f): (u64, u64, u64, u64, u64, u64) = io.tuple().unwrap();
    assert_eq!((a, b, c, d, e, f), (1, 2, 3, 4, 5, 6));
    let mut io = Io::from_str("1 two");
    let r: Result<(u64, u64), ErrorKind> = io.tuple();
    assert_eq!(r, Err(ErrorKind::ParseError));
}

#[test]
fn write_flush_read_back_round_trip() {
    let mut io = Io::from_str("");
    io.write(12345u64);
    io.flush();
    let text = io.take_flushed();
    assert_eq!(text, "12345");
    let mut back = Io::from_str(&text);
    let v: u64 = back.read().unwrap();
    assert_eq!(v, 12345);

    let mut io = Io::from_str("");
    io.write(-987i64);
    io.flush();
    let text = io.take_flushed();
    assert_eq!(text, "-987");
    let mut back = Io::from_str(&text);
    let v: i64 = back.read().unwrap();
    assert_eq!(v, -987);
}

#[test]
fn line_io_gives_independent_child_contexts() {
    let mut io = Io::from_str("1, a\n2, b\n3, c");
    let mut children = io.line_io();
    assert_eq!(children.len(), 3);
    // Read the children out of order: no delimiter-skip state crosses over.
    let (n3, c3): (usize, char) = children[2].tuple().unwrap();
    let (n1, c1): (usize, char) = children[0].tuple().unwrap();
    let (n2, c2): (usize, char) = children[1].tuple().unwrap();
    assert_eq!((n1, c1), (1, 'a'));
    assert_eq!((n2, c2), (2, 'b'));
    assert_eq!((n3, c3), (3, 'c'));
    for child in children.iter_mut() {
        assert_eq!(child.read_all(), "");
    }
    assert_eq!(io.read_all(), "");
}

#[test]
fn lines_splits_on_line_feeds() {
    let mut io = Io::from_str("1, a\n2, b");
    assert_eq!(io.lines(), vec!["1, a".to_string(), "2, b".to_string()]);
    let mut io = Io::from_str("one\r\ntwo\n");
    assert_eq!(io.lines(), vec!["one".to_string(), "two".to_string()]);
}

#[test]
fn chars_explodes_one_token() {
    let mut io = Io::from_str("abc, def");
    assert_eq!(io.chars(), vec!['a', 'b', 'c']);
    assert_eq!(io.chars(), vec!['d', 'e', 'f']);
}

#[test]
fn read_char_skips_delimiters() {
    let mut io = Io::from_str("a1, +");
    assert_eq!(io.read_char().unwrap(), 'a');
    assert_eq!(io.read_char().unwrap(), '1');
    assert_eq!(io.read_char().unwrap(), '+');
    assert_eq!(io.read_char(), Err(ErrorKind::ParseError));
}

#[test]
fn read_mixed_types() {
    let mut io = Io::from_str("1, hello -5.1\n-9");
    let int: u32 = io.read().unwrap();
    assert_eq!(int, 1);
    let string: String = io.read().unwrap();
    assert_eq!(string, "hello");
    let float_text: String = io.read().unwrap();
    assert_eq!(float_text.parse::<f32>().unwrap(), -5.1);
    let neg_int: i32 = io.read().unwrap();
    assert_eq!(neg_int, -9);
}

#[test]
fn read_all_returns_content_verbatim() {
    let mut io = Io::from_str("test 1 +4, 1\nabc");
    assert_eq!(io.read_all(), "test 1 +4, 1\nabc");
    assert_eq!(io.read_all(), "");
}

#[test]
fn numeric_parse_bounds() {
    let mut io = Io::from_str("18446744073709551615");
    assert_eq!(io.read::<u64>().unwrap(), u64::MAX);
    let mut io = Io::from_str("18446744073709551616");
    assert_eq!(io.read::<u64>(), Err(ErrorKind::ParseError));
    let mut io = Io::from_str("+42");
    assert_eq!(io.read::<u64>().unwrap(), 42);
    let mut io = Io::from_str("-9223372036854775808");
    assert_eq!(io.read::<i64>().unwrap(), i64::MIN);
    let mut io = Io::from_str("-9223372036854775809");
    assert_eq!(io.read::<i64>(), Err(ErrorKind::ParseError));
    let mut io = Io::from_str("--5");
    assert_eq!(io.read::<i64>(), Err(ErrorKind::ParseError));
    let mut io = Io::from_str("4294967296");
    assert_eq!(io.read::<u32>(), Err(ErrorKind::ParseError));
    let mut io = Io::from_str("-2147483648");
    assert_eq!(io.read::<i32>().unwrap(), i32::MIN);
}

#[test]
fn read_on_exhausted_content_fails_for_numbers() {
    let mut io = Io::from_str("");
    assert_eq!(io.read::<u64>(), Err(ErrorKind::ParseError));
    let mut io = Io::from_str(" ,\t\n");
    assert_eq!(io.read::<u64>(), Err(ErrorKind::ParseError));
}

#[test]
fn read_single_char_token() {
    let mut io = Io::from_str("a");
    assert_eq!(io.read::<char>().unwrap(), 'a');
    let mut io = Io::from_str("ab");
    assert_eq!(io.read::<char>(), Err(ErrorKind::ParseError));
}

#[test]
fn writer_buffers_until_flush() {
    let mut io = Io::from_str("");
    io.write("Test");
    io.nl();
    io.nl();
    io.write(5);
    assert_eq!(io.take_flushed(), "");
    io.flush();
    assert_eq!(io.take_flushed(), "Test\n\n5");
}

#[test]
fn writeln_appends_line_feed_and_flushes() {
    let mut io = Io::from_str("");
    io.writeln("Test");
    io.write(5);
    assert_eq!(io.take_flushed(), "Test\n");
    io.flush();
    assert_eq!(io.take_flushed(), "5");
}

#[test]
fn writed_prints_structural_form() {
    let mut io = Io::from_str("");
    io.writed(vec![0, 1, 2]);
    io.flush();
    assert_eq!(io.take_flushed(), "[0, 1, 2]");
}

#[test]
fn writedln_prints_and_flushes() {
    let mut io = Io::from_str("");
    io.writedln(vec![0, 1, 2]);
    io.writed(vec![3, 4, 5]);
    io.flush();
    assert_eq!(io.take_flushed(), "[0, 1, 2]\n[3, 4, 5]");
}

#[test]
fn vec_reads_n_tokens() {
    let mut io = Io::from_str("3\n0, 1, 2");
    let len: usize = io.read().unwrap();
    let vec = io.vec::<usize>(len).unwrap();
    assert_eq!(vec, vec![0, 1, 2]);
    let mut io = Io::from_str("1 two 3");
    assert_eq!(io.vec::<u64>(3), Err(ErrorKind::ParseError));
}

#[test]
fn from_string_matches_from_str() {
    let mut io = Io::from_string(String::from("7 8"));
    assert_eq!(io.read::<u64>().unwrap(), 7);
    assert_eq!(io.read::<u64>().unwrap(), 8);
}
