use rs_alloc::string::Append;
use rs_alloc::string::String;
use rs_alloc::vec::Vec;

fn collect(mut pieces: rs_alloc::string::Split) -> Vec<String> {
    let mut v = Vec::<String>::new();
    while let Some(p) = pieces.next() {
        v.push(p);
    }
    v
}

fn collect_lines(mut lines: rs_alloc::string::Lines) -> Vec<String> {
    let mut v = Vec::<String>::new();
    while let Some(p) = lines.next() {
        v.push(p);
    }
    v
}

#[test]
fn test_conversion() {
    {
        let u: u32 = 12345;
        let mut formatted = String::new();
        formatted.write_str(&format!("{}", u)).unwrap();
        if String::from("12345") != formatted {
            panic!("fail {}", u);
        }
    }

    {
        let i: i32 = -12345;
        let mut formatted = String::new();
        formatted.write_str(&format!("{}", i)).unwrap();
        if String::from("-12345") != formatted {
            panic!("fail {}", i);
        }
    }
}

#[test]
fn test_split() {
    let s = String::from("v 0/1/2 4/5/6");
    let ss1: Vec<String> = collect(s.split(" "));

    assert_eq!(ss1[0].as_str(), "v");
    assert_eq!(ss1[1].as_str(), "0/1/2");
    assert_eq!(ss1[2].as_str(), "4/5/6");

    let v = [["0", "1", "2"], ["4", "5", "6"]];
    for i in 1..3 {
        let ss2: Vec<String> = collect(ss1[i].split("/"));
        for j in 0..3 {
            assert_eq!(ss2[j].as_str(), v[i - 1][j]);
        }
    }
}

#[test]
fn test_lines() {
    let s = String::from("hello world\nsomething is different\n\n");
    let ss1: Vec<String> = collect_lines(s.lines());
    assert_eq!(ss1.len(), 2);
    assert_eq!(ss1[0].as_str(), "hello world");
    assert_eq!(ss1[1].as_str(), "something is different");
}

#[test]
fn split_leaves_out_empty_pieces() {
    let s = String::from(",,a,,b;c,");
    let pieces = collect(s.split(",;"));
    assert_eq!(pieces.len(), 3);
    assert_eq!(pieces[0].as_str(), "a");
    assert_eq!(pieces[1].as_str(), "b");
    assert_eq!(pieces[2].as_str(), "c");
    assert_eq!(collect(String::new().split(",")).len(), 0);
    assert_eq!(collect(String::from(",,,").split(",")).len(), 0);
    let whole = collect(String::from("abc").split(""));
    assert_eq!(whole.len(), 1);
    assert_eq!(whole[0].as_str(), "abc");
}

#[test]
fn split_hands_out_each_piece_once() {
    let s = String::from("a b");
    let mut pieces = s.split(" ");
    assert!(pieces.next().unwrap() == "a");
    assert!(pieces.next().unwrap() == "b");
    assert!(pieces.next().is_none());
    assert!(pieces.next().is_none());
}

#[test]
fn strings_grow_byte_by_byte() {
    let mut s = String::new();
    assert_eq!(s.len(), 0);
    s.push(b'h');
    s.push_str("ello");
    assert_eq!(s.len(), 5);
    assert_eq!(s.as_bytes(), b"hello");
    assert_eq!(s.as_str(), "hello");
    s.write_char('!').unwrap();
    s.write_char('\u{141}').unwrap();
    assert_eq!(s.as_bytes(), b"hello!A");
    s.as_bytes_mut()[0] = b'j';
    s.as_mut_vec().push(b'?');
    assert_eq!(s.as_bytes(), b"jello!A?");
    let bytes = s.into_bytes();
    assert_eq!(bytes.as_slice(), b"jello!A?");
    assert_eq!(bytes.capacity(), 16);
}

#[test]
fn strings_hold_any_utf8() {
    let s = String::from("größe");
    assert_eq!(s.len(), 7);
    assert_eq!(s.as_str(), "größe");
    let c = s.clone();
    assert!(c == s);
    assert!(c == "größe");
}

#[test]
fn equality_compares_the_bytes() {
    let a = String::from("same");
    let mut b = String::with_capacity(100);
    b.push_str("same");
    assert!(a == b);
    assert!(a == "same");
    assert!(a != "sam");
    assert!(a != "sane");
    assert!(a != String::from("samf"));
    assert!(String::new() == "");
}

#[test]
fn append_adds_the_other_string() {
    let mut a = String::from("left");
    let b = String::from("+right");
    a.append(&b);
    assert_eq!(a.as_str(), "left+right");
    assert_eq!(b.as_str(), "+right");
}

#[test]
fn from_raw_parts_takes_over_the_bytes() {
    let s = String::from_raw_parts(vec![b'o', b'k'], 2, 8);
    assert_eq!(s.as_str(), "ok");
    assert_eq!(s.into_bytes().capacity(), 8);
}
