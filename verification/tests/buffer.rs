use fixed_string::{line_of, StringStruct, TextError, ToStr, NEWLINE};

#[test]
fn hello_world_buffer_and_view() {
    let b = StringStruct::new(b"Hello World").unwrap();
    let raw = b.as_bytes();
    assert_eq!(raw.len(), 80);
    assert_eq!(&raw[..11], b"Hello World");
    for i in 11..80 {
        assert_eq!(raw[i], 0);
    }
    assert_eq!(b.len(), 11);
    assert_eq!(b.c_str().unwrap(), b"Hello World");
    assert_eq!(line_of(&b).unwrap(), b"Hello World\n".to_vec());
}

#[test]
fn full_buffer_view_unchanged() {
    let input: Vec<u8> = vec![65u8; 80];
    let b = StringStruct::new(&input).unwrap();
    assert_eq!(b.len(), 80);
    assert_eq!(b.c_str().unwrap(), &input[..]);
}

#[test]
fn oversized_input_rejected() {
    let input: Vec<u8> = vec![66u8; 81];
    match StringStruct::new(&input) {
        Err(e) => assert_eq!(e, TextError::InputTooLong),
        Ok(_) => panic!("oversized input was accepted"),
    }
}

#[test]
fn empty_input_gives_empty_view() {
    let b = StringStruct::new(b"").unwrap();
    let raw = b.as_bytes();
    assert_eq!(raw.len(), 80);
    for i in 0..80 {
        assert_eq!(raw[i], 0);
    }
    assert_eq!(b.len(), 0);
    assert_eq!(b.c_str().unwrap(), b"");
    assert_eq!(line_of(&b).unwrap(), vec![NEWLINE]);
}

#[test]
fn round_trip_exact() {
    let t = b"The quick brown fox jumps over the lazy dog";
    let b = StringStruct::new(t).unwrap();
    assert_eq!(b.c_str().unwrap(), t);
}

#[test]
fn embedded_zero_terminates_view() {
    let input: Vec<u8> = vec![97, 98, 0, 99, 100];
    let b = StringStruct::new(&input).unwrap();
    assert_eq!(b.len(), 2);
    assert_eq!(b.c_str().unwrap(), &[97u8, 98u8][..]);
}

#[test]
fn non_ascii_content_rejected() {
    let input: Vec<u8> = vec![200, 65, 66];
    let b = StringStruct::new(&input).unwrap();
    match b.c_str() {
        Err(e) => assert_eq!(e, TextError::InvalidEncoding),
        Ok(_) => panic!("non-ascii content was accepted"),
    }
    match line_of(&b) {
        Err(e) => assert_eq!(e, TextError::InvalidEncoding),
        Ok(_) => panic!("non-ascii content was accepted by line_of"),
    }
}
