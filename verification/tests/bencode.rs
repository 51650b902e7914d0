use torrent_rs::bencode::{dict_get, dict_insert, Bencode, BencodeError};

#[test]
fn test_bencode_decode_string() {
    let input = b"5:hello";
    let expected = Bencode::Bytes(b"hello".to_vec());
    let result = Bencode::decode(input).unwrap();
    assert_eq!(result, expected);
}

#[test]
fn test_bencode_decode_integer() {
    let input = b"i5e";
    let expected = Bencode::Int(5);
    let result = Bencode::decode(input).unwrap();
    assert_eq!(result, expected);
}

#[test]
fn test_bencode_decode_list() {
    let input = b"l5:helloi52ee";
    let expected = Bencode::List(vec![Bencode::Bytes(b"hello".to_vec()), Bencode::Int(52)]);
    let result = Bencode::decode(input).unwrap();
    assert_eq!(result, expected);
}

#[test]
fn test_bencode_decode_dict() {
    let input = b"d3:foo3:bar5:helloi52ee";
    let expected = Bencode::Dict(
        vec![
            (b"foo".to_vec(), Bencode::Bytes(b"bar".to_vec())),
            (b"hello".to_vec(), Bencode::Int(52)),
        ]
        .into_iter()
        .collect(),
    );
    let result = Bencode::decode(input).unwrap();
    assert_eq!(result, expected);
}

#[test]
fn test_bencode_enconde_string() {
    let input = Bencode::Bytes(b"hello".to_vec());
    let expected = b"5:hello".to_vec();
    let result = Bencode::encoder(&input);
    assert_eq!(result, expected);
}

#[test]
fn what_is_encoded_reads_back() {
    let value = Bencode::Dict(vec![
        (b"a".to_vec(), Bencode::Int(-17)),
        (b"b".to_vec(), Bencode::List(vec![Bencode::Bytes(Vec::new()), Bencode::Int(i64::MIN)])),
        (b"c".to_vec(), Bencode::Dict(Vec::new())),
    ]);
    let bytes = Bencode::encoder(&value);
    assert_eq!(bytes, b"d1:ai-17e1:bl0:i-9223372036854775808ee1:cdee".to_vec());
    assert_eq!(Bencode::decode(&bytes).unwrap(), value);
}

#[test]
fn broken_values_are_refused() {
    assert_eq!(Bencode::decode(b""), Err(BencodeError::UnexpectedEnd));
    assert_eq!(Bencode::decode(b"5:hell"), Err(BencodeError::UnexpectedEnd));
    assert_eq!(Bencode::decode(b"i5"), Err(BencodeError::UnexpectedEnd));
    assert_eq!(Bencode::decode(b"i99999999999999999999e"), Err(BencodeError::InvalidInteger));
    assert_eq!(Bencode::decode(b"x"), Err(BencodeError::UnexpectedByte(b'x')));
    assert!(Bencode::decode(b"di1ei2ee").is_err());
}

#[test]
fn dictionaries_are_kept_sorted() {
    let mut d = Vec::new();
    dict_insert(&mut d, b"b".to_vec(), Bencode::Int(2));
    dict_insert(&mut d, b"a".to_vec(), Bencode::Int(1));
    dict_insert(&mut d, b"b".to_vec(), Bencode::Int(3));
    assert_eq!(d.len(), 2);
    assert_eq!(dict_get(&d, b"b"), Some(&Bencode::Int(3)));
    assert_eq!(dict_get(&d, b"c"), None);
    assert_eq!(Bencode::encoder(&Bencode::Dict(d)), b"d1:ai1e1:bi3ee".to_vec());
}
