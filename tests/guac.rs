use cvm_rs::guac::{decode_instruction, encode_instruction, DecodeError};

#[test]
fn decode_basic() {
    let test = String::from("7.connect,3.vm1;");
    let res = decode_instruction(&test);

    assert!(res.is_ok());
    assert_eq!(res.unwrap(), vec!["connect", "vm1"]);
}

#[test]
fn decode_errors() {
    let test = String::from("700.connect,3.vm1;");
    let res = decode_instruction(&test);

    println!("Error for: {}", res.clone().unwrap_err().message());

    assert!(res.is_err())
}

#[test]
fn general_codec_works() {
    let vec = vec![String::from("connect"), String::from("vm1")];
    let test = encode_instruction(&vec);

    assert_eq!(test, "7.connect,3.vm1;");

    let res = decode_instruction(&test);

    assert!(res.is_ok());
    assert_eq!(res.unwrap(), vec);
}

#[test]
fn decode_error_kinds() {
    let too_long = "9".repeat(12289);
    assert_eq!(decode_instruction(&too_long), Err(DecodeError::InstructionTooLong));
    assert_eq!(decode_instruction(&String::from("5000.x;")), Err(DecodeError::ElementTooLong));
    assert_eq!(decode_instruction(&String::from("9.ab;")), Err(DecodeError::ElementSizeInvalid));
    assert_eq!(decode_instruction(&String::from("700.connect,3.vm1;")), Err(DecodeError::ElementSizeInvalid));
    assert_eq!(decode_instruction(&String::from("3.ab;")), Err(DecodeError::InvalidFormat));
    assert_eq!(decode_instruction(&String::from("x.ab;")), Err(DecodeError::InvalidFormat));
    assert_eq!(decode_instruction(&String::from("2.ab")), Err(DecodeError::InvalidFormat));
    assert_eq!(decode_instruction(&String::from("2.ab:")), Err(DecodeError::InvalidFormat));
    assert_eq!(decode_instruction(&String::from("2.ab,")), Err(DecodeError::InvalidFormat));
    assert_eq!(decode_instruction(&String::from("")), Err(DecodeError::InvalidFormat));
    assert_eq!(decode_instruction(&String::from("12")), Err(DecodeError::InvalidFormat));
}

#[test]
fn decode_edge_cases() {
    assert_eq!(decode_instruction(&String::from("0.;")), Ok(vec![String::new()]));
    assert_eq!(decode_instruction(&String::from("1.a;trailing")), Ok(vec![String::from("a")]));
    assert_eq!(
        decode_instruction(&String::from("4.size,1.0,2.10;")),
        Ok(vec![String::from("size"), String::from("0"), String::from("10")])
    );
    // an enormous size saturates to the element limit rather than overflowing
    assert_eq!(
        decode_instruction(&String::from("99999999999999999999999999.a;")),
        Err(DecodeError::ElementTooLong)
    );
}

#[test]
fn encode_edge_cases() {
    assert_eq!(encode_instruction(&vec![]), ";");
    assert_eq!(encode_instruction(&vec![String::new()]), "0.;");
    let long = "a".repeat(12);
    assert_eq!(encode_instruction(&vec![long.clone()]), format!("12.{};", long));
    // sizes count bytes
    assert_eq!(encode_instruction(&vec![String::from("é")]), "2.é;");
}

#[test]
fn error_messages() {
    assert_eq!(DecodeError::InvalidFormat.message(), "Invalid Guacamole instruction while decoding");
    assert_eq!(DecodeError::ElementSizeInvalid.message(), "Element size is invalid");
    assert!(!DecodeError::InstructionTooLong.message().is_empty());
    assert!(!DecodeError::ElementTooLong.message().is_empty());
}

#[test]
fn encode_decode_round_trip() {
    let elems = vec![String::from("size"), String::new(), String::from("0"), "x".repeat(15)];
    let enc = encode_instruction(&elems);
    assert_eq!(enc, format!("4.size,0.,1.0,15.{};", "x".repeat(15)));
    assert_eq!(decode_instruction(&enc), Ok(elems));
}
