//! Parser tests: tokens, atoms, headers, whole programs and tape files.

use ckc::parser::{
    parse_argument, parse_immediate, parse_label, parse_register, read_params, ParseError, Parser,
};
use ckc::program::{ArchType, Argument, Register, Version};

#[test]
fn register_tokens() {
    assert_eq!(
        parse_register(&"r5".as_bytes().to_vec()),
        Some(Register { index: 5 })
    );
    assert_eq!(
        parse_register(&"r65535".as_bytes().to_vec()),
        Some(Register { index: 65535 })
    );
    assert_eq!(parse_register(&"r65536".as_bytes().to_vec()), None);
    assert_eq!(parse_register(&"r".as_bytes().to_vec()), None);
    assert_eq!(parse_register(&"5".as_bytes().to_vec()), None);
    assert_eq!(parse_register(&"rx".as_bytes().to_vec()), None);
}

#[test]
fn immediate_tokens() {
    assert_eq!(parse_immediate(&"42".as_bytes().to_vec()), Some(42));
    assert_eq!(parse_immediate(&"-42".as_bytes().to_vec()), Some(-42));
    assert_eq!(parse_immediate(&"0".as_bytes().to_vec()), Some(0));
    assert_eq!(
        parse_immediate(&"9223372036854775807".as_bytes().to_vec()),
        Some(i64::MAX)
    );
    assert_eq!(
        parse_immediate(&"9223372036854775808".as_bytes().to_vec()),
        None
    );
    assert_eq!(
        parse_immediate(&"-9223372036854775808".as_bytes().to_vec()),
        Some(i64::MIN)
    );
    assert_eq!(parse_immediate(&"".as_bytes().to_vec()), None);
    assert_eq!(parse_immediate(&"-".as_bytes().to_vec()), None);
    assert_eq!(parse_immediate(&"12a".as_bytes().to_vec()), None);
}

#[test]
fn argument_tokens() {
    match parse_argument(&"r3".as_bytes().to_vec()) {
        Some(Argument::Reg(r)) => assert_eq!(r.index, 3),
        _ => panic!("expected a register"),
    }
    match parse_argument(&"_dest".as_bytes().to_vec()) {
        Some(Argument::Label(name)) => assert_eq!(name, "_dest".as_bytes().to_vec()),
        _ => panic!("expected a label"),
    }
    match parse_argument(&"-7".as_bytes().to_vec()) {
        Some(Argument::Imm(x)) => assert_eq!(x, -7),
        _ => panic!("expected an immediate"),
    }
    assert!(parse_argument(&"!?".as_bytes().to_vec()).is_none());
}

#[test]
fn label_lines() {
    assert_eq!(
        parse_label(&"_start:".as_bytes().to_vec()),
        Some("_start".as_bytes().to_vec())
    );
    assert_eq!(parse_label(&"_start".as_bytes().to_vec()), None);
    assert_eq!(parse_label(&"start:".as_bytes().to_vec()), None);
    assert_eq!(parse_label(&"_:".as_bytes().to_vec()), None);
    assert_eq!(parse_label(&"".as_bytes().to_vec()), None);
}

#[test]
fn header_line() {
    let p = read_params(&"; TinyRAM V=2.0 M=hv W=32 K=4".as_bytes().to_vec()).unwrap();
    assert_eq!(p.version, Version { major: 2, minor: 0 });
    assert_eq!(p.word_size, 32);
    assert_eq!(p.registers, 4);
    assert_eq!(p.arch, ArchType::Harvard);

    let vn = read_params(&"; TinyRAM V=2.0 M=vn W=32 K=4".as_bytes().to_vec()).unwrap();
    assert_eq!(vn.arch, ArchType::VonNeumann);

    assert!(read_params(&"; TinyRAM V=2.0 M=hv W=32".as_bytes().to_vec()).is_none());
    assert!(read_params(&"TinyRAM V=2.0 M=hv W=32 K=4 ;".as_bytes().to_vec()).is_none());
}

#[test]
fn rejects_unsupported_params() {
    // wrong version
    let text = "; TinyRAM V=1.0 M=hv W=32 K=4\nanswer 0\n".as_bytes().to_vec();
    assert_eq!(Parser::load_program(&text).err(), Some(ParseError::BadParams));
    // unsupported architecture
    let text = "; TinyRAM V=2.0 M=vn W=32 K=4\nanswer 0\n".as_bytes().to_vec();
    assert_eq!(Parser::load_program(&text).err(), Some(ParseError::BadParams));
    // word size that is not a supported power of two
    let text = "; TinyRAM V=2.0 M=hv W=24 K=4\nanswer 0\n".as_bytes().to_vec();
    assert_eq!(Parser::load_program(&text).err(), Some(ParseError::BadParams));
}

#[test]
fn rejects_bad_header() {
    let text = "answer 0\n".as_bytes().to_vec();
    assert_eq!(Parser::load_program(&text).err(), Some(ParseError::BadHeader));
    let text = "".as_bytes().to_vec();
    assert_eq!(Parser::load_program(&text).err(), Some(ParseError::BadHeader));
}

#[test]
fn rejects_bad_line() {
    let text = "; TinyRAM V=2.0 M=hv W=32 K=4\nfly r0, 1\n".as_bytes().to_vec();
    assert_eq!(Parser::load_program(&text).err(), Some(ParseError::BadLine(2)));
}

#[test]
fn rejects_duplicate_label() {
    let text = "; TinyRAM V=2.0 M=hv W=32 K=4\n_a:\nanswer 0\n_a:\n"
        .as_bytes()
        .to_vec();
    assert_eq!(
        Parser::load_program(&text).err(),
        Some(ParseError::DuplicateLabel(4))
    );
}

#[test]
fn rejects_register_out_of_range() {
    let text = "; TinyRAM V=2.0 M=hv W=32 K=2\nmov r2, 1\nanswer 0\n"
        .as_bytes()
        .to_vec();
    assert_eq!(Parser::load_program(&text).err(), Some(ParseError::BadRegister));
}

#[test]
fn rejects_undefined_label() {
    let text = "; TinyRAM V=2.0 M=hv W=32 K=2\njmp _nowhere\n".as_bytes().to_vec();
    assert_eq!(
        Parser::load_program(&text).err(),
        Some(ParseError::UndefinedLabel)
    );
}

#[test]
fn accepts_comments_and_blanks() {
    let text = "\n  \n; TinyRAM V=2.0 M=hv W=32 K=2\n; a comment\n\n  mov r0, 5 ; trailing\n_l:\nanswer 0\n"
        .as_bytes()
        .to_vec();
    assert!(Parser::load_program(&text).is_ok());
}

#[test]
fn load_tape_file() {
    let text = "39\n0\n18446744073709551615\n".as_bytes().to_vec();
    let tape = Parser::load_tape_file(&text).unwrap();
    assert_eq!(tape, vec![39, 0, u64::MAX]);

    let empty = "".as_bytes().to_vec();
    assert_eq!(Parser::load_tape_file(&empty).unwrap(), Vec::<u64>::new());

    let bad = "39\nx\n".as_bytes().to_vec();
    assert_eq!(
        Parser::load_tape_file(&bad).err(),
        Some(ParseError::BadTapeLine(2))
    );

    let too_big = "18446744073709551616\n".as_bytes().to_vec();
    assert_eq!(
        Parser::load_tape_file(&too_big).err(),
        Some(ParseError::BadTapeLine(1))
    );
}
