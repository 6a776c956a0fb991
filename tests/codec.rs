use boo_bc::{DecodeError, Function, FunctionSignature, Operation, Program, Values};

fn example_program() -> Program {
    Program {
        main: Function {
            signature: FunctionSignature {
                inputs: 3,
                outputs: 1,
            },
            operations: vec![Operation::Xor, Operation::And],
        },
    }
}

fn roundtrip(program: &Program) {
    let encoded = program.encode();
    let decoded = Program::decode(&encoded);
    assert!(decoded.is_ok());
    let (decoded, used) = decoded.unwrap();
    assert_eq!(*program, decoded);
    assert_eq!(used, encoded.len());
}

#[test]
fn test_encode_examples() {
    roundtrip(&Program {
        main: Function {
            signature: FunctionSignature {
                inputs: 3,
                outputs: 1,
            },
            operations: vec![Operation::Xor, Operation::And],
        },
    });
}

#[test]
fn opcodes_are_fixed() {
    assert_eq!(Operation::Xor.encode(), 0x40);
    assert_eq!(Operation::And.encode(), 0x41);
    assert_eq!(Operation::from_opcode(0x40), Ok(Operation::Xor));
    assert_eq!(Operation::from_opcode(0x41), Ok(Operation::And));
}

#[test]
fn operation_round_trips() {
    for op in [Operation::Xor, Operation::And] {
        let byte = op.encode();
        assert_eq!(Operation::decode(&[byte]), Ok((op, 1)));
    }
}

#[test]
fn unknown_opcodes_are_rejected() {
    assert_eq!(Operation::decode(&[0x00]), Err(DecodeError::InvalidOpcode(0x00)));
    assert_eq!(Operation::decode(&[0xFF, 0x40]), Err(DecodeError::InvalidOpcode(0xFF)));
    for b in 0..=255u8 {
        if b != 0x40 && b != 0x41 {
            assert_eq!(Operation::from_opcode(b), Err(DecodeError::InvalidOpcode(b)));
        }
    }
}

#[test]
fn empty_buffer_is_not_an_operation() {
    assert_eq!(Operation::decode(&[]), Err(DecodeError::UnexpectedEnd));
}

#[test]
fn unknown_opcode_inside_function_fails() {
    assert_eq!(
        Function::decode(&[0, 0, 2, 0x40, 0x42]),
        Err(DecodeError::InvalidOpcode(0x42))
    );
    assert_eq!(
        Program::decode(&[0, 0, 1, 0x00]),
        Err(DecodeError::InvalidOpcode(0x00))
    );
}

#[test]
fn function_header_without_operations_is_truncated() {
    assert_eq!(Function::decode(&[3, 1, 2]), Err(DecodeError::UnexpectedEnd));
    assert_eq!(Function::decode(&[3, 1, 2, 0x40]), Err(DecodeError::UnexpectedEnd));
}

#[test]
fn every_prefix_of_a_program_is_truncated() {
    let program = Program {
        main: Function {
            signature: FunctionSignature {
                inputs: 70_000,
                outputs: 300,
            },
            operations: vec![Operation::And, Operation::Xor, Operation::Xor],
        },
    };
    let encoded = program.encode();
    for k in 0..encoded.len() {
        assert_eq!(
            Program::decode(&encoded[..k]),
            Err(DecodeError::UnexpectedEnd)
        );
    }
}

#[test]
fn empty_function_round_trips() {
    let f = Function {
        signature: FunctionSignature {
            inputs: 0,
            outputs: 0,
        },
        operations: vec![],
    };
    let encoded = f.encode();
    assert_eq!(encoded, vec![0, 0, 0]);
    assert_eq!(Function::decode(&encoded), Ok((f, 3)));
}

#[test]
fn example_program_bytes() {
    let program = example_program();
    let encoded = program.encode();
    assert_eq!(encoded, vec![3, 1, 2, 0x40, 0x41]);
    assert_eq!(&encoded[encoded.len() - 2..], &[0x40, 0x41]);
    assert_eq!(Program::decode(&encoded), Ok((program, 5)));
}

#[test]
fn matches_bincode_standard_layout() {
    let config = bincode::config::standard();
    let program = Program {
        main: Function {
            signature: FunctionSignature {
                inputs: 251,
                outputs: u32::MAX,
            },
            operations: vec![Operation::Xor; 300],
        },
    };
    let same_shape = (251u32, u32::MAX, vec![0x40u8; 300]);
    let expected = bincode::encode_to_vec(same_shape, config).unwrap();
    assert_eq!(program.encode(), expected);
}

#[test]
fn signature_integer_widths() {
    let sig = FunctionSignature {
        inputs: 251,
        outputs: 70_000,
    };
    let encoded = sig.encode();
    assert_eq!(encoded, vec![251, 251, 0, 252, 0x70, 0x11, 0x01, 0x00]);
    assert_eq!(FunctionSignature::decode(&encoded), Ok((sig, 8)));
    let small = FunctionSignature {
        inputs: 250,
        outputs: 0,
    };
    assert_eq!(small.encode(), vec![250, 0]);
}

#[test]
fn longer_integer_forms_are_accepted() {
    assert_eq!(
        FunctionSignature::decode(&[251, 5, 0, 252, 7, 0, 0, 0]),
        Ok((
            FunctionSignature {
                inputs: 5,
                outputs: 7
            },
            8
        ))
    );
    let f = Function::decode(&[0, 0, 253, 1, 0, 0, 0, 0, 0, 0, 0, 0x41]).unwrap();
    assert_eq!(f.0.operations, vec![Operation::And]);
    assert_eq!(f.1, 12);
}

#[test]
fn integer_tags_out_of_range_are_rejected() {
    assert_eq!(
        FunctionSignature::decode(&[253, 1, 0, 0, 0, 0, 0, 0, 0, 0]),
        Err(DecodeError::InvalidInteger)
    );
    assert_eq!(
        FunctionSignature::decode(&[0, 255]),
        Err(DecodeError::InvalidInteger)
    );
    assert_eq!(
        Function::decode(&[0, 0, 254, 1, 0, 0, 0, 0, 0, 0, 0, 0, 0, 0, 0, 0, 0, 0, 0, 0]),
        Err(DecodeError::InvalidInteger)
    );
}

#[test]
fn truncated_integer_is_unexpected_end() {
    assert_eq!(
        FunctionSignature::decode(&[252, 1, 2]),
        Err(DecodeError::UnexpectedEnd)
    );
    assert_eq!(FunctionSignature::decode(&[1]), Err(DecodeError::UnexpectedEnd));
}

#[test]
fn huge_operation_count_is_unexpected_end() {
    assert_eq!(
        Function::decode(&[0, 0, 253, 255, 255, 255, 255, 255, 255, 255, 255, 0x40]),
        Err(DecodeError::UnexpectedEnd)
    );
}

#[test]
fn trailing_bytes_are_left_to_the_caller() {
    let program = example_program();
    let mut encoded = program.encode();
    encoded.extend_from_slice(&[0xAA, 0xBB]);
    assert_eq!(Program::decode(&encoded), Ok((program, 5)));
}

#[test]
fn repeated_calls_agree() {
    let a = example_program();
    let b = Program {
        main: Function {
            signature: FunctionSignature {
                inputs: 1000,
                outputs: 2,
            },
            operations: vec![Operation::And],
        },
    };
    let ea1 = a.encode();
    let eb1 = b.encode();
    let db1 = Program::decode(&eb1);
    let da1 = Program::decode(&ea1);
    let ea2 = a.encode();
    let da2 = Program::decode(&ea2);
    let eb2 = b.encode();
    let db2 = Program::decode(&eb2);
    assert_eq!(ea1, ea2);
    assert_eq!(eb1, eb2);
    assert_eq!(da1, da2);
    assert_eq!(db1, db2);
    assert_eq!(da1, Ok((a, ea1.len())));
    assert_eq!(db1, Ok((b, eb1.len())));
}

#[test]
fn operation_names() {
    assert_eq!(Operation::Xor.name(), "Xor");
    assert_eq!(Operation::And.name(), "And");
}

#[test]
fn values_round_trip() {
    let v = Values {
        b8: vec![1, 2, 3, 255],
    };
    let encoded = v.encode();
    assert_eq!(encoded, vec![4, 1, 2, 3, 255]);
    assert_eq!(Values::decode(&encoded), Ok((v, 5)));
}

#[test]
fn empty_values_round_trip() {
    let v = Values { b8: vec![] };
    let encoded = v.encode();
    assert_eq!(encoded, vec![0]);
    assert_eq!(Values::decode(&encoded), Ok((v, 1)));
}

#[test]
fn long_values_match_bincode() {
    let v = Values {
        b8: (0..600u32).map(|i| (i % 256) as u8).collect(),
    };
    let encoded = v.encode();
    let expected = bincode::encode_to_vec(v.b8.clone(), bincode::config::standard()).unwrap();
    assert_eq!(encoded, expected);
    assert_eq!(&encoded[..3], &[251, 0x58, 0x02]);
    assert_eq!(Values::decode(&encoded), Ok((v, 603)));
}

#[test]
fn truncated_values_fail() {
    assert_eq!(Values::decode(&[3, 1, 2]), Err(DecodeError::UnexpectedEnd));
    assert_eq!(Values::decode(&[]), Err(DecodeError::UnexpectedEnd));
    assert_eq!(Values::decode(&[255]), Err(DecodeError::InvalidInteger));
}
