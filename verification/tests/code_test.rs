use compiler::code::{lookup, make, Opcode};

#[test]
fn test_make() {
    struct TestCase {
        op: Opcode,
        operands: Vec<i32>,
        expected: Vec<u8>,
    }

    let tests = vec![TestCase {
        op: Opcode::Constant,
        operands: vec![65534],
        expected: vec![Opcode::Constant as u8, 255, 254],
    }];

    for tt in tests {
        let instruction = make(tt.op, tt.operands.as_slice());

        if instruction.len() != tt.expected.len() {
            panic!(
                "instruction has wrong length. want={}, got={}",
                tt.expected.len(),
                instruction.len()
            )
        }

        for (i, b) in tt.expected.iter().enumerate() {
            if instruction[i] != tt.expected[i] {
                panic!("wrong byte at pos {}. want={}, got={}", i, b, instruction[i])
            }
        }
    }
}

#[test]
fn test_make_operand_round_trip() {
    for o in [0, 1, 255, 256, 4660, 65535] {
        let instruction = make(Opcode::Constant, &[o]);
        assert_eq!(instruction.len(), 3);
        assert_eq!(instruction[0], 0);
        assert_eq!(instruction[1] as i32 * 256 + instruction[2] as i32, o);
    }
}

#[test]
fn test_make_truncates_to_sixteen_bits() {
    assert_eq!(make(Opcode::Constant, &[65536 + 258]), vec![0, 1, 2]);
    assert_eq!(make(Opcode::Constant, &[-1]), vec![0, 255, 255]);
}

#[test]
fn test_make_without_operands_leaves_zeros() {
    assert_eq!(make(Opcode::Constant, &[]), vec![0, 0, 0]);
}

#[test]
fn test_lookup_constant() {
    let definition = lookup(0).unwrap();
    assert_eq!(definition.name(), "OpConstant");
    assert_eq!(definition.operand_widths(), vec![2]);
}

#[test]
fn test_opcode_from_byte() {
    assert_eq!(Opcode::from(0), Opcode::Constant);
    assert_eq!(Opcode::Constant.byte(), 0);
}
