use vstd::prelude::*;

use crate::text::string_of;

verus! {

/// The bytes of an instruction.
pub type Instructions = Vec<u8>;

/// The operation of an instruction.
#[derive(Hash, PartialEq, Eq, Structural, Debug, Clone, Copy)]
pub enum Opcode {
    Constant,
}

/// The byte that encodes an opcode.
pub open spec fn opcode_byte(op: Opcode) -> u8 {
    match op {
        Opcode::Constant => 0,
    }
}

/// What the table of definitions holds for an opcode: its name and the width,
/// in bytes, of each of its operands.
pub open spec fn definition_of(op: Opcode) -> (Seq<char>, Seq<i32>) {
    match op {
        Opcode::Constant => ("OpConstant"@, seq![2i32]),
    }
}

/// How an opcode is described: its name and the widths of its operands.
#[derive(Clone)]
pub struct Definition {
    name: &'static str,
    operand_widths: Vec<i32>,
}

impl Definition {
    /// The name of the opcode.
    pub closed spec fn name_view(&self) -> Seq<char> {
        self.name@
    }

    /// The widths of the operands, in bytes.
    pub closed spec fn widths_view(&self) -> Seq<i32> {
        self.operand_widths@
    }

    /// The name of the opcode.
    pub fn name(&self) -> (s: String)
        ensures
            s@ == self.name_view(),
    {
        string_of(self.name)
    }

    /// The widths of the operands, in bytes.
    pub fn operand_widths(&self) -> (w: Vec<i32>)
        ensures
            w@ == self.widths_view(),
    {
        let mut w: Vec<i32> = Vec::new();
        let mut i: usize = 0;
        while i < self.operand_widths.len()
            invariant
                i <= self.operand_widths@.len(),
                w@ == self.operand_widths@.take(i as int),
            decreases self.operand_widths@.len() - i,
        {
            w.push(self.operand_widths[i]);
            i = i + 1;
            assert(w@ =~= self.operand_widths@.take(i as int));
        }
        assert(w@ =~= self.operand_widths@);
        w
    }
}

impl Opcode {
    /// The opcode that a byte encodes; only 0 encodes one.
    pub fn from(value: u8) -> (op: Opcode)
        requires
            value == 0,
        ensures
            opcode_byte(op) == value,
    {
        Opcode::Constant
    }

    /// The byte that encodes this opcode.
    pub fn byte(&self) -> (b: u8)
        ensures
            b == opcode_byte(*self),
    {
        match self {
            Opcode::Constant => 0,
        }
    }
}

/// The entry of the table of definitions for an opcode.
fn definition(op: &Opcode) -> (d: Option<Definition>)
    ensures
        d matches Some(d) && (d.name_view(), d.widths_view()) == definition_of(*op),
{
    match op {
        Opcode::Constant => {
            let mut widths: Vec<i32> = Vec::new();
            widths.push(2);
            let d = Definition { name: "OpConstant", operand_widths: widths };
            assert(d.widths_view() =~= seq![2i32]);
            Some(d)
        },
    }
}

/// The definition of the opcode that the byte `op` encodes.
pub fn lookup(op: u8) -> (res: Result<Definition, String>)
    requires
        op == 0,
    ensures
        res matches Ok(d) && (d.name_view(), d.widths_view()) == definition_of(Opcode::Constant),
{
    let opcode = Opcode::from(op);
    match definition(&opcode) {
        Some(d) => Ok(d),
        None => Err(string_of("opcode undefined")),
    }
}

/// The operand truncated to sixteen bits.
pub open spec fn low16(o: i32) -> u16 {
    o as u16
}

/// The bytes that `make` writes for the operand at `i` of a definition whose
/// operands are all two bytes wide: the operand's low sixteen bits in
/// big-endian order, or two zero bytes where no operand is given.
pub open spec fn operand_bytes(operands: Seq<i32>, i: int) -> Seq<u8> {
    if i < operands.len() {
        seq![(low16(operands[i]) / 256) as u8, (low16(operands[i]) % 256) as u8]
    } else {
        seq![0u8, 0u8]
    }
}

/// The encoded operands `0 .. n` of an instruction.
pub open spec fn operands_encoding(operands: Seq<i32>, n: nat) -> Seq<u8>
    decreases n,
{
    if n == 0 {
        Seq::empty()
    } else {
        operands_encoding(operands, (n - 1) as nat) + operand_bytes(operands, n - 1)
    }
}

/// The instruction for `op` with `operands`: the opcode byte, then each
/// operand slot of its definition.
pub open spec fn instruction_of(op: Opcode, operands: Seq<i32>) -> Seq<u8> {
    seq![opcode_byte(op)] + operands_encoding(operands, definition_of(op).1.len())
}

/// Encodes one instruction.
pub fn make(op: Opcode, operands: &[i32]) -> (instruction: Vec<u8>)
    requires
        operands@.len() <= definition_of(op).1.len(),
    ensures
        instruction@ == instruction_of(op, operands@),
{
    let definition = match definition(&op) {
        Some(definition) => definition,
        None => {
            return Vec::new();
        },
    };
    let ghost widths = definition.widths_view();
    assert(widths == seq![2i32]);
    assert(widths.len() == 1 && widths[0] == 2);

    let mut instruction_len: i32 = 1;
    let mut k: usize = 0;
    while k < definition.operand_widths.len()
        invariant
            definition.operand_widths@ == widths,
            widths.len() == 1 && widths[0] == 2,
            k <= widths.len(),
            instruction_len == 1 + 2 * k,
        decreases widths.len() - k,
    {
        instruction_len += definition.operand_widths[k];
        k = k + 1;
    }

    let mut instruction: Instructions = vec![0u8; instruction_len as usize];
    assert(instruction@.len() == 3);
    assert(forall|j: int| 0 <= j < 3 ==> instruction@[j] == 0);
    instruction.set(0, op.byte());

    let mut offset: usize = 1;
    let mut i: usize = 0;
    while i < operands.len()
        invariant
            definition.operand_widths@ == widths,
            widths.len() == 1 && widths[0] == 2,
            i <= operands@.len() <= widths.len(),
            offset == 1 + 2 * i,
            instruction@.len() == 3,
            instruction@[0] == opcode_byte(op),
            instruction@.subrange(1, offset as int) == operands_encoding(operands@, i as nat),
            forall|j: int| offset <= j < 3 ==> instruction@[j] == 0,
        decreases operands@.len() - i,
    {
        let o = operands[i];
        let width = definition.operand_widths[i];
        if width == 2 {
            let v: u16 = o as u16;
            instruction.set(offset, (v / 256) as u8);
            instruction.set(offset + 1, (v % 256) as u8);
        }
        offset += width as usize;
        i = i + 1;
        assert(instruction@.subrange(1, offset as int) =~= operands_encoding(operands@, i as nat));
    }
    proof {
        if i == 0 {
            assert(instruction@.subrange(1, 3) =~= operands_encoding(operands@, 1));
        }
        assert(instruction@ =~= instruction_of(op, operands@));
    }
    instruction
}


/// Every instruction is as long as its definition says: the opcode byte and
/// two bytes for the one operand slot, given or not.
pub proof fn lemma_instruction_length(op: Opcode, operands: Seq<i32>)
    ensures
        instruction_of(op, operands).len() == 3,
        instruction_of(op, operands)[0] == opcode_byte(op),
{
    assert(operands_encoding(operands, 0) =~= Seq::<u8>::empty());
}

/// An operand in `0 .. 65536` is written after the opcode as two bytes, most
/// significant first: reading them back as `high * 256 + low` gives the
/// operand.
pub proof fn lemma_operand_round_trip(op: Opcode, o: i32)
    requires
        0 <= o < 65536,
    ensures
        instruction_of(op, seq![o])[1] as int * 256 + instruction_of(op, seq![o])[2] as int == o,
{
    assert(operands_encoding(seq![o], 0) =~= Seq::<u8>::empty());
    let v = low16(o);
    assert(v == o) by (bit_vector)
        requires
            0 <= o < 65536,
            v == o as u16,
    ;
    assert(((v / 256) as u8) as int * 256 + ((v % 256) as u8) as int == v) by (bit_vector);
}

} // verus!
