#![allow(non_camel_case_types)]

use vstd::prelude::*;
use super::{high_byte, low_byte, shigh_byte, slow_byte};

verus! {

/// The JVM instructions the code generator emits.
///
/// Absolute jumps carry first the offset in bytes and then the offset in
/// instructions. The `rel*` jumps carry only an offset in instructions; they
/// stand for jumps whose byte offset is not computed yet.
#[derive(Debug, Copy, Clone, PartialEq, Eq, Structural)]
pub enum Instruction {
    invokespecial(u16),
    aload_0,
    aload(u8),
    iload(u8),
    ireturn,
    return_void,
    areturn,
    bipush(i8),
    sipush(i16),
    istore(u8),
    astore(u8),
    aconst_null,
    ldc(u8),
    ineg,
    ifeq(i16, i16),
    iflt(i16, i16),
    ifge(i16, i16),
    ifne(i16, i16),
    goto(i16, i16),
    iadd,
    isub,
    imul,
    idiv,
    irem,
    putfield(u16),
    getfield(u16),
    new(u16),
    dup,
    reljumpifeq(i16),
    reljumpifge(i16),
    relgoto(i16),
    reljumpiflt(i16),
    reljumpifne(i16),
}

/// A jump whose byte offset is not computed yet.
pub open spec fn is_relative(i: Instruction) -> bool {
    i is reljumpifeq || i is reljumpifge || i is relgoto || i is reljumpiflt || i is reljumpifne
}

pub open spec fn u16_bytes(op: u8, v: u16) -> Seq<u8> {
    seq![op, (v / 256) as u8, (v % 256) as u8]
}

pub open spec fn i16_bytes(op: u8, v: i16) -> Seq<u8> {
    seq![op, ((v as u16) / 256) as u8, ((v as u16) % 256) as u8]
}

/// The class-file encoding of an instruction (opcode, then operands).
pub open spec fn instr_bytes(i: Instruction) -> Seq<u8> {
    match i {
        Instruction::invokespecial(idx) => u16_bytes(183, idx),
        Instruction::aload_0 => seq![42],
        Instruction::aload(idx) => seq![25, idx],
        Instruction::iload(idx) => seq![21, idx],
        Instruction::ireturn => seq![172],
        Instruction::return_void => seq![177],
        Instruction::areturn => seq![176],
        Instruction::bipush(b) => seq![16, b as u8],
        Instruction::sipush(s) => i16_bytes(17, s),
        Instruction::istore(idx) => seq![54, idx],
        Instruction::astore(idx) => seq![58, idx],
        Instruction::aconst_null => seq![1],
        Instruction::ldc(idx) => seq![18, idx],
        Instruction::ineg => seq![116],
        Instruction::ifeq(b, _) => i16_bytes(153, b),
        Instruction::ifne(b, _) => i16_bytes(154, b),
        Instruction::ifge(b, _) => i16_bytes(156, b),
        Instruction::iflt(b, _) => i16_bytes(155, b),
        Instruction::goto(b, _) => i16_bytes(167, b),
        Instruction::iadd => seq![96],
        Instruction::isub => seq![100],
        Instruction::imul => seq![104],
        Instruction::idiv => seq![108],
        Instruction::irem => seq![112],
        Instruction::putfield(idx) => u16_bytes(181, idx),
        Instruction::getfield(idx) => u16_bytes(180, idx),
        Instruction::new(idx) => u16_bytes(187, idx),
        Instruction::dup => seq![89],
        _ => Seq::empty(),
    }
}

/// The length in bytes of an instruction; a relative jump will become a
/// three-byte jump.
pub open spec fn instr_len(i: Instruction) -> nat {
    if is_relative(i) {
        3
    } else {
        instr_bytes(i).len()
    }
}

/// The total length in bytes of a sequence of instructions.
pub open spec fn instrs_len(s: Seq<Instruction>) -> nat
    decreases s.len(),
{
    if s.len() == 0 {
        0
    } else {
        instrs_len(s.drop_last()) + instr_len(s.last())
    }
}

/// The encoding of a sequence of instructions.
pub open spec fn instrs_bytes(s: Seq<Instruction>) -> Seq<u8>
    decreases s.len(),
{
    if s.len() == 0 {
        Seq::empty()
    } else {
        instrs_bytes(s.drop_last()) + instr_bytes(s.last())
    }
}

pub proof fn lemma_instrs_len_append(a: Seq<Instruction>, b: Seq<Instruction>)
    ensures
        instrs_len(a + b) == instrs_len(a) + instrs_len(b),
    decreases b.len(),
{
    if b.len() == 0 {
        assert(a + b == a);
    } else {
        lemma_instrs_len_append(a, b.drop_last());
        assert((a + b).drop_last() == a + b.drop_last());
    }
}

pub proof fn lemma_instrs_bytes_append(a: Seq<Instruction>, b: Seq<Instruction>)
    ensures
        instrs_bytes(a + b) == instrs_bytes(a) + instrs_bytes(b),
    decreases b.len(),
{
    if b.len() == 0 {
        assert(a + b == a);
    } else {
        lemma_instrs_bytes_append(a, b.drop_last());
        assert((a + b).drop_last() == a + b.drop_last());
    }
}

/// Every instruction but a relative jump has an encoding of one to three bytes.
pub proof fn lemma_instr_len_bounds(i: Instruction)
    ensures
        1 <= instr_len(i) <= 3,
        !is_relative(i) ==> instr_len(i) == instr_bytes(i).len(),
{
}

impl Instruction {
    /// Whether this is a jump whose byte offset is not computed yet.
    pub fn is_relative(&self) -> (b: bool)
        ensures
            b == is_relative(*self),
    {
        match self {
            Instruction::reljumpifeq(_)
            | Instruction::reljumpifge(_)
            | Instruction::relgoto(_)
            | Instruction::reljumpiflt(_)
            | Instruction::reljumpifne(_) => true,
            _ => false,
        }
    }

    /// The class-file encoding of this instruction.
    pub fn as_bytes(&self) -> (v: Vec<u8>)
        requires
            !is_relative(*self),
        ensures
            v@ == instr_bytes(*self),
    {
        match self {
            Instruction::invokespecial(idx) => vec![183, high_byte(*idx), low_byte(*idx)],
            Instruction::aload_0 => vec![42],
            Instruction::aload(idx) => vec![25, *idx],
            Instruction::iload(idx) => vec![21, *idx],
            Instruction::ireturn => vec![172],
            Instruction::return_void => vec![177],
            Instruction::areturn => vec![176],
            Instruction::bipush(byte) => vec![16, *byte as u8],
            Instruction::sipush(short) => vec![17, shigh_byte(*short), slow_byte(*short)],
            Instruction::istore(idx) => vec![54, *idx],
            Instruction::astore(idx) => vec![58, *idx],
            Instruction::aconst_null => vec![1],
            Instruction::ldc(idx) => vec![18, *idx],
            Instruction::ineg => vec![116],
            Instruction::ifeq(b, _) => vec![153, shigh_byte(*b), slow_byte(*b)],
            Instruction::ifne(b, _) => vec![154, shigh_byte(*b), slow_byte(*b)],
            Instruction::ifge(b, _) => vec![156, shigh_byte(*b), slow_byte(*b)],
            Instruction::iflt(b, _) => vec![155, shigh_byte(*b), slow_byte(*b)],
            Instruction::goto(b, _) => vec![167, shigh_byte(*b), slow_byte(*b)],
            Instruction::iadd => vec![96],
            Instruction::isub => vec![100],
            Instruction::imul => vec![104],
            Instruction::idiv => vec![108],
            Instruction::irem => vec![112],
            Instruction::putfield(idx) => vec![181, high_byte(*idx), low_byte(*idx)],
            Instruction::getfield(idx) => vec![180, high_byte(*idx), low_byte(*idx)],
            Instruction::new(idx) => vec![187, high_byte(*idx), low_byte(*idx)],
            Instruction::dup => vec![89],
            _ => {
                assert(false);
                vec![]
            },
        }
    }
}

/// The length in bytes of an instruction.
pub fn get_instruction_length(istr: &Instruction) -> (n: u16)
    ensures
        n == instr_len(*istr),
{
    if istr.is_relative() {
        3
    } else {
        let b = istr.as_bytes();
        b.len() as u16
    }
}

/// The total length in bytes of a sequence of instructions, or `None` where
/// it does not fit in 16 bits.
pub fn get_instructions_length(instructions: &[Instruction]) -> (n: Option<u16>)
    ensures
        n == (if instrs_len(instructions@) <= u16::MAX {
            Some(instrs_len(instructions@) as u16)
        } else {
            None::<u16>
        }),
{
    let mut total: u32 = 0;
    let mut i: usize = 0;
    while i < instructions.len()
        invariant
            i <= instructions@.len(),
            total == instrs_len(instructions@.subrange(0, i as int)),
            total <= 0xFFFF,
        decreases instructions@.len() - i,
    {
        let l = get_instruction_length(&instructions[i]);
        proof {
            lemma_instr_len_bounds(instructions@[i as int]);
            assert(instructions@.subrange(0, i + 1).drop_last() == instructions@.subrange(0, i as int));
        }
        total = total + l as u32;
        i = i + 1;
        if total > 0xFFFF {
            proof {
                lemma_instrs_len_prefix_mono(instructions@, i as int);
            }
            return None;
        }
    }
    assert(instructions@.subrange(0, i as int) == instructions@);
    Some(total as u16)
}

/// The length of a prefix is at most that of the whole sequence.
pub proof fn lemma_instrs_len_prefix_mono(s: Seq<Instruction>, k: int)
    requires
        0 <= k <= s.len(),
    ensures
        instrs_len(s.subrange(0, k)) <= instrs_len(s),
    decreases s.len() - k,
{
    if k < s.len() {
        lemma_instrs_len_prefix_mono(s, k + 1);
        assert(s.subrange(0, k + 1).drop_last() == s.subrange(0, k));
    } else {
        assert(s.subrange(0, k) == s);
    }
}

/// The opcode that the JVM specification gives each instruction.
pub open spec fn jvms_opcode(i: Instruction) -> int {
    match i {
        Instruction::aconst_null => 1,
        Instruction::bipush(_) => 16,
        Instruction::sipush(_) => 17,
        Instruction::ldc(_) => 18,
        Instruction::iload(_) => 21,
        Instruction::aload(_) => 25,
        Instruction::aload_0 => 42,
        Instruction::istore(_) => 54,
        Instruction::astore(_) => 58,
        Instruction::dup => 89,
        Instruction::iadd => 96,
        Instruction::isub => 100,
        Instruction::imul => 104,
        Instruction::idiv => 108,
        Instruction::irem => 112,
        Instruction::ineg => 116,
        Instruction::ifeq(_, _) => 153,
        Instruction::ifne(_, _) => 154,
        Instruction::iflt(_, _) => 155,
        Instruction::ifge(_, _) => 156,
        Instruction::goto(_, _) => 167,
        Instruction::ireturn => 172,
        Instruction::areturn => 176,
        Instruction::return_void => 177,
        Instruction::getfield(_) => 180,
        Instruction::putfield(_) => 181,
        Instruction::invokespecial(_) => 183,
        Instruction::new(_) => 187,
        _ => -1,
    }
}

/// Two bytes read as a signed 16-bit big-endian number.
pub open spec fn s16_at(b: Seq<u8>, k: int) -> int {
    let x = b[k] as int * 256 + b[k + 1] as int;
    if x >= 32768 {
        x - 65536
    } else {
        x
    }
}

/// Two bytes read as an unsigned 16-bit big-endian number.
pub open spec fn u16_read(b: Seq<u8>, k: int) -> int {
    b[k] as int * 256 + b[k + 1] as int
}

/// How the JVM reads the encoding of an instruction back: its opcode, then
/// its operand, one unsigned byte for a local variable slot or an `ldc`
/// index, one signed byte for `bipush`, a signed 16-bit number for `sipush`
/// and the branch offsets, an unsigned 16-bit number for a pool index.
pub open spec fn reads_back(i: Instruction, b: Seq<u8>) -> bool {
    b.len() >= 1 && b[0] as int == jvms_opcode(i) && match i {
        Instruction::iload(k) | Instruction::aload(k) | Instruction::istore(k) | Instruction::astore(k)
        | Instruction::ldc(k) => b.len() == 2 && b[1] == k,
        Instruction::bipush(v) => b.len() == 2 && b[1] as i8 == v,
        Instruction::sipush(v) | Instruction::ifeq(v, _) | Instruction::ifne(v, _) | Instruction::iflt(v, _)
        | Instruction::ifge(v, _) | Instruction::goto(v, _) => b.len() == 3 && s16_at(b, 1) == v as int,
        Instruction::getfield(k) | Instruction::putfield(k) | Instruction::invokespecial(k)
        | Instruction::new(k) => b.len() == 3 && u16_read(b, 1) == k as int,
        _ => b.len() == 1,
    }
}

proof fn lemma_s16(op: u8, v: i16)
    ensures
        i16_bytes(op, v).len() == 3,
        i16_bytes(op, v)[0] == op,
        s16_at(i16_bytes(op, v), 1) == v as int,
{
    let u = v as u16;
    if v < 0 {
        assert(v < 0 ==> (v as u16) as i32 == (v as i32) + 65536) by (bit_vector);
    } else {
        assert(v >= 0 ==> (v as u16) as i32 == v as i32) by (bit_vector);
    }
    assert(u as int == if v < 0 { v as int + 65536 } else { v as int });
    assert((u / 256) as u8 as int == u / 256);
    assert((u % 256) as u8 as int == u % 256);
}

proof fn lemma_u16(op: u8, v: u16)
    ensures
        u16_bytes(op, v).len() == 3,
        u16_bytes(op, v)[0] == op,
        u16_read(u16_bytes(op, v), 1) == v as int,
{
    assert((v / 256) as u8 as int == v / 256);
    assert((v % 256) as u8 as int == v % 256);
}

/// Every instruction that has an encoding is read back by the JVM as that
/// instruction, with its operand.
pub proof fn law_instruction_encoding(i: Instruction)
    requires
        !is_relative(i),
    ensures
        reads_back(i, instr_bytes(i)),
{
    match i {
        Instruction::sipush(v) => lemma_s16(17, v),
        Instruction::ifeq(v, _) => lemma_s16(153, v),
        Instruction::ifne(v, _) => lemma_s16(154, v),
        Instruction::iflt(v, _) => lemma_s16(155, v),
        Instruction::ifge(v, _) => lemma_s16(156, v),
        Instruction::goto(v, _) => lemma_s16(167, v),
        Instruction::getfield(k) => lemma_u16(180, k),
        Instruction::putfield(k) => lemma_u16(181, k),
        Instruction::invokespecial(k) => lemma_u16(183, k),
        Instruction::new(k) => lemma_u16(187, k),
        Instruction::bipush(v) => {
            assert((v as u8) as i8 == v) by (bit_vector);
        },
        _ => {},
    }
}

} // verus!
