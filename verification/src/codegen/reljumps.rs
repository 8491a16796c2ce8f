use vstd::prelude::*;
use super::instruction::{Instruction, is_relative, instrs_len, get_instructions_length};

verus! {

/// The offset in instructions of a relative jump.
pub open spec fn rel_target(i: Instruction) -> i16 {
    match i {
        Instruction::reljumpifeq(t) | Instruction::reljumpifge(t) | Instruction::relgoto(t)
        | Instruction::reljumpiflt(t) | Instruction::reljumpifne(t) => t,
        _ => 0,
    }
}

/// The byte operand that replaces the relative jump at `j` by `t`
/// instructions. A forward jump gets the byte length of the instructions
/// jumped over (from the jump up to its target) plus `j - 1`; a backward
/// jump gets the byte address of its target, the byte length of the code
/// before it. Truncated to 16 bits; `None` where the target lies outside the
/// code or the length overflows 16 bits.
pub open spec fn abs_offset(code: Seq<Instruction>, j: int, t: i16) -> Option<i16> {
    let (lo, hi) = if t >= 0 {
        (j, j + t)
    } else {
        (0, j + t)
    };
    if hi < lo || hi > code.len() {
        None
    } else {
        let l = instrs_len(code.subrange(lo, hi));
        if l > u16::MAX {
            None
        } else {
            let v = if t < 0 {
                l as int
            } else {
                l + j - 1
            };
            Some((v as i64) as i16)
        }
    }
}

/// The absolute jump that replaces instruction `j`, or the instruction
/// itself where it is no relative jump.
pub open spec fn converted(code: Seq<Instruction>, j: int) -> Option<Instruction> {
    let i = code[j];
    if is_relative(i) {
        match abs_offset(code, j, rel_target(i)) {
            Some(v) => Some(
                match i {
                    Instruction::reljumpifeq(t) => Instruction::ifeq(v, t),
                    Instruction::reljumpifge(t) => Instruction::ifge(v, t),
                    Instruction::relgoto(t) => Instruction::goto(v, t),
                    Instruction::reljumpiflt(t) => Instruction::iflt(v, t),
                    _ => Instruction::ifne(v, rel_target(i)),
                },
            ),
            None => None,
        }
    } else {
        Some(i)
    }
}

/// Every instruction of the code converts.
pub open spec fn all_convert(code: Seq<Instruction>) -> bool {
    forall|j: int| 0 <= j < code.len() ==> #[trigger] converted(code, j) is Some
}

/// Replaces each relative jump by the absolute jump `converted` gives;
/// `None` where one of them does not convert.
pub fn convert_to_absolute_jumps(instructions: Vec<Instruction>) -> (r: Option<Vec<Instruction>>)
    requires
        instructions@.len() <= i32::MAX,
    ensures
        all_convert(instructions@) <==> r is Some,
        r matches Some(v) ==> v@.len() == instructions@.len() && forall|j: int|
            0 <= j < v@.len() ==> converted(instructions@, j) == Some(#[trigger] v@[j]),
{
    let ghost code = instructions@;
    let mut result: Vec<Instruction> = Vec::new();
    let mut j: usize = 0;
    while j < instructions.len()
        invariant
            j <= instructions@.len(),
            code == instructions@,
            code.len() <= i32::MAX,
            result@.len() == j,
            forall|k: int| 0 <= k < j ==> converted(code, k) == Some(#[trigger] result@[k]),
        decreases instructions@.len() - j,
    {
        let istr = instructions[j];
        if istr.is_relative() {
            let target: i16 = match istr {
                Instruction::reljumpifeq(t) | Instruction::reljumpifge(t) | Instruction::relgoto(t)
                | Instruction::reljumpiflt(t) | Instruction::reljumpifne(t) => t,
                _ => 0,
            };
            let (lo, hi): (usize, usize) = if target >= 0 {
                let e = j as u64 + target as u64;
                if e > instructions.len() as u64 {
                    assert(converted(code, j as int) is None);
                    return None;
                }
                (j, e as usize)
            } else {
                let back = (-(target as i32)) as usize;
                if back > j {
                    assert(converted(code, j as int) is None);
                    return None;
                }
                (0, j - back)
            };
            let mut range: Vec<Instruction> = Vec::new();
            let mut k: usize = lo;
            while k < hi
                invariant
                    lo <= k <= hi <= instructions@.len(),
                    range@ == code.subrange(lo as int, k as int),
                    code == instructions@,
                decreases hi - k,
            {
                range.push(instructions[k]);
                k = k + 1;
                assert(range@ =~= code.subrange(lo as int, k as int));
            }
            let len = match get_instructions_length(range.as_slice()) {
                Some(l) => l,
                None => {
                    assert(converted(code, j as int) is None);
                    return None;
                },
            };
            let v: i64 = if target < 0 {
                len as i64
            } else {
                len as i64 + j as i64 - 1
            };
            #[verifier::truncate]
            let v16 = v as i16;
            let jump = match istr {
                Instruction::reljumpifeq(t) => Instruction::ifeq(v16, t),
                Instruction::reljumpifge(t) => Instruction::ifge(v16, t),
                Instruction::relgoto(t) => Instruction::goto(v16, t),
                Instruction::reljumpiflt(t) => Instruction::iflt(v16, t),
                _ => Instruction::ifne(v16, target),
            };
            assert(range@ == code.subrange(lo as int, hi as int));
            assert(abs_offset(code, j as int, target) == Some(v16));
            assert(converted(code, j as int) == Some(jump));
            result.push(jump);
        } else {
            result.push(istr);
        }
        j = j + 1;
    }
    assert forall|k: int| 0 <= k < code.len() implies #[trigger] converted(code, k) is Some by {
        assert(converted(code, k) == Some(result@[k]));
    }
    Some(result)
}

/// Conversion leaves no relative jump behind, and keeps every instruction
/// that is no relative jump as it is.
pub proof fn law_converted_is_absolute(code: Seq<Instruction>, j: int)
    requires
        0 <= j < code.len(),
    ensures
        converted(code, j) matches Some(i) ==> !is_relative(i),
        !is_relative(code[j]) ==> converted(code, j) == Some(code[j]),
{
}

} // verus!
