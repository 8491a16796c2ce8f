#![allow(non_camel_case_types)]

use vstd::prelude::*;
use super::{be16, be32, push_u16, push_u32};
use super::constant_pool::{
    Constant, ConstantPool, ConstantV, index_of_spec, has_room, add_index, pool_add, string_of,
    lemma_pool_add_prefix_only,
};
use super::instruction::Instruction;
use crate::types::{Type, TypeV, params_view};

verus! {

/// Tracks the operand stack depth while code is generated: the current depth
/// and the largest depth seen.
#[derive(Debug)]
pub struct StackSize {
    pub current: u16,
    pub max: u16,
}

/// The largest depth seen covers the current depth.
pub open spec fn stack_ok(s: StackSize) -> bool {
    s.current <= s.max
}

/// Every operation on a stack size keeps the largest depth seen at or above
/// the current depth, and never lowers the largest depth: after `inc`,
/// `dec` and `set`, as their contracts give them.
pub proof fn law_stack_size_covers(s: StackSize, t: StackSize, step: u16)
    requires
        stack_ok(s),
        (s.current + step <= u16::MAX && t.current == s.current + step && t.max == (if s.current
            + step > s.max {
            (s.current + step) as u16
        } else {
            s.max
        })) || (s.current >= step && t.current == s.current - step && t.max == s.max) || (
        t.current == step && t.max == (if step > s.max {
            step
        } else {
            s.max
        })),
    ensures
        stack_ok(t),
        t.max >= s.max,
{
}

impl StackSize {
    /// An empty stack.
    pub fn new() -> (s: Self)
        ensures
            s.current == 0,
            s.max == 0,
    {
        StackSize { current: 0, max: 0 }
    }

    /// Pushes `step` values.
    pub fn inc(&mut self, step: u16)
        requires
            old(self).current + step <= u16::MAX,
        ensures
            final(self).current == old(self).current + step,
            final(self).max == (if old(self).current + step > old(self).max {
                (old(self).current + step) as u16
            } else {
                old(self).max
            }),
    {
        self.current = self.current + step;
        if self.current > self.max {
            self.max = self.current;
        }
    }

    /// Pops `step` values.
    pub fn dec(&mut self, step: u16)
        requires
            old(self).current >= step,
        ensures
            final(self).current == old(self).current - step,
            final(self).max == old(self).max,
    {
        self.current = self.current - step;
    }

    /// Sets the depth to `val`.
    pub fn set(&mut self, val: u16)
        ensures
            final(self).current == val,
            final(self).max == (if val > old(self).max {
                val
            } else {
                old(self).max
            }),
    {
        self.current = val;
        if self.current > self.max {
            self.max = self.current;
        }
    }
}


/// The type of a local variable or operand slot, as a stack map frame
/// records it.
#[derive(Debug, Clone, Copy, PartialEq, Eq, Structural)]
pub enum VerificationType {
    TOP,
    INTEGER,
    NULL,
    UNINITIALIZED_THIS,
    /// The index of the object's class in the constant pool.
    OBJECT(u16),
    /// The offset of the `new` instruction that made the object.
    UNINITIALIZED(u16),
}

/// The encoding of a verification type; `None` for `UNINITIALIZED`, whose
/// encoding is not supported.
pub open spec fn vt_bytes(t: VerificationType) -> Option<Seq<u8>> {
    match t {
        VerificationType::TOP => Some(seq![0u8]),
        VerificationType::INTEGER => Some(seq![1u8]),
        VerificationType::NULL => Some(seq![5u8]),
        VerificationType::UNINITIALIZED_THIS => Some(seq![6u8]),
        VerificationType::OBJECT(i) => Some(seq![7u8] + be16(i)),
        VerificationType::UNINITIALIZED(_) => None,
    }
}

/// The encodings of a list of verification types, one after the other.
pub open spec fn vts_bytes(ts: Seq<VerificationType>) -> Option<Seq<u8>>
    decreases ts.len(),
{
    if ts.len() == 0 {
        Some(Seq::empty())
    } else {
        match (vts_bytes(ts.drop_last()), vt_bytes(ts.last())) {
            (Some(a), Some(b)) => Some(a + b),
            _ => None,
        }
    }
}

impl VerificationType {
    /// The `verification_type_info` of this type.
    pub fn as_bytes(&self) -> (r: Option<Vec<u8>>)
        ensures
            r matches Some(v) ==> vt_bytes(*self) == Some(v@),
            r is None ==> vt_bytes(*self) is None,
    {
        match self {
            VerificationType::TOP => Some(vec![0u8]),
            VerificationType::INTEGER => Some(vec![1u8]),
            VerificationType::NULL => Some(vec![5u8]),
            VerificationType::UNINITIALIZED_THIS => Some(vec![6u8]),
            VerificationType::OBJECT(cp_idx) => {
                let mut v: Vec<u8> = Vec::new();
                v.push(7u8);
                push_u16(&mut v, *cp_idx);
                assert(v@ =~= seq![7u8] + be16(*cp_idx));
                Some(v)
            },
            VerificationType::UNINITIALIZED(_) => None,
        }
    }
}

/// Appends the encodings of `ts`; `false`, with `out` in an unspecified
/// state, where one of them has none.
fn push_types(out: &mut Vec<u8>, ts: &Vec<VerificationType>) -> (ok: bool)
    ensures
        ok == (vts_bytes(ts@) is Some),
        ok ==> final(out)@ == old(out)@ + vts_bytes(ts@).unwrap(),
{
    let mut i: usize = 0;
    while i < ts.len()
        invariant
            i <= ts@.len(),
            vts_bytes(ts@.subrange(0, i as int)) is Some,
            out@ == old(out)@ + vts_bytes(ts@.subrange(0, i as int)).unwrap(),
        decreases ts@.len() - i,
    {
        let ghost before = out@;
        let b = match ts[i].as_bytes() {
            Some(b) => b,
            None => {
                proof {
                    lemma_vts_bytes_prefix_none(ts@, i as int + 1);
                    assert(ts@.subrange(0, i as int + 1).drop_last() =~= ts@.subrange(0, i as int));
                }
                return false;
            },
        };
        let mut k: usize = 0;
        while k < b.len()
            invariant
                k <= b@.len(),
                out@ == before + b@.subrange(0, k as int),
            decreases b@.len() - k,
        {
            out.push(b[k]);
            k = k + 1;
            assert(b@.subrange(0, k as int) =~= b@.subrange(0, k - 1).push(b@[k - 1]));
        }
        assert(b@.subrange(0, b@.len() as int) =~= b@);
        assert(ts@.subrange(0, i as int + 1).drop_last() =~= ts@.subrange(0, i as int));
        i = i + 1;
    }
    assert(ts@.subrange(0, ts@.len() as int) =~= ts@);
    true
}

/// Where a prefix of `ts` has no encoding, neither has `ts`.
proof fn lemma_vts_bytes_prefix_none(ts: Seq<VerificationType>, k: int)
    requires
        0 <= k <= ts.len(),
        vts_bytes(ts.subrange(0, k)) is None,
    ensures
        vts_bytes(ts) is None,
    decreases ts.len() - k,
{
    if k < ts.len() {
        assert(ts.subrange(0, k + 1).drop_last() =~= ts.subrange(0, k));
        lemma_vts_bytes_prefix_none(ts, k + 1);
    } else {
        assert(ts.subrange(0, k) =~= ts);
    }
}


/// What the verifier knows at one code location: the types of the local
/// variables and of the operand stack.
#[derive(Debug)]
pub struct VerificationStack {
    pub location: u16,
    pub locals: Vec<VerificationType>,
    pub operands: Vec<VerificationType>,
}

pub struct VStack {
    pub location: u16,
    pub locals: Seq<VerificationType>,
    pub operands: Seq<VerificationType>,
}

impl View for VerificationStack {
    type V = VStack;

    open spec fn view(&self) -> VStack {
        VStack { location: self.location, locals: self.locals@, operands: self.operands@ }
    }
}

pub open spec fn stacks_view(v: Seq<VerificationStack>) -> Seq<VStack> {
    v.map_values(|s: VerificationStack| s@)
}

/// Two stacks describe the same frame: equal locals and operands, wherever
/// they stand.
pub open spec fn same_frame(a: VStack, b: VStack) -> bool {
    a.locals == b.locals && a.operands == b.operands
}

/// Whether two lists of types are equal.
fn same_types(a: &Vec<VerificationType>, b: &Vec<VerificationType>) -> (r: bool)
    ensures
        r == (a@ == b@),
{
    if a.len() != b.len() {
        return false;
    }
    let mut i: usize = 0;
    while i < a.len()
        invariant
            i <= a@.len(),
            a@.len() == b@.len(),
            forall|j: int| 0 <= j < i ==> a@[j] == b@[j],
        decreases a@.len() - i,
    {
        if a[i] != b[i] {
            return false;
        }
        i = i + 1;
    }
    assert(a@ =~= b@);
    true
}

/// A copy of a list of types.
fn copy_types(a: &Vec<VerificationType>) -> (r: Vec<VerificationType>)
    ensures
        r@ == a@,
{
    let mut r: Vec<VerificationType> = Vec::new();
    let mut i: usize = 0;
    while i < a.len()
        invariant
            i <= a@.len(),
            r@ == a@.subrange(0, i as int),
        decreases a@.len() - i,
    {
        r.push(a[i]);
        i = i + 1;
        assert(r@ =~= a@.subrange(0, i as int));
    }
    assert(a@.subrange(0, a@.len() as int) =~= a@);
    r
}

impl VerificationStack {
    /// Whether both stacks describe the same frame; the location is not
    /// compared.
    pub fn eq(&self, other: &Self) -> (r: bool)
        ensures
            r == same_frame(self@, other@),
    {
        same_types(&self.locals, &other.locals) && same_types(&self.operands, &other.operands)
    }

    /// A copy of this stack.
    pub fn copy_stack(&self) -> (r: Self)
        ensures
            r@ == self@,
    {
        VerificationStack {
            location: self.location,
            locals: copy_types(&self.locals),
            operands: copy_types(&self.operands),
        }
    }
}

// ---------------------------------------------------------------------------
// Sorting the stacks by location, dropping later stacks of a location that
// is present already.
// ---------------------------------------------------------------------------

/// The first position in `[lo, hi)` whose location is least.
pub open spec fn min_index(s: Seq<VStack>, lo: int, hi: int) -> int
    decreases hi - lo,
{
    if hi <= lo + 1 {
        lo
    } else {
        let m = min_index(s, lo, hi - 1);
        if s[hi - 1].location < s[m].location {
            hi - 1
        } else {
            m
        }
    }
}

/// Selection sort from position `i` on: the least remaining stack moves to
/// `i`, unless its location equals the one before `i`, in which case it is
/// dropped and the last stack takes its place.
pub open spec fn sort_unique_from(s: Seq<VStack>, i: int) -> Seq<VStack>
    decreases 2 * s.len() - i,
    when 0 <= i
{
    if i >= s.len() {
        s
    } else {
        let m = min_index(s, i, s.len() as int);
        proof {
            lemma_min_index(s, i, s.len() as int);
        }
        if i != 0 && s[i - 1].location == s[m].location {
            sort_unique_from(s.update(m, s.last()).drop_last(), i)
        } else {
            sort_unique_from(s.update(i, s[m]).update(m, s[i]), i + 1)
        }
    }
}

/// The locations that occur in a list of stacks.
pub open spec fn locations(s: Seq<VStack>) -> Set<u16> {
    Set::new(|l: u16| exists|k: int| 0 <= k < s.len() && s[k].location == l)
}

/// Strictly increasing locations.
pub open spec fn strictly_sorted(s: Seq<VStack>) -> bool {
    forall|a: int, b: int| 0 <= a < b < s.len() ==> s[a].location < s[b].location
}

pub proof fn lemma_min_index(s: Seq<VStack>, lo: int, hi: int)
    requires
        0 <= lo < hi <= s.len(),
    ensures
        lo <= min_index(s, lo, hi) < hi,
        forall|k: int| lo <= k < hi ==> s[min_index(s, lo, hi)].location <= #[trigger] s[k].location,
    decreases hi - lo,
{
    if hi > lo + 1 {
        lemma_min_index(s, lo, hi - 1);
    }
}

/// What a step of the sort keeps: the prefix before `i` is strictly sorted,
/// and nothing after it lies below its last location.
pub open spec fn sorted_upto(s: Seq<VStack>, i: int) -> bool {
    &&& 0 <= i <= s.len()
    &&& forall|a: int, b: int| 0 <= a < b < i ==> s[a].location < s[b].location
    &&& i > 0 ==> forall|k: int| i <= k < s.len() ==> s[i - 1].location <= #[trigger] s[k].location
}

proof fn lemma_sort_unique_from(s: Seq<VStack>, i: int)
    requires
        sorted_upto(s, i),
    ensures
        strictly_sorted(sort_unique_from(s, i)),
        locations(sort_unique_from(s, i)) == locations(s),
    decreases 2 * s.len() - i,
{
    if i < s.len() {
        let n = s.len() as int;
        let m = min_index(s, i, n);
        lemma_min_index(s, i, n);
        if i != 0 && s[i - 1].location == s[m].location {
            let t = s.update(m, s.last()).drop_last();
            assert(sorted_upto(t, i)) by {
                assert forall|k: int| i <= k < t.len() implies s[i - 1].location <= t[k].location by {
                    if k == m {
                        assert(t[k] == s[n - 1]);
                    } else {
                        assert(t[k] == s[k]);
                    }
                }
            }
            lemma_sort_unique_from(t, i);
            assert(locations(t) =~= locations(s)) by {
                assert forall|l: u16| locations(s).contains(l) implies locations(t).contains(l) by {
                    let k = choose|k: int| 0 <= k < s.len() && s[k].location == l;
                    if k == m {
                        assert(t[i - 1].location == l);
                    } else if k == n - 1 {
                        assert(t[m].location == l);
                    } else {
                        assert(t[k].location == l);
                    }
                }
                assert forall|l: u16| locations(t).contains(l) implies locations(s).contains(l) by {
                    let k = choose|k: int| 0 <= k < t.len() && t[k].location == l;
                    if k == m {
                        assert(s[n - 1].location == l);
                    } else {
                        assert(s[k].location == l);
                    }
                }
            }
        } else {
            let t = s.update(i, s[m]).update(m, s[i]);
            assert(sorted_upto(t, i + 1)) by {
                assert forall|k: int| i + 1 <= k < t.len() implies t[i].location <= t[k].location by {
                    if k == m {
                        assert(t[k] == s[i]);
                    } else {
                        assert(t[k] == s[k]);
                    }
                }
                if i > 0 {
                    assert(s[i - 1].location < s[m].location);
                }
            }
            lemma_sort_unique_from(t, i + 1);
            assert(locations(t) =~= locations(s)) by {
                assert forall|l: u16| locations(s).contains(l) implies locations(t).contains(l) by {
                    let k = choose|k: int| 0 <= k < s.len() && s[k].location == l;
                    if k == m {
                        assert(t[i].location == l);
                    } else if k == i {
                        assert(t[m].location == l);
                    } else {
                        assert(t[k].location == l);
                    }
                }
                assert forall|l: u16| locations(t).contains(l) implies locations(s).contains(l) by {
                    let k = choose|k: int| 0 <= k < t.len() && t[k].location == l;
                    if k == m {
                        assert(s[i].location == l);
                    } else if k == i {
                        assert(s[m].location == l);
                    } else {
                        assert(s[k].location == l);
                    }
                }
            }
        }
    } else {
        assert(strictly_sorted(s));
    }
}

/// Sorting with `sort_unique` leaves each location once, in increasing
/// order, and drops no location.
pub proof fn lemma_sort_unique(s: Seq<VStack>)
    ensures
        strictly_sorted(sort_unique_from(s, 0)),
        locations(sort_unique_from(s, 0)) == locations(s),
{
    lemma_sort_unique_from(s, 0);
}

/// Sorts the stacks by location and keeps one stack of each location.
pub fn sort_unique(a: &mut Vec<VerificationStack>)
    ensures
        stacks_view(final(a)@) == sort_unique_from(stacks_view(old(a)@), 0),
{
    let ghost goal = sort_unique_from(stacks_view(old(a)@), 0);
    let mut i: usize = 0;
    while i < a.len()
        invariant
            i <= a@.len(),
            sort_unique_from(stacks_view(a@), i as int) == goal,
        decreases 2 * a@.len() - i,
    {
        let ghost s = stacks_view(a@);
        let mut min: usize = i;
        let mut j: usize = i + 1;
        while j < a.len()
            invariant
                i < j <= a@.len(),
                s == stacks_view(a@),
                min == min_index(s, i as int, j as int),
                i <= min < j,
            decreases a@.len() - j,
        {
            if a[j].location < a[min].location {
                min = j;
            }
            j = j + 1;
        }
        if i != 0 && a[i - 1].location == a[min].location {
            a.swap_remove(min);
            assert(stacks_view(a@) =~= s.update(min as int, s.last()).drop_last());
        } else {
            if min != i {
                let y = a.remove(min);
                let x = a.remove(i);
                a.insert(i, y);
                a.insert(min, x);
            }
            assert(stacks_view(a@) =~= s.update(i as int, s[min as int]).update(min as int, s[i as int]));
            i = i + 1;
        }
    }
}


// ---------------------------------------------------------------------------
// Following the code to collect the stack at every jump target.
// ---------------------------------------------------------------------------

/// The descriptor of `String` as the stack map records it.
pub open spec fn string_descriptor() -> Seq<char> {
    "Ljava/lang/String"@
}

/// The verification type of a field with descriptor `desc`: integers for
/// `Z`, `C` and `I`, else an object of the string class or of this class,
/// found by its pool index; `None` where that entry is missing.
pub open spec fn field_type(desc: Seq<char>, pool: Seq<ConstantV>, cls: Seq<char>) -> Option<
    VerificationType,
> {
    if desc == "Z"@ || desc == "C"@ || desc == "I"@ {
        Some(VerificationType::INTEGER)
    } else if desc == string_descriptor() {
        match index_of_spec(pool, ConstantV::Utf8(string_descriptor())) {
            Some(k) => Some(VerificationType::OBJECT(k)),
            None => None,
        }
    } else {
        match index_of_spec(pool, ConstantV::Class(cls)) {
            Some(k) => Some(VerificationType::OBJECT(k)),
            None => None,
        }
    }
}

/// The operands after popping one, where there is one.
pub open spec fn pop_opt(s: Seq<VerificationType>) -> Seq<VerificationType> {
    if s.len() == 0 {
        s
    } else {
        s.drop_last()
    }
}

pub open spec fn with_operands(st: VStack, ops: Seq<VerificationType>) -> VStack {
    VStack { location: st.location, locals: st.locals, operands: ops }
}

/// How far an instruction moves the byte position while the stacks are
/// followed (a store of a reference does not move it).
pub open spec fn advance(i: Instruction) -> int {
    match i {
        Instruction::invokespecial(_) | Instruction::sipush(_) | Instruction::putfield(_)
        | Instruction::getfield(_) => 3,
        Instruction::ldc(_) | Instruction::aload(_) | Instruction::iload(_) | Instruction::bipush(_)
        | Instruction::istore(_) => 2,
        Instruction::astore(_) => 0,
        _ => 1,
    }
}

/// What an instruction other than a jump does to the stack and the pool;
/// `None` for instructions the stack map cannot follow.
pub open spec fn effect(i: Instruction, st: VStack, pool: Seq<ConstantV>, cls: Seq<char>) -> Option<
    (VStack, Seq<ConstantV>),
> {
    let ops = st.operands;
    match i {
        Instruction::invokespecial(idx) => {
            if 1 <= idx && idx - 1 < pool.len() && pool[idx - 1] is MethodRef && ops.len() > 0 {
                Some((with_operands(st, ops.drop_last()), pool))
            } else {
                None
            }
        },
        Instruction::ldc(idx) => {
            if 1 <= idx && idx - 1 < pool.len() {
                match pool[idx - 1] {
                    ConstantV::String(_) => {
                        let u = ConstantV::Utf8(string_descriptor());
                        if has_room(pool) {
                            Some((with_operands(st, ops.push(VerificationType::OBJECT(add_index(pool, u)))), pool_add(pool, u)))
                        } else {
                            None
                        }
                    },
                    ConstantV::Integer(_) => Some((with_operands(st, ops.push(VerificationType::INTEGER)), pool)),
                    ConstantV::FieldRef(_, nt) => match field_type(nt.descriptor, pool, cls) {
                        Some(t) => Some((with_operands(st, ops.push(t)), pool)),
                        None => None,
                    },
                    _ => None,
                }
            } else {
                None
            }
        },
        Instruction::aconst_null => Some((with_operands(st, ops.push(VerificationType::NULL)), pool)),
        Instruction::aload_0 => match index_of_spec(pool, ConstantV::Class(cls)) {
            Some(k) => Some((with_operands(st, ops.push(VerificationType::OBJECT(k))), pool)),
            None => None,
        },
        Instruction::aload(idx) => Some((with_operands(st, ops.push(VerificationType::OBJECT(idx as u16))), pool)),
        Instruction::iload(_) | Instruction::bipush(_) => Some((with_operands(st, ops.push(VerificationType::INTEGER)), pool)),
        Instruction::sipush(_) => Some((with_operands(st, ops.push(VerificationType::INTEGER).push(VerificationType::INTEGER)), pool)),
        Instruction::ireturn | Instruction::return_void | Instruction::areturn => Some((with_operands(st, Seq::empty()), pool)),
        Instruction::putfield(_) => Some((with_operands(st, pop_opt(pop_opt(ops))), pool)),
        Instruction::ineg => Some((st, pool)),
        Instruction::istore(x) => {
            let locals = if x >= st.locals.len() { st.locals.push(VerificationType::INTEGER) } else { st.locals };
            Some((VStack { location: st.location, locals, operands: pop_opt(ops) }, pool))
        },
        Instruction::astore(x) => {
            if ops.len() == 0 {
                None
            } else {
                let locals = if x >= st.locals.len() { st.locals.push(ops.last()) } else { st.locals };
                Some((VStack { location: st.location, locals, operands: ops.drop_last() }, pool))
            }
        },
        Instruction::iadd | Instruction::isub | Instruction::imul | Instruction::idiv | Instruction::irem => {
            Some((with_operands(st, pop_opt(ops)), pool))
        },
        Instruction::getfield(idx) => {
            if 1 <= idx && idx - 1 < pool.len() {
                match pool[idx - 1] {
                    ConstantV::FieldRef(_, nt) => match field_type(nt.descriptor, pool, cls) {
                        Some(t) => Some((with_operands(st, pop_opt(ops).push(t)), pool)),
                        None => None,
                    },
                    _ => None,
                }
            } else {
                None
            }
        },
        Instruction::dup => {
            if ops.len() == 0 {
                None
            } else {
                Some((with_operands(st, ops.push(ops.last())), pool))
            }
        },
        _ => None,
    }
}

/// The instruction is a conditional jump.
pub open spec fn is_cond_jump(i: Instruction) -> bool {
    i is ifeq || i is iflt || i is ifge || i is ifne
}

/// The offsets in bytes and in instructions of an absolute jump.
pub open spec fn jump_offsets(i: Instruction) -> (i16, i16) {
    match i {
        Instruction::ifeq(b, n) | Instruction::iflt(b, n) | Instruction::ifge(b, n)
        | Instruction::ifne(b, n) | Instruction::goto(b, n) => (b, n),
        _ => (0, 0),
    }
}

/// What following the code collects: the stacks at jump targets, the jumps
/// taken so far and the constant pool.
pub struct WalkState {
    pub stacks: Seq<VStack>,
    pub taken: Seq<usize>,
    pub pool: Seq<ConstantV>,
}

/// Follows the code from instruction `idx`, at byte position `bytes`, with
/// stack `st`. A conditional jump records the stack at its target and
/// follows the target first, then falls through; `goto` records the stack
/// and continues after its target. Each jump is followed at most once: on
/// meeting a jump taken before, this branch ends. `None` where the code
/// cannot be followed (see `effect`), on a jump of zero instructions, or
/// where offset arithmetic overflows.
pub open spec fn walk(code: Seq<Instruction>, idx: int, bytes: int, st: VStack, w: WalkState, cls: Seq<char>) -> Option<
    WalkState,
>
    decreases code.len() - w.taken.len(), code.len() - idx,
{
    if idx < 0 || idx >= code.len() {
        Some(w)
    } else if w.taken.len() > code.len() {
        None
    } else {
        let i = code[idx];
        if is_cond_jump(i) || i is goto {
            let (bo, io) = jump_offsets(i);
            if is_cond_jump(i) && io == 0 {
                None
            } else if w.taken.contains(idx as usize) {
                Some(w)
            } else if w.taken.len() >= code.len() {
                None
            } else {
                let taken1 = w.taken.push(idx as usize);
                match (chk16((bytes as i16) + bo), chk16((idx as i16) + io)) {
                    (Some(loc), Some(t)) => {
                        let target = (t as usize) as int;
                        if is_cond_jump(i) {
                            let st1 = with_operands(st, pop_opt(st.operands));
                            let ns = VStack { location: loc as u16, locals: st1.locals, operands: st1.operands };
                            let w2 = WalkState { stacks: w.stacks.push(ns), taken: taken1, pool: w.pool };
                            match walk(code, target, (loc as u16) as int, ns, w2, cls) {
                                Some(w3) => {
                                    if w3.taken.len() > w.taken.len() && w3.taken.len() <= code.len()
                                        && bytes + 3 <= usize::MAX {
                                        walk(code, idx + 1, bytes + 3, st1, w3, cls)
                                    } else {
                                        None
                                    }
                                },
                                None => None,
                            }
                        } else {
                            let ns = VStack { location: loc as u16, locals: st.locals, operands: st.operands };
                            let w2 = WalkState { stacks: w.stacks.push(ns), taken: taken1, pool: w.pool };
                            if target + 1 <= usize::MAX {
                                walk(code, target + 1, bytes, ns, w2, cls)
                            } else {
                                None
                            }
                        }
                    },
                    _ => None,
                }
            }
        } else if bytes + advance(i) > usize::MAX {
            None
        } else {
            match effect(i, st, w.pool, cls) {
                Some((st2, p2)) => walk(
                    code,
                    idx + 1,
                    bytes + advance(i),
                    st2,
                    WalkState { stacks: w.stacks, taken: w.taken, pool: p2 },
                    cls,
                ),
                None => None,
            }
        }
    }
}

/// `Some` of an `i16` sum that does not overflow.
pub open spec fn chk16(x: int) -> Option<i16> {
    if i16::MIN <= x <= i16::MAX {
        Some(x as i16)
    } else {
        None
    }
}


/// Distinct jump positions, all inside the code.
pub open spec fn distinct_below(t: Seq<usize>, n: int) -> bool {
    t.no_duplicates() && forall|k: int| 0 <= k < t.len() ==> (t[k] as int) < n
}

proof fn lemma_distinct_ints(t: Seq<int>, n: int)
    requires
        n >= 0,
        t.no_duplicates(),
        forall|k: int| 0 <= k < t.len() ==> 0 <= #[trigger] t[k] < n,
    ensures
        t.len() <= n,
    decreases t.len(),
{
    if t.len() > 0 {
        let x = t.last();
        let t1 = t.drop_last();
        let t2 = t1.map_values(|e: int| if e > x { e - 1 } else { e });
        assert forall|a: int, b: int| 0 <= a < b < t2.len() implies t2[a] != t2[b] by {
            assert(t1[a] != t1[b]);
            assert(t1[a] != x && t1[b] != x) by {
                assert(t[a] != t[t.len() - 1]);
                assert(t[b] != t[t.len() - 1]);
            }
        }
        assert forall|k: int| 0 <= k < t2.len() implies 0 <= #[trigger] t2[k] < n - 1 by {
            assert(t[k] != t[t.len() - 1]);
            assert(0 <= t[k] < n);
        }
        lemma_distinct_ints(t2, n - 1);
    }
}

/// Distinct positions inside code of length `n` are at most `n`.
proof fn lemma_distinct_below_len(t: Seq<usize>, n: int)
    requires
        n >= 0,
        distinct_below(t, n),
    ensures
        t.len() <= n,
{
    let ti = t.map_values(|u: usize| u as int);
    assert forall|a: int, b: int| 0 <= a < b < ti.len() implies ti[a] != ti[b] by {
        assert(t[a] != t[b]);
    }
    assert forall|k: int| 0 <= k < ti.len() implies 0 <= #[trigger] ti[k] < n by {
        assert((t[k] as int) < n);
    }
    lemma_distinct_ints(ti, n);
}

/// Whether `v` holds `x`.
fn holds_index(v: &Vec<usize>, x: usize) -> (r: bool)
    ensures
        r == v@.contains(x),
{
    let mut i: usize = 0;
    while i < v.len()
        invariant
            i <= v@.len(),
            forall|k: int| 0 <= k < i ==> v@[k] != x,
        decreases v@.len() - i,
    {
        if v[i] == x {
            assert(v@[i as int] == x);
            return true;
        }
        i = i + 1;
    }
    false
}

/// The verification type of a field with descriptor `desc`.
fn field_type_of(desc: &String, pool: &ConstantPool) -> (r: Option<VerificationType>)
    requires
        pool@.len() < 65535,
    ensures
        r == field_type(desc@, pool@, pool.1@),
{
    if *desc == string_of("Z") || *desc == string_of("C") || *desc == string_of("I") {
        Some(VerificationType::INTEGER)
    } else if *desc == string_of("Ljava/lang/String") {
        match pool.index_of(&Constant::Utf8(string_of("Ljava/lang/String"))) {
            Some(k) => Some(VerificationType::OBJECT(k)),
            None => None,
        }
    } else {
        match pool.index_of(&Constant::Class(pool.1.clone())) {
            Some(k) => Some(VerificationType::OBJECT(k)),
            None => None,
        }
    }
}

/// Applies what an instruction other than a jump does to the stack and the
/// pool; `false` where `effect` gives `None`.
fn apply_effect(i: &Instruction, st: &mut VerificationStack, pool: &mut ConstantPool) -> (ok: bool)
    requires
        old(pool)@.len() < 65535,
    ensures
        final(pool).1 == old(pool).1,
        final(pool)@.len() < 65535,
        match effect(*i, old(st)@, old(pool)@, old(pool).1@) {
            Some((s2, p2)) => ok && final(st)@ == s2 && final(pool)@ == p2,
            None => !ok,
        },
{
    let ghost st0 = st@;
    match i {
        Instruction::invokespecial(idx) => {
            if *idx == 0 {
                return false;
            }
            let is_method = match pool.get(*idx) {
                Some(Constant::MethodRef(_)) => true,
                _ => false,
            };
            if !is_method || st.operands.len() == 0 {
                return false;
            }
            st.operands.pop();
            assert(st@ == with_operands(st0, st0.operands.drop_last()));
            true
        },
        Instruction::ldc(idx) => {
            let idx16 = *idx as u16;
            if idx16 == 0 {
                return false;
            }
            let (kind, desc) = match pool.get(idx16) {
                Some(Constant::String(_)) => (0u8, None),
                Some(Constant::Integer(_)) => (1u8, None),
                Some(Constant::FieldRef(f)) => (2u8, Some(f.field.descriptor.clone())),
                _ => (3u8, None),
            };
            if kind == 0 {
                if !pool.has_room() {
                    return false;
                }
                let k = pool.add(Constant::Utf8(string_of("Ljava/lang/String")));
                proof {
                    lemma_pool_add_prefix_only(old(pool)@, ConstantV::Utf8(string_descriptor()));
                }
                st.operands.push(VerificationType::OBJECT(k));
                assert(st@ == with_operands(st0, st0.operands.push(VerificationType::OBJECT(k))));
                true
            } else if kind == 1 {
                st.operands.push(VerificationType::INTEGER);
                assert(st@ == with_operands(st0, st0.operands.push(VerificationType::INTEGER)));
                true
            } else if kind == 2 {
                let d = match desc {
                    Some(d) => d,
                    None => return false,
                };
                match field_type_of(&d, pool) {
                    Some(t) => {
                        st.operands.push(t);
                        assert(st@ == with_operands(st0, st0.operands.push(t)));
                        true
                    },
                    None => false,
                }
            } else {
                false
            }
        },
        Instruction::aconst_null => {
            st.operands.push(VerificationType::NULL);
            assert(st@ == with_operands(st0, st0.operands.push(VerificationType::NULL)));
            true
        },
        Instruction::aload_0 => {
            match pool.index_of(&Constant::Class(pool.1.clone())) {
                Some(k) => {
                    st.operands.push(VerificationType::OBJECT(k));
                    assert(st@ == with_operands(st0, st0.operands.push(VerificationType::OBJECT(k))));
                    true
                },
                None => false,
            }
        },
        Instruction::aload(idx) => {
            st.operands.push(VerificationType::OBJECT(*idx as u16));
            assert(st@ == with_operands(st0, st0.operands.push(VerificationType::OBJECT(*idx as u16))));
            true
        },
        Instruction::iload(_) | Instruction::bipush(_) => {
            st.operands.push(VerificationType::INTEGER);
            assert(st@ == with_operands(st0, st0.operands.push(VerificationType::INTEGER)));
            true
        },
        Instruction::sipush(_) => {
            st.operands.push(VerificationType::INTEGER);
            st.operands.push(VerificationType::INTEGER);
            assert(st@ == with_operands(st0, st0.operands.push(VerificationType::INTEGER).push(VerificationType::INTEGER)));
            true
        },
        Instruction::ireturn | Instruction::return_void | Instruction::areturn => {
            st.operands.clear();
            assert(st@ == with_operands(st0, Seq::empty()));
            true
        },
        Instruction::putfield(_) => {
            st.operands.pop();
            st.operands.pop();
            assert(st@ == with_operands(st0, pop_opt(pop_opt(st0.operands))));
            true
        },
        Instruction::ineg => true,
        Instruction::istore(x) => {
            st.operands.pop();
            if *x as usize >= st.locals.len() {
                st.locals.push(VerificationType::INTEGER);
            }
            true
        },
        Instruction::astore(x) => {
            let a = match st.operands.pop() {
                Some(a) => a,
                None => return false,
            };
            if *x as usize >= st.locals.len() {
                st.locals.push(a);
            }
            true
        },
        Instruction::iadd | Instruction::isub | Instruction::imul | Instruction::idiv | Instruction::irem => {
            st.operands.pop();
            assert(st@ == with_operands(st0, pop_opt(st0.operands)));
            true
        },
        Instruction::getfield(idx) => {
            st.operands.pop();
            if *idx == 0 {
                return false;
            }
            let desc = match pool.get(*idx) {
                Some(Constant::FieldRef(f)) => f.field.descriptor.clone(),
                _ => return false,
            };
            match field_type_of(&desc, pool) {
                Some(t) => {
                    st.operands.push(t);
                    assert(st@ == with_operands(st0, pop_opt(st0.operands).push(t)));
                    true
                },
                None => false,
            }
        },
        Instruction::dup => {
            let n = st.operands.len();
            if n == 0 {
                return false;
            }
            let last = st.operands[n - 1];
            st.operands.push(last);
            assert(st@ == with_operands(st0, st0.operands.push(st0.operands.last())));
            true
        },
        _ => false,
    }
}


/// How far an instruction moves the byte position; see `advance`.
fn advance_of(i: &Instruction) -> (k: usize)
    ensures
        k == advance(*i),
{
    match i {
        Instruction::invokespecial(_) | Instruction::sipush(_) | Instruction::putfield(_)
        | Instruction::getfield(_) => 3,
        Instruction::ldc(_) | Instruction::aload(_) | Instruction::iload(_) | Instruction::bipush(_)
        | Instruction::istore(_) => 2,
        Instruction::astore(_) => 0,
        _ => 1,
    }
}

/// The stack map of a method: one frame for each jump target, each
/// described relative to the one before.
#[derive(Debug)]
pub struct StackMapTable {
    pub frames: Vec<StackMapFrame>,
}

impl StackMapTable {
    /// Follows `code` from `instruction_idx` as `walk` does, adding the
    /// stacks at jump targets to `stacks` and the jumps taken to
    /// `taken_branches_idxs`; `false` where `walk` gives `None`.
    fn create_stacks_for_branch(
        code: &[Instruction],
        instruction_idx: usize,
        bytes_idx: usize,
        current_stack: VerificationStack,
        stacks: &mut Vec<VerificationStack>,
        taken_branches_idxs: &mut Vec<usize>,
        constant_pool: &mut ConstantPool,
    ) -> (ok: bool)
        requires
            old(constant_pool)@.len() < 65535,
            distinct_below(old(taken_branches_idxs)@, code@.len() as int),
        ensures
            final(constant_pool).1 == old(constant_pool).1,
            final(constant_pool)@.len() < 65535,
            distinct_below(final(taken_branches_idxs)@, code@.len() as int),
            final(taken_branches_idxs)@.len() >= old(taken_branches_idxs)@.len(),
            match walk(
                code@,
                instruction_idx as int,
                bytes_idx as int,
                current_stack@,
                WalkState {
                    stacks: stacks_view(old(stacks)@),
                    taken: old(taken_branches_idxs)@,
                    pool: old(constant_pool)@,
                },
                old(constant_pool).1@,
            ) {
                Some(w) => ok && stacks_view(final(stacks)@) == w.stacks
                    && final(taken_branches_idxs)@ == w.taken && final(constant_pool)@ == w.pool,
                None => !ok,
            },
        decreases code@.len() - old(taken_branches_idxs)@.len(), code@.len() - instruction_idx,
    {
        let ghost n = code@.len() as int;
        let ghost cls = constant_pool.1@;
        let ghost goal = walk(
            code@,
            instruction_idx as int,
            bytes_idx as int,
            current_stack@,
            WalkState {
                stacks: stacks_view(stacks@),
                taken: taken_branches_idxs@,
                pool: constant_pool@,
            },
            cls,
        );
        assert(goal == walk(
            code@,
            instruction_idx as int,
            bytes_idx as int,
            current_stack@,
            WalkState {
                stacks: stacks_view(old(stacks)@),
                taken: old(taken_branches_idxs)@,
                pool: old(constant_pool)@,
            },
            old(constant_pool).1@,
        ));
        let mut idx = instruction_idx;
        let mut bytes = bytes_idx;
        let mut cur = current_stack;
        while idx < code.len()
            invariant
                goal == walk(
                    code@,
                    instruction_idx as int,
                    bytes_idx as int,
                    current_stack@,
                    WalkState {
                        stacks: stacks_view(old(stacks)@),
                        taken: old(taken_branches_idxs)@,
                        pool: old(constant_pool)@,
                    },
                    old(constant_pool).1@,
                ),
                n == code@.len(),
                constant_pool.1 == old(constant_pool).1,
                cls == constant_pool.1@,
                constant_pool@.len() < 65535,
                distinct_below(taken_branches_idxs@, n),
                taken_branches_idxs@.len() >= old(taken_branches_idxs)@.len(),
                goal == walk(
                    code@,
                    idx as int,
                    bytes as int,
                    cur@,
                    WalkState {
                        stacks: stacks_view(stacks@),
                        taken: taken_branches_idxs@,
                        pool: constant_pool@,
                    },
                    cls,
                ),
            decreases n - taken_branches_idxs@.len(), n - idx,
        {
            proof {
                lemma_distinct_below_len(taken_branches_idxs@, n);
            }
            let i = code[idx];
            let is_cond = match i {
                Instruction::ifeq(_, _) | Instruction::iflt(_, _) | Instruction::ifge(_, _)
                | Instruction::ifne(_, _) => true,
                _ => false,
            };
            let is_goto = match i {
                Instruction::goto(_, _) => true,
                _ => false,
            };
            if is_cond || is_goto {
                let (byte_offset, instruction_offset) = match i {
                    Instruction::ifeq(b, o) | Instruction::iflt(b, o) | Instruction::ifge(b, o)
                    | Instruction::ifne(b, o) | Instruction::goto(b, o) => (b, o),
                    _ => (0i16, 0i16),
                };
                assert(code@[idx as int] == i);
                assert(is_cond == is_cond_jump(i));
                assert(jump_offsets(i) == (byte_offset, instruction_offset));
                let ghost w_now = WalkState {
                    stacks: stacks_view(stacks@),
                    taken: taken_branches_idxs@,
                    pool: constant_pool@,
                };
                if is_cond && instruction_offset == 0 {
                    assert(walk(code@, idx as int, bytes as int, cur@, w_now, cls) is None);
                    assert(goal is None);
                    return false;
                }
                if holds_index(taken_branches_idxs, idx) {
                    assert(walk(code@, idx as int, bytes as int, cur@, w_now, cls) == Some(w_now));
                    assert(goal == Some(w_now));
                    return true;
                }
                let ghost t0 = taken_branches_idxs@;
                taken_branches_idxs.push(idx);
                proof {
                    assert(distinct_below(taken_branches_idxs@, n)) by {
                        assert forall|a: int, b: int| 0 <= a < b < taken_branches_idxs@.len()
                            implies taken_branches_idxs@[a] != taken_branches_idxs@[b] by {
                            if b == t0.len() {
                                assert(t0[a] == taken_branches_idxs@[a]);
                            }
                        }
                    }
                    lemma_distinct_below_len(taken_branches_idxs@, n);
                }
                #[verifier::truncate]
                let b16 = bytes as i16;
                #[verifier::truncate]
                let i16x = idx as i16;
                let ghost cur0 = cur@;
                if is_cond {
                    let ghost st1 = with_operands(cur@, pop_opt(cur@.operands));
                    cur.operands.pop();
                    assert(cur@ == st1);
                    let loc = match b16.checked_add(byte_offset) {
                        Some(x) => x,
                        None => return false,
                    };
                    let t = match i16x.checked_add(instruction_offset) {
                        Some(x) => x,
                        None => return false,
                    };
                    #[verifier::truncate]
                    let target = t as usize;
                    #[verifier::truncate]
                    let loc16 = loc as u16;
                    let new_stack = VerificationStack {
                        location: loc16,
                        locals: copy_types(&cur.locals),
                        operands: copy_types(&cur.operands),
                    };
                    let ghost sv0 = stacks_view(stacks@);
                    stacks.push(new_stack.copy_stack());
                    assert(stacks_view(stacks@) =~= sv0.push(new_stack@));
                    let ok = Self::create_stacks_for_branch(
                        code,
                        target,
                        loc16 as usize,
                        new_stack,
                        stacks,
                        taken_branches_idxs,
                        constant_pool,
                    );
                    proof {
                        assert(chk16((bytes as i16) + byte_offset) == Some(loc));
                        assert(chk16((idx as i16) + instruction_offset) == Some(t));
                        assert(new_stack@ == VStack { location: loc as u16, locals: st1.locals, operands: st1.operands });
                    }
                    if !ok {
                        assert(walk(code@, idx as int, bytes as int, cur0, w_now, cls) is None);
                        return false;
                    }
                    proof {
                        lemma_distinct_below_len(taken_branches_idxs@, n);
                    }
                    bytes = match bytes.checked_add(3) {
                        Some(b) => b,
                        None => return false,
                    };
                    idx = idx + 1;
                } else {
                    let t = match i16x.checked_add(instruction_offset) {
                        Some(x) => x,
                        None => return false,
                    };
                    let loc = match b16.checked_add(byte_offset) {
                        Some(x) => x,
                        None => return false,
                    };
                    #[verifier::truncate]
                    let target = t as usize;
                    #[verifier::truncate]
                    let loc16 = loc as u16;
                    cur.location = loc16;
                    let ghost sv0 = stacks_view(stacks@);
                    stacks.push(cur.copy_stack());
                    assert(stacks_view(stacks@) =~= sv0.push(cur@));
                    if target == usize::MAX {
                        return false;
                    }
                    idx = target + 1;
                }
            } else {
                let nb = match bytes.checked_add(advance_of(&i)) {
                    Some(b) => b,
                    None => return false,
                };
                if !apply_effect(&i, &mut cur, constant_pool) {
                    return false;
                }
                bytes = nb;
                idx = idx + 1;
            }
        }
        true
    }
}


/// One frame of a stack map, relative to the frame before it.
#[derive(Debug)]
pub enum StackMapFrame {
    /// Same locals, no operands; the offset delta, below 64.
    SAME(u8),
    /// Same locals, no operands; tag 251 and the offset delta.
    SAME_EXTENDED(u16),
    /// Same locals, one operand; 64 plus the offset delta.
    SAME_LOCALS_1(u8, VerificationType),
    /// Same locals, one operand; tag 247 and the offset delta.
    SAME_LOCALS_1_EXTENDED(u16, VerificationType),
    /// Fewer locals, no operands; tag and offset delta.
    CHOP(u8, u16),
    /// More locals, no operands; tag, offset delta and the new locals.
    APPEND(u8, u16, Vec<VerificationType>),
    /// Offset delta, locals and operands in full.
    FULL(u16, u16, Vec<VerificationType>, u16, Vec<VerificationType>),
}

pub enum FrameV {
    SAME(u8),
    SAME_EXTENDED(u16),
    SAME_LOCALS_1(u8, VerificationType),
    SAME_LOCALS_1_EXTENDED(u16, VerificationType),
    CHOP(u8, u16),
    APPEND(u8, u16, Seq<VerificationType>),
    FULL(u16, u16, Seq<VerificationType>, u16, Seq<VerificationType>),
}

impl View for StackMapFrame {
    type V = FrameV;

    open spec fn view(&self) -> FrameV {
        match *self {
            StackMapFrame::SAME(d) => FrameV::SAME(d),
            StackMapFrame::SAME_EXTENDED(d) => FrameV::SAME_EXTENDED(d),
            StackMapFrame::SAME_LOCALS_1(d, t) => FrameV::SAME_LOCALS_1(d, t),
            StackMapFrame::SAME_LOCALS_1_EXTENDED(d, t) => FrameV::SAME_LOCALS_1_EXTENDED(d, t),
            StackMapFrame::CHOP(k, d) => FrameV::CHOP(k, d),
            StackMapFrame::APPEND(k, d, ts) => FrameV::APPEND(k, d, ts@),
            StackMapFrame::FULL(d, nl, ls, no, os) => FrameV::FULL(d, nl, ls@, no, os@),
        }
    }
}

/// The encoding of a frame: its tag, its offset delta and what else its
/// kind carries; `None` where a type has no encoding.
pub open spec fn frame_bytes(f: FrameV) -> Option<Seq<u8>> {
    match f {
        FrameV::SAME(d) => Some(seq![d]),
        FrameV::SAME_EXTENDED(d) => Some(seq![251u8] + be16(d)),
        FrameV::SAME_LOCALS_1(d, t) => match vt_bytes(t) {
            Some(b) => Some(seq![d] + b),
            None => None,
        },
        FrameV::SAME_LOCALS_1_EXTENDED(d, t) => match vt_bytes(t) {
            Some(b) => Some(seq![247u8] + be16(d) + b),
            None => None,
        },
        FrameV::CHOP(k, d) => Some(seq![k] + be16(d)),
        FrameV::APPEND(k, d, ts) => match vts_bytes(ts) {
            Some(b) => Some(seq![k] + be16(d) + b),
            None => None,
        },
        FrameV::FULL(d, nl, ls, no, os) => match (vts_bytes(ls), vts_bytes(os)) {
            (Some(lb), Some(ob)) => Some(seq![255u8] + be16(d) + be16(nl) + lb + be16(no) + ob),
            _ => None,
        },
    }
}

impl StackMapFrame {
    /// The encoding of this frame, as `frame_bytes` gives it.
    pub fn as_bytes(&self) -> (r: Option<Vec<u8>>)
        ensures
            r matches Some(v) ==> frame_bytes(self@) == Some(v@),
            r is None ==> frame_bytes(self@) is None,
    {
        let mut v: Vec<u8> = Vec::new();
        match self {
            StackMapFrame::SAME(d) => {
                v.push(*d);
                assert(v@ =~= seq![*d]);
            },
            StackMapFrame::SAME_EXTENDED(d) => {
                v.push(251u8);
                push_u16(&mut v, *d);
                assert(v@ =~= seq![251u8] + be16(*d));
            },
            StackMapFrame::SAME_LOCALS_1(d, t) => {
                v.push(*d);
                let b = match t.as_bytes() {
                    Some(b) => b,
                    None => return None,
                };
                let mut k: usize = 0;
                while k < b.len()
                    invariant
                        k <= b@.len(),
                        v@ == seq![*d] + b@.subrange(0, k as int),
                    decreases b@.len() - k,
                {
                    v.push(b[k]);
                    k = k + 1;
                    assert(b@.subrange(0, k as int) =~= b@.subrange(0, k - 1).push(b@[k - 1]));
                }
                assert(b@.subrange(0, b@.len() as int) =~= b@);
            },
            StackMapFrame::SAME_LOCALS_1_EXTENDED(d, t) => {
                v.push(247u8);
                push_u16(&mut v, *d);
                let b = match t.as_bytes() {
                    Some(b) => b,
                    None => return None,
                };
                let ghost v0 = v@;
                let mut k: usize = 0;
                while k < b.len()
                    invariant
                        k <= b@.len(),
                        v@ == v0 + b@.subrange(0, k as int),
                    decreases b@.len() - k,
                {
                    v.push(b[k]);
                    k = k + 1;
                    assert(b@.subrange(0, k as int) =~= b@.subrange(0, k - 1).push(b@[k - 1]));
                }
                assert(b@.subrange(0, b@.len() as int) =~= b@);
                assert(v@ =~= seq![247u8] + be16(*d) + b@);
            },
            StackMapFrame::CHOP(k, d) => {
                v.push(*k);
                push_u16(&mut v, *d);
                assert(v@ =~= seq![*k] + be16(*d));
            },
            StackMapFrame::APPEND(k, d, ts) => {
                v.push(*k);
                push_u16(&mut v, *d);
                let ghost v0 = v@;
                if !push_types(&mut v, ts) {
                    return None;
                }
                assert(v@ =~= seq![*k] + be16(*d) + vts_bytes(ts@).unwrap());
            },
            StackMapFrame::FULL(d, nl, ls, no, os) => {
                v.push(255u8);
                push_u16(&mut v, *d);
                push_u16(&mut v, *nl);
                if !push_types(&mut v, ls) {
                    return None;
                }
                push_u16(&mut v, *no);
                if !push_types(&mut v, os) {
                    return None;
                }
                assert(v@ =~= seq![255u8] + be16(*d) + be16(*nl) + vts_bytes(ls@).unwrap() + be16(*no)
                    + vts_bytes(os@).unwrap());
            },
        }
        Some(v)
    }
}


/// The verification type of a parameter: a `String` is an object found by
/// the string descriptor, as for string constants; `None` for `void`
/// parameters and for a class or descriptor without an entry.
pub open spec fn param_type(t: TypeV, pool: Seq<ConstantV>) -> Option<VerificationType> {
    match t {
        TypeV::Int | TypeV::Bool | TypeV::Char => Some(VerificationType::INTEGER),
        TypeV::Null => Some(VerificationType::NULL),
        TypeV::Class(n) => match index_of_spec(pool, ConstantV::Class(n)) {
            Some(k) => Some(VerificationType::OBJECT(k)),
            None => None,
        },
        TypeV::String => match index_of_spec(pool, ConstantV::Utf8(string_descriptor())) {
            Some(k) => Some(VerificationType::OBJECT(k)),
            None => None,
        },
        TypeV::Void => None,
    }
}

/// Some parameter is a `String`.
pub open spec fn has_string_param(ps: Seq<(TypeV, Seq<char>)>) -> bool {
    exists|i: int| 0 <= i < ps.len() && #[trigger] ps[i].0 == TypeV::String
}

/// The pool the stack map starts from: with the string descriptor added
/// where a parameter is a `String`; `None` where there is no room for it.
pub open spec fn entry_pool(ps: Seq<(TypeV, Seq<char>)>, pool: Seq<ConstantV>) -> Option<Seq<ConstantV>> {
    if !has_string_param(ps) {
        Some(pool)
    } else if has_room(pool) {
        Some(pool_add(pool, ConstantV::Utf8(string_descriptor())))
    } else {
        None
    }
}

/// The verification types of the first `k` parameters.
pub open spec fn param_types(ps: Seq<(TypeV, Seq<char>)>, k: nat, pool: Seq<ConstantV>) -> Option<
    Seq<VerificationType>,
>
    decreases k,
{
    if k == 0 || k > ps.len() {
        Some(Seq::empty())
    } else {
        match (param_types(ps, (k - 1) as nat, pool), param_type(ps[k - 1].0, pool)) {
            (Some(a), Some(t)) => Some(a.push(t)),
            _ => None,
        }
    }
}

/// The locals on entry to a method: `this`, then the parameters.
pub open spec fn initial_locals(ps: Seq<(TypeV, Seq<char>)>, pool: Seq<ConstantV>, cls: Seq<char>) -> Option<
    Seq<VerificationType>,
> {
    match (index_of_spec(pool, ConstantV::Class(cls)), param_types(ps, ps.len(), pool)) {
        (Some(k), Some(ts)) => Some(seq![VerificationType::OBJECT(k)] + ts),
        _ => None,
    }
}

/// The frame of stack `s` after stack `last`; the offset delta is the
/// distance in bytes less one, except for the first frame. `None` where
/// that distance is negative.
pub open spec fn frame_of(s: VStack, last: VStack, is_first: bool) -> Option<FrameV> {
    let offset = s.location - last.location - (if is_first { 0int } else { 1int });
    if offset < 0 {
        None
    } else if same_frame(s, last) {
        if offset < 64 {
            Some(FrameV::SAME(offset as u8))
        } else {
            Some(FrameV::SAME_EXTENDED(offset as u16))
        }
    } else if s.locals == last.locals && s.operands.len() > 0 && s.operands.drop_last() == last.operands {
        if offset < 64 {
            Some(FrameV::SAME_LOCALS_1((64 + offset) as u8, s.operands.last()))
        } else {
            Some(FrameV::SAME_LOCALS_1_EXTENDED(offset as u16, s.operands.last()))
        }
    } else if s.operands.len() == 0 && s.locals.len() > last.locals.len() && s.locals.len()
        - last.locals.len() < 4 && s.locals.subrange(0, last.locals.len() as int) == last.locals {
        Some(
            FrameV::APPEND(
                (s.locals.len() - last.locals.len() + 251) as u8,
                offset as u16,
                s.locals.subrange(last.locals.len() as int, s.locals.len() as int),
            ),
        )
    } else if s.operands.len() == 0 && s.locals.len() < last.locals.len() && last.locals.len()
        - s.locals.len() < 4 && s.locals == last.locals.subrange(0, s.locals.len() as int) {
        Some(FrameV::CHOP((251 - (last.locals.len() - s.locals.len())) as u8, offset as u16))
    } else {
        Some(
            FrameV::FULL(
                offset as u16,
                s.locals.len() as u16,
                s.locals,
                s.operands.len() as u16,
                s.operands,
            ),
        )
    }
}

/// The stack that precedes stack `j`: the entry stack for the first one.
pub open spec fn prev_stack(s: Seq<VStack>, j: int, init: Seq<VerificationType>) -> VStack {
    if j == 0 {
        VStack { location: 0, locals: init, operands: Seq::empty() }
    } else {
        s[j - 1]
    }
}

/// The frames of the first `k` stacks.
pub open spec fn frames_from(s: Seq<VStack>, k: nat, init: Seq<VerificationType>) -> Option<Seq<FrameV>>
    decreases k,
{
    if k == 0 || k > s.len() {
        Some(Seq::empty())
    } else {
        match (frames_from(s, (k - 1) as nat, init), frame_of(s[k - 1], prev_stack(s, k - 1, init), k == 1)) {
            (Some(a), Some(f)) => Some(a.push(f)),
            _ => None,
        }
    }
}

/// The stack map of a method: follow the code from its start with the
/// entry locals, sort the stacks met at jump targets, and describe each
/// relative to the one before. Also gives the pool afterwards.
pub open spec fn table_spec(
    code: Seq<Instruction>,
    ps: Seq<(TypeV, Seq<char>)>,
    pool0: Seq<ConstantV>,
    cls: Seq<char>,
) -> Option<(Seq<FrameV>, Seq<ConstantV>)> {
    let pool = match entry_pool(ps, pool0) {
        Some(p) => p,
        None => pool0,
    };
    if entry_pool(ps, pool0) is None {
        None
    } else {
    match initial_locals(ps, pool, cls) {
        Some(init) => match walk(
            code,
            0,
            0,
            VStack { location: 0, locals: init, operands: Seq::empty() },
            WalkState { stacks: Seq::empty(), taken: Seq::empty(), pool },
            cls,
        ) {
            Some(w) => {
                let sorted = sort_unique_from(w.stacks, 0);
                match frames_from(sorted, sorted.len(), init) {
                    Some(fs) => Some((fs, w.pool)),
                    None => None,
                }
            },
            None => None,
        },
        None => None,
    }
    }
}

/// The offset delta a frame records.
pub open spec fn frame_delta(f: FrameV) -> int {
    match f {
        FrameV::SAME(k) => k as int,
        FrameV::SAME_EXTENDED(d) => d as int,
        FrameV::SAME_LOCALS_1(k, _) => k - 64,
        FrameV::SAME_LOCALS_1_EXTENDED(d, _) => d as int,
        FrameV::CHOP(_, d) => d as int,
        FrameV::APPEND(_, d, _) => d as int,
        FrameV::FULL(d, _, _, _, _) => d as int,
    }
}

/// The bytecode offset that frame `i` applies to, as the JVM reads a stack
/// map table: the first frame at its delta, each later frame at the offset
/// of the one before plus its delta plus one.
pub open spec fn frame_offset(fs: Seq<FrameV>, i: int) -> int
    decreases i,
{
    if i <= 0 {
        frame_delta(fs[0])
    } else {
        frame_offset(fs, i - 1) + frame_delta(fs[i]) + 1
    }
}

/// Following the code from the entry locals, as `table_spec` does.
pub open spec fn walk_of(code: Seq<Instruction>, ps: Seq<(TypeV, Seq<char>)>, pool0: Seq<ConstantV>, cls: Seq<char>) -> Option<
    WalkState,
> {
    let pool = match entry_pool(ps, pool0) {
        Some(p) => p,
        None => pool0,
    };
    match initial_locals(ps, pool, cls) {
        Some(init) => walk(
            code,
            0,
            0,
            VStack { location: 0, locals: init, operands: Seq::empty() },
            WalkState { stacks: Seq::empty(), taken: Seq::empty(), pool },
            cls,
        ),
        None => None,
    }
}

proof fn lemma_frame_offset_push(a: Seq<FrameV>, f: FrameV, i: int)
    requires
        0 <= i < a.len(),
    ensures
        frame_offset(a.push(f), i) == frame_offset(a, i),
    decreases i,
{
    if i > 0 {
        lemma_frame_offset_push(a, f, i - 1);
    }
}

/// The frame built for a stack records the distance from the stack before.
proof fn lemma_frame_of_delta(st: VStack, last: VStack, is_first: bool)
    requires
        frame_of(st, last, is_first) is Some,
    ensures
        frame_delta(frame_of(st, last, is_first)->Some_0) == st.location - last.location - (if is_first {
            0int
        } else {
            1int
        }),
{
}

/// Each frame applies to the location of its stack.
proof fn lemma_frames_from_offsets(s: Seq<VStack>, k: nat, init: Seq<VerificationType>)
    requires
        k <= s.len(),
        frames_from(s, k, init) is Some,
    ensures
        frames_from(s, k, init)->Some_0.len() == k,
        forall|i: int| 0 <= i < k ==> #[trigger] frame_offset(frames_from(s, k, init)->Some_0, i) == s[i].location,
    decreases k,
{
    if k > 0 {
        lemma_frames_from_offsets(s, (k - 1) as nat, init);
        let a = frames_from(s, (k - 1) as nat, init)->Some_0;
        let f = frame_of(s[k - 1], prev_stack(s, k - 1, init), k == 1)->Some_0;
        lemma_frame_of_delta(s[k - 1], prev_stack(s, k - 1, init), k == 1);
        let fs = a.push(f);
        assert forall|i: int| 0 <= i < k implies #[trigger] frame_offset(fs, i) == s[i].location by {
            if i < k - 1 {
                lemma_frame_offset_push(a, f, i);
            } else if i > 0 {
                lemma_frame_offset_push(a, f, i - 1);
            }
        }
    }
}

/// What a frame says of the stack at its location, given the stack at the
/// location before: `SAME` keeps locals and operands; `SAME_LOCALS_1` keeps
/// the locals and adds its one operand; `CHOP` drops its count of locals,
/// its tag less than 251, with no operands; `APPEND` adds its listed locals,
/// its tag more than 251, after those before, with no operands; `FULL`
/// lists locals and operands.
pub open spec fn frame_describes(f: FrameV, before: VStack, at: VStack) -> bool {
    match f {
        FrameV::SAME(_) | FrameV::SAME_EXTENDED(_) => at.locals == before.locals && at.operands == before.operands,
        FrameV::SAME_LOCALS_1(_, t) | FrameV::SAME_LOCALS_1_EXTENDED(_, t) => at.locals == before.locals
            && at.operands == before.operands.push(t),
        FrameV::CHOP(k, _) => 248 <= k < 251 && before.locals.len() >= 251 - k && at.locals == before.locals.subrange(
            0,
            before.locals.len() - (251 - k),
        ) && at.operands.len() == 0,
        FrameV::APPEND(k, _, ts) => 252 <= k <= 254 && ts.len() == k - 251 && at.locals == before.locals + ts
            && at.operands.len() == 0,
        FrameV::FULL(_, _, ls, _, os) => at.locals == ls && at.operands == os,
    }
}

/// Each frame built describes its stack from the stack before.
proof fn lemma_frame_of_describes(st: VStack, last: VStack, is_first: bool)
    requires
        frame_of(st, last, is_first) is Some,
    ensures
        frame_describes(frame_of(st, last, is_first)->Some_0, last, st),
{
    if st.operands.len() > 0 && st.operands.drop_last() == last.operands {
        assert(st.operands =~= last.operands.push(st.operands.last()));
    }
    if st.locals.len() > last.locals.len() && st.locals.subrange(0, last.locals.len() as int) == last.locals {
        assert(st.locals =~= last.locals + st.locals.subrange(last.locals.len() as int, st.locals.len() as int));
    }
}

/// Each frame of the first `k` describes its stack from the one before.
proof fn lemma_frames_from_describe(s: Seq<VStack>, k: nat, init: Seq<VerificationType>)
    requires
        k <= s.len(),
        frames_from(s, k, init) is Some,
    ensures
        forall|i: int|
            0 <= i < k ==> frame_describes(#[trigger] frames_from(s, k, init)->Some_0[i], prev_stack(s, i, init), s[i]),
    decreases k,
{
    if k > 0 {
        lemma_frames_from_describe(s, (k - 1) as nat, init);
        lemma_frames_from_offsets(s, (k - 1) as nat, init);
        lemma_frame_of_describes(s[k - 1], prev_stack(s, k - 1, init), k == 1);
        let a = frames_from(s, (k - 1) as nat, init)->Some_0;
        let fs = frames_from(s, k, init)->Some_0;
        assert forall|i: int| 0 <= i < k implies frame_describes(#[trigger] fs[i], prev_stack(s, i, init), s[i]) by {
            if i < k - 1 {
                assert(fs[i] == a[i]);
            }
        }
    }
}

/// Each frame of the stack map table, read as the JVM reads it from the
/// stack at the location before (the entry stack for the first), gives the
/// stack that following the code met at its own location.
pub proof fn law_stack_map_frames_describe_stacks(
    code: Seq<Instruction>,
    ps: Seq<(TypeV, Seq<char>)>,
    pool: Seq<ConstantV>,
    cls: Seq<char>,
)
    ensures
        table_spec(code, ps, pool, cls) matches Some((fs, _)) ==> (walk_of(code, ps, pool, cls) matches Some(w)
            && initial_locals(ps, entry_pool(ps, pool)->Some_0, cls) matches Some(init) && fs.len()
            == sort_unique_from(w.stacks, 0).len() && forall|i: int|
            0 <= i < fs.len() ==> frame_describes(
                #[trigger] fs[i],
                prev_stack(sort_unique_from(w.stacks, 0), i, init),
                sort_unique_from(w.stacks, 0)[i],
            )),
{
    if let Some((fs, _)) = table_spec(code, ps, pool, cls) {
        let init = initial_locals(ps, entry_pool(ps, pool)->Some_0, cls)->Some_0;
        let w = walk_of(code, ps, pool, cls)->Some_0;
        let sorted = sort_unique_from(w.stacks, 0);
        lemma_frames_from_offsets(sorted, sorted.len(), init);
        lemma_frames_from_describe(sorted, sorted.len(), init);
    }
}

/// The stack map table has one frame for each distinct location at which
/// following the code met a stack, in increasing order, and its offset
/// deltas, read as the JVM reads them, give back exactly those locations.
pub proof fn law_stack_map_frames(code: Seq<Instruction>, ps: Seq<(TypeV, Seq<char>)>, pool: Seq<ConstantV>, cls: Seq<char>)
    ensures
        table_spec(code, ps, pool, cls) matches Some((fs, _)) ==> (walk_of(code, ps, pool, cls) matches Some(w)
            && fs.len() == sort_unique_from(w.stacks, 0).len() && strictly_sorted(sort_unique_from(w.stacks, 0))
            && locations(sort_unique_from(w.stacks, 0)) == locations(w.stacks) && forall|i: int|
            0 <= i < fs.len() ==> #[trigger] frame_offset(fs, i) == sort_unique_from(w.stacks, 0)[i].location),
{
    if let Some((fs, _)) = table_spec(code, ps, pool, cls) {
        let init = initial_locals(ps, entry_pool(ps, pool)->Some_0, cls)->Some_0;
        let w = walk_of(code, ps, pool, cls)->Some_0;
        let sorted = sort_unique_from(w.stacks, 0);
        lemma_sort_unique(w.stacks);
        lemma_frames_from_offsets(sorted, sorted.len(), init);
    }
}

pub open spec fn frames_view(v: Seq<StackMapFrame>) -> Seq<FrameV> {
    v.map_values(|f: StackMapFrame| f@)
}

/// Whether `a[lo..hi]` equals `b`.
fn same_slice(a: &Vec<VerificationType>, lo: usize, hi: usize, b: &Vec<VerificationType>) -> (r: bool)
    requires
        lo <= hi <= a@.len(),
    ensures
        r == (a@.subrange(lo as int, hi as int) == b@),
{
    if hi - lo != b.len() {
        return false;
    }
    let mut i: usize = 0;
    while i < b.len()
        invariant
            i <= b@.len(),
            hi - lo == b@.len(),
            lo <= hi <= a@.len(),
            forall|j: int| 0 <= j < i ==> a@[lo + j] == b@[j],
        decreases b@.len() - i,
    {
        if a[lo + i] != b[i] {
            return false;
        }
        i = i + 1;
    }
    assert(a@.subrange(lo as int, hi as int) =~= b@);
    true
}

/// The types `a[lo..hi]`.
fn slice_types(a: &Vec<VerificationType>, lo: usize, hi: usize) -> (r: Vec<VerificationType>)
    requires
        lo <= hi <= a@.len(),
    ensures
        r@ == a@.subrange(lo as int, hi as int),
{
    let mut r: Vec<VerificationType> = Vec::new();
    let mut i: usize = lo;
    while i < hi
        invariant
            lo <= i <= hi <= a@.len(),
            r@ == a@.subrange(lo as int, i as int),
        decreases hi - i,
    {
        r.push(a[i]);
        i = i + 1;
        assert(r@ =~= a@.subrange(lo as int, i as int));
    }
    r
}

/// The frame of `stack` after `last`, as `frame_of` gives it.
fn make_frame(stack: &VerificationStack, last: &VerificationStack, is_first: bool) -> (r: Option<StackMapFrame>)
    ensures
        match frame_of(stack@, last@, is_first) {
            Some(f) => r matches Some(x) && x@ == f,
            None => r is None,
        },
{
    let sub = if is_first { 0u16 } else { 1u16 };
    if stack.location < last.location || stack.location - last.location < sub {
        return None;
    }
    let offset_delta: u16 = stack.location - last.location - sub;
    let nl = stack.locals.len();
    let ml = last.locals.len();
    let no = stack.operands.len();
    if stack.eq(last) {
        if offset_delta < 64 {
            Some(StackMapFrame::SAME(offset_delta as u8))
        } else {
            Some(StackMapFrame::SAME_EXTENDED(offset_delta))
        }
    } else if same_types(&stack.locals, &last.locals) && no > 0 && same_slice(&stack.operands, 0, no - 1, &last.operands) {
        proof {
            assert(stack@.operands.drop_last() =~= stack@.operands.subrange(0, no - 1));
        }
        let t = stack.operands[no - 1];
        if offset_delta < 64 {
            Some(StackMapFrame::SAME_LOCALS_1(64 + offset_delta as u8, t))
        } else {
            Some(StackMapFrame::SAME_LOCALS_1_EXTENDED(offset_delta, t))
        }
    } else if no == 0 && nl > ml && nl - ml < 4 && same_slice(&stack.locals, 0, ml, &last.locals) {
        Some(StackMapFrame::APPEND((nl - ml) as u8 + 251, offset_delta, slice_types(&stack.locals, ml, nl)))
    } else if no == 0 && nl < ml && ml - nl < 4 && same_slice(&last.locals, 0, nl, &stack.locals) {
        proof {
            assert(stack@.locals == last@.locals.subrange(0, nl as int) <==> last@.locals.subrange(0, nl as int) == stack@.locals);
        }
        Some(StackMapFrame::CHOP(251 - (ml - nl) as u8, offset_delta))
    } else {
        #[verifier::truncate]
        let nl16 = nl as u16;
        #[verifier::truncate]
        let no16 = no as u16;
        Some(
            StackMapFrame::FULL(
                offset_delta,
                nl16,
                copy_types(&stack.locals),
                no16,
                copy_types(&stack.operands),
            ),
        )
    }
}


/// The encodings of the frames, one after the other.
pub open spec fn frames_bytes(fs: Seq<FrameV>) -> Option<Seq<u8>>
    decreases fs.len(),
{
    if fs.len() == 0 {
        Some(Seq::empty())
    } else {
        match (frames_bytes(fs.drop_last()), frame_bytes(fs.last())) {
            (Some(a), Some(b)) => Some(a + b),
            _ => None,
        }
    }
}

pub open spec fn stack_map_name() -> Seq<char> {
    "StackMapTable"@
}

/// The `StackMapTable` attribute of the frames and the pool after adding
/// the attribute's name: name index, length, number of frames, frames.
pub open spec fn table_bytes(fs: Seq<FrameV>, pool: Seq<ConstantV>) -> Option<(Seq<u8>, Seq<ConstantV>)> {
    let u = ConstantV::Utf8(stack_map_name());
    if !has_room(pool) {
        None
    } else {
        match frames_bytes(fs) {
            Some(attr) => {
                let n = (attr.len() as u32) as int + 2;
                if n > u32::MAX {
                    None
                } else {
                    Some(
                        (
                            be16(add_index(pool, u)) + be32(n as u32) + be16(fs.len() as u16) + attr,
                            pool_add(pool, u),
                        ),
                    )
                }
            },
            None => None,
        }
    }
}

impl StackMapTable {
    /// The stack map of a method with code `code` (whose jumps are already
    /// absolute) and parameters `params`, as `table_spec` gives it.
    pub fn new(code: &[Instruction], params: &[(Type, String)], constant_pool: &mut ConstantPool) -> (r:
        Option<Self>)
        requires
            old(constant_pool)@.len() < 65535,
        ensures
            final(constant_pool).1 == old(constant_pool).1,
            final(constant_pool)@.len() < 65535,
            match table_spec(code@, params_view(params@), old(constant_pool)@, old(constant_pool).1@) {
                Some((fs, p2)) => r matches Some(t) && frames_view(t.frames@) == fs && final(constant_pool)@ == p2,
                None => r is None,
            },
    {
        let ghost ps = params_view(params@);
        let ghost pool_in = constant_pool@;
        let mut has_string = false;
        let mut j: usize = 0;
        while j < params.len()
            invariant
                j <= params@.len(),
                ps == params_view(params@),
                has_string == exists|q: int| 0 <= q < j && #[trigger] ps[q].0 == TypeV::String,
            decreases params@.len() - j,
        {
            assert(ps[j as int].0 == params@[j as int].0@);
            if matches!(params[j].0, Type::String) {
                has_string = true;
            }
            j = j + 1;
        }
        assert(has_string == has_string_param(ps));
        if has_string {
            if !constant_pool.has_room() {
                return None;
            }
            constant_pool.add(Constant::Utf8(string_of("Ljava/lang/String")));
        }
        assert(entry_pool(ps, pool_in) == Some(constant_pool@));
        let ghost pool0 = constant_pool@;
        let this_idx = match constant_pool.index_of(&Constant::Class(constant_pool.1.clone())) {
            Some(k) => k,
            None => return None,
        };
        let mut initial_locals: Vec<VerificationType> = Vec::new();
        initial_locals.push(VerificationType::OBJECT(this_idx));
        let mut i: usize = 0;
        while i < params.len()
            invariant
                i <= params@.len(),
                ps == params_view(params@),
                constant_pool@ == pool0,
                constant_pool@.len() < 65535,
                constant_pool.1 == old(constant_pool).1,
                pool_in == old(constant_pool)@,
                entry_pool(ps, pool_in) == Some(pool0),
                param_types(ps, i as nat, pool0) is Some,
                initial_locals@ == seq![VerificationType::OBJECT(this_idx)] + param_types(ps, i as nat, pool0).unwrap(),
            decreases params@.len() - i,
        {
            let t = match &params[i].0 {
                Type::Int | Type::Bool | Type::Char => VerificationType::INTEGER,
                Type::Null => VerificationType::NULL,
                Type::Class(name) => match constant_pool.index_of(&Constant::Class(name.clone())) {
                    Some(k) => VerificationType::OBJECT(k),
                    None => {
                        proof {
                            lemma_param_types_prefix_none(ps, i as nat + 1, pool0);
                        }
                        return None;
                    },
                },
                Type::String => match constant_pool.index_of(&Constant::Utf8(string_of("Ljava/lang/String"))) {
                    Some(k) => VerificationType::OBJECT(k),
                    None => {
                        proof {
                            lemma_param_types_prefix_none(ps, i as nat + 1, pool0);
                        }
                        return None;
                    },
                },
                Type::Void => {
                    proof {
                        lemma_param_types_prefix_none(ps, i as nat + 1, pool0);
                    }
                    return None;
                },
            };
            assert(param_type(ps[i as int].0, pool0) == Some(t));
            initial_locals.push(t);
            i = i + 1;
            assert(initial_locals@ =~= seq![VerificationType::OBJECT(this_idx)] + param_types(ps, i as nat, pool0).unwrap());
        }
        let ghost init = initial_locals@;
        assert(self::initial_locals(ps, pool0, constant_pool.1@) == Some(init));
        let current_stack = VerificationStack {
            location: 0,
            locals: copy_types(&initial_locals),
            operands: Vec::new(),
        };
        let mut stacks: Vec<VerificationStack> = Vec::new();
        let mut taken: Vec<usize> = Vec::new();
        assert(stacks_view(stacks@) =~= Seq::<VStack>::empty());
        assert(current_stack@ == VStack { location: 0, locals: init, operands: Seq::empty() });
        if !Self::create_stacks_for_branch(code, 0, 0, current_stack, &mut stacks, &mut taken, constant_pool) {
            return None;
        }
        sort_unique(&mut stacks);
        let ghost sorted = stacks_view(stacks@);
        let mut frames: Vec<StackMapFrame> = Vec::new();
        let mut last = VerificationStack { location: 0, locals: initial_locals, operands: Vec::new() };
        let mut k: usize = 0;
        let ghost p_after = constant_pool@;
        assert(table_spec(code@, ps, pool_in, old(constant_pool).1@) == (match frames_from(sorted, sorted.len(), init) {
            Some(fs) => Some((fs, p_after)),
            None => None,
        }));
        while k < stacks.len()
            invariant
                table_spec(code@, ps, pool_in, old(constant_pool).1@) == (match frames_from(sorted, sorted.len(), init) {
                    Some(fs) => Some((fs, p_after)),
                    None => None,
                }),
                pool_in == old(constant_pool)@,
                ps == params_view(params@),
                constant_pool.1 == old(constant_pool).1,
                constant_pool@.len() < 65535,
                constant_pool@ == p_after,
                k <= stacks@.len(),
                sorted == stacks_view(stacks@),
                frames_from(sorted, k as nat, init) == Some(frames_view(frames@)),
                last@ == prev_stack(sorted, k as int, init),
            decreases stacks@.len() - k,
        {
            let f = match make_frame(&stacks[k], &last, k == 0) {
                Some(f) => f,
                None => {
                    proof {
                        lemma_frames_prefix_none(sorted, k as nat + 1, init);
                    }
                    return None;
                },
            };
            frames.push(f);
            last = stacks[k].copy_stack();
            k = k + 1;
            assert(frames_view(frames@) =~= frames_from(sorted, k as nat, init).unwrap());
        }
        Some(StackMapTable { frames })
    }

    /// Whether the table is left out of the class file: the first frame is
    /// implicit, so a table without frames is not written.
    pub fn is_implicit(&self) -> (b: bool)
        ensures
            b == (self.frames@.len() == 0),
    {
        self.frames.len() == 0
    }

    /// The `StackMapTable` attribute, as `table_bytes` gives it; adds the
    /// attribute's name to the pool.
    pub fn as_bytes(&self, constant_pool: &mut ConstantPool) -> (r: Option<Vec<u8>>)
        requires
            old(constant_pool)@.len() < 65535,
        ensures
            final(constant_pool).1 == old(constant_pool).1,
            final(constant_pool)@.len() < 65535,
            match table_bytes(frames_view(self.frames@), old(constant_pool)@) {
                Some((b, p2)) => r matches Some(v) && v@ == b && final(constant_pool)@ == p2,
                None => r is None,
            },
    {
        let ghost fs = frames_view(self.frames@);
        if !constant_pool.has_room() {
            return None;
        }
        let name_index = constant_pool.add(Constant::Utf8(string_of("StackMapTable")));
        proof {
            lemma_pool_add_prefix_only(old(constant_pool)@, ConstantV::Utf8(stack_map_name()));
        }
        let mut attr: Vec<u8> = Vec::new();
        let mut i: usize = 0;
        let ghost p_after = constant_pool@;
        while i < self.frames.len()
            invariant
                constant_pool.1 == old(constant_pool).1,
                constant_pool@.len() < 65535,
                constant_pool@ == p_after,
                i <= self.frames@.len(),
                fs == frames_view(self.frames@),
                frames_bytes(fs.subrange(0, i as int)) == Some(attr@),
            decreases self.frames@.len() - i,
        {
            assert(fs.subrange(0, i as int + 1).drop_last() =~= fs.subrange(0, i as int));
            let b = match self.frames[i].as_bytes() {
                Some(b) => b,
                None => {
                    proof {
                        lemma_frames_bytes_prefix_none(fs, i as int + 1);
                    }
                    return None;
                },
            };
            let ghost a0 = attr@;
            let mut k: usize = 0;
            while k < b.len()
                invariant
                    k <= b@.len(),
                    attr@ == a0 + b@.subrange(0, k as int),
                decreases b@.len() - k,
            {
                attr.push(b[k]);
                k = k + 1;
                assert(b@.subrange(0, k as int) =~= b@.subrange(0, k - 1).push(b@[k - 1]));
            }
            assert(b@.subrange(0, b@.len() as int) =~= b@);
            i = i + 1;
        }
        assert(fs.subrange(0, fs.len() as int) =~= fs);
        #[verifier::truncate]
        let alen = attr.len() as u32;
        if alen > u32::MAX - 2 {
            return None;
        }
        #[verifier::truncate]
        let nframes = self.frames.len() as u16;
        let mut result: Vec<u8> = Vec::new();
        push_u16(&mut result, name_index);
        push_u32(&mut result, 2 + alen);
        push_u16(&mut result, nframes);
        let ghost r0 = result@;
        let mut k: usize = 0;
        while k < attr.len()
            invariant
                k <= attr@.len(),
                result@ == r0 + attr@.subrange(0, k as int),
            decreases attr@.len() - k,
        {
            result.push(attr[k]);
            k = k + 1;
            assert(attr@.subrange(0, k as int) =~= attr@.subrange(0, k - 1).push(attr@[k - 1]));
        }
        assert(attr@.subrange(0, attr@.len() as int) =~= attr@);
        Some(result)
    }
}

proof fn lemma_param_types_prefix_none(ps: Seq<(TypeV, Seq<char>)>, k: nat, pool: Seq<ConstantV>)
    requires
        1 <= k <= ps.len(),
        param_types(ps, k, pool) is None,
    ensures
        param_types(ps, ps.len(), pool) is None,
    decreases ps.len() - k,
{
    if k < ps.len() {
        lemma_param_types_prefix_none(ps, k + 1, pool);
    }
}

proof fn lemma_frames_prefix_none(s: Seq<VStack>, k: nat, init: Seq<VerificationType>)
    requires
        1 <= k <= s.len(),
        frames_from(s, k, init) is None,
    ensures
        frames_from(s, s.len(), init) is None,
    decreases s.len() - k,
{
    if k < s.len() {
        lemma_frames_prefix_none(s, k + 1, init);
    }
}

proof fn lemma_frames_bytes_prefix_none(fs: Seq<FrameV>, k: int)
    requires
        0 <= k <= fs.len(),
        frames_bytes(fs.subrange(0, k)) is None,
    ensures
        frames_bytes(fs) is None,
    decreases fs.len() - k,
{
    if k < fs.len() {
        assert(fs.subrange(0, k + 1).drop_last() =~= fs.subrange(0, k));
        lemma_frames_bytes_prefix_none(fs, k + 1);
    } else {
        assert(fs.subrange(0, k) =~= fs);
    }
}

} // verus!
