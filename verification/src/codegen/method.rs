use vstd::prelude::*;
use crate::types::{
    Type, TypeV, ExprV, FieldDeclV, MethodDecl, MethodDeclV, FieldDecl, Expr, params_view, ir_string,
    has_ir_string, copy_params,
};
use super::constant_pool::{
    Constant, ConstantPool, ConstantV, index_of_spec, object_init, init_name, string_of,
    NameAndType, MethodRef,
};
use super::instruction::{Instruction, is_relative, instrs_bytes};
use super::constant_pool::{has_room, add_index, pool_add, code_name, lemma_pool_add_prefix_only};
use super::stack::table_bytes;
use super::{be16, be32, push_u16, push_u32};
use super::stack::{StackMapTable, FrameV, frames_view, table_spec, StackSize};
use super::gen_spec::{GenState, gen_stmt, gen_expr, st_inc, st_dec, st_add, field_ref};
use super::ir::{
    LocalVarPool, state_of, generate_code_stmt, generate_code_expr, try_inc, try_dec, try_add,
    make_field_ref,
};

verus! {

/// A method ready to be written: its signature, the limits of its stack
/// and locals, its code and its stack map.
#[derive(Debug)]
pub struct CompiledMethod {
    pub name: String,
    pub return_type: Type,
    pub params: Vec<(Type, String)>,
    pub max_stack: u16,
    pub max_locals: u16,
    pub code: Vec<Instruction>,
    pub stack_map_table: StackMapTable,
}

pub struct CompiledMethodV {
    pub name: Seq<char>,
    pub return_type: TypeV,
    pub params: Seq<(TypeV, Seq<char>)>,
    pub max_stack: u16,
    pub max_locals: u16,
    pub code: Seq<Instruction>,
    pub frames: Seq<FrameV>,
}

impl View for CompiledMethod {
    type V = CompiledMethodV;

    open spec fn view(&self) -> CompiledMethodV {
        CompiledMethodV {
            name: self.name@,
            return_type: self.return_type@,
            params: params_view(self.params@),
            max_stack: self.max_stack,
            max_locals: self.max_locals,
            code: self.code@,
            frames: frames_view(self.stack_map_table.frames@),
        }
    }
}

/// The names of the parameters, the first local variables of a method.
pub open spec fn param_names(ps: Seq<(TypeV, Seq<char>)>) -> Seq<Seq<char>> {
    ps.map_values(|p: (TypeV, Seq<char>)| p.1)
}

/// The compiled form of method `m` of class `cls`, and the pool after it:
/// the code of the body, a `return` appended to a `void` method whose code
/// does not end in one, and the stack map of that code. `this_class` is the
/// class the pool belongs to. `max_locals` counts `this` and every local
/// variable declared.
#[verifier::opaque]
pub open spec fn method_spec(m: MethodDeclV, pool: Seq<ConstantV>, this_class: Seq<char>, cls: Seq<char>) -> Option<
    (CompiledMethodV, Seq<ConstantV>),
> {
    let st0 = GenState { pool, cur: 0, max: 0, locals: param_names(m.params) };
    match gen_stmt(m.body, st0, cls, true) {
        Some((c, st)) => {
            let code = if !(c.len() > 0 && c.last() == Instruction::return_void) && m.ret_type
                == TypeV::Void {
                c.push(Instruction::return_void)
            } else {
                c
            };
            match table_spec(code, m.params, st.pool, this_class) {
                Some((fs, p2)) => {
                    let nl = (st.locals.len() as u16) as int + 1;
                    if nl > u16::MAX {
                        None
                    } else {
                        Some(
                            (
                                CompiledMethodV {
                                    name: m.name,
                                    return_type: m.ret_type,
                                    params: m.params,
                                    max_stack: st.max,
                                    max_locals: nl as u16,
                                    code,
                                    frames: fs,
                                },
                                p2,
                            ),
                        )
                    }
                },
                None => None,
            }
        },
        None => None,
    }
}

/// Compiles a method of class `class_name`, as `method_spec` gives it.
pub fn generate_method(method: &MethodDecl, constant_pool: &mut ConstantPool, class_name: &str) -> (r:
    Option<CompiledMethod>)
    requires
        old(constant_pool)@.len() < 65535,
    ensures
        final(constant_pool).1 == old(constant_pool).1,
        final(constant_pool)@.len() < 65535,
        match method_spec(method@, old(constant_pool)@, old(constant_pool).1@, class_name@) {
            Some((mv, p2)) => r matches Some(cm) && cm@ == mv && final(constant_pool)@ == p2,
            None => r is None,
        },
{
    reveal(method_spec);
    let ghost ps = params_view(method.params@);
    let mut names: Vec<String> = Vec::new();
    let mut i: usize = 0;
    while i < method.params.len()
        invariant
            i <= method.params@.len(),
            ps == params_view(method.params@),
            names@.len() == i,
            forall|j: int| 0 <= j < i ==> #[trigger] names@[j]@ == ps[j].1,
        decreases method.params@.len() - i,
    {
        names.push(method.params[i].1.clone());
        i = i + 1;
    }
    let mut local_var_pool = LocalVarPool(names);
    assert(local_var_pool@ =~= param_names(ps));
    let mut stack = StackSize::new();
    let c = match generate_code_stmt(&method.body, &mut stack, constant_pool, &mut local_var_pool, class_name, true) {
        Some(c) => c,
        None => return None,
    };
    let ghost st1 = state_of(stack, *constant_pool, local_var_pool);
    let ghost c0 = c@;
    assert(gen_stmt(method@.body, GenState { pool: old(constant_pool)@, cur: 0, max: 0, locals: param_names(ps) }, class_name@, true) == Some((c0, st1)));
    let mut code = c;
    let ends_in_return = code.len() > 0 && code[code.len() - 1] == Instruction::return_void;
    let is_void = match method.ret_type {
        Type::Void => true,
        _ => false,
    };
    if !ends_in_return && is_void {
        code.push(Instruction::return_void);
    }
    assert(code@ == (if !(c0.len() > 0 && c0.last() == Instruction::return_void) && method@.ret_type == TypeV::Void {
        c0.push(Instruction::return_void)
    } else {
        c0
    }));
    assert(method@.params == ps);
    let stack_map_table = match StackMapTable::new(code.as_slice(), method.params.as_slice(), constant_pool) {
        Some(t) => t,
        None => return None,
    };
    #[verifier::truncate]
    let nl = local_var_pool.0.len() as u16;
    if nl == u16::MAX {
        return None;
    }
    Some(
        CompiledMethod {
            name: method.name.clone(),
            return_type: method.ret_type.copy_type(),
            params: copy_params(&method.params),
            max_stack: stack.max,
            max_locals: 1 + nl,
            code,
            stack_map_table,
        },
    )
}


/// The descriptors of the first `k` parameters, one after the other;
/// `None` where one of them has none.
pub open spec fn params_descriptor(ps: Seq<(TypeV, Seq<char>)>, k: nat) -> Option<Seq<char>>
    decreases k,
{
    if k == 0 || k > ps.len() {
        Some(Seq::empty())
    } else {
        match params_descriptor(ps, (k - 1) as nat) {
            Some(a) => if has_ir_string(ps[k - 1].0) {
                Some(a + ir_string(ps[k - 1].0))
            } else {
                None
            },
            None => None,
        }
    }
}

/// The descriptor of a return type: `V` for `void`.
pub open spec fn return_descriptor(t: TypeV) -> Option<Seq<char>> {
    if t is Void {
        Some("V"@)
    } else if has_ir_string(t) {
        Some(ir_string(t))
    } else {
        None
    }
}

/// The descriptor of a method: `(` parameter descriptors `)` return descriptor.
pub open spec fn method_descriptor(ps: Seq<(TypeV, Seq<char>)>, ret: TypeV) -> Option<Seq<char>> {
    match (params_descriptor(ps, ps.len()), return_descriptor(ret)) {
        (Some(a), Some(r)) => Some("("@ + a + ")"@ + r),
        _ => None,
    }
}

/// Some instruction of the code is a relative jump, which has no encoding.
pub open spec fn has_relative(code: Seq<Instruction>) -> bool {
    exists|i: int| 0 <= i < code.len() && is_relative(#[trigger] code[i])
}

/// The `method_info` of a compiled method and the pool after it: flags,
/// name and descriptor indices, and one `Code` attribute holding the stack
/// and locals limits, the code, an empty exception table and the stack map
/// where it has frames.
#[verifier::opaque]
pub open spec fn method_bytes(m: CompiledMethodV, pool: Seq<ConstantV>) -> Option<(Seq<u8>, Seq<ConstantV>)> {
    let u1 = ConstantV::Utf8(m.name);
    if !has_room(pool) {
        None
    } else {
        let p1 = pool_add(pool, u1);
        match method_descriptor(m.params, m.return_type) {
            None => None,
            Some(d) => {
                let u2 = ConstantV::Utf8(d);
                if !has_room(p1) {
                    None
                } else {
                    let p2 = pool_add(p1, u2);
                    match index_of_spec(p2, ConstantV::Utf8(code_name())) {
                        None => None,
                        Some(ci) => {
                            if has_relative(m.code) {
                                None
                            } else {
                                let cb = instrs_bytes(m.code);
                                let head = be16(m.max_stack) + be16(m.max_locals) + be32(cb.len() as u32) + cb
                                    + seq![0u8, 0u8];
                                let tail = if m.frames.len() == 0 {
                                    Some((seq![0u8, 0u8], p2))
                                } else {
                                    match table_bytes(m.frames, p2) {
                                        Some((tb, p3)) => Some((seq![0u8, 1u8] + tb, p3)),
                                        None => None,
                                    }
                                };
                                match tail {
                                    Some((t, p3)) => {
                                        let attr = head + t;
                                        Some(
                                            (
                                                seq![0u8, 0u8] + be16(add_index(pool, u1)) + be16(add_index(p1, u2))
                                                    + seq![0u8, 1u8] + be16(ci) + be32(attr.len() as u32) + attr,
                                                p3,
                                            ),
                                        )
                                    },
                                    None => None,
                                }
                            }
                        },
                    }
                }
            },
        }
    }
}

/// Appends all bytes of `src`.
fn extend_bytes(out: &mut Vec<u8>, src: &Vec<u8>)
    ensures
        final(out)@ == old(out)@ + src@,
{
    let mut k: usize = 0;
    while k < src.len()
        invariant
            k <= src@.len(),
            out@ == old(out)@ + src@.subrange(0, k as int),
        decreases src@.len() - k,
    {
        out.push(src[k]);
        k = k + 1;
        assert(src@.subrange(0, k as int) =~= src@.subrange(0, k - 1).push(src@[k - 1]));
    }
    assert(src@.subrange(0, src@.len() as int) =~= src@);
}

/// The descriptor of a method with these parameters and return type.
fn descriptor_of(params: &Vec<(Type, String)>, ret: &Type) -> (r: Option<String>)
    ensures
        match method_descriptor(params_view(params@), ret@) {
            Some(d) => r matches Some(s) && s@ == d,
            None => r is None,
        },
{
    let ghost ps = params_view(params@);
    let mut d = string_of("(");
    let mut acc = String::new();
    let mut i: usize = 0;
    while i < params.len()
        invariant
            i <= params@.len(),
            ps == params_view(params@),
            params_descriptor(ps, i as nat) == Some(acc@),
        decreases params@.len() - i,
    {
        let t = &params[i].0;
        assert(ps[i as int].0 == t@);
        if !t.has_ir_string() {
            proof {
                lemma_params_descriptor_prefix_none(ps, i as nat + 1);
            }
            return None;
        }
        acc.append(t.to_ir_string());
        i = i + 1;
    }
    let r = match ret {
        Type::Void => string_of("V"),
        _ => {
            if !ret.has_ir_string() {
                return None;
            }
            string_of(ret.to_ir_string())
        },
    };
    d.append(acc.as_str());
    d.append(")");
    d.append(r.as_str());
    Some(d)
}

proof fn lemma_params_descriptor_prefix_none(ps: Seq<(TypeV, Seq<char>)>, k: nat)
    requires
        1 <= k <= ps.len(),
        params_descriptor(ps, k) is None,
    ensures
        params_descriptor(ps, ps.len()) is None,
    decreases ps.len() - k,
{
    if k < ps.len() {
        lemma_params_descriptor_prefix_none(ps, k + 1);
    }
}

/// The encoding of the code; `None` where it holds a relative jump.
fn code_bytes_of(code: &Vec<Instruction>) -> (r: Option<Vec<u8>>)
    ensures
        has_relative(code@) ==> r is None,
        !has_relative(code@) ==> (r matches Some(v) && v@ == instrs_bytes(code@)),
{
    let mut code_bytes: Vec<u8> = Vec::new();
    let mut i: usize = 0;
    while i < code.len()
        invariant
            i <= code@.len(),
            code_bytes@ == instrs_bytes(code@.subrange(0, i as int)),
            forall|j: int| 0 <= j < i ==> !is_relative(#[trigger] code@[j]),
        decreases code@.len() - i,
    {
        if code[i].is_relative() {
            assert(has_relative(code@));
            return None;
        }
        let b = code[i].as_bytes();
        extend_bytes(&mut code_bytes, &b);
        assert(code@.subrange(0, i + 1).drop_last() =~= code@.subrange(0, i as int));
        i = i + 1;
    }
    assert(code@.subrange(0, code@.len() as int) =~= code@);
    Some(code_bytes)
}

impl CompiledMethod {
    /// The `method_info` of this method, as `method_bytes` gives it; adds
    /// the name and descriptor to the pool.
    pub fn as_bytes(&self, constant_pool: &mut ConstantPool) -> (r: Option<Vec<u8>>)
        requires
            old(constant_pool)@.len() < 65535,
        ensures
            final(constant_pool).1 == old(constant_pool).1,
            final(constant_pool)@.len() < 65535,
            match method_bytes(self@, old(constant_pool)@) {
                Some((b, p3)) => r matches Some(v) && v@ == b && final(constant_pool)@ == p3,
                None => r is None,
            },
    {
        reveal(method_bytes);
        let ghost m = self@;
        let ghost pool0 = constant_pool@;
        let mut result: Vec<u8> = Vec::new();
        result.push(0u8);
        result.push(0u8);
        if !constant_pool.has_room() {
            return None;
        }
        let name_index = constant_pool.add(Constant::Utf8(self.name.clone()));
        proof {
            lemma_pool_add_prefix_only(pool0, ConstantV::Utf8(m.name));
        }
        let ghost pool1 = constant_pool@;
        let d = match descriptor_of(&self.params, &self.return_type) {
            Some(d) => d,
            None => return None,
        };
        if !constant_pool.has_room() {
            return None;
        }
        let ghost dv = d@;
        let descriptor_index = constant_pool.add(Constant::Utf8(d));
        proof {
            lemma_pool_add_prefix_only(pool1, ConstantV::Utf8(dv));
        }
        push_u16(&mut result, name_index);
        push_u16(&mut result, descriptor_index);
        result.push(0u8);
        result.push(1u8);
        let code_index = match constant_pool.index_of(&Constant::Utf8(string_of("Code"))) {
            Some(k) => k,
            None => return None,
        };
        push_u16(&mut result, code_index);
        let code_bytes = match code_bytes_of(&self.code) {
            Some(b) => b,
            None => return None,
        };
        let mut attr: Vec<u8> = Vec::new();
        push_u16(&mut attr, self.max_stack);
        push_u16(&mut attr, self.max_locals);
        #[verifier::truncate]
        let cl = code_bytes.len() as u32;
        push_u32(&mut attr, cl);
        extend_bytes(&mut attr, &code_bytes);
        attr.push(0u8);
        attr.push(0u8);
        let ghost head = attr@;
        let ghost pool2 = constant_pool@;
        if self.stack_map_table.is_implicit() {
            attr.push(0u8);
            attr.push(0u8);
        } else {
            attr.push(0u8);
            attr.push(1u8);
            let t = match self.stack_map_table.as_bytes(constant_pool) {
                Some(t) => t,
                None => return None,
            };
            extend_bytes(&mut attr, &t);
        }
        #[verifier::truncate]
        let al = attr.len() as u32;
        push_u32(&mut result, al);
        extend_bytes(&mut result, &attr);
        proof {
            let cb = instrs_bytes(m.code);
            assert(head =~= be16(m.max_stack) + be16(m.max_locals) + be32(cb.len() as u32) + cb + seq![0u8, 0u8]);
        }
        assert(result@ =~= seq![0u8, 0u8] + be16(name_index) + be16(descriptor_index) + seq![0u8, 1u8]
            + be16(code_index) + be32(al) + attr@);
        Some(result)
    }
}

/// The argument descriptors of the first `k` arguments are the parameter
/// descriptors of the first `k` parameters, where the arguments have the
/// parameters' types.
proof fn lemma_args_desc_params(args: Seq<ExprV>, ps: Seq<(TypeV, Seq<char>)>, k: nat)
    requires
        k <= args.len() == ps.len(),
        forall|i: int| 0 <= i < args.len() ==> crate::typechecker::spec::expr_type(#[trigger] args[i]) == ps[i].0,
    ensures
        crate::codegen::gen_spec::args_desc(args.take(k as int)) == params_descriptor(ps, k),
    decreases k,
{
    let s = args.take(k as int);
    if k > 0 {
        lemma_args_desc_params(args, ps, (k - 1) as nat);
        assert(s.drop_last() =~= args.take(k - 1));
        assert(s.last() == args[k - 1]);
        assert(crate::typechecker::spec::expr_type(args[k - 1]) == ps[k - 1].0);
        if k == 1 {
            assert(args.take(0) =~= Seq::<ExprV>::empty());
            assert(s =~= seq![args[0]]);
            assert(Seq::<char>::empty() + ir_string(ps[0].0) =~= ir_string(ps[0].0));
        }
    }
}

/// A call whose arguments have, in order, the types of a method's
/// parameters and that expects the method's return type names that method:
/// the call's descriptor is the method's own descriptor.
pub proof fn law_call_descriptor_names_the_method(args: Seq<ExprV>, ps: Seq<(TypeV, Seq<char>)>, ret: TypeV)
    requires
        args.len() == ps.len(),
        forall|i: int| 0 <= i < args.len() ==> crate::typechecker::spec::expr_type(#[trigger] args[i]) == ps[i].0,
        !(ret is Void),
    ensures
        crate::codegen::gen_spec::call_desc(args, ret) == method_descriptor(ps, ret),
{
    lemma_args_desc_params(args, ps, args.len());
    assert(args.take(args.len() as int) =~= args);
    reveal_strlit("(");
    reveal_strlit(")");
}

/// A method of two parameters has the descriptor `(`, the descriptor of
/// the first parameter's type, that of the second, `)` and that of the
/// return type: parameters in the order they are declared.
pub proof fn law_descriptor_keeps_parameter_order(
    t1: TypeV,
    n1: Seq<char>,
    t2: TypeV,
    n2: Seq<char>,
    ret: TypeV,
)
    requires
        has_ir_string(t1),
        has_ir_string(t2),
        has_ir_string(ret),
    ensures
        method_descriptor(seq![(t1, n1), (t2, n2)], ret) == Some(
            seq!['('] + ir_string(t1) + ir_string(t2) + seq![')'] + ir_string(ret),
        ),
{
    let ps = seq![(t1, n1), (t2, n2)];
    reveal_strlit("(");
    reveal_strlit(")");
    reveal_with_fuel(params_descriptor, 3);
    assert(Seq::<char>::empty() + ir_string(t1) =~= ir_string(t1));
    assert(seq!['('] + ir_string(t1) + ir_string(t2) + seq![')'] + ir_string(ret) =~= "("@ + (ir_string(t1)
        + ir_string(t2)) + ")"@ + ir_string(ret));
}

} // verus!
