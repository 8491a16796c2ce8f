use vstd::prelude::*;
use crate::types::{
    Type, TypeV, ExprV, FieldDeclV, FieldDecl, Expr, Class, ClassV, fields_view, has_ir_string,
};
use super::constant_pool::{
    Constant, ConstantPool, ConstantV, index_of_spec, object_init, init_name, string_of,
    NameAndType, MethodRef,
};
use super::instruction::Instruction;
use super::stack::{StackMapTable, table_spec, StackSize};
use super::gen_spec::{GenState, gen_expr, st_inc, st_dec, st_add, field_ref};
use super::ir::{LocalVarPool, state_of, generate_code_expr, try_inc, try_dec, try_add, make_field_ref};
use super::method::{CompiledMethod, CompiledMethodV, method_spec, method_bytes, generate_method};
use super::constant_pool::{has_room, add_index, pool_add, java_lang_object, pool_bytes, lemma_pool_add_prefix_only};
use super::constant_pool::{refers_to, lemma_first_index};
use crate::types::{MethodDeclV, ir_string, methods_view};
use super::{be16, push_u16, append_bytes};

verus! {

/// A class on its way to the class file: its name, its superclass, its
/// field declarations and its compiled methods.
#[derive(Debug)]
pub struct IRClass {
    pub name: String,
    pub super_name: String,
    pub fields: Vec<FieldDecl>,
    pub methods: Vec<CompiledMethod>,
}

pub struct IRClassV {
    pub name: Seq<char>,
    pub super_name: Seq<char>,
    pub fields: Seq<FieldDeclV>,
    pub methods: Seq<CompiledMethodV>,
}

pub open spec fn compiled_view(v: Seq<CompiledMethod>) -> Seq<CompiledMethodV> {
    v.map_values(|m: CompiledMethod| m@)
}

impl View for IRClass {
    type V = IRClassV;

    open spec fn view(&self) -> IRClassV {
        IRClassV {
            name: self.name@,
            super_name: self.super_name@,
            fields: fields_view(self.fields@),
            methods: compiled_view(self.methods@),
        }
    }
}

impl IRClass {
    /// A class whose superclass is `java/lang/Object`.
    pub fn new(name: String, fields: Vec<FieldDecl>, methods: Vec<CompiledMethod>) -> (c: IRClass)
        ensures
            c.name == name,
            c.super_name@ == "java/lang/Object"@,
            c.fields == fields,
            c.methods == methods,
    {
        IRClass { name, super_name: string_of("java/lang/Object"), fields, methods }
    }
}

/// The code that stores the initial value of field `f` in a constructor:
/// `this`, the value, then `putfield`. Nothing for a field without one.
pub open spec fn field_init(f: FieldDeclV, st: GenState, cls: Seq<char>) -> Option<(Seq<Instruction>, GenState)> {
    match f.val {
        None => Some((Seq::empty(), st)),
        Some(x) => match st_inc(st, 1) {
            Some(s1) => match gen_expr(ExprV::TypedExpr(Box::new(x), f.field_type), s1, cls) {
                Some((c, s2)) => {
                    if !has_ir_string(f.field_type) {
                        None
                    } else {
                        match st_add(s2, field_ref(cls, f.name, f.field_type)) {
                            Some((idx, s3)) => match st_dec(s3, 2) {
                                Some(s4) => Some(
                                    (seq![Instruction::aload_0] + c + seq![Instruction::putfield(idx)], s4),
                                ),
                                None => None,
                            },
                            None => None,
                        }
                    }
                },
                None => None,
            },
            None => None,
        },
    }
}

/// The field initialisations of the first `k` fields.
pub open spec fn fields_init(fs: Seq<FieldDeclV>, k: nat, st: GenState, cls: Seq<char>) -> Option<
    (Seq<Instruction>, GenState),
>
    decreases k,
{
    if k == 0 || k > fs.len() {
        Some((Seq::empty(), st))
    } else {
        match fields_init(fs, (k - 1) as nat, st, cls) {
            Some((c, s1)) => match field_init(fs[k - 1], s1, cls) {
                Some((c2, s2)) => Some((c + c2, s2)),
                None => None,
            },
            None => None,
        }
    }
}

/// The default constructor of a class: call `Object.<init>`, store the
/// initial values of the fields, return. `this_class` is the class the
/// pool belongs to.
pub open spec fn ctor_spec(c: IRClassV, pool: Seq<ConstantV>, this_class: Seq<char>) -> Option<
    (CompiledMethodV, Seq<ConstantV>),
> {
    match index_of_spec(pool, object_init()) {
        Some(k) => {
            let st0 = GenState { pool, cur: 0, max: 1, locals: Seq::empty() };
            match fields_init(c.fields, c.fields.len(), st0, c.name) {
                Some((fc, st)) => {
                    let code = seq![Instruction::aload_0, Instruction::invokespecial(k)] + fc + seq![
                        Instruction::return_void,
                    ];
                    match table_spec(code, Seq::empty(), st.pool, this_class) {
                        Some((fs, p2)) => Some(
                            (
                                CompiledMethodV {
                                    name: init_name(),
                                    return_type: TypeV::Void,
                                    params: Seq::empty(),
                                    max_stack: st.max,
                                    max_locals: 1,
                                    code,
                                    frames: fs,
                                },
                                p2,
                            ),
                        ),
                        None => None,
                    }
                },
                None => None,
            }
        },
        None => None,
    }
}

proof fn lemma_fields_init_prefix_none(fs: Seq<FieldDeclV>, k: nat, st: GenState, cls: Seq<char>)
    requires
        1 <= k <= fs.len(),
        fields_init(fs, k, st, cls) is None,
    ensures
        fields_init(fs, fs.len(), st, cls) is None,
    decreases fs.len() - k,
{
    if k < fs.len() {
        lemma_fields_init_prefix_none(fs, k + 1, st, cls);
    }
}

/// The default constructor of `class`, as `ctor_spec` gives it.
pub fn make_default_constructor(class: &IRClass, constant_pool: &mut ConstantPool) -> (r: Option<CompiledMethod>)
    requires
        old(constant_pool)@.len() < 65535,
    ensures
        final(constant_pool).1 == old(constant_pool).1,
        final(constant_pool)@.len() < 65535,
        match ctor_spec(class@, old(constant_pool)@, old(constant_pool).1@) {
            Some((mv, p2)) => r matches Some(cm) && cm@ == mv && final(constant_pool)@ == p2,
            None => r is None,
        },
{
    let ghost fs = class@.fields;
    let ghost cls = class@.name;
    let mut local_var_pool = LocalVarPool(Vec::new());
    let mut stack = StackSize::new();
    let init = Constant::MethodRef(
        MethodRef {
            class: string_of("java/lang/Object"),
            method: NameAndType { name: string_of("<init>"), descriptor: string_of("()V") },
        },
    );
    assert(init@ == object_init());
    let k = match constant_pool.index_of(&init) {
        Some(k) => k,
        None => return None,
    };
    stack.inc(1);
    stack.dec(1);
    let ghost st0 = state_of(stack, *constant_pool, local_var_pool);
    assert(local_var_pool@ =~= Seq::<Seq<char>>::empty());
    assert(st0 == GenState { pool: old(constant_pool)@, cur: 0, max: 1, locals: Seq::empty() });
    let mut field_code: Vec<Instruction> = Vec::new();
    let mut i: usize = 0;
    while i < class.fields.len()
        invariant
            index_of_spec(old(constant_pool)@, object_init()) == Some(k),
            st0 == (GenState { pool: old(constant_pool)@, cur: 0, max: 1, locals: Seq::empty() }),
            fs == class@.fields,
            cls == class@.name,
            i <= class.fields@.len(),
            fs == fields_view(class.fields@),
            cls == class.name@,
            constant_pool.1 == old(constant_pool).1,
            constant_pool@.len() < 65535,
            fields_init(fs, i as nat, st0, cls) == Some((field_code@, state_of(stack, *constant_pool, local_var_pool))),
        decreases class.fields@.len() - i,
    {
        let field = &class.fields[i];
        assert(fs[i as int] == field@);
        let ghost s1 = state_of(stack, *constant_pool, local_var_pool);
        let ghost fc0 = field_code@;
        match &field.val {
            Some(x) => {
                if !try_inc(&mut stack, 1) {
                    proof {
                        lemma_fields_init_prefix_none(fs, i as nat + 1, st0, cls);
                    }
                    return None;
                }
                let e = Expr::TypedExpr(Box::new(x.copy_expr()), field.field_type.copy_type());
                assert(e@ == ExprV::TypedExpr(Box::new(x@), field@.field_type));
                let c = match generate_code_expr(&e, &mut stack, constant_pool, &mut local_var_pool, &class.name) {
                    Some(c) => c,
                    None => {
                        proof {
                            lemma_fields_init_prefix_none(fs, i as nat + 1, st0, cls);
                        }
                        return None;
                    },
                };
                if !field.field_type.has_ir_string() {
                    proof {
                        lemma_fields_init_prefix_none(fs, i as nat + 1, st0, cls);
                    }
                    return None;
                }
                let ghost s2 = state_of(stack, *constant_pool, local_var_pool);
                let idx = match try_add(constant_pool, make_field_ref(&class.name, &field.name, &field.field_type)) {
                    Some(idx) => idx,
                    None => {
                        proof {
                            lemma_fields_init_prefix_none(fs, i as nat + 1, st0, cls);
                        }
                        return None;
                    },
                };
                if !try_dec(&mut stack, 2) {
                    proof {
                        lemma_fields_init_prefix_none(fs, i as nat + 1, st0, cls);
                    }
                    return None;
                }
                field_code.push(Instruction::aload_0);
                let mut j: usize = 0;
                while j < c.len()
                    invariant
                        j <= c@.len(),
                        field_code@ == fc0 + seq![Instruction::aload_0] + c@.subrange(0, j as int),
                    decreases c@.len() - j,
                {
                    field_code.push(c[j]);
                    j = j + 1;
                    assert(c@.subrange(0, j as int) =~= c@.subrange(0, j - 1).push(c@[j - 1]));
                }
                assert(c@.subrange(0, c@.len() as int) =~= c@);
                field_code.push(Instruction::putfield(idx));
                assert(field_code@ =~= fc0 + (seq![Instruction::aload_0] + c@ + seq![Instruction::putfield(idx)]));
            },
            None => {
                assert(field_code@ =~= fc0 + Seq::<Instruction>::empty());
            },
        }
        i = i + 1;
    }
    let mut code: Vec<Instruction> = Vec::new();
    code.push(Instruction::aload_0);
    code.push(Instruction::invokespecial(k));
    let mut j: usize = 0;
    while j < field_code.len()
        invariant
            j <= field_code@.len(),
            code@ == seq![Instruction::aload_0, Instruction::invokespecial(k)] + field_code@.subrange(0, j as int),
        decreases field_code@.len() - j,
    {
        code.push(field_code[j]);
        j = j + 1;
        assert(field_code@.subrange(0, j as int) =~= field_code@.subrange(0, j - 1).push(field_code@[j - 1]));
    }
    assert(field_code@.subrange(0, field_code@.len() as int) =~= field_code@);
    code.push(Instruction::return_void);
    assert(code@ =~= seq![Instruction::aload_0, Instruction::invokespecial(k)] + field_code@ + seq![
        Instruction::return_void,
    ]);
    let empty: Vec<(Type, String)> = Vec::new();
    assert(crate::types::params_view(empty@) =~= Seq::<(TypeV, Seq<char>)>::empty());
    let stack_map_table = match StackMapTable::new(code.as_slice(), empty.as_slice(), constant_pool) {
        Some(t) => t,
        None => return None,
    };
    Some(
        CompiledMethod {
            name: string_of("<init>"),
            return_type: Type::Void,
            params: Vec::new(),
            max_stack: stack.max,
            max_locals: 1,
            code,
            stack_map_table,
        },
    )
}


/// Access flags of a field.
#[derive(Debug, Clone, Copy, PartialEq, Eq, Structural)]
pub enum AccessFlags {
    Public,
}

/// A field as the class file refers to it: the pool indices of its
/// descriptor and of its name.
#[derive(Debug)]
pub struct IRFieldDecl {
    pub type_index: u16,
    pub access_flags: AccessFlags,
    pub name_index: u16,
}

impl IRFieldDecl {
    /// A public field with these indices.
    pub fn new(type_index: u16, name_index: u16) -> (f: IRFieldDecl)
        ensures
            f.type_index == type_index,
            f.name_index == name_index,
            f.access_flags == AccessFlags::Public,
    {
        IRFieldDecl { type_index, access_flags: AccessFlags::Public, name_index }
    }
}

/// The indices `generate_field` gives a field, and the pool after it: its
/// name, then `()` followed by its descriptor, are added to the pool.
pub open spec fn field_decl_spec(f: FieldDeclV, pool: Seq<ConstantV>) -> Option<((u16, u16), Seq<ConstantV>)> {
    let u1 = ConstantV::Utf8(f.name);
    if !has_room(pool) || !has_ir_string(f.field_type) {
        None
    } else {
        let p1 = pool_add(pool, u1);
        let u2 = ConstantV::Utf8("()"@ + ir_string(f.field_type));
        if !has_room(p1) {
            None
        } else {
            Some(((add_index(p1, u2), add_index(pool, u1)), pool_add(p1, u2)))
        }
    }
}

/// The pool indices of a field, as `field_decl_spec` gives them.
pub fn generate_field(field: &FieldDecl, constant_pool: &mut ConstantPool) -> (r: Option<IRFieldDecl>)
    requires
        old(constant_pool)@.len() < 65535,
    ensures
        final(constant_pool).1 == old(constant_pool).1,
        final(constant_pool)@.len() < 65535,
        match field_decl_spec(field@, old(constant_pool)@) {
            Some(((t, n), p2)) => r matches Some(f) && f.type_index == t && f.name_index == n
                && f.access_flags == AccessFlags::Public && final(constant_pool)@ == p2,
            None => r is None,
        },
{
    if !constant_pool.has_room() {
        return None;
    }
    let name_index = constant_pool.add(Constant::Utf8(field.name.clone()));
    proof {
        lemma_pool_add_prefix_only(old(constant_pool)@, ConstantV::Utf8(field@.name));
    }
    if !field.field_type.has_ir_string() {
        return None;
    }
    let mut d = string_of("()");
    d.append(field.field_type.to_ir_string());
    if !constant_pool.has_room() {
        return None;
    }
    let ghost p1 = constant_pool@;
    let ghost dv = d@;
    let type_index = constant_pool.add(Constant::Utf8(d));
    proof {
        lemma_pool_add_prefix_only(p1, ConstantV::Utf8(dv));
    }
    Some(IRFieldDecl::new(type_index, name_index))
}

/// The `field_info` of a field and the pool after it: no flags, the
/// indices of its name and descriptor, no attributes.
pub open spec fn field_bytes(f: FieldDeclV, pool: Seq<ConstantV>) -> Option<(Seq<u8>, Seq<ConstantV>)> {
    let u1 = ConstantV::Utf8(f.name);
    if !has_room(pool) || !has_ir_string(f.field_type) {
        None
    } else {
        let p1 = pool_add(pool, u1);
        let u2 = ConstantV::Utf8(ir_string(f.field_type));
        if !has_room(p1) {
            None
        } else {
            Some(
                (
                    seq![0u8, 0u8] + be16(add_index(pool, u1)) + be16(add_index(p1, u2)) + seq![0u8, 0u8],
                    pool_add(p1, u2),
                ),
            )
        }
    }
}

impl FieldDecl {
    /// The `field_info` of this field, as `field_bytes` gives it.
    pub fn as_bytes(&self, constant_pool: &mut ConstantPool) -> (r: Option<Vec<u8>>)
        requires
            old(constant_pool)@.len() < 65535,
        ensures
            final(constant_pool).1 == old(constant_pool).1,
            final(constant_pool)@.len() < 65535,
            match field_bytes(self@, old(constant_pool)@) {
                Some((b, p2)) => r matches Some(v) && v@ == b && final(constant_pool)@ == p2,
                None => r is None,
            },
    {
        if !constant_pool.has_room() || !self.field_type.has_ir_string() {
            return None;
        }
        let name_index = constant_pool.add(Constant::Utf8(self.name.clone()));
        proof {
            lemma_pool_add_prefix_only(old(constant_pool)@, ConstantV::Utf8(self@.name));
        }
        if !constant_pool.has_room() {
            return None;
        }
        let ghost p1 = constant_pool@;
        let descriptor_index = constant_pool.add(Constant::Utf8(string_of(self.field_type.to_ir_string())));
        proof {
            lemma_pool_add_prefix_only(p1, ConstantV::Utf8(ir_string(self@.field_type)));
        }
        let mut v: Vec<u8> = Vec::new();
        v.push(0u8);
        v.push(0u8);
        push_u16(&mut v, name_index);
        push_u16(&mut v, descriptor_index);
        v.push(0u8);
        v.push(0u8);
        assert(v@ =~= seq![0u8, 0u8] + be16(name_index) + be16(descriptor_index) + seq![0u8, 0u8]);
        Some(v)
    }
}


/// The compiled forms of the first `k` methods of class `cls`.
pub open spec fn methods_spec(
    ms: Seq<MethodDeclV>,
    k: nat,
    pool: Seq<ConstantV>,
    this_class: Seq<char>,
    cls: Seq<char>,
) -> Option<(Seq<CompiledMethodV>, Seq<ConstantV>)>
    decreases k,
{
    if k == 0 || k > ms.len() {
        Some((Seq::empty(), pool))
    } else {
        match methods_spec(ms, (k - 1) as nat, pool, this_class, cls) {
            Some((a, p1)) => match method_spec(ms[k - 1], p1, this_class, cls) {
                Some((m, p2)) => Some((a.push(m), p2)),
                None => None,
            },
            None => None,
        }
    }
}

/// A class on its way to the class file: its fields, its default
/// constructor first and then its methods, compiled in order.
pub open spec fn class_spec(c: ClassV, pool: Seq<ConstantV>, this_class: Seq<char>) -> Option<
    (IRClassV, Seq<ConstantV>),
> {
    let ir0 = IRClassV { name: c.name, super_name: java_lang_object(), fields: c.fields, methods: Seq::empty() };
    match ctor_spec(ir0, pool, this_class) {
        Some((m0, p1)) => match methods_spec(c.methods, c.methods.len(), p1, this_class, c.name) {
            Some((ms, p2)) => Some((IRClassV { methods: seq![m0] + ms, ..ir0 }, p2)),
            None => None,
        },
        None => None,
    }
}

/// The classes of a program with their compiled methods, sharing one
/// constant pool.
#[derive(Debug)]
pub struct DIR {
    pub constant_pool: ConstantPool,
    pub classes: Vec<IRClass>,
}

pub open spec fn classes_view(v: Seq<Class>) -> Seq<ClassV> {
    v.map_values(|c: Class| c@)
}

pub open spec fn ir_classes_view(v: Seq<IRClass>) -> Seq<IRClassV> {
    v.map_values(|c: IRClass| c@)
}

proof fn lemma_methods_prefix_none(ms: Seq<MethodDeclV>, k: nat, pool: Seq<ConstantV>, this_class: Seq<char>, cls: Seq<char>)
    requires
        1 <= k <= ms.len(),
        methods_spec(ms, k, pool, this_class, cls) is None,
    ensures
        methods_spec(ms, ms.len(), pool, this_class, cls) is None,
    decreases ms.len() - k,
{
    if k < ms.len() {
        lemma_methods_prefix_none(ms, k + 1, pool, this_class, cls);
    }
}

/// Compiles a class into `dir`'s constant pool, as `class_spec` gives it.
pub fn generate_class(class: &Class, dir: &mut DIR) -> (r: Option<IRClass>)
    requires
        old(dir).constant_pool@.len() < 65535,
    ensures
        final(dir).constant_pool.1 == old(dir).constant_pool.1,
        final(dir).constant_pool@.len() < 65535,
        final(dir).classes == old(dir).classes,
        match class_spec(class@, old(dir).constant_pool@, old(dir).constant_pool.1@) {
            Some((c, p2)) => r matches Some(ic) && ic@ == c && final(dir).constant_pool@ == p2,
            None => r is None,
        },
{
    let ghost this_class = dir.constant_pool.1@;
    let mut fields: Vec<FieldDecl> = Vec::new();
    let mut i: usize = 0;
    while i < class.fields.len()
        invariant
            i <= class.fields@.len(),
            fields@.len() == i,
            forall|j: int| 0 <= j < i ==> #[trigger] fields@[j]@ == class.fields@[j]@,
        decreases class.fields@.len() - i,
    {
        fields.push(class.fields[i].copy_field());
        i = i + 1;
    }
    let mut ir_class = IRClass::new(class.name.clone(), fields, Vec::new());
    assert(ir_class@.fields =~= class@.fields);
    assert(ir_class@.methods =~= Seq::<CompiledMethodV>::empty());
    let ghost ir0 = ir_class@;
    assert(ir0 == (IRClassV { name: class@.name, super_name: java_lang_object(), fields: class@.fields, methods: Seq::empty() }));
    let ctor = match make_default_constructor(&ir_class, &mut dir.constant_pool) {
        Some(m) => m,
        None => return None,
    };
    let ghost m0 = ctor@;
    ir_class.methods.push(ctor);
    let ghost p1 = dir.constant_pool@;
    let ghost ms = class@.methods;
    let mut k: usize = 0;
    while k < class.methods.len()
        invariant
            k <= class.methods@.len(),
            ms == class@.methods,
            ms == methods_view(class.methods@),
            ir0 == (IRClassV { name: class@.name, super_name: java_lang_object(), fields: class@.fields, methods: Seq::empty() }),
            ctor_spec(ir0, old(dir).constant_pool@, this_class) == Some((m0, p1)),
            dir.constant_pool.1 == old(dir).constant_pool.1,
            this_class == dir.constant_pool.1@,
            dir.constant_pool@.len() < 65535,
            dir.classes == old(dir).classes,
            ir_class.name@ == class@.name,
            ir_class.super_name@ == java_lang_object(),
            fields_view(ir_class.fields@) == class@.fields,
            methods_spec(ms, k as nat, p1, this_class, class@.name) matches Some((a, p)) && compiled_view(ir_class.methods@) == seq![m0] + a && dir.constant_pool@ == p,
        decreases class.methods@.len() - k,
    {
        assert(ms[k as int] == class.methods@[k as int]@);
        let m = match generate_method(&class.methods[k], &mut dir.constant_pool, class.name.as_str()) {
            Some(m) => m,
            None => {
                proof {
                    lemma_methods_prefix_none(ms, k as nat + 1, p1, this_class, class@.name);
                }
                return None;
            },
        };
        let ghost before = compiled_view(ir_class.methods@);
        ir_class.methods.push(m);
        assert(compiled_view(ir_class.methods@) =~= before.push(m@));
        k = k + 1;
    }
    Some(ir_class)
}

/// Compiles a program: one constant pool, named after the first class, and
/// every class compiled into it in order.
pub open spec fn classes_spec(cs: Seq<ClassV>, k: nat, pool: Seq<ConstantV>, this_class: Seq<char>) -> Option<
    (Seq<IRClassV>, Seq<ConstantV>),
>
    decreases k,
{
    if k == 0 || k > cs.len() {
        Some((Seq::empty(), pool))
    } else {
        match classes_spec(cs, (k - 1) as nat, pool, this_class) {
            Some((a, p1)) => match class_spec(cs[k - 1], p1, this_class) {
                Some((c, p2)) => Some((a.push(c), p2)),
                None => None,
            },
            None => None,
        }
    }
}

/// What `generate_dir` makes of a program: `None` for a program without
/// classes.
pub open spec fn dir_spec(cs: Seq<ClassV>) -> Option<(Seq<IRClassV>, Seq<ConstantV>)> {
    if cs.len() == 0 {
        None
    } else {
        classes_spec(cs, cs.len(), super::constant_pool::initial_pool(cs[0].name), cs[0].name)
    }
}

proof fn lemma_classes_prefix_none(cs: Seq<ClassV>, k: nat, pool: Seq<ConstantV>, this_class: Seq<char>)
    requires
        1 <= k <= cs.len(),
        classes_spec(cs, k, pool, this_class) is None,
    ensures
        classes_spec(cs, cs.len(), pool, this_class) is None,
    decreases cs.len() - k,
{
    if k < cs.len() {
        lemma_classes_prefix_none(cs, k + 1, pool, this_class);
    }
}

/// Compiles a program of at least one class, as `dir_spec` gives it.
pub fn generate_dir(ast: &Vec<Class>) -> (r: Option<DIR>)
    requires
        ast@.len() > 0,
    ensures
        match dir_spec(classes_view(ast@)) {
            Some((cs, p)) => r matches Some(d) && ir_classes_view(d.classes@) == cs && d.constant_pool@ == p
                && d.constant_pool.1@ == ast@[0].name@,
            None => r is None,
        },
{
    let ghost cs = classes_view(ast@);
    if ast.len() == 0 {
        return None;
    }
    assert(cs[0] == ast@[0]@);
    let mut dir = DIR { constant_pool: ConstantPool::new(ast[0].name.clone()), classes: Vec::new() };
    let ghost p0 = dir.constant_pool@;
    let ghost this_class = dir.constant_pool.1@;
    let mut i: usize = 0;
    while i < ast.len()
        invariant
            i <= ast@.len(),
            cs == classes_view(ast@),
            ast@.len() > 0,
            p0 == super::constant_pool::initial_pool(cs[0].name),
            this_class == cs[0].name,
            dir.constant_pool.1@ == this_class,
            dir.constant_pool@.len() < 65535,
            classes_spec(cs, i as nat, p0, this_class) matches Some((a, p)) && ir_classes_view(dir.classes@) == a && dir.constant_pool@ == p,
        decreases ast@.len() - i,
    {
        assert(cs[i as int] == ast@[i as int]@);
        let c = match generate_class(&ast[i], &mut dir) {
            Some(c) => c,
            None => {
                proof {
                    lemma_classes_prefix_none(cs, i as nat + 1, p0, this_class);
                }
                return None;
            },
        };
        let ghost before = ir_classes_view(dir.classes@);
        dir.classes.push(c);
        assert(ir_classes_view(dir.classes@) =~= before.push(c@));
        i = i + 1;
    }
    Some(dir)
}


/// The `field_info`s of the first `k` fields, one after the other.
pub open spec fn fields_bytes(fs: Seq<FieldDeclV>, k: nat, pool: Seq<ConstantV>) -> Option<(Seq<u8>, Seq<ConstantV>)>
    decreases k,
{
    if k == 0 || k > fs.len() {
        Some((Seq::empty(), pool))
    } else {
        match fields_bytes(fs, (k - 1) as nat, pool) {
            Some((a, p1)) => match field_bytes(fs[k - 1], p1) {
                Some((b, p2)) => Some((a + b, p2)),
                None => None,
            },
            None => None,
        }
    }
}

/// The `method_info`s of the first `k` methods, one after the other.
pub open spec fn methods_bytes(ms: Seq<CompiledMethodV>, k: nat, pool: Seq<ConstantV>) -> Option<
    (Seq<u8>, Seq<ConstantV>),
>
    decreases k,
{
    if k == 0 || k > ms.len() {
        Some((Seq::empty(), pool))
    } else {
        match methods_bytes(ms, (k - 1) as nat, pool) {
            Some((a, p1)) => match method_bytes(ms[k - 1], p1) {
                Some((b, p2)) => Some((a + b, p2)),
                None => None,
            },
            None => None,
        }
    }
}

/// The class file of the first class: magic number, version 52.0, the
/// constant pool, flags, this and the super class, no interfaces, the
/// fields, the methods and no attributes. The field and method infos are
/// made first, since they add to the pool; the count of pool entries is
/// taken before the pool is encoded.
pub open spec fn dir_bytes(classes: Seq<IRClassV>, pool: Seq<ConstantV>) -> Option<(Seq<u8>, Seq<ConstantV>)> {
    if classes.len() == 0 {
        None
    } else {
        let c = classes[0];
        match (
            index_of_spec(pool, ConstantV::Class(c.name)),
            index_of_spec(pool, ConstantV::Class(java_lang_object())),
        ) {
            (Some(ti), Some(si)) => match fields_bytes(c.fields, c.fields.len(), pool) {
                Some((fb, p1)) => match methods_bytes(c.methods, c.methods.len(), p1) {
                    Some((mb, p2)) => match pool_bytes(p2) {
                        Some((pb, p3)) => Some(
                            (
                                seq![0xCAu8, 0xFEu8, 0xBAu8, 0xBEu8, 0u8, 0u8, 0u8, 52u8] + be16((p2.len() + 1) as u16) + pb
                                    + seq![0u8, 32u8] + be16(ti) + be16(si) + seq![0u8, 0u8] + be16(
                                    c.fields.len() as u16,
                                ) + fb + be16(c.methods.len() as u16) + mb + seq![0u8, 0u8],
                                p3,
                            ),
                        ),
                        None => None,
                    },
                    None => None,
                },
                None => None,
            },
            _ => None,
        }
    }
}

proof fn lemma_fields_bytes_prefix_none(fs: Seq<FieldDeclV>, k: nat, pool: Seq<ConstantV>)
    requires
        1 <= k <= fs.len(),
        fields_bytes(fs, k, pool) is None,
    ensures
        fields_bytes(fs, fs.len(), pool) is None,
    decreases fs.len() - k,
{
    if k < fs.len() {
        lemma_fields_bytes_prefix_none(fs, k + 1, pool);
    }
}

proof fn lemma_methods_bytes_prefix_none(ms: Seq<CompiledMethodV>, k: nat, pool: Seq<ConstantV>)
    requires
        1 <= k <= ms.len(),
        methods_bytes(ms, k, pool) is None,
    ensures
        methods_bytes(ms, ms.len(), pool) is None,
    decreases ms.len() - k,
{
    if k < ms.len() {
        lemma_methods_bytes_prefix_none(ms, k + 1, pool);
    }
}

/// The `field_info`s of `fields`, as `fields_bytes` gives them.
fn field_infos(fields: &Vec<FieldDecl>, constant_pool: &mut ConstantPool) -> (r: Option<Vec<u8>>)
    requires
        old(constant_pool)@.len() < 65535,
    ensures
        final(constant_pool).1 == old(constant_pool).1,
        final(constant_pool)@.len() < 65535,
        match fields_bytes(fields_view(fields@), fields@.len(), old(constant_pool)@) {
            Some((b, p)) => r matches Some(v) && v@ == b && final(constant_pool)@ == p,
            None => r is None,
        },
{
    let ghost fs = fields_view(fields@);
    let ghost pool0 = constant_pool@;
    let mut out: Vec<u8> = Vec::new();
    let mut i: usize = 0;
    while i < fields.len()
        invariant
            i <= fields@.len(),
            fs == fields_view(fields@),
            pool0 == old(constant_pool)@,
            constant_pool.1 == old(constant_pool).1,
            constant_pool@.len() < 65535,
            fields_bytes(fs, i as nat, pool0) matches Some((a, p)) && out@ == a && constant_pool@ == p,
        decreases fields@.len() - i,
    {
        assert(fs[i as int] == fields@[i as int]@);
        let b = match fields[i].as_bytes(constant_pool) {
            Some(b) => b,
            None => {
                proof {
                    lemma_fields_bytes_prefix_none(fs, i as nat + 1, pool0);
                }
                return None;
            },
        };
        append_bytes(&mut out, b.as_slice());
        i = i + 1;
    }
    Some(out)
}

/// The `method_info`s of `methods`, as `methods_bytes` gives them.
fn method_infos(methods: &Vec<CompiledMethod>, constant_pool: &mut ConstantPool) -> (r: Option<Vec<u8>>)
    requires
        old(constant_pool)@.len() < 65535,
    ensures
        final(constant_pool).1 == old(constant_pool).1,
        final(constant_pool)@.len() < 65535,
        match methods_bytes(compiled_view(methods@), methods@.len(), old(constant_pool)@) {
            Some((b, p)) => r matches Some(v) && v@ == b && final(constant_pool)@ == p,
            None => r is None,
        },
{
    let ghost ms = compiled_view(methods@);
    let ghost pool0 = constant_pool@;
    let mut out: Vec<u8> = Vec::new();
    let mut i: usize = 0;
    while i < methods.len()
        invariant
            i <= methods@.len(),
            ms == compiled_view(methods@),
            pool0 == old(constant_pool)@,
            constant_pool.1 == old(constant_pool).1,
            constant_pool@.len() < 65535,
            methods_bytes(ms, i as nat, pool0) matches Some((a, p)) && out@ == a && constant_pool@ == p,
        decreases methods@.len() - i,
    {
        assert(ms[i as int] == methods@[i as int]@);
        let b = match methods[i].as_bytes(constant_pool) {
            Some(b) => b,
            None => {
                proof {
                    lemma_methods_bytes_prefix_none(ms, i as nat + 1, pool0);
                }
                return None;
            },
        };
        append_bytes(&mut out, b.as_slice());
        i = i + 1;
    }
    Some(out)
}

impl DIR {
    /// The class file of the first class, as `dir_bytes` gives it.
    pub fn as_bytes(&mut self) -> (r: Option<Vec<u8>>)
        requires
            old(self).constant_pool@.len() < 65535,
        ensures
            final(self).classes == old(self).classes,
            match dir_bytes(ir_classes_view(old(self).classes@), old(self).constant_pool@) {
                Some((b, p3)) => r matches Some(v) && v@ == b && final(self).constant_pool@ == p3,
                None => r is None,
            },
    {
        let ghost cv = ir_classes_view(self.classes@);
        if self.classes.len() == 0 {
            return None;
        }
        assert(cv[0] == self.classes@[0]@);
        let this_class_index = match self.constant_pool.index_of(&Constant::Class(self.classes[0].name.clone())) {
            Some(k) => k,
            None => return None,
        };
        let super_class_index = match self.constant_pool.index_of(&Constant::Class(string_of("java/lang/Object"))) {
            Some(k) => k,
            None => return None,
        };
        let fb = match field_infos(&self.classes[0].fields, &mut self.constant_pool) {
            Some(b) => b,
            None => return None,
        };
        let mb = match method_infos(&self.classes[0].methods, &mut self.constant_pool) {
            Some(b) => b,
            None => return None,
        };
        let ghost p2 = self.constant_pool@;
        let count = self.constant_pool.count();
        let pb = match self.constant_pool.as_bytes() {
            Some(pb) => pb,
            None => return None,
        };
        let mut result: Vec<u8> = Vec::new();
        result.push(0xCAu8);
        result.push(0xFEu8);
        result.push(0xBAu8);
        result.push(0xBEu8);
        result.push(0u8);
        result.push(0u8);
        result.push(0u8);
        result.push(52u8);
        push_u16(&mut result, count);
        append_bytes(&mut result, pb.as_slice());
        result.push(0u8);
        result.push(32u8);
        push_u16(&mut result, this_class_index);
        push_u16(&mut result, super_class_index);
        result.push(0u8);
        result.push(0u8);
        #[verifier::truncate]
        let nf = self.classes[0].fields.len() as u16;
        push_u16(&mut result, nf);
        append_bytes(&mut result, fb.as_slice());
        #[verifier::truncate]
        let nm = self.classes[0].methods.len() as u16;
        push_u16(&mut result, nm);
        append_bytes(&mut result, mb.as_slice());
        result.push(0u8);
        result.push(0u8);
        assert(result@ =~= seq![0xCAu8, 0xFEu8, 0xBAu8, 0xBEu8, 0u8, 0u8, 0u8, 52u8] + be16(count) + pb@
            + seq![0u8, 32u8] + be16(this_class_index) + be16(super_class_index) + seq![0u8, 0u8] + be16(nf)
            + fb@ + be16(nm) + mb@ + seq![0u8, 0u8]);
        Some(result)
    }
}

/// Every class file written starts with the magic number `CAFEBABE` and the
/// class file version 52.0.
pub proof fn law_class_file_header(classes: Seq<IRClassV>, pool: Seq<ConstantV>)
    ensures
        dir_bytes(classes, pool) matches Some((b, _)) ==> b.len() >= 8 && b.subrange(0, 8) == seq![
            0xCAu8,
            0xFEu8,
            0xBAu8,
            0xBEu8,
            0u8,
            0u8,
            0u8,
            52u8,
        ],
{
    if let Some((b, _)) = dir_bytes(classes, pool) {
        let head = seq![0xCAu8, 0xFEu8, 0xBAu8, 0xBEu8, 0u8, 0u8, 0u8, 52u8];
        assert(b.subrange(0, 8) =~= head);
    }
}

/// After the constant pool, a class file written gives its access flags
/// (`ACC_SUPER`), then the index of the `Class` entry of the class itself and
/// that of `java/lang/Object`, its super class, each pointing at that entry
/// of the pool as it stood before writing.
pub proof fn law_class_file_names_its_classes(classes: Seq<IRClassV>, pool: Seq<ConstantV>)
    requires
        pool.len() < 65535,
    ensures
        dir_bytes(classes, pool) matches Some((b, _)) ==> exists|k: int|
            10 <= k && k + 6 <= b.len() && b[k] == 0 && b[k + 1] == 32 && #[trigger] refers_to(
                pool,
                b,
                k + 2,
                ConstantV::Class(classes[0].name),
            ) && refers_to(pool, b, k + 4, ConstantV::Class(java_lang_object())),
{
    if let Some((b, _)) = dir_bytes(classes, pool) {
        let c = classes[0];
        let ti = index_of_spec(pool, ConstantV::Class(c.name))->Some_0;
        let si = index_of_spec(pool, ConstantV::Class(java_lang_object()))->Some_0;
        let (fb, p1) = fields_bytes(c.fields, c.fields.len(), pool)->Some_0;
        let (mb, p2) = methods_bytes(c.methods, c.methods.len(), p1)->Some_0;
        let (pb, p3) = pool_bytes(p2)->Some_0;
        let head = seq![0xCAu8, 0xFEu8, 0xBAu8, 0xBEu8, 0u8, 0u8, 0u8, 52u8] + be16((p2.len() + 1) as u16) + pb;
        let k = head.len() as int;
        let mid = seq![0u8, 32u8] + be16(ti) + be16(si);
        assert(b =~= head + mid + (seq![0u8, 0u8] + be16(c.fields.len() as u16) + fb + be16(c.methods.len() as u16)
            + mb + seq![0u8, 0u8]));
        assert(b[k] == mid[0] && b[k + 1] == mid[1] && b[k + 2] == mid[2] && b[k + 3] == mid[3]
            && b[k + 4] == mid[4] && b[k + 5] == mid[5]);
        lemma_first_index(pool, ConstantV::Class(c.name));
        lemma_first_index(pool, ConstantV::Class(java_lang_object()));
        assert((ti / 256) as u8 as int * 256 + (ti % 256) as u8 as int == ti as int);
        assert((si / 256) as u8 as int * 256 + (si % 256) as u8 as int == si as int);
        assert(refers_to(pool, b, k + 2, ConstantV::Class(c.name)));
    }
}

} // verus!
