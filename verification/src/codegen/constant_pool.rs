use vstd::prelude::*;
use super::{be16, be32, push_u16, push_u32, append_bytes};
use vstd::utf8::encode_utf8;

verus! {

/// A name with a descriptor, as the class file pairs them.
#[derive(Debug)]
pub struct NameAndType {
    pub name: String,
    pub descriptor: String,
}

/// A reference to a field of a class.
#[derive(Debug)]
pub struct FieldRef {
    pub class: String,
    pub field: NameAndType,
}

/// A reference to a method of a class.
#[derive(Debug)]
pub struct MethodRef {
    pub class: String,
    pub method: NameAndType,
}

/// An entry of the constant pool.
#[derive(Debug)]
pub enum Constant {
    Class(String),
    FieldRef(FieldRef),
    MethodRef(MethodRef),
    NameAndType(NameAndType),
    String(String),
    Utf8(String),
    /// Integers too large for a push instruction.
    Integer(i32),
}

pub struct NameAndTypeV {
    pub name: Seq<char>,
    pub descriptor: Seq<char>,
}

/// The model of a constant: strings as character sequences.
pub enum ConstantV {
    Class(Seq<char>),
    FieldRef(Seq<char>, NameAndTypeV),
    MethodRef(Seq<char>, NameAndTypeV),
    NameAndType(NameAndTypeV),
    String(Seq<char>),
    Utf8(Seq<char>),
    Integer(i32),
}

impl View for NameAndType {
    type V = NameAndTypeV;

    open spec fn view(&self) -> NameAndTypeV {
        NameAndTypeV { name: self.name@, descriptor: self.descriptor@ }
    }
}

impl View for Constant {
    type V = ConstantV;

    open spec fn view(&self) -> ConstantV {
        match *self {
            Constant::Class(n) => ConstantV::Class(n@),
            Constant::FieldRef(f) => ConstantV::FieldRef(f.class@, f.field@),
            Constant::MethodRef(m) => ConstantV::MethodRef(m.class@, m.method@),
            Constant::NameAndType(nt) => ConstantV::NameAndType(nt@),
            Constant::String(s) => ConstantV::String(s@),
            Constant::Utf8(s) => ConstantV::Utf8(s@),
            Constant::Integer(i) => ConstantV::Integer(i),
        }
    }
}

/// The constant pool of the class being generated, and that class's name.
/// Index `i` of the class file is entry `i - 1` here: the pool is 1-indexed.
#[derive(Debug)]
pub struct ConstantPool(pub Vec<Constant>, pub String);

pub open spec fn pool_view(v: Seq<Constant>) -> Seq<ConstantV> {
    v.map_values(|c: Constant| c@)
}

impl View for ConstantPool {
    type V = Seq<ConstantV>;

    open spec fn view(&self) -> Seq<ConstantV> {
        pool_view(self.0@)
    }
}

/// The position of the first entry equal to `c`, or -1.
pub open spec fn first_index(p: Seq<ConstantV>, c: ConstantV) -> int
    decreases p.len(),
{
    if p.len() == 0 {
        -1
    } else {
        let f = first_index(p.drop_last(), c);
        if f >= 0 {
            f
        } else if p.last() == c {
            p.len() - 1
        } else {
            -1
        }
    }
}

/// Constants are added after the constants they refer to; this orders them.
pub open spec fn rank(c: ConstantV) -> nat {
    match c {
        ConstantV::Utf8(_) | ConstantV::Integer(_) => 0,
        ConstantV::Class(_) | ConstantV::String(_) | ConstantV::NameAndType(_) => 1,
        ConstantV::FieldRef(..) | ConstantV::MethodRef(..) => 2,
    }
}

/// The most entries adding `c` appends: `c` and the constants it refers to.
pub open spec fn max_added(c: ConstantV) -> nat {
    match c {
        ConstantV::Utf8(_) | ConstantV::Integer(_) => 1,
        ConstantV::Class(_) | ConstantV::String(_) => 2,
        ConstantV::NameAndType(_) => 3,
        ConstantV::FieldRef(..) | ConstantV::MethodRef(..) => 6,
    }
}

/// The pool after adding `c`: unchanged where `c` is present already; else
/// the constants `c` refers to are added first and `c` comes last.
pub open spec fn pool_add(p: Seq<ConstantV>, c: ConstantV) -> Seq<ConstantV>
    decreases rank(c),
{
    if first_index(p, c) >= 0 {
        p
    } else {
        let q = match c {
            ConstantV::Class(n) => pool_add(p, ConstantV::Utf8(n)),
            ConstantV::FieldRef(cl, f) => pool_add(
                pool_add(p, ConstantV::Class(cl)),
                ConstantV::NameAndType(f),
            ),
            ConstantV::MethodRef(cl, m) => pool_add(
                pool_add(p, ConstantV::Class(cl)),
                ConstantV::NameAndType(m),
            ),
            ConstantV::NameAndType(nt) => pool_add(
                pool_add(p, ConstantV::Utf8(nt.name)),
                ConstantV::Utf8(nt.descriptor),
            ),
            ConstantV::String(s) => pool_add(p, ConstantV::Utf8(s)),
            _ => p,
        };
        q.push(c)
    }
}

/// The 1-based index `add` returns for `c`.
pub open spec fn add_index(p: Seq<ConstantV>, c: ConstantV) -> u16 {
    if first_index(p, c) >= 0 {
        (first_index(p, c) + 1) as u16
    } else {
        pool_add(p, c).len() as u16
    }
}

/// Whether `index_of` finds `c`, and the index it gives.
pub open spec fn index_of_spec(p: Seq<ConstantV>, c: ConstantV) -> Option<u16> {
    if first_index(p, c) >= 0 {
        Some((first_index(p, c) + 1) as u16)
    } else {
        None
    }
}

/// Room for one more `add`, which appends at most seven entries, within the
/// 16-bit indices of the class file.
pub open spec fn has_room(p: Seq<ConstantV>) -> bool {
    p.len() + 7 < 65535
}

/// No constant occurs twice.
pub open spec fn no_duplicates(p: Seq<ConstantV>) -> bool {
    forall|i: int, j: int| 0 <= i < j < p.len() ==> p[i] != p[j]
}

pub open spec fn contains(p: Seq<ConstantV>, c: ConstantV) -> bool {
    first_index(p, c) >= 0
}

/// Every constant that an entry refers to is in the pool too.
pub open spec fn closed(p: Seq<ConstantV>) -> bool {
    forall|i: int| 0 <= i < p.len() ==> #[trigger] parts_present(p, p[i])
}

pub open spec fn parts_present(p: Seq<ConstantV>, c: ConstantV) -> bool {
    match c {
        ConstantV::Class(n) => contains(p, ConstantV::Utf8(n)),
        ConstantV::FieldRef(cl, f) => contains(p, ConstantV::Class(cl)) && contains(
            p,
            ConstantV::NameAndType(f),
        ),
        ConstantV::MethodRef(cl, m) => contains(p, ConstantV::Class(cl)) && contains(
            p,
            ConstantV::NameAndType(m),
        ),
        ConstantV::NameAndType(nt) => contains(p, ConstantV::Utf8(nt.name)) && contains(
            p,
            ConstantV::Utf8(nt.descriptor),
        ),
        ConstantV::String(s) => contains(p, ConstantV::Utf8(s)),
        _ => true,
    }
}

pub proof fn lemma_first_index(p: Seq<ConstantV>, c: ConstantV)
    ensures
        -1 <= first_index(p, c) < p.len(),
        first_index(p, c) >= 0 ==> p[first_index(p, c)] == c,
        first_index(p, c) >= 0 ==> forall|j: int| 0 <= j < first_index(p, c) ==> p[j] != c,
        first_index(p, c) < 0 ==> forall|j: int| 0 <= j < p.len() ==> p[j] != c,
    decreases p.len(),
{
    if p.len() > 0 {
        lemma_first_index(p.drop_last(), c);
        assert forall|j: int| 0 <= j < p.len() - 1 implies p[j] == p.drop_last()[j] by {}
    }
}

/// The first index is determined by the entries up to it: appending keeps it.
pub proof fn lemma_first_index_extend(p: Seq<ConstantV>, q: Seq<ConstantV>, c: ConstantV)
    requires
        q.len() >= p.len(),
        q.subrange(0, p.len() as int) == p,
        first_index(p, c) >= 0,
    ensures
        first_index(q, c) == first_index(p, c),
{
    lemma_first_index(p, c);
    lemma_first_index(q, c);
    let f = first_index(p, c);
    assert(q[f] == p[f]);
    if first_index(q, c) < f {
        assert(q[first_index(q, c)] == p[first_index(q, c)]);
    }
}

/// What adding does: the old pool is kept as a prefix, at most `max_added` entries
/// are appended, and afterwards `c` is in the pool at the returned index.
pub proof fn lemma_pool_add(p: Seq<ConstantV>, c: ConstantV)
    ensures
        pool_add(p, c).len() >= p.len(),
        pool_add(p, c).len() <= p.len() + max_added(c),
        pool_add(p, c).subrange(0, p.len() as int) == p,
        contains(pool_add(p, c), c),
        first_index(pool_add(p, c), c) == (if first_index(p, c) >= 0 {
            first_index(p, c)
        } else {
            pool_add(p, c).len() - 1
        }),
        no_duplicates(p) ==> no_duplicates(pool_add(p, c)),
        closed(p) ==> closed(pool_add(p, c)),
    decreases rank(c), 1nat,
{
    lemma_first_index(p, c);
    if first_index(p, c) >= 0 {
        assert(p.subrange(0, p.len() as int) == p);
    } else {
        let q = match c {
            ConstantV::Class(n) => pool_add(p, ConstantV::Utf8(n)),
            ConstantV::FieldRef(cl, f) => pool_add(
                pool_add(p, ConstantV::Class(cl)),
                ConstantV::NameAndType(f),
            ),
            ConstantV::MethodRef(cl, m) => pool_add(
                pool_add(p, ConstantV::Class(cl)),
                ConstantV::NameAndType(m),
            ),
            ConstantV::NameAndType(nt) => pool_add(
                pool_add(p, ConstantV::Utf8(nt.name)),
                ConstantV::Utf8(nt.descriptor),
            ),
            ConstantV::String(s) => pool_add(p, ConstantV::Utf8(s)),
            _ => p,
        };
        assert(pool_add(p, c) == q.push(c));
        // the parts that were added, and what they give
        match c {
            ConstantV::Class(n) => {
                lemma_pool_add(p, ConstantV::Utf8(n));
            },
            ConstantV::String(s) => {
                lemma_pool_add(p, ConstantV::Utf8(s));
            },
            ConstantV::FieldRef(cl, f) => {
                let p1 = pool_add(p, ConstantV::Class(cl));
                lemma_pool_add(p, ConstantV::Class(cl));
                lemma_pool_add(p1, ConstantV::NameAndType(f));
                lemma_contains_extend(p1, q, ConstantV::Class(cl));
                assert(q.subrange(0, p.len() as int) == p1.subrange(0, p.len() as int));
            },
            ConstantV::MethodRef(cl, m) => {
                let p1 = pool_add(p, ConstantV::Class(cl));
                lemma_pool_add(p, ConstantV::Class(cl));
                lemma_pool_add(p1, ConstantV::NameAndType(m));
                lemma_contains_extend(p1, q, ConstantV::Class(cl));
                assert(q.subrange(0, p.len() as int) == p1.subrange(0, p.len() as int));
            },
            ConstantV::NameAndType(nt) => {
                let p1 = pool_add(p, ConstantV::Utf8(nt.name));
                lemma_pool_add(p, ConstantV::Utf8(nt.name));
                lemma_pool_add(p1, ConstantV::Utf8(nt.descriptor));
                lemma_contains_extend(p1, q, ConstantV::Utf8(nt.name));
                assert(q.subrange(0, p.len() as int) == p1.subrange(0, p.len() as int));
            },
            _ => {
                assert(q.subrange(0, p.len() as int) == p);
            },
        }
        let r = q.push(c);
        assert(r.subrange(0, p.len() as int) == q.subrange(0, p.len() as int));
        // c was absent from p, and the parts added differ from c by rank
        lemma_absent_after_parts(p, q, c);
        lemma_first_index(q, c);
        lemma_first_index(r, c);
        assert(r[q.len() as int] == c);
        if first_index(r, c) < q.len() {
            assert(r[first_index(r, c)] == q[first_index(r, c)]);
        }
        assert(first_index(r, c) == q.len());
        if no_duplicates(p) {
            lemma_no_dup_parts(p, q, c);
            assert forall|i: int, j: int| 0 <= i < j < r.len() implies r[i] != r[j] by {
                if j == q.len() {
                    assert(r[i] == q[i]);
                }
            }
        }
        if closed(p) {
            lemma_closed_parts(p, q, c);
            assert(r.subrange(0, q.len() as int) == q);
            assert forall|i: int| 0 <= i < r.len() implies #[trigger] parts_present(r, r[i]) by {
                if i < q.len() {
                    assert(r[i] == q[i]);
                    assert(parts_present(q, q[i]));
                    lemma_parts_present_extend(q, r, q[i]);
                } else {
                    lemma_parts_present_extend(q, r, c);
                }
            }
        }
    }
}

pub proof fn lemma_contains_extend(p: Seq<ConstantV>, q: Seq<ConstantV>, c: ConstantV)
    requires
        q.len() >= p.len(),
        q.subrange(0, p.len() as int) == p,
        contains(p, c),
    ensures
        contains(q, c),
{
    lemma_first_index_extend(p, q, c);
}

pub proof fn lemma_parts_present_extend(p: Seq<ConstantV>, q: Seq<ConstantV>, c: ConstantV)
    requires
        q.len() >= p.len(),
        q.subrange(0, p.len() as int) == p,
        parts_present(p, c),
    ensures
        parts_present(q, c),
{
    match c {
        ConstantV::Class(n) => {
            lemma_contains_extend(p, q, ConstantV::Utf8(n));
        },
        ConstantV::String(s) => {
            lemma_contains_extend(p, q, ConstantV::Utf8(s));
        },
        ConstantV::FieldRef(cl, f) => {
            lemma_contains_extend(p, q, ConstantV::Class(cl));
            lemma_contains_extend(p, q, ConstantV::NameAndType(f));
        },
        ConstantV::MethodRef(cl, m) => {
            lemma_contains_extend(p, q, ConstantV::Class(cl));
            lemma_contains_extend(p, q, ConstantV::NameAndType(m));
        },
        ConstantV::NameAndType(nt) => {
            lemma_contains_extend(p, q, ConstantV::Utf8(nt.name));
            lemma_contains_extend(p, q, ConstantV::Utf8(nt.descriptor));
        },
        _ => {},
    }
}

/// Entries appended while adding `d` all rank at most as high as `d`.
pub proof fn lemma_added_rank_below(p: Seq<ConstantV>, c: ConstantV, d: ConstantV)
    ensures
        forall|i: int|
            p.len() <= i < pool_add(p, d).len() ==> rank(#[trigger] pool_add(p, d)[i]) <= rank(d),
    decreases rank(d),
{
    lemma_pool_add_prefix_only(p, d);
    if first_index(p, d) < 0 {
        let q = match d {
            ConstantV::Class(n) => pool_add(p, ConstantV::Utf8(n)),
            ConstantV::FieldRef(cl, f) => pool_add(
                pool_add(p, ConstantV::Class(cl)),
                ConstantV::NameAndType(f),
            ),
            ConstantV::MethodRef(cl, m) => pool_add(
                pool_add(p, ConstantV::Class(cl)),
                ConstantV::NameAndType(m),
            ),
            ConstantV::NameAndType(nt) => pool_add(
                pool_add(p, ConstantV::Utf8(nt.name)),
                ConstantV::Utf8(nt.descriptor),
            ),
            ConstantV::String(s) => pool_add(p, ConstantV::Utf8(s)),
            _ => p,
        };
        assert(pool_add(p, d) == q.push(d));
        match d {
            ConstantV::Class(n) => {
                lemma_added_rank_below(p, c, ConstantV::Utf8(n));
            },
            ConstantV::String(s) => {
                lemma_added_rank_below(p, c, ConstantV::Utf8(s));
            },
            ConstantV::FieldRef(cl, f) => {
                let p1 = pool_add(p, ConstantV::Class(cl));
                lemma_pool_add_prefix_only(p, ConstantV::Class(cl));
                lemma_added_rank_below(p, c, ConstantV::Class(cl));
                lemma_added_rank_below(p1, c, ConstantV::NameAndType(f));
                lemma_pool_add_prefix_only(p1, ConstantV::NameAndType(f));
                assert forall|i: int| p.len() <= i < q.len() implies rank(#[trigger] q[i]) <= 1 by {
                    if i < p1.len() {
                        assert(q[i] == q.subrange(0, p1.len() as int)[i]);
                    }
                }
            },
            ConstantV::MethodRef(cl, m) => {
                let p1 = pool_add(p, ConstantV::Class(cl));
                lemma_pool_add_prefix_only(p, ConstantV::Class(cl));
                lemma_added_rank_below(p, c, ConstantV::Class(cl));
                lemma_added_rank_below(p1, c, ConstantV::NameAndType(m));
                lemma_pool_add_prefix_only(p1, ConstantV::NameAndType(m));
                assert forall|i: int| p.len() <= i < q.len() implies rank(#[trigger] q[i]) <= 1 by {
                    if i < p1.len() {
                        assert(q[i] == q.subrange(0, p1.len() as int)[i]);
                    }
                }
            },
            ConstantV::NameAndType(nt) => {
                let p1 = pool_add(p, ConstantV::Utf8(nt.name));
                lemma_pool_add_prefix_only(p, ConstantV::Utf8(nt.name));
                lemma_added_rank_below(p, c, ConstantV::Utf8(nt.name));
                lemma_added_rank_below(p1, c, ConstantV::Utf8(nt.descriptor));
                lemma_pool_add_prefix_only(p1, ConstantV::Utf8(nt.descriptor));
                assert forall|i: int| p.len() <= i < q.len() implies rank(#[trigger] q[i]) == 0 by {
                    if i < p1.len() {
                        assert(q[i] == q.subrange(0, p1.len() as int)[i]);
                    }
                }
            },
            _ => {},
        }
        assert forall|i: int| p.len() <= i < q.push(d).len() implies rank(#[trigger] q.push(d)[i]) <= rank(d) by {
            if i < q.len() {
                assert(q.push(d)[i] == q[i]);
            }
        }
    }
}

/// Adding keeps the old pool as a prefix and adds at most `max_added` entries.
pub proof fn lemma_pool_add_prefix_only(p: Seq<ConstantV>, c: ConstantV)
    ensures
        pool_add(p, c).len() >= p.len(),
        pool_add(p, c).len() <= p.len() + max_added(c),
        pool_add(p, c).subrange(0, p.len() as int) == p,
    decreases rank(c),
{
    if first_index(p, c) >= 0 {
        assert(p.subrange(0, p.len() as int) == p);
    } else {
        match c {
            ConstantV::Class(n) => {
                lemma_pool_add_prefix_only(p, ConstantV::Utf8(n));
                let q = pool_add(p, ConstantV::Utf8(n));
                assert(q.push(c).subrange(0, p.len() as int) == q.subrange(0, p.len() as int));
            },
            ConstantV::String(s) => {
                lemma_pool_add_prefix_only(p, ConstantV::Utf8(s));
                let q = pool_add(p, ConstantV::Utf8(s));
                assert(q.push(c).subrange(0, p.len() as int) == q.subrange(0, p.len() as int));
            },
            ConstantV::FieldRef(cl, f) => {
                let p1 = pool_add(p, ConstantV::Class(cl));
                lemma_pool_add_prefix_only(p, ConstantV::Class(cl));
                lemma_pool_add_prefix_only(p1, ConstantV::NameAndType(f));
                let q = pool_add(p1, ConstantV::NameAndType(f));
                assert(q.subrange(0, p.len() as int) == p1.subrange(0, p.len() as int));
                assert(q.push(c).subrange(0, p.len() as int) == q.subrange(0, p.len() as int));
            },
            ConstantV::MethodRef(cl, m) => {
                let p1 = pool_add(p, ConstantV::Class(cl));
                lemma_pool_add_prefix_only(p, ConstantV::Class(cl));
                lemma_pool_add_prefix_only(p1, ConstantV::NameAndType(m));
                let q = pool_add(p1, ConstantV::NameAndType(m));
                assert(q.subrange(0, p.len() as int) == p1.subrange(0, p.len() as int));
                assert(q.push(c).subrange(0, p.len() as int) == q.subrange(0, p.len() as int));
            },
            ConstantV::NameAndType(nt) => {
                let p1 = pool_add(p, ConstantV::Utf8(nt.name));
                lemma_pool_add_prefix_only(p, ConstantV::Utf8(nt.name));
                lemma_pool_add_prefix_only(p1, ConstantV::Utf8(nt.descriptor));
                let q = pool_add(p1, ConstantV::Utf8(nt.descriptor));
                assert(q.subrange(0, p.len() as int) == p1.subrange(0, p.len() as int));
                assert(q.push(c).subrange(0, p.len() as int) == q.subrange(0, p.len() as int));
            },
            _ => {
                assert(p.push(c).subrange(0, p.len() as int) == p);
            },
        }
    }
}

/// Where `c` is absent from `p`, it is absent after its parts are added.
proof fn lemma_absent_after_parts(p: Seq<ConstantV>, q: Seq<ConstantV>, c: ConstantV)
    requires
        first_index(p, c) < 0,
        q == (match c {
            ConstantV::Class(n) => pool_add(p, ConstantV::Utf8(n)),
            ConstantV::FieldRef(cl, f) => pool_add(
                pool_add(p, ConstantV::Class(cl)),
                ConstantV::NameAndType(f),
            ),
            ConstantV::MethodRef(cl, m) => pool_add(
                pool_add(p, ConstantV::Class(cl)),
                ConstantV::NameAndType(m),
            ),
            ConstantV::NameAndType(nt) => pool_add(
                pool_add(p, ConstantV::Utf8(nt.name)),
                ConstantV::Utf8(nt.descriptor),
            ),
            ConstantV::String(s) => pool_add(p, ConstantV::Utf8(s)),
            _ => p,
        }),
    ensures
        first_index(q, c) < 0,
        q.len() >= p.len(),
        q.subrange(0, p.len() as int) == p,
        q.len() <= p.len() + max_added(c) - 1,
{
    lemma_first_index(p, c);
    match c {
        ConstantV::Class(n) => {
            lemma_pool_add_prefix_only(p, ConstantV::Utf8(n));
            lemma_added_rank_below(p, c, ConstantV::Utf8(n));
        },
        ConstantV::String(s) => {
            lemma_pool_add_prefix_only(p, ConstantV::Utf8(s));
            lemma_added_rank_below(p, c, ConstantV::Utf8(s));
        },
        ConstantV::FieldRef(cl, f) => {
            let p1 = pool_add(p, ConstantV::Class(cl));
            lemma_pool_add_prefix_only(p, ConstantV::Class(cl));
            lemma_pool_add_prefix_only(p1, ConstantV::NameAndType(f));
            lemma_added_rank_below(p, c, ConstantV::Class(cl));
            lemma_added_rank_below(p1, c, ConstantV::NameAndType(f));
            assert(q.subrange(0, p.len() as int) == p1.subrange(0, p.len() as int));
            assert forall|i: int| p.len() <= i < q.len() implies rank(#[trigger] q[i]) <= 1 by {
                if i < p1.len() {
                    assert(q[i] == p1[i]);
                }
            }
        },
        ConstantV::MethodRef(cl, m) => {
            let p1 = pool_add(p, ConstantV::Class(cl));
            lemma_pool_add_prefix_only(p, ConstantV::Class(cl));
            lemma_pool_add_prefix_only(p1, ConstantV::NameAndType(m));
            lemma_added_rank_below(p, c, ConstantV::Class(cl));
            lemma_added_rank_below(p1, c, ConstantV::NameAndType(m));
            assert(q.subrange(0, p.len() as int) == p1.subrange(0, p.len() as int));
            assert forall|i: int| p.len() <= i < q.len() implies rank(#[trigger] q[i]) <= 1 by {
                if i < p1.len() {
                    assert(q[i] == p1[i]);
                }
            }
        },
        ConstantV::NameAndType(nt) => {
            let p1 = pool_add(p, ConstantV::Utf8(nt.name));
            lemma_pool_add_prefix_only(p, ConstantV::Utf8(nt.name));
            lemma_pool_add_prefix_only(p1, ConstantV::Utf8(nt.descriptor));
            lemma_added_rank_below(p, c, ConstantV::Utf8(nt.name));
            lemma_added_rank_below(p1, c, ConstantV::Utf8(nt.descriptor));
            assert(q.subrange(0, p.len() as int) == p1.subrange(0, p.len() as int));
            assert forall|i: int| p.len() <= i < q.len() implies rank(#[trigger] q[i]) == 0 by {
                if i < p1.len() {
                    assert(q[i] == p1[i]);
                }
            }
        },
        _ => {
            assert(q.subrange(0, p.len() as int) == p);
        },
    }
    lemma_first_index(q, c);
    if first_index(q, c) >= 0 {
        let k = first_index(q, c);
        if k < p.len() {
            assert(q[k] == p[k]);
        } else {
            assert(rank(q[k]) < rank(c));
        }
    }
}

/// Adding the parts of an absent constant keeps the pool free of duplicates.
proof fn lemma_no_dup_parts(p: Seq<ConstantV>, q: Seq<ConstantV>, c: ConstantV)
    requires
        no_duplicates(p),
        first_index(p, c) < 0,
        q == (match c {
            ConstantV::Class(n) => pool_add(p, ConstantV::Utf8(n)),
            ConstantV::FieldRef(cl, f) => pool_add(
                pool_add(p, ConstantV::Class(cl)),
                ConstantV::NameAndType(f),
            ),
            ConstantV::MethodRef(cl, m) => pool_add(
                pool_add(p, ConstantV::Class(cl)),
                ConstantV::NameAndType(m),
            ),
            ConstantV::NameAndType(nt) => pool_add(
                pool_add(p, ConstantV::Utf8(nt.name)),
                ConstantV::Utf8(nt.descriptor),
            ),
            ConstantV::String(s) => pool_add(p, ConstantV::Utf8(s)),
            _ => p,
        }),
    ensures
        no_duplicates(q),
    decreases rank(c), 0nat,
{
    match c {
        ConstantV::Class(n) => {
            lemma_pool_add(p, ConstantV::Utf8(n));
        },
        ConstantV::String(s) => {
            lemma_pool_add(p, ConstantV::Utf8(s));
        },
        ConstantV::FieldRef(cl, f) => {
            lemma_pool_add(p, ConstantV::Class(cl));
            lemma_pool_add(pool_add(p, ConstantV::Class(cl)), ConstantV::NameAndType(f));
        },
        ConstantV::MethodRef(cl, m) => {
            lemma_pool_add(p, ConstantV::Class(cl));
            lemma_pool_add(pool_add(p, ConstantV::Class(cl)), ConstantV::NameAndType(m));
        },
        ConstantV::NameAndType(nt) => {
            lemma_pool_add(p, ConstantV::Utf8(nt.name));
            lemma_pool_add(pool_add(p, ConstantV::Utf8(nt.name)), ConstantV::Utf8(nt.descriptor));
        },
        _ => {},
    }
}

/// Adding the parts of a constant into a closed pool keeps it closed and
/// makes the parts present.
proof fn lemma_closed_parts(p: Seq<ConstantV>, q: Seq<ConstantV>, c: ConstantV)
    requires
        closed(p),
        first_index(p, c) < 0,
        q == (match c {
            ConstantV::Class(n) => pool_add(p, ConstantV::Utf8(n)),
            ConstantV::FieldRef(cl, f) => pool_add(
                pool_add(p, ConstantV::Class(cl)),
                ConstantV::NameAndType(f),
            ),
            ConstantV::MethodRef(cl, m) => pool_add(
                pool_add(p, ConstantV::Class(cl)),
                ConstantV::NameAndType(m),
            ),
            ConstantV::NameAndType(nt) => pool_add(
                pool_add(p, ConstantV::Utf8(nt.name)),
                ConstantV::Utf8(nt.descriptor),
            ),
            ConstantV::String(s) => pool_add(p, ConstantV::Utf8(s)),
            _ => p,
        }),
    ensures
        closed(q),
        parts_present(q, c),
    decreases rank(c), 0nat,
{
    match c {
        ConstantV::Class(n) => {
            lemma_pool_add(p, ConstantV::Utf8(n));
        },
        ConstantV::String(s) => {
            lemma_pool_add(p, ConstantV::Utf8(s));
        },
        ConstantV::FieldRef(cl, f) => {
            let p1 = pool_add(p, ConstantV::Class(cl));
            lemma_pool_add(p, ConstantV::Class(cl));
            lemma_pool_add(p1, ConstantV::NameAndType(f));
            lemma_contains_extend(p1, q, ConstantV::Class(cl));
        },
        ConstantV::MethodRef(cl, m) => {
            let p1 = pool_add(p, ConstantV::Class(cl));
            lemma_pool_add(p, ConstantV::Class(cl));
            lemma_pool_add(p1, ConstantV::NameAndType(m));
            lemma_contains_extend(p1, q, ConstantV::Class(cl));
        },
        ConstantV::NameAndType(nt) => {
            let p1 = pool_add(p, ConstantV::Utf8(nt.name));
            lemma_pool_add(p, ConstantV::Utf8(nt.name));
            lemma_pool_add(p1, ConstantV::Utf8(nt.descriptor));
            lemma_contains_extend(p1, q, ConstantV::Utf8(nt.name));
        },
        _ => {},
    }
}

// ---------------------------------------------------------------------------
// The pool every class starts from, and its operations.
// ---------------------------------------------------------------------------

pub open spec fn java_lang_object() -> Seq<char> {
    "java/lang/Object"@
}

pub open spec fn init_name() -> Seq<char> {
    "<init>"@
}

pub open spec fn init_descriptor() -> Seq<char> {
    "()V"@
}

pub open spec fn code_name() -> Seq<char> {
    "Code"@
}

/// `Object.<init>()V`, which every constructor calls first.
pub open spec fn object_init() -> ConstantV {
    ConstantV::MethodRef(
        java_lang_object(),
        NameAndTypeV { name: init_name(), descriptor: init_descriptor() },
    )
}

/// The pool every class file starts with: the constructor of
/// `java/lang/Object`, the class itself and the name of the code attribute.
pub open spec fn initial_pool(name: Seq<char>) -> Seq<ConstantV> {
    seq![
        object_init(),
        ConstantV::Class(java_lang_object()),
        ConstantV::NameAndType(NameAndTypeV { name: init_name(), descriptor: init_descriptor() }),
        ConstantV::Utf8(java_lang_object()),
        ConstantV::Utf8(init_name()),
        ConstantV::Utf8(init_descriptor()),
        ConstantV::Class(name),
        ConstantV::Utf8(name),
        ConstantV::Utf8(code_name()),
    ]
}

/// The encoding of a `Utf8` entry: tag, byte length, then the UTF-8 bytes.
pub open spec fn utf8_entry(v: Seq<char>) -> Seq<u8> {
    seq![1u8] + be16(encode_utf8(v).len() as u16) + encode_utf8(v)
}

/// The encoding of one entry, which refers to other entries by their
/// indices; `None` where one of them is missing. A `NameAndType` whose
/// descriptor is missing has it added, so the pool that results comes too.
pub open spec fn entry_bytes(p: Seq<ConstantV>, c: ConstantV) -> Option<(Seq<u8>, Seq<ConstantV>)> {
    match c {
        ConstantV::Utf8(v) => Some((utf8_entry(v), p)),
        ConstantV::Class(n) => match index_of_spec(p, ConstantV::Utf8(n)) {
            Some(a) => Some((seq![7u8] + be16(a), p)),
            None => None,
        },
        ConstantV::MethodRef(cl, m) => match (
            index_of_spec(p, ConstantV::Class(cl)),
            index_of_spec(p, ConstantV::NameAndType(m)),
        ) {
            (Some(a), Some(b)) => Some((seq![10u8] + be16(a) + be16(b), p)),
            _ => None,
        },
        ConstantV::NameAndType(nt) => match index_of_spec(p, ConstantV::Utf8(nt.name)) {
            Some(a) => {
                if contains(p, ConstantV::Utf8(nt.descriptor)) || has_room(p) {
                    Some(
                        (
                            seq![12u8] + be16(a) + be16(add_index(p, ConstantV::Utf8(nt.descriptor))),
                            pool_add(p, ConstantV::Utf8(nt.descriptor)),
                        ),
                    )
                } else {
                    None
                }
            },
            None => None,
        },
        ConstantV::FieldRef(cl, f) => match (
            index_of_spec(p, ConstantV::Class(cl)),
            index_of_spec(p, ConstantV::NameAndType(f)),
        ) {
            (Some(a), Some(b)) => Some((seq![9u8] + be16(a) + be16(b), p)),
            _ => None,
        },
        ConstantV::String(v) => match index_of_spec(p, ConstantV::Utf8(v)) {
            Some(a) => Some((seq![8u8] + be16(a), p)),
            None => None,
        },
        ConstantV::Integer(i) => Some((seq![3u8] + be32(i as u32), p)),
    }
}

/// The encoding of entries `i` up to `n` of the pool, in order.
pub open spec fn pool_bytes_from(n: nat, i: nat, p: Seq<ConstantV>) -> Option<
    (Seq<u8>, Seq<ConstantV>),
>
    decreases n - i,
{
    if i >= n || i >= p.len() {
        Some((Seq::empty(), p))
    } else {
        match entry_bytes(p, p[i as int]) {
            Some((b, p2)) => match pool_bytes_from(n, i + 1, p2) {
                Some((rest, p3)) => Some((b + rest, p3)),
                None => None,
            },
            None => None,
        }
    }
}

/// The encoding of the whole pool, and the pool after it.
pub open spec fn pool_bytes(p: Seq<ConstantV>) -> Option<(Seq<u8>, Seq<ConstantV>)> {
    pool_bytes_from(p.len(), 0, p)
}

impl NameAndType {
    /// Whether two pairs are equal.
    pub fn same_as(&self, other: &NameAndType) -> (r: bool)
        ensures
            r == (self@ == other@),
    {
        self.name == other.name && self.descriptor == other.descriptor
    }

    /// A copy of this pair.
    pub fn copy_nat(&self) -> (r: NameAndType)
        ensures
            r@ == self@,
    {
        NameAndType { name: self.name.clone(), descriptor: self.descriptor.clone() }
    }
}

impl Constant {
    /// Whether two constants are equal.
    pub fn same_as(&self, other: &Constant) -> (r: bool)
        ensures
            r == (self@ == other@),
    {
        match self {
            Constant::Class(x) => match other {
                Constant::Class(y) => *x == *y,
                _ => false,
            },
            Constant::FieldRef(x) => match other {
                Constant::FieldRef(y) => x.class == y.class && x.field.same_as(&y.field),
                _ => false,
            },
            Constant::MethodRef(x) => match other {
                Constant::MethodRef(y) => x.class == y.class && x.method.same_as(&y.method),
                _ => false,
            },
            Constant::NameAndType(x) => match other {
                Constant::NameAndType(y) => x.same_as(y),
                _ => false,
            },
            Constant::String(x) => match other {
                Constant::String(y) => *x == *y,
                _ => false,
            },
            Constant::Utf8(x) => match other {
                Constant::Utf8(y) => *x == *y,
                _ => false,
            },
            Constant::Integer(x) => match other {
                Constant::Integer(y) => *x == *y,
                _ => false,
            },
        }
    }

    /// A copy of this constant.
    pub fn copy_constant(&self) -> (r: Constant)
        ensures
            r@ == self@,
    {
        match self {
            Constant::Class(x) => Constant::Class(x.clone()),
            Constant::FieldRef(x) => Constant::FieldRef(
                FieldRef { class: x.class.clone(), field: x.field.copy_nat() },
            ),
            Constant::MethodRef(x) => Constant::MethodRef(
                MethodRef { class: x.class.clone(), method: x.method.copy_nat() },
            ),
            Constant::NameAndType(x) => Constant::NameAndType(x.copy_nat()),
            Constant::String(x) => Constant::String(x.clone()),
            Constant::Utf8(x) => Constant::Utf8(x.clone()),
            Constant::Integer(x) => Constant::Integer(*x),
        }
    }
}

/// A `String` holding the characters of `s`.
pub fn string_of(s: &str) -> (r: String)
    ensures
        r@ == s@,
{
    String::from_str(s)
}

impl ConstantPool {
    /// The pool every class starts with; `name` is the name of the class.
    pub fn new(name: String) -> (p: Self)
        ensures
            p@ == initial_pool(name@),
            p.1@ == name@,
    {
        let v = vec![
            Constant::MethodRef(
                MethodRef {
                    class: string_of("java/lang/Object"),
                    method: NameAndType {
                        name: string_of("<init>"),
                        descriptor: string_of("()V"),
                    },
                },
            ),
            Constant::Class(string_of("java/lang/Object")),
            Constant::NameAndType(
                NameAndType { name: string_of("<init>"), descriptor: string_of("()V") },
            ),
            Constant::Utf8(string_of("java/lang/Object")),
            Constant::Utf8(string_of("<init>")),
            Constant::Utf8(string_of("()V")),
            Constant::Class(name.clone()),
            Constant::Utf8(name.clone()),
            Constant::Utf8(string_of("Code")),
        ];
        let p = ConstantPool(v, name);
        assert(p@ =~= initial_pool(p.1@));
        p
    }

    /// Whether one more `add` fits.
    pub fn has_room(&self) -> (b: bool)
        ensures
            b == has_room(self@),
    {
        self.0.len() < 65528
    }

    /// The `constant_pool_count` of the class file: one more than the number
    /// of entries, since the pool is 1-indexed.
    pub fn count(&self) -> (n: u16)
        requires
            self@.len() < 65535,
        ensures
            n == self@.len() + 1,
    {
        self.0.len() as u16 + 1
    }

    /// The 1-based index of the first entry equal to `constant`, if any.
    pub fn index_of(&self, constant: &Constant) -> (r: Option<u16>)
        requires
            self@.len() < 65535,
        ensures
            r == index_of_spec(self@, constant@),
    {
        let mut i: usize = 0;
        while i < self.0.len()
            invariant
                i <= self.0@.len(),
                self@.len() < 65535,
                forall|j: int| 0 <= j < i ==> self@[j] != constant@,
            decreases self.0@.len() - i,
        {
            assert(self@[i as int] == self.0@[i as int]@);
            if self.0[i].same_as(constant) {
                proof {
                    lemma_first_index(self@, constant@);
                }
                return Some(i as u16 + 1);
            }
            i = i + 1;
        }
        proof {
            lemma_first_index(self@, constant@);
        }
        None
    }

    /// Adds a constant, together with the constants it refers to, where it
    /// is not in the pool yet; returns its 1-based index.
    pub fn add(&mut self, constant: Constant) -> (idx: u16)
        requires
            old(self)@.len() + max_added(constant@) < 65535,
        ensures
            final(self)@ == pool_add(old(self)@, constant@),
            idx == add_index(old(self)@, constant@),
            final(self).1 == old(self).1,
        decreases rank(constant@),
    {
        proof {
            lemma_pool_add(old(self)@, constant@);
        }
        if let Some(index) = self.index_of(&constant) {
            return index;
        }
        let ghost p0 = self@;
        match &constant {
            Constant::Class(class_name) => {
                proof { lemma_pool_add_prefix_only(p0, ConstantV::Utf8(class_name@)); }
                self.add(Constant::Utf8(class_name.clone()));
            },
            Constant::FieldRef(field_ref) => {
                proof {
                    lemma_pool_add_prefix_only(p0, ConstantV::Class(field_ref.class@));
                    lemma_pool_add_prefix_only(pool_add(p0, ConstantV::Class(field_ref.class@)), ConstantV::NameAndType(field_ref.field@));
                }
                self.add(Constant::Class(field_ref.class.clone()));
                self.add(Constant::NameAndType(field_ref.field.copy_nat()));
            },
            Constant::NameAndType(name_and_type) => {
                proof {
                    lemma_pool_add_prefix_only(p0, ConstantV::Utf8(name_and_type.name@));
                    lemma_pool_add_prefix_only(pool_add(p0, ConstantV::Utf8(name_and_type.name@)), ConstantV::Utf8(name_and_type.descriptor@));
                }
                self.add(Constant::Utf8(name_and_type.name.clone()));
                self.add(Constant::Utf8(name_and_type.descriptor.clone()));
            },
            Constant::MethodRef(method_ref) => {
                proof {
                    lemma_pool_add_prefix_only(p0, ConstantV::Class(method_ref.class@));
                    lemma_pool_add_prefix_only(pool_add(p0, ConstantV::Class(method_ref.class@)), ConstantV::NameAndType(method_ref.method@));
                }
                self.add(Constant::Class(method_ref.class.clone()));
                self.add(Constant::NameAndType(method_ref.method.copy_nat()));
            },
            Constant::String(s) => {
                proof { lemma_pool_add_prefix_only(p0, ConstantV::Utf8(s@)); }
                self.add(Constant::Utf8(s.clone()));
            },
            Constant::Integer(_) => {},
            Constant::Utf8(_) => {},
        }
        let ghost c = constant@;
        self.0.push(constant);
        assert(self@ =~= pool_add(p0, c));
        self.0.len() as u16
    }

    /// The 1-based index of this class's `Class` entry.
    pub fn index_of_this_class(&self) -> (idx: u16)
        requires
            self@.len() < 65535,
            contains(self@, ConstantV::Class(self.1@)),
        ensures
            Some(idx) == index_of_spec(self@, ConstantV::Class(self.1@)),
    {
        let c = Constant::Class(self.1.clone());
        match self.index_of(&c) {
            Some(i) => i,
            None => {
                assert(false);
                0
            },
        }
    }

    /// The entry at a 1-based index, if there is one.
    pub fn get(&self, index: u16) -> (r: Option<&Constant>)
        ensures
            r is Some <==> 1 <= index && index - 1 < self@.len(),
            r matches Some(c) ==> c@ == self@[index - 1],
    {
        if index == 0 {
            return None;
        }
        let i = index as usize - 1;
        if i < self.0.len() {
            Some(&self.0[i])
        } else {
            None
        }
    }

    /// Appends the encoding of one entry; `false` where an entry it refers
    /// to is missing.
    fn entry_to_bytes(&mut self, constant: &Constant, result: &mut Vec<u8>) -> (ok: bool)
        requires
            old(self)@.len() < 65535,
        ensures
            match entry_bytes(old(self)@, constant@) {
                Some((b, p)) => ok && final(result)@ == old(result)@ + b && final(self)@ == p,
                None => !ok,
            },
            final(self).1 == old(self).1,
            final(self)@.len() < 65535,
    {
        match constant {
            Constant::Utf8(val) => {
                result.push(1);
                let s = val.as_str();
                let bytes = s.as_bytes();
                let len = s.len();
                let blen = bytes.len();
                assert(bytes@.len() == encode_utf8(val@).len());
                assert(blen == bytes@.len());
                assert(len == encode_utf8(val@).len());
                push_u16(result, #[verifier::truncate] (len as u16));
                append_bytes(result, bytes);
                assert(final(result)@ =~= old(result)@ + utf8_entry(val@));
                true
            },
            Constant::Class(name) => {
                match self.index_of(&Constant::Utf8(name.clone())) {
                    Some(a) => {
                        result.push(7);
                        push_u16(result, a);
                        assert(final(result)@ =~= old(result)@ + (seq![7u8] + be16(a)));
                        true
                    },
                    None => false,
                }
            },
            Constant::MethodRef(m) => {
                let a = self.index_of(&Constant::Class(m.class.clone()));
                let b = self.index_of(&Constant::NameAndType(m.method.copy_nat()));
                match (a, b) {
                    (Some(a), Some(b)) => {
                        result.push(10);
                        push_u16(result, a);
                        push_u16(result, b);
                        assert(final(result)@ =~= old(result)@ + (seq![10u8] + be16(a) + be16(b)));
                        true
                    },
                    _ => false,
                }
            },
            Constant::NameAndType(nt) => {
                match self.index_of(&Constant::Utf8(nt.name.clone())) {
                    Some(a) => {
                        let d = Constant::Utf8(nt.descriptor.clone());
                        let b = match self.index_of(&d) {
                            Some(b) => b,
                            None => {
                                if !self.has_room() {
                                    return false;
                                }
                                self.add(d)
                            },
                        };
                        proof {
                            lemma_pool_add(old(self)@, ConstantV::Utf8(nt.descriptor@));
                        }
                        result.push(12);
                        push_u16(result, a);
                        push_u16(result, b);
                        assert(final(result)@ =~= old(result)@ + (seq![12u8] + be16(a) + be16(b)));
                        true
                    },
                    None => false,
                }
            },
            Constant::FieldRef(f) => {
                let a = self.index_of(&Constant::Class(f.class.clone()));
                let b = self.index_of(&Constant::NameAndType(f.field.copy_nat()));
                match (a, b) {
                    (Some(a), Some(b)) => {
                        result.push(9);
                        push_u16(result, a);
                        push_u16(result, b);
                        assert(final(result)@ =~= old(result)@ + (seq![9u8] + be16(a) + be16(b)));
                        true
                    },
                    _ => false,
                }
            },
            Constant::String(val) => {
                match self.index_of(&Constant::Utf8(val.clone())) {
                    Some(a) => {
                        result.push(8);
                        push_u16(result, a);
                        assert(final(result)@ =~= old(result)@ + (seq![8u8] + be16(a)));
                        true
                    },
                    None => false,
                }
            },
            Constant::Integer(i) => {
                result.push(3);
                push_u32(result, #[verifier::truncate] (*i as u32));
                assert(final(result)@ =~= old(result)@ + (seq![3u8] + be32(#[verifier::truncate] (*i as u32))));
                true
            },
        }
    }

    /// The constant pool as the class file stores it. Entries refer to the
    /// entries they name by index; `None` where one of those is missing.
    pub fn as_bytes(&mut self) -> (r: Option<Vec<u8>>)
        requires
            old(self)@.len() < 65535,
        ensures
            match pool_bytes(old(self)@) {
                Some((b, p)) => r matches Some(v) && v@ == b && final(self)@ == p,
                None => r is None,
            },
            final(self).1 == old(self).1,
    {
        let mut result: Vec<u8> = Vec::new();
        let n = self.0.len();
        let ghost p0 = self@;
        let mut idx: usize = 0;
        while idx < n
            invariant
                n == p0.len(),
                p0 == old(self)@,
                idx <= n,
                self@.len() < 65535,
                self.1 == old(self).1,
                self@.len() >= n,
                self@.subrange(0, n as int) == p0,
                bytes_so_far(p0, n as nat, idx as nat, result@, self@),
            decreases n - idx,
        {
            let ghost pb = self@;
            let ghost rb = result@;
            assert(pb[idx as int] == self.0@[idx as int]@);
            assert(pb[idx as int] == p0[idx as int]);
            let constant = self.0[idx].copy_constant();
            if !self.entry_to_bytes(&constant, &mut result) {
                proof {
                    lemma_pool_bytes_step(n as nat, idx as nat, pb);
                    assert(entry_bytes(pb, pb[idx as int]) is None);
                    assert(pool_bytes_from(n as nat, idx as nat, pb) is None);
                    assert(bytes_so_far(p0, n as nat, idx as nat, rb, pb));
                    assert(pool_bytes(p0) is None);
                }
                return None;
            }
            proof {
                lemma_pool_bytes_step(n as nat, idx as nat, pb);
                lemma_entry_bytes_prefix(pb, constant@);
                assert(self@.subrange(0, n as int) == pb.subrange(0, n as int));
                let eb = entry_bytes(pb, constant@).unwrap();
                let tail = pool_bytes_from(n as nat, (idx + 1) as nat, self@);
                if let Some(t) = tail {
                    assert(result@ + t.0 =~= rb + (eb.0 + t.0));
                }
            }
            idx = idx + 1;
        }
        proof {
            lemma_pool_bytes_step(n as nat, idx as nat, self@);
        }
        Some(result)
    }
}

/// The encoding of the whole pool is what is encoded so far followed by the
/// encoding of the rest.
pub open spec fn bytes_so_far(
    p0: Seq<ConstantV>,
    n: nat,
    i: nat,
    sofar: Seq<u8>,
    cur: Seq<ConstantV>,
) -> bool {
    pool_bytes(p0) == (match pool_bytes_from(n, i, cur) {
        Some((rest, p3)) => Some((sofar + rest, p3)),
        None => None,
    })
}

/// One step of `pool_bytes_from`.
pub proof fn lemma_pool_bytes_step(n: nat, i: nat, p: Seq<ConstantV>)
    ensures
        pool_bytes_from(n, i, p) == (if i >= n || i >= p.len() {
            Some((Seq::empty(), p))
        } else {
            match entry_bytes(p, p[i as int]) {
                Some((b, p2)) => match pool_bytes_from(n, i + 1, p2) {
                    Some((rest, p3)) => Some((b + rest, p3)),
                    None => None,
                },
                None => None,
            }
        }),
{
}

/// Encoding an entry keeps the pool as a prefix of the pool that results.
pub proof fn lemma_entry_bytes_prefix(p: Seq<ConstantV>, c: ConstantV)
    ensures
        entry_bytes(p, c) matches Some((b, q)) ==> q.len() >= p.len() && q.subrange(0, p.len() as int) == p,
{
    if let ConstantV::NameAndType(nt) = c {
        lemma_pool_add_prefix_only(p, ConstantV::Utf8(nt.descriptor));
    } else {
        assert(p.subrange(0, p.len() as int) == p);
    }
}


/// Adding a constant and then looking it up finds it at the index that the
/// addition returned, and that entry is the constant.
pub proof fn law_add_then_index_of(p: Seq<ConstantV>, c: ConstantV)
    requires
        pool_add(p, c).len() < 65535,
    ensures
        index_of_spec(pool_add(p, c), c) == Some(add_index(p, c)),
        1 <= add_index(p, c) <= pool_add(p, c).len(),
        pool_add(p, c)[add_index(p, c) - 1] == c,
{
    lemma_pool_add(p, c);
    lemma_first_index(pool_add(p, c), c);
    lemma_first_index(p, c);
}

/// Adding a constant a second time changes nothing and gives the same index.
pub proof fn law_add_idempotent(p: Seq<ConstantV>, c: ConstantV)
    requires
        pool_add(p, c).len() < 65535,
    ensures
        pool_add(pool_add(p, c), c) == pool_add(p, c),
        add_index(pool_add(p, c), c) == add_index(p, c),
{
    lemma_pool_add(p, c);
    lemma_first_index(pool_add(p, c), c);
}

/// Adding a constant keeps every constant that was in the pool at its index.
pub proof fn law_add_keeps_indices(p: Seq<ConstantV>, c: ConstantV, d: ConstantV)
    requires
        contains(p, d),
    ensures
        index_of_spec(pool_add(p, c), d) == index_of_spec(p, d),
{
    lemma_pool_add(p, c);
    lemma_first_index_extend(p, pool_add(p, c), d);
}

/// A closed pool encodes: every entry finds the entries it refers to, and
/// encoding adds nothing, so the pool afterwards is the pool before.
pub proof fn law_closed_pool_encodes(p: Seq<ConstantV>)
    requires
        closed(p),
    ensures
        pool_bytes(p) matches Some((_, q)) && q == p,
{
    lemma_closed_pool_encodes_from(p, 0);
}

proof fn lemma_closed_pool_encodes_from(p: Seq<ConstantV>, i: nat)
    requires
        closed(p),
        i <= p.len(),
    ensures
        pool_bytes_from(p.len(), i, p) matches Some((_, q)) && q == p,
    decreases p.len() - i,
{
    if i < p.len() {
        assert(parts_present(p, p[i as int]));
        if let ConstantV::NameAndType(nt) = p[i as int] {
            assert(pool_add(p, ConstantV::Utf8(nt.descriptor)) == p);
        }
        lemma_closed_pool_encodes_from(p, i + 1);
    }
}

proof fn lemma_contains_at(p: Seq<ConstantV>, i: int)
    requires
        0 <= i < p.len(),
    ensures
        contains(p, p[i]),
{
    lemma_first_index(p, p[i]);
}

/// The pool every class file starts with is closed, and adding keeps a pool
/// closed, so a pool built by additions from it always encodes.
pub proof fn law_initial_pool_closed(name: Seq<char>)
    ensures
        closed(initial_pool(name)),
{
    let p = initial_pool(name);
    assert forall|i: int| 0 <= i < p.len() implies #[trigger] parts_present(p, p[i]) by {
        lemma_contains_at(p, 1);
        lemma_contains_at(p, 2);
        lemma_contains_at(p, 3);
        lemma_contains_at(p, 4);
        lemma_contains_at(p, 5);
        lemma_contains_at(p, 7);
    }
}

/// Adding a constant to a closed pool leaves it closed, so it still
/// encodes without change.
pub proof fn law_add_keeps_closed(p: Seq<ConstantV>, c: ConstantV)
    requires
        closed(p),
    ensures
        closed(pool_add(p, c)),
        pool_bytes(pool_add(p, c)) matches Some((_, q)) && q == pool_add(p, c),
{
    lemma_pool_add(p, c);
    law_closed_pool_encodes(pool_add(p, c));
}

/// The unsigned 16-bit big-endian number at positions `k` and `k + 1`.
pub open spec fn u16_at(b: Seq<u8>, k: int) -> int {
    b[k] as int * 256 + b[k + 1] as int
}

/// Positions `k` and `k + 1` of `b` hold the 1-based index of constant `c`
/// in pool `p`.
pub open spec fn refers_to(p: Seq<ConstantV>, b: Seq<u8>, k: int, c: ConstantV) -> bool {
    0 <= k && k + 1 < b.len() && 1 <= u16_at(b, k) <= p.len() && p[u16_at(b, k) - 1] == c
}

/// What the class file format makes of the bytes `b` of an entry, read
/// against pool `p`: the tag of the kind of constant, then its contents;
/// references name the entries they point to by index.
pub open spec fn entry_reads_as(p: Seq<ConstantV>, c: ConstantV, b: Seq<u8>) -> bool {
    match c {
        ConstantV::Utf8(v) => b.len() == 3 + encode_utf8(v).len() && b[0] == 1 && b.subrange(3, b.len() as int)
            == encode_utf8(v) && (encode_utf8(v).len() < 65536 ==> u16_at(b, 1) == encode_utf8(v).len()),
        ConstantV::Integer(i) => b.len() == 5 && b[0] == 3 && b[1] as int * 0x100_0000 + b[2] as int * 0x1_0000
            + b[3] as int * 256 + b[4] as int == i as u32 as int,
        ConstantV::Class(n) => b.len() == 3 && b[0] == 7 && refers_to(p, b, 1, ConstantV::Utf8(n)),
        ConstantV::String(v) => b.len() == 3 && b[0] == 8 && refers_to(p, b, 1, ConstantV::Utf8(v)),
        ConstantV::FieldRef(cl, nt) => b.len() == 5 && b[0] == 9 && refers_to(p, b, 1, ConstantV::Class(cl))
            && refers_to(p, b, 3, ConstantV::NameAndType(nt)),
        ConstantV::MethodRef(cl, nt) => b.len() == 5 && b[0] == 10 && refers_to(p, b, 1, ConstantV::Class(cl))
            && refers_to(p, b, 3, ConstantV::NameAndType(nt)),
        ConstantV::NameAndType(nt) => b.len() == 5 && b[0] == 12 && refers_to(p, b, 1, ConstantV::Utf8(nt.name))
            && refers_to(p, b, 3, ConstantV::Utf8(nt.descriptor)),
    }
}

proof fn lemma_be16_reads(v: u16)
    ensures
        be16(v).len() == 2,
        be16(v)[0] as int * 256 + be16(v)[1] as int == v as int,
{
    assert(v / 256 < 256);
    assert((v / 256) as u8 as int == v / 256);
    assert((v % 256) as u8 as int == v % 256);
}

/// The index that a lookup gives points at the constant looked up.
proof fn lemma_index_points(p: Seq<ConstantV>, c: ConstantV)
    requires
        p.len() < 65535,
        index_of_spec(p, c) is Some,
    ensures
        1 <= index_of_spec(p, c)->Some_0 <= p.len(),
        p[index_of_spec(p, c)->Some_0 - 1] == c,
{
    lemma_first_index(p, c);
}

/// Two indices in a row after a tag.
proof fn lemma_two_refs(p: Seq<ConstantV>, tag: u8, a: u16, b: u16, c: ConstantV, d: ConstantV)
    requires
        1 <= a <= p.len(),
        p[a - 1] == c,
        1 <= b <= p.len(),
        p[b - 1] == d,
    ensures
        ({
            let bytes = seq![tag] + be16(a) + be16(b);
            bytes.len() == 5 && bytes[0] == tag && refers_to(p, bytes, 1, c) && refers_to(p, bytes, 3, d)
        }),
{
    lemma_be16_reads(a);
    lemma_be16_reads(b);
    let bytes = seq![tag] + be16(a) + be16(b);
    assert(bytes[1] == be16(a)[0] && bytes[2] == be16(a)[1]);
    assert(bytes[3] == be16(b)[0] && bytes[4] == be16(b)[1]);
}

/// Every entry encodes as the class file format reads it: its tag, then its
/// contents, where each reference holds the index of the constant it names
/// in the pool after the entry; the pool before is kept.
pub proof fn law_entry_bytes_read_back(p: Seq<ConstantV>, c: ConstantV)
    requires
        p.len() < 65535,
    ensures
        entry_bytes(p, c) matches Some((b, q)) ==> entry_reads_as(q, c, b) && q.len() >= p.len()
            && q.subrange(0, p.len() as int) == p,
{
    if let Some((b, q)) = entry_bytes(p, c) {
        assert(p.subrange(0, p.len() as int) =~= p);
        match c {
            ConstantV::Utf8(v) => {
                let e = encode_utf8(v);
                assert(b =~= seq![1u8] + be16(e.len() as u16) + e);
                assert(b.subrange(3, b.len() as int) =~= e);
                lemma_be16_reads(e.len() as u16);
                assert(b[1] == be16(e.len() as u16)[0] && b[2] == be16(e.len() as u16)[1]);
            },
            ConstantV::Integer(i) => {
                let v = i as u32;
                assert(((v / 0x100_0000) * 0x100_0000 + ((v / 0x1_0000) % 256) * 0x1_0000 + ((v / 256) % 256) * 256
                    + v % 256) == v) by (bit_vector);
                assert(v / 0x100_0000 < 256) by (bit_vector);
            },
            ConstantV::Class(n) => {
                lemma_index_points(p, ConstantV::Utf8(n));
                let a = index_of_spec(p, ConstantV::Utf8(n))->Some_0;
                lemma_be16_reads(a);
                assert(b[1] == be16(a)[0] && b[2] == be16(a)[1]);
            },
            ConstantV::String(v) => {
                lemma_index_points(p, ConstantV::Utf8(v));
                let a = index_of_spec(p, ConstantV::Utf8(v))->Some_0;
                lemma_be16_reads(a);
                assert(b[1] == be16(a)[0] && b[2] == be16(a)[1]);
            },
            ConstantV::FieldRef(cl, nt) => {
                lemma_index_points(p, ConstantV::Class(cl));
                lemma_index_points(p, ConstantV::NameAndType(nt));
                lemma_two_refs(
                    p,
                    9,
                    index_of_spec(p, ConstantV::Class(cl))->Some_0,
                    index_of_spec(p, ConstantV::NameAndType(nt))->Some_0,
                    ConstantV::Class(cl),
                    ConstantV::NameAndType(nt),
                );
            },
            ConstantV::MethodRef(cl, nt) => {
                lemma_index_points(p, ConstantV::Class(cl));
                lemma_index_points(p, ConstantV::NameAndType(nt));
                lemma_two_refs(
                    p,
                    10,
                    index_of_spec(p, ConstantV::Class(cl))->Some_0,
                    index_of_spec(p, ConstantV::NameAndType(nt))->Some_0,
                    ConstantV::Class(cl),
                    ConstantV::NameAndType(nt),
                );
            },
            ConstantV::NameAndType(nt) => {
                let u = ConstantV::Utf8(nt.descriptor);
                lemma_index_points(p, ConstantV::Utf8(nt.name));
                lemma_pool_add(p, u);
                lemma_first_index(p, u);
                law_add_then_index_of(p, u);
                let a = index_of_spec(p, ConstantV::Utf8(nt.name))->Some_0;
                assert(q[a - 1] == q.subrange(0, p.len() as int)[a - 1]);
                lemma_two_refs(q, 12, a, add_index(p, u), ConstantV::Utf8(nt.name), u);
            },
        }
    }
}

/// The bytes of entry `j` of a pool, encoded against the pool itself.
pub open spec fn entry_of(p: Seq<ConstantV>, j: int) -> Seq<u8> {
    entry_bytes(p, p[j])->Some_0.0
}

/// Where entry `j` starts in the encoding of a closed pool: after the
/// entries before it.
pub open spec fn entry_start(p: Seq<ConstantV>, j: int) -> int
    decreases j,
{
    if j <= 0 {
        0
    } else {
        entry_start(p, j - 1) + entry_of(p, j - 1).len()
    }
}

/// In a closed pool every entry encodes against the pool itself.
proof fn lemma_closed_entry(p: Seq<ConstantV>, j: int)
    requires
        closed(p),
        0 <= j < p.len(),
    ensures
        entry_bytes(p, p[j]) == Some((entry_of(p, j), p)),
{
    assert(parts_present(p, p[j]));
    if let ConstantV::NameAndType(nt) = p[j] {
        assert(pool_add(p, ConstantV::Utf8(nt.descriptor)) == p);
    }
}

proof fn lemma_shift(e: Seq<u8>, rest: Seq<u8>, lo: int, hi: int)
    requires
        0 <= lo <= hi <= rest.len(),
    ensures
        (e + rest).subrange(lo + e.len(), hi + e.len()) == rest.subrange(lo, hi),
        (e + rest).subrange(0, e.len() as int) == e,
{
    assert((e + rest).subrange(lo + e.len(), hi + e.len()) =~= rest.subrange(lo, hi));
    assert((e + rest).subrange(0, e.len() as int) =~= e);
}

proof fn lemma_entry_start_mono(p: Seq<ConstantV>, a: int, b: int)
    requires
        0 <= a <= b,
    ensures
        entry_start(p, a) <= entry_start(p, b),
    decreases b - a,
{
    if a < b {
        lemma_entry_start_mono(p, a, b - 1);
    }
}

/// The encoding of a closed pool from entry `i` on is its entries, one
/// after the other.
#[verifier::rlimit(40)]
proof fn lemma_closed_pool_layout(p: Seq<ConstantV>, i: int)
    requires
        closed(p),
        0 <= i <= p.len(),
    ensures
        pool_bytes_from(p.len(), i as nat, p) matches Some((b, q)) && q == p && b.len() == entry_start(p, p.len() as int)
            - entry_start(p, i) && forall|j: int|
            i <= j < p.len() ==> #[trigger] b.subrange(entry_start(p, j) - entry_start(p, i), entry_start(p, j + 1)
                - entry_start(p, i)) == entry_of(p, j),
    decreases p.len() - i,
{
    if i < p.len() {
        lemma_closed_entry(p, i);
        lemma_closed_pool_layout(p, i + 1);
        let e = entry_of(p, i);
        let rest = pool_bytes_from(p.len(), (i + 1) as nat, p)->Some_0.0;
        let b = e + rest;
        assert(pool_bytes_from(p.len(), i as nat, p) == Some((b, p)));
        assert(entry_start(p, i + 1) == entry_start(p, i) + e.len());
        assert forall|j: int| i <= j < p.len() implies #[trigger] b.subrange(
            entry_start(p, j) - entry_start(p, i),
            entry_start(p, j + 1) - entry_start(p, i),
        ) == entry_of(p, j) by {
            if j == i {
                lemma_shift(e, rest, 0, 0);
            } else {
                let lo = entry_start(p, j) - entry_start(p, i + 1);
                let hi = entry_start(p, j + 1) - entry_start(p, i + 1);
                lemma_entry_start_mono(p, i + 1, j);
                lemma_entry_start_mono(p, j + 1, p.len() as int);
                assert(entry_start(p, j + 1) == entry_start(p, j) + entry_of(p, j).len());
                lemma_shift(e, rest, lo, hi);
            }
        }
    } else {
        assert(pool_bytes_from(p.len(), i as nat, p) == Some((Seq::<u8>::empty(), p)));
    }
}

proof fn lemma_entry_reads(p: Seq<ConstantV>, j: int, chunk: Seq<u8>)
    requires
        closed(p),
        p.len() < 65535,
        0 <= j < p.len(),
        chunk == entry_of(p, j),
    ensures
        entry_reads_as(p, p[j], chunk),
{
    lemma_closed_entry(p, j);
    law_entry_bytes_read_back(p, p[j]);
}

/// The encoding of a closed pool holds its entries in order, each where
/// the entries before it end, and each read back by the class file format
/// as its constant: the tag, then its contents, with every reference the
/// index of the constant it names.
pub proof fn law_pool_bytes_read_back(p: Seq<ConstantV>)
    requires
        closed(p),
        p.len() < 65535,
    ensures
        pool_bytes(p) matches Some((b, q)) ==> q == p && forall|j: int|
            0 <= j < p.len() ==> entry_reads_as(
                p,
                p[j],
                #[trigger] b.subrange(entry_start(p, j), entry_start(p, j + 1)),
            ),
{
    lemma_closed_pool_layout(p, 0);
    assert(entry_start(p, 0) == 0);
    let b = pool_bytes(p)->Some_0.0;
    assert forall|j: int| 0 <= j < p.len() implies entry_reads_as(
        p,
        p[j],
        #[trigger] b.subrange(entry_start(p, j), entry_start(p, j + 1)),
    ) by {
        assert(b.subrange(entry_start(p, j) - entry_start(p, 0), entry_start(p, j + 1) - entry_start(p, 0))
            == entry_of(p, j));
        lemma_entry_reads(p, j, b.subrange(entry_start(p, j), entry_start(p, j + 1)));
    }
}

} // verus!
