use vstd::prelude::*;
use vstd::string::StringExecFns;
use crate::types::{
    BinaryOp, Class, ClassV, FieldDeclV, MethodDeclV, Type, TypeV, UnaryOp, binary_op_of,
    unary_op_of,
};

verus! {

// How types, operators and classes are written out.

/// The source name of a type.
pub open spec fn type_text(t: TypeV) -> Seq<char> {
    match t {
        TypeV::Int => seq!['i', 'n', 't'],
        TypeV::Bool => seq!['b', 'o', 'o', 'l', 'e', 'a', 'n'],
        TypeV::Char => seq!['c', 'h', 'a', 'r'],
        TypeV::String => seq!['S', 't', 'r', 'i', 'n', 'g'],
        TypeV::Void => seq!['v', 'o', 'i', 'd'],
        TypeV::Null => seq!['n', 'u', 'l', 'l'],
        TypeV::Class(n) => n,
    }
}

/// The source symbol of a unary operator.
pub open spec fn unary_op_text(op: UnaryOp) -> Seq<char> {
    match op {
        UnaryOp::Pos => seq!['+'],
        UnaryOp::Neg => seq!['-'],
        UnaryOp::Not => seq!['!'],
    }
}

/// The source symbol of a binary operator.
pub open spec fn binary_op_text(op: BinaryOp) -> Seq<char> {
    match op {
        BinaryOp::Add => seq!['+'],
        BinaryOp::Sub => seq!['-'],
        BinaryOp::Mul => seq!['*'],
        BinaryOp::Div => seq!['/'],
        BinaryOp::Mod => seq!['%'],
        BinaryOp::And => seq!['&', '&'],
        BinaryOp::Or => seq!['|', '|'],
        BinaryOp::Le => seq!['<', '='],
        BinaryOp::Ge => seq!['>', '='],
        BinaryOp::Lt => seq!['<'],
        BinaryOp::Gt => seq!['>'],
        BinaryOp::Eq => seq!['=', '='],
        BinaryOp::Ne => seq!['!', '='],
    }
}

pub open spec fn sep() -> Seq<char> {
    seq![':', ' ']
}

pub open spec fn comma() -> Seq<char> {
    seq![',', ' ']
}

/// `name: type, ` for each field, in order.
pub open spec fn fields_text(fs: Seq<FieldDeclV>) -> Seq<char>
    decreases fs.len(),
{
    if fs.len() == 0 {
        Seq::empty()
    } else {
        fields_text(fs.drop_last()) + fs.last().name + sep() + type_text(fs.last().field_type)
            + comma()
    }
}

/// `name: return type, ` for each method, in order.
pub open spec fn methods_text(ms: Seq<MethodDeclV>) -> Seq<char>
    decreases ms.len(),
{
    if ms.len() == 0 {
        Seq::empty()
    } else {
        methods_text(ms.drop_last()) + ms.last().name + sep() + type_text(ms.last().ret_type)
            + comma()
    }
}

pub open spec fn class_head() -> Seq<char> {
    seq!['c', 'l', 'a', 's', 's', ' ']
}

pub open spec fn fields_head() -> Seq<char> {
    seq![' ', '{', '\n', '\t', 'f', 'i', 'e', 'l', 'd', 's', ':', ' ']
}

pub open spec fn methods_head() -> Seq<char> {
    seq!['\n', '\t', 'm', 'e', 't', 'h', 'o', 'd', 's', ':', ' ']
}

pub open spec fn class_tail() -> Seq<char> {
    seq!['\n', '}']
}

/// The summary of a class: its name, its fields with their types and its
/// methods with their return types.
pub open spec fn class_text(c: ClassV) -> Seq<char> {
    class_head() + c.name + fields_head() + fields_text(c.fields) + methods_head() + methods_text(
        c.methods,
    ) + class_tail()
}

/// Reading the symbol of a unary operator gives the operator back.
pub proof fn law_unary_op_text(op: UnaryOp)
    ensures
        unary_op_of(unary_op_text(op)) == Some(op),
{
    lemma_symbols_distinct();
}

/// Reading the symbol of a binary operator gives the operator back.
pub proof fn law_binary_op_text(op: BinaryOp)
    ensures
        binary_op_of(binary_op_text(op)) == Some(op),
{
    lemma_symbols_distinct();
}

/// The operator symbols are told apart by their characters.
proof fn lemma_symbols_distinct()
    ensures
        seq!['+'] != seq!['-'],
        seq!['+'] != seq!['*'],
        seq!['+'] != seq!['/'],
        seq!['+'] != seq!['%'],
        seq!['+'] != seq!['<'],
        seq!['+'] != seq!['>'],
        seq!['+'] != seq!['!'],
        seq!['+'] != seq!['&', '&'],
        seq!['+'] != seq!['|', '|'],
        seq!['+'] != seq!['<', '='],
        seq!['+'] != seq!['>', '='],
        seq!['+'] != seq!['=', '='],
        seq!['+'] != seq!['!', '='],
        seq!['-'] != seq!['*'],
        seq!['-'] != seq!['/'],
        seq!['-'] != seq!['%'],
        seq!['-'] != seq!['<'],
        seq!['-'] != seq!['>'],
        seq!['-'] != seq!['!'],
        seq!['-'] != seq!['&', '&'],
        seq!['-'] != seq!['|', '|'],
        seq!['-'] != seq!['<', '='],
        seq!['-'] != seq!['>', '='],
        seq!['-'] != seq!['=', '='],
        seq!['-'] != seq!['!', '='],
        seq!['*'] != seq!['/'],
        seq!['*'] != seq!['%'],
        seq!['*'] != seq!['<'],
        seq!['*'] != seq!['>'],
        seq!['*'] != seq!['!'],
        seq!['*'] != seq!['&', '&'],
        seq!['*'] != seq!['|', '|'],
        seq!['*'] != seq!['<', '='],
        seq!['*'] != seq!['>', '='],
        seq!['*'] != seq!['=', '='],
        seq!['*'] != seq!['!', '='],
        seq!['/'] != seq!['%'],
        seq!['/'] != seq!['<'],
        seq!['/'] != seq!['>'],
        seq!['/'] != seq!['!'],
        seq!['/'] != seq!['&', '&'],
        seq!['/'] != seq!['|', '|'],
        seq!['/'] != seq!['<', '='],
        seq!['/'] != seq!['>', '='],
        seq!['/'] != seq!['=', '='],
        seq!['/'] != seq!['!', '='],
        seq!['%'] != seq!['<'],
        seq!['%'] != seq!['>'],
        seq!['%'] != seq!['!'],
        seq!['%'] != seq!['&', '&'],
        seq!['%'] != seq!['|', '|'],
        seq!['%'] != seq!['<', '='],
        seq!['%'] != seq!['>', '='],
        seq!['%'] != seq!['=', '='],
        seq!['%'] != seq!['!', '='],
        seq!['<'] != seq!['>'],
        seq!['<'] != seq!['!'],
        seq!['<'] != seq!['&', '&'],
        seq!['<'] != seq!['|', '|'],
        seq!['<'] != seq!['<', '='],
        seq!['<'] != seq!['>', '='],
        seq!['<'] != seq!['=', '='],
        seq!['<'] != seq!['!', '='],
        seq!['>'] != seq!['!'],
        seq!['>'] != seq!['&', '&'],
        seq!['>'] != seq!['|', '|'],
        seq!['>'] != seq!['<', '='],
        seq!['>'] != seq!['>', '='],
        seq!['>'] != seq!['=', '='],
        seq!['>'] != seq!['!', '='],
        seq!['!'] != seq!['&', '&'],
        seq!['!'] != seq!['|', '|'],
        seq!['!'] != seq!['<', '='],
        seq!['!'] != seq!['>', '='],
        seq!['!'] != seq!['=', '='],
        seq!['!'] != seq!['!', '='],
        seq!['&', '&'] != seq!['|', '|'],
        seq!['&', '&'] != seq!['<', '='],
        seq!['&', '&'] != seq!['>', '='],
        seq!['&', '&'] != seq!['=', '='],
        seq!['&', '&'] != seq!['!', '='],
        seq!['|', '|'] != seq!['<', '='],
        seq!['|', '|'] != seq!['>', '='],
        seq!['|', '|'] != seq!['=', '='],
        seq!['|', '|'] != seq!['!', '='],
        seq!['<', '='] != seq!['>', '='],
        seq!['<', '='] != seq!['=', '='],
        seq!['<', '='] != seq!['!', '='],
        seq!['>', '='] != seq!['=', '='],
        seq!['>', '='] != seq!['!', '='],
        seq!['=', '='] != seq!['!', '='],
{
    assert(seq!['+'][0] == '+');
    assert(seq!['-'][0] == '-');
    assert(seq!['*'][0] == '*');
    assert(seq!['/'][0] == '/');
    assert(seq!['%'][0] == '%');
    assert(seq!['<'][0] == '<');
    assert(seq!['<'].len() == 1 && seq!['<', '='].len() == 2);
    assert(seq!['!'].len() == 1 && seq!['!', '='].len() == 2);
    assert(seq!['>'].len() == 1 && seq!['>', '='].len() == 2);
    assert(seq!['>'][0] == '>');
    assert(seq!['!'][0] == '!');
    assert(seq!['&', '&'][0] == '&' && seq!['&', '&'][1] == '&');
    assert(seq!['|', '|'][0] == '|' && seq!['|', '|'][1] == '|');
    assert(seq!['<', '='][0] == '<' && seq!['<', '='][1] == '=');
    assert(seq!['>', '='][0] == '>' && seq!['>', '='][1] == '=');
    assert(seq!['=', '='][0] == '=' && seq!['=', '='][1] == '=');
    assert(seq!['!', '='][0] == '!' && seq!['!', '='][1] == '=');
}

impl Type {
    /// The source name of the type.
    pub fn to_source(&self) -> (r: String)
        ensures
            r@ == type_text(self@),
    {
        match self {
            Type::Int => {
                proof {
                    reveal_strlit("int");
                }
                assert("int"@ =~= type_text(TypeV::Int));
                "int".to_owned()
            },
            Type::Bool => {
                proof {
                    reveal_strlit("boolean");
                }
                assert("boolean"@ =~= type_text(TypeV::Bool));
                "boolean".to_owned()
            },
            Type::Char => {
                proof {
                    reveal_strlit("char");
                }
                assert("char"@ =~= type_text(TypeV::Char));
                "char".to_owned()
            },
            Type::String => {
                proof {
                    reveal_strlit("String");
                }
                assert("String"@ =~= type_text(TypeV::String));
                "String".to_owned()
            },
            Type::Void => {
                proof {
                    reveal_strlit("void");
                }
                assert("void"@ =~= type_text(TypeV::Void));
                "void".to_owned()
            },
            Type::Null => {
                proof {
                    reveal_strlit("null");
                }
                assert("null"@ =~= type_text(TypeV::Null));
                "null".to_owned()
            },
            Type::Class(n) => n.clone(),
        }
    }
}

impl UnaryOp {
    /// The source symbol of the operator.
    pub fn to_source(&self) -> (r: String)
        ensures
            r@ == unary_op_text(*self),
    {
        proof {
            reveal_strlit("+");
            reveal_strlit("-");
            reveal_strlit("!");
        }
        match self {
            UnaryOp::Pos => {
                assert("+"@ =~= seq!['+']);
                "+".to_owned()
            },
            UnaryOp::Neg => {
                assert("-"@ =~= seq!['-']);
                "-".to_owned()
            },
            UnaryOp::Not => {
                assert("!"@ =~= seq!['!']);
                "!".to_owned()
            },
        }
    }
}

impl BinaryOp {
    /// The source symbol of the operator.
    pub fn to_source(&self) -> (r: String)
        ensures
            r@ == binary_op_text(*self),
    {
        let s: &str = match self {
            BinaryOp::Add => {
                proof { reveal_strlit("+"); }
                assert("+"@ =~= binary_op_text(*self));
                "+"
            },
            BinaryOp::Sub => {
                proof { reveal_strlit("-"); }
                assert("-"@ =~= binary_op_text(*self));
                "-"
            },
            BinaryOp::Mul => {
                proof { reveal_strlit("*"); }
                assert("*"@ =~= binary_op_text(*self));
                "*"
            },
            BinaryOp::Div => {
                proof { reveal_strlit("/"); }
                assert("/"@ =~= binary_op_text(*self));
                "/"
            },
            BinaryOp::Mod => {
                proof { reveal_strlit("%"); }
                assert("%"@ =~= binary_op_text(*self));
                "%"
            },
            BinaryOp::And => {
                proof { reveal_strlit("&&"); }
                assert("&&"@ =~= binary_op_text(*self));
                "&&"
            },
            BinaryOp::Or => {
                proof { reveal_strlit("||"); }
                assert("||"@ =~= binary_op_text(*self));
                "||"
            },
            BinaryOp::Le => {
                proof { reveal_strlit("<="); }
                assert("<="@ =~= binary_op_text(*self));
                "<="
            },
            BinaryOp::Ge => {
                proof { reveal_strlit(">="); }
                assert(">="@ =~= binary_op_text(*self));
                ">="
            },
            BinaryOp::Lt => {
                proof { reveal_strlit("<"); }
                assert("<"@ =~= binary_op_text(*self));
                "<"
            },
            BinaryOp::Gt => {
                proof { reveal_strlit(">"); }
                assert(">"@ =~= binary_op_text(*self));
                ">"
            },
            BinaryOp::Eq => {
                proof { reveal_strlit("=="); }
                assert("=="@ =~= binary_op_text(*self));
                "=="
            },
            BinaryOp::Ne => {
                proof { reveal_strlit("!="); }
                assert("!="@ =~= binary_op_text(*self));
                "!="
            },
        };
        s.to_owned()
    }
}

impl Class {
    /// A summary of the class: its name, then each field with its type and
    /// each method with its return type.
    pub fn summary(&self) -> (r: String)
        ensures
            r@ == class_text(self@),
    {
        proof {
            reveal_strlit("class ");
            reveal_strlit(" {\n\tfields: ");
            reveal_strlit("\n\tmethods: ");
            reveal_strlit("\n}");
            reveal_strlit(": ");
            reveal_strlit(", ");
        }
        assert("class "@ =~= class_head());
        assert(" {\n\tfields: "@ =~= fields_head());
        assert("\n\tmethods: "@ =~= methods_head());
        assert("\n}"@ =~= class_tail());
        assert(": "@ =~= sep());
        assert(", "@ =~= comma());
        let mut out = "class ".to_owned();
        out.append(self.name.as_str());
        out.append(" {\n\tfields: ");
        let ghost start = out@;
        let mut i: usize = 0;
        while i < self.fields.len()
            invariant
                i <= self.fields@.len(),
                ": "@ == sep(),
                ", "@ == comma(),
                out@ == start + fields_text(self@.fields.take(i as int)),
            decreases self.fields@.len() - i,
        {
            let f = &self.fields[i];
            out.append(f.name.as_str());
            out.append(": ");
            let t = f.field_type.to_source();
            out.append(t.as_str());
            out.append(", ");
            proof {
                let fs = self@.fields.take(i as int + 1);
                assert(fs.drop_last() =~= self@.fields.take(i as int));
                assert(fs.last() == self@.fields[i as int]);
            }
            i = i + 1;
        }
        assert(self@.fields.take(self.fields@.len() as int) =~= self@.fields);
        out.append("\n\tmethods: ");
        let ghost mid = out@;
        let mut k: usize = 0;
        while k < self.methods.len()
            invariant
                k <= self.methods@.len(),
                ": "@ == sep(),
                ", "@ == comma(),
                out@ == mid + methods_text(self@.methods.take(k as int)),
            decreases self.methods@.len() - k,
        {
            let m = &self.methods[k];
            out.append(m.name.as_str());
            out.append(": ");
            let t = m.ret_type.to_source();
            out.append(t.as_str());
            out.append(", ");
            proof {
                let ms = self@.methods.take(k as int + 1);
                assert(ms.drop_last() =~= self@.methods.take(k as int));
                assert(ms.last() == self@.methods[k as int]);
            }
            k = k + 1;
        }
        assert(self@.methods.take(self.methods@.len() as int) =~= self@.methods);
        out.append("\n}");
        assert(out@ =~= class_text(self@));
        out
    }
}

} // verus!
