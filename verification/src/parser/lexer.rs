use vstd::prelude::*;

verus! {

/// The reserved words of the language.
#[derive(Debug, Clone, Copy, PartialEq, Eq, Structural)]
pub enum Kw {
    Class,
    While,
    If,
    Else,
    Return,
    New,
    This,
    True,
    False,
    Null,
    Int,
    Boolean,
    Char,
    String,
    Void,
}

/// A token of the source text.
#[derive(Debug)]
pub enum Token {
    /// A name that is no reserved word.
    Ident(String),
    Kw(Kw),
    Int(i32),
    Char(char),
    Str(String),
    /// Punctuation: `{ } ( ) ; , .` and the assignment `=`.
    Sym(char),
    /// An operator: `+ - * / % ! < > <= >= == != && ||`.
    Op(String),
}

pub enum TokenV {
    Ident(Seq<char>),
    Kw(Kw),
    Int(i32),
    Char(char),
    Str(Seq<char>),
    Sym(char),
    Op(Seq<char>),
}

impl View for Token {
    type V = TokenV;

    open spec fn view(&self) -> TokenV {
        match *self {
            Token::Ident(s) => TokenV::Ident(s@),
            Token::Kw(k) => TokenV::Kw(k),
            Token::Int(i) => TokenV::Int(i),
            Token::Char(c) => TokenV::Char(c),
            Token::Str(s) => TokenV::Str(s@),
            Token::Sym(c) => TokenV::Sym(c),
            Token::Op(s) => TokenV::Op(s@),
        }
    }
}

pub open spec fn tokens_view(v: Seq<Token>) -> Seq<TokenV> {
    v.map_values(|t: Token| t@)
}

pub open spec fn is_space(c: char) -> bool {
    c == ' ' || c == '\t' || c == '\n' || c == '\r'
}

pub open spec fn is_letter(c: char) -> bool {
    ('a' <= c && c <= 'z') || ('A' <= c && c <= 'Z') || c == '_'
}

pub open spec fn is_digit(c: char) -> bool {
    '0' <= c && c <= '9'
}

/// The end of the run of characters from `i` on that satisfy the
/// identifier (or, with `digits`, the digit) class.
pub open spec fn run_end(cs: Seq<char>, i: int, digits: bool) -> int
    decreases cs.len() - i,
{
    if i >= cs.len() {
        i
    } else if (digits && is_digit(cs[i])) || (!digits && (is_letter(cs[i]) || is_digit(cs[i]))) {
        run_end(cs, i + 1, digits)
    } else {
        i
    }
}

/// The value of a run of decimal digits.
pub open spec fn digits_value(ds: Seq<char>) -> int
    decreases ds.len(),
{
    if ds.len() == 0 {
        0
    } else {
        digits_value(ds.drop_last()) * 10 + (ds.last() as int - '0' as int)
    }
}

/// The position of the first `"` at or after `i`, or -1.
pub open spec fn quote_end(cs: Seq<char>, i: int) -> int
    decreases cs.len() - i,
{
    if i >= cs.len() {
        -1
    } else if cs[i] == '"' {
        i
    } else {
        quote_end(cs, i + 1)
    }
}

/// The spelling of each reserved word.
pub open spec fn kw_word(k: Kw) -> Seq<char> {
    match k {
        Kw::Class => seq!['c', 'l', 'a', 's', 's'],
        Kw::While => seq!['w', 'h', 'i', 'l', 'e'],
        Kw::If => seq!['i', 'f'],
        Kw::Else => seq!['e', 'l', 's', 'e'],
        Kw::Return => seq!['r', 'e', 't', 'u', 'r', 'n'],
        Kw::New => seq!['n', 'e', 'w'],
        Kw::This => seq!['t', 'h', 'i', 's'],
        Kw::True => seq!['t', 'r', 'u', 'e'],
        Kw::False => seq!['f', 'a', 'l', 's', 'e'],
        Kw::Null => seq!['n', 'u', 'l', 'l'],
        Kw::Int => seq!['i', 'n', 't'],
        Kw::Boolean => seq!['b', 'o', 'o', 'l', 'e', 'a', 'n'],
        Kw::Char => seq!['c', 'h', 'a', 'r'],
        Kw::String => seq!['S', 't', 'r', 'i', 'n', 'g'],
        Kw::Void => seq!['v', 'o', 'i', 'd'],
    }
}

/// The reserved word spelled `w`, if any.
pub open spec fn keyword_of(w: Seq<char>) -> Option<Kw> {
    if w == kw_word(Kw::Class) {
        Some(Kw::Class)
    } else if w == kw_word(Kw::While) {
        Some(Kw::While)
    } else if w == kw_word(Kw::If) {
        Some(Kw::If)
    } else if w == kw_word(Kw::Else) {
        Some(Kw::Else)
    } else if w == kw_word(Kw::Return) {
        Some(Kw::Return)
    } else if w == kw_word(Kw::New) {
        Some(Kw::New)
    } else if w == kw_word(Kw::This) {
        Some(Kw::This)
    } else if w == kw_word(Kw::True) {
        Some(Kw::True)
    } else if w == kw_word(Kw::False) {
        Some(Kw::False)
    } else if w == kw_word(Kw::Null) {
        Some(Kw::Null)
    } else if w == kw_word(Kw::Int) {
        Some(Kw::Int)
    } else if w == kw_word(Kw::Boolean) {
        Some(Kw::Boolean)
    } else if w == kw_word(Kw::Char) {
        Some(Kw::Char)
    } else if w == kw_word(Kw::String) {
        Some(Kw::String)
    } else if w == kw_word(Kw::Void) {
        Some(Kw::Void)
    } else {
        None
    }
}

/// The two-character operators.
pub open spec fn is_op2(a: char, b: char) -> bool {
    (a == '&' && b == '&') || (a == '|' && b == '|') || (a == '<' && b == '=') || (a == '>' && b == '=')
        || (a == '=' && b == '=') || (a == '!' && b == '=')
}

pub open spec fn is_op1(c: char) -> bool {
    c == '+' || c == '-' || c == '*' || c == '/' || c == '%' || c == '<' || c == '>' || c == '!'
}

pub open spec fn is_sym(c: char) -> bool {
    c == '{' || c == '}' || c == '(' || c == ')' || c == ';' || c == ',' || c == '.' || c == '='
}

/// The token that starts at `i` and where the next one may start, or
/// `None` where no token starts there; whitespace gives no token.
pub open spec fn next_token(cs: Seq<char>, i: int) -> Option<(Option<TokenV>, int)> {
    let c = cs[i];
    if is_space(c) {
        Some((None, i + 1))
    } else if is_letter(c) {
        let j = run_end(cs, i, false);
        let w = cs.subrange(i, j);
        match keyword_of(w) {
            Some(k) => Some((Some(TokenV::Kw(k)), j)),
            None => Some((Some(TokenV::Ident(w)), j)),
        }
    } else if is_digit(c) {
        let j = run_end(cs, i, true);
        let v = digits_value(cs.subrange(i, j));
        if v > i32::MAX {
            None
        } else {
            Some((Some(TokenV::Int(v as i32)), j))
        }
    } else if c == '\'' {
        if cs.len() - i > 2 && cs[i + 2] == '\'' {
            Some((Some(TokenV::Char(cs[i + 1])), i + 3))
        } else {
            None
        }
    } else if c == '"' {
        let j = quote_end(cs, i + 1);
        if j < 0 {
            None
        } else {
            Some((Some(TokenV::Str(cs.subrange(i + 1, j))), j + 1))
        }
    } else if i + 1 < cs.len() && is_op2(c, cs[i + 1]) {
        Some((Some(TokenV::Op(seq![c, cs[i + 1]])), i + 2))
    } else if is_op1(c) {
        Some((Some(TokenV::Op(seq![c])), i + 1))
    } else if is_sym(c) {
        Some((Some(TokenV::Sym(c)), i + 1))
    } else {
        None
    }
}

/// The tokens of `cs` from position `i` on; `None` where a character starts
/// no token.
pub open spec fn lex_from(cs: Seq<char>, i: int) -> Option<Seq<TokenV>>
    decreases cs.len() - i,
{
    if i < 0 || i >= cs.len() {
        Some(Seq::empty())
    } else {
        match next_token(cs, i) {
            Some((t, j)) => if j <= i || j > cs.len() {
                None
            } else {
                match lex_from(cs, j) {
                    Some(rest) => match t {
                        Some(tok) => Some(seq![tok] + rest),
                        None => Some(rest),
                    },
                    None => None,
                }
            },
            None => None,
        }
    }
}


/// `a` extended by what `r` holds, or `None` where `r` is `None`.
pub open spec fn prepend(a: Seq<TokenV>, r: Option<Seq<TokenV>>) -> Option<Seq<TokenV>> {
    match r {
        Some(x) => Some(a + x),
        None => None,
    }
}

pub open spec fn opt_token_view(t: Option<Token>) -> Option<TokenV> {
    match t {
        Some(tok) => Some(tok@),
        None => None,
    }
}

fn is_space_c(c: char) -> (b: bool)
    ensures
        b == is_space(c),
{
    c == ' ' || c == '\t' || c == '\n' || c == '\r'
}

fn is_letter_c(c: char) -> (b: bool)
    ensures
        b == is_letter(c),
{
    ('a' <= c && c <= 'z') || ('A' <= c && c <= 'Z') || c == '_'
}

fn is_digit_c(c: char) -> (b: bool)
    ensures
        b == is_digit(c),
{
    '0' <= c && c <= '9'
}

/// Whether the characters `cs[i..j]` spell `w`.
fn run_eq_str(cs: &Vec<char>, i: usize, j: usize, w: &str) -> (b: bool)
    requires
        i <= j <= cs.len(),
    ensures
        b == (cs@.subrange(i as int, j as int) == w@),
{
    let n = w.unicode_len();
    if j - i != n {
        assert(cs@.subrange(i as int, j as int).len() != w@.len());
        return false;
    }
    let mut k: usize = 0;
    while k < n
        invariant
            i <= j <= cs.len(),
            n == w@.len(),
            j - i == n,
            k <= n,
            forall|m: int| 0 <= m < k ==> cs@[i + m] == w@[m],
        decreases n - k,
    {
        if cs[i + k] != w.get_char(k) {
            assert(cs@.subrange(i as int, j as int)[k as int] != w@[k as int]);
            return false;
        }
        k = k + 1;
    }
    assert(cs@.subrange(i as int, j as int) =~= w@);
    true
}

/// The reserved word that `cs[i..j]` spells, if any.
fn classify(cs: &Vec<char>, i: usize, j: usize) -> (r: Option<Kw>)
    requires
        i <= j <= cs.len(),
    ensures
        r == keyword_of(cs@.subrange(i as int, j as int)),
{
    proof {
        reveal_strlit("class");
        assert("class"@ =~= kw_word(Kw::Class));
        reveal_strlit("while");
        assert("while"@ =~= kw_word(Kw::While));
        reveal_strlit("if");
        assert("if"@ =~= kw_word(Kw::If));
        reveal_strlit("else");
        assert("else"@ =~= kw_word(Kw::Else));
        reveal_strlit("return");
        assert("return"@ =~= kw_word(Kw::Return));
        reveal_strlit("new");
        assert("new"@ =~= kw_word(Kw::New));
        reveal_strlit("this");
        assert("this"@ =~= kw_word(Kw::This));
        reveal_strlit("true");
        assert("true"@ =~= kw_word(Kw::True));
        reveal_strlit("false");
        assert("false"@ =~= kw_word(Kw::False));
        reveal_strlit("null");
        assert("null"@ =~= kw_word(Kw::Null));
        reveal_strlit("int");
        assert("int"@ =~= kw_word(Kw::Int));
        reveal_strlit("boolean");
        assert("boolean"@ =~= kw_word(Kw::Boolean));
        reveal_strlit("char");
        assert("char"@ =~= kw_word(Kw::Char));
        reveal_strlit("String");
        assert("String"@ =~= kw_word(Kw::String));
        reveal_strlit("void");
        assert("void"@ =~= kw_word(Kw::Void));
    }
    if run_eq_str(cs, i, j, "class") {
        return Some(Kw::Class);
    }
    if run_eq_str(cs, i, j, "while") {
        return Some(Kw::While);
    }
    if run_eq_str(cs, i, j, "if") {
        return Some(Kw::If);
    }
    if run_eq_str(cs, i, j, "else") {
        return Some(Kw::Else);
    }
    if run_eq_str(cs, i, j, "return") {
        return Some(Kw::Return);
    }
    if run_eq_str(cs, i, j, "new") {
        return Some(Kw::New);
    }
    if run_eq_str(cs, i, j, "this") {
        return Some(Kw::This);
    }
    if run_eq_str(cs, i, j, "true") {
        return Some(Kw::True);
    }
    if run_eq_str(cs, i, j, "false") {
        return Some(Kw::False);
    }
    if run_eq_str(cs, i, j, "null") {
        return Some(Kw::Null);
    }
    if run_eq_str(cs, i, j, "int") {
        return Some(Kw::Int);
    }
    if run_eq_str(cs, i, j, "boolean") {
        return Some(Kw::Boolean);
    }
    if run_eq_str(cs, i, j, "char") {
        return Some(Kw::Char);
    }
    if run_eq_str(cs, i, j, "String") {
        return Some(Kw::String);
    }
    if run_eq_str(cs, i, j, "void") {
        return Some(Kw::Void);
    }
    None
}

/// The end of the run of identifier (or digit) characters that starts at
/// `i`, whose first character is of that class.
fn run_end_exec(cs: &Vec<char>, i: usize, digits: bool) -> (j: usize)
    requires
        i < cs.len(),
        (digits && is_digit(cs@[i as int])) || (!digits && (is_letter(cs@[i as int]) || is_digit(
            cs@[i as int],
        ))),
    ensures
        j as int == run_end(cs@, i as int, digits),
        i < j <= cs.len(),
{
    let mut j: usize = i + 1;
    while j < cs.len()
        invariant
            i < j <= cs.len(),
            run_end(cs@, i as int, digits) == run_end(cs@, j as int, digits),
        decreases cs.len() - j,
    {
        let c = cs[j];
        let more = if digits {
            is_digit_c(c)
        } else {
            is_letter_c(c) || is_digit_c(c)
        };
        if !more {
            return j;
        }
        j = j + 1;
    }
    j
}

/// The value of the digits `cs[i..j]`, or `i32::MAX + 1` where it is larger.
fn digits_value_capped(cs: &Vec<char>, i: usize, j: usize) -> (v: u64)
    requires
        i <= j <= cs.len(),
        forall|m: int| i <= m < j ==> is_digit(#[trigger] cs@[m]),
    ensures
        v as int == if digits_value(cs@.subrange(i as int, j as int)) > i32::MAX {
            i32::MAX + 1
        } else {
            digits_value(cs@.subrange(i as int, j as int))
        },
{
    let mut v: u64 = 0;
    let mut k: usize = i;
    assert(cs@.subrange(i as int, i as int).len() == 0);
    while k < j
        invariant
            i <= k <= j <= cs.len(),
            forall|m: int| i <= m < j ==> is_digit(#[trigger] cs@[m]),
            v as int == if digits_value(cs@.subrange(i as int, k as int)) > i32::MAX {
                i32::MAX + 1
            } else {
                digits_value(cs@.subrange(i as int, k as int))
            },
        decreases j - k,
    {
        let ghost prev = digits_value(cs@.subrange(i as int, k as int));
        let c = cs[k];
        assert(is_digit(cs@[k as int]));
        let d: u64 = (c as u32 - '0' as u32) as u64;
        assert(cs@.subrange(i as int, k as int + 1).drop_last() =~= cs@.subrange(i as int, k as int));
        assert(digits_value(cs@.subrange(i as int, k as int + 1)) == prev * 10 + d);
        if v > 2147483647 {
            assert(prev * 10 + d >= prev) by (nonlinear_arith)
                requires
                    prev >= 0,
                    d >= 0,
            ;
        } else {
            v = v * 10 + d;
            if v > 2147483647 {
                v = 2147483648;
            }
        }
        k = k + 1;
    }
    v
}

/// The position of the first `"` at or after `i`.
fn quote_end_exec(cs: &Vec<char>, i: usize) -> (r: Option<usize>)
    requires
        i <= cs.len(),
    ensures
        match r {
            Some(j) => quote_end(cs@, i as int) == j && i <= j < cs.len(),
            None => quote_end(cs@, i as int) == -1,
        },
{
    let mut j: usize = i;
    while j < cs.len()
        invariant
            i <= j <= cs.len(),
            quote_end(cs@, i as int) == quote_end(cs@, j as int),
        decreases cs.len() - j,
    {
        if cs[j] == '"' {
            return Some(j);
        }
        j = j + 1;
    }
    None
}

fn is_op2_c(a: char, b: char) -> (r: bool)
    ensures
        r == is_op2(a, b),
{
    (a == '&' && b == '&') || (a == '|' && b == '|') || (a == '<' && b == '=') || (a == '>' && b == '=')
        || (a == '=' && b == '=') || (a == '!' && b == '=')
}

fn is_op1_c(c: char) -> (r: bool)
    ensures
        r == is_op1(c),
{
    c == '+' || c == '-' || c == '*' || c == '/' || c == '%' || c == '<' || c == '>' || c == '!'
}

fn is_sym_c(c: char) -> (r: bool)
    ensures
        r == is_sym(c),
{
    c == '{' || c == '}' || c == '(' || c == ')' || c == ';' || c == ',' || c == '.' || c == '='
}

/// The token that starts at `i` of the text `src`, whose characters are `cs`.
fn next_tok(src: &str, cs: &Vec<char>, i: usize) -> (r: Option<(Option<Token>, usize)>)
    requires
        cs@ == src@,
        i < cs.len(),
    ensures
        match r {
            Some((t, j)) => next_token(cs@, i as int) == Some((opt_token_view(t), j as int)) && i < j
                <= cs.len(),
            None => next_token(cs@, i as int) is None,
        },
{
    let c = cs[i];
    if is_space_c(c) {
        Some((None, i + 1))
    } else if is_letter_c(c) {
        let j = run_end_exec(cs, i, false);
        match classify(cs, i, j) {
            Some(k) => Some((Some(Token::Kw(k)), j)),
            None => {
                let w = src.substring_char(i, j).to_owned();
                Some((Some(Token::Ident(w)), j))
            },
        }
    } else if is_digit_c(c) {
        let j = run_end_exec(cs, i, true);
        proof {
            lemma_run_all(cs@, i as int, true);
        }
        let v = digits_value_capped(cs, i, j);
        if v > 2147483647 {
            None
        } else {
            Some((Some(Token::Int(v as i32)), j))
        }
    } else if c == '\'' {
        if cs.len() - i > 2 && cs[i + 2] == '\'' {
            Some((Some(Token::Char(cs[i + 1])), i + 3))
        } else {
            None
        }
    } else if c == '"' {
        match quote_end_exec(cs, i + 1) {
            Some(j) => {
                let w = src.substring_char(i + 1, j).to_owned();
                Some((Some(Token::Str(w)), j + 1))
            },
            None => None,
        }
    } else if i + 1 < cs.len() && is_op2_c(c, cs[i + 1]) {
        let w = src.substring_char(i, i + 2).to_owned();
        assert(w@ =~= seq![c, cs@[i + 1]]);
        Some((Some(Token::Op(w)), i + 2))
    } else if is_op1_c(c) {
        let w = src.substring_char(i, i + 1).to_owned();
        assert(w@ =~= seq![c]);
        Some((Some(Token::Op(w)), i + 1))
    } else if is_sym_c(c) {
        Some((Some(Token::Sym(c)), i + 1))
    } else {
        None
    }
}

/// Every character of a digit run is a digit.
proof fn lemma_run_all(cs: Seq<char>, i: int, digits: bool)
    requires
        0 <= i,
    ensures
        digits ==> forall|m: int| i <= m < run_end(cs, i, digits) ==> is_digit(#[trigger] cs[m]),
        i <= run_end(cs, i, digits),
    decreases cs.len() - i,
{
    if i < cs.len() && ((digits && is_digit(cs[i])) || (!digits && (is_letter(cs[i]) || is_digit(cs[i])))) {
        lemma_run_all(cs, i + 1, digits);
    }
}

/// The tokens of `src`, or `None` where a character starts no token (a
/// stray character, an unclosed literal or a number beyond `i32`).
pub fn lex(src: &str) -> (r: Option<Vec<Token>>)
    ensures
        match r {
            Some(ts) => lex_from(src@, 0) == Some(tokens_view(ts@)),
            None => lex_from(src@, 0) is None,
        },
{
    let n = src.unicode_len();
    let mut cs: Vec<char> = Vec::new();
    let mut k: usize = 0;
    while k < n
        invariant
            n == src@.len(),
            k <= n,
            cs@ == src@.subrange(0, k as int),
        decreases n - k,
    {
        cs.push(src.get_char(k));
        k = k + 1;
        assert(cs@ =~= src@.subrange(0, k as int));
    }
    assert(cs@ =~= src@);
    let mut out: Vec<Token> = Vec::new();
    let mut i: usize = 0;
    assert(tokens_view(out@) =~= Seq::<TokenV>::empty());
    assert(prepend(Seq::empty(), lex_from(cs@, 0)) == lex_from(cs@, 0)) by {
        match lex_from(cs@, 0) {
            Some(x) => assert(Seq::<TokenV>::empty() + x =~= x),
            None => {},
        }
    }
    while i < n
        invariant
            n == cs.len(),
            cs@ == src@,
            i <= n,
            lex_from(cs@, 0) == prepend(tokens_view(out@), lex_from(cs@, i as int)),
        decreases n - i,
    {
        match next_tok(src, &cs, i) {
            None => {
                return None;
            },
            Some((t, j)) => {
                let ghost before = tokens_view(out@);
                let ghost tv = opt_token_view(t);
                match t {
                    Some(tok) => {
                        out.push(tok);
                        proof {
                            assert(tokens_view(out@) =~= before.push(tv->0));
                            match lex_from(cs@, j as int) {
                                Some(x) => assert(before + (seq![tv->0] + x) =~= before.push(tv->0)
                                    + x),
                                None => {},
                            }
                        }
                    },
                    None => {},
                }
                i = j;
            },
        }
    }
    assert(prepend(tokens_view(out@), Some(Seq::<TokenV>::empty())) == Some(tokens_view(out@))) by {
        assert(tokens_view(out@) + Seq::<TokenV>::empty() =~= tokens_view(out@));
    }
    Some(out)
}

} // verus!
