use vstd::prelude::*;

verus! {

/// The built-in (native) functions that the root environment offers.
/// Each variant is pure code; its behaviour is given by `spec` functions
/// next to the implementation.
#[derive(Clone, Copy, Debug, PartialEq, Eq)]
pub enum Functions {
    Add,
    Subtract,
    Times,
    IntDivide,
    Equal,
    LessThan,
    LessThanOrEqual,
    GreaterThan,
    GreaterThanOrEqual,
    Prn,
    Println,
    PrStr,
    Str,
    List,
    IsList,
    IsEmpty,
    Count,
    ReadString,
    AtomNew,
    IsAtom,
    Deref,
    Reset,
    Swap,
    Throw,
    Apply,
    IsSymbol,
    Cons,
    Concat,
    First,
    Rest,
    Nth,
    Eval,
}

/// A handle to one mutable reference cell; the cell's contents live in the
/// interpreter's atom store, so the handle itself is just an index.
#[derive(Clone, Copy, Debug, PartialEq, Eq)]
pub struct Atom(pub usize);

/// A closure: unevaluated body, parameter symbols, the environment it
/// captured (as an index into the environment arena), and whether it is a
/// macro.
pub struct InnerFunction {
    pub ast: MalType,
    pub params: Vec<MalType>,
    pub env: usize,
    pub is_macro: bool,
}

/// A runtime value: the tagged union every part of the evaluator works on.
pub enum MalType {
    Nil,
    Bool(bool),
    Integer(i64),
    Symbol(Vec<char>),
    Str(Vec<char>),
    List(Vec<MalType>),
    Vector(Vec<MalType>),
    HashMap(Vec<(MalType, MalType)>),
    Function(Functions),
    NonNativeFunction(Box<InnerFunction>),
    Atom(Atom),
}

/// The mathematical model of a runtime value, used by every contract.
#[verifier::ext_equal]
pub enum Val {
    Nil,
    Bool(bool),
    Int(int),
    Sym(Seq<char>),
    Str(Seq<char>),
    List(Seq<Val>),
    Vector(Seq<Val>),
    HashMap(Seq<(Val, Val)>),
    Native(Functions),
    Closure(SpecClosure),
    Atom(int),
}

/// Model of a closure.
#[verifier::ext_equal]
pub struct SpecClosure {
    pub ast: Box<Val>,
    pub params: Seq<Val>,
    pub env: int,
    pub is_macro: bool,
}

/// Model of one value.
pub open spec fn view_val(v: MalType) -> Val
    decreases v,
{
    match v {
        MalType::Nil => Val::Nil,
        MalType::Bool(b) => Val::Bool(b),
        MalType::Integer(i) => Val::Int(i as int),
        MalType::Symbol(s) => Val::Sym(s@),
        MalType::Str(s) => Val::Str(s@),
        MalType::List(es) => Val::List(view_vec(es)),
        MalType::Vector(es) => Val::Vector(view_vec(es)),
        MalType::HashMap(ps) => Val::HashMap(view_pair_vec(ps)),
        MalType::Function(f) => Val::Native(f),
        MalType::NonNativeFunction(c) => Val::Closure(SpecClosure {
            ast: Box::new(view_val(c.ast)),
            params: view_vec(c.params),
            env: c.env as int,
            is_macro: c.is_macro,
        }),
        MalType::Atom(a) => Val::Atom(a.0 as int),
    }
}

/// Model of a vector of values.
pub open spec fn view_vec(es: Vec<MalType>) -> Seq<Val>
    decreases es,
{
    view_seq(es@)
}

/// Model of a sequence of values.
pub open spec fn view_seq(s: Seq<MalType>) -> Seq<Val>
    decreases s,
{
    if s.len() == 0 {
        Seq::empty()
    } else {
        seq![view_val(s[0])] + view_seq(s.subrange(1, s.len() as int))
    }
}

/// `view_seq` maps the model of each element, index by index.
pub broadcast proof fn lemma_view_seq(s: Seq<MalType>)
    ensures
        (#[trigger] view_seq(s)).len() == s.len(),
        forall|i: int| 0 <= i < s.len() ==> view_seq(s)[i] == view_val(s[i]),
    decreases s.len(),
{
    if s.len() > 0 {
        lemma_view_seq(s.subrange(1, s.len() as int));
        assert forall|i: int| 0 <= i < s.len() implies view_seq(s)[i] == view_val(s[i]) by {
            if i > 0 {
                assert(s.subrange(1, s.len() as int)[i - 1] == s[i]);
            }
        }
    }
}

/// Model of a vector of key/value pairs.
pub open spec fn view_pair_vec(ps: Vec<(MalType, MalType)>) -> Seq<(Val, Val)>
    decreases ps,
{
    view_pair_seq(ps@)
}

/// Model of a sequence of key/value pairs.
pub open spec fn view_pair_seq(s: Seq<(MalType, MalType)>) -> Seq<(Val, Val)>
    decreases s,
{
    if s.len() == 0 {
        Seq::empty()
    } else {
        seq![(view_val(s[0].0), view_val(s[0].1))] + view_pair_seq(s.subrange(1, s.len() as int))
    }
}

/// `view_pair_seq` maps the model of each pair, index by index.
pub broadcast proof fn lemma_view_pair_seq(s: Seq<(MalType, MalType)>)
    ensures
        (#[trigger] view_pair_seq(s)).len() == s.len(),
        forall|i: int| 0 <= i < s.len() ==> view_pair_seq(s)[i] == (
            view_val(s[i].0),
            view_val(s[i].1),
        ),
    decreases s.len(),
{
    if s.len() > 0 {
        lemma_view_pair_seq(s.subrange(1, s.len() as int));
        assert forall|i: int| 0 <= i < s.len() implies view_pair_seq(s)[i] == (
            view_val(s[i].0),
            view_val(s[i].1),
        ) by {
            if i > 0 {
                assert(s.subrange(1, s.len() as int)[i - 1] == s[i]);
            }
        }
    }
}

impl View for MalType {
    type V = Val;

    open spec fn view(&self) -> Val {
        view_val(*self)
    }
}

/// A parse failure, raised only by the reader.
pub enum ParseError {
    NoClosingParen(char),
    InvalidNum(Vec<char>),
    MissingValue(MalType),
}

/// An evaluation failure.  `Thrown` carries a payload raised by the `throw`
/// native; `try*`/`catch*` is the only in-language recovery point.
pub enum EvalError {
    InvalidHashKey(MalType),
    InvalidType(Vec<char>, Vec<char>),
    WrongArgAmount,
    SymbolNotFound(Vec<char>),
    NotAFunction(MalType),
    Thrown(MalType),
    ParseFailed(ParseError),
    InvalidFile(Vec<char>),
}

pub type ParseResult = Result<MalType, ParseError>;

pub type EvalResult = Result<MalType, EvalError>;

pub type MidResult<T> = Result<T, EvalError>;

/// Model of a parse failure.
#[verifier::ext_equal]
pub enum ParseErrVal {
    NoClosingParen(char),
    InvalidNum(Seq<char>),
    MissingValue(Val),
}

/// Model of an evaluation failure.
#[verifier::ext_equal]
pub enum ErrVal {
    InvalidHashKey(Val),
    InvalidType(Seq<char>, Seq<char>),
    WrongArgAmount,
    SymbolNotFound(Seq<char>),
    NotAFunction(Val),
    Thrown(Val),
    ParseFailed(ParseErrVal),
    InvalidFile(Seq<char>),
}

impl View for ParseError {
    type V = ParseErrVal;

    open spec fn view(&self) -> ParseErrVal {
        match self {
            ParseError::NoClosingParen(c) => ParseErrVal::NoClosingParen(*c),
            ParseError::InvalidNum(s) => ParseErrVal::InvalidNum(s@),
            ParseError::MissingValue(m) => ParseErrVal::MissingValue(m@),
        }
    }
}

impl View for EvalError {
    type V = ErrVal;

    open spec fn view(&self) -> ErrVal {
        match self {
            EvalError::InvalidHashKey(m) => ErrVal::InvalidHashKey(m@),
            EvalError::InvalidType(e, a) => ErrVal::InvalidType(e@, a@),
            EvalError::WrongArgAmount => ErrVal::WrongArgAmount,
            EvalError::SymbolNotFound(s) => ErrVal::SymbolNotFound(s@),
            EvalError::NotAFunction(m) => ErrVal::NotAFunction(m@),
            EvalError::Thrown(m) => ErrVal::Thrown(m@),
            EvalError::ParseFailed(p) => ErrVal::ParseFailed(p@),
            EvalError::InvalidFile(s) => ErrVal::InvalidFile(s@),
        }
    }
}

/// Every value but `false` and `nil` counts as true in a condition,
/// including `0` and the empty list.
pub open spec fn truthy(v: Val) -> bool {
    !(v == Val::Nil || v == Val::Bool(false))
}

/// The name of a value's kind, as used in error messages.
pub open spec fn kind_name(v: Val) -> Seq<char> {
    match v {
        Val::Nil => "nil"@,
        Val::Bool(_) => "bool"@,
        Val::Int(_) => "int"@,
        Val::Sym(_) => "symbol"@,
        Val::Str(_) => "string"@,
        Val::List(_) => "list"@,
        Val::Vector(_) => "vector"@,
        Val::HashMap(_) => "hash-map"@,
        Val::Native(_) => "function"@,
        Val::Closure(_) => "function"@,
        Val::Atom(_) => "atom"@,
    }
}

/// Whether a value contains no function and no atom anywhere.  Functions
/// and atoms carry identity: they are never hashable and never equal to
/// anything.
pub open spec fn fn_atom_free(v: Val) -> bool
    decreases v,
{
    match v {
        Val::Native(_) => false,
        Val::Closure(_) => false,
        Val::Atom(_) => false,
        Val::List(es) => fn_atom_free_seq(es),
        Val::Vector(es) => fn_atom_free_seq(es),
        Val::HashMap(ps) => fn_atom_free_pairs(ps),
        _ => true,
    }
}

pub open spec fn fn_atom_free_seq(s: Seq<Val>) -> bool
    decreases s,
{
    s.len() == 0 || (fn_atom_free(s[0]) && fn_atom_free_seq(s.subrange(1, s.len() as int)))
}

pub open spec fn fn_atom_free_pairs(s: Seq<(Val, Val)>) -> bool
    decreases s,
{
    s.len() == 0 || (fn_atom_free(s[0].0) && fn_atom_free(s[0].1) && fn_atom_free_pairs(
        s.subrange(1, s.len() as int),
    ))
}

pub broadcast proof fn lemma_fn_atom_free_seq(s: Seq<Val>)
    ensures
        #[trigger] fn_atom_free_seq(s) <==> (forall|i: int|
            0 <= i < s.len() ==> fn_atom_free(s[i])),
    decreases s.len(),
{
    if s.len() > 0 {
        lemma_fn_atom_free_seq(s.subrange(1, s.len() as int));
        assert(forall|i: int|
            1 <= i < s.len() ==> s.subrange(1, s.len() as int)[i - 1] == s[i]);
        if fn_atom_free(s[0]) && fn_atom_free_seq(s.subrange(1, s.len() as int)) {
            assert forall|i: int| 0 <= i < s.len() implies fn_atom_free(s[i]) by {
                if i > 0 {
                    assert(fn_atom_free(s.subrange(1, s.len() as int)[i - 1]));
                }
            }
        }
    }
}

pub broadcast proof fn lemma_fn_atom_free_pairs(s: Seq<(Val, Val)>)
    ensures
        #[trigger] fn_atom_free_pairs(s) <==> (forall|i: int|
            0 <= i < s.len() ==> fn_atom_free(s[i].0) && fn_atom_free(s[i].1)),
    decreases s.len(),
{
    if s.len() > 0 {
        lemma_fn_atom_free_pairs(s.subrange(1, s.len() as int));
        assert(forall|i: int|
            1 <= i < s.len() ==> s.subrange(1, s.len() as int)[i - 1] == s[i]);
        if fn_atom_free(s[0].0) && fn_atom_free(s[0].1) && fn_atom_free_pairs(
            s.subrange(1, s.len() as int),
        ) {
            assert forall|i: int|
                0 <= i < s.len() implies fn_atom_free(s[i].0) && fn_atom_free(s[i].1) by {
                if i > 0 {
                    let sub = s.subrange(1, s.len() as int);
                    assert(fn_atom_free(sub[i - 1].0) && fn_atom_free(sub[i - 1].1));
                }
            }
        }
    }
}

/// Whether a value may serve as a map key: maps themselves are never valid
/// keys, and neither is anything holding a function or an atom.
pub open spec fn hashable_key(v: Val) -> bool {
    !(v is HashMap) && fn_atom_free(v)
}

/// Size of a value, used as a termination measure.
pub open spec fn val_size(v: Val) -> nat
    decreases v,
{
    match v {
        Val::List(es) => 1 + seq_size(es),
        Val::Vector(es) => 1 + seq_size(es),
        Val::HashMap(ps) => 1 + pair_seq_size(ps),
        Val::Closure(c) => 1 + val_size(*c.ast) + seq_size(c.params),
        _ => 1,
    }
}

pub open spec fn seq_size(s: Seq<Val>) -> nat
    decreases s,
{
    if s.len() == 0 {
        0
    } else {
        val_size(s[0]) + seq_size(s.subrange(1, s.len() as int))
    }
}

pub open spec fn pair_seq_size(s: Seq<(Val, Val)>) -> nat
    decreases s,
{
    if s.len() == 0 {
        0
    } else {
        val_size(s[0].0) + val_size(s[0].1) + pair_seq_size(s.subrange(1, s.len() as int))
    }
}

/// Each element weighs no more than the whole sequence.
pub proof fn lemma_seq_size_index(s: Seq<Val>, i: int)
    requires
        0 <= i < s.len(),
    ensures
        val_size(s[i]) <= seq_size(s),
    decreases s.len(),
{
    if i > 0 {
        lemma_seq_size_index(s.subrange(1, s.len() as int), i - 1);
        assert(s.subrange(1, s.len() as int)[i - 1] == s[i]);
    }
}

/// Each key and value weighs no more than the whole pair sequence.
pub proof fn lemma_pair_seq_size_index(s: Seq<(Val, Val)>, i: int)
    requires
        0 <= i < s.len(),
    ensures
        val_size(s[i].0) <= pair_seq_size(s),
        val_size(s[i].1) <= pair_seq_size(s),
    decreases s.len(),
{
    if i > 0 {
        lemma_pair_seq_size_index(s.subrange(1, s.len() as int), i - 1);
        assert(s.subrange(1, s.len() as int)[i - 1] == s[i]);
    }
}

impl MalType {
    /// The name of this value's kind, as used in error messages.
    pub fn type_string(&self) -> (r: String)
        ensures
            r@ == kind_name(self@),
    {
        match self {
            MalType::Nil => String::from_str("nil"),
            MalType::Bool(_) => String::from_str("bool"),
            MalType::Integer(_) => String::from_str("int"),
            MalType::Symbol(_) => String::from_str("symbol"),
            MalType::Str(_) => String::from_str("string"),
            MalType::List(_) => String::from_str("list"),
            MalType::Vector(_) => String::from_str("vector"),
            MalType::HashMap(_) => String::from_str("hash-map"),
            MalType::Function(_) => String::from_str("function"),
            MalType::NonNativeFunction(_) => String::from_str("function"),
            MalType::Atom(_) => String::from_str("atom"),
        }
    }

    /// The same kind name, as a character vector.
    pub fn type_chars(&self) -> (r: Vec<char>)
        ensures
            r@ == kind_name(self@),
    {
        match self {
            MalType::Nil => crate::text::chars_of("nil"),
            MalType::Bool(_) => crate::text::chars_of("bool"),
            MalType::Integer(_) => crate::text::chars_of("int"),
            MalType::Symbol(_) => crate::text::chars_of("symbol"),
            MalType::Str(_) => crate::text::chars_of("string"),
            MalType::List(_) => crate::text::chars_of("list"),
            MalType::Vector(_) => crate::text::chars_of("vector"),
            MalType::HashMap(_) => crate::text::chars_of("hash-map"),
            MalType::Function(_) => crate::text::chars_of("function"),
            MalType::NonNativeFunction(_) => crate::text::chars_of("function"),
            MalType::Atom(_) => crate::text::chars_of("atom"),
        }
    }

    /// An `InvalidType` error that expected `expected` and saw this value.
    pub(crate) fn type_error(&self, expected: &str) -> (r: EvalError)
        ensures
            r@ == ErrVal::InvalidType(expected@, kind_name(self@)),
    {
        EvalError::InvalidType(crate::text::chars_of(expected), self.type_chars())
    }

    /// Whether this value counts as true in a condition.
    pub fn to_bool(&self) -> (r: bool)
        ensures
            r == truthy(self@),
    {
        match self {
            MalType::Bool(b) => *b,
            MalType::Nil => false,
            _ => true,
        }
    }

    /// Maps are never valid hash keys; everything else passes here.
    pub fn as_key(self) -> (r: EvalResult)
        ensures
            (r is Ok) == !(self@ is HashMap),
            r matches Ok(v) ==> v@ == self@,
            r matches Err(e) ==> e@ == ErrVal::InvalidHashKey(self@),
    {
        match &self {
            MalType::HashMap(_) => Err(EvalError::InvalidHashKey(self)),
            _ => Ok(self),
        }
    }

    /// Whether this value may serve as a map key.
    pub fn is_hashable(&self) -> (r: bool)
        ensures
            r == hashable_key(self@),
    {
        match self {
            MalType::HashMap(_) => false,
            _ => self.is_fn_atom_free(),
        }
    }

    /// Whether this value contains no function and no atom anywhere.
    pub fn is_fn_atom_free(&self) -> (r: bool)
        ensures
            r == fn_atom_free(self@),
        decreases val_size(self@), 0nat,
    {
        match self {
            MalType::Function(_) => false,
            MalType::NonNativeFunction(_) => false,
            MalType::Atom(_) => false,
            MalType::List(es) => Self::seq_fn_atom_free(es),
            MalType::Vector(es) => Self::seq_fn_atom_free(es),
            MalType::HashMap(ps) => Self::pairs_fn_atom_free(ps),
            _ => true,
        }
    }

    fn seq_fn_atom_free(es: &Vec<MalType>) -> (r: bool)
        ensures
            r == fn_atom_free_seq(view_vec(*es)),
        decreases seq_size(view_vec(*es)), 1nat,
    {
        proof {
            lemma_view_seq(es@);
            lemma_fn_atom_free_seq(view_seq(es@));
        }
        let mut i: usize = 0;
        while i < es.len()
            invariant
                i <= es@.len(),
                forall|j: int| 0 <= j < i ==> fn_atom_free(view_seq(es@)[j]),
                view_seq(es@).len() == es@.len(),
                forall|j: int| 0 <= j < es@.len() ==> view_seq(es@)[j] == view_val(es@[j]),
                fn_atom_free_seq(view_seq(es@)) <==> (forall|j: int|
                    0 <= j < es@.len() ==> fn_atom_free(view_seq(es@)[j])),
            decreases es@.len() - i,
        {
            proof {
                lemma_seq_size_index(view_seq(es@), i as int);
            }
            if !es[i].is_fn_atom_free() {
                return false;
            }
            i = i + 1;
        }
        true
    }

    fn pairs_fn_atom_free(ps: &Vec<(MalType, MalType)>) -> (r: bool)
        ensures
            r == fn_atom_free_pairs(view_pair_vec(*ps)),
        decreases pair_seq_size(view_pair_vec(*ps)), 1nat,
    {
        proof {
            lemma_view_pair_seq(ps@);
            lemma_fn_atom_free_pairs(view_pair_seq(ps@));
        }
        let mut i: usize = 0;
        while i < ps.len()
            invariant
                i <= ps@.len(),
                forall|j: int|
                    0 <= j < i ==> fn_atom_free(view_pair_seq(ps@)[j].0) && fn_atom_free(
                        view_pair_seq(ps@)[j].1,
                    ),
                view_pair_seq(ps@).len() == ps@.len(),
                forall|j: int|
                    0 <= j < ps@.len() ==> view_pair_seq(ps@)[j] == (
                        view_val(ps@[j].0),
                        view_val(ps@[j].1),
                    ),
                fn_atom_free_pairs(view_pair_seq(ps@)) <==> (forall|j: int|
                    0 <= j < ps@.len() ==> fn_atom_free(view_pair_seq(ps@)[j].0) && fn_atom_free(
                        view_pair_seq(ps@)[j].1,
                    )),
            decreases ps@.len() - i,
        {
            proof {
                lemma_pair_seq_size_index(view_pair_seq(ps@), i as int);
            }
            if !ps[i].0.is_fn_atom_free() {
                return false;
            }
            if !ps[i].1.is_fn_atom_free() {
                return false;
            }
            i = i + 1;
        }
        true
    }

    /// The sequence behind a list or a vector.
    pub open spec fn seq_of(v: Val) -> Option<Seq<Val>> {
        match v {
            Val::List(es) => Some(es),
            Val::Vector(es) => Some(es),
            _ => None,
        }
    }

    /// The symbol's name, if this is a symbol.
    pub fn to_symbol(self) -> (r: MidResult<Vec<char>>)
        ensures
            (r is Ok) == (self@ is Sym),
            r matches Ok(s) ==> self@ == Val::Sym(s@),
            r matches Err(e) ==> e@ == ErrVal::InvalidType("symbol"@, kind_name(self@)),
    {
        match self {
            MalType::Symbol(s) => Ok(s),
            other => Err(other.type_error("symbol")),
        }
    }

    /// The integer behind this value, if it is one.
    pub fn to_integer(&self) -> (r: MidResult<i64>)
        ensures
            (r is Ok) == (self@ is Int),
            r matches Ok(i) ==> self@ == Val::Int(i as int),
            r matches Err(e) ==> e@ == ErrVal::InvalidType("integer"@, kind_name(self@)),
    {
        match self {
            MalType::Integer(i) => Ok(*i),
            other => Err(other.type_error("integer")),
        }
    }

    /// As `to_integer`: with no separate numeric kinds there is nothing
    /// further to coerce.
    pub fn coerce_to_integer(&self) -> (r: MidResult<i64>)
        ensures
            (r is Ok) == (self@ is Int),
            r matches Ok(i) ==> self@ == Val::Int(i as int),
            r matches Err(e) ==> e@ == ErrVal::InvalidType("integer"@, kind_name(self@)),
    {
        self.to_integer()
    }

    /// The elements of a list or a vector.
    pub fn to_list(self) -> (r: MidResult<Vec<MalType>>)
        ensures
            (r is Ok) == (self@ is List || self@ is Vector),
            r matches Ok(v) ==> Self::seq_of(self@) == Some(view_vec(v)),
            r matches Err(e) ==> e@ == ErrVal::InvalidType("list"@, kind_name(self@)),
    {
        match self {
            MalType::List(l) => Ok(l),
            MalType::Vector(l) => Ok(l),
            other => Err(other.type_error("list")),
        }
    }

    /// The elements of a vector only.
    pub fn to_vector(self) -> (r: MidResult<Vec<MalType>>)
        ensures
            (r is Ok) == (self@ is Vector),
            r matches Ok(v) ==> self@ == Val::Vector(view_vec(v)),
            r matches Err(e) ==> e@ == ErrVal::InvalidType("vector"@, kind_name(self@)),
    {
        match self {
            MalType::Vector(v) => Ok(v),
            other => Err(other.type_error("vector")),
        }
    }

    /// The pairs of a map.
    pub fn to_hash_map(self) -> (r: MidResult<Vec<(MalType, MalType)>>)
        ensures
            (r is Ok) == (self@ is HashMap),
            r matches Ok(v) ==> self@ == Val::HashMap(view_pair_vec(v)),
            r matches Err(e) ==> e@ == ErrVal::InvalidType("hash-map"@, kind_name(self@)),
    {
        match self {
            MalType::HashMap(h) => Ok(h),
            other => Err(other.type_error("hash-map")),
        }
    }

    /// The characters of a string value.
    pub fn to_mal_string(self) -> (r: MidResult<Vec<char>>)
        ensures
            (r is Ok) == (self@ is Str),
            r matches Ok(s) ==> self@ == Val::Str(s@),
            r matches Err(e) ==> e@ == ErrVal::InvalidType("string"@, kind_name(self@)),
    {
        match self {
            MalType::Str(s) => Ok(s),
            other => Err(other.type_error("string")),
        }
    }

    /// The same characters as a `String`.
    pub fn to_real_str(self) -> (r: MidResult<String>)
        ensures
            (r is Ok) == (self@ is Str),
            r matches Ok(s) ==> self@ == Val::Str(s@),
            r matches Err(e) ==> e@ == ErrVal::InvalidType("string"@, kind_name(self@)),
    {
        match self.to_mal_string() {
            Ok(s) => Ok(crate::text::chars_to_string(&s)),
            Err(e) => Err(e),
        }
    }

    /// The native operation behind this value, if it is one.
    pub fn to_function(self) -> (r: MidResult<Functions>)
        ensures
            (r is Ok) == (self@ is Native),
            r matches Ok(f) ==> self@ == Val::Native(f),
            r matches Err(e) ==> e@ == ErrVal::InvalidType("function"@, kind_name(self@)),
    {
        match self {
            MalType::Function(f) => Ok(f),
            other => Err(other.type_error("function")),
        }
    }

    /// The atom handle behind this value, if it is one.
    pub fn to_atom(self) -> (r: MidResult<Atom>)
        ensures
            (r is Ok) == (self@ is Atom),
            r matches Ok(a) ==> self@ == Val::Atom(a.0 as int),
            r matches Err(e) ==> e@ == ErrVal::InvalidType("Atom"@, kind_name(self@)),
    {
        match self {
            MalType::Atom(a) => Ok(a),
            other => Err(other.type_error("Atom")),
        }
    }

    /// A list value from its elements.
    pub fn list_of(es: Vec<MalType>) -> (r: MalType)
        ensures
            r@ == Val::List(view_seq(es@)),
    {
        let r = MalType::List(es);
        proof {
            assert(r@ == Val::List(view_vec(r->List_0)));
        }
        r
    }

    /// A vector value from its elements.
    pub fn vector_of(es: Vec<MalType>) -> (r: MalType)
        ensures
            r@ == Val::Vector(view_seq(es@)),
    {
        let r = MalType::Vector(es);
        proof {
            assert(r@ == Val::Vector(view_vec(r->Vector_0)));
        }
        r
    }

    /// A map value from its pairs.
    pub fn map_of(ps: Vec<(MalType, MalType)>) -> (r: MalType)
        ensures
            r@ == Val::HashMap(view_pair_seq(ps@)),
    {
        let r = MalType::HashMap(ps);
        proof {
            assert(r@ == Val::HashMap(view_pair_vec(r->HashMap_0)));
        }
        r
    }

    /// A symbol value from its name.
    pub fn symbol_of(s: Vec<char>) -> (r: MalType)
        ensures
            r@ == Val::Sym(s@),
    {
        MalType::Symbol(s)
    }

    /// A string value from its characters.
    pub fn str_of(s: Vec<char>) -> (r: MalType)
        ensures
            r@ == Val::Str(s@),
    {
        MalType::Str(s)
    }

    /// A closure value from its parts.
    pub fn closure_of(ast: MalType, params: Vec<MalType>, env: usize, is_macro: bool) -> (r:
        MalType)
        ensures
            r@ == Val::Closure(
                SpecClosure {
                    ast: Box::new(ast@),
                    params: view_seq(params@),
                    env: env as int,
                    is_macro: is_macro,
                },
            ),
    {
        let r = MalType::NonNativeFunction(
            Box::new(InnerFunction { ast: ast, params: params, env: env, is_macro: is_macro }),
        );
        proof {
            let c = r->NonNativeFunction_0;
            assert(r@ == Val::Closure(
                SpecClosure {
                    ast: Box::new(view_val(c.ast)),
                    params: view_vec(c.params),
                    env: c.env as int,
                    is_macro: c.is_macro,
                },
            ));
            assert(r@ =~~= Val::Closure(
                SpecClosure {
                    ast: Box::new(ast@),
                    params: view_seq(params@),
                    env: env as int,
                    is_macro: is_macro,
                },
            ));
        }
        r
    }

    /// The elements of a list only, or the value back.
    pub fn into_list_elems(self) -> (r: Result<Vec<MalType>, MalType>)
        ensures
            r matches Ok(es) ==> self@ == Val::List(view_vec(es)),
            r matches Err(m) ==> m@ == self@ && !(self@ is List),
    {
        match self {
            MalType::List(es) => Ok(es),
            other => Err(other),
        }
    }

    /// A deep copy whose model is the same.
    pub fn duplicate(&self) -> (r: MalType)
        ensures
            r@ == self@,
        decreases val_size(self@), 0nat,
    {
        match self {
            MalType::Nil => MalType::Nil,
            MalType::Bool(b) => MalType::Bool(*b),
            MalType::Integer(i) => MalType::Integer(*i),
            MalType::Symbol(s) => MalType::Symbol(crate::text::dup_chars(s)),
            MalType::Str(s) => MalType::Str(crate::text::dup_chars(s)),
            MalType::List(es) => MalType::List(Self::dup_vec(es)),
            MalType::Vector(es) => MalType::Vector(Self::dup_vec(es)),
            MalType::HashMap(ps) => MalType::HashMap(Self::dup_pairs(ps)),
            MalType::Function(f) => MalType::Function(*f),
            MalType::NonNativeFunction(c) => MalType::NonNativeFunction(
                Box::new(InnerFunction {
                    ast: c.ast.duplicate(),
                    params: Self::dup_vec(&c.params),
                    env: c.env,
                    is_macro: c.is_macro,
                }),
            ),
            MalType::Atom(a) => MalType::Atom(*a),
        }
    }

    /// A deep copy of a vector of values.
    pub fn dup_vec(es: &Vec<MalType>) -> (r: Vec<MalType>)
        ensures
            view_vec(r) == view_vec(*es),
            r@.len() == es@.len(),
        decreases seq_size(view_vec(*es)), 1nat,
    {
        proof {
            lemma_view_seq(es@);
        }
        let mut out: Vec<MalType> = Vec::new();
        let mut i: usize = 0;
        while i < es.len()
            invariant
                i <= es@.len(),
                out@.len() == i,
                forall|j: int| 0 <= j < i ==> view_val(out@[j]) == view_val(es@[j]),
                view_seq(es@).len() == es@.len(),
                forall|j: int| 0 <= j < es@.len() ==> view_seq(es@)[j] == view_val(es@[j]),
            decreases es@.len() - i,
        {
            proof {
                lemma_seq_size_index(view_seq(es@), i as int);
            }
            out.push(es[i].duplicate());
            i = i + 1;
        }
        proof {
            lemma_view_seq(out@);
            assert(view_seq(out@) =~= view_seq(es@));
        }
        out
    }

    /// A deep copy of a vector of pairs.
    pub fn dup_pairs(ps: &Vec<(MalType, MalType)>) -> (r: Vec<(MalType, MalType)>)
        ensures
            view_pair_vec(r) == view_pair_vec(*ps),
            r@.len() == ps@.len(),
        decreases pair_seq_size(view_pair_vec(*ps)), 1nat,
    {
        proof {
            lemma_view_pair_seq(ps@);
        }
        let mut out: Vec<(MalType, MalType)> = Vec::new();
        let mut i: usize = 0;
        while i < ps.len()
            invariant
                i <= ps@.len(),
                out@.len() == i,
                forall|j: int|
                    0 <= j < i ==> view_val(out@[j].0) == view_val(ps@[j].0) && view_val(
                        out@[j].1,
                    ) == view_val(ps@[j].1),
                view_pair_seq(ps@).len() == ps@.len(),
                forall|j: int|
                    0 <= j < ps@.len() ==> view_pair_seq(ps@)[j] == (
                        view_val(ps@[j].0),
                        view_val(ps@[j].1),
                    ),
            decreases ps@.len() - i,
        {
            proof {
                lemma_pair_seq_size_index(view_pair_seq(ps@), i as int);
            }
            let k = ps[i].0.duplicate();
            let v = ps[i].1.duplicate();
            out.push((k, v));
            i = i + 1;
        }
        proof {
            lemma_view_pair_seq(out@);
            assert(view_pair_seq(out@) =~= view_pair_seq(ps@));
        }
        out
    }
}

impl Functions {
    /// Whether two native operations are the same operation.  (As values of
    /// the language they still never compare equal; see `val_equiv`.)
    pub fn same_op(&self, other: &Functions) -> (r: bool)
        ensures
            r == (self == other),
    {
        match (self, other) {
            (Functions::Add, Functions::Add) => true,
            (Functions::Subtract, Functions::Subtract) => true,
            (Functions::Times, Functions::Times) => true,
            (Functions::IntDivide, Functions::IntDivide) => true,
            (Functions::Equal, Functions::Equal) => true,
            (Functions::LessThan, Functions::LessThan) => true,
            (Functions::LessThanOrEqual, Functions::LessThanOrEqual) => true,
            (Functions::GreaterThan, Functions::GreaterThan) => true,
            (Functions::GreaterThanOrEqual, Functions::GreaterThanOrEqual) => true,
            (Functions::Prn, Functions::Prn) => true,
            (Functions::Println, Functions::Println) => true,
            (Functions::PrStr, Functions::PrStr) => true,
            (Functions::Str, Functions::Str) => true,
            (Functions::List, Functions::List) => true,
            (Functions::IsList, Functions::IsList) => true,
            (Functions::IsEmpty, Functions::IsEmpty) => true,
            (Functions::Count, Functions::Count) => true,
            (Functions::ReadString, Functions::ReadString) => true,
            (Functions::AtomNew, Functions::AtomNew) => true,
            (Functions::IsAtom, Functions::IsAtom) => true,
            (Functions::Deref, Functions::Deref) => true,
            (Functions::Reset, Functions::Reset) => true,
            (Functions::Swap, Functions::Swap) => true,
            (Functions::Throw, Functions::Throw) => true,
            (Functions::Apply, Functions::Apply) => true,
            (Functions::IsSymbol, Functions::IsSymbol) => true,
            (Functions::Cons, Functions::Cons) => true,
            (Functions::Concat, Functions::Concat) => true,
            (Functions::First, Functions::First) => true,
            (Functions::Rest, Functions::Rest) => true,
            (Functions::Nth, Functions::Nth) => true,
            (Functions::Eval, Functions::Eval) => true,
            _ => false,
        }
    }
}

/// The value stored under a key, by the first strictly equal key.
pub open spec fn map_spec_get(ps: Seq<(Val, Val)>, k: Val) -> Option<Val>
    decreases ps,
{
    if ps.len() == 0 {
        None
    } else if ps[0].0 == k {
        Some(ps[0].1)
    } else {
        map_spec_get(ps.subrange(1, ps.len() as int), k)
    }
}

/// Insert or overwrite: the first strictly equal key keeps its place; a new
/// key goes to the end.
pub open spec fn map_spec_set(ps: Seq<(Val, Val)>, k: Val, v: Val) -> Seq<(Val, Val)>
    decreases ps,
{
    if ps.len() == 0 {
        seq![(k, v)]
    } else if ps[0].0 == k {
        seq![(ps[0].0, v)] + ps.subrange(1, ps.len() as int)
    } else {
        seq![ps[0]] + map_spec_set(ps.subrange(1, ps.len() as int), k, v)
    }
}

/// `map_spec_get` finds the value at the first index whose key matches.
pub proof fn lemma_map_get_at(ps: Seq<(Val, Val)>, k: Val, i: int)
    requires
        0 <= i < ps.len(),
        ps[i].0 == k,
        forall|j: int| 0 <= j < i ==> ps[j].0 != k,
    ensures
        map_spec_get(ps, k) == Some(ps[i].1),
    decreases ps.len(),
{
    if i > 0 {
        let sub = ps.subrange(1, ps.len() as int);
        assert(forall|j: int| 0 <= j < i - 1 ==> sub[j] == ps[j + 1]);
        lemma_map_get_at(sub, k, i - 1);
    }
}

/// `map_spec_get` misses when no key matches.
pub proof fn lemma_map_get_none(ps: Seq<(Val, Val)>, k: Val)
    requires
        forall|j: int| 0 <= j < ps.len() ==> ps[j].0 != k,
    ensures
        map_spec_get(ps, k) is None,
    decreases ps.len(),
{
    if ps.len() > 0 {
        let sub = ps.subrange(1, ps.len() as int);
        assert(forall|j: int| 0 <= j < sub.len() ==> sub[j] == ps[j + 1]);
        lemma_map_get_none(sub, k);
    }
}

/// When the first matching key sits at `i`, `map_spec_set` updates in place.
pub proof fn lemma_map_set_at(ps: Seq<(Val, Val)>, k: Val, v: Val, i: int)
    requires
        0 <= i < ps.len(),
        ps[i].0 == k,
        forall|j: int| 0 <= j < i ==> ps[j].0 != k,
    ensures
        map_spec_set(ps, k, v) == ps.update(i, (ps[i].0, v)),
    decreases ps.len(),
{
    let sub = ps.subrange(1, ps.len() as int);
    if i == 0 {
        assert(map_spec_set(ps, k, v) =~= ps.update(0, (ps[0].0, v)));
    } else {
        assert(forall|j: int| 0 <= j < sub.len() ==> sub[j] == ps[j + 1]);
        lemma_map_set_at(sub, k, v, i - 1);
        assert(map_spec_set(ps, k, v) =~= ps.update(i, (ps[i].0, v)));
    }
}

/// When no key matches, `map_spec_set` appends.
pub proof fn lemma_map_set_absent(ps: Seq<(Val, Val)>, k: Val, v: Val)
    requires
        forall|j: int| 0 <= j < ps.len() ==> ps[j].0 != k,
    ensures
        map_spec_set(ps, k, v) == ps.push((k, v)),
    decreases ps.len(),
{
    if ps.len() == 0 {
        assert(map_spec_set(ps, k, v) =~= ps.push((k, v)));
    } else {
        let sub = ps.subrange(1, ps.len() as int);
        assert(forall|j: int| 0 <= j < sub.len() ==> sub[j] == ps[j + 1]);
        lemma_map_set_absent(sub, k, v);
        assert(map_spec_set(ps, k, v) =~= ps.push((k, v)));
    }
}

impl MalType {
    /// Strict structural equality: the models are the same value.  Used for
    /// map keys, where a list key and a vector key stay distinct.
    pub fn struct_eq(&self, other: &MalType) -> (r: bool)
        ensures
            r == (self@ == other@),
        decreases val_size(self@), 0nat,
    {
        match (self, other) {
            (MalType::Nil, MalType::Nil) => true,
            (MalType::Bool(a), MalType::Bool(b)) => {
                proof {
                    assert(*self == MalType::Bool(*a));
                    assert(self@ == Val::Bool(*a));
                    assert(other@ == Val::Bool(*b));
                    assert(val_equiv(self@, other@) == (*a == *b));
                }
                a == b
            },
            (MalType::Integer(a), MalType::Integer(b)) => a == b,
            (MalType::Symbol(a), MalType::Symbol(b)) => crate::text::chars_eq(a, b),
            (MalType::Str(a), MalType::Str(b)) => crate::text::chars_eq(a, b),
            (MalType::List(a), MalType::List(b)) => Self::vec_struct_eq(a, b),
            (MalType::Vector(a), MalType::Vector(b)) => Self::vec_struct_eq(a, b),
            (MalType::HashMap(a), MalType::HashMap(b)) => Self::pairs_struct_eq(a, b),
            (MalType::Function(a), MalType::Function(b)) => a.same_op(b),
            (MalType::NonNativeFunction(a), MalType::NonNativeFunction(b)) => {
                proof {
                    assert(val_size(view_val(a.ast)) < val_size(self@));
                }
                let r = a.ast.struct_eq(&b.ast) && Self::vec_struct_eq(&a.params, &b.params)
                    && a.env == b.env && a.is_macro == b.is_macro;
                proof {
                    if r {
                        assert(self@ =~= other@);
                    }
                }
                r
            },
            (MalType::Atom(a), MalType::Atom(b)) => a.0 == b.0,
            _ => false,
        }
    }

    fn vec_struct_eq(a: &Vec<MalType>, b: &Vec<MalType>) -> (r: bool)
        ensures
            r == (view_vec(*a) == view_vec(*b)),
        decreases seq_size(view_vec(*a)), 1nat,
    {
        proof {
            lemma_view_seq(a@);
            lemma_view_seq(b@);
        }
        if a.len() != b.len() {
            return false;
        }
        let mut i: usize = 0;
        while i < a.len()
            invariant
                i <= a@.len(),
                a@.len() == b@.len(),
                forall|j: int| 0 <= j < i ==> view_val(a@[j]) == view_val(b@[j]),
                view_seq(a@).len() == a@.len(),
                view_seq(b@).len() == b@.len(),
                forall|j: int| 0 <= j < a@.len() ==> view_seq(a@)[j] == view_val(a@[j]),
                forall|j: int| 0 <= j < b@.len() ==> view_seq(b@)[j] == view_val(b@[j]),
            decreases a@.len() - i,
        {
            proof {
                lemma_seq_size_index(view_seq(a@), i as int);
            }
            if !a[i].struct_eq(&b[i]) {
                return false;
            }
            i = i + 1;
        }
        proof {
            assert(view_seq(a@) =~= view_seq(b@));
        }
        true
    }

    fn pairs_struct_eq(a: &Vec<(MalType, MalType)>, b: &Vec<(MalType, MalType)>) -> (r: bool)
        ensures
            r == (view_pair_vec(*a) == view_pair_vec(*b)),
        decreases pair_seq_size(view_pair_vec(*a)), 1nat,
    {
        proof {
            lemma_view_pair_seq(a@);
            lemma_view_pair_seq(b@);
        }
        if a.len() != b.len() {
            return false;
        }
        let mut i: usize = 0;
        while i < a.len()
            invariant
                i <= a@.len(),
                a@.len() == b@.len(),
                forall|j: int|
                    0 <= j < i ==> view_val(a@[j].0) == view_val(b@[j].0) && view_val(a@[j].1)
                        == view_val(b@[j].1),
                view_pair_seq(a@).len() == a@.len(),
                view_pair_seq(b@).len() == b@.len(),
                forall|j: int|
                    0 <= j < a@.len() ==> view_pair_seq(a@)[j] == (
                        view_val(a@[j].0),
                        view_val(a@[j].1),
                    ),
                forall|j: int|
                    0 <= j < b@.len() ==> view_pair_seq(b@)[j] == (
                        view_val(b@[j].0),
                        view_val(b@[j].1),
                    ),
            decreases a@.len() - i,
        {
            proof {
                lemma_pair_seq_size_index(view_pair_seq(a@), i as int);
            }
            if !a[i].0.struct_eq(&b[i].0) {
                return false;
            }
            if !a[i].1.struct_eq(&b[i].1) {
                return false;
            }
            i = i + 1;
        }
        proof {
            assert(view_pair_seq(a@) =~= view_pair_seq(b@));
        }
        true
    }

    /// The index of the first pair whose key strictly equals `k`.
    pub fn map_index(ps: &Vec<(MalType, MalType)>, k: &MalType) -> (r: Option<usize>)
        ensures
            r matches Some(i) ==> i < ps@.len() && view_val(ps@[i as int].0) == k@ && (forall|
                j: int,
            |
                0 <= j < i ==> view_pair_vec(*ps)[j].0 != k@) && map_spec_get(
                view_pair_vec(*ps),
                k@,
            ) == Some(view_val(ps@[i as int].1)),
            r is None ==> map_spec_get(view_pair_vec(*ps), k@) is None && (forall|j: int|
                0 <= j < ps@.len() ==> view_pair_vec(*ps)[j].0 != k@),
    {
        proof {
            lemma_view_pair_seq(ps@);
        }
        let mut i: usize = 0;
        while i < ps.len()
            invariant
                i <= ps@.len(),
                forall|j: int| 0 <= j < i ==> view_val(ps@[j].0) != k@,
                view_pair_seq(ps@).len() == ps@.len(),
                forall|j: int|
                    0 <= j < ps@.len() ==> view_pair_seq(ps@)[j] == (
                        view_val(ps@[j].0),
                        view_val(ps@[j].1),
                    ),
            decreases ps@.len() - i,
        {
            if ps[i].0.struct_eq(k) {
                proof {
                    lemma_map_get_at(view_pair_seq(ps@), k@, i as int);
                }
                return Some(i);
            }
            i = i + 1;
        }
        proof {
            lemma_map_get_none(view_pair_seq(ps@), k@);
        }
        None
    }

    /// Insert or overwrite in a map's pair vector.
    pub fn map_set(ps: &mut Vec<(MalType, MalType)>, k: MalType, v: MalType)
        ensures
            view_pair_vec(*final(ps)) == map_spec_set(view_pair_vec(*old(ps)), k@, v@),
    {
        proof {
            lemma_view_pair_seq(ps@);
        }
        match Self::map_index(ps, &k) {
            Some(i) => {
                proof {
                    lemma_map_set_at(view_pair_seq(ps@), k@, v@, i as int);
                }
                ps.set(i, (k, v));
                proof {
                    lemma_view_pair_seq(ps@);
                    assert(view_pair_seq(ps@) =~= map_spec_set(
                        view_pair_seq(old(ps)@),
                        k@,
                        v@,
                    ));
                }
            },
            None => {
                proof {
                    lemma_map_set_absent(view_pair_seq(ps@), k@, v@);
                }
                ps.push((k, v));
                proof {
                    lemma_view_pair_seq(ps@);
                    assert(view_pair_seq(ps@) =~= map_spec_set(
                        view_pair_seq(old(ps)@),
                        k@,
                        v@,
                    ));
                }
            },
        }
    }
}

/// Equality as the language's `=` sees it: lists and vectors with equal
/// elements are equal across the two tags; maps are equal when they hold
/// the same keys (strictly) with equal values; functions and atoms are
/// never equal to anything, not even to themselves.
pub open spec fn val_equiv(a: Val, b: Val) -> bool
    decreases val_size(a), 0nat, 0nat,
{
    match (a, b) {
        (Val::Nil, Val::Nil) => true,
        (Val::Bool(x), Val::Bool(y)) => x == y,
        (Val::Int(x), Val::Int(y)) => x == y,
        (Val::Sym(x), Val::Sym(y)) => x == y,
        (Val::Str(x), Val::Str(y)) => x == y,
        (Val::List(x), Val::List(y)) => seq_equiv(x, y),
        (Val::List(x), Val::Vector(y)) => seq_equiv(x, y),
        (Val::Vector(x), Val::List(y)) => seq_equiv(x, y),
        (Val::Vector(x), Val::Vector(y)) => seq_equiv(x, y),
        (Val::HashMap(x), Val::HashMap(y)) => x.len() == y.len() && pairs_equiv(x, y),
        _ => false,
    }
}

/// Elementwise `val_equiv` over two sequences of equal length.
pub open spec fn seq_equiv(x: Seq<Val>, y: Seq<Val>) -> bool
    decreases seq_size(x), 1nat, x.len(),
{
    x.len() == y.len() && (x.len() == 0 || (val_equiv(x[0], y[0]) && seq_equiv(
        x.subrange(1, x.len() as int),
        y.subrange(1, y.len() as int),
    )))
}

/// Whether the map `y` holds the pair `p`'s key with an equivalent value.
pub open spec fn pair_matches(y: Seq<(Val, Val)>, p: (Val, Val)) -> bool
    decreases val_size(p.1), 1nat, 0nat,
{
    match map_spec_get(y, p.0) {
        Some(v) => val_equiv(p.1, v),
        None => false,
    }
}

/// Every pair of `x` has a match in `y`.
pub open spec fn pairs_equiv(x: Seq<(Val, Val)>, y: Seq<(Val, Val)>) -> bool
    decreases pair_seq_size(x), 2nat, x.len(),
{
    x.len() == 0 || (pair_matches(y, x[0]) && pairs_equiv(x.subrange(1, x.len() as int), y))
}

pub broadcast proof fn lemma_seq_equiv(x: Seq<Val>, y: Seq<Val>)
    ensures
        #[trigger] seq_equiv(x, y) <==> (x.len() == y.len() && (forall|i: int|
            0 <= i < x.len() ==> val_equiv(x[i], y[i]))),
    decreases x.len(),
{
    if x.len() > 0 && x.len() == y.len() {
        let xs = x.subrange(1, x.len() as int);
        let ys = y.subrange(1, y.len() as int);
        lemma_seq_equiv(xs, ys);
        assert(forall|i: int| 0 <= i < xs.len() ==> xs[i] == x[i + 1] && ys[i] == y[i + 1]);
        if val_equiv(x[0], y[0]) && seq_equiv(xs, ys) {
            assert forall|i: int| 0 <= i < x.len() implies val_equiv(x[i], y[i]) by {
                if i > 0 {
                    assert(val_equiv(xs[i - 1], ys[i - 1]));
                }
            }
        }
    }
}

pub broadcast proof fn lemma_pairs_equiv(x: Seq<(Val, Val)>, y: Seq<(Val, Val)>)
    ensures
        #[trigger] pairs_equiv(x, y) <==> (forall|i: int|
            0 <= i < x.len() ==> pair_matches(y, x[i])),
    decreases x.len(),
{
    if x.len() > 0 {
        let xs = x.subrange(1, x.len() as int);
        lemma_pairs_equiv(xs, y);
        assert(forall|i: int| 0 <= i < xs.len() ==> xs[i] == x[i + 1]);
        if pair_matches(y, x[0]) && pairs_equiv(xs, y) {
            assert forall|i: int| 0 <= i < x.len() implies pair_matches(y, x[i]) by {
                if i > 0 {
                    assert(pair_matches(y, xs[i - 1]));
                }
            }
        }
    }
}

impl MalType {
    /// Equality as the language's `=` sees it; see `val_equiv`.
    pub fn mal_eq(&self, other: &MalType) -> (r: bool)
        ensures
            r == val_equiv(self@, other@),
        decreases val_size(self@), 2nat,
    {
        match (self, other) {
            (MalType::Nil, MalType::Nil) => true,
            (MalType::Bool(a), MalType::Bool(b)) => a == b,
            (MalType::Integer(a), MalType::Integer(b)) => a == b,
            (MalType::Symbol(a), MalType::Symbol(b)) => crate::text::chars_eq(a, b),
            (MalType::Str(a), MalType::Str(b)) => crate::text::chars_eq(a, b),
            (MalType::List(a), MalType::List(b)) => Self::vec_equiv(a, b),
            (MalType::List(a), MalType::Vector(b)) => Self::vec_equiv(a, b),
            (MalType::Vector(a), MalType::List(b)) => Self::vec_equiv(a, b),
            (MalType::Vector(a), MalType::Vector(b)) => Self::vec_equiv(a, b),
            (MalType::HashMap(a), MalType::HashMap(b)) => {
                proof {
                    lemma_view_pair_seq(a@);
                    lemma_view_pair_seq(b@);
                    assert(*self == MalType::HashMap(*a) && *other == MalType::HashMap(*b));
                    assert(self@ == Val::HashMap(view_pair_vec(*a)));
                    assert(other@ == Val::HashMap(view_pair_vec(*b)));
                    assert(view_pair_vec(*a) == view_pair_seq(a@));
                    assert(view_pair_vec(*b) == view_pair_seq(b@));
                }
                if a.len() != b.len() {
                    false
                } else {
                    Self::pairs_equiv_exec(a, b)
                }
            },
            _ => false,
        }
    }

    fn vec_equiv(a: &Vec<MalType>, b: &Vec<MalType>) -> (r: bool)
        ensures
            r == seq_equiv(view_vec(*a), view_vec(*b)),
        decreases seq_size(view_vec(*a)), 3nat,
    {
        proof {
            lemma_view_seq(a@);
            lemma_view_seq(b@);
            lemma_seq_equiv(view_seq(a@), view_seq(b@));
        }
        if a.len() != b.len() {
            return false;
        }
        let mut i: usize = 0;
        while i < a.len()
            invariant
                i <= a@.len(),
                a@.len() == b@.len(),
                forall|j: int| 0 <= j < i ==> val_equiv(view_seq(a@)[j], view_seq(b@)[j]),
                view_seq(a@).len() == a@.len(),
                view_seq(b@).len() == b@.len(),
                forall|j: int| 0 <= j < a@.len() ==> view_seq(a@)[j] == view_val(a@[j]),
                forall|j: int| 0 <= j < b@.len() ==> view_seq(b@)[j] == view_val(b@[j]),
                seq_equiv(view_seq(a@), view_seq(b@)) <==> (view_seq(a@).len() == view_seq(
                    b@,
                ).len() && (forall|j: int|
                    0 <= j < a@.len() ==> val_equiv(view_seq(a@)[j], view_seq(b@)[j]))),
            decreases a@.len() - i,
        {
            proof {
                lemma_seq_size_index(view_seq(a@), i as int);
            }
            if !a[i].mal_eq(&b[i]) {
                return false;
            }
            i = i + 1;
        }
        true
    }

    fn pairs_equiv_exec(a: &Vec<(MalType, MalType)>, b: &Vec<(MalType, MalType)>) -> (r: bool)
        ensures
            r == pairs_equiv(view_pair_vec(*a), view_pair_vec(*b)),
        decreases pair_seq_size(view_pair_vec(*a)), 3nat,
    {
        proof {
            lemma_view_pair_seq(a@);
            lemma_view_pair_seq(b@);
            lemma_pairs_equiv(view_pair_seq(a@), view_pair_seq(b@));
        }
        let mut i: usize = 0;
        while i < a.len()
            invariant
                i <= a@.len(),
                forall|j: int| 0 <= j < i ==> pair_matches(view_pair_seq(b@), view_pair_seq(a@)[j]),
                view_pair_seq(a@).len() == a@.len(),
                view_pair_seq(b@).len() == b@.len(),
                forall|j: int|
                    0 <= j < a@.len() ==> view_pair_seq(a@)[j] == (
                        view_val(a@[j].0),
                        view_val(a@[j].1),
                    ),
                forall|j: int|
                    0 <= j < b@.len() ==> view_pair_seq(b@)[j] == (
                        view_val(b@[j].0),
                        view_val(b@[j].1),
                    ),
                pairs_equiv(view_pair_seq(a@), view_pair_seq(b@)) <==> (forall|j: int|
                    0 <= j < a@.len() ==> pair_matches(view_pair_seq(b@), view_pair_seq(a@)[j])),
            decreases a@.len() - i,
        {
            proof {
                lemma_pair_seq_size_index(view_pair_seq(a@), i as int);
            }
            match Self::map_index(b, &a[i].0) {
                None => {
                    return false;
                },
                Some(j) => {
                    if !a[i].1.mal_eq(&b[j].1) {
                        return false;
                    }
                },
            }
            i = i + 1;
        }
        true
    }
}

} // verus!
