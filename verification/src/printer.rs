use vstd::prelude::*;

use crate::env::Interp;
use crate::text::{int_chars, push_chars, push_str_chars};
use crate::types::{
    lemma_seq_size_index, lemma_pair_seq_size_index, lemma_view_pair_seq, lemma_view_seq,
    pair_seq_size, seq_size, val_size, view_pair_seq, view_pair_vec, view_seq, view_val, view_vec,
    EvalError, ErrVal, MalType, ParseError, ParseErrVal, Val,
};

verus! {

/// How one character of a string is rendered in readable mode: quote,
/// newline and backslash get a backslash escape.
pub open spec fn escape_char(c: char) -> Seq<char> {
    if c == '"' {
        seq!['\\', '"']
    } else if c == '\n' {
        seq!['\\', 'n']
    } else if c == '\\' {
        seq!['\\', '\\']
    } else {
        seq![c]
    }
}

/// A string's characters in readable mode.
pub open spec fn escape_str(s: Seq<char>) -> Seq<char>
    decreases s.len(),
{
    if s.len() == 0 {
        Seq::empty()
    } else {
        escape_char(s[0]) + escape_str(s.subrange(1, s.len() as int))
    }
}

/// What printing a value yields.  `atoms` is the interpreter's atom store,
/// through which an atom's contents are found; `fuel` bounds how many atom
/// cells the rendering may chase, so a cell that reaches itself again
/// renders as `#<atom>` once the fuel runs out.
pub open spec fn print_val(atoms: Seq<Val>, v: Val, readable: bool, fuel: nat) -> Seq<char>
    decreases fuel, val_size(v), 1nat, 0nat,
{
    match v {
        Val::Nil => "nil"@,
        Val::Bool(b) => if b {
            "true"@
        } else {
            "false"@
        },
        Val::Int(i) => int_chars(i),
        Val::Sym(s) => s,
        Val::Str(s) => if readable {
            seq!['"'] + escape_str(s) + seq!['"']
        } else {
            s
        },
        Val::List(es) => seq!['('] + print_items(atoms, es, readable, fuel) + seq![')'],
        Val::Vector(es) => seq!['['] + print_items(atoms, es, readable, fuel) + seq![']'],
        Val::HashMap(ps) => seq!['{'] + print_pairs(atoms, ps, readable, fuel) + seq!['}'],
        Val::Native(_) => "#<function>"@,
        Val::Closure(_) => "#<function>"@,
        Val::Atom(i) => if fuel == 0 || !(0 <= i < atoms.len()) {
            "#<atom>"@
        } else {
            "(atom "@ + print_val(atoms, atoms[i], readable, (fuel - 1) as nat) + seq![')']
        },
    }
}

/// The elements of a sequence, printed and joined with single spaces.
pub open spec fn print_items(atoms: Seq<Val>, es: Seq<Val>, readable: bool, fuel: nat) -> Seq<
    char,
>
    decreases fuel, seq_size(es), 2nat, es.len(),
{
    if es.len() == 0 {
        Seq::empty()
    } else {
        print_val(atoms, es[0], readable, fuel) + rest_items(
            atoms,
            es.subrange(1, es.len() as int),
            readable,
            fuel,
        )
    }
}

/// The remaining elements, each preceded by a space.
pub open spec fn rest_items(atoms: Seq<Val>, es: Seq<Val>, readable: bool, fuel: nat) -> Seq<char>
    decreases fuel, seq_size(es), 2nat, es.len(),
{
    if es.len() == 0 {
        Seq::empty()
    } else {
        seq![' '] + print_val(atoms, es[0], readable, fuel) + rest_items(
            atoms,
            es.subrange(1, es.len() as int),
            readable,
            fuel,
        )
    }
}

/// The pairs of a map, printed as alternating keys and values joined with
/// single spaces.
pub open spec fn print_pairs(atoms: Seq<Val>, ps: Seq<(Val, Val)>, readable: bool, fuel: nat) -> Seq<
    char,
>
    decreases fuel, pair_seq_size(ps), 2nat, ps.len(),
{
    if ps.len() == 0 {
        Seq::empty()
    } else {
        print_val(atoms, ps[0].0, readable, fuel) + seq![' '] + print_val(
            atoms,
            ps[0].1,
            readable,
            fuel,
        ) + rest_pairs(atoms, ps.subrange(1, ps.len() as int), readable, fuel)
    }
}

/// The remaining pairs, each preceded by a space.
pub open spec fn rest_pairs(atoms: Seq<Val>, ps: Seq<(Val, Val)>, readable: bool, fuel: nat) -> Seq<
    char,
>
    decreases fuel, pair_seq_size(ps), 2nat, ps.len(),
{
    if ps.len() == 0 {
        Seq::empty()
    } else {
        seq![' '] + print_val(atoms, ps[0].0, readable, fuel) + seq![' '] + print_val(
            atoms,
            ps[0].1,
            readable,
            fuel,
        ) + rest_pairs(atoms, ps.subrange(1, ps.len() as int), readable, fuel)
    }
}

impl MalType {
    /// Renders this value as text.  Readable mode escapes string contents
    /// so that the reader can read the text back.
    pub fn pr_str(&self, interp: &Interp, print_readably: bool) -> (r: String)
        ensures
            r@ == print_val(interp@.atoms, self@, print_readably, interp@.atoms.len()),
    {
        let fuel = interp.atoms.len();
        proof {
            lemma_view_seq(interp.atoms@);
        }
        let v = self.pr_chars(interp, print_readably, fuel);
        crate::text::chars_to_string(&v)
    }

    /// As `pr_str`, producing the characters.
    pub fn pr_chars(&self, interp: &Interp, readable: bool, fuel: usize) -> (r: Vec<char>)
        ensures
            r@ == print_val(interp@.atoms, self@, readable, fuel as nat),
        decreases fuel, val_size(self@), 1nat, 0nat,
    {
        let mut out: Vec<char> = Vec::new();
        match self {
            MalType::Nil => {
                push_str_chars(&mut out, "nil");
            },
            MalType::Bool(b) => {
                if *b {
                    push_str_chars(&mut out, "true");
                } else {
                    push_str_chars(&mut out, "false");
                }
            },
            MalType::Integer(i) => {
                let ds = crate::text::i64_to_chars(*i);
                push_chars(&mut out, &ds);
            },
            MalType::Symbol(s) => {
                push_chars(&mut out, s);
            },
            MalType::Str(s) => {
                if readable {
                    out.push('"');
                    let mut i: usize = 0;
                    while i < s.len()
                        invariant
                            i <= s@.len(),
                            out@ == seq!['"'] + escape_str(s@.subrange(0, i as int)),
                        decreases s@.len() - i,
                    {
                        let ghost pre = s@.subrange(0, i as int);
                        let c = s[i];
                        if c == '"' {
                            out.push('\\');
                            out.push('"');
                        } else if c == '\n' {
                            out.push('\\');
                            out.push('n');
                        } else if c == '\\' {
                            out.push('\\');
                            out.push('\\');
                        } else {
                            out.push(c);
                        }
                        proof {
                            lemma_escape_snoc(pre, s@[i as int]);
                            assert(s@.subrange(0, (i + 1) as int) =~= pre.push(s@[i as int]));
                            assert(out@ =~= seq!['"'] + escape_str(
                                s@.subrange(0, (i + 1) as int),
                            ));
                        }
                        i = i + 1;
                    }
                    out.push('"');
                    proof {
                        assert(s@.subrange(0, s@.len() as int) =~= s@);
                        assert(out@ =~= seq!['"'] + escape_str(s@) + seq!['"']);
                    }
                } else {
                    push_chars(&mut out, s);
                }
            },
            MalType::List(es) => {
                proof {
                    assert(*self == MalType::List(*es));
                    assert(self@ == Val::List(view_vec(*es)));
                    assert(view_vec(*es) == view_seq(es@));
                    assert(val_size(self@) == 1 + seq_size(view_seq(es@)));
                }
                out.push('(');
                let inner = Self::pr_items(interp, es, readable, fuel);
                push_chars(&mut out, &inner);
                out.push(')');
                proof {
                    assert(*self == MalType::List(*es));
                    assert(self@ == Val::List(view_vec(*es)));
                    assert(view_vec(*es) == view_seq(es@));
                    assert(out@ =~= seq!['('] + print_items(
                        interp@.atoms,
                        view_seq(es@),
                        readable,
                        fuel as nat,
                    ) + seq![')']);
                }
            },
            MalType::Vector(es) => {
                proof {
                    assert(*self == MalType::Vector(*es));
                    assert(self@ == Val::Vector(view_vec(*es)));
                    assert(view_vec(*es) == view_seq(es@));
                    assert(val_size(self@) == 1 + seq_size(view_seq(es@)));
                }
                out.push('[');
                let inner = Self::pr_items(interp, es, readable, fuel);
                push_chars(&mut out, &inner);
                out.push(']');
                proof {
                    assert(*self == MalType::Vector(*es));
                    assert(self@ == Val::Vector(view_vec(*es)));
                    assert(view_vec(*es) == view_seq(es@));
                    assert(out@ =~= seq!['['] + print_items(
                        interp@.atoms,
                        view_seq(es@),
                        readable,
                        fuel as nat,
                    ) + seq![']']);
                }
            },
            MalType::HashMap(ps) => {
                proof {
                    assert(*self == MalType::HashMap(*ps));
                    assert(self@ == Val::HashMap(view_pair_vec(*ps)));
                    assert(view_pair_vec(*ps) == view_pair_seq(ps@));
                    assert(val_size(self@) == 1 + pair_seq_size(view_pair_seq(ps@)));
                }
                out.push('{');
                let inner = Self::pr_map_pairs(interp, ps, readable, fuel);
                push_chars(&mut out, &inner);
                out.push('}');
                proof {
                    assert(*self == MalType::HashMap(*ps));
                    assert(self@ == Val::HashMap(view_pair_vec(*ps)));
                    assert(view_pair_vec(*ps) == view_pair_seq(ps@));
                    assert(out@ =~= seq!['{'] + print_pairs(
                        interp@.atoms,
                        view_pair_seq(ps@),
                        readable,
                        fuel as nat,
                    ) + seq!['}']);
                }
            },
            MalType::Function(_) => {
                push_str_chars(&mut out, "#<function>");
            },
            MalType::NonNativeFunction(_) => {
                push_str_chars(&mut out, "#<function>");
            },
            MalType::Atom(a) => {
                proof {
                    lemma_view_seq(interp.atoms@);
                }
                if fuel == 0 || a.0 >= interp.atoms.len() {
                    push_str_chars(&mut out, "#<atom>");
                } else {
                    push_str_chars(&mut out, "(atom ");
                    let inner = interp.atoms[a.0].pr_chars(interp, readable, fuel - 1);
                    push_chars(&mut out, &inner);
                    out.push(')');
                    proof {
                        assert(out@ =~= "(atom "@ + print_val(
                            interp@.atoms,
                            interp@.atoms[a.0 as int],
                            readable,
                            (fuel - 1) as nat,
                        ) + seq![')']);
                    }
                }
            },
        }
        out
    }

    /// The elements of `es`, printed and joined with single spaces.
    fn pr_items(interp: &Interp, es: &Vec<MalType>, readable: bool, fuel: usize) -> (r: Vec<char>)
        ensures
            r@ == print_items(interp@.atoms, view_seq(es@), readable, fuel as nat),
        decreases fuel, seq_size(view_seq(es@)), 2nat, 0nat,
    {
        proof {
            lemma_view_seq(es@);
        }
        let ghost vs = view_seq(es@);
        let mut out: Vec<char> = Vec::new();
        if es.len() == 0 {
            return out;
        }
        proof {
            lemma_seq_size_index(vs, 0);
        }
        let first = es[0].pr_chars(interp, readable, fuel);
        push_chars(&mut out, &first);
        let mut i: usize = 1;
        while i < es.len()
            invariant
                1 <= i <= es@.len(),
                vs == view_seq(es@),
                vs.len() == es@.len(),
                forall|j: int| 0 <= j < es@.len() ==> vs[j] == view_val(es@[j]),
                print_items(interp@.atoms, vs, readable, fuel as nat) == out@ + rest_items(
                    interp@.atoms,
                    vs.skip(i as int),
                    readable,
                    fuel as nat,
                ),
            decreases es@.len() - i,
        {
            proof {
                lemma_seq_size_index(vs, i as int);
                assert(vs.skip(i as int)[0] == vs[i as int]);
                assert(vs.skip(i as int).subrange(1, vs.skip(i as int).len() as int) =~= vs.skip(
                    i as int + 1,
                ));
            }
            out.push(' ');
            let piece = es[i].pr_chars(interp, readable, fuel);
            push_chars(&mut out, &piece);
            i = i + 1;
        }
        proof {
            assert(vs.skip(i as int) =~= Seq::<Val>::empty());
            assert(rest_items(interp@.atoms, vs.skip(i as int), readable, fuel as nat)
                =~= Seq::<char>::empty());
            assert(out@ =~= out@ + rest_items(
                interp@.atoms,
                vs.skip(i as int),
                readable,
                fuel as nat,
            ));
        }
        out
    }

    /// The pairs of `ps`, printed as alternating keys and values.
    fn pr_map_pairs(interp: &Interp, ps: &Vec<(MalType, MalType)>, readable: bool, fuel: usize) -> (r:
        Vec<char>)
        ensures
            r@ == print_pairs(interp@.atoms, view_pair_seq(ps@), readable, fuel as nat),
        decreases fuel, pair_seq_size(view_pair_seq(ps@)), 2nat, 0nat,
    {
        proof {
            lemma_view_pair_seq(ps@);
        }
        let ghost vs = view_pair_seq(ps@);
        let mut out: Vec<char> = Vec::new();
        if ps.len() == 0 {
            return out;
        }
        proof {
            lemma_pair_seq_size_index(vs, 0);
        }
        let k0 = ps[0].0.pr_chars(interp, readable, fuel);
        push_chars(&mut out, &k0);
        out.push(' ');
        let v0 = ps[0].1.pr_chars(interp, readable, fuel);
        push_chars(&mut out, &v0);
        let mut i: usize = 1;
        while i < ps.len()
            invariant
                1 <= i <= ps@.len(),
                vs == view_pair_seq(ps@),
                vs.len() == ps@.len(),
                forall|j: int|
                    0 <= j < ps@.len() ==> vs[j] == (view_val(ps@[j].0), view_val(ps@[j].1)),
                print_pairs(interp@.atoms, vs, readable, fuel as nat) == out@ + rest_pairs(
                    interp@.atoms,
                    vs.skip(i as int),
                    readable,
                    fuel as nat,
                ),
            decreases ps@.len() - i,
        {
            proof {
                lemma_pair_seq_size_index(vs, i as int);
                assert(vs.skip(i as int)[0] == vs[i as int]);
                assert(vs.skip(i as int).subrange(1, vs.skip(i as int).len() as int) =~= vs.skip(
                    i as int + 1,
                ));
            }
            out.push(' ');
            let pk = ps[i].0.pr_chars(interp, readable, fuel);
            push_chars(&mut out, &pk);
            out.push(' ');
            let pv = ps[i].1.pr_chars(interp, readable, fuel);
            push_chars(&mut out, &pv);
            i = i + 1;
        }
        proof {
            assert(vs.skip(i as int) =~= Seq::<(Val, Val)>::empty());
            assert(rest_pairs(interp@.atoms, vs.skip(i as int), readable, fuel as nat)
                =~= Seq::<char>::empty());
            assert(out@ =~= out@ + rest_pairs(
                interp@.atoms,
                vs.skip(i as int),
                readable,
                fuel as nat,
            ));
        }
        out
    }
}

/// The text of a parse failure, as the shell reports it.
pub open spec fn parse_err_text(atoms: Seq<Val>, p: ParseErrVal) -> Seq<char> {
    "you had the following ParseError: "@ + (match p {
        ParseErrVal::NoClosingParen(c) => "No closing paren "@ + seq![c],
        ParseErrVal::InvalidNum(n) => n + " is not a valid number"@,
        ParseErrVal::MissingValue(m) => "Missing value for "@ + print_val(
            atoms,
            m,
            true,
            atoms.len(),
        ),
    })
}

/// The text of an evaluation failure: what `catch*` binds when the thrown
/// payload is not a value, and what the shell reports.
pub open spec fn err_text(atoms: Seq<Val>, e: ErrVal) -> Seq<char> {
    match e {
        ErrVal::InvalidHashKey(m) => "Invalid hash key: "@ + print_val(atoms, m, true, atoms.len()),
        ErrVal::InvalidType(exp, act) => "Expected "@ + exp + ", got "@ + act,
        ErrVal::WrongArgAmount => "Wrong number of arguments for the function"@,
        ErrVal::SymbolNotFound(s) => seq!['\''] + s + "' not found"@,
        ErrVal::NotAFunction(m) => "Not a function: "@ + print_val(atoms, m, true, atoms.len()),
        ErrVal::Thrown(m) => "Thrown: "@ + print_val(atoms, m, true, atoms.len()),
        ErrVal::ParseFailed(p) => "failed at parsing "@ + parse_err_text(atoms, p),
        ErrVal::InvalidFile(s) => "failed at loading file: "@ + s,
    }
}

impl ParseError {
    /// The text of this failure.
    pub fn text_chars(&self, interp: &Interp) -> (r: Vec<char>)
        ensures
            r@ == parse_err_text(interp@.atoms, self@),
    {
        let mut out: Vec<char> = Vec::new();
        push_str_chars(&mut out, "you had the following ParseError: ");
        match self {
            ParseError::NoClosingParen(c) => {
                push_str_chars(&mut out, "No closing paren ");
                out.push(*c);
                proof {
                    assert(out@ =~= parse_err_text(interp@.atoms, self@));
                }
            },
            ParseError::InvalidNum(n) => {
                push_chars(&mut out, n);
                push_str_chars(&mut out, " is not a valid number");
                proof {
                    assert(out@ =~= parse_err_text(interp@.atoms, self@));
                }
            },
            ParseError::MissingValue(m) => {
                push_str_chars(&mut out, "Missing value for ");
                let p = m.pr_chars(interp, true, interp.atoms.len());
                push_chars(&mut out, &p);
                proof {
                    lemma_view_seq(interp.atoms@);
                    assert(out@ =~= parse_err_text(interp@.atoms, self@));
                }
            },
        }
        out
    }
}

impl EvalError {
    /// The text of this failure.
    pub fn text_chars(&self, interp: &Interp) -> (r: Vec<char>)
        ensures
            r@ == err_text(interp@.atoms, self@),
    {
        proof {
            lemma_view_seq(interp.atoms@);
        }
        let mut out: Vec<char> = Vec::new();
        match self {
            EvalError::InvalidHashKey(m) => {
                push_str_chars(&mut out, "Invalid hash key: ");
                let p = m.pr_chars(interp, true, interp.atoms.len());
                push_chars(&mut out, &p);
            },
            EvalError::InvalidType(exp, act) => {
                push_str_chars(&mut out, "Expected ");
                push_chars(&mut out, exp);
                push_str_chars(&mut out, ", got ");
                push_chars(&mut out, act);
            },
            EvalError::WrongArgAmount => {
                push_str_chars(&mut out, "Wrong number of arguments for the function");
            },
            EvalError::SymbolNotFound(s) => {
                out.push('\'');
                push_chars(&mut out, s);
                push_str_chars(&mut out, "' not found");
            },
            EvalError::NotAFunction(m) => {
                push_str_chars(&mut out, "Not a function: ");
                let p = m.pr_chars(interp, true, interp.atoms.len());
                push_chars(&mut out, &p);
            },
            EvalError::Thrown(m) => {
                push_str_chars(&mut out, "Thrown: ");
                let p = m.pr_chars(interp, true, interp.atoms.len());
                push_chars(&mut out, &p);
            },
            EvalError::ParseFailed(p) => {
                push_str_chars(&mut out, "failed at parsing ");
                let t = p.text_chars(interp);
                push_chars(&mut out, &t);
            },
            EvalError::InvalidFile(s) => {
                push_str_chars(&mut out, "failed at loading file: ");
                push_chars(&mut out, s);
            },
        }
        proof {
            assert(out@ =~= err_text(interp@.atoms, self@));
        }
        out
    }

    /// The same text, as a `String`.
    pub fn text(&self, interp: &Interp) -> (r: String)
        ensures
            r@ == err_text(interp@.atoms, self@),
    {
        let v = self.text_chars(interp);
        crate::text::chars_to_string(&v)
    }
}

/// Escaping one more character appends its escape.
proof fn lemma_escape_snoc(s: Seq<char>, c: char)
    ensures
        escape_str(s.push(c)) == escape_str(s) + escape_char(c),
    decreases s.len(),
{
    let whole = s.push(c);
    if s.len() == 0 {
        assert(whole.subrange(1, whole.len() as int) =~= Seq::<char>::empty());
        assert(whole[0] == c);
        assert(escape_str(Seq::<char>::empty()) =~= Seq::<char>::empty());
        assert(escape_str(whole) =~= escape_char(c));
        assert(escape_str(s) =~= Seq::<char>::empty());
        assert(escape_str(s) + escape_char(c) =~= escape_char(c));
    } else {
        lemma_escape_snoc(s.subrange(1, s.len() as int), c);
        assert(whole.subrange(1, whole.len() as int) =~= s.subrange(1, s.len() as int).push(c));
        assert(whole[0] == s[0]);
        assert(escape_str(whole) =~= escape_str(s) + escape_char(c));
    }
}

} // verus!
