use vstd::prelude::*;

use crate::printer::{escape_char, escape_str, print_items, print_pairs, print_val, rest_items,
    rest_pairs};
use crate::reader::{
    atom_len, is_atom_char, is_special, is_ws, step_len, str_body_len, tokenize_spec,
};
use crate::text::{int_chars, is_digit, lemma_dec_digits, lemma_parse_int_chars};
use crate::types::{MalType, Val};

verus! {

/// A token of plain characters that the tokenizer reads back in one piece:
/// non-empty, made of plain-token characters, and not opening with one of
/// the marker characters that tokenize alone.
pub open spec fn atom_token_ok(s: Seq<char>) -> bool {
    s.len() > 0 && (forall|i: int| 0 <= i < s.len() ==> is_atom_char(s[i])) && !(s[0] == '~' || s[0]
        == '^' || s[0] == '@')
}

/// A symbol whose printed form reads back as the same symbol.
pub open spec fn sym_ok(s: Seq<char>) -> bool {
    atom_token_ok(s) && s != "nil"@ && s != "true"@ && s != "false"@ && !(is_digit(s[0]) || (s.len()
        > 1 && (s[0] == '+' || s[0] == '-') && is_digit(s[1])))
}

/// A value whose printed text reads back as the same value: no function
/// and no atom anywhere, every symbol a well-formed token, and every map's
/// keys pairwise distinct.
pub open spec fn printable(v: Val) -> bool
    decreases crate::types::val_size(v), 0nat, 0nat,
{
    match v {
        Val::Nil => true,
        Val::Bool(_) => true,
        Val::Int(n) => i64::MIN <= n <= i64::MAX,
        Val::Sym(s) => sym_ok(s),
        Val::Str(_) => true,
        Val::List(es) => printable_seq(es),
        Val::Vector(es) => printable_seq(es),
        Val::HashMap(ps) => printable_pairs(ps) && (forall|i: int, j: int|
            0 <= i < j < ps.len() ==> ps[i].0 != ps[j].0),
        _ => false,
    }
}

pub open spec fn printable_seq(es: Seq<Val>) -> bool
    decreases crate::types::seq_size(es), 1nat, es.len(),
{
    es.len() == 0 || (printable(es[0]) && printable_seq(es.subrange(1, es.len() as int)))
}

pub open spec fn printable_pairs(ps: Seq<(Val, Val)>) -> bool
    decreases crate::types::pair_seq_size(ps), 1nat, ps.len(),
{
    ps.len() == 0 || (printable(ps[0].0) && printable(ps[0].1) && printable_pairs(
        ps.subrange(1, ps.len() as int),
    ))
}

/// The tokens that a printed value consists of.
pub open spec fn print_toks(v: Val) -> Seq<Seq<char>>
    decreases crate::types::val_size(v), 0nat, 0nat,
{
    match v {
        Val::Nil => seq!["nil"@],
        Val::Bool(b) => seq![
            if b {
                "true"@
            } else {
                "false"@
            },
        ],
        Val::Int(i) => seq![int_chars(i)],
        Val::Sym(s) => seq![s],
        Val::Str(s) => seq![seq!['"'] + escape_str(s) + seq!['"']],
        Val::List(es) => seq![seq!['(']] + toks_of_seq(es) + seq![seq![')']],
        Val::Vector(es) => seq![seq!['[']] + toks_of_seq(es) + seq![seq![']']],
        Val::HashMap(ps) => seq![seq!['{']] + toks_of_pairs(ps) + seq![seq!['}']],
        _ => Seq::empty(),
    }
}

pub open spec fn toks_of_seq(es: Seq<Val>) -> Seq<Seq<char>>
    decreases crate::types::seq_size(es), 1nat, es.len(),
{
    if es.len() == 0 {
        Seq::empty()
    } else {
        print_toks(es[0]) + toks_of_seq(es.subrange(1, es.len() as int))
    }
}

pub open spec fn toks_of_pairs(ps: Seq<(Val, Val)>) -> Seq<Seq<char>>
    decreases crate::types::pair_seq_size(ps), 1nat, ps.len(),
{
    if ps.len() == 0 {
        Seq::empty()
    } else {
        print_toks(ps[0].0) + print_toks(ps[0].1) + toks_of_pairs(ps.subrange(1, ps.len() as int))
    }
}

/// Whether text may safely follow a printed value without changing how the
/// value's own text tokenizes.
pub open spec fn safe_follow(rest: Seq<char>) -> bool {
    rest.len() == 0 || is_ws(rest[0]) || rest[0] == '(' || rest[0] == ')' || rest[0] == '[' || rest[0]
        == ']' || rest[0] == '{' || rest[0] == '}'
}

/// A run of plain-token characters tokenizes as one token when what
/// follows cannot extend it.
proof fn lemma_atom_run(t: Seq<char>, rest: Seq<char>)
    requires
        forall|i: int| 0 <= i < t.len() ==> is_atom_char(t[i]),
        safe_follow(rest),
    ensures
        atom_len(t + rest) == t.len(),
    decreases t.len(),
{
    let w = t + rest;
    if t.len() == 0 {
        assert(w =~= rest);
        if rest.len() > 0 {
            assert(!is_atom_char(rest[0]));
        }
    } else {
        lemma_atom_run(t.subrange(1, t.len() as int), rest);
        assert(w[0] == t[0]);
        assert(w.subrange(1, w.len() as int) =~= t.subrange(1, t.len() as int) + rest);
    }
}

/// A plain token followed by safe text tokenizes as itself and the rest.
proof fn lemma_tok_atom(t: Seq<char>, rest: Seq<char>)
    requires
        atom_token_ok(t),
        safe_follow(rest),
    ensures
        tokenize_spec(t + rest) == seq![t] + tokenize_spec(rest),
{
    let w = t + rest;
    assert(w[0] == t[0]);
    lemma_atom_run(t, rest);
    assert(!is_ws(w[0]));
    assert(!is_special(w[0]));
    assert(w[0] != '"' && w[0] != ';');
    assert(step_len(atom_len(w), w.len()) == t.len());
    assert(w.subrange(0, t.len() as int) =~= t);
    assert(w.subrange(t.len() as int, w.len() as int) =~= rest);
}

/// The escaped body of a string, with the closing quote, spans exactly to
/// that quote.
proof fn lemma_str_body(s: Seq<char>, rest: Seq<char>)
    ensures
        str_body_len(escape_str(s) + seq!['"'] + rest) == escape_str(s).len() + 1,
    decreases s.len(),
{
    let w = escape_str(s) + seq!['"'] + rest;
    if s.len() == 0 {
        assert(escape_str(s) =~= Seq::<char>::empty());
        assert(w[0] == '"');
    } else {
        lemma_str_body(s.subrange(1, s.len() as int), rest);
        let e0 = escape_char(s[0]);
        let tail = escape_str(s.subrange(1, s.len() as int));
        assert(escape_str(s) == e0 + tail);
        if s[0] == '"' || s[0] == '\n' || s[0] == '\\' {
            assert(e0.len() == 2 && e0[0] == '\\');
            assert(w[0] == '\\');
            assert(w.len() >= 2);
            assert(w.subrange(2, w.len() as int) =~= tail + seq!['"'] + rest);
        } else {
            assert(e0 =~= seq![s[0]]);
            assert(w[0] == s[0]);
            assert(w[0] != '"' && w[0] != '\\');
            assert(w.subrange(1, w.len() as int) =~= tail + seq!['"'] + rest);
        }
    }
}

/// A string token followed by safe text tokenizes as itself and the rest.
proof fn lemma_tok_str(s: Seq<char>, rest: Seq<char>)
    ensures
        tokenize_spec((seq!['"'] + escape_str(s) + seq!['"']) + rest) == seq![
            seq!['"'] + escape_str(s) + seq!['"'],
        ] + tokenize_spec(rest),
{
    let t = seq!['"'] + escape_str(s) + seq!['"'];
    let w = t + rest;
    assert(w[0] == '"');
    assert(!is_ws(w[0]) && !is_special(w[0]) && w[0] != '~');
    lemma_str_body(s, rest);
    assert(w.subrange(1, w.len() as int) =~= escape_str(s) + seq!['"'] + rest);
    assert(step_len(1 + str_body_len(w.subrange(1, w.len() as int)), w.len()) == t.len());
    assert(w.subrange(0, t.len() as int) =~= t);
    assert(w.subrange(t.len() as int, w.len() as int) =~= rest);
}

/// A single delimiter character tokenizes alone.
proof fn lemma_tok_delim(c: char, rest: Seq<char>)
    requires
        c == '(' || c == ')' || c == '[' || c == ']' || c == '{' || c == '}',
    ensures
        tokenize_spec(seq![c] + rest) == seq![seq![c]] + tokenize_spec(rest),
{
    let w = seq![c] + rest;
    assert(w[0] == c);
    assert(is_special(c));
    assert(w.subrange(1, w.len() as int) =~= rest);
}

/// A leading space is skipped.
proof fn lemma_tok_space(rest: Seq<char>)
    ensures
        tokenize_spec(seq![' '] + rest) == tokenize_spec(rest),
{
    let w = seq![' '] + rest;
    assert(w[0] == ' ');
    assert(is_ws(w[0]));
    assert(w.subrange(1, w.len() as int) =~= rest);
}

/// Printing a printable value and tokenizing gives exactly the value's
/// tokens, whatever safely follows.
pub proof fn lemma_tok_print(atoms: Seq<Val>, v: Val, fuel: nat, rest: Seq<char>)
    requires
        printable(v),
        safe_follow(rest),
    ensures
        tokenize_spec(print_val(atoms, v, true, fuel) + rest) == print_toks(v) + tokenize_spec(
            rest,
        ),
    decreases crate::types::val_size(v), 0nat, 0nat,
{
    match v {
        Val::Nil => {
            assert(atom_token_ok("nil"@)) by {
                reveal_strlit("nil");
            }
            lemma_tok_atom("nil"@, rest);
        },
        Val::Bool(b) => {
            if b {
                assert(atom_token_ok("true"@)) by {
                    reveal_strlit("true");
                }
                lemma_tok_atom("true"@, rest);
            } else {
                assert(atom_token_ok("false"@)) by {
                    reveal_strlit("false");
                }
                lemma_tok_atom("false"@, rest);
            }
        },
        Val::Int(i) => {
            lemma_dec_digits((if i < 0 {
                -i
            } else {
                i
            }) as nat);
            assert(atom_token_ok(int_chars(i)));
            lemma_tok_atom(int_chars(i), rest);
        },
        Val::Sym(s) => {
            lemma_tok_atom(s, rest);
        },
        Val::Str(s) => {
            lemma_tok_str(s, rest);
        },
        Val::List(es) => {
            lemma_tok_items(atoms, es, fuel, seq![')'] + rest);
            lemma_tok_delim(')', rest);
            lemma_tok_delim('(', print_items(atoms, es, true, fuel) + (seq![')'] + rest));
            assert(print_val(atoms, v, true, fuel) + rest =~= seq!['('] + (print_items(
                atoms,
                es,
                true,
                fuel,
            ) + (seq![')'] + rest)));
            assert(print_toks(v) + tokenize_spec(rest) =~= seq![seq!['(']] + (toks_of_seq(es) + (
            seq![seq![')']] + tokenize_spec(rest))));
        },
        Val::Vector(es) => {
            lemma_tok_items(atoms, es, fuel, seq![']'] + rest);
            lemma_tok_delim(']', rest);
            lemma_tok_delim('[', print_items(atoms, es, true, fuel) + (seq![']'] + rest));
            assert(print_val(atoms, v, true, fuel) + rest =~= seq!['['] + (print_items(
                atoms,
                es,
                true,
                fuel,
            ) + (seq![']'] + rest)));
            assert(print_toks(v) + tokenize_spec(rest) =~= seq![seq!['[']] + (toks_of_seq(es) + (
            seq![seq![']']] + tokenize_spec(rest))));
        },
        Val::HashMap(ps) => {
            lemma_tok_map_pairs(atoms, ps, fuel, seq!['}'] + rest);
            lemma_tok_delim('}', rest);
            lemma_tok_delim('{', print_pairs(atoms, ps, true, fuel) + (seq!['}'] + rest));
            assert(print_val(atoms, v, true, fuel) + rest =~= seq!['{'] + (print_pairs(
                atoms,
                ps,
                true,
                fuel,
            ) + (seq!['}'] + rest)));
            assert(print_toks(v) + tokenize_spec(rest) =~= seq![seq!['{']] + (toks_of_pairs(ps) + (
            seq![seq!['}']] + tokenize_spec(rest))));
        },
        _ => {},
    }
}

/// As `lemma_tok_print`, for a printed element sequence.
proof fn lemma_tok_items(atoms: Seq<Val>, es: Seq<Val>, fuel: nat, rest: Seq<char>)
    requires
        printable_seq(es),
        safe_follow(rest),
        rest.len() > 0 && (rest[0] == ')' || rest[0] == ']' || rest[0] == '}'),
    ensures
        tokenize_spec(print_items(atoms, es, true, fuel) + rest) == toks_of_seq(es)
            + tokenize_spec(rest),
    decreases crate::types::seq_size(es), 1nat, es.len(),
{
    if es.len() == 0 {
        assert(print_items(atoms, es, true, fuel) + rest =~= rest);
        assert(toks_of_seq(es) + tokenize_spec(rest) =~= tokenize_spec(rest));
    } else {
        let tail = es.subrange(1, es.len() as int);
        proof_seq_size_head(es);
        lemma_tok_rest_items(atoms, tail, fuel, rest);
        lemma_tok_print(atoms, es[0], fuel, rest_items(atoms, tail, true, fuel) + rest);
        assert(safe_follow(rest_items(atoms, tail, true, fuel) + rest)) by {
            if tail.len() == 0 {
                assert(rest_items(atoms, tail, true, fuel) + rest =~= rest);
            } else {
                assert((rest_items(atoms, tail, true, fuel) + rest)[0] == ' ');
            }
        }
        assert(print_items(atoms, es, true, fuel) + rest =~= print_val(atoms, es[0], true, fuel) + (
        rest_items(atoms, tail, true, fuel) + rest));
        assert(toks_of_seq(es) + tokenize_spec(rest) =~= print_toks(es[0]) + (toks_of_seq(tail)
            + tokenize_spec(rest)));
    }
}

/// As `lemma_tok_items`, for the space-led remaining elements.
proof fn lemma_tok_rest_items(atoms: Seq<Val>, es: Seq<Val>, fuel: nat, rest: Seq<char>)
    requires
        printable_seq(es),
        safe_follow(rest),
        rest.len() > 0 && (rest[0] == ')' || rest[0] == ']' || rest[0] == '}'),
    ensures
        tokenize_spec(rest_items(atoms, es, true, fuel) + rest) == toks_of_seq(es) + tokenize_spec(
            rest,
        ),
    decreases crate::types::seq_size(es), 2nat, es.len(),
{
    if es.len() == 0 {
        assert(rest_items(atoms, es, true, fuel) + rest =~= rest);
        assert(toks_of_seq(es) + tokenize_spec(rest) =~= tokenize_spec(rest));
    } else {
        let tail = es.subrange(1, es.len() as int);
        proof_seq_size_head(es);
        lemma_tok_rest_items(atoms, tail, fuel, rest);
        lemma_tok_print(atoms, es[0], fuel, rest_items(atoms, tail, true, fuel) + rest);
        assert(safe_follow(rest_items(atoms, tail, true, fuel) + rest)) by {
            if tail.len() == 0 {
                assert(rest_items(atoms, tail, true, fuel) + rest =~= rest);
            } else {
                assert((rest_items(atoms, tail, true, fuel) + rest)[0] == ' ');
            }
        }
        lemma_tok_space(print_val(atoms, es[0], true, fuel) + (rest_items(atoms, tail, true, fuel)
            + rest));
        assert(rest_items(atoms, es, true, fuel) + rest =~= seq![' '] + (print_val(
            atoms,
            es[0],
            true,
            fuel,
        ) + (rest_items(atoms, tail, true, fuel) + rest)));
        assert(toks_of_seq(es) + tokenize_spec(rest) =~= print_toks(es[0]) + (toks_of_seq(tail)
            + tokenize_spec(rest)));
    }
}

/// As `lemma_tok_items`, for printed key/value pairs.
proof fn lemma_tok_map_pairs(atoms: Seq<Val>, ps: Seq<(Val, Val)>, fuel: nat, rest: Seq<char>)
    requires
        printable_pairs(ps),
        safe_follow(rest),
        rest.len() > 0 && (rest[0] == ')' || rest[0] == ']' || rest[0] == '}'),
    ensures
        tokenize_spec(print_pairs(atoms, ps, true, fuel) + rest) == toks_of_pairs(ps)
            + tokenize_spec(rest),
    decreases crate::types::pair_seq_size(ps), 1nat, ps.len(),
{
    if ps.len() == 0 {
        assert(print_pairs(atoms, ps, true, fuel) + rest =~= rest);
        assert(toks_of_pairs(ps) + tokenize_spec(rest) =~= tokenize_spec(rest));
    } else {
        let tail = ps.subrange(1, ps.len() as int);
        proof_pair_seq_size_head(ps);
        lemma_tok_rest_pairs(atoms, tail, fuel, rest);
        let after_v = rest_pairs(atoms, tail, true, fuel) + rest;
        assert(safe_follow(after_v)) by {
            if tail.len() == 0 {
                assert(after_v =~= rest);
            } else {
                assert(after_v[0] == ' ');
            }
        }
        lemma_tok_print(atoms, ps[0].1, fuel, after_v);
        let after_k = seq![' '] + (print_val(atoms, ps[0].1, true, fuel) + after_v);
        assert(safe_follow(after_k)) by {
            assert(after_k[0] == ' ');
        }
        lemma_tok_print(atoms, ps[0].0, fuel, after_k);
        lemma_tok_space(print_val(atoms, ps[0].1, true, fuel) + after_v);
        assert(print_pairs(atoms, ps, true, fuel) + rest =~= print_val(atoms, ps[0].0, true, fuel)
            + after_k);
        assert(toks_of_pairs(ps) + tokenize_spec(rest) =~= print_toks(ps[0].0) + (print_toks(
            ps[0].1,
        ) + (toks_of_pairs(tail) + tokenize_spec(rest))));
    }
}

/// As `lemma_tok_map_pairs`, for the space-led remaining pairs.
proof fn lemma_tok_rest_pairs(atoms: Seq<Val>, ps: Seq<(Val, Val)>, fuel: nat, rest: Seq<char>)
    requires
        printable_pairs(ps),
        safe_follow(rest),
        rest.len() > 0 && (rest[0] == ')' || rest[0] == ']' || rest[0] == '}'),
    ensures
        tokenize_spec(rest_pairs(atoms, ps, true, fuel) + rest) == toks_of_pairs(ps)
            + tokenize_spec(rest),
    decreases crate::types::pair_seq_size(ps), 2nat, ps.len(),
{
    if ps.len() == 0 {
        assert(rest_pairs(atoms, ps, true, fuel) + rest =~= rest);
        assert(toks_of_pairs(ps) + tokenize_spec(rest) =~= tokenize_spec(rest));
    } else {
        let tail = ps.subrange(1, ps.len() as int);
        proof_pair_seq_size_head(ps);
        lemma_tok_rest_pairs(atoms, tail, fuel, rest);
        let after_v = rest_pairs(atoms, tail, true, fuel) + rest;
        assert(safe_follow(after_v)) by {
            if tail.len() == 0 {
                assert(after_v =~= rest);
            } else {
                assert(after_v[0] == ' ');
            }
        }
        lemma_tok_print(atoms, ps[0].1, fuel, after_v);
        let after_k = seq![' '] + (print_val(atoms, ps[0].1, true, fuel) + after_v);
        assert(safe_follow(after_k)) by {
            assert(after_k[0] == ' ');
        }
        lemma_tok_print(atoms, ps[0].0, fuel, after_k);
        lemma_tok_space(print_val(atoms, ps[0].1, true, fuel) + after_v);
        lemma_tok_space(print_val(atoms, ps[0].0, true, fuel) + after_k);
        assert(rest_pairs(atoms, ps, true, fuel) + rest =~= seq![' '] + (print_val(
            atoms,
            ps[0].0,
            true,
            fuel,
        ) + after_k));
        assert(toks_of_pairs(ps) + tokenize_spec(rest) =~= print_toks(ps[0].0) + (print_toks(
            ps[0].1,
        ) + (toks_of_pairs(tail) + tokenize_spec(rest))));
    }
}

/// Splitting a window of tokens at a known boundary.
proof fn lemma_window_split(toks: Seq<Seq<char>>, i: int, x: Seq<Seq<char>>, y: Seq<Seq<char>>)
    requires
        0 <= i,
        i + x.len() + y.len() <= toks.len(),
        toks.subrange(i, i + x.len() + y.len()) == x + y,
    ensures
        toks.subrange(i, i + x.len()) == x,
        toks.subrange(i + x.len(), i + x.len() + y.len()) == y,
{
    assert forall|k: int| 0 <= k < x.len() implies toks.subrange(i, i + x.len())[k] == x[k] by {
        assert(toks.subrange(i, i + x.len() + y.len())[k] == (x + y)[k]);
    }
    assert(toks.subrange(i, i + x.len()) =~= x);
    assert forall|k: int|
        0 <= k < y.len() implies toks.subrange(i + x.len(), i + x.len() + y.len())[k] == y[k] by {
        assert(toks.subrange(i, i + x.len() + y.len())[k + x.len()] == (x + y)[k + x.len()]);
    }
    assert(toks.subrange(i + x.len(), i + x.len() + y.len()) =~= y);
}

/// A plain token is none of the reader-macro or bracket marker tokens.
proof fn lemma_atom_not_marker(t: Seq<char>)
    requires
        atom_token_ok(t),
    ensures
        t != "("@ && t != "["@ && t != "{"@ && t != "'"@ && t != "`"@ && t != "~"@ && t != "~@"@
            && t != "@"@,
{
    reveal_strlit("(");
    reveal_strlit("[");
    reveal_strlit("{");
    reveal_strlit("'");
    reveal_strlit("`");
    reveal_strlit("~");
    reveal_strlit("~@");
    reveal_strlit("@");
    assert(is_atom_char(t[0]));
}

/// Every printed value opens with something other than a closing bracket,
/// and prints at least one token.
proof fn lemma_first_tok(v: Val)
    requires
        printable(v),
    ensures
        print_toks(v).len() >= 1,
        print_toks(v)[0] != "}"@,
        print_toks(v)[0] != seq![')'] && print_toks(v)[0] != seq![']'] && print_toks(v)[0] != seq![
            '}',
        ],
{
    reveal_strlit("}");
    reveal_strlit("nil");
    reveal_strlit("true");
    reveal_strlit("false");
    assert("}"@ =~= seq!['}']);
    match v {
        Val::Nil => {
            assert(print_toks(v)[0][0] == 'n');
        },
        Val::Bool(b) => {
            if b {
                assert(print_toks(v)[0][0] == 't');
            } else {
                assert(print_toks(v)[0][0] == 'f');
            }
        },
        Val::Int(i) => {
            lemma_dec_digits((if i < 0 {
                -i
            } else {
                i
            }) as nat);
            assert(is_atom_char(print_toks(v)[0][0]));
        },
        Val::Sym(s) => {
            assert(is_atom_char(print_toks(v)[0][0]));
        },
        Val::Str(s) => {
            assert(print_toks(v)[0][0] == '"');
        },
        Val::List(es) => {
            assert(print_toks(v)[0] =~= seq!['(']);
        },
        Val::Vector(es) => {
            assert(print_toks(v)[0] =~= seq!['[']);
        },
        Val::HashMap(ps) => {
            assert(print_toks(v)[0] =~= seq!['{']);
        },
        _ => {},
    }
}

/// Resolving the escapes of an escaped string gives the string back.
proof fn lemma_unescape_escape(s: Seq<char>)
    ensures
        crate::reader::unesc_body(escape_str(s) + seq!['"']) == s + seq!['"'],
    decreases s.len(),
{
    let w = escape_str(s) + seq!['"'];
    if s.len() == 0 {
        assert(escape_str(s) =~= Seq::<char>::empty());
        assert(w =~= seq!['"']);
        assert(w[0] == '"');
        assert(w.subrange(1, 1) =~= Seq::<char>::empty());
        assert(crate::reader::unesc_body(Seq::<char>::empty()) =~= Seq::<char>::empty());
        assert(crate::reader::unesc_body(w) =~= seq!['"']);
        assert(s + seq!['"'] =~= seq!['"']);
    } else {
        let tail = s.subrange(1, s.len() as int);
        lemma_unescape_escape(tail);
        let e0 = escape_char(s[0]);
        assert(escape_str(s) == e0 + escape_str(tail));
        if s[0] == '"' {
            assert(e0 =~= seq!['\\', '"']);
            assert(w[0] == '\\' && w[1] == '"');
            assert(w.subrange(2, w.len() as int) =~= escape_str(tail) + seq!['"']);
            assert(crate::reader::unesc_char('"') == '"');
            assert(crate::reader::unesc_body(w) =~= s + seq!['"']);
        } else if s[0] == '\n' {
            assert(e0 =~= seq!['\\', 'n']);
            assert(w[0] == '\\' && w[1] == 'n');
            assert(w.subrange(2, w.len() as int) =~= escape_str(tail) + seq!['"']);
            assert(crate::reader::unesc_char('n') == '\n');
            assert(crate::reader::unesc_body(w) =~= s + seq!['"']);
        } else if s[0] == '\\' {
            assert(e0 =~= seq!['\\', '\\']);
            assert(w[0] == '\\' && w[1] == '\\');
            assert(w.subrange(2, w.len() as int) =~= escape_str(tail) + seq!['"']);
            assert(crate::reader::unesc_char('\\') == '\\');
            assert(crate::reader::unesc_body(w) =~= s + seq!['"']);
        } else {
            assert(e0 =~= seq![s[0]]);
            assert(w[0] == s[0]);
            assert(w[0] != '\\');
            assert(w.subrange(1, w.len() as int) =~= escape_str(tail) + seq!['"']);
            assert(crate::reader::unesc_body(w) =~= s + seq!['"']);
        }
    }
}

/// Parsing at a window that holds a printed value gives the value back,
/// ending just after it.
pub proof fn lemma_parse_print(toks: Seq<Seq<char>>, i: int, v: Val)
    requires
        printable(v),
        0 <= i,
        i + print_toks(v).len() <= toks.len(),
        toks.subrange(i, i + print_toks(v).len()) == print_toks(v),
    ensures
        crate::reader::parse_form(toks, i) == Ok::<(Val, int), crate::types::ParseErrVal>(
            (v, i + print_toks(v).len()),
        ),
    decreases crate::types::val_size(v), 0nat, 0nat,
{
    reveal_strlit("nil");
    reveal_strlit("true");
    reveal_strlit("false");
    reveal_strlit("(");
    reveal_strlit("[");
    reveal_strlit("{");
    reveal_strlit("}");
    let pt = print_toks(v);
    let t = toks[i];
    assert(t == pt[0]) by {
        assert(toks.subrange(i, i + pt.len())[0] == pt[0]);
    }
    match v {
        Val::Nil => {
            lemma_atom_not_marker(t);
            assert(!is_digit(t[0]) && t[0] != '+' && t[0] != '-');
        },
        Val::Bool(b) => {
            lemma_atom_not_marker(t);
            assert(!is_digit(t[0]) && t[0] != '+' && t[0] != '-');
            if b {
                assert(t != "nil"@ && t != "false"@);
            } else {
                assert(t != "nil"@ && t != "true"@);
            }
        },
        Val::Int(n) => {
            lemma_dec_digits((if n < 0 {
                -n
            } else {
                n
            }) as nat);
            lemma_atom_not_marker(t);
            lemma_parse_int_chars(n);
            assert(is_digit(t[0]) || (t.len() > 1 && (t[0] == '+' || t[0] == '-') && is_digit(
                t[1],
            )));
        },
        Val::Sym(s) => {
            lemma_atom_not_marker(t);
            assert(t[0] != '"');
        },
        Val::Str(s) => {
            assert(t == seq!['"'] + escape_str(s) + seq!['"']);
            assert(t[0] == '"');
            assert(t != "("@ && t != "["@ && t != "{"@ && t != "'"@ && t != "`"@ && t != "~"@ && t
                != "~@"@ && t != "@"@) by {
                reveal_strlit("'");
                reveal_strlit("`");
                reveal_strlit("~");
                reveal_strlit("~@");
                reveal_strlit("@");
            }
            assert(!is_digit(t[0]) && t[0] != '+' && t[0] != '-');
            assert(t != "nil"@ && t != "true"@ && t != "false"@);
            assert(t.len() >= 2);
            assert(t[t.len() - 1] == '"');
            lemma_unescape_escape(s);
            assert(t.subrange(1, t.len() as int) =~= escape_str(s) + seq!['"']);
            let u = crate::reader::unesc_body(t.subrange(1, t.len() as int));
            assert(u == s + seq!['"']);
            assert(u.drop_last() =~= s);
        },
        Val::List(es) => {
            assert(t =~= "("@);
            assert(pt =~= seq![seq!['(']] + (toks_of_seq(es) + seq![seq![')']]));
            lemma_window_split(toks, i, seq![seq!['(']], toks_of_seq(es) + seq![seq![')']]);
            lemma_window_split(toks, i + 1, toks_of_seq(es), seq![seq![')']]);
            assert(toks[i + 1 + toks_of_seq(es).len()] == seq![')']) by {
                assert(toks.subrange(
                    i + 1 + toks_of_seq(es).len(),
                    i + 1 + toks_of_seq(es).len() + 1,
                )[0] == seq![')']);
            }
            lemma_parse_items(toks, i + 1, es, ')');
        },
        Val::Vector(es) => {
            assert(t =~= "["@);
            assert(pt =~= seq![seq!['[']] + (toks_of_seq(es) + seq![seq![']']]));
            lemma_window_split(toks, i, seq![seq!['[']], toks_of_seq(es) + seq![seq![']']]);
            lemma_window_split(toks, i + 1, toks_of_seq(es), seq![seq![']']]);
            assert(toks[i + 1 + toks_of_seq(es).len()] == seq![']']) by {
                assert(toks.subrange(
                    i + 1 + toks_of_seq(es).len(),
                    i + 1 + toks_of_seq(es).len() + 1,
                )[0] == seq![']']);
            }
            lemma_parse_items(toks, i + 1, es, ']');
        },
        Val::HashMap(ps) => {
            assert(t =~= "{"@);
            assert(pt =~= seq![seq!['{']] + (toks_of_pairs(ps) + seq![seq!['}']]));
            lemma_window_split(toks, i, seq![seq!['{']], toks_of_pairs(ps) + seq![seq!['}']]);
            lemma_window_split(toks, i + 1, toks_of_pairs(ps), seq![seq!['}']]);
            assert(toks[i + 1 + toks_of_pairs(ps).len()] == seq!['}']) by {
                assert(toks.subrange(
                    i + 1 + toks_of_pairs(ps).len(),
                    i + 1 + toks_of_pairs(ps).len() + 1,
                )[0] == seq!['}']);
            }
            lemma_parse_map_print(toks, i + 1, ps, Seq::empty(), Seq::empty());
            assert(Seq::<(Val, Val)>::empty() + ps =~= ps);
        },
        _ => {},
    }
}

/// Parsing a window of printed elements followed by the closer collects
/// exactly those elements.
proof fn lemma_parse_items(toks: Seq<Seq<char>>, i: int, es: Seq<Val>, end: char)
    requires
        printable_seq(es),
        0 <= i,
        i + toks_of_seq(es).len() + 1 <= toks.len(),
        toks.subrange(i, i + toks_of_seq(es).len()) == toks_of_seq(es),
        toks[i + toks_of_seq(es).len()] == seq![end],
        end == ')' || end == ']',
    ensures
        crate::reader::parse_seq(toks, i, end) == Ok::<(Seq<Val>, int), crate::types::ParseErrVal>(
            (es, i + toks_of_seq(es).len() + 1),
        ),
    decreases crate::types::seq_size(es), 1nat, es.len(),
{
    if es.len() == 0 {
        assert(toks[i] == seq![end]);
        assert(es =~= Seq::<Val>::empty());
    } else {
        let tail = es.subrange(1, es.len() as int);
        proof_seq_size_head(es);
        assert(toks_of_seq(es) == print_toks(es[0]) + toks_of_seq(tail));
        lemma_window_split(toks, i, print_toks(es[0]), toks_of_seq(tail));
        lemma_first_tok(es[0]);
        assert(toks[i] == print_toks(es[0])[0]) by {
            assert(toks.subrange(i, i + print_toks(es[0]).len())[0] == print_toks(es[0])[0]);
        }
        assert(toks[i] != seq![end]);
        lemma_parse_print(toks, i, es[0]);
        let j = i + print_toks(es[0]).len();
        assert(crate::reader::adv(j, i, toks.len() as int) == j);
        assert(toks_of_seq(es).len() == print_toks(es[0]).len() + toks_of_seq(tail).len());
        lemma_parse_items(toks, j, tail, end);
        assert(seq![es[0]] + tail =~= es);
    }
}

/// Parsing a window of printed pairs followed by the closing brace builds
/// the map with exactly those pairs after the accumulated ones, provided
/// all keys are distinct.
proof fn lemma_parse_map_print(
    toks: Seq<Seq<char>>,
    i: int,
    ps: Seq<(Val, Val)>,
    acc: Seq<(Val, Val)>,
    done: Seq<(Val, Val)>,
)
    requires
        printable_pairs(ps),
        acc == done,
        forall|a: int, b: int|
            0 <= a < b < done.len() + ps.len() ==> (done + ps)[a].0 != (done + ps)[b].0,
        0 <= i,
        i + toks_of_pairs(ps).len() + 1 <= toks.len(),
        toks.subrange(i, i + toks_of_pairs(ps).len()) == toks_of_pairs(ps),
        toks[i + toks_of_pairs(ps).len()] == seq!['}'],
    ensures
        crate::reader::parse_map(toks, i, acc) == Ok::<(Val, int), crate::types::ParseErrVal>(
            (Val::HashMap(done + ps), i + toks_of_pairs(ps).len() + 1),
        ),
    decreases crate::types::pair_seq_size(ps), 1nat, ps.len(),
{
    reveal_strlit("}");
    assert("}"@ =~= seq!['}']);
    if ps.len() == 0 {
        assert(toks[i] == seq!['}']);
        assert(done + ps =~= acc);
    } else {
        let k = ps[0].0;
        let w = ps[0].1;
        let tail = ps.subrange(1, ps.len() as int);
        proof_pair_seq_size_head(ps);
        assert(toks_of_pairs(ps) == print_toks(k) + print_toks(w) + toks_of_pairs(tail));
        assert(toks_of_pairs(ps) == print_toks(k) + (print_toks(w) + toks_of_pairs(tail))) by {
            assert(print_toks(k) + print_toks(w) + toks_of_pairs(tail) =~= print_toks(k) + (
            print_toks(w) + toks_of_pairs(tail)));
        }
        lemma_window_split(toks, i, print_toks(k), print_toks(w) + toks_of_pairs(tail));
        let jk = i + print_toks(k).len();
        lemma_window_split(toks, jk, print_toks(w), toks_of_pairs(tail));
        let jw = jk + print_toks(w).len();
        lemma_first_tok(k);
        lemma_first_tok(w);
        assert(toks[i] == print_toks(k)[0]) by {
            assert(toks.subrange(i, i + print_toks(k).len())[0] == print_toks(k)[0]);
        }
        assert(toks[i] != "}"@);
        lemma_parse_print(toks, i, k);
        assert(crate::reader::adv(jk, i, toks.len() as int) == jk);
        assert(toks[jk] == print_toks(w)[0]) by {
            assert(toks.subrange(jk, jk + print_toks(w).len())[0] == print_toks(w)[0]);
        }
        assert(jk < toks.len());
        assert(toks[jk] != "}"@);
        lemma_parse_print(toks, jk, w);
        assert(crate::reader::adv(jw, jk, toks.len() as int) == jw);
        // the key is new, so the insert appends
        assert(forall|a: int| 0 <= a < acc.len() ==> acc[a].0 != k) by {
            assert(forall|a: int|
                0 <= a < done.len() ==> (done + ps)[a].0 == done[a].0 && (done + ps)[done.len() as int].0
                    == k);
        }
        crate::types::lemma_map_set_absent(acc, k, w);
        assert(done.push((k, w)) + tail =~= done + ps);
        assert(forall|a: int, b: int|
            0 <= a < b < done.push((k, w)).len() + tail.len() ==> (done.push((k, w)) + tail)[a].0
                != (done.push((k, w)) + tail)[b].0) by {
            assert(done.push((k, w)) + tail =~= done + ps);
        }
        assert(toks_of_pairs(ps).len() == print_toks(k).len() + print_toks(w).len()
            + toks_of_pairs(tail).len());
        lemma_parse_map_print(toks, jw, tail, acc.push((k, w)), done.push((k, w)));
    }
}

/// The round trip: a printed value, read back, is the same value.  This
/// holds of every value that holds no function and no atom, whose symbols
/// are well-formed tokens, and whose map keys are distinct — a symbol such
/// as `a b` would print as two tokens and cannot read back.
pub proof fn lemma_read_print(atoms: Seq<Val>, v: Val, fuel: nat)
    requires
        printable(v),
    ensures
        crate::reader::read_str_spec(print_val(atoms, v, true, fuel)) == Ok::<
            Val,
            crate::types::ParseErrVal,
        >(v),
{
    lemma_tok_print(atoms, v, fuel, Seq::empty());
    assert(print_val(atoms, v, true, fuel) + Seq::<char>::empty() =~= print_val(
        atoms,
        v,
        true,
        fuel,
    ));
    assert(tokenize_spec(Seq::<char>::empty()) =~= Seq::<Seq<char>>::empty());
    let toks = print_toks(v);
    assert(tokenize_spec(print_val(atoms, v, true, fuel)) =~= toks);
    assert(toks.subrange(0, toks.len() as int) =~= toks);
    lemma_first_tok(v);
    lemma_parse_print(toks, 0, v);
}

/// Each element of a printable sequence is printable.
proof fn lemma_printable_seq_index(es: Seq<Val>, i: int)
    requires
        printable_seq(es),
        0 <= i < es.len(),
    ensures
        printable(es[i]),
    decreases es.len(),
{
    if i > 0 {
        lemma_printable_seq_index(es.subrange(1, es.len() as int), i - 1);
        assert(es.subrange(1, es.len() as int)[i - 1] == es[i]);
    }
}

/// Each pair of a printable pair sequence is printable.
proof fn lemma_printable_pairs_index(ps: Seq<(Val, Val)>, i: int)
    requires
        printable_pairs(ps),
        0 <= i < ps.len(),
    ensures
        printable(ps[i].0),
        printable(ps[i].1),
    decreases ps.len(),
{
    if i > 0 {
        lemma_printable_pairs_index(ps.subrange(1, ps.len() as int), i - 1);
        assert(ps.subrange(1, ps.len() as int)[i - 1] == ps[i]);
    }
}

/// The language's equality is reflexive on every printable value: only
/// functions and atoms fail to equal themselves, and a map with distinct
/// keys finds each of its own pairs.
pub proof fn lemma_equiv_reflexive(v: Val)
    requires
        printable(v),
    ensures
        crate::types::val_equiv(v, v),
    decreases crate::types::val_size(v), 2nat, 0nat,
{
    match v {
        Val::List(xs) => {
            lemma_seq_equiv_reflexive(xs);
        },
        Val::Vector(xs) => {
            lemma_seq_equiv_reflexive(xs);
        },
        Val::HashMap(ps) => {
            crate::types::lemma_pairs_equiv(ps, ps);
            assert forall|i: int| 0 <= i < ps.len() implies crate::types::pair_matches(
                ps,
                ps[i],
            ) by {
                assert(forall|j: int| 0 <= j < i ==> ps[j].0 != ps[i].0);
                crate::types::lemma_map_get_at(ps, ps[i].0, i);
                lemma_printable_pairs_index(ps, i);
                proof_pair_seq_size_index(ps, i);
                lemma_equiv_reflexive(ps[i].1);
            }
        },
        _ => {},
    }
}

/// Elementwise reflexivity over a printable sequence.
proof fn lemma_seq_equiv_reflexive(xs: Seq<Val>)
    requires
        printable_seq(xs),
    ensures
        crate::types::seq_equiv(xs, xs),
    decreases crate::types::seq_size(xs), 3nat, 0nat,
{
    crate::types::lemma_seq_equiv(xs, xs);
    assert forall|i: int| 0 <= i < xs.len() implies crate::types::val_equiv(xs[i], xs[i]) by {
        lemma_printable_seq_index(xs, i);
        crate::types::lemma_seq_size_index(xs, i);
        lemma_equiv_reflexive(xs[i]);
    }
}

/// A list and a vector with the same elements are equal as the language's
/// `=` sees them, although their printed forms stay distinct.
pub proof fn lemma_list_vector_cross_equal(xs: Seq<Val>)
    requires
        printable_seq(xs),
    ensures
        crate::types::val_equiv(Val::List(xs), Val::Vector(xs)),
        crate::types::val_equiv(Val::Vector(xs), Val::List(xs)),
    decreases crate::types::seq_size(xs),
{
    lemma_seq_equiv_reflexive(xs);
}

/// Any pair's sizes bound, index form.
proof fn proof_pair_seq_size_index(ps: Seq<(Val, Val)>, i: int)
    requires
        0 <= i < ps.len(),
    ensures
        crate::types::val_size(ps[i].1) <= crate::types::pair_seq_size(ps),
{
    crate::types::lemma_pair_seq_size_index(ps, i);
}

/// The head of a sequence weighs no more than the whole.
proof fn proof_seq_size_head(es: Seq<Val>)
    requires
        es.len() > 0,
    ensures
        crate::types::val_size(es[0]) <= crate::types::seq_size(es),
        crate::types::seq_size(es.subrange(1, es.len() as int)) <= crate::types::seq_size(es),
        printable_seq(es) ==> printable(es[0]) && printable_seq(es.subrange(1, es.len() as int)),
{
}

/// The head pair weighs no more than the whole.
proof fn proof_pair_seq_size_head(ps: Seq<(Val, Val)>)
    requires
        ps.len() > 0,
    ensures
        crate::types::val_size(ps[0].0) <= crate::types::pair_seq_size(ps),
        crate::types::val_size(ps[0].1) <= crate::types::pair_seq_size(ps),
        crate::types::pair_seq_size(ps.subrange(1, ps.len() as int))
            <= crate::types::pair_seq_size(ps),
        printable_pairs(ps) ==> printable(ps[0].0) && printable(ps[0].1) && printable_pairs(
            ps.subrange(1, ps.len() as int),
        ),
{
}

} // verus!
