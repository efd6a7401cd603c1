use vstd::prelude::*;

use crate::text::{
    chars_of, digit_of, dup_chars, is_digit, parse_int_spec, sym_is,
};
use crate::types::{
    lemma_view_seq, map_spec_set, view_pair_seq, view_seq, view_val, MalType, ParseError,
    ParseErrVal, ParseResult, Val,
};

verus! {

/// Whitespace as the tokenizer sees it; commas count as whitespace.
pub open spec fn is_ws(c: char) -> bool {
    c == ' ' || c == '\t' || c == '\n' || c == '\r' || c == '\u{b}' || c == '\u{c}' || c == ','
}

/// The characters that always form a one-character token.
pub open spec fn is_special(c: char) -> bool {
    c == '[' || c == ']' || c == '{' || c == '}' || c == '(' || c == ')' || c == '\'' || c == '`'
        || c == '~' || c == '^' || c == '@'
}

/// The characters that may continue a plain token.
pub open spec fn is_atom_char(c: char) -> bool {
    !is_ws(c) && !(c == '[' || c == ']' || c == '{' || c == '}' || c == '(' || c == ')' || c
        == '\'' || c == '"' || c == '`' || c == ';')
}

/// The length of the maximal run of plain-token characters at the front.
pub open spec fn atom_len(s: Seq<char>) -> nat
    decreases s.len(),
{
    if s.len() > 0 && is_atom_char(s[0]) {
        1 + atom_len(s.subrange(1, s.len() as int))
    } else {
        0
    }
}

/// How many characters a string token spans after its opening quote: pairs
/// led by a backslash stay together, and the token ends at an unescaped
/// quote (included) or at the end of the input (an unterminated token).
pub open spec fn str_body_len(s: Seq<char>) -> nat
    decreases s.len(),
{
    if s.len() == 0 {
        0
    } else if s[0] == '"' {
        1
    } else if s[0] == '\\' {
        if s.len() >= 2 {
            2 + str_body_len(s.subrange(2, s.len() as int))
        } else {
            0
        }
    } else {
        1 + str_body_len(s.subrange(1, s.len() as int))
    }
}

/// The length of the run of characters before the next line break.
pub open spec fn nonnl_len(s: Seq<char>) -> nat
    decreases s.len(),
{
    if s.len() > 0 && s[0] != '\n' {
        1 + nonnl_len(s.subrange(1, s.len() as int))
    } else {
        0
    }
}

/// A scan length clamped into `1 ..= len`, for termination of the
/// tokenizer; the scans never leave that range, so the clamp changes
/// nothing.
pub open spec fn step_len(n: nat, len: nat) -> nat {
    if n == 0 {
        1
    } else if n > len {
        len
    } else {
        n
    }
}

/// The token list of a text: whitespace and commas separate tokens, `~@`
/// and the single special characters are tokens of their own, a quote
/// starts a string token, a semicolon starts a comment that is dropped,
/// and anything else is a maximal run of plain characters.
pub open spec fn tokenize_spec(s: Seq<char>) -> Seq<Seq<char>>
    decreases s.len(),
{
    if s.len() == 0 {
        Seq::empty()
    } else if is_ws(s[0]) {
        tokenize_spec(s.subrange(1, s.len() as int))
    } else if s[0] == '~' && s.len() >= 2 && s[1] == '@' {
        seq!["~@"@] + tokenize_spec(s.subrange(2, s.len() as int))
    } else if is_special(s[0]) {
        seq![seq![s[0]]] + tokenize_spec(s.subrange(1, s.len() as int))
    } else if s[0] == '"' {
        let n = step_len(1 + str_body_len(s.subrange(1, s.len() as int)), s.len());
        seq![s.subrange(0, n as int)] + tokenize_spec(s.subrange(n as int, s.len() as int))
    } else if s[0] == ';' {
        let n = step_len(1 + nonnl_len(s.subrange(1, s.len() as int)), s.len());
        tokenize_spec(s.subrange(n as int, s.len() as int))
    } else {
        let n = step_len(atom_len(s), s.len());
        seq![s.subrange(0, n as int)] + tokenize_spec(s.subrange(n as int, s.len() as int))
    }
}

/// Model of a token vector.
pub open spec fn view_tokens(s: Seq<Vec<char>>) -> Seq<Seq<char>>
    decreases s,
{
    if s.len() == 0 {
        Seq::empty()
    } else {
        seq![s[0]@] + view_tokens(s.subrange(1, s.len() as int))
    }
}

/// `view_tokens` maps each token to its characters, index by index.
pub broadcast proof fn lemma_view_tokens(s: Seq<Vec<char>>)
    ensures
        (#[trigger] view_tokens(s)).len() == s.len(),
        forall|i: int| 0 <= i < s.len() ==> view_tokens(s)[i] == s[i]@,
    decreases s.len(),
{
    if s.len() > 0 {
        lemma_view_tokens(s.subrange(1, s.len() as int));
        assert forall|i: int| 0 <= i < s.len() implies view_tokens(s)[i] == s[i]@ by {
            if i > 0 {
                assert(s.subrange(1, s.len() as int)[i - 1] == s[i]);
            }
        }
    }
}

/// The characters of `src` from `from` up to `to`.
fn sub_chars(src: &Vec<char>, from: usize, to: usize) -> (r: Vec<char>)
    requires
        from <= to <= src@.len(),
    ensures
        r@ == src@.subrange(from as int, to as int),
{
    let mut r: Vec<char> = Vec::new();
    let mut i: usize = from;
    while i < to
        invariant
            from <= i <= to <= src@.len(),
            r@ == src@.subrange(from as int, i as int),
        decreases to - i,
    {
        r.push(src[i]);
        proof {
            assert(src@.subrange(from as int, (i + 1) as int) =~= src@.subrange(
                from as int,
                i as int,
            ).push(src@[i as int]));
        }
        i = i + 1;
    }
    r
}

/// Whether `c` continues a plain token, in executable form.
fn is_atom_char_exec(c: char) -> (r: bool)
    ensures
        r == is_atom_char(c),
{
    !(c == ' ' || c == '\t' || c == '\n' || c == '\r' || c == '\u{b}' || c == '\u{c}' || c == ','
        || c == '[' || c == ']' || c == '{' || c == '}' || c == '(' || c == ')' || c == '\'' || c
        == '"' || c == '`' || c == ';')
}

/// Splits the characters of `text` into tokens; comments are dropped.
pub fn tokenize(text: String) -> (r: Vec<String>)
    ensures
        crate::logger::view_lines(r@) == tokenize_spec(text@),
{
    let chars = chars_of(text.as_str());
    let toks = tokenize_chars(&chars);
    proof {
        lemma_view_tokens(toks@);
    }
    let mut out: Vec<String> = Vec::new();
    let mut i: usize = 0;
    while i < toks.len()
        invariant
            i <= toks@.len(),
            out@.len() == i,
            forall|j: int| 0 <= j < i ==> out@[j]@ == toks@[j]@,
            view_tokens(toks@) == tokenize_spec(text@),
            view_tokens(toks@).len() == toks@.len(),
            forall|j: int| 0 <= j < toks@.len() ==> view_tokens(toks@)[j] == toks@[j]@,
        decreases toks@.len() - i,
    {
        let s = crate::text::chars_to_string(&toks[i]);
        out.push(s);
        i = i + 1;
    }
    proof {
        crate::logger::lemma_view_lines(out@);
        assert(crate::logger::view_lines(out@) =~= view_tokens(toks@));
    }
    out
}

/// As `tokenize`, producing character vectors.
pub fn tokenize_chars(src: &Vec<char>) -> (r: Vec<Vec<char>>)
    ensures
        view_tokens(r@) == tokenize_spec(src@),
{
    let n = src.len();
    let mut out: Vec<Vec<char>> = Vec::new();
    let mut p: usize = 0;
    proof {
        lemma_view_tokens(out@);
        assert(src@.subrange(0, n as int) =~= src@);
        assert(view_tokens(out@) + tokenize_spec(src@.subrange(p as int, n as int))
            =~= tokenize_spec(src@));
    }
    while p < n
        invariant
            p <= n,
            n == src@.len(),
            tokenize_spec(src@) == view_tokens(out@) + tokenize_spec(
                src@.subrange(p as int, n as int),
            ),
        decreases n - p,
    {
        let ghost rest = src@.subrange(p as int, n as int);
        let c = src[p];
        proof {
            assert(rest[0] == src@[p as int]);
        }
        if c == ' ' || c == '\t' || c == '\n' || c == '\r' || c == '\u{b}' || c == '\u{c}' || c
            == ',' {
            proof {
                assert(rest.subrange(1, rest.len() as int) =~= src@.subrange(
                    (p + 1) as int,
                    n as int,
                ));
            }
            p = p + 1;
        } else if c == '~' && p + 1 < n && src[p + 1] == '@' {
            let tok = sub_chars(src, p, p + 2);
            proof {
                reveal_strlit("~@");
                assert(rest[1] == src@[p as int + 1]);
                assert(tok@ =~= "~@"@);
                assert(rest.subrange(2, rest.len() as int) =~= src@.subrange(
                    (p + 2) as int,
                    n as int,
                ));
                lemma_view_tokens_snoc(out@, tok);
            }
            out.push(tok);
            p = p + 2;
        } else if c == '[' || c == ']' || c == '{' || c == '}' || c == '(' || c == ')' || c == '\''
            || c == '`' || c == '~' || c == '^' || c == '@' {
            let mut tok: Vec<char> = Vec::new();
            tok.push(c);
            proof {
                assert(tok@ =~= seq![rest[0]]);
                assert(rest.subrange(1, rest.len() as int) =~= src@.subrange(
                    (p + 1) as int,
                    n as int,
                ));
                lemma_view_tokens_snoc(out@, tok);
            }
            out.push(tok);
            p = p + 1;
        } else if c == '"' {
            // scan the string token's body
            let ghost body = src@.subrange((p + 1) as int, n as int);
            let mut j: usize = p + 1;
            proof {
                assert(body.subrange(0, body.len() as int) =~= body);
                assert(body =~= src@.subrange((p + 1) as int, n as int));
            }
            let mut stop: bool = false;
            while !stop && j < n
                invariant
                    p + 1 <= j <= n,
                    n == src@.len(),
                    body == src@.subrange((p + 1) as int, n as int),
                    str_body_len(body) == (j - p - 1) + (if stop {
                        0nat
                    } else {
                        str_body_len(src@.subrange(j as int, n as int))
                    }),
                    stop ==> j <= n,
                decreases n - j, (if stop { 0int } else { 1int }),
            {
                let ghost tail = src@.subrange(j as int, n as int);
                let cj = src[j];
                proof {
                    assert(tail[0] == src@[j as int]);
                }
                if cj == '"' {
                    proof {
                        assert(str_body_len(tail) == 1);
                    }
                    j = j + 1;
                    stop = true;
                } else if cj == '\\' {
                    if j + 1 < n {
                        proof {
                            assert(tail.subrange(2, tail.len() as int) =~= src@.subrange(
                                (j + 2) as int,
                                n as int,
                            ));
                        }
                        j = j + 2;
                    } else {
                        proof {
                            assert(str_body_len(tail) == 0);
                        }
                        stop = true;
                    }
                } else {
                    proof {
                        assert(tail.subrange(1, tail.len() as int) =~= src@.subrange(
                            (j + 1) as int,
                            n as int,
                        ));
                    }
                    j = j + 1;
                }
            }
            proof {
                if !stop {
                    assert(src@.subrange(j as int, n as int) =~= Seq::<char>::empty());
                    assert(str_body_len(src@.subrange(j as int, n as int)) == 0);
                }
                assert(str_body_len(body) == j - p - 1);
            }
            let tok = sub_chars(src, p, j);
            proof {
                assert(rest.subrange(1, rest.len() as int) =~= body);
                assert(step_len(1 + str_body_len(body), rest.len()) == j - p);
                assert(tok@ =~= rest.subrange(0, step_len(
                    1 + str_body_len(rest.subrange(1, rest.len() as int)),
                    rest.len(),
                ) as int));
                assert(src@.subrange(j as int, n as int) =~= rest.subrange(
                    step_len(1 + str_body_len(rest.subrange(1, rest.len() as int)), rest.len()) as int,
                    rest.len() as int,
                ));
                lemma_view_tokens_snoc(out@, tok);
            }
            out.push(tok);
            p = j;
        } else if c == ';' {
            // a comment runs to the end of the line and is dropped
            let mut j: usize = p + 1;
            proof {
                assert(nonnl_len(src@.subrange((p + 1) as int, n as int)) == (j - p - 1)
                    + nonnl_len(src@.subrange(j as int, n as int)));
            }
            while j < n && src[j] != '\n'
                invariant
                    p + 1 <= j <= n,
                    n == src@.len(),
                    nonnl_len(src@.subrange((p + 1) as int, n as int)) == (j - p - 1) + nonnl_len(
                        src@.subrange(j as int, n as int),
                    ),
                decreases n - j,
            {
                proof {
                    let tail = src@.subrange(j as int, n as int);
                    assert(tail[0] == src@[j as int]);
                    assert(tail.subrange(1, tail.len() as int) =~= src@.subrange(
                        (j + 1) as int,
                        n as int,
                    ));
                }
                j = j + 1;
            }
            proof {
                let tail = src@.subrange(j as int, n as int);
                if j < n {
                    assert(tail[0] == src@[j as int]);
                }
                assert(nonnl_len(tail) == 0);
                assert(rest.subrange(1, rest.len() as int) =~= src@.subrange(
                    (p + 1) as int,
                    n as int,
                ));
                assert(step_len(1 + nonnl_len(src@.subrange((p + 1) as int, n as int)), rest.len())
                    == j - p);
                assert(src@.subrange(j as int, n as int) =~= rest.subrange(
                    step_len(1 + nonnl_len(rest.subrange(1, rest.len() as int)), rest.len()) as int,
                    rest.len() as int,
                ));
            }
            p = j;
        } else {
            // a maximal run of plain-token characters
            let mut j: usize = p;
            proof {
                assert(atom_len(src@.subrange(p as int, n as int)) == (j - p) + atom_len(
                    src@.subrange(j as int, n as int),
                ));
            }
            while j < n && is_atom_char_exec(src[j])
                invariant
                    p <= j <= n,
                    n == src@.len(),
                    atom_len(src@.subrange(p as int, n as int)) == (j - p) + atom_len(
                        src@.subrange(j as int, n as int),
                    ),
                decreases n - j,
            {
                proof {
                    let tail = src@.subrange(j as int, n as int);
                    assert(tail[0] == src@[j as int]);
                    assert(tail.subrange(1, tail.len() as int) =~= src@.subrange(
                        (j + 1) as int,
                        n as int,
                    ));
                }
                j = j + 1;
            }
            proof {
                let tail = src@.subrange(j as int, n as int);
                if j < n {
                    assert(tail[0] == src@[j as int]);
                }
                assert(atom_len(tail) == 0);
                assert(atom_len(rest) == j - p);
                assert(is_atom_char(rest[0]));
                assert(step_len(atom_len(rest), rest.len()) == j - p);
            }
            let tok = sub_chars(src, p, j);
            proof {
                assert(tok@ =~= rest.subrange(0, step_len(atom_len(rest), rest.len()) as int));
                assert(src@.subrange(j as int, n as int) =~= rest.subrange(
                    step_len(atom_len(rest), rest.len()) as int,
                    rest.len() as int,
                ));
                lemma_view_tokens_snoc(out@, tok);
            }
            out.push(tok);
            p = j;
        }
    }
    proof {
        assert(src@.subrange(p as int, n as int) =~= Seq::<char>::empty());
        assert(tokenize_spec(src@) =~= view_tokens(out@));
    }
    out
}

/// What a backslash escape in a string literal stands for.
pub open spec fn unesc_char(c: char) -> char {
    if c == 'n' {
        '\n'
    } else {
        c
    }
}

/// A string token's characters with escapes resolved, processed to the end
/// of the token (the closing quote is dropped afterwards).
pub open spec fn unesc_body(s: Seq<char>) -> Seq<char>
    decreases s.len(),
{
    if s.len() == 0 {
        Seq::empty()
    } else if s[0] == '\\' && s.len() >= 2 {
        seq![unesc_char(s[1])] + unesc_body(s.subrange(2, s.len() as int))
    } else {
        seq![s[0]] + unesc_body(s.subrange(1, s.len() as int))
    }
}

/// The contents of a string token: everything between the quotes, with
/// escapes resolved.
pub open spec fn unescape_spec(t: Seq<char>) -> Seq<char> {
    let u = unesc_body(t.subrange(1, t.len() as int));
    if u.len() == 0 {
        u
    } else {
        u.drop_last()
    }
}

/// What a plain token denotes: a number if it looks numeric, one of the
/// three keywords, a string if it opens with a quote (closed, or the
/// failure says so), and otherwise a symbol.
pub open spec fn parse_atom_spec(t: Seq<char>) -> Result<Val, ParseErrVal> {
    if t.len() > 0 && (is_digit(t[0]) || (t.len() > 1 && (t[0] == '+' || t[0] == '-') && is_digit(
        t[1],
    ))) {
        match parse_int_spec(t) {
            Some(v) => Ok(Val::Int(v)),
            None => Err(ParseErrVal::InvalidNum(t)),
        }
    } else if t == "nil"@ {
        Ok(Val::Nil)
    } else if t == "true"@ {
        Ok(Val::Bool(true))
    } else if t == "false"@ {
        Ok(Val::Bool(false))
    } else if t.len() > 0 && t[0] == '"' {
        if t.len() >= 2 && t[t.len() - 1] == '"' {
            Ok(Val::Str(unescape_spec(t)))
        } else {
            Err(ParseErrVal::NoClosingParen('"'))
        }
    } else {
        Ok(Val::Sym(t))
    }
}

/// A parser position that made progress, clamped for termination; the
/// parser always advances, so the clamp changes nothing.
pub open spec fn adv(p: int, i: int, len: int) -> int {
    if i < p <= len {
        p
    } else {
        i + 1
    }
}

/// What reading one form at token `i` yields: the form and the position
/// after it.  Past the end of the tokens the form is `nil`.
pub open spec fn parse_form(toks: Seq<Seq<char>>, i: int) -> Result<(Val, int), ParseErrVal>
    decreases toks.len() - i, 1nat,
{
    if !(0 <= i < toks.len()) {
        Ok((Val::Nil, i))
    } else {
        let t = toks[i];
        if t == "("@ {
            match parse_seq(toks, i + 1, ')') {
                Ok((es, j)) => Ok((Val::List(es), j)),
                Err(e) => Err(e),
            }
        } else if t == "["@ {
            match parse_seq(toks, i + 1, ']') {
                Ok((es, j)) => Ok((Val::Vector(es), j)),
                Err(e) => Err(e),
            }
        } else if t == "{"@ {
            parse_map(toks, i + 1, Seq::empty())
        } else if t == "'"@ {
            parse_wrap(toks, i, "quote"@)
        } else if t == "`"@ {
            parse_wrap(toks, i, "quasiquote"@)
        } else if t == "~"@ {
            parse_wrap(toks, i, "unquote"@)
        } else if t == "~@"@ {
            parse_wrap(toks, i, "splice-unquote"@)
        } else if t == "@"@ {
            parse_wrap(toks, i, "deref"@)
        } else {
            match parse_atom_spec(t) {
                Ok(v) => Ok((v, i + 1)),
                Err(e) => Err(e),
            }
        }
    }
}

/// A reader macro: the marker wraps the following form in a call of `name`.
pub open spec fn parse_wrap(toks: Seq<Seq<char>>, i: int, name: Seq<char>) -> Result<
    (Val, int),
    ParseErrVal,
>
    decreases toks.len() - i, 0nat,
{
    if !(0 <= i < toks.len()) {
        // past the end the wrapped form is `nil`, as `parse_form` would say
        Ok((Val::List(seq![Val::Sym(name), Val::Nil]), i + 1))
    } else {
        match parse_form(toks, i + 1) {
            Ok((v, j)) => Ok((Val::List(seq![Val::Sym(name), v]), j)),
            Err(e) => Err(e),
        }
    }
}

/// Reads forms until the matching closer; running out of tokens first is
/// `NoClosingParen`.
pub open spec fn parse_seq(toks: Seq<Seq<char>>, i: int, end: char) -> Result<
    (Seq<Val>, int),
    ParseErrVal,
>
    decreases toks.len() - i, 2nat,
{
    if !(0 <= i < toks.len()) {
        Err(ParseErrVal::NoClosingParen(end))
    } else if toks[i] == seq![end] {
        Ok((Seq::empty(), i + 1))
    } else {
        match parse_form(toks, i) {
            Err(e) => Err(e),
            Ok((v, j)) => match parse_seq(toks, adv(j, i, toks.len() as int), end) {
                Err(e) => Err(e),
                Ok((rest, k)) => Ok((seq![v] + rest, k)),
            },
        }
    }
}

/// Reads key/value pairs until the closing brace; a key without a value is
/// `MissingValue`, and a repeated key keeps its place with the new value.
pub open spec fn parse_map(toks: Seq<Seq<char>>, i: int, acc: Seq<(Val, Val)>) -> Result<
    (Val, int),
    ParseErrVal,
>
    decreases toks.len() - i, 2nat,
{
    if !(0 <= i < toks.len()) {
        Err(ParseErrVal::NoClosingParen('}'))
    } else if toks[i] == "}"@ {
        Ok((Val::HashMap(acc), i + 1))
    } else {
        match parse_form(toks, i) {
            Err(e) => Err(e),
            Ok((k, j)) => {
                let j1 = adv(j, i, toks.len() as int);
                if j1 >= toks.len() {
                    Err(ParseErrVal::NoClosingParen('}'))
                } else if toks[j1] == "}"@ {
                    Err(ParseErrVal::MissingValue(k))
                } else {
                    match parse_form(toks, j1) {
                        Err(e) => Err(e),
                        Ok((v, j2)) => parse_map(
                            toks,
                            adv(j2, j1, toks.len() as int),
                            map_spec_set(acc, k, v),
                        ),
                    }
                }
            },
        }
    }
}

/// What reading a text yields: the first form of its token list.
pub open spec fn read_str_spec(s: Seq<char>) -> Result<Val, ParseErrVal> {
    match parse_form(tokenize_spec(s), 0) {
        Ok((v, _)) => Ok(v),
        Err(e) => Err(e),
    }
}

/// Reads the first form of `text`.  An empty token list reads as `nil`.
pub fn read_str(text: String) -> (r: ParseResult)
    ensures
        match read_str_spec(text@) {
            Ok(v) => r matches Ok(m) && m@ == v,
            Err(e) => r matches Err(pe) && pe@ == e,
        },
{
    let chars = chars_of(text.as_str());
    let toks = tokenize_chars(&chars);
    match read_form(&toks, 0) {
        Ok((m, _)) => Ok(m),
        Err(e) => Err(e),
    }
}

/// Reads one form starting at token `i`; the returned position is just
/// after the form.
pub fn read_form(toks: &Vec<Vec<char>>, i: usize) -> (r: Result<(MalType, usize), ParseError>)
    ensures
        match parse_form(view_tokens(toks@), i as int) {
            Ok((v, j)) => r matches Ok(p) && p.0@ == v && p.1 == j,
            Err(e) => r matches Err(pe) && pe@ == e,
        },
        r matches Ok(p) ==> i <= p.1 && (if i < toks@.len() {
            i < p.1 && p.1 <= toks@.len()
        } else {
            p.1 == i
        }),
    decreases toks@.len() - i, 1nat,
{
    proof {
        lemma_view_tokens(toks@);
    }
    let ghost tv = view_tokens(toks@);
    if i >= toks.len() {
        return Ok((MalType::Nil, i));
    }
    let t = &toks[i];
    if sym_is(t, "(") {
        match read_seq(toks, i + 1, ')') {
            Ok((es, j)) => {
                let m = MalType::list_of(es);
                Ok((m, j))
            },
            Err(e) => Err(e),
        }
    } else if sym_is(t, "[") {
        match read_seq(toks, i + 1, ']') {
            Ok((es, j)) => {
                let m = MalType::vector_of(es);
                Ok((m, j))
            },
            Err(e) => Err(e),
        }
    } else if sym_is(t, "{") {
        read_hash_map(toks, i)
    } else if sym_is(t, "'") {
        quote_name(toks, i, "quote")
    } else if sym_is(t, "`") {
        quote_name(toks, i, "quasiquote")
    } else if sym_is(t, "~") {
        quote_name(toks, i, "unquote")
    } else if sym_is(t, "~@") {
        quote_name(toks, i, "splice-unquote")
    } else if sym_is(t, "@") {
        quote_name(toks, i, "deref")
    } else {
        match read_atom(t) {
            Ok(m) => Ok((m, i + 1)),
            Err(e) => Err(e),
        }
    }
}

/// The marker token at `i` wraps the next form in a call of `name`.
fn quote_name(toks: &Vec<Vec<char>>, i: usize, name: &str) -> (r: Result<
    (MalType, usize),
    ParseError,
>)
    requires
        i < toks@.len(),
    ensures
        match parse_wrap(view_tokens(toks@), i as int, name@) {
            Ok((v, j)) => r matches Ok(p) && p.0@ == v && p.1 == j,
            Err(e) => r matches Err(pe) && pe@ == e,
        },
        r matches Ok(p) ==> i < p.1 <= toks@.len(),
    decreases toks@.len() - i, 0nat,
{
    let n = toks.len();
    match read_form(toks, i + 1) {
        Ok((form, j)) => {
            let mut v: Vec<MalType> = Vec::new();
            v.push(MalType::symbol_of(chars_of(name)));
            v.push(form);
            proof {
                lemma_view_seq(v@);
                assert(view_seq(v@) =~= seq![Val::Sym(name@), view_val(v@[1])]);
            }
            let m = MalType::list_of(v);
            Ok((m, j))
        },
        Err(e) => Err(e),
    }
}

/// Reads forms until the closer `end`.
fn read_seq(toks: &Vec<Vec<char>>, i: usize, end: char) -> (r: Result<
    (Vec<MalType>, usize),
    ParseError,
>)
    ensures
        match parse_seq(view_tokens(toks@), i as int, end) {
            Ok((es, j)) => r matches Ok(p) && view_seq(p.0@) == es && p.1 == j,
            Err(e) => r matches Err(pe) && pe@ == e,
        },
        r matches Ok(p) ==> i < p.1 <= toks@.len(),
    decreases toks@.len() - i, 2nat,
{
    proof {
        lemma_view_tokens(toks@);
    }
    let ghost tv = view_tokens(toks@);
    if i >= toks.len() {
        return Err(ParseError::NoClosingParen(end));
    }
    let t = &toks[i];
    if t.len() == 1 && t[0] == end {
        proof {
            assert(t@ =~= seq![end]);
        }
        let empty: Vec<MalType> = Vec::new();
        proof {
            assert(view_seq(empty@) =~= Seq::<Val>::empty());
        }
        return Ok((empty, i + 1));
    }
    proof {
        assert(tv[i as int] == t@);
        assert(t@ != seq![end]) by {
            if t@ == seq![end] {
                assert(t@.len() == 1 && t@[0] == end);
            }
        }
    }
    match read_form(toks, i) {
        Err(e) => Err(e),
        Ok((v, j)) => {
            proof {
                assert(adv(j as int, i as int, tv.len() as int) == j as int);
            }
            match read_seq(toks, j, end) {
                Err(e) => Err(e),
                Ok((rest, k)) => {
                    let mut rest = rest;
                    let ghost old_rest = rest@;
                    rest.insert(0, v);
                    proof {
                        lemma_view_seq(old_rest);
                        lemma_view_seq(rest@);
                        assert(rest@ =~= seq![v].add(old_rest));
                        assert forall|q: int| 0 <= q < rest@.len() implies view_seq(rest@)[q]
                            == (seq![v@] + view_seq(old_rest))[q] by {
                            if q > 0 {
                                assert(rest@[q] == old_rest[q - 1]);
                            }
                        }
                        assert(view_seq(rest@) =~= seq![v@] + view_seq(old_rest));
                    }
                    Ok((rest, k))
                },
            }
        },
    }
}

/// Reads a map literal's pairs, starting at the `{` token.
fn read_hash_map(toks: &Vec<Vec<char>>, i: usize) -> (r: Result<(MalType, usize), ParseError>)
    requires
        i < toks@.len(),
        view_tokens(toks@)[i as int] == "{"@,
    ensures
        match parse_map(view_tokens(toks@), i as int + 1, Seq::empty()) {
            Ok((v, j)) => r matches Ok(p) && p.0@ == v && p.1 == j,
            Err(e) => r matches Err(pe) && pe@ == e,
        },
        r matches Ok(p) ==> i < p.1 <= toks@.len(),
    decreases toks@.len() - i, 0nat,
{
    let n = toks.len();
    let acc: Vec<(MalType, MalType)> = Vec::new();
    proof {
        assert(view_pair_seq(acc@) =~= Seq::<(Val, Val)>::empty());
    }
    read_map_rest(toks, i + 1, acc)
}

/// Reads the remaining key/value pairs of a map literal.
fn read_map_rest(toks: &Vec<Vec<char>>, i: usize, acc: Vec<(MalType, MalType)>) -> (r: Result<
    (MalType, usize),
    ParseError,
>)
    ensures
        match parse_map(view_tokens(toks@), i as int, view_pair_seq(acc@)) {
            Ok((v, j)) => r matches Ok(p) && p.0@ == v && p.1 == j,
            Err(e) => r matches Err(pe) && pe@ == e,
        },
        r matches Ok(p) ==> i < p.1 <= toks@.len(),
    decreases toks@.len() - i, 2nat,
{
    proof {
        lemma_view_tokens(toks@);
    }
    let ghost tv = view_tokens(toks@);
    let ghost accv = view_pair_seq(acc@);
    if i >= toks.len() {
        return Err(ParseError::NoClosingParen('}'));
    }
    if sym_is(&toks[i], "}") {
        let m = MalType::map_of(acc);
        return Ok((m, i + 1));
    }
    match read_form(toks, i) {
        Err(e) => Err(e),
        Ok((k, j)) => {
            proof {
                assert(adv(j as int, i as int, tv.len() as int) == j as int);
            }
            if j >= toks.len() {
                return Err(ParseError::NoClosingParen('}'));
            }
            if sym_is(&toks[j], "}") {
                return Err(ParseError::MissingValue(k));
            }
            match read_form(toks, j) {
                Err(e) => Err(e),
                Ok((v, j2)) => {
                    proof {
                        assert(adv(j2 as int, j as int, tv.len() as int) == j2 as int);
                    }
                    let mut acc = acc;
                    MalType::map_set(&mut acc, k, v);
                    read_map_rest(toks, j2, acc)
                },
            }
        },
    }
}

/// Reads one plain token.
pub fn read_atom(t: &Vec<char>) -> (r: Result<MalType, ParseError>)
    ensures
        match parse_atom_spec(t@) {
            Ok(v) => r matches Ok(m) && m@ == v,
            Err(e) => r matches Err(pe) && pe@ == e,
        },
{
    let numeric = t.len() > 0 && (digit_of(t[0]).is_some() || (t.len() > 1 && (t[0] == '+' || t[0]
        == '-') && digit_of(t[1]).is_some()));
    if numeric {
        match crate::text::parse_i64(t) {
            Some(v) => Ok(MalType::Integer(v)),
            None => Err(ParseError::InvalidNum(dup_chars(t))),
        }
    } else if sym_is(t, "nil") {
        Ok(MalType::Nil)
    } else if sym_is(t, "true") {
        Ok(MalType::Bool(true))
    } else if sym_is(t, "false") {
        Ok(MalType::Bool(false))
    } else if t.len() > 0 && t[0] == '"' {
        if t.len() >= 2 && t[t.len() - 1] == '"' {
            let s = parse_str(t);
            Ok(MalType::str_of(s))
        } else {
            Err(ParseError::NoClosingParen('"'))
        }
    } else {
        Ok(MalType::symbol_of(dup_chars(t)))
    }
}

/// The contents of a closed string token, with escapes resolved.
fn parse_str(t: &Vec<char>) -> (r: Vec<char>)
    requires
        t@.len() >= 2,
        t@[0] == '"',
    ensures
        r@ == unescape_spec(t@),
{
    let ghost body = t@.subrange(1, t@.len() as int);
    let n = t.len();
    let mut out: Vec<char> = Vec::new();
    let mut j: usize = 1;
    proof {
        assert(body =~= t@.subrange(1, n as int));
        assert(t@.subrange(j as int, n as int) =~= body);
    }
    while j < n
        invariant
            1 <= j <= n,
            n == t@.len(),
            body == t@.subrange(1, n as int),
            unesc_body(body) == out@ + unesc_body(t@.subrange(j as int, n as int)),
        decreases n - j,
    {
        let ghost tail = t@.subrange(j as int, n as int);
        let c = t[j];
        proof {
            assert(tail[0] == t@[j as int]);
        }
        if c == '\\' && j + 1 < n {
            let e = t[j + 1];
            let u: char = if e == 'n' {
                '\n'
            } else {
                e
            };
            proof {
                assert(tail[1] == t@[j as int + 1]);
                assert(tail.subrange(2, tail.len() as int) =~= t@.subrange(
                    (j + 2) as int,
                    n as int,
                ));
            }
            out.push(u);
            j = j + 2;
        } else {
            proof {
                assert(tail.subrange(1, tail.len() as int) =~= t@.subrange(
                    (j + 1) as int,
                    n as int,
                ));
            }
            out.push(c);
            j = j + 1;
        }
    }
    proof {
        assert(t@.subrange(j as int, n as int) =~= Seq::<char>::empty());
        assert(unesc_body(Seq::<char>::empty()) =~= Seq::<char>::empty());
        assert(out@ =~= unesc_body(body));
        assert(unesc_body(body).len() >= 1);
    }
    let popped = out.pop();
    proof {
        assert(out@ =~= unesc_body(body).drop_last());
    }
    out
}

/// Appending a token appends its characters to the model.
proof fn lemma_view_tokens_snoc(s: Seq<Vec<char>>, t: Vec<char>)
    ensures
        view_tokens(s.push(t)) == view_tokens(s) + seq![t@],
    decreases s.len(),
{
    let whole = s.push(t);
    if s.len() == 0 {
        assert(whole.subrange(1, whole.len() as int) =~= Seq::<Vec<char>>::empty());
        assert(view_tokens(Seq::<Vec<char>>::empty()) =~= Seq::<Seq<char>>::empty());
        assert(whole[0] == t);
        assert(view_tokens(whole) =~= view_tokens(s) + seq![t@]);
    } else {
        lemma_view_tokens_snoc(s.subrange(1, s.len() as int), t);
        assert(whole.subrange(1, whole.len() as int) =~= s.subrange(1, s.len() as int).push(t));
        assert(whole[0] == s[0]);
        assert(view_tokens(whole) =~= view_tokens(s) + seq![t@]);
    }
}

} // verus!
