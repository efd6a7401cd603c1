use vstd::prelude::*;

use crate::env::{
    atom_load, atom_store, atoms_push, env_get, env_set, push_frame, spec_new_bind, Env,
    Interp, StateV,
};
use crate::functions::{
    native_matches, spec_add, spec_concat, spec_cons, spec_count, spec_equal, spec_first,
    spec_greater_than, spec_greater_than_or_equal, spec_int_divide, spec_is_atom, spec_is_empty,
    spec_is_list, spec_is_symbol, spec_less_than, spec_less_than_or_equal, spec_list, spec_nth,
    spec_read_string, spec_rest, spec_subtract, spec_throw, spec_times,
};
use crate::printer::{err_text, print_val};
use crate::types::{
    kind_name, seq_size, truthy, val_size, view_seq, view_val, ErrVal, EvalError, EvalResult,
    Functions, MalType, SpecClosure, Val,
};

verus! {

/// What one dispatch step of the evaluator decides: a final answer, a tail
/// continuation (the next form and environment of the loop), or fuel
/// exhaustion.
#[verifier::ext_equal]
pub enum SpecStep {
    Ret(Result<Val, ErrVal>),
    Call(Val, int),
    Stop,
}

/// The executable counterpart of `SpecStep`'s first two cases; `None`
/// stands for `Stop`.
pub enum TailPosition {
    Return(EvalResult),
    Call(MalType, Env),
}

/// Relates an executable step to its model.
pub open spec fn step_matches(r: Option<TailPosition>, s: SpecStep) -> bool {
    match s {
        SpecStep::Stop => r is None,
        SpecStep::Ret(res) => (match r {
            Some(TailPosition::Return(x)) => native_matches(x, res),
            _ => false,
        }),
        SpecStep::Call(v, e) => (match r {
            Some(TailPosition::Call(m, en)) => m@ == v && en.0 as int == e,
            _ => false,
        }),
    }
}

/// Relates an executable evaluation result to its model.
pub open spec fn eval_matches(r: Option<EvalResult>, s: Option<(StateV, Result<Val, ErrVal>)>, stf: StateV) -> bool {
    match s {
        None => r is None,
        Some((st2, res)) => stf == st2 && (match r {
            Some(x) => native_matches(x, res),
            None => false,
        }),
    }
}

/// The printed arguments joined by `sep`.
pub open spec fn join_printed(atoms: Seq<Val>, args: Seq<Val>, readable: bool, sep: Seq<char>) -> Seq<char>
    decreases args.len(), 0nat,
{
    if args.len() == 0 {
        Seq::empty()
    } else {
        print_val(atoms, args[0], readable, atoms.len()) + join_rest(
            atoms,
            args.subrange(1, args.len() as int),
            readable,
            sep,
        )
    }
}

/// The remaining printed arguments, each preceded by `sep`.
pub open spec fn join_rest(atoms: Seq<Val>, args: Seq<Val>, readable: bool, sep: Seq<char>) -> Seq<char>
    decreases args.len(), 1nat,
{
    if args.len() == 0 {
        Seq::empty()
    } else {
        sep + print_val(atoms, args[0], readable, atoms.len()) + join_rest(
            atoms,
            args.subrange(1, args.len() as int),
            readable,
            sep,
        )
    }
}

/// Whether `v` is a non-empty list or vector.
pub open spec fn is_pair(v: Val) -> bool {
    match MalType::seq_of(v) {
        Some(es) => es.len() > 0,
        None => false,
    }
}

/// Quasiquote expansion: anything that is not a non-empty list or vector is
/// quoted; a leading `unquote` exposes its argument; a leading element that
/// itself starts with `splice-unquote` becomes a `concat` of its argument
/// with the expanded tail; anything else becomes a `cons` of the expanded
/// head onto the expanded tail.
pub open spec fn spec_quasiquote(x: Val) -> Val
    decreases val_size(x), 0nat, 0nat,
{
    if !is_pair(x) {
        Val::List(seq![Val::Sym("quote"@), x])
    } else {
        match MalType::seq_of(x) {
            Some(xs) => qq_list(xs),
            None => Val::Nil,
        }
    }
}

/// Quasiquote expansion of a non-empty sequence of forms.
pub open spec fn qq_list(xs: Seq<Val>) -> Val
    decreases seq_size(xs), xs.len(), 1nat,
{
    if xs.len() == 0 {
        Val::List(seq![Val::Sym("quote"@), Val::List(Seq::empty())])
    } else if xs[0] == Val::Sym("unquote"@) {
        if xs.len() >= 2 {
            xs[1]
        } else {
            Val::Nil
        }
    } else if is_pair(xs[0]) && (match MalType::seq_of(xs[0]) {
        Some(hs) => hs[0] == Val::Sym("splice-unquote"@),
        None => false,
    }) {
        let hs = (match MalType::seq_of(xs[0]) {
            Some(hs) => hs,
            None => Seq::empty(),
        });
        Val::List(
            seq![
                Val::Sym("concat"@),
                if hs.len() >= 2 {
                    hs[1]
                } else {
                    Val::Nil
                },
                qq_tail(xs.subrange(1, xs.len() as int)),
            ],
        )
    } else {
        Val::List(
            seq![
                Val::Sym("cons"@),
                spec_quasiquote(xs[0]),
                qq_tail(xs.subrange(1, xs.len() as int)),
            ],
        )
    }
}

/// Quasiquote expansion of a tail, which reads as the list of those forms.
pub open spec fn qq_tail(t: Seq<Val>) -> Val
    decreases seq_size(t), t.len(), 2nat,
{
    if t.len() == 0 {
        Val::List(seq![Val::Sym("quote"@), Val::List(Seq::empty())])
    } else {
        qq_list(t)
    }
}

/// Whether `ast` is a call of a macro: a non-empty list or vector whose
/// head symbol resolves to a closure with its macro flag set.
pub open spec fn is_macro_call_spec(st: StateV, ast: Val, env: int) -> bool {
    match MalType::seq_of(ast) {
        Some(xs) => xs.len() > 0 && (match xs[0] {
            Val::Sym(s) => (match env_get(st, env, s) {
                Some(Val::Closure(c)) => c.is_macro,
                _ => false,
            }),
            _ => false,
        }),
        None => false,
    }
}

/// Macro expansion: while the form is a macro call, the macro closure is
/// applied to the unevaluated remaining elements and the result replaces
/// the form.  Each round spends one unit of fuel.
pub open spec fn spec_macroexpand(st: StateV, ast: Val, env: int, fuel: nat) -> Option<
    (StateV, Result<Val, ErrVal>),
>
    decreases fuel, 9nat, 0nat,
{
    if fuel == 0 {
        None
    } else if !is_macro_call_spec(st, ast, env) {
        Some((st, Ok(ast)))
    } else {
        let xs = (match MalType::seq_of(ast) {
            Some(xs) => xs,
            None => Seq::empty(),
        });
        let name = (match xs[0] {
            Val::Sym(s) => s,
            _ => Seq::empty(),
        });
        match env_get(st, env, name) {
            Some(Val::Closure(c)) => {
                let nb = spec_new_bind(st, c.env, c.params, xs.subrange(1, xs.len() as int));
                match nb.1 {
                    Err(er) => Some((nb.0, Err(er))),
                    Ok(benv) => match spec_eval(nb.0, *c.ast, benv, (fuel - 1) as nat) {
                        None => None,
                        Some((st1, Err(e))) => Some((st1, Err(e))),
                        Some((st1, Ok(expanded))) => spec_macroexpand(
                            st1,
                            expanded,
                            env,
                            (fuel - 1) as nat,
                        ),
                    },
                }
            },
            _ => Some((st, Ok(ast))),
        }
    }
}

/// The evaluator.  A form that is not a list evaluates structurally; an
/// empty list is itself; otherwise the form is macro-expanded and either
/// handled as a special form or evaluated and applied.  Tail positions
/// continue the loop with one unit of fuel spent.
pub open spec fn spec_eval(st: StateV, ast: Val, env: int, fuel: nat) -> Option<
    (StateV, Result<Val, ErrVal>),
>
    decreases fuel, 8nat, 0nat,
{
    if fuel == 0 {
        None
    } else {
        match ast {
            Val::List(es) => {
                if es.len() == 0 {
                    Some((st, Ok(ast)))
                } else {
                    match spec_macroexpand(st, ast, env, (fuel - 1) as nat) {
                        None => None,
                        Some((st1, Err(e))) => Some((st1, Err(e))),
                        Some((st1, Ok(ast1))) => match ast1 {
                            Val::List(es1) => {
                                if es1.len() == 0 {
                                    Some((st1, Ok(ast1)))
                                } else {
                                    let stepped = spec_step(st1, es1, env, fuel);
                                    match stepped.1 {
                                        SpecStep::Stop => None,
                                        SpecStep::Ret(res) => Some((stepped.0, res)),
                                        SpecStep::Call(a2, e2) => spec_eval(
                                            stepped.0,
                                            a2,
                                            e2,
                                            (fuel - 1) as nat,
                                        ),
                                    }
                                }
                            },
                            _ => spec_eval_ast(st1, ast1, env, fuel),
                        },
                    }
                }
            },
            _ => spec_eval_ast(st, ast, env, fuel),
        }
    }
}

/// One dispatch step on a macro-expanded, non-empty list.
pub open spec fn spec_step(st: StateV, es: Seq<Val>, env: int, fuel: nat) -> (StateV, SpecStep)
    decreases fuel, 7nat, 0nat,
{
    let head = es[0];
    if head == Val::Sym("def!"@) {
        spec_def(st, es, env, fuel)
    } else if head == Val::Sym("defmacro!"@) {
        spec_defmacro(st, es, env, fuel)
    } else if head == Val::Sym("macroexpand"@) {
        spec_macroexpand_form(st, es, env, fuel)
    } else if head == Val::Sym("let*"@) {
        spec_let(st, es, env, fuel)
    } else if head == Val::Sym("do"@) {
        spec_do(st, es, env, fuel)
    } else if head == Val::Sym("if"@) {
        spec_if(st, es, env, fuel)
    } else if head == Val::Sym("fn*"@) {
        spec_fn_form(st, es, env)
    } else if head == Val::Sym("quote"@) {
        spec_quote(st, es)
    } else if head == Val::Sym("quasiquote"@) {
        spec_quasiquote_form(st, es, env)
    } else if head == Val::Sym("try*"@) {
        spec_try(st, es, env, fuel)
    } else {
        spec_apply_list(st, es, env, fuel)
    }
}

/// `def!`: evaluate the expression and bind the symbol in the current
/// frame; the bound value is the result.
pub open spec fn spec_def(st: StateV, es: Seq<Val>, env: int, fuel: nat) -> (StateV, SpecStep)
    decreases fuel, 6nat, 0nat,
{
    if es.len() < 2 {
        (st, SpecStep::Ret(Err(ErrVal::WrongArgAmount)))
    } else {
        match es[1] {
            Val::Sym(k) => {
                if es.len() < 3 {
                    (st, SpecStep::Ret(Err(ErrVal::WrongArgAmount)))
                } else if fuel == 0 {
                    (st, SpecStep::Stop)
                } else {
                    match spec_eval(st, es[2], env, (fuel - 1) as nat) {
                        None => (st, SpecStep::Stop),
                        Some((st1, Err(e))) => (st1, SpecStep::Ret(Err(e))),
                        Some((st1, Ok(v))) => (env_set(st1, env, k, v), SpecStep::Ret(Ok(v))),
                    }
                }
            },
            other => (
                st,
                SpecStep::Ret(Err(ErrVal::InvalidType("symbol"@, kind_name(other)))),
            ),
        }
    }
}

/// `defmacro!`: as `def!`, except that the value must be a closure and is
/// bound with its macro flag set.
pub open spec fn spec_defmacro(st: StateV, es: Seq<Val>, env: int, fuel: nat) -> (StateV, SpecStep)
    decreases fuel, 6nat, 0nat,
{
    if es.len() < 2 {
        (st, SpecStep::Ret(Err(ErrVal::WrongArgAmount)))
    } else {
        match es[1] {
            Val::Sym(k) => {
                if es.len() < 3 {
                    (st, SpecStep::Ret(Err(ErrVal::WrongArgAmount)))
                } else if fuel == 0 {
                    (st, SpecStep::Stop)
                } else {
                    match spec_eval(st, es[2], env, (fuel - 1) as nat) {
                        None => (st, SpecStep::Stop),
                        Some((st1, Err(e))) => (st1, SpecStep::Ret(Err(e))),
                        Some((st1, Ok(v))) => match v {
                            Val::Closure(c) => {
                                let m = Val::Closure(
                                    SpecClosure {
                                        ast: c.ast,
                                        params: c.params,
                                        env: c.env,
                                        is_macro: true,
                                    },
                                );
                                (env_set(st1, env, k, m), SpecStep::Ret(Ok(m)))
                            },
                            other => (
                                st1,
                                SpecStep::Ret(
                                    Err(ErrVal::InvalidType("function"@, kind_name(other))),
                                ),
                            ),
                        },
                    }
                }
            },
            other => (
                st,
                SpecStep::Ret(Err(ErrVal::InvalidType("symbol"@, kind_name(other)))),
            ),
        }
    }
}

/// The `macroexpand` form: expand fully without evaluating.
pub open spec fn spec_macroexpand_form(st: StateV, es: Seq<Val>, env: int, fuel: nat) -> (
    StateV,
    SpecStep,
)
    decreases fuel, 6nat, 0nat,
{
    if es.len() < 2 {
        (st, SpecStep::Ret(Err(ErrVal::WrongArgAmount)))
    } else if fuel == 0 {
        (st, SpecStep::Stop)
    } else {
        match spec_macroexpand(st, es[1], env, (fuel - 1) as nat) {
            None => (st, SpecStep::Stop),
            Some((st1, r)) => (st1, SpecStep::Ret(r)),
        }
    }
}

/// `let*`: a fresh child frame, the binding pairs evaluated in it in
/// order, and the body in tail position in that frame.
pub open spec fn spec_let(st: StateV, es: Seq<Val>, env: int, fuel: nat) -> (StateV, SpecStep)
    decreases fuel, 6nat, 0nat,
{
    let child = st.frames.len() as int;
    let st1 = push_frame(st, Some(env));
    if es.len() < 2 {
        (st1, SpecStep::Ret(Err(ErrVal::WrongArgAmount)))
    } else {
        match MalType::seq_of(es[1]) {
            None => (
                st1,
                SpecStep::Ret(Err(ErrVal::InvalidType("list"@, kind_name(es[1])))),
            ),
            Some(bs) => match spec_let_bind(st1, child, bs, fuel) {
                None => (st1, SpecStep::Stop),
                Some((st2, Some(e))) => (st2, SpecStep::Ret(Err(e))),
                Some((st2, None)) => {
                    if es.len() < 3 {
                        (st2, SpecStep::Ret(Err(ErrVal::WrongArgAmount)))
                    } else {
                        (st2, SpecStep::Call(es[2], child))
                    }
                },
            },
        }
    }
}

/// The binding pairs of a `let*`, evaluated left to right in the growing
/// frame, so that later pairs see the earlier ones.
pub open spec fn spec_let_bind(st: StateV, e: int, bs: Seq<Val>, fuel: nat) -> Option<
    (StateV, Option<ErrVal>),
>
    decreases fuel, 4nat, bs.len(),
{
    if bs.len() == 0 {
        Some((st, None))
    } else {
        match bs[0] {
            Val::Sym(k) => {
                if bs.len() < 2 {
                    Some((st, Some(ErrVal::WrongArgAmount)))
                } else if fuel == 0 {
                    None
                } else {
                    match spec_eval(st, bs[1], e, (fuel - 1) as nat) {
                        None => None,
                        Some((st1, Err(er))) => Some((st1, Some(er))),
                        Some((st1, Ok(v))) => spec_let_bind(
                            env_set(st1, e, k, v),
                            e,
                            bs.subrange(2, bs.len() as int),
                            fuel,
                        ),
                    }
                }
            },
            other => Some((st, Some(ErrVal::InvalidType("symbol"@, kind_name(other))))),
        }
    }
}

/// `do`: every expression but the last evaluated for effect, the last in
/// tail position.
pub open spec fn spec_do(st: StateV, es: Seq<Val>, env: int, fuel: nat) -> (StateV, SpecStep)
    decreases fuel, 6nat, 0nat,
{
    if es.len() < 2 {
        (st, SpecStep::Ret(Err(ErrVal::WrongArgAmount)))
    } else {
        match spec_do_seq(st, es.subrange(1, es.len() - 1), env, fuel) {
            None => (st, SpecStep::Stop),
            Some((st1, Some(e))) => (st1, SpecStep::Ret(Err(e))),
            Some((st1, None)) => (st1, SpecStep::Call(es[es.len() - 1], env)),
        }
    }
}

/// The leading expressions of a `do`, evaluated for effect.
pub open spec fn spec_do_seq(st: StateV, es: Seq<Val>, env: int, fuel: nat) -> Option<
    (StateV, Option<ErrVal>),
>
    decreases fuel, 4nat, es.len(),
{
    if es.len() == 0 {
        Some((st, None))
    } else if fuel == 0 {
        None
    } else {
        match spec_eval(st, es[0], env, (fuel - 1) as nat) {
            None => None,
            Some((st1, Err(e))) => Some((st1, Some(e))),
            Some((st1, Ok(_))) => spec_do_seq(st1, es.subrange(1, es.len() as int), env, fuel),
        }
    }
}

/// `if`: the condition decides between the two branches, each in tail
/// position; everything but `false` and `nil` counts as true, and a
/// missing else branch reads as `nil`.
pub open spec fn spec_if(st: StateV, es: Seq<Val>, env: int, fuel: nat) -> (StateV, SpecStep)
    decreases fuel, 6nat, 0nat,
{
    if es.len() < 2 {
        (st, SpecStep::Ret(Err(ErrVal::WrongArgAmount)))
    } else if fuel == 0 {
        (st, SpecStep::Stop)
    } else {
        match spec_eval(st, es[1], env, (fuel - 1) as nat) {
            None => (st, SpecStep::Stop),
            Some((st1, Err(e))) => (st1, SpecStep::Ret(Err(e))),
            Some((st1, Ok(c))) => {
                if truthy(c) {
                    if es.len() < 3 {
                        (st1, SpecStep::Ret(Err(ErrVal::WrongArgAmount)))
                    } else {
                        (st1, SpecStep::Call(es[2], env))
                    }
                } else {
                    if es.len() < 4 {
                        (st1, SpecStep::Ret(Ok(Val::Nil)))
                    } else {
                        (st1, SpecStep::Call(es[3], env))
                    }
                }
            },
        }
    }
}

/// `fn*`: a closure value capturing the current environment, the parameter
/// forms, and the unevaluated body.
pub open spec fn spec_fn_form(st: StateV, es: Seq<Val>, env: int) -> (StateV, SpecStep) {
    if es.len() < 2 {
        (st, SpecStep::Ret(Err(ErrVal::WrongArgAmount)))
    } else {
        match MalType::seq_of(es[1]) {
            None => (
                st,
                SpecStep::Ret(Err(ErrVal::InvalidType("list"@, kind_name(es[1])))),
            ),
            Some(ps) => {
                if es.len() < 3 {
                    (st, SpecStep::Ret(Err(ErrVal::WrongArgAmount)))
                } else {
                    (
                        st,
                        SpecStep::Ret(
                            Ok(
                                Val::Closure(
                                    SpecClosure {
                                        ast: Box::new(es[2]),
                                        params: ps,
                                        env: env,
                                        is_macro: false,
                                    },
                                ),
                            ),
                        ),
                    )
                }
            },
        }
    }
}

/// `quote`: the argument, unevaluated.
pub open spec fn spec_quote(st: StateV, es: Seq<Val>) -> (StateV, SpecStep) {
    if es.len() < 2 {
        (st, SpecStep::Ret(Err(ErrVal::WrongArgAmount)))
    } else {
        (st, SpecStep::Ret(Ok(es[1])))
    }
}

/// `quasiquote`: the expansion of the argument, in tail position.
pub open spec fn spec_quasiquote_form(st: StateV, es: Seq<Val>, env: int) -> (StateV, SpecStep) {
    if es.len() < 2 {
        (st, SpecStep::Call(Val::List(Seq::empty()), env))
    } else {
        (st, SpecStep::Call(spec_quasiquote(es[1]), env))
    }
}

/// `try*`: the guarded expression's value on success; on an evaluation
/// failure the caught payload (the thrown value, or the failure's text) is
/// bound to the catch symbol in a fresh frame and the handler runs there
/// in tail position.
pub open spec fn spec_try(st: StateV, es: Seq<Val>, env: int, fuel: nat) -> (StateV, SpecStep)
    decreases fuel, 6nat, 0nat,
{
    if es.len() < 3 {
        (st, SpecStep::Ret(Err(ErrVal::WrongArgAmount)))
    } else {
        match MalType::seq_of(es[2]) {
            None => (
                st,
                SpecStep::Ret(Err(ErrVal::InvalidType("list"@, kind_name(es[2])))),
            ),
            Some(cs) => {
                if cs.len() < 3 {
                    (st, SpecStep::Ret(Err(ErrVal::WrongArgAmount)))
                } else {
                    match cs[1] {
                        Val::Sym(sym) => if fuel == 0 {
                            (st, SpecStep::Stop)
                        } else {
                            match spec_eval(st, es[1], env, (fuel - 1) as nat) {
                            None => (st, SpecStep::Stop),
                            Some((st1, Ok(v))) => (st1, SpecStep::Ret(Ok(v))),
                            Some((st1, Err(er))) => {
                                let payload = (match er {
                                    ErrVal::Thrown(v) => v,
                                    _ => Val::Str(err_text(st1.atoms, er)),
                                });
                                let child = st1.frames.len() as int;
                                let st2 = push_frame(st1, Some(env));
                                (env_set(st2, child, sym, payload), SpecStep::Call(cs[2], child))
                            },
                        }
                        },
                        other => (
                            st,
                            SpecStep::Ret(
                                Err(ErrVal::InvalidType("symbol"@, kind_name(other))),
                            ),
                        ),
                    }
                }
            },
        }
    }
}

/// An ordinary application: the whole list evaluates, the first result is
/// applied to the rest.
pub open spec fn spec_apply_list(st: StateV, es: Seq<Val>, env: int, fuel: nat) -> (
    StateV,
    SpecStep,
)
    decreases fuel, 6nat, 0nat,
{
    match spec_eval_ast(st, Val::List(es), env, fuel) {
        None => (st, SpecStep::Stop),
        Some((st1, Err(e))) => (st1, SpecStep::Ret(Err(e))),
        Some((st1, Ok(v))) => match v {
            Val::List(vs) => {
                if vs.len() > 0 {
                    spec_apply(st1, vs[0], vs.subrange(1, vs.len() as int), fuel)
                } else {
                    (st1, SpecStep::Ret(Err(ErrVal::WrongArgAmount)))
                }
            },
            _ => (st1, SpecStep::Ret(Err(ErrVal::WrongArgAmount))),
        },
    }
}

/// Applying a value to arguments: a native runs; a closure's parameters
/// are bound in a fresh child of its captured environment and its body is
/// the tail continuation; anything else is no function.
pub open spec fn spec_apply(st: StateV, f: Val, args: Seq<Val>, fuel: nat) -> (StateV, SpecStep)
    decreases fuel, 3nat, 0nat,
{
    match f {
        Val::Native(op) => match spec_call_native(st, op, args, fuel) {
            None => (st, SpecStep::Stop),
            Some((st1, r)) => (st1, SpecStep::Ret(r)),
        },
        Val::Closure(c) => {
            let nb = spec_new_bind(st, c.env, c.params, args);
            match nb.1 {
                Err(er) => (nb.0, SpecStep::Ret(Err(er))),
                Ok(benv) => (nb.0, SpecStep::Call(*c.ast, benv)),
            }
        },
        other => (st, SpecStep::Ret(Err(ErrVal::NotAFunction(other)))),
    }
}

/// Applying a value to arguments and running any tail continuation to the
/// end; used by the natives that call back into evaluation.
pub open spec fn spec_apply_full(st: StateV, f: Val, args: Seq<Val>, fuel: nat) -> Option<
    (StateV, Result<Val, ErrVal>),
>
    decreases fuel, 10nat, 0nat,
{
    let stepped = spec_apply(st, f, args, fuel);
    match stepped.1 {
        SpecStep::Stop => None,
        SpecStep::Ret(res) => Some((stepped.0, res)),
        SpecStep::Call(a, e) => if fuel == 0 {
            None
        } else {
            spec_eval(stepped.0, a, e, (fuel - 1) as nat)
        },
    }
}

/// Structural evaluation: symbols resolve in the environment, lists,
/// vectors and maps evaluate their parts, and everything else is itself.
pub open spec fn spec_eval_ast(st: StateV, ast: Val, env: int, fuel: nat) -> Option<
    (StateV, Result<Val, ErrVal>),
>
    decreases fuel, 5nat, 0nat,
{
    match ast {
        Val::Sym(s) => match env_get(st, env, s) {
            Some(v) => Some((st, Ok(v))),
            None => Some((st, Err(ErrVal::SymbolNotFound(s)))),
        },
        Val::List(es) => match spec_eval_seq(st, es, env, fuel) {
            None => None,
            Some((st1, Err(e))) => Some((st1, Err(e))),
            Some((st1, Ok(vs))) => Some((st1, Ok(Val::List(vs)))),
        },
        Val::Vector(es) => match spec_eval_seq(st, es, env, fuel) {
            None => None,
            Some((st1, Err(e))) => Some((st1, Err(e))),
            Some((st1, Ok(vs))) => Some((st1, Ok(Val::Vector(vs)))),
        },
        Val::HashMap(ps) => match spec_eval_pairs(st, ps, env, fuel, Seq::empty()) {
            None => None,
            Some((st1, Err(e))) => Some((st1, Err(e))),
            Some((st1, Ok(qs))) => Some((st1, Ok(Val::HashMap(qs)))),
        },
        other => Some((st, Ok(other))),
    }
}

/// The elements, each evaluated, left to right.
pub open spec fn spec_eval_seq(st: StateV, es: Seq<Val>, env: int, fuel: nat) -> Option<
    (StateV, Result<Seq<Val>, ErrVal>),
>
    decreases fuel, 4nat, es.len(),
{
    if es.len() == 0 {
        Some((st, Ok(Seq::empty())))
    } else if fuel == 0 {
        None
    } else {
        match spec_eval(st, es[0], env, (fuel - 1) as nat) {
            None => None,
            Some((st1, Err(e))) => Some((st1, Err(e))),
            Some((st1, Ok(v))) => match spec_eval_seq(
                st1,
                es.subrange(1, es.len() as int),
                env,
                fuel,
            ) {
                None => None,
                Some((st2, Err(e))) => Some((st2, Err(e))),
                Some((st2, Ok(vs))) => Some((st2, Ok(seq![v] + vs))),
            },
        }
    }
}

/// The pairs of a map literal: each key evaluates and must be hashable,
/// each value evaluates, and the pair goes into the accumulated map.
pub open spec fn spec_eval_pairs(
    st: StateV,
    ps: Seq<(Val, Val)>,
    env: int,
    fuel: nat,
    acc: Seq<(Val, Val)>,
) -> Option<(StateV, Result<Seq<(Val, Val)>, ErrVal>)>
    decreases fuel, 4nat, ps.len(),
{
    if ps.len() == 0 {
        Some((st, Ok(acc)))
    } else if fuel == 0 {
        None
    } else {
        match spec_eval(st, ps[0].0, env, (fuel - 1) as nat) {
            None => None,
            Some((st1, Err(e))) => Some((st1, Err(e))),
            Some((st1, Ok(k))) => {
                if !crate::types::hashable_key(k) {
                    Some((st1, Err(ErrVal::InvalidHashKey(k))))
                } else {
                    match spec_eval(st1, ps[0].1, env, (fuel - 1) as nat) {
                        None => None,
                        Some((st2, Err(e))) => Some((st2, Err(e))),
                        Some((st2, Ok(v))) => spec_eval_pairs(
                            st2,
                            ps.subrange(1, ps.len() as int),
                            env,
                            fuel,
                            crate::types::map_spec_set(acc, k, v),
                        ),
                    }
                }
            },
        }
    }
}

/// What each native operation does to the state and returns; the pure ones
/// leave the state alone and are specified next to their implementations.
pub open spec fn spec_call_native(st: StateV, op: Functions, args: Seq<Val>, fuel: nat) -> Option<
    (StateV, Result<Val, ErrVal>),
>
    decreases fuel, 2nat, 0nat,
{
    match op {
        Functions::Add => Some((st, spec_add(args))),
        Functions::Subtract => Some((st, spec_subtract(args))),
        Functions::Times => Some((st, spec_times(args))),
        Functions::IntDivide => Some((st, spec_int_divide(args))),
        Functions::Equal => Some((st, spec_equal(args))),
        Functions::LessThan => Some((st, spec_less_than(args))),
        Functions::LessThanOrEqual => Some((st, spec_less_than_or_equal(args))),
        Functions::GreaterThan => Some((st, spec_greater_than(args))),
        Functions::GreaterThanOrEqual => Some((st, spec_greater_than_or_equal(args))),
        Functions::List => Some((st, spec_list(args))),
        Functions::IsList => Some((st, spec_is_list(args))),
        Functions::IsEmpty => Some((st, spec_is_empty(args))),
        Functions::Count => Some((st, spec_count(args))),
        Functions::IsAtom => Some((st, spec_is_atom(args))),
        Functions::IsSymbol => Some((st, spec_is_symbol(args))),
        Functions::Cons => Some((st, spec_cons(args))),
        Functions::Concat => Some((st, spec_concat(args))),
        Functions::First => Some((st, spec_first(args))),
        Functions::Rest => Some((st, spec_rest(args))),
        Functions::Nth => Some((st, spec_nth(args))),
        Functions::Throw => Some((st, spec_throw(args))),
        Functions::ReadString => Some((st, spec_read_string(args))),
        Functions::PrStr => Some((st, Ok(Val::Str(join_printed(st.atoms, args, true, " "@))))),
        Functions::Str => Some((st, Ok(Val::Str(join_printed(st.atoms, args, false, ""@))))),
        Functions::Prn => Some(
            (
                StateV { out: st.out.push(join_printed(st.atoms, args, true, " "@)), ..st },
                Ok(Val::Nil),
            ),
        ),
        Functions::Println => Some(
            (
                StateV { out: st.out.push(join_printed(st.atoms, args, false, " "@)), ..st },
                Ok(Val::Nil),
            ),
        ),
        Functions::AtomNew => if args.len() < 1 {
            Some((st, Err(ErrVal::WrongArgAmount)))
        } else {
            Some((atoms_push(st, args[0]), Ok(Val::Atom(st.atoms.len() as int))))
        },
        Functions::Deref => if args.len() < 1 {
            Some((st, Err(ErrVal::WrongArgAmount)))
        } else {
            match args[0] {
                Val::Atom(i) => match atom_load(st, i) {
                    Some(v) => Some((st, Ok(v))),
                    None => Some((st, Err(ErrVal::InvalidType("Atom"@, "atom"@)))),
                },
                other => Some((st, Err(ErrVal::InvalidType("Atom"@, kind_name(other))))),
            }
        },
        Functions::Reset => if args.len() < 2 {
            Some((st, Err(ErrVal::WrongArgAmount)))
        } else {
            match args[0] {
                Val::Atom(i) => Some((atom_store(st, i, args[1]), Ok(args[1]))),
                other => Some((st, Err(ErrVal::InvalidType("Atom"@, kind_name(other))))),
            }
        },
        Functions::Swap => if args.len() < 2 {
            Some((st, Err(ErrVal::WrongArgAmount)))
        } else {
            match args[0] {
                Val::Atom(i) => match atom_load(st, i) {
                    None => Some((st, Err(ErrVal::InvalidType("Atom"@, "atom"@)))),
                    Some(cur) => {
                        if fuel == 0 {
                            None
                        } else {
                            match spec_apply_full(
                                st,
                                args[1],
                                seq![cur] + args.subrange(2, args.len() as int),
                                (fuel - 1) as nat,
                            ) {
                                None => None,
                                Some((st1, Err(e))) => Some((st1, Err(e))),
                                Some((st1, Ok(v))) => Some((atom_store(st1, i, v), Ok(v))),
                            }
                        }
                    },
                },
                other => Some((st, Err(ErrVal::InvalidType("Atom"@, kind_name(other))))),
            }
        },
        Functions::Apply => if args.len() < 2 {
            Some((st, Err(ErrVal::WrongArgAmount)))
        } else {
            match MalType::seq_of(args[args.len() - 1]) {
                None => Some(
                    (
                        st,
                        Err(ErrVal::InvalidType("list"@, kind_name(args[args.len() - 1]))),
                    ),
                ),
                Some(last) => {
                    if fuel == 0 {
                        None
                    } else {
                        spec_apply_full(
                            st,
                            args[0],
                            args.subrange(1, args.len() - 1) + last,
                            (fuel - 1) as nat,
                        )
                    }
                },
            }
        },
        Functions::Eval => if args.len() < 1 {
            Some((st, Err(ErrVal::WrongArgAmount)))
        } else {
            if fuel == 0 {
                None
            } else {
                spec_eval(st, args[0], 0, (fuel - 1) as nat)
            }
        },
    }
}

/// The printed arguments joined by `sep`, in executable form.
fn join_args(interp: &Interp, args: &Vec<MalType>, from: usize, readable: bool, sep: &str) -> (r:
    Vec<char>)
    requires
        from <= args@.len(),
    ensures
        r@ == (if from == 0 {
            join_printed(interp@.atoms, view_seq(args@), readable, sep@)
        } else {
            join_rest(
                interp@.atoms,
                view_seq(args@).skip(from as int),
                readable,
                sep@,
            )
        }),
    decreases args@.len() - from, 2nat,
{
    proof {
        crate::types::lemma_view_seq(args@);
    }
    let ghost av = view_seq(args@);
    let mut out: Vec<char> = Vec::new();
    if args.len() == from {
        proof {
            if from == 0 {
                assert(av =~= Seq::<Val>::empty());
            } else {
                assert(av.skip(from as int) =~= Seq::<Val>::empty());
            }
        }
        return out;
    }
    proof {
        if from > 0 {
            assert(av.skip(from as int)[0] == av[from as int]);
            assert(av.skip(from as int).subrange(
                1,
                av.skip(from as int).len() as int,
            ) =~= av.skip(from as int + 1));
        } else {
            assert(av.subrange(1, av.len() as int) =~= av.skip(1));
        }
    }
    if from > 0 {
        crate::text::push_str_chars(&mut out, sep);
    }
    let fuel = interp.atoms.len();
    proof {
        crate::types::lemma_view_seq(interp.atoms@);
    }
    let piece = args[from].pr_chars(interp, readable, fuel);
    crate::text::push_chars(&mut out, &piece);
    let rest = join_args(interp, args, from + 1, readable, sep);
    crate::text::push_chars(&mut out, &rest);
    out
}

impl Functions {
    /// Runs this native operation; see `spec_call_native`.
    #[verifier::rlimit(50)]
    pub fn call(self, interp: &mut Interp, args: Vec<MalType>, fuel: u64) -> (r: Option<
        EvalResult,
    >)
        ensures
            eval_matches(
                r,
                spec_call_native(old(interp)@, self, view_seq(args@), fuel as nat),
                final(interp)@,
            ),
        decreases fuel, 2nat, 0nat,
    {
        proof {
            crate::types::lemma_view_seq(args@);
        }
        let ghost av = view_seq(args@);
        match self {
            Functions::Add => Some(crate::functions::add(args)),
            Functions::Subtract => Some(crate::functions::subtract(args)),
            Functions::Times => Some(crate::functions::times(args)),
            Functions::IntDivide => Some(crate::functions::int_divide(args)),
            Functions::Equal => Some(crate::functions::equal(args)),
            Functions::LessThan => Some(crate::functions::less_than(args)),
            Functions::LessThanOrEqual => Some(crate::functions::less_than_or_equal(args)),
            Functions::GreaterThan => Some(crate::functions::greater_than(args)),
            Functions::GreaterThanOrEqual => Some(crate::functions::greater_than_or_equal(args)),
            Functions::List => Some(crate::functions::list(args)),
            Functions::IsList => Some(crate::functions::is_list(args)),
            Functions::IsEmpty => Some(crate::functions::is_empty(args)),
            Functions::Count => Some(crate::functions::count(args)),
            Functions::IsAtom => Some(crate::functions::is_atom(args)),
            Functions::IsSymbol => Some(crate::functions::is_symbol(args)),
            Functions::Cons => Some(crate::functions::cons(args)),
            Functions::Concat => Some(crate::functions::concat(args)),
            Functions::First => Some(crate::functions::first(args)),
            Functions::Rest => Some(crate::functions::rest(args)),
            Functions::Nth => Some(crate::functions::nth(args)),
            Functions::Throw => Some(crate::functions::throw(args)),
            Functions::ReadString => Some(crate::functions::read_string(args)),
            Functions::PrStr => {
                let joined = join_args(interp, &args, 0, true, " ");
                Some(Ok(MalType::str_of(joined)))
            },
            Functions::Str => {
                let joined = join_args(interp, &args, 0, false, "");
                Some(Ok(MalType::str_of(joined)))
            },
            Functions::Prn => {
                let joined = join_args(interp, &args, 0, true, " ");
                let line = crate::text::chars_to_string(&joined);
                interp.logger.log(line);
                proof {
                    assert(interp@ =~= (StateV {
                        out: old(interp)@.out.push(
                            join_printed(old(interp)@.atoms, av, true, " "@),
                        ),
                        ..old(interp)@
                    }));
                }
                Some(Ok(MalType::Nil))
            },
            Functions::Println => {
                let joined = join_args(interp, &args, 0, false, " ");
                let line = crate::text::chars_to_string(&joined);
                interp.logger.log(line);
                proof {
                    assert(interp@ =~= (StateV {
                        out: old(interp)@.out.push(
                            join_printed(old(interp)@.atoms, av, false, " "@),
                        ),
                        ..old(interp)@
                    }));
                }
                Some(Ok(MalType::Nil))
            },
            Functions::AtomNew => {
                if args.len() < 1 {
                    return Some(Err(EvalError::WrongArgAmount));
                }
                let mut args = args;
                let v = args.remove(0);
                let a = interp.new_atom(v);
                Some(Ok(MalType::Atom(a)))
            },
            Functions::Deref => {
                if args.len() < 1 {
                    return Some(Err(EvalError::WrongArgAmount));
                }
                match &args[0] {
                    MalType::Atom(a) => {
                        proof {
                            assert(args@[0] == MalType::Atom(*a));
                            assert(av[0] == Val::Atom(a.0 as int));
                        }
                        match interp.atom_get(*a) {
                            Some(m) => Some(Ok(m)),
                            None => Some(
                                Err(
                                    EvalError::InvalidType(
                                        crate::text::chars_of("Atom"),
                                        crate::text::chars_of("atom"),
                                    ),
                                ),
                            ),
                        }
                    },
                    other => {
                        proof {
                            assert(args@[0] == *other);
                        }
                        Some(Err(other.type_error("Atom")))
                    },
                }
            },
            Functions::Reset => {
                if args.len() < 2 {
                    return Some(Err(EvalError::WrongArgAmount));
                }
                match &args[0] {
                    MalType::Atom(a) => {
                        proof {
                            assert(args@[0] == MalType::Atom(*a));
                            assert(av[0] == Val::Atom(a.0 as int));
                        }
                        let v = args[1].duplicate();
                        let v2 = args[1].duplicate();
                        interp.atom_set(*a, v);
                        Some(Ok(v2))
                    },
                    other => {
                        proof {
                            assert(args@[0] == *other);
                        }
                        Some(Err(other.type_error("Atom")))
                    },
                }
            },
            Functions::Swap => {
                if args.len() < 2 {
                    return Some(Err(EvalError::WrongArgAmount));
                }
                let a = match &args[0] {
                    MalType::Atom(a) => {
                        proof {
                            assert(args@[0] == MalType::Atom(*a));
                            assert(av[0] == Val::Atom(a.0 as int));
                        }
                        *a
                    },
                    other => {
                        proof {
                            assert(args@[0] == *other);
                        }
                        return Some(Err(other.type_error("Atom")));
                    },
                };
                let cur = match interp.atom_get(a) {
                    Some(m) => m,
                    None => {
                        return Some(
                            Err(
                                EvalError::InvalidType(
                                    crate::text::chars_of("Atom"),
                                    crate::text::chars_of("atom"),
                                ),
                            ),
                        );
                    },
                };
                if fuel == 0 {
                    return None;
                }
                let f = args[1].duplicate();
                let mut cargs: Vec<MalType> = Vec::new();
                cargs.push(cur);
                let mut k: usize = 2;
                while k < args.len()
                    invariant
                        2 <= k <= args@.len(),
                        av == view_seq(args@),
                        av.len() == args@.len(),
                        forall|j: int| 0 <= j < args@.len() ==> av[j] == view_val(args@[j]),
                        cargs@.len() == k - 1,
                        view_val(cargs@[0]) == (match atom_load(old(interp)@, a.0 as int) {
                            Some(v) => v,
                            None => Val::Nil,
                        }),
                        forall|j: int| 1 <= j < k - 1 ==> view_val(cargs@[j]) == av[j + 1],
                        interp@ == old(interp)@,
                    decreases args@.len() - k,
                {
                    cargs.push(args[k].duplicate());
                    k = k + 1;
                }
                proof {
                    crate::types::lemma_view_seq(cargs@);
                    assert(view_seq(cargs@) =~= seq![
                        (match atom_load(old(interp)@, a.0 as int) {
                            Some(v) => v,
                            None => Val::Nil,
                        }),
                    ] + av.subrange(2, av.len() as int));
                }
                match interp.apply_function(f, cargs, fuel - 1) {
                    None => None,
                    Some(Err(e)) => Some(Err(e)),
                    Some(Ok(v)) => {
                        let v2 = v.duplicate();
                        interp.atom_set(a, v);
                        Some(Ok(v2))
                    },
                }
            },
            Functions::Apply => {
                if args.len() < 2 {
                    return Some(Err(EvalError::WrongArgAmount));
                }
                let last_elems = match &args[args.len() - 1] {
                    MalType::List(es) => {
                        proof {
                            assert(args@[args@.len() - 1] == MalType::List(*es));
                            assert(av[av.len() - 1] == Val::List(crate::types::view_vec(*es)));
                            assert(crate::types::view_vec(*es) == view_seq(es@));
                        }
                        MalType::dup_vec(es)
                    },
                    MalType::Vector(es) => {
                        proof {
                            assert(args@[args@.len() - 1] == MalType::Vector(*es));
                            assert(av[av.len() - 1] == Val::Vector(crate::types::view_vec(*es)));
                            assert(crate::types::view_vec(*es) == view_seq(es@));
                        }
                        MalType::dup_vec(es)
                    },
                    other => {
                        proof {
                            assert(args@[args@.len() - 1] == *other);
                        }
                        return Some(Err(other.type_error("list")));
                    },
                };
                if fuel == 0 {
                    return None;
                }
                let f = args[0].duplicate();
                let ghost lastv = view_seq(last_elems@);
                let mut cargs: Vec<MalType> = Vec::new();
                let mut k: usize = 1;
                while k < args.len() - 1
                    invariant
                        1 <= k <= args@.len() - 1,
                        av == view_seq(args@),
                        av.len() == args@.len(),
                        args@.len() >= 2,
                        forall|j: int| 0 <= j < args@.len() ==> av[j] == view_val(args@[j]),
                        cargs@.len() == k - 1,
                        forall|j: int| 0 <= j < k - 1 ==> view_val(cargs@[j]) == av[j + 1],
                        interp@ == old(interp)@,
                    decreases args@.len() - k,
                {
                    cargs.push(args[k].duplicate());
                    k = k + 1;
                }
                let mut m: usize = 0;
                let ghost mid = cargs@;
                proof {
                    crate::types::lemma_view_seq(last_elems@);
                    assert(cargs@.subrange(0, mid.len() as int) =~= mid);
                }
                while m < last_elems.len()
                    invariant
                        m <= last_elems@.len(),
                        lastv == view_seq(last_elems@),
                        lastv.len() == last_elems@.len(),
                        forall|j: int|
                            0 <= j < last_elems@.len() ==> lastv[j] == view_val(last_elems@[j]),
                        cargs@.len() == mid.len() + m,
                        cargs@.subrange(0, mid.len() as int) == mid,
                        forall|j: int|
                            0 <= j < m ==> view_val(cargs@[mid.len() + j]) == lastv[j],
                        interp@ == old(interp)@,
                    decreases last_elems@.len() - m,
                {
                    cargs.push(last_elems[m].duplicate());
                    proof {
                        assert(cargs@.subrange(0, mid.len() as int) =~= mid);
                    }
                    m = m + 1;
                }
                proof {
                    crate::types::lemma_view_seq(cargs@);
                    crate::types::lemma_view_seq(mid);
                    assert forall|j: int|
                        0 <= j < cargs@.len() implies view_seq(cargs@)[j] == (av.subrange(
                        1,
                        av.len() - 1,
                    ) + lastv)[j] by {
                        if j < mid.len() {
                            assert(cargs@[j] == cargs@.subrange(0, mid.len() as int)[j]);
                            assert(cargs@[j] == mid[j]);
                            assert(view_val(mid[j]) == av[j + 1]);
                        } else {
                            assert(view_val(cargs@[j]) == lastv[j - mid.len()]);
                        }
                    }
                    assert(view_seq(cargs@) =~= av.subrange(1, av.len() - 1) + lastv);
                }
                interp.apply_function(f, cargs, fuel - 1)
            },
            Functions::Eval => {
                if args.len() < 1 {
                    return Some(Err(EvalError::WrongArgAmount));
                }
                if fuel == 0 {
                    return None;
                }
                let mut args = args;
                let form = args.remove(0);
                interp.eval(form, Env(0), fuel - 1)
            },
        }
    }
}

/// Whether `v` is a non-empty list or vector, in executable form.
pub fn is_pair_exec(v: &MalType) -> (r: bool)
    ensures
        r == is_pair(v@),
{
    match v {
        MalType::List(es) => {
            proof {
                assert(*v == MalType::List(*es));
                assert(v@ == Val::List(crate::types::view_vec(*es)));
                crate::types::lemma_view_seq(es@);
            }
            es.len() > 0
        },
        MalType::Vector(es) => {
            proof {
                assert(*v == MalType::Vector(*es));
                assert(v@ == Val::Vector(crate::types::view_vec(*es)));
                crate::types::lemma_view_seq(es@);
            }
            es.len() > 0
        },
        _ => false,
    }
}

/// A list of the symbol `name` and the given elements.
fn sym_call(name: &str, rest: Vec<MalType>) -> (r: MalType)
    ensures
        r@ == Val::List(seq![Val::Sym(name@)] + view_seq(rest@)),
{
    let mut v: Vec<MalType> = Vec::new();
    v.push(MalType::symbol_of(crate::text::chars_of(name)));
    let ghost restv = rest@;
    let mut rest = rest;
    let mut k: usize = 0;
    while k < rest.len()
        invariant
            k <= rest@.len(),
            rest@ == restv,
            v@.len() == 1 + k,
            view_val(v@[0]) == Val::Sym(name@),
            forall|j: int| 0 <= j < k ==> view_val(v@[j + 1]) == view_val(restv[j]),
        decreases rest@.len() - k,
    {
        v.push(rest[k].duplicate());
        k = k + 1;
    }
    proof {
        crate::types::lemma_view_seq(v@);
        crate::types::lemma_view_seq(restv);
        assert(view_seq(v@) =~= seq![Val::Sym(name@)] + view_seq(restv));
    }
    MalType::list_of(v)
}

/// Quasiquote expansion, in executable form.
pub fn quasiquote(x: &MalType) -> (r: MalType)
    ensures
        r@ == spec_quasiquote(x@),
    decreases val_size(x@), 0nat, 0nat,
{
    if !is_pair_exec(x) {
        let mut rest: Vec<MalType> = Vec::new();
        rest.push(x.duplicate());
        proof {
            crate::types::lemma_view_seq(rest@);
            assert(seq![Val::Sym("quote"@)] + view_seq(rest@) =~= seq![
                Val::Sym("quote"@),
                x@,
            ]);
        }
        sym_call("quote", rest)
    } else {
        match x {
            MalType::List(es) => {
                proof {
                    assert(*x == MalType::List(*es));
                    assert(x@ == Val::List(crate::types::view_vec(*es)));
                    crate::types::lemma_view_seq(es@);
                    assert(view_seq(es@).skip(0) =~= view_seq(es@));
                    assert(val_size(x@) == 1 + seq_size(view_seq(es@)));
                }
                qq_from(es, 0)
            },
            MalType::Vector(es) => {
                proof {
                    assert(*x == MalType::Vector(*es));
                    assert(x@ == Val::Vector(crate::types::view_vec(*es)));
                    crate::types::lemma_view_seq(es@);
                    assert(view_seq(es@).skip(0) =~= view_seq(es@));
                    assert(val_size(x@) == 1 + seq_size(view_seq(es@)));
                }
                qq_from(es, 0)
            },
            _ => MalType::Nil,
        }
    }
}

/// Quasiquote expansion of the elements from `from` on, read as a list.
fn qq_from(es: &Vec<MalType>, from: usize) -> (r: MalType)
    requires
        from <= es@.len(),
    ensures
        r@ == qq_tail(view_seq(es@).skip(from as int)),
    decreases seq_size(view_seq(es@).skip(from as int)), (es@.len() - from) as nat, 2nat,
{
    proof {
        crate::types::lemma_view_seq(es@);
    }
    let ghost t = view_seq(es@).skip(from as int);
    if from >= es.len() {
        let empty: Vec<MalType> = Vec::new();
        let inner = MalType::list_of(empty);
        let mut rest: Vec<MalType> = Vec::new();
        rest.push(inner);
        proof {
            assert(t =~= Seq::<Val>::empty());
            crate::types::lemma_view_seq(rest@);
            assert(seq![Val::Sym("quote"@)] + view_seq(rest@) =~= seq![
                Val::Sym("quote"@),
                Val::List(Seq::<Val>::empty()),
            ]);
        }
        return sym_call("quote", rest);
    }
    proof {
        assert(t[0] == view_seq(es@)[from as int]);
        assert(t.subrange(1, t.len() as int) =~= view_seq(es@).skip(from as int + 1));
        assert(seq_size(t) == val_size(t[0]) + seq_size(t.subrange(1, t.len() as int)));
    }
    let head = &es[from];
    let head_is_unquote = match head {
        MalType::Symbol(s) => crate::text::sym_is(s, "unquote"),
        _ => false,
    };
    if head_is_unquote {
        if from + 1 < es.len() {
            proof {
                assert(t[1] == view_seq(es@)[from as int + 1]);
            }
            return es[from + 1].duplicate();
        } else {
            return MalType::Nil;
        }
    }
    let head_is_splice = match head {
        MalType::List(hs) => {
            proof {
                assert(es@[from as int] == MalType::List(*hs));
                assert(t[0] == Val::List(crate::types::view_vec(*hs)));
                crate::types::lemma_view_seq(hs@);
            }
            hs.len() > 0 && (match &hs[0] {
                MalType::Symbol(s) => crate::text::sym_is(s, "splice-unquote"),
                _ => false,
            })
        },
        MalType::Vector(hs) => {
            proof {
                assert(es@[from as int] == MalType::Vector(*hs));
                assert(t[0] == Val::Vector(crate::types::view_vec(*hs)));
                crate::types::lemma_view_seq(hs@);
            }
            hs.len() > 0 && (match &hs[0] {
                MalType::Symbol(s) => crate::text::sym_is(s, "splice-unquote"),
                _ => false,
            })
        },
        _ => false,
    };
    if head_is_splice {
        let spliced = match head {
            MalType::List(hs) => {
                if hs.len() >= 2 {
                    hs[1].duplicate()
                } else {
                    MalType::Nil
                }
            },
            MalType::Vector(hs) => {
                if hs.len() >= 2 {
                    hs[1].duplicate()
                } else {
                    MalType::Nil
                }
            },
            _ => MalType::Nil,
        };
        let tail = qq_from(es, from + 1);
        let mut rest: Vec<MalType> = Vec::new();
        rest.push(spliced);
        rest.push(tail);
        proof {
            crate::types::lemma_view_seq(rest@);
            assert(seq![Val::Sym("concat"@)] + view_seq(rest@) =~= seq![
                Val::Sym("concat"@),
                view_val(rest@[0]),
                view_val(rest@[1]),
            ]);
        }
        sym_call("concat", rest)
    } else {
        proof {
            crate::types::lemma_seq_size_index(t, 0);
        }
        let qhead = quasiquote(&es[from]);
        let tail = qq_from(es, from + 1);
        let mut rest: Vec<MalType> = Vec::new();
        rest.push(qhead);
        rest.push(tail);
        proof {
            crate::types::lemma_view_seq(rest@);
            assert(seq![Val::Sym("cons"@)] + view_seq(rest@) =~= seq![
                Val::Sym("cons"@),
                view_val(rest@[0]),
                view_val(rest@[1]),
            ]);
        }
        sym_call("cons", rest)
    }
}

impl Interp {
    /// Whether `ast` is a call of a macro in `env`.
    pub fn is_macro_call(&self, ast: &MalType, env: Env) -> (r: bool)
        ensures
            r == is_macro_call_spec(self@, ast@, env.0 as int),
    {
        let es: &Vec<MalType> = match ast {
            MalType::List(es) => {
                proof {
                    assert(*ast == MalType::List(*es));
                    assert(ast@ == Val::List(crate::types::view_vec(*es)));
                    crate::types::lemma_view_seq(es@);
                }
                es
            },
            MalType::Vector(es) => {
                proof {
                    assert(*ast == MalType::Vector(*es));
                    assert(ast@ == Val::Vector(crate::types::view_vec(*es)));
                    crate::types::lemma_view_seq(es@);
                }
                es
            },
            _ => {
                return false;
            },
        };
        if es.len() == 0 {
            return false;
        }
        match &es[0] {
            MalType::Symbol(s) => {
                proof {
                    assert(es@[0] == MalType::Symbol(*s));
                    assert(view_seq(es@)[0] == Val::Sym(s@));
                }
                match env.get(self, s) {
                    Some(MalType::NonNativeFunction(c)) => c.is_macro,
                    Some(_) => false,
                    None => false,
                }
            },
            _ => false,
        }
    }

    /// Macro expansion; see `spec_macroexpand`.
    pub fn macroexpand(&mut self, ast: MalType, env: Env, fuel: u64) -> (r: Option<EvalResult>)
        ensures
            eval_matches(
                r,
                spec_macroexpand(old(self)@, ast@, env.0 as int, fuel as nat),
                final(self)@,
            ),
        decreases fuel, 9nat, 0nat,
    {
        if fuel == 0 {
            return None;
        }
        if !self.is_macro_call(&ast, env) {
            return Some(Ok(ast));
        }
        let es: &Vec<MalType> = match &ast {
            MalType::List(es) => {
                proof {
                    assert(ast == MalType::List(*es));
                    assert(ast@ == Val::List(crate::types::view_vec(*es)));
                    crate::types::lemma_view_seq(es@);
                }
                es
            },
            MalType::Vector(es) => {
                proof {
                    assert(ast == MalType::Vector(*es));
                    assert(ast@ == Val::Vector(crate::types::view_vec(*es)));
                    crate::types::lemma_view_seq(es@);
                }
                es
            },
            _ => {
                return Some(Ok(ast));
            },
        };
        let name: &Vec<char> = match &es[0] {
            MalType::Symbol(s) => {
                proof {
                    assert(es@[0] == MalType::Symbol(*s));
                    assert(view_seq(es@)[0] == Val::Sym(s@));
                }
                s
            },
            _ => {
                return Some(Ok(ast));
            },
        };
        let looked = env.get(self, name);
        let ghost lookedv = (match &looked {
            Some(m) => Some(m@),
            None => None::<Val>,
        });
        let c = match looked {
            Some(MalType::NonNativeFunction(c)) => c,
            _ => {
                return Some(Ok(ast));
            },
        };
        let ghost castv = c.ast@;
        let ghost cparamsv = view_seq(c.params@);
        let ghost cenvv = c.env as int;
        let ghost cflag = c.is_macro;
        proof {
            assert(lookedv == Some(Val::Closure(
                SpecClosure {
                    ast: Box::new(view_val(c.ast)),
                    params: crate::types::view_vec(c.params),
                    env: c.env as int,
                    is_macro: c.is_macro,
                },
            )));
            assert(crate::types::view_vec(c.params) == view_seq(c.params@));
            assert(lookedv == Some(Val::Closure(
                SpecClosure {
                    ast: Box::new(castv),
                    params: cparamsv,
                    env: cenvv,
                    is_macro: cflag,
                },
            )));
        }
        // collect the unevaluated arguments
        let mut args: Vec<MalType> = Vec::new();
        let mut k: usize = 1;
        while k < es.len()
            invariant
                1 <= k <= es@.len(),
                args@.len() == k - 1,
                forall|j: int| 0 <= j < k - 1 ==> view_val(args@[j]) == view_val(es@[j + 1]),
            decreases es@.len() - k,
        {
            args.push(es[k].duplicate());
            k = k + 1;
        }
        proof {
            crate::types::lemma_view_seq(args@);
            crate::types::lemma_view_seq(es@);
            assert(view_seq(args@) =~= view_seq(es@).subrange(
                1,
                view_seq(es@).len() as int,
            ));
        }
        let body = c.ast;
        let params = c.params;
        let cenv = c.env;
        match Env(cenv).new_bind(self, &params, args) {
            Err(e) => Some(Err(e)),
            Ok(benv) => match self.eval(body, benv, fuel - 1) {
                None => None,
                Some(Err(e)) => Some(Err(e)),
                Some(Ok(expanded)) => self.macroexpand(expanded, env, fuel - 1),
            },
        }
    }

    /// Structural evaluation; see `spec_eval_ast`.
    pub fn eval_ast(&mut self, ast: MalType, env: Env, fuel: u64) -> (r: Option<EvalResult>)
        ensures
            eval_matches(
                r,
                spec_eval_ast(old(self)@, ast@, env.0 as int, fuel as nat),
                final(self)@,
            ),
        decreases fuel, 5nat, 0nat,
    {
        let ghost astv = ast@;
        match ast {
            MalType::Symbol(s) => {
                proof {
                    assert(astv == Val::Sym(s@));
                }
                match env.get(self, &s) {
                    Some(v) => Some(Ok(v)),
                    None => Some(Err(EvalError::SymbolNotFound(s))),
                }
            },
            MalType::List(es) => {
                proof {
                    assert(astv == Val::List(crate::types::view_vec(es)));
                    assert(crate::types::view_vec(es) == view_seq(es@));
                }
                match self.eval_seq(es, env, fuel) {
                    None => None,
                    Some(Err(e)) => Some(Err(e)),
                    Some(Ok(vs)) => Some(Ok(MalType::list_of(vs))),
                }
            },
            MalType::Vector(es) => {
                proof {
                    assert(astv == Val::Vector(crate::types::view_vec(es)));
                    assert(crate::types::view_vec(es) == view_seq(es@));
                }
                match self.eval_seq(es, env, fuel) {
                    None => None,
                    Some(Err(e)) => Some(Err(e)),
                    Some(Ok(vs)) => Some(Ok(MalType::vector_of(vs))),
                }
            },
            MalType::HashMap(ps) => {
                proof {
                    assert(astv == Val::HashMap(crate::types::view_pair_vec(ps)));
                    assert(crate::types::view_pair_vec(ps) == crate::types::view_pair_seq(ps@));
                }
                let acc: Vec<(MalType, MalType)> = Vec::new();
                proof {
                    assert(crate::types::view_pair_seq(acc@) =~= Seq::<(Val, Val)>::empty());
                }
                match self.eval_pairs(ps, env, fuel, acc) {
                    None => None,
                    Some(Err(e)) => Some(Err(e)),
                    Some(Ok(qs)) => Some(Ok(MalType::map_of(qs))),
                }
            },
            other => {
                proof {
                    assert(astv == other@);
                }
                Some(Ok(other))
            },
        }
    }

    /// The elements, each evaluated; see `spec_eval_seq`.
    fn eval_seq(&mut self, es: Vec<MalType>, env: Env, fuel: u64) -> (r: Option<
        Result<Vec<MalType>, EvalError>,
    >)
        ensures
            ({
                match spec_eval_seq(old(self)@, view_seq(es@), env.0 as int, fuel as nat) {
                    None => r is None,
                    Some((st2, res)) => final(self)@ == st2 && (match (r, res) {
                        (Some(Ok(v)), Ok(vs)) => view_seq(v@) == vs,
                        (Some(Err(e)), Err(ev)) => e@ == ev,
                        _ => false,
                    }),
                }
            }),
        decreases fuel, 4nat, es@.len(),
    {
        proof {
            crate::types::lemma_view_seq(es@);
        }
        let ghost av = view_seq(es@);
        if es.len() == 0 {
            let out: Vec<MalType> = Vec::new();
            proof {
                assert(view_seq(out@) =~= Seq::<Val>::empty());
            }
            return Some(Ok(out));
        }
        if fuel == 0 {
            return None;
        }
        let mut es = es;
        let ghost es_before = es@;
        let first = es.remove(0);
        proof {
            assert(es@ =~= es_before.subrange(1, es_before.len() as int));
            crate::types::lemma_view_seq(es@);
            assert(view_seq(es@) =~= av.subrange(1, av.len() as int));
        }
        match self.eval(first, env, fuel - 1) {
            None => None,
            Some(Err(e)) => Some(Err(e)),
            Some(Ok(v)) => {
                match self.eval_seq(es, env, fuel) {
                    None => None,
                    Some(Err(e)) => Some(Err(e)),
                    Some(Ok(vs)) => {
                        let mut vs = vs;
                        let ghost vsv = vs@;
                        vs.insert(0, v);
                        proof {
                            crate::types::lemma_view_seq(vsv);
                            crate::types::lemma_view_seq(vs@);
                            assert forall|q: int|
                                0 <= q < vs@.len() implies view_seq(vs@)[q] == (seq![
                                view_val(vs@[0]),
                            ] + view_seq(vsv))[q] by {
                                if q > 0 {
                                    assert(vs@[q] == vsv[q - 1]);
                                }
                            }
                            assert(view_seq(vs@) =~= seq![view_val(vs@[0])] + view_seq(vsv));
                        }
                        Some(Ok(vs))
                    },
                }
            },
        }
    }

    /// The pairs of a map literal; see `spec_eval_pairs`.
    fn eval_pairs(
        &mut self,
        ps: Vec<(MalType, MalType)>,
        env: Env,
        fuel: u64,
        acc: Vec<(MalType, MalType)>,
    ) -> (r: Option<Result<Vec<(MalType, MalType)>, EvalError>>)
        ensures
            ({
                match spec_eval_pairs(
                    old(self)@,
                    crate::types::view_pair_seq(ps@),
                    env.0 as int,
                    fuel as nat,
                    crate::types::view_pair_seq(acc@),
                ) {
                    None => r is None,
                    Some((st2, res)) => final(self)@ == st2 && (match (r, res) {
                        (Some(Ok(v)), Ok(qs)) => crate::types::view_pair_seq(v@) == qs,
                        (Some(Err(e)), Err(ev)) => e@ == ev,
                        _ => false,
                    }),
                }
            }),
        decreases fuel, 4nat, ps@.len(),
    {
        proof {
            crate::types::lemma_view_pair_seq(ps@);
        }
        let ghost pv = crate::types::view_pair_seq(ps@);
        if ps.len() == 0 {
            return Some(Ok(acc));
        }
        if fuel == 0 {
            return None;
        }
        let mut ps = ps;
        let ghost ps_before = ps@;
        let (kform, vform) = ps.remove(0);
        proof {
            assert(ps@ =~= ps_before.subrange(1, ps_before.len() as int));
            crate::types::lemma_view_pair_seq(ps@);
            assert(crate::types::view_pair_seq(ps@) =~= pv.subrange(1, pv.len() as int));
        }
        match self.eval(kform, env, fuel - 1) {
            None => None,
            Some(Err(e)) => Some(Err(e)),
            Some(Ok(k)) => {
                if !k.is_hashable() {
                    return Some(Err(EvalError::InvalidHashKey(k)));
                }
                match self.eval(vform, env, fuel - 1) {
                    None => None,
                    Some(Err(e)) => Some(Err(e)),
                    Some(Ok(v)) => {
                        let mut acc = acc;
                        MalType::map_set(&mut acc, k, v);
                        self.eval_pairs(ps, env, fuel, acc)
                    },
                }
            },
        }
    }

    /// Applying a value to arguments; see `spec_apply`.
    fn apply_step(&mut self, f: MalType, args: Vec<MalType>, fuel: u64) -> (r: Option<
        TailPosition,
    >)
        ensures
            ({
                let sr = spec_apply(old(self)@, f@, view_seq(args@), fuel as nat);
                step_matches(r, sr.1) && (!(sr.1 is Stop) ==> final(self)@ == sr.0)
            }),
        decreases fuel, 3nat, 0nat,
    {
        let ghost fv = f@;
        match f {
            MalType::Function(op) => {
                match op.call(self, args, fuel) {
                    None => None,
                    Some(x) => Some(TailPosition::Return(x)),
                }
            },
            MalType::NonNativeFunction(c) => {
                let ghost castv = c.ast@;
                let ghost cparamsv = view_seq(c.params@);
                let ghost cenvv = c.env as int;
                let ghost cflag = c.is_macro;
                proof {
                    assert(fv == Val::Closure(
                        SpecClosure {
                            ast: Box::new(view_val(c.ast)),
                            params: crate::types::view_vec(c.params),
                            env: c.env as int,
                            is_macro: c.is_macro,
                        },
                    ));
                    assert(crate::types::view_vec(c.params) == view_seq(c.params@));
                    assert(fv == Val::Closure(
                        SpecClosure {
                            ast: Box::new(castv),
                            params: cparamsv,
                            env: cenvv,
                            is_macro: cflag,
                        },
                    ));
                }
                let body = c.ast;
                let params = c.params;
                let cenv = c.env;
                match Env(cenv).new_bind(self, &params, args) {
                    Err(e) => Some(TailPosition::Return(Err(e))),
                    Ok(benv) => Some(TailPosition::Call(body, benv)),
                }
            },
            other => Some(TailPosition::Return(Err(EvalError::NotAFunction(other)))),
        }
    }

    /// Applying a value to arguments, running any tail continuation to the
    /// end; see `spec_apply_full`.
    pub fn apply_function(&mut self, f: MalType, args: Vec<MalType>, fuel: u64) -> (r: Option<
        EvalResult,
    >)
        ensures
            eval_matches(
                r,
                spec_apply_full(old(self)@, f@, view_seq(args@), fuel as nat),
                final(self)@,
            ),
        decreases fuel, 10nat, 0nat,
    {
        match self.apply_step(f, args, fuel) {
            None => None,
            Some(TailPosition::Return(x)) => Some(x),
            Some(TailPosition::Call(a, e)) => {
                if fuel == 0 {
                    None
                } else {
                    self.eval(a, e, fuel - 1)
                }
            },
        }
    }
}

impl Interp {
    /// `def!`; see `spec_def`.
    fn special_def(&mut self, es: &Vec<MalType>, env: Env, fuel: u64) -> (r: Option<TailPosition>)
        ensures
            ({
                let sr = spec_def(old(self)@, view_seq(es@), env.0 as int, fuel as nat);
                step_matches(r, sr.1) && (!(sr.1 is Stop) ==> final(self)@ == sr.0)
            }),
        decreases fuel, 6nat, 0nat,
    {
        proof {
            crate::types::lemma_view_seq(es@);
        }
        if es.len() < 2 {
            return Some(TailPosition::Return(Err(EvalError::WrongArgAmount)));
        }
        match &es[1] {
            MalType::Symbol(k) => {
                proof {
                    assert(es@[1] == MalType::Symbol(*k));
                    assert(view_seq(es@)[1] == Val::Sym(k@));
                }
                if es.len() < 3 {
                    return Some(TailPosition::Return(Err(EvalError::WrongArgAmount)));
                }
                if fuel == 0 {
                    return None;
                }
                let expr = es[2].duplicate();
                match self.eval(expr, env, fuel - 1) {
                    None => None,
                    Some(Err(e)) => Some(TailPosition::Return(Err(e))),
                    Some(Ok(v)) => {
                        let v2 = v.duplicate();
                        env.set(self, crate::text::dup_chars(k), v);
                        Some(TailPosition::Return(Ok(v2)))
                    },
                }
            },
            other => {
                proof {
                    assert(es@[1] == *other);
                }
                Some(TailPosition::Return(Err(other.type_error("symbol"))))
            },
        }
    }

    /// `defmacro!`; see `spec_defmacro`.
    fn special_defmacro(&mut self, es: &Vec<MalType>, env: Env, fuel: u64) -> (r: Option<
        TailPosition,
    >)
        ensures
            ({
                let sr = spec_defmacro(old(self)@, view_seq(es@), env.0 as int, fuel as nat);
                step_matches(r, sr.1) && (!(sr.1 is Stop) ==> final(self)@ == sr.0)
            }),
        decreases fuel, 6nat, 0nat,
    {
        proof {
            crate::types::lemma_view_seq(es@);
        }
        if es.len() < 2 {
            return Some(TailPosition::Return(Err(EvalError::WrongArgAmount)));
        }
        match &es[1] {
            MalType::Symbol(k) => {
                proof {
                    assert(es@[1] == MalType::Symbol(*k));
                    assert(view_seq(es@)[1] == Val::Sym(k@));
                }
                if es.len() < 3 {
                    return Some(TailPosition::Return(Err(EvalError::WrongArgAmount)));
                }
                if fuel == 0 {
                    return None;
                }
                let expr = es[2].duplicate();
                match self.eval(expr, env, fuel - 1) {
                    None => None,
                    Some(Err(e)) => Some(TailPosition::Return(Err(e))),
                    Some(Ok(v)) => {
                        let ghost vv = v@;
                        match v {
                            MalType::NonNativeFunction(c) => {
                                let ghost castv = c.ast@;
                                let ghost cparamsv = view_seq(c.params@);
                                let ghost cenvv = c.env as int;
                                let ghost cflag = c.is_macro;
                                proof {
                                    assert(vv == Val::Closure(
                                        SpecClosure {
                                            ast: Box::new(view_val(c.ast)),
                                            params: crate::types::view_vec(c.params),
                                            env: c.env as int,
                                            is_macro: c.is_macro,
                                        },
                                    ));
                                    assert(crate::types::view_vec(c.params) == view_seq(
                                        c.params@,
                                    ));
                                    assert(vv == Val::Closure(
                                        SpecClosure {
                                            ast: Box::new(castv),
                                            params: cparamsv,
                                            env: cenvv,
                                            is_macro: cflag,
                                        },
                                    ));
                                }
                                let m = MalType::closure_of(c.ast, c.params, c.env, true);
                                let m2 = m.duplicate();
                                proof {
                                    assert(m@ =~~= (match vv {
                                        Val::Closure(cv) => Val::Closure(
                                            SpecClosure {
                                                ast: cv.ast,
                                                params: cv.params,
                                                env: cv.env,
                                                is_macro: true,
                                            },
                                        ),
                                        _ => Val::Nil,
                                    }));
                                }
                                env.set(self, crate::text::dup_chars(k), m);
                                Some(TailPosition::Return(Ok(m2)))
                            },
                            other => Some(
                                TailPosition::Return(Err(other.type_error("function"))),
                            ),
                        }
                    },
                }
            },
            other => {
                proof {
                    assert(es@[1] == *other);
                }
                Some(TailPosition::Return(Err(other.type_error("symbol"))))
            },
        }
    }

    /// The `macroexpand` form; see `spec_macroexpand_form`.
    fn special_macroexpand(&mut self, es: &Vec<MalType>, env: Env, fuel: u64) -> (r: Option<
        TailPosition,
    >)
        ensures
            ({
                let sr = spec_macroexpand_form(old(self)@, view_seq(es@), env.0 as int, fuel as nat);
                step_matches(r, sr.1) && (!(sr.1 is Stop) ==> final(self)@ == sr.0)
            }),
        decreases fuel, 6nat, 0nat,
    {
        proof {
            crate::types::lemma_view_seq(es@);
        }
        if es.len() < 2 {
            return Some(TailPosition::Return(Err(EvalError::WrongArgAmount)));
        }
        if fuel == 0 {
            return None;
        }
        let x = es[1].duplicate();
        match self.macroexpand(x, env, fuel - 1) {
            None => None,
            Some(x) => Some(TailPosition::Return(x)),
        }
    }

    /// `let*`; see `spec_let`.
    fn special_let(&mut self, es: &Vec<MalType>, env: Env, fuel: u64) -> (r: Option<TailPosition>)
        ensures
            ({
                let sr = spec_let(old(self)@, view_seq(es@), env.0 as int, fuel as nat);
                step_matches(r, sr.1) && (!(sr.1 is Stop) ==> final(self)@ == sr.0)
            }),
        decreases fuel, 6nat, 0nat,
    {
        proof {
            crate::types::lemma_view_seq(es@);
        }
        let child = env.new_env(self);
        if es.len() < 2 {
            return Some(TailPosition::Return(Err(EvalError::WrongArgAmount)));
        }
        let bindings = es[1].duplicate();
        let bs = match bindings.to_list() {
            Ok(bs) => bs,
            Err(e) => {
                return Some(TailPosition::Return(Err(e)));
            },
        };
        match self.let_bind(child, bs, fuel) {
            None => None,
            Some(Err(e)) => Some(TailPosition::Return(Err(e))),
            Some(Ok(_)) => {
                if es.len() < 3 {
                    Some(TailPosition::Return(Err(EvalError::WrongArgAmount)))
                } else {
                    Some(TailPosition::Call(es[2].duplicate(), child))
                }
            },
        }
    }

    /// The binding pairs of a `let*`; see `spec_let_bind`.
    fn let_bind(&mut self, e: Env, bs: Vec<MalType>, fuel: u64) -> (r: Option<
        Result<(), EvalError>,
    >)
        ensures
            ({
                match spec_let_bind(old(self)@, e.0 as int, view_seq(bs@), fuel as nat) {
                    None => r is None,
                    Some((st2, oe)) => final(self)@ == st2 && (match (r, oe) {
                        (Some(Ok(_)), None) => true,
                        (Some(Err(x)), Some(ev)) => x@ == ev,
                        _ => false,
                    }),
                }
            }),
        decreases fuel, 4nat, bs@.len(),
    {
        proof {
            crate::types::lemma_view_seq(bs@);
        }
        let ghost bv = view_seq(bs@);
        if bs.len() == 0 {
            return Some(Ok(()));
        }
        match &bs[0] {
            MalType::Symbol(k) => {
                proof {
                    assert(bs@[0] == MalType::Symbol(*k));
                    assert(bv[0] == Val::Sym(k@));
                }
                if bs.len() < 2 {
                    return Some(Err(EvalError::WrongArgAmount));
                }
                if fuel == 0 {
                    return None;
                }
                let key = crate::text::dup_chars(k);
                let vexpr = bs[1].duplicate();
                match self.eval(vexpr, e, fuel - 1) {
                    None => None,
                    Some(Err(er)) => Some(Err(er)),
                    Some(Ok(v)) => {
                        e.set(self, key, v);
                        let mut bs = bs;
                        let ghost bs_before = bs@;
                        let b0 = bs.remove(0);
                        let b1 = bs.remove(0);
                        proof {
                            assert(bs@ =~= bs_before.subrange(2, bs_before.len() as int));
                            crate::types::lemma_view_seq(bs@);
                            assert(view_seq(bs@) =~= bv.subrange(2, bv.len() as int));
                        }
                        self.let_bind(e, bs, fuel)
                    },
                }
            },
            other => {
                proof {
                    assert(bs@[0] == *other);
                }
                Some(Err(other.type_error("symbol")))
            },
        }
    }

    /// `do`; see `spec_do`.
    fn special_do(&mut self, es: &Vec<MalType>, env: Env, fuel: u64) -> (r: Option<TailPosition>)
        ensures
            ({
                let sr = spec_do(old(self)@, view_seq(es@), env.0 as int, fuel as nat);
                step_matches(r, sr.1) && (!(sr.1 is Stop) ==> final(self)@ == sr.0)
            }),
        decreases fuel, 6nat, 0nat,
    {
        proof {
            crate::types::lemma_view_seq(es@);
        }
        let ghost av = view_seq(es@);
        if es.len() < 2 {
            return Some(TailPosition::Return(Err(EvalError::WrongArgAmount)));
        }
        // the leading expressions, then the last one in tail position
        let mut firsts: Vec<MalType> = Vec::new();
        let mut k: usize = 1;
        while k < es.len() - 1
            invariant
                1 <= k <= es@.len() - 1,
                es@.len() >= 2,
                firsts@.len() == k - 1,
                forall|j: int| 0 <= j < k - 1 ==> view_val(firsts@[j]) == view_val(es@[j + 1]),
            decreases es@.len() - k,
        {
            firsts.push(es[k].duplicate());
            k = k + 1;
        }
        proof {
            crate::types::lemma_view_seq(firsts@);
            assert(view_seq(firsts@) =~= av.subrange(1, av.len() - 1));
        }
        match self.do_seq(firsts, env, fuel) {
            None => None,
            Some(Err(e)) => Some(TailPosition::Return(Err(e))),
            Some(Ok(_)) => Some(TailPosition::Call(es[es.len() - 1].duplicate(), env)),
        }
    }

    /// The leading expressions of a `do`; see `spec_do_seq`.
    fn do_seq(&mut self, es: Vec<MalType>, env: Env, fuel: u64) -> (r: Option<
        Result<(), EvalError>,
    >)
        ensures
            ({
                match spec_do_seq(old(self)@, view_seq(es@), env.0 as int, fuel as nat) {
                    None => r is None,
                    Some((st2, oe)) => final(self)@ == st2 && (match (r, oe) {
                        (Some(Ok(_)), None) => true,
                        (Some(Err(x)), Some(ev)) => x@ == ev,
                        _ => false,
                    }),
                }
            }),
        decreases fuel, 4nat, es@.len(),
    {
        proof {
            crate::types::lemma_view_seq(es@);
        }
        let ghost av = view_seq(es@);
        if es.len() == 0 {
            return Some(Ok(()));
        }
        if fuel == 0 {
            return None;
        }
        let mut es = es;
        let ghost es_before = es@;
        let first = es.remove(0);
        proof {
            assert(es@ =~= es_before.subrange(1, es_before.len() as int));
            crate::types::lemma_view_seq(es@);
            assert(view_seq(es@) =~= av.subrange(1, av.len() as int));
        }
        match self.eval(first, env, fuel - 1) {
            None => None,
            Some(Err(e)) => Some(Err(e)),
            Some(Ok(_)) => self.do_seq(es, env, fuel),
        }
    }

    /// `if`; see `spec_if`.
    fn special_if(&mut self, es: &Vec<MalType>, env: Env, fuel: u64) -> (r: Option<TailPosition>)
        ensures
            ({
                let sr = spec_if(old(self)@, view_seq(es@), env.0 as int, fuel as nat);
                step_matches(r, sr.1) && (!(sr.1 is Stop) ==> final(self)@ == sr.0)
            }),
        decreases fuel, 6nat, 0nat,
    {
        proof {
            crate::types::lemma_view_seq(es@);
        }
        if es.len() < 2 {
            return Some(TailPosition::Return(Err(EvalError::WrongArgAmount)));
        }
        if fuel == 0 {
            return None;
        }
        let cond = es[1].duplicate();
        match self.eval(cond, env, fuel - 1) {
            None => None,
            Some(Err(e)) => Some(TailPosition::Return(Err(e))),
            Some(Ok(c)) => {
                if c.to_bool() {
                    if es.len() < 3 {
                        Some(TailPosition::Return(Err(EvalError::WrongArgAmount)))
                    } else {
                        Some(TailPosition::Call(es[2].duplicate(), env))
                    }
                } else {
                    if es.len() < 4 {
                        Some(TailPosition::Return(Ok(MalType::Nil)))
                    } else {
                        Some(TailPosition::Call(es[3].duplicate(), env))
                    }
                }
            },
        }
    }

    /// `fn*`; see `spec_fn_form`.
    fn special_fn(&mut self, es: &Vec<MalType>, env: Env) -> (r: Option<TailPosition>)
        ensures
            ({
                let sr = spec_fn_form(old(self)@, view_seq(es@), env.0 as int);
                step_matches(r, sr.1) && (!(sr.1 is Stop) ==> final(self)@ == sr.0)
            }),
    {
        proof {
            crate::types::lemma_view_seq(es@);
        }
        if es.len() < 2 {
            return Some(TailPosition::Return(Err(EvalError::WrongArgAmount)));
        }
        let params = match es[1].duplicate().to_list() {
            Ok(ps) => ps,
            Err(e) => {
                return Some(TailPosition::Return(Err(e)));
            },
        };
        if es.len() < 3 {
            return Some(TailPosition::Return(Err(EvalError::WrongArgAmount)));
        }
        let body = es[2].duplicate();
        Some(TailPosition::Return(Ok(MalType::closure_of(body, params, env.0, false))))
    }

    /// `quote`; see `spec_quote`.
    fn special_quote(&mut self, es: &Vec<MalType>) -> (r: Option<TailPosition>)
        ensures
            ({
                let sr = spec_quote(old(self)@, view_seq(es@));
                step_matches(r, sr.1) && (!(sr.1 is Stop) ==> final(self)@ == sr.0)
            }),
    {
        proof {
            crate::types::lemma_view_seq(es@);
        }
        if es.len() < 2 {
            return Some(TailPosition::Return(Err(EvalError::WrongArgAmount)));
        }
        Some(TailPosition::Return(Ok(es[1].duplicate())))
    }

    /// `quasiquote`; see `spec_quasiquote_form`.
    fn special_quasiquote(&mut self, es: &Vec<MalType>, env: Env) -> (r: Option<TailPosition>)
        ensures
            ({
                let sr = spec_quasiquote_form(old(self)@, view_seq(es@), env.0 as int);
                step_matches(r, sr.1) && (!(sr.1 is Stop) ==> final(self)@ == sr.0)
            }),
    {
        proof {
            crate::types::lemma_view_seq(es@);
        }
        if es.len() < 2 {
            let empty: Vec<MalType> = Vec::new();
            proof {
                assert(view_seq(empty@) =~= Seq::<Val>::empty());
            }
            return Some(TailPosition::Call(MalType::list_of(empty), env));
        }
        Some(TailPosition::Call(quasiquote(&es[1]), env))
    }

    /// `try*`/`catch*`; see `spec_try`.
    fn special_try_catch(&mut self, es: &Vec<MalType>, env: Env, fuel: u64) -> (r: Option<
        TailPosition,
    >)
        ensures
            ({
                let sr = spec_try(old(self)@, view_seq(es@), env.0 as int, fuel as nat);
                step_matches(r, sr.1) && (!(sr.1 is Stop) ==> final(self)@ == sr.0)
            }),
        decreases fuel, 6nat, 0nat,
    {
        proof {
            crate::types::lemma_view_seq(es@);
        }
        if es.len() < 3 {
            return Some(TailPosition::Return(Err(EvalError::WrongArgAmount)));
        }
        let clause = es[2].duplicate();
        let cs = match clause.to_list() {
            Ok(cs) => cs,
            Err(e) => {
                return Some(TailPosition::Return(Err(e)));
            },
        };
        proof {
            crate::types::lemma_view_seq(cs@);
        }
        if cs.len() < 3 {
            return Some(TailPosition::Return(Err(EvalError::WrongArgAmount)));
        }
        match &cs[1] {
            MalType::Symbol(sym) => {
                proof {
                    assert(cs@[1] == MalType::Symbol(*sym));
                    assert(view_seq(cs@)[1] == Val::Sym(sym@));
                }
                if fuel == 0 {
                    return None;
                }
                let expr = es[1].duplicate();
                match self.eval(expr, env, fuel - 1) {
                    None => None,
                    Some(Ok(v)) => Some(TailPosition::Return(Ok(v))),
                    Some(Err(er)) => {
                        let payload = match er {
                            EvalError::Thrown(v) => v,
                            other => {
                                let t = other.text_chars(self);
                                MalType::str_of(t)
                            },
                        };
                        let child = env.new_env(self);
                        child.set(self, crate::text::dup_chars(sym), payload);
                        Some(TailPosition::Call(cs[2].duplicate(), child))
                    },
                }
            },
            other => {
                proof {
                    assert(cs@[1] == *other);
                }
                Some(TailPosition::Return(Err(other.type_error("symbol"))))
            },
        }
    }

    /// An ordinary application; see `spec_apply_list`.
    fn apply_list(&mut self, es: Vec<MalType>, env: Env, fuel: u64) -> (r: Option<TailPosition>)
        ensures
            ({
                let sr = spec_apply_list(old(self)@, view_seq(es@), env.0 as int, fuel as nat);
                step_matches(r, sr.1) && (!(sr.1 is Stop) ==> final(self)@ == sr.0)
            }),
        decreases fuel, 6nat, 0nat,
    {
        proof {
            crate::types::lemma_view_seq(es@);
        }
        let ghost av = view_seq(es@);
        let evaluated = match self.eval_ast(MalType::list_of(es), env, fuel) {
            None => {
                return None;
            },
            Some(Err(e)) => {
                return Some(TailPosition::Return(Err(e)));
            },
            Some(Ok(v)) => v,
        };
        let ghost evv = evaluated@;
        let mut vs = match evaluated.into_list_elems() {
            Ok(vs) => vs,
            Err(_) => {
                return Some(TailPosition::Return(Err(EvalError::WrongArgAmount)));
            },
        };
        proof {
            crate::types::lemma_view_seq(vs@);
            assert(crate::types::view_vec(vs) == view_seq(vs@));
            assert(evv == Val::List(view_seq(vs@)));
        }
        if vs.len() > 0 {
            let ghost vv = view_seq(vs@);
            let ghost vs_before = vs@;
            let f = vs.remove(0);
            proof {
                assert(vs@ =~= vs_before.subrange(1, vs_before.len() as int));
                crate::types::lemma_view_seq(vs@);
                assert(view_seq(vs@) =~= vv.subrange(1, vv.len() as int));
            }
            self.apply_step(f, vs, fuel)
        } else {
            Some(TailPosition::Return(Err(EvalError::WrongArgAmount)))
        }
    }

    /// The evaluator; see `spec_eval`.  The loop rebinds the form and the
    /// environment at tail positions, so tail calls do not grow the call
    /// stack however long the chain runs.
    #[verifier::loop_isolation(false)]
    #[verifier::rlimit(100)]
    pub fn eval(&mut self, ast: MalType, env: Env, fuel: u64) -> (r: Option<EvalResult>)
        ensures
            eval_matches(
                r,
                spec_eval(old(self)@, ast@, env.0 as int, fuel as nat),
                final(self)@,
            ),
        decreases fuel, 8nat, 0nat,
    {
        let ghost st0 = old(self)@;
        let ghost a0 = ast@;
        let ghost e0 = env.0 as int;
        let ghost f0 = fuel as nat;
        let mut ast = ast;
        let mut env = env;
        let mut fuel = fuel;
        loop
            invariant
                fuel as nat <= f0,
                spec_eval(st0, a0, e0, f0) == spec_eval(
                    self@,
                    ast@,
                    env.0 as int,
                    fuel as nat,
                ),
            decreases fuel,
        {
            let ghost st_here = self@;
            let ghost a_here = ast@;
            if fuel == 0 {
                return None;
            }
            let es0 = match ast.into_list_elems() {
                Ok(es) => es,
                Err(other) => {
                    return self.eval_ast(other, env, fuel);
                },
            };
            proof {
                crate::types::lemma_view_seq(es0@);
                assert(crate::types::view_vec(es0) == view_seq(es0@));
                assert(a_here == Val::List(view_seq(es0@)));
            }
            if es0.len() == 0 {
                let r0 = MalType::list_of(es0);
                proof {
                    assert(r0@ =~= a_here);
                }
                return Some(Ok(r0));
            }
            let whole = MalType::list_of(es0);
            proof {
                assert(whole@ == a_here);
            }
            let expanded = match self.macroexpand(whole, env, fuel - 1) {
                None => {
                    return None;
                },
                Some(Err(e)) => {
                    return Some(Err(e));
                },
                Some(Ok(a1)) => a1,
            };
            let ghost exv = expanded@;
            let es1 = match expanded.into_list_elems() {
                Ok(es1) => es1,
                Err(other) => {
                    return self.eval_ast(other, env, fuel);
                },
            };
            proof {
                crate::types::lemma_view_seq(es1@);
                assert(crate::types::view_vec(es1) == view_seq(es1@));
                assert(exv == Val::List(view_seq(es1@)));
            }
            if es1.len() == 0 {
                let r1 = MalType::list_of(es1);
                proof {
                    assert(r1@ =~= exv);
                }
                return Some(Ok(r1));
            }
            let ghost esv = view_seq(es1@);
            let ghost st1 = self@;
            let head_name: Option<u8> = match &es1[0] {
                MalType::Symbol(s) => {
                    proof {
                        assert(es1@[0] == MalType::Symbol(*s));
                        assert(esv[0] == Val::Sym(s@));
                    }
                    if crate::text::sym_is(s, "def!") {
                        Some(0)
                    } else if crate::text::sym_is(s, "defmacro!") {
                        Some(1)
                    } else if crate::text::sym_is(s, "macroexpand") {
                        Some(2)
                    } else if crate::text::sym_is(s, "let*") {
                        Some(3)
                    } else if crate::text::sym_is(s, "do") {
                        Some(4)
                    } else if crate::text::sym_is(s, "if") {
                        Some(5)
                    } else if crate::text::sym_is(s, "fn*") {
                        Some(6)
                    } else if crate::text::sym_is(s, "quote") {
                        Some(7)
                    } else if crate::text::sym_is(s, "quasiquote") {
                        Some(8)
                    } else if crate::text::sym_is(s, "try*") {
                        Some(9)
                    } else {
                        None
                    }
                },
                _ => None,
            };
            let stepped: Option<TailPosition> = match head_name {
                Some(0) => self.special_def(&es1, env, fuel),
                Some(1) => self.special_defmacro(&es1, env, fuel),
                Some(2) => self.special_macroexpand(&es1, env, fuel),
                Some(3) => self.special_let(&es1, env, fuel),
                Some(4) => self.special_do(&es1, env, fuel),
                Some(5) => self.special_if(&es1, env, fuel),
                Some(6) => self.special_fn(&es1, env),
                Some(7) => self.special_quote(&es1),
                Some(8) => self.special_quasiquote(&es1, env),
                Some(9) => self.special_try_catch(&es1, env, fuel),
                _ => self.apply_list(es1, env, fuel),
            };
            proof {
                assert(spec_step(st1, esv, env.0 as int, fuel as nat) == (match head_name {
                    Some(0u8) => spec_def(st1, esv, env.0 as int, fuel as nat),
                    Some(1u8) => spec_defmacro(st1, esv, env.0 as int, fuel as nat),
                    Some(2u8) => spec_macroexpand_form(st1, esv, env.0 as int, fuel as nat),
                    Some(3u8) => spec_let(st1, esv, env.0 as int, fuel as nat),
                    Some(4u8) => spec_do(st1, esv, env.0 as int, fuel as nat),
                    Some(5u8) => spec_if(st1, esv, env.0 as int, fuel as nat),
                    Some(6u8) => spec_fn_form(st1, esv, env.0 as int),
                    Some(7u8) => spec_quote(st1, esv),
                    Some(8u8) => spec_quasiquote_form(st1, esv, env.0 as int),
                    Some(9u8) => spec_try(st1, esv, env.0 as int, fuel as nat),
                    _ => spec_apply_list(st1, esv, env.0 as int, fuel as nat),
                }));
            }
            match stepped {
                None => {
                    return None;
                },
                Some(TailPosition::Return(x)) => {
                    return Some(x);
                },
                Some(TailPosition::Call(a2, e2)) => {
                    ast = a2;
                    env = e2;
                    fuel = fuel - 1;
                },
            }
        }
    }

    /// Reads, evaluates and prints one line: the printed value on success,
    /// the failure's text otherwise.
    pub fn rep(&mut self, env: Env, line: &str, fuel: u64) -> (r: Result<String, String>)
        ensures
            ({
                match crate::reader::read_str_spec(line@) {
                    Err(p) => final(self)@ == old(self)@ && (r matches Err(t) && t@
                        == crate::printer::err_text(
                        old(self)@.atoms,
                        ErrVal::ParseFailed(p),
                    )),
                    Ok(form) => (match spec_eval(old(self)@, form, env.0 as int, fuel as nat) {
                        None => r matches Err(t) && t@ == "the evaluation ran out of fuel"@,
                        Some((st2, Ok(v))) => final(self)@ == st2 && (r matches Ok(t) && t@
                            == print_val(st2.atoms, v, true, st2.atoms.len())),
                        Some((st2, Err(e))) => final(self)@ == st2 && (r matches Err(t) && t@
                            == crate::printer::err_text(st2.atoms, e)),
                    }),
                }
            }),
    {
        let form = match crate::reader::read_str(String::from_str(line)) {
            Ok(m) => m,
            Err(p) => {
                let e = EvalError::ParseFailed(p);
                return Err(e.text(self));
            },
        };
        match self.eval(form, env, fuel) {
            None => Err(String::from_str("the evaluation ran out of fuel")),
            Some(Ok(v)) => Ok(v.pr_str(self, true)),
            Some(Err(e)) => Err(e.text(self)),
        }
    }
}

} // verus!
