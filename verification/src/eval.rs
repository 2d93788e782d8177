//! The evaluator: a tree-walking reduction of a term against an environment,
//! dispatching the special forms `do`, `let`, `if`, `defn` and `fn`, and
//! function calls.
//!
//! The whole behaviour — the result and every change to the scope store,
//! handle counts included — is stated by the specification functions
//! `spec_eval` and its companions, which the executable evaluator is proved
//! to follow exactly. Unbounded recursion in the evaluated program cannot be
//! ruled out by the evaluator, so each entry from `eval_from_string` allows a
//! fixed number of nested function applications and fails with a call error
//! when the program goes deeper.

use vstd::prelude::*;

use crate::ast::Func;
use crate::ast::FuncView;
use crate::ast::Object;
use crate::ast::ObjectView;
use crate::ast::obj_ids;
use crate::ast::obj_view;
use crate::ast::func_view;
use crate::ast::objs_ids;
use crate::ast::oseq_size;
use crate::ast::osize;
use crate::ast::lemma_oseq_size_elem;
use crate::ast::sobjs_view;
use crate::ast::strs_view;
use crate::ast::vobjs_view;
use crate::env::EnvArena;
use crate::env::Environment;
use crate::env::ScopeView;
use crate::env::recs_ids;
use crate::env::recs_view;
use crate::env::spec_builtin;
use crate::env::st_drop;
use crate::env::st_drop_list;
use crate::env::st_install;
use crate::env::st_lookup;
use crate::env::st_define;
use crate::env::st_retain;
use crate::env::st_retain_list;
use crate::error::Error;
use crate::error::res_view;

verus! {

/// How many nested function applications one evaluation may make before it
/// fails with a call error; this stands in for the bounded call stack.
pub const MAX_CALL_DEPTH: u64 = 200;

/// One step of reduction: symbols resolve in the environment (the copy takes
/// its handles), numbers and booleans are themselves, a non-empty list is a
/// special form or a call, and anything else is not evaluable.
pub open spec fn spec_eval(st: Seq<ScopeView>, node: ObjectView, env: usize, fuel: nat) -> (Seq<
    ScopeView,
>, Result<ObjectView, Seq<char>>)
    decreases fuel, osize(node), 0nat,
{
    match node {
        ObjectView::Symbol(name) => match st_lookup(st, env, name) {
            Some(o) => (st_retain_list(st, obj_ids(o)), Ok(o)),
            None => (st, Err("identifier not found: "@ + name)),
        },
        ObjectView::Number(_) => (st, Ok(node)),
        ObjectView::Bool(_) => (st, Ok(node)),
        ObjectView::List(items) => if items.len() == 0 {
            (st, Err("empty list"@))
        } else {
            spec_eval_list(st, items[0], items.drop_first(), env, fuel)
        },
        ObjectView::Function(_) => (st, Err("unsupported object"@)),
    }
}

/// Dispatch on the head of a list: the five special forms by name, anything
/// else as a function call (the head may itself be computed).
pub open spec fn spec_eval_list(
    st: Seq<ScopeView>,
    first: ObjectView,
    rest: Seq<ObjectView>,
    env: usize,
    fuel: nat,
) -> (Seq<ScopeView>, Result<ObjectView, Seq<char>>)
    decreases fuel, osize(first) + oseq_size(rest), 2nat,
{
    match first {
        ObjectView::Symbol(name) => if name == "do"@ {
            spec_eval_do(st, rest, env, fuel)
        } else if name == "let"@ {
            spec_eval_let(st, rest, env, fuel)
        } else if name == "if"@ {
            spec_eval_if(st, rest, env, fuel)
        } else if name == "defn"@ {
            spec_eval_defn(st, rest, env)
        } else if name == "fn"@ {
            spec_eval_fn(st, rest, env)
        } else {
            spec_eval_call(st, first, rest, env, fuel)
        },
        _ => spec_eval_call(st, first, rest, env, fuel),
    }
}

/// `do` opens a child scope, evaluates each sub-form in it discarding all but
/// the last result, and closes the scope's frame handle.
pub open spec fn spec_eval_do(st: Seq<ScopeView>, nodes: Seq<ObjectView>, env: usize, fuel: nat) -> (
    Seq<ScopeView>,
    Result<ObjectView, Seq<char>>,
)
    decreases fuel, oseq_size(nodes), 1nat,
    via spec_eval_do_decreases
{
    if nodes.len() == 0 {
        (st, Err("sub-expressions are required in DO expression"@))
    } else {
        let child = st.len() as usize;
        let st1 = st_install(st, Seq::empty(), Some(env));
        let (st2, r) = spec_eval(st1, nodes[0], child, fuel);
        let (st3, r2) = if nodes.len() == 1 {
            (st2, r)
        } else {
            spec_eval_do_steps(st2, r, nodes.drop_first(), child, fuel)
        };
        (st_drop(st3, child), r2)
    }
}

/// The remaining sub-forms of a `do`: each is evaluated, and only then is the
/// previous result discarded, as assignment to the result variable does.
pub open spec fn spec_eval_do_steps(
    st: Seq<ScopeView>,
    prev: Result<ObjectView, Seq<char>>,
    nodes: Seq<ObjectView>,
    env: usize,
    fuel: nat,
) -> (Seq<ScopeView>, Result<ObjectView, Seq<char>>)
    decreases fuel, oseq_size(nodes), 1nat,
    via spec_eval_do_steps_decreases
{
    if nodes.len() == 0 {
        (st, prev)
    } else {
        let (st1, r) = spec_eval(st, nodes[0], env, fuel);
        let st2 = match prev {
            Ok(v) => st_drop_list(st1, obj_ids(v)),
            Err(_) => st1,
        };
        spec_eval_do_steps(st2, r, nodes.drop_first(), env, fuel)
    }
}

/// `(let name value-expr)`: the value is evaluated in the current scope and
/// defined there; defining stores one copy and the value itself is returned.
pub open spec fn spec_eval_let(st: Seq<ScopeView>, nodes: Seq<ObjectView>, env: usize, fuel: nat) -> (
    Seq<ScopeView>,
    Result<ObjectView, Seq<char>>,
)
    decreases fuel, oseq_size(nodes), 1nat,
    via spec_eval_let_decreases
{
    if nodes.len() != 2 {
        (st, Err("expected 2 sub-expressions for the LET expression"@))
    } else {
        match nodes[0] {
            ObjectView::Symbol(name) => {
                let (st1, r) = spec_eval(st, nodes[1], env, fuel);
                match r {
                    Ok(v) => {
                        let st2 = st_retain_list(st1, obj_ids(v));
                        let (st3, dr) = st_define(st2, env, name, v);
                        match dr {
                            Ok(_) => (st3, Ok(v)),
                            Err(e) => (st_drop_list(st3, obj_ids(v)), Err(e)),
                        }
                    },
                    Err(e) => (st1, Err(e)),
                }
            },
            _ => (st, Err("the identifier should be a string/symbol"@)),
        }
    }
}

#[via_fn]
proof fn spec_eval_let_decreases(st: Seq<ScopeView>, nodes: Seq<ObjectView>, env: usize, fuel: nat) {
    if nodes.len() == 2 {
        lemma_oseq_size_elem(nodes, 1);
    }
}

/// `(if test then else)`: the test must reduce to a boolean, which picks the
/// branch to evaluate.
pub open spec fn spec_eval_if(st: Seq<ScopeView>, nodes: Seq<ObjectView>, env: usize, fuel: nat) -> (
    Seq<ScopeView>,
    Result<ObjectView, Seq<char>>,
)
    decreases fuel, oseq_size(nodes), 1nat,
    via spec_eval_if_decreases
{
    if nodes.len() != 3 {
        (st, Err("expected 3 sub-expressions for the IF expression"@))
    } else {
        let (st1, r) = spec_eval(st, nodes[0], env, fuel);
        match r {
            Ok(v) => match v {
                ObjectView::Bool(b) => if b {
                    spec_eval(st1, nodes[1], env, fuel)
                } else {
                    spec_eval(st1, nodes[2], env, fuel)
                },
                _ => (
                    st_drop_list(st1, obj_ids(v)),
                    Err("expected a bool value for the IF test expression"@),
                ),
            },
            Err(e) => (st1, Err(e)),
        }
    }
}

#[via_fn]
proof fn spec_eval_if_decreases(st: Seq<ScopeView>, nodes: Seq<ObjectView>, env: usize, fuel: nat) {
    if nodes.len() == 3 {
        lemma_oseq_size_elem(nodes, 0);
        lemma_oseq_size_elem(nodes, 1);
        lemma_oseq_size_elem(nodes, 2);
    }
}

/// A parameter list: a list whose elements are all symbols.
pub open spec fn spec_params(o: ObjectView) -> Result<Seq<Seq<char>>, Seq<char>> {
    match o {
        ObjectView::List(items) => spec_params_list(items),
        _ => Err("expected parameter name list"@),
    }
}

pub open spec fn spec_params_list(items: Seq<ObjectView>) -> Result<Seq<Seq<char>>, Seq<char>>
    decreases items.len(),
{
    if items.len() == 0 {
        Ok(Seq::empty())
    } else {
        match items[0] {
            ObjectView::Symbol(s) => match spec_params_list(items.drop_first()) {
                Ok(rest) => Ok(seq![s] + rest),
                Err(e) => Err(e),
            },
            _ => Err("parameter name should be a string/symbol"@),
        }
    }
}

/// `(defn name (param...) body)`: builds a named function holding a
/// non-owning handle to the current scope — no handle is counted — and
/// defines one copy of it under `name` in the current scope.
pub open spec fn spec_eval_defn(st: Seq<ScopeView>, nodes: Seq<ObjectView>, env: usize) -> (Seq<
    ScopeView,
>, Result<ObjectView, Seq<char>>) {
    if nodes.len() != 3 {
        (st, Err("expected 3 sub-expressions for the DEFN expression"@))
    } else {
        match nodes[0] {
            ObjectView::Symbol(name) => match spec_params(nodes[1]) {
                Ok(params) => {
                    let f = ObjectView::Function(
                        FuncView::UserDefined(name, params, Box::new(nodes[2]), env),
                    );
                    let st1 = st_retain_list(st, obj_ids(f));
                    let (st2, dr) = st_define(st1, env, name, f);
                    match dr {
                        Ok(_) => (st2, Ok(f)),
                        Err(e) => (st_drop_list(st2, obj_ids(f)), Err(e)),
                    }
                },
                Err(e) => (st, Err(e)),
            },
            _ => (st, Err("function name should be a symbol"@)),
        }
    }
}

/// `(fn (param...) body)`: builds an anonymous function owning a counted
/// handle to the current scope; it is returned, not bound to a name.
pub open spec fn spec_eval_fn(st: Seq<ScopeView>, nodes: Seq<ObjectView>, env: usize) -> (Seq<
    ScopeView,
>, Result<ObjectView, Seq<char>>) {
    if nodes.len() != 2 {
        (st, Err("expected 2 sub-expressions for the FN expression"@))
    } else {
        match spec_params(nodes[0]) {
            Ok(params) => (
                st_retain(st, env),
                Ok(ObjectView::Function(FuncView::Closure(params, Box::new(nodes[1]), env))),
            ),
            Err(e) => (st, Err(e)),
        }
    }
}

/// The arguments of a call, evaluated left to right in the current scope.
/// When one fails, the values already produced are discarded.
pub open spec fn spec_eval_args(st: Seq<ScopeView>, nodes: Seq<ObjectView>, env: usize, fuel: nat) -> (
    Seq<ScopeView>,
    Result<Seq<ObjectView>, Seq<char>>,
)
    decreases fuel, oseq_size(nodes), 1nat,
    via spec_eval_args_decreases
{
    if nodes.len() == 0 {
        (st, Ok(Seq::empty()))
    } else {
        let (st1, r) = spec_eval(st, nodes[0], env, fuel);
        match r {
            Err(e) => (st1, Err(e)),
            Ok(v) => {
                let (st2, rest) = spec_eval_args(st1, nodes.drop_first(), env, fuel);
                match rest {
                    Ok(vs) => (st2, Ok(seq![v] + vs)),
                    Err(e) => (st_drop_list(st2, obj_ids(v)), Err(e)),
                }
            },
        }
    }
}

/// The call arguments installed as a scope's records: one copied value per
/// parameter name, each copy taking its handles.
pub open spec fn spec_bind(
    st: Seq<ScopeView>,
    params: Seq<Seq<char>>,
    args: Seq<ObjectView>,
) -> (Seq<ScopeView>, Seq<(Seq<char>, ObjectView)>)
    decreases params.len(),
{
    if params.len() == 0 {
        (st, Seq::empty())
    } else {
        let st1 = st_retain_list(st, obj_ids(args[0]));
        let (st2, rest) = spec_bind(st1, params.drop_first(), args.drop_first());
        (st2, seq![(params[0], args[0])] + rest)
    }
}

/// A function call: the head is evaluated first, then every argument, then
/// dispatch on the function kind. A built-in computes directly; a named
/// function must still find its defining scope live; an anonymous function's
/// scope is always at hand. Either way the activation scope holds the
/// arguments and the body is evaluated in it with one less unit of depth;
/// afterwards the frame handle, the borrowed handles, the argument values
/// and the function value itself are given back.
pub open spec fn spec_eval_call(
    st: Seq<ScopeView>,
    first: ObjectView,
    rest: Seq<ObjectView>,
    env: usize,
    fuel: nat,
) -> (Seq<ScopeView>, Result<ObjectView, Seq<char>>)
    decreases fuel, osize(first) + oseq_size(rest), 1nat,
{
    let (st1, hr) = spec_eval(st, first, env, fuel);
    match hr {
        Err(e) => (st1, Err(e)),
        Ok(hv) => match hv {
            ObjectView::Function(f) => {
                let (st2, ar) = spec_eval_args(st1, rest, env, fuel);
                match ar {
                    Err(e) => (st_drop_list(st2, obj_ids(hv)), Err(e)),
                    Ok(args) => match f {
                        FuncView::Builtin(op) => {
                            let r = spec_builtin(op, args);
                            let st3 = st_drop_list(st2, objs_ids(args));
                            (st_drop_list(st3, obj_ids(hv)), r)
                        },
                        FuncView::UserDefined(_, params, body, sid) => if args.len()
                            != params.len() {
                            let st3 = st_drop_list(st2, objs_ids(args));
                            (st_drop_list(st3, obj_ids(hv)), Err("args length error"@))
                        } else if fuel == 0 {
                            let st3 = st_drop_list(st2, objs_ids(args));
                            (st_drop_list(st3, obj_ids(hv)), Err("call stack exhausted"@))
                        } else {
                            let (st3, recs) = spec_bind(st2, params, args);
                            if sid < st3.len() && st3[sid as int].live {
                                let st4 = st_retain(st3, sid);
                                let act = st4.len() as usize;
                                let st5 = st_install(st4, recs, Some(sid));
                                let (st6, r) = spec_eval(st5, *body, act, (fuel - 1) as nat);
                                let st7 = st_drop(st6, act);
                                let st8 = st_drop(st7, sid);
                                let st9 = st_drop_list(st8, objs_ids(args));
                                (st_drop_list(st9, obj_ids(hv)), r)
                            } else {
                                let st4 = st_drop_list(st3, recs_ids(recs));
                                let st5 = st_drop_list(st4, objs_ids(args));
                                (
                                    st_drop_list(st5, obj_ids(hv)),
                                    Err("static scope environment not found."@),
                                )
                            }
                        },
                        FuncView::Closure(params, body, sid) => if args.len() != params.len() {
                            let st3 = st_drop_list(st2, objs_ids(args));
                            (st_drop_list(st3, obj_ids(hv)), Err("args length error"@))
                        } else if fuel == 0 {
                            let st3 = st_drop_list(st2, objs_ids(args));
                            (st_drop_list(st3, obj_ids(hv)), Err("call stack exhausted"@))
                        } else {
                            let (st3, recs) = spec_bind(st2, params, args);
                            let act = st3.len() as usize;
                            let st4 = st_install(st3, recs, Some(sid));
                            let (st5, r) = spec_eval(st4, *body, act, (fuel - 1) as nat);
                            let st6 = st_drop(st5, act);
                            let st7 = st_drop_list(st6, objs_ids(args));
                            (st_drop_list(st7, obj_ids(hv)), r)
                        },
                    },
                }
            },
            _ => (st1, Err("expected a function"@)),
        },
    }
}

/// Discards a vector of values, giving back their handles front to back.
fn drop_objs(arena: &mut EnvArena, objs: Vec<Object>)
    ensures
        final(arena)@ == st_drop_list(old(arena)@, objs_ids(vobjs_view(objs))),
    decreases objs@.len(),
{
    let ghost st0 = arena@;
    let ghost full = vobjs_view(objs);
    if objs.len() == 0 {
        proof {
            assert(objs_ids(full) =~= Seq::<usize>::empty());
            assert(st_drop_list(st0, objs_ids(full)) == st0);
        }
        return ;
    }
    let mut rest = objs;
    let v = rest.remove(0);
    proof {
        assert(vobjs_view(rest) =~= full.drop_first());
        assert(full[0] == v@);
        assert(objs_ids(full) == obj_ids(v@) + objs_ids(vobjs_view(rest)));
    }
    crate::env::obj_drop(arena, v);
    drop_objs(arena, rest);
    proof {
        crate::env::lemma_drop_list_concat(st0, obj_ids(v@), objs_ids(full.drop_first()));
    }
}

/// Discards a scope's records, giving back the handles of each value in
/// record order.
fn drop_records(arena: &mut EnvArena, records: Vec<(String, Object)>)
    ensures
        final(arena)@ == st_drop_list(old(arena)@, recs_ids(recs_view(records))),
    decreases records@.len(),
{
    let ghost st0 = arena@;
    let ghost full = recs_view(records);
    if records.len() == 0 {
        proof {
            assert(recs_ids(full) =~= Seq::<usize>::empty());
            assert(st_drop_list(st0, recs_ids(full)) == st0);
        }
        return ;
    }
    let mut rest = records;
    let pair = rest.remove(0);
    proof {
        assert(recs_view(rest) =~= full.drop_first());
        assert(full[0].1 == pair.1@);
        assert(recs_ids(full) == obj_ids(pair.1@) + recs_ids(recs_view(rest)));
    }
    crate::env::obj_drop(arena, pair.1);
    drop_records(arena, rest);
    proof {
        crate::env::lemma_drop_list_concat(st0, obj_ids(pair.1@), recs_ids(full.drop_first()));
    }
}

/// Reads a parameter list: every element must be a symbol.
fn parse_params(node: &Object) -> (r: Result<Vec<String>, Error>)
    ensures
        match r {
            Ok(params) => spec_params(node@) == Ok::<Seq<Seq<char>>, Seq<char>>(strs_view(params)),
            Err(e) => spec_params(node@) == Err::<Seq<Seq<char>>, Seq<char>>(e@),
        },
{
    match node {
        Object::List(items) => {
            let ghost views = vobjs_view(*items);
            proof {
                crate::ast::lemma_list_view(*items);
            }
            let mut params: Vec<String> = Vec::new();
            let mut j: usize = 0;
            proof {
                assert(views.skip(0) =~= views);
            }
            while j < items.len()
                invariant
                    j <= items@.len(),
                    views == vobjs_view(*items),
                    j <= views.len(),
                    spec_params(node@) == spec_params_list(views),
                    spec_params_list(views) == (match spec_params_list(views.skip(j as int)) {
                        Ok(r) => Ok::<Seq<Seq<char>>, Seq<char>>(strs_view(params) + r),
                        Err(e) => Err::<Seq<Seq<char>>, Seq<char>>(e),
                    }),
                decreases items@.len() - j,
            {
                proof {
                    assert(views.skip(j as int)[0] == views[j as int]);
                    assert(views.skip(j as int).drop_first() =~= views.skip(j as int + 1));
                }
                match &items[j] {
                    Object::Symbol(s) => {
                        let ghost old_params = params;
                        params.push(s.clone());
                        proof {
                            assert(strs_view(params) =~= strs_view(old_params).push(s@));
                            if spec_params_list(views.skip(j as int + 1)) is Ok {
                                let tail = spec_params_list(views.skip(j as int + 1))->Ok_0;
                                assert(strs_view(old_params) + (seq![s@] + tail) =~= strs_view(
                                    params,
                                ) + tail);
                            }
                        }
                    },
                    _ => {
                        proof {
                            assert(!(items@[j as int] matches Object::Symbol(_)));
                            assert(!(views[j as int] matches ObjectView::Symbol(_)));
                            assert(spec_params_list(views.skip(j as int))
                                == Err::<Seq<Seq<char>>, Seq<char>>(
                                "parameter name should be a string/symbol"@,
                            ));
                        }
                        return Err(
                            Error::EvalError(
                                String::from_str("parameter name should be a string/symbol"),
                            ),
                        );
                    },
                }
                j += 1;
            }
            proof {
                assert(views.skip(views.len() as int) =~= Seq::<ObjectView>::empty());
                assert(strs_view(params) + Seq::<Seq<char>>::empty() =~= strs_view(params));
            }
            Ok(params)
        },
        _ => Err(Error::EvalError(String::from_str("expected parameter name list"))),
    }
}

/// Builds the records of an activation scope: one copied argument value per
/// parameter name.
fn bind_params(arena: &mut EnvArena, params: &Vec<String>, args: &Vec<Object>) -> (r: Vec<
    (String, Object),
>)
    requires
        params@.len() == args@.len(),
    ensures
        ({
            let (st2, recs) = spec_bind(old(arena)@, strs_view(*params), vobjs_view(*args));
            final(arena)@ == st2 && recs_view(r) == recs
        }),
{
    let ghost pv = strs_view(*params);
    let ghost av = vobjs_view(*args);
    let mut records: Vec<(String, Object)> = Vec::new();
    let mut j: usize = 0;
    proof {
        assert(pv.skip(0) =~= pv);
        assert(av.skip(0) =~= av);
    }
    while j < params.len()
        invariant
            params@.len() == args@.len(),
            j <= params@.len(),
            pv == strs_view(*params),
            av == vobjs_view(*args),
            ({
                let (st2, recs) = spec_bind(old(arena)@, pv, av);
                let (st2p, recsp) = spec_bind(arena@, pv.skip(j as int), av.skip(j as int));
                st2 == st2p && recs == recs_view(records) + recsp
            }),
        decreases params@.len() - j,
    {
        proof {
            assert(pv.skip(j as int)[0] == pv[j as int]);
            assert(av.skip(j as int)[0] == av[j as int]);
            assert(pv.skip(j as int).drop_first() =~= pv.skip(j as int + 1));
            assert(av.skip(j as int).drop_first() =~= av.skip(j as int + 1));
        }
        let key = params[j].clone();
        let v = crate::env::obj_clone_counted(arena, &args[j]);
        let ghost old_records = records;
        records.push((key, v));
        proof {
            assert(recs_view(records) =~= recs_view(old_records).push((pv[j as int], av[j as int])));
            let (st2p, recsp) = spec_bind(arena@, pv.skip(j as int + 1), av.skip(j as int + 1));
            assert(recs_view(old_records) + (seq![(pv[j as int], av[j as int])] + recsp) =~= recs_view(
                records,
            ) + recsp);
        }
        j += 1;
    }
    proof {
        assert(pv.skip(pv.len() as int) =~= Seq::<Seq<char>>::empty());
        assert(av.skip(av.len() as int) =~= Seq::<ObjectView>::empty());
        let (st2p, recsp) = spec_bind(arena@, pv.skip(pv.len() as int), av.skip(av.len() as int));
        assert(recsp =~= Seq::<(Seq<char>, ObjectView)>::empty());
        assert(recs_view(records) + recsp =~= recs_view(records));
    }
    records
}

/// Reduces a term to a value against the scope `env`.
fn eval(arena: &mut EnvArena, node: &Object, env: usize, fuel: u64) -> (r: Result<Object, Error>)
    ensures
        spec_eval(old(arena)@, node@, env, fuel as nat) == (final(arena)@, res_view(r)),
    decreases fuel, osize(node@), 0nat,
{
    match node {
        Object::Symbol(name) => match crate::env::rc_env_lookup(arena, env, name.as_str()) {
            Some(obj) => Ok(obj),
            None => Err(
                Error::EvalError(
                    String::from_str("identifier not found: ").concat(name.as_str()),
                ),
            ),
        },
        Object::Bool(_) => Ok(crate::ast::clone_object(node)),
        Object::Number(_) => Ok(crate::ast::clone_object(node)),
        Object::List(list) => {
            proof {
                crate::ast::lemma_list_view(*list);
            }
            if list.len() == 0 {
                Err(Error::EvalError(String::from_str("empty list")))
            } else {
                let s = list.as_slice();
                let first = &s[0];
                let rest = &s[1..s.len()];
                proof {
                    assert(first@ == vobjs_view(*list)[0]);
                    assert(sobjs_view(rest@) =~= vobjs_view(*list).drop_first());
                }
                eval_list(arena, first, rest, env, fuel)
            }
        },
        Object::Function(_) => Err(Error::EvalError(String::from_str("unsupported object"))),
    }
}

/// Dispatches a non-empty list on its head.
fn eval_list(arena: &mut EnvArena, first: &Object, rest: &[Object], env: usize, fuel: u64) -> (r:
    Result<Object, Error>)
    ensures
        spec_eval_list(old(arena)@, first@, sobjs_view(rest@), env, fuel as nat) == (
            final(arena)@,
            res_view(r),
        ),
    decreases fuel, osize(first@) + oseq_size(sobjs_view(rest@)), 2nat,
{
    proof {
        crate::ast::lemma_osize_pos(first@);
    }
    match first {
        Object::Symbol(name) => {
            if crate::ast::str_eq(name.as_str(), "do") {
                eval_do(arena, rest, env, fuel)
            } else if crate::ast::str_eq(name.as_str(), "let") {
                eval_let(arena, rest, env, fuel)
            } else if crate::ast::str_eq(name.as_str(), "if") {
                eval_if(arena, rest, env, fuel)
            } else if crate::ast::str_eq(name.as_str(), "defn") {
                eval_defn(arena, rest, env)
            } else if crate::ast::str_eq(name.as_str(), "fn") {
                eval_fn(arena, rest, env)
            } else {
                eval_function_call(arena, first, rest, env, fuel)
            }
        },
        _ => eval_function_call(arena, first, rest, env, fuel),
    }
}

/// `do`: a child scope, each sub-form in turn, the last result.
fn eval_do(arena: &mut EnvArena, nodes: &[Object], env: usize, fuel: u64) -> (r: Result<
    Object,
    Error,
>)
    ensures
        spec_eval_do(old(arena)@, sobjs_view(nodes@), env, fuel as nat) == (
            final(arena)@,
            res_view(r),
        ),
    decreases fuel, oseq_size(sobjs_view(nodes@)), 1nat,
{
    let ghost st0 = arena@;
    let ghost views = sobjs_view(nodes@);
    if nodes.len() == 0 {
        return Err(
            Error::EvalError(String::from_str("sub-expressions are required in DO expression")),
        );
    }
    let child = Environment::new(env).to_rc_env(arena);
    proof {
        assert(child == st0.len() as usize);
        assert(arena@ == st_install(st0, Seq::<(Seq<char>, ObjectView)>::empty(), Some(env)));
    }
    let mut result = eval(arena, &nodes[0], child, fuel);
    let ghost st2 = arena@;
    let ghost r0 = res_view(result);
    let mut i: usize = 1;
    while i < nodes.len()
        invariant
            1 <= i <= nodes@.len(),
            views == sobjs_view(nodes@),
            spec_eval_do_steps(arena@, res_view(result), views.skip(i as int), child, fuel as nat)
                == spec_eval_do_steps(st2, r0, views.skip(1), child, fuel as nat),
        decreases nodes@.len() - i,
    {
        proof {
            assert(views.skip(i as int)[0] == views[i as int]);
            assert(views.skip(i as int).drop_first() =~= views.skip(i as int + 1));
            lemma_oseq_size_elem(views, i as int);
        }
        let prev = result;
        let next = eval(arena, &nodes[i], child, fuel);
        match prev {
            Ok(v) => crate::env::obj_drop(arena, v),
            Err(_) => {},
        }
        result = next;
        i += 1;
    }
    proof {
        assert(views.skip(views.len() as int) =~= Seq::<ObjectView>::empty());
    }
    crate::env::arena_release(arena, child);
    result
}

/// `let`: evaluate the value in the current scope and define it there.
fn eval_let(arena: &mut EnvArena, nodes: &[Object], env: usize, fuel: u64) -> (r: Result<
    Object,
    Error,
>)
    ensures
        spec_eval_let(old(arena)@, sobjs_view(nodes@), env, fuel as nat) == (
            final(arena)@,
            res_view(r),
        ),
    decreases fuel, oseq_size(sobjs_view(nodes@)), 1nat,
{
    let ghost views = sobjs_view(nodes@);
    if nodes.len() != 2 {
        return Err(
            Error::EvalError(String::from_str("expected 2 sub-expressions for the LET expression")),
        );
    }
    proof {
        lemma_oseq_size_elem(views, 1);
    }
    match &nodes[0] {
        Object::Symbol(name) => {
            let val = match eval(arena, &nodes[1], env, fuel) {
                Ok(v) => v,
                Err(e) => {
                    return Err(e);
                },
            };
            let val2 = crate::env::obj_clone_counted(arena, &val);
            match crate::env::rc_env_define(arena, env, name.as_str(), val2) {
                Ok(()) => Ok(val),
                Err(e) => {
                    crate::env::obj_drop(arena, val);
                    Err(e)
                },
            }
        },
        _ => {
            proof {
                assert(!(views[0] matches ObjectView::Symbol(_)));
            }
            Err(Error::EvalError(String::from_str("the identifier should be a string/symbol")))
        },
    }
}

/// `if`: the test must reduce to a boolean, which picks the branch.
fn eval_if(arena: &mut EnvArena, nodes: &[Object], env: usize, fuel: u64) -> (r: Result<
    Object,
    Error,
>)
    ensures
        spec_eval_if(old(arena)@, sobjs_view(nodes@), env, fuel as nat) == (
            final(arena)@,
            res_view(r),
        ),
    decreases fuel, oseq_size(sobjs_view(nodes@)), 1nat,
{
    let ghost views = sobjs_view(nodes@);
    if nodes.len() != 3 {
        return Err(
            Error::EvalError(String::from_str("expected 3 sub-expressions for the IF expression")),
        );
    }
    proof {
        lemma_oseq_size_elem(views, 0);
        lemma_oseq_size_elem(views, 1);
        lemma_oseq_size_elem(views, 2);
    }
    let test_object = match eval(arena, &nodes[0], env, fuel) {
        Ok(v) => v,
        Err(e) => {
            return Err(e);
        },
    };
    match test_object {
        Object::Bool(b) => {
            if b {
                eval(arena, &nodes[1], env, fuel)
            } else {
                eval(arena, &nodes[2], env, fuel)
            }
        },
        other => {
            proof {
                assert(!(other@ matches ObjectView::Bool(_)));
            }
            crate::env::obj_drop(arena, other);
            Err(
                Error::EvalError(
                    String::from_str("expected a bool value for the IF test expression"),
                ),
            )
        },
    }
}

/// `defn`: builds a named function with a non-owning handle to the current
/// scope and defines it there.
fn eval_defn(arena: &mut EnvArena, nodes: &[Object], env: usize) -> (r: Result<Object, Error>)
    ensures
        spec_eval_defn(old(arena)@, sobjs_view(nodes@), env) == (final(arena)@, res_view(r)),
{
    let ghost views = sobjs_view(nodes@);
    if nodes.len() != 3 {
        return Err(
            Error::EvalError(
                String::from_str("expected 3 sub-expressions for the DEFN expression"),
            ),
        );
    }
    let name = match &nodes[0] {
        Object::Symbol(n) => n,
        _ => {
            proof {
                assert(!(views[0] matches ObjectView::Symbol(_)));
            }
            return Err(Error::EvalError(String::from_str("function name should be a symbol")));
        },
    };
    let params = match parse_params(&nodes[1]) {
        Ok(p) => p,
        Err(e) => {
            return Err(e);
        },
    };
    let body = crate::ast::clone_object(&nodes[2]);
    let ghost params_v = strs_view(params);
    let ghost body_v = body@;
    let inner = Func::UserDefined(name.clone(), params, body, env);
    proof {
        assert(inner@ == FuncView::UserDefined(name@, params_v, Box::new(body_v), env));
    }
    let defn = Object::Function(Box::new(inner));
    proof {
        assert(views[1] == obj_view(nodes@[1]));
        assert(views[2] == obj_view(nodes@[2]));
        assert(body_v == views[2]);
        assert(spec_params(views[1]) == Ok::<Seq<Seq<char>>, Seq<char>>(params_v));
        assert(defn@ == ObjectView::Function(
            FuncView::UserDefined(name@, spec_params(views[1])->Ok_0, Box::new(views[2]), env),
        ));
    }
    let defn2 = crate::env::obj_clone_counted(arena, &defn);
    match crate::env::rc_env_define(arena, env, name.as_str(), defn2) {
        Ok(()) => Ok(defn),
        Err(e) => {
            crate::env::obj_drop(arena, defn);
            Err(e)
        },
    }
}

/// `fn`: builds an anonymous function owning a counted handle to the current
/// scope.
fn eval_fn(arena: &mut EnvArena, nodes: &[Object], env: usize) -> (r: Result<Object, Error>)
    ensures
        spec_eval_fn(old(arena)@, sobjs_view(nodes@), env) == (final(arena)@, res_view(r)),
{
    let ghost views = sobjs_view(nodes@);
    if nodes.len() != 2 {
        return Err(
            Error::EvalError(String::from_str("expected 2 sub-expressions for the FN expression")),
        );
    }
    let params = match parse_params(&nodes[0]) {
        Ok(p) => p,
        Err(e) => {
            return Err(e);
        },
    };
    let body = crate::ast::clone_object(&nodes[1]);
    crate::env::arena_retain(arena, env);
    let ghost params_v = strs_view(params);
    let ghost body_v = body@;
    let inner = Func::Closure(params, body, env);
    proof {
        assert(inner@ == FuncView::Closure(params_v, Box::new(body_v), env));
    }
    let f = Object::Function(Box::new(inner));
    proof {
        assert(views[0] == obj_view(nodes@[0]));
        assert(views[1] == obj_view(nodes@[1]));
        assert(body_v == views[1]);
        assert(spec_params(views[0]) == Ok::<Seq<Seq<char>>, Seq<char>>(params_v));
        assert(f@ == ObjectView::Function(
            FuncView::Closure(spec_params(views[0])->Ok_0, Box::new(views[1]), env),
        ));
    }
    Ok(f)
}

/// The arguments of a call, evaluated left to right.
fn eval_args(arena: &mut EnvArena, nodes: &[Object], env: usize, fuel: u64) -> (r: Result<
    Vec<Object>,
    Error,
>)
    ensures
        ({
            let (st2, res) = spec_eval_args(old(arena)@, sobjs_view(nodes@), env, fuel as nat);
            final(arena)@ == st2 && (match r {
                Ok(vs) => res == Ok::<Seq<ObjectView>, Seq<char>>(vobjs_view(vs)),
                Err(e) => res == Err::<Seq<ObjectView>, Seq<char>>(e@),
            })
        }),
    decreases fuel, oseq_size(sobjs_view(nodes@)), 1nat,
{
    let ghost views = sobjs_view(nodes@);
    if nodes.len() == 0 {
        let empty: Vec<Object> = Vec::new();
        proof {
            assert(vobjs_view(empty) =~= Seq::<ObjectView>::empty());
        }
        return Ok(empty);
    }
    proof {
        assert(views[0] == sobjs_view(nodes@)[0]);
        assert(sobjs_view(nodes@.subrange(1, nodes@.len() as int)) =~= views.drop_first());
        crate::ast::lemma_osize_pos(views[0]);
    }
    let v = match eval(arena, &nodes[0], env, fuel) {
        Ok(v) => v,
        Err(e) => {
            return Err(e);
        },
    };
    match eval_args(arena, &nodes[1..nodes.len()], env, fuel) {
        Ok(vs) => {
            let mut vs = vs;
            let ghost tail = vobjs_view(vs);
            vs.insert(0, v);
            proof {
                assert(vobjs_view(vs) =~= seq![v@] + tail);
            }
            Ok(vs)
        },
        Err(e) => {
            crate::env::obj_drop(arena, v);
            Err(e)
        },
    }
}

/// A call: the head is evaluated to a function value, the arguments follow,
/// and the function kind decides how the body runs.
fn eval_function_call(arena: &mut EnvArena, first: &Object, rest: &[Object], env: usize, fuel: u64) -> (r:
    Result<Object, Error>)
    ensures
        spec_eval_call(old(arena)@, first@, sobjs_view(rest@), env, fuel as nat) == (
            final(arena)@,
            res_view(r),
        ),
    decreases fuel, osize(first@) + oseq_size(sobjs_view(rest@)), 1nat,
{
    proof {
        crate::ast::lemma_osize_pos(first@);
    }
    let first_eval = match eval(arena, first, env, fuel) {
        Ok(v) => v,
        Err(e) => {
            return Err(e);
        },
    };
    let f = match first_eval {
        Object::Function(f) => f,
        other => {
            proof {
                assert(!(other@ matches ObjectView::Function(_)));
            }
            return Err(Error::EvalError(String::from_str("expected a function")));
        },
    };
    let ghost hv = ObjectView::Function(func_view(*f));
    let args = match eval_args(arena, rest, env, fuel) {
        Ok(a) => a,
        Err(e) => {
            crate::env::obj_drop(arena, Object::Function(f));
            return Err(e);
        },
    };
    let r: Result<Object, Error> = match &*f {
        Func::Builtin(op) => {
            let rr = crate::env::apply_builtin(*op, args.as_slice());
            drop_objs(arena, args);
            rr
        },
        Func::UserDefined(_, params, body, sid) => {
            if args.len() != params.len() {
                drop_objs(arena, args);
                Err(Error::EvalError(String::from_str("args length error")))
            } else if fuel == 0 {
                drop_objs(arena, args);
                Err(Error::EvalError(String::from_str("call stack exhausted")))
            } else {
                let records = bind_params(arena, params, &args);
                let sid = *sid;
                if sid < arena.scopes.len() && arena.scopes[sid].live {
                    crate::env::arena_retain(arena, sid);
                    let act = Environment::new_with_records(records, sid).to_rc_env(arena);
                    let rr = eval(arena, body, act, fuel - 1);
                    crate::env::arena_release(arena, act);
                    crate::env::arena_release(arena, sid);
                    drop_objs(arena, args);
                    rr
                } else {
                    drop_records(arena, records);
                    drop_objs(arena, args);
                    Err(
                        Error::EvalError(
                            String::from_str("static scope environment not found."),
                        ),
                    )
                }
            }
        },
        Func::Closure(params, body, sid) => {
            if args.len() != params.len() {
                drop_objs(arena, args);
                Err(Error::EvalError(String::from_str("args length error")))
            } else if fuel == 0 {
                drop_objs(arena, args);
                Err(Error::EvalError(String::from_str("call stack exhausted")))
            } else {
                let records = bind_params(arena, params, &args);
                let act = Environment::new_with_records(records, *sid).to_rc_env(arena);
                let rr = eval(arena, body, act, fuel - 1);
                crate::env::arena_release(arena, act);
                drop_objs(arena, args);
                rr
            }
        },
    };
    crate::env::obj_drop(arena, Object::Function(f));
    r
}

/// A whole program: tokenized, parsed as exactly one top-level form, then
/// evaluated with the full call depth.
pub open spec fn spec_eval_program(st: Seq<ScopeView>, text: Seq<char>, env: usize) -> (Seq<
    ScopeView,
>, Result<ObjectView, Seq<char>>) {
    match crate::parser::spec_parse(crate::token::spec_tokenize(text)) {
        Err(e) => (st, Err(e)),
        Ok((o, rest)) => if rest.len() > 0 {
            (st, Err("invalid expression"@))
        } else {
            spec_eval(st, o, env, MAX_CALL_DEPTH as nat)
        },
    }
}

/// Tokenizes and parses `program` — which must be exactly one form — and
/// evaluates it against the scope `env`.
pub fn eval_from_string(program: &str, arena: &mut EnvArena, env: usize) -> (r: Result<
    Object,
    Error,
>)
    ensures
        spec_eval_program(old(arena)@, program@, env) == (final(arena)@, res_view(r)),
{
    let tokens = crate::token::tokenize(program);
    proof {
        assert(crate::parser::toks_view(tokens@) =~= crate::ast::strs_view(tokens));
    }
    let (object, rest_tokens) = match crate::parser::parse(tokens.as_slice()) {
        Ok(p) => p,
        Err(e) => {
            return Err(e);
        },
    };
    if rest_tokens.len() > 0 {
        return Err(Error::EvalError(String::from_str("invalid expression")));
    }
    eval(arena, &object, env, MAX_CALL_DEPTH)
}

// ---------------------------------------------------------------------------
// Laws of evaluation
// ---------------------------------------------------------------------------
/// `if` requires a boolean test: when the test reduces to a boolean, the
/// matching branch's evaluation is the whole form's; when it reduces to
/// anything else, the form fails with the type error.
pub proof fn lemma_if_requires_bool(
    st: Seq<ScopeView>,
    nodes: Seq<ObjectView>,
    env: usize,
    fuel: nat,
)
    requires
        nodes.len() == 3,
    ensures
        ({
            let (st1, r) = spec_eval(st, nodes[0], env, fuel);
            match r {
                Ok(ObjectView::Bool(b)) => spec_eval_if(st, nodes, env, fuel) == spec_eval(
                    st1,
                    if b {
                        nodes[1]
                    } else {
                        nodes[2]
                    },
                    env,
                    fuel,
                ),
                Ok(v) => spec_eval_if(st, nodes, env, fuel).1 == Err::<ObjectView, Seq<char>>(
                    "expected a bool value for the IF test expression"@,
                ),
                Err(e) => spec_eval_if(st, nodes, env, fuel).1 == Err::<ObjectView, Seq<char>>(e),
            }
        }),
{
}

/// An argument count different from the parameter count fails any call of a
/// user-defined function or closure with the call error — the arguments are
/// never truncated or padded.
pub proof fn lemma_call_arity(
    st: Seq<ScopeView>,
    first: ObjectView,
    rest: Seq<ObjectView>,
    env: usize,
    fuel: nat,
)
    requires
        ({
            let (st1, hr) = spec_eval(st, first, env, fuel);
            hr matches Ok(hv) && hv matches ObjectView::Function(f) && !(f is Builtin) && {
                let (st2, ar) = spec_eval_args(st1, rest, env, fuel);
                ar matches Ok(args) && (match f {
                    FuncView::UserDefined(_, params, _, _) => args.len() != params.len(),
                    FuncView::Closure(params, _, _) => args.len() != params.len(),
                    FuncView::Builtin(_) => false,
                })
            }
        }),
    ensures
        spec_eval_call(st, first, rest, env, fuel).1 == Err::<ObjectView, Seq<char>>(
            "args length error"@,
        ),
{
}

/// An anonymous function captures the scope it is built in, and owns it: the
/// scope's handle count goes up by one, so the scope outlives the frame that
/// made it.
pub proof fn lemma_fn_captures(st: Seq<ScopeView>, nodes: Seq<ObjectView>, env: usize)
    requires
        spec_eval_fn(st, nodes, env).1 is Ok,
    ensures
        spec_eval_fn(st, nodes, env).0 == st_retain(st, env),
        spec_eval_fn(st, nodes, env).1->Ok_0 matches ObjectView::Function(FuncView::Closure(
            _,
            _,
            scope,
        )) && scope == env,
        obj_ids(spec_eval_fn(st, nodes, env).1->Ok_0) == seq![env] + obj_ids(nodes[1]),
{
}

/// A named function also captures the scope it is built in, but does not own
/// it: the value's owning handles are only those already inside its body,
/// none for the captured scope, which may die before the function is invoked.
pub proof fn lemma_defn_captures(st: Seq<ScopeView>, nodes: Seq<ObjectView>, env: usize)
    requires
        spec_eval_defn(st, nodes, env).1 is Ok,
    ensures
        spec_eval_defn(st, nodes, env).1->Ok_0 matches ObjectView::Function(
            FuncView::UserDefined(_, _, _, scope),
        ) && scope == env,
        obj_ids(spec_eval_defn(st, nodes, env).1->Ok_0) == obj_ids(nodes[2]),
{
}

/// Invoking a named function whose defining scope has died fails with the
/// call error rather than reading freed state.
pub proof fn lemma_dead_scope_call(
    st: Seq<ScopeView>,
    first: ObjectView,
    rest: Seq<ObjectView>,
    env: usize,
    fuel: nat,
)
    requires
        fuel > 0,
        ({
            let (st1, hr) = spec_eval(st, first, env, fuel);
            hr matches Ok(hv) && hv matches ObjectView::Function(FuncView::UserDefined(
                _,
                params,
                _,
                sid,
            )) && {
                let (st2, ar) = spec_eval_args(st1, rest, env, fuel);
                ar matches Ok(args) && args.len() == params.len() && {
                    let (st3, _) = spec_bind(st2, params, args);
                    !(sid < st3.len() && st3[sid as int].live)
                }
            }
        }),
    ensures
        spec_eval_call(st, first, rest, env, fuel).1 == Err::<ObjectView, Seq<char>>(
            "static scope environment not found."@,
        ),
{
}

/// A `defn` form's value renders as `(defn <name> (<params>) <body>)`.
pub proof fn lemma_defn_rendering(st: Seq<ScopeView>, nodes: Seq<ObjectView>, env: usize)
    requires
        spec_eval_defn(st, nodes, env).1 is Ok,
    ensures
        nodes.len() == 3,
        nodes[0] is Symbol,
        spec_params(nodes[1]) is Ok,
        crate::ast::render_obj(spec_eval_defn(st, nodes, env).1->Ok_0) == "(defn "@
            + nodes[0]->Symbol_0 + " ("@ + crate::ast::render_names(spec_params(nodes[1])->Ok_0)
            + ") "@ + crate::ast::render_obj(nodes[2]) + ")"@,
{
}

/// An `fn` form's value renders as `(fn (<params>) <body>)`.
pub proof fn lemma_fn_rendering(st: Seq<ScopeView>, nodes: Seq<ObjectView>, env: usize)
    requires
        spec_eval_fn(st, nodes, env).1 is Ok,
    ensures
        nodes.len() == 2,
        spec_params(nodes[0]) is Ok,
        crate::ast::render_obj(spec_eval_fn(st, nodes, env).1->Ok_0) == "(fn ("@
            + crate::ast::render_names(spec_params(nodes[0])->Ok_0) + ") "@
            + crate::ast::render_obj(nodes[1]) + ")"@,
{
}

#[via_fn]
proof fn spec_eval_do_decreases(st: Seq<ScopeView>, nodes: Seq<ObjectView>, env: usize, fuel: nat) {
    if nodes.len() > 0 {
        crate::ast::lemma_osize_pos(nodes[0]);
    }
}

#[via_fn]
proof fn spec_eval_do_steps_decreases(
    st: Seq<ScopeView>,
    prev: Result<ObjectView, Seq<char>>,
    nodes: Seq<ObjectView>,
    env: usize,
    fuel: nat,
) {
    if nodes.len() > 0 {
        crate::ast::lemma_osize_pos(nodes[0]);
    }
}

#[via_fn]
proof fn spec_eval_args_decreases(
    st: Seq<ScopeView>,
    nodes: Seq<ObjectView>,
    env: usize,
    fuel: nat,
) {
    if nodes.len() > 0 {
        crate::ast::lemma_osize_pos(nodes[0]);
    }
}

} // verus!
