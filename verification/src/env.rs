//! The environment model: a store of reference-counted scopes.
//!
//! Scopes are shared through counted handles: a scope stays
//! alive while a call frame, a child scope or an anonymous-function value
//! still owns a handle to it, and named functions hold non-owning handles
//! that must be checked for liveness on every invocation. Here the scopes
//! live in one growable store, addressed by index; a slot carries the count
//! of owning handles and a liveness flag, and releasing the last handle
//! clears the slot and releases what the slot owned in turn. A slot is never
//! reused, so a non-owning handle is just an index whose slot may have died.

use vstd::prelude::*;

use crate::ast::BuiltinOp;
use crate::ast::Func;
use crate::ast::FuncView;
use crate::ast::func_view;
use crate::ast::Object;
use crate::ast::ObjectView;
use crate::ast::obj_view;
use crate::ast::obj_ids;
use crate::ast::push_obj_ids;
use crate::ast::str_eq;
use crate::ast::sobjs_view;
use crate::error::res_view;
use crate::error::Error;

verus! {

broadcast use vstd::std_specs::vec::group_vec_axioms;

/// One scope: a local mapping from name to term, a link to the enclosing
/// scope, the number of owning handles, and whether the slot is still live.
pub struct Scope {
    pub records: Vec<(String, Object)>,
    pub parent: Option<usize>,
    pub count: u64,
    pub live: bool,
}

#[verifier::ext_equal]
pub struct ScopeView {
    pub records: Seq<(Seq<char>, ObjectView)>,
    pub parent: Option<usize>,
    pub count: u64,
    pub live: bool,
}

pub open spec fn recs_view(records: Vec<(String, Object)>) -> Seq<(Seq<char>, ObjectView)> {
    Seq::new(records@.len(), |i: int| (records@[i].0@, obj_view(records@[i].1)))
}

impl View for Scope {
    type V = ScopeView;

    open spec fn view(&self) -> ScopeView {
        ScopeView {
            records: recs_view(self.records),
            parent: self.parent,
            count: self.count,
            live: self.live,
        }
    }
}

/// The store of all scopes created during a run.
pub struct EnvArena {
    pub scopes: Vec<Scope>,
}

impl View for EnvArena {
    type V = Seq<ScopeView>;

    open spec fn view(&self) -> Seq<ScopeView> {
        Seq::new(self.scopes@.len(), |i: int| self.scopes@[i]@)
    }
}

impl EnvArena {
    /// An empty store, with no scopes yet.
    pub fn new() -> (r: EnvArena)
        ensures
            r@ == Seq::<ScopeView>::empty(),
    {
        let r = EnvArena { scopes: Vec::new() };
        proof {
            assert(r@ =~= Seq::<ScopeView>::empty());
        }
        r
    }
}

/// What a cleared slot holds.
pub open spec fn dead_scope() -> ScopeView {
    ScopeView { records: Seq::empty(), parent: None, count: 0, live: false }
}

/// One more owning handle to the scope `id`; the count does not move past
/// its maximum.
pub open spec fn st_retain(st: Seq<ScopeView>, id: usize) -> Seq<ScopeView> {
    if id < st.len() {
        let s = st[id as int];
        let c = if s.count == u64::MAX {
            u64::MAX
        } else {
            (s.count + 1) as u64
        };
        st.update(id as int, ScopeView { count: c, ..s })
    } else {
        st
    }
}

/// How many slots are still live.
pub open spec fn num_live(st: Seq<ScopeView>) -> nat
    decreases st.len(),
{
    if st.len() == 0 {
        0
    } else {
        num_live(st.drop_last()) + if st.last().live {
            1nat
        } else {
            0nat
        }
    }
}

/// The owning scope ids held by a sequence of records, in record order.
pub open spec fn recs_ids(records: Seq<(Seq<char>, ObjectView)>) -> Seq<usize>
    decreases records.len(),
{
    if records.len() == 0 {
        Seq::empty()
    } else {
        obj_ids(records[0].1) + recs_ids(records.drop_first())
    }
}

/// Gives back one owning handle to the scope `id`. When the last handle
/// goes, the slot is cleared, and the handles the slot held — one for each
/// anonymous-function value in its records, and one for its parent link —
/// are given back in turn. `gas` only bounds the recursion; every use
/// supplies at least `num_live` of it, which the chain of clearings can
/// never exhaust.
pub open spec fn st_release(st: Seq<ScopeView>, id: usize, gas: nat) -> Seq<ScopeView>
    decreases gas, 0nat, 0nat,
{
    if gas == 0 {
        st
    } else if !(id < st.len()) {
        st
    } else {
        let s = st[id as int];
        if !s.live {
            st
        } else if s.count > 1 {
            st.update(id as int, ScopeView { count: (s.count - 1) as u64, ..s })
        } else {
            let killed = st.update(id as int, dead_scope());
            let st1 = st_release_list(killed, recs_ids(s.records), (gas - 1) as nat);
            match s.parent {
                Some(p) => st_release(st1, p, (gas - 1) as nat),
                None => st1,
            }
        }
    }
}

pub open spec fn st_release_list(st: Seq<ScopeView>, ids: Seq<usize>, gas: nat) -> Seq<ScopeView>
    decreases gas, 1nat, ids.len(),
{
    if ids.len() == 0 {
        st
    } else {
        st_release_list(st_release(st, ids[0], gas), ids.drop_first(), gas)
    }
}

pub proof fn lemma_num_live_update(st: Seq<ScopeView>, i: int, s2: ScopeView)
    requires
        0 <= i < st.len(),
    ensures
        num_live(st.update(i, s2)) + (if st[i].live {
            1nat
        } else {
            0nat
        }) == num_live(st) + (if s2.live {
            1nat
        } else {
            0nat
        }),
    decreases st.len(),
{
    let st2 = st.update(i, s2);
    if i == st.len() - 1 {
        assert(st2.drop_last() =~= st.drop_last());
        assert(st2.last() == s2);
    } else {
        assert(st2.drop_last() =~= st.drop_last().update(i, s2));
        assert(st2.last() == st.last());
        lemma_num_live_update(st.drop_last(), i, s2);
    }
}

pub proof fn lemma_num_live_zero(st: Seq<ScopeView>, i: int)
    requires
        num_live(st) == 0,
        0 <= i < st.len(),
    ensures
        !st[i].live,
    decreases st.len(),
{
    if i == st.len() - 1 {
    } else {
        lemma_num_live_zero(st.drop_last(), i);
    }
}

pub proof fn lemma_release_live_mono(st: Seq<ScopeView>, id: usize, gas: nat)
    ensures
        num_live(st_release(st, id, gas)) <= num_live(st),
        st_release(st, id, gas).len() == st.len(),
    decreases gas, 0nat, 0nat,
{
    if gas == 0 || !(id < st.len()) {
    } else {
        let s = st[id as int];
        if !s.live {
        } else if s.count > 1 {
            lemma_num_live_update(st, id as int, ScopeView { count: (s.count - 1) as u64, ..s });
        } else {
            let killed = st.update(id as int, dead_scope());
            lemma_num_live_update(st, id as int, dead_scope());
            let st1 = st_release_list(killed, recs_ids(s.records), (gas - 1) as nat);
            lemma_release_list_live_mono(killed, recs_ids(s.records), (gas - 1) as nat);
            match s.parent {
                Some(p) => {
                    lemma_release_live_mono(st1, p, (gas - 1) as nat);
                },
                None => {},
            }
        }
    }
}

pub proof fn lemma_release_list_live_mono(st: Seq<ScopeView>, ids: Seq<usize>, gas: nat)
    ensures
        num_live(st_release_list(st, ids, gas)) <= num_live(st),
        st_release_list(st, ids, gas).len() == st.len(),
    decreases gas, 1nat, ids.len(),
{
    if ids.len() == 0 {
    } else {
        lemma_release_live_mono(st, ids[0], gas);
        lemma_release_list_live_mono(st_release(st, ids[0], gas), ids.drop_first(), gas);
    }
}

/// Above `num_live(st)`, the exact amount of gas makes no difference.
pub proof fn lemma_release_gas(st: Seq<ScopeView>, id: usize, g1: nat, g2: nat)
    requires
        g1 >= num_live(st),
        g2 >= num_live(st),
    ensures
        st_release(st, id, g1) == st_release(st, id, g2),
    decreases g1 + g2, 0nat, 0nat,
{
    if g1 == 0 || g2 == 0 {
        // No slot is live, so release leaves the store as it is either way.
        if id < st.len() {
            lemma_num_live_zero(st, id as int);
        }
    } else if !(id < st.len()) {
    } else {
        let s = st[id as int];
        if !s.live || s.count > 1 {
        } else {
            let killed = st.update(id as int, dead_scope());
            lemma_num_live_update(st, id as int, dead_scope());
            lemma_release_gas_list(killed, recs_ids(s.records), (g1 - 1) as nat, (g2 - 1) as nat);
            let st1 = st_release_list(killed, recs_ids(s.records), (g1 - 1) as nat);
            lemma_release_list_live_mono(killed, recs_ids(s.records), (g1 - 1) as nat);
            match s.parent {
                Some(p) => {
                    lemma_release_gas(st1, p, (g1 - 1) as nat, (g2 - 1) as nat);
                },
                None => {},
            }
        }
    }
}

pub proof fn lemma_release_gas_list(st: Seq<ScopeView>, ids: Seq<usize>, g1: nat, g2: nat)
    requires
        g1 >= num_live(st),
        g2 >= num_live(st),
    ensures
        st_release_list(st, ids, g1) == st_release_list(st, ids, g2),
    decreases g1 + g2, 1nat, ids.len(),
{
    if ids.len() == 0 {
    } else {
        lemma_release_gas(st, ids[0], g1, g2);
        let st1 = st_release(st, ids[0], g1);
        lemma_release_live_mono(st, ids[0], g1);
        lemma_release_gas_list(st1, ids.drop_first(), g1, g2);
    }
}

/// Takes one more owning handle to the scope `id`.
pub fn arena_retain(arena: &mut EnvArena, id: usize)
    ensures
        final(arena)@ == st_retain(old(arena)@, id),
{
    if id < arena.scopes.len() {
        let c = arena.scopes[id].count;
        if c < u64::MAX {
            arena.scopes[id].count = c + 1;
        }
        proof {
            assert(arena@ =~= st_retain(old(arena)@, id));
        }
    } else {
        proof {
            assert(arena@ =~= st_retain(old(arena)@, id));
        }
    }
}

pub proof fn lemma_recs_ids_take(s: Seq<(Seq<char>, ObjectView)>, j: int)
    requires
        0 <= j < s.len(),
    ensures
        recs_ids(s.take(j + 1)) == recs_ids(s.take(j)) + obj_ids(s[j].1),
    decreases j,
{
    if j == 0 {
        assert(s.take(1).drop_first() =~= Seq::<(Seq<char>, ObjectView)>::empty());
        assert(s.take(0) =~= Seq::<(Seq<char>, ObjectView)>::empty());
        assert(s.take(1)[0] == s[0]);
        assert(recs_ids(Seq::<(Seq<char>, ObjectView)>::empty()) =~= Seq::<usize>::empty());
        assert(recs_ids(s.take(1)) =~= obj_ids(s[0].1));
        assert(recs_ids(s.take(0)) + obj_ids(s[0].1) =~= obj_ids(s[0].1));
    } else {
        lemma_recs_ids_take(s.drop_first(), j - 1);
        assert(s.take(j + 1).drop_first() =~= s.drop_first().take(j));
        assert(s.take(j).drop_first() =~= s.drop_first().take(j - 1));
        assert(s.take(j + 1)[0] == s[0]);
        assert(s.take(j)[0] == s[0]);
        assert(s.drop_first()[j - 1] == s[j]);
        assert(obj_ids(s[0].1) + (recs_ids(s.drop_first().take(j - 1)) + obj_ids(s[j].1)) =~= (
        obj_ids(s[0].1) + recs_ids(s.drop_first().take(j - 1))) + obj_ids(s[j].1));
    }
}

/// The owning scope ids held by a scope's records, in record order.
fn collect_rec_ids(records: &Vec<(String, Object)>) -> (r: Vec<usize>)
    ensures
        r@ == recs_ids(recs_view(*records)),
{
    let ghost rv = recs_view(*records);
    let mut out: Vec<usize> = Vec::new();
    let mut j: usize = 0;
    while j < records.len()
        invariant
            j <= records@.len(),
            rv == recs_view(*records),
            out@ == recs_ids(rv.take(j as int)),
        decreases records@.len() - j,
    {
        push_obj_ids(&records[j].1, &mut out);
        proof {
            lemma_recs_ids_take(rv, j as int);
        }
        j += 1;
    }
    proof {
        assert(rv.take(records@.len() as int) =~= rv);
    }
    out
}

/// Gives back one owning handle to the scope `id`, clearing the slot and
/// cascading when it was the last one.
pub fn arena_release(arena: &mut EnvArena, id: usize)
    ensures
        final(arena)@ == st_release(old(arena)@, id, num_live(old(arena)@) + 1),
    decreases num_live(arena@), 0nat, 0nat,
{
    let ghost st0 = arena@;
    let ghost g = num_live(st0) + 1;
    if id >= arena.scopes.len() {
        return ;
    }
    if !arena.scopes[id].live {
        return ;
    }
    let c = arena.scopes[id].count;
    if c > 1 {
        arena.scopes[id].count = c - 1;
        proof {
            let s = st0[id as int];
            assert(arena@ =~= st0.update(id as int, ScopeView { count: (s.count - 1) as u64, ..s }));
        }
        return ;
    }
    // Last handle: clear the slot, then give back what it owned.
    let ids = collect_rec_ids(&arena.scopes[id].records);
    let parent = arena.scopes[id].parent;
    arena.scopes[id] = Scope { records: Vec::new(), parent: None, count: 0, live: false };
    proof {
        assert(arena@[id as int].records =~= Seq::<(Seq<char>, ObjectView)>::empty());
        assert(arena@[id as int] =~= dead_scope());
        assert(arena@ =~= st0.update(id as int, dead_scope()));
        lemma_num_live_update(st0, id as int, dead_scope());
        assert(num_live(arena@) + 1 == num_live(st0));
    }
    let ghost killed = arena@;
    arena_release_list(arena, &ids);
    proof {
        assert(arena@ == st_release_list(killed, recs_ids(st0[id as int].records), (g - 1) as nat));
        lemma_release_list_live_mono(killed, recs_ids(st0[id as int].records), (g - 1) as nat);
    }
    let ghost st1 = arena@;
    match parent {
        Some(p) => {
            arena_release(arena, p);
            proof {
                lemma_release_gas(st1, p, (g - 1) as nat, num_live(st1) + 1);
            }
        },
        None => {},
    }
}

/// Gives back one owning handle for each id in `ids`, left to right.
pub fn arena_release_list(arena: &mut EnvArena, ids: &[usize])
    ensures
        final(arena)@ == st_release_list(old(arena)@, ids@, num_live(old(arena)@) + 1),
    decreases num_live(arena@), 1nat, ids@.len(),
{
    if ids.len() == 0 {
        return ;
    }
    let ghost st0 = arena@;
    let ghost g = num_live(st0) + 1;
    arena_release(arena, ids[0]);
    proof {
        lemma_release_live_mono(st0, ids@[0], g);
    }
    let ghost st1 = arena@;
    arena_release_list(arena, &ids[1..ids.len()]);
    proof {
        assert(ids@.subrange(1, ids@.len() as int) =~= ids@.drop_first());
        lemma_release_gas_list(st1, ids@.drop_first(), (num_live(st1) + 1) as nat, g);
    }
}

/// Gives back the owning handles held inside a value that is being dropped.
pub fn obj_drop(arena: &mut EnvArena, o: Object)
    ensures
        final(arena)@ == st_release_list(old(arena)@, obj_ids(o@), num_live(old(arena)@) + 1),
{
    let mut ids: Vec<usize> = Vec::new();
    push_obj_ids(&o, &mut ids);
    proof {
        assert(ids@ =~= obj_ids(o@));
    }
    arena_release_list(arena, ids.as_slice());
}

/// Takes one more owning handle for each id in `ids`, left to right.
pub open spec fn st_retain_list(st: Seq<ScopeView>, ids: Seq<usize>) -> Seq<ScopeView>
    decreases ids.len(),
{
    if ids.len() == 0 {
        st
    } else {
        st_retain_list(st_retain(st, ids[0]), ids.drop_first())
    }
}

/// Copies a value and takes one more owning handle for each anonymous
/// function inside it, as cloning a shared handle does.
pub fn obj_clone_counted(arena: &mut EnvArena, o: &Object) -> (r: Object)
    ensures
        r@ == o@,
        final(arena)@ == st_retain_list(old(arena)@, obj_ids(o@)),
{
    let r = crate::ast::clone_object(o);
    retain_obj_ids(arena, &r);
    r
}

/// The store after retaining the first `j` of `ids`.
pub open spec fn st_retain_list_partial_helper(st: Seq<ScopeView>, ids: Seq<usize>, j: int) -> Seq<
    ScopeView,
>
    decreases j,
{
    if j <= 0 {
        st
    } else {
        st_retain(st_retain_list_partial_helper(st, ids, j - 1), ids[j - 1])
    }
}

pub proof fn lemma_retain_list_step(st: Seq<ScopeView>, ids: Seq<usize>, j: int)
    requires
        0 <= j < ids.len(),
    ensures
        st_retain(st_retain_list_partial_helper(st, ids, j), ids[j])
            == st_retain_list_partial_helper(st, ids, j + 1),
{
}

pub proof fn lemma_retain_list_full(st: Seq<ScopeView>, ids: Seq<usize>)
    ensures
        st_retain_list_partial_helper(st, ids, ids.len() as int) == st_retain_list(st, ids),
    decreases ids.len(),
{
    if ids.len() == 0 {
    } else {
        lemma_retain_list_full(st_retain(st, ids[0]), ids.drop_first());
        lemma_retain_partial_shift(st, ids, ids.len() as int);
    }
}

// ---------------------------------------------------------------------------
// Lookup and definition
// ---------------------------------------------------------------------------
/// First match in a scope's local records.
pub open spec fn rec_lookup(records: Seq<(Seq<char>, ObjectView)>, name: Seq<char>) -> Option<
    ObjectView,
>
    decreases records.len(),
{
    if records.len() == 0 {
        None
    } else if records[0].0 == name {
        Some(records[0].1)
    } else {
        rec_lookup(records.drop_first(), name)
    }
}

/// Local-first lookup along the parent chain starting at the scope `id`.
/// A cleared slot has no records and no parent, so the search ends there.
pub open spec fn st_lookup(st: Seq<ScopeView>, id: usize, name: Seq<char>) -> Option<ObjectView>
    decreases id,
{
    if !(id < st.len()) {
        None
    } else {
        let s = st[id as int];
        match rec_lookup(s.records, name) {
            Some(o) => Some(o),
            None => match s.parent {
                Some(p) => if p < id {
                    st_lookup(st, p, name)
                } else {
                    None
                },
                None => None,
            },
        }
    }
}

/// Defining a name in the scope `id`: an error if the slot is gone or the
/// name already stands in the slot's own records, else the pair is appended.
/// On an error the handles inside the rejected value are given back, as the
/// value is discarded.
pub open spec fn st_define(st: Seq<ScopeView>, id: usize, name: Seq<char>, obj: ObjectView) -> (Seq<
    ScopeView,
>, Result<(), Seq<char>>) {
    if !(id < st.len()) || !st[id as int].live {
        (st_release_list(st, obj_ids(obj), num_live(st) + 1), Err("no outer environment"@))
    } else if rec_lookup(st[id as int].records, name) is Some {
        (st_release_list(st, obj_ids(obj), num_live(st) + 1), Err("identifier already exists"@))
    } else {
        let s = st[id as int];
        (st.update(id as int, ScopeView { records: s.records.push((name, obj)), ..s }), Ok(()))
    }
}

/// Installing an environment in the store: the new slot starts with one
/// owning handle (the caller's), and the parent link takes one handle to the
/// parent.
pub open spec fn st_install(
    st: Seq<ScopeView>,
    records: Seq<(Seq<char>, ObjectView)>,
    parent: Option<usize>,
) -> Seq<ScopeView> {
    let st1 = match parent {
        Some(p) => st_retain(st, p),
        None => st,
    };
    st1.push(ScopeView { records, parent, count: 1, live: true })
}

/// Index of the first record with the given name, tied to `rec_lookup`.
fn records_find(records: &Vec<(String, Object)>, name: &str) -> (r: Option<usize>)
    ensures
        match r {
            Some(j) => j < records@.len() && recs_view(*records)[j as int].0 == name@ && rec_lookup(
                recs_view(*records),
                name@,
            ) == Some(recs_view(*records)[j as int].1),
            None => rec_lookup(recs_view(*records), name@) is None,
        },
{
    let ghost rv = recs_view(*records);
    proof {
        assert(rv.skip(0) =~= rv);
    }
    let mut j: usize = 0;
    while j < records.len()
        invariant
            j <= records@.len(),
            rv == recs_view(*records),
            rec_lookup(rv, name@) == rec_lookup(rv.skip(j as int), name@),
        decreases records@.len() - j,
    {
        if str_eq(records[j].0.as_str(), name) {
            proof {
                assert(rv.skip(j as int)[0] == rv[j as int]);
            }
            return Some(j);
        }
        proof {
            assert(rv.skip(j as int)[0] == rv[j as int]);
            assert(rv.skip(j as int).drop_first() =~= rv.skip(j as int + 1));
        }
        j += 1;
    }
    proof {
        assert(rv.skip(rv.len() as int) =~= Seq::<(Seq<char>, ObjectView)>::empty());
    }
    None
}

/// Takes one more owning handle for each anonymous function inside `o`.
pub fn retain_obj_ids(arena: &mut EnvArena, o: &Object)
    ensures
        final(arena)@ == st_retain_list(old(arena)@, obj_ids(o@)),
{
    let mut ids: Vec<usize> = Vec::new();
    push_obj_ids(o, &mut ids);
    proof {
        assert(ids@ =~= obj_ids(o@));
    }
    let mut j: usize = 0;
    while j < ids.len()
        invariant
            j <= ids@.len(),
            arena@ == st_retain_list_partial_helper(old(arena)@, ids@, j as int),
        decreases ids@.len() - j,
    {
        arena_retain(arena, ids[j]);
        proof {
            lemma_retain_list_step(old(arena)@, ids@, j as int);
        }
        j += 1;
    }
    proof {
        lemma_retain_list_full(old(arena)@, ids@);
    }
}

/// Looks a name up along the chain from the scope `env`; the returned copy
/// takes one more owning handle for each anonymous function inside it, as a
/// copied shared handle does.
pub fn rc_env_lookup(arena: &mut EnvArena, env: usize, name: &str) -> (r: Option<Object>)
    ensures
        match r {
            Some(o) => st_lookup(old(arena)@, env, name@) == Some(o@) && final(arena)@
                == st_retain_list(old(arena)@, obj_ids(o@)),
            None => st_lookup(old(arena)@, env, name@) is None && final(arena)@ == old(arena)@,
        },
{
    match chain_lookup(arena, env, name) {
        Some(c) => {
            retain_obj_ids(arena, &c);
            Some(c)
        },
        None => None,
    }
}

/// Defines `name` in the local records of the scope `env` alone. An ancestor
/// binding of the same name is shadowed, never changed. On an error the
/// rejected value is discarded and its handles are given back.
pub fn rc_env_define(arena: &mut EnvArena, env: usize, name: &str, obj: Object) -> (r: Result<
    (),
    Error,
>)
    ensures
        ({
            let (st2, res) = st_define(old(arena)@, env, name@, obj@);
            final(arena)@ == st2 && (match r {
                Ok(()) => res is Ok,
                Err(e) => res == Err::<(), Seq<char>>(e@),
            })
        }),
{
    let ghost st0 = arena@;
    if env >= arena.scopes.len() || !arena.scopes[env].live {
        obj_drop(arena, obj);
        return Err(Error::EvalError(String::from_str("no outer environment")));
    }
    match records_find(&arena.scopes[env].records, name) {
        Some(_) => {
            obj_drop(arena, obj);
            Err(Error::EvalError(String::from_str("identifier already exists")))
        },
        None => {
            let key = String::from_str(name);
            arena.scopes[env].records.push((key, obj));
            proof {
                let s = st0[env as int];
                assert(recs_view(arena.scopes@[env as int].records) =~= s.records.push(
                    (name@, obj@),
                ));
                assert(arena@ =~= st0.update(
                    env as int,
                    ScopeView { records: s.records.push((name@, obj@)), ..s },
                ));
            }
            Ok(())
        },
    }
}

/// Giving back one handle, with gas that is always sufficient.
pub open spec fn st_drop(st: Seq<ScopeView>, id: usize) -> Seq<ScopeView> {
    st_release(st, id, num_live(st) + 1)
}

/// Giving back one handle per id, left to right.
pub open spec fn st_drop_list(st: Seq<ScopeView>, ids: Seq<usize>) -> Seq<ScopeView> {
    st_release_list(st, ids, num_live(st) + 1)
}

pub proof fn lemma_drop_list_unfold(st: Seq<ScopeView>, ids: Seq<usize>)
    requires
        ids.len() >= 1,
    ensures
        st_drop_list(st, ids) == st_drop_list(st_drop(st, ids[0]), ids.drop_first()),
{
    let g = num_live(st) + 1;
    let st1 = st_release(st, ids[0], g);
    lemma_release_live_mono(st, ids[0], g);
    lemma_release_gas_list(st1, ids.drop_first(), g, num_live(st1) + 1);
}

pub proof fn lemma_drop_list_concat(st: Seq<ScopeView>, a: Seq<usize>, b: Seq<usize>)
    ensures
        st_drop_list(st, a + b) == st_drop_list(st_drop_list(st, a), b),
    decreases a.len(),
{
    if a.len() == 0 {
        assert(a + b =~= b);
    } else {
        assert((a + b)[0] == a[0]);
        assert((a + b).drop_first() =~= a.drop_first() + b);
        lemma_drop_list_unfold(st, a + b);
        lemma_drop_list_unfold(st, a);
        lemma_drop_list_concat(st_drop(st, a[0]), a.drop_first(), b);
    }
}

/// Lookup in a local mapping first, then along the chain from its parent.
pub open spec fn env_lookup(
    st: Seq<ScopeView>,
    records: Seq<(Seq<char>, ObjectView)>,
    parent: Option<usize>,
    name: Seq<char>,
) -> Option<ObjectView> {
    match rec_lookup(records, name) {
        Some(o) => Some(o),
        None => match parent {
            Some(p) => st_lookup(st, p, name),
            None => None,
        },
    }
}

/// Walks the chain from the scope `env` and hands back a plain copy of the
/// first match; no handles are taken.
fn chain_lookup(arena: &EnvArena, env: usize, name: &str) -> (r: Option<Object>)
    ensures
        match r {
            Some(o) => st_lookup(arena@, env, name@) == Some(o@),
            None => st_lookup(arena@, env, name@) is None,
        },
{
    let ghost st0 = arena@;
    let mut cur: usize = env;
    loop
        invariant
            st0 == arena@,
            st_lookup(st0, env, name@) == st_lookup(st0, cur, name@),
        decreases cur,
    {
        if cur >= arena.scopes.len() {
            return None;
        }
        match records_find(&arena.scopes[cur].records, name) {
            Some(j) => {
                let c = crate::ast::clone_object(&arena.scopes[cur].records[j].1);
                proof {
                    assert(recs_view(arena.scopes@[cur as int].records)[j as int].1 == c@);
                }
                return Some(c);
            },
            None => {
                match arena.scopes[cur].parent {
                    Some(p) => {
                        if p < cur {
                            cur = p;
                        } else {
                            return None;
                        }
                    },
                    None => {
                        return None;
                    },
                }
            },
        }
    }
}

/// An environment not yet installed in the store: the local mapping and the
/// link to the enclosing scope.
pub struct Environment {
    pub records: Vec<(String, Object)>,
    pub parent: Option<usize>,
}

/// The built-in bindings of the global environment.
pub open spec fn global_records() -> Seq<(Seq<char>, ObjectView)> {
    seq![
        ("add"@, ObjectView::Function(FuncView::Builtin(BuiltinOp::Add))),
        ("sub"@, ObjectView::Function(FuncView::Builtin(BuiltinOp::Sub))),
        ("mul"@, ObjectView::Function(FuncView::Builtin(BuiltinOp::Mul))),
        ("div"@, ObjectView::Function(FuncView::Builtin(BuiltinOp::Div))),
        ("gt"@, ObjectView::Function(FuncView::Builtin(BuiltinOp::Gt))),
        ("gte"@, ObjectView::Function(FuncView::Builtin(BuiltinOp::Gte))),
        ("lt"@, ObjectView::Function(FuncView::Builtin(BuiltinOp::Lt))),
        ("lte"@, ObjectView::Function(FuncView::Builtin(BuiltinOp::Lte))),
        ("eq"@, ObjectView::Function(FuncView::Builtin(BuiltinOp::Eq))),
        ("neq"@, ObjectView::Function(FuncView::Builtin(BuiltinOp::Neq))),
        ("and"@, ObjectView::Function(FuncView::Builtin(BuiltinOp::And))),
        ("or"@, ObjectView::Function(FuncView::Builtin(BuiltinOp::Or))),
        ("not"@, ObjectView::Function(FuncView::Builtin(BuiltinOp::Not))),
    ]
}

fn builtin_record(name: &str, op: BuiltinOp) -> (r: (String, Object))
    ensures
        r.0@ == name@,
        obj_view(r.1) == ObjectView::Function(FuncView::Builtin(op)),
{
    let key = String::from_str(name);
    let f = Object::Function(Box::new(Func::Builtin(op)));
    proof {
        assert(obj_view(f) == ObjectView::Function(func_view(Func::Builtin(op))));
    }
    (key, f)
}

impl Environment {
    /// An empty local mapping, linked to the scope `parent`.
    pub fn new(parent: usize) -> (r: Environment)
        ensures
            recs_view(r.records) == Seq::<(Seq<char>, ObjectView)>::empty(),
            r.parent == Some(parent),
    {
        let r = Environment { records: Vec::new(), parent: Some(parent) };
        proof {
            assert(recs_view(r.records) =~= Seq::<(Seq<char>, ObjectView)>::empty());
        }
        r
    }

    /// A pre-populated local mapping, linked to the scope `parent`; used to
    /// install call arguments.
    pub fn new_with_records(records: Vec<(String, Object)>, parent: usize) -> (r: Environment)
        ensures
            r.records == records,
            r.parent == Some(parent),
    {
        Environment { records, parent: Some(parent) }
    }

    /// The global environment: no parent, pre-populated with the built-in
    /// operations.
    pub fn new_global() -> (r: Environment)
        ensures
            recs_view(r.records) == global_records(),
            r.parent is None,
    {
        let mut records: Vec<(String, Object)> = Vec::new();
        records.push(builtin_record("add", BuiltinOp::Add));
        records.push(builtin_record("sub", BuiltinOp::Sub));
        records.push(builtin_record("mul", BuiltinOp::Mul));
        records.push(builtin_record("div", BuiltinOp::Div));
        records.push(builtin_record("gt", BuiltinOp::Gt));
        records.push(builtin_record("gte", BuiltinOp::Gte));
        records.push(builtin_record("lt", BuiltinOp::Lt));
        records.push(builtin_record("lte", BuiltinOp::Lte));
        records.push(builtin_record("eq", BuiltinOp::Eq));
        records.push(builtin_record("neq", BuiltinOp::Neq));
        records.push(builtin_record("and", BuiltinOp::And));
        records.push(builtin_record("or", BuiltinOp::Or));
        records.push(builtin_record("not", BuiltinOp::Not));
        let r = Environment { records, parent: None };
        proof {
            assert(recs_view(r.records) =~= global_records());
        }
        r
    }

    /// Installs this environment in the store and hands back a counted
    /// handle to the new scope; the parent link takes its own handle.
    pub fn to_rc_env(self, arena: &mut EnvArena) -> (r: usize)
        ensures
            r == old(arena)@.len(),
            final(arena)@ == st_install(old(arena)@, recs_view(self.records), self.parent),
    {
        let id = arena.scopes.len();
        let parent = self.parent;
        match parent {
            Some(p) => arena_retain(arena, p),
            None => {},
        }
        arena.scopes.push(Scope { records: self.records, parent, count: 1, live: true });
        proof {
            assert(arena@ =~= st_install(old(arena)@, recs_view(self.records), self.parent));
        }
        id
    }

    /// Defines `name` in this local mapping alone; an error if it is already
    /// defined here. On an error the rejected value is discarded (a value
    /// installed in the store is accounted through `rc_env_define` instead).
    pub fn define(&mut self, name: &str, obj: Object) -> (r: Result<(), Error>)
        ensures
            match r {
                Ok(()) => rec_lookup(recs_view(old(self).records), name@) is None
                    && final(self).parent == old(self).parent
                    && recs_view(final(self).records)
                       == recs_view(old(self).records).push((name@, obj@)),
                Err(e) => rec_lookup(recs_view(old(self).records), name@) is Some && *final(self)
                    == *old(self) && e@ == "identifier already exists"@,
            },
    {
        match records_find(&self.records, name) {
            Some(_) => Err(Error::EvalError(String::from_str("identifier already exists"))),
            None => {
                let key = String::from_str(name);
                self.records.push((key, obj));
                proof {
                    assert(recs_view(self.records) =~= recs_view(old(self).records).push(
                        (name@, obj@),
                    ));
                }
                Ok(())
            },
        }
    }

    /// Looks `name` up in this local mapping first, then along the chain
    /// from the parent; hands back a plain copy.
    pub fn lookup(&self, arena: &EnvArena, name: &str) -> (r: Option<Object>)
        ensures
            match r {
                Some(o) => env_lookup(arena@, recs_view(self.records), self.parent, name@) == Some(
                    o@,
                ),
                None => env_lookup(arena@, recs_view(self.records), self.parent, name@) is None,
            },
    {
        match records_find(&self.records, name) {
            Some(j) => {
                let c = crate::ast::clone_object(&self.records[j].1);
                proof {
                    assert(recs_view(self.records)[j as int].1 == c@);
                }
                Some(c)
            },
            None => match self.parent {
                Some(p) => chain_lookup(arena, p, name),
                None => None,
            },
        }
    }
}

// ---------------------------------------------------------------------------
// Built-in operations
// ---------------------------------------------------------------------------
/// An operand that must be a number.
pub open spec fn spec_parse_number(o: ObjectView) -> Result<i64, Seq<char>> {
    match o {
        ObjectView::Number(i) => Ok(i),
        _ => Err("the object is not a number"@),
    }
}

/// An operand that must be a boolean.
pub open spec fn spec_parse_bool(o: ObjectView) -> Result<bool, Seq<char>> {
    match o {
        ObjectView::Bool(b) => Ok(b),
        _ => Err("the object is not a boolean"@),
    }
}

/// Exactly two operands, both numbers.
pub open spec fn spec_number_pair(args: Seq<ObjectView>) -> Result<(i64, i64), Seq<char>> {
    if args.len() != 2 {
        Err("required 2 arguments"@)
    } else {
        match spec_parse_number(args[0]) {
            Err(e) => Err(e),
            Ok(a) => match spec_parse_number(args[1]) {
                Err(e) => Err(e),
                Ok(b) => Ok((a, b)),
            },
        }
    }
}

/// Exactly two operands, both booleans.
pub open spec fn spec_bool_pair(args: Seq<ObjectView>) -> Result<(bool, bool), Seq<char>> {
    if args.len() != 2 {
        Err("required 2 arguments"@)
    } else {
        match spec_parse_bool(args[0]) {
            Err(e) => Err(e),
            Ok(a) => match spec_parse_bool(args[1]) {
                Err(e) => Err(e),
                Ok(b) => Ok((a, b)),
            },
        }
    }
}

/// Equality tries two numbers first, then two booleans; mixed kinds fail.
pub open spec fn spec_equal(args: Seq<ObjectView>) -> Result<ObjectView, Seq<char>> {
    match spec_number_pair(args) {
        Ok((a, b)) => Ok(ObjectView::Bool(a == b)),
        Err(_) => match spec_bool_pair(args) {
            Ok((a, b)) => Ok(ObjectView::Bool(a == b)),
            Err(e) => Err(e),
        },
    }
}

/// What each built-in returns, on every argument list. Arithmetic on 64-bit
/// signed integers wraps around; division is truncating, rejects a zero
/// divisor, and rejects the one overflowing pair.
pub open spec fn spec_builtin(op: BuiltinOp, args: Seq<ObjectView>) -> Result<
    ObjectView,
    Seq<char>,
> {
    match op {
        BuiltinOp::Add => match spec_number_pair(args) {
            Ok((a, b)) => Ok(ObjectView::Number(vstd::wrapping::i64_specs::wrapping_add(a, b))),
            Err(e) => Err(e),
        },
        BuiltinOp::Sub => match spec_number_pair(args) {
            Ok((a, b)) => Ok(ObjectView::Number(vstd::wrapping::i64_specs::wrapping_sub(a, b))),
            Err(e) => Err(e),
        },
        BuiltinOp::Mul => match spec_number_pair(args) {
            Ok((a, b)) => Ok(ObjectView::Number(vstd::wrapping::i64_specs::wrapping_mul(a, b))),
            Err(e) => Err(e),
        },
        BuiltinOp::Div => match spec_number_pair(args) {
            Ok((a, b)) => if b == 0 {
                Err("division by zero"@)
            } else if a == i64::MIN && b == -1 {
                Err("arithmetic overflow"@)
            } else {
                Ok(ObjectView::Number(spec_div_trunc(a, b)))
            },
            Err(e) => Err(e),
        },
        BuiltinOp::Gt => match spec_number_pair(args) {
            Ok((a, b)) => Ok(ObjectView::Bool(a > b)),
            Err(e) => Err(e),
        },
        BuiltinOp::Gte => match spec_number_pair(args) {
            Ok((a, b)) => Ok(ObjectView::Bool(a >= b)),
            Err(e) => Err(e),
        },
        BuiltinOp::Lt => match spec_number_pair(args) {
            Ok((a, b)) => Ok(ObjectView::Bool(a < b)),
            Err(e) => Err(e),
        },
        BuiltinOp::Lte => match spec_number_pair(args) {
            Ok((a, b)) => Ok(ObjectView::Bool(a <= b)),
            Err(e) => Err(e),
        },
        BuiltinOp::Eq => spec_equal(args),
        BuiltinOp::Neq => match spec_equal(args) {
            Ok(ObjectView::Bool(b)) => Ok(ObjectView::Bool(!b)),
            Ok(_) => Err("unreach"@),
            Err(e) => Err(e),
        },
        BuiltinOp::And => match spec_bool_pair(args) {
            Ok((a, b)) => Ok(ObjectView::Bool(a && b)),
            Err(e) => Err(e),
        },
        BuiltinOp::Or => match spec_bool_pair(args) {
            Ok((a, b)) => Ok(ObjectView::Bool(a || b)),
            Err(e) => Err(e),
        },
        BuiltinOp::Not => if args.len() != 1 {
            Err("required 1 arguments"@)
        } else {
            match spec_parse_bool(args[0]) {
                Ok(b) => Ok(ObjectView::Bool(!b)),
                Err(e) => Err(e),
            }
        },
    }
}

/// Truncating division: the quotient rounded towards zero.
pub open spec fn spec_div_trunc(a: i64, b: i64) -> i64
    recommends
        b != 0,
        !(a == i64::MIN && b == -1),
{
    let x = a as int;
    let d = b as int;
    let q = if x == 0 {
        0
    } else if x > 0 && d > 0 {
        x / d
    } else if x < 0 && d < 0 {
        (x * -1) / (d * -1)
    } else if x < 0 {
        ((x * -1) / d) * -1
    } else {
        (x / (d * -1)) * -1
    };
    q as i64
}

pub fn parse_number(obj: &Object) -> (r: Result<i64, Error>)
    ensures
        match r {
            Ok(v) => spec_parse_number(obj@) == Ok::<i64, Seq<char>>(v),
            Err(e) => spec_parse_number(obj@) == Err::<i64, Seq<char>>(e@),
        },
{
    match obj {
        Object::Number(i) => Ok(*i),
        _ => Err(Error::EvalError(String::from_str("the object is not a number"))),
    }
}

pub fn parse_bool(obj: &Object) -> (r: Result<bool, Error>)
    ensures
        match r {
            Ok(v) => spec_parse_bool(obj@) == Ok::<bool, Seq<char>>(v),
            Err(e) => spec_parse_bool(obj@) == Err::<bool, Seq<char>>(e@),
        },
{
    match obj {
        Object::Bool(b) => Ok(*b),
        _ => Err(Error::EvalError(String::from_str("the object is not a boolean"))),
    }
}

pub fn parse_number_pair(objs: &[Object]) -> (r: Result<(i64, i64), Error>)
    ensures
        match r {
            Ok(p) => spec_number_pair(sobjs_view(objs@)) == Ok::<(i64, i64), Seq<char>>(p),
            Err(e) => spec_number_pair(sobjs_view(objs@)) == Err::<(i64, i64), Seq<char>>(e@),
        },
{
    if objs.len() != 2 {
        return Err(Error::EvalError(String::from_str("required 2 arguments")));
    }
    let left = parse_number(&objs[0])?;
    let right = parse_number(&objs[1])?;
    Ok((left, right))
}

pub fn parse_bool_pair(objs: &[Object]) -> (r: Result<(bool, bool), Error>)
    ensures
        match r {
            Ok(p) => spec_bool_pair(sobjs_view(objs@)) == Ok::<(bool, bool), Seq<char>>(p),
            Err(e) => spec_bool_pair(sobjs_view(objs@)) == Err::<(bool, bool), Seq<char>>(e@),
        },
{
    if objs.len() != 2 {
        return Err(Error::EvalError(String::from_str("required 2 arguments")));
    }
    let left = parse_bool(&objs[0])?;
    let right = parse_bool(&objs[1])?;
    Ok((left, right))
}

pub fn builtin_fn_add(objs: &[Object]) -> (r: Result<Object, Error>)
    ensures
        res_view(r) == spec_builtin(BuiltinOp::Add, sobjs_view(objs@)),
{
    let (left, right) = parse_number_pair(objs)?;
    Ok(Object::Number(left.wrapping_add(right)))
}

pub fn builtin_fn_sub(objs: &[Object]) -> (r: Result<Object, Error>)
    ensures
        res_view(r) == spec_builtin(BuiltinOp::Sub, sobjs_view(objs@)),
{
    let (left, right) = parse_number_pair(objs)?;
    Ok(Object::Number(left.wrapping_sub(right)))
}

pub fn builtin_fn_mul(objs: &[Object]) -> (r: Result<Object, Error>)
    ensures
        res_view(r) == spec_builtin(BuiltinOp::Mul, sobjs_view(objs@)),
{
    let (left, right) = parse_number_pair(objs)?;
    Ok(Object::Number(left.wrapping_mul(right)))
}

/// On admissible operands, the truncating quotient fits in 64 signed bits.
pub proof fn lemma_div_trunc_in_range(a: i64, b: i64)
    requires
        b != 0,
        !(a == i64::MIN && b == -1),
    ensures
        ({
            let x = a as int;
            let d = b as int;
            let q = if x == 0 {
                0int
            } else if x > 0 && d > 0 {
                x / d
            } else if x < 0 && d < 0 {
                (x * -1) / (d * -1)
            } else if x < 0 {
                ((x * -1) / d) * -1
            } else {
                (x / (d * -1)) * -1
            };
            i64::MIN <= q <= i64::MAX && spec_div_trunc(a, b) == q
        }),
{
    let x = a as int;
    let d = b as int;
    if x == 0 {
    } else if x > 0 && d > 0 {
        vstd::arithmetic::div_mod::lemma_div_pos_is_pos(x, d);
        vstd::arithmetic::div_mod::lemma_div_nonincreasing(x, d);
    } else if x < 0 && d < 0 {
        vstd::arithmetic::div_mod::lemma_div_pos_is_pos(x * -1, d * -1);
        vstd::arithmetic::div_mod::lemma_div_nonincreasing(x * -1, d * -1);
        if a == i64::MIN {
            // Here the divisor is at most -2, so the quotient is at most half
            // the magnitude of the dividend.
            vstd::arithmetic::div_mod::lemma_div_is_ordered_by_denominator(x * -1, 2, d * -1);
        }
    } else if x < 0 {
        vstd::arithmetic::div_mod::lemma_div_pos_is_pos(x * -1, d);
        vstd::arithmetic::div_mod::lemma_div_nonincreasing(x * -1, d);
    } else {
        vstd::arithmetic::div_mod::lemma_div_pos_is_pos(x, d * -1);
        vstd::arithmetic::div_mod::lemma_div_nonincreasing(x, d * -1);
    }
}

pub fn builtin_fn_div(objs: &[Object]) -> (r: Result<Object, Error>)
    ensures
        res_view(r) == spec_builtin(BuiltinOp::Div, sobjs_view(objs@)),
{
    let (left, right) = parse_number_pair(objs)?;
    proof {
        if right != 0 && !(left == i64::MIN && right == -1) {
            lemma_div_trunc_in_range(left, right);
        }
    }
    match left.checked_div(right) {
        Some(q) => Ok(Object::Number(q)),
        None => {
            if right == 0 {
                Err(Error::EvalError(String::from_str("division by zero")))
            } else {
                Err(Error::EvalError(String::from_str("arithmetic overflow")))
            }
        },
    }
}

pub fn builtin_fn_greater_than(objs: &[Object]) -> (r: Result<Object, Error>)
    ensures
        res_view(r) == spec_builtin(BuiltinOp::Gt, sobjs_view(objs@)),
{
    let (left, right) = parse_number_pair(objs)?;
    Ok(Object::Bool(left > right))
}

pub fn builtin_fn_greater_or_equal_to(objs: &[Object]) -> (r: Result<Object, Error>)
    ensures
        res_view(r) == spec_builtin(BuiltinOp::Gte, sobjs_view(objs@)),
{
    let (left, right) = parse_number_pair(objs)?;
    Ok(Object::Bool(left >= right))
}

pub fn builtin_fn_less_than(objs: &[Object]) -> (r: Result<Object, Error>)
    ensures
        res_view(r) == spec_builtin(BuiltinOp::Lt, sobjs_view(objs@)),
{
    let (left, right) = parse_number_pair(objs)?;
    Ok(Object::Bool(left < right))
}

pub fn builtin_fn_less_or_equal_to(objs: &[Object]) -> (r: Result<Object, Error>)
    ensures
        res_view(r) == spec_builtin(BuiltinOp::Lte, sobjs_view(objs@)),
{
    let (left, right) = parse_number_pair(objs)?;
    Ok(Object::Bool(left <= right))
}

pub fn builtin_fn_equal_to(objs: &[Object]) -> (r: Result<Object, Error>)
    ensures
        res_view(r) == spec_builtin(BuiltinOp::Eq, sobjs_view(objs@)),
{
    match parse_number_pair(objs) {
        Ok((left, right)) => Ok(Object::Bool(left == right)),
        _ => match parse_bool_pair(objs) {
            Ok((left, right)) => Ok(Object::Bool(left == right)),
            Err(err) => Err(err),
        },
    }
}

pub fn builtin_fn_not_equal_to(objs: &[Object]) -> (r: Result<Object, Error>)
    ensures
        res_view(r) == spec_builtin(BuiltinOp::Neq, sobjs_view(objs@)),
{
    let obj = builtin_fn_equal_to(objs)?;
    match obj {
        Object::Bool(b) => Ok(Object::Bool(!b)),
        _ => Err(Error::EvalError(String::from_str("unreach"))),
    }
}

pub fn builtin_fn_and(objs: &[Object]) -> (r: Result<Object, Error>)
    ensures
        res_view(r) == spec_builtin(BuiltinOp::And, sobjs_view(objs@)),
{
    let (left, right) = parse_bool_pair(objs)?;
    Ok(Object::Bool(left && right))
}

pub fn builtin_fn_or(objs: &[Object]) -> (r: Result<Object, Error>)
    ensures
        res_view(r) == spec_builtin(BuiltinOp::Or, sobjs_view(objs@)),
{
    let (left, right) = parse_bool_pair(objs)?;
    Ok(Object::Bool(left || right))
}

pub fn builtin_fn_not(objs: &[Object]) -> (r: Result<Object, Error>)
    ensures
        res_view(r) == spec_builtin(BuiltinOp::Not, sobjs_view(objs@)),
{
    if objs.len() != 1 {
        return Err(Error::EvalError(String::from_str("required 1 arguments")));
    }
    let b = parse_bool(&objs[0])?;
    Ok(Object::Bool(!b))
}

/// Dispatches a built-in operation on evaluated argument terms.
pub fn apply_builtin(op: BuiltinOp, objs: &[Object]) -> (r: Result<Object, Error>)
    ensures
        res_view(r) == spec_builtin(op, sobjs_view(objs@)),
{
    match op {
        BuiltinOp::Add => builtin_fn_add(objs),
        BuiltinOp::Sub => builtin_fn_sub(objs),
        BuiltinOp::Mul => builtin_fn_mul(objs),
        BuiltinOp::Div => builtin_fn_div(objs),
        BuiltinOp::Gt => builtin_fn_greater_than(objs),
        BuiltinOp::Gte => builtin_fn_greater_or_equal_to(objs),
        BuiltinOp::Lt => builtin_fn_less_than(objs),
        BuiltinOp::Lte => builtin_fn_less_or_equal_to(objs),
        BuiltinOp::Eq => builtin_fn_equal_to(objs),
        BuiltinOp::Neq => builtin_fn_not_equal_to(objs),
        BuiltinOp::And => builtin_fn_and(objs),
        BuiltinOp::Or => builtin_fn_or(objs),
        BuiltinOp::Not => builtin_fn_not(objs),
    }
}

// ---------------------------------------------------------------------------
// Laws of scoping and of the built-in operations
// ---------------------------------------------------------------------------
/// An update to one slot is invisible to every lookup that starts at an
/// earlier slot: the chain only ever climbs to lower indices.
pub proof fn lemma_lookup_skips_later_slots(
    st: Seq<ScopeView>,
    c: int,
    s2: ScopeView,
    p: usize,
    q: Seq<char>,
)
    requires
        0 <= c < st.len(),
        p < c,
    ensures
        st_lookup(st.update(c, s2), p, q) == st_lookup(st, p, q),
    decreases p,
{
    let st2 = st.update(c, s2);
    if p < st.len() {
        assert(st2[p as int] == st[p as int]);
        match st[p as int].parent {
            Some(pp) => {
                if pp < p {
                    lemma_lookup_skips_later_slots(st, c, s2, pp, q);
                }
            },
            None => {},
        }
    }
}

/// Shadowing: defining a name in a child scope changes no binding seen from
/// an ancestor scope — an ancestor lookup of any name is as before.
pub proof fn lemma_shadowing(st: Seq<ScopeView>, child: usize, name: Seq<char>, v: ObjectView, p: usize, q: Seq<char>)
    requires
        p < child,
        st_define(st, child, name, v).1 is Ok,
    ensures
        st_lookup(st_define(st, child, name, v).0, p, q) == st_lookup(st, p, q),
{
    let s = st[child as int];
    lemma_lookup_skips_later_slots(
        st,
        child as int,
        ScopeView { records: s.records.push((name, v)), ..s },
        p,
        q,
    );
}

/// Defining a name not yet present in the scope's own records succeeds, and
/// afterwards the scope's own lookup finds it.
pub proof fn lemma_define_succeeds(st: Seq<ScopeView>, id: usize, name: Seq<char>, v: ObjectView)
    requires
        id < st.len(),
        st[id as int].live,
        rec_lookup(st[id as int].records, name) is None,
    ensures
        st_define(st, id, name, v).1 is Ok,
        st_lookup(st_define(st, id, name, v).0, id, name) == Some(v),
{
    let (st2, r) = st_define(st, id, name, v);
    lemma_rec_lookup_push(st[id as int].records, name, v);
}

/// Looking a name up in records extended by that very name finds the new
/// value.
pub proof fn lemma_rec_lookup_push(records: Seq<(Seq<char>, ObjectView)>, name: Seq<char>, v: ObjectView)
    requires
        rec_lookup(records, name) is None,
    ensures
        rec_lookup(records.push((name, v)), name) == Some(v),
    decreases records.len(),
{
    if records.len() == 0 {
        assert(records.push((name, v))[0] == (name, v));
    } else {
        assert(records.push((name, v))[0] == records[0]);
        assert(records.push((name, v)).drop_first() =~= records.drop_first().push((name, v)));
        lemma_rec_lookup_push(records.drop_first(), name, v);
    }
}

/// Re-defining a name already present in the scope's own records fails with
/// the definition error, and the store's records are unchanged.
pub proof fn lemma_redefine_fails(st: Seq<ScopeView>, id: usize, name: Seq<char>, v: ObjectView)
    requires
        id < st.len(),
        st[id as int].live,
        rec_lookup(st[id as int].records, name) is Some,
    ensures
        st_define(st, id, name, v).1 == Err::<(), Seq<char>>("identifier already exists"@),
{
}

/// A name never bound before may be defined in a parent and then again in a
/// child: both definitions succeed, the second shadowing the first.
pub proof fn lemma_define_parent_then_child(
    st: Seq<ScopeView>,
    parent: usize,
    child: usize,
    name: Seq<char>,
    v1: ObjectView,
    v2: ObjectView,
)
    requires
        parent < st.len(),
        child < st.len(),
        parent != child,
        st[parent as int].live,
        st[child as int].live,
        rec_lookup(st[parent as int].records, name) is None,
        rec_lookup(st[child as int].records, name) is None,
    ensures
        st_define(st, parent, name, v1).1 is Ok,
        st_define(st_define(st, parent, name, v1).0, child, name, v2).1 is Ok,
{
    lemma_define_succeeds(st, parent, name, v1);
    let st2 = st_define(st, parent, name, v1).0;
    assert(st2[child as int] == st[child as int]);
    lemma_define_succeeds(st2, child, name, v2);
}

/// For operand pairs whose exact result fits in 64 signed bits, the four
/// arithmetic built-ins compute that exact result; division by zero fails
/// rather than computing.
pub proof fn lemma_arith_exact(a: i64, b: i64)
    ensures
        i64::MIN <= a + b <= i64::MAX ==> spec_builtin(
            BuiltinOp::Add,
            seq![ObjectView::Number(a), ObjectView::Number(b)],
        ) == Ok::<ObjectView, Seq<char>>(ObjectView::Number((a + b) as i64)),
        i64::MIN <= a - b <= i64::MAX ==> spec_builtin(
            BuiltinOp::Sub,
            seq![ObjectView::Number(a), ObjectView::Number(b)],
        ) == Ok::<ObjectView, Seq<char>>(ObjectView::Number((a - b) as i64)),
        i64::MIN <= a * b <= i64::MAX ==> spec_builtin(
            BuiltinOp::Mul,
            seq![ObjectView::Number(a), ObjectView::Number(b)],
        ) == Ok::<ObjectView, Seq<char>>(ObjectView::Number((a * b) as i64)),
        b != 0 && !(a == i64::MIN && b == -1) ==> spec_builtin(
            BuiltinOp::Div,
            seq![ObjectView::Number(a), ObjectView::Number(b)],
        ) == Ok::<ObjectView, Seq<char>>(ObjectView::Number(spec_div_trunc(a, b))),
        b == 0 ==> spec_builtin(BuiltinOp::Div, seq![ObjectView::Number(a), ObjectView::Number(b)])
            == Err::<ObjectView, Seq<char>>("division by zero"@),
{
    let args = seq![ObjectView::Number(a), ObjectView::Number(b)];
    assert(spec_number_pair(args) == Ok::<(i64, i64), Seq<char>>((a, b)));
    if a * b > i64::MAX || a * b < i64::MIN {
    } else {
        assert(vstd::wrapping::i64_specs::wrapping_mul(a, b) == a * b) by {
            vstd::arithmetic::div_mod::lemma_small_mod(
                (a * b - i64::MIN) as nat,
                0x1_0000_0000_0000_0000 as nat,
            );
            assert(vstd::wrapping::i64_specs::signed_crop(a * b) == (a * b) as i64) by {
                lemma_signed_crop_in_range(a * b);
            }
        }
    }
}

/// Cropping a value already in 64-bit signed range leaves it unchanged.
proof fn lemma_signed_crop_in_range(x: int)
    requires
        i64::MIN <= x <= i64::MAX,
    ensures
        vstd::wrapping::i64_specs::signed_crop(x) == x as i64,
{
    let range: int = 0x1_0000_0000_0000_0000;
    if x >= 0 {
        vstd::arithmetic::div_mod::lemma_small_mod(x as nat, range as nat);
    } else {
        // A negative value wraps to the upper half of the modulus and is
        // brought back by the crop.
        vstd::arithmetic::div_mod::lemma_mod_multiples_vanish(1, x, range);
        vstd::arithmetic::div_mod::lemma_small_mod((x + range) as nat, range as nat);
        assert(x % range == x + range);
    }
}

/// Equality and inequality accept two numbers or two booleans and reject
/// mixed kinds: they produce a boolean exactly on those argument lists.
pub proof fn lemma_eq_kinds(args: Seq<ObjectView>)
    ensures
        spec_builtin(BuiltinOp::Eq, args) is Ok <==> (args.len() == 2 && ((args[0] is Number
            && args[1] is Number) || (args[0] is Bool && args[1] is Bool))),
        spec_builtin(BuiltinOp::Neq, args) is Ok <==> (args.len() == 2 && ((args[0] is Number
            && args[1] is Number) || (args[0] is Bool && args[1] is Bool))),
{
}

pub proof fn lemma_retain_partial_shift(st: Seq<ScopeView>, ids: Seq<usize>, j: int)
    requires
        1 <= j <= ids.len(),
    ensures
        st_retain_list_partial_helper(st, ids, j) == st_retain_list_partial_helper(
            st_retain(st, ids[0]),
            ids.drop_first(),
            j - 1,
        ),
    decreases j,
{
    let st1 = st_retain(st, ids[0]);
    if j == 1 {
        assert(st_retain_list_partial_helper(st, ids, 1) == st_retain(
            st_retain_list_partial_helper(st, ids, 0),
            ids[0],
        ));
        assert(st_retain_list_partial_helper(st1, ids.drop_first(), 0) == st1);
    } else {
        lemma_retain_partial_shift(st, ids, j - 1);
        assert(ids.drop_first()[j - 2] == ids[j - 1]);
        assert(st_retain_list_partial_helper(st, ids, j) == st_retain(
            st_retain_list_partial_helper(st, ids, j - 1),
            ids[j - 1],
        ));
        assert(st_retain_list_partial_helper(st1, ids.drop_first(), j - 1) == st_retain(
            st_retain_list_partial_helper(st1, ids.drop_first(), j - 2),
            ids.drop_first()[j - 2],
        ));
    }
}

} // verus!
