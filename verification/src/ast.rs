//! The shared term representation: AST nodes, runtime values and environment
//! records are all the one tagged union `Object`.

use vstd::prelude::*;

verus! {

/// The built-in operations installed in the global environment.
#[derive(Clone, Copy, PartialEq, Eq, Structural)]
pub enum BuiltinOp {
    Add,
    Sub,
    Mul,
    Div,
    Gt,
    Gte,
    Lt,
    Lte,
    Eq,
    Neq,
    And,
    Or,
    Not,
}

/// A term: an identifier or keyword, a boolean, a 64-bit signed integer, a
/// list of terms, or a function value.
pub enum Object {
    Symbol(String),
    Bool(bool),
    Number(i64),
    List(Vec<Object>),
    Function(Box<Func>),
}

/// A function value. A named function (`defn`) carries a *non-owning* handle
/// to its defining scope: the scope id must still be live when the function is
/// invoked. An anonymous function (`fn`) carries an *owning*, counted handle.
pub enum Func {
    Builtin(BuiltinOp),
    UserDefined(String, Vec<String>, Object, usize),
    Closure(Vec<String>, Object, usize),
}

/// Mathematical model of a term: strings become `Seq<char>`, vectors become
/// `Seq`, and the `Box` around functions disappears.
pub enum ObjectView {
    Symbol(Seq<char>),
    Bool(bool),
    Number(i64),
    List(Seq<ObjectView>),
    Function(FuncView),
}

pub enum FuncView {
    Builtin(BuiltinOp),
    UserDefined(Seq<char>, Seq<Seq<char>>, Box<ObjectView>, usize),
    Closure(Seq<Seq<char>>, Box<ObjectView>, usize),
}

broadcast use vstd::std_specs::vec::group_vec_axioms;

pub open spec fn obj_view(o: Object) -> ObjectView
    decreases o,
{
    match o {
        Object::Symbol(s) => ObjectView::Symbol(s@),
        Object::Bool(b) => ObjectView::Bool(b),
        Object::Number(n) => ObjectView::Number(n),
        Object::List(items) => ObjectView::List(
            Seq::new(
                items@.len(),
                |i: int|
                    if 0 <= i < items@.len() {
                        obj_view(items@[i])
                    } else {
                        ObjectView::Bool(false)
                    },
            ),
        ),
        Object::Function(f) => ObjectView::Function(func_view(*f)),
    }
}

pub open spec fn func_view(f: Func) -> FuncView
    decreases f,
{
    match f {
        Func::Builtin(op) => FuncView::Builtin(op),
        Func::UserDefined(name, params, body, scope) => FuncView::UserDefined(
            name@,
            strs_view(params),
            Box::new(obj_view(body)),
            scope,
        ),
        Func::Closure(params, body, scope) => FuncView::Closure(
            strs_view(params),
            Box::new(obj_view(body)),
            scope,
        ),
    }
}

/// The views of a sequence of terms, element by element.
pub open spec fn sobjs_view(s: Seq<Object>) -> Seq<ObjectView> {
    Seq::new(s.len(), |i: int| obj_view(s[i]))
}

/// The views of a vector of terms, element by element.
pub open spec fn vobjs_view(items: Vec<Object>) -> Seq<ObjectView> {
    sobjs_view(items@)
}

/// The views of a vector of strings, element by element.
pub open spec fn strs_view(v: Vec<String>) -> Seq<Seq<char>> {
    Seq::new(v@.len(), |i: int| v@[i]@)
}

/// The view of a list term is the list of the element views.
pub broadcast proof fn lemma_list_view(items: Vec<Object>)
    ensures
        #[trigger] obj_view(Object::List(items)) == ObjectView::List(vobjs_view(items)),
{
    assert(obj_view(Object::List(items)) matches ObjectView::List(s) && s =~= vobjs_view(items));
}

impl View for Object {
    type V = ObjectView;

    open spec fn view(&self) -> ObjectView {
        obj_view(*self)
    }
}

impl View for Func {
    type V = FuncView;

    open spec fn view(&self) -> FuncView {
        func_view(*self)
    }
}

/// Size of a term, the measure for the evaluator's structural recursion.
pub open spec fn osize(o: ObjectView) -> nat
    decreases o,
{
    match o {
        ObjectView::List(items) => 1 + oseq_size(items),
        _ => 1,
    }
}

pub open spec fn oseq_size(s: Seq<ObjectView>) -> nat
    decreases s,
{
    if s.len() == 0 {
        0
    } else {
        osize(s[0]) + oseq_size(s.drop_first())
    }
}

pub proof fn lemma_osize_pos(o: ObjectView)
    ensures
        osize(o) >= 1,
{
}

pub proof fn lemma_oseq_size_elem(s: Seq<ObjectView>, i: int)
    requires
        0 <= i < s.len(),
    ensures
        osize(s[i]) <= oseq_size(s),
    decreases s.len(),
{
    if i == 0 {
    } else {
        lemma_oseq_size_elem(s.drop_first(), i - 1);
        assert(s.drop_first()[i - 1] == s[i]);
    }
}

/// The scope ids held by the owning (counted) handles inside a value: one for
/// each anonymous-function value it contains. Named functions hold a
/// non-owning handle, which is not listed here.
pub open spec fn obj_ids(o: ObjectView) -> Seq<usize>
    decreases o,
{
    match o {
        ObjectView::Symbol(_) => Seq::empty(),
        ObjectView::Bool(_) => Seq::empty(),
        ObjectView::Number(_) => Seq::empty(),
        ObjectView::List(items) => objs_ids(items),
        ObjectView::Function(f) => match f {
            FuncView::Builtin(_) => Seq::empty(),
            FuncView::UserDefined(_, _, body, _) => obj_ids(*body),
            FuncView::Closure(_, body, scope) => seq![scope] + obj_ids(*body),
        },
    }
}

pub open spec fn objs_ids(s: Seq<ObjectView>) -> Seq<usize>
    decreases s,
{
    if s.len() == 0 {
        Seq::empty()
    } else {
        obj_ids(s[0]) + objs_ids(s.drop_first())
    }
}

/// Appends to `out` the owning scope ids inside `o`, in the order `obj_ids`
/// lists them.
pub fn push_obj_ids(o: &Object, out: &mut Vec<usize>)
    ensures
        final(out)@ =~= old(out)@ + obj_ids(o@),
    decreases *o,
{
    match o {
        Object::Symbol(_) => {
            proof {
                assert(o@ matches ObjectView::Symbol(_));
                assert(out@ =~= out@ + obj_ids(o@));
                assert(out@ == out@ + obj_ids(o@));
            }
        },
        Object::Bool(_) => {
            proof {
                assert(o@ matches ObjectView::Bool(_));
                assert(out@ =~= out@ + obj_ids(o@));
                assert(out@ == out@ + obj_ids(o@));
            }
        },
        Object::Number(_) => {
            proof {
                assert(o@ matches ObjectView::Number(_));
                assert(out@ =~= out@ + obj_ids(o@));
                assert(out@ == out@ + obj_ids(o@));
            }
        },
        Object::List(items) => {
            push_objs_ids(items, out);
            proof {
                lemma_list_view(*items);
            }
        },
        Object::Function(f) => match &**f {
            Func::Builtin(_) => {
                proof {
                    assert(o@ == ObjectView::Function(func_view(**f)));
                    assert(func_view(**f) matches FuncView::Builtin(_));
                    assert(out@ =~= out@ + obj_ids(o@));
                    assert(out@ == out@ + obj_ids(o@));
                }
            },
            Func::UserDefined(_, _, body, _) => {
                push_obj_ids(body, out);
                proof {
                    assert(o@ == ObjectView::Function(func_view(**f)));
                    assert(func_view(**f) matches FuncView::UserDefined(_, _, bb, _) && *bb
                        == body@);
                    assert(obj_ids(o@) == obj_ids(body@));
                }
            },
            Func::Closure(_, body, scope) => {
                out.push(*scope);
                push_obj_ids(body, out);
                proof {
                    assert(o@ == ObjectView::Function(func_view(**f)));
                    assert(func_view(**f) matches FuncView::Closure(_, bb, ss) && *bb == body@
                        && ss == *scope);
                    assert(obj_ids(o@) == seq![*scope] + obj_ids(body@));
                    assert(out@ =~= old(out)@ + (seq![*scope] + obj_ids(body@)));
                }
            },
        },
    }
}

pub fn push_objs_ids(items: &Vec<Object>, out: &mut Vec<usize>)
    ensures
        final(out)@ == old(out)@ + objs_ids(vobjs_view(*items)),
    decreases *items,
{
    let ghost views = vobjs_view(*items);
    let mut j: usize = 0;
    while j < items.len()
        invariant
            j <= items@.len(),
            views == vobjs_view(*items),
            out@ == old(out)@ + objs_ids(views.take(j as int)),
        decreases items@.len() - j,
    {
        push_obj_ids(&items[j], out);
        proof {
            lemma_objs_ids_take(views, j as int);
        }
        j += 1;
    }
    proof {
        assert(views.take(items@.len() as int) =~= views);
    }
}

pub proof fn lemma_objs_ids_take(s: Seq<ObjectView>, j: int)
    requires
        0 <= j < s.len(),
    ensures
        objs_ids(s.take(j + 1)) == objs_ids(s.take(j)) + obj_ids(s[j]),
    decreases j,
{
    if j == 0 {
        assert(s.take(1).drop_first() =~= Seq::<ObjectView>::empty());
        assert(s.take(0) =~= Seq::<ObjectView>::empty());
        assert(s.take(1)[0] == s[0]);
        assert(objs_ids(Seq::<ObjectView>::empty()) =~= Seq::<usize>::empty());
        assert(objs_ids(s.take(1)) =~= obj_ids(s[0]));
        assert(objs_ids(s.take(0)) + obj_ids(s[0]) =~= obj_ids(s[0]));
    } else {
        lemma_objs_ids_take(s.drop_first(), j - 1);
        assert(s.take(j + 1).drop_first() =~= s.drop_first().take(j));
        assert(s.take(j).drop_first() =~= s.drop_first().take(j - 1));
        assert(s.take(j + 1)[0] == s[0]);
        assert(s.take(j)[0] == s[0]);
        assert(s.drop_first()[j - 1] == s[j]);
        assert(obj_ids(s[0]) + (objs_ids(s.drop_first().take(j - 1)) + obj_ids(s[j])) =~= (obj_ids(
            s[0],
        ) + objs_ids(s.drop_first().take(j - 1))) + obj_ids(s[j]));
    }
}

/// Structural copy of a term; lists and bodies are copied element by element.
pub fn clone_object(o: &Object) -> (r: Object)
    ensures
        r@ == o@,
    decreases *o,
{
    match o {
        Object::Symbol(s) => Object::Symbol(s.clone()),
        Object::Bool(b) => Object::Bool(*b),
        Object::Number(n) => Object::Number(*n),
        Object::List(items) => {
            let copied = clone_objects(items);
            let ghost copied_snapshot = copied;
            let r = Object::List(copied);
            proof {
                lemma_list_view(*items);
                lemma_list_view(copied_snapshot);
                assert(vobjs_view(copied_snapshot) =~= vobjs_view(*items));
            }
            r
        },
        Object::Function(f) => Object::Function(Box::new(clone_func(f))),
    }
}

pub fn clone_objects(items: &Vec<Object>) -> (r: Vec<Object>)
    ensures
        vobjs_view(r) == vobjs_view(*items),
    decreases *items,
{
    let mut copied: Vec<Object> = Vec::new();
    let mut j: usize = 0;
    while j < items.len()
        invariant
            j <= items@.len(),
            copied@.len() == j,
            forall|k: int| 0 <= k < j ==> copied@[k]@ == obj_view(#[trigger] items@[k]),
        decreases items@.len() - j,
    {
        let c = clone_object(&items[j]);
        copied.push(c);
        j += 1;
    }
    proof {
        assert(vobjs_view(copied) =~= vobjs_view(*items));
    }
    copied
}

pub fn clone_func(f: &Func) -> (r: Func)
    ensures
        r@ == f@,
    decreases *f,
{
    match f {
        Func::Builtin(op) => Func::Builtin(*op),
        Func::UserDefined(name, params, body, scope) => Func::UserDefined(
            name.clone(),
            clone_strings(params),
            clone_object(body),
            *scope,
        ),
        Func::Closure(params, body, scope) => Func::Closure(
            clone_strings(params),
            clone_object(body),
            *scope,
        ),
    }
}

pub fn clone_strings(v: &Vec<String>) -> (r: Vec<String>)
    ensures
        r@ == v@,
{
    let mut r: Vec<String> = Vec::new();
    let mut j: usize = 0;
    while j < v.len()
        invariant
            j <= v@.len(),
            r@ =~= v@.take(j as int),
        decreases v@.len() - j,
    {
        r.push(v[j].clone());
        j += 1;
    }
    proof {
        assert(v@.take(v@.len() as int) =~= v@);
    }
    r
}

/// The canonical text of a term: atoms literally, lists space-joined in
/// parentheses, built-ins as an opaque placeholder, functions as the form
/// that would produce them.
pub open spec fn render_obj(o: ObjectView) -> Seq<char>
    decreases o, 0nat,
{
    match o {
        ObjectView::Symbol(s) => s,
        ObjectView::Bool(b) => if b {
            "true"@
        } else {
            "false"@
        },
        ObjectView::Number(n) => crate::numeral::render_int(n as int),
        ObjectView::List(items) => "("@ + render_objs(items) + ")"@,
        ObjectView::Function(f) => match f {
            FuncView::Builtin(_) => "(builtin)"@,
            FuncView::UserDefined(name, params, body, _) => "(defn "@ + name + " ("@
                + render_names(params) + ") "@ + render_obj(*body) + ")"@,
            FuncView::Closure(params, body, _) => "(fn ("@ + render_names(params) + ") "@
                + render_obj(*body) + ")"@,
        },
    }
}

/// Space-joined renderings of the terms of a list.
pub open spec fn render_objs(items: Seq<ObjectView>) -> Seq<char>
    decreases items, 1nat,
{
    if items.len() == 0 {
        Seq::empty()
    } else if items.len() == 1 {
        render_obj(items[0])
    } else {
        render_obj(items[0]) + seq![' '] + render_objs(items.drop_first())
    }
}

/// Space-joined parameter names.
pub open spec fn render_names(names: Seq<Seq<char>>) -> Seq<char>
    decreases names.len(),
{
    if names.len() == 0 {
        Seq::empty()
    } else if names.len() == 1 {
        names[0]
    } else {
        names[0] + seq![' '] + render_names(names.drop_first())
    }
}

impl Object {
    /// The canonical text of this term, as the REPL prints it.
    pub fn to_text(&self) -> (r: String)
        ensures
            r@ == render_obj(self@),
        decreases *self, 0nat,
    {
        match self {
            Object::Symbol(s) => s.clone(),
            Object::Bool(b) => {
                if *b {
                    String::from_str("true")
                } else {
                    String::from_str("false")
                }
            },
            Object::Number(n) => crate::numeral::render_i64(*n),
            Object::List(items) => {
                let mut out = String::from_str("(");
                out.append(render_items(items, 0).as_str());
                out.append(")");
                proof {
                    lemma_list_view(*items);
                    assert(vobjs_view(*items).skip(0) =~= vobjs_view(*items));
                    assert(out@ =~= "("@ + render_objs(vobjs_view(*items)) + ")"@);
                }
                out
            },
            Object::Function(f) => match &**f {
                Func::Builtin(_) => {
                    proof {
                        assert(self@ == ObjectView::Function(func_view(**f)));
                    }
                    String::from_str("(builtin)")
                },
                Func::UserDefined(name, params, body, _) => {
                    let mut out = String::from_str("(defn ");
                    out.append(name.as_str());
                    out.append(" (");
                    out.append(render_name_list(params, 0).as_str());
                    out.append(") ");
                    out.append(body.to_text().as_str());
                    out.append(")");
                    proof {
                        assert(self@ == ObjectView::Function(func_view(**f)));
                        assert(strs_view(*params).skip(0) =~= strs_view(*params));
                        assert(out@ =~= "(defn "@ + name@ + " ("@ + render_names(
                            strs_view(*params),
                        ) + ") "@ + render_obj(body@) + ")"@);
                    }
                    out
                },
                Func::Closure(params, body, _) => {
                    let mut out = String::from_str("(fn (");
                    out.append(render_name_list(params, 0).as_str());
                    out.append(") ");
                    out.append(body.to_text().as_str());
                    out.append(")");
                    proof {
                        assert(self@ == ObjectView::Function(func_view(**f)));
                        assert(strs_view(*params).skip(0) =~= strs_view(*params));
                        assert(out@ =~= "(fn ("@ + render_names(strs_view(*params)) + ") "@
                            + render_obj(body@) + ")"@);
                    }
                    out
                },
            },
        }
    }
}

/// Space-joined text of the terms from index `from` on.
fn render_items(items: &Vec<Object>, from: usize) -> (r: String)
    requires
        from <= items@.len(),
    ensures
        r@ == render_objs(vobjs_view(*items).skip(from as int)),
    decreases *items, items@.len() - from,
{
    let ghost views = vobjs_view(*items);
    if from == items.len() {
        let r = String::new();
        proof {
            assert(views.skip(from as int) =~= Seq::<ObjectView>::empty());
        }
        r
    } else if from + 1 == items.len() {
        let r = items[from].to_text();
        proof {
            assert(views.skip(from as int).len() == 1);
            assert(views.skip(from as int)[0] == views[from as int]);
        }
        r
    } else {
        let mut out = items[from].to_text();
        out.append(" ");
        out.append(render_items(items, from + 1).as_str());
        proof {
            reveal_strlit(" ");
            assert(views.skip(from as int)[0] == views[from as int]);
            assert(views.skip(from as int).drop_first() =~= views.skip(from as int + 1));
            assert(" "@ =~= seq![' ']);
            assert(out@ =~= render_obj(views[from as int]) + seq![' '] + render_objs(
                views.skip(from as int + 1),
            ));
        }
        out
    }
}

/// Space-joined names from index `from` on.
fn render_name_list(names: &Vec<String>, from: usize) -> (r: String)
    requires
        from <= names@.len(),
    ensures
        r@ == render_names(strs_view(*names).skip(from as int)),
    decreases names@.len() - from,
{
    let ghost views = strs_view(*names);
    if from == names.len() {
        let r = String::new();
        proof {
            assert(views.skip(from as int) =~= Seq::<Seq<char>>::empty());
        }
        r
    } else if from + 1 == names.len() {
        let r = names[from].clone();
        proof {
            assert(views.skip(from as int).len() == 1);
            assert(views.skip(from as int)[0] == views[from as int]);
        }
        r
    } else {
        let mut out = names[from].clone();
        out.append(" ");
        out.append(render_name_list(names, from + 1).as_str());
        proof {
            reveal_strlit(" ");
            assert(views.skip(from as int)[0] == views[from as int]);
            assert(views.skip(from as int).drop_first() =~= views.skip(from as int + 1));
            assert(" "@ =~= seq![' ']);
            assert(out@ =~= views[from as int] + seq![' '] + render_names(
                views.skip(from as int + 1),
            ));
        }
        out
    }
}

/// Character-for-character string comparison, specified over the views.
pub fn str_eq(a: &str, b: &str) -> (r: bool)
    ensures
        r == (a@ == b@),
{
    let la = a.unicode_len();
    let lb = b.unicode_len();
    if la != lb {
        return false;
    }
    let mut j: usize = 0;
    while j < la
        invariant
            la == a@.len(),
            lb == b@.len(),
            la == lb,
            j <= la,
            forall|k: int| 0 <= k < j ==> a@[k] == b@[k],
        decreases la - j,
    {
        if a.get_char(j) != b.get_char(j) {
            return false;
        }
        j += 1;
    }
    proof {
        assert(a@ =~= b@);
    }
    true
}

} // verus!
