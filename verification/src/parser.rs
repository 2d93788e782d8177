//! The parser: a flat token sequence to a term tree. An atom token reads as
//! `true`/`false`, else as a base-10 signed integer when fully numeric, else
//! as a symbol; a list runs from `(` to its matching `)`.

use vstd::prelude::*;

use crate::ast::Object;
use crate::ast::ObjectView;
use crate::ast::obj_view;
use crate::ast::str_eq;
use crate::ast::vobjs_view;
use crate::error::Error;
use crate::numeral::is_int_token;
use crate::numeral::int_token_val;
use crate::numeral::parse_i64;

verus! {

/// The views of a sequence of tokens.
pub open spec fn toks_view(s: Seq<String>) -> Seq<Seq<char>> {
    Seq::new(s.len(), |i: int| s[i]@)
}

/// What one atom token stands for.
pub open spec fn spec_parse_atom(tok: Seq<char>) -> ObjectView {
    if tok == "true"@ {
        ObjectView::Bool(true)
    } else if tok == "false"@ {
        ObjectView::Bool(false)
    } else if is_int_token(tok) && i64::MIN <= int_token_val(tok) <= i64::MAX {
        ObjectView::Number(int_token_val(tok) as i64)
    } else {
        ObjectView::Symbol(tok)
    }
}

/// One form read off the front of the tokens: the term and the tokens left.
pub open spec fn spec_parse(toks: Seq<Seq<char>>) -> Result<
    (ObjectView, Seq<Seq<char>>),
    Seq<char>,
>
    decreases toks.len(), 0nat,
{
    if toks.len() == 0 {
        Err("required at least one token"@)
    } else if toks[0] == "("@ {
        spec_parse_list(toks.drop_first())
    } else if toks[0] == ")"@ {
        Err("unexpected right paren"@)
    } else {
        Ok((spec_parse_atom(toks[0]), toks.drop_first()))
    }
}

/// The elements of a list up to its closing parenthesis. The guard on the
/// recursion only serves termination: a successful parse always consumes at
/// least one token (`lemma_parse_consumes`), so the guard never fails.
pub open spec fn spec_parse_list(toks: Seq<Seq<char>>) -> Result<
    (ObjectView, Seq<Seq<char>>),
    Seq<char>,
>
    decreases toks.len(), 1nat,
{
    if toks.len() == 0 {
        Err("missing right paren"@)
    } else if toks[0] == ")"@ {
        Ok((ObjectView::List(Seq::empty()), toks.drop_first()))
    } else {
        match spec_parse(toks) {
            Ok((o, rest)) => if rest.len() < toks.len() {
                match spec_parse_list(rest) {
                    Ok((lst, rest2)) => match lst {
                        ObjectView::List(items) => Ok((ObjectView::List(seq![o] + items), rest2)),
                        _ => Err("missing right paren"@),
                    },
                    Err(e) => Err(e),
                }
            } else {
                Err("missing right paren"@)
            },
            Err(e) => Err(e),
        }
    }
}

/// A successful parse consumes at least one token, and a parsed list is a
/// list.
pub proof fn lemma_parse_consumes(toks: Seq<Seq<char>>)
    ensures
        spec_parse(toks) matches Ok(p) ==> p.1.len() < toks.len(),
    decreases toks.len(), 0nat,
{
    if toks.len() > 0 && toks[0] == "("@ {
        lemma_parse_list_consumes(toks.drop_first());
    }
}

pub proof fn lemma_parse_list_consumes(toks: Seq<Seq<char>>)
    ensures
        spec_parse_list(toks) matches Ok(p) ==> p.1.len() < toks.len() && p.0 matches
            ObjectView::List(_),
    decreases toks.len(), 1nat,
{
    if toks.len() == 0 || toks[0] == ")"@ {
    } else {
        lemma_parse_consumes(toks);
        match spec_parse(toks) {
            Ok((o, rest)) => {
                if rest.len() < toks.len() {
                    lemma_parse_list_consumes(rest);
                }
            },
            Err(_) => {},
        }
    }
}

// ---------------------------------------------------------------------------
// Round trip
// ---------------------------------------------------------------------------
/// Rendering a self-evaluating term — a number or a boolean — and parsing
/// the rendering again gives the term back, with no tokens left over.
pub proof fn lemma_render_parse_roundtrip(o: ObjectView)
    requires
        o is Number || o is Bool,
    ensures
        spec_parse(crate::token::spec_tokenize(crate::ast::render_obj(o))) == Ok::<
            (ObjectView, Seq<Seq<char>>),
            Seq<char>,
        >((o, Seq::empty())),
{
    reveal_strlit("true");
    reveal_strlit("false");
    reveal_strlit("(");
    reveal_strlit(")");
    let text = crate::ast::render_obj(o);
    match o {
        ObjectView::Number(n) => {
            crate::numeral::lemma_render_int_roundtrip(n as int);
            lemma_render_int_chars(n as int);
            crate::token::lemma_tokenize_atom(text);
            let toks = crate::token::spec_tokenize(text);
            assert(toks[0] == text);
            assert(text[0] == '-' || crate::numeral::is_digit(text[0]));
            assert(text != "("@ && text != ")"@);
            assert(toks.drop_first() =~= Seq::<Seq<char>>::empty());
            // A numeric token is neither `true` nor `false`.
            assert(text != "true"@ && text != "false"@);
            assert(spec_parse_atom(text) == o);
        },
        ObjectView::Bool(b) => {
            if b {
                assert(forall|m: int|
                    0 <= m < "true"@.len() ==> !crate::token::is_ws(#[trigger] "true"@[m])
                        && !crate::token::is_paren("true"@[m]));
                crate::token::lemma_tokenize_atom("true"@);
            } else {
                assert(forall|m: int|
                    0 <= m < "false"@.len() ==> !crate::token::is_ws(#[trigger] "false"@[m])
                        && !crate::token::is_paren("false"@[m]));
                crate::token::lemma_tokenize_atom("false"@);
            }
            let toks = crate::token::spec_tokenize(text);
            assert(toks.drop_first() =~= Seq::<Seq<char>>::empty());
            assert(spec_parse_atom(text) == o);
        },
        _ => {},
    }
}

/// Every character of a rendered integer is a digit or a leading `-`: in
/// particular none is whitespace or a parenthesis, and the first is not `t`
/// or `f`.
proof fn lemma_render_int_chars(n: int)
    requires
        i64::MIN <= n <= i64::MAX,
    ensures
        ({
            let text = crate::numeral::render_int(n);
            text.len() >= 1 && (text[0] == '-' || crate::numeral::is_digit(text[0])) && forall|
                m: int,
            |
                0 <= m < text.len() ==> !crate::token::is_ws(#[trigger] text[m])
                    && !crate::token::is_paren(text[m])
        }),
{
    let text = crate::numeral::render_int(n);
    if n < 0 {
        crate::numeral::lemma_dec_digits_all_digits(-n);
        assert(text.drop_first() =~= crate::numeral::dec_digits(-n));
        assert forall|m: int|
            0 <= m < text.len() implies !crate::token::is_ws(#[trigger] text[m])
            && !crate::token::is_paren(text[m]) by {
            if m > 0 {
                assert(text[m] == crate::numeral::dec_digits(-n)[m - 1]);
                assert(crate::numeral::is_digit(text[m]));
            }
        }
    } else {
        crate::numeral::lemma_dec_digits_all_digits(n);
        assert forall|m: int|
            0 <= m < text.len() implies !crate::token::is_ws(#[trigger] text[m])
            && !crate::token::is_paren(text[m]) by {
            assert(crate::numeral::is_digit(text[m]));
        }
    }
}

/// Reads one atom token.
fn parse_single_object(token: &String) -> (r: Object)
    ensures
        r@ == spec_parse_atom(token@),
{
    if str_eq(token.as_str(), "true") {
        Object::Bool(true)
    } else if str_eq(token.as_str(), "false") {
        Object::Bool(false)
    } else {
        match parse_i64(token.as_str()) {
            Some(i) => Object::Number(i),
            None => Object::Symbol(token.clone()),
        }
    }
}

/// Reads one form off the front of the tokens and hands back the term and
/// the tokens that follow it.
pub fn parse<'a>(tokens: &'a [String]) -> (r: Result<(Object, &'a [String]), Error>)
    ensures
        match r {
            Ok(p) => spec_parse(toks_view(tokens@)) == Ok::<(ObjectView, Seq<Seq<char>>), Seq<char>>(
                (p.0@, toks_view(p.1@)),
            ),
            Err(e) => spec_parse(toks_view(tokens@)) == Err::<(ObjectView, Seq<Seq<char>>), Seq<
                char,
            >>(e@),
        },
    decreases tokens@.len(), 0nat,
{
    let ghost tv = toks_view(tokens@);
    if tokens.len() == 0 {
        return Err(Error::EvalError(String::from_str("required at least one token")));
    }
    proof {
        assert(toks_view(tokens@.subrange(1, tokens@.len() as int)) =~= tv.drop_first());
    }
    if str_eq(tokens[0].as_str(), "(") {
        parse_list(&tokens[1..tokens.len()])
    } else if str_eq(tokens[0].as_str(), ")") {
        Err(Error::EvalError(String::from_str("unexpected right paren")))
    } else {
        let o = parse_single_object(&tokens[0]);
        Ok((o, &tokens[1..tokens.len()]))
    }
}

/// Reads list elements up to the closing parenthesis.
fn parse_list<'a>(tokens: &'a [String]) -> (r: Result<(Object, &'a [String]), Error>)
    ensures
        match r {
            Ok(p) => spec_parse_list(toks_view(tokens@)) == Ok::<
                (ObjectView, Seq<Seq<char>>),
                Seq<char>,
            >((p.0@, toks_view(p.1@))),
            Err(e) => spec_parse_list(toks_view(tokens@)) == Err::<
                (ObjectView, Seq<Seq<char>>),
                Seq<char>,
            >(e@),
        },
    decreases tokens@.len(), 1nat,
{
    let ghost tv = toks_view(tokens@);
    if tokens.len() == 0 {
        return Err(Error::EvalError(String::from_str("missing right paren")));
    }
    if str_eq(tokens[0].as_str(), ")") {
        let items: Vec<Object> = Vec::new();
        proof {
            assert(toks_view(tokens@.subrange(1, tokens@.len() as int)) =~= tv.drop_first());
            assert(vobjs_view(items) =~= Seq::<ObjectView>::empty());
            crate::ast::lemma_list_view(items);
        }
        return Ok((Object::List(items), &tokens[1..tokens.len()]));
    }
    let (o, rest) = match parse(tokens) {
        Ok(p) => p,
        Err(e) => {
            return Err(e);
        },
    };
    proof {
        lemma_parse_consumes(tv);
    }
    let (lst, rest2) = match parse_list(rest) {
        Ok(p) => p,
        Err(e) => {
            return Err(e);
        },
    };
    match lst {
        Object::List(items) => {
            let mut items = items;
            let ghost items0 = items;
            let ghost tail = vobjs_view(items);
            proof {
                crate::ast::lemma_list_view(items0);
                assert(obj_view(Object::List(items0)) == ObjectView::List(tail));
            }
            items.insert(0, o);
            proof {
                assert(vobjs_view(items) =~= seq![o@] + tail);
                crate::ast::lemma_list_view(items);
            }
            Ok((Object::List(items), rest2))
        },
        _ => {
            // A parsed list is always a list, so this arm cannot be reached.
            proof {
                lemma_parse_list_consumes(toks_view(rest@));
            }
            Err(Error::EvalError(String::from_str("missing right paren")))
        },
    }
}

} // verus!
