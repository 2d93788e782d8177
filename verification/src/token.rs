//! The tokenizer: source text to a flat sequence of tokens. `(` and `)` are
//! always tokens of their own; everything else between whitespace is one
//! atom token.

use vstd::prelude::*;

use crate::ast::strs_view;

verus! {

/// The whitespace that delimits tokens.
pub open spec fn is_ws(c: char) -> bool {
    c == ' ' || c == '\t' || c == '\n' || c == '\r' || c == '\u{b}' || c == '\u{c}'
}

pub open spec fn is_paren(c: char) -> bool {
    c == '(' || c == ')'
}

/// The length of the atom starting the text: the longest prefix free of
/// whitespace and parentheses.
pub open spec fn atom_len(s: Seq<char>) -> int
    decreases s.len(),
{
    if s.len() == 0 {
        0
    } else if is_ws(s[0]) || is_paren(s[0]) {
        0
    } else {
        1 + atom_len(s.drop_first())
    }
}

pub proof fn lemma_atom_len_bounds(s: Seq<char>)
    ensures
        0 <= atom_len(s) <= s.len(),
    decreases s.len(),
{
    if s.len() > 0 && !is_ws(s[0]) && !is_paren(s[0]) {
        lemma_atom_len_bounds(s.drop_first());
    }
}

/// A scan that saw only atom characters up to `k`, and a boundary at `k`,
/// has found the atom's length.
pub proof fn lemma_atom_len_scan(s: Seq<char>, k: int)
    requires
        0 <= k <= s.len(),
        forall|m: int| 0 <= m < k ==> !is_ws(#[trigger] s[m]) && !is_paren(s[m]),
        k == s.len() || is_ws(s[k]) || is_paren(s[k]),
    ensures
        atom_len(s) == k,
    decreases k,
{
    if k == 0 {
    } else {
        lemma_atom_len_scan(s.drop_first(), k - 1);
        assert(forall|m: int| 0 <= m < k - 1 ==> s.drop_first()[m] == s[m + 1]);
    }
}

/// The tokens of the text: whitespace is skipped, a parenthesis is a token
/// by itself, and an atom runs to the next boundary.
pub open spec fn spec_tokenize(s: Seq<char>) -> Seq<Seq<char>>
    decreases s.len(),
    via spec_tokenize_decreases
{
    if s.len() == 0 {
        Seq::empty()
    } else if is_ws(s[0]) {
        spec_tokenize(s.drop_first())
    } else if is_paren(s[0]) {
        seq![seq![s[0]]] + spec_tokenize(s.drop_first())
    } else {
        seq![s.take(atom_len(s))] + spec_tokenize(s.skip(atom_len(s)))
    }
}

#[via_fn]
proof fn spec_tokenize_decreases(s: Seq<char>) {
    if s.len() > 0 && !is_ws(s[0]) && !is_paren(s[0]) {
        lemma_atom_len_bounds(s.drop_first());
        assert(atom_len(s) == 1 + atom_len(s.drop_first()));
        lemma_atom_len_bounds(s);
    }
}

/// Text that holds a single atom — no whitespace, no parenthesis — is one
/// token.
pub proof fn lemma_tokenize_atom(s: Seq<char>)
    requires
        s.len() >= 1,
        forall|m: int| 0 <= m < s.len() ==> !is_ws(#[trigger] s[m]) && !is_paren(s[m]),
    ensures
        spec_tokenize(s) == seq![s],
{
    lemma_atom_len_scan(s, s.len() as int);
    assert(!is_ws(s[0]) && !is_paren(s[0]));
    assert(s.take(s.len() as int) =~= s);
    assert(s.skip(s.len() as int) =~= Seq::<char>::empty());
    assert(spec_tokenize(Seq::<char>::empty()) =~= Seq::<Seq<char>>::empty());
    assert(seq![s] + Seq::<Seq<char>>::empty() =~= seq![s]);
}

fn is_ws_exec(c: char) -> (r: bool)
    ensures
        r == is_ws(c),
{
    c == ' ' || c == '\t' || c == '\n' || c == '\r' || c == '\u{b}' || c == '\u{c}'
}

/// Splits source text into tokens.
pub fn tokenize(expr: &str) -> (r: Vec<String>)
    ensures
        strs_view(r) == spec_tokenize(expr@),
{
    let n = expr.unicode_len();
    let mut tokens: Vec<String> = Vec::new();
    let mut i: usize = 0;
    proof {
        assert(expr@.skip(0) =~= expr@);
        assert(strs_view(tokens) =~= Seq::<Seq<char>>::empty());
    }
    while i < n
        invariant
            n == expr@.len(),
            i <= n,
            spec_tokenize(expr@) == strs_view(tokens) + spec_tokenize(expr@.skip(i as int)),
        decreases n - i,
    {
        let ghost pending = expr@.skip(i as int);
        proof {
            assert(pending[0] == expr@[i as int]);
            assert(pending.drop_first() =~= expr@.skip(i as int + 1));
        }
        let c = expr.get_char(i);
        if is_ws_exec(c) {
            i += 1;
        } else if c == '(' || c == ')' {
            let tok = expr.substring_char(i, i + 1).to_owned();
            let ghost old_tokens = tokens;
            tokens.push(tok);
            proof {
                assert(tok@ =~= seq![pending[0]]);
                assert(strs_view(tokens) =~= strs_view(old_tokens).push(tok@));
                assert(strs_view(old_tokens) + (seq![seq![pending[0]]] + spec_tokenize(
                    pending.drop_first(),
                )) =~= strs_view(tokens) + spec_tokenize(pending.drop_first()));
            }
            i += 1;
        } else {
            let mut j: usize = i + 1;
            let mut stopped = false;
            while j < n && !stopped
                invariant
                    n == expr@.len(),
                    i < j <= n,
                    pending == expr@.skip(i as int),
                    forall|m: int|
                        i <= m < j ==> !is_ws(#[trigger] expr@[m]) && !is_paren(expr@[m]),
                    stopped ==> j < n && (is_ws(expr@[j as int]) || is_paren(expr@[j as int])),
                decreases n - j + (if stopped {
                    0int
                } else {
                    1int
                }),
            {
                let cj = expr.get_char(j);
                if is_ws_exec(cj) || cj == '(' || cj == ')' {
                    stopped = true;
                } else {
                    j += 1;
                }
            }
            proof {
                assert(forall|m: int|
                    0 <= m < j - i ==> pending[m] == #[trigger] expr@[m + i as int]);
                lemma_atom_len_scan(pending, j - i);
                assert(pending.take(j - i) =~= expr@.subrange(i as int, j as int));
                assert(pending.skip(j - i) =~= expr@.skip(j as int));
            }
            let tok = expr.substring_char(i, j).to_owned();
            let ghost old_tokens = tokens;
            tokens.push(tok);
            proof {
                assert(strs_view(tokens) =~= strs_view(old_tokens).push(tok@));
                assert(strs_view(old_tokens) + (seq![pending.take(atom_len(pending))]
                    + spec_tokenize(pending.skip(atom_len(pending)))) =~= strs_view(tokens)
                    + spec_tokenize(pending.skip(atom_len(pending))));
            }
            i = j;
        }
    }
    proof {
        assert(expr@.skip(n as int) =~= Seq::<char>::empty());
        assert(strs_view(tokens) + Seq::<Seq<char>>::empty() =~= strs_view(tokens));
    }
    tokens
}

} // verus!
