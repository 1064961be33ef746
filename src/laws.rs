use vstd::prelude::*;
use crate::value::{Primitive, ExprView, TokenView, ValView, ErrView, quote_spec, quote_seq, equals_spec, equals_seq};
use crate::env::{EnvView, pointer_shaped, lookup_spec, define_spec, assign_spec, owner};
use crate::eval::{prim_spec, eval_spec, eval_if, eval_set, eval_cond, apply_spec, truthy, is_kw};
use crate::printer::{show, show_top, show_items};

verus! {

/// The identifier `w` as an expression.
pub open spec fn word(w: Seq<char>) -> ExprView {
    ExprView::Atom(TokenView::Ident(w))
}

/// `(quote x)` evaluates to the data that `x` denotes, unevaluated, and
/// changes nothing.
pub proof fn law_quote(x: ExprView, st: EnvView, f: int, fuel: nat)
    requires
        fuel > 0,
    ensures
        eval_spec(ExprView::List(seq![word("quote"@), x]), st, f, fuel) == (quote_spec(x), st),
{
}

/// Quoting a literal gives the literal's value; quoting a list of literals
/// gives the list of their values.
pub proof fn law_quote_literals(b: bool, n: int, s: Seq<char>)
    ensures
        quote_spec(ExprView::Atom(TokenView::Bool(b))) == Ok::<ValView, ErrView>(ValView::Bool(b)),
        quote_spec(ExprView::Atom(TokenView::Num(n))) == Ok::<ValView, ErrView>(ValView::Num(n)),
        quote_spec(ExprView::Atom(TokenView::Str(s))) == Ok::<ValView, ErrView>(ValView::Str(s)),
        quote_spec(
            ExprView::List(
                seq![ExprView::Atom(TokenView::Num(n)), ExprView::Atom(TokenView::Str(s))],
            ),
        ) == Ok::<ValView, ErrView>(ValView::List(seq![ValView::Num(n), ValView::Str(s)])),
{
    let es = seq![ExprView::Atom(TokenView::Num(n)), ExprView::Atom(TokenView::Str(s))];
    assert(quote_spec(es[0]) == Ok::<ValView, ErrView>(ValView::Num(n)));
    assert(quote_spec(es[1]) == Ok::<ValView, ErrView>(ValView::Str(s)));
    assert(quote_seq(es, 0) == Ok::<Seq<ValView>, ErrView>(Seq::empty()));
    assert(quote_seq(es, 1) == Ok::<Seq<ValView>, ErrView>(Seq::<ValView>::empty().push(ValView::Num(n))));
    assert(quote_seq(es, 2) == Ok::<Seq<ValView>, ErrView>(Seq::<ValView>::empty().push(ValView::Num(n)).push(ValView::Str(s))));
    assert(Seq::<ValView>::empty().push(ValView::Num(n)).push(ValView::Str(s)) =~= seq![ValView::Num(n), ValView::Str(s)]);
}

/// The expression holds no syntax token (`(`, `)` or `'`) at any depth.
pub open spec fn token_free(e: ExprView) -> bool
    decreases e, 0nat,
{
    match e {
        ExprView::Atom(t) => !(t is OpenParen || t is CloseParen || t is QuoteTick),
        ExprView::List(es) => token_free_items(es, es.len()),
    }
}

/// The first `n` items of `es` are token free.
pub open spec fn token_free_items(es: Seq<ExprView>, n: nat) -> bool
    decreases es, n,
{
    if n == 0 || n > es.len() {
        true
    } else {
        token_free_items(es, (n - 1) as nat) && token_free(es[n - 1])
    }
}

/// Quoting any tree free of syntax tokens succeeds and keeps its shape:
/// each literal becomes its value, an identifier a symbol of the same text,
/// and a list a list of the same length whose items are the quoted items,
/// in order. Nothing is evaluated.
pub proof fn law_quote_structural(e: ExprView)
    requires
        token_free(e),
    ensures
        quote_spec(e) is Ok,
        match e {
            ExprView::Atom(TokenView::Bool(b)) => quote_spec(e)->Ok_0 == ValView::Bool(b),
            ExprView::Atom(TokenView::Num(n)) => quote_spec(e)->Ok_0 == ValView::Num(n),
            ExprView::Atom(TokenView::Str(s)) => quote_spec(e)->Ok_0 == ValView::Str(s),
            ExprView::Atom(TokenView::Ident(x)) => quote_spec(e)->Ok_0 == ValView::Sym(x),
            ExprView::List(es) => quote_spec(e)->Ok_0 is List && quote_spec(e)->Ok_0->List_0.len()
                == es.len() && forall|i: int|
                0 <= i < es.len() ==> quote_spec(#[trigger] es[i]) == Ok::<ValView, ErrView>(
                    quote_spec(e)->Ok_0->List_0[i],
                ),
            _ => true,
        },
    decreases e, 0nat,
{
    match e {
        ExprView::Atom(_) => {},
        ExprView::List(es) => {
            assert(decreases_to!(e => e->List_0));
            lemma_quote_items(es, es.len());
        },
    }
}

proof fn lemma_quote_items(es: Seq<ExprView>, n: nat)
    requires
        n <= es.len(),
        token_free_items(es, n),
    ensures
        quote_seq(es, n) is Ok,
        quote_seq(es, n)->Ok_0.len() == n,
        forall|i: int|
            0 <= i < n ==> quote_spec(#[trigger] es[i]) == Ok::<ValView, ErrView>(
                quote_seq(es, n)->Ok_0[i],
            ),
    decreases es, n,
{
    if n > 0 {
        lemma_quote_items(es, (n - 1) as nat);
        assert(decreases_to!(es => es[n - 1]));
        law_quote_structural(es[n - 1]);
    }
}

/// An `if` whose test evaluates to a true value (anything but `#false`)
/// evaluates to its consequent, in the state the test left.
pub proof fn law_if_truthy(t: ExprView, a: ExprView, b: ExprView, st: EnvView, f: int, fuel: nat)
    requires
        eval_spec(t, st, f, fuel).0 is Ok,
        truthy(eval_spec(t, st, f, fuel).0->Ok_0),
    ensures
        eval_spec(ExprView::List(seq![word("if"@), t, a, b]), st, f, fuel + 1) == eval_spec(
            a,
            eval_spec(t, st, f, fuel).1,
            f,
            fuel,
        ),
{
    reveal_strlit("if");
    reveal_strlit("quote");
    let es = seq![word("if"@), t, a, b];
    assert("if"@.len() != "quote"@.len());
    assert(!is_kw(es[0], "quote"@));
    assert(eval_spec(ExprView::List(es), st, f, fuel + 1) == eval_if(es, st, f, fuel));
}

/// `(if #true a b)` evaluates as `a`; `(if #false a b)` evaluates as `b`.
pub proof fn law_if_literal(a: ExprView, b: ExprView, st: EnvView, f: int, fuel: nat)
    requires
        fuel > 0,
    ensures
        eval_spec(
            ExprView::List(seq![word("if"@), ExprView::Atom(TokenView::Bool(true)), a, b]),
            st,
            f,
            fuel + 1,
        ) == eval_spec(a, st, f, fuel),
        eval_spec(
            ExprView::List(seq![word("if"@), ExprView::Atom(TokenView::Bool(false)), a, b]),
            st,
            f,
            fuel + 1,
        ) == eval_spec(b, st, f, fuel),
{
    reveal_strlit("if");
    reveal_strlit("quote");
    let t = ExprView::Atom(TokenView::Bool(true));
    let e = ExprView::Atom(TokenView::Bool(false));
    assert(eval_spec(t, st, f, fuel) == (Ok::<ValView, ErrView>(ValView::Bool(true)), st));
    law_if_truthy(t, a, b, st, f, fuel);
    let es = seq![word("if"@), e, a, b];
    assert("if"@.len() != "quote"@.len());
    assert(!is_kw(es[0], "quote"@));
    assert(eval_spec(e, st, f, fuel) == (Ok::<ValView, ErrView>(ValView::Bool(false)), st));
    assert(eval_spec(ExprView::List(es), st, f, fuel + 1) == eval_if(es, st, f, fuel));
}

/// Defining a name twice in one frame is no error: the frame then holds a
/// single binding of the name, to the second value, which is the one seen;
/// its other bindings, its parent and every other frame are as they were.
pub proof fn law_define_twice(st: EnvView, f: int, x: Seq<char>, v1: ValView, v2: ValView)
    requires
        st.has_frame(f),
    ensures
        ({
            let st2 = define_spec(define_spec(st, f, x, v1), f, x, v2);
            &&& lookup_spec(st2, f, x) == Some(v2)
            &&& st2.frames.len() == st.frames.len()
            &&& st2.frames[f].vars == st.frames[f].vars.insert(x, v2)
            &&& st2.frames[f].parent == st.frames[f].parent
            &&& forall|g: int| 0 <= g < st.frames.len() && g != f ==> #[trigger] st2.frames[g] == st.frames[g]
            &&& st2.boxes == st.boxes
        }),
{
    let st2 = define_spec(define_spec(st, f, x, v1), f, x, v2);
    assert(st2.frames[f].vars =~= st.frames[f].vars.insert(x, v2));
}

/// Assigning a name that no frame of the chain binds is an error and creates
/// no binding: the name stays unbound.
pub proof fn law_set_unbound(st: EnvView, f: int, x: Seq<char>, v: ValView)
    requires
        lookup_spec(st, f, x) is None,
    ensures
        assign_spec(st, f, x, v) == Err::<EnvView, ErrView>(ErrView::UnboundIdentifier(x)),
{
}

/// `(set! x e)` where no frame of the chain binds `x`: once `e` has been
/// evaluated, the result is an unbound-identifier error, every frame is as
/// `e` left it, and `x` is still unbound.
pub proof fn law_set_unbound_form(x: Seq<char>, e: ExprView, st: EnvView, f: int, fuel: nat)
    requires
        eval_spec(e, st, f, fuel).0 is Ok,
        lookup_spec(eval_spec(e, st, f, fuel).1, f, x) is None,
    ensures
        ({
            let st1 = eval_spec(e, st, f, fuel).1;
            &&& eval_spec(ExprView::List(seq![word("set!"@), word(x), e]), st, f, fuel + 1) == (
                Err::<ValView, ErrView>(ErrView::UnboundIdentifier(x)),
                st1,
            )
            &&& lookup_spec(st1, f, x) is None
        }),
{
    reveal_strlit("set!");
    reveal_strlit("quote");
    reveal_strlit("if");
    reveal_strlit("define");
    reveal_strlit("lambda");
    let es = seq![word("set!"@), word(x), e];
    assert("set!"@.len() != "quote"@.len());
    assert("set!"@.len() != "if"@.len());
    assert("set!"@ != "define"@);
    assert("set!"@ != "lambda"@);
    assert(!is_kw(es[0], "quote"@));
    assert(!is_kw(es[0], "if"@));
    assert(!is_kw(es[0], "define"@));
    assert(!is_kw(es[0], "lambda"@));
    assert(is_kw(es[0], "set!"@));
    assert(eval_spec(ExprView::List(es), st, f, fuel + 1) == eval_set(es, st, f, fuel));
}

/// Calling a closure with a number of arguments other than its number of
/// parameters is an arity error and leaves the arena as it was: no frame, no
/// binding is made.
pub proof fn law_closure_arity(
    ps: Seq<Seq<char>>,
    body: ExprView,
    parent: nat,
    args: Seq<ValView>,
    st: EnvView,
    k: nat,
)
    requires
        ps.len() != args.len(),
    ensures
        apply_spec(ValView::Closure(ps, body, parent), args, st, k) == (
            Err::<ValView, ErrView>(ErrView::ArityMismatch),
            st,
        ),
{
}

/// A list printed as a result gets a leading quote mark; a list nested in it
/// is printed without one.
pub proof fn law_print_nested(inner: Seq<ValView>, last: ValView)
    ensures
        show_top(ValView::List(seq![ValView::List(inner), last])) == seq!['\''] + seq!['(']
            + show(ValView::List(inner)) + seq![' '] + show(last) + seq![')'],
{
    let vs = seq![ValView::List(inner), last];
    reveal_with_fuel(show_items, 3);
    assert(show_items(vs, 2) == show(vs[0]) + seq![' '] + show(vs[1]));
    assert(seq!['\''] + (seq!['('] + show_items(vs, 2) + seq![')']) =~= seq!['\''] + seq!['(']
        + show(ValView::List(inner)) + seq![' '] + show(last) + seq![')']);
}

proof fn lemma_equals_seq_all(xs: Seq<ValView>, ys: Seq<ValView>, n: nat)
    requires
        n <= xs.len(),
        n <= ys.len(),
    ensures
        equals_seq(xs, ys, n) <==> forall|i: int| 0 <= i < n ==> equals_spec(#[trigger] xs[i], ys[i]),
    decreases n,
{
    if n > 0 {
        lemma_equals_seq_all(xs, ys, (n - 1) as nat);
    }
}

/// Equality is structural: two lists are equal exactly when they have the
/// same length and equal items at each position; a number never equals a
/// string, nor a boolean a number.
pub proof fn law_equals_structural(xs: Seq<ValView>, ys: Seq<ValView>, n: int, s: Seq<char>, b: bool)
    ensures
        equals_spec(ValView::List(xs), ValView::List(ys)) <==> (xs.len() == ys.len() && forall|i: int|
            0 <= i < xs.len() ==> equals_spec(#[trigger] xs[i], ys[i])),
        !equals_spec(ValView::Num(n), ValView::Str(s)),
        !equals_spec(ValView::Bool(b), ValView::Num(n)),
        equals_spec(ValView::Num(n), ValView::Num(n)),
        equals_spec(ValView::Str(s), ValView::Str(s)),
{
    if xs.len() == ys.len() {
        lemma_equals_seq_all(xs, ys, xs.len());
    }
}

/// `memory-address` takes any single value and returns a string in the
/// host's pointer notation, changing nothing.
pub proof fn law_memory_address(v: ValView, st: EnvView)
    requires
        pointer_shaped(st.address),
    ensures
        prim_spec(Primitive::MemoryAddress, seq![v], st).1 == st,
        prim_spec(Primitive::MemoryAddress, seq![v], st).0 is Ok,
        prim_spec(Primitive::MemoryAddress, seq![v], st).0->Ok_0 is Str,
        pointer_shaped(prim_spec(Primitive::MemoryAddress, seq![v], st).0->Ok_0->Str_0),
{
}

/// The clause `(#false body)`.
pub open spec fn false_clause(c: ExprView) -> bool {
    c is List && c->List_0.len() == 2 && c->List_0[0] == ExprView::Atom(TokenView::Bool(false))
}

/// A `cond` none of whose clauses matches, and which has no `else`,
/// evaluates to void and changes nothing.
pub proof fn law_cond_no_match(es: Seq<ExprView>, i: nat, st: EnvView, f: int, k: nat)
    requires
        k > 0,
        forall|j: int| i <= j < es.len() ==> false_clause(#[trigger] es[j]),
    ensures
        eval_cond(es, i, st, f, k) == (Ok::<ValView, ErrView>(ValView::Void), st),
    decreases es.len() - i,
{
    if i < es.len() {
        let c = es[i as int]->List_0;
        assert(false_clause(es[i as int]));
        assert(!is_kw(c[0], "else"@));
        assert(eval_spec(c[0], st, f, k) == (Ok::<ValView, ErrView>(ValView::Bool(false)), st));
        law_cond_no_match(es, i + 1, st, f, k);
        assert(eval_cond(es, i, st, f, k) == eval_cond(es, i + 1, st, f, k));
    }
}

} // verus!
