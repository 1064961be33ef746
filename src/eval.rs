use vstd::prelude::*;
use vstd::string::*;
use std::cmp::Ordering;
use crate::value::{
    Expr, ExprView, Token, TokenView, RucketVal, RucketErr, RucketLambda, ValView, ErrView,
    Primitive, view_exprs, lemma_view_exprs, quote_spec, equals_spec, compare_spec, result_view,
    names_view, copy_expr, copy_val, equals, compare,
};
use crate::env::{Env, EnvView, lookup_spec, define_spec, assign_spec, child_spec};

verus! {

/// What an evaluation returns, and the arena after it.
pub type Outcome = (Result<ValView, ErrView>, EnvView);

/// Views of all expressions of a vector.
pub open spec fn vexprs(items: Vec<Expr>) -> Seq<ExprView> {
    view_exprs(items@, items@.len() as nat)
}

/// Views of all values of a vector.
pub open spec fn vvals(items: Vec<RucketVal>) -> Seq<ValView> {
    Seq::new(items@.len(), |i: int| items@[i]@)
}

pub open spec fn ident_of(e: ExprView) -> Option<Seq<char>> {
    match e {
        ExprView::Atom(TokenView::Ident(s)) => Some(s),
        _ => None,
    }
}

/// The expression is the identifier `w`.
pub open spec fn is_kw(e: ExprView, w: Seq<char>) -> bool {
    ident_of(e) == Some(w)
}

/// Every value but `#false` counts as true.
pub open spec fn truthy(v: ValView) -> bool {
    v != ValView::Bool(false)
}

/// The parameter names of a `lambda`, when every item is an identifier.
pub open spec fn param_names(ps: Seq<ExprView>) -> Option<Seq<Seq<char>>> {
    if forall|i: int| 0 <= i < ps.len() ==> (#[trigger] ident_of(ps[i])) is Some {
        Some(Seq::new(ps.len(), |i: int| ident_of(ps[i])->Some_0))
    } else {
        None
    }
}

/// Each binding of a `let` is a two-item list headed by an identifier.
pub open spec fn let_ok(bs: Seq<ExprView>) -> bool {
    forall|i: int|
        0 <= i < bs.len() ==> (#[trigger] bs[i]) is List && bs[i]->List_0.len() == 2 && ident_of(
            bs[i]->List_0[0],
        ) is Some
}

pub open spec fn let_names(bs: Seq<ExprView>) -> Seq<Seq<char>> {
    Seq::new(bs.len(), |i: int| ident_of(bs[i]->List_0[0])->Some_0)
}

pub open spec fn let_inits(bs: Seq<ExprView>) -> Seq<ExprView> {
    Seq::new(bs.len(), |i: int| bs[i]->List_0[1])
}

pub open spec fn let_rank(es: Seq<ExprView>) -> nat {
    if es.len() == 3 && es[1] is List {
        es[1]->List_0.len() + 2
    } else {
        1
    }
}

/// Value of an atom seen from frame `f`.
pub open spec fn eval_atom(t: TokenView, st: EnvView, f: int) -> Result<ValView, ErrView> {
    match t {
        TokenView::OpenParen => Err(ErrView::UnexpectedToken('(')),
        TokenView::CloseParen => Err(ErrView::UnexpectedToken(')')),
        TokenView::QuoteTick => Err(ErrView::UnexpectedToken('\'')),
        TokenView::Bool(b) => Ok(ValView::Bool(b)),
        TokenView::Num(n) => Ok(ValView::Num(n)),
        TokenView::Str(s) => Ok(ValView::Str(s)),
        TokenView::Ident(x) => match lookup_spec(st, f, x) {
            Some(v) => Ok(v),
            None => Err(ErrView::UnboundIdentifier(x)),
        },
    }
}

/// Evaluation of `e` in frame `f` of `st`, within a depth budget of `fuel`:
/// each nested evaluation spends one unit, and an exhausted budget is an
/// error. Literals stand for themselves, identifiers are looked up, lists
/// headed by a keyword are special forms, other lists are applications.
pub open spec fn eval_spec(e: ExprView, st: EnvView, f: int, fuel: nat) -> Outcome
    decreases fuel, 0nat,
{
    if fuel == 0 {
        (Err(ErrView::Generic), st)
    } else {
        let k = (fuel - 1) as nat;
        match e {
            ExprView::Atom(t) => (eval_atom(t, st, f), st),
            ExprView::List(es) => if es.len() == 0 {
                (Err(ErrView::TypeMismatch), st)
            } else if is_kw(es[0], "quote"@) {
                if es.len() == 2 {
                    (quote_spec(es[1]), st)
                } else {
                    (Err(ErrView::ArityMismatch), st)
                }
            } else if is_kw(es[0], "if"@) {
                eval_if(es, st, f, k)
            } else if is_kw(es[0], "define"@) {
                eval_define(es, st, f, k)
            } else if is_kw(es[0], "lambda"@) {
                (eval_lambda(es, f), st)
            } else if is_kw(es[0], "set!"@) {
                eval_set(es, st, f, k)
            } else if is_kw(es[0], "begin"@) {
                eval_begin(es, 1, st, f, k)
            } else if is_kw(es[0], "let"@) {
                eval_let(es, st, f, k)
            } else if is_kw(es[0], "and"@) {
                eval_and(es, 1, st, f, k)
            } else if is_kw(es[0], "or"@) {
                eval_or(es, 1, st, f, k)
            } else if is_kw(es[0], "cond"@) {
                eval_cond(es, 1, st, f, k)
            } else {
                eval_app(es, st, f, k)
            },
        }
    }
}

/// `(if test then else)`.
pub open spec fn eval_if(es: Seq<ExprView>, st: EnvView, f: int, k: nat) -> Outcome
    decreases k, 1nat,
{
    if es.len() != 4 {
        (Err(ErrView::ArityMismatch), st)
    } else {
        let (r, st1) = eval_spec(es[1], st, f, k);
        match r {
            Err(x) => (Err(x), st1),
            Ok(v) => if truthy(v) {
                eval_spec(es[2], st1, f, k)
            } else {
                eval_spec(es[3], st1, f, k)
            },
        }
    }
}

/// `(define name expr)`: binds in the current frame, returns void.
pub open spec fn eval_define(es: Seq<ExprView>, st: EnvView, f: int, k: nat) -> Outcome
    decreases k, 1nat,
{
    if es.len() != 3 {
        (Err(ErrView::ArityMismatch), st)
    } else if ident_of(es[1]) is None {
        (Err(ErrView::TypeMismatch), st)
    } else {
        let (r, st1) = eval_spec(es[2], st, f, k);
        match r {
            Err(x) => (Err(x), st1),
            Ok(v) => (Ok(ValView::Void), define_spec(st1, f, ident_of(es[1])->Some_0, v)),
        }
    }
}

/// `(lambda (params) body)`: a closure over the current frame.
pub open spec fn eval_lambda(es: Seq<ExprView>, f: int) -> Result<ValView, ErrView> {
    if es.len() != 3 {
        Err(ErrView::ArityMismatch)
    } else if !(es[1] is List) || param_names(es[1]->List_0) is None {
        Err(ErrView::TypeMismatch)
    } else {
        Ok(ValView::Closure(param_names(es[1]->List_0)->Some_0, es[2], f as nat))
    }
}

/// `(set! name expr)`: replaces the nearest binding, returns void.
pub open spec fn eval_set(es: Seq<ExprView>, st: EnvView, f: int, k: nat) -> Outcome
    decreases k, 1nat,
{
    if es.len() != 3 {
        (Err(ErrView::ArityMismatch), st)
    } else if ident_of(es[1]) is None {
        (Err(ErrView::TypeMismatch), st)
    } else {
        let (r, st1) = eval_spec(es[2], st, f, k);
        match r {
            Err(x) => (Err(x), st1),
            Ok(v) => match assign_spec(st1, f, ident_of(es[1])->Some_0, v) {
                Ok(st2) => (Ok(ValView::Void), st2),
                Err(x) => (Err(x), st1),
            },
        }
    }
}

/// The items of `es` from `i` on, in order; the last value is the result,
/// void when there is none.
pub open spec fn eval_begin(es: Seq<ExprView>, i: nat, st: EnvView, f: int, k: nat) -> Outcome
    decreases k, es.len() + 1 - i,
{
    if i >= es.len() {
        (Ok(ValView::Void), st)
    } else if i + 1 == es.len() {
        eval_spec(es[i as int], st, f, k)
    } else {
        let (r, st1) = eval_spec(es[i as int], st, f, k);
        match r {
            Err(x) => (Err(x), st1),
            Ok(_) => eval_begin(es, i + 1, st1, f, k),
        }
    }
}

/// `(let ((name init) ...) body)`: the initializers in the current frame, the
/// body in one new frame binding them all.
pub open spec fn eval_let(es: Seq<ExprView>, st: EnvView, f: int, k: nat) -> Outcome
    decreases k, let_rank(es),
{
    if es.len() != 3 {
        (Err(ErrView::ArityMismatch), st)
    } else if !(es[1] is List) || !let_ok(es[1]->List_0) {
        (Err(ErrView::TypeMismatch), st)
    } else {
        let bs = es[1]->List_0;
        let (r, st1) = eval_seq(let_inits(bs), 0, st, f, k);
        match r {
            Err(x) => (Err(x), st1),
            Ok(vals) => eval_spec(
                es[2],
                child_spec(st1, f, let_names(bs), vals),
                st1.frames.len() as int,
                k,
            ),
        }
    }
}

/// `(and ...)`: the first false value, else the last value, `#true` when
/// empty.
pub open spec fn eval_and(es: Seq<ExprView>, i: nat, st: EnvView, f: int, k: nat) -> Outcome
    decreases k, es.len() + 1 - i,
{
    if i >= es.len() {
        (Ok(ValView::Bool(true)), st)
    } else {
        let (r, st1) = eval_spec(es[i as int], st, f, k);
        match r {
            Err(x) => (Err(x), st1),
            Ok(v) => if !truthy(v) || i + 1 == es.len() {
                (Ok(v), st1)
            } else {
                eval_and(es, i + 1, st1, f, k)
            },
        }
    }
}

/// `(or ...)`: the first true value, else the last value, `#false` when
/// empty.
pub open spec fn eval_or(es: Seq<ExprView>, i: nat, st: EnvView, f: int, k: nat) -> Outcome
    decreases k, es.len() + 1 - i,
{
    if i >= es.len() {
        (Ok(ValView::Bool(false)), st)
    } else {
        let (r, st1) = eval_spec(es[i as int], st, f, k);
        match r {
            Err(x) => (Err(x), st1),
            Ok(v) => if truthy(v) || i + 1 == es.len() {
                (Ok(v), st1)
            } else {
                eval_or(es, i + 1, st1, f, k)
            },
        }
    }
}

/// `(cond (test body) ... (else body))`: the body of the first clause whose
/// test is true (an `else` test always is); void when none is.
pub open spec fn eval_cond(es: Seq<ExprView>, i: nat, st: EnvView, f: int, k: nat) -> Outcome
    decreases k, es.len() + 1 - i,
{
    if i >= es.len() {
        (Ok(ValView::Void), st)
    } else if !(es[i as int] is List) || es[i as int]->List_0.len() != 2 {
        (Err(ErrView::TypeMismatch), st)
    } else {
        let c = es[i as int]->List_0;
        if is_kw(c[0], "else"@) {
            eval_spec(c[1], st, f, k)
        } else {
            let (r, st1) = eval_spec(c[0], st, f, k);
            match r {
                Err(x) => (Err(x), st1),
                Ok(v) => if truthy(v) {
                    eval_spec(c[1], st1, f, k)
                } else {
                    eval_cond(es, i + 1, st1, f, k)
                },
            }
        }
    }
}

/// Values of the items of `es` from `i` on, evaluated left to right; the
/// first error stops the evaluation.
pub open spec fn eval_seq(es: Seq<ExprView>, i: nat, st: EnvView, f: int, k: nat) -> (Result<
    Seq<ValView>,
    ErrView,
>, EnvView)
    decreases k, es.len() + 1 - i,
{
    if i >= es.len() {
        (Ok(Seq::empty()), st)
    } else {
        let (r, st1) = eval_spec(es[i as int], st, f, k);
        match r {
            Err(x) => (Err(x), st1),
            Ok(v) => {
                let (rs, st2) = eval_seq(es, i + 1, st1, f, k);
                match rs {
                    Ok(vs) => (Ok(seq![v] + vs), st2),
                    Err(x) => (Err(x), st2),
                }
            },
        }
    }
}

pub open spec fn is_callable(v: ValView) -> bool {
    v is Prim || v is Closure
}

/// An application: the head must evaluate to a function; then the arguments
/// are evaluated left to right and the function is applied.
pub open spec fn eval_app(es: Seq<ExprView>, st: EnvView, f: int, k: nat) -> Outcome
    decreases k, es.len() + 2,
{
    let (r, st1) = eval_spec(es[0], st, f, k);
    match r {
        Err(x) => (Err(x), st1),
        Ok(fv) => if !is_callable(fv) {
            (Err(ErrView::TypeMismatch), st1)
        } else {
            let (ra, st2) = eval_seq(es, 1, st1, f, k);
            match ra {
                Err(x) => (Err(x), st2),
                Ok(args) => apply_spec(fv, args, st2, k),
            }
        },
    }
}

/// Applying a function to argument values. A closure needs exactly as many
/// arguments as parameters; its body is evaluated in a new child frame of
/// the frame it was created in.
pub open spec fn apply_spec(fv: ValView, args: Seq<ValView>, st: EnvView, k: nat) -> Outcome
    decreases k, 1nat,
{
    match fv {
        ValView::Prim(p) => prim_spec(p, args, st),
        ValView::Closure(ps, body, parent) => if ps.len() != args.len() {
            (Err(ErrView::ArityMismatch), st)
        } else if parent >= st.frames.len() {
            (Err(ErrView::Generic), st)
        } else {
            eval_spec(body, child_spec(st, parent as int, ps, args), st.frames.len() as int, k)
        },
        _ => (Err(ErrView::TypeMismatch), st),
    }
}

pub open spec fn fits_i64(n: int) -> bool {
    i64::MIN <= n <= i64::MAX
}

pub open spec fn arith(p: Primitive, x: int, y: int) -> int {
    match p {
        Primitive::Add => x + y,
        Primitive::Sub => x - y,
        _ => x * y,
    }
}

/// What a primitive does with its argument values.
pub open spec fn prim_spec(p: Primitive, args: Seq<ValView>, st: EnvView) -> Outcome {
    match p {
        Primitive::Add | Primitive::Sub | Primitive::Mul => if args.len() != 2 {
            (Err(ErrView::ArityMismatch), st)
        } else {
            match (args[0], args[1]) {
                (ValView::Num(x), ValView::Num(y)) => if fits_i64(arith(p, x, y)) {
                    (Ok(ValView::Num(arith(p, x, y))), st)
                } else {
                    (Err(ErrView::Generic), st)
                },
                _ => (Err(ErrView::TypeMismatch), st),
            }
        },
        Primitive::NumEq => if args.len() != 2 {
            (Err(ErrView::ArityMismatch), st)
        } else {
            match (args[0], args[1]) {
                (ValView::Num(x), ValView::Num(y)) => (Ok(ValView::Bool(x == y)), st),
                _ => (Err(ErrView::TypeMismatch), st),
            }
        },
        Primitive::Less => if args.len() != 2 {
            (Err(ErrView::ArityMismatch), st)
        } else {
            match compare_spec(args[0], args[1]) {
                Ok(o) => (Ok(ValView::Bool(o == Ordering::Less)), st),
                Err(x) => (Err(x), st),
            }
        },
        Primitive::Equal => if args.len() != 2 {
            (Err(ErrView::ArityMismatch), st)
        } else {
            (Ok(ValView::Bool(equals_spec(args[0], args[1]))), st)
        },
        Primitive::AssertTruthy => if args.len() != 1 {
            (Err(ErrView::ArityMismatch), st)
        } else if args[0] == ValView::Bool(true) {
            (Ok(ValView::Void), st)
        } else {
            (Err(ErrView::Generic), st)
        },
        Primitive::NewBox => if args.len() != 1 {
            (Err(ErrView::ArityMismatch), st)
        } else {
            (
                Ok(ValView::Boxed(st.boxes.len())),
                EnvView { frames: st.frames, boxes: st.boxes.push(args[0]), address: st.address },
            )
        },
        Primitive::Unbox => if args.len() != 1 {
            (Err(ErrView::ArityMismatch), st)
        } else {
            match args[0] {
                ValView::Boxed(i) => if i < st.boxes.len() {
                    (Ok(st.boxes[i as int]), st)
                } else {
                    (Err(ErrView::Generic), st)
                },
                _ => (Err(ErrView::TypeMismatch), st),
            }
        },
        Primitive::SetBox => if args.len() != 2 {
            (Err(ErrView::ArityMismatch), st)
        } else {
            match args[0] {
                ValView::Boxed(i) => if i < st.boxes.len() {
                    (
                        Ok(st.boxes[i as int]),
                        EnvView {
                            frames: st.frames,
                            boxes: st.boxes.update(i as int, args[1]),
                            address: st.address,
                        },
                    )
                } else {
                    (Err(ErrView::Generic), st)
                },
                _ => (Err(ErrView::TypeMismatch), st),
            }
        },
        Primitive::ActiveObjects => if args.len() != 0 {
            (Err(ErrView::ArityMismatch), st)
        } else if fits_i64((st.frames.len() + st.boxes.len()) as int) {
            (Ok(ValView::Num((st.frames.len() + st.boxes.len()) as int)), st)
        } else {
            (Err(ErrView::Generic), st)
        },
        Primitive::MemoryAddress => if args.len() != 1 {
            (Err(ErrView::ArityMismatch), st)
        } else {
            (Ok(ValView::Str(st.address)), st)
        },
        Primitive::InspectBytecode => if args.len() != 1 {
            (Err(ErrView::ArityMismatch), st)
        } else {
            match args[0] {
                ValView::Closure(_, _, _) => (Ok(ValView::Void), st),
                _ => (Err(ErrView::TypeMismatch), st),
            }
        },
    }
}


/// Depth budget of `evaluate`: how deeply evaluations may nest before the
/// evaluation fails instead of exhausting the host stack.
pub const MAX_DEPTH: usize = 400;

/// The string is the word `w`.
fn is_word(s: &String, w: &str) -> (r: bool)
    ensures
        r == (s@ == w@),
{
    let a = s.as_str();
    let n = a.unicode_len();
    if n != w.unicode_len() {
        return false;
    }
    let mut i: usize = 0;
    while i < n
        invariant
            n == a@.len(),
            n == w@.len(),
            a@ == s@,
            i <= n,
            forall|j: int| 0 <= j < i ==> a@[j] == w@[j],
        decreases n - i,
    {
        if a.get_char(i) != w.get_char(i) {
            return false;
        }
        i = i + 1;
    }
    assert(a@ =~= w@);
    true
}

/// The expression is the identifier `w`.
fn head_is(e: &Expr, w: &str) -> (r: bool)
    ensures
        r == is_kw(e@, w@),
{
    match e {
        Expr::Atom(Token::Identifier(s)) => is_word(s, w),
        _ => false,
    }
}

fn is_false(v: &RucketVal) -> (r: bool)
    ensures
        r == !truthy(v@),
{
    match v {
        RucketVal::BoolV(b) => !*b,
        _ => false,
    }
}

fn is_callable_val(v: &RucketVal) -> (r: bool)
    ensures
        r == is_callable(v@),
{
    match v {
        RucketVal::FuncV(_) => true,
        RucketVal::LambdaV(_) => true,
        _ => false,
    }
}

fn run_atom(t: &Token, env: &Env, f: usize) -> (r: Result<RucketVal, RucketErr>)
    requires
        env.wf(),
        f < env@.frames.len(),
    ensures
        result_view(r) == eval_atom(t@, env@, f as int),
{
    match t {
        Token::OpenParen => Err(RucketErr::UnexpectedToken('(')),
        Token::CloseParen => Err(RucketErr::UnexpectedToken(')')),
        Token::QuoteTick => Err(RucketErr::UnexpectedToken('\'')),
        Token::BooleanLiteral(b) => Ok(RucketVal::BoolV(*b)),
        Token::NumberLiteral(n) => Ok(RucketVal::NumV(*n)),
        Token::StringLiteral(s) => Ok(RucketVal::StringV(s.clone())),
        Token::Identifier(x) => env.lookup(f, x),
    }
}

/// Evaluates `e` in frame `f` within a depth budget of `fuel` (see
/// `eval_spec`).
pub fn eval(e: &Expr, env: &mut Env, f: usize, fuel: usize) -> (r: Result<RucketVal, RucketErr>)
    requires
        old(env).wf(),
        f < old(env)@.frames.len(),
    ensures
        final(env).wf(),
        final(env)@.frames.len() >= old(env)@.frames.len(),
        (result_view(r), final(env)@) == eval_spec(e@, old(env)@, f as int, fuel as nat),
    decreases fuel, 0nat,
{
    if fuel == 0 {
        return Err(RucketErr::Generic);
    }
    let k = fuel - 1;
    match e {
        Expr::Atom(t) => run_atom(t, env, f),
        Expr::ListVal(items) => {
            proof {
                lemma_view_exprs(items@, items@.len() as nat);
                assert(e@ == ExprView::List(vexprs(*items)));
            }
            if items.len() == 0 {
                Err(RucketErr::TypeMismatch)
            } else if head_is(&items[0], "quote") {
                if items.len() == 2 {
                    RucketVal::try_from(&items[1])
                } else {
                    Err(RucketErr::ArityMismatch)
                }
            } else if head_is(&items[0], "if") {
                run_if(items, env, f, k)
            } else if head_is(&items[0], "define") {
                run_define(items, env, f, k)
            } else if head_is(&items[0], "lambda") {
                run_lambda(items, f)
            } else if head_is(&items[0], "set!") {
                run_set(items, env, f, k)
            } else if head_is(&items[0], "begin") {
                run_begin(items, 1, env, f, k)
            } else if head_is(&items[0], "let") {
                run_let(items, env, f, k)
            } else if head_is(&items[0], "and") {
                run_and(items, 1, env, f, k)
            } else if head_is(&items[0], "or") {
                run_or(items, 1, env, f, k)
            } else if head_is(&items[0], "cond") {
                run_cond(items, 1, env, f, k)
            } else {
                run_app(items, env, f, k)
            }
        },
    }
}

fn run_if(items: &Vec<Expr>, env: &mut Env, f: usize, k: usize) -> (r: Result<
    RucketVal,
    RucketErr,
>)
    requires
        old(env).wf(),
        f < old(env)@.frames.len(),
    ensures
        final(env).wf(),
        final(env)@.frames.len() >= old(env)@.frames.len(),
        (result_view(r), final(env)@) == eval_if(vexprs(*items), old(env)@, f as int, k as nat),
    decreases k, 1nat,
{
    proof {
        lemma_view_exprs(items@, items@.len() as nat);
    }
    if items.len() != 4 {
        return Err(RucketErr::ArityMismatch);
    }
    let ghost n0 = env@.frames.len();
    let t = eval(&items[1], env, f, k);
    let ghost n1 = env@.frames.len();
    assert(n1 >= n0);
    match t {
        Err(x) => Err(x),
        Ok(v) => {
            let r = if is_false(&v) {
                eval(&items[3], env, f, k)
            } else {
                eval(&items[2], env, f, k)
            };
            assert(env@.frames.len() >= n1);
            r
        },
    }
}

fn run_define(items: &Vec<Expr>, env: &mut Env, f: usize, k: usize) -> (r: Result<
    RucketVal,
    RucketErr,
>)
    requires
        old(env).wf(),
        f < old(env)@.frames.len(),
    ensures
        final(env).wf(),
        final(env)@.frames.len() >= old(env)@.frames.len(),
        (result_view(r), final(env)@) == eval_define(vexprs(*items), old(env)@, f as int, k as nat),
    decreases k, 1nat,
{
    proof {
        lemma_view_exprs(items@, items@.len() as nat);
    }
    if items.len() != 3 {
        return Err(RucketErr::ArityMismatch);
    }
    match &items[1] {
        Expr::Atom(Token::Identifier(name)) => match eval(&items[2], env, f, k) {
            Err(x) => Err(x),
            Ok(v) => {
                env.define(f, name.clone(), v);
                Ok(RucketVal::Void)
            },
        },
        _ => Err(RucketErr::TypeMismatch),
    }
}

fn run_set(items: &Vec<Expr>, env: &mut Env, f: usize, k: usize) -> (r: Result<
    RucketVal,
    RucketErr,
>)
    requires
        old(env).wf(),
        f < old(env)@.frames.len(),
    ensures
        final(env).wf(),
        final(env)@.frames.len() >= old(env)@.frames.len(),
        (result_view(r), final(env)@) == eval_set(vexprs(*items), old(env)@, f as int, k as nat),
    decreases k, 1nat,
{
    proof {
        lemma_view_exprs(items@, items@.len() as nat);
    }
    if items.len() != 3 {
        return Err(RucketErr::ArityMismatch);
    }
    match &items[1] {
        Expr::Atom(Token::Identifier(name)) => match eval(&items[2], env, f, k) {
            Err(x) => Err(x),
            Ok(v) => match env.assign(f, name, v) {
                Ok(()) => Ok(RucketVal::Void),
                Err(x) => Err(x),
            },
        },
        _ => Err(RucketErr::TypeMismatch),
    }
}

fn run_lambda(items: &Vec<Expr>, f: usize) -> (r: Result<RucketVal, RucketErr>)
    ensures
        result_view(r) == eval_lambda(vexprs(*items), f as int),
{
    proof {
        lemma_view_exprs(items@, items@.len() as nat);
    }
    if items.len() != 3 {
        return Err(RucketErr::ArityMismatch);
    }
    match &items[1] {
        Expr::ListVal(ps) => {
            let ghost pv = vexprs(*ps);
            proof {
                lemma_view_exprs(ps@, ps@.len() as nat);
                assert(vexprs(*items)[1] == ExprView::List(pv));
            }
            let mut names: Vec<String> = Vec::new();
            let mut i: usize = 0;
            while i < ps.len()
                invariant
                    vexprs(*items).len() == 3,
                    vexprs(*items)[1] == ExprView::List(pv),
                    pv == vexprs(*ps),
                    pv.len() == ps@.len(),
                    forall|j: int| 0 <= j < pv.len() ==> #[trigger] pv[j] == ps@[j]@,
                    i <= ps@.len(),
                    names@.len() == i,
                    forall|j: int| 0 <= j < i ==> (#[trigger] ident_of(pv[j])) is Some,
                    forall|j: int| 0 <= j < i ==> Some((#[trigger] names@[j])@) == ident_of(pv[j]),
                decreases ps@.len() - i,
            {
                match &ps[i] {
                    Expr::Atom(Token::Identifier(s)) => {
                        names.push(s.clone());
                    },
                    _ => {
                        proof {
                            assert(ident_of(pv[i as int]) is None);
                            assert(!(forall|j: int|
                                0 <= j < pv.len() ==> (#[trigger] ident_of(pv[j])) is Some));
                            assert(param_names(pv) is None);
                        }
                        return Err(RucketErr::TypeMismatch);
                    },
                }
                i = i + 1;
            }
            let body = copy_expr(&items[2]);
            let l = RucketLambda::new(names, body, f);
            proof {
                assert(names_view(names@) =~= param_names(pv)->Some_0);
            }
            Ok(RucketVal::LambdaV(l))
        },
        _ => Err(RucketErr::TypeMismatch),
    }
}

fn run_begin(items: &Vec<Expr>, i: usize, env: &mut Env, f: usize, k: usize) -> (r: Result<
    RucketVal,
    RucketErr,
>)
    requires
        old(env).wf(),
        f < old(env)@.frames.len(),
    ensures
        final(env).wf(),
        final(env)@.frames.len() >= old(env)@.frames.len(),
        (result_view(r), final(env)@) == eval_begin(
            vexprs(*items),
            i as nat,
            old(env)@,
            f as int,
            k as nat,
        ),
    decreases k, items@.len() + 1 - i,
{
    proof {
        lemma_view_exprs(items@, items@.len() as nat);
    }
    if i >= items.len() {
        return Ok(RucketVal::Void);
    }
    if i + 1 == items.len() {
        return eval(&items[i], env, f, k);
    }
    match eval(&items[i], env, f, k) {
        Err(x) => Err(x),
        Ok(_) => run_begin(items, i + 1, env, f, k),
    }
}

fn run_and(items: &Vec<Expr>, i: usize, env: &mut Env, f: usize, k: usize) -> (r: Result<
    RucketVal,
    RucketErr,
>)
    requires
        old(env).wf(),
        f < old(env)@.frames.len(),
    ensures
        final(env).wf(),
        final(env)@.frames.len() >= old(env)@.frames.len(),
        (result_view(r), final(env)@) == eval_and(
            vexprs(*items),
            i as nat,
            old(env)@,
            f as int,
            k as nat,
        ),
    decreases k, items@.len() + 1 - i,
{
    proof {
        lemma_view_exprs(items@, items@.len() as nat);
    }
    if i >= items.len() {
        return Ok(RucketVal::BoolV(true));
    }
    match eval(&items[i], env, f, k) {
        Err(x) => Err(x),
        Ok(v) => if is_false(&v) || i + 1 == items.len() {
            Ok(v)
        } else {
            run_and(items, i + 1, env, f, k)
        },
    }
}

fn run_or(items: &Vec<Expr>, i: usize, env: &mut Env, f: usize, k: usize) -> (r: Result<
    RucketVal,
    RucketErr,
>)
    requires
        old(env).wf(),
        f < old(env)@.frames.len(),
    ensures
        final(env).wf(),
        final(env)@.frames.len() >= old(env)@.frames.len(),
        (result_view(r), final(env)@) == eval_or(
            vexprs(*items),
            i as nat,
            old(env)@,
            f as int,
            k as nat,
        ),
    decreases k, items@.len() + 1 - i,
{
    proof {
        lemma_view_exprs(items@, items@.len() as nat);
    }
    if i >= items.len() {
        return Ok(RucketVal::BoolV(false));
    }
    match eval(&items[i], env, f, k) {
        Err(x) => Err(x),
        Ok(v) => if !is_false(&v) || i + 1 == items.len() {
            Ok(v)
        } else {
            run_or(items, i + 1, env, f, k)
        },
    }
}

fn run_cond(items: &Vec<Expr>, i: usize, env: &mut Env, f: usize, k: usize) -> (r: Result<
    RucketVal,
    RucketErr,
>)
    requires
        old(env).wf(),
        f < old(env)@.frames.len(),
    ensures
        final(env).wf(),
        final(env)@.frames.len() >= old(env)@.frames.len(),
        (result_view(r), final(env)@) == eval_cond(
            vexprs(*items),
            i as nat,
            old(env)@,
            f as int,
            k as nat,
        ),
    decreases k, items@.len() + 1 - i,
{
    proof {
        lemma_view_exprs(items@, items@.len() as nat);
    }
    if i >= items.len() {
        return Ok(RucketVal::Void);
    }
    match &items[i] {
        Expr::ListVal(c) => {
            proof {
                lemma_view_exprs(c@, c@.len() as nat);
                assert(vexprs(*items)[i as int] == ExprView::List(vexprs(*c)));
            }
            if c.len() != 2 {
                return Err(RucketErr::TypeMismatch);
            }
            if head_is(&c[0], "else") {
                return eval(&c[1], env, f, k);
            }
            match eval(&c[0], env, f, k) {
                Err(x) => Err(x),
                Ok(v) => if !is_false(&v) {
                    eval(&c[1], env, f, k)
                } else {
                    run_cond(items, i + 1, env, f, k)
                },
            }
        },
        _ => Err(RucketErr::TypeMismatch),
    }
}

pub proof fn lemma_eval_seq_len(es: Seq<ExprView>, i: nat, st: EnvView, f: int, k: nat)
    requires
        i <= es.len(),
    ensures
        eval_seq(es, i, st, f, k).0 is Ok ==> eval_seq(es, i, st, f, k).0->Ok_0.len() == es.len()
            - i,
    decreases es.len() - i,
{
    if i < es.len() {
        let (r, st1) = eval_spec(es[i as int], st, f, k);
        if r is Ok {
            lemma_eval_seq_len(es, i + 1, st1, f, k);
        }
    }
}

fn run_seq(items: &Vec<Expr>, i: usize, env: &mut Env, f: usize, k: usize) -> (r: Result<
    Vec<RucketVal>,
    RucketErr,
>)
    requires
        old(env).wf(),
        f < old(env)@.frames.len(),
    ensures
        final(env).wf(),
        final(env)@.frames.len() >= old(env)@.frames.len(),
        final(env)@ == eval_seq(vexprs(*items), i as nat, old(env)@, f as int, k as nat).1,
        match (r, eval_seq(vexprs(*items), i as nat, old(env)@, f as int, k as nat).0) {
            (Ok(vs), Ok(w)) => vvals(vs) == w,
            (Err(e), Err(x)) => e@ == x,
            _ => false,
        },
    decreases k, items@.len() + 1 - i,
{
    proof {
        lemma_view_exprs(items@, items@.len() as nat);
    }
    if i >= items.len() {
        let out: Vec<RucketVal> = Vec::new();
        assert(vvals(out) =~= Seq::<ValView>::empty());
        return Ok(out);
    }
    match eval(&items[i], env, f, k) {
        Err(x) => Err(x),
        Ok(v) => match run_seq(items, i + 1, env, f, k) {
            Ok(vs) => {
                let ghost w = vvals(vs);
                let mut vs = vs;
                vs.insert(0, v);
                assert(vvals(vs) =~= seq![v@] + w);
                Ok(vs)
            },
            Err(x) => Err(x),
        },
    }
}

fn run_let(items: &Vec<Expr>, env: &mut Env, f: usize, k: usize) -> (r: Result<
    RucketVal,
    RucketErr,
>)
    requires
        old(env).wf(),
        f < old(env)@.frames.len(),
    ensures
        final(env).wf(),
        final(env)@.frames.len() >= old(env)@.frames.len(),
        (result_view(r), final(env)@) == eval_let(vexprs(*items), old(env)@, f as int, k as nat),
    decreases k, let_rank(vexprs(*items)),
{
    proof {
        lemma_view_exprs(items@, items@.len() as nat);
    }
    if items.len() != 3 {
        return Err(RucketErr::ArityMismatch);
    }
    match &items[1] {
        Expr::ListVal(bs) => {
            let ghost bv = vexprs(*bs);
            proof {
                lemma_view_exprs(bs@, bs@.len() as nat);
                assert(vexprs(*items)[1] == ExprView::List(bv));
            }
            let mut names: Vec<String> = Vec::new();
            let mut inits: Vec<Expr> = Vec::new();
            let mut i: usize = 0;
            while i < bs.len()
                invariant
                    env.wf(),
                    env@ == old(env)@,
                    f < env@.frames.len(),
                    items@.len() == 3,
                    vexprs(*items).len() == 3,
                    vexprs(*items)[1] == ExprView::List(bv),
                    bv == vexprs(*bs),
                    bv.len() == bs@.len(),
                    forall|j: int| 0 <= j < bv.len() ==> #[trigger] bv[j] == bs@[j]@,
                    i <= bs@.len(),
                    names@.len() == i,
                    inits@.len() == i,
                    forall|j: int|
                        0 <= j < i ==> (#[trigger] bv[j]) is List && bv[j]->List_0.len() == 2
                            && ident_of(bv[j]->List_0[0]) is Some,
                    forall|j: int| 0 <= j < i ==> (#[trigger] names@[j])@ == let_names(bv)[j],
                    forall|j: int| 0 <= j < i ==> (#[trigger] inits@[j])@ == let_inits(bv)[j],
                decreases bs@.len() - i,
            {
                match &bs[i] {
                    Expr::ListVal(pair) => {
                        proof {
                            lemma_view_exprs(pair@, pair@.len() as nat);
                            assert(bv[i as int] == ExprView::List(vexprs(*pair)));
                        }
                        if pair.len() != 2 {
                            proof {
                                assert(!let_ok(bv));
                            }
                            return Err(RucketErr::TypeMismatch);
                        }
                        match &pair[0] {
                            Expr::Atom(Token::Identifier(s)) => {
                                names.push(s.clone());
                                inits.push(copy_expr(&pair[1]));
                            },
                            _ => {
                                proof {
                                    assert(ident_of(bv[i as int]->List_0[0]) is None);
                                    assert(!let_ok(bv));
                                }
                                return Err(RucketErr::TypeMismatch);
                            },
                        }
                    },
                    _ => {
                        proof {
                            assert(!let_ok(bv));
                        }
                        return Err(RucketErr::TypeMismatch);
                    },
                }
                i = i + 1;
            }
            proof {
                lemma_view_exprs(inits@, inits@.len() as nat);
                assert(vexprs(inits) =~= let_inits(bv));
                assert(names_view(names@) =~= let_names(bv));
                lemma_eval_seq_len(let_inits(bv), 0, env@, f as int, k as nat);
            }
            match run_seq(&inits, 0, env, f, k) {
                Err(x) => Err(x),
                Ok(vals) => {
                    let nf = env.child_frame(f, names.as_slice(), vals);
                    eval(&items[2], env, nf, k)
                },
            }
        },
        _ => Err(RucketErr::TypeMismatch),
    }
}

fn run_app(items: &Vec<Expr>, env: &mut Env, f: usize, k: usize) -> (r: Result<
    RucketVal,
    RucketErr,
>)
    requires
        old(env).wf(),
        f < old(env)@.frames.len(),
        items@.len() > 0,
    ensures
        final(env).wf(),
        final(env)@.frames.len() >= old(env)@.frames.len(),
        (result_view(r), final(env)@) == eval_app(vexprs(*items), old(env)@, f as int, k as nat),
    decreases k, items@.len() + 2,
{
    proof {
        lemma_view_exprs(items@, items@.len() as nat);
    }
    match eval(&items[0], env, f, k) {
        Err(x) => Err(x),
        Ok(fv) => {
            if !is_callable_val(&fv) {
                return Err(RucketErr::TypeMismatch);
            }
            match run_seq(items, 1, env, f, k) {
                Err(x) => Err(x),
                Ok(args) => apply(&fv, args, env, k),
            }
        },
    }
}

/// Applies a function value to argument values (see `apply_spec`).
pub fn apply(fv: &RucketVal, args: Vec<RucketVal>, env: &mut Env, k: usize) -> (r: Result<
    RucketVal,
    RucketErr,
>)
    requires
        old(env).wf(),
    ensures
        final(env).wf(),
        final(env)@.frames.len() >= old(env)@.frames.len(),
        (result_view(r), final(env)@) == apply_spec(fv@, vvals(args), old(env)@, k as nat),
    decreases k, 1nat,
{
    match fv {
        RucketVal::FuncV(p) => apply_prim(*p, args, env),
        RucketVal::LambdaV(l) => {
            let ps = l.params_exp();
            if ps.len() != args.len() {
                return Err(RucketErr::ArityMismatch);
            }
            let parent = l.parent_env();
            if parent >= env.num_frames() {
                return Err(RucketErr::Generic);
            }
            proof {
                assert(Seq::new(args@.len(), |i: int| args@[i]@) == vvals(args));
            }
            let nf = env.child_frame(parent, ps, args);
            let body = l.body_exp();
            eval(&body, env, nf, k)
        },
        _ => Err(RucketErr::TypeMismatch),
    }
}

fn to_num(n: i128) -> (r: Result<RucketVal, RucketErr>)
    ensures
        fits_i64(n as int) ==> r is Ok && r->Ok_0@ == ValView::Num(n as int),
        !fits_i64(n as int) ==> r is Err && r->Err_0@ == ErrView::Generic,
{
    if n < i64::MIN as i128 || n > i64::MAX as i128 {
        Err(RucketErr::Generic)
    } else {
        Ok(RucketVal::NumV(n as i64))
    }
}

/// Applies a primitive to argument values (see `prim_spec`).
pub fn apply_prim(p: Primitive, args: Vec<RucketVal>, env: &mut Env) -> (r: Result<
    RucketVal,
    RucketErr,
>)
    requires
        old(env).wf(),
    ensures
        final(env).wf(),
        final(env)@.frames.len() == old(env)@.frames.len(),
        (result_view(r), final(env)@) == prim_spec(p, vvals(args), old(env)@),
{
    let ghost a = vvals(args);
    let mut args = args;
    match p {
        Primitive::Add | Primitive::Sub | Primitive::Mul => {
            if args.len() != 2 {
                return Err(RucketErr::ArityMismatch);
            }
            match (&args[0], &args[1]) {
                (RucketVal::NumV(x), RucketVal::NumV(y)) => {
                    let (x, y) = (*x as i128, *y as i128);
                    let n: i128 = match p {
                        Primitive::Add => x + y,
                        Primitive::Sub => x - y,
                        _ => {
                            assert(-0x4000_0000_0000_0000_0000_0000_0000_0000 <= x * y <= 0x4000_0000_0000_0000_0000_0000_0000_0000) by (nonlinear_arith)
                                requires
                                    -0x8000_0000_0000_0000 <= x <= 0x7fff_ffff_ffff_ffff,
                                    -0x8000_0000_0000_0000 <= y <= 0x7fff_ffff_ffff_ffff,
                            ;
                            x * y
                        },
                    };
                    to_num(n)
                },
                _ => Err(RucketErr::TypeMismatch),
            }
        },
        Primitive::NumEq => {
            if args.len() != 2 {
                return Err(RucketErr::ArityMismatch);
            }
            match (&args[0], &args[1]) {
                (RucketVal::NumV(x), RucketVal::NumV(y)) => Ok(RucketVal::BoolV(*x == *y)),
                _ => Err(RucketErr::TypeMismatch),
            }
        },
        Primitive::Less => {
            if args.len() != 2 {
                return Err(RucketErr::ArityMismatch);
            }
            match compare(&args[0], &args[1]) {
                Ok(o) => Ok(
                    RucketVal::BoolV(
                        match o {
                            Ordering::Less => true,
                            _ => false,
                        },
                    ),
                ),
                Err(x) => Err(x),
            }
        },
        Primitive::Equal => {
            if args.len() != 2 {
                return Err(RucketErr::ArityMismatch);
            }
            Ok(RucketVal::BoolV(equals(&args[0], &args[1])))
        },
        Primitive::AssertTruthy => {
            if args.len() != 1 {
                return Err(RucketErr::ArityMismatch);
            }
            match &args[0] {
                RucketVal::BoolV(true) => Ok(RucketVal::Void),
                _ => Err(RucketErr::Generic),
            }
        },
        Primitive::NewBox => {
            if args.len() != 1 {
                return Err(RucketErr::ArityMismatch);
            }
            let v = args.pop().unwrap();
            let i = env.new_box(v);
            Ok(RucketVal::BoxV(i))
        },
        Primitive::Unbox => {
            if args.len() != 1 {
                return Err(RucketErr::ArityMismatch);
            }
            match &args[0] {
                RucketVal::BoxV(i) => if *i < env.num_boxes() {
                    Ok(env.get_box(*i))
                } else {
                    Err(RucketErr::Generic)
                },
                _ => Err(RucketErr::TypeMismatch),
            }
        },
        Primitive::SetBox => {
            if args.len() != 2 {
                return Err(RucketErr::ArityMismatch);
            }
            let v = args.pop().unwrap();
            match &args[0] {
                RucketVal::BoxV(i) => if *i < env.num_boxes() {
                    Ok(env.set_box(*i, v))
                } else {
                    Err(RucketErr::Generic)
                },
                _ => Err(RucketErr::TypeMismatch),
            }
        },
        Primitive::ActiveObjects => {
            if args.len() != 0 {
                return Err(RucketErr::ArityMismatch);
            }
            let n: u128 = env.num_frames() as u128 + env.num_boxes() as u128;
            if n > i64::MAX as u128 {
                Err(RucketErr::Generic)
            } else {
                Ok(RucketVal::NumV(n as i64))
            }
        },
        Primitive::MemoryAddress => {
            if args.len() != 1 {
                return Err(RucketErr::ArityMismatch);
            }
            Ok(RucketVal::StringV(env.address()))
        },
        Primitive::InspectBytecode => {
            if args.len() != 1 {
                return Err(RucketErr::ArityMismatch);
            }
            match &args[0] {
                RucketVal::LambdaV(_) => Ok(RucketVal::Void),
                _ => Err(RucketErr::TypeMismatch),
            }
        },
    }
}

/// Evaluates `e` in the root frame of `env` with the depth budget
/// `MAX_DEPTH`. Every special form and every application spends one unit
/// for as long as it runs, so the budget bounds how deeply evaluations nest:
/// a function whose body is an `if` around a recursive call spends two units
/// per call, and such a recursion fits up to just under `MAX_DEPTH / 2`
/// levels; deeper ones end in `RucketErr::Generic`.
pub fn evaluate(e: &Expr, env: &mut Env) -> (r: Result<RucketVal, RucketErr>)
    requires
        old(env).wf(),
        old(env)@.frames.len() > 0,
    ensures
        final(env).wf(),
        (result_view(r), final(env)@) == eval_spec(e@, old(env)@, 0, MAX_DEPTH as nat),
{
    eval(e, env, 0, MAX_DEPTH)
}

} // verus!
