use vstd::prelude::*;
use vstd::string::*;
use std::cmp::Ordering;

verus! {

/// A leaf of an expression tree, as the reader hands it over.
pub enum Token {
    OpenParen,
    CloseParen,
    QuoteTick,
    BooleanLiteral(bool),
    Identifier(String),
    NumberLiteral(i64),
    StringLiteral(String),
}

/// An expression tree: an atom or a list of sub-expressions.
pub enum Expr {
    Atom(Token),
    ListVal(Vec<Expr>),
}

/// Mathematical model of a token.
pub enum TokenView {
    OpenParen,
    CloseParen,
    QuoteTick,
    Bool(bool),
    Ident(Seq<char>),
    Num(int),
    Str(Seq<char>),
}

/// Mathematical model of an expression tree.
pub enum ExprView {
    Atom(TokenView),
    List(Seq<ExprView>),
}

impl Token {
    pub open spec fn view(&self) -> TokenView {
        match *self {
            Token::OpenParen => TokenView::OpenParen,
            Token::CloseParen => TokenView::CloseParen,
            Token::QuoteTick => TokenView::QuoteTick,
            Token::BooleanLiteral(b) => TokenView::Bool(b),
            Token::Identifier(s) => TokenView::Ident(s@),
            Token::NumberLiteral(n) => TokenView::Num(n as int),
            Token::StringLiteral(s) => TokenView::Str(s@),
        }
    }
}

pub open spec fn view_expr(e: Expr) -> ExprView
    decreases e, 0nat,
{
    match e {
        Expr::Atom(t) => ExprView::Atom(t.view()),
        Expr::ListVal(items) => ExprView::List(view_exprs(items@, items@.len() as nat)),
    }
}

/// Views of the first `n` items of `s`.
pub open spec fn view_exprs(s: Seq<Expr>, n: nat) -> Seq<ExprView>
    decreases s, n,
{
    if n == 0 || n > s.len() {
        Seq::empty()
    } else {
        view_exprs(s, (n - 1) as nat).push(view_expr(s[n - 1]))
    }
}

impl Expr {
    pub open spec fn view(&self) -> ExprView {
        view_expr(*self)
    }
}

pub proof fn lemma_view_exprs(s: Seq<Expr>, n: nat)
    requires
        n <= s.len(),
    ensures
        view_exprs(s, n).len() == n,
        forall|i: int| 0 <= i < n ==> #[trigger] view_exprs(s, n)[i] == view_expr(s[i]),
    decreases n,
{
    if n > 0 {
        lemma_view_exprs(s, (n - 1) as nat);
    }
}

/// The ways an evaluation can fail.
pub enum RucketErr {
    /// A syntax token (`(`, `)` or `'`) stood where a value was expected.
    UnexpectedToken(char),
    /// No frame of the chain binds the name.
    UnboundIdentifier(String),
    /// Wrong number of arguments.
    ArityMismatch,
    /// A value of the wrong kind for the operation.
    TypeMismatch,
    /// An extension object could not be recovered as the asked-for type.
    ConversionError,
    /// Any other failure: arithmetic overflow, a failed assertion, a dangling
    /// arena index, or the evaluation depth running out.
    Generic,
}

/// The host-provided functions that a program can call. This is a closed
/// set: a primitive's behaviour is part of the evaluator's contract
/// (`prim_spec`), and a function supplied at run time by the host could not
/// be given one. The arithmetic and comparison primitives are here so that
/// programs can compute at all; the host decides which names bind them (see
/// `Env::default_env`).
#[derive(PartialEq, Eq, Structural, Clone, Copy, Debug)]
pub enum Primitive {
    Add,
    Sub,
    Mul,
    NumEq,
    Less,
    Equal,
    AssertTruthy,
    NewBox,
    Unbox,
    SetBox,
    ActiveObjects,
    MemoryAddress,
    InspectBytecode,
}

/// Data describing a user function: parameter names, the unevaluated body and
/// the index (in the frame arena) of the frame it was created in.
pub struct RucketLambda {
    params_exp: Vec<String>,
    body_exp: Expr,
    parent_env: usize,
}

/// An opaque host value: the name of its type and its payload. The payload
/// is a single machine word (a number, or a handle into a table the host
/// keeps), so that copying and comparing it are plain operations the
/// library can state; a host type with more state keeps it behind such a
/// handle. `recover` is the only way back to the payload.
pub struct ExtObject {
    pub kind_name: String,
    pub payload: u64,
}

/// A runtime value.
pub enum RucketVal {
    BoolV(bool),
    NumV(i64),
    ListV(Vec<RucketVal>),
    Void,
    StringV(String),
    FuncV(Primitive),
    LambdaV(RucketLambda),
    SymbolV(String),
    BoxV(usize),
    Custom(ExtObject),
}

/// Mathematical model of a runtime value.
pub enum ValView {
    Bool(bool),
    Num(int),
    List(Seq<ValView>),
    Void,
    Str(Seq<char>),
    Prim(Primitive),
    Closure(Seq<Seq<char>>, ExprView, nat),
    Sym(Seq<char>),
    Boxed(nat),
    Custom(Seq<char>, nat),
}

pub open spec fn names_view(s: Seq<String>) -> Seq<Seq<char>> {
    Seq::new(s.len(), |i: int| s[i]@)
}

pub open spec fn lambda_view(l: RucketLambda) -> ValView {
    ValView::Closure(l.params(), l.body(), l.parent())
}

impl RucketLambda {
    pub closed spec fn params(&self) -> Seq<Seq<char>> {
        names_view(self.params_exp@)
    }

    pub closed spec fn body(&self) -> ExprView {
        self.body_exp@
    }

    pub closed spec fn parent(&self) -> nat {
        self.parent_env as nat
    }

    /// A function value from its parameters, body and defining frame.
    pub fn new(params_exp: Vec<String>, body_exp: Expr, parent_env: usize) -> (r: RucketLambda)
        ensures
            r.params() == names_view(params_exp@),
            r.body() == body_exp@,
            r.parent() == parent_env as nat,
    {
        RucketLambda { params_exp, body_exp, parent_env }
    }

    /// Names of the parameters.
    pub fn params_exp(&self) -> (r: &[String])
        ensures
            names_view(r@) == self.params(),
    {
        self.params_exp.as_slice()
    }

    /// A copy of the body, with identifiers yet to be bound.
    pub fn body_exp(&self) -> (r: Expr)
        ensures
            r@ == self.body(),
    {
        copy_expr(&self.body_exp)
    }

    /// Index of the frame the function was created in; a call builds a child
    /// of this frame.
    pub fn parent_env(&self) -> (r: usize)
        ensures
            r as nat == self.parent(),
    {
        self.parent_env
    }
}

pub open spec fn view_val(v: RucketVal) -> ValView
    decreases v, 0nat,
{
    match v {
        RucketVal::BoolV(b) => ValView::Bool(b),
        RucketVal::NumV(n) => ValView::Num(n as int),
        RucketVal::ListV(items) => ValView::List(view_vals(items@, items@.len() as nat)),
        RucketVal::Void => ValView::Void,
        RucketVal::StringV(s) => ValView::Str(s@),
        RucketVal::FuncV(p) => ValView::Prim(p),
        RucketVal::LambdaV(l) => lambda_view(l),
        RucketVal::SymbolV(s) => ValView::Sym(s@),
        RucketVal::BoxV(i) => ValView::Boxed(i as nat),
        RucketVal::Custom(x) => ValView::Custom(x.kind_name@, x.payload as nat),
    }
}

/// Views of the first `n` items of `s`.
pub open spec fn view_vals(s: Seq<RucketVal>, n: nat) -> Seq<ValView>
    decreases s, n,
{
    if n == 0 || n > s.len() {
        Seq::empty()
    } else {
        view_vals(s, (n - 1) as nat).push(view_val(s[n - 1]))
    }
}

impl RucketVal {
    pub open spec fn view(&self) -> ValView {
        view_val(*self)
    }
}

pub proof fn lemma_view_vals_len(s: Seq<RucketVal>, n: nat)
    requires
        n <= s.len(),
    ensures
        view_vals(s, n).len() == n,
        forall|i: int| 0 <= i < n ==> #[trigger] view_vals(s, n)[i] == view_val(s[i]),
    decreases n,
{
    if n > 0 {
        lemma_view_vals_len(s, (n - 1) as nat);
    }
}

pub proof fn lemma_view_vals_ext(a: Seq<RucketVal>, b: Seq<ValView>)
    requires
        a.len() == b.len(),
        forall|i: int| 0 <= i < a.len() ==> view_val(#[trigger] a[i]) == b[i],
    ensures
        view_vals(a, a.len() as nat) == b,
{
    lemma_view_vals_len(a, a.len() as nat);
    assert(view_vals(a, a.len() as nat) =~= b);
}

/// A copy of an expression tree.
pub fn copy_expr(e: &Expr) -> (r: Expr)
    ensures
        r@ == e@,
    decreases e@,
{
    match e {
        Expr::Atom(t) => Expr::Atom(copy_token(t)),
        Expr::ListVal(items) => {
            let mut out: Vec<Expr> = Vec::new();
            let mut i: usize = 0;
            while i < items.len()
                invariant
                    *e == Expr::ListVal(*items),
                    i <= items@.len(),
                    out@.len() == i,
                    forall|k: int| 0 <= k < i ==> (#[trigger] out@[k])@ == items@[k]@,
                decreases items@.len() - i,
            {
                proof {
                    lemma_view_exprs(items@, items@.len() as nat);
                    let vs = view_exprs(items@, items@.len() as nat);
                    assert(e@ == ExprView::List(vs));
                    let ev = e@;
                    assert(decreases_to!(ev => ev->List_0));
                    assert(decreases_to!(vs => vs[i as int]));
                    assert(decreases_to!(e@ => items[i as int]@));
                }
                out.push(copy_expr(&items[i]));
                i = i + 1;
            }
            proof {
                lemma_view_exprs(out@, out@.len() as nat);
                lemma_view_exprs(items@, items@.len() as nat);
                assert(view_exprs(out@, out@.len() as nat) =~= view_exprs(items@, items@.len() as nat));
            }
            Expr::ListVal(out)
        },
    }
}

pub fn copy_token(t: &Token) -> (r: Token)
    ensures
        r@ == t@,
{
    match t {
        Token::OpenParen => Token::OpenParen,
        Token::CloseParen => Token::CloseParen,
        Token::QuoteTick => Token::QuoteTick,
        Token::BooleanLiteral(b) => Token::BooleanLiteral(*b),
        Token::Identifier(s) => Token::Identifier(s.clone()),
        Token::NumberLiteral(n) => Token::NumberLiteral(*n),
        Token::StringLiteral(s) => Token::StringLiteral(s.clone()),
    }
}


impl ExtObject {
    /// An independent copy.
    pub fn copy(&self) -> (r: ExtObject)
        ensures
            r.kind_name@ == self.kind_name@,
            r.payload == self.payload,
    {
        ExtObject { kind_name: self.kind_name.clone(), payload: self.payload }
    }

    /// The name of the object's type.
    pub fn kind(&self) -> (r: &String)
        ensures
            r@ == self.kind_name@,
    {
        &self.kind_name
    }

    /// The object as a runtime value.
    pub fn wrap(self) -> (r: RucketVal)
        ensures
            r@ == ValView::Custom(self.kind_name@, self.payload as nat),
    {
        RucketVal::Custom(self)
    }
}

/// The payload of `v` when it is an extension object of type `kind`.
pub open spec fn recover_spec(v: ValView, kind: Seq<char>) -> Result<nat, ErrView> {
    match v {
        ValView::Custom(n, p) => if n == kind {
            Ok(p)
        } else {
            Err(ErrView::ConversionError)
        },
        _ => Err(ErrView::ConversionError),
    }
}

/// Recovers the payload of an extension object of type `kind`; any other
/// value, or an object of another type, is a conversion error.
pub fn recover(v: &RucketVal, kind: &String) -> (r: Result<u64, RucketErr>)
    ensures
        match r {
            Ok(p) => recover_spec(v@, kind@) == Ok::<nat, ErrView>(p as nat),
            Err(e) => recover_spec(v@, kind@) == Err::<nat, ErrView>(e@),
        },
{
    match v {
        RucketVal::Custom(x) => if x.kind_name == *kind {
            Ok(x.payload)
        } else {
            Err(RucketErr::ConversionError)
        },
        _ => Err(RucketErr::ConversionError),
    }
}

/// Mathematical model of an error.
pub enum ErrView {
    UnexpectedToken(char),
    UnboundIdentifier(Seq<char>),
    ArityMismatch,
    TypeMismatch,
    ConversionError,
    Generic,
}

impl RucketErr {
    pub open spec fn view(&self) -> ErrView {
        match *self {
            RucketErr::UnexpectedToken(c) => ErrView::UnexpectedToken(c),
            RucketErr::UnboundIdentifier(s) => ErrView::UnboundIdentifier(s@),
            RucketErr::ArityMismatch => ErrView::ArityMismatch,
            RucketErr::TypeMismatch => ErrView::TypeMismatch,
            RucketErr::ConversionError => ErrView::ConversionError,
            RucketErr::Generic => ErrView::Generic,
        }
    }
}

/// Model of an outcome: a value or an error.
pub open spec fn result_view(r: Result<RucketVal, RucketErr>) -> Result<ValView, ErrView> {
    match r {
        Ok(v) => Ok(v@),
        Err(e) => Err(e@),
    }
}

/// A copy of a list of names.
pub fn copy_names(s: &[String]) -> (r: Vec<String>)
    ensures
        names_view(r@) == names_view(s@),
{
    let mut out: Vec<String> = Vec::new();
    let mut i: usize = 0;
    while i < s.len()
        invariant
            i <= s@.len(),
            out@.len() == i,
            forall|k: int| 0 <= k < i ==> (#[trigger] out@[k])@ == s@[k]@,
        decreases s@.len() - i,
    {
        out.push(s[i].clone());
        i = i + 1;
    }
    assert(names_view(out@) =~= names_view(s@));
    out
}

/// A copy of a value.
pub fn copy_val(v: &RucketVal) -> (r: RucketVal)
    ensures
        r@ == v@,
    decreases v@,
{
    match v {
        RucketVal::BoolV(b) => RucketVal::BoolV(*b),
        RucketVal::NumV(n) => RucketVal::NumV(*n),
        RucketVal::ListV(items) => {
            let mut out: Vec<RucketVal> = Vec::new();
            let mut i: usize = 0;
            while i < items.len()
                invariant
                    *v == RucketVal::ListV(*items),
                    i <= items@.len(),
                    out@.len() == i,
                    forall|k: int| 0 <= k < i ==> (#[trigger] out@[k])@ == items@[k]@,
                decreases items@.len() - i,
            {
                proof {
                    lemma_view_vals_len(items@, items@.len() as nat);
                    let vs = view_vals(items@, items@.len() as nat);
                    assert(v@ == ValView::List(vs));
                    let vv = v@;
                    assert(decreases_to!(vv => vv->List_0));
                    assert(decreases_to!(vs => vs[i as int]));
                    assert(decreases_to!(v@ => items[i as int]@));
                }
                out.push(copy_val(&items[i]));
                i = i + 1;
            }
            proof {
                lemma_view_vals_len(items@, items@.len() as nat);
                lemma_view_vals_ext(out@, view_vals(items@, items@.len() as nat));
            }
            RucketVal::ListV(out)
        },
        RucketVal::Void => RucketVal::Void,
        RucketVal::StringV(s) => RucketVal::StringV(s.clone()),
        RucketVal::FuncV(p) => RucketVal::FuncV(*p),
        RucketVal::LambdaV(l) => {
            let params = copy_names(l.params_exp());
            RucketVal::LambdaV(RucketLambda::new(params, l.body_exp(), l.parent_env()))
        },
        RucketVal::SymbolV(s) => RucketVal::SymbolV(s.clone()),
        RucketVal::BoxV(i) => RucketVal::BoxV(*i),
        RucketVal::Custom(x) => RucketVal::Custom(
            ExtObject { kind_name: x.kind_name.clone(), payload: x.payload },
        ),
    }
}

/// The value that `quote` makes of an expression.
pub open spec fn quote_spec(e: ExprView) -> Result<ValView, ErrView>
    decreases e, 0nat,
{
    match e {
        ExprView::Atom(t) => match t {
            TokenView::OpenParen => Err(ErrView::UnexpectedToken('(')),
            TokenView::CloseParen => Err(ErrView::UnexpectedToken(')')),
            TokenView::QuoteTick => Err(ErrView::UnexpectedToken('\'')),
            TokenView::Bool(b) => Ok(ValView::Bool(b)),
            TokenView::Ident(s) => Ok(ValView::Sym(s)),
            TokenView::Num(n) => Ok(ValView::Num(n)),
            TokenView::Str(s) => Ok(ValView::Str(s)),
        },
        ExprView::List(es) => match quote_seq(es, es.len()) {
            Ok(vs) => Ok(ValView::List(vs)),
            Err(x) => Err(x),
        },
    }
}

/// `quote_spec` of the first `n` expressions, stopping at the first error.
pub open spec fn quote_seq(es: Seq<ExprView>, n: nat) -> Result<Seq<ValView>, ErrView>
    decreases es, n,
{
    if n == 0 || n > es.len() {
        Ok(Seq::empty())
    } else {
        match quote_seq(es, (n - 1) as nat) {
            Err(x) => Err(x),
            Ok(vs) => match quote_spec(es[n - 1]) {
                Ok(v) => Ok(vs.push(v)),
                Err(x) => Err(x),
            },
        }
    }
}

impl RucketVal {
    /// Turns an expression into the value it denotes as data: atoms become
    /// booleans, numbers, strings or symbols, lists become lists.
    pub fn try_from(e: &Expr) -> (r: Result<RucketVal, RucketErr>)
        ensures
            result_view(r) == quote_spec(e@),
        decreases e@,
    {
        match e {
            Expr::Atom(t) => match t {
                Token::OpenParen => Err(RucketErr::UnexpectedToken('(')),
                Token::CloseParen => Err(RucketErr::UnexpectedToken(')')),
                Token::QuoteTick => Err(RucketErr::UnexpectedToken('\'')),
                Token::BooleanLiteral(b) => Ok(RucketVal::BoolV(*b)),
                Token::Identifier(s) => Ok(RucketVal::SymbolV(s.clone())),
                Token::NumberLiteral(n) => Ok(RucketVal::NumV(*n)),
                Token::StringLiteral(s) => Ok(RucketVal::StringV(s.clone())),
            },
            Expr::ListVal(items) => {
                let ghost evs = view_exprs(items@, items@.len() as nat);
                proof {
                    lemma_view_exprs(items@, items@.len() as nat);
                }
                let mut out: Vec<RucketVal> = Vec::new();
                let mut i: usize = 0;
                while i < items.len()
                    invariant
                        *e == Expr::ListVal(*items),
                        evs == view_exprs(items@, items@.len() as nat),
                        evs.len() == items@.len(),
                        forall|k: int| 0 <= k < evs.len() ==> #[trigger] evs[k] == items@[k]@,
                        i <= items@.len(),
                        out@.len() == i,
                        quote_seq(evs, i as nat) is Ok,
                        quote_seq(evs, i as nat)->Ok_0.len() == i,
                        forall|k: int|
                            0 <= k < i ==> (#[trigger] out@[k])@ == quote_seq(evs, i as nat)->Ok_0[k],
                    decreases items@.len() - i,
                {
                    proof {
                        let ev = e@;
                        assert(decreases_to!(ev => ev->List_0));
                        assert(decreases_to!(e@ => items[i as int]@));
                    }
                    let x = RucketVal::try_from(&items[i]);
                    match x {
                        Ok(v) => {
                            out.push(v);
                        },
                        Err(err) => {
                            proof {
                                assert(quote_seq(evs, (i + 1) as nat) == Err::<Seq<ValView>, ErrView>(err@));
                                lemma_quote_seq_stops(evs, (i + 1) as nat, evs.len());
                            }
                            return Err(err);
                        },
                    }
                    i = i + 1;
                }
                proof {
                    lemma_view_vals_ext(out@, quote_seq(evs, i as nat)->Ok_0);
                }
                Ok(RucketVal::ListV(out))
            },
        }
    }
}

pub proof fn lemma_quote_seq_stops(es: Seq<ExprView>, i: nat, n: nat)
    requires
        0 < i <= n <= es.len(),
        quote_seq(es, i) is Err,
    ensures
        quote_seq(es, n) == quote_seq(es, i),
    decreases n - i,
{
    if n > i {
        lemma_quote_seq_stops(es, i, (n - 1) as nat);
    }
}

/// Structural equality of two values: booleans, numbers, strings and symbols
/// by value (a symbol by its text), void equals void, lists element by
/// element, extension objects when both are of the same type and hold equal
/// payloads. Values of different kinds are never equal; functions and boxes
/// have no structure to compare and are never equal either.
pub open spec fn equals_spec(a: ValView, b: ValView) -> bool
    decreases a, 0nat,
{
    match (a, b) {
        (ValView::Bool(x), ValView::Bool(y)) => x == y,
        (ValView::Num(x), ValView::Num(y)) => x == y,
        (ValView::Str(x), ValView::Str(y)) => x == y,
        (ValView::Sym(x), ValView::Sym(y)) => x == y,
        (ValView::Void, ValView::Void) => true,
        (ValView::List(xs), ValView::List(ys)) => xs.len() == ys.len() && equals_seq(
            xs,
            ys,
            xs.len(),
        ),
        (ValView::Custom(n1, p1), ValView::Custom(n2, p2)) => n1 == n2 && p1 == p2,
        _ => false,
    }
}

/// The first `n` items of `xs` and `ys` are pairwise equal.
pub open spec fn equals_seq(xs: Seq<ValView>, ys: Seq<ValView>, n: nat) -> bool
    decreases xs, n,
{
    if n == 0 {
        true
    } else if n > xs.len() || n > ys.len() {
        false
    } else {
        equals_seq(xs, ys, (n - 1) as nat) && equals_spec(xs[n - 1], ys[n - 1])
    }
}

/// Structural equality (see `equals_spec`).
pub fn equals(a: &RucketVal, b: &RucketVal) -> (r: bool)
    ensures
        r == equals_spec(a@, b@),
    decreases a@,
{
    match (a, b) {
        (RucketVal::BoolV(x), RucketVal::BoolV(y)) => *x == *y,
        (RucketVal::NumV(x), RucketVal::NumV(y)) => *x == *y,
        (RucketVal::StringV(x), RucketVal::StringV(y)) => *x == *y,
        (RucketVal::SymbolV(x), RucketVal::SymbolV(y)) => *x == *y,
        (RucketVal::Void, RucketVal::Void) => true,
        (RucketVal::ListV(xs), RucketVal::ListV(ys)) => {
            proof {
                lemma_view_vals_len(xs@, xs@.len() as nat);
                lemma_view_vals_len(ys@, ys@.len() as nat);
            }
            if xs.len() != ys.len() {
                return false;
            }
            let ghost xv = view_vals(xs@, xs@.len() as nat);
            let ghost yv = view_vals(ys@, ys@.len() as nat);
            let mut i: usize = 0;
            while i < xs.len()
                invariant
                    *a == RucketVal::ListV(*xs),
                    *b == RucketVal::ListV(*ys),
                    xs@.len() == ys@.len(),
                    xv == view_vals(xs@, xs@.len() as nat),
                    yv == view_vals(ys@, ys@.len() as nat),
                    xv.len() == xs@.len(),
                    yv.len() == ys@.len(),
                    forall|k: int| 0 <= k < xv.len() ==> #[trigger] xv[k] == xs@[k]@,
                    forall|k: int| 0 <= k < yv.len() ==> #[trigger] yv[k] == ys@[k]@,
                    i <= xs@.len(),
                    equals_seq(xv, yv, i as nat),
                decreases xs@.len() - i,
            {
                proof {
                    assert(a@ == ValView::List(xv));
                    let av = a@;
                    assert(decreases_to!(av => av->List_0));
                    assert(decreases_to!(xv => xv[i as int]));
                    assert(decreases_to!(a@ => xs[i as int]@));
                }
                if !equals(&xs[i], &ys[i]) {
                    proof {
                        assert(!equals_seq(xv, yv, (i + 1) as nat));
                        lemma_equals_seq_stops(xv, yv, (i + 1) as nat, xv.len());
                        assert(a@ == ValView::List(xv));
                        assert(b@ == ValView::List(yv));
                    }
                    return false;
                }
                i = i + 1;
            }
            proof {
                assert(a@ == ValView::List(xv));
                assert(b@ == ValView::List(yv));
            }
            true
        },
        (RucketVal::Custom(x), RucketVal::Custom(y)) => x.kind_name == y.kind_name && x.payload
            == y.payload,
        _ => false,
    }
}

pub proof fn lemma_equals_seq_stops(xs: Seq<ValView>, ys: Seq<ValView>, i: nat, n: nat)
    requires
        0 < i <= n,
        !equals_seq(xs, ys, i),
    ensures
        !equals_seq(xs, ys, n),
    decreases n - i,
{
    if n > i {
        lemma_equals_seq_stops(xs, ys, i, (n - 1) as nat);
    }
}

/// Lexicographic order of two character sequences.
pub open spec fn lex_cmp(a: Seq<char>, b: Seq<char>) -> Ordering
    decreases a.len(),
{
    if a.len() == 0 {
        if b.len() == 0 {
            Ordering::Equal
        } else {
            Ordering::Less
        }
    } else if b.len() == 0 {
        Ordering::Greater
    } else if (a[0] as u32) < (b[0] as u32) {
        Ordering::Less
    } else if (a[0] as u32) > (b[0] as u32) {
        Ordering::Greater
    } else {
        lex_cmp(a.drop_first(), b.drop_first())
    }
}

/// Order of two values: defined for two numbers and for two strings only.
pub open spec fn compare_spec(a: ValView, b: ValView) -> Result<Ordering, ErrView> {
    match (a, b) {
        (ValView::Num(x), ValView::Num(y)) => Ok(
            if x < y {
                Ordering::Less
            } else if x > y {
                Ordering::Greater
            } else {
                Ordering::Equal
            },
        ),
        (ValView::Str(x), ValView::Str(y)) => Ok(lex_cmp(x, y)),
        _ => Err(ErrView::TypeMismatch),
    }
}

/// Orders two numbers or two strings; any other pair is a type mismatch.
pub fn compare(a: &RucketVal, b: &RucketVal) -> (r: Result<Ordering, RucketErr>)
    ensures
        match r {
            Ok(o) => compare_spec(a@, b@) == Ok::<Ordering, ErrView>(o),
            Err(e) => compare_spec(a@, b@) == Err::<Ordering, ErrView>(e@),
        },
{
    match (a, b) {
        (RucketVal::NumV(x), RucketVal::NumV(y)) => {
            if *x < *y {
                Ok(Ordering::Less)
            } else if *x > *y {
                Ok(Ordering::Greater)
            } else {
                Ok(Ordering::Equal)
            }
        },
        (RucketVal::StringV(x), RucketVal::StringV(y)) => Ok(compare_strings(x, y)),
        _ => Err(RucketErr::TypeMismatch),
    }
}

fn compare_strings(x: &String, y: &String) -> (r: Ordering)
    ensures
        r == lex_cmp(x@, y@),
{
    let xs = x.as_str();
    let ys = y.as_str();
    let xn = xs.unicode_len();
    let yn = ys.unicode_len();
    let mut i: usize = 0;
    assert(x@.subrange(0, xn as int) =~= x@);
    assert(y@.subrange(0, yn as int) =~= y@);
    while i < xn && i < yn
        invariant
            xn == xs@.len(),
            yn == ys@.len(),
            xs@ == x@,
            ys@ == y@,
            i <= xn,
            i <= yn,
            lex_cmp(x@, y@) == lex_cmp(x@.subrange(i as int, xn as int), y@.subrange(i as int, yn as int)),
        decreases xn - i,
    {
        let c = xs.get_char(i);
        let d = ys.get_char(i);
        let ghost a = x@.subrange(i as int, xn as int);
        let ghost b = y@.subrange(i as int, yn as int);
        if (c as u32) < (d as u32) {
            return Ordering::Less;
        }
        if (c as u32) > (d as u32) {
            return Ordering::Greater;
        }
        proof {
            assert(a.drop_first() =~= x@.subrange(i + 1, xn as int));
            assert(b.drop_first() =~= y@.subrange(i + 1, yn as int));
        }
        i = i + 1;
    }
    if i < xn {
        Ordering::Greater
    } else if i < yn {
        Ordering::Less
    } else {
        Ordering::Equal
    }
}

} // verus!
