use vstd::prelude::*;
use vstd::string::*;
use crate::value::{RucketVal, ValView, view_vals, lemma_view_vals_len};

verus! {

pub open spec fn digit_char(d: nat) -> char {
    seq!['0', '1', '2', '3', '4', '5', '6', '7', '8', '9'][d as int]
}

/// Decimal digits of a natural number, most significant first.
pub open spec fn nat_digits(n: nat) -> Seq<char>
    decreases n,
{
    if n < 10 {
        seq![digit_char(n)]
    } else {
        nat_digits(n / 10).push(digit_char(n % 10))
    }
}

/// Decimal text of an integer, with a leading `-` when it is negative.
pub open spec fn decimal(n: int) -> Seq<char> {
    if n < 0 {
        seq!['-'] + nat_digits((-n) as nat)
    } else {
        nat_digits(n as nat)
    }
}

/// Text of a value as it appears inside a list: no leading quote mark.
pub open spec fn show(v: ValView) -> Seq<char>
    decreases v, 0nat,
{
    match v {
        ValView::Bool(b) => if b {
            "#true"@
        } else {
            "#false"@
        },
        ValView::Num(n) => decimal(n),
        ValView::Str(s) => seq!['"'] + s + seq!['"'],
        ValView::Prim(_) => "Function"@,
        ValView::Closure(_, _, _) => "Lambda Function"@,
        ValView::Void => "Void"@,
        ValView::Sym(s) => s,
        ValView::Boxed(_) => "Box"@,
        ValView::List(vs) => seq!['('] + show_items(vs, vs.len()) + seq![')'],
        ValView::Custom(name, _) => "Custom Type: "@ + name,
    }
}

/// The first `n` items of `vs`, shown and separated by single spaces.
pub open spec fn show_items(vs: Seq<ValView>, n: nat) -> Seq<char>
    decreases vs, n,
{
    if n == 0 || n > vs.len() {
        Seq::empty()
    } else if n == 1 {
        show(vs[0])
    } else {
        show_items(vs, (n - 1) as nat) + seq![' '] + show(vs[n - 1])
    }
}

/// Text of a value printed as a result: a symbol or a list gets a leading `'`.
pub open spec fn show_top(v: ValView) -> Seq<char> {
    match v {
        ValView::Sym(_) | ValView::List(_) => seq!['\''] + show(v),
        _ => show(v),
    }
}

/// Relies on `String`'s `FromIterator<char>`: the string holds the chars in order.
#[verifier::external_body]
fn chars_to_string(cs: &Vec<char>) -> (r: String)
    ensures
        r@ == cs@,
{
    cs.iter().collect()
}

fn push_str(out: &mut Vec<char>, s: &str)
    ensures
        final(out)@ == old(out)@ + s@,
{
    let n = s.unicode_len();
    let mut i: usize = 0;
    while i < n
        invariant
            n == s@.len(),
            i <= n,
            out@ == old(out)@ + s@.subrange(0, i as int),
        decreases n - i,
    {
        out.push(s.get_char(i));
        i = i + 1;
        assert(out@ =~= old(out)@ + s@.subrange(0, i as int));
    }
    assert(s@.subrange(0, n as int) =~= s@);
}

fn push_digit(out: &mut Vec<char>, d: u64)
    requires
        d < 10,
    ensures
        final(out)@ == old(out)@.push(digit_char(d as nat)),
{
    let c = if d == 0 {
        '0'
    } else if d == 1 {
        '1'
    } else if d == 2 {
        '2'
    } else if d == 3 {
        '3'
    } else if d == 4 {
        '4'
    } else if d == 5 {
        '5'
    } else if d == 6 {
        '6'
    } else if d == 7 {
        '7'
    } else if d == 8 {
        '8'
    } else {
        '9'
    };
    out.push(c);
}

fn push_nat(out: &mut Vec<char>, n: u64)
    ensures
        final(out)@ == old(out)@ + nat_digits(n as nat),
    decreases n,
{
    if n < 10 {
        push_digit(out, n);
        assert(out@ =~= old(out)@ + nat_digits(n as nat));
    } else {
        push_nat(out, n / 10);
        push_digit(out, n % 10);
        assert(out@ =~= old(out)@ + nat_digits(n as nat));
    }
}

fn push_decimal(out: &mut Vec<char>, n: i64)
    ensures
        final(out)@ == old(out)@ + decimal(n as int),
{
    if n < 0 {
        out.push('-');
        let m: u64 = (0i128 - (n as i128)) as u64;
        push_nat(out, m);
        assert(out@ =~= old(out)@ + decimal(n as int));
    } else {
        push_nat(out, n as u64);
    }
}

fn push_val(out: &mut Vec<char>, v: &RucketVal)
    ensures
        final(out)@ == old(out)@ + show(v@),
    decreases v@,
{
    match v {
        RucketVal::BoolV(b) => {
            if *b {
                push_str(out, "#true");
            } else {
                push_str(out, "#false");
            }
        },
        RucketVal::NumV(n) => push_decimal(out, *n),
        RucketVal::StringV(s) => {
            out.push('"');
            push_str(out, s.as_str());
            out.push('"');
            assert(out@ =~= old(out)@ + show(v@));
        },
        RucketVal::FuncV(_) => push_str(out, "Function"),
        RucketVal::LambdaV(_) => push_str(out, "Lambda Function"),
        RucketVal::Void => push_str(out, "Void"),
        RucketVal::SymbolV(s) => push_str(out, s.as_str()),
        RucketVal::BoxV(_) => push_str(out, "Box"),
        RucketVal::Custom(x) => {
            push_str(out, "Custom Type: ");
            push_str(out, x.kind_name.as_str());
            assert(out@ =~= old(out)@ + show(v@));
        },
        RucketVal::ListV(items) => {
            let ghost vs = view_vals(items@, items@.len() as nat);
            proof {
                lemma_view_vals_len(items@, items@.len() as nat);
                assert(v@ == ValView::List(vs));
            }
            out.push('(');
            let ghost start = out@;
            let mut i: usize = 0;
            while i < items.len()
                invariant
                    *v == RucketVal::ListV(*items),
                    v@ == ValView::List(vs),
                    vs == view_vals(items@, items@.len() as nat),
                    vs.len() == items@.len(),
                    forall|k: int| 0 <= k < vs.len() ==> #[trigger] vs[k] == items@[k]@,
                    i <= items@.len(),
                    out@ == start + show_items(vs, i as nat),
                decreases items@.len() - i,
            {
                proof {
                    let vv = v@;
                    assert(decreases_to!(vv => vv->List_0));
                    assert(decreases_to!(vs => vs[i as int]));
                }
                if i > 0 {
                    out.push(' ');
                }
                push_val(out, &items[i]);
                i = i + 1;
                assert(out@ =~= start + show_items(vs, i as nat));
            }
            out.push(')');
            assert(out@ =~= old(out)@ + show(v@));
        },
    }
}

impl RucketVal {
    /// The printed form of a value as a result (see `show_top`).
    pub fn to_string(&self) -> (r: String)
        ensures
            r@ == show_top(self@),
    {
        let mut out: Vec<char> = Vec::new();
        match self {
            RucketVal::SymbolV(_) | RucketVal::ListV(_) => out.push('\''),
            _ => {},
        }
        push_val(&mut out, self);
        assert(out@ =~= show_top(self@));
        chars_to_string(&out)
    }
}

} // verus!
