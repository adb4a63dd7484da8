//! The typed value model of the recipe language: integers, byte strings and
//! lists of byte strings, together with rendering, truthiness, integer
//! coercion and ordering — the semantics every expression evaluates under.

use crate::text::bytes_eq;
use crate::text::dec_digits;
use crate::text::dec_int_val;
use crate::text::is_dec_int;
use crate::text::parse_int;
use crate::text::push_all;
use crate::text::u64_to_dec;
use vstd::prelude::*;

verus! {

/// A runtime value: an integer, a byte string, or a list of byte strings.
#[derive(Debug, Clone, PartialEq, Eq)]
pub enum Value {
    Int(i64),
    Str(Vec<u8>),
    List(Vec<Vec<u8>>),
}

/// The mathematical model of a `Value`.
pub enum ValueView {
    Int(int),
    Str(Seq<u8>),
    List(Seq<Seq<u8>>),
}

impl View for Value {
    type V = ValueView;

    open spec fn view(&self) -> ValueView {
        match self {
            Value::Int(n) => ValueView::Int(*n as int),
            Value::Str(s) => ValueView::Str(s@),
            Value::List(l) => ValueView::List(l.deep_view()),
        }
    }
}

/// The decimal rendering of an integer, with a leading minus sign when
/// negative.
pub open spec fn int_text(n: int) -> Seq<u8> {
    if n < 0 {
        seq![45u8] + dec_digits((-n) as nat)
    } else {
        dec_digits(n as nat)
    }
}

/// List items joined by single spaces.
pub open spec fn join_space(items: Seq<Seq<u8>>) -> Seq<u8>
    decreases items.len(),
{
    if items.len() == 0 {
        Seq::<u8>::empty()
    } else if items.len() == 1 {
        items[0]
    } else {
        join_space(items.drop_last()) + seq![32u8] + items.last()
    }
}

/// The textual rendering of a value: integers in decimal, strings as they
/// are, lists joined by spaces.
pub open spec fn render_spec(v: ValueView) -> Seq<u8> {
    match v {
        ValueView::Int(n) => int_text(n),
        ValueView::Str(s) => s,
        ValueView::List(l) => join_space(l),
    }
}

/// Truthiness: zero, the empty string and the empty list are false;
/// everything else is true.
pub open spec fn truthy(v: ValueView) -> bool {
    match v {
        ValueView::Int(n) => n != 0,
        ValueView::Str(s) => s.len() > 0,
        ValueView::List(l) => l.len() > 0,
    }
}

/// Integer coercion: integers are themselves; strings holding a decimal
/// literal give its value, other strings give 0; lists give their length
/// (capped at the machine's signed maximum).
pub open spec fn as_int_spec(v: ValueView) -> int {
    match v {
        ValueView::Int(n) => n,
        ValueView::Str(s) => if is_dec_int(s) {
            dec_int_val(s)
        } else {
            0
        },
        ValueView::List(l) => if l.len() <= 0x7fff_ffff_ffff_ffff {
            l.len() as int
        } else {
            0x7fff_ffff_ffff_ffff
        },
    }
}

/// The views of a sequence of values.
pub open spec fn vals_view(args: Seq<Value>) -> Seq<ValueView> {
    args.map_values(|v: Value| v@)
}

/// Lexicographic byte-string order.
pub open spec fn lex_lt(a: Seq<u8>, b: Seq<u8>) -> bool
    decreases a.len(),
{
    if b.len() == 0 {
        false
    } else if a.len() == 0 {
        true
    } else if a[0] < b[0] {
        true
    } else if a[0] > b[0] {
        false
    } else {
        lex_lt(a.skip(1), b.skip(1))
    }
}

/// Value equality: two values are equal when their renderings are equal.
pub open spec fn value_eq(a: ValueView, b: ValueView) -> bool {
    render_spec(a) == render_spec(b)
}

/// Value order: numeric between two integers, lexicographic on renderings
/// otherwise.
pub open spec fn value_lt(a: ValueView, b: ValueView) -> bool {
    match (a, b) {
        (ValueView::Int(x), ValueView::Int(y)) => x < y,
        _ => lex_lt(render_spec(a), render_spec(b)),
    }
}

/// Lexicographic byte-string comparison.
pub fn bytes_lt(a: &[u8], b: &[u8]) -> (r: bool)
    ensures
        r == lex_lt(a@, b@),
{
    let mut i: usize = 0;
    proof {
        assert(a@.skip(0) =~= a@);
        assert(b@.skip(0) =~= b@);
    }
    while i < a.len() && i < b.len()
        invariant
            i <= a.len(),
            i <= b.len(),
            lex_lt(a@, b@) == lex_lt(a@.skip(i as int), b@.skip(i as int)),
        decreases a.len() - i,
    {
        if a[i] < b[i] {
            return true;
        }
        if a[i] > b[i] {
            return false;
        }
        proof {
            assert(a@.skip(i as int).skip(1) =~= a@.skip(i + 1));
            assert(b@.skip(i as int).skip(1) =~= b@.skip(i + 1));
        }
        i += 1;
    }
    a.len() < b.len()
}

impl Value {
    /// True when the value counts as true in a condition.
    pub fn is_truthy(&self) -> (r: bool)
        ensures
            r == truthy(self@),
    {
        match self {
            Value::Int(n) => *n != 0,
            Value::Str(s) => s.len() > 0,
            Value::List(l) => l.len() > 0,
        }
    }

    /// The value coerced to an integer.
    pub fn as_int(&self) -> (r: i64)
        ensures
            r as int == as_int_spec(self@),
    {
        match self {
            Value::Int(n) => *n,
            Value::Str(s) => match parse_int(s.as_slice()) {
                Some(v) => v,
                None => 0,
            },
            Value::List(l) => {
                let len64: u64 = l.len() as u64;
                if len64 <= 0x7fff_ffff_ffff_ffff {
                    len64 as i64
                } else {
                    0x7fff_ffff_ffff_ffff
                }
            },
        }
    }

    /// The textual rendering of the value.
    pub fn render(&self) -> (r: Vec<u8>)
        ensures
            r@ == render_spec(self@),
    {
        match self {
            Value::Int(n) => render_int(*n),
            Value::Str(s) => s.clone(),
            Value::List(l) => {
                let mut r: Vec<u8> = Vec::new();
                let mut i: usize = 0;
                while i < l.len()
                    invariant
                        i <= l.len(),
                        r@ == join_space(l.deep_view().subrange(0, i as int)),
                    decreases l.len() - i,
                {
                    if i > 0 {
                        r.push(32);
                    }
                    push_all(&mut r, l[i].as_slice());
                    proof {
                        let lv = l.deep_view();
                        assert(lv.subrange(0, (i + 1) as int).drop_last() =~= lv.subrange(
                            0,
                            i as int,
                        ));
                        assert(lv.subrange(0, (i + 1) as int).last() == lv[i as int]);
                        assert(lv[i as int] == l[i as int]@);
                    }
                    i += 1;
                }
                proof {
                    assert(l.deep_view().subrange(0, l.deep_view().len() as int) =~= l.deep_view());
                }
                r
            },
        }
    }

    /// An exact copy of the value.
    pub fn duplicate(&self) -> (r: Value)
        ensures
            r@ == self@,
    {
        match self {
            Value::Int(n) => Value::Int(*n),
            Value::Str(s) => Value::Str(s.clone()),
            Value::List(l) => {
                let mut out: Vec<Vec<u8>> = Vec::new();
                let mut i: usize = 0;
                while i < l.len()
                    invariant
                        i <= l.len(),
                        out.deep_view() =~~= l.deep_view().subrange(0, i as int),
                    decreases l.len() - i,
                {
                    out.push(l[i].clone());
                    proof {
                        assert(out.deep_view() =~~= l.deep_view().subrange(0, i + 1));
                    }
                    i += 1;
                }
                proof {
                    assert(l.deep_view().subrange(0, l.deep_view().len() as int) =~~= l.deep_view());
                }
                Value::List(out)
            },
        }
    }

    /// True when the two values are equal (their renderings coincide).
    pub fn eq_value(&self, other: &Value) -> (r: bool)
        ensures
            r == value_eq(self@, other@),
    {
        let a = self.render();
        let b = other.render();
        bytes_eq(a.as_slice(), b.as_slice())
    }

    /// True when `self` orders strictly before `other`.
    pub fn lt_value(&self, other: &Value) -> (r: bool)
        ensures
            r == value_lt(self@, other@),
    {
        match (self, other) {
            (Value::Int(x), Value::Int(y)) => *x < *y,
            _ => {
                let a = self.render();
                let b = other.render();
                bytes_lt(a.as_slice(), b.as_slice())
            },
        }
    }
}

/// Renders an integer in decimal, with a leading minus sign when negative.
pub fn render_int(n: i64) -> (r: Vec<u8>)
    ensures
        r@ == int_text(n as int),
{
    if n >= 0 {
        let digits = u64_to_dec(n as u64);
        digits
    } else {
        let magnitude: u64 = (-(n as i128)) as u64;
        proof {
            assert(magnitude as nat == (-(n as int)) as nat);
        }
        let mut r: Vec<u8> = Vec::new();
        r.push(45);
        let digits = u64_to_dec(magnitude);
        push_all(&mut r, digits.as_slice());
        proof {
            assert(seq![45u8] + dec_digits((-(n as int)) as nat) =~= r@);
        }
        r
    }
}

} // verus!
