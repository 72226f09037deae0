//! Values of evaluated Fjord code, and the arithmetic on them.

use vstd::prelude::*;

use crate::tree::{elem_view, ElemV, SyntaxElement};

verus! {

/// Relies on `String::push` of std: appends the one character to the
/// end of the string.
pub assume_specification[ String::push ](s: &mut String, c: char)
    ensures
        final(s)@ == old(s)@.push(c),
;

/// The run-time type tag of a value, as error reports name it.
#[derive(Debug, Clone, Copy, PartialEq, Eq, Structural)]
pub enum Ty {
    /// the nil value
    Nil,
    /// a number
    Number,
    /// a string
    Str,
    /// a boolean
    Bool,
    /// a lambda
    Lambda,
}

/// A value: the result of evaluating an expression.
#[derive(Debug)]
pub enum Val {
    /// the value of a binding definition, an empty sequence, or a
    /// completed command
    Nil,
    /// an integer
    Number(i64),
    /// a piece of text
    Str(String),
    /// a boolean
    Bool(bool),
    /// a lambda: the whole `Lambda` syntax node that wrote it down
    Lambda(SyntaxElement),
}

/// The mathematical shape of a value.
pub enum ValV {
    /// the nil value
    Nil,
    /// an integer
    Num(i64),
    /// a piece of text
    Str(Seq<char>),
    /// a boolean
    Bool(bool),
    /// a lambda: the shape of its `Lambda` syntax node
    Lambda(ElemV),
}

/// The mathematical shape of a value.
pub open spec fn val_view(v: Val) -> ValV {
    match v {
        Val::Nil => ValV::Nil,
        Val::Number(n) => ValV::Num(n),
        Val::Str(s) => ValV::Str(s@),
        Val::Bool(b) => ValV::Bool(b),
        Val::Lambda(e) => ValV::Lambda(elem_view(e)),
    }
}

impl View for Val {
    type V = ValV;

    open spec fn view(&self) -> ValV {
        val_view(*self)
    }
}

impl DeepView for Val {
    type V = ValV;

    open spec fn deep_view(&self) -> ValV {
        val_view(*self)
    }
}

impl ValV {
    /// The type tag of a value.
    pub open spec fn ty(self) -> Ty {
        match self {
            ValV::Nil => Ty::Nil,
            ValV::Num(..) => Ty::Number,
            ValV::Str(..) => Ty::Str,
            ValV::Bool(..) => Ty::Bool,
            ValV::Lambda(..) => Ty::Lambda,
        }
    }
}

impl Val {
    /// The type tag of the value.
    pub fn ty(&self) -> (t: Ty)
        ensures
            t == self@.ty(),
    {
        match self {
            Val::Nil => Ty::Nil,
            Val::Number(..) => Ty::Number,
            Val::Str(..) => Ty::Str,
            Val::Bool(..) => Ty::Bool,
            Val::Lambda(..) => Ty::Lambda,
        }
    }
}

impl Val {
    /// Copies the value, a lambda's whole syntax node included.
    pub fn dup(&self) -> (r: Val)
        ensures
            r@ == self@,
    {
        match self {
            Val::Nil => Val::Nil,
            Val::Number(n) => Val::Number(*n),
            Val::Str(s) => Val::Str(s.clone()),
            Val::Bool(b) => Val::Bool(*b),
            Val::Lambda(e) => Val::Lambda(e.deep_clone()),
        }
    }
}

/// The decimal digits of a nonnegative number, most significant first.
pub open spec fn dec_digits(n: int) -> Seq<char>
    decreases n,
{
    if n < 0 {
        Seq::empty()
    } else if n < 10 {
        seq![((48 + n) as u8) as char]
    } else {
        dec_digits(n / 10) + seq![((48 + n % 10) as u8) as char]
    }
}

/// The decimal rendering of a number, a minus sign first when negative.
pub open spec fn dec_str_i64(n: i64) -> Seq<char> {
    if n < 0 {
        seq!['-'] + dec_digits(-(n as int))
    } else {
        dec_digits(n as int)
    }
}

/// Renders a nonnegative number in decimal.
pub(crate) fn render_u64(n: u64) -> (r: String)
    ensures
        r@ == dec_digits(n as int),
    decreases n,
{
    if n < 10 {
        let d: u8 = 48 + (n as u8);
        let mut s = String::new();
        s.push(d as char);
        proof {
            assert(s@ =~= dec_digits(n as int));
        }
        s
    } else {
        let mut s = render_u64(n / 10);
        let d: u8 = 48 + ((n % 10) as u8);
        s.push(d as char);
        proof {
            assert(s@ =~= dec_digits(n as int));
        }
        s
    }
}

/// Renders a number in decimal, with a leading minus sign when
/// negative.
pub fn render_i64(n: i64) -> (r: String)
    ensures
        r@ == dec_str_i64(n),
{
    if n >= 0 {
        render_u64(n as u64)
    } else {
        let mag: u64 = if n == i64::MIN {
            9223372036854775808u64
        } else {
            (-n) as u64
        };
        let mut s = String::new();
        s.push('-');
        let digits = render_u64(mag);
        s.append(digits.as_str());
        proof {
            assert(s@ =~= dec_str_i64(n));
        }
        s
    }
}

impl Val {
    /// The textual form a value shows a command as an argument: numbers
    /// in decimal, strings as they are; nil, booleans and lambdas have
    /// none.
    pub open spec fn display_repr_spec(self) -> Option<Seq<char>> {
        match self@ {
            ValV::Num(n) => Some(dec_str_i64(n)),
            ValV::Str(s) => Some(s),
            _ => None,
        }
    }

    /// The textual form a value shows a command as an argument.
    pub fn display_repr(&self) -> (r: Option<String>)
        ensures
            match r {
                Some(s) => self.display_repr_spec() == Some(s@),
                None => self.display_repr_spec() is None,
            },
    {
        match self {
            Val::Number(n) => Some(render_i64(*n)),
            Val::Str(s) => Some(s.clone()),
            _ => None,
        }
    }
}

/// One step of the wrapping decimal fold: the running value times ten,
/// plus the next digit, kept to sixty-four bits.
pub open spec fn digits_step(acc: u64, d: int) -> u64 {
    (((acc * 10) + d) % 0x1_0000_0000_0000_0000) as u64
}

/// The value of one digit character; any other character counts zero.
pub open spec fn digit_of(c: char) -> int {
    if 48 <= c as u32 && c as u32 <= 57 {
        c as u32 - 48
    } else {
        0
    }
}

/// The wrapping decimal value of the characters from `i` on.
pub open spec fn digits_fold(s: Seq<char>, i: int, acc: u64) -> u64
    decreases s.len() - i,
{
    if i < 0 || i >= s.len() {
        acc
    } else {
        digits_fold(s, i + 1, digits_step(acc, digit_of(s[i])))
    }
}

/// The two's-complement reading of a sixty-four-bit quantity.
pub open spec fn signed_of(u: u64) -> i64 {
    if u < 0x8000_0000_0000_0000 {
        u as i64
    } else {
        (u - 0x1_0000_0000_0000_0000) as i64
    }
}

/// The number a run of digits denotes, wrapped to sixty-four bits.
pub open spec fn digits_value(s: Seq<char>) -> i64 {
    signed_of(digits_fold(s, 0, 0))
}

/// Reads a digit run as a number, wrapping on overflow.
pub fn parse_digits(s: &str) -> (r: i64)
    ensures
        r == digits_value(s@),
{
    let n = s.unicode_len();
    let mut acc: u64 = 0;
    let mut i: usize = 0;
    while i < n
        invariant
            n == s@.len(),
            i <= n,
            digits_fold(s@, 0, 0) == digits_fold(s@, i as int, acc),
        decreases n - i,
    {
        let c = s.get_char(i);
        let u = c as u32;
        let d: u64 = if 48 <= u && u <= 57 {
            (u - 48) as u64
        } else {
            0
        };
        let t: u128 = (acc as u128) * 10 + (d as u128);
        let m: u128 = t % 0x1_0000_0000_0000_0000u128;
        let next: u64 = m as u64;
        proof {
            assert(d == digit_of(s@[i as int]));
            assert(next == digits_step(acc, digit_of(s@[i as int])));
        }
        acc = next;
        i = i + 1;
    }
    let r: i64 = if acc < 0x8000_0000_0000_0000u64 {
        acc as i64
    } else {
        -((u64::MAX - acc) as i64) - 1
    };
    proof {
        assert(r == signed_of(acc));
    }
    r
}

/// Addition as the language defines it: wrapping at sixty-four bits.
pub open spec fn num_add(a: i64, b: i64) -> i64 {
    vstd::wrapping::i64_specs::wrapping_add(a, b)
}

/// Subtraction as the language defines it: wrapping at sixty-four bits.
pub open spec fn num_sub(a: i64, b: i64) -> i64 {
    vstd::wrapping::i64_specs::wrapping_sub(a, b)
}

/// Multiplication as the language defines it: wrapping at sixty-four
/// bits.
pub open spec fn num_mul(a: i64, b: i64) -> i64 {
    vstd::wrapping::i64_specs::wrapping_mul(a, b)
}

/// Division as the language defines it: truncated toward zero, with
/// the one wrapping case at the smallest number divided by minus one.
pub open spec fn num_div(a: i64, b: i64) -> i64 {
    if a == i64::MIN && b == -1 {
        i64::MIN
    } else {
        let m = abs_i64(a) / abs_i64(b);
        if (a < 0) == (b < 0) {
            m as i64
        } else {
            (-m) as i64
        }
    }
}

/// The magnitude of a number.
pub open spec fn abs_i64(a: i64) -> int {
    if a < 0 {
        -(a as int)
    } else {
        a as int
    }
}

/// Adds two numbers, wrapping.
pub fn exec_num_add(a: i64, b: i64) -> (r: i64)
    ensures
        r == num_add(a, b),
{
    a.wrapping_add(b)
}

/// Subtracts two numbers, wrapping.
pub fn exec_num_sub(a: i64, b: i64) -> (r: i64)
    ensures
        r == num_sub(a, b),
{
    a.wrapping_sub(b)
}

/// Multiplies two numbers, wrapping.
pub fn exec_num_mul(a: i64, b: i64) -> (r: i64)
    ensures
        r == num_mul(a, b),
{
    a.wrapping_mul(b)
}

/// Divides two numbers, truncating toward zero.
pub fn exec_num_div(a: i64, b: i64) -> (r: i64)
    requires
        b != 0,
    ensures
        r == num_div(a, b),
{
    if a == i64::MIN && b == -1 {
        return i64::MIN;
    }
    let ua: u64 = if a == i64::MIN {
        9223372036854775808u64
    } else if a < 0 {
        (-a) as u64
    } else {
        a as u64
    };
    let ub: u64 = if b == i64::MIN {
        9223372036854775808u64
    } else if b < 0 {
        (-b) as u64
    } else {
        b as u64
    };
    let m: u64 = ua / ub;
    proof {
        assert(ua as int == abs_i64(a));
        assert(ub as int == abs_i64(b));
        assert(m as int == abs_i64(a) / abs_i64(b));
        assert(abs_i64(a) / abs_i64(b) <= abs_i64(a) / 1) by {
            vstd::arithmetic::div_mod::lemma_div_is_ordered_by_denominator(
                abs_i64(a),
                1,
                abs_i64(b),
            );
        }
        assert(m as int <= ua as int);
    }
    if m >= 0x8000_0000_0000_0000u64 {
        // only the smallest number divided by one gets this far
        proof {
            if ub >= 2 {
                vstd::arithmetic::div_mod::lemma_div_is_ordered_by_denominator(
                    ua as int,
                    2,
                    ub as int,
                );
                assert(m as int <= ua as int / 2);
                assert(false);
            }
            assert(ub == 1);
            assert(m as int == ua as int / 1);
            assert(ua == 0x8000_0000_0000_0000u64);
            assert(a == i64::MIN && b == 1);
        }
        i64::MIN
    } else if (a < 0) == (b < 0) {
        m as i64
    } else {
        -(m as i64)
    }
}

} // verus!
