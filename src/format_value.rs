use vstd::prelude::*;

use crate::text::{push_all, push_char};
use crate::value::{FloatArith, Primitive};

verus! {

#[derive(Debug, Clone, Copy, PartialEq, Eq)]
pub enum Radix {
    Binary,
    Octal,
    Decimal,
    Hexadecimal,
}

pub open spec fn radix_value(r: Radix) -> nat {
    match r {
        Radix::Binary => 2,
        Radix::Octal => 8,
        Radix::Decimal => 10,
        Radix::Hexadecimal => 16,
    }
}

pub open spec fn radix_prefix(r: Radix) -> Seq<char> {
    match r {
        Radix::Binary => seq!['0', 'b'],
        Radix::Octal => seq!['0', 'o'],
        Radix::Decimal => seq![],
        Radix::Hexadecimal => seq!['0', 'x'],
    }
}

impl Radix {
    pub fn value(self) -> (r: u32)
        ensures
            r == radix_value(self),
    {
        match self {
            Radix::Binary => 2,
            Radix::Octal => 8,
            Radix::Decimal => 10,
            Radix::Hexadecimal => 16,
        }
    }

    pub fn prefix(self) -> (r: &'static str)
        ensures
            r@ == radix_prefix(self),
    {
        proof {
            reveal_strlit("0b");
            reveal_strlit("0o");
            reveal_strlit("");
            reveal_strlit("0x");
        }
        match self {
            Radix::Binary => "0b",
            Radix::Octal => "0o",
            Radix::Decimal => "",
            Radix::Hexadecimal => "0x",
        }
    }
}

impl Default for Radix {
    fn default() -> (r: Self)
        ensures
            r == Radix::Decimal,
    {
        Radix::Decimal
    }
}

/// The lower-case character of a digit.
pub open spec fn digit_char(d: int) -> char {
    if d < 10 {
        (d + 48) as char
    } else {
        (d + 87) as char
    }
}

/// The digits of `v` in the base, most significant first; none for zero.
pub open spec fn digits_of(v: nat, base: nat) -> Seq<char>
    decreases v
    via digits_of_decreases
{
    if v == 0 || base < 2 {
        seq![]
    } else {
        digits_of(v / base, base).push(digit_char((v % base) as int))
    }
}

#[via_fn]
proof fn digits_of_decreases(v: nat, base: nat) {
    if v != 0 && base >= 2 {
        assert(v / base < v) by (nonlinear_arith)
            requires
                v > 0,
                base >= 2,
        ;
    }
}

/// `d` with zeros in front up to `w` characters.
pub open spec fn padded(d: Seq<char>, w: nat) -> Seq<char>
    decreases w - d.len(),
{
    if d.len() >= w {
        d
    } else {
        padded(seq!['0'] + d, w)
    }
}

/// `d` with `_` between every `n` characters, counted from the right.
pub open spec fn grouped(d: Seq<char>, n: nat) -> Seq<char>
    decreases d.len(),
{
    if n == 0 || d.len() <= n {
        d
    } else {
        grouped(d.subrange(0, d.len() - n), n) + seq!['_'] + d.subrange(d.len() - n, d.len() as int)
    }
}

pub open spec fn magnitude(i: i128) -> nat {
    if i < 0 {
        (-(i as int)) as nat
    } else {
        i as nat
    }
}

pub open spec fn sign_text(i: i128) -> Seq<char> {
    if i < 0 {
        seq!['-']
    } else {
        seq![]
    }
}

/// How an integer is written: in a radix, with `_` between every
/// `underscores` digits, zero-padded to `zero_pad` digits, with or without
/// the radix prefix.
#[derive(Debug, Clone, Copy, PartialEq, Eq)]
pub struct IntegerFormat {
    pub radix: Radix,
    pub underscores: u8,
    pub zero_pad: u8,
    pub omit_prefix: bool,
}

impl Default for IntegerFormat {
    fn default() -> (r: Self)
        ensures
            r == (IntegerFormat { radix: Radix::Decimal, underscores: 0, zero_pad: 0, omit_prefix: false }),
    {
        IntegerFormat { radix: Radix::Decimal, underscores: 0, zero_pad: 0, omit_prefix: false }
    }
}

pub open spec fn integer_text(f: IntegerFormat, i: i128) -> Seq<char> {
    sign_text(i) + (if f.omit_prefix {
        seq![]
    } else {
        radix_prefix(f.radix)
    }) + grouped(
        padded(digits_of(magnitude(i), radix_value(f.radix)), f.zero_pad as nat),
        f.underscores as nat,
    )
}

fn digit_to_char(d: u32) -> (c: char)
    requires
        d < 16,
    ensures
        c == digit_char(d as int),
{
    if d < 10 {
        ((d + 48) as u8) as char
    } else {
        ((d + 87) as u8) as char
    }
}

/// The digits of `v` in the base, most significant first.
pub(crate) fn digits(v: u128, base: u32) -> (r: Vec<char>)
    requires
        2 <= base <= 16,
    ensures
        r@ == digits_of(v as nat, base as nat),
{
    let mut ds: Vec<char> = Vec::new();
    let mut m = v;
    while m > 0
        invariant
            2 <= base <= 16,
            digits_of(v as nat, base as nat) == digits_of(m as nat, base as nat) + ds@,
        decreases m,
    {
        let d = (m % (base as u128)) as u32;
        let c = digit_to_char(d);
        proof {
            assert(digits_of(m as nat, base as nat) == digits_of((m / (base as u128)) as nat, base as nat).push(c));
            assert(digits_of((m / (base as u128)) as nat, base as nat).push(c) + ds@ =~= digits_of((m / (base as u128)) as nat, base as nat) + seq![c].add(ds@));
        }
        let ghost before = ds@;
        ds.insert(0, c);
        assert(ds@ =~= seq![c].add(before));
        m = m / (base as u128);
    }
    assert(digits_of(m as nat, base as nat) + ds@ =~= ds@);
    ds
}

fn magnitude_of(i: i128) -> (r: u128)
    ensures
        r == magnitude(i),
{
    if i < 0 {
        if i == i128::MIN {
            0x8000_0000_0000_0000_0000_0000_0000_0000u128
        } else {
            (-i) as u128
        }
    } else {
        i as u128
    }
}

impl IntegerFormat {
    pub fn format(&self, integer: i128) -> (r: String)
        ensures
            r@ == integer_text(*self, integer),
    {
        let negative = integer < 0;
        let mut ds = digits(magnitude_of(integer), self.radix.value());
        let ghost d0 = ds@;
        let width = self.zero_pad as usize;
        while ds.len() < width
            invariant
                padded(d0, width as nat) == padded(ds@, width as nat),
            decreases width - ds.len(),
        {
            let ghost before = ds@;
            ds.insert(0, '0');
            assert(ds@ =~= seq!['0'] + before);
        }
        let ghost p = ds@;
        let n = self.underscores as usize;
        if n != 0 {
            let mut i = ds.len();
            let ghost mut tail: Seq<char> = seq![];
            assert(p.subrange(0, i as int) =~= p);
            assert(ds@ =~= p.subrange(0, i as int) + tail);
            while i > n
                invariant
                    n > 0,
                    i <= p.len(),
                    ds@ == p.subrange(0, i as int) + tail,
                    grouped(p, n as nat) == grouped(p.subrange(0, i as int), n as nat) + tail,
                decreases i,
            {
                i -= n;
                let ghost chunk = p.subrange(i as int, i + n);
                proof {
                    let q = p.subrange(0, i + n);
                    assert(q.subrange(0, q.len() - n) =~= p.subrange(0, i as int));
                    assert(q.subrange(q.len() - n, q.len() as int) =~= chunk);
                }
                ds.insert(i, '_');
                proof {
                    assert(ds@ =~= p.subrange(0, i as int) + (seq!['_'] + chunk + tail));
                    assert(grouped(p, n as nat) =~= grouped(p.subrange(0, i as int), n as nat) + (seq!['_'] + chunk + tail));
                    tail = seq!['_'] + chunk + tail;
                }
            }
        }
        let mut result = String::new();
        if negative {
            push_char(&mut result, '-');
        }
        if !self.omit_prefix {
            result.append(self.radix.prefix());
        }
        push_all(&mut result, &ds);
        proof {
            assert(result@ =~= integer_text(*self, integer));
        }
        result
    }
}

/// How a boolean is written: the two words.
#[derive(Debug, Clone, PartialEq, Eq)]
pub struct BooleanFormat {
    pub true_: String,
    pub false_: String,
}

impl BooleanFormat {
    pub fn format(&self, boolean: bool) -> (r: String)
        ensures
            r@ == if boolean {
                self.true_@
            } else {
                self.false_@
            },
    {
        if boolean {
            self.true_.clone()
        } else {
            self.false_.clone()
        }
    }
}

/// An integer as `Display` writes it: in decimal, `0` for zero.
pub open spec fn decimal_text(i: i128) -> Seq<char> {
    if i == 0 {
        seq!['0']
    } else {
        sign_text(i) + digits_of(magnitude(i), 10)
    }
}

/// Writes an integer in decimal.
pub fn decimal(i: i128) -> (r: String)
    ensures
        r@ == decimal_text(i),
{
    let mut result = String::new();
    if i == 0 {
        push_char(&mut result, '0');
    } else {
        if i < 0 {
            push_char(&mut result, '-');
        }
        let ds = digits(magnitude_of(i), 10);
        push_all(&mut result, &ds);
    }
    proof {
        assert(result@ =~= decimal_text(i));
    }
    result
}

/// How values are written in some language: booleans and integers each
/// by their own format where one is given.
#[derive(Debug, Clone, PartialEq, Eq)]
pub struct Format {
    pub boolean: Option<BooleanFormat>,
    pub integer: Option<IntegerFormat>,
}

impl Default for Format {
    fn default() -> (r: Self)
        ensures
            r.boolean is None,
            r.integer is None,
    {
        Format { boolean: None, integer: None }
    }
}

pub open spec fn bool_text(b: bool) -> Seq<char> {
    if b {
        seq!['t', 'r', 'u', 'e']
    } else {
        seq!['f', 'a', 'l', 's', 'e']
    }
}

/// `text` is how format `f` writes `value` (any text for a float).
pub open spec fn writes(f: Format, value: Primitive, text: Seq<char>) -> bool {
    match value {
        Primitive::Boolean(b) => text == match f.boolean {
            Some(bf) => if b {
                bf.true_@
            } else {
                bf.false_@
            },
            None => bool_text(b),
        },
        Primitive::Integer(i) => text == match f.integer {
            Some(inf) => integer_text(inf, i),
            None => decimal_text(i),
        },
        Primitive::Float(_) => true,
    }
}

impl Format {
    /// Writes `value`: by the format of its kind where there is one, else
    /// as `Display` does (a float always so, by `arith`).
    pub fn format<A: FloatArith>(&self, value: &Primitive, arith: &A) -> (r: String)
        ensures
            writes(*self, *value, r@),
    {
        match value {
            Primitive::Boolean(b) => match &self.boolean {
                Some(f) => f.format(*b),
                None => {
                    proof {
                        reveal_strlit("true");
                        reveal_strlit("false");
                        assert("true"@ =~= bool_text(true));
                        assert("false"@ =~= bool_text(false));
                    }
                    if *b {
                        "true".to_owned()
                    } else {
                        "false".to_owned()
                    }
                },
            },
            Primitive::Integer(i) => match &self.integer {
                Some(f) => f.format(*i),
                None => decimal(*i),
            },
            Primitive::Float(x) => arith.to_text(*x),
        }
    }
}

} // verus!
