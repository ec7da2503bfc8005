use vstd::prelude::*;

use crate::error::{EvalError, Fault, Location};
use crate::value::{fits_i128, ErrorKind, EvalErrorMessage, FloatArith, Primitive};

verus! {

/// What a lexeme at some offset of the text is.
pub enum Lexeme {
    Float,
    Int(int),
    Bool(bool),
    Symbol(Seq<char>),
    Open,
    Close,
    Space,
}

/// A token as the contracts see it: its span and its lexeme.
pub struct Lexed {
    pub start: int,
    pub len: int,
    pub lexeme: Lexeme,
}

/// Character classes that the scanner takes runs of.
#[derive(Clone, Copy)]
pub enum CharClass {
    Digit,
    /// A digit of the base, or `_`.
    Numeral(u32),
    IdentTail,
}

pub open spec fn is_digit(c: char) -> bool {
    48 <= c as u32 <= 57
}

pub open spec fn is_letter(c: char) -> bool {
    (65 <= c as u32 <= 90) || (97 <= c as u32 <= 122)
}

/// The value of `c` as a digit (`0`-`9`, then lower-case `a`-`f`), if it is one.
pub open spec fn digit_value(c: char) -> int {
    if is_digit(c) {
        c as u32 - 48
    } else if 97 <= c as u32 <= 102 {
        c as u32 - 87
    } else {
        -1
    }
}

pub open spec fn is_base_digit(c: char, base: int) -> bool {
    0 <= digit_value(c) < base
}

pub open spec fn in_class(c: char, k: CharClass) -> bool {
    match k {
        CharClass::Digit => is_digit(c),
        CharClass::Numeral(base) => is_base_digit(c, base as int) || c == '_',
        CharClass::IdentTail => is_letter(c) || is_digit(c) || c == '_',
    }
}

/// Unicode's White_Space property.
pub open spec fn is_space(c: char) -> bool {
    let u = c as u32;
    (9 <= u <= 13) || u == 32 || u == 0x85 || u == 0xa0 || u == 0x1680 || (0x2000 <= u
        <= 0x200a) || u == 0x2028 || u == 0x2029 || u == 0x202f || u == 0x205f || u == 0x3000
}

/// The length of the longest run of characters of class `k` from `i`.
pub open spec fn run(s: Seq<char>, i: int, k: CharClass) -> int
    decreases s.len() - i,
{
    if 0 <= i < s.len() && in_class(s[i], k) {
        1 + run(s, i + 1, k)
    } else {
        0
    }
}

pub open spec fn sign_len(s: Seq<char>, i: int) -> int {
    if 0 <= i < s.len() && (s[i] == '+' || s[i] == '-') {
        1
    } else {
        0
    }
}

/// The end of `s[start..end]` once trailing characters that are not digits
/// of the base are dropped (`start` where no digit is left).
pub open spec fn trim(s: Seq<char>, start: int, end: int, base: int) -> int
    decreases end - start,
{
    if end <= start {
        start
    } else if is_base_digit(s[end - 1], base) {
        end
    } else {
        trim(s, start, end - 1, base)
    }
}

/// The value of a numeral in the base, `_` separators skipped.
pub open spec fn numeral(t: Seq<char>, base: int) -> int
    decreases t.len(),
{
    if t.len() == 0 {
        0
    } else if t.last() == '_' {
        numeral(t.drop_last(), base)
    } else {
        numeral(t.drop_last(), base) * base + digit_value(t.last())
    }
}

/// The characters of `t` but its `_` separators.
pub open spec fn without_separators(t: Seq<char>) -> Seq<char>
    decreases t.len(),
{
    if t.len() == 0 {
        t
    } else if t.last() == '_' {
        without_separators(t.drop_last())
    } else {
        without_separators(t.drop_last()).push(t.last())
    }
}

/// `_` separators do not change the value of a numeral, in any base: a
/// radix or decimal literal means what its digits alone mean.
pub proof fn lemma_separators_ignored(t: Seq<char>, base: int)
    ensures
        numeral(t, base) == numeral(without_separators(t), base),
        !without_separators(t).contains('_'),
    decreases t.len(),
{
    if t.len() > 0 {
        lemma_separators_ignored(t.drop_last(), base);
        let w = without_separators(t.drop_last());
        if t.last() != '_' {
            assert(w.push(t.last()).drop_last() =~= w);
            if w.push(t.last()).contains('_') {
                let k = choose|k: int| 0 <= k < w.len() + 1 && w.push(t.last())[k] == '_';
                assert(k < w.len() ==> w[k] == '_');
            }
        }
    }
}

/// Length of the float literal at `i` (sign, digits, `.`, digits, and an
/// exponent where one follows in full), or 0.
pub open spec fn float_len(s: Seq<char>, i: int) -> int {
    let j = i + sign_len(s, i);
    let p = j + run(s, j, CharClass::Digit);
    let k = p + 1 + run(s, p + 1, CharClass::Digit);
    let m = k + 1 + sign_len(s, k + 1);
    if p > j && p < s.len() && s[p] == '.' && k > p + 1 {
        if k < s.len() && (s[k] == 'e' || s[k] == 'E') && run(s, m, CharClass::Digit) > 0 {
            m + run(s, m, CharClass::Digit) - i
        } else {
            k - i
        }
    } else {
        0
    }
}

pub open spec fn radix_of(c: char) -> int {
    if c == 'b' {
        2
    } else if c == 'o' {
        8
    } else if c == 'x' {
        16
    } else {
        0
    }
}

/// The base of a `0b`, `0o` or `0x` literal at `i`, or 0.
pub open spec fn radix_at(s: Seq<char>, i: int) -> int {
    if 0 <= i && i + 1 < s.len() && s[i] == '0' {
        radix_of(s[i + 1])
    } else {
        0
    }
}

/// The end of the radix literal at `i`, given its base.
pub open spec fn radix_end(s: Seq<char>, i: int, base: int) -> int {
    trim(s, i + 2, i + 2 + run(s, i + 2, CharClass::Numeral(base as u32)), base)
}

/// The end of the decimal integer literal at `i`, sign included.
pub open spec fn int_end(s: Seq<char>, i: int) -> int {
    let j = i + sign_len(s, i);
    trim(s, j, j + run(s, j, CharClass::Numeral(10)), 10)
}

pub open spec fn word_at(s: Seq<char>, i: int, w: Seq<char>) -> bool {
    i + w.len() <= s.len() && s.subrange(i, i + w.len()) == w
}

pub open spec fn word_true() -> Seq<char> {
    seq!['t', 'r', 'u', 'e']
}

pub open spec fn word_false() -> Seq<char> {
    seq!['f', 'a', 'l', 's', 'e']
}

/// The lexeme at offset `i` and its length, trying in turn a float, a radix
/// integer, a decimal integer, a boolean, a symbol, white space and a
/// bracket; `None` where nothing matches.
pub open spec fn lex_at(s: Seq<char>, i: int) -> Option<(Lexeme, int)> {
    let c = s[i];
    let base = radix_at(s, i);
    let j = i + sign_len(s, i);
    let mag = numeral(s.subrange(j, int_end(s, i)), 10);
    if float_len(s, i) > 0 {
        Some((Lexeme::Float, float_len(s, i)))
    } else if base != 0 && radix_end(s, i, base) > i + 2 {
        Some(
            (
                Lexeme::Int(numeral(s.subrange(i + 2, radix_end(s, i, base)), base)),
                radix_end(s, i, base) - i,
            ),
        )
    } else if int_end(s, i) > j {
        Some(
            (
                Lexeme::Int(
                    if c == '-' {
                        -mag
                    } else {
                        mag
                    },
                ),
                int_end(s, i) - i,
            ),
        )
    } else if word_at(s, i, word_true()) {
        Some((Lexeme::Bool(true), 4))
    } else if word_at(s, i, word_false()) {
        Some((Lexeme::Bool(false), 5))
    } else if is_letter(c) || c == '_' {
        let n = 1 + run(s, i + 1, CharClass::IdentTail);
        Some((Lexeme::Symbol(s.subrange(i, i + n)), n))
    } else if is_space(c) {
        Some((Lexeme::Space, 1))
    } else if c == '(' {
        Some((Lexeme::Open, 1))
    } else if c == ')' {
        Some((Lexeme::Close, 1))
    } else {
        None
    }
}

/// The tokens of `s` from offset `i`, or the first fault: a character that
/// starts no lexeme, or an integer literal outside the `i128` range.
pub open spec fn scan_from(s: Seq<char>, i: int) -> Result<Seq<Lexed>, Fault>
    decreases s.len() - i,
{
    if i < 0 || i >= s.len() {
        Ok(Seq::empty())
    } else {
        match lex_at(s, i) {
            None => Err(Fault { start: i, len: 1, kind: ErrorKind::InvalidChar(s[i]) }),
            Some((lx, n)) => if n <= 0 || i + n > s.len() {
                Ok(Seq::empty())
            } else if lx is Int && !fits_i128(lx->Int_0) {
                Err(Fault { start: i, len: n, kind: ErrorKind::Overflow })
            } else if lx is Space {
                scan_from(s, i + n)
            } else {
                after(seq![Lexed { start: i, len: n, lexeme: lx }], scan_from(s, i + n))
            },
        }
    }
}

pub open spec fn scan_spec(s: Seq<char>) -> Result<Seq<Lexed>, Fault> {
    scan_from(s, 0)
}

/// Prefixes the tokens of a scan that succeeded.
pub open spec fn after(prefix: Seq<Lexed>, r: Result<Seq<Lexed>, Fault>) -> Result<
    Seq<Lexed>,
    Fault,
> {
    match r {
        Ok(t) => Ok(prefix + t),
        Err(f) => Err(f),
    }
}

pub proof fn lemma_after_empty(r: Result<Seq<Lexed>, Fault>)
    ensures
        after(Seq::empty(), r) == r,
{
    if let Ok(t) = r {
        assert(Seq::<Lexed>::empty() + t =~= t);
    }
}

pub proof fn lemma_after_push(v: Seq<Lexed>, t: Lexed, r: Result<Seq<Lexed>, Fault>)
    ensures
        after(v, after(seq![t], r)) == after(v.push(t), r),
{
    if let Ok(x) = r {
        assert(v + (seq![t] + x) =~= v.push(t) + x);
    }
}

/// A numeral only grows as digits are appended, and is never negative.
pub proof fn lemma_numeral_grows(t: Seq<char>, n: int, base: int)
    requires
        0 <= n <= t.len(),
        base >= 1,
        forall|m: int| 0 <= m < t.len() ==> (t[m] == '_' || 0 <= digit_value(t[m])),
    ensures
        0 <= numeral(t.subrange(0, n), base) <= numeral(t, base),
    decreases t.len(),
{
    if t.len() == 0 {
        assert(t.subrange(0, n) =~= t);
    } else {
        let dl = t.drop_last();
        let n2 = if n == t.len() {
            n - 1
        } else {
            n
        };
        lemma_numeral_grows(dl, n2, base);
        assert(dl.subrange(0, n2) =~= t.subrange(0, n2));
        assert(dl.subrange(0, 0) =~= t.subrange(0, 0));
        lemma_numeral_grows(dl, 0, base);
        let x = numeral(dl, base);
        let d = digit_value(t.last());
        if t.last() != '_' {
            assert(x * base + d >= x) by (nonlinear_arith)
                requires
                    x >= 0,
                    base >= 1,
                    d >= 0,
            ;
        }
        if n == t.len() {
            assert(t.subrange(0, n) =~= t);
        }
    }
}

#[derive(Debug, Clone)]
pub enum TokenValue {
    Literal(Primitive),
    Symbol(String),
    ExprOpen,
    ExprClose,
}

/// A lexical unit with its span.
#[derive(Debug, Clone)]
pub struct Token {
    pub location: Location,
    pub type_: TokenValue,
}

impl View for Token {
    type V = Lexed;

    open spec fn view(&self) -> Lexed {
        Lexed {
            start: self.location.start as int,
            len: self.location.len as int,
            lexeme: match self.type_ {
                TokenValue::Literal(Primitive::Float(_)) => Lexeme::Float,
                TokenValue::Literal(Primitive::Integer(i)) => Lexeme::Int(i as int),
                TokenValue::Literal(Primitive::Boolean(b)) => Lexeme::Bool(b),
                TokenValue::Symbol(name) => Lexeme::Symbol(name@),
                TokenValue::ExprOpen => Lexeme::Open,
                TokenValue::ExprClose => Lexeme::Close,
            },
        }
    }
}

impl Token {
    pub fn error_here(&self, message: EvalErrorMessage) -> (r: EvalError)
        ensures
            r.location == self.location,
            r.message == message,
    {
        self.location.error_here(message)
    }
}

pub open spec fn lexed_all(ts: Seq<Token>) -> Seq<Lexed> {
    ts.map_values(|t: Token| t@)
}

/// Every token's span lies in `text`, and keeps all of it.
pub open spec fn spans_in(ts: Seq<Token>, text: Seq<char>) -> bool {
    forall|k: int| 0 <= k < ts.len() ==> #[trigger] ts[k].location.string@ == text && ts[k].location.wf()
}

pub(crate) fn chars_of(text: &str) -> (r: Vec<char>)
    ensures
        r@ == text@,
{
    let n = text.unicode_len();
    let mut v: Vec<char> = Vec::new();
    let mut i: usize = 0;
    while i < n
        invariant
            n == text@.len(),
            i <= n,
            v@ == text@.subrange(0, i as int),
        decreases n - i,
    {
        v.push(text.get_char(i));
        i += 1;
    }
    assert(v@ =~= text@);
    v
}

fn digit_of(c: char) -> (d: i32)
    ensures
        d == digit_value(c),
{
    let u = c as u32;
    if 48 <= u && u <= 57 {
        (u - 48) as i32
    } else if 97 <= u && u <= 102 {
        (u - 87) as i32
    } else {
        -1
    }
}

fn class_has(c: char, k: CharClass) -> (r: bool)
    ensures
        r == in_class(c, k),
{
    let u = c as u32;
    match k {
        CharClass::Digit => 48 <= u && u <= 57,
        CharClass::Numeral(base) => {
            let d = digit_of(c);
            (0 <= d && (d as u32) < base) || c == '_'
        },
        CharClass::IdentTail => (65 <= u && u <= 90) || (97 <= u && u <= 122) || (48 <= u && u
            <= 57) || c == '_',
    }
}

fn space_char(c: char) -> (r: bool)
    ensures
        r == is_space(c),
{
    let u = c as u32;
    (9 <= u && u <= 13) || u == 32 || u == 0x85 || u == 0xa0 || u == 0x1680 || (0x2000 <= u && u
        <= 0x200a) || u == 0x2028 || u == 0x2029 || u == 0x202f || u == 0x205f || u == 0x3000
}

pub(crate) fn run_len(cs: &Vec<char>, i: usize, k: CharClass) -> (n: usize)
    requires
        i <= cs.len(),
    ensures
        n == run(cs@, i as int, k),
        i + n <= cs.len(),
        forall|m: int| i <= m < i + n ==> in_class(#[trigger] cs@[m], k),
{
    let mut j = i;
    while j < cs.len() && class_has(cs[j], k)
        invariant
            i <= j <= cs.len(),
            run(cs@, i as int, k) == (j - i) + run(cs@, j as int, k),
            forall|m: int| i <= m < j ==> in_class(#[trigger] cs@[m], k),
        decreases cs.len() - j,
    {
        j += 1;
    }
    j - i
}

fn sign_at(cs: &Vec<char>, i: usize) -> (n: usize)
    requires
        i <= cs.len(),
    ensures
        n == sign_len(cs@, i as int),
{
    if i < cs.len() && (cs[i] == '+' || cs[i] == '-') {
        1
    } else {
        0
    }
}

fn base_digit(c: char, base: u32) -> (r: bool)
    ensures
        r == is_base_digit(c, base as int),
{
    let d = digit_of(c);
    0 <= d && (d as u32) < base
}

fn trim_at(cs: &Vec<char>, start: usize, end: usize, base: u32) -> (e: usize)
    requires
        start <= end <= cs.len(),
    ensures
        e == trim(cs@, start as int, end as int, base as int),
        start <= e <= end,
{
    let mut e = end;
    while e > start && !base_digit(cs[e - 1], base)
        invariant
            start <= e <= end <= cs.len(),
            trim(cs@, start as int, end as int, base as int) == trim(
                cs@,
                start as int,
                e as int,
                base as int,
            ),
        decreases e,
    {
        e -= 1;
    }
    e
}

fn float_at(cs: &Vec<char>, i: usize) -> (n: usize)
    requires
        i < cs.len(),
    ensures
        n == float_len(cs@, i as int),
        i + n <= cs.len(),
{
    let j = i + sign_at(cs, i);
    let p = j + run_len(cs, j, CharClass::Digit);
    if p > j && p < cs.len() && cs[p] == '.' {
        let k = p + 1 + run_len(cs, p + 1, CharClass::Digit);
        if k > p + 1 {
            if k < cs.len() && (cs[k] == 'e' || cs[k] == 'E') {
                let m = k + 1 + sign_at(cs, k + 1);
                let d = run_len(cs, m, CharClass::Digit);
                if d > 0 {
                    return m + d - i;
                }
            }
            return k - i;
        }
    }
    0
}

fn radix_base(c: char) -> (r: u32)
    ensures
        r == radix_of(c),
{
    if c == 'b' {
        2
    } else if c == 'o' {
        8
    } else if c == 'x' {
        16
    } else {
        0
    }
}

/// The value of `cs[a..e]` in the base, negated where asked, if it fits.
fn numeral_value(cs: &Vec<char>, a: usize, e: usize, base: u32, negative: bool) -> (r: Option<
    i128,
>)
    requires
        a <= e <= cs.len(),
        2 <= base <= 16,
        forall|m: int| a <= m < e ==> in_class(#[trigger] cs@[m], CharClass::Numeral(base)),
    ensures
        ({
            let x = numeral(cs@.subrange(a as int, e as int), base as int);
            let v = if negative {
                -x
            } else {
                x
            };
            if fits_i128(v) {
                r == Some(v as i128)
            } else {
                r is None
            }
        }),
{
    let ghost t = cs@.subrange(a as int, e as int);
    let mut acc: i128 = 0;
    let mut j = a;
    assert(cs@.subrange(a as int, a as int) =~= Seq::<char>::empty());
    while j < e
        invariant
            a <= j <= e <= cs.len(),
            2 <= base <= 16,
            forall|m: int| a <= m < e ==> in_class(#[trigger] cs@[m], CharClass::Numeral(base)),
            t == cs@.subrange(a as int, e as int),
            acc as int == (if negative {
                -numeral(cs@.subrange(a as int, j as int), base as int)
            } else {
                numeral(cs@.subrange(a as int, j as int), base as int)
            }),
        decreases e - j,
    {
        let c = cs[j];
        let ghost u = cs@.subrange(a as int, j + 1);
        proof {
            assert(u.drop_last() =~= cs@.subrange(a as int, j as int));
            assert(t.subrange(0, j + 1 - a) =~= u);
            assert(t.subrange(0, j - a) =~= cs@.subrange(a as int, j as int));
            assert(in_class(cs@[j as int], CharClass::Numeral(base)));
            lemma_numeral_grows(t, j + 1 - a, base as int);
            lemma_numeral_grows(t, j - a, base as int);
            assert(u.last() == c);
            let x = numeral(u.drop_last(), base as int);
            assert((-x) * base == -(x * base)) by (nonlinear_arith);
            if c != '_' {
                assert(numeral(u, base as int) == x * base + digit_value(c));
            } else {
                assert(numeral(u, base as int) == x);
            }
        }
        if c != '_' {
            let d = digit_of(c) as i128;
            match acc.checked_mul(base as i128) {
                None => {
                    proof {
                        let x = numeral(u.drop_last(), base as int);
                        assert(x * base >= 0) by (nonlinear_arith)
                            requires
                                x >= 0,
                                base >= 2,
                        ;
                        assert((-x) * base == -(x * base)) by (nonlinear_arith);
                        assert(numeral(u, base as int) == x * base + digit_value(c));
                    }
                    return None;
                },
                Some(x) => {
                    let next = if negative {
                        x.checked_sub(d)
                    } else {
                        x.checked_add(d)
                    };
                    match next {
                        None => {
                            return None;
                        },
                        Some(y) => {
                            acc = y;
                        },
                    }
                },
            }
        }
        j += 1;
    }
    assert(cs@.subrange(a as int, j as int) =~= t);
    Some(acc)
}

fn at_true(cs: &Vec<char>, i: usize) -> (r: bool)
    ensures
        r == word_at(cs@, i as int, word_true()),
{
    if i <= cs.len() && 4 <= cs.len() - i {
        let r = cs[i] == 't' && cs[i + 1] == 'r' && cs[i + 2] == 'u' && cs[i + 3] == 'e';
        proof {
            let w = cs@.subrange(i as int, i + 4);
            if r {
                assert(w =~= word_true());
            } else if w == word_true() {
                assert(w[0] == cs@[i as int] && w[1] == cs@[i + 1] && w[2] == cs@[i + 2] && w[3]
                    == cs@[i + 3]);
            }
        }
        r
    } else {
        false
    }
}

fn at_false(cs: &Vec<char>, i: usize) -> (r: bool)
    ensures
        r == word_at(cs@, i as int, word_false()),
{
    if i <= cs.len() && 5 <= cs.len() - i {
        let r = cs[i] == 'f' && cs[i + 1] == 'a' && cs[i + 2] == 'l' && cs[i + 3] == 's' && cs[i
            + 4] == 'e';
        proof {
            let w = cs@.subrange(i as int, i + 5);
            if r {
                assert(w =~= word_false());
            } else if w == word_false() {
                assert(w[0] == cs@[i as int] && w[1] == cs@[i + 1] && w[2] == cs@[i + 2] && w[3]
                    == cs@[i + 3] && w[4] == cs@[i + 4]);
            }
        }
        r
    } else {
        false
    }
}

fn token(text: &str, start: usize, len: usize, type_: TokenValue) -> (t: Token)
    requires
        start + len <= text@.len(),
    ensures
        t.location.string@ == text@,
        t.location.wf(),
        t.location.start == start,
        t.location.len == len,
        t.type_ == type_,
{
    Token { location: Location::new(text, start, len), type_ }
}

/// What `scan` does at offset `i`: a token, white space, or a fault.
pub open spec fn step_ok(
    s: Seq<char>,
    i: int,
    r: Result<(Option<Token>, usize), EvalError>,
) -> bool {
    match lex_at(s, i) {
        None => r is Err && r->Err_0.fault() == Fault {
            start: i,
            len: 1,
            kind: ErrorKind::InvalidChar(s[i]),
        },
        Some((lx, n)) => if lx is Int && !fits_i128(lx->Int_0) {
            r is Err && r->Err_0.fault() == Fault { start: i, len: n, kind: ErrorKind::Overflow }
        } else {
            &&& r is Ok
            &&& r->Ok_0.1 == n
            &&& 0 < n
            &&& i + n <= s.len()
            &&& (lx is Space <==> r->Ok_0.0 is None)
            &&& (r->Ok_0.0 is Some ==> r->Ok_0.0->Some_0@ == Lexed { start: i, len: n, lexeme: lx })
            &&& (r->Ok_0.0 is Some ==> r->Ok_0.0->Some_0.location.string@ == s
                && r->Ok_0.0->Some_0.location.wf())
        },
    }
}

fn lex_one<A: FloatArith>(text: &str, cs: &Vec<char>, i: usize, arith: &A) -> (r: Result<
    (Option<Token>, usize),
    EvalError,
>)
    requires
        cs@ == text@,
        i < cs.len(),
    ensures
        step_ok(text@, i as int, r),
        r is Err ==> r->Err_0.location.string@ == text@ && r->Err_0.location.wf(),
{
    let n = cs.len();
    let ghost s = text@;
    let c = cs[i];
    let fl = float_at(cs, i);
    if fl > 0 {
        let lit = text.substring_char(i, i + fl);
        let t = token(text, i, fl, TokenValue::Literal(Primitive::Float(arith.parse_decimal(lit))));
        return Ok((Some(t), fl));
    }
    let base = if i + 1 < n && c == '0' {
        radix_base(cs[i + 1])
    } else {
        0
    };
    assert(base == radix_at(s, i as int));
    if base != 0 {
        let r = run_len(cs, i + 2, CharClass::Numeral(base));
        let re = trim_at(cs, i + 2, i + 2 + r, base);
        if re > i + 2 {
            return match numeral_value(cs, i + 2, re, base, false) {
                Some(v) => Ok(
                    (Some(token(text, i, re - i, TokenValue::Literal(Primitive::Integer(v)))), re - i),
                ),
                None => Err(Location::new(text, i, re - i).error_here(EvalErrorMessage::Overflow)),
            };
        }
    }
    let sg = sign_at(cs, i);
    let r = run_len(cs, i + sg, CharClass::Numeral(10));
    let ie = trim_at(cs, i + sg, i + sg + r, 10);
    if ie > i + sg {
        proof {
            assert(ie == int_end(s, i as int));
            assert(base == 0 || radix_end(s, i as int, base as int) <= i + 2);
        }
        return match numeral_value(cs, i + sg, ie, 10, c == '-') {
            Some(v) => Ok(
                (Some(token(text, i, ie - i, TokenValue::Literal(Primitive::Integer(v)))), ie - i),
            ),
            None => Err(Location::new(text, i, ie - i).error_here(EvalErrorMessage::Overflow)),
        };
    }
    if at_true(cs, i) {
        Ok((Some(token(text, i, 4, TokenValue::Literal(Primitive::Boolean(true)))), 4))
    } else if at_false(cs, i) {
        Ok((Some(token(text, i, 5, TokenValue::Literal(Primitive::Boolean(false)))), 5))
    } else if (65 <= c as u32 && c as u32 <= 90) || (97 <= c as u32 && c as u32 <= 122) || c
        == '_' {
        let m = 1 + run_len(cs, i + 1, CharClass::IdentTail);
        let name = text.substring_char(i, i + m).to_owned();
        Ok((Some(token(text, i, m, TokenValue::Symbol(name))), m))
    } else if space_char(c) {
        Ok((None, 1))
    } else if c == '(' {
        Ok((Some(token(text, i, 1, TokenValue::ExprOpen)), 1))
    } else if c == ')' {
        Ok((Some(token(text, i, 1, TokenValue::ExprClose)), 1))
    } else {
        Err(Location::new(text, i, 1).error_here(EvalErrorMessage::InvalidChar(c)))
    }
}

/// Splits `text` into tokens, or reports the first character that starts
/// none, or an integer literal that does not fit an `i128`. Float literals
/// are read by `arith`.
pub fn scan<A: FloatArith>(text: &str, arith: &A) -> (r: Result<Vec<Token>, EvalError>)
    ensures
        match scan_spec(text@) {
            Ok(ts) => r is Ok && lexed_all(r->Ok_0@) == ts && spans_in(r->Ok_0@, text@),
            Err(f) => r is Err && r->Err_0.fault() == f && r->Err_0.location.string@ == text@
                && r->Err_0.location.wf(),
        },
{
    let cs = chars_of(text);
    let n = cs.len();
    let ghost s = text@;
    let mut result: Vec<Token> = Vec::new();
    let mut i: usize = 0;
    proof {
        lemma_after_empty(scan_from(s, 0));
        assert(lexed_all(result@) =~= Seq::<Lexed>::empty());
    }
    while i < n
        invariant
            cs@ == s,
            s == text@,
            n == cs.len(),
            i <= n,
            scan_spec(s) == after(lexed_all(result@), scan_from(s, i as int)),
            spans_in(result@, s),
        decreases n - i,
    {
        let ghost before = lexed_all(result@);
        let step = lex_one(text, &cs, i, arith);
        match step {
            Err(e) => {
                return Err(e);
            },
            Ok((tok, len)) => {
                if let Some(t) = tok {
                    proof {
                        lemma_after_push(before, t@, scan_from(s, i + len));
                        assert(lexed_all(result@.push(t)) =~= before.push(t@));
                    }
                    result.push(t);
                }
                i = i + len;
            },
        }
    }
    proof {
        assert(lexed_all(result@) + Seq::<Lexed>::empty() =~= lexed_all(result@));
    }
    Ok(result)
}

} // verus!
