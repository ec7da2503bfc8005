use vstd::prelude::*;

use crate::scanner::{chars_of, is_letter, run, run_len, CharClass};
use crate::text::push_char;

verus! {

/// The length of the parameter at offset `i`: `$$`, or `$` and an
/// identifier; 0 where none starts there.
pub open spec fn param_len(s: Seq<char>, i: int) -> int {
    if 0 <= i && i + 1 < s.len() && s[i] == '$' {
        if s[i + 1] == '$' {
            2
        } else if is_letter(s[i + 1]) || s[i + 1] == '_' {
            2 + run(s, i + 2, CharClass::IdentTail)
        } else {
            0
        }
    } else {
        0
    }
}

pub open spec fn dollar_dollar() -> Seq<char> {
    seq!['$', '$']
}

/// The parameters of `s` from offset `i`, left to right, `$$` included.
pub open spec fn params_from(s: Seq<char>, i: int) -> Seq<Seq<char>>
    decreases s.len() - i,
{
    if i < 0 || i >= s.len() {
        seq![]
    } else if param_len(s, i) > 0 && i + param_len(s, i) <= s.len() {
        seq![s.subrange(i, i + param_len(s, i))] + params_from(s, i + param_len(s, i))
    } else {
        params_from(s, i + 1)
    }
}

pub open spec fn params(s: Seq<char>) -> Seq<Seq<char>> {
    params_from(s, 0)
}

/// `s` from offset `i` with each parameter replaced by its value in `ctx`
/// and each `$$` by `$`.
pub open spec fn replaced_from(s: Seq<char>, i: int, ctx: Map<Seq<char>, Seq<char>>) -> Seq<char>
    decreases s.len() - i,
{
    if i < 0 || i >= s.len() {
        seq![]
    } else if param_len(s, i) > 0 && i + param_len(s, i) <= s.len() {
        let name = s.subrange(i, i + param_len(s, i));
        (if name == dollar_dollar() {
            seq!['$']
        } else {
            ctx[name]
        }) + replaced_from(s, i + param_len(s, i), ctx)
    } else {
        seq![s[i]] + replaced_from(s, i + 1, ctx)
    }
}

/// Every parameter of `s` but `$$` is one of `keys`.
pub open spec fn uses_only(s: Seq<char>, keys: Set<Seq<char>>) -> bool {
    forall|k: int|
        0 <= k < params(s).len() && #[trigger] params(s)[k] != dollar_dollar() ==> keys.contains(
            params(s)[k],
        )
}

/// Every parameter of `s` but `$$` has a value in `ctx`.
pub open spec fn all_known(s: Seq<char>, ctx: Map<Seq<char>, Seq<char>>) -> bool {
    uses_only(s, ctx.dom())
}

/// Values for the parameters of a template, by name (`$name`).
pub struct Params {
    entries: Vec<(String, String)>,
}

pub open spec fn param_bindings(s: Seq<(String, String)>) -> Map<Seq<char>, Seq<char>>
    decreases s.len(),
{
    if s.len() == 0 {
        Map::empty()
    } else {
        param_bindings(s.drop_last()).insert(s.last().0@, s.last().1@)
    }
}

impl View for Params {
    type V = Map<Seq<char>, Seq<char>>;

    closed spec fn view(&self) -> Map<Seq<char>, Seq<char>> {
        param_bindings(self.entries@)
    }
}

impl Params {
    pub fn new() -> (r: Self)
        ensures
            r@ == Map::<Seq<char>, Seq<char>>::empty(),
    {
        Params { entries: Vec::new() }
    }

    pub fn insert(&mut self, key: &str, value: String)
        ensures
            final(self)@ == old(self)@.insert(key@, value@),
    {
        self.entries.push((key.to_owned(), value));
        proof {
            assert(final(self).entries@.drop_last() =~= old(self).entries@);
        }
    }

    pub fn get(&self, key: &str) -> (r: Option<&String>)
        ensures
            match r {
                Some(v) => self@.contains_key(key@) && self@[key@] == v@,
                None => !self@.contains_key(key@),
            },
    {
        let k = key.to_owned();
        let mut j = self.entries.len();
        assert(self.entries@.subrange(0, j as int) =~= self.entries@);
        while j > 0
            invariant
                k@ == key@,
                j <= self.entries.len(),
                self@.contains_key(key@) == param_bindings(self.entries@.subrange(0, j as int)).contains_key(key@),
                self@.contains_key(key@) ==> self@[key@] == param_bindings(self.entries@.subrange(0, j as int))[key@],
            decreases j,
        {
            j -= 1;
            let ghost upto = self.entries@.subrange(0, j + 1);
            assert(upto.drop_last() =~= self.entries@.subrange(0, j as int));
            if self.entries[j].0 == k {
                return Some(&self.entries[j].1);
            }
        }
        None
    }
}

fn param_at(cs: &Vec<char>, i: usize) -> (n: usize)
    requires
        i < cs.len(),
    ensures
        n == param_len(cs@, i as int),
        i + n <= cs.len(),
{
    if i + 1 < cs.len() && cs[i] == '$' {
        let c = cs[i + 1];
        if c == '$' {
            2
        } else if (65 <= c as u32 && c as u32 <= 90) || (97 <= c as u32 && c as u32 <= 122) || c
            == '_' {
            2 + run_len(cs, i + 2, CharClass::IdentTail)
        } else {
            0
        }
    } else {
        0
    }
}

pub proof fn lemma_contains_cons(x: Seq<char>, r: Seq<Seq<char>>, p: Seq<char>)
    ensures
        (seq![x] + r).contains(p) <==> (x == p || r.contains(p)),
{
    let whole = seq![x] + r;
    if x == p {
        assert(whole[0] == p);
    }
    if r.contains(p) {
        let k = choose|k: int| 0 <= k < r.len() && r[k] == p;
        assert(whole[k + 1] == p);
    }
    if whole.contains(p) {
        let k = choose|k: int| 0 <= k < whole.len() && whole[k] == p;
        if k > 0 {
            assert(r[k - 1] == p);
        }
    }
}

/// Whether `text` uses the parameter named `parameter` (`$$` is no
/// parameter).
pub fn contains_parameter(text: &str, parameter: &str) -> (r: bool)
    ensures
        r == (parameter@ != dollar_dollar() && params(text@).contains(parameter@)),
{
    let cs = chars_of(text);
    let ghost s = text@;
    let p = parameter.to_owned();
    let dd = "$$".to_owned();
    proof {
        reveal_strlit("$$");
        assert("$$"@ =~= dollar_dollar());
    }
    if p == dd {
        return false;
    }
    let mut i: usize = 0;
    while i < cs.len()
        invariant
            cs@ == s,
            s == text@,
            p@ == parameter@,
            p@ != dollar_dollar(),
            i <= cs.len(),
            params(s).contains(p@) == params_from(s, i as int).contains(p@),
        decreases cs.len() - i,
    {
        let n = param_at(&cs, i);
        if n > 0 {
            let name = text.substring_char(i, i + n).to_owned();
            proof {
                lemma_contains_cons(s.subrange(i as int, i + n), params_from(s, i + n), p@);
            }
            if name == p {
                return true;
            }
            i += n;
        } else {
            i += 1;
        }
    }
    false
}

/// `text` with each parameter replaced by its value in `context`, and each
/// `$$` by `$`.
pub fn replace_parameters(text: &str, context: &Params) -> (r: String)
    requires
        all_known(text@, context@),
    ensures
        r@ == replaced_from(text@, 0, context@),
{
    let cs = chars_of(text);
    let ghost s = text@;
    let ghost ctx = context@;
    let dd = "$$".to_owned();
    proof {
        reveal_strlit("$$");
        assert("$$"@ =~= dollar_dollar());
    }
    let mut result = String::new();
    let mut i: usize = 0;
    assert(params(s) == params_from(s, 0));
    while i < cs.len()
        invariant
            cs@ == s,
            s == text@,
            ctx == context@,
            dd@ == dollar_dollar(),
            i <= cs.len(),
            replaced_from(s, 0, ctx) == result@ + replaced_from(s, i as int, ctx),
            forall|k: int|
                0 <= k < params_from(s, i as int).len() && #[trigger] params_from(s, i as int)[k]
                    != dollar_dollar() ==> ctx.contains_key(params_from(s, i as int)[k]),
        decreases cs.len() - i,
    {
        let ghost before = result@;
        let n = param_at(&cs, i);
        if n > 0 {
            let name = text.substring_char(i, i + n).to_owned();
            let ghost rest = params_from(s, i + n);
            proof {
                assert(params_from(s, i as int) == seq![name@] + rest);
                assert((seq![name@] + rest)[0] == name@);
                assert forall|k: int|
                    0 <= k < rest.len() && #[trigger] rest[k] != dollar_dollar() implies ctx.contains_key(rest[k]) by {
                    assert((seq![name@] + rest)[k + 1] == rest[k]);
                }
            }
            if name == dd {
                push_char(&mut result, '$');
            } else {
                match context.get(name.as_str()) {
                    Some(v) => {
                        result.append(v.as_str());
                    },
                    None => {},
                }
            }
            proof {
                assert(result@ + replaced_from(s, i + n, ctx) =~= before + replaced_from(s, i as int, ctx));
            }
            i += n;
        } else {
            push_char(&mut result, cs[i]);
            proof {
                assert(result@ + replaced_from(s, i + 1, ctx) =~= before + replaced_from(s, i as int, ctx));
                assert(params_from(s, i as int) == params_from(s, i + 1));
            }
            i += 1;
        }
    }
    proof {
        assert(result@ + Seq::<char>::empty() =~= result@);
    }
    result
}

/// Whether every parameter of `text` but `$$` has a value in `known`.
pub fn uses_only_known(text: &str, known: &Params) -> (r: bool)
    ensures
        r == all_known(text@, known@),
{
    let cs = chars_of(text);
    let ghost s = text@;
    let ghost ctx = known@;
    let dd = "$$".to_owned();
    proof {
        reveal_strlit("$$");
        assert("$$"@ =~= dollar_dollar());
    }
    let mut i: usize = 0;
    while i < cs.len()
        invariant
            cs@ == s,
            s == text@,
            ctx == known@,
            dd@ == dollar_dollar(),
            i <= cs.len(),
            all_known(s, ctx) == (forall|k: int|
                0 <= k < params_from(s, i as int).len() && #[trigger] params_from(s, i as int)[k]
                    != dollar_dollar() ==> ctx.contains_key(params_from(s, i as int)[k])),
        decreases cs.len() - i,
    {
        let n = param_at(&cs, i);
        if n > 0 {
            let name = text.substring_char(i, i + n).to_owned();
            let ghost rest = params_from(s, i + n);
            let ghost whole = params_from(s, i as int);
            proof {
                assert(whole == seq![name@] + rest);
                assert(whole[0] == name@);
                assert forall|k: int| 0 <= k < rest.len() implies #[trigger] rest[k] == whole[k + 1] by {}
            }
            if name != dd && known.get(name.as_str()).is_none() {
                return false;
            }
            proof {
                assert((forall|k: int|
                    0 <= k < whole.len() && #[trigger] whole[k] != dollar_dollar() ==> ctx.contains_key(whole[k]))
                    == (forall|k: int|
                    0 <= k < rest.len() && #[trigger] rest[k] != dollar_dollar() ==> ctx.contains_key(rest[k]))) by {
                    if forall|k: int| 0 <= k < rest.len() && #[trigger] rest[k] != dollar_dollar() ==> ctx.contains_key(rest[k]) {
                        assert forall|k: int| 0 <= k < whole.len() && #[trigger] whole[k] != dollar_dollar() implies ctx.contains_key(whole[k]) by {
                            if k > 0 {
                                assert(whole[k] == rest[k - 1]);
                            }
                        }
                    }
                }
            }
            i += n;
        } else {
            proof {
                assert(params_from(s, i as int) == params_from(s, i + 1));
            }
            i += 1;
        }
    }
    true
}

} // verus!
