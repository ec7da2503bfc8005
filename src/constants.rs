use vstd::prelude::*;

use crate::error::EvalError;
use crate::eval::{evaluate, evaluation};
use crate::functions::{default_table, Functions};
use crate::value::{Context, FloatArith, Primitive};

verus! {

/// A named constant: its optional type, the expression that gives its
/// value, and that value once resolved.
#[derive(Debug, Clone)]
pub struct Constant {
    pub name: String,
    pub type_: Option<String>,
    pub value_string: String,
    pub resolved_value: Option<Primitive>,
}

impl Constant {
    pub fn new(name: String, type_: Option<String>, value_string: String) -> (r: Self)
        ensures
            r.name == name,
            r.type_ == type_,
            r.value_string == value_string,
            r.resolved_value is None,
    {
        Constant { name, type_, value_string, resolved_value: None }
    }

    pub fn value(&self) -> (r: Primitive)
        requires
            self.resolved_value is Some,
        ensures
            r == self.resolved_value->Some_0,
    {
        match self.resolved_value {
            Some(v) => v,
            None => Primitive::Boolean(false),
        }
    }

    /// Evaluates the expression against `ctx` with the built-in functions
    /// and keeps the value that `evaluate` returned; on an error nothing
    /// changes.
    pub fn resolve_value<A: FloatArith>(&mut self, ctx: &Context, arith: &A) -> (r: Result<
        (),
        EvalError,
    >)
        ensures
            final(self).name == old(self).name,
            final(self).type_ == old(self).type_,
            final(self).value_string == old(self).value_string,
            match r {
                Ok(_) => final(self).resolved_value is Some && evaluation(
                    old(self).value_string@,
                    ctx@,
                    default_table(),
                    Ok(final(self).resolved_value->Some_0),
                ),
                Err(e) => evaluation(old(self).value_string@, ctx@, default_table(), Err(e))
                    && final(self).resolved_value == old(self).resolved_value,
            },
    {
        let fns = Functions::default();
        match evaluate(self.value_string.as_str(), ctx, &fns, arith) {
            Ok(v) => {
                self.resolved_value = Some(v);
                Ok(())
            },
            Err(e) => Err(e),
        }
    }
}

/// Why a list of constants could not be resolved.
#[derive(Debug, Clone, PartialEq, Eq)]
pub enum ResolveError {
    /// A second constant with this name.
    DuplicateConstant(String),
    /// The expression of this constant failed.
    Evaluation(String, EvalError),
}

/// The names bound by the first `k` constants, each to its value.
pub open spec fn bound(cs: Seq<Constant>, k: int) -> Map<Seq<char>, Primitive>
    decreases k,
{
    if k <= 0 {
        Map::empty()
    } else {
        bound(cs, k - 1).insert(cs[k - 1].name@, cs[k - 1].resolved_value->Some_0)
    }
}

pub proof fn lemma_bound_prefix(cs: Seq<Constant>, x: Constant, k: int)
    requires
        0 <= k <= cs.len(),
    ensures
        bound(cs.push(x), k) == bound(cs, k),
    decreases k,
{
    if k > 0 {
        lemma_bound_prefix(cs, x, k - 1);
    }
}

/// `after` is `before` with the same name, type and expression.
pub open spec fn same_constant(before: Constant, after: Constant) -> bool {
    &&& after.name == before.name
    &&& after.type_ == before.type_
    &&& after.value_string == before.value_string
}

/// The first `k` constants are resolved, in order, each against the
/// constants before it, and no name among them repeats.
pub open spec fn resolved_in_order(before: Seq<Constant>, after: Seq<Constant>, k: int) -> bool {
    &&& forall|j: int| 0 <= j < k ==> same_constant(before[j], #[trigger] after[j])
    &&& forall|j: int|
        0 <= j < k ==> (#[trigger] after[j]).resolved_value is Some && evaluation(
            before[j].value_string@,
            bound(after, j),
            default_table(),
            Ok(after[j].resolved_value->Some_0),
        )
    &&& forall|a: int, b: int| 0 <= a < b < k ==> (#[trigger] after[a]).name@ != (#[trigger] after[b]).name@
}

fn copy_name(t: &Option<String>) -> (r: Option<String>)
    ensures
        r == *t,
{
    match t {
        Some(s) => Some(s.clone()),
        None => None,
    }
}

/// Resolves the constants in order, each against those before it: the
/// constants with their values and the context they make, or the first
/// repeated name or failed expression.
pub fn resolve_constants<A: FloatArith>(constants: &Vec<Constant>, arith: &A) -> (r: Result<
    (Vec<Constant>, Context),
    ResolveError,
>)
    ensures
        match r {
            Ok((cs, ctx)) => cs.len() == constants.len() && resolved_in_order(
                constants@,
                cs@,
                cs.len() as int,
            ) && ctx@ == bound(cs@, cs.len() as int),
            Err(ResolveError::DuplicateConstant(name)) => exists|k: int, j: int|
                0 <= j < k < constants.len() && (#[trigger] constants@[k]).name@ == name@
                    && (#[trigger] constants@[j]).name@ == name@,
            Err(ResolveError::Evaluation(name, e)) => exists|k: int, cs: Seq<Constant>|
                0 <= k < constants.len() && name@ == constants@[k].name@ && cs.len() == k
                    && #[trigger] resolved_in_order(constants@, cs, k) && evaluation(
                    constants@[k].value_string@,
                    bound(cs, k),
                    default_table(),
                    Err(e),
                ),
        },
{
    let mut out: Vec<Constant> = Vec::new();
    let mut ctx = Context::new();
    let mut i: usize = 0;
    while i < constants.len()
        invariant
            i <= constants.len(),
            out.len() == i,
            resolved_in_order(constants@, out@, i as int),
            ctx@ == bound(out@, i as int),
            forall|n: Seq<char>|
                #![trigger ctx@.contains_key(n)]
                ctx@.contains_key(n) <==> exists|j: int| 0 <= j < i && (#[trigger] out@[j]).name@ == n,
        decreases constants.len() - i,
    {
        let c = &constants[i];
        if ctx.contains_key(&c.name) {
            proof {
                let n = c.name@;
                assert(ctx@.contains_key(n));
                let j = choose|j: int| 0 <= j < i && (#[trigger] out@[j]).name@ == n;
                assert(same_constant(constants@[j], out@[j]));
                assert(constants@[j].name@ == n);
                assert(constants@[i as int].name@ == n);
            }
            return Err(ResolveError::DuplicateConstant(c.name.clone()));
        }
        let mut next = Constant::new(c.name.clone(), copy_name(&c.type_), c.value_string.clone());
        match next.resolve_value(&ctx, arith) {
            Ok(()) => {},
            Err(e) => {
                proof {
                    assert(resolved_in_order(constants@, out@, i as int));
                }
                return Err(ResolveError::Evaluation(c.name.clone(), e));
            },
        }
        let v = next.value();
        let ghost before = out@;
        assert(!ctx@.contains_key(c.name@));
        assert(forall|a: int| 0 <= a < i ==> (#[trigger] out@[a]).name@ != c.name@);
        ctx.insert(c.name.clone(), v);
        out.push(next);
        proof {
            assert(out@ == before.push(next));
            assert forall|n: Seq<char>| #![trigger ctx@.contains_key(n)]
                ctx@.contains_key(n) <==> exists|j: int| 0 <= j < i + 1 && (#[trigger] out@[j]).name@ == n by {
                if ctx@.contains_key(n) && n != next.name@ {
                    let j = choose|j: int| 0 <= j < i && (#[trigger] before[j]).name@ == n;
                    assert(out@[j] == before[j]);
                }
                if n == next.name@ {
                    assert(out@[i as int].name@ == n);
                }
                if exists|j: int| 0 <= j < i + 1 && (#[trigger] out@[j]).name@ == n {
                    let j = choose|j: int| 0 <= j < i + 1 && (#[trigger] out@[j]).name@ == n;
                    if j < i {
                        assert(out@[j] == before[j]);
                    }
                }
            }
            lemma_bound_prefix(before, next, i as int);
            assert(out@[i as int] == next);
            assert forall|j: int| 0 <= j < i + 1 implies same_constant(constants@[j], #[trigger] out@[j]) by {
                if j < i {
                    assert(out@[j] == before[j]);
                }
            }
            assert forall|j: int| 0 <= j < i + 1 implies (#[trigger] out@[j]).resolved_value is Some
                && evaluation(
                constants@[j].value_string@,
                bound(out@, j),
                default_table(),
                Ok(out@[j].resolved_value->Some_0),
            ) by {
                lemma_bound_prefix(before, next, j);
                if j < i {
                    assert(out@[j] == before[j]);
                }
            }
            assert forall|a: int, b: int| 0 <= a < b < i + 1 implies (#[trigger] out@[a]).name@
                != (#[trigger] out@[b]).name@ by {
                assert(out@[a] == before[a]);
                if b < i {
                    assert(out@[b] == before[b]);
                }
            }
        }
        i += 1;
    }
    Ok((out, ctx))
}

} // verus!
