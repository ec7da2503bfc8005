use vstd::prelude::*;

use crate::error::{EvalError, Fault, Location};
use crate::names::NameMap;
use crate::parser::{Expr, ExprValue, Node, NodeKind};
use crate::value::{
    spec_add, spec_and, spec_fract, spec_mul, spec_not, spec_or, ErrorKind, EvalErrorMessage,
    FloatArith, Primitive, Value,
};

verus! {

/// The built-in operations.
#[derive(Debug, Clone, Copy, PartialEq, Eq)]
pub enum Builtin {
    Not,
    And,
    Or,
    Add,
    Mul,
    Fract,
}

/// The functions that an expression may call, by name.
pub struct Functions {
    table: NameMap<Builtin>,
}

pub open spec fn name_not() -> Seq<char> {
    seq!['n', 'o', 't']
}

pub open spec fn name_and() -> Seq<char> {
    seq!['a', 'n', 'd']
}

pub open spec fn name_or() -> Seq<char> {
    seq!['o', 'r']
}

pub open spec fn name_add() -> Seq<char> {
    seq!['a', 'd', 'd']
}

pub open spec fn name_mul() -> Seq<char> {
    seq!['m', 'u', 'l']
}

pub open spec fn name_fract() -> Seq<char> {
    seq!['f', 'r', 'a', 'c', 't']
}

/// The table with each built-in under its own name.
pub open spec fn default_table() -> Map<Seq<char>, Builtin> {
    Map::empty().insert(name_not(), Builtin::Not).insert(name_and(), Builtin::And).insert(
        name_or(),
        Builtin::Or,
    ).insert(name_add(), Builtin::Add).insert(name_mul(), Builtin::Mul).insert(
        name_fract(),
        Builtin::Fract,
    )
}

impl View for Functions {
    type V = Map<Seq<char>, Builtin>;

    closed spec fn view(&self) -> Map<Seq<char>, Builtin> {
        self.table@
    }
}

impl Functions {
    pub fn new() -> (r: Self)
        ensures
            r@ == Map::<Seq<char>, Builtin>::empty(),
    {
        Functions { table: NameMap::new() }
    }

    pub fn default() -> (r: Self)
        ensures
            r@ == default_table(),
    {
        let mut r = Self::new();
        r.insert("not", Builtin::Not);
        r.insert("and", Builtin::And);
        r.insert("or", Builtin::Or);
        r.insert("add", Builtin::Add);
        r.insert("mul", Builtin::Mul);
        r.insert("fract", Builtin::Fract);
        proof {
            reveal_strlit("not");
            reveal_strlit("and");
            reveal_strlit("or");
            reveal_strlit("add");
            reveal_strlit("mul");
            reveal_strlit("fract");
            assert("not"@ =~= name_not());
            assert("and"@ =~= name_and());
            assert("or"@ =~= name_or());
            assert("add"@ =~= name_add());
            assert("mul"@ =~= name_mul());
            assert("fract"@ =~= name_fract());
        }
        r
    }

    pub fn insert(&mut self, key: &str, value: Builtin)
        ensures
            final(self)@ == old(self)@.insert(key@, value),
    {
        self.table.insert(key.to_owned(), value);
    }

    pub fn get(&self, key: &str) -> (r: Option<Builtin>)
        ensures
            r == if self@.contains_key(key@) {
                Some(self@[key@])
            } else {
                None::<Builtin>
            },
    {
        self.table.get(&key.to_owned())
    }
}

/// The value of an argument that has been evaluated.
pub open spec fn arg_value(e: Node) -> Value {
    match e.kind {
        NodeKind::Leaf(v) => v,
        _ => Value::Bool(false),
    }
}

/// An operation's outcome, its error placed at node `at`.
pub open spec fn placed(r: Result<Value, ErrorKind>, at: Node) -> Result<Value, Fault> {
    match r {
        Ok(v) => Ok(v),
        Err(k) => Err(Fault { start: at.start, len: at.len, kind: k }),
    }
}

/// `and` (or `or`) of the first `n` arguments, from `true` (`false`).
pub open spec fn fold_logic(args: Seq<Node>, n: int, conj: bool) -> Result<Value, Fault>
    decreases n,
{
    if n <= 0 {
        Ok(Value::Bool(conj))
    } else {
        match fold_logic(args, n - 1, conj) {
            Err(f) => Err(f),
            Ok(acc) => placed(
                if conj {
                    spec_and(acc, arg_value(args[n - 1]))
                } else {
                    spec_or(acc, arg_value(args[n - 1]))
                },
                args[n - 1],
            ),
        }
    }
}

/// The sum (or product) of the first `n` arguments, from the first.
pub open spec fn fold_arith(args: Seq<Node>, n: int, sum: bool) -> Result<Value, Fault>
    decreases n,
{
    if n <= 1 {
        Ok(arg_value(args[0]))
    } else {
        match fold_arith(args, n - 1, sum) {
            Err(f) => Err(f),
            Ok(acc) => placed(
                if sum {
                    spec_add(acc, arg_value(args[n - 1]))
                } else {
                    spec_mul(acc, arg_value(args[n - 1]))
                },
                args[n - 1],
            ),
        }
    }
}

/// What a built-in makes of its arguments, called at `call`. The count of
/// arguments is checked first.
pub open spec fn builtin_spec(b: Builtin, call: Node, args: Seq<Node>) -> Result<Value, Fault> {
    let count = Fault { start: call.start, len: call.len, kind: ErrorKind::ArgumentCount };
    match b {
        Builtin::Not => if args.len() != 1 {
            Err(count)
        } else {
            placed(spec_not(arg_value(args[0])), args[0])
        },
        Builtin::And => if args.len() < 1 {
            Err(count)
        } else {
            fold_logic(args, args.len() as int, true)
        },
        Builtin::Or => if args.len() < 1 {
            Err(count)
        } else {
            fold_logic(args, args.len() as int, false)
        },
        Builtin::Add => if args.len() < 2 {
            Err(count)
        } else {
            fold_arith(args, args.len() as int, true)
        },
        Builtin::Mul => if args.len() < 2 {
            Err(count)
        } else {
            fold_arith(args, args.len() as int, false)
        },
        Builtin::Fract => if args.len() != 1 {
            Err(count)
        } else {
            placed(spec_fract(arg_value(args[0])), args[0])
        },
    }
}

pub open spec fn all_leaves(args: Seq<Expr>) -> bool {
    forall|k: int| 0 <= k < args.len() ==> (#[trigger] args[k]).value is Primitive
}

pub open spec fn arg_nodes(args: Seq<Expr>) -> Seq<Node> {
    args.map_values(|e: Expr| e@)
}

/// `r` is what built-in `b` gives at `location` on `args`: a leaf there,
/// or an error at the call or at one of the arguments.
pub open spec fn answers(b: Builtin, location: Location, args: Seq<Expr>, r: Result<Expr, EvalError>) -> bool {
    let call = Node { start: location.start as int, len: location.len as int, kind: NodeKind::Leaf(Value::Bool(false)) };
    &&& match builtin_spec(b, call, arg_nodes(args)) {
        Ok(v) => r is Ok && r->Ok_0.location == location && r->Ok_0.value is Primitive
            && r->Ok_0.value->Primitive_0@ == v,
        Err(f) => r is Err && r->Err_0.fault() == f,
    }
    &&& r is Err ==> if r->Err_0.message.kind() == ErrorKind::ArgumentCount {
        r->Err_0.location == location
    } else {
        exists|k: int|
            0 <= k < args.len() && r->Err_0.location == (#[trigger] args[k]).location
                && first_failure(b, arg_nodes(args), k)
    }
}

/// Argument `k` is the one at which built-in `b` first fails.
pub open spec fn first_failure(b: Builtin, ns: Seq<Node>, k: int) -> bool {
    match b {
        Builtin::Not => k == 0,
        Builtin::Fract => k == 0,
        Builtin::And => fold_logic(ns, k, true) is Ok && fold_logic(ns, k + 1, true) is Err,
        Builtin::Or => fold_logic(ns, k, false) is Ok && fold_logic(ns, k + 1, false) is Err,
        Builtin::Add => 1 <= k && fold_arith(ns, k, true) is Ok && fold_arith(ns, k + 1, true) is Err,
        Builtin::Mul => 1 <= k && fold_arith(ns, k, false) is Ok && fold_arith(ns, k + 1, false)
            is Err,
    }
}

fn value_of(e: &Expr) -> (p: Primitive)
    requires
        e.value is Primitive,
    ensures
        p == e.value->Primitive_0,
{
    match &e.value {
        ExprValue::Primitive(p) => *p,
        _ => Primitive::Boolean(false),
    }
}

fn count_error(location: Location) -> (r: Result<Expr, EvalError>)
    ensures
        r is Err,
        r->Err_0.location == location,
        r->Err_0.message.kind() == ErrorKind::ArgumentCount,
{
    Err(EvalError { location, message: EvalErrorMessage::ArgumentCount })
}

pub fn f_not<A: FloatArith>(location: Location, args: Vec<Expr>, arith: &A) -> (r: Result<Expr, EvalError>)
    requires
        all_leaves(args@),
    ensures
        answers(Builtin::Not, location, args@, r),
{
    if args.len() != 1 {
        return count_error(location);
    }
    match value_of(&args[0]).not(arith) {
        Ok(v) => Ok(Expr { location, value: ExprValue::Primitive(v) }),
        Err(m) => Err(args[0].error_here(m)),
    }
}

pub fn f_fract<A: FloatArith>(location: Location, args: Vec<Expr>, arith: &A) -> (r: Result<
    Expr,
    EvalError,
>)
    requires
        all_leaves(args@),
    ensures
        answers(Builtin::Fract, location, args@, r),
{
    if args.len() != 1 {
        return count_error(location);
    }
    match value_of(&args[0]).fract(arith) {
        Ok(v) => Ok(Expr { location, value: ExprValue::Primitive(v) }),
        Err(m) => Err(args[0].error_here(m)),
    }
}

/// `and` when `conj`, else `or`.
fn fold_bools<A: FloatArith>(location: Location, args: Vec<Expr>, conj: bool, arith: &A) -> (r: Result<Expr, EvalError>)
    requires
        all_leaves(args@),
        args.len() >= 1,
    ensures
        ({
            let call = Node { start: location.start as int, len: location.len as int, kind: NodeKind::Leaf(Value::Bool(false)) };
            match fold_logic(arg_nodes(args@), args.len() as int, conj) {
                Ok(v) => r is Ok && r->Ok_0.location == location && r->Ok_0.value is Primitive
                    && r->Ok_0.value->Primitive_0@ == v,
                Err(f) => r is Err && r->Err_0.fault() == f,
            }
        }),
        r is Err ==> r->Err_0.message.kind() != ErrorKind::ArgumentCount && exists|k: int|
            0 <= k < args.len() && r->Err_0.location == (#[trigger] args@[k]).location
                && fold_logic(arg_nodes(args@), k, conj) is Ok && fold_logic(
                arg_nodes(args@),
                k + 1,
                conj,
            ) is Err,
{
    let ghost ns = arg_nodes(args@);
    let mut acc = Primitive::Boolean(conj);
    let mut i: usize = 0;
    while i < args.len()
        invariant
            all_leaves(args@),
            ns == arg_nodes(args@),
            i <= args.len(),
            fold_logic(ns, i as int, conj) == Ok::<Value, Fault>(acc@),
        decreases args.len() - i,
    {
        let v = value_of(&args[i]);
        assert(arg_value(ns[i as int]) == v@);
        let step = if conj {
            acc.and(&v, arith)
        } else {
            acc.or(&v, arith)
        };
        match step {
            Ok(x) => {
                acc = x;
            },
            Err(m) => {
                let e = args[i].error_here(m);
                proof {
                    lemma_logic_fails_on(ns, i + 1, args.len() as int, conj);
                }
                return Err(e);
            },
        }
        i += 1;
    }
    Ok(Expr { location, value: ExprValue::Primitive(acc) })
}

/// Once a fold of `and` or `or` has failed, it stays failed.
pub proof fn lemma_logic_fails_on(args: Seq<Node>, k: int, j: int, conj: bool)
    requires
        fold_logic(args, k, conj) is Err,
        0 <= k <= j,
    ensures
        fold_logic(args, j, conj) == fold_logic(args, k, conj),
    decreases j - k,
{
    if j > k {
        lemma_logic_fails_on(args, k, j - 1, conj);
    }
}

/// Once a sum or product has failed, it stays failed.
pub proof fn lemma_arith_fails_on(args: Seq<Node>, k: int, j: int, sum: bool)
    requires
        fold_arith(args, k, sum) is Err,
        1 <= k <= j,
    ensures
        fold_arith(args, j, sum) == fold_arith(args, k, sum),
    decreases j - k,
{
    if j > k {
        lemma_arith_fails_on(args, k, j - 1, sum);
    }
}

/// The sum when `sum`, else the product.
fn fold_numbers<A: FloatArith>(location: Location, args: Vec<Expr>, sum: bool, arith: &A) -> (r: Result<Expr, EvalError>)
    requires
        all_leaves(args@),
        args.len() >= 2,
    ensures
        match fold_arith(arg_nodes(args@), args.len() as int, sum) {
            Ok(v) => r is Ok && r->Ok_0.location == location && r->Ok_0.value is Primitive
                && r->Ok_0.value->Primitive_0@ == v,
            Err(f) => r is Err && r->Err_0.fault() == f,
        },
        r is Err ==> r->Err_0.message.kind() != ErrorKind::ArgumentCount && exists|k: int|
            0 <= k < args.len() && r->Err_0.location == (#[trigger] args@[k]).location && 1 <= k
                && fold_arith(arg_nodes(args@), k, sum) is Ok && fold_arith(
                arg_nodes(args@),
                k + 1,
                sum,
            ) is Err,
{
    let ghost ns = arg_nodes(args@);
    let mut acc = value_of(&args[0]);
    let mut i: usize = 1;
    while i < args.len()
        invariant
            all_leaves(args@),
            ns == arg_nodes(args@),
            1 <= i <= args.len(),
            fold_arith(ns, i as int, sum) == Ok::<Value, Fault>(acc@),
        decreases args.len() - i,
    {
        let v = value_of(&args[i]);
        assert(arg_value(ns[i as int]) == v@);
        let step = if sum {
            acc.add(&v, arith)
        } else {
            acc.mul(&v, arith)
        };
        match step {
            Ok(x) => {
                acc = x;
            },
            Err(m) => {
                let e = args[i].error_here(m);
                proof {
                    lemma_arith_fails_on(ns, i + 1, args.len() as int, sum);
                }
                return Err(e);
            },
        }
        i += 1;
    }
    Ok(Expr { location, value: ExprValue::Primitive(acc) })
}

pub fn f_and<A: FloatArith>(location: Location, args: Vec<Expr>, arith: &A) -> (r: Result<Expr, EvalError>)
    requires
        all_leaves(args@),
    ensures
        answers(Builtin::And, location, args@, r),
{
    if args.len() < 1 {
        return count_error(location);
    }
    fold_bools(location, args, true, arith)
}

pub fn f_or<A: FloatArith>(location: Location, args: Vec<Expr>, arith: &A) -> (r: Result<Expr, EvalError>)
    requires
        all_leaves(args@),
    ensures
        answers(Builtin::Or, location, args@, r),
{
    if args.len() < 1 {
        return count_error(location);
    }
    fold_bools(location, args, false, arith)
}

pub fn f_add<A: FloatArith>(location: Location, args: Vec<Expr>, arith: &A) -> (r: Result<Expr, EvalError>)
    requires
        all_leaves(args@),
    ensures
        answers(Builtin::Add, location, args@, r),
{
    if args.len() < 2 {
        return count_error(location);
    }
    fold_numbers(location, args, true, arith)
}

pub fn f_mul<A: FloatArith>(location: Location, args: Vec<Expr>, arith: &A) -> (r: Result<Expr, EvalError>)
    requires
        all_leaves(args@),
    ensures
        answers(Builtin::Mul, location, args@, r),
{
    if args.len() < 2 {
        return count_error(location);
    }
    fold_numbers(location, args, false, arith)
}

/// Calls built-in `b` at `location` on `args`.
pub fn apply<A: FloatArith>(b: Builtin, location: Location, args: Vec<Expr>, arith: &A) -> (r: Result<Expr, EvalError>)
    requires
        all_leaves(args@),
    ensures
        answers(b, location, args@, r),
{
    match b {
        Builtin::Not => f_not(location, args, arith),
        Builtin::And => f_and(location, args, arith),
        Builtin::Or => f_or(location, args, arith),
        Builtin::Add => f_add(location, args, arith),
        Builtin::Mul => f_mul(location, args, arith),
        Builtin::Fract => f_fract(location, args, arith),
    }
}

} // verus!
