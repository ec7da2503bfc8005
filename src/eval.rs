use vstd::prelude::*;

use crate::error::{EvalError, Fault};
use crate::functions::{all_leaves, answers, apply, arg_nodes, builtin_spec, Builtin, Functions};
use crate::parser::{
    node_spans_in, nodes_of, parse, parse_spec, post_order, Expr, ExprTree, ExprValue, Node,
    NodeKind,
};
use crate::format_value::{decimal_text, digit_char, digits_of, magnitude};
use crate::scanner::{
    digit_value, is_base_digit, lemma_separators_ignored, radix_of, without_separators, float_len, in_class, int_end, is_digit, lex_at, lexed_all, numeral, radix_at, run, scan,
    scan_from, scan_spec, trim, CharClass, Lexed, Lexeme,
};
use crate::value::{fits_i128, Context, ErrorKind, EvalErrorMessage, FloatArith, Primitive, Value};

verus! {

/// The first `k` nodes with each symbol replaced by its constant, or the
/// first symbol that the context lacks.
pub open spec fn resolve_upto(ns: Seq<Node>, ctx: Map<Seq<char>, Primitive>, k: int) -> Result<
    Seq<Node>,
    Fault,
>
    decreases k,
{
    if k <= 0 {
        Ok(seq![])
    } else {
        match resolve_upto(ns, ctx, k - 1) {
            Err(f) => Err(f),
            Ok(done) => {
                let nd = ns[k - 1];
                match nd.kind {
                    NodeKind::Sym(name) => if ctx.contains_key(name) {
                        Ok(
                            done.push(
                                Node { start: nd.start, len: nd.len, kind: NodeKind::Leaf(ctx[name]@) },
                            ),
                        )
                    } else {
                        Err(Fault { start: nd.start, len: nd.len, kind: ErrorKind::UnknownSymbol(name) })
                    },
                    _ => Ok(done.push(nd)),
                }
            },
        }
    }
}

/// The argument nodes of a call, each with its value.
pub open spec fn evaluated_args(ns: Seq<Node>, vals: Seq<Value>, args: Seq<int>) -> Seq<Node> {
    args.map_values(
        |a: int| Node { start: ns[a].start, len: ns[a].len, kind: NodeKind::Leaf(vals[a]) },
    )
}

/// The values of the first `k` nodes, calls applied bottom-up, or the first
/// fault: an unknown function or what a built-in refuses.
pub open spec fn apply_upto(ns: Seq<Node>, fns: Map<Seq<char>, Builtin>, k: int) -> Result<
    Seq<Value>,
    Fault,
>
    decreases k,
{
    if k <= 0 {
        Ok(seq![])
    } else {
        match apply_upto(ns, fns, k - 1) {
            Err(f) => Err(f),
            Ok(vals) => {
                let nd = ns[k - 1];
                let call = Node { start: nd.start, len: nd.len, kind: NodeKind::Leaf(Value::Bool(false)) };
                match nd.kind {
                    NodeKind::Leaf(v) => Ok(vals.push(v)),
                    NodeKind::Sym(name) => Err(
                        Fault { start: nd.start, len: nd.len, kind: ErrorKind::UnknownSymbol(name) },
                    ),
                    NodeKind::Call(name, args) => if !fns.contains_key(name) {
                        Err(Fault { start: nd.start, len: nd.len, kind: ErrorKind::UnknownFunction(name) })
                    } else {
                        match builtin_spec(fns[name], call, evaluated_args(ns, vals, args)) {
                            Ok(v) => Ok(vals.push(v)),
                            Err(f) => Err(f),
                        }
                    },
                }
            },
        }
    }
}

/// What `text` evaluates to: scanned, parsed, its symbols resolved in
/// `ctx`, its calls applied with `fns`; the value of the root, or the
/// first fault.
pub open spec fn eval_spec(
    text: Seq<char>,
    ctx: Map<Seq<char>, Primitive>,
    fns: Map<Seq<char>, Builtin>,
) -> Result<Value, Fault> {
    match scan_spec(text) {
        Err(f) => Err(f),
        Ok(ts) => match parse_spec(ts) {
            Err(f) => Err(f),
            Ok(ns) => match resolve_upto(ns, ctx, ns.len() as int) {
                Err(f) => Err(f),
                Ok(rs) => match apply_upto(rs, fns, rs.len() as int) {
                    Err(f) => Err(f),
                    Ok(vals) => Ok(vals.last()),
                },
            },
        },
    }
}

pub proof fn lemma_resolve_fails_on(ns: Seq<Node>, ctx: Map<Seq<char>, Primitive>, k: int, j: int)
    requires
        resolve_upto(ns, ctx, k) is Err,
        0 <= k <= j,
    ensures
        resolve_upto(ns, ctx, j) == resolve_upto(ns, ctx, k),
    decreases j - k,
{
    if j > k {
        lemma_resolve_fails_on(ns, ctx, k, j - 1);
    }
}

pub proof fn lemma_apply_fails_on(ns: Seq<Node>, fns: Map<Seq<char>, Builtin>, k: int, j: int)
    requires
        apply_upto(ns, fns, k) is Err,
        0 <= k <= j,
    ensures
        apply_upto(ns, fns, j) == apply_upto(ns, fns, k),
    decreases j - k,
{
    if j > k {
        lemma_apply_fails_on(ns, fns, k, j - 1);
    }
}

pub proof fn lemma_resolve_len(ns: Seq<Node>, ctx: Map<Seq<char>, Primitive>, k: int)
    requires
        resolve_upto(ns, ctx, k) is Ok,
        0 <= k,
    ensures
        resolve_upto(ns, ctx, k)->Ok_0.len() == k,
    decreases k,
{
    if k > 0 {
        lemma_resolve_len(ns, ctx, k - 1);
    }
}

/// `after` is `before` resolved in `ctx`: a symbol replaced by its value,
/// anything else kept.
pub open spec fn resolved_node(before: Expr, after: Expr, ctx: Map<Seq<char>, Primitive>) -> bool {
    &&& after.location == before.location
    &&& match before.value {
        ExprValue::Symbol(s) => after.value == ExprValue::Primitive(ctx[s@]),
        _ => after.value == before.value,
    }
}

pub open spec fn values_of(ps: Seq<Primitive>) -> Seq<Value> {
    ps.map_values(|p: Primitive| p@)
}

impl ExprTree {
    /// Replaces every symbol by its value in `ctx`.
    pub(crate) fn resolve_all(self, ctx: &Context, text: Ghost<Seq<char>>) -> (r: Result<ExprTree, EvalError>)
        requires
            self.wf(),
            node_spans_in(self.nodes@, text@),
        ensures
            match resolve_upto(nodes_of(self.nodes@), ctx@, self.nodes.len() as int) {
                Ok(rs) => r is Ok && nodes_of(r->Ok_0.nodes@) == rs && r->Ok_0.wf() && node_spans_in(
                    r->Ok_0.nodes@,
                    text@,
                ),
                Err(f) => r is Err && r->Err_0.fault() == f && r->Err_0.location.string@ == text@
                    && r->Err_0.location.wf(),
            },
            r is Ok ==> r->Ok_0.nodes.len() == self.nodes.len() && forall|k: int|
                0 <= k < self.nodes.len() ==> resolved_node(
                    self.nodes@[k],
                    #[trigger] r->Ok_0.nodes@[k],
                    ctx@,
                ),
    {
        let ghost orig = nodes_of(self.nodes@);
        let ghost orig_exec = self.nodes@;
        let mut nodes = self.nodes;
        let n = nodes.len();
        let mut i: usize = 0;
        assert(nodes_of(nodes@).subrange(0, 0) =~= Seq::<Node>::empty());
        assert(nodes_of(nodes@).subrange(0, n as int) =~= orig);
        while i < n
            invariant
                orig == nodes_of(self.nodes@),
                self.nodes.len() == n,
                n == nodes.len(),
                n == orig.len(),
                i <= n,
                resolve_upto(orig, ctx@, i as int) == Ok::<Seq<Node>, Fault>(
                    nodes_of(nodes@).subrange(0, i as int),
                ),
                nodes_of(nodes@).subrange(i as int, n as int) == orig.subrange(i as int, n as int),
                post_order(nodes_of(nodes@)),
                node_spans_in(nodes@, text@),
                n > 0,
                orig_exec == self.nodes@,
                forall|k: int| 0 <= k < i ==> resolved_node(orig_exec[k], #[trigger] nodes@[k], ctx@),
                forall|k: int| i <= k < n ==> #[trigger] nodes@[k] == orig_exec[k],
            decreases n - i,
        {
            let ghost before = nodes_of(nodes@);
            assert(before[i as int] == before.subrange(i as int, n as int)[0]);
            assert(before[i as int] == nodes@[i as int]@);
            assert(orig[i as int] == before[i as int]);
            let replacement: Option<Expr> = match &nodes[i].value {
                ExprValue::Symbol(name) => match ctx.get(name) {
                    Some(p) => Some(
                        Expr { location: nodes[i].location.duplicate(), value: ExprValue::Primitive(p) },
                    ),
                    None => {
                        let e = nodes[i].error_here(EvalErrorMessage::UnknownSymbol(name.clone()));
                        proof {
                            lemma_resolve_fails_on(orig, ctx@, i + 1, n as int);
                        }
                        return Err(e);
                    },
                },
                _ => None,
            };
            if let Some(e) = replacement {
                nodes.set(i, e);
            }
            proof {
                let after = nodes_of(nodes@);
                assert(after.subrange(0, i + 1) =~= before.subrange(0, i as int).push(after[i as int]));
                assert(after.subrange(i + 1, n as int) =~= before.subrange(i + 1, n as int));
                assert(before.subrange(i + 1, n as int) =~= before.subrange(i as int, n as int).subrange(1, n - i));
                assert(orig.subrange(i + 1, n as int) =~= orig.subrange(i as int, n as int).subrange(1, n - i));
                assert forall|a: int, m: int|
                    0 <= a < after.len() && after[a].kind is Call && 0 <= m < after[a].kind->Call_1.len()
                    implies 0 <= #[trigger] after[a].kind->Call_1[m] < a by {
                    assert(after[a] == before[a]);
                }
            }
            i += 1;
        }
        proof {
            assert(nodes_of(nodes@).subrange(0, n as int) =~= nodes_of(nodes@));
        }
        Ok(ExprTree { nodes })
    }

    /// Applies every call, innermost first, and gives the root's value.
    pub(crate) fn call_functions<A: FloatArith>(
        &self,
        fns: &Functions,
        arith: &A,
        text: Ghost<Seq<char>>,
    ) -> (r: Result<Primitive, EvalError>)
        requires
            self.wf(),
            node_spans_in(self.nodes@, text@),
        ensures
            match apply_upto(nodes_of(self.nodes@), fns@, self.nodes.len() as int) {
                Ok(vals) => r is Ok && r->Ok_0@ == vals.last(),
                Err(f) => r is Err && r->Err_0.fault() == f && r->Err_0.location.string@ == text@
                    && r->Err_0.location.wf(),
            },
            r is Ok && self.nodes@.last().value is Primitive ==> r->Ok_0
                == self.nodes@.last().value->Primitive_0,
    {
        let ghost ns = nodes_of(self.nodes@);
        let n = self.nodes.len();
        let mut vals: Vec<Primitive> = Vec::new();
        let mut i: usize = 0;
        assert(values_of(vals@) =~= Seq::<Value>::empty());
        while i < n
            invariant
                ns == nodes_of(self.nodes@),
                n == self.nodes.len(),
                self.wf(),
                node_spans_in(self.nodes@, text@),
                i <= n,
                vals.len() == i,
                apply_upto(ns, fns@, i as int) == Ok::<Seq<Value>, Fault>(values_of(vals@)),
                forall|k: int|
                    0 <= k < i && (#[trigger] self.nodes@[k]).value is Primitive ==> vals@[k]
                        == self.nodes@[k].value->Primitive_0,
            decreases n - i,
        {
            let ghost pre = vals@;
            let node = &self.nodes[i];
            assert(ns[i as int] == node@);
            match &node.value {
                ExprValue::Primitive(p) => {
                    vals.push(*p);
                },
                ExprValue::Symbol(name) => {
                    let e = node.error_here(EvalErrorMessage::UnknownSymbol(name.clone()));
                    proof {
                        lemma_apply_fails_on(ns, fns@, i + 1, n as int);
                    }
                    return Err(e);
                },
                ExprValue::Call(name, args) => {
                    let key = name.as_str();
                    let b = match fns.get(key) {
                        Some(b) => b,
                        None => {
                            let e = node.error_here(EvalErrorMessage::UnknownFunction(name.clone()));
                            proof {
                                lemma_apply_fails_on(ns, fns@, i + 1, n as int);
                            }
                            return Err(e);
                        },
                    };
                    let ghost want = evaluated_args(ns, values_of(vals@), ns[i as int].kind->Call_1);
                    let mut argv: Vec<Expr> = Vec::new();
                    let mut m: usize = 0;
                    while m < args.len()
                        invariant
                            ns == nodes_of(self.nodes@),
                            n == self.nodes.len(),
                            self.wf(),
                            node_spans_in(self.nodes@, text@),
                            i < n,
                            vals.len() == i,
                            node == self.nodes@[i as int],
                            node.value == ExprValue::Call(*name, *args),
                            ns[i as int] == node@,
                            want == evaluated_args(ns, values_of(vals@), ns[i as int].kind->Call_1),
                            m <= args.len(),
                            argv.len() == m,
                            all_leaves(argv@),
                            arg_nodes(argv@) == want.subrange(0, m as int),
                            forall|k: int| 0 <= k < m ==> (#[trigger] argv@[k]).location == self.nodes@[args@[k] as int].location,
                        decreases args.len() - m,
                    {
                        let a = args[m];
                        assert(ns[i as int].kind->Call_1[m as int] == a as int);
                        assert(a < i);
                        let arg = Expr {
                            location: self.nodes[a].location.duplicate(),
                            value: ExprValue::Primitive(vals[a]),
                        };
                        argv.push(arg);
                        proof {
                            assert(ns[a as int] == self.nodes@[a as int]@);
                            assert(values_of(vals@)[a as int] == vals@[a as int]@);
                            assert(arg_nodes(argv@) =~= want.subrange(0, m + 1));
                        }
                        m += 1;
                    }
                    proof {
                        assert(want.len() == args.len());
                        assert(want.subrange(0, m as int) =~= want);
                        assert(key@ == name@);
                        assert(fns@.contains_key(name@));
                        assert(b == fns@[name@]);
                        assert(ns[i as int].kind == NodeKind::Call(name@, args@.map_values(|a: usize| a as int)));
                    }
                    let ghost old_vals = values_of(vals@);
                    let ghost call = Node { start: node.location.start as int, len: node.location.len as int, kind: NodeKind::Leaf(Value::Bool(false)) };
                    assert(apply_upto(ns, fns@, i + 1) == match builtin_spec(b, call, want) {
                        Ok(v) => Ok(old_vals.push(v)),
                        Err(f) => Err(f),
                    });
                    let loc = node.location.duplicate();
                    assert(arg_nodes(argv@) == want);
                    let ghost argv_view = argv@;
                    let res = apply(b, loc, argv, arith);
                    assert(answers(b, loc, argv_view, res));
                    assert(Node { start: loc.start as int, len: loc.len as int, kind: NodeKind::Leaf(Value::Bool(false)) } == call);
                    match res {
                        Ok(e) => {
                            assert(builtin_spec(b, call, want) == Ok::<Value, Fault>(e.value->Primitive_0@));
                            let v = match e.value {
                                ExprValue::Primitive(p) => p,
                                _ => Primitive::Boolean(false),
                            };
                            vals.push(v);
                        },
                        Err(e) => {
                            proof {
                                lemma_apply_fails_on(ns, fns@, i + 1, n as int);
                                if e.location != node.location {
                                    let k = choose|k: int| 0 <= k < argv.len() && e.location == (#[trigger] argv@[k]).location;
                                    assert(ns[i as int].kind->Call_1[k] == args@[k] as int);
                                    assert(e.location == self.nodes@[args@[k] as int].location);
                                }
                            }
                            return Err(e);
                        },
                    }
                },
            }
            proof {
                assert(vals@.drop_last() =~= pre);
                assert(values_of(vals@) =~= values_of(vals@.drop_last()).push(vals@.last()@));
            }
            i += 1;
        }
        assert(values_of(vals@).last() == vals@[n - 1]@);
        Ok(vals[n - 1])
    }
}

/// Evaluates `text` against the constants `ctx` and the functions `fns`,
/// with float arithmetic by `arith`: the value, or the first error of
/// scanning, parsing, resolving or applying.
pub fn evaluate<A: FloatArith>(text: &str, ctx: &Context, fns: &Functions, arith: &A) -> (r: Result<
    Primitive,
    EvalError,
>)
    ensures
        evaluation(text@, ctx@, fns@, r),
{
    let tokens = match scan(text, arith) {
        Ok(t) => t,
        Err(e) => {
            return Err(e);
        },
    };
    proof {
        if lone_symbol(text@) is Some {
            let ts = lexed_all(tokens@);
            assert(ts.len() == 1);
            assert(parse_spec(ts) is Ok);
        }
    }
    let tree = match parse(&tokens, text) {
        Ok(t) => t,
        Err(e) => {
            return Err(e);
        },
    };
    let ghost ns = nodes_of(tree.nodes@);
    let ghost parsed = tree.nodes@;
    proof {
        if lone_symbol(text@) is Some {
            assert(ns.len() == 1);
            if ctx@.contains_key(lone_symbol(text@)->Some_0) {
                assert(resolve_upto(ns, ctx@, 0) == Ok::<Seq<Node>, Fault>(seq![]));
                assert(resolve_upto(ns, ctx@, 1) is Ok);
            }
        }
    }
    let tree = match tree.resolve_all(ctx, Ghost(text@)) {
        Ok(t) => t,
        Err(e) => {
            return Err(e);
        },
    };
    proof {
        lemma_resolve_len(ns, ctx@, ns.len() as int);
        if let Some(name) = lone_symbol(text@) {
            assert(ns[0] == parsed[0]@);
            assert(parsed[0].value is Symbol);
            assert(resolved_node(parsed[0], tree.nodes@[0], ctx@));
            assert(tree.nodes@.last() == tree.nodes@[0]);
        }
    }
    let r = tree.call_functions(fns, arith, Ghost(text@));
    proof {
        if lone_symbol(text@) is Some && ctx@.contains_key(lone_symbol(text@)->Some_0) {
            let rs = nodes_of(tree.nodes@);
            assert(rs.len() == 1);
            assert(rs[0] == tree.nodes@[0]@);
            assert(rs[0].kind is Leaf);
            assert(apply_upto(rs, fns@, 0) == Ok::<Seq<Value>, Fault>(seq![]));
            assert(apply_upto(rs, fns@, 1) is Ok);
        }
    }
    r
}

/// The name that `text` consists of, where it is one symbol alone.
pub open spec fn lone_symbol(text: Seq<char>) -> Option<Seq<char>> {
    match scan_spec(text) {
        Ok(ts) => if ts.len() == 1 && ts[0].lexeme is Symbol {
            Some(ts[0].lexeme->Symbol_0)
        } else {
            None
        },
        Err(_) => None,
    }
}

/// `r` is what evaluating `text` gives: the value or the fault of
/// `eval_spec`, the error's span lying in `text`; and a lone symbol that
/// the context binds gives exactly its constant, a float's bits included.
pub open spec fn evaluation(
    text: Seq<char>,
    ctx: Map<Seq<char>, Primitive>,
    fns: Map<Seq<char>, Builtin>,
    r: Result<Primitive, EvalError>,
) -> bool {
    &&& match eval_spec(text, ctx, fns) {
        Ok(v) => r is Ok && r->Ok_0@ == v,
        Err(f) => r is Err && r->Err_0.fault() == f && r->Err_0.location.string@ == text
            && r->Err_0.location.wf(),
    }
    &&& (lone_symbol(text) is Some && ctx.contains_key(lone_symbol(text)->Some_0) ==> r
        == Ok::<Primitive, EvalError>(ctx[lone_symbol(text)->Some_0]))
}

/// A run of a class reaches the end of a text that holds only that class
/// from `i` on.
pub proof fn lemma_run_to_end(s: Seq<char>, i: int, k: CharClass)
    requires
        0 <= i <= s.len(),
        forall|m: int| i <= m < s.len() ==> in_class(#[trigger] s[m], k),
    ensures
        run(s, i, k) == s.len() - i,
    decreases s.len() - i,
{
    if i < s.len() {
        lemma_run_to_end(s, i + 1, k);
    }
}

/// A decimal integer literal, with an optional sign and without
/// separators, evaluates to its value wherever that fits an `i128`, in any
/// context and with any functions.
pub proof fn lemma_integer_literal(
    sign: Seq<char>,
    ds: Seq<char>,
    ctx: Map<Seq<char>, Primitive>,
    fns: Map<Seq<char>, Builtin>,
)
    requires
        sign == Seq::<char>::empty() || sign == seq!['+'] || sign == seq!['-'],
        ds.len() > 0,
        forall|m: int| 0 <= m < ds.len() ==> is_digit(#[trigger] ds[m]),
        fits_i128(
            if sign == seq!['-'] {
                -numeral(ds, 10)
            } else {
                numeral(ds, 10)
            },
        ),
    ensures
        eval_spec(sign + ds, ctx, fns) == Ok::<Value, Fault>(
            Value::Int(
                if sign == seq!['-'] {
                    -numeral(ds, 10)
                } else {
                    numeral(ds, 10)
                },
            ),
        ),
{
    let s = sign + ds;
    let n = s.len() as int;
    let j = sign.len() as int;
    let v = if sign == seq!['-'] {
        -numeral(ds, 10)
    } else {
        numeral(ds, 10)
    };
    assert forall|m: int| j <= m < n implies in_class(#[trigger] s[m], CharClass::Digit) by {
        assert(s[m] == ds[m - j]);
    }
    assert forall|m: int| j <= m < n implies in_class(#[trigger] s[m], CharClass::Numeral(10)) by {
        assert(s[m] == ds[m - j]);
    }
    lemma_run_to_end(s, j, CharClass::Digit);
    lemma_run_to_end(s, j, CharClass::Numeral(10));
    assert(float_len(s, 0) == 0);
    if j == 0 && n > 1 {
        assert(s[1] == ds[1]);
    }
    assert(radix_at(s, 0) == 0);
    assert(s[n - 1] == ds[ds.len() - 1]);
    assert(trim(s, j, n, 10) == n);
    assert(int_end(s, 0) == n);
    assert(s.subrange(j, n) =~= ds);
    if j == 1 {
        assert(s[0] == sign[0]);
    }
    let tok = Lexed { start: 0, len: n, lexeme: Lexeme::Int(v) };
    assert(lex_at(s, 0) == Some((Lexeme::Int(v), n)));
    assert(scan_from(s, n) == Ok::<Seq<Lexed>, Fault>(seq![]));
    assert(seq![tok] + Seq::<Lexed>::empty() =~= seq![tok]);
    assert(scan_spec(s) == Ok::<Seq<Lexed>, Fault>(seq![tok]));
    let node = Node { start: 0, len: n, kind: NodeKind::Leaf(Value::Int(v)) };
    assert(resolve_upto(seq![node], ctx, 0) == Ok::<Seq<Node>, Fault>(seq![]));
    assert(seq![].push(node) =~= seq![node]);
    assert(resolve_upto(seq![node], ctx, 1) == Ok::<Seq<Node>, Fault>(seq![node]));
    assert(apply_upto(seq![node], fns, 0) == Ok::<Seq<Value>, Fault>(seq![]));
    assert(apply_upto(seq![node], fns, 1) == Ok::<Seq<Value>, Fault>(seq![Value::Int(v)]));
}


/// The decimal digits of `m` are digits, and read back as `m`.
pub proof fn lemma_digits_read_back(m: nat)
    ensures
        numeral(digits_of(m, 10), 10) == m,
        forall|k: int| 0 <= k < digits_of(m, 10).len() ==> is_digit(#[trigger] digits_of(m, 10)[k]),
        m > 0 ==> digits_of(m, 10).len() > 0,
    decreases m,
{
    if m > 0 {
        let q = m / 10;
        let d = m % 10;
        assert(q < m);
        lemma_digits_read_back(q);
        let x = digits_of(q, 10);
        let c = digit_char(d as int);
        assert(digits_of(m, 10) == x.push(c));
        assert(x.push(c).drop_last() =~= x);
        assert(c as u32 == d + 48);
        assert(m == q * 10 + d);
        assert forall|k: int| 0 <= k < x.push(c).len() implies is_digit(#[trigger] x.push(c)[k]) by {
            if k < x.len() {
                assert(x.push(c)[k] == x[k]);
            }
        }
    }
}

/// Every integer, written in decimal as `Display` writes it, evaluates to
/// itself.
pub proof fn lemma_decimal_round_trip(
    v: i128,
    ctx: Map<Seq<char>, Primitive>,
    fns: Map<Seq<char>, Builtin>,
)
    ensures
        eval_spec(decimal_text(v), ctx, fns) == Ok::<Value, Fault>(Value::Int(v as int)),
{
    if v == 0 {
        assert(numeral(seq!['0'], 10) == 0) by {
            assert(seq!['0'].drop_last() =~= Seq::<char>::empty());
            assert(seq!['0'].last() == '0');
            assert(digit_value('0') == 0);
            assert(numeral(Seq::<char>::empty(), 10) == 0);
        }
        assert(Seq::<char>::empty() + seq!['0'] =~= seq!['0']);
        lemma_integer_literal(Seq::<char>::empty(), seq!['0'], ctx, fns);
    } else {
        lemma_digits_read_back(magnitude(v));
        if v < 0 {
            lemma_integer_literal(seq!['-'], digits_of(magnitude(v), 10), ctx, fns);
        } else {
            assert(Seq::<char>::empty() + digits_of(magnitude(v), 10) =~= digits_of(magnitude(v), 10));
            lemma_integer_literal(Seq::<char>::empty(), digits_of(magnitude(v), 10), ctx, fns);
        }
    }
}


/// A `0b`, `0o` or `0x` literal, `_` separators allowed between its digits,
/// scans to one integer token, and evaluates to, the value of its digits
/// alone in that base: the same value as that number written in decimal.
pub proof fn lemma_radix_literal(
    c: char,
    ds: Seq<char>,
    ctx: Map<Seq<char>, Primitive>,
    fns: Map<Seq<char>, Builtin>,
)
    requires
        radix_of(c) != 0,
        ds.len() > 0,
        forall|m: int| 0 <= m < ds.len() ==> in_class(#[trigger] ds[m], CharClass::Numeral(radix_of(c) as u32)),
        is_base_digit(ds.last(), radix_of(c)),
        fits_i128(numeral(ds, radix_of(c))),
    ensures
        scan_spec(seq!['0', c] + ds) == Ok::<Seq<Lexed>, Fault>(
            seq![
                Lexed {
                    start: 0,
                    len: ds.len() + 2 as int,
                    lexeme: Lexeme::Int(numeral(without_separators(ds), radix_of(c))),
                },
            ],
        ),
        eval_spec(seq!['0', c] + ds, ctx, fns) == Ok::<Value, Fault>(
            Value::Int(numeral(without_separators(ds), radix_of(c))),
        ),
        eval_spec(seq!['0', c] + ds, ctx, fns) == eval_spec(
            decimal_text(numeral(ds, radix_of(c)) as i128),
            ctx,
            fns,
        ),
{
    let base = radix_of(c);
    let s = seq!['0', c] + ds;
    let n = s.len() as int;
    let v = numeral(ds, base);
    assert(s[0] == '0');
    assert(s[1] == c);
    assert forall|m: int| 2 <= m < n implies in_class(#[trigger] s[m], CharClass::Numeral(base as u32)) by {
        assert(s[m] == ds[m - 2]);
    }
    lemma_run_to_end(s, 2, CharClass::Numeral(base as u32));
    assert(run(s, 1, CharClass::Digit) == 0);
    assert(run(s, 0, CharClass::Digit) == 1);
    assert(float_len(s, 0) == 0);
    assert(radix_at(s, 0) == base);
    assert(s[n - 1] == ds.last());
    assert(trim(s, 2, n, base) == n);
    assert(s.subrange(2, n) =~= ds);
    let tok = Lexed { start: 0, len: n, lexeme: Lexeme::Int(v) };
    assert(lex_at(s, 0) == Some((Lexeme::Int(v), n)));
    assert(scan_from(s, n) == Ok::<Seq<Lexed>, Fault>(seq![]));
    assert(seq![tok] + Seq::<Lexed>::empty() =~= seq![tok]);
    assert(scan_spec(s) == Ok::<Seq<Lexed>, Fault>(seq![tok]));
    let node = Node { start: 0, len: n, kind: NodeKind::Leaf(Value::Int(v)) };
    assert(resolve_upto(seq![node], ctx, 0) == Ok::<Seq<Node>, Fault>(seq![]));
    assert(seq![].push(node) =~= seq![node]);
    assert(resolve_upto(seq![node], ctx, 1) == Ok::<Seq<Node>, Fault>(seq![node]));
    assert(apply_upto(seq![node], fns, 0) == Ok::<Seq<Value>, Fault>(seq![]));
    assert(apply_upto(seq![node], fns, 1) == Ok::<Seq<Value>, Fault>(seq![Value::Int(v)]));
    lemma_separators_ignored(ds, base);
    lemma_decimal_round_trip(v as i128, ctx, fns);
}

} // verus!
