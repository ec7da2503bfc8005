use vstd::prelude::*;

use crate::error::{EvalError, Fault, Location};
use crate::scanner::{lexed_all, spans_in, Lexed, Lexeme, Token, TokenValue};
use crate::value::{ErrorKind, EvalErrorMessage, Primitive, Value};

verus! {

/// A node as the contracts see it: its span and what it holds. A call
/// names its arguments by their indices among the nodes.
pub enum NodeKind {
    Leaf(Value),
    Sym(Seq<char>),
    Call(Seq<char>, Seq<int>),
}

pub struct Node {
    pub start: int,
    pub len: int,
    pub kind: NodeKind,
}

#[derive(Debug, Clone)]
pub enum ExprValue {
    Primitive(Primitive),
    Symbol(String),
    /// A function name and the indices of the argument nodes.
    Call(String, Vec<usize>),
}

/// One node of an expression tree.
#[derive(Debug, Clone)]
pub struct Expr {
    pub location: Location,
    pub value: ExprValue,
}

impl View for Expr {
    type V = Node;

    open spec fn view(&self) -> Node {
        Node {
            start: self.location.start as int,
            len: self.location.len as int,
            kind: match self.value {
                ExprValue::Primitive(p) => NodeKind::Leaf(p@),
                ExprValue::Symbol(s) => NodeKind::Sym(s@),
                ExprValue::Call(s, args) => NodeKind::Call(s@, args@.map_values(|a: usize| a as int)),
            },
        }
    }
}

impl Expr {
    pub fn error_here(&self, message: EvalErrorMessage) -> (r: EvalError)
        ensures
            r.location == self.location,
            r.message == message,
    {
        self.location.error_here(message)
    }
}

pub open spec fn nodes_of(es: Seq<Expr>) -> Seq<Node> {
    es.map_values(|e: Expr| e@)
}

/// Every call's arguments come before it.
pub open spec fn post_order(ns: Seq<Node>) -> bool {
    forall|i: int, m: int|
        #![trigger ns[i].kind->Call_1[m]]
        0 <= i < ns.len() && ns[i].kind is Call && 0 <= m < ns[i].kind->Call_1.len() ==> 0
            <= ns[i].kind->Call_1[m] < i
}

/// A parsed expression: its nodes with every call after its arguments, the
/// root last.
pub struct ExprTree {
    pub nodes: Vec<Expr>,
}

impl ExprTree {
    pub open spec fn wf(&self) -> bool {
        self.nodes.len() > 0 && post_order(nodes_of(self.nodes@))
    }
}

/// How a bracketed group starts, while it is open.
pub enum HeadV {
    Empty,
    Named(Seq<char>, int),
    Bad(int),
}

pub struct GroupV {
    pub head: HeadV,
    pub args: Seq<int>,
}

/// The parser's state: the open groups, innermost last, and the nodes made.
pub struct ParseState {
    pub groups: Seq<GroupV>,
    pub nodes: Seq<Node>,
}

pub open spec fn fault_at(t: Lexed, kind: ErrorKind) -> Fault {
    Fault { start: t.start, len: t.len, kind }
}

pub open spec fn leaf_of(t: Lexed) -> Node {
    Node {
        start: t.start,
        len: t.len,
        kind: match t.lexeme {
            Lexeme::Int(v) => NodeKind::Leaf(Value::Int(v)),
            Lexeme::Bool(b) => NodeKind::Leaf(Value::Bool(b)),
            Lexeme::Symbol(s) => NodeKind::Sym(s),
            _ => NodeKind::Leaf(Value::Float),
        },
    }
}

/// A group takes an item made at token `h` as node `idx`: as its head if it
/// has none yet, else as its next argument.
pub open spec fn take_item(g: GroupV, h: int, idx: int) -> GroupV {
    if g.head is Empty {
        GroupV { head: HeadV::Bad(h), args: g.args }
    } else {
        GroupV { head: g.head, args: g.args.push(idx) }
    }
}

/// One step of the parser, at token `k`. An open bracket opens a group; a
/// literal or symbol goes to the innermost group (its first item is the
/// head); a close bracket turns the innermost group into a call, whose head
/// must be a symbol, and hands it to the group around it.
pub open spec fn parse_step(ts: Seq<Lexed>, k: int, st: ParseState) -> Result<ParseState, Fault> {
    let t = ts[k];
    let top = st.groups.last();
    let rest = st.groups.drop_last();
    if st.groups.len() == 0 {
        Err(fault_at(t, ErrorKind::UnexpectedToken))
    } else {
        match t.lexeme {
            Lexeme::Open => Ok(
                ParseState {
                    groups: st.groups.push(GroupV { head: HeadV::Empty, args: seq![] }),
                    nodes: st.nodes,
                },
            ),
            Lexeme::Close => if st.groups.len() == 1 && k + 1 < ts.len() {
                Err(fault_at(ts[k + 1], ErrorKind::UnexpectedToken))
            } else {
                match top.head {
                    HeadV::Empty => Err(fault_at(t, ErrorKind::EmptyExpression)),
                    HeadV::Bad(h) => Err(fault_at(ts[h], ErrorKind::CallNonSymbol)),
                    HeadV::Named(name, h) => {
                        let idx = st.nodes.len() as int;
                        let call = Node {
                            start: ts[h].start,
                            len: ts[h].len,
                            kind: NodeKind::Call(name, top.args),
                        };
                        Ok(
                            ParseState {
                                groups: if rest.len() == 0 {
                                    rest
                                } else {
                                    rest.drop_last().push(take_item(rest.last(), h, idx))
                                },
                                nodes: st.nodes.push(call),
                            },
                        )
                    },
                }
            },
            _ => if top.head is Empty {
                let head = match t.lexeme {
                    Lexeme::Symbol(name) => HeadV::Named(name, k),
                    _ => HeadV::Bad(k),
                };
                Ok(ParseState { groups: rest.push(GroupV { head, args: top.args }), nodes: st.nodes })
            } else {
                let idx = st.nodes.len() as int;
                Ok(
                    ParseState {
                        groups: rest.push(GroupV { head: top.head, args: top.args.push(idx) }),
                        nodes: st.nodes.push(leaf_of(t)),
                    },
                )
            },
        }
    }
}

/// The state after the tokens before `k`, the leading open bracket taken.
pub open spec fn parse_run(ts: Seq<Lexed>, k: int) -> Result<ParseState, Fault>
    decreases k,
{
    if k <= 1 {
        Ok(ParseState { groups: seq![GroupV { head: HeadV::Empty, args: seq![] }], nodes: seq![] })
    } else {
        match parse_run(ts, k - 1) {
            Err(f) => Err(f),
            Ok(st) => parse_step(ts, k - 1, st),
        }
    }
}

/// Once the parser has failed, it stays failed with the same fault.
pub proof fn lemma_run_fails_on(ts: Seq<Lexed>, k: int, j: int)
    requires
        parse_run(ts, k) is Err,
        1 <= k <= j,
    ensures
        parse_run(ts, j) == parse_run(ts, k),
    decreases j - k,
{
    if j > k {
        lemma_run_fails_on(ts, k, j - 1);
    }
}

/// What the tokens parse to: the nodes of the tree, or the fault.
pub open spec fn parse_spec(ts: Seq<Lexed>) -> Result<Seq<Node>, Fault> {
    if ts.len() == 0 {
        Err(Fault { start: 0, len: 0, kind: ErrorKind::EmptyExpression })
    } else if ts.len() == 1 {
        match ts[0].lexeme {
            Lexeme::Open => Err(fault_at(ts[0], ErrorKind::UnmatchedOpen)),
            Lexeme::Close => Err(fault_at(ts[0], ErrorKind::UnmatchedClose)),
            _ => Ok(seq![leaf_of(ts[0])]),
        }
    } else {
        match ts[0].lexeme {
            Lexeme::Open => match parse_run(ts, ts.len() as int) {
                Err(f) => Err(f),
                Ok(st) => if st.groups.len() > 0 {
                    Err(fault_at(ts[0], ErrorKind::UnexpectedToken))
                } else {
                    Ok(st.nodes)
                },
            },
            Lexeme::Close => Err(fault_at(ts[0], ErrorKind::UnmatchedClose)),
            _ => Err(fault_at(ts[1], ErrorKind::UnexpectedToken)),
        }
    }
}

enum GroupHead {
    Empty,
    Named(String, usize),
    Bad(usize),
}

/// A bracketed group that is still open.
struct Group {
    head: GroupHead,
    args: Vec<usize>,
}

impl View for Group {
    type V = GroupV;

    closed spec fn view(&self) -> GroupV {
        GroupV {
            head: match self.head {
                GroupHead::Empty => HeadV::Empty,
                GroupHead::Named(s, h) => HeadV::Named(s@, h as int),
                GroupHead::Bad(h) => HeadV::Bad(h as int),
            },
            args: self.args@.map_values(|a: usize| a as int),
        }
    }
}

spec fn groups_of(gs: Seq<Group>) -> Seq<GroupV> {
    gs.map_values(|g: Group| g@)
}

/// Every group's arguments are made nodes, and its head a token seen.
spec fn group_ok(g: Group, n_nodes: int, n_tokens: int) -> bool {
    &&& forall|m: int| 0 <= m < g.args.len() ==> #[trigger] g.args@[m] < n_nodes
    &&& (g.head matches GroupHead::Named(_, h) ==> h < n_tokens)
    &&& (g.head matches GroupHead::Bad(h) ==> h < n_tokens)
}

spec fn groups_ok(gs: Seq<Group>, n_nodes: int, n_tokens: int) -> bool {
    forall|j: int| 0 <= j < gs.len() ==> group_ok(#[trigger] gs[j], n_nodes, n_tokens)
}

/// Every node's span lies in `text`, and keeps all of it.
pub open spec fn node_spans_in(es: Seq<Expr>, text: Seq<char>) -> bool {
    forall|k: int| 0 <= k < es.len() ==> #[trigger] es[k].location.string@ == text && es[k].location.wf()
}

/// Every literal leaf holds, at the same span, the very value of a
/// literal token: a float's bits included.
pub open spec fn leaves_from(es: Seq<Expr>, ts: Seq<Token>) -> bool {
    forall|k: int|
        0 <= k < es.len() && (#[trigger] es[k]).value is Primitive ==> exists|t: int|
            0 <= t < ts.len() && ts[t].location == es[k].location && ts[t].type_
                == TokenValue::Literal(es[k].value->Primitive_0)
}

fn leaf(t: &Token) -> (e: Expr)
    requires
        !(t.type_ is ExprOpen),
        !(t.type_ is ExprClose),
    ensures
        e@ == leaf_of(t@),
        e.location == t.location,
        e.value is Primitive || e.value is Symbol,
        t.type_ is Literal ==> e.value == ExprValue::Primitive(t.type_->Literal_0),
{
    let value = match &t.type_ {
        TokenValue::Literal(p) => ExprValue::Primitive(*p),
        TokenValue::Symbol(s) => ExprValue::Symbol(s.clone()),
        _ => ExprValue::Primitive(Primitive::Boolean(false)),
    };
    Expr { location: t.location.duplicate(), value }
}

/// Parses a bracketed expression: `tokens` has at least two tokens and
/// starts with an open bracket.
fn parse_expr(tokens: &Vec<Token>, text: Ghost<Seq<char>>) -> (r: Result<Vec<Expr>, EvalError>)
    requires
        tokens.len() > 1,
        tokens[0].type_ is ExprOpen,
        spans_in(tokens@, text@),
    ensures
        match parse_run(lexed_all(tokens@), tokens.len() as int) {
            Err(f) => r is Err && r->Err_0.fault() == f,
            Ok(st) => if st.groups.len() > 0 {
                r is Err && r->Err_0.fault() == fault_at(
                    lexed_all(tokens@)[0],
                    ErrorKind::UnexpectedToken,
                )
            } else {
                r is Ok && nodes_of(r->Ok_0@) == st.nodes
            },
        },
        r is Ok ==> r->Ok_0.len() > 0 && post_order(nodes_of(r->Ok_0@)) && node_spans_in(
            r->Ok_0@,
            text@,
        ) && leaves_from(r->Ok_0@, tokens@),
        r is Err ==> r->Err_0.location.string@ == text@ && r->Err_0.location.wf(),
{
    let n = tokens.len();
    let ghost tv = lexed_all(tokens@);
    let mut groups: Vec<Group> = Vec::new();
    groups.push(Group { head: GroupHead::Empty, args: Vec::new() });
    let mut nodes: Vec<Expr> = Vec::new();
    let mut index: usize = 1;
    proof {
        assert(groups[0].args@.map_values(|a: usize| a as int) =~= Seq::<int>::empty());
        assert(groups[0]@ == GroupV { head: HeadV::Empty, args: seq![] });
        assert(groups_of(groups@) =~= seq![GroupV { head: HeadV::Empty, args: seq![] }]);
        assert(nodes_of(nodes@) =~= Seq::<Node>::empty());
    }
    while index < n
        invariant
            tv == lexed_all(tokens@),
            n == tokens.len(),
            1 <= index <= n,
            spans_in(tokens@, text@),
            parse_run(tv, index as int) == Ok::<ParseState, Fault>(
                ParseState { groups: groups_of(groups@), nodes: nodes_of(nodes@) },
            ),
            groups.len() == 0 ==> index == n && nodes.len() > 0,
            post_order(nodes_of(nodes@)),
            groups_ok(groups@, nodes.len() as int, index as int),
            node_spans_in(nodes@, text@),
            leaves_from(nodes@, tokens@),
        decreases n - index,
    {
        let ghost st = ParseState { groups: groups_of(groups@), nodes: nodes_of(nodes@) };
        let ghost old_nodes = nodes@;
        let ghost old_groups = groups@;
        assert(tv[index as int] == tokens@[index as int]@);
        match &tokens[index].type_ {
            TokenValue::ExprOpen => {
                groups.push(Group { head: GroupHead::Empty, args: Vec::new() });
                proof {
                    assert(groups@.last().args@.map_values(|a: usize| a as int) =~= Seq::<int>::empty());
                    assert(groups_of(groups@) =~= st.groups.push(GroupV { head: HeadV::Empty, args: seq![] }));
                }
            },
            TokenValue::ExprClose => {
                if groups.len() == 1 && index + 1 < n {
                    assert(tv[index + 1] == tokens@[index + 1]@);
                    proof {
                        lemma_run_fails_on(tv, index + 1, n as int);
                    }
                    return Err(tokens[index + 1].error_here(EvalErrorMessage::UnexpectedToken));
                }
                let top = groups.pop().unwrap();
                proof {
                    assert(groups_of(groups@) =~= st.groups.drop_last());
                }
                match top.head {
                    GroupHead::Empty => {
                        proof {
                            lemma_run_fails_on(tv, index + 1, n as int);
                        }
                        return Err(tokens[index].error_here(EvalErrorMessage::EmptyExpression));
                    },
                    GroupHead::Bad(h) => {
                        assert(tv[h as int] == tokens@[h as int]@);
                        proof {
                            lemma_run_fails_on(tv, index + 1, n as int);
                        }
                        return Err(tokens[h].error_here(EvalErrorMessage::CallNonSymbol));
                    },
                    GroupHead::Named(name, h) => {
                        assert(tv[h as int] == tokens@[h as int]@);
                        let idx = nodes.len();
                        let call = Expr {
                            location: tokens[h].location.duplicate(),
                            value: ExprValue::Call(name, top.args),
                        };
                        nodes.push(call);
                        proof {
                            assert(nodes_of(nodes@) =~= st.nodes.push(nodes@[idx as int]@));
                        }
                        if groups.len() > 0 {
                            let mut parent = groups.pop().unwrap();
                            match parent.head {
                                GroupHead::Empty => {
                                    parent.head = GroupHead::Bad(h);
                                },
                                _ => {
                                    parent.args.push(idx);
                                    proof {
                                        assert(parent.args@.map_values(|a: usize| a as int) =~= old_groups[old_groups.len() - 2].args@.map_values(|a: usize| a as int).push(idx as int));
                                    }
                                },
                            }
                            groups.push(parent);
                            proof {
                                assert(groups_of(groups@) =~= st.groups.drop_last().drop_last().push(
                                    take_item(st.groups.drop_last().last(), h as int, idx as int)));
                            }
                        }
                    },
                }
            },
            _ => {
                let mut top = groups.pop().unwrap();
                if let GroupHead::Empty = top.head {
                    top.head = match &tokens[index].type_ {
                        TokenValue::Symbol(s) => GroupHead::Named(s.clone(), index),
                        _ => GroupHead::Bad(index),
                    };
                } else {
                    let idx = nodes.len();
                    nodes.push(leaf(&tokens[index]));
                    top.args.push(idx);
                    proof {
                        assert(nodes_of(nodes@) =~= st.nodes.push(leaf_of(tv[index as int])));
                        assert(top.args@.map_values(|a: usize| a as int) =~= st.groups.last().args.push(idx as int));
                    }
                }
                groups.push(top);
                proof {
                    assert(groups_of(groups@) =~= st.groups.drop_last().push(groups@.last()@));
                }
            },
        }
        index += 1;
    }
    if groups.len() > 0 {
        assert(tv[0] == tokens@[0]@);
        Err(tokens[0].error_here(EvalErrorMessage::UnexpectedToken))
    } else {
        Ok(nodes)
    }
}

/// Parses the tokens of `text` to an expression tree: a lone literal or
/// symbol, or a bracketed call.
pub fn parse(tokens: &Vec<Token>, text: &str) -> (r: Result<ExprTree, EvalError>)
    requires
        spans_in(tokens@, text@),
    ensures
        match parse_spec(lexed_all(tokens@)) {
            Ok(ns) => r is Ok && nodes_of(r->Ok_0.nodes@) == ns && r->Ok_0.wf() && node_spans_in(
                r->Ok_0.nodes@,
                text@,
            ) && leaves_from(r->Ok_0.nodes@, tokens@),
            Err(f) => r is Err && r->Err_0.fault() == f && r->Err_0.location.string@ == text@
                && r->Err_0.location.wf(),
        },
{
    let ghost tv = lexed_all(tokens@);
    if tokens.len() == 0 {
        Err(Location::new(text, 0, 0).error_here(EvalErrorMessage::EmptyExpression))
    } else if tokens.len() == 1 {
        assert(tv[0] == tokens@[0]@);
        match &tokens[0].type_ {
            TokenValue::ExprOpen => Err(tokens[0].error_here(EvalErrorMessage::UnmatchedOpen)),
            TokenValue::ExprClose => Err(tokens[0].error_here(EvalErrorMessage::UnmatchedClose)),
            _ => {
                let mut nodes: Vec<Expr> = Vec::new();
                nodes.push(leaf(&tokens[0]));
                proof {
                    assert(nodes_of(nodes@) =~= seq![leaf_of(tv[0])]);
                }
                Ok(ExprTree { nodes })
            },
        }
    } else {
        assert(tv[0] == tokens@[0]@);
        assert(tv[1] == tokens@[1]@);
        match &tokens[0].type_ {
            TokenValue::ExprOpen => match parse_expr(tokens, Ghost(text@)) {
                Ok(nodes) => Ok(ExprTree { nodes }),
                Err(e) => Err(e),
            },
            TokenValue::ExprClose => Err(tokens[0].error_here(EvalErrorMessage::UnmatchedClose)),
            _ => Err(tokens[1].error_here(EvalErrorMessage::UnexpectedToken)),
        }
    }
}

} // verus!
