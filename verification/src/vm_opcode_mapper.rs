//! Locating the interpreter loop of a switch-based JavaScript VM and
//! classifying its opcodes.
use vstd::prelude::*;
use std::collections::HashMap;
use oxc_allocator::Allocator;
use crate::parallel_arenas::new_allocator;
use crate::js_parse::{parse_script, parsed_script};
use crate::text::{int_decimal, push_i64_decimal, str_equal};
use crate::js_ast::{
    ClassMember,
    AssignmentOperator, JsExpression, JsBinaryOperator, Program, JsStatement, JsSwitchCase, SwitchStatement,
    UnaryOperator,
};

verus! {

// ---------------------------------------------------------------------------
// Which switch statements the search reaches, in the order it reaches them.
// ---------------------------------------------------------------------------

/// The switch statements reached from a statement, in search order: the
/// statement itself when it is a switch, then the body of a function
/// declaration, then what `switches_nested` reaches.
pub open spec fn switches_in_stmt(s: JsStatement) -> Seq<SwitchStatement>
    decreases s, 1int,
{
    own_switch(s) + switches_in_declaration(s) + switches_nested(s)
}

/// The statement itself, when it is a switch.
pub open spec fn own_switch(s: JsStatement) -> Seq<SwitchStatement> {
    match s {
        JsStatement::Switch(sw) => seq![sw],
        _ => Seq::empty(),
    }
}

/// The switches reached in the body of a function declaration.
pub open spec fn switches_in_declaration(s: JsStatement) -> Seq<SwitchStatement>
    decreases s, 0int,
{
    match s {
        JsStatement::FunctionDeclaration(body) => switches_in_stmts(body@),
        _ => Seq::empty(),
    }
}

/// The switch statements reached inside a statement's sub-statements and
/// expressions. The cases of a switch are not searched.
pub open spec fn switches_nested(s: JsStatement) -> Seq<SwitchStatement>
    decreases s, 0int,
{
    match s {
        JsStatement::Block(body) => switches_in_stmts(body@),
        JsStatement::Expression(e) => switches_in_expr(e),
        JsStatement::If(_, c, a) => switches_nested(*c) + switches_in_alternate(a),
        JsStatement::While(b) => switches_nested(*b),
        JsStatement::DoWhile(b) => switches_nested(*b),
        JsStatement::For(b) => switches_nested(*b),
        JsStatement::ForIn(b) => switches_nested(*b),
        JsStatement::ForOf(b) => switches_nested(*b),
        JsStatement::With(b) => switches_nested(*b),
        JsStatement::Labeled(b) => switches_nested(*b),
        JsStatement::Switch(sw) => seq![sw],
        JsStatement::VariableDeclaration(inits) => switches_in_exprs(inits@),
        JsStatement::Try(b, h, f) => switches_in_stmts(b@) + switches_in_stmts(h@) + switches_in_stmts(
            f@,
        ),
        _ => Seq::empty(),
    }
}

/// The switches reached in the `else` branch of an `if`, when there is one.
pub open spec fn switches_in_alternate(a: Option<Box<JsStatement>>) -> Seq<SwitchStatement>
    decreases a, 0int,
{
    match a {
        Some(a) => switches_nested(*a),
        None => Seq::empty(),
    }
}

/// The switch statements reached from an expression.
pub open spec fn switches_in_expr(e: JsExpression) -> Seq<SwitchStatement>
    decreases e, 0int,
{
    match e {
        JsExpression::Function(body) => switches_in_stmts(body@),
        JsExpression::Arrow(body) => switches_in_stmts(body@),
        JsExpression::Call(callee, args) => switches_in_expr(*callee) + switches_in_exprs(args@),
        JsExpression::New(callee, args) => switches_in_expr(*callee) + switches_in_exprs(args@),
        JsExpression::Sequence(es) => switches_in_exprs(es@),
        JsExpression::Object(es) => switches_in_exprs(es@),
        JsExpression::Array(es) => switches_in_exprs(es@),
        JsExpression::Conditional(t, c, a) => switches_in_expr(*t) + switches_in_expr(*c)
            + switches_in_expr(*a),
        JsExpression::Assignment(_, r) => switches_in_expr(*r),
        JsExpression::Class(members) => switches_in_members(members@),
        JsExpression::Chain(inner) => match *inner {
            JsExpression::Call(_, _) => switches_in_expr(*inner),
            _ => Seq::empty(),
        },
        JsExpression::TaggedTemplate(t) => switches_in_expr(*t),
        JsExpression::Logical(l, r) => switches_in_expr(*l) + switches_in_expr(*r),
        JsExpression::Yield(a) => switches_in_expr(*a),
        JsExpression::Await(a) => switches_in_expr(*a),
        JsExpression::Unary(_, a) => switches_in_expr(*a),
        JsExpression::Parenthesized(a) => switches_in_expr(*a),
        JsExpression::StaticMember(o, _) => switches_in_expr(*o),
        JsExpression::ComputedMember(o, x) => switches_in_expr(*o) + switches_in_expr(*x),
        _ => Seq::empty(),
    }
}

/// `switches_in_stmt` over a statement list, in order.
pub open spec fn switches_in_stmts(ss: Seq<JsStatement>) -> Seq<SwitchStatement>
    decreases ss, 0int,
{
    if ss.len() == 0 {
        Seq::empty()
    } else {
        switches_in_stmts(ss.subrange(0, ss.len() - 1)) + switches_in_stmt(ss[ss.len() - 1])
    }
}

/// `switches_in_expr` over an expression list, in order.
pub open spec fn switches_in_exprs(es: Seq<JsExpression>) -> Seq<SwitchStatement>
    decreases es, 0int,
{
    if es.len() == 0 {
        Seq::empty()
    } else {
        switches_in_exprs(es.subrange(0, es.len() - 1)) + switches_in_expr(es[es.len() - 1])
    }
}

/// The switches reached in a class member: a method's body; none in any
/// other member.
pub open spec fn switches_in_member(m: ClassMember) -> Seq<SwitchStatement>
    decreases m, 0int,
{
    match m {
        ClassMember::Method(body) => switches_in_stmts(body@),
        ClassMember::Other => Seq::empty(),
    }
}

/// `switches_in_member` over the members of a class, in order.
pub open spec fn switches_in_members(ms: Seq<ClassMember>) -> Seq<SwitchStatement>
    decreases ms, 0int,
{
    if ms.len() == 0 {
        Seq::empty()
    } else {
        switches_in_members(ms.subrange(0, ms.len() - 1)) + switches_in_member(ms[ms.len() - 1])
    }
}

// ---------------------------------------------------------------------------
// Keeping the switch with the most cases.
// ---------------------------------------------------------------------------

/// One step of the search: a switch replaces the current best when it has
/// more cases (and at least one).
pub open spec fn pick_step(
    st: (Option<SwitchStatement>, int),
    sw: SwitchStatement,
) -> (Option<SwitchStatement>, int) {
    if sw.cases.len() > st.1 && sw.cases.len() > 0 {
        (Some(sw), sw.cases.len() as int)
    } else {
        st
    }
}

/// The search state after reaching the switches of `seq` in order.
pub open spec fn pick_largest(
    seq: Seq<SwitchStatement>,
    st: (Option<SwitchStatement>, int),
) -> (Option<SwitchStatement>, int)
    decreases seq.len(),
{
    if seq.len() == 0 {
        st
    } else {
        pick_step(pick_largest(seq.drop_last(), st), seq.last())
    }
}

pub open spec fn opt_deref<T>(o: Option<&T>) -> Option<T> {
    match o {
        Some(r) => Some(*r),
        None => None,
    }
}

pub proof fn lemma_pick_concat(
    a: Seq<SwitchStatement>,
    b: Seq<SwitchStatement>,
    st: (Option<SwitchStatement>, int),
)
    ensures
        pick_largest(a + b, st) == pick_largest(b, pick_largest(a, st)),
    decreases b.len(),
{
    if b.len() == 0 {
        assert(a + b =~= a);
    } else {
        lemma_pick_concat(a, b.drop_last(), st);
        assert((a + b).drop_last() =~= a + b.drop_last());
    }
}

/// The case counts at which the search takes a new largest switch, in the
/// order it reaches them, starting from the state `st`.
pub open spec fn new_maxima(seq: Seq<SwitchStatement>, st: (Option<SwitchStatement>, int)) -> Seq<
    usize,
>
    decreases seq.len(),
{
    if seq.len() == 0 {
        Seq::empty()
    } else {
        let prev = pick_largest(seq.drop_last(), st);
        let earlier = new_maxima(seq.drop_last(), st);
        if seq.last().cases.len() > prev.1 && seq.last().cases.len() > 0 {
            earlier.push(seq.last().cases.len())
        } else {
            earlier
        }
    }
}

pub proof fn lemma_maxima_concat(
    a: Seq<SwitchStatement>,
    b: Seq<SwitchStatement>,
    st: (Option<SwitchStatement>, int),
)
    ensures
        new_maxima(a + b, st) == new_maxima(a, st) + new_maxima(b, pick_largest(a, st)),
    decreases b.len(),
{
    if b.len() == 0 {
        assert(a + b =~= a);
    } else {
        lemma_maxima_concat(a, b.drop_last(), st);
        lemma_pick_concat(a, b.drop_last(), st);
        assert((a + b).drop_last() =~= a + b.drop_last());
        assert((a + b).last() == b.last());
    }
}

/// What the search records: the counts it lists grow strictly, each above
/// the count it started from; when it lists none, its state is unchanged,
/// and otherwise the switch it keeps has the last count listed.
pub proof fn lemma_new_maxima(seq: Seq<SwitchStatement>, st: (Option<SwitchStatement>, int))
    requires
        st.0 is Some ==> st.0->0.cases.len() == st.1,
        st.0 is None ==> st.1 == 0,
    ensures
        ({
            let d = new_maxima(seq, st);
            let r = pick_largest(seq, st);
            &&& forall|i: int, j: int| 0 <= i < j < d.len() ==> d[i] < d[j]
            &&& forall|i: int| 0 <= i < d.len() ==> d[i] > st.1 && d[i] > 0
            &&& d.len() == 0 ==> r == st
            &&& d.len() > 0 ==> r.1 == d.last() && r.0 is Some && r.0->0.cases.len() == d.last()
        }),
    decreases seq.len(),
{
    if seq.len() > 0 {
        lemma_new_maxima(seq.drop_last(), st);
    }
}

/// Keeps, among the switches reached from `stmt`, the one with the most
/// cases, in the state `largest` / `count`, and lists in `found` the count of
/// each switch that becomes the largest.
fn find_switch_in_stmt<'a>(
    stmt: &'a JsStatement,
    largest: &mut Option<&'a SwitchStatement>,
    count: &mut usize,
    found: &mut Vec<usize>,
)
    ensures
        (opt_deref(*final(largest)), *final(count) as int) == pick_largest(
            switches_in_stmt(*stmt),
            (opt_deref(*old(largest)), *old(count) as int),
        ),
        final(found)@ == old(found)@ + new_maxima(
            switches_in_stmt(*stmt),
            (opt_deref(*old(largest)), *old(count) as int),
        ),
    decreases *stmt, 1int,
{
    let ghost st0 = (opt_deref(*largest), *count as int);
    let ghost f0 = found@;
    let ghost own = own_switch(*stmt);
    if let JsStatement::Switch(switch_stmt) = stmt {
        proof {
            assert(own.drop_last() =~= Seq::<SwitchStatement>::empty());
            assert(pick_largest(own.drop_last(), st0) == st0);
            assert(new_maxima(own.drop_last(), st0) == Seq::<usize>::empty());
            assert(own.last() == *switch_stmt);
        }
        let cases = switch_stmt.cases.len();
        if cases > *count && cases > 0 {
            *count = cases;
            *largest = Some(switch_stmt);
            found.push(cases);
        }
    }
    assert((opt_deref(*largest), *count as int) == pick_largest(own, st0));
    assert(found@ =~= f0 + new_maxima(own, st0));
    let ghost st1 = (opt_deref(*largest), *count as int);
    let ghost f1 = found@;
    let ghost decl = switches_in_declaration(*stmt);
    if let JsStatement::FunctionDeclaration(body) = stmt {
        let n = body.len();
        let mut i: usize = 0;
        while i < n
            invariant
                n == body.len(),
                i <= n,
                *stmt == JsStatement::FunctionDeclaration(*body),
                (opt_deref(*largest), *count as int) == pick_largest(
                    switches_in_stmts(body@.subrange(0, i as int)),
                    st1,
                ),
                found@ == f1 + new_maxima(switches_in_stmts(body@.subrange(0, i as int)), st1),
            decreases n - i,
        {
            proof {
                let next = body@.subrange(0, i + 1);
                assert(next.subrange(0, next.len() - 1) =~= body@.subrange(0, i as int));
                lemma_pick_concat(
                    switches_in_stmts(body@.subrange(0, i as int)),
                    switches_in_stmt(body@[i as int]),
                    st1,
                );
                lemma_maxima_concat(
                    switches_in_stmts(body@.subrange(0, i as int)),
                    switches_in_stmt(body@[i as int]),
                    st1,
                );
            }
            proof {
                assert(decreases_to!(*stmt => (*stmt)->FunctionDeclaration_0));
                assert(decreases_to!(*body => body@));
                assert(decreases_to!(body@ => body@[i as int]));
            }
            find_switch_in_stmt(&body[i], largest, count, found);
            i = i + 1;
        }
        assert(body@.subrange(0, n as int) =~= body@);
    }
    assert((opt_deref(*largest), *count as int) == pick_largest(decl, st1));
    assert(found@ == f1 + new_maxima(decl, st1));
    find_switch_recursive(stmt, largest, count, found);
    proof {
        lemma_pick_concat(own, decl, st0);
        lemma_pick_concat(own + decl, switches_nested(*stmt), st0);
        lemma_maxima_concat(own, decl, st0);
        lemma_maxima_concat(own + decl, switches_nested(*stmt), st0);
    }
}

fn find_switch_recursive<'a>(
    stmt: &'a JsStatement,
    largest: &mut Option<&'a SwitchStatement>,
    count: &mut usize,
    found: &mut Vec<usize>,
)
    ensures
        (opt_deref(*final(largest)), *final(count) as int) == pick_largest(
            switches_nested(*stmt),
            (opt_deref(*old(largest)), *old(count) as int),
        ),
        final(found)@ == old(found)@ + new_maxima(
            switches_nested(*stmt),
            (opt_deref(*old(largest)), *old(count) as int),
        ),
    decreases *stmt, 0int,
{
    let ghost st0 = (opt_deref(*largest), *count as int);
    let ghost f0 = found@;
    match stmt {
        JsStatement::Block(body) => {
            find_switch_in_stmt_list(body, largest, count, found);
        },
        JsStatement::Expression(e) => {
            find_switch_in_expr(e, largest, count, found);
        },
        JsStatement::If(_, consequent, alternate) => {
            find_switch_recursive(consequent, largest, count, found);
            if let Some(alt) = alternate {
                find_switch_recursive(alt, largest, count, found);
            }
            proof {
                lemma_pick_concat(
                    switches_nested(**consequent),
                    switches_in_alternate(*alternate),
                    st0,
                );
                lemma_maxima_concat(
                    switches_nested(**consequent),
                    switches_in_alternate(*alternate),
                    st0,
                );
            }
        },
        JsStatement::While(body) => {
            find_switch_recursive(body, largest, count, found);
        },
        JsStatement::DoWhile(body) => {
            find_switch_recursive(body, largest, count, found);
        },
        JsStatement::For(body) => {
            find_switch_recursive(body, largest, count, found);
        },
        JsStatement::ForIn(body) => {
            find_switch_recursive(body, largest, count, found);
        },
        JsStatement::ForOf(body) => {
            find_switch_recursive(body, largest, count, found);
        },
        JsStatement::With(body) => {
            find_switch_recursive(body, largest, count, found);
        },
        JsStatement::Labeled(body) => {
            find_switch_recursive(body, largest, count, found);
        },
        JsStatement::Switch(switch_stmt) => {
            proof {
                let own = seq![*switch_stmt];
                assert(own.drop_last() =~= Seq::<SwitchStatement>::empty());
                assert(pick_largest(own.drop_last(), st0) == st0);
                assert(new_maxima(own.drop_last(), st0) == Seq::<usize>::empty());
            }
            let cases = switch_stmt.cases.len();
            if cases > *count && cases > 0 {
                *count = cases;
                *largest = Some(switch_stmt);
                found.push(cases);
            }
            assert(found@ == f0 + new_maxima(seq![*switch_stmt], st0));
        },
        JsStatement::VariableDeclaration(inits) => {
            find_switch_in_expr_list(inits, largest, count, found);
        },
        JsStatement::Try(block, handler, finalizer) => {
            find_switch_in_stmt_list(block, largest, count, found);
            find_switch_in_stmt_list(handler, largest, count, found);
            find_switch_in_stmt_list(finalizer, largest, count, found);
            proof {
                lemma_pick_concat(switches_in_stmts(block@), switches_in_stmts(handler@), st0);
                lemma_pick_concat(
                    switches_in_stmts(block@) + switches_in_stmts(handler@),
                    switches_in_stmts(finalizer@),
                    st0,
                );
                lemma_maxima_concat(switches_in_stmts(block@), switches_in_stmts(handler@), st0);
                lemma_maxima_concat(
                    switches_in_stmts(block@) + switches_in_stmts(handler@),
                    switches_in_stmts(finalizer@),
                    st0,
                );
            }
        },
        _ => {},
    }
}

fn find_switch_in_stmt_list<'a>(
    stmts: &'a Vec<JsStatement>,
    largest: &mut Option<&'a SwitchStatement>,
    count: &mut usize,
    found: &mut Vec<usize>,
)
    ensures
        (opt_deref(*final(largest)), *final(count) as int) == pick_largest(
            switches_in_stmts(stmts@),
            (opt_deref(*old(largest)), *old(count) as int),
        ),
        final(found)@ == old(found)@ + new_maxima(
            switches_in_stmts(stmts@),
            (opt_deref(*old(largest)), *old(count) as int),
        ),
    decreases *stmts, 0int,
{
    let ghost st0 = (opt_deref(*largest), *count as int);
    let ghost f0 = found@;
    let n = stmts.len();
    let mut i: usize = 0;
    while i < n
        invariant
            n == stmts.len(),
            i <= n,
            (opt_deref(*largest), *count as int) == pick_largest(
                switches_in_stmts(stmts@.subrange(0, i as int)),
                st0,
            ),
            found@ == f0 + new_maxima(switches_in_stmts(stmts@.subrange(0, i as int)), st0),
        decreases n - i,
    {
        proof {
            let next = stmts@.subrange(0, i + 1);
            assert(next.subrange(0, next.len() - 1) =~= stmts@.subrange(0, i as int));
            lemma_pick_concat(
                switches_in_stmts(stmts@.subrange(0, i as int)),
                switches_in_stmt(stmts@[i as int]),
                st0,
            );
            lemma_maxima_concat(
                switches_in_stmts(stmts@.subrange(0, i as int)),
                switches_in_stmt(stmts@[i as int]),
                st0,
            );
            assert(decreases_to!(*stmts => stmts@));
            assert(decreases_to!(stmts@ => stmts@[i as int]));
        }
        find_switch_in_stmt(&stmts[i], largest, count, found);
        i = i + 1;
    }
    assert(stmts@.subrange(0, n as int) =~= stmts@);
}

fn find_switch_in_expr_list<'a>(
    exprs: &'a Vec<JsExpression>,
    largest: &mut Option<&'a SwitchStatement>,
    count: &mut usize,
    found: &mut Vec<usize>,
)
    ensures
        (opt_deref(*final(largest)), *final(count) as int) == pick_largest(
            switches_in_exprs(exprs@),
            (opt_deref(*old(largest)), *old(count) as int),
        ),
        final(found)@ == old(found)@ + new_maxima(
            switches_in_exprs(exprs@),
            (opt_deref(*old(largest)), *old(count) as int),
        ),
    decreases *exprs, 0int,
{
    let ghost st0 = (opt_deref(*largest), *count as int);
    let ghost f0 = found@;
    let n = exprs.len();
    let mut i: usize = 0;
    while i < n
        invariant
            n == exprs.len(),
            i <= n,
            (opt_deref(*largest), *count as int) == pick_largest(
                switches_in_exprs(exprs@.subrange(0, i as int)),
                st0,
            ),
            found@ == f0 + new_maxima(switches_in_exprs(exprs@.subrange(0, i as int)), st0),
        decreases n - i,
    {
        proof {
            let next = exprs@.subrange(0, i + 1);
            assert(next.subrange(0, next.len() - 1) =~= exprs@.subrange(0, i as int));
            lemma_pick_concat(
                switches_in_exprs(exprs@.subrange(0, i as int)),
                switches_in_expr(exprs@[i as int]),
                st0,
            );
            lemma_maxima_concat(
                switches_in_exprs(exprs@.subrange(0, i as int)),
                switches_in_expr(exprs@[i as int]),
                st0,
            );
            assert(decreases_to!(*exprs => exprs@));
            assert(decreases_to!(exprs@ => exprs@[i as int]));
        }
        find_switch_in_expr(&exprs[i], largest, count, found);
        i = i + 1;
    }
    assert(exprs@.subrange(0, n as int) =~= exprs@);
}

fn find_switch_in_members<'a>(
    members: &'a Vec<ClassMember>,
    largest: &mut Option<&'a SwitchStatement>,
    count: &mut usize,
    found: &mut Vec<usize>,
)
    ensures
        (opt_deref(*final(largest)), *final(count) as int) == pick_largest(
            switches_in_members(members@),
            (opt_deref(*old(largest)), *old(count) as int),
        ),
        final(found)@ == old(found)@ + new_maxima(
            switches_in_members(members@),
            (opt_deref(*old(largest)), *old(count) as int),
        ),
    decreases *members, 0int,
{
    let ghost st0 = (opt_deref(*largest), *count as int);
    let ghost f0 = found@;
    let n = members.len();
    let mut i: usize = 0;
    while i < n
        invariant
            n == members.len(),
            i <= n,
            (opt_deref(*largest), *count as int) == pick_largest(
                switches_in_members(members@.subrange(0, i as int)),
                st0,
            ),
            found@ == f0 + new_maxima(switches_in_members(members@.subrange(0, i as int)), st0),
        decreases n - i,
    {
        proof {
            let next = members@.subrange(0, i + 1);
            assert(next.subrange(0, next.len() - 1) =~= members@.subrange(0, i as int));
            lemma_pick_concat(
                switches_in_members(members@.subrange(0, i as int)),
                switches_in_member(members@[i as int]),
                st0,
            );
            lemma_maxima_concat(
                switches_in_members(members@.subrange(0, i as int)),
                switches_in_member(members@[i as int]),
                st0,
            );
            assert(decreases_to!(*members => members@));
            assert(decreases_to!(members@ => members@[i as int]));
        }
        match &members[i] {
            ClassMember::Method(body) => {
                find_switch_in_stmt_list(body, largest, count, found);
            },
            ClassMember::Other => {},
        }
        i = i + 1;
    }
    assert(members@.subrange(0, n as int) =~= members@);
}

fn find_switch_in_expr<'a>(
    expr: &'a JsExpression,
    largest: &mut Option<&'a SwitchStatement>,
    count: &mut usize,
    found: &mut Vec<usize>,
)
    ensures
        (opt_deref(*final(largest)), *final(count) as int) == pick_largest(
            switches_in_expr(*expr),
            (opt_deref(*old(largest)), *old(count) as int),
        ),
        final(found)@ == old(found)@ + new_maxima(
            switches_in_expr(*expr),
            (opt_deref(*old(largest)), *old(count) as int),
        ),
    decreases *expr, 0int,
{
    let ghost st0 = (opt_deref(*largest), *count as int);
    match expr {
        JsExpression::Function(body) => {
            find_switch_in_stmt_list(body, largest, count, found);
        },
        JsExpression::Arrow(body) => {
            find_switch_in_stmt_list(body, largest, count, found);
        },
        JsExpression::Call(callee, args) => {
            find_switch_in_expr(callee, largest, count, found);
            find_switch_in_expr_list(args, largest, count, found);
            proof {
                lemma_pick_concat(switches_in_expr(**callee), switches_in_exprs(args@), st0);
                lemma_maxima_concat(switches_in_expr(**callee), switches_in_exprs(args@), st0);
            }
        },
        JsExpression::New(callee, args) => {
            find_switch_in_expr(callee, largest, count, found);
            find_switch_in_expr_list(args, largest, count, found);
            proof {
                lemma_pick_concat(switches_in_expr(**callee), switches_in_exprs(args@), st0);
                lemma_maxima_concat(switches_in_expr(**callee), switches_in_exprs(args@), st0);
            }
        },
        JsExpression::Sequence(es) => {
            find_switch_in_expr_list(es, largest, count, found);
        },
        JsExpression::Object(es) => {
            find_switch_in_expr_list(es, largest, count, found);
        },
        JsExpression::Array(es) => {
            find_switch_in_expr_list(es, largest, count, found);
        },
        JsExpression::Conditional(test, consequent, alternate) => {
            find_switch_in_expr(test, largest, count, found);
            find_switch_in_expr(consequent, largest, count, found);
            find_switch_in_expr(alternate, largest, count, found);
            proof {
                lemma_pick_concat(switches_in_expr(**test), switches_in_expr(**consequent), st0);
                lemma_pick_concat(
                    switches_in_expr(**test) + switches_in_expr(**consequent),
                    switches_in_expr(**alternate),
                    st0,
                );
                lemma_maxima_concat(switches_in_expr(**test), switches_in_expr(**consequent), st0);
                lemma_maxima_concat(
                    switches_in_expr(**test) + switches_in_expr(**consequent),
                    switches_in_expr(**alternate),
                    st0,
                );
            }
        },
        JsExpression::Assignment(_, right) => {
            find_switch_in_expr(right, largest, count, found);
        },
        JsExpression::Class(members) => {
            find_switch_in_members(members, largest, count, found);
        },
        JsExpression::Chain(inner) => {
            if let JsExpression::Call(_, _) = &**inner {
                find_switch_in_expr(inner, largest, count, found);
            }
        },
        JsExpression::TaggedTemplate(tag) => {
            find_switch_in_expr(tag, largest, count, found);
        },
        JsExpression::Logical(left, right) => {
            find_switch_in_expr(left, largest, count, found);
            find_switch_in_expr(right, largest, count, found);
            proof {
                lemma_pick_concat(switches_in_expr(**left), switches_in_expr(**right), st0);
                lemma_maxima_concat(switches_in_expr(**left), switches_in_expr(**right), st0);
            }
        },
        JsExpression::Yield(argument) => {
            find_switch_in_expr(argument, largest, count, found);
        },
        JsExpression::Await(argument) => {
            find_switch_in_expr(argument, largest, count, found);
        },
        JsExpression::Unary(_, argument) => {
            find_switch_in_expr(argument, largest, count, found);
        },
        JsExpression::Parenthesized(inner) => {
            find_switch_in_expr(inner, largest, count, found);
        },
        JsExpression::StaticMember(object, _) => {
            find_switch_in_expr(object, largest, count, found);
        },
        JsExpression::ComputedMember(object, property) => {
            find_switch_in_expr(object, largest, count, found);
            find_switch_in_expr(property, largest, count, found);
            proof {
                lemma_pick_concat(switches_in_expr(**object), switches_in_expr(**property), st0);
                lemma_maxima_concat(switches_in_expr(**object), switches_in_expr(**property), st0);
            }
        },
        _ => {},
    }
}

// ---------------------------------------------------------------------------
// Instruction classes.
// ---------------------------------------------------------------------------

/// The classes an opcode handler can be assigned.
#[derive(Debug, Clone, Copy, PartialEq, Eq, Hash, Structural)]
pub enum VmInstructionType {
    MemoryWrite,
    MemoryRead,
    XorOp,
    AddOp,
    SubOp,
    Jump,
    ConditionalJump,
    Return,
    PushConstant,
    Pop,
    Swap,
    Duplicate,
    Load,
    Store,
    Compare,
    Call,
    Unknown,
}

/// The variant name, as `{:?}` prints it.
pub open spec fn debug_name(t: VmInstructionType) -> Seq<char> {
    match t {
        VmInstructionType::MemoryWrite => "MemoryWrite"@,
        VmInstructionType::MemoryRead => "MemoryRead"@,
        VmInstructionType::XorOp => "XorOp"@,
        VmInstructionType::AddOp => "AddOp"@,
        VmInstructionType::SubOp => "SubOp"@,
        VmInstructionType::Jump => "Jump"@,
        VmInstructionType::ConditionalJump => "ConditionalJump"@,
        VmInstructionType::Return => "Return"@,
        VmInstructionType::PushConstant => "PushConstant"@,
        VmInstructionType::Pop => "Pop"@,
        VmInstructionType::Swap => "Swap"@,
        VmInstructionType::Duplicate => "Duplicate"@,
        VmInstructionType::Load => "Load"@,
        VmInstructionType::Store => "Store"@,
        VmInstructionType::Compare => "Compare"@,
        VmInstructionType::Call => "Call"@,
        VmInstructionType::Unknown => "Unknown"@,
    }
}

/// The upper-case display label of each class.
pub open spec fn display_label(t: VmInstructionType) -> Seq<char> {
    match t {
        VmInstructionType::MemoryWrite => "MEMORY_WRITE"@,
        VmInstructionType::MemoryRead => "MEMORY_READ"@,
        VmInstructionType::XorOp => "XOR_OP"@,
        VmInstructionType::AddOp => "ADD_OP"@,
        VmInstructionType::SubOp => "SUB_OP"@,
        VmInstructionType::Jump => "JUMP"@,
        VmInstructionType::ConditionalJump => "CONDITIONAL_JUMP"@,
        VmInstructionType::Return => "RETURN"@,
        VmInstructionType::PushConstant => "PUSH_CONSTANT"@,
        VmInstructionType::Pop => "POP"@,
        VmInstructionType::Swap => "SWAP"@,
        VmInstructionType::Duplicate => "DUPLICATE"@,
        VmInstructionType::Load => "LOAD"@,
        VmInstructionType::Store => "STORE"@,
        VmInstructionType::Compare => "COMPARE"@,
        VmInstructionType::Call => "CALL"@,
        VmInstructionType::Unknown => "UNKNOWN"@,
    }
}


impl VmInstructionType {
    /// The upper-case label under which the class is displayed.
    pub fn display_name(&self) -> (r: &'static str)
        ensures
            r@ == display_label(*self),
    {
        match self {
            VmInstructionType::MemoryWrite => {
                proof { reveal_strlit("MEMORY_WRITE"); }
                "MEMORY_WRITE"
            },
            VmInstructionType::MemoryRead => {
                proof { reveal_strlit("MEMORY_READ"); }
                "MEMORY_READ"
            },
            VmInstructionType::XorOp => {
                proof { reveal_strlit("XOR_OP"); }
                "XOR_OP"
            },
            VmInstructionType::AddOp => {
                proof { reveal_strlit("ADD_OP"); }
                "ADD_OP"
            },
            VmInstructionType::SubOp => {
                proof { reveal_strlit("SUB_OP"); }
                "SUB_OP"
            },
            VmInstructionType::Jump => {
                proof { reveal_strlit("JUMP"); }
                "JUMP"
            },
            VmInstructionType::ConditionalJump => {
                proof { reveal_strlit("CONDITIONAL_JUMP"); }
                "CONDITIONAL_JUMP"
            },
            VmInstructionType::Return => {
                proof { reveal_strlit("RETURN"); }
                "RETURN"
            },
            VmInstructionType::PushConstant => {
                proof { reveal_strlit("PUSH_CONSTANT"); }
                "PUSH_CONSTANT"
            },
            VmInstructionType::Pop => {
                proof { reveal_strlit("POP"); }
                "POP"
            },
            VmInstructionType::Swap => {
                proof { reveal_strlit("SWAP"); }
                "SWAP"
            },
            VmInstructionType::Duplicate => {
                proof { reveal_strlit("DUPLICATE"); }
                "DUPLICATE"
            },
            VmInstructionType::Load => {
                proof { reveal_strlit("LOAD"); }
                "LOAD"
            },
            VmInstructionType::Store => {
                proof { reveal_strlit("STORE"); }
                "STORE"
            },
            VmInstructionType::Compare => {
                proof { reveal_strlit("COMPARE"); }
                "COMPARE"
            },
            VmInstructionType::Call => {
                proof { reveal_strlit("CALL"); }
                "CALL"
            },
            VmInstructionType::Unknown => {
                proof { reveal_strlit("UNKNOWN"); }
                "UNKNOWN"
            },
        }
    }

    /// The variant name, as `{:?}` prints it.
    pub fn debug_name(&self) -> (r: &'static str)
        ensures
            r@ == debug_name(*self),
    {
        match self {
            VmInstructionType::MemoryWrite => {
                proof { reveal_strlit("MemoryWrite"); }
                "MemoryWrite"
            },
            VmInstructionType::MemoryRead => {
                proof { reveal_strlit("MemoryRead"); }
                "MemoryRead"
            },
            VmInstructionType::XorOp => {
                proof { reveal_strlit("XorOp"); }
                "XorOp"
            },
            VmInstructionType::AddOp => {
                proof { reveal_strlit("AddOp"); }
                "AddOp"
            },
            VmInstructionType::SubOp => {
                proof { reveal_strlit("SubOp"); }
                "SubOp"
            },
            VmInstructionType::Jump => {
                proof { reveal_strlit("Jump"); }
                "Jump"
            },
            VmInstructionType::ConditionalJump => {
                proof { reveal_strlit("ConditionalJump"); }
                "ConditionalJump"
            },
            VmInstructionType::Return => {
                proof { reveal_strlit("Return"); }
                "Return"
            },
            VmInstructionType::PushConstant => {
                proof { reveal_strlit("PushConstant"); }
                "PushConstant"
            },
            VmInstructionType::Pop => {
                proof { reveal_strlit("Pop"); }
                "Pop"
            },
            VmInstructionType::Swap => {
                proof { reveal_strlit("Swap"); }
                "Swap"
            },
            VmInstructionType::Duplicate => {
                proof { reveal_strlit("Duplicate"); }
                "Duplicate"
            },
            VmInstructionType::Load => {
                proof { reveal_strlit("Load"); }
                "Load"
            },
            VmInstructionType::Store => {
                proof { reveal_strlit("Store"); }
                "Store"
            },
            VmInstructionType::Compare => {
                proof { reveal_strlit("Compare"); }
                "Compare"
            },
            VmInstructionType::Call => {
                proof { reveal_strlit("Call"); }
                "Call"
            },
            VmInstructionType::Unknown => {
                proof { reveal_strlit("Unknown"); }
                "Unknown"
            },
        }
    }
}

// ---------------------------------------------------------------------------
// Classifying one case of the interpreter switch.
// ---------------------------------------------------------------------------

/// What the classification notices at one node of a case body.
pub enum FlagEvent {
    Assignment(AssignmentOperator),
    Binary(JsBinaryOperator),
    MemberAccess,
    ThisAccess,
    ThisWrite,
    Jump,
    Return,
}

/// What the classification has noticed in a case body so far.
#[derive(Clone, Copy, PartialEq, Eq, Structural)]
pub struct InstructionFlags {
    pub has_assignment: bool,
    pub has_binary_op: bool,
    /// The first arithmetic or comparison operator met.
    pub binary_op: Option<JsBinaryOperator>,
    pub has_this_access: bool,
    pub has_this_write: bool,
    pub has_jump: bool,
    pub has_return: bool,
    pub has_member_access: bool,
}

pub open spec fn no_flags() -> InstructionFlags {
    InstructionFlags {
        has_assignment: false,
        has_binary_op: false,
        binary_op: None,
        has_this_access: false,
        has_this_write: false,
        has_jump: false,
        has_return: false,
        has_member_access: false,
    }
}

/// The binary operator that a compound assignment stands for, if it is one
/// of `^=`, `+=`, `-=`.
pub open spec fn assignment_binary_op(op: AssignmentOperator) -> Option<JsBinaryOperator> {
    match op {
        AssignmentOperator::BitwiseXOR => Some(JsBinaryOperator::BitwiseXOR),
        AssignmentOperator::Addition => Some(JsBinaryOperator::Addition),
        AssignmentOperator::Subtraction => Some(JsBinaryOperator::Subtraction),
        AssignmentOperator::Other => None,
    }
}

/// The flags after noticing one more event.
pub open spec fn apply_event(f: InstructionFlags, ev: FlagEvent) -> InstructionFlags {
    match ev {
        FlagEvent::Assignment(op) => InstructionFlags {
            has_assignment: true,
            has_binary_op: true,
            binary_op: if f.binary_op is None {
                assignment_binary_op(op)
            } else {
                f.binary_op
            },
            ..f
        },
        FlagEvent::Binary(op) => InstructionFlags {
            has_binary_op: true,
            binary_op: if f.binary_op is None {
                Some(op)
            } else {
                f.binary_op
            },
            ..f
        },
        FlagEvent::MemberAccess => InstructionFlags { has_member_access: true, ..f },
        FlagEvent::ThisAccess => InstructionFlags { has_this_access: true, ..f },
        FlagEvent::ThisWrite => InstructionFlags { has_this_write: true, ..f },
        FlagEvent::Jump => InstructionFlags { has_jump: true, ..f },
        FlagEvent::Return => InstructionFlags { has_return: true, ..f },
    }
}

/// The flags after noticing the events of `evs` in order.
pub open spec fn apply_events(f: InstructionFlags, evs: Seq<FlagEvent>) -> InstructionFlags
    decreases evs.len(),
{
    if evs.len() == 0 {
        f
    } else {
        apply_event(apply_events(f, evs.drop_last()), evs.last())
    }
}

pub proof fn lemma_apply_events_concat(f: InstructionFlags, a: Seq<FlagEvent>, b: Seq<FlagEvent>)
    ensures
        apply_events(f, a + b) == apply_events(apply_events(f, a), b),
    decreases b.len(),
{
    if b.len() == 0 {
        assert(a + b =~= a);
    } else {
        lemma_apply_events_concat(f, a, b.drop_last());
        assert((a + b).drop_last() =~= a + b.drop_last());
    }
}

/// The events the classification notices in a statement, in order: the
/// expression of an expression statement, `return`, `break` and `continue`,
/// the test and consequent of an `if`, and the statements of a block.
pub open spec fn stmt_events(s: JsStatement) -> Seq<FlagEvent>
    decreases s, 0int,
{
    match s {
        JsStatement::Expression(e) => expr_events(e),
        JsStatement::Return => seq![FlagEvent::Return],
        JsStatement::Break => seq![FlagEvent::Jump],
        JsStatement::Continue => seq![FlagEvent::Jump],
        JsStatement::If(test, c, _) => expr_events(test) + stmt_events(*c),
        JsStatement::Block(body) => stmts_events(body@),
        _ => Seq::empty(),
    }
}

/// `stmt_events` over a statement list, in order.
pub open spec fn stmts_events(ss: Seq<JsStatement>) -> Seq<FlagEvent>
    decreases ss, 0int,
{
    if ss.len() == 0 {
        Seq::empty()
    } else {
        stmts_events(ss.subrange(0, ss.len() - 1)) + stmt_events(ss[ss.len() - 1])
    }
}

/// Whether an expression is `this`.
pub open spec fn is_this(e: JsExpression) -> bool {
    e matches JsExpression::This
}

/// The events the classification notices in an expression, in order.
pub open spec fn expr_events(e: JsExpression) -> Seq<FlagEvent>
    decreases e, 0int,
{
    match e {
        JsExpression::Assignment(op, right) => seq![FlagEvent::Assignment(op)] + expr_events(*right),
        JsExpression::Binary(op, left, right) => seq![FlagEvent::Binary(op)] + expr_events(*left)
            + expr_events(*right),
        JsExpression::StaticMember(object, _) => seq![FlagEvent::MemberAccess] + (if is_this(
            *object,
        ) {
            seq![FlagEvent::ThisAccess]
        } else {
            Seq::empty()
        }) + expr_events(*object),
        JsExpression::ComputedMember(object, property) => seq![FlagEvent::MemberAccess]
            + expr_events(*object) + expr_events(*property),
        JsExpression::This => seq![FlagEvent::ThisAccess],
        JsExpression::Call(callee, _) => expr_events(*callee),
        JsExpression::Update => seq![FlagEvent::ThisWrite],
        JsExpression::Unary(_, argument) => expr_events(*argument),
        JsExpression::Conditional(t, c, a) => expr_events(*t) + expr_events(*c) + expr_events(*a),
        _ => Seq::empty(),
    }
}

/// The class that a case's flags select, in order of precedence.
pub open spec fn classify_flags(f: InstructionFlags) -> VmInstructionType {
    if f.has_return {
        VmInstructionType::Return
    } else if f.has_binary_op && f.binary_op == Some(JsBinaryOperator::BitwiseXOR) {
        VmInstructionType::XorOp
    } else if f.has_binary_op && f.binary_op == Some(JsBinaryOperator::Addition) {
        VmInstructionType::AddOp
    } else if f.has_binary_op && f.binary_op == Some(JsBinaryOperator::Subtraction) {
        VmInstructionType::SubOp
    } else if f.has_binary_op && (f.binary_op == Some(JsBinaryOperator::StrictEquality)
        || f.binary_op == Some(JsBinaryOperator::StrictInequality) || f.binary_op == Some(
        JsBinaryOperator::Equality,
    ) || f.binary_op == Some(JsBinaryOperator::Inequality) || f.binary_op == Some(
        JsBinaryOperator::LessThan,
    ) || f.binary_op == Some(JsBinaryOperator::LessEqualThan)) {
        VmInstructionType::Compare
    } else if f.has_this_write && f.has_member_access {
        VmInstructionType::MemoryWrite
    } else if f.has_jump {
        VmInstructionType::Jump
    } else if f.has_this_access && !f.has_assignment {
        VmInstructionType::MemoryRead
    } else {
        VmInstructionType::Unknown
    }
}

/// The class of a case: what its statements' events select.
pub open spec fn case_class(case: JsSwitchCase) -> VmInstructionType {
    classify_flags(apply_events(no_flags(), stmts_events(case.consequent@)))
}

fn analyze_statement(stmt: &JsStatement, flags: &mut InstructionFlags)
    ensures
        *final(flags) == apply_events(*old(flags), stmt_events(*stmt)),
    decreases *stmt, 0int,
{
    let ghost f0 = *flags;
    match stmt {
        JsStatement::Expression(e) => {
            analyze_expr(e, flags);
        },
        JsStatement::Return => {
            flags.has_return = true;
            proof { lemma_single_event(f0, FlagEvent::Return); }
        },
        JsStatement::Break => {
            flags.has_jump = true;
            proof { lemma_single_event(f0, FlagEvent::Jump); }
        },
        JsStatement::Continue => {
            flags.has_jump = true;
            proof { lemma_single_event(f0, FlagEvent::Jump); }
        },
        JsStatement::If(test, consequent, _) => {
            analyze_expr(test, flags);
            analyze_statement(consequent, flags);
            proof {
                lemma_apply_events_concat(f0, expr_events(*test), stmt_events(**consequent));
            }
        },
        JsStatement::Block(body) => {
            analyze_statement_list(body, flags);
        },
        _ => {},
    }
}

proof fn lemma_single_event(f: InstructionFlags, ev: FlagEvent)
    ensures
        apply_events(f, seq![ev]) == apply_event(f, ev),
{
    assert(seq![ev].drop_last() =~= Seq::<FlagEvent>::empty());
    assert(apply_events(f, seq![ev].drop_last()) == f);
    assert(seq![ev].last() == ev);
}

fn analyze_statement_list(stmts: &Vec<JsStatement>, flags: &mut InstructionFlags)
    ensures
        *final(flags) == apply_events(*old(flags), stmts_events(stmts@)),
    decreases *stmts, 0int,
{
    let ghost f0 = *flags;
    let n = stmts.len();
    let mut i: usize = 0;
    while i < n
        invariant
            n == stmts.len(),
            i <= n,
            *flags == apply_events(f0, stmts_events(stmts@.subrange(0, i as int))),
        decreases n - i,
    {
        proof {
            let next = stmts@.subrange(0, i + 1);
            assert(next.subrange(0, next.len() - 1) =~= stmts@.subrange(0, i as int));
            lemma_apply_events_concat(
                f0,
                stmts_events(stmts@.subrange(0, i as int)),
                stmt_events(stmts@[i as int]),
            );
            assert(decreases_to!(*stmts => stmts@));
            assert(decreases_to!(stmts@ => stmts@[i as int]));
        }
        analyze_statement(&stmts[i], flags);
        i = i + 1;
    }
    assert(stmts@.subrange(0, n as int) =~= stmts@);
}

fn analyze_expr(expr: &JsExpression, flags: &mut InstructionFlags)
    ensures
        *final(flags) == apply_events(*old(flags), expr_events(*expr)),
    decreases *expr, 0int,
{
    let ghost f0 = *flags;
    match expr {
        JsExpression::Assignment(op, right) => {
            flags.has_assignment = true;
            flags.has_binary_op = true;
            if flags.binary_op.is_none() {
                match op {
                    AssignmentOperator::BitwiseXOR => {
                        flags.binary_op = Some(JsBinaryOperator::BitwiseXOR);
                    },
                    AssignmentOperator::Addition => {
                        flags.binary_op = Some(JsBinaryOperator::Addition);
                    },
                    AssignmentOperator::Subtraction => {
                        flags.binary_op = Some(JsBinaryOperator::Subtraction);
                    },
                    AssignmentOperator::Other => {},
                }
            }
            proof { lemma_single_event(f0, FlagEvent::Assignment(*op)); }
            let ghost f1 = *flags;
            analyze_expr(right, flags);
            proof {
                lemma_apply_events_concat(f0, seq![FlagEvent::Assignment(*op)], expr_events(**right));
            }
        },
        JsExpression::Binary(op, left, right) => {
            flags.has_binary_op = true;
            if flags.binary_op.is_none() {
                flags.binary_op = Some(*op);
            }
            proof { lemma_single_event(f0, FlagEvent::Binary(*op)); }
            analyze_expr(left, flags);
            analyze_expr(right, flags);
            proof {
                lemma_apply_events_concat(f0, seq![FlagEvent::Binary(*op)], expr_events(**left));
                lemma_apply_events_concat(
                    f0,
                    seq![FlagEvent::Binary(*op)] + expr_events(**left),
                    expr_events(**right),
                );
            }
        },
        JsExpression::StaticMember(object, _) => {
            flags.has_member_access = true;
            let ghost this_evs: Seq<FlagEvent> = if is_this(**object) {
                seq![FlagEvent::ThisAccess]
            } else {
                Seq::empty()
            };
            proof { lemma_single_event(f0, FlagEvent::MemberAccess); }
            let ghost f1 = *flags;
            if let JsExpression::This = &**object {
                flags.has_this_access = true;
                proof { lemma_single_event(f1, FlagEvent::ThisAccess); }
            }
            analyze_expr(object, flags);
            proof {
                lemma_apply_events_concat(f0, seq![FlagEvent::MemberAccess], this_evs);
                lemma_apply_events_concat(
                    f0,
                    seq![FlagEvent::MemberAccess] + this_evs,
                    expr_events(**object),
                );
            }
        },
        JsExpression::ComputedMember(object, property) => {
            flags.has_member_access = true;
            proof { lemma_single_event(f0, FlagEvent::MemberAccess); }
            analyze_expr(object, flags);
            analyze_expr(property, flags);
            proof {
                lemma_apply_events_concat(f0, seq![FlagEvent::MemberAccess], expr_events(**object));
                lemma_apply_events_concat(
                    f0,
                    seq![FlagEvent::MemberAccess] + expr_events(**object),
                    expr_events(**property),
                );
            }
        },
        JsExpression::This => {
            flags.has_this_access = true;
            proof { lemma_single_event(f0, FlagEvent::ThisAccess); }
        },
        JsExpression::Call(callee, _) => {
            analyze_expr(callee, flags);
        },
        JsExpression::Update => {
            flags.has_this_write = true;
            proof { lemma_single_event(f0, FlagEvent::ThisWrite); }
        },
        JsExpression::Unary(_, argument) => {
            analyze_expr(argument, flags);
        },
        JsExpression::Conditional(test, consequent, alternate) => {
            analyze_expr(test, flags);
            analyze_expr(consequent, flags);
            analyze_expr(alternate, flags);
            proof {
                lemma_apply_events_concat(f0, expr_events(**test), expr_events(**consequent));
                lemma_apply_events_concat(
                    f0,
                    expr_events(**test) + expr_events(**consequent),
                    expr_events(**alternate),
                );
            }
        },
        _ => {},
    }
}

/// Assigns a class to one case of the interpreter switch.
fn classify_case(case: &JsSwitchCase) -> (r: VmInstructionType)
    ensures
        r == case_class(*case),
{
    let mut flags = InstructionFlags {
        has_assignment: false,
        has_binary_op: false,
        binary_op: None,
        has_this_access: false,
        has_this_write: false,
        has_jump: false,
        has_return: false,
        has_member_access: false,
    };
    analyze_statement_list(&case.consequent, &mut flags);
    if flags.has_return {
        return VmInstructionType::Return;
    }
    if flags.has_binary_op {
        if let Some(op) = flags.binary_op {
            match op {
                JsBinaryOperator::BitwiseXOR => return VmInstructionType::XorOp,
                JsBinaryOperator::Addition => return VmInstructionType::AddOp,
                JsBinaryOperator::Subtraction => return VmInstructionType::SubOp,
                JsBinaryOperator::StrictEquality
                | JsBinaryOperator::StrictInequality
                | JsBinaryOperator::Equality
                | JsBinaryOperator::Inequality
                | JsBinaryOperator::LessThan
                | JsBinaryOperator::LessEqualThan => {
                    return VmInstructionType::Compare;
                },
                _ => {},
            }
        }
    }
    if flags.has_this_write && flags.has_member_access {
        return VmInstructionType::MemoryWrite;
    }
    if flags.has_jump {
        return VmInstructionType::Jump;
    }
    if flags.has_this_access && !flags.has_assignment {
        return VmInstructionType::MemoryRead;
    }
    VmInstructionType::Unknown
}

// ---------------------------------------------------------------------------
// Opcode numbers.
// ---------------------------------------------------------------------------

/// Negation that wraps at `i64::MIN`, as an `i64` negation does in a release build.
pub open spec fn wrapping_negate(n: i64) -> i64 {
    if n == i64::MIN {
        n
    } else {
        (-n) as i64
    }
}

/// The number a case test denotes: a numeric literal, or a negation of one
/// (possibly repeated).
pub open spec fn numeric_value(e: JsExpression) -> Option<i64>
    decreases e,
{
    match e {
        JsExpression::NumericLiteral(v) => Some(v),
        JsExpression::Unary(op, argument) => if op == UnaryOperator::Negation {
            match numeric_value(*argument) {
                Some(n) => Some(wrapping_negate(n)),
                None => None,
            }
        } else {
            None
        },
        _ => None,
    }
}

/// The opcode of the case at position `idx`: the number its test denotes,
/// else its position.
pub open spec fn case_opcode(case: JsSwitchCase, idx: int) -> i64 {
    match case.test {
        Some(t) => match numeric_value(t) {
            Some(n) => n,
            None => idx as i64,
        },
        None => idx as i64,
    }
}

/// Opcode to class over the cases of a switch, in order; a later case with
/// the same opcode replaces an earlier one.
pub open spec fn case_type_map(cases: Seq<JsSwitchCase>) -> Map<i64, VmInstructionType>
    decreases cases.len(),
{
    if cases.len() == 0 {
        Map::empty()
    } else {
        case_type_map(cases.drop_last()).insert(
            case_opcode(cases.last(), cases.len() - 1),
            case_class(cases.last()),
        )
    }
}

/// The name given to an opcode: `OP_{opcode}_{class:?}`.
pub open spec fn opcode_name(opcode: i64, t: VmInstructionType) -> Seq<char> {
    "OP_"@ + int_decimal(opcode as int) + "_"@ + debug_name(t)
}

/// The names cover exactly the opcodes that have a class, each named after
/// its opcode and class.
pub open spec fn names_agree(
    types: Map<i64, VmInstructionType>,
    names: Map<i64, String>,
) -> bool {
    &&& names.dom() =~= types.dom()
    &&& forall|k: i64| #[trigger] types.contains_key(k) ==> names[k]@ == opcode_name(k, types[k])
}

fn extract_numeric(test: &JsExpression) -> (r: Option<i64>)
    ensures
        r == numeric_value(*test),
    decreases *test,
{
    match test {
        JsExpression::NumericLiteral(value) => Some(*value),
        JsExpression::Unary(op, argument) => {
            if *op == UnaryOperator::Negation {
                match extract_numeric(argument) {
                    Some(n) => {
                        if n == i64::MIN {
                            Some(n)
                        } else {
                            Some(-n)
                        }
                    },
                    None => None,
                }
            } else {
                None
            }
        },
        _ => None,
    }
}

/// Builds `OP_{opcode}_{class:?}`.
fn opcode_label(opcode: i64, t: VmInstructionType) -> (r: String)
    ensures
        r@ == opcode_name(opcode, t),
{
    let mut name = String::new();
    proof {
        reveal_strlit("OP_");
        reveal_strlit("_");
    }
    name.append("OP_");
    push_i64_decimal(&mut name, opcode);
    name.append("_");
    name.append(t.debug_name());
    proof {
        assert(name@ =~= opcode_name(opcode, t));
    }
    name
}

// ---------------------------------------------------------------------------
// The registers of the VM state.
// ---------------------------------------------------------------------------

/// The property names under which the VM keeps its memory, instruction
/// pointer and accumulator, when recognised.
#[derive(Debug, Clone)]
pub struct StatePropertyNames {
    pub memory_prop: Option<String>,
    pub pointer_prop: Option<String>,
    pub accumulator_prop: Option<String>,
}

pub open spec fn opt_name(o: Option<String>) -> Option<Seq<char>> {
    match o {
        Some(s) => Some(s@),
        None => None,
    }
}

/// The three names as character sequences.
pub open spec fn state_names_view(p: StatePropertyNames) -> (
    Option<Seq<char>>,
    Option<Seq<char>>,
    Option<Seq<char>>,
) {
    (opt_name(p.memory_prop), opt_name(p.pointer_prop), opt_name(p.accumulator_prop))
}

impl Default for StatePropertyNames {
    fn default() -> (r: Self)
        ensures
            r.memory_prop is None,
            r.pointer_prop is None,
            r.accumulator_prop is None,
    {
        StatePropertyNames { memory_prop: None, pointer_prop: None, accumulator_prop: None }
    }
}

fn copy_name(o: &Option<String>) -> (r: Option<String>)
    ensures
        opt_name(r) == opt_name(*o),
{
    match o {
        Some(s) => Some(s.clone()),
        None => None,
    }
}

fn copy_state_names(p: &StatePropertyNames) -> (r: StatePropertyNames)
    ensures
        state_names_view(r) == state_names_view(*p),
{
    StatePropertyNames {
        memory_prop: copy_name(&p.memory_prop),
        pointer_prop: copy_name(&p.pointer_prop),
        accumulator_prop: copy_name(&p.accumulator_prop),
    }
}

/// The names of `this.<name>` reads and writes that a statement of a case
/// body mentions, in order.
pub open spec fn this_names_stmt(s: JsStatement) -> Seq<Seq<char>>
    decreases s, 0int,
{
    match s {
        JsStatement::Expression(e) => this_names_expr(e),
        JsStatement::If(test, c, _) => this_names_expr(test) + this_names_stmt(*c),
        JsStatement::Block(body) => this_names_stmts(body@),
        _ => Seq::empty(),
    }
}

pub open spec fn this_names_stmts(ss: Seq<JsStatement>) -> Seq<Seq<char>>
    decreases ss, 0int,
{
    if ss.len() == 0 {
        Seq::empty()
    } else {
        this_names_stmts(ss.subrange(0, ss.len() - 1)) + this_names_stmt(ss[ss.len() - 1])
    }
}

pub open spec fn this_names_expr(e: JsExpression) -> Seq<Seq<char>>
    decreases e, 0int,
{
    match e {
        JsExpression::Assignment(_, right) => this_names_expr(*right),
        JsExpression::StaticMember(object, name) => (if is_this(*object) {
            seq![name@]
        } else {
            Seq::empty()
        }) + this_names_expr(*object),
        JsExpression::ComputedMember(object, property) => this_names_expr(*object)
            + this_names_expr(*property),
        JsExpression::Binary(_, left, right) => this_names_expr(*left) + this_names_expr(*right),
        JsExpression::Unary(_, argument) => this_names_expr(*argument),
        _ => Seq::empty(),
    }
}

/// The `this` property names mentioned across all cases of a switch.
pub open spec fn switch_this_names(cases: Seq<JsSwitchCase>) -> Seq<Seq<char>>
    decreases cases.len(),
{
    if cases.len() == 0 {
        Seq::empty()
    } else {
        switch_this_names(cases.drop_last()) + this_names_stmts(cases.last().consequent@)
    }
}

/// The first candidate that occurs among `names`.
pub open spec fn first_present(cands: Seq<Seq<char>>, names: Seq<Seq<char>>) -> Option<Seq<char>>
    decreases cands.len(),
{
    if cands.len() == 0 {
        None
    } else if names.contains(cands[0]) {
        Some(cands[0])
    } else {
        first_present(cands.drop_first(), names)
    }
}

pub open spec fn memory_candidates() -> Seq<Seq<char>> {
    seq!["h"@, "memory"@, "mem"@, "state"@, "data"@]
}

pub open spec fn pointer_candidates() -> Seq<Seq<char>> {
    seq!["g"@, "ptr"@, "pointer"@, "ip"@, "pc"@, "counter"@]
}

pub open spec fn accumulator_candidates() -> Seq<Seq<char>> {
    seq!["a"@, "acc"@, "accumulator"@, "result"@, "sum"@]
}

/// A name found among the candidates replaces the current one; otherwise the
/// current one stays.
pub open spec fn updated_name(
    current: Option<Seq<char>>,
    cands: Seq<Seq<char>>,
    names: Seq<Seq<char>>,
) -> Option<Seq<char>> {
    match first_present(cands, names) {
        Some(n) => Some(n),
        None => current,
    }
}

/// The register names after looking at the cases of a switch.
pub open spec fn detected_state_names(
    old_names: (Option<Seq<char>>, Option<Seq<char>>, Option<Seq<char>>),
    cases: Seq<JsSwitchCase>,
) -> (Option<Seq<char>>, Option<Seq<char>>, Option<Seq<char>>) {
    let names = switch_this_names(cases);
    (
        updated_name(old_names.0, memory_candidates(), names),
        updated_name(old_names.1, pointer_candidates(), names),
        updated_name(old_names.2, accumulator_candidates(), names),
    )
}

fn extract_this_properties(stmt: &JsStatement, props: &mut Vec<String>)
    ensures
        final(props)@.map_values(|s: String| s@) == old(props)@.map_values(|s: String| s@)
            + this_names_stmt(*stmt),
    decreases *stmt, 0int,
{
    let ghost p0 = props@.map_values(|s: String| s@);
    match stmt {
        JsStatement::Expression(e) => {
            extract_from_expr(e, props);
        },
        JsStatement::If(test, consequent, _) => {
            extract_from_expr(test, props);
            extract_this_properties(consequent, props);
            proof {
                assert(p0 + this_names_expr(*test) + this_names_stmt(**consequent) =~= p0 + (
                this_names_expr(*test) + this_names_stmt(**consequent)));
            }
        },
        JsStatement::Block(body) => {
            let n = body.len();
            let mut i: usize = 0;
            while i < n
                invariant
                    n == body.len(),
                    i <= n,
                    *stmt == JsStatement::Block(*body),
                    props@.map_values(|s: String| s@) == p0 + this_names_stmts(
                        body@.subrange(0, i as int),
                    ),
                decreases n - i,
            {
                proof {
                    let next = body@.subrange(0, i + 1);
                    assert(next.subrange(0, next.len() - 1) =~= body@.subrange(0, i as int));
                    assert(decreases_to!(*stmt => (*stmt)->Block_0));
                    assert(decreases_to!(*body => body@));
                    assert(decreases_to!(body@ => body@[i as int]));
                }
                extract_this_properties(&body[i], props);
                proof {
                    let next = body@.subrange(0, i + 1);
                    assert(this_names_stmts(next) == this_names_stmts(body@.subrange(0, i as int))
                        + this_names_stmt(body@[i as int]));
                    assert(p0 + this_names_stmts(body@.subrange(0, i as int)) + this_names_stmt(
                        body@[i as int],
                    ) =~= p0 + this_names_stmts(next));
                }
                i = i + 1;
            }
            assert(body@.subrange(0, n as int) =~= body@);
        },
        _ => {
            assert(props@.map_values(|s: String| s@) =~= p0 + this_names_stmt(*stmt));
        },
    }
}

fn extract_from_expr(expr: &JsExpression, props: &mut Vec<String>)
    ensures
        final(props)@.map_values(|s: String| s@) == old(props)@.map_values(|s: String| s@)
            + this_names_expr(*expr),
    decreases *expr, 0int,
{
    let ghost p0 = props@.map_values(|s: String| s@);
    match expr {
        JsExpression::Assignment(_, right) => {
            extract_from_expr(right, props);
        },
        JsExpression::StaticMember(object, name) => {
            if let JsExpression::This = &**object {
                props.push(name.clone());
                proof {
                    assert(props@.map_values(|s: String| s@) =~= p0 + seq![name@]);
                }
            } else {
                assert(props@.map_values(|s: String| s@) =~= p0 + Seq::<Seq<char>>::empty());
            }
            let ghost p1 = props@.map_values(|s: String| s@);
            extract_from_expr(object, props);
            proof {
                let own: Seq<Seq<char>> = if is_this(**object) {
                    seq![name@]
                } else {
                    Seq::empty()
                };
                assert(p0 + own + this_names_expr(**object) =~= p0 + (own + this_names_expr(
                    **object,
                )));
            }
        },
        JsExpression::ComputedMember(object, property) => {
            extract_from_expr(object, props);
            extract_from_expr(property, props);
            proof {
                assert(p0 + this_names_expr(**object) + this_names_expr(**property) =~= p0 + (
                this_names_expr(**object) + this_names_expr(**property)));
            }
        },
        JsExpression::Binary(_, left, right) => {
            extract_from_expr(left, props);
            extract_from_expr(right, props);
            proof {
                assert(p0 + this_names_expr(**left) + this_names_expr(**right) =~= p0 + (
                this_names_expr(**left) + this_names_expr(**right)));
            }
        },
        JsExpression::Unary(_, argument) => {
            extract_from_expr(argument, props);
        },
        _ => {
            assert(props@.map_values(|s: String| s@) =~= p0 + this_names_expr(*expr));
        },
    }
}

/// Whether some recorded name equals `name`.
fn contains_name(props: &Vec<String>, name: &str) -> (r: bool)
    ensures
        r == props@.map_values(|s: String| s@).contains(name@),
{
    let ghost names = props@.map_values(|s: String| s@);
    let mut i: usize = 0;
    while i < props.len()
        invariant
            names == props@.map_values(|s: String| s@),
            i <= props.len(),
            forall|j: int| 0 <= j < i ==> names[j] != name@,
        decreases props.len() - i,
    {
        if str_equal(props[i].as_str(), name) {
            assert(names[i as int] == name@);
            return true;
        }
        i = i + 1;
    }
    false
}

/// The first candidate that occurs among the recorded names.
fn first_present_name(props: &Vec<String>, cands: &[&str]) -> (r: Option<String>)
    ensures
        opt_name(r) == first_present(
            cands@.map_values(|c: &str| c@),
            props@.map_values(|s: String| s@),
        ),
{
    let ghost names = props@.map_values(|s: String| s@);
    let ghost cs = cands@.map_values(|c: &str| c@);
    assert(cs.subrange(0, cs.len() as int) =~= cs);
    let mut i: usize = 0;
    while i < cands.len()
        invariant
            names == props@.map_values(|s: String| s@),
            cs == cands@.map_values(|c: &str| c@),
            i <= cands@.len(),
            first_present(cs, names) == first_present(cs.subrange(i as int, cs.len() as int), names),
        decreases cands@.len() - i,
    {
        let c = cands[i];
        proof {
            let rest = cs.subrange(i as int, cs.len() as int);
            assert(rest.drop_first() =~= cs.subrange(i + 1, cs.len() as int));
            assert(rest[0] == c@);
        }
        if contains_name(props, c) {
            return Some(String::from_str(c));
        }
        i = i + 1;
    }
    proof {
        assert(cs.subrange(i as int, cs.len() as int).len() == 0);
    }
    None
}

// ---------------------------------------------------------------------------
// The mapping and the analyzer.
// ---------------------------------------------------------------------------

/// Opcode numbers with their class and name, the VM's register names, and
/// the heuristics that were applied (none are recorded at present).
#[derive(Debug, Clone)]
pub struct VmOpcodeMapping {
    pub opcode_to_type: HashMap<i64, VmInstructionType>,
    pub opcode_to_name: HashMap<i64, String>,
    pub state_property_names: StatePropertyNames,
    pub heuristics_applied: Vec<String>,
}

impl Default for VmOpcodeMapping {
    fn default() -> (r: Self)
        ensures
            r.opcode_to_type@ == Map::<i64, VmInstructionType>::empty(),
            r.opcode_to_name@ == Map::<i64, String>::empty(),
            state_names_view(r.state_property_names) == (
                None::<Seq<char>>,
                None::<Seq<char>>,
                None::<Seq<char>>,
            ),
            r.heuristics_applied@.len() == 0,
    {
        VmOpcodeMapping {
            opcode_to_type: HashMap::new(),
            opcode_to_name: HashMap::new(),
            state_property_names: StatePropertyNames::default(),
            heuristics_applied: Vec::new(),
        }
    }
}

/// Finds the interpreter switch of a program and classifies its cases.
pub struct VmOpcodeAnalyzer<'a> {
    pub found_switch: Option<&'a SwitchStatement>,
    pub case_count: usize,
    pub state_props: StatePropertyNames,
    /// The case counts at which the last search took a new largest switch,
    /// in the order it reached them.
    pub switches_found: Vec<usize>,
}

/// The switch the search keeps for a program: among all switches reached
/// from its top-level statements, the first one with the most cases (none
/// when no switch has a case).
pub open spec fn vm_switch(program: Program) -> Option<SwitchStatement> {
    pick_largest(switches_in_stmts(program.body@), (None, 0)).0
}

impl<'a> VmOpcodeAnalyzer<'a> {
    pub fn new(_allocator: &'a Allocator) -> (r: Self)
        ensures
            r.found_switch is None,
            r.case_count == 0,
            r.switches_found@.len() == 0,
            state_names_view(r.state_props) == (
                None::<Seq<char>>,
                None::<Seq<char>>,
                None::<Seq<char>>,
            ),
    {
        VmOpcodeAnalyzer {
            found_switch: None,
            case_count: 0,
            state_props: StatePropertyNames::default(),
            switches_found: Vec::new(),
        }
    }

    /// Finds the interpreter switch of `program` (when there is one, it
    /// becomes the analyzer's switch and its register names are detected),
    /// then maps the opcodes of the analyzer's switch.
    pub fn analyze(&mut self, program: &'a Program) -> (r: VmOpcodeMapping)
        ensures
            match vm_switch(*program) {
                Some(sw) => {
                    &&& opt_deref(final(self).found_switch) == Some(sw)
                    &&& final(self).case_count == sw.cases.len()
                    &&& state_names_view(final(self).state_props) == detected_state_names(
                        state_names_view(old(self).state_props),
                        sw.cases@,
                    )
                },
                None => {
                    &&& final(self).found_switch == old(self).found_switch
                    &&& final(self).case_count == old(self).case_count
                    &&& state_names_view(final(self).state_props) == state_names_view(
                        old(self).state_props,
                    )
                },
            },
            final(self).switches_found@ == new_maxima(switches_in_stmts(program.body@), (None, 0)),
            r.opcode_to_type@ == match final(self).found_switch {
                Some(sw) => case_type_map(sw.cases@),
                None => Map::empty(),
            },
            names_agree(r.opcode_to_type@, r.opcode_to_name@),
            state_names_view(r.state_property_names) == state_names_view(final(self).state_props),
            r.heuristics_applied@.len() == 0,
    {
        self.find_vm_switch(program);
        self.map_opcodes()
    }

    fn find_vm_switch(&mut self, program: &'a Program)
        ensures
            match vm_switch(*program) {
                Some(sw) => {
                    &&& opt_deref(final(self).found_switch) == Some(sw)
                    &&& final(self).case_count == sw.cases.len()
                    &&& state_names_view(final(self).state_props) == detected_state_names(
                        state_names_view(old(self).state_props),
                        sw.cases@,
                    )
                },
                None => {
                    &&& final(self).found_switch == old(self).found_switch
                    &&& final(self).case_count == old(self).case_count
                    &&& state_names_view(final(self).state_props) == state_names_view(
                        old(self).state_props,
                    )
                },
            },
            final(self).switches_found@ == new_maxima(switches_in_stmts(program.body@), (None, 0)),
    {
        let mut largest_switch: Option<&'a SwitchStatement> = None;
        let mut largest_case_count: usize = 0;
        let mut switches_found: Vec<usize> = Vec::new();
        find_switch_in_stmt_list(
            &program.body,
            &mut largest_switch,
            &mut largest_case_count,
            &mut switches_found,
        );
        assert(switches_found@ =~= new_maxima(switches_in_stmts(program.body@), (None, 0)));
        self.switches_found = switches_found;
        if let Some(switch_stmt) = largest_switch {
            self.case_count = switch_stmt.cases.len();
            self.detect_state_properties(switch_stmt);
            self.found_switch = Some(switch_stmt);
        }
    }

    fn detect_state_properties(&mut self, switch_stmt: &'a SwitchStatement)
        ensures
            state_names_view(final(self).state_props) == detected_state_names(
                state_names_view(old(self).state_props),
                switch_stmt.cases@,
            ),
            final(self).found_switch == old(self).found_switch,
            final(self).case_count == old(self).case_count,
            final(self).switches_found == old(self).switches_found,
    {
        let mut this_props: Vec<String> = Vec::new();
        let n = switch_stmt.cases.len();
        let mut i: usize = 0;
        while i < n
            invariant
                n == switch_stmt.cases.len(),
                i <= n,
                this_props@.map_values(|s: String| s@) == switch_this_names(
                    switch_stmt.cases@.subrange(0, i as int),
                ),
            decreases n - i,
        {
            let case = &switch_stmt.cases[i];
            let ghost before = this_props@.map_values(|s: String| s@);
            let m = case.consequent.len();
            let mut k: usize = 0;
            while k < m
                invariant
                    m == case.consequent.len(),
                    k <= m,
                    this_props@.map_values(|s: String| s@) == before + this_names_stmts(
                        case.consequent@.subrange(0, k as int),
                    ),
                decreases m - k,
            {
                extract_this_properties(&case.consequent[k], &mut this_props);
                proof {
                    let next = case.consequent@.subrange(0, k + 1);
                    assert(next.subrange(0, next.len() - 1) =~= case.consequent@.subrange(
                        0,
                        k as int,
                    ));
                    assert(before + this_names_stmts(case.consequent@.subrange(0, k as int))
                        + this_names_stmt(case.consequent@[k as int]) =~= before
                        + this_names_stmts(next));
                }
                k = k + 1;
            }
            proof {
                assert(case.consequent@.subrange(0, m as int) =~= case.consequent@);
                let next = switch_stmt.cases@.subrange(0, i + 1);
                assert(next.drop_last() =~= switch_stmt.cases@.subrange(0, i as int));
            }
            i = i + 1;
        }
        proof {
            assert(switch_stmt.cases@.subrange(0, n as int) =~= switch_stmt.cases@);
        }
        let memory = [ "h", "memory", "mem", "state", "data" ];
        let pointer = [ "g", "ptr", "pointer", "ip", "pc", "counter" ];
        let accumulator = [ "a", "acc", "accumulator", "result", "sum" ];
        proof {
            assert(memory@.map_values(|c: &str| c@) =~= memory_candidates());
            assert(pointer@.map_values(|c: &str| c@) =~= pointer_candidates());
            assert(accumulator@.map_values(|c: &str| c@) =~= accumulator_candidates());
        }
        if let Some(name) = first_present_name(&this_props, memory.as_slice()) {
            self.state_props.memory_prop = Some(name);
        }
        if let Some(name) = first_present_name(&this_props, pointer.as_slice()) {
            self.state_props.pointer_prop = Some(name);
        }
        if let Some(name) = first_present_name(&this_props, accumulator.as_slice()) {
            self.state_props.accumulator_prop = Some(name);
        }
    }

    fn map_opcodes(&self) -> (r: VmOpcodeMapping)
        ensures
            r.opcode_to_type@ == match self.found_switch {
                Some(sw) => case_type_map(sw.cases@),
                None => Map::empty(),
            },
            names_agree(r.opcode_to_type@, r.opcode_to_name@),
            state_names_view(r.state_property_names) == state_names_view(self.state_props),
            r.heuristics_applied@.len() == 0,
    {
        broadcast use vstd::std_specs::hash::group_hash_axioms;

        let mut mapping = VmOpcodeMapping::default();
        mapping.state_property_names = copy_state_names(&self.state_props);
        if let Some(switch_stmt) = self.found_switch {
            let n = switch_stmt.cases.len();
            let mut idx: usize = 0;
            while idx < n
                invariant
                    n == switch_stmt.cases.len(),
                    idx <= n,
                    mapping.opcode_to_type@ == case_type_map(
                        switch_stmt.cases@.subrange(0, idx as int),
                    ),
                    names_agree(mapping.opcode_to_type@, mapping.opcode_to_name@),
                    state_names_view(mapping.state_property_names) == state_names_view(
                        self.state_props,
                    ),
                    mapping.heuristics_applied@.len() == 0,
                decreases n - idx,
            {
                let case = &switch_stmt.cases[idx];
                let opcode = match &case.test {
                    Some(t) => match extract_numeric(t) {
                        Some(v) => v,
                        None => idx as i64,
                    },
                    None => idx as i64,
                };
                let instr_type = classify_case(case);
                let name = opcode_label(opcode, instr_type);
                mapping.opcode_to_type.insert(opcode, instr_type);
                mapping.opcode_to_name.insert(opcode, name);
                proof {
                    let next = switch_stmt.cases@.subrange(0, idx + 1);
                    assert(next.drop_last() =~= switch_stmt.cases@.subrange(0, idx as int));
                    assert(next.last() == *case);
                    assert(case_opcode(*case, idx as int) == opcode);
                }
                idx = idx + 1;
            }
            proof {
                assert(switch_stmt.cases@.subrange(0, n as int) =~= switch_stmt.cases@);
            }
        }
        mapping
    }
}

/// Why no opcode mapping could be made.
#[derive(Debug, Clone, Copy, PartialEq, Eq, Structural)]
pub enum VmAnalysisError {
    /// No switch statement with a case is reachable in the program.
    NoVmSwitch,
}

/// What a mapping of `program` holds: the classes of the cases of its
/// interpreter switch (at least one opcode), each opcode named after its
/// class, the registers detected in that switch, no heuristics.
pub open spec fn program_mapping(program: Program, m: VmOpcodeMapping) -> bool {
    let sw = vm_switch(program)->0;
    &&& m.opcode_to_type@ == case_type_map(sw.cases@)
    &&& m.opcode_to_type@.len() > 0
    &&& names_agree(m.opcode_to_type@, m.opcode_to_name@)
    &&& state_names_view(m.state_property_names) == detected_state_names(
        (None, None, None),
        sw.cases@,
    )
    &&& m.heuristics_applied@.len() == 0
}

/// Maps the opcodes of the interpreter switch of a parsed program: the
/// first switch with the most cases among those the search reaches.
pub fn analyze_program(program: &Program) -> (r: Result<VmOpcodeMapping, VmAnalysisError>)
    ensures
        r is Ok <==> vm_switch(*program) is Some,
        r matches Ok(m) ==> program_mapping(*program, m),
{
    broadcast use vstd::std_specs::hash::group_hash_axioms;

    let allocator = new_allocator();
    let mut analyzer = VmOpcodeAnalyzer::new(&allocator);
    let mapping = analyzer.analyze(program);
    proof {
        if let Some(sw) = vm_switch(*program) {
            lemma_vm_switch_has_cases(*program);
            lemma_case_type_map_nonempty(sw.cases@);
        }
    }
    if mapping.opcode_to_type.len() == 0 {
        return Err(VmAnalysisError::NoVmSwitch);
    }
    Ok(mapping)
}

/// Why a script yields no opcode mapping.
#[derive(Debug)]
pub enum OpcodesError {
    /// The script does not parse; the parser's diagnostics.
    Parse(String),
    /// The script parses, but no switch statement with a case is reachable.
    NoVmSwitch,
}

/// The text reported for each error.
pub open spec fn error_message(e: OpcodesError) -> Seq<char> {
    match e {
        OpcodesError::Parse(d) => "Parse errors: "@ + d@,
        OpcodesError::NoVmSwitch => "No VM switch statement found (>15 cases required)"@,
    }
}

impl OpcodesError {
    /// The text reported for the error (see `error_message`).
    pub fn message(&self) -> (r: String)
        ensures
            r@ == error_message(*self),
    {
        match self {
            OpcodesError::Parse(d) => {
                let mut text = String::from_str("Parse errors: ");
                text.append(d.as_str());
                text
            },
            OpcodesError::NoVmSwitch => String::from_str(
                "No VM switch statement found (>15 cases required)",
            ),
        }
    }
}

/// Parses a script (see `parsed_script`) and maps the opcodes of its
/// interpreter switch (see `analyze_program`).
pub fn analyze_vm_opcodes(js_code: &str) -> (r: Result<VmOpcodeMapping, OpcodesError>)
    ensures
        r matches Err(OpcodesError::Parse(_)) <==> parsed_script(js_code@) is None,
        parsed_script(js_code@) matches Some(p) ==> {
            &&& (r is Ok <==> vm_switch(p) is Some)
            &&& (r matches Ok(m) ==> program_mapping(p, m))
        },
{
    let program = match parse_script(js_code) {
        Ok(p) => p,
        Err(diagnostics) => {
            return Err(OpcodesError::Parse(diagnostics));
        },
    };
    match analyze_program(&program) {
        Ok(m) => Ok(m),
        Err(VmAnalysisError::NoVmSwitch) => Err(OpcodesError::NoVmSwitch),
    }
}

/// The case counts at which the search over a parsed script takes a new
/// largest switch, in the order it reaches them (see `new_maxima`); `None`
/// when the script does not parse.
pub fn vm_switches_found(js_code: &str) -> (r: Option<Vec<usize>>)
    ensures
        match parsed_script(js_code@) {
            None => r is None,
            Some(p) => r matches Some(v) && v@ == new_maxima(switches_in_stmts(p.body@), (None, 0)),
        },
{
    let program = match parse_script(js_code) {
        Ok(p) => p,
        Err(_) => {
            return None;
        },
    };
    let allocator = new_allocator();
    let mut analyzer = VmOpcodeAnalyzer::new(&allocator);
    let _mapping = analyzer.analyze(&program);
    Some(analyzer.switches_found)
}

/// A kept switch has at least one case.
pub proof fn lemma_pick_positive(seq: Seq<SwitchStatement>, st: (Option<SwitchStatement>, int))
    requires
        st.0 is Some ==> st.0->0.cases.len() == st.1 && st.1 > 0,
        st.0 is None ==> st.1 == 0,
    ensures
        ({
            let r = pick_largest(seq, st);
            &&& r.0 is Some ==> r.0->0.cases.len() == r.1 && r.1 > 0
            &&& r.0 is None ==> r.1 == 0
        }),
    decreases seq.len(),
{
    if seq.len() > 0 {
        lemma_pick_positive(seq.drop_last(), st);
    }
}

proof fn lemma_vm_switch_has_cases(program: Program)
    ensures
        vm_switch(program) matches Some(sw) ==> sw.cases.len() > 0,
{
    lemma_pick_positive(switches_in_stmts(program.body@), (None, 0));
}

proof fn lemma_case_type_map_nonempty(cases: Seq<JsSwitchCase>)
    requires
        cases.len() > 0,
    ensures
        case_type_map(cases).len() > 0,
{
    let m = case_type_map(cases.drop_last());
    lemma_case_type_map_finite(cases.drop_last());
    let k = case_opcode(cases.last(), cases.len() - 1);
    let m2 = m.insert(k, case_class(cases.last()));
    assert(m2.dom() =~= m.dom().insert(k));
    vstd::set::axiom_set_insert_finite(m.dom(), k);
    vstd::set::axiom_set_contains_len(m2.dom(), k);
}

proof fn lemma_case_type_map_finite(cases: Seq<JsSwitchCase>)
    ensures
        case_type_map(cases).dom().finite(),
    decreases cases.len(),
{
    if cases.len() > 0 {
        lemma_case_type_map_finite(cases.drop_last());
    }
}

/// The class of each opcode 0..=15 in the fallback table, by opcode.
pub open spec fn default_classes() -> Seq<VmInstructionType> {
    seq![
        VmInstructionType::Return,
        VmInstructionType::Jump,
        VmInstructionType::MemoryRead,
        VmInstructionType::MemoryWrite,
        VmInstructionType::XorOp,
        VmInstructionType::AddOp,
        VmInstructionType::SubOp,
        VmInstructionType::PushConstant,
        VmInstructionType::Pop,
        VmInstructionType::Compare,
        VmInstructionType::Duplicate,
        VmInstructionType::Swap,
        VmInstructionType::Load,
        VmInstructionType::Store,
        VmInstructionType::Call,
        VmInstructionType::ConditionalJump,
    ]
}

/// The fallback table: opcode `i` (0..=15) has class `default_classes()[i]`.
pub open spec fn default_type_map() -> Map<i64, VmInstructionType> {
    Map::new(|k: i64| 0 <= k < 16, |k: i64| default_classes()[k as int])
}

/// The opcode table to use when none could be derived: sixteen fixed
/// opcodes, named after their class, with registers `h`, `g` and `a`.
pub fn get_default_opcode_map() -> (r: VmOpcodeMapping)
    ensures
        r.opcode_to_type@ == default_type_map(),
        names_agree(r.opcode_to_type@, r.opcode_to_name@),
        state_names_view(r.state_property_names) == (
            Some("h"@),
            Some("g"@),
            Some("a"@),
        ),
        r.heuristics_applied@.len() == 0,
{
    broadcast use vstd::std_specs::hash::group_hash_axioms;

    let mut mapping = VmOpcodeMapping::default();
    let classes = [
        VmInstructionType::Return,
        VmInstructionType::Jump,
        VmInstructionType::MemoryRead,
        VmInstructionType::MemoryWrite,
        VmInstructionType::XorOp,
        VmInstructionType::AddOp,
        VmInstructionType::SubOp,
        VmInstructionType::PushConstant,
        VmInstructionType::Pop,
        VmInstructionType::Compare,
        VmInstructionType::Duplicate,
        VmInstructionType::Swap,
        VmInstructionType::Load,
        VmInstructionType::Store,
        VmInstructionType::Call,
        VmInstructionType::ConditionalJump,
    ];
    assert(classes@ =~= default_classes());
    let mut i: usize = 0;
    while i < 16
        invariant
            classes@ == default_classes(),
            i <= 16,
            mapping.opcode_to_type@ == Map::new(
                |k: i64| 0 <= k < i,
                |k: i64| default_classes()[k as int],
            ),
            mapping.opcode_to_name@ == Map::<i64, String>::empty(),
            mapping.heuristics_applied@.len() == 0,
        decreases 16 - i,
    {
        mapping.opcode_to_type.insert(i as i64, classes[i]);
        assert(mapping.opcode_to_type@ =~= Map::new(
            |k: i64| 0 <= k < i + 1,
            |k: i64| default_classes()[k as int],
        ));
        i = i + 1;
    }
    let mut i: usize = 0;
    while i < 16
        invariant
            classes@ == default_classes(),
            i <= 16,
            mapping.opcode_to_type@ == default_type_map(),
            mapping.opcode_to_name@.dom() =~= Set::new(|k: i64| 0 <= k < i),
            forall|k: i64|
                0 <= k < i ==> #[trigger] mapping.opcode_to_name@[k]@ == opcode_name(
                    k,
                    default_classes()[k as int],
                ),
            mapping.heuristics_applied@.len() == 0,
        decreases 16 - i,
    {
        let name = opcode_label(i as i64, classes[i]);
        mapping.opcode_to_name.insert(i as i64, name);
        i = i + 1;
    }
    proof {
        reveal_strlit("h");
        reveal_strlit("g");
        reveal_strlit("a");
    }
    mapping.state_property_names = StatePropertyNames {
        memory_prop: Some(String::from_str("h")),
        pointer_prop: Some(String::from_str("g")),
        accumulator_prop: Some(String::from_str("a")),
    };
    mapping
}

/// The search never lowers the case count it keeps: after reaching a list of
/// switches, the state is either unchanged or holds a switch reached on the
/// way whose case count is higher than before and equals the kept count.
pub proof fn lemma_pick_largest_monotone(seq: Seq<SwitchStatement>, st: (Option<SwitchStatement>, int))
    ensures
        pick_largest(seq, st).1 >= st.1,
        pick_largest(seq, st) == st || ({
            let r = pick_largest(seq, st);
            &&& r.0 is Some
            &&& r.0->0.cases.len() == r.1
            &&& r.1 > st.1
            &&& r.1 > 0
            &&& seq.contains(r.0->0)
        }),
    decreases seq.len(),
{
    if seq.len() > 0 {
        lemma_pick_largest_monotone(seq.drop_last(), st);
        let prev = pick_largest(seq.drop_last(), st);
        if prev != st {
            assert(seq.drop_last().contains(prev.0->0));
            let k = choose|k: int| 0 <= k < seq.drop_last().len() && seq.drop_last()[k] == prev.0->0;
            assert(seq[k] == prev.0->0);
        }
        assert(seq[seq.len() - 1] == seq.last());
    }
}

/// Flags only turn on, and the first operator recorded stays: from any
/// flags in which a recorded operator implies `has_binary_op`, the events
/// keep every flag that was set, keep a recorded operator, and keep that
/// implication.
pub proof fn lemma_apply_events_monotone(f: InstructionFlags, evs: Seq<FlagEvent>)
    requires
        f.binary_op is Some ==> f.has_binary_op,
    ensures
        ({
            let r = apply_events(f, evs);
            &&& f.has_assignment ==> r.has_assignment
            &&& f.has_binary_op ==> r.has_binary_op
            &&& f.has_this_access ==> r.has_this_access
            &&& f.has_this_write ==> r.has_this_write
            &&& f.has_jump ==> r.has_jump
            &&& f.has_return ==> r.has_return
            &&& f.has_member_access ==> r.has_member_access
            &&& f.binary_op is Some ==> r.binary_op == f.binary_op
            &&& r.binary_op is Some ==> r.has_binary_op
        }),
    decreases evs.len(),
{
    if evs.len() > 0 {
        lemma_apply_events_monotone(f, evs.drop_last());
    }
}

/// A `return` reached by the classification: the statement itself, one in a
/// block, or one in the consequent of an `if`.
pub open spec fn holds_return(s: JsStatement) -> bool
    decreases s, 1int,
{
    match s {
        JsStatement::Return => true,
        JsStatement::Block(body) => stmts_hold_return(body@),
        JsStatement::If(_, c, _) => holds_return(*c),
        _ => false,
    }
}

/// Some statement of the list holds a `return` (see `holds_return`).
pub open spec fn stmts_hold_return(ss: Seq<JsStatement>) -> bool
    decreases ss, 0int,
{
    if ss.len() == 0 {
        false
    } else {
        stmts_hold_return(ss.subrange(0, ss.len() - 1)) || holds_return(ss[ss.len() - 1])
    }
}

proof fn lemma_events_with_return(f: InstructionFlags, evs: Seq<FlagEvent>, i: int)
    requires
        f.binary_op is Some ==> f.has_binary_op,
        0 <= i < evs.len(),
        evs[i] == FlagEvent::Return,
    ensures
        apply_events(f, evs).has_return,
    decreases evs.len(),
{
    if i == evs.len() - 1 {
    } else {
        assert(evs.drop_last()[i] == evs[i]);
        lemma_events_with_return(f, evs.drop_last(), i);
        lemma_apply_events_monotone(f, evs.drop_last());
        lemma_apply_events_monotone(apply_events(f, evs.drop_last()), seq![evs.last()]);
        lemma_single_event(apply_events(f, evs.drop_last()), evs.last());
    }
}

pub open spec fn has_return_event(evs: Seq<FlagEvent>) -> bool {
    exists|k: int| 0 <= k < evs.len() && evs[k] == FlagEvent::Return
}

proof fn lemma_return_event_concat(a: Seq<FlagEvent>, b: Seq<FlagEvent>)
    requires
        has_return_event(a) || has_return_event(b),
    ensures
        has_return_event(a + b),
{
    if has_return_event(a) {
        let k = choose|k: int| 0 <= k < a.len() && a[k] == FlagEvent::Return;
        assert((a + b)[k] == FlagEvent::Return);
    } else {
        let k = choose|k: int| 0 <= k < b.len() && b[k] == FlagEvent::Return;
        assert((a + b)[a.len() + k] == FlagEvent::Return);
    }
}

proof fn lemma_return_event(s: JsStatement)
    requires
        holds_return(s),
    ensures
        has_return_event(stmt_events(s)),
    decreases s, 1int,
{
    match s {
        JsStatement::Return => {
            assert(stmt_events(s)[0] == FlagEvent::Return);
        },
        JsStatement::Block(body) => {
            lemma_stmts_return_event(body@);
        },
        JsStatement::If(test, c, _) => {
            lemma_return_event(*c);
            lemma_return_event_concat(expr_events(test), stmt_events(*c));
        },
        _ => {},
    }
}

proof fn lemma_stmts_return_event(ss: Seq<JsStatement>)
    requires
        stmts_hold_return(ss),
    ensures
        has_return_event(stmts_events(ss)),
    decreases ss, 0int,
{
    let init = ss.subrange(0, ss.len() - 1);
    if stmts_hold_return(init) {
        lemma_stmts_return_event(init);
    } else {
        lemma_return_event(ss[ss.len() - 1]);
    }
    lemma_return_event_concat(stmts_events(init), stmt_events(ss[ss.len() - 1]));
}

/// The classes a case can get: never PushConstant, Pop, Swap, Duplicate,
/// Load, Store, Call or ConditionalJump; and Return whenever one of its
/// statements holds a `return` (at top level, in a block, or in an `if`
/// consequent).
pub proof fn lemma_case_class(case: JsSwitchCase)
    ensures
        ({
            let c = case_class(case);
            ||| c == VmInstructionType::Return
            ||| c == VmInstructionType::XorOp
            ||| c == VmInstructionType::AddOp
            ||| c == VmInstructionType::SubOp
            ||| c == VmInstructionType::Compare
            ||| c == VmInstructionType::MemoryWrite
            ||| c == VmInstructionType::Jump
            ||| c == VmInstructionType::MemoryRead
            ||| c == VmInstructionType::Unknown
        }),
        stmts_hold_return(case.consequent@) ==> case_class(case) == VmInstructionType::Return,
{
    if stmts_hold_return(case.consequent@) {
        lemma_stmts_return_event(case.consequent@);
        let evs = stmts_events(case.consequent@);
        let k = choose|k: int| 0 <= k < evs.len() && evs[k] == FlagEvent::Return;
        lemma_events_with_return(no_flags(), evs, k);
    }
}

proof fn lemma_stmts_reach(ss: Seq<JsStatement>, i: int, sw: SwitchStatement)
    requires
        0 <= i < ss.len(),
        switches_in_stmt(ss[i]).contains(sw),
    ensures
        switches_in_stmts(ss).contains(sw),
    decreases ss.len(),
{
    let init = ss.subrange(0, ss.len() - 1);
    let tail = switches_in_stmt(ss[ss.len() - 1]);
    if i == ss.len() - 1 {
        let k = choose|k: int| 0 <= k < tail.len() && tail[k] == sw;
        assert((switches_in_stmts(init) + tail)[switches_in_stmts(init).len() + k] == sw);
    } else {
        assert(init[i] == ss[i]);
        lemma_stmts_reach(init, i, sw);
        let head = switches_in_stmts(init);
        let k = choose|k: int| 0 <= k < head.len() && head[k] == sw;
        assert((head + tail)[k] == sw);
    }
}

/// A reached switch with a case means the program has an interpreter switch
/// with at least as many cases, and the search lists at least one count,
/// the last of them at least that switch's count.
pub proof fn lemma_reached_switch_found(program: Program, sw: SwitchStatement)
    requires
        switches_in_stmts(program.body@).contains(sw),
        sw.cases.len() > 0,
    ensures
        vm_switch(program) matches Some(v) && v.cases.len() >= sw.cases.len(),
        new_maxima(switches_in_stmts(program.body@), (None, 0)).len() > 0,
        new_maxima(switches_in_stmts(program.body@), (None, 0)).last() >= sw.cases.len(),
{
    let seq = switches_in_stmts(program.body@);
    lemma_pick_first_largest(seq);
    lemma_new_maxima(seq, (None, 0));
    let k = choose|k: int| 0 <= k < seq.len() && seq[k] == sw;
    assert(seq[k].cases.len() <= pick_largest(seq, (None, 0)).1);
}

/// A switch that is a loop's body, or a statement of a block that is a
/// loop's body, is reached by the search, for every kind of loop (`for`,
/// `while`, `do .. while`, `for .. in`, `for .. of`).
pub proof fn lemma_loop_bodies_searched(sw: SwitchStatement, block: Vec<JsStatement>, i: int)
    requires
        0 <= i < block@.len(),
        block@[i] == JsStatement::Switch(sw),
    ensures
        switches_nested(JsStatement::For(Box::new(JsStatement::Switch(sw)))).contains(sw),
        switches_nested(JsStatement::While(Box::new(JsStatement::Switch(sw)))).contains(sw),
        switches_nested(JsStatement::DoWhile(Box::new(JsStatement::Switch(sw)))).contains(sw),
        switches_nested(JsStatement::ForIn(Box::new(JsStatement::Switch(sw)))).contains(sw),
        switches_nested(JsStatement::ForOf(Box::new(JsStatement::Switch(sw)))).contains(sw),
        switches_nested(JsStatement::For(Box::new(JsStatement::Block(block)))).contains(sw),
        switches_nested(JsStatement::While(Box::new(JsStatement::Block(block)))).contains(sw),
        switches_nested(JsStatement::DoWhile(Box::new(JsStatement::Block(block)))).contains(sw),
        switches_nested(JsStatement::ForIn(Box::new(JsStatement::Block(block)))).contains(sw),
        switches_nested(JsStatement::ForOf(Box::new(JsStatement::Block(block)))).contains(sw),
{
    let direct = switches_nested(JsStatement::Switch(sw));
    assert(direct[0] == sw);
    let own = switches_in_stmt(JsStatement::Switch(sw));
    assert(own_switch(JsStatement::Switch(sw))[0] == sw);
    assert(own[0] == sw);
    lemma_stmts_reach(block@, i, sw);
    let b = JsStatement::Block(block);
    assert(switches_nested(b) == switches_in_stmts(block@));
    assert(switches_nested(JsStatement::For(Box::new(b))) == switches_nested(b));
    assert(switches_nested(JsStatement::While(Box::new(b))) == switches_nested(b));
    assert(switches_nested(JsStatement::DoWhile(Box::new(b))) == switches_nested(b));
    assert(switches_nested(JsStatement::ForIn(Box::new(b))) == switches_nested(b));
    assert(switches_nested(JsStatement::ForOf(Box::new(b))) == switches_nested(b));
}

/// An event that can record the operator of a case: a binary expression, or
/// an assignment other than a plain `=`-like one.
pub open spec fn is_operator_event(e: FlagEvent) -> bool {
    ||| e is Binary
    ||| (e matches FlagEvent::Assignment(op) && op != AssignmentOperator::Other)
}

proof fn lemma_events_keep(f: InstructionFlags, evs: Seq<FlagEvent>)
    ensures
        (forall|j: int| 0 <= j < evs.len() ==> evs[j] != FlagEvent::Return) ==> apply_events(
            f,
            evs,
        ).has_return == f.has_return,
        (forall|j: int| 0 <= j < evs.len() ==> !is_operator_event(#[trigger] evs[j])) ==> apply_events(
            f,
            evs,
        ).binary_op == f.binary_op,
    decreases evs.len(),
{
    if evs.len() > 0 {
        lemma_events_keep(f, evs.drop_last());
        if forall|j: int| 0 <= j < evs.len() ==> evs[j] != FlagEvent::Return {
            assert forall|j: int| 0 <= j < evs.drop_last().len() implies evs.drop_last()[j]
                != FlagEvent::Return by {
                assert(evs.drop_last()[j] == evs[j]);
            }
        }
        if forall|j: int| 0 <= j < evs.len() ==> !is_operator_event(#[trigger] evs[j]) {
            assert forall|j: int| 0 <= j < evs.drop_last().len() implies !is_operator_event(
                #[trigger] evs.drop_last()[j],
            ) by {
                assert(evs.drop_last()[j] == evs[j]);
            }
            assert(!is_operator_event(evs[evs.len() - 1]));
        }
    }
}

/// A case without `return` is classified by the first operator it records:
/// `+` or `+=` makes it an addition, `-` or `-=` a subtraction, `^` or `^=`
/// an exclusive or, and `===`, `!==`, `==`, `!=`, `<`, `<=` a comparison.
pub proof fn lemma_case_class_by_first_operator(case: JsSwitchCase, k: int)
    requires
        0 <= k < stmts_events(case.consequent@).len(),
        forall|j: int| 0 <= j < k ==> !is_operator_event(#[trigger] stmts_events(case.consequent@)[j]),
        forall|j: int|
            0 <= j < stmts_events(case.consequent@).len() ==> stmts_events(case.consequent@)[j]
                != FlagEvent::Return,
    ensures
        ({
            let e = stmts_events(case.consequent@)[k];
            &&& (e == FlagEvent::Assignment(AssignmentOperator::Addition) || e == FlagEvent::Binary(
                JsBinaryOperator::Addition,
            )) ==> case_class(case) == VmInstructionType::AddOp
            &&& (e == FlagEvent::Assignment(AssignmentOperator::Subtraction) || e
                == FlagEvent::Binary(JsBinaryOperator::Subtraction)) ==> case_class(case)
                == VmInstructionType::SubOp
            &&& (e == FlagEvent::Assignment(AssignmentOperator::BitwiseXOR) || e
                == FlagEvent::Binary(JsBinaryOperator::BitwiseXOR)) ==> case_class(case)
                == VmInstructionType::XorOp
            &&& (e == FlagEvent::Binary(JsBinaryOperator::StrictEquality) || e == FlagEvent::Binary(
                JsBinaryOperator::StrictInequality,
            ) || e == FlagEvent::Binary(JsBinaryOperator::Equality) || e == FlagEvent::Binary(
                JsBinaryOperator::Inequality,
            ) || e == FlagEvent::Binary(JsBinaryOperator::LessThan) || e == FlagEvent::Binary(
                JsBinaryOperator::LessEqualThan,
            )) ==> case_class(case) == VmInstructionType::Compare
        }),
{
    let evs = stmts_events(case.consequent@);
    let pre = evs.subrange(0, k);
    let mid = seq![evs[k]];
    let post = evs.subrange(k + 1, evs.len() as int);
    assert(evs =~= pre + mid + post);
    lemma_apply_events_concat(no_flags(), pre + mid, post);
    lemma_apply_events_concat(no_flags(), pre, mid);
    assert forall|j: int| 0 <= j < pre.len() implies !is_operator_event(#[trigger] pre[j]) by {
        assert(pre[j] == evs[j]);
    }
    assert forall|j: int| 0 <= j < pre.len() implies pre[j] != FlagEvent::Return by {
        assert(pre[j] == evs[j]);
    }
    assert forall|j: int| 0 <= j < post.len() implies post[j] != FlagEvent::Return by {
        assert(post[j] == evs[k + 1 + j]);
    }
    lemma_events_keep(no_flags(), pre);
    let f1 = apply_events(no_flags(), pre);
    lemma_single_event(f1, evs[k]);
    let f2 = apply_events(f1, mid);
    lemma_events_keep(f2, post);
    lemma_apply_events_monotone(f2, post);
}

/// The interpreter switch has the most cases of all switches the search
/// reaches, and every switch reached before it has fewer.
pub proof fn lemma_vm_switch_is_first_largest(program: Program)
    ensures
        ({
            let seq = switches_in_stmts(program.body@);
            match vm_switch(program) {
                Some(sw) => exists|i: int|
                    #![trigger seq[i]]
                    0 <= i < seq.len() && seq[i] == sw && (forall|j: int|
                        0 <= j < seq.len() ==> #[trigger] seq[j].cases.len() <= sw.cases.len())
                        && (forall|j: int| 0 <= j < i ==> #[trigger] seq[j].cases.len() < sw.cases.len()),
                None => forall|j: int| 0 <= j < seq.len() ==> #[trigger] seq[j].cases.len() == 0,
            }
        }),
{
    lemma_pick_first_largest(switches_in_stmts(program.body@));
}

proof fn lemma_pick_first_largest(seq: Seq<SwitchStatement>)
    ensures
        ({
            let r = pick_largest(seq, (None, 0));
            &&& r.0 is Some ==> r.1 == r.0->0.cases.len()
            &&& r.0 is None ==> r.1 == 0
            &&& forall|j: int| 0 <= j < seq.len() ==> #[trigger] seq[j].cases.len() <= r.1
            &&& r.0 matches Some(sw) ==> exists|i: int|
                #![trigger seq[i]]
                0 <= i < seq.len() && seq[i] == sw && (forall|j: int|
                    0 <= j < i ==> #[trigger] seq[j].cases.len() < sw.cases.len())
        }),
    decreases seq.len(),
{
    if seq.len() > 0 {
        let prefix = seq.drop_last();
        lemma_pick_first_largest(prefix);
        let r0 = pick_largest(prefix, (None, 0));
        let last = seq.last();
        assert forall|j: int| 0 <= j < prefix.len() implies #[trigger] seq[j] == prefix[j] by {}
        if last.cases.len() > r0.1 && last.cases.len() > 0 {
            assert(seq[seq.len() - 1] == last);
        } else if let Some(sw) = r0.0 {
            let i = choose|i: int|
                #![trigger prefix[i]]
                0 <= i < prefix.len() && prefix[i] == sw && (forall|j: int|
                    0 <= j < i ==> #[trigger] prefix[j].cases.len() < sw.cases.len());
            assert(seq[i] == sw);
        }
    }
}

} // verus!
