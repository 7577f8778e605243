//! Static resolution of variables: for each local variable that an
//! expression reads or assigns, how many scopes out its declaration lies,
//! and the errors that can be found before the program runs.
use crate::expr::{
    exprs_view, lemma_call_view, lemma_list_view, token_seq_view, Expr, ExprId, ExprKind,
    ExprKindV, ExprV, LambdaType,
};
use crate::stmt::{lemma_block_view, lemma_class_view, lemma_lambda_view, stmts_view, Stmt, StmtV};
use crate::token::{str_equals, Token, TokenType, TokenV};
use vstd::prelude::*;
use vstd::string::to_string_from_display_ensures_for_str;

verus! {

broadcast use to_string_from_display_ensures_for_str;

/// Whether the code being resolved is inside a function body.
#[derive(Clone, Copy, Debug, PartialEq, Eq, Structural)]
pub enum FunctionType {
    TopLevel,
    Function,
}

/// A problem found before running: the token where it was found and what
/// is wrong.
#[derive(Debug)]
pub struct ResolveError {
    pub token: Token,
    pub message: String,
}

/// The mathematical model of a [`ResolveError`].
pub struct ResolveErrorV {
    pub token: TokenV,
    pub message: Seq<char>,
}

impl View for ResolveError {
    type V = ResolveErrorV;

    open spec fn view(&self) -> ResolveErrorV {
        ResolveErrorV { token: self.token@, message: self.message@ }
    }
}

pub open spec fn resolve_errors_view(es: Seq<ResolveError>) -> Seq<ResolveErrorV> {
    es.map_values(|e: ResolveError| e@)
}

/// The model of a list of resolutions: expression identity and depth.
pub open spec fn locals_view(ls: Seq<(ExprId, usize)>) -> Seq<(nat, nat)> {
    ls.map_values(|l: (ExprId, usize)| (l.0 as nat, l.1 as nat))
}

/// A local variable: its name, whether its declaration is complete (its
/// initializer has been resolved), whether it has been read, the token that
/// declared it, and whether it has been given a value.
pub type LocalV = (Seq<char>, bool, bool, TokenV, bool);

/// A scope: the locals declared in it, in order of declaration.
pub type ScopeV = Seq<LocalV>;

/// Where resolution stands: the open scopes, innermost last; the errors so
/// far; the resolutions so far, in order; and the kind of code being resolved.
pub struct RState {
    pub scopes: Seq<ScopeV>,
    pub errors: Seq<ResolveErrorV>,
    pub locals: Seq<(nat, nat)>,
    pub function: FunctionType,
}

/// Where `name` stands in `scope`, looking from position `i` on.
pub open spec fn slot(scope: ScopeV, name: Seq<char>, i: nat) -> Option<nat>
    decreases scope.len() - i,
{
    if i >= scope.len() {
        None
    } else if scope[i as int].0 == name {
        Some(i)
    } else {
        slot(scope, name, i + 1)
    }
}

/// What [`slot`] finds is `name`, and what it passes over is not.
pub proof fn lemma_slot(scope: ScopeV, name: Seq<char>, i: nat)
    ensures
        match slot(scope, name, i) {
            Some(k) => i <= k < scope.len() && scope[k as int].0 == name,
            None => forall|k: int| i <= k < scope.len() ==> scope[k].0 != name,
        },
    decreases scope.len() - i,
{
    if i < scope.len() && scope[i as int].0 != name {
        lemma_slot(scope, name, i + 1);
    }
}

/// Whether `name` is complete in `scope`, if it is there.
pub open spec fn scope_get(scope: ScopeV, name: Seq<char>) -> Option<bool> {
    match slot(scope, name, 0) {
        Some(i) => Some(scope[i as int].1),
        None => None,
    }
}

/// `scope` with `local` in place of the local of the same name, or added.
pub open spec fn scope_put(scope: ScopeV, local: LocalV) -> ScopeV {
    match slot(scope, local.0, 0) {
        Some(i) => scope.update(i as int, local),
        None => scope.push(local),
    }
}

/// `scope` with `name` complete, and given a value or not; a name not yet
/// there is added, unread.
pub open spec fn scope_complete(scope: ScopeV, name: TokenV, assigned: bool) -> ScopeV {
    match slot(scope, name.lexeme, 0) {
        Some(i) => scope.update(
            i as int,
            (scope[i as int].0, true, scope[i as int].2, scope[i as int].3, assigned),
        ),
        None => scope.push((name.lexeme, true, false, name, assigned)),
    }
}

pub open spec fn with_error(st: RState, token: TokenV, message: Seq<char>) -> RState {
    RState { errors: st.errors.push(ResolveErrorV { token, message }), ..st }
}

/// `st` with its innermost scope replaced.
pub open spec fn with_last_scope(st: RState, scope: ScopeV) -> RState {
    RState { scopes: st.scopes.update(st.scopes.len() - 1, scope), ..st }
}

pub open spec fn r_begin(st: RState) -> RState {
    RState { scopes: st.scopes.push(Seq::empty()), ..st }
}

pub open spec fn unused_message() -> Seq<char> {
    "Local variable is never used."@
}

/// An error at each local of `scope` that was never read, in order.
pub open spec fn unused_errors(scope: ScopeV) -> Seq<ResolveErrorV>
    decreases scope.len(),
{
    if scope.len() == 0 {
        Seq::empty()
    } else {
        unused_errors(scope.drop_last()) + if scope.last().2 {
            Seq::empty()
        } else {
            seq![ResolveErrorV { token: scope.last().3, message: unused_message() }]
        }
    }
}

/// Closing the innermost scope reports each of its locals that was never
/// read.
pub open spec fn r_end(st: RState) -> RState {
    if st.scopes.len() == 0 {
        st
    } else {
        RState {
            scopes: st.scopes.drop_last(),
            errors: st.errors + unused_errors(st.scopes.last()),
            ..st
        }
    }
}

/// The functions that every program starts with.
pub open spec fn is_native(name: Seq<char>) -> bool {
    name == "clock"@ || name == "input"@ || name == "number"@ || name == "push"@ || name
        == "pop"@ || name == "len"@
}

pub open spec fn native_message() -> Seq<char> {
    "Can't redefine a native function."@
}

/// Declaring a name: at the top level, naming a native function is an
/// error; in a scope, declaring a name twice is an error, and the name is
/// entered incomplete (and, for a parameter, as read and given a value).
pub open spec fn r_declare(st: RState, name: TokenV, used: bool) -> RState {
    if st.scopes.len() == 0 {
        if is_native(name.lexeme) {
            with_error(st, name, native_message())
        } else {
            st
        }
    } else {
        let last = st.scopes.last();
        let st1 = if slot(last, name.lexeme, 0) is Some {
            with_error(st, name, "Already a variable with this name in this scope."@)
        } else {
            st
        };
        with_last_scope(st1, scope_put(last, (name.lexeme, false, used, name, used)))
    }
}

/// Marking a name complete in the innermost scope, if there is one, and
/// whether its declaration gave it a value.
pub open spec fn r_define(st: RState, name: TokenV, assigned: bool) -> RState {
    if st.scopes.len() == 0 {
        st
    } else {
        with_last_scope(st, scope_complete(st.scopes.last(), name, assigned))
    }
}

/// The innermost of the first `k` scopes that declares `name`.
pub open spec fn innermost(scopes: Seq<ScopeV>, name: Seq<char>, k: nat) -> Option<nat>
    decreases k,
{
    if k == 0 {
        None
    } else if slot(scopes[k - 1], name, 0) is Some {
        Some((k - 1) as nat)
    } else {
        innermost(scopes, name, (k - 1) as nat)
    }
}

/// What [`innermost`] finds lies among the first `k` scopes and declares
/// `name`.
pub proof fn lemma_innermost(scopes: Seq<ScopeV>, name: Seq<char>, k: nat)
    ensures
        match innermost(scopes, name, k) {
            Some(i) => i < k && slot(scopes[i as int], name, 0) is Some,
            None => true,
        },
    decreases k,
{
    if k > 0 && slot(scopes[k - 1], name, 0) is None {
        lemma_innermost(scopes, name, (k - 1) as nat);
    }
}

/// Whether `scope` declares a local named `name`.
pub open spec fn declares(scope: ScopeV, name: Seq<char>) -> bool {
    exists|j: int| 0 <= j < scope.len() && scope[j].0 == name
}

/// `d` counts the scopes between the innermost open scope and the innermost
/// one that declares `name`: that scope declares it, and none inside it does.
pub open spec fn depth_of(scopes: Seq<ScopeV>, name: Seq<char>, d: nat) -> bool {
    &&& d < scopes.len()
    &&& declares(scopes[scopes.len() - 1 - d], name)
    &&& forall|j: int|
        scopes.len() - 1 - d < j < scopes.len() ==> !declares(#[trigger] scopes[j], name)
}

/// Whether some open scope declares `name`.
pub open spec fn declared_locally(scopes: Seq<ScopeV>, name: Seq<char>) -> bool {
    exists|j: int| 0 <= j < scopes.len() && declares(#[trigger] scopes[j], name)
}

proof fn lemma_slot_declares(scope: ScopeV, name: Seq<char>)
    ensures
        slot(scope, name, 0) is Some <==> declares(scope, name),
{
    lemma_slot(scope, name, 0);
    match slot(scope, name, 0) {
        Some(k) => {},
        None => {
            if declares(scope, name) {
                let j = choose|j: int| 0 <= j < scope.len() && scope[j].0 == name;
                assert(scope[j].0 != name);
            }
        },
    }
}

/// [`innermost`] finds the innermost of the first `k` scopes that declares
/// `name`.
proof fn lemma_innermost_declares(scopes: Seq<ScopeV>, name: Seq<char>, k: nat)
    requires
        k <= scopes.len(),
    ensures
        match innermost(scopes, name, k) {
            Some(i) => i < k && declares(scopes[i as int], name) && forall|j: int|
                i < j < k ==> !declares(#[trigger] scopes[j], name),
            None => forall|j: int| 0 <= j < k ==> !declares(#[trigger] scopes[j], name),
        },
    decreases k,
{
    if k > 0 {
        lemma_slot_declares(scopes[k - 1], name);
        if slot(scopes[k - 1], name, 0) is None {
            lemma_innermost_declares(scopes, name, (k - 1) as nat);
        }
    }
}

/// A use of `name` records how many scopes out its declaration lies, and
/// records it alike whether the name is read or assigned: the distance from
/// the innermost open scope to the innermost scope that declares `name`. A
/// name no open scope declares (a global) records nothing.
pub proof fn lemma_local_depth(st: RState, name: TokenV, id: nat, read: bool)
    ensures
        r_local(st, name, id, read).locals == r_local(st, name, id, !read).locals,
        !declared_locally(st.scopes, name.lexeme) ==> r_local(st, name, id, read).locals
            == st.locals,
        declared_locally(st.scopes, name.lexeme) ==> ({
            let l = r_local(st, name, id, read).locals;
            &&& l.len() == st.locals.len() + 1
            &&& l.drop_last() == st.locals
            &&& l.last().0 == id
            &&& depth_of(st.scopes, name.lexeme, l.last().1)
        }),
{
    let n = st.scopes.len();
    lemma_innermost_declares(st.scopes, name.lexeme, n);
    match innermost(st.scopes, name.lexeme, n) {
        Some(i) => {
            let l = r_local(st, name, id, read).locals;
            assert(l =~= st.locals.push((id, (n - 1 - i) as nat)));
            assert(l.drop_last() =~= st.locals);
        },
        None => {
            if declared_locally(st.scopes, name.lexeme) {
                let j = choose|j: int| 0 <= j < n && declares(#[trigger] st.scopes[j], name.lexeme);
                assert(!declares(st.scopes[j], name.lexeme));
            }
        },
    }
}

/// Assigning a local marks none read, and reading one gives none a value;
/// reading marks read a local of that name in the innermost scope that
/// declares it, and assigning gives such a local a value. No scope is added
/// or removed, and no local declared or dropped.
pub proof fn lemma_local_flags(st: RState, name: TokenV, id: nat, read: bool)
    ensures
        ({
            let r = r_local(st, name, id, read);
            &&& r.scopes.len() == st.scopes.len()
            &&& forall|x: int|
                0 <= x < st.scopes.len() ==> (#[trigger] r.scopes[x]).len() == st.scopes[x].len()
            &&& forall|x: int, y: int|
                0 <= x < st.scopes.len() && 0 <= y < st.scopes[x].len() ==> {
                    &&& (#[trigger] r.scopes[x][y]).0 == st.scopes[x][y].0
                    &&& r.scopes[x][y].1 == st.scopes[x][y].1
                    &&& (!read ==> r.scopes[x][y].2 == st.scopes[x][y].2)
                    &&& (read ==> r.scopes[x][y].4 == st.scopes[x][y].4)
                }
            &&& declared_locally(st.scopes, name.lexeme) ==> exists|y: int|
                0 <= y < r.scopes[st.scopes.len() - 1 - r.locals.last().1].len() && {
                    let l = #[trigger] r.scopes[st.scopes.len() - 1 - r.locals.last().1][y];
                    &&& l.0 == name.lexeme
                    &&& (read ==> l.2)
                    &&& (!read ==> l.4)
                }
        }),
{
    let n = st.scopes.len();
    lemma_local_depth(st, name, id, read);
    lemma_innermost_declares(st.scopes, name.lexeme, n);
    let r = r_local(st, name, id, read);
    match innermost(st.scopes, name.lexeme, n) {
        Some(i) => {
            lemma_slot(st.scopes[i as int], name.lexeme, 0);
            lemma_slot_declares(st.scopes[i as int], name.lexeme);
            let k = slot(st.scopes[i as int], name.lexeme, 0)->0;
            assert(r.locals.last().1 == n - 1 - i);
            assert(r.scopes[i as int][k as int].0 == name.lexeme);
        },
        None => {},
    }
}

/// An assignment records, after whatever its value records, the same
/// depth a read of its target would: the distance to the innermost scope
/// that declares the target, or nothing for a global.
pub proof fn lemma_assignment_depth(e: ExprV, st: RState)
    requires
        e.kind is Assign,
    ensures
        ({
            let name = e.kind->Assign_0;
            let mid = r_expr(*e.kind->Assign_1, st);
            let l = r_expr(e, st).locals;
            &&& !declared_locally(mid.scopes, name.lexeme) ==> l == mid.locals
            &&& declared_locally(mid.scopes, name.lexeme) ==> {
                &&& l.drop_last() == mid.locals
                &&& l.len() == mid.locals.len() + 1
                &&& l.last().0 == e.id
                &&& depth_of(mid.scopes, name.lexeme, l.last().1)
            }
        }),
{
    match e.kind {
        ExprKindV::Assign(name, v) => lemma_local_depth(r_expr(*v, st), name, e.id, false),
        _ => {},
    }
}

/// A variable read records the distance to the innermost scope that
/// declares it, or nothing for a global.
pub proof fn lemma_variable_depth(e: ExprV, st: RState)
    requires
        e.kind is Variable,
    ensures
        ({
            let name = e.kind->Variable_0;
            let l = r_expr(e, st).locals;
            &&& !declared_locally(st.scopes, name.lexeme) ==> l == st.locals
            &&& declared_locally(st.scopes, name.lexeme) ==> {
                &&& l.drop_last() == st.locals
                &&& l.len() == st.locals.len() + 1
                &&& l.last().0 == e.id
                &&& depth_of(st.scopes, name.lexeme, l.last().1)
            }
        }),
{
    match e.kind {
        ExprKindV::Variable(name) => {
            let st1 = if st.scopes.len() > 0 && scope_get(st.scopes.last(), name.lexeme) == Some(
                false,
            ) {
                with_error(st, name, "Can't read local variable in its own initializer."@)
            } else {
                st
            };
            assert(st1.scopes == st.scopes && st1.locals == st.locals);
            lemma_local_depth(st1, name, e.id, true);
        },
        _ => {},
    }
}

/// `scope` with its local at `k` marked read.
pub open spec fn mark_read(scope: ScopeV, k: nat) -> ScopeV {
    scope.update(
        k as int,
        (scope[k as int].0, scope[k as int].1, true, scope[k as int].3, scope[k as int].4),
    )
}

/// `scope` with its local at `k` given a value.
pub open spec fn mark_assigned(scope: ScopeV, k: nat) -> ScopeV {
    scope.update(
        k as int,
        (scope[k as int].0, scope[k as int].1, scope[k as int].2, scope[k as int].3, true),
    )
}

pub open spec fn unassigned_message() -> Seq<char> {
    "Can't use local variable before it is assigned."@
}

/// Records, for the expression `id` that names `name`, how many scopes out
/// the innermost declaration of `name` lies; a global name is not recorded.
/// Reading a local marks it read, and reading one whose declaration is
/// complete but that has no value yet is an error; assigning one gives it a
/// value.
pub open spec fn r_local(st: RState, name: TokenV, id: nat, read: bool) -> RState {
    match innermost(st.scopes, name.lexeme, st.scopes.len()) {
        Some(i) => {
            let st1 = RState {
                locals: st.locals.push((id, (st.scopes.len() - 1 - i) as nat)),
                ..st
            };
            match slot(st.scopes[i as int], name.lexeme, 0) {
                Some(k) => {
                    let local = st.scopes[i as int][k as int];
                    if read {
                        let st2 = RState {
                            scopes: st.scopes.update(i as int, mark_read(st.scopes[i as int], k)),
                            ..st1
                        };
                        if local.1 && !local.4 {
                            with_error(st2, name, unassigned_message())
                        } else {
                            st2
                        }
                    } else {
                        RState {
                            scopes: st.scopes.update(i as int, mark_assigned(st.scopes[i as int], k)),
                            ..st1
                        }
                    }
                },
                None => st1,
            }
        },
        None => st,
    }
}

/// Declaring and defining each parameter in turn.
pub open spec fn r_params(params: Seq<TokenV>, st: RState) -> RState
    decreases params.len(),
{
    if params.len() == 0 {
        st
    } else {
        let p = params.last();
        r_define(r_declare(r_params(params.drop_last(), st), p, true), p, true)
    }
}

/// Resolving an expression: its parts left to right; a variable read inside
/// its own initializer is an error; a variable read or assigned is resolved
/// to its scope; a function body is resolved in a scope of its own that
/// holds the parameters.
pub open spec fn r_expr(e: ExprV, st: RState) -> RState
    decreases e, 2nat,
{
    match e.kind {
        ExprKindV::Binary(l, _, r) => r_expr(*r, r_expr(*l, st)),
        ExprKindV::Logical(l, _, r) => r_expr(*r, r_expr(*l, st)),
        ExprKindV::Comma(l, r) => r_expr(*r, r_expr(*l, st)),
        ExprKindV::Grouping(x) => r_expr(*x, st),
        ExprKindV::Literal(_) => st,
        ExprKindV::Unary(_, r) => r_expr(*r, st),
        ExprKindV::Ternary(c, l, r) => r_expr(*r, r_expr(*l, r_expr(*c, st))),
        ExprKindV::Variable(name) => {
            let st1 = if st.scopes.len() > 0 && scope_get(st.scopes.last(), name.lexeme) == Some(
                false,
            ) {
                with_error(st, name, "Can't read local variable in its own initializer."@)
            } else {
                st
            };
            r_local(st1, name, e.id, true)
        },
        ExprKindV::Assign(name, v) => r_local(r_expr(*v, st), name, e.id, false),
        ExprKindV::Call(c, _, args) => r_exprs(args, r_expr(*c, st)),
        ExprKindV::Lambda(_, params, body, _) => {
            let st1 = r_params(params, r_begin(RState { function: FunctionType::Function, ..st }));
            let st2 = r_end(r_stmts(body, st1));
            RState { function: st.function, ..st2 }
        },
        ExprKindV::Get(o, _) => r_expr(*o, st),
        ExprKindV::SetProperty(o, _, v) => r_expr(*o, r_expr(*v, st)),
        ExprKindV::This(keyword) => r_local(st, keyword, e.id, true),
        ExprKindV::Super(keyword, _) => r_local(st, keyword, e.id, true),
        ExprKindV::List(items) => r_exprs(items, st),
        ExprKindV::Index(l, i, _) => r_expr(*i, r_expr(*l, st)),
        ExprKindV::IndexSet(l, i, v, _) => r_expr(*v, r_expr(*i, r_expr(*l, st))),
    }
}

/// Resolving expressions in turn.
pub open spec fn r_exprs(es: Seq<ExprV>, st: RState) -> RState
    decreases es, 0nat,
{
    if es.len() == 0 {
        st
    } else {
        r_expr(es[es.len() - 1], r_exprs(es.subrange(0, es.len() - 1), st))
    }
}

/// The local that stands for `this` or `super` in a scope a class opens:
/// it is complete, given a value and counted as read.
pub open spec fn class_keyword(kind: TokenType, lexeme: Seq<char>, line: nat) -> TokenV {
    TokenV { token_type: kind, lexeme, literal: None, line }
}

/// `st` with a new scope that holds the local `keyword`.
pub open spec fn r_keyword_scope(st: RState, keyword: TokenV) -> RState {
    r_define(r_declare(r_begin(st), keyword, true), keyword, true)
}

/// Resolving the members of a class: the function of each, in turn; a
/// method or getter is resolved in a scope of its own that holds `this`, a
/// static method without one.
pub open spec fn r_members(ss: Seq<StmtV>, this: TokenV, st: RState) -> RState
    decreases ss, 0nat,
{
    if ss.len() == 0 {
        st
    } else {
        let st1 = r_members(ss.subrange(0, ss.len() - 1), this, st);
        match ss[ss.len() - 1] {
            StmtV::Var(_, Some(f)) => match f.kind {
                ExprKindV::Lambda(_, _, _, LambdaType::ClassStatic) => r_expr(f, st1),
                _ => r_end(r_expr(f, r_keyword_scope(st1, this))),
            },
            _ => st1,
        }
    }
}

/// Resolving a statement: a declaration is made, then its initializer is
/// resolved, then it is complete; a block has a scope of its own; `return`
/// outside a function is an error; a class declares its name, reads its
/// superclass, and its methods are resolved, inside a scope that holds
/// `super` when it has a superclass.
pub open spec fn r_stmt(s: StmtV, st: RState) -> RState
    decreases s, 2nat,
{
    match s {
        StmtV::Expression(e) => r_expr(e, st),
        StmtV::Print(e) => r_expr(e, st),
        StmtV::Var(name, init) => {
            let st1 = r_declare(st, name, false);
            let st2 = match init {
                Some(e) => r_expr(e, st1),
                None => st1,
            };
            r_define(st2, name, init is Some)
        },
        StmtV::Block(b) => r_end(r_stmts(b, r_begin(st))),
        StmtV::If(c, t, e) => {
            let st1 = r_stmt(*t, r_expr(c, st));
            match e {
                Some(x) => r_stmt(*x, st1),
                None => st1,
            }
        },
        StmtV::While(c, b) => r_stmt(*b, r_expr(c, st)),
        StmtV::Return(keyword, v) => {
            let st1 = if st.function == FunctionType::TopLevel {
                with_error(st, keyword, "Can't return from top-level code"@)
            } else {
                st
            };
            match v {
                Some(e) => r_expr(e, st1),
                None => st1,
            }
        },
        StmtV::Break(_) => st,
        StmtV::Class(name, superclass, methods) => {
            let st1 = r_define(r_declare(st, name, false), name, true);
            let this = class_keyword(TokenType::This, "this"@, name.line);
            match superclass {
                Some(e) => {
                    let sup = class_keyword(TokenType::Super, "super"@, name.line);
                    let st2 = r_keyword_scope(r_expr(e, st1), sup);
                    r_end(r_members(methods, this, st2))
                },
                None => r_members(methods, this, st1),
            }
        },
    }
}

/// Resolving statements in turn.
pub open spec fn r_stmts(ss: Seq<StmtV>, st: RState) -> RState
    decreases ss, 0nat,
{
    if ss.len() == 0 {
        st
    } else {
        r_stmt(ss[ss.len() - 1], r_stmts(ss.subrange(0, ss.len() - 1), st))
    }
}

/// The resolutions and errors of a whole program.
pub open spec fn resolution(stmts: Seq<StmtV>) -> RState {
    r_stmts(
        stmts,
        RState {
            scopes: Seq::empty(),
            errors: Seq::empty(),
            locals: Seq::empty(),
            function: FunctionType::TopLevel,
        },
    )
}

/// `later` is `earlier` after some resolution: as many scopes, the same kind
/// of code, and the errors and resolutions of `earlier` followed by more.
pub open spec fn extends(earlier: RState, later: RState) -> bool {
    &&& later.scopes.len() == earlier.scopes.len()
    &&& later.function == earlier.function
    &&& later.errors.len() >= earlier.errors.len()
    &&& later.errors.subrange(0, earlier.errors.len() as int) == earlier.errors
    &&& later.locals.len() >= earlier.locals.len()
    &&& later.locals.subrange(0, earlier.locals.len() as int) == earlier.locals
}

proof fn lemma_extends_trans(a: RState, b: RState, c: RState)
    requires
        extends(a, b),
        extends(b, c),
    ensures
        extends(a, c),
{
    assert(c.errors.subrange(0, a.errors.len() as int) =~= b.errors.subrange(
        0,
        a.errors.len() as int,
    ));
    assert(c.locals.subrange(0, a.locals.len() as int) =~= b.locals.subrange(
        0,
        a.locals.len() as int,
    ));
}

proof fn lemma_extends_refl(a: RState)
    ensures
        extends(a, a),
{
    assert(a.errors.subrange(0, a.errors.len() as int) =~= a.errors);
    assert(a.locals.subrange(0, a.locals.len() as int) =~= a.locals);
}

/// Declaring, defining, resolving a name and reporting an error keep the
/// scopes and extend the errors and resolutions.
proof fn lemma_steps_extend(st: RState, name: TokenV, id: nat, message: Seq<char>)
    ensures
        extends(st, r_declare(st, name, false)),
        extends(st, r_declare(st, name, true)),
        extends(st, r_define(st, name, false)),
        extends(st, r_define(st, name, true)),
        extends(st, r_local(st, name, id, false)),
        extends(st, r_local(st, name, id, true)),
        extends(st, with_error(st, name, message)),
{
    lemma_extends_refl(st);
    let e = with_error(st, name, message);
    assert(e.errors.subrange(0, st.errors.len() as int) =~= st.errors);
    let en = with_error(st, name, native_message());
    assert(en.errors.subrange(0, st.errors.len() as int) =~= st.errors);
    if st.scopes.len() > 0 {
        let ed = with_error(st, name, "Already a variable with this name in this scope."@);
        assert(ed.errors.subrange(0, st.errors.len() as int) =~= st.errors);
    }
    lemma_innermost(st.scopes, name.lexeme, st.scopes.len());
    match innermost(st.scopes, name.lexeme, st.scopes.len()) {
        Some(i) => {
            let l = r_local(st, name, id, false);
            assert(l.locals.subrange(0, st.locals.len() as int) =~= st.locals);
            let l2 = r_local(st, name, id, true);
            assert(l2.locals.subrange(0, st.locals.len() as int) =~= st.locals);
            assert(l2.errors.subrange(0, st.errors.len() as int) =~= st.errors);
            assert(l2.scopes.len() == st.scopes.len());
            assert(l.scopes.len() == st.scopes.len());
        },
        None => {},
    }
}

proof fn lemma_params_extend(params: Seq<TokenV>, st: RState)
    ensures
        extends(st, r_params(params, st)),
    decreases params.len(),
{
    if params.len() == 0 {
        lemma_extends_refl(st);
    } else {
        let p = params.last();
        let a = r_params(params.drop_last(), st);
        lemma_params_extend(params.drop_last(), st);
        lemma_steps_extend(a, p, 0, Seq::empty());
        let b = r_declare(a, p, true);
        lemma_steps_extend(b, p, 0, Seq::empty());
        lemma_extends_trans(st, a, b);
        lemma_extends_trans(st, b, r_define(b, p, true));
    }
}

/// Opening a scope, resolving in it and closing it keeps the scopes and
/// extends the errors and resolutions.
proof fn lemma_scoped_extend(st: RState, q: RState)
    requires
        extends(r_begin(st), q),
    ensures
        extends(st, r_end(q)),
{
    let b = r_begin(st);
    let e = r_end(q);
    assert(b.errors =~= st.errors);
    assert(b.locals =~= st.locals);
    assert(e.errors.subrange(0, st.errors.len() as int) =~= q.errors.subrange(
        0,
        st.errors.len() as int,
    ));
}

/// Resolving an expression leaves as many scopes open as before and the
/// same kind of code, and only adds errors and resolutions: every scope a
/// function body opens is closed again, and the enclosing kind restored.
#[verifier::rlimit(60)]
pub proof fn lemma_expr_balanced(e: ExprV, st: RState)
    ensures
        extends(st, r_expr(e, st)),
    decreases e, 2nat,
{
    lemma_extends_refl(st);
    match e.kind {
        ExprKindV::Binary(l, _, r) => {
            lemma_expr_balanced(*l, st);
            lemma_expr_balanced(*r, r_expr(*l, st));
            lemma_extends_trans(st, r_expr(*l, st), r_expr(*r, r_expr(*l, st)));
        },
        ExprKindV::Logical(l, _, r) => {
            lemma_expr_balanced(*l, st);
            lemma_expr_balanced(*r, r_expr(*l, st));
            lemma_extends_trans(st, r_expr(*l, st), r_expr(*r, r_expr(*l, st)));
        },
        ExprKindV::Comma(l, r) => {
            lemma_expr_balanced(*l, st);
            lemma_expr_balanced(*r, r_expr(*l, st));
            lemma_extends_trans(st, r_expr(*l, st), r_expr(*r, r_expr(*l, st)));
        },
        ExprKindV::Index(l, i, _) => {
            lemma_expr_balanced(*l, st);
            lemma_expr_balanced(*i, r_expr(*l, st));
            lemma_extends_trans(st, r_expr(*l, st), r_expr(*i, r_expr(*l, st)));
        },
        ExprKindV::SetProperty(o, _, v) => {
            lemma_expr_balanced(*v, st);
            lemma_expr_balanced(*o, r_expr(*v, st));
            lemma_extends_trans(st, r_expr(*v, st), r_expr(*o, r_expr(*v, st)));
        },
        ExprKindV::Grouping(x) => lemma_expr_balanced(*x, st),
        ExprKindV::Unary(_, r) => lemma_expr_balanced(*r, st),
        ExprKindV::Get(o, _) => lemma_expr_balanced(*o, st),
        ExprKindV::List(items) => lemma_exprs_balanced(items, st),
        ExprKindV::Ternary(c, l, r) => {
            let a = r_expr(*c, st);
            let b = r_expr(*l, a);
            lemma_expr_balanced(*c, st);
            lemma_expr_balanced(*l, a);
            lemma_expr_balanced(*r, b);
            lemma_extends_trans(st, a, b);
            lemma_extends_trans(st, b, r_expr(*r, b));
        },
        ExprKindV::IndexSet(l, i, v, _) => {
            let a = r_expr(*l, st);
            let b = r_expr(*i, a);
            lemma_expr_balanced(*l, st);
            lemma_expr_balanced(*i, a);
            lemma_expr_balanced(*v, b);
            lemma_extends_trans(st, a, b);
            lemma_extends_trans(st, b, r_expr(*v, b));
        },
        ExprKindV::Variable(name) => {
            let st1 = if st.scopes.len() > 0 && scope_get(st.scopes.last(), name.lexeme) == Some(
                false,
            ) {
                with_error(st, name, "Can't read local variable in its own initializer."@)
            } else {
                st
            };
            lemma_steps_extend(st, name, e.id, "Can't read local variable in its own initializer."@);
            lemma_steps_extend(st1, name, e.id, Seq::empty());
            lemma_extends_trans(st, st1, r_local(st1, name, e.id, true));
        },
        ExprKindV::Assign(name, v) => {
            lemma_expr_balanced(*v, st);
            lemma_steps_extend(r_expr(*v, st), name, e.id, Seq::empty());
            lemma_extends_trans(st, r_expr(*v, st), r_local(r_expr(*v, st), name, e.id, false));
        },
        ExprKindV::Call(c, _, args) => {
            lemma_expr_balanced(*c, st);
            lemma_exprs_balanced(args, r_expr(*c, st));
            lemma_extends_trans(st, r_expr(*c, st), r_exprs(args, r_expr(*c, st)));
        },
        ExprKindV::Lambda(_, params, body, _) => {
            let st0 = RState { function: FunctionType::Function, ..st };
            let b = r_begin(st0);
            let p = r_params(params, b);
            let q = r_stmts(body, p);
            lemma_params_extend(params, b);
            lemma_stmts_balanced(body, p);
            lemma_extends_trans(b, p, q);
            lemma_scoped_extend(st0, q);
        },
        ExprKindV::This(keyword) => lemma_steps_extend(st, keyword, e.id, Seq::empty()),
        ExprKindV::Super(keyword, _) => lemma_steps_extend(st, keyword, e.id, Seq::empty()),
        _ => {},
    }
}

/// [`lemma_expr_balanced`] for expressions resolved in turn.
pub proof fn lemma_exprs_balanced(es: Seq<ExprV>, st: RState)
    ensures
        extends(st, r_exprs(es, st)),
    decreases es, 0nat,
{
    if es.len() == 0 {
        lemma_extends_refl(st);
    } else {
        let init = es.subrange(0, es.len() - 1);
        lemma_exprs_balanced(init, st);
        lemma_expr_balanced(es[es.len() - 1], r_exprs(init, st));
        lemma_extends_trans(
            st,
            r_exprs(init, st),
            r_expr(es[es.len() - 1], r_exprs(init, st)),
        );
    }
}

/// [`lemma_expr_balanced`] for the members of a class.
pub proof fn lemma_members_balanced(ss: Seq<StmtV>, this: TokenV, st: RState)
    ensures
        extends(st, r_members(ss, this, st)),
    decreases ss, 0nat,
{
    if ss.len() == 0 {
        lemma_extends_refl(st);
    } else {
        let init = ss.subrange(0, ss.len() - 1);
        lemma_members_balanced(init, this, st);
        let st1 = r_members(init, this, st);
        match ss[ss.len() - 1] {
            StmtV::Var(_, Some(f)) => match f.kind {
                ExprKindV::Lambda(_, _, _, LambdaType::ClassStatic) => {
                    lemma_expr_balanced(f, st1);
                    lemma_extends_trans(st, st1, r_expr(f, st1));
                },
                _ => {
                    let b = r_keyword_scope(st1, this);
                    lemma_keyword_scope(st1, this);
                    lemma_expr_balanced(f, b);
                    lemma_extends_trans(r_begin(st1), b, r_expr(f, b));
                    lemma_scoped_extend(st1, r_expr(f, b));
                    lemma_extends_trans(st, st1, r_end(r_expr(f, b)));
                },
            },
            _ => {},
        }
    }
}

/// Opening a scope that holds `this` or `super` extends the scope just
/// opened.
proof fn lemma_keyword_scope(st: RState, keyword: TokenV)
    ensures
        extends(r_begin(st), r_keyword_scope(st, keyword)),
{
    let b = r_begin(st);
    lemma_steps_extend(b, keyword, 0, Seq::empty());
    let d = r_declare(b, keyword, true);
    lemma_steps_extend(d, keyword, 0, Seq::empty());
    lemma_extends_trans(b, d, r_define(d, keyword, true));
}

/// Resolving a statement leaves as many scopes open as before and the same
/// kind of code, and only adds errors and resolutions: every block closes
/// the scope it opens.
pub proof fn lemma_stmt_balanced(s: StmtV, st: RState)
    ensures
        extends(st, r_stmt(s, st)),
    decreases s, 2nat,
{
    lemma_extends_refl(st);
    match s {
        StmtV::Expression(e) => lemma_expr_balanced(e, st),
        StmtV::Print(e) => lemma_expr_balanced(e, st),
        StmtV::Var(name, init) => {
            let st1 = r_declare(st, name, false);
            lemma_steps_extend(st, name, 0, Seq::empty());
            let st2 = match init {
                Some(e) => r_expr(e, st1),
                None => st1,
            };
            match init {
                Some(e) => lemma_expr_balanced(e, st1),
                None => lemma_extends_refl(st1),
            }
            lemma_extends_trans(st, st1, st2);
            lemma_steps_extend(st2, name, 0, Seq::empty());
            lemma_extends_trans(st, st2, r_define(st2, name, init is Some));
        },
        StmtV::Block(b) => {
            let p = r_begin(st);
            lemma_stmts_balanced(b, p);
            lemma_scoped_extend(st, r_stmts(b, p));
        },
        StmtV::If(c, t, e) => {
            let a = r_expr(c, st);
            let b = r_stmt(*t, a);
            lemma_expr_balanced(c, st);
            lemma_stmt_balanced(*t, a);
            lemma_extends_trans(st, a, b);
            match e {
                Some(x) => {
                    lemma_stmt_balanced(*x, b);
                    lemma_extends_trans(st, b, r_stmt(*x, b));
                },
                None => {},
            }
        },
        StmtV::While(c, body) => {
            let a = r_expr(c, st);
            lemma_expr_balanced(c, st);
            lemma_stmt_balanced(*body, a);
            lemma_extends_trans(st, a, r_stmt(*body, a));
        },
        StmtV::Return(keyword, v) => {
            let st1 = if st.function == FunctionType::TopLevel {
                with_error(st, keyword, "Can't return from top-level code"@)
            } else {
                st
            };
            lemma_steps_extend(st, keyword, 0, "Can't return from top-level code"@);
            match v {
                Some(e) => {
                    lemma_expr_balanced(e, st1);
                    lemma_extends_trans(st, st1, r_expr(e, st1));
                },
                None => {},
            }
        },
        StmtV::Class(_, _, _) => lemma_class_balanced(s, st),
        _ => {},
    }
}

/// [`lemma_stmt_balanced`] for a class declaration.
pub proof fn lemma_class_balanced(s: StmtV, st: RState)
    requires
        s is Class,
    ensures
        extends(st, r_stmt(s, st)),
    decreases s, 1nat,
{
    match s {
        StmtV::Class(name, superclass, methods) => {
            let a = r_declare(st, name, false);
            lemma_steps_extend(st, name, 0, Seq::empty());
            let b = r_define(a, name, true);
            lemma_steps_extend(a, name, 0, Seq::empty());
            lemma_extends_trans(st, a, b);
            let this = class_keyword(TokenType::This, "this"@, name.line);
            match superclass {
                Some(e) => {
                    let sup = class_keyword(TokenType::Super, "super"@, name.line);
                    let c = r_expr(e, b);
                    lemma_expr_balanced(e, b);
                    lemma_extends_trans(st, b, c);
                    let d = r_keyword_scope(c, sup);
                    lemma_keyword_scope(c, sup);
                    lemma_members_balanced(methods, this, d);
                    lemma_extends_trans(r_begin(c), d, r_members(methods, this, d));
                    lemma_scoped_extend(c, r_members(methods, this, d));
                    lemma_extends_trans(st, c, r_end(r_members(methods, this, d)));
                },
                None => {
                    lemma_members_balanced(methods, this, b);
                    lemma_extends_trans(st, b, r_members(methods, this, b));
                },
            }
        },
        _ => {},
    }
}

/// [`lemma_stmt_balanced`] for statements resolved in turn.
pub proof fn lemma_stmts_balanced(ss: Seq<StmtV>, st: RState)
    ensures
        extends(st, r_stmts(ss, st)),
    decreases ss, 0nat,
{
    if ss.len() == 0 {
        lemma_extends_refl(st);
    } else {
        let init = ss.subrange(0, ss.len() - 1);
        lemma_stmts_balanced(init, st);
        lemma_stmt_balanced(ss[ss.len() - 1], r_stmts(init, st));
        lemma_extends_trans(
            st,
            r_stmts(init, st),
            r_stmt(ss[ss.len() - 1], r_stmts(init, st)),
        );
    }
}

/// A local variable as the resolver keeps it: name, complete, read, the
/// declaring token, and given a value.
pub type Local = (String, bool, bool, Token, bool);

pub open spec fn local_view(l: Local) -> LocalV {
    (l.0@, l.1, l.2, l.3@, l.4)
}

pub open spec fn scope_view(scope: Seq<Local>) -> ScopeV {
    scope.map_values(|l: Local| local_view(l))
}

/// Resolves the variables of a program.
pub struct Resolver {
    scopes: Vec<Vec<Local>>,
    errors: Vec<ResolveError>,
    current_function: FunctionType,
    locals: Vec<(ExprId, usize)>,
}

/// Where `name` stands in `scope`.
fn find_slot(scope: &Vec<Local>, name: &str) -> (r: Option<usize>)
    ensures
        match r {
            Some(i) => slot(scope_view(scope@), name@, 0) == Some(i as nat),
            None => slot(scope_view(scope@), name@, 0) is None,
        },
{
    let ghost sv = scope_view(scope@);
    let mut i: usize = 0;
    while i < scope.len()
        invariant
            0 <= i <= scope@.len(),
            sv == scope_view(scope@),
            slot(sv, name@, 0) == slot(sv, name@, i as nat),
        decreases scope@.len() - i,
    {
        if str_equals(scope[i].0.as_str(), name) {
            return Some(i);
        }
        i += 1;
    }
    None
}

/// Whether `name` is one of the functions every program starts with.
fn native_name(name: &str) -> (r: bool)
    ensures
        r == is_native(name@),
{
    str_equals(name, "clock") || str_equals(name, "input") || str_equals(name, "number")
        || str_equals(name, "push") || str_equals(name, "pop") || str_equals(name, "len")
}

impl Resolver {
    pub closed spec fn model(&self) -> RState {
        RState {
            scopes: self.scopes@.map_values(|sc: Vec<Local>| scope_view(sc@)),
            errors: resolve_errors_view(self.errors@),
            locals: locals_view(self.locals@),
            function: self.current_function,
        }
    }

    /// A resolver at the top level, with no scope open.
    pub fn new() -> (r: Self)
        ensures
            r.model() == (RState {
                scopes: Seq::empty(),
                errors: Seq::empty(),
                locals: Seq::empty(),
                function: FunctionType::TopLevel,
            }),
    {
        let r = Self {
            scopes: Vec::new(),
            errors: Vec::new(),
            current_function: FunctionType::TopLevel,
            locals: Vec::new(),
        };
        assert(r.model().scopes =~= Seq::empty());
        assert(r.model().errors =~= Seq::empty());
        assert(r.model().locals =~= Seq::empty());
        r
    }

    fn begin_scope(&mut self)
        ensures
            final(self).model() == r_begin(old(self).model()),
    {
        let ghost before = self.model().scopes;
        let scope: Vec<Local> = Vec::new();
        assert(scope_view(scope@) =~= Seq::<LocalV>::empty());
        self.scopes.push(scope);
        assert(self.model().scopes =~= before.push(Seq::empty()));
    }

    fn end_scope(&mut self)
        ensures
            final(self).model() == r_end(old(self).model()),
    {
        let ghost before = self.model();
        match self.scopes.pop() {
            None => {},
            Some(scope) => {
                assert(scope_view(scope@) == before.scopes.last());
                let ghost sv = scope_view(scope@);
                let mut i: usize = 0;
                assert(unused_errors(sv.take(0)) =~= Seq::<ResolveErrorV>::empty());
                assert(before.errors + Seq::<ResolveErrorV>::empty() =~= before.errors);
                while i < scope.len()
                    invariant
                        0 <= i <= scope@.len(),
                        sv == scope_view(scope@),
                        self.scopes@.map_values(|sc: Vec<Local>| scope_view(sc@))
                            =~= before.scopes.drop_last(),
                        self.current_function == before.function,
                        locals_view(self.locals@) == before.locals,
                        resolve_errors_view(self.errors@) == before.errors + unused_errors(
                            sv.take(i as int),
                        ),
                    decreases scope@.len() - i,
                {
                    let ghost prev = resolve_errors_view(self.errors@);
                    assert(sv.take(i + 1).drop_last() =~= sv.take(i as int));
                    assert(sv.take(i + 1).last() == sv[i as int]);
                    assert(sv[i as int] == local_view(scope@[i as int]));
                    if !scope[i].2 {
                        let ghost prev_errors = self.errors@;
                        self.errors.push(
                            ResolveError {
                                token: scope[i].3.clone(),
                                message: "Local variable is never used.".to_string(),
                            },
                        );
                        assert(resolve_errors_view(self.errors@) =~= resolve_errors_view(
                            prev_errors,
                        ).push(ResolveErrorV { token: sv[i as int].3, message: unused_message() }));
                        assert(resolve_errors_view(self.errors@) =~= before.errors + unused_errors(
                            sv.take(i + 1),
                        ));
                    } else {
                        assert(unused_errors(sv.take(i + 1)) =~= unused_errors(sv.take(i as int)));
                    }
                    i += 1;
                }
                assert(sv.take(i as int) =~= sv);
            },
        }
        assert(self.model().scopes =~= r_end(before).scopes);
    }

    fn error(&mut self, name: &Token, message: &str)
        ensures
            final(self).model() == with_error(old(self).model(), name@, message@),
    {
        let ghost before = self.model();
        self.errors.push(ResolveError { token: name.clone(), message: message.to_string() });
        assert(self.model().errors =~= with_error(before, name@, message@).errors);
    }

    fn declare(&mut self, name: &Token, used: bool)
        ensures
            final(self).model() == r_declare(old(self).model(), name@, used),
    {
        if self.scopes.len() == 0 {
            if native_name(name.lexeme.as_str()) {
                self.error(name, "Can't redefine a native function.");
            }
            return;
        }
        let ghost m = self.model();
        let mut scope = self.scopes.pop().unwrap();
        assert(scope_view(scope@) == m.scopes.last());
        let found = find_slot(&scope, name.lexeme.as_str());
        let ghost before = scope_view(scope@);
        proof {
            lemma_slot(before, name.lexeme@, 0);
        }
        let local = (name.lexeme.clone(), false, used, name.clone(), used);
        match found {
            Some(i) => {
                scope.set(i, local);
                assert(scope_view(scope@) =~= before.update(i as int, local_view(local)));
            },
            None => {
                scope.push(local);
                assert(scope_view(scope@) =~= before.push(local_view(local)));
            },
        }
        self.scopes.push(scope);
        assert(self.model().scopes =~= m.scopes.update(
            m.scopes.len() - 1,
            scope_put(m.scopes.last(), (name.lexeme@, false, used, name@, used)),
        ));
        if found.is_some() {
            self.error(name, "Already a variable with this name in this scope.");
        }
    }

    fn define(&mut self, name: &Token, assigned: bool)
        ensures
            final(self).model() == r_define(old(self).model(), name@, assigned),
    {
        if self.scopes.len() == 0 {
            return;
        }
        let ghost m = self.model();
        let mut scope = self.scopes.pop().unwrap();
        assert(scope_view(scope@) == m.scopes.last());
        let found = find_slot(&scope, name.lexeme.as_str());
        let ghost before = scope_view(scope@);
        proof {
            lemma_slot(before, name.lexeme@, 0);
        }
        match found {
            Some(i) => {
                let local = (scope[i].0.clone(), true, scope[i].2, scope[i].3.clone(), assigned);
                scope.set(i, local);
                assert(scope_view(scope@) =~= before.update(
                    i as int,
                    (before[i as int].0, true, before[i as int].2, before[i as int].3, assigned),
                ));
            },
            None => {
                let local = (name.lexeme.clone(), true, false, name.clone(), assigned);
                scope.push(local);
                assert(scope_view(scope@) =~= before.push(local_view(local)));
            },
        }
        self.scopes.push(scope);
        assert(self.model().scopes =~= m.scopes.update(
            m.scopes.len() - 1,
            scope_complete(m.scopes.last(), name@, assigned),
        ));
    }

    fn resolve_local(&mut self, name: &Token, expr: &Expr, read: bool)
        ensures
            final(self).model() == r_local(old(self).model(), name@, expr.id as nat, read),
    {
        let ghost m = self.model();
        let mut i: usize = self.scopes.len();
        while i > 0
            invariant
                self.model() == m,
                m == old(self).model(),
                0 <= i <= self.scopes@.len(),
                innermost(m.scopes, name.lexeme@, m.scopes.len()) == innermost(
                    m.scopes,
                    name.lexeme@,
                    i as nat,
                ),
            decreases i,
        {
            assert(scope_view(self.scopes@[i - 1]@) == m.scopes[i - 1]);
            let found = find_slot(&self.scopes[i - 1], name.lexeme.as_str());
            match found {
                Some(k) => {
                    assert(innermost(m.scopes, name.lexeme@, i as nat) == Some((i - 1) as nat));
                    proof {
                        lemma_slot(m.scopes[i - 1], name.lexeme@, 0);
                    }
                    self.locals.push((expr.id, self.scopes.len() - i));
                    assert(self.model().locals =~= m.locals.push(
                        (expr.id as nat, (m.scopes.len() - i) as nat),
                    ));
                    let mut scope = self.scopes.remove(i - 1);
                    let ghost sv = scope_view(scope@);
                    let unassigned = scope[k].1 && !scope[k].4;
                    if read {
                        let local = (scope[k].0.clone(), scope[k].1, true, scope[k].3.clone(), scope[k].4);
                        scope.set(k, local);
                        assert(scope_view(scope@) =~= mark_read(sv, k as nat));
                    } else {
                        let local = (scope[k].0.clone(), scope[k].1, scope[k].2, scope[k].3.clone(), true);
                        scope.set(k, local);
                        assert(scope_view(scope@) =~= mark_assigned(sv, k as nat));
                    }
                    self.scopes.insert(i - 1, scope);
                    if read {
                        assert(self.model().scopes =~= m.scopes.update(
                            i - 1,
                            mark_read(m.scopes[i - 1], k as nat),
                        ));
                        if unassigned {
                            self.error(name, "Can't use local variable before it is assigned.");
                        }
                    } else {
                        assert(self.model().scopes =~= m.scopes.update(
                            i - 1,
                            mark_assigned(m.scopes[i - 1], k as nat),
                        ));
                    }
                    return;
                },
                None => {},
            }
            i -= 1;
        }
    }

    fn visit_variable(&mut self, name: &Token, expr: &Expr)
        ensures
            final(self).model() == ({
                let st = old(self).model();
                let st1 = if st.scopes.len() > 0 && scope_get(st.scopes.last(), name.lexeme@)
                    == Some(false) {
                    with_error(st, name@, "Can't read local variable in its own initializer."@)
                } else {
                    st
                };
                r_local(st1, name@, expr.id as nat, true)
            }),
    {
        if self.scopes.len() > 0 {
            let last = self.scopes.len() - 1;
            assert(scope_view(self.scopes@[last as int]@) == self.model().scopes.last());
            let found = find_slot(&self.scopes[last], name.lexeme.as_str());
            proof {
                lemma_slot(self.model().scopes.last(), name.lexeme@, 0);
            }
            match found {
                Some(k) => {
                    if !self.scopes[last][k].1 {
                        self.error(name, "Can't read local variable in its own initializer.");
                    }
                },
                None => {},
            }
        }
        self.resolve_local(name, expr, true);
    }

    fn resolve_lambda(&mut self, params: &Vec<Token>, body: &Vec<Stmt>, ftype: FunctionType)
        ensures
            final(self).model() == ({
                let st = old(self).model();
                let st1 = r_params(
                    token_seq_view(params@),
                    r_begin(RState { function: ftype, ..st }),
                );
                let st2 = r_end(r_stmts(stmts_view(body@), st1));
                RState { function: st.function, ..st2 }
            }),
        decreases body, 1nat,
    {
        let enclosing_function = self.current_function;
        self.current_function = ftype;
        self.begin_scope();
        let ghost start = self.model();
        let mut i: usize = 0;
        while i < params.len()
            invariant
                0 <= i <= params@.len(),
                self.model() == r_params(token_seq_view(params@).take(i as int), start),
            decreases params@.len() - i,
        {
            self.declare(&params[i], true);
            self.define(&params[i], true);
            proof {
                let pv = token_seq_view(params@);
                assert(pv.take(i + 1).drop_last() =~= pv.take(i as int));
            }
            i += 1;
        }
        assert(token_seq_view(params@).take(i as int) =~= token_seq_view(params@));
        self.resolve_stmts(body.as_slice());
        self.end_scope();
        self.current_function = enclosing_function;
    }

    fn resolve_stmts(&mut self, stmts: &[Stmt])
        ensures
            final(self).model() == r_stmts(stmts_view(stmts@), old(self).model()),
        decreases stmts@, 0nat,
    {
        let ghost start = self.model();
        let mut i: usize = 0;
        while i < stmts.len()
            invariant
                0 <= i <= stmts@.len(),
                self.model() == r_stmts(stmts_view(stmts@).take(i as int), start),
            decreases stmts@.len() - i,
        {
            assert(stmts_view(stmts@)[i as int] == stmts@[i as int]@);
            self.resolve_stmt(&stmts[i]);
            proof {
                let sv = stmts_view(stmts@);
                assert(sv.take(i + 1).subrange(0, i as int) =~= sv.take(i as int));
            }
            i += 1;
        }
        assert(stmts_view(stmts@).take(i as int) =~= stmts_view(stmts@));
    }

    #[verifier::rlimit(60)]
    fn resolve_stmt(&mut self, stmt: &Stmt)
        ensures
            final(self).model() == r_stmt(stmt@, old(self).model()),
        decreases stmt, 2nat,
    {
        match stmt {
            Stmt::Expression(e) => self.resolve_expr(e),
            Stmt::Print(e) => self.resolve_expr(e),
            Stmt::Var(name, initializer) => {
                self.declare(name, false);
                match initializer {
                    Some(init) => self.resolve_expr(init),
                    None => {},
                }
                self.define(name, initializer.is_some());
            },
            Stmt::Block(stmts) => {
                proof {
                    lemma_block_view(*stmts);
                }
                self.begin_scope();
                self.resolve_stmts(stmts.as_slice());
                self.end_scope();
            },
            Stmt::If(condition, then_branch, else_branch) => {
                self.resolve_expr(condition);
                self.resolve_stmt(then_branch);
                match else_branch {
                    Some(e) => self.resolve_stmt(e),
                    None => {},
                }
            },
            Stmt::While(condition, body) => {
                self.resolve_expr(condition);
                self.resolve_stmt(body);
            },
            Stmt::Return(keyword, value) => {
                if self.current_function == FunctionType::TopLevel {
                    self.error(keyword, "Can't return from top-level code");
                }
                match value {
                    Some(v) => self.resolve_expr(v),
                    None => {},
                }
            },
            Stmt::Break(_) => {},
            Stmt::Class(_, _, _) => self.resolve_class(stmt),
        }
    }

    /// Resolves a class declaration: its name is declared and defined, its
    /// superclass read and held as `super` in a scope of its own, and the
    /// function of each member resolved.
    #[verifier::rlimit(40)]
    fn resolve_class(&mut self, stmt: &Stmt)
        requires
            stmt is Class,
        ensures
            final(self).model() == r_stmt(stmt@, old(self).model()),
        decreases stmt, 1nat,
    {
        match stmt {
            Stmt::Class(name, superclass, methods) => {
                proof {
                    lemma_class_view(*name, *superclass, *methods);
                    assert(decreases_to!(*stmt => stmt->Class_2));
                }
                self.declare(name, false);
                self.define(name, true);
                let this_token = Token::new(TokenType::This, "this".to_string(), None, name.line);
                match superclass {
                    Some(sup) => {
                        proof {
                            assert(decreases_to!(*stmt => stmt->Class_1));
                        }
                        self.resolve_expr(sup);
                        let super_token = Token::new(
                            TokenType::Super,
                            "super".to_string(),
                            None,
                            name.line,
                        );
                        self.keyword_scope(&super_token);
                        self.resolve_members(methods, &this_token, stmt);
                        self.end_scope();
                    },
                    None => self.resolve_members(methods, &this_token, stmt),
                }
            },
            _ => {},
        }
    }

    /// Opens a scope that holds the local `keyword`.
    fn keyword_scope(&mut self, keyword: &Token)
        ensures
            final(self).model() == r_keyword_scope(old(self).model(), keyword@),
    {
        self.begin_scope();
        self.declare(keyword, true);
        self.define(keyword, true);
    }

    /// Resolves the members of a class, held by `parent`.
    fn resolve_members(&mut self, methods: &Vec<Stmt>, this: &Token, parent: &Stmt)
        requires
            decreases_to!(*parent => *methods),
        ensures
            final(self).model() == r_members(stmts_view(methods@), this@, old(self).model()),
        decreases parent, 0nat,
    {
        let ghost start = self.model();
        let mut i: usize = 0;
        while i < methods.len()
            invariant
                decreases_to!(*parent => *methods),
                0 <= i <= methods@.len(),
                self.model() == r_members(stmts_view(methods@).take(i as int), this@, start),
            decreases methods@.len() - i,
        {
            assert(stmts_view(methods@)[i as int] == methods@[i as int]@);
            proof {
                let sv = stmts_view(methods@);
                assert(sv.take(i + 1).subrange(0, i as int) =~= sv.take(i as int));
            }
            match &methods[i] {
                Stmt::Var(_, Some(f)) => {
                    proof {
                        assert(decreases_to!(*methods => methods@));
                        assert(decreases_to!(methods@ => methods@[i as int]));
                        assert(decreases_to!(methods@[i as int] => methods@[i as int]->Var_1));
                    }
                    let is_static = match &f.kind {
                        ExprKind::Lambda(_, _, _, LambdaType::ClassStatic) => true,
                        _ => false,
                    };
                    if is_static {
                        self.resolve_expr(f);
                    } else {
                        self.keyword_scope(this);
                        self.resolve_expr(f);
                        self.end_scope();
                    }
                },
                _ => {},
            }
            i += 1;
        }
        assert(stmts_view(methods@).take(i as int) =~= stmts_view(methods@));
    }

    #[verifier::rlimit(60)]
    fn resolve_expr(&mut self, expr: &Expr)
        ensures
            final(self).model() == r_expr(expr@, old(self).model()),
        decreases expr, 2nat,
    {
        match &expr.kind {
            ExprKind::Binary(left, _, right) => {
                self.resolve_expr(left);
                self.resolve_expr(right);
            },
            ExprKind::Logical(left, _, right) => {
                self.resolve_expr(left);
                self.resolve_expr(right);
            },
            ExprKind::Comma(left, right) => {
                self.resolve_expr(left);
                self.resolve_expr(right);
            },
            ExprKind::Grouping(expression) => self.resolve_expr(expression),
            ExprKind::Literal(_) => {},
            ExprKind::Unary(_, right) => self.resolve_expr(right),
            ExprKind::Ternary(cond, left, right) => {
                self.resolve_expr(cond);
                self.resolve_expr(left);
                self.resolve_expr(right);
            },
            ExprKind::Variable(name) => self.visit_variable(name, expr),
            ExprKind::Assign(name, value) => {
                self.resolve_expr(value);
                self.resolve_local(name, expr, false);
            },
            ExprKind::Call(callee, paren, arguments) => {
                proof {
                    lemma_call_view(expr.id, **callee, *paren, *arguments);
                }
                self.resolve_expr(callee);
                self.resolve_each(arguments, expr);
            },
            ExprKind::Lambda(name, params, body, lambda_type) => {
                proof {
                    lemma_lambda_view(expr.id, *name, *params, *body, *lambda_type);
                }
                self.resolve_lambda(params, body, FunctionType::Function);
            },
            ExprKind::Get(object, _) => self.resolve_expr(object),
            ExprKind::SetProperty(object, _, value) => {
                self.resolve_expr(value);
                self.resolve_expr(object);
            },
            ExprKind::This(keyword) => self.resolve_local(keyword, expr, true),
            ExprKind::Super(keyword, _) => self.resolve_local(keyword, expr, true),
            ExprKind::List(items) => {
                proof {
                    lemma_list_view(expr.id, *items);
                }
                self.resolve_each(items, expr);
            },
            ExprKind::Index(list, index, _) => {
                self.resolve_expr(list);
                self.resolve_expr(index);
            },
            ExprKind::IndexSet(list, index, value, _) => {
                self.resolve_expr(list);
                self.resolve_expr(index);
                self.resolve_expr(value);
            },
        }
    }

    /// Resolves the expressions `items`, held by `parent`, in turn.
    fn resolve_each(&mut self, items: &Vec<Expr>, parent: &Expr)
        requires
            decreases_to!(*parent => *items),
        ensures
            final(self).model() == r_exprs(exprs_view(items@), old(self).model()),
        decreases parent, 1nat,
    {
        let ghost start = self.model();
        let mut i: usize = 0;
        while i < items.len()
            invariant
                decreases_to!(*parent => *items),
                0 <= i <= items@.len(),
                self.model() == r_exprs(exprs_view(items@).take(i as int), start),
            decreases items@.len() - i,
        {
            proof {
                assert(decreases_to!(*items => items@));
                assert(decreases_to!(items@ => items@[i as int]));
            }
            self.resolve_expr(&items[i]);
            proof {
                let av = exprs_view(items@);
                assert(av.take(i + 1).subrange(0, i as int) =~= av.take(i as int));
            }
            i += 1;
        }
        assert(exprs_view(items@).take(i as int) =~= exprs_view(items@));
    }

    /// Resolves `stmts` and gives back the errors found and, in order, each
    /// local variable use with the number of scopes between it and its
    /// declaration.
    pub fn resolve(self, stmts: &[Stmt]) -> (r: (Vec<ResolveError>, Vec<(ExprId, usize)>))
        ensures
            resolve_errors_view(r.0@) == r_stmts(stmts_view(stmts@), self.model()).errors,
            locals_view(r.1@) == r_stmts(stmts_view(stmts@), self.model()).locals,
    {
        let mut this = self;
        this.resolve_stmts(stmts);
        (this.errors, this.locals)
    }
}

} // verus!
