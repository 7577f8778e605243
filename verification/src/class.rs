//! The decisions a class declaration and a `super` access make: which
//! members a class body holds and of what kind, the arity of the class, which
//! class along a superclass chain provides a method, and the errors raised on
//! the way.
use crate::expr::{expr_view, token_seq_view, ExprKind, ExprKindV, LambdaType};
use crate::stmt::{copy_stmts, copy_tokens, lemma_lambda_view, stmts_view, Stmt, StmtV};
use crate::token::{str_equals, Token, TokenV};
use vstd::prelude::*;
use vstd::string::to_string_from_display_ensures_for_str;

verus! {

broadcast use to_string_from_display_ensures_for_str;

/// The kind of a class member: an instance method, a static method called on
/// the class itself, or a getter read as a property.
#[derive(Clone, Copy, Debug, PartialEq, Eq, Structural)]
pub enum MemberKind {
    Method,
    Static,
    Getter,
}

/// A class member: its name, kind, parameters, body, and whether it is the
/// initializer.
pub type Member = (String, MemberKind, Vec<Token>, Vec<Stmt>, bool);

/// The members of a class body, in order, and the number of arguments a
/// call of the class takes.
pub struct ClassShape {
    pub members: Vec<Member>,
    pub arity: usize,
}

/// The model of a [`Member`].
pub type MemberV = (Seq<char>, MemberKind, Seq<TokenV>, Seq<StmtV>, bool);

/// The model of a [`ClassShape`].
pub struct ClassShapeV {
    pub members: Seq<MemberV>,
    pub arity: nat,
}

pub open spec fn member_view(m: Member) -> MemberV {
    (m.0@, m.1, token_seq_view(m.2@), stmts_view(m.3@), m.4)
}

pub open spec fn members_view(ms: Seq<Member>) -> Seq<MemberV> {
    ms.map_values(|m: Member| member_view(m))
}

impl View for ClassShape {
    type V = ClassShapeV;

    open spec fn view(&self) -> ClassShapeV {
        ClassShapeV { members: members_view(self.members@), arity: self.arity as nat }
    }
}

/// The model of what [`class_shape`] returns.
pub open spec fn shape_view(r: Result<ClassShape, (Token, String)>) -> Result<
    ClassShapeV,
    (TokenV, Seq<char>),
> {
    match r {
        Ok(s) => Ok(s@),
        Err(e) => Err((e.0@, e.1@)),
    }
}

/// The member kind of each way of introducing a function literal.
pub open spec fn member_kind(t: LambdaType) -> MemberKind {
    match t {
        LambdaType::ClassStatic => MemberKind::Static,
        LambdaType::Function => MemberKind::Method,
        LambdaType::Getter => MemberKind::Getter,
    }
}

/// The member a statement of a class body stands for: a declaration whose
/// value is a function literal. A method named `init` is the initializer.
pub open spec fn spec_member(s: StmtV) -> Option<MemberV> {
    match s {
        StmtV::Var(name, Some(f)) => match f.kind {
            ExprKindV::Lambda(_, params, body, t) => Some(
                (
                    name.lexeme,
                    member_kind(t),
                    params,
                    body,
                    name.lexeme == "init"@ && t == LambdaType::Function,
                ),
            ),
            _ => None,
        },
        _ => None,
    }
}

/// The members of a class body in order, or `None` if some statement of it
/// is not a member.
pub open spec fn spec_members(ss: Seq<StmtV>) -> Option<Seq<MemberV>>
    decreases ss.len(),
{
    if ss.len() == 0 {
        Some(Seq::empty())
    } else {
        match (spec_members(ss.drop_last()), spec_member(ss.last())) {
            (Some(ms), Some(m)) => Some(ms.push(m)),
            _ => None,
        }
    }
}

/// The number of parameters of the last initializer among `ms`, or 0 when
/// there is none.
pub open spec fn init_arity(ms: Seq<MemberV>) -> nat
    decreases ms.len(),
{
    if ms.len() == 0 {
        0
    } else if ms.last().4 {
        ms.last().2.len()
    } else {
        init_arity(ms.drop_last())
    }
}

pub open spec fn only_methods_message() -> Seq<char> {
    "Only methods allowed in class body."@
}

/// What a class body declares: its members and arity, or an error at the
/// class name when the body holds anything but methods.
pub open spec fn spec_class_shape(class_name: TokenV, ss: Seq<StmtV>) -> Result<
    ClassShapeV,
    (TokenV, Seq<char>),
> {
    match spec_members(ss) {
        Some(ms) => Ok(ClassShapeV { members: ms, arity: init_arity(ms) }),
        None => Err((class_name, only_methods_message())),
    }
}

/// A class body is refused exactly when one of its statements is not a
/// method, and otherwise each statement gives the member at its position.
pub proof fn lemma_class_shape(class_name: TokenV, ss: Seq<StmtV>)
    ensures
        spec_class_shape(class_name, ss) is Err <==> exists|i: int|
            0 <= i < ss.len() && #[trigger] spec_member(ss[i]) is None,
        spec_class_shape(class_name, ss) matches Ok(shape) ==> shape.members.len() == ss.len()
            && forall|i: int| 0 <= i < ss.len() ==> spec_member(#[trigger] ss[i]) == Some(
            shape.members[i],
        ),
    decreases ss.len(),
{
    if ss.len() > 0 {
        let init = ss.drop_last();
        lemma_class_shape(class_name, init);
        assert forall|i: int| 0 <= i < init.len() implies ss[i] == #[trigger] init[i] by {}
        match (spec_members(init), spec_member(ss.last())) {
            (Some(ms), Some(m)) => {
                assert forall|i: int| 0 <= i < ss.len() implies spec_member(#[trigger] ss[i]) == Some(
                    ms.push(m)[i],
                ) by {
                    if i < init.len() {
                        assert(ss[i] == init[i]);
                    }
                }
            },
            (None, _) => {
                let i = choose|i: int| 0 <= i < init.len() && #[trigger] spec_member(init[i]) is None;
                assert(ss[i] == init[i]);
            },
            (_, None) => {
                assert(spec_member(ss[ss.len() - 1]) is None);
            },
        }
    }
}

/// Where the members of a prefix of a class body already fail, the whole
/// body fails.
proof fn lemma_members_prefix(ss: Seq<StmtV>, j: int)
    requires
        0 <= j <= ss.len(),
        spec_members(ss.take(j)) is None,
    ensures
        spec_members(ss) is None,
    decreases ss.len() - j,
{
    if j == ss.len() {
        assert(ss.take(j) =~= ss);
    } else {
        assert(ss.take(j + 1).drop_last() =~= ss.take(j));
        lemma_members_prefix(ss, j + 1);
    }
}

/// Sorts the statements of a class body into members, each with its kind and
/// whether it is the initializer, and finds the arity of the class: the
/// parameter count of its initializer. A statement that is not a method is an
/// error at the class name.
pub fn class_shape(class_name: &Token, members: &[Stmt]) -> (r: Result<ClassShape, (Token, String)>)
    ensures
        shape_view(r) == spec_class_shape(class_name@, stmts_view(members@)),
{
    let ghost sv = stmts_view(members@);
    let mut out: Vec<Member> = Vec::new();
    let mut arity: usize = 0;
    let mut i: usize = 0;
    while i < members.len()
        invariant
            0 <= i <= members@.len(),
            sv == stmts_view(members@),
            spec_members(sv.take(i as int)) == Some(members_view(out@)),
            arity as nat == init_arity(members_view(out@)),
        decreases members@.len() - i,
    {
        assert(sv.take(i + 1).drop_last() =~= sv.take(i as int));
        assert(sv.take(i + 1).last() == members@[i as int]@);
        let member = match &members[i] {
            Stmt::Var(name, Some(f)) => match &f.kind {
                ExprKind::Lambda(fname, params, body, t) => {
                    proof {
                        lemma_lambda_view(f.id, *fname, *params, *body, *t);
                    }
                    let kind = match t {
                        LambdaType::ClassStatic => MemberKind::Static,
                        LambdaType::Function => MemberKind::Method,
                        LambdaType::Getter => MemberKind::Getter,
                    };
                    let is_init = *t == LambdaType::Function && str_equals(
                        name.lexeme.as_str(),
                        "init",
                    );
                    if is_init {
                        arity = params.len();
                    }
                    (name.lexeme.clone(), kind, copy_tokens(params), copy_stmts(body), is_init)
                },
                _ => {
                    proof {
                        assert(members@[i as int]@ == StmtV::Var(name@, Some(expr_view(*f))));
                        assert(spec_member(sv.take(i + 1).last()) is None);
                        lemma_members_prefix(sv, i + 1);
                    }
                    return Err((class_name.clone(), "Only methods allowed in class body.".to_string()));
                },
            },
            _ => {
                proof {
                    lemma_members_prefix(sv, i + 1);
                }
                return Err((class_name.clone(), "Only methods allowed in class body.".to_string()));
            },
        };
        let ghost before = members_view(out@);
        out.push(member);
        assert(members_view(out@) =~= before.push(member_view(member)));
        assert(members_view(out@).drop_last() =~= before);
        i += 1;
    }
    assert(sv.take(i as int) =~= sv);
    Ok(ClassShape { members: out, arity })
}

/// Whether a class may be declared with the superclass it names: `None` when
/// it names none, else whether the superclass is a class. Naming anything but
/// a class is an error at the class name.
pub fn check_superclass(class_name: &Token, is_class: Option<bool>) -> (r: Result<(), (Token, String)>)
    ensures
        r is Err <==> is_class == Some(false),
        r matches Err(e) ==> e.0@ == class_name@ && e.1@ == "Superclass must be a class."@,
{
    match is_class {
        Some(false) => Err((class_name.clone(), "Superclass must be a class.".to_string())),
        _ => Ok(()),
    }
}

/// A class as method lookup sees it: the names of its own methods and the
/// class it inherits from.
pub struct ClassModel {
    pub methods: Vec<String>,
    pub superclass: Option<Box<ClassModel>>,
}

/// The model of a [`ClassModel`].
pub struct ClassModelV {
    pub methods: Seq<Seq<char>>,
    pub superclass: Option<Box<ClassModelV>>,
}

pub open spec fn class_model_view(c: ClassModel) -> ClassModelV
    decreases c,
{
    ClassModelV {
        methods: c.methods@.map_values(|m: String| m@),
        superclass: match c.superclass {
            Some(s) => Some(Box::new(class_model_view(*s))),
            None => None,
        },
    }
}

impl View for ClassModel {
    type V = ClassModelV;

    open spec fn view(&self) -> ClassModelV {
        class_model_view(*self)
    }
}

/// How many steps up the superclass chain of `c` the method `name` is found:
/// a class's own methods come first, so a subclass's method overrides one of
/// the same name further up.
pub open spec fn spec_find_method(c: ClassModelV, name: Seq<char>) -> Option<nat>
    decreases c,
{
    if c.methods.contains(name) {
        Some(0)
    } else {
        match c.superclass {
            Some(s) => match spec_find_method(*s, name) {
                Some(d) => Some(d + 1),
                None => None,
            },
            None => None,
        }
    }
}

/// The number of classes in the chain that starts at `c`.
pub open spec fn chain_len(c: ClassModelV) -> nat
    decreases c,
{
    match c.superclass {
        Some(s) => 1 + chain_len(*s),
        None => 1,
    }
}

/// A method found is found within the chain.
pub proof fn lemma_find_method_in_chain(c: ClassModelV, name: Seq<char>)
    ensures
        spec_find_method(c, name) matches Some(d) ==> d < chain_len(c),
    decreases c,
{
    match c.superclass {
        Some(s) => lemma_find_method_in_chain(*s, name),
        None => {},
    }
}

/// A class's own method is the one found, whatever its superclasses hold:
/// a subclass overrides a method of the same name.
pub proof fn lemma_own_method_overrides(c: ClassModelV, name: Seq<char>)
    requires
        c.methods.contains(name),
    ensures
        spec_find_method(c, name) == Some(0nat),
{
}

/// A method a class does not declare is inherited: it is found one step
/// further up than in the superclass, and not at all without one.
pub proof fn lemma_inherited_method(c: ClassModelV, name: Seq<char>)
    requires
        !c.methods.contains(name),
    ensures
        spec_find_method(c, name) == match c.superclass {
            Some(s) => match spec_find_method(*s, name) {
                Some(d) => Some(d + 1),
                None => None,
            },
            None => None::<nat>,
        },
{
}

/// Whether `name` is among `methods`.
fn has_method(methods: &Vec<String>, name: &str) -> (r: bool)
    ensures
        r == methods@.map_values(|m: String| m@).contains(name@),
{
    let ghost mv = methods@.map_values(|m: String| m@);
    let mut i: usize = 0;
    while i < methods.len()
        invariant
            0 <= i <= methods@.len(),
            mv == methods@.map_values(|m: String| m@),
            forall|k: int| 0 <= k < i ==> mv[k] != name@,
        decreases methods@.len() - i,
    {
        if str_equals(methods[i].as_str(), name) {
            assert(mv[i as int] == name@);
            return true;
        }
        i += 1;
    }
    false
}

/// How many steps up the superclass chain of `c` the method `name` is found,
/// or `None` when no class of the chain has it.
pub fn find_method(c: &ClassModel, name: &str) -> (r: Option<usize>)
    requires
        chain_len(c@) <= usize::MAX,
    ensures
        match r {
            Some(d) => spec_find_method(c@, name@) == Some(d as nat),
            None => spec_find_method(c@, name@) is None,
        },
    decreases c,
{
    if has_method(&c.methods, name) {
        return Some(0);
    }
    match &c.superclass {
        Some(s) => {
            proof {
                lemma_find_method_in_chain(s@, name@);
            }
            match find_method(s, name) {
                Some(d) => Some(d + 1),
                None => None,
            }
        },
        None => None,
    }
}

/// What a `super` access gives: an error at `super` when it does not name a
/// class, an error at `super` when `this` is not an instance, an error at the
/// method when no class up the chain has it, and otherwise how many steps up
/// the superclass chain the method lies.
pub open spec fn spec_super_outcome(
    super_is_class: bool,
    this_is_instance: bool,
    found: Option<nat>,
    keyword: TokenV,
    method: TokenV,
) -> Result<nat, (TokenV, Seq<char>)> {
    if !super_is_class {
        Err((keyword, "'super' must be a class."@))
    } else if !this_is_instance {
        Err((keyword, "'this' must be class instance."@))
    } else {
        match found {
            Some(d) => Ok(d),
            None => Err((method, "Undefined property '"@ + method.lexeme + "'"@)),
        }
    }
}

pub open spec fn outcome_view(r: Result<usize, (Token, String)>) -> Result<
    nat,
    (TokenV, Seq<char>),
> {
    match r {
        Ok(d) => Ok(d as nat),
        Err(e) => Err((e.0@, e.1@)),
    }
}

/// [`spec_super_outcome`], where `found` is what [`find_method`] gave for the
/// superclass.
pub fn super_outcome(
    super_is_class: bool,
    this_is_instance: bool,
    found: Option<usize>,
    keyword: &Token,
    method: &Token,
) -> (r: Result<usize, (Token, String)>)
    ensures
        outcome_view(r) == spec_super_outcome(
            super_is_class,
            this_is_instance,
            match found {
                Some(d) => Some(d as nat),
                None => None,
            },
            keyword@,
            method@,
        ),
{
    if !super_is_class {
        return Err((keyword.clone(), "'super' must be a class.".to_string()));
    }
    if !this_is_instance {
        return Err((keyword.clone(), "'this' must be class instance.".to_string()));
    }
    match found {
        Some(d) => Ok(d),
        None => {
            let message = String::from_str("Undefined property '").concat(
                method.lexeme.as_str(),
            ).concat("'");
            Err((method.clone(), message))
        },
    }
}

} // verus!
