use vstd::prelude::*;
use rustc_hash::FxHashMap;

use crate::lexer::BinOp;
use crate::parser::{ExprAst, ExprV, expr_height};
use crate::vars::{Var, VarV, var_table, var_table_get};

verus! {

/// A type of the C subset.
///
/// The derived order (declaration order of the variants, then the fields) is the
/// order in which the widest type of a binary operation is chosen.
#[derive(Debug, PartialEq, PartialOrd, Eq, Ord)]
pub enum Type {
    Char,
    Short,
    Int,
    Function(Box<FunctionType>),
    Long,
}

/// The type of a function: what it returns and what its arguments are.
#[derive(Debug, PartialEq, PartialOrd, Eq, Ord)]
pub struct FunctionType {
    pub ret_type: Type,
    pub args_type: Vec<Type>,
}

/// Mathematical model of a [`Type`].
pub enum TypeV {
    Char,
    Short,
    Int,
    Function(Box<FunctionTypeV>),
    Long,
}

/// Mathematical model of a [`FunctionType`].
pub struct FunctionTypeV {
    pub ret_type: TypeV,
    pub args_type: Seq<TypeV>,
}

pub open spec fn type_view(t: Type) -> TypeV
    decreases t,
{
    match t {
        Type::Char => TypeV::Char,
        Type::Short => TypeV::Short,
        Type::Int => TypeV::Int,
        Type::Long => TypeV::Long,
        Type::Function(f) => TypeV::Function(Box::new(function_type_view(*f))),
    }
}

pub open spec fn function_type_view(f: FunctionType) -> FunctionTypeV
    decreases f,
{
    FunctionTypeV { ret_type: type_view(f.ret_type), args_type: types_view(f.args_type@) }
}

pub open spec fn types_view(s: Seq<Type>) -> Seq<TypeV>
    decreases s,
{
    if s.len() == 0 {
        Seq::empty()
    } else {
        seq![type_view(s[0])] + types_view(s.subrange(1, s.len() as int))
    }
}

impl View for Type {
    type V = TypeV;

    open spec fn view(&self) -> TypeV {
        type_view(*self)
    }
}

impl View for FunctionType {
    type V = FunctionTypeV;

    open spec fn view(&self) -> FunctionTypeV {
        function_type_view(*self)
    }
}

/// The model of a list of types has its length and its elements' models.
pub proof fn lemma_types_view_len(s: Seq<Type>)
    ensures
        types_view(s).len() == s.len(),
        forall|i: int| 0 <= i < s.len() ==> #[trigger] types_view(s)[i] == type_view(s[i]),
    decreases s.len(),
{
    if s.len() > 0 {
        let rest = s.subrange(1, s.len() as int);
        lemma_types_view_len(rest);
        assert forall|i: int| 0 <= i < s.len() implies #[trigger] types_view(s)[i] == type_view(
            s[i],
        ) by {
            if i > 0 {
                assert(s[i] == rest[i - 1]);
            }
        }
    }
}

/// Pushing a type pushes its model.
pub proof fn lemma_types_view_push(s: Seq<Type>, t: Type)
    ensures
        types_view(s.push(t)) == types_view(s).push(type_view(t)),
{
    lemma_types_view_len(s);
    lemma_types_view_len(s.push(t));
    assert(types_view(s.push(t)) =~= types_view(s).push(type_view(t)));
}

impl Type {
    /// A copy of this type with the same model.
    pub fn duplicate(&self) -> (r: Type)
        ensures
            r@ == self@,
        decreases self,
    {
        match self {
            Type::Char => Type::Char,
            Type::Short => Type::Short,
            Type::Int => Type::Int,
            Type::Long => Type::Long,
            Type::Function(f) => Type::Function(Box::new(f.duplicate())),
        }
    }

    /// The function type inside this type, if it is one.
    pub fn into_function_type(self) -> (r: Option<FunctionType>)
        ensures
            match self@ {
                TypeV::Function(f) => r is Some && r->0@ == *f,
                _ => r is None,
            },
    {
        match self {
            Type::Function(func_type) => Some(*func_type),
            _ => None,
        }
    }
}

impl FunctionType {
    /// A copy of this function type with the same model.
    pub fn duplicate(&self) -> (r: FunctionType)
        ensures
            r@ == self@,
        decreases self,
    {
        let ret_type = self.ret_type.duplicate();
        let mut args_type: Vec<Type> = Vec::new();
        let n = self.args_type.len();
        let mut i: usize = 0;
        while i < n
            invariant
                n == self.args_type@.len(),
                i <= n,
                types_view(args_type@) == types_view(self.args_type@.subrange(0, i as int)),
            decreases n - i,
        {
            assert(decreases_to!(self => self.args_type));
            let t = self.args_type[i].duplicate();
            proof {
                lemma_types_view_push(args_type@, t);
                lemma_types_view_push(
                    self.args_type@.subrange(0, i as int),
                    self.args_type@[i as int],
                );
                assert(self.args_type@.subrange(0, i as int).push(self.args_type@[i as int])
                    =~= self.args_type@.subrange(0, i + 1));
            }
            args_type.push(t);
            i = i + 1;
        }
        assert(self.args_type@.subrange(0, n as int) =~= self.args_type@);
        FunctionType { ret_type, args_type }
    }
}

/// Position of a type's variant in the declaration order.
pub open spec fn variant_rank(t: TypeV) -> int {
    match t {
        TypeV::Char => 0,
        TypeV::Short => 1,
        TypeV::Int => 2,
        TypeV::Function(_) => 3,
        TypeV::Long => 4,
    }
}

/// The derived total order on types: -1, 0 or 1 as `a` is below, equal to or above `b`.
pub open spec fn type_order(a: TypeV, b: TypeV) -> int
    decreases a,
{
    if variant_rank(a) < variant_rank(b) {
        -1
    } else if variant_rank(a) > variant_rank(b) {
        1
    } else {
        match (a, b) {
            (TypeV::Function(fa), TypeV::Function(fb)) => {
                let c = type_order(fa.ret_type, fb.ret_type);
                if c != 0 {
                    c
                } else {
                    types_order(fa.args_type, fb.args_type)
                }
            },
            _ => 0,
        }
    }
}

/// Lexicographic order on sequences of types (a proper prefix comes first).
pub open spec fn types_order(a: Seq<TypeV>, b: Seq<TypeV>) -> int
    decreases a,
{
    if a.len() == 0 {
        if b.len() == 0 {
            0
        } else {
            -1
        }
    } else if b.len() == 0 {
        1
    } else {
        let c = type_order(a[0], b[0]);
        if c != 0 {
            c
        } else {
            types_order(a.subrange(1, a.len() as int), b.subrange(1, b.len() as int))
        }
    }
}

/// The larger of two types, the second one when they are equal (as `std::cmp::max`).
pub open spec fn spec_type_max(a: TypeV, b: TypeV) -> TypeV {
    if type_order(a, b) > 0 {
        a
    } else {
        b
    }
}

fn variant_rank_exec(t: &Type) -> (r: u8)
    ensures
        r == variant_rank(t@),
{
    match t {
        Type::Char => 0,
        Type::Short => 1,
        Type::Int => 2,
        Type::Function(_) => 3,
        Type::Long => 4,
    }
}

/// Compares two types in the derived order.
pub fn compare_types(a: &Type, b: &Type) -> (r: i8)
    ensures
        r == type_order(a@, b@),
    decreases a, 1nat,
{
    let ra = variant_rank_exec(a);
    let rb = variant_rank_exec(b);
    if ra < rb {
        -1
    } else if ra > rb {
        1
    } else {
        match (a, b) {
            (Type::Function(fa), Type::Function(fb)) => {
                let c = compare_types(&fa.ret_type, &fb.ret_type);
                if c != 0 {
                    c
                } else {
                    compare_type_lists(fa, &fa.args_type, &fb.args_type)
                }
            },
            _ => 0,
        }
    }
}

/// Compares two argument lists lexicographically; `owner` holds `a`.
fn compare_type_lists(owner: &FunctionType, a: &Vec<Type>, b: &Vec<Type>) -> (r: i8)
    requires
        *a == owner.args_type,
    ensures
        r == types_order(types_view(a@), types_view(b@)),
    decreases owner, 0nat,
{
    let n = a.len();
    let m = b.len();
    let mut i: usize = 0;
    proof {
        lemma_types_view_len(a@);
        lemma_types_view_len(b@);
        assert(types_view(a@).subrange(0, n as int) =~= types_view(a@));
        assert(types_view(b@).subrange(0, m as int) =~= types_view(b@));
    }
    while i < n && i < m
        invariant
            n == a@.len(),
            m == b@.len(),
            i <= n,
            i <= m,
            *a == owner.args_type,
            types_order(types_view(a@), types_view(b@)) == types_order(
                types_view(a@).subrange(i as int, n as int),
                types_view(b@).subrange(i as int, m as int),
            ),
            types_view(a@).len() == n,
            types_view(b@).len() == m,
        decreases n - i,
    {
        assert(decreases_to!(owner => owner.args_type));
        let c = compare_types(&a[i], &b[i]);
        let ghost sa = types_view(a@).subrange(i as int, n as int);
        let ghost sb = types_view(b@).subrange(i as int, m as int);
        proof {
            lemma_types_view_len(a@);
            lemma_types_view_len(b@);
            assert(sa[0] == a@[i as int]@);
            assert(sb[0] == b@[i as int]@);
            assert(sa.subrange(1, sa.len() as int) =~= types_view(a@).subrange(i + 1, n as int));
            assert(sb.subrange(1, sb.len() as int) =~= types_view(b@).subrange(i + 1, m as int));
        }
        if c != 0 {
            return c;
        }
        i = i + 1;
    }
    if i < n {
        1
    } else if i < m {
        -1
    } else {
        0
    }
}

/// The larger of two types (the second when equal), as `std::cmp::max`.
pub fn type_max(a: Type, b: Type) -> (r: Type)
    ensures
        r@ == spec_type_max(a@, b@),
{
    if compare_types(&a, &b) > 0 {
        a
    } else {
        b
    }
}

/// The type guessed for a number literal: the narrowest of char, short, int, long
/// whose unsigned range holds it.
pub open spec fn spec_guess_lit_nb_type(nb: u128) -> TypeV {
    if nb > 0xffff_ffff {
        TypeV::Long
    } else if nb > 0xffff {
        TypeV::Int
    } else if nb > 0xff {
        TypeV::Short
    } else {
        TypeV::Char
    }
}

/// The type of a number literal, which must fit in 64 bits.
pub fn guess_lit_nb_type(nb: u128) -> (r: Type)
    requires
        nb <= u64::MAX,
    ensures
        r@ == spec_guess_lit_nb_type(nb),
{
    if nb > 0xffff_ffffu128 {
        Type::Long
    } else if nb > 0xffffu128 {
        Type::Int
    } else if nb > 0xffu128 {
        Type::Short
    } else {
        Type::Char
    }
}

/// The order on types is reflexive: every type compares equal to itself.
pub proof fn lemma_type_order_refl(a: TypeV)
    ensures
        type_order(a, a) == 0,
    decreases a,
{
    if let TypeV::Function(f) = a {
        lemma_type_order_refl(f.ret_type);
        lemma_types_order_refl(f.args_type);
    }
}

/// The order on lists of types is reflexive.
pub proof fn lemma_types_order_refl(s: Seq<TypeV>)
    ensures
        types_order(s, s) == 0,
    decreases s,
{
    if s.len() > 0 {
        lemma_type_order_refl(s[0]);
        lemma_types_order_refl(s.subrange(1, s.len() as int));
    }
}

/// Swapping two types flips the result of comparing them.
pub proof fn lemma_type_order_antisym(a: TypeV, b: TypeV)
    ensures
        type_order(a, b) == -type_order(b, a),
    decreases a,
{
    match (a, b) {
        (TypeV::Function(fa), TypeV::Function(fb)) => {
            lemma_type_order_antisym(fa.ret_type, fb.ret_type);
            lemma_types_order_antisym(fa.args_type, fb.args_type);
        },
        _ => {},
    }
}

/// Swapping two lists of types flips the result of comparing them.
pub proof fn lemma_types_order_antisym(s: Seq<TypeV>, t: Seq<TypeV>)
    ensures
        types_order(s, t) == -types_order(t, s),
    decreases s,
{
    if s.len() > 0 && t.len() > 0 {
        lemma_type_order_antisym(s[0], t[0]);
        lemma_types_order_antisym(s.subrange(1, s.len() as int), t.subrange(1, t.len() as int));
    }
}

/// Two types that compare equal are the same type.
pub proof fn lemma_type_order_eq(a: TypeV, b: TypeV)
    requires
        type_order(a, b) == 0,
    ensures
        a == b,
    decreases a,
{
    match (a, b) {
        (TypeV::Function(fa), TypeV::Function(fb)) => {
            lemma_type_order_eq(fa.ret_type, fb.ret_type);
            lemma_types_order_eq(fa.args_type, fb.args_type);
            assert(*fa == *fb);
        },
        _ => {},
    }
}

/// Two lists of types that compare equal are the same list.
pub proof fn lemma_types_order_eq(s: Seq<TypeV>, t: Seq<TypeV>)
    requires
        types_order(s, t) == 0,
    ensures
        s == t,
    decreases s,
{
    if s.len() > 0 && t.len() > 0 {
        lemma_type_order_eq(s[0], t[0]);
        let sr = s.subrange(1, s.len() as int);
        let tr = t.subrange(1, t.len() as int);
        lemma_types_order_eq(sr, tr);
        assert(s =~= seq![s[0]] + sr);
        assert(t =~= seq![t[0]] + tr);
    } else {
        assert(s =~= t);
    }
}

/// The order on types is transitive.
pub proof fn lemma_type_order_trans(a: TypeV, b: TypeV, c: TypeV)
    requires
        type_order(a, b) <= 0,
        type_order(b, c) <= 0,
    ensures
        type_order(a, c) <= 0,
    decreases a,
{
    match (a, b, c) {
        (TypeV::Function(fa), TypeV::Function(fb), TypeV::Function(fc)) => {
            let c1 = type_order(fa.ret_type, fb.ret_type);
            let c2 = type_order(fb.ret_type, fc.ret_type);
            lemma_type_order_trans(fa.ret_type, fb.ret_type, fc.ret_type);
            if c1 == 0 && c2 == 0 {
                lemma_type_order_eq(fa.ret_type, fb.ret_type);
                lemma_type_order_eq(fb.ret_type, fc.ret_type);
                lemma_types_order_trans(fa.args_type, fb.args_type, fc.args_type);
            } else if type_order(fa.ret_type, fc.ret_type) == 0 {
                lemma_type_order_eq(fa.ret_type, fc.ret_type);
                lemma_type_order_antisym(fa.ret_type, fb.ret_type);
            }
        },
        _ => {},
    }
}

/// The order on lists of types is transitive.
pub proof fn lemma_types_order_trans(s: Seq<TypeV>, t: Seq<TypeV>, u: Seq<TypeV>)
    requires
        types_order(s, t) <= 0,
        types_order(t, u) <= 0,
    ensures
        types_order(s, u) <= 0,
    decreases s,
{
    if s.len() > 0 && t.len() > 0 && u.len() > 0 {
        let c1 = type_order(s[0], t[0]);
        let c2 = type_order(t[0], u[0]);
        lemma_type_order_trans(s[0], t[0], u[0]);
        let sr = s.subrange(1, s.len() as int);
        let tr = t.subrange(1, t.len() as int);
        let ur = u.subrange(1, u.len() as int);
        if c1 == 0 && c2 == 0 {
            lemma_type_order_eq(s[0], t[0]);
            lemma_type_order_eq(t[0], u[0]);
            lemma_types_order_trans(sr, tr, ur);
        } else if type_order(s[0], u[0]) == 0 {
            lemma_type_order_eq(s[0], u[0]);
            lemma_type_order_antisym(s[0], t[0]);
        }
    }
}

/// The larger of two types is at least each of them, and is one of them.
pub proof fn lemma_type_max(a: TypeV, b: TypeV)
    ensures
        type_order(spec_type_max(a, b), a) >= 0,
        type_order(spec_type_max(a, b), b) >= 0,
        spec_type_max(a, b) == a || spec_type_max(a, b) == b,
{
    lemma_type_order_refl(a);
    lemma_type_order_refl(b);
    lemma_type_order_antisym(a, b);
}

/// The unsigned range of a type of number literals.
pub open spec fn unsigned_max(t: TypeV) -> nat {
    match t {
        TypeV::Char => 0xff,
        TypeV::Short => 0xffff,
        TypeV::Int => 0xffff_ffff,
        _ => 0xffff_ffff_ffff_ffff,
    }
}

/// The type of a number literal holds it, and a larger literal never gets a
/// narrower type.
pub proof fn lemma_literal_type(n: u128, m: u128)
    requires
        n <= m <= u64::MAX,
    ensures
        n <= unsigned_max(spec_guess_lit_nb_type(n)),
        type_order(spec_guess_lit_nb_type(n), spec_guess_lit_nb_type(m)) <= 0,
{
}

/// Why the type of an expression cannot be found.
#[derive(Debug, Clone, Copy, PartialEq, Eq, Structural)]
pub enum TypeError {
    /// A name that is not in the table.
    UndefinedVariable,
    /// A call of something whose type is not a function type.
    NotAFunction,
    /// A number literal that does not fit in 64 bits.
    LiteralTooBig,
}

/// The type of an expression under the variable table `vars`: a literal has the
/// narrowest type that holds it, a variable its declared type, a binary operation
/// the widest of its operands' types and `int`, and a call the return type of the
/// function called.
pub open spec fn spec_get_type(e: ExprV, vars: Map<Seq<char>, VarV>) -> Result<TypeV, TypeError>
    decreases e,
{
    match e {
        ExprV::Number(nb) => if nb > u64::MAX {
            Err(TypeError::LiteralTooBig)
        } else {
            Ok(spec_guess_lit_nb_type(nb))
        },
        ExprV::VarUse(ident) => if vars.contains_key(ident) {
            Ok(vars[ident].var_type)
        } else {
            Err(TypeError::UndefinedVariable)
        },
        ExprV::BinOp { lhs, op: _, rhs } => match spec_get_type(*lhs, vars) {
            Err(err) => Err(err),
            Ok(lhs_type) => match spec_get_type(*rhs, vars) {
                Err(err) => Err(err),
                Ok(rhs_type) => Ok(spec_type_max(spec_type_max(rhs_type, lhs_type), TypeV::Int)),
            },
        },
        ExprV::FunctionCall { fun, args: _ } => match spec_get_type(*fun, vars) {
            Err(err) => Err(err),
            Ok(TypeV::Function(f)) => Ok(f.ret_type),
            Ok(_) => Err(TypeError::NotAFunction),
        },
    }
}

/// The type of a number literal is the narrowest of `char`, `short`, `int`, `long`
/// whose unsigned range holds it: its range holds the literal and the range of
/// each narrower one does not (widths of 8, 16, 32 and 64 bits).
pub proof fn lemma_literal_type_narrowest(n: u128)
    requires
        n <= u64::MAX,
    ensures
        spec_guess_lit_nb_type(n) == TypeV::Char <==> n < 0x100,
        spec_guess_lit_nb_type(n) == TypeV::Short <==> 0x100 <= n < 0x1_0000,
        spec_guess_lit_nb_type(n) == TypeV::Int <==> 0x1_0000 <= n < 0x1_0000_0000,
        spec_guess_lit_nb_type(n) == TypeV::Long <==> 0x1_0000_0000 <= n,
{
}

/// A literal above 64 bits has no type; a variable has its declared type, or is
/// undefined; a call has the return type of the function called, and calling
/// something that is not a function is an error.
pub proof fn lemma_get_type_leaves(e: ExprV, vars: Map<Seq<char>, VarV>)
    ensures
        e matches ExprV::Number(n) ==> (n > u64::MAX <==> spec_get_type(e, vars) is Err),
        e matches ExprV::VarUse(name) ==> spec_get_type(e, vars) == if vars.contains_key(name) {
            Ok::<TypeV, TypeError>(vars[name].var_type)
        } else {
            Err(TypeError::UndefinedVariable)
        },
        e matches ExprV::FunctionCall { fun, args } ==> (spec_get_type(*fun, vars) matches Ok(
            TypeV::Function(f),
        ) ==> spec_get_type(e, vars) == Ok::<TypeV, TypeError>(f.ret_type)),
        e matches ExprV::FunctionCall { fun, args } ==> (spec_get_type(*fun, vars) matches Ok(t) && !(
        t is Function) ==> spec_get_type(e, vars) == Err::<TypeV, TypeError>(TypeError::NotAFunction)),
{
}

/// A binary operation has a type exactly when both its operands have one; when one
/// does not, the operation has the first operand's error.
pub proof fn lemma_binop_typed(lhs: ExprV, op: BinOp, rhs: ExprV, vars: Map<Seq<char>, VarV>)
    ensures
        spec_get_type(ExprV::BinOp { lhs: Box::new(lhs), op, rhs: Box::new(rhs) }, vars) is Ok
            <==> (spec_get_type(lhs, vars) is Ok && spec_get_type(rhs, vars) is Ok),
        spec_get_type(lhs, vars) matches Err(e) ==> spec_get_type(
            ExprV::BinOp { lhs: Box::new(lhs), op, rhs: Box::new(rhs) },
            vars,
        ) == Err::<TypeV, TypeError>(e),
        spec_get_type(lhs, vars) is Ok ==> (spec_get_type(rhs, vars) matches Err(e)
            ==> spec_get_type(ExprV::BinOp { lhs: Box::new(lhs), op, rhs: Box::new(rhs) }, vars)
            == Err::<TypeV, TypeError>(e)),
{
}

/// The type of a binary operation is the widest of its operands' types and `int`:
/// it is one of them, and at least each of them.
pub proof fn lemma_binop_type_widest(lhs: ExprV, op: BinOp, rhs: ExprV, vars: Map<Seq<char>, VarV>)
    ensures
        spec_get_type(ExprV::BinOp { lhs: Box::new(lhs), op, rhs: Box::new(rhs) }, vars) matches Ok(t)
            ==> {
            &&& spec_get_type(lhs, vars) matches Ok(lt)
            &&& spec_get_type(rhs, vars) matches Ok(rt)
            &&& type_order(t, TypeV::Int) >= 0
            &&& type_order(t, lt) >= 0
            &&& type_order(t, rt) >= 0
            &&& (t == lt || t == rt || t == TypeV::Int)
        },
{
    if let Ok(lt) = spec_get_type(lhs, vars) {
        if let Ok(rt) = spec_get_type(rhs, vars) {
            let m = spec_type_max(rt, lt);
            let t = spec_type_max(m, TypeV::Int);
            lemma_type_max(rt, lt);
            lemma_type_max(m, TypeV::Int);
            lemma_type_order_antisym(t, m);
            lemma_type_order_antisym(m, lt);
            lemma_type_order_antisym(m, rt);
            lemma_type_order_trans(lt, m, t);
            lemma_type_order_trans(rt, m, t);
            lemma_type_order_antisym(lt, t);
            lemma_type_order_antisym(rt, t);
        }
    }
}

pub open spec fn type_res(r: Result<Type, TypeError>) -> Result<TypeV, TypeError> {
    match r {
        Ok(t) => Ok(t@),
        Err(e) => Err(e),
    }
}

/// The type of a binary operation.
fn get_binop_type(lhs: &ExprAst, rhs: &ExprAst, vars: &FxHashMap<String, Var>) -> (r: Result<
    Type,
    TypeError,
>)
    ensures
        type_res(r) == (match spec_get_type(lhs@, var_table(*vars)) {
            Err(err) => Err(err),
            Ok(lhs_type) => match spec_get_type(rhs@, var_table(*vars)) {
                Err(err) => Err(err),
                Ok(rhs_type) => Ok(spec_type_max(spec_type_max(rhs_type, lhs_type), TypeV::Int)),
            },
        }),
    decreases 1 + if expr_height(lhs@) >= expr_height(rhs@) {
        expr_height(lhs@)
    } else {
        expr_height(rhs@)
    }, 0nat,
{
    let lhs_type = match lhs.get_type(vars) {
        Ok(t) => t,
        Err(e) => {
            return Err(e);
        },
    };
    let rhs_type = match rhs.get_type(vars) {
        Ok(t) => t,
        Err(e) => {
            return Err(e);
        },
    };
    let max_type_size = type_max(rhs_type, lhs_type);
    Ok(type_max(max_type_size, Type::Int))
}

/// The return type of the function called.
fn get_function_call_type(fun: &ExprAst, vars: &FxHashMap<String, Var>) -> (r: Result<
    Type,
    TypeError,
>)
    ensures
        type_res(r) == (match spec_get_type(fun@, var_table(*vars)) {
            Err(err) => Err(err),
            Ok(TypeV::Function(f)) => Ok(f.ret_type),
            Ok(_) => Err(TypeError::NotAFunction),
        }),
    decreases expr_height(fun@) + 1, 0nat,
{
    let t = match fun.get_type(vars) {
        Ok(t) => t,
        Err(e) => {
            return Err(e);
        },
    };
    match t.into_function_type() {
        Some(f) => Ok(f.ret_type),
        None => Err(TypeError::NotAFunction),
    }
}

impl ExprAst {
    /// The type of this expression under the variable table `vars`.
    pub fn get_type(&self, vars: &FxHashMap<String, Var>) -> (r: Result<Type, TypeError>)
        ensures
            type_res(r) == spec_get_type(self@, var_table(*vars)),
        decreases expr_height(self@), 1nat,
    {
        match self {
            ExprAst::Number(nb) => {
                if *nb > 0xffff_ffff_ffff_ffffu128 {
                    Err(TypeError::LiteralTooBig)
                } else {
                    Ok(guess_lit_nb_type(*nb))
                }
            },
            ExprAst::VarUse(ident) => match var_table_get(vars, ident.as_str()) {
                Some(v) => Ok(v.var_type.duplicate()),
                None => Err(TypeError::UndefinedVariable),
            },
            ExprAst::BinOp { lhs, op: _, rhs } => get_binop_type(lhs, rhs, vars),
            ExprAst::FunctionCall { fun, args: _ } => get_function_call_type(fun, vars),
        }
    }
}

} // verus!
