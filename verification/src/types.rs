//! The type system: registries of built-in and user types, type validity,
//! and structural type inference for expressions.

use vstd::prelude::*;
use crate::ast::{ComputedField, Expression, FieldDef, Modifier, PrimitiveType, Spec, TypeExpr};
use crate::{ParseError, ParseResult};

verus! {

/// The mathematical model of a type expression.
#[verifier::ext_equal]
pub enum TyModel {
    Prim(PrimitiveType),
    Generic(Seq<char>, Seq<TyModel>),
    Ref(Seq<char>),
}

impl TypeExpr {
    /// The model of this type expression.
    pub open spec fn model(self) -> TyModel
        decreases self,
    {
        match self {
            TypeExpr::Primitive(p) => TyModel::Prim(p),
            TypeExpr::Generic { name, args } => TyModel::Generic(name@, ty_models(args@)),
            TypeExpr::Reference(n) => TyModel::Ref(n@),
        }
    }

    /// Structural copy: the copy has the same model as the original.
    pub fn duplicate(&self) -> (r: TypeExpr)
        ensures
            r.model() == self.model(),
        decreases self,
    {
        match self {
            TypeExpr::Primitive(p) => TypeExpr::Primitive(*p),
            TypeExpr::Reference(n) => TypeExpr::Reference(n.clone()),
            TypeExpr::Generic { name, args } => {
                let mut out: Vec<TypeExpr> = Vec::new();
                let mut i: usize = 0;
                while i < args.len()
                    invariant
                        i <= args.len(),
                        self is Generic && self->Generic_args == *args,
                        out@.len() == i as int,
                        forall|j: int| 0 <= j < i as int ==> out@[j].model() == args@[j].model(),
                    decreases args.len() - i,
                {
                    let d = args[i].duplicate();
                    out.push(d);
                    i = i + 1;
                }
                let result = TypeExpr::Generic { name: name.clone(), args: out };
                proof {
                    assert forall|j: int| 0 <= j < out@.len() implies ty_models(out@)[j]
                        == ty_models(args@)[j] by {}
                    assert(ty_models(out@) =~= ty_models(args@));
                }
                result
            },
        }
    }
}

/// The models of a list of type expressions, in order.
pub open spec fn ty_models(s: Seq<TypeExpr>) -> Seq<TyModel>
    decreases s,
{
    Seq::new(
        s.len(),
        |i: int|
            if 0 <= i < s.len() {
                s[i].model()
            } else {
                TyModel::Prim(PrimitiveType::Null)
            },
    )
}

/// The models of the entries of a name-to-type table, in order.
pub open spec fn tenv_model(s: Seq<(String, TypeExpr)>) -> Seq<(Seq<char>, TyModel)> {
    Seq::new(
        s.len(),
        |i: int|
            if 0 <= i < s.len() {
                (s[i].0@, s[i].1.model())
            } else {
                (Seq::empty(), TyModel::Prim(PrimitiveType::Null))
            },
    )
}

/// The value bound to a key in an association list where later entries
/// replace earlier ones.
pub open spec fn assoc_last<V>(s: Seq<(Seq<char>, V)>, key: Seq<char>) -> Option<V>
    decreases s.len(),
{
    if s.len() == 0 {
        None
    } else if s.last().0 == key {
        Some(s.last().1)
    } else {
        assoc_last(s.drop_last(), key)
    }
}

/// Find the latest entry with the given name in a name-to-type table.
fn lookup_type<'a>(entries: &'a Vec<(String, TypeExpr)>, name: &String) -> (r: Option<
    &'a TypeExpr,
>)
    ensures
        match r {
            Some(t) => assoc_last(tenv_model(entries@), name@) == Some(t.model()),
            None => assoc_last(tenv_model(entries@), name@) is None,
        },
{
    let ghost m = tenv_model(entries@);
    let mut k = entries.len();
    proof {
        assert(m.take(k as int) =~= m);
    }
    while k > 0
        invariant
            k <= entries.len(),
            m == tenv_model(entries@),
            m.len() == entries@.len(),
            assoc_last(m, name@) == assoc_last(m.take(k as int), name@),
        decreases k,
    {
        k = k - 1;
        if entries[k].0 == *name {
            proof {
                assert(m.take(k as int + 1).last() == m[k as int]);
            }
            return Some(&entries[k].1);
        }
        proof {
            assert(m.take(k as int + 1).last() == m[k as int]);
            assert(m.take(k as int + 1).drop_last() =~= m.take(k as int));
        }
    }
    proof {
        assert(m.take(0) =~= Seq::<(Seq<char>, TyModel)>::empty());
    }
    None
}

/// Validity of a type under the two registries: primitives always, a
/// reference when its name is registered anywhere, a generic when its name
/// is a built-in and every argument is itself valid.
pub open spec fn spec_valid_type(
    user: Seq<(Seq<char>, TyModel)>,
    builtin: Seq<(Seq<char>, TyModel)>,
    t: TyModel,
) -> bool
    decreases t,
{
    match t {
        TyModel::Prim(_) => true,
        TyModel::Ref(n) => assoc_last(user, n) is Some || assoc_last(builtin, n) is Some,
        TyModel::Generic(n, args) => assoc_last(builtin, n) is Some && (forall|i: int|
            0 <= i < args.len() ==> spec_valid_type(user, builtin, #[trigger] args[i])),
    }
}

/// Compatibility for assignment and default values: exact equality, plus
/// the one widening of `Int` into a `Float` position.
pub open spec fn spec_compatible(src: TyModel, tgt: TyModel) -> bool {
    src == tgt || (src == TyModel::Prim(PrimitiveType::Int) && tgt == TyModel::Prim(
        PrimitiveType::Float,
    ))
}

/// The type checker: a registry of built-in types seeded at construction
/// and a registry of user-defined types.
pub struct TypeChecker {
    user_types: Vec<(String, TypeExpr)>,
    builtin_types: Vec<(String, TypeExpr)>,
}

impl TypeChecker {
    /// The model of the user-type registry.
    pub closed spec fn user_model(self) -> Seq<(Seq<char>, TyModel)> {
        tenv_model(self.user_types@)
    }

    /// The model of the built-in registry.
    pub closed spec fn builtin_model(self) -> Seq<(Seq<char>, TyModel)> {
        tenv_model(self.builtin_types@)
    }

    /// The built-in registry every checker starts from: representative
    /// `list` and `map` instantiations.
    pub open spec fn spec_builtins() -> Seq<(Seq<char>, TyModel)> {
        seq![
            (
                "list"@,
                TyModel::Generic("list"@, seq![TyModel::Prim(PrimitiveType::String)]),
            ),
            (
                "map"@,
                TyModel::Generic(
                    "map"@,
                    seq![
                        TyModel::Prim(PrimitiveType::String),
                        TyModel::Prim(PrimitiveType::String),
                    ],
                ),
            ),
        ]
    }

    /// Create a type checker with the built-in types registered and no
    /// user types.
    pub fn new() -> (r: TypeChecker)
        ensures
            r.user_model() == Seq::<(Seq<char>, TyModel)>::empty(),
            r.builtin_model() == TypeChecker::spec_builtins(),
    {
        proof {
            reveal_strlit("list");
            reveal_strlit("map");
            reveal_strlit("string");
        }
        let mut builtin_types: Vec<(String, TypeExpr)> = Vec::new();
        let mut list_args: Vec<TypeExpr> = Vec::new();
        list_args.push(TypeExpr::Primitive(PrimitiveType::String));
        builtin_types.push(
            (String::from_str("list"), TypeExpr::Generic {
                name: String::from_str("list"),
                args: list_args,
            }),
        );
        let mut map_args: Vec<TypeExpr> = Vec::new();
        map_args.push(TypeExpr::Primitive(PrimitiveType::String));
        map_args.push(TypeExpr::Primitive(PrimitiveType::String));
        builtin_types.push(
            (String::from_str("map"), TypeExpr::Generic {
                name: String::from_str("map"),
                args: map_args,
            }),
        );
        let r = TypeChecker { user_types: Vec::new(), builtin_types };
        proof {
            assert(r.user_model() =~= Seq::<(Seq<char>, TyModel)>::empty());
            let bt = r.builtin_types@;
            assert(ty_models(bt[0].1->Generic_args@).len() == 1);
            assert(ty_models(bt[0].1->Generic_args@)[0] == TyModel::Prim(PrimitiveType::String));
            assert(ty_models(bt[0].1->Generic_args@) =~= seq![TyModel::Prim(PrimitiveType::String)]);
            assert(ty_models(bt[1].1->Generic_args@).len() == 2);
            assert(ty_models(bt[1].1->Generic_args@)[0] == TyModel::Prim(PrimitiveType::String));
            assert(ty_models(bt[1].1->Generic_args@)[1] == TyModel::Prim(PrimitiveType::String));
            assert(ty_models(bt[1].1->Generic_args@) =~= seq![
                TyModel::Prim(PrimitiveType::String),
                TyModel::Prim(PrimitiveType::String),
            ]);
            assert(r.builtin_model()[0].1 =~~= TypeChecker::spec_builtins()[0].1);
            assert(r.builtin_model()[1].1 =~~= TypeChecker::spec_builtins()[1].1);
            assert(r.builtin_model() =~~= TypeChecker::spec_builtins());
        }
        r
    }

    /// Whether a type expression is valid under the current registries.
    pub fn is_valid_type(&self, type_expr: &TypeExpr) -> (r: bool)
        ensures
            r == spec_valid_type(self.user_model(), self.builtin_model(), type_expr.model()),
        decreases type_expr,
    {
        match type_expr {
            TypeExpr::Primitive(_) => true,
            TypeExpr::Reference(name) => {
                let in_user = lookup_type(&self.user_types, name);
                match in_user {
                    Some(_) => true,
                    None => {
                        let in_builtin = lookup_type(&self.builtin_types, name);
                        matches!(in_builtin, Some(_))
                    },
                }
            },
            TypeExpr::Generic { name, args } => {
                let in_builtin = lookup_type(&self.builtin_types, name);
                if matches!(in_builtin, None) {
                    return false;
                }
                let mut i: usize = 0;
                while i < args.len()
                    invariant
                        i <= args.len(),
                        type_expr is Generic && type_expr->Generic_args == *args,
                        forall|j: int| 0 <= j < i as int ==> spec_valid_type(
                            self.user_model(),
                            self.builtin_model(),
                            (#[trigger] args@[j]).model(),
                        ),
                    decreases args.len() - i,
                {
                    let ok = self.is_valid_type(&args[i]);
                    if !ok {
                        proof {
                            assert(ty_models(args@)[i as int] == args@[i as int].model());
                            assert(!spec_valid_type(
                                self.user_model(),
                                self.builtin_model(),
                                type_expr.model()->Generic_1[i as int],
                            ));
                        }
                        return false;
                    }
                    i = i + 1;
                }
                proof {
                    let am = ty_models(args@);
                    assert forall|j: int| 0 <= j < am.len() implies spec_valid_type(
                        self.user_model(),
                        self.builtin_model(),
                        #[trigger] am[j],
                    ) by {
                        assert(am[j] == args@[j].model());
                    }
                }
                true
            },
        }
    }

    /// Register a user-defined type: refused when the name collides with a
    /// built-in or the definition is invalid under the current registries;
    /// otherwise the definition is added under its name.
    pub fn register_type(&mut self, name: String, type_expr: TypeExpr) -> (r: ParseResult<()>)
        ensures
            final(self).builtin_model() == old(self).builtin_model(),
            match r {
                Ok(_) => assoc_last(old(self).builtin_model(), name@) is None && spec_valid_type(
                    old(self).user_model(),
                    old(self).builtin_model(),
                    type_expr.model(),
                ) && final(self).user_model() == old(self).user_model().push(
                    (name@, type_expr.model()),
                ),
                Err(e) => (assoc_last(old(self).builtin_model(), name@) is Some
                    || !spec_valid_type(
                    old(self).user_model(),
                    old(self).builtin_model(),
                    type_expr.model(),
                )) && final(self).user_model() == old(self).user_model() && e is Type,
            },
    {
        proof {
            reveal_strlit("Cannot redefine built-in type: ");
            reveal_strlit("Invalid type definition for: ");
        }
        let collides = lookup_type(&self.builtin_types, &name);
        if matches!(collides, Some(_)) {
            let mut m = String::from_str("Cannot redefine built-in type: ");
            m.append(name.as_str());
            return Err(ParseError::Type(m));
        }
        if !self.is_valid_type(&type_expr) {
            let mut m = String::from_str("Invalid type definition for: ");
            m.append(name.as_str());
            return Err(ParseError::Type(m));
        }
        let ghost before = self.user_model();
        self.user_types.push((name, type_expr));
        proof {
            assert(self.user_model() =~= before.push(
                (self.user_types@.last().0@, self.user_types@.last().1.model()),
            ));
        }
        Ok(())
    }
}


/// The ghost form of a function signature.
pub struct SigModel {
    pub params: Seq<(Seq<char>, TyModel)>,
    pub ret: TyModel,
}

/// A function signature usable during inference: named parameters and the
/// return type.
pub struct FunctionSignature {
    pub parameters: Vec<(String, TypeExpr)>,
    pub return_type: TypeExpr,
}

impl FunctionSignature {
    /// The model of this signature.
    pub open spec fn model(self) -> SigModel {
        SigModel { params: tenv_model(self.parameters@), ret: self.return_type.model() }
    }
}

/// The models of the entries of a name-to-signature table, in order.
pub open spec fn fenv_model(s: Seq<(String, FunctionSignature)>) -> Seq<(Seq<char>, SigModel)> {
    Seq::new(
        s.len(),
        |i: int|
            if 0 <= i < s.len() {
                (s[i].0@, s[i].1.model())
            } else {
                (
                    Seq::empty(),
                    SigModel { params: Seq::empty(), ret: TyModel::Prim(PrimitiveType::Null) },
                )
            },
    )
}

/// The structural type of an expression under variable and function
/// tables: `None` is an inference failure.
pub open spec fn spec_type_of(
    e: Expression,
    vars: Seq<(Seq<char>, TyModel)>,
    funcs: Seq<(Seq<char>, SigModel)>,
) -> Option<TyModel>
    decreases e,
{
    match e {
        Expression::StringLiteral(_) => Some(TyModel::Prim(PrimitiveType::String)),
        Expression::Number(_) => Some(TyModel::Prim(PrimitiveType::Float)),
        Expression::Boolean(_) => Some(TyModel::Prim(PrimitiveType::Bool)),
        Expression::Identifier(n) => assoc_last(vars, n@),
        Expression::FunctionCall { object, method, arguments } => match assoc_last(
            funcs,
            object@ + "."@ + method@,
        ) {
            Some(sig) => Some(sig.ret),
            None => Some(TyModel::Prim(PrimitiveType::String)),
        },
        Expression::StringTemplate { parts } => Some(TyModel::Prim(PrimitiveType::String)),
        Expression::Add(l, r) => spec_arith(
            spec_type_of(*l, vars, funcs),
            spec_type_of(*r, vars, funcs),
        ),
        Expression::Subtract(l, r) => spec_arith(
            spec_type_of(*l, vars, funcs),
            spec_type_of(*r, vars, funcs),
        ),
        Expression::Multiply(l, r) => spec_arith(
            spec_type_of(*l, vars, funcs),
            spec_type_of(*r, vars, funcs),
        ),
        Expression::Divide(l, r) => spec_arith(
            spec_type_of(*l, vars, funcs),
            spec_type_of(*r, vars, funcs),
        ),
        Expression::Modulo(l, r) => spec_arith(
            spec_type_of(*l, vars, funcs),
            spec_type_of(*r, vars, funcs),
        ),
        Expression::Equal(l, r) => spec_cmp(
            spec_type_of(*l, vars, funcs),
            spec_type_of(*r, vars, funcs),
        ),
        Expression::NotEqual(l, r) => spec_cmp(
            spec_type_of(*l, vars, funcs),
            spec_type_of(*r, vars, funcs),
        ),
        Expression::LessThan(l, r) => spec_cmp(
            spec_type_of(*l, vars, funcs),
            spec_type_of(*r, vars, funcs),
        ),
        Expression::LessThanOrEqual(l, r) => spec_cmp(
            spec_type_of(*l, vars, funcs),
            spec_type_of(*r, vars, funcs),
        ),
        Expression::GreaterThan(l, r) => spec_cmp(
            spec_type_of(*l, vars, funcs),
            spec_type_of(*r, vars, funcs),
        ),
        Expression::GreaterThanOrEqual(l, r) => spec_cmp(
            spec_type_of(*l, vars, funcs),
            spec_type_of(*r, vars, funcs),
        ),
        Expression::And(l, r) => spec_logic(
            spec_type_of(*l, vars, funcs),
            spec_type_of(*r, vars, funcs),
        ),
        Expression::Or(l, r) => spec_logic(
            spec_type_of(*l, vars, funcs),
            spec_type_of(*r, vars, funcs),
        ),
        Expression::Not(inner) => match spec_type_of(*inner, vars, funcs) {
            Some(TyModel::Prim(PrimitiveType::Bool)) => Some(TyModel::Prim(PrimitiveType::Bool)),
            _ => None,
        },
        Expression::Conditional { condition, if_true, if_false } => match spec_type_of(
            *condition,
            vars,
            funcs,
        ) {
            Some(TyModel::Prim(PrimitiveType::Bool)) => match (
                spec_type_of(*if_true, vars, funcs),
                spec_type_of(*if_false, vars, funcs),
            ) {
                (Some(t), Some(_)) => Some(t),
                _ => None,
            },
            _ => None,
        },
        Expression::ArrayAccess(arr, idx) => match (
            spec_type_of(*arr, vars, funcs),
            spec_type_of(*idx, vars, funcs),
        ) {
            (Some(at), Some(it)) => if it == TyModel::Prim(PrimitiveType::Int) {
                match at {
                    TyModel::Generic(n, args) => if n == "Array"@ && args.len() == 1 {
                        Some(args[0])
                    } else {
                        None
                    },
                    _ => None,
                }
            } else {
                None
            },
            _ => None,
        },
        Expression::PropertyAccess(obj, _) => match spec_type_of(*obj, vars, funcs) {
            Some(_) => Some(TyModel::Prim(PrimitiveType::String)),
            None => None,
        },
    }
}

/// Arithmetic inference: `Int` only from two `Int` operands, `Float` when
/// either operand is `Float`, failure otherwise.
pub open spec fn spec_arith(l: Option<TyModel>, r: Option<TyModel>) -> Option<TyModel> {
    match (l, r) {
        (Some(lt), Some(rt)) => if lt == TyModel::Prim(PrimitiveType::Int) && rt == TyModel::Prim(
            PrimitiveType::Int,
        ) {
            Some(TyModel::Prim(PrimitiveType::Int))
        } else if lt == TyModel::Prim(PrimitiveType::Float) || rt == TyModel::Prim(
            PrimitiveType::Float,
        ) {
            Some(TyModel::Prim(PrimitiveType::Float))
        } else {
            None
        },
        _ => None,
    }
}

/// Comparison inference: both operands must infer; the result is `Bool`
/// without an operand-compatibility requirement.
pub open spec fn spec_cmp(l: Option<TyModel>, r: Option<TyModel>) -> Option<TyModel> {
    match (l, r) {
        (Some(_), Some(_)) => Some(TyModel::Prim(PrimitiveType::Bool)),
        _ => None,
    }
}

/// Logical inference: both operands must be `Bool`.
pub open spec fn spec_logic(l: Option<TyModel>, r: Option<TyModel>) -> Option<TyModel> {
    match (l, r) {
        (Some(lt), Some(rt)) => if lt == TyModel::Prim(PrimitiveType::Bool) && rt == TyModel::Prim(
            PrimitiveType::Bool,
        ) {
            Some(TyModel::Prim(PrimitiveType::Bool))
        } else {
            None
        },
        _ => None,
    }
}

/// A validity context for expression inference: variables in scope and
/// known function signatures.
pub struct TypeContext {
    variables: Vec<(String, TypeExpr)>,
    functions: Vec<(String, FunctionSignature)>,
}

impl TypeContext {
    /// The model of the variable table.
    pub closed spec fn vars_model(self) -> Seq<(Seq<char>, TyModel)> {
        tenv_model(self.variables@)
    }

    /// The model of the function table.
    pub closed spec fn funcs_model(self) -> Seq<(Seq<char>, SigModel)> {
        fenv_model(self.functions@)
    }

    /// Create an empty context.
    pub fn new() -> (r: TypeContext)
        ensures
            r.vars_model() == Seq::<(Seq<char>, TyModel)>::empty(),
            r.funcs_model() == Seq::<(Seq<char>, SigModel)>::empty(),
    {
        let r = TypeContext { variables: Vec::new(), functions: Vec::new() };
        proof {
            assert(r.vars_model() =~= Seq::<(Seq<char>, TyModel)>::empty());
            assert(r.funcs_model() =~= Seq::<(Seq<char>, SigModel)>::empty());
        }
        r
    }

    /// Bind a variable to a type; a later binding replaces an earlier one.
    pub fn add_variable(&mut self, name: String, type_expr: TypeExpr)
        ensures
            final(self).vars_model() == old(self).vars_model().push((name@, type_expr.model())),
            final(self).funcs_model() == old(self).funcs_model(),
    {
        let ghost before = self.vars_model();
        self.variables.push((name, type_expr));
        proof {
            assert(self.vars_model() =~= before.push(
                (self.variables@.last().0@, self.variables@.last().1.model()),
            ));
            assert(self.funcs_model() =~= old(self).funcs_model());
        }
    }

    /// The type bound to a variable, if any.
    pub fn get_variable_type(&self, name: &String) -> (r: Option<&TypeExpr>)
        ensures
            match r {
                Some(t) => assoc_last(self.vars_model(), name@) == Some(t.model()),
                None => assoc_last(self.vars_model(), name@) is None,
            },
    {
        lookup_type(&self.variables, name)
    }

    /// Record a function signature; a later entry replaces an earlier one.
    pub fn add_function(&mut self, name: String, signature: FunctionSignature)
        ensures
            final(self).funcs_model() == old(self).funcs_model().push((name@, signature.model())),
            final(self).vars_model() == old(self).vars_model(),
    {
        let ghost before = self.funcs_model();
        self.functions.push((name, signature));
        proof {
            assert(self.funcs_model() =~= before.push(
                (self.functions@.last().0@, self.functions@.last().1.model()),
            ));
            assert(self.vars_model() =~= old(self).vars_model());
        }
    }

    /// The signature recorded under a name, if any.
    pub fn get_function(&self, name: &String) -> (r: Option<&FunctionSignature>)
        ensures
            match r {
                Some(s) => assoc_last(self.funcs_model(), name@) == Some(s.model()),
                None => assoc_last(self.funcs_model(), name@) is None,
            },
    {
        let ghost m = fenv_model(self.functions@);
        let entries = &self.functions;
        let mut k = entries.len();
        proof {
            assert(m.take(k as int) =~= m);
        }
        while k > 0
            invariant
                k <= entries.len(),
                entries == self.functions,
                m == fenv_model(entries@),
                m.len() == entries@.len(),
                assoc_last(m, name@) == assoc_last(m.take(k as int), name@),
            decreases k,
        {
            k = k - 1;
            if entries[k].0 == *name {
                proof {
                    assert(m.take(k as int + 1).last() == m[k as int]);
                }
                return Some(&entries[k].1);
            }
            proof {
                assert(m.take(k as int + 1).last() == m[k as int]);
                assert(m.take(k as int + 1).drop_last() =~= m.take(k as int));
            }
        }
        proof {
            assert(m.take(0) =~= Seq::<(Seq<char>, SigModel)>::empty());
        }
        None
    }
}


/// Whether two type expressions have the same model.
fn ty_equal(a: &TypeExpr, b: &TypeExpr) -> (r: bool)
    ensures
        r == (a.model() == b.model()),
    decreases a,
{
    match (a, b) {
        (TypeExpr::Primitive(p), TypeExpr::Primitive(q)) => p.eq_prim(q),
        (TypeExpr::Reference(n), TypeExpr::Reference(m)) => *n == *m,
        (
            TypeExpr::Generic { name: an, args: aa },
            TypeExpr::Generic { name: bn, args: ba },
        ) => {
            if !(*an == *bn) {
                return false;
            }
            if aa.len() != ba.len() {
                proof {
                    assert(ty_models(aa@).len() != ty_models(ba@).len());
                }
                return false;
            }
            let mut i: usize = 0;
            while i < aa.len()
                invariant
                    i <= aa.len(),
                    aa@.len() == ba@.len(),
                    a is Generic && a->Generic_args == *aa,
                    b is Generic && b->Generic_args == *ba,
                    an@ == bn@,
                    forall|j: int| 0 <= j < i as int ==> (#[trigger] aa@[j]).model()
                        == ba@[j].model(),
                decreases aa.len() - i,
            {
                let eq = ty_equal(&aa[i], &ba[i]);
                if !eq {
                    proof {
                        assert(ty_models(aa@)[i as int] == aa@[i as int].model());
                        assert(ty_models(ba@)[i as int] == ba@[i as int].model());
                    }
                    return false;
                }
                i = i + 1;
            }
            proof {
                assert forall|j: int| 0 <= j < ty_models(aa@).len() implies ty_models(aa@)[j]
                    == ty_models(ba@)[j] by {}
                assert(ty_models(aa@) =~= ty_models(ba@));
            }
            true
        },
        _ => false,
    }
}

impl PrimitiveType {
    /// Whether two primitive types are the same.
    pub fn eq_prim(&self, other: &PrimitiveType) -> (r: bool)
        ensures
            r == (self == other),
    {
        match (self, other) {
            (PrimitiveType::String, PrimitiveType::String) => true,
            (PrimitiveType::Int, PrimitiveType::Int) => true,
            (PrimitiveType::Float, PrimitiveType::Float) => true,
            (PrimitiveType::Bool, PrimitiveType::Bool) => true,
            (PrimitiveType::Null, PrimitiveType::Null) => true,
            _ => false,
        }
    }
}

/// Whether a modifier is acceptable on a field of the given type: only a
/// default value constrains anything, and its expression must infer, in an
/// empty context, to a type compatible with the field's.
pub open spec fn spec_modifier_ok(m: Modifier, field_ty: TyModel) -> bool {
    match m {
        Modifier::Default(e) => match spec_type_of(
            e,
            Seq::<(Seq<char>, TyModel)>::empty(),
            Seq::<(Seq<char>, SigModel)>::empty(),
        ) {
            Some(t) => spec_compatible(t, field_ty),
            None => false,
        },
        _ => true,
    }
}

/// Whether a field definition is acceptable under the registries: its type
/// is valid and every modifier is acceptable.
pub open spec fn spec_field_ok(
    user: Seq<(Seq<char>, TyModel)>,
    builtin: Seq<(Seq<char>, TyModel)>,
    f: FieldDef,
) -> bool {
    spec_valid_type(user, builtin, f.type_expr.model()) && (forall|k: int|
        0 <= k < f.modifiers@.len() ==> spec_modifier_ok(
            #[trigger] f.modifiers@[k],
            f.type_expr.model(),
        ))
}

/// The user registry after registering a run of type definitions, and
/// whether every one of them registered: registration stops at the first
/// collision with a built-in or invalid definition.
pub open spec fn spec_register_all(
    user: Seq<(Seq<char>, TyModel)>,
    builtin: Seq<(Seq<char>, TyModel)>,
    tds: Seq<crate::ast::TypeDef>,
    i: int,
) -> (Seq<(Seq<char>, TyModel)>, bool)
    decreases tds.len() - i,
{
    if i < 0 || i >= tds.len() {
        (user, true)
    } else {
        let td = tds[i];
        if assoc_last(builtin, td.name@) is Some || !spec_valid_type(
            user,
            builtin,
            td.type_expr.model(),
        ) {
            (user, false)
        } else {
            spec_register_all(user.push((td.name@, td.type_expr.model())), builtin, tds, i + 1)
        }
    }
}

impl TypeChecker {
    /// Validate a whole specification: register every user type first, so
    /// type definitions can refer to earlier ones, then check every input
    /// field and every computed field. Registration stops at the first bad
    /// definition, leaving the earlier ones registered.
    pub fn validate_spec(&mut self, spec: &Spec) -> (r: ParseResult<()>)
        ensures
            final(self).builtin_model() == old(self).builtin_model(),
            final(self).user_model() == spec_register_all(
                old(self).user_model(),
                old(self).builtin_model(),
                spec.types@,
                0,
            ).0,
            r is Ok <==> ({
                &&& spec_register_all(
                    old(self).user_model(),
                    old(self).builtin_model(),
                    spec.types@,
                    0,
                ).1
                &&& forall|k: int| 0 <= k < spec.inputs@.len() ==> spec_field_ok(
                    final(self).user_model(),
                    final(self).builtin_model(),
                    #[trigger] spec.inputs@[k],
                )
                &&& forall|k: int| 0 <= k < spec.computed@.len() ==> spec_type_of(
                    (#[trigger] spec.computed@[k]).expression,
                    Seq::<(Seq<char>, TyModel)>::empty(),
                    Seq::<(Seq<char>, SigModel)>::empty(),
                ) is Some
            }),
            r matches Err(e) ==> e is Type,
    {
        let ghost user0 = self.user_model();
        let ghost builtin = self.builtin_model();
        let mut i: usize = 0;
        while i < spec.types.len()
            invariant
                i <= spec.types@.len(),
                self.builtin_model() == builtin,
                builtin == old(self).builtin_model(),
                user0 == old(self).user_model(),
                spec_register_all(user0, builtin, spec.types@, 0) == spec_register_all(
                    self.user_model(),
                    builtin,
                    spec.types@,
                    i as int,
                ),
            decreases spec.types@.len() - i,
        {
            let td = &spec.types[i];
            let name = td.name.clone();
            let ty = td.type_expr.duplicate();
            let ghost name_v = name@;
            let ghost ty_m = ty.model();
            let ghost user_i = self.user_model();
            match self.register_type(name, ty) {
                Ok(_) => {
                    proof {
                        assert(name_v == spec.types@[i as int].name@);
                        assert(ty_m == spec.types@[i as int].type_expr.model());
                        assert(spec_register_all(user_i, builtin, spec.types@, i as int)
                            == spec_register_all(
                            user_i.push((name_v, ty_m)),
                            builtin,
                            spec.types@,
                            i as int + 1,
                        ));
                    }
                },
                Err(e) => {
                    proof {
                        assert(name_v == spec.types@[i as int].name@);
                        assert(ty_m == spec.types@[i as int].type_expr.model());
                        assert(spec_register_all(user_i, builtin, spec.types@, i as int) == (
                        user_i,
                        false,
                        ));
                        assert(self.user_model() == spec_register_all(
                            user0,
                            builtin,
                            spec.types@,
                            0,
                        ).0);
                        assert(!spec_register_all(user0, builtin, spec.types@, 0).1);
                    }
                    return Err(e);
                },
            }
            i = i + 1;
        }
        let mut k: usize = 0;
        while k < spec.inputs.len()
            invariant
                k <= spec.inputs@.len(),
                self.builtin_model() == builtin,
                builtin == old(self).builtin_model(),
                user0 == old(self).user_model(),
                self.user_model() == spec_register_all(user0, builtin, spec.types@, 0).0,
                spec_register_all(user0, builtin, spec.types@, 0).1,
                forall|j: int| 0 <= j < k as int ==> spec_field_ok(
                    self.user_model(),
                    builtin,
                    #[trigger] spec.inputs@[j],
                ),
            decreases spec.inputs@.len() - k,
        {
            match self.validate_field(&spec.inputs[k]) {
                Ok(_) => {},
                Err(e) => {
                    proof {
                        assert(!spec_field_ok(
                            self.user_model(),
                            self.builtin_model(),
                            spec.inputs@[k as int],
                        ));
                    }
                    return Err(e);
                },
            }
            k = k + 1;
        }
        let mut c: usize = 0;
        while c < spec.computed.len()
            invariant
                c <= spec.computed@.len(),
                self.builtin_model() == builtin,
                builtin == old(self).builtin_model(),
                user0 == old(self).user_model(),
                self.user_model() == spec_register_all(user0, builtin, spec.types@, 0).0,
                spec_register_all(user0, builtin, spec.types@, 0).1,
                forall|j: int| 0 <= j < spec.inputs@.len() ==> spec_field_ok(
                    self.user_model(),
                    builtin,
                    #[trigger] spec.inputs@[j],
                ),
                forall|j: int| 0 <= j < c as int ==> spec_type_of(
                    (#[trigger] spec.computed@[j]).expression,
                    Seq::<(Seq<char>, TyModel)>::empty(),
                    Seq::<(Seq<char>, SigModel)>::empty(),
                ) is Some,
            decreases spec.computed@.len() - c,
        {
            match self.validate_computed_field(&spec.computed[c]) {
                Ok(_) => {},
                Err(e) => {
                    proof {
                        assert(spec_type_of(
                            spec.computed@[c as int].expression,
                            Seq::<(Seq<char>, TyModel)>::empty(),
                            Seq::<(Seq<char>, SigModel)>::empty(),
                        ) is None);
                    }
                    return Err(e);
                },
            }
            c = c + 1;
        }
        Ok(())
    }

    /// Validate one field: its type must be valid and every modifier
    /// acceptable.
    fn validate_field(&self, field: &FieldDef) -> (r: ParseResult<()>)
        ensures
            r is Ok <==> spec_field_ok(self.user_model(), self.builtin_model(), *field),
            r matches Err(e) ==> e is Type,
    {
        proof {
            reveal_strlit("Invalid type for field: ");
        }
        if !self.is_valid_type(&field.type_expr) {
            let mut m = String::from_str("Invalid type for field: ");
            m.append(field.name.as_str());
            return Err(ParseError::Type(m));
        }
        let mut i: usize = 0;
        while i < field.modifiers.len()
            invariant
                i <= field.modifiers@.len(),
                spec_valid_type(self.user_model(), self.builtin_model(), field.type_expr.model()),
                forall|j: int| 0 <= j < i as int ==> spec_modifier_ok(
                    #[trigger] field.modifiers@[j],
                    field.type_expr.model(),
                ),
            decreases field.modifiers@.len() - i,
        {
            match self.validate_modifier(&field.modifiers[i], &field.type_expr) {
                Ok(_) => {},
                Err(e) => {
                    return Err(e);
                },
            }
            i = i + 1;
        }
        Ok(())
    }

    /// Validate one computed field: its expression must infer a type in an
    /// empty context.
    fn validate_computed_field(&self, computed: &ComputedField) -> (r: ParseResult<()>)
        ensures
            r is Ok <==> spec_type_of(
                computed.expression,
                Seq::<(Seq<char>, TyModel)>::empty(),
                Seq::<(Seq<char>, SigModel)>::empty(),
            ) is Some,
            r matches Err(e) ==> e is Type,
    {
        let context = TypeContext::new();
        match self.type_of_expression(&computed.expression, &context) {
            Ok(_) => Ok(()),
            Err(e) => Err(e),
        }
    }

    /// Validate a modifier against its field's declared type: a default
    /// value must infer, in an empty context, a type compatible with the
    /// field's; every other modifier is unconditionally acceptable.
    fn validate_modifier(&self, modifier: &Modifier, field_type: &TypeExpr) -> (r: ParseResult<()>)
        ensures
            r is Ok <==> spec_modifier_ok(*modifier, field_type.model()),
            r matches Err(e) ==> e is Type,
    {
        proof {
            reveal_strlit("Default value type does not match field type");
        }
        match modifier {
            Modifier::Default(expr) => {
                let context = TypeContext::new();
                let expr_type = match self.type_of_expression(expr, &context) {
                    Ok(t) => t,
                    Err(e) => {
                        return Err(e);
                    },
                };
                if self.types_compatible(&expr_type, field_type) {
                    Ok(())
                } else {
                    Err(
                        ParseError::Type(
                            String::from_str("Default value type does not match field type"),
                        ),
                    )
                }
            },
            _ => Ok(()),
        }
    }

    /// The type of an expression in a context: literals type themselves,
    /// identifiers must be bound, arithmetic follows the numeric rules,
    /// comparisons give `Bool` without operand checks, logic requires
    /// `Bool`, a conditional follows its then-branch, indexed access needs
    /// an `Array` and an `Int` index, and property access gives `String`.
    /// An unknown function call is assumed to return `String`.
    pub fn type_of_expression(&self, expr: &Expression, context: &TypeContext) -> (r: ParseResult<
        TypeExpr,
    >)
        ensures
            match spec_type_of(*expr, context.vars_model(), context.funcs_model()) {
                Some(t) => r matches Ok(ty) && ty.model() == t,
                None => r matches Err(e) && e is Type,
            },
        decreases expr,
    {
        proof {
            reveal_strlit("Undefined variable: ");
            reveal_strlit("Invalid operand types for arithmetic operation");
            reveal_strlit("Invalid operand types for logical operation");
            reveal_strlit("Invalid operand type for logical NOT");
            reveal_strlit("Conditional condition must be boolean");
            reveal_strlit("Array index must be integer");
            reveal_strlit("Cannot index non-array type");
            reveal_strlit(".");
        }
        match expr {
            Expression::StringLiteral(_) => Ok(TypeExpr::Primitive(PrimitiveType::String)),
            Expression::Number(_) => Ok(TypeExpr::Primitive(PrimitiveType::Float)),
            Expression::Boolean(_) => Ok(TypeExpr::Primitive(PrimitiveType::Bool)),
            Expression::Identifier(name) => {
                match context.get_variable_type(name) {
                    Some(t) => Ok(t.duplicate()),
                    None => {
                        let mut m = String::from_str("Undefined variable: ");
                        m.append(name.as_str());
                        Err(ParseError::Type(m))
                    },
                }
            },
            Expression::FunctionCall { object, method, arguments: _ } => {
                let mut key = object.clone();
                key.append(".");
                key.append(method.as_str());
                match context.get_function(&key) {
                    Some(sig) => Ok(sig.return_type.duplicate()),
                    None => Ok(TypeExpr::Primitive(PrimitiveType::String)),
                }
            },
            Expression::StringTemplate { parts: _ } => Ok(
                TypeExpr::Primitive(PrimitiveType::String),
            ),
            Expression::Add(l, r) => {
                let lt = match self.type_of_expression(l, context) {
                    Ok(t) => t,
                    Err(e) => {
                        return Err(e);
                    },
                };
                let rt = match self.type_of_expression(r, context) {
                    Ok(t) => t,
                    Err(e) => {
                        return Err(e);
                    },
                };
                arith_combine(lt, rt)
            },
            Expression::Subtract(l, r) => {
                let lt = match self.type_of_expression(l, context) {
                    Ok(t) => t,
                    Err(e) => {
                        return Err(e);
                    },
                };
                let rt = match self.type_of_expression(r, context) {
                    Ok(t) => t,
                    Err(e) => {
                        return Err(e);
                    },
                };
                arith_combine(lt, rt)
            },
            Expression::Multiply(l, r) => {
                let lt = match self.type_of_expression(l, context) {
                    Ok(t) => t,
                    Err(e) => {
                        return Err(e);
                    },
                };
                let rt = match self.type_of_expression(r, context) {
                    Ok(t) => t,
                    Err(e) => {
                        return Err(e);
                    },
                };
                arith_combine(lt, rt)
            },
            Expression::Divide(l, r) => {
                let lt = match self.type_of_expression(l, context) {
                    Ok(t) => t,
                    Err(e) => {
                        return Err(e);
                    },
                };
                let rt = match self.type_of_expression(r, context) {
                    Ok(t) => t,
                    Err(e) => {
                        return Err(e);
                    },
                };
                arith_combine(lt, rt)
            },
            Expression::Modulo(l, r) => {
                let lt = match self.type_of_expression(l, context) {
                    Ok(t) => t,
                    Err(e) => {
                        return Err(e);
                    },
                };
                let rt = match self.type_of_expression(r, context) {
                    Ok(t) => t,
                    Err(e) => {
                        return Err(e);
                    },
                };
                arith_combine(lt, rt)
            },
            Expression::Equal(l, r) => {
                let _lt = match self.type_of_expression(l, context) {
                    Ok(t) => t,
                    Err(e) => {
                        return Err(e);
                    },
                };
                let _rt = match self.type_of_expression(r, context) {
                    Ok(t) => t,
                    Err(e) => {
                        return Err(e);
                    },
                };
                Ok(TypeExpr::Primitive(PrimitiveType::Bool))
            },
            Expression::NotEqual(l, r) => {
                let _lt = match self.type_of_expression(l, context) {
                    Ok(t) => t,
                    Err(e) => {
                        return Err(e);
                    },
                };
                let _rt = match self.type_of_expression(r, context) {
                    Ok(t) => t,
                    Err(e) => {
                        return Err(e);
                    },
                };
                Ok(TypeExpr::Primitive(PrimitiveType::Bool))
            },
            Expression::LessThan(l, r) => {
                let _lt = match self.type_of_expression(l, context) {
                    Ok(t) => t,
                    Err(e) => {
                        return Err(e);
                    },
                };
                let _rt = match self.type_of_expression(r, context) {
                    Ok(t) => t,
                    Err(e) => {
                        return Err(e);
                    },
                };
                Ok(TypeExpr::Primitive(PrimitiveType::Bool))
            },
            Expression::LessThanOrEqual(l, r) => {
                let _lt = match self.type_of_expression(l, context) {
                    Ok(t) => t,
                    Err(e) => {
                        return Err(e);
                    },
                };
                let _rt = match self.type_of_expression(r, context) {
                    Ok(t) => t,
                    Err(e) => {
                        return Err(e);
                    },
                };
                Ok(TypeExpr::Primitive(PrimitiveType::Bool))
            },
            Expression::GreaterThan(l, r) => {
                let _lt = match self.type_of_expression(l, context) {
                    Ok(t) => t,
                    Err(e) => {
                        return Err(e);
                    },
                };
                let _rt = match self.type_of_expression(r, context) {
                    Ok(t) => t,
                    Err(e) => {
                        return Err(e);
                    },
                };
                Ok(TypeExpr::Primitive(PrimitiveType::Bool))
            },
            Expression::GreaterThanOrEqual(l, r) => {
                let _lt = match self.type_of_expression(l, context) {
                    Ok(t) => t,
                    Err(e) => {
                        return Err(e);
                    },
                };
                let _rt = match self.type_of_expression(r, context) {
                    Ok(t) => t,
                    Err(e) => {
                        return Err(e);
                    },
                };
                Ok(TypeExpr::Primitive(PrimitiveType::Bool))
            },
            Expression::And(l, r) => {
                let lt = match self.type_of_expression(l, context) {
                    Ok(t) => t,
                    Err(e) => {
                        return Err(e);
                    },
                };
                let rt = match self.type_of_expression(r, context) {
                    Ok(t) => t,
                    Err(e) => {
                        return Err(e);
                    },
                };
                logic_combine(lt, rt)
            },
            Expression::Or(l, r) => {
                let lt = match self.type_of_expression(l, context) {
                    Ok(t) => t,
                    Err(e) => {
                        return Err(e);
                    },
                };
                let rt = match self.type_of_expression(r, context) {
                    Ok(t) => t,
                    Err(e) => {
                        return Err(e);
                    },
                };
                logic_combine(lt, rt)
            },
            Expression::Not(inner) => {
                let t = match self.type_of_expression(inner, context) {
                    Ok(t) => t,
                    Err(e) => {
                        return Err(e);
                    },
                };
                if matches!(t, TypeExpr::Primitive(PrimitiveType::Bool)) {
                    Ok(TypeExpr::Primitive(PrimitiveType::Bool))
                } else {
                    Err(ParseError::Type(String::from_str("Invalid operand type for logical NOT")))
                }
            },
            Expression::Conditional { condition, if_true, if_false } => {
                let ct = match self.type_of_expression(condition, context) {
                    Ok(t) => t,
                    Err(e) => {
                        return Err(e);
                    },
                };
                if !(matches!(ct, TypeExpr::Primitive(PrimitiveType::Bool))) {
                    return Err(
                        ParseError::Type(String::from_str("Conditional condition must be boolean")),
                    );
                }
                let tt = match self.type_of_expression(if_true, context) {
                    Ok(t) => t,
                    Err(e) => {
                        return Err(e);
                    },
                };
                match self.type_of_expression(if_false, context) {
                    Ok(_) => Ok(tt),
                    Err(e) => Err(e),
                }
            },
            Expression::ArrayAccess(arr, idx) => {
                let at = match self.type_of_expression(arr, context) {
                    Ok(t) => t,
                    Err(e) => {
                        return Err(e);
                    },
                };
                let it = match self.type_of_expression(idx, context) {
                    Ok(t) => t,
                    Err(e) => {
                        return Err(e);
                    },
                };
                if !(matches!(it, TypeExpr::Primitive(PrimitiveType::Int))) {
                    return Err(ParseError::Type(String::from_str("Array index must be integer")));
                }
                match at {
                    TypeExpr::Generic { name, args } => {
                        proof {
                            reveal_strlit("Array");
                        }
                        if str_text(&name, "Array") && args.len() == 1 {
                            let mut args_m = args;
                            match args_m.pop() {
                                Some(elem) => {
                                    proof {
                                        assert(ty_models(args_m@.push(elem))[0] == elem.model());
                                    }
                                    Ok(elem)
                                },
                                None => {
                                    proof {
                                        assert(false);
                                    }
                                    Err(
                                        ParseError::Type(
                                            String::from_str("Cannot index non-array type"),
                                        ),
                                    )
                                },
                            }
                        } else {
                            Err(ParseError::Type(String::from_str("Cannot index non-array type")))
                        }
                    },
                    _ => Err(ParseError::Type(String::from_str("Cannot index non-array type"))),
                }
            },
            Expression::PropertyAccess(obj, _) => {
                match self.type_of_expression(obj, context) {
                    Ok(_) => Ok(TypeExpr::Primitive(PrimitiveType::String)),
                    Err(e) => Err(e),
                }
            },
        }
    }

    /// Whether a source type may fill a target position: exact match, or
    /// the single widening of `Int` into `Float`.
    fn types_compatible(&self, source_type: &TypeExpr, target_type: &TypeExpr) -> (r: bool)
        ensures
            r == spec_compatible(source_type.model(), target_type.model()),
    {
        if ty_equal(source_type, target_type) {
            true
        } else {
            matches!(source_type, TypeExpr::Primitive(PrimitiveType::Int)) && matches!(
                target_type,
                TypeExpr::Primitive(PrimitiveType::Float),
            )
        }
    }
}


/// Combine two inferred operand types under the arithmetic rules.
fn arith_combine(lt: TypeExpr, rt: TypeExpr) -> (res: ParseResult<TypeExpr>)
    ensures
        match spec_arith(Some(lt.model()), Some(rt.model())) {
            Some(t) => res matches Ok(ty) && ty.model() == t,
            None => res matches Err(e) && e is Type,
        },
{
    proof {
        reveal_strlit("Invalid operand types for arithmetic operation");
    }
    let l_int = matches!(lt, TypeExpr::Primitive(PrimitiveType::Int));
    let r_int = matches!(rt, TypeExpr::Primitive(PrimitiveType::Int));
    let l_float = matches!(lt, TypeExpr::Primitive(PrimitiveType::Float));
    let r_float = matches!(rt, TypeExpr::Primitive(PrimitiveType::Float));
    if l_int && r_int {
        Ok(TypeExpr::Primitive(PrimitiveType::Int))
    } else if l_float || r_float {
        Ok(TypeExpr::Primitive(PrimitiveType::Float))
    } else {
        Err(ParseError::Type(String::from_str("Invalid operand types for arithmetic operation")))
    }
}

/// Combine two inferred operand types under the logical rules.
fn logic_combine(lt: TypeExpr, rt: TypeExpr) -> (res: ParseResult<TypeExpr>)
    ensures
        match spec_logic(Some(lt.model()), Some(rt.model())) {
            Some(t) => res matches Ok(ty) && ty.model() == t,
            None => res matches Err(e) && e is Type,
        },
{
    proof {
        reveal_strlit("Invalid operand types for logical operation");
    }
    if matches!(lt, TypeExpr::Primitive(PrimitiveType::Bool)) && matches!(
        rt,
        TypeExpr::Primitive(PrimitiveType::Bool),
    ) {
        Ok(TypeExpr::Primitive(PrimitiveType::Bool))
    } else {
        Err(ParseError::Type(String::from_str("Invalid operand types for logical operation")))
    }
}

/// Whether a string's characters equal a literal's.
fn str_text(w: &String, lit: &str) -> (r: bool)
    ensures
        r == (w@ == lit@),
{
    let l = String::from_str(lit);
    *w == l
}

} // verus!
