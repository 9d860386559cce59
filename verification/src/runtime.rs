//! The evaluation engine: an owned execution context, a tree-walking
//! expression evaluator, and specification execution over lifecycle,
//! input and computed-field phases.
//!
//! Expression evaluation is a pure function of the expression and the
//! variable context, described exactly by the ghost evaluator `spec_eval`
//! for every expression free of plugin dispatch. A call into a plugin
//! provider returns whatever the provider returned; nothing more is
//! assumed of it.

use vstd::prelude::*;
use crate::ast::{
    Action, Argument, Expression, FieldDef, LifecycleDef, LifecyclePhase, Modifier, PrimitiveType,
    Spec, TemplatePart, TypeExpr,
};
use crate::num::{div_units, iabs, mul_units, trunc_rem, Num, SCALE};
use crate::text::{str_to_chars, u64_to_string};
use crate::types::assoc_last;
use crate::value::{entries_model, vm_equal, vm_lookup, vm_render, vm_truthy, ValModel, Value};

verus! {

/// Errors raised while executing a specification or evaluating an
/// expression.
#[derive(Debug)]
pub enum RuntimeError {
    /// Execution of the specification failed.
    Execution(String),
    /// A plugin provider reported a failure or could not be reached.
    Plugin(String),
    /// Expression evaluation failed.
    Evaluation(String),
    /// Event handling failed; reserved for future dispatch.
    Event(String),
    /// Lifecycle handling failed; reserved for future dispatch.
    Lifecycle(String),
}

impl RuntimeError {
    /// The human-readable text carried by the error.
    pub fn message(&self) -> (r: &String)
        ensures
            r == self.text(),
    {
        match self {
            RuntimeError::Execution(s) => s,
            RuntimeError::Plugin(s) => s,
            RuntimeError::Evaluation(s) => s,
            RuntimeError::Event(s) => s,
            RuntimeError::Lifecycle(s) => s,
        }
    }

    /// The text carried by the error, whatever its variant.
    pub open spec fn text(&self) -> String {
        match self {
            RuntimeError::Execution(s) => *s,
            RuntimeError::Plugin(s) => *s,
            RuntimeError::Evaluation(s) => *s,
            RuntimeError::Event(s) => *s,
            RuntimeError::Lifecycle(s) => *s,
        }
    }
}

/// Result type for runtime operations.
pub type RuntimeResult<T> = Result<T, RuntimeError>;

/// Variable bindings: a name-to-value table where a later binding replaces
/// an earlier one, as an insertion into a map does.
pub struct Bindings {
    entries: Vec<(String, Value)>,
}

impl Bindings {
    /// The model of the table, in insertion order.
    pub closed spec fn model(self) -> Seq<(Seq<char>, ValModel)> {
        entries_model(self.entries@)
    }

    /// An empty table.
    pub fn new() -> (r: Bindings)
        ensures
            r.model() == Seq::<(Seq<char>, ValModel)>::empty(),
    {
        let r = Bindings { entries: Vec::new() };
        proof {
            assert(r.model() =~= Seq::<(Seq<char>, ValModel)>::empty());
        }
        r
    }

    /// Bind a name to a value; a later binding wins over an earlier one.
    pub fn insert(&mut self, name: String, value: Value)
        ensures
            final(self).model() == old(self).model().push((name@, value.model())),
    {
        let ghost before = self.model();
        self.entries.push((name, value));
        proof {
            assert(self.model() =~= before.push(
                (self.entries@.last().0@, self.entries@.last().1.model()),
            ));
        }
    }

    /// The value bound to a name, if any.
    pub fn get(&self, name: &String) -> (r: Option<&Value>)
        ensures
            match r {
                Some(v) => assoc_last(self.model(), name@) == Some(v.model()),
                None => assoc_last(self.model(), name@) is None,
            },
    {
        let ghost m = self.model();
        let entries = &self.entries;
        let mut k = entries.len();
        proof {
            assert(m.take(k as int) =~= m);
        }
        while k > 0
            invariant
                k <= entries.len(),
                entries == self.entries,
                m == entries_model(entries@),
                m.len() == entries@.len(),
                assoc_last(m, name@) == assoc_last(m.take(k as int), name@),
            decreases k,
        {
            k = k - 1;
            if entries[k].0 == *name {
                proof {
                    assert(m.take(k as int + 1).last() == m[k as int]);
                }
                return Some(&entries[k].1);
            }
            proof {
                assert(m.take(k as int + 1).last() == m[k as int]);
                assert(m.take(k as int + 1).drop_last() =~= m.take(k as int));
            }
        }
        proof {
            assert(m.take(0) =~= Seq::<(Seq<char>, ValModel)>::empty());
        }
        None
    }

    /// A structural copy with the same model.
    pub fn duplicate(&self) -> (r: Bindings)
        ensures
            r.model() == self.model(),
    {
        let mut out: Vec<(String, Value)> = Vec::new();
        let mut i: usize = 0;
        while i < self.entries.len()
            invariant
                i <= self.entries@.len(),
                out@.len() == i as int,
                forall|j: int| 0 <= j < i as int ==> out@[j].0@ == self.entries@[j].0@
                    && out@[j].1.model() == self.entries@[j].1.model(),
            decreases self.entries@.len() - i,
        {
            let k = self.entries[i].0.clone();
            let v = self.entries[i].1.duplicate();
            out.push((k, v));
            i = i + 1;
        }
        let r = Bindings { entries: out };
        proof {
            assert forall|j: int| 0 <= j < r.model().len() implies r.model()[j]
                == self.model()[j] by {}
            assert(r.model() =~= self.model());
        }
        r
    }
}

/// Execution state of one run.
#[derive(Debug, PartialEq)]
pub enum ExecutionState {
    Idle,
    Running,
    Completed,
    Failed(String),
}

/// The execution context one runtime owns: variable bindings, the
/// computed-value cache, and the execution state.
pub struct ExecutionContext {
    variables: Bindings,
    computed_cache: Bindings,
    state: ExecutionState,
}

impl ExecutionContext {
    /// The model of the variable bindings.
    pub closed spec fn vars(self) -> Seq<(Seq<char>, ValModel)> {
        self.variables.model()
    }

    /// The model of the computed-value cache.
    pub closed spec fn cache(self) -> Seq<(Seq<char>, ValModel)> {
        self.computed_cache.model()
    }

    /// The execution state.
    pub closed spec fn spec_state(self) -> ExecutionState {
        self.state
    }

    /// A fresh idle context with no bindings.
    pub fn new() -> (r: ExecutionContext)
        ensures
            r.vars() == Seq::<(Seq<char>, ValModel)>::empty(),
            r.cache() == Seq::<(Seq<char>, ValModel)>::empty(),
            r.spec_state() is Idle,
    {
        ExecutionContext {
            variables: Bindings::new(),
            computed_cache: Bindings::new(),
            state: ExecutionState::Idle,
        }
    }

    /// The current execution state.
    pub fn state(&self) -> (r: &ExecutionState)
        ensures
            r == self.spec_state(),
    {
        &self.state
    }

    /// The value bound to a variable, if any.
    pub fn variable(&self, name: &String) -> (r: Option<&Value>)
        ensures
            match r {
                Some(v) => assoc_last(self.vars(), name@) == Some(v.model()),
                None => assoc_last(self.vars(), name@) is None,
            },
    {
        self.variables.get(name)
    }

    /// The cached value of a computed field, if any.
    pub fn computed_value(&self, name: &String) -> (r: Option<&Value>)
        ensures
            match r {
                Some(v) => assoc_last(self.cache(), name@) == Some(v.model()),
                None => assoc_last(self.cache(), name@) is None,
            },
    {
        self.computed_cache.get(name)
    }
}

/// The capability interface the evaluator dispatches to when an expression
/// calls into a named provider. Implementations are external collaborators:
/// nothing is assumed of their results.
pub trait Plugin {
    /// The provider's stable identity.
    fn name(&self) -> String;

    /// Idempotent setup; must succeed before `execute` may be used.
    fn initialize(&mut self) -> RuntimeResult<()>;

    /// Run one named method over named arguments.
    fn execute(&self, method: &String, args: &Bindings) -> RuntimeResult<Value>;
}

/// A provider that offers nothing: the default plugin parameter for
/// runtimes that dispatch no capability calls.
pub struct NullPlugin;

impl Plugin for NullPlugin {
    fn name(&self) -> String {
        String::new()
    }

    fn initialize(&mut self) -> RuntimeResult<()> {
        Ok(())
    }

    fn execute(&self, _method: &String, _args: &Bindings) -> RuntimeResult<Value> {
        proof {
            reveal_strlit("No capability available");
        }
        Err(RuntimeError::Plugin(String::from_str("No capability available")))
    }
}


/// Arithmetic operators the evaluator performs.
#[derive(Debug, Clone, Copy)]
pub enum ArithmeticOp {
    Add,
    Subtract,
    Multiply,
    Divide,
    Modulo,
}

/// Ordering operators the evaluator performs.
#[derive(Debug, Clone, Copy)]
pub enum ComparisonOp {
    LessThan,
    LessThanOrEqual,
    GreaterThan,
    GreaterThanOrEqual,
}

/// A scaled number value, when it fits the representable range.
pub open spec fn num_fits(v: int) -> Option<ValModel> {
    if i64::MIN <= v <= i64::MAX {
        Some(ValModel::Num(v))
    } else {
        None
    }
}

/// One arithmetic operation over two values: numbers combine numerically,
/// addition concatenates two texts, a zero right operand of division or
/// modulo is an error, and any other combination is an error.
pub open spec fn spec_arith_v(a: ValModel, b: ValModel, op: ArithmeticOp) -> Option<ValModel> {
    match (a, b) {
        (ValModel::Num(x), ValModel::Num(y)) => match op {
            ArithmeticOp::Add => num_fits(x + y),
            ArithmeticOp::Subtract => num_fits(x - y),
            ArithmeticOp::Multiply => num_fits(mul_units(x, y)),
            ArithmeticOp::Divide => if y == 0 {
                None
            } else {
                num_fits(div_units(x, y))
            },
            ArithmeticOp::Modulo => if y == 0 {
                None
            } else {
                Some(ValModel::Num(trunc_rem(x, y)))
            },
        },
        (ValModel::Str(x), ValModel::Str(y)) => match op {
            ArithmeticOp::Add => Some(ValModel::Str(x + y)),
            _ => None,
        },
        _ => None,
    }
}

/// One ordering comparison over two values: numbers numerically, text
/// lexicographically, anything else an error.
pub open spec fn spec_cmp_v(a: ValModel, b: ValModel, op: ComparisonOp) -> Option<ValModel> {
    match (a, b) {
        (ValModel::Num(x), ValModel::Num(y)) => Some(
            ValModel::Bool(
                match op {
                    ComparisonOp::LessThan => x < y,
                    ComparisonOp::LessThanOrEqual => x <= y,
                    ComparisonOp::GreaterThan => x > y,
                    ComparisonOp::GreaterThanOrEqual => x >= y,
                },
            ),
        ),
        (ValModel::Str(x), ValModel::Str(y)) => Some(
            ValModel::Bool(
                match op {
                    ComparisonOp::LessThan => lex_lt(x, y),
                    ComparisonOp::LessThanOrEqual => lex_lt(x, y) || x == y,
                    ComparisonOp::GreaterThan => lex_lt(y, x),
                    ComparisonOp::GreaterThanOrEqual => lex_lt(y, x) || x == y,
                },
            ),
        ),
        _ => None,
    }
}

/// The value of a built-in function call: exactly one argument, which must
/// itself evaluate.
pub open spec fn spec_call(
    method: Seq<char>,
    arguments: Seq<Argument>,
    ctx: Seq<(Seq<char>, ValModel)>,
) -> Option<ValModel>
    decreases arguments,
{
    if arguments.len() != 1 {
        None
    } else {
        match spec_eval(arguments[0].value, ctx) {
            Some(arg) => spec_builtin(method, arg),
            None => None,
        }
    }
}

/// The name-to-value argument map a call hands its provider: each
/// argument's value evaluated under the context, keyed by the argument's
/// name, or by `arg_<position>` for an unnamed one; `None` when some
/// argument fails to evaluate.
pub open spec fn spec_args_from(
    arguments: Seq<Argument>,
    i: int,
    ctx: Seq<(Seq<char>, ValModel)>,
) -> Option<Seq<(Seq<char>, ValModel)>>
    decreases arguments.len() - i,
{
    if i < 0 || i >= arguments.len() {
        Some(Seq::empty())
    } else {
        let nm = if arguments[i].name@.len() == 0 {
            "arg_"@ + crate::text::dec_str(i as nat)
        } else {
            arguments[i].name@
        };
        match spec_eval(arguments[i].value, ctx) {
            Some(v) => match spec_args_from(arguments, i + 1, ctx) {
                Some(rest) => Some(seq![(nm, v)] + rest),
                None => None,
            },
            None => None,
        }
    }
}

/// The first position holding a provider name, if any.
pub open spec fn pfind<P: Plugin>(v: Seq<(Seq<char>, P)>, name: Seq<char>, i: int) -> Option<int>
    decreases v.len() - i,
{
    if i < 0 || i >= v.len() {
        None
    } else if v[i].0 == name {
        Some(i)
    } else {
        pfind(v, name, i + 1)
    }
}

/// The name of a Unicode-uppercased text; the result depends on the
/// characters alone.
pub uninterp spec fn upper_of(s: Seq<char>) -> Seq<char>;

/// The name of a Unicode-lowercased text; the result depends on the
/// characters alone.
pub uninterp spec fn lower_of(s: Seq<char>) -> Seq<char>;

/// The name of a text with leading and trailing whitespace removed; the
/// result depends on the characters alone.
pub uninterp spec fn trim_of(s: Seq<char>) -> Seq<char>;

/// Relies on str::to_uppercase: the Unicode uppercase mapping of the text,
/// a function of the characters alone; empty text stays empty.
#[verifier::external_body]
fn to_upper(s: &str) -> (r: String)
    ensures
        r@ == upper_of(s@),
        s@.len() == 0 ==> r@.len() == 0,
{
    s.to_uppercase()
}

/// Relies on str::to_lowercase: the Unicode lowercase mapping of the text,
/// a function of the characters alone; empty text stays empty.
#[verifier::external_body]
fn to_lower(s: &str) -> (r: String)
    ensures
        r@ == lower_of(s@),
        s@.len() == 0 ==> r@.len() == 0,
{
    s.to_lowercase()
}

/// Relies on str::trim: the text without leading and trailing whitespace,
/// a function of the characters alone; empty text stays empty.
#[verifier::external_body]
fn trim_text(s: &str) -> (r: String)
    ensures
        r@ == trim_of(s@),
        s@.len() == 0 ==> r@.len() == 0,
{
    String::from_str(s.trim())
}

/// The placeholder text an unresolved variable renders as.
pub open spec fn placeholder(name: Seq<char>) -> Seq<char> {
    "${"@ + name + "}"@
}

/// Whether an expression involves no plugin dispatch: every function call
/// in it names the built-in function set (an empty object name), so its
/// evaluation is a pure function of the variable context.
pub open spec fn plugin_free(e: Expression) -> bool
    decreases e,
{
    match e {
        Expression::StringLiteral(_) => true,
        Expression::StringTemplate { .. } => true,
        Expression::Number(_) => true,
        Expression::Boolean(_) => true,
        Expression::Identifier(_) => true,
        Expression::FunctionCall { object, method, arguments } => object@ =~= Seq::<char>::empty()
            && (forall|i: int|
            0 <= i < arguments@.len() ==> plugin_free((#[trigger] arguments@[i]).value)),
        Expression::Add(l, r) => plugin_free(*l) && plugin_free(*r),
        Expression::Subtract(l, r) => plugin_free(*l) && plugin_free(*r),
        Expression::Multiply(l, r) => plugin_free(*l) && plugin_free(*r),
        Expression::Divide(l, r) => plugin_free(*l) && plugin_free(*r),
        Expression::Modulo(l, r) => plugin_free(*l) && plugin_free(*r),
        Expression::Equal(l, r) => plugin_free(*l) && plugin_free(*r),
        Expression::NotEqual(l, r) => plugin_free(*l) && plugin_free(*r),
        Expression::LessThan(l, r) => plugin_free(*l) && plugin_free(*r),
        Expression::LessThanOrEqual(l, r) => plugin_free(*l) && plugin_free(*r),
        Expression::GreaterThan(l, r) => plugin_free(*l) && plugin_free(*r),
        Expression::GreaterThanOrEqual(l, r) => plugin_free(*l) && plugin_free(*r),
        Expression::And(l, r) => plugin_free(*l) && plugin_free(*r),
        Expression::Or(l, r) => plugin_free(*l) && plugin_free(*r),
        Expression::Not(inner) => plugin_free(*inner),
        Expression::Conditional { condition, if_true, if_false } => plugin_free(*condition)
            && plugin_free(*if_true) && plugin_free(*if_false),
        Expression::ArrayAccess(a, i) => plugin_free(*a) && plugin_free(*i),
        Expression::PropertyAccess(o, _) => plugin_free(*o),
    }
}

/// Lexicographic order on character sequences, by code point; the order
/// machine strings compare in.
pub open spec fn lex_lt(a: Seq<char>, b: Seq<char>) -> bool
    decreases a.len(),
{
    if b.len() == 0 {
        false
    } else if a.len() == 0 {
        true
    } else if (a[0] as u32) < (b[0] as u32) {
        true
    } else if (a[0] as u32) > (b[0] as u32) {
        false
    } else {
        lex_lt(a.drop_first(), b.drop_first())
    }
}

/// The text a template renders to under a context: literal parts verbatim,
/// variable parts as the bound value's rendering or as a `${name}`
/// placeholder when unbound.
pub open spec fn spec_template(parts: Seq<TemplatePart>, ctx: Seq<(Seq<char>, ValModel)>) -> Seq<
    char,
>
    decreases parts.len(),
{
    if parts.len() == 0 {
        Seq::empty()
    } else {
        let head = match parts[0] {
            TemplatePart::Text(t) => t@,
            TemplatePart::Variable(n) => match assoc_last(ctx, n@) {
                Some(v) => vm_render(v),
                None => placeholder(n@),
            },
        };
        head + spec_template(parts.drop_first(), ctx)
    }
}

/// The value of a built-in function call over one evaluated argument.
pub open spec fn spec_builtin(method: Seq<char>, arg: ValModel) -> Option<ValModel> {
    if method == "len"@ {
        match arg {
            ValModel::Str(s) => checked_count((vstd::utf8::encode_utf8(s).len() as usize) as int),
            ValModel::Arr(items) => checked_count(items.len() as int),
            ValModel::Obj(entries) => checked_count(entries.len() as int),
            _ => None,
        }
    } else if method == "upper"@ {
        match arg {
            ValModel::Str(s) => Some(ValModel::Str(upper_of(s))),
            _ => None,
        }
    } else if method == "lower"@ {
        match arg {
            ValModel::Str(s) => Some(ValModel::Str(lower_of(s))),
            _ => None,
        }
    } else if method == "trim"@ {
        match arg {
            ValModel::Str(s) => Some(ValModel::Str(trim_of(s))),
            _ => None,
        }
    } else if method == "abs"@ {
        match arg {
            ValModel::Num(u) => if u == i64::MIN {
                None
            } else {
                Some(ValModel::Num(iabs(u)))
            },
            _ => None,
        }
    } else {
        None
    }
}

/// A count as a number value, when it fits the representable range.
pub open spec fn checked_count(n: int) -> Option<ValModel> {
    if n * (SCALE as int) <= i64::MAX {
        Some(ValModel::Num(n * (SCALE as int)))
    } else {
        None
    }
}

/// The value of an expression under a variable context, for expressions
/// free of plugin dispatch: `None` is an evaluation error. Unresolved
/// identifiers render as `${name}` placeholders rather than failing.
pub open spec fn spec_eval(e: Expression, ctx: Seq<(Seq<char>, ValModel)>) -> Option<ValModel>
    decreases e,
{
    match e {
        Expression::StringLiteral(s) => Some(ValModel::Str(s@)),
        Expression::Number(n) => Some(ValModel::Num(n.spec_units())),
        Expression::Boolean(b) => Some(ValModel::Bool(b)),
        Expression::Identifier(name) => match assoc_last(ctx, name@) {
            Some(v) => Some(v),
            None => Some(ValModel::Str(placeholder(name@))),
        },
        Expression::StringTemplate { parts } => Some(ValModel::Str(spec_template(parts@, ctx))),
        Expression::FunctionCall { object, method, arguments } => if object@
            =~= Seq::<char>::empty() {
            spec_call(method@, arguments@, ctx)
        } else {
            None
        },
        Expression::Add(l, r) => match (spec_eval(*l, ctx), spec_eval(*r, ctx)) {
            (Some(a), Some(b)) => spec_arith_v(a, b, ArithmeticOp::Add),
            _ => None,
        },
        Expression::Subtract(l, r) => match (spec_eval(*l, ctx), spec_eval(*r, ctx)) {
            (Some(a), Some(b)) => spec_arith_v(a, b, ArithmeticOp::Subtract),
            _ => None,
        },
        Expression::Multiply(l, r) => match (spec_eval(*l, ctx), spec_eval(*r, ctx)) {
            (Some(a), Some(b)) => spec_arith_v(a, b, ArithmeticOp::Multiply),
            _ => None,
        },
        Expression::Divide(l, r) => match (spec_eval(*l, ctx), spec_eval(*r, ctx)) {
            (Some(a), Some(b)) => spec_arith_v(a, b, ArithmeticOp::Divide),
            _ => None,
        },
        Expression::Modulo(l, r) => match (spec_eval(*l, ctx), spec_eval(*r, ctx)) {
            (Some(a), Some(b)) => spec_arith_v(a, b, ArithmeticOp::Modulo),
            _ => None,
        },
        Expression::Equal(l, r) => match (spec_eval(*l, ctx), spec_eval(*r, ctx)) {
            (Some(a), Some(b)) => Some(ValModel::Bool(vm_equal(a, b))),
            _ => None,
        },
        Expression::NotEqual(l, r) => match (spec_eval(*l, ctx), spec_eval(*r, ctx)) {
            (Some(a), Some(b)) => Some(ValModel::Bool(!vm_equal(a, b))),
            _ => None,
        },
        Expression::LessThan(l, r) => match (spec_eval(*l, ctx), spec_eval(*r, ctx)) {
            (Some(a), Some(b)) => spec_cmp_v(a, b, ComparisonOp::LessThan),
            _ => None,
        },
        Expression::LessThanOrEqual(l, r) => match (spec_eval(*l, ctx), spec_eval(*r, ctx)) {
            (Some(a), Some(b)) => spec_cmp_v(a, b, ComparisonOp::LessThanOrEqual),
            _ => None,
        },
        Expression::GreaterThan(l, r) => match (spec_eval(*l, ctx), spec_eval(*r, ctx)) {
            (Some(a), Some(b)) => spec_cmp_v(a, b, ComparisonOp::GreaterThan),
            _ => None,
        },
        Expression::GreaterThanOrEqual(l, r) => match (spec_eval(*l, ctx), spec_eval(*r, ctx)) {
            (Some(a), Some(b)) => spec_cmp_v(a, b, ComparisonOp::GreaterThanOrEqual),
            _ => None,
        },
        Expression::And(l, r) => match spec_eval(*l, ctx) {
            Some(a) => if !vm_truthy(a) {
                Some(ValModel::Bool(false))
            } else {
                match spec_eval(*r, ctx) {
                    Some(b) => Some(ValModel::Bool(vm_truthy(b))),
                    None => None,
                }
            },
            None => None,
        },
        Expression::Or(l, r) => match spec_eval(*l, ctx) {
            Some(a) => if vm_truthy(a) {
                Some(ValModel::Bool(true))
            } else {
                match spec_eval(*r, ctx) {
                    Some(b) => Some(ValModel::Bool(vm_truthy(b))),
                    None => None,
                }
            },
            None => None,
        },
        Expression::Not(inner) => match spec_eval(*inner, ctx) {
            Some(a) => Some(ValModel::Bool(!vm_truthy(a))),
            None => None,
        },
        Expression::Conditional { condition, if_true, if_false } => match spec_eval(
            *condition,
            ctx,
        ) {
            Some(c) => if vm_truthy(c) {
                spec_eval(*if_true, ctx)
            } else {
                spec_eval(*if_false, ctx)
            },
            None => None,
        },
        Expression::ArrayAccess(arr, idx) => match (spec_eval(*arr, ctx), spec_eval(*idx, ctx)) {
            (Some(ValModel::Arr(items)), Some(ValModel::Num(u))) => if u >= 0 && u % (
            SCALE as int) == 0 && u / (SCALE as int) < items.len() {
                Some(items[u / (SCALE as int)])
            } else {
                None
            },
            (Some(ValModel::Obj(entries)), Some(ValModel::Str(k))) => match vm_lookup(entries, k) {
                Some(v) => Some(v),
                None => Some(ValModel::Null),
            },
            _ => None,
        },
        Expression::PropertyAccess(obj, prop) => match spec_eval(*obj, ctx) {
            Some(ValModel::Obj(entries)) => match vm_lookup(entries, prop@) {
                Some(v) => Some(v),
                None => Some(ValModel::Null),
            },
            Some(_) => None,
            None => None,
        },
    }
}


/// Whether two strings compare lexicographically below one another.
fn str_lt(a: &String, b: &String) -> (r: bool)
    ensures
        r == lex_lt(a@, b@),
{
    let av = str_to_chars(a.as_str());
    let bv = str_to_chars(b.as_str());
    let mut i: usize = 0;
    proof {
        assert(a@.skip(0) =~= a@);
        assert(b@.skip(0) =~= b@);
    }
    while i < av.len() && i < bv.len()
        invariant
            i <= av.len(),
            i <= bv.len(),
            av@ == a@,
            bv@ == b@,
            lex_lt(a@, b@) == lex_lt(a@.skip(i as int), b@.skip(i as int)),
        decreases av.len() - i,
    {
        proof {
            assert(a@.skip(i as int)[0] == a@[i as int]);
            assert(b@.skip(i as int)[0] == b@[i as int]);
            assert(a@.skip(i as int).drop_first() =~= a@.skip(i as int + 1));
            assert(b@.skip(i as int).drop_first() =~= b@.skip(i as int + 1));
        }
        let ac = av[i] as u32;
        let bc = bv[i] as u32;
        if ac < bc {
            return true;
        }
        if ac > bc {
            return false;
        }
        i = i + 1;
    }
    proof {
        if i >= bv.len() {
            assert(b@.skip(i as int).len() == 0);
        } else {
            assert(a@.skip(i as int).len() == 0);
        }
    }
    i < bv.len()
}

/// Run one built-in function over its single evaluated argument.
fn call_builtin(method: &String, arg: Value) -> (r: RuntimeResult<Value>)
    ensures
        match spec_builtin(method@, arg.model()) {
            Some(m) => r matches Ok(v) && v.model() == m,
            None => r matches Err(e) && e is Evaluation,
        },
{
    proof {
        reveal_strlit("len() can only be applied to strings, arrays, or objects");
        reveal_strlit("upper() can only be applied to strings");
        reveal_strlit("lower() can only be applied to strings");
        reveal_strlit("trim() can only be applied to strings");
        reveal_strlit("abs() can only be applied to numbers");
        reveal_strlit("Result is not a valid number");
        reveal_strlit("Unknown function");
    }
    if str_lit_eq(method, "len") {
        let count: usize = match &arg {
            Value::Str(s) => s.as_str().len(),
            Value::Array(a) => a.len(),
            Value::Object(o) => o.len(),
            _ => {
                return Err(
                    RuntimeError::Evaluation(
                        String::from_str("len() can only be applied to strings, arrays, or objects"),
                    ),
                );
            },
        };
        if (count as u64) <= 9_223_372_036_854u64 {
            let n = Num::from_i64(count as i64);
            proof {
                assert(n.spec_units() == (count as int) * (SCALE as int));
                assert(spec_builtin(method@, arg.model()) == checked_count(count as int));
            }
            Ok(Value::Number(n))
        } else {
            Err(RuntimeError::Evaluation(String::from_str("Result is not a valid number")))
        }
    } else if str_lit_eq(method, "upper") {
        match arg {
            Value::Str(s) => Ok(Value::Str(to_upper(s.as_str()))),
            _ => Err(
                RuntimeError::Evaluation(String::from_str("upper() can only be applied to strings")),
            ),
        }
    } else if str_lit_eq(method, "lower") {
        match arg {
            Value::Str(s) => Ok(Value::Str(to_lower(s.as_str()))),
            _ => Err(
                RuntimeError::Evaluation(String::from_str("lower() can only be applied to strings")),
            ),
        }
    } else if str_lit_eq(method, "trim") {
        match arg {
            Value::Str(s) => Ok(Value::Str(trim_text(s.as_str()))),
            _ => Err(
                RuntimeError::Evaluation(String::from_str("trim() can only be applied to strings")),
            ),
        }
    } else if str_lit_eq(method, "abs") {
        match arg {
            Value::Number(n) => match n.checked_abs() {
                Some(m) => Ok(Value::Number(m)),
                None => Err(
                    RuntimeError::Evaluation(String::from_str("Result is not a valid number")),
                ),
            },
            _ => Err(
                RuntimeError::Evaluation(String::from_str("abs() can only be applied to numbers")),
            ),
        }
    } else {
        Err(RuntimeError::Evaluation(String::from_str("Unknown function")))
    }
}

/// Whether a string's characters equal a literal's.
fn str_lit_eq(w: &String, lit: &str) -> (r: bool)
    ensures
        r == (w@ == lit@),
{
    let l = String::from_str(lit);
    *w == l
}

/// The placeholder text `${name}` for an unresolved variable.
fn placeholder_text(name: &String) -> (r: String)
    ensures
        r@ == placeholder(name@),
{
    proof {
        reveal_strlit("${");
        reveal_strlit("}");
    }
    let mut r = String::from_str("${");
    r.append(name.as_str());
    r.append("}");
    proof {
        assert(r@ =~= placeholder(name@));
    }
    r
}

/// Perform one arithmetic operation on two evaluated values.
fn perform_arith(left: &Value, right: &Value, op: ArithmeticOp) -> (r: RuntimeResult<Value>)
    ensures
        match spec_arith_v(left.model(), right.model(), op) {
            Some(m) => r matches Ok(v) && v.model() == m,
            None => r matches Err(e) && e is Evaluation,
        },
{
    proof {
        reveal_strlit("Division by zero");
        reveal_strlit("Modulo by zero");
        reveal_strlit("Arithmetic operation result is not a valid number");
        reveal_strlit("Cannot perform arithmetic operation on these values");
    }
    match (left, right) {
        (Value::Number(a), Value::Number(b)) => {
            match op {
                ArithmeticOp::Add => match a.checked_add(b) {
                    Some(n) => Ok(Value::Number(n)),
                    None => Err(
                        RuntimeError::Evaluation(
                            String::from_str("Arithmetic operation result is not a valid number"),
                        ),
                    ),
                },
                ArithmeticOp::Subtract => match a.checked_sub(b) {
                    Some(n) => Ok(Value::Number(n)),
                    None => Err(
                        RuntimeError::Evaluation(
                            String::from_str("Arithmetic operation result is not a valid number"),
                        ),
                    ),
                },
                ArithmeticOp::Multiply => match a.checked_mul(b) {
                    Some(n) => Ok(Value::Number(n)),
                    None => Err(
                        RuntimeError::Evaluation(
                            String::from_str("Arithmetic operation result is not a valid number"),
                        ),
                    ),
                },
                ArithmeticOp::Divide => {
                    if b.is_zero() {
                        Err(RuntimeError::Evaluation(String::from_str("Division by zero")))
                    } else {
                        match a.checked_div(b) {
                            Some(n) => Ok(Value::Number(n)),
                            None => Err(
                                RuntimeError::Evaluation(
                                    String::from_str(
                                        "Arithmetic operation result is not a valid number",
                                    ),
                                ),
                            ),
                        }
                    }
                },
                ArithmeticOp::Modulo => {
                    if b.is_zero() {
                        Err(RuntimeError::Evaluation(String::from_str("Modulo by zero")))
                    } else {
                        Ok(Value::Number(a.rem(b)))
                    }
                },
            }
        },
        (Value::Str(a), Value::Str(b)) => {
            if matches!(op, ArithmeticOp::Add) {
                let joined = a.clone().concat(b.as_str());
                Ok(Value::Str(joined))
            } else {
                Err(
                    RuntimeError::Evaluation(
                        String::from_str("Cannot perform arithmetic operation on these values"),
                    ),
                )
            }
        },
        _ => Err(
            RuntimeError::Evaluation(
                String::from_str("Cannot perform arithmetic operation on these values"),
            ),
        ),
    }
}

/// Perform one ordering comparison on two evaluated values.
fn perform_cmp(left: &Value, right: &Value, op: ComparisonOp) -> (r: RuntimeResult<Value>)
    ensures
        match spec_cmp_v(left.model(), right.model(), op) {
            Some(m) => r matches Ok(v) && v.model() == m,
            None => r matches Err(e) && e is Evaluation,
        },
{
    proof {
        reveal_strlit("Cannot compare these values");
    }
    match (left, right) {
        (Value::Number(a), Value::Number(b)) => {
            let res = match op {
                ComparisonOp::LessThan => a.units < b.units,
                ComparisonOp::LessThanOrEqual => a.units <= b.units,
                ComparisonOp::GreaterThan => a.units > b.units,
                ComparisonOp::GreaterThanOrEqual => a.units >= b.units,
            };
            Ok(Value::Bool(res))
        },
        (Value::Str(a), Value::Str(b)) => {
            let res = match op {
                ComparisonOp::LessThan => str_lt(a, b),
                ComparisonOp::LessThanOrEqual => str_lt(a, b) || *a == *b,
                ComparisonOp::GreaterThan => str_lt(b, a),
                ComparisonOp::GreaterThanOrEqual => str_lt(b, a) || *a == *b,
            };
            Ok(Value::Bool(res))
        },
        _ => Err(RuntimeError::Evaluation(String::from_str("Cannot compare these values"))),
    }
}

/// The placeholder value generation gives a field of the given type.
pub open spec fn gen_for_type(t: TypeExpr) -> ValModel {
    match t {
        TypeExpr::Primitive(PrimitiveType::String) => ValModel::Str("generated"@),
        TypeExpr::Primitive(PrimitiveType::Int) => ValModel::Num(0),
        TypeExpr::Primitive(PrimitiveType::Float) => ValModel::Num(0),
        TypeExpr::Primitive(PrimitiveType::Bool) => ValModel::Bool(false),
        TypeExpr::Primitive(PrimitiveType::Null) => ValModel::Null,
        TypeExpr::Generic { name, .. } => if name@ == "Array"@ {
            ValModel::Arr(Seq::empty())
        } else if name@ == "Map"@ {
            ValModel::Obj(Seq::empty())
        } else {
            ValModel::Null
        },
        TypeExpr::Reference(_) => ValModel::Null,
    }
}

/// The initial value of an input field after folding its modifiers in
/// declaration order, starting from null: a default evaluates its
/// expression against an empty context, generation takes a type-shaped
/// placeholder, and the other modifiers leave the value alone.
pub open spec fn fold_modifiers(ms: Seq<Modifier>, i: int, ty: TypeExpr, cur: ValModel) -> Option<
    ValModel,
>
    decreases ms.len() - i,
{
    if i < 0 || i >= ms.len() {
        Some(cur)
    } else {
        match ms[i] {
            Modifier::Default(e) => match spec_eval(e, Seq::empty()) {
                Some(v) => fold_modifiers(ms, i + 1, ty, v),
                None => None,
            },
            Modifier::Generate => fold_modifiers(ms, i + 1, ty, gen_for_type(ty)),
            _ => fold_modifiers(ms, i + 1, ty, cur),
        }
    }
}

/// The initial value of one input field.
pub open spec fn field_initial(f: FieldDef) -> Option<ValModel> {
    fold_modifiers(f.modifiers@, 0, f.type_expr, ValModel::Null)
}

/// The variable bindings after processing a run of input fields, and
/// whether every field processed; processing stops at the first default
/// whose evaluation fails, leaving the earlier fields bound.
pub open spec fn inputs_phase(
    vars: Seq<(Seq<char>, ValModel)>,
    fields: Seq<FieldDef>,
    i: int,
) -> (Seq<(Seq<char>, ValModel)>, bool)
    decreases fields.len() - i,
{
    if i < 0 || i >= fields.len() {
        (vars, true)
    } else {
        match field_initial(fields[i]) {
            Some(v) => inputs_phase(vars.push((fields[i].name@, v)), fields, i + 1),
            None => (vars, false),
        }
    }
}

/// Whether every default expression of a field is free of plugin dispatch.
pub open spec fn field_pf(f: FieldDef) -> bool {
    forall|j: int| 0 <= j < f.modifiers@.len() ==> match #[trigger] f.modifiers@[j] {
        Modifier::Default(e) => plugin_free(e),
        _ => true,
    }
}

/// Whether every computed field's expression evaluates under the given
/// variable bindings.
pub open spec fn computed_ok(vars: Seq<(Seq<char>, ValModel)>, comps: Seq<
    crate::ast::ComputedField,
>) -> bool {
    forall|j: int| 0 <= j < comps.len() ==> spec_eval(
        (#[trigger] comps[j]).expression,
        vars,
    ) is Some
}

/// The computed-value cache after evaluating a run of computed fields.
pub open spec fn computed_out(
    cache: Seq<(Seq<char>, ValModel)>,
    vars: Seq<(Seq<char>, ValModel)>,
    comps: Seq<crate::ast::ComputedField>,
    i: int,
) -> Seq<(Seq<char>, ValModel)>
    decreases comps.len() - i,
{
    if i < 0 || i >= comps.len() {
        cache
    } else {
        match spec_eval(comps[i].expression, vars) {
            Some(v) => computed_out(cache.push((comps[i].name@, v)), vars, comps, i + 1),
            None => cache,
        }
    }
}

/// Whether a lifecycle action dispatches no plugin: a function call on the
/// built-in set with plugin-free arguments. A bare identifier action always
/// dispatches to the `builtin` pseudo-provider.
pub open spec fn action_pf(a: Action) -> bool {
    match a {
        Action::FunctionCall { object, method, arguments } => object@ =~= Seq::<char>::empty() && (
        forall|i: int| 0 <= i < arguments@.len() ==> plugin_free((#[trigger] arguments@[i]).value)),
        Action::Identifier(_) => false,
    }
}

/// Whether every lifecycle entry of a phase has a plugin-free action.
pub open spec fn lifecycle_pf(ls: Seq<LifecycleDef>, phase: LifecyclePhase) -> bool {
    forall|j: int| 0 <= j < ls.len() && (#[trigger] ls[j]).phase == phase ==> action_pf(ls[j].action)
}

/// Whether every plugin-free action of a phase evaluates under the given
/// bindings.
pub open spec fn lifecycle_ok(
    ls: Seq<LifecycleDef>,
    phase: LifecyclePhase,
    vars: Seq<(Seq<char>, ValModel)>,
) -> bool {
    forall|j: int| 0 <= j < ls.len() && (#[trigger] ls[j]).phase == phase ==> match ls[j].action {
        Action::FunctionCall { object, method, arguments } => spec_call(
            method@,
            arguments@,
            vars,
        ) is Some,
        Action::Identifier(_) => true,
    }
}

/// The execution engine: owns one execution context and the registered
/// plugin providers, keyed by name.
pub struct Runtime<P: Plugin = NullPlugin> {
    context: ExecutionContext,
    plugins: Vec<(String, P)>,
}

impl<P: Plugin> Runtime<P> {
    /// The owned execution context.
    pub closed spec fn ctx(self) -> ExecutionContext {
        self.context
    }

    /// How many plugin providers are registered.
    pub closed spec fn plugin_count_spec(self) -> int {
        self.plugins@.len() as int
    }

    /// The registered providers, keyed by the names they were stored
    /// under, in registration order.
    pub closed spec fn plugins_view(self) -> Seq<(Seq<char>, P)> {
        Seq::new(self.plugins@.len(), |i: int| (self.plugins@[i].0@, self.plugins@[i].1))
    }

    /// A fresh runtime: idle, no bindings, no plugins.
    pub fn new() -> (r: Self)
        ensures
            r.ctx().vars() == Seq::<(Seq<char>, ValModel)>::empty(),
            r.ctx().cache() == Seq::<(Seq<char>, ValModel)>::empty(),
            r.ctx().spec_state() is Idle,
            r.plugin_count_spec() == 0,
    {
        Runtime { context: ExecutionContext::new(), plugins: Vec::new() }
    }

    /// Read access to the execution context.
    pub fn context(&self) -> (r: &ExecutionContext)
        ensures
            r == self.ctx(),
    {
        &self.context
    }

    /// Register a plugin provider under the name it reports: the stored
    /// entry holds the provider and a name its own `name` method could
    /// return.
    pub fn register_plugin(&mut self, plugin: P)
        ensures
            final(self).ctx() == old(self).ctx(),
            final(self).plugin_count_spec() == old(self).plugin_count_spec() + 1,
            exists|nm: String|
                #![trigger call_ensures(P::name, (&plugin,), nm)]
                {
                    &&& call_ensures(P::name, (&plugin,), nm)
                    &&& final(self).plugins_view() == old(self).plugins_view().push((nm@, plugin))
                },
    {
        let ghost before = self.plugins_view();
        let name = plugin.name();
        let ghost nm = name;
        self.plugins.push((name, plugin));
        proof {
            assert(self.plugins_view() =~= before.push(
                (self.plugins@.last().0@, self.plugins@.last().1),
            ));
        }
    }

    /// Evaluate an expression with no extra context variables.
    pub fn evaluate_expression(&self, expr: &Expression) -> (r: RuntimeResult<Value>)
        ensures
            plugin_free(*expr) ==> match spec_eval(
                *expr,
                Seq::<(Seq<char>, ValModel)>::empty(),
            ) {
                Some(m) => r matches Ok(v) && v.model() == m,
                None => r matches Err(e) && e is Evaluation,
            },
    {
        let empty = Bindings::new();
        self.evaluate_expression_with_context(expr, &empty)
    }

    /// Evaluate an expression under the given context variables. For every
    /// expression free of plugin dispatch the result is exactly the ghost
    /// evaluator's; a plugin call returns whatever the provider returned.
    pub fn evaluate_expression_with_context(&self, expr: &Expression, context: &Bindings) -> (r:
        RuntimeResult<Value>)
        ensures
            plugin_free(*expr) ==> match spec_eval(*expr, context.model()) {
                Some(m) => r matches Ok(v) && v.model() == m,
                None => r matches Err(e) && e is Evaluation,
            },
        decreases expr,
    {
        match expr {
            Expression::StringLiteral(s) => Ok(Value::Str(s.clone())),
            Expression::Number(n) => Ok(Value::Number(*n)),
            Expression::Boolean(b) => Ok(Value::Bool(*b)),
            Expression::Identifier(name) => {
                match context.get(name) {
                    Some(v) => Ok(v.duplicate()),
                    None => Ok(Value::Str(placeholder_text(name))),
                }
            },
            Expression::FunctionCall { object, method, arguments } => self.evaluate_function_call(
                object,
                method,
                arguments,
                context,
            ),
            Expression::StringTemplate { parts } => self.evaluate_string_template(parts, context),
            Expression::Add(l, r) => {
                let lv = self.evaluate_expression_with_context(l, context)?;
                let rv = self.evaluate_expression_with_context(r, context)?;
                perform_arith(&lv, &rv, ArithmeticOp::Add)
            },
            Expression::Subtract(l, r) => {
                let lv = self.evaluate_expression_with_context(l, context)?;
                let rv = self.evaluate_expression_with_context(r, context)?;
                perform_arith(&lv, &rv, ArithmeticOp::Subtract)
            },
            Expression::Multiply(l, r) => {
                let lv = self.evaluate_expression_with_context(l, context)?;
                let rv = self.evaluate_expression_with_context(r, context)?;
                perform_arith(&lv, &rv, ArithmeticOp::Multiply)
            },
            Expression::Divide(l, r) => {
                let lv = self.evaluate_expression_with_context(l, context)?;
                let rv = self.evaluate_expression_with_context(r, context)?;
                perform_arith(&lv, &rv, ArithmeticOp::Divide)
            },
            Expression::Modulo(l, r) => {
                let lv = self.evaluate_expression_with_context(l, context)?;
                let rv = self.evaluate_expression_with_context(r, context)?;
                perform_arith(&lv, &rv, ArithmeticOp::Modulo)
            },
            Expression::Equal(l, r) => {
                let lv = self.evaluate_expression_with_context(l, context)?;
                let rv = self.evaluate_expression_with_context(r, context)?;
                Ok(Value::Bool(self.values_equal(&lv, &rv)))
            },
            Expression::NotEqual(l, r) => {
                let lv = self.evaluate_expression_with_context(l, context)?;
                let rv = self.evaluate_expression_with_context(r, context)?;
                Ok(Value::Bool(!self.values_equal(&lv, &rv)))
            },
            Expression::LessThan(l, r) => {
                let lv = self.evaluate_expression_with_context(l, context)?;
                let rv = self.evaluate_expression_with_context(r, context)?;
                perform_cmp(&lv, &rv, ComparisonOp::LessThan)
            },
            Expression::LessThanOrEqual(l, r) => {
                let lv = self.evaluate_expression_with_context(l, context)?;
                let rv = self.evaluate_expression_with_context(r, context)?;
                perform_cmp(&lv, &rv, ComparisonOp::LessThanOrEqual)
            },
            Expression::GreaterThan(l, r) => {
                let lv = self.evaluate_expression_with_context(l, context)?;
                let rv = self.evaluate_expression_with_context(r, context)?;
                perform_cmp(&lv, &rv, ComparisonOp::GreaterThan)
            },
            Expression::GreaterThanOrEqual(l, r) => {
                let lv = self.evaluate_expression_with_context(l, context)?;
                let rv = self.evaluate_expression_with_context(r, context)?;
                perform_cmp(&lv, &rv, ComparisonOp::GreaterThanOrEqual)
            },
            Expression::And(l, r) => {
                let lv = self.evaluate_expression_with_context(l, context)?;
                if !lv.truthy() {
                    Ok(Value::Bool(false))
                } else {
                    let rv = self.evaluate_expression_with_context(r, context)?;
                    Ok(Value::Bool(rv.truthy()))
                }
            },
            Expression::Or(l, r) => {
                let lv = self.evaluate_expression_with_context(l, context)?;
                if lv.truthy() {
                    Ok(Value::Bool(true))
                } else {
                    let rv = self.evaluate_expression_with_context(r, context)?;
                    Ok(Value::Bool(rv.truthy()))
                }
            },
            Expression::Not(inner) => {
                let v = self.evaluate_expression_with_context(inner, context)?;
                Ok(Value::Bool(!v.truthy()))
            },
            Expression::Conditional { condition, if_true, if_false } => {
                let c = self.evaluate_expression_with_context(condition, context)?;
                if c.truthy() {
                    self.evaluate_expression_with_context(if_true, context)
                } else {
                    self.evaluate_expression_with_context(if_false, context)
                }
            },
            Expression::ArrayAccess(arr, idx) => {
                let av = self.evaluate_expression_with_context(arr, context)?;
                let iv = self.evaluate_expression_with_context(idx, context)?;
                self.perform_array_access(&av, &iv)
            },
            Expression::PropertyAccess(obj, prop) => {
                let ov = self.evaluate_expression_with_context(obj, context)?;
                self.perform_property_access(&ov, prop)
            },
        }
    }

    /// Dispatch a function call: an empty object name selects the built-in
    /// set; any other object name selects the first registered provider of
    /// that name, whose result is returned as it came. Arguments are
    /// evaluated into a name-to-value map, unnamed ones under `arg_<i>`;
    /// an unregistered provider name is an evaluation error naming it.
    fn evaluate_function_call(
        &self,
        object: &String,
        method: &String,
        arguments: &Vec<Argument>,
        context: &Bindings,
    ) -> (r: RuntimeResult<Value>)
        ensures
            (object@ =~= Seq::<char>::empty() && (forall|i: int|
                0 <= i < arguments@.len() ==> plugin_free(
                    (#[trigger] arguments@[i]).value,
                ))) ==> match spec_call(method@, arguments@, context.model()) {
                Some(m) => r matches Ok(v) && v.model() == m,
                None => r matches Err(e) && e is Evaluation,
            },
            (object@.len() != 0 && (forall|i: int|
                0 <= i < arguments@.len() ==> plugin_free((#[trigger] arguments@[i]).value))
                && spec_args_from(arguments@, 0, context.model()) is None) ==> (r matches Err(e)
                && e is Evaluation),
            (object@.len() != 0 && (forall|i: int|
                0 <= i < arguments@.len() ==> plugin_free((#[trigger] arguments@[i]).value))
                && spec_args_from(arguments@, 0, context.model()) is Some && pfind(
                self.plugins_view(),
                object@,
                0,
            ) is None) ==> (r matches Err(e) && e is Evaluation),
            (object@.len() != 0 && (forall|i: int|
                0 <= i < arguments@.len() ==> plugin_free((#[trigger] arguments@[i]).value)))
                ==> (spec_args_from(arguments@, 0, context.model()) matches Some(am) ==> (pfind(
                self.plugins_view(),
                object@,
                0,
            ) matches Some(idx) ==> exists|b: Bindings|
                #![trigger call_ensures(P::execute, (&self.plugins_view()[idx].1, method, &b), r)]
                {
                    &&& b.model() == am
                    &&& call_ensures(P::execute, (&self.plugins_view()[idx].1, method, &b), r)
                })),
        decreases arguments,
    {
        proof {
            reveal_strlit("Function requires exactly one argument");
            reveal_strlit("Unknown function: ");
            reveal_strlit("Plugin '");
            reveal_strlit("' not found");
        }
        if object.as_str().is_empty() {
            let known = str_lit_eq(method, "len") || str_lit_eq(method, "upper") || str_lit_eq(
                method,
                "lower",
            ) || str_lit_eq(method, "trim") || str_lit_eq(method, "abs");
            if !known {
                let mut m = String::from_str("Unknown function: ");
                m.append(method.as_str());
                return Err(RuntimeError::Evaluation(m));
            }
            if arguments.len() != 1 {
                return Err(
                    RuntimeError::Evaluation(
                        String::from_str("Function requires exactly one argument"),
                    ),
                );
            }
            proof {
                let ghost a0 = arguments@[0];
            }
            let arg_value = match self.evaluate_expression_with_context(
                &arguments[0].value,
                context,
            ) {
                Ok(v) => v,
                Err(e) => {
                    return Err(e);
                },
            };
            call_builtin(method, arg_value)
        } else {
            let ghost ctx = context.model();
            let ghost apf = forall|i: int|
                0 <= i < arguments@.len() ==> plugin_free((#[trigger] arguments@[i]).value);
            let mut args = Bindings::new();
            let mut i: usize = 0;
            proof {
                if apf {
                    match spec_args_from(arguments@, 0, ctx) {
                        Some(whole) => {
                            assert(args.model() + whole =~= whole);
                        },
                        None => {},
                    }
                }
            }
            while i < arguments.len()
                invariant
                    i <= arguments@.len(),
                    object@.len() != 0,
                    ctx == context.model(),
                    apf == (forall|k: int|
                        0 <= k < arguments@.len() ==> plugin_free(
                            (#[trigger] arguments@[k]).value,
                        )),
                    apf ==> match spec_args_from(arguments@, i as int, ctx) {
                        Some(rest) => spec_args_from(arguments@, 0, ctx) matches Some(whole)
                            && whole == args.model() + rest,
                        None => spec_args_from(arguments@, 0, ctx) is None,
                    },
                decreases arguments@.len() - i,
            {
                proof {
                    reveal_strlit("arg_");
                }
                let arg = &arguments[i];
                let name = if arg.name.as_str().is_empty() {
                    let mut n = String::from_str("arg_");
                    let num = u64_to_string(i as u64);
                    n.append(num.as_str());
                    n
                } else {
                    arg.name.clone()
                };
                let value = match self.evaluate_expression_with_context(&arg.value, context) {
                    Ok(v) => v,
                    Err(e) => {
                        proof {
                            if apf {
                                assert(plugin_free(arguments@[i as int].value));
                                assert(spec_eval(arguments@[i as int].value, ctx) is None);
                                assert(spec_args_from(arguments@, i as int, ctx) is None);
                            }
                        }
                        return Err(e);
                    },
                };
                let ghost before = args.model();
                args.insert(name, value);
                proof {
                    if apf {
                        assert(plugin_free(arguments@[i as int].value));
                        match spec_args_from(arguments@, i as int + 1, ctx) {
                            Some(rest) => {
                                assert(args.model() + rest =~= before + (seq![
                                    (name@, value.model()),
                                ] + rest));
                            },
                            None => {},
                        }
                    }
                }
                i = i + 1;
            }
            proof {
                if apf {
                    match spec_args_from(arguments@, i as int, ctx) {
                        Some(rest) => {
                            assert(args.model() + rest =~= args.model());
                        },
                        None => {},
                    }
                }
            }
            let ghost view = self.plugins_view();
            let mut k: usize = 0;
            while k < self.plugins.len()
                invariant
                    k <= self.plugins@.len(),
                    object@.len() != 0,
                    view == self.plugins_view(),
                    view.len() == self.plugins@.len(),
                    apf == (forall|j: int|
                        0 <= j < arguments@.len() ==> plugin_free(
                            (#[trigger] arguments@[j]).value,
                        )),
                    apf ==> (spec_args_from(arguments@, 0, context.model()) matches Some(whole)
                        && whole == args.model()),
                    pfind(view, object@, 0) == pfind(view, object@, k as int),
                decreases self.plugins@.len() - k,
            {
                if self.plugins[k].0 == *object {
                    let res = self.plugins[k].1.execute(method, &args);
                    proof {
                        assert(pfind(view, object@, k as int) == Some(k as int));
                        assert(pfind(self.plugins_view(), object@, 0) == Some(k as int));
                        assert(view[k as int].1 == self.plugins@[k as int].1);
                        assert(call_ensures(
                            P::execute,
                            (
                                &self.plugins_view()[pfind(
                                    self.plugins_view(),
                                    object@,
                                    0,
                                )->0].1,
                                method,
                                &args,
                            ),
                            res,
                        ));
                    }
                    return res;
                }
                k = k + 1;
            }
            proof {
                assert(pfind(view, object@, k as int) is None);
            }
            let mut m = String::from_str("Plugin '");
            m.append(object.as_str());
            m.append("' not found");
            Err(RuntimeError::Evaluation(m))
        }
    }

    /// Render a string template: literal parts verbatim, bound variables by
    /// their rendering, unbound variables as `${name}` placeholders.
    fn evaluate_string_template(&self, parts: &Vec<TemplatePart>, context: &Bindings) -> (r:
        RuntimeResult<Value>)
        ensures
            r matches Ok(v) && v.model() == ValModel::Str(
                spec_template(parts@, context.model()),
            ),
    {
        let mut out = String::new();
        let mut i: usize = 0;
        proof {
            assert(parts@.skip(0) =~= parts@);
        }
        while i < parts.len()
            invariant
                i <= parts@.len(),
                out@ + spec_template(parts@.skip(i as int), context.model()) == spec_template(
                    parts@,
                    context.model(),
                ),
            decreases parts@.len() - i,
        {
            proof {
                assert(parts@.skip(i as int)[0] == parts@[i as int]);
                assert(parts@.skip(i as int).drop_first() =~= parts@.skip(i as int + 1));
            }
            match &parts[i] {
                TemplatePart::Text(t) => {
                    out.append(t.as_str());
                },
                TemplatePart::Variable(name) => {
                    match context.get(name) {
                        Some(v) => {
                            let rendered = v.render();
                            out.append(rendered.as_str());
                        },
                        None => {
                            let ph = placeholder_text(name);
                            out.append(ph.as_str());
                        },
                    }
                },
            }
            proof {
                assert(out@ + spec_template(parts@.skip(i as int + 1), context.model())
                    =~= spec_template(parts@, context.model()));
            }
            i = i + 1;
        }
        proof {
            assert(spec_template(parts@.skip(i as int), context.model()) =~= Seq::<char>::empty());
            assert(out@ =~= spec_template(parts@, context.model()));
        }
        Ok(Value::Str(out))
    }

    /// Structural, exact equality of two values.
    pub fn values_equal(&self, left: &Value, right: &Value) -> (r: bool)
        ensures
            r == vm_equal(left.model(), right.model()),
    {
        left.equal_to(right)
    }

    /// Truthiness of a value.
    pub fn is_truthy(&self, value: &Value) -> (r: bool)
        ensures
            r == vm_truthy(value.model()),
    {
        value.truthy()
    }

    /// Indexed access: an integral non-negative index into an array, which
    /// must be in bounds, or a text key into an object, where a missing key
    /// reads as null.
    fn perform_array_access(&self, array: &Value, index: &Value) -> (r: RuntimeResult<Value>)
        ensures
            match (spec_arr_access(array.model(), index.model())) {
                Some(m) => r matches Ok(v) && v.model() == m,
                None => r matches Err(e) && e is Evaluation,
            },
    {
        proof {
            reveal_strlit("Array index must be a non-negative integer");
            reveal_strlit("Array index out of bounds");
            reveal_strlit("Invalid array/object access");
        }
        match (array, index) {
            (Value::Array(items), Value::Number(n)) => {
                if n.units < 0 || n.units % SCALE != 0 {
                    return Err(
                        RuntimeError::Evaluation(
                            String::from_str("Array index must be a non-negative integer"),
                        ),
                    );
                }
                let idx_units = n.units / SCALE;
                if (idx_units as u64) < (items.len() as u64) {
                    let idx = idx_units as usize;
                    proof {
                        assert(crate::value::arr_model(items@)[idx as int] == items@[
                            idx as int
                        ].model());
                    }
                    Ok(items[idx].duplicate())
                } else {
                    Err(RuntimeError::Evaluation(String::from_str("Array index out of bounds")))
                }
            },
            (Value::Object(entries), Value::Str(key)) => {
                match crate::value::obj_find(entries, key) {
                    Some(v) => Ok(v.duplicate()),
                    None => Ok(Value::Null),
                }
            },
            _ => Err(RuntimeError::Evaluation(String::from_str("Invalid array/object access"))),
        }
    }

    /// Property access: valid only on objects; a missing property reads as
    /// null.
    fn perform_property_access(&self, object: &Value, property: &String) -> (r: RuntimeResult<
        Value,
    >)
        ensures
            match (spec_prop_access(object.model(), property@)) {
                Some(m) => r matches Ok(v) && v.model() == m,
                None => r matches Err(e) && e is Evaluation,
            },
    {
        proof {
            reveal_strlit("Property access can only be performed on objects");
        }
        match object {
            Value::Object(entries) => {
                match crate::value::obj_find(entries, property) {
                    Some(v) => Ok(v.duplicate()),
                    None => Ok(Value::Null),
                }
            },
            _ => Err(
                RuntimeError::Evaluation(
                    String::from_str("Property access can only be performed on objects"),
                ),
            ),
        }
    }
}

/// Indexed access over the model.
pub open spec fn spec_arr_access(a: ValModel, i: ValModel) -> Option<ValModel> {
    match (a, i) {
        (ValModel::Arr(items), ValModel::Num(u)) => if u >= 0 && u % (SCALE as int) == 0 && u / (
        SCALE as int) < items.len() {
            Some(items[u / (SCALE as int)])
        } else {
            None
        },
        (ValModel::Obj(entries), ValModel::Str(k)) => match vm_lookup(entries, k) {
            Some(v) => Some(v),
            None => Some(ValModel::Null),
        },
        _ => None,
    }
}

/// Property access over the model.
pub open spec fn spec_prop_access(o: ValModel, prop: Seq<char>) -> Option<ValModel> {
    match o {
        ValModel::Obj(entries) => match vm_lookup(entries, prop) {
            Some(v) => Some(v),
            None => Some(ValModel::Null),
        },
        _ => None,
    }
}


/// The models of computed-field results, in declaration order, when every
/// expression evaluates.
pub open spec fn comp_models(
    vars: Seq<(Seq<char>, ValModel)>,
    comps: Seq<crate::ast::ComputedField>,
    i: int,
) -> Seq<(Seq<char>, ValModel)>
    decreases comps.len() - i,
{
    if i < 0 || i >= comps.len() {
        Seq::empty()
    } else {
        match spec_eval(comps[i].expression, vars) {
            Some(v) => seq![(comps[i].name@, v)] + comp_models(vars, comps, i + 1),
            None => Seq::empty(),
        }
    }
}

/// Whether a whole specification's execution involves no plugin dispatch:
/// both lifecycle phases, every input default, and every computed field
/// are plugin-free.
pub open spec fn spec_runs_pure(s: Spec) -> bool {
    &&& lifecycle_pf(s.lifecycle@, LifecyclePhase::Before)
    &&& lifecycle_pf(s.lifecycle@, LifecyclePhase::After)
    &&& forall|k: int| 0 <= k < s.inputs@.len() ==> field_pf(#[trigger] s.inputs@[k])
    &&& forall|k: int| 0 <= k < s.computed@.len() ==> plugin_free(
        (#[trigger] s.computed@[k]).expression,
    )
}

impl<P: Plugin> Runtime<P> {
    /// A type-shaped placeholder value for a generated field.
    fn generate_value_for_type(&self, type_expr: &TypeExpr) -> (r: RuntimeResult<Value>)
        ensures
            r matches Ok(v) && v.model() == gen_for_type(*type_expr),
    {
        proof {
            reveal_strlit("generated");
        }
        match type_expr {
            TypeExpr::Primitive(PrimitiveType::String) => Ok(
                Value::Str(String::from_str("generated")),
            ),
            TypeExpr::Primitive(PrimitiveType::Int) => Ok(Value::Number(Num::from_scaled(0))),
            TypeExpr::Primitive(PrimitiveType::Float) => Ok(Value::Number(Num::from_scaled(0))),
            TypeExpr::Primitive(PrimitiveType::Bool) => Ok(Value::Bool(false)),
            TypeExpr::Primitive(PrimitiveType::Null) => Ok(Value::Null),
            TypeExpr::Generic { name, .. } => {
                if str_lit_eq(name, "Array") {
                    let v = Value::Array(Vec::new());
                    proof {
                        assert(v.model()->Arr_0 =~= Seq::<ValModel>::empty());
                    }
                    Ok(v)
                } else if str_lit_eq(name, "Map") {
                    let v = Value::Object(Vec::new());
                    proof {
                        assert(v.model()->Obj_0 =~= Seq::<(Seq<char>, ValModel)>::empty());
                    }
                    Ok(v)
                } else {
                    Ok(Value::Null)
                }
            },
            TypeExpr::Reference(_) => Ok(Value::Null),
        }
    }

    /// The initial value of one input field: its modifiers folded in
    /// declaration order over an initial null.
    fn field_value(&self, field: &FieldDef) -> (r: RuntimeResult<Value>)
        ensures
            field_pf(*field) ==> match field_initial(*field) {
                Some(m) => r matches Ok(v) && v.model() == m,
                None => r matches Err(e) && e is Evaluation,
            },
    {
        let mut value = Value::Null;
        let mut j: usize = 0;
        while j < field.modifiers.len()
            invariant
                j <= field.modifiers@.len(),
                field_pf(*field) ==> fold_modifiers(
                    field.modifiers@,
                    0,
                    field.type_expr,
                    ValModel::Null,
                ) == fold_modifiers(field.modifiers@, j as int, field.type_expr, value.model()),
            decreases field.modifiers@.len() - j,
        {
            match &field.modifiers[j] {
                Modifier::Default(expr) => {
                    match self.evaluate_expression(expr) {
                        Ok(v) => {
                            value = v;
                        },
                        Err(e) => {
                            proof {
                                if field_pf(*field) {
                                    assert(spec_eval(
                                        field.modifiers@[j as int]->Default_0,
                                        Seq::empty(),
                                    ) is None);
                                }
                            }
                            return Err(e);
                        },
                    }
                },
                Modifier::Generate => {
                    value = match self.generate_value_for_type(&field.type_expr) {
                        Ok(v) => v,
                        Err(e) => {
                            return Err(e);
                        },
                    };
                },
                _ => {},
            }
            j = j + 1;
        }
        Ok(value)
    }

    /// Process the input fields: bind each field's initial value, in
    /// declaration order. The first failing default aborts, leaving the
    /// earlier fields bound.
    fn process_inputs(&mut self, spec: &Spec) -> (r: RuntimeResult<()>)
        ensures
            final(self).ctx().cache() == old(self).ctx().cache(),
            final(self).ctx().spec_state() == old(self).ctx().spec_state(),
            final(self).plugin_count_spec() == old(self).plugin_count_spec(),
            (forall|k: int| 0 <= k < spec.inputs@.len() ==> field_pf(
                #[trigger] spec.inputs@[k],
            )) ==> ({
                let out = inputs_phase(old(self).ctx().vars(), spec.inputs@, 0);
                &&& final(self).ctx().vars() == out.0
                &&& (r is Ok <==> out.1)
                &&& (r matches Err(e) ==> e is Evaluation)
            }),
    {
        let ghost vars0 = self.ctx().vars();
        let ghost all_pf = forall|k: int| 0 <= k < spec.inputs@.len() ==> field_pf(
            #[trigger] spec.inputs@[k],
        );
        let mut i: usize = 0;
        while i < spec.inputs.len()
            invariant
                i <= spec.inputs@.len(),
                self.plugins == old(self).plugins,
                self.ctx().cache() == old(self).ctx().cache(),
                self.ctx().spec_state() == old(self).ctx().spec_state(),
                vars0 == old(self).ctx().vars(),
                all_pf == (forall|k: int| 0 <= k < spec.inputs@.len() ==> field_pf(
                    #[trigger] spec.inputs@[k],
                )),
                all_pf ==> inputs_phase(vars0, spec.inputs@, 0) == inputs_phase(
                    self.ctx().vars(),
                    spec.inputs@,
                    i as int,
                ),
            decreases spec.inputs@.len() - i,
        {
            let field = &spec.inputs[i];
            let value = match self.field_value(field) {
                Ok(v) => v,
                Err(e) => {
                    return Err(e);
                },
            };
            self.context.variables.insert(field.name.clone(), value);
            i = i + 1;
        }
        Ok(())
    }

    /// Evaluate every computed field against a snapshot of the variables,
    /// then write all results into the cache; the first failing expression
    /// aborts before anything is cached.
    fn compute_fields(&mut self, spec: &Spec) -> (r: RuntimeResult<()>)
        ensures
            final(self).ctx().vars() == old(self).ctx().vars(),
            final(self).ctx().spec_state() == old(self).ctx().spec_state(),
            final(self).plugin_count_spec() == old(self).plugin_count_spec(),
            (forall|k: int| 0 <= k < spec.computed@.len() ==> plugin_free(
                (#[trigger] spec.computed@[k]).expression,
            )) ==> ({
                &&& (r is Ok <==> computed_ok(old(self).ctx().vars(), spec.computed@))
                &&& (r is Ok ==> final(self).ctx().cache() == old(self).ctx().cache()
                    + comp_models(old(self).ctx().vars(), spec.computed@, 0))
                &&& (r matches Err(e) ==> e is Evaluation && final(self).ctx().cache() == old(
                    self,
                ).ctx().cache())
            }),
    {
        let snapshot = self.context.variables.duplicate();
        let ghost vars = snapshot.model();
        let ghost all_pf = forall|k: int| 0 <= k < spec.computed@.len() ==> plugin_free(
            (#[trigger] spec.computed@[k]).expression,
        );
        let mut results: Vec<(String, Value)> = Vec::new();
        let mut i: usize = 0;
        proof {
            assert(entries_model(results@) + comp_models(vars, spec.computed@, 0) =~= comp_models(
                vars,
                spec.computed@,
                0,
            ));
        }
        while i < spec.computed.len()
            invariant
                i <= spec.computed@.len(),
                vars == old(self).ctx().vars(),
                snapshot.model() == vars,
                self.context == old(self).context,
                self.plugins == old(self).plugins,
                all_pf == (forall|k: int| 0 <= k < spec.computed@.len() ==> plugin_free(
                    (#[trigger] spec.computed@[k]).expression,
                )),
                results@.len() == i as int,
                all_pf ==> (forall|j: int| 0 <= j < i as int ==> spec_eval(
                    (#[trigger] spec.computed@[j]).expression,
                    vars,
                ) is Some),
                all_pf ==> entries_model(results@) + comp_models(vars, spec.computed@, i as int)
                    == comp_models(vars, spec.computed@, 0),
            decreases spec.computed@.len() - i,
        {
            let comp = &spec.computed[i];
            let value = match self.evaluate_expression_with_context(&comp.expression, &snapshot) {
                Ok(v) => v,
                Err(e) => {
                    proof {
                        if all_pf {
                            assert(plugin_free(spec.computed@[i as int].expression));
                            assert(spec_eval(spec.computed@[i as int].expression, vars) is None);
                            assert(!computed_ok(vars, spec.computed@));
                        }
                    }
                    return Err(e);
                },
            };
            let ghost before = results@;
            results.push((comp.name.clone(), value));
            proof {
                if all_pf {
                    assert(entries_model(results@) =~= entries_model(before).push(
                        (results@.last().0@, results@.last().1.model()),
                    ));
                    assert(entries_model(results@) + comp_models(vars, spec.computed@, i as int + 1)
                        =~= entries_model(before) + comp_models(vars, spec.computed@, i as int));
                }
            }
            i = i + 1;
        }
        let ghost cache0 = self.ctx().cache();
        let mut k: usize = 0;
        proof {
            if all_pf {
                assert(comp_models(vars, spec.computed@, spec.computed@.len() as int)
                    =~= Seq::<(Seq<char>, ValModel)>::empty());
                assert(entries_model(results@) + Seq::<(Seq<char>, ValModel)>::empty()
                    =~= entries_model(results@));
                assert(entries_model(results@) =~= comp_models(vars, spec.computed@, 0));
            }
        }
        while k < results.len()
            invariant
                k <= results@.len(),
                vars == old(self).ctx().vars(),
                self.ctx().vars() == old(self).ctx().vars(),
                self.ctx().spec_state() == old(self).ctx().spec_state(),
                self.plugins == old(self).plugins,
                cache0 == old(self).ctx().cache(),
                self.ctx().cache() == cache0 + entries_model(results@).take(k as int),
            decreases results@.len() - k,
        {
            let name = results[k].0.clone();
            let value = results[k].1.duplicate();
            let ghost before = self.ctx().cache();
            self.context.computed_cache.insert(name, value);
            proof {
                assert(entries_model(results@).take(k as int + 1) =~= entries_model(
                    results@,
                ).take(k as int).push(entries_model(results@)[k as int]));
                assert(self.ctx().cache() =~= cache0 + entries_model(results@).take(k as int + 1));
            }
            k = k + 1;
        }
        proof {
            assert(entries_model(results@).take(results@.len() as int) =~= entries_model(results@));
            if all_pf {
                assert(self.ctx().cache() =~= cache0 + comp_models(vars, spec.computed@, 0));
            }
        }
        Ok(())
    }

    /// Run every lifecycle entry of one phase: a function call dispatches
    /// like an expression call against the current variables; a bare
    /// identifier dispatches as a zero-argument call on the `builtin`
    /// pseudo-provider.
    fn run_lifecycle(&self, spec: &Spec, phase: LifecyclePhase) -> (r: RuntimeResult<()>)
        ensures
            lifecycle_pf(spec.lifecycle@, phase) ==> ({
                &&& (r is Ok <==> lifecycle_ok(spec.lifecycle@, phase, self.ctx().vars()))
                &&& (r matches Err(e) ==> e is Evaluation)
            }),
    {
        proof {
            reveal_strlit("builtin");
        }
        let ghost pf = lifecycle_pf(spec.lifecycle@, phase);
        let mut i: usize = 0;
        while i < spec.lifecycle.len()
            invariant
                i <= spec.lifecycle@.len(),
                pf == lifecycle_pf(spec.lifecycle@, phase),
                pf ==> (forall|j: int| 0 <= j < i as int && (#[trigger] spec.lifecycle@[j]).phase
                    == phase ==> match spec.lifecycle@[j].action {
                    Action::FunctionCall { object, method, arguments } => spec_call(
                        method@,
                        arguments@,
                        self.ctx().vars(),
                    ) is Some,
                    Action::Identifier(_) => true,
                }),
            decreases spec.lifecycle@.len() - i,
        {
            let entry = &spec.lifecycle[i];
            if entry.phase.eq_phase(&phase) {
                match &entry.action {
                    Action::FunctionCall { object, method, arguments } => {
                        match self.evaluate_function_call(
                            object,
                            method,
                            arguments,
                            &self.context.variables,
                        ) {
                            Ok(_) => {},
                            Err(e) => {
                                return Err(e);
                            },
                        }
                    },
                    Action::Identifier(name) => {
                        let object = String::from_str("builtin");
                        let empty_args: Vec<Argument> = Vec::new();
                        match self.evaluate_function_call(
                            &object,
                            name,
                            &empty_args,
                            &self.context.variables,
                        ) {
                            Ok(_) => {},
                            Err(e) => {
                                return Err(e);
                            },
                        }
                    },
                }
            }
            i = i + 1;
        }
        Ok(())
    }

    /// Execute a specification: mark the run started, run the before
    /// phase, process inputs, evaluate computed fields, run the after
    /// phase, and mark the run completed. The first error anywhere aborts
    /// the sequence and is returned unchanged; the state stays at running
    /// (never automatically failed), and the context keeps whatever
    /// bindings the completed phases produced.
    pub fn execute(&mut self, spec: &Spec) -> (r: RuntimeResult<()>)
        ensures
            r is Ok ==> final(self).ctx().spec_state() is Completed,
            r is Err ==> final(self).ctx().spec_state() is Running,
            spec_runs_pure(*spec) ==> (r matches Err(e) ==> e is Evaluation),
            spec_runs_pure(*spec) ==> ({
                let vars0 = old(self).ctx().vars();
                let cache0 = old(self).ctx().cache();
                let vars1 = inputs_phase(vars0, spec.inputs@, 0);
                &&& (!lifecycle_ok(spec.lifecycle@, LifecyclePhase::Before, vars0)
                    ==> final(self).ctx().vars() == vars0 && final(self).ctx().cache() == cache0)
                &&& ((lifecycle_ok(spec.lifecycle@, LifecyclePhase::Before, vars0) && !vars1.1)
                    ==> final(self).ctx().vars() == vars1.0 && final(self).ctx().cache() == cache0)
                &&& ((lifecycle_ok(spec.lifecycle@, LifecyclePhase::Before, vars0) && vars1.1
                    && !computed_ok(vars1.0, spec.computed@)) ==> final(self).ctx().vars()
                    == vars1.0 && final(self).ctx().cache() == cache0)
                &&& ((lifecycle_ok(spec.lifecycle@, LifecyclePhase::Before, vars0) && vars1.1
                    && computed_ok(vars1.0, spec.computed@)) ==> final(self).ctx().vars() == vars1.0
                    && final(self).ctx().cache() == cache0 + comp_models(
                    vars1.0,
                    spec.computed@,
                    0,
                ))
            }),
            spec_runs_pure(*spec) ==> ({
                let vars1 = inputs_phase(old(self).ctx().vars(), spec.inputs@, 0);
                &&& (r is Ok <==> lifecycle_ok(
                    spec.lifecycle@,
                    LifecyclePhase::Before,
                    old(self).ctx().vars(),
                ) && vars1.1 && computed_ok(vars1.0, spec.computed@) && lifecycle_ok(
                    spec.lifecycle@,
                    LifecyclePhase::After,
                    vars1.0,
                ))
                &&& (r is Ok ==> final(self).ctx().vars() == vars1.0 && final(self).ctx().cache()
                    == old(self).ctx().cache() + comp_models(vars1.0, spec.computed@, 0))
            }),
    {
        self.context.state = ExecutionState::Running;
        match self.run_lifecycle(spec, LifecyclePhase::Before) {
            Ok(_) => {},
            Err(e) => {
                return Err(e);
            },
        }
        match self.process_inputs(spec) {
            Ok(_) => {},
            Err(e) => {
                return Err(e);
            },
        }
        match self.compute_fields(spec) {
            Ok(_) => {},
            Err(e) => {
                return Err(e);
            },
        }
        match self.run_lifecycle(spec, LifecyclePhase::After) {
            Ok(_) => {},
            Err(e) => {
                return Err(e);
            },
        }
        self.context.state = ExecutionState::Completed;
        Ok(())
    }
}

impl LifecyclePhase {
    /// Whether two phases are the same.
    pub fn eq_phase(&self, other: &LifecyclePhase) -> (r: bool)
        ensures
            r == (self == other),
    {
        match (self, other) {
            (LifecyclePhase::Before, LifecyclePhase::Before) => true,
            (LifecyclePhase::After, LifecyclePhase::After) => true,
            (LifecyclePhase::Finally, LifecyclePhase::Finally) => true,
            _ => false,
        }
    }
}

} // verus!
