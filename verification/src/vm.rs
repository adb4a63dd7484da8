//! The execution engine: recipe lookup, dependency-first invocation with
//! call-stack recursion detection, variable binding, control-flow
//! interpretation, and shell-command dispatch. The engine is an explicit
//! step machine: whenever a shell command or a directory change must
//! happen, `step` stops with an event and the caller performs it — in
//! dry-run mode no such event is ever produced.

use crate::errors::HakuError;
use crate::feature::guard_sat;
use crate::feature::Features;
use crate::func::call_function;
use crate::func::func_result;
use crate::parse::Atom;
use crate::parse::BinOp;
use crate::parse::Expr;
use crate::parse::Operand;
use crate::parse::FileVar;
use crate::parse::Recipe;
use crate::parse::Statement;
use crate::parse::Stmt;
use crate::scope::chain_find;
use crate::scope::FrameView;
use crate::scope::Scopes;
use crate::text::bytes_eq;
use crate::text::bytes_of;
use crate::value::render_spec;
use crate::value::truthy;
use crate::value::value_eq;
use crate::value::value_lt;
use crate::value::Value;
use crate::value::ValueView;
use vstd::prelude::*;

verus! {

/// The run configuration, read-only for a run's lifetime.
#[derive(Debug)]
pub struct RunOpts {
    /// Print shell commands into the run log instead of dispatching them.
    pub dry_run: bool,
    /// The enabled feature names.
    pub features: Vec<Vec<u8>>,
    /// Diagnostic detail; does not change semantics.
    pub verbosity: u32,
    /// Report the run's wall-clock duration.
    pub show_time: bool,
    /// The environment snapshot the `env` built-in consults; the caller
    /// supplies it, the library reads no process state.
    pub env_vars: Vec<(Vec<u8>, Vec<u8>)>,
}

impl RunOpts {
    /// The default configuration: nothing enabled.
    pub fn new() -> (r: RunOpts)
        ensures
            r.dry_run == false,
            r.features@.len() == 0,
            r.verbosity == 0,
            r.show_time == false,
            r.env_vars@.len() == 0,
    {
        RunOpts {
            dry_run: false,
            features: Vec::new(),
            verbosity: 0,
            show_time: false,
            env_vars: Vec::new(),
        }
    }

    /// The same configuration with the dry-run toggle set.
    pub fn with_dry_run(self, dry_run: bool) -> (r: RunOpts)
        ensures
            r.dry_run == dry_run,
            r.features == self.features,
            r.verbosity == self.verbosity,
            r.show_time == self.show_time,
            r.env_vars == self.env_vars,
    {
        RunOpts { dry_run, ..self }
    }

    /// The same configuration with the feature set replaced.
    pub fn with_features(self, features: Vec<Vec<u8>>) -> (r: RunOpts)
        ensures
            r.dry_run == self.dry_run,
            r.features == features,
            r.verbosity == self.verbosity,
            r.show_time == self.show_time,
            r.env_vars == self.env_vars,
    {
        RunOpts { features, ..self }
    }

    /// The same configuration with the verbosity level set.
    pub fn with_verbosity(self, verbosity: u32) -> (r: RunOpts)
        ensures
            r.dry_run == self.dry_run,
            r.features == self.features,
            r.verbosity == verbosity,
            r.show_time == self.show_time,
            r.env_vars == self.env_vars,
    {
        RunOpts { verbosity, ..self }
    }

    /// The same configuration with the time-reporting toggle set.
    pub fn with_time(self, show_time: bool) -> (r: RunOpts)
        ensures
            r.dry_run == self.dry_run,
            r.features == self.features,
            r.verbosity == self.verbosity,
            r.show_time == show_time,
            r.env_vars == self.env_vars,
    {
        RunOpts { show_time, ..self }
    }

    /// The same configuration with the environment snapshot replaced.
    pub fn with_env(self, env_vars: Vec<(Vec<u8>, Vec<u8>)>) -> (r: RunOpts)
        ensures
            r.dry_run == self.dry_run,
            r.features == self.features,
            r.verbosity == self.verbosity,
            r.show_time == self.show_time,
            r.env_vars == env_vars,
    {
        RunOpts { env_vars, ..self }
    }
}

/// The value of an atom under a scope chain: literals are themselves, an
/// unbound variable is the empty string.
pub open spec fn eval_atom_spec(env: Seq<FrameView>, a: &Atom) -> ValueView {
    match a {
        Atom::IntLit(n) => ValueView::Int(*n as int),
        Atom::StrLit(s) => ValueView::Str(s@),
        Atom::Var(n) => match chain_find(env, n@) {
            Option::Some(v) => v,
            Option::None => ValueView::Str(Seq::<u8>::empty()),
        },
    }
}

/// Clamping to the signed 64-bit range: arithmetic saturates.
pub open spec fn clamp64(x: int) -> int {
    if x > 0x7fff_ffff_ffff_ffff {
        0x7fff_ffff_ffff_ffff
    } else if x < -0x8000_0000_0000_0000 {
        -0x8000_0000_0000_0000
    } else {
        x
    }
}

/// A boolean as a value: 1 or 0.
pub open spec fn bool_val(b: bool) -> ValueView {
    if b {
        ValueView::Int(1)
    } else {
        ValueView::Int(0)
    }
}

/// The result of a binary operator. Arithmetic coerces both sides to
/// integers and saturates; comparisons follow the value order; the logical
/// operators test truthiness.
pub open spec fn apply_bin_spec(op: BinOp, a: ValueView, b: ValueView) -> ValueView {
    match op {
        BinOp::Add => ValueView::Int(
            clamp64(crate::value::as_int_spec(a) + crate::value::as_int_spec(b)),
        ),
        BinOp::Sub => ValueView::Int(
            clamp64(crate::value::as_int_spec(a) - crate::value::as_int_spec(b)),
        ),
        BinOp::Mul => ValueView::Int(
            clamp64(crate::value::as_int_spec(a) * crate::value::as_int_spec(b)),
        ),
        BinOp::CmpEq => bool_val(value_eq(a, b)),
        BinOp::CmpNe => bool_val(!value_eq(a, b)),
        BinOp::CmpLt => bool_val(value_lt(a, b)),
        BinOp::CmpLe => bool_val(value_lt(a, b) || value_eq(a, b)),
        BinOp::CmpGt => bool_val(!value_lt(a, b) && !value_eq(a, b)),
        BinOp::CmpGe => bool_val(!value_lt(a, b)),
        BinOp::AndOp => bool_val(truthy(a) && truthy(b)),
        BinOp::OrOp => bool_val(truthy(a) || truthy(b)),
    }
}

/// The value of one operand; `None` when a built-in call is invalid.
pub open spec fn eval_operand_spec(
    env: Seq<FrameView>,
    osenv: Seq<(Seq<u8>, Seq<u8>)>,
    o: &Operand,
) -> Option<ValueView> {
    match o {
        Operand::Plain(a) => Option::Some(eval_atom_spec(env, a)),
        Operand::Negated(a) => Option::Some(bool_val(!truthy(eval_atom_spec(env, a)))),
        Operand::Call(n, args) => func_result(
            n@,
            args@.map_values(|a: Atom| eval_atom_spec(env, &a)),
            osenv,
        ),
    }
}

/// The value of a whole expression; `None` when a built-in call that is
/// reached is invalid. The logical operators short-circuit: a false left
/// side of `&&` (or a true one of `||`) decides the result without the
/// right side being evaluated.
pub open spec fn eval_expr_spec(
    env: Seq<FrameView>,
    osenv: Seq<(Seq<u8>, Seq<u8>)>,
    e: &Expr,
) -> Option<ValueView>
    decreases e,
{
    match e {
        Expr::Single(o) => eval_operand_spec(env, osenv, o),
        Expr::Bin(op, l, r) => match eval_expr_spec(env, osenv, l) {
            Option::None => Option::None,
            Option::Some(a) => if *op == BinOp::AndOp && !truthy(a) {
                Option::Some(bool_val(false))
            } else if *op == BinOp::OrOp && truthy(a) {
                Option::Some(bool_val(true))
            } else {
                match eval_operand_spec(env, osenv, r) {
                    Option::None => Option::None,
                    Option::Some(b) => Option::Some(apply_bin_spec(*op, a, b)),
                }
            },
        },
    }
}

/// Evaluates an atom under the scope chain.
fn eval_atom(scopes: &Scopes, a: &Atom) -> (r: Value)
    ensures
        r@ == eval_atom_spec(scopes@, a),
{
    match a {
        Atom::IntLit(n) => Value::Int(*n),
        Atom::StrLit(s) => Value::Str(s.clone()),
        Atom::Var(n) => match scopes.lookup(n.as_slice()) {
            Some(v) => v,
            None => Value::Str(Vec::new()),
        },
    }
}

/// Applies a binary operator to two values.
fn apply_bin(op: BinOp, a: &Value, b: &Value) -> (r: Value)
    ensures
        r@ == apply_bin_spec(op, a@, b@),
{
    match op {
        BinOp::Add => {
            let x: i128 = a.as_int() as i128 + b.as_int() as i128;
            Value::Int(clamp_exec(x))
        },
        BinOp::Sub => {
            let x: i128 = a.as_int() as i128 - b.as_int() as i128;
            Value::Int(clamp_exec(x))
        },
        BinOp::Mul => {
            let ai: i64 = a.as_int();
            let bi: i64 = b.as_int();
            proof {
                assert((ai as int) * (bi as int) <= 0x8000_0000_0000_0000 * 0x8000_0000_0000_0000
                    && (ai as int) * (bi as int) >= -(0x8000_0000_0000_0000
                    * 0x8000_0000_0000_0000)) by (nonlinear_arith)
                    requires
                        -0x8000_0000_0000_0000 <= ai as int <= 0x7fff_ffff_ffff_ffff,
                        -0x8000_0000_0000_0000 <= bi as int <= 0x7fff_ffff_ffff_ffff,
                ;
            }
            let x: i128 = (ai as i128) * (bi as i128);
            Value::Int(clamp_exec(x))
        },
        BinOp::CmpEq => bool_value(a.eq_value(b)),
        BinOp::CmpNe => bool_value(!a.eq_value(b)),
        BinOp::CmpLt => bool_value(a.lt_value(b)),
        BinOp::CmpLe => bool_value(a.lt_value(b) || a.eq_value(b)),
        BinOp::CmpGt => bool_value(!a.lt_value(b) && !a.eq_value(b)),
        BinOp::CmpGe => bool_value(!a.lt_value(b)),
        BinOp::AndOp => bool_value(a.is_truthy() && b.is_truthy()),
        BinOp::OrOp => bool_value(a.is_truthy() || b.is_truthy()),
    }
}

/// The 64-bit clamp of a 128-bit intermediate.
fn clamp_exec(x: i128) -> (r: i64)
    ensures
        r as int == clamp64(x as int),
{
    if x > 0x7fff_ffff_ffff_ffff {
        0x7fff_ffff_ffff_ffff
    } else if x < -0x8000_0000_0000_0000 {
        -0x8000_0000_0000_0000
    } else {
        x as i64
    }
}

/// A boolean as a value.
fn bool_value(b: bool) -> (r: Value)
    ensures
        r@ == bool_val(b),
{
    if b {
        Value::Int(1)
    } else {
        Value::Int(0)
    }
}

/// Evaluates one operand; exactly the invalid built-in calls fail.
fn eval_operand(scopes: &Scopes, osenv: &Vec<(Vec<u8>, Vec<u8>)>, o: &Operand) -> (r: Result<
    Value,
    HakuError,
>)
    ensures
        match r {
            Ok(v) => eval_operand_spec(scopes@, crate::func::pairs_view(osenv@), o)
                == Option::Some(v@),
            Err(e) => eval_operand_spec(scopes@, crate::func::pairs_view(osenv@), o)
                == Option::None::<ValueView> && e is FunctionError,
        },
{
    match o {
        Operand::Plain(a) => Ok(eval_atom(scopes, a)),
        Operand::Negated(a) => {
            let v = eval_atom(scopes, a);
            Ok(bool_value(!v.is_truthy()))
        },
        Operand::Call(n, args) => {
            let ghost env = scopes@;
            let mut vals: Vec<Value> = Vec::new();
            let mut i: usize = 0;
            while i < args.len()
                invariant
                    i <= args@.len(),
                    env == scopes@,
                    crate::value::vals_view(vals@) =~= args@.subrange(0, i as int).map_values(
                        |a: Atom| eval_atom_spec(env, &a),
                    ),
                decreases args@.len() - i,
            {
                let v = eval_atom(scopes, &args[i]);
                let ghost prev = vals@;
                vals.push(v);
                proof {
                    let f = |a: Atom| eval_atom_spec(env, &a);
                    let pre = args@.subrange(0, i as int);
                    let cur = args@.subrange(0, i + 1);
                    assert(cur.drop_last() =~= pre);
                    assert(crate::value::vals_view(vals@) =~= crate::value::vals_view(prev).push(
                        v@,
                    ));
                    assert(cur.map_values(f) =~= pre.map_values(f).push(f(args@[i as int])));
                    assert(f(args@[i as int]) == v@);
                    assert(crate::value::vals_view(vals@) =~= cur.map_values(f));
                }
                i += 1;
            }
            proof {
                assert(args@.subrange(0, args@.len() as int) =~= args@);
            }
            call_function(n.as_slice(), &vals, osenv)
        },
    }
}

/// Evaluates a whole expression; exactly the invalid built-in calls fail.
pub fn eval_expr(scopes: &Scopes, osenv: &Vec<(Vec<u8>, Vec<u8>)>, e: &Expr) -> (r: Result<
    Value,
    HakuError,
>)
    ensures
        match r {
            Ok(v) => eval_expr_spec(scopes@, crate::func::pairs_view(osenv@), e) == Option::Some(
                v@,
            ),
            Err(err) => eval_expr_spec(scopes@, crate::func::pairs_view(osenv@), e)
                == Option::None::<ValueView> && err is FunctionError,
        },
    decreases e,
{
    match e {
        Expr::Single(o) => eval_operand(scopes, osenv, o),
        Expr::Bin(op, l, r) => {
            let a = match eval_expr(scopes, osenv, l) {
                Ok(v) => v,
                Err(err) => {
                    return Err(err);
                },
            };
            if *op == BinOp::AndOp && !a.is_truthy() {
                return Ok(bool_value(false));
            }
            if *op == BinOp::OrOp && a.is_truthy() {
                return Ok(bool_value(true));
            }
            let b = match eval_operand(scopes, osenv, r) {
                Ok(v) => v,
                Err(err) => {
                    return Err(err);
                },
            };
            Ok(apply_bin(*op, &a, &b))
        },
    }
}

/// The length of the name before the first closing brace of `s` (or all of
/// `s` when none).
pub open spec fn close_pos(s: Seq<u8>) -> int
    decreases s.len(),
{
    if s.len() == 0 {
        0
    } else if s[0] == 125 {
        0
    } else {
        1 + close_pos(s.skip(1))
    }
}

/// True when `s` holds a closing brace.
pub open spec fn has_close(s: Seq<u8>) -> bool {
    exists|i: int| 0 <= i < s.len() && s[i] == 125
}

/// What a variable reference expands to in a command line: the rendering
/// of the innermost binding, or empty text for an unbound name.
pub open spec fn lookup_text(env: Seq<FrameView>, name: Seq<u8>) -> Seq<u8> {
    match chain_find(env, name) {
        Option::Some(v) => render_spec(v),
        Option::None => Seq::<u8>::empty(),
    }
}

/// The interpolation of a command line: every `{name}` group is replaced
/// by the named variable's rendering, the rest is kept as it is.
pub open spec fn interp_spec(s: Seq<u8>, env: Seq<FrameView>) -> Seq<u8>
    decreases s.len(),
    via interp_spec_dec

{
    if s.len() == 0 {
        Seq::<u8>::empty()
    } else if s[0] == 123 && has_close(s.skip(1)) {
        let n = close_pos(s.skip(1));
        lookup_text(env, s.skip(1).take(n)) + interp_spec(s.skip(1).skip(n + 1), env)
    } else {
        seq![s[0]] + interp_spec(s.skip(1), env)
    }
}

#[via_fn]
proof fn interp_spec_dec(s: Seq<u8>, env: Seq<FrameView>) {
    if s.len() > 0 && s[0] == 123 && has_close(s.skip(1)) {
        lemma_close_pos_bounds(s.skip(1));
    }
}

/// Bounds of `close_pos`: within the text, and strictly inside it when a
/// closing brace exists.
proof fn lemma_close_pos_bounds(s: Seq<u8>)
    ensures
        0 <= close_pos(s) <= s.len(),
        has_close(s) ==> close_pos(s) < s.len(),
    decreases s.len(),
{
    if s.len() == 0 {
    } else if s[0] == 125 {
    } else {
        lemma_close_pos_bounds(s.skip(1));
        if has_close(s) {
            let i = choose|i: int| 0 <= i < s.len() && #[trigger] s[i] == 125;
            assert(i != 0);
            assert(s.skip(1)[i - 1] == 125);
            assert(has_close(s.skip(1)));
        }
    }
}

/// The index of the first closing brace at or after `from`.
fn find_close(s: &[u8], from: usize) -> (r: Option<usize>)
    requires
        from <= s@.len(),
    ensures
        match r {
            Some(j) => from <= j < s@.len() && has_close(s@.skip(from as int)) && j - from
                == close_pos(s@.skip(from as int)),
            None => !has_close(s@.skip(from as int)),
        },
    decreases s@.len() - from,
{
    if from >= s.len() {
        return None;
    }
    if s[from] == 125 {
        proof {
            assert(s@.skip(from as int)[0] == 125);
        }
        return Some(from);
    }
    proof {
        assert(s@.skip(from as int).skip(1) =~= s@.skip(from as int + 1));
    }
    match find_close(s, from + 1) {
        Some(j) => {
            proof {
                assert forall|i: int|
                    0 <= i < s@.skip(from as int).len() && s@.skip(from as int)[i]
                        == 125 implies has_close(s@.skip(from as int)) by {}
                if has_close(s@.skip(from as int + 1)) {
                    let i = choose|i: int|
                        0 <= i < s@.skip(from as int + 1).len() && #[trigger] s@.skip(
                            from as int + 1,
                        )[i] == 125;
                    assert(s@.skip(from as int)[i + 1] == 125);
                }
            }
            Some(j)
        },
        None => {
            proof {
                if has_close(s@.skip(from as int)) {
                    let i = choose|i: int|
                        0 <= i < s@.skip(from as int).len() && #[trigger] s@.skip(from as int)[i]
                            == 125;
                    assert(i != 0);
                    assert(s@.skip(from as int + 1)[i - 1] == 125);
                }
            }
            None
        },
    }
}

/// Interpolates `s` from position `from` under the scope chain.
fn interp_from(s: &[u8], from: usize, scopes: &Scopes) -> (r: Vec<u8>)
    requires
        from <= s@.len(),
    ensures
        r@ == interp_spec(s@.skip(from as int), scopes@),
    decreases s@.len() - from,
{
    if from >= s.len() {
        proof {
            assert(s@.skip(from as int) =~= Seq::<u8>::empty());
        }
        return Vec::new();
    }
    let ghost tail = s@.skip(from as int);
    proof {
        assert(tail[0] == s@[from as int]);
        assert(tail.skip(1) =~= s@.skip(from as int + 1));
    }
    if s[from] == 123 {
        match find_close(s, from + 1) {
            Some(j) => {
                let name = crate::parse::copy_range(s, from + 1, j);
                proof {
                    assert(tail.skip(1).take(j - (from + 1)) =~= s@.subrange(
                        from as int + 1,
                        j as int,
                    ));
                }
                let val: Vec<u8> = match scopes.lookup(name.as_slice()) {
                    Some(v) => v.render(),
                    None => Vec::new(),
                };
                let mut out = val;
                let rest = interp_from(s, j + 1, scopes);
                crate::text::push_all(&mut out, rest.as_slice());
                proof {
                    assert(tail.skip(1).skip(j - (from + 1) + 1) =~= s@.skip(j as int + 1));
                }
                return out;
            },
            None => {
                let mut out: Vec<u8> = Vec::new();
                out.push(s[from]);
                let rest = interp_from(s, from + 1, scopes);
                crate::text::push_all(&mut out, rest.as_slice());
                proof {
                    assert(out@ =~= seq![tail[0]] + interp_spec(tail.skip(1), scopes@));
                }
                return out;
            },
        }
    }
    let mut out: Vec<u8> = Vec::new();
    out.push(s[from]);
    let rest = interp_from(s, from + 1, scopes);
    crate::text::push_all(&mut out, rest.as_slice());
    proof {
        assert(out@ =~= seq![tail[0]] + interp_spec(tail.skip(1), scopes@));
    }
    out
}

/// Interpolates a whole command line under the scope chain: every
/// `{name}` group becomes the named variable's rendering.
pub fn interpolate(s: &[u8], scopes: &Scopes) -> (r: Vec<u8>)
    ensures
        r@ == interp_spec(s@, scopes@),
{
    let r = interp_from(s, 0, scopes);
    proof {
        assert(s@.skip(0) =~= s@);
    }
    r
}

/// True when `name` is one of the in-flight recipe names.
pub open spec fn on_stack(stack: Seq<Seq<u8>>, name: Seq<u8>) -> bool {
    exists|i: int| 0 <= i < stack.len() && stack[i] == name
}

/// Pushes a recipe name onto the call stack; a name already in flight is
/// exactly what fails, with `RecipeRecursionError` carrying it — recursion
/// is detected before any statement of the re-entered recipe runs.
pub fn push_call(stack: &mut Vec<Vec<u8>>, name: &[u8], extra: Vec<u8>) -> (r: Result<
    (),
    HakuError,
>)
    ensures
        r is Ok <==> !on_stack(old(stack).deep_view(), name@),
        r is Ok ==> final(stack).deep_view() =~~= old(stack).deep_view().push(name@),
        r matches Err(e) ==> e matches HakuError::RecipeRecursionError(n, x) && n@ == name@ && x@
            == extra@,
        r is Err ==> final(stack)@ == old(stack)@,
{
    let mut i: usize = 0;
    while i < stack.len()
        invariant
            i <= stack@.len(),
            forall|j: int| 0 <= j < i ==> old(stack).deep_view()[j] != name@,
            stack == old(stack),
        decreases stack@.len() - i,
    {
        let hit = bytes_eq(stack[i].as_slice(), name);
        proof {
            assert(stack.deep_view()[i as int] == stack@[i as int]@);
        }
        if hit {
            return Err(HakuError::RecipeRecursionError(bytes_of(name), extra));
        }
        i += 1;
    }
    proof {
        assert(!on_stack(stack.deep_view(), name@));
    }
    let ghost pre = stack.deep_view();
    stack.push(bytes_of(name));
    proof {
        assert(stack.deep_view() =~~= pre.push(name@));
    }
    Ok(())
}

/// An open control block during execution.
#[derive(Debug)]
pub enum BlockFrame {
    /// An IF chain whose taken branch is running.
    IfTaken,
    /// A WHILE loop; `header_pc` is the index of its WHILE statement.
    WhileLoop { header_pc: usize },
    /// An integer FOR loop and its iteration state.
    ForLoop { var: Vec<u8>, cur: i64, to: i64, step: i64, header_pc: usize },
    /// A list FOR loop and its iteration state.
    ForList { var: Vec<u8>, items: Vec<Vec<u8>>, idx: usize, header_pc: usize },
}

/// One recipe invocation in flight.
#[derive(Debug)]
pub struct ExecFrame {
    pub recipe_idx: usize,
    pub pc: usize,
    pub blocks: Vec<BlockFrame>,
    pub deps_next: usize,
    pub in_body: bool,
    pub did_cd: bool,
}

/// The whole state of one run.
#[derive(Debug)]
pub struct RunState {
    pub frames: Vec<ExecFrame>,
    pub scopes: Scopes,
    pub call_stack: Vec<Vec<u8>>,
    /// Dry-run commands and trace lines, in order.
    pub log: Vec<Vec<u8>>,
}

/// What one execution step asks of the caller.
#[derive(Debug, PartialEq, Eq)]
pub enum StepEvent {
    /// Spawn this command, wait, and call `step` again only if it
    /// succeeded or the statement ignores failure. `file` and `line_no`
    /// name the statement's source position for diagnostics.
    Shell { cmd: Vec<u8>, ignore_failure: bool, file: Vec<u8>, line_no: usize },
    /// Change the working directory; `save` is true on the recipe's first
    /// directory change, telling the caller to remember the one it leaves
    /// (restored by `RestoreDir` when the recipe finishes).
    ChangeDir { path: Vec<u8>, line_no: usize, save: bool },
    /// Restore the directory saved for the finished recipe.
    RestoreDir,
    /// Internal progress; call `step` again.
    Progress,
    /// The run is complete.
    Done,
}

/// Listing selectors over a recipe.
pub open spec fn sel_listed(r: &Recipe) -> bool {
    r.enabled && !r.hidden && !r.system
}

pub open spec fn sel_disabled(r: &Recipe) -> bool {
    !r.enabled
}

pub open spec fn sel_hidden(r: &Recipe) -> bool {
    r.hidden && r.enabled
}

/// Law: the three listings are pairwise disjoint — a recipe never appears
/// both in the enabled listing and in the disabled one, nor both hidden
/// and plainly listed.
pub proof fn lemma_listings_disjoint(r: &Recipe)
    ensures
        !(sel_listed(r) && sel_disabled(r)),
        !(sel_listed(r) && sel_hidden(r)),
        !(sel_hidden(r) && sel_disabled(r)),
{
}

/// What a recipe's guard decides at load time: a recipe is enabled
/// exactly when its well-formed guard is satisfied by the active feature
/// set (a malformed guard disables it).
pub open spec fn enabled_spec(fs: Seq<Seq<u8>>, r: &Recipe) -> bool {
    if r.guard.wf() {
        guard_sat(fs, &r.guard)
    } else {
        false
    }
}

/// True when two recipes agree on everything but the derived `enabled`
/// flag.
pub open spec fn same_recipe_shape(a: Recipe, b: Recipe) -> bool {
    &&& a.name == b.name
    &&& a.vars == b.vars
    &&& a.variadic == b.variadic
    &&& a.depends == b.depends
    &&& a.desc == b.desc
    &&& a.feat == b.feat
    &&& a.guard == b.guard
    &&& a.system == b.system
    &&& a.hidden == b.hidden
    &&& a.content == b.content
    &&& a.filename == b.filename
    &&& a.line == b.line
    &&& a.body == b.body
}

/// The raw body and metadata of one recipe, for introspection.
#[derive(Debug)]
pub struct RecipeView {
    pub content: Vec<Vec<u8>>,
    pub enabled: bool,
    pub filename: Vec<u8>,
}

/// The execution engine.
pub struct Engine {
    pub opts: RunOpts,
    pub feats: Features,
    pub recipes: Vec<Recipe>,
    pub file_vars: Vec<FileVar>,
    pub free_args: Vec<Vec<u8>>,
}

/// Copies a vector of byte strings.
fn copy_names(v: &Vec<Vec<u8>>) -> (r: Vec<Vec<u8>>)
    ensures
        r.deep_view() =~~= v.deep_view(),
{
    let mut out: Vec<Vec<u8>> = Vec::new();
    let mut i: usize = 0;
    while i < v.len()
        invariant
            i <= v@.len(),
            out.deep_view() =~~= v.deep_view().subrange(0, i as int),
        decreases v@.len() - i,
    {
        out.push(v[i].clone());
        proof {
            assert(out.deep_view() =~~= v.deep_view().subrange(0, i + 1));
        }
        i += 1;
    }
    proof {
        assert(v.deep_view().subrange(0, v.deep_view().len() as int) =~~= v.deep_view());
    }
    out
}

impl Engine {
    /// A fresh engine under the given run configuration.
    pub fn new(opts: RunOpts) -> (r: Engine)
        ensures
            r.opts.dry_run == opts.dry_run,
            r.feats@ =~~= opts.features.deep_view(),
            r.recipes@.len() == 0,
            r.free_args@.len() == 0,
    {
        let feats = Features::new(copy_names(&opts.features));
        Engine { opts, feats, recipes: Vec::new(), file_vars: Vec::new(), free_args: Vec::new() }
    }

    /// Stores the positional arguments handed to the recipe that is run.
    pub fn set_free_args(&mut self, args: Vec<Vec<u8>>)
        ensures
            final(self).free_args == args,
            final(self).opts == old(self).opts,
            final(self).recipes == old(self).recipes,
            final(self).feats == old(self).feats,
    {
        self.free_args = args;
    }

    /// Installs parsed recipes, deriving each `enabled` flag from its
    /// feature guard under the active feature set.
    pub fn install(&mut self, recipes: Vec<Recipe>)
        ensures
            final(self).recipes@.len() == recipes@.len(),
            forall|i: int|
                0 <= i < recipes@.len() ==> #[trigger] final(self).recipes@[i].enabled
                    == enabled_spec(old(self).feats@, &recipes@[i]),
            forall|i: int|
                0 <= i < recipes@.len() ==> same_recipe_shape(
                    #[trigger] final(self).recipes@[i],
                    recipes@[i],
                ),
            final(self).opts == old(self).opts,
            final(self).feats == old(self).feats,
            final(self).free_args == old(self).free_args,
    {
        let mut rs = recipes;
        let mut i: usize = 0;
        while i < rs.len()
            invariant
                i <= rs@.len(),
                rs@.len() == recipes@.len(),
                self.opts == old(self).opts,
                self.feats == old(self).feats,
                forall|j: int| i <= j < rs@.len() ==> #[trigger] rs@[j] == recipes@[j],
                forall|j: int|
                    0 <= j < i ==> #[trigger] rs@[j].enabled == enabled_spec(
                        old(self).feats@,
                        &recipes@[j],
                    ),
                forall|j: int|
                    0 <= j < i ==> same_recipe_shape(#[trigger] rs@[j], recipes@[j]),
            decreases rs@.len() - i,
        {
            let t = rs[i].guard.terms.len();
            let o = rs[i].guard.ops.len();
            let wf_ok: bool = (t == 0 && o == 0) || (t >= 1 && o == t - 1);
            let en: bool = if wf_ok {
                self.feats.evaluate(&rs[i].guard)
            } else {
                false
            };
            rs[i].enabled = en;
            i += 1;
        }
        self.recipes = rs;
    }

    /// Installs the file-scope variable assignments, deriving each
    /// `enabled` flag from its feature guard: a guarded-out assignment
    /// stays parsed but never binds.
    pub fn install_vars(&mut self, vars: Vec<FileVar>)
        ensures
            final(self).file_vars@.len() == vars@.len(),
            forall|i: int|
                0 <= i < vars@.len() ==> #[trigger] final(self).file_vars@[i].enabled == (
                vars@[i].guard.wf() && guard_sat(old(self).feats@, &vars@[i].guard)),
            forall|i: int|
                0 <= i < vars@.len() ==> #[trigger] final(self).file_vars@[i].st == vars@[i].st
                    && final(self).file_vars@[i].guard == vars@[i].guard,
            final(self).opts == old(self).opts,
            final(self).feats == old(self).feats,
            final(self).recipes == old(self).recipes,
            final(self).free_args == old(self).free_args,
    {
        let mut vs = vars;
        let mut i: usize = 0;
        while i < vs.len()
            invariant
                i <= vs@.len(),
                vs@.len() == vars@.len(),
                self.opts == old(self).opts,
                self.feats == old(self).feats,
                self.recipes == old(self).recipes,
                self.free_args == old(self).free_args,
                forall|j: int| i <= j < vs@.len() ==> #[trigger] vs@[j] == vars@[j],
                forall|j: int|
                    0 <= j < i ==> #[trigger] vs@[j].enabled == (vars@[j].guard.wf() && guard_sat(
                        old(self).feats@,
                        &vars@[j].guard,
                    )),
                forall|j: int|
                    0 <= j < i ==> #[trigger] vs@[j].st == vars@[j].st && vs@[j].guard
                        == vars@[j].guard,
            decreases vs@.len() - i,
        {
            let t = vs[i].guard.terms.len();
            let o = vs[i].guard.ops.len();
            let wf_ok: bool = (t == 0 && o == 0) || (t >= 1 && o == t - 1);
            let en: bool = if wf_ok {
                self.feats.evaluate(&vs[i].guard)
            } else {
                false
            };
            vs[i].enabled = en;
            i += 1;
        }
        self.file_vars = vs;
    }

    /// Parses a recipe-file set held in memory (following inclusion
    /// directives inside it) and installs the result.
    pub fn load_from_set(
        &mut self,
        files: &Vec<(Vec<u8>, Vec<u8>)>,
        root: &[u8],
    ) -> (r: Result<(), HakuError>)
        ensures
            final(self).opts == old(self).opts,
            final(self).feats == old(self).feats,
            final(self).free_args == old(self).free_args,
            r is Err ==> final(self).recipes == old(self).recipes && final(self).file_vars == old(
                self,
            ).file_vars,
            r is Ok ==> crate::parse::recipes_ok(final(self).recipes@),
    {
        let parsed = match crate::parse::parse_file_set(files, root) {
            Ok(p) => p,
            Err(e) => {
                return Err(e);
            },
        };
        let (recipes, vars) = parsed;
        let ghost rv = recipes@;
        proof {
            assert(crate::parse::recipes_ok(rv));
        }
        self.install(recipes);
        proof {
            assert forall|i: int|
                0 <= i < self.recipes@.len() implies #[trigger] self.recipes@[i].guard.wf()
                && crate::parse::balanced(crate::parse::stmts_of(self.recipes@[i].body@)) by {
                assert(rv.len() == self.recipes@.len());
                assert(crate::parse::recipes_ok(rv));
                assert(0 <= i < rv.len());
                assert(same_recipe_shape(self.recipes@[i], rv[i]));
                assert(rv[i].guard.wf() && crate::parse::balanced(
                    crate::parse::stmts_of(rv[i].body@),
                ));
                assert(self.recipes@[i].guard == rv[i].guard);
                assert(self.recipes@[i].body == rv[i].body);
            }
        }
        self.install_vars(vars);
        Ok(())
    }

    /// The index of the recipe named `name`, when one exists.
    pub fn find_recipe(&self, name: &[u8]) -> (r: Option<usize>)
        ensures
            match r {
                Some(i) => i < self.recipes@.len() && self.recipes@[i as int].name@ == name@
                    && forall|j: int|
                    0 <= j < i ==> #[trigger] self.recipes@[j].name@ != name@,
                None => forall|i: int|
                    0 <= i < self.recipes@.len() ==> #[trigger] self.recipes@[i].name@ != name@,
            },
    {
        let mut i: usize = 0;
        while i < self.recipes.len()
            invariant
                i <= self.recipes@.len(),
                forall|j: int| 0 <= j < i ==> #[trigger] self.recipes@[j].name@ != name@,
            decreases self.recipes@.len() - i,
        {
            if bytes_eq(self.recipes[i].name.as_slice(), name) {
                return Some(i);
            }
            i += 1;
        }
        None
    }

    /// The names of the enabled features, as handed in.
    pub fn user_features(&self) -> (r: Vec<Vec<u8>>)
        ensures
            r.deep_view() =~~= self.feats@,
    {
        copy_names(&self.feats.names)
    }

    /// The indices of the recipes a mode selects, in first-listed order:
    /// 0 = plainly listed (enabled, not hidden, not internal),
    /// 1 = disabled, 2 = hidden.
    pub fn listing(&self, mode: u8) -> (r: Vec<usize>)
        ensures
            forall|j: int|
                0 <= j < r@.len() ==> #[trigger] r@[j] < self.recipes@.len(),
            forall|j: int|
                0 <= j < r@.len() ==> (if mode == 1 {
                    sel_disabled(&self.recipes@[r@[j] as int])
                } else if mode == 2 {
                    sel_hidden(&self.recipes@[r@[j] as int])
                } else {
                    sel_listed(&self.recipes@[r@[j] as int])
                }),
            forall|i: int|
                0 <= i < self.recipes@.len() && (if mode == 1 {
                    sel_disabled(&self.recipes@[i])
                } else if mode == 2 {
                    sel_hidden(&self.recipes@[i])
                } else {
                    sel_listed(&self.recipes@[i])
                }) ==> exists|j: int| 0 <= j < r@.len() && #[trigger] r@[j] == i,
            forall|a: int, b: int| 0 <= a < b < r@.len() ==> #[trigger] r@[a] < #[trigger] r@[b],
    {
        let mut out: Vec<usize> = Vec::new();
        let mut i: usize = 0;
        while i < self.recipes.len()
            invariant
                i <= self.recipes@.len(),
                forall|j: int|
                    0 <= j < out@.len() ==> #[trigger] out@[j] < self.recipes@.len(),
                forall|j: int|
                    0 <= j < out@.len() ==> (if mode == 1 {
                        sel_disabled(&self.recipes@[out@[j] as int])
                    } else if mode == 2 {
                        sel_hidden(&self.recipes@[out@[j] as int])
                    } else {
                        sel_listed(&self.recipes@[out@[j] as int])
                    }),
                forall|k: int|
                    0 <= k < i && (if mode == 1 {
                        sel_disabled(&self.recipes@[k])
                    } else if mode == 2 {
                        sel_hidden(&self.recipes@[k])
                    } else {
                        sel_listed(&self.recipes@[k])
                    }) ==> exists|j: int| 0 <= j < out@.len() && #[trigger] out@[j] == k,
                forall|a: int, b: int|
                    0 <= a < b < out@.len() ==> #[trigger] out@[a] < #[trigger] out@[b],
                forall|j: int| 0 <= j < out@.len() ==> #[trigger] out@[j] < i,
            decreases self.recipes@.len() - i,
        {
            let ghost out0 = out@;
            let rcp = &self.recipes[i];
            let selected: bool = if mode == 1 {
                !rcp.enabled
            } else if mode == 2 {
                rcp.hidden && rcp.enabled
            } else {
                rcp.enabled && !rcp.hidden && !rcp.system
            };
            if selected {
                out.push(i);
            }
            proof {
                assert forall|k: int|
                    0 <= k < i + 1 && (if mode == 1 {
                        sel_disabled(&self.recipes@[k])
                    } else if mode == 2 {
                        sel_hidden(&self.recipes@[k])
                    } else {
                        sel_listed(&self.recipes@[k])
                    }) implies exists|j: int| 0 <= j < out@.len() && #[trigger] out@[j] == k by {
                    if k == i as int {
                        assert(selected);
                        assert(out@[out@.len() - 1] == i);
                    } else {
                        let j = choose|j: int| 0 <= j < out0.len() && #[trigger] out0[j] == k;
                        assert(out@[j] == k);
                    }
                }
            }
            i += 1;
        }
        out
    }

    /// The plainly listed recipes' indices.
    pub fn recipes_listed(&self) -> (r: Vec<usize>)
        ensures
            forall|j: int|
                0 <= j < r@.len() ==> #[trigger] r@[j] < self.recipes@.len() && sel_listed(
                    &self.recipes@[r@[j] as int],
                ),
            forall|i: int|
                0 <= i < self.recipes@.len() && sel_listed(&self.recipes@[i]) ==> exists|j: int|
                    0 <= j < r@.len() && #[trigger] r@[j] == i,
    {
        self.listing(0)
    }

    /// The disabled recipes' indices.
    pub fn disabled_recipes(&self) -> (r: Vec<usize>)
        ensures
            forall|j: int|
                0 <= j < r@.len() ==> #[trigger] r@[j] < self.recipes@.len() && sel_disabled(
                    &self.recipes@[r@[j] as int],
                ),
            forall|i: int|
                0 <= i < self.recipes@.len() && sel_disabled(&self.recipes@[i]) ==> exists|j: int|
                    0 <= j < r@.len() && #[trigger] r@[j] == i,
    {
        self.listing(1)
    }

    /// The hidden recipes' indices.
    pub fn hidden_recipes(&self) -> (r: Vec<usize>)
        ensures
            forall|j: int|
                0 <= j < r@.len() ==> #[trigger] r@[j] < self.recipes@.len() && sel_hidden(
                    &self.recipes@[r@[j] as int],
                ),
            forall|i: int|
                0 <= i < self.recipes@.len() && sel_hidden(&self.recipes@[i]) ==> exists|j: int|
                    0 <= j < r@.len() && #[trigger] r@[j] == i,
    {
        self.listing(2)
    }

    /// The raw body and metadata of the named recipe; exactly the unknown
    /// names fail, with `RecipeNotFoundError`.
    pub fn recipe_content(&self, name: &[u8]) -> (r: Result<RecipeView, HakuError>)
        ensures
            r is Ok <==> exists|i: int|
                0 <= i < self.recipes@.len() && #[trigger] self.recipes@[i].name@ == name@,
            r matches Ok(v) ==> (forall|i: int|
                (0 <= i < self.recipes@.len() && #[trigger] self.recipes@[i].name@ == name@ && (
                forall|j: int| 0 <= j < i ==> #[trigger] self.recipes@[j].name@ != name@)) ==> (
                v.enabled == self.recipes@[i].enabled && v.filename@ == self.recipes@[i].filename@
                    && v.content.deep_view() == self.recipes@[i].content.deep_view())),
            r matches Err(e) ==> e matches HakuError::RecipeNotFoundError(n) && n@ == name@,
    {
        match self.find_recipe(name) {
            Some(i) => {
                let rcp = &self.recipes[i];
                Ok(
                    RecipeView {
                        content: copy_names(&rcp.content),
                        enabled: rcp.enabled,
                        filename: bytes_of(rcp.filename.as_slice()),
                    },
                )
            },
            None => Err(HakuError::RecipeNotFoundError(bytes_of(name))),
        }
    }
}

/// Validates a FOR range. A zero step never terminates and always fails
/// with `ForeverForError` — the body never runs; a range the step cannot
/// reach fails with `SeqError`; anything else is returned unchanged.
pub fn check_for_range(from: i64, to: i64, step: i64, extra: Vec<u8>) -> (r: Result<
    (i64, i64, i64),
    HakuError,
>)
    ensures
        step == 0 ==> (r matches Err(e) && e matches HakuError::ForeverForError(x) && x@
            == extra@),
        step > 0 && to < from ==> (r matches Err(e) && e == HakuError::SeqError(from, to, step)),
        step < 0 && to > from ==> (r matches Err(e) && e == HakuError::SeqError(from, to, step)),
        (step > 0 && to >= from) || (step < 0 && to <= from) ==> r == Result::<
            (i64, i64, i64),
            HakuError,
        >::Ok((from, to, step)),
{
    if step == 0 {
        Err(HakuError::ForeverForError(extra))
    } else if step > 0 && to < from {
        Err(HakuError::SeqError(from, to, step))
    } else if step < 0 && to > from {
        Err(HakuError::SeqError(from, to, step))
    } else {
        Ok((from, to, step))
    }
}

/// What a FOR bound coerces to: an integer is itself, a string must be a
/// decimal literal; anything else is no integer bound.
pub open spec fn for_bound_spec(v: ValueView) -> Option<int> {
    match v {
        ValueView::Int(n) => Option::Some(n),
        ValueView::Str(s) => if crate::text::is_dec_int(s) {
            Option::Some(crate::text::dec_int_val(s))
        } else {
            Option::None
        },
        ValueView::List(_) => Option::None,
    }
}

/// Coerces a FOR bound to an integer: an integer is itself, a string must
/// be a decimal literal; anything else fails with `SeqIntError` carrying
/// the bound's role.
fn for_bound(v: &Value, role: &[u8]) -> (r: Result<i64, HakuError>)
    ensures
        match r {
            Ok(n) => for_bound_spec(v@) == Option::Some(n as int),
            Err(e) => for_bound_spec(v@) is None && e is SeqIntError,
        },
{
    match v {
        Value::Int(n) => Ok(*n),
        Value::Str(s) => match crate::text::parse_int(s.as_slice()) {
            Some(n) => Ok(n),
            None => Err(HakuError::SeqIntError(bytes_of(role), bytes_of(s.as_slice()))),
        },
        Value::List(_) => Err(HakuError::SeqIntError(bytes_of(role), Vec::new())),
    }
}

/// Splits rendered text into whitespace-separated words.
fn split_words(s: &[u8]) -> (r: Vec<Vec<u8>>) {
    let mut out: Vec<Vec<u8>> = Vec::new();
    let mut cur: Vec<u8> = Vec::new();
    let mut i: usize = 0;
    while i < s.len()
        invariant
            i <= s@.len(),
        decreases s@.len() - i,
    {
        let b = s[i];
        if b == 32 || b == 9 {
            if cur.len() > 0 {
                out.push(cur);
                cur = Vec::new();
            }
        } else {
            cur.push(b);
        }
        i += 1;
    }
    if cur.len() > 0 {
        out.push(cur);
    }
    out
}

/// The index of the next ELSEIF/ELSE/END of the current block, scanning
/// from `from` and skipping nested blocks.
fn scan_branch(body: &Vec<Stmt>, from: usize) -> (r: Option<usize>)
    ensures
        r matches Some(j) ==> from <= j < body@.len(),
{
    let mut depth: usize = 0;
    let mut i: usize = from;
    while i < body.len()
        invariant
            from <= i,
            depth <= i,
        decreases body@.len() - i,
    {
        let bl = body.len();
        proof {
            assert(i < bl);
        }
        match &body[i].st {
            Statement::If(_) => {
                depth += 1;
            },
            Statement::While(_) => {
                depth += 1;
            },
            Statement::ForRange { .. } => {
                depth += 1;
            },
            Statement::ForEach { .. } => {
                depth += 1;
            },
            Statement::End => {
                if depth == 0 {
                    return Some(i);
                }
                depth -= 1;
            },
            Statement::ElseIf(_) => {
                if depth == 0 {
                    return Some(i);
                }
            },
            Statement::Else => {
                if depth == 0 {
                    return Some(i);
                }
            },
            _ => {},
        }
        i += 1;
    }
    None
}

/// The index of the `n`-th unmatched END scanning from `from` (n >= 1).
fn scan_end_n(body: &Vec<Stmt>, from: usize, n: usize) -> (r: Option<usize>)
    ensures
        r matches Some(j) ==> from <= j < body@.len(),
{
    let mut depth: usize = 0;
    let mut remaining: usize = n;
    let mut i: usize = from;
    while i < body.len()
        invariant
            from <= i,
            depth <= i,
        decreases body@.len() - i,
    {
        let bl = body.len();
        proof {
            assert(i < bl);
        }
        match &body[i].st {
            Statement::If(_) => {
                depth += 1;
            },
            Statement::While(_) => {
                depth += 1;
            },
            Statement::ForRange { .. } => {
                depth += 1;
            },
            Statement::ForEach { .. } => {
                depth += 1;
            },
            Statement::End => {
                if depth == 0 {
                    if remaining <= 1 {
                        return Some(i);
                    }
                    remaining -= 1;
                } else {
                    depth -= 1;
                }
            },
            _ => {},
        }
        i += 1;
    }
    None
}

impl Engine {
    /// An internal-fault error for a state the parser's balance check
    /// rules out.
    fn broken(&self) -> (r: HakuError) {
        HakuError::InternalError(Vec::new())
    }

    /// Starts a run of the named recipe (or of the default recipe `_default`
    /// for an empty name). Exactly the unknown names fail with
    /// `RecipeNotFoundError` (a missing default with `DefaultRecipeError`),
    /// and exactly the guard-disabled recipes with `RecipeDisabledError`.
    pub fn start_run(&self, name: &[u8]) -> (r: Result<RunState, HakuError>)
        ensures
            name@.len() > 0 && (forall|i: int|
                0 <= i < self.recipes@.len() ==> #[trigger] self.recipes@[i].name@ != name@)
                ==> (r matches Err(e) && e matches HakuError::RecipeNotFoundError(n) && n@
                == name@),
            name@.len() == 0 && (forall|i: int|
                0 <= i < self.recipes@.len() ==> #[trigger] self.recipes@[i].name@
                    != default_name_s()) ==> (r matches Err(e) && e is DefaultRecipeError),
            forall|i: int|
                (0 <= i < self.recipes@.len() && #[trigger] self.recipes@[i].name@ == wanted_name(
                    name@,
                ) && !self.recipes@[i].enabled && (forall|j: int|
                    0 <= j < i ==> #[trigger] self.recipes@[j].name@ != wanted_name(name@))) ==> (
                r matches Err(e) && e matches HakuError::RecipeDisabledError(n) && n@ == wanted_name(
                    name@,
                )),
            r matches Ok(rs) ==> rs.frames@.len() == 1 && rs.call_stack@.len() == 1
                && rs.call_stack@[0]@ == wanted_name(name@) && rs.log@.len() == 0
                && rs.frames@[0].pc == 0 && !rs.frames@[0].in_body && rs.frames@[0].deps_next == 0
                && rs.frames@[0].recipe_idx < self.recipes@.len()
                && self.recipes@[rs.frames@[0].recipe_idx as int].name@ == wanted_name(name@)
                && self.recipes@[rs.frames@[0].recipe_idx as int].enabled,
            r is Ok ==> exists|i: int|
                0 <= i < self.recipes@.len() && #[trigger] self.recipes@[i].name@ == wanted_name(
                    name@,
                ) && self.recipes@[i].enabled,
            forall|i: int|
                (0 <= i < self.recipes@.len() && #[trigger] self.recipes@[i].name@ == wanted_name(
                    name@,
                ) && self.recipes@[i].enabled && (forall|j: int|
                    0 <= j < i ==> #[trigger] self.recipes@[j].name@ != wanted_name(name@))
                    && self.file_vars_env(self.file_vars@.len() as int) is Some) ==> r is Ok,
            r matches Ok(rs) ==> (self.file_vars_env(self.file_vars@.len() as int)
                matches Option::Some(genv) ==> rs.scopes@ == genv.push(
                bound_entries(
                    self.recipes@[rs.frames@[0].recipe_idx as int].vars@,
                    self.recipes@[rs.frames@[0].recipe_idx as int].variadic,
                    self.free_args@,
                    self.recipes@[rs.frames@[0].recipe_idx as int].vars@.len() as int,
                ),
            )),
            r matches Err(e) ==> !(e is InternalError),
    {
        let def = default_name();
        let wanted: &[u8] = if name.len() > 0 {
            name
        } else {
            def.as_slice()
        };
        let idx = match self.find_recipe(wanted) {
            Some(i) => i,
            None => {
                if name.len() > 0 {
                    return Err(HakuError::RecipeNotFoundError(bytes_of(name)));
                } else {
                    return Err(HakuError::DefaultRecipeError);
                }
            },
        };
        let rcp = &self.recipes[idx];
        if !rcp.enabled {
            return Err(HakuError::RecipeDisabledError(bytes_of(wanted)));
        }
        proof {
            assert(self.recipes@[idx as int].name@ == wanted_name(name@));
        }
        let mut scopes = Scopes::new();
        proof {
            assert(scopes@ =~~= seq![Seq::<(Seq<u8>, ValueView)>::empty()]);
        }
        // Enabled file-scope assignments bind first, into the global frame,
        // in file order.
        let mut vi: usize = 0;
        while vi < self.file_vars.len()
            invariant
                scopes.wf(),
                vi <= self.file_vars@.len(),
                idx < self.recipes@.len(),
                self.recipes@[idx as int].name@ == wanted_name(name@),
                self.recipes@[idx as int].enabled,
                forall|j: int| 0 <= j < idx ==> #[trigger] self.recipes@[j].name@ != wanted_name(name@),
                self.file_vars_env(vi as int) == Option::Some(scopes@),
            decreases self.file_vars@.len() - vi,
        {
            if self.file_vars[vi].enabled {
                match &self.file_vars[vi].st.st {
                    Statement::Assign { global: _, name, expr } => {
                        let v = match eval_expr(&scopes, &self.opts.env_vars, expr) {
                            Ok(v) => v,
                            Err(e) => {
                                proof {
                                    assert(self.file_vars_env(vi + 1) is None);
                                    self.lemma_file_vars_env_none(
                                        vi + 1,
                                        self.file_vars@.len() as int,
                                    );
                                }
                                return Err(e);
                            },
                        };
                        scopes.set_global(bytes_of(name.as_slice()), v);
                        proof {
                            assert(self.file_vars_env(vi + 1) == Option::Some(scopes@));
                        }
                    },
                    _ => {},
                }
            }
            vi += 1;
        }
        let ghost genv = scopes@;
        let rcp = &self.recipes[idx];
        scopes.push_frame();
        bind_args(&mut scopes, &rcp.vars, rcp.variadic, &self.free_args);
        proof {
            assert(scopes@ =~~= genv.push(
                bound_entries(rcp.vars@, rcp.variadic, self.free_args@, rcp.vars@.len() as int),
            ));
        }
        let mut call_stack: Vec<Vec<u8>> = Vec::new();
        call_stack.push(bytes_of(wanted));
        let mut frames: Vec<ExecFrame> = Vec::new();
        frames.push(
            ExecFrame {
                recipe_idx: idx,
                pc: 0,
                blocks: Vec::new(),
                deps_next: 0,
                in_body: false,
                did_cd: false,
            },
        );
        Ok(RunState { frames, scopes, call_stack, log: Vec::new() })
    }

    /// True when the run's top frame stands on a body statement of a
    /// loaded recipe.
    pub open spec fn at_body_stmt(&self, st: &RunState) -> bool {
        &&& st.frames@.len() > 0
        &&& st.scopes@.len() > 0
        &&& st.frames@.last().in_body
        &&& st.frames@.last().recipe_idx < self.recipes@.len()
        &&& st.frames@.last().pc < self.recipes@[st.frames@.last().recipe_idx as int].body@.len()
    }

    /// The body statement the top frame stands on.
    pub open spec fn cur_stmt(&self, st: &RunState) -> Stmt {
        self.recipes@[st.frames@.last().recipe_idx as int].body@[st.frames@.last().pc as int]
    }

    /// The integer a FOR bound expression evaluates and coerces to, when
    /// it does.
    pub open spec fn bound_of(&self, st: &RunState, e: &Expr) -> Option<int> {
        match eval_expr_spec(st.scopes@, self.env_view(), e) {
            Option::Some(v) => for_bound_spec(v),
            Option::None => Option::None,
        }
    }

    /// True when the top frame stands on a FOR statement whose bounds
    /// evaluate to the integers `f`, `t`, `sp` forming a valid, nonempty
    /// range.
    pub open spec fn for_range_entry(&self, st: &RunState, f: int, t: int, sp: int) -> bool {
        &&& self.at_body_stmt(st)
        &&& match self.cur_stmt(st).st {
            Statement::ForRange { var: _, from, to, step } => {
                &&& self.bound_of(st, &from) == Option::Some(f)
                &&& self.bound_of(st, &to) == Option::Some(t)
                &&& self.bound_of(st, &step) == Option::Some(sp)
            },
            _ => false,
        }
        &&& ((sp > 0 && t >= f) || (sp < 0 && t <= f))
    }

    /// True when the top frame stands on an END whose innermost open
    /// block is an integer FOR loop with this iteration state.
    pub open spec fn at_end_for(&self, st: &RunState, c: int, t: int, sp: int, h: int) -> bool {
        &&& self.at_body_stmt(st)
        &&& self.cur_stmt(st).st is End
        &&& st.frames@.last().blocks@.len() > 0
        &&& match st.frames@.last().blocks@.last() {
            BlockFrame::ForLoop { var: _, cur, to, step, header_pc } => {
                &&& cur as int == c
                &&& to as int == t
                &&& step as int == sp
                &&& header_pc as int == h
            },
            _ => false,
        }
        &&& sp != 0
        &&& st.scopes@.len() > 1
        &&& h < self.recipes@[st.frames@.last().recipe_idx as int].body@.len()
    }

    /// The scope chain after the first `k` file-scope variable
    /// assignments have bound into the fresh global frame, in file order;
    /// `None` once any enabled assignment's expression fails to evaluate.
    pub open spec fn file_vars_env(&self, k: int) -> Option<Seq<FrameView>>
        decreases k,
    {
        if k <= 0 {
            Option::Some(seq![Seq::<(Seq<u8>, ValueView)>::empty()])
        } else {
            match self.file_vars_env(k - 1) {
                Option::None => Option::None,
                Option::Some(env) => {
                    let fv = self.file_vars@[k - 1];
                    if !fv.enabled {
                        Option::Some(env)
                    } else {
                        match fv.st.st {
                            Statement::Assign { global: _, name, expr } => match eval_expr_spec(
                                env,
                                self.env_view(),
                                &expr,
                            ) {
                                Option::None => Option::None,
                                Option::Some(v) => Option::Some(
                                    env.update(0, env[0].push((name@, v))),
                                ),
                            },
                            _ => Option::Some(env),
                        }
                    }
                },
            }
        }
    }

    /// Once the file-variable fold fails it stays failed.
    proof fn lemma_file_vars_env_none(&self, a: int, b: int)
        requires
            self.file_vars_env(a) is None,
            a <= b,
        ensures
            self.file_vars_env(b) is None,
        decreases b - a,
    {
        if a < b {
            self.lemma_file_vars_env_none(a, b - 1);
        }
    }

    /// True when the top frame stands on an END whose innermost open
    /// block is a list FOR loop at item `ix` of `n` items.
    pub open spec fn at_end_forlist(&self, st: &RunState, ix: int, n: int, h: int) -> bool {
        &&& self.at_body_stmt(st)
        &&& self.cur_stmt(st).st is End
        &&& st.frames@.last().blocks@.len() > 0
        &&& match st.frames@.last().blocks@.last() {
            BlockFrame::ForList { var: _, items, idx, header_pc } => {
                &&& idx as int == ix
                &&& items@.len() == n
                &&& header_pc as int == h
            },
            _ => false,
        }
        &&& ix < n
        &&& st.scopes@.len() > 1
        &&& h < self.recipes@[st.frames@.last().recipe_idx as int].body@.len()
    }

    /// True when the run's top frame stands before a pending dependency.
    pub open spec fn at_dep(&self, st: &RunState) -> bool {
        &&& st.frames@.len() > 0
        &&& st.scopes@.len() > 0
        &&& !st.frames@.last().in_body
        &&& st.frames@.last().recipe_idx < self.recipes@.len()
        &&& st.frames@.last().deps_next < self.recipes@[st.frames@.last().recipe_idx as int].depends@.len()
    }

    /// The name of the pending dependency.
    pub open spec fn cur_dep(&self, st: &RunState) -> Seq<u8> {
        self.recipes@[st.frames@.last().recipe_idx as int].depends@[st.frames@.last().deps_next as int]@
    }

    /// The source-position suffix of the current statement.
    /// The environment snapshot's mathematical content.
    pub open spec fn env_view(&self) -> Seq<(Seq<u8>, Seq<u8>)> {
        crate::func::pairs_view(self.opts.env_vars@)
    }

    pub open spec fn cur_extra(&self, st: &RunState) -> Seq<u8> {
        crate::errors::error_extra_spec(
            self.recipes@[st.frames@.last().recipe_idx as int].filename@,
            self.cur_stmt(st).line_no as nat,
        )
    }

    /// Performs one execution step. In dry-run mode no `Shell` and no
    /// `ChangeDir` event is ever produced: the would-be command goes into
    /// the run log instead, while assignments, conditionals, loops and
    /// asserts execute normally. On the key statement kinds the step's
    /// outcome is pinned down exactly (see the clauses below): a falsy
    /// ASSERT fails with `AssertError` carrying the condition text and
    /// position; a shell line yields (or, dry, logs) exactly the
    /// interpolated command; an assignment binds the evaluated value in
    /// the innermost (or, global, outermost) frame; a zero-step FOR fails
    /// with `ForeverForError`; a dependency already in flight fails with
    /// `RecipeRecursionError` naming it.
    pub fn step(&self, st: &mut RunState) -> (r: Result<StepEvent, HakuError>)
        ensures
            self.opts.dry_run ==> !(r matches Ok(e) && e is Shell),
            self.opts.dry_run ==> !(r matches Ok(e) && e is ChangeDir),
            (r matches Ok(e) && e is Done) ==> old(st).frames@.len() == 0,
            self.at_body_stmt(old(st)) ==> (self.cur_stmt(old(st)).st matches Statement::Assertion {
                cond,
                text,
            } ==> (eval_expr_spec(old(st).scopes@, crate::func::pairs_view(self.opts.env_vars@), &cond) matches Option::Some(v) ==> ((!truthy(v)
                ==> (r matches Err(e) && e matches HakuError::AssertError(t, x) && t@ == text@ && x@
                == self.cur_extra(old(st)))) && (truthy(v) ==> (r matches Ok(ev) && ev
                is Progress))))),
            self.at_body_stmt(old(st)) ==> (self.cur_stmt(old(st)).st matches Statement::Shell {
                cmd,
                ignore_failure,
            } ==> ((self.opts.dry_run ==> (r matches Ok(ev) && ev is Progress
                && final(st).log.deep_view() == old(st).log.deep_view().push(
                interp_spec(cmd@, old(st).scopes@),
            ))) && (!self.opts.dry_run
                ==> (r matches Ok(ev) && ev matches StepEvent::Shell {
                cmd: c,
                ignore_failure: ig,
                file: sf,
                line_no: ln,
            } && c@ == interp_spec(cmd@, old(st).scopes@) && ig == ignore_failure && ln
                == self.cur_stmt(old(st)).line_no && sf@ == self.recipes@[old(
                st,
            ).frames@.last().recipe_idx as int].filename@ && final(st).log == old(st).log)))),
            self.at_body_stmt(old(st)) ==> (self.cur_stmt(old(st)).st matches Statement::Assign {
                global,
                name,
                expr,
            } ==> (eval_expr_spec(old(st).scopes@, crate::func::pairs_view(self.opts.env_vars@), &expr) matches Option::Some(v) ==> (r matches Ok(
                ev,
            ) && ev is Progress && (global ==> final(st).scopes@ == old(st).scopes@.update(
                0,
                old(st).scopes@[0].push((name@, v)),
            )) && (!global ==> final(st).scopes@ == old(st).scopes@.update(
                old(st).scopes@.len() - 1,
                old(st).scopes@.last().push((name@, v)),
            ))))),
            self.at_body_stmt(old(st)) ==> (self.cur_stmt(old(st)).st matches Statement::ForRange {
                var,
                from,
                to,
                step,
            } ==> ((eval_expr_spec(old(st).scopes@, crate::func::pairs_view(self.opts.env_vars@), &from) matches Option::Some(fv)
                && (for_bound_spec(fv) is Some && (eval_expr_spec(old(st).scopes@, crate::func::pairs_view(self.opts.env_vars@), &to)
                matches Option::Some(tv) && (for_bound_spec(tv) is Some && (eval_expr_spec(
                old(st).scopes@,
                crate::func::pairs_view(self.opts.env_vars@),
                &step,
            ) matches Option::Some(sv) && for_bound_spec(sv) == Option::Some(0int)))))) ==> (r
                matches Err(e) && e matches HakuError::ForeverForError(x) && x@ == self.cur_extra(
                old(st),
            )))),
            self.at_body_stmt(old(st)) ==> (self.cur_stmt(old(st)).st matches Statement::Raise {
                msg,
            } ==> (eval_expr_spec(old(st).scopes@, crate::func::pairs_view(self.opts.env_vars@), &msg)
                matches Option::Some(v) ==> (r matches Err(e) && e matches HakuError::UserError(
                m,
                x,
            ) && m@ == render_spec(v) && x@ == self.cur_extra(old(st))))),
            self.at_body_stmt(old(st)) ==> (self.cur_stmt(old(st)).st matches Statement::Cd {
                path,
            } ==> ((self.opts.dry_run ==> (r matches Ok(ev) && ev is Progress
                && final(st).log.deep_view() == old(st).log.deep_view().push(
                interp_spec(path@, old(st).scopes@),
            ))) && (!self.opts.dry_run ==> (r matches Ok(ev) && ev matches StepEvent::ChangeDir {
                path: p,
                line_no: ln,
                save,
            } && p@ == interp_spec(path@, old(st).scopes@) && ln == self.cur_stmt(old(st)).line_no
                && save == !old(st).frames@.last().did_cd)))),
            forall|f: int, t: int, sp: int|
                #[trigger] self.for_range_entry(old(st), f, t, sp) ==> (self.cur_stmt(
                    old(st),
                ).st matches Statement::ForRange { var, .. } ==> (r matches Ok(ev) && ev
                    is Progress && final(st).scopes@ == old(st).scopes@.push(
                    seq![(var@, ValueView::Int(f))],
                ) && final(st).frames@.last().pc == old(st).frames@.last().pc + 1
                    && final(st).frames@.last().blocks@.len() == old(st).frames@.last().blocks@.len() + 1 && (
                final(st).frames@.last().blocks@.last() matches BlockFrame::ForLoop {
                    var: v2,
                    cur: c2,
                    to: t2,
                    step: s2,
                    header_pc: h2,
                } && v2@ == var@ && c2 as int == f && t2 as int == t && s2 as int == sp && h2
                    == old(st).frames@.last().pc))),
            self.at_body_stmt(old(st)) ==> (self.cur_stmt(old(st)).st matches Statement::While {
                0: cond,
            } ==> (eval_expr_spec(old(st).scopes@, self.env_view(), &cond) matches Option::Some(v)
                ==> ((truthy(v) ==> (r matches Ok(ev) && ev is Progress && final(st).scopes@ == old(
                st,
            ).scopes@.push(Seq::<(Seq<u8>, ValueView)>::empty()) && final(st).frames@.last().pc
                == old(st).frames@.last().pc + 1 && final(st).frames@.last().blocks@.len() == old(
                st,
            ).frames@.last().blocks@.len() + 1 && (final(st).frames@.last().blocks@.last()
                matches BlockFrame::WhileLoop { header_pc: h } && h == old(
                st,
            ).frames@.last().pc))) && (!truthy(v) ==> (r matches Ok(ev2) ==> (ev2 is Progress
                && final(st).scopes@ == old(st).scopes@ && final(st).frames@.last().blocks@ == old(
                st,
            ).frames@.last().blocks@)))))),
            forall|ix: int, n: int, h: int|
                #[trigger] self.at_end_forlist(old(st), ix, n, h) ==> (old(
                    st,
                ).frames@.last().blocks@.last() matches BlockFrame::ForList { var, items, .. }
                    ==> ((ix + 1 < n ==> (r matches Ok(ev) && ev is Progress && final(st).scopes@
                    == old(st).scopes@.drop_last().push(
                    seq![(var@, ValueView::Str(items@[ix + 1]@))],
                ) && final(st).frames@.last().pc == h + 1
                    && final(st).frames@.last().blocks@.len() == old(
                    st,
                ).frames@.last().blocks@.len())) && (ix + 1 >= n ==> (r matches Ok(ev2) && ev2
                    is Progress && final(st).scopes@ == old(st).scopes@.drop_last() && final(st).frames@.last().pc == old(st).frames@.last().pc + 1
                    && final(st).frames@.last().blocks@.len() == old(
                    st,
                ).frames@.last().blocks@.len() - 1)))),
            forall|c: int, t: int, sp: int, h: int|
                #[trigger] self.at_end_for(old(st), c, t, sp, h) ==> (old(
                    st,
                ).frames@.last().blocks@.last() matches BlockFrame::ForLoop { var, .. } ==> (((sp
                    > 0 && c + sp <= t) || (sp < 0 && c + sp >= t)) ==> (r matches Ok(ev) && ev
                    is Progress && final(st).scopes@ == old(st).scopes@.drop_last().push(
                    seq![(var@, ValueView::Int(clamp64(c + sp)))],
                ) && final(st).frames@.last().pc == h + 1
                    && final(st).frames@.last().blocks@.len() == old(
                    st,
                ).frames@.last().blocks@.len()))),
            forall|c: int, t: int, sp: int, h: int|
                #[trigger] self.at_end_for(old(st), c, t, sp, h) ==> (!((sp > 0 && c + sp <= t) || (
                sp < 0 && c + sp >= t)) ==> (r matches Ok(ev) && ev is Progress && final(st).scopes@
                    == old(st).scopes@.drop_last() && final(st).frames@.last().pc == old(
                    st,
                ).frames@.last().pc + 1 && final(st).frames@.last().blocks@.len() == old(
                    st,
                ).frames@.last().blocks@.len() - 1)),
            self.at_body_stmt(old(st)) ==> (self.cur_stmt(old(st)).st is End ==> (old(
                st,
            ).frames@.last().blocks@.len() > 0 ==> (old(st).frames@.last().blocks@.last()
                matches BlockFrame::WhileLoop { header_pc } ==> ((old(st).scopes@.len() > 1
                && header_pc < self.recipes@[old(st).frames@.last().recipe_idx as int].body@.len())
                ==> (r matches Ok(ev) && ev is Progress && final(st).scopes@ == old(
                st,
            ).scopes@.drop_last() && final(st).frames@.last().pc == header_pc && final(st).frames@.last().blocks@.len() == old(st).frames@.last().blocks@.len() - 1))))),
            self.at_body_stmt(old(st)) ==> (self.cur_stmt(old(st)).st is End ==> (old(
                st,
            ).frames@.last().blocks@.len() > 0 ==> ((old(st).frames@.last().blocks@.last()
                matches BlockFrame::IfTaken) ==> (r matches Ok(ev) && ev is Progress && final(st).scopes@ == old(st).scopes@ && final(st).frames@.last().pc == old(
                st,
            ).frames@.last().pc + 1 && final(st).frames@.last().blocks@.len() == old(
                st,
            ).frames@.last().blocks@.len() - 1)))),
            self.at_body_stmt(old(st)) ==> (self.cur_stmt(old(st)).st matches Statement::If {
                0: cond,
            } ==> (eval_expr_spec(old(st).scopes@, self.env_view(), &cond) matches Option::Some(v)
                ==> (truthy(v) ==> (r matches Ok(ev) && ev is Progress && final(st).scopes@ == old(
                st,
            ).scopes@ && final(st).frames@.last().pc == old(st).frames@.last().pc + 1
                && final(st).frames@.last().blocks@.len() == old(st).frames@.last().blocks@.len()
                + 1 && final(st).frames@.last().blocks@.last() is IfTaken)))),
            self.at_dep(old(st)) && on_stack(old(st).call_stack.deep_view(), self.cur_dep(old(st)))
                ==> (r matches Err(e) && e matches HakuError::RecipeRecursionError(n, x) && n@
                == self.recipes@[old(st).frames@.last().recipe_idx as int].depends@[old(
                st,
            ).frames@.last().deps_next as int]@ && x@ == crate::errors::error_extra_spec(
                self.recipes@[old(st).frames@.last().recipe_idx as int].filename@,
                self.recipes@[old(st).frames@.last().recipe_idx as int].line as nat,
            )),
            self.at_dep(old(st)) && !on_stack(
                old(st).call_stack.deep_view(),
                self.cur_dep(old(st)),
            ) && (forall|i: int|
                0 <= i < self.recipes@.len() ==> #[trigger] self.recipes@[i].name@ != self.cur_dep(
                    old(st),
                )) ==> (r matches Err(e) && e matches HakuError::RecipeNotFoundError(n) && n@
                == self.cur_dep(old(st))),
            self.at_dep(old(st)) && !on_stack(
                old(st).call_stack.deep_view(),
                self.cur_dep(old(st)),
            ) ==> (forall|i: int|
                (0 <= i < self.recipes@.len() && #[trigger] self.recipes@[i].name@ == self.cur_dep(
                    old(st),
                ) && !self.recipes@[i].enabled && (forall|j: int|
                    0 <= j < i ==> #[trigger] self.recipes@[j].name@ != self.cur_dep(old(st))))
                    ==> (r matches Err(e) && e matches HakuError::RecipeDisabledError(n) && n@
                    == self.cur_dep(old(st)))),
            self.at_dep(old(st)) && !on_stack(
                old(st).call_stack.deep_view(),
                self.cur_dep(old(st)),
            ) ==> (forall|i: int|
                (0 <= i < self.recipes@.len() && #[trigger] self.recipes@[i].name@ == self.cur_dep(
                    old(st),
                ) && self.recipes@[i].enabled && (forall|j: int|
                    0 <= j < i ==> #[trigger] self.recipes@[j].name@ != self.cur_dep(old(st))))
                    ==> (r matches Ok(ev) && ev is Progress && final(st).call_stack.deep_view()
                    == old(st).call_stack.deep_view().push(self.cur_dep(old(st)))
                    && final(st).scopes@ == old(st).scopes@.push(
                    Seq::<(Seq<u8>, ValueView)>::empty(),
                ) && final(st).frames@.len() == old(st).frames@.len() + 1
                    && final(st).frames@.last().recipe_idx == i && final(st).frames@.last().pc == 0
                    && !final(st).frames@.last().in_body && final(st).frames@.last().deps_next == 0
                    && final(st).frames@.last().blocks@.len() == 0 && final(st).frames@[old(
                    st,
                ).frames@.len() - 1].deps_next == old(st).frames@.last().deps_next + 1)),
    {
        if st.frames.len() == 0 {
            return Ok(StepEvent::Done);
        }
        if st.scopes.frames.len() == 0 {
            return Err(self.broken());
        }
        let fi = st.frames.len() - 1;
        let ridx = st.frames[fi].recipe_idx;
        if ridx >= self.recipes.len() {
            return Err(self.broken());
        }
        let rcp = &self.recipes[ridx];
        if !st.frames[fi].in_body {
            let dn = st.frames[fi].deps_next;
            if dn < rcp.depends.len() {
                let dep = bytes_of(rcp.depends[dn].as_slice());
                st.frames[fi].deps_next = dn + 1;
                let extra = HakuError::error_extra(rcp.filename.as_slice(), rcp.line);
                match push_call(&mut st.call_stack, dep.as_slice(), extra) {
                    Ok(()) => {},
                    Err(e) => {
                        return Err(e);
                    },
                }
                let didx = match self.find_recipe(dep.as_slice()) {
                    Some(i) => i,
                    None => {
                        return Err(HakuError::RecipeNotFoundError(dep));
                    },
                };
                if !self.recipes[didx].enabled {
                    return Err(HakuError::RecipeDisabledError(dep));
                }
                st.scopes.push_frame();
                st.frames.push(
                    ExecFrame {
                        recipe_idx: didx,
                        pc: 0,
                        blocks: Vec::new(),
                        deps_next: 0,
                        in_body: false,
                        did_cd: false,
                    },
                );
                return Ok(StepEvent::Progress);
            }
            st.frames[fi].in_body = true;
            return Ok(StepEvent::Progress);
        }
        let pc = st.frames[fi].pc;
        if pc >= rcp.body.len() {
            // The recipe is finished: restore its directory if it changed
            // one, and pop its scope frame and call-stack entry.
            let did_cd = st.frames[fi].did_cd;
            let _ = st.frames.pop();
            let _ = st.call_stack.pop();
            if st.scopes.frames.len() > 1 {
                st.scopes.pop_frame();
            }
            if did_cd && !self.opts.dry_run {
                return Ok(StepEvent::RestoreDir);
            }
            return Ok(StepEvent::Progress);
        }
        let line_no = rcp.body[pc].line_no;
        let extra = HakuError::error_extra(rcp.filename.as_slice(), line_no);
        match &rcp.body[pc].st {
            Statement::Assign { global, name, expr } => {
                let v = match eval_expr(&st.scopes, &self.opts.env_vars, expr) {
                    Ok(v) => v,
                    Err(e) => {
                        return Err(e);
                    },
                };
                if st.scopes.frames.len() == 0 {
                    return Err(self.broken());
                }
                if *global {
                    st.scopes.set_global(bytes_of(name.as_slice()), v);
                } else {
                    st.scopes.set_local(bytes_of(name.as_slice()), v);
                }
                st.frames[fi].pc = pc + 1;
                Ok(StepEvent::Progress)
            },
            Statement::If(cond) => {
                let v = match eval_expr(&st.scopes, &self.opts.env_vars, cond) {
                    Ok(v) => v,
                    Err(e) => {
                        return Err(e);
                    },
                };
                if v.is_truthy() {
                    st.frames[fi].blocks.push(BlockFrame::IfTaken);
                    st.frames[fi].pc = pc + 1;
                    return Ok(StepEvent::Progress);
                }
                let nxt = match scan_branch(&rcp.body, pc + 1) {
                    Some(j) => j,
                    None => {
                        return Err(self.broken());
                    },
                };
                let kind: u8 = match &rcp.body[nxt].st {
                    Statement::End => 0,
                    Statement::Else => 1,
                    _ => 2,
                };
                if kind == 0 {
                    st.frames[fi].pc = nxt + 1;
                    return Ok(StepEvent::Progress);
                }
                if kind == 1 {
                    st.frames[fi].blocks.push(BlockFrame::IfTaken);
                    st.frames[fi].pc = nxt + 1;
                    return Ok(StepEvent::Progress);
                }
                self.enter_branch_chain(st, fi, ridx, nxt)
            },
            Statement::ElseIf(_) => self.skip_taken_branch(st, fi, ridx, pc),
            Statement::Else => self.skip_taken_branch(st, fi, ridx, pc),
            Statement::While(cond) => {
                let v = match eval_expr(&st.scopes, &self.opts.env_vars, cond) {
                    Ok(v) => v,
                    Err(e) => {
                        return Err(e);
                    },
                };
                if v.is_truthy() {
                    st.frames[fi].blocks.push(BlockFrame::WhileLoop { header_pc: pc });
                    st.scopes.push_frame();
                    st.frames[fi].pc = pc + 1;
                } else {
                    let end = match scan_end_n(&rcp.body, pc + 1, 1) {
                        Some(j) => j,
                        None => {
                            return Err(self.broken());
                        },
                    };
                    st.frames[fi].pc = end + 1;
                }
                Ok(StepEvent::Progress)
            },
            Statement::ForRange { var, from, to, step } => {
                proof {
                    assert(self.cur_stmt(old(st)) == rcp.body@[pc as int]);
                }
                let fv = match eval_expr(&st.scopes, &self.opts.env_vars, from) {
                    Ok(v) => v,
                    Err(e) => {
                        return Err(e);
                    },
                };
                let tv = match eval_expr(&st.scopes, &self.opts.env_vars, to) {
                    Ok(v) => v,
                    Err(e) => {
                        return Err(e);
                    },
                };
                let sv = match eval_expr(&st.scopes, &self.opts.env_vars, step) {
                    Ok(v) => v,
                    Err(e) => {
                        return Err(e);
                    },
                };
                let from_w = crate::words::role_from();
                let to_w = crate::words::role_to();
                let step_w = crate::words::role_step();
                let f = match for_bound(&fv, from_w.as_slice()) {
                    Ok(n) => n,
                    Err(e) => {
                        return Err(e);
                    },
                };
                let t = match for_bound(&tv, to_w.as_slice()) {
                    Ok(n) => n,
                    Err(e) => {
                        return Err(e);
                    },
                };
                let sp = match for_bound(&sv, step_w.as_slice()) {
                    Ok(n) => n,
                    Err(e) => {
                        return Err(e);
                    },
                };
                let (f, t, sp) = match check_for_range(f, t, sp, extra) {
                    Ok(x) => x,
                    Err(e) => {
                        return Err(e);
                    },
                };
                st.frames[fi].blocks.push(
                    BlockFrame::ForLoop {
                        var: bytes_of(var.as_slice()),
                        cur: f,
                        to: t,
                        step: sp,
                        header_pc: pc,
                    },
                );
                st.scopes.push_frame();
                st.scopes.set_local(bytes_of(var.as_slice()), Value::Int(f));
                st.frames[fi].pc = pc + 1;
                Ok(StepEvent::Progress)
            },
            Statement::ForEach { var, items } => {
                let v = match eval_expr(&st.scopes, &self.opts.env_vars, items) {
                    Ok(v) => v,
                    Err(e) => {
                        return Err(e);
                    },
                };
                let words: Vec<Vec<u8>> = match v {
                    Value::List(l) => l,
                    other => {
                        let rendered = other.render();
                        split_words(rendered.as_slice())
                    },
                };
                if words.len() == 0 {
                    let end = match scan_end_n(&rcp.body, pc + 1, 1) {
                        Some(j) => j,
                        None => {
                            return Err(self.broken());
                        },
                    };
                    st.frames[fi].pc = end + 1;
                    return Ok(StepEvent::Progress);
                }
                let first = bytes_of(words[0].as_slice());
                st.frames[fi].blocks.push(
                    BlockFrame::ForList {
                        var: bytes_of(var.as_slice()),
                        items: words,
                        idx: 0,
                        header_pc: pc,
                    },
                );
                st.scopes.push_frame();
                st.scopes.set_local(bytes_of(var.as_slice()), Value::Str(first));
                st.frames[fi].pc = pc + 1;
                Ok(StepEvent::Progress)
            },
            Statement::End => self.handle_end(st, fi, ridx, pc),
            Statement::Break => self.handle_break(st, fi, ridx, pc, false),
            Statement::Continue => self.handle_break(st, fi, ridx, pc, true),
            Statement::Assertion { cond, text } => {
                let v = match eval_expr(&st.scopes, &self.opts.env_vars, cond) {
                    Ok(v) => v,
                    Err(e) => {
                        return Err(e);
                    },
                };
                if !v.is_truthy() {
                    return Err(HakuError::AssertError(bytes_of(text.as_slice()), extra));
                }
                st.frames[fi].pc = pc + 1;
                Ok(StepEvent::Progress)
            },
            Statement::Raise { msg } => {
                let v = match eval_expr(&st.scopes, &self.opts.env_vars, msg) {
                    Ok(v) => v,
                    Err(e) => {
                        return Err(e);
                    },
                };
                Err(HakuError::UserError(v.render(), extra))
            },
            Statement::Cd { path } => {
                let target = interpolate(path.as_slice(), &st.scopes);
                st.frames[fi].pc = pc + 1;
                if self.opts.dry_run {
                    let ghost pre_log = st.log.deep_view();
                    st.log.push(target);
                    proof {
                        assert(st.log.deep_view() =~~= pre_log.push(
                            interp_spec(path@, old(st).scopes@),
                        ));
                    }
                    Ok(StepEvent::Progress)
                } else {
                    let save: bool = !st.frames[fi].did_cd;
                    st.frames[fi].did_cd = true;
                    Ok(StepEvent::ChangeDir { path: target, line_no, save })
                }
            },
            Statement::Shell { cmd, ignore_failure } => {
                let rendered = interpolate(cmd.as_slice(), &st.scopes);
                st.frames[fi].pc = pc + 1;
                if self.opts.dry_run {
                    let ghost pre_log = st.log.deep_view();
                    st.log.push(rendered);
                    proof {
                        assert(st.log.deep_view() =~~= pre_log.push(
                            interp_spec(cmd@, old(st).scopes@),
                        ));
                    }
                    Ok(StepEvent::Progress)
                } else {
                    Ok(
                        StepEvent::Shell {
                            cmd: rendered,
                            ignore_failure: *ignore_failure,
                            file: bytes_of(rcp.filename.as_slice()),
                            line_no,
                        },
                    )
                }
            },
        }
    }

    /// Walks an IF/ELSEIF/ELSE chain from its first condition until one
    /// holds (entering that branch) or the chain ends.
    fn enter_branch_chain(
        &self,
        st: &mut RunState,
        fi: usize,
        ridx: usize,
        pc: usize,
    ) -> (r: Result<StepEvent, HakuError>)
        requires
            ridx < self.recipes@.len(),
            fi < old(st).frames@.len(),
            pc < self.recipes@[ridx as int].body@.len(),
        ensures
            !(r matches Ok(e) && e is Shell),
            !(r matches Ok(e) && e is ChangeDir),
            !(r matches Ok(e) && e is Done),
    {
        let rcp = &self.recipes[ridx];
        let bl = rcp.body.len();
        proof {
            assert(pc < bl);
        }
        let mut cur: usize = pc;
        loop
            invariant
                fi < st.frames@.len(),
                ridx < self.recipes@.len(),
                rcp == &self.recipes@[ridx as int],
            decreases rcp.body@.len() - cur,
        {
            if cur >= rcp.body.len() {
                return Err(self.broken());
            }
            let truth: bool = match &rcp.body[cur].st {
                Statement::If(c) => {
                    let v = match eval_expr(&st.scopes, &self.opts.env_vars, c) {
                        Ok(v) => v,
                        Err(e) => {
                            return Err(e);
                        },
                    };
                    v.is_truthy()
                },
                Statement::ElseIf(c) => {
                    let v = match eval_expr(&st.scopes, &self.opts.env_vars, c) {
                        Ok(v) => v,
                        Err(e) => {
                            return Err(e);
                        },
                    };
                    v.is_truthy()
                },
                Statement::Else => true,
                _ => {
                    return Err(self.broken());
                },
            };
            if truth {
                if fi >= st.frames.len() {
                    return Err(self.broken());
                }
                st.frames[fi].blocks.push(BlockFrame::IfTaken);
                st.frames[fi].pc = cur + 1;
                return Ok(StepEvent::Progress);
            }
            let nxt = match scan_branch(&rcp.body, cur + 1) {
                Some(j) => j,
                None => {
                    return Err(self.broken());
                },
            };
            let is_end: bool = match &rcp.body[nxt].st {
                Statement::End => true,
                _ => false,
            };
            if is_end {
                if fi >= st.frames.len() {
                    return Err(self.broken());
                }
                st.frames[fi].pc = nxt + 1;
                return Ok(StepEvent::Progress);
            }
            cur = nxt;
        }
    }

    /// A taken IF branch ran into the next ELSEIF/ELSE: skip to the
    /// chain's END and close the block.
    fn skip_taken_branch(
        &self,
        st: &mut RunState,
        fi: usize,
        ridx: usize,
        pc: usize,
    ) -> (r: Result<StepEvent, HakuError>)
        requires
            ridx < self.recipes@.len(),
            fi < old(st).frames@.len(),
            pc < self.recipes@[ridx as int].body@.len(),
        ensures
            !(r matches Ok(e) && e is Shell),
            !(r matches Ok(e) && e is ChangeDir),
            !(r matches Ok(e) && e is Done),
    {
        let rcp = &self.recipes[ridx];
        let bl = rcp.body.len();
        proof {
            assert(pc < bl);
        }
        let is_if_top: bool = match st.frames[fi].blocks.last() {
            Some(BlockFrame::IfTaken) => true,
            _ => false,
        };
        if !is_if_top {
            return Err(self.broken());
        }
        let end = match scan_end_n(&rcp.body, pc + 1, 1) {
            Some(j) => j,
            None => {
                return Err(self.broken());
            },
        };
        let _ = st.frames[fi].blocks.pop();
        st.frames[fi].pc = end + 1;
        Ok(StepEvent::Progress)
    }

    /// Handles an END: closes an IF chain, re-tests a WHILE, or advances a
    /// FOR iteration in a fresh scope frame.
    fn handle_end(
        &self,
        st: &mut RunState,
        fi: usize,
        ridx: usize,
        pc: usize,
    ) -> (r: Result<StepEvent, HakuError>)
        requires
            ridx < self.recipes@.len(),
            fi < old(st).frames@.len(),
            fi + 1 == old(st).frames@.len(),
            pc == old(st).frames@.last().pc,
            ridx == old(st).frames@.last().recipe_idx,
            pc < self.recipes@[ridx as int].body@.len(),
        ensures
            !(r matches Ok(e) && e is Shell),
            !(r matches Ok(e) && e is ChangeDir),
            !(r matches Ok(e) && e is Done),
            forall|ix: int, n: int, h: int|
                #[trigger] self.at_end_forlist(old(st), ix, n, h) ==> (old(
                    st,
                ).frames@.last().blocks@.last() matches BlockFrame::ForList { var, items, .. }
                    ==> ((ix + 1 < n ==> (r matches Ok(ev) && ev is Progress && final(st).scopes@
                    == old(st).scopes@.drop_last().push(
                    seq![(var@, ValueView::Str(items@[ix + 1]@))],
                ) && final(st).frames@.last().pc == h + 1
                    && final(st).frames@.last().blocks@.len() == old(
                    st,
                ).frames@.last().blocks@.len())) && (ix + 1 >= n ==> (r matches Ok(ev2) && ev2
                    is Progress && final(st).scopes@ == old(st).scopes@.drop_last() && final(st).frames@.last().pc == old(st).frames@.last().pc + 1
                    && final(st).frames@.last().blocks@.len() == old(
                    st,
                ).frames@.last().blocks@.len() - 1)))),
            forall|c: int, t: int, sp: int, h: int|
                #[trigger] self.at_end_for(old(st), c, t, sp, h) ==> (old(
                    st,
                ).frames@.last().blocks@.last() matches BlockFrame::ForLoop { var, .. } ==> (((sp
                    > 0 && c + sp <= t) || (sp < 0 && c + sp >= t)) ==> (r matches Ok(ev) && ev
                    is Progress && final(st).scopes@ == old(st).scopes@.drop_last().push(
                    seq![(var@, ValueView::Int(clamp64(c + sp)))],
                ) && final(st).frames@.last().pc == h + 1
                    && final(st).frames@.last().blocks@.len() == old(
                    st,
                ).frames@.last().blocks@.len()))),
            forall|c: int, t: int, sp: int, h: int|
                #[trigger] self.at_end_for(old(st), c, t, sp, h) ==> (!((sp > 0 && c + sp <= t) || (
                sp < 0 && c + sp >= t)) ==> (r matches Ok(ev) && ev is Progress && final(st).scopes@
                    == old(st).scopes@.drop_last() && final(st).frames@.last().pc == old(
                    st,
                ).frames@.last().pc + 1 && final(st).frames@.last().blocks@.len() == old(
                    st,
                ).frames@.last().blocks@.len() - 1)),
            self.at_body_stmt(old(st)) ==> (self.cur_stmt(old(st)).st is End ==> (old(
                st,
            ).frames@.last().blocks@.len() > 0 ==> (old(st).frames@.last().blocks@.last()
                matches BlockFrame::WhileLoop { header_pc } ==> ((old(st).scopes@.len() > 1
                && header_pc < self.recipes@[old(st).frames@.last().recipe_idx as int].body@.len())
                ==> (r matches Ok(ev) && ev is Progress && final(st).scopes@ == old(
                st,
            ).scopes@.drop_last() && final(st).frames@.last().pc == header_pc && final(st).frames@.last().blocks@.len() == old(st).frames@.last().blocks@.len() - 1))))),
            self.at_body_stmt(old(st)) ==> (self.cur_stmt(old(st)).st is End ==> (old(
                st,
            ).frames@.last().blocks@.len() > 0 ==> ((old(st).frames@.last().blocks@.last()
                matches BlockFrame::IfTaken) ==> (r matches Ok(ev) && ev is Progress && final(st).scopes@ == old(st).scopes@ && final(st).frames@.last().pc == old(
                st,
            ).frames@.last().pc + 1 && final(st).frames@.last().blocks@.len() == old(
                st,
            ).frames@.last().blocks@.len() - 1)))),
    {
        let bl = self.recipes[ridx].body.len();
        proof {
            assert(pc < bl);
        }
        let top = match st.frames[fi].blocks.pop() {
            Some(b) => b,
            None => {
                return Err(self.broken());
            },
        };
        match top {
            BlockFrame::IfTaken => {
                st.frames[fi].pc = pc + 1;
                Ok(StepEvent::Progress)
            },
            BlockFrame::WhileLoop { header_pc } => {
                if header_pc >= bl {
                    return Err(self.broken());
                }
                // Each iteration ran in its own child scope; the WHILE
                // statement re-evaluates and reopens one.
                if st.scopes.frames.len() > 1 {
                    st.scopes.pop_frame();
                }
                st.frames[fi].pc = header_pc;
                Ok(StepEvent::Progress)
            },
            BlockFrame::ForLoop { var, cur, to, step, header_pc } => {
                if header_pc >= bl {
                    return Err(self.broken());
                }
                let next_i: i128 = cur as i128 + step as i128;
                let cont: bool = if step > 0 {
                    next_i <= to as i128
                } else {
                    next_i >= to as i128
                };
                if st.scopes.frames.len() > 1 {
                    st.scopes.pop_frame();
                }
                if cont {
                    let nxt: i64 = clamp_exec(next_i);
                    st.scopes.push_frame();
                    st.scopes.set_local(bytes_of(var.as_slice()), Value::Int(nxt));
                    st.frames[fi].blocks.push(
                        BlockFrame::ForLoop { var, cur: nxt, to, step, header_pc },
                    );
                    st.frames[fi].pc = header_pc + 1;
                } else {
                    st.frames[fi].pc = pc + 1;
                }
                Ok(StepEvent::Progress)
            },
            BlockFrame::ForList { var, items, idx, header_pc } => {
                if header_pc >= bl || idx >= items.len() {
                    return Err(self.broken());
                }
                if st.scopes.frames.len() > 1 {
                    st.scopes.pop_frame();
                }
                if idx + 1 < items.len() {
                    let nxt = bytes_of(items[idx + 1].as_slice());
                    st.scopes.push_frame();
                    st.scopes.set_local(bytes_of(var.as_slice()), Value::Str(nxt));
                    st.frames[fi].blocks.push(
                        BlockFrame::ForList { var, items, idx: idx + 1, header_pc },
                    );
                    st.frames[fi].pc = header_pc + 1;
                } else {
                    st.frames[fi].pc = pc + 1;
                }
                Ok(StepEvent::Progress)
            },
        }
    }

    /// Handles BREAK (leave the innermost loop) and CONTINUE (jump to its
    /// END so the next iteration is decided there). IF blocks opened
    /// inside the loop are closed on the way out.
    fn handle_break(
        &self,
        st: &mut RunState,
        fi: usize,
        ridx: usize,
        pc: usize,
        is_continue: bool,
    ) -> (r: Result<StepEvent, HakuError>)
        requires
            ridx < self.recipes@.len(),
            fi < old(st).frames@.len(),
            pc < self.recipes@[ridx as int].body@.len(),
        ensures
            !(r matches Ok(e) && e is Shell),
            !(r matches Ok(e) && e is ChangeDir),
            !(r matches Ok(e) && e is Done),
    {
        let rcp = &self.recipes[ridx];
        let bl = rcp.body.len();
        proof {
            assert(pc < bl);
        }
        let mut popped_ifs: usize = 0;
        loop
            invariant
                fi < st.frames@.len(),
                ridx < self.recipes@.len(),
                rcp == &self.recipes@[ridx as int],
            decreases st.frames@[fi as int].blocks@.len(),
        {
            let is_if: bool = match st.frames[fi].blocks.last() {
                Some(BlockFrame::IfTaken) => true,
                Some(_) => false,
                None => {
                    return Err(self.broken());
                },
            };
            if !is_if {
                break;
            }
            let _ = st.frames[fi].blocks.pop();
            if popped_ifs == usize::MAX {
                return Err(self.broken());
            }
            popped_ifs += 1;
        }
        // The loop's END is the (popped_ifs + 1)-th unmatched END ahead.
        if popped_ifs == usize::MAX {
            return Err(self.broken());
        }
        let end = match scan_end_n(&rcp.body, pc + 1, popped_ifs + 1) {
            Some(j) => j,
            None => {
                return Err(self.broken());
            },
        };
        if is_continue {
            // The END handler advances the iteration.
            st.frames[fi].pc = end;
            Ok(StepEvent::Progress)
        } else {
            let top = match st.frames[fi].blocks.pop() {
                Some(b) => b,
                None => {
                    return Err(self.broken());
                },
            };
            match top {
                BlockFrame::IfTaken => Err(self.broken()),
                _ => {
                    if st.scopes.frames.len() > 1 {
                        st.scopes.pop_frame();
                    }
                    st.frames[fi].pc = end + 1;
                    Ok(StepEvent::Progress)
                },
            }
        }
    }
}

/// The bindings that positional binding of the first `k` parameters
/// makes: each parameter takes the matching argument as a string, a
/// variadic last parameter collects the remaining arguments as a list,
/// and parameters without an argument stay unset.
pub open spec fn bound_entries(
    vars: Seq<Vec<u8>>,
    variadic: bool,
    args: Seq<Vec<u8>>,
    k: int,
) -> Seq<(Seq<u8>, ValueView)>
    decreases k,
{
    if k <= 0 {
        Seq::<(Seq<u8>, ValueView)>::empty()
    } else {
        let pre = bound_entries(vars, variadic, args, k - 1);
        let i = k - 1;
        if variadic && i + 1 == vars.len() {
            pre.push((vars[i]@, ValueView::List(rest_args(args, i))))
        } else if i < args.len() {
            pre.push((vars[i]@, ValueView::Str(args[i]@)))
        } else {
            pre
        }
    }
}

/// The arguments from position `i` on, as list items.
pub open spec fn rest_args(args: Seq<Vec<u8>>, i: int) -> Seq<Seq<u8>> {
    if 0 <= i <= args.len() {
        args.skip(i).map_values(|a: Vec<u8>| a@)
    } else {
        Seq::<Seq<u8>>::empty()
    }
}

/// Binds a recipe's parameters positionally from the run's free
/// arguments into the innermost frame, exactly as `bound_entries` says.
fn bind_args(scopes: &mut Scopes, vars: &Vec<Vec<u8>>, variadic: bool, args: &Vec<Vec<u8>>)
    requires
        old(scopes).wf(),
    ensures
        final(scopes).wf(),
        final(scopes)@ == old(scopes)@.update(
            old(scopes)@.len() - 1,
            old(scopes)@.last() + bound_entries(vars@, variadic, args@, vars@.len() as int),
        ),
{
    let ghost pre_chain = scopes@;
    let mut i: usize = 0;
    proof {
        assert(pre_chain.update(
            pre_chain.len() - 1,
            pre_chain.last() + bound_entries(vars@, variadic, args@, 0),
        ) =~~= pre_chain);
    }
    while i < vars.len()
        invariant
            scopes.wf(),
            i <= vars@.len(),
            pre_chain.len() >= 1,
            scopes@ == pre_chain.update(
                pre_chain.len() - 1,
                pre_chain.last() + bound_entries(vars@, variadic, args@, i as int),
            ),
        decreases vars@.len() - i,
    {
        let ghost step_pre = scopes@;
        let name = bytes_of(vars[i].as_slice());
        if variadic && i + 1 == vars.len() {
            let mut rest: Vec<Vec<u8>> = Vec::new();
            if i < args.len() {
                let mut j: usize = i;
                proof {
                    assert(rest@.map_values(|a: Vec<u8>| a@) =~= args@.skip(i as int).map_values(
                        |a: Vec<u8>| a@,
                    ).take(0));
                }
                while j < args.len()
                    invariant
                        i <= j <= args@.len(),
                        rest@.map_values(|a: Vec<u8>| a@) =~= args@.skip(i as int).map_values(
                            |a: Vec<u8>| a@,
                        ).take(j - i),
                    decreases args@.len() - j,
                {
                    let ghost prev = rest@;
                    rest.push(bytes_of(args[j].as_slice()));
                    proof {
                        assert(rest@.map_values(|a: Vec<u8>| a@) =~= prev.map_values(
                            |a: Vec<u8>| a@,
                        ).push(args@[j as int]@));
                        assert(args@.skip(i as int).map_values(|a: Vec<u8>| a@).take(
                            j - i + 1,
                        ) =~= args@.skip(i as int).map_values(|a: Vec<u8>| a@).take(j - i).push(
                            args@[j as int]@,
                        ));
                    }
                    j += 1;
                }
                proof {
                    assert(args@.skip(i as int).map_values(|a: Vec<u8>| a@).take(
                        args@.len() - i,
                    ) =~= args@.skip(i as int).map_values(|a: Vec<u8>| a@));
                }
            }
            proof {
                assert(rest@.map_values(|a: Vec<u8>| a@) =~= rest_args(args@, i as int));
            }
            let v = Value::List(rest);
            proof {
                assert(v@ == ValueView::List(rest_args(args@, i as int))) by {
                    assert(rest.deep_view() =~~= rest@.map_values(|a: Vec<u8>| a@));
                }
            }
            scopes.set_local(name, v);
        } else if i < args.len() {
            scopes.set_local(name, Value::Str(bytes_of(args[i].as_slice())));
        }
        proof {
            let tail = bound_entries(vars@, variadic, args@, i + 1);
            assert(scopes@ =~~= pre_chain.update(
                pre_chain.len() - 1,
                pre_chain.last() + tail,
            ));
        }
        i += 1;
    }
}

/// The recipe name a run request resolves to: the given name, or the
/// default recipe's for an empty one.
pub open spec fn wanted_name(name: Seq<u8>) -> Seq<u8> {
    if name.len() > 0 {
        name
    } else {
        default_name_s()
    }
}

/// The spelling of the default recipe's name.
pub open spec fn default_name_s() -> Seq<u8> {
    seq![95u8, 100u8, 101u8, 102u8, 97u8, 117u8, 108u8, 116u8]
}

/// The name of the default recipe.
pub fn default_name() -> (r: Vec<u8>)
    ensures
        r@ =~= default_name_s(),
{
    let mut v: Vec<u8> = Vec::new();
    v.push(95);
    v.push(100);
    v.push(101);
    v.push(102);
    v.push(97);
    v.push(117);
    v.push(108);
    v.push(116);
    v
}

} // verus!
