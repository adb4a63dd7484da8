//! The recipe-file parser: turns recipe-file text into recipe definitions,
//! each holding an ordered statement list. Control-flow keywords are
//! recognized structurally and must balance; file-inclusion directives are
//! file-scope only and are resolved through a step machine (`Loader`) so
//! that file reading stays outside the library.

use crate::errors::HakuError;
use crate::feature::Guard;
use crate::feature::GuardTerm;
use crate::text::bytes_of;
use crate::text::parse_int;
use crate::text::push_all;
use vstd::prelude::*;

verus! {

/// An atomic operand: an integer literal, a quoted string literal, or a
/// variable reference.
#[derive(Debug, Clone, PartialEq, Eq)]
pub enum Atom {
    IntLit(i64),
    StrLit(Vec<u8>),
    Var(Vec<u8>),
}

/// One operand of an expression chain: an atom, a negated atom, or a call
/// of a built-in function on atoms.
#[derive(Debug, Clone, PartialEq, Eq)]
pub enum Operand {
    Plain(Atom),
    Negated(Atom),
    Call(Vec<u8>, Vec<Atom>),
}

/// A binary operator of the expression language.
#[derive(Debug, Clone, Copy, PartialEq, Eq, Structural)]
pub enum BinOp {
    Add,
    Sub,
    Mul,
    CmpEq,
    CmpNe,
    CmpLt,
    CmpLe,
    CmpGt,
    CmpGe,
    AndOp,
    OrOp,
}

/// An expression: a left-associative chain of operands.
#[derive(Debug, PartialEq, Eq)]
pub enum Expr {
    Single(Operand),
    Bin(BinOp, Box<Expr>, Operand),
}

/// One statement of a recipe body.
#[derive(Debug, PartialEq, Eq)]
pub enum Statement {
    /// Binds a variable; `global` selects the explicit global-write form.
    Assign { global: bool, name: Vec<u8>, expr: Expr },
    If(Expr),
    ElseIf(Expr),
    Else,
    End,
    While(Expr),
    /// An integer range loop: FOR var FROM a TO b [STEP s].
    ForRange { var: Vec<u8>, from: Expr, to: Expr, step: Expr },
    /// A list loop: FOR var IN expr.
    ForEach { var: Vec<u8>, items: Expr },
    Break,
    Continue,
    /// ASSERT cond; fails the run when the condition is false.
    Assertion { cond: Expr, text: Vec<u8> },
    /// RAISE msg; fails the run with a user error.
    Raise { msg: Expr },
    /// CD path; changes the working directory for the rest of the recipe.
    Cd { path: Vec<u8> },
    /// Any other line: a shell command, interpolated and dispatched.
    Shell { cmd: Vec<u8>, ignore_failure: bool },
}

/// A statement with its source line (1-based) for diagnostics.
#[derive(Debug, PartialEq, Eq)]
pub struct Stmt {
    pub st: Statement,
    pub line_no: usize,
}

/// True for the space and tab bytes.
pub open spec fn is_space(b: u8) -> bool {
    b == 32 || b == 9
}

/// True for bytes that may stand in a name: ASCII letters, digits, `_`,
/// `-` and `.`.
pub open spec fn ident_char(b: u8) -> bool {
    (48 <= b <= 57) || (65 <= b <= 90) || (97 <= b <= 122) || b == 95 || b == 45 || b == 46
}

/// The number of leading space bytes of `s`.
pub open spec fn leading_ws(s: Seq<u8>) -> int
    decreases s.len(),
{
    if s.len() > 0 && is_space(s[0]) {
        1 + leading_ws(s.skip(1))
    } else {
        0
    }
}

/// True when, after leading spaces, `s` carries the keyword `kw` followed
/// by a name boundary.
pub open spec fn kw_at(s: Seq<u8>, kw: Seq<u8>) -> bool {
    let i = leading_ws(s);
    &&& i + kw.len() <= s.len()
    &&& s.subrange(i, i + kw.len()) == kw
    &&& (i + kw.len() == s.len() || !ident_char(s[(i + kw.len()) as int]))
}

/// The index of the first non-space byte at or after `from`.
pub fn skip_ws(s: &[u8], from: usize) -> (r: usize)
    requires
        from <= s@.len(),
    ensures
        from <= r <= s@.len(),
        r - from == leading_ws(s@.skip(from as int)),
    decreases s@.len() - from,
{
    if from < s.len() && (s[from] == 32 || s[from] == 9) {
        proof {
            assert(s@.skip(from as int).skip(1) =~= s@.skip(from as int + 1));
        }
        skip_ws(s, from + 1)
    } else {
        proof {
            if from < s@.len() {
                assert(!is_space(s@.skip(from as int)[0]));
            }
        }
        from
    }
}

/// True when the keyword `kw` stands at `pos` in `s` with a name boundary
/// after it.
pub fn kw_matches(s: &[u8], pos: usize, kw: &[u8]) -> (r: bool)
    requires
        pos <= s@.len(),
    ensures
        r == (pos + kw@.len() <= s@.len() && s@.subrange(pos as int, pos + kw@.len()) == kw@ && (pos
            + kw@.len() == s@.len() || !ident_char(s@[pos + kw@.len()]))),
{
    if s.len() - pos < kw.len() {
        return false;
    }
    let mut i: usize = 0;
    while i < kw.len()
        invariant
            i <= kw@.len(),
            pos <= s@.len(),
            pos + kw@.len() <= s@.len(),
            forall|j: int| 0 <= j < i ==> s@[pos + j] == kw@[j],
        decreases kw@.len() - i,
    {
        let sl = s.len();
        proof {
            assert(pos + i < sl);
        }
        if s[pos + i] != kw[i] {
            proof {
                assert(s@.subrange(pos as int, pos + kw@.len())[i as int] != kw@[i as int]);
            }
            return false;
        }
        i += 1;
    }
    proof {
        assert(s@.subrange(pos as int, pos + kw@.len()) =~= kw@);
    }
    let after: usize = pos + kw.len();
    if after == s.len() {
        true
    } else {
        let b = s[after];
        let is_ident: bool = (48 <= b && b <= 57) || (65 <= b && b <= 90) || (97 <= b && b <= 122)
            || b == 95 || b == 45 || b == 46;
        !is_ident
    }
}

/// True when, after leading spaces, `s` carries the keyword `kw` with a
/// name boundary — the executable form of `kw_at`.
pub fn kw_at_exec(s: &[u8], kw: &[u8]) -> (r: bool)
    ensures
        r == kw_at(s@, kw@),
{
    let i = skip_ws(s, 0);
    proof {
        assert(s@.skip(0) =~= s@);
    }
    kw_matches(s, i, kw)
}

/// The index just past the maximal run of name bytes starting at `from`.
pub open spec fn name_end(s: Seq<u8>, from: int) -> int
    decreases s.len() - from,
{
    if 0 <= from < s.len() && ident_char(s[from]) {
        name_end(s, from + 1)
    } else {
        from
    }
}

/// The index after the leading spaces at `from`.
pub open spec fn ws_end(s: Seq<u8>, from: int) -> int {
    from + leading_ws(s.skip(from))
}

/// Reads a name (a maximal run of name bytes) starting at `from`; returns
/// the index just past it.
pub fn scan_name(s: &[u8], from: usize) -> (r: usize)
    requires
        from <= s@.len(),
    ensures
        from <= r <= s@.len(),
        r as int == name_end(s@, from as int),
        forall|j: int| from <= j < r ==> ident_char(s@[j]),
        r < s@.len() ==> !ident_char(s@[r as int]),
    decreases s@.len() - from,
{
    if from < s.len() {
        let b = s[from];
        let is_ident: bool = (48 <= b && b <= 57) || (65 <= b && b <= 90) || (97 <= b && b <= 122)
            || b == 95 || b == 45 || b == 46;
        if is_ident {
            return scan_name(s, from + 1);
        }
    }
    from
}

/// An owned copy of `s[from..to]`.
pub fn copy_range(s: &[u8], from: usize, to: usize) -> (r: Vec<u8>)
    requires
        from <= to <= s@.len(),
    ensures
        r@ == s@.subrange(from as int, to as int),
{
    let mut v: Vec<u8> = Vec::new();
    let mut i: usize = from;
    while i < to
        invariant
            from <= i <= to <= s@.len(),
            v@ =~= s@.subrange(from as int, i as int),
        decreases to - i,
    {
        v.push(s[i]);
        proof {
            assert(s@.subrange(from as int, i as int).push(s@[i as int]) =~= s@.subrange(
                from as int,
                i + 1,
            ));
        }
        i += 1;
    }
    v
}

/// Parses one atom at `pos`: an integer literal, a quoted string, or a
/// name.
fn parse_atom(s: &[u8], pos: usize) -> (r: Result<(Atom, usize), HakuError>)
    requires
        pos <= s@.len(),
    ensures
        r matches Ok(p) ==> pos < p.1 <= s@.len(),
        r matches Err(e) ==> e is ParseError,
{
    let i = skip_ws(s, pos);
    if i >= s.len() {
        return Err(HakuError::ParseError(bytes_of(s), Vec::new()));
    }
    let b = s[i];
    if b == 34 || b == 39 {
        let mut j: usize = i + 1;
        while j < s.len() && s[j] != b
            invariant
                i + 1 <= j <= s@.len(),
            decreases s@.len() - j,
        {
            j += 1;
        }
        if j >= s.len() {
            return Err(HakuError::ParseError(bytes_of(s), Vec::new()));
        }
        return Ok((Atom::StrLit(copy_range(s, i + 1, j)), j + 1));
    }
    if (48 <= b && b <= 57) || (b == 45 && i + 1 < s.len() && 48 <= s[i + 1] && s[i + 1] <= 57) {
        let mut j: usize = i + 1;
        while j < s.len() && 48 <= s[j] && s[j] <= 57
            invariant
                i + 1 <= j <= s@.len(),
            decreases s@.len() - j,
        {
            j += 1;
        }
        let text = copy_range(s, i, j);
        match parse_int(text.as_slice()) {
            Some(v) => {
                return Ok((Atom::IntLit(v), j));
            },
            None => {
                return Err(HakuError::ParseError(bytes_of(s), Vec::new()));
            },
        }
    }
    let e = scan_name(s, i);
    if e > i {
        return Ok((Atom::Var(copy_range(s, i, e)), e));
    }
    Err(HakuError::ParseError(bytes_of(s), Vec::new()))
}

/// Parses one operand at `pos`: an atom, `!` atom, or a call `name(a, b)`.
fn parse_operand(s: &[u8], pos: usize) -> (r: Result<(Operand, usize), HakuError>)
    requires
        pos <= s@.len(),
    ensures
        r matches Ok(p) ==> pos < p.1 <= s@.len(),
        r matches Err(e) ==> e is ParseError,
{
    let i = skip_ws(s, pos);
    if i < s.len() && s[i] == 33 && (i + 1 >= s.len() || s[i + 1] != 61) {
        let (a, p) = match parse_atom(s, i + 1) {
            Ok(x) => x,
            Err(e) => {
                return Err(e);
            },
        };
        return Ok((Operand::Negated(a), p));
    }
    let (a, p) = match parse_atom(s, i) {
        Ok(x) => x,
        Err(e) => {
            return Err(e);
        },
    };
    let j = skip_ws(s, p);
    if j < s.len() && s[j] == 40 {
        let name = match a {
            Atom::Var(n) => n,
            _ => {
                return Err(HakuError::ParseError(bytes_of(s), Vec::new()));
            },
        };
        let mut args: Vec<Atom> = Vec::new();
        let mut k: usize = skip_ws(s, j + 1);
        if k < s.len() && s[k] == 41 {
            return Ok((Operand::Call(name, args), k + 1));
        }
        loop
            invariant
                pos < k <= s@.len(),
            decreases s@.len() - k,
        {
            let (arg, p2) = match parse_atom(s, k) {
                Ok(x) => x,
                Err(e) => {
                    return Err(e);
                },
            };
            args.push(arg);
            let q = skip_ws(s, p2);
            if q < s.len() && s[q] == 44 {
                k = skip_ws(s, q + 1);
            } else if q < s.len() && s[q] == 41 {
                return Ok((Operand::Call(name, args), q + 1));
            } else {
                return Err(HakuError::ParseError(bytes_of(s), Vec::new()));
            }
        }
    }
    Ok((Operand::Plain(a), p))
}

/// Recognizes a binary operator at `pos` (after spaces); `None` when none
/// stands there.
fn parse_op(s: &[u8], pos: usize) -> (r: Option<(BinOp, usize)>)
    requires
        pos <= s@.len(),
    ensures
        r matches Some(p) ==> pos < p.1 <= s@.len(),
{
    let i = skip_ws(s, pos);
    if i >= s.len() {
        return None;
    }
    let b = s[i];
    let two: bool = i + 1 < s.len();
    if b == 61 && two && s[i + 1] == 61 {
        Some((BinOp::CmpEq, i + 2))
    } else if b == 33 && two && s[i + 1] == 61 {
        Some((BinOp::CmpNe, i + 2))
    } else if b == 60 && two && s[i + 1] == 61 {
        Some((BinOp::CmpLe, i + 2))
    } else if b == 62 && two && s[i + 1] == 61 {
        Some((BinOp::CmpGe, i + 2))
    } else if b == 38 && two && s[i + 1] == 38 {
        Some((BinOp::AndOp, i + 2))
    } else if b == 124 && two && s[i + 1] == 124 {
        Some((BinOp::OrOp, i + 2))
    } else if b == 60 {
        Some((BinOp::CmpLt, i + 1))
    } else if b == 62 {
        Some((BinOp::CmpGt, i + 1))
    } else if b == 43 {
        Some((BinOp::Add, i + 1))
    } else if b == 45 {
        Some((BinOp::Sub, i + 1))
    } else if b == 42 {
        Some((BinOp::Mul, i + 1))
    } else {
        None
    }
}

/// Parses a whole expression chain at `pos`, left-associatively.
pub fn parse_expr(s: &[u8], pos: usize) -> (r: Result<(Expr, usize), HakuError>)
    requires
        pos <= s@.len(),
    ensures
        r matches Ok(p) ==> pos < p.1 <= s@.len(),
        r matches Err(e) ==> e is ParseError,
{
    let (o, p0) = match parse_operand(s, pos) {
        Ok(x) => x,
        Err(e) => {
            return Err(e);
        },
    };
    let mut e: Expr = Expr::Single(o);
    let mut p: usize = p0;
    loop
        invariant
            pos < p <= s@.len(),
        decreases s@.len() - p,
    {
        match parse_op(s, p) {
            None => {
                return Ok((e, p));
            },
            Some((op, p1)) => {
                let (o2, p2) = match parse_operand(s, p1) {
                    Ok(x) => x,
                    Err(err) => {
                        return Err(err);
                    },
                };
                e = Expr::Bin(op, Box::new(e), o2);
                p = p2;
            },
        }
    }
}

/// Parses one body line into a statement. Control-flow keywords are
/// recognized structurally: a returned control statement always stands on
/// a line carrying its keyword, an END is returned exactly on END lines,
/// and a file-inclusion directive inside a body is exactly what yields
/// `IncludeInRecipeError`.
pub fn parse_statement(s: &[u8], line_no: usize, filename: &[u8]) -> (r: Result<
    Stmt,
    HakuError,
>)
    ensures
        r matches Ok(st) ==> st.line_no == line_no,
        r matches Ok(st) ==> ((st.st is End) <==> kw_at(s@, crate::words::kw_end_s())),
        r matches Ok(st) ==> ((st.st is If) ==> kw_at(s@, crate::words::kw_if_s())),
        r matches Ok(st) ==> ((st.st is ElseIf) ==> kw_at(s@, crate::words::kw_elseif_s())),
        r matches Ok(st) ==> ((st.st is Else) ==> kw_at(s@, crate::words::kw_else_s())),
        r matches Ok(st) ==> ((st.st is While) ==> kw_at(s@, crate::words::kw_while_s())),
        r matches Ok(st) ==> ((st.st is ForRange || st.st is ForEach) ==> kw_at(
            s@,
            crate::words::kw_for_s(),
        )),
        r matches Ok(st) ==> ((st.st is Break) ==> kw_at(s@, crate::words::kw_break_s())),
        r matches Ok(st) ==> ((st.st is Continue) ==> kw_at(s@, crate::words::kw_continue_s())),
        (r matches Err(e) && e is IncludeInRecipeError) <==> kw_at(s@, crate::words::kw_inc_s()),
        r matches Err(e) ==> (e matches HakuError::IncludeInRecipeError(x) ==> x@
            == crate::errors::error_extra_spec(filename@, line_no as nat)),
{
    let inc = crate::words::kw_inc();
    if kw_at_exec(s, inc.as_slice()) {
        return Err(
            HakuError::IncludeInRecipeError(HakuError::error_extra(filename, line_no)),
        );
    }
    let kend = crate::words::kw_end();
    if kw_at_exec(s, kend.as_slice()) {
        return Ok(Stmt { st: Statement::End, line_no });
    }
    let i0 = skip_ws(s, 0);
    let slen = s.len();
    proof {
        assert(s@.skip(0) =~= s@);
        assert(i0 <= slen);
    }
    let kelseif = crate::words::kw_elseif();
    if kw_at_exec(s, kelseif.as_slice()) {
        let cond = match parse_expr(s, i0 + 6) {
            Ok(x) => x.0,
            Err(e) => {
                return Err(e);
            },
        };
        return Ok(Stmt { st: Statement::ElseIf(cond), line_no });
    }
    let kelse = crate::words::kw_else();
    if kw_at_exec(s, kelse.as_slice()) {
        return Ok(Stmt { st: Statement::Else, line_no });
    }
    let kif = crate::words::kw_if();
    if kw_at_exec(s, kif.as_slice()) {
        let cond = match parse_expr(s, i0 + 2) {
            Ok(x) => x.0,
            Err(e) => {
                return Err(e);
            },
        };
        return Ok(Stmt { st: Statement::If(cond), line_no });
    }
    let kwhile = crate::words::kw_while();
    if kw_at_exec(s, kwhile.as_slice()) {
        let cond = match parse_expr(s, i0 + 5) {
            Ok(x) => x.0,
            Err(e) => {
                return Err(e);
            },
        };
        return Ok(Stmt { st: Statement::While(cond), line_no });
    }
    let kfor = crate::words::kw_for();
    if kw_at_exec(s, kfor.as_slice()) {
        return parse_for(s, i0 + 3, line_no, filename);
    }
    let kbreak = crate::words::kw_break();
    if kw_at_exec(s, kbreak.as_slice()) {
        return Ok(Stmt { st: Statement::Break, line_no });
    }
    let kcont = crate::words::kw_continue();
    if kw_at_exec(s, kcont.as_slice()) {
        return Ok(Stmt { st: Statement::Continue, line_no });
    }
    let kassert = crate::words::kw_assert();
    if kw_at_exec(s, kassert.as_slice()) {
        let start = skip_ws(s, i0 + 6);
        let cond = match parse_expr(s, start) {
            Ok(x) => x.0,
            Err(e) => {
                return Err(e);
            },
        };
        let text = copy_range(s, start, s.len());
        return Ok(Stmt { st: Statement::Assertion { cond, text }, line_no });
    }
    let kraise = crate::words::kw_raise();
    if kw_at_exec(s, kraise.as_slice()) {
        let msg = match parse_expr(s, i0 + 5) {
            Ok(x) => x.0,
            Err(e) => {
                return Err(e);
            },
        };
        return Ok(Stmt { st: Statement::Raise { msg }, line_no });
    }
    let kcd = crate::words::kw_cd();
    if kw_at_exec(s, kcd.as_slice()) {
        let start = skip_ws(s, i0 + 2);
        let path = copy_range(s, start, s.len());
        return Ok(Stmt { st: Statement::Cd { path }, line_no });
    }
    let kglobal = crate::words::kw_global();
    if kw_at_exec(s, kglobal.as_slice()) {
        let n0 = skip_ws(s, i0 + 6);
        let n1 = scan_name(s, n0);
        if n1 > n0 {
            let j = skip_ws(s, n1);
            if j < s.len() && s[j] == 61 && (j + 1 >= s.len() || s[j + 1] != 61) {
                let expr = match parse_expr(s, j + 1) {
                    Ok(x) => x.0,
                    Err(e) => {
                        return Err(e);
                    },
                };
                let name = copy_range(s, n0, n1);
                return Ok(Stmt { st: Statement::Assign { global: true, name, expr }, line_no });
            }
        }
    } else {
        let n1 = scan_name(s, i0);
        if n1 > i0 {
            let j = skip_ws(s, n1);
            if j < s.len() && s[j] == 61 && (j + 1 >= s.len() || s[j + 1] != 61) {
                let expr = match parse_expr(s, j + 1) {
                    Ok(x) => x.0,
                    Err(e) => {
                        return Err(e);
                    },
                };
                let name = copy_range(s, i0, n1);
                return Ok(Stmt { st: Statement::Assign { global: false, name, expr }, line_no });
            }
        }
    }
    if i0 < s.len() && s[i0] == 45 {
        let start = skip_ws(s, i0 + 1);
        let cmd = copy_range(s, start, s.len());
        return Ok(Stmt { st: Statement::Shell { cmd, ignore_failure: true }, line_no });
    }
    let cmd = copy_range(s, i0, s.len());
    Ok(Stmt { st: Statement::Shell { cmd, ignore_failure: false }, line_no })
}

/// Parses the tail of a FOR statement: `var FROM a TO b [STEP s]` or
/// `var IN expr`. An empty loop-variable name fails with
/// `SeqVarNameError`.
fn parse_for(s: &[u8], pos: usize, line_no: usize, filename: &[u8]) -> (r: Result<
    Stmt,
    HakuError,
>)
    requires
        pos <= s@.len(),
    ensures
        r matches Ok(st) ==> st.line_no == line_no && (st.st is ForRange || st.st is ForEach),
        r matches Err(e) ==> !(e is IncludeInRecipeError),
{
    let slen = s.len();
    let v0 = skip_ws(s, pos);
    let v1 = scan_name(s, v0);
    if v1 == v0 {
        return Err(HakuError::SeqVarNameError(HakuError::error_extra(filename, line_no)));
    }
    let var = copy_range(s, v0, v1);
    let j = skip_ws(s, v1);
    let kfrom = crate::words::kw_from();
    let kin = crate::words::kw_in();
    if kw_matches(s, j, kfrom.as_slice()) {
        let from = match parse_expr(s, j + 4) {
            Ok(x) => x,
            Err(e) => {
                return Err(e);
            },
        };
        let t = skip_ws(s, from.1);
        let kto = crate::words::kw_to();
        if !kw_matches(s, t, kto.as_slice()) {
            return Err(HakuError::ParseError(bytes_of(s), Vec::new()));
        }
        let to = match parse_expr(s, t + 2) {
            Ok(x) => x,
            Err(e) => {
                return Err(e);
            },
        };
        let u = skip_ws(s, to.1);
        let kstep = crate::words::kw_step();
        if kw_matches(s, u, kstep.as_slice()) {
            let step = match parse_expr(s, u + 4) {
                Ok(x) => x,
                Err(e) => {
                    return Err(e);
                },
            };
            return Ok(
                Stmt {
                    st: Statement::ForRange { var, from: from.0, to: to.0, step: step.0 },
                    line_no,
                },
            );
        }
        let one = Expr::Single(Operand::Plain(Atom::IntLit(1)));
        return Ok(
            Stmt { st: Statement::ForRange { var, from: from.0, to: to.0, step: one }, line_no },
        );
    }
    if kw_matches(s, j, kin.as_slice()) {
        let items = match parse_expr(s, j + 2) {
            Ok(x) => x,
            Err(e) => {
                return Err(e);
            },
        };
        return Ok(Stmt { st: Statement::ForEach { var, items: items.0 }, line_no });
    }
    Err(HakuError::ParseError(bytes_of(s), Vec::new()))
}

/// The kind of an open control block.
#[derive(Debug, Clone, Copy, PartialEq, Eq, Structural)]
pub enum BlockKind {
    IfBlock,
    WhileBlock,
    ForBlock,
}

/// True when some open block is a loop.
pub open spec fn has_loop(stack: Seq<BlockKind>) -> bool {
    exists|i: int|
        0 <= i < stack.len() && (stack[i] == BlockKind::WhileBlock || stack[i]
            == BlockKind::ForBlock)
}

/// How one statement transforms the stack of open blocks; `None` is a
/// structural fault (stray ELSE/ELSEIF/END, or BREAK/CONTINUE outside a
/// loop).
pub open spec fn block_step(stack: Seq<BlockKind>, st: &Statement) -> Option<Seq<BlockKind>> {
    match st {
        Statement::If(_) => Option::Some(stack.push(BlockKind::IfBlock)),
        Statement::While(_) => Option::Some(stack.push(BlockKind::WhileBlock)),
        Statement::ForRange { .. } => Option::Some(stack.push(BlockKind::ForBlock)),
        Statement::ForEach { .. } => Option::Some(stack.push(BlockKind::ForBlock)),
        Statement::ElseIf(_) => if stack.len() > 0 && stack.last() == BlockKind::IfBlock {
            Option::Some(stack)
        } else {
            Option::None
        },
        Statement::Else => if stack.len() > 0 && stack.last() == BlockKind::IfBlock {
            Option::Some(stack)
        } else {
            Option::None
        },
        Statement::End => if stack.len() > 0 {
            Option::Some(stack.drop_last())
        } else {
            Option::None
        },
        Statement::Break => if has_loop(stack) {
            Option::Some(stack)
        } else {
            Option::None
        },
        Statement::Continue => if has_loop(stack) {
            Option::Some(stack)
        } else {
            Option::None
        },
        _ => Option::Some(stack),
    }
}

/// The stack of open blocks after a statement sequence, starting from
/// `stack`; `None` once any step faults.
pub open spec fn blocks_after(stack: Seq<BlockKind>, sts: Seq<Statement>) -> Option<
    Seq<BlockKind>,
>
    decreases sts.len(),
{
    if sts.len() == 0 {
        Option::Some(stack)
    } else {
        match block_step(stack, &sts[0]) {
            Option::None => Option::None,
            Option::Some(s2) => blocks_after(s2, sts.skip(1)),
        }
    }
}

/// A statement sequence is balanced when, starting from no open block, no
/// step faults and no block stays open.
pub open spec fn balanced(sts: Seq<Statement>) -> bool {
    blocks_after(Seq::<BlockKind>::empty(), sts) == Option::Some(Seq::<BlockKind>::empty())
}

/// The statements of a parsed body, in order.
pub open spec fn stmts_of(body: Seq<Stmt>) -> Seq<Statement> {
    body.map_values(|s: Stmt| s.st)
}

/// Checks that a body's control blocks balance: succeeds exactly on
/// balanced bodies, and names the structural fault otherwise (stray
/// ELSE/ELSEIF/END, BREAK/CONTINUE outside a loop, or a block with no
/// matching END).
pub fn check_blocks(body: &Vec<Stmt>, filename: &[u8]) -> (r: Result<(), HakuError>)
    ensures
        r is Ok <==> balanced(stmts_of(body@)),
        r matches Err(e) ==> (e is StrayEndError || e is StrayElseError || e is StrayElseIfError
            || e is NoMatchingEndError || e is NoMatchingForWhileError),
        r matches Err(e) ==> ((e matches HakuError::StrayEndError(x) ==> exists|ln: nat|
            x@ == crate::errors::error_extra_spec(filename@, ln)) && (e
            matches HakuError::StrayElseError(x2) ==> exists|ln: nat|
            x2@ == crate::errors::error_extra_spec(filename@, ln)) && (e
            matches HakuError::StrayElseIfError(x3) ==> exists|ln: nat|
            x3@ == crate::errors::error_extra_spec(filename@, ln)) && (e
            matches HakuError::NoMatchingForWhileError(x4) ==> exists|ln: nat|
            x4@ == crate::errors::error_extra_spec(filename@, ln)) && (e
            matches HakuError::NoMatchingEndError(_, x5) ==> exists|ln: nat|
            x5@ == crate::errors::error_extra_spec(filename@, ln))),
{
    let ghost sts = stmts_of(body@);
    let mut stack: Vec<BlockKind> = Vec::new();
    let mut open_lines: Vec<usize> = Vec::new();
    let mut loops: usize = 0;
    let mut i: usize = 0;
    proof {
        assert(sts.skip(0) =~= sts);
    }
    while i < body.len()
        invariant
            i <= body@.len(),
            sts == stmts_of(body@),
            sts.len() == body@.len(),
            loops <= stack@.len(),
            (loops > 0) == has_loop(stack@),
            open_lines@.len() == stack@.len(),
            loops as int == stack@.filter(
                |k: BlockKind| k == BlockKind::WhileBlock || k == BlockKind::ForBlock,
            ).len(),
            blocks_after(Seq::<BlockKind>::empty(), sts) == blocks_after(
                stack@,
                sts.skip(i as int),
            ),
        decreases body@.len() - i,
    {
        let ghost pre_stack = stack@;
        proof {
            assert(sts[i as int] == body@[i as int].st);
            assert(sts.skip(i as int)[0] == sts[i as int]);
            assert(sts.skip(i as int).skip(1) =~= sts.skip(i as int + 1));
        }
        let line_no = body[i].line_no;
        match &body[i].st {
            Statement::If(_) => {
                stack.push(BlockKind::IfBlock);
                open_lines.push(line_no);
                proof {
                    lemma_filter_push(pre_stack, BlockKind::IfBlock);
                    assert(has_loop(stack@) == (has_loop(pre_stack) || false)) by {
                        lemma_has_loop_push(pre_stack, BlockKind::IfBlock);
                    }
                }
            },
            Statement::While(_) => {
                stack.push(BlockKind::WhileBlock);
                open_lines.push(line_no);
                let sl = stack.len();
                proof {
                    assert(loops < sl);
                }
                loops += 1;
                proof {
                    lemma_filter_push(pre_stack, BlockKind::WhileBlock);
                    lemma_has_loop_push(pre_stack, BlockKind::WhileBlock);
                }
            },
            Statement::ForRange { .. } => {
                stack.push(BlockKind::ForBlock);
                open_lines.push(line_no);
                let sl = stack.len();
                proof {
                    assert(loops < sl);
                }
                loops += 1;
                proof {
                    lemma_filter_push(pre_stack, BlockKind::ForBlock);
                    lemma_has_loop_push(pre_stack, BlockKind::ForBlock);
                }
            },
            Statement::ForEach { .. } => {
                stack.push(BlockKind::ForBlock);
                open_lines.push(line_no);
                let sl = stack.len();
                proof {
                    assert(loops < sl);
                }
                loops += 1;
                proof {
                    lemma_filter_push(pre_stack, BlockKind::ForBlock);
                    lemma_has_loop_push(pre_stack, BlockKind::ForBlock);
                }
            },
            Statement::ElseIf(_) => {
                if stack.len() == 0 || *stack.last().unwrap() != BlockKind::IfBlock {
                    return Err(
                        HakuError::StrayElseIfError(HakuError::error_extra(filename, line_no)),
                    );
                }
            },
            Statement::Else => {
                if stack.len() == 0 || *stack.last().unwrap() != BlockKind::IfBlock {
                    return Err(
                        HakuError::StrayElseError(HakuError::error_extra(filename, line_no)),
                    );
                }
            },
            Statement::End => {
                if stack.len() == 0 {
                    return Err(HakuError::StrayEndError(HakuError::error_extra(filename, line_no)));
                }
                let k = stack.pop().unwrap();
                let _ = open_lines.pop();
                if k == BlockKind::WhileBlock || k == BlockKind::ForBlock {
                    loops -= 1;
                }
                proof {
                    assert(stack@ =~= pre_stack.drop_last());
                    lemma_filter_drop_last(pre_stack);
                    lemma_has_loop_count(stack@);
                }
            },
            Statement::Break => {
                if loops == 0 {
                    return Err(
                        HakuError::NoMatchingForWhileError(
                            HakuError::error_extra(filename, line_no),
                        ),
                    );
                }
            },
            Statement::Continue => {
                if loops == 0 {
                    return Err(
                        HakuError::NoMatchingForWhileError(
                            HakuError::error_extra(filename, line_no),
                        ),
                    );
                }
            },
            _ => {},
        }
        i += 1;
    }
    proof {
        assert(sts.skip(sts.len() as int) =~= Seq::<Statement>::empty());
    }
    if stack.len() == 0 {
        proof {
            assert(stack@ =~= Seq::<BlockKind>::empty());
        }
        Ok(())
    } else {
        let last = *stack.last().unwrap();
        let open_line: usize = open_lines[open_lines.len() - 1];
        let kw: Vec<u8> = match last {
            BlockKind::IfBlock => crate::words::kw_if(),
            BlockKind::WhileBlock => crate::words::kw_while(),
            BlockKind::ForBlock => crate::words::kw_for(),
        };
        Err(HakuError::NoMatchingEndError(kw, HakuError::error_extra(filename, open_line)))
    }
}

/// Counting lemma: the pushed element changes the loop count as its kind
/// says.
proof fn lemma_filter_push(stack: Seq<BlockKind>, k: BlockKind)
    ensures
        stack.push(k).filter(
            |x: BlockKind| x == BlockKind::WhileBlock || x == BlockKind::ForBlock,
        ).len() == stack.filter(
            |x: BlockKind| x == BlockKind::WhileBlock || x == BlockKind::ForBlock,
        ).len() + if k == BlockKind::WhileBlock || k == BlockKind::ForBlock {
            1int
        } else {
            0int
        },
{
    reveal(Seq::filter);
    assert(stack.push(k).drop_last() =~= stack);
}

/// A pushed loop block makes `has_loop` true; a pushed IF leaves it.
proof fn lemma_has_loop_push(stack: Seq<BlockKind>, k: BlockKind)
    ensures
        has_loop(stack.push(k)) == (has_loop(stack) || k == BlockKind::WhileBlock || k
            == BlockKind::ForBlock),
{
    let s2 = stack.push(k);
    if has_loop(stack) {
        let i = choose|i: int|
            0 <= i < stack.len() && (stack[i] == BlockKind::WhileBlock || stack[i]
                == BlockKind::ForBlock);
        assert(s2[i] == stack[i]);
    }
    if k == BlockKind::WhileBlock || k == BlockKind::ForBlock {
        assert(s2[stack.len() as int] == k);
    }
    if has_loop(s2) {
        let i = choose|i: int|
            0 <= i < s2.len() && (s2[i] == BlockKind::WhileBlock || s2[i] == BlockKind::ForBlock);
        if i < stack.len() {
            assert(stack[i] == s2[i]);
        }
    }
}

/// Dropping the last element lowers the loop count by that element's
/// contribution.
proof fn lemma_filter_drop_last(stack: Seq<BlockKind>)
    requires
        stack.len() > 0,
    ensures
        stack.filter(|x: BlockKind| x == BlockKind::WhileBlock || x == BlockKind::ForBlock).len()
            == stack.drop_last().filter(
            |x: BlockKind| x == BlockKind::WhileBlock || x == BlockKind::ForBlock,
        ).len() + if stack.last() == BlockKind::WhileBlock || stack.last() == BlockKind::ForBlock {
            1int
        } else {
            0int
        },
{
    reveal(Seq::filter);
}

/// The loop count is zero exactly when no open block is a loop.
proof fn lemma_has_loop_count(stack: Seq<BlockKind>)
    ensures
        (stack.filter(|x: BlockKind| x == BlockKind::WhileBlock || x == BlockKind::ForBlock).len()
            > 0) == has_loop(stack),
    decreases stack.len(),
{
    reveal(Seq::filter);
    if stack.len() > 0 {
        lemma_has_loop_count(stack.drop_last());
        lemma_has_loop_push(stack.drop_last(), stack.last());
        assert(stack.drop_last().push(stack.last()) =~= stack);
    }
}


/// A parsed recipe definition.
#[derive(Debug)]
pub struct Recipe {
    /// The recipe's unique name.
    pub name: Vec<u8>,
    /// Ordered parameter names.
    pub vars: Vec<Vec<u8>>,
    /// True when the last parameter is variadic (collects the remaining
    /// arguments as a list).
    pub variadic: bool,
    /// Ordered names of the recipes run before the body.
    pub depends: Vec<Vec<u8>>,
    /// The doc string after `#` in the header.
    pub desc: Vec<u8>,
    /// The raw feature-guard text (empty = always active).
    pub feat: Vec<u8>,
    /// The parsed feature guard.
    pub guard: Guard,
    /// True for internal, non-listable recipes (name starts with `_`).
    pub system: bool,
    /// True for recipes listed only in the verbose listing.
    pub hidden: bool,
    /// Derived at load time: the guard holds under the active features.
    pub enabled: bool,
    /// The raw body lines, for introspection.
    pub content: Vec<Vec<u8>>,
    /// The file the recipe came from.
    pub filename: Vec<u8>,
    /// The header's line number.
    pub line: usize,
    /// The parsed body.
    pub body: Vec<Stmt>,
}

/// Parses a feature-guard text: possibly negated feature names joined by
/// `&` and `|`. A malformed feature name (empty, or not starting with a
/// letter or `_`) fails with `InvalidFeatureName`.
pub fn parse_guard(s: &[u8], filename: &[u8], line_no: usize) -> (r: Result<Guard, HakuError>)
    ensures
        r matches Ok(g) ==> g.wf(),
        r matches Err(e) ==> e matches HakuError::InvalidFeatureName(_, x) && x@
            == crate::errors::error_extra_spec(filename@, line_no as nat),
{
    let mut terms: Vec<GuardTerm> = Vec::new();
    let mut ops: Vec<bool> = Vec::new();
    let mut pos: usize = skip_ws(s, 0);
    if pos >= s.len() {
        return Ok(Guard { terms, ops });
    }
    loop
        invariant
            pos <= s@.len(),
            terms@.len() == ops@.len(),
        decreases s@.len() - pos,
    {
        let mut negated = false;
        let mut i = skip_ws(s, pos);
        if i < s.len() && s[i] == 33 {
            negated = true;
            i = skip_ws(s, i + 1);
        }
        let e = scan_name(s, i);
        let bad: bool = e == i || (48 <= s[i] && s[i] <= 57) || s[i] == 45 || s[i] == 46;
        if e == i || bad {
            let shown = copy_range(s, i, s.len());
            return Err(
                HakuError::InvalidFeatureName(shown, HakuError::error_extra(filename, line_no)),
            );
        }
        terms.push(GuardTerm { negated, name: copy_range(s, i, e) });
        let j = skip_ws(s, e);
        if j >= s.len() {
            return Ok(Guard { terms, ops });
        }
        let b = s[j];
        if b == 38 {
            ops.push(false);
        } else if b == 124 {
            ops.push(true);
        } else {
            let shown = copy_range(s, j, s.len());
            return Err(
                HakuError::InvalidFeatureName(shown, HakuError::error_extra(filename, line_no)),
            );
        }
        pos = j + 1;
        if pos >= s.len() {
            let shown = copy_range(s, j, s.len());
            return Err(
                HakuError::InvalidFeatureName(shown, HakuError::error_extra(filename, line_no)),
            );
        }
    }
}

/// The recipe name a header line declares: the first name after the
/// `recipe` keyword.
pub open spec fn header_name(s: Seq<u8>) -> Seq<u8> {
    let i0 = ws_end(s, 0);
    let n0 = ws_end(s, i0 + 6);
    let n1 = name_end(s, n0);
    s.subrange(n0, n1)
}

/// Parses a recipe header line:
/// `recipe name(p1, p2, *rest): dep1 dep2 when guard # desc`, with every
/// part after the name optional. Returns the recipe with an empty body,
/// named exactly as the header text names it.
/// A variadic parameter that is not last fails with `RecipeListArgError`.
pub fn parse_header(
    s: &[u8],
    hidden: bool,
    filename: &[u8],
    line_no: usize,
) -> (r: Result<Recipe, HakuError>)
    ensures
        r matches Ok(rcp) ==> rcp.guard.wf() && rcp.hidden == hidden && rcp.body@.len() == 0
            && rcp.content@.len() == 0 && rcp.line == line_no && rcp.filename@ == filename@
            && rcp.name@.len() > 0 && rcp.name@ == header_name(s@) && rcp.system == (
        header_name(s@).len() > 0 && header_name(s@)[0] == 95),
{
    let slen = s.len();
    let i0 = skip_ws(s, 0);
    proof {
        assert(s@.skip(0) =~= s@);
    }
    let krecipe = crate::words::kw_recipe();
    if !kw_matches(s, i0, krecipe.as_slice()) {
        return Err(HakuError::ParseError(bytes_of(s), HakuError::error_extra(filename, line_no)));
    }
    // The end of header parsing is the comment mark, when one stands on
    // the line.
    let mut hash: usize = s.len();
    let mut hi: usize = 0;
    while hi < s.len()
        invariant
            hi <= s@.len(),
            hash <= s@.len(),
        decreases s@.len() - hi,
    {
        if s[hi] == 35 {
            hash = hi;
            break;
        }
        hi += 1;
    }
    let n0 = skip_ws(s, i0 + 6);
    let n1 = scan_name(s, n0);
    proof {
        assert(i0 as int == ws_end(s@, 0));
        assert(n0 as int == ws_end(s@, i0 as int + 6));
        assert(n1 as int == name_end(s@, n0 as int));
    }
    if n1 == n0 || n0 >= hash {
        return Err(HakuError::ParseError(bytes_of(s), HakuError::error_extra(filename, line_no)));
    }
    let name = copy_range(s, n0, n1);
    proof {
        assert(name@ == header_name(s@));
    }
    let system: bool = name.len() > 0 && name[0] == 95;
    let mut vars: Vec<Vec<u8>> = Vec::new();
    let mut variadic = false;
    let mut pos = skip_ws(s, n1);
    if pos < hash && s[pos] == 40 {
        let mut k = skip_ws(s, pos + 1);
        loop
            invariant
                k <= s@.len(),
                hash <= s@.len(),
            decreases s@.len() - k,
        {
            if k >= s.len() {
                return Err(
                    HakuError::ParseError(bytes_of(s), HakuError::error_extra(filename, line_no)),
                );
            }
            if s[k] == 41 {
                pos = skip_ws(s, k + 1);
                break;
            }
            if variadic {
                // A parameter after the variadic one: only the last may
                // collect a list.
                let shown = copy_range(s, k, s.len());
                return Err(HakuError::RecipeListArgError(shown));
            }
            let mut star = false;
            let mut p0 = k;
            if s[k] == 42 {
                star = true;
                p0 = skip_ws(s, k + 1);
            }
            let p1 = scan_name(s, p0);
            if p1 == p0 {
                return Err(
                    HakuError::ParseError(bytes_of(s), HakuError::error_extra(filename, line_no)),
                );
            }
            vars.push(copy_range(s, p0, p1));
            if star {
                variadic = true;
            }
            let q = skip_ws(s, p1);
            if q < s.len() && s[q] == 44 {
                k = skip_ws(s, q + 1);
            } else {
                k = q;
            }
        }
    }
    let mut depends: Vec<Vec<u8>> = Vec::new();
    let mut feat: Vec<u8> = Vec::new();
    let mut guard = Guard::always();
    if pos < hash && s[pos] == 58 {
        let mut k = skip_ws(s, pos + 1);
        let kwhen = crate::words::kw_when();
        loop
            invariant
                k <= s@.len(),
                hash <= s@.len(),
                guard.wf(),
            decreases s@.len() - k,
        {
            if k >= hash {
                pos = k;
                break;
            }
            if kw_matches(s, k, kwhen.as_slice()) {
                pos = k;
                break;
            }
            let d1 = scan_name(s, k);
            if d1 == k {
                return Err(
                    HakuError::ParseError(bytes_of(s), HakuError::error_extra(filename, line_no)),
                );
            }
            depends.push(copy_range(s, k, d1));
            k = skip_ws(s, d1);
        }
    }
    let kwhen = crate::words::kw_when();
    if pos < hash && kw_matches(s, pos, kwhen.as_slice()) {
        let gend = if hash <= s.len() {
            hash
        } else {
            s.len()
        };
        let g0 = skip_ws(s, pos + 4);
        let gtext = copy_range(s, if g0 <= gend {
            g0
        } else {
            gend
        }, gend);
        feat = copy_range(s, if g0 <= gend {
            g0
        } else {
            gend
        }, gend);
        guard = match parse_guard(gtext.as_slice(), filename, line_no) {
            Ok(g) => g,
            Err(e) => {
                return Err(e);
            },
        };
    }
    let mut desc: Vec<u8> = Vec::new();
    if hash < s.len() {
        let d0 = skip_ws(s, hash + 1);
        desc = copy_range(s, d0, s.len());
    }
    Ok(
        Recipe {
            name,
            vars,
            variadic,
            depends,
            desc,
            feat,
            guard,
            system,
            hidden,
            enabled: true,
            content: Vec::new(),
            filename: bytes_of(filename),
            line: line_no,
            body: Vec::new(),
        },
    )
}


/// The position of the first newline byte of `s` (its length when none).
pub open spec fn nl_pos(s: Seq<u8>) -> int
    decreases s.len(),
{
    if s.len() == 0 {
        0
    } else if s[0] == 10 {
        0
    } else {
        1 + nl_pos(s.skip(1))
    }
}

/// True when `s` holds a newline byte.
pub open spec fn has_nl(s: Seq<u8>) -> bool {
    exists|i: int| 0 <= i < s.len() && s[i] == 10
}

/// A line with a trailing carriage return dropped.
pub open spec fn strip_cr(l: Seq<u8>) -> Seq<u8> {
    if l.len() > 0 && l.last() == 13 {
        l.drop_last()
    } else {
        l
    }
}

/// The lines of byte text: split at newline bytes, each line with a
/// trailing carriage return dropped, no final empty line for a trailing
/// newline.
pub open spec fn split_lines_spec(s: Seq<u8>) -> Seq<Seq<u8>>
    decreases s.len(),
    via split_lines_dec
{
    if s.len() == 0 {
        Seq::<Seq<u8>>::empty()
    } else if has_nl(s) {
        seq![strip_cr(s.take(nl_pos(s)))] + split_lines_spec(s.skip(nl_pos(s) + 1))
    } else {
        seq![strip_cr(s)]
    }
}

#[via_fn]
proof fn split_lines_dec(s: Seq<u8>) {
    if s.len() > 0 && has_nl(s) {
        lemma_nl_pos_bounds(s);
    }
}

/// Bounds of `nl_pos`: within the text, and strictly inside it when a
/// newline exists.
proof fn lemma_nl_pos_bounds(s: Seq<u8>)
    ensures
        0 <= nl_pos(s) <= s.len(),
        has_nl(s) ==> nl_pos(s) < s.len(),
    decreases s.len(),
{
    if s.len() == 0 {
    } else if s[0] == 10 {
    } else {
        lemma_nl_pos_bounds(s.skip(1));
        if has_nl(s) {
            let i = choose|i: int| 0 <= i < s.len() && #[trigger] s[i] == 10;
            assert(i != 0);
            assert(s.skip(1)[i - 1] == 10);
            assert(has_nl(s.skip(1)));
        }
    }
}

/// The index of the first newline byte at or after `from`.
fn find_nl(s: &[u8], from: usize) -> (r: Option<usize>)
    requires
        from <= s@.len(),
    ensures
        match r {
            Some(j) => from <= j < s@.len() && has_nl(s@.skip(from as int)) && j - from == nl_pos(
                s@.skip(from as int),
            ),
            None => !has_nl(s@.skip(from as int)),
        },
    decreases s@.len() - from,
{
    if from >= s.len() {
        return None;
    }
    if s[from] == 10 {
        proof {
            assert(s@.skip(from as int)[0] == 10);
        }
        return Some(from);
    }
    proof {
        assert(s@.skip(from as int).skip(1) =~= s@.skip(from as int + 1));
    }
    match find_nl(s, from + 1) {
        Some(j) => {
            proof {
                if has_nl(s@.skip(from as int + 1)) {
                    let i = choose|i: int|
                        0 <= i < s@.skip(from as int + 1).len() && #[trigger] s@.skip(
                            from as int + 1,
                        )[i] == 10;
                    assert(s@.skip(from as int)[i + 1] == 10);
                }
            }
            Some(j)
        },
        None => {
            proof {
                if has_nl(s@.skip(from as int)) {
                    let i = choose|i: int|
                        0 <= i < s@.skip(from as int).len() && #[trigger] s@.skip(from as int)[i]
                            == 10;
                    assert(i != 0);
                    assert(s@.skip(from as int + 1)[i - 1] == 10);
                }
            }
            None
        },
    }
}

/// One line copied out of `s[from..to]`, its trailing carriage return
/// dropped.
fn take_line(s: &[u8], from: usize, to: usize) -> (r: Vec<u8>)
    requires
        from <= to <= s@.len(),
    ensures
        r@ == strip_cr(s@.subrange(from as int, to as int)),
{
    let mut l = copy_range(s, from, to);
    if l.len() > 0 && l[l.len() - 1] == 13 {
        let _ = l.pop();
    }
    l
}

/// Splits the tail of `src` starting at `from` into lines.
fn split_from(src: &[u8], from: usize) -> (r: Vec<Vec<u8>>)
    requires
        from <= src@.len(),
    ensures
        r.deep_view() == split_lines_spec(src@.skip(from as int)),
    decreases src@.len() - from,
{
    let ghost tail = src@.skip(from as int);
    if from >= src.len() {
        let r: Vec<Vec<u8>> = Vec::new();
        proof {
            assert(tail =~= Seq::<u8>::empty());
            assert(r.deep_view() =~~= split_lines_spec(tail));
        }
        return r;
    }
    match find_nl(src, from) {
        Some(j) => {
            let line = take_line(src, from, j);
            let rest = split_from(src, j + 1);
            let mut out: Vec<Vec<u8>> = Vec::new();
            out.push(line);
            let mut k: usize = 0;
            while k < rest.len()
                invariant
                    k <= rest@.len(),
                    out@.len() == k + 1,
                    out.deep_view() =~~= rest.deep_view().subrange(0, k as int).insert(
                        0,
                        strip_cr(src@.subrange(from as int, j as int)),
                    ),
                decreases rest@.len() - k,
            {
                let ghost pre = out.deep_view();
                out.push(crate::text::bytes_of(rest[k].as_slice()));
                proof {
                    assert(rest.deep_view()[k as int] == rest@[k as int]@);
                    assert(out.deep_view() =~~= pre.push(rest.deep_view()[k as int]));
                    assert(rest.deep_view().subrange(0, k + 1).insert(
                        0,
                        strip_cr(src@.subrange(from as int, j as int)),
                    ) =~= rest.deep_view().subrange(0, k as int).insert(
                        0,
                        strip_cr(src@.subrange(from as int, j as int)),
                    ).push(rest.deep_view()[k as int]));
                    assert(out.deep_view() =~~= rest.deep_view().subrange(0, k + 1).insert(
                        0,
                        strip_cr(src@.subrange(from as int, j as int)),
                    ));
                }
                k += 1;
            }
            proof {
                assert(rest.deep_view().subrange(0, rest.deep_view().len() as int)
                    =~= rest.deep_view());
                assert(tail.take(nl_pos(tail)) =~= src@.subrange(from as int, j as int));
                assert(tail.skip(nl_pos(tail) + 1) =~= src@.skip(j as int + 1));
                assert(out.deep_view() =~~= seq![strip_cr(tail.take(nl_pos(tail)))]
                    + split_lines_spec(tail.skip(nl_pos(tail) + 1)));
            }
            out
        },
        None => {
            let line = take_line(src, from, src.len());
            let mut out: Vec<Vec<u8>> = Vec::new();
            out.push(line);
            proof {
                assert(src@.subrange(from as int, src@.len() as int) =~= tail);
                assert(out.deep_view() =~~= seq![strip_cr(tail)]);
            }
            out
        },
    }
}

/// Splits byte text into lines at newline bytes, dropping a carriage
/// return at each line end.
pub fn split_lines(src: &[u8]) -> (r: Vec<Vec<u8>>)
    ensures
        r.deep_view() == split_lines_spec(src@),
{
    let r = split_from(src, 0);
    proof {
        assert(src@.skip(0) =~= src@);
    }
    r
}

/// The length of a path's directory prefix: everything up to and
/// including the last slash (0 when the path holds none).
pub open spec fn dir_len(p: Seq<u8>) -> int
    decreases p.len(),
{
    if p.len() == 0 {
        0
    } else if p.last() == 47 {
        p.len() as int
    } else {
        dir_len(p.drop_last())
    }
}

/// What a file-inclusion target resolves to: an absolute target stands
/// alone; a relative one is joined to the including file's directory.
pub open spec fn resolve_spec(cur_file: Seq<u8>, rel: Seq<u8>) -> Seq<u8> {
    if rel.len() > 0 && rel[0] == 47 {
        rel
    } else {
        cur_file.take(dir_len(cur_file)) + rel
    }
}

/// The directory-prefix length of `p[0..end]`.
fn dir_split(p: &[u8], end: usize) -> (r: usize)
    requires
        end <= p@.len(),
    ensures
        r as int == dir_len(p@.subrange(0, end as int)),
        r <= end,
    decreases end,
{
    if end == 0 {
        proof {
            assert(p@.subrange(0, 0) =~= Seq::<u8>::empty());
        }
        return 0;
    }
    if p[end - 1] == 47 {
        proof {
            assert(p@.subrange(0, end as int).last() == p@[end - 1]);
        }
        return end;
    }
    proof {
        assert(p@.subrange(0, end as int).last() == p@[end - 1]);
        assert(p@.subrange(0, end as int).drop_last() =~= p@.subrange(0, end - 1));
    }
    dir_split(p, end - 1)
}

/// Resolves a file-inclusion target against the directory of the file the
/// directive stands in: absolute targets stand alone, relative ones are
/// joined to that directory.
pub fn resolve_path(cur_file: &[u8], rel: &[u8]) -> (r: Vec<u8>)
    ensures
        r@ == resolve_spec(cur_file@, rel@),
{
    if rel.len() > 0 && rel[0] == 47 {
        return bytes_of(rel);
    }
    let dl = dir_split(cur_file, cur_file.len());
    proof {
        assert(cur_file@.subrange(0, cur_file@.len() as int) =~= cur_file@);
        assert(cur_file@.take(dir_len(cur_file@)) =~= cur_file@.subrange(0, dl as int));
    }
    let mut out = copy_range(cur_file, 0, dl);
    push_all(&mut out, rel);
    out
}

/// True when some open file on the parse stack has this path.
pub open spec fn stack_has_path(stack: Seq<FileFrame>, path: Seq<u8>) -> bool {
    exists|i: int| 0 <= i < stack.len() && #[trigger] stack[i].path@ == path
}

/// Every recipe of the set has a well-formed guard and a balanced body —
/// what the loader guarantees of everything it hands out.
pub open spec fn recipes_ok(rs: Seq<Recipe>) -> bool {
    forall|i: int|
        0 <= i < rs.len() ==> #[trigger] rs[i].guard.wf() && balanced(stmts_of(rs[i].body@))
}

/// A file-scope variable assignment, with the feature guard that gates
/// it (the always-true guard when it stands unguarded). Guarded-out
/// assignments stay parsed but are marked disabled at load time.
#[derive(Debug)]
pub struct FileVar {
    pub guard: Guard,
    pub st: Stmt,
    pub enabled: bool,
}

/// One open file during parsing.
#[derive(Debug)]
pub struct FileFrame {
    pub path: Vec<u8>,
    pub lines: Vec<Vec<u8>>,
    pub pos: usize,
}

/// What one parsing step asks for.
#[derive(Debug, PartialEq, Eq)]
pub enum LoaderStep {
    /// A file's content is needed; `Loader::pending_path` names it.
    NeedFile,
    /// A line was consumed; call `advance` again.
    Progress,
    /// Parsing is complete; take the recipes.
    Done,
}

/// The parser's step machine over a tree of included files. File reading
/// stays outside: whenever a file is needed the machine stops with
/// `NeedFile` and resumes once `supply` hands it the content (or `None`
/// when the file does not exist).
#[derive(Debug)]
pub struct Loader {
    pub stack: Vec<FileFrame>,
    pub recipes: Vec<Recipe>,
    pub file_vars: Vec<FileVar>,
    pub current: Option<Recipe>,
    pub pending: Option<Vec<u8>>,
    pub pending_line: usize,
    pub finished: bool,
}

impl Loader {
    /// A fresh parse asking for the root recipe file.
    pub fn new(root: Vec<u8>) -> (r: Loader)
        ensures
            r.pending matches Some(p) && p@ == root@,
            r.recipes@.len() == 0,
            r.current is None,
    {
        Loader {
            stack: Vec::new(),
            recipes: Vec::new(),
            file_vars: Vec::new(),
            current: None,
            pending: Some(root),
            pending_line: 0,
            finished: false,
        }
    }

    /// The path whose content `supply` waits for, when one is pending.
    pub fn pending_path(&self) -> (r: Option<Vec<u8>>)
        ensures
            match r {
                Some(p) => self.pending matches Some(q) && q@ == p@,
                None => self.pending is None,
            },
    {
        match &self.pending {
            Some(p) => Some(bytes_of(p.as_slice())),
            None => None,
        }
    }

    /// Hands the machine the content of the pending file. `None` means the
    /// file does not exist (with `fail_reason` saying why): the root fails
    /// with `FileOpenFailure` carrying that reason, an included file with
    /// `IncludeNotFound` naming the resolved path. A path already on the
    /// stack of files being parsed fails with `IncludeRecursionError`;
    /// otherwise the file's lines become the new top frame.
    pub fn supply(&mut self, content: Option<Vec<u8>>, fail_reason: Vec<u8>) -> (r: Result<
        (),
        HakuError,
    >)
        ensures
            old(self).pending matches Some(p) ==> ((content is None && old(self).stack@.len() == 0)
                ==> (r matches Err(e) && e matches HakuError::FileOpenFailure(q, why) && q@ == p@
                && why@ == fail_reason@)),
            old(self).pending matches Some(p) ==> ((content is None && old(self).stack@.len() > 0)
                ==> (r matches Err(e) && e matches HakuError::IncludeNotFound(q, x) && q@ == p@
                && x@ == crate::errors::error_extra_spec(
                old(self).stack@.last().path@,
                old(self).pending_line as nat,
            ))),
            old(self).pending matches Some(p) ==> (content is Some ==> (r is Ok
                <==> !stack_has_path(old(self).stack@, p@))),
            old(self).pending matches Some(p) ==> (content matches Some(text) ==> (r is Ok
                ==> (final(self).stack@.len() == old(self).stack@.len() + 1
                && final(self).stack@.last().path@ == p@ && final(self).stack@.last().pos == 0
                && final(self).stack@.last().lines.deep_view() == split_lines_spec(text@)
                && final(self).pending is None))),
            old(self).pending matches Some(p) ==> ((content is Some && r is Err) ==> (r matches Err(e)
                && e matches HakuError::IncludeRecursionError(q) && q@ == p@)),
            final(self).recipes == old(self).recipes,
            final(self).current == old(self).current,
    {
        let path = match self.pending.take() {
            Some(p) => p,
            None => {
                return Err(HakuError::InternalError(Vec::new()));
            },
        };
        let line_no = self.pending_line;
        match &content {
            None => {
                if self.stack.len() == 0 {
                    Err(HakuError::FileOpenFailure(path, fail_reason))
                } else {
                    let extra = if self.stack.len() > 0 {
                        let top = &self.stack[self.stack.len() - 1];
                        HakuError::error_extra(top.path.as_slice(), line_no)
                    } else {
                        Vec::new()
                    };
                    Err(HakuError::IncludeNotFound(path, extra))
                }
            },
            Some(text) => {
                let text = text.as_slice();
                let ghost pre_stack = self.stack@;
                let mut i: usize = 0;
                while i < self.stack.len()
                    invariant
                        i <= self.stack@.len(),
                        !(content is None),
                        self.stack@ == pre_stack,
                        pre_stack == old(self).stack@,
                        self.recipes == old(self).recipes,
                        self.current == old(self).current,
                        old(self).pending matches Some(pp) && pp@ == path@,
                        forall|j: int| 0 <= j < i ==> #[trigger] pre_stack[j].path@ != path@,
                    decreases self.stack@.len() - i,
                {
                    let hit = crate::text::bytes_eq(
                        self.stack[i].path.as_slice(),
                        path.as_slice(),
                    );
                    if hit {
                        proof {
                            assert(stack_has_path(pre_stack, path@));
                        }
                        return Err(HakuError::IncludeRecursionError(path));
                    }
                    i += 1;
                }
                proof {
                    assert(!stack_has_path(pre_stack, path@));
                }
                let lines = split_lines(text);
                self.stack.push(FileFrame { path, lines, pos: 0 });
                Ok(())
            },
        }
    }

    /// Closes the recipe under construction, checking that its control
    /// blocks balance, and merges it into the recipe set: a later recipe
    /// of the same name replaces the earlier one in place, so the
    /// first-listed order is preserved.
    fn close_current(&mut self) -> (r: Result<(), HakuError>)
        ensures
            (recipes_ok(old(self).recipes@) && (old(self).current matches Some(c)
                ==> c.guard.wf()) && r is Ok) ==> recipes_ok(final(self).recipes@),
            r is Ok ==> final(self).current is None,
            final(self).stack == old(self).stack,
            final(self).pending == old(self).pending,
            final(self).finished == old(self).finished,
    {
        let rcp = match self.current.take() {
            Some(c) => c,
            None => {
                return Ok(());
            },
        };
        match check_blocks(&rcp.body, rcp.filename.as_slice()) {
            Ok(()) => {},
            Err(e) => {
                return Err(e);
            },
        }
        let ghost rv = rcp;
        let mut i: usize = 0;
        while i < self.recipes.len()
            invariant
                i <= self.recipes@.len(),
                self.recipes == old(self).recipes,
                self.current is None,
                self.stack == old(self).stack,
                self.pending == old(self).pending,
                self.finished == old(self).finished,
                rcp.guard == rv.guard,
                rcp.body == rv.body,
                balanced(stmts_of(rv.body@)),
                old(self).current matches Some(c0) && c0.guard == rv.guard,
            decreases self.recipes@.len() - i,
        {
            if crate::text::bytes_eq(
                self.recipes[i].name.as_slice(),
                rcp.name.as_slice(),
            ) {
                let ghost pre = self.recipes@;
                self.recipes[i] = rcp;
                proof {
                    if recipes_ok(pre) && rv.guard.wf() {
                        assert forall|j: int|
                            0 <= j < self.recipes@.len() implies #[trigger] self.recipes@[j].guard.wf()
                            && balanced(stmts_of(self.recipes@[j].body@)) by {
                            if j != i as int {
                                assert(self.recipes@[j] == pre[j]);
                            }
                        }
                    }
                }
                return Ok(());
            }
            i += 1;
        }
        let ghost pre = self.recipes@;
        self.recipes.push(rcp);
        proof {
            if recipes_ok(pre) && rv.guard.wf() {
                assert forall|j: int|
                    0 <= j < self.recipes@.len() implies #[trigger] self.recipes@[j].guard.wf()
                    && balanced(stmts_of(self.recipes@[j].body@)) by {
                    if j < pre.len() {
                        assert(self.recipes@[j] == pre[j]);
                    }
                }
            }
        }
        Ok(())
    }

    /// The line the next parsing step consumes.
    pub open spec fn cur_line(&self) -> Seq<u8> {
        self.stack@.last().lines@[self.stack@.last().pos as int]@
    }

    /// True when the next line to consume is a plain (unhidden) recipe
    /// header at file scope.
    pub open spec fn at_plain_header(&self) -> bool {
        &&& self.pending is None
        &&& !self.finished
        &&& self.stack@.len() > 0
        &&& self.stack@.last().pos < self.stack@.last().lines@.len()
        &&& self.cur_line().len() > 0
        &&& leading_ws(self.cur_line()) == 0
        &&& self.cur_line()[0] != 35
        &&& !kw_at(self.cur_line(), crate::words::kw_inc_s())
        &&& !kw_at(self.cur_line(), crate::words::kw_when_s())
        &&& !kw_at(self.cur_line(), crate::words::kw_hidden_s())
        &&& kw_at(self.cur_line(), crate::words::kw_recipe_s())
    }

    /// Consumes one line (or closes one file) per call. Returns `NeedFile`
    /// when a file-inclusion directive asks for content, `Done` when every
    /// file is exhausted.
    pub fn advance(&mut self) -> (r: Result<LoaderStep, HakuError>)
        ensures
            old(self).at_plain_header() ==> (r is Ok ==> (final(self).current matches Some(c)
                && c.name@ == header_name(old(self).cur_line())
                && final(self).stack@.last().pos == old(self).stack@.last().pos + 1)),
            (r matches Ok(e) && e is NeedFile) ==> final(self).pending is Some,
            (r matches Ok(e) && e is Done) ==> old(self).pending is None && (old(self).finished
                || old(self).stack@.len() == 0),
            (recipes_ok(old(self).recipes@) && (old(self).current matches Some(c)
                ==> c.guard.wf()) && r is Ok) ==> (recipes_ok(final(self).recipes@)
                && (final(self).current matches Some(c2) ==> c2.guard.wf())),
    {
        if self.pending.is_some() {
            return Ok(LoaderStep::NeedFile);
        }
        if self.finished {
            return Ok(LoaderStep::Done);
        }
        if self.stack.len() == 0 {
            match self.close_current() {
                Ok(()) => {},
                Err(e) => {
                    return Err(e);
                },
            }
            self.finished = true;
            return Ok(LoaderStep::Done);
        }
        let ti = self.stack.len() - 1;
        let done_file: bool = self.stack[ti].pos >= self.stack[ti].lines.len();
        if done_file {
            match self.close_current() {
                Ok(()) => {},
                Err(e) => {
                    return Err(e);
                },
            }
            let _ = self.stack.pop();
            return Ok(LoaderStep::Progress);
        }
        let pos = self.stack[ti].pos;
        let line = copy_range(
            self.stack[ti].lines[pos].as_slice(),
            0,
            self.stack[ti].lines[pos].len(),
        );
        proof {
            assert(line@ =~= old(self).cur_line());
        }
        self.stack[ti].pos = pos + 1;
        let line_no = pos + 1;
        let fname = bytes_of(self.stack[ti].path.as_slice());
        let s = line.as_slice();
        let i0 = skip_ws(s, 0);
        proof {
            assert(s@.skip(0) =~= s@);
        }
        if i0 >= s.len() {
            return Ok(LoaderStep::Progress);
        }
        if s[i0] == 35 {
            return Ok(LoaderStep::Progress);
        }
        let indented: bool = i0 > 0;
        if indented {
            match &mut self.current {
                Some(rcp) => {
                    let st = match parse_statement(s, line_no, fname.as_slice()) {
                        Ok(st) => st,
                        Err(e) => {
                            return Err(e);
                        },
                    };
                    rcp.body.push(st);
                    rcp.content.push(line);
                    return Ok(LoaderStep::Progress);
                },
                None => {
                    return Err(
                        HakuError::ParseError(
                            line,
                            HakuError::error_extra(fname.as_slice(), line_no),
                        ),
                    );
                },
            }
        }
        let kinc = crate::words::kw_inc();
        if kw_at_exec(s, kinc.as_slice()) {
            match self.close_current() {
                Ok(()) => {},
                Err(e) => {
                    return Err(e);
                },
            }
            // The target stands in quotes after the directive.
            let q0 = skip_ws(s, i0 + 7);
            if q0 >= s.len() || (s[q0] != 34 && s[q0] != 39) {
                return Err(
                    HakuError::ParseError(line, HakuError::error_extra(fname.as_slice(), line_no)),
                );
            }
            let quote = s[q0];
            let mut q1: usize = q0 + 1;
            while q1 < s.len() && s[q1] != quote
                invariant
                    q0 + 1 <= q1 <= s@.len(),
                decreases s@.len() - q1,
            {
                q1 += 1;
            }
            if q1 >= s.len() {
                return Err(
                    HakuError::ParseError(line, HakuError::error_extra(fname.as_slice(), line_no)),
                );
            }
            let rel = copy_range(s, q0 + 1, q1);
            let resolved = resolve_path(fname.as_slice(), rel.as_slice());
            self.pending = Some(resolved);
            self.pending_line = line_no;
            return Ok(LoaderStep::NeedFile);
        }
        let kwhen = crate::words::kw_when();
        if kw_at_exec(s, kwhen.as_slice()) {
            // A guarded file-scope assignment: `when <guard>: name = expr`.
            match self.close_current() {
                Ok(()) => {},
                Err(e) => {
                    return Err(e);
                },
            }
            let g0 = skip_ws(s, i0 + 4);
            let mut ci: usize = g0;
            while ci < s.len() && s[ci] != 58
                invariant
                    g0 <= ci <= s@.len(),
                decreases s@.len() - ci,
            {
                ci += 1;
            }
            if ci >= s.len() {
                return Err(
                    HakuError::ParseError(line, HakuError::error_extra(fname.as_slice(), line_no)),
                );
            }
            let gtext = copy_range(s, g0, ci);
            let guard = match parse_guard(gtext.as_slice(), fname.as_slice(), line_no) {
                Ok(g) => g,
                Err(e) => {
                    return Err(e);
                },
            };
            let rest = copy_range(s, ci + 1, s.len());
            let st = match parse_statement(rest.as_slice(), line_no, fname.as_slice()) {
                Ok(st) => st,
                Err(e) => {
                    return Err(e);
                },
            };
            let is_assign: bool = match &st.st {
                Statement::Assign { .. } => true,
                _ => false,
            };
            if !is_assign {
                return Err(
                    HakuError::ParseError(line, HakuError::error_extra(fname.as_slice(), line_no)),
                );
            }
            self.file_vars.push(FileVar { guard, st, enabled: true });
            return Ok(LoaderStep::Progress);
        }
        let khidden = crate::words::kw_hidden();
        let krecipe = crate::words::kw_recipe();
        let hidden = kw_at_exec(s, khidden.as_slice());
        let is_header = kw_at_exec(s, krecipe.as_slice());
        if hidden || is_header {
            match self.close_current() {
                Ok(()) => {},
                Err(e) => {
                    return Err(e);
                },
            }
            let hstart: usize = if hidden {
                skip_ws(s, i0 + 6)
            } else {
                i0
            };
            let rest = copy_range(s, hstart, s.len());
            proof {
                if !hidden {
                    assert(rest@ =~= s@);
                }
            }
            let rcp = match parse_header(rest.as_slice(), hidden, fname.as_slice(), line_no) {
                Ok(rcp) => rcp,
                Err(e) => {
                    return Err(e);
                },
            };
            self.current = Some(rcp);
            return Ok(LoaderStep::Progress);
        }
        // An unguarded file-scope assignment: `name = expr`.
        match parse_statement(s, line_no, fname.as_slice()) {
            Ok(st) => {
                let is_assign: bool = match &st.st {
                    Statement::Assign { .. } => true,
                    _ => false,
                };
                if is_assign {
                    match self.close_current() {
                        Ok(()) => {},
                        Err(e) => {
                            return Err(e);
                        },
                    }
                    self.file_vars.push(FileVar { guard: Guard::always(), st, enabled: true });
                    return Ok(LoaderStep::Progress);
                }
            },
            Err(_) => {},
        }
        Err(HakuError::ParseError(line, HakuError::error_extra(fname.as_slice(), line_no)))
    }
}

/// Parses a whole recipe-file set held in memory, following inclusion
/// directives inside the set; the parse of each file asks for at most as
/// many steps as it has lines, and a runaway inclusion tree is cut off as
/// an internal fault. Every recipe a successful parse returns has a
/// well-formed guard and a balanced body.
pub fn parse_file_set(
    files: &Vec<(Vec<u8>, Vec<u8>)>,
    root: &[u8],
) -> (r: Result<(Vec<Recipe>, Vec<FileVar>), HakuError>)
    ensures
        r matches Ok(p) ==> recipes_ok(p.0@),
{
    let mut loader = Loader::new(bytes_of(root));
    let mut fuel: usize = 1000000;
    while fuel > 0
        invariant
            recipes_ok(loader.recipes@),
            loader.current matches Some(c) ==> c.guard.wf(),
        decreases fuel,
    {
        fuel -= 1;
        match loader.pending_path() {
            Some(path) => {
                let mut content: Option<Vec<u8>> = None;
                let mut i: usize = 0;
                while i < files.len()
                    invariant
                        i <= files@.len(),
                    decreases files@.len() - i,
                {
                    if crate::text::bytes_eq(files[i].0.as_slice(), path.as_slice()) {
                        content = Some(bytes_of(files[i].1.as_slice()));
                        break;
                    }
                    i += 1;
                }
                match loader.supply(content, Vec::new()) {
                    Ok(()) => {},
                    Err(e) => {
                        return Err(e);
                    },
                }
            },
            None => {},
        }
        match loader.advance() {
            Ok(LoaderStep::Done) => {
                return Ok((loader.recipes, loader.file_vars));
            },
            Ok(_) => {},
            Err(e) => {
                return Err(e);
            },
        }
    }
    Err(HakuError::InternalError(Vec::new()))
}

} // verus!
