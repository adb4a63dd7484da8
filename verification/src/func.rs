//! The registry of built-in functions callable from expressions. The set is
//! fixed at startup: `upper` and `lower` (ASCII case mapping of the
//! argument's rendering), `len` (item count of a list, byte length of the
//! rendering otherwise), `int` (integer coercion), and `env` (a lookup in
//! the run's environment snapshot, which the caller supplies — the
//! library itself reads no process state). A call with an unknown name or
//! the wrong number of arguments fails with `FunctionError`.

use crate::errors::HakuError;
use crate::text::bytes_eq;
use crate::text::bytes_of;
use crate::value::as_int_spec;
use crate::value::render_spec;
use crate::value::vals_view;
use crate::value::Value;
use crate::value::ValueView;
use crate::words::fn_int;
use crate::words::fn_int_s;
use crate::words::fn_len;
use crate::words::fn_len_s;
use crate::words::fn_lower;
use crate::words::fn_lower_s;
use crate::words::fn_env;
use crate::words::fn_env_s;
use crate::words::fn_upper;
use crate::words::fn_upper_s;
use vstd::prelude::*;

verus! {

/// ASCII upper-casing of one byte.
pub open spec fn upper_byte(b: u8) -> u8 {
    if 97 <= b <= 122 {
        (b - 32) as u8
    } else {
        b
    }
}

/// ASCII lower-casing of one byte.
pub open spec fn lower_byte(b: u8) -> u8 {
    if 65 <= b <= 90 {
        (b + 32) as u8
    } else {
        b
    }
}

/// The mathematical content of an environment snapshot.
pub open spec fn pairs_view(env: Seq<(Vec<u8>, Vec<u8>)>) -> Seq<(Seq<u8>, Seq<u8>)> {
    env.map_values(|e: (Vec<u8>, Vec<u8>)| (e.0@, e.1@))
}

/// The first value bound to `name` in the snapshot; empty text when none.
pub open spec fn env_lookup_spec(env: Seq<(Seq<u8>, Seq<u8>)>, name: Seq<u8>) -> Seq<u8>
    decreases env.len(),
{
    if env.len() == 0 {
        Seq::<u8>::empty()
    } else if env[0].0 == name {
        env[0].1
    } else {
        env_lookup_spec(env.skip(1), name)
    }
}

/// What a built-in call returns under the environment snapshot `env`;
/// `None` means the call is invalid (unknown name or wrong arity) and
/// surfaces as `FunctionError`.
pub open spec fn func_result(
    name: Seq<u8>,
    args: Seq<ValueView>,
    env: Seq<(Seq<u8>, Seq<u8>)>,
) -> Option<ValueView> {
    if name == fn_upper_s() && args.len() == 1 {
        Option::Some(ValueView::Str(render_spec(args[0]).map_values(|b: u8| upper_byte(b))))
    } else if name == fn_lower_s() && args.len() == 1 {
        Option::Some(ValueView::Str(render_spec(args[0]).map_values(|b: u8| lower_byte(b))))
    } else if name == fn_len_s() && args.len() == 1 {
        match args[0] {
            ValueView::List(l) => if l.len() <= 0x7fff_ffff_ffff_ffff {
                Option::Some(ValueView::Int(l.len() as int))
            } else {
                Option::Some(ValueView::Int(0x7fff_ffff_ffff_ffff))
            },
            _ => if render_spec(args[0]).len() <= 0x7fff_ffff_ffff_ffff {
                Option::Some(ValueView::Int(render_spec(args[0]).len() as int))
            } else {
                Option::Some(ValueView::Int(0x7fff_ffff_ffff_ffff))
            },
        }
    } else if name == fn_int_s() && args.len() == 1 {
        Option::Some(ValueView::Int(as_int_spec(args[0])))
    } else if name == fn_env_s() && args.len() == 1 {
        Option::Some(ValueView::Str(env_lookup_spec(env, render_spec(args[0]))))
    } else {
        Option::None
    }
}

/// Looks a name up in the environment snapshot, first binding wins.
fn env_lookup(env: &Vec<(Vec<u8>, Vec<u8>)>, name: &[u8], from: usize) -> (r: Vec<u8>)
    requires
        from <= env@.len(),
    ensures
        r@ == env_lookup_spec(pairs_view(env@).skip(from as int), name@),
    decreases env@.len() - from,
{
    if from >= env.len() {
        proof {
            assert(pairs_view(env@).skip(from as int) =~= Seq::<(Seq<u8>, Seq<u8>)>::empty());
        }
        return Vec::new();
    }
    proof {
        assert(pairs_view(env@).skip(from as int)[0] == (env@[from as int].0@, env@[
            from as int
        ].1@));
        assert(pairs_view(env@).skip(from as int).skip(1) =~= pairs_view(env@).skip(
            from as int + 1,
        ));
    }
    if crate::text::bytes_eq(env[from].0.as_slice(), name) {
        crate::text::bytes_of(env[from].1.as_slice())
    } else {
        env_lookup(env, name, from + 1)
    }
}

/// Maps every byte of `s` by the ASCII case function selected by `up`.
fn map_case(s: &Vec<u8>, up: bool) -> (r: Vec<u8>)
    ensures
        up ==> r@ == s@.map_values(|b: u8| upper_byte(b)),
        !up ==> r@ == s@.map_values(|b: u8| lower_byte(b)),
{
    let mut r: Vec<u8> = Vec::new();
    let mut i: usize = 0;
    while i < s.len()
        invariant
            i <= s.len(),
            up ==> r@ =~= s@.subrange(0, i as int).map_values(|b: u8| upper_byte(b)),
            !up ==> r@ =~= s@.subrange(0, i as int).map_values(|b: u8| lower_byte(b)),
        decreases s.len() - i,
    {
        let b = s[i];
        let m: u8 = if up {
            if 97 <= b && b <= 122 {
                b - 32
            } else {
                b
            }
        } else {
            if 65 <= b && b <= 90 {
                b + 32
            } else {
                b
            }
        };
        r.push(m);
        proof {
            assert(s@.subrange(0, i + 1).drop_last() =~= s@.subrange(0, i as int));
            assert(s@.subrange(0, i + 1).map_values(|x: u8| upper_byte(x)).drop_last()
                =~= s@.subrange(0, i as int).map_values(|x: u8| upper_byte(x)));
            assert(s@.subrange(0, i + 1).map_values(|x: u8| lower_byte(x)).drop_last()
                =~= s@.subrange(0, i as int).map_values(|x: u8| lower_byte(x)));
            assert(s@.subrange(0, i + 1).map_values(|x: u8| upper_byte(x)).last() == upper_byte(
                s@[i as int],
            ));
            assert(s@.subrange(0, i + 1).map_values(|x: u8| lower_byte(x)).last() == lower_byte(
                s@[i as int],
            ));
            if up {
                assert(r@ =~= s@.subrange(0, i + 1).map_values(|x: u8| upper_byte(x)));
            } else {
                assert(r@ =~= s@.subrange(0, i + 1).map_values(|x: u8| lower_byte(x)));
            }
        }
        i += 1;
    }
    proof {
        assert(s@.subrange(0, s@.len() as int) =~= s@);
    }
    r
}

/// Invokes the built-in named `name` on `args` under the environment
/// snapshot `env`; exactly the calls that `func_result` rejects fail,
/// with `FunctionError` carrying the name.
pub fn call_function(name: &[u8], args: &Vec<Value>, env: &Vec<(Vec<u8>, Vec<u8>)>) -> (r: Result<
    Value,
    HakuError,
>)
    ensures
        match r {
            Ok(v) => func_result(name@, vals_view(args@), pairs_view(env@)) == Option::Some(v@),
            Err(e) => func_result(name@, vals_view(args@), pairs_view(env@)) == Option::None::<
                ValueView,
            > && (e matches HakuError::FunctionError(m) && m@ == name@),
        },
{
    let ghost av = vals_view(args@);
    proof {
        if args@.len() > 0 {
            assert(av[0] == args@[0]@);
        }
        assert(av.len() == args@.len());
    }
    let up = fn_upper();
    let low = fn_lower();
    let ln = fn_len();
    let int_name = fn_int();
    if bytes_eq(name, up.as_slice()) && args.len() == 1 {
        let rendered = args[0].render();
        Ok(Value::Str(map_case(&rendered, true)))
    } else if bytes_eq(name, low.as_slice()) && args.len() == 1 {
        let rendered = args[0].render();
        Ok(Value::Str(map_case(&rendered, false)))
    } else if bytes_eq(name, ln.as_slice()) && args.len() == 1 {
        match &args[0] {
            Value::List(l) => {
                let len64: u64 = l.len() as u64;
                if len64 <= 0x7fff_ffff_ffff_ffff {
                    Ok(Value::Int(len64 as i64))
                } else {
                    Ok(Value::Int(0x7fff_ffff_ffff_ffff))
                }
            },
            _ => {
                let rendered = args[0].render();
                let len64: u64 = rendered.len() as u64;
                if len64 <= 0x7fff_ffff_ffff_ffff {
                    Ok(Value::Int(len64 as i64))
                } else {
                    Ok(Value::Int(0x7fff_ffff_ffff_ffff))
                }
            },
        }
    } else if bytes_eq(name, int_name.as_slice()) && args.len() == 1 {
        Ok(Value::Int(args[0].as_int()))
    } else {
        let env_name = fn_env();
        if bytes_eq(name, env_name.as_slice()) && args.len() == 1 {
            let key = args[0].render();
            let val = env_lookup(env, key.as_slice(), 0);
            proof {
                assert(pairs_view(env@).skip(0) =~= pairs_view(env@));
            }
            Ok(Value::Str(val))
        } else {
            Err(HakuError::FunctionError(bytes_of(name)))
        }
    }
}

} // verus!
