//! The integer arithmetic of the builtins `+ - * / mod`: a left fold over
//! the arguments with overflow and division by zero reported as errors.
use vstd::prelude::*;

use crate::text::{dec, push_dec, push_str, string_of};

verus! {

/// Which arithmetic builtin folds the arguments.
#[derive(Debug, Clone, Copy, PartialEq, Eq, Structural)]
pub enum Fold {
    Add,
    Sub,
    Mul,
    Div,
    Mod,
}

/// Division truncated toward zero: the quotient of the magnitudes, negated
/// when the signs differ.
pub open spec fn tdiv(x: int, d: int) -> int {
    if x == 0 {
        0
    } else if x > 0 && d > 0 {
        x / d
    } else if x < 0 && d < 0 {
        (-x) / (-d)
    } else if x < 0 {
        -((-x) / d)
    } else {
        -(x / (-d))
    }
}

/// The remainder of truncated division: the remainder of the magnitudes,
/// with the sign of the dividend.
pub open spec fn trem(x: int, d: int) -> int {
    if x == 0 {
        0
    } else if x > 0 && d > 0 {
        x % d
    } else if x < 0 && d < 0 {
        -((-x) % (-d))
    } else if x < 0 {
        -((-x) % d)
    } else {
        x % (-d)
    }
}

pub open spec fn in_i64(v: int) -> bool {
    i64::MIN <= v <= i64::MAX
}

/// One step of the fold: `acc op v`, or why it fails.
pub open spec fn fold_step(f: Fold, acc: int, v: int) -> Result<int, Seq<char>> {
    match f {
        Fold::Add => if in_i64(acc + v) {
            Ok(acc + v)
        } else {
            Err("整数加法溢出"@)
        },
        Fold::Sub => if in_i64(acc - v) {
            Ok(acc - v)
        } else {
            Err("整数减法溢出"@)
        },
        Fold::Mul => if in_i64(acc * v) {
            Ok(acc * v)
        } else {
            Err("整数乘法溢出"@)
        },
        Fold::Div => if v == 0 {
            Err("整数除零"@)
        } else if !in_i64(tdiv(acc, v)) {
            Err("整数除法溢出"@)
        } else {
            Ok(tdiv(acc, v))
        },
        Fold::Mod => if v == 0 {
            Err("整数取模除零"@)
        } else if acc == i64::MIN && v == -1 {
            Err("整数取模溢出"@)
        } else {
            Ok(trem(acc, v))
        },
    }
}

/// The message for an argument that is not an integer.
pub open spec fn not_int_message(name: Seq<char>) -> Seq<char> {
    name + " 需要 int"@
}

/// The fold of `args[k..]` onto `acc`, stopping at the first argument that
/// is not an integer (`None`) or the first failing step.
pub open spec fn fold_from(f: Fold, args: Seq<Option<i64>>, k: int, acc: int, name: Seq<char>) -> Result<
    int,
    Seq<char>,
>
    decreases args.len() - k,
{
    if k < 0 || k >= args.len() {
        Ok(acc)
    } else {
        match args[k] {
            None => Err(not_int_message(name)),
            Some(v) => match fold_step(f, acc, v as int) {
                Err(m) => Err(m),
                Ok(next) => fold_from(f, args, k + 1, next, name),
            },
        }
    }
}

/// The message for too few arguments.
pub open spec fn arity_message(name: Seq<char>, min_args: nat) -> Seq<char> {
    name + " 至少需要 "@ + dec(min_args) + " 个参数"@
}

/// The integer result of the builtin `name` on `args` (`None` for an
/// argument that is not an integer): with no arguments `+` is 0 and `*` is
/// 1 (the others need `min_args`); `-` of one argument negates it;
/// otherwise the arguments are folded from the left.
pub open spec fn int_fold_spec(f: Fold, args: Seq<Option<i64>>, name: Seq<char>, min_args: nat) -> Result<
    int,
    Seq<char>,
> {
    if args.len() == 0 {
        match f {
            Fold::Add => Ok(0),
            Fold::Mul => Ok(1),
            _ => Err(arity_message(name, min_args)),
        }
    } else if args.len() < min_args {
        Err(arity_message(name, min_args))
    } else if args[0] is None {
        Err(not_int_message(name))
    } else if args.len() == 1 && f == Fold::Sub {
        if args[0]->Some_0 == i64::MIN {
            Err("整数减法溢出"@)
        } else {
            Ok(-(args[0]->Some_0 as int))
        }
    } else {
        fold_from(f, args, 1, args[0]->Some_0 as int, name)
    }
}

fn step(f: Fold, acc: i64, v: i64) -> (r: Result<i64, String>)
    ensures
        match fold_step(f, acc as int, v as int) {
            Ok(x) => r matches Ok(y) && y == x,
            Err(m) => r matches Err(e) && e@ == m,
        },
{
    match f {
        Fold::Add => match acc.checked_add(v) {
            Some(x) => Ok(x),
            None => Err(string_of("整数加法溢出")),
        },
        Fold::Sub => match acc.checked_sub(v) {
            Some(x) => Ok(x),
            None => Err(string_of("整数减法溢出")),
        },
        Fold::Mul => match acc.checked_mul(v) {
            Some(x) => Ok(x),
            None => Err(string_of("整数乘法溢出")),
        },
        Fold::Div => {
            if v == 0 {
                return Err(string_of("整数除零"));
            }
            match acc.checked_div(v) {
                Some(x) => Ok(x),
                None => Err(string_of("整数除法溢出")),
            }
        },
        Fold::Mod => {
            if v == 0 {
                return Err(string_of("整数取模除零"));
            }
            match acc.checked_rem(v) {
                Some(x) => Ok(x),
                None => Err(string_of("整数取模溢出")),
            }
        },
    }
}

/// The integer arithmetic of the builtin `name` (`min_args` is how many
/// arguments it needs when it has no identity).
pub fn int_fold(f: Fold, args: &Vec<Option<i64>>, name: &str, min_args: usize) -> (r: Result<i64, String>)
    ensures
        match int_fold_spec(f, args@, name@, min_args as nat) {
            Ok(x) => r matches Ok(y) && y == x,
            Err(m) => r matches Err(e) && e@ == m,
        },
{
    if args.len() == 0 || args.len() < min_args {
        match f {
            Fold::Add if args.len() == 0 => {
                return Ok(0);
            },
            Fold::Mul if args.len() == 0 => {
                return Ok(1);
            },
            _ => {
                let mut m = string_of(name);
                push_str(&mut m, " 至少需要 ");
                push_dec(&mut m, min_args as u64);
                push_str(&mut m, " 个参数");
                return Err(m);
            },
        }
    }
    let first = match args[0] {
        Some(v) => v,
        None => {
            let mut m = string_of(name);
            push_str(&mut m, " 需要 int");
            return Err(m);
        },
    };
    if args.len() == 1 && f == Fold::Sub {
        if first == i64::MIN {
            return Err(string_of("整数减法溢出"));
        }
        return Ok(-first);
    }
    let mut acc = first;
    let mut k: usize = 1;
    while k < args.len()
        invariant
            1 <= k <= args@.len(),
            int_fold_spec(f, args@, name@, min_args as nat) == fold_from(f, args@, k as int, acc as int, name@),
        decreases args@.len() - k,
    {
        let v = match args[k] {
            Some(v) => v,
            None => {
                let mut m = string_of(name);
                push_str(&mut m, " 需要 int");
                return Err(m);
            },
        };
        match step(f, acc, v) {
            Ok(x) => {
                acc = x;
            },
            Err(e) => {
                return Err(e);
            },
        }
        k = k + 1;
    }
    Ok(acc)
}

} // verus!
