use vstd::prelude::*;
use vstd::string::*;

use crate::error::TaskError;
use crate::model::VarValue;
use crate::text::chars_string;
use crate::text::int_dec_string;
use crate::text::int_to_dec;
use crate::text::replace_all;
use crate::text::replace_chars;
use crate::text::str_chars;
use crate::text::token_of;

verus! {

/// A value that can be substituted into a command: anything but an array or
/// a table.
pub open spec fn is_scalar(v: VarValue) -> bool {
    !(v is VArray || v is VTable)
}

/// Every value of the variable table is a scalar.
pub open spec fn all_scalar(vars: Seq<(String, VarValue)>) -> bool {
    forall|i: int| 0 <= i < vars.len() ==> is_scalar(#[trigger] vars[i].1)
}

/// The text a scalar substitutes as: strings, floats and timestamps pass
/// through (the latter two already rendered), integers take their canonical
/// decimal form, booleans read `true` or `false`.
pub open spec fn str_of_value(v: VarValue) -> Seq<char>
    recommends
        is_scalar(v),
{
    match v {
        VarValue::VStr(s) => s@,
        VarValue::VInt(i) => int_to_dec(i as int),
        VarValue::VFloat(s) => s@,
        VarValue::VBool(b) => if b {
            "true"@
        } else {
            "false"@
        },
        VarValue::VDatetime(s) => s@,
        VarValue::VArray => Seq::<char>::empty(),
        VarValue::VTable => Seq::<char>::empty(),
    }
}

/// Renders one variable value as text, rejecting arrays and tables.
pub fn value_to_string(v: &VarValue) -> (r: Result<String, TaskError>)
    ensures
        match r {
            Ok(s) => is_scalar(*v) && s@ == str_of_value(*v),
            Err(e) => !is_scalar(*v) && e == TaskError::UnsupportedVariableType,
        },
{
    match v {
        VarValue::VStr(s) => Ok(s.clone()),
        VarValue::VInt(i) => Ok(int_dec_string(*i)),
        VarValue::VFloat(s) => Ok(s.clone()),
        VarValue::VBool(b) => Ok(
            if *b {
                String::from_str("true")
            } else {
                String::from_str("false")
            },
        ),
        VarValue::VDatetime(s) => Ok(s.clone()),
        VarValue::VArray => Err(TaskError::UnsupportedVariableType),
        VarValue::VTable => Err(TaskError::UnsupportedVariableType),
    }
}

/// The command after one pass over the whole variable table, in order: each
/// variable's `$(name)` token replaced by its value's text.
pub open spec fn spec_substitute(cmd: Seq<char>, vars: Seq<(String, VarValue)>) -> Seq<char>
    recommends
        all_scalar(vars),
    decreases vars.len(),
{
    if vars.len() == 0 {
        cmd
    } else {
        replace_all(
            spec_substitute(cmd, vars.drop_last()),
            token_of(vars.last().0@),
            str_of_value(vars.last().1),
        )
    }
}

/// A command that contains no defined variable's token comes out of the
/// substitution pass unchanged: in particular, a token whose name is not in
/// the table stays byte-for-byte intact.
pub proof fn lemma_substitute_untouched(cmd: Seq<char>, vars: Seq<(String, VarValue)>)
    requires
        forall|i: int|
            0 <= i < vars.len() ==> !crate::text::contains_pat(
                cmd,
                token_of((#[trigger] vars[i]).0@),
            ),
    ensures
        spec_substitute(cmd, vars) == cmd,
    decreases vars.len(),
{
    if vars.len() == 0 {
    } else {
        lemma_substitute_untouched(cmd, vars.drop_last());
        crate::text::lemma_replace_all_absent(
            cmd,
            token_of(vars.last().0@),
            str_of_value(vars.last().1),
        );
    }
}

/// Replaces every variable's `$(name)` token in the command by that
/// variable's text, walking the whole table once in order. A token whose
/// name is not in the table stays as it is. Every value is stringified,
/// referenced or not, so any array or table variable is fatal.
pub fn substitute_command(command: &String, variables: &Vec<(String, VarValue)>) -> (r: Result<
    String,
    TaskError,
>)
    ensures
        match r {
            Ok(s) => all_scalar(variables@) && s@ == spec_substitute(command@, variables@),
            Err(e) => !all_scalar(variables@) && e == TaskError::UnsupportedVariableType,
        },
{
    let mut cur: Vec<char> = str_chars(command.as_str());
    let mut i: usize = 0;
    proof {
        assert(variables@.take(0) =~= Seq::<(String, VarValue)>::empty());
    }
    while i < variables.len()
        invariant
            i <= variables@.len(),
            forall|k: int| 0 <= k < i ==> is_scalar(#[trigger] variables@[k].1),
            cur@ == spec_substitute(command@, variables@.take(i as int)),
        decreases variables@.len() - i,
    {
        let val = match value_to_string(&variables[i].1) {
            Ok(s) => s,
            Err(e) => {
                proof {
                    assert(!is_scalar(variables@[i as int].1));
                }
                return Err(e);
            },
        };
        let pat = crate::text::make_token(variables[i].0.as_str());
        let repl = str_chars(val.as_str());
        cur = replace_chars(&cur, &pat, &repl);
        proof {
            assert(variables@.take(i + 1 as int).drop_last() =~= variables@.take(i as int));
            assert(variables@.take(i + 1 as int).last() == variables@[i as int]);
        }
        i += 1;
    }
    proof {
        assert(variables@.take(variables@.len() as int) =~= variables@);
    }
    Ok(chars_string(&cur))
}

} // verus!
