//! Cross-field condition check: the named sibling parameters of the same
//! reading batch must be valid (hold a number) or non-zero, depending on
//! the configured mode. A sibling name that cannot be resolved is a
//! configuration error and fails the check (fail-closed).

use vstd::prelude::*;

use crate::config::{Condition, ConditionMode};
use crate::value::{num64_of, DataType, DataValue};

verus! {

/// The value the first sibling of that name carries, if any.
pub open spec fn spec_lookup(sib: Seq<(String, DataType)>, name: Seq<char>) -> Option<DataType>
    decreases sib.len(),
{
    if sib.len() == 0 {
        Option::None
    } else if sib[0].0@ == name {
        Some(sib[0].1)
    } else {
        spec_lookup(sib.drop_first(), name)
    }
}

/// One sibling value meets the mode: it is a number (`Valid`), or it is
/// not exactly zero (`NonZero`; a value that is no number is not zero).
pub open spec fn sibling_ok(v: DataValue, mode: ConditionMode) -> bool {
    match mode {
        ConditionMode::Valid => num64_of(v) is Some || v is Datetime || v is Text,
        ConditionMode::NonZero => match num64_of(v) {
            Some(n) => n != 0,
            Option::None => true,
        },
    }
}

/// The requirement on one named sibling holds: the name resolves and the
/// resolved value meets the mode.
pub open spec fn spec_requirement_ok(
    sib: Seq<(String, DataType)>,
    name: Seq<char>,
    mode: ConditionMode,
) -> bool {
    match spec_lookup(sib, name) {
        Some(d) => sibling_ok(d@, mode),
        Option::None => false,
    }
}

/// Some required sibling is missing or fails the mode.
pub open spec fn spec_condition_fails(c: Condition, sib: Seq<(String, DataType)>) -> bool {
    exists|i: int| 0 <= i < c.valid@.len() && !spec_requirement_ok(sib, c.valid@[i]@, c.mode)
}

/// Index of the first sibling carrying `name`, if any.
fn find_sibling(siblings: &Vec<(String, DataType)>, name: &String) -> (r: Option<usize>)
    ensures
        match r {
            Some(j) => j < siblings@.len() && spec_lookup(siblings@, name@) == Some(
                siblings@[j as int].1,
            ),
            Option::None => spec_lookup(siblings@, name@) is None,
        },
{
    let n = siblings.len();
    let mut j: usize = 0;
    proof {
        assert(siblings@.skip(0) =~= siblings@);
    }
    while j < n
        invariant
            j <= n,
            n == siblings@.len(),
            spec_lookup(siblings@, name@) == spec_lookup(siblings@.skip(j as int), name@),
        decreases n - j,
    {
        let ghost rest = siblings@.skip(j as int);
        proof {
            assert(rest[0] == siblings@[j as int]);
        }
        if crate::textutil::string_eq_str(siblings[j].0.as_str(), name.as_str()) {
            assert(spec_lookup(rest, name@) == Some(siblings@[j as int].1));
            return Some(j);
        }
        proof {
            assert(rest.drop_first() =~= siblings@.skip(j as int + 1));
            assert(spec_lookup(rest, name@) == spec_lookup(rest.drop_first(), name@));
        }
        j += 1;
    }
    proof {
        assert(siblings@.skip(n as int) =~= Seq::<(String, DataType)>::empty());
    }
    None
}

/// Passes iff every required sibling resolves and meets the mode.
pub fn condition_check(cond: &Condition, siblings: &Vec<(String, DataType)>) -> (pass: bool)
    ensures
        pass == !spec_condition_fails(*cond, siblings@),
{
    let n = cond.valid.len();
    let mut i: usize = 0;
    while i < n
        invariant
            i <= n,
            n == cond.valid@.len(),
            forall|k: int|
                0 <= k < i ==> spec_requirement_ok(siblings@, cond.valid@[k]@, cond.mode),
        decreases n - i,
    {
        let ok: bool = match find_sibling(siblings, &cond.valid[i]) {
            Some(j) => {
                let v = &siblings[j].1;
                match cond.mode {
                    ConditionMode::Valid => match v {
                        DataType::Integer(_) => true,
                        DataType::Numeric(_) => true,
                        DataType::Datetime(_) => true,
                        DataType::Text(_) => true,
                        DataType::NotANumber => false,
                        DataType::Null => false,
                    },
                    ConditionMode::NonZero => match v.to_number() {
                        Some(x) => x != 0,
                        Option::None => true,
                    },
                }
            },
            Option::None => false,
        };
        if !ok {
            assert(!spec_requirement_ok(siblings@, cond.valid@[i as int]@, cond.mode));
            return false;
        }
        i += 1;
    }
    proof {
        false_condition_absent(cond, siblings);
    }
    true
}

/// When every requirement holds, no witness to a failure exists.
proof fn false_condition_absent(cond: &Condition, siblings: &Vec<(String, DataType)>)
    requires
        forall|k: int|
            0 <= k < cond.valid@.len() ==> spec_requirement_ok(siblings@, cond.valid@[k]@,
                cond.mode,
            ),
    ensures
        !spec_condition_fails(*cond, siblings@),
{
}

} // verus!
