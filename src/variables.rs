//! A list of named variables, as a command interpreter keeps them.
use vstd::prelude::*;
use crate::address::copy_range;

verus! {

/// A variable: a name and its value.
pub struct Variable {
    pub name: Vec<u8>,
    pub value: Vec<u8>,
}

/// `i` is the first variable named `name`.
pub open spec fn first_named(vars: Seq<Variable>, name: Seq<u8>, i: int) -> bool {
    &&& 0 <= i < vars.len()
    &&& vars[i].name@ == name
    &&& forall|j: int| 0 <= j < i ==> (#[trigger] vars[j]).name@ != name
}

pub open spec fn has_name(vars: Seq<Variable>, name: Seq<u8>) -> bool {
    exists|i: int| 0 <= i < vars.len() && (#[trigger] vars[i]).name@ == name
}

fn same_bytes(a: &Vec<u8>, b: &[u8]) -> (r: bool)
    ensures
        r == (a@ == b@),
{
    if a.len() != b.len() {
        return false;
    }
    let mut i: usize = 0;
    while i < a.len()
        invariant
            a@.len() == b@.len(),
            i <= a@.len(),
            forall|j: int| 0 <= j < i ==> a@[j] == #[trigger] b@[j],
        decreases a@.len() - i,
    {
        if a[i] != b[i] {
            return false;
        }
        i = i + 1;
    }
    assert(a@ =~= b@);
    true
}

/// Sets `name` to `value`: an empty name does nothing; an empty value
/// removes the first variable of that name; otherwise the first variable of
/// that name takes the value, or a new variable is added at the end.
pub fn set_var(variables: &mut Vec<Variable>, name: &[u8], value: &[u8])
    ensures
        name@.len() == 0 ==> final(variables)@ == old(variables)@,
        name@.len() > 0 && !has_name(old(variables)@, name@) && value@.len() == 0 ==> final(variables)@
            == old(variables)@,
        name@.len() > 0 && !has_name(old(variables)@, name@) && value@.len() > 0 ==> ({
            let v = final(variables)@;
            &&& v.len() == old(variables)@.len() + 1
            &&& v.drop_last() == old(variables)@
            &&& v.last().name@ == name@ && v.last().value@ == value@
        }),
        forall|i: int|
            name@.len() > 0 && first_named(old(variables)@, name@, i) ==> {
                let v = final(variables)@;
                &&& value@.len() == 0 ==> v == old(variables)@.remove(i)
                &&& value@.len() > 0 ==> v.len() == old(variables)@.len() && v[i].name@ == name@
                    && v[i].value@ == value@ && forall|j: int|
                    0 <= j < v.len() && j != i ==> #[trigger] v[j] == old(variables)@[j]
            },
{
    if name.len() == 0 {
        return;
    }
    let mut i: usize = 0;
    while i < variables.len()
        invariant
            i <= variables@.len(),
            variables@ == old(variables)@,
            name@.len() > 0,
            forall|j: int| 0 <= j < i ==> (#[trigger] variables@[j]).name@ != name@,
        decreases variables@.len() - i,
    {
        if same_bytes(&variables[i].name, name) {
            assert(first_named(old(variables)@, name@, i as int));
            assert forall|k: int| first_named(old(variables)@, name@, k) implies k == i by {
                if k < i {
                } else if k > i {
                    assert(old(variables)@[i as int].name@ == name@);
                }
            }
            if value.len() == 0 {
                variables.remove(i);
            } else {
                let mut v = variables.remove(i);
                v.value = copy_range(value, 0, value.len());
                assert(value@.subrange(0, value@.len() as int) =~= value@);
                variables.insert(i, v);
                assert forall|j: int| 0 <= j < variables@.len() && j != i implies #[trigger] variables@[j]
                    == old(variables)@[j] by {}
            }
            return;
        }
        i = i + 1;
    }
    assert(!has_name(old(variables)@, name@));
    assert forall|k: int| !first_named(old(variables)@, name@, k) by {}
    if value.len() > 0 {
        variables.push(
            Variable { name: copy_range(name, 0, name.len()), value: copy_range(value, 0, value.len()) },
        );
        assert(name@.subrange(0, name@.len() as int) =~= name@);
        assert(value@.subrange(0, value@.len() as int) =~= value@);
        assert(variables@.drop_last() =~= old(variables)@);
    }
}

} // verus!
