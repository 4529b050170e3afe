//! The environment that the service was started with.

use vstd::prelude::*;
use vstd::string::*;
use vstd::utf8::encode_utf8;

use crate::text::{append_text, chars_of, decimal_digits, digits_of, extend, string_of};
use crate::wire::{
    bytes_before, bytes_less, copy_bytes, lemma_bytes_less_irreflexive, lemma_bytes_less_total,
    lemma_bytes_less_transitive, same_bytes,
};

verus! {

/// A variable of an environment, spelled as the system spells it.
#[derive(Clone, PartialEq, Eq)]
pub struct Variable {
    pub name: Vec<u8>,
    pub value: Vec<u8>,
}

/// The variables that the service was started with, in the order of their
/// names.
#[derive(Clone, PartialEq, Eq)]
pub struct StartupEnvironment {
    pub variables: Vec<Variable>,
}

/// The environment that a list of variables stands for: a later one replaces an
/// earlier one of the same name.
pub open spec fn environment_of(variables: Seq<Variable>) -> Map<Seq<u8>, Seq<u8>>
    decreases variables.len(),
{
    if variables.len() == 0 {
        Map::empty()
    } else {
        environment_of(variables.drop_last()).insert(
            variables.last().name@,
            variables.last().value@,
        )
    }
}

impl View for StartupEnvironment {
    type V = Map<Seq<u8>, Seq<u8>>;

    open spec fn view(&self) -> Map<Seq<u8>, Seq<u8>> {
        environment_of(self.variables@)
    }
}

pub open spec fn is_in_order(variables: Seq<Variable>) -> bool {
    forall|i: int, j: int|
        0 <= i < j < variables.len() ==> bytes_less(
            #[trigger] variables[i].name@,
            #[trigger] variables[j].name@,
        )
}

/// In a list in order, each variable is the one of its name, and there are no
/// others.
proof fn lemma_environment_in_order(variables: Seq<Variable>)
    requires
        is_in_order(variables),
    ensures
        forall|i: int|
            0 <= i < variables.len() ==> environment_of(variables).contains_key(
                (#[trigger] variables[i]).name@,
            ) && environment_of(variables)[variables[i].name@] == variables[i].value@,
        forall|name: Seq<u8>| #[trigger]
            environment_of(variables).contains_key(name) ==> exists|i: int|
                0 <= i < variables.len() && (#[trigger] variables[i]).name@ == name,
    decreases variables.len(),
{
    if variables.len() > 0 {
        let head = variables.drop_last();
        let last = variables.last();
        assert forall|i: int, j: int| 0 <= i < j < head.len() implies bytes_less(
            #[trigger] head[i].name@,
            #[trigger] head[j].name@,
        ) by {
            assert(bytes_less(variables[i].name@, variables[j].name@));
        }
        lemma_environment_in_order(head);
        assert forall|i: int| 0 <= i < variables.len() implies environment_of(
            variables,
        ).contains_key((#[trigger] variables[i]).name@) && environment_of(
            variables,
        )[variables[i].name@] == variables[i].value@ by {
            if i < head.len() {
                assert(head[i] == variables[i]);
                assert(bytes_less(variables[i].name@, variables[variables.len() - 1].name@));
                lemma_bytes_less_irreflexive(last.name@);
            }
        }
        assert forall|name: Seq<u8>| #[trigger]
            environment_of(variables).contains_key(name) implies exists|i: int|
            0 <= i < variables.len() && (#[trigger] variables[i]).name@ == name by {
            if name == last.name@ {
                assert(variables[variables.len() - 1].name@ == name);
            } else {
                assert(environment_of(head).contains_key(name));
                let i = choose|i: int| 0 <= i < head.len() && (#[trigger] head[i]).name@ == name;
                assert(variables[i].name@ == name);
            }
        }
    }
}

/// Two lists in order that hold the same variables stand for the same
/// environment.
proof fn lemma_same_environment(a: Seq<Variable>, map: Map<Seq<u8>, Seq<u8>>)
    requires
        is_in_order(a),
        forall|i: int|
            0 <= i < a.len() ==> map.contains_key((#[trigger] a[i]).name@) && map[a[i].name@]
                == a[i].value@,
        forall|name: Seq<u8>| #[trigger]
            map.contains_key(name) ==> exists|i: int|
                0 <= i < a.len() && (#[trigger] a[i]).name@ == name,
    ensures
        environment_of(a) == map,
{
    lemma_environment_in_order(a);
    let own = environment_of(a);
    assert forall|name: Seq<u8>| own.contains_key(name) <==> map.contains_key(name) by {
        if own.contains_key(name) {
            let i = choose|i: int| 0 <= i < a.len() && (#[trigger] a[i]).name@ == name;
            assert(map.contains_key(a[i].name@));
        }
        if map.contains_key(name) {
            let i = choose|i: int| 0 <= i < a.len() && (#[trigger] a[i]).name@ == name;
            assert(own.contains_key(a[i].name@));
        }
    }
    assert forall|name: Seq<u8>| own.contains_key(name) implies own[name] == map[name] by {
        let i = choose|i: int| 0 <= i < a.len() && (#[trigger] a[i]).name@ == name;
        assert(own[a[i].name@] == map[a[i].name@]);
    }
    assert(own =~= map);
}

fn place_variable(variables: &mut Vec<Variable>, variable: Variable)
    requires
        is_in_order(old(variables)@),
    ensures
        is_in_order(final(variables)@),
        environment_of(final(variables)@) == environment_of(old(variables)@).insert(
            variable.name@,
            variable.value@,
        ),
{
    let ghost before = variables@;
    let ghost id = variable.name@;
    let ghost map = environment_of(before).insert(id, variable.value@);
    let mut at: usize = 0;
    let mut go_on = true;
    while go_on && at < variables.len()
        invariant
            at <= variables@.len(),
            variables@ == before,
            variable.name@ == id,
            forall|i: int| 0 <= i < at ==> bytes_less(#[trigger] before[i].name@, id),
            !go_on ==> at < variables@.len() && !bytes_less(before[at as int].name@, id),
        decreases variables.len() - at, go_on as int,
    {
        if bytes_before(variables[at].name.as_slice(), variable.name.as_slice()) {
            at = at + 1;
        } else {
            go_on = false;
        }
    }
    proof {
        lemma_environment_in_order(before);
        lemma_bytes_less_irreflexive(id);
    }
    if at < variables.len() && same_bytes(
        variables[at].name.as_slice(),
        variable.name.as_slice(),
    ) {
        variables.set(at, variable);
        proof {
            let after = variables@;
            assert forall|i: int, j: int| 0 <= i < j < after.len() implies bytes_less(
                #[trigger] after[i].name@,
                #[trigger] after[j].name@,
            ) by {
                assert(bytes_less(before[i].name@, before[j].name@));
            }
            assert forall|i: int| 0 <= i < after.len() implies map.contains_key(
                (#[trigger] after[i]).name@,
            ) && map[after[i].name@] == after[i].value@ by {
                if i != at {
                    assert(after[i] == before[i]);
                    if i < at {
                        assert(bytes_less(before[i].name@, before[at as int].name@));
                    } else {
                        assert(bytes_less(before[at as int].name@, before[i].name@));
                    }
                }
            }
            assert forall|name: Seq<u8>| #[trigger] map.contains_key(name) implies exists|i: int|
                0 <= i < after.len() && (#[trigger] after[i]).name@ == name by {
                if name == id {
                    assert(after[at as int].name@ == name);
                } else {
                    let i = choose|i: int|
                        0 <= i < before.len() && (#[trigger] before[i]).name@ == name;
                    assert(after[i].name@ == name);
                }
            }
            lemma_same_environment(after, map);
        }
    } else {
        proof {
            if at < before.len() {
                lemma_bytes_less_total(before[at as int].name@, id);
            }
            assert forall|i: int| at <= i < before.len() implies bytes_less(
                id,
                #[trigger] before[i].name@,
            ) by {
                if i > at {
                    assert(bytes_less(before[at as int].name@, before[i].name@));
                    lemma_bytes_less_transitive(id, before[at as int].name@, before[i].name@);
                }
            }
        }
        variables.insert(at, variable);
        proof {
            let after = variables@;
            let source = |k: int| if k < at { k } else { k - 1 };
            assert(after.len() == before.len() + 1);
            assert forall|i: int, j: int| 0 <= i < j < after.len() implies bytes_less(
                #[trigger] after[i].name@,
                #[trigger] after[j].name@,
            ) by {
                if i != at && j != at {
                    assert(after[i] == before[source(i)] && after[j] == before[source(j)]);
                    assert(bytes_less(before[source(i)].name@, before[source(j)].name@));
                } else if i == at {
                    assert(after[j] == before[j - 1]);
                } else {
                    assert(after[i] == before[i]);
                }
            }
            assert forall|i: int| 0 <= i < after.len() implies map.contains_key(
                (#[trigger] after[i]).name@,
            ) && map[after[i].name@] == after[i].value@ by {
                if i != at {
                    assert(after[i] == before[source(i)]);
                    let b = before[source(i)];
                    assert(bytes_less(b.name@, id) || bytes_less(id, b.name@));
                    assert(b.name@ != id);
                }
            }
            assert forall|name: Seq<u8>| #[trigger] map.contains_key(name) implies exists|i: int|
                0 <= i < after.len() && (#[trigger] after[i]).name@ == name by {
                if name == id {
                    assert(after[at as int].name@ == name);
                } else {
                    let i = choose|i: int|
                        0 <= i < before.len() && (#[trigger] before[i]).name@ == name;
                    let place = if i < at { i } else { i + 1 };
                    assert(after[place] == before[i]);
                    assert(after[place].name@ == name);
                }
            }
            lemma_same_environment(after, map);
        }
    }
}

impl Default for StartupEnvironment {
    /// An environment without variables.
    fn default() -> (environment: Self)
        ensures
            environment.well_formed(),
            environment.variables@.len() == 0,
            environment@ == Map::<Seq<u8>, Seq<u8>>::empty(),
    {
        StartupEnvironment { variables: Vec::new() }
    }
}

impl StartupEnvironment {
    /// Nothing occurs twice, and the names ascend.
    pub open spec fn well_formed(self) -> bool {
        is_in_order(self.variables@)
    }

    /// The environment of some variables; a later one replaces an earlier one
    /// of the same name.
    pub fn from_pairs(pairs: Vec<Variable>) -> (environment: Self)
        ensures
            environment.well_formed(),
            environment@ == environment_of(pairs@),
    {
        let ghost all = pairs@;
        let mut rest = pairs;
        let mut variables: Vec<Variable> = Vec::new();
        let ghost mut done: int = 0;
        proof {
            assert(all.skip(0) =~= all);
        }
        while rest.len() > 0
            invariant
                0 <= done <= all.len(),
                rest@ == all.skip(done),
                is_in_order(variables@),
                environment_of(variables@) == environment_of(all.take(done)),
            decreases rest@.len(),
        {
            let variable = rest.remove(0);
            proof {
                assert(variable == all[done]);
                assert(rest@ =~= all.skip(done + 1));
                assert(all.take(done + 1).drop_last() =~= all.take(done));
                assert(all.take(done + 1).last() == variable);
                done = done + 1;
            }
            place_variable(&mut variables, variable);
        }
        proof {
            assert(all.take(all.len() as int) =~= all);
        }
        StartupEnvironment { variables }
    }

    /// The names of the variables, in ascending order.
    pub fn names(&self) -> (names: Vec<Vec<u8>>)
        requires
            self.well_formed(),
        ensures
            names@.len() == self.variables@.len(),
            forall|i: int, j: int|
                0 <= i < j < names@.len() ==> bytes_less(
                    (#[trigger] names@[i])@,
                    (#[trigger] names@[j])@,
                ),
            forall|i: int| 0 <= i < names@.len() ==> self@.contains_key((#[trigger] names@[i])@),
            forall|name: Seq<u8>| #[trigger]
                self@.contains_key(name) ==> exists|i: int|
                    0 <= i < names@.len() && (#[trigger] names@[i])@ == name,
    {
        let mut names: Vec<Vec<u8>> = Vec::new();
        let mut at: usize = 0;
        while at < self.variables.len()
            invariant
                at <= self.variables@.len(),
                names@.len() == at,
                forall|i: int| 0 <= i < at ==> (#[trigger] names@[i])@ == self.variables@[i].name@,
            decreases self.variables.len() - at,
        {
            names.push(copy_bytes(self.variables[at].name.as_slice()));
            at = at + 1;
        }
        proof {
            let all = self.variables@;
            lemma_environment_in_order(all);
            assert forall|i: int, j: int| 0 <= i < j < names@.len() implies bytes_less(
                (#[trigger] names@[i])@,
                (#[trigger] names@[j])@,
            ) by {
                assert(bytes_less(all[i].name@, all[j].name@));
            }
            assert forall|i: int| 0 <= i < names@.len() implies self@.contains_key(
                (#[trigger] names@[i])@,
            ) by {
                assert(self@.contains_key(all[i].name@));
            }
            assert forall|name: Seq<u8>| #[trigger] self@.contains_key(name) implies exists|i: int|
                0 <= i < names@.len() && (#[trigger] names@[i])@ == name by {
                let i = choose|i: int| 0 <= i < all.len() && (#[trigger] all[i]).name@ == name;
                assert(names@[i]@ == name);
            }
        }
        names
    }

    /// The value of a variable.
    pub fn get(&self, name: &str) -> (value: Option<&[u8]>)
        requires
            self.well_formed(),
        ensures
            match value {
                Some(bytes) => self@.contains_key(encode_utf8(name@)) && self@[encode_utf8(name@)]
                    == bytes@,
                None => !self@.contains_key(encode_utf8(name@)),
            },
    {
        let wanted = name.as_bytes();
        proof {
            lemma_environment_in_order(self.variables@);
        }
        let mut at: usize = 0;
        while at < self.variables.len()
            invariant
                at <= self.variables@.len(),
                wanted@ == encode_utf8(name@),
                self@ == environment_of(self.variables@),
                is_in_order(self.variables@),
                forall|i: int|
                    0 <= i < at ==> (#[trigger] self.variables@[i]).name@ != wanted@,
            decreases self.variables.len() - at,
        {
            if same_bytes(self.variables[at].name.as_slice(), wanted) {
                proof {
                    lemma_environment_in_order(self.variables@);
                    assert(self@.contains_key(self.variables@[at as int].name@));
                }
                return Some(self.variables[at].value.as_slice());
            }
            at = at + 1;
        }
        None
    }

    /// What is shown of the environment: how many names it has, never a value.
    pub fn text(&self) -> (text: String)
        ensures
            text@ == "startup environment ("@ + digits_of(self.variables@.len()) + " names)"@,
    {
        let mut line = chars_of("startup environment (");
        let digits = decimal_digits(self.variables.len() as u64);
        extend(&mut line, digits.as_slice());
        append_text(&mut line, " names)");
        string_of(line.as_slice())
    }
}

/// A variable that is given twice has its last value; others keep theirs.
pub proof fn lemma_last_value_counts(variables: Seq<Variable>, variable: Variable, name: Seq<u8>)
    ensures
        environment_of(Seq::empty()) == Map::<Seq<u8>, Seq<u8>>::empty(),
        environment_of(variables.push(variable)).contains_key(variable.name@),
        environment_of(variables.push(variable))[variable.name@] == variable.value@,
        name != variable.name@ ==> environment_of(variables.push(variable)).contains_key(name)
            == environment_of(variables).contains_key(name),
        name != variable.name@ && environment_of(variables).contains_key(name) ==> environment_of(
            variables.push(variable),
        )[name] == environment_of(variables)[name],
{
    assert(variables.push(variable).drop_last() =~= variables);
}

/// Variables in order come by their names, and so none comes twice.
pub proof fn lemma_variables_come_once(variables: Seq<Variable>, i: int, j: int)
    requires
        is_in_order(variables),
        0 <= i < j < variables.len(),
    ensures
        bytes_less(variables[i].name@, variables[j].name@),
        variables[i].name@ != variables[j].name@,
{
    assert(bytes_less(variables[i].name@, variables[j].name@));
    crate::wire::lemma_bytes_less_irreflexive(variables[i].name@);
}

} // verus!
