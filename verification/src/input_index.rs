//! Looking up immutable inputs by name.

use vstd::prelude::*;
use vstd::string::*;

use crate::artifact::{same_input, InputIdentity};
use crate::text_map::TextMap;

verus! {

/// Input `j` is the last with its name.
pub open spec fn is_last_input(inputs: Seq<InputIdentity>, j: int, name: Seq<char>) -> bool {
    &&& 0 <= j < inputs.len()
    &&& inputs[j].identity@ == name
    &&& forall|k: int| j < k < inputs.len() ==> (#[trigger] inputs[k]).identity@ != name
}

/// The inputs hold exactly this one under its name.
pub open spec fn holds_input(inputs: Seq<InputIdentity>, input: InputIdentity) -> bool {
    exists|j: int| #[trigger]
        is_last_input(inputs, j, input.identity@) && same_input(inputs[j], input)
}

/// The inputs hold every one of `wanted`.
pub open spec fn holds_all(inputs: Seq<InputIdentity>, wanted: Seq<InputIdentity>) -> bool {
    forall|i: int| 0 <= i < wanted.len() ==> holds_input(inputs, #[trigger] wanted[i])
}

/// The last place of every name.
fn index_inputs(inputs: &Vec<InputIdentity>) -> (map: TextMap<usize>)
    ensures
        map.wf(),
        forall|name: Seq<char>| #[trigger]
            map.map().contains_key(name) ==> is_last_input(inputs@, map.map()[name] as int, name),
        forall|j: int|
            0 <= j < inputs@.len() ==> map.map().contains_key((#[trigger] inputs@[j]).identity@),
{
    let mut map: TextMap<usize> = TextMap::new();
    let mut i: usize = 0;
    while i < inputs.len()
        invariant
            i <= inputs@.len(),
            map.wf(),
            forall|name: Seq<char>| #[trigger]
                map.map().contains_key(name) ==> is_last_input(
                    inputs@.take(i as int),
                    map.map()[name] as int,
                    name,
                ),
            forall|j: int|
                0 <= j < i ==> map.map().contains_key((#[trigger] inputs@[j]).identity@),
        decreases inputs.len() - i,
    {
        let ghost before = map.map();
        let ghost own = inputs@[i as int].identity@;
        map.insert(inputs[i].identity.clone(), i);
        proof {
            let less = inputs@.take(i as int);
            let more = inputs@.take(i + 1);
            assert forall|name: Seq<char>| #[trigger] map.map().contains_key(name) implies is_last_input(
                more,
                map.map()[name] as int,
                name,
            ) by {
                if name != own {
                    assert(before.contains_key(name));
                    let at = before[name] as int;
                    assert(is_last_input(less, at, name));
                    assert forall|k: int| at < k < more.len() implies (
                    #[trigger] more[k]).identity@ != name by {
                        if k < i {
                            assert(less[k] == more[k]);
                        }
                    }
                    assert(more[at] == less[at]);
                }
            }
        }
        i += 1;
    }
    assert(inputs@.take(inputs@.len() as int) =~= inputs@);
    map
}

/// Whether the inputs hold every one of `wanted`.
pub fn inputs_hold_all(inputs: &Vec<InputIdentity>, wanted: &Vec<InputIdentity>) -> (all: bool)
    ensures
        all == holds_all(inputs@, wanted@),
{
    let map: TextMap<usize> = index_inputs(inputs);
    let mut i: usize = 0;
    while i < wanted.len()
        invariant
            i <= wanted@.len(),
            map.wf(),
            forall|name: Seq<char>| #[trigger]
                map.map().contains_key(name) ==> is_last_input(
                    inputs@,
                    map.map()[name] as int,
                    name,
                ),
            forall|j: int|
                0 <= j < inputs@.len() ==> map.map().contains_key(
                    (#[trigger] inputs@[j]).identity@,
                ),
            forall|j: int| 0 <= j < i ==> holds_input(inputs@, #[trigger] wanted@[j]),
        decreases wanted.len() - i,
    {
        let input: &InputIdentity = &wanted[i];
        let ghost name = input.identity@;
        match map.find(input.identity.as_str()) {
            None => {
                proof {
                    if holds_input(inputs@, wanted@[i as int]) {
                        let j = choose|j: int| #[trigger]
                            is_last_input(inputs@, j, name) && same_input(inputs@[j], *input);
                        assert(map.map().contains_key(inputs@[j].identity@));
                    }
                }
                return false;
            },
            Some(place) => {
                let at: usize = map.entries[place].1;
                assert(is_last_input(inputs@, at as int, name));
                if !crate::artifact::input_equal(&inputs[at], input) {
                    proof {
                        if holds_input(inputs@, wanted@[i as int]) {
                            let j = choose|j: int| #[trigger]
                                is_last_input(inputs@, j, name) && same_input(inputs@[j], *input);
                            if j < at {
                                assert(inputs@[at as int].identity@ != name);
                            }
                            if at < j {
                                assert(inputs@[j].identity@ != name);
                            }
                        }
                    }
                    return false;
                }
                assert(holds_input(inputs@, wanted@[i as int]));
            },
        }
        i += 1;
    }
    true
}

/// Some input has the name.
pub open spec fn names_input(inputs: Seq<InputIdentity>, name: Seq<char>) -> bool {
    exists|j: int| 0 <= j < inputs.len() && (#[trigger] inputs[j]).identity@ == name
}

/// Of the first `count` inputs, the places of those that `applied` does not name.
pub open spec fn pending_places(
    inputs: Seq<InputIdentity>,
    applied: Seq<InputIdentity>,
    count: int,
) -> Seq<usize>
    decreases count,
{
    if count <= 0 {
        Seq::empty()
    } else {
        let earlier = pending_places(inputs, applied, count - 1);
        if names_input(applied, inputs[count - 1].identity@) {
            earlier
        } else {
            earlier.push((count - 1) as usize)
        }
    }
}

/// The places of the inputs that are still to be applied.
pub fn list_pending(inputs: &Vec<InputIdentity>, applied: &Vec<InputIdentity>) -> (places: Vec<
    usize,
>)
    ensures
        places@ == pending_places(inputs@, applied@, inputs@.len() as int),
{
    let map: TextMap<usize> = index_inputs(applied);
    let mut places: Vec<usize> = Vec::new();
    let mut i: usize = 0;
    while i < inputs.len()
        invariant
            i <= inputs@.len(),
            map.wf(),
            forall|name: Seq<char>| #[trigger]
                map.map().contains_key(name) ==> is_last_input(
                    applied@,
                    map.map()[name] as int,
                    name,
                ),
            forall|j: int|
                0 <= j < applied@.len() ==> map.map().contains_key(
                    (#[trigger] applied@[j]).identity@,
                ),
            places@ == pending_places(inputs@, applied@, i as int),
        decreases inputs.len() - i,
    {
        let ghost name = inputs@[i as int].identity@;
        let known: bool = map.find(inputs[i].identity.as_str()).is_some();
        proof {
            assert(known == names_input(applied@, name)) by {
                if known {
                    let j = map.map()[name] as int;
                    assert(is_last_input(applied@, j, name));
                    assert(applied@[j].identity@ == name);
                }
                if names_input(applied@, name) {
                    let j = choose|j: int|
                        0 <= j < applied@.len() && (#[trigger] applied@[j]).identity@ == name;
                    assert(map.map().contains_key(applied@[j].identity@));
                }
            }
        }
        if !known {
            places.push(i);
        }
        i += 1;
    }
    places
}

/// None of the inputs is applied, and none comes twice.
pub open spec fn are_new(inputs: Seq<InputIdentity>, applied: Seq<InputIdentity>) -> bool {
    &&& forall|i: int|
        0 <= i < inputs.len() ==> !names_input(applied, (#[trigger] inputs[i]).identity@)
    &&& forall|i: int, j: int|
        0 <= i < j < inputs.len() ==> (#[trigger] inputs[i]).identity@ != (
        #[trigger] inputs[j]).identity@
}

/// Whether none of the inputs is applied, and none comes twice.
pub fn inputs_are_new(inputs: &Vec<InputIdentity>, applied: &Vec<InputIdentity>) -> (new: bool)
    ensures
        new == are_new(inputs@, applied@),
{
    let mut map: TextMap<usize> = index_inputs(applied);
    proof {
        assert forall|name: Seq<char>| #[trigger] map.map().contains_key(name) <==> names_input(
            applied@,
            name,
        ) by {
            if map.map().contains_key(name) {
                let j = map.map()[name] as int;
                assert(applied@[j].identity@ == name);
            }
            if names_input(applied@, name) {
                let j = choose|j: int|
                    0 <= j < applied@.len() && (#[trigger] applied@[j]).identity@ == name;
                assert(map.map().contains_key(applied@[j].identity@));
            }
        }
    }
    let mut i: usize = 0;
    while i < inputs.len()
        invariant
            i <= inputs@.len(),
            map.wf(),
            forall|name: Seq<char>| #[trigger]
                map.map().contains_key(name) <==> names_input(applied@, name) || names_input(
                    inputs@.take(i as int),
                    name,
                ),
            are_new(inputs@.take(i as int), applied@),
        decreases inputs.len() - i,
    {
        let ghost name = inputs@[i as int].identity@;
        let ghost less = inputs@.take(i as int);
        let ghost more = inputs@.take(i + 1);
        assert(more =~= less.push(inputs@[i as int]));
        if map.find(inputs[i].identity.as_str()).is_some() {
            proof {
                if names_input(less, name) {
                    let j = choose|j: int|
                        0 <= j < less.len() && (#[trigger] less[j]).identity@ == name;
                    assert(inputs@[j] == less[j]);
                }
            }
            return false;
        }
        let ghost before = map.map();
        map.insert(inputs[i].identity.clone(), i);
        proof {
            assert forall|a: int, b: int| 0 <= a < b < more.len() implies (
            #[trigger] more[a]).identity@ != (#[trigger] more[b]).identity@ by {
                assert(more[a] == less[a]);
                if b < i {
                    assert(more[b] == less[b]);
                }
            }
            assert forall|a: int| 0 <= a < more.len() implies !names_input(
                applied@,
                (#[trigger] more[a]).identity@,
            ) by {
                if a < i {
                    assert(more[a] == less[a]);
                }
            }
            assert forall|key: Seq<char>| #[trigger] map.map().contains_key(key) <==> names_input(
                applied@,
                key,
            ) || names_input(more, key) by {
                assert(map.map().contains_key(key) <==> before.contains_key(key) || key == name);
                if names_input(less, key) {
                    let j = choose|j: int|
                        0 <= j < less.len() && (#[trigger] less[j]).identity@ == key;
                    assert(more[j].identity@ == key);
                }
                if names_input(more, key) && key != name {
                    let j = choose|j: int|
                        0 <= j < more.len() && (#[trigger] more[j]).identity@ == key;
                    assert(less[j].identity@ == key);
                }
                assert(more[i as int].identity@ == name);
            }
        }
        i += 1;
    }
    assert(inputs@.take(inputs@.len() as int) =~= inputs@);
    true
}

} // verus!
