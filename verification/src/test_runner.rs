//! The decisions of the headless test runner: how a test script's input
//! requests become injected keys, and when an expected event counts as
//! having occurred.

use vstd::prelude::*;

use crate::events::GameEvent;
use crate::input::{spec_inject_key, spec_key_code, InputCode, InputState, InputView, KeyCode};
use crate::text::{lex_sorted, sort_strings, starts_with_chars, str_eq, to_chars, views};

verus! {

/// The key a test action stands for; a name that is no action is taken as a
/// key name itself.
pub open spec fn spec_action_to_key(action: Seq<char>) -> Seq<char> {
    if action == "interact"@ {
        "E"@
    } else if action == "move_forward"@ || action == "move"@ || action == "forward"@ {
        "W"@
    } else if action == "move_backward"@ || action == "backward"@ {
        "S"@
    } else if action == "move_left"@ || action == "left"@ {
        "A"@
    } else if action == "move_right"@ || action == "right"@ {
        "D"@
    } else if action == "jump"@ {
        "Space"@
    } else if action == "sprint"@ {
        "ShiftLeft"@
    } else if action == "fire"@ || action == "attack"@ {
        "Left"@
    } else {
        action
    }
}

/// Maps a test action name to the key name injected for it.
pub fn action_to_key(action: &str) -> (r: String)
    ensures
        r@ == spec_action_to_key(action@),
{
    if str_eq(action, "interact") {
        "E".to_owned()
    } else if str_eq(action, "move_forward") || str_eq(action, "move") || str_eq(action, "forward") {
        "W".to_owned()
    } else if str_eq(action, "move_backward") || str_eq(action, "backward") {
        "S".to_owned()
    } else if str_eq(action, "move_left") || str_eq(action, "left") {
        "A".to_owned()
    } else if str_eq(action, "move_right") || str_eq(action, "right") {
        "D".to_owned()
    } else if str_eq(action, "jump") {
        "Space".to_owned()
    } else if str_eq(action, "sprint") {
        "ShiftLeft".to_owned()
    } else if str_eq(action, "fire") || str_eq(action, "attack") {
        "Left".to_owned()
    } else {
        action.to_owned()
    }
}

/// The state after injecting a press or release of the key named `name`;
/// unknown names change nothing.
pub open spec fn inject_named(v: InputView, name: Seq<char>, press: bool) -> InputView {
    match spec_key_code(name) {
        Some(k) => spec_inject_key(v, InputCode::Key(k), press),
        None => v,
    }
}

/// One direction of an axis: the positive key is pressed and the negative
/// one released for a positive value, the other way round for a negative
/// value, and both released for zero.
pub open spec fn axis_direction(v: InputView, value: i8, positive: KeyCode, negative: KeyCode) -> InputView {
    if value > 0 {
        spec_inject_key(spec_inject_key(v, InputCode::Key(positive), true), InputCode::Key(negative), false)
    } else if value < 0 {
        spec_inject_key(spec_inject_key(v, InputCode::Key(positive), false), InputCode::Key(negative), true)
    } else {
        spec_inject_key(spec_inject_key(v, InputCode::Key(positive), false), InputCode::Key(negative), false)
    }
}

/// What a test script's `input.inject(action, kind, value)` does: `press` and
/// `release` inject the action's key; `axis` with a value `(x, y)` drives the
/// movement keys by the signs of `y` (W forward, S back) and then `x` (D
/// right, A left); anything else does nothing. `axis` is `None` when the
/// value is not a pair.
pub open spec fn spec_test_input(v: InputView, action: Seq<char>, kind: Seq<char>, axis: Option<(i8, i8)>) -> InputView {
    if kind == "press"@ {
        inject_named(v, spec_action_to_key(action), true)
    } else if kind == "release"@ {
        inject_named(v, spec_action_to_key(action), false)
    } else if kind == "axis"@ {
        match axis {
            Some((x, y)) => axis_direction(
                axis_direction(v, y, KeyCode::KeyW, KeyCode::KeyS),
                x,
                KeyCode::KeyD,
                KeyCode::KeyA,
            ),
            None => v,
        }
    } else {
        v
    }
}

fn inject_axis_direction(input: &mut InputState, value: i8, positive: KeyCode, negative: KeyCode)
    ensures
        final(input)@ == axis_direction(old(input)@, value, positive, negative),
        final(input).bindings() == old(input).bindings(),
{
    if value > 0 {
        input.inject_key(positive, true);
        input.inject_key(negative, false);
    } else if value < 0 {
        input.inject_key(positive, false);
        input.inject_key(negative, true);
    } else {
        input.inject_key(positive, false);
        input.inject_key(negative, false);
    }
}

/// Applies a test script's input request to the input state.
pub fn inject_test_input(input: &mut InputState, action: &str, kind: &str, axis: Option<(i8, i8)>)
    ensures
        final(input)@ == spec_test_input(old(input)@, action@, kind@, axis),
        final(input).bindings() == old(input).bindings(),
{
    if str_eq(kind, "press") {
        let key = action_to_key(action);
        input.inject_key_press(key.as_str());
    } else if str_eq(kind, "release") {
        let key = action_to_key(action);
        input.inject_key_release(key.as_str());
    } else if str_eq(kind, "axis") {
        match axis {
            Some((x, y)) => {
                inject_axis_direction(input, y, KeyCode::KeyW, KeyCode::KeyS);
                inject_axis_direction(input, x, KeyCode::KeyD, KeyCode::KeyA);
            },
            None => {},
        }
    }
}

// ---------------------------------------------------------------------------
// Expected events
// ---------------------------------------------------------------------------

/// An event as the test runner inspects it: its fields, each with its string
/// value, or `None` where the value is not a string.
pub type InspectedEvent = GameEvent<Vec<(String, Option<String>)>>;

/// A field's value as characters.
pub open spec fn string_value(v: Option<String>) -> Option<Seq<char>> {
    match v {
        Some(s) => Some(s@),
        None => None,
    }
}

/// The value of the first field named `key`: `None` if there is none.
pub open spec fn field_lookup(fields: Seq<(String, Option<String>)>, key: Seq<char>, i: int) -> Option<Option<Seq<char>>>
    decreases fields.len() - i,
{
    if i < 0 || i >= fields.len() {
        None
    } else if fields[i].0@ == key {
        Some(string_value(fields[i].1))
    } else {
        field_lookup(fields, key, i + 1)
    }
}

/// The event has the type and, for every pair of the filter, a field of
/// that name whose value is that string.
pub open spec fn event_matches(e: InspectedEvent, event_type: Seq<char>, filter: Seq<(String, String)>) -> bool {
    &&& e.event_type@ == event_type
    &&& forall|k: int|
        0 <= k < filter.len() ==> field_lookup(e.payload@, (#[trigger] filter[k]).0@, 0) == Some(
            Some(filter[k].1@),
        )
}

fn lookup_field(fields: &Vec<(String, Option<String>)>, key: &str) -> (r: Option<Option<String>>)
    ensures
        match r {
            Some(v) => field_lookup(fields@, key@, 0) == Some(string_value(v)),
            None => field_lookup(fields@, key@, 0) is None,
        },
{
    let mut i: usize = 0;
    while i < fields.len()
        invariant
            i <= fields@.len(),
            field_lookup(fields@, key@, 0) == field_lookup(fields@, key@, i as int),
        decreases fields@.len() - i,
    {
        if str_eq(fields[i].0.as_str(), key) {
            let v = match &fields[i].1 {
                Some(s) => Some(s.clone()),
                None => None,
            };
            return Some(v);
        }
        i = i + 1;
    }
    None
}

fn matches_event(e: &InspectedEvent, event_type: &str, filter: &Vec<(String, String)>) -> (r: bool)
    ensures
        r == event_matches(*e, event_type@, filter@),
{
    if !str_eq(e.event_type.as_str(), event_type) {
        return false;
    }
    let mut k: usize = 0;
    while k < filter.len()
        invariant
            k <= filter@.len(),
            e.event_type@ == event_type@,
            forall|j: int|
                0 <= j < k ==> field_lookup(e.payload@, (#[trigger] filter@[j]).0@, 0) == Some(
                    Some(filter@[j].1@),
                ),
        decreases filter@.len() - k,
    {
        let ok = match lookup_field(&e.payload, filter[k].0.as_str()) {
            Some(Some(v)) => str_eq(v.as_str(), filter[k].1.as_str()),
            _ => false,
        };
        if !ok {
            return false;
        }
        k = k + 1;
    }
    true
}

/// Whether the log holds an event of the type that matches every pair of
/// the filter.
pub fn event_occurred(log: &Vec<InspectedEvent>, event_type: &str, filter: &Vec<(String, String)>) -> (r: bool)
    ensures
        r == exists|i: int| 0 <= i < log@.len() && event_matches(#[trigger] log@[i], event_type@, filter@),
{
    let mut i: usize = 0;
    while i < log.len()
        invariant
            i <= log@.len(),
            forall|j: int| 0 <= j < i ==> !event_matches(#[trigger] log@[j], event_type@, filter@),
        decreases log@.len() - i,
    {
        if matches_event(&log[i], event_type, filter) {
            return true;
        }
        i = i + 1;
    }
    false
}


/// A global of a test script that is a test: a function named `test_...`.
pub open spec fn is_test_function(g: (Seq<char>, bool)) -> bool {
    g.1 && g.0.len() >= "test_"@.len() && g.0.subrange(0, "test_"@.len() as int) == "test_"@
}

/// The names of a test script's tests, sorted: its globals named `test_...`
/// that are functions. Each global is given with whether it is a function.
pub fn select_test_functions(globals: Vec<(String, bool)>) -> (r: Vec<String>)
    ensures
        lex_sorted(views(r@)),
        views(r@).to_multiset() == globals@.map_values(|g: (String, bool)| (g.0@, g.1)).filter(
            |g: (Seq<char>, bool)| is_test_function(g),
        ).map_values(|g: (Seq<char>, bool)| g.0).to_multiset(),
{
    let ghost f = |g: (String, bool)| (g.0@, g.1);
    let ghost keep = |g: (Seq<char>, bool)| is_test_function(g);
    let ghost name = |g: (Seq<char>, bool)| g.0;
    let prefix = to_chars("test_");
    let mut kept: Vec<String> = Vec::new();
    let mut i: usize = 0;
    while i < globals.len()
        invariant
            i <= globals@.len(),
            prefix@ == "test_"@,
            f == (|g: (String, bool)| (g.0@, g.1)),
            keep == (|g: (Seq<char>, bool)| is_test_function(g)),
            name == (|g: (Seq<char>, bool)| g.0),
            views(kept@) == globals@.take(i as int).map_values(f).filter(keep).map_values(name),
        decreases globals@.len() - i,
    {
        let ghost prev = views(kept@);
        let ghost g = f(globals@[i as int]);
        proof {
            assert(globals@.take(i + 1).map_values(f) =~= globals@.take(i as int).map_values(f).push(g));
            globals@.take(i as int).map_values(f).lemma_filter_push(g, keep);
        }
        let chars = to_chars(globals[i].0.as_str());
        if globals[i].1 && starts_with_chars(&chars, &prefix) {
            kept.push(globals[i].0.clone());
            proof {
                assert(views(kept@) =~= prev.push(globals@[i as int].0@));
                assert(globals@.take(i as int).map_values(f).filter(keep).push(g).map_values(name)
                    =~= globals@.take(i as int).map_values(f).filter(keep).map_values(name).push(g.0));
            }
        } else {
            proof {
                assert(views(kept@) =~= prev);
            }
        }
        i = i + 1;
    }
    proof {
        assert(globals@.take(globals@.len() as int) =~= globals@);
    }
    sort_strings(kept)
}

} // verus!
