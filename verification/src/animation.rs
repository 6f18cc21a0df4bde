//! Animation state: the named states an animator plays, and the store that
//! resolves a state to one of a skeleton's clips.

use vstd::prelude::*;

use crate::text::str_eq;

verus! {

/// How keyframes are interpolated.
#[derive(Debug, Clone, Copy, PartialEq, Eq, Structural)]
pub enum Interpolation {
    Step,
    Linear,
    CubicSpline,
}

/// Which property of a joint a channel animates.
#[derive(Debug, Clone, Copy, PartialEq, Eq, Structural)]
pub enum ChannelProperty {
    Translation,
    Rotation,
    Scale,
}

/// Animation state machine states.
#[derive(Debug, Clone, PartialEq)]
pub enum AnimState {
    Idle,
    Walk,
    Run,
    Attack,
    Custom(String),
}

/// An animation state as a value: the four built-in states, or a custom
/// state by name.
pub enum AnimStateView {
    Idle,
    Walk,
    Run,
    Attack,
    Custom(Seq<char>),
}

impl View for AnimState {
    type V = AnimStateView;

    open spec fn view(&self) -> AnimStateView {
        match self {
            AnimState::Idle => AnimStateView::Idle,
            AnimState::Walk => AnimStateView::Walk,
            AnimState::Run => AnimStateView::Run,
            AnimState::Attack => AnimStateView::Attack,
            AnimState::Custom(s) => AnimStateView::Custom(s@),
        }
    }
}

/// The state a state name stands for.
pub open spec fn spec_anim_state(s: Seq<char>) -> AnimStateView {
    if s == "idle"@ {
        AnimStateView::Idle
    } else if s == "walk"@ {
        AnimStateView::Walk
    } else if s == "run"@ {
        AnimStateView::Run
    } else if s == "attack"@ {
        AnimStateView::Attack
    } else {
        AnimStateView::Custom(s)
    }
}

/// The clip a state plays, by name.
pub open spec fn spec_clip_name(v: AnimStateView) -> Seq<char> {
    match v {
        AnimStateView::Idle => "idle"@,
        AnimStateView::Walk => "walk"@,
        AnimStateView::Run => "run"@,
        AnimStateView::Attack => "attack"@,
        AnimStateView::Custom(s) => s,
    }
}

impl AnimState {
    /// Reads a state name; names other than the four built-in ones are custom
    /// states.
    pub fn from_str(s: &str) -> (r: Self)
        ensures
            r@ == spec_anim_state(s@),
    {
        if str_eq(s, "idle") {
            Self::Idle
        } else if str_eq(s, "walk") {
            Self::Walk
        } else if str_eq(s, "run") {
            Self::Run
        } else if str_eq(s, "attack") {
            Self::Attack
        } else {
            Self::Custom(s.to_owned())
        }
    }

    /// The name of the clip this state plays.
    pub fn clip_name(&self) -> (r: &str)
        ensures
            r@ == spec_clip_name(self@),
    {
        match self {
            Self::Idle => "idle",
            Self::Walk => "walk",
            Self::Run => "run",
            Self::Attack => "attack",
            Self::Custom(name) => name.as_str(),
        }
    }

    /// Whether two states are the same state.
    pub fn same_as(&self, other: &AnimState) -> (r: bool)
        ensures
            r == (self@ == other@),
    {
        match (self, other) {
            (Self::Idle, Self::Idle) => true,
            (Self::Walk, Self::Walk) => true,
            (Self::Run, Self::Run) => true,
            (Self::Attack, Self::Attack) => true,
            (Self::Custom(a), Self::Custom(b)) => str_eq(a.as_str(), b.as_str()),
            _ => false,
        }
    }
}

/// Each built-in state is read back from the name of its clip: reading the
/// clip name of `Idle`, `Walk`, `Run` or `Attack` gives that very state, not a
/// custom one.
pub proof fn lemma_builtin_state_round_trip(v: AnimStateView)
    requires
        !(v is Custom),
    ensures
        spec_anim_state(spec_clip_name(v)) == v,
{
    reveal_strlit("idle");
    reveal_strlit("walk");
    reveal_strlit("run");
    reveal_strlit("attack");
    assert("idle"@[0] != "walk"@[0] && "idle"@.len() != "run"@.len());
    assert("walk"@[0] != "run"@[0] && "walk"@.len() != "attack"@.len() && "run"@.len() != "attack"@.len());
    assert("idle"@.len() != "attack"@.len());
}

/// Reading a state name and asking for its clip gives the name back.
pub proof fn lemma_clip_name_round_trip(s: Seq<char>)
    ensures
        spec_clip_name(spec_anim_state(s)) == s,
{
}

/// Requesting a state restarts the animation only when it differs from the
/// current one: the result is the new state to start from time zero with its
/// clip unresolved, or `None` to carry on.
pub fn play_transition(current: &AnimState, requested: AnimState) -> (r: Option<AnimState>)
    ensures
        match r {
            Some(s) => current@ != requested@ && s@ == requested@,
            None => current@ == requested@,
        },
{
    if current.same_as(&requested) {
        None
    } else {
        Some(requested)
    }
}

// ---------------------------------------------------------------------------
// Skeleton store
// ---------------------------------------------------------------------------

/// Handle to a skeleton registered in the store.
#[derive(Debug, Clone, Copy, PartialEq, Eq, Hash, Structural)]
pub struct SkeletonHandle(pub usize);

/// The clips registered for each skeleton, by name, in registration order.
pub struct SkeletonStore {
    skeletons: Vec<Vec<String>>,
}

/// Index of the last clip named `name` among the first `j`.
pub open spec fn last_clip_below(clips: Seq<Seq<char>>, name: Seq<char>, j: int) -> Option<int>
    decreases j,
{
    if j <= 0 {
        None
    } else if clips[j - 1] == name {
        Some(j - 1)
    } else {
        last_clip_below(clips, name, j - 1)
    }
}

impl View for SkeletonStore {
    type V = Seq<Seq<Seq<char>>>;

    /// Per skeleton, the names of its clips.
    closed spec fn view(&self) -> Seq<Seq<Seq<char>>> {
        self.skeletons@.map_values(|c: Vec<String>| c@.map_values(|s: String| s@))
    }
}

/// The clip of a skeleton that a name selects: when several clips share the
/// name, the last one registered.
pub open spec fn spec_find_clip(store: Seq<Seq<Seq<char>>>, handle: SkeletonHandle, name: Seq<char>) -> Option<int> {
    if handle.0 < store.len() {
        last_clip_below(store[handle.0 as int], name, store[handle.0 as int].len() as int)
    } else {
        None
    }
}

/// Number of clips of a skeleton; an unknown handle has none.
pub open spec fn spec_clip_count(store: Seq<Seq<Seq<char>>>, handle: SkeletonHandle) -> nat {
    if handle.0 < store.len() {
        store[handle.0 as int].len()
    } else {
        0
    }
}

impl SkeletonStore {
    /// An empty store.
    pub fn new() -> (s: Self)
        ensures
            s@ == Seq::<Seq<Seq<char>>>::empty(),
    {
        let s = SkeletonStore { skeletons: Vec::new() };
        proof {
            assert(s@ =~= Seq::<Seq<Seq<char>>>::empty());
        }
        s
    }

    /// Registers a skeleton's clips by name and returns its handle.
    pub fn add(&mut self, clip_names: Vec<String>) -> (h: SkeletonHandle)
        ensures
            h.0 == old(self)@.len(),
            final(self)@ == old(self)@.push(clip_names@.map_values(|s: String| s@)),
    {
        let h = SkeletonHandle(self.skeletons.len());
        let ghost names = clip_names@.map_values(|s: String| s@);
        self.skeletons.push(clip_names);
        proof {
            assert(self@ =~= old(self)@.push(names));
        }
        h
    }

    /// The clip of a skeleton that a name selects.
    pub fn find_clip(&self, handle: SkeletonHandle, name: &str) -> (r: Option<usize>)
        ensures
            match r {
                Some(i) => spec_find_clip(self@, handle, name@) == Some(i as int),
                None => spec_find_clip(self@, handle, name@) is None,
            },
    {
        if handle.0 >= self.skeletons.len() {
            return None;
        }
        let clips = &self.skeletons[handle.0];
        let ghost names = clips@.map_values(|s: String| s@);
        proof {
            assert(self@[handle.0 as int] == names);
        }
        let mut j = clips.len();
        while j > 0
            invariant
                j <= clips@.len(),
                handle.0 < self.skeletons@.len(),
                self@[handle.0 as int] == names,
                names == clips@.map_values(|s: String| s@),
                last_clip_below(names, name@, names.len() as int) == last_clip_below(
                    names,
                    name@,
                    j as int,
                ),
            decreases j,
        {
            if str_eq(clips[j - 1].as_str(), name) {
                proof {
                    assert(names[j - 1] == name@);
                }
                return Some(j - 1);
            }
            proof {
                assert(names[j - 1] != name@);
            }
            j = j - 1;
        }
        None
    }

    /// Number of clips of a skeleton; an unknown handle has none.
    pub fn clip_count(&self, handle: SkeletonHandle) -> (r: usize)
        ensures
            r == spec_clip_count(self@, handle),
    {
        if handle.0 < self.skeletons.len() {
            self.skeletons[handle.0].len()
        } else {
            0
        }
    }

    /// The clip an animator in `state` plays: the clip named after the state,
    /// or else the skeleton's first clip, if it has any.
    pub fn resolve_clip(&self, handle: SkeletonHandle, state: &AnimState) -> (r: Option<usize>)
        ensures
            r == match spec_find_clip(self@, handle, spec_clip_name(state@)) {
                Some(i) => Some(i as usize),
                None => if spec_clip_count(self@, handle) > 0 {
                    Some(0usize)
                } else {
                    None
                },
            },
    {
        match self.find_clip(handle, state.clip_name()) {
            Some(i) => Some(i),
            None => if self.clip_count(handle) > 0 {
                Some(0)
            } else {
                None
            },
        }
    }
}

/// A clip found by name is a clip of that skeleton, and carries the name.
pub proof fn lemma_found_clip_has_name(store: Seq<Seq<Seq<char>>>, handle: SkeletonHandle, name: Seq<char>)
    ensures
        spec_find_clip(store, handle, name) matches Some(i) ==> 0 <= i < spec_clip_count(store, handle)
            && store[handle.0 as int][i] == name,
{
    if handle.0 < store.len() {
        lemma_last_clip_below(store[handle.0 as int], name, store[handle.0 as int].len() as int);
    }
}

proof fn lemma_last_clip_below(clips: Seq<Seq<char>>, name: Seq<char>, j: int)
    requires
        j <= clips.len(),
    ensures
        last_clip_below(clips, name, j) matches Some(i) ==> 0 <= i < j && clips[i] == name
            && forall|k: int| i < k < j ==> clips[k] != name,
        last_clip_below(clips, name, j) is None ==> forall|k: int| 0 <= k < j ==> clips[k] != name,
    decreases j,
{
    if j > 0 && clips[j - 1] != name {
        lemma_last_clip_below(clips, name, j - 1);
    }
}

} // verus!
