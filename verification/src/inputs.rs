use vstd::prelude::*;

verus! {

/// Which movement a player is asked to make this frame.
///
/// Each flag is one held key (or one decision of an agent).
#[derive(Clone, Copy, Debug, PartialEq, Eq, Structural)]
pub struct Inputs {
    pub fly_up: bool,
    pub fly_down: bool,
    pub turn_left: bool,
    pub turn_right: bool,
    pub jump: bool,
    pub left: bool,
    pub right: bool,
    pub forward: bool,
    pub backward: bool,
}

/// The value in which no flag is set.
pub open spec fn idle_inputs() -> Inputs {
    Inputs {
        fly_up: false,
        fly_down: false,
        turn_left: false,
        turn_right: false,
        jump: false,
        left: false,
        right: false,
        forward: false,
        backward: false,
    }
}

/// The inputs that the held keys ask for (see `Inputs::from_inputs`).
pub open spec fn key_inputs(
    camera_mode: bool,
    j: bool,
    l: bool,
    k: bool,
    i: bool,
    a: bool,
    d: bool,
    w: bool,
    s: bool,
    space: bool,
) -> Inputs {
    Inputs {
        fly_up: camera_mode && k,
        fly_down: camera_mode && i,
        turn_left: j,
        turn_right: l,
        jump: space,
        left: a,
        right: d,
        forward: w,
        backward: s,
    }
}

impl Inputs {
    /// No movement requested.
    pub fn init() -> (res: Self)
        ensures
            res == idle_inputs(),
    {
        Inputs {
            fly_up: false,
            fly_down: false,
            turn_left: false,
            turn_right: false,
            jump: false,
            left: false,
            right: false,
            forward: false,
            backward: false,
        }
    }

    /// Builds the inputs from the state of the keys: J/L turn, K/I fly up and
    /// down (only in camera mode), A/D strafe, W/S walk and space jumps.
    pub fn from_inputs(
        camera_mode: bool,
        j_is_pressed: bool,
        l_is_pressed: bool,
        k_is_pressed: bool,
        i_is_pressed: bool,
        a_is_pressed: bool,
        d_is_pressed: bool,
        w_is_pressed: bool,
        s_is_pressed: bool,
        space_is_pressed: bool,
    ) -> (res: Self)
        ensures
            res == key_inputs(
                camera_mode,
                j_is_pressed,
                l_is_pressed,
                k_is_pressed,
                i_is_pressed,
                a_is_pressed,
                d_is_pressed,
                w_is_pressed,
                s_is_pressed,
                space_is_pressed,
            ),
            res.turn_left == j_is_pressed,
            res.turn_right == l_is_pressed,
            res.fly_up == (camera_mode && k_is_pressed),
            res.fly_down == (camera_mode && i_is_pressed),
            res.left == a_is_pressed,
            res.right == d_is_pressed,
            res.forward == w_is_pressed,
            res.backward == s_is_pressed,
            res.jump == space_is_pressed,
    {
        let mut camera_inputs = Inputs::init();
        if j_is_pressed {
            camera_inputs.turn_left = true;
        }
        if l_is_pressed {
            camera_inputs.turn_right = true;
        }
        if camera_mode {
            if k_is_pressed {
                camera_inputs.fly_up = true;
            }
            if i_is_pressed {
                camera_inputs.fly_down = true;
            }
        }
        if a_is_pressed {
            camera_inputs.left = true;
        }
        if d_is_pressed {
            camera_inputs.right = true;
        }
        if w_is_pressed {
            camera_inputs.forward = true;
        }
        if s_is_pressed {
            camera_inputs.backward = true;
        }
        if space_is_pressed {
            camera_inputs.jump = true;
        }
        camera_inputs
    }
}

/// One translation of a player, in the order in which a frame applies them.
#[derive(Clone, Copy, Debug, PartialEq, Eq, Structural)]
pub enum Movement {
    FlyUp,
    FlyDown,
    StrafeLeft,
    StrafeRight,
    Forward,
    Backward,
}

/// `s` followed by `m` when `cond` holds, `s` otherwise.
pub open spec fn push_if(s: Seq<Movement>, cond: bool, m: Movement) -> Seq<Movement> {
    if cond {
        s.push(m)
    } else {
        s
    }
}

/// The movements that `inp` asks of a player, in order: flying (for a
/// camera only), strafing left then right, walking forward then backward.
pub open spec fn movement_seq(inp: Inputs, is_camera: bool) -> Seq<Movement> {
    let s0 = Seq::<Movement>::empty();
    let s1 = push_if(s0, is_camera && inp.fly_up, Movement::FlyUp);
    let s2 = push_if(s1, is_camera && inp.fly_down, Movement::FlyDown);
    let s3 = push_if(s2, inp.left, Movement::StrafeLeft);
    let s4 = push_if(s3, inp.right, Movement::StrafeRight);
    let s5 = push_if(s4, inp.forward, Movement::Forward);
    push_if(s5, inp.backward, Movement::Backward)
}

/// 1 when `b` holds, 0 otherwise.
pub open spec fn flag_count(b: bool) -> nat {
    if b {
        1
    } else {
        0
    }
}

/// The inputs of an agent that chose `action`: 0 walks forward, 1 backward,
/// 2 strafes left, 3 strafes right; any other action does nothing.
pub open spec fn action_inputs(action: usize) -> Inputs {
    let idle = idle_inputs();
    if action == 0 {
        Inputs { forward: true, ..idle }
    } else if action == 1 {
        Inputs { backward: true, ..idle }
    } else if action == 2 {
        Inputs { left: true, ..idle }
    } else if action == 3 {
        Inputs { right: true, ..idle }
    } else {
        idle
    }
}

impl Inputs {
    /// The inputs that carry out an agent's chosen action.
    pub fn from_action(action: usize) -> (res: Self)
        ensures
            res == action_inputs(action),
            res.forward == (action == 0),
            res.backward == (action == 1),
            res.left == (action == 2),
            res.right == (action == 3),
            !res.jump && !res.fly_up && !res.fly_down && !res.turn_left && !res.turn_right,
    {
        let mut input = Inputs::init();
        if action == 0 {
            input.forward = true;
        } else if action == 1 {
            input.backward = true;
        } else if action == 2 {
            input.left = true;
        } else if action == 3 {
            input.right = true;
        }
        input
    }

    /// The translations a player makes for these inputs, in the order it
    /// makes them. Flying is only for a player that is a camera.
    pub fn movements(&self, is_camera: bool) -> (res: Vec<Movement>)
        ensures
            res@ == movement_seq(*self, is_camera),
            res@.len() == flag_count(is_camera && self.fly_up) + flag_count(is_camera && self.fly_down)
                + flag_count(self.left) + flag_count(self.right) + flag_count(self.forward)
                + flag_count(self.backward),
            !is_camera ==> !res@.contains(Movement::FlyUp) && !res@.contains(Movement::FlyDown),
            res@.contains(Movement::FlyUp) == (is_camera && self.fly_up),
            res@.contains(Movement::FlyDown) == (is_camera && self.fly_down),
            res@.contains(Movement::StrafeLeft) == self.left,
            res@.contains(Movement::StrafeRight) == self.right,
            res@.contains(Movement::Forward) == self.forward,
            res@.contains(Movement::Backward) == self.backward,
            forall|i: int, j: int|
                0 <= i < j < res@.len() ==> movement_rank(#[trigger] res@[i]) < movement_rank(
                    #[trigger] res@[j],
                ),
    {
        let mut res: Vec<Movement> = Vec::new();
        if is_camera {
            if self.fly_up {
                res.push(Movement::FlyUp);
            }
            if self.fly_down {
                res.push(Movement::FlyDown);
            }
        }
        if self.left {
            res.push(Movement::StrafeLeft);
        }
        if self.right {
            res.push(Movement::StrafeRight);
        }
        if self.forward {
            res.push(Movement::Forward);
        }
        if self.backward {
            res.push(Movement::Backward);
        }
        proof {
            if !is_camera {
                assert forall|i: int| 0 <= i < res@.len() implies res@[i] != Movement::FlyUp
                    && res@[i] != Movement::FlyDown by {}
            }
            lemma_movements_match_flags(*self, is_camera);
            lemma_movements_in_order(*self, is_camera);
        }
        res
    }
}

/// With no key held, the keys give the same inputs as `Inputs::init`, in
/// either mode, and such inputs move nothing.
pub proof fn lemma_no_keys_is_idle(camera_mode: bool, is_camera: bool)
    ensures
        key_inputs(camera_mode, false, false, false, false, false, false, false, false, false)
            == idle_inputs(),
        movement_seq(idle_inputs(), is_camera).len() == 0,
{
}

/// An agent's action makes at most one movement, never a flight, turn or jump.
pub proof fn lemma_action_moves_at_most_once(action: usize, is_camera: bool)
    ensures
        movement_seq(action_inputs(action), is_camera).len() <= 1,
        !action_inputs(action).jump,
        !action_inputs(action).fly_up && !action_inputs(action).fly_down,
        !action_inputs(action).turn_left && !action_inputs(action).turn_right,
        action >= 4 ==> action_inputs(action) == idle_inputs(),
{
}

/// The place of a movement in the order a frame makes them.
pub open spec fn movement_rank(m: Movement) -> int {
    match m {
        Movement::FlyUp => 0,
        Movement::FlyDown => 1,
        Movement::StrafeLeft => 2,
        Movement::StrafeRight => 3,
        Movement::Forward => 4,
        Movement::Backward => 5,
    }
}

/// Whether the movements of `s` come in strictly increasing order, each below
/// `bound`.
pub open spec fn ordered_below(s: Seq<Movement>, bound: int) -> bool {
    &&& forall|i: int, j: int|
        0 <= i < j < s.len() ==> movement_rank(#[trigger] s[i]) < movement_rank(#[trigger] s[j])
    &&& forall|i: int| 0 <= i < s.len() ==> movement_rank(#[trigger] s[i]) < bound
}

proof fn lemma_push_if_ordered(s: Seq<Movement>, cond: bool, m: Movement)
    requires
        ordered_below(s, movement_rank(m)),
    ensures
        ordered_below(push_if(s, cond, m), movement_rank(m) + 1),
{
    let t = push_if(s, cond, m);
    if cond {
        assert forall|i: int, j: int| 0 <= i < j < t.len() implies movement_rank(#[trigger] t[i])
            < movement_rank(#[trigger] t[j]) by {
            assert(t[i] == s[i]);
            if j < s.len() {
                assert(t[j] == s[j]);
            }
        }
        assert forall|i: int| 0 <= i < t.len() implies movement_rank(#[trigger] t[i])
            < movement_rank(m) + 1 by {
            if i < s.len() {
                assert(t[i] == s[i]);
            }
        }
    }
}

/// A frame makes each movement at most once, always in the same order:
/// flying up, flying down, strafing left, strafing right, forward, backward.
pub proof fn lemma_movements_in_order(inp: Inputs, is_camera: bool)
    ensures
        forall|i: int, j: int|
            0 <= i < j < movement_seq(inp, is_camera).len() ==> movement_rank(
                #[trigger] movement_seq(inp, is_camera)[i],
            ) < movement_rank(#[trigger] movement_seq(inp, is_camera)[j]),
{
    let s0 = Seq::<Movement>::empty();
    let s1 = push_if(s0, is_camera && inp.fly_up, Movement::FlyUp);
    let s2 = push_if(s1, is_camera && inp.fly_down, Movement::FlyDown);
    let s3 = push_if(s2, inp.left, Movement::StrafeLeft);
    let s4 = push_if(s3, inp.right, Movement::StrafeRight);
    let s5 = push_if(s4, inp.forward, Movement::Forward);
    lemma_push_if_ordered(s0, is_camera && inp.fly_up, Movement::FlyUp);
    lemma_push_if_ordered(s1, is_camera && inp.fly_down, Movement::FlyDown);
    lemma_push_if_ordered(s2, inp.left, Movement::StrafeLeft);
    lemma_push_if_ordered(s3, inp.right, Movement::StrafeRight);
    lemma_push_if_ordered(s4, inp.forward, Movement::Forward);
    lemma_push_if_ordered(s5, inp.backward, Movement::Backward);
}

/// Pushing `m` when `cond` holds adds exactly `m` to what the sequence holds.
proof fn lemma_push_if_contains(s: Seq<Movement>, cond: bool, m: Movement, x: Movement)
    ensures
        push_if(s, cond, m).contains(x) == (s.contains(x) || (cond && x == m)),
{
    if cond {
        let t = s.push(m);
        if s.contains(x) {
            let k = choose|k: int| 0 <= k < s.len() && s[k] == x;
            assert(t[k] == x);
        }
        if x == m {
            assert(t[s.len() as int] == m);
        }
        if t.contains(x) {
            let k = choose|k: int| 0 <= k < t.len() && t[k] == x;
            if k < s.len() {
                assert(s[k] == x);
            }
        }
    }
}

/// A player makes a movement exactly when the input that asks for it is set:
/// flying up for `fly_up`, down for `fly_down` (a camera only), strafing left
/// for `left`, right for `right`, walking forward for `forward` and backward
/// for `backward`.
pub proof fn lemma_movements_match_flags(inp: Inputs, is_camera: bool)
    ensures
        movement_seq(inp, is_camera).contains(Movement::FlyUp) == (is_camera && inp.fly_up),
        movement_seq(inp, is_camera).contains(Movement::FlyDown) == (is_camera && inp.fly_down),
        movement_seq(inp, is_camera).contains(Movement::StrafeLeft) == inp.left,
        movement_seq(inp, is_camera).contains(Movement::StrafeRight) == inp.right,
        movement_seq(inp, is_camera).contains(Movement::Forward) == inp.forward,
        movement_seq(inp, is_camera).contains(Movement::Backward) == inp.backward,
{
    let s0 = Seq::<Movement>::empty();
    let s1 = push_if(s0, is_camera && inp.fly_up, Movement::FlyUp);
    let s2 = push_if(s1, is_camera && inp.fly_down, Movement::FlyDown);
    let s3 = push_if(s2, inp.left, Movement::StrafeLeft);
    let s4 = push_if(s3, inp.right, Movement::StrafeRight);
    let s5 = push_if(s4, inp.forward, Movement::Forward);
    let s6 = push_if(s5, inp.backward, Movement::Backward);
    assert(s6 == movement_seq(inp, is_camera));
    let all = seq![
        Movement::FlyUp,
        Movement::FlyDown,
        Movement::StrafeLeft,
        Movement::StrafeRight,
        Movement::Forward,
        Movement::Backward,
    ];
    assert forall|k: int| 0 <= k < all.len() implies {
        let x = #[trigger] all[k];
        &&& !s0.contains(x)
        &&& s1.contains(x) == (s0.contains(x) || (is_camera && inp.fly_up && x == Movement::FlyUp))
        &&& s2.contains(x) == (s1.contains(x) || (is_camera && inp.fly_down && x == Movement::FlyDown))
        &&& s3.contains(x) == (s2.contains(x) || (inp.left && x == Movement::StrafeLeft))
        &&& s4.contains(x) == (s3.contains(x) || (inp.right && x == Movement::StrafeRight))
        &&& s5.contains(x) == (s4.contains(x) || (inp.forward && x == Movement::Forward))
        &&& s6.contains(x) == (s5.contains(x) || (inp.backward && x == Movement::Backward))
    } by {
        let x = all[k];
        lemma_push_if_contains(s0, is_camera && inp.fly_up, Movement::FlyUp, x);
        lemma_push_if_contains(s1, is_camera && inp.fly_down, Movement::FlyDown, x);
        lemma_push_if_contains(s2, inp.left, Movement::StrafeLeft, x);
        lemma_push_if_contains(s3, inp.right, Movement::StrafeRight, x);
        lemma_push_if_contains(s4, inp.forward, Movement::Forward, x);
        lemma_push_if_contains(s5, inp.backward, Movement::Backward, x);
    }
    assert(all[0] == Movement::FlyUp);
    assert(all[1] == Movement::FlyDown);
    assert(all[2] == Movement::StrafeLeft);
    assert(all[3] == Movement::StrafeRight);
    assert(all[4] == Movement::Forward);
    assert(all[5] == Movement::Backward);
}

} // verus!
