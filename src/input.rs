//! Keyboard bindings and the held-control state that steers the camera.
use vstd::prelude::*;

use crate::camera::Camera;

verus! {

/// A key as the window system reports it, reduced to the keys that the
/// bindings name; every other key is `Other`.
#[derive(Clone, Copy, Debug, PartialEq, Eq, Structural)]
pub enum Key {
    Space,
    LShift,
    W,
    S,
    A,
    D,
    Up,
    Down,
    Left,
    Right,
    Other,
}

/// One control axis of the camera; each is either held or released.
#[derive(Clone, Copy, Debug, PartialEq, Eq, Structural)]
pub enum Control {
    MoveForward,
    MoveBackward,
    StrafeLeft,
    StrafeRight,
    LiftUp,
    LiftDown,
}

/// The control that a key drives, if any.
pub open spec fn bound_control(k: Key) -> Option<Control> {
    match k {
        Key::Space => Some(Control::MoveForward),
        Key::LShift => Some(Control::MoveBackward),
        Key::W | Key::Up => Some(Control::LiftUp),
        Key::S | Key::Down => Some(Control::LiftDown),
        Key::A | Key::Left => Some(Control::StrafeLeft),
        Key::D | Key::Right => Some(Control::StrafeRight),
        Key::Other => None,
    }
}

/// The binding table, as data.
pub open spec fn binding_table() -> Seq<(Key, Control)> {
    seq![
        (Key::Space, Control::MoveForward),
        (Key::LShift, Control::MoveBackward),
        (Key::W, Control::LiftUp),
        (Key::Up, Control::LiftUp),
        (Key::S, Control::LiftDown),
        (Key::Down, Control::LiftDown),
        (Key::A, Control::StrafeLeft),
        (Key::Left, Control::StrafeLeft),
        (Key::D, Control::StrafeRight),
        (Key::Right, Control::StrafeRight),
    ]
}

/// Every row of the table agrees with `bound_control`, and every bound key
/// has a row.
proof fn lemma_table_matches_bindings()
    ensures
        forall|i: int|
            0 <= i < binding_table().len() ==> bound_control(#[trigger] binding_table()[i].0)
                == Some(binding_table()[i].1),
        forall|k: Key|
            bound_control(k) is Some ==> exists|i: int|
                0 <= i < binding_table().len() && #[trigger] binding_table()[i].0 == k,
{
    let t = binding_table();
    assert(t.len() == 10);
    assert(bound_control(t[0].0) == Some(t[0].1));
    assert(bound_control(t[1].0) == Some(t[1].1));
    assert(bound_control(t[2].0) == Some(t[2].1));
    assert(bound_control(t[3].0) == Some(t[3].1));
    assert(bound_control(t[4].0) == Some(t[4].1));
    assert(bound_control(t[5].0) == Some(t[5].1));
    assert(bound_control(t[6].0) == Some(t[6].1));
    assert(bound_control(t[7].0) == Some(t[7].1));
    assert(bound_control(t[8].0) == Some(t[8].1));
    assert(bound_control(t[9].0) == Some(t[9].1));
    assert forall|k: Key| bound_control(k) is Some implies exists|i: int|
        0 <= i < t.len() && #[trigger] t[i].0 == k by {
        match k {
            Key::Space => assert(t[0].0 == k),
            Key::LShift => assert(t[1].0 == k),
            Key::W => assert(t[2].0 == k),
            Key::Up => assert(t[3].0 == k),
            Key::S => assert(t[4].0 == k),
            Key::Down => assert(t[5].0 == k),
            Key::A => assert(t[6].0 == k),
            Key::Left => assert(t[7].0 == k),
            Key::D => assert(t[8].0 == k),
            Key::Right => assert(t[9].0 == k),
            Key::Other => {},
        }
    }
}

/// The key bindings: each row binds one key to the control it drives.
pub fn bindings() -> (r: Vec<(Key, Control)>)
    ensures
        r@ == binding_table(),
{
    let r = vec![
        (Key::Space, Control::MoveForward),
        (Key::LShift, Control::MoveBackward),
        (Key::W, Control::LiftUp),
        (Key::Up, Control::LiftUp),
        (Key::S, Control::LiftDown),
        (Key::Down, Control::LiftDown),
        (Key::A, Control::StrafeLeft),
        (Key::Left, Control::StrafeLeft),
        (Key::D, Control::StrafeRight),
        (Key::Right, Control::StrafeRight),
    ];
    assert(r@ =~= binding_table());
    r
}

/// Looks a key up in the binding table.
pub fn binding(key: Key) -> (r: Option<Control>)
    ensures
        r == bound_control(key),
{
    proof {
        lemma_table_matches_bindings();
    }
    let table = bindings();
    let mut i: usize = 0;
    while i < table.len()
        invariant
            table@ == binding_table(),
            0 <= i <= table@.len(),
            forall|j: int| 0 <= j < i ==> table@[j].0 != key,
        decreases table@.len() - i,
    {
        let (k, c) = table[i];
        if k == key {
            assert(binding_table()[i as int].0 == key);
            return Some(c);
        }
        i = i + 1;
    }
    None
}

/// Which controls are held at the moment.
#[derive(Clone, Copy, Debug, PartialEq, Eq, Structural)]
pub struct Input {
    pub up: bool,
    pub down: bool,
    pub forward: bool,
    pub backward: bool,
    pub left: bool,
    pub right: bool,
}

/// A basis direction of the camera for one frame: the normalised view
/// direction, its cross product with the camera's up vector, and the up
/// vector itself. All three are taken before the frame moves the camera.
#[derive(Clone, Copy, Debug, PartialEq, Eq, Structural)]
pub enum Axis {
    Forward,
    Right,
    Up,
}

/// One translation of a frame: the look-at target moves by `speed` along
/// `axis` (against it when `negate`), and the eye moves with it when
/// `carries_eye`.
#[derive(Clone, Copy, Debug, PartialEq, Eq, Structural)]
pub struct Step {
    pub carries_eye: bool,
    pub axis: Axis,
    pub negate: bool,
}

/// The translation that a held control asks for. Moving forward or back
/// carries the eye along; strafing and lifting move the target only, which
/// turns the camera. Lifting up moves against the up vector, whose sign is
/// inverted to match the renderer.
pub open spec fn step_of(c: Control) -> Step {
    match c {
        Control::MoveForward => Step { carries_eye: true, axis: Axis::Forward, negate: false },
        Control::MoveBackward => Step { carries_eye: true, axis: Axis::Forward, negate: true },
        Control::StrafeRight => Step { carries_eye: false, axis: Axis::Right, negate: false },
        Control::StrafeLeft => Step { carries_eye: false, axis: Axis::Right, negate: true },
        Control::LiftUp => Step { carries_eye: false, axis: Axis::Up, negate: true },
        Control::LiftDown => Step { carries_eye: false, axis: Axis::Up, negate: false },
    }
}

/// The step of `c` if it is held, else nothing.
pub open spec fn step_if(held: bool, c: Control) -> Seq<Step> {
    if held {
        seq![step_of(c)]
    } else {
        seq![]
    }
}

/// The camera's three basis directions for one frame.
#[derive(Clone, Copy, Debug)]
pub struct Basis<V> {
    pub forward: V,
    pub right: V,
    pub up: V,
}

impl<V> Basis<V> {
    pub open spec fn spec_along(self, a: Axis) -> V {
        match a {
            Axis::Forward => self.forward,
            Axis::Right => self.right,
            Axis::Up => self.up,
        }
    }
}

impl<V: Copy> Basis<V> {
    /// The direction of axis `a`.
    pub fn along(&self, a: Axis) -> (r: V)
        ensures
            r == self.spec_along(a),
    {
        match a {
            Axis::Forward => self.forward,
            Axis::Right => self.right,
            Axis::Up => self.up,
        }
    }
}

/// `to` is where `shift` may take `from` for step `s`; for the eye
/// (`eye`), a step that does not carry it leaves it in place.
pub open spec fn moved<P, V, F: Fn(P, V, bool) -> P>(
    shift: F,
    basis: Basis<V>,
    s: Step,
    eye: bool,
    from: P,
    to: P,
) -> bool {
    if eye && !s.carries_eye {
        to == from
    } else {
        shift.ensures((from, basis.spec_along(s.axis), s.negate), to)
    }
}

/// `pts` lists a point before each step of `steps` and after the last one,
/// each following from the one before by `moved`.
pub open spec fn walks<P, V, F: Fn(P, V, bool) -> P>(
    shift: F,
    basis: Basis<V>,
    steps: Seq<Step>,
    eye: bool,
    pts: Seq<P>,
) -> bool {
    &&& pts.len() == steps.len() + 1
    &&& forall|k: int|
        0 <= k < steps.len() ==> #[trigger] moved(shift, basis, steps[k], eye, pts[k], pts[k + 1])
}

/// `to` is a point that `from` may arrive at when `shift(p, d, negate)`
/// moves it by each step of `steps` in turn, along that step's axis of
/// `basis`. For the eye (`eye`), only the steps that carry the eye move it.
pub open spec fn reaches<P, V, F: Fn(P, V, bool) -> P>(
    shift: F,
    basis: Basis<V>,
    steps: Seq<Step>,
    eye: bool,
    from: P,
    to: P,
) -> bool {
    exists|pts: Seq<P>|
        #[trigger] walks(shift, basis, steps, eye, pts) && pts[0] == from && pts.last() == to
}

/// Steps that never carry the eye leave it where it was.
pub proof fn lemma_reaches_without_eye_steps<P, V, F: Fn(P, V, bool) -> P>(
    shift: F,
    basis: Basis<V>,
    steps: Seq<Step>,
    from: P,
    to: P,
)
    requires
        forall|k: int| 0 <= k < steps.len() ==> !(#[trigger] steps[k]).carries_eye,
        reaches(shift, basis, steps, true, from, to),
    ensures
        to == from,
{
    let pts = choose|pts: Seq<P>|
        #[trigger] walks(shift, basis, steps, true, pts) && pts[0] == from && pts.last() == to;
    lemma_walk_keeps_eye(shift, basis, steps, pts, steps.len() as int);
}

proof fn lemma_walk_keeps_eye<P, V, F: Fn(P, V, bool) -> P>(
    shift: F,
    basis: Basis<V>,
    steps: Seq<Step>,
    pts: Seq<P>,
    k: int,
)
    requires
        0 <= k <= steps.len(),
        walks(shift, basis, steps, true, pts),
        forall|k: int| 0 <= k < steps.len() ==> !(#[trigger] steps[k]).carries_eye,
    ensures
        pts[k] == pts[0],
    decreases k,
{
    if k > 0 {
        let j = k - 1;
        lemma_walk_keeps_eye(shift, basis, steps, pts, j);
        assert(moved(shift, basis, steps[j], true, pts[j], pts[j + 1]));
    }
}

proof fn lemma_walk_push<P, V, F: Fn(P, V, bool) -> P>(
    shift: F,
    basis: Basis<V>,
    steps: Seq<Step>,
    eye: bool,
    pts: Seq<P>,
    s: Step,
    to: P,
)
    requires
        walks(shift, basis, steps, eye, pts),
        moved(shift, basis, s, eye, pts.last(), to),
    ensures
        walks(shift, basis, steps.push(s), eye, pts.push(to)),
        pts.push(to)[0] == pts[0],
        pts.push(to).last() == to,
{
    let steps2 = steps.push(s);
    let pts2 = pts.push(to);
    assert forall|j: int| 0 <= j < steps2.len() implies #[trigger] moved(
        shift,
        basis,
        steps2[j],
        eye,
        pts2[j],
        pts2[j + 1],
    ) by {
        if j < steps.len() {
            assert(steps2[j] == steps[j]);
            assert(pts2[j] == pts[j]);
            assert(pts2[j + 1] == pts[j + 1]);
            assert(moved(shift, basis, steps[j], eye, pts[j], pts[j + 1]));
        } else {
            assert(steps2[j] == s);
            assert(pts2[j] == pts.last());
        }
    }
}

/// A single step moves a point by one application of `shift`.
pub proof fn lemma_reaches_one_step<P, V, F: Fn(P, V, bool) -> P>(
    shift: F,
    basis: Basis<V>,
    s: Step,
    eye: bool,
    from: P,
    to: P,
)
    requires
        reaches(shift, basis, seq![s], eye, from, to),
        !eye || s.carries_eye,
    ensures
        shift.ensures((from, basis.spec_along(s.axis), s.negate), to),
{
    let pts = choose|pts: Seq<P>|
        #[trigger] walks(shift, basis, seq![s], eye, pts) && pts[0] == from && pts.last() == to;
    assert(moved(shift, basis, seq![s][0], eye, pts[0], pts[1]));
}

impl Input {
    /// Whether control `c` is held.
    pub open spec fn held(self, c: Control) -> bool {
        match c {
            Control::MoveForward => self.forward,
            Control::MoveBackward => self.backward,
            Control::StrafeLeft => self.left,
            Control::StrafeRight => self.right,
            Control::LiftUp => self.up,
            Control::LiftDown => self.down,
        }
    }

    /// No control is held.
    pub open spec fn idle(self) -> bool {
        forall|c: Control| !#[trigger] self.held(c)
    }

    /// This state with control `c` set to `b`.
    pub open spec fn with_held(self, c: Control, b: bool) -> Input {
        match c {
            Control::MoveForward => Input { forward: b, ..self },
            Control::MoveBackward => Input { backward: b, ..self },
            Control::StrafeLeft => Input { left: b, ..self },
            Control::StrafeRight => Input { right: b, ..self },
            Control::LiftUp => Input { up: b, ..self },
            Control::LiftDown => Input { down: b, ..self },
        }
    }

    /// The state after key `key` was pressed (`pressed`) or released.
    pub open spec fn after_key(self, pressed: bool, key: Key) -> Input {
        match bound_control(key) {
            Some(c) => self.with_held(c, pressed),
            None => self,
        }
    }

    /// The translations of one frame, in the order they are applied:
    /// forward, backward, strafe right, strafe left, lift up, lift down.
    pub open spec fn plan(self) -> Seq<Step> {
        step_if(self.forward, Control::MoveForward) + step_if(self.backward, Control::MoveBackward)
            + step_if(self.right, Control::StrafeRight) + step_if(self.left, Control::StrafeLeft)
            + step_if(self.up, Control::LiftUp) + step_if(self.down, Control::LiftDown)
    }

    /// A state with no control held.
    pub fn new() -> (r: Input)
        ensures
            r == (Input {
                up: false,
                down: false,
                forward: false,
                backward: false,
                left: false,
                right: false,
            }),
            r.idle(),
    {
        Input { up: false, down: false, forward: false, backward: false, left: false, right: false }
    }

    /// Sets control `c` to `b`.
    pub fn set(&mut self, c: Control, b: bool)
        ensures
            *final(self) == old(self).with_held(c, b),
    {
        match c {
            Control::MoveForward => self.forward = b,
            Control::MoveBackward => self.backward = b,
            Control::StrafeLeft => self.left = b,
            Control::StrafeRight => self.right = b,
            Control::LiftUp => self.up = b,
            Control::LiftDown => self.down = b,
        }
    }

    /// Records a key press (`pressed`) or release: the control bound to
    /// `key` becomes `pressed`; a key without a binding changes nothing.
    pub fn update(&mut self, pressed: bool, key: Key)
        ensures
            *final(self) == old(self).after_key(pressed, key),
            forall|c: Control|
                #[trigger] final(self).held(c) == if bound_control(key) == Some(c) {
                    pressed
                } else {
                    old(self).held(c)
                },
    {
        match binding(key) {
            Some(c) => self.set(c, pressed),
            None => {},
        }
    }

    /// Moves `camera` for one frame. `basis` holds the directions taken
    /// from the camera before the frame; `shift(p, d, negate)` moves point
    /// `p` by `speed` along `d` (against it when `negate`). The steps of the
    /// plan are applied in order to the target, and those that carry the
    /// eye to the eye as well; nothing else of the camera changes.
    pub fn update_camera<P: Copy, V: Copy, S, F: Fn(P, V, bool) -> P>(
        &self,
        camera: &mut Camera<P, V, S>,
        basis: Basis<V>,
        shift: F,
    )
        requires
            forall|p: P, d: V, negate: bool| shift.requires((p, d, negate)),
        ensures
            reaches(shift, basis, self.plan(), true, old(camera).eye, final(camera).eye),
            reaches(shift, basis, self.plan(), false, old(camera).target, final(camera).target),
            final(camera).up == old(camera).up,
            final(camera).fov == old(camera).fov,
            final(camera).viewport == old(camera).viewport,
            !self.forward && !self.backward ==> final(camera).eye == old(camera).eye,
            self.idle() ==> final(camera).eye == old(camera).eye && final(camera).target == old(
                camera,
            ).target,
    {
        let ghost start_eye = camera.eye;
        let ghost start_target = camera.target;
        let ghost mut eye_pts: Seq<P> = seq![camera.eye];
        let ghost mut target_pts: Seq<P> = seq![camera.target];
        let plan = self.motion_plan();
        let mut k: usize = 0;
        while k < plan.len()
            invariant
                forall|p: P, d: V, negate: bool| shift.requires((p, d, negate)),
                plan@ == self.plan(),
                k <= plan@.len(),
                camera.up == old(camera).up,
                camera.fov == old(camera).fov,
                camera.viewport == old(camera).viewport,
                start_eye == old(camera).eye,
                start_target == old(camera).target,
                walks(shift, basis, plan@.take(k as int), true, eye_pts),
                walks(shift, basis, plan@.take(k as int), false, target_pts),
                eye_pts[0] == start_eye,
                eye_pts.last() == camera.eye,
                target_pts[0] == start_target,
                target_pts.last() == camera.target,
            decreases plan@.len() - k,
        {
            let s = plan[k];
            let d = basis.along(s.axis);
            camera.target = shift(camera.target, d, s.negate);
            if s.carries_eye {
                camera.eye = shift(camera.eye, d, s.negate);
            }
            proof {
                assert(plan@.take(k + 1) =~= plan@.take(k as int).push(s));
                lemma_walk_push(shift, basis, plan@.take(k as int), true, eye_pts, s, camera.eye);
                lemma_walk_push(shift, basis, plan@.take(k as int), false, target_pts, s, camera.target);
                eye_pts = eye_pts.push(camera.eye);
                target_pts = target_pts.push(camera.target);
            }
            k = k + 1;
        }
        proof {
            assert(plan@.take(plan@.len() as int) =~= plan@);
            assert(walks(shift, basis, plan@, true, eye_pts));
            assert(walks(shift, basis, plan@, false, target_pts));
        }
        proof {
            assert(plan@.take(plan@.len() as int) =~= plan@);
            if !self.forward && !self.backward {
                lemma_eye_moves_only_along_view(*self);
                lemma_reaches_without_eye_steps(shift, basis, plan@, start_eye, camera.eye);
            }
            if self.idle() {
                lemma_idle_plan_is_empty(*self);
            }
        }
    }

    /// The translations that one frame applies to the camera, in order.
    pub fn motion_plan(&self) -> (r: Vec<Step>)
        ensures
            r@ == self.plan(),
    {
        let mut r: Vec<Step> = Vec::new();
        if self.forward {
            r.push(Step { carries_eye: true, axis: Axis::Forward, negate: false });
        }
        assert(r@ =~= step_if(self.forward, Control::MoveForward));
        if self.backward {
            r.push(Step { carries_eye: true, axis: Axis::Forward, negate: true });
        }
        assert(r@ =~= step_if(self.forward, Control::MoveForward) + step_if(
            self.backward,
            Control::MoveBackward,
        ));
        if self.right {
            r.push(Step { carries_eye: false, axis: Axis::Right, negate: false });
        }
        if self.left {
            r.push(Step { carries_eye: false, axis: Axis::Right, negate: true });
        }
        if self.up {
            r.push(Step { carries_eye: false, axis: Axis::Up, negate: true });
        }
        if self.down {
            r.push(Step { carries_eye: false, axis: Axis::Up, negate: false });
        }
        assert(r@ =~= self.plan());
        r
    }
}

/// With no control held, a frame moves neither the eye nor the target.
pub proof fn lemma_idle_plan_is_empty(i: Input)
    requires
        i.idle(),
    ensures
        i.plan() == Seq::<Step>::empty(),
{
    assert(!i.held(Control::MoveForward) && !i.held(Control::MoveBackward));
    assert(!i.held(Control::StrafeLeft) && !i.held(Control::StrafeRight));
    assert(!i.held(Control::LiftUp) && !i.held(Control::LiftDown));
    assert(i.plan() =~= Seq::<Step>::empty());
}

/// No step of `s` carries the eye unless `i` moves along the view.
spec fn eye_steps_along_view(s: Seq<Step>, i: Input) -> bool {
    forall|k: int|
        0 <= k < s.len() && (#[trigger] s[k]).carries_eye ==> (i.forward || i.backward) && s[k].axis
            == Axis::Forward
}

proof fn lemma_eye_steps_concat(a: Seq<Step>, b: Seq<Step>, i: Input)
    requires
        eye_steps_along_view(a, i),
        eye_steps_along_view(b, i),
    ensures
        eye_steps_along_view(a + b, i),
{
    assert forall|k: int|
        0 <= k < (a + b).len() && (#[trigger] (a + b)[k]).carries_eye implies (i.forward
            || i.backward) && (a + b)[k].axis == Axis::Forward by {
        if k < a.len() {
            assert((a + b)[k] == a[k]);
        } else {
            assert((a + b)[k] == b[k - a.len()]);
        }
    }
}

/// Only moving forward or backward moves the eye: while neither is held,
/// no step of a frame carries the eye, so strafing and lifting change the
/// target alone.
pub proof fn lemma_eye_moves_only_along_view(i: Input)
    ensures
        forall|k: int|
            0 <= k < i.plan().len() && (#[trigger] i.plan()[k]).carries_eye ==> i.forward
                || i.backward,
        forall|k: int|
            0 <= k < i.plan().len() && (#[trigger] i.plan()[k]).carries_eye ==> i.plan()[k].axis
                == Axis::Forward,
{
    let s0 = step_if(i.forward, Control::MoveForward);
    let s1 = step_if(i.backward, Control::MoveBackward);
    let s2 = step_if(i.right, Control::StrafeRight);
    let s3 = step_if(i.left, Control::StrafeLeft);
    let s4 = step_if(i.up, Control::LiftUp);
    let s5 = step_if(i.down, Control::LiftDown);
    assert(eye_steps_along_view(s0, i));
    assert(eye_steps_along_view(s1, i));
    assert(eye_steps_along_view(s2, i));
    assert(eye_steps_along_view(s3, i));
    assert(eye_steps_along_view(s4, i));
    assert(eye_steps_along_view(s5, i));
    lemma_eye_steps_concat(s0, s1, i);
    lemma_eye_steps_concat(s0 + s1, s2, i);
    lemma_eye_steps_concat(s0 + s1 + s2, s3, i);
    lemma_eye_steps_concat(s0 + s1 + s2 + s3, s4, i);
    lemma_eye_steps_concat(s0 + s1 + s2 + s3 + s4, s5, i);
    assert(eye_steps_along_view(i.plan(), i));
}

/// From rest, pressing the key bound to `c` makes a frame apply exactly the
/// step of `c`; releasing it again brings the camera back to rest.
pub proof fn lemma_single_press(i: Input, k: Key, c: Control)
    requires
        i.idle(),
        bound_control(k) == Some(c),
    ensures
        i.after_key(true, k).plan() == seq![step_of(c)],
        i.after_key(true, k).after_key(false, k).idle(),
        i.after_key(true, k).after_key(false, k).plan() == Seq::<Step>::empty(),
{
    assert(!i.held(Control::MoveForward) && !i.held(Control::MoveBackward));
    assert(!i.held(Control::StrafeLeft) && !i.held(Control::StrafeRight));
    assert(!i.held(Control::LiftUp) && !i.held(Control::LiftDown));
    assert(i.after_key(true, k).plan() =~= seq![step_of(c)]);
    let j = i.after_key(true, k).after_key(false, k);
    assert(j == i);
    lemma_idle_plan_is_empty(j);
}

/// A press followed by the release of the same key leaves every control as
/// a release alone would.
pub proof fn lemma_press_then_release(i: Input, k: Key)
    ensures
        i.after_key(true, k).after_key(false, k) == i.after_key(false, k),
{
}

/// From rest, pressing the key that moves forward makes one frame move the
/// eye and the target alike: each by one `shift` along the forward
/// direction taken before the frame, so the view direction is kept.
pub proof fn lemma_forward_frame<P, V, F: Fn(P, V, bool) -> P>(
    i: Input,
    k: Key,
    shift: F,
    basis: Basis<V>,
    eye: P,
    target: P,
    new_eye: P,
    new_target: P,
)
    requires
        i.idle(),
        bound_control(k) == Some(Control::MoveForward),
        reaches(shift, basis, i.after_key(true, k).plan(), true, eye, new_eye),
        reaches(shift, basis, i.after_key(true, k).plan(), false, target, new_target),
    ensures
        shift.ensures((eye, basis.forward, false), new_eye),
        shift.ensures((target, basis.forward, false), new_target),
{
    lemma_single_press(i, k, Control::MoveForward);
    lemma_reaches_one_step(shift, basis, step_of(Control::MoveForward), true, eye, new_eye);
    lemma_reaches_one_step(shift, basis, step_of(Control::MoveForward), false, target, new_target);
}

} // verus!
