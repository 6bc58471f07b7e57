use raymarch::camera::{Camera, CameraError, Viewport};
use raymarch::input::{binding, bindings, Axis, Basis, Control, Input, Key, Step};
use raymarch::uniform::{UniformData, BLOCK_BYTES, ONE_BITS};

type Vec3 = [f32; 3];

fn sub(a: Vec3, b: Vec3) -> Vec3 {
    [a[0] - b[0], a[1] - b[1], a[2] - b[2]]
}

fn add(a: Vec3, b: Vec3) -> Vec3 {
    [a[0] + b[0], a[1] + b[1], a[2] + b[2]]
}

fn scale(a: Vec3, s: f32) -> Vec3 {
    [a[0] * s, a[1] * s, a[2] * s]
}

fn normalize(a: Vec3) -> Vec3 {
    let len = (a[0] * a[0] + a[1] * a[1] + a[2] * a[2]).sqrt();
    [a[0] / len, a[1] / len, a[2] / len]
}

fn cross(a: Vec3, b: Vec3) -> Vec3 {
    [
        a[1] * b[2] - a[2] * b[1],
        a[2] * b[0] - a[0] * b[2],
        a[0] * b[1] - a[1] * b[0],
    ]
}

fn start_camera(width: u32, height: u32) -> Result<Camera<Vec3, Vec3, f32>, CameraError> {
    Camera::new([31.0, 11.0, 27.0], [23.0, 9.0, 20.0], [0.0, -1.0, 0.0], 45.0, width, height)
}

fn basis_of(c: &Camera<Vec3, Vec3, f32>) -> Basis<Vec3> {
    let forward = normalize(sub(c.target, c.eye));
    Basis { forward, right: cross(forward, c.up), up: c.up }
}

fn frame(input: &Input, c: &mut Camera<Vec3, Vec3, f32>, speed: f32) {
    let basis = basis_of(c);
    input.update_camera(c, basis, |p: Vec3, d: Vec3, negate: bool| {
        if negate {
            sub(p, scale(d, speed))
        } else {
            add(p, scale(d, speed))
        }
    });
}

fn bits(v: Vec3) -> [u32; 3] {
    [v[0].to_bits(), v[1].to_bits(), v[2].to_bits()]
}

#[test]
fn camera_aspect_is_width_over_height() {
    let c = start_camera(800, 600).unwrap();
    assert_eq!(c.viewport, Viewport { width: 800, height: 600 });
    let aspect = c.viewport.width as f32 / c.viewport.height as f32;
    assert_eq!(aspect, 800.0f32 / 600.0f32);
    assert!((aspect - 1.3333333).abs() < 1e-6);
}

#[test]
fn camera_rejects_zero_height() {
    assert_eq!(start_camera(800, 0).err(), Some(CameraError::ZeroHeight));
    assert!(start_camera(0, 1).is_ok());
}

#[test]
fn resize_changes_only_viewport() {
    let mut c = start_camera(800, 600).unwrap();
    let before = c;
    c.resize(1024, 768);
    assert_eq!(c.viewport, Viewport { width: 1024, height: 768 });
    assert_eq!(bits(c.eye), bits(before.eye));
    assert_eq!(bits(c.target), bits(before.target));
    assert_eq!(bits(c.up), bits(before.up));
    assert_eq!(c.fov.to_bits(), before.fov.to_bits());
}

#[test]
fn bindings_cover_each_control() {
    let table = bindings();
    assert_eq!(table.len(), 10);
    assert_eq!(binding(Key::Space), Some(Control::MoveForward));
    assert_eq!(binding(Key::LShift), Some(Control::MoveBackward));
    assert_eq!(binding(Key::W), Some(Control::LiftUp));
    assert_eq!(binding(Key::Up), Some(Control::LiftUp));
    assert_eq!(binding(Key::S), Some(Control::LiftDown));
    assert_eq!(binding(Key::Down), Some(Control::LiftDown));
    assert_eq!(binding(Key::A), Some(Control::StrafeLeft));
    assert_eq!(binding(Key::Left), Some(Control::StrafeLeft));
    assert_eq!(binding(Key::D), Some(Control::StrafeRight));
    assert_eq!(binding(Key::Right), Some(Control::StrafeRight));
    assert_eq!(binding(Key::Other), None);
    for (k, c) in table {
        assert_eq!(binding(k), Some(c));
    }
}

#[test]
fn unbound_key_is_ignored() {
    let mut i = Input::new();
    i.update(true, Key::Other);
    assert_eq!(i, Input::new());
}

#[test]
fn press_then_release() {
    let mut i = Input::new();
    i.update(true, Key::D);
    assert!(i.right);
    assert!(!i.left && !i.up && !i.down && !i.forward && !i.backward);
    i.update(true, Key::Space);
    assert!(i.right && i.forward);
    i.update(false, Key::Right);
    assert!(!i.right && i.forward);
}

#[test]
fn plan_order_and_signs() {
    let i = Input { up: true, down: true, forward: true, backward: true, left: true, right: true };
    let plan = i.motion_plan();
    assert_eq!(
        plan,
        vec![
            Step { carries_eye: true, axis: Axis::Forward, negate: false },
            Step { carries_eye: true, axis: Axis::Forward, negate: true },
            Step { carries_eye: false, axis: Axis::Right, negate: false },
            Step { carries_eye: false, axis: Axis::Right, negate: true },
            Step { carries_eye: false, axis: Axis::Up, negate: true },
            Step { carries_eye: false, axis: Axis::Up, negate: false },
        ]
    );
    assert!(Input::new().motion_plan().is_empty());
}

#[test]
fn idle_frame_keeps_camera() {
    let mut c = start_camera(800, 600).unwrap();
    let before = c;
    frame(&Input::new(), &mut c, 0.2);
    assert_eq!(bits(c.eye), bits(before.eye));
    assert_eq!(bits(c.target), bits(before.target));
}

#[test]
fn forward_frame_moves_eye_and_target_alike() {
    let mut c = start_camera(800, 600).unwrap();
    let eye0 = c.eye;
    let target0 = c.target;
    let forward = normalize(sub(target0, eye0));
    let mut i = Input::new();
    i.update(true, Key::Space);
    frame(&i, &mut c, 0.2);
    assert_eq!(bits(c.eye), bits(add(eye0, scale(forward, 0.2))));
    assert_eq!(bits(c.target), bits(add(target0, scale(forward, 0.2))));
    let moved = sub(c.eye, eye0);
    let len = (moved[0] * moved[0] + moved[1] * moved[1] + moved[2] * moved[2]).sqrt();
    assert!((len - 0.2).abs() < 1e-5);
    let forward1 = normalize(sub(c.target, c.eye));
    for k in 0..3 {
        assert!((forward1[k] - forward[k]).abs() < 1e-5);
    }
    i.update(false, Key::Space);
    let after = c;
    frame(&i, &mut c, 0.2);
    assert_eq!(bits(c.eye), bits(after.eye));
    assert_eq!(bits(c.target), bits(after.target));
}

#[test]
fn backward_frame_moves_against_forward() {
    let mut c = start_camera(800, 600).unwrap();
    let eye0 = c.eye;
    let forward = normalize(sub(c.target, eye0));
    let mut i = Input::new();
    i.update(true, Key::LShift);
    frame(&i, &mut c, 0.5);
    assert_eq!(bits(c.eye), bits(sub(eye0, scale(forward, 0.5))));
}

#[test]
fn strafe_right_moves_target_only() {
    let mut c = start_camera(800, 600).unwrap();
    let before = c;
    let basis = basis_of(&c);
    let mut i = Input::new();
    i.update(true, Key::D);
    frame(&i, &mut c, 0.2);
    assert_eq!(bits(c.eye), bits(before.eye));
    assert_eq!(bits(c.target), bits(add(before.target, scale(basis.right, 0.2))));
    assert_ne!(bits(c.target), bits(before.target));
}

#[test]
fn lift_up_moves_target_against_up() {
    let mut c = start_camera(800, 600).unwrap();
    let before = c;
    let mut i = Input::new();
    i.update(true, Key::W);
    frame(&i, &mut c, 0.2);
    assert_eq!(bits(c.eye), bits(before.eye));
    assert_eq!(c.target, [23.0, 9.0 + 0.2, 20.0]);
}

fn sample_view() -> [u32; 16] {
    let mut v = [0u32; 16];
    for k in 0..16 {
        v[k] = (k as f32 * 0.5 - 3.0).to_bits();
    }
    v
}

#[test]
fn capture_keeps_view_word_for_word() {
    let view = sample_view();
    let d = UniformData::capture(view, [1, 2, 3], 4, 5);
    assert_eq!(d.view, view);
    assert_eq!(d.eye, [1, 2, 3, ONE_BITS]);
    assert_eq!(d.camera, [4, 5]);
    assert_eq!(ONE_BITS, 1.0f32.to_bits());
}

#[test]
fn raw_bytes_layout() {
    let d = UniformData::capture(sample_view(), [0x0403_0201, 0, 0], 0xdead_beef, 45.0f32.to_bits());
    let b = d.raw_bytes();
    assert_eq!(b.len(), BLOCK_BYTES);
    assert_eq!(BLOCK_BYTES, 88);
    assert_eq!(&b[0..4], &(-3.0f32).to_bits().to_le_bytes());
    assert_eq!(&b[64..68], &[1, 2, 3, 4]);
    assert_eq!(&b[76..80], &[0x00, 0x00, 0x80, 0x3f]);
    assert_eq!(&b[80..84], &[0xef, 0xbe, 0xad, 0xde]);
    assert_eq!(&b[84..88], &45.0f32.to_bits().to_le_bytes());
    assert_eq!(d.to_words().len(), 22);
}

#[test]
fn capture_twice_gives_same_bytes() {
    let c = start_camera(800, 600).unwrap();
    let aspect = (c.viewport.width as f32 / c.viewport.height as f32).to_bits();
    let a = UniformData::capture(sample_view(), bits(c.eye), aspect, c.fov.to_bits());
    let b = UniformData::capture(sample_view(), bits(c.eye), aspect, c.fov.to_bits());
    assert_eq!(a.raw_bytes(), b.raw_bytes());
}

#[test]
fn update_recomputes_whole_block() {
    let mut d = UniformData::capture(sample_view(), [7, 8, 9], 10, 11);
    d.update([0; 16], [1, 1, 1], 2, 3);
    assert_eq!(d, UniformData::capture([0; 16], [1, 1, 1], 2, 3));
    assert_eq!(d.camera, [2, 3]);
}
