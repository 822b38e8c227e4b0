use skelly::geom::{Iso3, Quat, Vec3};
use skelly::num::Fx;
use skelly::{Posture, Skelly};

fn fxi(n: i64) -> Fx {
    Fx::from_int(n)
}

fn v(x: i64, y: i64, z: i64) -> Vec3 {
    Vec3::new(fxi(x), fxi(y), fxi(z))
}

fn chain3() -> (Skelly, usize, usize, usize) {
    let mut skelly = Skelly::new();
    let root = skelly.add_root(v(0, 0, 0));
    let b1 = skelly.attach(v(1, 0, 0), root);
    let b2 = skelly.attach(v(0, 1, 0), b1);
    (skelly, root, b1, b2)
}

#[test]
fn fk_composes_along_the_path() {
    // Three bones at unit offsets along orthogonal axes: each global
    // position is the sum of the offsets along the root path.
    let (skelly, root, b1, b2) = chain3();
    let mut globals = vec![Iso3::identity(); skelly.len()];
    skelly.write_globals(&Iso3::identity(), &mut globals);
    assert_eq!(globals[root].translation, v(0, 0, 0));
    assert_eq!(globals[b1].translation, v(1, 0, 0));
    assert_eq!(globals[b2].translation, v(1, 1, 0));
}

#[test]
fn write_globals_is_idempotent() {
    let (skelly, _, _, _) = chain3();
    let mut first = vec![Iso3::identity(); skelly.len()];
    skelly.write_globals(&Iso3::identity(), &mut first);
    let mut second = first.clone();
    skelly.write_globals(&Iso3::identity(), &mut second);
    assert_eq!(first, second);
}

#[test]
fn attach_returns_index_greater_than_parent() {
    let mut skelly = Skelly::new();
    let root = skelly.add_root(v(0, 0, 0));
    let a = skelly.attach(v(1, 0, 0), root);
    let b = skelly.attach(v(0, 1, 0), root);
    let c = skelly.attach(v(0, 0, 1), b);
    assert!(a > root);
    assert!(b > root);
    assert!(c > b);
    assert_eq!(skelly.get_parent(c), Some(b));
    assert_eq!(skelly.get_parent(root), None);
}

#[test]
fn len_and_is_empty() {
    let mut skelly = Skelly::new();
    assert!(skelly.is_empty());
    assert_eq!(skelly.len(), 0);
    skelly.add_root(v(0, 0, 0));
    assert!(!skelly.is_empty());
    assert_eq!(skelly.len(), 1);
}

#[test]
fn userdata_round_trip() {
    let mut skelly: Skelly<&str> = Skelly::new();
    let root = skelly.add_root_with(v(0, 0, 0), "root-data");
    let bone = skelly.attach_with(v(1, 0, 0), root, "bone-data");
    assert_eq!(*skelly.get_userdata(root), "root-data");
    assert_eq!(*skelly.get_userdata(bone), "bone-data");
    skelly.set_userdata(root, "new-data");
    assert_eq!(*skelly.get_userdata(root), "new-data");
}

#[test]
fn userdata_mutable_access() {
    let mut skelly: Skelly<Vec<&str>> = Skelly::new();
    let root = skelly.add_root_with(v(0, 0, 0), vec![]);
    skelly.get_userdata_mut(root).push("entry");
    assert_eq!(*skelly.get_userdata(root), ["entry"]);
}

#[test]
fn iter_chain_lists_ancestors() {
    let (skelly, root, b1, b2) = chain3();
    assert_eq!(skelly.iter_chain(b2), vec![b1, root]);
    assert_eq!(skelly.iter_chain(root), Vec::<usize>::new());
}

#[test]
fn iter_children_lists_direct_descendants() {
    let mut skelly = Skelly::new();
    let root = skelly.add_root(v(0, 0, 0));
    let left = skelly.attach(v(1, 0, 0), root);
    let right = skelly.attach(v(-1, 0, 0), root);
    let grand = skelly.attach(v(0, 1, 0), left);
    assert_eq!(skelly.iter_children(root), vec![left, right]);
    assert_eq!(skelly.iter_children(left), vec![grand]);
    assert_eq!(skelly.iter_children(grand), Vec::<usize>::new());
}

#[test]
fn append_rotation_keeps_position_moves_descendants() {
    let mut skelly = Skelly::new();
    let root = skelly.add_root(v(0, 0, 0));
    let bone = skelly.attach(v(1, 0, 0), root);
    // Quarter turn about +z.
    let s = Fx { raw: 46341 };
    let q = Quat { x: Fx { raw: 0 }, y: Fx { raw: 0 }, z: s, w: s };
    skelly.append_rotation(root, q);
    assert_eq!(skelly.get_position(root), v(0, 0, 0));
    let mut globals = vec![Iso3::identity(); skelly.len()];
    skelly.write_globals(&Iso3::identity(), &mut globals);
    let p = globals[bone].translation;
    assert!(p.x.raw.abs() < 64);
    assert!((p.y.raw - 65536).abs() < 64);
}

#[test]
fn prepend_rotation_moves_own_position() {
    let mut skelly = Skelly::new();
    let root = skelly.add_root(v(0, 0, 0));
    let bone = skelly.attach(v(1, 0, 0), root);
    let s = Fx { raw: 46341 };
    let q = Quat { x: Fx { raw: 0 }, y: Fx { raw: 0 }, z: s, w: s };
    skelly.prepend_rotation(bone, q);
    let p = skelly.get_position(bone);
    assert!(p.x.raw.abs() < 64);
    assert!((p.y.raw - 65536).abs() < 64);
}

#[test]
fn append_translation_offsets_position() {
    let mut skelly = Skelly::new();
    let root = skelly.add_root(v(1, 0, 0));
    skelly.append_translation(root, v(0, 0, 1));
    assert_eq!(skelly.get_position(root), v(1, 0, 1));
}

#[test]
fn set_and_get_position_and_orientation() {
    let mut skelly = Skelly::new();
    let root = skelly.add_root(v(0, 0, 0));
    skelly.set_position(root, v(0, 0, 1));
    assert_eq!(skelly.get_position(root), v(0, 0, 1));
    assert_eq!(skelly.get_orientation(root), Quat::identity());
    let s = Fx { raw: 46341 };
    let q = Quat { x: s, y: Fx { raw: 0 }, z: Fx { raw: 0 }, w: s };
    skelly.set_orientation(root, q);
    assert_eq!(skelly.get_orientation(root), q);
    assert_eq!(skelly.get_isometry(root).translation, v(0, 0, 1));
}

#[test]
fn posture_snapshots_and_mutates_independently() {
    let (mut skelly, root, _b1, b2) = chain3();
    let mut posture = Posture::new(&skelly);
    assert!(posture.is_compatible(&skelly));
    posture.set_position(b2, v(0, 0, 5));
    // The skelly itself is untouched by posture edits.
    assert_eq!(skelly.get_position(b2), v(0, 1, 0));
    assert_eq!(posture.get_position(b2), v(0, 0, 5));
    assert_eq!(posture.get_position(root), v(0, 0, 0));
    // Adding a bone invalidates existing postures.
    skelly.attach(v(1, 1, 1), root);
    assert!(!posture.is_compatible(&skelly));
}

#[test]
fn posture_write_globals_reads_topology_from_the_tree() {
    let (skelly, _root, b1, b2) = chain3();
    let mut posture = Posture::new(&skelly);
    posture.set_position(b1, v(0, 0, 1));
    let mut globals = vec![Iso3::identity(); skelly.len()];
    posture.write_globals(&skelly, &Iso3::identity(), &mut globals);
    assert_eq!(globals[b1].translation, v(0, 0, 1));
    assert_eq!(globals[b2].translation, v(0, 1, 1));
}

#[test]
fn posture_rotation_and_translation_ops() {
    let (skelly, root, _b1, _b2) = chain3();
    let mut posture = Posture::new(&skelly);
    let s = Fx { raw: 46341 };
    let q = Quat { x: Fx { raw: 0 }, y: Fx { raw: 0 }, z: s, w: s };
    posture.append_rotation(root, q);
    assert_eq!(posture.get_orientation(root), q);
    assert_eq!(posture.get_position(root), v(0, 0, 0));
    posture.append_translation(root, v(0, 0, 2));
    assert_eq!(posture.get_position(root), v(0, 0, 2));
    posture.set_orientation(root, Quat::identity());
    assert_eq!(posture.get_isometry(root).rotation, Quat::identity());
    posture.prepend_rotation(root, q);
    // Prepending rotates the position as well; a position on the
    // rotation axis stays exactly in place.
    assert_eq!(posture.get_position(root), v(0, 0, 2));
    assert_eq!(posture.get_orientation(root), q);
}

#[test]
fn assume_posture_copies_joints() {
    let (mut skelly, _root, b1, _b2) = chain3();
    let mut posture = Posture::new(&skelly);
    posture.set_position(b1, v(7, 0, 0));
    skelly.assume_posture(&posture);
    assert_eq!(skelly.get_position(b1), v(7, 0, 0));
}

#[test]
fn write_globals_into_short_buffer_fills_prefix() {
    let (skelly, root, b1, _b2) = chain3();
    let mut globals = vec![Iso3::identity(); 2];
    skelly.write_globals(&Iso3::identity(), &mut globals);
    assert_eq!(globals.len(), 2);
    assert_eq!(globals[root].translation, v(0, 0, 0));
    assert_eq!(globals[b1].translation, v(1, 0, 0));
}

#[test]
fn write_globals_with_world_offset() {
    let (skelly, root, _b1, _b2) = chain3();
    let world = Iso3 {
        rotation: Quat::identity(),
        translation: v(0, 0, 10),
    };
    let mut globals = vec![Iso3::identity(); skelly.len()];
    skelly.write_globals(&world, &mut globals);
    assert_eq!(globals[root].translation, v(0, 0, 10));
}

#[test]
fn default_is_empty() {
    let skelly: Skelly = Default::default();
    assert!(skelly.is_empty());
}
