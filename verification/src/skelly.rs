//! The bone tree and its postures.
//!
//! Bones live in a flat, append-only array ordered parent-before-child,
//! so forward kinematics is one linear sweep. A [`Posture`] is an
//! index-aligned snapshot of local transforms that can be recomputed and
//! mutated independently of the tree that defined the topology.

use vstd::prelude::*;

use crate::geom::{
    iso_identity_s, iso_mul_s, iso_prerotated_s, iso_rotated_s, iso_translated_s, Iso3, Quat, Vec3,
};

verus! {

/// `parent < child` for every parented bone: the topological-order
/// invariant of the bone array.
pub open spec fn parents_wf(parents: Seq<Option<usize>>) -> bool {
    forall|i: int| 0 <= i < parents.len() ==> #[trigger] parent_ok(parents, i)
}

pub open spec fn parent_ok(parents: Seq<Option<usize>>, i: int) -> bool {
    match parents[i] {
        Some(p) => (p as int) < i,
        None => true,
    }
}

/// The global transform of bone `i`: its local transform composed onto
/// all of its ancestors' and the world transform.
pub open spec fn fk_at(
    parents: Seq<Option<usize>>,
    locals: Seq<Iso3>,
    world: Iso3,
    i: int,
) -> Iso3
    decreases i,
{
    if 0 <= i && i < parents.len() && i < locals.len() {
        match parents[i] {
            Some(p) => if (p as int) < i {
                iso_mul_s(fk_at(parents, locals, world, p as int), locals[i])
            } else {
                iso_mul_s(world, locals[i])
            },
            None => iso_mul_s(world, locals[i]),
        }
    } else {
        iso_identity_s()
    }
}

/// What a forward-kinematics sweep leaves in an output buffer: every
/// in-range slot holds the bone's global transform, slots past the tree
/// keep their previous contents.
pub open spec fn globals_written(
    prev: Seq<Iso3>,
    parents: Seq<Option<usize>>,
    locals: Seq<Iso3>,
    world: Iso3,
) -> Seq<Iso3> {
    Seq::new(
        prev.len(),
        |i: int|
            if i < parents.len() {
                fk_at(parents, locals, world, i)
            } else {
                prev[i]
            },
    )
}

/// The indices on the path from a root down to bone `i`, ending with `i`.
pub open spec fn root_path(parents: Seq<Option<usize>>, i: int) -> Seq<int>
    decreases i,
{
    if 0 <= i && i < parents.len() {
        match parents[i] {
            Some(p) => if (p as int) < i {
                root_path(parents, p as int).push(i)
            } else {
                seq![i]
            },
            None => seq![i],
        }
    } else {
        seq![i]
    }
}

/// Left-to-right composition of the local transforms named by `path`
/// onto `world`.
pub open spec fn compose_locals(locals: Seq<Iso3>, world: Iso3, path: Seq<int>) -> Iso3
    decreases path.len(),
{
    if path.len() == 0 {
        world
    } else {
        iso_mul_s(compose_locals(locals, world, path.drop_last()), locals[path.last()])
    }
}

/// The forward-kinematics law: a bone's global transform is exactly the
/// composition of the local transforms along its root path, applied to
/// the world transform.
pub proof fn lemma_fk_is_path_composition(
    parents: Seq<Option<usize>>,
    locals: Seq<Iso3>,
    world: Iso3,
    i: int,
)
    requires
        parents_wf(parents),
        parents.len() == locals.len(),
        0 <= i < parents.len(),
    ensures
        fk_at(parents, locals, world, i) == compose_locals(locals, world, root_path(parents, i)),
    decreases i,
{
    assert(parent_ok(parents, i));
    match parents[i] {
        Some(p) => {
            lemma_fk_is_path_composition(parents, locals, world, p as int);
            let path = root_path(parents, i);
            assert(path == root_path(parents, p as int).push(i));
            assert(path.drop_last() =~= root_path(parents, p as int));
            assert(path.last() == i);
            assert(path.len() > 0);
            assert(compose_locals(locals, world, path) == iso_mul_s(
                compose_locals(locals, world, root_path(parents, p as int)),
                locals[i],
            ));
            assert(fk_at(parents, locals, world, i) == iso_mul_s(
                fk_at(parents, locals, world, p as int),
                locals[i],
            ));
        },
        None => {
            let path = root_path(parents, i);
            assert(path == seq![i]);
            assert(path.len() == 1);
            assert(path.last() == i);
            assert(path.drop_last() =~= Seq::<int>::empty());
            assert(compose_locals(locals, world, path.drop_last()) == world);
            assert(compose_locals(locals, world, path) == iso_mul_s(world, locals[i]));
            assert(fk_at(parents, locals, world, i) == iso_mul_s(world, locals[i]));
        },
    }
}

/// Writing globals is idempotent: a second sweep over unchanged inputs
/// leaves the buffer exactly as the first sweep did.
pub proof fn lemma_write_globals_idempotent(
    prev: Seq<Iso3>,
    parents: Seq<Option<usize>>,
    locals: Seq<Iso3>,
    world: Iso3,
)
    ensures
        globals_written(globals_written(prev, parents, locals, world), parents, locals, world)
            == globals_written(prev, parents, locals, world),
{
    let once = globals_written(prev, parents, locals, world);
    let twice = globals_written(once, parents, locals, world);
    assert(twice =~= once);
}

/// A bone: a local rigid transform, an optional parent strictly below
/// the bone's own index, and a caller-owned payload.
#[derive(Clone, Debug)]
struct Bone<D> {
    isometry: Iso3,
    parent: Option<usize>,
    userdata: D,
}

/// An append-only forest of bones in topological order.
#[derive(Clone, Debug)]
pub struct Skelly<D = ()> {
    bones: Vec<Bone<D>>,
}

impl<D> Skelly<D> {
    /// The parent link of each bone, in index order.
    pub closed spec fn parents(self) -> Seq<Option<usize>> {
        self.bones@.map(|i: int, b: Bone<D>| b.parent)
    }

    /// The local transform of each bone, in index order.
    pub closed spec fn locals(self) -> Seq<Iso3> {
        self.bones@.map(|i: int, b: Bone<D>| b.isometry)
    }

    /// The payload of each bone, in index order.
    pub closed spec fn users(self) -> Seq<D> {
        self.bones@.map(|i: int, b: Bone<D>| b.userdata)
    }

    pub open spec fn spec_len(self) -> nat {
        self.parents().len()
    }

    pub open spec fn wf(self) -> bool {
        parents_wf(self.parents())
    }

    /// The three per-bone views are index-aligned.
    pub proof fn lemma_view_lens(self)
        ensures
            self.locals().len() == self.spec_len(),
            self.users().len() == self.spec_len(),
    {
    }

    /// Returns a new, empty skelly.
    pub fn new() -> (r: Self)
        ensures
            r.spec_len() == 0,
            r.wf(),
    {
        Skelly { bones: Vec::new() }
    }

    /// Creates a new root bone at `position`, carrying `userdata`;
    /// returns its index.
    pub fn add_root_with(&mut self, position: Vec3, userdata: D) -> (r: usize)
        ensures
            r == old(self).spec_len(),
            final(self).parents() == old(self).parents().push(None),
            final(self).locals() == old(self).locals().push(
                Iso3 { rotation: crate::geom::quat_identity_s(), translation: position },
            ),
            final(self).users() == old(self).users().push(userdata),
            old(self).wf() ==> final(self).wf(),
    {
        let bone = Bone {
            isometry: Iso3 { rotation: Quat::identity(), translation: position },
            parent: None,
            userdata,
        };
        let ghost prev = self.bones@;
        self.bones.push(bone);
        proof {
            assert(final(self).parents() =~= old(self).parents().push(None));
            assert(final(self).locals() =~= old(self).locals().push(
                Iso3 { rotation: crate::geom::quat_identity_s(), translation: position },
            ));
            assert(final(self).users() =~= old(self).users().push(userdata));
            if old(self).wf() {
                assert forall|i: int| 0 <= i < final(self).parents().len() implies #[trigger]
                    parent_ok(final(self).parents(), i) by {
                    if i < prev.len() {
                        assert(parent_ok(old(self).parents(), i));
                    }
                }
            }
        }
        self.bones.len() - 1
    }

    /// Attaches a new bone under `parent` at offset `relative`, carrying
    /// `userdata`; returns its index, which is always strictly greater
    /// than `parent`.
    pub fn attach_with(&mut self, relative: Vec3, parent: usize, userdata: D) -> (r: usize)
        requires
            parent < old(self).spec_len(),
        ensures
            r == old(self).spec_len(),
            parent < r,
            final(self).parents() == old(self).parents().push(Some(parent)),
            final(self).locals() == old(self).locals().push(
                Iso3 { rotation: crate::geom::quat_identity_s(), translation: relative },
            ),
            final(self).users() == old(self).users().push(userdata),
            old(self).wf() ==> final(self).wf(),
    {
        let bone = Bone {
            isometry: Iso3 { rotation: Quat::identity(), translation: relative },
            parent: Some(parent),
            userdata,
        };
        let ghost prev = self.bones@;
        self.bones.push(bone);
        proof {
            assert(final(self).parents() =~= old(self).parents().push(Some(parent)));
            assert(final(self).locals() =~= old(self).locals().push(
                Iso3 { rotation: crate::geom::quat_identity_s(), translation: relative },
            ));
            assert(final(self).users() =~= old(self).users().push(userdata));
            if old(self).wf() {
                assert forall|i: int| 0 <= i < final(self).parents().len() implies #[trigger]
                    parent_ok(final(self).parents(), i) by {
                    if i < prev.len() {
                        assert(parent_ok(old(self).parents(), i));
                    }
                }
            }
        }
        self.bones.len() - 1
    }

    /// Rotates the bone about its own origin (right-multiplication): its
    /// position relative to the parent is unchanged.
    pub fn append_rotation(&mut self, bone: usize, rotation: Quat)
        requires
            bone < old(self).spec_len(),
        ensures
            final(self).locals() == old(self).locals().update(
                bone as int,
                iso_rotated_s(old(self).locals()[bone as int], rotation),
            ),
            final(self).parents() == old(self).parents(),
            final(self).users() == old(self).users(),
    {
        let b = &mut self.bones[bone];
        let iso = b.isometry;
        b.isometry = iso.rotated_by(rotation);
        proof {
            assert(final(self).locals() =~= old(self).locals().update(
                bone as int,
                iso_rotated_s(old(self).locals()[bone as int], rotation),
            ));
            assert(final(self).parents() =~= old(self).parents());
            assert(final(self).users() =~= old(self).users());
        }
    }

    /// Rotates the bone within its parent's frame (left-multiplication):
    /// both its orientation and its position are rotated.
    pub fn prepend_rotation(&mut self, bone: usize, rotation: Quat)
        requires
            bone < old(self).spec_len(),
        ensures
            final(self).locals() == old(self).locals().update(
                bone as int,
                iso_prerotated_s(old(self).locals()[bone as int], rotation),
            ),
            final(self).parents() == old(self).parents(),
            final(self).users() == old(self).users(),
    {
        let b = &mut self.bones[bone];
        let iso = b.isometry;
        b.isometry = iso.prerotated_by(rotation);
        proof {
            assert(final(self).locals() =~= old(self).locals().update(
                bone as int,
                iso_prerotated_s(old(self).locals()[bone as int], rotation),
            ));
            assert(final(self).parents() =~= old(self).parents());
            assert(final(self).users() =~= old(self).users());
        }
    }

    /// Translates the bone relative to its parent.
    pub fn append_translation(&mut self, bone: usize, translation: Vec3)
        requires
            bone < old(self).spec_len(),
        ensures
            final(self).locals() == old(self).locals().update(
                bone as int,
                iso_translated_s(old(self).locals()[bone as int], translation),
            ),
            final(self).parents() == old(self).parents(),
            final(self).users() == old(self).users(),
    {
        let b = &mut self.bones[bone];
        let iso = b.isometry;
        b.isometry = iso.translated_by(translation);
        proof {
            assert(final(self).locals() =~= old(self).locals().update(
                bone as int,
                iso_translated_s(old(self).locals()[bone as int], translation),
            ));
            assert(final(self).parents() =~= old(self).parents());
            assert(final(self).users() =~= old(self).users());
        }
    }

    /// Replaces the bone's position relative to its parent.
    pub fn set_position(&mut self, bone: usize, position: Vec3)
        requires
            bone < old(self).spec_len(),
        ensures
            final(self).locals() == old(self).locals().update(
                bone as int,
                Iso3 { rotation: old(self).locals()[bone as int].rotation, translation: position },
            ),
            final(self).parents() == old(self).parents(),
            final(self).users() == old(self).users(),
    {
        let b = &mut self.bones[bone];
        let iso = b.isometry;
        b.isometry = Iso3 { rotation: iso.rotation, translation: position };
        proof {
            assert(final(self).locals() =~= old(self).locals().update(
                bone as int,
                Iso3 { rotation: old(self).locals()[bone as int].rotation, translation: position },
            ));
            assert(final(self).parents() =~= old(self).parents());
            assert(final(self).users() =~= old(self).users());
        }
    }

    /// The bone's current position relative to its parent.
    pub fn get_position(&self, bone: usize) -> (r: Vec3)
        requires
            bone < self.spec_len(),
        ensures
            r == self.locals()[bone as int].translation,
    {
        self.bones[bone].isometry.translation
    }

    /// Replaces the bone's orientation relative to its parent.
    pub fn set_orientation(&mut self, bone: usize, orientation: Quat)
        requires
            bone < old(self).spec_len(),
        ensures
            final(self).locals() == old(self).locals().update(
                bone as int,
                Iso3 {
                    rotation: orientation,
                    translation: old(self).locals()[bone as int].translation,
                },
            ),
            final(self).parents() == old(self).parents(),
            final(self).users() == old(self).users(),
    {
        let b = &mut self.bones[bone];
        let iso = b.isometry;
        b.isometry = Iso3 { rotation: orientation, translation: iso.translation };
        proof {
            assert(final(self).locals() =~= old(self).locals().update(
                bone as int,
                Iso3 {
                    rotation: orientation,
                    translation: old(self).locals()[bone as int].translation,
                },
            ));
            assert(final(self).parents() =~= old(self).parents());
            assert(final(self).users() =~= old(self).users());
        }
    }

    /// The bone's current orientation relative to its parent.
    pub fn get_orientation(&self, bone: usize) -> (r: Quat)
        requires
            bone < self.spec_len(),
        ensures
            r == self.locals()[bone as int].rotation,
    {
        self.bones[bone].isometry.rotation
    }

    /// The bone's current transform relative to its parent.
    pub fn get_isometry(&self, bone: usize) -> (r: Iso3)
        requires
            bone < self.spec_len(),
        ensures
            r == self.locals()[bone as int],
    {
        self.bones[bone].isometry
    }

    /// The payload associated with the bone.
    pub fn get_userdata(&self, bone: usize) -> (r: &D)
        requires
            bone < self.spec_len(),
        ensures
            *r == self.users()[bone as int],
    {
        &self.bones[bone].userdata
    }

    /// Returns a mutable reference to the payload associated with the
    /// bone; writing through it changes that payload and nothing else.
    pub fn get_userdata_mut(&mut self, bone: usize) -> (r: &mut D)
        requires
            bone < old(self).spec_len(),
        ensures
            *r == old(self).users()[bone as int],
            final(self).spec_len() == old(self).spec_len(),
            final(self).users()[bone as int] == *final(r),
            forall|i: int|
                0 <= i < old(self).spec_len() && i != bone ==> final(self).users()[i] == old(
                    self,
                ).users()[i],
            forall|i: int|
                0 <= i < old(self).spec_len() ==> final(self).parents()[i] == old(
                    self,
                ).parents()[i],
            forall|i: int|
                0 <= i < old(self).spec_len() ==> final(self).locals()[i] == old(self).locals()[i],
    {
        let b = &mut self.bones[bone];
        &mut b.userdata
    }

    /// Replaces the payload associated with the bone.
    pub fn set_userdata(&mut self, bone: usize, userdata: D)
        requires
            bone < old(self).spec_len(),
        ensures
            final(self).users() == old(self).users().update(bone as int, userdata),
            final(self).parents() == old(self).parents(),
            final(self).locals() == old(self).locals(),
    {
        let b = &mut self.bones[bone];
        b.userdata = userdata;
        proof {
            assert(final(self).users() =~= old(self).users().update(bone as int, userdata));
            assert(final(self).parents() =~= old(self).parents());
            assert(final(self).locals() =~= old(self).locals());
        }
    }

    /// The parent of the bone, `None` for roots.
    pub fn get_parent(&self, bone: usize) -> (r: Option<usize>)
        requires
            bone < self.spec_len(),
        ensures
            r == self.parents()[bone as int],
    {
        self.bones[bone].parent
    }

    /// The number of bones.
    pub fn len(&self) -> (r: usize)
        ensures
            r == self.spec_len(),
    {
        self.bones.len()
    }

    /// Whether the skelly has no bones.
    pub fn is_empty(&self) -> (r: bool)
        ensures
            r == (self.spec_len() == 0),
    {
        self.bones.is_empty()
    }

    /// Fills the buffer with global transforms for each bone, reading
    /// local transforms from the skelly itself. Slots past the bone
    /// count keep their contents; a buffer shorter than the tree is
    /// filled completely.
    pub fn write_globals(&self, skelly_global: &Iso3, globals: &mut Vec<Iso3>)
        requires
            self.wf(),
        ensures
            final(globals)@ == globals_written(
                old(globals)@,
                self.parents(),
                self.locals(),
                *skelly_global,
            ),
    {
        let n = self.bones.len();
        let count = if globals.len() < n {
            globals.len()
        } else {
            n
        };
        let mut index: usize = 0;
        while index < count
            invariant
                count <= globals@.len(),
                count <= self.spec_len(),
                index <= count,
                globals@.len() == old(globals)@.len(),
                count == if old(globals)@.len() < self.spec_len() {
                    old(globals)@.len()
                } else {
                    self.spec_len()
                },
                self.wf(),
                forall|j: int| 0 <= j < index ==> globals@[j] == fk_at(
                    self.parents(),
                    self.locals(),
                    *skelly_global,
                    j,
                ),
                forall|j: int| index <= j < globals@.len() ==> globals@[j] == old(globals)@[j],
            decreases count - index,
        {
            proof {
                assert(parent_ok(self.parents(), index as int));
            }
            let iso = self.bones[index].isometry;
            let g = match self.bones[index].parent {
                Some(parent) => globals[parent].compose(iso),
                None => skelly_global.compose(iso),
            };
            globals[index] = g;
            index += 1;
        }
        proof {
            assert(final(globals)@ =~= globals_written(
                old(globals)@,
                self.parents(),
                self.locals(),
                *skelly_global,
            ));
        }
    }

    /// Makes the skelly assume the posture's local transforms.
    pub fn assume_posture(&mut self, posture: &Posture)
        requires
            posture.spec_len() == old(self).spec_len(),
        ensures
            final(self).locals() == posture.joints_seq(),
            final(self).parents() == old(self).parents(),
            final(self).users() == old(self).users(),
    {
        let n = self.bones.len();
        let mut index: usize = 0;
        while index < n
            invariant
                n == self.spec_len(),
                posture.spec_len() == self.spec_len(),
                index <= n,
                self.parents() == old(self).parents(),
                self.users() == old(self).users(),
                forall|j: int| 0 <= j < index ==> self.locals()[j] == posture.joints_seq()[j],
                forall|j: int| index <= j < n ==> self.locals()[j] == old(self).locals()[j],
            decreases n - index,
        {
            let ghost prev = *self;
            let iso = posture.joints[index];
            let b = &mut self.bones[index];
            b.isometry = iso;
            proof {
                assert(self.parents() =~= prev.parents());
                assert(self.users() =~= prev.users());
                assert(self.locals() =~= prev.locals().update(index as int, iso));
            }
            index += 1;
        }
        proof {
            assert(final(self).locals() =~= posture.joints_seq());
        }
    }

    /// The bone's ancestors, nearest first, ending with its root.
    pub fn iter_chain(&self, bone: usize) -> (r: Vec<usize>)
        requires
            self.wf(),
            bone < self.spec_len(),
        ensures
            r@ == up_chain(self.parents(), bone as int),
    {
        let mut r: Vec<usize> = Vec::new();
        let mut cur: usize = bone;
        loop
            invariant
                self.wf(),
                cur < self.spec_len(),
                up_chain(self.parents(), bone as int) == r@ + up_chain(
                    self.parents(),
                    cur as int,
                ),
            ensures
                r@ == up_chain(self.parents(), bone as int),
            decreases cur,
        {
            proof {
                assert(parent_ok(self.parents(), cur as int));
            }
            match self.bones[cur].parent {
                Some(p) => {
                    r.push(p);
                    proof {
                        assert(up_chain(self.parents(), cur as int) == seq![p] + up_chain(
                            self.parents(),
                            p as int,
                        ));
                        assert(r@ + up_chain(self.parents(), p as int) =~= up_chain(
                            self.parents(),
                            bone as int,
                        ));
                    }
                    cur = p;
                },
                None => {
                    proof {
                        assert(up_chain(self.parents(), cur as int) =~= Seq::<usize>::empty());
                        assert(r@ =~= up_chain(self.parents(), bone as int));
                    }
                    break;
                },
            }
        }
        r
    }

    /// The direct children of `parent`, in increasing index order.
    pub fn iter_children(&self, parent: usize) -> (r: Vec<usize>)
        requires
            parent < self.spec_len(),
        ensures
            r@ == children_upto(self.parents(), parent, self.spec_len() as int),
    {
        let n = self.bones.len();
        let mut r: Vec<usize> = Vec::new();
        let mut index: usize = 0;
        while index < n
            invariant
                n == self.spec_len(),
                index <= n,
                r@ == children_upto(self.parents(), parent, index as int),
            decreases n - index,
        {
            let is_child = match self.bones[index].parent {
                Some(p) => p == parent,
                None => false,
            };
            if is_child {
                r.push(index);
            }
            index += 1;
        }
        r
    }
}

/// The ancestors of bone `i`, nearest first.
pub open spec fn up_chain(parents: Seq<Option<usize>>, i: int) -> Seq<usize>
    decreases i,
{
    if 0 <= i && i < parents.len() {
        match parents[i] {
            Some(p) => if (p as int) < i {
                seq![p] + up_chain(parents, p as int)
            } else {
                Seq::empty()
            },
            None => Seq::empty(),
        }
    } else {
        Seq::empty()
    }
}

/// The children of `parent` among bones `0 .. n`, in increasing order.
pub open spec fn children_upto(parents: Seq<Option<usize>>, parent: usize, n: int) -> Seq<usize>
    decreases n,
{
    if n <= 0 {
        Seq::empty()
    } else {
        let rest = children_upto(parents, parent, n - 1);
        if 0 <= n - 1 < parents.len() && parents[n - 1] == Some(parent) {
            rest.push((n - 1) as usize)
        } else {
            rest
        }
    }
}

/// Every child index listed by `children_upto` is below `n`.
pub proof fn lemma_children_upto_bounds(parents: Seq<Option<usize>>, parent: usize, n: int)
    ensures
        forall|k: int|
            0 <= k < children_upto(parents, parent, n).len() ==> (#[trigger] children_upto(
                parents,
                parent,
                n,
            )[k] as int) < n,
    decreases n,
{
    if n > 0 {
        lemma_children_upto_bounds(parents, parent, n - 1);
        let rest = children_upto(parents, parent, n - 1);
        let whole = children_upto(parents, parent, n);
        assert forall|k: int| 0 <= k < whole.len() implies (#[trigger] whole[k] as int) < n by {
            if k < rest.len() {
                assert(whole[k] == rest[k]);
            }
        }
    }
}

/// Every index listed by `children_upto` has exactly `parent` as its
/// parent link.
pub proof fn lemma_children_upto_parent(parents: Seq<Option<usize>>, parent: usize, n: int)
    requires
        n <= parents.len(),
        n <= usize::MAX,
    ensures
        forall|k: int|
            0 <= k < children_upto(parents, parent, n).len() ==> parents[#[trigger] children_upto(
                parents,
                parent,
                n,
            )[k] as int] == Some(parent),
    decreases n,
{
    if n > 0 {
        lemma_children_upto_parent(parents, parent, n - 1);
        let rest = children_upto(parents, parent, n - 1);
        let whole = children_upto(parents, parent, n);
        assert forall|k: int| 0 <= k < whole.len() implies parents[#[trigger] whole[k] as int]
            == Some(parent) by {
            if k < rest.len() {
                assert(whole[k] == rest[k]);
            } else {
                assert(whole == rest.push((n - 1) as usize));
                assert(whole[k] == (n - 1) as usize);
                assert((whole[k] as int) == n - 1);
            }
        }
    }
}

impl Skelly<()> {
    /// Creates a new root bone at `position`; returns its index.
    pub fn add_root(&mut self, position: Vec3) -> (r: usize)
        ensures
            r == old(self).spec_len(),
            final(self).parents() == old(self).parents().push(None),
            final(self).locals() == old(self).locals().push(
                Iso3 { rotation: crate::geom::quat_identity_s(), translation: position },
            ),
            old(self).wf() ==> final(self).wf(),
    {
        self.add_root_with(position, ())
    }

    /// Attaches a new bone under `parent` at offset `relative`; returns
    /// its index, strictly greater than `parent`.
    pub fn attach(&mut self, relative: Vec3, parent: usize) -> (r: usize)
        requires
            parent < old(self).spec_len(),
        ensures
            r == old(self).spec_len(),
            parent < r,
            final(self).parents() == old(self).parents().push(Some(parent)),
            final(self).locals() == old(self).locals().push(
                Iso3 { rotation: crate::geom::quat_identity_s(), translation: relative },
            ),
            old(self).wf() ==> final(self).wf(),
    {
        self.attach_with(relative, parent, ())
    }
}

impl<D> Default for Skelly<D> {
    fn default() -> (r: Self)
        ensures
            r.spec_len() == 0,
            r.wf(),
    {
        Skelly::new()
    }
}

/// A tree-shaped array of local transforms, index-aligned with the
/// skelly it was created from but stored independently, so several
/// postures can animate one topology.
#[derive(Clone, Debug)]
pub struct Posture {
    joints: Vec<Iso3>,
}

impl Posture {
    /// The snapshot of local transforms.
    pub closed spec fn joints_seq(self) -> Seq<Iso3> {
        self.joints@
    }

    pub open spec fn spec_len(self) -> nat {
        self.joints_seq().len()
    }

    /// Returns a new posture copying the skelly's current local
    /// transforms.
    pub fn new<D>(skelly: &Skelly<D>) -> (r: Posture)
        ensures
            r.joints_seq() == skelly.locals(),
            r.spec_len() == skelly.spec_len(),
    {
        let n = skelly.bones.len();
        let mut joints: Vec<Iso3> = Vec::new();
        let mut index: usize = 0;
        while index < n
            invariant
                n == skelly.spec_len(),
                index <= n,
                joints@ == skelly.locals().take(index as int),
            decreases n - index,
        {
            joints.push(skelly.bones[index].isometry);
            proof {
                assert(joints@ =~= skelly.locals().take(index + 1));
            }
            index += 1;
        }
        proof {
            assert(skelly.locals().take(n as int) =~= skelly.locals());
        }
        Posture { joints }
    }

    /// Whether the posture still matches the skelly's bone count (the
    /// only compatibility that is checked).
    pub fn is_compatible<D>(&self, skelly: &Skelly<D>) -> (r: bool)
        ensures
            r == (self.spec_len() == skelly.spec_len()),
    {
        self.joints.len() == skelly.len()
    }

    /// Rotates the joint about its own origin (right-multiplication).
    pub fn append_rotation(&mut self, bone: usize, rotation: Quat)
        requires
            bone < old(self).spec_len(),
        ensures
            final(self).joints_seq() == old(self).joints_seq().update(
                bone as int,
                iso_rotated_s(old(self).joints_seq()[bone as int], rotation),
            ),
    {
        let iso = self.joints[bone];
        self.joints[bone] = iso.rotated_by(rotation);
    }

    /// Rotates the joint within its parent's frame (left-multiplication).
    pub fn prepend_rotation(&mut self, bone: usize, rotation: Quat)
        requires
            bone < old(self).spec_len(),
        ensures
            final(self).joints_seq() == old(self).joints_seq().update(
                bone as int,
                iso_prerotated_s(old(self).joints_seq()[bone as int], rotation),
            ),
    {
        let iso = self.joints[bone];
        self.joints[bone] = iso.prerotated_by(rotation);
    }

    /// Translates the joint relative to its parent.
    pub fn append_translation(&mut self, bone: usize, translation: Vec3)
        requires
            bone < old(self).spec_len(),
        ensures
            final(self).joints_seq() == old(self).joints_seq().update(
                bone as int,
                iso_translated_s(old(self).joints_seq()[bone as int], translation),
            ),
    {
        let iso = self.joints[bone];
        self.joints[bone] = iso.translated_by(translation);
    }

    /// Replaces the joint's position relative to its parent.
    pub fn set_position(&mut self, bone: usize, position: Vec3)
        requires
            bone < old(self).spec_len(),
        ensures
            final(self).joints_seq() == old(self).joints_seq().update(
                bone as int,
                Iso3 {
                    rotation: old(self).joints_seq()[bone as int].rotation,
                    translation: position,
                },
            ),
    {
        let iso = self.joints[bone];
        self.joints[bone] = Iso3 { rotation: iso.rotation, translation: position };
    }

    /// The joint's current position relative to its parent.
    pub fn get_position(&self, bone: usize) -> (r: Vec3)
        requires
            bone < self.spec_len(),
        ensures
            r == self.joints_seq()[bone as int].translation,
    {
        self.joints[bone].translation
    }

    /// Replaces the joint's orientation relative to its parent.
    pub fn set_orientation(&mut self, bone: usize, orientation: Quat)
        requires
            bone < old(self).spec_len(),
        ensures
            final(self).joints_seq() == old(self).joints_seq().update(
                bone as int,
                Iso3 {
                    rotation: orientation,
                    translation: old(self).joints_seq()[bone as int].translation,
                },
            ),
    {
        let iso = self.joints[bone];
        self.joints[bone] = Iso3 { rotation: orientation, translation: iso.translation };
    }

    /// The joint's current orientation relative to its parent.
    pub fn get_orientation(&self, bone: usize) -> (r: Quat)
        requires
            bone < self.spec_len(),
        ensures
            r == self.joints_seq()[bone as int].rotation,
    {
        self.joints[bone].rotation
    }

    /// The joint's current transform relative to its parent.
    pub fn get_isometry(&self, bone: usize) -> (r: Iso3)
        requires
            bone < self.spec_len(),
        ensures
            r == self.joints_seq()[bone as int],
    {
        self.joints[bone]
    }

    /// Fills the buffer with global transforms for each bone of the
    /// skelly in this posture: topology from the skelly, local
    /// transforms from the posture.
    pub fn write_globals<D>(&self, skelly: &Skelly<D>, skelly_global: &Iso3, globals: &mut Vec<Iso3>)
        requires
            skelly.wf(),
            self.spec_len() == skelly.spec_len(),
        ensures
            final(globals)@ == globals_written(
                old(globals)@,
                skelly.parents(),
                self.joints_seq(),
                *skelly_global,
            ),
    {
        let n = skelly.bones.len();
        let count = if globals.len() < n {
            globals.len()
        } else {
            n
        };
        let mut index: usize = 0;
        while index < count
            invariant
                count <= globals@.len(),
                count <= skelly.spec_len(),
                index <= count,
                globals@.len() == old(globals)@.len(),
                self.spec_len() == skelly.spec_len(),
                skelly.wf(),
                forall|j: int| 0 <= j < index ==> globals@[j] == fk_at(
                    skelly.parents(),
                    self.joints_seq(),
                    *skelly_global,
                    j,
                ),
                forall|j: int| index <= j < globals@.len() ==> globals@[j] == old(globals)@[j],
            decreases count - index,
        {
            proof {
                assert(parent_ok(skelly.parents(), index as int));
            }
            let iso = self.joints[index];
            let g = match skelly.bones[index].parent {
                Some(parent) => globals[parent].compose(iso),
                None => skelly_global.compose(iso),
            };
            globals[index] = g;
            index += 1;
        }
        proof {
            assert(final(globals)@ =~= globals_written(
                old(globals)@,
                skelly.parents(),
                self.joints_seq(),
                *skelly_global,
            ));
        }
    }
}

} // verus!
