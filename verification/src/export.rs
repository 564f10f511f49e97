//! Exporter-side channel and skeleton logic.
//!
//! Decoded clips become interchange animation channels here: per bone, one
//! translation channel (synthesized from the rest pose when no position
//! samples exist — a channel must never be empty) and one rotation channel
//! built by seeding every frame with the node's rest rotation, then
//! overwriting with decoded quaternion samples where present, else with the
//! z-rotation samples (which win where both exist).  Quaternion values
//! arrive already converted and weighted by the front end, as bit patterns.
//! The skeleton side orders a transform table's children by name under
//! their parent.

use vstd::prelude::*;

use crate::scene::{Quat, Vector3};
use crate::symbols::{spec_str_lt, str_eq, str_lt};

verus! {

/// One transformable scene object: its name and its parent reference (a
/// lookup relation, never an ownership pointer).  A mesh with no faces
/// counts as a bone.
#[derive(Debug)]
pub struct TransEntry {
    pub name: String,
    pub parent: String,
}

/// The translation track of one bone: its decoded position samples, or —
/// so the channel is never empty — one sample holding the node's current
/// translation.
pub fn build_translation_track(node_translation: Vector3, pos: &Option<Vec<Vector3>>) -> (r: Vec<
    Vector3,
>)
    ensures
        match pos {
            Some(vals) => vals@.len() > 0 ==> r@ == vals@,
            None => r@ =~= seq![node_translation],
        },
        (match pos {
            Some(vals) => vals@.len() == 0,
            None => false,
        }) ==> r@ =~= seq![node_translation],
        r@.len() > 0,
{
    match pos {
        Some(vals) => {
            if vals.len() == 0 {
                let mut out: Vec<Vector3> = Vec::new();
                out.push(node_translation);
                out
            } else {
                let mut out: Vec<Vector3> = Vec::new();
                let mut i: usize = 0;
                while i < vals.len()
                    invariant
                        i <= vals@.len(),
                        out@ == vals@.take(i as int),
                    decreases vals@.len() - i,
                {
                    out.push(vals[i]);
                    i = i + 1;
                    proof {
                        assert(out@ =~= vals@.take(i as int));
                    }
                }
                proof {
                    assert(vals@.take(vals@.len() as int) =~= vals@);
                }
                out
            }
        },
        None => {
            let mut out: Vec<Vector3> = Vec::new();
            out.push(node_translation);
            out
        },
    }
}

/// Number of frames a combined rotation track covers: the longest of the
/// quaternion, z-rotation and position sample arrays.
pub open spec fn spec_rotation_len(
    quat: Option<Vec<Quat>>,
    rotz: Option<Vec<Quat>>,
    pos_len: int,
) -> int {
    let q: int = match quat {
        Some(v) => v@.len() as int,
        None => 0,
    };
    let z: int = match rotz {
        Some(v) => v@.len() as int,
        None => 0,
    };
    vstd::math::max(vstd::math::max(q, z), pos_len)
}

/// The rotation value of frame `f`: the z-rotation sample where one
/// exists, else the quaternion sample, else the rest rotation.
pub open spec fn spec_rotation_at(
    rest: Quat,
    quat: Option<Vec<Quat>>,
    rotz: Option<Vec<Quat>>,
    f: int,
) -> Quat {
    let from_quat: Quat = match quat {
        Some(v) => if f < v@.len() {
            v@[f]
        } else {
            rest
        },
        None => rest,
    };
    match rotz {
        Some(v) => if f < v@.len() {
            v@[f]
        } else {
            from_quat
        },
        None => from_quat,
    }
}

/// Builds the combined rotation track of one bone: every frame starts at
/// the node's rest rotation, decoded quaternion samples overwrite their
/// frames, and z-rotation samples (already turned into quaternions by the
/// front end) overwrite theirs last, winning where both exist.
pub fn build_rotation_track(
    rest: Quat,
    quat: &Option<Vec<Quat>>,
    rotz: &Option<Vec<Quat>>,
    pos_len: usize,
) -> (r: Vec<Quat>)
    ensures
        r@.len() == spec_rotation_len(*quat, *rotz, pos_len as int),
        forall|f: int|
            0 <= f < r@.len() ==> #[trigger] r@[f] == spec_rotation_at(rest, *quat, *rotz, f),
{
    let q_len: usize = match quat {
        Some(v) => v.len(),
        None => 0,
    };
    let z_len: usize = match rotz {
        Some(v) => v.len(),
        None => 0,
    };
    let mut n: usize = q_len;
    if z_len > n {
        n = z_len;
    }
    if pos_len > n {
        n = pos_len;
    }
    let mut out: Vec<Quat> = Vec::new();
    let mut f: usize = 0;
    while f < n
        invariant
            f <= n,
            out@.len() == f,
            q_len == (match quat {
                Some(v) => v@.len() as int,
                None => 0int,
            }),
            z_len == (match rotz {
                Some(v) => v@.len() as int,
                None => 0int,
            }),
            forall|g: int|
                0 <= g < f ==> #[trigger] out@[g] == spec_rotation_at(rest, *quat, *rotz, g),
        decreases n - f,
    {
        let mut value = rest;
        if let Some(v) = quat {
            if f < v.len() {
                value = v[f];
            }
        }
        if let Some(v) = rotz {
            if f < v.len() {
                value = v[f];
            }
        }
        out.push(value);
        f = f + 1;
    }
    out
}

/// Indices of the entries whose parent is `parent_name` (a self-reference
/// never counts as a child), in ascending name order.
pub fn get_child_nodes(parent_name: &str, entries: &Vec<TransEntry>) -> (r: Vec<usize>)
    ensures
        forall|i: int|
            0 <= i < r@.len() ==> {
                let e = #[trigger] r@[i];
                &&& e < entries@.len()
                &&& entries@[e as int].parent@ == parent_name@
                &&& entries@[e as int].name@ != entries@[e as int].parent@
            },
        forall|a: int, b: int|
            0 <= a < b < r@.len() ==> !(#[trigger] spec_str_lt(
                entries@[r@[b] as int].name@,
                entries@[r@[a] as int].name@,
            )),
        forall|k: int|
            0 <= k < entries@.len() && (#[trigger] entries@[k].parent@) == parent_name@
                && entries@[k].name@ != entries@[k].parent@ ==> r@.contains(k as usize),
{
    let mut out: Vec<usize> = Vec::new();
    let mut k: usize = 0;
    while k < entries.len()
        invariant
            k <= entries@.len(),
            forall|i: int|
                0 <= i < out@.len() ==> {
                    let e = #[trigger] out@[i];
                    &&& e < entries@.len()
                    &&& entries@[e as int].parent@ == parent_name@
                    &&& entries@[e as int].name@ != entries@[e as int].parent@
                },
            forall|a: int, b: int|
                0 <= a < b < out@.len() ==> !(#[trigger] spec_str_lt(
                    entries@[out@[b] as int].name@,
                    entries@[out@[a] as int].name@,
                )),
            forall|m: int|
                0 <= m < k && (#[trigger] entries@[m].parent@) == parent_name@
                    && entries@[m].name@ != entries@[m].parent@ ==> out@.contains(m as usize),
        decreases entries@.len() - k,
    {
        let e = &entries[k];
        if str_eq(e.parent.as_str(), parent_name) && !str_eq(e.name.as_str(), e.parent.as_str()) {
            let mut p: usize = 0;
            while p < out.len() && str_lt(
                entries[out[p]].name.as_str(),
                entries[k].name.as_str(),
            )
                invariant
                    p <= out@.len(),
                    k < entries@.len(),
                    forall|i: int| 0 <= i < out@.len() ==> (#[trigger] out@[i]) < entries@.len(),
                    forall|j: int|
                        0 <= j < p ==> #[trigger] spec_str_lt(
                            entries@[out@[j] as int].name@,
                            entries@[k as int].name@,
                        ),
                decreases out@.len() - p,
            {
                p = p + 1;
            }
            let ghost pre = out@;
            let ghost px = p as int;
            out.insert(p, k);
            proof {
                assert forall|a: int, b: int|
                    0 <= a < b < out@.len() implies !(#[trigger] spec_str_lt(
                    entries@[out@[b] as int].name@,
                    entries@[out@[a] as int].name@,
                )) by {
                    if b < px {
                        assert(out@[a] == pre[a] && out@[b] == pre[b]);
                    } else if a < px && b == px {
                        assert(out@[a] == pre[a] && out@[b] == k);
                        lemma_names_asym(entries@[pre[a] as int].name@, entries@[k as int].name@);
                    } else if a < px && b > px {
                        assert(out@[a] == pre[a] && out@[b] == pre[b - 1]);
                    } else if a == px && b > px {
                        assert(out@[a] == k && out@[b] == pre[b - 1]);
                        if spec_str_lt(
                            entries@[pre[b - 1] as int].name@,
                            entries@[k as int].name@,
                        ) {
                            assert(!spec_str_lt(
                                entries@[pre[px] as int].name@,
                                entries@[k as int].name@,
                            ));
                            crate::symbols::lemma_str_lt_connected(
                                entries@[pre[px] as int].name@,
                                entries@[k as int].name@,
                            );
                            if spec_str_lt(
                                entries@[k as int].name@,
                                entries@[pre[px] as int].name@,
                            ) {
                                crate::symbols::lemma_str_lt_trans(
                                    entries@[pre[b - 1] as int].name@,
                                    entries@[k as int].name@,
                                    entries@[pre[px] as int].name@,
                                );
                            } else {
                                assert(entries@[pre[px] as int].name@ =~= entries@[
                                k as int].name@);
                            }
                            assert(!spec_str_lt(
                                entries@[pre[b - 1] as int].name@,
                                entries@[pre[px] as int].name@,
                            ));
                            assert(false);
                        }
                    } else {
                        assert(out@[a] == pre[a - 1] && out@[b] == pre[b - 1]);
                    }
                }
                assert forall|m: int|
                    0 <= m < k + 1 && (#[trigger] entries@[m].parent@) == parent_name@
                        && entries@[m].name@ != entries@[m].parent@ implies out@.contains(
                    m as usize,
                ) by {
                    if m < k {
                        let i = choose|i: int|
                            0 <= i < pre.len() && #[trigger] pre[i] == m as usize;
                        if i < px {
                            assert(out@[i] == m as usize);
                        } else {
                            assert(out@[i + 1] == m as usize);
                        }
                    } else {
                        assert(out@[px] == m as usize);
                    }
                }
            }
        } else {
            proof {
                assert forall|m: int|
                    0 <= m < k + 1 && (#[trigger] entries@[m].parent@) == parent_name@
                        && entries@[m].name@ != entries@[m].parent@ implies out@.contains(
                    m as usize,
                ) by {}
            }
        }
        k = k + 1;
    }
    out
}

/// Roots of the bone forest under a directory: the entries whose parent is
/// the directory's own name, in name order.
pub fn find_bones(dir_name: &str, entries: &Vec<TransEntry>) -> (r: Vec<usize>)
    ensures
        forall|i: int|
            0 <= i < r@.len() ==> {
                let e = #[trigger] r@[i];
                &&& e < entries@.len()
                &&& entries@[e as int].parent@ == dir_name@
                &&& entries@[e as int].name@ != entries@[e as int].parent@
            },
        forall|a: int, b: int|
            0 <= a < b < r@.len() ==> !(#[trigger] spec_str_lt(
                entries@[r@[b] as int].name@,
                entries@[r@[a] as int].name@,
            )),
        forall|k: int|
            0 <= k < entries@.len() && (#[trigger] entries@[k].parent@) == dir_name@
                && entries@[k].name@ != entries@[k].parent@ ==> r@.contains(k as usize),
{
    get_child_nodes(dir_name, entries)
}

/// No two names order strictly below each other.
proof fn lemma_names_asym(a: Seq<char>, b: Seq<char>)
    ensures
        !(spec_str_lt(a, b) && spec_str_lt(b, a)),
{
    if spec_str_lt(a, b) && spec_str_lt(b, a) {
        crate::symbols::lemma_str_lt_trans(a, b, a);
        lemma_str_lt_irrefl2(a);
    }
}

/// The order is irreflexive.
proof fn lemma_str_lt_irrefl2(a: Seq<char>)
    ensures
        !spec_str_lt(a, a),
    decreases a.len(),
{
    if a.len() > 0 {
        lemma_str_lt_irrefl2(a.skip(1));
    }
}

} // verus!
