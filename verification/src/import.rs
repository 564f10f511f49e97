//! The interchange importer: derives animation clips and the legacy bone
//! hierarchy from a scene document.
//!
//! The document arrives as plain data — nodes with names, child indices,
//! decomposed rest transforms and accumulated matrices (all floats as bit
//! patterns), skin joint lists and per-channel animation outputs.  Walking
//! the interchange file itself, decoding its buffers and multiplying
//! matrices is front-end work; every decision made on the plain data is
//! verified here.

use vstd::prelude::*;

use crate::char_bone::CharBone;
use crate::char_bones_samples::{
    spec_sample_count, CharBoneSample, CharBonesSamples, EncodedSamples, QuatSample, Vec3Sample,
};
use crate::char_clip_samples::CharClipSamples;
use crate::scene::{Matrix, Quat, Vector3, ONE_BITS};
use crate::symbols::{spec_str_lt, str_eq, str_lt};

verus! {

/// One scene node: its name, child indices, whether it carries a mesh, its
/// rest-pose translation and rotation, its local transform, and its world
/// transform accumulated from the scene root (seeded with the fixed
/// change-of-basis matrix by the front end).
#[derive(Debug)]
pub struct SceneNode {
    pub name: Option<String>,
    pub children: Vec<usize>,
    pub has_mesh: bool,
    pub translation: Vector3,
    pub rotation: Quat,
    pub local_xfm: Matrix,
    pub world_xfm: Matrix,
}

/// Which transform property an animation channel drives.
#[derive(Clone, Copy, Debug, PartialEq, Eq, Structural)]
pub enum ChannelProperty {
    Translation,
    Rotation,
    Scale,
    Other,
}

/// One animation channel: its target node, the property it drives and its
/// sampled outputs (three-component or quaternion, by property).
#[derive(Debug)]
pub struct ChannelData {
    pub target: usize,
    pub property: ChannelProperty,
    pub vec3_outputs: Vec<Vector3>,
    pub quat_outputs: Vec<Quat>,
}

/// One animation: its name, if any, and its channels.
#[derive(Debug)]
pub struct AnimData {
    pub name: Option<String>,
    pub channels: Vec<ChannelData>,
}

/// A scene document reduced to plain data.
#[derive(Debug)]
pub struct SceneDoc {
    pub nodes: Vec<SceneNode>,
    pub has_default_scene: bool,
    pub root_nodes: Vec<usize>,
    pub skins: Vec<Vec<usize>>,
    pub animations: Vec<AnimData>,
}

/// A name map from node indices to base symbols.
#[derive(Debug)]
pub struct SceneHelper {
    pub names: Vec<Option<String>>,
}

/// What an import pass produces: the bones of the skeleton hierarchy and
/// one clip per source animation.
#[derive(Debug)]
pub struct MiloAssets {
    pub char_bones: Vec<CharBone>,
    pub char_clip_samples: Vec<CharClipSamples>,
}

/// All node, joint and channel-target indices point inside the node list;
/// translation and rotation channels carry at least one output and at most
/// the frame-count limit.
pub open spec fn spec_doc_wf(doc: SceneDoc) -> bool {
    &&& forall|i: int, j: int|
        0 <= i < doc.nodes@.len() && 0 <= j < doc.nodes@[i].children@.len()
            ==> (#[trigger] doc.nodes@[i].children@[j]) < doc.nodes@.len()
    &&& forall|i: int|
        0 <= i < doc.root_nodes@.len() ==> (#[trigger] doc.root_nodes@[i]) < doc.nodes@.len()
    &&& forall|s: int, j: int|
        0 <= s < doc.skins@.len() && 0 <= j < doc.skins@[s]@.len() ==> (#[trigger] doc.skins@[
        s]@[j]) < doc.nodes@.len()
    &&& forall|a: int, c: int|
        0 <= a < doc.animations@.len() && 0 <= c < doc.animations@[a].channels@.len() ==> {
            let ch = #[trigger] doc.animations@[a].channels@[c];
            &&& ch.target < doc.nodes@.len()
            &&& (ch.property is Translation ==> 1 <= ch.vec3_outputs@.len() <= 0x100_0000)
            &&& (ch.property is Rotation ==> 1 <= ch.quat_outputs@.len() <= 0x100_0000)
        }
}

/// The names a bone may never carry: such a node and its whole subtree are
/// pruned from the active bone set.
pub fn is_ignored_name(name: &str) -> (r: bool)
    ensures
        r == (name@ == "bone_pos_guitar.mesh"@ || name@ == "spot_ui.mesh"@),
{
    str_eq(name, "bone_pos_guitar.mesh") || str_eq(name, "spot_ui.mesh")
}

/// Whether the node's own name stands on the ignore list.
pub open spec fn spec_node_name_ignored(doc: SceneDoc, node: int) -> bool {
    match doc.nodes@[node].name {
        Some(n) => n@ == "bone_pos_guitar.mesh"@ || n@ == "spot_ui.mesh"@,
        None => false,
    }
}

/// Membership in the pruned set of one subtree walk with `fuel` levels of
/// descent left: a visited node is collected when it, or an ancestor along
/// the walk (`flag`), is ignored by name.  A walk seeded with the node
/// count covers every node of a well-formed scene forest.
pub open spec fn spec_collects(doc: SceneDoc, node: int, flag: bool, fuel: int, x: usize) -> bool
    decreases fuel,
{
    if fuel <= 0 || !(0 <= node < doc.nodes@.len()) {
        false
    } else {
        let f2 = flag || spec_node_name_ignored(doc, node);
        (x == node as usize && f2) || (exists|j: int|
            0 <= j < doc.nodes@[node].children@.len() && spec_collects(
                doc,
                #[trigger] doc.nodes@[node].children@[j] as int,
                f2,
                fuel - 1,
                x,
            ))
    }
}

/// Collects, depth first with `fuel` levels of descent left, exactly the
/// nodes that [`spec_collects`] describes under this node.
fn collect_ignored(doc: &SceneDoc, node: usize, flag: bool, fuel: usize) -> (r: Vec<usize>)
    requires
        spec_doc_wf(*doc),
        node < doc.nodes@.len(),
    ensures
        forall|x: usize| #[trigger]
            r@.contains(x) <==> spec_collects(*doc, node as int, flag, fuel as int, x),
        forall|i: int| 0 <= i < r@.len() ==> (#[trigger] r@[i]) < doc.nodes@.len(),
    decreases fuel,
{
    let mut out: Vec<usize> = Vec::new();
    if fuel == 0 {
        proof {
            assert(forall|x: usize| !out@.contains(x));
        }
        return out;
    }
    let name_ignored = match &doc.nodes[node].name {
        Some(nm) => is_ignored_name(nm.as_str()),
        None => false,
    };
    let f2 = flag || name_ignored;
    if f2 {
        out.push(node);
    }
    proof {
        assert forall|x: usize| #[trigger] out@.contains(x) <==> (x == node && f2) by {
            if out@.contains(x) {
                let i = choose|i: int| 0 <= i < out@.len() && out@[i] == x;
            }
            if x == node && f2 {
                assert(out@[0] == x);
            }
        }
    }
    let child_count = doc.nodes[node].children.len();
    let mut j: usize = 0;
    while j < child_count
        invariant
            spec_doc_wf(*doc),
            node < doc.nodes@.len(),
            fuel >= 1,
            child_count == doc.nodes@[node as int].children@.len(),
            j <= child_count,
            f2 == (flag || spec_node_name_ignored(*doc, node as int)),
            forall|i: int| 0 <= i < out@.len() ==> (#[trigger] out@[i]) < doc.nodes@.len(),
            forall|x: usize| #[trigger]
                out@.contains(x) <==> ((x == node && f2) || exists|jj: int|
                    0 <= jj < j && spec_collects(
                        *doc,
                        #[trigger] doc.nodes@[node as int].children@[jj] as int,
                        f2,
                        fuel - 1,
                        x,
                    )),
        decreases child_count - j,
    {
        let child = doc.nodes[node].children[j];
        let mut sub = collect_ignored(doc, child, f2, fuel - 1);
        let ghost pre = out@;
        let ghost subv = sub@;
        out.append(&mut sub);
        j = j + 1;
        proof {
            assert forall|x: usize| #[trigger]
                out@.contains(x) <==> ((x == node && f2) || exists|jj: int|
                    0 <= jj < j && spec_collects(
                        *doc,
                        #[trigger] doc.nodes@[node as int].children@[jj] as int,
                        f2,
                        fuel - 1,
                        x,
                    )) by {
                assert(out@ == pre + subv);
                if out@.contains(x) {
                    let i = choose|i: int| 0 <= i < out@.len() && out@[i] == x;
                    if i < pre.len() {
                        assert(pre[i] == x);
                        assert(pre.contains(x));
                    } else {
                        assert(subv[i - pre.len()] == x);
                        assert(subv.contains(x));
                        assert(spec_collects(*doc, child as int, f2, fuel - 1, x));
                        assert(doc.nodes@[node as int].children@[j - 1] == child);
                    }
                }
                if pre.contains(x) {
                    let i = choose|i: int| 0 <= i < pre.len() && pre[i] == x;
                    assert(out@[i] == x);
                    assert(out@.contains(x));
                }
                if subv.contains(x) {
                    let i = choose|i: int| 0 <= i < subv.len() && subv[i] == x;
                    assert(out@[pre.len() + i] == x);
                    assert(out@.contains(x));
                }
                if exists|jj: int|
                    0 <= jj < j && spec_collects(
                        *doc,
                        #[trigger] doc.nodes@[node as int].children@[jj] as int,
                        f2,
                        fuel - 1,
                        x,
                    ) {
                    let jj = choose|jj: int|
                        0 <= jj < j && spec_collects(
                            *doc,
                            #[trigger] doc.nodes@[node as int].children@[jj] as int,
                            f2,
                            fuel - 1,
                            x,
                        );
                    if jj < j - 1 {
                        assert(pre.contains(x));
                    } else {
                        assert(doc.nodes@[node as int].children@[jj] == child);
                        assert(subv.contains(x));
                    }
                }
            }
        }
    }
    proof {
        assert forall|x: usize| #[trigger]
            out@.contains(x) <==> spec_collects(*doc, node as int, flag, fuel as int, x) by {
            assert(spec_collects(*doc, node as int, flag, fuel as int, x) == ((x == node && f2)
                || exists|jj: int|
                0 <= jj < doc.nodes@[node as int].children@.len() && spec_collects(
                    *doc,
                    #[trigger] doc.nodes@[node as int].children@[jj] as int,
                    f2,
                    (fuel - 1) as int,
                    x,
                )));
        }
    }
    out
}

/// Collects the node and all its descendants when the node is ignored (by
/// flag or by name); otherwise exactly the ignored subtrees below it, each
/// returned entirely, its root included.
pub fn find_chidren_of_ignored_bones(doc: &SceneDoc, node: usize, is_ignored: bool) -> (r: Vec<
    usize,
>)
    requires
        spec_doc_wf(*doc),
        node < doc.nodes@.len(),
    ensures
        forall|i: int| 0 <= i < r@.len() ==> (#[trigger] r@[i]) < doc.nodes@.len(),
        forall|x: usize| #[trigger]
            r@.contains(x) <==> spec_collects(
                *doc,
                node as int,
                is_ignored,
                doc.nodes@.len() as int,
                x,
            ),
{
    collect_ignored(doc, node, is_ignored, doc.nodes.len())
}

/// Whether `v` holds `x`.
fn contains_usize(v: &Vec<usize>, x: usize) -> (r: bool)
    ensures
        r == v@.contains(x),
{
    let mut i: usize = 0;
    while i < v.len()
        invariant
            i <= v@.len(),
            forall|j: int| 0 <= j < i ==> v@[j] != x,
        decreases v@.len() - i,
    {
        if v[i] == x {
            proof {
                assert(v@.contains(x));
            }
            return true;
        }
        i = i + 1;
    }
    proof {
        assert(!v@.contains(x)) by {
            if v@.contains(x) {
                let w = choose|w: int| 0 <= w < v@.len() && #[trigger] v@[w] == x;
            }
        }
    }
    false
}

/// A node lies in an ignored subtree of the scene: some named root's walk
/// collects it.
pub open spec fn spec_ignored_from_roots(doc: SceneDoc, x: usize) -> bool {
    exists|ri: int|
        0 <= ri < doc.root_nodes@.len() && doc.nodes@[#[trigger] doc.root_nodes@[
            ri] as int].name is Some && spec_collects(
            doc,
            doc.root_nodes@[ri] as int,
            false,
            doc.nodes@.len() as int,
            x,
        )
}

/// Membership in the active bone set: a first-skin joint with at least one
/// child that lies in no ignored subtree.
pub open spec fn spec_active_bone(doc: SceneDoc, b: usize) -> bool {
    &&& doc.skins@.len() > 0
    &&& doc.skins@[0]@.contains(b)
    &&& b < doc.nodes@.len()
    &&& doc.nodes@[b as int].children@.len() > 0
    &&& !spec_ignored_from_roots(doc, b)
}

/// The active bone set: the first skin's joints, without joints that have
/// no children and without ignored subtrees.  A joint with zero children is
/// never active, and an ignored subtree is pruned entirely, its root
/// included.
pub fn active_bone_ids(doc: &SceneDoc) -> (r: Vec<usize>)
    requires
        spec_doc_wf(*doc),
    ensures
        forall|x: usize| #[trigger] r@.contains(x) <==> spec_active_bone(*doc, x),
        forall|i: int| 0 <= i < r@.len() ==> spec_active_bone(*doc, #[trigger] r@[i]),
{
    if doc.skins.len() == 0 {
        let out: Vec<usize> = Vec::new();
        proof {
            assert(forall|x: usize| !out@.contains(x));
        }
        return out;
    }
    let mut ignored: Vec<usize> = Vec::new();
    let mut ri: usize = 0;
    proof {
        assert(forall|x: usize| !ignored@.contains(x));
    }
    while ri < doc.root_nodes.len()
        invariant
            spec_doc_wf(*doc),
            ri <= doc.root_nodes@.len(),
            forall|x: usize| #[trigger]
                ignored@.contains(x) <==> exists|rj: int|
                    0 <= rj < ri && doc.nodes@[#[trigger] doc.root_nodes@[
                        rj] as int].name is Some && spec_collects(
                        *doc,
                        doc.root_nodes@[rj] as int,
                        false,
                        doc.nodes@.len() as int,
                        x,
                    ),
        decreases doc.root_nodes@.len() - ri,
    {
        let root = doc.root_nodes[ri];
        let named = doc.nodes[root].name.is_some();
        let ghost pre = ignored@;
        if named {
            let mut sub = find_chidren_of_ignored_bones(doc, root, false);
            let ghost subv = sub@;
            ignored.append(&mut sub);
            proof {
                assert forall|x: usize| #[trigger]
                    ignored@.contains(x) <==> (pre.contains(x) || subv.contains(x)) by {
                    assert(ignored@ == pre + subv);
                    if ignored@.contains(x) {
                        let i = choose|i: int| 0 <= i < ignored@.len() && ignored@[i] == x;
                        if i < pre.len() {
                            assert(pre[i] == x);
                        } else {
                            assert(subv[i - pre.len()] == x);
                        }
                    }
                    if pre.contains(x) {
                        let i = choose|i: int| 0 <= i < pre.len() && pre[i] == x;
                        assert(ignored@[i] == x);
                    }
                    if subv.contains(x) {
                        let i = choose|i: int| 0 <= i < subv.len() && subv[i] == x;
                        assert(ignored@[pre.len() + i] == x);
                    }
                }
            }
        }
        ri = ri + 1;
        proof {
            assert forall|x: usize| #[trigger]
                ignored@.contains(x) <==> exists|rj: int|
                    0 <= rj < ri && doc.nodes@[#[trigger] doc.root_nodes@[
                        rj] as int].name is Some && spec_collects(
                        *doc,
                        doc.root_nodes@[rj] as int,
                        false,
                        doc.nodes@.len() as int,
                        x,
                    ) by {
                if ignored@.contains(x) {
                } else {
                    if exists|rj: int|
                        0 <= rj < ri && doc.nodes@[#[trigger] doc.root_nodes@[
                            rj] as int].name is Some && spec_collects(
                            *doc,
                            doc.root_nodes@[rj] as int,
                            false,
                            doc.nodes@.len() as int,
                            x,
                        ) {
                        let rj = choose|rj: int|
                            0 <= rj < ri && doc.nodes@[#[trigger] doc.root_nodes@[
                                rj] as int].name is Some && spec_collects(
                                *doc,
                                doc.root_nodes@[rj] as int,
                                false,
                                doc.nodes@.len() as int,
                                x,
                            );
                        assert(rj == ri - 1 || rj < ri - 1);
                    }
                }
            }
        }
    }
    let skin = &doc.skins[0];
    let mut out: Vec<usize> = Vec::new();
    let mut ji: usize = 0;
    while ji < skin.len()
        invariant
            spec_doc_wf(*doc),
            doc.skins@.len() > 0,
            skin == doc.skins@[0],
            ji <= skin@.len(),
            forall|x: usize| #[trigger]
                ignored@.contains(x) <==> spec_ignored_from_roots(*doc, x),
            forall|x: usize| #[trigger]
                out@.contains(x) <==> (doc.skins@[0]@.take(ji as int).contains(x)
                    && x < doc.nodes@.len() && doc.nodes@[x as int].children@.len() > 0
                    && !spec_ignored_from_roots(*doc, x)),
        decreases skin@.len() - ji,
    {
        let j = skin[ji];
        let ghost pre = out@;
        if doc.nodes[j].children.len() > 0 && !contains_usize(&ignored, j) {
            out.push(j);
        }
        ji = ji + 1;
        proof {
            assert(doc.skins@[0]@[ji - 1] == j);
            assert forall|x: usize| #[trigger]
                out@.contains(x) <==> (doc.skins@[0]@.take(ji as int).contains(x)
                    && x < doc.nodes@.len() && doc.nodes@[x as int].children@.len() > 0
                    && !spec_ignored_from_roots(*doc, x)) by {
                let tk = doc.skins@[0]@.take(ji as int);
                assert(tk.drop_last() =~= doc.skins@[0]@.take(ji - 1));
                assert(tk.last() == j);
                if out@.contains(x) {
                    let i = choose|i: int| 0 <= i < out@.len() && out@[i] == x;
                    if i < pre.len() {
                        assert(pre[i] == x);
                        assert(pre.contains(x));
                        assert(doc.skins@[0]@.take(ji - 1).contains(x));
                        let p = choose|p: int|
                            0 <= p < ji - 1 && #[trigger] doc.skins@[0]@.take(ji - 1)[p] == x;
                        assert(tk[p] == x);
                        assert(tk.contains(x));
                    } else {
                        assert(out@[i] == j);
                        assert(tk[ji - 1] == x);
                        assert(tk.contains(x));
                    }
                }
                if tk.contains(x) && x < doc.nodes@.len() && doc.nodes@[
                    x as int].children@.len() > 0 && !spec_ignored_from_roots(*doc, x) {
                    let p = choose|p: int| 0 <= p < tk.len() && tk[p] == x;
                    if p < ji - 1 {
                        assert(doc.skins@[0]@.take(ji - 1)[p] == x);
                        assert(doc.skins@[0]@.take(ji - 1).contains(x));
                        assert(pre.contains(x));
                        let i = choose|i: int| 0 <= i < pre.len() && pre[i] == x;
                        assert(out@[i] == x);
                    } else {
                        assert(x == j);
                        assert(out@[out@.len() - 1] == x);
                    }
                }
            }
        }
    }
    proof {
        assert(doc.skins@[0]@.take(doc.skins@[0]@.len() as int) =~= doc.skins@[0]@);
        assert forall|i: int| 0 <= i < out@.len() implies spec_active_bone(
            *doc,
            #[trigger] out@[i],
        ) by {
            assert(out@.contains(out@[i]));
        }
    }
    out
}

/// Whether a sampled quaternion track changes after its first frame: a
/// track whose values are identical across all frames is static, not
/// time-varying.
pub fn quat_has_changes(outputs: &Vec<Quat>) -> (r: bool)
    requires
        outputs@.len() > 0,
    ensures
        r == exists|i: int| 0 < i < outputs@.len() && #[trigger] outputs@[i] != outputs@[0],
{
    let first = outputs[0];
    let mut i: usize = 1;
    while i < outputs.len()
        invariant
            1 <= i <= outputs@.len(),
            first == outputs@[0],
            forall|j: int| 0 < j < i ==> #[trigger] outputs@[j] == outputs@[0],
        decreases outputs@.len() - i,
    {
        if outputs[i] != first {
            return true;
        }
        i = i + 1;
    }
    false
}

/// As [`quat_has_changes`], for three-component tracks.
pub fn vec3_has_changes(outputs: &Vec<Vector3>) -> (r: bool)
    requires
        outputs@.len() > 0,
    ensures
        r == exists|i: int| 0 < i < outputs@.len() && #[trigger] outputs@[i] != outputs@[0],
{
    let first = outputs[0];
    let mut i: usize = 1;
    while i < outputs.len()
        invariant
            1 <= i <= outputs@.len(),
            first == outputs@[0],
            forall|j: int| 0 < j < i ==> #[trigger] outputs@[j] == outputs@[0],
        decreases outputs@.len() - i,
    {
        if outputs[i] != first {
            return true;
        }
        i = i + 1;
    }
    false
}

} // verus!

verus! {

/// The bit pattern of 2.5, the beat-per-second authoring constant.
pub const BEATS_PER_SEC_BITS: u32 = 0x4020_0000;

/// The play flag written on imported clips (real-time playback).
pub const PLAY_REAL_TIME: u32 = 512;

/// Sorts decoded bone samples by symbol: each element is inserted at its
/// ordered position, so no later element orders strictly below an earlier
/// one.
fn sort_samples_by_symbol(v: Vec<CharBoneSample>) -> (r: Vec<CharBoneSample>)
    ensures
        r@.len() == v@.len(),
        forall|i: int| 0 <= i < r@.len() ==> v@.contains(#[trigger] r@[i]),
        forall|x: CharBoneSample| #[trigger] v@.contains(x) ==> r@.contains(x),
        forall|a: int, b: int|
            0 <= a < b < r@.len() ==> !(#[trigger] spec_str_lt(r@[b].symbol@, r@[a].symbol@)),
{
    let ghost n0 = v@.len();
    let ghost v0 = v@;
    let mut v = v;
    let mut out: Vec<CharBoneSample> = Vec::new();
    while v.len() > 0
        invariant
            out@.len() + v@.len() == n0,
            forall|i: int| 0 <= i < v@.len() ==> v0.contains(#[trigger] v@[i]),
            forall|i: int| 0 <= i < out@.len() ==> v0.contains(#[trigger] out@[i]),
            forall|x: CharBoneSample| #[trigger]
                v0.contains(x) ==> out@.contains(x) || v@.contains(x),
            forall|a: int, b: int|
                0 <= a < b < out@.len() ==> !(#[trigger] spec_str_lt(
                    out@[b].symbol@,
                    out@[a].symbol@,
                )),
        decreases v@.len(),
    {
        let ghost v_pre = v@;
        let x = v.remove(v.len() - 1);
        proof {
            assert(x == v_pre[v_pre.len() - 1]);
            assert(v0.contains(x));
            assert forall|i: int| 0 <= i < v@.len() implies v0.contains(#[trigger] v@[i]) by {
                assert(v@[i] == v_pre[i]);
            }
        }
        let mut p: usize = 0;
        while p < out.len() && str_lt(out[p].symbol.as_str(), x.symbol.as_str())
            invariant
                p <= out@.len(),
                forall|j: int| 0 <= j < p ==> spec_str_lt((#[trigger] out@[j]).symbol@, x.symbol@),
            decreases out@.len() - p,
        {
            p = p + 1;
        }
        let ghost pre = out@;
        let ghost px = p as int;
        proof {
            if p < out@.len() {
                assert(!spec_str_lt(out@[px].symbol@, x.symbol@));
            }
        }
        out.insert(p, x);
        proof {
            assert forall|a: int, b: int|
                0 <= a < b < out@.len() implies !(#[trigger] spec_str_lt(
                out@[b].symbol@,
                out@[a].symbol@,
            )) by {
                if b < px {
                    assert(out@[a] == pre[a] && out@[b] == pre[b]);
                } else if a < px && b == px {
                    assert(out@[a] == pre[a] && out@[b].symbol@ == x.symbol@);
                    lemma_str_lt_asym(pre[a].symbol@, x.symbol@);
                } else if a < px && b > px {
                    assert(out@[a] == pre[a] && out@[b] == pre[b - 1]);
                } else if a == px && b > px {
                    assert(out@[a].symbol@ == x.symbol@ && out@[b] == pre[b - 1]);
                    if spec_str_lt(pre[b - 1].symbol@, x.symbol@) {
                        assert(!spec_str_lt(pre[px].symbol@, x.symbol@));
                        crate::symbols::lemma_str_lt_connected(pre[px].symbol@, x.symbol@);
                        if spec_str_lt(x.symbol@, pre[px].symbol@) {
                            crate::symbols::lemma_str_lt_trans(
                                pre[b - 1].symbol@,
                                x.symbol@,
                                pre[px].symbol@,
                            );
                            assert(!spec_str_lt(pre[b - 1].symbol@, pre[px].symbol@));
                        } else {
                            assert(pre[px].symbol@ =~= x.symbol@);
                            assert(!spec_str_lt(pre[b - 1].symbol@, pre[px].symbol@));
                        }
                        assert(false);
                    }
                } else {
                    assert(out@[a] == pre[a - 1] && out@[b] == pre[b - 1]);
                }
            }
            assert forall|y: CharBoneSample| #[trigger]
                v0.contains(y) implies out@.contains(y) || v@.contains(y) by {
                if pre.contains(y) {
                    let i = choose|i: int| 0 <= i < pre.len() && pre[i] == y;
                    if i < px {
                        assert(out@[i] == y);
                    } else {
                        assert(out@[i + 1] == y);
                    }
                    assert(out@.contains(y));
                } else if v_pre.contains(y) {
                    let i = choose|i: int| 0 <= i < v_pre.len() && v_pre[i] == y;
                    if i < v_pre.len() - 1 {
                        assert(v@[i] == y);
                        assert(v@.contains(y));
                    } else {
                        assert(y == x);
                        assert(out@[px] == y);
                        assert(out@.contains(y));
                    }
                }
            }
        }
    }
    proof {
        assert forall|x: CharBoneSample| #[trigger] v0.contains(x) implies out@.contains(x) by {
            if v@.contains(x) {
                let i = choose|i: int| 0 <= i < v@.len() && v@[i] == x;
            }
        }
    }
    out
}

/// The order is irreflexive, hence asymmetric.
proof fn lemma_str_lt_irrefl(a: Seq<char>)
    ensures
        !spec_str_lt(a, a),
    decreases a.len(),
{
    if a.len() > 0 {
        lemma_str_lt_irrefl(a.skip(1));
    }
}

/// No two names order strictly below each other.
proof fn lemma_str_lt_asym(a: Seq<char>, b: Seq<char>)
    ensures
        !(spec_str_lt(a, b) && spec_str_lt(b, a)),
{
    if spec_str_lt(a, b) && spec_str_lt(b, a) {
        crate::symbols::lemma_str_lt_trans(a, b, a);
        lemma_str_lt_irrefl(a);
    }
}

} // verus!

verus! {


/// The channel that wins for one (node, property) pair: the animation's
/// last channel targeting that node with that property — later channels
/// override earlier ones for the same target.
pub open spec fn spec_last_channel(anim: AnimData, b: usize, p: ChannelProperty, c: int) -> bool {
    &&& 0 <= c < anim.channels@.len()
    &&& (#[trigger] anim.channels@[c]).target == b
    &&& anim.channels@[c].property == p
    &&& forall|d: int|
        c < d < anim.channels@.len() ==> !((#[trigger] anim.channels@[d]).target == b
            && anim.channels@[d].property == p)
}

/// Some channel of the animation targets node `b` with property `p`.
pub open spec fn spec_has_channel(anim: AnimData, b: usize, p: ChannelProperty) -> bool {
    exists|c: int|
        0 <= c < anim.channels@.len() && (#[trigger] anim.channels@[c]).target == b
            && anim.channels@[c].property == p
}

/// A sampled quaternion track changes after its first frame.
pub open spec fn spec_quat_changes(outs: Seq<Quat>) -> bool {
    exists|i: int| 0 < i < outs.len() && #[trigger] outs[i] != outs[0]
}

/// A sampled three-component track changes after its first frame.
pub open spec fn spec_vec3_changes(outs: Seq<Vector3>) -> bool {
    exists|i: int| 0 < i < outs.len() && #[trigger] outs[i] != outs[0]
}

/// The winning rotation channel of the bone varies across frames.
pub open spec fn spec_rot_varying(anim: AnimData, b: usize) -> bool {
    exists|c: int| #[trigger]
        spec_last_channel(anim, b, ChannelProperty::Rotation, c) && spec_quat_changes(
            anim.channels@[c].quat_outputs@,
        )
}

/// The winning rotation channel of the bone holds one value on every frame.
pub open spec fn spec_rot_static(anim: AnimData, b: usize) -> bool {
    exists|c: int| #[trigger]
        spec_last_channel(anim, b, ChannelProperty::Rotation, c) && !spec_quat_changes(
            anim.channels@[c].quat_outputs@,
        )
}

/// The winning translation channel of the bone varies across frames.
pub open spec fn spec_trans_varying(anim: AnimData, b: usize) -> bool {
    exists|c: int| #[trigger]
        spec_last_channel(anim, b, ChannelProperty::Translation, c) && spec_vec3_changes(
            anim.channels@[c].vec3_outputs@,
        )
}

/// The winning translation channel of the bone holds one value on every
/// frame.
pub open spec fn spec_trans_static(anim: AnimData, b: usize) -> bool {
    exists|c: int| #[trigger]
        spec_last_channel(anim, b, ChannelProperty::Translation, c) && !spec_vec3_changes(
            anim.channels@[c].vec3_outputs@,
        )
}

/// A quaternion track as full-precision samples.
pub open spec fn spec_full_quats(outs: Seq<Quat>) -> Seq<QuatSample> {
    Seq::new(outs.len(), |i: int| QuatSample::Full(outs[i].x, outs[i].y, outs[i].z, outs[i].w))
}

/// A three-component track as full-precision samples.
pub open spec fn spec_full_vec3s(outs: Seq<Vector3>) -> Seq<Vec3Sample> {
    Seq::new(outs.len(), |i: int| Vec3Sample::Full(outs[i].x, outs[i].y, outs[i].z))
}

/// One quaternion as a single full-precision sample.
pub open spec fn spec_quat_single(q: Quat) -> Seq<QuatSample> {
    seq![QuatSample::Full(q.x, q.y, q.z, q.w)]
}

/// One vector as a single full-precision sample.
pub open spec fn spec_vec3_single(v: Vector3) -> Seq<Vec3Sample> {
    seq![Vec3Sample::Full(v.x, v.y, v.z)]
}

/// At most one channel wins for a (node, property) pair.
pub proof fn lemma_last_channel_unique(
    anim: AnimData,
    b: usize,
    p: ChannelProperty,
    c1: int,
    c2: int,
)
    requires
        spec_last_channel(anim, b, p, c1),
        spec_last_channel(anim, b, p, c2),
    ensures
        c1 == c2,
{
    if c1 < c2 {
        assert(anim.channels@[c2].target == b && anim.channels@[c2].property == p);
        assert(false);
    } else if c2 < c1 {
        assert(anim.channels@[c1].target == b && anim.channels@[c1].property == p);
        assert(false);
    }
}

/// The "full" entry a bone yields, pinned by the animation's channels: a
/// weight-one quaternion track copying the winning rotation channel exactly
/// when that channel varies, a weight-one position track copying the
/// winning translation channel exactly when the bone is the root and that
/// channel varies, and nothing else.
pub open spec fn spec_full_entry_form(
    anim: AnimData,
    b: usize,
    symbol: Seq<char>,
    is_root: bool,
    s: CharBoneSample,
) -> bool {
    &&& s.symbol@ == symbol
    &&& s.scale is None
    &&& s.rotz is None
    &&& (if spec_rot_varying(anim, b) {
        s.quat matches Some((w, v)) && w == ONE_BITS && (forall|c: int| #[trigger]
            spec_last_channel(anim, b, ChannelProperty::Rotation, c) ==> v@ == spec_full_quats(
                anim.channels@[c].quat_outputs@,
            ))
    } else {
        s.quat is None
    })
    &&& (if is_root && spec_trans_varying(anim, b) {
        s.pos matches Some((w, v)) && w == ONE_BITS && (forall|c: int| #[trigger]
            spec_last_channel(anim, b, ChannelProperty::Translation, c) ==> v@ == spec_full_vec3s(
                anim.channels@[c].vec3_outputs@,
            ))
    } else {
        s.pos is None
    })
}

/// Classifies one bone's channels for the "full" bank.  The entry carries
/// quaternion samples exactly when the winning rotation channel changes
/// across frames — a channel with identical values on every frame is
/// classified static, never time-varying — and position samples exactly on
/// the root bone whose winning translation channel changes.  A bone with
/// nothing time-varying yields no entry; a constant rotation or (on the
/// root) translation comes back as its static representative value.
pub fn build_full_entry(
    anim: &AnimData,
    b: usize,
    symbol: String,
    is_root: bool,
) -> (r: (Option<CharBoneSample>, Option<Quat>, Option<Vector3>))
    requires
        forall|c: int|
            0 <= c < anim.channels@.len() ==> {
                let ch = #[trigger] anim.channels@[c];
                &&& (ch.property is Translation ==> ch.vec3_outputs@.len() >= 1)
                &&& (ch.property is Rotation ==> ch.quat_outputs@.len() >= 1)
            },
    ensures
        (r.0 is Some) == (spec_rot_varying(*anim, b) || (is_root && spec_trans_varying(*anim, b))),
        r.0 matches Some(s) ==> spec_full_entry_form(*anim, b, symbol@, is_root, s),
        (r.1 is Some) == spec_rot_static(*anim, b),
        r.1 matches Some(q) ==> forall|c: int| #[trigger]
            spec_last_channel(*anim, b, ChannelProperty::Rotation, c) ==> q == anim.channels@[
            c].quat_outputs@[0],
        (r.2 is Some) == (is_root && spec_trans_static(*anim, b)),
        r.2 matches Some(v) ==> forall|c: int| #[trigger]
            spec_last_channel(*anim, b, ChannelProperty::Translation, c) ==> v == anim.channels@[
            c].vec3_outputs@[0],
{
    let mut sample = CharBoneSample {
        symbol,
        pos: None,
        scale: None,
        quat: None,
        rotz: None,
    };
    let mut static_quat: Option<Quat> = None;
    let mut static_pos: Option<Vector3> = None;
    if is_root {
        match find_channel(anim, b, ChannelProperty::Translation) {
            Some(c) => {
                let outs = &anim.channels[c].vec3_outputs;
                if vec3_has_changes(outs) {
                    let mut vals: Vec<Vec3Sample> = Vec::new();
                    let mut f: usize = 0;
                    while f < outs.len()
                        invariant
                            f <= outs@.len(),
                            c < anim.channels@.len(),
                            outs == anim.channels@[c as int].vec3_outputs,
                            vals@ == spec_full_vec3s(outs@.take(f as int)),
                        decreases outs@.len() - f,
                    {
                        let o = outs[f];
                        vals.push(Vec3Sample::Full(o.x, o.y, o.z));
                        f = f + 1;
                        proof {
                            assert(vals@ =~= spec_full_vec3s(outs@.take(f as int)));
                        }
                    }
                    proof {
                        assert(outs@.take(outs@.len() as int) =~= outs@);
                        assert(spec_trans_varying(*anim, b));
                        assert forall|c2: int| #[trigger]
                            spec_last_channel(
                                *anim,
                                b,
                                ChannelProperty::Translation,
                                c2,
                            ) implies vals@ == spec_full_vec3s(
                            anim.channels@[c2].vec3_outputs@,
                        ) by {
                            lemma_last_channel_unique(
                                *anim,
                                b,
                                ChannelProperty::Translation,
                                c as int,
                                c2,
                            );
                        }
                    }
                    sample.pos = Some((ONE_BITS, vals));
                } else {
                    static_pos = Some(outs[0]);
                    proof {
                        assert(spec_trans_static(*anim, b));
                        assert(!spec_trans_varying(*anim, b)) by {
                            if spec_trans_varying(*anim, b) {
                                let c2 = choose|c2: int| #[trigger]
                                    spec_last_channel(
                                        *anim,
                                        b,
                                        ChannelProperty::Translation,
                                        c2,
                                    ) && spec_vec3_changes(anim.channels@[c2].vec3_outputs@);
                                lemma_last_channel_unique(
                                    *anim,
                                    b,
                                    ChannelProperty::Translation,
                                    c as int,
                                    c2,
                                );
                            }
                        }
                        assert forall|c2: int| #[trigger]
                            spec_last_channel(
                                *anim,
                                b,
                                ChannelProperty::Translation,
                                c2,
                            ) implies outs@[0] == anim.channels@[c2].vec3_outputs@[0] by {
                            lemma_last_channel_unique(
                                *anim,
                                b,
                                ChannelProperty::Translation,
                                c as int,
                                c2,
                            );
                        }
                    }
                }
            },
            None => {
                proof {
                    assert(!spec_trans_varying(*anim, b)) by {
                        if spec_trans_varying(*anim, b) {
                            let c2 = choose|c2: int| #[trigger]
                                spec_last_channel(*anim, b, ChannelProperty::Translation, c2)
                                    && spec_vec3_changes(anim.channels@[c2].vec3_outputs@);
                            assert(spec_has_channel(*anim, b, ChannelProperty::Translation));
                        }
                    }
                    assert(!spec_trans_static(*anim, b)) by {
                        if spec_trans_static(*anim, b) {
                            let c2 = choose|c2: int| #[trigger]
                                spec_last_channel(*anim, b, ChannelProperty::Translation, c2)
                                    && !spec_vec3_changes(anim.channels@[c2].vec3_outputs@);
                            assert(spec_has_channel(*anim, b, ChannelProperty::Translation));
                        }
                    }
                }
            },
        }
    } else {
        proof {
            assert(!(is_root && spec_trans_varying(*anim, b)));
        }
    }
    match find_channel(anim, b, ChannelProperty::Rotation) {
        Some(c) => {
            let outs = &anim.channels[c].quat_outputs;
            if quat_has_changes(outs) {
                let mut vals: Vec<QuatSample> = Vec::new();
                let mut f: usize = 0;
                while f < outs.len()
                    invariant
                        f <= outs@.len(),
                        c < anim.channels@.len(),
                        outs == anim.channels@[c as int].quat_outputs,
                        vals@ == spec_full_quats(outs@.take(f as int)),
                    decreases outs@.len() - f,
                {
                    let o = outs[f];
                    vals.push(QuatSample::Full(o.x, o.y, o.z, o.w));
                    f = f + 1;
                    proof {
                        assert(vals@ =~= spec_full_quats(outs@.take(f as int)));
                    }
                }
                proof {
                    assert(outs@.take(outs@.len() as int) =~= outs@);
                    assert(spec_rot_varying(*anim, b));
                    assert(!spec_rot_static(*anim, b)) by {
                        if spec_rot_static(*anim, b) {
                            let c2 = choose|c2: int| #[trigger]
                                spec_last_channel(*anim, b, ChannelProperty::Rotation, c2)
                                    && !spec_quat_changes(anim.channels@[c2].quat_outputs@);
                            lemma_last_channel_unique(
                                *anim,
                                b,
                                ChannelProperty::Rotation,
                                c as int,
                                c2,
                            );
                        }
                    }
                    assert forall|c2: int| #[trigger]
                        spec_last_channel(*anim, b, ChannelProperty::Rotation, c2) implies vals@
                        == spec_full_quats(anim.channels@[c2].quat_outputs@) by {
                        lemma_last_channel_unique(
                            *anim,
                            b,
                            ChannelProperty::Rotation,
                            c as int,
                            c2,
                        );
                    }
                }
                sample.quat = Some((ONE_BITS, vals));
            } else {
                static_quat = Some(outs[0]);
                proof {
                    assert(spec_rot_static(*anim, b));
                    assert(!spec_rot_varying(*anim, b)) by {
                        if spec_rot_varying(*anim, b) {
                            let c2 = choose|c2: int| #[trigger]
                                spec_last_channel(*anim, b, ChannelProperty::Rotation, c2)
                                    && spec_quat_changes(anim.channels@[c2].quat_outputs@);
                            lemma_last_channel_unique(
                                *anim,
                                b,
                                ChannelProperty::Rotation,
                                c as int,
                                c2,
                            );
                        }
                    }
                    assert forall|c2: int| #[trigger]
                        spec_last_channel(*anim, b, ChannelProperty::Rotation, c2) implies outs@[0]
                        == anim.channels@[c2].quat_outputs@[0] by {
                        lemma_last_channel_unique(
                            *anim,
                            b,
                            ChannelProperty::Rotation,
                            c as int,
                            c2,
                        );
                    }
                }
            }
        },
        None => {
            proof {
                assert(!spec_rot_varying(*anim, b)) by {
                    if spec_rot_varying(*anim, b) {
                        let c2 = choose|c2: int| #[trigger]
                            spec_last_channel(*anim, b, ChannelProperty::Rotation, c2)
                                && spec_quat_changes(anim.channels@[c2].quat_outputs@);
                        assert(spec_has_channel(*anim, b, ChannelProperty::Rotation));
                    }
                }
                assert(!spec_rot_static(*anim, b)) by {
                    if spec_rot_static(*anim, b) {
                        let c2 = choose|c2: int| #[trigger]
                            spec_last_channel(*anim, b, ChannelProperty::Rotation, c2)
                                && !spec_quat_changes(anim.channels@[c2].quat_outputs@);
                        assert(spec_has_channel(*anim, b, ChannelProperty::Rotation));
                    }
                }
            }
        },
    }
    if sample.pos.is_some() || sample.quat.is_some() {
        (Some(sample), static_quat, static_pos)
    } else {
        (None, static_quat, static_pos)
    }
}

/// Whether the node carries a name.
pub open spec fn spec_named(doc: SceneDoc, b: usize) -> bool {
    doc.nodes@[b as int].name is Some
}

/// The bone's base symbol: its node name truncated at the first separator.
pub open spec fn spec_symbol_of(doc: SceneDoc, b: usize) -> Seq<char> {
    match doc.nodes@[b as int].name {
        Some(n) => crate::symbols::spec_base_symbol(n@),
        None => Seq::empty(),
    }
}

/// Whether the bone is the skeleton root, whose translation alone is
/// honoured.
pub open spec fn spec_is_root_bone(doc: SceneDoc, b: usize) -> bool {
    spec_symbol_of(doc, b) == "bone_pelvis"@
}

/// The bone's "full" entry covers both position and quaternion, so no
/// "one" entry is synthesized for it.
pub open spec fn spec_covered(doc: SceneDoc, anim: AnimData, b: usize) -> bool {
    spec_is_root_bone(doc, b) && spec_trans_varying(anim, b) && spec_rot_varying(anim, b)
}

/// The quaternion of a synthesized "one" entry: the winning rotation
/// channel's constant value where one exists, else the node's rest-pose
/// rotation where "full" holds no quaternion for the bone, else nothing.
pub open spec fn spec_one_quat_ok(
    doc: SceneDoc,
    anim: AnimData,
    b: usize,
    q: Option<(u32, Vec<QuatSample>)>,
) -> bool {
    if spec_rot_static(anim, b) {
        q matches Some((w, v)) && w == ONE_BITS && (forall|c: int| #[trigger]
            spec_last_channel(anim, b, ChannelProperty::Rotation, c) ==> v@ == spec_quat_single(
                anim.channels@[c].quat_outputs@[0],
            ))
    } else if !spec_rot_varying(anim, b) {
        q matches Some((w, v)) && w == ONE_BITS && v@ == spec_quat_single(
            doc.nodes@[b as int].rotation,
        )
    } else {
        q is None
    }
}

/// The position of a synthesized "one" entry: the root's winning
/// translation channel's constant value where one exists, else the node's
/// rest-pose translation where "full" holds no position for the bone, else
/// nothing.
pub open spec fn spec_one_pos_ok(
    doc: SceneDoc,
    anim: AnimData,
    b: usize,
    p: Option<(u32, Vec<Vec3Sample>)>,
) -> bool {
    if spec_is_root_bone(doc, b) && spec_trans_static(anim, b) {
        p matches Some((w, v)) && w == ONE_BITS && (forall|c: int| #[trigger]
            spec_last_channel(anim, b, ChannelProperty::Translation, c) ==> v@ == spec_vec3_single(
                anim.channels@[c].vec3_outputs@[0],
            ))
    } else if !(spec_is_root_bone(doc, b) && spec_trans_varying(anim, b)) {
        p matches Some((w, v)) && w == ONE_BITS && v@ == spec_vec3_single(
            doc.nodes@[b as int].translation,
        )
    } else {
        p is None
    }
}

/// The "one" entry a bone yields, pinned by its channels and rest pose.
pub open spec fn spec_one_entry_form(
    doc: SceneDoc,
    anim: AnimData,
    b: usize,
    s: CharBoneSample,
) -> bool {
    &&& s.symbol@ == spec_symbol_of(doc, b)
    &&& s.scale is None
    &&& s.rotz is None
    &&& spec_one_quat_ok(doc, anim, b, s.quat)
    &&& spec_one_pos_ok(doc, anim, b, s.pos)
}

/// The entries are sorted ascending by symbol.
pub open spec fn spec_sorted_samples(ss: Seq<CharBoneSample>) -> bool {
    forall|a: int, b: int|
        0 <= a < b < ss.len() ==> !spec_str_lt(
            (#[trigger] ss[b]).symbol@,
            (#[trigger] ss[a]).symbol@,
        )
}

/// The entry belongs to some active named bone with a varying winning
/// channel and copies that bone's channels.
pub open spec fn spec_full_entry_sound(doc: SceneDoc, anim: AnimData, s: CharBoneSample) -> bool {
    exists|b: usize|
        spec_active_bone(doc, b) && spec_named(doc, b) && #[trigger] spec_full_entry_form(
            anim,
            b,
            spec_symbol_of(doc, b),
            spec_is_root_bone(doc, b),
            s,
        ) && (spec_rot_varying(anim, b) || (spec_is_root_bone(doc, b) && spec_trans_varying(
            anim,
            b,
        )))
}

/// Every "full" entry belongs to an active named bone with a varying
/// winning channel and copies that bone's channels.
pub open spec fn spec_full_bank_sound(
    doc: SceneDoc,
    anim: AnimData,
    ss: Seq<CharBoneSample>,
) -> bool {
    forall|k: int| 0 <= k < ss.len() ==> spec_full_entry_sound(doc, anim, #[trigger] ss[k])
}

/// Every active named bone with a varying winning channel has a "full"
/// entry.
pub open spec fn spec_full_bank_complete(
    doc: SceneDoc,
    anim: AnimData,
    ss: Seq<CharBoneSample>,
) -> bool {
    forall|b: usize|
        (#[trigger] spec_active_bone(doc, b)) && spec_named(doc, b) && (spec_rot_varying(anim, b)
            || (spec_is_root_bone(doc, b) && spec_trans_varying(anim, b))) ==> exists|k: int|
            0 <= k < ss.len() && spec_full_entry_form(
                anim,
                b,
                spec_symbol_of(doc, b),
                spec_is_root_bone(doc, b),
                #[trigger] ss[k],
            )
}

/// The entry belongs to some active named bone without full
/// position-and-quaternion coverage and supplies its missing components.
pub open spec fn spec_one_entry_sound(doc: SceneDoc, anim: AnimData, s: CharBoneSample) -> bool {
    exists|b: usize|
        spec_active_bone(doc, b) && spec_named(doc, b) && !spec_covered(doc, anim, b)
            && #[trigger] spec_one_entry_form(doc, anim, b, s)
}

/// Every "one" entry belongs to an active named bone without full
/// position-and-quaternion coverage and supplies its missing components.
pub open spec fn spec_one_bank_sound(
    doc: SceneDoc,
    anim: AnimData,
    ss: Seq<CharBoneSample>,
) -> bool {
    forall|k: int| 0 <= k < ss.len() ==> spec_one_entry_sound(doc, anim, #[trigger] ss[k])
}

/// Every active named bone without full position-and-quaternion coverage
/// has a "one" entry.
pub open spec fn spec_one_bank_complete(
    doc: SceneDoc,
    anim: AnimData,
    ss: Seq<CharBoneSample>,
) -> bool {
    forall|b: usize|
        (#[trigger] spec_active_bone(doc, b)) && spec_named(doc, b) && !spec_covered(doc, anim, b)
            ==> exists|k: int|
            0 <= k < ss.len() && spec_one_entry_form(doc, anim, b, #[trigger] ss[k])
}

/// The frame count a clip's end beat is derived from: one less than the
/// sample count, at least one, and at most the mantissa range of a 32-bit
/// float.
pub open spec fn spec_end_frames(n: int) -> int {
    if n > 1 {
        if n - 1 <= 0x100_0000 {
            n - 1
        } else {
            0x100_0000
        }
    } else {
        1
    }
}

/// The name of a clip imported from an unnamed animation at index `i`.
pub open spec fn spec_anim_fallback_name(i: int) -> Seq<char> {
    "anim_"@ + (if i == 0 {
        seq!['0']
    } else {
        crate::symbols::spec_decimal(i)
    })
}

/// The mathematical content of one legacy bone: its names and matrices.
#[verifier::ext_equal]
pub struct BoneView {
    pub name: Seq<char>,
    pub parent: Seq<char>,
    pub local_xfm: Matrix,
    pub world_xfm: Matrix,
}

/// What a generated bone denotes.
pub open spec fn spec_bone_view(b: CharBone) -> BoneView {
    BoneView { name: b.name@, parent: b.parent@, local_xfm: b.local_xfm, world_xfm: b.world_xfm }
}

/// The fields every generated bone carries: position and scale enabled,
/// full rotation, unit blend weight.
pub open spec fn spec_char_bone_fixed(b: CharBone) -> bool {
    &&& b.position
    &&& b.scale
    &&& b.rotation == crate::char_bone::RotationConstraint::kRotFull
    &&& b.unknown == ONE_BITS
}

/// Whether the node is a legacy bone: named with the marker suffix and
/// carrying no mesh.
pub open spec fn spec_is_char_bone(doc: SceneDoc, node: int) -> bool {
    match doc.nodes@[node].name {
        Some(n) => crate::symbols::spec_ends_with(n@, ".mesh"@) && !doc.nodes@[node].has_mesh,
        None => false,
    }
}

/// The symbol a bone node yields: its base name with the bone extension.
pub open spec fn spec_char_bone_name(doc: SceneDoc, node: int) -> Seq<char> {
    match doc.nodes@[node].name {
        Some(n) => crate::symbols::spec_base_symbol(n@) + ".trans"@,
        None => Seq::empty(),
    }
}

/// The bones of one subtree in depth-first preorder, with `fuel` levels of
/// descent left: the node's own bone, if it is one, then each child's
/// subtree in child order.  `parent` is the nearest bone ancestor's
/// symbol, empty at a root.
pub open spec fn spec_char_bones(doc: SceneDoc, node: int, parent: Seq<char>, fuel: int) -> Seq<
    BoneView,
>
    decreases fuel, 1int, 0int,
{
    if fuel <= 0 || !(0 <= node < doc.nodes@.len()) {
        Seq::empty()
    } else {
        let head: Seq<BoneView> = if spec_is_char_bone(doc, node) {
            seq![
                BoneView {
                    name: spec_char_bone_name(doc, node),
                    parent: parent,
                    local_xfm: doc.nodes@[node].local_xfm,
                    world_xfm: doc.nodes@[node].world_xfm,
                },
            ]
        } else {
            Seq::empty()
        };
        let np = if spec_is_char_bone(doc, node) {
            spec_char_bone_name(doc, node)
        } else {
            parent
        };
        head + spec_char_bones_kids(doc, node, np, 0, fuel)
    }
}

/// The bones of the children from index `j` on, concatenated in order.
pub open spec fn spec_char_bones_kids(
    doc: SceneDoc,
    node: int,
    parent: Seq<char>,
    j: int,
    fuel: int,
) -> Seq<BoneView>
    decreases fuel, 0int, (if 0 <= node < doc.nodes@.len() {
        doc.nodes@[node].children@.len() - j
    } else {
        0int
    }),
{
    if fuel <= 0 || !(0 <= node < doc.nodes@.len()) || !(0 <= j < doc.nodes@[
        node].children@.len()) {
        Seq::empty()
    } else {
        spec_char_bones(doc, doc.nodes@[node].children@[j] as int, parent, fuel - 1)
            + spec_char_bones_kids(doc, node, parent, j + 1, fuel)
    }
}

/// The bones of the scene forest from root index `ri` on.
pub open spec fn spec_forest_bones(doc: SceneDoc, ri: int, fuel: int) -> Seq<BoneView>
    decreases doc.root_nodes@.len() - ri,
{
    if !(0 <= ri < doc.root_nodes@.len()) {
        Seq::empty()
    } else {
        spec_char_bones(doc, doc.root_nodes@[ri] as int, Seq::empty(), fuel) + spec_forest_bones(
            doc,
            ri + 1,
            fuel,
        )
    }
}

/// Reordering a "full" bank (by any permutation-like exchange that keeps
/// every element) keeps it sound and makes it complete.
proof fn lemma_full_bank_transfer(
    doc: SceneDoc,
    anim: AnimData,
    ids: Seq<usize>,
    olds: Seq<CharBoneSample>,
    news: Seq<CharBoneSample>,
    bone_ids: Seq<usize>,
)
    requires
        ids.len() == olds.len(),
        forall|fi: int|
            0 <= fi < ids.len() ==> {
                let b = #[trigger] ids[fi];
                &&& spec_active_bone(doc, b)
                &&& spec_named(doc, b)
                &&& spec_full_entry_form(
                    anim,
                    b,
                    spec_symbol_of(doc, b),
                    spec_is_root_bone(doc, b),
                    olds[fi],
                )
                &&& (spec_rot_varying(anim, b) || (spec_is_root_bone(doc, b)
                    && spec_trans_varying(anim, b)))
            },
        forall|j: int|
            0 <= j < bone_ids.len() ==> {
                let b = #[trigger] bone_ids[j];
                spec_named(doc, b) && (spec_rot_varying(anim, b) || (spec_is_root_bone(doc, b)
                    && spec_trans_varying(anim, b))) ==> exists|fi: int|
                    0 <= fi < ids.len() && ids[fi] == b
            },
        forall|x: usize| #[trigger] bone_ids.contains(x) <==> spec_active_bone(doc, x),
        forall|i: int| 0 <= i < news.len() ==> olds.contains(#[trigger] news[i]),
        forall|x: CharBoneSample| #[trigger] olds.contains(x) ==> news.contains(x),
    ensures
        spec_full_bank_sound(doc, anim, news),
        spec_full_bank_complete(doc, anim, news),
{
    assert forall|k: int| 0 <= k < news.len() implies spec_full_entry_sound(
        doc,
        anim,
        #[trigger] news[k],
    ) by {
        assert(olds.contains(news[k]));
        let fi = choose|fi: int| 0 <= fi < olds.len() && olds[fi] == news[k];
        let b = ids[fi];
        assert(spec_active_bone(doc, b));
        assert(spec_named(doc, b));
        assert(spec_rot_varying(anim, b) || (spec_is_root_bone(doc, b) && spec_trans_varying(
            anim,
            b,
        )));
        assert(spec_full_entry_form(
            anim,
            b,
            spec_symbol_of(doc, b),
            spec_is_root_bone(doc, b),
            news[k],
        ));
        assert(spec_full_entry_sound(doc, anim, news[k]));
    }
    assert forall|b: usize|
        (#[trigger] spec_active_bone(doc, b)) && spec_named(doc, b) && (spec_rot_varying(anim, b)
            || (spec_is_root_bone(doc, b) && spec_trans_varying(anim, b))) implies exists|k: int|
        0 <= k < news.len() && spec_full_entry_form(
            anim,
            b,
            spec_symbol_of(doc, b),
            spec_is_root_bone(doc, b),
            #[trigger] news[k],
        ) by {
        assert(bone_ids.contains(b));
        let j = choose|j: int| 0 <= j < bone_ids.len() && bone_ids[j] == b;
        let fi = choose|fi: int| 0 <= fi < ids.len() && ids[fi] == b;
        assert(olds.contains(olds[fi]));
        assert(news.contains(olds[fi]));
        let k = choose|k: int| 0 <= k < news.len() && news[k] == olds[fi];
        assert(spec_full_entry_form(
            anim,
            b,
            spec_symbol_of(doc, b),
            spec_is_root_bone(doc, b),
            news[k],
        ));
    }
}

/// As [`lemma_full_bank_transfer`], for the "one" bank.
proof fn lemma_one_bank_transfer(
    doc: SceneDoc,
    anim: AnimData,
    olds: Seq<CharBoneSample>,
    news: Seq<CharBoneSample>,
    bone_ids: Seq<usize>,
)
    requires
        spec_one_bank_sound(doc, anim, olds),
        forall|j: int|
            0 <= j < bone_ids.len() ==> {
                let b = #[trigger] bone_ids[j];
                spec_named(doc, b) && !spec_covered(doc, anim, b) ==> exists|k: int|
                    0 <= k < olds.len() && spec_one_entry_form(doc, anim, b, #[trigger] olds[k])
            },
        forall|x: usize| #[trigger] bone_ids.contains(x) <==> spec_active_bone(doc, x),
        forall|i: int| 0 <= i < news.len() ==> olds.contains(#[trigger] news[i]),
        forall|x: CharBoneSample| #[trigger] olds.contains(x) ==> news.contains(x),
    ensures
        spec_one_bank_sound(doc, anim, news),
        spec_one_bank_complete(doc, anim, news),
{
    assert forall|k: int| 0 <= k < news.len() implies spec_one_entry_sound(
        doc,
        anim,
        #[trigger] news[k],
    ) by {
        assert(olds.contains(news[k]));
        let oi = choose|oi: int| 0 <= oi < olds.len() && olds[oi] == news[k];
        assert(spec_one_entry_sound(doc, anim, olds[oi]));
    }
    assert forall|b: usize|
        (#[trigger] spec_active_bone(doc, b)) && spec_named(doc, b) && !spec_covered(
            doc,
            anim,
            b,
        ) implies exists|k: int|
        0 <= k < news.len() && spec_one_entry_form(doc, anim, b, #[trigger] news[k]) by {
        assert(bone_ids.contains(b));
        let j = choose|j: int| 0 <= j < bone_ids.len() && bone_ids[j] == b;
        let oi = choose|oi: int|
            0 <= oi < olds.len() && spec_one_entry_form(doc, anim, b, #[trigger] olds[oi]);
        assert(olds.contains(olds[oi]));
        assert(news.contains(olds[oi]));
        let k = choose|k: int| 0 <= k < news.len() && news[k] == olds[oi];
        assert(spec_one_entry_form(doc, anim, b, news[k]));
    }
}

/// The importer over a scene document reduced to plain data.
#[derive(Debug)]
pub struct GltfImporter2 {
    pub doc: SceneDoc,
}

/// Finds the winning channel of a property targeting a node: the last one,
/// mirroring how later channels override earlier ones for the same target.
fn find_channel(anim: &AnimData, target: usize, prop: ChannelProperty) -> (r: Option<usize>)
    ensures
        match r {
            Some(c) => spec_last_channel(*anim, target, prop, c as int),
            None => !spec_has_channel(*anim, target, prop),
        },
{
    let mut found: Option<usize> = None;
    let mut c: usize = 0;
    while c < anim.channels.len()
        invariant
            c <= anim.channels@.len(),
            match found {
                Some(f) => f < c && anim.channels@[f as int].target == target
                    && anim.channels@[f as int].property == prop && forall|d: int|
                    f < d < c ==> !((#[trigger] anim.channels@[d]).target == target
                        && anim.channels@[d].property == prop),
                None => forall|d: int|
                    0 <= d < c ==> !((#[trigger] anim.channels@[d]).target == target
                        && anim.channels@[d].property == prop),
            },
        decreases anim.channels@.len() - c,
    {
        if anim.channels[c].target == target && anim.channels[c].property == prop {
            found = Some(c);
        }
        c = c + 1;
    }
    proof {
        if found is None {
            if spec_has_channel(*anim, target, prop) {
                let d = choose|d: int|
                    0 <= d < anim.channels@.len() && (#[trigger] anim.channels@[d]).target
                        == target && anim.channels@[d].property == prop;
                assert(false);
            }
        }
    }
    found
}

/// The facts the "full" pass of one animation establishes: each collected
/// entry belongs to an active named bone and copies its winning channels,
/// and every active named bone with a varying winning channel was
/// collected.
pub open spec fn spec_full_pass(
    doc: SceneDoc,
    anim: AnimData,
    bone_ids: Seq<usize>,
    ids: Seq<usize>,
    ss: Seq<CharBoneSample>,
) -> bool {
    &&& ids.len() == ss.len()
    &&& (forall|fi: int|
        0 <= fi < ids.len() ==> {
            let b = #[trigger] ids[fi];
            &&& spec_active_bone(doc, b)
            &&& spec_named(doc, b)
            &&& spec_full_entry_form(
                anim,
                b,
                spec_symbol_of(doc, b),
                spec_is_root_bone(doc, b),
                ss[fi],
            )
            &&& (spec_rot_varying(anim, b) || (spec_is_root_bone(doc, b) && spec_trans_varying(
                anim,
                b,
            )))
        })
    &&& (forall|j: int|
        0 <= j < bone_ids.len() ==> {
            let b = #[trigger] bone_ids[j];
            spec_named(doc, b) && (spec_rot_varying(anim, b) || (spec_is_root_bone(doc, b)
                && spec_trans_varying(anim, b))) ==> exists|fi: int|
                0 <= fi < ids.len() && ids[fi] == b
        })
}

/// The facts the "full" pass establishes about the recorded constant
/// channel values: each is its bone's winning channel's first value, and
/// every named bone with a constant winning channel was recorded.
pub open spec fn spec_static_pass(
    doc: SceneDoc,
    anim: AnimData,
    bone_ids: Seq<usize>,
    sq: Seq<(usize, Quat)>,
    sp: Seq<(usize, Vector3)>,
) -> bool {
    &&& (forall|si: int|
        0 <= si < sq.len() ==> {
            let bq = #[trigger] sq[si];
            &&& spec_rot_static(anim, bq.0)
            &&& (forall|c: int| #[trigger]
                spec_last_channel(anim, bq.0, ChannelProperty::Rotation, c) ==> bq.1
                    == anim.channels@[c].quat_outputs@[0])
        })
    &&& (forall|j: int|
        0 <= j < bone_ids.len() ==> {
            let b = #[trigger] bone_ids[j];
            spec_named(doc, b) && spec_rot_static(anim, b) ==> exists|si: int|
                0 <= si < sq.len() && sq[si].0 == b
        })
    &&& (forall|si: int|
        0 <= si < sp.len() ==> {
            let bp = #[trigger] sp[si];
            &&& spec_is_root_bone(doc, bp.0)
            &&& spec_trans_static(anim, bp.0)
            &&& (forall|c: int| #[trigger]
                spec_last_channel(anim, bp.0, ChannelProperty::Translation, c) ==> bp.1
                    == anim.channels@[c].vec3_outputs@[0])
        })
    &&& (forall|j: int|
        0 <= j < bone_ids.len() ==> {
            let b = #[trigger] bone_ids[j];
            spec_named(doc, b) && spec_is_root_bone(doc, b) && spec_trans_static(anim, b)
                ==> exists|si: int| 0 <= si < sp.len() && sp[si].0 == b
        })
}

/// The facts the "one" pass establishes: the bank is sound, and every
/// active named bone without full coverage got an entry.
pub open spec fn spec_one_pass(
    doc: SceneDoc,
    anim: AnimData,
    bone_ids: Seq<usize>,
    ss: Seq<CharBoneSample>,
) -> bool {
    &&& spec_one_bank_sound(doc, anim, ss)
    &&& (forall|j: int|
        0 <= j < bone_ids.len() ==> {
            let b = #[trigger] bone_ids[j];
            spec_named(doc, b) && !spec_covered(doc, anim, b) ==> exists|k: int|
                0 <= k < ss.len() && spec_one_entry_form(doc, anim, b, #[trigger] ss[k])
        })
}

/// The "full" pass of one animation over the active bones: classifies each
/// named bone's winning channels, collecting the time-varying entries with
/// their bones and the recorded constant values.
#[verifier::rlimit(100)]
fn build_full_samples(docr: &SceneDoc, anim: &AnimData, bone_ids: &Vec<usize>) -> (r: (
    Vec<CharBoneSample>,
    Vec<usize>,
    Vec<(usize, Quat)>,
    Vec<(usize, Vector3)>,
))
    requires
        spec_doc_wf(*docr),
        forall|i: int|
            0 <= i < bone_ids@.len() ==> spec_active_bone(*docr, #[trigger] bone_ids@[i]),
        forall|c: int|
            0 <= c < anim.channels@.len() ==> {
                let ch = #[trigger] anim.channels@[c];
                &&& (ch.property is Translation ==> ch.vec3_outputs@.len() >= 1)
                &&& (ch.property is Rotation ==> ch.quat_outputs@.len() >= 1)
            },
    ensures
        spec_full_pass(*docr, *anim, bone_ids@, r.1@, r.0@),
        spec_static_pass(*docr, *anim, bone_ids@, r.2@, r.3@),
{
    let ghost doc = *docr;
    let ghost anim0 = *anim;
    let mut full_samples: Vec<CharBoneSample> = Vec::new();
    let mut full_ids: Vec<usize> = Vec::new();
    let mut static_quats: Vec<(usize, Quat)> = Vec::new();
    let mut static_poss: Vec<(usize, Vector3)> = Vec::new();
    let mut bi: usize = 0;
    while bi < bone_ids.len()
        invariant
            spec_doc_wf(doc),
            doc == *docr,
            anim0 == *anim,
            forall|c: int|
                0 <= c < anim.channels@.len() ==> {
                    let ch = #[trigger] anim.channels@[c];
                    &&& (ch.property is Translation ==> ch.vec3_outputs@.len() >= 1)
                    &&& (ch.property is Rotation ==> ch.quat_outputs@.len() >= 1)
                },
            bi <= bone_ids@.len(),
            forall|i: int|
                0 <= i < bone_ids@.len() ==> spec_active_bone(
                    doc,
                    #[trigger] bone_ids@[i],
                ),
            full_ids@.len() == full_samples@.len(),
            forall|fi: int|
                0 <= fi < full_ids@.len() ==> {
                    let b = #[trigger] full_ids@[fi];
                    &&& spec_active_bone(doc, b)
                    &&& spec_named(doc, b)
                    &&& spec_full_entry_form(
                        anim0,
                        b,
                        spec_symbol_of(doc, b),
                        spec_is_root_bone(doc, b),
                        full_samples@[fi],
                    )
                    &&& (spec_rot_varying(anim0, b) || (spec_is_root_bone(doc, b)
                        && spec_trans_varying(anim0, b)))
                },
            forall|j: int|
                0 <= j < bi ==> {
                    let b = #[trigger] bone_ids@[j];
                    spec_named(doc, b) && (spec_rot_varying(anim0, b) || (
                    spec_is_root_bone(doc, b) && spec_trans_varying(anim0, b)))
                        ==> exists|fi: int|
                        0 <= fi < full_ids@.len() && full_ids@[fi] == b
                },
            forall|si: int|
                0 <= si < static_quats@.len() ==> {
                    let bq = #[trigger] static_quats@[si];
                    &&& spec_active_bone(doc, bq.0)
                    &&& spec_named(doc, bq.0)
                    &&& spec_rot_static(anim0, bq.0)
                    &&& (forall|c: int| #[trigger]
                        spec_last_channel(anim0, bq.0, ChannelProperty::Rotation, c)
                            ==> bq.1 == anim0.channels@[c].quat_outputs@[0])
                },
            forall|j: int|
                0 <= j < bi ==> {
                    let b = #[trigger] bone_ids@[j];
                    spec_named(doc, b) && spec_rot_static(anim0, b) ==> exists|si: int|
                        0 <= si < static_quats@.len() && static_quats@[si].0 == b
                },
            forall|si: int|
                0 <= si < static_poss@.len() ==> {
                    let bp = #[trigger] static_poss@[si];
                    &&& spec_active_bone(doc, bp.0)
                    &&& spec_named(doc, bp.0)
                    &&& spec_is_root_bone(doc, bp.0)
                    &&& spec_trans_static(anim0, bp.0)
                    &&& (forall|c: int| #[trigger]
                        spec_last_channel(anim0, bp.0, ChannelProperty::Translation, c)
                            ==> bp.1 == anim0.channels@[c].vec3_outputs@[0])
                },
            forall|j: int|
                0 <= j < bi ==> {
                    let b = #[trigger] bone_ids@[j];
                    spec_named(doc, b) && spec_is_root_bone(doc, b) && spec_trans_static(
                        anim0,
                        b,
                    ) ==> exists|si: int|
                        0 <= si < static_poss@.len() && static_poss@[si].0 == b
                },
        decreases bone_ids@.len() - bi,
    {
        let b = bone_ids[bi];
        let target_name: String = match &docr.nodes[b].name {
            Some(n) => crate::symbols::get_basename(n.as_str()),
            None => {
                // An unnamed node cannot carry a bone symbol; skip it.
                bi = bi + 1;
                continue ;
            },
        };
        proof {
            assert(target_name@ == spec_symbol_of(doc, b));
        }
        let is_root = str_eq(target_name.as_str(), "bone_pelvis");
        proof {
            assert(is_root == spec_is_root_bone(doc, b));
            assert(forall|c: int|
                0 <= c < anim.channels@.len() ==> {
                    let ch = #[trigger] anim.channels@[c];
                    &&& (ch.property is Translation ==> ch.vec3_outputs@.len() >= 1)
                    &&& (ch.property is Rotation ==> ch.quat_outputs@.len() >= 1)
                });
        }
        let ghost sq_pre = static_quats@;
        let ghost sp_pre = static_poss@;
        let ghost ids_pre = full_ids@;
        let (entry, static_quat, static_pos) = build_full_entry(
            anim,
            b,
            target_name,
            is_root,
        );
        if let Some(q) = static_quat {
            static_quats.push((b, q));
        }
        if let Some(v) = static_pos {
            static_poss.push((b, v));
        }
        if let Some(sample) = entry {
            full_samples.push(sample);
            full_ids.push(b);
        }
        bi = bi + 1;
        proof {
            assert forall|j: int|
                0 <= j < bi implies {
                let bb = #[trigger] bone_ids@[j];
                spec_named(doc, bb) && (spec_rot_varying(anim0, bb) || (
                spec_is_root_bone(doc, bb) && spec_trans_varying(anim0, bb)))
                    ==> exists|fi: int| 0 <= fi < full_ids@.len() && full_ids@[fi] == bb
            } by {
                let bb = bone_ids@[j];
                if spec_named(doc, bb) && (spec_rot_varying(anim0, bb) || (
                spec_is_root_bone(doc, bb) && spec_trans_varying(anim0, bb))) {
                    if j < bi - 1 {
                        let fi = choose|fi: int|
                            0 <= fi < ids_pre.len() && ids_pre[fi] == bb;
                        assert(full_ids@[fi] == bb);
                    } else {
                        assert(full_ids@[full_ids@.len() - 1] == b);
                    }
                }
            }
            assert forall|j: int|
                0 <= j < bi implies {
                let bb = #[trigger] bone_ids@[j];
                spec_named(doc, bb) && spec_rot_static(anim0, bb) ==> exists|si: int|
                    0 <= si < static_quats@.len() && static_quats@[si].0 == bb
            } by {
                let bb = bone_ids@[j];
                if spec_named(doc, bb) && spec_rot_static(anim0, bb) {
                    if j < bi - 1 {
                        let si = choose|si: int|
                            0 <= si < sq_pre.len() && sq_pre[si].0 == bb;
                        assert(static_quats@[si].0 == bb);
                    } else {
                        assert(static_quats@[static_quats@.len() - 1].0 == b);
                    }
                }
            }
            assert forall|j: int|
                0 <= j < bi implies {
                let bb = #[trigger] bone_ids@[j];
                spec_named(doc, bb) && spec_is_root_bone(doc, bb) && spec_trans_static(
                    anim0,
                    bb,
                ) ==> exists|si: int|
                    0 <= si < static_poss@.len() && static_poss@[si].0 == bb
            } by {
                let bb = bone_ids@[j];
                if spec_named(doc, bb) && spec_is_root_bone(doc, bb)
                    && spec_trans_static(anim0, bb) {
                    if j < bi - 1 {
                        let si = choose|si: int|
                            0 <= si < sp_pre.len() && sp_pre[si].0 == bb;
                        assert(static_poss@[si].0 == bb);
                    } else {
                        assert(static_poss@[static_poss@.len() - 1].0 == b);
                    }
                }
            }
        }
    }
    (full_samples, full_ids, static_quats, static_poss)
}

/// The "one" pass of one animation: every active named bone without full
/// position-and-quaternion coverage gets one entry supplying the missing
/// components from the recorded constant value or the rest pose.
#[verifier::rlimit(100)]
fn build_one_samples(
    docr: &SceneDoc,
    anim: &AnimData,
    bone_ids: &Vec<usize>,
    full_ids: &Vec<usize>,
    full_samples: &Vec<CharBoneSample>,
    static_quats: &Vec<(usize, Quat)>,
    static_poss: &Vec<(usize, Vector3)>,
) -> (r: Vec<CharBoneSample>)
    requires
        spec_doc_wf(*docr),
        forall|i: int|
            0 <= i < bone_ids@.len() ==> spec_active_bone(*docr, #[trigger] bone_ids@[i]),
        spec_full_pass(*docr, *anim, bone_ids@, full_ids@, full_samples@),
        spec_static_pass(*docr, *anim, bone_ids@, static_quats@, static_poss@),
    ensures
        spec_one_pass(*docr, *anim, bone_ids@, r@),
{
    let ghost doc = *docr;
    let ghost anim0 = *anim;
    // Bones without full position-and-quaternion coverage get one
    // "one" entry supplying the missing components: the recorded
    // constant channel value where one exists, else the rest pose.
    let mut one_samples: Vec<CharBoneSample> = Vec::new();
    let mut bi: usize = 0;
    while bi < bone_ids.len()
        invariant
            spec_doc_wf(doc),
            doc == *docr,
            anim0 == *anim,
            bi <= bone_ids@.len(),
            forall|i: int|
                0 <= i < bone_ids@.len() ==> spec_active_bone(
                    doc,
                    #[trigger] bone_ids@[i],
                ),
            full_ids@.len() == full_samples@.len(),
            forall|fi: int|
                0 <= fi < full_ids@.len() ==> {
                    let b = #[trigger] full_ids@[fi];
                    &&& spec_active_bone(doc, b)
                    &&& spec_named(doc, b)
                    &&& spec_full_entry_form(
                        anim0,
                        b,
                        spec_symbol_of(doc, b),
                        spec_is_root_bone(doc, b),
                        full_samples@[fi],
                    )
                    &&& (spec_rot_varying(anim0, b) || (spec_is_root_bone(doc, b)
                        && spec_trans_varying(anim0, b)))
                },
            forall|j: int|
                0 <= j < bone_ids@.len() ==> {
                    let b = #[trigger] bone_ids@[j];
                    spec_named(doc, b) && (spec_rot_varying(anim0, b) || (
                    spec_is_root_bone(doc, b) && spec_trans_varying(anim0, b)))
                        ==> exists|fi: int|
                        0 <= fi < full_ids@.len() && full_ids@[fi] == b
                },
            forall|si: int|
                0 <= si < static_quats@.len() ==> {
                    let bq = #[trigger] static_quats@[si];
                    &&& spec_rot_static(anim0, bq.0)
                    &&& (forall|c: int| #[trigger]
                        spec_last_channel(anim0, bq.0, ChannelProperty::Rotation, c)
                            ==> bq.1 == anim0.channels@[c].quat_outputs@[0])
                },
            forall|j: int|
                0 <= j < bone_ids@.len() ==> {
                    let b = #[trigger] bone_ids@[j];
                    spec_named(doc, b) && spec_rot_static(anim0, b) ==> exists|si: int|
                        0 <= si < static_quats@.len() && static_quats@[si].0 == b
                },
            forall|si: int|
                0 <= si < static_poss@.len() ==> {
                    let bp = #[trigger] static_poss@[si];
                    &&& spec_is_root_bone(doc, bp.0)
                    &&& spec_trans_static(anim0, bp.0)
                    &&& (forall|c: int| #[trigger]
                        spec_last_channel(anim0, bp.0, ChannelProperty::Translation, c)
                            ==> bp.1 == anim0.channels@[c].vec3_outputs@[0])
                },
            forall|j: int|
                0 <= j < bone_ids@.len() ==> {
                    let b = #[trigger] bone_ids@[j];
                    spec_named(doc, b) && spec_is_root_bone(doc, b) && spec_trans_static(
                        anim0,
                        b,
                    ) ==> exists|si: int|
                        0 <= si < static_poss@.len() && static_poss@[si].0 == b
                },
            forall|k: int|
                0 <= k < one_samples@.len() ==> spec_one_entry_sound(
                    doc,
                    anim0,
                    #[trigger] one_samples@[k],
                ),
            forall|j: int|
                0 <= j < bi ==> {
                    let b = #[trigger] bone_ids@[j];
                    spec_named(doc, b) && !spec_covered(doc, anim0, b) ==> exists|k: int|
                        0 <= k < one_samples@.len() && spec_one_entry_form(
                            doc,
                            anim0,
                            b,
                            #[trigger] one_samples@[k],
                        )
                },
        decreases bone_ids@.len() - bi,
    {
        let b = bone_ids[bi];
        let name: String = match &docr.nodes[b].name {
            Some(n) => crate::symbols::get_basename(n.as_str()),
            None => {
                bi = bi + 1;
                continue ;
            },
        };
        proof {
            assert(name@ == spec_symbol_of(doc, b));
        }
        let mut pos_cov = false;
        let mut quat_cov = false;
        let mut fi: usize = 0;
        while fi < full_ids.len()
            invariant
                fi <= full_ids@.len(),
                full_ids@.len() == full_samples@.len(),
                quat_cov == exists|f: int|
                    0 <= f < fi && #[trigger] full_ids@[f] == b && full_samples@[
                    f].quat is Some,
                pos_cov == exists|f: int|
                    0 <= f < fi && #[trigger] full_ids@[f] == b && full_samples@[
                    f].pos is Some,
            decreases full_ids@.len() - fi,
        {
            if full_ids[fi] == b {
                if full_samples[fi].quat.is_some() {
                    quat_cov = true;
                }
                if full_samples[fi].pos.is_some() {
                    pos_cov = true;
                }
            }
            fi = fi + 1;
        }
        proof {
            assert(quat_cov == spec_rot_varying(anim0, b)) by {
                if quat_cov {
                    let f = choose|f: int|
                        0 <= f < full_ids@.len() && #[trigger] full_ids@[f] == b
                            && full_samples@[f].quat is Some;
                    assert(spec_full_entry_form(
                        anim0,
                        b,
                        spec_symbol_of(doc, b),
                        spec_is_root_bone(doc, b),
                        full_samples@[f],
                    ));
                }
                if spec_rot_varying(anim0, b) {
                    assert(bone_ids@[bi as int] == b);
                    let f = choose|f: int|
                        0 <= f < full_ids@.len() && full_ids@[f] == b;
                    assert(full_samples@[f].quat is Some);
                }
            }
            assert(pos_cov == (spec_is_root_bone(doc, b) && spec_trans_varying(
                anim0,
                b,
            ))) by {
                if pos_cov {
                    let f = choose|f: int|
                        0 <= f < full_ids@.len() && #[trigger] full_ids@[f] == b
                            && full_samples@[f].pos is Some;
                    assert(spec_full_entry_form(
                        anim0,
                        b,
                        spec_symbol_of(doc, b),
                        spec_is_root_bone(doc, b),
                        full_samples@[f],
                    ));
                }
                if spec_is_root_bone(doc, b) && spec_trans_varying(anim0, b) {
                    assert(bone_ids@[bi as int] == b);
                    let f = choose|f: int|
                        0 <= f < full_ids@.len() && full_ids@[f] == b;
                    assert(full_samples@[f].pos is Some);
                }
            }
        }
        if !(pos_cov && quat_cov) {
            let mut statq: Option<Quat> = None;
            let mut si: usize = 0;
            while si < static_quats.len()
                invariant
                    si <= static_quats@.len(),
                    match statq {
                        Some(q) => exists|s: int|
                            0 <= s < static_quats@.len() && #[trigger] static_quats@[
                            s] == (b, q),
                        None => forall|s: int|
                            0 <= s < si ==> (#[trigger] static_quats@[s]).0 != b,
                    },
                decreases static_quats@.len() - si,
            {
                if static_quats[si].0 == b {
                    statq = Some(static_quats[si].1);
                }
                si = si + 1;
            }
            let mut statp: Option<Vector3> = None;
            let mut si: usize = 0;
            while si < static_poss.len()
                invariant
                    si <= static_poss@.len(),
                    match statp {
                        Some(v) => exists|s: int|
                            0 <= s < static_poss@.len() && #[trigger] static_poss@[
                            s] == (b, v),
                        None => forall|s: int|
                            0 <= s < si ==> (#[trigger] static_poss@[s]).0 != b,
                    },
                decreases static_poss@.len() - si,
            {
                if static_poss[si].0 == b {
                    statp = Some(static_poss[si].1);
                }
                si = si + 1;
            }
            proof {
                assert(bone_ids@[bi as int] == b);
                assert((statq is Some) == spec_rot_static(anim0, b)) by {
                    if statq is Some {
                    } else {
                        if spec_rot_static(anim0, b) {
                            let s = choose|s: int|
                                0 <= s < static_quats@.len() && #[trigger] static_quats@[
                                s].0 == b;
                        }
                    }
                }
                assert((statp is Some) == (spec_is_root_bone(doc, b)
                    && spec_trans_static(anim0, b))) by {
                    if statp is Some {
                    } else {
                        if spec_is_root_bone(doc, b) && spec_trans_static(anim0, b) {
                            let s = choose|s: int|
                                0 <= s < static_poss@.len() && #[trigger] static_poss@[
                                s].0 == b;
                        }
                    }
                }
            }
            let quat_one: Option<(u32, Vec<QuatSample>)> = match statq {
                Some(q) => {
                    let mut vals: Vec<QuatSample> = Vec::new();
                    vals.push(QuatSample::Full(q.x, q.y, q.z, q.w));
                    Some((ONE_BITS, vals))
                },
                None => if !quat_cov {
                    let q = docr.nodes[b].rotation;
                    let mut vals: Vec<QuatSample> = Vec::new();
                    vals.push(QuatSample::Full(q.x, q.y, q.z, q.w));
                    Some((ONE_BITS, vals))
                } else {
                    None
                },
            };
            let pos_one: Option<(u32, Vec<Vec3Sample>)> = match statp {
                Some(v) => {
                    let mut vals: Vec<Vec3Sample> = Vec::new();
                    vals.push(Vec3Sample::Full(v.x, v.y, v.z));
                    Some((ONE_BITS, vals))
                },
                None => if !pos_cov {
                    let t = docr.nodes[b].translation;
                    let mut vals: Vec<Vec3Sample> = Vec::new();
                    vals.push(Vec3Sample::Full(t.x, t.y, t.z));
                    Some((ONE_BITS, vals))
                } else {
                    None
                },
            };
            let entry = CharBoneSample {
                symbol: name,
                pos: pos_one,
                scale: None,
                quat: quat_one,
                rotz: None,
            };
            proof {
                assert(spec_one_quat_ok(doc, anim0, b, entry.quat)) by {
                    if spec_rot_static(anim0, b) {
                        let s = choose|s: int|
                            0 <= s < static_quats@.len() && #[trigger] static_quats@[s]
                                == (b, statq->Some_0);
                        assert(static_quats@[s].0 == b);
                    }
                }
                assert(spec_one_pos_ok(doc, anim0, b, entry.pos)) by {
                    if spec_is_root_bone(doc, b) && spec_trans_static(anim0, b) {
                        let s = choose|s: int|
                            0 <= s < static_poss@.len() && #[trigger] static_poss@[s]
                                == (b, statp->Some_0);
                        assert(static_poss@[s].0 == b);
                    }
                }
                assert(spec_one_entry_form(doc, anim0, b, entry));
            }
            let ghost ones_pre = one_samples@;
            one_samples.push(entry);
            proof {
                assert(!spec_covered(doc, anim0, b));
                assert forall|k: int|
                    0 <= k < one_samples@.len() implies spec_one_entry_sound(
                    doc,
                    anim0,
                    #[trigger] one_samples@[k],
                ) by {
                    if k < one_samples@.len() - 1 {
                        assert(one_samples@[k] == ones_pre[k]);
                        assert(spec_one_entry_sound(doc, anim0, ones_pre[k]));
                    } else {
                        assert(one_samples@[k] == entry);
                        assert(spec_active_bone(doc, b) && spec_named(doc, b)
                            && !spec_covered(doc, anim0, b) && spec_one_entry_form(
                            doc,
                            anim0,
                            b,
                            one_samples@[k],
                        ));
                        assert(spec_one_entry_sound(doc, anim0, one_samples@[k]));
                    }
                }
                assert forall|j: int|
                    0 <= j <= bi implies {
                    let bb = #[trigger] bone_ids@[j];
                    spec_named(doc, bb) && !spec_covered(doc, anim0, bb) ==> exists|
                        k: int,
                    |
                        0 <= k < one_samples@.len() && spec_one_entry_form(
                            doc,
                            anim0,
                            bb,
                            #[trigger] one_samples@[k],
                        )
                } by {
                    let bb = bone_ids@[j];
                    if spec_named(doc, bb) && !spec_covered(doc, anim0, bb) {
                        if j < bi {
                            let k = choose|k: int|
                                0 <= k < ones_pre.len() && spec_one_entry_form(
                                    doc,
                                    anim0,
                                    bb,
                                    #[trigger] ones_pre[k],
                                );
                            assert(one_samples@[k] == ones_pre[k]);
                        } else {
                            assert(one_samples@[one_samples@.len() - 1] == entry);
                        }
                    }
                }
            }
        } else {
            proof {
                assert(spec_covered(doc, anim0, b));
            }
        }
        bi = bi + 1;
    }
    one_samples
}

/// Wraps two sorted banks in a clip with the authoring metadata, the end
/// beat derived from the full bank's frame count.
fn make_clip(
    anim_name: String,
    full_sorted: Vec<CharBoneSample>,
    one_sorted: Vec<CharBoneSample>,
) -> (c: CharClipSamples)
    ensures
        c.name@ == anim_name@,
        c.start_beat == 0,
        c.beats_per_sec == BEATS_PER_SEC_BITS,
        c.play_flags == PLAY_REAL_TIME,
        c.blend_width == ONE_BITS,
        c.full.compression == 1,
        c.one.compression == 1,
        c.full.samples matches EncodedSamples::Uncompressed(fs) && fs@ == full_sorted@,
        c.one.samples matches EncodedSamples::Uncompressed(os) && os@ == one_sorted@,
        c.end_beat == crate::beats::spec_beats_bits(
            spec_end_frames(spec_sample_count(&c.full)),
        ),
{
    let mut full_bank = CharBonesSamples::default();
    full_bank.compression = 1;
    full_bank.samples = EncodedSamples::Uncompressed(full_sorted);
    let mut one_bank = CharBonesSamples::default();
    one_bank.compression = 1;
    one_bank.samples = EncodedSamples::Uncompressed(one_sorted);
    let sample_count = full_bank.get_sample_count();
    let frames_minus_one: usize = if sample_count > 1 {
        sample_count - 1
    } else {
        1
    };
    // Frame counts beyond the mantissa range of a 32-bit float lie
    // outside the format's timing precision; the end beat saturates
    // there.
    let beats_frames: u32 = if frames_minus_one <= 0x100_0000 {
        frames_minus_one as u32
    } else {
        0x100_0000
    };
    let end_beat = crate::beats::beats_bits_for_frames(beats_frames);
    proof {
        assert(beats_frames == spec_end_frames(spec_sample_count(&full_bank)));
    }
    let mut clip = CharClipSamples::default();
    clip.name = anim_name;
    clip.start_beat = 0;
    clip.end_beat = end_beat;
    clip.beats_per_sec = BEATS_PER_SEC_BITS;
    clip.play_flags = PLAY_REAL_TIME;
    clip.blend_width = ONE_BITS;
    clip.full = full_bank;
    clip.one = one_bank;
    clip.one.generate_bones_from_samples();
    clip.one.recompute_sizes();
    clip.full.generate_bones_from_samples();
    clip.full.recompute_sizes();
    clip
}

/// Builds one clip from one animation: both passes, the symbol sort, the
/// banks and the timing metadata.
fn assemble_clip(
    docr: &SceneDoc,
    anim: &AnimData,
    anim_name: String,
    bone_ids: &Vec<usize>,
) -> (c: CharClipSamples)
    requires
        spec_doc_wf(*docr),
        forall|x: usize| #[trigger] bone_ids@.contains(x) <==> spec_active_bone(*docr, x),
        forall|i: int|
            0 <= i < bone_ids@.len() ==> spec_active_bone(*docr, #[trigger] bone_ids@[i]),
        forall|cc: int|
            0 <= cc < anim.channels@.len() ==> {
                let ch = #[trigger] anim.channels@[cc];
                &&& (ch.property is Translation ==> ch.vec3_outputs@.len() >= 1)
                &&& (ch.property is Rotation ==> ch.quat_outputs@.len() >= 1)
            },
    ensures
        c.name@ == anim_name@,
        c.start_beat == 0,
        c.beats_per_sec == BEATS_PER_SEC_BITS,
        c.play_flags == PLAY_REAL_TIME,
        c.blend_width == ONE_BITS,
        c.full.compression == 1,
        c.one.compression == 1,
        c.end_beat == crate::beats::spec_beats_bits(
            spec_end_frames(spec_sample_count(&c.full)),
        ),
        c.full.samples matches EncodedSamples::Uncompressed(fs) && spec_sorted_samples(fs@)
            && spec_full_bank_sound(*docr, *anim, fs@) && spec_full_bank_complete(
            *docr,
            *anim,
            fs@,
        ),
        c.one.samples matches EncodedSamples::Uncompressed(os) && spec_sorted_samples(os@)
            && spec_one_bank_sound(*docr, *anim, os@) && spec_one_bank_complete(
            *docr,
            *anim,
            os@,
        ),
{
    let ghost doc = *docr;
    let ghost anim0 = *anim;
    let (full_samples, full_ids, static_quats, static_poss) = build_full_samples(
        docr,
        anim,
        bone_ids,
    );
    let one_samples = build_one_samples(
        docr,
        anim,
        bone_ids,
        &full_ids,
        &full_samples,
        &static_quats,
        &static_poss,
    );
    let ghost full_unsorted = full_samples@;
    let ghost one_unsorted = one_samples@;
    let full_samples = sort_samples_by_symbol(full_samples);
    let one_samples = sort_samples_by_symbol(one_samples);
    proof {
        lemma_full_bank_transfer(
            doc,
            anim0,
            full_ids@,
            full_unsorted,
            full_samples@,
            bone_ids@,
        );
        lemma_one_bank_transfer(doc, anim0, one_unsorted, one_samples@, bone_ids@);
    }
    let clip = make_clip(anim_name, full_samples, one_samples);
    clip
}

impl GltfImporter2 {
    /// Builds one clip per source animation and the bone hierarchy.
    ///
    /// Per animation: channels are grouped by target bone, later channels
    /// winning; a property whose sampled values are identical across all
    /// frames is folded into the "one" bank with one representative value
    /// rather than the "full" bank; only the root bone's translation is
    /// honoured; active bones missing full position-and-quaternion
    /// coverage get a synthesized "one" entry supplying the missing
    /// components from the recorded constant value or the rest pose; both
    /// banks are sorted by symbol; timing and playback metadata match
    /// authoring defaults, the end beat derived from the frame count.
    #[verifier::rlimit(100)]
    pub fn process(&self) -> (r: MiloAssets)
        requires
            spec_doc_wf(self.doc),
        ensures
            r.char_clip_samples@.len() == self.doc.animations@.len(),
            forall|i: int|
                0 <= i < r.char_clip_samples@.len() ==> {
                    let c = #[trigger] r.char_clip_samples@[i];
                    let anim = self.doc.animations@[i];
                    &&& c.start_beat == 0
                    &&& c.beats_per_sec == BEATS_PER_SEC_BITS
                    &&& c.play_flags == PLAY_REAL_TIME
                    &&& c.blend_width == ONE_BITS
                    &&& c.full.compression == 1
                    &&& c.one.compression == 1
                    &&& (anim.name matches Some(n) ==> c.name@ == n@)
                    &&& (anim.name is None && i <= u32::MAX ==> c.name@
                        == spec_anim_fallback_name(i))
                    &&& c.end_beat == crate::beats::spec_beats_bits(
                        spec_end_frames(spec_sample_count(&c.full)),
                    )
                    &&& c.full.samples matches EncodedSamples::Uncompressed(fs)
                        && spec_sorted_samples(fs@) && spec_full_bank_sound(self.doc, anim, fs@)
                        && spec_full_bank_complete(self.doc, anim, fs@)
                    &&& c.one.samples matches EncodedSamples::Uncompressed(os)
                        && spec_sorted_samples(os@) && spec_one_bank_sound(self.doc, anim, os@)
                        && spec_one_bank_complete(self.doc, anim, os@)
                },
            r.char_bones@.map_values(|cb: CharBone| spec_bone_view(cb)) == spec_forest_bones(
                self.doc,
                0,
                self.doc.nodes@.len() as int,
            ),
            forall|i: int| 0 <= i < r.char_bones@.len() ==> spec_char_bone_fixed(
                #[trigger] r.char_bones@[i],
            ),
    {
        let mut assets = MiloAssets { char_bones: Vec::new(), char_clip_samples: Vec::new() };
        let bone_ids = active_bone_ids(&self.doc);
        let ghost doc = self.doc;
        let mut ai: usize = 0;
        while ai < self.doc.animations.len()
            invariant
                spec_doc_wf(self.doc),
                doc == self.doc,
                ai <= self.doc.animations@.len(),
                forall|x: usize| #[trigger] bone_ids@.contains(x) <==> spec_active_bone(doc, x),
                forall|i: int|
                    0 <= i < bone_ids@.len() ==> spec_active_bone(doc, #[trigger] bone_ids@[i]),
                assets.char_clip_samples@.len() == ai,
                forall|i: int|
                    0 <= i < assets.char_clip_samples@.len() ==> {
                        let c = #[trigger] assets.char_clip_samples@[i];
                        let anim = doc.animations@[i];
                        &&& c.start_beat == 0
                        &&& c.beats_per_sec == BEATS_PER_SEC_BITS
                        &&& c.play_flags == PLAY_REAL_TIME
                        &&& c.blend_width == ONE_BITS
                        &&& c.full.compression == 1
                        &&& c.one.compression == 1
                        &&& (anim.name matches Some(n) ==> c.name@ == n@)
                        &&& (anim.name is None && i <= u32::MAX ==> c.name@
                            == spec_anim_fallback_name(i))
                        &&& c.end_beat == crate::beats::spec_beats_bits(
                            spec_end_frames(spec_sample_count(&c.full)),
                        )
                        &&& c.full.samples matches EncodedSamples::Uncompressed(fs)
                            && spec_sorted_samples(fs@) && spec_full_bank_sound(doc, anim, fs@)
                            && spec_full_bank_complete(doc, anim, fs@)
                        &&& c.one.samples matches EncodedSamples::Uncompressed(os)
                            && spec_sorted_samples(os@) && spec_one_bank_sound(doc, anim, os@)
                            && spec_one_bank_complete(doc, anim, os@)
                    },
            decreases self.doc.animations@.len() - ai,
        {
            let anim = &self.doc.animations[ai];
            let ghost anim0 = doc.animations@[ai as int];
            let anim_name: String = match &anim.name {
                Some(n) => n.clone(),
                None => {
                    let digits = crate::symbols::u32_to_decimal(ai as u32);
                    vstd::string::StringExecFns::concat(
                        <String as vstd::string::StringExecFns>::from_str("anim_"),
                        digits.as_str(),
                    )
                },
            };
            proof {
                if anim0.name is None && ai <= u32::MAX {
                    assert(anim_name@ == spec_anim_fallback_name(ai as int));
                }
            }
            proof {
                assert(forall|c: int|
                    0 <= c < anim.channels@.len() ==> {
                        let ch = #[trigger] anim.channels@[c];
                        &&& (ch.property is Translation ==> ch.vec3_outputs@.len() >= 1)
                        &&& (ch.property is Rotation ==> ch.quat_outputs@.len() >= 1)
                    });
            }
            let clip = assemble_clip(&self.doc, anim, anim_name, &bone_ids);
            assets.char_clip_samples.push(clip);
            ai = ai + 1;
        }
        assets.char_bones = self.generate_char_bones();
        assets
    }

    /// Walks the default scene depth first and collects one bone per node
    /// that carries the marker suffix and no mesh, in preorder, root by
    /// root.
    pub fn generate_char_bones(&self) -> (r: Vec<CharBone>)
        requires
            spec_doc_wf(self.doc),
        ensures
            r@.map_values(|cb: CharBone| spec_bone_view(cb)) == spec_forest_bones(
                self.doc,
                0,
                self.doc.nodes@.len() as int,
            ),
            forall|i: int| 0 <= i < r@.len() ==> spec_char_bone_fixed(#[trigger] r@[i]),
    {
        let ghost doc = self.doc;
        let ghost n = self.doc.nodes@.len() as int;
        let mut bones: Vec<CharBone> = Vec::new();
        let empty = String::new();
        let mut ri: usize = 0;
        proof {
            assert(bones@.map_values(|cb: CharBone| spec_bone_view(cb)) =~= Seq::<
                BoneView,
            >::empty());
        }
        while ri < self.doc.root_nodes.len()
            invariant
                spec_doc_wf(self.doc),
                doc == self.doc,
                n == doc.nodes@.len() as int,
                ri <= doc.root_nodes@.len(),
                empty@ == Seq::<char>::empty(),
                bones@.map_values(|cb: CharBone| spec_bone_view(cb)) + spec_forest_bones(
                    doc,
                    ri as int,
                    n,
                ) == spec_forest_bones(doc, 0, n),
                forall|i: int| 0 <= i < bones@.len() ==> spec_char_bone_fixed(
                    #[trigger] bones@[i],
                ),
            decreases doc.root_nodes@.len() - ri,
        {
            let root = self.doc.root_nodes[ri];
            let ghost pre = bones@;
            let mut result = self.bone_walk(root, &empty, self.doc.nodes.len());
            let ghost sub = result@;
            bones.append(&mut result);
            ri = ri + 1;
            proof {
                let view = |cb: CharBone| spec_bone_view(cb);
                assert(bones@ == pre + sub);
                assert(bones@.map_values(view) =~= pre.map_values(view) + sub.map_values(view));
                assert(spec_forest_bones(doc, ri - 1, n) == spec_char_bones(
                    doc,
                    doc.root_nodes@[ri - 1] as int,
                    Seq::<char>::empty(),
                    n,
                ) + spec_forest_bones(doc, ri as int, n));
                assert(bones@.map_values(view) + spec_forest_bones(doc, ri as int, n)
                    =~= spec_forest_bones(doc, 0, n));
            }
        }
        proof {
            assert(spec_forest_bones(doc, doc.root_nodes@.len() as int, n) =~= Seq::<
                BoneView,
            >::empty());
            assert(bones@.map_values(|cb: CharBone| spec_bone_view(cb)) =~= spec_forest_bones(
                doc,
                0,
                n,
            ));
        }
        bones
    }

    /// Collects the bones of one subtree, depth first in child order: a
    /// node is a bone when it carries no mesh and its name has the marker
    /// suffix; its symbol is the base name with the bone extension, its
    /// parent the nearest bone ancestor's symbol — a lookup relation,
    /// never a pointer.
    pub fn process_char_bone_node(&self, node: usize, parent_name: Option<&String>) -> (r: Vec<
        CharBone,
    >)
        requires
            spec_doc_wf(self.doc),
            node < self.doc.nodes@.len(),
        ensures
            r@.map_values(|cb: CharBone| spec_bone_view(cb)) == spec_char_bones(
                self.doc,
                node as int,
                match parent_name {
                    Some(p) => p@,
                    None => Seq::<char>::empty(),
                },
                self.doc.nodes@.len() as int,
            ),
            forall|i: int| 0 <= i < r@.len() ==> spec_char_bone_fixed(#[trigger] r@[i]),
    {
        let empty = String::new();
        let p: &String = match parent_name {
            Some(p) => p,
            None => &empty,
        };
        self.bone_walk(node, p, self.doc.nodes.len())
    }

    /// One step of the walk, with `fuel` levels of descent left.
    fn bone_walk(&self, node: usize, parent: &String, fuel: usize) -> (r: Vec<CharBone>)
        requires
            spec_doc_wf(self.doc),
            node < self.doc.nodes@.len(),
        ensures
            r@.map_values(|cb: CharBone| spec_bone_view(cb)) == spec_char_bones(
                self.doc,
                node as int,
                parent@,
                fuel as int,
            ),
            forall|i: int| 0 <= i < r@.len() ==> spec_char_bone_fixed(#[trigger] r@[i]),
        decreases fuel,
    {
        let ghost doc = self.doc;
        let mut out: Vec<CharBone> = Vec::new();
        if fuel == 0 {
            proof {
                assert(out@.map_values(|cb: CharBone| spec_bone_view(cb)) =~= Seq::<
                    BoneView,
                >::empty());
            }
            return out;
        }
        let mut bone_name: Option<String> = None;
        if let Some(nm) = &self.doc.nodes[node].name {
            if crate::symbols::str_ends_with(nm.as_str(), ".mesh")
                && !self.doc.nodes[node].has_mesh {
                let base = crate::symbols::get_basename(nm.as_str());
                bone_name = Some(vstd::string::StringExecFns::concat(base, ".trans"));
            }
        }
        proof {
            assert((bone_name is Some) == spec_is_char_bone(doc, node as int));
            if bone_name is Some {
                assert(bone_name->Some_0@ == spec_char_bone_name(doc, node as int));
            }
        }
        let np_string: String = match bone_name {
            Some(nm) => {
                out.push(
                    CharBone {
                        name: nm.clone(),
                        local_xfm: self.doc.nodes[node].local_xfm,
                        world_xfm: self.doc.nodes[node].world_xfm,
                        parent: parent.clone(),
                        position: true,
                        scale: true,
                        rotation: crate::char_bone::RotationConstraint::kRotFull,
                        unknown: ONE_BITS,
                    },
                );
                nm
            },
            None => parent.clone(),
        };
        let ghost view = |cb: CharBone| spec_bone_view(cb);
        let ghost head = out@.map_values(view);
        let ghost np = np_string@;
        proof {
            if spec_is_char_bone(doc, node as int) {
                assert(head =~= seq![
                    BoneView {
                        name: spec_char_bone_name(doc, node as int),
                        parent: parent@,
                        local_xfm: doc.nodes@[node as int].local_xfm,
                        world_xfm: doc.nodes@[node as int].world_xfm,
                    },
                ]);
                assert(np == spec_char_bone_name(doc, node as int));
            } else {
                assert(head =~= Seq::<BoneView>::empty());
                assert(np == parent@);
            }
            assert(spec_char_bones(doc, node as int, parent@, fuel as int) == head
                + spec_char_bones_kids(doc, node as int, np, 0, fuel as int));
        }
        let child_count = self.doc.nodes[node].children.len();
        let mut j: usize = 0;
        while j < child_count
            invariant
                spec_doc_wf(self.doc),
                doc == self.doc,
                node < doc.nodes@.len(),
                fuel >= 1,
                np == np_string@,
                view == (|cb: CharBone| spec_bone_view(cb)),
                child_count == doc.nodes@[node as int].children@.len(),
                j <= child_count,
                out@.map_values(view) + spec_char_bones_kids(
                    doc,
                    node as int,
                    np,
                    j as int,
                    fuel as int,
                ) == spec_char_bones(doc, node as int, parent@, fuel as int),
                forall|i: int| 0 <= i < out@.len() ==> spec_char_bone_fixed(#[trigger] out@[i]),
            decreases child_count - j,
        {
            let child = self.doc.nodes[node].children[j];
            let ghost pre = out@;
            let mut sub = self.bone_walk(child, &np_string, fuel - 1);
            let ghost subv = sub@;
            out.append(&mut sub);
            j = j + 1;
            proof {
                assert(out@ == pre + subv);
                assert(out@.map_values(view) =~= pre.map_values(view) + subv.map_values(view));
                assert(spec_char_bones_kids(doc, node as int, np, j - 1, fuel as int)
                    == spec_char_bones(doc, child as int, np, fuel - 1)
                    + spec_char_bones_kids(doc, node as int, np, j as int, fuel as int));
                assert(out@.map_values(view) + spec_char_bones_kids(
                    doc,
                    node as int,
                    np,
                    j as int,
                    fuel as int,
                ) =~= spec_char_bones(doc, node as int, parent@, fuel as int));
            }
        }
        proof {
            assert(spec_char_bones_kids(doc, node as int, np, j as int, fuel as int) =~= Seq::<
                BoneView,
            >::empty());
            assert(out@.map_values(view) =~= spec_char_bones(
                doc,
                node as int,
                parent@,
                fuel as int,
            ));
        }
        out
    }
}

} // verus!
