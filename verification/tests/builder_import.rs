//! Builder and importer tests: buffer batching, bone classification,
//! channel classification, the import pass, and the command models.

use pikaxe::accessor::{AccessorBuilder, BufferType, ComponentKind};
use pikaxe::cli::{AnimApp, MeshTool, Model2GroupApp, Options, SubCommand, ToolAction};
use pikaxe::import::{
    active_bone_ids, quat_has_changes, AnimData, ChannelData, ChannelProperty, GltfImporter2,
    SceneDoc, SceneNode,
};
use pikaxe::char_bones_samples::EncodedSamples;
use pikaxe::scene::{Matrix, Quat, Vector3};
use nalgebra as na;
use pikaxe::system::{IOEndian, Platform};

fn node(name: Option<&str>, children: Vec<usize>, has_mesh: bool) -> SceneNode {
    SceneNode {
        name: name.map(String::from),
        children,
        has_mesh,
        translation: Vector3::default(),
        rotation: Quat {
            x: 0,
            y: 0,
            z: 0,
            w: 1.0f32.to_bits(),
        },
        local_xfm: Matrix::identity(),
        world_xfm: Matrix::identity(),
    }
}

#[test]
fn builder_shares_region_for_same_stride_and_category() {
    // Two same-stride, same-category arrays land in one region, in
    // insertion order; a different category opens a new region.
    let mut b = AccessorBuilder::new();
    let first = b
        .add_array(
            String::from("first"),
            ComponentKind::F32,
            3,
            vec![vec![1.0f32.to_bits(), 0, 0], vec![0, 1.0f32.to_bits(), 0]],
            BufferType::Animation,
        )
        .unwrap();
    let second = b
        .add_array(
            String::from("second"),
            ComponentKind::F32,
            3,
            vec![vec![0, 0, 2.0f32.to_bits()]],
            BufferType::Animation,
        )
        .unwrap();
    let third = b
        .add_array(
            String::from("third"),
            ComponentKind::F32,
            3,
            vec![vec![7, 8, 9]],
            BufferType::Skin,
        )
        .unwrap();
    assert_eq!((first, second, third), (0, 1, 2));
    let a0 = &b.accessors[first];
    let a1 = &b.accessors[second];
    let a2 = &b.accessors[third];
    assert_eq!(a0.buffer_view, a1.buffer_view);
    assert_ne!(a0.buffer_view, a2.buffer_view);
    assert_eq!(a0.byte_offset, 0);
    // The second array starts right after the first one's two rows.
    assert_eq!(a1.byte_offset, 2 * 12);
    assert_eq!(a0.count, 2);

    let (accessors, views, buffer, data) = b.generate(String::from("out.bin"));
    assert_eq!(accessors.len(), 3);
    assert_eq!(views.len(), 2);
    // The shared region holds both arrays contiguously, insertion order
    // preserved in the generated buffer.
    let shared = &views[0];
    assert_eq!(shared.byte_offset, 0);
    assert_eq!(shared.byte_length, 3 * 12);
    let mut expected: Vec<u8> = Vec::new();
    for v in [1.0f32, 0.0, 0.0, 0.0, 1.0, 0.0] {
        expected.extend_from_slice(&v.to_bits().to_le_bytes());
    }
    for v in [0u32, 0, 2.0f32.to_bits()] {
        expected.extend_from_slice(&v.to_le_bytes());
    }
    assert_eq!(&data[0..36], &expected[..]);
    assert_eq!(buffer.byte_length, data.len());
    assert_eq!(buffer.uri.as_deref(), Some("out.bin"));
}

#[test]
fn builder_records_min_max() {
    let mut b = AccessorBuilder::new();
    let idx = b
        .add_scalar(
            String::from("weights"),
            ComponentKind::U16,
            vec![5, 2, 9],
            BufferType::Skin,
        )
        .unwrap();
    let acc = &b.accessors[idx];
    assert_eq!(acc.min, vec![2]);
    assert_eq!(acc.max, vec![9]);

    let mut b = AccessorBuilder::new();
    let idx = b
        .add_array(
            String::from("pos"),
            ComponentKind::F32,
            3,
            vec![
                vec![1.0f32.to_bits(), (-2.0f32).to_bits(), 0.5f32.to_bits()],
                vec![(-1.5f32).to_bits(), 4.0f32.to_bits(), 0.25f32.to_bits()],
            ],
            BufferType::Mesh,
        )
        .unwrap();
    let acc = &b.accessors[idx];
    let min: Vec<f32> = acc.min.iter().map(|b| f32::from_bits(*b)).collect();
    let max: Vec<f32> = acc.max.iter().map(|b| f32::from_bits(*b)).collect();
    assert_eq!(min, vec![-1.5, -2.0, 0.25]);
    assert_eq!(max, vec![1.0, 4.0, 0.5]);
}

#[test]
fn builder_skips_empty_arrays() {
    let mut b = AccessorBuilder::new();
    assert_eq!(
        b.add_array(
            String::from("empty"),
            ComponentKind::F32,
            3,
            vec![],
            BufferType::Mesh
        ),
        None
    );
    assert!(b.accessors.is_empty());
}

fn doc_with_skin(joints: Vec<usize>, nodes: Vec<SceneNode>) -> SceneDoc {
    let root_nodes = vec![0];
    SceneDoc {
        nodes,
        has_default_scene: true,
        root_nodes,
        skins: vec![joints],
        animations: vec![],
    }
}

#[test]
fn childless_joint_excluded_from_active_bones() {
    // A skin joint with zero children never enters the active bone set.
    let nodes = vec![
        node(Some("root.mesh"), vec![1, 2], false),
        node(Some("bone_a.mesh"), vec![2], false),
        node(Some("bone_leaf.mesh"), vec![], false),
    ];
    let doc = doc_with_skin(vec![1, 2], nodes);
    let active = active_bone_ids(&doc);
    assert_eq!(active, vec![1]);
}

#[test]
fn ignored_subtree_pruned_from_active_bones() {
    // An ignored name prunes its whole subtree, including the root of it.
    let nodes = vec![
        node(Some("root.mesh"), vec![1], false),
        node(Some("spot_ui.mesh"), vec![2], false),
        node(Some("bone_b.mesh"), vec![3], false),
        node(Some("bone_c.mesh"), vec![], false),
    ];
    let doc = doc_with_skin(vec![1, 2], nodes);
    let active = active_bone_ids(&doc);
    assert!(active.is_empty());
}

#[test]
fn quat_track_classification() {
    let q0 = Quat {
        x: 0,
        y: 0,
        z: 0,
        w: 1.0f32.to_bits(),
    };
    let q1 = Quat {
        x: 1.0f32.to_bits(),
        y: 0,
        z: 0,
        w: 0,
    };
    assert!(!quat_has_changes(&vec![q0, q0, q0]));
    assert!(quat_has_changes(&vec![q0, q0, q1]));
    assert!(!quat_has_changes(&vec![q0]));
}

fn rotation_channel(target: usize, outputs: Vec<Quat>) -> ChannelData {
    ChannelData {
        target,
        property: ChannelProperty::Rotation,
        vec3_outputs: vec![],
        quat_outputs: outputs,
    }
}

#[test]
fn constant_rotation_classified_static_not_full() {
    // A rotation channel with identical values across all frames lands in
    // the "one" bank with one representative value, not in "full".
    let q = Quat {
        x: 0,
        y: 0,
        z: 0.7071068f32.to_bits(),
        w: 0.7071067f32.to_bits(),
    };
    let nodes = vec![
        node(Some("root.mesh"), vec![1], false),
        node(Some("bone_a.mesh"), vec![2], false),
        node(Some("bone_tip.mesh"), vec![], false),
    ];
    let mut doc = doc_with_skin(vec![1], nodes);
    doc.animations = vec![AnimData {
        name: Some(String::from("wave")),
        channels: vec![rotation_channel(1, vec![q, q, q])],
    }];
    let importer = GltfImporter2 { doc };
    let assets = importer.process();
    assert_eq!(assets.char_clip_samples.len(), 1);
    let clip = &assets.char_clip_samples[0];
    assert_eq!(clip.name, "wave");
    match &clip.full.samples {
        EncodedSamples::Uncompressed(ss) => assert!(ss.is_empty()),
        _ => panic!("expected decoded samples"),
    }
    match &clip.one.samples {
        EncodedSamples::Uncompressed(ss) => {
            assert_eq!(ss.len(), 1);
            assert_eq!(ss[0].symbol, "bone_a");
            let (_, vals) = ss[0].quat.as_ref().unwrap();
            assert_eq!(vals.len(), 1);
        }
        _ => panic!("expected decoded samples"),
    }
}

#[test]
fn changing_rotation_classified_full() {
    let q0 = Quat {
        x: 0,
        y: 0,
        z: 0,
        w: 1.0f32.to_bits(),
    };
    let q1 = Quat {
        x: 0,
        y: 0,
        z: 0.5f32.to_bits(),
        w: 0.5f32.to_bits(),
    };
    let nodes = vec![
        node(Some("root.mesh"), vec![1], false),
        node(Some("bone_a.mesh"), vec![2], false),
        node(Some("bone_tip.mesh"), vec![], false),
    ];
    let mut doc = doc_with_skin(vec![1], nodes);
    doc.animations = vec![AnimData {
        name: None,
        channels: vec![rotation_channel(1, vec![q0, q1, q0])],
    }];
    let importer = GltfImporter2 { doc };
    let assets = importer.process();
    let clip = &assets.char_clip_samples[0];
    // The unnamed animation gets an index-derived name.
    assert_eq!(clip.name, "anim_0");
    match &clip.full.samples {
        EncodedSamples::Uncompressed(ss) => {
            assert_eq!(ss.len(), 1);
            assert_eq!(ss[0].symbol, "bone_a");
            let (_, vals) = ss[0].quat.as_ref().unwrap();
            assert_eq!(vals.len(), 3);
        }
        _ => panic!("expected decoded samples"),
    }
    // End beat: two frame steps at 30 frames per second, 2.5 beats per
    // second.
    assert_eq!(clip.end_beat, (2.0f32 / 30.0 * 2.5).to_bits());
    assert_eq!(clip.play_flags, 512);
    assert_eq!(clip.beats_per_sec, 2.5f32.to_bits());
    assert_eq!(clip.blend_width, 1.0f32.to_bits());
}

#[test]
fn char_bones_from_hierarchy() {
    let nodes = vec![
        node(Some("root_group"), vec![1], false),
        node(Some("bone_a.mesh"), vec![2], false),
        node(Some("bone_b.mesh"), vec![], false),
    ];
    let doc = SceneDoc {
        nodes,
        has_default_scene: true,
        root_nodes: vec![0],
        skins: vec![],
        animations: vec![],
    };
    let importer = GltfImporter2 { doc };
    let bones = importer.generate_char_bones();
    let names: Vec<&str> = bones.iter().map(|b| b.name.as_str()).collect();
    assert_eq!(names, vec!["bone_a.trans", "bone_b.trans"]);
    assert_eq!(bones[0].parent, "");
    assert_eq!(bones[1].parent, "bone_a.trans");
}

#[test]
fn mesh_with_geometry_is_not_a_bone() {
    let nodes = vec![node(Some("thing.mesh"), vec![], true)];
    let doc = SceneDoc {
        nodes,
        has_default_scene: true,
        root_nodes: vec![0],
        skins: vec![],
        animations: vec![],
    };
    let importer = GltfImporter2 { doc };
    assert!(importer.generate_char_bones().is_empty());
}

#[test]
fn mesh_tool_dispatches_anim_command() {
    let mut tool = MeshTool::new(Options {
        commands: SubCommand::Anim(AnimApp {
            anim_path: String::from("in.gltf"),
            output_path: String::from("out"),
            big_endian: true,
        }),
    });
    match tool.run() {
        ToolAction::ImportAnim {
            anim_path,
            output_path,
            info,
        } => {
            assert_eq!(anim_path, "in.gltf");
            assert_eq!(output_path, "out");
            assert_eq!(info.version, 25);
            assert_eq!(info.platform, Platform::X360);
            assert_eq!(info.endian, IOEndian::Big);
        }
        _ => panic!("wrong action"),
    }
}

#[test]
fn mesh_tool_dispatches_model_command() {
    let mut tool = MeshTool::new(Options {
        commands: SubCommand::Model2Group(Model2GroupApp {
            model_path: String::from("m.gltf"),
            output_path: String::from("dir"),
        }),
    });
    match tool.run() {
        ToolAction::ConvertModel { info, .. } => {
            assert_eq!(info.platform, Platform::PS3);
            assert_eq!(info.endian, IOEndian::Big);
        }
        _ => panic!("wrong action"),
    }
}

#[test]
fn decompose_identity_and_z_rotation() {
    // Matrix decomposition happens in the front end with nalgebra; the
    // identity yields zero translation, the identity rotation and unit
    // scale, and a pure 90-degree z-rotation yields the half-angle
    // quaternion.
    let mat = na::Matrix4::<f32>::identity();
    let translate = mat.column(3).xyz();
    let rotation = na::UnitQuaternion::from_matrix(&mat.fixed_view::<3, 3>(0, 0).into());
    let scale = na::Vector3::new(
        mat.column(0).magnitude(),
        mat.column(1).magnitude(),
        mat.column(2).magnitude(),
    );
    assert_eq!(translate, na::Vector3::new(0.0, 0.0, 0.0));
    assert_eq!(rotation.into_inner().coords.w, 1.0);
    assert_eq!(scale, na::Vector3::new(1.0, 1.0, 1.0));

    let rot = na::Rotation3::from_axis_angle(&na::Vector3::z_axis(), std::f32::consts::FRAC_PI_2)
        .to_homogeneous();
    let q = na::UnitQuaternion::from_matrix(&rot.fixed_view::<3, 3>(0, 0).into());
    let c = q.into_inner().coords;
    let expected = [0.0f32, 0.0, 0.7071068, 0.7071067];
    for (got, want) in [c.x, c.y, c.z, c.w].iter().zip(expected.iter()) {
        assert!((got - want).abs() <= 2.0 * f32::EPSILON, "{got} vs {want}");
    }
}

#[test]
fn rotation_track_precedence() {
    // Every frame starts at the rest rotation; quaternion samples
    // overwrite their frames, z-rotation samples overwrite theirs last.
    let rest = Quat {
        x: 0,
        y: 0,
        z: 0,
        w: 1.0f32.to_bits(),
    };
    let q = Quat {
        x: 1,
        y: 0,
        z: 0,
        w: 0,
    };
    let z = Quat {
        x: 0,
        y: 2,
        z: 0,
        w: 0,
    };
    let track = pikaxe::export::build_rotation_track(rest, &Some(vec![q, q]), &Some(vec![z]), 4);
    assert_eq!(track, vec![z, q, rest, rest]);
    let track = pikaxe::export::build_rotation_track(rest, &None, &None, 2);
    assert_eq!(track, vec![rest, rest]);
}

#[test]
fn translation_track_synthesizes_rest_sample() {
    // A bone lacking position samples gets one sample from the node's
    // current translation: channels must never be empty.
    let t = Vector3 {
        x: 5,
        y: 6,
        z: 7,
    };
    assert_eq!(pikaxe::export::build_translation_track(t, &None), vec![t]);
    assert_eq!(
        pikaxe::export::build_translation_track(t, &Some(vec![])),
        vec![t]
    );
    let vals = vec![Vector3 { x: 1, y: 2, z: 3 }];
    assert_eq!(
        pikaxe::export::build_translation_track(t, &Some(vals.clone())),
        vals
    );
}

#[test]
fn child_nodes_sorted_and_self_reference_ignored() {
    let entry = |name: &str, parent: &str| pikaxe::export::TransEntry {
        name: String::from(name),
        parent: String::from(parent),
    };
    let entries = vec![
        entry("zeta", "dir"),
        entry("alpha", "dir"),
        entry("selfish", "selfish"),
        entry("other", "elsewhere"),
    ];
    let roots = pikaxe::export::find_bones("dir", &entries);
    // Children come back sorted by name; the self-referencing entry is
    // ignored.
    assert_eq!(roots, vec![1, 0]);
}
