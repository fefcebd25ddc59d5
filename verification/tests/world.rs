use radia::csg::Instruction;
use radia::csg::PrimitiveKind;
use radia::csg_tree::CSGNode;
use radia::config::{build_world_config, CSGConfig, CellConfig, WorldConfigError};
use radia::input::InputError;
use radia::names::NameMap;
use radia::world::{build_world, CSGInput, CellInput};

fn name(s: &str) -> CSGInput {
    CSGInput::Name(s.to_string())
}

fn op(o: &str, prs: Vec<CSGInput>) -> CSGInput {
    CSGInput::Operation { op: o.to_string(), prs }
}

fn materials(names: &[&str]) -> NameMap {
    let mut m = NameMap::new();
    for (i, n) in names.iter().enumerate() {
        m.insert(n.to_string(), i);
    }
    m
}

#[test]
fn test_deserialize_world_input() {
    let prims = vec![
        ("unused".to_string(), PrimitiveKind::Sphere),
        ("source".to_string(), PrimitiveKind::Sphere),
        ("whole_world".to_string(), PrimitiveKind::RectangularParallelPiped),
    ];
    let cells = vec![
        CellInput { material_name: "Water".to_string(), csg: name("source") },
        CellInput {
            material_name: "Air".to_string(),
            csg: op("difference", vec![name("whole_world"), name("source")]),
        },
    ];
    assert_eq!(prims.len(), 3);
    assert_eq!(cells.len(), 2);

    let material_map = materials(&["Water", "Air"]);
    let (world, ids) = build_world(&prims, &cells, &material_map).unwrap();
    assert_eq!(world.primitives.len(), 2);
    assert_eq!(world.cells.len(), 2);
    assert_eq!(world.cells[0].material_id, 0); // Water
    assert_eq!(world.cells[1].material_id, 1); // Air
    assert_eq!(ids, vec![None, Some(0), Some(1)]);
    let (source_pid, whole_world_pid) = (0, 1);

    assert_eq!(
        world.cells[0].csg.instructions,
        vec![Instruction::PushPrimitive(source_pid)]
    );
    assert_eq!(
        world.cells[1].csg.instructions,
        vec![
            Instruction::PushPrimitive(whole_world_pid),
            Instruction::PushPrimitive(source_pid),
            Instruction::Difference
        ]
    );
}

#[test]
fn test_complicated_csg() {
    let names = ["s1", "s2", "s3", "s4", "s5", "s6", "s7"];
    let prims: Vec<(String, PrimitiveKind)> =
        names.iter().map(|n| (n.to_string(), PrimitiveKind::Sphere)).collect();
    let cells = vec![CellInput {
        material_name: "Water".to_string(),
        csg: op("union", names.iter().map(|n| name(n)).collect()),
    }];
    let material_map = materials(&["Water"]);
    let (world, _) = build_world(&prims, &cells, &material_map).unwrap();
    assert_eq!(world.cells[0].csg.instructions.len(), 8);
    assert_eq!(
        world.cells[0].csg.instructions.last(),
        Some(&Instruction::Union)
    );
}

#[test]
fn world_build_errors() {
    let prims = vec![("s".to_string(), PrimitiveKind::Sphere)];
    let material_map = materials(&["Water"]);
    let cells = vec![CellInput { material_name: "Lead".to_string(), csg: name("s") }];
    match build_world(&prims, &cells, &material_map) {
        Err(InputError::MaterialNotFound(m)) => assert_eq!(m, "Lead"),
        other => panic!("unexpected {:?}", other.map(|_| ())),
    }
    let cells = vec![CellInput { material_name: "Water".to_string(), csg: name("t") }];
    match build_world(&prims, &cells, &material_map) {
        Err(InputError::PrimitiveNotFound(m)) => assert_eq!(m, "t"),
        other => panic!("unexpected {:?}", other.map(|_| ())),
    }
    let cells = vec![CellInput { material_name: "Water".to_string(), csg: op("union", vec![]) }];
    assert!(matches!(
        build_world(&prims, &cells, &material_map),
        Err(InputError::EmptyCsgOperation)
    ));
    let cells = vec![CellInput { material_name: "Water".to_string(), csg: op("xor", vec![name("t")]) }];
    match build_world(&prims, &cells, &material_map) {
        Err(InputError::UnknownCsgOperation(m)) => assert_eq!(m, "xor"),
        other => panic!("unexpected {:?}", other.map(|_| ())),
    }
}

#[test]
fn world_build_aliases_and_nesting() {
    let prims = vec![
        ("a".to_string(), PrimitiveKind::Sphere),
        ("b".to_string(), PrimitiveKind::FiniteCylinder),
        ("c".to_string(), PrimitiveKind::RectangularParallelPiped),
    ];
    let cells = vec![CellInput {
        material_name: "Water".to_string(),
        csg: op("outer", vec![name("c"), op("inner", vec![name("a"), name("b")])]),
    }];
    let material_map = materials(&["Water"]);
    let (world, ids) = build_world(&prims, &cells, &material_map).unwrap();
    assert_eq!(ids, vec![Some(0), Some(1), Some(2)]);
    assert_eq!(
        world.cells[0].csg.instructions,
        vec![
            Instruction::PushPrimitive(2),
            Instruction::PushPrimitive(0),
            Instruction::PushPrimitive(1),
            Instruction::Intersection,
            Instruction::Union
        ]
    );
}

fn cname(s: &str) -> CSGConfig {
    CSGConfig::Name(s.to_string())
}

fn cop(o: &str, prs: Vec<CSGConfig>) -> CSGConfig {
    CSGConfig::Operation { op: o.to_string(), prs }
}

#[test]
fn test_deserialize_world_config() {
    let prims = vec![
        ("unused".to_string(), None),
        ("source".to_string(), None),
        ("whole_world".to_string(), None),
    ];
    let materials = vec!["Water".to_string(), "Air".to_string()];
    let cells = vec![
        CellConfig { material_name: "Water".to_string(), csg: cop("inner", vec![cname("source")]) },
        CellConfig {
            material_name: "Air".to_string(),
            csg: cop("difference", vec![cname("whole_world"), cname("source")]),
        },
    ];
    assert_eq!(prims.len(), 3);
    assert_eq!(materials.len(), 2);
    assert_eq!(cells.len(), 2);

    let (world_cells, ids) = build_world_config(&prims, &materials, &cells).unwrap();
    assert_eq!(ids.iter().filter(|i| i.is_some()).count(), 2);
    assert_eq!(world_cells.len(), 2);
    assert_eq!(world_cells[0].csg, CSGNode::Primitive(0));
    assert_eq!(world_cells[0].material_id, 0); // Water
    assert_eq!(world_cells[1].material_id, 1); // Air
    assert_eq!(
        world_cells[1].csg,
        CSGNode::Difference(
            Box::new(CSGNode::Primitive(1)),
            Box::new(CSGNode::Primitive(0)),
        )
    );
}

#[test]
fn world_config_left_fold_and_errors() {
    let prims = vec![
        ("a".to_string(), None),
        ("b".to_string(), None),
        ("c".to_string(), None),
        ("bad".to_string(), Some("radius must be non-negative, got -1".to_string())),
    ];
    let materials = vec!["Water".to_string()];
    let cells = vec![CellConfig {
        material_name: "Water".to_string(),
        csg: cop("union", vec![cname("a"), cname("b"), cname("c")]),
    }];
    let (world_cells, ids) = build_world_config(&prims, &materials, &cells).unwrap();
    assert_eq!(ids, vec![Some(0), Some(1), Some(2), None]);
    assert_eq!(
        world_cells[0].csg,
        CSGNode::Union(
            Box::new(CSGNode::Union(
                Box::new(CSGNode::Primitive(0)),
                Box::new(CSGNode::Primitive(1))
            )),
            Box::new(CSGNode::Primitive(2))
        )
    );
    // an invalid primitive matters only when a cell uses it
    let cells = vec![CellConfig {
        material_name: "Nope".to_string(),
        csg: cop("union", vec![cname("a"), cname("bad")]),
    }];
    match build_world_config(&prims, &materials, &cells) {
        Err(WorldConfigError::InvalidPrimitive { name, reason }) => {
            assert_eq!(name, "bad");
            assert_eq!(reason, "radius must be non-negative, got -1");
        }
        other => panic!("unexpected {:?}", other.map(|_| ())),
    }
    let cells = vec![CellConfig { material_name: "Nope".to_string(), csg: cname("a") }];
    assert!(matches!(
        build_world_config(&prims, &materials, &cells),
        Err(WorldConfigError::MaterialNotFound(_))
    ));
}

#[test]
fn built_world_refers_only_to_stored_primitives() {
    let prims = vec![
        ("a".to_string(), PrimitiveKind::Sphere),
        ("unused".to_string(), PrimitiveKind::FiniteCylinder),
        ("b".to_string(), PrimitiveKind::RectangularParallelPiped),
        ("c".to_string(), PrimitiveKind::Sphere),
    ];
    let cells = vec![
        CellInput {
            material_name: "Water".to_string(),
            csg: op("intersection", vec![name("c"), op("union", vec![name("a"), name("b")])]),
        },
        CellInput { material_name: "Water".to_string(), csg: name("b") },
    ];
    let (world, ids) = build_world(&prims, &cells, &materials(&["Water"])).unwrap();
    assert_eq!(ids, vec![Some(0), None, Some(1), Some(2)]);
    let n = world.primitives.len();
    assert_eq!(n, 3);
    for cell in &world.cells {
        for ins in &cell.csg.instructions {
            if let Instruction::PushPrimitive(id) = ins {
                assert!(*id < n);
            }
        }
    }
    // binary operations only: every cell is a valid program
    assert!(world.validate().is_ok());
}

#[test]
fn built_config_trees_refer_only_to_kept_shapes() {
    let prims = vec![
        ("a".to_string(), None),
        ("unused".to_string(), Some("bad radius".to_string())),
        ("b".to_string(), None),
    ];
    let cells = vec![CellConfig {
        material_name: "Iron".to_string(),
        csg: cop("union", vec![cname("b"), cname("a"), cname("b")]),
    }];
    let (out, ids) = build_world_config(&prims, &vec!["Iron".to_string()], &cells).unwrap();
    assert_eq!(ids, vec![Some(0), None, Some(1)]);
    assert!(radia::csg_tree::check_cells_primitive_indices(&out, 2));
    assert!(!radia::csg_tree::check_cells_primitive_indices(&out, 1));
}
