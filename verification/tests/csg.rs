use radia::csg::Instruction::{Complement, Difference, Intersection, PushPrimitive, Union};
use radia::csg::{
    validate_csg_instructions, CSGInstructionValidationError, Cell, FlatCSG, Instruction,
    PrimitiveKind, PrimitiveStorage, PrimitiveTag, World,
};

#[test]
fn test_validate_single_primitive() {
    let instructions = vec![PushPrimitive(0)];
    assert_eq!(validate_csg_instructions(&instructions), Ok(()));
}

#[test]
fn test_validate_two_primitives_no_op() {
    let instructions = vec![PushPrimitive(0), PushPrimitive(1)];
    assert!(matches!(
        validate_csg_instructions(&instructions),
        Err(CSGInstructionValidationError::StackNotExhausted { remaining: 2 })
    ));
}

#[test]
fn test_validate_union() {
    let instructions = vec![PushPrimitive(0), PushPrimitive(1), Union];
    assert_eq!(validate_csg_instructions(&instructions), Ok(()));
}

#[test]
fn test_validate_complement() {
    let instructions = vec![PushPrimitive(0), Complement];
    assert_eq!(validate_csg_instructions(&instructions), Ok(()));
}

#[test]
fn test_validate_underflow() {
    let instructions = vec![PushPrimitive(0), Union];
    assert!(matches!(
        validate_csg_instructions(&instructions),
        Err(CSGInstructionValidationError::StackUnderflow { .. })
    ));
}

#[test]
fn test_validate_complex() {
    // (A union B) difference (complement C)
    let instructions = vec![
        PushPrimitive(0),
        PushPrimitive(1),
        Union,
        PushPrimitive(2),
        Complement,
        Difference,
    ];
    assert_eq!(validate_csg_instructions(&instructions), Ok(()));
}

#[test]
fn test_check_primitive_indices() {
    let world = World {
        primitives: PrimitiveStorage::new(),
        cells: vec![],
    };
    assert!(world.validate().is_ok());

    let world = World {
        primitives: PrimitiveStorage::new(),
        cells: vec![Cell {
            csg: FlatCSG {
                instructions: vec![PushPrimitive(0)],
            },
            material_id: 0,
        }],
    };
    assert!(world.validate().is_err());

    let mut primitives = PrimitiveStorage::new();
    primitives.add(PrimitiveKind::Sphere);
    let world = World {
        primitives,
        cells: vec![Cell {
            csg: FlatCSG {
                instructions: vec![PushPrimitive(0)],
            },
            material_id: 0,
        }],
    };
    assert!(world.validate().is_ok());

    let mut primitives = PrimitiveStorage::new();
    primitives.add(PrimitiveKind::Sphere);
    let world = World {
        primitives,
        cells: vec![Cell {
            csg: FlatCSG {
                instructions: vec![PushPrimitive(0), PushPrimitive(1), Union],
            },
            material_id: 0,
        }],
    };
    assert!(world.validate().is_err());
}

#[test]
fn validate_reports_empty_program() {
    assert_eq!(
        validate_csg_instructions(&[]),
        Err(CSGInstructionValidationError::EmptyInstructions)
    );
}

#[test]
fn validate_reports_first_underflow_with_name() {
    let instructions = vec![PushPrimitive(0), Complement, Intersection, Union];
    assert_eq!(
        validate_csg_instructions(&instructions),
        Err(CSGInstructionValidationError::StackUnderflow {
            index: 2,
            instruction: "Intersection".to_string(),
        })
    );
    let instructions = vec![Complement];
    assert_eq!(
        validate_csg_instructions(&instructions),
        Err(CSGInstructionValidationError::StackUnderflow {
            index: 0,
            instruction: "Complement".to_string(),
        })
    );
}

#[test]
fn world_validate_reports_index_errors_before_program_errors() {
    let mut primitives = PrimitiveStorage::new();
    primitives.add(PrimitiveKind::Sphere);
    let world = World {
        primitives,
        cells: vec![
            Cell {
                csg: FlatCSG { instructions: vec![PushPrimitive(0)] },
                material_id: 0,
            },
            Cell {
                csg: FlatCSG { instructions: vec![Union, PushPrimitive(3)] },
                material_id: 1,
            },
        ],
    };
    assert_eq!(
        world.validate(),
        Err(CSGInstructionValidationError::PrimitiveIndexOutOfBounds { index: 3 })
    );
}

#[test]
fn world_validate_limits_indices_to_the_bitmask() {
    let mut primitives = PrimitiveStorage::new();
    for _ in 0..70 {
        primitives.add(PrimitiveKind::RectangularParallelPiped);
    }
    let world = World {
        primitives,
        cells: vec![Cell {
            csg: FlatCSG { instructions: vec![PushPrimitive(64)] },
            material_id: 0,
        }],
    };
    assert_eq!(
        world.validate(),
        Err(CSGInstructionValidationError::Other(
            "Only up to 64 primitives are supported for bitmask evaluation".to_string()
        ))
    );
}

fn eval(instructions: Vec<Instruction>, mask: u64) -> bool {
    FlatCSG { instructions }.evaluate_bitmask(mask)
}

#[test]
fn evaluate_bitmask_follows_set_semantics() {
    // (A union B) difference (complement C)  ==  (A or B) and C
    let program = vec![
        PushPrimitive(0),
        PushPrimitive(1),
        Union,
        PushPrimitive(2),
        Complement,
        Difference,
    ];
    for mask in 0u64..8 {
        let a = mask & 1 != 0;
        let b = mask & 2 != 0;
        let c = mask & 4 != 0;
        assert_eq!(eval(program.clone(), mask), (a || b) && c, "mask {mask}");
    }
    assert!(eval(vec![PushPrimitive(63)], 1u64 << 63));
    assert!(!eval(vec![PushPrimitive(63)], 1));
    assert!(eval(vec![PushPrimitive(0), PushPrimitive(1), Intersection], 3));
    assert!(!eval(vec![PushPrimitive(0), PushPrimitive(1), Intersection], 1));
}

#[test]
fn evaluate_bitmask_handles_a_deep_stack() {
    // 64 pushes then 63 unions: the stack fills all 64 bits of the word.
    let mut program: Vec<Instruction> = (0..64).map(PushPrimitive).collect();
    program.extend(std::iter::repeat(Union).take(63));
    assert!(validate_csg_instructions(&program).is_ok());
    assert!(eval(program.clone(), 1u64 << 40));
    assert!(!eval(program, 0));
}

#[test]
fn primitive_storage_numbers_by_kind() {
    let mut s = PrimitiveStorage::new();
    assert_eq!(s.add(PrimitiveKind::Sphere), 0);
    assert_eq!(s.add(PrimitiveKind::FiniteCylinder), 1);
    assert_eq!(s.add(PrimitiveKind::Sphere), 2);
    assert_eq!(s.add(PrimitiveKind::RectangularParallelPiped), 3);
    assert_eq!(s.len(), 4);
    assert_eq!(
        s.tags(),
        &vec![
            PrimitiveTag::Sphere(0),
            PrimitiveTag::Cylinder(0),
            PrimitiveTag::Sphere(1),
            PrimitiveTag::RPP(0)
        ]
    );
    assert_eq!(s.indices(PrimitiveKind::Sphere), &vec![0, 2]);
    assert_eq!(s.indices(PrimitiveKind::FiniteCylinder), &vec![1]);
    assert_eq!(s.indices(PrimitiveKind::RectangularParallelPiped), &vec![3]);
}

#[test]
fn material_at_takes_the_first_matching_cell() {
    let mut primitives = PrimitiveStorage::new();
    primitives.add(PrimitiveKind::Sphere);
    primitives.add(PrimitiveKind::RectangularParallelPiped);
    let world = World {
        primitives,
        cells: vec![
            // inside the sphere
            Cell { csg: FlatCSG { instructions: vec![PushPrimitive(0)] }, material_id: 7 },
            // inside the box but not the sphere
            Cell {
                csg: FlatCSG { instructions: vec![PushPrimitive(1), PushPrimitive(0), Difference] },
                material_id: 3,
            },
            // inside the box (shadowed by the two cells before)
            Cell { csg: FlatCSG { instructions: vec![PushPrimitive(1)] }, material_id: 9 },
        ],
    };
    assert!(world.validate().is_ok());
    assert_eq!(world.material_at(0b00), None);
    assert_eq!(world.material_at(0b01), Some(7));
    assert_eq!(world.material_at(0b11), Some(7));
    assert_eq!(world.material_at(0b10), Some(3));
}

#[test]
fn stack_depth_fits_in_one_word() {
    let shallow = FlatCSG { instructions: vec![PushPrimitive(0), PushPrimitive(1), Union] };
    assert!(shallow.stack_fits_in_word());
    let mut deep = Vec::new();
    for _ in 0..64 {
        deep.push(PushPrimitive(0));
    }
    assert!(FlatCSG { instructions: deep.clone() }.stack_fits_in_word());
    deep.push(PushPrimitive(0));
    assert!(!FlatCSG { instructions: deep }.stack_fits_in_word());
}
