use radia::atomic_number::{
    atomic_number_from_i64, atomic_number_from_u64, repeated_element, symbol_to_atomic_number,
};
use radia::csg_tree::{check_cells_primitive_indices, material_containing, CSGNode, Cell};
use radia::gui::validation_result;
use radia::input::{validate_energy_group_lengths, InputError};
use radia::report::{PhysicsSummary, RunMetadata};

#[test]
fn symbols_map_to_atomic_numbers() {
    assert_eq!(symbol_to_atomic_number("H"), Some(1));
    assert_eq!(symbol_to_atomic_number("He"), Some(2));
    assert_eq!(symbol_to_atomic_number("O"), Some(8));
    assert_eq!(symbol_to_atomic_number("Fe"), Some(26));
    assert_eq!(symbol_to_atomic_number("Pb"), Some(82));
    assert_eq!(symbol_to_atomic_number("Og"), Some(118));
    assert_eq!(symbol_to_atomic_number("fe"), None);
    assert_eq!(symbol_to_atomic_number("Xx"), None);
    assert_eq!(symbol_to_atomic_number(""), None);
}

#[test]
fn atomic_numbers_in_range() {
    assert_eq!(atomic_number_from_u64(0), None);
    assert_eq!(atomic_number_from_u64(1), Some(1));
    assert_eq!(atomic_number_from_u64(118), Some(118));
    assert_eq!(atomic_number_from_u64(119), None);
    assert_eq!(atomic_number_from_i64(-3), None);
    assert_eq!(atomic_number_from_i64(0), None);
    assert_eq!(atomic_number_from_i64(26), Some(26));
    assert_eq!(atomic_number_from_i64(119), None);
}

fn sh(id: usize) -> Box<CSGNode> {
    Box::new(CSGNode::Primitive(id))
}

#[test]
fn tree_containment() {
    // (0 union 1) difference 2
    let node = CSGNode::Difference(Box::new(CSGNode::Union(sh(0), sh(1))), sh(2));
    assert!(node.contains(&[true, false, false]));
    assert!(node.contains(&[false, true, false]));
    assert!(!node.contains(&[true, true, true]));
    assert!(!node.contains(&[false, false, false]));
    let node = CSGNode::Intersection(sh(0), sh(1));
    assert!(node.contains(&[true, true]));
    assert!(!node.contains(&[true, false]));
}

#[test]
fn tree_index_check() {
    let cells = vec![
        Cell { csg: CSGNode::Union(sh(0), sh(1)), material_id: 0 },
        Cell { csg: CSGNode::Difference(sh(1), sh(2)), material_id: 1 },
    ];
    assert!(check_cells_primitive_indices(&cells, 3));
    assert!(!check_cells_primitive_indices(&cells, 2));
    assert!(cells[0].csg.check_primitive_indices(2));
}

#[test]
fn energy_group_lengths() {
    assert!(validate_energy_group_lengths(3, 3, 3).is_ok());
    match validate_energy_group_lengths(3, 2, 3) {
        Err(InputError::InvalidEnergyGroupLength(m)) => {
            assert_eq!(m, "energy_groups length and intensity_by_group length must match")
        }
        _ => panic!("expected InvalidEnergyGroupLength"),
    }
    match validate_energy_group_lengths(3, 3, 1) {
        Err(InputError::InvalidEnergyGroupLength(m)) => {
            assert_eq!(m, "conversion_factors length must match sources energy_groups length")
        }
        _ => panic!("expected InvalidEnergyGroupLength"),
    }
}

#[test]
fn validation_results() {
    let ok = validation_result(None);
    assert!(ok.valid);
    assert!(ok.errors.is_empty());
    let r = validation_result(Some("first\r\n  \nsecond\n".to_string()));
    assert!(!r.valid);
    assert_eq!(r.errors, vec!["first".to_string(), "second".to_string()]);
    let r = validation_result(Some(" \n\t".to_string()));
    assert_eq!(r.errors, vec![" \n\t".to_string()]);
    let r = validation_result(Some("only".to_string()));
    assert_eq!(r.errors, vec!["only".to_string()]);
}

#[test]
fn report_defaults_are_empty() {
    let m = RunMetadata::default();
    assert!(m.radia_rs_version.is_empty() && m.timestamp.is_empty());
    let p = PhysicsSummary::default();
    assert!(p.cross_section_library.is_empty() && p.buildup_library.is_empty());
}

#[test]
fn repeated_composition_elements() {
    assert_eq!(repeated_element(&vec![]), None);
    assert_eq!(repeated_element(&vec![1, 8]), None);
    assert_eq!(repeated_element(&vec![1, 8, 1]), Some(1));
    // the first key that repeats an earlier one, in reading order
    assert_eq!(repeated_element(&vec![26, 8, 8, 26]), Some(8));
    assert_eq!(repeated_element(&vec![26, 8, 1, 26, 8]), Some(26));
}

#[test]
fn tree_cells_resolve_the_first_containing_material() {
    let cells = vec![
        Cell { csg: CSGNode::Difference(sh(0), sh(1)), material_id: 4 },
        Cell { csg: CSGNode::Union(sh(0), sh(1)), material_id: 2 },
    ];
    assert_eq!(material_containing(&cells, &[true, false]), Some(4));
    assert_eq!(material_containing(&cells, &[true, true]), Some(2));
    assert_eq!(material_containing(&cells, &[false, true]), Some(2));
    assert_eq!(material_containing(&cells, &[false, false]), None);
}
