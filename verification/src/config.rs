//! World configuration with CSG trees: primitives by name, a material list,
//! and cells whose regions are nested set operations.
use vstd::prelude::*;

use crate::csg::Instruction;
use crate::csg_tree::{CSGNode, Cell, node_contains, node_indices_below};
use crate::names::{NameMap, NameSet};
use crate::world::{assigned_id, id_map, lemma_id_map_below, op_kind, used_count};

verus! {

/// Errors of building a world from its configuration.
#[derive(Debug)]
pub enum WorldConfigError {
    MaterialNotFound(String),
    PrimitiveNotFound(String),
    EmptyCsgOperation,
    UnknownCsgOperation(String),
    InvalidPrimitive { name: String, reason: String },
}

/// A cell of the configuration.
pub struct CellConfig {
    pub material_name: String,
    pub csg: CSGConfig,
}

/// A CSG expression of the configuration.
pub enum CSGConfig {
    Operation { op: String, prs: Vec<CSGConfig> },
    Name(String),
}

/// Why building a world from its configuration fails.
pub enum ConfigFault {
    MaterialNotFound(Seq<char>),
    PrimitiveNotFound(Seq<char>),
    EmptyCsgOperation,
    UnknownCsgOperation(Seq<char>),
    InvalidPrimitive(Seq<char>, Seq<char>),
}

/// `e` is the error that reports `f`.
pub open spec fn config_fault_matches(e: WorldConfigError, f: ConfigFault) -> bool {
    match f {
        ConfigFault::MaterialNotFound(n) => e matches WorldConfigError::MaterialNotFound(s) && s@
            == n,
        ConfigFault::PrimitiveNotFound(n) => e matches WorldConfigError::PrimitiveNotFound(s)
            && s@ == n,
        ConfigFault::EmptyCsgOperation => e is EmptyCsgOperation,
        ConfigFault::UnknownCsgOperation(n) => e matches WorldConfigError::UnknownCsgOperation(s)
            && s@ == n,
        ConfigFault::InvalidPrimitive(n, why) => e matches WorldConfigError::InvalidPrimitive {
            name,
            reason,
        } && name@ == n && reason@ == why,
    }
}

/// Names of the primitives an expression refers to.
pub open spec fn config_used_names(c: CSGConfig) -> Set<Seq<char>>
    decreases c,
{
    match c {
        CSGConfig::Name(n) => set![n@],
        CSGConfig::Operation { op, prs } => config_used_names_seq(prs@),
    }
}

/// Names of the primitives a list of expressions refers to.
pub open spec fn config_used_names_seq(prs: Seq<CSGConfig>) -> Set<Seq<char>>
    decreases prs,
{
    if prs.len() == 0 {
        Set::empty()
    } else {
        config_used_names_seq(prs.drop_last()).union(config_used_names(prs.last()))
    }
}

/// The tree node joining `l` and `r` with the set operation of `inst`.
pub open spec fn join(inst: Instruction, l: CSGNode, r: CSGNode) -> CSGNode {
    match inst {
        Instruction::Intersection => CSGNode::Intersection(Box::new(l), Box::new(r)),
        Instruction::Difference => CSGNode::Difference(Box::new(l), Box::new(r)),
        _ => CSGNode::Union(Box::new(l), Box::new(r)),
    }
}

/// The tree of an expression: an operation over `p0, p1, ..., pn` becomes
/// `((p0 op p1) op ...) op pn`; the first failure from left to right
/// otherwise.
pub open spec fn config_tree(c: CSGConfig, names: Map<Seq<char>, usize>) -> Result<
    CSGNode,
    ConfigFault,
>
    decreases c,
{
    match c {
        CSGConfig::Name(n) => if names.contains_key(n@) {
            Ok(CSGNode::Primitive(names[n@]))
        } else {
            Err(ConfigFault::PrimitiveNotFound(n@))
        },
        CSGConfig::Operation { op, prs } => if prs@.len() == 0 {
            Err(ConfigFault::EmptyCsgOperation)
        } else {
            match op_kind(op@) {
                None => Err(ConfigFault::UnknownCsgOperation(op@)),
                Some(inst) => config_fold(inst, prs@, names),
            }
        },
    }
}

/// Left fold of a non-empty list of expressions with one set operation.
pub open spec fn config_fold(inst: Instruction, prs: Seq<CSGConfig>, names: Map<Seq<char>, usize>) -> Result<
    CSGNode,
    ConfigFault,
>
    decreases prs,
{
    if prs.len() <= 1 {
        if prs.len() == 1 {
            config_tree(prs[0], names)
        } else {
            Err(ConfigFault::EmptyCsgOperation)
        }
    } else {
        match config_fold(inst, prs.drop_last(), names) {
            Err(f) => Err(f),
            Ok(l) => match config_tree(prs.last(), names) {
                Err(f) => Err(f),
                Ok(r) => Ok(join(inst, l, r)),
            },
        }
    }
}

/// The tree built for the `k`-th operand of a list.
pub open spec fn operand_tree(prs: Seq<CSGConfig>, k: int, names: Map<Seq<char>, usize>) -> CSGNode {
    config_tree(prs[k], names)->Ok_0
}

/// Whether a point lies in the `k`-th operand.
pub open spec fn in_operand(
    prs: Seq<CSGConfig>,
    k: int,
    names: Map<Seq<char>, usize>,
    inside: Seq<bool>,
) -> bool {
    node_contains(operand_tree(prs, k, names), inside)
}

/// A folded operation contains a point as the operation over all operands
/// says: a union when some operand contains it, an intersection when all
/// do, a difference when the first does and none of the others does.
proof fn lemma_config_fold_meaning(
    inst: Instruction,
    prs: Seq<CSGConfig>,
    names: Map<Seq<char>, usize>,
    inside: Seq<bool>,
)
    requires
        prs.len() >= 1,
        config_fold(inst, prs, names) is Ok,
    ensures
        forall|k: int| 0 <= k < prs.len() ==> (#[trigger] config_tree(prs[k], names)) is Ok,
        inst == Instruction::Union ==> (node_contains(config_fold(inst, prs, names)->Ok_0, inside)
            <==> exists|k: int| 0 <= k < prs.len() && #[trigger] in_operand(prs, k, names, inside)),
        inst == Instruction::Intersection ==> (node_contains(
            config_fold(inst, prs, names)->Ok_0,
            inside,
        ) <==> forall|k: int| 0 <= k < prs.len() ==> #[trigger] in_operand(prs, k, names, inside)),
        inst == Instruction::Difference ==> (node_contains(
            config_fold(inst, prs, names)->Ok_0,
            inside,
        ) <==> in_operand(prs, 0, names, inside) && forall|k: int|
            1 <= k < prs.len() ==> !#[trigger] in_operand(prs, k, names, inside)),
    decreases prs.len(),
{
    let whole = config_fold(inst, prs, names)->Ok_0;
    if prs.len() == 1 {
        assert(whole == operand_tree(prs, 0, names));
        assert(in_operand(prs, 0, names, inside) == node_contains(whole, inside));
        assert forall|k: int| 1 <= k < prs.len() implies !#[trigger] in_operand(
            prs,
            k,
            names,
            inside,
        ) by {}
    } else {
        let dl = prs.drop_last();
        let n = prs.len() - 1;
        lemma_config_fold_meaning(inst, dl, names, inside);
        assert forall|k: int| 0 <= k < dl.len() implies #[trigger] in_operand(dl, k, names, inside)
            == in_operand(prs, k, names, inside) by {
            assert(dl[k] == prs[k]);
        }
        assert(prs.last() == prs[n]);
        assert forall|k: int| 0 <= k < prs.len() implies (#[trigger] config_tree(
            prs[k],
            names,
        )) is Ok by {
            if k < n {
                assert(dl[k] == prs[k]);
                assert(config_tree(dl[k], names) is Ok);
            }
        }
        let l = config_fold(inst, dl, names)->Ok_0;
        let r = operand_tree(prs, n, names);
        assert(whole == join(inst, l, r));
        let cl = node_contains(l, inside);
        let cr = in_operand(prs, n, names, inside);
        if inst == Instruction::Union {
            assert(node_contains(whole, inside) == (cl || cr));
            if cl {
                let k = choose|k: int| 0 <= k < dl.len() && #[trigger] in_operand(dl, k, names, inside);
                assert(in_operand(prs, k, names, inside));
            }
            if exists|k: int| 0 <= k < prs.len() && #[trigger] in_operand(prs, k, names, inside) {
                let k = choose|k: int| 0 <= k < prs.len() && #[trigger] in_operand(prs, k, names, inside);
                if k < n {
                    assert(in_operand(dl, k, names, inside));
                }
            }
        } else if inst == Instruction::Intersection {
            assert(node_contains(whole, inside) == (cl && cr));
            if forall|k: int| 0 <= k < prs.len() ==> #[trigger] in_operand(prs, k, names, inside) {
                assert forall|k: int| 0 <= k < dl.len() implies #[trigger] in_operand(dl, k, names, inside) by {
                    assert(in_operand(prs, k, names, inside));
                }
            }
            if cl && cr {
                assert forall|k: int| 0 <= k < prs.len() implies #[trigger] in_operand(prs, k, names, inside) by {
                    if k < n {
                        assert(in_operand(dl, k, names, inside));
                    }
                }
            }
        } else if inst == Instruction::Difference {
            assert(node_contains(whole, inside) == (cl && !cr));
            assert(in_operand(dl, 0, names, inside) == in_operand(prs, 0, names, inside));
            if in_operand(prs, 0, names, inside) && forall|k: int|
                1 <= k < prs.len() ==> !#[trigger] in_operand(prs, k, names, inside) {
                assert forall|k: int| 1 <= k < dl.len() implies !#[trigger] in_operand(dl, k, names, inside) by {
                    assert(!in_operand(prs, k, names, inside));
                }
            }
            if cl && !cr {
                assert forall|k: int| 1 <= k < prs.len() implies !#[trigger] in_operand(prs, k, names, inside) by {
                    if k < n {
                        assert(!in_operand(dl, k, names, inside));
                    }
                }
            }
        }
    }
}

/// What an operation of the configuration means for a point: the tree
/// built for `op` over operands `p0, ..., pn` contains the point exactly
/// when some operand does (`union`/`outer`), when every operand does
/// (`intersection`/`inner`), or when `p0` does and none of `p1, ..., pn`
/// does (`difference`); every operand's tree is built.
pub proof fn lemma_config_operation_meaning(
    c: CSGConfig,
    names: Map<Seq<char>, usize>,
    inside: Seq<bool>,
)
    requires
        c is Operation,
        config_tree(c, names) is Ok,
    ensures
        ({
            let prs = c->prs@;
            let node = config_tree(c, names)->Ok_0;
            &&& prs.len() >= 1
            &&& forall|k: int| 0 <= k < prs.len() ==> (#[trigger] config_tree(prs[k], names)) is Ok
            &&& op_kind(c->op@) == Some(Instruction::Union) ==> (node_contains(node, inside)
                <==> exists|k: int| 0 <= k < prs.len() && #[trigger] in_operand(prs, k, names, inside))
            &&& op_kind(c->op@) == Some(Instruction::Intersection) ==> (node_contains(node, inside)
                <==> forall|k: int| 0 <= k < prs.len() ==> #[trigger] in_operand(prs, k, names, inside))
            &&& op_kind(c->op@) == Some(Instruction::Difference) ==> (node_contains(node, inside)
                <==> in_operand(prs, 0, names, inside) && forall|k: int|
                1 <= k < prs.len() ==> !#[trigger] in_operand(prs, k, names, inside))
        }),
{
    let prs = c->prs@;
    let inst = op_kind(c->op@)->Some_0;
    lemma_config_fold_meaning(inst, prs, names, inside);
}

/// Adds to `used` the names of the primitives that `config` refers to.
#[verifier::loop_isolation(false)]
pub fn collect_used_primitives(config: &CSGConfig, used: &mut NameSet)
    requires
        old(used).wf(),
    ensures
        final(used).wf(),
        final(used)@ == old(used)@.union(config_used_names(*config)),
    decreases config,
{
    match config {
        CSGConfig::Name(name) => {
            used.insert(name.clone());
        },
        CSGConfig::Operation { prs, .. } => {
            let ghost before = used@;
            let mut k: usize = 0;
            assert(prs@.take(0) =~= Seq::<CSGConfig>::empty());
            while k < prs.len()
                invariant
                    used.wf(),
                    0 <= k <= prs@.len(),
                    used@ == before.union(config_used_names_seq(prs@.take(k as int))),
                decreases prs@.len() - k,
            {
                proof {
                    assert(decreases_to!(config => prs@[k as int]));
                }
                collect_used_primitives(&prs[k], used);
                proof {
                    assert(prs@.take(k + 1).drop_last() =~= prs@.take(k as int));
                    assert(prs@.take(k + 1).last() == prs@[k as int]);
                    assert(used@ =~= before.union(config_used_names_seq(prs@.take(k + 1))));
                }
                k = k + 1;
            }
            assert(prs@.take(prs@.len() as int) =~= prs@);
        },
    }
}

fn op_instruction_of(op: &String) -> (r: Option<Instruction>)
    ensures
        r == op_kind(op@),
{
    if *op == String::from_str("union") || *op == String::from_str("outer") {
        Some(Instruction::Union)
    } else if *op == String::from_str("intersection") || *op == String::from_str("inner") {
        Some(Instruction::Intersection)
    } else if *op == String::from_str("difference") {
        Some(Instruction::Difference)
    } else {
        None
    }
}

fn join_nodes(inst: Instruction, l: CSGNode, r: CSGNode) -> (n: CSGNode)
    ensures
        n == join(inst, l, r),
{
    match inst {
        Instruction::Intersection => CSGNode::Intersection(Box::new(l), Box::new(r)),
        Instruction::Difference => CSGNode::Difference(Box::new(l), Box::new(r)),
        _ => CSGNode::Union(Box::new(l), Box::new(r)),
    }
}

proof fn lemma_fold_err_prefix(
    inst: Instruction,
    prs: Seq<CSGConfig>,
    k: int,
    names: Map<Seq<char>, usize>,
)
    requires
        1 <= k <= prs.len(),
        config_fold(inst, prs.take(k), names) is Err,
    ensures
        config_fold(inst, prs, names) == config_fold(inst, prs.take(k), names),
    decreases prs.len() - k,
{
    if k < prs.len() {
        assert(prs.take(k + 1).drop_last() =~= prs.take(k));
        lemma_fold_err_prefix(inst, prs, k + 1, names);
    } else {
        assert(prs.take(k) =~= prs);
    }
}

/// The CSG tree of `config`.
#[verifier::loop_isolation(false)]
pub fn build_csg_node(config: &CSGConfig, primitive_map: &NameMap) -> (r: Result<
    CSGNode,
    WorldConfigError,
>)
    requires
        primitive_map.wf(),
    ensures
        match config_tree(*config, primitive_map@) {
            Ok(n) => r == Ok::<CSGNode, WorldConfigError>(n),
            Err(f) => r matches Err(e) && config_fault_matches(e, f),
        },
    decreases config,
{
    match config {
        CSGConfig::Name(name) => {
            match primitive_map.get(name) {
                Some(id) => Ok(CSGNode::Primitive(id)),
                None => Err(WorldConfigError::PrimitiveNotFound(name.clone())),
            }
        },
        CSGConfig::Operation { op, prs } => {
            if prs.len() == 0 {
                return Err(WorldConfigError::EmptyCsgOperation);
            }
            let inst = match op_instruction_of(op) {
                Some(i) => i,
                None => {
                    return Err(WorldConfigError::UnknownCsgOperation(op.clone()));
                },
            };
            assert(decreases_to!(config => prs@[0]));
            let mut node = match build_csg_node(&prs[0], primitive_map) {
                Ok(n) => n,
                Err(e) => {
                    proof {
                        assert(prs@.take(1).drop_last() =~= Seq::<CSGConfig>::empty());
                        assert(prs@.take(1)[0] == prs@[0]);
                        lemma_fold_err_prefix(inst, prs@, 1, primitive_map@);
                    }
                    return Err(e);
                },
            };
            assert(prs@.take(1)[0] == prs@[0]);
            let mut k: usize = 1;
            while k < prs.len()
                invariant
                    primitive_map.wf(),
                    1 <= k <= prs@.len(),
                    config_fold(inst, prs@.take(k as int), primitive_map@) == Ok::<
                        CSGNode,
                        ConfigFault,
                    >(node),
                decreases prs@.len() - k,
            {
                proof {
                    assert(decreases_to!(config => prs@[k as int]));
                    assert(prs@.take(k + 1).drop_last() =~= prs@.take(k as int));
                    assert(prs@.take(k + 1).last() == prs@[k as int]);
                }
                let right = match build_csg_node(&prs[k], primitive_map) {
                    Ok(n) => n,
                    Err(e) => {
                        proof {
                            lemma_fold_err_prefix(inst, prs@, k + 1, primitive_map@);
                        }
                        return Err(e);
                    },
                };
                node = join_nodes(inst, node, right);
                k = k + 1;
            }
            assert(prs@.take(prs@.len() as int) =~= prs@);
            Ok(node)
        },
    }
}

/// Material names mapped to their position in the list; a repeated name
/// keeps its last position.
pub open spec fn material_index_map(materials: Seq<String>) -> Map<Seq<char>, usize>
    decreases materials.len(),
{
    if materials.len() == 0 {
        Map::empty()
    } else {
        material_index_map(materials.drop_last()).insert(
            materials.last()@,
            (materials.len() - 1) as usize,
        )
    }
}

/// Names of the primitives the cells refer to.
pub open spec fn config_cells_used_names(cells: Seq<CellConfig>) -> Set<Seq<char>>
    decreases cells.len(),
{
    if cells.len() == 0 {
        Set::empty()
    } else {
        config_cells_used_names(cells.drop_last()).union(config_used_names(cells.last().csg))
    }
}

/// The first primitive that some cell refers to and whose geometry check
/// failed.
pub open spec fn first_invalid(
    prims: Seq<(String, Option<String>)>,
    used: Set<Seq<char>>,
    k: int,
) -> bool {
    &&& 0 <= k < prims.len()
    &&& used.contains(prims[k].0@)
    &&& prims[k].1 is Some
    &&& forall|j: int| 0 <= j < k ==> !(used.contains(#[trigger] prims[j].0@) && prims[j].1 is Some)
}

/// A cell as built: its material index and its tree.
pub type ConfigCellSpec = (u32, CSGNode);

/// The cells built from the configuration, or the first failure.
pub open spec fn config_cells_build(
    cells: Seq<CellConfig>,
    primitives: Map<Seq<char>, usize>,
    materials: Map<Seq<char>, usize>,
) -> Result<Seq<ConfigCellSpec>, ConfigFault>
    decreases cells.len(),
{
    if cells.len() == 0 {
        Ok(Seq::empty())
    } else {
        match config_cells_build(cells.drop_last(), primitives, materials) {
            Err(f) => Err(f),
            Ok(v) => {
                let c = cells.last();
                if !materials.contains_key(c.material_name@) {
                    Err(ConfigFault::MaterialNotFound(c.material_name@))
                } else {
                    match config_tree(c.csg, primitives) {
                        Err(f) => Err(f),
                        Ok(n) => Ok(v.push((materials[c.material_name@] as u32, n))),
                    }
                }
            },
        }
    }
}

/// The built cells are the specified ones.
pub open spec fn config_cells_match(out: Seq<Cell>, v: Seq<ConfigCellSpec>) -> bool {
    &&& out.len() == v.len()
    &&& forall|i: int|
        0 <= i < v.len() ==> #[trigger] out[i].material_id == v[i].0 && out[i].csg == v[i].1
}

proof fn lemma_config_cells_err_prefix(
    cells: Seq<CellConfig>,
    k: int,
    primitives: Map<Seq<char>, usize>,
    materials: Map<Seq<char>, usize>,
)
    requires
        0 <= k <= cells.len(),
        config_cells_build(cells.take(k), primitives, materials) is Err,
    ensures
        config_cells_build(cells, primitives, materials) == config_cells_build(
            cells.take(k),
            primitives,
            materials,
        ),
    decreases cells.len() - k,
{
    if k < cells.len() {
        assert(cells.take(k + 1).drop_last() =~= cells.take(k));
        lemma_config_cells_err_prefix(cells, k + 1, primitives, materials);
    } else {
        assert(cells.take(k) =~= cells);
    }
}

/// A tree built through a map whose ids are below `n` refers only to shapes
/// below `n`.
proof fn lemma_config_tree_below(c: CSGConfig, names: Map<Seq<char>, usize>, n: int)
    requires
        config_tree(c, names) is Ok,
        forall|key: Seq<char>| #[trigger] names.contains_key(key) ==> names[key] < n,
    ensures
        node_indices_below(config_tree(c, names)->Ok_0, n),
    decreases c,
{
    match c {
        CSGConfig::Name(nm) => {
            assert(names.contains_key(nm@));
        },
        CSGConfig::Operation { op, prs } => {
            assert(decreases_to!(c => prs));
            lemma_config_fold_below(op_kind(op@)->Some_0, prs@, names, n);
        },
    }
}

/// The fold form of `lemma_config_tree_below`.
proof fn lemma_config_fold_below(
    inst: Instruction,
    prs: Seq<CSGConfig>,
    names: Map<Seq<char>, usize>,
    n: int,
)
    requires
        config_fold(inst, prs, names) is Ok,
        forall|key: Seq<char>| #[trigger] names.contains_key(key) ==> names[key] < n,
    ensures
        node_indices_below(config_fold(inst, prs, names)->Ok_0, n),
    decreases prs,
{
    if prs.len() == 1 {
        lemma_config_tree_below(prs[0], names, n);
    } else if prs.len() > 1 {
        lemma_config_fold_below(inst, prs.drop_last(), names, n);
        lemma_config_tree_below(prs.last(), names, n);
    }
}

/// Cells built through a map whose ids are below `n` refer only to shapes
/// below `n`.
proof fn lemma_config_cells_below(
    cells: Seq<CellConfig>,
    primitives: Map<Seq<char>, usize>,
    materials: Map<Seq<char>, usize>,
    n: int,
)
    requires
        config_cells_build(cells, primitives, materials) is Ok,
        forall|key: Seq<char>| #[trigger] primitives.contains_key(key) ==> primitives[key] < n,
    ensures
        ({
            let v = config_cells_build(cells, primitives, materials)->Ok_0;
            forall|i: int| 0 <= i < v.len() ==> node_indices_below(#[trigger] v[i].1, n)
        }),
    decreases cells.len(),
{
    if cells.len() > 0 {
        lemma_config_cells_below(cells.drop_last(), primitives, materials, n);
        lemma_config_tree_below(cells.last().csg, primitives, n);
    }
}

/// The cells built from a configuration refer only to the shapes it keeps:
/// every shape id of every tree is below the number of used primitives.
pub proof fn lemma_config_cells_in_range(
    names: Seq<String>,
    cells: Seq<CellConfig>,
    materials: Map<Seq<char>, usize>,
)
    requires
        names.len() <= usize::MAX,
        config_cells_build(cells, id_map(names, config_cells_used_names(cells)), materials) is Ok,
    ensures
        ({
            let used = config_cells_used_names(cells);
            let v = config_cells_build(cells, id_map(names, used), materials)->Ok_0;
            forall|i: int|
                0 <= i < v.len() ==> node_indices_below(#[trigger] v[i].1, used_count(names, used) as int)
        }),
{
    let used = config_cells_used_names(cells);
    lemma_id_map_below(names, used);
    lemma_config_cells_below(cells, id_map(names, used), materials, used_count(names, used) as int);
}

/// Builds the cells and numbers the primitives of a configuration.  Each
/// primitive comes with the outcome of its geometric check (`Some(reason)`
/// when it is invalid).  Primitives that no cell refers to are left out;
/// the first invalid one among the others is reported; then the cells are
/// built.  Returns the cells and the id of each primitive (`None` for the
/// ones left out).
pub fn build_world_config(
    prims: &Vec<(String, Option<String>)>,
    materials: &Vec<String>,
    cells: &Vec<CellConfig>,
) -> (r: Result<(Vec<Cell>, Vec<Option<usize>>), WorldConfigError>)
    ensures
        ({
            let names = prims@.map_values(|p: (String, Option<String>)| p.0);
            let used = config_cells_used_names(cells@);
            if exists|k: int| first_invalid(prims@, used, k) {
                exists|k: int|
                    first_invalid(prims@, used, k) && (r matches Err(e) && config_fault_matches(
                        e,
                        ConfigFault::InvalidPrimitive(prims@[k].0@, prims@[k].1->0@),
                    ))
            } else {
                match config_cells_build(
                    cells@,
                    id_map(names, used),
                    material_index_map(materials@),
                ) {
                    Ok(v) => r matches Ok((out, ids)) && {
                        &&& config_cells_match(out@, v)
                        &&& forall|i: int|
                            0 <= i < out@.len() ==> node_indices_below(
                                #[trigger] out@[i].csg,
                                used_count(names, used) as int,
                            )
                        &&& ids@.len() == prims@.len()
                        &&& forall|k: int|
                            0 <= k < prims@.len() ==> #[trigger] ids@[k] == assigned_id(
                                names,
                                used,
                                k,
                            )
                    },
                    Err(f) => r matches Err(e) && config_fault_matches(e, f),
                }
            }
        }),
{
    let ghost names = prims@.map_values(|p: (String, Option<String>)| p.0);
    // names of the primitives the cells use
    let mut used = NameSet::new();
    let mut k: usize = 0;
    assert(cells@.take(0) =~= Seq::<CellConfig>::empty());
    while k < cells.len()
        invariant
            used.wf(),
            0 <= k <= cells@.len(),
            used@ == config_cells_used_names(cells@.take(k as int)),
        decreases cells@.len() - k,
    {
        collect_used_primitives(&cells[k].csg, &mut used);
        proof {
            assert(cells@.take(k + 1).drop_last() =~= cells@.take(k as int));
            assert(cells@.take(k + 1).last() == cells@[k as int]);
        }
        k = k + 1;
    }
    assert(cells@.take(cells@.len() as int) =~= cells@);
    let ghost used_set = used@;
    // material positions
    let mut material_map = NameMap::new();
    let mut m: usize = 0;
    assert(materials@.take(0) =~= Seq::<String>::empty());
    while m < materials.len()
        invariant
            material_map.wf(),
            0 <= m <= materials@.len(),
            material_map@ == material_index_map(materials@.take(m as int)),
        decreases materials@.len() - m,
    {
        material_map.insert(materials[m].clone(), m);
        proof {
            assert(materials@.take(m + 1).drop_last() =~= materials@.take(m as int));
            assert(materials@.take(m + 1).last() == materials@[m as int]);
        }
        m = m + 1;
    }
    assert(materials@.take(materials@.len() as int) =~= materials@);
    // primitive ids, in order, stopping at the first invalid used primitive
    let mut ids: Vec<Option<usize>> = Vec::new();
    let mut primitive_map = NameMap::new();
    let mut count: usize = 0;
    let mut k: usize = 0;
    assert(names.take(0) =~= Seq::<String>::empty());
    while k < prims.len()
        invariant
            used.wf(),
            used@ == used_set,
            used_set == config_cells_used_names(cells@),
            names == prims@.map_values(|p: (String, Option<String>)| p.0),
            0 <= k <= prims@.len(),
            primitive_map.wf(),
            count <= k,
            count == used_count(names.take(k as int), used_set),
            ids@.len() == k,
            forall|j: int| 0 <= j < k ==> #[trigger] ids@[j] == assigned_id(names, used_set, j),
            forall|j: int|
                0 <= j < k ==> !(used_set.contains(#[trigger] prims@[j].0@) && prims@[j].1 is Some),
            primitive_map@ == id_map(names.take(k as int), used_set),
        decreases prims@.len() - k,
    {
        let name = &prims[k].0;
        proof {
            assert(names.take(k + 1).drop_last() =~= names.take(k as int));
            assert(names.take(k + 1).last() == names[k as int]);
            assert(names[k as int] == prims@[k as int].0);
        }
        if used.contains(name) {
            match &prims[k].1 {
                Some(reason) => {
                    assert(first_invalid(prims@, used_set, k as int));
                    return Err(
                        WorldConfigError::InvalidPrimitive {
                            name: name.clone(),
                            reason: reason.clone(),
                        },
                    );
                },
                None => {},
            }
            ids.push(Some(count));
            primitive_map.insert(name.clone(), count);
            count = count + 1;
        } else {
            ids.push(None);
        }
        k = k + 1;
    }
    assert(names.take(prims@.len() as int) =~= names);
    assert(!exists|k: int| first_invalid(prims@, used_set, k));
    // cells
    let mut out: Vec<Cell> = Vec::new();
    let mut c: usize = 0;
    assert(cells@.take(0) =~= Seq::<CellConfig>::empty());
    while c < cells.len()
        invariant
            primitive_map.wf(),
            material_map.wf(),
            used_set == config_cells_used_names(cells@),
            names == prims@.map_values(|p: (String, Option<String>)| p.0),
            primitive_map@ == id_map(names, used_set),
            material_map@ == material_index_map(materials@),
            !exists|k: int| first_invalid(prims@, used_set, k),
            0 <= c <= cells@.len(),
            config_cells_build(cells@.take(c as int), primitive_map@, material_map@) matches Ok(v)
                && config_cells_match(out@, v),
        decreases cells@.len() - c,
    {
        let cell = &cells[c];
        proof {
            assert(cells@.take(c + 1).drop_last() =~= cells@.take(c as int));
            assert(cells@.take(c + 1).last() == cells@[c as int]);
        }
        let material_index = match material_map.get(&cell.material_name) {
            Some(i) => i,
            None => {
                proof {
                    lemma_config_cells_err_prefix(cells@, c + 1, primitive_map@, material_map@);
                }
                return Err(WorldConfigError::MaterialNotFound(cell.material_name.clone()));
            },
        };
        let csg = match build_csg_node(&cell.csg, &primitive_map) {
            Ok(n) => n,
            Err(e) => {
                proof {
                    lemma_config_cells_err_prefix(cells@, c + 1, primitive_map@, material_map@);
                }
                return Err(e);
            },
        };
        let ghost prev = out@;
        out.push(Cell { csg, material_id: material_index as u32 });
        proof {
            let v = config_cells_build(cells@.take(c as int), primitive_map@, material_map@)->Ok_0;
            let nv = v.push((material_index as u32, csg));
            assert forall|i: int| 0 <= i < nv.len() implies #[trigger] out@[i].material_id
                == nv[i].0 && out@[i].csg == nv[i].1 by {
                if i < v.len() {
                    assert(out@[i] == prev[i]);
                }
            }
        }
        c = c + 1;
    }
    assert(cells@.take(cells@.len() as int) =~= cells@);
    proof {
        assert(names.len() == prims.len());
        lemma_config_cells_in_range(names, cells@, material_map@);
        let v = config_cells_build(cells@, primitive_map@, material_map@)->Ok_0;
        assert forall|i: int| 0 <= i < out@.len() implies node_indices_below(
            #[trigger] out@[i].csg,
            used_count(names, used_set) as int,
        ) by {
            assert(out@[i].material_id == v[i].0);
        }
    }
    Ok((out, ids))
}

} // verus!
