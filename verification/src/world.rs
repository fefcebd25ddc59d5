//! Cells of the simulation input: nested CSG operations over named
//! primitives, compiled to RPN programs.
use vstd::prelude::*;

use crate::csg::{
    Cell, FlatCSG, Instruction, PrimitiveKind, PrimitiveStorage, World, csg_eval, is_valid_rpn,
    kind_of, push_indices_below,
};
use crate::expr::{CsgExpr, expr_eval, lemma_rpn_valid_meaning, rpn};
use crate::input::InputError;
use crate::names::{NameMap, NameSet};
use crate::material::MaterialIndex;

verus! {

/// A CSG expression of the input: an operation over sub-expressions, or the
/// name of a primitive.
pub enum CSGInput {
    Operation { op: String, prs: Vec<CSGInput> },
    Name(String),
}

/// A cell of the input: a material and the region it fills.
pub struct CellInput {
    pub material_name: String,
    pub csg: CSGInput,
}

/// Why building a world from the input fails.
pub enum BuildFault {
    MaterialNotFound(Seq<char>),
    PrimitiveNotFound(Seq<char>),
    EmptyCsgOperation,
    UnknownCsgOperation(Seq<char>),
}

/// `e` is the error that reports `f`.
pub open spec fn fault_matches(e: InputError, f: BuildFault) -> bool {
    match f {
        BuildFault::MaterialNotFound(n) => e matches InputError::MaterialNotFound(s) && s@ == n,
        BuildFault::PrimitiveNotFound(n) => e matches InputError::PrimitiveNotFound(s) && s@ == n,
        BuildFault::EmptyCsgOperation => e is EmptyCsgOperation,
        BuildFault::UnknownCsgOperation(n) => e matches InputError::UnknownCsgOperation(s) && s@
            == n,
    }
}

/// The instruction of an operation name: `union`/`outer`,
/// `intersection`/`inner`, `difference`.
pub open spec fn op_kind(op: Seq<char>) -> Option<Instruction> {
    if op == "union"@ || op == "outer"@ {
        Some(Instruction::Union)
    } else if op == "intersection"@ || op == "inner"@ {
        Some(Instruction::Intersection)
    } else if op == "difference"@ {
        Some(Instruction::Difference)
    } else {
        None
    }
}

/// Names of the primitives an expression refers to.
pub open spec fn used_names(c: CSGInput) -> Set<Seq<char>>
    decreases c,
{
    match c {
        CSGInput::Name(n) => set![n@],
        CSGInput::Operation { op, prs } => used_names_seq(prs@),
    }
}

/// Names of the primitives a list of expressions refers to.
pub open spec fn used_names_seq(prs: Seq<CSGInput>) -> Set<Seq<char>>
    decreases prs,
{
    if prs.len() == 0 {
        Set::empty()
    } else {
        used_names_seq(prs.drop_last()).union(used_names(prs.last()))
    }
}

/// The RPN program of an expression: the programs of the operands in order,
/// followed by one instruction for the operation, whatever the number of
/// operands; the first failure in depth-first order otherwise.
pub open spec fn input_rpn(c: CSGInput, names: Map<Seq<char>, usize>) -> Result<
    Seq<Instruction>,
    BuildFault,
>
    decreases c,
{
    match c {
        CSGInput::Name(n) => if names.contains_key(n@) {
            Ok(seq![Instruction::PushPrimitive(names[n@])])
        } else {
            Err(BuildFault::PrimitiveNotFound(n@))
        },
        CSGInput::Operation { op, prs } => if prs@.len() == 0 {
            Err(BuildFault::EmptyCsgOperation)
        } else {
            match op_kind(op@) {
                None => Err(BuildFault::UnknownCsgOperation(op@)),
                Some(inst) => match input_rpn_seq(prs@, names) {
                    Ok(v) => Ok(v.push(inst)),
                    Err(f) => Err(f),
                },
            }
        },
    }
}

/// The programs of a list of expressions, concatenated.
pub open spec fn input_rpn_seq(prs: Seq<CSGInput>, names: Map<Seq<char>, usize>) -> Result<
    Seq<Instruction>,
    BuildFault,
>
    decreases prs,
{
    if prs.len() == 0 {
        Ok(Seq::empty())
    } else {
        match input_rpn_seq(prs.drop_last(), names) {
            Err(f) => Err(f),
            Ok(v) => match input_rpn(prs.last(), names) {
                Ok(w) => Ok(v + w),
                Err(f) => Err(f),
            },
        }
    }
}

/// Adds to `used` the names of the primitives that `config` refers to.
#[verifier::loop_isolation(false)]
pub fn collect_used_primitives(config: &CSGInput, used: &mut NameSet)
    requires
        old(used).wf(),
    ensures
        final(used).wf(),
        final(used)@ == old(used)@.union(used_names(*config)),
    decreases config,
{
    match config {
        CSGInput::Name(name) => {
            used.insert(name.clone());
        },
        CSGInput::Operation { prs, .. } => {
            let ghost before = used@;
            let mut k: usize = 0;
            assert(prs@.take(0) =~= Seq::<CSGInput>::empty());
            while k < prs.len()
                invariant
                    used.wf(),
                    0 <= k <= prs@.len(),
                    used@ == before.union(used_names_seq(prs@.take(k as int))),
                decreases prs@.len() - k,
            {
                proof {
                    assert(decreases_to!(config => prs@[k as int]));
                }
                collect_used_primitives(&prs[k], used);
                proof {
                    assert(prs@.take(k + 1).drop_last() =~= prs@.take(k as int));
                    assert(prs@.take(k + 1).last() == prs@[k as int]);
                    assert(used@ =~= before.union(used_names_seq(prs@.take(k + 1))));
                }
                k = k + 1;
            }
            assert(prs@.take(prs@.len() as int) =~= prs@);
        },
    }
}

fn op_instruction_of(op: &String) -> (r: Option<Instruction>)
    ensures
        r == op_kind(op@),
{
    if *op == String::from_str("union") || *op == String::from_str("outer") {
        Some(Instruction::Union)
    } else if *op == String::from_str("intersection") || *op == String::from_str("inner") {
        Some(Instruction::Intersection)
    } else if *op == String::from_str("difference") {
        Some(Instruction::Difference)
    } else {
        None
    }
}

/// Appends the RPN program of `config` to `instructions`.
#[verifier::loop_isolation(false)]
pub fn build_csg_node(
    config: &CSGInput,
    primitive_map: &NameMap,
    instructions: &mut Vec<Instruction>,
) -> (r: Result<(), InputError>)
    requires
        primitive_map.wf(),
    ensures
        match input_rpn(*config, primitive_map@) {
            Ok(v) => r is Ok && final(instructions)@ == old(instructions)@ + v,
            Err(f) => r matches Err(e) && fault_matches(e, f),
        },
        old(instructions)@.len() <= final(instructions)@.len(),
        final(instructions)@.subrange(0, old(instructions)@.len() as int) == old(instructions)@,
    decreases config,
{
    match config {
        CSGInput::Name(name) => {
            match primitive_map.get(name) {
                Some(id) => {
                    instructions.push(Instruction::PushPrimitive(id));
                    assert(old(instructions)@.push(Instruction::PushPrimitive(id)) =~= old(
                        instructions,
                    )@ + seq![Instruction::PushPrimitive(id)]);
                    Ok(())
                },
                None => Err(InputError::PrimitiveNotFound(name.clone())),
            }
        },
        CSGInput::Operation { op, prs } => {
            if prs.len() == 0 {
                return Err(InputError::EmptyCsgOperation);
            }
            let inst = match op_instruction_of(op) {
                Some(i) => i,
                None => {
                    return Err(InputError::UnknownCsgOperation(op.clone()));
                },
            };
            let ghost start = instructions@;
            let mut k: usize = 0;
            assert(prs@.take(0) =~= Seq::<CSGInput>::empty());
            assert(start + Seq::<Instruction>::empty() =~= start);
            while k < prs.len()
                invariant
                    primitive_map.wf(),
                    0 <= k <= prs@.len(),
                    input_rpn_seq(prs@.take(k as int), primitive_map@) matches Ok(v) && instructions@
                        == start + v,
                decreases prs@.len() - k,
            {
                proof {
                    assert(decreases_to!(config => prs@[k as int]));
                    assert(prs@.take(k + 1).drop_last() =~= prs@.take(k as int));
                    assert(prs@.take(k + 1).last() == prs@[k as int]);
                }
                let ghost mid = instructions@;
                match build_csg_node(&prs[k], primitive_map, instructions) {
                    Ok(()) => {},
                    Err(e) => {
                        proof {
                            lemma_rpn_seq_err_prefix(prs@, k as int + 1, primitive_map@);
                            assert(prs@.take(prs@.len() as int) =~= prs@);
                            assert(instructions@.subrange(0, start.len() as int) =~= mid.subrange(
                                0,
                                start.len() as int,
                            ));
                            assert(mid.subrange(0, start.len() as int) =~= start);
                        }
                        return Err(e);
                    },
                }
                proof {
                    let v = input_rpn_seq(prs@.take(k as int), primitive_map@)->Ok_0;
                    let w = input_rpn(prs@[k as int], primitive_map@)->Ok_0;
                    assert(instructions@ =~= start + (v + w));
                }
                k = k + 1;
            }
            assert(prs@.take(prs@.len() as int) =~= prs@);
            instructions.push(inst);
            Ok(())
        },
    }
}

/// Once a prefix of the operands fails, the whole list fails the same way.
proof fn lemma_rpn_seq_err_prefix(prs: Seq<CSGInput>, k: int, names: Map<Seq<char>, usize>)
    requires
        0 <= k <= prs.len(),
        input_rpn_seq(prs.take(k), names) is Err,
    ensures
        input_rpn_seq(prs.take(prs.len() as int), names) == input_rpn_seq(prs.take(k), names),
    decreases prs.len() - k,
{
    if k < prs.len() {
        assert(prs.take(k + 1).drop_last() =~= prs.take(k));
        lemma_rpn_seq_err_prefix(prs, k + 1, names);
    }
}

/// How many of the names are in `used`.
pub open spec fn used_count(names: Seq<String>, used: Set<Seq<char>>) -> nat
    decreases names.len(),
{
    if names.len() == 0 {
        0
    } else if used.contains(names.last()@) {
        used_count(names.drop_last(), used) + 1
    } else {
        used_count(names.drop_last(), used)
    }
}

/// The id a primitive gets: unused primitives are skipped, the others are
/// numbered consecutively in the order given.
pub open spec fn assigned_id(names: Seq<String>, used: Set<Seq<char>>, k: int) -> Option<usize> {
    if used.contains(names[k]@) {
        Some(used_count(names.take(k), used) as usize)
    } else {
        None
    }
}

/// Names of the used primitives mapped to their ids; a repeated name keeps
/// its last id.
pub open spec fn id_map(names: Seq<String>, used: Set<Seq<char>>) -> Map<Seq<char>, usize>
    decreases names.len(),
{
    if names.len() == 0 {
        Map::empty()
    } else if used.contains(names.last()@) {
        id_map(names.drop_last(), used).insert(
            names.last()@,
            used_count(names.drop_last(), used) as usize,
        )
    } else {
        id_map(names.drop_last(), used)
    }
}

/// A cell as built: its material index and its RPN program.
pub type CellSpec = (MaterialIndex, Seq<Instruction>);

/// The cells built from the input, or the first failure: for each cell in
/// order, its material is looked up first, then its expression compiled.
pub open spec fn cells_build(
    cells: Seq<CellInput>,
    primitives: Map<Seq<char>, usize>,
    materials: Map<Seq<char>, usize>,
) -> Result<Seq<CellSpec>, BuildFault>
    decreases cells.len(),
{
    if cells.len() == 0 {
        Ok(Seq::empty())
    } else {
        match cells_build(cells.drop_last(), primitives, materials) {
            Err(f) => Err(f),
            Ok(v) => {
                let c = cells.last();
                if !materials.contains_key(c.material_name@) {
                    Err(BuildFault::MaterialNotFound(c.material_name@))
                } else {
                    match input_rpn(c.csg, primitives) {
                        Err(f) => Err(f),
                        Ok(ins) => Ok(v.push((materials[c.material_name@], ins))),
                    }
                }
            },
        }
    }
}

/// The built cells are the specified ones.
pub open spec fn cells_match(out: Seq<Cell>, v: Seq<CellSpec>) -> bool {
    &&& out.len() == v.len()
    &&& forall|i: int|
        0 <= i < v.len() ==> #[trigger] out[i].material_id == v[i].0 && out[i].csg.instructions@
            == v[i].1
}

proof fn lemma_cells_err_prefix(
    cells: Seq<CellInput>,
    k: int,
    primitives: Map<Seq<char>, usize>,
    materials: Map<Seq<char>, usize>,
)
    requires
        0 <= k <= cells.len(),
        cells_build(cells.take(k), primitives, materials) is Err,
    ensures
        cells_build(cells, primitives, materials) == cells_build(cells.take(k), primitives, materials),
    decreases cells.len() - k,
{
    if k < cells.len() {
        assert(cells.take(k + 1).drop_last() =~= cells.take(k));
        lemma_cells_err_prefix(cells, k + 1, primitives, materials);
    } else {
        assert(cells.take(k) =~= cells);
    }
}

/// Builds the cells of the input.
pub fn build_cells(cells: &Vec<CellInput>, primitive_map: &NameMap, material_map: &NameMap) -> (r:
    Result<Vec<Cell>, InputError>)
    requires
        primitive_map.wf(),
        material_map.wf(),
    ensures
        match cells_build(cells@, primitive_map@, material_map@) {
            Ok(v) => r matches Ok(out) && cells_match(out@, v),
            Err(f) => r matches Err(e) && fault_matches(e, f),
        },
{
    let mut out: Vec<Cell> = Vec::new();
    let mut k: usize = 0;
    assert(cells@.take(0) =~= Seq::<CellInput>::empty());
    while k < cells.len()
        invariant
            primitive_map.wf(),
            material_map.wf(),
            0 <= k <= cells@.len(),
            cells_build(cells@.take(k as int), primitive_map@, material_map@) matches Ok(v)
                && cells_match(out@, v),
        decreases cells@.len() - k,
    {
        let c = &cells[k];
        proof {
            assert(cells@.take(k + 1).drop_last() =~= cells@.take(k as int));
            assert(cells@.take(k + 1).last() == cells@[k as int]);
        }
        let material_id = match material_map.get(&c.material_name) {
            Some(m) => m,
            None => {
                proof {
                    lemma_cells_err_prefix(cells@, k + 1, primitive_map@, material_map@);
                }
                return Err(InputError::MaterialNotFound(c.material_name.clone()));
            },
        };
        let mut instructions: Vec<Instruction> = Vec::new();
        match build_csg_node(&c.csg, primitive_map, &mut instructions) {
            Ok(()) => {},
            Err(e) => {
                proof {
                    lemma_cells_err_prefix(cells@, k + 1, primitive_map@, material_map@);
                }
                return Err(e);
            },
        }
        let ghost prev = out@;
        out.push(Cell { csg: FlatCSG { instructions }, material_id });
        proof {
            let v = cells_build(cells@.take(k as int), primitive_map@, material_map@)->Ok_0;
            let ins = input_rpn(cells@[k as int].csg, primitive_map@)->Ok_0;
            assert(Seq::<Instruction>::empty() + ins =~= ins);
            let nv = v.push((material_id, ins));
            assert forall|i: int| 0 <= i < nv.len() implies #[trigger] out@[i].material_id
                == nv[i].0 && out@[i].csg.instructions@ == nv[i].1 by {
                if i < v.len() {
                    assert(out@[i] == prev[i]);
                }
            }
        }
        k = k + 1;
    }
    assert(cells@.take(cells@.len() as int) =~= cells@);
    Ok(out)
}

/// Numbers the used primitives and registers them, in the given order, in a
/// fresh storage; returns the storage, the id of each primitive (`None` for
/// the unused ones) and the map from names to ids.
pub fn assign_primitive_ids(prims: &Vec<(String, PrimitiveKind)>, used: &NameSet) -> (r: (
    PrimitiveStorage,
    Vec<Option<usize>>,
    NameMap,
))
    requires
        used.wf(),
    ensures
        ({
            let (storage, ids, map) = r;
            let names = prims@.map_values(|p: (String, PrimitiveKind)| p.0);
            &&& storage.wf()
            &&& map.wf()
            &&& storage.spec_tags().len() == used_count(names, used@)
            &&& ids@.len() == prims@.len()
            &&& forall|k: int|
                0 <= k < prims@.len() ==> #[trigger] ids@[k] == assigned_id(names, used@, k)
            &&& forall|k: int|
                0 <= k < prims@.len() && ids@[k] is Some ==> kind_of(
                    #[trigger] storage.spec_tags()[ids@[k]->0 as int],
                ) == prims@[k].1
            &&& map@ == id_map(names, used@)
        }),
{
    let ghost names = prims@.map_values(|p: (String, PrimitiveKind)| p.0);
    let mut storage = PrimitiveStorage::new();
    let mut ids: Vec<Option<usize>> = Vec::new();
    let mut map = NameMap::new();
    let mut count: usize = 0;
    let mut k: usize = 0;
    assert(names.take(0) =~= Seq::<String>::empty());
    while k < prims.len()
        invariant
            used.wf(),
            names == prims@.map_values(|p: (String, PrimitiveKind)| p.0),
            0 <= k <= prims@.len(),
            storage.wf(),
            map.wf(),
            count <= k,
            count == used_count(names.take(k as int), used@),
            storage.spec_tags().len() == count,
            ids@.len() == k,
            forall|j: int| 0 <= j < k ==> #[trigger] ids@[j] == assigned_id(names, used@, j),
            forall|j: int| 0 <= j < k && #[trigger] ids@[j] is Some ==> ids@[j]->0 < count,
            forall|j: int|
                0 <= j < k && ids@[j] is Some ==> kind_of(
                    #[trigger] storage.spec_tags()[ids@[j]->0 as int],
                ) == prims@[j].1,
            map@ == id_map(names.take(k as int), used@),
        decreases prims@.len() - k,
    {
        let name = &prims[k].0;
        let kind = prims[k].1;
        proof {
            assert(names.take(k + 1).drop_last() =~= names.take(k as int));
            assert(names.take(k + 1).last() == names[k as int]);
            assert(names[k as int] == prims@[k as int].0);
        }
        let ghost old_tags = storage.spec_tags();
        let ghost old_local = storage.spec_indices(kind).len() as usize;
        if used.contains(name) {
            ids.push(Some(count));
            map.insert(name.clone(), count);
            let id = storage.add(kind);
            proof {
                assert(storage.spec_tags()[id as int] == crate::csg::tag_of(
                    kind,
                    old_local,
                )) by {
                    assert(storage.spec_tags() == old_tags.push(
                        crate::csg::tag_of(kind, old_local),
                    ));
                }
                assert forall|j: int|
                    0 <= j < k + 1 && ids@[j] is Some implies kind_of(
                    #[trigger] storage.spec_tags()[ids@[j]->0 as int],
                ) == prims@[j].1 by {
                    if j < k {
                        assert(ids@[j]->0 < count);
                        assert(storage.spec_tags()[ids@[j]->0 as int] == old_tags[ids@[j]->0 as int]);
                    }
                }
            }
            count = count + 1;
        } else {
            ids.push(None);
        }
        k = k + 1;
    }
    assert(names.take(prims@.len() as int) =~= names);
    (storage, ids, map)
}

/// Every id of `id_map` is below the number of used primitives.
pub(crate) proof fn lemma_id_map_below(names: Seq<String>, used: Set<Seq<char>>)
    requires
        names.len() <= usize::MAX,
    ensures
        forall|key: Seq<char>| #[trigger]
            id_map(names, used).contains_key(key) ==> id_map(names, used)[key] < used_count(
                names,
                used,
            ),
        used_count(names, used) <= names.len(),
    decreases names.len(),
{
    if names.len() > 0 {
        let prev = names.drop_last();
        lemma_id_map_below(prev, used);
        let c = used_count(prev, used);
        assert(c as usize == c);
        assert forall|key: Seq<char>| #[trigger]
            id_map(names, used).contains_key(key) implies id_map(names, used)[key] < used_count(
            names,
            used,
        ) by {
            if !(used.contains(names.last()@) && key == names.last()@) {
                assert(id_map(prev, used).contains_key(key));
            }
        }
    }
}

/// A program compiled through a map whose ids are below `n` pushes only
/// primitives below `n`.
proof fn lemma_input_rpn_below(c: CSGInput, names: Map<Seq<char>, usize>, n: int)
    requires
        input_rpn(c, names) is Ok,
        forall|key: Seq<char>| #[trigger] names.contains_key(key) ==> names[key] < n,
    ensures
        push_indices_below(input_rpn(c, names)->Ok_0, n),
    decreases c,
{
    match c {
        CSGInput::Name(nm) => {
            assert(names.contains_key(nm@));
        },
        CSGInput::Operation { op, prs } => {
            assert(decreases_to!(c => prs));
            lemma_input_rpn_seq_below(prs@, names, n);
            let v = input_rpn_seq(prs@, names)->Ok_0;
            let inst = op_kind(op@)->Some_0;
            assert forall|i: int| 0 <= i < v.push(inst).len() implies (#[trigger] v.push(inst)[i]
                matches Instruction::PushPrimitive(id) ==> id < n) by {
                if i < v.len() {
                    assert(v.push(inst)[i] == v[i]);
                }
            }
        },
    }
}

/// The list form of `lemma_input_rpn_below`.
proof fn lemma_input_rpn_seq_below(prs: Seq<CSGInput>, names: Map<Seq<char>, usize>, n: int)
    requires
        input_rpn_seq(prs, names) is Ok,
        forall|key: Seq<char>| #[trigger] names.contains_key(key) ==> names[key] < n,
    ensures
        push_indices_below(input_rpn_seq(prs, names)->Ok_0, n),
    decreases prs,
{
    if prs.len() > 0 {
        lemma_input_rpn_seq_below(prs.drop_last(), names, n);
        lemma_input_rpn_below(prs.last(), names, n);
        let v = input_rpn_seq(prs.drop_last(), names)->Ok_0;
        let w = input_rpn(prs.last(), names)->Ok_0;
        assert forall|i: int| 0 <= i < (v + w).len() implies (#[trigger] (v + w)[i]
            matches Instruction::PushPrimitive(id) ==> id < n) by {
            if i < v.len() {
                assert((v + w)[i] == v[i]);
            } else {
                assert((v + w)[i] == w[i - v.len()]);
            }
        }
    }
}

/// Cells built through a map whose ids are below `n` push only primitives
/// below `n`.
proof fn lemma_cells_build_below(
    cells: Seq<CellInput>,
    primitives: Map<Seq<char>, usize>,
    materials: Map<Seq<char>, usize>,
    n: int,
)
    requires
        cells_build(cells, primitives, materials) is Ok,
        forall|key: Seq<char>| #[trigger] primitives.contains_key(key) ==> primitives[key] < n,
    ensures
        ({
            let v = cells_build(cells, primitives, materials)->Ok_0;
            forall|i: int| 0 <= i < v.len() ==> push_indices_below(#[trigger] v[i].1, n)
        }),
    decreases cells.len(),
{
    if cells.len() > 0 {
        lemma_cells_build_below(cells.drop_last(), primitives, materials, n);
        lemma_input_rpn_below(cells.last().csg, primitives, n);
    }
}

/// A world built from the input refers only to primitives it stores: in
/// every built cell, each pushed primitive id is below the number of
/// primitives that are used, which is the number the world stores.
pub proof fn lemma_built_cells_in_range(
    names: Seq<String>,
    cells: Seq<CellInput>,
    materials: Map<Seq<char>, usize>,
)
    requires
        names.len() <= usize::MAX,
        cells_build(cells, id_map(names, cells_used_names(cells)), materials) is Ok,
    ensures
        ({
            let used = cells_used_names(cells);
            let v = cells_build(cells, id_map(names, used), materials)->Ok_0;
            forall|i: int|
                0 <= i < v.len() ==> push_indices_below(#[trigger] v[i].1, used_count(names, used) as int)
        }),
{
    let used = cells_used_names(cells);
    lemma_id_map_below(names, used);
    lemma_cells_build_below(cells, id_map(names, used), materials, used_count(names, used) as int);
}

/// Names of the primitives the cells refer to.
pub open spec fn cells_used_names(cells: Seq<CellInput>) -> Set<Seq<char>>
    decreases cells.len(),
{
    if cells.len() == 0 {
        Set::empty()
    } else {
        cells_used_names(cells.drop_last()).union(used_names(cells.last().csg))
    }
}

/// Builds the world of the input: primitives that no cell refers to are
/// left out, the others are numbered in the order given, then the cells are
/// built.  Returns the world and the id of each primitive (`None` for the
/// ones left out), so that the caller stores their geometry by id.
pub fn build_world(
    prims: &Vec<(String, PrimitiveKind)>,
    cells: &Vec<CellInput>,
    material_map: &NameMap,
) -> (r: Result<(World, Vec<Option<usize>>), InputError>)
    requires
        material_map.wf(),
    ensures
        ({
            let names = prims@.map_values(|p: (String, PrimitiveKind)| p.0);
            let used = cells_used_names(cells@);
            match cells_build(cells@, id_map(names, used), material_map@) {
                Ok(v) => r matches Ok((world, ids)) && {
                    &&& world.primitives.wf()
                    &&& world.primitives.spec_tags().len() == used_count(names, used)
                    &&& ids@.len() == prims@.len()
                    &&& forall|k: int|
                        0 <= k < prims@.len() ==> #[trigger] ids@[k] == assigned_id(names, used, k)
                    &&& forall|k: int|
                        0 <= k < prims@.len() && ids@[k] is Some ==> kind_of(
                            #[trigger] world.primitives.spec_tags()[ids@[k]->0 as int],
                        ) == prims@[k].1
                    &&& cells_match(world.cells@, v)
                    &&& forall|i: int|
                        0 <= i < world.cells@.len() ==> push_indices_below(
                            #[trigger] world.cells@[i].csg.instructions@,
                            world.primitives.spec_tags().len() as int,
                        )
                },
                Err(f) => r matches Err(e) && fault_matches(e, f),
            }
        }),
{
    let mut used = NameSet::new();
    let mut k: usize = 0;
    assert(cells@.take(0) =~= Seq::<CellInput>::empty());
    while k < cells.len()
        invariant
            used.wf(),
            0 <= k <= cells@.len(),
            used@ == cells_used_names(cells@.take(k as int)),
        decreases cells@.len() - k,
    {
        collect_used_primitives(&cells[k].csg, &mut used);
        proof {
            assert(cells@.take(k + 1).drop_last() =~= cells@.take(k as int));
            assert(cells@.take(k + 1).last() == cells@[k as int]);
        }
        k = k + 1;
    }
    assert(cells@.take(cells@.len() as int) =~= cells@);
    let (primitives, ids, primitive_map) = assign_primitive_ids(prims, &used);
    let built = build_cells(cells, &primitive_map, material_map);
    match built {
        Ok(out) => {
            proof {
                let names = prims@.map_values(|p: (String, PrimitiveKind)| p.0);
                assert(names.len() == prims.len());
                lemma_built_cells_in_range(names, cells@, material_map@);
                let v = cells_build(cells@, id_map(names, used@), material_map@)->Ok_0;
                assert forall|i: int| 0 <= i < out@.len() implies push_indices_below(
                    #[trigger] out@[i].csg.instructions@,
                    primitives.spec_tags().len() as int,
                ) by {
                    assert(out@[i].material_id == v[i].0);
                }
            }
            Ok((World { primitives, cells: out }, ids))
        },
        Err(e) => Err(e),
    }
}

/// Every operation of the expression has exactly two operands.
pub open spec fn binary_only(c: CSGInput) -> bool
    decreases c,
{
    match c {
        CSGInput::Name(_) => true,
        CSGInput::Operation { op, prs } => prs@.len() == 2 && binary_only(prs@[0]) && binary_only(
            prs@[1],
        ),
    }
}

/// The expression tree of an input expression whose operations are binary,
/// with names resolved through `names`.
pub open spec fn to_expr(c: CSGInput, names: Map<Seq<char>, usize>) -> CsgExpr
    decreases c,
{
    match c {
        CSGInput::Name(n) => CsgExpr::Prim(names[n@]),
        CSGInput::Operation { op, prs } => if prs@.len() == 2 {
            let l = to_expr(prs@[0], names);
            let r = to_expr(prs@[1], names);
            match op_kind(op@) {
                Some(Instruction::Intersection) => CsgExpr::Intersection(Box::new(l), Box::new(r)),
                Some(Instruction::Difference) => CsgExpr::Difference(Box::new(l), Box::new(r)),
                _ => CsgExpr::Union(Box::new(l), Box::new(r)),
            }
        } else {
            CsgExpr::Prim(0)
        },
    }
}

proof fn lemma_binary_input_rpn(c: CSGInput, names: Map<Seq<char>, usize>)
    requires
        binary_only(c),
        input_rpn(c, names) is Ok,
    ensures
        input_rpn(c, names) == Ok::<Seq<Instruction>, BuildFault>(rpn(to_expr(c, names))),
    decreases c,
{
    match c {
        CSGInput::Name(n) => {
            assert(names.contains_key(n@));
            assert(to_expr(c, names) == CsgExpr::Prim(names[n@]));
            assert(rpn(CsgExpr::Prim(names[n@])) == seq![Instruction::PushPrimitive(names[n@])]);
        },
        CSGInput::Operation { op, prs } => {
            let s = prs@;
            let inst = op_kind(op@)->Some_0;
            let first = s.drop_last();
            assert(first.drop_last() =~= Seq::<CSGInput>::empty());
            assert(first.last() == s[0]);
            assert(s.last() == s[1]);
            assert(input_rpn_seq(first.drop_last(), names) == Ok::<Seq<Instruction>, BuildFault>(
                Seq::empty(),
            ));
            assert(input_rpn_seq(s, names) is Ok);
            assert(input_rpn_seq(first, names) is Ok);
            assert(input_rpn(s[1], names) is Ok);
            assert(input_rpn(s[0], names) is Ok);
            assert(decreases_to!(c => prs));
            lemma_binary_input_rpn(s[0], names);
            lemma_binary_input_rpn(s[1], names);
            let a = rpn(to_expr(s[0], names));
            let b = rpn(to_expr(s[1], names));
            assert(Seq::<Instruction>::empty() + a =~= a);
            assert(input_rpn_seq(first, names) == Ok::<Seq<Instruction>, BuildFault>(a));
            assert(input_rpn_seq(s, names) == Ok::<Seq<Instruction>, BuildFault>(a + b));
        },
    }
}

/// A world expression whose operations all have exactly two operands
/// compiles, when it compiles, to a valid RPN program whose value on every
/// membership mask is the meaning of the expression.
pub proof fn lemma_binary_input_meaning(c: CSGInput, names: Map<Seq<char>, usize>, mask: u64)
    requires
        binary_only(c),
        input_rpn(c, names) is Ok,
    ensures
        is_valid_rpn(input_rpn(c, names)->Ok_0),
        csg_eval(input_rpn(c, names)->Ok_0, mask) == expr_eval(to_expr(c, names), mask),
{
    lemma_binary_input_rpn(c, names);
    lemma_rpn_valid_meaning(to_expr(c, names), mask);
}

} // verus!
