//! Flat (Reverse Polish Notation) CSG programs and their bitmask evaluation.
use vstd::prelude::*;

use crate::material::MaterialIndex;

verus! {

/// One step of a cell's CSG program, in Reverse Polish Notation.
#[derive(PartialEq, Eq, Debug, Clone, Copy, Structural)]
pub enum Instruction {
    Union,
    Intersection,
    Difference,
    Complement,
    PushPrimitive(usize),
}

/// Number of stack values an instruction consumes.
pub open spec fn arity(op: Instruction) -> int {
    match op {
        Instruction::PushPrimitive(_) => 0,
        Instruction::Complement => 1,
        _ => 2,
    }
}

/// Net change of the stack depth caused by an instruction.
pub open spec fn net_effect(op: Instruction) -> int {
    match op {
        Instruction::PushPrimitive(_) => 1,
        Instruction::Complement => 0,
        _ => -1,
    }
}

/// Stack depth after running the first `n` instructions.
pub open spec fn depth_after(ins: Seq<Instruction>, n: int) -> int
    decreases n,
{
    if n <= 0 {
        0
    } else {
        depth_after(ins, n - 1) + net_effect(ins[n - 1])
    }
}

/// Instruction `i` finds fewer values on the stack than it consumes.
pub open spec fn underflows_at(ins: Seq<Instruction>, i: int) -> bool {
    depth_after(ins, i) < arity(ins[i])
}

/// None of the first `n` instructions underflows.
pub open spec fn no_underflow_before(ins: Seq<Instruction>, n: int) -> bool {
    forall|i: int| 0 <= i < n ==> !#[trigger] underflows_at(ins, i)
}

/// A well-formed RPN program: non-empty, never underflows, leaves one value.
pub open spec fn is_valid_rpn(ins: Seq<Instruction>) -> bool {
    &&& ins.len() > 0
    &&& no_underflow_before(ins, ins.len() as int)
    &&& depth_after(ins, ins.len() as int) == 1
}

/// Every primitive push happens on a stack of fewer than 64 values, so the
/// whole stack fits into one 64-bit word.
pub open spec fn fits_in_bitmask(ins: Seq<Instruction>) -> bool {
    forall|i: int|
        #![trigger ins[i]]
        0 <= i < ins.len() && ins[i] is PushPrimitive ==> depth_after(ins, i) < 64
}

/// Every pushed primitive index is below `bound`.
pub open spec fn push_indices_below(ins: Seq<Instruction>, bound: int) -> bool {
    forall|i: int|
        #![trigger ins[i]]
        0 <= i < ins.len() ==> (ins[i] matches Instruction::PushPrimitive(id) ==> id < bound)
}

/// Membership of primitive `id` in the bitmask.
pub open spec fn mask_bit(mask: u64, id: usize) -> bool {
    ((mask >> (id as u64)) & 1u64) == 1u64
}

/// Boolean CSG semantics of one instruction on a stack of membership values.
pub open spec fn eval_step(st: Seq<bool>, op: Instruction, mask: u64) -> Seq<bool> {
    let n = st.len() as int;
    match op {
        Instruction::PushPrimitive(id) => st.push(mask_bit(mask, id)),
        Instruction::Complement => st.drop_last().push(!st[n - 1]),
        Instruction::Union => st.drop_last().drop_last().push(st[n - 2] || st[n - 1]),
        Instruction::Intersection => st.drop_last().drop_last().push(st[n - 2] && st[n - 1]),
        Instruction::Difference => st.drop_last().drop_last().push(st[n - 2] && !st[n - 1]),
    }
}

/// Stack of membership values after the first `n` instructions.
pub open spec fn eval_prefix(ins: Seq<Instruction>, mask: u64, n: int) -> Seq<bool>
    decreases n,
{
    if n <= 0 {
        Seq::empty()
    } else {
        eval_step(eval_prefix(ins, mask, n - 1), ins[n - 1], mask)
    }
}

/// The value at the bottom of the final stack (false for an empty stack).
pub open spec fn csg_eval(ins: Seq<Instruction>, mask: u64) -> bool {
    let st = eval_prefix(ins, mask, ins.len() as int);
    if st.len() > 0 {
        st[0]
    } else {
        false
    }
}

/// The stack holds exactly `depth_after` values as long as nothing underflowed.
pub proof fn lemma_eval_len(ins: Seq<Instruction>, mask: u64, n: int)
    requires
        0 <= n <= ins.len(),
        no_underflow_before(ins, n),
    ensures
        eval_prefix(ins, mask, n).len() == depth_after(ins, n),
        depth_after(ins, n) >= 0,
    decreases n,
{
    if n > 0 {
        assert(!underflows_at(ins, n - 1));
        lemma_eval_len(ins, mask, n - 1);
    }
}

/// A valid RPN program evaluates, for every membership mask, without ever
/// popping an empty stack and leaves exactly one value: the cell membership.
pub proof fn lemma_valid_rpn_yields_one_value(ins: Seq<Instruction>, mask: u64)
    requires
        is_valid_rpn(ins),
    ensures
        eval_prefix(ins, mask, ins.len() as int).len() == 1,
        csg_eval(ins, mask) == eval_prefix(ins, mask, ins.len() as int)[0],
{
    lemma_eval_len(ins, mask, ins.len() as int);
}

/// `Debug` rendering of an operator instruction.
pub open spec fn instruction_name(op: Instruction) -> Seq<char> {
    match op {
        Instruction::Union => "Union"@,
        Instruction::Intersection => "Intersection"@,
        Instruction::Difference => "Difference"@,
        Instruction::Complement => "Complement"@,
        Instruction::PushPrimitive(_) => "PushPrimitive"@,
    }
}

/// The text of the error for a primitive index that does not fit the mask.
pub open spec fn too_many_primitives_message() -> Seq<char> {
    "Only up to 64 primitives are supported for bitmask evaluation"@
}

/// Errors found when checking a cell's CSG program.
#[derive(Debug, PartialEq)]
pub enum CSGInstructionValidationError {
    PrimitiveIndexOutOfBounds { index: usize },
    EmptyInstructions,
    StackUnderflow { index: usize, instruction: String },
    StackNotExhausted { remaining: usize },
    Other(String),
}

/// Instruction `k` pushes an index that is out of bounds or beyond 64.
pub open spec fn bad_push_at(ins: Seq<Instruction>, k: int, primitive_len: int) -> bool {
    ins[k] matches Instruction::PushPrimitive(id) && (id >= primitive_len || id >= 64)
}

/// No instruction before `n` pushes a bad index.
pub open spec fn no_bad_push_before(ins: Seq<Instruction>, n: int, primitive_len: int) -> bool {
    forall|k: int| 0 <= k < n ==> !#[trigger] bad_push_at(ins, k, primitive_len)
}

/// What `check_primitive_indices` reports: the error is the one of the first
/// bad push; an out-of-bounds index is reported before the 64 limit.
pub open spec fn index_check_error(
    ins: Seq<Instruction>,
    primitive_len: int,
    e: CSGInstructionValidationError,
) -> bool {
    exists|k: int|
        #![trigger ins[k]]
        0 <= k < ins.len() && bad_push_at(ins, k, primitive_len) && no_bad_push_before(
            ins,
            k,
            primitive_len,
        ) && match ins[k] {
            Instruction::PushPrimitive(id) => if id >= primitive_len {
                e == (CSGInstructionValidationError::PrimitiveIndexOutOfBounds { index: id })
            } else {
                e matches CSGInstructionValidationError::Other(msg) && msg@
                    == too_many_primitives_message()
            },
            _ => false,
        }
}

/// What `validate_csg_instructions` reports for a program that is not valid.
pub open spec fn rpn_error(ins: Seq<Instruction>, e: CSGInstructionValidationError) -> bool {
    match e {
        CSGInstructionValidationError::EmptyInstructions => ins.len() == 0,
        CSGInstructionValidationError::StackUnderflow { index, instruction } => {
            &&& ins.len() > 0
            &&& index < ins.len()
            &&& underflows_at(ins, index as int)
            &&& no_underflow_before(ins, index as int)
            &&& instruction@ == instruction_name(ins[index as int])
        },
        CSGInstructionValidationError::StackNotExhausted { remaining } => {
            &&& ins.len() > 0
            &&& no_underflow_before(ins, ins.len() as int)
            &&& depth_after(ins, ins.len() as int) != 1
            &&& remaining == depth_after(ins, ins.len() as int)
        },
        _ => false,
    }
}

fn instruction_debug_name(op: Instruction) -> (s: String)
    ensures
        s@ == instruction_name(op),
{
    match op {
        Instruction::Union => String::from_str("Union"),
        Instruction::Intersection => String::from_str("Intersection"),
        Instruction::Difference => String::from_str("Difference"),
        Instruction::Complement => String::from_str("Complement"),
        Instruction::PushPrimitive(_) => String::from_str("PushPrimitive"),
    }
}

/// Checks that a CSG program is well-formed RPN.
pub fn validate_csg_instructions(instructions: &[Instruction]) -> (r: Result<
    (),
    CSGInstructionValidationError,
>)
    ensures
        r is Ok <==> is_valid_rpn(instructions@),
        r matches Err(e) ==> rpn_error(instructions@, e),
{
    let ghost ins = instructions@;
    if instructions.len() == 0 {
        return Err(CSGInstructionValidationError::EmptyInstructions);
    }
    let mut depth: usize = 0;
    let mut i: usize = 0;
    while i < instructions.len()
        invariant
            ins == instructions@,
            0 <= i <= ins.len(),
            no_underflow_before(ins, i as int),
            depth == depth_after(ins, i as int),
            depth <= i,
        decreases ins.len() - i,
    {
        let inst = instructions[i];
        match inst {
            Instruction::PushPrimitive(_) => {
                depth = depth + 1;
            },
            Instruction::Complement => {
                if depth < 1 {
                    let name = instruction_debug_name(inst);
                    assert(underflows_at(ins, i as int));
                    return Err(
                        CSGInstructionValidationError::StackUnderflow {
                            index: i,
                            instruction: name,
                        },
                    );
                }
            },
            _ => {
                if depth < 2 {
                    let name = instruction_debug_name(inst);
                    assert(underflows_at(ins, i as int));
                    return Err(
                        CSGInstructionValidationError::StackUnderflow {
                            index: i,
                            instruction: name,
                        },
                    );
                }
                depth = depth - 1;
            },
        }
        assert(!underflows_at(ins, i as int));
        i = i + 1;
    }
    if depth != 1 {
        return Err(CSGInstructionValidationError::StackNotExhausted { remaining: depth });
    }
    Ok(())
}

/// Bit `j` of `x`.
pub open spec fn get_bit(x: u64, j: u64) -> bool {
    ((x >> j) & 1u64) == 1u64
}

proof fn lemma_bit_push(stack: u64, bit: u64, top: u64, j: u64)
    requires
        top < 64,
        j < 64,
        bit <= 1,
        !get_bit(stack, top),
    ensures
        get_bit(stack | (bit << top), j) == if j == top {
            bit == 1
        } else {
            get_bit(stack, j)
        },
{
    assert(((stack >> top) & 1u64) != 1u64 && top < 64 && j < 64 && bit <= 1 ==> (((
    stack | (bit << top)) >> j) & 1u64 == 1u64) == if j == top {
        bit == 1
    } else {
        ((stack >> j) & 1u64) == 1u64
    }) by (bit_vector);
}

proof fn lemma_bit_combine(stack: u64, r: u64, t1: u64, t2: u64, j: u64)
    requires
        t2 < 63,
        t1 == t2 + 1,
        j < 64,
        r <= 1,
    ensures
        get_bit(((stack & !(1u64 << t1)) & !(1u64 << t2)) | (r << t2), j) == if j == t2 {
            r == 1
        } else if j == t1 {
            false
        } else {
            get_bit(stack, j)
        },
{
    assert(t2 < 63 && t1 == t2 + 1 && j < 64 && r <= 1 ==> ((((((stack & !(1u64 << t1)) & !(1u64
        << t2)) | (r << t2)) >> j) & 1u64) == 1u64) == if j == t2 {
        r == 1
    } else if j == t1 {
        false
    } else {
        ((stack >> j) & 1u64) == 1u64
    }) by (bit_vector);
}

proof fn lemma_bit_replace(stack: u64, r: u64, t1: u64, j: u64)
    requires
        t1 < 64,
        j < 64,
        r <= 1,
    ensures
        get_bit((stack & !(1u64 << t1)) | (r << t1), j) == if j == t1 {
            r == 1
        } else {
            get_bit(stack, j)
        },
{
    assert(t1 < 64 && j < 64 && r <= 1 ==> (((((stack & !(1u64 << t1)) | (r << t1)) >> j) & 1u64)
        == 1u64) == if j == t1 {
        r == 1
    } else {
        ((stack >> j) & 1u64) == 1u64
    }) by (bit_vector);
}

proof fn lemma_bit_ops(a: u64, b: u64)
    requires
        a <= 1,
        b <= 1,
    ensures
        (a | b) <= 1,
        ((a | b) == 1) == (a == 1 || b == 1),
        (a & b) <= 1,
        ((a & b) == 1) == (a == 1 && b == 1),
        (a & !b) <= 1,
        ((a & !b) == 1) == (a == 1 && b != 1),
        (!a & 1u64) <= 1,
        ((!a & 1u64) == 1) == (a != 1),
{
    assert(a <= 1 && b <= 1 ==> (a | b) <= 1 && ((a | b) == 1) == (a == 1 || b == 1) && (a & b)
        <= 1 && ((a & b) == 1) == (a == 1 && b == 1) && (a & !b) <= 1 && ((a & !b) == 1) == (a
        == 1 && b != 1) && (!a & 1u64) <= 1 && ((!a & 1u64) == 1) == (a != 1)) by (bit_vector);
}

proof fn lemma_low_bit(x: u64)
    ensures
        (x & 1u64) <= 1,
        ((x & 1u64) == 1u64) == get_bit(x, 0),
        ((x & 1u64) != 0) == get_bit(x, 0),
{
    assert((x & 1u64) <= 1 && ((x & 1u64) == 1u64) == (((x >> 0u64) & 1u64) == 1u64) && ((x
        & 1u64) != 0) == (((x >> 0u64) & 1u64) == 1u64)) by (bit_vector);
}

/// The bit stack `stack` of height `top` holds exactly the values `st`.
pub open spec fn bit_stack_holds(stack: u64, top: u64, st: Seq<bool>) -> bool {
    &&& top <= 64
    &&& st.len() == top
    &&& forall|j: u64| j < 64 ==> #[trigger] get_bit(stack, j) == (j < top && st[j as int])
}

/// A cell's CSG program.
pub struct FlatCSG {
    pub instructions: Vec<Instruction>,
}

impl FlatCSG {
    /// Evaluates the program on a membership mask (bit `i` set when the point
    /// lies inside primitive `i`), keeping the whole stack in one `u64`.
    #[verifier::rlimit(40)]
    pub fn evaluate_bitmask(&self, mask: u64) -> (r: bool)
        requires
            no_underflow_before(self.instructions@, self.instructions@.len() as int),
            push_indices_below(self.instructions@, 64),
            fits_in_bitmask(self.instructions@),
        ensures
            r == csg_eval(self.instructions@, mask),
    {
        let ghost ins = self.instructions@;
        let mut stack: u64 = 0;
        let mut top: u64 = 0;
        let mut i: usize = 0;
        proof {
            assert forall|j: u64| j < 64 implies #[trigger] get_bit(stack, j) == (j < top
                && eval_prefix(ins, mask, 0)[j as int]) by {
                assert(((0u64 >> j) & 1u64) != 1u64) by (bit_vector);
            }
        }
        while i < self.instructions.len()
            invariant
                ins == self.instructions@,
                0 <= i <= ins.len(),
                no_underflow_before(ins, ins.len() as int),
                push_indices_below(ins, 64),
                fits_in_bitmask(ins),
                top == depth_after(ins, i as int),
                bit_stack_holds(stack, top, eval_prefix(ins, mask, i as int)),
            decreases ins.len() - i,
        {
            proof {
                lemma_eval_len(ins, mask, i as int);
                assert(!underflows_at(ins, i as int));
            }
            let ghost st = eval_prefix(ins, mask, i as int);
            let ghost old_stack = stack;
            let op = self.instructions[i];
            match op {
                Instruction::PushPrimitive(id) => {
                    assert(id < 64);
                    assert(top < 64);
                    let id64 = id as u64;
                    let bit = (mask >> id64) & 1;
                    proof {
                        lemma_low_bit(mask >> id64);
                        assert(!get_bit(stack, top));
                    }
                    stack = stack | (bit << top);
                    proof {
                        let nst = eval_prefix(ins, mask, i + 1);
                        assert(nst == st.push(mask_bit(mask, id)));
                        assert forall|j: u64| j < 64 implies #[trigger] get_bit(stack, j) == (j < top
                            + 1 && nst[j as int]) by {
                            lemma_bit_push(old_stack, bit, top, j);
                            assert(((mask >> id64) & 1u64 == 1u64) == mask_bit(mask, id));
                        }
                    }
                    top = top + 1;
                },
                Instruction::Complement => {
                    let a = (stack >> (top - 1)) & 1;
                    proof {
                        lemma_low_bit(stack >> (top - 1));
                        assert((a == 1) == get_bit(stack, (top - 1) as u64));
                        lemma_bit_ops(a, 0);
                    }
                    let r = !a & 1;
                    stack = (stack & !(1u64 << (top - 1))) | (r << (top - 1));
                    proof {
                        let nst = eval_prefix(ins, mask, i + 1);
                        assert(nst == st.drop_last().push(!st[st.len() - 1]));
                        assert forall|j: u64| j < 64 implies #[trigger] get_bit(stack, j) == (j < top
                            && nst[j as int]) by {
                            lemma_bit_replace(old_stack, r, (top - 1) as u64, j);
                        }
                    }
                },
                _ => {
                    let b = (stack >> (top - 1)) & 1;
                    let a = (stack >> (top - 2)) & 1;
                    proof {
                        lemma_low_bit(stack >> (top - 1));
                        lemma_low_bit(stack >> (top - 2));
                        assert((b == 1) == get_bit(stack, (top - 1) as u64));
                        assert((a == 1) == get_bit(stack, (top - 2) as u64));
                        lemma_bit_ops(a, b);
                    }
                    let r = match op {
                        Instruction::Union => a | b,
                        Instruction::Intersection => a & b,
                        _ => a & !b,
                    };
                    stack = ((stack & !(1u64 << (top - 1))) & !(1u64 << (top - 2))) | (r << (top
                        - 2));
                    proof {
                        let nst = eval_prefix(ins, mask, i + 1);
                        let n = st.len() as int;
                        assert(nst.len() == top - 1);
                        assert forall|j: u64| j < 64 implies #[trigger] get_bit(stack, j) == (j < top
                            - 1 && nst[j as int]) by {
                            lemma_bit_combine(old_stack, r, (top - 1) as u64, (top - 2) as u64, j);
                            if j < top - 2 {
                                assert(nst[j as int] == st[j as int]);
                            }
                        }
                    }
                    top = top - 1;
                },
            }
            i = i + 1;
        }
        proof {
            lemma_low_bit(stack);
        }
        (stack & 1) != 0
    }

    /// Checks that every pushed primitive exists and fits into the bitmask.
    /// Whether every primitive push finds fewer than 64 values on the stack,
    /// so that [`FlatCSG::evaluate_bitmask`] can keep the stack in one word.
    pub fn stack_fits_in_word(&self) -> (r: bool)
        requires
            no_underflow_before(self.instructions@, self.instructions@.len() as int),
        ensures
            r == fits_in_bitmask(self.instructions@),
    {
        let ghost ins = self.instructions@;
        let mut depth: usize = 0;
        let mut i: usize = 0;
        while i < self.instructions.len()
            invariant
                ins == self.instructions@,
                0 <= i <= ins.len(),
                depth <= i,
                depth == depth_after(ins, i as int),
                no_underflow_before(ins, ins.len() as int),
                forall|j: int|
                    #![trigger ins[j]]
                    0 <= j < i && ins[j] is PushPrimitive ==> depth_after(ins, j) < 64,
            decreases ins.len() - i,
        {
            assert(!underflows_at(ins, i as int));
            match self.instructions[i] {
                Instruction::PushPrimitive(_) => {
                    if depth >= 64 {
                        return false;
                    }
                    depth = depth + 1;
                },
                Instruction::Complement => {},
                _ => {
                    depth = depth - 1;
                },
            }
            i = i + 1;
        }
        true
    }

    fn check_primitive_indices(&self, primitive_len: usize) -> (r: Result<
        (),
        CSGInstructionValidationError,
    >)
        ensures
            r is Ok <==> no_bad_push_before(
                self.instructions@,
                self.instructions@.len() as int,
                primitive_len as int,
            ),
            r matches Err(e) ==> index_check_error(self.instructions@, primitive_len as int, e),
    {
        let ghost ins = self.instructions@;
        let mut i: usize = 0;
        while i < self.instructions.len()
            invariant
                ins == self.instructions@,
                0 <= i <= ins.len(),
                no_bad_push_before(ins, i as int, primitive_len as int),
            decreases ins.len() - i,
        {
            if let Instruction::PushPrimitive(id) = self.instructions[i] {
                if id >= primitive_len {
                    assert(bad_push_at(ins, i as int, primitive_len as int));
                    return Err(CSGInstructionValidationError::PrimitiveIndexOutOfBounds { index: id });
                }
                if id >= 64 {
                    assert(bad_push_at(ins, i as int, primitive_len as int));
                    return Err(
                        CSGInstructionValidationError::Other(
                            String::from_str(
                                "Only up to 64 primitives are supported for bitmask evaluation",
                            ),
                        ),
                    );
                }
            }
            assert(!bad_push_at(ins, i as int, primitive_len as int));
            i = i + 1;
        }
        Ok(())
    }
}

/// A region of space: the points accepted by its CSG program, filled with
/// one material.
pub struct Cell {
    pub csg: FlatCSG,
    pub material_id: MaterialIndex,
}

/// Which storage array of its kind a primitive lives in, and at what index.
#[derive(Debug, Clone, Copy, PartialEq, Eq, Structural)]
pub enum PrimitiveTag {
    Sphere(usize),
    RPP(usize),
    Cylinder(usize),
}

/// The kind of a primitive added to a [`PrimitiveStorage`].
#[derive(Debug, Clone, Copy, PartialEq, Eq, Structural)]
pub enum PrimitiveKind {
    Sphere,
    RectangularParallelPiped,
    FiniteCylinder,
}

/// The tag that a primitive of `kind` gets as the `local`-th of its kind.
pub open spec fn tag_of(kind: PrimitiveKind, local: usize) -> PrimitiveTag {
    match kind {
        PrimitiveKind::Sphere => PrimitiveTag::Sphere(local),
        PrimitiveKind::RectangularParallelPiped => PrimitiveTag::RPP(local),
        PrimitiveKind::FiniteCylinder => PrimitiveTag::Cylinder(local),
    }
}

/// The kind a tag belongs to.
pub open spec fn kind_of(tag: PrimitiveTag) -> PrimitiveKind {
    match tag {
        PrimitiveTag::Sphere(_) => PrimitiveKind::Sphere,
        PrimitiveTag::RPP(_) => PrimitiveKind::RectangularParallelPiped,
        PrimitiveTag::Cylinder(_) => PrimitiveKind::FiniteCylinder,
    }
}

/// The position of a tagged primitive inside the storage of its kind.
pub open spec fn local_of(tag: PrimitiveTag) -> usize {
    match tag {
        PrimitiveTag::Sphere(l) => l,
        PrimitiveTag::RPP(l) => l,
        PrimitiveTag::Cylinder(l) => l,
    }
}

/// Index bookkeeping of the primitives of a world: every primitive has a
/// global id (its position in `tags`), and every kind keeps the list of the
/// global ids of its members, in insertion order.  The geometric payload of
/// each kind is stored alongside by the caller, at the local index.
#[derive(Debug, Clone)]
pub struct PrimitiveStorage {
    tags: Vec<PrimitiveTag>,
    sphere_indices: Vec<usize>,
    rpp_indices: Vec<usize>,
    cylinder_indices: Vec<usize>,
}

impl PrimitiveStorage {
    /// Tags of all primitives, by global id.
    pub closed spec fn spec_tags(&self) -> Seq<PrimitiveTag> {
        self.tags@
    }

    /// Global ids of the primitives of one kind, by local index.
    pub closed spec fn spec_indices(&self, kind: PrimitiveKind) -> Seq<usize> {
        match kind {
            PrimitiveKind::Sphere => self.sphere_indices@,
            PrimitiveKind::RectangularParallelPiped => self.rpp_indices@,
            PrimitiveKind::FiniteCylinder => self.cylinder_indices@,
        }
    }

    /// The tag table and the per-kind id lists are inverse to each other.
    pub open spec fn wf(&self) -> bool {
        &&& forall|kind: PrimitiveKind, l: int|
            #![trigger self.spec_indices(kind)[l]]
            0 <= l < self.spec_indices(kind).len() ==> {
                &&& self.spec_indices(kind)[l] < self.spec_tags().len()
                &&& self.spec_tags()[self.spec_indices(kind)[l] as int] == tag_of(kind, l as usize)
            }
        &&& forall|g: int|
            #![trigger self.spec_tags()[g]]
            0 <= g < self.spec_tags().len() ==> {
                let tag = self.spec_tags()[g];
                &&& local_of(tag) < self.spec_indices(kind_of(tag)).len()
                &&& self.spec_indices(kind_of(tag))[local_of(tag) as int] == g
            }
    }

    /// An empty storage.
    pub fn new() -> (s: Self)
        ensures
            s.wf(),
            s.spec_tags() == Seq::<PrimitiveTag>::empty(),
            forall|kind: PrimitiveKind| s.spec_indices(kind) == Seq::<usize>::empty(),
    {
        PrimitiveStorage {
            tags: Vec::new(),
            sphere_indices: Vec::new(),
            rpp_indices: Vec::new(),
            cylinder_indices: Vec::new(),
        }
    }

    /// Registers a primitive of `kind` and returns its global id.
    pub fn add(&mut self, kind: PrimitiveKind) -> (id: usize)
        requires
            old(self).wf(),
        ensures
            final(self).wf(),
            id == old(self).spec_tags().len(),
            final(self).spec_tags() == old(self).spec_tags().push(
                tag_of(kind, old(self).spec_indices(kind).len() as usize),
            ),
            final(self).spec_indices(kind) == old(self).spec_indices(kind).push(id),
            forall|other: PrimitiveKind|
                other != kind ==> final(self).spec_indices(other) == old(self).spec_indices(other),
    {
        let id = self.tags.len();
        match kind {
            PrimitiveKind::Sphere => {
                let local_idx = self.sphere_indices.len();
                self.tags.push(PrimitiveTag::Sphere(local_idx));
                self.sphere_indices.push(id);
            },
            PrimitiveKind::RectangularParallelPiped => {
                let local_idx = self.rpp_indices.len();
                self.tags.push(PrimitiveTag::RPP(local_idx));
                self.rpp_indices.push(id);
            },
            PrimitiveKind::FiniteCylinder => {
                let local_idx = self.cylinder_indices.len();
                self.tags.push(PrimitiveTag::Cylinder(local_idx));
                self.cylinder_indices.push(id);
            },
        }
        proof {
            let o = old(self);
            assert forall|k: PrimitiveKind, l: int|
                #![trigger self.spec_indices(k)[l]]
                0 <= l < self.spec_indices(k).len() implies {
                &&& self.spec_indices(k)[l] < self.spec_tags().len()
                &&& self.spec_tags()[self.spec_indices(k)[l] as int] == tag_of(k, l as usize)
            } by {
                if l < o.spec_indices(k).len() {
                    assert(o.spec_indices(k)[l] == self.spec_indices(k)[l]);
                }
            }
            assert forall|g: int|
                #![trigger self.spec_tags()[g]]
                0 <= g < self.spec_tags().len() implies {
                let tag = self.spec_tags()[g];
                &&& local_of(tag) < self.spec_indices(kind_of(tag)).len()
                &&& self.spec_indices(kind_of(tag))[local_of(tag) as int] == g
            } by {
                if g < o.spec_tags().len() {
                    assert(o.spec_tags()[g] == self.spec_tags()[g]);
                    let tag = o.spec_tags()[g];
                    assert(o.spec_indices(kind_of(tag))[local_of(tag) as int] == g);
                }
            }
        }
        id
    }

    /// Number of primitives.
    pub fn len(&self) -> (n: usize)
        ensures
            n == self.spec_tags().len(),
    {
        self.tags.len()
    }

    /// Tags of all primitives, by global id.
    pub fn tags(&self) -> (t: &Vec<PrimitiveTag>)
        ensures
            t@ == self.spec_tags(),
    {
        &self.tags
    }

    /// Global ids of the primitives of one kind, by local index.
    pub fn indices(&self, kind: PrimitiveKind) -> (v: &Vec<usize>)
        ensures
            v@ == self.spec_indices(kind),
    {
        match kind {
            PrimitiveKind::Sphere => &self.sphere_indices,
            PrimitiveKind::RectangularParallelPiped => &self.rpp_indices,
            PrimitiveKind::FiniteCylinder => &self.cylinder_indices,
        }
    }
}

/// A cell program passes both checks of [`World::validate`].
pub open spec fn cell_ok(ins: Seq<Instruction>, primitive_len: int) -> bool {
    no_bad_push_before(ins, ins.len() as int, primitive_len) && is_valid_rpn(ins)
}

/// The error [`World::validate`] reports for one cell.
pub open spec fn cell_error(
    ins: Seq<Instruction>,
    primitive_len: int,
    e: CSGInstructionValidationError,
) -> bool {
    ||| index_check_error(ins, primitive_len, e)
    ||| no_bad_push_before(ins, ins.len() as int, primitive_len) && rpn_error(ins, e)
}

/// Primitives and the cells built from them.
pub struct World {
    pub primitives: PrimitiveStorage,
    pub cells: Vec<Cell>,
}

/// Material of the first cell, from index `c` on, whose program holds on
/// the mask.
pub open spec fn first_material_from(cells: Seq<Cell>, mask: u64, c: int) -> Option<MaterialIndex>
    decreases cells.len() - c,
{
    if c < 0 || c >= cells.len() {
        None
    } else if csg_eval(cells[c].csg.instructions@, mask) {
        Some(cells[c].material_id)
    } else {
        first_material_from(cells, mask, c + 1)
    }
}

proof fn lemma_first_material_at(cells: Seq<Cell>, mask: u64, k: int, c: int)
    requires
        0 <= k <= c < cells.len(),
        csg_eval(cells[c].csg.instructions@, mask),
        forall|d: int| k <= d < c ==> !csg_eval(#[trigger] cells[d].csg.instructions@, mask),
    ensures
        first_material_from(cells, mask, k) == Some(cells[c].material_id),
    decreases c - k,
{
    if k < c {
        assert(!csg_eval(cells[k].csg.instructions@, mask));
        lemma_first_material_at(cells, mask, k + 1, c);
    }
}

proof fn lemma_first_material_none(cells: Seq<Cell>, mask: u64, k: int)
    requires
        0 <= k <= cells.len(),
    ensures
        first_material_from(cells, mask, k) is None <==> forall|c: int|
            k <= c < cells.len() ==> !csg_eval(#[trigger] cells[c].csg.instructions@, mask),
    decreases cells.len() - k,
{
    if k < cells.len() {
        lemma_first_material_none(cells, mask, k + 1);
    }
}

/// The material of a mask is decided by the first cell whose program holds
/// on it, whichever cell that is (the last one included), and there is no
/// material exactly when no cell's program holds.
pub proof fn lemma_first_material(cells: Seq<Cell>, mask: u64)
    ensures
        forall|c: int|
            0 <= c < cells.len() && csg_eval(#[trigger] cells[c].csg.instructions@, mask) && (
            forall|d: int| 0 <= d < c ==> !csg_eval(#[trigger] cells[d].csg.instructions@, mask))
                ==> first_material_from(cells, mask, 0) == Some(cells[c].material_id),
        first_material_from(cells, mask, 0) is None <==> forall|c: int|
            0 <= c < cells.len() ==> !csg_eval(#[trigger] cells[c].csg.instructions@, mask),
{
    assert forall|c: int|
        0 <= c < cells.len() && csg_eval(#[trigger] cells[c].csg.instructions@, mask) && (forall|
            d: int,
        | 0 <= d < c ==> !csg_eval(#[trigger] cells[d].csg.instructions@, mask)) implies first_material_from(
        cells,
        mask,
        0,
    ) == Some(cells[c].material_id) by {
        lemma_first_material_at(cells, mask, 0, c);
    }
    lemma_first_material_none(cells, mask, 0);
}

impl World {
    /// The material at a point, given the point's membership mask (bit `i`
    /// set when the point lies inside primitive `i`): that of the first cell
    /// whose program holds, or `None` outside every cell.
    pub fn material_at(&self, mask: u64) -> (r: Option<MaterialIndex>)
        requires
            forall|c: int|
                0 <= c < self.cells@.len() ==> cell_ok(
                    #[trigger] self.cells@[c].csg.instructions@,
                    self.primitives.spec_tags().len() as int,
                ) && fits_in_bitmask(self.cells@[c].csg.instructions@),
        ensures
            r == first_material_from(self.cells@, mask, 0),
            forall|c: int|
                0 <= c < self.cells@.len() && csg_eval(
                    #[trigger] self.cells@[c].csg.instructions@,
                    mask,
                ) && (forall|d: int|
                    0 <= d < c ==> !csg_eval(#[trigger] self.cells@[d].csg.instructions@, mask))
                    ==> r == Some(self.cells@[c].material_id),
            r is None <==> forall|c: int|
                0 <= c < self.cells@.len() ==> !csg_eval(
                    #[trigger] self.cells@[c].csg.instructions@,
                    mask,
                ),
    {
        let mut c: usize = 0;
        while c < self.cells.len()
            invariant
                0 <= c <= self.cells@.len(),
                forall|d: int|
                    0 <= d < self.cells@.len() ==> cell_ok(
                        #[trigger] self.cells@[d].csg.instructions@,
                        self.primitives.spec_tags().len() as int,
                    ) && fits_in_bitmask(self.cells@[d].csg.instructions@),
                first_material_from(self.cells@, mask, 0) == first_material_from(
                    self.cells@,
                    mask,
                    c as int,
                ),
            decreases self.cells@.len() - c,
        {
            let cell = &self.cells[c];
            proof {
                let ins = self.cells@[c as int].csg.instructions@;
                assert(cell_ok(ins, self.primitives.spec_tags().len() as int));
                assert forall|i: int| 0 <= i < ins.len() implies (#[trigger] ins[i]
                    matches Instruction::PushPrimitive(id) ==> id < 64) by {
                    assert(!bad_push_at(ins, i, self.primitives.spec_tags().len() as int));
                }
            }
            if cell.csg.evaluate_bitmask(mask) {
                proof {
                    lemma_first_material(self.cells@, mask);
                }
                return Some(cell.material_id);
            }
            c = c + 1;
        }
        proof {
            lemma_first_material(self.cells@, mask);
        }
        None
    }

    /// Checks every cell in order: its primitive indices, then its program.
    pub fn validate(&self) -> (r: Result<(), CSGInstructionValidationError>)
        ensures
            r is Ok <==> forall|c: int|
                0 <= c < self.cells@.len() ==> cell_ok(
                    #[trigger] self.cells@[c].csg.instructions@,
                    self.primitives.spec_tags().len() as int,
                ),
            r matches Err(e) ==> exists|c: int|
                0 <= c < self.cells@.len() && (forall|d: int|
                    0 <= d < c ==> cell_ok(
                        #[trigger] self.cells@[d].csg.instructions@,
                        self.primitives.spec_tags().len() as int,
                    )) && cell_error(
                    #[trigger] self.cells@[c].csg.instructions@,
                    self.primitives.spec_tags().len() as int,
                    e,
                ),
    {
        let primitive_len = self.primitives.len();
        let mut c: usize = 0;
        while c < self.cells.len()
            invariant
                primitive_len == self.primitives.spec_tags().len(),
                0 <= c <= self.cells@.len(),
                forall|d: int|
                    0 <= d < c ==> cell_ok(
                        #[trigger] self.cells@[d].csg.instructions@,
                        primitive_len as int,
                    ),
            decreases self.cells@.len() - c,
        {
            let cell = &self.cells[c];
            match cell.csg.check_primitive_indices(primitive_len) {
                Err(e) => {
                    return Err(e);
                },
                Ok(()) => {},
            }
            match validate_csg_instructions(cell.csg.instructions.as_slice()) {
                Err(e) => {
                    return Err(e);
                },
                Ok(()) => {},
            }
            c = c + 1;
        }
        Ok(())
    }
}

} // verus!
