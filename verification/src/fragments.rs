//! Sample fragments. Most of them have more live values than a target has
//! registers, so that their boundaries have operands in spill slots too.

use vstd::prelude::*;

use crate::ir;
use crate::ir::{Block, BlockCall, BlockView, Function, FunctionView, InstructionData};
use crate::ir::{Inst, Opcode, Value};
use crate::state_map::{EntryConstraint, Location};
use crate::types::Type;

verus! {

broadcast use vstd::std_specs::btree::group_btree_axioms;

/// How many integers, and how many vectors, the larger fragments keep alive.
pub const COUNT: usize = 40;

/// One instruction of a listing: the block that it stands in, what it does, its
/// operands, the types of its results, and its branch destinations.
pub struct Row {
    pub block: int,
    pub data: InstructionData,
    pub args: Seq<Value>,
    pub types: Seq<Type>,
    pub targets: Seq<(Block, Seq<Value>)>,
}

/// The fragment with a number of blocks that holds the instructions of a
/// listing, each at the end of its block when its turn comes. Results are
/// numbered in the order of the listing.
pub open spec fn assembled(blocks: nat, rows: Seq<Row>) -> FunctionView
    decreases rows.len(),
{
    if rows.len() == 0 {
        FunctionView {
            blocks: Seq::new(
                blocks,
                |b: int| BlockView { params: Seq::empty(), insts: Seq::empty(), cold: false },
            ),
            ..FunctionView::empty()
        }
    } else {
        let before = assembled(blocks, rows.drop_last());
        let row = rows.last();
        before.with_inst(
            row.block,
            before.blocks[row.block].insts.len() as int,
            row.data,
            row.args,
            row.types,
            row.targets,
        )
    }
}

/// The number of the first result of instruction `i` of a listing: as many values
/// as the instructions before it define.
pub open spec fn first_result(rows: Seq<Row>, i: int) -> int
    decreases i,
{
    if i <= 0 {
        0
    } else {
        first_result(rows, i - 1) + rows[i - 1].types.len()
    }
}

/// Every instruction of the listing stands in one of the blocks.
pub open spec fn in_blocks(blocks: nat, rows: Seq<Row>) -> bool {
    forall|i: int| 0 <= i < rows.len() ==> 0 <= (#[trigger] rows[i]).block < blocks
}

/// The instructions of the fragment are those of the listing, in its order; they
/// define the values that follow those of the instructions before, with the types
/// that the listing gives; and there are no other values.
pub open spec fn lists_insts(f: FunctionView, rows: Seq<Row>) -> bool {
    &&& f.insts.len() == rows.len()
    &&& forall|i: int|
        0 <= i < rows.len() ==> #[trigger] f.insts[i] == (ir::InstView {
            data: rows[i].data,
            args: rows[i].args,
            results: ir::values_from(first_result(rows, i), rows[i].types.len()),
            targets: rows[i].targets,
        })
    &&& f.value_types.len() == first_result(rows, rows.len() as int)
    &&& f.value_defs.len() == first_result(rows, rows.len() as int)
    &&& forall|i: int, r: int|
        0 <= i < rows.len() && 0 <= r < rows[i].types.len()
            ==> f.value_types[first_result(rows, i) + r] == #[trigger] rows[i].types[r]
            && f.value_defs[first_result(rows, i) + r] == Some(Inst(i as usize))
}

/// Each block of the fragment holds the instructions that the listing puts there,
/// each once and in the order of the listing, and nothing else.
pub open spec fn lists_blocks(f: FunctionView, blocks: nat, rows: Seq<Row>) -> bool {
    &&& f.blocks.len() == blocks
    &&& forall|b: int|
        0 <= b < blocks ==> (#[trigger] f.blocks[b]).params == Seq::<Value>::empty()
            && !f.blocks[b].cold
    &&& forall|b: int, k: int|
        0 <= b < blocks && 0 <= k < f.blocks[b].insts.len() ==> (
        #[trigger] f.blocks[b].insts[k]).0 < rows.len() && rows[f.blocks[b].insts[k].0 as int].block
            == b
    &&& forall|b: int, k: int, l: int|
        0 <= b < blocks && 0 <= k < l < f.blocks[b].insts.len() ==> (
        #[trigger] f.blocks[b].insts[k]).0 < (#[trigger] f.blocks[b].insts[l]).0
    &&& forall|i: int|
        0 <= i < rows.len() ==> f.blocks[(#[trigger] rows[i]).block].insts.contains(
            Inst(i as usize),
        )
}

proof fn lemma_first_result_prefix(rows: Seq<Row>, count: int, i: int)
    requires
        0 <= i <= count <= rows.len(),
    ensures
        first_result(rows.take(count), i) == first_result(rows, i),
    decreases i,
{
    if i > 0 {
        lemma_first_result_prefix(rows, count, i - 1);
    }
}

proof fn lemma_first_result_grows(rows: Seq<Row>, i: int, j: int)
    requires
        0 <= i <= j,
    ensures
        0 <= first_result(rows, i) <= first_result(rows, j),
        i < j ==> first_result(rows, i) + rows[i].types.len() <= first_result(rows, j),
    decreases j,
{
    if i < j {
        lemma_first_result_grows(rows, i, j - 1);
    } else if i > 0 {
        lemma_first_result_grows(rows, i - 1, i - 1);
    }
}

/// What a listing gives: its instructions with their values, in their blocks, and
/// nothing else.
pub proof fn lemma_listing(blocks: nat, rows: Seq<Row>)
    requires
        in_blocks(blocks, rows),
        rows.len() <= usize::MAX,
    ensures
        lists_insts(assembled(blocks, rows), rows),
        lists_blocks(assembled(blocks, rows), blocks, rows),
        assembled(blocks, rows) == (FunctionView {
            insts: assembled(blocks, rows).insts,
            value_types: assembled(blocks, rows).value_types,
            value_defs: assembled(blocks, rows).value_defs,
            blocks: assembled(blocks, rows).blocks,
            ..FunctionView::empty()
        }),
    decreases rows.len(),
{
    if rows.len() > 0 {
        let fewer = rows.drop_last();
        let n = fewer.len() as int;
        assert(fewer =~= rows.take(n));
        assert(in_blocks(blocks, fewer)) by {
            assert forall|i: int| 0 <= i < fewer.len() implies 0 <= (
            #[trigger] fewer[i]).block < blocks by {
                assert(fewer[i] == rows[i]);
            }
        }
        lemma_listing(blocks, fewer);
        let before = assembled(blocks, fewer);
        let after = assembled(blocks, rows);
        lemma_first_result_prefix(rows, n, n);
        assert forall|i: int| 0 <= i < rows.len() implies #[trigger] after.insts[i] == (
        ir::InstView {
            data: rows[i].data,
            args: rows[i].args,
            results: ir::values_from(first_result(rows, i), rows[i].types.len()),
            targets: rows[i].targets,
        }) by {
            lemma_first_result_prefix(rows, n, if i < n {
                i
            } else {
                n
            });
            if i < n {
                assert(after.insts[i] == before.insts[i]);
                assert(fewer[i] == rows[i]);
            }
        }
        assert forall|i: int, r: int|
            0 <= i < rows.len() && 0 <= r
                < rows[i].types.len() implies after.value_types[first_result(rows, i) + r]
            == #[trigger] rows[i].types[r] && after.value_defs[first_result(rows, i) + r] == Some(
            Inst(i as usize),
        ) by {
            if i < n {
                lemma_first_result_prefix(rows, n, i);
                lemma_first_result_grows(rows, i, n);
                assert(fewer[i] == rows[i]);
                assert(fewer[i].types[r] == rows[i].types[r]);
            }
        }
        lemma_listed_blocks(blocks, rows);
    }
}

proof fn lemma_listed_blocks(blocks: nat, rows: Seq<Row>)
    requires
        0 < rows.len() <= usize::MAX,
        in_blocks(blocks, rows),
        lists_insts(assembled(blocks, rows.drop_last()), rows.drop_last()),
        lists_blocks(assembled(blocks, rows.drop_last()), blocks, rows.drop_last()),
    ensures
        lists_blocks(assembled(blocks, rows), blocks, rows),
{
    let fewer = rows.drop_last();
    let n = fewer.len() as int;
    let before = assembled(blocks, fewer);
    let after = assembled(blocks, rows);
    let at = rows.last().block;
    let held = before.blocks[at].insts;
    assert(rows[n].block == at);
    assert(after.blocks[at].insts =~= held.push(Inst(n as usize)));
    assert forall|b: int, k: int|
        0 <= b < blocks && 0 <= k < after.blocks[b].insts.len() implies (
    #[trigger] after.blocks[b].insts[k]).0 < rows.len() && rows[after.blocks[b].insts[k].0 as int].block
        == b by {
        if b != at || k < held.len() {
            let inst = before.blocks[b].insts[k];
            assert(after.blocks[b].insts[k] == inst);
            assert(fewer[inst.0 as int] == rows[inst.0 as int]);
        }
    }
    assert forall|b: int, k: int, l: int|
        0 <= b < blocks && 0 <= k < l < after.blocks[b].insts.len() implies (
    #[trigger] after.blocks[b].insts[k]).0 < (#[trigger] after.blocks[b].insts[l]).0 by {
        let _ = before.blocks[b].insts[k];
        if b != at || l < held.len() {
            let _ = before.blocks[b].insts[l];
        }
    }
    assert forall|i: int| 0 <= i < rows.len() implies after.blocks[(
    #[trigger] rows[i]).block].insts.contains(Inst(i as usize)) by {
        let b = rows[i].block;
        if i == n {
            assert(after.blocks[at].insts[held.len() as int] == Inst(n as usize));
        } else {
            assert(fewer[i] == rows[i]);
            assert(before.blocks[b].insts.contains(Inst(i as usize)));
            let k = choose|k: int|
                0 <= k < before.blocks[b].insts.len() && before.blocks[b].insts[k] == Inst(
                    i as usize,
                );
            assert(after.blocks[b].insts[k] == Inst(i as usize));
        }
    }
}

/// A listing of one block puts its instructions there in its order.
pub proof fn lemma_listing_of_one_block(rows: Seq<Row>)
    requires
        in_blocks(1, rows),
    ensures
        assembled(1, rows).insts.len() == rows.len(),
        assembled(1, rows).blocks.len() == 1,
        assembled(1, rows).blocks[0].insts == Seq::new(rows.len(), |i: int| Inst(i as usize)),
    decreases rows.len(),
{
    if rows.len() > 0 {
        let fewer = rows.drop_last();
        assert(in_blocks(1, fewer)) by {
            assert forall|i: int| 0 <= i < fewer.len() implies 0 <= (
            #[trigger] fewer[i]).block < 1 by {
                assert(fewer[i] == rows[i]);
            }
        }
        lemma_listing_of_one_block(fewer);
        assert(rows[rows.len() - 1].block == 0);
    }
    assert(assembled(1, rows).blocks[0].insts =~= Seq::new(
        rows.len(),
        |i: int| Inst(i as usize),
    ));
}

/// An instruction of the first block without branch destinations.
pub open spec fn row(data: InstructionData, args: Seq<Value>, types: Seq<Type>) -> Row {
    Row { block: 0, data, args, types, targets: Seq::empty() }
}

/// A fragment with a number of empty blocks.
fn start(blocks: usize) -> (f: Function)
    ensures
        f.wf(),
        f@ == assembled(blocks as nat, Seq::empty()),
        f.blocks@.len() == blocks,
        f.value_types@.len() == 0,
{
    let mut f = Function::new();
    assert(f@ =~= assembled(0, Seq::empty()));
    assert(f@.blocks.len() == f.blocks@.len());
    let mut b: usize = 0;
    while b < blocks
        invariant
            b <= blocks,
            f.wf(),
            f@ == assembled(b as nat, Seq::empty()),
            f.blocks@.len() == b,
            f.value_types@.len() == 0,
        decreases blocks - b,
    {
        f.make_block();
        b = b + 1;
        assert(f@ =~= assembled(b as nat, Seq::empty()));
    }
    f
}

/// Appends one instruction without branch destinations. Its first result, if it
/// has one, is the value returned.
fn put(
    f: &mut Function,
    Ghost(blocks): Ghost<nat>,
    Ghost(rows): Ghost<Seq<Row>>,
    block: Block,
    data: InstructionData,
    args: Vec<Value>,
    types: &[Type],
) -> (first: Value)
    requires
        old(f).wf(),
        old(f)@ == assembled(blocks, rows),
        block.0 < old(f).blocks@.len(),
        old(f).has_values(args@),
        !(data is UnaryConst),
        old(f).value_types@.len() + types@.len() <= usize::MAX,
    ensures
        final(f).wf(),
        final(f)@ == assembled(
            blocks,
            rows.push(
                (Row {
                    block: block.0 as int,
                    data,
                    args: args@,
                    types: types@,
                    targets: Seq::empty(),
                }),
            ),
        ),
        final(f).blocks@.len() == old(f).blocks@.len(),
        final(f).value_types@.len() == old(f).value_types@.len() + types@.len(),
        first.0 == old(f).value_types@.len(),
{
    let first = Value(f.value_types.len());
    let ghost row = Row {
        block: block.0 as int,
        data,
        args: args@,
        types: types@,
        targets: Seq::empty(),
    };
    let targets: Vec<BlockCall> = Vec::new();
    assert(targets@.map_values(|call: BlockCall| (call.block, call.args@)) =~= Seq::empty());
    f.append_inst(block, data, args, types, targets);
    assert(rows.push(row).drop_last() =~= rows);
    assert(old(f)@.blocks[block.0 as int] == old(f).blocks@[block.0 as int]@);
    first
}

fn no_values() -> (values: Vec<Value>)
    ensures
        values@ == Seq::<Value>::empty(),
{
    Vec::new()
}

fn one_value(value: Value) -> (values: Vec<Value>)
    ensures
        values@ == seq![value],
{
    let mut values: Vec<Value> = Vec::new();
    values.push(value);
    assert(values@ =~= seq![value]);
    values
}

/// `pairs` times an integer and a vector.
pub open spec fn mixed_types(pairs: nat) -> Seq<Type> {
    Seq::new(
        2 * pairs,
        |i: int|
            if i % 2 == 0 {
                Type::I64
            } else {
                Type::I8X16
            },
    )
}

fn list_mixed_types(pairs: usize) -> (types: Vec<Type>)
    ensures
        types@ == mixed_types(pairs as nat),
{
    let mut types: Vec<Type> = Vec::new();
    let mut i: usize = 0;
    while i < pairs
        invariant
            i <= pairs,
            types@ == mixed_types(i as nat),
        decreases pairs - i,
    {
        types.push(Type::I64);
        types.push(Type::I8X16);
        i = i + 1;
        assert(types@ =~= mixed_types(i as nat));
    }
    types
}

/// An exit with the values that it hands over.
pub open spec fn exit_row(block: int, id: i64, args: Seq<Value>) -> Row {
    Row {
        block,
        data: InstructionData::NixeBoundary { opcode: Opcode::NixeExit, imm: id },
        args,
        types: Seq::empty(),
        targets: Seq::empty(),
    }
}

/// What the fast fragment hands over: sums in place of its integer inputs, and
/// its vector inputs as they are.
pub open spec fn fast_outputs(sums: int) -> Seq<Value> {
    Seq::new(
        (2 * COUNT) as nat,
        |k: int|
            if k % 2 == 0 && k < 2 * sums {
                Value((2 * COUNT + k / 2) as usize)
            } else {
                Value(k as usize)
            },
    )
}

/// The listing of the fast fragment up to its exit.
pub open spec fn fast_body(sums: nat) -> Seq<Row> {
    seq![
        row(InstructionData::NixeEntry { imm: 1 }, Seq::empty(), mixed_types(COUNT as nat)),
    ] + Seq::new(
        sums,
        |i: int|
            row(
                InstructionData::Other { opcode: Opcode::IaddImm, imm: (i + 1) as i64 },
                seq![Value((2 * i) as usize)],
                seq![Type::I64],
            ),
    )
}

/// The listing of the fast fragment.
pub open spec fn fast_rows() -> Seq<Row> {
    fast_body(COUNT as nat).push(exit_row(0, 2, fast_outputs(COUNT as int)))
}

/// A fragment that is entered with all of its inputs at once: entry 1 defines
/// integers and vectors in turn, integer number `i` is increased by `i + 1`, and
/// exit 2 hands all over in the order of the inputs.
pub fn fast_fragment() -> (f: Function)
    ensures
        f.wf(),
        f@ == assembled(1, fast_rows()),
{
    let mut f = start(1);
    let block = Block(0);
    let types = list_mixed_types(COUNT);
    put(
        &mut f,
        Ghost(1),
        Ghost(Seq::empty()),
        block,
        InstructionData::NixeEntry { imm: 1 },
        no_values(),
        types.as_slice(),
    );
    assert(Seq::empty().push(
        row(InstructionData::NixeEntry { imm: 1 }, Seq::empty(), mixed_types(COUNT as nat)),
    ) =~= fast_body(0));
    let mut args: Vec<Value> = Vec::new();
    let mut k: usize = 0;
    while k < 2 * COUNT
        invariant
            k <= 2 * COUNT,
            args@ == fast_outputs(0).take(k as int),
        decreases 2 * COUNT - k,
    {
        args.push(Value(k));
        k = k + 1;
        assert(args@ =~= fast_outputs(0).take(k as int));
    }
    assert(args@ =~= fast_outputs(0));
    let mut i: usize = 0;
    while i < COUNT
        invariant
            i <= COUNT,
            block.0 == 0,
            f.blocks@.len() == 1,
            f.wf(),
            f@ == assembled(1, fast_body(i as nat)),
            f.value_types@.len() == 2 * COUNT + i,
            args@ == fast_outputs(i as int),
        decreases COUNT - i,
    {
        let sum = put(
            &mut f,
            Ghost(1),
            Ghost(fast_body(i as nat)),
            block,
            InstructionData::Other { opcode: Opcode::IaddImm, imm: (i + 1) as i64 },
            one_value(args[2 * i]),
            &[Type::I64],
        );
        assert([Type::I64]@ =~= seq![Type::I64]);
        args.set(2 * i, sum);
        assert(fast_body(i as nat).push(
            row(
                InstructionData::Other { opcode: Opcode::IaddImm, imm: (i + 1) as i64 },
                seq![Value((2 * i) as usize)],
                seq![Type::I64],
            ),
        ) =~= fast_body((i + 1) as nat));
        i = i + 1;
        assert(args@ =~= fast_outputs(i as int));
    }
    put(
        &mut f,
        Ghost(1),
        Ghost(fast_body(COUNT as nat)),
        block,
        InstructionData::NixeBoundary { opcode: Opcode::NixeExit, imm: 2 },
        args,
        &[],
    );
    assert([]@ =~= Seq::<Type>::empty());
    f
}

/// The constraints of the constrained fragment: four registers for the first six
/// results, and the allocator's choice for all others.
pub open spec fn sample_constraints() -> Seq<EntryConstraint> {
    seq![
        EntryConstraint::Register { index: 2, vector: false },
        EntryConstraint::Register { index: 7, vector: true },
        EntryConstraint::Any,
        EntryConstraint::Any,
        EntryConstraint::Register { index: 0, vector: false },
        EntryConstraint::Register { index: 0, vector: true },
    ] + Seq::new((2 * COUNT - 6) as nat, |i: int| EntryConstraint::Any)
}

/// The fast fragment with constraints on the results of its entry.
pub fn constrained_fragment() -> (f: Function)
    ensures
        f.wf(),
        f@ == (FunctionView {
            entry_constraints: map![1u64 => sample_constraints()],
            ..assembled(1, fast_rows())
        }),
{
    let mut f = fast_fragment();
    let ghost before = f;
    let mut constraints: Vec<EntryConstraint> = Vec::new();
    constraints.push(EntryConstraint::Register { index: 2, vector: false });
    constraints.push(EntryConstraint::Register { index: 7, vector: true });
    constraints.push(EntryConstraint::Any);
    constraints.push(EntryConstraint::Any);
    constraints.push(EntryConstraint::Register { index: 0, vector: false });
    constraints.push(EntryConstraint::Register { index: 0, vector: true });
    let mut i: usize = 6;
    assert(constraints@ =~= sample_constraints().take(6));
    while i < 2 * COUNT
        invariant
            6 <= i <= 2 * COUNT,
            constraints@ == sample_constraints().take(i as int),
        decreases 2 * COUNT - i,
    {
        constraints.push(EntryConstraint::Any);
        i = i + 1;
        assert(constraints@ =~= sample_constraints().take(i as int));
    }
    assert(constraints@ =~= sample_constraints());
    proof {
        lemma_no_contracts(1, fast_rows());
    }
    f.nixe_entry_constraints.insert(1, constraints);
    proof {
        assert(before@.entry_constraints =~= Map::empty());
        assert forall|id: u64| !before.nixe_entry_constraints@.contains_key(id) by {
            assert(!before@.entry_constraints.contains_key(id));
        }
        assert(f@.entry_constraints =~= map![1u64 => sample_constraints()]);
        assert(f@ =~= FunctionView {
            entry_constraints: map![1u64 => sample_constraints()],
            ..assembled(1, fast_rows())
        });
        lemma_contracts_keep_wf(before, f);
    }
    f
}

/// A listing gives no constraints, comparisons or costs.
proof fn lemma_no_contracts(blocks: nat, rows: Seq<Row>)
    ensures
        assembled(blocks, rows).entry_constraints == Map::<u64, Seq<EntryConstraint>>::empty(),
    decreases rows.len(),
{
    if rows.len() > 0 {
        lemma_no_contracts(blocks, rows.drop_last());
    }
}

/// Constraints are no part of what well-formedness speaks of.
proof fn lemma_contracts_keep_wf(before: Function, after: Function)
    requires
        before.wf(),
        after.insts == before.insts,
        after.value_types == before.value_types,
        after.value_defs == before.value_defs,
        after.constants == before.constants,
        after.blocks == before.blocks,
    ensures
        after.wf(),
{
    assert forall|i: int| 0 <= i < after.insts@.len() implies after.inst_wf(
        #[trigger] after.insts@[i],
    ) by {
        assert(before.inst_wf(before.insts@[i]));
    }
}

/// The frame pointer, as the first value of a fragment.
pub open spec fn frame_row() -> Row {
    row(
        InstructionData::Other { opcode: Opcode::GetPinnedReg, imm: 0 },
        Seq::empty(),
        seq![Type::I64],
    )
}

/// A load from the frame that is known not to trap.
pub open spec fn load_row(ty: Type, offset: int) -> Row {
    row(
        InstructionData::Memory { opcode: Opcode::Load, offset: offset as i32, notrap: true },
        seq![Value(0)],
        seq![ty],
    )
}

/// Inputs from the frame: `pairs` times an integer, its sum with its number from
/// one on, and a vector. The first integer is value number `first`.
pub open spec fn input_rows(first: int, count: nat) -> Seq<Row> {
    Seq::new(
        count,
        |r: int|
            if r % 3 == 0 {
                load_row(Type::I64, 8 * (r / 3))
            } else if r % 3 == 1 {
                row(
                    InstructionData::Other { opcode: Opcode::IaddImm, imm: (r / 3 + 1) as i64 },
                    seq![Value((first + r - 1) as usize)],
                    seq![Type::I64],
                )
            } else {
                load_row(Type::I8X16, 512 + 16 * (r / 3))
            },
    )
}

/// The sums and the vectors of such inputs.
pub open spec fn input_values(first: int, pairs: nat) -> Seq<Value> {
    Seq::new(
        2 * pairs,
        |k: int|
            if k % 2 == 0 {
                Value((first + 3 * (k / 2) + 1) as usize)
            } else {
                Value((first + 3 * (k / 2) + 2) as usize)
            },
    )
}

fn put_frame(f: &mut Function, Ghost(blocks): Ghost<nat>) -> (frame: Value)
    requires
        old(f).wf(),
        old(f)@ == assembled(blocks, Seq::empty()),
        old(f).blocks@.len() > 0,
        old(f).value_types@.len() == 0,
    ensures
        final(f).wf(),
        final(f)@ == assembled(blocks, seq![frame_row()]),
        final(f).blocks@.len() == old(f).blocks@.len(),
        final(f).value_types@.len() == 1,
        frame == Value(0),
{
    let frame = put(
        f,
        Ghost(blocks),
        Ghost(Seq::empty()),
        Block(0),
        InstructionData::Other { opcode: Opcode::GetPinnedReg, imm: 0 },
        no_values(),
        &[Type::I64],
    );
    assert([Type::I64]@ =~= seq![Type::I64]);
    assert(Seq::empty().push(frame_row()) =~= seq![frame_row()]);
    frame
}

fn put_load(
    f: &mut Function,
    Ghost(blocks): Ghost<nat>,
    Ghost(rows): Ghost<Seq<Row>>,
    ty: Type,
    offset: i32,
) -> (value: Value)
    requires
        old(f).wf(),
        old(f)@ == assembled(blocks, rows),
        old(f).blocks@.len() > 0,
        0 < old(f).value_types@.len() < usize::MAX,
    ensures
        final(f).wf(),
        final(f)@ == assembled(blocks, rows.push(load_row(ty, offset as int))),
        final(f).blocks@.len() == old(f).blocks@.len(),
        final(f).value_types@.len() == old(f).value_types@.len() + 1,
        value.0 == old(f).value_types@.len(),
{
    let value = put(
        f,
        Ghost(blocks),
        Ghost(rows),
        Block(0),
        InstructionData::Memory { opcode: Opcode::Load, offset, notrap: true },
        one_value(Value(0)),
        &[ty],
    );
    assert([ty]@ =~= seq![ty]);
    value
}

fn put_inputs(
    f: &mut Function,
    Ghost(blocks): Ghost<nat>,
    Ghost(rows): Ghost<Seq<Row>>,
    pairs: usize,
) -> (args: Vec<Value>)
    requires
        old(f).wf(),
        old(f)@ == assembled(blocks, rows),
        old(f).blocks@.len() > 0,
        0 < old(f).value_types@.len() <= 2,
        pairs <= COUNT,
    ensures
        final(f).wf(),
        final(f)@ == assembled(
            blocks,
            rows + input_rows(old(f).value_types@.len() as int, (3 * pairs) as nat),
        ),
        final(f).blocks@.len() == old(f).blocks@.len(),
        final(f).value_types@.len() == old(f).value_types@.len() + 3 * pairs,
        args@ == input_values(old(f).value_types@.len() as int, pairs as nat),
{
    let ghost first = f.value_types@.len() as int;
    let mut args: Vec<Value> = Vec::new();
    let mut i: usize = 0;
    assert(rows + input_rows(first, 0) =~= rows);
    assert(args@ =~= input_values(first, 0));
    while i < pairs
        invariant
            i <= pairs <= COUNT,
            0 < first <= 2,
            f.wf(),
            f@ == assembled(blocks, rows + input_rows(first, (3 * i) as nat)),
            f.blocks@.len() == old(f).blocks@.len() > 0,
            f.value_types@.len() == first + 3 * i,
            args@ == input_values(first, i as nat),
        decreases pairs - i,
    {
        let ghost done = rows + input_rows(first, (3 * i) as nat);
        let value = put_load(f, Ghost(blocks), Ghost(done), Type::I64, 8 * (i as i32));
        let ghost loaded = done.push(load_row(Type::I64, 8 * i));
        assert(loaded =~= rows + input_rows(first, (3 * i + 1) as nat));
        let sum = put(
            f,
            Ghost(blocks),
            Ghost(loaded),
            Block(0),
            InstructionData::Other { opcode: Opcode::IaddImm, imm: (i + 1) as i64 },
            one_value(value),
            &[Type::I64],
        );
        assert([Type::I64]@ =~= seq![Type::I64]);
        let ghost summed = loaded.push(
            row(
                InstructionData::Other { opcode: Opcode::IaddImm, imm: (i + 1) as i64 },
                seq![value],
                seq![Type::I64],
            ),
        );
        assert(summed =~= rows + input_rows(first, (3 * i + 2) as nat));
        let vector = put_load(
            f,
            Ghost(blocks),
            Ghost(summed),
            Type::I8X16,
            512 + 16 * (i as i32),
        );
        assert(summed.push(load_row(Type::I8X16, 512 + 16 * i)) =~= rows + input_rows(
            first,
            (3 * i + 3) as nat,
        ));
        args.push(sum);
        args.push(vector);
        i = i + 1;
        assert(args@ =~= input_values(first, i as nat));
    }
    args
}

/// The listing of the source fragment.
pub open spec fn source_rows() -> Seq<Row> {
    (seq![frame_row()] + input_rows(1, 9)).push(exit_row(0, 10, input_values(1, 3)))
}

/// A fragment that loads three integers and three vectors from the frame, adds
/// to the integers, and hands them over in turn at exit 10.
pub fn source() -> (f: Function)
    ensures
        f.wf(),
        f@ == assembled(1, source_rows()),
{
    let mut f = start(1);
    let ghost head = seq![frame_row()];
    put_frame(&mut f, Ghost(1));
    let args = put_inputs(&mut f, Ghost(1), Ghost(head), 3);
    put(
        &mut f,
        Ghost(1),
        Ghost(head + input_rows(1, 9)),
        Block(0),
        InstructionData::NixeBoundary { opcode: Opcode::NixeExit, imm: 10 },
        args,
        &[],
    );
    assert([]@ =~= Seq::<Type>::empty());
    f
}

/// A jump without arguments.
pub open spec fn jump_row(from: int, to: Block) -> Row {
    Row {
        block: from,
        data: InstructionData::Other { opcode: Opcode::Jump, imm: 0 },
        args: Seq::empty(),
        types: Seq::empty(),
        targets: seq![(to, Seq::empty())],
    }
}

fn put_jump(
    f: &mut Function,
    Ghost(blocks): Ghost<nat>,
    Ghost(rows): Ghost<Seq<Row>>,
    from: Block,
    to: Block,
)
    requires
        old(f).wf(),
        old(f)@ == assembled(blocks, rows),
        from.0 < old(f).blocks@.len(),
        to.0 < old(f).blocks@.len(),
        old(f).value_types@.len() < usize::MAX,
    ensures
        final(f).wf(),
        final(f)@ == assembled(blocks, rows.push(jump_row(from.0 as int, to))),
        final(f).blocks@.len() == old(f).blocks@.len(),
        final(f).value_types@.len() == old(f).value_types@.len(),
{
    let mut targets: Vec<BlockCall> = Vec::new();
    targets.push(BlockCall { block: to, args: no_values() });
    assert(targets@.map_values(|call: BlockCall| (call.block, call.args@)) =~= seq![
        (to, Seq::<Value>::empty()),
    ]);
    f.append_inst(
        from,
        InstructionData::Other { opcode: Opcode::Jump, imm: 0 },
        no_values(),
        &[],
        targets,
    );
    assert([]@ =~= Seq::<Type>::empty());
    assert(rows.push(jump_row(from.0 as int, to)).drop_last() =~= rows);
    assert(old(f)@.blocks[from.0 as int] == old(f).blocks@[from.0 as int]@);
}

/// The listing of the two-block fragment up to its inputs.
pub open spec fn slot_rows() -> Seq<Row> {
    seq![
        frame_row(),
        row(
            InstructionData::Other { opcode: Opcode::StackAddr, imm: 0 },
            Seq::empty(),
            seq![Type::I64],
        ),
        row(
            InstructionData::Memory { opcode: Opcode::Store, offset: 1504, notrap: true },
            seq![Value(1), Value(0)],
            Seq::empty(),
        ),
    ]
}

/// The listing of the two-block fragment.
pub open spec fn fragment_rows() -> Seq<Row> {
    let args = input_values(2, COUNT as nat);
    (slot_rows() + input_rows(2, (3 * COUNT) as nat)).push(
        row(
            InstructionData::NixeBoundary { opcode: Opcode::NixeState, imm: 10 },
            args,
            Seq::empty(),
        ),
    ).push(jump_row(0, Block(1))).push(exit_row(1, 20, args.push(args[0])))
}

/// The contents of the two-block fragment.
pub open spec fn fragment_view(cold: bool) -> FunctionView {
    let listed = assembled(2, fragment_rows());
    FunctionView {
        stack_slots: seq![48u32],
        blocks: listed.blocks.update(1, BlockView { cold, ..listed.blocks[1] }),
        ..listed
    }
}

/// A fragment with an explicit stack slot. It loads integers and vectors from the
/// frame, adds to the integers, observes all in turn as state 10, and hands them
/// over in a second block at exit 20, the first of them twice.
pub fn fragment(cold: bool) -> (f: Function)
    ensures
        f.wf(),
        f@ == fragment_view(cold),
{
    let mut f = start(2);
    let ghost one = seq![frame_row()];
    let frame = put_frame(&mut f, Ghost(2));
    let address = put(
        &mut f,
        Ghost(2),
        Ghost(one),
        Block(0),
        InstructionData::Other { opcode: Opcode::StackAddr, imm: 0 },
        no_values(),
        &[Type::I64],
    );
    assert([Type::I64]@ =~= seq![Type::I64]);
    let ghost two = one.push(slot_rows()[1]);
    let mut stored = one_value(address);
    stored.push(frame);
    assert(stored@ =~= seq![Value(1), Value(0)]);
    put(
        &mut f,
        Ghost(2),
        Ghost(two),
        Block(0),
        InstructionData::Memory { opcode: Opcode::Store, offset: 1504, notrap: true },
        stored,
        &[],
    );
    assert([]@ =~= Seq::<Type>::empty());
    assert(two.push(slot_rows()[2]) =~= slot_rows());
    let mut args = put_inputs(&mut f, Ghost(2), Ghost(slot_rows()), COUNT);
    let ghost body = slot_rows() + input_rows(2, (3 * COUNT) as nat);
    put(
        &mut f,
        Ghost(2),
        Ghost(body),
        Block(0),
        InstructionData::NixeBoundary { opcode: Opcode::NixeState, imm: 10 },
        copy_values(&args),
        &[],
    );
    let ghost observed = body.push(
        row(
            InstructionData::NixeBoundary { opcode: Opcode::NixeState, imm: 10 },
            args@,
            Seq::empty(),
        ),
    );
    put_jump(&mut f, Ghost(2), Ghost(observed), Block(0), Block(1));
    let again = args[0];
    args.push(again);
    put(
        &mut f,
        Ghost(2),
        Ghost(observed.push(jump_row(0, Block(1)))),
        Block(1),
        InstructionData::NixeBoundary { opcode: Opcode::NixeExit, imm: 20 },
        args,
        &[],
    );
    let ghost before = f;
    f.stack_slots.push(48);
    f.blocks[1].cold = cold;
    proof {
        lemma_no_slots(2, fragment_rows());
        assert(f@ =~= fragment_view(cold));
        lemma_coldness_keeps_wf(before, f);
    }
    f
}

fn copy_values(values: &Vec<Value>) -> (copy: Vec<Value>)
    ensures
        copy@ == values@,
{
    let mut copy: Vec<Value> = Vec::new();
    let mut done: usize = 0;
    while done < values.len()
        invariant
            done <= values@.len(),
            copy@ == values@.take(done as int),
        decreases values@.len() - done,
    {
        copy.push(values[done]);
        done = done + 1;
        assert(copy@ =~= values@.take(done as int));
    }
    assert(values@.take(done as int) =~= values@);
    copy
}

/// A listing gives no explicit stack slots.
proof fn lemma_no_slots(blocks: nat, rows: Seq<Row>)
    ensures
        assembled(blocks, rows).stack_slots == Seq::<u32>::empty(),
    decreases rows.len(),
{
    if rows.len() > 0 {
        lemma_no_slots(blocks, rows.drop_last());
    }
}

/// Whether a block is cold is no part of what well-formedness speaks of.
proof fn lemma_coldness_keeps_wf(before: Function, after: Function)
    requires
        before.wf(),
        after.insts == before.insts,
        after.value_types == before.value_types,
        after.value_defs == before.value_defs,
        after.constants == before.constants,
        after.blocks@.len() == before.blocks@.len(),
        forall|b: int|
            0 <= b < before.blocks@.len() ==> (#[trigger] after.blocks@[b]).params
                == before.blocks@[b].params && after.blocks@[b].insts == before.blocks@[b].insts,
    ensures
        after.wf(),
{
    assert forall|i: int| 0 <= i < after.insts@.len() implies after.inst_wf(
        #[trigger] after.insts@[i],
    ) by {
        assert(before.inst_wf(before.insts@[i]));
    }
    assert forall|b: int| 0 <= b < after.blocks@.len() implies after.has_values(
        (#[trigger] after.blocks@[b]).params@,
    ) && (forall|k: int|
        0 <= k < after.blocks@[b].insts@.len() ==> (#[trigger] after.blocks@[b].insts@[k]).0
            < after.insts@.len()) by {
        assert(before.has_values(before.blocks@[b].params@));
    }
}

/// The old state: `count` loads from the frame, of integers and vectors in turn.
pub open spec fn state_rows(count: nat) -> Seq<Row> {
    Seq::new(
        count,
        |r: int|
            if r % 2 == 0 {
                load_row(Type::I64, 8 * (r / 2))
            } else {
                load_row(Type::I8X16, 512 + 16 * (r / 2))
            },
    )
}

/// A memory operation that may trap, on the address that was loaded.
pub open spec fn access_row(opcode: Opcode, args: Seq<Value>, types: Seq<Type>) -> Row {
    row(InstructionData::Memory { opcode, offset: 0, notrap: false }, args, types)
}

/// The listing of the fault fragment up to its memory operations.
pub open spec fn fault_head() -> Seq<Row> {
    (seq![frame_row()] + state_rows((2 * COUNT) as nat)).push(load_row(Type::I64, 1504)).push(
        row(
            InstructionData::NixeBoundary { opcode: Opcode::NixeFaultStart, imm: 30 },
            ir::values_from(1, (2 * COUNT) as nat),
            Seq::empty(),
        ),
    )
}

/// The memory operations of the fault fragment: an atomic exclusive or with the
/// first integer, a load, or a load and a store of the sum with it.
pub open spec fn fault_operations(operation: u8) -> Seq<Row> {
    let address = Value((2 * COUNT + 1) as usize);
    let value = Value((2 * COUNT + 2) as usize);
    let updated = Value((2 * COUNT + 3) as usize);
    if operation == 1 {
        seq![access_row(Opcode::AtomicXor, seq![address, Value(1)], seq![Type::I64])]
    } else if operation == 2 {
        seq![
            access_row(Opcode::Load, seq![address], seq![Type::I64]),
            row(
                InstructionData::Other { opcode: Opcode::Iadd, imm: 0 },
                seq![value, Value(1)],
                seq![Type::I64],
            ),
            access_row(Opcode::Store, seq![updated, address], Seq::empty()),
        ]
    } else {
        seq![access_row(Opcode::Load, seq![address], seq![Type::I64])]
    }
}

/// The listing of the fault fragment.
pub open spec fn fault_rows(operation: u8) -> Seq<Row> {
    (fault_head() + fault_operations(operation)).push(
        row(
            InstructionData::NixeBoundary { opcode: Opcode::NixeFaultEnd, imm: 30 },
            Seq::empty(),
            Seq::empty(),
        ),
    ).push(exit_row(0, 40, seq![Value((2 * COUNT + 2) as usize)]))
}

/// A fragment whose memory operations may fault. The old state is dead once they
/// have completed: only the fault span keeps it alive through them.
pub fn fault_fragment(operation: u8) -> (f: Function)
    ensures
        f.wf(),
        f@ == assembled(1, fault_rows(operation)),
{
    let mut f = start(1);
    let ghost one = seq![frame_row()];
    put_frame(&mut f, Ghost(1));
    let mut state: Vec<Value> = Vec::new();
    let mut i: usize = 0;
    assert(one + state_rows(0) =~= one);
    assert(state@ =~= ir::values_from(1, 0));
    while i < COUNT
        invariant
            i <= COUNT,
            one == seq![frame_row()],
            f.wf(),
            f@ == assembled(1, one + state_rows((2 * i) as nat)),
            f.blocks@.len() == 1,
            f.value_types@.len() == 1 + 2 * i,
            state@ == ir::values_from(1, (2 * i) as nat),
        decreases COUNT - i,
    {
        let ghost done = one + state_rows((2 * i) as nat);
        let value = put_load(&mut f, Ghost(1), Ghost(done), Type::I64, 8 * (i as i32));
        let ghost loaded = done.push(load_row(Type::I64, 8 * i));
        assert(loaded =~= one + state_rows((2 * i + 1) as nat));
        let vector = put_load(
            &mut f,
            Ghost(1),
            Ghost(loaded),
            Type::I8X16,
            512 + 16 * (i as i32),
        );
        assert(loaded.push(load_row(Type::I8X16, 512 + 16 * i)) =~= one + state_rows(
            (2 * i + 2) as nat,
        ));
        state.push(value);
        state.push(vector);
        i = i + 1;
        assert(state@ =~= ir::values_from(1, (2 * i) as nat));
    }
    let first = state[0];
    let ghost loads = one + state_rows((2 * COUNT) as nat);
    let address = put_load(&mut f, Ghost(1), Ghost(loads), Type::I64, 1504);
    put(
        &mut f,
        Ghost(1),
        Ghost(loads.push(load_row(Type::I64, 1504))),
        Block(0),
        InstructionData::NixeBoundary { opcode: Opcode::NixeFaultStart, imm: 30 },
        state,
        &[],
    );
    assert([]@ =~= Seq::<Type>::empty());
    let ghost mut rows = fault_head();
    let value = put_access(&mut f, Ghost(rows), operation, address, first);
    proof {
        rows = rows + fault_operations(operation);
    }
    put(
        &mut f,
        Ghost(1),
        Ghost(rows),
        Block(0),
        InstructionData::NixeBoundary { opcode: Opcode::NixeFaultEnd, imm: 30 },
        no_values(),
        &[],
    );
    proof {
        rows = rows.push(
            row(
                InstructionData::NixeBoundary { opcode: Opcode::NixeFaultEnd, imm: 30 },
                Seq::empty(),
                Seq::empty(),
            ),
        );
    }
    put(
        &mut f,
        Ghost(1),
        Ghost(rows),
        Block(0),
        InstructionData::NixeBoundary { opcode: Opcode::NixeExit, imm: 40 },
        one_value(value),
        &[],
    );
    f
}

fn put_access(
    f: &mut Function,
    Ghost(rows): Ghost<Seq<Row>>,
    operation: u8,
    address: Value,
    first: Value,
) -> (value: Value)
    requires
        old(f).wf(),
        old(f)@ == assembled(1, rows),
        old(f).blocks@.len() == 1,
        old(f).value_types@.len() == 2 * COUNT + 2,
        address.0 == 2 * COUNT + 1,
        first == Value(1),
    ensures
        final(f).wf(),
        final(f)@ == assembled(1, rows + fault_operations(operation)),
        final(f).blocks@.len() == 1,
        2 * COUNT + 2 < final(f).value_types@.len() <= 2 * COUNT + 4,
        value.0 == 2 * COUNT + 2,
{
    let ghost operations = fault_operations(operation);
    let block = Block(0);
    assert([Type::I64]@ =~= seq![Type::I64]);
    assert([]@ =~= Seq::<Type>::empty());
    if operation == 1 {
        let mut args = one_value(address);
        args.push(first);
        assert(args@ =~= seq![address, first]);
        let data = InstructionData::Memory {
            opcode: Opcode::AtomicXor,
            offset: 0,
            notrap: false,
        };
        let value = put(f, Ghost(1), Ghost(rows), block, data, args, &[Type::I64]);
        assert(rows.push(operations[0]) =~= rows + operations);
        return value;
    }
    let data = InstructionData::Memory { opcode: Opcode::Load, offset: 0, notrap: false };
    let value = put(f, Ghost(1), Ghost(rows), block, data, one_value(address), &[Type::I64]);
    let ghost loaded = rows.push(operations[0]);
    if operation == 2 {
        let mut args = one_value(value);
        args.push(first);
        assert(args@ =~= seq![value, first]);
        let data = InstructionData::Other { opcode: Opcode::Iadd, imm: 0 };
        let updated = put(f, Ghost(1), Ghost(loaded), block, data, args, &[Type::I64]);
        let ghost added = loaded.push(operations[1]);
        let mut args = one_value(updated);
        args.push(address);
        assert(args@ =~= seq![updated, address]);
        let data = InstructionData::Memory { opcode: Opcode::Store, offset: 0, notrap: false };
        put(f, Ghost(1), Ghost(added), block, data, args, &[]);
        assert(added.push(operations[2]) =~= rows + operations);
    } else {
        assert(loaded =~= rows + operations);
    }
    value
}

/// The constraints that make an entry take its inputs where they are.
pub open spec fn ingress(locations: Seq<Location>) -> Seq<EntryConstraint> {
    locations.map_values(
        |location: Location|
            match location {
                Location::Register { index, vector } => EntryConstraint::Register { index, vector },
                _ => EntryConstraint::Any,
            },
    )
}

/// Stores of the destination fragment: value number `r` goes to the integers or
/// to the vectors of the frame.
pub open spec fn store_rows(count: nat) -> Seq<Row> {
    Seq::new(
        count,
        |r: int|
            row(
                InstructionData::Memory {
                    opcode: Opcode::Store,
                    offset: (if r % 2 == 0 {
                        128 + 8 * (r / 2)
                    } else {
                        1024 + 16 * (r / 2)
                    }) as i32,
                    notrap: true,
                },
                seq![Value(r as usize), Value(6)],
                Seq::empty(),
            ),
    )
}

/// The entry of the destination fragment, and the frame pointer.
pub open spec fn destination_head() -> Seq<Row> {
    seq![
        row(InstructionData::NixeEntry { imm: 20 }, Seq::empty(), mixed_types(3)),
        frame_row(),
    ]
}

/// The listing of the destination fragment.
pub open spec fn destination_rows() -> Seq<Row> {
    (destination_head() + store_rows(6)).push(exit_row(0, 30, Seq::empty()))
}

/// A fragment that is entered with three integers and three vectors in the given
/// registers, stores them in the frame, and leaves at exit 30.
pub fn destination(locations: &[Location]) -> (f: Function)
    requires
        forall|i: int| 0 <= i < locations@.len() ==> (#[trigger] locations@[i]) is Register,
    ensures
        f.wf(),
        f@ == (FunctionView {
            entry_constraints: map![20u64 => ingress(locations@)],
            ..assembled(1, destination_rows())
        }),
{
    let mut f = start(1);
    let block = Block(0);
    let types = list_mixed_types(3);
    assert([Type::I64]@ =~= seq![Type::I64]);
    assert([]@ =~= Seq::<Type>::empty());
    put(
        &mut f,
        Ghost(1),
        Ghost(Seq::empty()),
        block,
        InstructionData::NixeEntry { imm: 20 },
        no_values(),
        types.as_slice(),
    );
    let ghost entered = Seq::empty().push(destination_head()[0]);
    let frame = put(
        &mut f,
        Ghost(1),
        Ghost(entered),
        block,
        InstructionData::Other { opcode: Opcode::GetPinnedReg, imm: 0 },
        no_values(),
        &[Type::I64],
    );
    assert(entered.push(frame_row()) =~= destination_head() + store_rows(0));
    let mut r: usize = 0;
    while r < 6
        invariant
            r <= 6,
            block.0 == 0,
            frame == Value(6),
            f.wf(),
            f@ == assembled(1, destination_head() + store_rows(r as nat)),
            f.blocks@.len() == 1,
            f.value_types@.len() == 7,
        decreases 6 - r,
    {
        let offset: i32 = if r % 2 == 0 {
            128 + 8 * ((r / 2) as i32)
        } else {
            1024 + 16 * ((r / 2) as i32)
        };
        let mut args = one_value(Value(r));
        args.push(frame);
        assert(args@ =~= seq![Value(r), Value(6)]);
        let ghost done = destination_head() + store_rows(r as nat);
        put(
            &mut f,
            Ghost(1),
            Ghost(done),
            block,
            InstructionData::Memory { opcode: Opcode::Store, offset, notrap: true },
            args,
            &[],
        );
        assert([]@ =~= Seq::<Type>::empty());
        assert(done.push(store_rows((r + 1) as nat)[r as int]) =~= destination_head() + store_rows(
            (r + 1) as nat,
        ));
        r = r + 1;
    }
    put(
        &mut f,
        Ghost(1),
        Ghost(destination_head() + store_rows(6)),
        block,
        InstructionData::NixeBoundary { opcode: Opcode::NixeExit, imm: 30 },
        no_values(),
        &[],
    );
    let constraints = ingress_constraints(locations);
    let ghost before = f;
    f.nixe_entry_constraints.insert(20, constraints);
    proof {
        lemma_no_contracts(1, destination_rows());
        assert forall|id: u64| !before.nixe_entry_constraints@.contains_key(id) by {
            assert(!before@.entry_constraints.contains_key(id));
        }
        assert(f@.entry_constraints =~= map![20u64 => ingress(locations@)]);
        assert(f@ =~= FunctionView {
            entry_constraints: map![20u64 => ingress(locations@)],
            ..assembled(1, destination_rows())
        });
        lemma_contracts_keep_wf(before, f);
    }
    f
}

fn ingress_constraints(locations: &[Location]) -> (constraints: Vec<EntryConstraint>)
    ensures
        constraints@ == ingress(locations@),
{
    let mut constraints: Vec<EntryConstraint> = Vec::new();
    let mut i: usize = 0;
    while i < locations.len()
        invariant
            i <= locations@.len(),
            constraints@ == ingress(locations@).take(i as int),
        decreases locations@.len() - i,
    {
        constraints.push(
            match locations[i] {
                Location::Register { index, vector } => EntryConstraint::Register { index, vector },
                _ => EntryConstraint::Any,
            },
        );
        i = i + 1;
        assert(constraints@ =~= ingress(locations@).take(i as int));
    }
    assert(constraints@ =~= ingress(locations@));
    constraints
}

/// A conversion of the first value to a floating-point number.
pub open spec fn conversion_row() -> Row {
    row(
        InstructionData::Other { opcode: Opcode::FcvtFromSint, imm: 0 },
        seq![Value(0)],
        seq![Type::F32],
    )
}

/// The listing of the conversions.
pub open spec fn conversion_rows() -> Seq<Row> {
    seq![
        row(
            InstructionData::UnaryImm { opcode: Opcode::Iconst, imm: 0x100_0001 },
            Seq::empty(),
            seq![Type::I64],
        ),
        conversion_row(),
        row(
            InstructionData::NixeBoundary { opcode: Opcode::NixeState, imm: 1 },
            Seq::empty(),
            Seq::empty(),
        ),
        conversion_row(),
        exit_row(0, 2, Seq::empty()),
    ]
}

/// A fragment that converts an integer twice and uses neither result. State 1
/// between them stands for a boundary at which the owner of the code may read or
/// change the floating-point status.
pub fn discarded_conversions(observable: bool) -> (f: Function)
    ensures
        f.wf(),
        f@ == (FunctionView { observable_fp: observable, ..assembled(1, conversion_rows()) }),
{
    let mut f = start(1);
    let block = Block(0);
    let ghost rows = conversion_rows();
    assert([]@ =~= Seq::<Type>::empty());
    assert([Type::I64]@ =~= seq![Type::I64]);
    assert([Type::F32]@ =~= seq![Type::F32]);
    let integer = put(
        &mut f,
        Ghost(1),
        Ghost(Seq::empty()),
        block,
        InstructionData::UnaryImm { opcode: Opcode::Iconst, imm: 0x100_0001 },
        no_values(),
        &[Type::I64],
    );
    assert(Seq::empty().push(rows[0]) =~= rows.take(1));
    put(
        &mut f,
        Ghost(1),
        Ghost(rows.take(1)),
        block,
        InstructionData::Other { opcode: Opcode::FcvtFromSint, imm: 0 },
        one_value(integer),
        &[Type::F32],
    );
    assert(rows.take(1).push(rows[1]) =~= rows.take(2));
    put(
        &mut f,
        Ghost(1),
        Ghost(rows.take(2)),
        block,
        InstructionData::NixeBoundary { opcode: Opcode::NixeState, imm: 1 },
        no_values(),
        &[],
    );
    assert(rows.take(2).push(rows[2]) =~= rows.take(3));
    put(
        &mut f,
        Ghost(1),
        Ghost(rows.take(3)),
        block,
        InstructionData::Other { opcode: Opcode::FcvtFromSint, imm: 0 },
        one_value(integer),
        &[Type::F32],
    );
    assert(rows.take(3).push(rows[3]) =~= rows.take(4));
    put(
        &mut f,
        Ghost(1),
        Ghost(rows.take(4)),
        block,
        InstructionData::NixeBoundary { opcode: Opcode::NixeExit, imm: 2 },
        no_values(),
        &[],
    );
    assert(rows.take(4).push(rows[4]) =~= rows);
    let ghost before = f;
    f.nixe_observable_fp = observable;
    proof {
        assert(f@ =~= FunctionView { observable_fp: observable, ..assembled(1, rows) });
        lemma_contracts_keep_wf(before, f);
    }
    f
}

} // verus!
