//! Which recorded work a device accepts, and what it writes.
//!
//! A device refuses a pass that binds a buffer twice where one of the bindings is written, and a
//! copy from a buffer to itself or beyond the end of a buffer.
use crate::command::{CommandView, Dispatch, EncodedView, Slot};
use crate::runtime::RuntimeView;
use vstd::prelude::*;

verus! {

/// The bindings that the kernels of a pass use.
pub open spec fn pass_slots(dispatches: Seq<Dispatch>) -> Seq<Slot> {
    crate::command::module_slots(crate::command::kernel_module(dispatches[0].kernel))
}

/// Whether encoded work is accepted by a device whose buffers have these sizes.
pub open spec fn admissible(work: EncodedView, sizes: Seq<u64>) -> bool {
    match work {
        EncodedView::ClearBuffer { buffer } => buffer < sizes.len(),
        EncodedView::CopyBuffer { source, destination, bytes } => {
            &&& source < sizes.len()
            &&& destination < sizes.len()
            &&& source != destination
            &&& bytes <= sizes[source as int]
            &&& bytes <= sizes[destination as int]
            &&& bytes % 4 == 0
        },
        EncodedView::ComputePass { label, bindings, dispatches } => {
            let slots = pass_slots(dispatches);
            &&& dispatches.len() > 0
            &&& forall|d: int|
                0 <= d < dispatches.len() ==> crate::command::kernel_module(
                    (#[trigger] dispatches[d]).kernel,
                ) == crate::command::kernel_module(dispatches[0].kernel)
            &&& bindings.len() == slots.len()
            &&& forall|i: int|
                0 <= i < bindings.len() ==> {
                    &&& (#[trigger] bindings[i]).binding == slots[i].binding
                    &&& bindings[i].buffer < sizes.len()
                }
            &&& forall|i: int, j: int|
                0 <= i < bindings.len() && 0 <= j < bindings.len() && i != j
                    && slots[i].kind is ReadWrite ==> (#[trigger] bindings[i]).buffer != (
                #[trigger] bindings[j]).buffer
        },
    }
}

/// Whether encoded work writes a buffer.
pub open spec fn writes(work: EncodedView, buffer: usize) -> bool {
    match work {
        EncodedView::ClearBuffer { buffer: b } => b == buffer,
        EncodedView::CopyBuffer { source, destination, bytes } => destination == buffer,
        EncodedView::ComputePass { label, bindings, dispatches } => exists|i: int|
            0 <= i < bindings.len() && (#[trigger] bindings[i]).buffer == buffer && pass_slots(
                dispatches,
            )[i].kind is ReadWrite,
    }
}

/// Whether encoded work is accepted and writes only buffers of a set.
pub open spec fn sound(work: EncodedView, sizes: Seq<u64>, allowed: Set<usize>) -> bool {
    &&& admissible(work, sizes)
    &&& forall|buffer: usize| writes(work, buffer) ==> #[trigger] allowed.contains(buffer)
}

/// Whether a command for a device whose buffers exist is accepted and writes only buffers of a
/// set.
pub open spec fn sound_command(
    command: CommandView,
    sizes: Seq<u64>,
    allowed: Set<usize>,
) -> bool {
    match command {
        CommandView::WriteBuffer { buffer, contents } => {
            &&& buffer < sizes.len()
            &&& contents.len() <= sizes[buffer as int]
            &&& contents.len() % 4 == 0
            &&& allowed.contains(buffer)
        },
        CommandView::Submit { label, encoded } => forall|i: int|
            0 <= i < encoded.len() ==> sound(#[trigger] encoded[i], sizes, allowed),
        CommandView::Precondition { input, output } => {
            &&& input.buffer < sizes.len()
            &&& output.buffer < sizes.len()
            &&& input.buffer != output.buffer
            &&& crate::runtime::single_bytes(input.len) <= sizes[input.buffer as int]
            &&& crate::runtime::single_bytes(output.len) <= sizes[output.buffer as int]
            &&& allowed.contains(output.buffer)
        },
        _ => false,
    }
}

/// Whether a runtime has recorded more commands and nothing else has changed, where each of them
/// is accepted and writes only buffers of a set.
pub open spec fn records(before: RuntimeView, after: RuntimeView, allowed: Set<usize>) -> bool {
    &&& after == (RuntimeView { commands: after.commands, ..before })
    &&& before.commands.len() <= after.commands.len()
    &&& after.commands.take(before.commands.len() as int) == before.commands
    &&& forall|i: int|
        before.commands.len() <= i < after.commands.len() ==> sound_command(
            #[trigger] after.commands[i],
            before.sizes,
            allowed,
        )
}

/// One accepted command more.
pub(crate) proof fn lemma_records_one(
    before: RuntimeView,
    command: CommandView,
    allowed: Set<usize>,
)
    requires
        sound_command(command, before.sizes, allowed),
    ensures
        records(before, before.record(command), allowed),
{
    let after = before.record(command);
    assert(after.commands.take(before.commands.len() as int) =~= before.commands);
}

/// Accepted commands followed by accepted commands.
pub(crate) proof fn lemma_records_more(
    before: RuntimeView,
    middle: RuntimeView,
    after: RuntimeView,
    allowed: Set<usize>,
)
    requires
        records(before, middle, allowed),
        records(middle, after, allowed),
    ensures
        records(before, after, allowed),
{
    let n = before.commands.len() as int;
    let m = middle.commands.len() as int;
    assert(after.commands.take(n) =~= after.commands.take(m).take(n));
    assert forall|i: int| n <= i < after.commands.len() implies sound_command(
        #[trigger] after.commands[i],
        before.sizes,
        allowed,
    ) by {
        if i < m {
            assert(after.commands.take(m)[i] == after.commands[i]);
            assert(middle.commands[i] == after.commands[i]);
        }
    }
}

/// A pass whose bindings are separate where they are written is accepted.
pub(crate) proof fn lemma_pass(
    label: Seq<char>,
    buffers: Seq<usize>,
    dispatches: Seq<Dispatch>,
    sizes: Seq<u64>,
    allowed: Set<usize>,
)
    requires
        dispatches.len() > 0,
        forall|d: int|
            0 <= d < dispatches.len() ==> crate::command::kernel_module(
                (#[trigger] dispatches[d]).kernel,
            ) == crate::command::kernel_module(dispatches[0].kernel),
        buffers.len() == pass_slots(dispatches).len(),
        forall|i: int| 0 <= i < buffers.len() ==> #[trigger] buffers[i] < sizes.len(),
        forall|i: int, j: int|
            0 <= i < buffers.len() && 0 <= j < buffers.len() && i != j && pass_slots(
                dispatches,
            )[i].kind is ReadWrite ==> #[trigger] buffers[i] != #[trigger] buffers[j],
        forall|i: int|
            0 <= i < buffers.len() && pass_slots(dispatches)[i].kind is ReadWrite
                ==> allowed.contains(#[trigger] buffers[i]),
    ensures
        sound(
            EncodedView::ComputePass {
                label,
                bindings: crate::command::bound(buffers),
                dispatches,
            },
            sizes,
            allowed,
        ),
{
    let bindings = crate::command::bound(buffers);
    let slots = pass_slots(dispatches);
    assert(forall|i: int|
        0 <= i < bindings.len() ==> (#[trigger] bindings[i]).buffer == buffers[i]);
    assert(forall|i: int| 0 <= i < slots.len() ==> (#[trigger] slots[i]).binding == i as u32);
}

} // verus!
