//! Work for the device, as plain values.
//!
//! The library decides what the device is to do and records it; whoever holds the device carries
//! the commands out in the order in which they were recorded.
use crate::vector::WgpuVector;
use vstd::prelude::*;

verus! {

/// A shader source.
#[derive(Clone, Copy, Debug, PartialEq, Eq, Hash, Structural)]
pub enum ShaderModule {
    Vector,
    Reduction,
    ResidentVector,
    ResidentScalar,
    CsrSpmv,
    Jacobi,
}

/// A compute kernel: one entry point of a shader.
#[derive(Clone, Copy, Debug, PartialEq, Eq, Hash, Structural)]
pub enum Kernel {
    Axpby,
    ReduceStage,
    ReduceFinal,
    UpdatePOmega,
    PrepareP,
    MakeS,
    UpdateXAlpha,
    UpdateXOmega,
    MakeR,
    BeginIteration,
    FinishAlpha,
    CheckS,
    FinishOmega,
    CheckR,
    Spmv,
    JacobiApply,
}

/// How a kernel uses a bound buffer.
#[derive(Clone, Copy, Debug, PartialEq, Eq, Structural)]
pub enum SlotKind {
    /// Storage that is only read.
    Read,
    /// Storage that is read and written.
    ReadWrite,
    /// Uniform parameters.
    Uniform,
}

/// One binding of a layout.
#[derive(Clone, Copy, Debug, PartialEq, Eq, Structural)]
pub struct Slot {
    pub binding: u32,
    pub kind: SlotKind,
}

/// A layout that is written out rather than derived from the shader.
#[derive(Clone, Copy, Debug, PartialEq, Eq, Hash, Structural)]
pub enum Layout {
    Reduction,
    ResidentVector,
    ResidentScalar,
}

/// A buffer at a binding.
#[derive(Clone, Copy, Debug, PartialEq, Eq, Structural)]
pub struct Binding {
    pub binding: u32,
    pub buffer: usize,
}

/// A kernel run on `groups` workgroups in a row.
#[derive(Clone, Copy, Debug, PartialEq, Eq, Structural)]
pub struct Dispatch {
    pub kernel: Kernel,
    pub groups: u32,
}

/// Work inside a command encoder.
#[derive(Debug)]
pub enum Encoded {
    /// Fill a whole buffer with zeros.
    ClearBuffer { buffer: usize },
    /// Copy from the start of one buffer to the start of another.
    CopyBuffer { source: usize, destination: usize, bytes: u64 },
    /// Run kernels one after the other on one set of bindings.
    ComputePass { label: &'static str, bindings: Vec<Binding>, dispatches: Vec<Dispatch> },
}

/// Work for the device or its queue.
#[derive(Debug)]
#[allow(inconsistent_fields)]
pub enum Command {
    CreateShaderModule { module: ShaderModule, label: &'static str },
    CreateBindGroupLayout { layout: Layout, label: &'static str, slots: Vec<Slot> },
    CreatePipelineLayout { layout: Layout, label: &'static str },
    /// Without a layout the bindings are derived from the shader.
    CreatePipeline {
        kernel: Kernel,
        label: &'static str,
        module: ShaderModule,
        entry_point: &'static str,
        layout: Option<Layout>,
    },
    CreateBuffer { buffer: usize, label: &'static str, size: u64, usage: u32 },
    CreateBufferInit { buffer: usize, label: &'static str, contents: Vec<u8>, usage: u32 },
    /// Write to the start of a buffer.
    WriteBuffer { buffer: usize, contents: Vec<u8> },
    /// Submit a finished encoder.
    Submit { label: &'static str, encoded: Vec<Encoded> },
    /// Let the caller's preconditioner write `output` from `input`, after everything submitted
    /// before.
    Precondition { input: WgpuVector, output: WgpuVector },
}

/// `Encoded`, with sequences for its lists.
pub ghost enum EncodedView {
    ClearBuffer { buffer: usize },
    CopyBuffer { source: usize, destination: usize, bytes: u64 },
    ComputePass { label: Seq<char>, bindings: Seq<Binding>, dispatches: Seq<Dispatch> },
}

/// `Command`, with sequences for its lists.
#[allow(inconsistent_fields)]
pub ghost enum CommandView {
    CreateShaderModule { module: ShaderModule, label: Seq<char> },
    CreateBindGroupLayout { layout: Layout, label: Seq<char>, slots: Seq<Slot> },
    CreatePipelineLayout { layout: Layout, label: Seq<char> },
    CreatePipeline {
        kernel: Kernel,
        label: Seq<char>,
        module: ShaderModule,
        entry_point: Seq<char>,
        layout: Option<Layout>,
    },
    CreateBuffer { buffer: usize, label: Seq<char>, size: u64, usage: u32 },
    CreateBufferInit { buffer: usize, label: Seq<char>, contents: Seq<u8>, usage: u32 },
    WriteBuffer { buffer: usize, contents: Seq<u8> },
    Submit { label: Seq<char>, encoded: Seq<EncodedView> },
    Precondition { input: crate::vector::VectorView, output: crate::vector::VectorView },
}

impl View for Encoded {
    type V = EncodedView;

    open spec fn view(&self) -> EncodedView {
        match self {
            Encoded::ClearBuffer { buffer } => EncodedView::ClearBuffer { buffer: *buffer },
            Encoded::CopyBuffer { source, destination, bytes } => EncodedView::CopyBuffer {
                source: *source,
                destination: *destination,
                bytes: *bytes,
            },
            Encoded::ComputePass { label, bindings, dispatches } => EncodedView::ComputePass {
                label: label@,
                bindings: bindings@,
                dispatches: dispatches@,
            },
        }
    }
}

/// The views of a list of encoded commands.
pub open spec fn encoded_views(encoded: Seq<Encoded>) -> Seq<EncodedView> {
    Seq::new(encoded.len(), |i: int| encoded[i]@)
}

impl View for Command {
    type V = CommandView;

    open spec fn view(&self) -> CommandView {
        match self {
            Command::CreateShaderModule { module, label } => CommandView::CreateShaderModule {
                module: *module,
                label: label@,
            },
            Command::CreateBindGroupLayout {
                layout,
                label,
                slots,
            } => CommandView::CreateBindGroupLayout {
                layout: *layout,
                label: label@,
                slots: slots@,
            },
            Command::CreatePipelineLayout { layout, label } => CommandView::CreatePipelineLayout {
                layout: *layout,
                label: label@,
            },
            Command::CreatePipeline {
                kernel,
                label,
                module,
                entry_point,
                layout,
            } => CommandView::CreatePipeline {
                kernel: *kernel,
                label: label@,
                module: *module,
                entry_point: entry_point@,
                layout: *layout,
            },
            Command::CreateBuffer { buffer, label, size, usage } => CommandView::CreateBuffer {
                buffer: *buffer,
                label: label@,
                size: *size,
                usage: *usage,
            },
            Command::CreateBufferInit {
                buffer,
                label,
                contents,
                usage,
            } => CommandView::CreateBufferInit {
                buffer: *buffer,
                label: label@,
                contents: contents@,
                usage: *usage,
            },
            Command::WriteBuffer { buffer, contents } => CommandView::WriteBuffer {
                buffer: *buffer,
                contents: contents@,
            },
            Command::Submit { label, encoded } => CommandView::Submit {
                label: label@,
                encoded: encoded_views(encoded@),
            },
            Command::Precondition { input, output } => CommandView::Precondition {
                input: input@,
                output: output@,
            },
        }
    }
}

/// The views of a list of commands.
pub open spec fn command_views(commands: Seq<Command>) -> Seq<CommandView> {
    Seq::new(commands.len(), |i: int| commands[i]@)
}

/// Commands that are being encoded for one submission.
#[derive(Debug)]
pub struct CommandEncoder {
    label: &'static str,
    encoded: Vec<Encoded>,
}

/// A command encoder, with sequences for its parts.
pub ghost struct EncoderView {
    pub label: Seq<char>,
    pub encoded: Seq<EncodedView>,
}

impl EncoderView {
    /// An encoder with nothing in it.
    pub open spec fn empty(label: Seq<char>) -> EncoderView {
        EncoderView { label, encoded: seq![] }
    }

    /// The encoder after one more command.
    pub open spec fn with(self, command: EncodedView) -> EncoderView {
        EncoderView { label: self.label, encoded: self.encoded.push(command) }
    }
}

impl View for CommandEncoder {
    type V = EncoderView;

    closed spec fn view(&self) -> EncoderView {
        EncoderView { label: self.label@, encoded: encoded_views(self.encoded@) }
    }
}

impl CommandEncoder {
    /// Starts an encoder.
    pub fn new(label: &'static str) -> (r: CommandEncoder)
        ensures
            r@ == EncoderView::empty(label@),
    {
        let r = CommandEncoder { label, encoded: Vec::new() };
        assert(r@.encoded =~= seq![]);
        r
    }

    /// Adds a command.
    pub fn push(&mut self, command: Encoded)
        ensures
            final(self)@ == old(self)@.with(command@),
    {
        self.encoded.push(command);
        assert(self@.encoded =~= old(self)@.encoded.push(command@));
    }

    /// Clears a whole buffer.
    pub fn clear_buffer(&mut self, buffer: usize)
        ensures
            final(self)@ == old(self)@.with(EncodedView::ClearBuffer { buffer }),
    {
        self.push(Encoded::ClearBuffer { buffer });
    }

    /// Copies the first `bytes` bytes of a buffer to the start of another.
    pub fn copy_buffer_to_buffer(&mut self, source: usize, destination: usize, bytes: u64)
        ensures
            final(self)@ == old(self)@.with(EncodedView::CopyBuffer { source, destination, bytes }),
    {
        self.push(Encoded::CopyBuffer { source, destination, bytes });
    }

    /// Runs kernels on a set of bindings.
    pub fn compute_pass(
        &mut self,
        label: &'static str,
        bindings: Vec<Binding>,
        dispatches: Vec<Dispatch>,
    )
        ensures
            final(self)@ == old(self)@.with(
                EncodedView::ComputePass {
                    label: label@,
                    bindings: bindings@,
                    dispatches: dispatches@,
                },
            ),
    {
        self.push(Encoded::ComputePass { label, bindings, dispatches });
    }

    /// Takes what has been encoded, to start over under the same label.
    pub fn restart(&mut self) -> (r: CommandEncoder)
        ensures
            r@ == old(self)@,
            final(self)@ == EncoderView::empty(old(self)@.label),
    {
        let mut other = CommandEncoder::new(self.label);
        std::mem::swap(&mut other, self);
        other
    }

    /// Finishes the encoder for submission.
    pub fn finish(self) -> (r: Command)
        ensures
            r@ == (CommandView::Submit { label: self@.label, encoded: self@.encoded }),
    {
        Command::Submit { label: self.label, encoded: self.encoded }
    }
}

/// The bindings of a list of buffers, in ascending order from zero.
pub open spec fn bound(buffers: Seq<usize>) -> Seq<Binding> {
    Seq::new(buffers.len(), |i: int| Binding { binding: i as u32, buffer: buffers[i] })
}

/// Binds buffers at zero, one, two and so on.
pub fn bind(buffers: &[usize]) -> (r: Vec<Binding>)
    requires
        buffers.len() <= 16,
    ensures
        r@ == bound(buffers@),
{
    let mut r: Vec<Binding> = Vec::new();
    let mut i: usize = 0;
    while i < buffers.len()
        invariant
            buffers.len() <= 16,
            i <= buffers.len(),
            r@ == bound(buffers@.take(i as int)),
        decreases buffers.len() - i,
    {
        r.push(Binding { binding: i as u32, buffer: buffers[i] });
        i = i + 1;
        assert(r@ =~= bound(buffers@.take(i as int)));
    }
    assert(buffers@.take(i as int) =~= buffers@);
    r
}

/// The bindings that the kernels of a shader use.
pub open spec fn module_slots(module: ShaderModule) -> Seq<Slot> {
    let read = SlotKind::Read;
    let write = SlotKind::ReadWrite;
    let uniform = SlotKind::Uniform;
    match module {
        ShaderModule::Vector => slots_of(seq![read, write, uniform]),
        ShaderModule::Reduction => slots_of(
            seq![read, read, read, read, write, write, uniform, read, read],
        ),
        ShaderModule::ResidentVector => slots_of(seq![read, read, write, read]),
        ShaderModule::ResidentScalar => slots_of(seq![write, read]),
        ShaderModule::CsrSpmv => slots_of(seq![read, read, read, read, write]),
        ShaderModule::Jacobi => slots_of(seq![read, read, write]),
    }
}

/// Slots of these kinds, at the bindings from zero on.
pub open spec fn slots_of(kinds: Seq<SlotKind>) -> Seq<Slot> {
    Seq::new(kinds.len(), |i: int| Slot { binding: i as u32, kind: kinds[i] })
}

/// The shader that a kernel is an entry point of.
pub open spec fn kernel_module(kernel: Kernel) -> ShaderModule {
    match kernel {
        Kernel::Axpby => ShaderModule::Vector,
        Kernel::ReduceStage | Kernel::ReduceFinal => ShaderModule::Reduction,
        Kernel::UpdatePOmega
        | Kernel::PrepareP
        | Kernel::MakeS
        | Kernel::UpdateXAlpha
        | Kernel::UpdateXOmega
        | Kernel::MakeR => ShaderModule::ResidentVector,
        Kernel::BeginIteration
        | Kernel::FinishAlpha
        | Kernel::CheckS
        | Kernel::FinishOmega
        | Kernel::CheckR => ShaderModule::ResidentScalar,
        Kernel::Spmv => ShaderModule::CsrSpmv,
        Kernel::JacobiApply => ShaderModule::Jacobi,
    }
}

/// The shader that a kernel is an entry point of.
pub fn shader_of(kernel: Kernel) -> (r: ShaderModule)
    ensures
        r == kernel_module(kernel),
{
    match kernel {
        Kernel::Axpby => ShaderModule::Vector,
        Kernel::ReduceStage | Kernel::ReduceFinal => ShaderModule::Reduction,
        Kernel::UpdatePOmega
        | Kernel::PrepareP
        | Kernel::MakeS
        | Kernel::UpdateXAlpha
        | Kernel::UpdateXOmega
        | Kernel::MakeR => ShaderModule::ResidentVector,
        Kernel::BeginIteration
        | Kernel::FinishAlpha
        | Kernel::CheckS
        | Kernel::FinishOmega
        | Kernel::CheckR => ShaderModule::ResidentScalar,
        Kernel::Spmv => ShaderModule::CsrSpmv,
        Kernel::JacobiApply => ShaderModule::Jacobi,
    }
}

/// Slots of these kinds, at the bindings from zero on.
pub fn slots(kinds: &[SlotKind]) -> (r: Vec<Slot>)
    requires
        kinds.len() <= 16,
    ensures
        r@ == slots_of(kinds@),
{
    let mut r: Vec<Slot> = Vec::new();
    let mut i: usize = 0;
    while i < kinds.len()
        invariant
            kinds.len() <= 16,
            i <= kinds.len(),
            r@ == slots_of(kinds@.take(i as int)),
        decreases kinds.len() - i,
    {
        r.push(Slot { binding: i as u32, kind: kinds[i] });
        i = i + 1;
        assert(r@ =~= slots_of(kinds@.take(i as int)));
    }
    assert(kinds@.take(i as int) =~= kinds@);
    r
}

/// The bindings of a shader are numbered from zero; which of them its kernels write and which hold
/// parameters.
pub proof fn law_slots(module: ShaderModule, i: int)
    requires
        0 <= i < module_slots(module).len(),
    ensures
        module_slots(module)[i].binding == i,
        module_slots(module).len() == match module {
            ShaderModule::Vector => 3nat,
            ShaderModule::Reduction => 9,
            ShaderModule::ResidentVector => 4,
            ShaderModule::ResidentScalar => 2,
            ShaderModule::CsrSpmv => 5,
            ShaderModule::Jacobi => 3,
        },
        module_slots(module)[i].kind is ReadWrite <==> match module {
            ShaderModule::Vector => i == 1,
            ShaderModule::Reduction => i == 4 || i == 5,
            ShaderModule::ResidentVector => i == 2,
            ShaderModule::ResidentScalar => i == 0,
            ShaderModule::CsrSpmv => i == 4,
            ShaderModule::Jacobi => i == 2,
        },
        module_slots(module)[i].kind is Uniform <==> match module {
            ShaderModule::Vector => i == 2,
            ShaderModule::Reduction => i == 6,
            _ => false,
        },
{
}

/// Buffers are bound in their order, from zero on.
pub proof fn law_bound_in_order(buffers: Seq<usize>, i: int)
    requires
        0 <= i < buffers.len() <= 16,
    ensures
        bound(buffers).len() == buffers.len(),
        bound(buffers)[i].binding == i,
        bound(buffers)[i].buffer == buffers[i],
{
}

/// An encoded command is what its parts say.
pub proof fn law_encoded_is_its_parts(command: Encoded)
    ensures
        match (command, command@) {
            (Encoded::ClearBuffer { buffer: a }, EncodedView::ClearBuffer { buffer: b }) => a == b,
            (
                Encoded::CopyBuffer { source: a, destination: c, bytes: e },
                EncodedView::CopyBuffer { source: b, destination: d, bytes: f },
            ) => a == b && c == d && e == f,
            (
                Encoded::ComputePass { label: a, bindings: c, dispatches: e },
                EncodedView::ComputePass { label: b, bindings: d, dispatches: f },
            ) => a@ == b && c@ == d && e@ == f,
            _ => false,
        },
{
}

/// A command is what its parts say, and a submission lists its commands in their order.
pub proof fn law_command_is_its_parts(command: Command)
    ensures
        match (command, command@) {
            (
                Command::CreateShaderModule { module: a, label: c },
                CommandView::CreateShaderModule { module: b, label: d },
            ) => a == b && c@ == d,
            (
                Command::CreateBindGroupLayout { layout: a, label: c, slots: e },
                CommandView::CreateBindGroupLayout { layout: b, label: d, slots: f },
            ) => a == b && c@ == d && e@ == f,
            (
                Command::CreatePipelineLayout { layout: a, label: c },
                CommandView::CreatePipelineLayout { layout: b, label: d },
            ) => a == b && c@ == d,
            (
                Command::CreatePipeline { kernel: a, label: c, module: e, entry_point: g, layout },
                CommandView::CreatePipeline {
                    kernel: b,
                    label: d,
                    module: f,
                    entry_point: h,
                    layout: l,
                },
            ) => a == b && c@ == d && e == f && g@ == h && layout == l,
            (
                Command::CreateBuffer { buffer: a, label: c, size: e, usage: g },
                CommandView::CreateBuffer { buffer: b, label: d, size: f, usage: h },
            ) => a == b && c@ == d && e == f && g == h,
            (
                Command::CreateBufferInit { buffer: a, label: c, contents: e, usage: g },
                CommandView::CreateBufferInit { buffer: b, label: d, contents: f, usage: h },
            ) => a == b && c@ == d && e@ == f && g == h,
            (
                Command::WriteBuffer { buffer: a, contents: c },
                CommandView::WriteBuffer { buffer: b, contents: d },
            ) => a == b && c@ == d,
            (
                Command::Submit { label: a, encoded: c },
                CommandView::Submit { label: b, encoded: d },
            ) => {
                &&& a@ == b
                &&& d.len() == c@.len()
                &&& forall|i: int| 0 <= i < d.len() ==> #[trigger] d[i] == c@[i]@
            },
            (
                Command::Precondition { input: a, output: c },
                CommandView::Precondition { input: b, output: d },
            ) => a@ == b && c@ == d,
            _ => false,
        },
{
}

/// A list of commands keeps their order, and an encoder adds each command behind the others.
pub proof fn law_commands_in_order(
    commands: Seq<Command>,
    i: int,
    encoder: EncoderView,
    command: EncodedView,
)
    requires
        0 <= i < commands.len(),
    ensures
        command_views(commands).len() == commands.len(),
        command_views(commands)[i] == commands[i]@,
        encoder.with(command).label == encoder.label,
        encoder.with(command).encoded.len() == encoder.encoded.len() + 1,
        encoder.with(command).encoded.drop_last() == encoder.encoded,
        encoder.with(command).encoded.last() == command,
{
    assert(encoder.with(command).encoded.drop_last() =~= encoder.encoded);
}

} // verus!
