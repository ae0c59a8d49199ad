//! One selected device: its identity, its buffers and the work recorded for it.
use crate::bytes::{decode_words, native_byte_order, ByteOrder};
use crate::command::{shader_of, Command, CommandEncoder, Kernel, Layout, ShaderModule, Slot};
use crate::error::{wgpu_error, wgpu_error_message, KError, WgpuErrorKind};
use vstd::prelude::*;
use vstd::string::StringExecFns;

verus! {

/// Usage flags of a storage buffer: storage, copy source and copy destination.
pub const STORAGE_USAGE: u32 = 140;

/// Usage flags of a uniform buffer: uniform and copy destination.
pub const UNIFORM_USAGE: u32 = 72;

/// Usage flags of a readback buffer: copy destination and mapped for reading.
pub const READBACK_USAGE: u32 = 9;

/// `wgpu::BufferUsages::STORAGE`, as its bits: the flag is bit seven.
#[verifier::external_body]
fn storage_flag() -> (r: u32)
    ensures
        r == 128,
{
    wgpu::BufferUsages::STORAGE.bits()
}

/// `wgpu::BufferUsages::UNIFORM`, as its bits: the flag is bit six.
#[verifier::external_body]
fn uniform_flag() -> (r: u32)
    ensures
        r == 64,
{
    wgpu::BufferUsages::UNIFORM.bits()
}

/// `wgpu::BufferUsages::COPY_SRC`, as its bits: the flag is bit two.
#[verifier::external_body]
fn copy_source_flag() -> (r: u32)
    ensures
        r == 4,
{
    wgpu::BufferUsages::COPY_SRC.bits()
}

/// `wgpu::BufferUsages::COPY_DST`, as its bits: the flag is bit three.
#[verifier::external_body]
fn copy_destination_flag() -> (r: u32)
    ensures
        r == 8,
{
    wgpu::BufferUsages::COPY_DST.bits()
}

/// `wgpu::BufferUsages::MAP_READ`, as its bits: the flag is bit zero.
#[verifier::external_body]
fn map_read_flag() -> (r: u32)
    ensures
        r == 1,
{
    wgpu::BufferUsages::MAP_READ.bits()
}

/// Usage flags of a storage buffer.
pub fn storage_usage() -> (r: u32)
    ensures
        r == STORAGE_USAGE,
{
    assert(128u32 | 4u32 | 8u32 == 140u32) by (bit_vector);
    storage_flag() | copy_source_flag() | copy_destination_flag()
}

/// Usage flags of a uniform buffer.
pub fn uniform_usage() -> (r: u32)
    ensures
        r == UNIFORM_USAGE,
{
    assert(64u32 | 8u32 == 72u32) by (bit_vector);
    uniform_flag() | copy_destination_flag()
}

/// Usage flags of a readback buffer.
pub fn readback_usage() -> (r: u32)
    ensures
        r == READBACK_USAGE,
{
    assert(8u32 | 1u32 == 9u32) by (bit_vector);
    copy_destination_flag() | map_read_flag()
}

/// Bytes of `count` single precision numbers, as far as a `usize` reaches.
pub open spec fn single_bytes(count: usize) -> u64 {
    if 4 * count <= usize::MAX {
        (4 * count) as u64
    } else {
        usize::MAX as u64
    }
}

/// Size of a buffer that is asked for with `bytes` bytes.
pub open spec fn at_least_a_word(bytes: u64) -> u64 {
    if bytes < 4 {
        4
    } else {
        bytes
    }
}

/// Workgroups of `width` lanes that cover `len` entries.
pub open spec fn groups(len: nat, width: nat) -> nat {
    (len + width - 1) as nat / width
}

/// Bytes of `count` single precision numbers, as far as a `usize` reaches.
pub fn byte_count(count: usize) -> (r: u64)
    ensures
        r == single_bytes(count),
{
    if count <= usize::MAX / 4 {
        (4 * count) as u64
    } else {
        usize::MAX as u64
    }
}

/// Workgroups that cover `len` entries, where a dispatch can hold that many.
pub fn group_count(len: usize, width: usize) -> (r: Option<u32>)
    requires
        width > 0,
    ensures
        r is Some == (groups(len as nat, width as nat) <= u32::MAX),
        r is Some ==> r->0 == groups(len as nat, width as nat),
{
    let count: usize = div_ceil(len, width);
    if count <= u32::MAX as usize {
        Some(count as u32)
    } else {
        None
    }
}

/// The quotient, rounded up.
pub fn div_ceil(len: usize, width: usize) -> (r: usize)
    requires
        width > 0,
    ensures
        r == groups(len as nat, width as nat),
{
    let whole: usize = len / width;
    let rest: usize = len % width;
    proof {
        let l = len as int;
        let w = width as int;
        vstd::arithmetic::div_mod::lemma_fundamental_div_mod(l, w);
        if rest == 0 {
            assert(l + w - 1 == whole * w + (w - 1)) by (nonlinear_arith)
                requires
                    l == w * whole + rest,
                    rest == 0,
            ;
            vstd::arithmetic::div_mod::lemma_fundamental_div_mod_converse(
                l + w - 1,
                w,
                whole as int,
                w - 1,
            );
        } else {
            assert(l + w - 1 == (whole + 1) * w + (rest - 1)) by (nonlinear_arith)
                requires
                    l == w * whole + rest,
            ;
            vstd::arithmetic::div_mod::lemma_fundamental_div_mod_converse(
                l + w - 1,
                w,
                whole + 1,
                rest - 1,
            );
            assert(whole < l) by (nonlinear_arith)
                requires
                    l == w * whole + rest,
                    rest > 0,
                    w > 0,
                    whole >= 0,
            ;
        }
    }
    if rest == 0 {
        whole
    } else {
        whole + 1
    }
}

/// What an adapter says of itself.
#[derive(Debug)]
pub struct AdapterInfo {
    pub name: String,
    pub backend: String,
    pub device_type: String,
}

/// A request to read the start of a buffer back to the host.
#[derive(Debug)]
pub struct ReadRequest {
    pub source: usize,
    pub byte_count: u64,
    pub staging_size: u64,
    pub staging_usage: u32,
    pub operation: &'static str,
}

/// How a readback ended.
#[derive(Debug)]
pub enum Readback<P, M, R> {
    /// The device could not be waited for.
    PollFailed(P),
    /// The completion callback was dropped.
    Dropped,
    /// The staging buffer could not be mapped.
    MapFailed(M),
    /// The mapped range could not be had.
    RangeFailed(R),
    /// The bytes that were read.
    Mapped(Vec<u8>),
}

/// One selected portable device with the work recorded for it.
#[derive(Debug)]
pub struct WgpuRuntime {
    id: u64,
    adapter_name: String,
    order: ByteOrder,
    sizes: Vec<u64>,
    commands: Vec<Command>,
}

/// A runtime as its contracts see it.
pub ghost struct RuntimeView {
    /// What tells this runtime from every other.
    pub id: u64,
    /// The adapter's name.
    pub adapter: Seq<char>,
    /// Byte order of the words in its buffers.
    pub order: ByteOrder,
    /// Size of each buffer that was created; a buffer is its index here.
    pub sizes: Seq<u64>,
    /// Work that has been recorded and not taken yet.
    pub commands: Seq<crate::command::CommandView>,
}

impl RuntimeView {
    /// The runtime after one more command.
    pub open spec fn record(self, command: crate::command::CommandView) -> RuntimeView {
        RuntimeView { commands: self.commands.push(command), ..self }
    }

    /// The buffer that is created next.
    pub open spec fn next_buffer(self) -> usize {
        self.sizes.len() as usize
    }

    /// The runtime after the creation of a buffer that holds `contents`.
    pub open spec fn create_init(
        self,
        label: Seq<char>,
        contents: Seq<u8>,
        usage: u32,
    ) -> RuntimeView {
        RuntimeView { sizes: self.sizes.push(contents.len() as u64), ..self }.record(
            crate::command::CommandView::CreateBufferInit {
                buffer: self.next_buffer(),
                label,
                contents,
                usage,
            },
        )
    }

    /// The runtime after the creation of an empty storage buffer.
    pub open spec fn create_empty(self, label: Seq<char>, bytes: u64) -> RuntimeView {
        let size = at_least_a_word(bytes);
        RuntimeView { sizes: self.sizes.push(size), ..self }.record(
            crate::command::CommandView::CreateBuffer {
                buffer: self.next_buffer(),
                label,
                size,
                usage: STORAGE_USAGE,
            },
        )
    }

    /// The runtime after a write to the start of a buffer.
    pub open spec fn write(self, buffer: usize, contents: Seq<u8>) -> RuntimeView {
        self.record(crate::command::CommandView::WriteBuffer { buffer, contents })
    }

    /// The runtime after the submission of an encoder.
    pub open spec fn submit(self, encoder: crate::command::EncoderView) -> RuntimeView {
        self.record(
            crate::command::CommandView::Submit {
                label: encoder.label,
                encoded: encoder.encoded,
            },
        )
    }

    /// The runtime after the creation of a shader module.
    pub open spec fn shader(self, module: ShaderModule, label: Seq<char>) -> RuntimeView {
        self.record(crate::command::CommandView::CreateShaderModule { module, label })
    }

    /// The runtime after the creation of a pipeline.
    pub open spec fn pipeline(
        self,
        kernel: Kernel,
        label: Seq<char>,
        entry_point: Seq<char>,
        layout: Option<Layout>,
    ) -> RuntimeView {
        self.record(
            crate::command::CommandView::CreatePipeline {
                kernel,
                label,
                module: crate::command::kernel_module(kernel),
                entry_point,
                layout,
            },
        )
    }

    /// The runtime after the creation of a bind group layout and of its pipeline layout.
    pub open spec fn layout(
        self,
        layout: Layout,
        label: Seq<char>,
        pipeline_label: Seq<char>,
        slots: Seq<Slot>,
    ) -> RuntimeView {
        self.record(
            crate::command::CommandView::CreateBindGroupLayout { layout, label, slots },
        ).record(
            crate::command::CommandView::CreatePipelineLayout { layout, label: pipeline_label },
        )
    }
}

impl View for WgpuRuntime {
    type V = RuntimeView;

    closed spec fn view(&self) -> RuntimeView {
        RuntimeView {
            id: self.id,
            adapter: self.adapter_name@,
            order: self.order,
            sizes: self.sizes@,
            commands: crate::command::command_views(self.commands@),
        }
    }
}

/// The text that names an adapter.
pub open spec fn adapter_text(info: AdapterInfo) -> Seq<char> {
    info.name@ + " ("@ + info.backend@ + ", "@ + info.device_type@ + ")"@
}

impl WgpuRuntime {
    /// The adapter that a request gave, or the error that the failed request is reported as.
    pub fn request_adapter<E: std::fmt::Display>(reply: Result<AdapterInfo, E>) -> (r: Result<
        AdapterInfo,
        KError,
    >)
        ensures
            match (reply, r) {
                (Ok(info), Ok(same)) => same == info,
                (Err(error), Err(KError::Wgpu { kind, operation, message })) => {
                    &&& kind == WgpuErrorKind::Unavailable
                    &&& operation@ == "request WebGPU adapter"@
                    &&& vstd::string::to_string_from_display_ensures(&error, message)
                },
                _ => false,
            },
    {
        match reply {
            Ok(info) => Ok(info),
            Err(error) => Err(
                wgpu_error(WgpuErrorKind::Unavailable, "request WebGPU adapter", error),
            ),
        }
    }

    /// The runtime of a selected adapter, or the error that the failed device request is
    /// reported as. `id` must tell the runtime from every other.
    pub fn request<E: std::fmt::Display>(id: u64, info: &AdapterInfo, reply: Result<(), E>) -> (r:
        Result<Self, KError>)
        ensures
            match (reply, r) {
                (Ok(_), Ok(runtime)) => {
                    &&& runtime@.id == id
                    &&& runtime@.adapter == adapter_text(*info)
                    &&& runtime@.order == crate::bytes::machine_order()
                    &&& runtime@.sizes == Seq::<u64>::empty()
                    &&& runtime@.commands == Seq::<crate::command::CommandView>::empty()
                },
                (Err(error), Err(KError::Wgpu { kind, operation, message })) => {
                    &&& kind == WgpuErrorKind::Unavailable
                    &&& operation@ == "request WebGPU device"@
                    &&& vstd::string::to_string_from_display_ensures(&error, message)
                },
                _ => false,
            },
    {
        match reply {
            Ok(_) => {
                let mut adapter_name = info.name.clone();
                adapter_name.append(" (");
                adapter_name.append(info.backend.as_str());
                adapter_name.append(", ");
                adapter_name.append(info.device_type.as_str());
                adapter_name.append(")");
                let runtime = WgpuRuntime {
                    id,
                    adapter_name,
                    order: native_byte_order(),
                    sizes: Vec::new(),
                    commands: Vec::new(),
                };
                assert(runtime@.commands =~= Seq::<crate::command::CommandView>::empty());
                Ok(runtime)
            },
            Err(error) => Err(
                wgpu_error(WgpuErrorKind::Unavailable, "request WebGPU device", error),
            ),
        }
    }

    /// What tells this runtime from every other.
    pub fn id(&self) -> (r: u64)
        ensures
            r == self@.id,
    {
        self.id
    }

    /// Human-readable selected adapter identity.
    pub fn adapter_name(&self) -> (r: &str)
        ensures
            r@ == self@.adapter,
    {
        self.adapter_name.as_str()
    }

    /// Byte order of the words in this runtime's buffers.
    pub fn byte_order(&self) -> (r: ByteOrder)
        ensures
            r == self@.order,
    {
        self.order
    }

    /// Takes the recorded work, to be carried out in its order.
    pub fn take_commands(&mut self) -> (r: Vec<Command>)
        ensures
            crate::command::command_views(r@) == old(self)@.commands,
            final(self)@ == (RuntimeView { commands: seq![], ..old(self)@ }),
    {
        let mut commands: Vec<Command> = Vec::new();
        std::mem::swap(&mut commands, &mut self.commands);
        assert(self@.commands =~= seq![]);
        commands
    }

    /// Records a command.
    pub(crate) fn record(&mut self, command: Command)
        ensures
            final(self)@ == old(self)@.record(command@),
    {
        self.commands.push(command);
        assert(self@.commands =~= old(self)@.commands.push(command@));
    }

    /// Creates a storage buffer that holds `contents`.
    pub(crate) fn create_storage_buffer(&mut self, label: &'static str, contents: Vec<u8>) -> (r:
        usize)
        ensures
            r == old(self)@.next_buffer(),
            final(self)@ == old(self)@.create_init(label@, contents@, STORAGE_USAGE),
    {
        self.create_init(label, contents, storage_usage())
    }

    /// Creates a uniform buffer that holds `contents`.
    pub(crate) fn create_uniform_buffer(&mut self, label: &'static str, contents: Vec<u8>) -> (r:
        usize)
        ensures
            r == old(self)@.next_buffer(),
            final(self)@ == old(self)@.create_init(label@, contents@, UNIFORM_USAGE),
    {
        self.create_init(label, contents, uniform_usage())
    }

    fn create_init(&mut self, label: &'static str, contents: Vec<u8>, usage: u32) -> (r: usize)
        ensures
            r == old(self)@.next_buffer(),
            final(self)@ == old(self)@.create_init(label@, contents@, usage),
    {
        let buffer: usize = self.sizes.len();
        self.sizes.push(contents.len() as u64);
        self.record(Command::CreateBufferInit { buffer, label, contents, usage });
        buffer
    }

    /// Creates a storage buffer of `bytes` bytes, or of one word if that is more.
    pub(crate) fn create_empty_storage_buffer(&mut self, label: &'static str, bytes: u64) -> (r:
        usize)
        ensures
            r == old(self)@.next_buffer(),
            final(self)@ == old(self)@.create_empty(label@, bytes),
    {
        let buffer: usize = self.sizes.len();
        let size: u64 = if bytes < 4 {
            4
        } else {
            bytes
        };
        self.sizes.push(size);
        self.record(Command::CreateBuffer { buffer, label, size, usage: storage_usage() });
        buffer
    }

    /// Creates a shader module.
    pub(crate) fn create_shader_module(&mut self, module: ShaderModule, label: &'static str)
        ensures
            final(self)@ == old(self)@.shader(module, label@),
    {
        self.record(Command::CreateShaderModule { module, label });
    }

    /// Creates a pipeline.
    pub(crate) fn create_pipeline(
        &mut self,
        kernel: Kernel,
        label: &'static str,
        entry_point: &'static str,
        layout: Option<Layout>,
    )
        ensures
            final(self)@ == old(self)@.pipeline(kernel, label@, entry_point@, layout),
    {
        let module = shader_of(kernel);
        self.record(Command::CreatePipeline { kernel, label, module, entry_point, layout });
    }

    /// Creates a bind group layout and the pipeline layout that has it alone.
    pub(crate) fn create_layout(
        &mut self,
        layout: Layout,
        label: &'static str,
        pipeline_label: &'static str,
        slots: Vec<Slot>,
    )
        ensures
            final(self)@ == old(self)@.layout(layout, label@, pipeline_label@, slots@),
    {
        self.record(Command::CreateBindGroupLayout { layout, label, slots });
        self.record(Command::CreatePipelineLayout { layout, label: pipeline_label });
    }

    /// Writes to the start of a buffer.
    pub(crate) fn write_buffer(&mut self, buffer: usize, contents: Vec<u8>)
        ensures
            final(self)@ == old(self)@.write(buffer, contents@),
    {
        self.record(Command::WriteBuffer { buffer, contents });
    }

    /// Submits an encoder.
    pub(crate) fn submit(&mut self, encoder: CommandEncoder)
        ensures
            final(self)@ == old(self)@.submit(encoder@),
    {
        self.record(encoder.finish());
    }

    /// Copies the first `bytes` bytes of a buffer to another, in a submission of its own.
    pub(crate) fn copy_buffer(
        &mut self,
        source: usize,
        destination: usize,
        bytes: u64,
        label: &'static str,
    )
        ensures
            final(self)@ == old(self)@.submit(
                crate::command::EncoderView::empty(label@).with(
                    crate::command::EncodedView::CopyBuffer { source, destination, bytes },
                ),
            ),
    {
        let mut encoder = CommandEncoder::new(label);
        encoder.copy_buffer_to_buffer(source, destination, bytes);
        self.submit(encoder);
    }

    /// Asks for the first `count` single precision numbers of a buffer.
    pub(crate) fn read_f32(source: usize, count: usize, operation: &'static str) -> (r:
        ReadRequest)
        ensures
            r.source == source,
            r.byte_count == single_bytes(count),
            r.staging_size == at_least_a_word(single_bytes(count)),
            r.staging_usage == READBACK_USAGE,
            r.operation@ == operation@,
    {
        let bytes: u64 = byte_count(count);
        ReadRequest {
            source,
            byte_count: bytes,
            staging_size: if bytes < 4 {
                4
            } else {
                bytes
            },
            staging_usage: readback_usage(),
            operation,
        }
    }

    /// The numbers that a readback gave, or the error that its failure is reported as.
    pub fn finish_read<P: std::fmt::Display, M: std::fmt::Display, R: std::fmt::Display>(
        &self,
        request: &ReadRequest,
        reply: Readback<P, M, R>,
    ) -> (r: Result<Vec<u32>, KError>)
        ensures
            r is Ok == reply is Mapped,
            reply matches Readback::Mapped(bytes) ==> r->Ok_0@ == crate::bytes::bytes_words(
                self@.order,
                bytes@,
            ),
            reply !is Mapped ==> {
                &&& r->Err_0 matches KError::Wgpu { kind, operation, message }
                &&& kind == WgpuErrorKind::Synchronization
                &&& operation@ == request.operation@
                &&& match reply {
                    Readback::PollFailed(e) => vstd::string::to_string_from_display_ensures(
                        &e,
                        message,
                    ),
                    Readback::Dropped => message@ == "readback callback was dropped"@,
                    Readback::MapFailed(e) => vstd::string::to_string_from_display_ensures(
                        &e,
                        message,
                    ),
                    Readback::RangeFailed(e) => vstd::string::to_string_from_display_ensures(
                        &e,
                        message,
                    ),
                    Readback::Mapped(_) => true,
                }
            },
    {
        let kind = WgpuErrorKind::Synchronization;
        match reply {
            Readback::PollFailed(error) => Err(wgpu_error(kind, request.operation, error)),
            Readback::Dropped => Err(
                wgpu_error_message(
                    kind,
                    request.operation,
                    "readback callback was dropped".to_owned(),
                ),
            ),
            Readback::MapFailed(error) => Err(wgpu_error(kind, request.operation, error)),
            Readback::RangeFailed(error) => Err(wgpu_error(kind, request.operation, error)),
            Readback::Mapped(bytes) => Ok(decode_words(self.order, bytes.as_slice())),
        }
    }
}

/// The workgroups that are dispatched cover every entry, and one less would not.
pub proof fn law_groups_cover(len: nat, width: nat)
    requires
        width > 0,
    ensures
        len <= width * groups(len, width),
        len > 0 ==> width * (groups(len, width) - 1) < len,
        len == 0 ==> groups(len, width) == 0,
{
    let q = groups(len, width) as int;
    let w = width as int;
    vstd::arithmetic::div_mod::lemma_fundamental_div_mod(len + w - 1, w);
    assert(w * (q - 1) == w * q - w) by (nonlinear_arith);
    if len == 0 {
        vstd::arithmetic::div_mod::lemma_basic_div(w - 1, w);
    }
}

/// Sizes of buffers: four bytes for each number as far as a `usize` reaches, and never less than a
/// word.
pub proof fn law_buffer_sizes(count: usize, bytes: u64)
    ensures
        4 * count <= usize::MAX ==> single_bytes(count) == 4 * count,
        4 * count > usize::MAX ==> single_bytes(count) == usize::MAX,
        bytes >= 4 ==> at_least_a_word(bytes) == bytes,
        bytes < 4 ==> at_least_a_word(bytes) == 4,
{
}

/// What recording does to a runtime: the commands grow by what was recorded, the buffers by those
/// that were created, a new buffer is the next index, and nothing else changes.
pub proof fn law_recording_appends(
    runtime: RuntimeView,
    label: Seq<char>,
    contents: Seq<u8>,
    usage: u32,
    buffer: usize,
    bytes: u64,
    encoder: crate::command::EncoderView,
)
    requires
        runtime.sizes.len() <= usize::MAX,
        contents.len() <= u64::MAX,
    ensures
        ({
            let created = runtime.create_init(label, contents, usage);
            &&& created.commands.len() == runtime.commands.len() + 1
            &&& created.commands.drop_last() == runtime.commands
            &&& created.commands.last() matches crate::command::CommandView::CreateBufferInit {
                buffer: new,
                label: l,
                contents: held,
                usage: u,
            }
            &&& new == runtime.sizes.len() && l == label && held == contents && u == usage
            &&& created.sizes == runtime.sizes.push(contents.len() as u64)
            &&& created.id == runtime.id && created.order == runtime.order
            &&& created.adapter == runtime.adapter
        }),
        ({
            let created = runtime.create_empty(label, bytes);
            &&& created.commands.len() == runtime.commands.len() + 1
            &&& created.commands.drop_last() == runtime.commands
            &&& created.commands.last() matches crate::command::CommandView::CreateBuffer {
                buffer: new,
                label: l,
                size,
                usage: u,
            }
            &&& new == runtime.sizes.len() && l == label && u == 140
            &&& size == if bytes < 4 {
                4
            } else {
                bytes
            }
            &&& created.sizes == runtime.sizes.push(size)
            &&& created.id == runtime.id && created.order == runtime.order
            &&& created.adapter == runtime.adapter
        }),
        ({
            let written = runtime.write(buffer, contents);
            &&& written.commands.drop_last() == runtime.commands
            &&& written.commands.last() matches crate::command::CommandView::WriteBuffer {
                buffer: b,
                contents: held,
            }
            &&& b == buffer && held == contents
            &&& written.sizes == runtime.sizes && written.id == runtime.id
            &&& written.order == runtime.order && written.adapter == runtime.adapter
        }),
        ({
            let submitted = runtime.submit(encoder);
            &&& submitted.commands.drop_last() == runtime.commands
            &&& submitted.commands.last() matches crate::command::CommandView::Submit {
                label: l,
                encoded,
            }
            &&& l == encoder.label && encoded == encoder.encoded
            &&& submitted.sizes == runtime.sizes && submitted.id == runtime.id
            &&& submitted.order == runtime.order && submitted.adapter == runtime.adapter
        }),
        runtime.next_buffer() == runtime.sizes.len(),
{
    assert(runtime.create_init(label, contents, usage).commands.drop_last() =~= runtime.commands);
    assert(runtime.create_empty(label, bytes).commands.drop_last() =~= runtime.commands);
    assert(runtime.write(buffer, contents).commands.drop_last() =~= runtime.commands);
    assert(runtime.submit(encoder).commands.drop_last() =~= runtime.commands);
}

/// An adapter is named by its name, with its backend and kind in round brackets behind it.
pub proof fn law_adapter_is_named(info: AdapterInfo)
    ensures
        ({
            let text = adapter_text(info);
            let (a, b, c) = (info.name@, info.backend@, info.device_type@);
            let (at, comma) = (a.len() as int, (a.len() + 2 + b.len()) as int);
            &&& text.len() == a.len() + b.len() + c.len() + 5
            &&& text.take(at) == a
            &&& text[at] == ' ' && text[at + 1] == '('
            &&& text.subrange(at + 2, comma) == b
            &&& text[comma] == ',' && text[comma + 1] == ' '
            &&& text.subrange(comma + 2, comma + 2 + c.len()) == c
            &&& text.last() == ')'
        }),
{
    reveal_strlit(" (");
    reveal_strlit(", ");
    reveal_strlit(")");
    let text = adapter_text(info);
    let (a, b, c) = (info.name@, info.backend@, info.device_type@);
    let (at, comma) = (a.len() as int, (a.len() + 2 + b.len()) as int);
    assert(text.take(at) =~= a);
    assert(text.subrange(at + 2, comma) =~= b);
    assert(text.subrange(comma + 2, comma + 2 + c.len()) =~= c);
}

} // verus!
