//! Vectors that stay on the device.
use crate::bytes::{encode_words, ByteOrder};
use crate::command::CommandEncoder;
use crate::error::{wgpu_error_message, KError, WgpuErrorKind};
use crate::portable::{is_finite64, narrow, widen, INF32};
use crate::runtime::{byte_count, ReadRequest, WgpuRuntime};
use crate::text::decimal_text;
use vstd::prelude::*;
use vstd::string::StringExecFns;

verus! {

/// Index of the first entry from `from` on that `f` holds of; the length where there is none.
pub open spec fn first(host: Seq<u64>, f: spec_fn(u64) -> bool, from: nat) -> nat
    decreases host.len() - from,
{
    if from >= host.len() {
        host.len()
    } else if f(host[from as int]) {
        from
    } else {
        first(host, f, from + 1)
    }
}

/// What `first` stands for: the entry at the index is the only one so far that `f` holds of.
pub proof fn lemma_first(host: Seq<u64>, f: spec_fn(u64) -> bool, from: nat)
    requires
        from <= host.len(),
    ensures
        from <= first(host, f, from) <= host.len(),
        forall|i: int| from <= i < first(host, f, from) ==> !f(#[trigger] host[i]),
        first(host, f, from) < host.len() ==> f(host[first(host, f, from) as int]),
    decreases host.len() - from,
{
    if from < host.len() && !f(host[from as int]) {
        lemma_first(host, f, from + 1);
    }
}

/// Whether a double becomes infinite as a single.
pub open spec fn exceeds_single(bits: u64) -> bool {
    crate::portable::magnitude32(crate::portable::narrowed(bits)) == INF32
}

/// The error with which a host vector is refused, if it is.
pub open spec fn host_vector_error(host: Seq<u64>) -> Option<crate::error::ErrorView> {
    let not_finite = first(host, |v: u64| !crate::portable::finite64(v), 0);
    let too_large = first(host, |v: u64| exceeds_single(v), 0);
    if not_finite < host.len() {
        Some(
            crate::error::ErrorView::InvalidInput(
                "WebGPU vector host value "@ + crate::text::decimal(not_finite)
                    + " is non-finite"@,
            ),
        )
    } else if too_large < host.len() {
        Some(
            crate::error::ErrorView::InvalidInput(
                "WebGPU vector host value "@ + crate::text::decimal(too_large)
                    + " exceeds portable f32 range"@,
            ),
        )
    } else {
        None
    }
}

/// Host values as the device holds them.
pub open spec fn narrowed_all(host: Seq<u64>) -> Seq<u32> {
    Seq::new(host.len(), |i: int| crate::portable::narrowed(host[i]))
}

/// Host values as the bytes of a device buffer.
pub open spec fn upload(order: ByteOrder, host: Seq<u64>) -> Seq<u8> {
    crate::bytes::words_bytes(order, narrowed_all(host))
}

/// Whether the double becomes infinite as a single.
pub(crate) fn is_too_large(bits: u64) -> (r: bool)
    requires
        crate::portable::finite64(bits),
    ensures
        r == exceeds_single(bits),
{
    let single: u32 = narrow(bits);
    !crate::portable::is_finite32(single) && !crate::portable::is_nan32(single)
}

/// Refuses a host vector with values that are not finite numbers or too large for the device.
fn validate_host_vector(host: &[u64]) -> (r: Result<(), KError>)
    ensures
        match r {
            Ok(_) => {
                &&& host_vector_error(host@) is None
                &&& forall|i: int|
                    0 <= i < host@.len() ==> #[trigger] crate::portable::finite64(host@[i])
            },
            Err(e) => host_vector_error(host@) == Some(e@),
        },
{
    let ghost not_finite = |v: u64| !crate::portable::finite64(v);
    let ghost too_large = |v: u64| exceeds_single(v);
    let mut i: usize = 0;
    while i < host.len()
        invariant
            i <= host.len(),
            not_finite == (|v: u64| !crate::portable::finite64(v)),
            first(host@, not_finite, 0) == first(host@, not_finite, i as nat),
            forall|j: int| 0 <= j < i ==> #[trigger] crate::portable::finite64(host@[j]),
        decreases host.len() - i,
    {
        if !is_finite64(host[i]) {
            let mut text = "WebGPU vector host value ".to_owned();
            text.append(decimal_text(i).as_str());
            text.append(" is non-finite");
            return Err(KError::InvalidInput(text));
        }
        i = i + 1;
    }
    let mut i: usize = 0;
    while i < host.len()
        invariant
            i <= host.len(),
            not_finite == (|v: u64| !crate::portable::finite64(v)),
            first(host@, not_finite, 0) == host@.len(),
            too_large == (|v: u64| exceeds_single(v)),
            first(host@, too_large, 0) == first(host@, too_large, i as nat),
            forall|j: int| 0 <= j < host@.len() ==> #[trigger] crate::portable::finite64(host@[j]),
        decreases host.len() - i,
    {
        if is_too_large(host[i]) {
            let mut text = "WebGPU vector host value ".to_owned();
            text.append(decimal_text(i).as_str());
            text.append(" exceeds portable f32 range");
            return Err(KError::InvalidInput(text));
        }
        i = i + 1;
    }
    Ok(())
}

/// Host values as the device holds them.
pub(crate) fn narrow_all(host: &[u64]) -> (r: Vec<u32>)
    requires
        forall|i: int| 0 <= i < host@.len() ==> #[trigger] crate::portable::finite64(host@[i]),
    ensures
        r@ == narrowed_all(host@),
{
    let mut singles: Vec<u32> = Vec::new();
    let mut i: usize = 0;
    while i < host.len()
        invariant
            i <= host.len(),
            singles@ == narrowed_all(host@.take(i as int)),
            forall|j: int| 0 <= j < host@.len() ==> #[trigger] crate::portable::finite64(host@[j]),
        decreases host.len() - i,
    {
        assert(crate::portable::finite64(host@[i as int]));
        singles.push(narrow(host[i]));
        i = i + 1;
        assert(singles@ =~= narrowed_all(host@.take(i as int)));
    }
    assert(host@.take(i as int) =~= host@);
    singles
}

/// A real vector retained in portable storage as single precision numbers.
#[derive(Clone, Copy, Debug)]
pub struct WgpuVector {
    runtime: u64,
    buffer: usize,
    len: usize,
}

/// A vector as its contracts see it.
pub ghost struct VectorView {
    /// The runtime that the vector belongs to.
    pub runtime: u64,
    /// The buffer that holds it.
    pub buffer: usize,
    /// Its number of entries.
    pub len: usize,
}

impl View for WgpuVector {
    type V = VectorView;

    closed spec fn view(&self) -> VectorView {
        VectorView { runtime: self.runtime, buffer: self.buffer, len: self.len }
    }
}

/// The vector that is created next on a runtime.
pub open spec fn next_vector(runtime: crate::runtime::RuntimeView, len: usize) -> VectorView {
    VectorView { runtime: runtime.id, buffer: runtime.next_buffer(), len }
}

/// The runtime after the allocation of a zero-filled vector.
pub open spec fn with_zeros(
    runtime: crate::runtime::RuntimeView,
    len: usize,
) -> crate::runtime::RuntimeView {
    runtime.create_empty("kryst WebGPU vector"@, crate::runtime::single_bytes(len)).submit(
        crate::command::EncoderView::empty("zero WebGPU vector"@).with(
            crate::command::EncodedView::ClearBuffer { buffer: runtime.next_buffer() },
        ),
    )
}

/// The error with which two vectors are refused for a common operation, if they are.
pub open spec fn compatibility_error(a: VectorView, b: VectorView) -> Option<
    crate::error::ErrorView,
> {
    if a.runtime != b.runtime {
        Some(
            crate::error::ErrorView::Wgpu {
                kind: WgpuErrorKind::DeviceMismatch,
                operation: "validate WebGPU vectors"@,
                message: "vectors belong to different WebGPU runtimes"@,
            },
        )
    } else if a.len != b.len {
        Some(
            crate::error::ErrorView::InvalidInput(
                "WebGPU vector length mismatch: "@ + crate::text::decimal(a.len as nat) + " vs "@
                    + crate::text::decimal(b.len as nat),
            ),
        )
    } else {
        None
    }
}

impl WgpuVector {
    /// Allocates one zero-filled device vector.
    pub fn zeros(runtime: &mut WgpuRuntime, len: usize) -> (r: Result<Self, KError>)
        ensures
            r is Ok,
            r->Ok_0@ == next_vector(old(runtime)@, len),
            final(runtime)@ == with_zeros(old(runtime)@, len),
    {
        let buffer: usize = runtime.create_empty_storage_buffer(
            "kryst WebGPU vector",
            byte_count(len),
        );
        let mut encoder = CommandEncoder::new("zero WebGPU vector");
        encoder.clear_buffer(buffer);
        runtime.submit(encoder);
        Ok(WgpuVector { runtime: runtime.id(), buffer, len })
    }

    /// Uploads a host vector of doubles into single precision device storage.
    pub fn from_host(runtime: &mut WgpuRuntime, host: &[u64]) -> (r: Result<Self, KError>)
        ensures
            match r {
                Ok(vector) => {
                    &&& host_vector_error(host@) is None
                    &&& vector@ == next_vector(old(runtime)@, host.len())
                    &&& final(runtime)@ == old(runtime)@.create_init(
                        "kryst WebGPU vector"@,
                        upload(old(runtime)@.order, host@),
                        crate::runtime::STORAGE_USAGE,
                    )
                },
                Err(e) => {
                    &&& host_vector_error(host@) == Some(e@)
                    &&& final(runtime)@ == old(runtime)@
                },
            },
    {
        match validate_host_vector(host) {
            Ok(_) => {},
            Err(error) => {
                return Err(error);
            },
        }
        let encoded = encode_words(runtime.byte_order(), narrow_all(host).as_slice());
        let buffer: usize = runtime.create_storage_buffer("kryst WebGPU vector", encoded);
        Ok(WgpuVector { runtime: runtime.id(), buffer, len: host.len() })
    }

    /// Number of retained entries.
    pub fn len(&self) -> (r: usize)
        ensures
            r == self@.len,
    {
        self.len
    }

    /// Whether this vector is empty.
    pub fn is_empty(&self) -> (r: bool)
        ensures
            r == (self@.len == 0),
    {
        self.len == 0
    }

    /// Replaces the complete vector from finite host values.
    pub fn copy_from_host(&mut self, runtime: &mut WgpuRuntime, host: &[u64]) -> (r: Result<
        (),
        KError,
    >)
        requires
            old(runtime)@.id == old(self)@.runtime,
        ensures
            final(self)@ == old(self)@,
            match r {
                Ok(_) => {
                    &&& host@.len() == old(self)@.len
                    &&& host_vector_error(host@) is None
                    &&& final(runtime)@ == old(runtime)@.write(
                        old(self)@.buffer,
                        upload(old(runtime)@.order, host@),
                    )
                },
                Err(e) => {
                    &&& final(runtime)@ == old(runtime)@
                    &&& if host@.len() != old(self)@.len {
                        e@ == crate::error::ErrorView::InvalidInput(
                            "WebGPU vector upload length mismatch: "@ + crate::text::decimal(
                                host@.len(),
                            ) + " vs "@ + crate::text::decimal(old(self)@.len as nat),
                        )
                    } else {
                        host_vector_error(host@) == Some(e@)
                    }
                },
            },
    {
        if host.len() != self.len {
            let mut text = "WebGPU vector upload length mismatch: ".to_owned();
            text.append(decimal_text(host.len()).as_str());
            text.append(" vs ");
            text.append(decimal_text(self.len).as_str());
            return Err(KError::InvalidInput(text));
        }
        match validate_host_vector(host) {
            Ok(_) => {},
            Err(error) => {
                return Err(error);
            },
        }
        let encoded = encode_words(runtime.byte_order(), narrow_all(host).as_slice());
        runtime.write_buffer(self.buffer, encoded);
        Ok(())
    }

    /// Asks for the complete vector.
    pub fn download(&self) -> (r: ReadRequest)
        ensures
            r.source == self@.buffer,
            r.byte_count == crate::runtime::single_bytes(self@.len),
            r.staging_size == crate::runtime::at_least_a_word(
                crate::runtime::single_bytes(self@.len),
            ),
            r.staging_usage == crate::runtime::READBACK_USAGE,
            r.operation@ == "download WebGPU vector"@,
    {
        WgpuRuntime::read_f32(self.buffer, self.len, "download WebGPU vector")
    }

    /// Widens the numbers that were downloaded to host doubles.
    pub fn to_host(&self, downloaded: Result<Vec<u32>, KError>) -> (r: Result<Vec<u64>, KError>)
        ensures
            match (downloaded, r) {
                (Ok(singles), Ok(host)) => {
                    &&& host@.len() == singles@.len()
                    &&& forall|i: int|
                        0 <= i < host@.len() ==> crate::portable::widens_to(
                            singles@[i],
                            #[trigger] host@[i],
                        )
                },
                (Err(e), Err(same)) => same == e,
                _ => false,
            },
    {
        match downloaded {
            Ok(singles) => {
                let mut host: Vec<u64> = Vec::new();
                let mut i: usize = 0;
                while i < singles.len()
                    invariant
                        i <= singles.len(),
                        host@.len() == i,
                        forall|j: int|
                            0 <= j < i ==> crate::portable::widens_to(
                                singles@[j],
                                #[trigger] host@[j],
                            ),
                    decreases singles.len() - i,
                {
                    host.push(widen(singles[i]));
                    i = i + 1;
                }
                Ok(host)
            },
            Err(error) => Err(error),
        }
    }

    /// The runtime that this vector belongs to.
    pub fn runtime(&self) -> (r: u64)
        ensures
            r == self@.runtime,
    {
        self.runtime
    }

    /// The buffer that holds this vector.
    pub fn buffer(&self) -> (r: usize)
        ensures
            r == self@.buffer,
    {
        self.buffer
    }

    /// Bytes of this vector on the device.
    pub(crate) fn byte_len(&self) -> (r: u64)
        ensures
            r == crate::runtime::single_bytes(self@.len),
    {
        byte_count(self.len)
    }

    /// Refuses vectors of different runtimes or lengths.
    pub fn ensure_compatible(&self, other: &Self) -> (r: Result<(), KError>)
        ensures
            match r {
                Ok(_) => compatibility_error(self@, other@) is None,
                Err(e) => compatibility_error(self@, other@) == Some(e@),
            },
    {
        if self.runtime != other.runtime {
            return Err(
                wgpu_error_message(
                    WgpuErrorKind::DeviceMismatch,
                    "validate WebGPU vectors",
                    "vectors belong to different WebGPU runtimes".to_owned(),
                ),
            );
        }
        if self.len != other.len {
            let mut text = "WebGPU vector length mismatch: ".to_owned();
            text.append(decimal_text(self.len).as_str());
            text.append(" vs ");
            text.append(decimal_text(other.len).as_str());
            return Err(KError::InvalidInput(text));
        }
        Ok(())
    }
}

/// What is downloaded after an upload are the uploaded values, rounded to single precision once;
/// a value that single precision holds comes back as it was.
pub proof fn law_download_returns_upload(order: ByteOrder, host: Seq<u64>, back: Seq<u64>)
    requires
        host_vector_error(host) is None,
        back.len() == host.len(),
        forall|i: int|
            0 <= i < host.len() ==> crate::portable::widens_to(
                crate::bytes::bytes_words(order, upload(order, host))[i],
                #[trigger] back[i],
            ),
    ensures
        forall|i: int|
            0 <= i < host.len() ==> #[trigger] back[i] == crate::portable::widened(
                crate::portable::narrowed(host[i]),
            ),
        forall|i: int, single: u32|
            0 <= i < host.len() && crate::portable::finite32(single)
                && #[trigger] crate::portable::widens_to(single, host[i]) ==> back[i] == host[i],
{
    let singles = narrowed_all(host);
    crate::bytes::law_decode_undoes_encode(order, singles);
    lemma_first(host, |v: u64| !crate::portable::finite64(v), 0);
    lemma_first(host, |v: u64| exceeds_single(v), 0);
    assert forall|i: int| 0 <= i < host.len() implies #[trigger] back[i]
        == crate::portable::widened(crate::portable::narrowed(host[i])) by {
        assert(crate::portable::finite64(host[i]));
        assert(!exceeds_single(host[i]));
        crate::portable::lemma_narrows(host[i]);
        crate::portable::lemma_widened(singles[i], back[i]);
    }
    assert forall|i: int, single: u32|
        0 <= i < host.len() && crate::portable::finite32(single)
            && #[trigger] crate::portable::widens_to(single, host[i]) implies back[i]
        == host[i] by {
        crate::portable::law_narrow_undoes_widen(single, host[i]);
        crate::portable::lemma_widened(single, host[i]);
        assert(back[i] == crate::portable::widened(crate::portable::narrowed(host[i])));
    }
}

/// Whether a double is a number that single precision holds as a finite one, told from its pattern.
pub open spec fn fits_single(bits: u64) -> bool {
    bits < 0x47ef_ffff_f000_0000 || 0x8000_0000_0000_0000 <= bits < 0xc7ef_ffff_f000_0000
}

/// Whether a double is finite, told from its pattern.
pub open spec fn is_a_number(bits: u64) -> bool {
    bits < 0x7ff0_0000_0000_0000 || 0x8000_0000_0000_0000 <= bits < 0xfff0_0000_0000_0000
}

/// Which doubles become infinite as singles.
pub proof fn law_too_large(bits: u64)
    ensures
        exceeds_single(bits) <==> !fits_single(bits),
{
    crate::portable::lemma_narrows(bits);
    crate::portable::law_narrow_overflows(bits, crate::portable::narrowed(bits));
}

/// A host vector is accepted exactly where every entry is a number that single precision holds as a
/// finite one.
pub proof fn law_host_vector_accepted(host: Seq<u64>)
    ensures
        host_vector_error(host) is None <==> forall|i: int|
            0 <= i < host.len() ==> fits_single(#[trigger] host[i]),
{
    lemma_first(host, |v: u64| !crate::portable::finite64(v), 0);
    lemma_first(host, |v: u64| exceeds_single(v), 0);
    if host_vector_error(host) is None {
        assert forall|i: int| 0 <= i < host.len() implies fits_single(#[trigger] host[i]) by {
            law_too_large(host[i]);
        }
    }
    if forall|i: int| 0 <= i < host.len() ==> fits_single(#[trigger] host[i]) {
        let k = first(host, |v: u64| !crate::portable::finite64(v), 0);
        let l = first(host, |v: u64| exceeds_single(v), 0);
        if k < host.len() {
            assert(fits_single(host[k as int]));
        }
        if l < host.len() {
            assert(fits_single(host[l as int]));
            law_too_large(host[l as int]);
        }
    }
}

/// A host vector is refused for the first of its entries that is not finite; where all are, for the
/// first that is too large. The message names the entry.
pub proof fn law_host_vector_refused(host: Seq<u64>, i: int)
    requires
        0 <= i < host.len(),
    ensures
        !is_a_number(host[i]) && (forall|j: int|
            0 <= j < i ==> is_a_number(#[trigger] host[j])) ==> host_vector_error(host) == Some(
            crate::error::ErrorView::InvalidInput(
                "WebGPU vector host value "@ + crate::text::decimal(i as nat)
                    + " is non-finite"@,
            ),
        ),
        (forall|j: int| 0 <= j < host.len() ==> is_a_number(#[trigger] host[j])) && !fits_single(
            host[i],
        ) && (forall|j: int| 0 <= j < i ==> fits_single(#[trigger] host[j])) ==> host_vector_error(
            host,
        ) == Some(
            crate::error::ErrorView::InvalidInput(
                "WebGPU vector host value "@ + crate::text::decimal(i as nat)
                    + " exceeds portable f32 range"@,
            ),
        ),
{
    lemma_first(host, |v: u64| !crate::portable::finite64(v), 0);
    lemma_first(host, |v: u64| exceeds_single(v), 0);
    let k = first(host, |v: u64| !crate::portable::finite64(v), 0);
    let l = first(host, |v: u64| exceeds_single(v), 0);
    if !is_a_number(host[i]) && (forall|j: int| 0 <= j < i ==> is_a_number(#[trigger] host[j])) {
        assert(!crate::portable::finite64(host[i]));
        if k < i {
            assert(is_a_number(host[k as int]));
        }
        assert(k == i);
    }
    if (forall|j: int| 0 <= j < host.len() ==> is_a_number(#[trigger] host[j])) && !fits_single(
        host[i],
    ) && (forall|j: int| 0 <= j < i ==> fits_single(#[trigger] host[j])) {
        if k < host.len() {
            assert(is_a_number(host[k as int]));
        }
        law_too_large(host[i]);
        if l < i {
            assert(fits_single(host[l as int]));
            law_too_large(host[l as int]);
        }
        assert(l == i);
    }
}

/// An upload holds, for each entry of an accepted host vector, one word: the finite single nearest
/// to it.
pub proof fn law_upload_rounds(order: ByteOrder, host: Seq<u64>, i: int)
    requires
        host_vector_error(host) is None,
        0 <= i < host.len(),
    ensures
        upload(order, host).len() == 4 * host.len(),
        crate::bytes::bytes_words(order, upload(order, host)).len() == host.len(),
        crate::portable::narrows_to(
            host[i],
            crate::bytes::bytes_words(order, upload(order, host))[i],
        ),
        crate::portable::finite32(crate::bytes::bytes_words(order, upload(order, host))[i]),
{
    crate::bytes::law_decode_undoes_encode(order, narrowed_all(host));
    law_host_vector_accepted(host);
    assert(fits_single(host[i]));
    crate::portable::lemma_narrows(host[i]);
    crate::portable::law_narrow_overflows(host[i], crate::portable::narrowed(host[i]));
}

/// A zero-filled vector takes a new buffer of its length, or of one word if that is more, and
/// clears it.
pub proof fn law_zeros_recorded(runtime: crate::runtime::RuntimeView, len: usize)
    requires
        runtime.sizes.len() <= usize::MAX,
        4 * len <= usize::MAX,
    ensures
        ({
            let after = with_zeros(runtime, len);
            let k = runtime.commands.len() as int;
            let buffer = runtime.sizes.len() as usize;
            let size = if len == 0 {
                4u64
            } else {
                (4 * len) as u64
            };
            &&& next_vector(runtime, len) == (VectorView { runtime: runtime.id, buffer, len })
            &&& after.commands.len() == k + 2
            &&& after.commands.take(k) == runtime.commands
            &&& after.commands[k] == (crate::command::CommandView::CreateBuffer {
                buffer,
                label: "kryst WebGPU vector"@,
                size,
                usage: 140,
            })
            &&& after.commands[k + 1] == (crate::command::CommandView::Submit {
                label: "zero WebGPU vector"@,
                encoded: seq![crate::command::EncodedView::ClearBuffer { buffer }],
            })
            &&& after.sizes == runtime.sizes.push(size)
            &&& after.id == runtime.id && after.order == runtime.order
        }),
{
    let after = with_zeros(runtime, len);
    let k = runtime.commands.len() as int;
    assert(after.commands.take(k) =~= runtime.commands);
    assert(crate::command::EncoderView::empty("zero WebGPU vector"@).with(
        crate::command::EncodedView::ClearBuffer { buffer: runtime.next_buffer() },
    ).encoded =~= seq![
        crate::command::EncodedView::ClearBuffer { buffer: runtime.next_buffer() },
    ]);
}

/// Vectors go together exactly where they belong to one runtime and have one length.
pub proof fn law_vectors_compatible(a: VectorView, b: VectorView)
    ensures
        compatibility_error(a, b) is None <==> a.runtime == b.runtime && a.len == b.len,
        a.runtime != b.runtime ==> compatibility_error(a, b) == Some(
            crate::error::ErrorView::Wgpu {
                kind: WgpuErrorKind::DeviceMismatch,
                operation: "validate WebGPU vectors"@,
                message: "vectors belong to different WebGPU runtimes"@,
            },
        ),
        a.runtime == b.runtime && a.len != b.len ==> compatibility_error(a, b) == Some(
            crate::error::ErrorView::InvalidInput(
                "WebGPU vector length mismatch: "@ + crate::text::decimal(a.len as nat) + " vs "@
                    + crate::text::decimal(b.len as nat),
            ),
        ),
{
}

} // verus!
