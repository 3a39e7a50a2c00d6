//! The kernel system: one context object holding the kernel store, the
//! variable pool and the ephemeris reader, with the high-level loading
//! interface that dispatches an ingested buffer to the right subsystem.

use vstd::prelude::*;

use crate::error_handling::{SpiceError, SpiceErrorType, SpiceResult};
use crate::file_system;
use crate::file_system::{FileHandle, KernelInfo, KernelType, VirtualFileSystem};
use crate::kernel_pool;
use crate::kernel_pool::KernelPool;
use crate::spk_reader;
use crate::spk_reader::SpkReader;

verus! {

/// Relies on `core::str::from_utf8`: checked, zero-copy UTF-8 decoding of
/// a byte slice; fails exactly on ill-formed UTF-8.
#[verifier::external_body]
fn bytes_as_str(v: &[u8]) -> (r: Option<&str>)
    ensures
        match r {
            Some(s) => vstd::utf8::encode_utf8(s@) == v@ && vstd::utf8::valid_utf8(v@),
            None => !vstd::utf8::valid_utf8(v@),
        },
{
    core::str::from_utf8(v).ok()
}

/// The engine context: the kernel store, the variable pool, and the
/// ephemeris segment index, owned together by the caller.
#[derive(Debug)]
pub struct KernelSystem {
    /// The virtual file store of ingested kernel buffers.
    pub vfs: VirtualFileSystem,
    /// The variable pool filled from text kernels.
    pub pool: KernelPool,
    /// The ephemeris segment reader and index.
    pub spk: SpkReader,
}

impl KernelSystem {
    /// Joint structural invariant of the three subsystems.
    pub open spec fn wf(&self) -> bool {
        &&& self.vfs.wf()
        &&& self.pool.wf()
        &&& self.spk.wf()
    }

    /// Create a new, empty kernel system.
    pub fn new() -> (r: Self)
        ensures
            r.wf(),
            r.vfs@ == file_system::model_empty(),
            r.pool@ == Map::<Seq<char>, kernel_pool::PoolValueModel>::empty(),
            r.spk.spec_segments().len() == 0,
    {
        KernelSystem { vfs: VirtualFileSystem::new(), pool: KernelPool::new(), spk: SpkReader::new() }
    }
}

/// Create the kernel system context (the context form of system
/// initialization: a constructed system is ready for use).
pub fn initialize_kernel_system() -> (r: KernelSystem)
    ensures
        r.wf(),
        r.vfs@ == file_system::model_empty(),
        r.pool@ == Map::<Seq<char>, kernel_pool::PoolValueModel>::empty(),
        r.spk.spec_segments().len() == 0,
{
    KernelSystem::new()
}

/// Whether the kernel system is initialized; a constructed context always
/// is.
pub fn is_initialized(_sys: &KernelSystem) -> (r: bool)
    ensures
        r == true,
{
    true
}

/// Reset the variable pool to its initial, empty state.
pub fn initialize_kernel_pool(sys: &mut KernelSystem) -> (r: SpiceResult<()>)
    requires
        old(sys).wf(),
    ensures
        final(sys).wf(),
        final(sys).pool@ == Map::<Seq<char>, kernel_pool::PoolValueModel>::empty(),
        final(sys).vfs == old(sys).vfs,
        final(sys).spk == old(sys).spk,
        r is Ok,
{
    sys.pool.clear();
    Ok(())
}

/// Whether the variable pool is initialized; in a constructed context it
/// always is.
pub fn is_kernel_pool_initialized(_sys: &KernelSystem) -> (r: bool)
    ensures
        r == true,
{
    true
}

impl KernelSystem {
    /// Ingest a kernel buffer and dispatch it: binary ephemeris kernels
    /// feed the segment index, text kernels feed the variable pool, and
    /// every accepted buffer is retained in the store under its path.
    ///
    /// Ingestion failures carry the store's error; an ephemeris kernel the
    /// index cannot accept fails `KernelLoadError`; a text-classified
    /// buffer that does not decode as UTF-8 fails `InvalidFormat`.
    pub fn furnish_kernel_from_bytes(&mut self, data: Vec<u8>, filename: &str) -> (r: SpiceResult<
        FileHandle,
    >)
        requires
            old(self).wf(),
            old(self).vfs@.next_handle < i32::MAX,
        ensures
            final(self).wf(),
            final(self).vfs@ == file_system::spec_ingest(old(self).vfs@, data@, filename@).0,
            r is Ok ==> file_system::spec_ingest(old(self).vfs@, data@, filename@).1 == Ok::<
                int,
                SpiceErrorType,
            >(r->Ok_0 as int),
            ({
                let kind = file_system::spec_detect_file_type(data@).1;
                let ingested = file_system::spec_ingest(old(self).vfs@, data@, filename@).1;
                let is_text_kind = kind == KernelType::TextKernel || kind == KernelType::LSK
                    || kind == KernelType::PCK || kind == KernelType::FK || kind == KernelType::IK
                    || kind == KernelType::SCLK || kind == KernelType::MK;
                &&& (r is Ok && kind == KernelType::SPK ==> final(self).spk.spec_segments()
                    == old(self).spk.spec_segments() + spk_reader::spec_catalogue()
                    && final(self).pool@ == old(self).pool@)
                &&& (r is Ok && !(kind == KernelType::SPK || is_text_kind)
                    ==> final(self).pool@ == old(self).pool@
                    && final(self).spk.spec_segments() == old(self).spk.spec_segments())
                &&& (r is Ok && is_text_kind ==> final(self).spk.spec_segments()
                    == old(self).spk.spec_segments() && exists|cs: Seq<char>|
                    vstd::utf8::encode_utf8(cs) == data@ && final(self).pool@
                        == kernel_pool::spec_load_lines(
                        old(self).pool@,
                        kernel_pool::spec_split_lines(cs),
                        0,
                        false,
                        Seq::<char>::empty(),
                    ))
                &&& (ingested is Err ==> r is Err && r->Err_0.error_type == ingested->Err_0
                    && final(self).pool@ == old(self).pool@ && final(self).spk.spec_segments()
                    == old(self).spk.spec_segments())
                &&& (r is Err ==> final(self).pool@ == old(self).pool@
                    && final(self).spk.spec_segments() == old(self).spk.spec_segments())
                &&& (ingested is Ok && kind == KernelType::SPK && data@.len() >= 1024 ==> r is Ok)
                &&& (ingested is Ok && is_text_kind && vstd::utf8::valid_utf8(data@) ==> r is Ok)
                &&& (ingested is Ok && !(kind == KernelType::SPK || is_text_kind) ==> r is Ok)
            }),
    {
        let kind = file_system::detect_kernel_type(data.as_slice());
        let ghost vfs0 = self.vfs@;
        let ghost dataview = data@;
        let handle = match self.vfs.load_kernel_from_bytes(data, filename) {
            Ok(h) => h,
            Err(e) => {
                return Err(e);
            },
        };
        proof {
            // the store now holds exactly the ingested bytes under the path
            file_system::lemma_wf_paths_distinct(&self.vfs);
            let m1 = self.vfs@;
            assert(m1.files.last().path == filename@ && m1.files.last().data == dataview);
            assert(m1.files[m1.files.len() - 1].path == filename@);
            assert(file_system::model_contains_path(m1, filename@));
            let i = file_system::model_index_of(m1, filename@);
            assert(m1.files[i].path == filename@);
            assert(i == m1.files.len() - 1);
            assert(m1.files[i].data == dataview);
        }
        match kind {
            KernelType::SPK => {
                match spk_reader::load_spk_file_global(&mut self.spk, filename, &self.vfs) {
                    Ok(()) => {},
                    Err(e) => {
                        return Err(
                            SpiceError::new(
                                SpiceErrorType::KernelLoadError,
                                String::from_str("failed to index the ephemeris kernel"),
                            ).with_details(e.message),
                        );
                    },
                }
            },
            KernelType::TextKernel | KernelType::LSK | KernelType::PCK | KernelType::FK
                | KernelType::IK | KernelType::SCLK | KernelType::MK => {
                let bytes = match self.vfs.get_kernel_data(filename) {
                    Ok(b) => b,
                    Err(e) => {
                        return Err(e);
                    },
                };
                match bytes_as_str(bytes.as_slice()) {
                    Some(text) => {
                        let res = kernel_pool::load_text_kernel(&mut self.pool, text);
                        proof {
                            assert(res is Ok);
                            assert(vstd::utf8::encode_utf8(text@) == bytes@);
                        }
                    },
                    None => {
                        return Err(
                            SpiceError::new(
                                SpiceErrorType::InvalidFormat,
                                String::from_str("text kernel contains invalid UTF-8 data"),
                            ),
                        );
                    },
                }
            },
            _ => {},
        }
        Ok(handle)
    }

    /// Release a kernel from the store.
    pub fn unload_kernel(&mut self, filename: &str) -> (r: SpiceResult<()>)
        requires
            old(self).wf(),
        ensures
            final(self).wf(),
            final(self).vfs@ == file_system::spec_release(old(self).vfs@, filename@).0,
            final(self).pool@ == old(self).pool@,
            final(self).spk.spec_segments() == old(self).spk.spec_segments(),
            match r {
                Ok(()) => file_system::spec_release(old(self).vfs@, filename@).1 == Ok::<
                    (),
                    SpiceErrorType,
                >(()),
                Err(e) => file_system::spec_release(old(self).vfs@, filename@).1 == Err::<
                    (),
                    SpiceErrorType,
                >(e.error_type),
            },
    {
        self.vfs.unload_kernel(filename)
    }

    /// Clear every loaded kernel and the variable pool.
    pub fn clear_kernels(&mut self) -> (r: SpiceResult<()>)
        requires
            old(self).wf(),
        ensures
            final(self).wf(),
            final(self).vfs@ == file_system::model_empty(),
            final(self).pool@ == Map::<Seq<char>, kernel_pool::PoolValueModel>::empty(),
            final(self).spk.spec_segments() == old(self).spk.spec_segments(),
            r is Ok,
    {
        self.vfs.clear_all_kernels();
        self.pool.clear();
        Ok(())
    }

    /// Summary information about a loaded kernel.
    pub fn kernel_info(&self, filename: &str) -> (r: SpiceResult<KernelInfo>)
        requires
            self.wf(),
        ensures
            match r {
                Ok(info) => file_system::model_contains_path(self.vfs@, filename@) && {
                    let f = self.vfs@.files[file_system::model_index_of(self.vfs@, filename@)];
                    info.path@ == f.path && info.kernel_type == f.kernel_type && info.architecture
                        == f.architecture && info.size_bytes == f.data.len() && info.handle
                        == f.handle && info.loaded == f.loaded
                },
                Err(e) => !file_system::model_contains_path(self.vfs@, filename@) && e.error_type
                    == SpiceErrorType::KernelNotFound,
            },
    {
        self.vfs.kernel_info(filename)
    }

    /// The paths of all loaded kernels, in load order.
    pub fn loaded_kernels(&self) -> (r: Vec<String>)
        requires
            self.wf(),
        ensures
            r@.len() == self.vfs@.files.len(),
            forall|i: int| 0 <= i < r@.len() ==> #[trigger] r@[i]@ == self.vfs@.files[i].path,
    {
        self.vfs.list_loaded_kernels()
    }

    /// The number of loaded kernels.
    pub fn kernel_count(&self) -> (r: usize)
        requires
            self.wf(),
        ensures
            r == self.vfs@.files.len(),
    {
        self.vfs.kernel_count()
    }

    /// Whether a kernel is loaded under `filename`.
    pub fn is_kernel_loaded(&self, filename: &str) -> (r: bool)
        requires
            self.wf(),
        ensures
            r == file_system::model_contains_path(self.vfs@, filename@),
    {
        self.vfs.is_kernel_loaded(filename)
    }

    /// Mark a kernel available by path: in an in-memory context the bytes
    /// must already have been furnished, so this checks residence.
    pub fn furnish_kernel(&self, filename: &str) -> (r: SpiceResult<()>)
        requires
            self.wf(),
        ensures
            r is Ok <==> file_system::model_contains_path(self.vfs@, filename@),
            r is Err ==> r->Err_0.error_type == SpiceErrorType::KernelNotFound,
    {
        if self.vfs.is_kernel_loaded(filename) {
            Ok(())
        } else {
            Err(
                SpiceError::new(
                    SpiceErrorType::KernelNotFound,
                    String::from_str("kernel not found in the store"),
                ),
            )
        }
    }
}

/// The tag string of a kernel kind.
pub open spec fn spec_type_tag(t: KernelType) -> Seq<char> {
    match t {
        KernelType::SPK => "SPK"@,
        KernelType::CK => "CK"@,
        KernelType::PCK => "PCK"@,
        KernelType::EK => "EK"@,
        KernelType::IK => "IK"@,
        KernelType::FK => "FK"@,
        KernelType::LSK => "LSK"@,
        KernelType::SCLK => "SCLK"@,
        KernelType::MK => "MK"@,
        KernelType::TextKernel => "TEXT"@,
        KernelType::BinaryPCK => "BPCK"@,
        KernelType::Unknown => "UNKNOWN"@,
    }
}

/// The tag string of a kernel kind.
pub fn type_tag(t: KernelType) -> (r: &'static str)
    ensures
        r@ == spec_type_tag(t),
{
    match t {
        KernelType::SPK => "SPK",
        KernelType::CK => "CK",
        KernelType::PCK => "PCK",
        KernelType::EK => "EK",
        KernelType::IK => "IK",
        KernelType::FK => "FK",
        KernelType::LSK => "LSK",
        KernelType::SCLK => "SCLK",
        KernelType::MK => "MK",
        KernelType::TextKernel => "TEXT",
        KernelType::BinaryPCK => "BPCK",
        KernelType::Unknown => "UNKNOWN",
    }
}

/// The number of loaded kernels whose tag is `kindU` among the first `n`
/// files.
pub open spec fn spec_count_kind(files: Seq<file_system::FileModel>, kindU: Seq<char>, n: int) -> int
    decreases n,
{
    if n <= 0 {
        0
    } else {
        spec_count_kind(files, kindU, n - 1) + if spec_type_tag(files[n - 1].kernel_type)
            == kindU {
            1int
        } else {
            0int
        }
    }
}

/// Information about the `which`-th loaded kernel (in load order): its
/// path, type tag, source (the path itself) and handle. An index at or
/// past the number of loaded kernels fails `InvalidIndex`.
pub fn kernel_data(sys: &KernelSystem, which: usize, _kind: &str) -> (r: SpiceResult<
    (String, String, String, i32),
>)
    requires
        sys.wf(),
    ensures
        match r {
            Ok((file, filetype, source, handle)) => {
                &&& which < sys.vfs@.files.len()
                &&& file@ == sys.vfs@.files[which as int].path
                &&& filetype@ == spec_type_tag(sys.vfs@.files[which as int].kernel_type)
                &&& source@ == sys.vfs@.files[which as int].path
                &&& handle == sys.vfs@.files[which as int].handle
            },
            Err(e) => which >= sys.vfs@.files.len() && e.error_type == SpiceErrorType::InvalidIndex,
        },
{
    let kernels = sys.loaded_kernels();
    if which >= kernels.len() {
        return Err(
            SpiceError::new(SpiceErrorType::InvalidIndex, String::from_str("kernel index out of range")),
        );
    }
    let info = match sys.vfs.kernel_info(kernels[which].as_str()) {
        Ok(info) => info,
        Err(_) => {
            return Err(
                SpiceError::new(
                    SpiceErrorType::InvalidIndex,
                    String::from_str("kernel index out of range"),
                ),
            );
        },
    };
    proof {
        file_system::lemma_wf_paths_distinct(&sys.vfs);
        let i = file_system::model_index_of(sys.vfs@, kernels@[which as int]@);
        assert(sys.vfs@.files[i].path == kernels@[which as int]@);
        assert(sys.vfs@.files[which as int].path == kernels@[which as int]@);
        assert(i == which as int);
    }
    let filetype = String::from_str(type_tag(info.kernel_type));
    let source = info.path.clone();
    Ok((info.path, filetype, source, info.handle))
}

/// The number of loaded kernels of a given type tag; `*` counts them all.
pub fn kernel_total(sys: &KernelSystem, kind: &str) -> (r: SpiceResult<usize>)
    requires
        sys.wf(),
    ensures
        match r {
            Ok(n) => if kind@ == "*"@ {
                n == sys.vfs@.files.len()
            } else {
                n == spec_count_kind(
                    sys.vfs@.files,
                    crate::text::spec_upper_seq(kind@),
                    sys.vfs@.files.len() as int,
                )
            },
            Err(_) => false,
        },
{
    if crate::text::str_eq(kind, "*") {
        return Ok(sys.vfs.kernel_count());
    }
    let kind_upper = crate::text::to_upper(kind);
    let kernels = sys.loaded_kernels();
    let mut count: usize = 0;
    let mut i: usize = 0;
    while i < kernels.len()
        invariant
            sys.wf(),
            i <= kernels@.len(),
            kernels@.len() == sys.vfs@.files.len(),
            forall|j: int|
                0 <= j < kernels@.len() ==> #[trigger] kernels@[j]@ == sys.vfs@.files[j].path,
            kind_upper@ == crate::text::spec_upper_seq(kind@),
            count == spec_count_kind(sys.vfs@.files, kind_upper@, i as int),
            count <= i,
        decreases kernels@.len() - i,
    {
        let info = match sys.vfs.kernel_info(kernels[i].as_str()) {
            Ok(info) => info,
            Err(_) => {
                proof {
                    assert(file_system::model_contains_path(sys.vfs@, kernels@[i as int]@));
                }
                return Err(
                    SpiceError::new(SpiceErrorType::InvalidIndex, String::from_str("state error")),
                );
            },
        };
        proof {
            file_system::lemma_wf_paths_distinct(&sys.vfs);
            let k = file_system::model_index_of(sys.vfs@, kernels@[i as int]@);
            assert(sys.vfs@.files[k].path == kernels@[i as int]@);
            assert(sys.vfs@.files[i as int].path == kernels@[i as int]@);
            assert(k == i as int);
        }
        if crate::text::str_eq(type_tag(info.kernel_type), kind_upper.as_str()) {
            count = count + 1;
        }
        i += 1;
    }
    Ok(count)
}

/// The per-kind count over a prefix never exceeds the count over a longer
/// prefix.
proof fn lemma_count_kind_monotone(
    files: Seq<file_system::FileModel>,
    kindU: Seq<char>,
    a: int,
    b: int,
)
    requires
        0 <= a <= b,
    ensures
        spec_count_kind(files, kindU, a) <= spec_count_kind(files, kindU, b),
    decreases b - a,
{
    if a < b {
        lemma_count_kind_monotone(files, kindU, a, b - 1);
    }
}

/// Information about the `which`-th loaded kernel (0-based, in load order)
/// whose type tag matches `kind` case-insensitively: its path, the
/// case-folded tag, its source (the path itself) and its handle. Fails
/// `InvalidIndex` exactly when fewer than `which + 1` loaded kernels carry
/// the tag.
pub fn kernel_info_by_type(sys: &KernelSystem, kind: &str, which: usize) -> (r: SpiceResult<
    (String, String, String, i32),
>)
    requires
        sys.wf(),
    ensures
        ({
            let kindU = crate::text::spec_upper_seq(kind@);
            let files = sys.vfs@.files;
            match r {
                Ok((file, filetype, source, handle)) => {
                    &&& which < spec_count_kind(files, kindU, files.len() as int)
                    &&& filetype@ == kindU
                    &&& exists|i: int|
                        {
                            &&& 0 <= i < files.len()
                            &&& #[trigger] spec_count_kind(files, kindU, i) == which
                            &&& spec_type_tag(files[i].kernel_type) == kindU
                            &&& file@ == files[i].path
                            &&& source@ == files[i].path
                            &&& handle == files[i].handle
                        }
                },
                Err(e) => which >= spec_count_kind(files, kindU, files.len() as int)
                    && e.error_type == SpiceErrorType::InvalidIndex,
            }
        }),
{
    let kind_upper = crate::text::to_upper(kind);
    let kernels = sys.loaded_kernels();
    let mut seen: usize = 0;
    let mut i: usize = 0;
    while i < kernels.len()
        invariant
            sys.wf(),
            i <= kernels@.len(),
            kernels@.len() == sys.vfs@.files.len(),
            forall|j: int|
                0 <= j < kernels@.len() ==> #[trigger] kernels@[j]@ == sys.vfs@.files[j].path,
            kind_upper@ == crate::text::spec_upper_seq(kind@),
            seen == spec_count_kind(sys.vfs@.files, kind_upper@, i as int),
            seen <= which,
            seen <= i,
        decreases kernels@.len() - i,
    {
        let info = match sys.vfs.kernel_info(kernels[i].as_str()) {
            Ok(info) => info,
            Err(_) => {
                proof {
                    assert(file_system::model_contains_path(sys.vfs@, kernels@[i as int]@));
                    assert(false);
                }
                return Err(
                    SpiceError::new(SpiceErrorType::InvalidIndex, String::from_str("state error")),
                );
            },
        };
        proof {
            file_system::lemma_wf_paths_distinct(&sys.vfs);
            let k = file_system::model_index_of(sys.vfs@, kernels@[i as int]@);
            assert(sys.vfs@.files[k].path == kernels@[i as int]@);
            assert(sys.vfs@.files[i as int].path == kernels@[i as int]@);
            assert(k == i as int);
        }
        if crate::text::str_eq(type_tag(info.kernel_type), kind_upper.as_str()) {
            if seen == which {
                let filetype = kind_upper;
                let source = info.path.clone();
                proof {
                    assert(info.path@ == sys.vfs@.files[i as int].path);
                    assert(spec_count_kind(sys.vfs@.files, kind_upper@, i as int) == which);
                    assert(spec_count_kind(sys.vfs@.files, kind_upper@, i + 1) == which + 1);
                    lemma_count_kind_monotone(
                        sys.vfs@.files,
                        kind_upper@,
                        i + 1,
                        sys.vfs@.files.len() as int,
                    );
                }
                return Ok((info.path, filetype, source, info.handle));
            }
            seen = seen + 1;
        }
        i += 1;
    }
    Err(SpiceError::new(SpiceErrorType::InvalidIndex, String::from_str("kernel index out of range")))
}

/// Load a meta-kernel: the content feeds the variable pool, and each entry
/// of its `KERNELS_TO_LOAD` list that is not yet resident is registered in
/// the store with placeholder bytes (which the store accepts only if they
/// classify; failures are ignored). The segment index is untouched.
pub fn load_meta_kernel(sys: &mut KernelSystem, metakernel_content: &str, _metakernel_path: &str) -> (r:
    SpiceResult<()>)
    requires
        old(sys).wf(),
    ensures
        final(sys).wf(),
        final(sys).pool@ == kernel_pool::spec_load_lines(
            old(sys).pool@,
            kernel_pool::spec_split_lines(metakernel_content@),
            0,
            false,
            Seq::<char>::empty(),
        ),
        final(sys).spk.spec_segments() == old(sys).spk.spec_segments(),
        final(sys).vfs@.files.len() >= old(sys).vfs@.files.len(),
        forall|p: Seq<char>|
            #![trigger file_system::model_contains_path(old(sys).vfs@, p)]
            file_system::model_contains_path(old(sys).vfs@, p) ==> file_system::model_contains_path(
                final(sys).vfs@,
                p,
            ),
        r is Ok,
{
    let res = kernel_pool::load_text_kernel(&mut sys.pool, metakernel_content);
    proof {
        assert(res is Ok);
    }
    let (paths, found) = match sys.pool.get_character("KERNELS_TO_LOAD", 0, 1000) {
        Ok(p) => p,
        Err(_) => {
            return Ok(());
        },
    };
    if !found {
        return Ok(());
    }
    let mut i: usize = 0;
    while i < paths.len()
        invariant
            sys.vfs.wf(),
            sys.pool.wf(),
            sys.spk.wf(),
            i <= paths@.len(),
            sys.pool@ == kernel_pool::spec_load_lines(
                old(sys).pool@,
                kernel_pool::spec_split_lines(metakernel_content@),
                0,
                false,
                Seq::<char>::empty(),
            ),
            sys.spk.spec_segments() == old(sys).spk.spec_segments(),
            sys.vfs@.files.len() >= old(sys).vfs@.files.len(),
            forall|p: Seq<char>|
                #![trigger file_system::model_contains_path(old(sys).vfs@, p)]
                file_system::model_contains_path(old(sys).vfs@, p)
                    ==> file_system::model_contains_path(sys.vfs@, p),
        decreases paths@.len() - i,
    {
        if !sys.vfs.is_kernel_loaded(paths[i].as_str()) {
            if sys.vfs.kernel_count() < file_system::MAX_KERNELS {
                let mut placeholder = String::from_str("Placeholder for meta-kernel reference: ");
                placeholder.append(paths[i].as_str());
                let bytes = crate::text::str_chars(placeholder.as_str());
                let mut data: Vec<u8> = Vec::new();
                let mut k: usize = 0;
                while k < bytes.len()
                    invariant
                        k <= bytes@.len(),
                    decreases bytes@.len() - k,
                {
                    data.push(bytes[k] as u8);
                    k += 1;
                }
                // best-effort placeholder registration; rejection is fine
                if sys.vfs.handle_headroom() {
                    let ghost pre = sys.vfs@;
                    let ghost dv = data@;
                    let _ = sys.vfs.load_kernel_from_bytes(data, paths[i].as_str());
                    proof {
                        assert forall|p: Seq<char>|
                            file_system::model_contains_path(pre, p) implies
                            file_system::model_contains_path(sys.vfs@, p) by {
                            file_system::lemma_ingest_preserves(pre, dv, paths@[i as int]@, p);
                        }
                        file_system::lemma_ingest_preserves(
                            pre,
                            dv,
                            paths@[i as int]@,
                            paths@[i as int]@,
                        );
                    }
                }
            }
        }
        i += 1;
    }
    Ok(())
}

} // verus!
