//! Virtual file ingestion layer: classifies and retains raw kernel byte
//! buffers by logical path, assigns opaque handles, and enforces the
//! capacity and uniqueness invariants of the store.
//!
//! Kernel data is ingested as in-memory byte buffers rather than opened by
//! path, so the store is an explicit context object owned by the caller.

use vstd::prelude::*;

use crate::error_handling::{SpiceError, SpiceErrorType, SpiceResult};

verus! {

/// Maximum number of simultaneously loaded kernels.
pub const MAX_KERNELS: usize = 1000;

/// Maximum kernel file path length, in characters.
pub const MAX_KERNEL_PATH: usize = 1024;

/// File handle type for loaded kernels.
pub type FileHandle = i32;

/// Kernel file kinds recognized by the classifier.
#[derive(Debug, Clone, Copy, PartialEq, Eq, Structural)]
pub enum KernelType {
    /// Spacecraft and planet ephemeris kernel (binary)
    SPK,
    /// C-matrix (pointing) kernel (binary)
    CK,
    /// Planetary constants kernel (text or binary)
    PCK,
    /// Events kernel (binary)
    EK,
    /// Instrument kernel (text)
    IK,
    /// Frame kernel (text)
    FK,
    /// Leapseconds kernel (text)
    LSK,
    /// Spacecraft clock kernel (text)
    SCLK,
    /// Meta-kernel (text)
    MK,
    /// Generic text kernel
    TextKernel,
    /// Binary planetary constants format
    BinaryPCK,
    /// Unknown/unsupported type
    Unknown,
}

/// File architecture of a kernel buffer.
#[derive(Debug, Clone, Copy, PartialEq, Eq, Structural)]
pub enum FileArchitecture {
    /// Double precision array file (binary)
    DAF,
    /// Direct access, segregated file (binary)
    DAS,
    /// Text file (not binary)
    Text,
    /// Transfer format
    XFR,
    /// Unknown architecture
    Unknown,
}

// ---------------------------------------------------------------------------
// Byte-level pattern predicates used by the classifier
// ---------------------------------------------------------------------------

/// The first `sig.len()` bytes of `data` spell `sig` (each character taken as
/// its low byte; all signatures used here are ASCII).
pub open spec fn bytes_start_with(data: Seq<u8>, sig: Seq<char>) -> bool {
    &&& data.len() >= sig.len()
    &&& forall|i: int| 0 <= i < sig.len() ==> data[i] == sig[i] as u8
}

/// `pat` (taken byte-wise) occurs in `data` starting at position `k`.
pub open spec fn bytes_match_at(data: Seq<u8>, pat: Seq<char>, k: int) -> bool {
    &&& 0 <= k
    &&& k + pat.len() <= data.len()
    &&& forall|i: int| 0 <= i < pat.len() ==> data[k + i] == pat[i] as u8
}

/// `pat` (taken byte-wise) occurs somewhere in `data`.
pub open spec fn bytes_contain(data: Seq<u8>, pat: Seq<char>) -> bool {
    exists|k: int| bytes_match_at(data, pat, k)
}

/// Collect the low bytes of a pattern string into a vector.
fn pat_bytes(pat: &str) -> (v: Vec<u8>)
    ensures
        v@.len() == pat@.len(),
        forall|i: int| 0 <= i < pat@.len() ==> v@[i] == pat@[i] as u8,
{
    let n = pat.unicode_len();
    let mut v: Vec<u8> = Vec::new();
    let mut i: usize = 0;
    while i < n
        invariant
            i <= n,
            n == pat@.len(),
            v@.len() == i,
            forall|j: int| 0 <= j < i ==> v@[j] == pat@[j] as u8,
        decreases n - i,
    {
        let c = pat.get_char(i);
        v.push(c as u8);
        i += 1;
    }
    v
}

/// Does `data` begin with the signature `sig`?
pub(crate) fn starts_with_sig(data: &[u8], sig: &str) -> (r: bool)
    ensures
        r == bytes_start_with(data@, sig@),
{
    let p = pat_bytes(sig);
    if data.len() < p.len() {
        return false;
    }
    let mut i: usize = 0;
    while i < p.len()
        invariant
            i <= p.len(),
            data@.len() >= p@.len(),
            p@.len() == sig@.len(),
            forall|j: int| 0 <= j < p@.len() ==> p@[j] == sig@[j] as u8,
            forall|j: int| 0 <= j < i ==> data@[j] == sig@[j] as u8,
        decreases p.len() - i,
    {
        if data[i] != p[i] {
            return false;
        }
        i += 1;
    }
    true
}

/// Does `data` contain the pattern `pat` anywhere?
fn contains_pat(data: &[u8], pat: &str) -> (r: bool)
    ensures
        r == bytes_contain(data@, pat@),
{
    let p = pat_bytes(pat);
    if p.len() == 0 {
        assert(bytes_match_at(data@, pat@, 0));
        return true;
    }
    if data.len() < p.len() {
        assert(forall|k: int| !bytes_match_at(data@, pat@, k));
        return false;
    }
    let last = data.len() - p.len();
    let mut k: usize = 0;
    loop
        invariant
            k <= last + 1,
            data@.len() <= usize::MAX,
            p@.len() > 0,
            last + p@.len() == data@.len(),
            p@.len() == pat@.len(),
            forall|j: int| 0 <= j < p@.len() ==> p@[j] == pat@[j] as u8,
            forall|k2: int| 0 <= k2 < k ==> !bytes_match_at(data@, pat@, k2),
        decreases last + 1 - k,
    {
        if k > last {
            assert(forall|k2: int| !bytes_match_at(data@, pat@, k2));
            return false;
        }
        let mut i: usize = 0;
        let mut hit = true;
        while i < p.len()
            invariant
                i <= p@.len(),
                data@.len() <= usize::MAX,
                k <= last,
                last + p@.len() == data@.len(),
                p@.len() == pat@.len(),
                forall|j: int| 0 <= j < p@.len() ==> p@[j] == pat@[j] as u8,
                hit ==> forall|j: int| 0 <= j < i ==> data@[k + j] == pat@[j] as u8,
                !hit ==> !bytes_match_at(data@, pat@, k as int),
            decreases p@.len() - i,
        {
            if data[k + i] != p[i] {
                assert(data@[k + i] != pat@[i as int] as u8);
                hit = false;
                i = p.len();
            } else {
                i += 1;
            }
        }
        if hit {
            assert(bytes_match_at(data@, pat@, k as int));
            return true;
        }
        k += 1;
    }
}

// ---------------------------------------------------------------------------
// UTF-8 validity (the classifier only treats decodable buffers as text)
// ---------------------------------------------------------------------------

/// Is `b` a UTF-8 continuation byte?
pub open spec fn is_cont_byte(b: u8) -> bool {
    0x80 <= b && b <= 0xBF
}

/// Width of the well-formed UTF-8 sequence starting at `i`, or 0 if the
/// bytes at `i` do not begin a well-formed sequence that fits in `d`.
pub open spec fn utf8_width_at(d: Seq<u8>, i: int) -> int
    recommends
        0 <= i < d.len(),
{
    let b0 = d[i];
    if b0 <= 0x7F {
        1
    } else if b0 < 0xC2 {
        0
    } else if b0 <= 0xDF {
        if i + 2 <= d.len() && is_cont_byte(d[i + 1]) {
            2
        } else {
            0
        }
    } else if b0 <= 0xEF {
        if i + 3 <= d.len() && {
            let b1 = d[i + 1];
            let b1ok = if b0 == 0xE0 {
                0xA0 <= b1 && b1 <= 0xBF
            } else if b0 == 0xED {
                0x80 <= b1 && b1 <= 0x9F
            } else {
                is_cont_byte(b1)
            };
            b1ok && is_cont_byte(d[i + 2])
        } {
            3
        } else {
            0
        }
    } else if b0 <= 0xF4 {
        if i + 4 <= d.len() && {
            let b1 = d[i + 1];
            let b1ok = if b0 == 0xF0 {
                0x90 <= b1 && b1 <= 0xBF
            } else if b0 == 0xF4 {
                0x80 <= b1 && b1 <= 0x8F
            } else {
                is_cont_byte(b1)
            };
            b1ok && is_cont_byte(d[i + 2]) && is_cont_byte(d[i + 3])
        } {
            4
        } else {
            0
        }
    } else {
        0
    }
}

/// The bytes of `d` from position `i` on form a well-formed UTF-8 tail.
pub open spec fn valid_utf8_from(d: Seq<u8>, i: int) -> bool
    decreases d.len() - i,
{
    if i < 0 {
        false
    } else if i >= d.len() {
        true
    } else {
        let w = utf8_width_at(d, i);
        1 <= w && valid_utf8_from(d, i + w)
    }
}

/// The whole buffer decodes as UTF-8 text.
pub open spec fn is_decodable_text(d: Seq<u8>) -> bool {
    valid_utf8_from(d, 0)
}

/// Check that a byte buffer is well-formed UTF-8.
fn is_valid_utf8(d: &[u8]) -> (r: bool)
    ensures
        r == is_decodable_text(d@),
{
    let n = d.len();
    let mut i: usize = 0;
    while i < n
        invariant
            i <= n,
            n == d@.len(),
            valid_utf8_from(d@, 0) == valid_utf8_from(d@, i as int),
        decreases n - i,
    {
        let b0 = d[i];
        let w: usize = if b0 <= 0x7F {
            1
        } else if b0 < 0xC2 {
            0
        } else if b0 <= 0xDF {
            if n - i >= 2 && 0x80 <= d[i + 1] && d[i + 1] <= 0xBF {
                2
            } else {
                0
            }
        } else if b0 <= 0xEF {
            if n - i >= 3 {
                let b1 = d[i + 1];
                let b1ok = if b0 == 0xE0 {
                    0xA0 <= b1 && b1 <= 0xBF
                } else if b0 == 0xED {
                    0x80 <= b1 && b1 <= 0x9F
                } else {
                    0x80 <= b1 && b1 <= 0xBF
                };
                if b1ok && 0x80 <= d[i + 2] && d[i + 2] <= 0xBF {
                    3
                } else {
                    0
                }
            } else {
                0
            }
        } else if b0 <= 0xF4 {
            if n - i >= 4 {
                let b1 = d[i + 1];
                let b1ok = if b0 == 0xF0 {
                    0x90 <= b1 && b1 <= 0xBF
                } else if b0 == 0xF4 {
                    0x80 <= b1 && b1 <= 0x8F
                } else {
                    0x80 <= b1 && b1 <= 0xBF
                };
                if b1ok && 0x80 <= d[i + 2] && d[i + 2] <= 0xBF && 0x80 <= d[i + 3] && d[i + 3]
                    <= 0xBF {
                    4
                } else {
                    0
                }
            } else {
                0
            }
        } else {
            0
        };
        assert(w == utf8_width_at(d@, i as int));
        if w == 0 {
            assert(!valid_utf8_from(d@, i as int));
            return false;
        }
        i += w;
    }
    true
}

// ---------------------------------------------------------------------------
// Classification
// ---------------------------------------------------------------------------

/// A buffer scans as a text kernel when it decodes as UTF-8 and holds at
/// least one of the known marker tokens.
pub open spec fn spec_is_text_kernel(d: Seq<u8>) -> bool {
    &&& is_decodable_text(d)
    &&& {
        ||| bytes_contain(d, "\\begindata"@)
        ||| bytes_contain(d, "\\begintext"@)
        ||| bytes_contain(d, "BODY"@)
        ||| bytes_contain(d, "DELTET"@)
        ||| bytes_contain(d, "LEAP_SECONDS"@)
        ||| bytes_contain(d, "KERNELS_TO_LOAD"@)
        ||| bytes_contain(d, "FRAME_"@)
        ||| bytes_contain(d, "INS"@)
        ||| bytes_contain(d, "SCLK"@)
    }
}

/// The subtype assigned to a buffer already known to scan as a text kernel.
pub open spec fn spec_text_kernel_kind(d: Seq<u8>) -> KernelType {
    if bytes_contain(d, "LEAP_SECONDS"@) || bytes_contain(d, "DELTET"@) {
        KernelType::LSK
    } else if bytes_contain(d, "BODY"@) && bytes_contain(d, "RADII"@) {
        KernelType::PCK
    } else if bytes_contain(d, "FRAME_"@) {
        KernelType::FK
    } else if bytes_contain(d, "INS"@) && bytes_contain(d, "INSTRUMENT"@) {
        KernelType::IK
    } else if bytes_contain(d, "SCLK"@) {
        KernelType::SCLK
    } else if bytes_contain(d, "KERNELS_TO_LOAD"@) {
        KernelType::MK
    } else {
        KernelType::PCK
    }
}

/// The architecture and kind assigned to a raw buffer: an ordered cascade of
/// fixed 8-byte ASCII signatures, then the text-kernel scan, then the
/// transfer-format signature; anything else is unknown.
pub open spec fn spec_detect_file_type(d: Seq<u8>) -> (FileArchitecture, KernelType) {
    if d.len() < 8 {
        (FileArchitecture::Unknown, KernelType::Unknown)
    } else if bytes_start_with(d, "DAF/SPK "@) {
        (FileArchitecture::DAF, KernelType::SPK)
    } else if bytes_start_with(d, "DAF/CK  "@) {
        (FileArchitecture::DAF, KernelType::CK)
    } else if bytes_start_with(d, "DAF/PCK "@) {
        (FileArchitecture::DAF, KernelType::PCK)
    } else if bytes_start_with(d, "DAS/EK  "@) {
        (FileArchitecture::DAS, KernelType::EK)
    } else if bytes_start_with(d, "DAS/    "@) {
        (FileArchitecture::DAS, KernelType::Unknown)
    } else if spec_is_text_kernel(d) {
        (FileArchitecture::Text, spec_text_kernel_kind(d))
    } else if bytes_start_with(d, "'NAIF/XF"@) {
        (FileArchitecture::XFR, KernelType::Unknown)
    } else {
        (FileArchitecture::Unknown, KernelType::Unknown)
    }
}

/// Detect file architecture and kernel kind from a buffer's leading bytes
/// and marker tokens.
pub fn detect_file_type(data: &[u8]) -> (r: (FileArchitecture, KernelType))
    ensures
        r == spec_detect_file_type(data@),
{
    if data.len() < 8 {
        return (FileArchitecture::Unknown, KernelType::Unknown);
    }
    if starts_with_sig(data, "DAF/SPK ") {
        return (FileArchitecture::DAF, KernelType::SPK);
    }
    if starts_with_sig(data, "DAF/CK  ") {
        return (FileArchitecture::DAF, KernelType::CK);
    }
    if starts_with_sig(data, "DAF/PCK ") {
        return (FileArchitecture::DAF, KernelType::PCK);
    }
    if starts_with_sig(data, "DAS/EK  ") {
        return (FileArchitecture::DAS, KernelType::EK);
    }
    if starts_with_sig(data, "DAS/    ") {
        return (FileArchitecture::DAS, KernelType::Unknown);
    }
    if is_valid_utf8(data) {
        let begindata = contains_pat(data, "\\begindata");
        let begintext = contains_pat(data, "\\begintext");
        let body = contains_pat(data, "BODY");
        let deltet = contains_pat(data, "DELTET");
        let leap = contains_pat(data, "LEAP_SECONDS");
        let ktl = contains_pat(data, "KERNELS_TO_LOAD");
        let frame = contains_pat(data, "FRAME_");
        let ins = contains_pat(data, "INS");
        let sclk = contains_pat(data, "SCLK");
        if begindata || begintext || body || deltet || leap || ktl || frame || ins || sclk {
            if leap || deltet {
                return (FileArchitecture::Text, KernelType::LSK);
            }
            if body && contains_pat(data, "RADII") {
                return (FileArchitecture::Text, KernelType::PCK);
            }
            if frame {
                return (FileArchitecture::Text, KernelType::FK);
            }
            if ins && contains_pat(data, "INSTRUMENT") {
                return (FileArchitecture::Text, KernelType::IK);
            }
            if sclk {
                return (FileArchitecture::Text, KernelType::SCLK);
            }
            if ktl {
                return (FileArchitecture::Text, KernelType::MK);
            }
            return (FileArchitecture::Text, KernelType::PCK);
        }
    }
    if starts_with_sig(data, "'NAIF/XF") {
        return (FileArchitecture::XFR, KernelType::Unknown);
    }
    (FileArchitecture::Unknown, KernelType::Unknown)
}

/// Detect only the kernel kind of a buffer.
pub fn detect_kernel_type(data: &[u8]) -> (r: KernelType)
    ensures
        r == spec_detect_file_type(data@).1,
{
    let (_, kernel_type) = detect_file_type(data);
    kernel_type
}

/// Detect only the file architecture of a buffer.
pub fn detect_file_architecture(data: &[u8]) -> (r: FileArchitecture)
    ensures
        r == spec_detect_file_type(data@).0,
{
    let (architecture, _) = detect_file_type(data);
    architecture
}

// ---------------------------------------------------------------------------
// Virtual files and the store
// ---------------------------------------------------------------------------

/// A loaded kernel buffer.
#[derive(Debug, Clone)]
pub struct VirtualFile {
    /// Logical file path/name
    pub path: String,
    /// Raw file data
    pub data: Vec<u8>,
    /// Detected file architecture
    pub architecture: FileArchitecture,
    /// Detected kernel kind
    pub kernel_type: KernelType,
    /// Assigned file handle
    pub handle: FileHandle,
    /// Whether the file is currently loaded
    pub loaded: bool,
}

/// Mathematical model of one loaded kernel buffer.
pub ghost struct FileModel {
    pub path: Seq<char>,
    pub data: Seq<u8>,
    pub architecture: FileArchitecture,
    pub kernel_type: KernelType,
    pub handle: int,
    pub loaded: bool,
}

impl View for VirtualFile {
    type V = FileModel;

    open spec fn view(&self) -> FileModel {
        FileModel {
            path: self.path@,
            data: self.data@,
            architecture: self.architecture,
            kernel_type: self.kernel_type,
            handle: self.handle as int,
            loaded: self.loaded,
        }
    }
}

impl VirtualFile {
    /// Create a new virtual file, classifying its contents.
    pub fn new(path: String, data: Vec<u8>, handle: FileHandle) -> (r: Self)
        ensures
            r.path@ == path@,
            r.data@ == data@,
            (r.architecture, r.kernel_type) == spec_detect_file_type(data@),
            r.handle == handle,
            r.loaded == false,
    {
        let (architecture, kernel_type) = detect_file_type(data.as_slice());
        VirtualFile { path, data, architecture, kernel_type, handle, loaded: false }
    }

    /// File size in bytes.
    pub fn size(&self) -> (r: usize)
        ensures
            r == self.data@.len(),
    {
        self.data.len()
    }

    /// Whether the file has a binary architecture.
    pub fn is_binary(&self) -> (r: bool)
        ensures
            r == (self.architecture == FileArchitecture::DAF || self.architecture
                == FileArchitecture::DAS),
    {
        matches!(self.architecture, FileArchitecture::DAF | FileArchitecture::DAS)
    }

    /// Whether the file is a text file.
    pub fn is_text(&self) -> (r: bool)
        ensures
            r == (self.architecture == FileArchitecture::Text),
    {
        matches!(self.architecture, FileArchitecture::Text)
    }
}

/// Summary information about a loaded kernel.
#[derive(Debug, Clone)]
pub struct KernelInfo {
    /// File path
    pub path: String,
    /// Kernel kind
    pub kernel_type: KernelType,
    /// File architecture
    pub architecture: FileArchitecture,
    /// Size in bytes
    pub size_bytes: usize,
    /// File handle
    pub handle: FileHandle,
    /// Whether currently loaded
    pub loaded: bool,
}

/// Mathematical model of the kernel store: the loaded buffers in load order,
/// and the next handle to assign.
pub ghost struct StoreModel {
    pub files: Seq<FileModel>,
    pub next_handle: int,
}

/// Does the model hold a buffer under path `p`?
pub open spec fn model_contains_path(m: StoreModel, p: Seq<char>) -> bool {
    exists|i: int| 0 <= i < m.files.len() && #[trigger] m.files[i].path == p
}

/// Index of the first buffer under path `p`.
pub open spec fn model_index_of(m: StoreModel, p: Seq<char>) -> int {
    choose|i: int| 0 <= i < m.files.len() && #[trigger] m.files[i].path == p
}

/// All paths in the model are distinct.
pub open spec fn model_paths_distinct(m: StoreModel) -> bool {
    forall|i: int, j: int|
        #![trigger m.files[i].path, m.files[j].path]
        0 <= i < j < m.files.len() ==> m.files[i].path != m.files[j].path
}

/// The empty store.
pub open spec fn model_empty() -> StoreModel {
    StoreModel { files: Seq::empty(), next_handle: 1 }
}

/// The outcome of ingesting `data` under `path`: the store afterwards, and
/// either the assigned handle or the error type.
///
/// The checks run in a fixed order: duplicate path, capacity, path length,
/// empty data, then classification. A buffer whose architecture cannot be
/// classified is rejected after its handle number was consumed, so that
/// handle numbers are never reused.
pub open spec fn spec_ingest(m: StoreModel, data: Seq<u8>, path: Seq<char>) -> (
    StoreModel,
    Result<int, SpiceErrorType>,
) {
    if model_contains_path(m, path) {
        (m, Err(SpiceErrorType::KernelAlreadyLoaded))
    } else if m.files.len() >= MAX_KERNELS {
        (m, Err(SpiceErrorType::TooManyKernels))
    } else if path.len() > MAX_KERNEL_PATH {
        (m, Err(SpiceErrorType::InvalidKernelPath))
    } else if data.len() == 0 {
        (m, Err(SpiceErrorType::InvalidKernelData))
    } else {
        let (architecture, kernel_type) = spec_detect_file_type(data);
        if architecture == FileArchitecture::Unknown {
            (
                StoreModel { files: m.files, next_handle: m.next_handle + 1 },
                Err(SpiceErrorType::InvalidKernelData),
            )
        } else {
            (
                StoreModel {
                    files: m.files.push(
                        FileModel {
                            path,
                            data,
                            architecture,
                            kernel_type,
                            handle: m.next_handle,
                            loaded: true,
                        },
                    ),
                    next_handle: m.next_handle + 1,
                },
                Ok(m.next_handle),
            )
        }
    }
}

/// The outcome of releasing `path`: the store afterwards, and whether the
/// path was found. Removes the first (and, under distinct paths, only)
/// buffer stored under `path`.
pub open spec fn spec_release(m: StoreModel, path: Seq<char>) -> (
    StoreModel,
    Result<(), SpiceErrorType>,
) {
    if model_contains_path(m, path) {
        let i = model_index_of(m, path);
        (
            StoreModel {
                files: m.files.subrange(0, i) + m.files.subrange(i + 1, m.files.len() as int),
                next_handle: m.next_handle,
            },
            Ok(()),
        )
    } else {
        (m, Err(SpiceErrorType::KernelNotFound))
    }
}

/// Virtual file system: the kernel store.
#[derive(Debug)]
pub struct VirtualFileSystem {
    /// Loaded files, in load order.
    files: Vec<VirtualFile>,
    /// Paths of the loaded files, in load order (mirrors `files`).
    loaded_kernels: Vec<String>,
    /// Next available file handle.
    next_handle: FileHandle,
}

impl View for VirtualFileSystem {
    type V = StoreModel;

    closed spec fn view(&self) -> StoreModel {
        StoreModel {
            files: self.files@.map_values(|f: VirtualFile| f@),
            next_handle: self.next_handle as int,
        }
    }
}

impl VirtualFileSystem {
    /// Structural invariant of the store: the path list mirrors the files,
    /// paths are distinct, handles are distinct and below `next_handle`, and
    /// every retained buffer is non-empty, classified, loaded, and within
    /// the path and capacity limits.
    pub closed spec fn wf(&self) -> bool {
        &&& self.loaded_kernels@.len() == self.files@.len()
        &&& forall|i: int|
            0 <= i < self.files@.len() ==> #[trigger] self.loaded_kernels@[i]@
                == self.files@[i].path@
        &&& model_paths_distinct(self@)
        &&& forall|i: int, j: int|
            #![trigger self.files@[i].handle, self.files@[j].handle]
            0 <= i < j < self.files@.len() ==> self.files@[i].handle != self.files@[j].handle
        &&& forall|i: int|
            0 <= i < self.files@.len() ==> 1 <= #[trigger] self.files@[i].handle < self.next_handle
        &&& forall|i: int| 0 <= i < self.files@.len() ==> #[trigger] self.files@[i].loaded == true
        &&& forall|i: int|
            0 <= i < self.files@.len() ==> (#[trigger] self.files@[i].architecture,
            self.files@[i].kernel_type) == spec_detect_file_type(self.files@[i].data@)
        &&& forall|i: int|
            0 <= i < self.files@.len() ==> (#[trigger] self.files@[i].data@.len() > 0
                && self.files@[i].path@.len() <= MAX_KERNEL_PATH && self.files@[i].architecture
                != FileArchitecture::Unknown)
        &&& self.files@.len() <= MAX_KERNELS
        &&& self.next_handle >= 1
    }

    /// Create a new, empty store.
    pub fn new() -> (r: Self)
        ensures
            r.wf(),
            r@ == model_empty(),
    {
        let r = VirtualFileSystem { files: Vec::new(), loaded_kernels: Vec::new(), next_handle: 1 };
        proof {
            assert(r@.files =~= model_empty().files);
        }
        r
    }

    /// Index of the file stored under `path`, if any.
    fn find_index(&self, path: &str) -> (r: Option<usize>)
        requires
            self.wf(),
        ensures
            match r {
                Some(i) => i < self@.files.len() && self@.files[i as int].path == path@,
                None => !model_contains_path(self@, path@),
            },
    {
        let mut i: usize = 0;
        while i < self.files.len()
            invariant
                self.wf(),
                i <= self.files@.len(),
                forall|j: int| 0 <= j < i ==> #[trigger] self.files@[j].path@ != path@,
            decreases self.files@.len() - i,
        {
            if crate::text::str_eq(self.files[i].path.as_str(), path) {
                return Some(i);
            }
            i += 1;
        }
        None
    }

    /// Ingest a kernel buffer under a logical path.
    ///
    /// Fails `KernelAlreadyLoaded` if the path is present, `TooManyKernels`
    /// at capacity, `InvalidKernelPath` for an over-long path, and
    /// `InvalidKernelData` for an empty or unclassifiable buffer. On success
    /// records the buffer as loaded and returns a fresh handle.
    pub fn load_kernel_from_bytes(&mut self, data: Vec<u8>, path: &str) -> (r: SpiceResult<
        FileHandle,
    >)
        requires
            old(self).wf(),
            old(self)@.next_handle < i32::MAX,
        ensures
            final(self).wf(),
            final(self)@ == spec_ingest(old(self)@, data@, path@).0,
            match r {
                Ok(h) => spec_ingest(old(self)@, data@, path@).1 == Ok::<int, SpiceErrorType>(
                    h as int,
                ),
                Err(e) => spec_ingest(old(self)@, data@, path@).1 == Err::<int, SpiceErrorType>(
                    e.error_type,
                ),
            },
            // a path already present is rejected and the store is unchanged
            model_contains_path(old(self)@, path@) ==> r is Err && r->Err_0.error_type
                == SpiceErrorType::KernelAlreadyLoaded && final(self)@ == old(self)@,
            // at capacity, any fresh path is rejected and the store is unchanged
            !model_contains_path(old(self)@, path@) && old(self)@.files.len() >= MAX_KERNELS
                ==> r is Err && r->Err_0.error_type == SpiceErrorType::TooManyKernels
                && final(self)@ == old(self)@,
            // below capacity, every classifiable fresh buffer is accepted
            !model_contains_path(old(self)@, path@) && old(self)@.files.len() < MAX_KERNELS
                && path@.len() <= MAX_KERNEL_PATH && data@.len() > 0 && spec_detect_file_type(
                data@,
            ).0 != FileArchitecture::Unknown ==> r is Ok && r->Ok_0 == old(self)@.next_handle
                && final(self)@.files.len() == old(self)@.files.len() + 1 && model_contains_path(
                final(self)@,
                path@,
            ),
    {
        let ghost m0 = self@;
        if let Some(_) = self.find_index(path) {
            return Err(
                SpiceError::new(
                    SpiceErrorType::KernelAlreadyLoaded,
                    String::from_str("kernel is already loaded"),
                ),
            );
        }
        if self.files.len() >= MAX_KERNELS {
            return Err(
                SpiceError::new(
                    SpiceErrorType::TooManyKernels,
                    String::from_str("maximum number of kernels exceeded"),
                ),
            );
        }
        if path.unicode_len() > MAX_KERNEL_PATH {
            return Err(
                SpiceError::new(
                    SpiceErrorType::InvalidKernelPath,
                    String::from_str("kernel path too long"),
                ),
            );
        }
        if data.len() == 0 {
            return Err(
                SpiceError::new(
                    SpiceErrorType::InvalidKernelData,
                    String::from_str("kernel data cannot be empty"),
                ),
            );
        }
        let handle = self.next_handle;
        self.next_handle = self.next_handle + 1;
        let mut vfile = VirtualFile::new(String::from_str(path), data, handle);
        if matches!(vfile.architecture, FileArchitecture::Unknown) {
            assert(self@.files =~= spec_ingest(m0, vfile.data@, path@).0.files);
            return Err(
                SpiceError::new(
                    SpiceErrorType::InvalidKernelData,
                    String::from_str("unrecognized file format"),
                ),
            );
        }
        vfile.loaded = true;
        let ghost dataview = vfile.data@;
        self.loaded_kernels.push(String::from_str(path));
        self.files.push(vfile);
        proof {
            assert(self@.files =~= spec_ingest(m0, dataview, path@).0.files);
            assert(self@.files[self@.files.len() - 1].path == path@);
        }
        Ok(handle)
    }

    /// Release the kernel stored under `path`; fails `KernelNotFound` if it
    /// is not present.
    pub fn unload_kernel(&mut self, path: &str) -> (r: SpiceResult<()>)
        requires
            old(self).wf(),
        ensures
            final(self).wf(),
            final(self)@ == spec_release(old(self)@, path@).0,
            match r {
                Ok(()) => spec_release(old(self)@, path@).1 == Ok::<(), SpiceErrorType>(()),
                Err(e) => spec_release(old(self)@, path@).1 == Err::<(), SpiceErrorType>(
                    e.error_type,
                ),
            },
    {
        let ghost m0 = self@;
        match self.find_index(path) {
            Some(i) => {
                proof {
                    assert(model_contains_path(m0, path@));
                    let k = model_index_of(m0, path@);
                    assert(m0.files[k].path == path@);
                    assert(k == i as int);
                }
                let _ = self.files.remove(i);
                let _ = self.loaded_kernels.remove(i);
                proof {
                    assert(self@.files =~= spec_release(m0, path@).0.files);
                }
                Ok(())
            },
            None => Err(
                SpiceError::new(
                    SpiceErrorType::KernelNotFound,
                    String::from_str("kernel is not loaded"),
                ),
            ),
        }
    }

    /// Remove every kernel and reset handle allocation to its initial value.
    pub fn clear_all_kernels(&mut self)
        ensures
            final(self).wf(),
            final(self)@ == model_empty(),
    {
        self.files.clear();
        self.loaded_kernels.clear();
        self.next_handle = 1;
        proof {
            assert(self@.files =~= model_empty().files);
        }
    }

    /// The file stored under `path`, if any.
    pub fn get_file(&self, path: &str) -> (r: Option<&VirtualFile>)
        requires
            self.wf(),
        ensures
            match r {
                Some(f) => model_contains_path(self@, path@) && f@ == self@.files[model_index_of(
                    self@,
                    path@,
                )],
                None => !model_contains_path(self@, path@),
            },
    {
        match self.find_index(path) {
            Some(i) => {
                proof {
                    let k = model_index_of(self@, path@);
                    assert(self@.files[k].path == path@);
                    assert(k == i as int);
                }
                Some(&self.files[i])
            },
            None => None,
        }
    }

    /// The file assigned `handle`, if any.
    pub fn get_file_by_handle(&self, handle: FileHandle) -> (r: Option<&VirtualFile>)
        requires
            self.wf(),
        ensures
            match r {
                Some(f) => exists|i: int|
                    0 <= i < self@.files.len() && #[trigger] self@.files[i] == f@
                        && f@.handle == handle as int,
                None => forall|i: int|
                    0 <= i < self@.files.len() ==> #[trigger] self@.files[i].handle != handle as int,
            },
    {
        let mut i: usize = 0;
        while i < self.files.len()
            invariant
                self.wf(),
                i <= self.files@.len(),
                forall|j: int| 0 <= j < i ==> #[trigger] self.files@[j].handle != handle,
            decreases self.files@.len() - i,
        {
            if self.files[i].handle == handle {
                proof {
                    assert(self@.files[i as int] == self.files@[i as int]@);
                }
                return Some(&self.files[i]);
            }
            i += 1;
        }
        None
    }

    /// The list of loaded kernel paths, in load order.
    pub fn loaded_kernel_paths(&self) -> (r: &[String])
        requires
            self.wf(),
        ensures
            r@.len() == self@.files.len(),
            forall|i: int| 0 <= i < r@.len() ==> #[trigger] r@[i]@ == self@.files[i].path,
    {
        self.loaded_kernels.as_slice()
    }

    /// Whether another handle can still be assigned.
    pub fn handle_headroom(&self) -> (r: bool)
        ensures
            r == (self@.next_handle < i32::MAX),
    {
        self.next_handle < i32::MAX
    }

    /// The number of loaded kernels.
    pub fn kernel_count(&self) -> (r: usize)
        requires
            self.wf(),
        ensures
            r == self@.files.len(),
    {
        self.loaded_kernels.len()
    }

    /// Whether a kernel is loaded under `path`.
    pub fn is_kernel_loaded(&self, path: &str) -> (r: bool)
        requires
            self.wf(),
        ensures
            r == model_contains_path(self@, path@),
    {
        match self.find_index(path) {
            Some(_) => true,
            None => false,
        }
    }

    /// The paths of all loaded kernels, in load order.
    pub fn list_loaded_kernels(&self) -> (r: Vec<String>)
        requires
            self.wf(),
        ensures
            r@.len() == self@.files.len(),
            forall|i: int| 0 <= i < r@.len() ==> #[trigger] r@[i]@ == self@.files[i].path,
    {
        let mut out: Vec<String> = Vec::new();
        let mut i: usize = 0;
        while i < self.files.len()
            invariant
                self.wf(),
                i <= self.files@.len(),
                out@.len() == i,
                forall|j: int| 0 <= j < i ==> #[trigger] out@[j]@ == self@.files[j].path,
            decreases self.files@.len() - i,
        {
            out.push(self.files[i].path.clone());
            i += 1;
        }
        out
    }

    /// A copy of the raw bytes stored under `path`; fails `KernelNotFound`
    /// if the path is not present.
    pub fn get_kernel_data(&self, path: &str) -> (r: SpiceResult<Vec<u8>>)
        requires
            self.wf(),
        ensures
            match r {
                Ok(d) => model_contains_path(self@, path@) && d@ == self@.files[model_index_of(
                    self@,
                    path@,
                )].data,
                Err(e) => !model_contains_path(self@, path@) && e.error_type
                    == SpiceErrorType::KernelNotFound,
            },
    {
        match self.get_file(path) {
            Some(f) => Ok(copy_bytes(&f.data)),
            None => Err(
                SpiceError::new(SpiceErrorType::KernelNotFound, String::from_str("kernel not found")),
            ),
        }
    }

    /// Summary information about the kernel stored under `path`; fails
    /// `KernelNotFound` if the path is not present.
    pub fn kernel_info(&self, path: &str) -> (r: SpiceResult<KernelInfo>)
        requires
            self.wf(),
        ensures
            match r {
                Ok(info) => model_contains_path(self@, path@) && {
                    let f = self@.files[model_index_of(self@, path@)];
                    info.path@ == f.path && info.kernel_type == f.kernel_type && info.architecture
                        == f.architecture && info.size_bytes == f.data.len() && info.handle
                        == f.handle && info.loaded == f.loaded
                },
                Err(e) => !model_contains_path(self@, path@) && e.error_type
                    == SpiceErrorType::KernelNotFound,
            },
    {
        match self.get_file(path) {
            Some(f) => Ok(
                KernelInfo {
                    path: f.path.clone(),
                    kernel_type: f.kernel_type,
                    architecture: f.architecture,
                    size_bytes: f.data.len(),
                    handle: f.handle,
                    loaded: f.loaded,
                },
            ),
            None => Err(
                SpiceError::new(SpiceErrorType::KernelNotFound, String::from_str("kernel not found")),
            ),
        }
    }

    /// Alias of `kernel_info`.
    pub fn get_kernel_info(&self, path: &str) -> (r: SpiceResult<KernelInfo>)
        requires
            self.wf(),
        ensures
            match r {
                Ok(info) => model_contains_path(self@, path@) && {
                    let f = self@.files[model_index_of(self@, path@)];
                    info.path@ == f.path && info.kernel_type == f.kernel_type && info.architecture
                        == f.architecture && info.size_bytes == f.data.len() && info.handle
                        == f.handle && info.loaded == f.loaded
                },
                Err(e) => !model_contains_path(self@, path@) && e.error_type
                    == SpiceErrorType::KernelNotFound,
            },
    {
        self.kernel_info(path)
    }
}

/// Copy a byte vector.
fn copy_bytes(v: &Vec<u8>) -> (r: Vec<u8>)
    ensures
        r@ == v@,
{
    let mut out: Vec<u8> = Vec::new();
    let mut i: usize = 0;
    while i < v.len()
        invariant
            i <= v@.len(),
            out@ == v@.subrange(0, i as int),
        decreases v@.len() - i,
    {
        out.push(v[i]);
        i += 1;
    }
    proof {
        assert(out@ =~= v@);
    }
    out
}

/// Ingestion never removes a buffer: the store can only keep or grow its
/// file list, and every path present before stays present.
pub proof fn lemma_ingest_preserves(m: StoreModel, data: Seq<u8>, path: Seq<char>, p: Seq<char>)
    ensures
        spec_ingest(m, data, path).0.files.len() >= m.files.len(),
        model_contains_path(m, p) ==> model_contains_path(spec_ingest(m, data, path).0, p),
{
    let m1 = spec_ingest(m, data, path).0;
    if model_contains_path(m, p) {
        let i = choose|i: int| 0 <= i < m.files.len() && #[trigger] m.files[i].path == p;
        assert(m1.files[i].path == p);
    }
}

/// A well-formed store has pairwise distinct paths.
pub proof fn lemma_wf_paths_distinct(v: &VirtualFileSystem)
    requires
        v.wf(),
    ensures
        model_paths_distinct(v@),
{
}

// ---------------------------------------------------------------------------
// Laws of the store
// ---------------------------------------------------------------------------

/// Ingesting a path that an earlier ingestion already placed in the store,
/// without an intervening release, fails `KernelAlreadyLoaded` and leaves
/// the store — in particular its count — unchanged.
pub proof fn lemma_ingest_duplicate_rejected(
    m: StoreModel,
    d1: Seq<u8>,
    d2: Seq<u8>,
    p: Seq<char>,
)
    requires
        spec_ingest(m, d1, p).1 is Ok,
    ensures
        ({
            let m1 = spec_ingest(m, d1, p).0;
            &&& spec_ingest(m1, d2, p).1 == Err::<int, SpiceErrorType>(
                SpiceErrorType::KernelAlreadyLoaded,
            )
            &&& spec_ingest(m1, d2, p).0 == m1
            &&& spec_ingest(m1, d2, p).0.files.len() == m1.files.len()
        }),
{
    let m1 = spec_ingest(m, d1, p).0;
    assert(m1.files[m1.files.len() - 1].path == p);
    assert(model_contains_path(m1, p));
}

/// Below capacity, ingestion of a fresh, valid buffer succeeds and occupies
/// exactly one slot.
pub proof fn lemma_ingest_succeeds(m: StoreModel, d: Seq<u8>, p: Seq<char>)
    requires
        !model_contains_path(m, p),
        m.files.len() < MAX_KERNELS,
        p.len() <= MAX_KERNEL_PATH,
        d.len() > 0,
        spec_detect_file_type(d).0 != FileArchitecture::Unknown,
    ensures
        spec_ingest(m, d, p).1 is Ok,
        spec_ingest(m, d, p).0.files.len() == m.files.len() + 1,
{
}

/// At capacity, ingestion of any fresh path fails `TooManyKernels` and the
/// store is unchanged; releasing one kernel frees exactly one slot, after
/// which a fresh, valid buffer is accepted again.
pub proof fn lemma_ingest_capacity(
    m: StoreModel,
    d: Seq<u8>,
    p: Seq<char>,
    q: Seq<char>,
)
    requires
        !model_contains_path(m, p),
        m.files.len() >= MAX_KERNELS,
        model_contains_path(m, q),
        p != q,
        p.len() <= MAX_KERNEL_PATH,
        d.len() > 0,
        spec_detect_file_type(d).0 != FileArchitecture::Unknown,
    ensures
        spec_ingest(m, d, p).1 == Err::<int, SpiceErrorType>(SpiceErrorType::TooManyKernels),
        spec_ingest(m, d, p).0 == m,
        ({
            let m1 = spec_release(m, q).0;
            &&& m1.files.len() == m.files.len() - 1
            &&& m.files.len() == MAX_KERNELS ==> spec_ingest(m1, d, p).1 is Ok
        }),
{
    let m1 = spec_release(m, q).0;
    let i = model_index_of(m, q);
    assert(m1.files.len() == m.files.len() - 1);
    if m.files.len() == MAX_KERNELS {
        assert forall|j: int| 0 <= j < m1.files.len() implies #[trigger] m1.files[j].path != p by {
            if j < i {
                assert(m1.files[j] == m.files[j]);
            } else {
                assert(m1.files[j] == m.files[j + 1]);
            }
            assert(!model_contains_path(m, p));
        }
        assert(!model_contains_path(m1, p));
    }
}

/// Releasing a path removes it, and releasing it again fails
/// `KernelNotFound`; clearing always leaves the store empty.
pub proof fn lemma_release_idempotent_failure(m: StoreModel, p: Seq<char>)
    requires
        model_paths_distinct(m),
        spec_release(m, p).1 is Ok,
    ensures
        ({
            let m1 = spec_release(m, p).0;
            &&& spec_release(m1, p).1 == Err::<(), SpiceErrorType>(SpiceErrorType::KernelNotFound)
            &&& spec_release(m1, p).0 == m1
            &&& model_empty().files.len() == 0
        }),
{
    let m1 = spec_release(m, p).0;
    let i = model_index_of(m, p);
    assert(0 <= i < m.files.len() && m.files[i].path == p);
    assert forall|j: int| 0 <= j < m1.files.len() implies #[trigger] m1.files[j].path != p by {
        if j < i {
            assert(m1.files[j] == m.files[j]);
            assert(m.files[j].path != m.files[i].path);
        } else {
            assert(m1.files[j] == m.files[j + 1]);
            assert(m.files[j + 1].path != m.files[i].path);
        }
    }
    assert(!model_contains_path(m1, p));
}

// ---------------------------------------------------------------------------
// Free helpers over the store
// ---------------------------------------------------------------------------

/// Read `length` bytes from the file under `path` starting at `offset`.
/// Fails `KernelNotFound` for an unknown path and `FileReadError` when the
/// offset is at or past the end; a length past the end is truncated.
pub fn read_file_bytes(
    vfs: &VirtualFileSystem,
    path: &str,
    offset: usize,
    length: usize,
) -> (r: SpiceResult<Vec<u8>>)
    requires
        vfs.wf(),
        offset + length <= usize::MAX,
    ensures
        match r {
            Ok(d) => {
                &&& model_contains_path(vfs@, path@)
                &&& {
                    let f = vfs@.files[model_index_of(vfs@, path@)];
                    &&& offset < f.data.len()
                    &&& d@ == f.data.subrange(
                        offset as int,
                        if offset + length <= f.data.len() {
                            offset + length
                        } else {
                            f.data.len() as int
                        },
                    )
                }
            },
            Err(e) => {
                &&& (e.error_type == SpiceErrorType::KernelNotFound <==> !model_contains_path(
                    vfs@,
                    path@,
                ))
                &&& (model_contains_path(vfs@, path@) ==> e.error_type
                    == SpiceErrorType::FileReadError && offset >= vfs@.files[model_index_of(
                    vfs@,
                    path@,
                )].data.len())
            },
        },
{
    match vfs.get_file(path) {
        Some(f) => {
            if offset >= f.data.len() {
                return Err(
                    SpiceError::new(
                        SpiceErrorType::FileReadError,
                        String::from_str("offset beyond file size"),
                    ),
                );
            }
            let end = if offset + length <= f.data.len() {
                offset + length
            } else {
                f.data.len()
            };
            let mut out: Vec<u8> = Vec::new();
            let mut i: usize = offset;
            while i < end
                invariant
                    offset <= i <= end <= f.data@.len(),
                    out@ == f.data@.subrange(offset as int, i as int),
                decreases end - i,
            {
                out.push(f.data[i]);
                i += 1;
            }
            proof {
                assert(out@ =~= f.data@.subrange(offset as int, end as int));
            }
            Ok(out)
        },
        None => Err(
            SpiceError::new(SpiceErrorType::KernelNotFound, String::from_str("file not found")),
        ),
    }
}

/// The little-endian 64-bit word at byte offset `off`.
pub open spec fn spec_le_word64(d: Seq<u8>, off: int) -> u64
    recommends
        0 <= off,
        off + 8 <= d.len(),
{
    (d[off] + d[off + 1] * 0x100 + d[off + 2] * 0x10000 + d[off + 3] * 0x1000000 + d[off + 4]
        * 0x100000000 + d[off + 5] * 0x10000000000 + d[off + 6] * 0x1000000000000 + d[off + 7]
        * 0x100000000000000) as u64
}

/// The little-endian 32-bit integer at byte offset `off`.
pub open spec fn spec_le_int32(d: Seq<u8>, off: int) -> i32
    recommends
        0 <= off,
        off + 4 <= d.len(),
{
    (d[off] + d[off + 1] * 0x100 + d[off + 2] * 0x10000 + d[off + 3] * 0x1000000) as i32
}

/// Decode the little-endian 64-bit word at byte offset `off`.
pub fn le_word64_at(d: &[u8], off: usize) -> (r: u64)
    requires
        off + 8 <= d@.len(),
    ensures
        r == spec_le_word64(d@, off as int),
{
    (d[off] as u64) + (d[off + 1] as u64) * 0x100 + (d[off + 2] as u64) * 0x10000 + (d[off
        + 3] as u64) * 0x1000000 + (d[off + 4] as u64) * 0x100000000 + (d[off + 5] as u64)
        * 0x10000000000 + (d[off + 6] as u64) * 0x1000000000000 + (d[off + 7] as u64)
        * 0x100000000000000
}

/// Decode the little-endian 32-bit integer at byte offset `off`.
pub fn le_int32_at(d: &[u8], off: usize) -> (r: i32)
    requires
        off + 4 <= d@.len(),
    ensures
        r == spec_le_int32(d@, off as int),
{
    let w: u32 = (d[off] as u32) + (d[off + 1] as u32) * 0x100 + (d[off + 2] as u32) * 0x10000 + (
    d[off + 3] as u32) * 0x1000000;
    w as i32
}

/// The sequence of `count` little-endian 64-bit words of `d` starting at
/// byte offset `offset`.
pub open spec fn spec_words64(d: Seq<u8>, offset: int, count: int) -> Seq<u64> {
    Seq::new(count as nat, |i: int| spec_le_word64(d, offset + 8 * i))
}

/// The sequence of `count` little-endian 32-bit integers of `d` starting at
/// byte offset `offset`.
pub open spec fn spec_ints32(d: Seq<u8>, offset: int, count: int) -> Seq<i32> {
    Seq::new(count as nat, |i: int| spec_le_int32(d, offset + 4 * i))
}

/// Reinterpret `count` 8-byte little-endian words of `data`, starting at
/// byte `offset`, as double-precision bit patterns. Fails
/// `InvalidKernelData` when the range does not lie within `data`.
pub fn read_doubles_from_data(data: &[u8], offset: usize, count: usize) -> (r: SpiceResult<
    Vec<u64>,
>)
    requires
        offset + count * 8 <= usize::MAX,
    ensures
        match r {
            Ok(v) => offset + count * 8 <= data@.len() && v@ == spec_words64(
                data@,
                offset as int,
                count as int,
            ),
            Err(e) => offset + count * 8 > data@.len() && e.error_type
                == SpiceErrorType::InvalidKernelData,
        },
{
    let byte_length = count * 8;
    if offset + byte_length > data.len() {
        return Err(
            SpiceError::new(
                SpiceErrorType::InvalidKernelData,
                String::from_str("read range extends beyond data"),
            ),
        );
    }
    let mut out: Vec<u64> = Vec::new();
    let mut i: usize = 0;
    while i < count
        invariant
            i <= count,
            offset + count * 8 <= usize::MAX,
            offset + count * 8 <= data@.len(),
            out@.len() == i,
            forall|j: int|
                0 <= j < i ==> #[trigger] out@[j] == spec_le_word64(data@, offset + 8 * j),
        decreases count - i,
    {
        assert(offset + 8 * (i as int) + 8 <= offset + count * 8);
        out.push(le_word64_at(data, offset + 8 * i));
        i += 1;
    }
    proof {
        assert(out@ =~= spec_words64(data@, offset as int, count as int));
    }
    Ok(out)
}

/// Reinterpret `count` 4-byte little-endian records of `data`, starting at
/// byte `offset`, as integers. Fails `InvalidKernelData` when the range
/// does not lie within `data`.
pub fn read_integers_from_data(data: &[u8], offset: usize, count: usize) -> (r: SpiceResult<
    Vec<i32>,
>)
    requires
        offset + count * 4 <= usize::MAX,
    ensures
        match r {
            Ok(v) => offset + count * 4 <= data@.len() && v@ == spec_ints32(
                data@,
                offset as int,
                count as int,
            ),
            Err(e) => offset + count * 4 > data@.len() && e.error_type
                == SpiceErrorType::InvalidKernelData,
        },
{
    let byte_length = count * 4;
    if offset + byte_length > data.len() {
        return Err(
            SpiceError::new(
                SpiceErrorType::InvalidKernelData,
                String::from_str("read range extends beyond data"),
            ),
        );
    }
    let mut out: Vec<i32> = Vec::new();
    let mut i: usize = 0;
    while i < count
        invariant
            i <= count,
            offset + count * 4 <= usize::MAX,
            offset + count * 4 <= data@.len(),
            out@.len() == i,
            forall|j: int|
                0 <= j < i ==> #[trigger] out@[j] == spec_le_int32(data@, offset + 4 * j),
        decreases count - i,
    {
        assert(offset + 4 * (i as int) + 4 <= offset + count * 4);
        out.push(le_int32_at(data, offset + 4 * i));
        i += 1;
    }
    proof {
        assert(out@ =~= spec_ints32(data@, offset as int, count as int));
    }
    Ok(out)
}

/// Read `count` double-precision words (as bit patterns) from the file
/// under `path`, starting at word address `start_address`. Fails
/// `KernelNotFound` for an unknown path and `FileReadError` when the word
/// range does not lie within the buffer; succeeds exactly otherwise.
pub fn read_doubles(
    vfs: &VirtualFileSystem,
    path: &str,
    start_address: usize,
    count: usize,
) -> (r: SpiceResult<Vec<u64>>)
    requires
        vfs.wf(),
        start_address * 8 + count * 8 <= usize::MAX,
    ensures
        ({
            let present = model_contains_path(vfs@, path@);
            let f = vfs@.files[model_index_of(vfs@, path@)];
            match r {
                Ok(v) => {
                    &&& present
                    &&& start_address * 8 < f.data.len()
                    &&& start_address * 8 + count * 8 <= f.data.len()
                    &&& v@ == spec_words64(f.data, start_address * 8, count as int)
                },
                Err(e) => {
                    &&& (e.error_type == SpiceErrorType::KernelNotFound <==> !present)
                    &&& (present ==> e.error_type == SpiceErrorType::FileReadError && (
                    start_address * 8 >= f.data.len() || start_address * 8 + count * 8
                        > f.data.len()))
                },
            }
        }),
{
    let offset = start_address * 8;
    let byte_length = count * 8;
    let bytes = match read_file_bytes(vfs, path, offset, byte_length) {
        Ok(b) => b,
        Err(e) => {
            return Err(e);
        },
    };
    if bytes.len() < byte_length {
        return Err(
            SpiceError::new(SpiceErrorType::FileReadError, String::from_str("insufficient data")),
        );
    }
    proof {
        let f = vfs@.files[model_index_of(vfs@, path@)];
        assert(offset + byte_length <= f.data.len());
    }
    let r = read_doubles_from_data(bytes.as_slice(), 0, count);
    match r {
        Ok(v) => {
            proof {
                let f = vfs@.files[model_index_of(vfs@, path@)];
                assert forall|j: int| 0 <= j < count implies #[trigger] v@[j] == spec_le_word64(
                    f.data,
                    offset + 8 * j,
                ) by {
                    assert(v@[j] == spec_le_word64(bytes@, 8 * j));
                    assert forall|b: int|
                        #![trigger bytes@[8 * j + b]]
                        0 <= b < 8 implies bytes@[8 * j + b] == f.data[offset + 8 * j + b] by {
                        assert(bytes@[8 * j + b] == f.data.subrange(
                            offset as int,
                            offset + byte_length,
                        )[8 * j + b]);
                    }
                }
                assert(v@ =~= spec_words64(f.data, offset as int, count as int));
            }
            Ok(v)
        },
        Err(e) => Err(e),
    }
}

/// Read `count` integers from the file under `path`, starting at integer
/// address `start_address` (4 bytes per record). Fails `KernelNotFound`
/// for an unknown path and `FileReadError` when the record range does not
/// lie within the buffer; succeeds exactly otherwise.
pub fn read_integers(
    vfs: &VirtualFileSystem,
    path: &str,
    start_address: usize,
    count: usize,
) -> (r: SpiceResult<Vec<i32>>)
    requires
        vfs.wf(),
        start_address * 4 + count * 4 <= usize::MAX,
    ensures
        ({
            let present = model_contains_path(vfs@, path@);
            let f = vfs@.files[model_index_of(vfs@, path@)];
            match r {
                Ok(v) => {
                    &&& present
                    &&& start_address * 4 < f.data.len()
                    &&& start_address * 4 + count * 4 <= f.data.len()
                    &&& v@ == spec_ints32(f.data, start_address * 4, count as int)
                },
                Err(e) => {
                    &&& (e.error_type == SpiceErrorType::KernelNotFound <==> !present)
                    &&& (present ==> e.error_type == SpiceErrorType::FileReadError && (
                    start_address * 4 >= f.data.len() || start_address * 4 + count * 4
                        > f.data.len()))
                },
            }
        }),
{
    let offset = start_address * 4;
    let byte_length = count * 4;
    let bytes = match read_file_bytes(vfs, path, offset, byte_length) {
        Ok(b) => b,
        Err(e) => {
            return Err(e);
        },
    };
    if bytes.len() < byte_length {
        return Err(
            SpiceError::new(SpiceErrorType::FileReadError, String::from_str("insufficient data")),
        );
    }
    proof {
        let f = vfs@.files[model_index_of(vfs@, path@)];
        assert(offset + byte_length <= f.data.len());
    }
    let r = read_integers_from_data(bytes.as_slice(), 0, count);
    match r {
        Ok(v) => {
            proof {
                let f = vfs@.files[model_index_of(vfs@, path@)];
                assert forall|j: int| 0 <= j < count implies #[trigger] v@[j] == spec_le_int32(
                    f.data,
                    offset + 4 * j,
                ) by {
                    assert(v@[j] == spec_le_int32(bytes@, 4 * j));
                    assert forall|b: int|
                        #![trigger bytes@[4 * j + b]]
                        0 <= b < 4 implies bytes@[4 * j + b] == f.data[offset + 4 * j + b] by {
                        assert(bytes@[4 * j + b] == f.data.subrange(
                            offset as int,
                            offset + byte_length,
                        )[4 * j + b]);
                    }
                }
                assert(v@ =~= spec_ints32(f.data, offset as int, count as int));
            }
            Ok(v)
        },
        Err(e) => Err(e),
    }
}

/// Whether a file is resident without a store context. Kernels live in an
/// explicit `VirtualFileSystem`, so this is always false.
pub fn file_exists(_filename: &str) -> (r: bool)
    ensures
        r == false,
{
    false
}

/// Read a file without a store context. Kernels live in an explicit
/// `VirtualFileSystem`, so this always fails `FileIOError`.
pub fn read_file(_filename: &str) -> (r: SpiceResult<Vec<u8>>)
    ensures
        r is Err && r->Err_0.error_type == SpiceErrorType::FileIOError,
{
    Err(
        SpiceError::new(
            SpiceErrorType::FileIOError,
            String::from_str("use VirtualFileSystem for file operations"),
        ),
    )
}

} // verus!
