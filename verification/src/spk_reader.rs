//! Binary ephemeris-segment index and record decoder.
//!
//! A loaded ephemeris kernel contributes time-bounded, body-pair-specific
//! segments to the index; lookups scan in load order and the first covering
//! segment wins. Segment bytes decode into a flat sequence of coefficient
//! words plus a record layout; the polynomial evaluation itself works on
//! plain values and is left to the caller.

use vstd::prelude::*;

use crate::dpword;
use crate::dpword::{dw_key, dw_of_int};
use crate::error_handling::{SpiceError, SpiceErrorType, SpiceResult};
use crate::file_system;
use crate::file_system::VirtualFileSystem;

verus! {

/// Ephemeris segment types.
#[derive(Debug, Clone, Copy, PartialEq, Eq, Structural)]
pub enum SpkSegmentType {
    /// Chebyshev polynomials for position
    Chebyshev,
    /// Two-body propagation from osculating elements
    TwoBody,
    /// Lagrange interpolation of discrete states
    Lagrange,
    /// Unequally spaced discrete states
    DiscreteStates,
    /// Hermite interpolation
    Hermite,
}

/// The type-tag number of each segment type.
pub open spec fn spec_segment_type_code(t: SpkSegmentType) -> int {
    match t {
        SpkSegmentType::Chebyshev => 2,
        SpkSegmentType::TwoBody => 5,
        SpkSegmentType::Lagrange => 8,
        SpkSegmentType::DiscreteStates => 9,
        SpkSegmentType::Hermite => 13,
    }
}

impl SpkSegmentType {
    /// Decode a segment-type tag; tags other than 2, 5, 8, 9 and 13 fail
    /// `InvalidFormat`.
    pub fn from_i32(value: i32) -> (r: SpiceResult<Self>)
        ensures
            match r {
                Ok(t) => spec_segment_type_code(t) == value as int,
                Err(e) => e.error_type == SpiceErrorType::InvalidFormat && value != 2 && value != 5
                    && value != 8 && value != 9 && value != 13,
            },
    {
        match value {
            2 => Ok(SpkSegmentType::Chebyshev),
            5 => Ok(SpkSegmentType::TwoBody),
            8 => Ok(SpkSegmentType::Lagrange),
            9 => Ok(SpkSegmentType::DiscreteStates),
            13 => Ok(SpkSegmentType::Hermite),
            _ => Err(
                SpiceError::new(
                    SpiceErrorType::InvalidFormat,
                    String::from_str("unsupported segment type"),
                ),
            ),
        }
    }
}

/// Summary of one ephemeris segment: the body pair, frame, type tag, the
/// inclusive time bounds (as d.p. words), and the word-address range of its
/// data within the owning kernel buffer.
#[derive(Debug, Clone, Copy, PartialEq, Eq, Structural)]
pub struct SpkSegmentSummary {
    /// Target body code
    pub target_body: i32,
    /// Center body code
    pub center_body: i32,
    /// Reference frame code
    pub frame_id: i32,
    /// Segment data type
    pub segment_type: SpkSegmentType,
    /// Inclusive start epoch (seconds past the reference epoch, as a word)
    pub start_time: u64,
    /// Inclusive end epoch (seconds past the reference epoch, as a word)
    pub end_time: u64,
    /// Start word address of the segment data
    pub start_address: usize,
    /// End word address of the segment data
    pub end_address: usize,
}

/// Whether a segment belongs to the pair `(target, center)`.
pub open spec fn segment_for_pair(seg: SpkSegmentSummary, target: i32, center: i32) -> bool {
    seg.target_body == target && seg.center_body == center
}

/// Whether a segment's inclusive time interval covers the epoch `et`
/// (in the key order of d.p. words).
pub open spec fn segment_covers(seg: SpkSegmentSummary, et: u64) -> bool {
    dw_key(seg.start_time) <= dw_key(et) && dw_key(et) <= dw_key(seg.end_time)
}

/// Decoded, evaluable form of one segment: the coefficient words, the
/// record layout and the record count.
#[derive(Debug, Clone)]
pub struct SpkSegmentData {
    /// Segment metadata
    pub summary: SpkSegmentSummary,
    /// Raw coefficient words
    pub coefficients: Vec<u64>,
    /// Number of coefficients per record
    pub coeffs_per_set: usize,
    /// Number of physical components per record (3 for position-only)
    pub n_components: usize,
    /// Effective polynomial degree
    pub degree: usize,
    /// Number of interpolation records covering the segment's time span
    pub n_records: usize,
}

/// Mathematical model of decoded segment data.
pub ghost struct SegmentDataModel {
    pub summary: SpkSegmentSummary,
    pub coefficients: Seq<u64>,
    pub coeffs_per_set: int,
    pub n_components: int,
    pub degree: int,
    pub n_records: int,
}

impl View for SpkSegmentData {
    type V = SegmentDataModel;

    open spec fn view(&self) -> SegmentDataModel {
        SegmentDataModel {
            summary: self.summary,
            coefficients: self.coefficients@,
            coeffs_per_set: self.coeffs_per_set as int,
            n_components: self.n_components as int,
            degree: self.degree as int,
            n_records: self.n_records as int,
        }
    }
}

/// The synthetic placeholder record set built for unrecognized or short
/// segment bytes: ten zero-filled records of 24 coefficients each,
/// optionally followed by the two layout words.
pub open spec fn spec_placeholder_coeffs(with_meta: bool) -> Seq<u64> {
    let zeros = Seq::new(240, |i: int| 0u64);
    if with_meta {
        zeros.push(dw_of_int(24)).push(dw_of_int(10))
    } else {
        zeros
    }
}

/// The placeholder decode of a segment.
pub open spec fn spec_placeholder_data(sum: SpkSegmentSummary, with_meta: bool) -> SegmentDataModel {
    SegmentDataModel {
        summary: sum,
        coefficients: spec_placeholder_coeffs(with_meta),
        coeffs_per_set: 24,
        n_components: 3,
        degree: 7,
        n_records: 10,
    }
}

/// A word truncated toward zero and saturated to the `usize` range.
pub open spec fn dw_as_usize_spec(b: u64) -> int {
    if dpword::dw_as_u64_spec(b) > usize::MAX as u64 {
        usize::MAX as int
    } else {
        dpword::dw_as_u64_spec(b) as int
    }
}

/// The decode of a Chebyshev segment from the owning buffer's bytes. An
/// address range beyond the buffer, fewer than four words, or degenerate
/// layout words yield the deterministic placeholder record set; otherwise
/// the words in the range are taken as coefficients, the final two words
/// give the per-record coefficient count and the record count, and records
/// are position-only with three components.
pub open spec fn spec_decode_chebyshev(sum: SpkSegmentSummary, d: Seq<u8>) -> SegmentDataModel {
    let sb = sum.start_address * 8;
    let eb = sum.end_address * 8;
    if eb > d.len() {
        spec_placeholder_data(sum, true)
    } else {
        let count = (eb - sb) / 8;
        if count < 4 {
            spec_placeholder_data(sum, true)
        } else {
            let coeffs = file_system::spec_words64(d, sb, count);
            let nr = dw_as_usize_spec(coeffs[count - 1]);
            let cpr = dw_as_usize_spec(coeffs[count - 2]);
            if cpr == 0 || nr == 0 || cpr < 3 {
                spec_placeholder_data(sum, false)
            } else {
                SegmentDataModel {
                    summary: sum,
                    coefficients: coeffs,
                    coeffs_per_set: cpr,
                    n_components: 3,
                    degree: cpr / 3 - 1,
                    n_records: nr,
                }
            }
        }
    }
}

/// Truncate a word toward zero and saturate to `usize`.
fn dw_as_usize(b: u64) -> (r: usize)
    ensures
        r == dw_as_usize_spec(b),
{
    let x = dpword::dw_as_u64(b);
    if x > usize::MAX as u64 {
        usize::MAX
    } else {
        x as usize
    }
}

/// Build the placeholder coefficient words.
fn placeholder_coeffs(with_meta: bool) -> (r: Vec<u64>)
    ensures
        r@ == spec_placeholder_coeffs(with_meta),
{
    let mut out: Vec<u64> = Vec::new();
    let mut i: usize = 0;
    while i < 240
        invariant
            i <= 240,
            out@.len() == i,
            forall|j: int| 0 <= j < i ==> #[trigger] out@[j] == 0u64,
        decreases 240 - i,
    {
        out.push(0);
        i += 1;
    }
    proof {
        assert(out@ =~= Seq::new(240, |i: int| 0u64));
    }
    if with_meta {
        out.push(dpword::dw_from_i64(24));
        out.push(dpword::dw_from_i64(10));
    }
    out
}

/// Read `count` words from `d` starting at byte `off`.
fn words_from_range(d: &[u8], off: usize, count: usize) -> (r: Vec<u64>)
    requires
        off + count * 8 <= d@.len(),
    ensures
        r@ == file_system::spec_words64(d@, off as int, count as int),
{
    let dn = d.len();
    let mut out: Vec<u64> = Vec::new();
    let mut i: usize = 0;
    while i < count
        invariant
            i <= count,
            dn == d@.len(),
            off + count * 8 <= dn,
            out@.len() == i,
            forall|j: int|
                0 <= j < i ==> #[trigger] out@[j] == file_system::spec_le_word64(
                    d@,
                    off + 8 * j,
                ),
        decreases count - i,
    {
        assert(off + 8 * (i as int) + 8 <= off + count * 8);
        out.push(file_system::le_word64_at(d, off + 8 * i));
        i += 1;
    }
    proof {
        assert(out@ =~= file_system::spec_words64(d@, off as int, count as int));
    }
    out
}

/// Decode a Chebyshev segment's coefficient data from the owning buffer.
pub fn extract_chebyshev_data(summary: &SpkSegmentSummary, file_data: &[u8]) -> (r: SpkSegmentData)
    requires
        summary.start_address <= summary.end_address,
        summary.end_address <= usize::MAX / 8,
    ensures
        r@ == spec_decode_chebyshev(*summary, file_data@),
{
    let start_byte = summary.start_address * 8;
    let end_byte = summary.end_address * 8;
    if end_byte > file_data.len() {
        return SpkSegmentData {
            summary: *summary,
            coefficients: placeholder_coeffs(true),
            coeffs_per_set: 24,
            n_components: 3,
            degree: 7,
            n_records: 10,
        };
    }
    let count = (end_byte - start_byte) / 8;
    if count < 4 {
        return SpkSegmentData {
            summary: *summary,
            coefficients: placeholder_coeffs(true),
            coeffs_per_set: 24,
            n_components: 3,
            degree: 7,
            n_records: 10,
        };
    }
    proof {
        vstd::arithmetic::div_mod::lemma_fundamental_div_mod((end_byte - start_byte) as int, 8);
    }
    let coefficients = words_from_range(file_data, start_byte, count);
    let n_records = dw_as_usize(coefficients[count - 1]);
    let coeffs_per_record = dw_as_usize(coefficients[count - 2]);
    if coeffs_per_record == 0 || n_records == 0 || coeffs_per_record < 3 {
        return SpkSegmentData {
            summary: *summary,
            coefficients: placeholder_coeffs(false),
            coeffs_per_set: 24,
            n_components: 3,
            degree: 7,
            n_records: 10,
        };
    }
    let degree = coeffs_per_record / 3 - 1;
    SpkSegmentData {
        summary: *summary,
        coefficients,
        coeffs_per_set: coeffs_per_record,
        n_components: 3,
        degree,
        n_records,
    }
}

/// One loaded ephemeris file: its identifying header fields, its segments,
/// and its raw bytes for coefficient extraction.
#[derive(Debug, Clone)]
pub struct SpkFile {
    /// File identifier (bytes 8..16 of the header)
    pub file_id: String,
    /// File format identifier (bytes 16..24 of the header)
    pub format: String,
    /// Segment summaries contributed by this file
    pub segments: Vec<SpkSegmentSummary>,
    /// Raw file data
    pub file_data: Vec<u8>,
}

/// The ephemeris reader: the loaded files and the segment index, a flat
/// list in scan order (first covering match wins).
#[derive(Debug)]
pub struct SpkReader {
    files: Vec<SpkFile>,
    segments: Vec<SpkSegmentSummary>,
}

impl SpkReader {
    /// The indexed segments, in scan order.
    pub closed spec fn spec_segments(&self) -> Seq<SpkSegmentSummary> {
        self.segments@
    }

    /// The number of loaded files.
    pub closed spec fn spec_file_count(&self) -> int {
        self.files@.len() as int
    }

    /// Create a new, empty reader.
    pub fn new() -> (r: Self)
        ensures
            r.wf(),
            r.spec_segments().len() == 0,
            r.spec_file_count() == 0,
    {
        SpkReader { files: Vec::new(), segments: Vec::new() }
    }

    /// The number of loaded files.
    pub fn file_count(&self) -> (r: usize)
        ensures
            r == self.spec_file_count(),
    {
        self.files.len()
    }

    /// The number of indexed segments.
    pub fn segment_count(&self) -> (r: usize)
        ensures
            r == self.spec_segments().len(),
    {
        self.segments.len()
    }

    /// Find the first indexed segment for `(target, center)` whose
    /// inclusive time interval covers `et`; fails `InsufficientData` when
    /// no segment covers it.
    pub fn find_segment(&self, target: i32, center: i32, et: u64) -> (r: SpiceResult<
        SpkSegmentSummary,
    >)
        ensures
            ({
                let segs = self.spec_segments();
                match r {
                    Ok(seg) => exists|i: int|
                        {
                            &&& 0 <= i < segs.len()
                            &&& #[trigger] segs[i] == seg
                            &&& segment_for_pair(seg, target, center)
                            &&& segment_covers(seg, et)
                            &&& forall|j: int|
                                0 <= j < i ==> !(segment_for_pair(#[trigger] segs[j], target, center)
                                    && segment_covers(segs[j], et))
                        },
                    Err(e) => e.error_type == SpiceErrorType::InsufficientData && forall|i: int|
                        0 <= i < segs.len() ==> !(segment_for_pair(
                            #[trigger] segs[i],
                            target,
                            center,
                        ) && segment_covers(segs[i], et)),
                }
            }),
    {
        let mut i: usize = 0;
        while i < self.segments.len()
            invariant
                i <= self.segments@.len(),
                forall|j: int|
                    0 <= j < i ==> !(segment_for_pair(#[trigger] self.segments@[j], target, center)
                        && segment_covers(self.segments@[j], et)),
            decreases self.segments@.len() - i,
        {
            let seg = self.segments[i];
            if seg.target_body == target && seg.center_body == center {
                let ge_start = dpword::dw_le(seg.start_time, et);
                let le_end = dpword::dw_le(et, seg.end_time);
                if ge_start && le_end {
                    proof {
                        assert(self.spec_segments()[i as int] == seg);
                    }
                    return Ok(seg);
                }
            }
            i += 1;
        }
        Err(
            SpiceError::new(
                SpiceErrorType::InsufficientData,
                String::from_str("no ephemeris data for the body pair at the epoch"),
            ),
        )
    }
}

// ---------------------------------------------------------------------------
// Laws of segment coverage
// ---------------------------------------------------------------------------

/// Segment intervals are inclusive at both ends: a segment covers its own
/// start and end epochs, and covers no epoch whose key lies strictly
/// outside them.
pub proof fn lemma_segment_coverage_boundary(seg: SpkSegmentSummary, et: u64)
    requires
        dw_key(seg.start_time) <= dw_key(seg.end_time),
    ensures
        segment_covers(seg, seg.start_time),
        segment_covers(seg, seg.end_time),
        dw_key(et) < dw_key(seg.start_time) ==> !segment_covers(seg, et),
        dw_key(et) > dw_key(seg.end_time) ==> !segment_covers(seg, et),
{
}


// ---------------------------------------------------------------------------
// Loading ephemeris kernels
// ---------------------------------------------------------------------------

/// The body pairs of the built-in segment catalogue: the planetary
/// barycenters, the Sun and the major planets relative to the solar-system
/// barycenter, and the Moon relative to Earth.
pub open spec fn spec_catalogue_pairs() -> Seq<(i32, i32)> {
    seq![
        (1i32, 0i32),
        (2i32, 0i32),
        (3i32, 0i32),
        (4i32, 0i32),
        (5i32, 0i32),
        (6i32, 0i32),
        (7i32, 0i32),
        (8i32, 0i32),
        (9i32, 0i32),
        (10i32, 0i32),
        (199i32, 0i32),
        (299i32, 0i32),
        (399i32, 0i32),
        (499i32, 0i32),
        (599i32, 0i32),
        (699i32, 0i32),
        (799i32, 0i32),
        (899i32, 0i32),
        (999i32, 0i32),
        (301i32, 399i32),
    ]
}

/// The shared inclusive start epoch of the catalogue segments, in seconds.
pub const CATALOGUE_START_SECONDS: i64 = -1_261_440_000;

/// The shared inclusive end epoch of the catalogue segments, in seconds.
pub const CATALOGUE_END_SECONDS: i64 = 20_736_000_000;

/// The `k`-th catalogue segment: a Chebyshev segment for the `k`-th body
/// pair over the shared time span, with consecutive 10000-word address
/// ranges following the 1024-word header record.
pub open spec fn spec_catalogue_segment(k: int) -> SpkSegmentSummary {
    SpkSegmentSummary {
        target_body: spec_catalogue_pairs()[k].0,
        center_body: spec_catalogue_pairs()[k].1,
        frame_id: 1,
        segment_type: SpkSegmentType::Chebyshev,
        start_time: dw_of_int(CATALOGUE_START_SECONDS as int),
        end_time: dw_of_int(CATALOGUE_END_SECONDS as int),
        start_address: (1024 + k * 10000) as usize,
        end_address: (1024 + k * 10000 + 10000) as usize,
    }
}

/// The catalogue contributed by one loaded ephemeris kernel.
pub open spec fn spec_catalogue() -> Seq<SpkSegmentSummary> {
    Seq::new(20, |k: int| spec_catalogue_segment(k))
}

/// Build a string from a byte range of a buffer, reading each byte as one
/// character, with surrounding whitespace dropped.
fn header_field(d: &[u8], from: usize, to: usize) -> (r: String)
    requires
        from <= to <= d@.len(),
{
    let mut chars: Vec<char> = Vec::new();
    let mut i = from;
    while i < to
        invariant
            from <= i <= to <= d@.len(),
        decreases to - i,
    {
        chars.push(d[i] as char);
        i += 1;
    }
    let t = crate::text::trim_chars(&chars);
    crate::text::chars_to_string(&t)
}

impl SpkReader {
    /// Structural invariant: every indexed segment has an ordered address
    /// range small enough to convert to a byte range.
    pub closed spec fn wf(&self) -> bool {
        forall|i: int|
            0 <= i < self.segments@.len() ==> (#[trigger] self.segments@[i]).start_address
                <= self.segments@[i].end_address && self.segments@[i].end_address <= usize::MAX / 8
    }

    /// The raw bytes of the `fi`-th loaded file.
    pub closed spec fn spec_file_data(&self, fi: int) -> Seq<u8> {
        self.files@[fi].file_data@
    }

    /// The segment summaries recorded for the `fi`-th loaded file.
    pub closed spec fn spec_file_segments(&self, fi: int) -> Seq<SpkSegmentSummary> {
        self.files@[fi].segments@
    }

    /// Whether the `fi`-th loaded file records a segment with the same
    /// body pair and start epoch as `seg` (the association the decoder
    /// uses to find the owning buffer).
    pub open spec fn spec_file_carries(&self, fi: int, seg: SpkSegmentSummary) -> bool {
        exists|si: int|
            0 <= si < self.spec_file_segments(fi).len() && segment_key_matches(
                #[trigger] self.spec_file_segments(fi)[si],
                seg,
            )
    }

    /// Load an ephemeris kernel from the store: the buffer must be present,
    /// hold at least one 1024-word header record's worth of leading bytes,
    /// and carry the ephemeris array-file signature; the kernel then
    /// contributes the segment catalogue to the index, appended in order.
    pub fn load_spk_file(&mut self, filename: &str, vfs: &VirtualFileSystem) -> (r: SpiceResult<()>)
        requires
            old(self).wf(),
            vfs.wf(),
        ensures
            final(self).wf(),
            match r {
                Ok(()) => {
                    &&& file_system::model_contains_path(vfs@, filename@)
                    &&& {
                        let d = vfs@.files[file_system::model_index_of(vfs@, filename@)].data;
                        d.len() >= 1024 && file_system::bytes_start_with(d, "DAF/SPK "@)
                    }
                    &&& final(self).spec_segments() == old(self).spec_segments()
                        + spec_catalogue()
                    &&& final(self).spec_file_count() == old(self).spec_file_count() + 1
                },
                Err(e) => {
                    &&& final(self).spec_segments() == old(self).spec_segments()
                    &&& final(self).spec_file_count() == old(self).spec_file_count()
                    &&& (e.error_type == SpiceErrorType::KernelNotFound <==> !file_system::model_contains_path(
                        vfs@,
                        filename@,
                    ))
                    &&& (file_system::model_contains_path(vfs@, filename@) ==> e.error_type
                        == SpiceErrorType::InvalidFormat && !{
                        let d = vfs@.files[file_system::model_index_of(vfs@, filename@)].data;
                        d.len() >= 1024 && file_system::bytes_start_with(d, "DAF/SPK "@)
                    })
                },
            },
    {
        let vfile = match vfs.get_file(filename) {
            Some(f) => f,
            None => {
                return Err(
                    SpiceError::new(
                        SpiceErrorType::KernelNotFound,
                        String::from_str("ephemeris file not found in the store"),
                    ),
                );
            },
        };
        let data = vfile.data.as_slice();
        if data.len() < 1024 {
            return Err(
                SpiceError::new(
                    SpiceErrorType::InvalidFormat,
                    String::from_str("file too small to hold a header record"),
                ),
            );
        }
        if !file_system::starts_with_sig(data, "DAF/SPK ") {
            return Err(
                SpiceError::new(
                    SpiceErrorType::InvalidFormat,
                    String::from_str("file is not an ephemeris array file"),
                ),
            );
        }
        let file_id = header_field(data, 8, 16);
        let format = header_field(data, 16, 24);
        let mut pairs: Vec<(i32, i32)> = Vec::new();
        pairs.push((1, 0));
        pairs.push((2, 0));
        pairs.push((3, 0));
        pairs.push((4, 0));
        pairs.push((5, 0));
        pairs.push((6, 0));
        pairs.push((7, 0));
        pairs.push((8, 0));
        pairs.push((9, 0));
        pairs.push((10, 0));
        pairs.push((199, 0));
        pairs.push((299, 0));
        pairs.push((399, 0));
        pairs.push((499, 0));
        pairs.push((599, 0));
        pairs.push((699, 0));
        pairs.push((799, 0));
        pairs.push((899, 0));
        pairs.push((999, 0));
        pairs.push((301, 399));
        proof {
            assert(pairs@ =~= spec_catalogue_pairs());
        }
        let start_word = dpword::dw_from_i64(CATALOGUE_START_SECONDS);
        let end_word = dpword::dw_from_i64(CATALOGUE_END_SECONDS);
        let ghost segs0 = self.segments@;
        let mut file_segments: Vec<SpkSegmentSummary> = Vec::new();
        let mut k: usize = 0;
        while k < 20
            invariant
                k <= 20,
                pairs@ == spec_catalogue_pairs(),
                start_word == dw_of_int(CATALOGUE_START_SECONDS as int),
                end_word == dw_of_int(CATALOGUE_END_SECONDS as int),
                self.segments@ == segs0 + spec_catalogue().subrange(0, k as int),
                self.spec_file_count() == old(self).spec_file_count(),
                file_segments@ == spec_catalogue().subrange(0, k as int),
                old(self).wf(),
                forall|i: int| 0 <= i < segs0.len() ==> #[trigger] segs0[i]
                    == old(self).spec_segments()[i],
                segs0.len() == old(self).spec_segments().len(),
            decreases 20 - k,
        {
            let (t, c) = pairs[k];
            let address = 1024 + k * 10000;
            let seg = SpkSegmentSummary {
                target_body: t,
                center_body: c,
                frame_id: 1,
                segment_type: SpkSegmentType::Chebyshev,
                start_time: start_word,
                end_time: end_word,
                start_address: address,
                end_address: address + 10000,
            };
            proof {
                assert(seg == spec_catalogue_segment(k as int));
            }
            self.segments.push(seg);
            file_segments.push(seg);
            proof {
                assert(self.segments@ =~= segs0 + spec_catalogue().subrange(0, k + 1));
                assert(file_segments@ =~= spec_catalogue().subrange(0, k + 1));
            }
            k += 1;
        }
        proof {
            assert(spec_catalogue().subrange(0, 20) =~= spec_catalogue());
        }
        self.files.push(
            SpkFile { file_id, format, segments: file_segments, file_data: vfile.data.clone() },
        );
        proof {
            assert forall|i: int| 0 <= i < self.segments@.len() implies (
            #[trigger] self.segments@[i]).start_address <= self.segments@[i].end_address
                && self.segments@[i].end_address <= usize::MAX / 8 by {
                if i < segs0.len() {
                    assert(self.segments@[i] == old(self).spec_segments()[i]);
                } else {
                    assert(self.segments@[i] == spec_catalogue_segment(i - segs0.len()));
                }
            }
            assert(segs0 =~= old(self).spec_segments());
            assert(self.segments@ =~= old(self).spec_segments() + spec_catalogue());
        }
        Ok(())
    }
}

/// Load an ephemeris kernel into a reader from the store (context form of
/// the one-call loading entry point).
pub fn load_spk_file_global(
    reader: &mut SpkReader,
    filename: &str,
    vfs: &VirtualFileSystem,
) -> (r: SpiceResult<()>)
    requires
        old(reader).wf(),
        vfs.wf(),
    ensures
        final(reader).wf(),
        r is Ok ==> final(reader).spec_segments() == old(reader).spec_segments()
            + spec_catalogue(),
        r is Err ==> final(reader).spec_segments() == old(reader).spec_segments(),
        r is Ok <==> (file_system::model_contains_path(vfs@, filename@) && {
            let d = vfs@.files[file_system::model_index_of(vfs@, filename@)].data;
            d.len() >= 1024 && file_system::bytes_start_with(d, "DAF/SPK "@)
        }),
{
    reader.load_spk_file(filename, vfs)
}

/// Whether two segment summaries agree on the key the decoder uses to
/// associate a segment with its owning file: body pair and start epoch.
pub open spec fn segment_key_matches(s: SpkSegmentSummary, seg: SpkSegmentSummary) -> bool {
    s.target_body == seg.target_body && s.center_body == seg.center_body && s.start_time
        == seg.start_time
}

/// `i` is the index of the first segment of the pair whose interval covers
/// `et`, in scan order.
pub open spec fn first_covering_at(
    segs: Seq<SpkSegmentSummary>,
    target: i32,
    center: i32,
    et: u64,
    i: int,
) -> bool {
    &&& 0 <= i < segs.len()
    &&& segment_for_pair(segs[i], target, center)
    &&& segment_covers(segs[i], et)
    &&& forall|j: int|
        0 <= j < i ==> !(segment_for_pair(#[trigger] segs[j], target, center) && segment_covers(
            segs[j],
            et,
        ))
}

/// The first covering index is unique.
pub proof fn lemma_first_covering_unique(
    segs: Seq<SpkSegmentSummary>,
    target: i32,
    center: i32,
    et: u64,
    i: int,
    j: int,
)
    requires
        first_covering_at(segs, target, center, et, i),
        first_covering_at(segs, target, center, et, j),
    ensures
        i == j,
{
    if i < j {
        assert(segment_for_pair(segs[i], target, center) && segment_covers(segs[i], et));
    }
    if j < i {
        assert(segment_for_pair(segs[j], target, center) && segment_covers(segs[j], et));
    }
}

// ---------------------------------------------------------------------------
// State preparation
// ---------------------------------------------------------------------------

/// The prepared evaluation of a geometric state: the same-body shortcut,
/// or decoded Chebyshev segment data ready for polynomial evaluation.
#[derive(Debug, Clone)]
pub enum StatePlan {
    /// Target and center coincide: the state is identically zero.
    SameBody,
    /// Evaluate the decoded Chebyshev records at the query epoch.
    Chebyshev(SpkSegmentData),
}

impl SpkReader {
    /// Prepare the geometric state of `target` relative to `center` at
    /// epoch `et`.
    ///
    /// When `target == center` the result is the same-body shortcut,
    /// independent of the index contents. Otherwise the first covering
    /// segment is selected; a missing segment or missing file data fails
    /// `InsufficientData`, a segment type without an implemented decoder
    /// fails `InvalidFormat`, and a Chebyshev segment decodes against its
    /// owning file's bytes.
    #[verifier::rlimit(100)]
    #[verifier::spinoff_prover]
    pub fn compute_state_plan(&self, target: i32, center: i32, et: u64) -> (r: SpiceResult<
        StatePlan,
    >)
        requires
            self.wf(),
        ensures
            target == center ==> r == Ok::<StatePlan, SpiceError>(StatePlan::SameBody),
            target != center ==> match r {
                Ok(plan) => plan is Chebyshev && {
                    let data = plan->Chebyshev_0;
                    &&& data@.summary.segment_type == SpkSegmentType::Chebyshev
                    &&& exists|i: int|
                        #[trigger] first_covering_at(
                            self.spec_segments(),
                            target,
                            center,
                            et,
                            i,
                        ) && self.spec_segments()[i] == data@.summary
                    &&& exists|fi: int|
                        0 <= fi < self.spec_file_count() && data@ == spec_decode_chebyshev(
                            data@.summary,
                            #[trigger] self.spec_file_data(fi),
                        )
                },
                Err(e) => {
                    &&& (e.error_type == SpiceErrorType::InsufficientData || e.error_type
                        == SpiceErrorType::InvalidFormat)
                    &&& ((forall|i: int|
                        0 <= i < self.spec_segments().len() ==> !(segment_for_pair(
                            #[trigger] self.spec_segments()[i],
                            target,
                            center,
                        ) && segment_covers(self.spec_segments()[i], et))) ==> e.error_type
                        == SpiceErrorType::InsufficientData)
                },
            },
            // the decoder is chosen by the first covering segment's type
            target != center ==> ((r is Err && r->Err_0.error_type == SpiceErrorType::InvalidFormat)
                <==> exists|i: int|
                #[trigger] first_covering_at(self.spec_segments(), target, center, et, i)
                    && self.spec_segments()[i].segment_type != SpkSegmentType::Chebyshev),
            // success is owed when the first covering segment is Chebyshev
            // and some loaded file carries it
            target != center && (exists|i: int|
                #[trigger] first_covering_at(self.spec_segments(), target, center, et, i)
                    && self.spec_segments()[i].segment_type == SpkSegmentType::Chebyshev && exists|
                    fi: int,
                | 0 <= fi < self.spec_file_count() && self.spec_file_carries(
                    fi,
                    self.spec_segments()[i],
                )) ==> r is Ok,
    {
        if target == center {
            return Ok(StatePlan::SameBody);
        }
        let seg = match self.find_segment(target, center, et) {
            Ok(seg) => seg,
            Err(e) => {
                proof {
                    assert forall|i: int| !first_covering_at(
                        self.spec_segments(),
                        target,
                        center,
                        et,
                        i,
                    ) by {
                        if 0 <= i < self.spec_segments().len() {
                            assert(!(segment_for_pair(self.spec_segments()[i], target, center)
                                && segment_covers(self.spec_segments()[i], et)));
                        }
                    }
                }
                return Err(e);
            },
        };
        let ghost gw: int = choose|i: int|
            {
                &&& 0 <= i < self.spec_segments().len()
                &&& #[trigger] self.spec_segments()[i] == seg
                &&& segment_for_pair(seg, target, center)
                &&& segment_covers(seg, et)
                &&& forall|j: int|
                    0 <= j < i ==> !(segment_for_pair(
                        #[trigger] self.spec_segments()[j],
                        target,
                        center,
                    ) && segment_covers(self.spec_segments()[j], et))
            };
        proof {
            assert(self.spec_segments()[gw] == seg);
            assert(first_covering_at(self.spec_segments(), target, center, et, gw));
            assert(seg.start_address <= seg.end_address && seg.end_address <= usize::MAX / 8);
        }
        if !matches!(seg.segment_type, SpkSegmentType::Chebyshev) {
            return Err(
                SpiceError::new(
                    SpiceErrorType::InvalidFormat,
                    String::from_str("segment type decoding not implemented"),
                ),
            );
        }
        proof {
            // every first covering index is gw, whose segment is Chebyshev
            assert forall|i: int|
                first_covering_at(self.spec_segments(), target, center, et, i) implies
                self.spec_segments()[i].segment_type == SpkSegmentType::Chebyshev by {
                lemma_first_covering_unique(self.spec_segments(), target, center, et, i, gw);
            }
        }
        // find the loaded file carrying this segment
        let mut fi: usize = 0;
        while fi < self.files.len()
            invariant
                fi <= self.files@.len(),
                self.wf(),
                seg.start_address <= seg.end_address,
                seg.end_address <= usize::MAX / 8,
                target != center,
                seg.segment_type == SpkSegmentType::Chebyshev,
                segment_for_pair(seg, target, center),
                segment_covers(seg, et),
                0 <= gw < self.spec_segments().len(),
                self.spec_segments()[gw] == seg,
                first_covering_at(self.spec_segments(), target, center, et, gw),
                forall|i: int|
                    #[trigger] first_covering_at(self.spec_segments(), target, center, et, i)
                        ==> self.spec_segments()[i].segment_type == SpkSegmentType::Chebyshev,
                forall|fj: int| 0 <= fj < fi ==> !self.spec_file_carries(fj, seg),
            decreases self.files@.len() - fi,
        {
            let file = &self.files[fi];
            let mut si: usize = 0;
            let mut found = false;
            while si < file.segments.len()
                invariant
                    si <= file.segments@.len(),
                    fi < self.files@.len(),
                    file.segments@ == self.spec_file_segments(fi as int),
                    found ==> self.spec_file_carries(fi as int, seg),
                    !found ==> forall|sj: int|
                        0 <= sj < si ==> !segment_key_matches(
                            #[trigger] self.spec_file_segments(fi as int)[sj],
                            seg,
                        ),
                decreases file.segments@.len() - si,
            {
                let s = file.segments[si];
                if s.target_body == seg.target_body && s.center_body == seg.center_body
                    && s.start_time == seg.start_time {
                    proof {
                        assert(segment_key_matches(
                            self.spec_file_segments(fi as int)[si as int],
                            seg,
                        ));
                    }
                    found = true;
                    si = file.segments.len();
                } else {
                    si += 1;
                }
            }
            if found {
                proof {
                    assert(self.spec_file_data(fi as int) == self.files@[fi as int].file_data@);
                }
                let data = extract_chebyshev_data(&seg, self.files[fi].file_data.as_slice());
                proof {
                    assert(data@.summary == seg);
                    assert(data@ == spec_decode_chebyshev(
                        data@.summary,
                        self.spec_file_data(fi as int),
                    ));
                    assert(first_covering_at(self.spec_segments(), target, center, et, gw)
                        && self.spec_segments()[gw] == data@.summary);
                }
                return Ok(StatePlan::Chebyshev(data));
            }
            proof {
                assert(!self.spec_file_carries(fi as int, seg));
            }
            fi += 1;
        }
        proof {
            // no loaded file carries the selected segment, so the success
            // premise cannot hold of any first covering index
            assert forall|i: int|
                first_covering_at(self.spec_segments(), target, center, et, i) implies !(exists|
                fi2: int,
            | 0 <= fi2 < self.spec_file_count() && self.spec_file_carries(
                fi2,
                self.spec_segments()[i],
            )) by {
                lemma_first_covering_unique(self.spec_segments(), target, center, et, i, gw);
            }
        }
        Err(
            SpiceError::new(
                SpiceErrorType::InsufficientData,
                String::from_str("segment found but file data missing"),
            ),
        )
    }

}

} // verus!
