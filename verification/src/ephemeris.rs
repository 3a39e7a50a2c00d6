//! Aberration corrections, the built-in body name table, and the decision
//! logic of the light-time resolver.
//!
//! The iterative light-time and stellar-aberration computation itself works
//! on real numbers and runs outside the library; the pieces that decide —
//! the correction parsed from its specifier, the iteration budget, the
//! direction of the epoch correction, and the relativistic speed gate —
//! are verified here.

use vstd::prelude::*;

use crate::dpword::dw_key;
use crate::error_handling::{SpiceError, SpiceErrorType, SpiceResult};
use crate::text;

verus! {

/// The speed of light in km/s, as a d.p. word (299792.458).
pub const SPEED_OF_LIGHT_WORD: u64 = 0x41124C41D4FDF3B6;

/// One tenth of the speed of light in km/s, as a d.p. word (29979.2458):
/// the validity bound of the first-order stellar-aberration correction.
pub const REL_SPEED_LIMIT_WORD: u64 = 0x40DD46CFBB2FEC57;

/// Aberration correction variants.
#[derive(Debug, Clone, Copy, PartialEq, Eq, Structural)]
pub enum AberrationCorrection {
    /// No correction (geometric case)
    Geometric,
    /// Light time correction only
    LightTime,
    /// Converged Newtonian light time
    ConvergedNewtonian,
    /// Light time and stellar aberration
    LightTimeAndStellar,
    /// Converged Newtonian light time and stellar aberration
    ConvergedNewtonianAndStellar,
    /// Transmission light time correction
    TransmissionLightTime,
    /// Transmission converged Newtonian
    TransmissionConvergedNewtonian,
    /// Transmission light time and stellar aberration
    TransmissionLightTimeAndStellar,
    /// Transmission converged Newtonian and stellar aberration
    TransmissionConvergedNewtonianAndStellar,
}

/// The correction denoted by a specifier, after case folding and
/// trimming; unknown specifiers denote nothing.
pub open spec fn spec_parse_correction(s: Seq<char>) -> Option<AberrationCorrection> {
    let t = text::spec_trim(text::spec_upper_seq(s));
    if t == "NONE"@ {
        Some(AberrationCorrection::Geometric)
    } else if t == "LT"@ {
        Some(AberrationCorrection::LightTime)
    } else if t == "CN"@ {
        Some(AberrationCorrection::ConvergedNewtonian)
    } else if t == "LT+S"@ {
        Some(AberrationCorrection::LightTimeAndStellar)
    } else if t == "CN+S"@ {
        Some(AberrationCorrection::ConvergedNewtonianAndStellar)
    } else if t == "XLT"@ {
        Some(AberrationCorrection::TransmissionLightTime)
    } else if t == "XCN"@ {
        Some(AberrationCorrection::TransmissionConvergedNewtonian)
    } else if t == "XLT+S"@ {
        Some(AberrationCorrection::TransmissionLightTimeAndStellar)
    } else if t == "XCN+S"@ {
        Some(AberrationCorrection::TransmissionConvergedNewtonianAndStellar)
    } else {
        Option::None
    }
}

/// Whether a correction includes light-time iteration.
pub open spec fn spec_includes_light_time(c: AberrationCorrection) -> bool {
    c != AberrationCorrection::Geometric
}

/// Whether a correction includes the stellar-aberration adjustment.
pub open spec fn spec_includes_stellar_aberration(c: AberrationCorrection) -> bool {
    c == AberrationCorrection::LightTimeAndStellar || c
        == AberrationCorrection::ConvergedNewtonianAndStellar || c
        == AberrationCorrection::TransmissionLightTimeAndStellar || c
        == AberrationCorrection::TransmissionConvergedNewtonianAndStellar
}

/// Whether a correction is a transmission variant.
pub open spec fn spec_is_transmission(c: AberrationCorrection) -> bool {
    c == AberrationCorrection::TransmissionLightTime || c
        == AberrationCorrection::TransmissionConvergedNewtonian || c
        == AberrationCorrection::TransmissionLightTimeAndStellar || c
        == AberrationCorrection::TransmissionConvergedNewtonianAndStellar
}

impl AberrationCorrection {
    /// Parse an aberration-correction specifier (case-insensitive,
    /// surrounding whitespace ignored); unknown specifiers fail
    /// `InvalidAberrationCorrection`.
    pub fn from_str(s: &str) -> (r: SpiceResult<Self>)
        ensures
            match r {
                Ok(c) => spec_parse_correction(s@) == Some(c),
                Err(e) => spec_parse_correction(s@) is None && e.error_type
                    == SpiceErrorType::InvalidAberrationCorrection,
            },
    {
        let upper = text::to_upper(s);
        let uc = text::str_chars(upper.as_str());
        let t = text::trim_chars(&uc);
        if text::chars_eq_str(&t, "NONE") {
            Ok(AberrationCorrection::Geometric)
        } else if text::chars_eq_str(&t, "LT") {
            Ok(AberrationCorrection::LightTime)
        } else if text::chars_eq_str(&t, "CN") {
            Ok(AberrationCorrection::ConvergedNewtonian)
        } else if text::chars_eq_str(&t, "LT+S") {
            Ok(AberrationCorrection::LightTimeAndStellar)
        } else if text::chars_eq_str(&t, "CN+S") {
            Ok(AberrationCorrection::ConvergedNewtonianAndStellar)
        } else if text::chars_eq_str(&t, "XLT") {
            Ok(AberrationCorrection::TransmissionLightTime)
        } else if text::chars_eq_str(&t, "XCN") {
            Ok(AberrationCorrection::TransmissionConvergedNewtonian)
        } else if text::chars_eq_str(&t, "XLT+S") {
            Ok(AberrationCorrection::TransmissionLightTimeAndStellar)
        } else if text::chars_eq_str(&t, "XCN+S") {
            Ok(AberrationCorrection::TransmissionConvergedNewtonianAndStellar)
        } else {
            Err(
                SpiceError::new(
                    SpiceErrorType::InvalidAberrationCorrection,
                    String::from_str("invalid aberration correction"),
                ),
            )
        }
    }

    /// Whether this correction includes light-time iteration.
    pub fn includes_light_time(&self) -> (r: bool)
        ensures
            r == spec_includes_light_time(*self),
    {
        !matches!(self, AberrationCorrection::Geometric)
    }

    /// Whether this correction includes the stellar-aberration adjustment.
    pub fn includes_stellar_aberration(&self) -> (r: bool)
        ensures
            r == spec_includes_stellar_aberration(*self),
    {
        matches!(
            self,
            AberrationCorrection::LightTimeAndStellar
                | AberrationCorrection::ConvergedNewtonianAndStellar
                | AberrationCorrection::TransmissionLightTimeAndStellar
                | AberrationCorrection::TransmissionConvergedNewtonianAndStellar,
        )
    }

    /// Whether this is a transmission correction.
    pub fn is_transmission(&self) -> (r: bool)
        ensures
            r == spec_is_transmission(*self),
    {
        matches!(
            self,
            AberrationCorrection::TransmissionLightTime
                | AberrationCorrection::TransmissionConvergedNewtonian
                | AberrationCorrection::TransmissionLightTimeAndStellar
                | AberrationCorrection::TransmissionConvergedNewtonianAndStellar,
        )
    }
}

// ---------------------------------------------------------------------------
// Resolver decision logic
// ---------------------------------------------------------------------------

/// The bound on light-time iterations: five when stellar aberration is
/// requested, three otherwise.
pub fn light_time_iteration_budget(correction: &AberrationCorrection) -> (r: u32)
    ensures
        r == if spec_includes_stellar_aberration(*correction) {
            5int
        } else {
            3int
        },
{
    if correction.includes_stellar_aberration() {
        5
    } else {
        3
    }
}

/// Whether the corrected evaluation epoch advances (transmission) rather
/// than recedes (reception) by the light time.
pub fn corrected_epoch_advances(correction: &AberrationCorrection) -> (r: bool)
    ensures
        r == spec_is_transmission(*correction),
{
    correction.is_transmission()
}

/// Whether an observer speed (km/s, as a d.p. word) lies strictly below
/// the validity bound of the stellar-aberration correction.
pub open spec fn spec_speed_within_limit(speed: u64) -> bool {
    dw_key(speed) < dw_key(REL_SPEED_LIMIT_WORD)
}

/// Gate of the stellar-aberration correction: an observer speed at or
/// above one tenth of the speed of light is rejected.
pub fn observer_speed_within_limit(speed: u64) -> (r: bool)
    ensures
        r == spec_speed_within_limit(speed),
{
    crate::dpword::dw_lt(speed, REL_SPEED_LIMIT_WORD)
}

/// The relativistic speed gate is sharp: a speed of exactly the bound is
/// rejected, any speed strictly below it in the word order is accepted,
/// and any speed at or above it is rejected.
pub proof fn lemma_stellar_speed_boundary(speed: u64)
    ensures
        !spec_speed_within_limit(REL_SPEED_LIMIT_WORD),
        dw_key(speed) < dw_key(REL_SPEED_LIMIT_WORD) ==> spec_speed_within_limit(speed),
        dw_key(speed) >= dw_key(REL_SPEED_LIMIT_WORD) ==> !spec_speed_within_limit(speed),
{
}

// ---------------------------------------------------------------------------
// Body name table
// ---------------------------------------------------------------------------

/// The built-in body name table: each name with its body code.
pub open spec fn spec_body_table() -> Seq<(Seq<char>, i32)> {
    seq![
        ("SOLAR SYSTEM BARYCENTER"@, 0i32),
        ("SSB"@, 0i32),
        ("SUN"@, 10i32),
        ("MERCURY BARYCENTER"@, 1i32),
        ("VENUS BARYCENTER"@, 2i32),
        ("EARTH BARYCENTER"@, 3i32),
        ("MARS BARYCENTER"@, 4i32),
        ("JUPITER BARYCENTER"@, 5i32),
        ("SATURN BARYCENTER"@, 6i32),
        ("URANUS BARYCENTER"@, 7i32),
        ("NEPTUNE BARYCENTER"@, 8i32),
        ("PLUTO BARYCENTER"@, 9i32),
        ("MERCURY"@, 199i32),
        ("VENUS"@, 299i32),
        ("EARTH"@, 399i32),
        ("MARS"@, 499i32),
        ("JUPITER"@, 599i32),
        ("SATURN"@, 699i32),
        ("URANUS"@, 799i32),
        ("NEPTUNE"@, 899i32),
        ("PLUTO"@, 999i32),
        ("MOON"@, 301i32),
    ]
}

/// The code of the first table entry named `n`, if any.
pub open spec fn spec_table_code(t: Seq<(Seq<char>, i32)>, n: Seq<char>) -> Option<i32>
    decreases t.len(),
{
    if t.len() == 0 {
        Option::None
    } else if t[0].0 == n {
        Some(t[0].1)
    } else {
        spec_table_code(t.drop_first(), n)
    }
}

/// The name of the first table entry with code `c`, if any.
pub open spec fn spec_table_name(t: Seq<(Seq<char>, i32)>, c: i32) -> Option<Seq<char>>
    decreases t.len(),
{
    if t.len() == 0 {
        Option::None
    } else if t[0].1 == c {
        Some(t[0].0)
    } else {
        spec_table_name(t.drop_first(), c)
    }
}

/// The built-in body name/code table as a vector of pairs.
pub fn get_body_code_map() -> (r: Vec<(String, i32)>)
    ensures
        r@.map_values(|p: (String, i32)| (p.0@, p.1)) == spec_body_table(),
{
    let mut v: Vec<(String, i32)> = Vec::new();
    v.push((String::from_str("SOLAR SYSTEM BARYCENTER"), 0));
    v.push((String::from_str("SSB"), 0));
    v.push((String::from_str("SUN"), 10));
    v.push((String::from_str("MERCURY BARYCENTER"), 1));
    v.push((String::from_str("VENUS BARYCENTER"), 2));
    v.push((String::from_str("EARTH BARYCENTER"), 3));
    v.push((String::from_str("MARS BARYCENTER"), 4));
    v.push((String::from_str("JUPITER BARYCENTER"), 5));
    v.push((String::from_str("SATURN BARYCENTER"), 6));
    v.push((String::from_str("URANUS BARYCENTER"), 7));
    v.push((String::from_str("NEPTUNE BARYCENTER"), 8));
    v.push((String::from_str("PLUTO BARYCENTER"), 9));
    v.push((String::from_str("MERCURY"), 199));
    v.push((String::from_str("VENUS"), 299));
    v.push((String::from_str("EARTH"), 399));
    v.push((String::from_str("MARS"), 499));
    v.push((String::from_str("JUPITER"), 599));
    v.push((String::from_str("SATURN"), 699));
    v.push((String::from_str("URANUS"), 799));
    v.push((String::from_str("NEPTUNE"), 899));
    v.push((String::from_str("PLUTO"), 999));
    v.push((String::from_str("MOON"), 301));
    proof {
        assert(v@.map_values(|p: (String, i32)| (p.0@, p.1)) =~= spec_body_table());
    }
    v
}

/// The body code denoted by a name: a numeric string denotes its own
/// value; otherwise the case-folded name is looked up in the built-in
/// table.
pub open spec fn spec_body_name_to_code(name: Seq<char>) -> Option<i32> {
    match text::spec_parse_i32(name) {
        Some(c) => Some(c),
        Option::None => spec_table_code(spec_body_table(), text::spec_upper_seq(name)),
    }
}

/// Convert a body name to its code; unknown names fail `InvalidTarget`.
pub fn body_name_to_code(name: &str) -> (r: SpiceResult<i32>)
    ensures
        match r {
            Ok(c) => spec_body_name_to_code(name@) == Some(c),
            Err(e) => spec_body_name_to_code(name@) is None && e.error_type
                == SpiceErrorType::InvalidTarget,
        },
{
    if let Some(c) = text::parse_i32_str(name) {
        return Ok(c);
    }
    let upper = text::to_upper(name);
    let table = get_body_code_map();
    let ghost tm = table@.map_values(|p: (String, i32)| (p.0@, p.1));
    proof {
        assert(tm.skip(0) =~= tm);
    }
    let mut i: usize = 0;
    while i < table.len()
        invariant
            i <= table@.len(),
            tm == table@.map_values(|p: (String, i32)| (p.0@, p.1)),
            tm == spec_body_table(),
            upper@ == text::spec_upper_seq(name@),
            text::spec_parse_i32(name@) is None,
            spec_table_code(spec_body_table(), upper@) == spec_table_code(
                tm.skip(i as int),
                upper@,
            ),
        decreases table@.len() - i,
    {
        proof {
            assert(tm[i as int] == (table@[i as int].0@, table@[i as int].1));
            assert(tm.skip(i as int)[0] == tm[i as int]);
            assert(tm.skip(i as int).drop_first() =~= tm.skip(i + 1));
        }
        if text::str_eq(table[i].0.as_str(), upper.as_str()) {
            proof {
                assert(spec_table_code(tm.skip(i as int), upper@) == Some(tm[i as int].1));
            }
            return Ok(table[i].1);
        }
        i += 1;
    }
    proof {
        assert(tm.skip(i as int) =~= Seq::<(Seq<char>, i32)>::empty());
    }
    Err(SpiceError::new(SpiceErrorType::InvalidTarget, String::from_str("unknown body name")))
}

/// The preferred name of a body code, if the code is in the built-in
/// table: the first table entry carrying the code.
pub open spec fn spec_body_code_to_name(code: i32) -> Option<Seq<char>> {
    spec_table_name(spec_body_table(), code)
}

/// Convert a body code to its preferred name; unknown codes fail
/// `InvalidTarget`.
pub fn body_code_to_name(code: i32) -> (r: SpiceResult<String>)
    ensures
        match r {
            Ok(n) => spec_body_code_to_name(code) == Some(n@),
            Err(e) => spec_body_code_to_name(code) is None && e.error_type
                == SpiceErrorType::InvalidTarget,
        },
{
    let table = get_body_code_map();
    let ghost tm = table@.map_values(|p: (String, i32)| (p.0@, p.1));
    proof {
        assert(tm.skip(0) =~= tm);
    }
    let mut i: usize = 0;
    while i < table.len()
        invariant
            i <= table@.len(),
            tm == table@.map_values(|p: (String, i32)| (p.0@, p.1)),
            tm == spec_body_table(),
            spec_table_name(spec_body_table(), code) == spec_table_name(tm.skip(i as int), code),
        decreases table@.len() - i,
    {
        proof {
            assert(tm[i as int] == (table@[i as int].0@, table@[i as int].1));
            assert(tm.skip(i as int)[0] == tm[i as int]);
            assert(tm.skip(i as int).drop_first() =~= tm.skip(i + 1));
        }
        if table[i].1 == code {
            proof {
                assert(spec_table_name(tm.skip(i as int), code) == Some(tm[i as int].0));
            }
            return Ok(table[i].0.clone());
        }
        i += 1;
    }
    proof {
        assert(tm.skip(i as int) =~= Seq::<(Seq<char>, i32)>::empty());
    }
    Err(SpiceError::new(SpiceErrorType::InvalidTarget, String::from_str("unknown body code")))
}

} // verus!
