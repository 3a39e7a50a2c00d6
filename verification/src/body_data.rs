//! Celestial body data: name/code mappings with pool-defined aliases, and
//! built-in physical constants.
//!
//! Lookups consult the built-in tables first and fall back to pool
//! variables of the forms `NAIF_BODY_NAME_<alias>`, `NAIF_BODY_CODE_<code>`,
//! `BODY<code>_CENTER` and `BODY<code>_<item>`.

use vstd::prelude::*;

use crate::dpword;
use crate::error_handling::{SpiceError, SpiceErrorType, SpiceResult};
use crate::kernel_pool::{KernelPool, PoolValueModel};
use crate::kernel_pool;
use crate::text;

verus! {

pub const SOLAR_SYSTEM_BARYCENTER: i32 = 0;
pub const MERCURY_BARYCENTER: i32 = 1;
pub const VENUS_BARYCENTER: i32 = 2;
pub const EARTH_MOON_BARYCENTER: i32 = 3;
pub const MARS_BARYCENTER: i32 = 4;
pub const JUPITER_BARYCENTER: i32 = 5;
pub const SATURN_BARYCENTER: i32 = 6;
pub const URANUS_BARYCENTER: i32 = 7;
pub const NEPTUNE_BARYCENTER: i32 = 8;
pub const PLUTO_BARYCENTER: i32 = 9;
pub const SUN: i32 = 10;

pub const MERCURY: i32 = 199;
pub const VENUS: i32 = 299;
pub const EARTH: i32 = 399;
pub const MARS: i32 = 499;
pub const JUPITER: i32 = 599;
pub const SATURN: i32 = 699;
pub const URANUS: i32 = 799;
pub const NEPTUNE: i32 = 899;
pub const PLUTO: i32 = 999;

pub const MOON: i32 = 301;

pub const IO: i32 = 501;
pub const EUROPA: i32 = 502;
pub const GANYMEDE: i32 = 503;
pub const CALLISTO: i32 = 504;

pub const MIMAS: i32 = 601;
pub const ENCELADUS: i32 = 602;
pub const TETHYS: i32 = 603;
pub const DIONE: i32 = 604;
pub const RHEA: i32 = 605;
pub const TITAN: i32 = 606;
pub const IAPETUS: i32 = 608;

/// The built-in body name/code mapping, including aliases and the major
/// moons.
pub open spec fn spec_builtin_mapping() -> Seq<(Seq<char>, i32)> {
    seq![
        ("SOLAR SYSTEM BARYCENTER"@, 0i32),
        ("SSB"@, 0i32),
        ("SUN"@, 10i32),
        ("MERCURY BARYCENTER"@, 1i32),
        ("VENUS BARYCENTER"@, 2i32),
        ("EARTH BARYCENTER"@, 3i32),
        ("MARS BARYCENTER"@, 4i32),
        ("JUPITER BARYCENTER"@, 5i32),
        ("SATURN BARYCENTER"@, 6i32),
        ("URANUS BARYCENTER"@, 7i32),
        ("NEPTUNE BARYCENTER"@, 8i32),
        ("PLUTO BARYCENTER"@, 9i32),
        ("MERCURY"@, 199i32),
        ("VENUS"@, 299i32),
        ("EARTH"@, 399i32),
        ("MARS"@, 499i32),
        ("JUPITER"@, 599i32),
        ("SATURN"@, 699i32),
        ("URANUS"@, 799i32),
        ("NEPTUNE"@, 899i32),
        ("PLUTO"@, 999i32),
        ("MOON"@, 301i32),
        ("LUNA"@, 301i32),
        ("IO"@, 501i32),
        ("EUROPA"@, 502i32),
        ("GANYMEDE"@, 503i32),
        ("CALLISTO"@, 504i32),
        ("MIMAS"@, 601i32),
        ("ENCELADUS"@, 602i32),
        ("TETHYS"@, 603i32),
        ("DIONE"@, 604i32),
        ("RHEA"@, 605i32),
        ("TITAN"@, 606i32),
        ("IAPETUS"@, 608i32),
    ]
}

/// The built-in mapping as a vector of pairs.
fn builtin_mapping() -> (r: Vec<(String, i32)>)
    ensures
        r@.map_values(|p: (String, i32)| (p.0@, p.1)) == spec_builtin_mapping(),
{
    let mut v: Vec<(String, i32)> = Vec::new();
    v.push((String::from_str("SOLAR SYSTEM BARYCENTER"), 0));
    v.push((String::from_str("SSB"), 0));
    v.push((String::from_str("SUN"), 10));
    v.push((String::from_str("MERCURY BARYCENTER"), 1));
    v.push((String::from_str("VENUS BARYCENTER"), 2));
    v.push((String::from_str("EARTH BARYCENTER"), 3));
    v.push((String::from_str("MARS BARYCENTER"), 4));
    v.push((String::from_str("JUPITER BARYCENTER"), 5));
    v.push((String::from_str("SATURN BARYCENTER"), 6));
    v.push((String::from_str("URANUS BARYCENTER"), 7));
    v.push((String::from_str("NEPTUNE BARYCENTER"), 8));
    v.push((String::from_str("PLUTO BARYCENTER"), 9));
    v.push((String::from_str("MERCURY"), 199));
    v.push((String::from_str("VENUS"), 299));
    v.push((String::from_str("EARTH"), 399));
    v.push((String::from_str("MARS"), 499));
    v.push((String::from_str("JUPITER"), 599));
    v.push((String::from_str("SATURN"), 699));
    v.push((String::from_str("URANUS"), 799));
    v.push((String::from_str("NEPTUNE"), 899));
    v.push((String::from_str("PLUTO"), 999));
    v.push((String::from_str("MOON"), 301));
    v.push((String::from_str("LUNA"), 301));
    v.push((String::from_str("IO"), 501));
    v.push((String::from_str("EUROPA"), 502));
    v.push((String::from_str("GANYMEDE"), 503));
    v.push((String::from_str("CALLISTO"), 504));
    v.push((String::from_str("MIMAS"), 601));
    v.push((String::from_str("ENCELADUS"), 602));
    v.push((String::from_str("TETHYS"), 603));
    v.push((String::from_str("DIONE"), 604));
    v.push((String::from_str("RHEA"), 605));
    v.push((String::from_str("TITAN"), 606));
    v.push((String::from_str("IAPETUS"), 608));
    proof {
        assert(v@.map_values(|p: (String, i32)| (p.0@, p.1)) =~= spec_builtin_mapping());
    }
    v
}

/// Code of the first mapping entry named `n`.
fn mapping_code(n: &String) -> (r: Option<i32>)
    ensures
        r == crate::ephemeris::spec_table_code(spec_builtin_mapping(), n@),
{
    let table = builtin_mapping();
    let ghost tm = table@.map_values(|p: (String, i32)| (p.0@, p.1));
    proof {
        assert(tm.skip(0) =~= tm);
    }
    let mut i: usize = 0;
    while i < table.len()
        invariant
            i <= table@.len(),
            tm == table@.map_values(|p: (String, i32)| (p.0@, p.1)),
            tm == spec_builtin_mapping(),
            crate::ephemeris::spec_table_code(spec_builtin_mapping(), n@)
                == crate::ephemeris::spec_table_code(tm.skip(i as int), n@),
        decreases table@.len() - i,
    {
        proof {
            assert(tm[i as int] == (table@[i as int].0@, table@[i as int].1));
            assert(tm.skip(i as int)[0] == tm[i as int]);
            assert(tm.skip(i as int).drop_first() =~= tm.skip(i + 1));
        }
        if text::str_eq(table[i].0.as_str(), n.as_str()) {
            proof {
                assert(crate::ephemeris::spec_table_code(tm.skip(i as int), n@) == Some(
                    tm[i as int].1,
                ));
            }
            return Some(table[i].1);
        }
        i += 1;
    }
    proof {
        assert(tm.skip(i as int) =~= Seq::<(Seq<char>, i32)>::empty());
    }
    None
}

/// Name of the first mapping entry with code `c`.
fn mapping_name(c: i32) -> (r: Option<String>)
    ensures
        match r {
            Some(n) => crate::ephemeris::spec_table_name(spec_builtin_mapping(), c) == Some(n@),
            None => crate::ephemeris::spec_table_name(spec_builtin_mapping(), c) is None,
        },
{
    let table = builtin_mapping();
    let ghost tm = table@.map_values(|p: (String, i32)| (p.0@, p.1));
    proof {
        assert(tm.skip(0) =~= tm);
    }
    let mut i: usize = 0;
    while i < table.len()
        invariant
            i <= table@.len(),
            tm == table@.map_values(|p: (String, i32)| (p.0@, p.1)),
            tm == spec_builtin_mapping(),
            crate::ephemeris::spec_table_name(spec_builtin_mapping(), c)
                == crate::ephemeris::spec_table_name(tm.skip(i as int), c),
        decreases table@.len() - i,
    {
        proof {
            assert(tm[i as int] == (table@[i as int].0@, table@[i as int].1));
            assert(tm.skip(i as int)[0] == tm[i as int]);
            assert(tm.skip(i as int).drop_first() =~= tm.skip(i + 1));
        }
        if table[i].1 == c {
            proof {
                assert(crate::ephemeris::spec_table_name(tm.skip(i as int), c) == Some(
                    tm[i as int].0,
                ));
            }
            return Some(table[i].0.clone());
        }
        i += 1;
    }
    proof {
        assert(tm.skip(i as int) =~= Seq::<(Seq<char>, i32)>::empty());
    }
    None
}

/// The first integer read from a pool variable under the (normalized) key
/// `kk`: absent or empty reads as nothing; numeric values coerce; a
/// character value is a type error.
pub open spec fn spec_pool_first_int(m: Map<Seq<char>, PoolValueModel>, kk: Seq<char>) -> Result<
    Option<i32>,
    SpiceErrorType,
> {
    if !m.contains_key(kk) {
        Ok(None)
    } else {
        match m[kk] {
            PoolValueModel::Integers(s) => if s.len() > 0 {
                Ok(Some(s[0]))
            } else {
                Ok(None)
            },
            PoolValueModel::Doubles(s) => if s.len() > 0 {
                Ok(Some(dpword::dw_as_i32_spec(s[0])))
            } else {
                Ok(None)
            },
            PoolValueModel::Characters(_) => Err(SpiceErrorType::InvalidDataType),
        }
    }
}

/// The first string read from a pool variable under the (normalized) key
/// `kk`.
pub open spec fn spec_pool_first_string(
    m: Map<Seq<char>, PoolValueModel>,
    kk: Seq<char>,
) -> Result<Option<Seq<char>>, SpiceErrorType> {
    if !m.contains_key(kk) {
        Ok(None)
    } else {
        match m[kk] {
            PoolValueModel::Characters(s) => if s.len() > 0 {
                Ok(Some(s[0]))
            } else {
                Ok(None)
            },
            _ => Err(SpiceErrorType::InvalidDataType),
        }
    }
}

/// Read the first integer under `key` from the pool.
fn pool_first_int(pool: &KernelPool, key: &String) -> (r: SpiceResult<Option<i32>>)
    requires
        pool.wf(),
    ensures
        match r {
            Ok(v) => spec_pool_first_int(pool@, text::spec_upper_seq(key@)) == Ok::<
                Option<i32>,
                SpiceErrorType,
            >(v),
            Err(e) => spec_pool_first_int(pool@, text::spec_upper_seq(key@)) == Err::<
                Option<i32>,
                SpiceErrorType,
            >(e.error_type),
        },
{
    match pool.get_integer(key.as_str(), 0, 1) {
        Ok((vals, found)) => {
            if found && vals.len() > 0 {
                Ok(Some(vals[0]))
            } else {
                Ok(None)
            }
        },
        Err(e) => Err(e),
    }
}

/// Read the first string under `key` from the pool.
fn pool_first_string(pool: &KernelPool, key: &String) -> (r: SpiceResult<Option<String>>)
    requires
        pool.wf(),
    ensures
        match r {
            Ok(None) => spec_pool_first_string(pool@, text::spec_upper_seq(key@)) == Ok::<
                Option<Seq<char>>,
                SpiceErrorType,
            >(None),
            Ok(Some(n)) => spec_pool_first_string(pool@, text::spec_upper_seq(key@)) == Ok::<
                Option<Seq<char>>,
                SpiceErrorType,
            >(Some(n@)),
            Err(e) => spec_pool_first_string(pool@, text::spec_upper_seq(key@)) == Err::<
                Option<Seq<char>>,
                SpiceErrorType,
            >(e.error_type),
        },
{
    let ghost kk = text::spec_upper_seq(key@);
    match pool.get_character(key.as_str(), 0, 1) {
        Ok((vals, found)) => {
            if found && vals.len() > 0 {
                proof {
                    let chars = pool@[kk]->Characters_0;
                    assert(vals@.map_values(|s: String| s@) == kernel_pool::read_slice(
                        chars,
                        0,
                        1,
                    ));
                    assert(vals@.map_values(|s: String| s@)[0] == vals@[0]@);
                    assert(vals@.map_values(|s: String| s@).len() == vals@.len());
                    if chars.len() == 0 {
                        assert(kernel_pool::read_slice(chars, 0, 1) =~= Seq::<Seq<char>>::empty());
                        assert(false);
                    }
                    assert(kernel_pool::read_slice(chars, 0, 1)[0] == chars[0]);
                }
                let mut vals2 = vals;
                let n = vals2.remove(0);
                Ok(Some(n))
            } else {
                proof {
                    if found {
                        let chars = pool@[kk]->Characters_0;
                        assert(vals@.map_values(|s: String| s@) == kernel_pool::read_slice(
                            chars,
                            0,
                            1,
                        ));
                        if chars.len() > 0 {
                            assert(kernel_pool::read_slice(chars, 0, 1).len() > 0);
                        }
                    }
                }
                Ok(None)
            }
        },
        Err(e) => Err(e),
    }
}

/// The code denoted by a body name: the built-in mapping first (under case
/// folding), then a pool-defined `NAIF_BODY_NAME_` alias, then the name's
/// own numeric value; anything else is `InvalidTarget`.
pub open spec fn spec_body_name_to_code(m: Map<Seq<char>, PoolValueModel>, name: Seq<char>) -> Result<
    i32,
    SpiceErrorType,
> {
    let upper = text::spec_upper_seq(name);
    match crate::ephemeris::spec_table_code(spec_builtin_mapping(), upper) {
        Some(c) => Ok(c),
        None => {
            let kk = text::spec_upper_seq("NAIF_BODY_NAME_"@ + upper);
            match spec_pool_first_int(m, kk) {
                Err(e) => Err(e),
                Ok(Some(c)) => Ok(c),
                Ok(None) => match text::spec_parse_i32(name) {
                    Some(c) => Ok(c),
                    None => Err(SpiceErrorType::InvalidTarget),
                },
            }
        },
    }
}

/// Convert a body name to its code, consulting the pool for kernel-defined
/// aliases.
pub fn body_name_to_code(pool: &KernelPool, name: &str) -> (r: SpiceResult<i32>)
    requires
        pool.wf(),
    ensures
        match r {
            Ok(c) => spec_body_name_to_code(pool@, name@) == Ok::<i32, SpiceErrorType>(c),
            Err(e) => spec_body_name_to_code(pool@, name@) == Err::<i32, SpiceErrorType>(
                e.error_type,
            ),
        },
{
    let upper = text::to_upper(name);
    if let Some(c) = mapping_code(&upper) {
        return Ok(c);
    }
    let mut key = String::from_str("NAIF_BODY_NAME_");
    key.append(upper.as_str());
    match pool_first_int(pool, &key) {
        Ok(Some(c)) => Ok(c),
        Ok(None) => {
            if let Some(c) = text::parse_i32_str(name) {
                Ok(c)
            } else {
                Err(
                    SpiceError::new(
                        SpiceErrorType::InvalidTarget,
                        String::from_str("body name not recognized"),
                    ),
                )
            }
        },
        Err(e) => Err(e),
    }
}

/// The preferred display name of a well-known body code.
pub open spec fn spec_preferred_name(code: i32) -> Option<Seq<char>> {
    if code == 301i32 {
        Some("MOON"@)
    } else if code == 399i32 {
        Some("EARTH"@)
    } else if code == 10i32 {
        Some("SUN"@)
    } else if code == 499i32 {
        Some("MARS"@)
    } else if code == 599i32 {
        Some("JUPITER"@)
    } else if code == 699i32 {
        Some("SATURN"@)
    } else if code == 799i32 {
        Some("URANUS"@)
    } else if code == 899i32 {
        Some("NEPTUNE"@)
    } else if code == 999i32 {
        Some("PLUTO"@)
    } else if code == 199i32 {
        Some("MERCURY"@)
    } else if code == 299i32 {
        Some("VENUS"@)
    } else {
        None
    }
}

/// The name denoted by a body code: the preferred name for the major
/// bodies, then the first built-in mapping entry with the code, then a
/// pool-defined `NAIF_BODY_CODE_` alias; anything else is `InvalidTarget`.
pub open spec fn spec_body_code_to_name(m: Map<Seq<char>, PoolValueModel>, code: i32) -> Result<
    Seq<char>,
    SpiceErrorType,
> {
    match spec_preferred_name(code) {
        Some(n) => Ok(n),
        None => match crate::ephemeris::spec_table_name(spec_builtin_mapping(), code) {
            Some(n) => Ok(n),
            None => {
                let kk = text::spec_upper_seq("NAIF_BODY_CODE_"@ + text::spec_i32_chars(code as int));
                match spec_pool_first_string(m, kk) {
                    Err(e) => Err(e),
                    Ok(Some(n)) => Ok(n),
                    Ok(None) => Err(SpiceErrorType::InvalidTarget),
                }
            },
        },
    }
}

/// Convert a body code to its name, consulting the pool for kernel-defined
/// aliases.
pub fn body_code_to_name(pool: &KernelPool, code: i32) -> (r: SpiceResult<String>)
    requires
        pool.wf(),
    ensures
        match r {
            Ok(n) => spec_body_code_to_name(pool@, code) == Ok::<Seq<char>, SpiceErrorType>(n@),
            Err(e) => spec_body_code_to_name(pool@, code) == Err::<Seq<char>, SpiceErrorType>(
                e.error_type,
            ),
        },
{
    let preferred: Option<&'static str> = if code == 301 {
        Some("MOON")
    } else if code == 399 {
        Some("EARTH")
    } else if code == 10 {
        Some("SUN")
    } else if code == 499 {
        Some("MARS")
    } else if code == 599 {
        Some("JUPITER")
    } else if code == 699 {
        Some("SATURN")
    } else if code == 799 {
        Some("URANUS")
    } else if code == 899 {
        Some("NEPTUNE")
    } else if code == 999 {
        Some("PLUTO")
    } else if code == 199 {
        Some("MERCURY")
    } else if code == 299 {
        Some("VENUS")
    } else {
        None
    };
    if let Some(p) = preferred {
        return Ok(String::from_str(p));
    }
    if let Some(n) = mapping_name(code) {
        return Ok(n);
    }
    let mut key = String::from_str("NAIF_BODY_CODE_");
    let digits = text::i32_to_string(code);
    key.append(digits.as_str());
    match pool_first_string(pool, &key) {
        Ok(Some(n)) => Ok(n),
        Ok(None) => Err(
            SpiceError::new(
                SpiceErrorType::InvalidTarget,
                String::from_str("body code not recognized"),
            ),
        ),
        Err(e) => Err(e),
    }
}

/// Whether a body is recognized: a built-in name, a pool-defined alias, or
/// a numeric code with a known name or pool-defined code entry.
pub open spec fn spec_body_found(m: Map<Seq<char>, PoolValueModel>, body: Seq<char>) -> bool {
    let upper = text::spec_upper_seq(body);
    ||| crate::ephemeris::spec_table_code(spec_builtin_mapping(), upper) is Some
    ||| m.contains_key("NAIF_BODY_NAME_"@ + upper)
    ||| match text::spec_parse_i32(body) {
        Some(c) => spec_body_code_to_name(m, c) is Ok || m.contains_key(
            "NAIF_BODY_CODE_"@ + text::spec_i32_chars(c as int),
        ),
        None => false,
    }
}

/// Check whether a body name or numeric code is recognized.
pub fn body_found(pool: &KernelPool, body: &str) -> (r: bool)
    requires
        pool.wf(),
    ensures
        r == spec_body_found(pool@, body@),
{
    let upper = text::to_upper(body);
    if let Some(_) = mapping_code(&upper) {
        return true;
    }
    let mut key = String::from_str("NAIF_BODY_NAME_");
    key.append(upper.as_str());
    if pool.contains_variable(key.as_str()) {
        return true;
    }
    if let Some(c) = text::parse_i32_str(body) {
        match body_code_to_name(pool, c) {
            Ok(_) => {
                return true;
            },
            Err(_) => {},
        }
        let mut key2 = String::from_str("NAIF_BODY_CODE_");
        let digits = text::i32_to_string(c);
        key2.append(digits.as_str());
        if pool.contains_variable(key2.as_str()) {
            return true;
        }
    }
    false
}

/// The central body of a code by the code-range conventions: the
/// solar-system barycenter has no center; the Sun and the planetary
/// barycenters orbit it; each planet and its satellites orbit the planet's
/// barycenter; other codes consult a pool-defined `BODY<code>_CENTER` and
/// default to the solar-system barycenter.
pub open spec fn spec_center_of_code(m: Map<Seq<char>, PoolValueModel>, code: i32) -> Result<
    i32,
    SpiceErrorType,
> {
    if code == 0i32 {
        Err(SpiceErrorType::InvalidTarget)
    } else if code == 10i32 || (1i32 <= code && code <= 9i32) {
        Ok(0i32)
    } else if code == 199i32 {
        Ok(1i32)
    } else if code == 299i32 {
        Ok(2i32)
    } else if 301i32 <= code && code <= 399i32 {
        Ok(3i32)
    } else if 401i32 <= code && code <= 499i32 {
        Ok(4i32)
    } else if 501i32 <= code && code <= 599i32 {
        Ok(5i32)
    } else if 601i32 <= code && code <= 699i32 {
        Ok(6i32)
    } else if 701i32 <= code && code <= 799i32 {
        Ok(7i32)
    } else if 801i32 <= code && code <= 899i32 {
        Ok(8i32)
    } else if 901i32 <= code && code <= 999i32 {
        Ok(9i32)
    } else {
        let kk = text::spec_upper_seq(
            "BODY"@ + text::spec_i32_chars(code as int) + "_CENTER"@,
        );
        match spec_pool_first_int(m, kk) {
            Err(e) => Err(e),
            Ok(Some(c)) => Ok(c),
            Ok(None) => Ok(0i32),
        }
    }
}

/// The central body of a named body.
pub open spec fn spec_body_center(m: Map<Seq<char>, PoolValueModel>, body: Seq<char>) -> Result<
    i32,
    SpiceErrorType,
> {
    match text::spec_parse_i32(body) {
        Some(c) => spec_center_of_code(m, c),
        None => match spec_body_name_to_code(m, body) {
            Ok(c) => spec_center_of_code(m, c),
            Err(e) => Err(e),
        },
    }
}

/// The central body for a given body name or code.
pub fn body_center(pool: &KernelPool, body: &str) -> (r: SpiceResult<i32>)
    requires
        pool.wf(),
    ensures
        match r {
            Ok(c) => spec_body_center(pool@, body@) == Ok::<i32, SpiceErrorType>(c),
            Err(e) => spec_body_center(pool@, body@) == Err::<i32, SpiceErrorType>(e.error_type),
        },
{
    let code = if let Some(c) = text::parse_i32_str(body) {
        c
    } else {
        match body_name_to_code(pool, body) {
            Ok(c) => c,
            Err(e) => {
                return Err(e);
            },
        }
    };
    if code == 0 {
        return Err(
            SpiceError::new(
                SpiceErrorType::InvalidTarget,
                String::from_str("solar system barycenter has no center"),
            ),
        );
    }
    if code == 10 || (1 <= code && code <= 9) {
        return Ok(0);
    }
    if code == 199 {
        return Ok(1);
    }
    if code == 299 {
        return Ok(2);
    }
    if 301 <= code && code <= 399 {
        return Ok(3);
    }
    if 401 <= code && code <= 499 {
        return Ok(4);
    }
    if 501 <= code && code <= 599 {
        return Ok(5);
    }
    if 601 <= code && code <= 699 {
        return Ok(6);
    }
    if 701 <= code && code <= 799 {
        return Ok(7);
    }
    if 801 <= code && code <= 899 {
        return Ok(8);
    }
    if 901 <= code && code <= 999 {
        return Ok(9);
    }
    let mut key = String::from_str("BODY");
    let digits = text::i32_to_string(code);
    key.append(digits.as_str());
    key.append("_CENTER");
    match pool_first_int(pool, &key) {
        Ok(Some(c)) => Ok(c),
        Ok(None) => Ok(0),
        Err(e) => Err(e),
    }
}


// ---------------------------------------------------------------------------
// Physical constants
// ---------------------------------------------------------------------------

/// The d.p. word of 0.0 as a one-element list (nutation/precession
/// placeholder).
pub open spec fn spec_zero_list() -> Seq<u64> {
    seq![0u64]
}

/// Built-in physical constants for the Sun, Earth, the Moon, Mars and
/// Jupiter, by item name; values are d.p. words. Radii are triaxial
/// (kilometres), GM is in km^3/s^2, pole angles and prime meridian are in
/// degrees.
pub open spec fn spec_builtin_item(code: i32, item: Seq<char>) -> Option<Seq<u64>> {
    if code == 10i32 {
        if item == "RADII"@ {
            Some(seq![0x41253D8000000000u64, 0x41253D8000000000u64, 0x41253D8000000000u64])
        } else if item == "GM"@ {
            Some(seq![0x423EE64720E90000u64])
        } else if item == "POLE_RA"@ {
            Some(seq![0x4071E2147AE147AEu64])
        } else if item == "POLE_DEC"@ {
            Some(seq![0x404FEF5C28F5C28Fu64])
        } else if item == "PM"@ {
            Some(seq![0x40550B4395810625u64])
        } else if item == "NUT_PREC_RA"@ || item == "NUT_PREC_DEC"@ || item == "NUT_PREC_PM"@ {
            Some(spec_zero_list())
        } else {
            None
        }
    } else if code == 399i32 {
        if item == "RADII"@ {
            Some(seq![0x40B8EA22F837B4A2u64, 0x40B8EA22F837B4A2u64, 0x40B8D4C07C84B5DDu64])
        } else if item == "GM"@ {
            Some(seq![0x41185421BDE2F5BFu64])
        } else if item == "J2"@ {
            Some(seq![0x3F51BCE7722CA7B0u64])
        } else if item == "POLE_RA"@ {
            Some(seq![0u64])
        } else if item == "POLE_DEC"@ {
            Some(seq![0x4056800000000000u64])
        } else if item == "PM"@ {
            Some(seq![0x4067C4B439581062u64])
        } else if item == "NUT_PREC_RA"@ || item == "NUT_PREC_DEC"@ || item == "NUT_PREC_PM"@ {
            Some(spec_zero_list())
        } else {
            None
        }
    } else if code == 301i32 {
        if item == "RADII"@ {
            Some(seq![0x409B25999999999Au64, 0x409B25999999999Au64, 0x409B25999999999Au64])
        } else if item == "GM"@ {
            Some(seq![0x40B326DE978D4FDFu64])
        } else if item == "J2"@ {
            Some(seq![0x3F2A917BBDE67FFCu64])
        } else if item == "POLE_RA"@ {
            Some(seq![0x4070DFEB1C432CA5u64])
        } else if item == "POLE_DEC"@ {
            Some(seq![0x4050A28240B78034u64])
        } else if item == "PM"@ {
            Some(seq![0x404329205BC01A37u64])
        } else if item == "NUT_PREC_RA"@ || item == "NUT_PREC_DEC"@ || item == "NUT_PREC_PM"@ {
            Some(spec_zero_list())
        } else {
            None
        }
    } else if code == 499i32 {
        if item == "RADII"@ {
            Some(seq![0x40AA886147AE147Bu64, 0x40AA886147AE147Bu64, 0x40AA606666666666u64])
        } else if item == "GM"@ {
            Some(seq![0x40E4E98BD70A3D71u64])
        } else if item == "J2"@ {
            Some(seq![0x3F60060780FDC161u64])
        } else if item == "POLE_RA"@ {
            Some(seq![0x4073DAE72324C836u64])
        } else if item == "POLE_DEC"@ {
            Some(seq![0x404A7178D4FDF3B6u64])
        } else if item == "PM"@ {
            Some(seq![0x40661428F5C28F5Cu64])
        } else if item == "NUT_PREC_RA"@ || item == "NUT_PREC_DEC"@ || item == "NUT_PREC_PM"@ {
            Some(spec_zero_list())
        } else {
            None
        }
    } else if code == 599i32 {
        if item == "RADII"@ {
            Some(seq![0x40F1744000000000u64, 0x40F1744000000000u64, 0x40F0526000000000u64])
        } else if item == "GM"@ {
            Some(seq![0x419E34551B99999Au64])
        } else if item == "J2"@ {
            Some(seq![0x3F8E1975F2CB6417u64])
        } else if item == "POLE_RA"@ {
            Some(seq![0x4070C0E7D028A1E0u64])
        } else if item == "POLE_DEC"@ {
            Some(seq![0x40501FB30B5AA716u64])
        } else if item == "PM"@ {
            Some(seq![0x4071CF3333333333u64])
        } else if item == "NUT_PREC_RA"@ || item == "NUT_PREC_DEC"@ || item == "NUT_PREC_PM"@ {
            Some(spec_zero_list())
        } else {
            None
        }
    } else {
        None
    }
}

/// Up to ten doubles read from a pool variable under the (normalized) key
/// `kk`, with integer coercion; a character value is a type error.
pub open spec fn spec_pool_doubles10(m: Map<Seq<char>, PoolValueModel>, kk: Seq<char>) -> Result<
    Seq<u64>,
    SpiceErrorType,
> {
    if !m.contains_key(kk) {
        Ok(Seq::empty())
    } else {
        match m[kk] {
            PoolValueModel::Doubles(s) => Ok(kernel_pool::read_slice(s, 0, 10)),
            PoolValueModel::Integers(s) => Ok(
                kernel_pool::read_slice(s, 0, 10).map_values(
                    |x: i32| dpword::dw_of_int(x as int),
                ),
            ),
            PoolValueModel::Characters(_) => Err(SpiceErrorType::InvalidDataType),
        }
    }
}

/// Body constants for `body` and `item`: a pool-defined
/// `BODY<code>_<ITEM>` variable wins; otherwise the built-in constants
/// serve the Sun, Earth, the Moon, Mars and Jupiter; anything else is
/// `InsufficientData`.
pub open spec fn spec_body_data(
    m: Map<Seq<char>, PoolValueModel>,
    body: Seq<char>,
    item: Seq<char>,
) -> Result<Seq<u64>, SpiceErrorType> {
    let coder = match text::spec_parse_i32(body) {
        Some(c) => Ok(c),
        None => spec_body_name_to_code(m, body),
    };
    match coder {
        Err(e) => Err(e),
        Ok(code) => {
            let item_upper = text::spec_upper_seq(item);
            let kk = text::spec_upper_seq(
                "BODY"@ + text::spec_i32_chars(code as int) + "_"@ + item_upper,
            );
            match spec_pool_doubles10(m, kk) {
                Err(e) => Err(e),
                Ok(vs) => if vs.len() > 0 {
                    Ok(vs)
                } else {
                    match spec_builtin_item(code, item_upper) {
                        Some(v) => Ok(v),
                        None => Err(SpiceErrorType::InsufficientData),
                    }
                },
            }
        },
    }
}

/// Read up to ten doubles under `key` from the pool.
fn pool_doubles10(pool: &KernelPool, key: &String) -> (r: SpiceResult<Vec<u64>>)
    requires
        pool.wf(),
    ensures
        match r {
            Ok(v) => spec_pool_doubles10(pool@, text::spec_upper_seq(key@)) == Ok::<
                Seq<u64>,
                SpiceErrorType,
            >(v@),
            Err(e) => spec_pool_doubles10(pool@, text::spec_upper_seq(key@)) == Err::<
                Seq<u64>,
                SpiceErrorType,
            >(e.error_type),
        },
{
    match pool.get_double(key.as_str(), 0, 10) {
        Ok((vals, found)) => {
            proof {
                if !found {
                    assert(vals@ =~= Seq::<u64>::empty());
                }
            }
            Ok(vals)
        },
        Err(e) => Err(e),
    }
}

/// One built-in scalar item as a vector.
fn one_word(w: u64) -> (r: Vec<u64>)
    ensures
        r@ =~= seq![w],
{
    let mut v: Vec<u64> = Vec::new();
    v.push(w);
    v
}

/// Three built-in radii as a vector.
fn three_words(a: u64, b: u64, c: u64) -> (r: Vec<u64>)
    ensures
        r@ =~= seq![a, b, c],
{
    let mut v: Vec<u64> = Vec::new();
    v.push(a);
    v.push(b);
    v.push(c);
    v
}

/// The built-in item for a code, if any.
fn builtin_item(code: i32, item_upper: &String) -> (r: Option<Vec<u64>>)
    ensures
        match r {
            Some(v) => spec_builtin_item(code, item_upper@) == Some(v@),
            None => spec_builtin_item(code, item_upper@) is None,
        },
{
    let it = item_upper.as_str();
    if code == 10 {
        if text::str_eq(it, "RADII") {
            Some(three_words(0x41253D8000000000, 0x41253D8000000000, 0x41253D8000000000))
        } else if text::str_eq(it, "GM") {
            Some(one_word(0x423EE64720E90000))
        } else if text::str_eq(it, "POLE_RA") {
            Some(one_word(0x4071E2147AE147AE))
        } else if text::str_eq(it, "POLE_DEC") {
            Some(one_word(0x404FEF5C28F5C28F))
        } else if text::str_eq(it, "PM") {
            Some(one_word(0x40550B4395810625))
        } else if text::str_eq(it, "NUT_PREC_RA") || text::str_eq(it, "NUT_PREC_DEC")
            || text::str_eq(it, "NUT_PREC_PM") {
            Some(one_word(0))
        } else {
            None
        }
    } else if code == 399 {
        if text::str_eq(it, "RADII") {
            Some(three_words(0x40B8EA22F837B4A2, 0x40B8EA22F837B4A2, 0x40B8D4C07C84B5DD))
        } else if text::str_eq(it, "GM") {
            Some(one_word(0x41185421BDE2F5BF))
        } else if text::str_eq(it, "J2") {
            Some(one_word(0x3F51BCE7722CA7B0))
        } else if text::str_eq(it, "POLE_RA") {
            Some(one_word(0))
        } else if text::str_eq(it, "POLE_DEC") {
            Some(one_word(0x4056800000000000))
        } else if text::str_eq(it, "PM") {
            Some(one_word(0x4067C4B439581062))
        } else if text::str_eq(it, "NUT_PREC_RA") || text::str_eq(it, "NUT_PREC_DEC")
            || text::str_eq(it, "NUT_PREC_PM") {
            Some(one_word(0))
        } else {
            None
        }
    } else if code == 301 {
        if text::str_eq(it, "RADII") {
            Some(three_words(0x409B25999999999A, 0x409B25999999999A, 0x409B25999999999A))
        } else if text::str_eq(it, "GM") {
            Some(one_word(0x40B326DE978D4FDF))
        } else if text::str_eq(it, "J2") {
            Some(one_word(0x3F2A917BBDE67FFC))
        } else if text::str_eq(it, "POLE_RA") {
            Some(one_word(0x4070DFEB1C432CA5))
        } else if text::str_eq(it, "POLE_DEC") {
            Some(one_word(0x4050A28240B78034))
        } else if text::str_eq(it, "PM") {
            Some(one_word(0x404329205BC01A37))
        } else if text::str_eq(it, "NUT_PREC_RA") || text::str_eq(it, "NUT_PREC_DEC")
            || text::str_eq(it, "NUT_PREC_PM") {
            Some(one_word(0))
        } else {
            None
        }
    } else if code == 499 {
        if text::str_eq(it, "RADII") {
            Some(three_words(0x40AA886147AE147B, 0x40AA886147AE147B, 0x40AA606666666666))
        } else if text::str_eq(it, "GM") {
            Some(one_word(0x40E4E98BD70A3D71))
        } else if text::str_eq(it, "J2") {
            Some(one_word(0x3F60060780FDC161))
        } else if text::str_eq(it, "POLE_RA") {
            Some(one_word(0x4073DAE72324C836))
        } else if text::str_eq(it, "POLE_DEC") {
            Some(one_word(0x404A7178D4FDF3B6))
        } else if text::str_eq(it, "PM") {
            Some(one_word(0x40661428F5C28F5C))
        } else if text::str_eq(it, "NUT_PREC_RA") || text::str_eq(it, "NUT_PREC_DEC")
            || text::str_eq(it, "NUT_PREC_PM") {
            Some(one_word(0))
        } else {
            None
        }
    } else if code == 599 {
        if text::str_eq(it, "RADII") {
            Some(three_words(0x40F1744000000000, 0x40F1744000000000, 0x40F0526000000000))
        } else if text::str_eq(it, "GM") {
            Some(one_word(0x419E34551B99999A))
        } else if text::str_eq(it, "J2") {
            Some(one_word(0x3F8E1975F2CB6417))
        } else if text::str_eq(it, "POLE_RA") {
            Some(one_word(0x4070C0E7D028A1E0))
        } else if text::str_eq(it, "POLE_DEC") {
            Some(one_word(0x40501FB30B5AA716))
        } else if text::str_eq(it, "PM") {
            Some(one_word(0x4071CF3333333333))
        } else if text::str_eq(it, "NUT_PREC_RA") || text::str_eq(it, "NUT_PREC_DEC")
            || text::str_eq(it, "NUT_PREC_PM") {
            Some(one_word(0))
        } else {
            None
        }
    } else {
        None
    }
}

/// Retrieve body constants (as d.p. words) from the pool or the built-in
/// data.
pub fn body_data(pool: &KernelPool, body: &str, item: &str) -> (r: SpiceResult<Vec<u64>>)
    requires
        pool.wf(),
    ensures
        match r {
            Ok(v) => spec_body_data(pool@, body@, item@) == Ok::<Seq<u64>, SpiceErrorType>(v@),
            Err(e) => spec_body_data(pool@, body@, item@) == Err::<Seq<u64>, SpiceErrorType>(
                e.error_type,
            ),
        },
{
    let code = if let Some(c) = text::parse_i32_str(body) {
        c
    } else {
        match body_name_to_code(pool, body) {
            Ok(c) => c,
            Err(e) => {
                return Err(e);
            },
        }
    };
    let item_upper = text::to_upper(item);
    let mut key = String::from_str("BODY");
    let digits = text::i32_to_string(code);
    key.append(digits.as_str());
    key.append("_");
    key.append(item_upper.as_str());
    let vs = match pool_doubles10(pool, &key) {
        Ok(vs) => vs,
        Err(e) => {
            return Err(e);
        },
    };
    if vs.len() > 0 {
        return Ok(vs);
    }
    match builtin_item(code, &item_upper) {
        Some(v) => Ok(v),
        None => Err(
            SpiceError::new(
                SpiceErrorType::InsufficientData,
                String::from_str("body data item not found"),
            ),
        ),
    }
}

} // verus!
