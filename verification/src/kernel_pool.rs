//! The variable pool: a typed key/value store for scalar and list-valued
//! quantities parsed out of text kernels.
//!
//! Keys are case-normalized variable names; values are lists of character
//! strings, double-precision words, or integers. Numeric and integer values
//! are mutually coercible on read; character values are not.

use vstd::prelude::*;

use crate::dpword;
use crate::error_handling::{SpiceError, SpiceErrorType, SpiceResult};
use crate::text;

verus! {

/// Maximum length of a pool variable name, in characters.
pub const MAX_VARIABLE_NAME_LENGTH: usize = 32;

/// Maximum number of values one variable may hold.
pub const MAX_VALUES_PER_VARIABLE: usize = 40000;

/// Data types of pool variables.
#[derive(Debug, Clone, Copy, PartialEq, Eq, Structural)]
pub enum PoolDataType {
    /// Character string data
    Character,
    /// Double precision numeric data
    Double,
    /// Integer numeric data
    Integer,
}

/// A value held by one pool variable.
#[derive(Debug, Clone)]
pub enum PoolValue {
    /// String values
    Characters(Vec<String>),
    /// Double precision values, as d.p. words
    Doubles(Vec<u64>),
    /// Integer values
    Integers(Vec<i32>),
}

/// Mathematical model of one pool value.
pub ghost enum PoolValueModel {
    Characters(Seq<Seq<char>>),
    Doubles(Seq<u64>),
    Integers(Seq<i32>),
}

impl View for PoolValue {
    type V = PoolValueModel;

    open spec fn view(&self) -> PoolValueModel {
        match self {
            PoolValue::Characters(v) => PoolValueModel::Characters(
                v@.map_values(|s: String| s@),
            ),
            PoolValue::Doubles(v) => PoolValueModel::Doubles(v@),
            PoolValue::Integers(v) => PoolValueModel::Integers(v@),
        }
    }
}

/// The data type of a modelled pool value.
pub open spec fn model_data_type(v: PoolValueModel) -> PoolDataType {
    match v {
        PoolValueModel::Characters(_) => PoolDataType::Character,
        PoolValueModel::Doubles(_) => PoolDataType::Double,
        PoolValueModel::Integers(_) => PoolDataType::Integer,
    }
}

/// The number of values in a modelled pool value.
pub open spec fn model_len(v: PoolValueModel) -> int {
    match v {
        PoolValueModel::Characters(s) => s.len() as int,
        PoolValueModel::Doubles(s) => s.len() as int,
        PoolValueModel::Integers(s) => s.len() as int,
    }
}

impl PoolValue {
    /// The data type of this value.
    pub fn data_type(&self) -> (r: PoolDataType)
        ensures
            r == model_data_type(self@),
    {
        match self {
            PoolValue::Characters(_) => PoolDataType::Character,
            PoolValue::Doubles(_) => PoolDataType::Double,
            PoolValue::Integers(_) => PoolDataType::Integer,
        }
    }

    /// The number of values.
    pub fn len(&self) -> (r: usize)
        ensures
            r == model_len(self@),
    {
        match self {
            PoolValue::Characters(v) => v.len(),
            PoolValue::Doubles(v) => v.len(),
            PoolValue::Integers(v) => v.len(),
        }
    }

    /// Whether the value list is empty.
    pub fn is_empty(&self) -> (r: bool)
        ensures
            r == (model_len(self@) == 0),
    {
        self.len() == 0
    }
}

/// The map denoted by an association list of pool entries (later entries
/// shadow earlier ones; the pool keeps keys distinct, so order is
/// immaterial).
pub open spec fn pool_map(es: Seq<(String, PoolValue)>) -> Map<Seq<char>, PoolValueModel>
    decreases es.len(),
{
    if es.len() == 0 {
        Map::empty()
    } else {
        pool_map(es.drop_last()).insert(es.last().0@, es.last().1@)
    }
}

/// Distinctness of the keys of an association list.
pub open spec fn pool_keys_distinct(es: Seq<(String, PoolValue)>) -> bool {
    forall|i: int, j: int|
        #![trigger es[i].0, es[j].0]
        0 <= i < j < es.len() ==> es[i].0@ != es[j].0@
}

/// A key is in the map exactly when some entry carries it.
proof fn lemma_pool_map_contains(es: Seq<(String, PoolValue)>, k: Seq<char>)
    ensures
        pool_map(es).contains_key(k) <==> exists|i: int|
            0 <= i < es.len() && #[trigger] es[i].0@ == k,
    decreases es.len(),
{
    if es.len() > 0 {
        lemma_pool_map_contains(es.drop_last(), k);
        if es.last().0@ == k {
            assert(es[es.len() - 1].0@ == k);
        } else {
            if exists|i: int| 0 <= i < es.len() && #[trigger] es[i].0@ == k {
                let i = choose|i: int| 0 <= i < es.len() && #[trigger] es[i].0@ == k;
                if i < es.len() - 1 {
                    assert(es.drop_last()[i].0@ == k);
                }
            }
        }
    }
}

/// Under distinct keys, the map sends each entry's key to its value.
proof fn lemma_pool_map_get(es: Seq<(String, PoolValue)>, i: int)
    requires
        pool_keys_distinct(es),
        0 <= i < es.len(),
    ensures
        pool_map(es).contains_key(es[i].0@),
        pool_map(es)[es[i].0@] == es[i].1@,
    decreases es.len(),
{
    lemma_pool_map_contains(es, es[i].0@);
    if i == es.len() - 1 {
    } else {
        assert(pool_keys_distinct(es.drop_last()));
        assert(es.drop_last()[i].0 == es[i].0);
        assert(es.drop_last()[i].1 == es[i].1);
        lemma_pool_map_get(es.drop_last(), i);
        assert(es[i].0@ != es.last().0@);
    }
}

/// Removing the entry at `i` removes exactly its key from the map.
proof fn lemma_pool_map_remove(es: Seq<(String, PoolValue)>, i: int)
    requires
        pool_keys_distinct(es),
        0 <= i < es.len(),
    ensures
        pool_map(es.subrange(0, i) + es.subrange(i + 1, es.len() as int)) =~= pool_map(es).remove(
            es[i].0@,
        ),
    decreases es.len(),
{
    let removed = es.subrange(0, i) + es.subrange(i + 1, es.len() as int);
    if i == es.len() - 1 {
        assert(removed =~= es.drop_last());
        lemma_pool_map_contains(es.drop_last(), es[i].0@);
        assert forall|j: int| 0 <= j < es.drop_last().len() implies #[trigger] es.drop_last()[j].0@
            != es[i].0@ by {
            assert(es.drop_last()[j].0 == es[j].0);
        }
        assert(!pool_map(es.drop_last()).contains_key(es[i].0@));
        assert(pool_map(es.drop_last()) =~= pool_map(es.drop_last()).insert(
            es.last().0@,
            es.last().1@,
        ).remove(es[i].0@));
    } else {
        assert(pool_keys_distinct(es.drop_last()));
        let inner = es.drop_last().subrange(0, i) + es.drop_last().subrange(
            i + 1,
            es.drop_last().len() as int,
        );
        lemma_pool_map_remove(es.drop_last(), i);
        assert(removed.drop_last() =~= inner);
        assert(removed.last() == es.last());
        assert(pool_map(removed) == pool_map(inner).insert(es.last().0@, es.last().1@));
        assert(es[i].0@ != es.last().0@);
        assert(pool_map(inner).insert(es.last().0@, es.last().1@) =~= pool_map(es).remove(
            es[i].0@,
        ));
    }
}

/// Under distinct keys, the map's domain has one key per entry.
proof fn lemma_pool_map_card(es: Seq<(String, PoolValue)>)
    requires
        pool_keys_distinct(es),
    ensures
        pool_map(es).dom().finite(),
        pool_map(es).dom().len() == es.len(),
    decreases es.len(),
{
    if es.len() == 0 {
        assert(pool_map(es).dom() =~= Set::<Seq<char>>::empty());
    } else {
        assert(pool_keys_distinct(es.drop_last()));
        lemma_pool_map_card(es.drop_last());
        lemma_pool_map_contains(es.drop_last(), es.last().0@);
        assert forall|j: int| 0 <= j < es.drop_last().len() implies #[trigger] es.drop_last()[j].0@
            != es.last().0@ by {
            assert(es.drop_last()[j].0 == es[j].0);
        }
        assert(!pool_map(es.drop_last()).contains_key(es.last().0@));
        assert(pool_map(es).dom() =~= pool_map(es.drop_last()).dom().insert(es.last().0@));
    }
}

/// The kernel pool: a mapping from case-normalized variable names to typed
/// value lists.
#[derive(Debug)]
pub struct KernelPool {
    variables: Vec<(String, PoolValue)>,
}

impl View for KernelPool {
    type V = Map<Seq<char>, PoolValueModel>;

    closed spec fn view(&self) -> Map<Seq<char>, PoolValueModel> {
        pool_map(self.variables@)
    }
}

/// Validity of a variable name: non-empty and within the length bound.
pub open spec fn valid_variable_name(name: Seq<char>) -> bool {
    1 <= name.len() <= MAX_VARIABLE_NAME_LENGTH
}

/// A character permitted in an assignment name of the text-kernel
/// grammar: a letter, a digit, or an underscore.
pub open spec fn spec_name_char(c: char) -> bool {
    (65 <= c as u32 && c as u32 <= 90) || (97 <= c as u32 && c as u32 <= 122) || (48 <= c as u32
        && c as u32 <= 57) || c as u32 == 95
}

/// A name acceptable on the left of a text-kernel assignment: valid in
/// length and made of letters, digits and underscores only.
pub open spec fn spec_assignment_name(name: Seq<char>) -> bool {
    &&& valid_variable_name(name)
    &&& forall|i: int| 0 <= i < name.len() ==> spec_name_char(#[trigger] name[i])
}

impl KernelPool {
    /// Structural invariant: stored keys are distinct; every entry has a
    /// valid name and at most the allowed number of values.
    pub closed spec fn wf(&self) -> bool {
        &&& pool_keys_distinct(self.variables@)
        &&& forall|i: int|
            0 <= i < self.variables@.len() ==> valid_variable_name(
                #[trigger] self.variables@[i].0@,
            ) && model_len(self.variables@[i].1@) <= MAX_VALUES_PER_VARIABLE
    }

    /// Create a new, empty pool.
    pub fn new() -> (r: Self)
        ensures
            r.wf(),
            r@ == Map::<Seq<char>, PoolValueModel>::empty(),
    {
        KernelPool { variables: Vec::new() }
    }

    /// Remove every variable.
    pub fn clear(&mut self)
        ensures
            final(self).wf(),
            final(self)@ == Map::<Seq<char>, PoolValueModel>::empty(),
    {
        self.variables.clear();
    }

    /// Whether a variable exists under the given (not case-normalized) name.
    pub fn contains_variable(&self, name: &str) -> (r: bool)
        requires
            self.wf(),
        ensures
            r == self@.contains_key(name@),
    {
        proof {
            lemma_pool_map_contains(self.variables@, name@);
        }
        let mut i: usize = 0;
        while i < self.variables.len()
            invariant
                i <= self.variables@.len(),
                forall|j: int| 0 <= j < i ==> #[trigger] self.variables@[j].0@ != name@,
            decreases self.variables@.len() - i,
        {
            if text::str_eq(self.variables[i].0.as_str(), name) {
                proof {
                    lemma_pool_map_contains(self.variables@, name@);
                }
                return true;
            }
            i += 1;
        }
        proof {
            lemma_pool_map_contains(self.variables@, name@);
        }
        false
    }

    /// The number of variables in the pool.
    pub fn variable_count(&self) -> (r: usize)
        requires
            self.wf(),
        ensures
            r == self@.dom().len(),
    {
        proof {
            lemma_pool_map_card(self.variables@);
        }
        self.variables.len()
    }

    /// Index of the entry stored under the (already normalized) name.
    fn find_index(&self, name: &String) -> (r: Option<usize>)
        requires
            self.wf(),
        ensures
            match r {
                Some(i) => i < self.variables@.len() && self.variables@[i as int].0@ == name@,
                None => !self@.contains_key(name@),
            },
    {
        let mut i: usize = 0;
        while i < self.variables.len()
            invariant
                i <= self.variables@.len(),
                forall|j: int| 0 <= j < i ==> #[trigger] self.variables@[j].0@ != name@,
            decreases self.variables@.len() - i,
        {
            if text::str_eq(self.variables[i].0.as_str(), name.as_str()) {
                return Some(i);
            }
            i += 1;
        }
        proof {
            lemma_pool_map_contains(self.variables@, name@);
        }
        None
    }

    /// Store `value` under the normalized `upper` name, replacing any prior
    /// value.
    #[verifier::rlimit(100)]
    #[verifier::spinoff_prover]
    fn put_value(&mut self, upper: String, value: PoolValue)
        requires
            old(self).wf(),
            valid_variable_name(upper@),
            model_len(value@) <= MAX_VALUES_PER_VARIABLE,
        ensures
            final(self).wf(),
            final(self)@ == old(self)@.insert(upper@, value@),
    {
        let ghost es0 = self.variables@;
        let ghost uv = upper@;
        let ghost vv = value@;
        proof {
            assert(forall|a: int|
                0 <= a < es0.len() ==> valid_variable_name(#[trigger] es0[a].0@) && model_len(
                    es0[a].1@,
                ) <= MAX_VALUES_PER_VARIABLE);
        }
        match self.find_index(&upper) {
            Some(i) => {
                proof {
                    lemma_pool_map_remove(es0, i as int);
                }
                let _ = self.variables.remove(i);
                let ghost es1 = self.variables@;
                self.variables.push((upper, value));
                proof {
                    assert(self.variables@.drop_last() =~= es1);
                    assert(self.variables@.last().0@ == uv);
                    assert(self.variables@.last().1@ == vv);
                    assert(valid_variable_name(self.variables@.last().0@));
                    assert(model_len(self.variables@.last().1@) <= MAX_VALUES_PER_VARIABLE);
                    assert(es1 =~= es0.subrange(0, i as int) + es0.subrange(
                        i as int + 1,
                        es0.len() as int,
                    ));
                    assert(pool_map(self.variables@) =~= pool_map(es0).insert(
                        self.variables@.last().0@,
                        self.variables@.last().1@,
                    ));
                    assert forall|a: int, b: int|
                        #![trigger self.variables@[a].0, self.variables@[b].0]
                        0 <= a < b < self.variables@.len() implies self.variables@[a].0@
                        != self.variables@[b].0@ by {
                        if b < self.variables@.len() - 1 {
                            assert(self.variables@[a] == es1[a]);
                            assert(self.variables@[b] == es1[b]);
                            if a < i {
                                assert(es1[a] == es0[a]);
                            } else {
                                assert(es1[a] == es0[a + 1]);
                            }
                            if b < i {
                                assert(es1[b] == es0[b]);
                            } else {
                                assert(es1[b] == es0[b + 1]);
                            }
                        } else {
                            assert(self.variables@[a] == es1[a]);
                            lemma_pool_map_contains(es1, upper@);
                            assert(pool_map(es1) =~= pool_map(es0).remove(upper@));
                            assert(!pool_map(es1).contains_key(upper@));
                        }
                    }
                    assert forall|a: int|
                        #![trigger self.variables@[a].0]
                        0 <= a < self.variables@.len() implies valid_variable_name(
                        self.variables@[a].0@,
                    ) && model_len(self.variables@[a].1@) <= MAX_VALUES_PER_VARIABLE by {
                        if a < self.variables@.len() - 1 {
                            assert(self.variables@[a] == es1[a]);
                            if a < i {
                                assert(es1[a] == es0[a]);
                            } else {
                                assert(es1[a] == es0[a + 1]);
                            }
                        } else {
                            assert(self.variables@[a] == self.variables@.last());
                        }
                    }
                    assert(self@ =~= pool_map(es0).insert(uv, vv));
                    assert(pool_keys_distinct(self.variables@));
                }
            },
            None => {
                self.variables.push((upper, value));
                proof {
                    assert(self.variables@.drop_last() =~= es0);
                    assert(self.variables@.last().0@ == uv);
                    assert(self.variables@.last().1@ == vv);
                    assert(valid_variable_name(self.variables@.last().0@));
                    assert(model_len(self.variables@.last().1@) <= MAX_VALUES_PER_VARIABLE);
                    lemma_pool_map_contains(es0, upper@);
                    assert forall|a: int, b: int|
                        #![trigger self.variables@[a].0, self.variables@[b].0]
                        0 <= a < b < self.variables@.len() implies self.variables@[a].0@
                        != self.variables@[b].0@ by {
                        assert(self.variables@[a] == es0[a]);
                        if b < self.variables@.len() - 1 {
                            assert(self.variables@[b] == es0[b]);
                        }
                    }
                    assert forall|a: int|
                        #![trigger self.variables@[a].0]
                        0 <= a < self.variables@.len() implies valid_variable_name(
                        self.variables@[a].0@,
                    ) && model_len(self.variables@[a].1@) <= MAX_VALUES_PER_VARIABLE by {
                        if a < self.variables@.len() - 1 {
                            assert(self.variables@[a] == es0[a]);
                        } else {
                            assert(self.variables@[a] == self.variables@.last());
                        }
                    }
                    assert(self@ =~= pool_map(es0).insert(uv, vv));
                    assert(pool_keys_distinct(self.variables@));
                }
            },
        }
    }

    /// Validate a variable name and value count; on success, store the
    /// value under the case-normalized name.
    fn put_checked(&mut self, name: &str, value: PoolValue) -> (r: SpiceResult<()>)
        requires
            old(self).wf(),
        ensures
            final(self).wf(),
            match r {
                Ok(()) => valid_variable_name(name@) && model_len(value@)
                    <= MAX_VALUES_PER_VARIABLE && final(self)@ == old(self)@.insert(
                    text::spec_upper_seq(name@),
                    value@,
                ),
                Err(e) => !(valid_variable_name(name@) && model_len(value@)
                    <= MAX_VALUES_PER_VARIABLE) && e.error_type == SpiceErrorType::InvalidArgument
                    && final(self)@ == old(self)@,
            },
    {
        let n = name.unicode_len();
        if n == 0 || n > MAX_VARIABLE_NAME_LENGTH {
            return Err(
                SpiceError::new(
                    SpiceErrorType::InvalidArgument,
                    String::from_str("invalid variable name"),
                ),
            );
        }
        if value.len() > MAX_VALUES_PER_VARIABLE {
            return Err(
                SpiceError::new(
                    SpiceErrorType::InvalidArgument,
                    String::from_str("too many values for one variable"),
                ),
            );
        }
        let upper = text::to_upper(name);
        self.put_value(upper, value);
        Ok(())
    }

    /// Insert character values (replacing any prior value under the name).
    pub fn put_character(&mut self, name: &str, values: Vec<String>) -> (r: SpiceResult<()>)
        requires
            old(self).wf(),
        ensures
            final(self).wf(),
            match r {
                Ok(()) => valid_variable_name(name@) && values@.len() <= MAX_VALUES_PER_VARIABLE
                    && final(self)@ == old(self)@.insert(
                    text::spec_upper_seq(name@),
                    PoolValueModel::Characters(values@.map_values(|s: String| s@)),
                ),
                Err(e) => !(valid_variable_name(name@) && values@.len()
                    <= MAX_VALUES_PER_VARIABLE) && e.error_type == SpiceErrorType::InvalidArgument
                    && final(self)@ == old(self)@,
            },
    {
        self.put_checked(name, PoolValue::Characters(values))
    }

    /// Insert double-precision values, given as d.p. words (replacing any
    /// prior value under the name).
    pub fn put_double(&mut self, name: &str, values: Vec<u64>) -> (r: SpiceResult<()>)
        requires
            old(self).wf(),
        ensures
            final(self).wf(),
            match r {
                Ok(()) => valid_variable_name(name@) && values@.len() <= MAX_VALUES_PER_VARIABLE
                    && final(self)@ == old(self)@.insert(
                    text::spec_upper_seq(name@),
                    PoolValueModel::Doubles(values@),
                ),
                Err(e) => !(valid_variable_name(name@) && values@.len()
                    <= MAX_VALUES_PER_VARIABLE) && e.error_type == SpiceErrorType::InvalidArgument
                    && final(self)@ == old(self)@,
            },
    {
        self.put_checked(name, PoolValue::Doubles(values))
    }

    /// Insert integer values (replacing any prior value under the name).
    pub fn put_integer(&mut self, name: &str, values: Vec<i32>) -> (r: SpiceResult<()>)
        requires
            old(self).wf(),
        ensures
            final(self).wf(),
            match r {
                Ok(()) => valid_variable_name(name@) && values@.len() <= MAX_VALUES_PER_VARIABLE
                    && final(self)@ == old(self)@.insert(
                    text::spec_upper_seq(name@),
                    PoolValueModel::Integers(values@),
                ),
                Err(e) => !(valid_variable_name(name@) && values@.len()
                    <= MAX_VALUES_PER_VARIABLE) && e.error_type == SpiceErrorType::InvalidArgument
                    && final(self)@ == old(self)@,
            },
    {
        self.put_checked(name, PoolValue::Integers(values))
    }

    /// Look up the value stored under the case-normalized image of `name`.
    fn lookup(&self, name: &str) -> (r: Option<&PoolValue>)
        requires
            self.wf(),
        ensures
            match r {
                Some(v) => self@.contains_key(text::spec_upper_seq(name@)) && v@
                    == self@[text::spec_upper_seq(name@)],
                None => !self@.contains_key(text::spec_upper_seq(name@)),
            },
    {
        let upper = text::to_upper(name);
        match self.find_index(&upper) {
            Some(i) => {
                proof {
                    lemma_pool_map_get(self.variables@, i as int);
                }
                Some(&self.variables[i].1)
            },
            None => None,
        }
    }
}


/// The sub-list of `s` selected by a read beginning at `start` with at most
/// `maxv` elements: empty when `start` is past the end, else the elements
/// from `start` up to `start + maxv` or the end.
pub open spec fn read_slice<A>(s: Seq<A>, start: int, maxv: int) -> Seq<A> {
    if start >= s.len() {
        Seq::empty()
    } else if start + maxv <= s.len() {
        s.subrange(start, start + maxv)
    } else {
        s.subrange(start, s.len() as int)
    }
}

/// Copy the read window of a string vector.
fn take_strings(v: &Vec<String>, start: usize, maxv: usize) -> (r: Vec<String>)
    requires
        start + maxv <= usize::MAX,
    ensures
        r@.map_values(|s: String| s@) =~= read_slice(
            v@.map_values(|s: String| s@),
            start as int,
            maxv as int,
        ),
{
    let mut out: Vec<String> = Vec::new();
    if start >= v.len() {
        return out;
    }
    let end = if start + maxv <= v.len() {
        start + maxv
    } else {
        v.len()
    };
    let mut i = start;
    while i < end
        invariant
            start <= i <= end <= v@.len(),
            out@.len() == i - start,
            forall|j: int| 0 <= j < i - start ==> #[trigger] out@[j]@ == v@[start + j]@,
        decreases end - i,
    {
        out.push(v[i].clone());
        i += 1;
    }
    out
}

/// Copy the read window of a word vector.
fn take_words(v: &Vec<u64>, start: usize, maxv: usize) -> (r: Vec<u64>)
    requires
        start + maxv <= usize::MAX,
    ensures
        r@ =~= read_slice(v@, start as int, maxv as int),
{
    let mut out: Vec<u64> = Vec::new();
    if start >= v.len() {
        return out;
    }
    let end = if start + maxv <= v.len() {
        start + maxv
    } else {
        v.len()
    };
    let mut i = start;
    while i < end
        invariant
            start <= i <= end <= v@.len(),
            out@ =~= v@.subrange(start as int, i as int),
        decreases end - i,
    {
        out.push(v[i]);
        i += 1;
    }
    out
}

/// Copy the read window of an integer vector, encoding each integer as a
/// d.p. word.
fn take_ints_as_words(v: &Vec<i32>, start: usize, maxv: usize) -> (r: Vec<u64>)
    requires
        start + maxv <= usize::MAX,
    ensures
        r@ =~= read_slice(v@, start as int, maxv as int).map_values(
            |x: i32| dpword::dw_of_int(x as int),
        ),
{
    let mut out: Vec<u64> = Vec::new();
    if start >= v.len() {
        proof {
            assert(read_slice(v@, start as int, maxv as int) =~= Seq::<i32>::empty());
        }
        return out;
    }
    let end = if start + maxv <= v.len() {
        start + maxv
    } else {
        v.len()
    };
    let mut i = start;
    while i < end
        invariant
            start <= i <= end <= v@.len(),
            out@.len() == i - start,
            forall|j: int|
                0 <= j < i - start ==> #[trigger] out@[j] == dpword::dw_of_int(
                    v@[start + j] as int,
                ),
        decreases end - i,
    {
        out.push(dpword::dw_from_i32(v[i]));
        i += 1;
    }
    out
}

/// Copy the read window of a word vector, truncating each word to an
/// integer.
fn take_words_as_ints(v: &Vec<u64>, start: usize, maxv: usize) -> (r: Vec<i32>)
    requires
        start + maxv <= usize::MAX,
    ensures
        r@ =~= read_slice(v@, start as int, maxv as int).map_values(
            |x: u64| dpword::dw_as_i32_spec(x),
        ),
{
    let mut out: Vec<i32> = Vec::new();
    if start >= v.len() {
        proof {
            assert(read_slice(v@, start as int, maxv as int) =~= Seq::<u64>::empty());
        }
        return out;
    }
    let end = if start + maxv <= v.len() {
        start + maxv
    } else {
        v.len()
    };
    let mut i = start;
    while i < end
        invariant
            start <= i <= end <= v@.len(),
            out@.len() == i - start,
            forall|j: int|
                0 <= j < i - start ==> #[trigger] out@[j] == dpword::dw_as_i32_spec(
                    v@[start + j],
                ),
        decreases end - i,
    {
        out.push(dpword::dw_as_i32(v[i]));
        i += 1;
    }
    out
}

/// Copy the read window of an integer vector.
fn take_ints(v: &Vec<i32>, start: usize, maxv: usize) -> (r: Vec<i32>)
    requires
        start + maxv <= usize::MAX,
    ensures
        r@ =~= read_slice(v@, start as int, maxv as int),
{
    let mut out: Vec<i32> = Vec::new();
    if start >= v.len() {
        return out;
    }
    let end = if start + maxv <= v.len() {
        start + maxv
    } else {
        v.len()
    };
    let mut i = start;
    while i < end
        invariant
            start <= i <= end <= v@.len(),
            out@ =~= v@.subrange(start as int, i as int),
        decreases end - i,
    {
        out.push(v[i]);
        i += 1;
    }
    out
}

impl KernelPool {
    /// Read character values: `(values, found)`. An absent name reads as
    /// `(empty, false)`; character values never coerce from numeric ones.
    pub fn get_character(&self, name: &str, start: usize, max_values: usize) -> (r: SpiceResult<
        (Vec<String>, bool),
    >)
        requires
            self.wf(),
            start + max_values <= usize::MAX,
        ensures
            ({
                let key = text::spec_upper_seq(name@);
                match r {
                    Ok((vals, found)) => {
                        &&& found == self@.contains_key(key)
                        &&& (!found ==> vals@.len() == 0)
                        &&& (found ==> self@[key] is Characters && vals@.map_values(
                            |s: String| s@,
                        ) == read_slice(self@[key]->Characters_0, start as int, max_values as int))
                    },
                    Err(e) => self@.contains_key(key) && !(self@[key] is Characters)
                        && e.error_type == SpiceErrorType::InvalidDataType,
                }
            }),
    {
        match self.lookup(name) {
            Some(v) => match v {
                PoolValue::Characters(cs) => Ok((take_strings(cs, start, max_values), true)),
                _ => Err(
                    SpiceError::new(
                        SpiceErrorType::InvalidDataType,
                        String::from_str("variable is not of character type"),
                    ),
                ),
            },
            None => Ok((Vec::new(), false)),
        }
    }

    /// Read double-precision values (as d.p. words): `(values, found)`.
    /// Integer values coerce to their exact double encodings; character
    /// values fail `InvalidDataType`.
    pub fn get_double(&self, name: &str, start: usize, max_values: usize) -> (r: SpiceResult<
        (Vec<u64>, bool),
    >)
        requires
            self.wf(),
            start + max_values <= usize::MAX,
        ensures
            ({
                let key = text::spec_upper_seq(name@);
                match r {
                    Ok((vals, found)) => {
                        &&& found == self@.contains_key(key)
                        &&& (!found ==> vals@.len() == 0)
                        &&& (found && self@[key] is Doubles ==> vals@ == read_slice(
                            self@[key]->Doubles_0,
                            start as int,
                            max_values as int,
                        ))
                        &&& (found && self@[key] is Integers ==> vals@ == read_slice(
                            self@[key]->Integers_0,
                            start as int,
                            max_values as int,
                        ).map_values(|x: i32| dpword::dw_of_int(x as int)))
                        &&& (found ==> !(self@[key] is Characters))
                    },
                    Err(e) => self@.contains_key(key) && self@[key] is Characters && e.error_type
                        == SpiceErrorType::InvalidDataType,
                }
            }),
    {
        match self.lookup(name) {
            Some(v) => match v {
                PoolValue::Doubles(ds) => Ok((take_words(ds, start, max_values), true)),
                PoolValue::Integers(is) => Ok((take_ints_as_words(is, start, max_values), true)),
                PoolValue::Characters(_) => Err(
                    SpiceError::new(
                        SpiceErrorType::InvalidDataType,
                        String::from_str("variable is not of numeric type"),
                    ),
                ),
            },
            None => Ok((Vec::new(), false)),
        }
    }

    /// Read integer values: `(values, found)`. Double values coerce by
    /// truncation toward zero (saturating); character values fail
    /// `InvalidDataType`.
    pub fn get_integer(&self, name: &str, start: usize, max_values: usize) -> (r: SpiceResult<
        (Vec<i32>, bool),
    >)
        requires
            self.wf(),
            start + max_values <= usize::MAX,
        ensures
            ({
                let key = text::spec_upper_seq(name@);
                match r {
                    Ok((vals, found)) => {
                        &&& found == self@.contains_key(key)
                        &&& (!found ==> vals@.len() == 0)
                        &&& (found && self@[key] is Integers ==> vals@ == read_slice(
                            self@[key]->Integers_0,
                            start as int,
                            max_values as int,
                        ))
                        &&& (found && self@[key] is Doubles ==> vals@ == read_slice(
                            self@[key]->Doubles_0,
                            start as int,
                            max_values as int,
                        ).map_values(|x: u64| dpword::dw_as_i32_spec(x)))
                        &&& (found ==> !(self@[key] is Characters))
                    },
                    Err(e) => self@.contains_key(key) && self@[key] is Characters && e.error_type
                        == SpiceErrorType::InvalidDataType,
                }
            }),
    {
        match self.lookup(name) {
            Some(v) => match v {
                PoolValue::Integers(is) => Ok((take_ints(is, start, max_values), true)),
                PoolValue::Doubles(ds) => Ok((take_words_as_ints(ds, start, max_values), true)),
                PoolValue::Characters(_) => Err(
                    SpiceError::new(
                        SpiceErrorType::InvalidDataType,
                        String::from_str("variable is not of numeric type"),
                    ),
                ),
            },
            None => Ok((Vec::new(), false)),
        }
    }

    /// Describe a variable: `(found, length, type)`; an absent name reads
    /// as `(false, 0, Character)`.
    pub fn describe_variable(&self, name: &str) -> (r: SpiceResult<(bool, usize, PoolDataType)>)
        requires
            self.wf(),
        ensures
            ({
                let key = text::spec_upper_seq(name@);
                match r {
                    Ok((found, len, ty)) => {
                        &&& found == self@.contains_key(key)
                        &&& (found ==> len == model_len(self@[key]) && ty == model_data_type(
                            self@[key],
                        ))
                        &&& (!found ==> len == 0 && ty == PoolDataType::Character)
                    },
                    Err(_) => false,
                }
            }),
    {
        match self.lookup(name) {
            Some(v) => Ok((true, v.len(), v.data_type())),
            None => Ok((false, 0, PoolDataType::Character)),
        }
    }

    /// Remove a variable; returns whether it was present.
    pub fn delete_variable(&mut self, name: &str) -> (r: SpiceResult<bool>)
        requires
            old(self).wf(),
        ensures
            final(self).wf(),
            ({
                let key = text::spec_upper_seq(name@);
                match r {
                    Ok(was) => was == old(self)@.contains_key(key) && final(self)@ == old(
                        self,
                    )@.remove(key),
                    Err(_) => false,
                }
            }),
    {
        let upper = text::to_upper(name);
        let ghost es0 = self.variables@;
        match self.find_index(&upper) {
            Some(i) => {
                proof {
                    lemma_pool_map_get(es0, i as int);
                    lemma_pool_map_remove(es0, i as int);
                    assert(forall|a: int|
                        0 <= a < es0.len() ==> valid_variable_name(#[trigger] es0[a].0@)
                            && model_len(es0[a].1@) <= MAX_VALUES_PER_VARIABLE);
                }
                let _ = self.variables.remove(i);
                proof {
                    assert(self.variables@ =~= es0.subrange(0, i as int) + es0.subrange(
                        i as int + 1,
                        es0.len() as int,
                    ));
                    assert forall|a: int, b: int|
                        #![trigger self.variables@[a].0, self.variables@[b].0]
                        0 <= a < b < self.variables@.len() implies self.variables@[a].0@
                        != self.variables@[b].0@ by {
                        if a < i {
                            assert(self.variables@[a] == es0[a]);
                        } else {
                            assert(self.variables@[a] == es0[a + 1]);
                        }
                        if b < i {
                            assert(self.variables@[b] == es0[b]);
                        } else {
                            assert(self.variables@[b] == es0[b + 1]);
                        }
                    }
                    assert forall|a: int|
                        #![trigger self.variables@[a].0]
                        0 <= a < self.variables@.len() implies valid_variable_name(
                        self.variables@[a].0@,
                    ) && model_len(self.variables@[a].1@) <= MAX_VALUES_PER_VARIABLE by {
                        if a < i {
                            assert(self.variables@[a] == es0[a]);
                        } else {
                            assert(self.variables@[a] == es0[a + 1]);
                        }
                    }
                }
                Ok(true)
            },
            None => {
                proof {
                    assert(old(self)@ =~= old(self)@.remove(upper@));
                }
                Ok(false)
            },
        }
    }
}

// ---------------------------------------------------------------------------
// Laws of the pool
// ---------------------------------------------------------------------------

/// Round trip: after storing double values under a name, reading the same
/// name back from the start with a window at least as large returns exactly
/// the stored values, and the name reads as found. Reading an absent name
/// yields no values and `found == false`.
pub proof fn lemma_pool_roundtrip(
    m: Map<Seq<char>, PoolValueModel>,
    key: Seq<char>,
    values: Seq<u64>,
    maxv: int,
    missing: Seq<char>,
)
    requires
        maxv >= values.len(),
    ensures
        ({
            let m1 = m.insert(key, PoolValueModel::Doubles(values));
            &&& m1.contains_key(key)
            &&& m1[key] == PoolValueModel::Doubles(values)
            &&& read_slice(values, 0, maxv) == values
        }),
        !m.contains_key(missing) ==> read_slice(Seq::<u64>::empty(), 0, maxv) == Seq::<
            u64,
        >::empty(),
{
    if values.len() > 0 {
        assert(read_slice(values, 0, maxv) =~= values);
    } else {
        assert(read_slice(values, 0, maxv) =~= values);
    }
    assert(read_slice(Seq::<u64>::empty(), 0, maxv) =~= Seq::<u64>::empty());
}


// ---------------------------------------------------------------------------
// Text-kernel parsing
// ---------------------------------------------------------------------------

/// Quote characters of the text-kernel grammar.
pub open spec fn is_quote(c: char) -> bool {
    c == '"' || c == '\''
}

/// Drop leading quote characters.
pub open spec fn qtrim_front(s: Seq<char>) -> Seq<char>
    decreases s.len(),
{
    if s.len() > 0 && is_quote(s[0]) {
        qtrim_front(s.drop_first())
    } else {
        s
    }
}

/// Drop trailing quote characters.
pub open spec fn qtrim_back(s: Seq<char>) -> Seq<char>
    decreases s.len(),
{
    if s.len() > 0 && is_quote(s.last()) {
        qtrim_back(s.drop_last())
    } else {
        s
    }
}

/// Drop leading and trailing quote characters.
pub open spec fn spec_trim_quotes(s: Seq<char>) -> Seq<char> {
    qtrim_back(qtrim_front(s))
}

/// Trim leading and trailing quote characters from a character vector.
fn trim_quote_chars(v: &Vec<char>) -> (r: Vec<char>)
    ensures
        r@ == spec_trim_quotes(v@),
{
    let n = v.len();
    let ghost s = v@;
    proof {
        assert(s.subrange(0, n as int) =~= s);
    }
    let mut a: usize = 0;
    while a < n && (v[a] == '"' || v[a] == '\'')
        invariant
            a <= n,
            n == s.len(),
            v@ == s,
            qtrim_front(s) == qtrim_front(s.subrange(a as int, n as int)),
        decreases n - a,
    {
        proof {
            assert(s.subrange(a as int, n as int).drop_first() =~= s.subrange(a + 1, n as int));
        }
        a += 1;
    }
    proof {
        if a < n {
            assert(qtrim_front(s) =~= s.subrange(a as int, n as int));
        } else {
            assert(s.subrange(a as int, n as int) =~= Seq::<char>::empty());
            assert(qtrim_front(s) =~= s.subrange(a as int, n as int));
        }
    }
    let mut b: usize = n;
    while b > a && (v[b - 1] == '"' || v[b - 1] == '\'')
        invariant
            a <= b <= n,
            n == s.len(),
            v@ == s,
            qtrim_front(s) == s.subrange(a as int, n as int),
            qtrim_back(s.subrange(a as int, n as int)) == qtrim_back(
                s.subrange(a as int, b as int),
            ),
        decreases b,
    {
        proof {
            assert(s.subrange(a as int, b as int).drop_last() =~= s.subrange(a as int, b - 1));
        }
        b -= 1;
    }
    proof {
        assert(qtrim_back(s.subrange(a as int, b as int)) =~= s.subrange(a as int, b as int));
    }
    crate::text::sub_chars(v, a, b)
}

/// Split the inside of a parenthesized value list at commas that stand
/// outside quotes. Each piece is trimmed; empty pieces are dropped. The
/// delimiting quote characters themselves are dropped, and each kept piece
/// remembers whether a quoted stretch occurred in it. State: position,
/// in-quotes flag, active quote character, current piece and its flag, and
/// the pieces so far.
pub open spec fn spec_split_values(
    s: Seq<char>,
    i: int,
    inq: bool,
    qc: char,
    cur: Seq<char>,
    curq: bool,
    acc: Seq<(Seq<char>, bool)>,
) -> Seq<(Seq<char>, bool)>
    decreases s.len() - i,
{
    if i < 0 || i >= s.len() {
        if crate::text::spec_trim(cur).len() > 0 {
            acc.push((crate::text::spec_trim(cur), curq))
        } else {
            acc
        }
    } else {
        let c = s[i];
        if !inq && is_quote(c) {
            spec_split_values(s, i + 1, true, c, cur, true, acc)
        } else if inq && c == qc {
            spec_split_values(s, i + 1, false, qc, cur, curq, acc)
        } else if !inq && c == ',' {
            spec_split_values(
                s,
                i + 1,
                false,
                qc,
                Seq::empty(),
                false,
                if crate::text::spec_trim(cur).len() > 0 {
                    acc.push((crate::text::spec_trim(cur), curq))
                } else {
                    acc
                },
            )
        } else {
            spec_split_values(s, i + 1, inq, qc, cur.push(c), curq, acc)
        }
    }
}

/// The model of an accumulated piece list.
pub open spec fn pieces_model(acc: Seq<(Vec<char>, bool)>) -> Seq<(Seq<char>, bool)> {
    acc.map_values(|p: (Vec<char>, bool)| (p.0@, p.1))
}

/// Split a value list into trimmed pieces with quoting flags.
fn split_values(v: &Vec<char>) -> (r: Vec<(Vec<char>, bool)>)
    ensures
        pieces_model(r@) == spec_split_values(
            v@,
            0,
            false,
            '"',
            Seq::<char>::empty(),
            false,
            Seq::<(Seq<char>, bool)>::empty(),
        ),
{
    let n = v.len();
    let ghost s = v@;
    let mut acc: Vec<(Vec<char>, bool)> = Vec::new();
    let mut cur: Vec<char> = Vec::new();
    let mut curq = false;
    let mut inq = false;
    let mut qc: char = '"';
    let mut i: usize = 0;
    proof {
        assert(pieces_model(acc@) =~= Seq::<(Seq<char>, bool)>::empty());
        assert(cur@ =~= Seq::<char>::empty());
    }
    while i < n
        invariant
            i <= n,
            n == s.len(),
            v@ == s,
            spec_split_values(s, 0, false, '"', Seq::empty(), false, Seq::empty())
                == spec_split_values(s, i as int, inq, qc, cur@, curq, pieces_model(acc@)),
        decreases n - i,
    {
        let c = v[i];
        if !inq && (c == '"' || c == '\'') {
            inq = true;
            qc = c;
            curq = true;
        } else if inq && c == qc {
            inq = false;
        } else if !inq && c == ',' {
            let t = crate::text::trim_chars(&cur);
            if t.len() > 0 {
                let ghost accm = pieces_model(acc@);
                acc.push((t, curq));
                proof {
                    assert(pieces_model(acc@) =~= accm.push(
                        (crate::text::spec_trim(cur@), curq),
                    ));
                }
            }
            cur = Vec::new();
            curq = false;
            proof {
                assert(cur@ =~= Seq::<char>::empty());
            }
        } else {
            cur.push(c);
        }
        i += 1;
    }
    let t = crate::text::trim_chars(&cur);
    if t.len() > 0 {
        let ghost accm = pieces_model(acc@);
        acc.push((t, curq));
        proof {
            assert(pieces_model(acc@) =~= accm.push((crate::text::spec_trim(cur@), curq)));
        }
    }
    acc
}

/// The pool after storing a split value list under `key`: an empty or
/// over-long list is skipped; a list with any quoted piece is stored as
/// characters; otherwise the list is stored as doubles when every piece
/// parses as a number, and as characters when one does not.
pub open spec fn spec_array_insert(
    m: Map<Seq<char>, PoolValueModel>,
    key: Seq<char>,
    vals: Seq<(Seq<char>, bool)>,
) -> Map<Seq<char>, PoolValueModel> {
    let toks = vals.map_values(|p: (Seq<char>, bool)| p.0);
    if vals.len() == 0 || vals.len() > MAX_VALUES_PER_VARIABLE {
        m
    } else if exists|i: int| 0 <= i < vals.len() && (#[trigger] vals[i]).1 {
        m.insert(key, PoolValueModel::Characters(toks))
    } else if forall|i: int|
        0 <= i < vals.len() ==> dpword::spec_dw_parse_token((#[trigger] vals[i]).0) is Some {
        m.insert(
            key,
            PoolValueModel::Doubles(
                vals.map_values(|p: (Seq<char>, bool)| dpword::spec_dw_parse_token(p.0)->0),
            ),
        )
    } else {
        m.insert(key, PoolValueModel::Characters(toks))
    }
}

/// The pool after storing a single (non-parenthesized) value under `key`:
/// a quoted value is stored as one character string with its delimiting
/// quotes dropped; otherwise the value is stored as one double when it
/// parses as a number and skipped when it does not.
pub open spec fn spec_single_insert(
    m: Map<Seq<char>, PoolValueModel>,
    key: Seq<char>,
    value: Seq<char>,
) -> Map<Seq<char>, PoolValueModel> {
    if value.len() > 0 && is_quote(value[0]) {
        m.insert(key, PoolValueModel::Characters(seq![spec_trim_quotes(value)]))
    } else {
        match dpword::spec_dw_parse_token(value) {
            Some(w) => m.insert(key, PoolValueModel::Doubles(seq![w])),
            None => m,
        }
    }
}

/// The pool after one assignment statement `NAME = VALUE`. A line without
/// `=` does nothing; an invalid name or unparsable value skips the
/// assignment and leaves the pool unchanged.
pub open spec fn spec_process_assignment(
    m: Map<Seq<char>, PoolValueModel>,
    line: Seq<char>,
) -> Map<Seq<char>, PoolValueModel> {
    let eq = crate::text::find_char(line, '=');
    if eq == line.len() {
        m
    } else {
        let rawname = crate::text::spec_trim(line.subrange(0, eq));
        let key = crate::text::spec_upper_seq(rawname);
        let value = crate::text::spec_trim(line.subrange(eq + 1, line.len() as int));
        if !spec_assignment_name(rawname) {
            m
        } else if value.len() > 0 && value[0] == '(' && value.last() == ')' {
            spec_array_insert(
                m,
                key,
                spec_split_values(
                    value.subrange(1, value.len() - 1),
                    0,
                    false,
                    '"',
                    Seq::empty(),
                    false,
                    Seq::empty(),
                ),
            )
        } else {
            spec_single_insert(m, key, value)
        }
    }
}

/// The pool after the line-oriented parse of `lines` from index `i`, given
/// the data-section flag and the pending continuation text. Outside a data
/// section lines are ignored; a trailing `+` continues the logical line; a
/// pending continuation at the end of input is discarded.
pub open spec fn spec_load_lines(
    m: Map<Seq<char>, PoolValueModel>,
    lines: Seq<Seq<char>>,
    i: int,
    in_data: bool,
    cur: Seq<char>,
) -> Map<Seq<char>, PoolValueModel>
    decreases lines.len() - i,
{
    if i < 0 || i >= lines.len() {
        m
    } else {
        let t = crate::text::spec_trim(lines[i]);
        if t.len() == 0 || t[0] == '#' {
            spec_load_lines(m, lines, i + 1, in_data, cur)
        } else if t == "\\begindata"@ {
            spec_load_lines(m, lines, i + 1, true, cur)
        } else if t == "\\begintext"@ {
            spec_load_lines(m, lines, i + 1, false, cur)
        } else if !in_data {
            spec_load_lines(m, lines, i + 1, in_data, cur)
        } else if t.last() == '+' {
            spec_load_lines(m, lines, i + 1, in_data, cur + t.drop_last())
        } else {
            spec_load_lines(spec_process_assignment(m, cur + t), lines, i + 1, in_data, Seq::empty())
        }
    }
}

/// Whether every character of a name is a letter, digit or underscore.
fn name_chars_ok(v: &Vec<char>) -> (r: bool)
    ensures
        r == (forall|i: int| 0 <= i < v@.len() ==> spec_name_char(#[trigger] v@[i])),
{
    let mut ci: usize = 0;
    while ci < v.len()
        invariant
            ci <= v@.len(),
            forall|j: int| 0 <= j < ci ==> spec_name_char(#[trigger] v@[j]),
        decreases v@.len() - ci,
    {
        let u = v[ci] as u32;
        let ok = (65 <= u && u <= 90) || (97 <= u && u <= 122) || (48 <= u && u <= 57) || u == 95;
        if !ok {
            proof {
                assert(!spec_name_char(v@[ci as int]));
            }
            return false;
        }
        ci += 1;
    }
    true
}

impl KernelPool {
    /// Process one complete assignment statement.
    fn process_assignment(&mut self, line: &Vec<char>) -> (r: SpiceResult<()>)
        requires
            old(self).wf(),
        ensures
            final(self).wf(),
            final(self)@ == spec_process_assignment(old(self)@, line@),
            r is Ok,
    {
        let ghost m0 = self@;
        let n = line.len();
        let eq = crate::text::find_char_at(line, '=');
        if eq == n {
            return Ok(());
        }
        proof {
            crate::text::lemma_find_char(line@, '=');
        }
        let name_part = crate::text::sub_chars(line, 0, eq);
        let rawname = crate::text::trim_chars(&name_part);
        if rawname.len() == 0 || rawname.len() > MAX_VARIABLE_NAME_LENGTH {
            return Ok(());
        }
        if !name_chars_ok(&rawname) {
            return Ok(());
        }
        let name = crate::text::chars_to_string(&rawname);
        let value_part = crate::text::sub_chars(line, eq + 1, n);
        let value = crate::text::trim_chars(&value_part);
        let ghost key = crate::text::spec_upper_seq(rawname@);
        if value.len() > 0 && value[0] == '(' && value[value.len() - 1] == ')' {
            // parenthesized list
            let inner = crate::text::sub_chars(&value, 1, value.len() - 1);
            let vals = split_values(&inner);
            let ghost specvals = spec_split_values(
                inner@,
                0,
                false,
                '"',
                Seq::<char>::empty(),
                false,
                Seq::<(Seq<char>, bool)>::empty(),
            );
            proof {
                assert(pieces_model(vals@) == specvals);
                assert(specvals.len() == vals@.len());
                assert forall|a: int|
                    0 <= a < vals@.len() implies (#[trigger] specvals[a]) == (
                    (vals@[a]).0@,
                    (vals@[a]).1,
                ) by {
                    assert(pieces_model(vals@)[a] == ((vals@[a]).0@, (vals@[a]).1));
                }
            }
            if vals.len() == 0 || vals.len() > MAX_VALUES_PER_VARIABLE {
                return Ok(());
            }
            let mut any_quoted = false;
            let mut j: usize = 0;
            while j < vals.len()
                invariant
                    j <= vals@.len(),
                    any_quoted == exists|a: int| 0 <= a < j && (#[trigger] vals@[a]).1,
                decreases vals@.len() - j,
            {
                if vals[j].1 {
                    any_quoted = true;
                    proof {
                        assert((vals@[j as int]).1);
                    }
                }
                j += 1;
            }
            proof {
                if any_quoted {
                    let a = choose|a: int| 0 <= a < vals@.len() && (#[trigger] vals@[a]).1;
                    assert((specvals[a]).1);
                } else {
                    assert forall|a: int| 0 <= a < specvals.len() implies !(
                    #[trigger] specvals[a]).1 by {
                        assert(!(vals@[a]).1);
                    }
                }
                assert(any_quoted == exists|a: int|
                    0 <= a < specvals.len() && (#[trigger] specvals[a]).1);
            }
            if any_quoted {
                let mut strings: Vec<String> = Vec::new();
                let mut j: usize = 0;
                while j < vals.len()
                    invariant
                        j <= vals@.len(),
                        strings@.len() == j,
                        forall|a: int|
                            0 <= a < j ==> #[trigger] strings@[a]@ == (vals@[a]).0@,
                    decreases vals@.len() - j,
                {
                    strings.push(crate::text::chars_to_string(&vals[j].0));
                    j += 1;
                }
                let ghost strsm = strings@.map_values(|s: String| s@);
                proof {
                    assert(strsm =~= specvals.map_values(|p: (Seq<char>, bool)| p.0));
                }
                let res = self.put_character(name.as_str(), strings);
                proof {
                    assert(res is Ok);
                    assert(self@ =~= spec_array_insert(m0, key, specvals));
                }
                return Ok(());
            }
            // numeric attempt
            let mut words: Vec<u64> = Vec::new();
            let mut all_ok = true;
            let mut j: usize = 0;
            while j < vals.len()
                invariant
                    j <= vals@.len(),
                    all_ok ==> words@.len() == j,
                    all_ok ==> forall|a: int|
                        0 <= a < j ==> dpword::spec_dw_parse_token((#[trigger] vals@[a]).0@)
                            is Some && words@[a] == dpword::spec_dw_parse_token(
                            (vals@[a]).0@,
                        )->0,
                    !all_ok ==> exists|a: int|
                        0 <= a < j && dpword::spec_dw_parse_token((#[trigger] vals@[a]).0@)
                            is None,
                decreases vals@.len() - j,
            {
                if all_ok {
                    match dpword::dw_parse_token(&vals[j].0) {
                        Some(w) => {
                            words.push(w);
                        },
                        None => {
                            all_ok = false;
                            proof {
                                assert(dpword::spec_dw_parse_token((vals@[j as int]).0@)
                                    is None);
                            }
                        },
                    }
                }
                j += 1;
            }
            if all_ok {
                let ghost wordsm = words@;
                proof {
                    assert forall|a: int|
                        0 <= a < specvals.len() implies dpword::spec_dw_parse_token(
                        (#[trigger] specvals[a]).0,
                    ) is Some by {
                        assert(dpword::spec_dw_parse_token((vals@[a]).0@) is Some);
                    }
                    let mapped = specvals.map_values(
                        |p: (Seq<char>, bool)| dpword::spec_dw_parse_token(p.0)->0,
                    );
                    assert forall|a: int|
                        0 <= a < specvals.len() implies #[trigger] mapped[a] == wordsm[a] by {
                        assert(wordsm[a] == dpword::spec_dw_parse_token((vals@[a]).0@)->0);
                    }
                    assert(wordsm =~= mapped);
                }
                let res = self.put_double(name.as_str(), words);
                proof {
                    assert(res is Ok);
                    assert(self@ =~= spec_array_insert(m0, key, specvals));
                }
                return Ok(());
            }
            let mut strings: Vec<String> = Vec::new();
            let mut j: usize = 0;
            while j < vals.len()
                invariant
                    j <= vals@.len(),
                    strings@.len() == j,
                    forall|a: int| 0 <= a < j ==> #[trigger] strings@[a]@ == (vals@[a]).0@,
                decreases vals@.len() - j,
            {
                strings.push(crate::text::chars_to_string(&vals[j].0));
                j += 1;
            }
            let ghost strsm = strings@.map_values(|s: String| s@);
            proof {
                let aw = choose|a: int|
                    0 <= a < vals@.len() && dpword::spec_dw_parse_token(
                        (#[trigger] vals@[a]).0@,
                    ) is None;
                assert(dpword::spec_dw_parse_token((specvals[aw]).0) is None);
                assert(!(forall|a: int|
                    0 <= a < specvals.len() ==> dpword::spec_dw_parse_token(
                        (#[trigger] specvals[a]).0,
                    ) is Some));
                assert(strsm =~= specvals.map_values(|p: (Seq<char>, bool)| p.0));
            }
            let res = self.put_character(name.as_str(), strings);
            proof {
                assert(res is Ok);
                assert(self@ =~= spec_array_insert(m0, key, specvals));
            }
            return Ok(());
        }
        // single value
        if value.len() > 0 && (value[0] == '"' || value[0] == '\'') {
            let stripped = trim_quote_chars(&value);
            let mut one: Vec<String> = Vec::new();
            one.push(crate::text::chars_to_string(&stripped));
            let ghost onem = one@.map_values(|s: String| s@);
            proof {
                assert(onem =~= seq![spec_trim_quotes(value@)]);
            }
            let res = self.put_character(name.as_str(), one);
            proof {
                assert(res is Ok);
                assert(self@ =~= spec_single_insert(m0, key, value@));
            }
            return Ok(());
        }
        match dpword::dw_parse_token(&value) {
            Some(w) => {
                let mut one: Vec<u64> = Vec::new();
                one.push(w);
                let ghost onem = one@;
                proof {
                    assert(onem =~= seq![w]);
                }
                let res = self.put_double(name.as_str(), one);
                proof {
                    assert(res is Ok);
                    assert(self@ =~= spec_single_insert(m0, key, value@));
                }
                Ok(())
            },
            None => Ok(()),
        }
    }
}


impl KernelPool {
    /// Run the line-oriented parser over complete lines of text.
    fn load_lines_chars(&mut self, lines: &Vec<Vec<char>>) -> (r: SpiceResult<()>)
        requires
            old(self).wf(),
        ensures
            final(self).wf(),
            final(self)@ == spec_load_lines(
                old(self)@,
                lines@.map_values(|l: Vec<char>| l@),
                0,
                false,
                Seq::<char>::empty(),
            ),
            r is Ok,
    {
        let ghost m0 = self@;
        let ghost ls = lines@.map_values(|l: Vec<char>| l@);
        let n = lines.len();
        let mut in_data = false;
        let mut cur: Vec<char> = Vec::new();
        let mut i: usize = 0;
        proof {
            assert(cur@ =~= Seq::<char>::empty());
        }
        while i < n
            invariant
                i <= n,
                n == ls.len(),
                self.wf(),
                lines@.map_values(|l: Vec<char>| l@) == ls,
                lines@.len() == n,
                spec_load_lines(m0, ls, 0, false, Seq::empty()) == spec_load_lines(
                    self@,
                    ls,
                    i as int,
                    in_data,
                    cur@,
                ),
            decreases n - i,
        {
            let t = crate::text::trim_chars(&lines[i]);
            proof {
                assert(ls[i as int] == lines@[i as int]@);
                assert(t@ == crate::text::spec_trim(ls[i as int]));
            }
            if t.len() == 0 || t[0] == '#' {
                i += 1;
            } else if crate::text::chars_eq_str(&t, "\\begindata") {
                in_data = true;
                i += 1;
            } else if crate::text::chars_eq_str(&t, "\\begintext") {
                in_data = false;
                i += 1;
            } else if !in_data {
                i += 1;
            } else if t[t.len() - 1] == '+' {
                let ghost cur0 = cur@;
                let mut k: usize = 0;
                while k < t.len() - 1
                    invariant
                        k <= t@.len() - 1,
                        t@.len() >= 1,
                        cur@ == cur0 + t@.subrange(0, k as int),
                    decreases t@.len() - 1 - k,
                {
                    cur.push(t[k]);
                    proof {
                        assert(cur@ =~= cur0 + t@.subrange(0, k + 1));
                    }
                    k += 1;
                }
                proof {
                    assert(cur@ =~= cur0 + t@.drop_last());
                }
                i += 1;
            } else {
                let ghost cur0 = cur@;
                let mut full = cur;
                let mut k: usize = 0;
                while k < t.len()
                    invariant
                        k <= t@.len(),
                        full@ == cur0 + t@.subrange(0, k as int),
                    decreases t@.len() - k,
                {
                    full.push(t[k]);
                    proof {
                        assert(full@ =~= cur0 + t@.subrange(0, k + 1));
                    }
                    k += 1;
                }
                proof {
                    assert(full@ =~= cur0 + t@);
                }
                let res = self.process_assignment(&full);
                proof {
                    assert(res is Ok);
                }
                cur = Vec::new();
                proof {
                    assert(cur@ =~= Seq::<char>::empty());
                }
                i += 1;
            }
        }
        Ok(())
    }

    /// Load text-kernel content from memory, one string per line.
    pub fn load_from_memory(&mut self, lines: &[String]) -> (r: SpiceResult<()>)
        requires
            old(self).wf(),
        ensures
            final(self).wf(),
            final(self)@ == spec_load_lines(
                old(self)@,
                lines@.map_values(|l: String| l@),
                0,
                false,
                Seq::<char>::empty(),
            ),
            r is Ok,
    {
        let mut lv: Vec<Vec<char>> = Vec::new();
        let mut i: usize = 0;
        while i < lines.len()
            invariant
                i <= lines@.len(),
                lv@.len() == i,
                forall|j: int| 0 <= j < i ==> #[trigger] lv@[j]@ == lines@[j]@,
            decreases lines@.len() - i,
        {
            lv.push(crate::text::str_chars(lines[i].as_str()));
            i += 1;
        }
        proof {
            assert(lv@.map_values(|l: Vec<char>| l@) =~= lines@.map_values(|l: String| l@));
        }
        self.load_lines_chars(&lv)
    }
}

/// The lines of a text buffer: pieces split at each newline, with one
/// carriage return dropped from the end of each piece that had one; a
/// final piece without a newline is kept as it stands, and an empty final
/// piece after the last newline is not a line.
pub open spec fn spec_split_lines(s: Seq<char>) -> Seq<Seq<char>>
    decreases s.len(),
{
    if s.len() == 0 {
        Seq::empty()
    } else {
        let k = crate::text::find_char(s, '\n');
        if k < 0 || k >= s.len() {
            seq![s]
        } else {
            let line = s.subrange(0, k);
            let line2 = if line.len() > 0 && line.last() == '\r' {
                line.drop_last()
            } else {
                line
            };
            seq![line2] + spec_split_lines(s.subrange(k + 1, s.len() as int))
        }
    }
}

/// Split a character buffer into lines.
fn split_lines_chars(v: &Vec<char>) -> (r: Vec<Vec<char>>)
    ensures
        r@.map_values(|l: Vec<char>| l@) == spec_split_lines(v@),
{
    let n = v.len();
    let ghost s = v@;
    let mut out: Vec<Vec<char>> = Vec::new();
    let mut pos: usize = 0;
    proof {
        assert(out@.map_values(|l: Vec<char>| l@) =~= Seq::<Seq<char>>::empty());
        assert(s.subrange(0, n as int) =~= s);
    }
    while pos < n
        invariant
            pos <= n,
            n == s.len(),
            v@ == s,
            spec_split_lines(s) == out@.map_values(|l: Vec<char>| l@) + spec_split_lines(
                s.subrange(pos as int, n as int),
            ),
        decreases n - pos,
    {
        let ghost rest = s.subrange(pos as int, n as int);
        // find the next newline
        let mut k = pos;
        while k < n && v[k] != '\n'
            invariant
                pos <= k <= n,
                n == s.len(),
                v@ == s,
                forall|j: int| pos <= j < k ==> s[j] != '\n',
            decreases n - k,
        {
            k += 1;
        }
        proof {
            crate::text::lemma_find_char(rest, '\n');
            assert forall|j: int| 0 <= j < k - pos implies rest[j] != '\n' by {
                assert(rest[j] == s[pos + j]);
            }
            if k < n {
                assert(rest[k - pos] == '\n');
                if crate::text::find_char(rest, '\n') < k - pos {
                    assert(rest[crate::text::find_char(rest, '\n')] == '\n');
                }
                assert(crate::text::find_char(rest, '\n') == k - pos);
            } else {
                if crate::text::find_char(rest, '\n') < rest.len() {
                    assert(rest[crate::text::find_char(rest, '\n')] == '\n');
                }
                assert(crate::text::find_char(rest, '\n') == rest.len());
            }
        }
        if k == n {
            // final piece without a newline
            let piece = crate::text::sub_chars(v, pos, n);
            let ghost om = out@.map_values(|l: Vec<char>| l@);
            out.push(piece);
            proof {
                assert(spec_split_lines(rest) =~= seq![rest]);
                assert(out@.map_values(|l: Vec<char>| l@) =~= om + seq![rest]);
                assert(s.subrange(n as int, n as int) =~= Seq::<char>::empty());
            }
            pos = n;
        } else {
            let endp = if k > pos && v[k - 1] == '\r' {
                k - 1
            } else {
                k
            };
            let piece = crate::text::sub_chars(v, pos, endp);
            let ghost om = out@.map_values(|l: Vec<char>| l@);
            out.push(piece);
            proof {
                let line = rest.subrange(0, k - pos);
                assert(line =~= s.subrange(pos as int, k as int));
                if k > pos && s[k - 1] == '\r' {
                    assert(line.len() > 0 && line.last() == '\r');
                    assert(line.drop_last() =~= s.subrange(pos as int, endp as int));
                } else {
                    assert(!(line.len() > 0 && line.last() == '\r'));
                }
                assert(piece@ == s.subrange(pos as int, endp as int));
                assert(rest.subrange(k - pos + 1, rest.len() as int) =~= s.subrange(
                    k + 1,
                    n as int,
                ));
                assert(out@.map_values(|l: Vec<char>| l@) =~= om + seq![piece@]);
                assert(spec_split_lines(rest) == seq![piece@] + spec_split_lines(
                    s.subrange(k + 1, n as int),
                ));
                assert(om + spec_split_lines(rest) =~= (om + seq![piece@]) + spec_split_lines(
                    s.subrange(k + 1, n as int),
                ));
            }
            pos = k + 1;
        }
    }
    proof {
        assert(s.subrange(pos as int, n as int) =~= Seq::<char>::empty());
        assert(spec_split_lines(s) =~= out@.map_values(|l: Vec<char>| l@));
    }
    out
}

/// Load a whole text kernel into the pool: the content is split into
/// lines and run through the line-oriented parser.
pub fn load_text_kernel(pool: &mut KernelPool, content: &str) -> (r: SpiceResult<()>)
    requires
        old(pool).wf(),
    ensures
        final(pool).wf(),
        final(pool)@ == spec_load_lines(
            old(pool)@,
            spec_split_lines(content@),
            0,
            false,
            Seq::<char>::empty(),
        ),
        r is Ok,
{
    let chars = crate::text::str_chars(content);
    let lines = split_lines_chars(&chars);
    pool.load_lines_chars(&lines)
}


// ---------------------------------------------------------------------------
// Name patterns
// ---------------------------------------------------------------------------

/// Whether `n` starts with `pre`.
pub open spec fn spec_starts_with(n: Seq<char>, pre: Seq<char>) -> bool {
    n.len() >= pre.len() && n.subrange(0, pre.len() as int) == pre
}

/// Whether `n` ends with `suf`.
pub open spec fn spec_ends_with(n: Seq<char>, suf: Seq<char>) -> bool {
    n.len() >= suf.len() && n.subrange(n.len() - suf.len(), n.len() as int) == suf
}

/// Whether a stored name matches a pattern, after case folding: a trailing
/// `*` asks for a prefix match, a leading `*` for a suffix match, and a
/// pattern without a wildcard in either position must match exactly.
pub open spec fn spec_name_matches(n: Seq<char>, pat: Seq<char>) -> bool {
    let p = text::spec_upper_seq(pat);
    if p.len() > 0 && p.last() == '*' {
        spec_starts_with(n, p.drop_last())
    } else if p.len() > 0 && p[0] == '*' {
        spec_ends_with(n, p.drop_first())
    } else {
        n == p
    }
}

/// Lexicographic order on character sequences, by scalar value; the order
/// in which matching names are listed.
pub open spec fn lex_le(a: Seq<char>, b: Seq<char>) -> bool
    decreases a.len(),
{
    if a.len() == 0 {
        true
    } else if b.len() == 0 {
        false
    } else if (a[0] as u32) < (b[0] as u32) {
        true
    } else if (b[0] as u32) < (a[0] as u32) {
        false
    } else {
        lex_le(a.drop_first(), b.drop_first())
    }
}

/// The lexicographic order is total.
proof fn lemma_lex_le_total(a: Seq<char>, b: Seq<char>)
    ensures
        lex_le(a, b) || lex_le(b, a),
    decreases a.len(),
{
    if a.len() > 0 && b.len() > 0 && !((a[0] as u32) < (b[0] as u32)) && !((b[0] as u32) < (
    a[0] as u32)) {
        lemma_lex_le_total(a.drop_first(), b.drop_first());
    }
}

/// The lexicographic order is transitive.
proof fn lemma_lex_le_trans(a: Seq<char>, b: Seq<char>, c: Seq<char>)
    requires
        lex_le(a, b),
        lex_le(b, c),
    ensures
        lex_le(a, c),
    decreases a.len(),
{
    if a.len() > 0 {
        if !((a[0] as u32) < (b[0] as u32)) && !((b[0] as u32) < (a[0] as u32)) && !((
        b[0] as u32) < (c[0] as u32)) && !((c[0] as u32) < (b[0] as u32)) {
            lemma_lex_le_trans(a.drop_first(), b.drop_first(), c.drop_first());
        }
    }
}

/// A name list in ascending lexicographic order.
pub open spec fn names_sorted(names: Seq<String>) -> bool {
    forall|a: int, b: int|
        #![trigger names[a], names[b]]
        0 <= a < b < names.len() ==> lex_le(names[a]@, names[b]@)
}

/// Whether a string starts with a character prefix.
fn starts_with_chars(n: &str, pre: &Vec<char>) -> (r: bool)
    ensures
        r == spec_starts_with(n@, pre@),
{
    let nn = n.unicode_len();
    if nn < pre.len() {
        return false;
    }
    let mut i: usize = 0;
    while i < pre.len()
        invariant
            i <= pre@.len(),
            pre@.len() <= n@.len(),
            nn == n@.len(),
            forall|j: int| 0 <= j < i ==> n@[j] == pre@[j],
        decreases pre@.len() - i,
    {
        if n.get_char(i) != pre[i] {
            proof {
                if n@.subrange(0, pre@.len() as int) == pre@ {
                    assert(n@.subrange(0, pre@.len() as int)[i as int] == n@[i as int]);
                }
            }
            return false;
        }
        i += 1;
    }
    proof {
        assert(n@.subrange(0, pre@.len() as int) =~= pre@);
    }
    true
}

/// Whether a string ends with a character suffix.
fn ends_with_chars(n: &str, suf: &Vec<char>) -> (r: bool)
    ensures
        r == spec_ends_with(n@, suf@),
{
    let nn = n.unicode_len();
    if nn < suf.len() {
        return false;
    }
    let base = nn - suf.len();
    let mut i: usize = 0;
    while i < suf.len()
        invariant
            i <= suf@.len(),
            suf@.len() <= n@.len(),
            nn == n@.len(),
            base == n@.len() - suf@.len(),
            forall|j: int| 0 <= j < i ==> n@[base + j] == suf@[j],
        decreases suf@.len() - i,
    {
        if n.get_char(base + i) != suf[i] {
            proof {
                if n@.subrange(n@.len() - suf@.len(), n@.len() as int) == suf@ {
                    assert(n@.subrange(n@.len() - suf@.len(), n@.len() as int)[i as int]
                        == n@[base + i]);
                }
            }
            return false;
        }
        i += 1;
    }
    proof {
        assert(n@.subrange(n@.len() - suf@.len(), n@.len() as int) =~= suf@);
    }
    true
}

/// Compare two strings in the lexicographic order.
fn lex_le_str(a: &str, b: &str) -> (r: bool)
    ensures
        r == lex_le(a@, b@),
{
    let an = a.unicode_len();
    let bn = b.unicode_len();
    proof {
        assert(a@.skip(0) =~= a@);
        assert(b@.skip(0) =~= b@);
    }
    let mut i: usize = 0;
    loop
        invariant
            i <= an,
            i <= bn,
            an == a@.len(),
            bn == b@.len(),
            lex_le(a@, b@) == lex_le(a@.skip(i as int), b@.skip(i as int)),
        decreases an - i,
    {
        if i == an {
            proof {
                assert(a@.skip(i as int) =~= Seq::<char>::empty());
            }
            return true;
        }
        if i == bn {
            proof {
                assert(b@.skip(i as int) =~= Seq::<char>::empty());
                assert(a@.skip(i as int).len() > 0);
            }
            return false;
        }
        let ca = a.get_char(i);
        let cb = b.get_char(i);
        proof {
            assert(a@.skip(i as int)[0] == ca);
            assert(b@.skip(i as int)[0] == cb);
            assert(a@.skip(i as int).drop_first() =~= a@.skip(i + 1));
            assert(b@.skip(i as int).drop_first() =~= b@.skip(i + 1));
        }
        if (ca as u32) < (cb as u32) {
            return true;
        }
        if (cb as u32) < (ca as u32) {
            return false;
        }
        i += 1;
    }
}

/// What the name listing guarantees: every listed name is a matching
/// stored name (soundness), every matching stored name is listed
/// (completeness), and no name is listed twice.
pub open spec fn names_listing_ok(
    m: Map<Seq<char>, PoolValueModel>,
    pat: Seq<char>,
    names: Seq<String>,
) -> bool {
    &&& forall|a: int|
        0 <= a < names.len() ==> m.contains_key(#[trigger] names[a]@) && spec_name_matches(
            names[a]@,
            pat,
        )
    &&& forall|k: Seq<char>|
        m.contains_key(k) && spec_name_matches(k, pat) ==> exists|a: int|
            0 <= a < names.len() && #[trigger] names[a]@ == k
    &&& forall|a: int, b: int|
        #![trigger names[a], names[b]]
        0 <= a < b < names.len() ==> names[a]@ != names[b]@
}

/// The listing facts relative to the first `j` entries of the
/// association list: every listed name is carried by an earlier entry and
/// matches, every matching earlier entry is listed, and no name is listed
/// twice.
pub open spec fn listing_inv(
    es: Seq<(String, PoolValue)>,
    pat: Seq<char>,
    j: int,
    names: Seq<String>,
) -> bool {
    &&& forall|a: int|
        #![trigger names[a]]
        0 <= a < names.len() ==> exists|b: int| 0 <= b < j && #[trigger] es[b].0@ == names[a]@
    &&& forall|a: int| 0 <= a < names.len() ==> spec_name_matches(#[trigger] names[a]@, pat)
    &&& forall|b: int|
        0 <= b < j && spec_name_matches(#[trigger] es[b].0@, pat) ==> exists|a: int|
            0 <= a < names.len() && #[trigger] names[a]@ == es[b].0@
    &&& forall|a: int, b: int|
        #![trigger names[a], names[b]]
        0 <= a < b < names.len() ==> names[a]@ != names[b]@
}

/// Bridge from the association-list form of the listing facts to the map
/// form of `names_listing_ok`.
proof fn lemma_listing_from_entries(
    es: Seq<(String, PoolValue)>,
    pat: Seq<char>,
    names: Seq<String>,
)
    requires
        pool_keys_distinct(es),
        listing_inv(es, pat, es.len() as int, names),
    ensures
        names_listing_ok(pool_map(es), pat, names),
{
    assert forall|a: int| 0 <= a < names.len() implies pool_map(es).contains_key(
        #[trigger] names[a]@,
    ) && spec_name_matches(names[a]@, pat) by {
        let b = choose|b: int| 0 <= b < es.len() && #[trigger] es[b].0@ == names[a]@;
        lemma_pool_map_get(es, b);
    }
    assert forall|k: Seq<char>|
        pool_map(es).contains_key(k) && spec_name_matches(k, pat) implies exists|a: int|
        0 <= a < names.len() && #[trigger] names[a]@ == k by {
        lemma_pool_map_contains(es, k);
        let b = choose|b: int| 0 <= b < es.len() && #[trigger] es[b].0@ == k;
        assert(spec_name_matches(es[b].0@, pat));
    }
}

/// One step of the sorted listing: inserting a fresh matching entry name
/// preserves soundness, completeness and distinctness of the listing.
proof fn lemma_listing_step(
    es: Seq<(String, PoolValue)>,
    pat: Seq<char>,
    j: int,
    out0: Seq<String>,
    outn: Seq<String>,
    k: int,
)
    requires
        0 <= j < es.len(),
        spec_name_matches(es[j].0@, pat),
        0 <= k <= out0.len(),
        outn.len() == out0.len() + 1,
        outn[k] == es[j].0,
        forall|jj: int| 0 <= jj < k ==> #[trigger] outn[jj] == out0[jj],
        forall|jj: int| k < jj < outn.len() ==> #[trigger] outn[jj] == out0[jj - 1],
        listing_inv(es, pat, j, out0),
        forall|a: int| 0 <= a < out0.len() ==> #[trigger] out0[a]@ != es[j].0@,
    ensures
        listing_inv(es, pat, j + 1, outn),
{
    assert forall|a: int|
        #![trigger outn[a]]
        0 <= a < outn.len() implies (exists|b: int|
        0 <= b < j + 1 && #[trigger] es[b].0@ == outn[a]@) && spec_name_matches(outn[a]@, pat)
        by {
        if a == k {
            assert(es[j].0@ == outn[a]@);
        } else if a < k {
            assert(outn[a] == out0[a]);
        } else {
            assert(outn[a] == out0[a - 1]);
        }
    }
    assert forall|b: int|
        0 <= b < j + 1 && spec_name_matches(#[trigger] es[b].0@, pat) implies exists|a: int|
        0 <= a < outn.len() && #[trigger] outn[a]@ == es[b].0@ by {
        if b == j {
            assert(outn[k]@ == es[b].0@);
        } else {
            let a0 = choose|a: int| 0 <= a < out0.len() && #[trigger] out0[a]@ == es[b].0@;
            if a0 < k {
                assert(outn[a0] == out0[a0]);
            } else {
                assert(outn[a0 + 1] == out0[a0]);
            }
        }
    }
    assert forall|a: int, b: int|
        #![trigger outn[a], outn[b]]
        0 <= a < b < outn.len() implies outn[a]@ != outn[b]@ by {
        if a == k {
            assert(outn[b] == out0[b - 1]);
        } else if b == k {
            assert(outn[a] == out0[a]);
        } else {
            let a1: int = if a < k {
                a
            } else {
                a - 1
            };
            let b1: int = if b < k {
                b
            } else {
                b - 1
            };
            assert(outn[a] == out0[a1] && outn[b] == out0[b1]);
        }
    }
}

/// Whether a name hits the prepared pattern data.
fn match_one(name: &str, trailing: bool, leading: bool, affix: &Vec<char>, exact: &String) -> (r:
    bool)
    ensures
        r == if trailing {
            spec_starts_with(name@, affix@)
        } else if leading {
            spec_ends_with(name@, affix@)
        } else {
            name@ == exact@
        },
{
    if trailing {
        starts_with_chars(name, affix)
    } else if leading {
        ends_with_chars(name, affix)
    } else {
        text::str_eq(name, exact.as_str())
    }
}

/// Insert a string into a sorted list at its ascending position.
fn insert_sorted(out: &mut Vec<String>, x: String)
    requires
        names_sorted(old(out)@),
    ensures
        names_sorted(final(out)@),
        ({
            let xs = old(out)@;
            exists|k: int|
                {
                    &&& 0 <= k <= xs.len()
                    &&& #[trigger] final(out)@.len() == xs.len() + 1
                    &&& final(out)@[k] == x
                    &&& (forall|j: int| 0 <= j < k ==> #[trigger] final(out)@[j] == xs[j])
                    &&& (forall|j: int|
                        k < j < final(out)@.len() ==> #[trigger] final(out)@[j] == xs[j - 1])
                }
        }),
{
    let ghost xs = out@;
    let mut k: usize = 0;
    while k < out.len() && !lex_le_str(x.as_str(), out[k].as_str())
        invariant
            k <= out@.len(),
            out@ == xs,
            forall|j: int| 0 <= j < k ==> !lex_le(x@, #[trigger] xs[j]@),
        decreases out@.len() - k,
    {
        k += 1;
    }
    let ghost kk = k as int;
    out.insert(k, x);
    proof {
        xs.insert_ensures(kk, x);
        assert(out@ == xs.insert(kk, x));
        assert forall|j: int| kk < j < out@.len() implies #[trigger] out@[j] == xs[j - 1] by {
            assert(out@[(j - 1) + 1] == xs[j - 1]);
        }
        assert forall|a: int, b: int|
            #![trigger out@[a], out@[b]]
            0 <= a < b < out@.len() implies lex_le(out@[a]@, out@[b]@) by {
            if b < kk {
                assert(out@[a] == xs[a] && out@[b] == xs[b]);
            } else if a < kk && b == kk {
                assert(out@[a] == xs[a]);
                assert(!lex_le(x@, xs[a]@));
                lemma_lex_le_total(x@, xs[a]@);
            } else if a < kk && b > kk {
                assert(out@[a] == xs[a] && out@[b] == xs[b - 1]);
                if b - 1 == a {
                    assert(!lex_le(x@, xs[a]@));
                    lemma_lex_le_total(x@, xs[a]@);
                    assert(lex_le(xs[a]@, x@));
                    assert(kk < xs.len());
                    assert(lex_le(x@, xs[kk]@));
                    assert(false);
                }
            } else if a == kk {
                assert(out@[b] == xs[b - 1]);
                assert(kk < xs.len());
                assert(lex_le(x@, xs[kk]@));
                if b - 1 > kk {
                    lemma_lex_le_trans(x@, xs[kk]@, xs[b - 1]@);
                }
            } else {
                assert(out@[a] == xs[a - 1] && out@[b] == xs[b - 1]);
            }
        }
    }
}

impl KernelPool {
    /// The names of all variables matching `pattern`, in ascending
    /// lexicographic order, each at most once: an exact (case-folded)
    /// name, a prefix match for a trailing `*`, or a suffix match for a
    /// leading `*`.
    #[verifier::rlimit(100)]
    #[verifier::spinoff_prover]
    pub fn get_variable_names(&self, pattern: &str) -> (r: SpiceResult<Vec<String>>)
        requires
            self.wf(),
        ensures
            r is Ok,
            names_listing_ok(self@, pattern@, r->Ok_0@),
            names_sorted(r->Ok_0@),
    {
        let pc = text::str_chars(pattern);
        let pu = text::upper_chars(&pc);
        let ghost bigp = text::spec_upper_seq(pattern@);
        let trailing = pu.len() > 0 && pu[pu.len() - 1] == '*';
        let leading = !trailing && pu.len() > 0 && pu[0] == '*';
        let affix: Vec<char> = if trailing {
            text::sub_chars(&pu, 0, pu.len() - 1)
        } else if leading {
            text::sub_chars(&pu, 1, pu.len())
        } else {
            Vec::new()
        };
        let exact = text::chars_to_string(&pu);
        proof {
            assert(pu@ == bigp);
            if trailing {
                assert(affix@ =~= bigp.drop_last());
            } else if leading {
                assert(affix@ =~= bigp.drop_first());
            }
        }
        let ghost es = self.variables@;
        let mut out: Vec<String> = Vec::new();
        let mut j: usize = 0;
        while j < self.variables.len()
            invariant
                self.wf(),
                j <= es.len(),
                es == self.variables@,
                bigp == text::spec_upper_seq(pattern@),
                trailing == (bigp.len() > 0 && bigp.last() == '*'),
                leading == (!trailing && bigp.len() > 0 && bigp[0] == '*'),
                trailing ==> affix@ == bigp.drop_last(),
                leading ==> affix@ == bigp.drop_first(),
                exact@ == bigp,
                names_sorted(out@),
                listing_inv(es, pattern@, j as int, out@),
            decreases es.len() - j,
        {
            let name = &self.variables[j].0;
            let hit = match_one(name.as_str(), trailing, leading, &affix, &exact);
            proof {
                assert(hit == spec_name_matches(es[j as int].0@, pattern@));
            }
            if hit {
                proof {
                    // the entry's name is new to the listing
                    assert forall|a: int| 0 <= a < out@.len() implies #[trigger] out@[a]@
                        != es[j as int].0@ by {
                        let b = choose|b: int| 0 <= b < j && #[trigger] es[b].0@ == out@[a]@;
                        assert(es[b].0@ != es[j as int].0@);
                    }
                }
                let ghost out0 = out@;
                insert_sorted(&mut out, name.clone());
                proof {
                    let k = choose|k: int|
                        {
                            &&& 0 <= k <= out0.len()
                            &&& #[trigger] out@.len() == out0.len() + 1
                            &&& out@[k] == es[j as int].0
                            &&& (forall|jj: int| 0 <= jj < k ==> #[trigger] out@[jj] == out0[jj])
                            &&& (forall|jj: int|
                                k < jj < out@.len() ==> #[trigger] out@[jj] == out0[jj - 1])
                        };
                    lemma_listing_step(es, pattern@, j as int, out0, out@, k);
                }
            }
            j += 1;
        }
        proof {
            lemma_listing_from_entries(es, pattern@, out@);
        }
        Ok(out)
    }
}

} // verus!
