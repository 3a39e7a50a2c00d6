//! Small verified text utilities shared by the pool, the store and the
//! body-name tables: string equality, ASCII case folding, and integer
//! parsing.

use vstd::prelude::*;

verus! {

/// Relies on `String::push`: appends one character to the string.
#[verifier::external_body]
pub(crate) fn push_char(s: &mut String, c: char)
    ensures
        final(s)@ == old(s)@.push(c),
{
    s.push(c);
}

/// Compare two strings character by character.
pub fn str_eq(a: &str, b: &str) -> (r: bool)
    ensures
        r == (a@ == b@),
{
    let an = a.unicode_len();
    let bn = b.unicode_len();
    if an != bn {
        return false;
    }
    let mut i: usize = 0;
    while i < an
        invariant
            i <= an,
            an == a@.len(),
            an == b@.len(),
            forall|j: int| 0 <= j < i ==> a@[j] == b@[j],
        decreases an - i,
    {
        if a.get_char(i) != b.get_char(i) {
            return false;
        }
        i += 1;
    }
    proof {
        assert(a@ =~= b@);
    }
    true
}

/// The ASCII upper-case image of one character; other characters are kept.
pub open spec fn spec_upper_char(c: char) -> char {
    match c {
        'a' => 'A',
        'b' => 'B',
        'c' => 'C',
        'd' => 'D',
        'e' => 'E',
        'f' => 'F',
        'g' => 'G',
        'h' => 'H',
        'i' => 'I',
        'j' => 'J',
        'k' => 'K',
        'l' => 'L',
        'm' => 'M',
        'n' => 'N',
        'o' => 'O',
        'p' => 'P',
        'q' => 'Q',
        'r' => 'R',
        's' => 'S',
        't' => 'T',
        'u' => 'U',
        'v' => 'V',
        'w' => 'W',
        'x' => 'X',
        'y' => 'Y',
        'z' => 'Z',
        _ => c,
    }
}

/// The ASCII upper-case image of a character sequence.
pub open spec fn spec_upper_seq(s: Seq<char>) -> Seq<char> {
    s.map_values(|c: char| spec_upper_char(c))
}

/// Upper-case one character (ASCII letters only).
pub fn upper_char(c: char) -> (r: char)
    ensures
        r == spec_upper_char(c),
{
    match c {
        'a' => 'A',
        'b' => 'B',
        'c' => 'C',
        'd' => 'D',
        'e' => 'E',
        'f' => 'F',
        'g' => 'G',
        'h' => 'H',
        'i' => 'I',
        'j' => 'J',
        'k' => 'K',
        'l' => 'L',
        'm' => 'M',
        'n' => 'N',
        'o' => 'O',
        'p' => 'P',
        'q' => 'Q',
        'r' => 'R',
        's' => 'S',
        't' => 'T',
        'u' => 'U',
        'v' => 'V',
        'w' => 'W',
        'x' => 'X',
        'y' => 'Y',
        'z' => 'Z',
        _ => c,
    }
}

/// Upper-case a string (ASCII letters only; other characters are kept).
pub fn to_upper(s: &str) -> (r: String)
    ensures
        r@ == spec_upper_seq(s@),
{
    let n = s.unicode_len();
    let mut out = String::new();
    let mut i: usize = 0;
    while i < n
        invariant
            i <= n,
            n == s@.len(),
            out@.len() == i,
            out@ == spec_upper_seq(s@).subrange(0, i as int),
        decreases n - i,
    {
        push_char(&mut out, upper_char(s.get_char(i)));
        proof {
            assert(out@ =~= spec_upper_seq(s@).subrange(0, i + 1));
        }
        i += 1;
    }
    proof {
        assert(out@ =~= spec_upper_seq(s@));
    }
    out
}

/// Upper-case a character vector in place semantics (returns a new vector).
pub fn upper_chars(v: &Vec<char>) -> (r: Vec<char>)
    ensures
        r@ == spec_upper_seq(v@),
{
    let mut out: Vec<char> = Vec::new();
    let mut i: usize = 0;
    while i < v.len()
        invariant
            i <= v@.len(),
            out@.len() == i,
            out@ == spec_upper_seq(v@).subrange(0, i as int),
        decreases v@.len() - i,
    {
        out.push(upper_char(v[i]));
        proof {
            assert(out@ =~= spec_upper_seq(v@).subrange(0, i + 1));
        }
        i += 1;
    }
    proof {
        assert(out@ =~= spec_upper_seq(v@));
    }
    out
}

/// Collect the characters of a string into a vector.
pub fn str_chars(s: &str) -> (r: Vec<char>)
    ensures
        r@ == s@,
{
    let n = s.unicode_len();
    let mut out: Vec<char> = Vec::new();
    let mut i: usize = 0;
    while i < n
        invariant
            i <= n,
            n == s@.len(),
            out@ == s@.subrange(0, i as int),
        decreases n - i,
    {
        out.push(s.get_char(i));
        proof {
            assert(out@ =~= s@.subrange(0, i + 1));
        }
        i += 1;
    }
    proof {
        assert(out@ =~= s@);
    }
    out
}

/// Build a string from a character vector.
pub fn chars_to_string(v: &Vec<char>) -> (r: String)
    ensures
        r@ == v@,
{
    let mut out = String::new();
    let mut i: usize = 0;
    while i < v.len()
        invariant
            i <= v@.len(),
            out@ == v@.subrange(0, i as int),
        decreases v@.len() - i,
    {
        push_char(&mut out, v[i]);
        proof {
            assert(out@ =~= v@.subrange(0, i + 1));
        }
        i += 1;
    }
    proof {
        assert(out@ =~= v@);
    }
    out
}

/// The decimal value of one digit character, or -1 for anything else.
pub open spec fn digit_val(c: char) -> int {
    match c {
        '0' => 0,
        '1' => 1,
        '2' => 2,
        '3' => 3,
        '4' => 4,
        '5' => 5,
        '6' => 6,
        '7' => 7,
        '8' => 8,
        '9' => 9,
        _ => -1,
    }
}

/// Every character of `s` is a decimal digit.
pub open spec fn all_digits(s: Seq<char>) -> bool {
    forall|i: int| 0 <= i < s.len() ==> digit_val(#[trigger] s[i]) >= 0
}

/// The (unbounded) integer spelled by a digit sequence.
pub open spec fn digits_to_int(s: Seq<char>) -> int
    decreases s.len(),
{
    if s.len() == 0 {
        0
    } else {
        digits_to_int(s.drop_last()) * 10 + digit_val(s.last())
    }
}

/// The `i32` spelled by `s`: an optional sign followed by at least one
/// digit, within the `i32` range; anything else is `None`.
pub open spec fn spec_parse_i32(s: Seq<char>) -> Option<i32> {
    let negative = s.len() > 0 && s[0] == '-';
    let signed = s.len() > 0 && (s[0] == '-' || s[0] == '+');
    let digits = if signed {
        s.subrange(1, s.len() as int)
    } else {
        s
    };
    if digits.len() == 0 || !all_digits(digits) {
        None
    } else {
        let v = if negative {
            -digits_to_int(digits)
        } else {
            digits_to_int(digits)
        };
        if i32::MIN <= v <= i32::MAX {
            Some(v as i32)
        } else {
            None
        }
    }
}

/// Parse a character vector as an `i32` (optional sign, decimal digits).
pub fn parse_i32_chars(v: &Vec<char>) -> (r: Option<i32>)
    ensures
        r == spec_parse_i32(v@),
{
    let n = v.len();
    let ghost s = v@;
    if n == 0 {
        return None;
    }
    let c0 = v[0];
    let negative = c0 == '-';
    let signed = c0 == '-' || c0 == '+';
    let start: usize = if signed {
        1
    } else {
        0
    };
    let ghost digits = if signed {
        s.subrange(1, s.len() as int)
    } else {
        s
    };
    if n == start {
        return None;
    }
    let mut acc: u64 = 0;
    let mut too_big = false;
    let mut i: usize = start;
    while i < n
        invariant
            start <= i <= n,
            n == s.len(),
            n > 0,
            signed == (s[0] == '-' || s[0] == '+'),
            negative == (s[0] == '-'),
            digits == if signed {
                s.subrange(1, s.len() as int)
            } else {
                s
            },
            start == if signed {
                1int
            } else {
                0int
            },
            v@ == s,
            all_digits(digits.subrange(0, i - start)),
            !too_big ==> acc == digits_to_int(digits.subrange(0, i - start)) && acc
                <= 0x8000_0000u64,
            too_big ==> digits_to_int(digits.subrange(0, i - start)) > 0x8000_0000,
        decreases n - i,
    {
        let c = v[i];
        let d: u64 = match c {
            '0' => 0,
            '1' => 1,
            '2' => 2,
            '3' => 3,
            '4' => 4,
            '5' => 5,
            '6' => 6,
            '7' => 7,
            '8' => 8,
            '9' => 9,
            _ => 10,
        };
        if d == 10 {
            proof {
                assert(digits[i - start] == c);
                assert(digit_val(c) < 0);
                assert(!all_digits(digits));
            }
            return None;
        }
        assert(d == digit_val(c));
        let ghost pref = digits.subrange(0, i - start);
        let ghost pref1 = digits.subrange(0, i + 1 - start);
        proof {
            assert(pref1.drop_last() =~= pref);
            assert(pref1.last() == c);
        }
        if too_big {
            proof {
                assert(digits_to_int(pref1) == digits_to_int(pref) * 10 + digit_val(c));
            }
        } else {
            acc = acc * 10 + d;
            if acc > 0x8000_0000 {
                too_big = true;
            }
        }
        i += 1;
    }
    proof {
        assert(digits.subrange(0, n - start) =~= digits);
    }
    if too_big {
        proof {
            if negative {
                assert(-digits_to_int(digits) < i32::MIN);
            } else {
                assert(digits_to_int(digits) > i32::MAX);
            }
        }
        return None;
    }
    if negative {
        if acc == 0x8000_0000 {
            Some(i32::MIN)
        } else {
            Some(-(acc as i32))
        }
    } else {
        if acc > 0x7FFF_FFFF {
            None
        } else {
            Some(acc as i32)
        }
    }
}

/// Parse a string as an `i32` (optional sign, decimal digits).
pub fn parse_i32_str(st: &str) -> (r: Option<i32>)
    ensures
        r == spec_parse_i32(st@),
{
    let v = str_chars(st);
    parse_i32_chars(&v)
}


/// Compare a character vector to a string.
pub fn chars_eq_str(v: &Vec<char>, b: &str) -> (r: bool)
    ensures
        r == (v@ == b@),
{
    let bn = b.unicode_len();
    if v.len() != bn {
        return false;
    }
    let mut i: usize = 0;
    while i < bn
        invariant
            i <= bn,
            bn == b@.len(),
            v@.len() == bn,
            forall|j: int| 0 <= j < i ==> v@[j] == b@[j],
        decreases bn - i,
    {
        if v[i] != b.get_char(i) {
            return false;
        }
        i += 1;
    }
    proof {
        assert(v@ =~= b@);
    }
    true
}

/// ASCII whitespace, as recognized by the line parsers.
pub open spec fn is_space(c: char) -> bool {
    c == ' ' || c == '\t' || c == '\n' || c == '\r' || c == '\u{0B}' || c == '\u{0C}'
}

/// Drop leading whitespace.
pub open spec fn trim_front(s: Seq<char>) -> Seq<char>
    decreases s.len(),
{
    if s.len() > 0 && is_space(s[0]) {
        trim_front(s.drop_first())
    } else {
        s
    }
}

/// Drop trailing whitespace.
pub open spec fn trim_back(s: Seq<char>) -> Seq<char>
    decreases s.len(),
{
    if s.len() > 0 && is_space(s.last()) {
        trim_back(s.drop_last())
    } else {
        s
    }
}

/// Drop leading and trailing whitespace.
pub open spec fn spec_trim(s: Seq<char>) -> Seq<char> {
    trim_back(trim_front(s))
}

/// Check one character for ASCII whitespace.
fn is_space_char(c: char) -> (r: bool)
    ensures
        r == is_space(c),
{
    c == ' ' || c == '\t' || c == '\n' || c == '\r' || c == '\u{0B}' || c == '\u{0C}'
}

/// Trim leading and trailing whitespace from a character vector.
pub fn trim_chars(v: &Vec<char>) -> (r: Vec<char>)
    ensures
        r@ == spec_trim(v@),
{
    let n = v.len();
    let ghost s = v@;
    proof {
        assert(s.subrange(0, n as int) =~= s);
    }
    let mut a: usize = 0;
    while a < n && is_space_char(v[a])
        invariant
            a <= n,
            n == s.len(),
            v@ == s,
            trim_front(s) == trim_front(s.subrange(a as int, n as int)),
        decreases n - a,
    {
        proof {
            assert(s.subrange(a as int, n as int).drop_first() =~= s.subrange(
                a + 1,
                n as int,
            ));
        }
        a += 1;
    }
    proof {
        if a < n {
            assert(trim_front(s) =~= s.subrange(a as int, n as int));
        } else {
            assert(s.subrange(a as int, n as int) =~= Seq::<char>::empty());
            assert(trim_front(s) =~= s.subrange(a as int, n as int));
        }
    }
    let mut b: usize = n;
    while b > a && is_space_char(v[b - 1])
        invariant
            a <= b <= n,
            n == s.len(),
            v@ == s,
            trim_front(s) == s.subrange(a as int, n as int),
            trim_back(s.subrange(a as int, n as int)) == trim_back(
                s.subrange(a as int, b as int),
            ),
        decreases b,
    {
        proof {
            assert(s.subrange(a as int, b as int).drop_last() =~= s.subrange(
                a as int,
                b - 1,
            ));
        }
        b -= 1;
    }
    proof {
        assert(trim_back(s.subrange(a as int, b as int)) =~= s.subrange(a as int, b as int));
    }
    let mut out: Vec<char> = Vec::new();
    let mut i = a;
    while i < b
        invariant
            a <= i <= b <= n,
            n == s.len(),
            v@ == s,
            out@ =~= s.subrange(a as int, i as int),
        decreases b - i,
    {
        out.push(v[i]);
        proof {
            assert(out@ =~= s.subrange(a as int, i + 1));
        }
        i += 1;
    }
    proof {
        assert(out@ =~= s.subrange(a as int, b as int));
    }
    out
}

/// Index of the first occurrence of `c` in `s`, or the length of `s`.
pub open spec fn find_char(s: Seq<char>, c: char) -> int
    decreases s.len(),
{
    if s.len() == 0 {
        0
    } else if s[0] == c {
        0
    } else {
        1 + find_char(s.drop_first(), c)
    }
}

/// Properties of `find_char`: the result is the position of the first hit,
/// or the length when there is none.
pub proof fn lemma_find_char(s: Seq<char>, c: char)
    ensures
        0 <= find_char(s, c) <= s.len(),
        find_char(s, c) < s.len() ==> s[find_char(s, c)] == c,
        forall|j: int| 0 <= j < find_char(s, c) ==> s[j] != c,
    decreases s.len(),
{
    if s.len() > 0 && s[0] != c {
        lemma_find_char(s.drop_first(), c);
        assert forall|j: int| 0 <= j < find_char(s, c) implies s[j] != c by {
            if j > 0 {
                assert(s.drop_first()[j - 1] == s[j]);
            }
        }
    }
}

/// Find the first occurrence of `c` in a character vector.
pub fn find_char_at(v: &Vec<char>, c: char) -> (r: usize)
    ensures
        r == find_char(v@, c),
{
    let n = v.len();
    let ghost s = v@;
    proof {
        assert(s.subrange(0, n as int) =~= s);
    }
    let mut i: usize = 0;
    while i < n
        invariant
            i <= n,
            n == s.len(),
            v@ == s,
            find_char(s, c) == i + find_char(s.subrange(i as int, n as int), c),
            forall|j: int| 0 <= j < i ==> s[j] != c,
        decreases n - i,
    {
        if v[i] == c {
            proof {
                assert(s.subrange(i as int, n as int)[0] == c);
            }
            return i;
        }
        proof {
            assert(s.subrange(i as int, n as int).drop_first() =~= s.subrange(i + 1, n as int));
        }
        i += 1;
    }
    proof {
        assert(s.subrange(i as int, n as int) =~= Seq::<char>::empty());
    }
    n
}

/// Copy a sub-range of a character vector.
pub fn sub_chars(v: &Vec<char>, from: usize, to: usize) -> (r: Vec<char>)
    requires
        from <= to <= v@.len(),
    ensures
        r@ == v@.subrange(from as int, to as int),
{
    let mut out: Vec<char> = Vec::new();
    let mut i = from;
    while i < to
        invariant
            from <= i <= to <= v@.len(),
            out@ =~= v@.subrange(from as int, i as int),
        decreases to - i,
    {
        out.push(v[i]);
        proof {
            assert(out@ =~= v@.subrange(from as int, i + 1));
        }
        i += 1;
    }
    proof {
        assert(out@ =~= v@.subrange(from as int, to as int));
    }
    out
}


/// The digit character of a value in 0 ..= 9.
pub open spec fn digit_char(d: int) -> char {
    if d == 0 {
        '0'
    } else if d == 1 {
        '1'
    } else if d == 2 {
        '2'
    } else if d == 3 {
        '3'
    } else if d == 4 {
        '4'
    } else if d == 5 {
        '5'
    } else if d == 6 {
        '6'
    } else if d == 7 {
        '7'
    } else if d == 8 {
        '8'
    } else {
        '9'
    }
}

/// The decimal digits of a non-negative integer, most significant first.
pub open spec fn spec_u_digits(v: int) -> Seq<char>
    recommends
        v >= 0,
    decreases v,
{
    if v < 10 {
        seq![digit_char(v)]
    } else {
        spec_u_digits(v / 10).push(digit_char(v % 10))
    }
}

/// The decimal spelling of an integer.
pub open spec fn spec_i32_chars(v: int) -> Seq<char> {
    if v < 0 {
        seq!['-'] + spec_u_digits(-v)
    } else {
        spec_u_digits(v)
    }
}

/// The reversal of a character sequence.
pub open spec fn rseq(s: Seq<char>) -> Seq<char> {
    Seq::new(s.len(), |i: int| s[s.len() - 1 - i])
}

/// Spell an integer in decimal.
pub fn i32_to_string(v: i32) -> (r: String)
    ensures
        r@ == spec_i32_chars(v as int),
{
    let neg = v < 0;
    let mag: u64 = if v < 0 {
        (-(v as i64)) as u64
    } else {
        v as u64
    };
    let mut acc: Vec<char> = Vec::new();
    let mut cur: u64 = mag;
    if cur == 0 {
        acc.push('0');
        proof {
            assert(rseq(acc@) =~= seq!['0']);
        }
    } else {
        proof {
            assert(rseq(acc@) =~= Seq::<char>::empty());
            assert(spec_u_digits(mag as int) + rseq(acc@) =~= spec_u_digits(mag as int));
        }
        while cur > 0
            invariant
                cur > 0 ==> spec_u_digits(mag as int) == spec_u_digits(cur as int) + rseq(acc@),
                cur == 0 ==> spec_u_digits(mag as int) == rseq(acc@),
            decreases cur,
        {
            let d: u64 = cur % 10;
            let c: char = match d {
                0 => '0',
                1 => '1',
                2 => '2',
                3 => '3',
                4 => '4',
                5 => '5',
                6 => '6',
                7 => '7',
                8 => '8',
                _ => '9',
            };
            proof {
                assert(c == digit_char(d as int));
            }
            let ghost acc0 = acc@;
            acc.push(c);
            proof {
                assert(rseq(acc@) =~= seq![c] + rseq(acc0));
                if cur >= 10 {
                    assert(spec_u_digits(cur as int) == spec_u_digits(cur as int / 10).push(
                        digit_char(cur as int % 10),
                    ));
                    assert(spec_u_digits(cur as int) + rseq(acc0) =~= spec_u_digits(
                        cur as int / 10,
                    ) + (seq![c] + rseq(acc0)));
                } else {
                    assert(spec_u_digits(cur as int) =~= seq![c]);
                    assert(spec_u_digits(cur as int) + rseq(acc0) =~= seq![c] + rseq(acc0));
                }
            }
            cur = cur / 10;
        }
    }
    // emit, most significant digit first
    let mut out = String::new();
    if neg {
        push_char(&mut out, '-');
    }
    let mut i: usize = acc.len();
    while i > 0
        invariant
            i <= acc@.len(),
            out@ == (if neg {
                seq!['-']
            } else {
                Seq::<char>::empty()
            }) + rseq(acc@).subrange(0, acc@.len() - i),
        decreases i,
    {
        i -= 1;
        push_char(&mut out, acc[i]);
        proof {
            assert(rseq(acc@)[acc@.len() - 1 - i] == acc@[i as int]);
            assert(out@ =~= (if neg {
                seq!['-']
            } else {
                Seq::<char>::empty()
            }) + rseq(acc@).subrange(0, acc@.len() - i));
        }
    }
    proof {
        assert(rseq(acc@).subrange(0, acc@.len() as int) =~= rseq(acc@));
        if neg {
            assert(out@ =~= seq!['-'] + rseq(acc@));
        } else {
            assert(out@ =~= rseq(acc@));
        }
    }
    out
}

} // verus!
