//! Bencode scanning: byte strings, integers, and a skipper for nested values
//! whose content the schema ignores. Each executable scanner mirrors a spec
//! function exactly, so the parsers built on them can state their results.
use vstd::prelude::*;

verus! {

/// An ASCII decimal digit.
pub open spec fn is_digit(b: u8) -> bool {
    48 <= b <= 57
}

/// The first index at or after `i` that does not hold a digit.
pub open spec fn digits_end(s: Seq<u8>, i: int) -> int
    recommends
        0 <= i <= s.len(),
    decreases s.len() - i,
{
    if i < s.len() && is_digit(s[i]) {
        digits_end(s, i + 1)
    } else {
        i
    }
}

/// A digit run neither retreats nor leaves the sequence.
pub proof fn lemma_digits_end_bounds(s: Seq<u8>, i: int)
    requires
        0 <= i <= s.len(),
    ensures
        i <= digits_end(s, i) <= s.len(),
    decreases s.len() - i,
{
    if i < s.len() && is_digit(s[i]) {
        lemma_digits_end_bounds(s, i + 1);
    }
}

/// Everything before the end of a digit run is a digit.
pub proof fn lemma_digits_end_digits(s: Seq<u8>, i: int)
    requires
        0 <= i <= s.len(),
    ensures
        forall|k: int| i <= k < digits_end(s, i) ==> is_digit(s[k]),
    decreases s.len() - i,
{
    if i < s.len() && is_digit(s[i]) {
        lemma_digits_end_digits(s, i + 1);
    }
}

/// A run of digits ending at the first non-digit (or the end) is exactly
/// what `digits_end` finds.
pub proof fn lemma_digits_end_of_run(s: Seq<u8>, i: int, j: int)
    requires
        0 <= i <= j <= s.len(),
        forall|k: int| i <= k < j ==> is_digit(s[k]),
        j == s.len() || !is_digit(s[j]),
    ensures
        digits_end(s, i) == j,
    decreases j - i,
{
    if i < j {
        lemma_digits_end_of_run(s, i + 1, j);
    }
}

/// The value of the decimal digits `s[i..j]`.
pub open spec fn dec_value(s: Seq<u8>, i: int, j: int) -> int
    recommends
        0 <= i <= j <= s.len(),
    decreases j - i,
{
    if i < j {
        dec_value(s, i, j - 1) * 10 + (s[j - 1] - 48)
    } else {
        0
    }
}

/// A digit run's value is not negative.
pub proof fn lemma_dec_value_nonneg(s: Seq<u8>, i: int, j: int)
    requires
        0 <= i <= j <= s.len(),
        forall|k: int| i <= k < j ==> is_digit(s[k]),
    ensures
        dec_value(s, i, j) >= 0,
    decreases j - i,
{
    if i < j {
        lemma_dec_value_nonneg(s, i, j - 1);
    }
}

/// Reading more digits never shrinks the value.
pub proof fn lemma_dec_value_mono(s: Seq<u8>, i: int, j: int, k: int)
    requires
        0 <= i <= j <= k <= s.len(),
        forall|m: int| i <= m < k ==> is_digit(s[m]),
    ensures
        dec_value(s, i, j) <= dec_value(s, i, k),
    decreases k - j,
{
    if j < k {
        lemma_dec_value_mono(s, i, j, k - 1);
        lemma_dec_value_nonneg(s, i, k - 1);
    }
}

/// Advances over the digit run that starts at `i`.
pub fn scan_digits(bytes: &Vec<u8>, i: usize) -> (j: usize)
    requires
        i <= bytes@.len(),
    ensures
        j == digits_end(bytes@, i as int),
        i <= j <= bytes@.len(),
{
    let mut j = i;
    while j < bytes.len() && 48 <= bytes[j] && bytes[j] <= 57
        invariant
            i <= j <= bytes@.len(),
            digits_end(bytes@, i as int) == digits_end(bytes@, j as int),
        decreases bytes@.len() - j,
    {
        j = j + 1;
    }
    j
}

/// A bencode byte string starts at `i`: digits, `:`, and room for as many
/// content bytes as the digits say.
pub open spec fn str_valid(s: Seq<u8>, i: int) -> bool {
    let de = digits_end(s, i);
    &&& 0 <= i < s.len()
    &&& is_digit(s[i])
    &&& de < s.len()
    &&& s[de] == 58
    &&& de + 1 + dec_value(s, i, de) <= s.len()
}

/// Where the content bytes of the string at `i` begin.
pub open spec fn str_start(s: Seq<u8>, i: int) -> int {
    digits_end(s, i) + 1
}

/// Where the content bytes of the string at `i` end.
pub open spec fn str_end(s: Seq<u8>, i: int) -> int {
    str_start(s, i) + dec_value(s, i, digits_end(s, i))
}

/// The content bytes of the string at `i`.
pub open spec fn str_content(s: Seq<u8>, i: int) -> Seq<u8> {
    s.subrange(str_start(s, i), str_end(s, i))
}

/// Finds the content bounds of the byte string at `i`, or nothing when no
/// well-formed string starts there.
pub fn parse_str_token(bytes: &Vec<u8>, i: usize) -> (r: Option<(usize, usize)>)
    requires
        i <= bytes@.len(),
    ensures
        r is Some <==> str_valid(bytes@, i as int),
        r matches Some(se) ==> {
            &&& se.0 == str_start(bytes@, i as int)
            &&& se.1 == str_end(bytes@, i as int)
            &&& i < se.0 <= se.1 <= bytes@.len()
        },
{
    let len = bytes.len();
    if i >= len {
        return None;
    }
    if !(48 <= bytes[i] && bytes[i] <= 57) {
        return None;
    }
    let de = scan_digits(bytes, i);
    if de >= len {
        return None;
    }
    if bytes[de] != 58 {
        return None;
    }
    proof {
        lemma_digits_end_digits(bytes@, i as int);
        lemma_digits_end_bounds(bytes@, i as int + 1);
    }
    let mut acc: usize = 0;
    let mut j = i;
    while j < de
        invariant
            i <= j <= de,
            de == digits_end(bytes@, i as int),
            de < bytes@.len(),
            bytes@.len() <= usize::MAX,
            forall|k: int| i <= k < de ==> is_digit(bytes@[k]),
            acc == dec_value(bytes@, i as int, j as int),
        decreases de - j,
    {
        let d = (bytes[j] - 48) as usize;
        if acc > usize::MAX / 10 || (acc == usize::MAX / 10 && d > usize::MAX % 10) {
            proof {
                assert(acc * 10 + d > usize::MAX);
                assert(dec_value(bytes@, i as int, j as int + 1) > usize::MAX);
                lemma_dec_value_mono(bytes@, i as int, j as int + 1, de as int);
                assert(dec_value(bytes@, i as int, de as int) > usize::MAX);
            }
            return None;
        }
        assert(acc * 10 + d <= usize::MAX);
        acc = acc * 10 + d;
        j = j + 1;
    }
    if len - de - 1 < acc {
        None
    } else {
        assert(de as int >= i as int + 1);
        Some((de + 1, de + 1 + acc))
    }
}

/// Where the digits of the integer at `i` begin: after `i`, or after `i-`
/// when the value is negative.
pub open spec fn int_digits_start(s: Seq<u8>, i: int) -> int {
    if i + 1 < s.len() && s[i + 1] == 45 {
        i + 2
    } else {
        i + 1
    }
}

/// The integer at `i` carries a minus sign.
pub open spec fn int_is_neg(s: Seq<u8>, i: int) -> bool {
    i + 1 < s.len() && s[i + 1] == 45
}

/// A bencode integer shape starts at `i`: `i`, an optional `-`, at least one
/// digit, and a closing `e`.
pub open spec fn int_shape(s: Seq<u8>, i: int) -> bool {
    let ds = int_digits_start(s, i);
    let de = digits_end(s, ds);
    &&& 0 <= i < s.len()
    &&& s[i] == 105
    &&& de > ds
    &&& de < s.len()
    &&& s[de] == 101
}

/// The signed value of the integer at `i`.
pub open spec fn int_value(s: Seq<u8>, i: int) -> int {
    let ds = int_digits_start(s, i);
    let v = dec_value(s, ds, digits_end(s, ds));
    if int_is_neg(s, i) {
        -v
    } else {
        v
    }
}

/// The index after the closing `e` of the integer at `i`.
pub open spec fn int_after(s: Seq<u8>, i: int) -> int {
    digits_end(s, int_digits_start(s, i)) + 1
}

/// The integer at `i` is well-formed and its value fits a 64-bit signed
/// field, the width the metadata schema stores.
pub open spec fn int_valid(s: Seq<u8>, i: int) -> bool {
    &&& int_shape(s, i)
    &&& i64::MIN <= int_value(s, i) <= i64::MAX
}

/// Reads the integer at `i` and the index after its closing `e`, or nothing
/// when no well-formed integer in 64-bit range starts there.
pub fn parse_int_token(bytes: &Vec<u8>, i: usize) -> (r: Option<(i64, usize)>)
    requires
        i <= bytes@.len(),
    ensures
        r is Some <==> int_valid(bytes@, i as int),
        r matches Some(vj) ==> {
            &&& vj.0 as int == int_value(bytes@, i as int)
            &&& vj.1 == int_after(bytes@, i as int)
            &&& i < vj.1 <= bytes@.len()
        },
{
    let len = bytes.len();
    if i >= len {
        return None;
    }
    if bytes[i] != 105 {
        return None;
    }
    let neg = i + 1 < len && bytes[i + 1] == 45;
    let ds = if neg {
        i + 2
    } else {
        i + 1
    };
    let de = scan_digits(bytes, ds);
    if de == ds {
        return None;
    }
    if de >= len {
        return None;
    }
    if bytes[de] != 101 {
        return None;
    }
    proof {
        lemma_digits_end_digits(bytes@, ds as int);
    }
    let mut acc: u64 = 0;
    let mut j = ds;
    while j < de
        invariant
            ds <= j <= de,
            i < bytes@.len(),
            ds == int_digits_start(bytes@, i as int),
            neg == int_is_neg(bytes@, i as int),
            de == digits_end(bytes@, ds as int),
            de < bytes@.len(),
            bytes@.len() <= usize::MAX,
            forall|k: int| ds <= k < de ==> is_digit(bytes@[k]),
            acc == dec_value(bytes@, ds as int, j as int),
        decreases de - j,
    {
        let d = (bytes[j] - 48) as u64;
        if acc > u64::MAX / 10 || (acc == u64::MAX / 10 && d > u64::MAX % 10) {
            proof {
                assert(acc * 10 + d > u64::MAX);
                assert(dec_value(bytes@, ds as int, j as int + 1) > u64::MAX);
                lemma_dec_value_mono(bytes@, ds as int, j as int + 1, de as int);
                assert(dec_value(bytes@, ds as int, de as int) > u64::MAX);
            }
            return None;
        }
        assert(acc * 10 + d <= u64::MAX);
        acc = acc * 10 + d;
        j = j + 1;
    }
    if neg {
        if acc > 0x8000_0000_0000_0000u64 {
            return None;
        }
        if acc == 0x8000_0000_0000_0000u64 {
            Some((i64::MIN, de + 1))
        } else {
            Some((-(acc as i64), de + 1))
        }
    } else {
        if acc > 0x7fff_ffff_ffff_ffffu64 {
            return None;
        }
        Some((acc as i64, de + 1))
    }
}

/// One step at a time over the tokens of nested values, keeping count of the
/// containers still open; done when the count returns to zero. Containers are
/// skipped leniently: any closing `e` ends the innermost open container. The
/// fuel only bounds the recursion; one token always takes at least one byte,
/// so the callers' fuel never runs out before the sequence does.
pub open spec fn skip_tokens(s: Seq<u8>, i: int, depth: int, fuel: nat) -> Option<int>
    decreases fuel,
{
    if depth <= 0 {
        Some(i)
    } else if fuel == 0 {
        None
    } else if i >= s.len() || i < 0 {
        None
    } else if s[i] == 101 {
        skip_tokens(s, i + 1, depth - 1, (fuel - 1) as nat)
    } else if s[i] == 108 || s[i] == 100 {
        skip_tokens(s, i + 1, depth + 1, (fuel - 1) as nat)
    } else if s[i] == 105 {
        if int_shape(s, i) {
            skip_tokens(s, int_after(s, i), depth, (fuel - 1) as nat)
        } else {
            None
        }
    } else if is_digit(s[i]) {
        if str_valid(s, i) {
            skip_tokens(s, str_end(s, i), depth, (fuel - 1) as nat)
        } else {
            None
        }
    } else {
        None
    }
}

/// The index after the single bencode value that starts at `i`, or nothing
/// when no well-formed value starts there.
pub open spec fn value_end(s: Seq<u8>, i: int) -> Option<int> {
    if i < 0 || i >= s.len() {
        None
    } else if s[i] == 105 {
        if int_shape(s, i) {
            Some(int_after(s, i))
        } else {
            None
        }
    } else if is_digit(s[i]) {
        if str_valid(s, i) {
            Some(str_end(s, i))
        } else {
            None
        }
    } else if s[i] == 108 || s[i] == 100 {
        skip_tokens(s, i + 1, 1, (s.len() - i) as nat)
    } else {
        None
    }
}

/// Moves past the single bencode value that starts at `i`, without keeping
/// its content.
pub fn skip_value(bytes: &Vec<u8>, i: usize) -> (r: Option<usize>)
    requires
        i <= bytes@.len(),
    ensures
        r is Some <==> value_end(bytes@, i as int) is Some,
        r matches Some(j) ==> value_end(bytes@, i as int) == Some(j as int) && i < j <= bytes@.len(),
{
    let len = bytes.len();
    if i >= len {
        return None;
    }
    let b = bytes[i];
    if b == 105 {
        match parse_int_shape(bytes, i) {
            Some(j) => Some(j),
            None => None,
        }
    } else if 48 <= b && b <= 57 {
        match parse_str_token(bytes, i) {
            Some((_, ce)) => Some(ce),
            None => None,
        }
    } else if b == 108 || b == 100 {
        let ghost fuel0: nat = (bytes@.len() - i) as nat;
        let ghost mut fuel: nat = fuel0;
        let mut cur = i + 1;
        let mut depth: usize = 1;
        while depth > 0
            invariant
                i < cur <= bytes@.len(),
                i < bytes@.len(),
                bytes@[i as int] == 108 || bytes@[i as int] == 100,
                bytes@.len() <= usize::MAX,
                depth <= cur - i,
                fuel + cur >= fuel0 + i + 1,
                fuel0 == bytes@.len() - i,
                skip_tokens(bytes@, i as int + 1, 1, fuel0) == skip_tokens(
                    bytes@,
                    cur as int,
                    depth as int,
                    fuel,
                ),
            decreases bytes@.len() - cur,
        {
            if cur >= bytes.len() {
                assert(skip_tokens(bytes@, cur as int, depth as int, fuel) is None);
                return None;
            }
            assert(fuel > 0);
            let c = bytes[cur];
            if c == 101 {
                depth = depth - 1;
                cur = cur + 1;
                proof {
                    fuel = (fuel - 1) as nat;
                }
            } else if c == 108 || c == 100 {
                depth = depth + 1;
                cur = cur + 1;
                proof {
                    fuel = (fuel - 1) as nat;
                }
            } else if c == 105 {
                match parse_int_shape(bytes, cur) {
                    Some(j) => {
                        proof {
                            fuel = (fuel - 1) as nat;
                        }
                        cur = j;
                    },
                    None => {
                        return None;
                    },
                }
            } else if 48 <= c && c <= 57 {
                match parse_str_token(bytes, cur) {
                    Some((_, ce)) => {
                        proof {
                            fuel = (fuel - 1) as nat;
                        }
                        cur = ce;
                    },
                    None => {
                        return None;
                    },
                }
            } else {
                return None;
            }
        }
        assert(skip_tokens(bytes@, cur as int, 0, fuel) == Some(cur as int));
        Some(cur)
    } else {
        None
    }
}

/// Moves past the integer shape at `i` without computing its value, so that
/// skipped integers of any size are accepted.
fn parse_int_shape(bytes: &Vec<u8>, i: usize) -> (r: Option<usize>)
    requires
        i <= bytes@.len(),
    ensures
        r is Some <==> int_shape(bytes@, i as int),
        r matches Some(j) ==> j == int_after(bytes@, i as int) && i < j <= bytes@.len(),
{
    let len = bytes.len();
    if i >= len {
        return None;
    }
    if bytes[i] != 105 {
        return None;
    }
    let neg = i + 1 < len && bytes[i + 1] == 45;
    let ds = if neg {
        i + 2
    } else {
        i + 1
    };
    let de = scan_digits(bytes, ds);
    if de == ds {
        return None;
    }
    if de >= len {
        return None;
    }
    if bytes[de] != 101 {
        return None;
    }
    Some(de + 1)
}

} // verus!
