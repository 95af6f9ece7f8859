use vstd::prelude::*;

use crate::directory::DatFile;

verus! {

/// The value of ASCII digit `ch` in base `radix` (10 or 16; 16 also
/// accepts the letters in both cases), or none when `ch` is no digit of
/// that base.
pub open spec fn spec_digit_val(ch: u8, radix: int) -> Option<int> {
    if 0x30 <= ch <= 0x39 {
        Some(ch - 0x30)
    } else if radix == 16 && 0x61 <= ch <= 0x66 {
        Some(ch - 0x61 + 10)
    } else if radix == 16 && 0x41 <= ch <= 0x46 {
        Some(ch - 0x41 + 10)
    } else {
        None
    }
}

/// Whether every byte of `s` is a digit of base `radix`.
pub open spec fn spec_digits_valid(s: Seq<u8>, radix: int) -> bool {
    forall|i: int| 0 <= i < s.len() ==> (#[trigger] spec_digit_val(s[i], radix)) is Some
}

/// The number the digit string `s` denotes in base `radix`.
pub open spec fn spec_digits_value(s: Seq<u8>, radix: int) -> int
    recommends
        spec_digits_valid(s, radix),
    decreases s.len(),
{
    if s.len() == 0 {
        0
    } else {
        spec_digits_value(s.drop_last(), radix) * radix + spec_digit_val(s.last(), radix)->Some_0
    }
}

/// What a digit string parses to in base `radix`: its value when it is
/// non-empty, all digits are of the base, and the value fits 32 bits;
/// none otherwise.
pub open spec fn spec_parse_radix(s: Seq<u8>, radix: int) -> Option<u32> {
    if s.len() > 0 && spec_digits_valid(s, radix) && spec_digits_value(s, radix) <= u32::MAX {
        Some(spec_digits_value(s, radix) as u32)
    } else {
        None
    }
}

/// What an object identifier written in text parses to: hexadecimal when
/// the text begins with `0x`, decimal otherwise.
pub open spec fn spec_parse_object_id(s: Seq<u8>) -> Option<u32> {
    if s.len() >= 2 && s[0] == 0x30u8 && s[1] == 0x78u8 {
        spec_parse_radix(s.skip(2), 16)
    } else {
        spec_parse_radix(s, 10)
    }
}

/// A digit string's value never shrinks as digits are appended.
proof fn lemma_digits_value_monotonic(s: Seq<u8>, radix: int, n: int)
    requires
        2 <= radix,
        0 <= n <= s.len(),
        spec_digits_valid(s, radix),
    ensures
        spec_digits_value(s.take(n), radix) <= spec_digits_value(s, radix),
        0 <= spec_digits_value(s, radix),
    decreases s.len() - n, s.len() + 1,
{
    if n == s.len() {
        assert(s.take(n) =~= s);
        lemma_digits_value_nonneg(s, radix);
    } else {
        lemma_digits_value_monotonic(s, radix, n + 1);
        assert(spec_digits_valid(s.take(n), radix)) by {
            assert(forall|j: int| 0 <= j < n ==> s.take(n)[j] == #[trigger] s[j]);
        }
        lemma_digits_value_nonneg(s.take(n), radix);
        assert(s.take(n + 1).drop_last() =~= s.take(n));
        assert(s.take(n + 1).last() == s[n]);
        let v = spec_digits_value(s.take(n), radix);
        let d = spec_digit_val(s[n], radix)->Some_0;
        assert(0 <= d);
        assert(v <= v * radix) by (nonlinear_arith)
            requires
                0 <= v,
                2 <= radix,
        ;
        assert(spec_digits_value(s.take(n + 1), radix) == v * radix + d);
    }
}

proof fn lemma_digits_value_nonneg(s: Seq<u8>, radix: int)
    requires
        2 <= radix,
        spec_digits_valid(s, radix),
    ensures
        0 <= spec_digits_value(s, radix),
    decreases s.len(),
{
    if s.len() > 0 {
        assert(spec_digits_valid(s.drop_last(), radix)) by {
            assert(forall|i: int|
                0 <= i < s.len() - 1 ==> s.drop_last()[i] == #[trigger] s[i]);
        }
        lemma_digits_value_nonneg(s.drop_last(), radix);
    }
}

fn digit_val(ch: u8, radix: u32) -> (r: Option<u32>)
    requires
        radix == 10 || radix == 16,
    ensures
        match r {
            Some(v) => spec_digit_val(ch, radix as int) == Some(v as int) && v < radix,
            None => spec_digit_val(ch, radix as int) is None,
        },
{
    if 0x30 <= ch && ch <= 0x39 {
        Some((ch - 0x30) as u32)
    } else if radix == 16 && 0x61 <= ch && ch <= 0x66 {
        Some((ch - 0x61) as u32 + 10)
    } else if radix == 16 && 0x41 <= ch && ch <= 0x46 {
        Some((ch - 0x41) as u32 + 10)
    } else {
        None
    }
}

fn parse_radix(s: &Vec<u8>, start: usize, radix: u32) -> (r: Option<u32>)
    requires
        radix == 10 || radix == 16,
        start <= s@.len(),
    ensures
        r == spec_parse_radix(s@.skip(start as int), radix as int),
{
    let ghost digits = s@.skip(start as int);
    let n = s.len();
    if start == n {
        return None;
    }
    let mut value: u64 = 0;
    let mut i: usize = start;
    while i < n
        invariant
            radix == 10 || radix == 16,
            start <= i <= n,
            n == s@.len(),
            digits == s@.skip(start as int),
            spec_digits_valid(digits.take(i - start), radix as int),
            value == spec_digits_value(digits.take(i - start), radix as int),
            value <= u32::MAX,
        decreases n - i,
    {
        let d = match digit_val(s[i], radix) {
            Some(d) => d,
            None => {
                proof {
                    assert(digits[i - start] == s@[i as int]);
                    assert(!spec_digits_valid(digits, radix as int));
                }
                return None;
            },
        };
        proof {
            assert(value * (radix as u64) + (d as u64) < 0x8000000000000000) by (nonlinear_arith)
                requires
                    value <= 0xFFFFFFFFu64,
                    radix <= 16,
                    d < radix,
            ;
        }
        value = value * (radix as u64) + (d as u64);
        proof {
            assert(digits.take(i - start + 1).drop_last() =~= digits.take(i - start));
            assert(digits.take(i - start + 1).last() == s@[i as int]);
            assert forall|j: int| 0 <= j < i - start + 1 implies (#[trigger] spec_digit_val(
                digits.take(i - start + 1)[j],
                radix as int,
            )) is Some by {
                if j < i - start {
                    assert(digits.take(i - start + 1)[j] == digits.take(i - start)[j]);
                    assert(spec_digit_val(digits.take(i - start)[j], radix as int) is Some);
                } else {
                    assert(digits.take(i - start + 1)[j] == s@[i as int]);
                }
            }
        }
        if value > u32::MAX as u64 {
            proof {
                let m = i - start + 1;
                assert(spec_digits_valid(digits.take(m), radix as int));
                if spec_digits_valid(digits, radix as int) {
                    lemma_digits_value_monotonic(digits, radix as int, m);
                    assert(spec_digits_value(digits.take(m), radix as int) <= spec_digits_value(
                        digits,
                        radix as int,
                    ));
                }
            }
            return None;
        }
        i = i + 1;
    }
    proof {
        assert(digits.take(n - start) =~= digits);
    }
    Some(value as u32)
}

/// Parses an object identifier written as text: hexadecimal when the text
/// begins with `0x`, decimal otherwise. Yields none for an empty string,
/// a non-digit, or a value over 32 bits.
pub fn parse_object_id(text: &Vec<u8>) -> (r: Option<u32>)
    ensures
        r == spec_parse_object_id(text@),
{
    if text.len() >= 2 && text[0] == 0x30 && text[1] == 0x78 {
        parse_radix(text, 2, 16)
    } else {
        proof {
            assert(text@.skip(0) =~= text@);
        }
        parse_radix(text, 0, 10)
    }
}

/// Finds the first directory entry carrying `object_id`, if any.
pub fn find_file_by_id(files: &Vec<DatFile>, object_id: u32) -> (r: Option<DatFile>)
    ensures
        match r {
            Some(f) => exists|i: int|
                {
                    &&& 0 <= i < files@.len()
                    &&& #[trigger] files@[i] == f
                    &&& f.object_id == object_id
                    &&& forall|j: int| 0 <= j < i ==> (#[trigger] files@[j]).object_id != object_id
                },
            None => forall|i: int|
                0 <= i < files@.len() ==> (#[trigger] files@[i]).object_id != object_id,
        },
{
    let n = files.len();
    let mut i: usize = 0;
    while i < n
        invariant
            i <= n,
            n == files@.len(),
            forall|j: int| 0 <= j < i ==> (#[trigger] files@[j]).object_id != object_id,
        decreases n - i,
    {
        if files[i].object_id == object_id {
            return Some(files[i]);
        }
        i = i + 1;
    }
    None
}

} // verus!
