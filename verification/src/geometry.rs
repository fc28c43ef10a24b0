//! The floating-geometry line grammar: one line `"<x>,<y> <width>x<height>"`
//! of decimal integers with an optional trailing newline. Anything else is a
//! hard parse error, including a number that does not fit the wire type.

use vstd::prelude::*;

verus! {

/// ASCII comma.
pub const COMMA: u8 = 44;

/// ASCII space.
pub const SPACE: u8 = 32;

/// ASCII lower-case x.
pub const LOWER_X: u8 = 120;

/// ASCII line feed.
pub const NEWLINE: u8 = 10;

/// Whether `b` is an ASCII decimal digit.
pub open spec fn is_digit(b: u8) -> bool {
    48 <= b <= 57
}

/// The length of the leading run of decimal digits.
pub open spec fn digit_prefix_len(s: Seq<u8>) -> int
    decreases s.len(),
{
    if s.len() == 0 {
        0
    } else if is_digit(s[0]) {
        1 + digit_prefix_len(s.drop_first())
    } else {
        0
    }
}

/// The value of a run of decimal digits, most significant first.
pub open spec fn digits_val(s: Seq<u8>) -> int
    decreases s.len(),
{
    if s.len() == 0 {
        0
    } else {
        digits_val(s.drop_last()) * 10 + (s.last() - 48)
    }
}

/// What the geometry line parses to: four decimal numbers separated by a
/// comma, a space and an `x`, each fitting the wire type, with at most one
/// trailing newline; any other shape is no geometry.
pub open spec fn spec_parse_geometry(s: Seq<u8>) -> Option<(i32, i32, i32, i32)> {
    let n1 = digit_prefix_len(s);
    let v1 = digits_val(s.take(n1));
    let p1 = n1;
    if n1 == 0 || v1 > i32::MAX {
        None
    } else if p1 >= s.len() || s[p1] != COMMA {
        None
    } else {
        let q2 = p1 + 1;
        let n2 = digit_prefix_len(s.skip(q2));
        let v2 = digits_val(s.skip(q2).take(n2));
        let p2 = q2 + n2;
        if n2 == 0 || v2 > i32::MAX {
            None
        } else if p2 >= s.len() || s[p2] != SPACE {
            None
        } else {
            let q3 = p2 + 1;
            let n3 = digit_prefix_len(s.skip(q3));
            let v3 = digits_val(s.skip(q3).take(n3));
            let p3 = q3 + n3;
            if n3 == 0 || v3 > i32::MAX {
                None
            } else if p3 >= s.len() || s[p3] != LOWER_X {
                None
            } else {
                let q4 = p3 + 1;
                let n4 = digit_prefix_len(s.skip(q4));
                let v4 = digits_val(s.skip(q4).take(n4));
                let p4 = q4 + n4;
                if n4 == 0 || v4 > i32::MAX {
                    None
                } else if p4 == s.len() || (p4 + 1 == s.len() && s[p4] == NEWLINE) {
                    Some((v1 as i32, v2 as i32, v3 as i32, v4 as i32))
                } else {
                    None
                }
            }
        }
    }
}

/// A digit run characterized from outside: all digits up to `n`, then a
/// non-digit or the end.
pub proof fn lemma_digit_prefix_len_is(s: Seq<u8>, n: int)
    requires
        0 <= n <= s.len(),
        forall|k: int| 0 <= k < n ==> is_digit(#[trigger] s[k]),
        n == s.len() || !is_digit(s[n]),
    ensures
        digit_prefix_len(s) == n,
    decreases s.len(),
{
    if n > 0 {
        lemma_digit_prefix_len_is(s.drop_first(), n - 1);
    }
}

/// A digit value never shrinks as more digits are appended.
pub proof fn lemma_digits_val_nonneg(s: Seq<u8>)
    requires
        forall|k: int| 0 <= k < s.len() ==> is_digit(#[trigger] s[k]),
    ensures
        digits_val(s) >= 0,
    decreases s.len(),
{
    if s.len() > 0 {
        assert(forall|k: int|
            0 <= k < s.drop_last().len() ==> is_digit(#[trigger] s.drop_last()[k]));
        lemma_digits_val_nonneg(s.drop_last());
    }
}

/// The value of a prefix of a digit run never exceeds the whole run's value.
pub proof fn lemma_digits_val_prefix(s: Seq<u8>, i: int)
    requires
        0 <= i <= s.len(),
        forall|k: int| 0 <= k < s.len() ==> is_digit(#[trigger] s[k]),
    ensures
        digits_val(s.take(i)) <= digits_val(s),
    decreases s.len() - i,
{
    if i < s.len() {
        lemma_digits_val_prefix(s, i + 1);
        assert(s.take(i + 1).drop_last() =~= s.take(i));
        assert(s.take(i + 1).last() == s[i]);
        lemma_digits_val_nonneg(s.take(i));
    } else {
        assert(s.take(i) =~= s);
    }
}

/// Scans the decimal number starting at `start`: its value and the position
/// after it, or nothing if no digit is there or the value does not fit.
fn scan_number(line: &Vec<u8>, start: usize) -> (r: Option<(i32, usize)>)
    requires
        start <= line@.len(),
    ensures
        ({
            let rest = line@.skip(start as int);
            let n = digit_prefix_len(rest);
            match r {
                Some(v) => {
                    &&& n > 0
                    &&& digits_val(rest.take(n)) <= i32::MAX
                    &&& v.0 == digits_val(rest.take(n))
                    &&& v.1 == start + n
                    &&& v.1 <= line@.len()
                },
                None => n == 0 || digits_val(rest.take(n)) > i32::MAX,
            }
        }),
{
    let ghost rest = line@.skip(start as int);
    let mut end = start;
    while end < line.len() && line[end] >= 48 && line[end] <= 57
        invariant
            start <= end <= line@.len(),
            rest == line@.skip(start as int),
            forall|k: int| 0 <= k < end - start ==> is_digit(#[trigger] rest[k]),
        decreases line@.len() - end,
    {
        end += 1;
    }
    proof {
        lemma_digit_prefix_len_is(rest, end - start);
    }
    if end == start {
        return None;
    }
    let ghost run = rest.take(end - start);
    proof {
        assert(forall|k: int| 0 <= k < run.len() ==> is_digit(#[trigger] run[k]));
    }
    let mut v: i32 = 0;
    let mut i = start;
    while i < end
        invariant
            start <= i <= end <= line@.len(),
            rest == line@.skip(start as int),
            run == rest.take(end - start),
            digit_prefix_len(rest) == end - start,
            forall|k: int| 0 <= k < run.len() ==> is_digit(#[trigger] run[k]),
            run.len() == end - start,
            0 <= v,
            v == digits_val(run.take(i - start)),
        decreases end - i,
    {
        proof {
            assert(run[i - start] == line@[i as int]);
            assert(is_digit(line@[i as int]));
            assert(run.take(i - start + 1).drop_last() =~= run.take(i - start));
            assert(run.take(i - start + 1).last() == run[i - start]);
        }
        let d = line[i] - 48;
        if v > (i32::MAX - (d as i32)) / 10 {
            proof {
                assert(digits_val(run.take(i - start + 1)) > i32::MAX);
                lemma_digits_val_prefix(run, i - start + 1);
            }
            return None;
        }
        v = v * 10 + (d as i32);
        i += 1;
    }
    proof {
        assert(run.take(run.len() as int) =~= run);
    }
    Some((v, end))
}

/// Parses the floating-geometry line `"<x>,<y> <width>x<height>"`, decimal
/// integers with an optional trailing newline. Returns the four numbers
/// exactly when the line matches the grammar and each number fits; any
/// other input is rejected.
pub fn parse_geometry(line: &Vec<u8>) -> (r: Option<(i32, i32, i32, i32)>)
    ensures
        r == spec_parse_geometry(line@),
{
    proof {
        assert(line@.skip(0) =~= line@);
    }
    let (x, p1) = match scan_number(line, 0) {
        Some(v) => v,
        None => {
            return None;
        },
    };
    if p1 >= line.len() || line[p1] != COMMA {
        return None;
    }
    let (y, p2) = match scan_number(line, p1 + 1) {
        Some(v) => v,
        None => {
            return None;
        },
    };
    if p2 >= line.len() || line[p2] != SPACE {
        return None;
    }
    let (w, p3) = match scan_number(line, p2 + 1) {
        Some(v) => v,
        None => {
            return None;
        },
    };
    if p3 >= line.len() || line[p3] != LOWER_X {
        return None;
    }
    let (h, p4) = match scan_number(line, p3 + 1) {
        Some(v) => v,
        None => {
            return None;
        },
    };
    if p4 == line.len() {
        Some((x, y, w, h))
    } else if p4 + 1 == line.len() && line[p4] == NEWLINE {
        Some((x, y, w, h))
    } else {
        None
    }
}

} // verus!
