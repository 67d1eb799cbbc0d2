//! The run description read by the simulator: line one is the floor count,
//! line two the floor height in metres, and each further line a requested
//! floor. Lines end with `\n` or `\r\n`; a final line ending is optional.
use vstd::prelude::*;

use crate::physics::ElevatorSpecification;

verus! {

/// Mass of the carriage, in kg, for runs read from a description.
pub const CARRIAGE_WEIGHT: i64 = 1_200_000;

/// `line` without the carriage return that ends it, if any.
pub open spec fn without_cr(line: Seq<u8>) -> Seq<u8> {
    if line.len() > 0 && line.last() == 13 {
        line.drop_last()
    } else {
        line
    }
}

/// The lines of `s` from index `i` on, `cur` being the part of the current
/// line before `i`. A newline ends a line, and a carriage return just before
/// it is dropped; bytes after the last newline form a last line when there
/// are any.
pub open spec fn lines_from(s: Seq<u8>, i: int, cur: Seq<u8>) -> Seq<Seq<u8>>
    decreases s.len() - i,
{
    if i >= s.len() {
        if cur.len() > 0 {
            seq![cur]
        } else {
            seq![]
        }
    } else if s[i] == 10 {
        seq![without_cr(cur)] + lines_from(s, i + 1, seq![])
    } else {
        lines_from(s, i + 1, cur.push(s[i]))
    }
}

/// The lines of `s`.
pub open spec fn lines(s: Seq<u8>) -> Seq<Seq<u8>> {
    lines_from(s, 0, seq![])
}

pub open spec fn is_digit(b: u8) -> bool {
    48 <= b <= 57
}

pub open spec fn all_digits(d: Seq<u8>) -> bool {
    forall|i: int| 0 <= i < d.len() ==> is_digit(#[trigger] d[i])
}

/// Value of a string of decimal digits.
pub open spec fn digits_value(d: Seq<u8>) -> int
    decreases d.len(),
{
    if d.len() == 0 {
        0
    } else {
        digits_value(d.drop_last()) * 10 + (d.last() - 48)
    }
}

/// A decimal integer that fits in `u64`: one or more digits.
pub open spec fn parses_u64(d: Seq<u8>) -> bool {
    d.len() > 0 && all_digits(d) && digits_value(d) <= u64::MAX
}

/// Index of the first `.` in `d`, or its length.
pub open spec fn point_index(d: Seq<u8>, i: int) -> int
    decreases d.len() - i,
{
    if i >= d.len() {
        d.len() as int
    } else if d[i] == 46 {
        i
    } else {
        point_index(d, i + 1)
    }
}

/// The first six fraction digits, padded with zeros.
pub open spec fn padded_fraction(f: Seq<u8>) -> Seq<u8> {
    Seq::new(6, |k: int| if k < f.len() { f[k] } else { 48u8 })
}

/// The fraction digits scaled to millionths (finer digits are dropped).
pub open spec fn fraction_micros(f: Seq<u8>) -> int {
    digits_value(padded_fraction(f))
}

/// A decimal number `I`, `I.F` or `.F` (digit strings `I`, `F`, not both
/// empty), in millionths; `None` for anything else.
pub open spec fn decimal_micros(d: Seq<u8>) -> Option<int> {
    let p = point_index(d, 0);
    let whole = d.take(p);
    let fraction = if p < d.len() {
        d.skip(p + 1)
    } else {
        seq![]
    };
    if all_digits(whole) && all_digits(fraction) && whole.len() + fraction.len() > 0 {
        Some(digits_value(whole) * 1_000_000 + fraction_micros(fraction))
    } else {
        None
    }
}

/// The description could not be used.
#[derive(Clone, Copy, Debug, PartialEq, Eq, Structural)]
pub enum InputError {
    /// Fewer than two lines.
    MissingLines,
    /// Line `line` (counted from 0) is not a number of the expected form, or
    /// names no floor of the building.
    Malformed { line: usize },
    /// The floor count is zero, the floor height is not positive, or the top
    /// floor lies beyond the position range.
    BadBuilding,
}

/// `line` is a request: a decimal integer naming a floor of the building.
pub open spec fn valid_request(esp: ElevatorSpecification, line: Seq<u8>) -> bool {
    parses_u64(line) && esp.has_floor(digits_value(line) as u64)
}

/// The building a description gives, from its two first lines.
pub open spec fn building_of(ls: Seq<Seq<u8>>) -> ElevatorSpecification {
    ElevatorSpecification {
        floor_count: digits_value(ls[0]) as u64,
        floor_height: decimal_micros(ls[1])->Some_0 as i64,
        carriage_weight: CARRIAGE_WEIGHT,
    }
}

/// The outcome of reading a description: the first problem found, line by
/// line, or the building and its requests.
pub open spec fn description(s: Seq<u8>) -> Result<(ElevatorSpecification, Seq<u64>), InputError> {
    let ls = lines(s);
    if ls.len() < 2 {
        Err(InputError::MissingLines)
    } else if !parses_u64(ls[0]) {
        Err(InputError::Malformed { line: 0 })
    } else if decimal_micros(ls[1]) is None || decimal_micros(ls[1])->Some_0 > i64::MAX {
        Err(InputError::Malformed { line: 1 })
    } else if !building_of(ls).wf() {
        Err(InputError::BadBuilding)
    } else if exists|k: int| 2 <= k < ls.len() && !valid_request(building_of(ls), #[trigger] ls[k]) {
        let k = choose|k: int|
            2 <= k < ls.len() && !valid_request(building_of(ls), #[trigger] ls[k]) && forall|j: int|
                2 <= j < k ==> valid_request(building_of(ls), #[trigger] ls[j]);
        Err(InputError::Malformed { line: k as usize })
    } else {
        Ok((building_of(ls), ls.skip(2).map_values(|l: Seq<u8>| digits_value(l) as u64)))
    }
}

/// A digit string's prefixes never exceed its value.
proof fn lemma_digits_prefix(d: Seq<u8>, j: int)
    requires
        0 <= j <= d.len(),
        all_digits(d),
    ensures
        0 <= digits_value(d.take(j)) <= digits_value(d),
    decreases d.len(),
{
    if d.len() > 0 {
        let init = d.drop_last();
        assert(all_digits(init)) by {
            assert forall|i: int| 0 <= i < init.len() implies is_digit(#[trigger] init[i]) by {
                assert(init[i] == d[i]);
            }
        }
        if j < d.len() {
            assert(d.take(j) =~= init.take(j));
            lemma_digits_prefix(init, j);
        } else {
            assert(d.take(j) =~= d);
        }
        lemma_digits_prefix(init, init.len() as int);
        assert(init.take(init.len() as int) =~= init);
        assert(is_digit(d.last()));
    } else {
        assert(d.take(j) =~= d);
    }
}

/// Start and end of each line of `s`.
fn line_bounds(s: &[u8]) -> (r: Vec<(usize, usize)>)
    ensures
        r@.len() == lines(s@).len(),
        forall|k: int|
            #![trigger r@[k]]
            0 <= k < r@.len() ==> {
                &&& r@[k].0 <= r@[k].1
                &&& r@[k].1 as int <= s@.len() as int
                &&& lines(s@)[k] == s@.subrange(r@[k].0 as int, r@[k].1 as int)
            },
{
    let mut bounds: Vec<(usize, usize)> = Vec::new();
    let ghost mut done: Seq<Seq<u8>> = seq![];
    let mut start: usize = 0;
    let mut i: usize = 0;
    proof {
        assert(s@.subrange(0, 0) =~= seq![]);
        assert(done + lines_from(s@, 0, seq![]) =~= lines_from(s@, 0, seq![]));
    }
    while i < s.len()
        invariant
            start <= i <= s@.len(),
            done.len() == bounds@.len(),
            forall|k: int| 0 <= k < bounds@.len() ==> (#[trigger] bounds@[k]).0 <= bounds@[k].1 <= i,
            forall|k: int|
                0 <= k < bounds@.len() ==> #[trigger] done[k] == s@.subrange(
                    bounds@[k].0 as int,
                    bounds@[k].1 as int,
                ),
            lines(s@) == done + lines_from(s@, i as int, s@.subrange(start as int, i as int)),
        decreases s@.len() - i,
    {
        let ghost cur = s@.subrange(start as int, i as int);
        if s[i] == 10 {
            let ghost old_bounds = bounds@;
            let ghost old_done = done;
            let end = if i > start && s[i - 1] == 13 {
                i - 1
            } else {
                i
            };
            bounds.push((start, end));
            proof {
                let line = without_cr(cur);
                assert(line =~= s@.subrange(start as int, end as int));
                assert(lines_from(s@, i as int, cur) == seq![line] + lines_from(s@, i + 1, seq![]));
                assert(s@.subrange(i + 1, i + 1) =~= seq![]);
                assert(done + (seq![line] + lines_from(s@, i + 1, seq![])) =~= done.push(line) + lines_from(
                    s@,
                    i + 1,
                    seq![],
                ));
                done = done.push(line);
                assert forall|k: int| 0 <= k < bounds@.len() implies {
                    &&& bounds@[k].0 <= bounds@[k].1
                    &&& bounds@[k].1 <= s@.len()
                    &&& done[k] == s@.subrange(bounds@[k].0 as int, bounds@[k].1 as int)
                } by {
                    if k == bounds@.len() - 1 {
                        assert(bounds@[k] == (start, end));
                    } else {
                        assert(bounds@[k] == old_bounds[k]);
                        assert(done[k] == old_done[k]);
                    }
                }
            }
            start = i + 1;
        } else {
            proof {
                assert(lines_from(s@, i as int, cur) == lines_from(s@, i + 1, cur.push(s@[i as int])));
                assert(cur.push(s@[i as int]) =~= s@.subrange(start as int, i + 1));
            }
        }
        i = i + 1;
    }
    proof {
        let cur = s@.subrange(start as int, i as int);
        if cur.len() > 0 {
            assert(done + seq![cur] =~= done.push(cur));
        } else {
            assert(done + seq![] =~= done);
        }
    }
    if start < s.len() {
        let ghost old_bounds = bounds@;
        let ghost old_done = done;
        bounds.push((start, s.len()));
        proof {
            done = done.push(s@.subrange(start as int, s@.len() as int));
            assert forall|k: int| 0 <= k < bounds@.len() implies {
                &&& bounds@[k].0 <= bounds@[k].1
                    &&& bounds@[k].1 <= s@.len()
                &&& done[k] == s@.subrange(bounds@[k].0 as int, bounds@[k].1 as int)
            } by {
                if k == bounds@.len() - 1 {
                    assert(bounds@[k] == (start, s@.len() as usize));
                } else {
                    assert(bounds@[k] == old_bounds[k]);
                    assert(done[k] == old_done[k]);
                }
            }
        }
    }
    proof {
        assert(lines(s@) =~= done);
    }
    bounds
}

/// Value of the digit string `s[start..end]`, if it is one (the empty
/// string counts, as zero) and fits in `u64`.
fn parse_digits(s: &[u8], start: usize, end: usize) -> (r: Option<u64>)
    requires
        start <= end <= s@.len(),
    ensures
        r is Some <==> all_digits(s@.subrange(start as int, end as int)) && digits_value(
            s@.subrange(start as int, end as int),
        ) <= u64::MAX,
        r matches Some(v) ==> v == digits_value(s@.subrange(start as int, end as int)),
{
    let ghost d = s@.subrange(start as int, end as int);
    let mut acc: u64 = 0;
    let mut i: usize = start;
    while i < end
        invariant
            start <= i <= end <= s@.len(),
            d == s@.subrange(start as int, end as int),
            all_digits(d.take(i - start)),
            acc == digits_value(d.take(i - start)),
        decreases end - i,
    {
        let b = s[i];
        let ghost k = i - start;
        proof {
            assert(d[k] == b);
        }
        if b < 48 || b > 57 {
            return None;
        }
        assert(d.take(k + 1).drop_last() =~= d.take(k));
        assert(all_digits(d.take(k + 1))) by {
            assert forall|j: int| 0 <= j < k + 1 implies is_digit(#[trigger] d.take(k + 1)[j]) by {
                if j < k {
                    assert(d.take(k + 1)[j] == d.take(k)[j]);
                }
            }
        }
        let digit = (b - 48) as u64;
        if acc > (u64::MAX - digit) / 10 {
            proof {
                assert(digits_value(d.take(k + 1)) > u64::MAX);
                if all_digits(d) {
                    lemma_digits_prefix(d, k + 1);
                }
            }
            return None;
        }
        acc = acc * 10 + digit;
        i = i + 1;
    }
    assert(d.take(end - start) =~= d);
    Some(acc)
}

/// The first `.` from `i` on is at `p`.
proof fn lemma_point_index(d: Seq<u8>, i: int, p: int)
    requires
        0 <= i <= p <= d.len(),
        forall|j: int| i <= j < p ==> d[j] != 46,
        p == d.len() || d[p] == 46,
    ensures
        point_index(d, i) == p,
    decreases p - i,
{
    if i < p {
        lemma_point_index(d, i + 1, p);
    }
}

/// `fraction_micros` of `s[start..end]`, when those bytes are all digits.
fn parse_fraction(s: &[u8], start: usize, end: usize) -> (r: Option<u64>)
    requires
        start <= end <= s@.len(),
    ensures
        r is Some <==> all_digits(s@.subrange(start as int, end as int)),
        r matches Some(v) ==> v == fraction_micros(s@.subrange(start as int, end as int)),
        r matches Some(v) ==> v < 1_000_000,
{
    let ghost f = s@.subrange(start as int, end as int);
    let mut i: usize = start;
    while i < end
        invariant
            start <= i <= end <= s@.len(),
            f == s@.subrange(start as int, end as int),
            forall|j: int| 0 <= j < i - start ==> is_digit(#[trigger] f[j]),
        decreases end - i,
    {
        if s[i] < 48 || s[i] > 57 {
            assert(!is_digit(f[i - start]));
            return None;
        }
        i = i + 1;
    }
    let ghost padded = padded_fraction(f);
    let mut acc: u64 = 0;
    let mut k: usize = 0;
    while k < 6
        invariant
            start <= end <= s@.len(),
            f == s@.subrange(start as int, end as int),
            all_digits(f),
            padded == padded_fraction(f),
            0 <= k <= 6,
            acc == digits_value(padded.take(k as int)),
            acc < 1_000_000,
            k == 0 ==> acc == 0,
            acc < pow10(k as nat),
        decreases 6 - k,
    {
        let digit: u64 = if k < end - start {
            assert(f[k as int] == s@[start + k]);
            assert(is_digit(f[k as int]));
            (s[start + k] - 48) as u64
        } else {
            0
        };
        proof {
            assert(padded.take(k + 1).drop_last() =~= padded.take(k as int));
            assert(padded[k as int] - 48 == digit);
            assert(pow10((k + 1) as nat) == 10 * pow10(k as nat));
            lemma_pow10_six();
            lemma_pow10_monotone((k + 1) as nat, 6);
        }
        acc = acc * 10 + digit;
        k = k + 1;
    }
    assert(padded.take(6) =~= padded);
    Some(acc)
}

/// Ten to the power `k`.
pub open spec fn pow10(k: nat) -> nat
    decreases k,
{
    if k == 0 {
        1
    } else {
        10 * pow10((k - 1) as nat)
    }
}

proof fn lemma_pow10_six()
    ensures
        pow10(6) == 1_000_000,
{
    reveal_with_fuel(pow10, 7);
}

proof fn lemma_pow10_monotone(j: nat, k: nat)
    requires
        j <= k,
    ensures
        pow10(j) <= pow10(k),
    decreases k - j,
{
    if j < k {
        lemma_pow10_monotone(j, (k - 1) as nat);
    }
}

/// `s[start..end]` in millionths, where it is a decimal number whose value
/// fits in `i64`.
fn parse_decimal_micros(s: &[u8], start: usize, end: usize) -> (r: Option<i64>)
    requires
        start <= end <= s@.len(),
    ensures
        r is Some <==> (decimal_micros(s@.subrange(start as int, end as int)) matches Some(v) && v
            <= i64::MAX),
        r matches Some(v) ==> v == decimal_micros(s@.subrange(start as int, end as int))->Some_0,
{
    let ghost d = s@.subrange(start as int, end as int);
    let mut p: usize = start;
    while p < end && s[p] != 46
        invariant
            start <= p <= end <= s@.len(),
            d == s@.subrange(start as int, end as int),
            forall|j: int| 0 <= j < p - start ==> d[j] != 46,
        decreases end - p,
    {
        p = p + 1;
    }
    proof {
        lemma_point_index(d, 0, p - start);
        assert(d.take(p - start) =~= s@.subrange(start as int, p as int));
        if p < end {
            assert(d.skip(p - start + 1) =~= s@.subrange(p + 1, end as int));
        }
    }
    let whole = parse_digits(s, start, p);
    let fraction = if p < end {
        parse_fraction(s, p + 1, end)
    } else {
        proof {
            assert(s@.subrange(end as int, end as int) =~= seq![]);
        }
        parse_fraction(s, end, end)
    };
    if p == end && p == start {
        return None;
    }
    if p < end && p == start && p + 1 == end {
        return None;
    }
    match (whole, fraction) {
        (Some(w), Some(f)) => {
            let micros = (w as u128) * 1_000_000 + f as u128;
            if micros > i64::MAX as u128 {
                None
            } else {
                Some(micros as i64)
            }
        },
        (None, Some(f)) => {
            proof {
                if all_digits(d.take(p - start)) {
                    assert(digits_value(d.take(p - start)) > u64::MAX);
                }
            }
            None
        },
        _ => None,
    }
}

/// Reads a run description: the building (with the standard carriage) and
/// the requested floors, or the first problem found.
pub fn parse_description(s: &[u8]) -> (r: Result<(ElevatorSpecification, Vec<u64>), InputError>)
    ensures
        r matches Ok(p) ==> description(s@) == Ok::<(ElevatorSpecification, Seq<u64>), InputError>((p.0, p.1@)),
        r matches Err(e) ==> description(s@) == Err::<(ElevatorSpecification, Seq<u64>), InputError>(e),
{
    let ghost ls = lines(s@);
    let bounds = line_bounds(s);
    if bounds.len() < 2 {
        return Err(InputError::MissingLines);
    }
    let (c0, c1) = bounds[0];
    let floor_count = match parse_digits(s, c0, c1) {
        Some(v) => v,
        None => {
            return Err(InputError::Malformed { line: 0 });
        },
    };
    if c0 == c1 {
        return Err(InputError::Malformed { line: 0 });
    }
    let (h0, h1) = bounds[1];
    let floor_height = match parse_decimal_micros(s, h0, h1) {
        Some(v) => v,
        None => {
            return Err(InputError::Malformed { line: 1 });
        },
    };
    let esp = ElevatorSpecification { floor_count, floor_height, carriage_weight: CARRIAGE_WEIGHT };
    assert(esp == building_of(ls));
    if floor_count == 0 || floor_height <= 0 {
        return Err(InputError::BadBuilding);
    }
    proof {
        assert(floor_count * floor_height <= 0xffff_ffff_ffff_ffff * 0x7fff_ffff_ffff_ffff) by (nonlinear_arith)
            requires
                0 < floor_count <= 0xffff_ffff_ffff_ffff,
                0 < floor_height <= 0x7fff_ffff_ffff_ffff,
        ;
    }
    if (floor_count as u128) * (floor_height as u128) > i64::MAX as u128 {
        return Err(InputError::BadBuilding);
    }
    let mut requests: Vec<u64> = Vec::new();
    let mut k: usize = 2;
    while k < bounds.len()
        invariant
            ls == lines(s@),
            bounds@.len() == ls.len(),
            forall|j: int|
                #![trigger bounds@[j]]
                0 <= j < bounds@.len() ==> {
                    &&& bounds@[j].0 <= bounds@[j].1
                    &&& bounds@[j].1 as int <= s@.len() as int
                    &&& ls[j] == s@.subrange(bounds@[j].0 as int, bounds@[j].1 as int)
                },
            2 <= k <= bounds@.len(),
            parses_u64(ls[0]),
            decimal_micros(ls[1]) matches Some(v) && v <= i64::MAX,
            esp == building_of(ls),
            esp.wf(),
            requests@.len() == k - 2,
            forall|j: int| 2 <= j < k ==> valid_request(esp, #[trigger] ls[j]),
            forall|j: int| 0 <= j < k - 2 ==> #[trigger] requests@[j] == digits_value(ls[j + 2]) as u64,
        decreases bounds@.len() - k,
    {
        let (a, b) = bounds[k];
        let value = parse_digits(s, a, b);
        let ok = match value {
            Some(v) => a < b && 1 <= v && v <= esp.floor_count,
            None => false,
        };
        assert(ls[k as int] == s@.subrange(a as int, b as int));
        if !ok {
            proof {
                let bad = k as int;
                let line = ls[bad];
                match value {
                    Some(v) => {
                        assert(v == digits_value(line));
                        assert(line.len() == b - a);
                        assert(!(a < b && 1 <= v && v <= esp.floor_count));
                        assert(!(line.len() > 0 && esp.has_floor(v)));
                    },
                    None => {
                        assert(!parses_u64(line));
                    },
                }
                assert(!valid_request(esp, line));
                assert(exists|c: int|
                    2 <= c < ls.len() && !valid_request(building_of(ls), #[trigger] ls[c]) && forall|j: int|
                        2 <= j < c ==> valid_request(building_of(ls), #[trigger] ls[j])) by {
                    assert(2 <= bad < ls.len() && !valid_request(building_of(ls), ls[bad]));
                }
                assert(exists|c: int| 2 <= c < ls.len() && !valid_request(building_of(ls), #[trigger] ls[c]));
                let c = choose|c: int|
                    2 <= c < ls.len() && !valid_request(building_of(ls), #[trigger] ls[c]) && forall|j: int|
                        2 <= j < c ==> valid_request(building_of(ls), #[trigger] ls[j]);
                if c < bad {
                    assert(valid_request(esp, ls[c]));
                }
                if c > bad {
                    assert(valid_request(esp, ls[bad]));
                }
                assert(c == bad);
            }
            return Err(InputError::Malformed { line: k });
        }
        let v = value.unwrap();
        proof {
            let line = ls[k as int];
            assert(v == digits_value(line));
            assert(line.len() == b - a);
            assert(a < b && 1 <= v && v <= esp.floor_count);
            assert(parses_u64(line));
            assert(valid_request(esp, line));
        }
        requests.push(v);
        k = k + 1;
    }
    proof {
        assert(requests@ =~= ls.skip(2).map_values(|l: Seq<u8>| digits_value(l) as u64));
    }
    Ok((esp, requests))
}

} // verus!
