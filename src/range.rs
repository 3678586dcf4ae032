//! Byte ranges: what part of a file a `Range` header asks for.

use vstd::prelude::*;
use crate::text::{chars_of, digit_value};

verus! {

/// What to send of a file: the bytes `start..=end` of `total_size`, or, when
/// `satisfiable` is false, nothing but a "range not satisfiable" answer.
///
/// A whole-file plan for an empty file has `start == end == 0` and sends no
/// bytes. An unsatisfiable plan has `start == end == 0`.
#[derive(Clone, Copy, Debug, PartialEq, Eq, Structural)]
pub struct RangePlan {
    pub start: u64,
    pub end: u64,
    pub total_size: u64,
    pub satisfiable: bool,
}

/// The characters that open a single byte range.
pub open spec fn bytes_prefix() -> Seq<char> {
    seq!['b', 'y', 't', 'e', 's', '=']
}

pub open spec fn all_digits(s: Seq<char>) -> bool {
    forall|i: int| 0 <= i < s.len() ==> (#[trigger] digit_value(s[i])) is Some
}

/// The value of the decimal digits `s`, most significant first.
pub open spec fn digits_value(s: Seq<char>) -> nat
    decreases s.len(),
{
    if s.len() == 0 {
        0
    } else {
        10 * digits_value(s.drop_last()) + match digit_value(s.last()) {
            Some(d) => d,
            None => 0,
        }
    }
}

/// `rest` is `A-B`, split at index `i`: `A` one digit or more, `B` zero or more.
pub open spec fn dash_splits(rest: Seq<char>, i: int) -> bool {
    &&& 0 < i < rest.len()
    &&& rest[i] == '-'
    &&& all_digits(rest.take(i))
    &&& all_digits(rest.skip(i + 1))
}

/// The bounds of a single range `A-B` or `A-`; `None` where `s` is not one.
pub open spec fn single_bounds(s: Seq<char>) -> Option<(nat, Option<nat>)> {
    if exists|i: int| dash_splits(s, i) {
        let i = choose|i: int| dash_splits(s, i);
        Some(
            (
                digits_value(s.take(i)),
                if i + 1 == s.len() {
                    None
                } else {
                    Some(digits_value(s.skip(i + 1)))
                },
            ),
        )
    } else {
        None
    }
}

/// The index of the first `c` in `s`, or its length where there is none.
pub open spec fn first_index_of(s: Seq<char>, c: char) -> nat
    decreases s.len(),
{
    if s.len() == 0 {
        0
    } else if s[0] == c {
        0
    } else {
        1 + first_index_of(s.drop_first(), c)
    }
}

/// `s` is a comma-separated list of single ranges, one or more.
pub open spec fn range_list(s: Seq<char>) -> bool
    decreases s.len(),
{
    let c = first_index_of(s, ',');
    if c >= s.len() {
        single_bounds(s) is Some
    } else {
        single_bounds(s.take(c as int)) is Some && range_list(s.skip(c as int + 1))
    }
}

/// Why a `Range` header was refused.
#[derive(Clone, Copy, Debug, PartialEq, Eq, Structural)]
pub enum RangeError {
    /// The header is not `bytes=` followed by one range or a list of ranges.
    Malformed,
}

pub open spec fn unsatisfiable_plan(file_size: u64) -> RangePlan {
    RangePlan { start: 0, end: 0, total_size: file_size, satisfiable: false }
}

pub open spec fn whole_file_plan(file_size: u64) -> RangePlan {
    RangePlan {
        start: 0,
        end: if file_size == 0 { 0 } else { (file_size - 1) as u64 },
        total_size: file_size,
        satisfiable: true,
    }
}

/// The plan for `bytes=start-`: from `start` to the last byte.
pub open spec fn open_range_plan(file_size: u64, start: u64) -> RangePlan {
    if start >= file_size {
        unsatisfiable_plan(file_size)
    } else {
        RangePlan { start, end: (file_size - 1) as u64, total_size: file_size, satisfiable: true }
    }
}

/// The answer to a file of `file_size` bytes and an optional `Range`
/// header: a plan, or `Malformed` for a header that is not `bytes=`
/// followed by one range `A-B` or `A-`, or a comma-separated list of them.
/// A list of two or more ranges is unsatisfiable. A single range is
/// unsatisfiable when `A` is at or past the end of the file or `A > B`; an
/// end too large for `u64` is taken as the last byte.
pub open spec fn plan_for(file_size: u64, header: Option<Seq<char>>) -> Result<
    RangePlan,
    RangeError,
> {
    match header {
        None => Ok(whole_file_plan(file_size)),
        Some(h) => if h.len() < 6 || h.take(6) != bytes_prefix() {
            Err(RangeError::Malformed)
        } else {
            match single_bounds(h.skip(6)) {
                None => if range_list(h.skip(6)) {
                    Ok(unsatisfiable_plan(file_size))
                } else {
                    Err(RangeError::Malformed)
                },
                Some((a, b)) => Ok(
                    if a >= file_size {
                        unsatisfiable_plan(file_size)
                    } else {
                        match b {
                            None => open_range_plan(file_size, a as u64),
                            Some(b) => if a > b {
                                unsatisfiable_plan(file_size)
                            } else if b > u64::MAX {
                                open_range_plan(file_size, a as u64)
                            } else {
                                RangePlan {
                                    start: a as u64,
                                    end: b as u64,
                                    total_size: file_size,
                                    satisfiable: true,
                                }
                            },
                        }
                    },
                ),
            }
        },
    }
}

pub open spec fn view_header(header: Option<&str>) -> Option<Seq<char>> {
    match header {
        Some(h) => Some(h@),
        None => None,
    }
}

proof fn lemma_digits_value_prefix(s: Seq<char>, k: int)
    requires
        0 <= k <= s.len(),
    ensures
        digits_value(s.take(k)) <= digits_value(s),
    decreases s.len(),
{
    if k < s.len() {
        assert(s.drop_last().take(k) == s.take(k));
        lemma_digits_value_prefix(s.drop_last(), k);
    } else {
        assert(s.take(k) == s);
    }
}

/// The value of the digits `cs[from..to]`, or `None` where it does not fit in `u64`.
fn parse_digits(cs: &Vec<char>, from: usize, to: usize) -> (r: Option<u64>)
    requires
        from <= to <= cs@.len(),
        all_digits(cs@.subrange(from as int, to as int)),
    ensures
        r == (if digits_value(cs@.subrange(from as int, to as int)) <= u64::MAX {
            Some(digits_value(cs@.subrange(from as int, to as int)) as u64)
        } else {
            None::<u64>
        }),
{
    let ghost s = cs@.subrange(from as int, to as int);
    let mut v: u64 = 0;
    let mut j: usize = from;
    while j < to
        invariant
            from <= j <= to <= cs@.len(),
            s == cs@.subrange(from as int, to as int),
            all_digits(s),
            v as nat == digits_value(cs@.subrange(from as int, j as int)),
        decreases to - j,
    {
        let ghost p = cs@.subrange(from as int, j as int + 1);
        assert(p.drop_last() == cs@.subrange(from as int, j as int));
        assert(p.last() == s[j - from]);
        let c = cs[j];
        let d = (c as u32 - '0' as u32) as u64;
        assert(digit_value(s[j - from]) is Some);
        assert(digits_value(p) == 10 * v + d);
        if v > (u64::MAX - d) / 10 {
            proof {
                assert(s.take(j - from + 1) == p);
                lemma_digits_value_prefix(s, j - from + 1);
                assert(10 * v + d > u64::MAX) by (nonlinear_arith)
                    requires
                        v > (u64::MAX - d) / 10,
                        d < 10,
                ;
            }
            return None;
        }
        assert(10 * v + d <= u64::MAX) by (nonlinear_arith)
            requires
                v <= (u64::MAX - d) / 10,
                d < 10,
        ;
        v = v * 10 + d;
        j = j + 1;
    }
    Some(v)
}

/// The plan for the range from `start` to the end of a file of
/// `file_size` bytes, as for a header `bytes=start-`.
pub fn resolve_from(file_size: u64, start: u64) -> (r: RangePlan)
    ensures
        r == open_range_plan(file_size, start),
{
    if start >= file_size {
        RangePlan { start: 0, end: 0, total_size: file_size, satisfiable: false }
    } else {
        RangePlan { start, end: file_size - 1, total_size: file_size, satisfiable: true }
    }
}

/// Where `cs[from..to]` is a single range, the index of its dash.
fn find_single(cs: &Vec<char>, from: usize, to: usize) -> (r: Option<usize>)
    requires
        from <= to <= cs@.len(),
    ensures
        match r {
            Some(d) => {
                &&& from < d < to
                &&& dash_splits(cs@.subrange(from as int, to as int), d - from)
                &&& forall|j: int| dash_splits(cs@.subrange(from as int, to as int), j) ==> j == d - from
            },
            None => forall|j: int| !dash_splits(cs@.subrange(from as int, to as int), j),
        },
{
    let ghost rest = cs@.subrange(from as int, to as int);
    // The first dash.
    let mut i: usize = from;
    while i < to && cs[i] != '-'
        invariant
            from <= i <= to <= cs@.len(),
            forall|k: int| from <= k < i ==> cs@[k] != '-',
        decreases to - i,
    {
        i = i + 1;
    }
    let ghost di = i - from;
    let mut ok = i > from && i < to;
    let mut k: usize = from;
    while ok && k < i
        invariant
            from <= k <= i <= to <= cs@.len(),
            ok <==> (i > from && i < to && forall|m: int|
                from <= m < k ==> (#[trigger] digit_value(cs@[m])) is Some),
        decreases i - k,
    {
        if !(cs[k] >= '0' && cs[k] <= '9') {
            assert(digit_value(cs@[k as int]) is None);
            ok = false;
        }
        k = k + 1;
    }
    if ok {
        let mut k: usize = i + 1;
        while ok && k < to
            invariant
                from < i < to <= cs@.len(),
                i + 1 <= k <= to,
                forall|m: int| from <= m < i ==> (#[trigger] digit_value(cs@[m])) is Some,
                ok <==> forall|m: int| i + 1 <= m < k ==> (#[trigger] digit_value(cs@[m])) is Some,
            decreases to - k,
        {
            if !(cs[k] >= '0' && cs[k] <= '9') {
                assert(digit_value(cs@[k as int]) is None);
                ok = false;
            }
            k = k + 1;
        }
    }
    if !ok {
        proof {
            assert forall|j: int| !dash_splits(rest, j) by {
                if dash_splits(rest, j) {
                    if j < di {
                        assert(rest[j] == cs@[j + from]);
                    } else if j > di {
                        assert(rest.take(j)[di] == cs@[i as int]);
                        assert(digit_value(rest.take(j)[di]) is Some);
                    } else {
                        assert(i > from && i < to);
                        assert forall|m: int| from <= m < i implies #[trigger] digit_value(cs@[m]) is Some by {
                            assert(rest.take(j)[m - from] == cs@[m]);
                        }
                        assert forall|m: int| i + 1 <= m < to implies #[trigger] digit_value(cs@[m]) is Some by {
                            assert(rest.skip(j + 1)[m - i - 1] == cs@[m]);
                        }
                        assert(false);
                    }
                }
            }
        }
        return None;
    }
    proof {
        assert forall|m: int| 0 <= m < di implies #[trigger] digit_value(rest.take(di)[m]) is Some by {
            assert(rest.take(di)[m] == cs@[m + from]);
            assert(digit_value(cs@[m + from]) is Some);
        }
        assert forall|m: int| 0 <= m < rest.skip(di + 1).len() implies #[trigger] digit_value(rest.skip(di + 1)[m]) is Some by {
            assert(rest.skip(di + 1)[m] == cs@[m + i + 1]);
            assert(digit_value(cs@[m + i + 1]) is Some);
        }
        assert(rest[di] == cs@[i as int]);
        assert(dash_splits(rest, di));
        assert forall|j: int| dash_splits(rest, j) implies j == di by {
            if j < di {
                assert(rest[j] == cs@[j + from]);
            } else if j > di {
                assert(rest.take(j)[di] == cs@[i as int]);
                assert(digit_value(rest.take(j)[di]) is Some);
            }
        }
    }
    Some(i)
}

proof fn lemma_first_index(s: Seq<char>, c: char, j: int)
    requires
        0 <= j <= s.len(),
        forall|k: int| 0 <= k < j ==> s[k] != c,
        j == s.len() || s[j] == c,
    ensures
        first_index_of(s, c) == j,
    decreases s.len(),
{
    if s.len() > 0 && j > 0 {
        assert forall|k: int| 0 <= k < j - 1 implies s.drop_first()[k] != c by {
            assert(s.drop_first()[k] == s[k + 1]);
        }
        if j < s.len() {
            assert(s.drop_first()[j - 1] == s[j]);
        }
        lemma_first_index(s.drop_first(), c, j - 1);
    }
}

/// Whether `cs[from..]` is a comma-separated list of single ranges.
fn is_range_list(cs: &Vec<char>, from: usize) -> (r: bool)
    requires
        from <= cs@.len(),
    ensures
        r == range_list(cs@.skip(from as int)),
{
    let mut p: usize = from;
    while p <= cs.len()
        invariant
            from <= p <= cs@.len(),
            range_list(cs@.skip(from as int)) == range_list(cs@.skip(p as int)),
        decreases cs@.len() - p,
    {
        let ghost s = cs@.skip(p as int);
        let mut q: usize = p;
        while q < cs.len() && cs[q] != ','
            invariant
                p <= q <= cs@.len(),
                forall|k: int| p <= k < q ==> cs@[k] != ',',
            decreases cs@.len() - q,
        {
            q = q + 1;
        }
        proof {
            assert forall|k: int| 0 <= k < q - p implies s[k] != ',' by {
                assert(s[k] == cs@[k + p]);
            }
            if q < cs@.len() {
                assert(s[q - p] == cs@[q as int]);
            }
            lemma_first_index(s, ',', q - p);
            assert(s.take(q - p) == cs@.subrange(p as int, q as int));
            if q == cs@.len() {
                assert(s == cs@.subrange(p as int, q as int));
            } else {
                assert(s.skip(q - p + 1) == cs@.skip(q + 1));
            }
        }
        let single = find_single(cs, p, q);
        if single.is_none() {
            return false;
        }
        if q == cs.len() {
            return true;
        }
        p = q + 1;
    }
    false
}

/// Resolves an optional `Range` header against a file of `file_size`
/// bytes (see `plan_for`).
pub fn resolve(file_size: u64, range_header: Option<&str>) -> (r: Result<RangePlan, RangeError>)
    ensures
        r == plan_for(file_size, view_header(range_header)),
{
    let h = match range_header {
        None => {
            return Ok(
                RangePlan {
                    start: 0,
                    end: if file_size == 0 { 0 } else { file_size - 1 },
                    total_size: file_size,
                    satisfiable: true,
                },
            );
        },
        Some(h) => h,
    };
    let cs = chars_of(h);
    let unsatisfiable = RangePlan { start: 0, end: 0, total_size: file_size, satisfiable: false };
    if cs.len() < 6 || cs[0] != 'b' || cs[1] != 'y' || cs[2] != 't' || cs[3] != 'e'
        || cs[4] != 's' || cs[5] != '=' {
        proof {
            if cs@.len() >= 6 {
                assert(cs@.take(6) != bytes_prefix()) by {
                    if cs@.take(6) == bytes_prefix() {
                        assert(cs@.take(6)[0] == 'b');
                        assert(cs@.take(6)[1] == 'y');
                        assert(cs@.take(6)[2] == 't');
                        assert(cs@.take(6)[3] == 'e');
                        assert(cs@.take(6)[4] == 's');
                        assert(cs@.take(6)[5] == '=');
                    }
                }
            }
        }
        return Err(RangeError::Malformed);
    }
    assert(cs@.take(6) == bytes_prefix());
    let ghost rest = cs@.skip(6);
    assert(rest == cs@.subrange(6, cs@.len() as int));
    let i = match find_single(&cs, 6, cs.len()) {
        None => {
            if is_range_list(&cs, 6) {
                return Ok(unsatisfiable);
            } else {
                return Err(RangeError::Malformed);
            }
        },
        Some(i) => i,
    };
    let ghost di = i - 6;
    proof {
        assert(cs@.subrange(6, i as int) == rest.take(di));
        assert(cs@.subrange(i + 1, cs@.len() as int) == rest.skip(di + 1));
    }
    let a = match parse_digits(&cs, 6, i) {
        Some(a) => a,
        None => {
            return Ok(unsatisfiable);
        },
    };
    if a >= file_size {
        return Ok(unsatisfiable);
    }
    if i + 1 == cs.len() {
        return Ok(resolve_from(file_size, a));
    }
    match parse_digits(&cs, i + 1, cs.len()) {
        None => Ok(resolve_from(file_size, a)),
        Some(b) => {
            if a > b {
                Ok(unsatisfiable)
            } else {
                Ok(RangePlan { start: a, end: b, total_size: file_size, satisfiable: true })
            }
        },
    }
}

} // verus!
