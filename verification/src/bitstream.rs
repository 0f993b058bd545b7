//! Annex B byte-stream framing of NAL units.
use vstd::prelude::*;

verus! {

/// The three-byte start-code prefix followed by each unit, in order.
pub open spec fn byte_stream_spec(units: Seq<Seq<u8>>) -> Seq<u8>
    decreases units.len(),
{
    if units.len() == 0 {
        Seq::empty()
    } else {
        byte_stream_spec(units.drop_last()) + seq![0u8, 0u8, 1u8] + units.last()
    }
}

/// Prefixes each NAL unit with the three-byte Annex B start-code prefix.
///
/// The returned bytes are a byte-stream framing of the supplied logical NAL
/// unit stream. Emulation-prevention bytes are intentionally outside this
/// helper; they belong to RBSP-to-NAL conversion.
pub fn nal_units_to_byte_stream(nal_units: &[&[u8]]) -> (r: Vec<u8>)
    ensures
        r@ == byte_stream_spec(nal_units@.map_values(|u: &[u8]| u@)),
{
    let ghost units = nal_units@.map_values(|u: &[u8]| u@);
    let mut stream: Vec<u8> = Vec::new();
    let mut i: usize = 0;
    while i < nal_units.len()
        invariant
            i <= nal_units@.len(),
            units == nal_units@.map_values(|u: &[u8]| u@),
            stream@ == byte_stream_spec(units.subrange(0, i as int)),
        decreases nal_units@.len() - i,
    {
        let unit = nal_units[i];
        let ghost before = stream@;
        stream.push(0);
        stream.push(0);
        stream.push(1);
        let mut j: usize = 0;
        while j < unit.len()
            invariant
                j <= unit@.len(),
                stream@ == before + seq![0u8, 0u8, 1u8] + unit@.subrange(0, j as int),
            decreases unit@.len() - j,
        {
            stream.push(unit[j]);
            assert(unit@.subrange(0, j + 1) =~= unit@.subrange(0, j as int).push(unit@[j as int]));
            assert(stream@ =~= before + seq![0u8, 0u8, 1u8] + unit@.subrange(0, j + 1));
            j += 1;
        }
        assert(unit@.subrange(0, unit@.len() as int) =~= unit@);
        assert(units.subrange(0, i + 1).drop_last() =~= units.subrange(0, i as int));
        assert(units.subrange(0, i + 1).last() == unit@);
        i += 1;
    }
    assert(units.subrange(0, nal_units@.len() as int) =~= units);
    stream
}

/// The first start code at or after `from`: its position and the position
/// of the payload after it (a three-byte `00 00 01` or four-byte
/// `00 00 00 01` prefix).
pub open spec fn start_code_spec(s: Seq<u8>, from: int) -> Option<(int, int)>
    decreases s.len() - from,
{
    if from < 0 || from + 2 >= s.len() {
        None
    } else if s[from] == 0 && s[from + 1] == 0 && s[from + 2] == 1 {
        Some((from, from + 3))
    } else if s[from] == 0 && s[from + 1] == 0 && from + 3 < s.len() && s[from + 2] == 0 && s[from + 3] == 1 {
        Some((from, from + 4))
    } else {
        start_code_spec(s, from + 1)
    }
}

/// `end` moved back over the zero bytes that end `s[low..end]`.
pub open spec fn trim_zeros(s: Seq<u8>, low: int, end: int) -> int
    decreases end - low,
{
    if end > low && s[end - 1] == 0 {
        trim_zeros(s, low, end - 1)
    } else {
        end
    }
}

/// The byte ranges of the NAL units found from `cursor` on.
pub open spec fn unit_ranges(s: Seq<u8>, cursor: int) -> Seq<(int, int)>
    decreases s.len() - cursor,
{
    match start_code_spec(s, cursor) {
        None => Seq::empty(),
        Some((prefix_start, payload_start)) => {
            let next = start_code_spec(s, payload_start);
            let stop = match next {
                Some((start, _)) => start,
                None => s.len() as int,
            };
            let end = trim_zeros(s, payload_start, stop);
            let here = if payload_start < end { seq![(payload_start, end)] } else { Seq::empty() };
            if stop <= prefix_start {
                here
            } else {
                proof {
                    lemma_start_code_range(s, cursor);
                    lemma_start_code_range(s, payload_start);
                }
                here + unit_ranges(s, stop)
            }
        },
    }
}

/// Extracts NAL-unit payloads from a byte stream framed with Annex B start
/// codes. Invalid or empty units are skipped.
pub fn nal_units_from_byte_stream(stream: &[u8]) -> (r: Vec<&[u8]>)
    ensures
        r@.len() == unit_ranges(stream@, 0).len(),
        forall|i: int| 0 <= i < r@.len() ==> #[trigger] r@[i]@ == stream@.subrange(
            unit_ranges(stream@, 0)[i].0,
            unit_ranges(stream@, 0)[i].1,
        ),
{
    let mut units: Vec<&[u8]> = Vec::new();
    let mut cursor: usize = 0;
    let ghost goal = unit_ranges(stream@, 0);
    loop
        invariant
            cursor <= stream@.len(),
            goal == unit_ranges(stream@, 0),
            goal.len() == units@.len() + unit_ranges(stream@, cursor as int).len(),
            forall|i: int| 0 <= i < units@.len() ==> #[trigger] units@[i]@ == stream@.subrange(goal[i].0, goal[i].1),
            forall|i: int| 0 <= i < unit_ranges(stream@, cursor as int).len() ==>
                #[trigger] unit_ranges(stream@, cursor as int)[i] == goal[units@.len() + i],
        ensures
            units@.len() == goal.len(),
            forall|i: int| 0 <= i < units@.len() ==> #[trigger] units@[i]@ == stream@.subrange(goal[i].0, goal[i].1),
        decreases stream@.len() - cursor,
    {
        let (prefix_start, payload_start) = match find_start_code(stream, cursor) {
            Some(found) => found,
            None => break,
        };
        let next = find_start_code(stream, payload_start);
        let stop = match next {
            Some((start, _)) => start,
            None => stream.len(),
        };
        let mut end = stop;
        while end > payload_start && stream[end - 1] == 0
            invariant
                payload_start <= end <= stop <= stream@.len(),
                trim_zeros(stream@, payload_start as int, end as int) == trim_zeros(
                    stream@,
                    payload_start as int,
                    stop as int,
                ),
            decreases end,
        {
            end -= 1;
        }
        let ghost rest = unit_ranges(stream@, cursor as int);
        let ghost before = units@;
        let ghost here: Seq<(int, int)> = if payload_start < end {
            seq![(payload_start as int, end as int)]
        } else {
            Seq::empty()
        };
        assert(end as int == trim_zeros(stream@, payload_start as int, stop as int));
        if payload_start < end {
            units.push(vstd::slice::slice_subrange(stream, payload_start, end));
        }
        assert(forall|i: int| 0 <= i < before.len() ==> #[trigger] units@[i] == before[i]);
        if stop <= prefix_start {
            assert(rest == here);
            proof {
                assert forall|i: int| 0 <= i < units@.len() implies #[trigger] units@[i]@ == stream@.subrange(
                    goal[i].0,
                    goal[i].1,
                ) by {
                    if i < before.len() {
                        assert(units@[i] == before[i]);
                    } else {
                        assert(rest[0] == goal[before.len() as int + 0]);
                    }
                }
            }
            break;
        }
        assert(rest == here + unit_ranges(stream@, stop as int));
        proof {
            if payload_start < end {
                assert(rest[0] == goal[before.len() as int + 0]);
            }
            assert forall|i: int| 0 <= i < units@.len() implies #[trigger] units@[i]@ == stream@.subrange(
                goal[i].0,
                goal[i].1,
            ) by {
                if i < before.len() {
                    assert(units@[i] == before[i]);
                } else {
                    assert(rest[0] == goal[before.len() as int + 0]);
                }
            }
            assert forall|i: int| 0 <= i < unit_ranges(stream@, stop as int).len() implies
                #[trigger] unit_ranges(stream@, stop as int)[i] == goal[units@.len() + i] by {
                assert(rest[here.len() + i] == goal[before.len() + (here.len() + i)]);
            }
        }
        cursor = stop;
    }
    units
}

/// A start code found from `from` lies at or after `from` and inside the stream.
pub proof fn lemma_start_code_range(s: Seq<u8>, from: int)
    ensures
        start_code_spec(s, from) matches Some((a, b)) ==> from <= a < b <= s.len(),
    decreases s.len() - from,
{
    if !(from < 0 || from + 2 >= s.len()) {
        lemma_start_code_range(s, from + 1);
    }
}

/// Finds the first start code at or after `from`.
fn find_start_code(stream: &[u8], from: usize) -> (r: Option<(usize, usize)>)
    ensures
        r matches Some((a, b)) ==> start_code_spec(stream@, from as int) == Some((a as int, b as int)),
        r is None ==> start_code_spec(stream@, from as int) is None,
        r matches Some((a, b)) ==> from <= a < b <= stream@.len(),
{
    let mut index = from;
    while index < stream.len() && stream.len() - index > 2
        invariant
            from <= index,
            start_code_spec(stream@, index as int) == start_code_spec(stream@, from as int),
        decreases stream@.len() - index,
    {
        if stream[index] == 0 && stream[index + 1] == 0 {
            if stream[index + 2] == 1 {
                return Some((index, index + 3));
            }
            if stream.len() - index > 3 && stream[index + 2] == 0 && stream[index + 3] == 1 {
                return Some((index, index + 4));
            }
        }
        index += 1;
    }
    None
}

} // verus!

verus! {

/// `u` contains the three-byte pattern `00 00 01`.
pub open spec fn contains_start_code(u: Seq<u8>) -> bool {
    exists|i: int| 0 <= i && i + 2 < u.len() && u[i] == 0 && #[trigger] u[i + 1] == 0 && u[i + 2] == 1
}

/// A unit that survives framing unchanged: non-empty, not ending in a zero
/// byte, and free of start-code patterns.
pub open spec fn framable(u: Seq<u8>) -> bool {
    u.len() > 0 && u.last() != 0 && !contains_start_code(u)
}

/// Offset of unit `k`'s start-code prefix in the byte stream of `units`.
pub open spec fn unit_offset(units: Seq<Seq<u8>>, k: int) -> int
    decreases k,
{
    if k <= 0 {
        0
    } else {
        unit_offset(units, k - 1) + 3 + units[k - 1].len()
    }
}

proof fn lemma_offsets_grow(units: Seq<Seq<u8>>, j: int, k: int)
    requires
        0 <= j <= k,
    ensures
        unit_offset(units, j) <= unit_offset(units, k),
        j < k ==> unit_offset(units, j) + 3 + units[j].len() <= unit_offset(units, k),
    decreases k - j,
{
    if j < k {
        lemma_offsets_grow(units, j, k - 1);
    }
}

proof fn lemma_stream_layout(units: Seq<Seq<u8>>)
    ensures
        byte_stream_spec(units).len() == unit_offset(units, units.len() as int),
        forall|k: int, j: int|
            0 <= k < units.len() && 0 <= j < 3 + units[k].len() ==> #[trigger] byte_stream_spec(units)[unit_offset(units, k) + j] == if j < 2 {
                0u8
            } else if j == 2 {
                1u8
            } else {
                units[k][j - 3]
            },
    decreases units.len(),
{
    if units.len() > 0 {
        let prior = units.drop_last();
        lemma_stream_layout(prior);
        let n = units.len() - 1;
        assert forall|k: int| 0 <= k <= n implies #[trigger] unit_offset(units, k) == unit_offset(prior, k) by {
            if k < units.len() {
                lemma_offsets_agree(units, prior, k);
            }
        }
        let a = byte_stream_spec(prior);
        let s = byte_stream_spec(units);
        let tail = seq![0u8, 0u8, 1u8] + units.last();
        assert(s == a + tail) by {
            assert(s == a + seq![0u8, 0u8, 1u8] + units.last());
            assert(a + seq![0u8, 0u8, 1u8] + units.last() =~= a + tail);
        }
        assert(units[n] == units.last());
        assert(unit_offset(units, n + 1) == unit_offset(units, n) + 3 + units[n].len());
        assert(a.len() == unit_offset(prior, n));
        assert forall|k: int, j: int| 0 <= k < units.len() && 0 <= j < 3 + units[k].len() implies #[trigger] s[unit_offset(units, k) + j] == if j < 2 {
            0u8
        } else if j == 2 {
            1u8
        } else {
            units[k][j - 3]
        } by {
            lemma_offsets_grow(prior, 0, k);
            if k < n {
                lemma_offsets_grow(prior, k, n);
                assert(prior[k] == units[k]);
                assert(unit_offset(units, k) == unit_offset(prior, k));
                assert(unit_offset(prior, k) + j < a.len());
                assert((a + tail)[unit_offset(prior, k) + j] == a[unit_offset(prior, k) + j]);
                assert(s[unit_offset(units, k) + j] == a[unit_offset(prior, k) + j]);
            } else {
                assert(unit_offset(units, k) == a.len());
                assert((a + tail)[a.len() + j] == tail[j]);
                assert(s[a.len() + j] == tail[j]);
                if j >= 3 {
                    assert(tail[j] == units.last()[j - 3]);
                }
            }
        }
    }
}

proof fn lemma_offsets_agree(units: Seq<Seq<u8>>, prior: Seq<Seq<u8>>, k: int)
    requires
        prior == units.drop_last(),
        0 <= k < units.len(),
    ensures
        unit_offset(units, k) == unit_offset(prior, k),
    decreases k,
{
    if k > 0 {
        lemma_offsets_agree(units, prior, k - 1);
    }
}

proof fn lemma_no_start_code_inside(units: Seq<Seq<u8>>, k: int, from: int)
    requires
        forall|i: int| 0 <= i < units.len() ==> framable(#[trigger] units[i]),
        0 <= k < units.len(),
        unit_offset(units, k) + 3 <= from <= unit_offset(units, k + 1),
    ensures
        start_code_spec(byte_stream_spec(units), from) == if k + 1 < units.len() {
            Some((unit_offset(units, k + 1), unit_offset(units, k + 1) + 3))
        } else {
            None
        },
    decreases unit_offset(units, k + 1) - from,
{
    let s = byte_stream_spec(units);
    let n = units.len() as int;
    let base = unit_offset(units, k) + 3;
    let stop = unit_offset(units, k + 1);
    let u = units[k];
    let len = u.len() as int;
    lemma_stream_layout(units);
    lemma_offsets_grow(units, k + 1, n);
    lemma_offsets_grow(units, 0, k);
    assert(framable(u));
    assert(stop == base + len);
    assert forall|t: int| 0 <= t < len implies s[base + t] == #[trigger] u[t] by {
        assert(s[unit_offset(units, k) + (t + 3)] == u[t]);
    }
    if k + 1 < n {
        assert(s[unit_offset(units, k + 1) + 0] == 0u8);
        assert(s[unit_offset(units, k + 1) + 1] == 0u8);
        assert(s[unit_offset(units, k + 1) + 2] == 1u8);
        lemma_offsets_grow(units, k + 2, n);
        assert(stop + 3 <= s.len());
    } else {
        assert(s.len() == stop);
    }
    if from < stop {
        let j = from - base;
        assert(s[stop - 1] == u[len - 1]);
        assert(u[len - 1] == u.last());
        assert(u.last() != 0);
        assert(s[from] == u[j]);
        if from + 2 < s.len() {
            if s[from] == 0 && s[from + 1] == 0 && s[from + 2] == 1 {
                if from + 2 < stop {
                    assert(s[from + 1] == u[j + 1]);
                    assert(s[from + 2] == u[j + 2]);
                    assert(u[j] == 0 && u[j + 1] == 0 && u[j + 2] == 1);
                    assert(contains_start_code(u));
                } else if from + 2 == stop {
                    assert(s[from + 1] == s[stop - 1]);
                } else {
                    assert(from == stop - 1);
                }
                assert(false);
            }
            if s[from] == 0 && s[from + 1] == 0 && from + 3 < s.len() && s[from + 2] == 0 && s[from + 3] == 1 {
                if from + 3 < stop {
                    assert(s[from + 1] == u[j + 1]);
                    assert(s[from + 2] == u[j + 2]);
                    assert(s[from + 3] == u[j + 3]);
                    assert(u[j + 1] == 0 && u[(j + 1) + 1] == 0 && u[(j + 1) + 2] == 1);
                    assert(contains_start_code(u));
                } else if from + 3 == stop {
                    assert(s[from + 2] == s[stop - 1]);
                } else if from + 2 == stop {
                    assert(s[from + 1] == s[stop - 1]);
                } else {
                    assert(from == stop - 1);
                }
                assert(false);
            }
        }
        lemma_no_start_code_inside(units, k, from + 1);
    }
}

proof fn lemma_ranges_from(units: Seq<Seq<u8>>, k: int)
    requires
        forall|i: int| 0 <= i < units.len() ==> framable(#[trigger] units[i]),
        0 <= k <= units.len(),
    ensures
        unit_ranges(byte_stream_spec(units), unit_offset(units, k)) == Seq::new(
            (units.len() - k) as nat,
            |i: int| (unit_offset(units, k + i) + 3, unit_offset(units, k + i + 1)),
        ),
    decreases units.len() - k,
{
    let s = byte_stream_spec(units);
    let n = units.len() as int;
    lemma_stream_layout(units);
    lemma_offsets_grow(units, 0, k);
    let here = unit_offset(units, k);
    if k == n {
        assert(start_code_spec(s, here) is None);
        assert(unit_ranges(s, here) == Seq::<(int, int)>::empty());
    } else {
        let u = units[k];
        assert(framable(u));
        lemma_offsets_grow(units, k + 1, n);
        assert(unit_offset(units, k + 1) == here + 3 + u.len());
        assert(s[here + 0] == 0u8);
        assert(s[here + 1] == 0u8);
        assert(s[here + 2] == 1u8);
        assert(here + 2 < s.len());
        assert(start_code_spec(s, here) == Some((here, here + 3)));
        lemma_no_start_code_inside(units, k, here + 3);
        let stop = unit_offset(units, k + 1);
        assert(s[here + (u.len() + 2)] == u[u.len() - 1]);
        assert(trim_zeros(s, here + 3, stop) == stop);
        lemma_ranges_from(units, k + 1);
        assert(unit_ranges(s, here) == seq![(here + 3, stop)] + unit_ranges(s, stop));
        assert(unit_ranges(s, here) == Seq::new(
            (units.len() - k) as nat,
            |i: int| (unit_offset(units, k + i) + 3, unit_offset(units, k + i + 1)),
        ));
    }
}

/// Framing NAL units as a byte stream and extracting them again gives back
/// the units, provided each is non-empty, does not end in a zero byte and
/// holds no start-code pattern.
pub proof fn lemma_byte_stream_round_trip(units: Seq<Seq<u8>>)
    requires
        forall|i: int| 0 <= i < units.len() ==> framable(#[trigger] units[i]),
    ensures
        unit_ranges(byte_stream_spec(units), 0).len() == units.len(),
        forall|i: int|
            0 <= i < units.len() ==> byte_stream_spec(units).subrange(
                #[trigger] unit_ranges(byte_stream_spec(units), 0)[i].0,
                unit_ranges(byte_stream_spec(units), 0)[i].1,
            ) == units[i],
{
    let s = byte_stream_spec(units);
    lemma_ranges_from(units, 0);
    lemma_stream_layout(units);
    assert forall|i: int| 0 <= i < units.len() implies s.subrange(
        #[trigger] unit_ranges(s, 0)[i].0,
        unit_ranges(s, 0)[i].1,
    ) == units[i] by {
        assert(unit_ranges(s, 0)[i] == (unit_offset(units, 0 + i) + 3, unit_offset(units, 0 + i + 1)));
        assert(unit_offset(units, i + 1) == unit_offset(units, i) + 3 + units[i].len());
        lemma_offsets_grow(units, i + 1, units.len() as int);
        lemma_offsets_grow(units, 0, i);
        assert forall|j: int| 0 <= j < units[i].len() implies #[trigger] s.subrange(unit_offset(units, i) + 3, unit_offset(units, i + 1))[j]
            == units[i][j] by {
            assert(s[unit_offset(units, i) + (j + 3)] == units[i][j + 3 - 3]);
        }
        assert(s.subrange(unit_offset(units, i) + 3, unit_offset(units, i + 1)) =~= units[i]);
    }
}

} // verus!
