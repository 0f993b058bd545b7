//! Palette-mode sample reconstruction (§8.4.4.2.7).
use vstd::prelude::*;
use super::{clip_sample, clip_to_depth};

verus! {

/// One palette index run in palette scan order.
#[derive(Clone, Debug, Eq, PartialEq)]
pub struct PaletteRunSyntax {
    /// Starting scan position.
    pub scan_position: usize,
    /// `copy_above_palette_indices_flag`.
    pub copy_above_indices_flag: bool,
    /// Palette index selected by this run, when it is not copied above.
    pub palette_index: Option<u64>,
    /// `palette_run_prefix`, when the run does not reach the block end.
    pub run_prefix: Option<u64>,
    /// `palette_run_suffix`, when present.
    pub run_suffix: Option<u64>,
    /// Number of samples covered by this run.
    pub run_length: usize,
}

/// The fixed inputs of a palette block: entries and escape values per
/// component, block width and height, scan transposition and bit depth.
pub type PaletteInputs = (Seq<Vec<i32>>, Seq<Vec<u64>>, int, int, bool, u8);

/// The decoding state after some samples: the palette index of each scan
/// position (`-1` before it is set), the output planes, and the number of
/// escape samples consumed.
pub type PaletteState = (Seq<i32>, Seq<Seq<i32>>, int);

/// A palette index is an escape when it lies outside the first component's entries.
pub open spec fn palette_is_escape(entries: Seq<Vec<i32>>, index: i32) -> bool {
    index < 0 || index >= (if entries.len() > 0 { entries[0]@.len() as int } else { 0 })
}

/// The sample of component `c` for palette index `index`: the palette entry,
/// or the clipped escape value number `escape`; zero where none is supplied.
pub open spec fn palette_sample(p: PaletteInputs, index: i32, escape: int, c: int) -> i32 {
    if palette_is_escape(p.0, index) {
        let value: u64 = if c < p.1.len() && 0 <= escape < p.1[c]@.len() {
            p.1[c]@[escape]
        } else {
            0
        };
        clip_to_depth((value as i64) as int, p.5 as nat) as i32
    } else if c < p.0.len() && index < p.0[c]@.len() {
        p.0[c]@[index as int]
    } else {
        0
    }
}

/// The row-major output position of scan position `scan`.
pub open spec fn palette_destination(scan: int, width: int, height: int, transpose: bool) -> int {
    let row = scan / width;
    let column = scan % width;
    if transpose {
        (if column < height - 1 { column } else { height - 1 }) * width + (if row < width - 1 { row } else { width - 1 })
    } else {
        row * width + column
    }
}

/// The state after visiting sample `offset` of `run`.
pub open spec fn palette_visit(s: PaletteState, run: PaletteRunSyntax, offset: int, p: PaletteInputs) -> PaletteState {
    let scan = run.scan_position + offset;
    if scan >= p.2 * p.3 {
        s
    } else {
        let index: i32 = if run.copy_above_indices_flag && scan >= p.2 {
            s.0[scan - p.2]
        } else {
            (match run.palette_index {
                Some(v) => v,
                None => 0,
            }) as i32
        };
        let destination = palette_destination(scan, p.2, p.3, p.4);
        (
            s.0.update(scan, index),
            Seq::new(s.1.len(), |c: int| s.1[c].update(destination, palette_sample(p, index, s.2, c))),
            if palette_is_escape(p.0, index) { s.2 + 1 } else { s.2 },
        )
    }
}

/// The state after the first `n` samples of `run`.
pub open spec fn palette_run_state(s: PaletteState, run: PaletteRunSyntax, n: int, p: PaletteInputs) -> PaletteState
    decreases n,
{
    if n <= 0 {
        s
    } else {
        palette_visit(palette_run_state(s, run, n - 1, p), run, n - 1, p)
    }
}

/// Number of output components: those with entries, at least one.
pub open spec fn palette_component_count(entries: Seq<Vec<i32>>) -> int {
    if entries.len() > 1 { entries.len() as int } else { 1 }
}

/// The state before any run: no index set, zero samples, no escape used.
pub open spec fn palette_initial(p: PaletteInputs) -> PaletteState {
    let n = (p.2 * p.3) as nat;
    (
        Seq::new(n, |i: int| -1i32),
        Seq::new(palette_component_count(p.0) as nat, |c: int| Seq::new(n, |i: int| 0i32)),
        0,
    )
}

/// The state after the first `k` runs.
pub open spec fn palette_runs_state(runs: Seq<PaletteRunSyntax>, k: int, p: PaletteInputs) -> PaletteState
    decreases k,
{
    if k <= 0 {
        palette_initial(p)
    } else {
        let prev = palette_runs_state(runs, k - 1, p);
        palette_run_state(prev, runs[k - 1], runs[k - 1].run_length as int, p)
    }
}

/// Total number of samples visited by the first `k` runs.
pub open spec fn palette_total_length(runs: Seq<PaletteRunSyntax>, k: int) -> int
    decreases k,
{
    if k <= 0 {
        0
    } else {
        palette_total_length(runs, k - 1) + runs[k - 1].run_length
    }
}

proof fn lemma_total_length_grows(runs: Seq<PaletteRunSyntax>, k: int, n: int)
    requires
        0 <= k <= n <= runs.len(),
    ensures
        palette_total_length(runs, k) + (if k < n { runs[k].run_length as int } else { 0 }) <= palette_total_length(runs, n),
    decreases n - k,
{
    if k < n {
        lemma_total_length_grows(runs, k + 1, n);
    }
}

/// Reconstructs one palette-mode coding block from its run syntax
/// (§8.4.4.2.7). The palette entries and escape values are supplied per
/// component; the returned planes are row-major, with palette scan order
/// transposed when `transpose` is set.
pub fn decode_palette_block(
    palette_entries: &[Vec<i32>],
    runs: &[PaletteRunSyntax],
    escape_values: &[Vec<u64>],
    width: usize,
    height: usize,
    transpose: bool,
    bit_depth: u8,
) -> (r: Vec<Vec<i32>>)
    requires
        width * height <= usize::MAX,
        bit_depth < 63,
        palette_total_length(runs@, runs@.len() as int) <= usize::MAX,
        forall|i: int| 0 <= i < runs@.len() ==> #[trigger] runs@[i].scan_position + runs@[i].run_length <= usize::MAX,
    ensures
        ({
            let p = (palette_entries@, escape_values@, width as int, height as int, transpose, bit_depth);
            let state = palette_runs_state(runs@, runs@.len() as int, p);
            &&& r@.len() == state.1.len()
            &&& forall|c: int| 0 <= c < r@.len() ==> #[trigger] r@[c]@ == state.1[c]
        }),
{
    let ghost p = (palette_entries@, escape_values@, width as int, height as int, transpose, bit_depth);
    let component_count: usize = if palette_entries.len() > 1 { palette_entries.len() } else { 1 };
    let area = width * height;
    let mut indices: Vec<i32> = Vec::new();
    let mut i: usize = 0;
    while i < area
        invariant
            i <= area,
            indices@ == Seq::new(i as nat, |j: int| -1i32),
        decreases area - i,
    {
        indices.push(-1);
        i += 1;
    }
    let mut output: Vec<Vec<i32>> = Vec::new();
    let mut c: usize = 0;
    while c < component_count
        invariant
            c <= component_count,
            output@.len() == c,
            forall|k: int| 0 <= k < c ==> #[trigger] output@[k]@ == Seq::new(area as nat, |j: int| 0i32),
        decreases component_count - c,
    {
        let mut plane: Vec<i32> = Vec::new();
        let mut j: usize = 0;
        while j < area
            invariant
                j <= area,
                plane@ == Seq::new(j as nat, |t: int| 0i32),
            decreases area - j,
        {
            plane.push(0);
            j += 1;
        }
        output.push(plane);
        c += 1;
    }
    assert(indices@ == palette_initial(p).0);
    let mut escape_index: usize = 0;
    let mut k: usize = 0;
    while k < runs.len()
        invariant
            p == (palette_entries@, escape_values@, width as int, height as int, transpose, bit_depth),
            area == width * height,
            bit_depth < 63,
            component_count == palette_component_count(palette_entries@),
            palette_total_length(runs@, runs@.len() as int) <= usize::MAX,
            forall|i: int| 0 <= i < runs@.len() ==> #[trigger] runs@[i].scan_position + runs@[i].run_length <= usize::MAX,
            k <= runs@.len(),
            indices@ == palette_runs_state(runs@, k as int, p).0,
            output@.len() == palette_runs_state(runs@, k as int, p).1.len(),
            forall|c: int| 0 <= c < output@.len() ==> #[trigger] output@[c]@ == palette_runs_state(runs@, k as int, p).1[c],
            escape_index == palette_runs_state(runs@, k as int, p).2,
            escape_index <= palette_total_length(runs@, k as int),
            indices@.len() == area,
            output@.len() == component_count,
            forall|c: int| 0 <= c < output@.len() ==> (#[trigger] output@[c])@.len() == area,
        decreases runs@.len() - k,
    {
        let run = &runs[k];
        proof {
            lemma_total_length_grows(runs@, k as int, runs@.len() as int);
        }
        let ghost before = palette_runs_state(runs@, k as int, p);
        let mut offset: usize = 0;
        while offset < run.run_length
            invariant
                p == (palette_entries@, escape_values@, width as int, height as int, transpose, bit_depth),
                area == width * height,
                bit_depth < 63,
                component_count == palette_component_count(palette_entries@),
                *run == runs@[k as int],
                run.scan_position + run.run_length <= usize::MAX,
                offset <= run.run_length,
                palette_total_length(runs@, k as int) + run.run_length <= usize::MAX,
                escape_index <= palette_total_length(runs@, k as int) + offset,
                indices@ == palette_run_state(before, *run, offset as int, p).0,
                output@.len() == palette_run_state(before, *run, offset as int, p).1.len(),
                forall|c: int| 0 <= c < output@.len() ==> #[trigger] output@[c]@ == palette_run_state(before, *run, offset as int, p).1[c],
                escape_index == palette_run_state(before, *run, offset as int, p).2,
                indices@.len() == area,
                output@.len() == component_count,
                forall|c: int| 0 <= c < output@.len() ==> (#[trigger] output@[c])@.len() == area,
            decreases run.run_length - offset,
        {
            let ghost state = palette_run_state(before, *run, offset as int, p);
            let scan_position = run.scan_position + offset;
            if scan_position < area {
                let index: i32 = if run.copy_above_indices_flag && scan_position >= width {
                    indices[scan_position - width]
                } else {
                    match run.palette_index {
                        Some(v) => #[verifier::truncate] (v as i32),
                        None => 0,
                    }
                };
                indices.set(scan_position, index);
                let first_len: usize = if palette_entries.len() > 0 { palette_entries[0].len() } else { 0 };
                let is_escape = index < 0 || index as usize >= first_len;
                assert(is_escape == palette_is_escape(palette_entries@, index));
                let row = scan_position / width;
                let column = scan_position % width;
                let x = if transpose { if row < width - 1 { row } else { width - 1 } } else { column };
                let y = if transpose { if column < height - 1 { column } else { height - 1 } } else { row };
                proof {
                    assert(y * width + x < area) by (nonlinear_arith)
                        requires
                            x < width,
                            transpose ==> y <= height - 1,
                            !transpose ==> y == scan_position / width && x == scan_position % width,
                            scan_position < area,
                            area == width * height,
                            width > 0,
                    {
                        if !transpose {
                            vstd::arithmetic::div_mod::lemma_fundamental_div_mod(scan_position as int, width as int);
                        }
                    }
                }
                let destination = y * width + x;
                assert(destination == palette_destination(scan_position as int, width as int, height as int, transpose));
                let mut component: usize = 0;
                while component < component_count
                    invariant
                        p == (palette_entries@, escape_values@, width as int, height as int, transpose, bit_depth),
                        bit_depth < 63,
                        component_count == palette_component_count(palette_entries@),
                        component <= component_count,
                        output@.len() == component_count,
                        destination < area,
                        is_escape == palette_is_escape(palette_entries@, index),
                        escape_index == state.2,
                        state.1.len() == component_count,
                        forall|c: int| 0 <= c < output@.len() ==> (#[trigger] output@[c])@.len() == area,
                        forall|c: int| 0 <= c < component ==> #[trigger] output@[c]@ == state.1[c].update(
                            destination as int,
                            palette_sample(p, index, state.2, c),
                        ),
                        forall|c: int| component <= c < component_count ==> #[trigger] output@[c]@ == state.1[c],
                    decreases component_count - component,
                {
                    let value: i32 = if is_escape {
                        let raw: u64 = if component < escape_values.len() && escape_index < escape_values[component].len() {
                            escape_values[component][escape_index]
                        } else {
                            0
                        };
                        clip_sample(#[verifier::truncate] (raw as i64), bit_depth)
                    } else if component < palette_entries.len() && (index as usize) < palette_entries[component].len() {
                        palette_entries[component][index as usize]
                    } else {
                        0
                    };
                    assert(value == palette_sample(p, index, state.2, component as int));
                    output[component].set(destination, value);
                    component += 1;
                }
                if is_escape {
                    escape_index += 1;
                }
                assert(palette_run_state(before, *run, offset + 1, p) == palette_visit(state, *run, offset as int, p));
            }
            offset += 1;
        }
        k += 1;
    }
    output
}

} // verus!
