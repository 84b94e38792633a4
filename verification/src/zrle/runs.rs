//! The parts that tiles are made of: run lengths, lists of compact pixels
//! and lists of runs.
use vstd::prelude::*;
use crate::wire::Reader;
use crate::zrle::cpixel::PixelLayout;

verus! {

/// What reading a run length from the head of `bytes` gives when the run
/// may not be longer than `limit`: the length and the bytes after it. The
/// length is one more than the sum of the bytes that spell it; every byte
/// of 255 is followed by another.
pub open spec fn take_run_length(bytes: Seq<u8>, limit: nat) -> Option<(nat, Seq<u8>)>
    decreases bytes.len(),
{
    if bytes.len() == 0 {
        None
    } else if bytes[0] < 255 {
        if 1 + bytes[0] <= limit {
            Some(((1 + bytes[0]) as nat, bytes.skip(1)))
        } else {
            None
        }
    } else if limit <= 255 {
        None
    } else {
        match take_run_length(bytes.skip(1), (limit - 255) as nat) {
            None => None,
            Some((length, rest)) => Some((length + 255, rest)),
        }
    }
}

/// The bytes that spell the run length `length`, which is at least 1.
pub open spec fn run_length_bytes(length: nat) -> Seq<u8>
    decreases length,
{
    if length <= 255 {
        seq![(length - 1) as u8]
    } else {
        seq![255u8] + run_length_bytes((length - 255) as nat)
    }
}

/// A run length is read back from the bytes that spell it.
pub proof fn lemma_run_length_round_trip(length: nat, limit: nat, rest: Seq<u8>)
    requires
        1 <= length <= limit,
    ensures
        take_run_length(run_length_bytes(length) + rest, limit) == Some((length, rest)),
    decreases length,
{
    let all = run_length_bytes(length) + rest;
    if length <= 255 {
        assert(all.skip(1) =~= rest);
    } else {
        assert(all.skip(1) =~= run_length_bytes((length - 255) as nat) + rest);
        lemma_run_length_round_trip((length - 255) as nat, (limit - 255) as nat, rest);
    }
}

/// A run length read with `more` already counted.
pub open spec fn lengthened(found: Option<(nat, Seq<u8>)>, more: nat) -> Option<(nat, Seq<u8>)> {
    match found {
        None => None,
        Some((length, rest)) => Some((length + more, rest)),
    }
}

/// Reads a run length of at most `limit`. `None` is returned when the bytes
/// end before the length does or the run is longer than `limit`; the
/// cursor has then not moved.
pub fn read_run_length(cursor: &mut Reader, limit: usize) -> (length: Option<usize>)
    ensures
        match take_run_length(old(cursor).remaining(), limit as nat) {
            None => length is None && final(cursor).remaining() == old(cursor).remaining(),
            Some((n, rest)) => length == Some(n as usize) && n <= limit && final(cursor).remaining() == rest,
        },
{
    let mut at = *cursor;
    let ghost whole = take_run_length(at.remaining(), limit as nat);
    let mut counted: usize = 0;
    loop
        invariant
            *cursor == *old(cursor),
            counted <= limit,
            whole == take_run_length(old(cursor).remaining(), limit as nat),
            whole == lengthened(
                take_run_length(at.remaining(), (limit - counted) as nat),
                counted as nat,
            ),
        decreases at.remaining().len(),
    {
        let byte = match at.read_u8() {
            Ok(byte) => byte,
            Err(_) => {
                return None;
            },
        };
        if byte < 255 {
            if byte as usize >= limit - counted {
                return None;
            }
            *cursor = at;
            return Some(counted + 1 + byte as usize);
        }
        if limit - counted <= 255 {
            return None;
        }
        counted = counted + 255;
    }
}

/// Appends the bytes that spell the run length `length`.
pub fn write_run_length(writer: &mut Vec<u8>, length: usize)
    requires
        length >= 1,
    ensures
        final(writer)@ == old(writer)@ + run_length_bytes(length as nat),
{
    let mut left = length;
    while left > 255
        invariant
            left >= 1,
            old(writer)@ + run_length_bytes(length as nat) == writer@ + run_length_bytes(
                left as nat,
            ),
        decreases left,
    {
        let ghost before = writer@;
        writer.push(255);
        left = left - 255;
        assert(before + (seq![255u8] + run_length_bytes(left as nat)) =~= writer@
            + run_length_bytes(left as nat));
    }
    let ghost before = writer@;
    writer.push((left - 1) as u8);
    assert(before + run_length_bytes(left as nat) =~= writer@);
}

/// What reading `count` compact pixels from the head of `bytes` gives: the
/// pixels and the bytes after them.
pub open spec fn take_cpixels(layout: PixelLayout, bytes: Seq<u8>, count: nat) -> Option<
    (Seq<u32>, Seq<u8>),
>
    decreases count,
{
    if count == 0 {
        Some((Seq::empty(), bytes))
    } else if bytes.len() < layout.compact_size() {
        None
    } else {
        match take_cpixels(layout, bytes.skip(layout.compact_size()), (count - 1) as nat) {
            None => None,
            Some((pixels, rest)) => Some(
                (seq![layout.cpixel_value(bytes.take(layout.compact_size()))] + pixels, rest),
            ),
        }
    }
}

/// The compact bytes of a list of pixels, one pixel after the other.
pub open spec fn cpixels_bytes(layout: PixelLayout, pixels: Seq<u32>) -> Seq<u8>
    decreases pixels.len(),
{
    if pixels.len() == 0 {
        Seq::empty()
    } else {
        layout.cpixel_bytes(pixels[0]) + cpixels_bytes(layout, pixels.skip(1))
    }
}

/// Whether a compact pixel can hold every pixel of the list.
pub open spec fn all_compactable(layout: PixelLayout, pixels: Seq<u32>) -> bool {
    forall|i: int| 0 <= i < pixels.len() ==> layout.compactable(#[trigger] pixels[i])
}

/// A list of pixels is read back from its compact bytes.
pub proof fn lemma_cpixels_round_trip(layout: PixelLayout, pixels: Seq<u32>, rest: Seq<u8>)
    requires
        layout.well_formed(),
        all_compactable(layout, pixels),
    ensures
        take_cpixels(layout, cpixels_bytes(layout, pixels) + rest, pixels.len()) == Some(
            (pixels, rest),
        ),
    decreases pixels.len(),
{
    let all = cpixels_bytes(layout, pixels) + rest;
    if pixels.len() == 0 {
        assert(all =~= rest);
    } else {
        let size = layout.compact_size();
        let tail = pixels.skip(1);
        assert(layout.compactable(pixels[0]));
        layout.lemma_cpixel_round_trip(pixels[0]);
        assert(all.take(size) =~= layout.cpixel_bytes(pixels[0]));
        assert(all.skip(size) =~= cpixels_bytes(layout, tail) + rest);
        assert forall|i: int| 0 <= i < tail.len() implies layout.compactable(
            #[trigger] tail[i],
        ) by {
            assert(tail[i] == pixels[i + 1]);
        }
        lemma_cpixels_round_trip(layout, tail, rest);
        assert(seq![pixels[0]] + tail =~= pixels);
    }
}

/// The pixels that were read are as many as were asked for, and a compact
/// pixel can hold each of them.
pub proof fn lemma_taken_cpixels(layout: PixelLayout, bytes: Seq<u8>, count: nat)
    requires
        layout.well_formed(),
        take_cpixels(layout, bytes, count) is Some,
    ensures
        take_cpixels(layout, bytes, count)->Some_0.0.len() == count,
        all_compactable(layout, take_cpixels(layout, bytes, count)->Some_0.0),
    decreases count,
{
    if count > 0 {
        let size = layout.compact_size();
        lemma_taken_cpixels(layout, bytes.skip(size), (count - 1) as nat);
        layout.lemma_cpixel_bytes_of_value(bytes.take(size));
        let tail = take_cpixels(layout, bytes.skip(size), (count - 1) as nat)->Some_0.0;
        let pixels = take_cpixels(layout, bytes, count)->Some_0.0;
        assert forall|i: int| 0 <= i < pixels.len() implies layout.compactable(
            #[trigger] pixels[i],
        ) by {
            if i > 0 {
                assert(pixels[i] == tail[i - 1]);
            }
        }
    }
}

/// Pixels read with `done` already read before them.
pub open spec fn after(found: Option<(Seq<u32>, Seq<u8>)>, done: Seq<u32>) -> Option<
    (Seq<u32>, Seq<u8>),
> {
    match found {
        None => None,
        Some((pixels, rest)) => Some((done + pixels, rest)),
    }
}

/// Reads `count` compact pixels. `None` is returned when the bytes end
/// before the pixels do; the cursor has then not moved.
pub fn read_cpixels(cursor: &mut Reader, layout: &PixelLayout, count: usize) -> (pixels: Option<
    Vec<u32>,
>)
    requires
        layout.well_formed(),
    ensures
        match take_cpixels(*layout, old(cursor).remaining(), count as nat) {
            None => pixels is None && final(cursor).remaining() == old(cursor).remaining(),
            Some((values, rest)) => pixels is Some && pixels->Some_0@ == values && final(cursor).remaining() == rest,
        },
{
    let mut at = *cursor;
    let ghost whole = take_cpixels(*layout, at.remaining(), count as nat);
    let size = layout.cpixel_size();
    let mut pixels: Vec<u32> = Vec::new();
    let mut i: usize = 0;
    proof {
        if whole is Some {
            assert(pixels@ + whole->Some_0.0 =~= whole->Some_0.0);
        }
    }
    while i < count
        invariant
            *cursor == *old(cursor),
            i <= count,
            layout.well_formed(),
            size == layout.compact_size(),
            whole == take_cpixels(*layout, old(cursor).remaining(), count as nat),
            whole == after(
                take_cpixels(*layout, at.remaining(), (count - i) as nat),
                pixels@,
            ),
        decreases count - i,
    {
        let ghost before = pixels@;
        let ghost tail = take_cpixels(
            *layout,
            at.remaining().skip(size as int),
            (count - i - 1) as nat,
        );
        let bytes = match at.read_slice(size) {
            Ok(bytes) => bytes,
            Err(_) => {
                return None;
            },
        };
        let pixel = layout.read_cpixel(bytes);
        pixels.push(pixel);
        i = i + 1;
        proof {
            if tail is Some {
                assert(before + (seq![pixel] + tail->Some_0.0) =~= pixels@ + tail->Some_0.0);
            }
        }
    }
    proof {
        assert(pixels@ + Seq::<u32>::empty() =~= pixels@);
    }
    *cursor = at;
    Some(pixels)
}

/// Appends the compact bytes of `pixels`, one pixel after the other.
pub fn write_cpixels(writer: &mut Vec<u8>, layout: &PixelLayout, pixels: &[u32])
    requires
        layout.well_formed(),
    ensures
        final(writer)@ == old(writer)@ + cpixels_bytes(*layout, pixels@),
{
    let mut i: usize = 0;
    assert(pixels@.skip(0) =~= pixels@);
    while i < pixels.len()
        invariant
            i <= pixels@.len(),
            layout.well_formed(),
            old(writer)@ + cpixels_bytes(*layout, pixels@) == writer@ + cpixels_bytes(
                *layout,
                pixels@.skip(i as int),
            ),
        decreases pixels@.len() - i,
    {
        let ghost before = writer@;
        layout.write_cpixel(pixels[i], writer);
        proof {
            let left = pixels@.skip(i as int);
            assert(left.skip(1) =~= pixels@.skip(i + 1));
            assert(before + (layout.cpixel_bytes(left[0]) + cpixels_bytes(*layout, left.skip(1)))
                =~= writer@ + cpixels_bytes(*layout, left.skip(1)));
        }
        i = i + 1;
    }
    assert(writer@ + Seq::<u8>::empty() =~= writer@);
}

/// A stretch of pixels of one colour.
#[derive(Debug, Clone, Copy, PartialEq, Eq)]
pub struct Run {
    pub pixel: u32,
    /// How many pixels, at least 1.
    pub length: u16,
}

/// A stretch of pixels of one colour of a palette.
#[derive(Debug, Clone, Copy, PartialEq, Eq)]
pub struct IndexRun {
    pub index: u8,
    /// How many pixels, at least 1.
    pub length: u16,
}

/// How many pixels the runs cover.
pub open spec fn total(runs: Seq<Run>) -> nat
    decreases runs.len(),
{
    if runs.len() == 0 {
        0
    } else {
        runs[0].length as nat + total(runs.skip(1))
    }
}

/// How many pixels the runs cover.
pub open spec fn index_total(runs: Seq<IndexRun>) -> nat
    decreases runs.len(),
{
    if runs.len() == 0 {
        0
    } else {
        runs[0].length as nat + index_total(runs.skip(1))
    }
}

/// Whether the runs are runs of a tile of `count` pixels: none is empty,
/// a compact pixel can hold the colour of each, and together they cover
/// the tile.
pub open spec fn runs_cover(layout: PixelLayout, runs: Seq<Run>, count: nat) -> bool {
    &&& forall|i: int|
        0 <= i < runs.len() ==> (#[trigger] runs[i]).length >= 1 && layout.compactable(
            runs[i].pixel,
        )
    &&& total(runs) == count
}

/// Whether the runs are runs of a tile of `count` pixels with a palette of
/// `size` colours.
pub open spec fn index_runs_cover(runs: Seq<IndexRun>, size: int, count: nat) -> bool {
    &&& forall|i: int|
        0 <= i < runs.len() ==> (#[trigger] runs[i]).length >= 1 && runs[i].index < size
    &&& index_total(runs) == count
}

/// The bytes of the runs of a plain run-length tile: for each run the
/// compact pixel, then the length.
pub open spec fn runs_bytes(layout: PixelLayout, runs: Seq<Run>) -> Seq<u8>
    decreases runs.len(),
{
    if runs.len() == 0 {
        Seq::empty()
    } else {
        layout.cpixel_bytes(runs[0].pixel) + run_length_bytes(runs[0].length as nat) + runs_bytes(
            layout,
            runs.skip(1),
        )
    }
}

/// The bytes of one run of a palette run-length tile: the index alone for
/// a single pixel, else the index with its high bit set and the length.
pub open spec fn index_run_bytes(run: IndexRun) -> Seq<u8> {
    if run.length == 1 {
        seq![run.index]
    } else {
        seq![(128 + run.index) as u8] + run_length_bytes(run.length as nat)
    }
}

/// The bytes of the runs of a palette run-length tile.
pub open spec fn index_runs_bytes(runs: Seq<IndexRun>) -> Seq<u8>
    decreases runs.len(),
{
    if runs.len() == 0 {
        Seq::empty()
    } else {
        index_run_bytes(runs[0]) + index_runs_bytes(runs.skip(1))
    }
}

/// What reading runs that cover `count` pixels from the head of `bytes`
/// gives: the runs and the bytes after them.
pub open spec fn take_runs(layout: PixelLayout, bytes: Seq<u8>, count: nat) -> Option<
    (Seq<Run>, Seq<u8>),
>
    decreases count,
{
    if count == 0 {
        Some((Seq::empty(), bytes))
    } else if bytes.len() < layout.compact_size() {
        None
    } else {
        match take_run_length(bytes.skip(layout.compact_size()), count) {
            None => None,
            Some((length, after_length)) => if length < 1 || length > count {
                None
            } else {
                match take_runs(layout, after_length, (count - length) as nat) {
                    None => None,
                    Some((runs, rest)) => Some(
                        (
                            seq![
                                Run {
                                    pixel: layout.cpixel_value(bytes.take(layout.compact_size())),
                                    length: length as u16,
                                },
                            ] + runs,
                            rest,
                        ),
                    ),
                }
            },
        }
    }
}

/// What reading the head of one run of a palette run-length tile gives:
/// the length of the run and the bytes after it.
pub open spec fn take_index_run_length(bytes: Seq<u8>, count: nat) -> Option<(nat, Seq<u8>)> {
    if bytes[0] >= 128 {
        take_run_length(bytes.skip(1), count)
    } else {
        Some((1, bytes.skip(1)))
    }
}

/// What reading runs over a palette of `size` colours that cover `count`
/// pixels from the head of `bytes` gives: the runs and the bytes after
/// them.
pub open spec fn take_index_runs(bytes: Seq<u8>, size: int, count: nat) -> Option<
    (Seq<IndexRun>, Seq<u8>),
>
    decreases count,
{
    if count == 0 {
        Some((Seq::empty(), bytes))
    } else if bytes.len() == 0 || bytes[0] % 128 >= size {
        None
    } else {
        match take_index_run_length(bytes, count) {
            None => None,
            Some((length, after_length)) => if length < 1 || length > count {
                None
            } else {
                match take_index_runs(after_length, size, (count - length) as nat) {
                    None => None,
                    Some((runs, rest)) => Some(
                        (
                            seq![IndexRun { index: bytes[0] % 128, length: length as u16 }] + runs,
                            rest,
                        ),
                    ),
                }
            },
        }
    }
}

/// Runs are read back from their bytes.
pub proof fn lemma_runs_round_trip(layout: PixelLayout, runs: Seq<Run>, count: nat, rest: Seq<u8>)
    requires
        layout.well_formed(),
        runs_cover(layout, runs, count),
    ensures
        take_runs(layout, runs_bytes(layout, runs) + rest, count) == Some((runs, rest)),
    decreases runs.len(),
{
    let all = runs_bytes(layout, runs) + rest;
    if runs.len() == 0 {
        assert(all =~= rest);
    } else {
        let size = layout.compact_size();
        let first = runs[0];
        let tail = runs.skip(1);
        let length = first.length as nat;
        assert(first.length >= 1 && layout.compactable(first.pixel));
        layout.lemma_cpixel_round_trip(first.pixel);
        assert(all.take(size) =~= layout.cpixel_bytes(first.pixel));
        assert(all.skip(size) =~= run_length_bytes(length) + (runs_bytes(layout, tail) + rest));
        lemma_run_length_round_trip(length, count, runs_bytes(layout, tail) + rest);
        assert forall|i: int| 0 <= i < tail.len() implies (#[trigger] tail[i]).length >= 1
            && layout.compactable(tail[i].pixel) by {
            assert(tail[i] == runs[i + 1]);
        }
        lemma_runs_round_trip(layout, tail, (count - length) as nat, rest);
        assert(seq![first] + tail =~= runs);
    }
}

/// Runs over a palette are read back from their bytes.
pub proof fn lemma_index_runs_round_trip(runs: Seq<IndexRun>, size: int, count: nat, rest: Seq<u8>)
    requires
        size <= 127,
        index_runs_cover(runs, size, count),
    ensures
        take_index_runs(index_runs_bytes(runs) + rest, size, count) == Some((runs, rest)),
    decreases runs.len(),
{
    let all = index_runs_bytes(runs) + rest;
    if runs.len() == 0 {
        assert(all =~= rest);
    } else {
        let first = runs[0];
        let tail = runs.skip(1);
        let length = first.length as nat;
        assert(first.length >= 1 && first.index < size);
        if first.length == 1 {
            assert(all.skip(1) =~= index_runs_bytes(tail) + rest);
        } else {
            assert(all.skip(1) =~= run_length_bytes(length) + (index_runs_bytes(tail) + rest));
            lemma_run_length_round_trip(length, count, index_runs_bytes(tail) + rest);
        }
        assert forall|i: int| 0 <= i < tail.len() implies (#[trigger] tail[i]).length >= 1
            && tail[i].index < size by {
            assert(tail[i] == runs[i + 1]);
        }
        lemma_index_runs_round_trip(tail, size, (count - length) as nat, rest);
        assert(seq![first] + tail =~= runs);
    }
}

/// The runs that were read are runs of a tile of `count` pixels.
pub proof fn lemma_taken_runs(layout: PixelLayout, bytes: Seq<u8>, count: nat)
    requires
        layout.well_formed(),
        count <= 0xFFFF,
        take_runs(layout, bytes, count) is Some,
    ensures
        runs_cover(layout, take_runs(layout, bytes, count)->Some_0.0, count),
    decreases count,
{
    if count > 0 {
        let size = layout.compact_size();
        let (length, after_length) = take_run_length(bytes.skip(size), count)->Some_0;
        lemma_taken_runs(layout, after_length, (count - length) as nat);
        layout.lemma_cpixel_bytes_of_value(bytes.take(size));
        let tail = take_runs(layout, after_length, (count - length) as nat)->Some_0.0;
        let runs = take_runs(layout, bytes, count)->Some_0.0;
        assert(runs.skip(1) =~= tail);
        assert forall|i: int| 0 <= i < runs.len() implies (#[trigger] runs[i]).length >= 1
            && layout.compactable(runs[i].pixel) by {
            if i > 0 {
                assert(runs[i] == tail[i - 1]);
            }
        }
    }
}

/// The runs that were read are runs of a tile of `count` pixels with a
/// palette of `size` colours.
pub proof fn lemma_taken_index_runs(bytes: Seq<u8>, size: int, count: nat)
    requires
        count <= 0xFFFF,
        take_index_runs(bytes, size, count) is Some,
    ensures
        index_runs_cover(take_index_runs(bytes, size, count)->Some_0.0, size, count),
    decreases count,
{
    if count > 0 {
        let (length, after_length) = take_index_run_length(bytes, count)->Some_0;
        lemma_taken_index_runs(after_length, size, (count - length) as nat);
        let tail = take_index_runs(after_length, size, (count - length) as nat)->Some_0.0;
        let runs = take_index_runs(bytes, size, count)->Some_0.0;
        assert(runs.skip(1) =~= tail);
        assert forall|i: int| 0 <= i < runs.len() implies (#[trigger] runs[i]).length >= 1
            && runs[i].index < size by {
            if i > 0 {
                assert(runs[i] == tail[i - 1]);
            }
        }
    }
}

/// Runs read with `done` already read before them.
pub open spec fn runs_after(found: Option<(Seq<Run>, Seq<u8>)>, done: Seq<Run>) -> Option<
    (Seq<Run>, Seq<u8>),
> {
    match found {
        None => None,
        Some((runs, rest)) => Some((done + runs, rest)),
    }
}

/// Runs read with `done` already read before them.
pub open spec fn index_runs_after(
    found: Option<(Seq<IndexRun>, Seq<u8>)>,
    done: Seq<IndexRun>,
) -> Option<(Seq<IndexRun>, Seq<u8>)> {
    match found {
        None => None,
        Some((runs, rest)) => Some((done + runs, rest)),
    }
}

/// Reads runs that cover `count` pixels. `None` is returned when the bytes
/// end before the runs do or a run overshoots; the cursor has then not
/// moved.
pub fn read_runs(cursor: &mut Reader, layout: &PixelLayout, count: usize) -> (runs: Option<
    Vec<Run>,
>)
    requires
        layout.well_formed(),
        count <= 0x1000,
    ensures
        match take_runs(*layout, old(cursor).remaining(), count as nat) {
            None => runs is None && final(cursor).remaining() == old(cursor).remaining(),
            Some((values, rest)) => runs is Some && runs->Some_0@ == values && final(cursor).remaining() == rest,
        },
{
    let mut at = *cursor;
    let ghost whole = take_runs(*layout, at.remaining(), count as nat);
    let size = layout.cpixel_size();
    let mut runs: Vec<Run> = Vec::new();
    let mut left: usize = count;
    proof {
        if whole is Some {
            assert(runs@ + whole->Some_0.0 =~= whole->Some_0.0);
        }
    }
    while left > 0
        invariant
            *cursor == *old(cursor),
            left <= count <= 0x1000,
            layout.well_formed(),
            size == layout.compact_size(),
            whole == take_runs(*layout, old(cursor).remaining(), count as nat),
            whole == runs_after(take_runs(*layout, at.remaining(), left as nat), runs@),
        decreases left,
    {
        let ghost before = runs@;
        let bytes = match at.read_slice(size) {
            Ok(bytes) => bytes,
            Err(_) => {
                return None;
            },
        };
        let pixel = layout.read_cpixel(bytes);
        let length = match read_run_length(&mut at, left) {
            Some(length) => length,
            None => {
                return None;
            },
        };
        let ghost tail = take_runs(*layout, at.remaining(), (left - length) as nat);
        let run = Run { pixel, length: length as u16 };
        runs.push(run);
        left = left - length;
        proof {
            if tail is Some {
                assert(before + (seq![run] + tail->Some_0.0) =~= runs@ + tail->Some_0.0);
            }
        }
    }
    proof {
        assert(runs@ + Seq::<Run>::empty() =~= runs@);
    }
    *cursor = at;
    Some(runs)
}

/// Reads runs over a palette of `size` colours that cover `count` pixels.
/// `None` is returned when the bytes end before the runs do, a run
/// overshoots or an index is not of the palette; the cursor has then not
/// moved.
pub fn read_index_runs(cursor: &mut Reader, size: usize, count: usize) -> (runs: Option<
    Vec<IndexRun>,
>)
    requires
        count <= 0x1000,
    ensures
        match take_index_runs(old(cursor).remaining(), size as int, count as nat) {
            None => runs is None && final(cursor).remaining() == old(cursor).remaining(),
            Some((values, rest)) => runs is Some && runs->Some_0@ == values && final(cursor).remaining() == rest,
        },
{
    let mut at = *cursor;
    let ghost whole = take_index_runs(at.remaining(), size as int, count as nat);
    let mut runs: Vec<IndexRun> = Vec::new();
    let mut left: usize = count;
    proof {
        if whole is Some {
            assert(runs@ + whole->Some_0.0 =~= whole->Some_0.0);
        }
    }
    while left > 0
        invariant
            *cursor == *old(cursor),
            left <= count <= 0x1000,
            whole == take_index_runs(old(cursor).remaining(), size as int, count as nat),
            whole == index_runs_after(
                take_index_runs(at.remaining(), size as int, left as nat),
                runs@,
            ),
        decreases left,
    {
        let ghost before = runs@;
        let head = match at.read_u8() {
            Ok(head) => head,
            Err(_) => {
                return None;
            },
        };
        let index = head % 128;
        if index as usize >= size {
            return None;
        }
        let length = if head >= 128 {
            match read_run_length(&mut at, left) {
                Some(length) => length,
                None => {
                    return None;
                },
            }
        } else {
            1
        };
        let ghost tail = take_index_runs(at.remaining(), size as int, (left - length) as nat);
        let run = IndexRun { index, length: length as u16 };
        runs.push(run);
        left = left - length;
        proof {
            if tail is Some {
                assert(before + (seq![run] + tail->Some_0.0) =~= runs@ + tail->Some_0.0);
            }
        }
    }
    proof {
        assert(runs@ + Seq::<IndexRun>::empty() =~= runs@);
    }
    *cursor = at;
    Some(runs)
}

/// Appends the bytes of the runs of a plain run-length tile.
pub fn write_runs(writer: &mut Vec<u8>, layout: &PixelLayout, runs: &[Run])
    requires
        layout.well_formed(),
        forall|i: int| 0 <= i < runs@.len() ==> (#[trigger] runs@[i]).length >= 1,
    ensures
        final(writer)@ == old(writer)@ + runs_bytes(*layout, runs@),
{
    let mut i: usize = 0;
    assert(runs@.skip(0) =~= runs@);
    while i < runs.len()
        invariant
            i <= runs@.len(),
            layout.well_formed(),
            forall|i: int| 0 <= i < runs@.len() ==> (#[trigger] runs@[i]).length >= 1,
            old(writer)@ + runs_bytes(*layout, runs@) == writer@ + runs_bytes(
                *layout,
                runs@.skip(i as int),
            ),
        decreases runs@.len() - i,
    {
        let ghost before = writer@;
        let run = runs[i];
        layout.write_cpixel(run.pixel, writer);
        write_run_length(writer, run.length as usize);
        proof {
            let left = runs@.skip(i as int);
            assert(left[0] == run);
            assert(left.skip(1) =~= runs@.skip(i + 1));
            assert(before + (layout.cpixel_bytes(run.pixel) + run_length_bytes(run.length as nat)
                + runs_bytes(*layout, left.skip(1))) =~= writer@ + runs_bytes(
                *layout,
                left.skip(1),
            ));
        }
        i = i + 1;
    }
    assert(writer@ + Seq::<u8>::empty() =~= writer@);
}

/// Appends the bytes of the runs of a palette run-length tile.
pub fn write_index_runs(writer: &mut Vec<u8>, runs: &[IndexRun])
    requires
        forall|i: int|
            0 <= i < runs@.len() ==> (#[trigger] runs@[i]).length >= 1 && runs@[i].index < 128,
    ensures
        final(writer)@ == old(writer)@ + index_runs_bytes(runs@),
{
    let mut i: usize = 0;
    assert(runs@.skip(0) =~= runs@);
    while i < runs.len()
        invariant
            i <= runs@.len(),
            forall|i: int|
                0 <= i < runs@.len() ==> (#[trigger] runs@[i]).length >= 1 && runs@[i].index
                    < 128,
            old(writer)@ + index_runs_bytes(runs@) == writer@ + index_runs_bytes(
                runs@.skip(i as int),
            ),
        decreases runs@.len() - i,
    {
        let ghost before = writer@;
        let run = runs[i];
        if run.length == 1 {
            writer.push(run.index);
        } else {
            writer.push(128 + run.index);
            write_run_length(writer, run.length as usize);
        }
        proof {
            let left = runs@.skip(i as int);
            assert(left[0] == run);
            assert(left.skip(1) =~= runs@.skip(i + 1));
            assert(before + (index_run_bytes(run) + index_runs_bytes(left.skip(1))) =~= writer@
                + index_runs_bytes(left.skip(1)));
        }
        i = i + 1;
    }
    assert(writer@ + Seq::<u8>::empty() =~= writer@);
}

/// Whether none of the runs is empty and together they cover `count`
/// pixels.
pub fn runs_shaped(runs: &[Run], count: usize) -> (shaped: bool)
    ensures
        shaped == ((forall|i: int| 0 <= i < runs@.len() ==> (#[trigger] runs@[i]).length >= 1)
            && total(runs@) == count),
{
    let mut covered: usize = 0;
    let mut i: usize = 0;
    assert(runs@.skip(0) =~= runs@);
    while i < runs.len()
        invariant
            i <= runs@.len(),
            covered <= count,
            forall|k: int| 0 <= k < i ==> (#[trigger] runs@[k]).length >= 1,
            covered + total(runs@.skip(i as int)) == total(runs@),
        decreases runs@.len() - i,
    {
        let length = runs[i].length as usize;
        proof {
            let left = runs@.skip(i as int);
            assert(left[0] == runs@[i as int]);
            assert(left.skip(1) =~= runs@.skip(i + 1));
        }
        if length < 1 || length > count - covered {
            return false;
        }
        covered = covered + length;
        i = i + 1;
    }
    covered == count
}

/// Whether the runs are runs of a tile of `count` pixels with a palette of
/// `size` colours.
pub fn index_runs_shaped(runs: &[IndexRun], size: usize, count: usize) -> (shaped: bool)
    ensures
        shaped == index_runs_cover(runs@, size as int, count as nat),
{
    let mut covered: usize = 0;
    let mut i: usize = 0;
    assert(runs@.skip(0) =~= runs@);
    while i < runs.len()
        invariant
            i <= runs@.len(),
            covered <= count,
            forall|k: int|
                0 <= k < i ==> (#[trigger] runs@[k]).length >= 1 && runs@[k].index < size,
            covered + index_total(runs@.skip(i as int)) == index_total(runs@),
        decreases runs@.len() - i,
    {
        let length = runs[i].length as usize;
        proof {
            let left = runs@.skip(i as int);
            assert(left[0] == runs@[i as int]);
            assert(left.skip(1) =~= runs@.skip(i + 1));
        }
        if length < 1 || length > count - covered || runs[i].index as usize >= size {
            return false;
        }
        covered = covered + length;
        i = i + 1;
    }
    covered == count
}

/// A run length takes at least one byte and at most as many bytes as the
/// run is long.
pub proof fn lemma_run_length_size(bytes: Seq<u8>, limit: nat)
    requires
        take_run_length(bytes, limit) is Some,
    ensures
        1 <= take_run_length(bytes, limit)->Some_0.0 <= limit,
        take_run_length(bytes, limit)->Some_0.1.len() < bytes.len(),
        bytes.len() - take_run_length(bytes, limit)->Some_0.1.len() <= take_run_length(
            bytes,
            limit,
        )->Some_0.0,
    decreases bytes.len(),
{
    if bytes[0] == 255 {
        lemma_run_length_size(bytes.skip(1), (limit - 255) as nat);
    }
}

/// Compact pixels take at most four bytes each.
pub proof fn lemma_cpixels_size(layout: PixelLayout, bytes: Seq<u8>, count: nat)
    requires
        layout.well_formed(),
        take_cpixels(layout, bytes, count) is Some,
    ensures
        take_cpixels(layout, bytes, count)->Some_0.1.len() <= bytes.len(),
        bytes.len() - take_cpixels(layout, bytes, count)->Some_0.1.len() <= 4 * count,
    decreases count,
{
    if count > 0 {
        lemma_cpixels_size(layout, bytes.skip(layout.compact_size()), (count - 1) as nat);
    }
}

/// Runs take at most five bytes for each pixel they cover: a compact pixel
/// and a run length for every run.
pub proof fn lemma_runs_size(layout: PixelLayout, bytes: Seq<u8>, count: nat)
    requires
        layout.well_formed(),
        take_runs(layout, bytes, count) is Some,
    ensures
        take_runs(layout, bytes, count)->Some_0.1.len() <= bytes.len(),
        bytes.len() - take_runs(layout, bytes, count)->Some_0.1.len() <= 5 * count,
    decreases count,
{
    if count > 0 {
        let size = layout.compact_size();
        lemma_run_length_size(bytes.skip(size), count);
        let (length, after_length) = take_run_length(bytes.skip(size), count)->Some_0;
        lemma_runs_size(layout, after_length, (count - length) as nat);
    }
}

/// Runs over a palette take at most two bytes for each pixel they cover:
/// an index and a run length for every run.
pub proof fn lemma_index_runs_size(bytes: Seq<u8>, size: int, count: nat)
    requires
        take_index_runs(bytes, size, count) is Some,
    ensures
        take_index_runs(bytes, size, count)->Some_0.1.len() <= bytes.len(),
        bytes.len() - take_index_runs(bytes, size, count)->Some_0.1.len() <= 2 * count,
    decreases count,
{
    if count > 0 {
        if bytes[0] >= 128 {
            lemma_run_length_size(bytes.skip(1), count);
        }
        let (length, after_length) = take_index_run_length(bytes, count)->Some_0;
        lemma_index_runs_size(after_length, size, (count - length) as nat);
    }
}

} // verus!
