//! Window icons: decoding the icon property, reducing it to one bit per pixel,
//! and rescaling it to the size shown in the switcher.

use vstd::arithmetic::div_mod::lemma_fundamental_div_mod_converse;
use vstd::prelude::*;

verus! {

/// A bitmap with one bit per pixel: `true` is a foreground (ink) pixel.
pub struct BwIcon {
    pub width: u16,
    pub height: u16,
    /// Pixels in rows, `data[y * width + x]`.
    pub data: Vec<bool>,
}

/// Pixel `(x, y)` of a bitmap that is `width` pixels wide; background where the
/// data does not reach.
pub open spec fn pixel_at(data: Seq<bool>, width: int, x: int, y: int) -> bool {
    let i = y * width + x;
    if 0 <= i < data.len() {
        data[i]
    } else {
        false
    }
}

/// A `width` x `height` bitmap resampled to `size` x `size` by nearest neighbour:
/// destination `(x, y)` takes source `(x * width / size, y * height / size)`.
pub open spec fn scaled(data: Seq<bool>, width: int, height: int, size: int) -> Seq<bool> {
    Seq::new(
        (size * size) as nat,
        |i: int| pixel_at(data, width, (i % size) * width / size, (i / size) * height / size),
    )
}

/// Pixel `(x, y)` of the placeholder icon of side `size`: an outer ring two
/// pixels thick, a title band under it, and a one-pixel ring just inside.
pub open spec fn generic_pixel(size: int, x: int, y: int) -> bool {
    let border: int = 2;
    let title_band = size / 5;
    let outer = x < border || x + border >= size || y < border || y + border >= size;
    let band = y < title_band + border;
    let inner = x == border || x + border + 1 == size || y + border + 1 == size;
    outer || band || inner
}

/// Alpha channel of an ARGB pixel.
pub open spec fn alpha(p: u32) -> int {
    p as int / 0x1000000
}

/// Red channel of an ARGB pixel.
pub open spec fn red(p: u32) -> int {
    (p as int / 0x10000) % 0x100
}

/// Green channel of an ARGB pixel.
pub open spec fn green(p: u32) -> int {
    (p as int / 0x100) % 0x100
}

/// Blue channel of an ARGB pixel.
pub open spec fn blue(p: u32) -> int {
    p as int % 0x100
}

/// Luminance in thousandths of a channel step: `299 R + 587 G + 114 B`.
pub open spec fn luma_milli(p: u32) -> int {
    299 * red(p) + 587 * green(p) + 114 * blue(p)
}

/// Whether a pixel is ink: its luminance, blended over white by its alpha
/// (`L * a + (1 - a)` with `L` and `a` in `[0, 1]`), is below one half.
/// Both sides are multiplied by `255 * 255 * 1000 * 2`.
pub open spec fn is_ink(p: u32) -> bool {
    2 * (luma_milli(p) * alpha(p) + 255000 * (255 - alpha(p))) < 65025000
}

/// The pixels of a run of ARGB words, reduced to ink or background.
pub open spec fn ink_of(pixels: Seq<u32>) -> Seq<bool> {
    pixels.map_values(|p: u32| is_ink(p))
}

/// The 32-bit word at position `i` of a byte buffer, least significant byte first.
pub open spec fn word_at(bytes: Seq<u8>, i: int) -> int {
    bytes[4 * i] + bytes[4 * i + 1] * 0x100 + bytes[4 * i + 2] * 0x10000 + bytes[4 * i + 3]
        * 0x1000000
}

/// The whole 32-bit words of a byte buffer; a shorter tail is left out.
pub open spec fn words_of(bytes: Seq<u8>) -> Seq<u32> {
    Seq::new(bytes.len() / 4, |i: int| word_at(bytes, i) as u32)
}

/// The records of an icon buffer from word `at` on, as `(width, height, first
/// pixel)`. A record is `width`, `height`, then `width * height` pixels. The
/// parse stops at the first record that has a zero side or is longer than
/// what is left of the buffer.
pub open spec fn records(words: Seq<u32>, at: int) -> Seq<(u32, u32, int)>
    decreases words.len() - at,
{
    if 0 <= at && at + 2 < words.len() {
        let w = words[at];
        let h = words[at + 1];
        if w != 0 && h != 0 && at + 2 + w * h <= words.len() {
            seq![(w, h, at + 2)] + records(words, at + 2 + w * h)
        } else {
            seq![]
        }
    } else {
        seq![]
    }
}

/// How far a `w` x `h` record is from a `t` x `t` target.
pub open spec fn size_distance(w: int, h: int, t: int) -> int {
    (if w >= t { w - t } else { t - w }) + (if h >= t { h - t } else { t - h })
}

/// Whether a `w` x `h` record is a better match for target `t` than a
/// `bw` x `bh` one: nearer, or as near and not narrower than the target.
pub open spec fn beats(w: int, h: int, bw: int, bh: int, t: int) -> bool {
    let d = size_distance(w, h, t);
    let bd = size_distance(bw, bh, t);
    d < bd || (d == bd && w >= t)
}

/// Index of the record that a scan from the first to the last keeps as the
/// best match for target `t`.
pub open spec fn best_index(recs: Seq<(u32, u32, int)>, t: int) -> int
    decreases recs.len(),
{
    if recs.len() <= 1 {
        0
    } else {
        let prev = recs.drop_last();
        let b = best_index(prev, t);
        if beats(recs.last().0 as int, recs.last().1 as int, prev[b].0 as int, prev[b].1 as int, t) {
            recs.len() - 1
        } else {
            b
        }
    }
}

/// The bitmap that an icon buffer decodes to at `size` x `size`, if it holds a record.
pub open spec fn decoded(words: Seq<u32>, size: int) -> Option<Seq<bool>> {
    let recs = records(words, 0);
    if recs.len() == 0 {
        None
    } else {
        let b = recs[best_index(recs, size)];
        let pixels = words.subrange(b.2, b.2 + b.0 * b.1);
        Some(scaled(ink_of(pixels), b.0 as int, b.1 as int, size))
    }
}

proof fn lemma_row_major(x: int, y: int, t: int)
    requires
        t > 0,
        0 <= x < t,
    ensures
        (y * t + x) % t == x,
        (y * t + x) / t == y,
{
    lemma_fundamental_div_mod_converse(y * t + x, t, y, x);
}

proof fn lemma_best_index_in_range(recs: Seq<(u32, u32, int)>, t: int)
    requires
        recs.len() > 0,
    ensures
        0 <= best_index(recs, t) < recs.len(),
    decreases recs.len(),
{
    if recs.len() > 1 {
        lemma_best_index_in_range(recs.drop_last(), t);
    }
}

/// The record chosen for target `t` is a nearest one: no record is nearer to
/// the target, and if any record at the same distance is not narrower than
/// the target, neither is the chosen one.
pub proof fn lemma_best_index_is_nearest(recs: Seq<(u32, u32, int)>, t: int)
    requires
        recs.len() > 0,
    ensures
        0 <= best_index(recs, t) < recs.len(),
        forall|k: int|
            0 <= k < recs.len() ==> size_distance(
                recs[best_index(recs, t)].0 as int,
                recs[best_index(recs, t)].1 as int,
                t,
            ) <= size_distance(#[trigger] recs[k].0 as int, recs[k].1 as int, t),
        forall|k: int|
            0 <= k < recs.len() && size_distance(recs[k].0 as int, recs[k].1 as int, t)
                == size_distance(
                recs[best_index(recs, t)].0 as int,
                recs[best_index(recs, t)].1 as int,
                t,
            ) && #[trigger] recs[k].0 >= t ==> recs[best_index(recs, t)].0 >= t,
    decreases recs.len(),
{
    if recs.len() > 1 {
        let prev = recs.drop_last();
        lemma_best_index_is_nearest(prev, t);
        let b = best_index(prev, t);
        assert forall|k: int| 0 <= k < prev.len() implies recs[k] == prev[k] by {}
    }
}

/// Every record that the parse of an icon buffer yields is non-empty, fits a
/// bitmap, and lies wholly inside the buffer: decoding never reads past its end.
pub proof fn lemma_records_in_bounds(words: Seq<u32>, at: int)
    requires
        0 <= at,
    ensures
        forall|k: int|
            0 <= k < records(words, at).len() ==> {
                let r = #[trigger] records(words, at)[k];
                &&& 1 <= r.0
                &&& 1 <= r.1
                &&& at + 2 <= r.2
                &&& r.2 + r.0 * r.1 <= words.len()
            },
    decreases words.len() - at,
{
    if at + 2 < words.len() {
        let w = words[at];
        let h = words[at + 1];
        if w != 0 && h != 0 && at + 2 + w * h <= words.len() {
            assert(w * h >= 1) by (nonlinear_arith)
                requires
                    w >= 1,
                    h >= 1,
            ;
            let next = at + 2 + w * h;
            lemma_records_in_bounds(words, next);
            let recs = records(words, at);
            assert(recs == seq![(w, h, at + 2)] + records(words, next));
            assert forall|k: int| 0 < k < recs.len() implies recs[k] == records(words, next)[k - 1] by {}
        }
    }
}

/// A buffer whose first record is whole decodes, whatever follows it: a
/// truncated or empty record after it is left out, not an error.
pub proof fn lemma_first_record_decodes(words: Seq<u32>, size: int)
    requires
        words.len() > 2,
        1 <= words[0],
        1 <= words[1],
        2 + words[0] * words[1] <= words.len(),
    ensures
        records(words, 0).len() >= 1,
        records(words, 0)[0] == (words[0], words[1], 2int),
        decoded(words, size) is Some,
{
}

/// Rescaling to a size that a bitmap already has changes nothing, so rescaling
/// twice to one size gives what rescaling once gives.
pub proof fn lemma_scale_idempotent(data: Seq<bool>, width: int, height: int, size: int)
    requires
        0 <= size,
    ensures
        scaled(scaled(data, width, height, size), size, size, size) == scaled(
            data,
            width,
            height,
            size,
        ),
{
    let once = scaled(data, width, height, size);
    let twice = scaled(once, size, size, size);
    assert forall|i: int| 0 <= i < twice.len() implies twice[i] == once[i] by {
        let x = i % size;
        let y = i / size;
        vstd::arithmetic::div_mod::lemma_fundamental_div_mod(i, size);
        assert(0 <= x < size);
        vstd::arithmetic::div_mod::lemma_div_by_multiple(x, size);
        vstd::arithmetic::div_mod::lemma_div_by_multiple(y, size);
        assert(x * size / size == x && y * size / size == y) by (nonlinear_arith)
            requires
                size > 0,
                (x * size) / size == x,
                (y * size) / size == y,
        ;
        assert(y * size + x == i) by (nonlinear_arith)
            requires
                i == size * (i / size) + i % size,
                x == i % size,
                y == i / size,
        ;
    }
    assert(twice =~= once);
}

/// The pixels of a `width` x `height` bitmap resampled by nearest neighbour
/// to `target_size` x `target_size`.
fn scale_pixels(data: &Vec<bool>, width: u32, height: u32, target_size: u16) -> (r: Vec<bool>)
    ensures
        r@ == scaled(data@, width as int, height as int, target_size as int),
{
    let t = target_size as u64;
    let w = width as u64;
    let h = height as u64;
    let ghost goal = scaled(data@, w as int, h as int, t as int);
    let mut out: Vec<bool> = Vec::new();
    let mut y: u64 = 0;
    while y < t
        invariant
            y <= t,
            t == target_size,
            w == width,
            h == height,
            goal == scaled(data@, w as int, h as int, t as int),
            out@.len() == y * t,
            forall|i: int| 0 <= i < out@.len() ==> out@[i] == goal[i],
        decreases t - y,
    {
        let mut x: u64 = 0;
        while x < t
            invariant
                x <= t,
                y < t,
                t == target_size,
                w == width,
                h == height,
                goal == scaled(data@, w as int, h as int, t as int),
                out@.len() == y * t + x,
                forall|i: int| 0 <= i < out@.len() ==> out@[i] == goal[i],
            decreases t - x,
        {
            proof {
                assert(x * w <= t * w && y * h <= t * h && t * w < 0x1_0000_0000_0000 && t * h
                    < 0x1_0000_0000_0000) by (nonlinear_arith)
                    requires
                        x < t,
                        y < t,
                        t <= 0xffff,
                        w <= 0xffff_ffff,
                        h <= 0xffff_ffff,
                ;
                vstd::arithmetic::div_mod::lemma_div_is_ordered(x * w, t * w, t as int);
                vstd::arithmetic::div_mod::lemma_div_is_ordered(y * h, t * h, t as int);
                vstd::arithmetic::div_mod::lemma_div_by_multiple(w as int, t as int);
                vstd::arithmetic::div_mod::lemma_div_by_multiple(h as int, t as int);
                assert(t * w == w * t && t * h == h * t) by (nonlinear_arith);
            }
            let sx = x * w / t;
            let sy = y * h / t;
            assert(sy * w + sx <= 0xffff_ffff * 0xffff_ffff + 0xffff_ffff) by (nonlinear_arith)
                requires
                    sy <= h,
                    sx <= w,
                    h <= 0xffff_ffff,
                    w <= 0xffff_ffff,
            ;
            let idx = sy * w + sx;
            let v = if idx < data.len() as u64 {
                data[idx as usize]
            } else {
                false
            };
            proof {
                let i = y * t + x;
                lemma_row_major(x as int, y as int, t as int);
                assert(i < t * t) by (nonlinear_arith)
                    requires
                        x < t,
                        y < t,
                        i == y * t + x,
                ;
                assert(goal[i as int] == v);
            }
            out.push(v);
            x = x + 1;
        }
        assert(y * t + t == (y + 1) * t) by (nonlinear_arith);
        y = y + 1;
    }
    proof {
        assert(out@ =~= goal);
    }
    out
}

impl BwIcon {
    /// The pixel data has one entry for each pixel.
    pub open spec fn wf(&self) -> bool {
        self.data@.len() == self.width * self.height
    }

    /// This bitmap resampled by nearest neighbour to `target_size` x `target_size`.
    /// A sample that falls outside the data is background.
    pub fn scale(&self, target_size: u16) -> (r: BwIcon)
        ensures
            r.width == target_size,
            r.height == target_size,
            r.data@ == scaled(
                self.data@,
                self.width as int,
                self.height as int,
                target_size as int,
            ),
            r.wf(),
    {
        let data = scale_pixels(&self.data, self.width as u32, self.height as u32, target_size);
        BwIcon { width: target_size, height: target_size, data }
    }
}

/// Whether a pixel is ink, by the thresholded luminance of [`is_ink`].
pub fn argb_is_ink(argb: u32) -> (r: bool)
    ensures
        r == is_ink(argb),
{
    let a = (argb / 0x1000000) as u64;
    let r = ((argb / 0x10000) % 0x100) as u64;
    let g = ((argb / 0x100) % 0x100) as u64;
    let b = (argb % 0x100) as u64;
    let luma = 299 * r + 587 * g + 114 * b;
    assert(luma * a <= 255000 * 255) by (nonlinear_arith)
        requires
            luma <= 255000,
            a <= 255,
    ;
    2 * (luma * a + 255000 * (255 - a)) < 65025000
}

/// The pixels `words[start..end]`, reduced to ink or background.
fn argb_to_bw(words: &Vec<u32>, start: usize, end: usize) -> (r: Vec<bool>)
    requires
        start <= end <= words@.len(),
    ensures
        r@ == ink_of(words@.subrange(start as int, end as int)),
{
    let mut out: Vec<bool> = Vec::new();
    let mut i: usize = start;
    while i < end
        invariant
            start <= i <= end,
            end <= words@.len(),
            out@ == ink_of(words@.subrange(start as int, i as int)),
        decreases end - i,
    {
        let ink = argb_is_ink(words[i]);
        out.push(ink);
        proof {
            assert(ink_of(words@.subrange(start as int, i + 1)) =~= ink_of(
                words@.subrange(start as int, i as int),
            ).push(ink));
        }
        i = i + 1;
    }
    out
}

/// The whole 32-bit words of an icon property, least significant byte first;
/// a tail shorter than four bytes is left out.
pub fn bytes_to_words(bytes: &[u8]) -> (r: Vec<u32>)
    ensures
        r@ == words_of(bytes@),
{
    let len = bytes.len();
    let n = len / 4;
    let mut out: Vec<u32> = Vec::new();
    let mut i: usize = 0;
    let mut j: usize = 0;
    while i < n
        invariant
            i <= n,
            len == bytes@.len(),
            n == len / 4,
            j == 4 * i,
            out@.len() == i,
            forall|k: int| 0 <= k < i ==> out@[k] == words_of(bytes@)[k],
        decreases n - i,
    {
        assert(4 * i + 4 <= len) by (nonlinear_arith)
            requires
                i < n,
                n == len / 4,
        ;
        let word = bytes[j] as u32 + bytes[j + 1] as u32 * 0x100 + bytes[j + 2] as u32 * 0x10000
            + bytes[j + 3] as u32 * 0x1000000;
        out.push(word);
        i = i + 1;
        j = j + 4;
    }
    proof {
        assert(out@ =~= words_of(bytes@));
    }
    out
}

/// `|a - b|` for values of 32 bits.
fn distance(a: i64, b: i64) -> (r: i64)
    requires
        0 <= a <= 0xffff_ffff,
        0 <= b <= 0xffff_ffff,
    ensures
        r == (if a >= b { a - b } else { b - a }),
{
    if a >= b {
        a - b
    } else {
        b - a
    }
}

/// Whether a `width` x `height` record should replace the best one found so far.
fn should_replace_best(
    best: Option<(u32, u32, usize)>,
    width: u32,
    height: u32,
    target_size: u16,
) -> (r: bool)
    ensures
        r == match best {
            None => true,
            Some(b) => beats(width as int, height as int, b.0 as int, b.1 as int, target_size as int),
        },
{
    match best {
        None => true,
        Some((bw, bh, _)) => {
            let t = target_size as i64;
            let best_diff = distance(bw as i64, t) + distance(bh as i64, t);
            let this_diff = distance(width as i64, t) + distance(height as i64, t);
            this_diff < best_diff || (this_diff == best_diff && width as i64 >= t)
        },
    }
}

/// The record of an icon buffer that best matches `target_size`, as
/// `(width, height, first pixel)`, or `None` if the buffer holds no record.
pub fn find_best_icon(words: &Vec<u32>, target_size: u16) -> (r: Option<(u32, u32, usize)>)
    ensures
        ({
            let recs = records(words@, 0);
            match r {
                None => recs.len() == 0,
                Some(b) => recs.len() > 0 && recs[best_index(recs, target_size as int)] == (
                    b.0,
                    b.1,
                    b.2 as int,
                ),
            }
        }),
{
    let ghost t = target_size as int;
    let mut best: Option<(u32, u32, usize)> = None;
    let mut idx: usize = 0;
    let ghost mut seen: Seq<(u32, u32, int)> = seq![];
    while idx < words.len() && words.len() - idx > 2
        invariant
            idx <= words@.len(),
            t == target_size as int,
            records(words@, 0) == seen + records(words@, idx as int),
            match best {
                None => seen.len() == 0,
                Some(b) => seen.len() > 0 && seen[best_index(seen, t)] == (b.0, b.1, b.2 as int),
            },
        ensures
            records(words@, 0) == seen,
            match best {
                None => seen.len() == 0,
                Some(b) => seen.len() > 0 && seen[best_index(seen, t)] == (b.0, b.1, b.2 as int),
            },
        decreases words@.len() - idx,
    {
        let w = words[idx];
        let h = words[idx + 1];
        if w == 0 || h == 0 {
            proof {
                assert(seen + seq![] =~= seen);
            }
            break;
        }
        assert(w * h <= 0xffff_ffff * 0xffff_ffff) by (nonlinear_arith)
            requires
                w <= 0xffff_ffff,
                h <= 0xffff_ffff,
        ;
        let count = w as u64 * h as u64;
        let left = (words.len() - idx - 2) as u64;
        if count > left {
            proof {
                assert(seen + seq![] =~= seen);
            }
            break;
        }
        let start = idx + 2;
        let rec = (w, h, start);
        let ghost old_seen = seen;
        let ghost old_best = best;
        proof {
            if old_seen.len() > 0 {
                lemma_best_index_in_range(old_seen, t);
            }
        }
        let replace = should_replace_best(best, w, h, target_size);
        if replace {
            best = Some(rec);
        }
        proof {
            assert(w * h >= 1) by (nonlinear_arith)
                requires
                    w >= 1,
                    h >= 1,
            ;
            let next = idx + 2 + w * h;
            assert(records(words@, idx as int) == seq![(w, h, start as int)] + records(words@, next));
            seen = old_seen.push((w, h, start as int));
            assert(old_seen + records(words@, idx as int) =~= seen + records(words@, next));
            assert(seen.drop_last() =~= old_seen);
            if old_seen.len() == 0 {
                assert(best_index(seen, t) == 0);
                assert(best == Some(rec));
            } else {
                let ob = old_best.unwrap();
                let bi = best_index(old_seen, t);
                assert(old_seen[bi] == (ob.0, ob.1, ob.2 as int));
                assert(replace == beats(w as int, h as int, ob.0 as int, ob.1 as int, t));
                if replace {
                    assert(best_index(seen, t) == seen.len() - 1);
                } else {
                    assert(best_index(seen, t) == bi);
                    assert(seen[bi] == old_seen[bi]);
                }
            }
        }
        idx = start + count as usize;
    }
    proof {
        if seen.len() > 0 {
            lemma_best_index_in_range(seen, t);
        }
    }
    best
}

/// Decodes an icon property (records of `width`, `height` and ARGB pixels),
/// picks the record nearest `target_size`, reduces it to ink and background and
/// rescales it to `target_size` x `target_size`. `None` if no record is whole.
pub fn decode_icon(bytes: &[u8], target_size: u16) -> (r: Option<BwIcon>)
    ensures
        match decoded(words_of(bytes@), target_size as int) {
            None => r is None,
            Some(d) => r matches Some(icon) && icon.width == target_size && icon.height
                == target_size && icon.data@ == d,
        },
{
    let words = bytes_to_words(bytes);
    match find_best_icon(&words, target_size) {
        None => None,
        Some((width, height, start)) => {
            proof {
                let recs = records(words@, 0);
                lemma_best_index_in_range(recs, target_size as int);
                lemma_records_in_bounds(words@, 0);
                let bi = best_index(recs, target_size as int);
                assert(recs[bi] == (width, height, start as int));
                assert(start + width * height <= words@.len());
            }
            proof {
                assert(width * height <= 0xffff_ffff * 0xffff_ffff) by (nonlinear_arith)
                    requires
                        width <= 0xffff_ffff,
                        height <= 0xffff_ffff,
                ;
            }
            let count = width as u64 * height as u64;
            let total = words.len();
            assert(start + count <= total);
            let end = start + count as usize;
            let bw = argb_to_bw(&words, start, end);
            let data = scale_pixels(&bw, width, height, target_size);
            Some(BwIcon { width: target_size, height: target_size, data })
        },
    }
}

/// The placeholder icon of side `size`, shown where a window has no usable icon.
pub fn create_generic_icon(size: u16) -> (r: BwIcon)
    ensures
        r.width == size,
        r.height == size,
        r.wf(),
        forall|x: int, y: int|
            0 <= x < size && 0 <= y < size ==> #[trigger] r.data@[y * size + x] == generic_pixel(
                size as int,
                x,
                y,
            ),
{
    let s = size as usize;
    let border: usize = 2;
    let titlebar_h = s / 5;
    let mut data: Vec<bool> = Vec::new();
    let mut y: usize = 0;
    while y < s
        invariant
            y <= s,
            s == size,
            border == 2,
            titlebar_h == s / 5,
            data@.len() == y * s,
            forall|i: int|
                0 <= i < data@.len() ==> data@[i] == generic_pixel(s as int, i % s as int, i / s as int),
        decreases s - y,
    {
        let mut x: usize = 0;
        while x < s
            invariant
                x <= s,
                y < s,
                s == size,
                border == 2,
                titlebar_h == s / 5,
                data@.len() == y * s + x,
                forall|i: int|
                    0 <= i < data@.len() ==> data@[i] == generic_pixel(
                        s as int,
                        i % s as int,
                        i / s as int,
                    ),
            decreases s - x,
        {
            let is_border = x < border || x + border >= s || y < border || y + border >= s;
            let is_titlebar = y < titlebar_h + border;
            let is_inner_border = x == border || x + border + 1 == s || y + border + 1 == s;
            proof {
                lemma_row_major(x as int, y as int, s as int);
            }
            data.push(is_border || is_titlebar || is_inner_border);
            x = x + 1;
        }
        assert(y * s + s == (y + 1) * s) by (nonlinear_arith);
        y = y + 1;
    }
    proof {
        assert(data@.len() == s * s);
        assert forall|x: int, y: int| 0 <= x < size && 0 <= y < size implies #[trigger] data@[y
            * size + x] == generic_pixel(size as int, x, y) by {
            lemma_row_major(x, y, s as int);
            assert(y * size + x < s * s) by (nonlinear_arith)
                requires
                    x < s,
                    y < s,
                    s == size,
            ;
        }
    }
    BwIcon { width: size, height: size, data }
}

} // verus!
