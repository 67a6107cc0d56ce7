//! Slicing of cached Sixel DCS strings into the bands that are visible.
//!
//! A Sixel DCS string is `ESC P [params] q [body] ESC \`.  The body starts
//! with an optional raster attribute `"Pan;Pad;Ph;Pv`, then colour
//! definitions `#Pc;Pu;Px;Py;Pz`, then pixel data split into bands of six
//! pixel rows by `-` (the Graphics New Line).

use vstd::prelude::*;

use crate::text::{chars_of, copy_range, find_char_from, push_char, push_chars};

verus! {

broadcast use vstd::string::group_string_axioms;

/// `c` is one of `0`..`9`.
pub open spec fn is_ascii_digit(c: char) -> bool {
    48 <= (c as u32) <= 57
}

/// `c` may appear in a numeric parameter list: a digit or `;`.
pub open spec fn is_param_char(c: char) -> bool {
    is_ascii_digit(c) || c == ';'
}

/// First position at or after `k` that does not hold a digit (or `b.len()`).
pub open spec fn digits_end(b: Seq<char>, k: int) -> int
    decreases b.len() - k,
{
    if 0 <= k < b.len() && is_ascii_digit(b[k]) {
        digits_end(b, k + 1)
    } else {
        k
    }
}

/// First position at or after `k` that holds neither a digit nor `;` (or `b.len()`).
pub open spec fn params_end(b: Seq<char>, k: int) -> int
    decreases b.len() - k,
{
    if 0 <= k < b.len() && is_param_char(b[k]) {
        params_end(b, k + 1)
    } else {
        k
    }
}

/// Both scans move forward, stop inside the sequence, and stop only on
/// a character they do not accept.
pub proof fn lemma_scan_bounds(b: Seq<char>, k: int)
    requires
        0 <= k <= b.len(),
    ensures
        k <= digits_end(b, k) <= b.len(),
        k <= params_end(b, k) <= b.len(),
        digits_end(b, k) < b.len() ==> !is_ascii_digit(b[digits_end(b, k)]),
        params_end(b, k) < b.len() ==> !is_param_char(b[params_end(b, k)]),
        forall|i: int| k <= i < digits_end(b, k) ==> is_ascii_digit(#[trigger] b[i]),
        forall|i: int| k <= i < params_end(b, k) ==> is_param_char(#[trigger] b[i]),
    decreases b.len() - k,
{
    if k < b.len() {
        lemma_scan_bounds(b, k + 1);
    }
}

/// Skips the colour definitions `#Pc;...` that start at `k`; stops at the
/// first `#` not followed by digits and `;` (a colour selection, which
/// belongs to the pixel data) or at any other character.
pub open spec fn skip_color_defs(b: Seq<char>, k: int) -> int
    decreases b.len() - k,
{
    if 0 <= k < b.len() && b[k] == '#' {
        let j = digits_end(b, k + 1);
        if j < b.len() && b[j] == ';' {
            proof {
                lemma_scan_bounds(b, k + 1);
                lemma_scan_bounds(b, j);
            }
            skip_color_defs(b, params_end(b, j))
        } else {
            k
        }
    } else {
        k
    }
}

/// End of the raster attribute `"digits;...` at the start of a body (0 if there is none).
pub open spec fn raster_end(b: Seq<char>) -> int {
    if b.len() > 0 && b[0] == '"' {
        params_end(b, 1)
    } else {
        0
    }
}

/// Where the preamble (raster attributes and colour definitions) of a Sixel
/// body ends and its pixel data begins.
pub open spec fn preamble_end(b: Seq<char>) -> int {
    skip_color_defs(b, raster_end(b))
}

/// The maximal run of non-`-` characters at the end of `s`.
pub open spec fn trailing_run(s: Seq<char>) -> Seq<char>
    decreases s.len(),
{
    if s.len() == 0 {
        seq![]
    } else if s.last() == '-' {
        seq![]
    } else {
        trailing_run(s.drop_last()).push(s.last())
    }
}

/// The non-empty runs of non-`-` characters of `s` that a `-` closes, in order.
pub open spec fn closed_runs(s: Seq<char>) -> Seq<Seq<char>>
    decreases s.len(),
{
    if s.len() == 0 {
        seq![]
    } else if s.last() == '-' {
        let r = trailing_run(s.drop_last());
        if r.len() > 0 {
            closed_runs(s.drop_last()).push(r)
        } else {
            closed_runs(s.drop_last())
        }
    } else {
        closed_runs(s.drop_last())
    }
}

/// The bands of a pixel-data section: the pieces between `-` separators,
/// empty pieces left out.
pub open spec fn bands_of(s: Seq<char>) -> Seq<Seq<char>> {
    let t = trailing_run(s);
    if t.len() > 0 {
        closed_runs(s).push(t)
    } else {
        closed_runs(s)
    }
}

/// The bands joined by `-`.
pub open spec fn join_dash(xs: Seq<Seq<char>>) -> Seq<char>
    decreases xs.len(),
{
    if xs.len() == 0 {
        seq![]
    } else if xs.len() == 1 {
        xs[0]
    } else {
        join_dash(xs.drop_last()) + seq!['-'] + xs.last()
    }
}

/// A preamble without its raster attribute (only its colour definitions).
pub open spec fn strip_raster(p: Seq<char>) -> Seq<char> {
    if p.len() > 0 && p[0] == '"' {
        p.subrange(params_end(p, 1), p.len() as int)
    } else {
        p
    }
}

/// A string terminator `ESC \` starts at `i`.
pub open spec fn st_at(s: Seq<char>, i: int) -> bool {
    0 <= i && i + 1 < s.len() && s[i] == '\x1b' && s[i + 1] == '\\'
}

/// Start of the last string terminator that begins before `k` (or -1).
pub open spec fn rfind_st(s: Seq<char>, k: int) -> int
    decreases k,
{
    if k <= 0 {
        -1
    } else if st_at(s, k - 1) {
        k - 1
    } else {
        rfind_st(s, k - 1)
    }
}

pub open spec fn min_nat(a: nat, b: nat) -> nat {
    if a <= b {
        a
    } else {
        b
    }
}

/// The DCS string `s` cut down to the bands that cover `visible` cell rows
/// starting `crop_top` cell rows down, each cell row being `cell_px_h`
/// pixels and each band 6 pixels (rounded down at both ends), with its
/// raster attribute removed; `None` when `s` has no `q`, no `ESC \` after it,
/// no band, or the cut is empty.
pub open spec fn spec_slice_sixel_bands(
    s: Seq<char>,
    cell_px_h: nat,
    crop_top: nat,
    visible: nat,
) -> Option<Seq<char>> {
    let q = find_char_from(s, 'q', 0);
    let st = rfind_st(s, s.len() as int);
    if q >= s.len() || st < 0 || q + 1 >= st {
        None
    } else {
        let header = s.subrange(0, q + 1);
        let body = s.subrange(q + 1, st);
        let pe = preamble_end(body);
        let bands = bands_of(body.subrange(pe, body.len() as int));
        let start = min_nat(crop_top * cell_px_h / 6, bands.len());
        let end = min_nat(start + visible * cell_px_h / 6, bands.len());
        if bands.len() == 0 || start >= end {
            None
        } else {
            Some(
                header + strip_raster(body.subrange(0, pe)) + join_dash(
                    bands.subrange(start as int, end as int),
                ) + seq!['\x1b', '\\'],
            )
        }
    }
}

pub open spec fn opt_view(o: Option<String>) -> Option<Seq<char>> {
    match o {
        Some(s) => Some(s@),
        None => None,
    }
}

fn is_digit_char(c: char) -> (r: bool)
    ensures
        r == is_ascii_digit(c),
{
    let u = c as u32;
    48 <= u && u <= 57
}

fn is_param(c: char) -> (r: bool)
    ensures
        r == is_param_char(c),
{
    is_digit_char(c) || c == ';'
}

/// Position of the preamble end in a body held as characters.
fn preamble_end_of(b: &Vec<char>) -> (r: usize)
    ensures
        r == preamble_end(b@),
        r <= b@.len(),
{
    let n = b.len();
    let mut i: usize = 0;
    if n > 0 && b[0] == '"' {
        i = 1;
        while i < n && is_param(b[i])
            invariant
                1 <= i <= n == b@.len(),
                params_end(b@, 1) == params_end(b@, i as int),
            decreases n - i,
        {
            i += 1;
        }
    }
    while i < n && b[i] == '#'
        invariant
            i <= n == b@.len(),
            skip_color_defs(b@, i as int) == preamble_end(b@),
        decreases n - i,
    {
        let mark = i;
        i += 1;
        while i < n && is_digit_char(b[i])
            invariant
                mark + 1 <= i <= n == b@.len(),
                digits_end(b@, mark + 1) == digits_end(b@, i as int),
            decreases n - i,
        {
            i += 1;
        }
        if i < n && b[i] == ';' {
            let j = i;
            while i < n && is_param(b[i])
                invariant
                    j <= i <= n == b@.len(),
                    params_end(b@, j as int) == params_end(b@, i as int),
                decreases n - i,
            {
                i += 1;
            }
        } else {
            return mark;
        }
    }
    i
}

/// Find where the preamble (raster attributes + colour definitions) ends
/// and the pixel data begins in a Sixel body.
///
/// Raster attributes: `"Pan;Pad;Ph;Pv`
/// Colour definitions: `#Pc;Pu;Px;Py;Pz` (semicolon after the colour number)
/// Colour selection (pixel data): `#Pc` followed by pixel data (no semicolon)
///
/// Everything before the returned position is ASCII, so it is both a
/// character and a byte offset.
pub fn find_preamble_end(body: &str) -> (r: usize)
    ensures
        r == preamble_end(body@),
        r <= body@.len(),
{
    let b = chars_of(body);
    preamble_end_of(&b)
}


proof fn lemma_u16_product(a: u16, b: u16)
    ensures
        (a as int) * (b as int) <= 0xFFFF * 0xFFFF,
        0 <= (a as int) * (b as int),
{
    assert((a as int) * (b as int) <= 0xFFFF * 0xFFFF) by (nonlinear_arith)
        requires
            a <= 0xFFFF,
            b <= 0xFFFF,
    ;
    assert(0 <= (a as int) * (b as int)) by (nonlinear_arith);
}

fn find_q(v: &Vec<char>) -> (r: usize)
    ensures
        r == find_char_from(v@, 'q', 0),
{
    let n = v.len();
    let mut i: usize = 0;
    while i < n && v[i] != 'q'
        invariant
            i <= n == v@.len(),
            find_char_from(v@, 'q', 0) == find_char_from(v@, 'q', i as int),
        decreases n - i,
    {
        i += 1;
    }
    i
}

/// Start of the last `ESC \` in `v`.
fn rfind_terminator(v: &Vec<char>) -> (r: Option<usize>)
    ensures
        match r {
            Some(i) => rfind_st(v@, v@.len() as int) == i as int,
            None => rfind_st(v@, v@.len() as int) == -1,
        },
        r matches Some(i) ==> i + 1 < v@.len(),
{
    let n = v.len();
    let mut k: usize = n;
    while k > 0
        invariant
            k <= n == v@.len(),
            rfind_st(v@, n as int) == rfind_st(v@, k as int),
        decreases k,
    {
        let i = k - 1;
        if i + 1 < n && v[i] == '\x1b' && v[i + 1] == '\\' {
            return Some(i);
        }
        k = i;
    }
    None
}

proof fn lemma_runs_step(p: Seq<char>, i: int)
    requires
        0 <= i < p.len(),
    ensures
        p.take(i + 1).drop_last() == p.take(i),
        p.take(i + 1).last() == p[i],
{
    assert(p.take(i + 1).drop_last() =~= p.take(i));
}

/// The bands of `p`, each as a range of positions in `p`.
fn band_ranges(p: &Vec<char>) -> (r: Vec<(usize, usize)>)
    ensures
        r@.len() == bands_of(p@).len(),
        forall|k: int|
            0 <= k < r@.len() ==> {
                &&& (#[trigger] r@[k]).0 < r@[k].1 <= p@.len()
                &&& p@.subrange(r@[k].0 as int, r@[k].1 as int) == bands_of(p@)[k]
            },
{
    let n = p.len();
    let mut r: Vec<(usize, usize)> = Vec::new();
    let mut seg: usize = 0;
    let mut i: usize = 0;
    while i < n
        invariant
            seg <= i <= n == p@.len(),
            trailing_run(p@.take(i as int)) == p@.subrange(seg as int, i as int),
            r@.len() == closed_runs(p@.take(i as int)).len(),
            forall|k: int|
                0 <= k < r@.len() ==> {
                    &&& (#[trigger] r@[k]).0 < r@[k].1 <= p@.len()
                    &&& p@.subrange(r@[k].0 as int, r@[k].1 as int) == closed_runs(
                        p@.take(i as int),
                    )[k]
                },
        decreases n - i,
    {
        proof {
            lemma_runs_step(p@, i as int);
        }
        let ghost prev = p@.take(i as int);
        let ghost cur = p@.take(i + 1);
        if p[i] == '-' {
            if seg < i {
                r.push((seg, i));
            }
            assert(trailing_run(cur) =~= p@.subrange((i + 1) as int, (i + 1) as int));
            seg = i + 1;
        } else {
            assert(p@.subrange(seg as int, (i + 1) as int) =~= p@.subrange(
                seg as int,
                i as int,
            ).push(p@[i as int]));
        }
        i += 1;
    }
    assert(p@.take(n as int) =~= p@);
    if seg < n {
        r.push((seg, n));
    }
    r
}

/// Slice a cached full-size Sixel DCS string to extract only the visible bands.
///
/// This is a string operation only: no image decoding or re-encoding.
/// Each Sixel band represents 6 pixel rows.  The bands that fall in the
/// visible cell range (floor division at both ends, so that the extra band
/// of a height rounded up to a multiple of 6 is clipped) are kept, the
/// raster attribute is dropped and the colour definitions are kept.
///
/// Returns `None` if the Sixel string cannot be parsed or the crop is empty.
pub fn slice_sixel_bands(
    full_sixel: &str,
    cell_px_h: u16,
    _full_height_cells: u16,
    crop_top_cells: u16,
    visible_height_cells: u16,
) -> (res: Option<String>)
    ensures
        opt_view(res) == spec_slice_sixel_bands(
            full_sixel@,
            cell_px_h as nat,
            crop_top_cells as nat,
            visible_height_cells as nat,
        ),
{
    let v = chars_of(full_sixel);
    let ghost s = v@;
    let q = find_q(&v);
    if q >= v.len() {
        return None;
    }
    let body_end = match rfind_terminator(&v) {
        Some(e) => e,
        None => return None,
    };
    let body_start = q + 1;
    if body_start >= body_end {
        return None;
    }
    let body = copy_range(&v, body_start, body_end);
    let pe = preamble_end_of(&body);
    let pixels = copy_range(&body, pe, body.len());
    let ranges = band_ranges(&pixels);
    let ghost bands = bands_of(pixels@);
    let total = ranges.len();
    if total == 0 {
        return None;
    }
    proof {
        lemma_u16_product(crop_top_cells, cell_px_h);
        lemma_u16_product(visible_height_cells, cell_px_h);
    }
    let skip_px = crop_top_cells as usize * cell_px_h as usize;
    let vis_px = visible_height_cells as usize * cell_px_h as usize;
    let skip_bands = skip_px / 6;
    let take_bands = vis_px / 6;
    let start = if skip_bands < total { skip_bands } else { total };
    let end = if start + take_bands < total { start + take_bands } else { total };
    if start >= end {
        return None;
    }
    let mut out = String::new();
    push_chars(&mut out, &v, 0, body_start);
    let ghost header = out@;
    let ghost pre = body@.subrange(0, pe as int);
    if pe > 0 && body[0] == '"' {
        let mut r: usize = 1;
        while r < pe && is_param(body[r])
            invariant
                1 <= r <= pe <= body@.len(),
                pre == body@.subrange(0, pe as int),
                params_end(pre, 1) == params_end(pre, r as int),
            decreases pe - r,
        {
            r += 1;
        }
        push_chars(&mut out, &body, r, pe);
        assert(body@.subrange(r as int, pe as int) =~= pre.subrange(r as int, pe as int));
    } else {
        push_chars(&mut out, &body, 0, pe);
    }
    let ghost prefix = out@;
    assert(prefix == header + strip_raster(pre));
    let mut k = start;
    while k < end
        invariant
            start <= k <= end <= total == ranges@.len() == bands.len(),
            start < end,
            bands == bands_of(pixels@),
            forall|j: int|
                0 <= j < ranges@.len() ==> {
                    &&& (#[trigger] ranges@[j]).0 < ranges@[j].1 <= pixels@.len()
                    &&& pixels@.subrange(ranges@[j].0 as int, ranges@[j].1 as int) == bands[j]
                },
            k == start ==> out@ == prefix,
            k > start ==> out@ == prefix + join_dash(bands.subrange(start as int, k as int)),
        decreases end - k,
    {
        let (a, b) = ranges[k];
        if k > start {
            push_char(&mut out, '-');
        }
        push_chars(&mut out, &pixels, a, b);
        proof {
            let xs = bands.subrange(start as int, k + 1);
            assert(xs.drop_last() =~= bands.subrange(start as int, k as int));
            if k == start {
                assert(xs.len() == 1);
            }
        }
        k += 1;
    }
    push_char(&mut out, '\x1b');
    push_char(&mut out, '\\');
    proof {
        assert(body@ == s.subrange(body_start as int, body_end as int));
    }
    Some(out)
}

/// A Sixel DCS string has a `q`, a later string terminator, and a body
/// between them.
pub open spec fn sixel_parses(s: Seq<char>) -> bool {
    let q = find_char_from(s, 'q', 0);
    let st = rfind_st(s, s.len() as int);
    q < s.len() && st >= 0 && q + 1 < st
}

/// The body of a Sixel DCS string: what lies between its first `q` and
/// its last string terminator.
pub open spec fn sixel_body(s: Seq<char>) -> Seq<char> {
    s.subrange(find_char_from(s, 'q', 0) + 1, rfind_st(s, s.len() as int))
}

/// The bands of the pixel data of a Sixel DCS string, top band first.
pub open spec fn sixel_bands(s: Seq<char>) -> Seq<Seq<char>> {
    let body = sixel_body(s);
    bands_of(body.subrange(preamble_end(body), body.len() as int))
}

/// What a slice starts with: the DCS header up to and including `q`, then
/// the colour definitions (the raster attribute dropped).
pub open spec fn sixel_prefix(s: Seq<char>) -> Seq<char> {
    let body = sixel_body(s);
    s.subrange(0, find_char_from(s, 'q', 0) + 1) + strip_raster(
        body.subrange(0, preamble_end(body)),
    )
}

/// Slicing keeps the bands that the visible cell rows cover.  Band `k`
/// holds pixel rows `6k` to `6k + 5`; with `top` cell rows of `h` pixels
/// scrolled off and `visible` cell rows shown, the result holds the band
/// that contains pixel row `top * h` and the bands after it, as many as
/// fit whole into `visible * h` pixel rows (fewer at the end of the
/// image), joined by `-`, after the header and colour definitions and
/// before the terminator.  There is a result exactly when the string
/// parses, that first band exists and at least one band is kept.
pub proof fn lemma_slice_keeps_visible_bands(s: Seq<char>, h: nat, top: nat, visible: nat)
    ensures
        ({
            let bands = sixel_bands(s);
            let n = bands.len() as int;
            let res = spec_slice_sixel_bands(s, h, top, visible);
            &&& (res is Some <==> sixel_parses(s) && top * h < 6 * n && visible * h >= 6)
            &&& (res matches Some(r) ==> exists|first: int, count: int|
                {
                    &&& 0 <= first && 0 < count && first + count <= n
                    &&& 6 * first <= top * h < 6 * first + 6
                    &&& 6 * count <= visible * h
                    &&& (first + count < n ==> visible * h < 6 * count + 6)
                    &&& r == sixel_prefix(s) + join_dash(#[trigger] bands.subrange(first, first + count))
                        + seq!['\x1b', '\\']
                })
        }),
{
    let bands = sixel_bands(s);
    let n = bands.len() as int;
    let a = top * h;
    let b = visible * h;
    assert(0 <= a && 0 <= b) by (nonlinear_arith);
    if sixel_parses(s) {
        let start = min_nat(a / 6, bands.len());
        let end = min_nat(start + b / 6, bands.len());
        if n > 0 && start < end {
            let first = start as int;
            let count = end - start;
            assert(6 * first <= a < 6 * first + 6);
            assert(bands.subrange(first, first + count) == bands.subrange(start as int, end as int));
        }
    }
}

/// Dropping the raster attribute removes exactly the `"` and the digits
/// and `;` after it, and nothing from a preamble that has none.
pub proof fn lemma_strip_raster_drops_only_raster(p: Seq<char>)
    ensures
        !(p.len() > 0 && p[0] == '"') ==> strip_raster(p) == p,
        p.len() > 0 && p[0] == '"' ==> exists|cut: int|
            {
                &&& 1 <= cut <= p.len()
                &&& strip_raster(p) == #[trigger] p.subrange(cut, p.len() as int)
                &&& forall|i: int| 1 <= i < cut ==> is_param_char(#[trigger] p[i])
                &&& (cut < p.len() ==> !is_param_char(p[cut]))
            },
{
    if p.len() > 0 && p[0] == '"' {
        lemma_scan_bounds(p, 1);
        let cut = params_end(p, 1);
        assert(strip_raster(p) == p.subrange(cut, p.len() as int));
    }
}

/// Everything before the end of the preamble is part of a raster
/// attribute or of colour definitions: `"`, `#`, digits and `;` only.
pub proof fn lemma_preamble_chars(b: Seq<char>)
    ensures
        0 <= preamble_end(b) <= b.len(),
        forall|i: int|
            0 <= i < preamble_end(b) ==> #[trigger] b[i] == '"' || b[i] == '#' || is_param_char(b[i]),
{
    lemma_scan_bounds(b, 0);
    if b.len() > 0 && b[0] == '"' {
        lemma_scan_bounds(b, 1);
    }
    let r = raster_end(b);
    assert(forall|i: int| 0 <= i < r ==> #[trigger] b[i] == '"' || b[i] == '#' || is_param_char(b[i]));
    lemma_color_defs_chars(b, r);
}

/// Skipping colour definitions passes over `#`, digits and `;` only.
proof fn lemma_color_defs_chars(b: Seq<char>, k: int)
    requires
        0 <= k <= b.len(),
    ensures
        k <= skip_color_defs(b, k) <= b.len(),
        forall|i: int|
            k <= i < skip_color_defs(b, k) ==> #[trigger] b[i] == '#' || is_param_char(b[i]),
    decreases b.len() - k,
{
    if k < b.len() && b[k] == '#' {
        lemma_scan_bounds(b, k + 1);
        let j = digits_end(b, k + 1);
        if j < b.len() && b[j] == ';' {
            lemma_scan_bounds(b, j);
            let e = params_end(b, j);
            lemma_color_defs_chars(b, e);
            assert forall|i: int| k <= i < skip_color_defs(b, k) implies #[trigger] b[i] == '#'
                || is_param_char(b[i]) by {
                if i == k {
                } else if i < j {
                    assert(is_ascii_digit(b[i]));
                } else if i < e {
                    assert(is_param_char(b[i]));
                }
            }
        }
    }
}

} // verus!
