//! Terminal image rendering decisions: protocol choice, cell geometry,
//! Kitty Unicode placeholders, vertical crops and halfblock colours.

use vstd::prelude::*;

use crate::codec::{
    base64_decode, base64_decoded, base64_encode, base64_encoded, crop_to_png, cropped_png,
};
use crate::sixel::opt_view;
use crate::text::{push_char, str_equals};

verus! {

broadcast use vstd::string::group_string_axioms;

/// Terminal image display protocol.
#[derive(Debug, Clone, Copy, PartialEq, Eq)]
pub enum ImageProtocol {
    /// Kitty Graphics Protocol (Kitty, Ghostty)
    Kitty,
    /// iTerm2 Inline Images Protocol (iTerm2, WezTerm)
    Iterm2,
    /// Sixel (Windows Terminal, foot, mlterm, xterm)
    Sixel,
    /// Unicode halfblock fallback (universal)
    Halfblock,
}

pub open spec fn ghostty_name() -> Seq<char> {
    seq!['g', 'h', 'o', 's', 't', 't', 'y']
}

pub open spec fn iterm_name() -> Seq<char> {
    seq!['i', 'T', 'e', 'r', 'm', '.', 'a', 'p', 'p']
}

pub open spec fn wezterm_name() -> Seq<char> {
    seq!['W', 'e', 'z', 'T', 'e', 'r', 'm']
}

/// The protocol chosen from what the environment shows: whether
/// `KITTY_WINDOW_ID` is set, the value of `TERM_PROGRAM` (if set), and
/// whether `WT_SESSION` is set.
pub open spec fn spec_protocol(
    kitty_window_id: bool,
    term_program: Option<Seq<char>>,
    wt_session: bool,
) -> ImageProtocol {
    if kitty_window_id {
        ImageProtocol::Kitty
    } else if term_program == Some(ghostty_name()) {
        ImageProtocol::Kitty
    } else if term_program == Some(iterm_name()) || term_program == Some(wezterm_name()) {
        ImageProtocol::Iterm2
    } else if wt_session {
        ImageProtocol::Sixel
    } else {
        ImageProtocol::Halfblock
    }
}

/// Choose the best available image protocol from the environment
/// variables `KITTY_WINDOW_ID` (set or not), `TERM_PROGRAM` and
/// `WT_SESSION` (set or not).
pub fn select_protocol(
    kitty_window_id: bool,
    term_program: Option<&str>,
    wt_session: bool,
) -> (p: ImageProtocol)
    ensures
        p == spec_protocol(
            kitty_window_id,
            match term_program {
                Some(t) => Some(t@),
                None => None,
            },
            wt_session,
        ),
{
    proof {
        reveal_strlit("ghostty");
        reveal_strlit("iTerm.app");
        reveal_strlit("WezTerm");
    }
    if kitty_window_id {
        return ImageProtocol::Kitty;
    }
    if let Some(term) = term_program {
        if str_equals(term, "ghostty") {
            assert("ghostty"@ =~= ghostty_name());
            return ImageProtocol::Kitty;
        }
        if str_equals(term, "iTerm.app") || str_equals(term, "WezTerm") {
            assert("iTerm.app"@ =~= iterm_name());
            assert("WezTerm"@ =~= wezterm_name());
            return ImageProtocol::Iterm2;
        }
        assert("ghostty"@ =~= ghostty_name());
        assert("iTerm.app"@ =~= iterm_name());
        assert("WezTerm"@ =~= wezterm_name());
    }
    if wt_session {
        return ImageProtocol::Sixel;
    }
    ImageProtocol::Halfblock
}

/// Terminal size in cells and in pixels, as the terminal reports it.
#[derive(Debug, Clone, Copy, PartialEq, Eq)]
pub struct WindowSize {
    pub rows: u16,
    pub columns: u16,
    pub width: u16,
    pub height: u16,
}

/// Pixel dimensions of a single terminal cell: the reported pixel size
/// divided by the cell grid when every figure is positive; otherwise
/// 10x20 under Windows Terminal (`WT_SESSION` set) and 8x16 elsewhere.
pub fn cell_pixel_size(window: Option<WindowSize>, wt_session: bool) -> (r: (u16, u16))
    ensures
        match window {
            Some(ws) if ws.width > 0 && ws.height > 0 && ws.columns > 0 && ws.rows > 0 => r == (
                (ws.width / ws.columns) as u16,
                (ws.height / ws.rows) as u16,
            ),
            _ => r == (if wt_session {
                (10u16, 20u16)
            } else {
                (8u16, 16u16)
            }),
        },
{
    if let Some(ws) = window {
        if ws.width > 0 && ws.height > 0 && ws.columns > 0 && ws.rows > 0 {
            return (ws.width / ws.columns, ws.height / ws.rows);
        }
    }
    if wt_session {
        (10, 20)
    } else {
        (8, 16)
    }
}

/// The Kitty Unicode placeholder character U+10EEEE.
pub const PLACEHOLDER: char = '\u{10EEEE}';

/// 256 combining diacritics that encode row/column values 0-255 per the
/// Kitty specification (rowcolumn-diacritics.txt), in increasing order.
pub const DIACRITICS: [char; 256] = [
    '\u{0305}', '\u{030D}', '\u{030E}', '\u{0310}', '\u{0312}', '\u{033D}', '\u{033E}', '\u{033F}',
    '\u{0346}', '\u{034A}', '\u{034B}', '\u{034C}', '\u{0350}', '\u{0351}', '\u{0352}', '\u{0357}',
    '\u{035B}', '\u{0363}', '\u{0364}', '\u{0365}', '\u{0366}', '\u{0367}', '\u{0368}', '\u{0369}',
    '\u{036A}', '\u{036B}', '\u{036C}', '\u{036D}', '\u{036E}', '\u{036F}', '\u{0483}', '\u{0484}',
    '\u{0485}', '\u{0486}', '\u{0487}', '\u{0592}', '\u{0593}', '\u{0594}', '\u{0595}', '\u{0597}',
    '\u{0598}', '\u{0599}', '\u{059C}', '\u{059D}', '\u{059E}', '\u{059F}', '\u{05A0}', '\u{05A1}',
    '\u{05A8}', '\u{05A9}', '\u{05AB}', '\u{05AC}', '\u{05AF}', '\u{05C4}', '\u{0610}', '\u{0611}',
    '\u{0612}', '\u{0613}', '\u{0614}', '\u{0615}', '\u{0616}', '\u{0617}', '\u{0657}', '\u{0658}',
    '\u{0659}', '\u{065A}', '\u{065B}', '\u{065D}', '\u{065E}', '\u{06D6}', '\u{06D7}', '\u{06D8}',
    '\u{06D9}', '\u{06DA}', '\u{06DB}', '\u{06DC}', '\u{06DF}', '\u{06E0}', '\u{06E1}', '\u{06E2}',
    '\u{06E4}', '\u{06E7}', '\u{06E8}', '\u{06EB}', '\u{06EC}', '\u{0730}', '\u{0732}', '\u{0733}',
    '\u{0735}', '\u{0736}', '\u{073A}', '\u{073D}', '\u{073F}', '\u{0740}', '\u{0741}', '\u{0743}',
    '\u{0745}', '\u{0747}', '\u{0749}', '\u{074A}', '\u{07EB}', '\u{07EC}', '\u{07ED}', '\u{07EE}',
    '\u{07EF}', '\u{07F0}', '\u{07F1}', '\u{07F3}', '\u{0816}', '\u{0817}', '\u{0818}', '\u{0819}',
    '\u{081B}', '\u{081C}', '\u{081D}', '\u{081E}', '\u{081F}', '\u{0820}', '\u{0821}', '\u{0822}',
    '\u{0823}', '\u{0825}', '\u{0826}', '\u{0827}', '\u{0829}', '\u{082A}', '\u{082B}', '\u{082C}',
    '\u{082D}', '\u{0951}', '\u{0953}', '\u{0954}', '\u{0F82}', '\u{0F83}', '\u{0F86}', '\u{0F87}',
    '\u{135D}', '\u{135E}', '\u{135F}', '\u{17DD}', '\u{193A}', '\u{1A17}', '\u{1A75}', '\u{1A76}',
    '\u{1A77}', '\u{1A78}', '\u{1A79}', '\u{1A7A}', '\u{1A7B}', '\u{1A7C}', '\u{1B6B}', '\u{1B6D}',
    '\u{1B6E}', '\u{1B6F}', '\u{1B70}', '\u{1B71}', '\u{1B72}', '\u{1B73}', '\u{1CD0}', '\u{1CD1}',
    '\u{1CD2}', '\u{1CDA}', '\u{1CDB}', '\u{1CE0}', '\u{1DC0}', '\u{1DC1}', '\u{1DC3}', '\u{1DC4}',
    '\u{1DC5}', '\u{1DC6}', '\u{1DC7}', '\u{1DC8}', '\u{1DC9}', '\u{1DCB}', '\u{1DCC}', '\u{1DD1}',
    '\u{1DD2}', '\u{1DD3}', '\u{1DD4}', '\u{1DD5}', '\u{1DD6}', '\u{1DD7}', '\u{1DD8}', '\u{1DD9}',
    '\u{1DDA}', '\u{1DDB}', '\u{1DDC}', '\u{1DDD}', '\u{1DDE}', '\u{1DDF}', '\u{1DE0}', '\u{1DE1}',
    '\u{1DE2}', '\u{1DE3}', '\u{1DE4}', '\u{1DE5}', '\u{1DE6}', '\u{1DFE}', '\u{20D0}', '\u{20D1}',
    '\u{20D4}', '\u{20D5}', '\u{20D6}', '\u{20D7}', '\u{20DB}', '\u{20DC}', '\u{20E1}', '\u{20E7}',
    '\u{20E9}', '\u{20F0}', '\u{2CEF}', '\u{2CF0}', '\u{2CF1}', '\u{2DE0}', '\u{2DE1}', '\u{2DE2}',
    '\u{2DE3}', '\u{2DE4}', '\u{2DE5}', '\u{2DE6}', '\u{2DE7}', '\u{2DE8}', '\u{2DE9}', '\u{2DEA}',
    '\u{2DEB}', '\u{2DEC}', '\u{2DED}', '\u{2DEE}', '\u{2DEF}', '\u{2DF0}', '\u{2DF1}', '\u{2DF2}',
    '\u{2DF3}', '\u{2DF4}', '\u{2DF5}', '\u{2DF6}', '\u{2DF7}', '\u{2DF8}', '\u{2DF9}', '\u{2DFA}',
    '\u{2DFB}', '\u{2DFC}', '\u{2DFD}', '\u{2DFE}', '\u{2DFF}', '\u{A66F}', '\u{A67C}', '\u{A67D}',
    '\u{A6F0}', '\u{A6F1}', '\u{A8E0}', '\u{A8E1}', '\u{A8E2}', '\u{A8E3}', '\u{A8E4}', '\u{A8E5}',
];

/// The diacritic that encodes row or column `i` (values above 255 use 255).
pub open spec fn diacritic(i: nat) -> char {
    DIACRITICS@[if i <= 255 { i as int } else { 255 }]
}

/// Return the placeholder symbol for a specific (row, col) image cell.
/// Each cell is U+10EEEE + row diacritic + column diacritic.
pub fn placeholder_symbol(row: usize, col: usize) -> (s: String)
    ensures
        s@ == seq![PLACEHOLDER, diacritic(row as nat), diacritic(col as nat)],
{
    let r = if row < 255 { row } else { 255 };
    let c = if col < 255 { col } else { 255 };
    let mut s = String::new();
    push_char(&mut s, PLACEHOLDER);
    push_char(&mut s, DIACRITICS[r]);
    push_char(&mut s, DIACRITICS[c]);
    s
}

/// Each diacritic is below the next one.
proof fn lemma_diacritics_adjacent()
    ensures
        forall|i: int| 0 <= i < 255 ==> (#[trigger] DIACRITICS@[i] as u32) < (DIACRITICS@[i + 1] as u32),
{
}

/// A sequence whose neighbours increase is increasing.
proof fn lemma_increasing_from(s: Seq<char>, i: int, j: int)
    requires
        0 <= i < j < s.len(),
        forall|k: int| 0 <= k < s.len() - 1 ==> (#[trigger] s[k] as u32) < (s[k + 1] as u32),
    ensures
        (s[i] as u32) < (s[j] as u32),
    decreases j - i,
{
    assert((s[j - 1] as u32) < (s[j - 1 + 1] as u32));
    if i < j - 1 {
        lemma_increasing_from(s, i, j - 1);
    }
}

/// Distinct values 0..=255 are encoded by distinct diacritics.
pub proof fn lemma_diacritic_injective(a: nat, b: nat)
    requires
        a <= 255,
        b <= 255,
        diacritic(a) == diacritic(b),
    ensures
        a == b,
{
    lemma_diacritics_adjacent();
    let d = DIACRITICS@;
    assert(d.len() == 256);
    if a < b {
        lemma_increasing_from(d, a as int, b as int);
    } else if b < a {
        lemma_increasing_from(d, b as int, a as int);
    }
}

/// Cells of the 256x256 grid that Kitty placeholders can address get
/// pairwise distinct placeholder symbols: the symbol determines row and column.
pub proof fn lemma_placeholder_injective(r1: nat, c1: nat, r2: nat, c2: nat)
    requires
        r1 <= 255,
        c1 <= 255,
        r2 <= 255,
        c2 <= 255,
        seq![PLACEHOLDER, diacritic(r1), diacritic(c1)] == seq![PLACEHOLDER, diacritic(r2), diacritic(c2)],
    ensures
        r1 == r2,
        c1 == c2,
{
    assert(seq![PLACEHOLDER, diacritic(r1), diacritic(c1)][1] == diacritic(r1));
    assert(seq![PLACEHOLDER, diacritic(r2), diacritic(c2)][1] == diacritic(r2));
    assert(seq![PLACEHOLDER, diacritic(r1), diacritic(c1)][2] == diacritic(c1));
    assert(seq![PLACEHOLDER, diacritic(r2), diacritic(c2)][2] == diacritic(c2));
    lemma_diacritic_injective(r1, r2);
    lemma_diacritic_injective(c1, c2);
}

/// The red, green and blue bytes that encode a Kitty image ID as a
/// foreground colour: bits 16-23, 8-15 and 0-7 of the ID.
pub fn kitty_id_rgb(image_id: u32) -> (rgb: (u8, u8, u8))
    ensures
        rgb.0 == (image_id / 0x10000) % 0x100,
        rgb.1 == (image_id / 0x100) % 0x100,
        rgb.2 == image_id % 0x100,
        rgb.0 * 0x10000 + rgb.1 * 0x100 + rgb.2 == image_id % 0x1000000,
{
    let r = ((image_id >> 16) & 0xFF) as u8;
    let g = ((image_id >> 8) & 0xFF) as u8;
    let b = (image_id & 0xFF) as u8;
    assert(((image_id >> 16) & 0xFF) == (image_id / 0x10000) % 0x100) by (bit_vector);
    assert(((image_id >> 8) & 0xFF) == (image_id / 0x100) % 0x100) by (bit_vector);
    assert((image_id & 0xFF) == image_id % 0x100) by (bit_vector);
    assert(((image_id >> 16) & 0xFF) * 0x10000 + ((image_id >> 8) & 0xFF) * 0x100 + (image_id & 0xFF)
        == image_id % 0x1000000) by (bit_vector);
    (r, g, b)
}


/// The pixel rows `(y, height)` of the visible vertical slice of an image
/// `px_h` pixels tall that spans `full` cell rows, when `crop_top` cell rows
/// are scrolled off and `visible` cell rows show: proportional, at least
/// one row tall, and never past the bottom of the image.  With `full == 0`
/// the whole image is kept.
pub open spec fn spec_crop_rows(px_h: nat, full: nat, crop_top: nat, visible: nat) -> (nat, nat) {
    let y = if full > 0 { crop_top * px_h / full } else { 0 };
    let h = if full > 0 {
        let v = visible * px_h / full;
        if v >= 1 { v } else { 1 }
    } else {
        px_h
    };
    let room: nat = if px_h >= y { (px_h - y) as nat } else { 0 };
    (y, if h <= room { h } else { room })
}

/// The slice never reaches past the bottom of the image, and it is at
/// least one row tall whenever it starts inside the image.
pub proof fn lemma_crop_inside(px_h: nat, full: nat, crop_top: nat, visible: nat)
    ensures
        ({
            let (y, h) = spec_crop_rows(px_h, full, crop_top, visible);
            &&& y < px_h ==> y + h <= px_h && h >= 1
            &&& y >= px_h ==> h == 0
        }),
{
}

/// The crop follows the scroll position proportionally: the first row is
/// the pixel row where cell row `crop_top` begins (rounded down), the
/// height is that of the visible cell rows (rounded down, at least one
/// row, cut at the bottom); showing every cell row from the top keeps the
/// whole image.
pub proof fn lemma_crop_rows_proportional(px_h: nat, full: nat, crop_top: nat, visible: nat)
    requires
        full > 0,
    ensures
        ({
            let (y, h) = spec_crop_rows(px_h, full, crop_top, visible);
            &&& y * full <= crop_top * px_h < y * full + full
            &&& (y < px_h && h < px_h - y ==> (h == 1 || h * full <= visible * px_h < h * full + full))
            &&& (crop_top == 0 && visible == full ==> y == 0 && h == px_h)
        }),
{
    let y = crop_top * px_h / full;
    let v = visible * px_h / full;
    assert(y * full <= crop_top * px_h < y * full + full) by (nonlinear_arith)
        requires
            full > 0,
            y == crop_top * px_h / full,
    ;
    assert(v * full <= visible * px_h < v * full + full) by (nonlinear_arith)
        requires
            full > 0,
            v == visible * px_h / full,
    ;
    if crop_top == 0 && visible == full {
        assert(crop_top * px_h == 0);
        assert(y == 0);
        assert(v == px_h) by (nonlinear_arith)
            requires
                full > 0,
                v == visible * px_h / full,
                visible == full,
        ;
    }
}

/// The environment decides the protocol in a fixed order: a Kitty window
/// is Kitty whatever else is set; otherwise Ghostty is Kitty, iTerm2 and
/// WezTerm are iTerm2; otherwise Windows Terminal is Sixel; otherwise
/// halfblocks.  Any other `TERM_PROGRAM` counts as none.
pub proof fn lemma_protocol_order(term: Option<Seq<char>>, wt: bool, other: Seq<char>)
    requires
        other != ghostty_name() && other != iterm_name() && other != wezterm_name(),
    ensures
        spec_protocol(true, term, wt) == ImageProtocol::Kitty,
        spec_protocol(false, Some(ghostty_name()), wt) == ImageProtocol::Kitty,
        spec_protocol(false, Some(iterm_name()), wt) == ImageProtocol::Iterm2,
        spec_protocol(false, Some(wezterm_name()), wt) == ImageProtocol::Iterm2,
        spec_protocol(false, Some(other), wt) == spec_protocol(false, None, wt),
        spec_protocol(false, None, true) == ImageProtocol::Sixel,
        spec_protocol(false, None, false) == ImageProtocol::Halfblock,
{
    assert(ghostty_name() != iterm_name() && ghostty_name() != wezterm_name()) by {
        assert(ghostty_name()[0] != iterm_name()[0]);
        assert(ghostty_name()[0] != wezterm_name()[0]);
    }
}

/// Pixel rows of the visible slice; see [`spec_crop_rows`].
pub fn crop_rows(px_h: u32, full_height_cells: u16, crop_top_cells: u16, visible_height_cells: u16) -> (r: (u32, u32))
    requires
        full_height_cells > 0 ==> crop_top_cells * px_h <= u32::MAX,
        full_height_cells > 0 ==> visible_height_cells * px_h <= u32::MAX,
    ensures
        (r.0 as nat, r.1 as nat) == spec_crop_rows(
            px_h as nat,
            full_height_cells as nat,
            crop_top_cells as nat,
            visible_height_cells as nat,
        ),
{
    let y_px = if full_height_cells > 0 {
        crop_top_cells as u32 * px_h / full_height_cells as u32
    } else {
        0
    };
    let h_px = if full_height_cells > 0 {
        let v = visible_height_cells as u32 * px_h / full_height_cells as u32;
        if v >= 1 { v } else { 1 }
    } else {
        px_h
    };
    let room = px_h.saturating_sub(y_px);
    let h_px = if h_px <= room { h_px } else { room };
    (y_px, h_px)
}

/// Base64 text of `n` bytes has a length that fits in `usize`.
pub open spec fn base64_fits(n: nat) -> bool {
    n / 3 * 4 + 4 <= usize::MAX
}

/// The Base64 text of a PNG, `None` when its length would not fit in `usize`.
pub open spec fn spec_png_base64(png: Seq<u8>) -> Option<Seq<char>> {
    if base64_fits(png.len()) {
        Some(base64_encoded(png))
    } else {
        None
    }
}

/// Base64-encode PNG bytes (standard alphabet, padded); `None` when the
/// text would be too long for a `usize` length.
pub fn png_to_base64(png: &[u8]) -> (r: Option<String>)
    ensures
        opt_view(r) == spec_png_base64(png@),
{
    let n = png.len();
    if n / 3 > (usize::MAX - 4) / 4 {
        assert(!base64_fits(n as nat)) by (nonlinear_arith)
            requires
                n / 3 > (usize::MAX - 4) / 4,
        ;
        return None;
    }
    assert(base64_fits(n as nat)) by (nonlinear_arith)
        requires
            n / 3 <= (usize::MAX - 4) / 4,
    ;
    Some(base64_encode(png))
}

/// Decode standard, padded Base64 text (a cached image); `None` where the
/// text is not Base64.
pub fn decode_base64(text: &str) -> (r: Option<Vec<u8>>)
    ensures
        match r {
            Some(v) => base64_decoded(text@) == Some(v@),
            None => base64_decoded(text@) is None,
        },
{
    base64_decode(text)
}

/// The Base64 PNG of the visible slice of the Base64 image `b64`: decoded,
/// cut to the pixel rows of [`spec_crop_rows`] at full width, re-encoded as
/// PNG and as Base64; `None` when the text is not Base64, the image crate
/// cannot load the bytes or encode the crop, or the text would be too long.
pub open spec fn spec_crop_png_vertical(
    b64: Seq<char>,
    px_h: u32,
    full: u16,
    crop_top: u16,
    visible: u16,
) -> Option<Seq<char>> {
    match base64_decoded(b64) {
        None => None,
        Some(bytes) => {
            let rows = spec_crop_rows(px_h as nat, full as nat, crop_top as nat, visible as nat);
            match cropped_png(bytes, rows.0 as u32, rows.1 as u32) {
                None => None,
                Some(png) => spec_png_base64(png),
            }
        },
    }
}

/// Crop and re-encode a cached full-size PNG for partial display.
///
/// Given the Base64-encoded full image and its pixel height, returns a new
/// Base64 PNG cropped to the visible vertical slice (full width, rows from
/// [`crop_rows`]).  Used for iTerm2, which has no source-crop parameter.
/// `None` when the text is not Base64, the bytes are not an image, or the
/// PNG encoder fails.  (A PNG too long for its Base64 text to have a
/// `usize` length also gives `None`.)
pub fn crop_png_vertical(
    b64_full: &str,
    px_h: u32,
    full_height_cells: u16,
    crop_top_cells: u16,
    visible_height_cells: u16,
) -> (res: Option<String>)
    requires
        full_height_cells > 0 ==> crop_top_cells * px_h <= u32::MAX,
        full_height_cells > 0 ==> visible_height_cells * px_h <= u32::MAX,
    ensures
        opt_view(res) == spec_crop_png_vertical(
            b64_full@,
            px_h,
            full_height_cells,
            crop_top_cells,
            visible_height_cells,
        ),
{
    let bytes = match base64_decode(b64_full) {
        Some(b) => b,
        None => return None,
    };
    let (y_px, h_px) = crop_rows(px_h, full_height_cells, crop_top_cells, visible_height_cells);
    let png = match crop_to_png(bytes.as_slice(), y_px, h_px) {
        Some(p) => p,
        None => return None,
    };
    png_to_base64(png.as_slice())
}

/// A terminal colour for one half of a cell: the terminal default, or RGB.
#[derive(Debug, Clone, Copy, PartialEq, Eq)]
pub enum CellColor {
    Reset,
    Rgb(u8, u8, u8),
}

/// One halfblock cell: the upper pixel becomes the foreground of `▀`, the
/// lower pixel its background.
#[derive(Debug, Clone, Copy, PartialEq, Eq)]
pub struct HalfBlock {
    pub top: CellColor,
    pub bottom: CellColor,
}

/// The colour of pixel (x, y) of an RGBA buffer `w` pixels wide: the
/// default colour when its alpha is below 128, else its RGB.
pub open spec fn pixel_color(rgba: Seq<u8>, w: nat, x: nat, y: nat) -> CellColor {
    let i = ((y * w + x) * 4) as int;
    if rgba[i + 3] < 128 {
        CellColor::Reset
    } else {
        CellColor::Rgb(rgba[i], rgba[i + 1], rgba[i + 2])
    }
}

/// The halfblock cell for column `x` of cell row `row` of a `w`x`h` image.
pub open spec fn spec_half_block(rgba: Seq<u8>, w: nat, h: nat, x: nat, row: nat) -> HalfBlock {
    HalfBlock {
        top: pixel_color(rgba, w, x, 2 * row),
        bottom: if 2 * row + 1 < h {
            pixel_color(rgba, w, x, 2 * row + 1)
        } else {
            CellColor::Reset
        },
    }
}

proof fn lemma_pixel_index(w: nat, h: nat, x: nat, y: nat)
    requires
        x < w,
        y < h,
    ensures
        (y * w + x) * 4 + 3 < w * h * 4,
        y * w <= y * w + x,
        0 <= y * w,
{
    assert(0 <= y * w) by (nonlinear_arith);
    assert(y * w + x < w * h) by (nonlinear_arith)
        requires
            x < w,
            y < h,
    ;
}

fn pixel_at(rgba: &[u8], width: u32, height: u32, x: u32, y: u32) -> (c: CellColor)
    requires
        rgba@.len() == width * height * 4,
        x < width,
        y < height,
    ensures
        c == pixel_color(rgba@, width as nat, x as nat, y as nat),
{
    proof {
        lemma_pixel_index(width as nat, height as nat, x as nat, y as nat);
    }
    let n = rgba.len();
    assert(n == width * height * 4);
    let i = ((y as usize) * (width as usize) + (x as usize)) * 4;
    if rgba[i + 3] < 128 {
        CellColor::Reset
    } else {
        CellColor::Rgb(rgba[i], rgba[i + 1], rgba[i + 2])
    }
}

/// The halfblock approximation of an RGBA image `width` x `height`: one row
/// of cells per pair of pixel rows (the last row of an odd-height image has
/// the default colour below), one cell per pixel column.
pub fn halfblock_cells(rgba: &[u8], width: u32, height: u32) -> (rows: Vec<Vec<HalfBlock>>)
    requires
        rgba@.len() == width * height * 4,
    ensures
        rows@.len() == (height as nat + 1) / 2,
        forall|r: int|
            0 <= r < rows@.len() ==> (#[trigger] rows@[r])@.len() == width,
        forall|r: int, x: int|
            0 <= r < rows@.len() && 0 <= x < width ==> #[trigger] rows@[r]@[x] == spec_half_block(
                rgba@,
                width as nat,
                height as nat,
                x as nat,
                r as nat,
            ),
{
    let row_pairs = height / 2 + height % 2;
    let mut rows: Vec<Vec<HalfBlock>> = Vec::new();
    let mut row: u32 = 0;
    while row < row_pairs
        invariant
            rgba@.len() == width * height * 4,
            row_pairs as nat == (height as nat + 1) / 2,
            row <= row_pairs,
            rows@.len() == row,
            forall|r: int| 0 <= r < rows@.len() ==> (#[trigger] rows@[r])@.len() == width,
            forall|r: int, x: int|
                0 <= r < rows@.len() && 0 <= x < width ==> #[trigger] rows@[r]@[x]
                    == spec_half_block(rgba@, width as nat, height as nat, x as nat, r as nat),
        decreases row_pairs - row,
    {
        let y_top = row * 2;
        let mut cells: Vec<HalfBlock> = Vec::new();
        let mut x: u32 = 0;
        while x < width
            invariant
                rgba@.len() == width * height * 4,
                row < row_pairs,
                row_pairs as nat == (height as nat + 1) / 2,
                y_top == row * 2,
                x <= width,
                cells@.len() == x,
                forall|j: int|
                    0 <= j < x ==> #[trigger] cells@[j] == spec_half_block(
                        rgba@,
                        width as nat,
                        height as nat,
                        j as nat,
                        row as nat,
                    ),
            decreases width - x,
        {
            let top = pixel_at(rgba, width, height, x, y_top);
            let bottom = if y_top < height - 1 {
                pixel_at(rgba, width, height, x, y_top + 1)
            } else {
                CellColor::Reset
            };
            cells.push(HalfBlock { top, bottom });
            x += 1;
        }
        rows.push(cells);
        row += 1;
    }
    rows
}

} // verus!
