//! Verified core of a terminal Signal client: command-line and input-line
//! parsing, vim-style key handling, list navigation, typing-indicator
//! bookkeeping, log redaction, and the decisions behind terminal image
//! rendering (protocol choice, Kitty placeholders, Sixel band slicing,
//! vertical crops, halfblock colours).

pub mod cli;
pub mod codec;
pub mod debug_log;
pub mod editor;
pub mod image_render;
pub mod input;
pub mod keys;
pub mod list_overlay;
pub mod sixel;
pub mod text;
pub mod typing;
pub mod ui;

pub use cli::{parse_args, CliCommand, USAGE};
pub use debug_log::{
    enable, enable_full, log_line, logf, mask_body, mask_phone, needs_rotation, redact, LogSettings,
    MAX_LOG_SIZE,
};
pub use editor::{handle_key, key_can_be_handled, EditorState, InputMode, KeyEffect, KeyPress, ALT, CONTROL, SHIFT};
pub use image_render::{
    cell_pixel_size, crop_png_vertical, crop_rows, decode_base64, png_to_base64, halfblock_cells, kitty_id_rgb,
    placeholder_symbol, select_protocol, CellColor, HalfBlock, ImageProtocol, WindowSize,
};
pub use input::{parse_input, InputAction, HELP_TEXT};
pub use keys::KeyCode;
pub use list_overlay::{clamp_index, classify_list_key, scroll_layout, ListKeyAction};
pub use sixel::{find_preamble_end, slice_sixel_bands};
pub use typing::TypingState;
pub use ui::{append_footer, kitty_id_color, selection_style};
