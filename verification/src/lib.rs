//! Decides whether a terminal's background color is perceptually light or
//! dark. The crate builds the OSC 11 background-color query (plain, or
//! wrapped for a terminal multiplexer), sanitizes and parses the terminal's
//! reply into an [`RgbColor`], and classifies that color by its HSP
//! perceptual brightness.
//!
//! The crate itself performs no terminal I/O: a caller writes the query
//! bytes, reads the reply bytes, and hands them to [`parse_response`].
#![allow(unused_imports)]

mod color;
mod parse;
mod query;

pub use color::BackgroundStyle;
pub use color::RgbColor;
pub use color::classify;
pub use color::hsp;
pub use color::hsp_scaled_sq;
pub use color::lemma_classify_total;
pub use color::lemma_threshold_is_dark;
pub use color::hex_byte;
pub use color::hex_char;
pub use color::hex_render;
pub use color::light_threshold_scaled_sq;
pub use color::style_text;
pub use parse::DataError;
pub use parse::all_hex_digits;
pub use parse::ascii_chars;
pub use parse::channel_values;
pub use parse::cleaned;
pub use parse::channels_of_segments;
pub use parse::error_message;
pub use parse::has_response_prefix;
pub use parse::hex_digit_val;
pub use parse::hex_value;
pub use parse::is_hex_digit;
pub use parse::lemma_message_quotes_received;
pub use parse::lemma_parse_render_round_trip;
pub use parse::parse_channels;
pub use parse::parse_hex_u16;
pub use parse::parse_ok;
pub use parse::parse_response;
pub use parse::parsed_color;
pub use parse::printable_ascii;
pub use parse::response_prefix;
pub use parse::sanitize;
pub use parse::sanitize_spec;
pub use parse::split_on;
pub use parse::strip_terminator;
pub use parse::valid_segment;
pub use query::passthrough_query;
pub use query::plain_query;
pub use query::query_sequence;
