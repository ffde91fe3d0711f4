//! The resolved configuration and how command-line overrides apply to it.

use vstd::prelude::*;
use vstd::string::StrSliceExecFns;
use crate::layout::LayoutMode;
use crate::quotes::Color;

verus! {

/// The configuration, as the config file defines it.  Percentages, margins
/// and the layout token are optional there; a command-line override takes
/// precedence over each, and the caller must supply one of the two.
#[derive(Clone)]
pub struct NerdcliConfig {
    pub max_width_percentage: Option<u16>,
    pub max_height_percentage: Option<u16>,
    pub layout: Option<String>,
    pub show_quotes: bool,
    pub margin_left: Option<u16>,
    pub margin_top: Option<i16>,
    pub image_dir: String,
    pub quotes_dir: String,
    pub quote_languages: Vec<String>,
    pub quote_color: Color,
    pub source_color: Color,
    pub author_color: Color,
    pub image_types: Vec<String>,
    pub include_folders: Vec<String>,
    pub config_base_path: Option<String>,
}

/// The command-line value when present, else the configured one.
pub fn resolve_u16(cli: Option<u16>, config: Option<u16>) -> (r: u16)
    requires
        cli is Some || config is Some,
    ensures
        r == if cli is Some {
            cli->0
        } else {
            config->0
        },
{
    match cli {
        Some(v) => v,
        None => config.unwrap(),
    }
}

/// The command-line value when present, else the configured one.
pub fn resolve_i16(cli: Option<i16>, config: Option<i16>) -> (r: i16)
    requires
        cli is Some || config is Some,
    ensures
        r == if cli is Some {
            cli->0
        } else {
            config->0
        },
{
    match cli {
        Some(v) => v,
        None => config.unwrap(),
    }
}

/// The command-line layout token when present, else the configured one.
pub fn resolve_layout_token(cli: &Option<String>, config: &Option<String>) -> (r: String)
    requires
        cli is Some || config is Some,
    ensures
        r@ == if cli is Some {
            cli->0@
        } else {
            config->0@
        },
{
    match cli {
        Some(s) => s.clone(),
        None => match config {
            Some(s) => s.clone(),
            None => String::new(),
        },
    }
}

/// Whether two string slices hold the same characters.
fn str_eq(a: &str, b: &str) -> (r: bool)
    ensures
        r == (a@ == b@),
{
    let la = a.unicode_len();
    let lb = b.unicode_len();
    if la != lb {
        return false;
    }
    let mut i: usize = 0;
    while i < la
        invariant
            la == a@.len(),
            la == b@.len(),
            i <= la,
            forall|j: int| 0 <= j < i ==> a@[j] == b@[j],
        decreases la - i,
    {
        if a.get_char(i) != b.get_char(i) {
            return false;
        }
        i = i + 1;
    }
    proof {
        assert(a@ =~= b@);
    }
    true
}

/// The layout mode a configuration token names.  The row tokens and the
/// centered column token are recognized; any other token falls back to the
/// plain column arrangement.
pub open spec fn mode_of_token(s: Seq<char>) -> LayoutMode {
    if s == "ROW"@ {
        LayoutMode::Row
    } else if s == "ROW_CENTERED"@ {
        LayoutMode::RowCentered
    } else if s == "COL_CENTERED"@ {
        LayoutMode::ColCentered
    } else {
        LayoutMode::Col
    }
}

/// Parses a layout token, falling back to the plain column arrangement for
/// an unrecognized one.
pub fn parse_layout_mode(s: &str) -> (m: LayoutMode)
    ensures
        m == mode_of_token(s@),
{
    if str_eq(s, "ROW") {
        LayoutMode::Row
    } else if str_eq(s, "ROW_CENTERED") {
        LayoutMode::RowCentered
    } else if str_eq(s, "COL_CENTERED") {
        LayoutMode::ColCentered
    } else {
        LayoutMode::Col
    }
}

} // verus!
