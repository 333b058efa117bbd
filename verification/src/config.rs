//! The configuration files: plain lines `uset <key> "<value>"`, read and
//! edited line-wise, without any notion of units.

use vstd::prelude::*;
use crate::extract::{all_digits, dec_value, read_digits};
use crate::text::{
    append, ascii_bytes, copy_range, ends_word, first_hit, has_prefix_at, is_digit, k, key,
    lemma_first_hit, lemma_first_hit_is, lemma_run_end, run_end, scan_run, splice, splice_bytes,
    starts_with_at, starts_word, word_ends_at, word_starts_at, ByteClass, LINE_FEED, QUOTE,
};
use crate::vehicle_editor::{decimal_text, i64_to_decimal};
use vstd::slice::slice_subrange;

verus! {

/// Why a setting was not read or written.
#[derive(Clone, Copy, PartialEq, Eq, Structural, Debug)]
pub enum ConfigError {
    /// No line sets the key.
    NotFound,
    /// The line's value is no number that fits.
    Invalid,
}

/// How the value of a `uset` line is written.
#[derive(Clone, Copy, PartialEq, Eq, Structural, Debug)]
pub enum UsetShape {
    /// Digits, in quotes or not, directly or after whitespace.
    Number,
    /// After whitespace, a text in quotes that is not empty.
    Quoted,
    /// After whitespace, digits in quotes.
    QuotedNumber,
    /// Whatever follows the key in its line.
    Rest,
}

/// What a line starts with that sets `key`.
pub open spec fn uset_head(key: Seq<u8>) -> Seq<u8> {
    ascii_bytes("uset "@) + key
}

/// The value of the setting of `key` that starts at `q`, and where the
/// setting ends. The word `uset` starts a word and the key ends one: the
/// text of the key at the start of a longer key sets another key.
pub open spec fn uset_at(cfg: Seq<u8>, key: Seq<u8>, shape: UsetShape, q: int) -> Option<
    ((int, int), int),
> {
    if !has_prefix_at(cfg, q, uset_head(key)) || !starts_word(cfg, q) || !ends_word(
        cfg,
        q + uset_head(key).len(),
    ) {
        None
    } else {
        let p = q + uset_head(key).len();
        let a = run_end(cfg, p, ByteClass::Space);
        match shape {
            UsetShape::Number => {
                let v = if a < cfg.len() && cfg[a] == QUOTE {
                    a + 1
                } else {
                    a
                };
                let d = run_end(cfg, v, ByteClass::Digit);
                if v < d {
                    Some(((v, d), d))
                } else {
                    None
                }
            },
            UsetShape::Quoted => {
                let c = run_end(cfg, a + 1, ByteClass::Not(QUOTE));
                if p < a && a < cfg.len() && cfg[a] == QUOTE && a + 1 < c && c < cfg.len() {
                    Some(((a + 1, c), c + 1))
                } else {
                    None
                }
            },
            UsetShape::QuotedNumber => {
                let d = run_end(cfg, a + 1, ByteClass::Digit);
                if p < a && a < cfg.len() && cfg[a] == QUOTE && a + 1 < d && d < cfg.len() && cfg[d]
                    == QUOTE {
                    Some(((a + 1, d), d + 1))
                } else {
                    None
                }
            },
            UsetShape::Rest => {
                let e = run_end(cfg, p, ByteClass::Not(LINE_FEED));
                Some(((p, e), e))
            },
        }
    }
}

/// Whether a setting of `key` in shape `shape` starts at a position.
pub open spec fn uset_pred(cfg: Seq<u8>, key: Seq<u8>, shape: UsetShape) -> spec_fn(int) -> bool {
    |q: int| uset_at(cfg, key, shape, q) is Some
}

/// A setting found in a configuration file.
pub struct Setting {
    pub at: int,
    pub value: (int, int),
    pub end: int,
}

/// The first setting of `key` in the shape `shape`.
pub open spec fn uset(cfg: Seq<u8>, key: Seq<u8>, shape: UsetShape) -> Option<Setting> {
    let q = first_hit(uset_pred(cfg, key, shape), 0, cfg.len() as int);
    if q >= cfg.len() {
        None
    } else {
        let (value, end) = uset_at(cfg, key, shape, q).unwrap();
        Some(Setting { at: q, value, end })
    }
}

/// A setting that is found lies inside the file, its parts in order; a
/// number is made of digits.
pub proof fn lemma_uset(cfg: Seq<u8>, key: Seq<u8>, shape: UsetShape)
    requires
        uset(cfg, key, shape) is Some,
    ensures
        ({
            let s = uset(cfg, key, shape).unwrap();
            &&& 0 <= s.at <= s.value.0 <= s.value.1 <= s.end <= cfg.len()
            &&& (shape == UsetShape::Number || shape == UsetShape::QuotedNumber) ==> all_digits(
                cfg.subrange(s.value.0, s.value.1),
            )
        }),
{
    let pred = uset_pred(cfg, key, shape);
    lemma_first_hit(pred, 0, cfg.len() as int);
    let q = first_hit(pred, 0, cfg.len() as int);
    let p = q + uset_head(key).len();
    lemma_run_end(cfg, p, ByteClass::Space);
    let a = run_end(cfg, p, ByteClass::Space);
    lemma_run_end(cfg, a, ByteClass::Digit);
    lemma_run_end(cfg, p, ByteClass::Not(LINE_FEED));
    if a < cfg.len() {
        lemma_run_end(cfg, a + 1, ByteClass::Digit);
        lemma_run_end(cfg, a + 1, ByteClass::Not(QUOTE));
    }
    let s = uset(cfg, key, shape).unwrap();
    if shape == UsetShape::Number || shape == UsetShape::QuotedNumber {
        let t = cfg.subrange(s.value.0, s.value.1);
        assert forall|i: int| 0 <= i < t.len() implies is_digit(#[trigger] t[i]) by {}
    }
}

fn match_uset(cfg: &[u8], head: &[u8], k: &[u8], shape: UsetShape, q: usize) -> (r: Option<
    ((usize, usize), usize),
>)
    requires
        head@ == uset_head(k@),
    ensures
        match r {
            Some(((a, b), e)) => uset_at(cfg@, k@, shape, q as int) == Some(
                ((a as int, b as int), e as int),
            ) && a <= b <= e <= cfg@.len(),
            None => uset_at(cfg@, k@, shape, q as int) is None,
        },
{
    let n = cfg.len();
    if !starts_with_at(cfg, q, head) || !word_starts_at(cfg, q) || !word_ends_at(
        cfg,
        q + head.len(),
    ) {
        return None;
    }
    let p = q + head.len();
    let a = scan_run(cfg, p, ByteClass::Space);
    match shape {
        UsetShape::Number => {
            let v: usize = if a < n && cfg[a] == QUOTE {
                a + 1
            } else {
                a
            };
            let d = scan_run(cfg, v, ByteClass::Digit);
            if v < d {
                Some(((v, d), d))
            } else {
                None
            }
        },
        UsetShape::Quoted => {
            if !(p < a && a < n && cfg[a] == QUOTE) {
                return None;
            }
            let c = scan_run(cfg, a + 1, ByteClass::Not(QUOTE));
            if a + 1 < c && c < n {
                Some(((a + 1, c), c + 1))
            } else {
                None
            }
        },
        UsetShape::QuotedNumber => {
            if !(p < a && a < n && cfg[a] == QUOTE) {
                return None;
            }
            let d = scan_run(cfg, a + 1, ByteClass::Digit);
            if a + 1 < d && d < n && cfg[d] == QUOTE {
                Some(((a + 1, d), d + 1))
            } else {
                None
            }
        },
        UsetShape::Rest => {
            let e = scan_run(cfg, p, ByteClass::Not(LINE_FEED));
            Some(((p, e), e))
        },
    }
}

fn head_of(k: &[u8]) -> (r: Vec<u8>)
    ensures
        r@ == uset_head(k@),
{
    let mut head = key("uset ");
    append(&mut head, k);
    head
}

/// A setting, in machine integers.
#[derive(Clone, Copy, Debug)]
pub struct SettingPos {
    pub at: usize,
    pub value: (usize, usize),
    pub end: usize,
}

impl View for SettingPos {
    type V = Setting;

    open spec fn view(&self) -> Setting {
        Setting {
            at: self.at as int,
            value: (self.value.0 as int, self.value.1 as int),
            end: self.end as int,
        }
    }
}

/// A setting that was found or not, in mathematical integers.
pub open spec fn setting_view(r: Option<SettingPos>) -> Option<Setting> {
    match r {
        Some(s) => Some(s@),
        None => None,
    }
}

/// Finds the first setting of `key`.
pub fn find_uset(cfg: &[u8], k: &[u8], shape: UsetShape) -> (r: Option<SettingPos>)
    ensures
        setting_view(r) == uset(cfg@, k@, shape),
        r is Some ==> r.unwrap().at <= r.unwrap().value.0 <= r.unwrap().value.1 <= r.unwrap().end
            <= cfg@.len(),
{
    let head = head_of(k);
    let ghost pred = uset_pred(cfg@, k@, shape);
    let n = cfg.len();
    let mut q: usize = 0;
    while q < n
        invariant
            n == cfg@.len(),
            q <= n,
            head@ == uset_head(k@),
            pred == uset_pred(cfg@, k@, shape),
            forall|r: int| 0 <= r < q ==> !#[trigger] pred(r),
        decreases n - q,
    {
        match match_uset(cfg, head.as_slice(), k, shape, q) {
            Some((value, end)) => {
                proof {
                    lemma_first_hit_is(pred, 0, n as int, q as int);
                    lemma_uset(cfg@, k@, shape);
                }
                return Some(SettingPos { at: q, value, end });
            },
            None => {
            },
        }
        q = q + 1;
    }
    proof {
        lemma_first_hit_is(pred, 0, n as int, n as int);
    }
    None
}

/// The number that digits spell, if it fits.
pub open spec fn number_of(t: Seq<u8>) -> Option<i64> {
    if dec_value(t) <= i64::MAX {
        Some(dec_value(t) as i64)
    } else {
        None
    }
}

/// The number of the first setting of `key`, written in shape `shape`.
pub open spec fn uset_number(cfg: Seq<u8>, key: Seq<u8>, shape: UsetShape) -> Option<i64> {
    match uset(cfg, key, shape) {
        Some(s) => number_of(cfg.subrange(s.value.0, s.value.1)),
        None => None,
    }
}

/// Reads digits as a number.
pub fn parse_digits(t: &[u8]) -> (r: Option<i64>)
    requires
        all_digits(t@),
    ensures
        r == number_of(t@),
{
    let (v, fits) = read_digits(t, 0x7fff_ffff_ffff_ffff);
    if fits {
        Some(v as i64)
    } else {
        None
    }
}

fn read_uset_number(cfg: &[u8], k: &[u8], quoted: bool) -> (r: Option<i64>)
    ensures
        r == uset_number(
            cfg@,
            k@,
            if quoted {
                UsetShape::QuotedNumber
            } else {
                UsetShape::Number
            },
        ),
{
    let shape = if quoted {
        UsetShape::QuotedNumber
    } else {
        UsetShape::Number
    };
    match find_uset(cfg, k, shape) {
        Some(s) => {
            proof {
                lemma_uset(cfg@, k@, shape);
            }
            parse_digits(slice_subrange(cfg, s.value.0, s.value.1))
        },
        None => None,
    }
}

/// The settings of the game as a whole.
#[derive(Clone, Copy, PartialEq, Eq, Debug)]
pub struct BaseGameConfig {
    pub max_convoy_size: Option<i64>,
    pub traffic: Option<i64>,
    pub developer: Option<i64>,
    pub console: Option<i64>,
}

/// The settings of one profile.
#[derive(Clone, Copy, PartialEq, Eq, Debug)]
pub struct SaveGameConfig {
    pub factor_parking_doubles: Option<i64>,
}

/// Reads the settings of the game from its configuration file. A setting
/// that is not there, or is no number, is `None`.
pub fn read_base_config(cfg: &[u8]) -> (r: BaseGameConfig)
    ensures
        r.max_convoy_size == uset_number(cfg@, k("g_max_convoy_size"@), UsetShape::Number),
        r.traffic == uset_number(cfg@, k("g_traffic"@), UsetShape::Number),
        r.developer == uset_number(cfg@, k("g_developer"@), UsetShape::Number),
        r.console == uset_number(cfg@, k("g_console"@), UsetShape::Number),
{
    BaseGameConfig {
        max_convoy_size: read_uset_number(cfg, key("g_max_convoy_size").as_slice(), false),
        traffic: read_uset_number(cfg, key("g_traffic").as_slice(), false),
        developer: read_uset_number(cfg, key("g_developer").as_slice(), false),
        console: read_uset_number(cfg, key("g_console").as_slice(), false),
    }
}

/// Reads the settings of a profile from its configuration file.
pub fn read_save_config(cfg: &[u8]) -> (r: SaveGameConfig)
    ensures
        r.factor_parking_doubles == uset_number(
            cfg@,
            k("g_simple_parking_doubles"@),
            UsetShape::Number,
        ),
{
    SaveGameConfig {
        factor_parking_doubles: read_uset_number(
            cfg,
            key("g_simple_parking_doubles").as_slice(),
            false,
        ),
    }
}

/// `v`, held to the range of the traffic setting, 0 to 10.
pub open spec fn clamped(v: int) -> int {
    if v < 0 {
        0
    } else if v > 10 {
        10
    } else {
        v
    }
}

/// The traffic setting: the quoted number of the first line that sets
/// `g_traffic`, held to the range 0 to 10.
pub open spec fn traffic_of(cfg: Seq<u8>) -> Result<i64, ConfigError> {
    match uset(cfg, k("g_traffic"@), UsetShape::QuotedNumber) {
        None => Err(ConfigError::NotFound),
        Some(s) => match number_of(cfg.subrange(s.value.0, s.value.1)) {
            None => Err(ConfigError::Invalid),
            Some(v) => Ok(clamped(v as int) as i64),
        },
    }
}

/// Reads the traffic setting.
pub fn read_traffic_value(cfg: &[u8]) -> (r: Result<i64, ConfigError>)
    ensures
        r == traffic_of(cfg@),
{
    let k = key("g_traffic");
    match find_uset(cfg, k.as_slice(), UsetShape::QuotedNumber) {
        None => Err(ConfigError::NotFound),
        Some(s) => {
            proof {
                lemma_uset(cfg@, k@, UsetShape::QuotedNumber);
            }
            match parse_digits(slice_subrange(cfg, s.value.0, s.value.1)) {
                None => Err(ConfigError::Invalid),
                Some(v) => Ok(
                    if v > 10 {
                        10
                    } else {
                        v
                    },
                ),
            }
        },
    }
}

/// An edited file, read as a sequence of bytes.
pub open spec fn config_view(r: Result<Vec<u8>, ConfigError>) -> Result<Seq<u8>, ConfigError> {
    match r {
        Ok(d) => Ok(d@),
        Err(e) => Err(e),
    }
}

/// The file after the first quoted setting of `key` is set to `value`:
/// the text between its quotes gives way to `value`.
pub open spec fn set_uset(cfg: Seq<u8>, key: Seq<u8>, value: Seq<u8>) -> Result<
    Seq<u8>,
    ConfigError,
> {
    match uset(cfg, key, UsetShape::Quoted) {
        None => Err(ConfigError::NotFound),
        Some(s) => Ok(splice(cfg, s.value.0, s.value.1, value)),
    }
}

/// Sets the first setting `uset <key> "<old>"` to `value`. The line must
/// be there: none is added.
pub fn set_config_value(cfg: &[u8], k: &[u8], value: &[u8]) -> (r: Result<Vec<u8>, ConfigError>)
    ensures
        config_view(r) == set_uset(cfg@, k@, value@),
{
    match find_uset(cfg, k, UsetShape::Quoted) {
        None => Err(ConfigError::NotFound),
        Some(s) => Ok(splice_bytes(cfg, s.value.0, s.value.1, value)),
    }
}

/// Sets the developer mode.
pub fn edit_developer_value(cfg: &[u8], value: i64) -> (r: Result<Vec<u8>, ConfigError>)
    ensures
        config_view(r) == set_uset(cfg@, k("g_developer"@), decimal_text(value as int)),
{
    set_config_value(cfg, key("g_developer").as_slice(), i64_to_decimal(value).as_slice())
}

/// Sets whether the console is open.
pub fn edit_console_value(cfg: &[u8], value: i64) -> (r: Result<Vec<u8>, ConfigError>)
    ensures
        config_view(r) == set_uset(cfg@, k("g_console"@), decimal_text(value as int)),
{
    set_config_value(cfg, key("g_console").as_slice(), i64_to_decimal(value).as_slice())
}

/// Sets the size of a convoy.
pub fn edit_convoy_value(cfg: &[u8], value: i64) -> (r: Result<Vec<u8>, ConfigError>)
    ensures
        config_view(r) == set_uset(cfg@, k("g_max_convoy_size"@), decimal_text(value as int)),
{
    set_config_value(cfg, key("g_max_convoy_size").as_slice(), i64_to_decimal(value).as_slice())
}

/// Sets the density of traffic, held to the range 0 to 10.
pub fn edit_traffic_value(cfg: &[u8], value: i64) -> (r: Result<Vec<u8>, ConfigError>)
    ensures
        config_view(r) == set_uset(cfg@, k("g_traffic"@), decimal_text(clamped(value as int))),
{
    let v: i64 = if value < 0 {
        0
    } else if value > 10 {
        10
    } else {
        value
    };
    set_config_value(cfg, key("g_traffic").as_slice(), i64_to_decimal(v).as_slice())
}

/// Sets whether doubles are parked the simple way, in a profile's file.
pub fn edit_parking_doubles_value(cfg: &[u8], value: i64) -> (r: Result<Vec<u8>, ConfigError>)
    ensures
        config_view(r) == set_uset(
            cfg@,
            k("g_simple_parking_doubles"@),
            decimal_text(value as int),
        ),
{
    set_config_value(
        cfg,
        key("g_simple_parking_doubles").as_slice(),
        i64_to_decimal(value).as_slice(),
    )
}

/// The line that sets `key` to `value`.
pub open spec fn uset_line(key: Seq<u8>, value: Seq<u8>) -> Seq<u8> {
    uset_head(key) + seq![32u8, QUOTE] + value + seq![QUOTE]
}

/// The file after the first line that sets `key` in any way is written
/// anew, from `uset` to the end of the line. A file without such a line
/// stays as it is.
pub open spec fn rewrite_uset(cfg: Seq<u8>, key: Seq<u8>, value: Seq<u8>) -> Seq<u8> {
    match uset(cfg, key, UsetShape::Rest) {
        None => cfg,
        Some(s) => splice(cfg, s.at, s.end, uset_line(key, value)),
    }
}

/// Writes the first line that sets `key` anew, as `uset <key> "<value>"`.
/// Where no line sets the key, nothing is changed.
pub fn edit_config_value(cfg: &[u8], k: &[u8], value: &[u8]) -> (r: Vec<u8>)
    ensures
        r@ == rewrite_uset(cfg@, k@, value@),
{
    match find_uset(cfg, k, UsetShape::Rest) {
        None => {
            let r = copy_range(cfg, 0, cfg.len());
            r
        },
        Some(s) => {
            let mut line = head_of(k);
            line.push(32);
            line.push(QUOTE);
            append(&mut line, value);
            line.push(QUOTE);
            splice_bytes(cfg, s.at, s.end, line.as_slice())
        },
    }
}

} // verus!
