//! What cloning a profile does to the text of its files, and how the
//! mods of one profile are carried over to another.

use vstd::prelude::*;
use vstd::string::*;
use crate::extract::{collect_items, item_texts, Item};
use crate::field::{hit_at, key_end, match_hit, Shape};
use crate::hex_float::{hex_text, text_to_hex};
use crate::profile::{line_break, text_end};
use crate::text::{
    append, ascii_bytes, copy_range, has_prefix_at, key, lemma_run_end, line_end, list_view,
    run_end,
    scan_run, starts_with_at, word_starts_at, ByteClass, CARRIAGE_RETURN, COLON, LINE_FEED, QUOTE,
};
use crate::vehicle_editor::digits_of;
use vstd::slice::slice_subrange;

verus! {

/// What a clone is to do besides copying.
#[derive(Clone, Copy, PartialEq, Eq, Structural, Debug)]
pub struct CloneOptions {
    pub backup: bool,
    pub replace_hex: bool,
    pub replace_text: bool,
}

/// `content` from `i` on with every occurrence of `old` replaced by
/// `new`, after the text `acc`. Occurrences are taken from the left and
/// do not overlap; an empty `old` occurs nowhere.
pub open spec fn replaced_from(
    content: Seq<u8>,
    old: Seq<u8>,
    new: Seq<u8>,
    i: int,
    acc: Seq<u8>,
) -> Seq<u8>
    decreases content.len() - i,
{
    if i < 0 || i >= content.len() {
        acc
    } else if old.len() > 0 && has_prefix_at(content, i, old) {
        replaced_from(content, old, new, i + old.len(), acc + new)
    } else {
        replaced_from(content, old, new, i + 1, acc.push(content[i]))
    }
}

/// `content` with every occurrence of `old` replaced by `new`.
pub open spec fn replaced(content: Seq<u8>, old: Seq<u8>, new: Seq<u8>) -> Seq<u8> {
    replaced_from(content, old, new, 0, Seq::<u8>::empty())
}

/// Replaces every occurrence of `old` in `content` by `new`.
pub fn replace_all(content: &[u8], old: &[u8], new: &[u8]) -> (r: Vec<u8>)
    ensures
        r@ == replaced(content@, old@, new@),
{
    let n = content.len();
    let mut out: Vec<u8> = Vec::new();
    let mut i: usize = 0;
    while i < n
        invariant
            n == content@.len(),
            replaced(content@, old@, new@) == replaced_from(content@, old@, new@, i as int, out@),
        decreases n - i,
    {
        if old.len() > 0 && starts_with_at(content, i, old) {
            append(&mut out, new);
            i = i + old.len();
        } else {
            out.push(content[i]);
            i = i + 1;
        }
    }
    out
}

/// The text of a file of a clone: that of the source file with the old name
/// replaced by the new one, as text and in its hex spelling, as far as
/// `options` ask for it.
pub open spec fn renamed_text(
    content: Seq<u8>,
    old: Seq<u8>,
    new: Seq<u8>,
    options: CloneOptions,
) -> Seq<u8> {
    let first = if options.replace_text {
        replaced(content, old, new)
    } else {
        content
    };
    if options.replace_hex {
        replaced(first, hex_text(old), hex_text(new))
    } else {
        first
    }
}

/// Replaces the name of the source profile in the text of one file of a
/// clone.
pub fn replace_identifiers(content: &[u8], old: &[u8], new: &[u8], options: CloneOptions) -> (r:
    Vec<u8>)
    ensures
        r@ == renamed_text(content@, old@, new@, options),
{
    let first = if options.replace_text {
        replace_all(content, old, new)
    } else {
        let c = copy_range(content, 0, content.len());
        assert(c@ =~= content@);
        c
    };
    if options.replace_hex {
        let old_hex = text_to_hex(old);
        let new_hex = text_to_hex(new);
        replace_all(first.as_slice(), old_hex.as_slice(), new_hex.as_slice())
    } else {
        first
    }
}

/// Whether a clone may be made, and where it would go.
pub struct CloneTargetStatus {
    pub valid: bool,
    pub message: String,
    pub target_path: Option<String>,
}

/// Judges the target of a clone: the source has to exist, and the target
/// must not.
pub fn validate_clone_target(source_exists: bool, target_path: String, target_exists: bool) -> (r:
    CloneTargetStatus)
    ensures
        r.valid == (source_exists && !target_exists),
        r.message@ == (if !source_exists {
            "Quellprofil existiert nicht."@
        } else if target_exists {
            "Profilname existiert bereits."@
        } else {
            "Name verfügbar."@
        }),
        r.target_path == (if source_exists {
            Some(target_path)
        } else {
            None::<String>
        }),
{
    if !source_exists {
        CloneTargetStatus {
            valid: false,
            message: String::from_str("Quellprofil existiert nicht."),
            target_path: None,
        }
    } else if target_exists {
        CloneTargetStatus {
            valid: false,
            message: String::from_str("Profilname existiert bereits."),
            target_path: Some(target_path),
        }
    } else {
        CloneTargetStatus {
            valid: true,
            message: String::from_str("Name verfügbar."),
            target_path: Some(target_path),
        }
    }
}

/// The key of the lines that count and list the mods.
pub open spec fn kw_mods() -> Seq<u8> {
    ascii_bytes("active_mods"@)
}

/// The active mods that a profile lists, in the order in which they
/// stand: for each line `active_mods[n]: "mod"`, what stands between the
/// first quote and the last quote of the line.
pub open spec fn active_mods(content: Seq<u8>) -> Seq<Seq<u8>> {
    item_texts(
        content,
        collect_items(content, kw_mods(), Shape::QuotedLine, 0, Seq::<Item>::empty()),
    )
}

/// Reads the active mods of a profile.
pub fn extract_mods(content: &[u8]) -> (r: Vec<Vec<u8>>)
    ensures
        list_view(r@) == active_mods(content@),
{
    let kw = key("active_mods");
    let n = content.len();
    let mut out: Vec<Vec<u8>> = Vec::new();
    let ghost mut acc: Seq<Item> = Seq::<Item>::empty();
    let mut from: usize = 0;
    loop
        invariant
            n == content@.len(),
            from <= n,
            kw@ == kw_mods(),
            collect_items(content@, kw_mods(), Shape::QuotedLine, 0, Seq::<Item>::empty())
                == collect_items(content@, kw_mods(), Shape::QuotedLine, from as int, acc),
            list_view(out@) == item_texts(content@, acc),
        decreases n - from,
    {
        match crate::field::find_hit(content, kw.as_slice(), true, Shape::QuotedLine, from) {
            None => {
                return out;
            },
            Some(h) => {
                proof {
                    crate::field::lemma_next_hit(
                        content@,
                        kw_mods(),
                        true,
                        Shape::QuotedLine,
                        from as int,
                    );
                }
                let ghost it = crate::extract::item_of(content@, h@);
                let ghost before = list_view(out@);
                out.push(copy_range(content, h.value.0, h.value.1));
                proof {
                    assert(list_view(out@) =~= before.push(
                        content@.subrange(h@.value.0, h@.value.1),
                    ));
                    assert(item_texts(content@, acc.push(it)) =~= item_texts(content@, acc).push(
                        content@.subrange(h@.value.0, h@.value.1),
                    ));
                    acc = acc.push(it);
                }
                from = h.end;
            },
        }
    }
}

/// Why mods were not carried over.
#[derive(Clone, Copy, PartialEq, Eq, Structural, Debug)]
pub enum ModsError {
    /// The target profile has no line that counts its mods.
    CountNotFound,
}

/// Whether `line` lists a mod: `active_mods[n]:` after whitespace at
/// most.
pub open spec fn is_mod_line(line: Seq<u8>) -> bool {
    let t = run_end(line, 0, ByteClass::Space);
    match key_end(line, kw_mods(), true, t) {
        Some((_, k)) => k < line.len() && line[k] == COLON,
        None => false,
    }
}

/// Whether `line` counts the mods: `active_mods: n` after whitespace at
/// most.
pub open spec fn is_count_line(line: Seq<u8>) -> bool {
    hit_at(line, kw_mods(), false, Shape::Digits, run_end(line, 0, ByteClass::Space)) is Some
}

/// The line that counts `n` mods, indented by `indent`.
pub open spec fn count_line(indent: Seq<u8>, n: nat) -> Seq<u8> {
    indent + ascii_bytes("active_mods: "@) + digits_of(n)
}

/// The line that lists the mod `text` as the `i`-th, indented by `indent`.
pub open spec fn mod_line(indent: Seq<u8>, i: nat, text: Seq<u8>) -> Seq<u8> {
    indent + ascii_bytes("active_mods["@) + digits_of(i) + ascii_bytes("]: \""@) + text + seq![
        QUOTE,
    ]
}

/// The lines that list the mods from the `i`-th on, after `acc`.
pub open spec fn mod_lines(indent: Seq<u8>, mods: Seq<Seq<u8>>, i: int, acc: Seq<Seq<u8>>) -> Seq<
    Seq<u8>,
>
    decreases mods.len() - i,
{
    if i < 0 || i >= mods.len() {
        acc
    } else {
        mod_lines(indent, mods, i + 1, acc.push(mod_line(indent, i as nat, mods[i])))
    }
}

/// The lines of `content` from `i` on, after `acc`, with the lines that
/// list mods left out and each line that counts them replaced by the
/// count and the list of `mods`.
pub open spec fn injected_from(content: Seq<u8>, mods: Seq<Seq<u8>>, i: int, acc: Seq<Seq<u8>>) -> Seq<
    Seq<u8>,
>
    decreases content.len() + 1 - i,
{
    if i < 0 || i >= content.len() {
        acc
    } else {
        let line = content.subrange(i, text_end(content, i));
        let next = if is_mod_line(line) {
            acc
        } else if is_count_line(line) {
            let indent = line.subrange(0, run_end(line, 0, ByteClass::Space));
            mod_lines(indent, mods, 0, acc.push(count_line(indent, mods.len())))
        } else {
            acc.push(line)
        };
        proof {
            lemma_run_end(content, i, ByteClass::Not(LINE_FEED));
        }
        injected_from(content, mods, line_end(content, i) + 1, next)
    }
}

/// Whether a line of `content` from `i` on counts the mods and lists
/// none.
pub open spec fn counts_mods_from(content: Seq<u8>, i: int) -> bool
    decreases content.len() + 1 - i,
{
    if i < 0 || i >= content.len() {
        false
    } else {
        let line = content.subrange(i, text_end(content, i));
        (!is_mod_line(line) && is_count_line(line)) || {
            proof {
                lemma_run_end(content, i, ByteClass::Not(LINE_FEED));
            }
            counts_mods_from(content, line_end(content, i) + 1)
        }
    }
}

/// `lines` from the `i`-th on, a carriage return and a line feed between
/// each two, after the text `acc`.
pub open spec fn joined_from(lines: Seq<Seq<u8>>, i: int, acc: Seq<u8>) -> Seq<u8>
    decreases lines.len() - i,
{
    if i < 0 || i >= lines.len() {
        acc
    } else if i == 0 {
        joined_from(lines, 1, acc + lines[0])
    } else {
        joined_from(lines, i + 1, acc + line_break() + lines[i])
    }
}

/// The file of a profile after the mods `mods` are carried over to it.
pub open spec fn injected(content: Seq<u8>, mods: Seq<Seq<u8>>) -> Result<Seq<u8>, ModsError> {
    if counts_mods_from(content, 0) {
        Ok(
            joined_from(
                injected_from(content, mods, 0, Seq::<Seq<u8>>::empty()),
                0,
                Seq::<u8>::empty(),
            ),
        )
    } else {
        Err(ModsError::CountNotFound)
    }
}

/// A file with mods carried over, read as a sequence of bytes.
pub open spec fn injected_view(r: Result<Vec<u8>, ModsError>) -> Result<Seq<u8>, ModsError> {
    match r {
        Ok(d) => Ok(d@),
        Err(e) => Err(e),
    }
}

fn usize_to_decimal(n: usize) -> (r: Vec<u8>)
    ensures
        r@ == digits_of(n as nat),
{
    let mut r: Vec<u8> = Vec::new();
    push_digits(&mut r, n);
    r
}

fn push_digits(r: &mut Vec<u8>, n: usize)
    ensures
        final(r)@ == old(r)@ + digits_of(n as nat),
    decreases n,
{
    if n < 10 {
        r.push(48 + n as u8);
    } else {
        push_digits(r, n / 10);
        r.push(48 + (n % 10) as u8);
    }
}

fn check_mod_line(line: &[u8], kw: &[u8]) -> (r: bool)
    requires
        kw@ == kw_mods(),
    ensures
        r == is_mod_line(line@),
{
    let n = line.len();
    let t = scan_run(line, 0, ByteClass::Space);
    if !starts_with_at(line, t, kw) || !word_starts_at(line, t) {
        return false;
    }
    let k = t + kw.len();
    if !(k < n && line[k] == crate::text::BRACKET_OPEN) {
        return false;
    }
    let d = scan_run(line, k + 1, ByteClass::Digit);
    if !(k + 1 < d && d < n && line[d] == crate::text::BRACKET_CLOSE) {
        return false;
    }
    d + 1 < n && line[d + 1] == COLON
}

/// Carries mods over to a profile: writes its file anew with the list of
/// `mods` in place of its own.
///
/// Lines that list a mod are left out. Each line that counts the mods is
/// replaced by the new count and the new list, indented as that line
/// was. Lines are joined by a carriage return and a line feed. A profile
/// without a line that counts its mods is not changed: that is an error.
pub fn inject_mods(content: &[u8], mods: &Vec<Vec<u8>>) -> (r: Result<Vec<u8>, ModsError>)
    ensures
        injected_view(r) == injected(content@, list_view(mods@)),
{
    let kw = key("active_mods");
    let n = content.len();
    let mut lines: Vec<Vec<u8>> = Vec::new();
    let mut found = false;
    let mut i: usize = 0;
    let ghost ms = list_view(mods@);
    assert(list_view(lines@) =~= Seq::<Seq<u8>>::empty());
    while i < n
        invariant
            n == content@.len(),
            i <= n,
            kw@ == kw_mods(),
            ms == list_view(mods@),
            counts_mods_from(content@, 0) == (found || counts_mods_from(content@, i as int)),
            injected_from(content@, ms, 0, Seq::<Seq<u8>>::empty()) == injected_from(
                content@,
                ms,
                i as int,
                list_view(lines@),
            ),
        decreases n - i,
    {
        let e = scan_run(content, i, ByteClass::Not(LINE_FEED));
        let t: usize = if e < n && i < e && content[e - 1] == CARRIAGE_RETURN {
            e - 1
        } else {
            e
        };
        let line = slice_subrange(content, i, t);
        let ghost before = list_view(lines@);
        if !check_mod_line(line, kw.as_slice()) {
            let w = scan_run(line, 0, ByteClass::Space);
            if match_hit(line, kw.as_slice(), false, Shape::Digits, w).is_some() {
                found = true;
                let indent = slice_subrange(line, 0, w);
                let mut count = copy_range(indent, 0, indent.len());
                append(&mut count, key("active_mods: ").as_slice());
                append(&mut count, usize_to_decimal(mods.len()).as_slice());
                assert(count@ =~= count_line(indent@, ms.len()));
                lines.push(count);
                assert(list_view(lines@) =~= before.push(count_line(indent@, ms.len())));
                let mut j: usize = 0;
                while j < mods.len()
                    invariant
                        j <= mods@.len(),
                        ms == list_view(mods@),
                        mod_lines(indent@, ms, 0, before.push(count_line(indent@, ms.len())))
                            == mod_lines(indent@, ms, j as int, list_view(lines@)),
                    decreases mods@.len() - j,
                {
                    let ghost had = list_view(lines@);
                    let mut l = copy_range(indent, 0, indent.len());
                    append(&mut l, key("active_mods[").as_slice());
                    append(&mut l, usize_to_decimal(j).as_slice());
                    append(&mut l, key("]: \"").as_slice());
                    append(&mut l, mods[j].as_slice());
                    l.push(QUOTE);
                    assert(l@ =~= mod_line(indent@, j as nat, ms[j as int]));
                    lines.push(l);
                    assert(list_view(lines@) =~= had.push(mod_line(indent@, j as nat, ms[j as int])));
                    j = j + 1;
                }
            } else {
                let kept = copy_range(line, 0, line.len());
                assert(kept@ =~= line@);
                lines.push(kept);
                assert(list_view(lines@) =~= before.push(line@));
            }
        }
        if e >= n {
            assert(!counts_mods_from(content@, e + 1));
            assert(injected_from(content@, ms, e + 1, list_view(lines@)) == list_view(lines@));
            i = n;
        } else {
            i = e + 1;
        }
    }
    if !found {
        return Err(ModsError::CountNotFound);
    }
    let mut out: Vec<u8> = Vec::new();
    let mut j: usize = 0;
    while j < lines.len()
        invariant
            j <= lines@.len(),
            joined_from(list_view(lines@), 0, Seq::<u8>::empty()) == joined_from(
                list_view(lines@),
                j as int,
                out@,
            ),
        decreases lines@.len() - j,
    {
        let ghost had = out@;
        if j > 0 {
            out.push(CARRIAGE_RETURN);
            out.push(LINE_FEED);
        }
        append(&mut out, lines[j].as_slice());
        proof {
            if j > 0 {
                assert(out@ =~= had + line_break() + lines@[j as int]@);
            }
        }
        j = j + 1;
    }
    Ok(out)
}

} // verus!
