//! Directory listings and file lookups: the record of each entry, the
//! permission string, the modification time and the file contents.
use vstd::prelude::*;
use crate::args::ToolArgs;
use crate::passwd::opt_view;
use crate::record::{
    lemma_record_order, lemma_sort_orders, lemma_sort_permutes, name_key, ordered, text_le,
    record_view, records_view, sort_records, stable_sort, record_le, Field, FieldValue, RecordView,
    SortKey, ValueView,
};
use crate::text::{has_prefix, i64_text, push_char, push_str, signed_decimal, starts_with, str_eq, to_chars};

verus! {

// ---------------------------------------------------------------------------
// Permissions
// ---------------------------------------------------------------------------

/// The mode bit shown at position `i` of the permission string (owner
/// read, write, execute, then group, then others).
pub open spec fn perm_bit(i: int) -> u32 {
    if i == 0 { 0o400 }
    else if i == 1 { 0o200 }
    else if i == 2 { 0o100 }
    else if i == 3 { 0o040 }
    else if i == 4 { 0o020 }
    else if i == 5 { 0o010 }
    else if i == 6 { 0o004 }
    else if i == 7 { 0o002 }
    else { 0o001 }
}

/// The letter shown at position `i` when its bit is set.
pub open spec fn perm_letter(i: int) -> char {
    if i % 3 == 0 { 'r' } else if i % 3 == 1 { 'w' } else { 'x' }
}

/// The nine-character permission string of a mode (`rwxr-x---`).
pub open spec fn perms_text(mode: u32) -> Seq<char> {
    Seq::new(9, |i: int| if mode & perm_bit(i) != 0 { perm_letter(i) } else { '-' })
}

fn bit_at(i: usize) -> (b: u32)
    requires
        i < 9,
    ensures
        b == perm_bit(i as int),
{
    if i == 0 { 0o400 }
    else if i == 1 { 0o200 }
    else if i == 2 { 0o100 }
    else if i == 3 { 0o040 }
    else if i == 4 { 0o020 }
    else if i == 5 { 0o010 }
    else if i == 6 { 0o004 }
    else if i == 7 { 0o002 }
    else { 0o001 }
}

fn letter_at(i: usize) -> (c: char)
    ensures
        c == perm_letter(i as int),
{
    if i % 3 == 0 { 'r' } else if i % 3 == 1 { 'w' } else { 'x' }
}

/// The permission string of a Unix mode.
pub fn unix_perms(mode: u32) -> (r: String)
    ensures
        r@ == perms_text(mode),
{
    let mut r = String::new();
    for i in 0..9
        invariant
            r@ == perms_text(mode).take(i as int),
    {
        let c = if mode & bit_at(i) != 0 { letter_at(i) } else { '-' };
        push_char(&mut r, c);
        assert(r@ =~= perms_text(mode).take(i + 1));
    }
    assert(perms_text(mode).take(9) =~= perms_text(mode));
    r
}

/// Each of the nine characters of the permission string shows one mode bit,
/// from `0o400` (owner read) down to `0o001` (others execute): its letter
/// (`rwxrwxrwx`) where the bit is set, `-` where it is not.
pub proof fn law_perms_bits(mode: u32)
    ensures
        perms_text(mode).len() == 9,
        forall|i: int| 0 <= i < 9 ==> #[trigger] perms_text(mode)[i] == if mode & (0o400u32 >> (i as u32)) != 0 {
            perm_letter(i)
        } else {
            '-'
        },
{
    assert(0o400u32 >> 0u32 == 0o400u32 && 0o400u32 >> 1u32 == 0o200u32 && 0o400u32 >> 2u32 == 0o100u32
        && 0o400u32 >> 3u32 == 0o040u32 && 0o400u32 >> 4u32 == 0o020u32 && 0o400u32 >> 5u32 == 0o010u32
        && 0o400u32 >> 6u32 == 0o004u32 && 0o400u32 >> 7u32 == 0o002u32 && 0o400u32 >> 8u32 == 0o001u32) by (bit_vector);
    assert forall|i: int| 0 <= i < 9 implies #[trigger] perms_text(mode)[i] == if mode & (0o400u32 >> (i as u32)) != 0 {
        perm_letter(i)
    } else {
        '-'
    } by {
        assert(perm_bit(i) == 0o400u32 >> (i as u32));
    }
}

/// Whether two modes agree on each of the nine permission bits.
pub open spec fn bits_agree(a: u32, b: u32) -> bool {
    &&& (a & 0o400 != 0 <==> b & 0o400 != 0)
    &&& (a & 0o200 != 0 <==> b & 0o200 != 0)
    &&& (a & 0o100 != 0 <==> b & 0o100 != 0)
    &&& (a & 0o040 != 0 <==> b & 0o040 != 0)
    &&& (a & 0o020 != 0 <==> b & 0o020 != 0)
    &&& (a & 0o010 != 0 <==> b & 0o010 != 0)
    &&& (a & 0o004 != 0 <==> b & 0o004 != 0)
    &&& (a & 0o002 != 0 <==> b & 0o002 != 0)
    &&& (a & 0o001 != 0 <==> b & 0o001 != 0)
}

/// Only the nine permission bits of a mode show: two modes give the same
/// permission string exactly when their bits under `0o777` agree.
pub proof fn law_perms_low_bits(a: u32, b: u32)
    ensures
        perms_text(a) == perms_text(b) <==> a & 0o777 == b & 0o777,
        perms_text(a) == perms_text(a & 0o777),
{
    assert((a & 0o777 == b & 0o777) <==> bits_agree(a, b)) by (bit_vector);
    if bits_agree(a, b) {
        assert(perms_text(a) =~= perms_text(b));
    }
    if perms_text(a) == perms_text(b) {
        assert forall|i: int| 0 <= i < 9 implies (a & perm_bit(i) != 0 <==> b & perm_bit(i) != 0) by {
            assert(perms_text(a)[i] == perms_text(b)[i]);
        }
        assert(a & perm_bit(0) != 0 <==> b & perm_bit(0) != 0);
        assert(a & perm_bit(1) != 0 <==> b & perm_bit(1) != 0);
        assert(a & perm_bit(2) != 0 <==> b & perm_bit(2) != 0);
        assert(a & perm_bit(3) != 0 <==> b & perm_bit(3) != 0);
        assert(a & perm_bit(4) != 0 <==> b & perm_bit(4) != 0);
        assert(a & perm_bit(5) != 0 <==> b & perm_bit(5) != 0);
        assert(a & perm_bit(6) != 0 <==> b & perm_bit(6) != 0);
        assert(a & perm_bit(7) != 0 <==> b & perm_bit(7) != 0);
        assert(a & perm_bit(8) != 0 <==> b & perm_bit(8) != 0);
        assert(bits_agree(a, b));
    }
    let c = a & 0o777;
    assert(bits_agree(a, a & 0o777)) by (bit_vector);
    assert(perms_text(a) =~= perms_text(c));
}

// ---------------------------------------------------------------------------
// Modification times
// ---------------------------------------------------------------------------

/// The strftime fields a modification time may be written with: year,
/// month, day, hour, minute, second.
pub open spec fn calendar_field(c: char) -> bool {
    c == 'Y' || c == 'm' || c == 'd' || c == 'H' || c == 'M' || c == 'S'
}

/// A strftime format made of plain text and the fields above: each `%` is
/// followed by one of them. chrono formats such a format without error.
pub open spec fn plain_calendar_format(f: Seq<char>) -> bool {
    forall|i: int| 0 <= i < f.len() && #[trigger] f[i] == '%' ==> i + 1 < f.len() && calendar_field(f[i + 1])
}

/// What chrono gives for `DateTime::<Utc>::from_timestamp(secs, 0)` written
/// with the strftime format `fmt`; `None` where chrono has no date for that
/// many seconds.
pub uninterp spec fn utc_timestamp_text(secs: i64, fmt: Seq<char>) -> Option<Seq<char>>;

/// chrono's `DateTime::from_timestamp(secs, 0)`, then `format(fmt)` and
/// `to_string()`. The contract names the result and says nothing of the
/// calendar arithmetic behind it. `to_string` panics on a format chrono
/// cannot read, so the format is held to plain text and the six fields.
#[verifier::external_body]
fn format_utc(secs: i64, fmt: &str) -> (r: Option<String>)
    requires
        plain_calendar_format(fmt@),
    ensures
        opt_view(r) == utc_timestamp_text(secs, fmt@),
{
    match chrono::DateTime::from_timestamp(secs, 0) {
        Some(dt) => Some(dt.format(fmt).to_string()),
        None => None,
    }
}

/// How modification times are written: `2015-05-15 00:00:00 UTC`.
pub open spec fn modified_format() -> Seq<char> {
    "%Y-%m-%d %H:%M:%S UTC"@
}

/// How a modification time is shown, given the calendar text chrono made
/// of it: `unknown` without a time, the calendar text where there is one,
/// else the number of seconds (as a signed 64-bit count).
pub open spec fn modified_shown(secs: Option<u64>, calendar: Option<Seq<char>>) -> Seq<char> {
    match secs {
        None => "unknown"@,
        Some(s) => match calendar {
            Some(t) => t,
            None => signed_decimal((s as i64) as int),
        },
    }
}

/// How a modification time is shown: `unknown` without a time, else the
/// time in UTC as `%Y-%m-%d %H:%M:%S UTC`, else the count of seconds.
pub open spec fn modified_text(secs: Option<u64>) -> Seq<char> {
    match secs {
        None => "unknown"@,
        Some(s) => modified_shown(secs, utc_timestamp_text(s as i64, modified_format())),
    }
}

/// Shows a modification time, given what chrono made of it.
pub fn show_modified(secs: Option<u64>, calendar: Option<String>) -> (r: String)
    ensures
        r@ == modified_shown(secs, opt_view(calendar)),
{
    match secs {
        None => "unknown".to_owned(),
        Some(s) => match calendar {
            Some(t) => t,
            None => i64_text(s as i64),
        },
    }
}

/// Formats a modification time given in seconds since the Unix epoch
/// (`None` where the time is not known or lies before the epoch).
pub fn modified_str(secs: Option<u64>) -> (r: String)
    ensures
        r@ == modified_text(secs),
{
    match secs {
        None => show_modified(None, None),
        Some(s) => {
            let fmt = "%Y-%m-%d %H:%M:%S UTC";
            proof {
                reveal_strlit("%Y-%m-%d %H:%M:%S UTC");
                assert(fmt@ == modified_format());
                assert(plain_calendar_format(fmt@));
            }
            let calendar = format_utc(s as i64, fmt);
            show_modified(secs, calendar)
        },
    }
}

// ---------------------------------------------------------------------------
// Hex
// ---------------------------------------------------------------------------

pub open spec fn hex_digit(d: nat) -> char {
    if d < 10 { crate::text::digit_char(d) }
    else if d == 10 { 'a' }
    else if d == 11 { 'b' }
    else if d == 12 { 'c' }
    else if d == 13 { 'd' }
    else if d == 14 { 'e' }
    else { 'f' }
}

/// Two lower-case hex digits per byte, high nibble first.
pub open spec fn hex_lower(bytes: Seq<u8>) -> Seq<char> {
    Seq::new(2 * bytes.len(), |i: int| if i % 2 == 0 {
        hex_digit((bytes[i / 2] / 16) as nat)
    } else {
        hex_digit((bytes[i / 2] % 16) as nat)
    })
}

/// `hex::encode`: each byte as two lower-case hex digits, high nibble
/// first.
#[verifier::external_body]
fn hex_encode(bytes: &[u8]) -> (r: String)
    ensures
        r@ == hex_lower(bytes@),
{
    hex::encode(bytes)
}

/// The number a lower-case hex digit stands for.
pub open spec fn hex_value(c: char) -> nat {
    if '0' <= c && c <= '9' {
        ((c as int) - ('0' as int)) as nat
    } else {
        ((c as int) - ('a' as int) + 10) as nat
    }
}

/// The bytes a text of hex digit pairs stands for, high nibble first.
pub open spec fn hex_bytes(s: Seq<char>) -> Seq<u8> {
    Seq::new(s.len() / 2, |i: int| (hex_value(s[2 * i]) * 16 + hex_value(s[2 * i + 1])) as u8)
}

proof fn lemma_hex_digit_value(d: nat)
    requires
        d < 16,
    ensures
        hex_value(hex_digit(d)) == d,
{
}

/// Hex content decodes back to the bytes it was made of.
pub proof fn law_hex_round_trip(bytes: Seq<u8>)
    ensures
        hex_bytes(hex_lower(bytes)) == bytes,
{
    let h = hex_lower(bytes);
    assert(h.len() / 2 == bytes.len());
    assert forall|i: int| 0 <= i < bytes.len() implies #[trigger] hex_bytes(h)[i] == bytes[i] by {
        let b = bytes[i];
        assert((2 * i) / 2 == i && (2 * i) % 2 == 0);
        assert((2 * i + 1) / 2 == i && (2 * i + 1) % 2 == 1);
        lemma_hex_digit_value((b / 16) as nat);
        lemma_hex_digit_value((b % 16) as nat);
        assert(h[2 * i] == hex_digit((b / 16) as nat));
        assert(h[2 * i + 1] == hex_digit((b % 16) as nat));
        assert((b / 16) * 16 + b % 16 == b);
    }
    assert(hex_bytes(h) =~= bytes);
}

// ---------------------------------------------------------------------------
// Entry records
// ---------------------------------------------------------------------------

/// What `stat` tells of a file.
pub struct FileMeta {
    pub mode: u32,
    pub size: u64,
    /// Seconds since the Unix epoch of the last modification, where known
    /// and not before the epoch.
    pub modified: Option<u64>,
}

/// Which of the optional fields to show.
#[derive(Clone, Copy)]
pub struct StatFlags {
    pub permissions: bool,
    pub size: bool,
    pub modified: bool,
}

pub open spec fn stat_flags(args: ToolArgs) -> StatFlags {
    StatFlags {
        permissions: args.flag("show_permissions"@),
        size: args.flag("show_size"@),
        modified: args.flag("show_modified"@),
    }
}

/// The optional fields of a record: permissions, size, modification time,
/// each where asked for and the metadata is known.
pub open spec fn stat_fields(meta: Option<FileMeta>, flags: StatFlags) -> RecordView {
    match meta {
        None => Seq::empty(),
        Some(m) => {
            (if flags.permissions { seq![("permissions"@, ValueView::Text(perms_text(m.mode)))] } else { Seq::empty() })
            + (if flags.size { seq![("size"@, ValueView::Count(m.size))] } else { Seq::empty() })
            + (if flags.modified { seq![("modified"@, ValueView::Text(modified_text(m.modified)))] } else { Seq::empty() })
        },
    }
}

fn read_flags(args: &ToolArgs) -> (f: StatFlags)
    ensures
        f == stat_flags(*args),
{
    StatFlags {
        permissions: args.flag_arg("show_permissions"),
        size: args.flag_arg("show_size"),
        modified: args.flag_arg("show_modified"),
    }
}

fn text_field_of(key: &str, value: String) -> (f: Field)
    ensures
        f@ == (key@, ValueView::Text(value@)),
{
    Field { key: key.to_owned(), value: FieldValue::Text(value) }
}

fn push_stat_fields(r: &mut Vec<Field>, meta: &Option<FileMeta>, flags: StatFlags)
    ensures
        record_view(final(r)@) == record_view(old(r)@) + stat_fields(*meta, flags),
{
    let ghost start = record_view(r@);
    match meta {
        None => {
            assert(record_view(r@) =~= start + stat_fields(*meta, flags));
        },
        Some(m) => {
            let ghost p: RecordView = if flags.permissions { seq![("permissions"@, ValueView::Text(perms_text(m.mode)))] } else { Seq::empty() };
            let ghost s: RecordView = if flags.size { seq![("size"@, ValueView::Count(m.size))] } else { Seq::empty() };
            if flags.permissions {
                r.push(text_field_of("permissions", unix_perms(m.mode)));
            }
            assert(record_view(r@) =~= start + p);
            if flags.size {
                r.push(Field { key: "size".to_owned(), value: FieldValue::Count(m.size) });
            }
            assert(record_view(r@) =~= start + p + s);
            if flags.modified {
                r.push(text_field_of("modified", modified_str(m.modified)));
            }
            assert(record_view(r@) =~= start + stat_fields(*meta, flags));
        },
    }
}

// ---------------------------------------------------------------------------
// read:list_dir
// ---------------------------------------------------------------------------

/// The kind of a directory entry.
#[derive(Clone, Copy, PartialEq, Eq, Structural)]
pub enum EntryKind {
    Directory,
    Symlink,
    File,
    /// Anything else, or a type that could not be read.
    Other,
}

pub open spec fn kind_text(k: EntryKind) -> Seq<char> {
    match k {
        EntryKind::Directory => "directory"@,
        EntryKind::Symlink => "symlink"@,
        EntryKind::File => "file"@,
        EntryKind::Other => "other"@,
    }
}

/// One entry of a directory.
pub struct DirEntryInfo {
    pub name: String,
    pub kind: EntryKind,
    /// Its metadata, where it could be read.
    pub meta: Option<FileMeta>,
}

/// The record of a directory entry.
pub open spec fn entry_record(e: DirEntryInfo, flags: StatFlags) -> RecordView {
    seq![("name"@, ValueView::Text(e.name@)), ("type"@, ValueView::Text(kind_text(e.kind)))]
        + stat_fields(e.meta, flags)
}

/// Whether an entry is listed: dot-files only when hidden ones are asked for.
pub open spec fn entry_shown(e: DirEntryInfo, show_hidden: bool) -> bool {
    show_hidden || !has_prefix(e.name@, "."@)
}

pub open spec fn shown_records(es: Seq<DirEntryInfo>, flags: StatFlags, show_hidden: bool) -> Seq<RecordView>
    decreases es.len(),
{
    if es.len() == 0 {
        Seq::empty()
    } else {
        let prev = shown_records(es.drop_last(), flags, show_hidden);
        if entry_shown(es.last(), show_hidden) { prev.push(entry_record(es.last(), flags)) } else { prev }
    }
}

/// What `read:list_dir` lists: the record of each shown entry, ordered by
/// name.
pub open spec fn dir_listing(args: ToolArgs, es: Seq<DirEntryInfo>) -> Seq<RecordView> {
    stable_sort(shown_records(es, stat_flags(args), args.flag("show_hidden"@)), record_le(SortKey::Name))
}

fn kind_name(k: EntryKind) -> (s: String)
    ensures
        s@ == kind_text(k),
{
    match k {
        EntryKind::Directory => "directory".to_owned(),
        EntryKind::Symlink => "symlink".to_owned(),
        EntryKind::File => "file".to_owned(),
        EntryKind::Other => "other".to_owned(),
    }
}

fn entry_fields(e: &DirEntryInfo, flags: StatFlags) -> (r: Vec<Field>)
    ensures
        record_view(r@) == entry_record(*e, flags),
{
    let mut r: Vec<Field> = Vec::new();
    r.push(text_field_of("name", e.name.clone()));
    r.push(text_field_of("type", kind_name(e.kind)));
    assert(record_view(r@) =~= seq![("name"@, ValueView::Text(e.name@)), ("type"@, ValueView::Text(kind_text(e.kind)))]);
    push_stat_fields(&mut r, &e.meta, flags);
    r
}

/// The directory `read:list_dir` lists, if one is given (else the working
/// directory).
pub fn dir_path(args: &ToolArgs) -> (r: Option<String>)
    ensures
        opt_view(r) == args.text("path"@),
{
    args.text_arg("path")
}

/// The error for a directory that cannot be read.
pub fn dir_error(path: &str, err: &str) -> (r: String)
    ensures
        r@ == "Cannot read directory "@ + path@ + ": "@ + err@,
{
    let mut m = String::new();
    push_str(&mut m, "Cannot read directory ");
    push_str(&mut m, path);
    push_str(&mut m, ": ");
    push_str(&mut m, err);
    m
}

/// `read:list_dir`: the records of a directory's entries.
pub fn list_dir(args: &ToolArgs, entries: &Vec<DirEntryInfo>) -> (r: Vec<Vec<Field>>)
    ensures
        records_view(r@) == dir_listing(*args, entries@),
{
    let flags = read_flags(args);
    let show_hidden = args.flag_arg("show_hidden");
    let dot = to_chars(".");
    let mut items: Vec<Vec<Field>> = Vec::new();
    assert(entries@.take(0) =~= Seq::<DirEntryInfo>::empty());
    assert(records_view(items@) =~= shown_records(entries@.take(0), flags, show_hidden));
    for i in 0..entries.len()
        invariant
            flags == stat_flags(*args),
            show_hidden == args.flag("show_hidden"@),
            dot@ == "."@,
            records_view(items@) == shown_records(entries@.take(i as int), flags, show_hidden),
    {
        let e = &entries[i];
        assert(entries@.take(i + 1).drop_last() =~= entries@.take(i as int));
        assert(entries@.take(i + 1).last() == *e);
        let name = to_chars(e.name.as_str());
        if show_hidden || !starts_with(name.as_slice(), dot.as_slice()) {
            let rec = entry_fields(e, flags);
            let ghost before = items@;
            items.push(rec);
            assert(records_view(items@) =~= records_view(before).push(record_view(rec@)));
        }
    }
    assert(entries@.take(entries.len() as int) =~= entries@);
    sort_records(items, SortKey::Name)
}

// ---------------------------------------------------------------------------
// read:get_file
// ---------------------------------------------------------------------------

/// How file contents are returned.
#[derive(Clone, Copy, PartialEq, Eq, Structural)]
pub enum ContentMode {
    /// Not at all.
    Skip,
    /// As text.
    Text,
    /// As lower-case hex.
    Hex,
}

/// What `read:get_file` was asked for.
pub struct FileQuery {
    pub pattern: String,
    /// The most files to return.
    pub limit: u64,
    pub flags: StatFlags,
    pub content: ContentMode,
}

/// The positions of the regular files among the paths a pattern matched,
/// in order.
pub open spec fn file_positions(is_file: Seq<bool>) -> Seq<int>
    decreases is_file.len(),
{
    if is_file.len() == 0 {
        Seq::empty()
    } else {
        let prev = file_positions(is_file.drop_last());
        if is_file.last() { prev.push(is_file.len() - 1) } else { prev }
    }
}

/// The paths `read:get_file` lists, by position among those the pattern
/// matched: the regular files, in the order matched, the first `limit` of
/// them.
pub open spec fn selected_files(is_file: Seq<bool>, limit: u64) -> Seq<int> {
    let all = file_positions(is_file);
    if all.len() <= limit { all } else { all.take(limit as int) }
}

/// Picks the paths `read:get_file` lists, given whether each path the
/// pattern matched is a regular file.
pub fn select_files(is_file: &Vec<bool>, limit: u64) -> (r: Vec<usize>)
    ensures
        r@.len() == selected_files(is_file@, limit).len(),
        forall|i: int| 0 <= i < r@.len() ==> #[trigger] r@[i] as int == selected_files(is_file@, limit)[i],
{
    let mut r: Vec<usize> = Vec::new();
    let mut k: usize = 0;
    assert(is_file@.take(0) =~= Seq::<bool>::empty());
    while k < is_file.len()
        invariant
            k <= is_file@.len(),
            r@.len() <= limit,
            r@.len() == limit || r@.len() == file_positions(is_file@.take(k as int)).len(),
            r@.len() <= file_positions(is_file@.take(k as int)).len(),
            forall|i: int| 0 <= i < r@.len() ==> #[trigger] r@[i] as int == file_positions(is_file@.take(k as int))[i],
        decreases is_file.len() - k,
    {
        assert(is_file@.take(k + 1).drop_last() =~= is_file@.take(k as int));
        proof {
            lemma_positions_prefix(is_file@, k as int);
        }
        if is_file[k] && (r.len() as u64) < limit {
            r.push(k);
        }
        k = k + 1;
    }
    assert(is_file@.take(k as int) =~= is_file@);
    r
}

proof fn lemma_positions_prefix(s: Seq<bool>, k: int)
    requires
        0 <= k < s.len(),
    ensures
        forall|i: int| 0 <= i < file_positions(s.take(k)).len() ==> #[trigger] file_positions(s.take(k + 1))[i] == file_positions(s.take(k))[i],
        file_positions(s.take(k + 1)).len() == file_positions(s.take(k)).len() + (if s[k] { 1int } else { 0int }),
        s[k] ==> file_positions(s.take(k + 1))[file_positions(s.take(k)).len() as int] == k,
{
    assert(s.take(k + 1).drop_last() =~= s.take(k));
    assert(s.take(k + 1).last() == s[k]);
}

pub open spec fn content_mode(args: ToolArgs) -> ContentMode {
    match args.text("content"@) {
        Some(m) => if m == "text"@ { ContentMode::Text } else if m == "hex"@ { ContentMode::Hex } else { ContentMode::Skip },
        None => ContentMode::Skip,
    }
}

/// `content: "text"` asks for each file's text, `"hex"` for its bytes in
/// hex, and any other value, or none, for no content.
pub proof fn law_content_argument(args: ToolArgs)
    ensures
        args.text("content"@) == Some("text"@) ==> content_mode(args) == ContentMode::Text,
        args.text("content"@) == Some("hex"@) ==> content_mode(args) == ContentMode::Hex,
        args.text("content"@) != Some("text"@) && args.text("content"@) != Some("hex"@) ==> content_mode(args)
            == ContentMode::Skip,
{
    reveal_strlit("text");
    reveal_strlit("hex");
    assert("text"@[0] == 't' && "hex"@[0] == 'h');
}

/// The record of a file read as text carries that text as its content; that
/// of a file read as bytes, their hex; a failed read, its error instead.
pub proof fn law_content_in_record(path: Seq<char>, meta: Option<FileMeta>, flags: StatFlags, text: String, bytes: Vec<u8>, err: String)
    ensures
        crate::record::field(file_record_view(path, meta, flags, ContentRead::Text(Ok(text))), "content"@) == Some(ValueView::Text(text@)),
        crate::record::field(file_record_view(path, meta, flags, ContentRead::Bytes(Ok(bytes))), "content"@) == Some(ValueView::Text(hex_lower(bytes@))),
        crate::record::field(file_record_view(path, meta, flags, ContentRead::Text(Err(err))), "content_error"@) == Some(ValueView::Text(err@)),
        crate::record::field(file_record_view(path, meta, flags, ContentRead::Bytes(Err(err))), "content_error"@) == Some(ValueView::Text(err@)),
{
    let r1 = file_record_view(path, meta, flags, ContentRead::Text(Ok(text)));
    assert(r1.last() == ("content"@, ValueView::Text(text@)));
    let r2 = file_record_view(path, meta, flags, ContentRead::Bytes(Ok(bytes)));
    assert(r2.last() == ("content"@, ValueView::Text(hex_lower(bytes@))));
    let r3 = file_record_view(path, meta, flags, ContentRead::Text(Err(err)));
    assert(r3.last() == ("content_error"@, ValueView::Text(err@)));
    let r4 = file_record_view(path, meta, flags, ContentRead::Bytes(Err(err)));
    assert(r4.last() == ("content_error"@, ValueView::Text(err@)));
}

/// `read:get_file`: what the arguments ask for; the glob pattern is
/// required; without a limit every match is returned.
pub fn get_file(args: &ToolArgs) -> (r: Result<FileQuery, String>)
    ensures
        match r {
            Err(e) => args.text("glob"@).is_none() && e@ == "glob parameter is required"@,
            Ok(q) => {
                &&& args.text("glob"@) == Some(q.pattern@)
                &&& q.limit == match args.count("limit"@) { Some(n) => n, None => u64::MAX }
                &&& q.flags == stat_flags(*args)
                &&& q.content == content_mode(*args)
            },
        },
{
    let pattern = match args.text_arg("glob") {
        Some(p) => p,
        None => {
            let m = "glob parameter is required".to_owned();
            return Err(m);
        },
    };
    let limit = match args.count_arg("limit") {
        Some(n) => n,
        None => u64::MAX,
    };
    let flags = read_flags(args);
    let content = match args.text_arg("content") {
        Some(m) => if str_eq(m.as_str(), "text") {
            ContentMode::Text
        } else if str_eq(m.as_str(), "hex") {
            ContentMode::Hex
        } else {
            ContentMode::Skip
        },
        None => ContentMode::Skip,
    };
    Ok(FileQuery { pattern, limit, flags, content })
}

/// What reading a file's contents gave, as the content mode asked.
pub enum ContentRead {
    Skipped,
    Text(Result<String, String>),
    Bytes(Result<Vec<u8>, String>),
}

/// The content field of a file record.
pub open spec fn content_fields(c: ContentRead) -> RecordView {
    match c {
        ContentRead::Skipped => Seq::empty(),
        ContentRead::Text(Ok(t)) => seq![("content"@, ValueView::Text(t@))],
        ContentRead::Bytes(Ok(b)) => seq![("content"@, ValueView::Text(hex_lower(b@)))],
        ContentRead::Text(Err(e)) => seq![("content_error"@, ValueView::Text(e@))],
        ContentRead::Bytes(Err(e)) => seq![("content_error"@, ValueView::Text(e@))],
    }
}

/// The record of a matched file.
pub open spec fn file_record_view(path: Seq<char>, meta: Option<FileMeta>, flags: StatFlags, c: ContentRead) -> RecordView {
    seq![("path"@, ValueView::Text(path))] + stat_fields(meta, flags) + content_fields(c)
}

/// The record of a matched file, given its path, metadata and contents.
pub fn file_record(q: &FileQuery, path: String, meta: &Option<FileMeta>, content: ContentRead) -> (r: Vec<Field>)
    ensures
        record_view(r@) == file_record_view(path@, *meta, q.flags, content),
{
    let ghost p = path@;
    let ghost cv = content_fields(content);
    let mut r: Vec<Field> = Vec::new();
    r.push(text_field_of("path", path));
    assert(record_view(r@) =~= seq![("path"@, ValueView::Text(p))]);
    push_stat_fields(&mut r, meta, q.flags);
    let ghost before = record_view(r@);
    match content {
        ContentRead::Skipped => {},
        ContentRead::Text(Ok(t)) => { r.push(text_field_of("content", t)); },
        ContentRead::Bytes(Ok(b)) => { r.push(text_field_of("content", hex_encode(b.as_slice()))); },
        ContentRead::Text(Err(e)) => { r.push(text_field_of("content_error", e)); },
        ContentRead::Bytes(Err(e)) => { r.push(text_field_of("content_error", e)); },
    }
    assert(record_view(r@) =~= before + cv);
    r
}

/// The error for a glob pattern that does not parse.
pub fn pattern_error(err: &str) -> (r: String)
    ensures
        r@ == "Invalid glob pattern: "@ + err@,
{
    let mut m = String::new();
    push_str(&mut m, "Invalid glob pattern: ");
    push_str(&mut m, err);
    m
}

// ---------------------------------------------------------------------------
// Laws
// ---------------------------------------------------------------------------

/// A directory listing is ordered by name and holds the record of every
/// shown entry, each once per entry.
pub proof fn law_dir_listing(args: ToolArgs, es: Seq<DirEntryInfo>)
    ensures
        ({
            let listing = dir_listing(args, es);
            let shown = shown_records(es, stat_flags(args), args.flag("show_hidden"@));
            &&& forall|i: int, j: int| 0 <= i < j < listing.len() ==> text_le(name_key(#[trigger] listing[i]), name_key(#[trigger] listing[j]))
            &&& listing.to_multiset() == shown.to_multiset()
        }),
{
    let shown = shown_records(es, stat_flags(args), args.flag("show_hidden"@));
    let le = record_le(SortKey::Name);
    lemma_record_order(SortKey::Name);
    lemma_sort_orders(shown, le);
    lemma_sort_permutes(shown, le);
    let listing = dir_listing(args, es);
    assert forall|i: int, j: int| 0 <= i < j < listing.len() implies text_le(name_key(#[trigger] listing[i]), name_key(#[trigger] listing[j])) by {
        assert(le(listing[i], listing[j]));
    }
}

} // verus!
