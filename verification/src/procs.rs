//! Process listing: the fields of each process record, the filter, the order,
//! and the human-readable sizes and durations shown in them.
use vstd::prelude::*;
use crate::args::ToolArgs;
use crate::passwd::{build_uid_map, name_in, read_view, uid_table, UidMap};
use crate::record::{
    field, insert_ordered, lemma_key_index_bounds, key_index, total_preorder,
    lemma_record_order, lemma_sort_orders, lemma_sort_permutes, ordered, pid_key, insert, insert_field, record_le, record_view, records_view, sort_records, stable_sort, text_field,
    Field, FieldValue, RecordView, SortKey, ValueView,
};
use crate::text::{
    all_digits, decimal, decimal2, digit, digit_char, digits_value, lemma_decimal2_reads_back, lemma_decimal_reads_back,
    lemma_split_append, lemma_split_whole, split_on, has_substring, join, join_strings, push_char, push_decimal,
    push_decimal2, str_eq, string_views, to_chars, to_lowercase, lowercase_text, ascii_lower, ascii_text,
};

verus! {

// ---------------------------------------------------------------------------
// Durations
// ---------------------------------------------------------------------------

/// `h:mm:ss` for a duration of an hour or more, `m:ss` otherwise.
pub open spec fn duration_text(secs: nat) -> Seq<char> {
    let h = secs / 3600;
    let m = (secs % 3600) / 60;
    let s = secs % 60;
    if h > 0 {
        decimal(h) + seq![':'] + decimal2(m) + seq![':'] + decimal2(s)
    } else {
        decimal(m) + seq![':'] + decimal2(s)
    }
}

/// Formats a run time given in seconds.
pub fn format_duration(secs: u64) -> (r: String)
    ensures
        r@ == duration_text(secs as nat),
{
    let h = secs / 3600;
    let m = (secs % 3600) / 60;
    let s = secs % 60;
    let mut r = String::new();
    if h > 0 {
        push_decimal(&mut r, h);
        push_char(&mut r, ':');
        push_decimal2(&mut r, m);
    } else {
        push_decimal(&mut r, m);
    }
    push_char(&mut r, ':');
    push_decimal2(&mut r, s);
    r
}

/// A duration's text reads back as the duration: split at `:`, it gives
/// the hours (where there are any), the minutes and the seconds; each part
/// is decimal digits, the first without a leading zero, the others exactly
/// two digits and below 60.
pub proof fn law_duration_read_back(secs: nat)
    ensures
        ({
            let parts = split_on(duration_text(secs), ':');
            &&& parts.len() == (if secs >= 3600 { 3int } else { 2int })
            &&& forall|i: int| 0 <= i < parts.len() ==> all_digits(#[trigger] parts[i]) && parts[i].len() >= 1
            &&& forall|i: int| 1 <= i < parts.len() ==> (#[trigger] parts[i]).len() == 2 && digits_value(parts[i]) < 60
            &&& (parts[0].len() == 1 || parts[0][0] != '0')
            &&& secs >= 3600 ==> digits_value(parts[0]) >= 1
                && digits_value(parts[0]) * 3600 + digits_value(parts[1]) * 60 + digits_value(parts[2]) == secs
            &&& secs < 3600 ==> digits_value(parts[0]) < 60 && digits_value(parts[0]) * 60 + digits_value(parts[1]) == secs
        }),
{
    let h = secs / 3600;
    let m = (secs % 3600) / 60;
    let s = secs % 60;
    assert(secs == h * 3600 + m * 60 + s && m < 60 && s < 60);
    lemma_decimal2_reads_back(m);
    lemma_decimal2_reads_back(s);
    let sd = decimal2(s);
    let md = decimal2(m);
    assert(forall|i: int| 0 <= i < sd.len() ==> sd[i] != ':');
    assert(forall|i: int| 0 <= i < md.len() ==> md[i] != ':');
    if h > 0 {
        lemma_decimal_reads_back(h);
        let hd = decimal(h);
        assert(forall|i: int| 0 <= i < hd.len() ==> hd[i] != ':');
        lemma_split_append(hd + seq![':'] + md, sd, ':');
        lemma_split_append(hd, md, ':');
        lemma_split_whole(hd, ':');
        let parts = split_on(duration_text(secs), ':');
        assert(parts =~= seq![hd, md, sd]);
    } else {
        assert(m == secs / 60);
        lemma_decimal_reads_back(m);
        let mm = decimal(m);
        assert(forall|i: int| 0 <= i < mm.len() ==> mm[i] != ':');
        lemma_split_append(mm, sd, ':');
        lemma_split_whole(mm, ':');
        let parts = split_on(duration_text(secs), ':');
        assert(parts =~= seq![mm, sd]);
    }
}

// ---------------------------------------------------------------------------
// Sizes
// ---------------------------------------------------------------------------

pub open spec fn two_to(k: nat) -> nat
    decreases k,
{
    if k == 0 { 1 } else { 2 * two_to((k - 1) as nat) }
}

/// How many low bits a double drops from `n`: the binary digits of `n`
/// beyond the 53 that a double's significand holds.
pub open spec fn dropped_bits(n: nat) -> nat
    decreases n,
{
    if n < 0x20000000000000 { 0 } else { 1 + dropped_bits(n / 2) }
}

/// `n as f64`: the nearest number with 53 significant bits, ties to an even
/// significand.
pub open spec fn nearest_double(n: nat) -> nat {
    let unit = two_to(dropped_bits(n));
    let m = n / unit;
    let r = n % unit;
    if 2 * r > unit || (2 * r == unit && m % 2 == 1) {
        (m + 1) * unit
    } else {
        m * unit
    }
}

/// `num / den` in tenths, rounded to nearest with ties to even, as
/// `format!("{:.1}", ..)` rounds the exact value of a double.
pub open spec fn tenths(num: nat, den: nat) -> nat {
    let q = (10 * num) / den;
    let r = (10 * num) % den;
    if 2 * r > den || (2 * r == den && q % 2 == 1) { q + 1 } else { q }
}

/// A number of tenths written with one decimal place.
pub open spec fn one_decimal(t: nat) -> Seq<char> {
    decimal(t / 10) + seq!['.', digit_char(t % 10)]
}

pub open spec fn kib() -> nat { 1024 }
pub open spec fn mib() -> nat { 1048576 }
pub open spec fn gib() -> nat { 1073741824 }

/// A byte count in the largest of G, M, K that it reaches, to one decimal,
/// or in plain bytes below a KiB.
pub open spec fn bytes_text(b: nat) -> Seq<char> {
    if b >= gib() {
        one_decimal(tenths(nearest_double(b), gib())).push('G')
    } else if b >= mib() {
        one_decimal(tenths(b, mib())).push('M')
    } else if b >= kib() {
        one_decimal(tenths(b, kib())).push('K')
    } else {
        decimal(b).push('B')
    }
}

fn rounded_tenths(num: u128, den: u128) -> (t: u64)
    requires
        0 < den <= 0x100000000,
        10 * num <= u128::MAX,
        tenths(num as nat, den as nat) < u64::MAX,
    ensures
        t == tenths(num as nat, den as nat),
{
    let n10 = 10 * num;
    let q = n10 / den;
    let r = n10 % den;
    assert(r < den);
    if 2 * r > den || (2 * r == den && q % 2 == 1) { (q + 1) as u64 } else { q as u64 }
}

fn push_one_decimal(s: &mut String, t: u64)
    ensures
        final(s)@ == old(s)@ + one_decimal(t as nat),
{
    push_decimal(s, t / 10);
    push_char(s, '.');
    let c = digit(t % 10);
    push_char(s, c);
    assert(final(s)@ =~= old(s)@ + one_decimal(t as nat));
}

proof fn lemma_tenths_bound(num: nat, den: nat)
    requires
        den > 0,
    ensures
        tenths(num, den) <= (10 * num) / den + 1,
{
}

proof fn lemma_halve(n: nat, unit: nat)
    requires
        unit > 0,
    ensures
        (n / unit) / 2 == n / (unit * 2),
{
    vstd::arithmetic::div_mod::lemma_div_denominator(n as int, unit as int, 2);
}

/// The value of a `u64` converted to a double.
fn to_double(b: u64) -> (f: u128)
    ensures
        f == nearest_double(b as nat),
        f <= 0x20000000000000000,
{
    let mut x: u64 = b;
    let mut unit: u64 = 1;
    let ghost mut k: nat = 0;
    assert(b as nat / 1 == b as nat);
    while x >= 0x20000000000000
        invariant
            unit == two_to(k),
            1 <= unit <= 0x1000,
            x == b as nat / unit as nat,
            dropped_bits(b as nat) == k + dropped_bits(x as nat),
            unit * x <= b,
        decreases x,
    {
        assert(unit * x <= b);
        assert(unit < 0x800) by (nonlinear_arith)
            requires
                unit * x <= b,
                x >= 0x20000000000000,
                b < 0x10000000000000000,
        ;
        proof {
            lemma_halve(b as nat, unit as nat);
        }
        x = x / 2;
        unit = unit * 2;
        proof {
            k = k + 1;
        }
        assert(unit * x <= b) by (nonlinear_arith)
            requires
                x == b as nat / unit as nat,
                unit > 0,
        {
            vstd::arithmetic::div_mod::lemma_fundamental_div_mod(b as int, unit as int);
        }
    }
    assert(dropped_bits(x as nat) == 0);
    let r: u64 = b % unit;
    let m: u128 = x as u128;
    assert(x == (b as nat) / (unit as nat));
    let up = 2 * (r as u128) > unit as u128 || (2 * (r as u128) == unit as u128 && m % 2 == 1);
    assert((m + 1) * (unit as u128) <= 0x20000000000000000) by (nonlinear_arith)
        requires
            m < 0x20000000000000,
            1 <= unit <= 0x1000,
    {
    }
    assert(m * (unit as u128) <= (m + 1) * (unit as u128)) by (nonlinear_arith);
    let f: u128 = if up { (m + 1) * (unit as u128) } else { m * (unit as u128) };
    f
}

/// Formats a byte count as `12.3G`, `4.0M`, `1.5K` or `512B`.
pub fn format_bytes(bytes: u64) -> (r: String)
    ensures
        r@ == bytes_text(bytes as nat),
{
    let mut r = String::new();
    if bytes >= 1073741824 {
        let f = to_double(bytes);
        proof {
            lemma_tenths_bound(f as nat, gib());
        }
        let t = rounded_tenths(f, 1073741824);
        push_one_decimal(&mut r, t);
        push_char(&mut r, 'G');
    } else if bytes >= 1048576 {
        proof {
            lemma_tenths_bound(bytes as nat, mib());
        }
        let t = rounded_tenths(bytes as u128, 1048576);
        push_one_decimal(&mut r, t);
        push_char(&mut r, 'M');
    } else if bytes >= 1024 {
        proof {
            lemma_tenths_bound(bytes as nat, kib());
        }
        let t = rounded_tenths(bytes as u128, 1024);
        push_one_decimal(&mut r, t);
        push_char(&mut r, 'K');
    } else {
        push_decimal(&mut r, bytes);
        push_char(&mut r, 'B');
    }
    r
}

// ---------------------------------------------------------------------------
// Process records
// ---------------------------------------------------------------------------

/// What is known of one running process.
pub struct ProcSample {
    pub pid: u32,
    /// The real user ID, where the process has one.
    pub uid: Option<u32>,
    /// CPU usage, already formatted (`12.5%`).
    pub cpu: String,
    /// Resident memory in bytes.
    pub memory: u64,
    /// Virtual memory in bytes.
    pub virtual_memory: u64,
    /// Run time in seconds.
    pub run_time: u64,
    /// The scheduler state as the process table names it.
    pub status: String,
    pub name: String,
    /// The command line, word by word.
    pub command: Vec<String>,
}

/// The fields shown when none are asked for, in this order.
pub open spec fn all_fields() -> Seq<Seq<char>> {
    seq!["pid"@, "user"@, "cpu"@, "memory"@, "virtual_memory"@, "time"@, "status"@, "name"@, "command"@]
}

/// The login name of a process's user, `?` where it has no UID or the UID
/// has no name.
pub open spec fn user_text(p: ProcSample, users: Seq<(u32, Seq<char>)>) -> Seq<char> {
    match p.uid {
        Some(u) => match name_in(users, u) {
            Some(n) => n,
            None => "?"@,
        },
        None => "?"@,
    }
}

/// The command line of a process, its words joined by spaces.
pub open spec fn command_text(p: ProcSample) -> Seq<char> {
    join(string_views(p.command@), " "@)
}

/// The value of field `f` for a process; `None` for a field name that is
/// not one of the known ones.
pub open spec fn proc_value(p: ProcSample, users: Seq<(u32, Seq<char>)>, f: Seq<char>) -> Option<ValueView> {
    if f == "pid"@ {
        Some(ValueView::Count(p.pid as u64))
    } else if f == "user"@ {
        Some(ValueView::Text(user_text(p, users)))
    } else if f == "cpu"@ {
        Some(ValueView::Text(p.cpu@))
    } else if f == "memory"@ {
        Some(ValueView::Text(bytes_text(p.memory as nat)))
    } else if f == "virtual_memory"@ {
        Some(ValueView::Text(bytes_text(p.virtual_memory as nat)))
    } else if f == "time"@ {
        Some(ValueView::Text(duration_text(p.run_time as nat)))
    } else if f == "status"@ {
        Some(ValueView::Text(p.status@))
    } else if f == "name"@ {
        Some(ValueView::Text(p.name@))
    } else if f == "command"@ {
        Some(ValueView::Text(command_text(p)))
    } else {
        None
    }
}

/// The record of a process: the known fields asked for, each once, in the
/// order first asked.
pub open spec fn proc_record(p: ProcSample, users: Seq<(u32, Seq<char>)>, fields: Seq<Seq<char>>) -> RecordView
    decreases fields.len(),
{
    if fields.len() == 0 {
        Seq::empty()
    } else {
        let r = proc_record(p, users, fields.drop_last());
        match proc_value(p, users, fields.last()) {
            Some(v) => insert_field(r, fields.last(), v),
            None => r,
        }
    }
}

/// Whether the text under `key` contains `needle` once lower-cased.
pub open spec fn key_contains(r: RecordView, key: Seq<char>, needle: Seq<char>) -> bool {
    match text_field(r, key) {
        Some(v) => has_substring(lowercase_text(v), needle),
        None => false,
    }
}

/// Whether a record passes the filter (already lower-cased): its command,
/// name or user contains it.
pub open spec fn passes_filter(r: RecordView, needle: Option<Seq<char>>) -> bool {
    match needle {
        None => true,
        Some(n) => key_contains(r, "command"@, n) || key_contains(r, "name"@, n) || key_contains(r, "user"@, n),
    }
}

/// The records that pass the filter, in order.
pub open spec fn keep_passing(rs: Seq<RecordView>, needle: Option<Seq<char>>) -> Seq<RecordView>
    decreases rs.len(),
{
    if rs.len() == 0 {
        Seq::empty()
    } else {
        let prev = keep_passing(rs.drop_last(), needle);
        if passes_filter(rs.last(), needle) { prev.push(rs.last()) } else { prev }
    }
}

/// Whether a process passes the filter (already lower-cased): its command,
/// name or user, lower-cased, contains it. The fields shown play no part.
pub open spec fn sample_passes(p: ProcSample, users: Seq<(u32, Seq<char>)>, needle: Option<Seq<char>>) -> bool {
    match needle {
        None => true,
        Some(n) => has_substring(lowercase_text(command_text(p)), n)
            || has_substring(lowercase_text(p.name@), n)
            || has_substring(lowercase_text(user_text(p, users)), n),
    }
}

/// The processes that pass the filter, in order.
pub open spec fn passing_samples(ps: Seq<ProcSample>, users: Seq<(u32, Seq<char>)>, needle: Option<Seq<char>>) -> Seq<ProcSample>
    decreases ps.len(),
{
    if ps.len() == 0 {
        Seq::empty()
    } else {
        let prev = passing_samples(ps.drop_last(), users, needle);
        if sample_passes(ps.last(), users, needle) { prev.push(ps.last()) } else { prev }
    }
}

/// The records of the processes, with the fields asked for.
pub open spec fn proc_records(ps: Seq<ProcSample>, users: Seq<(u32, Seq<char>)>, fields: Seq<Seq<char>>) -> Seq<RecordView> {
    Seq::new(ps.len(), |i: int| proc_record(ps[i], users, fields))
}

/// The fields a listing shows: those asked for, else all of them.
pub open spec fn listed_fields(args: ToolArgs) -> Seq<Seq<char>> {
    match args.text_list("fields"@) {
        Some(l) => l,
        None => all_fields(),
    }
}

/// The filter of a listing, lower-cased.
pub open spec fn listing_needle(args: ToolArgs) -> Option<Seq<char>> {
    match args.text("filter"@) {
        Some(f) => Some(lowercase_text(f)),
        None => None,
    }
}

/// What `read:list_procs` lists: of the processes whose command, name or
/// user contains the filter (whatever fields are shown), the record with the
/// fields asked for (all by default), ordered by PID.
pub open spec fn proc_listing(args: ToolArgs, passwd: Result<Seq<char>, Seq<char>>, ps: Seq<ProcSample>) -> Seq<RecordView> {
    let users = uid_table(passwd);
    stable_sort(
        proc_records(passing_samples(ps, users, listing_needle(args)), users, listed_fields(args)),
        record_le(SortKey::Pid),
    )
}

fn user_name(p: &ProcSample, users: &UidMap) -> (r: String)
    ensures
        r@ == user_text(*p, users@),
{
    match p.uid {
        Some(u) => match users.name_of(u) {
            Some(n) => n,
            None => "?".to_owned(),
        },
        None => "?".to_owned(),
    }
}

fn text_value(s: String) -> (v: FieldValue)
    ensures
        v@ == ValueView::Text(s@),
{
    FieldValue::Text(s)
}

/// Adds field `f` of a process to its record, if `f` is a known field.
fn add_proc_field(r: &mut Vec<Field>, p: &ProcSample, users: &UidMap, f: &str)
    ensures
        record_view(final(r)@) == match proc_value(*p, users@, f@) {
            Some(v) => insert_field(record_view(old(r)@), f@, v),
            None => record_view(old(r)@),
        },
{
    if str_eq(f, "pid") {
        insert(r, f, FieldValue::Count(p.pid as u64));
    } else if str_eq(f, "user") {
        insert(r, f, text_value(user_name(p, users)));
    } else if str_eq(f, "cpu") {
        insert(r, f, text_value(p.cpu.clone()));
    } else if str_eq(f, "memory") {
        insert(r, f, text_value(format_bytes(p.memory)));
    } else if str_eq(f, "virtual_memory") {
        insert(r, f, text_value(format_bytes(p.virtual_memory)));
    } else if str_eq(f, "time") {
        insert(r, f, text_value(format_duration(p.run_time)));
    } else if str_eq(f, "status") {
        insert(r, f, text_value(p.status.clone()));
    } else if str_eq(f, "name") {
        insert(r, f, text_value(p.name.clone()));
    } else if str_eq(f, "command") {
        insert(r, f, text_value(join_strings(&p.command, " ")));
    }
}

/// The record of one process with the given fields.
pub fn proc_fields(p: &ProcSample, users: &UidMap, fields: &Vec<String>) -> (r: Vec<Field>)
    ensures
        record_view(r@) == proc_record(*p, users@, string_views(fields@)),
{
    let ghost fs = string_views(fields@);
    let mut r: Vec<Field> = Vec::new();
    assert(record_view(r@) =~= proc_record(*p, users@, fs.take(0)));
    for i in 0..fields.len()
        invariant
            fs == string_views(fields@),
            record_view(r@) == proc_record(*p, users@, fs.take(i as int)),
    {
        assert(fs.take(i + 1).drop_last() =~= fs.take(i as int));
        assert(fs.take(i + 1).last() == fields@[i as int]@);
        add_proc_field(&mut r, p, users, fields[i].as_str());
    }
    assert(fs.take(fields.len() as int) =~= fs);
    r
}

pub open spec fn opt_chars(o: Option<Vec<char>>) -> Option<Seq<char>> {
    match o {
        Some(n) => Some(n@),
        None => None,
    }
}

/// Whether `t`, lower-cased, contains `needle`.
fn contains_lower(t: &str, needle: &[char]) -> (b: bool)
    ensures
        b == has_substring(lowercase_text(t@), needle@),
{
    let low = to_lowercase(t);
    let cs = to_chars(low.as_str());
    crate::text::contains_chars(cs.as_slice(), needle)
}

/// Whether a process passes the filter.
fn filter_passes(p: &ProcSample, users: &UidMap, needle: &Option<Vec<char>>) -> (b: bool)
    ensures
        b == sample_passes(*p, users@, opt_chars(*needle)),
{
    match needle {
        None => true,
        Some(n) => {
            let command = join_strings(&p.command, " ");
            if contains_lower(command.as_str(), n.as_slice()) {
                return true;
            }
            if contains_lower(p.name.as_str(), n.as_slice()) {
                return true;
            }
            let user = user_name(p, users);
            contains_lower(user.as_str(), n.as_slice())
        },
    }
}

fn default_fields() -> (r: Vec<String>)
    ensures
        string_views(r@) == all_fields(),
{
    let mut r: Vec<String> = Vec::new();
    r.push("pid".to_owned());
    r.push("user".to_owned());
    r.push("cpu".to_owned());
    r.push("memory".to_owned());
    r.push("virtual_memory".to_owned());
    r.push("time".to_owned());
    r.push("status".to_owned());
    r.push("name".to_owned());
    r.push("command".to_owned());
    assert(string_views(r@) =~= all_fields());
    r
}

/// `read:list_procs`: the process records, given the arguments, the user
/// database (or its read error) and the processes found.
pub fn list_procs(args: &ToolArgs, passwd: &Result<String, String>, ps: &Vec<ProcSample>) -> (r: Vec<Vec<Field>>)
    ensures
        records_view(r@) == proc_listing(*args, read_view(*passwd), ps@),
{
    let needle: Option<Vec<char>> = match args.text_arg("filter") {
        Some(f) => {
            let low = to_lowercase(f.as_str());
            Some(to_chars(low.as_str()))
        },
        None => None,
    };
    let fields = match args.text_list_arg("fields") {
        Some(l) => l,
        None => default_fields(),
    };
    let users = build_uid_map(passwd);
    let ghost fs = string_views(fields@);
    let ghost nv = opt_chars(needle);
    let mut kept: Vec<Vec<Field>> = Vec::new();
    assert(ps@.take(0) =~= Seq::<ProcSample>::empty());
    assert(records_view(kept@) =~= proc_records(passing_samples(ps@.take(0), users@, nv), users@, fs));
    for i in 0..ps.len()
        invariant
            fs == string_views(fields@),
            nv == opt_chars(needle),
            records_view(kept@) == proc_records(passing_samples(ps@.take(i as int), users@, nv), users@, fs),
    {
        let ghost prev = passing_samples(ps@.take(i as int), users@, nv);
        assert(ps@.take(i + 1).drop_last() =~= ps@.take(i as int));
        assert(ps@.take(i + 1).last() == ps@[i as int]);
        if filter_passes(&ps[i], &users, &needle) {
            let rec = proc_fields(&ps[i], &users, &fields);
            let ghost before = kept@;
            kept.push(rec);
            assert(records_view(kept@) =~= records_view(before).push(record_view(rec@)));
            assert(proc_records(prev.push(ps@[i as int]), users@, fs) =~= proc_records(prev, users@, fs).push(
                proc_record(ps@[i as int], users@, fs),
            ));
        }
    }
    assert(ps@.take(ps.len() as int) =~= ps@);
    sort_records(kept, SortKey::Pid)
}

// ---------------------------------------------------------------------------
// Laws
// ---------------------------------------------------------------------------

proof fn lemma_passing_in(ps: Seq<ProcSample>, users: Seq<(u32, Seq<char>)>, needle: Option<Seq<char>>)
    ensures
        forall|i: int| 0 <= i < passing_samples(ps, users, needle).len() ==> {
            let q = #[trigger] passing_samples(ps, users, needle)[i];
            ps.contains(q) && sample_passes(q, users, needle)
        },
    decreases ps.len(),
{
    if ps.len() > 0 {
        let t = ps.drop_last();
        lemma_passing_in(t, users, needle);
        let prev = passing_samples(t, users, needle);
        let cur = passing_samples(ps, users, needle);
        assert forall|i: int| 0 <= i < cur.len() implies ps.contains(#[trigger] cur[i]) && sample_passes(cur[i], users, needle) by {
            if i < prev.len() {
                assert(cur[i] == prev[i]);
                let k = choose|k: int| 0 <= k < t.len() && t[k] == prev[i];
                assert(ps[k] == t[k]);
            } else {
                assert(ps[ps.len() - 1] == cur[i]);
            }
        }
    }
}

proof fn lemma_passing_all(ps: Seq<ProcSample>, users: Seq<(u32, Seq<char>)>)
    ensures
        passing_samples(ps, users, None) == ps,
    decreases ps.len(),
{
    if ps.len() > 0 {
        lemma_passing_all(ps.drop_last(), users);
        assert(ps.drop_last().push(ps.last()) =~= ps);
    }
}

/// The process listing is ordered by PID; each record in it is the record,
/// with the fields asked for, of a process found whose command, name or user
/// contains the filter; and it holds each such record as often as such
/// processes were found.
pub proof fn law_process_listing(args: ToolArgs, passwd: Result<Seq<char>, Seq<char>>, ps: Seq<ProcSample>)
    ensures
        ({
            let listing = proc_listing(args, passwd, ps);
            let users = uid_table(passwd);
            let needle = listing_needle(args);
            let fields = listed_fields(args);
            let passing = passing_samples(ps, users, needle);
            &&& forall|i: int, j: int| 0 <= i < j < listing.len() ==> pid_key(#[trigger] listing[i]) <= pid_key(#[trigger] listing[j])
            &&& forall|i: int| 0 <= i < listing.len() ==> exists|k: int| 0 <= k < ps.len() && sample_passes(ps[k], users, needle)
                && #[trigger] listing[i] == proc_record(ps[k], users, fields)
            &&& listing.to_multiset() == proc_records(passing, users, fields).to_multiset()
        }),
{
    broadcast use vstd::seq_lib::to_multiset_contains;
    let users = uid_table(passwd);
    let needle = listing_needle(args);
    let fields = listed_fields(args);
    let passing = passing_samples(ps, users, needle);
    let recs = proc_records(passing, users, fields);
    let listing = proc_listing(args, passwd, ps);
    let le = record_le(SortKey::Pid);
    lemma_record_order(SortKey::Pid);
    lemma_sort_orders(recs, le);
    lemma_sort_permutes(recs, le);
    lemma_passing_in(ps, users, needle);
    assert forall|i: int, j: int| 0 <= i < j < listing.len() implies pid_key(#[trigger] listing[i]) <= pid_key(#[trigger] listing[j]) by {
        assert(le(listing[i], listing[j]));
    }
    assert forall|i: int| 0 <= i < listing.len() implies exists|k: int| 0 <= k < ps.len() && sample_passes(ps[k], users, needle)
        && #[trigger] listing[i] == proc_record(ps[k], users, fields) by {
        let e = listing[i];
        assert(listing.contains(e));
        assert(recs.to_multiset().count(e) > 0);
        assert(recs.contains(e));
        let m = choose|m: int| 0 <= m < recs.len() && recs[m] == e;
        let q = passing[m];
        assert(ps.contains(q) && sample_passes(q, users, needle));
        let k = choose|k: int| 0 <= k < ps.len() && ps[k] == q;
        assert(e == proc_record(ps[k], users, fields));
    }
}

// The filter on records, and how filtering meets sorting.

proof fn lemma_key_index_keys(r1: RecordView, r2: RecordView, key: Seq<char>)
    requires
        r1.len() == r2.len(),
        forall|j: int| 0 <= j < r1.len() ==> #[trigger] r1[j].0 == r2[j].0,
    ensures
        key_index(r1, key) == key_index(r2, key),
    decreases r1.len(),
{
    if r1.len() > 0 {
        let a = r1.drop_last();
        let b = r2.drop_last();
        assert forall|j: int| 0 <= j < a.len() implies #[trigger] a[j].0 == b[j].0 by {
            assert(a[j] == r1[j] && b[j] == r2[j]);
        }
        lemma_key_index_keys(a, b, key);
        assert(r1.last().0 == r2.last().0);
    }
}

proof fn lemma_field_insert(r: RecordView, k: Seq<char>, v: ValueView, key: Seq<char>)
    ensures
        field(insert_field(r, k, v), key) == if key == k { Some(v) } else { field(r, key) },
{
    lemma_key_index_bounds(r, k);
    lemma_key_index_bounds(r, key);
    match key_index(r, k) {
        Some(i) => {
            let r2 = r.update(i, (k, v));
            assert forall|j: int| 0 <= j < r.len() implies #[trigger] r[j].0 == r2[j].0 by {}
            lemma_key_index_keys(r, r2, key);
        },
        None => {
            let r2 = r.push((k, v));
            assert(r2.drop_last() =~= r);
        },
    }
}

proof fn lemma_record_field(p: ProcSample, users: Seq<(u32, Seq<char>)>, fields: Seq<Seq<char>>, key: Seq<char>)
    requires
        fields.contains(key),
        proc_value(p, users, key) is Some,
    ensures
        field(proc_record(p, users, fields), key) == proc_value(p, users, key),
    decreases fields.len(),
{
    let init = fields.drop_last();
    let last = fields.last();
    let r = proc_record(p, users, init);
    if let Some(v) = proc_value(p, users, last) {
        lemma_field_insert(r, last, v, key);
    }
    if last != key {
        let j = choose|j: int| 0 <= j < fields.len() && fields[j] == key;
        assert(init[j] == key);
        lemma_record_field(p, users, init, key);
    }
}

/// Whether the fields shown include those the filter reads.
pub open spec fn shows_filtered_fields(fields: Seq<Seq<char>>) -> bool {
    fields.contains("command"@) && fields.contains("name"@) && fields.contains("user"@)
}

proof fn lemma_record_passes(p: ProcSample, users: Seq<(u32, Seq<char>)>, fields: Seq<Seq<char>>, needle: Option<Seq<char>>)
    requires
        shows_filtered_fields(fields),
    ensures
        passes_filter(proc_record(p, users, fields), needle) == sample_passes(p, users, needle),
{
    reveal_strlit("pid");
    reveal_strlit("user");
    reveal_strlit("cpu");
    reveal_strlit("memory");
    reveal_strlit("virtual_memory");
    reveal_strlit("time");
    reveal_strlit("status");
    reveal_strlit("name");
    reveal_strlit("command");
    assert("pid"@[0] == 'p' && "user"@[0] == 'u' && "cpu"@[0] == 'c' && "cpu"@[1] == 'p' && "memory"@[0] == 'm');
    assert("virtual_memory"@[0] == 'v' && "time"@[0] == 't' && "status"@[0] == 's' && "name"@[0] == 'n');
    assert("command"@[0] == 'c' && "command"@[1] == 'o');
    assert(proc_value(p, users, "command"@) == Some(ValueView::Text(command_text(p))));
    assert(proc_value(p, users, "name"@) == Some(ValueView::Text(p.name@)));
    assert(proc_value(p, users, "user"@) == Some(ValueView::Text(user_text(p, users))));
    lemma_record_field(p, users, fields, "command"@);
    lemma_record_field(p, users, fields, "name"@);
    lemma_record_field(p, users, fields, "user"@);
    let r = proc_record(p, users, fields);
    assert(text_field(r, "command"@) == Some(command_text(p)));
    assert(text_field(r, "name"@) == Some(p.name@));
    assert(text_field(r, "user"@) == Some(user_text(p, users)));
}

proof fn lemma_records_keep(ps: Seq<ProcSample>, users: Seq<(u32, Seq<char>)>, fields: Seq<Seq<char>>, needle: Option<Seq<char>>)
    requires
        shows_filtered_fields(fields),
    ensures
        proc_records(passing_samples(ps, users, needle), users, fields) == keep_passing(proc_records(ps, users, fields), needle),
    decreases ps.len(),
{
    if ps.len() == 0 {
        assert(proc_records(passing_samples(ps, users, needle), users, fields) =~= Seq::<RecordView>::empty());
    } else {
        let t = ps.drop_last();
        let x = ps.last();
        lemma_records_keep(t, users, fields, needle);
        lemma_record_passes(x, users, fields, needle);
        let all = proc_records(ps, users, fields);
        assert(all.drop_last() =~= proc_records(t, users, fields));
        assert(all.last() == proc_record(x, users, fields));
        let prev = passing_samples(t, users, needle);
        assert(proc_records(prev.push(x), users, fields) =~= proc_records(prev, users, fields).push(proc_record(x, users, fields)));
    }
}

proof fn lemma_kept_in(s: Seq<RecordView>, needle: Option<Seq<char>>)
    ensures
        forall|i: int| 0 <= i < keep_passing(s, needle).len() ==> s.contains(#[trigger] keep_passing(s, needle)[i]),
    decreases s.len(),
{
    if s.len() > 0 {
        let t = s.drop_last();
        lemma_kept_in(t, needle);
        let prev = keep_passing(t, needle);
        let cur = keep_passing(s, needle);
        assert forall|i: int| 0 <= i < cur.len() implies s.contains(#[trigger] cur[i]) by {
            if i < prev.len() {
                assert(cur[i] == prev[i]);
                let k = choose|k: int| 0 <= k < t.len() && t[k] == prev[i];
                assert(s[k] == t[k]);
            } else {
                assert(s[s.len() - 1] == cur[i]);
            }
        }
    }
}

proof fn lemma_keep_insert(s: Seq<RecordView>, x: RecordView, le: spec_fn(RecordView, RecordView) -> bool, needle: Option<Seq<char>>)
    requires
        total_preorder(le),
        ordered(s, le),
    ensures
        keep_passing(insert_ordered(s, x, le), needle) == if passes_filter(x, needle) {
            insert_ordered(keep_passing(s, needle), x, le)
        } else {
            keep_passing(s, needle)
        },
    decreases s.len(),
{
    let k = keep_passing(s, needle);
    if s.len() == 0 {
        assert(seq![x].drop_last() =~= s);
        assert(s.push(x) =~= seq![x]);
    } else if le(s.last(), x) {
        assert(s.push(x).drop_last() =~= s);
        if passes_filter(x, needle) && k.len() > 0 {
            lemma_kept_in(s, needle);
            let e = k.last();
            assert(k[k.len() - 1] == e);
            assert(s.contains(e));
            let j = choose|j: int| 0 <= j < s.len() && s[j] == e;
            if j < s.len() - 1 {
                assert(le(s[j], s[s.len() - 1]));
            }
            assert(le(e, x));
        }
    } else {
        let t = s.drop_last();
        let last = s.last();
        assert(ordered(t, le)) by {
            assert forall|i: int, j: int| 0 <= i < j < t.len() implies le(#[trigger] t[i], #[trigger] t[j]) by {
                assert(le(s[i], s[j]));
            }
        }
        lemma_keep_insert(t, x, le, needle);
        let u = insert_ordered(t, x, le);
        assert(u.push(last).drop_last() =~= u);
        let kt = keep_passing(t, needle);
        if passes_filter(last, needle) {
            assert(kt.push(last).drop_last() =~= kt);
            assert(kt.push(last).last() == last);
        }
    }
}

proof fn lemma_keep_sort(s: Seq<RecordView>, le: spec_fn(RecordView, RecordView) -> bool, needle: Option<Seq<char>>)
    requires
        total_preorder(le),
    ensures
        stable_sort(keep_passing(s, needle), le) == keep_passing(stable_sort(s, le), needle),
    decreases s.len(),
{
    if s.len() > 0 {
        let t = s.drop_last();
        let x = s.last();
        lemma_keep_sort(t, le, needle);
        lemma_sort_orders(t, le);
        lemma_keep_insert(stable_sort(t, le), x, le, needle);
        let kt = keep_passing(t, needle);
        if passes_filter(x, needle) {
            assert(kt.push(x).drop_last() =~= kt);
            assert(kt.push(x).last() == x);
        }
    }
}

/// A filter narrows a listing: with the same fields, among them the
/// command, name and user, the listing with a filter holds exactly the
/// records of the listing without one whose command, name or user,
/// lower-cased, contains the filter lower-cased, in the same order.
pub proof fn law_filter_narrows(plain: ToolArgs, filtered: ToolArgs, passwd: Result<Seq<char>, Seq<char>>, ps: Seq<ProcSample>)
    requires
        listed_fields(plain) == listed_fields(filtered),
        shows_filtered_fields(listed_fields(plain)),
        plain.text("filter"@) is None,
    ensures
        proc_listing(filtered, passwd, ps) == keep_passing(proc_listing(plain, passwd, ps), listing_needle(filtered)),
{
    let users = uid_table(passwd);
    let fields = listed_fields(plain);
    let needle = listing_needle(filtered);
    let le = record_le(SortKey::Pid);
    lemma_record_order(SortKey::Pid);
    lemma_passing_all(ps, users);
    lemma_records_keep(ps, users, fields, needle);
    lemma_keep_sort(proc_records(ps, users, fields), le, needle);
}

/// The filter is case-insensitive: two ASCII filters that differ only in
/// the case of their letters (a filter and its upper-case form, by
/// `lemma_ascii_upper_lower`) give the same listing.
pub proof fn law_filter_case(a1: ToolArgs, a2: ToolArgs, passwd: Result<Seq<char>, Seq<char>>, ps: Seq<ProcSample>)
    requires
        listed_fields(a1) == listed_fields(a2),
        a1.text("filter"@) is Some,
        a2.text("filter"@) is Some,
        ascii_text(a1.text("filter"@)->0),
        ascii_text(a2.text("filter"@)->0),
        ascii_lower(a1.text("filter"@)->0) == ascii_lower(a2.text("filter"@)->0),
    ensures
        proc_listing(a1, passwd, ps) == proc_listing(a2, passwd, ps),
{
}

} // verus!
